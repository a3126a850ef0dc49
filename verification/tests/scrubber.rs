use storage_scrubber::analysis::{
    apply_probe_results, branch_cleanup_and_check_errors, TimelineAnalysis,
};
use storage_scrubber::generation::{parse_suffix, Generation};
use storage_scrubber::ids::{BranchData, ShardIndex, TenantId, TenantShardTimelineId, TimelineId};
use storage_scrubber::index::{PushError, TenantObjectListing};
use storage_scrubber::layer::{
    parse_layer_object_name, remote_layer_path, render_layer_key, LayerName, LayerNameParseError,
};
use storage_scrubber::layermap::check_valid_layermap;
use storage_scrubber::manifest::{known_version, IndexPart, LayerFileMetadata, TimelineMetadata};
use storage_scrubber::reconcile::{
    finish_timeline_blobs, plan_timeline_blobs, scan_timeline_listing, select_index_part,
    BlobDataParseResult, ListingObject, ReconcileStep, RemoteTimelineBlobData,
};

fn delta(ks: u64, ke: u64, ls: u64, le: u64) -> LayerName {
    LayerName::Delta { key_start: ks, key_end: ke, lsn_start: ls, lsn_end: le }
}

fn image(ks: u64, ke: u64, lsn: u64) -> LayerName {
    LayerName::Image { key_start: ks, key_end: ke, lsn }
}

fn md(size: u64, shard: ShardIndex, generation: Generation) -> LayerFileMetadata {
    LayerFileMetadata { file_size: size, shard, generation }
}

fn unsharded() -> ShardIndex {
    ShardIndex::new(0, 0)
}

fn ttid(tenant: u128, timeline: u128) -> TenantShardTimelineId {
    TenantShardTimelineId {
        tenant_id: TenantId(tenant),
        shard_index: unsharded(),
        timeline_id: TimelineId(timeline),
    }
}

fn obj(key: &str) -> ListingObject {
    ListingObject { key: key.to_string(), size: 100 }
}

fn parsed_data(part: IndexPart) -> RemoteTimelineBlobData {
    RemoteTimelineBlobData {
        blob_data: BlobDataParseResult::Parsed {
            index_part: part,
            index_part_generation: Generation::none(),
            s3_layers: Vec::new(),
        },
        unused_index_keys: Vec::new(),
        unknown_keys: Vec::new(),
    }
}

fn plain_manifest(layers: Vec<(LayerName, LayerFileMetadata)>) -> IndexPart {
    IndexPart {
        version: 11,
        layer_metadata: layers,
        metadata: TimelineMetadata { disk_consistent_lsn: 0x100, ancestor_timeline: None },
        disk_consistent_lsn: 0x100,
    }
}

// Layer map validation

#[test]
fn empty_layer_map_is_valid() {
    assert!(check_valid_layermap(&Vec::new()).is_none());
}

#[test]
fn image_layers_never_violate() {
    let g = Generation::none();
    let layers = vec![
        (image(0, 10, 5), md(1, unsharded(), g)),
        (image(0, 10, 7), md(1, unsharded(), g)),
    ];
    assert!(check_valid_layermap(&layers).is_none());
}

#[test]
fn validator_is_deterministic_and_order_independent() {
    let g = Generation::none();
    let l1 = (delta(0, 10, 0, 100), md(1, unsharded(), g));
    let l2 = (delta(0, 10, 0, 40), md(1, unsharded(), g));
    let l3 = (delta(0, 10, 40, 100), md(1, unsharded(), g));
    let a = vec![l1.clone(), l2.clone(), l3.clone()];
    let b = vec![l3, l2, l1];
    let ra1 = check_valid_layermap(&a);
    let ra2 = check_valid_layermap(&a);
    let rb = check_valid_layermap(&b);
    // repeated validation returns the same verdict; reordering keeps it too
    assert_eq!(ra1.is_some(), ra2.is_some());
    assert_eq!(ra1.is_some(), rb.is_some());
    let (v1, v2) = (ra1.unwrap(), ra2.unwrap());
    assert_eq!(v1.layer, v2.layer);
    assert_eq!(v1.points, v2.points);
}

#[test]
fn single_key_delta_is_exempt() {
    let g = Generation::none();
    // the single-key layer splits [20, 30) inside the other layer's LSN range
    let layers = vec![
        (delta(0, 10, 0, 100), md(1, unsharded(), g)),
        (delta(5, 6, 20, 30), md(1, unsharded(), g)),
        (delta(5, 6, 30, 90), md(1, unsharded(), g)),
    ];
    assert!(check_valid_layermap(&layers).is_none());
}

#[test]
fn disjoint_lsn_ranges_are_valid() {
    let g = Generation::none();
    let layers = vec![
        (delta(0, 10, 0, 40), md(1, unsharded(), g)),
        (delta(0, 10, 40, 100), md(1, unsharded(), g)),
        (delta(0, 10, 100, 130), md(1, unsharded(), g)),
    ];
    assert!(check_valid_layermap(&layers).is_none());
}

#[test]
fn canonical_violation_names_the_straddling_layer() {
    let g = Generation::none();
    let layer1 = delta(0, 10, 0, 100);
    let layers = vec![
        (layer1, md(1, unsharded(), g)),
        (delta(0, 10, 0, 40), md(1, unsharded(), g)),
        (delta(0, 10, 40, 100), md(1, unsharded(), g)),
    ];
    let v = check_valid_layermap(&layers).expect("layer1 straddles the split point 40");
    assert_eq!(v.layer, layer1);
    assert_eq!(v.points, vec![0, 40]);
}

// Generation ordering and manifest selection

#[test]
fn generation_order_is_none_then_numeric() {
    assert!(Generation::none().lt(&Generation::new(1)));
    assert!(Generation::new(1).lt(&Generation::new(2)));
    assert!(!Generation::new(2).lt(&Generation::new(1)));
    assert!(!Generation::none().lt(&Generation::none()));
}

#[test]
fn selection_picks_highest_generation() {
    let cands = vec![
        (obj("t/index_part.json"), "index_part.json".to_string()),
        (obj("t/index_part.json-00000001"), "index_part.json-00000001".to_string()),
        (obj("t/index_part.json-00000002"), "index_part.json-00000002".to_string()),
    ];
    let (i, g) = select_index_part(&cands).unwrap();
    assert_eq!(i, 2);
    assert_eq!(g, Generation::new(2));
}

#[test]
fn selection_falls_back_to_legacy_name() {
    let cands = vec![(obj("t/index_part.json"), "index_part.json".to_string())];
    let (i, g) = select_index_part(&cands).unwrap();
    assert_eq!(i, 0);
    assert_eq!(g, Generation::none());
    assert!(select_index_part(&Vec::new()).is_none());
}

// Layer name round trip

#[test]
fn layer_name_round_trip() {
    let cases = vec![
        (image(0, 1, 0x10), Generation::none()),
        (image(0xdead, 0xbeef, 0x1234), Generation::new(7)),
        (delta(0, u64::MAX, 0, 100), Generation::none()),
        (delta(3, 9, 0x10, 0x20), Generation::new(0xabcdef)),
    ];
    for (name, gen) in cases {
        let rendered = render_layer_key(&name, &gen);
        let (n2, g2) = parse_layer_object_name(&rendered).expect("rendered names parse back");
        assert_eq!(n2, name);
        assert_eq!(g2, gen);
    }
}

#[test]
fn rendered_name_without_generation_has_no_suffix() {
    let rendered = render_layer_key(&image(0, 1, 0x10), &Generation::none());
    assert_eq!(
        rendered,
        "0000000000000000-0000000000000001__0000000000000010"
    );
    let last = rendered.rsplit_once('-').unwrap().1;
    assert_ne!(last.len(), 8);
}

#[test]
fn generation_suffix_renders_as_eight_hex_digits() {
    let rendered = render_layer_key(&image(0, 1, 0x10), &Generation::new(0xa));
    assert!(rendered.ends_with("-0000000a"));
    let (n2, g2) = parse_layer_object_name(&rendered).unwrap();
    assert_eq!(n2, image(0, 1, 0x10));
    assert_eq!(g2, Generation::new(0xa));
}

#[test]
fn malformed_names_are_rejected() {
    assert_eq!(
        parse_layer_object_name("garbage"),
        Err(LayerNameParseError::MalformedLayerName)
    );
    // a valid descriptor with an eight-character non-hex tail
    let mut name = render_layer_key(&image(0, 1, 0x10), &Generation::none());
    name.push_str("-zzzzzzzz");
    assert_eq!(
        parse_layer_object_name(&name),
        Err(LayerNameParseError::MalformedGenerationSuffix)
    );
}

#[test]
fn remote_layer_path_renders_the_full_key() {
    let path = remote_layer_path(
        &TenantId(1),
        &unsharded(),
        &TimelineId(2),
        &image(0, 1, 0x10),
        &Generation::none(),
    );
    assert_eq!(
        path,
        "tenants/00000000000000000000000000000001/timelines/00000000000000000000000000000002/0000000000000000-0000000000000001__0000000000000010"
    );
    let sharded = remote_layer_path(
        &TenantId(1),
        &ShardIndex::new(1, 4),
        &TimelineId(2),
        &image(0, 1, 0x10),
        &Generation::new(3),
    );
    assert!(sharded.starts_with("tenants/00000000000000000000000000000001-0104/timelines/"));
    assert!(sharded.ends_with("-00000003"));
}

// Reference counting

#[test]
fn reference_counting_finds_orphans() {
    let mut index = TenantObjectListing::new();
    let t = ttid(1, 7);
    let l1 = (delta(0, 10, 0, 40), Generation::new(1));
    let l2 = (image(0, 10, 40), Generation::new(1));
    index.push(t, vec![l1, l2]).unwrap();

    let meta = md(100, unsharded(), Generation::new(1));
    assert!(index.check_ref(t.timeline_id, &l1.0, &meta));
    assert!(index.check_ref(t.timeline_id, &l1.0, &meta));

    let orphans = index.get_orphans();
    assert_eq!(orphans, vec![(unsharded(), t.timeline_id, l2.0, Generation::new(1))]);
}

#[test]
fn marking_an_unlisted_layer_changes_nothing() {
    let mut index = TenantObjectListing::new();
    let t = ttid(1, 7);
    index.push(t, vec![(image(0, 10, 40), Generation::new(1))]).unwrap();
    let before = index.get_orphans();
    // never listed: different generation
    let meta = md(100, unsharded(), Generation::new(2));
    assert!(!index.check_ref(t.timeline_id, &image(0, 10, 40), &meta));
    // never listed: unknown timeline
    assert!(!index.check_ref(TimelineId(99), &image(0, 10, 40), &md(1, unsharded(), Generation::new(1))));
    assert_eq!(index.get_orphans(), before);
}

#[test]
fn orphan_query_is_idempotent() {
    let mut index = TenantObjectListing::new();
    index
        .push(ttid(1, 7), vec![(image(0, 10, 40), Generation::none())])
        .unwrap();
    assert_eq!(index.get_orphans(), index.get_orphans());
}

#[test]
fn double_listing_is_rejected() {
    let mut index = TenantObjectListing::new();
    let t = ttid(1, 7);
    index.push(t, vec![(image(0, 10, 40), Generation::none())]).unwrap();
    let r = index.push(t, vec![(image(0, 10, 41), Generation::none())]);
    assert_eq!(r, Err(PushError::DuplicateShardTimeline));
    // the rejected push left the index unchanged
    assert_eq!(index.get_orphans().len(), 1);
}

// Listing reconciliation

#[test]
fn scan_classifies_entries() {
    let prefix = "tenants/t/timelines/tl/";
    let layer_name = render_layer_key(&image(0, 1, 0x10), &Generation::new(5));
    let entries = vec![
        obj(&format!("{prefix}index_part.json-00000002")),
        obj(&format!("{prefix}initdb.tar.zst")),
        obj(&format!("{prefix}initdb-preserved.tar.zst")),
        obj(&format!("{prefix}{layer_name}")),
        obj(&format!("{prefix}not-a-layer")),
        obj("elsewhere/odd"),
    ];
    let scan = scan_timeline_listing(prefix, &entries);
    assert_eq!(scan.index_candidates.len(), 1);
    assert_eq!(scan.index_candidates[0].1, "index_part.json-00000002");
    assert!(scan.initdb_archive);
    assert_eq!(scan.layers, vec![(image(0, 1, 0x10), Generation::new(5))]);
    assert_eq!(scan.unknown_keys.len(), 2);
    assert_eq!(
        scan.errors,
        vec![
            format!(
                "listing contains an object with key {prefix}not-a-layer that is not a layer name: malformed layer name"
            ),
            "listing contains an object with odd key elsewhere/odd".to_string(),
        ]
    );
}

#[test]
fn scan_deduplicates_layer_identities() {
    let prefix = "p/";
    let layer_name = render_layer_key(&image(0, 1, 0x10), &Generation::none());
    let entries = vec![obj(&format!("p/{layer_name}")), obj(&format!("p/{layer_name}"))];
    let scan = scan_timeline_listing(prefix, &entries);
    assert_eq!(scan.layers.len(), 1);
}

#[test]
fn relic_detection() {
    let entries = vec![obj("p/initdb.tar.zst")];
    let scan = scan_timeline_listing("p/", &entries);
    let step = plan_timeline_blobs(scan);
    let data = match step {
        ReconcileStep::Done(d) => d,
        _ => panic!("a bare initdb archive is a relic, nothing to fetch"),
    };
    assert!(matches!(data.blob_data, BlobDataParseResult::Relic));
    assert!(data.unused_index_keys.is_empty());
    assert!(data.unknown_keys.is_empty());

    // and a relic timeline is healthy
    let mut index = TenantObjectListing::new();
    let (analysis, probes) =
        branch_cleanup_and_check_errors(&ttid(1, 7), &mut index, None, None, Some(data));
    assert!(analysis.is_healthy());
    assert!(probes.is_empty());
    assert!(analysis.garbage_keys.is_empty());
}

#[test]
fn missing_manifest_is_an_error() {
    let layer_name = render_layer_key(&image(0, 1, 0x10), &Generation::none());
    let entries = vec![obj(&format!("p/{layer_name}"))];
    let scan = scan_timeline_listing("p/", &entries);
    let data = match plan_timeline_blobs(scan) {
        ReconcileStep::Done(d) => d,
        _ => panic!("nothing to fetch without a manifest candidate"),
    };
    match &data.blob_data {
        BlobDataParseResult::Incorrect { errors, s3_layers } => {
            assert_eq!(errors, &vec!["listing contains no manifest file".to_string()]);
            assert_eq!(s3_layers.len(), 1);
        },
        _ => panic!("no manifest means an incorrect result"),
    }
}

#[test]
fn fetch_and_finish_round() {
    let entries = vec![
        obj("p/index_part.json-00000001"),
        obj("p/index_part.json-00000002"),
    ];
    let scan = scan_timeline_listing("p/", &entries);
    let (selected, generation, rest) = match plan_timeline_blobs(scan) {
        ReconcileStep::Fetch { selected, generation, rest } => (selected, generation, rest),
        _ => panic!("a manifest candidate must be fetched"),
    };
    assert_eq!(selected.key, "p/index_part.json-00000002");
    assert_eq!(generation, Generation::new(2));
    assert_eq!(rest.unused_index_keys.len(), 1);
    assert_eq!(rest.unused_index_keys[0].key, "p/index_part.json-00000001");

    let part = plain_manifest(Vec::new());
    let data = finish_timeline_blobs(rest, generation, Ok(part));
    match &data.blob_data {
        BlobDataParseResult::Parsed { index_part, index_part_generation, .. } => {
            assert_eq!(index_part.version, 11);
            assert_eq!(*index_part_generation, Generation::new(2));
        },
        _ => panic!("a decoded manifest yields a parsed result"),
    }
}

#[test]
fn manifest_decode_failure_is_recorded() {
    let entries = vec![obj("p/index_part.json-00000001")];
    let scan = scan_timeline_listing("p/", &entries);
    let (_selected, generation, rest) = match plan_timeline_blobs(scan) {
        ReconcileStep::Fetch { selected, generation, rest } => (selected, generation, rest),
        _ => panic!("a manifest candidate must be fetched"),
    };
    let data = finish_timeline_blobs(rest, generation, Err("bad json".to_string()));
    match &data.blob_data {
        BlobDataParseResult::Incorrect { errors, .. } => {
            assert_eq!(errors, &vec!["manifest body parsing error: bad json".to_string()]);
        },
        _ => panic!("a decode failure yields an incorrect result"),
    }
}

// Timeline analysis

#[test]
fn new_analysis_is_healthy() {
    let a = TimelineAnalysis::new();
    assert!(a.is_healthy());
    assert!(a.errors.is_empty() && a.warnings.is_empty() && a.garbage_keys.is_empty());
}

#[test]
fn no_data_at_all_is_an_error() {
    let mut index = TenantObjectListing::new();
    let (analysis, probes) =
        branch_cleanup_and_check_errors(&ttid(1, 7), &mut index, None, None, None);
    assert_eq!(analysis.errors, vec!["timeline has no data in remote storage at all".to_string()]);
    assert!(probes.is_empty());
    assert!(!analysis.is_healthy());
}

#[test]
fn branch_cross_check_errors_both_ways() {
    let b = BranchData { id: 5, project_id: 6 };
    let mut index = TenantObjectListing::new();
    let (with_console, _) = branch_cleanup_and_check_errors(
        &ttid(1, 7),
        &mut index,
        Some(&b),
        Some(b),
        None,
    );
    assert_eq!(with_console.errors.len(), 2);
    assert!(with_console.errors[0].contains("deleted branch data"));

    let mut index = TenantObjectListing::new();
    let (without_console, _) =
        branch_cleanup_and_check_errors(&ttid(1, 7), &mut index, Some(&b), None, None);
    assert!(without_console.errors[0].contains("no branch data"));
}

#[test]
fn root_timeline_with_empty_layer_map_is_an_error() {
    let mut index = TenantObjectListing::new();
    let (analysis, _) = branch_cleanup_and_check_errors(
        &ttid(1, 7),
        &mut index,
        None,
        None,
        Some(parsed_data(plain_manifest(Vec::new()))),
    );
    assert_eq!(
        analysis.errors,
        vec!["manifest has no layers, and the timeline has no ancestor".to_string()]
    );

    let mut part = plain_manifest(Vec::new());
    part.metadata.ancestor_timeline = Some(TimelineId(9));
    let mut index = TenantObjectListing::new();
    let (analysis, _) =
        branch_cleanup_and_check_errors(&ttid(1, 7), &mut index, None, None, Some(parsed_data(part)));
    assert!(analysis.errors.is_empty());
}

#[test]
fn unknown_manifest_version_is_an_error() {
    let mut part = plain_manifest(Vec::new());
    part.version = 12;
    part.metadata.ancestor_timeline = Some(TimelineId(9));
    let mut index = TenantObjectListing::new();
    let (analysis, _) =
        branch_cleanup_and_check_errors(&ttid(1, 7), &mut index, None, None, Some(parsed_data(part)));
    assert_eq!(analysis.errors, vec!["manifest version is not known: 12".to_string()]);
}

#[test]
fn mismatching_disk_consistent_lsn_is_an_error() {
    let mut part = plain_manifest(Vec::new());
    part.metadata.ancestor_timeline = Some(TimelineId(9));
    part.disk_consistent_lsn = 0x200;
    let mut index = TenantObjectListing::new();
    let (analysis, _) =
        branch_cleanup_and_check_errors(&ttid(1, 7), &mut index, None, None, Some(parsed_data(part)));
    assert_eq!(analysis.errors.len(), 1);
    assert!(analysis.errors[0].contains("mismatching disk_consistent_lsn"));
    assert!(analysis.errors[0].contains("0000000000000100"));
    assert!(analysis.errors[0].contains("0000000000000200"));
}

#[test]
fn zero_size_layer_is_an_error() {
    let g = Generation::new(1);
    let layer = image(0, 10, 40);
    let part = plain_manifest(vec![(layer, md(0, unsharded(), g))]);
    let t = ttid(1, 7);
    let mut index = TenantObjectListing::new();
    index.push(t, vec![(layer, g)]).unwrap();
    let (analysis, probes) =
        branch_cleanup_and_check_errors(&t, &mut index, None, None, Some(parsed_data(part)));
    assert_eq!(analysis.errors.len(), 1);
    assert!(analysis.errors[0].contains("0 size"));
    assert!(probes.is_empty());
}

#[test]
fn invalid_layer_map_in_manifest_is_an_error() {
    let g = Generation::new(1);
    let layers = vec![
        (delta(0, 10, 0, 100), md(1, unsharded(), g)),
        (delta(0, 10, 0, 40), md(1, unsharded(), g)),
        (delta(0, 10, 40, 100), md(1, unsharded(), g)),
    ];
    let t = ttid(1, 7);
    let mut index = TenantObjectListing::new();
    index
        .push(t, layers.iter().map(|(l, m)| (*l, m.generation)).collect())
        .unwrap();
    let part = plain_manifest(layers);
    let (analysis, probes) =
        branch_cleanup_and_check_errors(&t, &mut index, None, None, Some(parsed_data(part)));
    assert_eq!(analysis.errors.len(), 1);
    assert!(analysis.errors[0].contains("invalid layer map structure"));
    assert!(probes.is_empty());
}

#[test]
fn missing_l0_layer_is_a_warning_other_shapes_are_errors() {
    let g = Generation::new(1);
    let l0 = delta(0, u64::MAX, 0, 10);
    let other = image(0, 10, 40);
    let part = plain_manifest(vec![
        (l0, md(10, unsharded(), g)),
        (other, md(10, unsharded(), g)),
    ]);
    let t = ttid(1, 7);
    let mut index = TenantObjectListing::new();
    index.push(t, Vec::new()).unwrap();
    let (mut analysis, probes) =
        branch_cleanup_and_check_errors(&t, &mut index, None, None, Some(parsed_data(part)));
    assert_eq!(probes.len(), 2);
    assert!(analysis.is_healthy());

    // both probes failed to find the object
    apply_probe_results(&mut analysis, &probes, &vec![false, false]);
    assert_eq!(analysis.warnings.len(), 1);
    assert_eq!(analysis.errors.len(), 1);
    assert!(analysis.warnings[0].contains("(l0: true)"));
    assert!(analysis.errors[0].contains("(l0: false)"));
    assert!(!analysis.is_healthy());
}

#[test]
fn successful_probe_leaves_the_verdict_clean() {
    let g = Generation::new(1);
    let layer = image(0, 10, 40);
    let part = plain_manifest(vec![(layer, md(10, unsharded(), g))]);
    let t = ttid(1, 7);
    let mut index = TenantObjectListing::new();
    index.push(t, Vec::new()).unwrap();
    let (mut analysis, probes) =
        branch_cleanup_and_check_errors(&t, &mut index, None, None, Some(parsed_data(part)));
    assert_eq!(probes.len(), 1);
    assert_eq!(
        probes[0].path,
        remote_layer_path(&t.tenant_id, &unsharded(), &t.timeline_id, &layer, &g)
    );
    // the object was uploaded after the listing snapshot: the probe finds it
    apply_probe_results(&mut analysis, &probes, &vec![true]);
    assert!(analysis.is_healthy());
}

#[test]
fn incorrect_blob_data_surfaces_parse_errors_and_garbage() {
    let data = RemoteTimelineBlobData {
        blob_data: BlobDataParseResult::Incorrect {
            errors: vec!["broken".to_string()],
            s3_layers: Vec::new(),
        },
        unused_index_keys: Vec::new(),
        unknown_keys: vec![obj("p/strange")],
    };
    let mut index = TenantObjectListing::new();
    let (analysis, _) =
        branch_cleanup_and_check_errors(&ttid(1, 7), &mut index, None, None, Some(data));
    assert_eq!(analysis.errors, vec!["parse error: broken".to_string()]);
    assert_eq!(analysis.garbage_keys, vec!["p/strange".to_string()]);
}

#[test]
fn generation_suffix_parsing() {
    assert_eq!(parse_suffix("0000000a"), Some(Generation::new(10)));
    assert_eq!(parse_suffix("ffffffff"), Some(Generation::new(u32::MAX)));
    assert_eq!(parse_suffix("0000000"), None);
    assert_eq!(parse_suffix("0000000z"), None);
    assert_eq!(parse_suffix("000000001"), None);
}

#[test]
fn layer_kind_queries() {
    assert!(delta(0, 1, 0, 1).is_delta());
    assert!(!image(0, 1, 0).is_delta());
}

#[test]
fn known_version_bounds() {
    assert!(!known_version(0));
    assert!(known_version(1));
    assert!(known_version(11));
    assert!(!known_version(12));
}
