//! The per-timeline health verdict.
//!
//! `branch_cleanup_and_check_errors` combines the branch cross-check, the
//! manifest checks, the layer-map validation and the reference-count
//! cross-check into a verdict, and names the layers whose existence still
//! needs a direct storage probe (a race-tolerant second chance after a miss
//! in the listing index). `apply_probe_results` adds the probe outcomes;
//! a missing layer of the lowest compaction tier is a warning,
//! any other missing layer is an error. Garbage keys are candidates only:
//! listing and manifest snapshots can race concurrent writers, so an
//! unreferenced key is never promised to be deletable.

use vstd::prelude::*;
use vstd::string::StringExecFns;
use crate::generation::{Generation, gen_suffix_seq, append_gen_suffix};
use crate::hex::{hex_seq, append_hex};
use crate::ids::{BranchData, ShardIndex, TenantShardTimelineId, TenantId, TimelineId, id_seq,
    append_id};
use crate::index::{counts_only_increase, TenantObjectListing};
use crate::layer::{LayerName, layer_name_seq, append_layer_name, remote_layer_path_seq,
    remote_layer_path};
use crate::layermap::{check_valid_layermap, first_violator_from};
use crate::manifest::{IndexPart, LayerFileMetadata, layer_names_of, is_known_version,
    known_version};
use crate::reconcile::{BlobDataParseResult, ListingObject, RemoteTimelineBlobData};
use crate::strutil::{views_of, lemma_views_of_push, append_dec, dec_seq};

verus! {

/// The verdict for one timeline. Healthy means no errors and no warnings;
/// garbage keys are reported either way, and only ever as candidates.
pub struct TimelineAnalysis {
    /// Anomalies: the timeline is unhealthy.
    pub errors: Vec<String>,
    /// Noteworthy but triaged below errors (a transiently missing layer of
    /// the lowest compaction tier).
    pub warnings: Vec<String>,
    /// Keys not referenced by any manifest: candidates for removal, but not
    /// necessarily safe to remove — the listing may race concurrent writers.
    pub garbage_keys: Vec<String>,
}

impl TimelineAnalysis {
    pub fn new() -> (r: TimelineAnalysis)
        ensures
            r.errors@.len() == 0,
            r.warnings@.len() == 0,
            r.garbage_keys@.len() == 0,
    {
        TimelineAnalysis { errors: Vec::new(), warnings: Vec::new(), garbage_keys: Vec::new() }
    }

    /// Whether the timeline is healthy: no errors and no warnings.
    pub fn is_healthy(&self) -> (r: bool)
        ensures
            r == (self.errors@.len() == 0 && self.warnings@.len() == 0),
    {
        self.errors.len() == 0 && self.warnings.len() == 0
    }
}

/// A referenced layer that was not in the listing index: the caller should
/// probe `path` directly before the verdict is final.
pub struct MissingLayerProbe {
    pub layer: LayerName,
    pub generation: Generation,
    pub shard: ShardIndex,
    pub path: String,
}

/// The probe, with the path as a character sequence.
pub struct ProbeModel {
    pub layer: LayerName,
    pub generation: Generation,
    pub shard: ShardIndex,
    pub path: Seq<char>,
}

pub open spec fn probe_view(p: MissingLayerProbe) -> ProbeModel {
    ProbeModel { layer: p.layer, generation: p.generation, shard: p.shard, path: p.path@ }
}

pub open spec fn probes_view(s: Seq<MissingLayerProbe>) -> Seq<ProbeModel> {
    s.map_values(|p: MissingLayerProbe| probe_view(p))
}

/// A layer of the engine's lowest, unsorted compaction tier: a delta layer
/// covering the whole key space.
pub open spec fn is_l0(n: LayerName) -> bool {
    match n {
        LayerName::Delta { key_start, key_end, .. } => key_start == 0 && key_end == u64::MAX,
        LayerName::Image { .. } => false,
    }
}

pub fn is_l0_exec(n: &LayerName) -> (r: bool)
    ensures
        r == is_l0(*n),
{
    match n {
        LayerName::Delta { key_start, key_end, .. } => *key_start == 0 && *key_end == u64::MAX,
        LayerName::Image { .. } => false,
    }
}

pub open spec fn branch_deleted_msg(b: BranchData) -> Seq<char> {
    "timeline has deleted branch data in the control plane (branch "@ + id_seq(b.id)
        + ", project "@ + id_seq(b.project_id) + "), recheck whether it was removed during the check"@
}

pub open spec fn branch_missing_msg(b: BranchData) -> Seq<char> {
    "timeline has no branch data in the control plane (branch "@ + id_seq(b.id) + ", project "@
        + id_seq(b.project_id) + "), recheck whether it was removed during the check"@
}

pub open spec fn no_data_msg() -> Seq<char> {
    "timeline has no data in remote storage at all"@
}

pub open spec fn version_msg(v: u32) -> Seq<char> {
    "manifest version is not known: "@ + dec_seq(v as nat)
}

pub open spec fn lsn_msg(meta: u64, dup: u64) -> Seq<char> {
    "mismatching disk_consistent_lsn in the metadata ("@ + hex_seq(meta as nat, 16)
        + ") and in the manifest ("@ + hex_seq(dup as nat, 16) + ")"@
}

pub open spec fn no_layers_msg() -> Seq<char> {
    "manifest has no layers, and the timeline has no ancestor"@
}

pub open spec fn layermap_msg(l: LayerName) -> Seq<char> {
    "manifest contains an invalid layer map structure: layer "@ + layer_name_seq(l)
        + " straddles an LSN split point of another layer"@
}

pub open spec fn zero_size_msg(l: LayerName) -> Seq<char> {
    "manifest references a layer "@ + layer_name_seq(l) + " that has 0 size in its metadata"@
}

pub open spec fn missing_layer_msg(l: LayerName, g: Generation, shard: ShardIndex, l0: bool) -> Seq<
    char,
> {
    "manifest references a layer "@ + layer_name_seq(l) + gen_suffix_seq(g) + " (shard "@
        + hex_seq(shard.shard_number as nat, 2) + hex_seq(shard.shard_count as nat, 2)
        + ") that is not present in remote storage (l0: "@ + (if l0 {
        "true"@
    } else {
        "false"@
    }) + ")"@
}

pub open spec fn parse_error_wrap(e: Seq<char>) -> Seq<char> {
    "parse error: "@ + e
}

/// The branch existence cross-check: when a prior snapshot knew an active
/// branch, any disagreement of the current lookup — found again or missing —
/// is an error, since either points at a race with branch deletion.
pub open spec fn branch_errs(active: Option<BranchData>, console_present: bool) -> Seq<Seq<char>> {
    match active {
        Some(b) => if console_present {
            seq![branch_deleted_msg(b)]
        } else {
            seq![branch_missing_msg(b)]
        },
        None => Seq::empty(),
    }
}

/// One error per referenced layer whose declared file size is zero, in map
/// order.
pub open spec fn zero_size_errors(entries: Seq<(LayerName, LayerFileMetadata)>) -> Seq<Seq<char>>
    decreases entries.len(),
{
    if entries.len() == 0 {
        Seq::empty()
    } else {
        zero_size_errors(entries.drop_last()) + (if entries.last().1.file_size == 0 {
            seq![zero_size_msg(entries.last().0)]
        } else {
            Seq::<Seq<char>>::empty()
        })
    }
}

/// The referenced layers that no listing recorded, in map order, with the
/// exact storage path to probe.
pub open spec fn expected_probes(
    idx: TenantObjectListing,
    tenant: TenantId,
    tl: TimelineId,
    entries: Seq<(LayerName, LayerFileMetadata)>,
) -> Seq<ProbeModel>
    decreases entries.len(),
{
    if entries.len() == 0 {
        Seq::empty()
    } else {
        let rest = expected_probes(idx, tenant, tl, entries.drop_last());
        let (name, md) = entries.last();
        if idx.entry_present(md.shard, tl, name, md.generation) {
            rest
        } else {
            rest.push(
                ProbeModel {
                    layer: name,
                    generation: md.generation,
                    shard: md.shard,
                    path: remote_layer_path_seq(tenant, md.shard, tl, name, md.generation),
                },
            )
        }
    }
}

/// The errors of a parsed manifest, in check order: unknown version, LSN
/// mismatch, an empty layer map on a root timeline, an invalid layer map, and
/// zero-size layer references.
pub open spec fn parsed_errors(part: IndexPart) -> Seq<Seq<char>> {
    (if !is_known_version(part.version) {
        seq![version_msg(part.version)]
    } else {
        Seq::<Seq<char>>::empty()
    }) + (if part.metadata.disk_consistent_lsn != part.disk_consistent_lsn {
        seq![lsn_msg(part.metadata.disk_consistent_lsn, part.disk_consistent_lsn)]
    } else {
        Seq::<Seq<char>>::empty()
    }) + (if part.layer_metadata@.len() == 0 && part.metadata.ancestor_timeline is None {
        seq![no_layers_msg()]
    } else {
        Seq::<Seq<char>>::empty()
    }) + (match first_violator_from(layer_names_of(part.layer_metadata@), 0) {
        Some(l) => seq![layermap_msg(l)],
        None => Seq::<Seq<char>>::empty(),
    }) + zero_size_errors(part.layer_metadata@)
}

pub open spec fn wrap_parse_errors(s: Seq<Seq<char>>) -> Seq<Seq<char>> {
    s.map_values(|e: Seq<char>| parse_error_wrap(e))
}

/// The whole error list of the first analysis pass.
pub open spec fn analysis_errors(
    active: Option<BranchData>,
    console_present: bool,
    s3_data: Option<RemoteTimelineBlobData>,
) -> Seq<Seq<char>> {
    branch_errs(active, console_present) + match s3_data {
        None => seq![no_data_msg()],
        Some(d) => match d.blob_data {
            BlobDataParseResult::Parsed { index_part, .. } => parsed_errors(index_part),
            BlobDataParseResult::Relic => Seq::<Seq<char>>::empty(),
            BlobDataParseResult::Incorrect { errors, .. } => wrap_parse_errors(views_of(errors@)),
        },
    }
}

/// Unknown keys become garbage candidates whatever else the analysis finds.
pub open spec fn garbage_of(s3_data: Option<RemoteTimelineBlobData>) -> Seq<Seq<char>> {
    match s3_data {
        None => Seq::empty(),
        Some(d) => d.unknown_keys@.map_values(|o: ListingObject| o.key@),
    }
}

pub open spec fn probes_of(
    idx: TenantObjectListing,
    tenant: TenantId,
    tl: TimelineId,
    s3_data: Option<RemoteTimelineBlobData>,
) -> Seq<ProbeModel> {
    match s3_data {
        Some(d) => match d.blob_data {
            BlobDataParseResult::Parsed { index_part, .. } => expected_probes(
                idx,
                tenant,
                tl,
                index_part.layer_metadata@,
            ),
            _ => Seq::empty(),
        },
        None => Seq::empty(),
    }
}

pub open spec fn opt_deref(o: Option<&BranchData>) -> Option<BranchData> {
    match o {
        Some(b) => Some(*b),
        None => None,
    }
}

fn msg_branch(b: &BranchData, console_present: bool) -> (r: String)
    ensures
        console_present ==> r@ == branch_deleted_msg(*b),
        !console_present ==> r@ == branch_missing_msg(*b),
{
    let mut out = if console_present {
        String::from_str("timeline has deleted branch data in the control plane (branch ")
    } else {
        String::from_str("timeline has no branch data in the control plane (branch ")
    };
    append_id(&mut out, b.id);
    out.append(", project ");
    append_id(&mut out, b.project_id);
    out.append("), recheck whether it was removed during the check");
    proof {
        if console_present {
            assert(out@ =~= branch_deleted_msg(*b));
        } else {
            assert(out@ =~= branch_missing_msg(*b));
        }
    }
    out
}

fn msg_version(v: u32) -> (r: String)
    ensures
        r@ == version_msg(v),
{
    let mut out = String::from_str("manifest version is not known: ");
    append_dec(&mut out, v as u64);
    proof {
        assert(out@ =~= version_msg(v));
    }
    out
}

fn msg_lsn(meta: u64, dup: u64) -> (r: String)
    ensures
        r@ == lsn_msg(meta, dup),
{
    let mut out = String::from_str("mismatching disk_consistent_lsn in the metadata (");
    append_hex(&mut out, meta as u128, 16);
    out.append(") and in the manifest (");
    append_hex(&mut out, dup as u128, 16);
    out.append(")");
    proof {
        assert(out@ =~= lsn_msg(meta, dup));
    }
    out
}

fn msg_layermap(l: &LayerName) -> (r: String)
    ensures
        r@ == layermap_msg(*l),
{
    let mut out = String::from_str("manifest contains an invalid layer map structure: layer ");
    append_layer_name(&mut out, l);
    out.append(" straddles an LSN split point of another layer");
    proof {
        assert(out@ =~= layermap_msg(*l));
    }
    out
}

fn msg_zero_size(l: &LayerName) -> (r: String)
    ensures
        r@ == zero_size_msg(*l),
{
    let mut out = String::from_str("manifest references a layer ");
    append_layer_name(&mut out, l);
    out.append(" that has 0 size in its metadata");
    proof {
        assert(out@ =~= zero_size_msg(*l));
    }
    out
}

fn msg_missing_layer(l: &LayerName, g: &Generation, shard: &ShardIndex, l0: bool) -> (r: String)
    ensures
        r@ == missing_layer_msg(*l, *g, *shard, l0),
{
    let mut out = String::from_str("manifest references a layer ");
    append_layer_name(&mut out, l);
    append_gen_suffix(&mut out, g);
    out.append(" (shard ");
    append_hex(&mut out, shard.shard_number as u128, 2);
    append_hex(&mut out, shard.shard_count as u128, 2);
    out.append(") that is not present in remote storage (l0: ");
    if l0 {
        out.append("true");
    } else {
        out.append("false");
    }
    out.append(")");
    proof {
        assert(out@ =~= missing_layer_msg(*l, *g, *shard, l0));
    }
    out
}

/// The first analysis pass for one timeline: the branch cross-check, the
/// manifest checks, the layer-map validation, and the reference-count
/// cross-check against the tenant-wide index. Returns the verdict so far and
/// the layers that still need a direct existence probe; warnings can only
/// arise from those probes. The index's entries only gain references: nothing
/// is removed and presence is unchanged.
#[verifier::loop_isolation(false)]
#[verifier::rlimit(100)]
#[verifier::spinoff_prover]
pub fn branch_cleanup_and_check_errors(
    id: &TenantShardTimelineId,
    tenant_objects: &mut TenantObjectListing,
    s3_active_branch: Option<&BranchData>,
    console_branch: Option<BranchData>,
    s3_data: Option<RemoteTimelineBlobData>,
) -> (r: (TimelineAnalysis, Vec<MissingLayerProbe>))
    requires
        old(tenant_objects).wf(),
    ensures
        final(tenant_objects).wf(),
        final(tenant_objects).timelines@ == old(tenant_objects).timelines@,
        counts_only_increase(old(tenant_objects).layers@, final(tenant_objects).layers@),
        forall|s: ShardIndex, t: TimelineId, n: LayerName, g: Generation|
            final(tenant_objects).entry_present(s, t, n, g) == old(tenant_objects).entry_present(
                s,
                t,
                n,
                g,
            ),
        views_of(r.0.errors@) == analysis_errors(
            opt_deref(s3_active_branch),
            console_branch is Some,
            s3_data,
        ),
        r.0.warnings@.len() == 0,
        views_of(r.0.garbage_keys@) == garbage_of(s3_data),
        probes_view(r.1@) == probes_of(
            *old(tenant_objects),
            id.tenant_id,
            id.timeline_id,
            s3_data,
        ),
{
    let mut result = TimelineAnalysis::new();
    let mut probes: Vec<MissingLayerProbe> = Vec::new();
    proof {
        assert(views_of(result.errors@) =~= Seq::<Seq<char>>::empty());
        assert(views_of(result.garbage_keys@) =~= Seq::<Seq<char>>::empty());
        assert(probes_view(probes@) =~= Seq::<ProbeModel>::empty());
    }
    if let Some(b) = s3_active_branch {
        match &console_branch {
            Some(_) => {
                result.errors.push(msg_branch(b, true));
            },
            None => {
                result.errors.push(msg_branch(b, false));
            },
        }
        proof {
            lemma_views_of_push(Seq::<String>::empty(), result.errors@.last());
            assert(views_of(result.errors@) =~= branch_errs(
                opt_deref(s3_active_branch),
                console_branch is Some,
            ));
        }
    }
    let ghost base_errs = views_of(result.errors@);
    proof {
        assert(base_errs == branch_errs(opt_deref(s3_active_branch), console_branch is Some));
    }
    match s3_data {
        Some(d) => {
            let RemoteTimelineBlobData { blob_data, unused_index_keys: _, unknown_keys } = d;
            // every unknown key is a garbage candidate, whatever else is found
            let mut gi: usize = 0;
            let ghost unknown0 = unknown_keys@;
            let mut unknown_keys = unknown_keys;
            let gtotal = unknown_keys.len();
            while unknown_keys.len() > 0
                invariant
                    unknown0.len() == gtotal as int,
                    gi == unknown0.len() - unknown_keys@.len(),
                    gi <= gtotal,
                    unknown_keys@ == unknown0.skip(gi as int),
                    views_of(result.garbage_keys@) == unknown0.take(gi as int).map_values(
                        |o: ListingObject| o.key@,
                    ),
                    views_of(result.errors@) == base_errs,
                    result.warnings@.len() == 0,
                decreases unknown_keys@.len(),
            {
                let o = unknown_keys.remove(0);
                let ghost oldg = result.garbage_keys@;
                result.garbage_keys.push(o.key);
                proof {
                    assert(unknown0.skip(gi as int).remove(0) =~= unknown0.skip(gi as int + 1));
                    assert(unknown0.skip(gi as int)[0] == unknown0[gi as int]);
                    lemma_views_of_push(oldg, result.garbage_keys@.last());
                    assert(views_of(result.garbage_keys@) =~= unknown0.take(gi as int + 1)
                        .map_values(|o: ListingObject| o.key@));
                }
                gi += 1;
            }
            proof {
                assert(unknown0.take(unknown0.len() as int) =~= unknown0);
                assert(views_of(result.garbage_keys@) == garbage_of(s3_data));
            }
            match blob_data {
                BlobDataParseResult::Parsed { index_part, index_part_generation: _g, s3_layers: _l } => {
                    if !known_version(index_part.version) {
                        let ghost olde = result.errors@;
                        result.errors.push(msg_version(index_part.version));
                        proof {
                            lemma_views_of_push(olde, result.errors@.last());
                        }
                    }
                    if index_part.metadata.disk_consistent_lsn != index_part.disk_consistent_lsn {
                        let ghost olde = result.errors@;
                        result.errors.push(
                            msg_lsn(
                                index_part.metadata.disk_consistent_lsn,
                                index_part.disk_consistent_lsn,
                            ),
                        );
                        proof {
                            lemma_views_of_push(olde, result.errors@.last());
                        }
                    }
                    if index_part.layer_metadata.len() == 0 {
                        if index_part.metadata.ancestor_timeline.is_none() {
                            // a root timeline must always have at least one layer
                            let ghost olde = result.errors@;
                            proof {
                                reveal_strlit(
                                    "manifest has no layers, and the timeline has no ancestor",
                                );
                            }
                            result.errors.push(
                                String::from_str(
                                    "manifest has no layers, and the timeline has no ancestor",
                                ),
                            );
                            proof {
                                lemma_views_of_push(olde, result.errors@.last());
                            }
                        }
                        // with an ancestor an empty layer map is legitimate: a
                        // branch with zero writes
                    }
                    if let Some(violation) = check_valid_layermap(&index_part.layer_metadata) {
                        let ghost olde = result.errors@;
                        result.errors.push(msg_layermap(&violation.layer));
                        proof {
                            lemma_views_of_push(olde, result.errors@.last());
                        }
                    }
                    let ghost static_errs = views_of(result.errors@);
                    proof {
                        assert(static_errs =~= base_errs + (if !is_known_version(
                            index_part.version,
                        ) {
                            seq![version_msg(index_part.version)]
                        } else {
                            Seq::<Seq<char>>::empty()
                        }) + (if index_part.metadata.disk_consistent_lsn
                            != index_part.disk_consistent_lsn {
                            seq![
                                lsn_msg(
                                    index_part.metadata.disk_consistent_lsn,
                                    index_part.disk_consistent_lsn,
                                ),
                            ]
                        } else {
                            Seq::<Seq<char>>::empty()
                        }) + (if index_part.layer_metadata@.len() == 0
                            && index_part.metadata.ancestor_timeline is None {
                            seq![no_layers_msg()]
                        } else {
                            Seq::<Seq<char>>::empty()
                        }) + (match first_violator_from(
                            layer_names_of(index_part.layer_metadata@),
                            0,
                        ) {
                            Some(l) => seq![layermap_msg(l)],
                            None => Seq::<Seq<char>>::empty(),
                        }));
                        assert(zero_size_errors(index_part.layer_metadata@.take(0))
                            =~= Seq::<Seq<char>>::empty());
                        assert(expected_probes(
                            *old(tenant_objects),
                            id.tenant_id,
                            id.timeline_id,
                            index_part.layer_metadata@.take(0),
                        ) =~= Seq::<ProbeModel>::empty());
                    }
                    let n = index_part.layer_metadata.len();
                    let mut i: usize = 0;
                    while i < n
                        invariant
                            0 <= i <= n,
                            n == index_part.layer_metadata@.len(),
                            tenant_objects.wf(),
                            tenant_objects.timelines@ == old(tenant_objects).timelines@,
                            counts_only_increase(
                                old(tenant_objects).layers@,
                                tenant_objects.layers@,
                            ),
                            forall|s: ShardIndex, t: TimelineId, nm: LayerName, g: Generation|
                                tenant_objects.entry_present(s, t, nm, g) == old(
                                    tenant_objects,
                                ).entry_present(s, t, nm, g),
                            views_of(result.errors@) == static_errs + zero_size_errors(
                                index_part.layer_metadata@.take(i as int),
                            ),
                            probes_view(probes@) == expected_probes(
                                *old(tenant_objects),
                                id.tenant_id,
                                id.timeline_id,
                                index_part.layer_metadata@.take(i as int),
                            ),
                            result.warnings@.len() == 0,
                            views_of(result.garbage_keys@) == garbage_of(s3_data),
                        decreases n - i,
                    {
                        let (layer, metadata) = index_part.layer_metadata[i];
                        let ghost entries = index_part.layer_metadata@;
                        proof {
                            assert(entries.take(i as int + 1).drop_last() =~= entries.take(
                                i as int,
                            ));
                            assert(entries.take(i as int + 1).last() == entries[i as int]);
                        }
                        if metadata.file_size == 0 {
                            let ghost olde = result.errors@;
                            result.errors.push(msg_zero_size(&layer));
                            proof {
                                lemma_views_of_push(olde, result.errors@.last());
                                assert(views_of(result.errors@) =~= static_errs
                                    + zero_size_errors(entries.take(i as int + 1)));
                            }
                        } else {
                            proof {
                                assert(zero_size_errors(entries.take(i as int + 1))
                                    =~= zero_size_errors(entries.take(i as int)));
                            }
                        }
                        if !tenant_objects.check_ref(id.timeline_id, &layer, &metadata) {
                            let path = remote_layer_path(
                                &id.tenant_id,
                                &metadata.shard,
                                &id.timeline_id,
                                &layer,
                                &metadata.generation,
                            );
                            let ghost oldp = probes@;
                            probes.push(
                                MissingLayerProbe {
                                    layer,
                                    generation: metadata.generation,
                                    shard: metadata.shard,
                                    path,
                                },
                            );
                            proof {
                                assert(probes_view(probes@) =~= probes_view(oldp).push(
                                    probe_view(probes@.last()),
                                ));
                            }
                        }
                        i += 1;
                    }
                    proof {
                        assert(index_part.layer_metadata@.take(n as int)
                            =~= index_part.layer_metadata@);
                        assert(views_of(result.errors@) =~= analysis_errors(
                            opt_deref(s3_active_branch),
                            console_branch is Some,
                            s3_data,
                        ));
                    }
                },
                BlobDataParseResult::Relic => {
                    proof {
                        assert(views_of(result.errors@) =~= analysis_errors(
                            opt_deref(s3_active_branch),
                            console_branch is Some,
                            s3_data,
                        ));
                    }
                },
                BlobDataParseResult::Incorrect { errors, s3_layers: _l } => {
                    let ghost perrs = views_of(errors@);
                    let mut errors = errors;
                    let mut k: usize = 0;
                    let ghost errs0 = errors@;
                    let ktotal = errors.len();
                    while errors.len() > 0
                        invariant
                            errs0.len() == ktotal as int,
                            k == errs0.len() - errors@.len(),
                            k <= ktotal,
                            errors@ == errs0.skip(k as int),
                            views_of(result.errors@) == base_errs + wrap_parse_errors(
                                views_of(errs0.take(k as int)),
                            ),
                            result.warnings@.len() == 0,
                            views_of(result.garbage_keys@) == garbage_of(s3_data),
                            tenant_objects.wf(),
                            tenant_objects.timelines@ == old(tenant_objects).timelines@,
                            forall|s: ShardIndex, t: TimelineId, nm: LayerName, g: Generation|
                                tenant_objects.entry_present(s, t, nm, g) == old(
                                    tenant_objects,
                                ).entry_present(s, t, nm, g),
                        decreases errors@.len(),
                    {
                        let e = errors.remove(0);
                        let mut msg = String::from_str("parse error: ");
                        msg.append(e.as_str());
                        proof {
                            reveal_strlit("parse error: ");
                            assert(msg@ =~= parse_error_wrap(e@));
                        }
                        let ghost olde = result.errors@;
                        result.errors.push(msg);
                        proof {
                            assert(errs0.skip(k as int).remove(0) =~= errs0.skip(k as int + 1));
                            assert(errs0.skip(k as int)[0] == errs0[k as int]);
                            lemma_views_of_push(olde, result.errors@.last());
                            assert(views_of(result.errors@) =~= base_errs + wrap_parse_errors(
                                views_of(errs0.take(k as int + 1)),
                            ));
                        }
                        k += 1;
                    }
                    proof {
                        assert(errs0.take(errs0.len() as int) =~= errs0);
                        assert(views_of(result.errors@) =~= analysis_errors(
                            opt_deref(s3_active_branch),
                            console_branch is Some,
                            s3_data,
                        ));
                    }
                },
            }
        },
        None => {
            proof {
                reveal_strlit("timeline has no data in remote storage at all");
            }
            let ghost olde = result.errors@;
            result.errors.push(String::from_str("timeline has no data in remote storage at all"));
            proof {
                lemma_views_of_push(olde, result.errors@.last());
                assert(views_of(result.errors@) =~= analysis_errors(
                    opt_deref(s3_active_branch),
                    console_branch is Some,
                    s3_data,
                ));
                assert(views_of(result.garbage_keys@) =~= garbage_of(s3_data));
            }
        },
    }
    (result, probes)
}

/// The errors contributed by failed probes: each missing layer that is not in
/// the lowest compaction tier, in probe order.
pub open spec fn missing_errors(probes: Seq<ProbeModel>, present: Seq<bool>) -> Seq<Seq<char>>
    decreases probes.len(),
{
    if probes.len() == 0 || present.len() != probes.len() {
        Seq::empty()
    } else {
        missing_errors(probes.drop_last(), present.drop_last()) + (if !present.last() && !is_l0(
            probes.last().layer,
        ) {
            seq![
                missing_layer_msg(
                    probes.last().layer,
                    probes.last().generation,
                    probes.last().shard,
                    false,
                ),
            ]
        } else {
            Seq::<Seq<char>>::empty()
        })
    }
}

/// The warnings contributed by failed probes: each missing layer of the
/// lowest compaction tier, in probe order — such layers go transiently
/// missing during compaction, so they are triaged below errors.
pub open spec fn missing_warnings(probes: Seq<ProbeModel>, present: Seq<bool>) -> Seq<Seq<char>>
    decreases probes.len(),
{
    if probes.len() == 0 || present.len() != probes.len() {
        Seq::empty()
    } else {
        missing_warnings(probes.drop_last(), present.drop_last()) + (if !present.last() && is_l0(
            probes.last().layer,
        ) {
            seq![
                missing_layer_msg(
                    probes.last().layer,
                    probes.last().generation,
                    probes.last().shard,
                    true,
                ),
            ]
        } else {
            Seq::<Seq<char>>::empty()
        })
    }
}

/// Adds the outcome of each direct existence probe to the analysis. A probe
/// that found the object contributes nothing; a missing lowest-tier layer
/// becomes a warning, any other missing layer an error.
#[verifier::loop_isolation(false)]
pub fn apply_probe_results(
    analysis: &mut TimelineAnalysis,
    probes: &Vec<MissingLayerProbe>,
    present: &Vec<bool>,
)
    requires
        present@.len() == probes@.len(),
    ensures
        views_of(final(analysis).errors@) == views_of(old(analysis).errors@) + missing_errors(
            probes_view(probes@),
            present@,
        ),
        views_of(final(analysis).warnings@) == views_of(old(analysis).warnings@)
            + missing_warnings(probes_view(probes@), present@),
        final(analysis).garbage_keys@ == old(analysis).garbage_keys@,
{
    let n = probes.len();
    let mut i: usize = 0;
    proof {
        assert(probes_view(probes@).take(0) =~= Seq::<ProbeModel>::empty());
        assert(present@.take(0) =~= Seq::<bool>::empty());
        assert(views_of(analysis.errors@) + Seq::<Seq<char>>::empty() =~= views_of(
            analysis.errors@,
        ));
        assert(views_of(analysis.warnings@) + Seq::<Seq<char>>::empty() =~= views_of(
            analysis.warnings@,
        ));
    }
    while i < n
        invariant
            0 <= i <= n,
            n == probes@.len(),
            present@.len() == probes@.len(),
            views_of(analysis.errors@) == views_of(old(analysis).errors@) + missing_errors(
                probes_view(probes@).take(i as int),
                present@.take(i as int),
            ),
            views_of(analysis.warnings@) == views_of(old(analysis).warnings@) + missing_warnings(
                probes_view(probes@).take(i as int),
                present@.take(i as int),
            ),
            analysis.garbage_keys@ == old(analysis).garbage_keys@,
        decreases n - i,
    {
        let ghost pv = probes_view(probes@);
        proof {
            assert(pv.take(i as int + 1).drop_last() =~= pv.take(i as int));
            assert(present@.take(i as int + 1).drop_last() =~= present@.take(i as int));
            assert(pv.take(i as int + 1).last() == pv[i as int]);
            assert(present@.take(i as int + 1).last() == present@[i as int]);
        }
        if !present[i] {
            let p = &probes[i];
            let l0 = is_l0_exec(&p.layer);
            let msg = msg_missing_layer(&p.layer, &p.generation, &p.shard, l0);
            if l0 {
                let ghost oldw = analysis.warnings@;
                analysis.warnings.push(msg);
                proof {
                    lemma_views_of_push(oldw, analysis.warnings@.last());
                    assert(views_of(analysis.warnings@) =~= views_of(old(analysis).warnings@)
                        + missing_warnings(pv.take(i as int + 1), present@.take(i as int + 1)));
                    assert(missing_errors(pv.take(i as int + 1), present@.take(i as int + 1))
                        =~= missing_errors(pv.take(i as int), present@.take(i as int)));
                }
            } else {
                let ghost olde = analysis.errors@;
                analysis.errors.push(msg);
                proof {
                    lemma_views_of_push(olde, analysis.errors@.last());
                    assert(views_of(analysis.errors@) =~= views_of(old(analysis).errors@)
                        + missing_errors(pv.take(i as int + 1), present@.take(i as int + 1)));
                    assert(missing_warnings(pv.take(i as int + 1), present@.take(i as int + 1))
                        =~= missing_warnings(pv.take(i as int), present@.take(i as int)));
                }
            }
        } else {
            proof {
                assert(missing_errors(pv.take(i as int + 1), present@.take(i as int + 1))
                    =~= missing_errors(pv.take(i as int), present@.take(i as int)));
                assert(missing_warnings(pv.take(i as int + 1), present@.take(i as int + 1))
                    =~= missing_warnings(pv.take(i as int), present@.take(i as int)));
            }
        }
        i += 1;
    }
    proof {
        assert(probes_view(probes@).take(n as int) =~= probes_view(probes@));
        assert(present@.take(n as int) =~= present@);
    }
}

} // verus!
