//! Per-timeline listing reconciliation: classify every object under a
//! timeline's prefix, detect the deleted-timeline relic state, select the
//! authoritative manifest by highest generation, and assemble the structured
//! result once the caller has fetched and decoded the selected manifest.
//!
//! Listing, download and decoding are the storage client's work; this module
//! is pure over the listed keys, so a concurrent writer can always have
//! changed storage after the snapshot — results are best-effort by
//! construction.

use vstd::prelude::*;
use vstd::string::StrSliceExecFns;
use vstd::string::StringExecFns;
use crate::generation::Generation;
use crate::hex::{hex_val_seq, is_hex_digits, parse_hex};
use crate::layer::{LayerName, LayerNameParseError, parse_error_msg_seq, parse_layer_object_name,
    spec_parse_layer_object_name};
use crate::manifest::IndexPart;
use crate::strutil::{spec_starts_with, str_starts_with, str_eq, str_suffix_from, views_of,
    lemma_views_of_push};

verus! {

/// A raw storage listing entry: a key and its size.
#[derive(Debug)]
pub struct ListingObject {
    pub key: String,
    pub size: u64,
}

pub open spec fn obj_view(o: ListingObject) -> (Seq<char>, u64) {
    (o.key@, o.size)
}

pub open spec fn objs_view(s: Seq<ListingObject>) -> Seq<(Seq<char>, u64)> {
    s.map_values(|o: ListingObject| obj_view(o))
}

pub open spec fn cands_view(s: Seq<(ListingObject, String)>) -> Seq<(Seq<char>, u64, Seq<char>)> {
    s.map_values(|c: (ListingObject, String)| (c.0.key@, c.0.size, c.1@))
}

/// The classification of one timeline's listing, as mathematical sequences.
pub struct ScanModel {
    /// Manifest candidates: key, size, and blob name (key minus prefix).
    pub cands: Seq<(Seq<char>, u64, Seq<char>)>,
    /// Parsed layer identities, first occurrence order, without duplicates.
    pub layers: Seq<(LayerName, Generation)>,
    /// Keys that are not manifests, markers or layer names.
    pub unknown: Seq<(Seq<char>, u64)>,
    /// One diagnostic per unknown key.
    pub errors: Seq<Seq<char>>,
    /// Whether the initdb archive marker was seen.
    pub initdb_archive: bool,
}

pub open spec fn unknown_key_msg(key: Seq<char>, e: LayerNameParseError) -> Seq<char> {
    "listing contains an object with key "@ + key + " that is not a layer name: "@
        + parse_error_msg_seq(e)
}

pub open spec fn odd_key_msg(key: Seq<char>) -> Seq<char> {
    "listing contains an object with odd key "@ + key
}

pub open spec fn no_index_msg() -> Seq<char> {
    "listing contains no manifest file"@
}

pub open spec fn manifest_parse_msg(e: Seq<char>) -> Seq<char> {
    "manifest body parsing error: "@ + e
}

pub open spec fn empty_errors_msg() -> Seq<char> {
    "no errors were recorded, yet no manifest was successfully parsed"@
}

/// How one listing entry extends the classification.
pub open spec fn scan_step(prefix: Seq<char>, m: ScanModel, key: Seq<char>, size: u64) -> ScanModel {
    if spec_starts_with(key, prefix) {
        let name = key.subrange(prefix.len() as int, key.len() as int);
        if spec_starts_with(name, "index_part.json"@) {
            ScanModel { cands: m.cands.push((key, size, name)), ..m }
        } else if name == "initdb.tar.zst"@ {
            ScanModel { initdb_archive: true, ..m }
        } else if name == "initdb-preserved.tar.zst"@ {
            m
        } else {
            match spec_parse_layer_object_name(name) {
                Ok(p) => if m.layers.contains(p) {
                    m
                } else {
                    ScanModel { layers: m.layers.push(p), ..m }
                },
                Err(e) => ScanModel {
                    errors: m.errors.push(unknown_key_msg(key, e)),
                    unknown: m.unknown.push((key, size)),
                    ..m
                },
            }
        }
    } else {
        ScanModel {
            errors: m.errors.push(odd_key_msg(key)),
            unknown: m.unknown.push((key, size)),
            ..m
        }
    }
}

pub open spec fn empty_scan() -> ScanModel {
    ScanModel {
        cands: Seq::empty(),
        layers: Seq::empty(),
        unknown: Seq::empty(),
        errors: Seq::empty(),
        initdb_archive: false,
    }
}

pub open spec fn scan_model(prefix: Seq<char>, entries: Seq<(Seq<char>, u64)>) -> ScanModel
    decreases entries.len(),
{
    if entries.len() == 0 {
        empty_scan()
    } else {
        scan_step(
            prefix,
            scan_model(prefix, entries.drop_last()),
            entries.last().0,
            entries.last().1,
        )
    }
}

/// The layer set never accumulates a duplicate identity.
pub proof fn lemma_scan_layers_distinct(prefix: Seq<char>, entries: Seq<(Seq<char>, u64)>)
    ensures
        forall|i: int, j: int|
            0 <= i < j < scan_model(prefix, entries).layers.len() ==> scan_model(
                prefix,
                entries,
            ).layers[i] != scan_model(prefix, entries).layers[j],
    decreases entries.len(),
{
    if entries.len() > 0 {
        lemma_scan_layers_distinct(prefix, entries.drop_last());
        let m = scan_model(prefix, entries.drop_last());
        let w = scan_model(prefix, entries);
        if w.layers.len() == m.layers.len() + 1 {
            let p = w.layers.last();
            assert(!m.layers.contains(p));
            assert forall|i: int, j: int| 0 <= i < j < w.layers.len() implies w.layers[i]
                != w.layers[j] by {
                if j < w.layers.len() - 1 {
                    assert(w.layers[i] == m.layers[i]);
                    assert(w.layers[j] == m.layers[j]);
                } else {
                    assert(w.layers[i] == m.layers[i]);
                    if m.layers[i] == p {
                        assert(m.layers.contains(p));
                    }
                }
            }
        }
    }
}

fn clone_obj(o: &ListingObject) -> (r: ListingObject)
    ensures
        r.key@ == o.key@,
        r.size == o.size,
{
    ListingObject { key: String::from_str(o.key.as_str()), size: o.size }
}

fn contains_pair(v: &Vec<(LayerName, Generation)>, p: (LayerName, Generation)) -> (r: bool)
    ensures
        r == v@.contains(p),
{
    let mut i: usize = 0;
    while i < v.len()
        invariant
            0 <= i <= v@.len(),
            forall|k: int| 0 <= k < i ==> v@[k] != p,
        decreases v@.len() - i,
    {
        let (n, g) = v[i];
        if n == p.0 && g == p.1 {
            proof {
                assert(v@[i as int] == p);
            }
            return true;
        }
        i += 1;
    }
    proof {
        if v@.contains(p) {
            let k = choose|k: int| 0 <= k < v@.len() && v@[k] == p;
            assert(false);
        }
    }
    false
}

fn msg_unknown_key(key: &str, e: LayerNameParseError) -> (r: String)
    ensures
        r@ == unknown_key_msg(key@, e),
{
    let mut out = String::from_str("listing contains an object with key ");
    out.append(key);
    out.append(" that is not a layer name: ");
    out.append(e.describe());
    proof {
        assert(out@ =~= unknown_key_msg(key@, e));
    }
    out
}

fn msg_odd_key(key: &str) -> (r: String)
    ensures
        r@ == odd_key_msg(key@),
{
    let mut out = String::from_str("listing contains an object with odd key ");
    out.append(key);
    proof {
        assert(out@ =~= odd_key_msg(key@));
    }
    out
}

/// The classified listing of one timeline, as executable vectors.
pub struct TimelineListingScan {
    pub index_candidates: Vec<(ListingObject, String)>,
    pub layers: Vec<(LayerName, Generation)>,
    pub unknown_keys: Vec<ListingObject>,
    pub errors: Vec<String>,
    pub initdb_archive: bool,
}

impl TimelineListingScan {
    pub open spec fn view_model(self) -> ScanModel {
        ScanModel {
            cands: cands_view(self.index_candidates@),
            layers: self.layers@,
            unknown: objs_view(self.unknown_keys@),
            errors: views_of(self.errors@),
            initdb_archive: self.initdb_archive,
        }
    }
}

/// Classifies every entry of a timeline's recursive listing against its
/// prefix: manifest candidates, the initdb markers, layer names, and unknown
/// keys, each unknown key with a diagnostic.
pub fn scan_timeline_listing(prefix: &str, entries: &Vec<ListingObject>) -> (r: TimelineListingScan)
    ensures
        r.view_model() == scan_model(prefix@, objs_view(entries@)),
{
    let mut out = TimelineListingScan {
        index_candidates: Vec::new(),
        layers: Vec::new(),
        unknown_keys: Vec::new(),
        errors: Vec::new(),
        initdb_archive: false,
    };
    let plen = prefix.unicode_len();
    let mut i: usize = 0;
    proof {
        assert(objs_view(entries@).take(0) =~= Seq::<(Seq<char>, u64)>::empty());
        assert(out.view_model().cands =~= empty_scan().cands);
        assert(out.view_model().layers =~= empty_scan().layers);
        assert(out.view_model().unknown =~= empty_scan().unknown);
        assert(out.view_model().errors =~= empty_scan().errors);
    }
    while i < entries.len()
        invariant
            0 <= i <= entries@.len(),
            plen == prefix@.len(),
            out.view_model() == scan_model(prefix@, objs_view(entries@).take(i as int)),
        decreases entries@.len() - i,
    {
        let obj = &entries[i];
        let key: &str = obj.key.as_str();
        let ghost pre = scan_model(prefix@, objs_view(entries@).take(i as int));
        let ghost post = scan_model(prefix@, objs_view(entries@).take(i as int + 1));
        proof {
            assert(objs_view(entries@).take(i as int + 1).drop_last() =~= objs_view(
                entries@,
            ).take(i as int));
            assert(objs_view(entries@).take(i as int + 1).last() == obj_view(entries@[i as int]));
            assert(post == scan_step(prefix@, pre, key@, obj.size));
        }
        if str_starts_with(key, prefix) {
            let name: &str = str_suffix_from(key, plen);
            if str_starts_with(name, "index_part.json") {
                let stored = String::from_str(name);
                let cloned = clone_obj(obj);
                let ghost oldc = out.index_candidates@;
                out.index_candidates.push((cloned, stored));
                proof {
                    assert(cands_view(out.index_candidates@) =~= cands_view(oldc).push(
                        (key@, obj.size, name@),
                    ));
                }
            } else if str_eq(name, "initdb.tar.zst") {
                out.initdb_archive = true;
            } else if str_eq(name, "initdb-preserved.tar.zst") {
            } else {
                match parse_layer_object_name(name) {
                    Ok((ln, g)) => {
                        if !contains_pair(&out.layers, (ln, g)) {
                            out.layers.push((ln, g));
                        }
                    },
                    Err(e) => {
                        let ghost olde = out.errors@;
                        let ghost oldu = out.unknown_keys@;
                        out.errors.push(msg_unknown_key(key, e));
                        out.unknown_keys.push(clone_obj(obj));
                        proof {
                            lemma_views_of_push(olde, out.errors@.last());
                            assert(views_of(out.errors@) =~= views_of(olde).push(
                                unknown_key_msg(key@, e),
                            ));
                            assert(objs_view(out.unknown_keys@) =~= objs_view(oldu).push(
                                (key@, obj.size),
                            ));
                        }
                    },
                }
            }
        } else {
            let ghost olde = out.errors@;
            let ghost oldu = out.unknown_keys@;
            out.errors.push(msg_odd_key(key));
            out.unknown_keys.push(clone_obj(obj));
            proof {
                lemma_views_of_push(olde, out.errors@.last());
                assert(views_of(out.errors@) =~= views_of(olde).push(odd_key_msg(key@)));
                assert(objs_view(out.unknown_keys@) =~= objs_view(oldu).push((key@, obj.size)));
            }
        }
        i += 1;
    }
    proof {
        assert(objs_view(entries@).take(entries@.len() as int) =~= objs_view(entries@));
    }
    out
}

/// The name of a manifest object carrying a concrete generation:
/// `index_part.json-` followed by eight hexadecimal digits.
pub open spec fn parses_index_gen(name: Seq<char>) -> Option<u32> {
    if name.len() == 24 && name.subrange(0, 16) == "index_part.json-"@ && is_hex_digits(
        name.subrange(16, 24),
    ) {
        Some(hex_val_seq(name.subrange(16, 24)) as u32)
    } else {
        None
    }
}

pub fn parse_index_name(name: &str) -> (r: Option<u32>)
    ensures
        r == parses_index_gen(name@),
{
    let len = name.unicode_len();
    proof {
        reveal_strlit("index_part.json-");
    }
    if len != 24 {
        return None;
    }
    if !str_starts_with(name, "index_part.json-") {
        proof {
            assert(name@.subrange(0, 16) != "index_part.json-"@);
        }
        return None;
    }
    let v = parse_hex(name, 16, 24);
    match v {
        Some(v) => {
            proof {
                crate::generation::lemma_pow16_8();
            }
            Some(v as u32)
        },
        None => None,
    }
}

/// Every concrete generation parsed from a candidate name is at most `v`.
pub open spec fn gen_at_most(o: Option<u32>, v: u32) -> bool {
    match o {
        Some(w) => w <= v,
        None => true,
    }
}

/// What manifest selection promises: the chosen candidate carries the highest
/// concrete generation of any candidate, or, when no candidate carries one,
/// it is the last candidate under the absent generation (the legacy layout).
pub open spec fn selection_ok(
    cands: Seq<(Seq<char>, u64, Seq<char>)>,
    i: int,
    g: Generation,
) -> bool {
    &&& 0 <= i < cands.len()
    &&& match g {
        Generation::Valid(v) => {
            &&& parses_index_gen(cands[i].2) == Some(v)
            &&& forall|j: int|
                0 <= j < cands.len() ==> gen_at_most(parses_index_gen(#[trigger] cands[j].2), v)
            &&& forall|j: int| 0 <= j < i ==> parses_index_gen(#[trigger] cands[j].2) != Some(v)
        },
        Generation::Absent => {
            &&& i == cands.len() - 1
            &&& forall|j: int|
                0 <= j < cands.len() ==> parses_index_gen(#[trigger] cands[j].2) is None
        },
    }
}

/// Picks the authoritative manifest among the candidates.
pub fn select_index_part(cands: &Vec<(ListingObject, String)>) -> (r: Option<(usize, Generation)>)
    ensures
        r is Some <==> cands@.len() > 0,
        r matches Some((i, g)) ==> selection_ok(cands_view(cands@), i as int, g),
{
    let mut best: Option<(usize, u32)> = None;
    let mut i: usize = 0;
    while i < cands.len()
        invariant
            0 <= i <= cands@.len(),
            best is None ==> forall|j: int|
                0 <= j < i ==> parses_index_gen(#[trigger] cands_view(cands@)[j].2) is None,
            best matches Some((bi, bv)) ==> 0 <= bi < i && parses_index_gen(
                cands_view(cands@)[bi as int].2,
            ) == Some(bv) && (forall|j: int|
                0 <= j < i ==> gen_at_most(
                    parses_index_gen(#[trigger] cands_view(cands@)[j].2),
                    bv,
                )) && (forall|j: int|
                0 <= j < bi ==> parses_index_gen(#[trigger] cands_view(cands@)[j].2) != Some(bv)),
        decreases cands@.len() - i,
    {
        let name: &str = cands[i].1.as_str();
        proof {
            assert(cands_view(cands@)[i as int].2 == name@);
        }
        match parse_index_name(name) {
            Some(v) => {
                match best {
                    None => {
                        best = Some((i, v));
                    },
                    Some((_bi, bv)) => {
                        if v > bv {
                            best = Some((i, v));
                        }
                    },
                }
            },
            None => {},
        }
        i += 1;
    }
    match best {
        Some((bi, bv)) => Some((bi, Generation::Valid(bv))),
        None => {
            if cands.len() == 0 {
                None
            } else {
                Some((cands.len() - 1, Generation::Absent))
            }
        },
    }
}

} // verus!

verus! {

/// The objects of a candidate list, keeping order.
pub open spec fn cand_objs(s: Seq<(ListingObject, String)>) -> Seq<(Seq<char>, u64)> {
    s.map_values(|c: (ListingObject, String)| (c.0.key@, c.0.size))
}

/// The outcome of parsing one timeline's storage state.
pub enum BlobDataParseResult {
    Parsed {
        index_part: IndexPart,
        index_part_generation: Generation,
        s3_layers: Vec<(LayerName, Generation)>,
    },
    /// The remains of a deleted timeline: only its initdb archive is left.
    Relic,
    Incorrect { errors: Vec<String>, s3_layers: Vec<(LayerName, Generation)> },
}

/// The reconciliation result for one timeline. Everything in it is derived
/// from a point-in-time listing: an unknown or unused key here is a candidate
/// for cleanup, never a guarantee that deletion is safe.
pub struct RemoteTimelineBlobData {
    pub blob_data: BlobDataParseResult,
    /// Manifest objects superseded by the selected one.
    pub unused_index_keys: Vec<ListingObject>,
    /// Objects whose keys were recognized as neither manifests nor layers.
    pub unknown_keys: Vec<ListingObject>,
}

/// What is carried from the scan to assembly while the caller fetches the
/// selected manifest.
pub struct PendingScan {
    pub layers: Vec<(LayerName, Generation)>,
    pub unknown_keys: Vec<ListingObject>,
    pub errors: Vec<String>,
    pub unused_index_keys: Vec<ListingObject>,
}

/// Either a finished result, or an instruction to fetch the selected manifest
/// and hand its decoded form to `finish_timeline_blobs`.
pub enum ReconcileStep {
    Done(RemoteTimelineBlobData),
    Fetch { selected: ListingObject, generation: Generation, rest: PendingScan },
}

/// An empty diagnostic list where a failure is being reported is itself an
/// internal-invariant error, and is recorded rather than silently accepted.
pub open spec fn seal_spec(s: Seq<Seq<char>>) -> Seq<Seq<char>> {
    if s.len() == 0 {
        seq![empty_errors_msg()]
    } else {
        s
    }
}

fn seal_errors(errors: &mut Vec<String>)
    ensures
        views_of(final(errors)@) == seal_spec(views_of(old(errors)@)),
{
    if errors.len() == 0 {
        proof {
            reveal_strlit("no errors were recorded, yet no manifest was successfully parsed");
        }
        errors.push(
            String::from_str("no errors were recorded, yet no manifest was successfully parsed"),
        );
        proof {
            assert(views_of(errors@) =~= seq![empty_errors_msg()]);
        }
    }
}

fn msg_no_index() -> (r: String)
    ensures
        r@ == no_index_msg(),
{
    proof {
        reveal_strlit("listing contains no manifest file");
    }
    String::from_str("listing contains no manifest file")
}

/// Decides what one timeline's classified listing amounts to: the relic of a
/// deleted timeline, a failure for want of any manifest, or a manifest to
/// fetch.
pub fn plan_timeline_blobs(scan: TimelineListingScan) -> (r: ReconcileStep)
    ensures
        ({
            let m = scan.view_model();
            if m.cands.len() == 0 && m.layers.len() == 0 && m.initdb_archive {
                r matches ReconcileStep::Done(d) && d.blob_data is Relic
                    && d.unused_index_keys@.len() == 0 && d.unknown_keys@.len() == 0
            } else if m.cands.len() == 0 {
                r matches ReconcileStep::Done(d) && (d.blob_data matches
                    BlobDataParseResult::Incorrect { errors, s3_layers } && views_of(errors@)
                    == seal_spec(m.errors.push(no_index_msg())) && s3_layers@ == m.layers)
                    && d.unused_index_keys@.len() == 0 && objs_view(d.unknown_keys@) == m.unknown
            } else {
                r matches ReconcileStep::Fetch { selected, generation, rest } && exists|i: int|
                    {
                        &&& selection_ok(m.cands, i, generation)
                        &&& obj_view(selected) == (m.cands[i].0, m.cands[i].1)
                        &&& objs_view(rest.unused_index_keys@) == cand_objs(
                            scan.index_candidates@.remove(i),
                        )
                        &&& rest.layers@ == m.layers
                        &&& views_of(rest.errors@) == m.errors
                        &&& objs_view(rest.unknown_keys@) == m.unknown
                    }
            }
        }),
{
    let TimelineListingScan {
        mut index_candidates,
        layers,
        unknown_keys,
        mut errors,
        initdb_archive,
    } = scan;
    if index_candidates.len() == 0 && layers.len() == 0 && initdb_archive {
        let d = RemoteTimelineBlobData {
            blob_data: BlobDataParseResult::Relic,
            unused_index_keys: Vec::new(),
            unknown_keys: Vec::new(),
        };
        return ReconcileStep::Done(d);
    }
    match select_index_part(&index_candidates) {
        None => {
            let ghost olde = errors@;
            errors.push(msg_no_index());
            proof {
                lemma_views_of_push(olde, errors@.last());
            }
            seal_errors(&mut errors);
            proof {
                assert(objs_view(unknown_keys@) =~= scan.view_model().unknown);
            }
            ReconcileStep::Done(
                RemoteTimelineBlobData {
                    blob_data: BlobDataParseResult::Incorrect { errors, s3_layers: layers },
                    unused_index_keys: Vec::new(),
                    unknown_keys,
                },
            )
        },
        Some((i, generation)) => {
            let ghost allcands = index_candidates@;
            let (selected, _name) = index_candidates.remove(i);
            let ghost remaining = allcands.remove(i as int);
            let total = index_candidates.len();
            let mut unused: Vec<ListingObject> = Vec::new();
            proof {
                assert(cand_objs(remaining).take(0) =~= Seq::<(Seq<char>, u64)>::empty());
                assert(objs_view(unused@) =~= Seq::<(Seq<char>, u64)>::empty());
            }
            let mut k: usize = 0;
            while index_candidates.len() > 0
                invariant
                    index_candidates@ == remaining.skip(k as int),
                    remaining.len() == total as int,
                    0 <= k <= total,
                    objs_view(unused@) == cand_objs(remaining).take(k as int),
                decreases index_candidates@.len(),
            {
                let (o, _n) = index_candidates.remove(0);
                let ghost oldu = unused@;
                unused.push(o);
                proof {
                    assert(remaining.skip(k as int).remove(0) =~= remaining.skip(k as int + 1));
                    assert(remaining.skip(k as int)[0] == remaining[k as int]);
                    assert(objs_view(unused@) =~= objs_view(oldu).push(
                        (remaining[k as int].0.key@, remaining[k as int].0.size),
                    ));
                    assert(cand_objs(remaining).take(k as int + 1) =~= cand_objs(remaining).take(
                        k as int,
                    ).push((remaining[k as int].0.key@, remaining[k as int].0.size)));
                    assert(k < remaining.len());
                }
                k += 1;
            }
            proof {
                assert(cand_objs(remaining).take(remaining.len() as int) =~= cand_objs(remaining));
                assert(k == remaining.len());
            }
            let rest = PendingScan {
                layers,
                unknown_keys,
                errors,
                unused_index_keys: unused,
            };
            proof {
                let m = scan.view_model();
                assert(selection_ok(m.cands, i as int, generation));
                assert(obj_view(selected) == (m.cands[i as int].0, m.cands[i as int].1));
                assert(objs_view(rest.unknown_keys@) =~= m.unknown);
            }
            ReconcileStep::Fetch { selected, generation, rest }
        },
    }
}

/// Assembles the reconciliation result once the selected manifest has been
/// fetched and decoded (or failed to decode, with a diagnostic).
pub fn finish_timeline_blobs(
    rest: PendingScan,
    generation: Generation,
    parse_result: Result<IndexPart, String>,
) -> (r: RemoteTimelineBlobData)
    ensures
        objs_view(r.unused_index_keys@) == objs_view(rest.unused_index_keys@),
        objs_view(r.unknown_keys@) == objs_view(rest.unknown_keys@),
        match parse_result {
            Ok(part) => r.blob_data matches BlobDataParseResult::Parsed {
                index_part,
                index_part_generation,
                s3_layers,
            } && index_part.version == part.version && index_part.layer_metadata@
                == part.layer_metadata@ && index_part.metadata == part.metadata
                && index_part.disk_consistent_lsn == part.disk_consistent_lsn
                && index_part_generation == generation && s3_layers@ == rest.layers@,
            Err(e) => r.blob_data matches BlobDataParseResult::Incorrect { errors, s3_layers }
                && views_of(errors@) == seal_spec(
                views_of(rest.errors@).push(manifest_parse_msg(e@)),
            ) && s3_layers@ == rest.layers@,
        },
{
    let PendingScan { layers, unknown_keys, mut errors, unused_index_keys } = rest;
    match parse_result {
        Ok(part) => RemoteTimelineBlobData {
            blob_data: BlobDataParseResult::Parsed {
                index_part: part,
                index_part_generation: generation,
                s3_layers: layers,
            },
            unused_index_keys,
            unknown_keys,
        },
        Err(e) => {
            let ghost olde = errors@;
            let mut msg = String::from_str("manifest body parsing error: ");
            msg.append(e.as_str());
            proof {
                reveal_strlit("manifest body parsing error: ");
                assert(msg@ =~= manifest_parse_msg(e@));
            }
            errors.push(msg);
            proof {
                lemma_views_of_push(olde, errors@.last());
            }
            seal_errors(&mut errors);
            RemoteTimelineBlobData {
                blob_data: BlobDataParseResult::Incorrect { errors, s3_layers: layers },
                unused_index_keys,
                unknown_keys,
            }
        },
    }
}

} // verus!
