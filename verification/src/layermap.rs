//! Structural validation of a layer map.
//!
//! A layer map produced by a healthy compaction pass may only split delta
//! layers' LSN ranges at shared boundaries: no multi-key delta layer's LSN
//! range may strictly contain an LSN at which some multi-key delta layer
//! starts or ends. Delta layers covering a single key are exempt; they are
//! legitimately split by LSN on their own.

use vstd::prelude::*;
use crate::layer::LayerName;
use crate::manifest::{LayerFileMetadata, layer_names_of};

verus! {

/// A delta layer whose key range `[key_start, key_end)` holds more than one key.
pub open spec fn is_multi_key_delta(n: LayerName) -> bool {
    match n {
        LayerName::Delta { key_start, key_end, .. } => key_end as int != key_start as int + 1,
        LayerName::Image { .. } => false,
    }
}

pub open spec fn lsn_start_of(n: LayerName) -> u64 {
    match n {
        LayerName::Delta { lsn_start, .. } => lsn_start,
        LayerName::Image { lsn, .. } => lsn,
    }
}

pub open spec fn lsn_end_of(n: LayerName) -> u64 {
    match n {
        LayerName::Delta { lsn_end, .. } => lsn_end,
        LayerName::Image { lsn, .. } => lsn,
    }
}

/// An LSN at which some multi-key delta layer of the map starts or ends: the
/// only LSNs at which a valid map may place a layer boundary.
pub open spec fn is_split_point(names: Seq<LayerName>, p: u64) -> bool {
    exists|x: LayerName|
        names.contains(x) && is_multi_key_delta(x) && (p == lsn_start_of(x) || p == lsn_end_of(x))
}

pub open spec fn strictly_inside(p: u64, n: LayerName) -> bool {
    lsn_start_of(n) < p < lsn_end_of(n)
}

/// A layer violates the map when it is a multi-key delta layer whose LSN range
/// strictly contains a split point used by some layer of the map.
pub open spec fn violates(n: LayerName, names: Seq<LayerName>) -> bool {
    is_multi_key_delta(n) && exists|p: u64| is_split_point(names, p) && strictly_inside(p, n)
}

pub open spec fn valid_layermap(names: Seq<LayerName>) -> bool {
    forall|x: LayerName| #[trigger] names.contains(x) ==> !violates(x, names)
}

/// The first layer at or after position `k` that violates the map.
pub open spec fn first_violator_from(names: Seq<LayerName>, k: int) -> Option<LayerName>
    decreases names.len() - k,
{
    if k < 0 || k >= names.len() {
        None
    } else if violates(names[k], names) {
        Some(names[k])
    } else {
        first_violator_from(names, k + 1)
    }
}

proof fn lemma_first_violator_skip(names: Seq<LayerName>, a: int)
    requires
        0 <= a <= names.len(),
        forall|k: int| 0 <= k < a ==> !violates(#[trigger] names[k], names),
    ensures
        first_violator_from(names, 0) == first_violator_from(names, a),
    decreases a,
{
    if a > 0 {
        lemma_first_violator_skip(names, a - 1);
        assert(!violates(names[a - 1], names));
    }
}

/// The first violation found: the offending layer and every split point lying
/// in its LSN range, in ascending order.
#[derive(Clone, Debug)]
pub struct LayerMapViolation {
    pub layer: LayerName,
    pub points: Vec<u64>,
}

pub open spec fn sorted_unique(s: Seq<u64>) -> bool {
    forall|i: int, j: int| 0 <= i < j < s.len() ==> s[i] < s[j]
}

proof fn lemma_sorted_insert(oldv: Seq<u64>, i: int, x: u64)
    requires
        sorted_unique(oldv),
        0 <= i <= oldv.len(),
        forall|k: int| 0 <= k < i ==> oldv[k] < x,
        i < oldv.len() ==> oldv[i] > x,
    ensures
        sorted_unique(oldv.insert(i, x)),
        forall|p: u64| oldv.insert(i, x).contains(p) <==> oldv.contains(p) || p == x,
{
    let newv = oldv.insert(i, x);
    assert(sorted_unique(newv)) by {
        assert forall|a: int, b: int| 0 <= a < b < newv.len() implies newv[a] < newv[b] by {
            assert(forall|k: int| 0 <= k < i ==> newv[k] == oldv[k]);
            assert(newv[i] == x);
            assert(forall|k: int| i < k < newv.len() ==> newv[k] == oldv[k - 1]);
        }
    }
    assert forall|p: u64| newv.contains(p) <==> oldv.contains(p) || p == x by {
        if newv.contains(p) {
            let k = choose|k: int| 0 <= k < newv.len() && newv[k] == p;
            if k < i {
                assert(oldv[k] == p);
            } else if k > i {
                assert(oldv[k - 1] == p);
            }
        }
        if oldv.contains(p) {
            let k = choose|k: int| 0 <= k < oldv.len() && oldv[k] == p;
            if k < i {
                assert(newv[k] == p);
            } else {
                assert(newv[k + 1] == p);
            }
        }
        if p == x {
            assert(newv[i] == p);
        }
    }
}

/// Inserts `x` into a strictly sorted vector, keeping it strictly sorted.
fn insert_sorted(v: &mut Vec<u64>, x: u64)
    requires
        sorted_unique(old(v)@),
    ensures
        sorted_unique(final(v)@),
        forall|p: u64| final(v)@.contains(p) <==> old(v)@.contains(p) || p == x,
{
    let mut i: usize = 0;
    while i < v.len()
        invariant
            0 <= i <= v@.len(),
            sorted_unique(v@),
            v@ == old(v)@,
            forall|k: int| 0 <= k < i ==> v@[k] < x,
        decreases v@.len() - i,
    {
        if v[i] == x {
            proof {
                assert(v@[i as int] == x);
                assert(v@.contains(x));
                assert forall|p: u64| v@.contains(p) <==> old(v)@.contains(p) || p == x by {
                    assert(v@ == old(v)@);
                }
            }
            return;
        }
        if v[i] > x {
            proof {
                lemma_sorted_insert(v@, i as int, x);
            }
            v.insert(i, x);
            return;
        }
        i += 1;
    }
    proof {
        lemma_sorted_insert(v@, i as int, x);
    }
    v.insert(i, x);
}

fn is_multi_key_delta_exec(n: &LayerName) -> (r: bool)
    ensures
        r == is_multi_key_delta(*n),
{
    match n {
        LayerName::Delta { key_start, key_end, .. } => {
            (*key_end as u128) != (*key_start as u128) + 1
        },
        LayerName::Image { .. } => false,
    }
}

/// Checks whether the layer map is a valid result of compaction: `None` when
/// valid, otherwise the first multi-key delta layer (in map order) whose LSN
/// range strictly contains a split point, with every split point in its range.
pub fn check_valid_layermap(metadata: &Vec<(LayerName, LayerFileMetadata)>) -> (r: Option<
    LayerMapViolation,
>)
    ensures
        r is None <==> valid_layermap(layer_names_of(metadata@)),
        r is None ==> first_violator_from(layer_names_of(metadata@), 0) is None,
        r matches Some(v) ==> first_violator_from(layer_names_of(metadata@), 0) == Some(v.layer),
        r matches Some(v) ==> {
            let names = layer_names_of(metadata@);
            &&& violates(v.layer, names)
            &&& names.contains(v.layer)
            &&& sorted_unique(v.points@)
            &&& v.points@.len() >= 2
            &&& forall|p: u64|
                v.points@.contains(p) <==> is_split_point(names, p) && lsn_start_of(v.layer) <= p
                    < lsn_end_of(v.layer)
            &&& exists|i: int|
                0 <= i < names.len() && names[i] == v.layer && (forall|k: int|
                    0 <= k < i ==> !violates(#[trigger] names[k], names))
        },
{
    let ghost names = layer_names_of(metadata@);
    proof {
        assert(names.len() == metadata@.len());
    }
    let mut points: Vec<u64> = Vec::new();
    let mut idx: usize = 0;
    while idx < metadata.len()
        invariant
            0 <= idx <= metadata@.len(),
            names == layer_names_of(metadata@),
            names.len() == metadata@.len(),
            forall|k: int| 0 <= k < names.len() ==> names[k] == metadata@[k].0,
            sorted_unique(points@),
            forall|p: u64|
                points@.contains(p) <==> is_split_point(names.take(idx as int), p),
        decreases metadata@.len() - idx,
    {
        let ghost pre = names.take(idx as int);
        let ghost post = names.take(idx as int + 1);
        proof {
            assert(post =~= pre.push(names[idx as int]));
            let ghost cur = names[idx as int];
            assert forall|x: LayerName| post.contains(x) <==> pre.contains(x) || x == cur by {
                if post.contains(x) {
                    let k = choose|k: int| 0 <= k < post.len() && post[k] == x;
                    if k < idx {
                        assert(pre[k] == x);
                    }
                }
                if pre.contains(x) {
                    let k = choose|k: int| 0 <= k < pre.len() && pre[k] == x;
                    assert(post[k] == x);
                }
                if x == names[idx as int] {
                    assert(post[idx as int] == x);
                }
            }
        }
        let name = metadata[idx].0;
        proof {
            assert(name == names[idx as int]);
        }
        if is_multi_key_delta_exec(&name) {
            match name {
                LayerName::Delta { lsn_start, lsn_end, .. } => {
                    insert_sorted(&mut points, lsn_start);
                    insert_sorted(&mut points, lsn_end);
                    proof {
                        assert forall|p: u64|
                            points@.contains(p) <==> is_split_point(post, p) by {
                            if points@.contains(p) {
                                if p == lsn_start_of(name) || p == lsn_end_of(name) {
                                    assert(post.contains(name));
                                    assert(is_split_point(post, p));
                                } else {
                                    assert(is_split_point(pre, p));
                                    let x = choose|x: LayerName|
                                        pre.contains(x) && is_multi_key_delta(x) && (p
                                            == lsn_start_of(x) || p == lsn_end_of(x));
                                    assert(post.contains(x));
                                }
                            }
                            if is_split_point(post, p) {
                                let x = choose|x: LayerName|
                                    post.contains(x) && is_multi_key_delta(x) && (p
                                        == lsn_start_of(x) || p == lsn_end_of(x));
                                if x == name {
                                } else {
                                    assert(pre.contains(x));
                                    assert(is_split_point(pre, p));
                                }
                            }
                        }
                    }
                },
                LayerName::Image { .. } => {
                    proof {
                        assert(false);
                    }
                },
            }
        } else {
            proof {
                assert forall|p: u64| points@.contains(p) <==> is_split_point(post, p) by {
                    if is_split_point(post, p) {
                        let x = choose|x: LayerName|
                            post.contains(x) && is_multi_key_delta(x) && (p == lsn_start_of(x) || p
                                == lsn_end_of(x));
                        assert(x != name);
                        assert(pre.contains(x));
                        assert(is_split_point(pre, p));
                    }
                    if points@.contains(p) {
                        let x = choose|x: LayerName|
                            pre.contains(x) && is_multi_key_delta(x) && (p == lsn_start_of(x) || p
                                == lsn_end_of(x));
                        assert(post.contains(x));
                    }
                }
            }
        }
        idx += 1;
    }
    proof {
        assert(names.take(names.len() as int) =~= names);
    }
    // Scan for the first layer whose range strictly contains a split point.
    let mut idx: usize = 0;
    while idx < metadata.len()
        invariant
            0 <= idx <= metadata@.len(),
            names == layer_names_of(metadata@),
            names.len() == metadata@.len(),
            forall|k: int| 0 <= k < names.len() ==> names[k] == metadata@[k].0,
            sorted_unique(points@),
            forall|p: u64| points@.contains(p) <==> is_split_point(names, p),
            forall|k: int| 0 <= k < idx ==> !violates(#[trigger] names[k], names),
        decreases metadata@.len() - idx,
    {
        let name = metadata[idx].0;
        proof {
            assert(name == names[idx as int]);
        }
        if is_multi_key_delta_exec(&name) {
            match name {
                LayerName::Delta { lsn_start, lsn_end, .. } => {
                    let mut collected: Vec<u64> = Vec::new();
                    let mut j: usize = 0;
                    while j < points.len()
                        invariant
                            0 <= j <= points@.len(),
                            sorted_unique(points@),
                            forall|p: u64| points@.contains(p) <==> is_split_point(names, p),
                            sorted_unique(collected@),
                            forall|p: u64|
                                collected@.contains(p) <==> points@.take(j as int).contains(p)
                                    && lsn_start <= p < lsn_end,
                        decreases points@.len() - j,
                    {
                        let p = points[j];
                        proof {
                            assert(points@.take(j as int + 1) =~= points@.take(j as int).push(
                                points@[j as int],
                            ));
                            assert forall|q: u64|
                                points@.take(j as int + 1).contains(q) <==> points@.take(
                                    j as int,
                                ).contains(q) || q == points@[j as int] by {
                                if points@.take(j as int + 1).contains(q) {
                                    let k = choose|k: int|
                                        0 <= k < j + 1 && #[trigger] points@.take(j as int + 1)[k]
                                            == q;
                                    if k < j {
                                        assert(points@.take(j as int)[k] == q);
                                    }
                                }
                                if points@.take(j as int).contains(q) {
                                    let k = choose|k: int|
                                        0 <= k < j && #[trigger] points@.take(j as int)[k] == q;
                                    assert(points@.take(j as int + 1)[k] == q);
                                }
                                if q == points@[j as int] {
                                    assert(points@.take(j as int + 1)[j as int] == q);
                                }
                            }
                        }
                        let ghost oldc = collected@;
                        if lsn_start <= p && p < lsn_end {
                            collected.push(p);
                            proof {
                                assert(collected@ =~= oldc.push(p));
                                assert forall|q: u64| collected@.contains(q) <==> oldc.contains(q)
                                    || q == p by {
                                    if collected@.contains(q) {
                                        let k = choose|k: int|
                                            0 <= k < collected@.len() && collected@[k] == q;
                                        if k < oldc.len() {
                                            assert(oldc[k] == q);
                                        }
                                    }
                                    if oldc.contains(q) {
                                        let k = choose|k: int| 0 <= k < oldc.len() && oldc[k] == q;
                                        assert(collected@[k] == q);
                                    }
                                    if q == p {
                                        assert(collected@[collected@.len() - 1] == q);
                                    }
                                }
                                assert(sorted_unique(collected@)) by {
                                    assert forall|a: int, b: int|
                                        0 <= a < b < collected@.len() implies collected@[a]
                                        < collected@[b] by {
                                        if b == collected@.len() - 1 {
                                            assert(collected@[a] == oldc[a]);
                                            assert(oldc.contains(oldc[a]));
                                            assert(points@.take(j as int).contains(oldc[a]));
                                            let bb = choose|bb: int|
                                                0 <= bb < j && #[trigger] points@.take(j as int)[bb]
                                                    == oldc[a];
                                            assert(points@[bb] == oldc[a]);
                                            assert(points@[bb] < points@[j as int]);
                                        }
                                    }
                                }
                            }
                        }
                        proof {
                            assert forall|q: u64|
                                collected@.contains(q) <==> points@.take(j as int + 1).contains(q)
                                    && lsn_start <= q < lsn_end by {
                                if lsn_start <= p && p < lsn_end {
                                    assert(collected@.contains(q) <==> oldc.contains(q) || q == p);
                                } else {
                                    assert(collected@ == oldc);
                                    if q == p {
                                        assert(!(lsn_start <= q < lsn_end));
                                    }
                                }
                            }
                        }
                        j += 1;
                    }
                    proof {
                        assert(points@.take(points@.len() as int) =~= points@);
                    }
                    if collected.len() > 1 {
                        proof {
                            assert(collected@[0] < collected@[1]);
                            assert(collected@.contains(collected@[0]));
                            assert(collected@.contains(collected@[1]));
                            assert(lsn_start <= collected@[0]);
                            assert(strictly_inside(collected@[1], name));
                            assert(is_split_point(names, collected@[1]));
                            assert(violates(name, names));
                            assert(names.contains(name)) by {
                                assert(names[idx as int] == name);
                            }
                            lemma_first_violator_skip(names, idx as int);
                            assert(first_violator_from(names, idx as int) == Some(name));
                        }
                        return Some(LayerMapViolation { layer: name, points: collected });
                    }
                    proof {
                        assert(!violates(name, names)) by {
                            if violates(name, names) {
                                let p = choose|p: u64|
                                    is_split_point(names, p) && strictly_inside(p, name);
                                assert(points@.contains(p));
                                assert(collected@.contains(p));
                                assert(names.contains(name)) by {
                                    assert(names[idx as int] == name);
                                }
                                assert(is_split_point(names, lsn_start)) by {
                                    assert(lsn_start == lsn_start_of(name));
                                }
                                assert(points@.contains(lsn_start));
                                assert(lsn_start < p < lsn_end);
                                assert(collected@.contains(lsn_start));
                                let a = choose|a: int|
                                    0 <= a < collected@.len() && collected@[a] == lsn_start;
                                let b = choose|b: int|
                                    0 <= b < collected@.len() && collected@[b] == p;
                                assert(a != b);
                                assert(collected@.len() >= 2);
                            }
                        }
                    }
                },
                LayerName::Image { .. } => {
                    proof {
                        assert(false);
                    }
                },
            }
        }
        idx += 1;
    }
    proof {
        assert(valid_layermap(names)) by {
            assert forall|x: LayerName| #[trigger] names.contains(x) implies !violates(
                x,
                names,
            ) by {
                let k = choose|k: int| 0 <= k < names.len() && names[k] == x;
                assert(!violates(names[k], names));
            }
        }
        lemma_first_violator_skip(names, names.len() as int);
    }
    None
}

/// Two strictly sorted sequences with the same members are equal.
proof fn lemma_sorted_unique_extensional(a: Seq<u64>, b: Seq<u64>)
    requires
        sorted_unique(a),
        sorted_unique(b),
        forall|p: u64| a.contains(p) <==> b.contains(p),
    ensures
        a == b,
    decreases a.len(),
{
    if a.len() == 0 {
        if b.len() > 0 {
            assert(b.contains(b[0]));
            let k = choose|k: int| 0 <= k < a.len() && a[k] == b[0];
            assert(false);
        }
        assert(a =~= b);
    } else {
        assert(a.contains(a.last()));
        assert(b.contains(a.last()));
        if b.len() == 0 {
            let k = choose|k: int| 0 <= k < b.len() && b[k] == a.last();
            assert(false);
        }
        assert(b.contains(b.last()));
        assert(a.contains(b.last()));
        assert(a.last() == b.last()) by {
            let i = choose|i: int| 0 <= i < b.len() && b[i] == a.last();
            let j = choose|j: int| 0 <= j < a.len() && a[j] == b.last();
            assert(b[i] <= b.last());
            assert(a[j] <= a.last());
        }
        let ap = a.drop_last();
        let bp = b.drop_last();
        assert(sorted_unique(ap) && sorted_unique(bp)) by {
            assert(forall|k: int| 0 <= k < ap.len() ==> ap[k] == a[k]);
            assert(forall|k: int| 0 <= k < bp.len() ==> bp[k] == b[k]);
        }
        assert forall|p: u64| ap.contains(p) <==> bp.contains(p) by {
            if ap.contains(p) {
                let k = choose|k: int| 0 <= k < ap.len() && ap[k] == p;
                assert(a[k] == p);
                assert(p < a.last());
                assert(a.contains(p));
                assert(b.contains(p));
                let m = choose|m: int| 0 <= m < b.len() && b[m] == p;
                assert(m < b.len() - 1);
                assert(bp[m] == p);
            }
            if bp.contains(p) {
                let k = choose|k: int| 0 <= k < bp.len() && bp[k] == p;
                assert(b[k] == p);
                assert(p < b.last());
                assert(b.contains(p));
                assert(a.contains(p));
                let m = choose|m: int| 0 <= m < a.len() && a[m] == p;
                assert(m < a.len() - 1);
                assert(ap[m] == p);
            }
        }
        lemma_sorted_unique_extensional(ap, bp);
        assert(a.len() == b.len()) by {
            assert(ap.len() == bp.len());
        }
        assert forall|k: int| 0 <= k < a.len() implies a[k] == b[k] by {
            if k < a.len() - 1 {
                assert(a[k] == ap[k]);
                assert(b[k] == bp[k]);
                assert(ap[k] == bp[k]);
            }
        }
        assert(a =~= b);
    }
}

/// The validator's result is a function of the layer map alone: two
/// violations that both meet the validator's contract on the same map name
/// the same layer and list the same split points, so repeated validation
/// returns the same verdict.
pub proof fn lemma_validator_deterministic(
    names: Seq<LayerName>,
    v1: LayerMapViolation,
    v2: LayerMapViolation,
)
    requires
        Some(v1.layer) == first_violator_from(names, 0),
        Some(v2.layer) == first_violator_from(names, 0),
        sorted_unique(v1.points@),
        sorted_unique(v2.points@),
        forall|p: u64|
            #![trigger v1.points@.contains(p)]
            v1.points@.contains(p) <==> is_split_point(names, p) && lsn_start_of(v1.layer) <= p
                < lsn_end_of(v1.layer),
        forall|p: u64|
            #![trigger v2.points@.contains(p)]
            v2.points@.contains(p) <==> is_split_point(names, p) && lsn_start_of(v2.layer) <= p
                < lsn_end_of(v2.layer),
    ensures
        v1.layer == v2.layer,
        v1.points@ == v2.points@,
{
    assert(v1.layer == v2.layer);
    assert forall|p: u64| v1.points@.contains(p) <==> v2.points@.contains(p) by {
        if v1.points@.contains(p) {
            assert(is_split_point(names, p) && lsn_start_of(v1.layer) <= p < lsn_end_of(v1.layer));
            assert(lsn_start_of(v2.layer) <= p < lsn_end_of(v2.layer));
            assert(v2.points@.contains(p));
        }
        if v2.points@.contains(p) {
            assert(is_split_point(names, p) && lsn_start_of(v2.layer) <= p < lsn_end_of(v2.layer));
            assert(lsn_start_of(v1.layer) <= p < lsn_end_of(v1.layer));
            assert(v1.points@.contains(p));
        }
    }
    lemma_sorted_unique_extensional(v1.points@, v2.points@);
}

/// The verdict depends only on which layers are in the map, not on their
/// order or multiplicity.
pub proof fn lemma_validity_order_independent(a: Seq<LayerName>, b: Seq<LayerName>)
    requires
        forall|x: LayerName| a.contains(x) <==> b.contains(x),
    ensures
        valid_layermap(a) == valid_layermap(b),
{
    assert forall|p: u64| is_split_point(a, p) <==> is_split_point(b, p) by {
        if is_split_point(a, p) {
            let x = choose|x: LayerName|
                a.contains(x) && is_multi_key_delta(x) && (p == lsn_start_of(x) || p == lsn_end_of(
                    x,
                ));
            assert(b.contains(x));
        }
        if is_split_point(b, p) {
            let x = choose|x: LayerName|
                b.contains(x) && is_multi_key_delta(x) && (p == lsn_start_of(x) || p == lsn_end_of(
                    x,
                ));
            assert(a.contains(x));
        }
    }
    assert forall|x: LayerName| violates(x, a) <==> violates(x, b) by {
        if violates(x, a) {
            let p = choose|p: u64| is_split_point(a, p) && strictly_inside(p, x);
            assert(is_split_point(b, p) && strictly_inside(p, x));
        }
        if violates(x, b) {
            let p = choose|p: u64| is_split_point(b, p) && strictly_inside(p, x);
            assert(is_split_point(a, p) && strictly_inside(p, x));
        }
    }
    if valid_layermap(a) {
        assert forall|x: LayerName| #[trigger] b.contains(x) implies !violates(x, b) by {
            assert(a.contains(x));
        }
    }
    if valid_layermap(b) {
        assert forall|x: LayerName| #[trigger] a.contains(x) implies !violates(x, a) by {
            assert(b.contains(x));
        }
    }
}

/// A delta layer covering a single key never violates the map, and adding one
/// never changes the verdict, however its LSN range overlaps others.
pub proof fn lemma_single_key_exempt(names: Seq<LayerName>, n: LayerName)
    requires
        n is Delta,
        !is_multi_key_delta(n),
    ensures
        !violates(n, names),
        valid_layermap(names.push(n)) == valid_layermap(names),
{
    let withn = names.push(n);
    assert forall|x: LayerName| withn.contains(x) <==> names.contains(x) || x == n by {
        if withn.contains(x) {
            let k = choose|k: int| 0 <= k < withn.len() && withn[k] == x;
            if k < names.len() {
                assert(names[k] == x);
            }
        }
        if names.contains(x) {
            let k = choose|k: int| 0 <= k < names.len() && names[k] == x;
            assert(withn[k] == x);
        }
        if x == n {
            assert(withn[names.len() as int] == x);
        }
    }
    assert forall|p: u64| is_split_point(withn, p) <==> is_split_point(names, p) by {
        if is_split_point(withn, p) {
            let x = choose|x: LayerName|
                withn.contains(x) && is_multi_key_delta(x) && (p == lsn_start_of(x) || p
                    == lsn_end_of(x));
            assert(x != n);
            assert(names.contains(x));
        }
        if is_split_point(names, p) {
            let x = choose|x: LayerName|
                names.contains(x) && is_multi_key_delta(x) && (p == lsn_start_of(x) || p
                    == lsn_end_of(x));
            assert(withn.contains(x));
        }
    }
    assert forall|x: LayerName| violates(x, withn) <==> violates(x, names) by {
        if violates(x, withn) {
            let p = choose|p: u64| is_split_point(withn, p) && strictly_inside(p, x);
            assert(is_split_point(names, p) && strictly_inside(p, x));
        }
        if violates(x, names) {
            let p = choose|p: u64| is_split_point(names, p) && strictly_inside(p, x);
            assert(is_split_point(withn, p) && strictly_inside(p, x));
        }
    }
    if valid_layermap(names) {
        assert forall|x: LayerName| #[trigger] withn.contains(x) implies !violates(x, withn) by {
            if x == n {
            } else {
                assert(names.contains(x));
            }
        }
    }
    if valid_layermap(withn) {
        assert forall|x: LayerName| #[trigger] names.contains(x) implies !violates(x, names) by {
            assert(withn.contains(x));
        }
    }
}

/// Delta layers with pairwise disjoint or exactly touching proper LSN ranges
/// always form a valid layer map.
pub proof fn lemma_disjoint_ranges_valid(names: Seq<LayerName>)
    requires
        forall|x: LayerName|
            names.contains(x) && x is Delta ==> lsn_start_of(x) < lsn_end_of(x),
        forall|x: LayerName, y: LayerName|
            names.contains(x) && names.contains(y) && x is Delta && y is Delta && x != y
                ==> lsn_end_of(x) <= lsn_start_of(y) || lsn_end_of(y) <= lsn_start_of(x),
    ensures
        valid_layermap(names),
{
    assert forall|x: LayerName| #[trigger] names.contains(x) implies !violates(x, names) by {
        if violates(x, names) {
            let p = choose|p: u64| is_split_point(names, p) && strictly_inside(p, x);
            let y = choose|y: LayerName|
                names.contains(y) && is_multi_key_delta(y) && (p == lsn_start_of(y) || p
                    == lsn_end_of(y));
            assert(x is Delta);
            assert(y is Delta);
            if x == y {
                assert(!strictly_inside(lsn_start_of(x), x));
                assert(!strictly_inside(lsn_end_of(x), x));
            } else {
                assert(lsn_start_of(y) < lsn_end_of(y));
                if lsn_end_of(x) <= lsn_start_of(y) {
                    assert(p >= lsn_start_of(y));
                } else {
                    assert(lsn_end_of(y) <= lsn_start_of(x));
                    assert(p <= lsn_end_of(y));
                }
            }
        }
    }
}

} // verus!
