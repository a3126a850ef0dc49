//! The tenant-wide object index: existence facts from listings, reference
//! facts from manifests, and the orphans derived by reference counting.
//!
//! Reference counts never decrease after a listing is pushed and no entry is
//! ever removed; an entry whose count is still zero after every manifest has
//! been cross-checked is an orphan candidate — a candidate only, since the
//! listing snapshot may race concurrent writers, so unreferenced never means
//! deletable.

use vstd::prelude::*;
use crate::generation::Generation;
use crate::ids::{ShardIndex, TenantShardTimelineId, TimelineId};
use crate::layer::LayerName;
use crate::manifest::LayerFileMetadata;

verus! {

/// One existence fact: a layer object seen in the listing of one
/// shard-timeline, with the number of manifest references seen so far.
#[derive(Clone, Copy, PartialEq, Eq, Structural, Debug)]
pub struct LayerRef {
    pub shard: ShardIndex,
    pub timeline_id: TimelineId,
    pub layer: LayerName,
    pub generation: Generation,
    pub ref_count: u64,
}

pub open spec fn entry_matches(
    e: LayerRef,
    shard: ShardIndex,
    tl: TimelineId,
    layer: LayerName,
    gen: Generation,
) -> bool {
    e.shard == shard && e.timeline_id == tl && e.layer == layer && e.generation == gen
}

pub open spec fn seq_present(
    s: Seq<LayerRef>,
    shard: ShardIndex,
    tl: TimelineId,
    layer: LayerName,
    gen: Generation,
) -> bool {
    exists|i: int| 0 <= i < s.len() && entry_matches(#[trigger] s[i], shard, tl, layer, gen)
}

/// A reference count bumped by one, saturating at the type's maximum.
pub open spec fn bump(e: LayerRef) -> LayerRef {
    LayerRef { ref_count: if e.ref_count == u64::MAX { u64::MAX } else { (e.ref_count + 1) as u64 }, ..e }
}

/// Entry-for-entry: identities unchanged and reference counts not decreased —
/// marking references never removes an entry and never lowers a count.
pub open spec fn counts_only_increase(a: Seq<LayerRef>, b: Seq<LayerRef>) -> bool {
    &&& b.len() == a.len()
    &&& forall|i: int|
        0 <= i < a.len() ==> {
            &&& (#[trigger] b[i]).shard == (#[trigger] a[i]).shard
            &&& b[i].timeline_id == a[i].timeline_id
            &&& b[i].layer == a[i].layer
            &&& b[i].generation == a[i].generation
            &&& b[i].ref_count >= a[i].ref_count
        }
}

/// The index entries created when a shard-timeline's listing is pushed.
pub open spec fn pushed_entries(
    shard: ShardIndex,
    tl: TimelineId,
    layers: Seq<(LayerName, Generation)>,
) -> Seq<LayerRef> {
    layers.map_values(
        |p: (LayerName, Generation)|
            LayerRef { shard, timeline_id: tl, layer: p.0, generation: p.1, ref_count: 0 },
    )
}

/// Top-level index of layer objects in a tenant, keyed by shard-timeline and
/// by (layer, generation) within it.
pub struct TenantObjectListing {
    /// The shard-timelines whose listings have been pushed.
    pub timelines: Vec<(ShardIndex, TimelineId)>,
    /// One entry per listed layer object.
    pub layers: Vec<LayerRef>,
}

/// Pushing the same shard-timeline twice is a driver bug, not a data problem:
/// each shard-timeline is listed exactly once per pass.
#[derive(Clone, Copy, PartialEq, Eq, Structural, Debug)]
pub enum PushError {
    DuplicateShardTimeline,
}

impl TenantObjectListing {
    /// Shard-timelines are registered at most once, layer entries are unique
    /// per (shard, timeline, layer, generation), and every entry belongs to a
    /// registered shard-timeline.
    pub open spec fn wf(self) -> bool {
        &&& forall|i: int, j: int|
            0 <= i < j < self.timelines@.len() ==> #[trigger] self.timelines@[i]
                != #[trigger] self.timelines@[j]
        &&& forall|i: int, j: int|
            0 <= i < j < self.layers@.len() ==> !entry_matches(
                #[trigger] self.layers@[i],
                (#[trigger] self.layers@[j]).shard,
                self.layers@[j].timeline_id,
                self.layers@[j].layer,
                self.layers@[j].generation,
            )
        &&& forall|i: int|
            0 <= i < self.layers@.len() ==> self.timelines@.contains(
                ((#[trigger] self.layers@[i]).shard, self.layers@[i].timeline_id),
            )
    }

    pub open spec fn tl_listed(self, shard: ShardIndex, tl: TimelineId) -> bool {
        self.timelines@.contains((shard, tl))
    }

    pub open spec fn entry_present(
        self,
        shard: ShardIndex,
        tl: TimelineId,
        layer: LayerName,
        gen: Generation,
    ) -> bool {
        seq_present(self.layers@, shard, tl, layer, gen)
    }

    pub fn new() -> (r: TenantObjectListing)
        ensures
            r.wf(),
            r.timelines@ == Seq::<(ShardIndex, TimelineId)>::empty(),
            r.layers@ == Seq::<LayerRef>::empty(),
    {
        let r = TenantObjectListing { timelines: Vec::new(), layers: Vec::new() };
        proof {
            assert(r.timelines@ =~= Seq::<(ShardIndex, TimelineId)>::empty());
            assert(r.layers@ =~= Seq::<LayerRef>::empty());
        }
        r
    }

    /// Registers the existence facts observed in one shard-timeline's object
    /// listing. A second push for the same shard-timeline is rejected
    /// unchanged: the driver lists each shard-timeline exactly once.
    pub fn push(&mut self, ttid: TenantShardTimelineId, layers: Vec<(LayerName, Generation)>) -> (r:
        Result<(), PushError>)
        requires
            old(self).wf(),
            forall|i: int, j: int| 0 <= i < j < layers@.len() ==> layers@[i] != layers@[j],
        ensures
            final(self).wf(),
            r is Ok <==> !old(self).tl_listed(ttid.shard_index, ttid.timeline_id),
            r is Err ==> final(self).timelines@ == old(self).timelines@ && final(self).layers@
                == old(self).layers@,
            r is Ok ==> final(self).timelines@ == old(self).timelines@.push(
                (ttid.shard_index, ttid.timeline_id),
            ) && final(self).layers@ == old(self).layers@ + pushed_entries(
                ttid.shard_index,
                ttid.timeline_id,
                layers@,
            ),
    {
        let shard = ttid.shard_index;
        let tl = ttid.timeline_id;
        let mut i: usize = 0;
        while i < self.timelines.len()
            invariant
                0 <= i <= self.timelines@.len(),
                old(self).wf(),
                shard == ttid.shard_index,
                tl == ttid.timeline_id,
                forall|k: int| 0 <= k < i ==> self.timelines@[k] != (shard, tl),
                self.timelines@ == old(self).timelines@,
                self.layers@ == old(self).layers@,
            decreases self.timelines@.len() - i,
        {
            let (s, t) = self.timelines[i];
            if s == shard && t == tl {
                proof {
                    assert(self.timelines@[i as int] == (shard, tl));
                    assert(self.timelines@.contains((shard, tl)));
                }
                return Err(PushError::DuplicateShardTimeline);
            }
            i += 1;
        }
        proof {
            if old(self).tl_listed(shard, tl) {
                let k = choose|k: int|
                    0 <= k < old(self).timelines@.len() && old(self).timelines@[k] == (shard, tl);
                assert(false);
            }
        }
        self.timelines.push((shard, tl));
        let ghost mapped = pushed_entries(shard, tl, layers@);
        let mut j: usize = 0;
        while j < layers.len()
            invariant
                0 <= j <= layers@.len(),
                mapped == pushed_entries(shard, tl, layers@),
                mapped.len() == layers@.len(),
                self.timelines@ == old(self).timelines@.push((shard, tl)),
                self.layers@ == old(self).layers@ + mapped.take(j as int),
            decreases layers@.len() - j,
        {
            let (ln, g) = layers[j];
            self.layers.push(
                LayerRef { shard, timeline_id: tl, layer: ln, generation: g, ref_count: 0 },
            );
            proof {
                assert(mapped[j as int] == LayerRef {
                    shard,
                    timeline_id: tl,
                    layer: ln,
                    generation: g,
                    ref_count: 0,
                });
                assert(old(self).layers@ + mapped.take(j as int + 1) =~= (old(self).layers@
                    + mapped.take(j as int)).push(mapped[j as int]));
            }
            j += 1;
        }
        proof {
            assert(mapped.take(mapped.len() as int) =~= mapped);
            let newtl = self.timelines@;
            let newls = self.layers@;
            assert(final(self).wf()) by {
                assert forall|a: int, b: int| 0 <= a < b < newtl.len() implies newtl[a]
                    != newtl[b] by {
                    if b < newtl.len() - 1 {
                        assert(newtl[a] == old(self).timelines@[a]);
                        assert(newtl[b] == old(self).timelines@[b]);
                    } else {
                        assert(newtl[b] == (shard, tl));
                        assert(newtl[a] == old(self).timelines@[a]);
                        if old(self).timelines@[a] == (shard, tl) {
                            assert(old(self).timelines@.contains((shard, tl)));
                            let k = choose|k: int|
                                0 <= k < old(self).timelines@.len() && old(self).timelines@[k] == (
                                shard,
                                tl,
                                );
                            assert(false);
                        }
                    }
                }
                let oldn = old(self).layers@.len() as int;
                assert forall|a: int, b: int| 0 <= a < b < newls.len() implies !entry_matches(
                    newls[a],
                    newls[b].shard,
                    newls[b].timeline_id,
                    newls[b].layer,
                    newls[b].generation,
                ) by {
                    if b < oldn {
                    } else if a >= oldn {
                        assert(newls[a] == mapped[a - oldn]);
                        assert(newls[b] == mapped[b - oldn]);
                        assert(layers@[a - oldn] != layers@[b - oldn]);
                    } else {
                        // an old entry's shard-timeline is already listed; the new
                        // entries' shard-timeline is not
                        assert(newls[b] == mapped[b - oldn]);
                        assert(old(self).timelines@.contains(
                            (old(self).layers@[a].shard, old(self).layers@[a].timeline_id),
                        ));
                        if entry_matches(newls[a], shard, tl, newls[b].layer, newls[b].generation) {
                            assert(old(self).tl_listed(shard, tl));
                        }
                    }
                }
                assert forall|a: int| 0 <= a < newls.len() implies newtl.contains(
                    ((newls[a]).shard, newls[a].timeline_id),
                ) by {
                    if a < oldn {
                        assert(old(self).timelines@.contains(
                            (old(self).layers@[a].shard, old(self).layers@[a].timeline_id),
                        ));
                        let k = choose|k: int|
                            0 <= k < old(self).timelines@.len() && old(self).timelines@[k] == (
                            old(self).layers@[a].shard,
                            old(self).layers@[a].timeline_id,
                            );
                        assert(newtl[k] == (newls[a].shard, newls[a].timeline_id));
                    } else {
                        assert(newls[a] == mapped[a - oldn]);
                        assert(newtl[newtl.len() - 1] == (shard, tl));
                    }
                }
            }
        }
        Ok(())
    }

    /// Records a manifest's reference to a layer: if the layer was seen in a
    /// listing, its reference count rises by one and the call returns true;
    /// otherwise the index is unchanged and the call returns false.
    pub fn check_ref(
        &mut self,
        timeline_id: TimelineId,
        layer_file: &LayerName,
        metadata: &LayerFileMetadata,
    ) -> (r: bool)
        requires
            old(self).wf(),
        ensures
            final(self).wf(),
            r == old(self).entry_present(
                metadata.shard,
                timeline_id,
                *layer_file,
                metadata.generation,
            ),
            !r ==> final(self).layers@ == old(self).layers@,
            final(self).timelines@ == old(self).timelines@,
            r ==> exists|i: int|
                0 <= i < old(self).layers@.len() && entry_matches(
                    #[trigger] old(self).layers@[i],
                    metadata.shard,
                    timeline_id,
                    *layer_file,
                    metadata.generation,
                ) && final(self).layers@ == old(self).layers@.update(i, bump(old(self).layers@[i])),
            forall|s: ShardIndex, t: TimelineId, n: LayerName, g: Generation|
                final(self).entry_present(s, t, n, g) == old(self).entry_present(s, t, n, g),
    {
        let n = self.layers.len();
        let mut i: usize = 0;
        while i < n
            invariant
                0 <= i <= n,
                n == self.layers@.len(),
                old(self).wf(),
                self.timelines@ == old(self).timelines@,
                self.layers@ == old(self).layers@,
                forall|k: int|
                    0 <= k < i ==> !entry_matches(
                        #[trigger] self.layers@[k],
                        metadata.shard,
                        timeline_id,
                        *layer_file,
                        metadata.generation,
                    ),
            decreases n - i,
        {
            let e = self.layers[i];
            if e.shard == metadata.shard && e.timeline_id == timeline_id && e.layer == *layer_file
                && e.generation == metadata.generation {
                let entry = &mut self.layers[i];
                let c = entry.ref_count;
                if c < u64::MAX {
                    entry.ref_count = c + 1;
                } else {
                    entry.ref_count = c;
                }
                proof {
                    let oldl = old(self).layers@;
                    assert(entry_matches(oldl[i as int], metadata.shard, timeline_id, *layer_file,
                        metadata.generation));
                    assert(self.layers@ == oldl.update(i as int, bump(oldl[i as int])));
                    assert(old(self).entry_present(metadata.shard, timeline_id, *layer_file,
                        metadata.generation));
                    lemma_bump_preserves(oldl, i as int);
                    assert(final(self).wf()) by {
                        lemma_bump_wf(*old(self), *self, i as int);
                    }
                }
                return true;
            }
            i += 1;
        }
        proof {
            if old(self).entry_present(metadata.shard, timeline_id, *layer_file,
                metadata.generation) {
                let k = choose|k: int|
                    0 <= k < old(self).layers@.len() && entry_matches(
                        #[trigger] old(self).layers@[k],
                        metadata.shard,
                        timeline_id,
                        *layer_file,
                        metadata.generation,
                    );
                assert(false);
            }
        }
        false
    }

    /// Every entry whose reference count is still zero, in index order:
    /// candidates for garbage collection, never a promise of deletability.
    pub fn get_orphans(&self) -> (r: Vec<(ShardIndex, TimelineId, LayerName, Generation)>)
        ensures
            r@ == orphans_of(self.layers@),
    {
        let mut out: Vec<(ShardIndex, TimelineId, LayerName, Generation)> = Vec::new();
        let mut i: usize = 0;
        proof {
            assert(self.layers@.take(0) =~= Seq::<LayerRef>::empty());
        }
        while i < self.layers.len()
            invariant
                0 <= i <= self.layers@.len(),
                out@ == orphans_of(self.layers@.take(i as int)),
            decreases self.layers@.len() - i,
        {
            let e = self.layers[i];
            proof {
                assert(self.layers@.take(i as int + 1).drop_last() =~= self.layers@.take(i as int));
                assert(self.layers@.take(i as int + 1).last() == e);
            }
            if e.ref_count == 0 {
                out.push((e.shard, e.timeline_id, e.layer, e.generation));
            }
            i += 1;
        }
        proof {
            assert(self.layers@.take(self.layers@.len() as int) =~= self.layers@);
        }
        out
    }
}

/// Bumping one entry's count changes no entry's identity: presence is stable.
proof fn lemma_bump_preserves(oldl: Seq<LayerRef>, i: int)
    requires
        0 <= i < oldl.len(),
    ensures
        forall|s: ShardIndex, t: TimelineId, n: LayerName, g: Generation|
            seq_present(oldl.update(i, bump(oldl[i])), s, t, n, g) == seq_present(oldl, s, t, n, g),
{
    let newl = oldl.update(i, bump(oldl[i]));
    assert forall|s: ShardIndex, t: TimelineId, n: LayerName, g: Generation|
        seq_present(newl, s, t, n, g) == seq_present(oldl, s, t, n, g) by {
        if seq_present(newl, s, t, n, g) {
            let k = choose|k: int|
                0 <= k < newl.len() && entry_matches(#[trigger] newl[k], s, t, n, g);
            assert(entry_matches(oldl[k], s, t, n, g));
        }
        if seq_present(oldl, s, t, n, g) {
            let k = choose|k: int|
                0 <= k < oldl.len() && entry_matches(#[trigger] oldl[k], s, t, n, g);
            assert(entry_matches(newl[k], s, t, n, g));
        }
    }
}

proof fn lemma_bump_wf(oldi: TenantObjectListing, newi: TenantObjectListing, i: int)
    requires
        oldi.wf(),
        0 <= i < oldi.layers@.len(),
        newi.timelines@ == oldi.timelines@,
        newi.layers@ == oldi.layers@.update(i, bump(oldi.layers@[i])),
    ensures
        newi.wf(),
{
    assert forall|a: int, b: int| 0 <= a < b < newi.layers@.len() implies !entry_matches(
        #[trigger] newi.layers@[a],
        (#[trigger] newi.layers@[b]).shard,
        newi.layers@[b].timeline_id,
        newi.layers@[b].layer,
        newi.layers@[b].generation,
    ) by {
        assert(!entry_matches(
            oldi.layers@[a],
            oldi.layers@[b].shard,
            oldi.layers@[b].timeline_id,
            oldi.layers@[b].layer,
            oldi.layers@[b].generation,
        ));
    }
    assert forall|a: int| 0 <= a < newi.layers@.len() implies newi.timelines@.contains(
        ((#[trigger] newi.layers@[a]).shard, newi.layers@[a].timeline_id),
    ) by {
        assert(oldi.timelines@.contains((oldi.layers@[a].shard, oldi.layers@[a].timeline_id)));
    }
}

/// The orphan list: entries with a zero reference count, in index order.
pub open spec fn orphans_of(layers: Seq<LayerRef>) -> Seq<
    (ShardIndex, TimelineId, LayerName, Generation),
>
    decreases layers.len(),
{
    if layers.len() == 0 {
        Seq::empty()
    } else {
        let rest = orphans_of(layers.drop_last());
        let e = layers.last();
        if e.ref_count == 0 {
            rest.push((e.shard, e.timeline_id, e.layer, e.generation))
        } else {
            rest
        }
    }
}

/// A tuple is an orphan exactly when some entry with those fields has a zero
/// reference count.
pub proof fn lemma_orphans_membership(
    layers: Seq<LayerRef>,
    t: (ShardIndex, TimelineId, LayerName, Generation),
)
    ensures
        orphans_of(layers).contains(t) <==> exists|i: int|
            0 <= i < layers.len() && entry_matches(#[trigger] layers[i], t.0, t.1, t.2, t.3)
                && layers[i].ref_count == 0,
    decreases layers.len(),
{
    if layers.len() == 0 {
    } else {
        let pre = layers.drop_last();
        let e = layers.last();
        lemma_orphans_membership(pre, t);
        let rest = orphans_of(pre);
        if e.ref_count == 0 {
            let whole = rest.push((e.shard, e.timeline_id, e.layer, e.generation));
            assert forall|q: (ShardIndex, TimelineId, LayerName, Generation)|
                whole.contains(q) <==> rest.contains(q) || q == (
                e.shard,
                e.timeline_id,
                e.layer,
                e.generation,
            ) by {
                if whole.contains(q) {
                    let k = choose|k: int| 0 <= k < whole.len() && whole[k] == q;
                    if k < rest.len() {
                        assert(rest[k] == q);
                    }
                }
                if rest.contains(q) {
                    let k = choose|k: int| 0 <= k < rest.len() && rest[k] == q;
                    assert(whole[k] == q);
                }
                if q == (e.shard, e.timeline_id, e.layer, e.generation) {
                    assert(whole[whole.len() - 1] == q);
                }
            }
        }
        if exists|i: int|
            0 <= i < layers.len() && entry_matches(#[trigger] layers[i], t.0, t.1, t.2, t.3)
                && layers[i].ref_count == 0 {
            let i = choose|i: int|
                0 <= i < layers.len() && entry_matches(#[trigger] layers[i], t.0, t.1, t.2, t.3)
                    && layers[i].ref_count == 0;
            if i < layers.len() - 1 {
                assert(pre[i] == layers[i]);
            }
        }
        if exists|i: int|
            0 <= i < pre.len() && entry_matches(#[trigger] pre[i], t.0, t.1, t.2, t.3)
                && pre[i].ref_count == 0 {
            let i = choose|i: int|
                0 <= i < pre.len() && entry_matches(#[trigger] pre[i], t.0, t.1, t.2, t.3)
                    && pre[i].ref_count == 0;
            assert(layers[i] == pre[i]);
        }
    }
}

/// The orphan query is read-only, so two queries without an intervening push
/// or reference mark return the same list.
pub proof fn lemma_orphans_idempotent(
    index: TenantObjectListing,
    r1: Seq<(ShardIndex, TimelineId, LayerName, Generation)>,
    r2: Seq<(ShardIndex, TimelineId, LayerName, Generation)>,
)
    requires
        r1 == orphans_of(index.layers@),
        r2 == orphans_of(index.layers@),
    ensures
        r1 == r2,
{
}

} // verus!
