//! Identity types: tenants, timelines, shards, and the external branch record.

use vstd::prelude::*;
use vstd::string::StringExecFns;
use crate::hex::{hex_seq, append_hex};

verus! {

#[derive(Clone, Copy, PartialEq, Eq, Structural, Debug)]
pub struct TenantId(pub u128);

#[derive(Clone, Copy, PartialEq, Eq, Structural, Debug)]
pub struct TimelineId(pub u128);

/// The owning shard of an object: a shard number out of a shard count.
/// A count of zero denotes the unsharded (legacy) layout.
#[derive(Clone, Copy, PartialEq, Eq, Structural, Debug)]
pub struct ShardIndex {
    pub shard_number: u8,
    pub shard_count: u8,
}

impl ShardIndex {
    pub fn new(shard_number: u8, shard_count: u8) -> (r: ShardIndex)
        ensures
            r == (ShardIndex { shard_number, shard_count }),
    {
        ShardIndex { shard_number, shard_count }
    }

    pub open spec fn is_unsharded(self) -> bool {
        self.shard_count == 0
    }
}

/// One shard of one timeline of one tenant: the unit that owns an object
/// prefix and a manifest.
#[derive(Clone, Copy, PartialEq, Eq, Structural, Debug)]
pub struct TenantShardTimelineId {
    pub tenant_id: TenantId,
    pub shard_index: ShardIndex,
    pub timeline_id: TimelineId,
}

/// The control plane's record of a branch, used only for the existence
/// cross-check.
#[derive(Clone, Copy, PartialEq, Eq, Structural, Debug)]
pub struct BranchData {
    pub id: u128,
    pub project_id: u128,
}

/// A tenant or timeline id rendered as 32 lowercase hexadecimal digits.
pub open spec fn id_seq(v: u128) -> Seq<char> {
    hex_seq(v as nat, 32)
}

pub fn append_id(out: &mut String, v: u128)
    ensures
        final(out)@ == old(out)@ + id_seq(v),
{
    append_hex(out, v, 32);
}

/// The shard part of an object path: empty for the unsharded layout,
/// otherwise a dash, the shard number, and the shard count, two hexadecimal
/// digits each.
pub open spec fn shard_suffix_seq(s: ShardIndex) -> Seq<char> {
    if s.is_unsharded() {
        Seq::empty()
    } else {
        seq!['-'] + hex_seq(s.shard_number as nat, 2) + hex_seq(s.shard_count as nat, 2)
    }
}

pub fn append_shard_suffix(out: &mut String, s: ShardIndex)
    ensures
        final(out)@ == old(out)@ + shard_suffix_seq(s),
{
    if s.shard_count == 0 {
        proof {
            assert(old(out)@ + shard_suffix_seq(s) =~= old(out)@);
        }
        return;
    }
    proof {
        reveal_strlit("-");
    }
    out.append("-");
    append_hex(out, s.shard_number as u128, 2);
    append_hex(out, s.shard_count as u128, 2);
    proof {
        assert("-"@ =~= seq!['-']);
        assert(old(out)@ + "-"@ + hex_seq(s.shard_number as nat, 2) + hex_seq(
            s.shard_count as nat,
            2,
        ) =~= old(out)@ + shard_suffix_seq(s));
    }
}

} // verus!
