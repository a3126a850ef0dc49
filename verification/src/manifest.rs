//! The per-timeline manifest: schema version, the layer reference map, and the
//! consistency metadata it carries twice for historical reasons.

use vstd::prelude::*;
use crate::generation::Generation;
use crate::ids::{ShardIndex, TimelineId};
use crate::layer::LayerName;

verus! {

/// The manifest's claim about a referenced layer's physical placement.
#[derive(Clone, Copy, PartialEq, Eq, Structural, Debug)]
pub struct LayerFileMetadata {
    pub file_size: u64,
    pub shard: ShardIndex,
    pub generation: Generation,
}

/// The metadata block inside the manifest.
#[derive(Clone, Copy, Debug)]
pub struct TimelineMetadata {
    pub disk_consistent_lsn: u64,
    pub ancestor_timeline: Option<TimelineId>,
}

/// A parsed per-timeline manifest.
#[derive(Clone, Debug)]
pub struct IndexPart {
    pub version: u32,
    /// The layer reference map; its layer names are pairwise distinct.
    pub layer_metadata: Vec<(LayerName, LayerFileMetadata)>,
    pub metadata: TimelineMetadata,
    /// The same LSN as `metadata.disk_consistent_lsn`, duplicated at the
    /// document's top level; the two must agree.
    pub disk_consistent_lsn: u64,
}

pub const OLDEST_KNOWN_VERSION: u32 = 1;

pub const NEWEST_KNOWN_VERSION: u32 = 11;

/// How many of the newest known versions count as current; older known
/// versions are reported informationally, not as a fault.
pub const VERSION_LENIENCY: u32 = 3;

pub open spec fn is_known_version(v: u32) -> bool {
    OLDEST_KNOWN_VERSION <= v <= NEWEST_KNOWN_VERSION
}

pub open spec fn is_current_version(v: u32) -> bool {
    NEWEST_KNOWN_VERSION - VERSION_LENIENCY < v <= NEWEST_KNOWN_VERSION
}

pub fn known_version(v: u32) -> (r: bool)
    ensures
        r == is_known_version(v),
{
    OLDEST_KNOWN_VERSION <= v && v <= NEWEST_KNOWN_VERSION
}

pub fn current_version(v: u32) -> (r: bool)
    ensures
        r == is_current_version(v),
{
    NEWEST_KNOWN_VERSION - VERSION_LENIENCY < v && v <= NEWEST_KNOWN_VERSION
}

/// The layer names of a layer reference map, in map order.
pub open spec fn layer_names_of(s: Seq<(LayerName, LayerFileMetadata)>) -> Seq<LayerName> {
    s.map_values(|p: (LayerName, LayerFileMetadata)| p.0)
}

impl IndexPart {
    /// Layer names are the map's keys, so they may not repeat.
    pub open spec fn wf(self) -> bool {
        forall|i: int, j: int|
            0 <= i < j < self.layer_metadata@.len() ==> (#[trigger] self.layer_metadata@[i]).0 != (
            #[trigger] self.layer_metadata@[j]).0
    }
}

} // verus!
