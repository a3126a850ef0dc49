//! Verified core of a remote-storage scrubber for an LSN-versioned, sharded
//! storage engine: layer-name parsing, layer-map structural validation,
//! tenant-wide reference counting for orphan detection, per-timeline listing
//! reconciliation, and the per-timeline health verdict.
//!
//! Object storage itself (listing, download, existence probes) and JSON
//! decoding of the manifest document are collaborators supplied by the caller;
//! every function here is pure over plain values and verified.

pub mod analysis;
pub mod generation;
pub mod hex;
pub mod ids;
pub mod index;
pub mod layer;
pub mod layermap;
pub mod manifest;
pub mod reconcile;
pub mod strutil;
