//! Counter metrics over a rolling sixty-second window.
//!
//! Callers count events per key inside a namespace; a three-stage pipeline,
//! run once per tick, moves the raw counts into per-key sliding windows,
//! derives each key's rolling average and sum, and folds those into
//! namespace-wide totals. A snapshot reads the latest figures.
use vstd::prelude::*;

pub mod directory;
pub mod lemmas;
pub mod registry;
pub mod window;

pub use directory::{CounterRegistryError, Directory, Stage};
pub use registry::{CounterRegistry, MetricsSnapshot, PerKeyMetrics, TotalMetrics};

verus! {

use crate::registry::{RegistryModel, SnapshotModel};

/// What `fetch` returns for namespace `ns` of a directory in state `d`.
pub open spec fn fetch_model(d: Map<u64, RegistryModel>, ns: u64) -> SnapshotModel {
    if d.contains_key(ns) {
        d[ns].snapshot()
    } else {
        SnapshotModel::empty()
    }
}

/// Creates the registry of namespace `ns`. Returns `false`, and changes
/// nothing, when `ns` already has one.
pub fn init(directory: &mut Directory, ns: u64) -> (r: bool)
    requires
        old(directory).wf(),
    ensures
        final(directory).wf(),
        r == !old(directory)@.contains_key(ns),
        final(directory)@ == if r {
            old(directory)@.insert(ns, RegistryModel::empty())
        } else {
            old(directory)@
        },
{
    directory.register(ns)
}

/// Counts one event for `key` in namespace `ns`. An event for a namespace
/// that was never initialised is dropped.
pub fn increment(directory: &mut Directory, ns: u64, key: u64)
    requires
        old(directory).wf(),
    ensures
        final(directory).wf(),
        final(directory)@ == if old(directory)@.contains_key(ns) {
            old(directory)@.insert(ns, old(directory)@[ns].incremented(key))
        } else {
            old(directory)@
        },
{
    directory.increment(ns, key)
}

/// The current figures of namespace `ns`; an empty snapshot (no keys, zero
/// totals) when the namespace was never initialised.
pub fn fetch(directory: &Directory, ns: u64) -> (r: MetricsSnapshot)
    requires
        directory.wf(),
    ensures
        r@ == fetch_model(directory@, ns),
{
    match MetricsSnapshot::fetch(directory, ns) {
        Ok(snapshot) => snapshot,
        Err(_) => MetricsSnapshot::empty(),
    }
}

} // verus!
