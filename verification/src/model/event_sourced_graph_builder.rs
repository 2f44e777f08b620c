//! Settings for building an event-sourced graph: where it is stored, the
//! embedding dimension of its vector index, and how often it takes snapshots.

use vstd::prelude::*;
use std::time::Duration;

verus! {

/// The span that `Duration::from_secs(secs)` gives.
pub uninterp spec fn span_of_secs(secs: u64) -> Duration;

/// `Duration::from_secs`: the span of `secs` whole seconds, the same span
/// for the same number of seconds.
#[verifier::external_body]
fn duration_from_secs(secs: u64) -> (r: Duration)
    ensures
        r == span_of_secs(secs),
{
    Duration::from_secs(secs)
}

/// Settings of an event-sourced graph.
pub struct EventSourcedGraphBuilder {
    /// Storage directory; when unset, the environment or `./data` decides.
    pub storage_path: Option<String>,
    /// Embedding dimension of the vector index.
    pub vector_dim: usize,
    /// Interval between snapshots.
    pub snapshot_interval: Duration,
}

impl EventSourcedGraphBuilder {
    /// The default settings: no storage path, dimension 128, a snapshot every hour.
    pub fn new() -> (r: EventSourcedGraphBuilder)
        ensures
            r.storage_path is None,
            r.vector_dim == 128,
            r.snapshot_interval == span_of_secs(3600),
    {
        EventSourcedGraphBuilder { storage_path: None, vector_dim: 128, snapshot_interval: duration_from_secs(3600) }
    }

    /// Sets the storage directory.
    pub fn with_storage_path(self, path: &str) -> (r: EventSourcedGraphBuilder)
        ensures
            r.storage_path matches Some(p) && p@ == path@,
            r.vector_dim == self.vector_dim,
            r.snapshot_interval == self.snapshot_interval,
    {
        let mut s = self;
        s.storage_path = Some(String::from_str(path));
        s
    }

    /// Sets the embedding dimension.
    pub fn with_vector_dim(self, dim: usize) -> (r: EventSourcedGraphBuilder)
        ensures
            r.vector_dim == dim,
            r.storage_path == self.storage_path,
            r.snapshot_interval == self.snapshot_interval,
    {
        let mut s = self;
        s.vector_dim = dim;
        s
    }

    /// Sets the snapshot interval.
    pub fn with_snapshot_interval(self, interval: Duration) -> (r: EventSourcedGraphBuilder)
        ensures
            r.snapshot_interval == interval,
            r.storage_path == self.storage_path,
            r.vector_dim == self.vector_dim,
    {
        let mut s = self;
        s.snapshot_interval = interval;
        s
    }
}

impl Default for EventSourcedGraphBuilder {
    fn default() -> (r: EventSourcedGraphBuilder)
        ensures
            r.storage_path is None,
            r.vector_dim == 128,
            r.snapshot_interval == span_of_secs(3600),
    {
        EventSourcedGraphBuilder::new()
    }
}

} // verus!
