//! Error taxonomy of the exchange engine.
//!
//! Every failure is fatal to the fragment being wired or executed: the
//! engine never recovers locally, it surfaces the error to the caller.

use vstd::prelude::*;

verus! {

/// A fatal exchange-engine error.
///
/// Configuration errors arise while the topology is built, before any
/// execution starts; the remaining variants arise while blocks flow.
#[derive(Debug)]
pub enum ExchangeError {
    /// A Merge exchange named the wiring node itself as its destination:
    /// the fragment would depend on its own output locally.
    MergeDestinationIsLocal { destination_id: u64, fragment_id: u64 },
    /// The resolved transport handles do not match the destinations the
    /// exchange specification implies.
    DestinationCountMismatch { implied: usize, resolved: usize },
    /// A block reached a serializer whose configured output schema it
    /// does not carry: an upstream planning defect.
    SchemaMismatch { expected: u64, actual: u64 },
    /// A wire unit reached the ordering coordinator without a sequence
    /// stamp, so no order can be derived for it.
    MissingBlockNumber,
    /// Two lanes offered the same sequence number at the merge point; the
    /// per-lane stamping contract was violated upstream.
    DuplicateBlockNumber { block_number: u64 },
    /// The transport channel bound to a writer sink reported that it can
    /// no longer accept units.
    TransportClosed { destination_id: u64 },
}

impl ExchangeError {
    /// True exactly for the errors detected at topology-build time.
    pub open spec fn is_configuration(self) -> bool {
        self matches ExchangeError::MergeDestinationIsLocal { .. }
            || self matches ExchangeError::DestinationCountMismatch { .. }
    }
}

} // verus!
