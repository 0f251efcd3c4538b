//! The declarative exchange specification.
//!
//! Produced upstream by the planner, an `ExchangeParams` value describes
//! how one fragment's output maps to downstream consumers: either a
//! single Merge destination, optionally with a global ordering
//! requirement, or a Shuffle fan-out over many destinations driven by a
//! partition scheme. The value is immutable once constructed; the
//! topology builder reads it exactly once per fragment.

use vstd::prelude::*;

verus! {

/// The ordering strategy of an ordered Merge exchange. The only strategy
/// in use reconciles producer lanes by the externally assigned block
/// sequence number each wire unit carries.
pub enum OrderingSpec {
    ByBlockNumber,
}

/// The row-level rule that maps a row's key to a destination lane index.
/// The rule is deterministic: a fixed scheme and a fixed row order give a
/// reproducible assignment.
pub enum PartitionScheme {
    /// Route each row to `key mod destination_count`.
    KeyModulo,
}

/// A Merge exchange: every producer lane converges on one destination
/// node, which must not be the node doing the wiring.
pub struct MergeExchangeParams {
    pub destination_id: u64,
    pub fragment_id: u64,
    pub schema_id: u64,
    pub ordering: Option<OrderingSpec>,
}

/// A Shuffle exchange: producer lanes fan out to one destination per
/// entry of `destination_ids`, partitioned row by row.
pub struct ShuffleExchangeParams {
    pub schema_id: u64,
    pub destination_ids: Vec<u64>,
    pub scheme: PartitionScheme,
}

/// The exchange specification: a closed tagged union handled
/// exhaustively at topology-build time.
pub enum ExchangeParams {
    MergeExchange(MergeExchangeParams),
    ShuffleExchange(ShuffleExchangeParams),
}

impl ExchangeParams {
    /// Well-formedness of a specification: a Shuffle must fan out to at
    /// least one destination, or there is no lane to route rows to.
    pub open spec fn wf(self) -> bool {
        match self {
            ExchangeParams::MergeExchange(_) => true,
            ExchangeParams::ShuffleExchange(p) => p.destination_ids@.len() >= 1,
        }
    }

}

} // verus!
