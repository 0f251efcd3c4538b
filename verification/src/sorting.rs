//! The key-extraction policy of the ordering coordinator.
//!
//! The coordinator is generic over how an ordering key is read from a
//! wire unit; the one policy used on the Merge-with-ordering path reads
//! the block sequence number that the serializer stamped. A unit without
//! a stamp is a contract violation of the upstream path and is reported
//! as a fatal error, never resolved to a guessed order.

use vstd::prelude::*;

use crate::block::WireUnit;
use crate::error::ExchangeError;

verus! {

/// Extracts the ordering key of a wire unit. Implementations must
/// return exactly the unit's sequence stamp: the coordinator's merge
/// guarantee is proved from this contract.
pub trait ExchangeSorting: Sized {
    fn block_number(&self, unit: &WireUnit) -> (r: Result<u64, ExchangeError>)
        ensures
            match r {
                Ok(n) => unit.block_number == Some(n),
                Err(e) => unit.block_number is None && e matches ExchangeError::MissingBlockNumber,
            },
    ;
}

/// The sink-side policy: the ordering key is the `block_number` stamp
/// attached by the serializer stage.
pub struct SinkExchangeSorting {}

impl SinkExchangeSorting {
    pub fn create() -> (r: SinkExchangeSorting) {
        SinkExchangeSorting {  }
    }
}

impl ExchangeSorting for SinkExchangeSorting {
    fn block_number(&self, unit: &WireUnit) -> (r: Result<u64, ExchangeError>) {
        match unit.block_number {
            Some(n) => Ok(n),
            None => Err(ExchangeError::MissingBlockNumber),
        }
    }
}

} // verus!
