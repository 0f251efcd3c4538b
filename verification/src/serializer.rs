//! The serializer stage: one per producer lane.
//!
//! Each invocation consumes one result block and yields one wire unit
//! whose payload is the block's rows, unchanged and in order. On an
//! ordered Merge path the stage also stamps the unit with the next value
//! of a private per-lane counter that starts at zero, so a lane's output
//! is strictly increasing in its stamps. A block that does not carry the
//! configured output schema is a planning defect and fails the exchange.

use vstd::prelude::*;

use crate::block::DataBlock;
use crate::block::WireUnit;
use crate::error::ExchangeError;

verus! {

/// A per-lane serializer. `with_sorting` is set on the ordered Merge
/// path, where every unit must leave carrying a sequence stamp.
pub struct ExchangeSerializer {
    pub schema_id: u64,
    pub with_sorting: bool,
    pub next_block_number: u64,
}

impl ExchangeSerializer {
    /// A fresh stage for one lane; the sequence counter starts at zero.
    pub fn create(schema_id: u64, with_sorting: bool) -> (r: ExchangeSerializer)
        ensures
            r == (ExchangeSerializer { schema_id, with_sorting, next_block_number: 0u64 }),
    {
        ExchangeSerializer { schema_id, with_sorting, next_block_number: 0 }
    }

    /// What `serialize` yields for a given block: the rows pass through
    /// untouched, and the stamp is the counter value on a sorting lane.
    pub open spec fn unit_for(self, block: DataBlock) -> WireUnit {
        WireUnit {
            schema_id: block.schema_id,
            payload: block.rows,
            block_number: if self.with_sorting {
                Some(self.next_block_number)
            } else {
                None
            },
        }
    }

    /// Convert one block to wire form, stamping it on a sorting lane.
    ///
    /// The counter never reaches its type bound in a fragment's
    /// lifetime; the caller keeps it below the bound.
    pub fn serialize(&mut self, block: DataBlock) -> (r: Result<WireUnit, ExchangeError>)
        requires
            old(self).next_block_number < u64::MAX,
        ensures
            final(self).schema_id == old(self).schema_id,
            final(self).with_sorting == old(self).with_sorting,
            match r {
                Ok(u) => {
                    &&& block.schema_id == old(self).schema_id
                    &&& u == old(self).unit_for(block)
                    &&& final(self).next_block_number == old(self).next_block_number + (
                    if old(self).with_sorting {
                        1int
                    } else {
                        0int
                    })
                },
                Err(e) => {
                    &&& block.schema_id != old(self).schema_id
                    &&& e == (ExchangeError::SchemaMismatch {
                        expected: old(self).schema_id,
                        actual: block.schema_id,
                    })
                    &&& *final(self) == *old(self)
                },
            },
    {
        if block.schema_id != self.schema_id {
            return Err(ExchangeError::SchemaMismatch {
                expected: self.schema_id,
                actual: block.schema_id,
            });
        }
        let block_number: Option<u64> = if self.with_sorting {
            let n = self.next_block_number;
            self.next_block_number = n + 1;
            Some(n)
        } else {
            None
        };
        Ok(WireUnit { schema_id: block.schema_id, payload: block.rows, block_number })
    }
}

} // verus!
