//! Result blocks and their wire-format counterparts.
//!
//! A `DataBlock` is the in-memory batch an upstream pipeline stage
//! produces: a row batch under one schema. A `WireUnit` is what the
//! serializer stage turns it into: the same rows in transport-ready form,
//! plus an optional per-lane sequence stamp that the ordering coordinator
//! reads as its only ordering key.

use vstd::prelude::*;

verus! {

/// An in-memory result batch. Rows are reduced to the key projection the
/// exchange layer reads: one integer per row. The schema a block was
/// built under is carried as an identifier so serialization can detect a
/// planning defect.
pub struct DataBlock {
    pub schema_id: u64,
    pub rows: Vec<u64>,
}

/// The serialized, transport-ready form of one result block. The payload
/// carries the block's rows unchanged; `block_number` is the metadata
/// slot the serializer fills on ordered Merge paths and every other path
/// leaves empty.
pub struct WireUnit {
    pub schema_id: u64,
    pub payload: Vec<u64>,
    pub block_number: Option<u64>,
}

/// True when the unit carries a sequence stamp.
pub open spec fn stamped(u: WireUnit) -> bool {
    u.block_number is Some
}

/// The sequence stamp of a unit known to carry one.
pub open spec fn unit_key(u: WireUnit) -> u64
    recommends
        stamped(u),
{
    u.block_number->Some_0
}

/// Every unit of the sequence carries a sequence stamp.
pub open spec fn all_stamped(s: Seq<WireUnit>) -> bool {
    forall|i: int| 0 <= i < s.len() ==> stamped(#[trigger] s[i])
}

/// The sequence is strictly increasing in its stamps: the shape of one
/// producer lane's output, where stamps are drawn from a monotonically
/// increasing counter.
pub open spec fn strictly_increasing(s: Seq<WireUnit>) -> bool {
    forall|i: int, j: int|
        0 <= i < j < s.len() ==> unit_key(#[trigger] s[i]) < unit_key(#[trigger] s[j])
}

/// The sequence never goes down in its stamps: the guarantee the
/// ordering coordinator gives for its merged output.
pub open spec fn non_decreasing(s: Seq<WireUnit>) -> bool {
    forall|i: int, j: int|
        0 <= i < j < s.len() ==> unit_key(#[trigger] s[i]) <= unit_key(#[trigger] s[j])
}

} // verus!
