//! Transport handles and the writer sink stage.
//!
//! A transport handle is the logical contract of the network channel the
//! surrounding system resolves per destination: a successful `send`
//! means the unit is queued for delivery in send order, so the `sent`
//! sequence is the channel's delivery queue. A handle is owned by
//! exactly one writer sink; a reported failure is fatal to the fragment,
//! the engine neither retries nor reorders.

use vstd::prelude::*;

use crate::block::DataBlock;
use crate::block::WireUnit;
use crate::error::ExchangeError;
use crate::serializer::ExchangeSerializer;

verus! {

/// One destination's channel for one fragment's exchange. `closed`
/// models the channel having reported a fatal condition: every further
/// `send` is refused.
pub struct TransportHandle {
    pub destination_id: u64,
    pub closed: bool,
    pub sent: Vec<WireUnit>,
}

impl TransportHandle {
    /// A fresh open channel to the given destination.
    pub fn create(destination_id: u64) -> (r: TransportHandle)
        ensures
            r.destination_id == destination_id,
            !r.closed,
            r.sent@ == Seq::<WireUnit>::empty(),
    {
        TransportHandle { destination_id, closed: false, sent: Vec::new() }
    }

    /// Queue one unit for delivery. On success the unit is appended to
    /// the delivery queue; on failure nothing is queued.
    pub fn send(&mut self, unit: WireUnit) -> (r: Result<(), ExchangeError>)
        ensures
            final(self).destination_id == old(self).destination_id,
            final(self).closed == old(self).closed,
            match r {
                Ok(()) => !old(self).closed && final(self).sent@ == old(self).sent@.push(unit),
                Err(e) => {
                    &&& old(self).closed
                    &&& e == (ExchangeError::TransportClosed {
                        destination_id: old(self).destination_id,
                    })
                    &&& final(self).sent@ == old(self).sent@
                },
            },
    {
        if self.closed {
            return Err(ExchangeError::TransportClosed { destination_id: self.destination_id });
        }
        self.sent.push(unit);
        Ok(())
    }
}

/// The terminal stage of one lane: hands each incoming wire unit to its
/// bound transport, in the exact order received.
pub struct ExchangeWriterSink {
    pub handle: TransportHandle,
}

impl ExchangeWriterSink {
    /// Bind a sink to the one handle it will own.
    pub fn create(handle: TransportHandle) -> (r: ExchangeWriterSink)
        ensures
            r.handle == handle,
    {
        ExchangeWriterSink { handle }
    }

    /// Consume one unit: forward it to the transport unchanged.
    pub fn consume(&mut self, unit: WireUnit) -> (r: Result<(), ExchangeError>)
        ensures
            final(self).handle.destination_id == old(self).handle.destination_id,
            final(self).handle.closed == old(self).handle.closed,
            match r {
                Ok(()) => !old(self).handle.closed && final(self).handle.sent@ == old(
                    self,
                ).handle.sent@.push(unit),
                Err(e) => {
                    &&& old(self).handle.closed
                    &&& e == (ExchangeError::TransportClosed {
                        destination_id: old(self).handle.destination_id,
                    })
                    &&& final(self).handle.sent@ == old(self).handle.sent@
                },
            },
    {
        self.handle.send(unit)
    }
}

/// The wire units one serializer yields for a run of blocks, assuming
/// every block carries the expected schema.
pub open spec fn units_of(s: ExchangeSerializer, blocks: Seq<DataBlock>) -> Seq<WireUnit>
    decreases blocks.len(),
{
    if blocks.len() == 0 {
        Seq::empty()
    } else {
        seq![s.unit_for(blocks[0])] + units_of(serializer_after(s, 1), blocks.drop_first())
    }
}

/// The serializer state after stamping `k` blocks.
pub open spec fn serializer_after(s: ExchangeSerializer, k: int) -> ExchangeSerializer {
    ExchangeSerializer {
        next_block_number: if s.with_sorting {
            (s.next_block_number + k) as u64
        } else {
            s.next_block_number
        },
        ..s
    }
}

/// Drive one Merge lane end to end: serialize each block in arrival
/// order and hand each resulting unit to the sink at once.
///
/// This is the whole per-lane path of an exchange, and its contract is
/// the lane-order guarantee: the delivery queue grows by exactly one
/// unit per block, payloads equal to the blocks' rows in their arrival
/// order. On the first failing block the lane stops with the blocks
/// before it already queued.
#[verifier::loop_isolation(false)]
pub fn run_lane(
    serializer: &mut ExchangeSerializer,
    sink: &mut ExchangeWriterSink,
    blocks: Vec<DataBlock>,
) -> (r: Result<(), ExchangeError>)
    requires
        old(serializer).next_block_number + blocks@.len() <= u64::MAX,
    ensures
        final(serializer).schema_id == old(serializer).schema_id,
        final(serializer).with_sorting == old(serializer).with_sorting,
        final(sink).handle.destination_id == old(sink).handle.destination_id,
        final(sink).handle.closed == old(sink).handle.closed,
        match r {
            Ok(()) => {
                &&& forall|i: int|
                    0 <= i < blocks@.len() ==> (#[trigger] blocks@[i]).schema_id == old(
                        serializer,
                    ).schema_id
                &&& !old(sink).handle.closed || blocks@.len() == 0
                &&& final(sink).handle.sent@ == old(sink).handle.sent@ + units_of(
                    *old(serializer),
                    blocks@,
                )
            },
            Err(e) => exists|k: int|
                {
                    &&& 0 <= k < blocks@.len()
                    &&& (forall|i: int|
                        0 <= i < k ==> (#[trigger] blocks@[i]).schema_id == old(
                            serializer,
                        ).schema_id)
                    &&& final(sink).handle.sent@ == old(sink).handle.sent@ + units_of(
                        *old(serializer),
                        blocks@.take(k),
                    )
                    &&& if blocks@[k].schema_id != old(serializer).schema_id {
                        e == (ExchangeError::SchemaMismatch {
                            expected: old(serializer).schema_id,
                            actual: blocks@[k].schema_id,
                        })
                    } else {
                        old(sink).handle.closed && e == (ExchangeError::TransportClosed {
                            destination_id: old(sink).handle.destination_id,
                        })
                    }
                },
        },
{
    let ghost s0 = *serializer;
    let ghost sent0 = sink.handle.sent@;
    let ghost all = blocks@;
    let total: usize = blocks.len();
    let mut blocks = blocks;
    let mut i: usize = 0;
    while blocks.len() > 0
        invariant
            total == all.len(),
            i + blocks@.len() == all.len(),
            blocks@ == all.skip(i as int),
            s0.next_block_number + all.len() <= u64::MAX,
            serializer.schema_id == s0.schema_id,
            serializer.with_sorting == s0.with_sorting,
            *serializer == serializer_after(s0, i as int),
            sink.handle.destination_id == old(sink).handle.destination_id,
            sink.handle.closed == old(sink).handle.closed,
            forall|j: int| 0 <= j < i ==> (#[trigger] all[j]).schema_id == s0.schema_id,
            i > 0 ==> !sink.handle.closed,
            sink.handle.sent@ == sent0 + units_of(s0, all.take(i as int)),
        decreases blocks@.len(),
    {
        let block = blocks.remove(0);
        proof {
            assert(block == all[i as int]);
            lemma_units_of_take_step(s0, all, i as int);
            assert(blocks@ =~= all.skip(i as int + 1));
        }
        let unit = match serializer.serialize(block) {
            Ok(u) => u,
            Err(e) => {
                return Err(e);
            },
        };
        match sink.consume(unit) {
            Ok(()) => {},
            Err(e) => {
                return Err(e);
            },
        }
        i = i + 1;
    }
    proof {
        assert(all.take(i as int) =~= all);
    }
    Ok(())
}

/// Per-lane order preservation: the wire units a serializer yields for
/// a run of blocks carry exactly the blocks' rows, block by block in
/// their arrival order — nothing reordered, nothing dropped — and on a
/// sorting lane the stamps are the consecutive counter values, so a
/// lane's stamps strictly increase in emission order.
///
/// Together with `run_lane`, whose contract appends exactly this unit
/// run to the transport's delivery queue, this says that the relative
/// order in which blocks enter the serializer stage is the relative
/// order in which their units reach the writer sink's transport.
pub proof fn lemma_lane_order_preserved(s: ExchangeSerializer, blocks: Seq<DataBlock>)
    requires
        s.next_block_number + blocks.len() <= u64::MAX,
    ensures
        units_of(s, blocks).len() == blocks.len(),
        forall|i: int|
            0 <= i < blocks.len() ==> (#[trigger] units_of(s, blocks)[i]).payload
                == blocks[i].rows,
        forall|i: int|
            0 <= i < blocks.len() ==> (#[trigger] units_of(s, blocks)[i]).schema_id
                == blocks[i].schema_id,
        forall|i: int|
            0 <= i < blocks.len() ==> (#[trigger] units_of(s, blocks)[i]).block_number == (
            if s.with_sorting {
                Some((s.next_block_number + i) as u64)
            } else {
                None::<u64>
            }),
    decreases blocks.len(),
{
    if blocks.len() > 0 {
        let s1 = serializer_after(s, 1);
        let d = blocks.drop_first();
        lemma_lane_order_preserved(s1, d);
        assert forall|i: int| 0 <= i < blocks.len() implies (#[trigger] units_of(
            s,
            blocks,
        )[i]).payload == blocks[i].rows && units_of(s, blocks)[i].schema_id
            == blocks[i].schema_id && units_of(s, blocks)[i].block_number == (
        if s.with_sorting {
            Some((s.next_block_number + i) as u64)
        } else {
            None::<u64>
        }) by {
            if i > 0 {
                assert(units_of(s, blocks)[i] == units_of(s1, d)[i - 1]);
                assert(d[i - 1] == blocks[i]);
            }
        }
    }
}

/// Taking one more block extends a serializer's unit run by exactly
/// that block's unit, stamped with the counter as it stands after the
/// blocks before it.
proof fn lemma_units_of_take_step(s: ExchangeSerializer, blocks: Seq<DataBlock>, k: int)
    requires
        0 <= k < blocks.len(),
        s.next_block_number + blocks.len() <= u64::MAX,
    ensures
        units_of(s, blocks.take(k + 1)) == units_of(s, blocks.take(k)).push(
            serializer_after(s, k).unit_for(blocks[k]),
        ),
    decreases k,
{
    if k == 0 {
        assert(serializer_after(s, 0) == s);
        assert(units_of(s, blocks.take(0)) =~= Seq::<WireUnit>::empty());
        assert(blocks.take(1).drop_first() =~= Seq::<DataBlock>::empty());
        assert(units_of(serializer_after(s, 1), blocks.take(1).drop_first())
            =~= Seq::<WireUnit>::empty());
        assert(blocks.take(1)[0] == blocks[0]);
        assert(units_of(s, blocks.take(1)) =~= units_of(s, blocks.take(0)).push(
            s.unit_for(blocks[0]),
        ));
    } else {
        let d = blocks.drop_first();
        let s1 = serializer_after(s, 1);
        lemma_units_of_take_step(s1, d, k - 1);
        assert(blocks.take(k + 1).drop_first() =~= d.take(k));
        assert(blocks.take(k).drop_first() =~= d.take(k - 1));
        assert(serializer_after(s1, k - 1) == serializer_after(s, k));
        assert(d[k - 1] == blocks[k]);
        assert(units_of(s, blocks.take(k + 1)) =~= units_of(s, blocks.take(k)).push(
            serializer_after(s, k).unit_for(blocks[k]),
        ));
    }
}

} // verus!
