//! The exchange topology builder.
//!
//! Given an exchange specification, the current fragment pipeline and
//! the transport handles the exchange directory resolved for the
//! specification's destinations, `ExchangeSink::via` appends the
//! correct processor stages: serializer and sink for a Merge, with the
//! ordering coordinator in between when a global order is required, or
//! the shuffle router followed by per-destination serializers and
//! sinks. Configuration defects are rejected here, before anything
//! executes, and leave the pipeline untouched.

use vstd::prelude::*;

use crate::error::ExchangeError;
use crate::params::ExchangeParams;
use crate::pipeline::Pipeline;
use crate::pipeline::Stage;
use crate::transport::TransportHandle;

verus! {

/// The destination each resolved handle writes to, in resolution order.
pub open spec fn handle_destinations(hs: Seq<TransportHandle>) -> Seq<u64> {
    hs.map_values(|h: TransportHandle| h.destination_id)
}

/// The stage is a writer-sink row bound to exactly these destinations.
pub open spec fn is_writer_sinks_to(s: Stage, dests: Seq<u64>) -> bool {
    match s {
        Stage::WriterSinks { destinations } => destinations@ == dests,
        _ => false,
    }
}

/// The topology builder: the one entry point that turns a declarative
/// exchange specification into pipeline wiring.
pub struct ExchangeSink;

impl ExchangeSink {
    /// Append the exchange stages for `params` to `pipeline`, binding
    /// sinks to the resolved `handles`.
    ///
    /// A Merge exchange whose destination is the wiring node itself is
    /// a configuration error, rejected now — at build time, never
    /// during execution — as is a handle set that does not match the
    /// destinations the specification implies. On any error the
    /// pipeline is left exactly as it was.
    pub fn via(
        local_id: u64,
        params: &ExchangeParams,
        pipeline: &mut Pipeline,
        handles: &Vec<TransportHandle>,
    ) -> (r: Result<(), ExchangeError>)
        requires
            old(pipeline).output_len >= 1,
            params.wf(),
        ensures
            match *params {
                ExchangeParams::MergeExchange(p) => p.destination_id == local_id ==> r is Err
                    && *final(pipeline) == *old(pipeline),
                ExchangeParams::ShuffleExchange(_) => true,
            },
            match r {
                Ok(()) => match *params {
                    ExchangeParams::MergeExchange(p) => {
                        &&& p.destination_id != local_id
                        &&& handles@.len() == 1
                        &&& final(pipeline).output_len == 0
                        &&& match p.ordering {
                            Some(_) => {
                                &&& final(pipeline).stages@.len() == old(
                                    pipeline,
                                ).stages@.len() + 3
                                &&& final(pipeline).stages@.take(
                                    old(pipeline).stages@.len() as int,
                                ) == old(pipeline).stages@
                                &&& final(pipeline).stages@[old(pipeline).stages@.len() as int]
                                    == (Stage::SerializeTransform {
                                    lanes: old(pipeline).output_len,
                                    schema_id: p.schema_id,
                                    with_sorting: true,
                                })
                                &&& final(pipeline).stages@[old(pipeline).stages@.len() as int + 1]
                                    == (Stage::OrderingMerge {
                                    inputs: old(pipeline).output_len,
                                })
                                &&& is_writer_sinks_to(
                                    final(pipeline).stages@[old(pipeline).stages@.len() as int + 2],
                                    seq![handles@[0].destination_id],
                                )
                            },
                            None => {
                                &&& final(pipeline).stages@.len() == old(
                                    pipeline,
                                ).stages@.len() + 2
                                &&& final(pipeline).stages@.take(
                                    old(pipeline).stages@.len() as int,
                                ) == old(pipeline).stages@
                                &&& final(pipeline).stages@[old(pipeline).stages@.len() as int]
                                    == (Stage::SerializeTransform {
                                    lanes: old(pipeline).output_len,
                                    schema_id: p.schema_id,
                                    with_sorting: false,
                                })
                                &&& is_writer_sinks_to(
                                    final(pipeline).stages@[old(pipeline).stages@.len() as int + 1],
                                    Seq::new(
                                        old(pipeline).output_len as nat,
                                        |i: int| handles@[0].destination_id,
                                    ),
                                )
                            },
                        }
                    },
                    ExchangeParams::ShuffleExchange(p) => {
                        &&& handles@.len() == p.destination_ids@.len()
                        &&& final(pipeline).output_len == 0
                        &&& final(pipeline).stages@.len() == old(pipeline).stages@.len() + 3
                        &&& final(pipeline).stages@.take(old(pipeline).stages@.len() as int)
                            == old(pipeline).stages@
                        &&& final(pipeline).stages@[old(pipeline).stages@.len() as int]
                            == (Stage::ShuffleRouter {
                            inputs: old(pipeline).output_len,
                            outputs: p.destination_ids@.len() as usize,
                        })
                        &&& final(pipeline).stages@[old(pipeline).stages@.len() as int + 1]
                            == (Stage::SerializeTransform {
                            lanes: p.destination_ids@.len() as usize,
                            schema_id: p.schema_id,
                            with_sorting: false,
                        })
                        &&& is_writer_sinks_to(
                            final(pipeline).stages@[old(pipeline).stages@.len() as int + 2],
                            handle_destinations(handles@),
                        )
                    },
                },
                Err(e) => {
                    &&& *final(pipeline) == *old(pipeline)
                    &&& e.is_configuration()
                    &&& match *params {
                        ExchangeParams::MergeExchange(p) => if p.destination_id == local_id {
                            e == (ExchangeError::MergeDestinationIsLocal {
                                destination_id: p.destination_id,
                                fragment_id: p.fragment_id,
                            })
                        } else {
                            handles@.len() != 1 && e == (ExchangeError::DestinationCountMismatch {
                                implied: 1,
                                resolved: handles@.len() as usize,
                            })
                        },
                        ExchangeParams::ShuffleExchange(p) => handles@.len()
                            != p.destination_ids@.len() && e
                            == (ExchangeError::DestinationCountMismatch {
                            implied: p.destination_ids@.len() as usize,
                            resolved: handles@.len() as usize,
                        }),
                    }
                },
            },
    {
        match params {
            ExchangeParams::MergeExchange(p) => {
                if p.destination_id == local_id {
                    return Err(ExchangeError::MergeDestinationIsLocal {
                        destination_id: p.destination_id,
                        fragment_id: p.fragment_id,
                    });
                }
                if handles.len() != 1 {
                    return Err(ExchangeError::DestinationCountMismatch {
                        implied: 1,
                        resolved: handles.len(),
                    });
                }
                let destination = handles[0].destination_id;
                match &p.ordering {
                    Some(_) => {
                        pipeline.add_serialize_transform(p.schema_id, true);
                        pipeline.add_ordering_merge();
                        let mut dests: Vec<u64> = Vec::new();
                        dests.push(destination);
                        proof {
                            assert(dests@ =~= seq![handles@[0].destination_id]);
                        }
                        pipeline.add_writer_sinks(dests);
                    },
                    None => {
                        pipeline.add_serialize_transform(p.schema_id, false);
                        let lanes = pipeline.output_len();
                        let mut dests: Vec<u64> = Vec::new();
                        let mut i: usize = 0;
                        while i < lanes
                            invariant
                                i <= lanes,
                                dests@.len() == i,
                                forall|k: int| 0 <= k < i ==> dests@[k] == destination,
                            decreases lanes - i,
                        {
                            dests.push(destination);
                            i = i + 1;
                        }
                        proof {
                            assert(dests@ =~= Seq::new(
                                old(pipeline).output_len as nat,
                                |i: int| handles@[0].destination_id,
                            ));
                        }
                        pipeline.add_writer_sinks(dests);
                    },
                }
                proof {
                    assert(pipeline.stages@.take(old(pipeline).stages@.len() as int)
                        =~= old(pipeline).stages@);
                }
                Ok(())
            },
            ExchangeParams::ShuffleExchange(p) => {
                let outputs = p.destination_ids.len();
                if handles.len() != outputs {
                    return Err(ExchangeError::DestinationCountMismatch {
                        implied: outputs,
                        resolved: handles.len(),
                    });
                }
                pipeline.add_shuffle_router(outputs);
                pipeline.add_serialize_transform(p.schema_id, false);
                let mut dests: Vec<u64> = Vec::new();
                let mut i: usize = 0;
                while i < outputs
                    invariant
                        i <= outputs,
                        outputs == handles@.len(),
                        dests@.len() == i,
                        forall|k: int| 0 <= k < i ==> dests@[k] == handles@[k].destination_id,
                    decreases outputs - i,
                {
                    let d = handles[i].destination_id;
                    dests.push(d);
                    i = i + 1;
                }
                proof {
                    assert(dests@ =~= handle_destinations(handles@));
                }
                pipeline.add_writer_sinks(dests);
                proof {
                    assert(pipeline.stages@.take(old(pipeline).stages@.len() as int)
                        =~= old(pipeline).stages@);
                }
                Ok(())
            },
        }
    }
}

} // verus!
