//! The fragment pipeline graph the topology builder appends to.
//!
//! The cooperative scheduler that executes processors lives outside
//! this library; what the exchange engine owns is the wiring decision.
//! A `Pipeline` therefore records the processor stages appended to one
//! fragment's dataflow graph together with its current output arity,
//! exactly the surface the substrate offers: append a transform across
//! all lanes, append a fan-in or fan-out pipe, append sinks.

use vstd::prelude::*;

verus! {

/// One appended processor stage, as the wiring decision records it.
pub enum Stage {
    /// A per-lane serializer transform; `with_sorting` marks the
    /// ordered Merge path on which units are stamped.
    SerializeTransform { lanes: usize, schema_id: u64, with_sorting: bool },
    /// The fan-in ordering coordinator: many lanes in, one lane out.
    OrderingMerge { inputs: usize },
    /// The fan-out shuffle router: every input lane feeds each of the
    /// output lanes its share of rows.
    ShuffleRouter { inputs: usize, outputs: usize },
    /// Terminal writer sinks, one per current lane, each bound to the
    /// destination it writes to.
    WriterSinks { destinations: Vec<u64> },
}

/// One fragment's dataflow graph under construction: the stages
/// appended so far and the number of open output lanes.
pub struct Pipeline {
    pub output_len: usize,
    pub stages: Vec<Stage>,
}

impl Pipeline {
    /// A fragment pipeline whose current stages end in `lanes` open
    /// output lanes.
    pub fn create(lanes: usize) -> (r: Pipeline)
        ensures
            r.output_len == lanes,
            r.stages@ == Seq::<Stage>::empty(),
    {
        Pipeline { output_len: lanes, stages: Vec::new() }
    }

    /// The number of open output lanes.
    pub fn output_len(&self) -> (r: usize)
        ensures
            r == self.output_len,
    {
        self.output_len
    }

    /// Append a serializer transform on every open lane; the lane
    /// count does not change.
    pub fn add_serialize_transform(&mut self, schema_id: u64, with_sorting: bool)
        ensures
            final(self).output_len == old(self).output_len,
            final(self).stages@ == old(self).stages@.push(
                Stage::SerializeTransform {
                    lanes: old(self).output_len,
                    schema_id,
                    with_sorting,
                },
            ),
    {
        let stage = Stage::SerializeTransform {
            lanes: self.output_len,
            schema_id,
            with_sorting,
        };
        self.stages.push(stage);
    }

    /// Append the ordering coordinator: all open lanes fan in to one.
    pub fn add_ordering_merge(&mut self)
        requires
            old(self).output_len >= 1,
        ensures
            final(self).output_len == 1,
            final(self).stages@ == old(self).stages@.push(
                Stage::OrderingMerge { inputs: old(self).output_len },
            ),
    {
        let stage = Stage::OrderingMerge { inputs: self.output_len };
        self.stages.push(stage);
        self.output_len = 1;
    }

    /// Append the shuffle router: the open lanes fan out to `outputs`
    /// destination lanes.
    pub fn add_shuffle_router(&mut self, outputs: usize)
        requires
            old(self).output_len >= 1,
            outputs >= 1,
        ensures
            final(self).output_len == outputs,
            final(self).stages@ == old(self).stages@.push(
                Stage::ShuffleRouter { inputs: old(self).output_len, outputs },
            ),
    {
        let stage = Stage::ShuffleRouter { inputs: self.output_len, outputs };
        self.stages.push(stage);
        self.output_len = outputs;
    }

    /// Append one terminal writer sink per open lane; the pipeline is
    /// then closed.
    pub fn add_writer_sinks(&mut self, destinations: Vec<u64>)
        requires
            destinations@.len() == old(self).output_len,
        ensures
            final(self).output_len == 0,
            final(self).stages@ == old(self).stages@.push(
                Stage::WriterSinks { destinations },
            ),
    {
        let stage = Stage::WriterSinks { destinations };
        self.stages.push(stage);
        self.output_len = 0;
    }
}

} // verus!
