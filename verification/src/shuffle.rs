//! The shuffle router: fan-out of result blocks across destinations.
//!
//! For a Shuffle exchange, each block's rows are split into one
//! sub-block per destination lane according to the configured partition
//! scheme. The assignment is deterministic, every destination receives
//! a block on every invocation, and an empty sub-block is an ordinary
//! zero-row batch, not a stream-termination signal. No cross-lane
//! ordering promise is made: only Merge exchanges carry one.

use vstd::prelude::*;
use vstd::multiset::Multiset;

use crate::block::DataBlock;
use crate::params::PartitionScheme;

verus! {

broadcast use vstd::seq_lib::group_filter_ensures, vstd::seq_lib::group_to_multiset_ensures;

/// The destination lane of one row under a scheme, over `m` lanes.
pub open spec fn spec_dest_of(scheme: PartitionScheme, row: u64, m: nat) -> nat
    recommends
        m >= 1,
{
    match scheme {
        PartitionScheme::KeyModulo => (row as nat) % m,
    }
}

/// Compute a row's destination lane.
pub fn dest_of(scheme: &PartitionScheme, row: u64, m: usize) -> (r: usize)
    requires
        m >= 1,
    ensures
        r == spec_dest_of(*scheme, row, m as nat),
        r < m,
{
    match scheme {
        PartitionScheme::KeyModulo => (row % (m as u64)) as usize,
    }
}

/// The rows of `rows` that the scheme routes to lane `j`.
pub open spec fn lane_rows(rows: Seq<u64>, scheme: PartitionScheme, m: nat, j: int) -> Seq<u64> {
    rows.filter(|row: u64| spec_dest_of(scheme, row, m) == j)
}

/// Split one block into `m` sub-blocks, one per destination lane.
///
/// Lane `j` receives exactly the block's rows whose destination is `j`,
/// in their original relative order, under the block's schema. A lane
/// to which no row maps receives a zero-row block: it still receives a
/// batch, so its stream does not end.
pub fn route_block(block: &DataBlock, scheme: &PartitionScheme, m: usize) -> (r: Vec<DataBlock>)
    requires
        m >= 1,
    ensures
        r@.len() == m,
        forall|j: int|
            0 <= j < m ==> (#[trigger] r@[j]).rows@ == lane_rows(
                block.rows@,
                *scheme,
                m as nat,
                j,
            ),
        forall|j: int| 0 <= j < m ==> (#[trigger] r@[j]).schema_id == block.schema_id,
{
    let mut result: Vec<DataBlock> = Vec::new();
    let mut j: usize = 0;
    while j < m
        invariant
            j <= m,
            result@.len() == j,
            forall|k: int|
                0 <= k < j ==> (#[trigger] result@[k]).rows@ == lane_rows(
                    block.rows@,
                    *scheme,
                    m as nat,
                    k,
                ),
            forall|k: int| 0 <= k < j ==> (#[trigger] result@[k]).schema_id == block.schema_id,
            m >= 1,
        decreases m - j,
    {
        let mut rows_j: Vec<u64> = Vec::new();
        let mut i: usize = 0;
        while i < block.rows.len()
            invariant
                i <= block.rows@.len(),
                j < m,
                m >= 1,
                rows_j@ == lane_rows(block.rows@.take(i as int), *scheme, m as nat, j as int),
            decreases block.rows@.len() - i,
        {
            let row = block.rows[i];
            proof {
                let pred = |row: u64| spec_dest_of(*scheme, row, m as nat) == j as int;
                assert(block.rows@.take(i + 1) =~= block.rows@.take(i as int).push(row));
                assert(block.rows@.take(i as int).push(row) =~= block.rows@.take(i as int)
                    + seq![row]);
                Seq::filter_distributes_over_add(block.rows@.take(i as int), seq![row], pred);
                reveal_with_fuel(Seq::filter, 2);
                if pred(row) {
                    assert(seq![row].filter(pred) =~= seq![row]);
                } else {
                    assert(seq![row].filter(pred) =~= Seq::<u64>::empty());
                }
            }
            if dest_of(scheme, row, m) == j {
                rows_j.push(row);
                proof {
                    assert(rows_j@ =~= lane_rows(
                        block.rows@.take(i + 1),
                        *scheme,
                        m as nat,
                        j as int,
                    ));
                }
            } else {
                proof {
                    assert(rows_j@ =~= lane_rows(
                        block.rows@.take(i + 1),
                        *scheme,
                        m as nat,
                        j as int,
                    ));
                }
            }
            i = i + 1;
        }
        proof {
            assert(block.rows@.take(block.rows@.len() as int) =~= block.rows@);
        }
        result.push(DataBlock { schema_id: block.schema_id, rows: rows_j });
        j = j + 1;
    }
    result
}

/// The rows of the first `j` destination lanes, as one multiset.
pub open spec fn lanes_row_multiset(
    rows: Seq<u64>,
    scheme: PartitionScheme,
    m: nat,
    j: int,
) -> Multiset<u64>
    decreases j,
{
    if j <= 0 {
        Multiset::empty()
    } else {
        lanes_row_multiset(rows, scheme, m, j - 1).add(
            lane_rows(rows, scheme, m, j - 1).to_multiset(),
        )
    }
}

/// No lane receives anything from an empty input.
proof fn lemma_lanes_of_empty(scheme: PartitionScheme, m: nat, j: int)
    requires
        j >= 0,
    ensures
        lanes_row_multiset(Seq::<u64>::empty(), scheme, m, j) == Multiset::<u64>::empty(),
    decreases j,
{
    if j > 0 {
        lemma_lanes_of_empty(scheme, m, j - 1);
        reveal_with_fuel(Seq::filter, 2);
        assert(lane_rows(Seq::<u64>::empty(), scheme, m, j - 1).len() == 0);
        assert(lanes_row_multiset(Seq::<u64>::empty(), scheme, m, j)
            =~= Multiset::<u64>::empty());
    }
}

/// Appending one row adds it to exactly the lanes-union that already
/// covers its destination, and to no other.
proof fn lemma_lanes_push(rows: Seq<u64>, x: u64, scheme: PartitionScheme, m: nat, j: int)
    requires
        m >= 1,
        0 <= j <= m,
    ensures
        lanes_row_multiset(rows.push(x), scheme, m, j) == (if spec_dest_of(scheme, x, m) < j {
            lanes_row_multiset(rows, scheme, m, j).insert(x)
        } else {
            lanes_row_multiset(rows, scheme, m, j)
        }),
    decreases j,
{
    if j > 0 {
        lemma_lanes_push(rows, x, scheme, m, j - 1);
        let pred = |row: u64| spec_dest_of(scheme, row, m) == j - 1;
        assert(rows.push(x) =~= rows + seq![x]);
        Seq::filter_distributes_over_add(rows, seq![x], pred);
        reveal_with_fuel(Seq::filter, 2);
        if pred(x) {
            assert(seq![x].filter(pred) =~= seq![x]);
            assert(lane_rows(rows.push(x), scheme, m, j - 1) =~= lane_rows(
                rows,
                scheme,
                m,
                j - 1,
            ).push(x));
        } else {
            assert(seq![x].filter(pred) =~= Seq::<u64>::empty());
            assert(lane_rows(rows.push(x), scheme, m, j - 1) =~= lane_rows(
                rows,
                scheme,
                m,
                j - 1,
            ));
        }
        assert(lanes_row_multiset(rows.push(x), scheme, m, j) =~= (if spec_dest_of(scheme, x, m)
            < j {
            lanes_row_multiset(rows, scheme, m, j).insert(x)
        } else {
            lanes_row_multiset(rows, scheme, m, j)
        }));
    }
}

/// Shuffle completeness: routing partitions the input exactly.
///
/// The union of the rows across all `m` destination lanes is precisely
/// the multiset of the input rows — no row lost, none duplicated — and
/// every row sits in the one lane its destination names.
pub proof fn lemma_shuffle_complete(rows: Seq<u64>, scheme: PartitionScheme, m: nat)
    requires
        m >= 1,
    ensures
        lanes_row_multiset(rows, scheme, m, m as int) == rows.to_multiset(),
        forall|j: int, k: int|
            0 <= j < m && 0 <= k < lane_rows(rows, scheme, m, j).len() ==> spec_dest_of(
                scheme,
                #[trigger] lane_rows(rows, scheme, m, j)[k],
                m,
            ) == j,
    decreases rows.len(),
{
    if rows.len() == 0 {
        assert(rows =~= Seq::<u64>::empty());
        lemma_lanes_of_empty(scheme, m, m as int);
        assert(rows.to_multiset() =~= Multiset::<u64>::empty());
    } else {
        let t = rows.drop_last();
        let x = rows.last();
        lemma_shuffle_complete(t, scheme, m);
        assert(rows =~= t.push(x));
        lemma_lanes_push(t, x, scheme, m, m as int);
        assert(t.push(x).to_multiset() == t.to_multiset().insert(x));
    }
}

} // verus!
