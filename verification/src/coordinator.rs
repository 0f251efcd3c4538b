//! The ordering coordinator: a fan-in stage for ordered Merge exchanges.
//!
//! N producer lanes each emit wire units whose sequence stamps increase
//! strictly within the lane. The coordinator buffers at most one unit
//! per lane and, once every lane that is still active has offered a
//! candidate, emits the buffered unit with the globally smallest stamp.
//! It never guesses: while an active lane has nothing buffered it
//! reports which lane it needs, and two lanes offering the same stamp
//! are a fatal upstream contract violation, not something to resolve
//! silently.
//!
//! Each lane cycles `Empty -> Buffered -> Empty`; a lane whose upstream
//! has signalled completion is finished and drops out of consideration.
//! The coordinator is done once every lane is finished and every buffer
//! is empty.

use vstd::prelude::*;
use vstd::multiset::Multiset;

use crate::block::WireUnit;
use crate::block::all_stamped;
use crate::block::non_decreasing;
use crate::block::stamped;
use crate::block::strictly_increasing;
use crate::block::unit_key;
use crate::error::ExchangeError;
use crate::sorting::ExchangeSorting;

verus! {

broadcast use vstd::seq_lib::group_to_multiset_ensures;

/// What one scheduling tick of the coordinator reports: the cooperative
/// substrate acts on it and ticks again.
pub enum EmitOutcome {
    /// The given lane is active but has nothing buffered: the substrate
    /// must pull a unit from that lane's port (or signal completion)
    /// before any order can be decided.
    NeedData(usize),
    /// The unit with the globally smallest stamp, drained from the
    /// given lane's buffer.
    Output { lane: usize, unit: WireUnit },
    /// Every lane is finished and every buffer empty: end of stream.
    Finished,
}

/// The fan-in stage. `buffered` holds each lane's candidate unit;
/// `finished` marks lanes whose upstream has completed. The ordering
/// key is read through the configured extraction policy.
pub struct OrderingCoordinator<S: ExchangeSorting> {
    pub sorting: S,
    pub buffered: Vec<Option<WireUnit>>,
    pub finished: Vec<bool>,
}

impl<S: ExchangeSorting> OrderingCoordinator<S> {
    /// One buffer slot and one completion flag per lane.
    pub open spec fn wf(self) -> bool {
        self.buffered@.len() == self.finished@.len()
    }

    /// The number of input lanes this coordinator merges.
    pub open spec fn lane_count(self) -> nat {
        self.buffered@.len()
    }

    /// A coordinator over `lanes` input lanes, all active, all empty.
    pub fn create(sorting: S, lanes: usize) -> (r: OrderingCoordinator<S>)
        ensures
            r.wf(),
            r.sorting == sorting,
            r.lane_count() == lanes,
            forall|i: int| 0 <= i < lanes ==> r.buffered@[i] is None,
            forall|i: int| 0 <= i < lanes ==> !r.finished@[i],
    {
        let mut buffered: Vec<Option<WireUnit>> = Vec::new();
        let mut finished: Vec<bool> = Vec::new();
        let mut i: usize = 0;
        while i < lanes
            invariant
                i <= lanes,
                buffered@.len() == i,
                finished@.len() == i,
                forall|j: int| 0 <= j < i ==> buffered@[j] is None,
                forall|j: int| 0 <= j < i ==> !finished@[j],
            decreases lanes - i,
        {
            buffered.push(None);
            finished.push(false);
            i = i + 1;
        }
        OrderingCoordinator { sorting, buffered, finished }
    }

    /// The substrate delivers one unit pulled from an active lane whose
    /// buffer is empty.
    pub fn offer(&mut self, lane: usize, unit: WireUnit)
        requires
            old(self).wf(),
            lane < old(self).lane_count(),
            old(self).buffered@[lane as int] is None,
            !old(self).finished@[lane as int],
        ensures
            final(self).wf(),
            final(self).sorting == old(self).sorting,
            final(self).finished@ == old(self).finished@,
            final(self).buffered@ == old(self).buffered@.update(lane as int, Some(unit)),
    {
        self.buffered[lane] = Some(unit);
    }

    /// The substrate signals that a lane's upstream has completed: the
    /// lane is finished and will never be asked for data again.
    pub fn finish_lane(&mut self, lane: usize)
        requires
            old(self).wf(),
            lane < old(self).lane_count(),
        ensures
            final(self).wf(),
            final(self).sorting == old(self).sorting,
            final(self).buffered@ == old(self).buffered@,
            final(self).finished@ == old(self).finished@.update(lane as int, true),
    {
        self.finished[lane] = true;
    }

    /// One scheduling tick.
    ///
    /// If some active lane has nothing buffered the coordinator defers
    /// and names that lane. Otherwise it emits the buffered unit whose
    /// stamp is strictly the smallest across all buffers; an unstamped
    /// candidate or a stamp tie is a fatal ordering-invariant
    /// violation. When nothing is buffered and every lane is finished,
    /// the merged stream has ended.
    pub fn try_emit(&mut self) -> (r: Result<EmitOutcome, ExchangeError>)
        requires
            old(self).wf(),
        ensures
            final(self).wf(),
            final(self).sorting == old(self).sorting,
            final(self).finished@ == old(self).finished@,
            final(self).buffered@.len() == old(self).buffered@.len(),
            match r {
                Ok(EmitOutcome::NeedData(i)) => {
                    &&& *final(self) == *old(self)
                    &&& i < old(self).lane_count()
                    &&& old(self).buffered@[i as int] is None
                    &&& !old(self).finished@[i as int]
                },
                Ok(EmitOutcome::Output { lane, unit }) => {
                    &&& lane < old(self).lane_count()
                    &&& old(self).buffered@[lane as int] == Some(unit)
                    &&& stamped(unit)
                    &&& final(self).buffered@ == old(self).buffered@.update(lane as int, None)
                    &&& forall|j: int|
                        0 <= j < old(self).lane_count() && j != lane && (
                        #[trigger] old(self).buffered@[j]) is Some ==> stamped(
                            old(self).buffered@[j]->Some_0,
                        ) && unit_key(unit) < unit_key(old(self).buffered@[j]->Some_0)
                    &&& forall|j: int|
                        0 <= j < old(self).lane_count() && (#[trigger] old(self).buffered@[j])
                            is None ==> old(self).finished@[j]
                },
                Ok(EmitOutcome::Finished) => {
                    &&& *final(self) == *old(self)
                    &&& forall|j: int|
                        0 <= j < old(self).lane_count() ==> (#[trigger] old(self).buffered@[j])
                            is None && old(self).finished@[j]
                },
                Err(e) => {
                    &&& *final(self) == *old(self)
                    &&& match e {
                        ExchangeError::MissingBlockNumber => exists|i: int|
                            0 <= i < old(self).lane_count() && (#[trigger] old(
                                self,
                            ).buffered@[i]) is Some && !stamped(old(self).buffered@[i]->Some_0),
                        ExchangeError::DuplicateBlockNumber { block_number } => exists|
                            i: int,
                            j: int,
                        |
                            {
                                &&& 0 <= i < old(self).lane_count()
                                &&& 0 <= j < old(self).lane_count()
                                &&& i != j
                                &&& (#[trigger] old(self).buffered@[i]) matches Some(u)
                                    && stamped(u) && unit_key(u) == block_number
                                &&& (#[trigger] old(self).buffered@[j]) matches Some(v)
                                    && stamped(v) && unit_key(v) == block_number
                            },
                        _ => false,
                    }
                },
            },
    {
        let n = self.buffered.len();
        let mut i: usize = 0;
        while i < n
            invariant
                self.wf(),
                n == self.lane_count(),
                *self == *old(self),
                i <= n,
                forall|j: int|
                    0 <= j < i ==> (#[trigger] self.buffered@[j]) is Some || self.finished@[j],
            decreases n - i,
        {
            if self.buffered[i].is_none() && !self.finished[i] {
                return Ok(EmitOutcome::NeedData(i));
            }
            i = i + 1;
        }
        let mut have_best: bool = false;
        let mut best_lane: usize = 0;
        let mut best_key: u64 = 0;
        let mut j: usize = 0;
        while j < n
            invariant
                self.wf(),
                n == self.lane_count(),
                *self == *old(self),
                j <= n,
                forall|k: int|
                    0 <= k < n ==> (#[trigger] self.buffered@[k]) is Some || self.finished@[k],
                forall|k: int|
                    0 <= k < j && (#[trigger] self.buffered@[k]) is Some ==> stamped(
                        self.buffered@[k]->Some_0,
                    ),
                !have_best ==> forall|k: int| 0 <= k < j ==> (#[trigger] self.buffered@[k]) is None,
                have_best ==> best_lane < j && self.buffered@[best_lane as int] is Some && stamped(
                    self.buffered@[best_lane as int]->Some_0,
                ) && unit_key(self.buffered@[best_lane as int]->Some_0) == best_key,
                have_best ==> forall|k: int|
                    0 <= k < j && k != best_lane && (#[trigger] self.buffered@[k]) is Some
                        ==> unit_key(self.buffered@[k]->Some_0) > best_key,
            decreases n - j,
        {
            match &self.buffered[j] {
                Some(u) => {
                    let key = match self.sorting.block_number(u) {
                        Ok(k) => k,
                        Err(e) => {
                            proof {
                                assert(self.buffered@[j as int] is Some && !stamped(
                                    self.buffered@[j as int]->Some_0,
                                ));
                            }
                            return Err(e);
                        },
                    };
                    if !have_best {
                        have_best = true;
                        best_lane = j;
                        best_key = key;
                    } else if key == best_key {
                        proof {
                            assert(self.buffered@[best_lane as int] matches Some(v) && stamped(v)
                                && unit_key(v) == key);
                            assert(self.buffered@[j as int] matches Some(v) && stamped(v)
                                && unit_key(v) == key);
                        }
                        return Err(ExchangeError::DuplicateBlockNumber { block_number: key });
                    } else if key < best_key {
                        best_lane = j;
                        best_key = key;
                    }
                },
                None => {},
            }
            j = j + 1;
        }
        if !have_best {
            return Ok(EmitOutcome::Finished);
        }
        let slot = self.buffered.remove(best_lane);
        self.buffered.insert(best_lane, None);
        proof {
            assert(self.buffered@ =~= old(self).buffered@.update(best_lane as int, None));
        }
        match slot {
            Some(unit) => Ok(EmitOutcome::Output { lane: best_lane, unit }),
            None => unreached(),
        }
    }
}

/// The units one lane still holds at the merge point: its buffered
/// candidate, if any, then its queued units.
pub open spec fn lane_remaining(b: Option<WireUnit>, q: Seq<WireUnit>) -> Seq<WireUnit> {
    match b {
        Some(u) => seq![u] + q,
        None => q,
    }
}

/// The per-lane remaining sequences of a coordinator paired with its
/// input queues.
pub open spec fn remainders(buf: Seq<Option<WireUnit>>, qs: Seq<Seq<WireUnit>>) -> Seq<
    Seq<WireUnit>,
> {
    Seq::new(qs.len(), |i: int| lane_remaining(buf[i], qs[i]))
}

/// All units across a family of lanes, as one multiset.
pub open spec fn units_multiset(ss: Seq<Seq<WireUnit>>) -> Multiset<WireUnit>
    decreases ss.len(),
{
    if ss.len() == 0 {
        Multiset::empty()
    } else {
        units_multiset(ss.drop_last()).add(ss.last().to_multiset())
    }
}

/// The views of a vector of lane queues.
pub open spec fn lane_views(ls: Seq<Vec<WireUnit>>) -> Seq<Seq<WireUnit>> {
    ls.map_values(|v: Vec<WireUnit>| v@)
}

/// Every lane is internally sorted: all units stamped, stamps strictly
/// increasing in emission order.
pub open spec fn lanes_sorted(ss: Seq<Seq<WireUnit>>) -> bool {
    forall|i: int|
        0 <= i < ss.len() ==> all_stamped(#[trigger] ss[i]) && strictly_increasing(ss[i])
}

/// Two distinct positions among the lanes carry the same stamp: the
/// upstream stamping contract was violated.
pub open spec fn has_duplicate_stamp(ss: Seq<Seq<WireUnit>>) -> bool {
    exists|i: int, j: int, a: int, b: int|
        {
            &&& 0 <= i < ss.len() && 0 <= j < ss.len()
            &&& 0 <= a < ss[i].len() && 0 <= b < ss[j].len()
            &&& (i != j || a != b)
            &&& unit_key(#[trigger] ss[i][a]) == unit_key(#[trigger] ss[j][b])
        }
}

/// Every unit still held by some lane has a stamp strictly above the
/// bound.
pub open spec fn all_above(ss: Seq<Seq<WireUnit>>, bound: u64) -> bool {
    forall|i: int, a: int|
        0 <= i < ss.len() && 0 <= a < ss[i].len() ==> unit_key(#[trigger] ss[i][a]) > bound
}

/// The total number of queued units.
pub open spec fn total_len(ss: Seq<Seq<WireUnit>>) -> nat
    decreases ss.len(),
{
    if ss.len() == 0 {
        0
    } else {
        total_len(ss.drop_last()) + ss.last().len()
    }
}

/// How many lanes hold a buffered candidate.
pub open spec fn buffered_count(bs: Seq<Option<WireUnit>>) -> nat
    decreases bs.len(),
{
    if bs.len() == 0 {
        0
    } else {
        buffered_count(bs.drop_last()) + (if bs.last() is Some {
            1nat
        } else {
            0
        })
    }
}

/// How many lanes are still active.
pub open spec fn active_count(fs: Seq<bool>) -> nat
    decreases fs.len(),
{
    if fs.len() == 0 {
        0
    } else {
        active_count(fs.drop_last()) + (if !fs.last() {
            1nat
        } else {
            0
        })
    }
}

/// The union over all lanes counts each unit at least as often as any
/// single lane does.
proof fn lemma_units_multiset_lane(ss: Seq<Seq<WireUnit>>, i: int, x: WireUnit)
    requires
        0 <= i < ss.len(),
    ensures
        units_multiset(ss).count(x) >= ss[i].to_multiset().count(x),
    decreases ss.len(),
{
    if i < ss.len() - 1 {
        lemma_units_multiset_lane(ss.drop_last(), i, x);
        assert(ss.drop_last()[i] == ss[i]);
    }
}

/// Dropping the head of one lane removes exactly that unit from the
/// union of the lanes.
proof fn lemma_units_multiset_drop_head(ss: Seq<Seq<WireUnit>>, i: int)
    requires
        0 <= i < ss.len(),
        ss[i].len() > 0,
    ensures
        units_multiset(ss.update(i, ss[i].drop_first())) == units_multiset(ss).remove(ss[i][0]),
    decreases ss.len(),
{
    let upd = ss.update(i, ss[i].drop_first());
    assert(ss[i].to_multiset().count(ss[i][0]) > 0) by {
        assert(ss[i].contains(ss[i][0]));
    }
    assert(ss[i].drop_first() =~= ss[i].remove(0));
    assert(ss[i].remove(0).to_multiset() == ss[i].to_multiset().remove(ss[i][0]));
    if i == ss.len() - 1 {
        assert(upd.drop_last() =~= ss.drop_last());
        assert(upd.last() == ss[i].drop_first());
        assert(units_multiset(upd) =~= units_multiset(ss).remove(ss[i][0]));
    } else {
        lemma_units_multiset_drop_head(ss.drop_last(), i);
        assert(upd.drop_last() =~= ss.drop_last().update(i, ss[i].drop_first()));
        assert(upd.last() == ss.last());
        lemma_units_multiset_lane(ss.drop_last(), i, ss[i][0]);
        assert(ss.drop_last()[i] == ss[i]);
        assert(units_multiset(upd) =~= units_multiset(ss).remove(ss[i][0]));
    }
}

/// A family of exhausted lanes holds no units.
proof fn lemma_units_multiset_all_empty(ss: Seq<Seq<WireUnit>>)
    requires
        forall|i: int| 0 <= i < ss.len() ==> (#[trigger] ss[i]).len() == 0,
    ensures
        units_multiset(ss) == Multiset::<WireUnit>::empty(),
    decreases ss.len(),
{
    if ss.len() > 0 {
        lemma_units_multiset_all_empty(ss.drop_last());
        assert(ss.last().len() == 0);
        assert(forall|x: WireUnit| !ss.last().contains(x));
        assert(units_multiset(ss) =~= Multiset::<WireUnit>::empty());
    }
}

/// Replacing one lane changes the total queued length by the length
/// difference of that lane.
proof fn lemma_total_len_update(ss: Seq<Seq<WireUnit>>, i: int, t: Seq<WireUnit>)
    requires
        0 <= i < ss.len(),
    ensures
        total_len(ss.update(i, t)) + ss[i].len() == total_len(ss) + t.len(),
    decreases ss.len(),
{
    let upd = ss.update(i, t);
    if i == ss.len() - 1 {
        assert(upd.drop_last() =~= ss.drop_last());
    } else {
        lemma_total_len_update(ss.drop_last(), i, t);
        assert(upd.drop_last() =~= ss.drop_last().update(i, t));
        assert(upd.last() == ss.last());
        assert(ss.drop_last()[i] == ss[i]);
    }
}

/// Replacing one buffer slot changes the buffered count accordingly.
proof fn lemma_buffered_count_update(bs: Seq<Option<WireUnit>>, i: int, t: Option<WireUnit>)
    requires
        0 <= i < bs.len(),
    ensures
        buffered_count(bs.update(i, t)) + (if bs[i] is Some {
            1int
        } else {
            0
        }) == buffered_count(bs) + (if t is Some {
            1int
        } else {
            0
        }),
    decreases bs.len(),
{
    let upd = bs.update(i, t);
    if i == bs.len() - 1 {
        assert(upd.drop_last() =~= bs.drop_last());
    } else {
        lemma_buffered_count_update(bs.drop_last(), i, t);
        assert(upd.drop_last() =~= bs.drop_last().update(i, t));
        assert(upd.last() == bs.last());
        assert(bs.drop_last()[i] == bs[i]);
    }
}

/// A strictly increasing run stays strictly increasing when a unit
/// above its last stamp is appended.
proof fn lemma_push_still_increasing(s: Seq<WireUnit>, u: WireUnit)
    requires
        all_stamped(s),
        strictly_increasing(s),
        stamped(u),
        s.len() > 0 ==> unit_key(s.last()) < unit_key(u),
    ensures
        all_stamped(s.push(u)),
        strictly_increasing(s.push(u)),
{
    let p = s.push(u);
    assert forall|i: int, j: int| 0 <= i < j < p.len() implies unit_key(p[i]) < unit_key(
        p[j],
    ) by {
        if j == s.len() {
            if i < s.len() - 1 {
                assert(unit_key(s[i]) < unit_key(s[s.len() - 1]));
            }
        }
    }
    assert forall|i: int| 0 <= i < p.len() implies stamped(#[trigger] p[i]) by {
        if i < s.len() {
            assert(stamped(s[i]));
        }
    }
}

/// Drain-merge N internally sorted lanes into one stream, playing the
/// cooperative substrate against the ordering coordinator tick by tick:
/// whenever the coordinator names a lane it needs, the next queued unit
/// of that lane is offered, or its completion signalled.
///
/// This carries the coordinator's ordering guarantee: for lanes that
/// are each internally sorted by their stamps, the merged output is
/// sorted by stamp and holds exactly the union of the lanes' units, no
/// unit lost, none duplicated. A duplicated stamp across lanes is the
/// only way the merge can fail, and on stamp-distinct input it cannot.
#[verifier::loop_isolation(false)]
pub fn merge_sorted_lanes<S: ExchangeSorting>(sorting: S, lanes: Vec<Vec<WireUnit>>) -> (r: Result<
    Vec<WireUnit>,
    ExchangeError,
>)
    requires
        lanes_sorted(lane_views(lanes@)),
    ensures
        match r {
            Ok(out) => {
                &&& all_stamped(out@)
                &&& strictly_increasing(out@)
                &&& non_decreasing(out@)
                &&& out@.to_multiset() == units_multiset(lane_views(lanes@))
            },
            Err(_) => has_duplicate_stamp(lane_views(lanes@)),
        },
        !has_duplicate_stamp(lane_views(lanes@)) ==> r is Ok,
{
    let ghost views0 = lane_views(lanes@);
    let n = lanes.len();
    let mut coord = OrderingCoordinator::create(sorting, n);
    let mut lanes = lanes;
    let mut out: Vec<WireUnit> = Vec::new();
    let ghost mut cons: Seq<int> = Seq::new(n as nat, |i: int| 0int);
    proof {
        let rems0 = remainders(coord.buffered@, lane_views(lanes@));
        assert forall|i: int| 0 <= i < n implies #[trigger] rems0[i] == views0[i].skip(
            cons[i],
        ) by {
            assert(views0[i].skip(0) =~= views0[i]);
        }
        assert(rems0 =~= views0);
        assert(out@.to_multiset() =~= Multiset::<WireUnit>::empty());
        assert(out@.to_multiset().add(units_multiset(rems0)) =~= units_multiset(views0));
    }
    loop
        invariant
            coord.wf(),
            coord.lane_count() == n,
            lanes@.len() == n,
            views0.len() == n,
            cons.len() == n,
            forall|i: int| 0 <= i < n ==> 0 <= #[trigger] cons[i] <= views0[i].len(),
            forall|i: int|
                0 <= i < n ==> #[trigger] remainders(coord.buffered@, lane_views(lanes@))[i]
                    == views0[i].skip(cons[i]),
            forall|i: int|
                0 <= i < n && #[trigger] coord.finished@[i] ==> coord.buffered@[i] is None
                    && lanes@[i]@.len() == 0,
            all_stamped(out@),
            strictly_increasing(out@),
            out@.len() > 0 ==> all_above(
                remainders(coord.buffered@, lane_views(lanes@)),
                unit_key(out@.last()),
            ),
            out@.to_multiset().add(
                units_multiset(remainders(coord.buffered@, lane_views(lanes@))),
            ) == units_multiset(views0),
        decreases
                total_len(lane_views(lanes@)),
                active_count(coord.finished@),
                buffered_count(coord.buffered@),
    {
        let ghost coord_pre = coord;
        let ghost qs = lane_views(lanes@);
        let ghost rems_pre = remainders(coord_pre.buffered@, qs);
        match coord.try_emit() {
            Err(e) => {
                proof {
                    match e {
                        ExchangeError::MissingBlockNumber => {
                            let i = choose|i: int|
                                0 <= i < n && (#[trigger] coord_pre.buffered@[i]) is Some
                                    && !stamped(coord_pre.buffered@[i]->Some_0);
                            assert(rems_pre[i][0] == coord_pre.buffered@[i]->Some_0);
                            assert(rems_pre[i].len() > 0);
                            assert(cons[i] < views0[i].len());
                            assert(rems_pre[i][0] == views0[i][cons[i]]);
                            assert(all_stamped(views0[i]));
                            assert(stamped(views0[i][cons[i]]));
                            assert(false);
                        },
                        ExchangeError::DuplicateBlockNumber { block_number } => {
                            let (i, j) = choose|i: int, j: int|
                                {
                                    &&& 0 <= i < n
                                    &&& 0 <= j < n
                                    &&& i != j
                                    &&& (#[trigger] coord_pre.buffered@[i]) matches Some(u)
                                        && stamped(u) && unit_key(u) == block_number
                                    &&& (#[trigger] coord_pre.buffered@[j]) matches Some(v)
                                        && stamped(v) && unit_key(v) == block_number
                                };
                            assert(rems_pre[i][0] == coord_pre.buffered@[i]->Some_0);
                            assert(rems_pre[j][0] == coord_pre.buffered@[j]->Some_0);
                            assert(cons[i] < views0[i].len());
                            assert(cons[j] < views0[j].len());
                            assert(views0[i][cons[i]] == coord_pre.buffered@[i]->Some_0);
                            assert(views0[j][cons[j]] == coord_pre.buffered@[j]->Some_0);
                            assert(unit_key(views0[i][cons[i]]) == unit_key(
                                views0[j][cons[j]],
                            ));
                            assert(has_duplicate_stamp(views0));
                        },
                        _ => {
                            assert(false);
                        },
                    }
                }
                return Err(e);
            },
            Ok(EmitOutcome::Finished) => {
                proof {
                    assert forall|i: int| 0 <= i < n implies (#[trigger] rems_pre[i]).len()
                        == 0 by {
                        assert(coord_pre.buffered@[i] is None);
                        assert(coord_pre.finished@[i]);
                    }
                    lemma_units_multiset_all_empty(rems_pre);
                    assert(out@.to_multiset().add(Multiset::<WireUnit>::empty())
                        =~= out@.to_multiset());
                }
                return Ok(out);
            },
            Ok(EmitOutcome::NeedData(i)) => {
                if lanes[i].len() > 0 {
                    let unit = lanes[i].remove(0);
                    coord.offer(i, unit);
                    proof {
                        let qs2 = lane_views(lanes@);
                        assert(qs2 =~= qs.update(i as int, qs[i as int].drop_first()));
                        assert(qs[i as int][0] == unit);
                        let rems_post = remainders(coord.buffered@, qs2);
                        assert(rems_post[i as int] == seq![unit] + qs[i as int].drop_first());
                        assert(seq![unit] + qs[i as int].drop_first() =~= qs[i as int]);
                        assert(rems_pre[i as int] == qs[i as int]);
                        assert forall|k: int| 0 <= k < n implies #[trigger] rems_post[k]
                            == rems_pre[k] by {
                            if k != i as int {
                                assert(qs2[k] == qs[k]);
                                assert(coord.buffered@[k] == coord_pre.buffered@[k]);
                            }
                        }
                        assert(rems_post =~= rems_pre);
                        lemma_total_len_update(qs, i as int, qs[i as int].drop_first());
                    }
                } else {
                    coord.finish_lane(i);
                    proof {
                        assert(remainders(coord.buffered@, lane_views(lanes@)) == rems_pre);
                        lemma_active_count_update(coord_pre.finished@, i as int, true);
                    }
                }
            },
            Ok(EmitOutcome::Output { lane, unit }) => {
                proof {
                    let c = cons[lane as int];
                    assert(rems_pre[lane as int] == views0[lane as int].skip(c));
                    assert(lane_remaining(coord_pre.buffered@[lane as int], qs[lane as int])
                        == seq![unit] + qs[lane as int]);
                    assert(rems_pre[lane as int][0] == unit);
                    assert(views0[lane as int][c] == unit);
                    let rems_post = remainders(coord.buffered@, lane_views(lanes@));
                    assert(rems_post[lane as int] == qs[lane as int]);
                    assert(rems_post[lane as int] =~= rems_pre[lane as int].drop_first());
                    assert forall|k: int| 0 <= k < n && k != lane as int implies
                        #[trigger] rems_post[k] == rems_pre[k] by {
                        assert(coord.buffered@[k] == coord_pre.buffered@[k]);
                    }
                    assert(rems_post =~= rems_pre.update(
                        lane as int,
                        rems_pre[lane as int].drop_first(),
                    ));
                    lemma_units_multiset_drop_head(rems_pre, lane as int);
                    lemma_units_multiset_lane(rems_pre, lane as int, unit);
                    assert(rems_pre[lane as int].contains(unit));
                    assert(rems_pre[lane as int].to_multiset().count(unit) > 0);
                    lemma_buffered_count_update(coord_pre.buffered@, lane as int, None);
                    // the emitted stamp lies above everything already out
                    if out@.len() > 0 {
                        assert(unit_key(rems_pre[lane as int][0]) > unit_key(out@.last()));
                    }
                    lemma_push_still_increasing(out@, unit);
                }
                let ghost out_pre = out@;
                out.push(unit);
                proof {
                    let c = cons[lane as int];
                    cons = cons.update(lane as int, c + 1);
                    let rems_post = remainders(coord.buffered@, lane_views(lanes@));
                    assert(views0[lane as int].skip(c).drop_first() =~= views0[
                        lane as int
                    ].skip(c + 1));
                    // every remaining unit lies strictly above the emitted one
                    assert forall|k: int, a: int|
                        0 <= k < n && 0 <= a < rems_post[k].len() implies unit_key(
                        #[trigger] rems_post[k][a],
                    ) > unit_key(unit) by {
                        if k == lane as int {
                            assert(rems_post[k][a] == views0[k].skip(c + 1)[a]);
                            assert(views0[k].skip(c + 1)[a] == views0[k][c + 1 + a]);
                            assert(strictly_increasing(views0[k]));
                            assert(unit_key(views0[k][c]) < unit_key(views0[k][c + 1 + a]));
                        } else {
                            assert(rems_post[k] == rems_pre[k]);
                            if coord_pre.buffered@[k] is Some {
                                let v = coord_pre.buffered@[k]->Some_0;
                                assert(unit_key(unit) < unit_key(v));
                                assert(rems_pre[k][0] == v);
                                assert(rems_pre[k] == views0[k].skip(cons[k]));
                                if a > 0 {
                                    assert(rems_pre[k][a] == views0[k][cons[k] + a]);
                                    assert(rems_pre[k][0] == views0[k][cons[k]]);
                                    assert(unit_key(views0[k][cons[k]]) < unit_key(
                                        views0[k][cons[k] + a],
                                    ));
                                }
                            } else {
                                assert(coord_pre.finished@[k]);
                                assert(rems_pre[k].len() == 0);
                            }
                        }
                    }
                    // the multiset balance moves one unit from the lanes to the output
                    assert(out@ == out_pre.push(unit));
                    assert(out@.to_multiset() =~= out_pre.to_multiset().insert(unit));
                    assert(units_multiset(rems_post) == units_multiset(rems_pre).remove(unit));
                    assert(units_multiset(rems_pre).count(unit) > 0);
                    assert(out@.to_multiset().add(units_multiset(rems_post))
                        =~= out_pre.to_multiset().add(units_multiset(rems_pre)));
                }
            },
        }
    }
}

/// Marking one lane finished lowers the active count by one.
proof fn lemma_active_count_update(fs: Seq<bool>, i: int, t: bool)
    requires
        0 <= i < fs.len(),
    ensures
        active_count(fs.update(i, t)) + (if !fs[i] {
            1int
        } else {
            0
        }) == active_count(fs) + (if !t {
            1int
        } else {
            0
        }),
    decreases fs.len(),
{
    let upd = fs.update(i, t);
    if i == fs.len() - 1 {
        assert(upd.drop_last() =~= fs.drop_last());
    } else {
        lemma_active_count_update(fs.drop_last(), i, t);
        assert(upd.drop_last() =~= fs.drop_last().update(i, t));
        assert(upd.last() == fs.last());
        assert(fs.drop_last()[i] == fs[i]);
    }
}

} // verus!
