use vstd::prelude::*;
use crate::data_model::time::{Milliseconds, TimeUnit, Timespan};
use crate::error::ErrorKind;

verus! {

/// The mathematical content of a capacity graph: its buckets in order, each
/// a capacity and the span it covers, the nominal bucket width and the floor
/// below which no capacity may be taken.
pub ghost struct GraphView {
    pub buckets: Seq<(i32, Timespan)>,
    pub bucket_width: int,
    pub floor: i32,
}

/// Whether bucket `i` is in order: its span is valid; if another bucket
/// follows, the span ends before that one starts, or just when it does, and
/// is exactly `bucket_width` long; the last bucket is at most that long.
pub open spec fn bucket_in_order(buckets: Seq<(i32, Timespan)>, bucket_width: int, i: int) -> bool {
    &&& buckets[i].1.valid()
    &&& if i + 1 < buckets.len() {
        buckets[i].1.precedes(buckets[i + 1].1) && buckets[i].1.length() == bucket_width
    } else {
        buckets[i].1.length() <= bucket_width
    }
}

/// Whether buckets of the nominal width `bucket_width` form a graph: the
/// width is a proper duration and every bucket is in order. The buckets are
/// then sorted by start and no two of them overlap, see
/// [`lemma_buckets_are_disjoint`].
pub open spec fn well_formed(buckets: Seq<(i32, Timespan)>, bucket_width: int) -> bool {
    &&& bucket_width >= 0
    &&& forall|i: int|
        0 <= i < buckets.len() ==> #[trigger] bucket_in_order(buckets, bucket_width, i)
}

/// In a well-formed graph the buckets are sorted by start and an earlier
/// bucket ends before a later one starts, or just when it does.
pub proof fn lemma_buckets_are_disjoint(
    buckets: Seq<(i32, Timespan)>,
    bucket_width: int,
    i: int,
    j: int,
)
    requires
        well_formed(buckets, bucket_width),
        0 <= i < j < buckets.len(),
    ensures
        buckets[i].1.precedes(buckets[j].1),
        buckets[i].1.start@ < buckets[j].1.start@,
    decreases j - i,
{
    assert(bucket_in_order(buckets, bucket_width, i));
    if i + 1 < j {
        assert(bucket_in_order(buckets, bucket_width, i + 1));
        lemma_buckets_are_disjoint(buckets, bucket_width, i + 1, j);
    }
}

impl GraphView {
    /// Whether the buckets and the width form a graph.
    pub open spec fn wf(&self) -> bool {
        well_formed(self.buckets, self.bucket_width)
    }

    /// Whether bucket `i` can take a run of `duration` that may not start
    /// before `not_before` nor end after `not_after`: the bucket's span lies
    /// between the two instants and is at least `duration` long.
    pub open spec fn qualifies(
        &self,
        i: int,
        duration: Milliseconds,
        not_before: TimeUnit,
        not_after: TimeUnit,
    ) -> bool {
        &&& 0 <= i < self.buckets.len()
        &&& self.buckets[i].1.within(not_before, not_after)
        &&& self.buckets[i].1.length() >= duration@
    }

    /// Whether bucket `i` is at least as good a choice as bucket `j`: it has
    /// more capacity, or as much and does not start later.
    pub open spec fn preferred(&self, i: int, j: int) -> bool {
        self.buckets[j].0 < self.buckets[i].0 || (self.buckets[j].0 == self.buckets[i].0
            && self.buckets[i].1.start@ <= self.buckets[j].1.start@)
    }

    /// Whether bucket `i` qualifies and is preferred to every bucket that
    /// qualifies.
    pub open spec fn is_best_fit(
        &self,
        i: int,
        duration: Milliseconds,
        not_before: TimeUnit,
        not_after: TimeUnit,
    ) -> bool {
        &&& self.qualifies(i, duration, not_before, not_after)
        &&& forall|j: int|
            self.qualifies(j, duration, not_before, not_after) ==> self.preferred(i, j)
    }

    /// The index of the qualifying bucket with the greatest capacity, the
    /// earliest of them where several have it; `None` where no bucket
    /// qualifies.
    pub open spec fn best_fit(
        &self,
        duration: Milliseconds,
        not_before: TimeUnit,
        not_after: TimeUnit,
    ) -> Option<int> {
        if exists|i: int| self.is_best_fit(i, duration, not_before, not_after) {
            Some(choose|i: int| self.is_best_fit(i, duration, not_before, not_after))
        } else {
            None
        }
    }

    /// The capacity of the bucket that covers the instant `t`, if there is
    /// one.
    pub open spec fn capacity_at(&self, t: TimeUnit) -> Option<i32> {
        if exists|i: int| 0 <= i < self.buckets.len() && (#[trigger] self.buckets[i]).1.covers(t) {
            Some(
                self.buckets[choose|i: int|
                    0 <= i < self.buckets.len() && (#[trigger] self.buckets[i]).1.covers(t)].0,
            )
        } else {
            None
        }
    }

    /// Whether `amount` can be taken from bucket `index` without going
    /// below the floor.
    pub open spec fn can_consume(&self, index: int, amount: int) -> bool {
        &&& 0 <= index < self.buckets.len()
        &&& self.buckets[index].0 - amount >= self.floor
    }

    /// The graph after `amount` was taken from bucket `index`.
    pub open spec fn consumed(&self, index: int, amount: int) -> GraphView
        recommends
            self.can_consume(index, amount),
    {
        GraphView {
            buckets: self.buckets.update(
                index,
                ((self.buckets[index].0 - amount) as i32, self.buckets[index].1),
            ),
            bucket_width: self.bucket_width,
            floor: self.floor,
        }
    }
}

/// Taking capacity from a bucket of a well-formed graph leaves a well-formed
/// graph: the spans and the width stay as they are.
pub proof fn lemma_consumed_stays_well_formed(graph: GraphView, index: int, amount: int)
    requires
        graph.wf(),
        0 <= index < graph.buckets.len(),
    ensures
        graph.consumed(index, amount).wf(),
        graph.consumed(index, amount).buckets.len() == graph.buckets.len(),
        forall|k: int|
            0 <= k < graph.buckets.len() ==> (#[trigger] graph.consumed(
                index,
                amount,
            ).buckets[k]).1 == graph.buckets[k].1,
{
    let after = graph.consumed(index, amount).buckets;
    assert forall|k: int| 0 <= k < after.len() implies #[trigger] bucket_in_order(
        after,
        graph.bucket_width,
        k,
    ) by {
        assert(bucket_in_order(graph.buckets, graph.bucket_width, k));
    }
}

/// Taking an amount that can be taken lowers the capacity of the bucket by
/// exactly that amount, strictly so unless the amount is zero, and leaves
/// the other buckets as they are.
pub proof fn lemma_consumed_takes_amount(graph: GraphView, index: int, amount: u32)
    requires
        graph.can_consume(index, amount as int),
    ensures
        graph.consumed(index, amount as int).buckets.len() == graph.buckets.len(),
        graph.consumed(index, amount as int).buckets[index].0 == graph.buckets[index].0 - amount,
        amount > 0 ==> graph.consumed(index, amount as int).buckets[index].0
            < graph.buckets[index].0,
        graph.consumed(index, amount as int).buckets[index].0 >= graph.floor,
        forall|k: int|
            0 <= k < graph.buckets.len() && k != index ==> graph.consumed(
                index,
                amount as int,
            ).buckets[k] == graph.buckets[k],
{
}

/// At most one bucket of a well-formed graph is the best fit.
pub proof fn lemma_best_fit_is_unique(
    graph: GraphView,
    i: int,
    j: int,
    duration: Milliseconds,
    not_before: TimeUnit,
    not_after: TimeUnit,
)
    requires
        graph.wf(),
        graph.is_best_fit(i, duration, not_before, not_after),
        graph.is_best_fit(j, duration, not_before, not_after),
    ensures
        i == j,
{
    assert(graph.preferred(i, j));
    assert(graph.preferred(j, i));
    if i < j {
        lemma_buckets_are_disjoint(graph.buckets, graph.bucket_width, i, j);
    } else if j < i {
        lemma_buckets_are_disjoint(graph.buckets, graph.bucket_width, j, i);
    }
}

/// The bucket that `best_fit` names can take the run in full: its span lies
/// between `not_before` and `not_after` and is at least `duration` long. No
/// qualifying bucket has more capacity, and none with the same capacity
/// starts earlier.
pub proof fn lemma_best_fit_contains_window(
    graph: GraphView,
    duration: Milliseconds,
    not_before: TimeUnit,
    not_after: TimeUnit,
)
    requires
        graph.wf(),
    ensures
        match graph.best_fit(duration, not_before, not_after) {
            Some(i) => {
                &&& 0 <= i < graph.buckets.len()
                &&& not_before@ <= graph.buckets[i].1.start@
                &&& graph.buckets[i].1.end@ <= not_after@
                &&& graph.buckets[i].1.end@ - graph.buckets[i].1.start@ >= duration@
                &&& forall|j: int|
                    graph.qualifies(j, duration, not_before, not_after) ==> graph.preferred(i, j)
            },
            None => forall|j: int| !graph.qualifies(j, duration, not_before, not_after),
        },
{
    if graph.best_fit(duration, not_before, not_after) is None {
        assert forall|j: int| !graph.qualifies(j, duration, not_before, not_after) by {
            if graph.qualifies(j, duration, not_before, not_after) {
                lemma_some_bucket_is_best(graph, j, duration, not_before, not_after);
            }
        }
    }
}

/// Among the first `n` buckets, if one qualifies, one of them is preferred
/// to all of those that qualify.
proof fn lemma_best_of_prefix(
    graph: GraphView,
    n: int,
    duration: Milliseconds,
    not_before: TimeUnit,
    not_after: TimeUnit,
) -> (best: int)
    requires
        graph.wf(),
        0 <= n <= graph.buckets.len(),
        exists|j: int| 0 <= j < n && graph.qualifies(j, duration, not_before, not_after),
    ensures
        0 <= best < n,
        graph.qualifies(best, duration, not_before, not_after),
        forall|j: int|
            0 <= j < n && graph.qualifies(j, duration, not_before, not_after) ==> graph.preferred(
                best,
                j,
            ),
    decreases n,
{
    let last = n - 1;
    if exists|j: int| 0 <= j < last && graph.qualifies(j, duration, not_before, not_after) {
        let before = lemma_best_of_prefix(graph, last, duration, not_before, not_after);
        if graph.qualifies(last, duration, not_before, not_after) && graph.buckets[before].0
            < graph.buckets[last].0 {
            assert forall|j: int|
                0 <= j < n && graph.qualifies(
                    j,
                    duration,
                    not_before,
                    not_after,
                ) implies graph.preferred(last, j) by {
                if j < last {
                    assert(graph.preferred(before, j));
                }
            }
            last
        } else {
            if graph.qualifies(last, duration, not_before, not_after) {
                lemma_buckets_are_disjoint(graph.buckets, graph.bucket_width, before, last);
            }
            assert forall|j: int|
                0 <= j < n && graph.qualifies(
                    j,
                    duration,
                    not_before,
                    not_after,
                ) implies graph.preferred(before, j) by {
                if j < last {
                    assert(graph.preferred(before, j));
                }
            }
            before
        }
    } else {
        let witness = choose|j: int|
            0 <= j < n && graph.qualifies(j, duration, not_before, not_after);
        assert(witness == last);
        last
    }
}

/// If a bucket qualifies, the graph has a best fit.
proof fn lemma_some_bucket_is_best(
    graph: GraphView,
    j: int,
    duration: Milliseconds,
    not_before: TimeUnit,
    not_after: TimeUnit,
)
    requires
        graph.wf(),
        graph.qualifies(j, duration, not_before, not_after),
    ensures
        exists|i: int| graph.is_best_fit(i, duration, not_before, not_after),
{
    let len = graph.buckets.len() as int;
    assert(0 <= j < len && graph.qualifies(j, duration, not_before, not_after));
    let best = lemma_best_of_prefix(graph, len, duration, not_before, not_after);
    assert(graph.is_best_fit(best, duration, not_before, not_after));
}

/// In a well-formed graph the capacity at an instant is that of the one
/// bucket that covers the instant.
pub proof fn lemma_capacity_at_covering_bucket(graph: GraphView, i: int, t: TimeUnit)
    requires
        graph.wf(),
        0 <= i < graph.buckets.len(),
        graph.buckets[i].1.covers(t),
    ensures
        graph.capacity_at(t) == Some(graph.buckets[i].0),
{
    let found = choose|k: int|
        0 <= k < graph.buckets.len() && (#[trigger] graph.buckets[k]).1.covers(t);
    if found < i {
        lemma_buckets_are_disjoint(graph.buckets, graph.bucket_width, found, i);
    } else if i < found {
        lemma_buckets_are_disjoint(graph.buckets, graph.bucket_width, i, found);
    }
}

/// A capacity graph: an ordered series of buckets of one nominal width, each
/// with the capacity that is left in it.
///
/// [`DescreteGraph::build`] hands out well-formed graphs only, and taking
/// capacity keeps a graph well formed.
#[derive(Debug)]
pub struct DescreteGraph {
    values: Vec<(i32, Timespan)>,
    time_delta: Milliseconds,
    floor: i32,
}

impl View for DescreteGraph {
    type V = GraphView;

    closed spec fn view(&self) -> GraphView {
        GraphView {
            buckets: self.values@,
            bucket_width: self.time_delta@,
            floor: self.floor,
        }
    }
}

impl DescreteGraph {
    /// Whether the buckets and the width form a graph.
    pub open spec fn wf(&self) -> bool {
        self@.wf()
    }

    /// A graph of the given buckets whose capacities may be taken down to
    /// zero; `MalformedGraph` when the buckets are not well formed.
    pub fn build(buckets: Vec<(i32, Timespan)>, bucket_width: Milliseconds) -> (r: Result<
        DescreteGraph,
        ErrorKind,
    >)
        ensures
            well_formed(buckets@, bucket_width@) ==> r is Ok && r->Ok_0@ == (GraphView {
                buckets: buckets@,
                bucket_width: bucket_width@,
                floor: 0,
            }),
            !well_formed(buckets@, bucket_width@) ==> r is Err && r->Err_0
                == ErrorKind::MalformedGraph,
            r is Ok ==> r->Ok_0.wf(),
    {
        DescreteGraph::build_with_floor(buckets, bucket_width, 0)
    }

    /// A graph of the given buckets whose capacities may be taken down to
    /// `floor`, which may be negative to allow deficits; `MalformedGraph`
    /// when the buckets are not well formed.
    pub fn build_with_floor(
        buckets: Vec<(i32, Timespan)>,
        bucket_width: Milliseconds,
        floor: i32,
    ) -> (r: Result<DescreteGraph, ErrorKind>)
        ensures
            well_formed(buckets@, bucket_width@) ==> r is Ok && r->Ok_0@ == (GraphView {
                buckets: buckets@,
                bucket_width: bucket_width@,
                floor,
            }),
            !well_formed(buckets@, bucket_width@) ==> r is Err && r->Err_0
                == ErrorKind::MalformedGraph,
            r is Ok ==> r->Ok_0.wf(),
    {
        if bucket_width.0 < 0 {
            return Err(ErrorKind::MalformedGraph);
        }
        let width: i128 = bucket_width.0 as i128;
        let n: usize = buckets.len();
        let mut i: usize = 0;
        while i < n
            invariant
                n == buckets.len(),
                width == bucket_width@,
                0 <= i <= n,
                forall|k: int| 0 <= k < i ==> bucket_in_order(buckets@, bucket_width@, k),
            decreases n - i,
        {
            let span: Timespan = buckets[i].1;
            let length: i128 = span.end.0 as i128 - span.start.0 as i128;
            let in_order: bool = if i + 1 < n {
                span.end.0 <= buckets[i + 1].1.start.0 && length == width
            } else {
                length <= width
            };
            if !(span.start.0 < span.end.0 && in_order) {
                assert(!bucket_in_order(buckets@, bucket_width@, i as int));
                return Err(ErrorKind::MalformedGraph);
            }
            i += 1;
        }
        Ok(DescreteGraph { values: buckets, time_delta: bucket_width, floor })
    }

    /// The buckets in order, each with the capacity that is left in it.
    pub fn get_values(&self) -> (values: &Vec<(i32, Timespan)>)
        ensures
            values@ == self@.buckets,
    {
        &self.values
    }

    /// The nominal width of a bucket.
    pub fn bucket_width(&self) -> (width: Milliseconds)
        ensures
            width@ == self@.bucket_width,
    {
        self.time_delta
    }

    /// The capacity below which no bucket may be taken.
    pub fn floor(&self) -> (floor: i32)
        ensures
            floor == self@.floor,
    {
        self.floor
    }

    /// The capacity of the bucket that covers the start of `span`, or `None`
    /// when no bucket covers it.
    pub fn capacity_at(&self, span: Timespan) -> (r: Option<i32>)
        requires
            self.wf(),
        ensures
            r == self@.capacity_at(span.start),
            match r {
                Some(capacity) => exists|i: int|
                    0 <= i < self@.buckets.len() && (#[trigger] self@.buckets[i]).1.covers(
                        span.start,
                    ) && self@.buckets[i].0 == capacity,
                None => forall|i: int|
                    0 <= i < self@.buckets.len() ==> !(#[trigger] self@.buckets[i]).1.covers(
                        span.start,
                    ),
            },
    {
        let n: usize = self.values.len();
        let mut i: usize = 0;
        while i < n
            invariant
                n == self.values.len(),
                0 <= i <= n,
                self.wf(),
                forall|k: int| 0 <= k < i ==> !(#[trigger] self.values@[k]).1.covers(span.start),
            decreases n - i,
        {
            if self.values[i].1.contains(span.start) {
                proof {
                    lemma_capacity_at_covering_bucket(self@, i as int, span.start);
                }
                return Some(self.values[i].0);
            }
            i += 1;
        }
        None
    }

    /// The index of the bucket that lies between `not_before` and
    /// `not_after`, is at least `duration` long and has the greatest
    /// capacity left, the earliest of them where several have it; `None`
    /// when no bucket lies there and is long enough.
    pub fn best_fit(&self, duration: Milliseconds, not_before: TimeUnit, not_after: TimeUnit) -> (r:
        Option<usize>)
        requires
            self.wf(),
        ensures
            match r {
                Some(i) => {
                    &&& self@.best_fit(duration, not_before, not_after) == Some(i as int)
                    &&& self@.is_best_fit(i as int, duration, not_before, not_after)
                },
                None => {
                    &&& self@.best_fit(duration, not_before, not_after) is None
                    &&& forall|j: int| !self@.qualifies(j, duration, not_before, not_after)
                },
            },
    {
        let n: usize = self.values.len();
        let mut best: Option<usize> = None;
        let mut i: usize = 0;
        while i < n
            invariant
                n == self.values.len(),
                0 <= i <= n,
                self@.wf(),
                self@.buckets == self.values@,
                match best {
                    Some(b) => {
                        &&& b < i
                        &&& self@.qualifies(b as int, duration, not_before, not_after)
                        &&& forall|j: int|
                            0 <= j < i && self@.qualifies(j, duration, not_before, not_after)
                                ==> self@.preferred(b as int, j)
                    },
                    None => forall|j: int|
                        0 <= j < i ==> !self@.qualifies(j, duration, not_before, not_after),
                },
            decreases n - i,
        {
            let span: Timespan = self.values[i].1;
            if span.lies_within(not_before, not_after) && span.at_least(duration) {
                match best {
                    Some(b) => {
                        if self.values[b].0 < self.values[i].0 {
                            assert forall|j: int|
                                0 <= j < i + 1 && self@.qualifies(
                                    j,
                                    duration,
                                    not_before,
                                    not_after,
                                ) implies self@.preferred(i as int, j) by {
                                if j < i {
                                    assert(self@.preferred(b as int, j));
                                }
                            }
                            best = Some(i);
                        } else {
                            proof {
                                lemma_buckets_are_disjoint(
                                    self@.buckets,
                                    self@.bucket_width,
                                    b as int,
                                    i as int,
                                );
                            }
                        }
                    },
                    None => {
                        best = Some(i);
                    },
                }
            }
            i += 1;
        }
        proof {
            match best {
                Some(b) => {
                    assert(self@.is_best_fit(b as int, duration, not_before, not_after));
                    let chosen = choose|k: int|
                        self@.is_best_fit(k, duration, not_before, not_after);
                    lemma_best_fit_is_unique(
                        self@,
                        chosen,
                        b as int,
                        duration,
                        not_before,
                        not_after,
                    );
                },
                None => {
                    assert forall|j: int| !self@.qualifies(
                        j,
                        duration,
                        not_before,
                        not_after,
                    ) by {}
                },
            }
        }
        best
    }

    /// Takes `amount` from the capacity of bucket `index`.
    ///
    /// Fails with `InsufficientCapacity`, and changes nothing, when that
    /// would take the capacity below the floor, or when the graph has no
    /// such bucket.
    pub fn consume(&mut self, index: usize, amount: u32) -> (r: Result<(), ErrorKind>)
        ensures
            old(self).wf() ==> final(self).wf(),
            r is Ok ==> final(self)@.buckets[index as int].0 == old(self)@.buckets[index as int].0
                - amount,
            old(self)@.can_consume(index as int, amount as int) ==> r is Ok && final(self)@ == old(self)@.consumed(index as int, amount as int),
            !old(self)@.can_consume(index as int, amount as int) ==> r == Err::<(), ErrorKind>(
                ErrorKind::InsufficientCapacity,
            ) && final(self)@ == old(self)@,
    {
        if index >= self.values.len() {
            return Err(ErrorKind::InsufficientCapacity);
        }
        let capacity: i32 = self.values[index].0;
        let span: Timespan = self.values[index].1;
        let rest: i64 = capacity as i64 - amount as i64;
        if rest < self.floor as i64 {
            return Err(ErrorKind::InsufficientCapacity);
        }
        self.values[index] = (rest as i32, span);
        proof {
            if old(self).wf() {
                lemma_consumed_stays_well_formed(old(self)@, index as int, amount as int);
            }
        }
        Ok(())
    }
}

} // verus!
