use vstd::prelude::*;
use crate::data_model::event::Event;
use crate::data_model::graph::{DescreteGraph, GraphView};
use crate::data_model::task::Task;
use crate::data_model::time::TimeUnit;
use crate::error::ErrorKind;

verus! {

/// Whether `a` has a claim to be planned no later than `b`: it has the
/// greater effect, or the same effect and not the greater id.
pub open spec fn goes_first(a: Task, b: Task) -> bool {
    a.effect > b.effect || (a.effect == b.effect && a.id <= b.id)
}

/// `order` with `task` put behind every task that goes first and before the
/// others. `order` is meant to be in priority order already.
pub open spec fn insert_by_priority(order: Seq<Task>, task: Task) -> Seq<Task>
    decreases order.len(),
{
    if order.len() == 0 {
        seq![task]
    } else if goes_first(order.last(), task) {
        order.push(task)
    } else {
        insert_by_priority(order.drop_last(), task).push(order.last())
    }
}

/// The order in which a run plans `tasks`: by descending effect, tasks of
/// the same effect by ascending id, and tasks that agree in both in the
/// order in which they were added.
pub open spec fn priority_order(tasks: Seq<Task>) -> Seq<Task>
    decreases tasks.len(),
{
    if tasks.len() == 0 {
        Seq::empty()
    } else {
        insert_by_priority(priority_order(tasks.drop_last()), tasks.last())
    }
}

/// Whether every task of `order` goes first with respect to all that follow
/// it.
pub open spec fn in_priority_order(order: Seq<Task>) -> bool {
    forall|i: int, j: int| 0 <= i < j < order.len() ==> goes_first(order[i], order[j])
}

/// Inserting keeps the length, the tasks and the order.
pub proof fn lemma_insert_by_priority(order: Seq<Task>, task: Task)
    requires
        in_priority_order(order),
    ensures
        insert_by_priority(order, task).len() == order.len() + 1,
        insert_by_priority(order, task).to_multiset() == order.to_multiset().insert(task),
        in_priority_order(insert_by_priority(order, task)),
    decreases order.len(),
{
    broadcast use vstd::seq_lib::group_to_multiset_ensures;

    let result = insert_by_priority(order, task);
    if order.len() == 0 {
        assert(order =~= Seq::empty());
        assert(result =~= Seq::<Task>::empty().push(task));
    } else if goes_first(order.last(), task) {
        assert forall|i: int, j: int| 0 <= i < j < result.len() implies goes_first(
            result[i],
            result[j],
        ) by {
            if j == order.len() {
                if i < order.len() - 1 {
                    assert(goes_first(order[i], order.last()));
                }
            } else {
                assert(goes_first(order[i], order[j]));
            }
        }
    } else {
        let front = order.drop_last();
        assert forall|i: int, j: int| 0 <= i < j < front.len() implies goes_first(
            front[i],
            front[j],
        ) by {
            assert(goes_first(order[i], order[j]));
        }
        lemma_insert_by_priority(front, task);
        let inner = insert_by_priority(front, task);
        assert(order =~= front.push(order.last()));
        assert(order.to_multiset() =~= front.to_multiset().insert(order.last()));
        assert(result.to_multiset() =~= order.to_multiset().insert(task));
        assert forall|i: int, j: int| 0 <= i < j < result.len() implies goes_first(
            result[i],
            result[j],
        ) by {
            if j == inner.len() {
                // every task of `inner` is `task` or a task of `front`
                assert(inner.to_multiset().count(inner[i]) > 0);
                if inner[i] != task {
                    assert(front.to_multiset().count(inner[i]) > 0);
                    let k = choose|k: int| 0 <= k < front.len() && front[k] == inner[i];
                    assert(goes_first(order[k], order.last()));
                }
            } else {
                assert(goes_first(inner[i], inner[j]));
            }
        }
    }
}

/// The priority order of `tasks` holds just the tasks of `tasks`, each as
/// often as `tasks` does, and is sorted by priority.
pub proof fn lemma_priority_order_sorts(tasks: Seq<Task>)
    ensures
        priority_order(tasks).len() == tasks.len(),
        priority_order(tasks).to_multiset() == tasks.to_multiset(),
        in_priority_order(priority_order(tasks)),
    decreases tasks.len(),
{
    broadcast use vstd::seq_lib::group_to_multiset_ensures;

    if tasks.len() == 0 {
        assert(tasks =~= Seq::empty());
    } else {
        lemma_priority_order_sorts(tasks.drop_last());
        lemma_insert_by_priority(priority_order(tasks.drop_last()), tasks.last());
        assert(tasks =~= tasks.drop_last().push(tasks.last()));
        assert(tasks.to_multiset() =~= tasks.drop_last().to_multiset().insert(tasks.last()));
    }
}

/// Where a task belongs in an order: behind position `at - 1`, whose task
/// goes first, and before the tasks from `at` on, which do not.
proof fn lemma_insert_position(order: Seq<Task>, task: Task, at: int)
    requires
        0 <= at <= order.len(),
        at > 0 ==> goes_first(order[at - 1], task),
        forall|j: int| at <= j < order.len() ==> !goes_first(order[j], task),
    ensures
        insert_by_priority(order, task) == order.insert(at, task),
    decreases order.len() - at,
{
    if at == order.len() {
        assert(order.insert(at, task) =~= order.push(task));
        if order.len() == 0 {
            assert(order.push(task) =~= seq![task]);
        }
    } else {
        assert(!goes_first(order.last(), task));
        let front = order.drop_last();
        lemma_insert_position(front, task, at);
        assert(front.insert(at, task).push(order.last()) =~= order.insert(at, task));
    }
}

/// Tests [`goes_first`].
fn has_priority(a: &Task, b: &Task) -> (r: bool)
    ensures
        r == goes_first(*a, *b),
{
    a.effect > b.effect || (a.effect == b.effect && a.id <= b.id)
}

/// The tasks of `tasks` from position `from` on, in priority order.
fn sorted_by_priority(tasks: &Vec<Task>, from: usize) -> (order: Vec<Task>)
    requires
        from <= tasks.len(),
    ensures
        order@ == priority_order(tasks@.subrange(from as int, tasks.len() as int)),
{
    let n: usize = tasks.len();
    let mut order: Vec<Task> = Vec::new();
    let mut i: usize = from;
    assert(tasks@.subrange(from as int, from as int) =~= Seq::empty());
    while i < n
        invariant
            n == tasks.len(),
            from <= i <= n,
            order@ == priority_order(tasks@.subrange(from as int, i as int)),
        decreases n - i,
    {
        let task: Task = tasks[i];
        let mut at: usize = order.len();
        while at > 0 && !has_priority(&order[at - 1], &task)
            invariant
                0 <= at <= order.len(),
                forall|j: int| at <= j < order.len() ==> !goes_first(order@[j], task),
            decreases at,
        {
            at -= 1;
        }
        proof {
            lemma_insert_position(order@, task, at as int);
            let next = tasks@.subrange(from as int, i + 1);
            assert(next.drop_last() =~= tasks@.subrange(from as int, i as int));
            assert(next.last() == task);
        }
        order.insert(at, task);
        i += 1;
    }
    order
}

/// How often `id` occurs in `ids`.
pub open spec fn occurrences(ids: Seq<i64>, id: i64) -> nat
    decreases ids.len(),
{
    if ids.len() == 0 {
        0
    } else {
        occurrences(ids.drop_last(), id) + if ids.last() == id {
            1nat
        } else {
            0nat
        }
    }
}

/// An id occurs in a sequence at most as often as the sequence is long, and
/// in a part of it from the start at most as often as in the whole.
pub proof fn lemma_occurrences_grow(ids: Seq<i64>, id: i64, n: int)
    requires
        0 <= n <= ids.len(),
    ensures
        occurrences(ids.take(n), id) <= occurrences(ids, id) <= ids.len(),
    decreases ids.len(),
{
    if ids.len() == 0 {
        assert(ids.take(n) =~= ids);
    } else if n == ids.len() {
        assert(ids.take(n) =~= ids);
        lemma_occurrences_grow(ids.drop_last(), id, 0);
    } else {
        lemma_occurrences_grow(ids.drop_last(), id, n);
        assert(ids.drop_last().take(n) =~= ids.take(n));
    }
}

/// Counts [`occurrences`].
fn count_occurrences(ids: &Vec<i64>, id: i64) -> (count: usize)
    ensures
        count == occurrences(ids@, id),
{
    let n: usize = ids.len();
    let mut count: usize = 0;
    let mut i: usize = 0;
    assert(ids@.take(0) =~= Seq::empty());
    while i < n
        invariant
            n == ids.len(),
            0 <= i <= n,
            count == occurrences(ids@.take(i as int), id),
            count <= i,
        decreases n - i,
    {
        proof {
            assert(ids@.take(i + 1).drop_last() =~= ids@.take(i as int));
        }
        if ids[i] == id {
            count += 1;
        }
        i += 1;
    }
    assert(ids@.take(n as int) =~= ids@);
    count
}

/// Where a scheduler stands between planning runs.
#[derive(Clone, Copy, Debug, PartialEq, Eq, Hash, Structural)]
pub enum SchedulerState {
    /// No run has taken place yet.
    Idle,
    /// A run is under way.
    Planning,
    /// The last run placed every task it planned.
    Completed,
    /// The last run left at least one task unplaced.
    PartiallyScheduled,
}

/// The outcome of one planning run.
#[derive(Debug, PartialEq, Eq)]
pub struct SchedulingReport {
    /// The events of this run, in the order in which the tasks were
    /// planned.
    pub events: Vec<Event>,
    /// The tasks that could not be placed, by id, each with the reason, in
    /// the order in which the tasks were planned.
    pub unscheduled: Vec<(i64, ErrorKind)>,
}

/// The mathematical content of a [`SchedulingReport`].
pub ghost struct ReportView {
    pub events: Seq<Event>,
    pub unscheduled: Seq<(i64, ErrorKind)>,
}

impl View for SchedulingReport {
    type V = ReportView;

    open spec fn view(&self) -> ReportView {
        ReportView { events: self.events@, unscheduled: self.unscheduled@ }
    }
}

/// What a run has reached so far: the graph with what is left in it, all
/// events, the id of the task that each event stands for, and the tasks
/// that this run could not place.
pub ghost struct Plan {
    pub graph: GraphView,
    pub events: Seq<Event>,
    pub placed: Seq<i64>,
    pub unscheduled: Seq<(i64, ErrorKind)>,
}

/// Whether bucket `i` is a feasible slot for `task`: its span lies within
/// the task's window, is at least as long as the task's duration, and has
/// enough capacity left for the task's effect.
pub open spec fn feasible_slot(graph: GraphView, task: Task, i: int) -> bool {
    &&& graph.qualifies(i, task.duration, task.timespan.start, task.timespan.end)
    &&& graph.can_consume(i, task.effect as int)
}

/// The bucket into which `task` is placed: the best fit for its duration
/// and window, if the task's effect can be taken from it.
pub open spec fn chosen_bucket(graph: GraphView, task: Task) -> Option<int> {
    match graph.best_fit(task.duration, task.timespan.start, task.timespan.end) {
        Some(i) => if graph.can_consume(i, task.effect as int) {
            Some(i)
        } else {
            None
        },
        None => None,
    }
}

/// The event that places `task` into bucket `bucket`: its id is the number
/// of events before it, its version is one more than the number of events
/// that stand for the same task already, and it starts when the bucket
/// starts.
pub open spec fn event_for(plan: Plan, task: Task, bucket: int) -> Event {
    Event {
        id: plan.events.len() as i64,
        device_id: task.device_id,
        version_nr: (occurrences(plan.placed, task.id) + 1) as i64,
        start_time: plan.graph.buckets[bucket].1.start,
    }
}

/// The plan after `task` was planned: placed into its bucket, from which
/// its effect is taken, or recorded as unscheduled for want of a feasible
/// slot.
pub open spec fn place(plan: Plan, task: Task) -> Plan {
    match chosen_bucket(plan.graph, task) {
        Some(i) => Plan {
            graph: plan.graph.consumed(i, task.effect as int),
            events: plan.events.push(event_for(plan, task, i)),
            placed: plan.placed.push(task.id),
            unscheduled: plan.unscheduled,
        },
        None => Plan {
            graph: plan.graph,
            events: plan.events,
            placed: plan.placed,
            unscheduled: plan.unscheduled.push((task.id, ErrorKind::NoFeasibleSlot)),
        },
    }
}

/// The plan after the tasks of `order` were planned one after the other.
pub open spec fn place_all(plan: Plan, order: Seq<Task>) -> Plan
    decreases order.len(),
{
    if order.len() == 0 {
        plan
    } else {
        place(place_all(plan, order.drop_last()), order.last())
    }
}

/// Whether the events are numbered as the scheduler numbers them: the id of
/// an event is its position, and its version is one more than the number of
/// earlier events that stand for the same task.
pub open spec fn numbered(events: Seq<Event>, placed: Seq<i64>) -> bool {
    &&& events.len() == placed.len()
    &&& forall|i: int|
        0 <= i < events.len() ==> (#[trigger] events[i]).id == i && events[i].version_nr
            == occurrences(placed.take(i), placed[i]) + 1
}

/// The mathematical content of a [`Scheduler`].
pub ghost struct SchedulerView {
    /// Every task that was added, in the order of addition.
    pub tasks: Seq<Task>,
    /// How many of the tasks, counted from the first, were planned by a run.
    pub planned: nat,
    /// Every event that was emitted, in the order of emission.
    pub events: Seq<Event>,
    /// For each event the id of the task that it stands for.
    pub placed: Seq<i64>,
    /// The capacity graph with what is left in it.
    pub graph: GraphView,
    /// The outcome of the last run.
    pub state: SchedulerState,
}

impl SchedulerView {
    /// The tasks that no run has planned yet.
    pub open spec fn pending(&self) -> Seq<Task> {
        self.tasks.subrange(self.planned as int, self.tasks.len() as int)
    }

    /// Whether this is a state that a scheduler can be in.
    pub open spec fn wf(&self) -> bool {
        &&& self.graph.wf()
        &&& self.planned <= self.tasks.len() <= i64::MAX
        &&& self.events.len() <= self.planned
        &&& numbered(self.events, self.placed)
        &&& self.state != SchedulerState::Planning
        &&& self.state == SchedulerState::Idle <==> self.planned == 0
    }

    /// The plan that a run starts from.
    pub open spec fn start(&self) -> Plan {
        Plan {
            graph: self.graph,
            events: self.events,
            placed: self.placed,
            unscheduled: Seq::empty(),
        }
    }

    /// The plan that a run ends with: the pending tasks planned in priority
    /// order.
    pub open spec fn outcome(&self) -> Plan {
        place_all(self.start(), priority_order(self.pending()))
    }

    /// The scheduler after `task` was added.
    pub open spec fn with_task(&self, task: Task) -> SchedulerView {
        SchedulerView {
            tasks: self.tasks.push(task),
            planned: self.planned,
            events: self.events,
            placed: self.placed,
            graph: self.graph,
            state: self.state,
        }
    }

    /// The scheduler after a run.
    pub open spec fn after_run(&self) -> SchedulerView {
        SchedulerView {
            tasks: self.tasks,
            planned: self.tasks.len(),
            events: self.outcome().events,
            placed: self.outcome().placed,
            graph: self.outcome().graph,
            state: if self.outcome().unscheduled.len() == 0 {
                SchedulerState::Completed
            } else {
                SchedulerState::PartiallyScheduled
            },
        }
    }

    /// What a run reports: the events that it added and the tasks that it
    /// could not place.
    pub open spec fn report(&self) -> ReportView {
        ReportView {
            events: self.outcome().events.subrange(
                self.events.len() as int,
                self.outcome().events.len() as int,
            ),
            unscheduled: self.outcome().unscheduled,
        }
    }
}

/// Whether `after` is `before` with capacity taken from it: the same
/// spans, width and floor, and no bucket with more capacity than it had.
pub open spec fn taken_from(before: GraphView, after: GraphView) -> bool {
    &&& after.buckets.len() == before.buckets.len()
    &&& after.bucket_width == before.bucket_width
    &&& after.floor == before.floor
    &&& forall|k: int|
        0 <= k < before.buckets.len() ==> (#[trigger] after.buckets[k]).1 == before.buckets[k].1
            && after.buckets[k].0 <= before.buckets[k].0
}

/// Planning one task keeps the graph well formed and the events numbered,
/// only takes capacity, leaves the events so far as they are, and adds one
/// entry: an event or an unscheduled task.
pub proof fn lemma_place_step(plan: Plan, task: Task)
    requires
        plan.graph.wf(),
        numbered(plan.events, plan.placed),
        plan.events.len() < i64::MAX,
    ensures
        place(plan, task).graph.wf(),
        taken_from(plan.graph, place(plan, task).graph),
        numbered(place(plan, task).events, place(plan, task).placed),
        plan.events.is_prefix_of(place(plan, task).events),
        plan.unscheduled.is_prefix_of(place(plan, task).unscheduled),
        place(plan, task).events.len() + place(plan, task).unscheduled.len() == plan.events.len()
            + plan.unscheduled.len() + 1,
{
    let next = place(plan, task);
    match chosen_bucket(plan.graph, task) {
        Some(i) => {
            crate::data_model::graph::lemma_consumed_stays_well_formed(
                plan.graph,
                i,
                task.effect as int,
            );
            crate::data_model::graph::lemma_consumed_takes_amount(plan.graph, i, task.effect);
            let n = plan.events.len() as int;
            lemma_occurrences_grow(plan.placed, task.id, 0);
            assert(next.placed.take(n) =~= plan.placed);
            assert forall|k: int| 0 <= k < next.events.len() implies (#[trigger] next.events[k]).id
                == k && next.events[k].version_nr == occurrences(
                next.placed.take(k),
                next.placed[k],
            ) + 1 by {
                if k < n {
                    assert(next.placed.take(k) =~= plan.placed.take(k));
                    assert(next.events[k] == plan.events[k]);
                }
            }
        },
        None => {},
    }
}

/// Planning the first `n + 1` tasks of an order is planning the first `n`
/// and then the next one.
proof fn lemma_place_all_next(plan: Plan, order: Seq<Task>, n: int)
    requires
        0 <= n < order.len(),
    ensures
        place_all(plan, order.take(n + 1)) == place(place_all(plan, order.take(n)), order[n]),
{
    assert(order.take(n + 1).drop_last() =~= order.take(n));
}

/// Assigns start times to tasks: holds the capacity graph, the tasks that
/// were added and the events that its runs have emitted.
#[derive(Debug)]
pub struct Scheduler {
    tasks: Vec<Task>,
    planned: usize,
    events: Vec<Event>,
    placed: Vec<i64>,
    graph: DescreteGraph,
    state: SchedulerState,
}

impl View for Scheduler {
    type V = SchedulerView;

    closed spec fn view(&self) -> SchedulerView {
        SchedulerView {
            tasks: self.tasks@,
            planned: self.planned as nat,
            events: self.events@,
            placed: self.placed@,
            graph: self.graph@,
            state: self.state,
        }
    }
}

impl Scheduler {
    /// Whether the scheduler is in a state that it can be in.
    pub open spec fn wf(&self) -> bool {
        self@.wf()
    }

    /// A scheduler for `graph` that has no tasks and no events yet.
    pub fn new(graph: DescreteGraph) -> (scheduler: Scheduler)
        requires
            graph.wf(),
        ensures
            scheduler.wf(),
            scheduler@ == (SchedulerView {
                tasks: Seq::empty(),
                planned: 0,
                events: Seq::empty(),
                placed: Seq::empty(),
                graph: graph@,
                state: SchedulerState::Idle,
            }),
    {
        Scheduler {
            tasks: Vec::new(),
            planned: 0,
            events: Vec::new(),
            placed: Vec::new(),
            graph,
            state: SchedulerState::Idle,
        }
    }

    /// Adds `task` to the tasks that the next run plans. Nothing else
    /// changes.
    pub fn add_task(&mut self, task: Task)
        requires
            old(self).wf(),
            old(self)@.tasks.len() < i64::MAX,
        ensures
            final(self).wf(),
            final(self)@ == old(self)@.with_task(task),
    {
        self.tasks.push(task);
    }

    /// Every event that the runs so far have emitted, oldest first.
    pub fn get_events(&self) -> (events: &Vec<Event>)
        ensures
            events@ == self@.events,
    {
        &self.events
    }

    /// For each event of [`Scheduler::get_events`] the id of the task that
    /// it stands for.
    pub fn get_placed(&self) -> (placed: &Vec<i64>)
        ensures
            placed@ == self@.placed,
    {
        &self.placed
    }

    /// The capacity graph with what is left in it.
    pub fn get_graph(&self) -> (graph: &DescreteGraph)
        ensures
            graph@ == self@.graph,
    {
        &self.graph
    }

    /// The outcome of the last run, or `Idle` before the first.
    pub fn get_state(&self) -> (state: SchedulerState)
        ensures
            state == self@.state,
    {
        self.state
    }

    /// How many tasks were added so far, planned or not.
    pub fn task_count(&self) -> (count: usize)
        ensures
            count == self@.tasks.len(),
    {
        self.tasks.len()
    }

    /// How many tasks wait for the next run.
    pub fn pending_count(&self) -> (count: usize)
        requires
            self.wf(),
        ensures
            count == self@.pending().len(),
    {
        self.tasks.len() - self.planned
    }

    /// Records that `task` starts at `start_time`: appends the event, with
    /// the next id and the task's next version, and returns it.
    fn add_event(&mut self, task: &Task, start_time: TimeUnit) -> (event: Event)
        requires
            old(self).events@.len() == old(self).placed@.len(),
            old(self).events@.len() < old(self).tasks@.len() <= i64::MAX,
        ensures
            event == (Event {
                id: old(self).events@.len() as i64,
                device_id: task.device_id,
                version_nr: (occurrences(old(self).placed@, task.id) + 1) as i64,
                start_time,
            }),
            final(self).events@ == old(self).events@.push(event),
            final(self).placed@ == old(self).placed@.push(task.id),
            final(self).tasks == old(self).tasks,
            final(self).planned == old(self).planned,
            final(self).graph == old(self).graph,
            final(self).state == old(self).state,
    {
        let earlier: usize = count_occurrences(&self.placed, task.id);
        proof {
            lemma_occurrences_grow(self.placed@, task.id, 0);
        }
        assert(earlier < self.tasks.len());
        let event = Event {
            id: self.events.len() as i64,
            device_id: task.device_id,
            version_nr: (earlier + 1) as i64,
            start_time,
        };
        self.events.push(event);
        self.placed.push(task.id);
        event
    }

    /// Plans the pending tasks in priority order and reports the outcome.
    ///
    /// Each task goes into the bucket that fits its window and duration
    /// best; its effect is taken from that bucket and an event records the
    /// start. A task for which no bucket is a feasible slot is reported as
    /// unscheduled with `NoFeasibleSlot`. Tasks that an earlier run planned
    /// are not planned again.
    ///
    /// Fails with `NoTasksToSchedule`, and changes nothing, when no task was
    /// ever added.
    pub fn schedule(&mut self) -> (r: Result<SchedulingReport, ErrorKind>)
        requires
            old(self).wf(),
        ensures
            final(self).wf(),
            old(self)@.tasks.len() == 0 ==> r is Err && r->Err_0 == ErrorKind::NoTasksToSchedule
                && final(self)@ == old(self)@,
            old(self)@.tasks.len() > 0 ==> r is Ok && r->Ok_0@ == old(self)@.report() && final(self)@
                == old(self)@.after_run(),
            r is Ok ==> final(self)@.events == old(self)@.events + r->Ok_0@.events,
            r is Ok ==> r->Ok_0@.events.len() + r->Ok_0@.unscheduled.len() == old(self)@.pending().len(),
            r is Ok ==> taken_from(old(self)@.graph, final(self)@.graph),
    {
        if self.tasks.len() == 0 {
            return Err(ErrorKind::NoTasksToSchedule);
        }
        self.state = SchedulerState::Planning;
        let order: Vec<Task> = sorted_by_priority(&self.tasks, self.planned);
        let ghost start = old(self)@.start();
        let ghost first = old(self)@.events.len() as int;
        let mut report_events: Vec<Event> = Vec::new();
        let mut unscheduled: Vec<(i64, ErrorKind)> = Vec::new();
        let n: usize = order.len();
        let mut i: usize = 0;
        proof {
            lemma_priority_order_sorts(old(self)@.pending());
            assert(order@.take(0) =~= Seq::empty());
            assert(start.events.subrange(first, first) =~= Seq::empty());
        }
        while i < n
            invariant
                n == order.len(),
                0 <= i <= n,
                old(self).wf(),
                start == old(self)@.start(),
                first == old(self)@.events.len(),
                order@ == priority_order(old(self)@.pending()),
                n == old(self)@.tasks.len() - old(self)@.planned,
                self.tasks@ == old(self)@.tasks,
                self.planned == old(self)@.planned,
                self.graph@ == place_all(start, order@.take(i as int)).graph,
                self.events@ == place_all(start, order@.take(i as int)).events,
                self.placed@ == place_all(start, order@.take(i as int)).placed,
                unscheduled@ == place_all(start, order@.take(i as int)).unscheduled,
                first <= self.events@.len(),
                report_events@ == self.events@.subrange(first, self.events@.len() as int),
                self.graph@.wf(),
                numbered(self.events@, self.placed@),
                self.events@.len() + unscheduled@.len() == first + i,
            decreases n - i,
        {
            let task: Task = order[i];
            let ghost plan = place_all(start, order@.take(i as int));
            proof {
                lemma_place_all_next(start, order@, i as int);
                lemma_place_step(plan, task);
            }
            let mut placed_it: bool = false;
            match self.graph.best_fit(task.duration, task.timespan.start, task.timespan.end) {
                Some(bucket) => {
                    let start_time = self.graph.get_values()[bucket].1.start;
                    match self.graph.consume(bucket, task.effect) {
                        Ok(()) => {
                            let event = self.add_event(&task, start_time);
                            report_events.push(event);
                            placed_it = true;
                        },
                        Err(_) => {},
                    }
                },
                None => {},
            }
            if !placed_it {
                unscheduled.push((task.id, ErrorKind::NoFeasibleSlot));
            }
            proof {
                assert(report_events@ =~= self.events@.subrange(first, self.events@.len() as int));
            }
            i += 1;
        }
        proof {
            assert(order@.take(n as int) =~= order@);
            lemma_run_keeps_history(old(self)@);
        }
        self.planned = self.tasks.len();
        self.state = if unscheduled.len() == 0 {
            SchedulerState::Completed
        } else {
            SchedulerState::PartiallyScheduled
        };
        Ok(SchedulingReport { events: report_events, unscheduled })
    }

    /// Runs [`Scheduler::schedule`] and tells only whether the run took
    /// place; the events are then read with [`Scheduler::get_events`].
    ///
    /// Fails with the text of `NoTasksToSchedule`, and changes nothing, when
    /// no task was ever added.
    pub fn schedule_naive(&mut self) -> (r: Result<(), &'static str>)
        requires
            old(self).wf(),
        ensures
            final(self).wf(),
            old(self)@.tasks.len() == 0 ==> r is Err && r->Err_0@
                == ErrorKind::NoTasksToSchedule.message_text() && final(self)@ == old(self)@,
            old(self)@.tasks.len() > 0 ==> r is Ok && final(self)@ == old(self)@.after_run(),
    {
        match self.schedule() {
            Ok(_) => Ok(()),
            Err(kind) => Err(kind.message()),
        }
    }
}

/// A task is placed into a feasible slot, and is left unplaced only when no
/// bucket of the graph is a feasible slot for it.
pub proof fn lemma_unplaced_means_no_feasible_slot(graph: GraphView, task: Task)
    requires
        graph.wf(),
    ensures
        match chosen_bucket(graph, task) {
            Some(i) => feasible_slot(graph, task, i),
            None => forall|i: int| !feasible_slot(graph, task, i),
        },
{
    crate::data_model::graph::lemma_best_fit_contains_window(
        graph,
        task.duration,
        task.timespan.start,
        task.timespan.end,
    );
    match graph.best_fit(task.duration, task.timespan.start, task.timespan.end) {
        Some(best) => {
            if !graph.can_consume(best, task.effect as int) {
                assert forall|i: int| !feasible_slot(graph, task, i) by {
                    if graph.qualifies(i, task.duration, task.timespan.start, task.timespan.end) {
                        assert(graph.preferred(best, i));
                    }
                }
            }
        },
        None => {},
    }
}

/// Planning tasks one after the other keeps the graph well formed and the
/// events numbered, only takes capacity, leaves the events and the
/// unscheduled tasks so far as they are, and adds one entry for each task:
/// an event or an unscheduled task.
pub proof fn lemma_place_all(plan: Plan, order: Seq<Task>)
    requires
        plan.graph.wf(),
        numbered(plan.events, plan.placed),
        plan.events.len() + order.len() <= i64::MAX,
    ensures
        place_all(plan, order).graph.wf(),
        taken_from(plan.graph, place_all(plan, order).graph),
        numbered(place_all(plan, order).events, place_all(plan, order).placed),
        plan.events.is_prefix_of(place_all(plan, order).events),
        plan.placed.is_prefix_of(place_all(plan, order).placed),
        plan.unscheduled.is_prefix_of(place_all(plan, order).unscheduled),
        place_all(plan, order).events.len() + place_all(plan, order).unscheduled.len()
            == plan.events.len() + plan.unscheduled.len() + order.len(),
    decreases order.len(),
{
    if order.len() > 0 {
        lemma_place_all(plan, order.drop_last());
        lemma_place_step(place_all(plan, order.drop_last()), order.last());
    }
}

/// A run leaves a scheduler in a state that it can be in, keeps the tasks
/// and the events so far, only takes capacity from the graph, and accounts
/// for every pending task: as an event or as an unscheduled task of its
/// report.
pub proof fn lemma_run_keeps_history(s: SchedulerView)
    requires
        s.wf(),
        s.tasks.len() > 0,
    ensures
        s.after_run().wf(),
        s.after_run().tasks == s.tasks,
        s.after_run().pending().len() == 0,
        taken_from(s.graph, s.after_run().graph),
        s.events.is_prefix_of(s.after_run().events),
        s.after_run().events == s.events + s.report().events,
        s.report().events.len() + s.report().unscheduled.len() == s.pending().len(),
{
    lemma_priority_order_sorts(s.pending());
    lemma_place_all(s.start(), priority_order(s.pending()));
    assert(s.after_run().events =~= s.events + s.report().events);
}

/// A run that finds no pending task reports no event and no unscheduled
/// task, and leaves the events and the graph as they are.
pub proof fn lemma_run_without_pending_tasks(s: SchedulerView)
    requires
        s.wf(),
        s.pending().len() == 0,
    ensures
        s.report() == (ReportView { events: Seq::empty(), unscheduled: Seq::empty() }),
        s.after_run().events == s.events,
        s.after_run().placed == s.placed,
        s.after_run().graph == s.graph,
        s.after_run().tasks == s.tasks,
{
    assert(s.pending() =~= Seq::empty());
    assert(s.report().events =~= Seq::empty());
}

/// Two runs with no task added between them: the second run succeeds,
/// reports no event and no unscheduled task, and places nothing again.
pub proof fn lemma_second_run_is_empty(s: SchedulerView)
    requires
        s.wf(),
        s.tasks.len() > 0,
    ensures
        s.after_run().tasks.len() > 0,
        s.after_run().report() == (ReportView { events: Seq::empty(), unscheduled: Seq::empty() }),
        s.after_run().after_run().events == s.after_run().events,
        s.after_run().after_run().graph == s.after_run().graph,
{
    lemma_run_keeps_history(s);
    lemma_run_without_pending_tasks(s.after_run());
}

/// Of two events that stand for the same task, the later one has the
/// higher version: planning a task again never lowers its version.
pub proof fn lemma_versions_increase(s: SchedulerView, i: int, j: int)
    requires
        s.wf(),
        0 <= i < j < s.events.len(),
        s.placed[i] == s.placed[j],
    ensures
        s.events[i].version_nr < s.events[j].version_nr,
{
    let id = s.placed[i];
    let upto = s.placed.take(j);
    lemma_occurrences_grow(upto, id, i + 1);
    assert(upto.take(i + 1) =~= s.placed.take(i + 1));
    assert(s.placed.take(i + 1).drop_last() =~= s.placed.take(i));
    assert(s.placed.take(i + 1).last() == id);
    assert(s.events[i].version_nr == occurrences(s.placed.take(i), id) + 1);
    assert(s.events[j].version_nr == occurrences(upto, id) + 1);
}

/// No two events of a scheduler share an id, and no two share a task and a
/// version: no run emits again what was emitted.
pub proof fn lemma_events_are_never_repeated(s: SchedulerView, i: int, j: int)
    requires
        s.wf(),
        0 <= i < s.events.len(),
        0 <= j < s.events.len(),
        i != j,
    ensures
        s.events[i].id != s.events[j].id,
        !(s.placed[i] == s.placed[j] && s.events[i].version_nr == s.events[j].version_nr),
{
    if s.placed[i] == s.placed[j] {
        if i < j {
            lemma_versions_increase(s, i, j);
        } else {
            lemma_versions_increase(s, j, i);
        }
    }
}

/// Whether tasks that agree in effect and id are the same task throughout.
pub open spec fn told_apart_by_priority(tasks: Seq<Task>) -> bool {
    forall|i: int, j: int|
        0 <= i < tasks.len() && 0 <= j < tasks.len() && tasks[i].effect == tasks[j].effect
            && tasks[i].id == tasks[j].id ==> tasks[i] == tasks[j]
}

/// Two orders of the same tasks that are both sorted by priority are the
/// same order, provided effect and id tell the tasks apart.
pub proof fn lemma_priority_order_is_unique(x: Seq<Task>, y: Seq<Task>)
    requires
        in_priority_order(x),
        in_priority_order(y),
        x.to_multiset() == y.to_multiset(),
        told_apart_by_priority(x),
    ensures
        x == y,
    decreases x.len(),
{
    broadcast use vstd::seq_lib::group_to_multiset_ensures;

    assert(x.len() == y.len()) by {
        x.to_multiset_ensures();
        y.to_multiset_ensures();
    }
    if x.len() == 0 {
        assert(x =~= y);
    } else {
        let a = x.last();
        let b = y.last();
        assert(x.to_multiset().count(a) > 0);
        assert(y.to_multiset().count(b) > 0);
        let i = choose|i: int| 0 <= i < y.len() && y[i] == a;
        let k = choose|k: int| 0 <= k < x.len() && x[k] == b;
        if i < y.len() - 1 {
            assert(goes_first(y[i], y.last()));
        }
        if k < x.len() - 1 {
            assert(goes_first(x[k], x.last()));
        }
        assert(a == b);
        let xs = x.drop_last();
        let ys = y.drop_last();
        assert(x =~= xs.push(a));
        assert(y =~= ys.push(b));
        assert(x.to_multiset() =~= xs.to_multiset().insert(a));
        assert(y.to_multiset() =~= ys.to_multiset().insert(a));
        assert(xs.to_multiset() =~= x.to_multiset().remove(a));
        assert(ys.to_multiset() =~= y.to_multiset().remove(a));
        assert forall|p: int, q: int| 0 <= p < q < xs.len() implies goes_first(xs[p], xs[q]) by {
            assert(goes_first(x[p], x[q]));
        }
        assert forall|p: int, q: int| 0 <= p < q < ys.len() implies goes_first(ys[p], ys[q]) by {
            assert(goes_first(y[p], y[q]));
        }
        assert forall|p: int, q: int|
            0 <= p < xs.len() && 0 <= q < xs.len() && xs[p].effect == xs[q].effect && xs[p].id
                == xs[q].id implies xs[p] == xs[q] by {
            assert(x[p] == xs[p] && x[q] == xs[q]);
        }
        lemma_priority_order_is_unique(xs, ys);
    }
}

/// Two schedulers with the same graph and the same events whose pending
/// tasks are the same, whatever the order in which they were added, plan
/// alike: their runs end with the same events, the same graph and the same
/// report. This holds where effect and id tell the pending tasks apart.
pub proof fn lemma_run_is_deterministic(a: SchedulerView, b: SchedulerView)
    requires
        a.graph == b.graph,
        a.events == b.events,
        a.placed == b.placed,
        a.pending().to_multiset() == b.pending().to_multiset(),
        told_apart_by_priority(a.pending()),
    ensures
        priority_order(a.pending()) == priority_order(b.pending()),
        a.outcome() == b.outcome(),
        a.report() == b.report(),
        a.after_run().events == b.after_run().events,
        a.after_run().graph == b.after_run().graph,
{
    broadcast use vstd::seq_lib::group_to_multiset_ensures;

    lemma_priority_order_sorts(a.pending());
    lemma_priority_order_sorts(b.pending());
    let x = priority_order(a.pending());
    assert forall|p: int, q: int|
        0 <= p < x.len() && 0 <= q < x.len() && x[p].effect == x[q].effect && x[p].id
            == x[q].id implies x[p] == x[q] by {
        assert(x.to_multiset().count(x[p]) > 0);
        assert(x.to_multiset().count(x[q]) > 0);
        assert(a.pending().to_multiset().count(x[p]) > 0);
        assert(a.pending().to_multiset().count(x[q]) > 0);
        let i = choose|i: int| 0 <= i < a.pending().len() && a.pending()[i] == x[p];
        let j = choose|j: int| 0 <= j < a.pending().len() && a.pending()[j] == x[q];
        assert(a.pending()[i] == a.pending()[j]);
    }
    lemma_priority_order_is_unique(x, priority_order(b.pending()));
}

} // verus!
