//! The scheduler's decisions: which task to poll next, when to wait for a
//! wake, and when every task has completed.
//!
//! Tasks are named by the index at which they were spawned. The caller owns
//! the computations themselves; it asks [`Scheduler::next_step`] what to do,
//! polls the named computation, and reports the outcome with
//! [`Scheduler::complete_poll`]. Wakes, from any source, are handed in with
//! [`Scheduler::wake`].
use std::collections::VecDeque;
use vstd::prelude::*;

verus! {

/// The last poll result of a task.
#[derive(Clone, Copy, Debug, PartialEq, Eq, Structural)]
pub enum TaskStatus {
    Pending,
    Ready,
}

/// What the run loop should do next.
#[derive(Clone, Copy, Debug, PartialEq, Eq, Structural)]
pub enum Step {
    /// Poll the computation of the named task once and report the outcome.
    Poll(usize),
    /// The named task was woken after it had completed: it is left alone.
    Skip(usize),
    /// Nothing is queued but some task may still be woken: wait for a wake.
    Idle,
    /// Every spawned task has completed: the run is over.
    Finished,
}

/// The abstract state of a scheduler.
pub struct SchedulerState {
    /// The status of each spawned task, by task index.
    pub status: Seq<TaskStatus>,
    /// The intake queue, front first.
    pub queue: Seq<usize>,
    /// The task whose poll is in progress, if any.
    pub polling: Option<usize>,
    /// The run has ended; no task may be spawned any more.
    pub finished: bool,
}

/// The inputs that move a scheduler from one state to the next.
pub enum Event {
    /// A new task is spawned.
    Spawn,
    /// The waker of the given task is invoked.
    Wake(usize),
    /// The run loop asks for its next step.
    Step,
    /// The poll in progress reports its outcome.
    Complete(TaskStatus),
}

/// Every spawned task has completed.
pub open spec fn all_ready(s: SchedulerState) -> bool {
    forall|i: int| 0 <= i < s.status.len() ==> s.status[i] == TaskStatus::Ready
}

/// The states that the scheduler can be in.
pub open spec fn valid(s: SchedulerState) -> bool {
    &&& s.status.len() <= usize::MAX
    &&& forall|k: int| 0 <= k < s.queue.len() ==> s.queue[k] < s.status.len()
    &&& s.queue.no_duplicates()
    &&& s.polling matches Some(p) ==> p < s.status.len() && s.status[p as int]
        == TaskStatus::Pending
    &&& s.finished ==> s.queue.len() == 0 && s.polling is None && all_ready(s)
}

/// Whether `e` may happen in state `s`.
pub open spec fn enabled(s: SchedulerState, e: Event) -> bool {
    match e {
        Event::Spawn => !s.finished,
        Event::Wake(_) => true,
        Event::Step => s.polling is None,
        Event::Complete(_) => s.polling is Some,
    }
}

/// What [`Scheduler::next_step`] answers in state `s`.
pub open spec fn step_of(s: SchedulerState) -> Step {
    if s.queue.len() > 0 {
        let t = s.queue[0];
        if s.status[t as int] == TaskStatus::Ready {
            Step::Skip(t)
        } else {
            Step::Poll(t)
        }
    } else if all_ready(s) {
        Step::Finished
    } else {
        Step::Idle
    }
}

/// The state after event `e` in state `s`.
pub open spec fn apply(s: SchedulerState, e: Event) -> SchedulerState {
    match e {
        Event::Spawn => SchedulerState {
            status: s.status.push(TaskStatus::Pending),
            queue: s.queue.push(s.status.len() as usize),
            ..s
        },
        Event::Wake(t) => {
            if t < s.status.len() && s.status[t as int] == TaskStatus::Pending
                && !s.queue.contains(t) {
                SchedulerState { queue: s.queue.push(t), ..s }
            } else {
                s
            }
        },
        Event::Step => {
            if s.queue.len() > 0 {
                let t = s.queue[0];
                SchedulerState {
                    queue: s.queue.drop_first(),
                    polling: if s.status[t as int] == TaskStatus::Pending {
                        Some(t)
                    } else {
                        None
                    },
                    ..s
                }
            } else if all_ready(s) {
                SchedulerState { finished: true, ..s }
            } else {
                s
            }
        },
        Event::Complete(outcome) => match s.polling {
            Some(p) => SchedulerState {
                status: s.status.update(p as int, outcome),
                polling: None,
                ..s
            },
            None => s,
        },
    }
}

/// Every event that may happen keeps the scheduler's state valid.
pub proof fn lemma_events_keep_valid(s: SchedulerState, e: Event)
    requires
        valid(s),
        enabled(s, e),
        e is Spawn ==> s.status.len() < usize::MAX,
    ensures
        valid(apply(s, e)),
{
    match e {
        Event::Spawn => {
            let n = s.status.len() as usize;
            assert forall|x: usize| s.queue.push(n).contains(x) implies x < n + 1 by {
                lemma_push_contains(s.queue, n, x);
            }
            assert(!s.queue.contains(n));
            let s2 = apply(s, e);
            assert forall|k: int| 0 <= k < s2.queue.len() implies s2.queue[k] < s2.status.len() by {
                assert(s2.queue.contains(s2.queue[k]));
            }
        },
        Event::Wake(t) => {
            let s2 = apply(s, e);
            assert(s2.queue.no_duplicates());
        },
        Event::Step => {
            if s.queue.len() > 0 {
                lemma_drop_first_contains(s.queue, 0);
            }
        },
        Event::Complete(_) => {},
    }
}

/// Once a task has reported ready it stays ready, and it is never polled
/// again, whatever happens next.
pub proof fn lemma_ready_never_polled(s: SchedulerState, e: Event, t: usize)
    requires
        valid(s),
        enabled(s, e),
        t < s.status.len(),
        s.status[t as int] == TaskStatus::Ready,
    ensures
        apply(s, e).status[t as int] == TaskStatus::Ready,
        step_of(s) != Step::Poll(t),
        apply(s, e).polling != Some(t),
{
}

/// Waking a task, once or any number of times, before or after it has
/// completed, changes no task's status and has the effect of one wake; a
/// wake of a completed task changes nothing at all.
pub proof fn lemma_wake_harmless(s: SchedulerState, t: usize)
    requires
        valid(s),
    ensures
        apply(s, Event::Wake(t)).status == s.status,
        apply(s, Event::Wake(t)).polling == s.polling,
        apply(s, Event::Wake(t)).finished == s.finished,
        apply(apply(s, Event::Wake(t)), Event::Wake(t)) == apply(s, Event::Wake(t)),
        t < s.status.len() && s.status[t as int] == TaskStatus::Ready ==> apply(
            s,
            Event::Wake(t),
        ) == s,
{
    lemma_push_contains(s.queue, t, t);
}

/// The run loop never waits while a task is queued, ends exactly when every
/// task has completed, shortens the queue with each step it takes from it,
/// and loses no wake of a pending task.
pub proof fn lemma_progress(s: SchedulerState, t: usize)
    requires
        valid(s),
        s.polling is None,
    ensures
        step_of(s) == Step::Finished <==> s.queue.len() == 0 && all_ready(s),
        step_of(s) == Step::Idle <==> s.queue.len() == 0 && !all_ready(s),
        s.queue.len() > 0 ==> step_of(s) == Step::Poll(s.queue[0]) || step_of(s) == Step::Skip(
            s.queue[0],
        ),
        s.queue.len() > 0 ==> apply(s, Event::Step).queue.len() == s.queue.len() - 1,
        t < s.status.len() && s.status[t as int] == TaskStatus::Pending ==> apply(
            s,
            Event::Wake(t),
        ).queue.contains(t),
{
    lemma_push_contains(s.queue, t, t);
}

/// Every pending task is waiting in the queue: none depends on a wake yet
/// to come.
pub open spec fn pending_are_queued(s: SchedulerState) -> bool {
    forall|i: usize|
        i < s.status.len() && s.status[i as int] == TaskStatus::Pending ==> s.queue.contains(i)
}

/// Every queued task is still pending.
pub open spec fn queued_are_pending(s: SchedulerState) -> bool {
    forall|k: int| 0 <= k < s.queue.len() ==> s.status[s.queue[k] as int] == TaskStatus::Pending
}

/// One round of the run loop, where `need[t]` is the number of polls task
/// `t` still needs: at its last one the computation reports ready; before
/// that it invokes its own waker and reports pending.
pub open spec fn round(s: SchedulerState, need: Seq<nat>) -> (SchedulerState, Seq<nat>) {
    match step_of(s) {
        Step::Poll(t) => if need[t as int] <= 1 {
            (
                apply(apply(s, Event::Step), Event::Complete(TaskStatus::Ready)),
                need.update(t as int, 0),
            )
        } else {
            (
                apply(
                    apply(apply(s, Event::Step), Event::Wake(t)),
                    Event::Complete(TaskStatus::Pending),
                ),
                need.update(t as int, (need[t as int] - 1) as nat),
            )
        },
        _ => (apply(s, Event::Step), need),
    }
}

/// The state after `n` rounds.
pub open spec fn rounds(s: SchedulerState, need: Seq<nat>, n: nat) -> SchedulerState
    decreases n,
{
    if n == 0 {
        s
    } else {
        rounds(round(s, need).0, round(s, need).1, (n - 1) as nat)
    }
}

/// The polls that the pending tasks among the first `n` still need.
pub open spec fn polls_needed(status: Seq<TaskStatus>, need: Seq<nat>, n: int) -> nat
    decreases n,
{
    if n <= 0 {
        0
    } else {
        polls_needed(status, need, n - 1) + if status[n - 1] == TaskStatus::Pending {
            need[n - 1]
        } else {
            0
        }
    }
}

proof fn lemma_polls_needed_at_least(status: Seq<TaskStatus>, need: Seq<nat>, n: int, t: int)
    requires
        0 <= t < n,
        status[t] == TaskStatus::Pending,
    ensures
        polls_needed(status, need, n) >= need[t],
    decreases n,
{
    if t < n - 1 {
        lemma_polls_needed_at_least(status, need, n - 1, t);
    }
}

proof fn lemma_polls_needed_zero(status: Seq<TaskStatus>, need: Seq<nat>, n: int)
    requires
        0 <= n <= status.len(),
        forall|i: int| 0 <= i < n && status[i] == TaskStatus::Pending ==> need[i] >= 1,
        polls_needed(status, need, n) == 0,
    ensures
        forall|i: int| 0 <= i < n ==> status[i] == TaskStatus::Ready,
{
    assert forall|i: int| 0 <= i < n implies status[i] == TaskStatus::Ready by {
        if status[i] == TaskStatus::Pending {
            lemma_polls_needed_at_least(status, need, n, i);
        }
    }
}

proof fn lemma_polls_needed_update(
    status: Seq<TaskStatus>,
    need: Seq<nat>,
    status2: Seq<TaskStatus>,
    need2: Seq<nat>,
    n: int,
    t: int,
)
    requires
        0 <= t < n,
        forall|i: int| 0 <= i < n && i != t ==> status2[i] == status[i] && need2[i] == need[i],
    ensures
        polls_needed(status2, need2, n) + (if status[t] == TaskStatus::Pending {
            need[t]
        } else {
            0
        }) == polls_needed(status, need, n) + (if status2[t] == TaskStatus::Pending {
            need2[t]
        } else {
            0
        }),
    decreases n,
{
    if t < n - 1 {
        lemma_polls_needed_update(status, need, status2, need2, n - 1, t);
    } else {
        lemma_polls_needed_same(status, need, status2, need2, n - 1);
    }
}

proof fn lemma_polls_needed_same(
    status: Seq<TaskStatus>,
    need: Seq<nat>,
    status2: Seq<TaskStatus>,
    need2: Seq<nat>,
    n: int,
)
    requires
        forall|i: int| 0 <= i < n ==> status2[i] == status[i] && need2[i] == need[i],
    ensures
        polls_needed(status2, need2, n) == polls_needed(status, need, n),
    decreases n,
{
    if n > 0 {
        lemma_polls_needed_same(status, need, status2, need2, n - 1);
    }
}

/// Progress: when every pending task is queued, and each computation, until
/// the poll at which it reports ready, invokes its own waker when it reports
/// pending, the run is over after one round per poll needed and one more,
/// with every task completed.
pub proof fn lemma_run_finishes(s: SchedulerState, need: Seq<nat>)
    requires
        valid(s),
        s.polling is None,
        pending_are_queued(s),
        queued_are_pending(s),
        need.len() == s.status.len(),
        forall|i: int|
            0 <= i < s.status.len() && s.status[i] == TaskStatus::Pending ==> need[i] >= 1,
    ensures
        rounds(s, need, polls_needed(s.status, need, s.status.len() as int) + 1).finished,
        all_ready(rounds(s, need, polls_needed(s.status, need, s.status.len() as int) + 1)),
        rounds(s, need, polls_needed(s.status, need, s.status.len() as int) + 1).status.len()
            == s.status.len(),
    decreases polls_needed(s.status, need, s.status.len() as int),
{
    let n = s.status.len() as int;
    let total = polls_needed(s.status, need, n);
    if total == 0 {
        lemma_polls_needed_zero(s.status, need, n);
        if s.queue.len() > 0 {
            assert(s.status[s.queue[0] as int] == TaskStatus::Pending);
        }
        assert(rounds(s, need, 1) == rounds(round(s, need).0, round(s, need).1, 0));
    } else {
        if s.queue.len() == 0 {
            assert(all_ready(s)) by {
                assert forall|i: int| 0 <= i < n implies s.status[i] == TaskStatus::Ready by {
                    if s.status[i] == TaskStatus::Pending {
                        assert(s.queue.contains(i as usize));
                    }
                }
            }
            lemma_polls_needed_zero_of_ready(s.status, need, n);
        }
        let t = s.queue[0];
        assert(s.status[t as int] == TaskStatus::Pending);
        let (s1, need1) = round(s, need);
        assert forall|x: usize| s.queue.drop_first().contains(x) <==> s.queue.contains(x) && x
            != t by {
            lemma_drop_first_contains(s.queue, x);
        }
        assert(s.queue.drop_first().no_duplicates()) by {
            lemma_drop_first_contains(s.queue, t);
        }
        if need[t as int] <= 1 {
            assert(s1.queue == s.queue.drop_first());
            assert(s1.status == s.status.update(t as int, TaskStatus::Ready));
        } else {
            assert(s1.queue == s.queue.drop_first().push(t));
            assert(s1.status == s.status);
            assert forall|x: usize| s1.queue.contains(x) <==> s.queue.contains(x) by {
                lemma_push_contains(s.queue.drop_first(), t, x);
            }
        }
        lemma_polls_needed_update(s.status, need, s1.status, need1, n, t as int);
        assert(valid(s1)) by {
            assert forall|k: int| 0 <= k < s1.queue.len() implies s1.queue[k] < s1.status.len() by {
                assert(s1.queue.contains(s1.queue[k]));
                assert(s.queue.contains(s1.queue[k]));
            }
        }
        assert(pending_are_queued(s1)) by {
            assert forall|i: usize|
                i < s1.status.len() && s1.status[i as int] == TaskStatus::Pending implies s1.queue.contains(
                i,
            ) by {
                assert(s.status[i as int] == TaskStatus::Pending);
                assert(s.queue.contains(i));
            }
        }
        assert(queued_are_pending(s1)) by {
            assert forall|k: int| 0 <= k < s1.queue.len() implies s1.status[s1.queue[k] as int]
                == TaskStatus::Pending by {
                let x = s1.queue[k];
                assert(s1.queue.contains(x));
                assert(s.queue.contains(x));
                let j = choose|j: int| 0 <= j < s.queue.len() && s.queue[j] == x;
                assert(s.status[x as int] == TaskStatus::Pending);
            }
        }
        lemma_run_finishes(s1, need1);
        assert(rounds(s, need, total + 1) == rounds(s1, need1, total));
    }
}

proof fn lemma_polls_needed_zero_of_ready(status: Seq<TaskStatus>, need: Seq<nat>, n: int)
    requires
        forall|i: int| 0 <= i < n ==> status[i] == TaskStatus::Ready,
    ensures
        polls_needed(status, need, n) == 0,
    decreases n,
{
    if n > 0 {
        lemma_polls_needed_zero_of_ready(status, need, n - 1);
    }
}

/// A poll that reports ready completes exactly the polled task, which was
/// pending until then: each task's output is observed once.
pub proof fn lemma_completion_once(s: SchedulerState, p: usize)
    requires
        valid(s),
        s.polling == Some(p),
    ensures
        s.status[p as int] == TaskStatus::Pending,
        apply(s, Event::Complete(TaskStatus::Ready)).status == s.status.update(
            p as int,
            TaskStatus::Ready,
        ),
        apply(s, Event::Complete(TaskStatus::Ready)).polling is None,
{
}

/// The queue is first in, first out: of two queued tasks, the one nearer
/// the front is taken first, and no event reorders them.
pub proof fn lemma_fifo(s: SchedulerState, e: Event, i: int, j: int)
    requires
        valid(s),
        enabled(s, e),
        0 <= i < j < s.queue.len(),
    ensures
        step_of(s) != Step::Poll(s.queue[j]),
        step_of(s) != Step::Skip(s.queue[j]),
        e is Step && i == 0 ==> step_of(s) == Step::Poll(s.queue[i]) || step_of(s) == Step::Skip(
            s.queue[i],
        ),
        e is Step && i > 0 ==> apply(s, e).queue[i - 1] == s.queue[i] && apply(s, e).queue[j - 1]
            == s.queue[j],
        !(e is Step) ==> apply(s, e).queue[i] == s.queue[i] && apply(s, e).queue[j] == s.queue[j],
{
}

/// Tasks spawned one after the other join the back of the queue in the
/// order of spawning.
pub proof fn lemma_spawn_order(s: SchedulerState)
    requires
        valid(s),
        !s.finished,
        s.status.len() + 1 < usize::MAX,
    ensures
        apply(apply(s, Event::Spawn), Event::Spawn).queue == s.queue + seq![
            s.status.len() as usize,
            (s.status.len() + 1) as usize,
        ],
{
    assert(apply(apply(s, Event::Spawn), Event::Spawn).queue =~= s.queue + seq![
        s.status.len() as usize,
        (s.status.len() + 1) as usize,
    ]);
}

proof fn lemma_push_contains(q: Seq<usize>, v: usize, x: usize)
    ensures
        q.push(v).contains(x) <==> q.contains(x) || x == v,
{
    if q.contains(x) {
        let k = choose|k: int| 0 <= k < q.len() && q[k] == x;
        assert(q.push(v)[k] == x);
    }
    assert(q.push(v)[q.len() as int] == v);
    if q.push(v).contains(x) && x != v {
        let k = choose|k: int| 0 <= k < q.len() + 1 && q.push(v)[k] == x;
        assert(q[k] == x);
    }
}

proof fn lemma_drop_first_contains(q: Seq<usize>, x: usize)
    requires
        q.len() > 0,
        q.no_duplicates(),
    ensures
        q.drop_first().contains(x) <==> q.contains(x) && x != q[0],
        q.drop_first().no_duplicates(),
{
    if q.contains(x) && x != q[0] {
        let k = choose|k: int| 0 <= k < q.len() && q[k] == x;
        assert(q.drop_first()[k - 1] == x);
    }
    if q.drop_first().contains(x) {
        let k = choose|k: int| 0 <= k < q.len() - 1 && q.drop_first()[k] == x;
        assert(q[k + 1] == x);
    }
}

/// The scheduler: task statuses and the intake queue of tasks to poll.
pub struct Scheduler {
    status: Vec<TaskStatus>,
    queued: Vec<bool>,
    queue: VecDeque<usize>,
    polling: Option<usize>,
    finished: bool,
}

impl View for Scheduler {
    type V = SchedulerState;

    closed spec fn view(&self) -> SchedulerState {
        SchedulerState {
            status: self.status@,
            queue: self.queue@,
            polling: self.polling,
            finished: self.finished,
        }
    }
}

impl Scheduler {
    /// The scheduler's state is valid and its queue index agrees with the queue.
    pub closed spec fn wf(&self) -> bool {
        &&& valid(self@)
        &&& self.queued@.len() == self.status@.len()
        &&& forall|i: usize|
            i < self.queued@.len() ==> self.queued@[i as int] == self.queue@.contains(i)
    }

    pub proof fn lemma_wf_valid(&self)
        requires
            self.wf(),
        ensures
            valid(self@),
    {
    }

    /// A scheduler with no tasks.
    pub fn new() -> (r: Scheduler)
        ensures
            r.wf(),
            r@ == (SchedulerState {
                status: Seq::empty(),
                queue: Seq::empty(),
                polling: None,
                finished: false,
            }),
    {
        Scheduler {
            status: Vec::new(),
            queued: Vec::new(),
            queue: VecDeque::new(),
            polling: None,
            finished: false,
        }
    }

    /// Adds a new pending task at the back of the queue and returns its index.
    pub fn spawn(&mut self) -> (id: usize)
        requires
            old(self).wf(),
            !old(self)@.finished,
            old(self)@.status.len() < usize::MAX,
        ensures
            final(self).wf(),
            id == old(self)@.status.len(),
            final(self)@ == apply(old(self)@, Event::Spawn),
    {
        let id = self.status.len();
        proof {
            assert(!self.queue@.contains(id));
        }
        self.status.push(TaskStatus::Pending);
        self.queued.push(true);
        self.queue.push_back(id);
        proof {
            assert forall|i: usize| i < self.queued@.len() implies self.queued@[i as int]
                == self.queue@.contains(i) by {
                lemma_push_contains(old(self).queue@, id, i);
            }
        }
        id
    }

    /// Marks task `id` runnable: it joins the back of the queue unless it
    /// has completed, is already queued, or does not exist.
    pub fn wake(&mut self, id: usize)
        requires
            old(self).wf(),
        ensures
            final(self).wf(),
            final(self)@ == apply(old(self)@, Event::Wake(id)),
    {
        if id < self.status.len() && self.status[id] == TaskStatus::Pending && !self.queued[id] {
            self.queued.set(id, true);
            self.queue.push_back(id);
            proof {
                assert forall|i: usize| i < self.queued@.len() implies self.queued@[i as int]
                    == self.queue@.contains(i) by {
                    lemma_push_contains(old(self).queue@, id, i);
                }
            }
        }
    }

    fn has_pending(&self) -> (r: bool)
        ensures
            r == !all_ready(self@),
    {
        let mut i: usize = 0;
        while i < self.status.len()
            invariant
                i <= self.status@.len(),
                forall|j: int| 0 <= j < i ==> self.status@[j] == TaskStatus::Ready,
            decreases self.status@.len() - i,
        {
            if self.status[i] == TaskStatus::Pending {
                return true;
            }
            i += 1;
        }
        false
    }

    /// Takes the next decision of the run loop.
    ///
    /// With a non-empty queue, the front task leaves it: a pending one is to
    /// be polled, a completed one is skipped. With an empty queue, the run is
    /// over once every task has completed; until then it waits for a wake.
    pub fn next_step(&mut self) -> (r: Step)
        requires
            old(self).wf(),
            old(self)@.polling is None,
        ensures
            final(self).wf(),
            r == step_of(old(self)@),
            final(self)@ == apply(old(self)@, Event::Step),
    {
        match self.queue.pop_front() {
            Some(t) => {
                self.queued.set(t, false);
                proof {
                    assert forall|i: usize| i < self.queued@.len() implies self.queued@[i as int]
                        == self.queue@.contains(i) by {
                        lemma_drop_first_contains(old(self).queue@, i);
                    }
                }
                if self.status[t] == TaskStatus::Ready {
                    Step::Skip(t)
                } else {
                    self.polling = Some(t);
                    Step::Poll(t)
                }
            },
            None => {
                if self.has_pending() {
                    Step::Idle
                } else {
                    self.finished = true;
                    Step::Finished
                }
            },
        }
    }

    /// Records the outcome of the poll in progress. A ready task is never
    /// polled again.
    pub fn complete_poll(&mut self, outcome: TaskStatus)
        requires
            old(self).wf(),
            old(self)@.polling is Some,
        ensures
            final(self).wf(),
            final(self)@ == apply(old(self)@, Event::Complete(outcome)),
    {
        if let Some(p) = self.polling {
            self.status.set(p, outcome);
            self.polling = None;
        }
    }

    /// The number of tasks spawned so far.
    pub fn task_count(&self) -> (r: usize)
        ensures
            r == self@.status.len(),
    {
        self.status.len()
    }

    /// The status of task `id`, if it exists.
    pub fn status(&self, id: usize) -> (r: Option<TaskStatus>)
        ensures
            id < self@.status.len() ==> r == Some(self@.status[id as int]),
            id >= self@.status.len() ==> r is None,
    {
        if id < self.status.len() {
            Some(self.status[id])
        } else {
            None
        }
    }

    /// The number of tasks waiting in the queue.
    pub fn queue_len(&self) -> (r: usize)
        ensures
            r == self@.queue.len(),
    {
        self.queue.len()
    }

    /// The task whose poll is in progress, if any.
    pub fn polling(&self) -> (r: Option<usize>)
        ensures
            r == self@.polling,
    {
        self.polling
    }

    /// Whether the run is over.
    pub fn is_finished(&self) -> (r: bool)
        ensures
            r == self@.finished,
    {
        self.finished
    }
}

} // verus!
