//! The dispatch actor: the single decision-maker over the shared inference
//! resource and the set of outstanding worker-pool jobs.
//!
//! The actor is a state machine. Its surrounding runtime wakes it with one
//! [`Event`] at a time — a request arrival, the end of the in-flight resource
//! construction, the end of a worker job, or the idle timer — and performs
//! the [`Action`]s the step returns. Because one single-threaded loop owns
//! the state, the resource lifecycle needs no further locking.
//!
//! The step function guarantees the lifecycle rules: construction is
//! single-flight (it starts only on the `absent` to `loading` transition,
//! and requests arriving while `loading` join the same wait), a construction
//! failure is reported only to the waiting requests and is not cached, and
//! the idle timer evicts the resource only while it is `ready` with no
//! outstanding work.

use vstd::prelude::*;

verus! {

/// The lifecycle phase of the shared resource.
#[derive(Clone, Copy, Debug, PartialEq, Eq, Structural)]
pub enum Phase {
    /// No resource is held; the next request triggers construction.
    Absent,
    /// One construction is in flight; requests queue up behind it.
    Loading,
    /// The resource is built and shared read-only with worker jobs.
    Ready,
}

/// One wake-up of the actor.
#[derive(Clone, Copy, Debug, PartialEq, Eq, Structural)]
pub enum Event {
    /// A request arrived on the inbound queue, named by a caller-chosen id.
    Arrive { req: u64 },
    /// The in-flight resource construction finished.
    LoadDone { ok: bool },
    /// A worker-pool job finished; its result went straight to its request.
    TaskDone { task: u64 },
    /// The idle timer expired while the actor had nothing else to do.
    IdleExpired,
}

/// One instruction to the surrounding runtime.
#[derive(Clone, Copy, Debug, PartialEq, Eq, Structural)]
pub enum Action {
    /// Begin constructing the resource on a dedicated context.
    StartLoad,
    /// Run one worker-pool job for this request; `cold` records whether the
    /// request had to wait for a resource construction.
    Submit { req: u64, task: u64, cold: bool },
    /// Tell this request that resource construction failed.
    Reject { req: u64 },
    /// Drop the resource handle, reclaiming the memory it holds.
    Evict,
}

/// The mathematical state of the actor.
pub struct DispatchModel {
    pub phase: Phase,
    /// Requests awaiting the in-flight construction, in arrival order.
    pub pending: Seq<u64>,
    /// Ids of the worker-pool jobs still executing: the active task set.
    pub active: Seq<u64>,
    /// The id the next submitted job will get.
    pub next_task: u64,
}

impl DispatchModel {
    /// Pending requests exist only while loading; job ids are distinct and
    /// below the id counter.
    pub open spec fn wf(self) -> bool {
        &&& (self.phase != Phase::Loading ==> self.pending.len() == 0)
        &&& (forall|i: int| 0 <= i < self.active.len() ==> #[trigger] self.active[i] < self.next_task)
        &&& (forall|i: int, j: int|
            0 <= i < j < self.active.len() ==> self.active[i] != self.active[j])
    }

    /// Which events the runtime may deliver in this state: construction ends
    /// only while one is in flight, and only running jobs finish.
    pub open spec fn enabled(self, e: Event) -> bool {
        match e {
            Event::LoadDone { ok } => self.phase == Phase::Loading,
            Event::TaskDone { task } => self.active.contains(task),
            _ => true,
        }
    }
}

/// The job ids `next_task .. next_task + count`.
pub open spec fn new_tasks(next_task: u64, count: int) -> Seq<u64> {
    Seq::new(count as nat, |i: int| (next_task + i) as u64)
}

/// One cold-start submission per waiting request, in arrival order.
pub open spec fn submit_actions(pending: Seq<u64>, next_task: u64) -> Seq<Action> {
    Seq::new(
        pending.len(),
        |i: int| (Action::Submit { req: pending[i], task: (next_task + i) as u64, cold: true }),
    )
}

/// One construction-failure reply per waiting request, in arrival order.
pub open spec fn reject_actions(pending: Seq<u64>) -> Seq<Action> {
    pending.map_values(|r: u64| (Action::Reject { req: r }))
}

/// The active set with one finished job removed.
pub open spec fn remove_task(active: Seq<u64>, task: u64) -> Seq<u64> {
    if active.contains(task) {
        active.remove(choose|i: int| 0 <= i < active.len() && active[i] == task)
    } else {
        active
    }
}

/// What one actor step does: the successor state and the actions handed to
/// the runtime.
pub open spec fn spec_step(m: DispatchModel, e: Event) -> (DispatchModel, Seq<Action>) {
    match e {
        Event::Arrive { req } => match m.phase {
            Phase::Absent => (
                (DispatchModel { phase: Phase::Loading, pending: seq![req], ..m }),
                seq![Action::StartLoad],
            ),
            Phase::Loading => ((DispatchModel { pending: m.pending.push(req), ..m }), Seq::empty()),
            Phase::Ready => (
                (DispatchModel {
                    active: m.active.push(m.next_task),
                    next_task: (m.next_task + 1) as u64,
                    ..m
                }),
                seq![(Action::Submit { req, task: m.next_task, cold: false })],
            ),
        },
        Event::LoadDone { ok } => if ok {
            (
                (DispatchModel {
                    phase: Phase::Ready,
                    pending: Seq::empty(),
                    active: m.active + new_tasks(m.next_task, m.pending.len() as int),
                    next_task: (m.next_task + m.pending.len()) as u64,
                }),
                submit_actions(m.pending, m.next_task),
            )
        } else {
            (
                (DispatchModel { phase: Phase::Absent, pending: Seq::empty(), ..m }),
                reject_actions(m.pending),
            )
        },
        Event::TaskDone { task } => (
            (DispatchModel { active: remove_task(m.active, task), ..m }),
            Seq::empty(),
        ),
        Event::IdleExpired => if m.phase == Phase::Ready && m.active.len() == 0 {
            ((DispatchModel { phase: Phase::Absent, ..m }), seq![Action::Evict])
        } else {
            (m, Seq::empty())
        },
    }
}

/// Every enabled step keeps the actor well formed.
pub proof fn lemma_step_preserves_wf(m: DispatchModel, e: Event)
    requires
        m.wf(),
        m.enabled(e),
        m.next_task + m.pending.len() < u64::MAX,
    ensures
        spec_step(m, e).0.wf(),
{
    let (m1, _) = spec_step(m, e);
    match e {
        Event::LoadDone { ok } => {
            if ok {
                let fresh = new_tasks(m.next_task, m.pending.len() as int);
                assert forall|i: int| 0 <= i < m1.active.len() implies #[trigger] m1.active[i]
                    < m1.next_task by {
                    if i < m.active.len() {
                        assert(m1.active[i] == m.active[i]);
                    } else {
                        assert(m1.active[i] == fresh[i - m.active.len()]);
                    }
                }
                assert forall|i: int, j: int| 0 <= i < j < m1.active.len() implies m1.active[i]
                    != m1.active[j] by {
                    if j < m.active.len() {
                    } else if i < m.active.len() {
                        assert(m1.active[i] == m.active[i]);
                        assert(m1.active[j] == fresh[j - m.active.len()]);
                    } else {
                        assert(m1.active[i] == fresh[i - m.active.len()]);
                        assert(m1.active[j] == fresh[j - m.active.len()]);
                    }
                }
            }
        },
        Event::TaskDone { task } => {
            let k = choose|i: int| 0 <= i < m.active.len() && m.active[i] == task;
            assert forall|i: int, j: int| 0 <= i < j < m1.active.len() implies m1.active[i]
                != m1.active[j] by {
                assert(m1.active[i] == if i < k {
                    m.active[i]
                } else {
                    m.active[i + 1]
                });
                assert(m1.active[j] == if j < k {
                    m.active[j]
                } else {
                    m.active[j + 1]
                });
            }
        },
        _ => {},
    }
}

/// The arrival events of a sequence of requests, in order.
pub open spec fn arrive_events(reqs: Seq<u64>) -> Seq<Event> {
    reqs.map_values(|r: u64| (Event::Arrive { req: r }))
}

/// The actor run over a sequence of events: the final state and all actions
/// in the order they were returned.
pub open spec fn spec_run(m: DispatchModel, events: Seq<Event>) -> (DispatchModel, Seq<Action>)
    decreases events.len(),
{
    if events.len() == 0 {
        (m, Seq::empty())
    } else {
        let first = spec_step(m, events[0]);
        let rest = spec_run(first.0, events.drop_first());
        (rest.0, first.1 + rest.1)
    }
}

proof fn lemma_arrivals_while_loading(m: DispatchModel, reqs: Seq<u64>)
    requires
        m.phase == Phase::Loading,
    ensures
        spec_run(m, arrive_events(reqs)).0 == (DispatchModel {
            pending: m.pending + reqs,
            ..m
        }),
        spec_run(m, arrive_events(reqs)).1 == Seq::<Action>::empty(),
    decreases reqs.len(),
{
    let events = arrive_events(reqs);
    if reqs.len() == 0 {
        assert(m.pending + reqs =~= m.pending);
        assert(spec_run(m, events).0 =~~= (DispatchModel { pending: m.pending + reqs, ..m }));
    } else {
        let (m1, a1) = spec_step(m, events[0]);
        assert(m1 == (DispatchModel { pending: m.pending.push(reqs[0]), ..m }));
        assert(events.drop_first() =~= arrive_events(reqs.drop_first()));
        lemma_arrivals_while_loading(m1, reqs.drop_first());
        assert(m1.pending + reqs.drop_first() =~= m.pending + reqs);
        assert(spec_run(m, events).1 =~= Seq::<Action>::empty());
    }
}

/// Single-flight construction: any number of requests arriving while the
/// resource is absent trigger exactly one construction attempt — the first
/// arrival's — and every one of them is answered by the one outcome of that
/// attempt: on success each waiting request gets its own cold-start
/// submission, on failure each gets a rejection, in arrival order either way.
pub proof fn lemma_single_flight(m: DispatchModel, reqs: Seq<u64>, ok: bool)
    requires
        m.wf(),
        m.phase == Phase::Absent,
        reqs.len() >= 1,
    ensures
        ({
            let (m1, first_actions) = spec_run(m, arrive_events(reqs));
            let (m2, outcome_actions) = spec_step(m1, Event::LoadDone { ok });
            &&& first_actions == seq![Action::StartLoad]
            &&& m1.phase == Phase::Loading
            &&& m1.pending == reqs
            &&& outcome_actions.len() == reqs.len()
            &&& (ok ==> m2.phase == Phase::Ready && (forall|k: int|
                0 <= k < reqs.len() ==> outcome_actions[k] == (Action::Submit {
                    req: reqs[k],
                    task: (m1.next_task + k) as u64,
                    cold: true,
                })))
            &&& (!ok ==> m2.phase == Phase::Absent && m2.pending.len() == 0 && (forall|k: int|
                0 <= k < reqs.len() ==> outcome_actions[k] == (Action::Reject { req: reqs[k] })))
        }),
{
    let events = arrive_events(reqs);
    let (ma, aa) = spec_step(m, events[0]);
    assert(ma.phase == Phase::Loading);
    assert(events.drop_first() =~= arrive_events(reqs.drop_first()));
    lemma_arrivals_while_loading(ma, reqs.drop_first());
    let (m1, first_actions) = spec_run(m, events);
    assert(m1.pending =~= reqs);
    assert(first_actions =~= seq![Action::StartLoad]);
}

/// After the idle timer fires with no outstanding work, the resource is
/// evicted; the next request then triggers a fresh construction and, once it
/// succeeds, is submitted as a cold start.
pub proof fn lemma_idle_eviction_then_cold_start(m: DispatchModel, req: u64)
    requires
        m.wf(),
        m.phase == Phase::Ready,
        m.active.len() == 0,
        m.next_task < u64::MAX,
    ensures
        ({
            let (evicted, evict_actions) = spec_step(m, Event::IdleExpired);
            let (loading, load_actions) = spec_step(evicted, (Event::Arrive { req }));
            let (warm, submit_acts) = spec_step(loading, (Event::LoadDone { ok: true }));
            &&& evicted.phase == Phase::Absent
            &&& evict_actions == seq![Action::Evict]
            &&& loading.phase == Phase::Loading
            &&& load_actions == seq![Action::StartLoad]
            &&& warm.phase == Phase::Ready
            &&& submit_acts == seq![
                (Action::Submit { req, task: loading.next_task, cold: true }),
            ]
        }),
{
    let (evicted, evict_actions) = spec_step(m, Event::IdleExpired);
    let (loading, load_actions) = spec_step(evicted, (Event::Arrive { req }));
    let (warm, submit_acts) = spec_step(loading, (Event::LoadDone { ok: true }));
    assert(submit_acts =~= seq![(Action::Submit { req, task: loading.next_task, cold: true })]);
}

/// The idle timer never evicts while jobs are outstanding, nor when no
/// resource is held: the state stands and nothing is done.
pub proof fn lemma_no_evict_while_active(m: DispatchModel)
    requires
        m.phase != Phase::Ready || m.active.len() > 0,
    ensures
        spec_step(m, Event::IdleExpired).0 == m,
        spec_step(m, Event::IdleExpired).1 == Seq::<Action>::empty(),
{
}

/// The dispatch actor's state, as the surrounding runtime owns it.
pub struct Dispatcher {
    phase: Phase,
    pending: Vec<u64>,
    active: Vec<u64>,
    next_task: u64,
}

impl View for Dispatcher {
    type V = DispatchModel;

    closed spec fn view(&self) -> DispatchModel {
        DispatchModel {
            phase: self.phase,
            pending: self.pending@,
            active: self.active@,
            next_task: self.next_task,
        }
    }
}

impl Dispatcher {
    pub open spec fn wf(&self) -> bool {
        self@.wf()
    }

    /// A fresh actor: no resource, no waiting requests, no running jobs.
    pub fn new() -> (d: Dispatcher)
        ensures
            d.wf(),
            d@.phase == Phase::Absent,
            d@.pending == Seq::<u64>::empty(),
            d@.active == Seq::<u64>::empty(),
    {
        Dispatcher { phase: Phase::Absent, pending: Vec::new(), active: Vec::new(), next_task: 0 }
    }

    /// The current lifecycle phase of the resource.
    pub fn phase(&self) -> (p: Phase)
        ensures
            p == self@.phase,
    {
        self.phase
    }

    /// How many worker-pool jobs are still executing.
    pub fn active_count(&self) -> (n: usize)
        ensures
            n == self@.active.len(),
    {
        self.active.len()
    }

    /// How many requests are waiting on the in-flight construction.
    pub fn pending_count(&self) -> (n: usize)
        ensures
            n == self@.pending.len(),
    {
        self.pending.len()
    }

    /// Whether this job id is in the active task set.
    pub fn is_active(&self, task: u64) -> (r: bool)
        ensures
            r == self@.active.contains(task),
    {
        let n = self.active.len();
        let mut i: usize = 0;
        while i < n
            invariant
                i <= n,
                n == self.active@.len(),
                forall|k: int| 0 <= k < i ==> #[trigger] self.active@[k] != task,
            decreases n - i,
        {
            if self.active[i] == task {
                return true;
            }
            i += 1;
        }
        false
    }

    /// Whether another step surely fits in the job-id counter. False only
    /// after nearly `u64::MAX` submissions.
    pub fn can_step(&self) -> (ok: bool)
        ensures
            ok == (self@.next_task + self@.pending.len() < u64::MAX),
    {
        let pending = self.pending.len();
        self.next_task < u64::MAX - (pending as u64)
    }

    /// Performs one decision step: consumes an event, updates the state, and
    /// returns the actions for the runtime to carry out, exactly as
    /// [`spec_step`] says.
    pub fn step(&mut self, event: Event) -> (actions: Vec<Action>)
        requires
            old(self).wf(),
            old(self)@.enabled(event),
            old(self)@.next_task + old(self)@.pending.len() < u64::MAX,
        ensures
            final(self).wf(),
            final(self)@ == spec_step(old(self)@, event).0,
            actions@ == spec_step(old(self)@, event).1,
    {
        proof {
            lemma_step_preserves_wf(old(self)@, event);
        }
        let mut actions: Vec<Action> = Vec::new();
        match event {
            Event::Arrive { req } => {
                match self.phase {
                    Phase::Absent => {
                        self.phase = Phase::Loading;
                        self.pending.push(req);
                        actions.push(Action::StartLoad);
                        proof {
                            assert(self.pending@ =~= seq![req]);
                            assert(actions@ =~= seq![Action::StartLoad]);
                        }
                    },
                    Phase::Loading => {
                        self.pending.push(req);
                    },
                    Phase::Ready => {
                        let task = self.next_task;
                        self.active.push(task);
                        self.next_task = self.next_task + 1;
                        actions.push(Action::Submit { req, task, cold: false });
                        proof {
                            assert(actions@ =~= seq![
                                (Action::Submit { req, task, cold: false }),
                            ]);
                        }
                    },
                }
            },
            Event::LoadDone { ok } => {
                let ghost pending0 = self.pending@;
                let ghost task0 = self.next_task;
                let ghost active0 = self.active@;
                if ok {
                    self.phase = Phase::Ready;
                    let n = self.pending.len();
                    let mut i: usize = 0;
                    while i < n
                        invariant
                            i <= n,
                            n == self.pending@.len(),
                            self.pending@ == pending0,
                            self.phase == Phase::Ready,
                            task0 + n < u64::MAX,
                            self.next_task == task0 + i,
                            self.active@ == active0 + new_tasks(task0, i as int),
                            actions@ == submit_actions(pending0, task0).take(i as int),
                        decreases n - i,
                    {
                        let req = self.pending[i];
                        let task = self.next_task;
                        self.active.push(task);
                        self.next_task = self.next_task + 1;
                        actions.push(Action::Submit { req, task, cold: true });
                        proof {
                            assert(self.active@ =~= active0 + new_tasks(task0, i + 1 as int));
                            assert(actions@ =~= submit_actions(pending0, task0).take(i + 1 as int));
                        }
                        i += 1;
                    }
                    self.pending.clear();
                    proof {
                        assert(actions@ =~= submit_actions(pending0, task0));
                        assert(self.active@ =~= active0 + new_tasks(
                            task0,
                            pending0.len() as int,
                        ));
                    }
                } else {
                    self.phase = Phase::Absent;
                    let n = self.pending.len();
                    let mut i: usize = 0;
                    while i < n
                        invariant
                            i <= n,
                            n == self.pending@.len(),
                            self.pending@ == pending0,
                            actions@ == reject_actions(pending0).take(i as int),
                        decreases n - i,
                    {
                        let req = self.pending[i];
                        actions.push(Action::Reject { req });
                        proof {
                            assert(actions@ =~= reject_actions(pending0).take(i + 1 as int));
                        }
                        i += 1;
                    }
                    self.pending.clear();
                    proof {
                        assert(actions@ =~= reject_actions(pending0));
                    }
                }
            },
            Event::TaskDone { task } => {
                let ghost active0 = self.active@;
                let n = self.active.len();
                let mut idx: usize = 0;
                while idx < n && self.active[idx] != task
                    invariant
                        idx <= n,
                        n == self.active@.len(),
                        self.active@ == active0,
                        forall|k: int| 0 <= k < idx ==> #[trigger] self.active@[k] != task,
                    decreases n - idx,
                {
                    idx += 1;
                }
                proof {
                    let w = choose|i: int| 0 <= i < active0.len() && active0[i] == task;
                    assert(active0[w] == task);
                    assert(idx < n);
                    assert(w == idx as int);
                }
                self.active.remove(idx);
                proof {
                    assert(self.active@ == remove_task(active0, task));
                }
            },
            Event::IdleExpired => {
                if self.active.len() == 0 && self.phase == Phase::Ready {
                    self.phase = Phase::Absent;
                    actions.push(Action::Evict);
                    proof {
                        assert(actions@ =~= seq![Action::Evict]);
                    }
                }
            },
        }
        actions
    }
}

} // verus!
