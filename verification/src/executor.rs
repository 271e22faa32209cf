//! The executor: the task queue, the reactor, and the decisions of the run
//! loop that drives one entry future to completion while background tasks
//! take their turns.
//!
//! Polling a future and blocking on the readiness source are done by the
//! caller. The executor says what to do next, and is told what came of it.

use crate::error::RuntimeError;
use crate::poller::Subscription;
use crate::reactor::{seq_of, wait_outcome, Event, Reactor, Slots};
use crate::task::{Task, TaskQueue};
use std::task::Waker;
use vstd::prelude::*;

verus! {

/// The standard library's handle for waking a task. Nothing is known of
/// what is inside one.
#[verifier::external_type_specification]
#[verifier::external_body]
pub struct ExWaker(std::task::Waker);

/// Calls `futures::task::noop_waker`, which makes a waker whose `wake`
/// does nothing. No property of the waker is claimed.
#[verifier::external_body]
fn noop_waker() -> (waker: Waker) {
    futures::task::noop_waker()
}

/// Where the run loop stands.
#[derive(Clone, Copy, Debug, PartialEq, Eq, Structural)]
pub enum Phase {
    /// No run is under way.
    Idle,
    /// The entry future is being polled.
    Entry,
    /// A background task is being polled.
    Running(Task),
    /// The readiness source is being waited for.
    Polling,
}

/// What came of asking a task to make progress.
#[derive(Clone, Copy, Debug, PartialEq, Eq, Structural)]
pub enum TaskPoll {
    /// The task was polled and is not done.
    Pending,
    /// The task was polled and is done.
    Ready,
    /// The task's poll guard was held, so it was not polled.
    Locked,
}

/// What the caller reports to the run loop.
#[derive(Debug)]
pub enum RunEvent<E> {
    /// A run begins.
    Start,
    /// The entry future was polled; `true` when it is done.
    Entry(bool),
    /// The task that was handed out was asked to make progress.
    Task(TaskPoll),
    /// The readiness source answered.
    Polled(Result<Vec<Event<E>>, E>),
}

/// What the run loop asks of the caller.
#[derive(Debug)]
pub enum RunAction<W, E> {
    /// Invoke the wakers in `wake`, in order, then poll the entry future
    /// once with `waker`, a waker that does nothing, and report
    /// `RunEvent::Entry`. The entry future is looked at again after each
    /// wait, not when a waker is invoked.
    PollEntry { wake: Vec<W>, waker: Waker },
    /// Acquire the poll guard of the task, poll it once with a waker bound
    /// to it, and report `RunEvent::Task`.
    PollTask(Task),
    /// Block on the readiness source with these subscriptions and report
    /// `RunEvent::Polled`.
    Poll(Vec<Subscription>),
    /// The entry future is done: the run ends with its output.
    Finish,
    /// Invoke the wakers in `wake`, in order; the run then ends with
    /// `error`.
    Abort { wake: Vec<W>, error: RuntimeError<E> },
}

/// What can happen to the scheduling state between two answers of the
/// readiness source while the entry future is not polled.
pub ghost enum Move {
    /// A task is woken.
    Wake(Task),
    /// A task is spawned under this handle.
    Spawn(Task),
    /// The task that was handed out reports what came of its poll.
    Report(TaskPoll),
}

/// The scheduling state of an executor.
pub ghost struct RunState {
    /// The tasks that are queued for the current pass over the queue,
    /// oldest first.
    pub queue: Seq<Task>,
    /// The tasks that were woken while a task was being polled, oldest
    /// first. They wait for the pass after the next wait.
    pub later: Seq<Task>,
    /// For each spawned task, by identity: whether it is done.
    pub done: Seq<bool>,
    /// For each spawned task, by identity: how often it was handed out to
    /// be polled.
    pub turns: Seq<nat>,
    /// Where the run loop stands.
    pub phase: Phase,
}

impl RunState {
    /// Whether `task` was spawned here and is done.
    pub open spec fn is_done(self, task: Task) -> bool {
        0 <= task@ < self.done.len() && self.done[task@]
    }

    /// Whether the task with identity `id` is being polled.
    pub open spec fn is_running(self, id: int) -> bool {
        self.phase matches Phase::Running(task) && task@ == id
    }

    /// Whether the task with identity `id` is queued for the current pass.
    pub open spec fn is_queued(self, id: int) -> bool {
        exists|i: int| 0 <= i < self.queue.len() && #[trigger] self.queue[i]@ == id
    }

    /// The queue without the finished tasks at its head.
    pub open spec fn runnable(self) -> Seq<Task>
        decreases self.queue.len(),
    {
        if self.queue.len() > 0 && self.is_done(self.queue[0]) {
            (RunState { queue: self.queue.drop_first(), ..self }).runnable()
        } else {
            self.queue
        }
    }

    /// The state after `task` was woken. A handle that was not given out
    /// here is ignored. While a task is being polled the woken task is
    /// put aside for the pass after the next wait; at any other time it
    /// joins the queue behind all queued tasks.
    pub open spec fn woken(self, task: Task) -> RunState {
        if !(0 <= task@ < self.done.len()) {
            self
        } else if self.phase is Running {
            RunState { later: self.later.push(task), ..self }
        } else {
            RunState { queue: self.queue.push(task), ..self }
        }
    }

    /// The state after a task was spawned under the handle `task`: it
    /// joins the queue of the current pass, at any time.
    pub open spec fn spawned(self, task: Task) -> RunState {
        RunState {
            queue: self.queue.push(task),
            done: self.done.push(false),
            turns: self.turns.push(0),
            ..self
        }
    }

    /// The state after the run loop turned to its next piece of
    /// background work. Finished tasks at the head of the queue are
    /// dropped, and the first task that is not done leaves the queue and
    /// gets its turn. With no such task the pass is over: the tasks that
    /// were woken during it become the queue, and the readiness source is
    /// waited for.
    pub open spec fn advance(self) -> RunState {
        let rest = self.runnable();
        if rest.len() == 0 {
            RunState { queue: self.later, later: Seq::empty(), phase: Phase::Polling, ..self }
        } else {
            RunState {
                queue: rest.drop_first(),
                turns: self.turns.update(rest[0]@, self.turns[rest[0]@] + 1),
                phase: Phase::Running(rest[0]),
                ..self
            }
        }
    }

    /// The state with the task that is being polled marked as done.
    pub open spec fn complete(self) -> RunState {
        match self.phase {
            Phase::Running(task) => RunState { done: self.done.update(task@, true), ..self },
            _ => self,
        }
    }

    /// The state after a pass was cut short: the tasks that were woken
    /// during it join the queue behind those that had no turn yet, and no
    /// run is under way.
    pub open spec fn abandon(self) -> RunState {
        RunState {
            queue: self.queue + self.later,
            later: Seq::empty(),
            phase: Phase::Idle,
            ..self
        }
    }

    /// Whether `event` answers what the run loop asked for last.
    pub open spec fn awaits<E>(self, event: RunEvent<E>) -> bool {
        match event {
            RunEvent::Start => self.phase == Phase::Idle,
            RunEvent::Entry(_) => self.phase == Phase::Entry,
            RunEvent::Task(_) => self.phase is Running,
            RunEvent::Polled(_) => self.phase == Phase::Polling,
        }
    }

    /// The state after `event`, where `delivered` tells whether a wait
    /// dispatched all its events.
    pub open spec fn after<E>(self, event: RunEvent<E>, delivered: bool) -> RunState {
        match event {
            RunEvent::Start => RunState { phase: Phase::Entry, ..self },
            RunEvent::Entry(true) => RunState { phase: Phase::Idle, ..self },
            RunEvent::Entry(false) => self.advance(),
            RunEvent::Task(TaskPoll::Pending) => self.advance(),
            RunEvent::Task(TaskPoll::Ready) => self.complete().advance(),
            RunEvent::Task(TaskPoll::Locked) => self.abandon(),
            RunEvent::Polled(_) => RunState {
                phase: if delivered {
                    Phase::Entry
                } else {
                    Phase::Idle
                },
                ..self
            },
        }
    }

    /// Every queued task was spawned; every spawned task had a turn or is
    /// queued for the current pass; a finished task had a turn.
    pub open spec fn settled(self) -> bool {
        &&& self.turns.len() == self.done.len()
        &&& forall|i: int|
            0 <= i < self.queue.len() ==> 0 <= (#[trigger] self.queue[i])@ < self.done.len()
        &&& forall|i: int|
            0 <= i < self.later.len() ==> 0 <= (#[trigger] self.later[i])@ < self.done.len()
        &&& forall|id: int|
            0 <= id < self.done.len() ==> #[trigger] self.turns[id] >= 1 || self.is_queued(id)
        &&& forall|id: int|
            0 <= id < self.done.len() && #[trigger] self.done[id] ==> self.turns[id] >= 1
    }

    /// The state is settled; a task that is being polled was spawned, had
    /// a turn and is not done; and tasks are put aside only while a task
    /// is being polled.
    pub open spec fn wf(self) -> bool {
        &&& self.settled()
        &&& self.phase matches Phase::Running(task) ==> 0 <= task@ < self.done.len()
            && !self.done[task@] && self.turns[task@] >= 1
        &&& !(self.phase is Running) ==> self.later.len() == 0
    }

    /// A settled state stays settled when its queue only grows at the
    /// back, no count of turns falls, tasks that are new are queued, and
    /// tasks that are done had a turn.
    pub proof fn lemma_settled_kept(self, next: RunState)
        requires
            self.settled(),
            self.queue.is_prefix_of(next.queue),
            self.done.len() <= next.done.len() == next.turns.len(),
            forall|i: int|
                0 <= i < next.queue.len() ==> 0 <= (#[trigger] next.queue[i])@ < next.done.len(),
            forall|i: int|
                0 <= i < next.later.len() ==> 0 <= (#[trigger] next.later[i])@ < next.done.len(),
            forall|id: int|
                0 <= id < self.done.len() ==> #[trigger] next.turns[id] >= self.turns[id],
            forall|id: int|
                self.done.len() <= id < next.done.len() ==> #[trigger] next.turns[id] >= 1
                    || next.is_queued(id),
            forall|id: int|
                0 <= id < next.done.len() && #[trigger] next.done[id] ==> next.turns[id] >= 1,
        ensures
            next.settled(),
    {
        assert forall|id: int| 0 <= id < next.done.len() implies #[trigger] next.turns[id] >= 1
            || next.is_queued(id) by {
            if id < self.done.len() && self.turns[id] < 1 {
                let i = choose|i: int| 0 <= i < self.queue.len() && #[trigger] self.queue[i]@ == id;
                assert(next.queue[i] == self.queue[i]);
            }
        }
    }

    /// Waking a task and spawning one keep a state settled.
    pub proof fn lemma_settled_arrivals(self, task: Task)
        requires
            self.settled(),
        ensures
            self.woken(task).settled(),
            task@ == self.done.len() ==> self.spawned(task).settled(),
    {
        self.lemma_settled_kept(self.woken(task));
        if task@ == self.done.len() {
            let next = self.spawned(task);
            assert(next.queue[self.queue.len() as int]@ == task@);
            self.lemma_settled_kept(next);
        }
    }

    /// Marking the polled task as done, cutting a pass short and changing
    /// the phase keep a state settled.
    pub proof fn lemma_settled_steps(self, phase: Phase)
        requires
            self.settled(),
        ensures
            self.wf() ==> self.complete().settled(),
            self.abandon().settled(),
            (RunState { phase, ..self }).settled(),
    {
        if self.wf() {
            self.lemma_settled_kept(self.complete());
        }
        self.lemma_settled_kept(self.abandon());
        self.lemma_settled_kept(RunState { phase, ..self });
    }

    /// The runnable part of the queue is what is left of it behind some
    /// of its oldest tasks, all of them done.
    pub proof fn lemma_runnable(self)
        ensures
            self.runnable().len() <= self.queue.len(),
            self.runnable() == self.queue.skip(self.queue.len() - self.runnable().len()),
            forall|i: int|
                0 <= i < self.queue.len() - self.runnable().len() ==> self.is_done(
                    #[trigger] self.queue[i],
                ),
            self.runnable().len() > 0 ==> !self.is_done(self.runnable()[0]),
        decreases self.queue.len(),
    {
        if self.queue.len() > 0 && self.is_done(self.queue[0]) {
            let tail = RunState { queue: self.queue.drop_first(), ..self };
            tail.lemma_runnable();
            let k = self.queue.len() - self.runnable().len();
            assert(self.runnable() =~= self.queue.skip(k));
            assert forall|i: int| 0 <= i < k implies self.is_done(#[trigger] self.queue[i]) by {
                if i > 0 {
                    assert(self.queue[i] == tail.queue[i - 1]);
                }
            }
        } else {
            assert(self.queue.skip(0) =~= self.queue);
        }
    }

    /// Every task that was spawned has had a turn or waits for one in the
    /// queue of the current pass, whether it was spawned before the pass
    /// or during it. So whenever the run loop turns to the readiness
    /// source, every task spawned until then has had at least one turn;
    /// what is queued then are the tasks that were woken during the pass.
    pub proof fn lemma_every_task_gets_a_turn(self)
        requires
            self.settled(),
        ensures
            forall|id: int|
                0 <= id < self.done.len() ==> #[trigger] self.turns[id] >= 1 || self.is_queued(id),
            self.advance().phase == Phase::Polling ==> self.advance().queue == self.later
                && forall|id: int| 0 <= id < self.done.len() ==> #[trigger] self.turns[id] >= 1,
    {
        self.lemma_runnable();
        if self.advance().phase == Phase::Polling {
            assert forall|id: int| 0 <= id < self.done.len() implies #[trigger] self.turns[id]
                >= 1 by {
                if self.turns[id] < 1 {
                    let i = choose|i: int|
                        0 <= i < self.queue.len() && #[trigger] self.queue[i]@ == id;
                    assert(self.is_done(self.queue[i]));
                }
            }
        }
    }

    /// Turning to the next piece of background work keeps a state well
    /// formed.
    pub proof fn lemma_advance_wf(self)
        requires
            self.settled(),
        ensures
            self.advance().wf(),
    {
        self.lemma_runnable();
        self.lemma_every_task_gets_a_turn();
        let rest = self.runnable();
        let k = self.queue.len() - rest.len();
        let next = self.advance();
        if rest.len() > 0 {
            assert(rest[0] == self.queue[k]);
            assert forall|i: int| 0 <= i < next.queue.len() implies 0 <= (
            #[trigger] next.queue[i])@ < next.done.len() by {
                assert(next.queue[i] == self.queue[k + 1 + i]);
            }
            assert forall|id: int| 0 <= id < next.done.len() implies #[trigger] next.turns[id]
                >= 1 || next.is_queued(id) by {
                if self.turns[id] < 1 {
                    let i = choose|i: int|
                        0 <= i < self.queue.len() && #[trigger] self.queue[i]@ == id;
                    if i < k {
                        assert(self.is_done(self.queue[i]));
                    } else if i > k {
                        assert(next.queue[i - k - 1] == self.queue[i]);
                    }
                }
            }
        }
    }

    /// Turning to the next piece of background work gives one turn to the
    /// task that is handed out, which is not done and comes from the queue
    /// of the current pass, and none to any other. The tasks that were put
    /// aside stay aside until the pass is over.
    pub proof fn lemma_advance_turn(self)
        requires
            self.settled(),
        ensures
            self.advance().done == self.done,
            self.advance().turns.len() == self.turns.len(),
            forall|id: int|
                0 <= id < self.done.len() ==> #[trigger] self.advance().turns[id] == self.turns[id]
                    + if self.advance().is_running(id) {
                    1nat
                } else {
                    0nat
                },
            self.advance().phase matches Phase::Running(task) ==> {
                &&& 0 <= task@ < self.done.len()
                &&& !self.done[task@]
                &&& exists|i: int|
                    0 <= i < self.queue.len() && #[trigger] self.queue[i] == task
                        && self.advance().queue == self.queue.skip(i + 1)
                &&& self.advance().later == self.later
            },
            !(self.advance().phase is Running) ==> {
                &&& self.advance().phase == Phase::Polling
                &&& self.advance().queue == self.later
                &&& self.advance().later.len() == 0
            },
    {
        self.lemma_runnable();
        let rest = self.runnable();
        if rest.len() > 0 {
            let k = self.queue.len() - rest.len();
            assert(rest[0] == self.queue[k]);
            assert(self.advance().queue =~= self.queue.skip(k + 1));
        }
    }

    /// A task that is done stays done and gets no further turn, whatever
    /// the run loop is told. One step gives at most one turn, to a task
    /// that is not done; every other count stays.
    pub proof fn lemma_no_turn_after_done<E>(self, event: RunEvent<E>, delivered: bool)
        requires
            self.wf(),
            self.awaits(event),
        ensures
            self.after(event, delivered).done.len() == self.done.len(),
            self.after(event, delivered).turns.len() == self.turns.len(),
            forall|id: int|
                0 <= id < self.done.len() && #[trigger] self.done[id] ==> self.after(
                    event,
                    delivered,
                ).done[id] && self.after(event, delivered).turns[id] == self.turns[id],
            forall|id: int|
                0 <= id < self.done.len() ==> #[trigger] self.after(event, delivered).turns[id]
                    == self.turns[id] + if self.after(event, delivered).is_running(id) {
                    1nat
                } else {
                    0nat
                },
            self.after(event, delivered).phase matches Phase::Running(task) ==> !self.after(
                event,
                delivered,
            ).is_done(task),
    {
        match event {
            RunEvent::Entry(false) | RunEvent::Task(TaskPoll::Pending) => {
                self.lemma_advance_turn();
            },
            RunEvent::Task(TaskPoll::Ready) => {
                self.lemma_settled_steps(self.phase);
                self.complete().lemma_advance_turn();
            },
            _ => {},
        }
    }

    /// What one step of a pass does to the tasks that were put aside. If
    /// the step hands out a task, the task comes from the queue of the
    /// pass, and what was aside stays aside, in its order. If the step
    /// ends the pass, nothing is handed out and what was aside becomes the
    /// queue; the only event that the run loop then takes is the answer
    /// of the readiness source, which hands out nothing either. If the
    /// step finds the task locked, nothing is handed out and what was
    /// aside joins the queue behind the tasks that had no turn.
    pub open spec fn keeps_aside<E>(self, event: RunEvent<E>, delivered: bool) -> bool {
        let next = self.after(event, delivered);
        match next.phase {
            Phase::Running(handed) => {
                &&& next.later == self.later
                &&& exists|i: int|
                    0 <= i < self.queue.len() && #[trigger] self.queue[i] == handed && next.queue
                        == self.queue.skip(i + 1)
            },
            Phase::Polling => {
                &&& next.queue == self.later
                &&& next.turns == self.turns
                &&& forall|answer: RunEvent<E>, all: bool|
                    next.awaits(answer) ==> {
                        &&& answer is Polled
                        &&& (#[trigger] next.after(answer, all)).turns == self.turns
                        &&& next.after(answer, all).queue == self.later
                        &&& !(next.after(answer, all).phase is Running)
                    }
            },
            _ => {
                &&& event == RunEvent::<E>::Task(TaskPoll::Locked)
                &&& next.queue == self.queue + self.later
                &&& next.turns == self.turns
            },
        }
    }

    /// A task that is woken while a task is being polled is not handed
    /// out before the next wait: it is put aside, behind what is aside
    /// already and with the queue of the pass left as it is, and every
    /// step of the pass keeps aside what is aside.
    pub proof fn lemma_woken_waits<E>(self, task: Task, event: RunEvent<E>, delivered: bool)
        requires
            self.wf(),
            self.phase is Running,
            0 <= task@ < self.done.len(),
            self.awaits(event),
        ensures
            self.woken(task).wf(),
            self.woken(task).phase == self.phase,
            self.woken(task).queue == self.queue,
            self.woken(task).later == self.later.push(task),
            self.woken(task).turns == self.turns,
            self.keeps_aside(event, delivered),
            self.woken(task).keeps_aside(event, delivered),
    {
        self.lemma_settled_arrivals(task);
        self.lemma_pass_keeps_aside(event, delivered);
        self.woken(task).lemma_pass_keeps_aside(event, delivered);
    }

    /// Whether `step` can happen in this state.
    pub open spec fn takes(self, step: Move) -> bool {
        match step {
            Move::Wake(_) => true,
            Move::Spawn(task) => task@ == self.done.len(),
            Move::Report(_) => self.phase is Running,
        }
    }

    /// The state after `step`.
    pub open spec fn moved(self, step: Move) -> RunState {
        match step {
            Move::Wake(task) => self.woken(task),
            Move::Spawn(task) => self.spawned(task),
            Move::Report(outcome) => self.after(RunEvent::<()>::Task(outcome), false),
        }
    }

    /// Whether `steps` can happen one after the other from this state.
    pub open spec fn follows(self, steps: Seq<Move>) -> bool
        decreases steps.len(),
    {
        steps.len() == 0 || (self.takes(steps[0]) && self.moved(steps[0]).follows(
            steps.drop_first(),
        ))
    }

    /// The state after `steps`.
    pub open spec fn run(self, steps: Seq<Move>) -> RunState
        decreases steps.len(),
    {
        if steps.len() == 0 {
            self
        } else {
            self.moved(steps[0]).run(steps.drop_first())
        }
    }

    /// Whether the tasks `aside` still wait for their turn, at the head of
    /// what is put aside while a pass is under way, and at the head of the
    /// queue while the readiness source is waited for.
    pub open spec fn holds_back(self, aside: Seq<Task>) -> bool {
        match self.phase {
            Phase::Running(_) => aside.is_prefix_of(self.later),
            Phase::Polling => aside.is_prefix_of(self.queue),
            _ => true,
        }
    }

    /// Whatever tasks are woken, spawned and polled during a pass, and in
    /// whatever order, the tasks that were put aside get no turn before
    /// the readiness source has answered: while the pass goes on they stay
    /// aside, and when it is over they stand at the head of the queue. A
    /// pass that is cut short by a locked task is left out: the run is
    /// over then.
    pub proof fn lemma_aside_until_wait(self, aside: Seq<Task>, steps: Seq<Move>)
        requires
            self.wf(),
            self.holds_back(aside),
            self.follows(steps),
        ensures
            self.run(steps).wf(),
            self.run(steps).holds_back(aside),
        decreases steps.len(),
    {
        if steps.len() > 0 {
            let next = self.moved(steps[0]);
            match steps[0] {
                Move::Wake(task) => {
                    self.lemma_settled_arrivals(task);
                },
                Move::Spawn(task) => {
                    self.lemma_settled_arrivals(task);
                },
                Move::Report(outcome) => {
                    let event = RunEvent::<()>::Task(outcome);
                    self.lemma_pass_keeps_aside(event, false);
                    match outcome {
                        TaskPoll::Pending => {
                            self.lemma_advance_wf();
                        },
                        TaskPoll::Ready => {
                            self.lemma_settled_steps(self.phase);
                            self.complete().lemma_advance_wf();
                        },
                        TaskPoll::Locked => {
                            self.lemma_settled_steps(self.phase);
                        },
                    }
                },
            }
            next.lemma_aside_until_wait(aside, steps.drop_first());
        }
    }

    /// Every step of a pass keeps aside what is aside.
    pub proof fn lemma_pass_keeps_aside<E>(self, event: RunEvent<E>, delivered: bool)
        requires
            self.wf(),
            self.phase is Running,
            self.awaits(event),
        ensures
            self.keeps_aside(event, delivered),
    {
        match event {
            RunEvent::Task(TaskPoll::Pending) => {
                self.lemma_advance_turn();
                if !(self.advance().phase is Running) {
                    assert(self.advance().turns =~= self.turns);
                }
            },
            RunEvent::Task(TaskPoll::Ready) => {
                self.lemma_settled_steps(self.phase);
                self.complete().lemma_advance_turn();
                if !(self.complete().advance().phase is Running) {
                    assert(self.complete().advance().turns =~= self.turns);
                }
            },
            _ => {},
        }
    }
}

/// Whether `action` is what the run loop asks for after `event`, where
/// `post` is the scheduling state after the event, `subs` the
/// subscriptions of the reactor and `slots` its wakers before the event.
pub open spec fn answers<W, E>(
    post: RunState,
    subs: Map<i32, Subscription>,
    slots: Slots<W>,
    event: RunEvent<E>,
    action: RunAction<W, E>,
) -> bool {
    match event {
        RunEvent::Start => action matches RunAction::PollEntry { wake, .. } && wake@.len() == 0,
        RunEvent::Entry(true) => action is Finish,
        RunEvent::Task(TaskPoll::Locked) => {
            &&& action matches RunAction::Abort { wake, error }
            &&& wake@.len() == 0
            &&& error == RuntimeError::<E>::CannotLock
        },
        RunEvent::Polled(polled) => {
            let outcome = wait_outcome(slots, seq_of(polled));
            match outcome.result {
                Ok(_) => action matches RunAction::PollEntry { wake, .. } && wake@ == outcome.woken,
                Err(fault) => {
                    &&& action matches RunAction::Abort { wake, error }
                    &&& wake@ == outcome.woken
                    &&& error == fault
                },
            }
        },
        _ => match post.phase {
            Phase::Running(task) => action matches RunAction::PollTask(handed) && handed == task,
            _ => {
                &&& action matches RunAction::Poll(list)
                &&& list@.to_set() == subs.values()
                &&& list@.len() == subs.len()
            },
        },
    }
}

/// The task queue, the reactor and the state of the run loop.
pub struct Executor<W> {
    tasks: TaskQueue,
    woken: TaskQueue,
    reactor: Reactor<W>,
    finished: Vec<bool>,
    phase: Phase,
    turns: Ghost<Seq<nat>>,
}

impl<W> Executor<W> {
    /// The scheduling state.
    pub closed spec fn state(&self) -> RunState {
        RunState {
            queue: self.tasks@,
            later: self.woken@,
            done: self.finished@,
            turns: self.turns@,
            phase: self.phase,
        }
    }

    /// The reactor.
    pub closed spec fn reactor_view(&self) -> Reactor<W> {
        self.reactor
    }

    /// The scheduling state and the reactor are well formed.
    pub open spec fn wf(&self) -> bool {
        self.state().wf() && self.reactor_view().wf()
    }

    /// An executor with no task, an empty reactor and no run under way.
    pub fn new() -> (ex: Executor<W>)
        ensures
            ex.wf(),
            ex.state() == (RunState {
                queue: Seq::empty(),
                later: Seq::empty(),
                done: Seq::empty(),
                turns: Seq::empty(),
                phase: Phase::Idle,
            }),
            ex.reactor_view().subscriptions() == Map::<i32, Subscription>::empty(),
            ex.reactor_view().slots().read == Map::<u64, W>::empty(),
            ex.reactor_view().slots().write == Map::<u64, W>::empty(),
    {
        Executor {
            tasks: TaskQueue::new(),
            woken: TaskQueue::new(),
            reactor: Reactor::new(),
            finished: Vec::new(),
            phase: Phase::Idle,
            turns: Ghost(Seq::empty()),
        }
    }

    /// Where the run loop stands.
    pub fn phase(&self) -> (phase: Phase)
        ensures
            phase == self.state().phase,
    {
        self.phase
    }

    /// The number of tasks spawned so far.
    pub fn spawned(&self) -> (n: usize)
        ensures
            n == self.state().done.len(),
    {
        self.finished.len()
    }

    /// The number of tasks queued for the current pass.
    pub fn queued(&self) -> (n: usize)
        ensures
            n == self.state().queue.len(),
    {
        self.tasks.len()
    }

    /// The number of tasks put aside for the pass after the next wait.
    pub fn put_aside(&self) -> (n: usize)
        ensures
            n == self.state().later.len(),
    {
        self.woken.len()
    }

    /// Whether `task` was spawned here and is done.
    pub fn is_done(&self, task: Task) -> (done: bool)
        ensures
            done == self.state().is_done(task),
    {
        task.id() < self.finished.len() && self.finished[task.id()]
    }

    /// The reactor, to look at.
    pub fn reactor(&self) -> (r: &Reactor<W>)
        ensures
            *r == self.reactor_view(),
    {
        &self.reactor
    }

    /// The reactor, to register, narrow and drop interests. The
    /// scheduling state stays as it is.
    pub fn reactor_mut(&mut self) -> (r: &mut Reactor<W>)
        ensures
            *r == old(self).reactor_view(),
            final(self).reactor_view() == *final(r),
            final(self).state() == old(self).state(),
    {
        &mut self.reactor
    }

    /// Queues `task` once more, whether or not it is queued already. While
    /// a task is being polled, the woken task is put aside and gets its
    /// turn in the pass after the next wait, never in the pass that is
    /// under way; at any other time it joins the queue behind all queued
    /// tasks. A handle that no spawn of this executor gave out is ignored.
    pub fn wake(&mut self, task: Task)
        requires
            old(self).wf(),
        ensures
            final(self).wf(),
            final(self).reactor_view() == old(self).reactor_view(),
            final(self).state() == old(self).state().woken(task),
    {
        proof {
            self.state().lemma_settled_arrivals(task);
        }
        if task.id() < self.finished.len() {
            match self.phase {
                Phase::Running(_) => {
                    self.woken.push(task);
                },
                _ => {
                    self.tasks.push(task);
                },
            }
        }
    }

    /// Registers a new task and queues it.
    fn enqueue_new(&mut self) -> (task: Task)
        requires
            old(self).wf(),
        ensures
            final(self).wf(),
            task@ == old(self).state().done.len(),
            final(self).reactor_view() == old(self).reactor_view(),
            final(self).state() == old(self).state().spawned(task),
    {
        let task = Task::new(self.finished.len());
        proof {
            self.state().lemma_settled_arrivals(task);
        }
        self.finished.push(false);
        proof {
            self.turns@ = self.turns@.push(0);
        }
        self.tasks.push(task);
        task
    }

    /// Drops the finished tasks at the head of the queue and hands out the
    /// first task that is not done, if there is one; if there is none,
    /// makes the tasks that were put aside the queue.
    fn turn(&mut self) -> (next: Option<Task>)
        requires
            old(self).state().settled(),
            old(self).reactor_view().wf(),
        ensures
            final(self).wf(),
            final(self).reactor_view() == old(self).reactor_view(),
            final(self).state() == old(self).state().advance(),
            match next {
                Some(task) => final(self).state().phase == Phase::Running(task),
                None => final(self).state().phase == Phase::Polling,
            },
    {
        let ghost pre = self.state();
        proof {
            pre.lemma_advance_wf();
        }
        loop
            invariant
                self.reactor == old(self).reactor,
                self.reactor.wf(),
                pre == old(self).state(),
                pre.settled(),
                pre.advance().wf(),
                self.state() == (RunState { queue: self.tasks@, ..pre }),
                self.state().runnable() == pre.runnable(),
                forall|i: int|
                    0 <= i < self.tasks@.len() ==> 0 <= (#[trigger] self.tasks@[i])@
                        < self.finished@.len(),
            decreases self.tasks@.len(),
        {
            match self.tasks.pop() {
                None => {
                    self.tasks.append(&mut self.woken);
                    self.phase = Phase::Polling;
                    assert(self.state().queue =~= pre.later);
                    return None;
                },
                Some(task) => {
                    let ghost before = (RunState { queue: self.tasks@.insert(0, task), ..pre });
                    assert(before.queue =~= seq![task] + self.tasks@);
                    assert(before.queue.drop_first() =~= self.tasks@);
                    assert(before.runnable() == pre.runnable());
                    if !self.finished[task.id()] {
                        proof {
                            self.turns@ = self.turns@.update(task@, self.turns@[task@] + 1);
                        }
                        self.phase = Phase::Running(task);
                        assert(self.state() == pre.advance());
                        return Some(task);
                    }
                },
            }
        }
    }

    /// One decision of the run loop: takes what came of the last action
    /// and says what to do next.
    ///
    /// A run starts by polling the entry future. While that future is not
    /// done, one pass is made over the queue: each queued task that is not
    /// done gets one turn, oldest first. A task that is spawned during the
    /// pass joins it; a task that is woken during the pass does not, and
    /// gets its turn in the pass after the next wait. When the pass is
    /// over the readiness source is waited for, the wakers of its events
    /// are handed out, and the entry future is polled again. The run ends
    /// when the entry future is done, when a task is found locked, or
    /// when the wait meets a fault.
    pub fn block_on<E>(&mut self, event: RunEvent<E>) -> (action: RunAction<W, E>)
        requires
            old(self).wf(),
            old(self).state().awaits(event),
        ensures
            final(self).wf(),
            final(self).state() == old(self).state().after(
                event,
                event matches RunEvent::Polled(polled) && wait_outcome(
                    old(self).reactor_view().slots(),
                    seq_of(polled),
                ).result is Ok,
            ),
            final(self).reactor_view().subscriptions() == old(self).reactor_view().subscriptions(),
            final(self).reactor_view().slots() == match event {
                RunEvent::Polled(polled) => wait_outcome(
                    old(self).reactor_view().slots(),
                    seq_of(polled),
                ).slots,
                _ => old(self).reactor_view().slots(),
            },
            answers(
                final(self).state(),
                old(self).reactor_view().subscriptions(),
                old(self).reactor_view().slots(),
                event,
                action,
            ),
    {
        proof {
            self.state().lemma_settled_steps(Phase::Entry);
            self.state().lemma_settled_steps(Phase::Idle);
        }
        match event {
            RunEvent::Start => {
                self.phase = Phase::Entry;
                RunAction::PollEntry { wake: Vec::new(), waker: noop_waker() }
            },
            RunEvent::Entry(true) => {
                self.phase = Phase::Idle;
                RunAction::Finish
            },
            RunEvent::Entry(false) => self.drain(),
            RunEvent::Task(TaskPoll::Pending) => self.drain(),
            RunEvent::Task(TaskPoll::Ready) => {
                match self.phase {
                    Phase::Running(task) => {
                        self.finished.set(task.id(), true);
                    },
                    _ => {},
                }
                self.drain()
            },
            RunEvent::Task(TaskPoll::Locked) => {
                self.tasks.append(&mut self.woken);
                self.phase = Phase::Idle;
                RunAction::Abort { wake: Vec::new(), error: RuntimeError::CannotLock }
            },
            RunEvent::Polled(polled) => {
                let out = self.reactor.wait(polled);
                match out.result {
                    Ok(_) => {
                        self.phase = Phase::Entry;
                        RunAction::PollEntry { wake: out.wakers, waker: noop_waker() }
                    },
                    Err(error) => {
                        self.phase = Phase::Idle;
                        RunAction::Abort { wake: out.wakers, error }
                    },
                }
            },
        }
    }

    /// Gives the next queued task that is not done its turn, or, with no
    /// such task, turns to the readiness source.
    fn drain<E>(&mut self) -> (action: RunAction<W, E>)
        requires
            old(self).state().settled(),
            old(self).reactor_view().wf(),
        ensures
            final(self).wf(),
            final(self).reactor_view() == old(self).reactor_view(),
            final(self).state() == old(self).state().advance(),
            match final(self).state().phase {
                Phase::Running(task) => action matches RunAction::PollTask(handed) && handed
                    == task,
                _ => {
                    &&& action matches RunAction::Poll(list)
                    &&& list@.to_set() == old(self).reactor_view().subscriptions().values()
                    &&& list@.len() == old(self).reactor_view().subscriptions().len()
                },
            },
    {
        match self.turn() {
            Some(task) => RunAction::PollTask(task),
            None => RunAction::Poll(self.reactor.subscriptions_list()),
        }
    }
}

/// Makes a new task known to `ex` and queues it behind the tasks queued for
/// the current pass. The handle that comes back names the task from then
/// on.
pub fn spawn<W>(ex: &mut Executor<W>) -> (task: Task)
    requires
        old(ex).wf(),
    ensures
        final(ex).wf(),
        task@ == old(ex).state().done.len(),
        final(ex).reactor_view() == old(ex).reactor_view(),
        final(ex).state() == old(ex).state().spawned(task),
{
    ex.enqueue_new()
}

} // verus!
