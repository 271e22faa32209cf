//! Task handles and the queue of tasks that are ready to be polled.

use std::collections::VecDeque;
use vstd::prelude::*;

verus! {

/// The number of tasks for which a new queue reserves room.
pub const DEFAULT_TASK_QUEUE_SIZE: usize = 4096;

/// A handle to one unit of scheduled work. Two handles name the same task
/// exactly when their identities are equal; the work itself is kept by
/// whoever polls it.
#[derive(Clone, Copy, Debug, PartialEq, Eq, Structural)]
pub struct Task {
    id: usize,
}

impl View for Task {
    type V = int;

    closed spec fn view(&self) -> int {
        self.id as int
    }
}

impl Task {
    /// The handle of the task with identity `id`.
    pub fn new(id: usize) -> (t: Task)
        ensures
            t@ == id,
    {
        Task { id }
    }

    /// The identity of the task.
    pub fn id(&self) -> (id: usize)
        ensures
            id == self@,
    {
        self.id
    }

    /// Handles with one identity are one handle.
    pub proof fn lemma_identity(a: Task, b: Task)
        ensures
            a@ == b@ <==> a == b,
            0 <= a@ <= usize::MAX,
    {
    }
}

/// The tasks that are ready to be polled, oldest first, and the capacity
/// that the queue was made with.
pub struct TaskQueue {
    queue: VecDeque<Task>,
    hint: usize,
}

impl View for TaskQueue {
    type V = Seq<Task>;

    closed spec fn view(&self) -> Seq<Task> {
        self.queue@
    }
}

impl TaskQueue {
    /// The number of tasks for which the queue was asked to have room when
    /// it was made. It is a hint for the first allocation and bounds
    /// nothing: the queue grows past it, and it stays as it is while the
    /// queue grows and shrinks.
    pub closed spec fn initial_capacity(&self) -> usize {
        self.hint
    }

    /// An empty queue made with room for `DEFAULT_TASK_QUEUE_SIZE` tasks.
    pub fn new() -> (q: TaskQueue)
        ensures
            q@ == Seq::<Task>::empty(),
            q.initial_capacity() == DEFAULT_TASK_QUEUE_SIZE,
    {
        Self::new_with_capacity(DEFAULT_TASK_QUEUE_SIZE)
    }

    /// An empty queue made with room for `capacity` tasks. The capacity is
    /// a hint: it bounds nothing.
    pub fn new_with_capacity(capacity: usize) -> (q: TaskQueue)
        requires
            capacity <= usize::MAX / 16,
        ensures
            q@ == Seq::<Task>::empty(),
            q.initial_capacity() == capacity,
    {
        TaskQueue { queue: VecDeque::with_capacity(capacity), hint: capacity }
    }

    /// The capacity that the queue was made with.
    pub fn capacity_hint(&self) -> (capacity: usize)
        ensures
            capacity == self.initial_capacity(),
    {
        self.hint
    }

    /// Appends `runnable` behind all queued tasks. A task that is queued
    /// already is queued once more.
    pub fn push(&mut self, runnable: Task)
        ensures
            final(self)@ == old(self)@.push(runnable),
            final(self).initial_capacity() == old(self).initial_capacity(),
    {
        self.queue.push_back(runnable);
    }

    /// Removes and returns the oldest queued task, or `None` when the queue
    /// is empty.
    pub fn pop(&mut self) -> (t: Option<Task>)
        ensures
            old(self)@.len() == 0 ==> t.is_none() && final(self)@ == old(self)@,
            old(self)@.len() > 0 ==> t == Some(old(self)@[0]) && final(self)@ == old(
                self,
            )@.drop_first(),
            final(self).initial_capacity() == old(self).initial_capacity(),
    {
        let t = self.queue.pop_front();
        proof {
            if old(self)@.len() > 0 {
                assert(final(self)@ =~= old(self)@.drop_first());
            }
        }
        t
    }

    /// Moves all tasks of `other` behind the tasks of this queue, in their
    /// order, and leaves `other` empty.
    pub fn append(&mut self, other: &mut TaskQueue)
        ensures
            final(self)@ == old(self)@ + old(other)@,
            final(other)@ == Seq::<Task>::empty(),
            final(self).initial_capacity() == old(self).initial_capacity(),
            final(other).initial_capacity() == old(other).initial_capacity(),
    {
        self.queue.append(&mut other.queue);
    }

    /// The number of queued tasks.
    pub fn len(&self) -> (n: usize)
        ensures
            n == self@.len(),
    {
        self.queue.len()
    }

    /// Whether no task is queued.
    pub fn is_empty(&self) -> (r: bool)
        ensures
            r == (self@.len() == 0),
    {
        self.queue.len() == 0
    }
}

} // verus!
