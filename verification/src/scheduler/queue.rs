use vstd::prelude::*;
use std::collections::VecDeque;
use crate::scheduler::task::Task;

verus! {

/// A first-in first-out queue of tasks.
#[derive(Debug, Clone)]
pub struct TaskQueue {
    pub tasks: VecDeque<Task>,
}

impl TaskQueue {
    pub fn new() -> (q: TaskQueue)
        ensures
            q.tasks@.len() == 0,
    {
        TaskQueue { tasks: VecDeque::new() }
    }

    pub fn enqueue(&mut self, task: Task)
        ensures
            final(self).tasks@ == old(self).tasks@.push(task),
    {
        self.tasks.push_back(task);
    }

    pub fn dequeue(&mut self) -> (r: Option<Task>)
        ensures
            old(self).tasks@.len() == 0 ==> r.is_none() && final(self).tasks@ == old(self).tasks@,
            old(self).tasks@.len() > 0 ==> r == Some(old(self).tasks@[0])
                && final(self).tasks@ == old(self).tasks@.drop_first(),
    {
        self.tasks.pop_front()
    }

    pub fn len(&self) -> (n: usize)
        ensures
            n == self.tasks@.len(),
    {
        self.tasks.len()
    }

    pub fn is_empty(&self) -> (b: bool)
        ensures
            b == (self.tasks@.len() == 0),
    {
        self.tasks.len() == 0
    }
}

impl Default for TaskQueue {
    fn default() -> (q: TaskQueue)
        ensures
            q.tasks@.len() == 0,
    {
        TaskQueue::new()
    }
}

/// What goes in comes out in the same order: enqueueing onto an empty
/// queue and then dequeueing gives back the task that went in.
pub proof fn lemma_queue_fifo(q: Seq<Task>, t: Task)
    ensures
        q.push(t).len() > 0,
        q.len() == 0 ==> q.push(t)[0] == t && q.push(t).drop_first().len() == 0,
        q.len() > 0 ==> q.push(t)[0] == q[0] && q.push(t).drop_first() == q.drop_first().push(t),
{
    if q.len() > 0 {
        assert(q.push(t).drop_first() =~= q.drop_first().push(t));
    }
}

} // verus!
