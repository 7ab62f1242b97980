//! Priority-based heterogeneous task scheduler.
//!
//! Per compute target, submitted tasks wait in a pending pool.
//! `dispatch_next` takes the pending task with the highest priority; among
//! equal priorities the one submitted earliest wins. Targets are scheduled
//! independently.
use vstd::prelude::*;
use crate::common::{owned, ObjectId};
use crate::scheduler::heterogeneous::{target_slot, ComputeTarget, TARGET_COUNT};
use crate::scheduler::task::{Task, TaskState};

verus! {

/// `i` is the task `dispatch_next` picks from `q`: it has the highest
/// priority, and every task queued before it has a strictly lower one.
pub open spec fn is_next_choice(q: Seq<Task>, i: int) -> bool {
    &&& 0 <= i < q.len()
    &&& forall|j: int| 0 <= j < i ==> q[j].priority < q[i].priority
    &&& forall|j: int| i < j < q.len() ==> q[j].priority <= q[i].priority
}

/// `i` is the first position in `q` of a task with identity `id`.
pub open spec fn is_first_with_id(q: Seq<Task>, id: ObjectId, i: int) -> bool {
    &&& 0 <= i < q.len()
    &&& q[i].id == id
    &&& forall|j: int| 0 <= j < i ==> q[j].id != id
}

/// Some task in `q` has identity `id`.
pub open spec fn has_id(q: Seq<Task>, id: ObjectId) -> bool {
    exists|i: int| 0 <= i < q.len() && q[i].id == id
}

/// `t` with its state set to `s`.
pub open spec fn with_state(t: Task, s: TaskState) -> Task {
    Task { state: s, ..t }
}

#[derive(Debug)]
pub struct Scheduler {
    pending: Vec<Vec<Task>>,
    running: Vec<Vec<Task>>,
    completed: Vec<Task>,
    failed: Vec<(Task, String)>,
}

impl Scheduler {
    /// One pending pool and one running list per compute target.
    pub closed spec fn wf(&self) -> bool {
        &&& self.pending@.len() == TARGET_COUNT
        &&& self.running@.len() == TARGET_COUNT
    }

    /// Tasks waiting to be dispatched on `t`, in submission order.
    pub closed spec fn pending_of(&self, t: ComputeTarget) -> Seq<Task> {
        self.pending@[target_slot(t)]@
    }

    /// Tasks dispatched on `t` and not yet completed or failed, in dispatch order.
    pub closed spec fn running_of(&self, t: ComputeTarget) -> Seq<Task> {
        self.running@[target_slot(t)]@
    }

    pub closed spec fn completed_seq(&self) -> Seq<Task> {
        self.completed@
    }

    pub closed spec fn failed_seq(&self) -> Seq<(Task, String)> {
        self.failed@
    }

    /// Every target other than `t` keeps its pending and running tasks.
    pub open spec fn others_unchanged(&self, other: &Scheduler, t: ComputeTarget) -> bool {
        forall|u: ComputeTarget| u != t ==> {
            &&& #[trigger] self.pending_of(u) == other.pending_of(u)
            &&& self.running_of(u) == other.running_of(u)
        }
    }

    pub fn new() -> (s: Scheduler)
        ensures
            s.wf(),
            forall|t: ComputeTarget| #[trigger] s.pending_of(t).len() == 0 && s.running_of(t).len() == 0,
            s.completed_seq().len() == 0,
            s.failed_seq().len() == 0,
    {
        let mut pending: Vec<Vec<Task>> = Vec::new();
        let mut running: Vec<Vec<Task>> = Vec::new();
        let mut i: usize = 0;
        while i < TARGET_COUNT
            invariant
                i <= TARGET_COUNT,
                pending@.len() == i,
                running@.len() == i,
                forall|j: int| 0 <= j < i ==> (#[trigger] pending@[j])@.len() == 0,
                forall|j: int| 0 <= j < i ==> (#[trigger] running@[j])@.len() == 0,
            decreases TARGET_COUNT - i,
        {
            pending.push(Vec::new());
            running.push(Vec::new());
            i = i + 1;
        }
        let s = Scheduler { pending, running, completed: Vec::new(), failed: Vec::new() };
        assert forall|t: ComputeTarget| #[trigger] s.pending_of(t).len() == 0 && s.running_of(t).len() == 0 by {
            assert(0 <= target_slot(t) < TARGET_COUNT);
        }
        s
    }

    /// Submit `task` to the pending pool of `target`.
    pub fn submit(&mut self, task: Task, target: ComputeTarget)
        requires
            old(self).wf(),
        ensures
            final(self).wf(),
            final(self).pending_of(target) == old(self).pending_of(target).push(task),
            final(self).running_of(target) == old(self).running_of(target),
            final(self).others_unchanged(&*old(self), target),
            final(self).completed_seq() == old(self).completed_seq(),
            final(self).failed_seq() == old(self).failed_seq(),
    {
        let ti = target.slot();
        let q = &mut self.pending[ti];
        q.push(task);
        proof {
            assert forall|u: ComputeTarget| u != target implies
                #[trigger] final(self).pending_of(u) == old(self).pending_of(u)
                && final(self).running_of(u) == old(self).running_of(u) by {
                assert(target_slot(u) != target_slot(target));
            }
        }
    }

    /// Select and remove the highest-priority pending task for `target`
    /// (earliest submitted among equals), mark it `Running`, record it as
    /// running and return it. `None` when nothing is pending there.
    pub fn dispatch_next(&mut self, target: ComputeTarget) -> (r: Option<Task>)
        requires
            old(self).wf(),
        ensures
            final(self).wf(),
            final(self).others_unchanged(&*old(self), target),
            final(self).completed_seq() == old(self).completed_seq(),
            final(self).failed_seq() == old(self).failed_seq(),
            old(self).pending_of(target).len() == 0 ==> r.is_none() && *final(self) == *old(self),
            old(self).pending_of(target).len() > 0 ==> exists|i: int| {
                &&& is_next_choice(old(self).pending_of(target), i)
                &&& r == Some(with_state(old(self).pending_of(target)[i], TaskState::Running))
                &&& final(self).pending_of(target) == old(self).pending_of(target).remove(i)
                &&& final(self).running_of(target) == old(self).running_of(target).push(
                    with_state(old(self).pending_of(target)[i], TaskState::Running))
            },
    {
        let ti = target.slot();
        let len = self.pending[ti].len();
        if len == 0 {
            return None;
        }
        let mut best: usize = 0;
        let mut i: usize = 1;
        while i < len
            invariant
                self.wf(),
                ti == target_slot(target),
                len == self.pending@[ti as int]@.len(),
                best < i <= len,
                forall|j: int| 0 <= j < best ==>
                    self.pending@[ti as int]@[j].priority < self.pending@[ti as int]@[best as int].priority,
                forall|j: int| best < j < i ==>
                    self.pending@[ti as int]@[j].priority <= self.pending@[ti as int]@[best as int].priority,
            decreases len - i,
        {
            if self.pending[ti][i].priority > self.pending[ti][best].priority {
                best = i;
            }
            i = i + 1;
        }
        let ghost q0 = self.pending@[ti as int]@;
        assert(is_next_choice(q0, best as int));
        let q = &mut self.pending[ti];
        let mut task = q.remove(best);
        task.state = TaskState::Running;
        let copy = task.duplicate();
        let rq = &mut self.running[ti];
        rq.push(copy);
        proof {
            assert forall|u: ComputeTarget| u != target implies
                #[trigger] final(self).pending_of(u) == old(self).pending_of(u)
                && final(self).running_of(u) == old(self).running_of(u) by {
                assert(target_slot(u) != target_slot(target));
            }
            assert(task == with_state(q0[best as int], TaskState::Running));
        }
        Some(task)
    }

    /// Position of the first task with identity `id` among those running on
    /// the target at slot `ti`.
    fn find_running(&self, ti: usize, id: ObjectId) -> (r: Option<usize>)
        requires
            self.wf(),
            ti < TARGET_COUNT,
        ensures
            match r {
                Some(i) => is_first_with_id(self.running@[ti as int]@, id, i as int),
                None => !has_id(self.running@[ti as int]@, id),
            },
    {
        let n = self.running[ti].len();
        let mut i: usize = 0;
        while i < n
            invariant
                self.wf(),
                ti < TARGET_COUNT,
                n == self.running@[ti as int]@.len(),
                i <= n,
                forall|j: int| 0 <= j < i ==> self.running@[ti as int]@[j].id != id,
            decreases n - i,
        {
            if self.running[ti][i].id == id {
                return Some(i);
            }
            i = i + 1;
        }
        None
    }

    /// Mark the (first) running task with identity `task_id` on `target` as
    /// completed. `false`, with nothing changed, when no such task is running there.
    pub fn complete(&mut self, target: ComputeTarget, task_id: ObjectId) -> (done: bool)
        requires
            old(self).wf(),
        ensures
            final(self).wf(),
            done == has_id(old(self).running_of(target), task_id),
            !done ==> *final(self) == *old(self),
            done ==> exists|i: int| {
                &&& is_first_with_id(old(self).running_of(target), task_id, i)
                &&& final(self).running_of(target) == old(self).running_of(target).remove(i)
                &&& final(self).completed_seq() == old(self).completed_seq().push(
                    with_state(old(self).running_of(target)[i], TaskState::Completed))
            },
            final(self).pending_of(target) == old(self).pending_of(target),
            final(self).others_unchanged(&*old(self), target),
            final(self).failed_seq() == old(self).failed_seq(),
    {
        let ti = target.slot();
        match self.find_running(ti, task_id) {
            Some(pos) => {
                let ghost q0 = self.running@[ti as int]@;
                let rq = &mut self.running[ti];
                let mut task = rq.remove(pos);
                task.state = TaskState::Completed;
                self.completed.push(task);
                proof {
                    assert(is_first_with_id(q0, task_id, pos as int));
                    assert forall|u: ComputeTarget| u != target implies
                        #[trigger] final(self).pending_of(u) == old(self).pending_of(u)
                        && final(self).running_of(u) == old(self).running_of(u) by {
                        assert(target_slot(u) != target_slot(target));
                    }
                }
                true
            },
            None => false,
        }
    }

    /// Mark the (first) running task with identity `task_id` on `target` as
    /// failed, recording `reason`. `false`, with nothing changed, when no
    /// such task is running there.
    pub fn fail(&mut self, target: ComputeTarget, task_id: ObjectId, reason: &str) -> (done: bool)
        requires
            old(self).wf(),
        ensures
            final(self).wf(),
            done == has_id(old(self).running_of(target), task_id),
            !done ==> *final(self) == *old(self),
            done ==> exists|i: int| {
                &&& is_first_with_id(old(self).running_of(target), task_id, i)
                &&& final(self).running_of(target) == old(self).running_of(target).remove(i)
                &&& final(self).failed_seq().len() == old(self).failed_seq().len() + 1
                &&& final(self).failed_seq().drop_last() == old(self).failed_seq()
                &&& final(self).failed_seq().last().0 == with_state(
                    old(self).running_of(target)[i], TaskState::Failed)
                &&& final(self).failed_seq().last().1@ == reason@
            },
            final(self).pending_of(target) == old(self).pending_of(target),
            final(self).others_unchanged(&*old(self), target),
            final(self).completed_seq() == old(self).completed_seq(),
    {
        let ti = target.slot();
        match self.find_running(ti, task_id) {
            Some(pos) => {
                let ghost q0 = self.running@[ti as int]@;
                let rq = &mut self.running[ti];
                let mut task = rq.remove(pos);
                task.state = TaskState::Failed;
                self.failed.push((task, owned(reason)));
                proof {
                    assert(is_first_with_id(q0, task_id, pos as int));
                    assert(final(self).failed_seq().drop_last() =~= old(self).failed_seq());
                    assert forall|u: ComputeTarget| u != target implies
                        #[trigger] final(self).pending_of(u) == old(self).pending_of(u)
                        && final(self).running_of(u) == old(self).running_of(u) by {
                        assert(target_slot(u) != target_slot(target));
                    }
                }
                true
            },
            None => false,
        }
    }

    pub fn pending_count(&self, target: ComputeTarget) -> (n: usize)
        requires
            self.wf(),
        ensures
            n == self.pending_of(target).len(),
    {
        self.pending[target.slot()].len()
    }

    pub fn running_count(&self, target: ComputeTarget) -> (n: usize)
        requires
            self.wf(),
        ensures
            n == self.running_of(target).len(),
    {
        self.running[target.slot()].len()
    }

    pub fn completed_count(&self) -> (n: usize)
        ensures
            n == self.completed_seq().len(),
    {
        self.completed.len()
    }

    pub fn failed_count(&self) -> (n: usize)
        ensures
            n == self.failed_seq().len(),
    {
        self.failed.len()
    }
}

/// The task dispatched next has the highest priority pending, and is the
/// earliest submitted among the tasks of that priority.
pub proof fn lemma_next_choice_highest_first(q: Seq<Task>, i: int, j: int)
    requires
        is_next_choice(q, i),
        0 <= j < q.len(),
    ensures
        q[j].priority <= q[i].priority,
        q[j].priority == q[i].priority ==> i <= j,
{
}

/// Dispatch is deterministic: a queue has at most one next choice.
pub proof fn lemma_next_choice_unique(q: Seq<Task>, i: int, j: int)
    requires
        is_next_choice(q, i),
        is_next_choice(q, j),
    ensures
        i == j,
{
    if i < j {
        assert(q[i].priority < q[j].priority);
        assert(q[j].priority <= q[i].priority);
    } else if j < i {
        assert(q[j].priority < q[i].priority);
        assert(q[i].priority <= q[j].priority);
    }
}

/// Every non-empty queue has a next choice.
pub proof fn lemma_next_choice_exists(q: Seq<Task>) -> (i: int)
    requires
        q.len() > 0,
    ensures
        is_next_choice(q, i),
    decreases q.len(),
{
    if q.len() == 1 {
        0
    } else {
        let p = q.drop_last();
        let k = lemma_next_choice_exists(p);
        assert(forall|j: int| 0 <= j < p.len() ==> p[j] == q[j]);
        if q.last().priority > q[k].priority {
            let n = q.len() - 1;
            assert forall|j: int| 0 <= j < n implies q[j].priority < q[n].priority by {
                if j < k {
                    assert(p[j].priority < p[k].priority);
                } else if j > k {
                    assert(p[j].priority <= p[k].priority);
                }
            }
            n
        } else {
            k
        }
    }
}

} // verus!
