use vstd::prelude::*;
use crate::common::{owned, ObjectId};

verus! {

#[derive(Debug, Clone, Copy, PartialEq, Eq, Structural)]
pub enum TaskState {
    Pending,
    Running,
    Paused,
    Completed,
    Failed,
}

#[derive(Debug, Clone)]
pub struct Task {
    pub id: ObjectId,
    pub name: String,
    pub state: TaskState,
    pub priority: u32,
    pub cpu_affinity: Option<u32>,
}

impl Task {
    /// A pending task with a fresh identity and no CPU affinity.
    pub fn new(name: &str, priority: u32) -> (t: Task)
        ensures
            t.name@ == name@,
            t.priority == priority,
            t.state == TaskState::Pending,
            t.cpu_affinity.is_none(),
            t.id.value != 0,
    {
        Task {
            id: ObjectId::new(),
            name: owned(name),
            state: TaskState::Pending,
            priority,
            cpu_affinity: None,
        }
    }

    /// A field-for-field duplicate.
    pub fn duplicate(&self) -> (t: Task)
        ensures
            t == *self,
    {
        Task {
            id: self.id,
            name: self.name.clone(),
            state: self.state,
            priority: self.priority,
            cpu_affinity: self.cpu_affinity,
        }
    }
}

} // verus!
