use vstd::prelude::*;
use crate::common::{owned, ObjectId};

verus! {

#[derive(Debug, Clone)]
pub struct InterruptHandler {
    pub id: ObjectId,
    pub irq_number: u32,
    pub name: String,
    pub cpu_affinity: Option<u32>,
    /// Higher runs first among handlers sharing the same IRQ line.
    pub priority: u32,
    pub enabled: bool,
    pub invocation_count: u64,
}

impl InterruptHandler {
    /// An enabled handler with priority 0, no affinity and no invocations yet.
    pub fn new(irq_number: u32, name: &str) -> (h: InterruptHandler)
        ensures
            h.irq_number == irq_number,
            h.name@ == name@,
            h.cpu_affinity.is_none(),
            h.priority == 0,
            h.enabled,
            h.invocation_count == 0,
            h.id.value != 0,
    {
        InterruptHandler {
            id: ObjectId::new(),
            irq_number,
            name: owned(name),
            cpu_affinity: None,
            priority: 0,
            enabled: true,
            invocation_count: 0,
        }
    }

    /// A duplicate of this handler, field for field.
    pub fn duplicate(&self) -> (h: InterruptHandler)
        ensures
            h == *self,
    {
        InterruptHandler {
            id: self.id,
            irq_number: self.irq_number,
            name: self.name.clone(),
            cpu_affinity: self.cpu_affinity,
            priority: self.priority,
            enabled: self.enabled,
            invocation_count: self.invocation_count,
        }
    }

    pub fn with_priority(self, priority: u32) -> (h: InterruptHandler)
        ensures
            h == (InterruptHandler { priority, ..self }),
    {
        let mut h = self;
        h.priority = priority;
        h
    }

    pub fn with_affinity(self, cpu: u32) -> (h: InterruptHandler)
        ensures
            h == (InterruptHandler { cpu_affinity: Some(cpu), ..self }),
    {
        let mut h = self;
        h.cpu_affinity = Some(cpu);
        h
    }
}

} // verus!
