use sher::common::ObjectId;
use std::collections::HashSet;
use sher::interrupt::controller::InterruptController;
use sher::interrupt::handler::InterruptHandler;
use sher::scheduler::heterogeneous::ComputeTarget;
use sher::scheduler::queue::TaskQueue;
use sher::scheduler::scheduler::Scheduler;
use sher::scheduler::task::{Task, TaskState};

#[test]
fn display_matches_expected_labels() {
    assert_eq!(ComputeTarget::Cpu.to_string(), "CPU");
    assert_eq!(ComputeTarget::Gpu.to_string(), "GPU");
    assert_eq!(ComputeTarget::RemoteCluster.to_string(), "RemoteCluster");
}

#[test]
fn targets_are_hashable_and_distinct() {
    let set: HashSet<ComputeTarget> = [ComputeTarget::Cpu, ComputeTarget::Cpu, ComputeTarget::Gpu].into_iter().collect();
    assert_eq!(set.len(), 2);
}

#[test]
fn enqueue_dequeue_is_fifo() {
    let mut q = TaskQueue::default();
    q.enqueue(Task::new("a", 1));
    q.enqueue(Task::new("b", 1));
    assert_eq!(q.len(), 2);
    assert_eq!(q.dequeue().unwrap().name, "a");
    assert_eq!(q.dequeue().unwrap().name, "b");
    assert!(q.dequeue().is_none());
}

#[test]
fn is_empty_reflects_state() {
    let mut q = TaskQueue::default();
    assert!(q.is_empty());
    q.enqueue(Task::new("a", 1));
    assert!(!q.is_empty());
}

#[test]
fn dispatches_highest_priority_first() {
    let mut s = Scheduler::new();
    s.submit(Task::new("low", 1), ComputeTarget::Cpu);
    s.submit(Task::new("high", 10), ComputeTarget::Cpu);
    s.submit(Task::new("mid", 5), ComputeTarget::Cpu);

    let first = s.dispatch_next(ComputeTarget::Cpu).unwrap();
    assert_eq!(first.name, "high");
    assert_eq!(first.state, TaskState::Running);

    let second = s.dispatch_next(ComputeTarget::Cpu).unwrap();
    assert_eq!(second.name, "mid");

    let third = s.dispatch_next(ComputeTarget::Cpu).unwrap();
    assert_eq!(third.name, "low");

    assert!(s.dispatch_next(ComputeTarget::Cpu).is_none());
}

#[test]
fn ties_broken_fifo() {
    let mut s = Scheduler::new();
    s.submit(Task::new("first", 5), ComputeTarget::Gpu);
    s.submit(Task::new("second", 5), ComputeTarget::Gpu);

    let first = s.dispatch_next(ComputeTarget::Gpu).unwrap();
    assert_eq!(first.name, "first");
    let second = s.dispatch_next(ComputeTarget::Gpu).unwrap();
    assert_eq!(second.name, "second");
}

#[test]
fn targets_are_scheduled_independently() {
    let mut s = Scheduler::new();
    s.submit(Task::new("cpu-task", 1), ComputeTarget::Cpu);
    s.submit(Task::new("gpu-task", 1), ComputeTarget::Gpu);

    assert_eq!(s.pending_count(ComputeTarget::Cpu), 1);
    assert_eq!(s.pending_count(ComputeTarget::Gpu), 1);

    let dispatched = s.dispatch_next(ComputeTarget::Cpu).unwrap();
    assert_eq!(dispatched.name, "cpu-task");
    assert_eq!(s.pending_count(ComputeTarget::Gpu), 1);
}

#[test]
fn complete_and_fail_move_task_out_of_running() {
    let mut s = Scheduler::new();
    s.submit(Task::new("task-a", 1), ComputeTarget::Cpu);
    s.submit(Task::new("task-b", 1), ComputeTarget::Cpu);

    let a = s.dispatch_next(ComputeTarget::Cpu).unwrap();
    let b = s.dispatch_next(ComputeTarget::Cpu).unwrap();
    assert_eq!(s.running_count(ComputeTarget::Cpu), 2);

    assert!(s.complete(ComputeTarget::Cpu, a.id));
    assert_eq!(s.completed_count(), 1);
    assert_eq!(s.running_count(ComputeTarget::Cpu), 1);

    assert!(s.fail(ComputeTarget::Cpu, b.id, "simulated fault"));
    assert_eq!(s.failed_count(), 1);
    assert_eq!(s.running_count(ComputeTarget::Cpu), 0);
}

#[test]
fn completing_unknown_task_returns_false() {
    let mut s = Scheduler::new();
    assert!(!s.complete(ComputeTarget::Cpu, ObjectId::new()));
}

#[test]
fn new_task_starts_pending_with_unique_id() {
    let a = Task::new("a", 3);
    let b = Task::new("b", 3);
    assert_eq!(a.state, TaskState::Pending);
    assert_eq!(a.priority, 3);
    assert_ne!(a.id, b.id);
    assert_eq!(a.cpu_affinity, None);
}

#[test]
fn register_and_get_handler() {
    let mut ctrl = InterruptController::new();
    ctrl.register_handler(InterruptHandler::new(9, "keyboard"));
    assert!(ctrl.get_handler(9).is_some());
    assert!(ctrl.get_handler(99).is_none());
}

#[test]
fn shared_irq_dispatches_in_priority_order() {
    let mut ctrl = InterruptController::new();
    ctrl.register_handler(InterruptHandler::new(16, "low").with_priority(1));
    ctrl.register_handler(InterruptHandler::new(16, "high").with_priority(9));

    let dispatched = ctrl.dispatch(16).unwrap();
    assert_eq!(dispatched.len(), 2);
    let high_id = ctrl.get_handlers(16).iter().find(|h| h.name == "high").unwrap().id;
    assert_eq!(dispatched[0], high_id);
}

#[test]
fn dispatch_on_unregistered_irq_errors() {
    let mut ctrl = InterruptController::new();
    assert!(ctrl.dispatch(42).is_err());
}

#[test]
fn disabled_irq_dispatches_nothing_but_does_not_error() {
    let mut ctrl = InterruptController::new();
    ctrl.register_handler(InterruptHandler::new(7, "timer"));
    ctrl.disable_irq(7);
    let dispatched = ctrl.dispatch(7).unwrap();
    assert!(dispatched.is_empty());

    ctrl.enable_irq(7);
    let dispatched = ctrl.dispatch(7).unwrap();
    assert_eq!(dispatched.len(), 1);
}

#[test]
fn invocation_count_increments_per_dispatch() {
    let mut ctrl = InterruptController::new();
    ctrl.register_handler(InterruptHandler::new(3, "irq3"));
    ctrl.dispatch(3).unwrap();
    ctrl.dispatch(3).unwrap();
    assert_eq!(ctrl.get_handler(3).unwrap().invocation_count, 2);
}

#[test]
fn unregister_handler_clears_whole_line() {
    let mut ctrl = InterruptController::new();
    ctrl.register_handler(InterruptHandler::new(5, "a"));
    ctrl.register_handler(InterruptHandler::new(5, "b"));
    ctrl.unregister_handler(5);
    assert!(ctrl.get_handler(5).is_none());
}

#[test]
fn unregister_by_id_only_removes_that_handler() {
    let mut ctrl = InterruptController::new();
    ctrl.register_handler(InterruptHandler::new(5, "a"));
    let b = InterruptHandler::new(5, "b");
    let b_id = b.id;
    ctrl.register_handler(b);

    assert!(ctrl.unregister_by_id(5, b_id));
    assert_eq!(ctrl.get_handlers(5).len(), 1);
    assert_eq!(ctrl.get_handlers(5)[0].name, "a");
}

#[test]
fn new_handler_starts_enabled_with_default_priority() {
    let h = InterruptHandler::new(9, "keyboard");
    assert!(h.enabled);
    assert_eq!(h.priority, 0);
    assert_eq!(h.invocation_count, 0);
    assert_eq!(h.cpu_affinity, None);
}

#[test]
fn builder_methods_set_fields() {
    let h = InterruptHandler::new(16, "nic").with_priority(5).with_affinity(2);
    assert_eq!(h.priority, 5);
    assert_eq!(h.cpu_affinity, Some(2));
}

#[test]
fn spurious_interrupt_names_the_line() {
    let mut ctrl = InterruptController::new();
    assert_eq!(ctrl.dispatch(42).unwrap_err(), "spurious interrupt: no handler registered for IRQ 42");
}
