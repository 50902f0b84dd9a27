use deltaos::sched::scheduler::Scheduler;
use deltaos::sched::task::{Task, TaskForeground, TaskPriority, TaskState, SIGKILL, SIGTERM, SIGTSTP};
use deltaos::KernelError;

#[test]
fn task_new_kernel_defaults() {
    let t = Task::new_kernel(1, 0x20_0000, 0x1234, "init");
    assert_eq!(t.id, 1);
    assert_eq!(t.name, "init");
    assert_eq!(t.state, TaskState::Ready);
    assert_eq!(t.entry_point, 0x1234);
    assert_eq!(t.stack_top, 0x20_0000);
    assert!(t.is_foreground());
    assert!(!t.is_stopped());
    assert_eq!(t.priority_value(), 1);
}

#[test]
fn task_initial_stack_frame() {
    let mut t = Task::new_kernel(1, 0x20_0000, 0x1234, "init");
    let frame = t.setup_initial_stack();
    assert_eq!(t.saved_rsp, 0x20_0000 - 184);
    assert_eq!(frame.len(), 184 / 8);
    assert!(frame.contains(&0x1234));
}

#[test]
fn task_signals() {
    let mut t = Task::new_kernel(1, 0x20_0000, 0x1234, "init");
    assert!(!t.has_signal(SIGTERM));
    t.send_signal(SIGTERM);
    t.send_signal(SIGKILL);
    assert!(t.has_signal(SIGTERM));
    // The lowest pending signal comes first.
    assert_eq!(t.pop_signal(), Some(SIGKILL));
    assert_eq!(t.pop_signal(), Some(SIGTERM));
    assert_eq!(t.pop_signal(), None);
}

#[test]
fn scheduler_creates_tasks_with_fresh_ids() {
    let mut s = Scheduler::new();
    let a = s.create_kernel_task(0x1000, "a", 0);
    let b = s.create_kernel_task(0x2000, "b", 0);
    assert_eq!(a.id, 1);
    assert_eq!(b.id, 2);
    assert_eq!(s.task_count(), 2);
    assert_eq!(s.ready_count(), 2);
    assert_eq!(a.stacks.len(), 1);
    assert!(a.frame.contains(&0x1000));
}

#[test]
fn scheduler_runs_highest_priority_first() {
    let mut s = Scheduler::new();
    s.create_kernel_task_with_priority(0x1000, "low", TaskPriority::Low, 0);
    s.create_kernel_task_with_priority(0x2000, "high", TaskPriority::High, 0);
    s.create_kernel_task_with_priority(0x3000, "normal", TaskPriority::Normal, 0);
    let sw = s.schedule();
    assert_eq!(sw, Some((None, 1)));
    assert_eq!(s.current_task_id(), Some(2));
    assert_eq!(s.current_task_name(), Some(String::from("high")));
    assert_eq!(s.context_switches(), 1);
}

#[test]
fn scheduler_round_robin_on_yield() {
    let mut s = Scheduler::new();
    s.create_kernel_task(0x1000, "a", 0);
    s.create_kernel_task(0x2000, "b", 0);
    s.schedule();
    assert_eq!(s.current_task_id(), Some(1));
    let sw = s.yield_current();
    assert_eq!(sw, Some((Some(0), 1)));
    assert_eq!(s.current_task_id(), Some(2));
    s.yield_current();
    assert_eq!(s.current_task_id(), Some(1));
}

#[test]
fn scheduler_terminate_and_info() {
    let mut s = Scheduler::new();
    s.create_kernel_task(0x1000, "shell", 0);
    s.create_kernel_task(0x2000, "idle", 0);
    s.create_kernel_task(0x3000, "job", 0);
    // The shell and the idle task cannot be killed.
    assert_eq!(s.terminate_task(1, 0), Err(KernelError::AccessDenied));
    assert_eq!(s.terminate_task(2, 0), Err(KernelError::AccessDenied));
    assert_eq!(s.terminate_task(3, 7), Ok(()));
    assert_eq!(s.ready_count(), 2);
    let info = s.get_task_info(3).unwrap();
    assert_eq!(info.state, TaskState::Terminated);
    assert_eq!(info.exit_code, 7);
    assert_eq!(info.state_str(), "TERM");
    assert_eq!(s.terminate_task(9, 0), Err(KernelError::InvalidArgument));
    assert!(s.get_task_info(9).is_none());
    s.cleanup_terminated();
    assert_eq!(s.list_tasks().len(), 2);
}

#[test]
fn scheduler_tick_preempts_after_time_slice() {
    let mut s = Scheduler::new();
    s.create_kernel_task(0x1000, "a", 0);
    s.create_kernel_task(0x2000, "b", 0);
    s.schedule();
    s.enable_preemption();
    assert!(s.is_preemption_enabled());
    let mut switched = None;
    for _ in 0..10 {
        if let Some(sw) = s.tick() {
            switched = Some(sw);
            break;
        }
    }
    assert_eq!(switched, Some((Some(0), 1)));
    assert_eq!(s.current_task_id(), Some(2));
    assert_eq!(s.scheduler_ticks(), s.stats().tick_count);
    assert_eq!(s.scheduler_ticks(), 10);
}

#[test]
fn scheduler_signals_and_stats() {
    let mut s = Scheduler::new();
    s.create_kernel_task(0x1000, "a", 0);
    assert_eq!(s.send_signal(1, SIGTERM), Ok(()));
    assert_eq!(s.send_signal(7, SIGTERM), Err(KernelError::InvalidArgument));
    let st = s.stats();
    assert_eq!(st.total_tasks, 1);
    assert_eq!(st.ready_tasks, 1);
    assert!(!st.preemption_enabled);
}

#[test]
fn scheduler_registers_round_trip() {
    let mut s = Scheduler::new();
    s.create_kernel_task(0x1000, "a", 0);
    let mut regs = s.task_regs(0).unwrap();
    regs.rbx = 42;
    assert!(s.save_task_regs(0, regs));
    assert_eq!(s.task_regs(0).unwrap().rbx, 42);
    assert!(s.task_regs(5).is_none());
    assert!(!s.save_task_regs(5, regs));
}

#[test]
fn fg_resumes_a_stopped_task() {
    let mut s = Scheduler::new();
    s.create_kernel_task(0x1000, "a", 0);
    s.create_kernel_task(0x2000, "b", 0);
    s.schedule();
    s.enable_preemption();
    assert_eq!(s.current_task_id(), Some(1));
    assert_eq!(s.send_signal(1, SIGTSTP), Ok(()));
    s.tick();
    let info = s.get_task_info(1).unwrap();
    assert_eq!(info.foreground, TaskForeground::Stopped);
    assert_eq!(info.state, TaskState::Blocked);
    let ready = s.ready_count();
    assert_eq!(s.foreground_task(1), Ok(()));
    let info = s.get_task_info(1).unwrap();
    assert_eq!(info.foreground, TaskForeground::Foreground);
    assert_eq!(info.state, TaskState::Ready);
    assert_eq!(s.ready_count(), ready + 1);
    assert_eq!(s.foreground_task(1), Err(KernelError::InvalidArgument));
    assert_eq!(s.foreground_task(9), Err(KernelError::InvalidArgument));
}

#[test]
fn created_ids_increase() {
    let mut s = Scheduler::new();
    let a = s.create_kernel_task(0x1000, "a", 0).id;
    let b = s.create_background_task(0x2000, "b", 0).id;
    let c = s.create_user_task(0x3000, "c", 0).id;
    assert!(a < b && b < c);
}
