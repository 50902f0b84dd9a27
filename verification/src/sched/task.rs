//! Tasks: register context, priorities, foreground/background state and signals.
use vstd::prelude::*;

use crate::VirtAddr;

verus! {

pub const TASK_STACK_SIZE: usize = 0x10000;
/// Ticks in one scheduling quantum (100 ms at 100 Hz).
pub const DEFAULT_TIME_SLICE: u64 = 10;
/// Bytes of the interrupt frame that a new task's stack starts with.
pub const INITIAL_FRAME_BYTES: usize = 184;
/// First address of the region that task stacks are carved from.
pub const STACK_REGION_START: usize = 0xA00000;
/// End of the region that task stacks are carved from.
pub const STACK_REGION_END: usize = 0x2000000;

#[derive(Debug, Clone, Copy, PartialEq, Eq, Structural)]
pub enum TaskState {
    Ready,
    Running,
    Blocked,
    Terminated,
    Zombie,
}

impl TaskState {
    pub fn as_str(&self) -> (r: &'static str)
        ensures
            r == match *self {
                TaskState::Ready => "READY",
                TaskState::Running => "RUNNING",
                TaskState::Blocked => "BLOCKED",
                TaskState::Terminated => "TERM",
                TaskState::Zombie => "ZOMBIE",
            },
    {
        match self {
            TaskState::Ready => "READY",
            TaskState::Running => "RUNNING",
            TaskState::Blocked => "BLOCKED",
            TaskState::Terminated => "TERM",
            TaskState::Zombie => "ZOMBIE",
        }
    }
}

#[derive(Debug, Clone, Copy, PartialEq, Eq, Structural, PartialOrd, Ord)]
pub enum TaskPriority {
    Low,
    Normal,
    High,
    RealTime,
}

/// The numeric level of a priority: Low 0, Normal 1, High 2, RealTime 3.
pub open spec fn priority_level(p: TaskPriority) -> u8 {
    match p {
        TaskPriority::Low => 0,
        TaskPriority::Normal => 1,
        TaskPriority::High => 2,
        TaskPriority::RealTime => 3,
    }
}

/// Levels rise strictly from Low through Normal and High to RealTime, so a
/// ready RealTime task is picked before a ready High task, a High one
/// before a Normal one, and a Normal one before a Low one (the scheduler
/// picks the highest level, see `law_schedule_runs_highest_priority`).
pub proof fn law_priority_levels_rise()
    ensures
        priority_level(TaskPriority::Low) < priority_level(TaskPriority::Normal),
        priority_level(TaskPriority::Normal) < priority_level(TaskPriority::High),
        priority_level(TaskPriority::High) < priority_level(TaskPriority::RealTime),
        forall|p: TaskPriority| priority_level(TaskPriority::Low) <= #[trigger] priority_level(p) <= priority_level(
            TaskPriority::RealTime,
        ),
{
}

impl Default for TaskPriority {
    fn default() -> (r: Self)
        ensures
            r == TaskPriority::Normal,
    {
        TaskPriority::Normal
    }
}

impl TaskPriority {
    pub fn as_str(&self) -> (r: &'static str)
        ensures
            r == match *self {
                TaskPriority::Low => "LOW",
                TaskPriority::Normal => "NORM",
                TaskPriority::High => "HIGH",
                TaskPriority::RealTime => "RT",
            },
    {
        match self {
            TaskPriority::Low => "LOW",
            TaskPriority::Normal => "NORM",
            TaskPriority::High => "HIGH",
            TaskPriority::RealTime => "RT",
        }
    }

    /// The numeric level of this priority.
    pub fn level(&self) -> (r: u8)
        ensures
            r == priority_level(*self),
    {
        match self {
            TaskPriority::Low => 0,
            TaskPriority::Normal => 1,
            TaskPriority::High => 2,
            TaskPriority::RealTime => 3,
        }
    }
}

#[derive(Debug, Clone, Copy, PartialEq, Eq, Structural)]
pub enum TaskType {
    Kernel,
    User,
}

#[derive(Debug, Clone, Copy, PartialEq, Eq, Structural)]
pub enum TaskForeground {
    Foreground,
    Background,
    Stopped,
}

/// Callee-saved registers for cooperative switching.
#[derive(Debug, Clone, Copy)]
pub struct SavedRegisters {
    pub rbx: u64,
    pub rbp: u64,
    pub r12: u64,
    pub r13: u64,
    pub r14: u64,
    pub r15: u64,
    pub rsp: u64,
}

impl Default for SavedRegisters {
    fn default() -> (r: Self)
        ensures
            r == (SavedRegisters { rbx: 0, rbp: 0, r12: 0, r13: 0, r14: 0, r15: 0, rsp: 0 }),
    {
        SavedRegisters { rbx: 0, rbp: 0, r12: 0, r13: 0, r14: 0, r15: 0, rsp: 0 }
    }
}

/// Full register state pushed on an interrupt, in stack order.
#[derive(Debug, Clone, Copy)]
pub struct InterruptFrame {
    pub r15: u64,
    pub r14: u64,
    pub r13: u64,
    pub r12: u64,
    pub r11: u64,
    pub r10: u64,
    pub r9: u64,
    pub r8: u64,
    pub rbp: u64,
    pub rdi: u64,
    pub rsi: u64,
    pub rdx: u64,
    pub rcx: u64,
    pub rbx: u64,
    pub rax: u64,
    pub ds: u64,
    pub vector: u64,
    pub error_code: u64,
    pub rip: u64,
    pub cs: u64,
    pub rflags: u64,
    pub rsp: u64,
    pub ss: u64,
}

pub struct Task {
    pub id: u64,
    pub name: String,
    pub state: TaskState,
    pub priority: TaskPriority,
    pub task_type: TaskType,
    pub foreground: TaskForeground,
    pub stack_top: VirtAddr,
    pub kernel_stack: VirtAddr,
    pub entry_point: VirtAddr,
    pub regs: SavedRegisters,
    pub saved_rsp: u64,
    pub time_slice: u64,
    pub default_time_slice: u64,
    pub total_cpu_ticks: u64,
    pub start_tick: u64,
    pub exit_code: i64,
    pub parent_id: Option<u64>,
    pub children: Vec<u64>,
    pub pml4_addr: u64,
    pub pgid: u64,
    pub joining: bool,
    pub pending_signals: u32,
    pub blocked_signals: u32,
}

pub const SIGHUP: u32 = 1;
pub const SIGINT: u32 = 2;
pub const SIGKILL: u32 = 9;
pub const SIGTERM: u32 = 15;
pub const SIGTSTP: u32 = 20;
pub const SIGCONT: u32 = 18;

/// Whether bit `s` of `mask` is set.
pub open spec fn mask_bit(mask: u32, s: u32) -> bool {
    (mask >> s) & 1u32 == 1u32
}

/// A freshly created task as `Task::new_kernel` builds it.
pub open spec fn fresh_kernel_task(t: Task, id: u64, stack_top: VirtAddr, entry: VirtAddr, name: Seq<char>) -> bool {
    &&& t.id == id
    &&& t.name@ == name
    &&& t.state == TaskState::Ready
    &&& t.priority == TaskPriority::Normal
    &&& t.task_type == TaskType::Kernel
    &&& t.foreground == TaskForeground::Foreground
    &&& t.stack_top == stack_top
    &&& t.kernel_stack == stack_top
    &&& t.entry_point == entry
    &&& t.regs == (SavedRegisters { rbx: 0, rbp: stack_top as u64, r12: 0, r13: 0, r14: 0, r15: 0, rsp: stack_top as u64 })
    &&& t.saved_rsp == stack_top as u64
    &&& t.time_slice == DEFAULT_TIME_SLICE
    &&& t.default_time_slice == DEFAULT_TIME_SLICE
    &&& t.total_cpu_ticks == 0
    &&& t.start_tick == 0
    &&& t.exit_code == 0
    &&& t.parent_id is None
    &&& t.children@.len() == 0
    &&& t.pml4_addr == 0
    &&& t.pgid == id
    &&& !t.joining
    &&& t.pending_signals == 0
    &&& t.blocked_signals == 0
}

/// The words of the first interrupt frame of a task, lowest address first:
/// fifteen zero registers, then DS, vector, error code, RIP, CS, RFLAGS, RSP, SS.
pub open spec fn initial_frame(entry: VirtAddr, stack_top: VirtAddr) -> Seq<u64> {
    Seq::new(15, |i: int| 0u64) + seq![0x10u64, 0x20u64, 0u64, entry as u64, 0x08u64, 0x202u64, stack_top as u64, 0x10u64]
}

proof fn lemma_set_bit_u32(m: u32, s: u32)
    requires
        s < 32,
    ensures
        forall|j: u32| j < 32 ==> #[trigger] mask_bit(m | (1u32 << s), j) == (j == s || mask_bit(m, j)),
{
    assert forall|j: u32| j < 32 implies #[trigger] mask_bit(m | (1u32 << s), j) == (j == s || mask_bit(m, j)) by {
        assert(((m | (1u32 << s)) >> j) & 1u32 == (if j == s { 1u32 } else { (m >> j) & 1u32 })) by (bit_vector)
            requires
                s < 32,
                j < 32,
        ;
        assert((m >> j) & 1u32 == 1u32 || (m >> j) & 1u32 == 0u32) by (bit_vector);
    }
}

proof fn lemma_clear_bit_u32(m: u32, s: u32)
    requires
        s < 32,
    ensures
        forall|j: u32| j < 32 ==> #[trigger] mask_bit(m & !(1u32 << s), j) == (j != s && mask_bit(m, j)),
{
    assert forall|j: u32| j < 32 implies #[trigger] mask_bit(m & !(1u32 << s), j) == (j != s && mask_bit(m, j)) by {
        assert(((m & !(1u32 << s)) >> j) & 1u32 == (if j == s { 0u32 } else { (m >> j) & 1u32 })) by (bit_vector)
            requires
                s < 32,
                j < 32,
        ;
    }
}

proof fn lemma_and_not_bit(p: u32, b: u32, j: u32)
    requires
        j < 32,
    ensures
        mask_bit(p & !b, j) == (mask_bit(p, j) && !mask_bit(b, j)),
{
    assert(((p & !b) >> j) & 1u32 == 1u32 <==> (((p >> j) & 1u32 == 1u32) && !((b >> j) & 1u32 == 1u32))) by (bit_vector)
        requires
            j < 32,
    ;
}

impl Task {
    /// Builds a ready kernel task with the given id and stack.
    pub fn new_kernel(id: u64, stack_top: VirtAddr, entry: VirtAddr, name: &str) -> (t: Self)
        ensures
            fresh_kernel_task(t, id, stack_top, entry, name@),
    {
        let regs = SavedRegisters { rbx: 0, rbp: stack_top as u64, r12: 0, r13: 0, r14: 0, r15: 0, rsp: stack_top as u64 };
        Task {
            id,
            name: name.to_owned(),
            state: TaskState::Ready,
            priority: TaskPriority::Normal,
            task_type: TaskType::Kernel,
            foreground: TaskForeground::Foreground,
            stack_top,
            kernel_stack: stack_top,
            entry_point: entry,
            regs,
            saved_rsp: stack_top as u64,
            time_slice: DEFAULT_TIME_SLICE,
            default_time_slice: DEFAULT_TIME_SLICE,
            total_cpu_ticks: 0,
            start_tick: 0,
            exit_code: 0,
            parent_id: None,
            children: Vec::new(),
            pml4_addr: 0,
            pgid: id,
            joining: false,
            pending_signals: 0,
            blocked_signals: 0,
        }
    }

    /// Builds a ready user task: it runs on `user_stack` and enters the
    /// kernel on `kernel_stack`.
    pub fn new_user(id: u64, user_stack: VirtAddr, kernel_stack: VirtAddr, entry: VirtAddr, name: &str) -> (t: Self)
        ensures
            fresh_kernel_task(
                (Task { task_type: TaskType::Kernel, kernel_stack: user_stack, ..t }),
                id,
                user_stack,
                entry,
                name@,
            ),
            t.task_type == TaskType::User,
            t.kernel_stack == kernel_stack,
    {
        let mut t = Self::new_kernel(id, user_stack, entry, name);
        t.task_type = TaskType::User;
        t.kernel_stack = kernel_stack;
        t
    }

    pub fn new_kernel_with_priority(
        id: u64,
        stack_top: VirtAddr,
        entry: VirtAddr,
        name: &str,
        priority: TaskPriority,
    ) -> (t: Self)
        ensures
            fresh_kernel_task((Task { priority: TaskPriority::Normal, ..t }), id, stack_top, entry, name@),
            t.priority == priority,
    {
        let mut task = Self::new_kernel(id, stack_top, entry, name);
        task.priority = priority;
        task
    }

    pub fn new_kernel_background(id: u64, stack_top: VirtAddr, entry: VirtAddr, name: &str) -> (t: Self)
        ensures
            fresh_kernel_task(
                (Task { foreground: TaskForeground::Foreground, ..t }),
                id,
                stack_top,
                entry,
                name@,
            ),
            t.foreground == TaskForeground::Background,
    {
        let mut task = Self::new_kernel(id, stack_top, entry, name);
        task.foreground = TaskForeground::Background;
        task
    }

    /// Prepares the first interrupt frame at the top of the task's stack so that
    /// the first switch to it returns into `entry_point` with interrupts enabled.
    /// Returns the frame's words from the lowest address up; the caller stores
    /// them at `saved_rsp`.
    pub fn setup_initial_stack(&mut self) -> (frame: Vec<u64>)
        requires
            old(self).stack_top >= INITIAL_FRAME_BYTES,
        ensures
            frame@ == initial_frame(old(self).entry_point, old(self).stack_top),
            final(self).saved_rsp == old(self).stack_top - INITIAL_FRAME_BYTES,
            *final(self) == (Task {
                saved_rsp: final(self).saved_rsp,
                regs: SavedRegisters { rsp: final(self).saved_rsp, ..old(self).regs },
                ..*old(self)
            }),
    {
        let mut frame: Vec<u64> = Vec::new();
        let mut i: usize = 0;
        while i < 15
            invariant
                i <= 15,
                frame@ == Seq::new(i as nat, |k: int| 0u64),
            decreases 15 - i,
        {
            frame.push(0);
            i = i + 1;
        }
        frame.push(0x10);
        frame.push(0x20);
        frame.push(0);
        frame.push(self.entry_point as u64);
        frame.push(0x08);
        frame.push(0x202);
        frame.push(self.stack_top as u64);
        frame.push(0x10);
        let rsp = (self.stack_top - INITIAL_FRAME_BYTES) as u64;
        self.saved_rsp = rsp;
        self.regs.rsp = rsp;
        assert(frame@ =~= initial_frame(old(self).entry_point, old(self).stack_top));
        frame
    }

    pub fn priority_value(&self) -> (r: u8)
        ensures
            r == priority_level(self.priority),
    {
        self.priority.level()
    }

    pub fn set_time_slice(&mut self, slices: u64)
        ensures
            *final(self) == (Task { time_slice: slices, default_time_slice: slices, ..*old(self) }),
    {
        self.time_slice = slices;
        self.default_time_slice = slices;
    }

    pub fn reset_time_slice(&mut self)
        ensures
            *final(self) == (Task { time_slice: old(self).default_time_slice, ..*old(self) }),
    {
        self.time_slice = self.default_time_slice;
    }

    /// Marks `signal` pending; numbers of 32 and above are ignored.
    pub fn send_signal(&mut self, signal: u32)
        ensures
            *final(self) == (Task {
                pending_signals: if signal < 32 {
                    old(self).pending_signals | (1u32 << signal)
                } else {
                    old(self).pending_signals
                },
                ..*old(self)
            }),
            signal < 32 ==> forall|j: u32| j < 32 ==> #[trigger] mask_bit(final(self).pending_signals, j)
                == (j == signal || mask_bit(old(self).pending_signals, j)),
    {
        if signal < 32 {
            self.pending_signals = self.pending_signals | (1u32 << signal);
            proof {
                lemma_set_bit_u32(old(self).pending_signals, signal);
            }
        }
    }

    pub fn has_signal(&self, signal: u32) -> (r: bool)
        ensures
            r == (signal < 32 && mask_bit(self.pending_signals, signal)),
    {
        if signal < 32 {
            let r = (self.pending_signals & (1u32 << signal)) != 0;
            proof {
                let m = self.pending_signals;
                assert(((m & (1u32 << signal)) != 0u32) == ((m >> signal) & 1u32 == 1u32)) by (bit_vector)
                    requires
                        signal < 32,
                ;
            }
            r
        } else {
            false
        }
    }

    /// Takes the lowest-numbered signal that is pending and not blocked.
    pub fn pop_signal(&mut self) -> (r: Option<u32>)
        ensures
            r is None <==> old(self).pending_signals & !old(self).blocked_signals == 0,
            r is None ==> *final(self) == *old(self),
            r matches Some(s) ==> {
                &&& s < 32
                &&& s == vstd::std_specs::bits::u32_trailing_zeros(
                    old(self).pending_signals & !old(self).blocked_signals,
                )
                &&& mask_bit(old(self).pending_signals, s)
                &&& !mask_bit(old(self).blocked_signals, s)
                &&& forall|j: u32| j < s ==> !(mask_bit(old(self).pending_signals, j) && !mask_bit(
                    old(self).blocked_signals,
                    j,
                ))
                &&& *final(self) == (Task {
                    pending_signals: old(self).pending_signals & !(1u32 << s),
                    ..*old(self)
                })
                &&& forall|j: u32| j < 32 ==> #[trigger] mask_bit(final(self).pending_signals, j) == (
                j != s && mask_bit(old(self).pending_signals, j))
            },
    {
        let pending = self.pending_signals & !self.blocked_signals;
        if pending == 0 {
            return None;
        }
        let signal = pending.trailing_zeros();
        proof {
            vstd::std_specs::bits::axiom_u32_trailing_zeros(pending);
            lemma_and_not_bit(self.pending_signals, self.blocked_signals, signal);
            assert forall|j: u32| j < signal implies !(mask_bit(old(self).pending_signals, j) && !mask_bit(
                old(self).blocked_signals,
                j,
            )) by {
                lemma_and_not_bit(self.pending_signals, self.blocked_signals, j);
            }
            lemma_clear_bit_u32(self.pending_signals, signal);
        }
        self.pending_signals = self.pending_signals & !(1u32 << signal);
        Some(signal)
    }

    pub fn is_foreground(&self) -> (r: bool)
        ensures
            r == (self.foreground == TaskForeground::Foreground),
    {
        self.foreground == TaskForeground::Foreground
    }

    pub fn is_stopped(&self) -> (r: bool)
        ensures
            r == (self.foreground == TaskForeground::Stopped),
    {
        self.foreground == TaskForeground::Stopped
    }
}

} // verus!
