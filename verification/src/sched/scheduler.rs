//! Priority round-robin scheduler with preemption, signals and job control.
//!
//! Every task ever created stays in an arena (`tasks`, position = id - 1);
//! the task list, the ready queue and the current task refer to arena positions.
use vstd::prelude::*;

use super::task::{
    fresh_kernel_task, initial_frame, priority_level, SavedRegisters, Task, TaskForeground,
    TaskPriority, TaskState, TaskType, INITIAL_FRAME_BYTES, SIGCONT, SIGKILL, SIGTSTP,
    STACK_REGION_END, STACK_REGION_START, TASK_STACK_SIZE,
};
use crate::{KernelError, KernelResult, VirtAddr};

verus! {

/// The scheduler's state seen as plain values.
pub struct SchedView {
    pub tasks: Seq<Task>,
    pub listed: Seq<usize>,
    pub queue: Seq<usize>,
    pub current: Option<usize>,
    pub task_count: u64,
    pub tick_count: u64,
    pub need_reschedule: bool,
    pub preempt_enabled: bool,
    pub scheduler_ticks: u64,
    pub context_switches: u64,
    pub next_stack: usize,
}

pub open spec fn is_ready(tasks: Seq<Task>, k: usize) -> bool {
    tasks[k as int].state == TaskState::Ready
}

pub open spec fn level_of(tasks: Seq<Task>, k: usize) -> u8 {
    priority_level(tasks[k as int].priority)
}

/// Some ready task in the queue has a priority above `Low`.
pub open spec fn has_raised(tasks: Seq<Task>, q: Seq<usize>) -> bool {
    exists|j: int| 0 <= j < q.len() && #[trigger] is_ready(tasks, q[j]) && level_of(tasks, q[j]) > 0
}

/// Position `i` of the queue is the one the scheduler takes next: the first ready
/// task of the highest priority; when no ready task is above `Low`, the head of
/// the queue if it is ready.
pub open spec fn picks(tasks: Seq<Task>, q: Seq<usize>, i: int) -> bool {
    &&& 0 <= i < q.len()
    &&& is_ready(tasks, q[i])
    &&& if has_raised(tasks, q) {
        &&& forall|j: int| 0 <= j < q.len() && #[trigger] is_ready(tasks, q[j]) ==> level_of(tasks, q[j]) <= level_of(tasks, q[i])
        &&& forall|j: int| 0 <= j < i && #[trigger] is_ready(tasks, q[j]) ==> level_of(tasks, q[j]) < level_of(tasks, q[i])
    } else {
        i == 0
    }
}

pub open spec fn pick(tasks: Seq<Task>, q: Seq<usize>) -> Option<int> {
    if exists|i: int| picks(tasks, q, i) {
        Some(choose|i: int| picks(tasks, q, i))
    } else {
        None
    }
}

pub proof fn lemma_pick_unique(tasks: Seq<Task>, q: Seq<usize>, i: int, i2: int)
    requires
        picks(tasks, q, i),
        picks(tasks, q, i2),
    ensures
        i == i2,
{
    if has_raised(tasks, q) {
        if i < i2 {
            assert(is_ready(tasks, q[i]));
        } else if i2 < i {
            assert(is_ready(tasks, q[i2]));
        }
    }
}

proof fn lemma_pick_is(tasks: Seq<Task>, q: Seq<usize>, i: int)
    requires
        picks(tasks, q, i),
    ensures
        pick(tasks, q) == Some(i),
{
    let c = choose|k: int| picks(tasks, q, k);
    lemma_pick_unique(tasks, q, i, c);
}

pub open spec fn with_state(t: Task, s: TaskState) -> Task {
    Task { state: s, ..t }
}

/// The current task goes back to the queue when it is still running.
pub open spec fn requeue(v: SchedView) -> SchedView {
    if v.current is Some && v.tasks[v.current->0 as int].state == TaskState::Running {
        let c = v.current->0;
        let t = v.tasks[c as int];
        SchedView {
            tasks: v.tasks.update(c as int, Task { state: TaskState::Ready, time_slice: t.default_time_slice, ..t }),
            queue: v.queue.push(c),
            ..v
        }
    } else {
        v
    }
}

/// The state after one scheduling decision.
pub open spec fn after_schedule(v: SchedView) -> SchedView {
    let w = requeue(v);
    match pick(w.tasks, w.queue) {
        Some(i) => {
            let n = w.queue[i];
            SchedView {
                tasks: w.tasks.update(n as int, with_state(w.tasks[n as int], TaskState::Running)),
                queue: w.queue.remove(i),
                current: Some(n),
                need_reschedule: false,
                context_switches: if v.current == Some(n) {
                    w.context_switches
                } else {
                    (w.context_switches + 1) as u64
                },
                ..w
            }
        },
        None => SchedView { need_reschedule: false, ..w },
    }
}

/// The switch that a scheduling decision asks for: from the old current task
/// (if any) to the newly chosen one, when they differ.
pub open spec fn schedule_switch(v: SchedView) -> Option<(Option<usize>, usize)> {
    let w = requeue(v);
    match pick(w.tasks, w.queue) {
        Some(i) => if v.current == Some(w.queue[i]) {
            None
        } else {
            Some((v.current, w.queue[i]))
        },
        None => None,
    }
}

/// The state after a preemption at a timer interrupt whose frame is at `rsp`.
pub open spec fn after_preempt(v: SchedView, rsp: u64) -> SchedView {
    if !v.preempt_enabled {
        v
    } else {
        let w = match v.current {
            Some(c) => {
                let t = v.tasks[c as int];
                SchedView {
                    tasks: v.tasks.update(
                        c as int,
                        Task { saved_rsp: rsp, state: TaskState::Ready, time_slice: t.default_time_slice, ..t },
                    ),
                    queue: v.queue.push(c),
                    ..v
                }
            },
            None => v,
        };
        match pick(w.tasks, w.queue) {
            Some(i) => {
                let n = w.queue[i];
                SchedView {
                    tasks: w.tasks.update(n as int, with_state(w.tasks[n as int], TaskState::Running)),
                    queue: w.queue.remove(i),
                    current: Some(n),
                    context_switches: (w.context_switches + 1) as u64,
                    ..w
                }
            },
            None => match v.current {
                Some(c) => SchedView {
                    tasks: w.tasks.update(c as int, with_state(w.tasks[c as int], TaskState::Running)),
                    ..w
                },
                None => w,
            },
        }
    }
}

/// The stack pointer that the interrupt returns on after a preemption.
pub open spec fn preempt_rsp(v: SchedView, rsp: u64) -> u64 {
    if !v.preempt_enabled {
        rsp
    } else {
        let w = after_preempt(v, rsp);
        if pick(requeue_for_preempt(v, rsp).tasks, requeue_for_preempt(v, rsp).queue) is Some {
            w.tasks[w.current->0 as int].saved_rsp
        } else {
            rsp
        }
    }
}

/// The intermediate state of a preemption, before the next task is chosen.
pub open spec fn requeue_for_preempt(v: SchedView, rsp: u64) -> SchedView {
    match v.current {
        Some(c) => {
            let t = v.tasks[c as int];
            SchedView {
                tasks: v.tasks.update(
                    c as int,
                    Task { saved_rsp: rsp, state: TaskState::Ready, time_slice: t.default_time_slice, ..t },
                ),
                queue: v.queue.push(c),
                ..v
            }
        },
        None => v,
    }
}

/// One timer tick applied to the running task: the task afterwards, whether the
/// tick ends there (a signal stopped or killed it, or it is not running), and
/// whether it asks for a reschedule.
pub open spec fn tick_task(t: Task) -> (Task, bool, bool) {
    let p = t.pending_signals & !t.blocked_signals;
    let sig: Option<u32> = if t.pending_signals != 0 && p != 0 {
        Some(vstd::std_specs::bits::u32_trailing_zeros(p))
    } else {
        None
    };
    let t1 = match sig {
        Some(s) => Task { pending_signals: t.pending_signals & !(1u32 << s), ..t },
        None => t,
    };
    if sig == Some(SIGKILL) {
        (Task { state: TaskState::Terminated, exit_code: -9i64, ..t1 }, true, true)
    } else if sig == Some(SIGTSTP) {
        (Task { foreground: TaskForeground::Stopped, state: TaskState::Blocked, ..t1 }, true, true)
    } else {
        let t2 = if sig == Some(SIGCONT) && t1.foreground == TaskForeground::Stopped {
            Task { foreground: TaskForeground::Background, state: TaskState::Running, ..t1 }
        } else {
            t1
        };
        if t2.state != TaskState::Running {
            (t2, true, true)
        } else {
            let ts = if t2.time_slice > 0 {
                (t2.time_slice - 1) as u64
            } else {
                t2.time_slice
            };
            let t3 = Task { total_cpu_ticks: (t2.total_cpu_ticks + 1) as u64, time_slice: ts, ..t2 };
            (t3, false, ts == 0)
        }
    }
}

/// The state after a timer tick.
pub open spec fn after_tick(v: SchedView) -> SchedView {
    let v1 = SchedView {
        tick_count: (v.tick_count + 1) as u64,
        scheduler_ticks: (v.scheduler_ticks + 1) as u64,
        ..v
    };
    if !v.preempt_enabled {
        v1
    } else {
        match v.current {
            Some(c) => {
                let (t, stop, resched) = tick_task(v.tasks[c as int]);
                let v2 = SchedView {
                    tasks: v1.tasks.update(c as int, t),
                    need_reschedule: v1.need_reschedule || resched,
                    ..v1
                };
                if stop {
                    v2
                } else if v2.need_reschedule {
                    after_schedule(v2)
                } else {
                    v2
                }
            },
            None => if v1.need_reschedule {
                after_schedule(v1)
            } else {
                v1
            },
        }
    }
}

/// Arena position of the listed task with this id.
pub open spec fn lookup(v: SchedView, id: u64) -> Option<usize> {
    if id >= 1 && id - 1 <= usize::MAX && v.listed.contains((id - 1) as usize) {
        Some((id - 1) as usize)
    } else {
        None
    }
}

/// The switch a tick asks for: only when it ends in a scheduling decision.
pub open spec fn tick_switch(v: SchedView) -> Option<(Option<usize>, usize)> {
    let v1 = SchedView {
        tick_count: (v.tick_count + 1) as u64,
        scheduler_ticks: (v.scheduler_ticks + 1) as u64,
        ..v
    };
    if !v.preempt_enabled {
        None
    } else {
        match v.current {
            Some(c) => {
                let (t, stop, resched) = tick_task(v.tasks[c as int]);
                let v2 = SchedView {
                    tasks: v1.tasks.update(c as int, t),
                    need_reschedule: v1.need_reschedule || resched,
                    ..v1
                };
                if !stop && v2.need_reschedule {
                    schedule_switch(v2)
                } else {
                    None
                }
            },
            None => if v1.need_reschedule {
                schedule_switch(v1)
            } else {
                None
            },
        }
    }
}

pub open spec fn set_task(v: SchedView, k: usize, t: Task) -> SchedView {
    SchedView { tasks: v.tasks.update(k as int, t), ..v }
}

/// Queue entries that are not the task at arena position `k`.
pub open spec fn other_than(k: usize) -> spec_fn(usize) -> bool {
    |x: usize| x != k
}

/// Listed tasks that are not terminated.
pub open spec fn not_terminated(tasks: Seq<Task>) -> spec_fn(usize) -> bool {
    |x: usize| tasks[x as int].state != TaskState::Terminated
}

/// Queue entries that `cleanup_terminated` keeps.
pub open spec fn kept_in_queue(tasks: Seq<Task>, listed: Seq<usize>) -> spec_fn(usize) -> bool {
    |x: usize| !(listed.contains(x) && tasks[x as int].state == TaskState::Terminated)
}

/// Summary of a task as `ps` shows it.
#[derive(Debug, Clone)]
pub struct TaskInfo {
    pub id: u64,
    pub name: String,
    pub state: TaskState,
    pub priority: TaskPriority,
    pub task_type: TaskType,
    pub foreground: TaskForeground,
    pub entry_point: VirtAddr,
    pub cpu_ticks: u64,
    pub exit_code: i64,
}

pub open spec fn info_of(t: Task, info: TaskInfo) -> bool {
    &&& info.id == t.id
    &&& info.name@ == t.name@
    &&& info.state == t.state
    &&& info.priority == t.priority
    &&& info.task_type == t.task_type
    &&& info.foreground == t.foreground
    &&& info.entry_point == t.entry_point
    &&& info.cpu_ticks == t.total_cpu_ticks
    &&& info.exit_code == t.exit_code
}

impl TaskInfo {
    pub fn state_str(&self) -> (r: &'static str)
        ensures
            r == match self.state {
                TaskState::Ready => "READY",
                TaskState::Running => "RUNNING",
                TaskState::Blocked => "BLOCKED",
                TaskState::Terminated => "TERM",
                TaskState::Zombie => "ZOMBIE",
            },
    {
        self.state.as_str()
    }

    pub fn priority_str(&self) -> (r: &'static str)
        ensures
            r == match self.priority {
                TaskPriority::Low => "LOW",
                TaskPriority::Normal => "NORM",
                TaskPriority::High => "HIGH",
                TaskPriority::RealTime => "RT",
            },
    {
        self.priority.as_str()
    }

    pub fn fg_str(&self) -> (r: &'static str)
        ensures
            r == match self.foreground {
                TaskForeground::Foreground => "FG",
                TaskForeground::Background => "BG",
                TaskForeground::Stopped => "STP",
            },
    {
        match self.foreground {
            TaskForeground::Foreground => "FG",
            TaskForeground::Background => "BG",
            TaskForeground::Stopped => "STP",
        }
    }
}

/// Counters and flags reported by `stats`.
#[derive(Debug, Clone)]
pub struct SchedulerStats {
    pub total_tasks: u64,
    pub ready_tasks: usize,
    pub tick_count: u64,
    pub context_switches: u64,
    pub preemption_enabled: bool,
    pub current_task: String,
}

/// What the caller must do to start a new task: clear its stack regions and
/// store its first interrupt frame at `frame_addr`.
pub struct TaskCreation {
    pub id: u64,
    pub stacks: Vec<(VirtAddr, usize)>,
    pub frame_addr: u64,
    pub frame: Vec<u64>,
}

/// A freshly created task with its first frame prepared.
pub open spec fn created(t: Task, id: u64, stack_top: VirtAddr, entry: VirtAddr, name: Seq<char>, now: u64) -> bool {
    &&& fresh_kernel_task(
        (Task {
            start_tick: 0,
            saved_rsp: stack_top as u64,
            regs: SavedRegisters { rsp: stack_top as u64, ..t.regs },
            ..t
        }),
        id,
        stack_top,
        entry,
        name,
    )
    &&& t.start_tick == now
    &&& t.saved_rsp == stack_top - INITIAL_FRAME_BYTES
    &&& t.regs.rsp == t.saved_rsp
}

pub struct Scheduler {
    tasks: Vec<Task>,
    all_tasks: Vec<usize>,
    ready_queue: std::collections::VecDeque<usize>,
    current: Option<usize>,
    task_count: u64,
    tick_count: u64,
    need_reschedule: bool,
    preempt_enabled: bool,
    scheduler_ticks: u64,
    context_switches: u64,
    next_stack: usize,
}

impl View for Scheduler {
    type V = SchedView;

    closed spec fn view(&self) -> SchedView {
        SchedView {
            tasks: self.tasks@,
            listed: self.all_tasks@,
            queue: self.ready_queue@,
            current: self.current,
            task_count: self.task_count,
            tick_count: self.tick_count,
            need_reschedule: self.need_reschedule,
            preempt_enabled: self.preempt_enabled,
            scheduler_ticks: self.scheduler_ticks,
            context_switches: self.context_switches,
            next_stack: self.next_stack,
        }
    }
}

/// The shape every scheduler state keeps.
pub open spec fn sched_wf(v: SchedView) -> bool {
    &&& v.task_count == v.tasks.len()
    &&& forall|k: int| 0 <= k < v.tasks.len() ==> #[trigger] v.tasks[k].id == k + 1
    &&& forall|i: int| 0 <= i < v.listed.len() ==> #[trigger] v.listed[i] < v.tasks.len()
    &&& forall|i: int| 0 <= i < v.queue.len() ==> #[trigger] v.queue[i] < v.tasks.len()
    &&& v.current matches Some(c) ==> c < v.tasks.len()
    &&& STACK_REGION_START <= v.next_stack <= STACK_REGION_END
}

/// Pushing a new task keeps the shape.
proof fn lemma_push_task_wf(v: SchedView, t: Task)
    requires
        sched_wf(v),
        t.id == v.tasks.len() + 1,
        room_for_task(v),
    ensures
        sched_wf(
            SchedView {
                tasks: v.tasks.push(t),
                listed: v.listed.push(v.tasks.len() as usize),
                queue: v.queue.push(v.tasks.len() as usize),
                task_count: (v.task_count + 1) as u64,
                ..v
            },
        ),
{
}

/// Filtering keeps every element below a bound below it.
proof fn lemma_filter_bounded(s: Seq<usize>, p: spec_fn(usize) -> bool, bound: int)
    requires
        forall|i: int| 0 <= i < s.len() ==> #[trigger] s[i] < bound,
    ensures
        forall|i: int| 0 <= i < s.filter(p).len() ==> #[trigger] s.filter(p)[i] < bound,
{
    assert forall|i: int| 0 <= i < s.filter(p).len() implies #[trigger] s.filter(p)[i] < bound by {
        let x = s.filter(p)[i];
        assert(s.filter(p).contains(x));
        s.lemma_filter_contains_rev(p, x);
    }
}

/// Another task can be created: its id and arena position still fit.
pub open spec fn room_for_task(v: SchedView) -> bool {
    &&& v.task_count + 1 < u64::MAX
    &&& v.task_count + 1 < usize::MAX
}

impl Scheduler {
    pub closed spec fn wf(&self) -> bool {
        &&& sched_wf(self@)
    }

    /// What a well-formed scheduler keeps (see `sched_wf`): one task per
    /// id from 1 up, and the current task, the queued and the listed
    /// positions all within the task table.
    pub proof fn lemma_wf(&self)
        requires
            self.wf(),
        ensures
            sched_wf(self@),
    {
    }

    pub fn new() -> (s: Self)
        ensures
            s.wf(),
            s@ == (SchedView {
                tasks: Seq::empty(),
                listed: Seq::empty(),
                queue: Seq::empty(),
                current: None,
                task_count: 0,
                tick_count: 0,
                need_reschedule: false,
                preempt_enabled: false,
                scheduler_ticks: 0,
                context_switches: 0,
                next_stack: STACK_REGION_START,
            }),
    {
        let s = Scheduler {
            tasks: Vec::new(),
            all_tasks: Vec::new(),
            ready_queue: std::collections::VecDeque::new(),
            current: None,
            task_count: 0,
            tick_count: 0,
            need_reschedule: false,
            preempt_enabled: false,
            scheduler_ticks: 0,
            context_switches: 0,
            next_stack: STACK_REGION_START,
        };
        assert(s@.tasks =~= Seq::empty());
        s
    }

    /// Carves a stack of `size` bytes from the stack region and returns its top,
    /// or 0 when the region is exhausted.
    fn alloc_stack(&mut self, size: usize) -> (top: VirtAddr)
        requires
            old(self).wf(),
        ensures
            final(self).wf(),
            old(self).next_stack + size > STACK_REGION_END ==> top == 0 && final(self)@ == old(self)@,
            old(self).next_stack + size <= STACK_REGION_END ==> top == old(self).next_stack + size
                && final(self)@ == (SchedView { next_stack: (old(self).next_stack + size) as usize, ..old(self)@ }),
    {
        if size > STACK_REGION_END - self.next_stack {
            return 0;
        }
        let addr = self.next_stack;
        self.next_stack = self.next_stack + size;
        addr + size
    }

    /// Adds a prepared task to the arena, the task list and the back of the ready queue.
    fn enqueue_new(&mut self, task: Task)
        requires
            old(self).wf(),
            task.id == old(self)@.tasks.len() + 1,
            room_for_task(old(self)@),
        ensures
            final(self).wf(),
            final(self)@ == (SchedView {
                tasks: old(self)@.tasks.push(task),
                listed: old(self)@.listed.push(old(self)@.tasks.len() as usize),
                queue: old(self)@.queue.push(old(self)@.tasks.len() as usize),
                task_count: (old(self)@.task_count + 1) as u64,
                ..old(self)@
            }),
    {
        let idx = self.tasks.len();
        proof {
            lemma_push_task_wf(self@, task);
        }
        self.tasks.push(task);
        self.ready_queue.push_back(idx);
        self.all_tasks.push(idx);
        self.task_count = self.task_count + 1;
    }

    /// Creates a ready kernel task of normal priority and queues it.
    pub fn create_kernel_task(&mut self, entry: VirtAddr, name: &str, now: u64) -> (r: TaskCreation)
        requires
            old(self).wf(),
            room_for_task(old(self)@),
            old(self)@.next_stack + TASK_STACK_SIZE <= STACK_REGION_END,
        ensures
            final(self).wf(),
            ({
                let k = old(self)@.tasks.len();
                let top = (old(self)@.next_stack + TASK_STACK_SIZE) as usize;
                let t = final(self)@.tasks[k as int];
                &&& r.id == k + 1
                &&& forall|j: int| 0 <= j < k ==> #[trigger] old(self)@.tasks[j].id < r.id
                &&& created(t, r.id, top, entry, name@, now)
                &&& r.stacks@ == seq![(old(self)@.next_stack, TASK_STACK_SIZE)]
                &&& r.frame_addr == t.saved_rsp
                &&& r.frame@ == initial_frame(entry, top)
                &&& final(self)@ == (SchedView {
                    tasks: old(self)@.tasks.push(t),
                    listed: old(self)@.listed.push(k as usize),
                    queue: old(self)@.queue.push(k as usize),
                    task_count: (old(self)@.task_count + 1) as u64,
                    next_stack: top,
                    ..old(self)@
                })
            }),
    {
        let id = self.task_count + 1;
        let base = self.next_stack;
        let stack_top = self.alloc_stack(TASK_STACK_SIZE);
        let mut task = Task::new_kernel(id, stack_top, entry, name);
        let frame = task.setup_initial_stack();
        task.start_tick = now;
        let frame_addr = task.saved_rsp;
        self.enqueue_new(task);
        let mut stacks: Vec<(VirtAddr, usize)> = Vec::new();
        stacks.push((base, TASK_STACK_SIZE));
        TaskCreation { id, stacks, frame_addr, frame }
    }

    /// Creates a ready kernel task of the given priority and queues it.
    pub fn create_kernel_task_with_priority(
        &mut self,
        entry: VirtAddr,
        name: &str,
        priority: TaskPriority,
        now: u64,
    ) -> (r: TaskCreation)
        requires
            old(self).wf(),
            room_for_task(old(self)@),
            old(self)@.next_stack + TASK_STACK_SIZE <= STACK_REGION_END,
        ensures
            final(self).wf(),
            ({
                let k = old(self)@.tasks.len();
                let top = (old(self)@.next_stack + TASK_STACK_SIZE) as usize;
                let t = final(self)@.tasks[k as int];
                &&& r.id == k + 1
                &&& forall|j: int| 0 <= j < k ==> #[trigger] old(self)@.tasks[j].id < r.id
                &&& t.priority == priority
                &&& created((Task { priority: TaskPriority::Normal, ..t }), r.id, top, entry, name@, now)
                &&& r.stacks@ == seq![(old(self)@.next_stack, TASK_STACK_SIZE)]
                &&& r.frame_addr == t.saved_rsp
                &&& r.frame@ == initial_frame(entry, top)
                &&& final(self)@ == (SchedView {
                    tasks: old(self)@.tasks.push(t),
                    listed: old(self)@.listed.push(k as usize),
                    queue: old(self)@.queue.push(k as usize),
                    task_count: (old(self)@.task_count + 1) as u64,
                    next_stack: top,
                    ..old(self)@
                })
            }),
    {
        let id = self.task_count + 1;
        let base = self.next_stack;
        let stack_top = self.alloc_stack(TASK_STACK_SIZE);
        let mut task = Task::new_kernel_with_priority(id, stack_top, entry, name, priority);
        let frame = task.setup_initial_stack();
        task.start_tick = now;
        let frame_addr = task.saved_rsp;
        self.enqueue_new(task);
        let mut stacks: Vec<(VirtAddr, usize)> = Vec::new();
        stacks.push((base, TASK_STACK_SIZE));
        TaskCreation { id, stacks, frame_addr, frame }
    }

    /// Creates a ready background kernel task and queues it.
    pub fn create_background_task(&mut self, entry: VirtAddr, name: &str, now: u64) -> (r: TaskCreation)
        requires
            old(self).wf(),
            room_for_task(old(self)@),
            old(self)@.next_stack + TASK_STACK_SIZE <= STACK_REGION_END,
        ensures
            final(self).wf(),
            ({
                let k = old(self)@.tasks.len();
                let top = (old(self)@.next_stack + TASK_STACK_SIZE) as usize;
                let t = final(self)@.tasks[k as int];
                &&& r.id == k + 1
                &&& forall|j: int| 0 <= j < k ==> #[trigger] old(self)@.tasks[j].id < r.id
                &&& t.foreground == TaskForeground::Background
                &&& created((Task { foreground: TaskForeground::Foreground, ..t }), r.id, top, entry, name@, now)
                &&& r.stacks@ == seq![(old(self)@.next_stack, TASK_STACK_SIZE)]
                &&& r.frame_addr == t.saved_rsp
                &&& r.frame@ == initial_frame(entry, top)
                &&& final(self)@ == (SchedView {
                    tasks: old(self)@.tasks.push(t),
                    listed: old(self)@.listed.push(k as usize),
                    queue: old(self)@.queue.push(k as usize),
                    task_count: (old(self)@.task_count + 1) as u64,
                    next_stack: top,
                    ..old(self)@
                })
            }),
    {
        let id = self.task_count + 1;
        let base = self.next_stack;
        let stack_top = self.alloc_stack(TASK_STACK_SIZE);
        let mut task = Task::new_kernel_background(id, stack_top, entry, name);
        let frame = task.setup_initial_stack();
        task.start_tick = now;
        let frame_addr = task.saved_rsp;
        self.enqueue_new(task);
        let mut stacks: Vec<(VirtAddr, usize)> = Vec::new();
        stacks.push((base, TASK_STACK_SIZE));
        TaskCreation { id, stacks, frame_addr, frame }
    }

    /// Creates a ready user task (a user stack, then a kernel stack, which is 0
    /// when the region is exhausted) and queues it.
    pub fn create_user_task(&mut self, entry: VirtAddr, name: &str, now: u64) -> (r: TaskCreation)
        requires
            old(self).wf(),
            room_for_task(old(self)@),
            old(self)@.next_stack + TASK_STACK_SIZE <= STACK_REGION_END,
        ensures
            final(self).wf(),
            ({
                let k = old(self)@.tasks.len();
                let top = (old(self)@.next_stack + TASK_STACK_SIZE) as usize;
                let second = top + TASK_STACK_SIZE <= STACK_REGION_END;
                let ktop = if second { (top + TASK_STACK_SIZE) as usize } else { 0usize };
                let t = final(self)@.tasks[k as int];
                &&& r.id == k + 1
                &&& forall|j: int| 0 <= j < k ==> #[trigger] old(self)@.tasks[j].id < r.id
                &&& t.task_type == TaskType::User
                &&& t.kernel_stack == ktop
                &&& created((Task { task_type: TaskType::Kernel, kernel_stack: top, ..t }), r.id, top, entry, name@, now)
                &&& r.stacks@ == if second {
                    seq![(old(self)@.next_stack, TASK_STACK_SIZE), (top, TASK_STACK_SIZE)]
                } else {
                    seq![(old(self)@.next_stack, TASK_STACK_SIZE)]
                }
                &&& r.frame_addr == t.saved_rsp
                &&& r.frame@ == initial_frame(entry, top)
                &&& final(self)@ == (SchedView {
                    tasks: old(self)@.tasks.push(t),
                    listed: old(self)@.listed.push(k as usize),
                    queue: old(self)@.queue.push(k as usize),
                    task_count: (old(self)@.task_count + 1) as u64,
                    next_stack: if second { ktop } else { top },
                    ..old(self)@
                })
            }),
    {
        let id = self.task_count + 1;
        let base = self.next_stack;
        let user_stack = self.alloc_stack(TASK_STACK_SIZE);
        let kernel_stack = self.alloc_stack(TASK_STACK_SIZE);
        let mut task = Task::new_user(id, user_stack, kernel_stack, entry, name);
        let frame = task.setup_initial_stack();
        task.start_tick = now;
        let frame_addr = task.saved_rsp;
        self.enqueue_new(task);
        let mut stacks: Vec<(VirtAddr, usize)> = Vec::new();
        stacks.push((base, TASK_STACK_SIZE));
        if kernel_stack != 0 {
            stacks.push((user_stack, TASK_STACK_SIZE));
        }
        TaskCreation { id, stacks, frame_addr, frame }
    }

    /// Creates the idle task: lowest priority, name "idle", entering at `entry`.
    pub fn create_idle_task(&mut self, entry: VirtAddr, now: u64) -> (r: TaskCreation)
        requires
            old(self).wf(),
            room_for_task(old(self)@),
            old(self)@.next_stack + TASK_STACK_SIZE <= STACK_REGION_END,
        ensures
            final(self).wf(),
            ({
                let k = old(self)@.tasks.len();
                let top = (old(self)@.next_stack + TASK_STACK_SIZE) as usize;
                let t = final(self)@.tasks[k as int];
                &&& r.id == k + 1
                &&& forall|j: int| 0 <= j < k ==> #[trigger] old(self)@.tasks[j].id < r.id
                &&& t.priority == TaskPriority::Low
                &&& created((Task { priority: TaskPriority::Normal, ..t }), r.id, top, entry, "idle"@, now)
                &&& r.frame_addr == t.saved_rsp
                &&& r.frame@ == initial_frame(entry, top)
                &&& final(self)@ == (SchedView {
                    tasks: old(self)@.tasks.push(t),
                    listed: old(self)@.listed.push(k as usize),
                    queue: old(self)@.queue.push(k as usize),
                    task_count: (old(self)@.task_count + 1) as u64,
                    next_stack: top,
                    ..old(self)@
                })
            }),
    {
        self.create_kernel_task_with_priority(entry, "idle", TaskPriority::Low, now)
    }

    /// Takes the next task off the ready queue (see `picks`).
    fn pick_next_task(&mut self) -> (r: Option<usize>)
        requires
            old(self).wf(),
        ensures
            final(self).wf(),
            match pick(old(self)@.tasks, old(self)@.queue) {
                Some(i) => r == Some(old(self)@.queue[i]) && final(self)@ == (SchedView {
                    queue: old(self)@.queue.remove(i),
                    ..old(self)@
                }),
                None => r is None && final(self)@ == old(self)@,
            },
    {
        let ghost tasks = self@.tasks;
        let ghost q = self@.queue;
        let len = self.ready_queue.len();
        if len == 0 {
            return None;
        }
        let mut best_idx: usize = 0;
        let mut best: u8 = 0;
        let mut idx: usize = 0;
        while idx < len
            invariant
                self@ == old(self)@,
                self.wf(),
                tasks == self@.tasks,
                q == self@.queue,
                len == q.len(),
                idx <= len,
                best_idx < len,
                best == 0 ==> best_idx == 0 && forall|j: int| 0 <= j < idx && #[trigger] is_ready(tasks, q[j]) ==> level_of(tasks, q[j]) == 0,
                best > 0 ==> {
                    &&& best_idx < idx
                    &&& is_ready(tasks, q[best_idx as int])
                    &&& level_of(tasks, q[best_idx as int]) == best
                    &&& forall|j: int| 0 <= j < idx && #[trigger] is_ready(tasks, q[j]) ==> level_of(tasks, q[j]) <= best
                    &&& forall|j: int| 0 <= j < best_idx && #[trigger] is_ready(tasks, q[j]) ==> level_of(tasks, q[j]) < best
                },
            decreases len - idx,
        {
            let k = self.ready_queue[idx];
            let lvl = self.tasks[k].priority.level();
            if self.tasks[k].state == TaskState::Ready && lvl > best {
                best = lvl;
                best_idx = idx;
            }
            idx = idx + 1;
        }
        let head = self.ready_queue[best_idx];
        if self.tasks[head].state != TaskState::Ready {
            proof {
                assert(best == 0);
                assert(!has_raised(tasks, q));
                assert forall|i: int| !picks(tasks, q, i) by {}
            }
            return None;
        }
        proof {
            if best > 0 {
                assert(has_raised(tasks, q));
            } else {
                assert(!has_raised(tasks, q));
            }
            assert(picks(tasks, q, best_idx as int));
            lemma_pick_is(tasks, q, best_idx as int);
        }
        self.ready_queue.remove(best_idx)
    }

    /// Makes one round-robin decision: a still-running current task goes to the
    /// back of the queue and the next task (see `picks`) becomes current.
    /// Returns the switch the caller must perform, if the current task changed.
    pub fn schedule(&mut self) -> (switch: Option<(Option<usize>, usize)>)
        requires
            old(self).wf(),
            old(self)@.context_switches < u64::MAX,
        ensures
            final(self).wf(),
            final(self)@ == after_schedule(old(self)@),
            switch == schedule_switch(old(self)@),
    {
        self.need_reschedule = false;
        let current_arc = self.current;
        self.current = None;
        if let Some(c) = current_arc {
            if self.tasks[c].state == TaskState::Running {
                self.tasks[c].state = TaskState::Ready;
                self.tasks[c].reset_time_slice();
                self.ready_queue.push_back(c);
            }
        }
        let ghost w = requeue(old(self)@);
        assert(self@.tasks =~= w.tasks);
        assert(self@.queue =~= w.queue);
        assert(self@ == (SchedView { current: None, need_reschedule: false, ..w }));
        let next = self.pick_next_task();
        match next {
            Some(n) => {
                self.tasks[n].state = TaskState::Running;
                self.current = Some(n);
                let should_switch = match current_arc {
                    Some(c) => c != n,
                    None => true,
                };
                if should_switch {
                    self.context_switches = self.context_switches + 1;
                    Some((current_arc, n))
                } else {
                    None
                }
            },
            None => {
                self.current = current_arc;
                None
            },
        }
    }

    /// Called from the timer interrupt with the address of the interrupted
    /// task's frame; returns the frame address to resume from.
    pub fn preempt_schedule(&mut self, current_rsp: u64) -> (r: u64)
        requires
            old(self).wf(),
            old(self)@.context_switches < u64::MAX,
        ensures
            final(self).wf(),
            final(self)@ == after_preempt(old(self)@, current_rsp),
            r == preempt_rsp(old(self)@, current_rsp),
    {
        if !self.preempt_enabled {
            return current_rsp;
        }
        if let Some(c) = self.current {
            self.tasks[c].saved_rsp = current_rsp;
            self.tasks[c].state = TaskState::Ready;
            self.tasks[c].reset_time_slice();
            self.ready_queue.push_back(c);
        }
        assert(self@.tasks =~= requeue_for_preempt(old(self)@, current_rsp).tasks);
        assert(self@.queue =~= requeue_for_preempt(old(self)@, current_rsp).queue);
        assert(self@ == requeue_for_preempt(old(self)@, current_rsp));
        let next = self.pick_next_task();
        match next {
            Some(n) => {
                self.tasks[n].state = TaskState::Running;
                let next_rsp = self.tasks[n].saved_rsp;
                self.current = Some(n);
                self.context_switches = self.context_switches + 1;
                next_rsp
            },
            None => {
                if let Some(c) = self.current {
                    self.tasks[c].state = TaskState::Running;
                }
                current_rsp
            },
        }
    }

    /// One timer tick: counts it, handles a pending signal of the running task,
    /// charges the task's quantum and reschedules when it is used up.
    /// Returns the switch the caller must perform, if any.
    pub fn tick(&mut self) -> (switch: Option<(Option<usize>, usize)>)
        requires
            old(self).wf(),
            old(self)@.tick_count < u64::MAX,
            old(self)@.scheduler_ticks < u64::MAX,
            old(self)@.context_switches < u64::MAX,
            old(self)@.current matches Some(c) ==> old(self)@.tasks[c as int].total_cpu_ticks < u64::MAX,
        ensures
            final(self).wf(),
            final(self)@ == after_tick(old(self)@),
            switch == tick_switch(old(self)@),
    {
        self.tick_count = self.tick_count + 1;
        self.scheduler_ticks = self.scheduler_ticks + 1;
        if !self.preempt_enabled {
            return None;
        }
        if let Some(c) = self.current {
            let stop = self.tick_running(c);
            if stop {
                return None;
            }
        }
        if self.need_reschedule {
            return self.schedule();
        }
        None
    }

    /// The part of a tick that concerns the current task `c`; returns whether the tick ends there.
    #[verifier::rlimit(60)]
    fn tick_running(&mut self, c: usize) -> (stop: bool)
        requires
            old(self).wf(),
            old(self)@.current == Some(c),
            old(self)@.tasks[c as int].total_cpu_ticks < u64::MAX,
        ensures
            final(self).wf(),
            ({
                let (t, st, resched) = tick_task(old(self)@.tasks[c as int]);
                &&& stop == st
                &&& final(self)@ == (SchedView {
                    tasks: old(self)@.tasks.update(c as int, t),
                    need_reschedule: old(self)@.need_reschedule || resched,
                    ..old(self)@
                })
            }),
    {
        let ghost t0 = self.tasks@[c as int];
        if self.tasks[c].pending_signals != 0 {
            if let Some(signal) = self.tasks[c].pop_signal() {
                if signal == SIGKILL {
                    self.tasks[c].state = TaskState::Terminated;
                    self.tasks[c].exit_code = -9;
                    self.need_reschedule = true;
                    assert(self@.tasks =~= old(self)@.tasks.update(c as int, tick_task(t0).0));
                    return true;
                } else if signal == SIGTSTP {
                    self.tasks[c].foreground = TaskForeground::Stopped;
                    self.tasks[c].state = TaskState::Blocked;
                    self.need_reschedule = true;
                    assert(self@.tasks =~= old(self)@.tasks.update(c as int, tick_task(t0).0));
                    return true;
                } else if signal == SIGCONT {
                    if self.tasks[c].foreground == TaskForeground::Stopped {
                        self.tasks[c].foreground = TaskForeground::Background;
                        self.tasks[c].state = TaskState::Running;
                    }
                }
            }
        }
        if self.tasks[c].state != TaskState::Running {
            self.need_reschedule = true;
            assert(self@.tasks =~= old(self)@.tasks.update(c as int, tick_task(t0).0));
            return true;
        }
        self.tasks[c].total_cpu_ticks = self.tasks[c].total_cpu_ticks + 1;
        if self.tasks[c].time_slice > 0 {
            self.tasks[c].time_slice = self.tasks[c].time_slice - 1;
        }
        if self.tasks[c].time_slice == 0 {
            self.need_reschedule = true;
        }
        assert(self@.tasks =~= old(self)@.tasks.update(c as int, tick_task(t0).0));
        false
    }

    /// Arena position of the listed task with this id.
    fn find_listed(&self, task_id: u64) -> (r: Option<usize>)
        requires
            self.wf(),
        ensures
            r == lookup(self@, task_id),
    {
        let mut i: usize = 0;
        while i < self.all_tasks.len()
            invariant
                self.wf(),
                i <= self@.listed.len(),
                forall|j: int| 0 <= j < i ==> self@.tasks[#[trigger] self@.listed[j] as int].id != task_id,
            decreases self@.listed.len() - i,
        {
            let k = self.all_tasks[i];
            if self.tasks[k].id == task_id {
                assert(self@.listed.contains((task_id - 1) as usize)) by {
                    assert(self@.listed[i as int] == k);
                }
                return Some(k);
            }
            i = i + 1;
        }
        proof {
            if task_id >= 1 && task_id - 1 <= usize::MAX && self@.listed.contains((task_id - 1) as usize) {
                let x = (task_id - 1) as usize;
                let j = choose|j: int| 0 <= j < self@.listed.len() && self@.listed[j] == x;
                assert(self@.listed[j] == x);
                assert(x < self@.tasks.len());
                assert(self@.tasks[x as int].id == x + 1);
                assert(self@.tasks[self@.listed[j] as int].id != task_id);
            }
        }
        None
    }

    /// Marks the current task blocked and asks for a reschedule.
    pub fn block_current(&mut self, _reason: &str)
        requires
            old(self).wf(),
        ensures
            final(self).wf(),
            final(self)@ == match old(self)@.current {
                Some(c) => SchedView {
                    need_reschedule: true,
                    ..set_task(old(self)@, c, with_state(old(self)@.tasks[c as int], TaskState::Blocked))
                },
                None => old(self)@,
            },
    {
        if let Some(c) = self.current {
            self.tasks[c].state = TaskState::Blocked;
            self.need_reschedule = true;
        }
        assert(self@.tasks =~= final(self)@.tasks);
    }

    /// Makes a blocked task ready again and queues it.
    pub fn unblock_task(&mut self, task_id: u64) -> (r: KernelResult<()>)
        requires
            old(self).wf(),
        ensures
            final(self).wf(),
            match lookup(old(self)@, task_id) {
                Some(k) if old(self)@.tasks[k as int].state == TaskState::Blocked => {
                    &&& r is Ok
                    &&& final(self)@ == (SchedView {
                        queue: old(self)@.queue.push(k),
                        need_reschedule: true,
                        ..set_task(old(self)@, k, with_state(old(self)@.tasks[k as int], TaskState::Ready))
                    })
                },
                _ => r == Err::<(), KernelError>(KernelError::InvalidArgument) && final(self)@ == old(self)@,
            },
    {
        match self.find_listed(task_id) {
            Some(k) => {
                if self.tasks[k].state == TaskState::Blocked {
                    self.tasks[k].state = TaskState::Ready;
                    self.ready_queue.push_back(k);
                    self.need_reschedule = true;
                    assert(self@.tasks =~= old(self)@.tasks.update(k as int, with_state(old(self)@.tasks[k as int], TaskState::Ready)));
                    Ok(())
                } else {
                    Err(KernelError::InvalidArgument)
                }
            },
            None => Err(KernelError::InvalidArgument),
        }
    }

    /// Terminates the current task with `exit_code` and schedules another.
    pub fn terminate_current(&mut self, exit_code: i64) -> (switch: Option<(Option<usize>, usize)>)
        requires
            old(self).wf(),
            old(self)@.context_switches < u64::MAX,
        ensures
            final(self).wf(),
            ({
                let v = match old(self)@.current {
                    Some(c) => SchedView {
                        need_reschedule: true,
                        ..set_task(
                            old(self)@,
                            c,
                            Task { state: TaskState::Terminated, exit_code, ..old(self)@.tasks[c as int] },
                        )
                    },
                    None => SchedView { need_reschedule: true, ..old(self)@ },
                };
                &&& final(self)@ == after_schedule(v)
                &&& switch == schedule_switch(v)
            }),
    {
        if let Some(c) = self.current {
            self.tasks[c].state = TaskState::Terminated;
            self.tasks[c].exit_code = exit_code;
        }
        self.need_reschedule = true;
        assert(self@.tasks =~= (match old(self)@.current {
            Some(c) => old(self)@.tasks.update(
                c as int,
                Task { state: TaskState::Terminated, exit_code, ..old(self)@.tasks[c as int] },
            ),
            None => old(self)@.tasks,
        }));
        self.schedule()
    }

    /// Kills a task by id; ids 1 and 2 (shell and idle) are refused.
    pub fn terminate_task(&mut self, task_id: u64, exit_code: i64) -> (r: KernelResult<()>)
        requires
            old(self).wf(),
        ensures
            final(self).wf(),
            task_id <= 2 ==> r == Err::<(), KernelError>(KernelError::AccessDenied) && final(self)@ == old(self)@,
            task_id > 2 ==> match lookup(old(self)@, task_id) {
                Some(k) => {
                    &&& r is Ok
                    &&& final(self)@ == (SchedView {
                        queue: old(self)@.queue.filter(other_than(k)),
                        need_reschedule: true,
                        ..set_task(
                            old(self)@,
                            k,
                            Task { state: TaskState::Terminated, exit_code, ..old(self)@.tasks[k as int] },
                        )
                    })
                },
                None => r == Err::<(), KernelError>(KernelError::InvalidArgument) && final(self)@ == old(self)@,
            },
    {
        if task_id <= 2 {
            return Err(KernelError::AccessDenied);
        }
        match self.find_listed(task_id) {
            Some(k) => {
                self.tasks[k].state = TaskState::Terminated;
                self.tasks[k].exit_code = exit_code;
                self.need_reschedule = true;
                let ghost q = self@.queue;
                let mut nq: std::collections::VecDeque<usize> = std::collections::VecDeque::new();
                let mut i: usize = 0;
                while i < self.ready_queue.len()
                    invariant
                        q == self@.queue,
                        i <= q.len(),
                        nq@ == q.take(i as int).filter(other_than(k)),
                        forall|j: int| 0 <= j < nq@.len() ==> #[trigger] nq@[j] < self@.tasks.len(),
                        forall|j: int| 0 <= j < q.len() ==> #[trigger] q[j] < self@.tasks.len(),
                    decreases q.len() - i,
                {
                    let x = self.ready_queue[i];
                    proof {
                        assert(q.take(i + 1) =~= q.take(i as int).push(x));
                        q.take(i as int).lemma_filter_push(x, other_than(k));
                    }
                    if x != k {
                        nq.push_back(x);
                    }
                    i = i + 1;
                }
                assert(q.take(q.len() as int) =~= q);
                self.ready_queue = nq;
                assert(self@.tasks =~= old(self)@.tasks.update(
                    k as int,
                    Task { state: TaskState::Terminated, exit_code, ..old(self)@.tasks[k as int] },
                ));
                Ok(())
            },
            None => Err(KernelError::InvalidArgument),
        }
    }

    /// Sends `signal` to a task by id.
    pub fn send_signal(&mut self, task_id: u64, signal: u32) -> (r: KernelResult<()>)
        requires
            old(self).wf(),
        ensures
            final(self).wf(),
            match lookup(old(self)@, task_id) {
                Some(k) => {
                    let t = old(self)@.tasks[k as int];
                    &&& r is Ok
                    &&& final(self)@ == set_task(
                        old(self)@,
                        k,
                        Task {
                            pending_signals: if signal < 32 {
                                t.pending_signals | (1u32 << signal)
                            } else {
                                t.pending_signals
                            },
                            ..t
                        },
                    )
                },
                None => r == Err::<(), KernelError>(KernelError::InvalidArgument) && final(self)@ == old(self)@,
            },
    {
        match self.find_listed(task_id) {
            Some(k) => {
                self.tasks[k].send_signal(signal);
                assert(self@.tasks =~= final(self)@.tasks);
                Ok(())
            },
            None => Err(KernelError::InvalidArgument),
        }
    }

    /// `bg`: resumes a stopped task in the background.
    pub fn background_task(&mut self, task_id: u64) -> (r: KernelResult<()>)
        requires
            old(self).wf(),
        ensures
            final(self).wf(),
            match lookup(old(self)@, task_id) {
                Some(k) if old(self)@.tasks[k as int].foreground == TaskForeground::Stopped => {
                    let t = old(self)@.tasks[k as int];
                    &&& r is Ok
                    &&& final(self)@ == (SchedView {
                        queue: old(self)@.queue.push(k),
                        need_reschedule: true,
                        ..set_task(
                            old(self)@,
                            k,
                            Task {
                                foreground: TaskForeground::Background,
                                state: TaskState::Ready,
                                pending_signals: t.pending_signals | (1u32 << SIGCONT),
                                ..t
                            },
                        )
                    })
                },
                _ => r == Err::<(), KernelError>(KernelError::InvalidArgument) && final(self)@ == old(self)@,
            },
    {
        match self.find_listed(task_id) {
            Some(k) => {
                if self.tasks[k].foreground != TaskForeground::Stopped {
                    return Err(KernelError::InvalidArgument);
                }
                self.tasks[k].foreground = TaskForeground::Background;
                self.tasks[k].state = TaskState::Ready;
                let ghost t = old(self)@.tasks[k as int];
                self.tasks[k].send_signal(SIGCONT);
                self.ready_queue.push_back(k);
                self.need_reschedule = true;
                assert(self@.tasks =~= old(self)@.tasks.update(
                    k as int,
                    Task {
                        foreground: TaskForeground::Background,
                        state: TaskState::Ready,
                        pending_signals: t.pending_signals | (1u32 << SIGCONT),
                        ..t
                    },
                ));
                Ok(())
            },
            None => Err(KernelError::InvalidArgument),
        }
    }

    /// `fg`: gives a background or stopped task the terminal; a stopped
    /// task is also resumed: made ready, queued and sent SIGCONT.
    pub fn foreground_task(&mut self, task_id: u64) -> (r: KernelResult<()>)
        requires
            old(self).wf(),
        ensures
            final(self).wf(),
            match lookup(old(self)@, task_id) {
                Some(k) if old(self)@.tasks[k as int].foreground == TaskForeground::Stopped => {
                    let t = old(self)@.tasks[k as int];
                    &&& r is Ok
                    &&& final(self)@ == (SchedView {
                        queue: old(self)@.queue.push(k),
                        need_reschedule: true,
                        ..set_task(
                            old(self)@,
                            k,
                            Task {
                                foreground: TaskForeground::Foreground,
                                state: TaskState::Ready,
                                pending_signals: t.pending_signals | (1u32 << SIGCONT),
                                ..t
                            },
                        )
                    })
                },
                Some(k) if old(self)@.tasks[k as int].foreground == TaskForeground::Background => {
                    &&& r is Ok
                    &&& final(self)@ == set_task(
                        old(self)@,
                        k,
                        Task { foreground: TaskForeground::Foreground, ..old(self)@.tasks[k as int] },
                    )
                },
                _ => r == Err::<(), KernelError>(KernelError::InvalidArgument) && final(self)@ == old(self)@,
            },
    {
        match self.find_listed(task_id) {
            Some(k) => {
                if self.tasks[k].foreground == TaskForeground::Foreground {
                    return Err(KernelError::InvalidArgument);
                }
                let was_stopped = self.tasks[k].foreground == TaskForeground::Stopped;
                self.tasks[k].foreground = TaskForeground::Foreground;
                if was_stopped {
                    self.tasks[k].state = TaskState::Ready;
                    let ghost t = old(self)@.tasks[k as int];
                    self.tasks[k].send_signal(SIGCONT);
                    self.ready_queue.push_back(k);
                    self.need_reschedule = true;
                    assert(self@.tasks =~= old(self)@.tasks.update(
                        k as int,
                        Task {
                            foreground: TaskForeground::Foreground,
                            state: TaskState::Ready,
                            pending_signals: t.pending_signals | (1u32 << SIGCONT),
                            ..t
                        },
                    ));
                } else {
                    assert(self@.tasks =~= final(self)@.tasks);
                }
                Ok(())
            },
            None => Err(KernelError::InvalidArgument),
        }
    }

    /// Gives up the rest of the current quantum.
    pub fn yield_current(&mut self) -> (switch: Option<(Option<usize>, usize)>)
        requires
            old(self).wf(),
            old(self)@.context_switches < u64::MAX,
        ensures
            final(self).wf(),
            final(self)@ == after_schedule(SchedView { need_reschedule: true, ..old(self)@ }),
            switch == schedule_switch(SchedView { need_reschedule: true, ..old(self)@ }),
    {
        self.need_reschedule = true;
        self.schedule()
    }

    pub fn enable_preemption(&mut self)
        ensures
            final(self)@ == (SchedView { preempt_enabled: true, ..old(self)@ }),
    {
        self.preempt_enabled = true;
    }

    pub fn disable_preemption(&mut self)
        ensures
            final(self)@ == (SchedView { preempt_enabled: false, ..old(self)@ }),
    {
        self.preempt_enabled = false;
    }

    pub fn is_preemption_enabled(&self) -> (r: bool)
        ensures
            r == self@.preempt_enabled,
    {
        self.preempt_enabled
    }

    pub fn current_task_id(&self) -> (r: Option<u64>)
        requires
            self.wf(),
        ensures
            r == match self@.current {
                Some(c) => Some(self@.tasks[c as int].id),
                None => None::<u64>,
            },
    {
        match self.current {
            Some(c) => Some(self.tasks[c].id),
            None => None,
        }
    }

    pub fn current_task_name(&self) -> (r: Option<String>)
        requires
            self.wf(),
        ensures
            match self@.current {
                Some(c) => r matches Some(n) && n@ == self@.tasks[c as int].name@,
                None => r is None,
            },
    {
        match self.current {
            Some(c) => Some(self.tasks[c].name.clone()),
            None => None,
        }
    }

    pub fn task_count(&self) -> (r: u64)
        ensures
            r == self@.task_count,
    {
        self.task_count
    }

    pub fn ready_count(&self) -> (r: usize)
        ensures
            r == self@.queue.len(),
    {
        self.ready_queue.len()
    }

    pub fn context_switches(&self) -> (r: u64)
        ensures
            r == self@.context_switches,
    {
        self.context_switches
    }

    /// Ticks the scheduler has counted.
    pub fn scheduler_ticks(&self) -> (r: u64)
        ensures
            r == self@.scheduler_ticks,
    {
        self.scheduler_ticks
    }

    /// Bytes of the task stack region not yet handed out: a task can be
    /// created while `TASK_STACK_SIZE` bytes remain.
    pub fn stack_room(&self) -> (r: usize)
        requires
            self.wf(),
        ensures
            r == STACK_REGION_END - self@.next_stack,
    {
        STACK_REGION_END - self.next_stack
    }

    /// The saved registers of the task at position `k` of the task table
    /// (the task numbered `k + 1`), for the switch the caller performs.
    pub fn task_regs(&self, k: usize) -> (r: Option<SavedRegisters>)
        ensures
            r == if k < self@.tasks.len() {
                Some(self@.tasks[k as int].regs)
            } else {
                None::<SavedRegisters>
            },
    {
        if k < self.tasks.len() {
            Some(self.tasks[k].regs)
        } else {
            None
        }
    }

    /// Stores the registers a switch saved for the task at position `k`.
    pub fn save_task_regs(&mut self, k: usize, regs: SavedRegisters) -> (r: bool)
        requires
            old(self).wf(),
        ensures
            final(self).wf(),
            r == (k < old(self)@.tasks.len()),
            r ==> final(self)@ == (SchedView {
                tasks: old(self)@.tasks.update(k as int, Task { regs, ..old(self)@.tasks[k as int] }),
                ..old(self)@
            }),
            !r ==> final(self)@ == old(self)@,
    {
        if k >= self.tasks.len() {
            return false;
        }
        let ghost before = self@;
        self.tasks[k].regs = regs;
        assert(self@.tasks =~= before.tasks.update(k as int, Task { regs, ..before.tasks[k as int] }));
        true
    }

    fn info(&self, k: usize) -> (r: TaskInfo)
        requires
            self.wf(),
            k < self@.tasks.len(),
        ensures
            info_of(self@.tasks[k as int], r),
    {
        let t = &self.tasks[k];
        TaskInfo {
            id: t.id,
            name: t.name.clone(),
            state: t.state,
            priority: t.priority,
            task_type: t.task_type,
            foreground: t.foreground,
            entry_point: t.entry_point,
            cpu_ticks: t.total_cpu_ticks,
            exit_code: t.exit_code,
        }
    }

    pub fn get_task_info(&self, task_id: u64) -> (r: Option<TaskInfo>)
        requires
            self.wf(),
        ensures
            match lookup(self@, task_id) {
                Some(k) => r matches Some(info) && info_of(self@.tasks[k as int], info),
                None => r is None,
            },
    {
        match self.find_listed(task_id) {
            Some(k) => Some(self.info(k)),
            None => None,
        }
    }

    /// All listed tasks, in creation order (`ps`).
    pub fn list_tasks(&self) -> (r: Vec<TaskInfo>)
        requires
            self.wf(),
        ensures
            r@.len() == self@.listed.len(),
            forall|i: int| 0 <= i < r@.len() ==> info_of(self@.tasks[self@.listed[i] as int], #[trigger] r@[i]),
    {
        let mut out: Vec<TaskInfo> = Vec::new();
        let mut i: usize = 0;
        while i < self.all_tasks.len()
            invariant
                self.wf(),
                i <= self@.listed.len(),
                out@.len() == i,
                forall|j: int| 0 <= j < i ==> info_of(self@.tasks[self@.listed[j] as int], #[trigger] out@[j]),
            decreases self@.listed.len() - i,
        {
            let k = self.all_tasks[i];
            let info = self.info(k);
            out.push(info);
            i = i + 1;
        }
        out
    }

    fn is_listed(&self, k: usize) -> (r: bool)
        requires
            self.wf(),
        ensures
            r == self@.listed.contains(k),
    {
        let mut i: usize = 0;
        while i < self.all_tasks.len()
            invariant
                i <= self@.listed.len(),
                forall|j: int| 0 <= j < i ==> self@.listed[j] != k,
            decreases self@.listed.len() - i,
        {
            if self.all_tasks[i] == k {
                assert(self@.listed[i as int] == k);
                return true;
            }
            i = i + 1;
        }
        false
    }

    /// Drops terminated tasks from the task list and the ready queue.
    pub fn cleanup_terminated(&mut self)
        requires
            old(self).wf(),
        ensures
            final(self).wf(),
            final(self)@ == (SchedView {
                listed: old(self)@.listed.filter(not_terminated(old(self)@.tasks)),
                queue: old(self)@.queue.filter(kept_in_queue(old(self)@.tasks, old(self)@.listed)),
                ..old(self)@
            }),
    {
        let ghost v = self@;
        let mut nq: std::collections::VecDeque<usize> = std::collections::VecDeque::new();
        let mut i: usize = 0;
        while i < self.ready_queue.len()
            invariant
                self@ == v,
                self.wf(),
                i <= v.queue.len(),
                nq@ == v.queue.take(i as int).filter(kept_in_queue(v.tasks, v.listed)),
            decreases v.queue.len() - i,
        {
            let x = self.ready_queue[i];
            proof {
                assert(v.queue.take(i + 1) =~= v.queue.take(i as int).push(x));
                v.queue.take(i as int).lemma_filter_push(x, kept_in_queue(v.tasks, v.listed));
            }
            let listed = self.is_listed(x);
            if !(listed && self.tasks[x].state == TaskState::Terminated) {
                nq.push_back(x);
            }
            i = i + 1;
        }
        assert(v.queue.take(v.queue.len() as int) =~= v.queue);
        let mut nl: Vec<usize> = Vec::new();
        let mut i: usize = 0;
        while i < self.all_tasks.len()
            invariant
                self@ == v,
                self.wf(),
                i <= v.listed.len(),
                nl@ == v.listed.take(i as int).filter(not_terminated(v.tasks)),
            decreases v.listed.len() - i,
        {
            let x = self.all_tasks[i];
            proof {
                assert(v.listed.take(i + 1) =~= v.listed.take(i as int).push(x));
                v.listed.take(i as int).lemma_filter_push(x, not_terminated(v.tasks));
            }
            if self.tasks[x].state != TaskState::Terminated {
                nl.push(x);
            }
            i = i + 1;
        }
        assert(v.listed.take(v.listed.len() as int) =~= v.listed);
        proof {
            lemma_filter_bounded(v.queue, kept_in_queue(v.tasks, v.listed), v.tasks.len() as int);
            lemma_filter_bounded(v.listed, not_terminated(v.tasks), v.tasks.len() as int);
        }
        self.ready_queue = nq;
        self.all_tasks = nl;
    }

    /// Counters and flags; the current task's name, or "none".
    pub fn stats(&self) -> (r: SchedulerStats)
        requires
            self.wf(),
        ensures
            r.total_tasks == self@.task_count,
            r.ready_tasks == self@.queue.len(),
            r.tick_count == self@.tick_count,
            r.context_switches == self@.context_switches,
            r.preemption_enabled == self@.preempt_enabled,
            r.current_task@ == match self@.current {
                Some(c) => self@.tasks[c as int].name@,
                None => "none"@,
            },
    {
        let name = match self.current_task_name() {
            Some(n) => n,
            None => "none".to_owned(),
        };
        SchedulerStats {
            total_tasks: self.task_count,
            ready_tasks: self.ready_queue.len(),
            tick_count: self.tick_count,
            context_switches: self.context_switches,
            preemption_enabled: self.preempt_enabled,
            current_task: name,
        }
    }
}


/// The task a scheduling decision runs is ready, and no ready task in the
/// queue has a higher priority; of those with its priority it was queued
/// first.
pub proof fn law_schedule_runs_highest_priority(v: SchedView, i: int)
    requires
        sched_wf(v),
        pick(requeue(v).tasks, requeue(v).queue) == Some(i),
    ensures
        ({
            let w = requeue(v);
            let n = w.queue[i];
            &&& after_schedule(v).current == Some(n)
            &&& is_ready(w.tasks, n)
            &&& forall|j: int|
                0 <= j < w.queue.len() && #[trigger] is_ready(w.tasks, w.queue[j]) ==> level_of(
                    w.tasks,
                    w.queue[j],
                ) <= level_of(w.tasks, n)
            &&& forall|j: int|
                0 <= j < i && #[trigger] is_ready(w.tasks, w.queue[j]) ==> level_of(w.tasks, w.queue[j])
                    < level_of(w.tasks, n)
        }),
{
    let w = requeue(v);
    let c = choose|k: int| picks(w.tasks, w.queue, k);
    assert(picks(w.tasks, w.queue, c));
    assert(c == i);
}

/// While a RealTime task is ready in the queue, the task a scheduling
/// decision runs is a RealTime task: no High, Normal or Low task goes first.
pub proof fn law_realtime_runs_first(v: SchedView, i: int, j: int)
    requires
        sched_wf(v),
        pick(requeue(v).tasks, requeue(v).queue) == Some(i),
        0 <= j < requeue(v).queue.len(),
        is_ready(requeue(v).tasks, requeue(v).queue[j]),
        requeue(v).tasks[requeue(v).queue[j] as int].priority == TaskPriority::RealTime,
    ensures
        requeue(v).tasks[requeue(v).queue[i] as int].priority == TaskPriority::RealTime,
        after_schedule(v).current == Some(requeue(v).queue[i]),
{
    law_schedule_runs_highest_priority(v, i);
    let w = requeue(v);
    assert(level_of(w.tasks, w.queue[j]) <= level_of(w.tasks, w.queue[i]));
}

/// No two tasks share an id.
pub proof fn law_task_ids_distinct(v: SchedView, a: int, b: int)
    requires
        sched_wf(v),
        0 <= a < v.tasks.len(),
        0 <= b < v.tasks.len(),
        a != b,
    ensures
        v.tasks[a].id != v.tasks[b].id,
{
}

} // verus!
