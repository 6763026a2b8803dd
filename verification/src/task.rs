use vstd::prelude::*;

verus! {

/// The state of a task.
#[derive(PartialEq, Eq, Structural, Clone, Copy)]
pub enum TaskStatus {
    Ready,
    Running,
    Zombie,
}

/// The registers saved when the kernel switches away from a task: the
/// return address, the stack pointer and the callee-saved registers.
#[derive(Clone, Copy)]
pub struct TaskContext {
    pub ra: usize,
    pub sp: usize,
    pub s: [usize; 12],
}

impl TaskContext {
    /// A context that, once switched to, returns to user space through
    /// `trap_return` on the kernel stack whose top is `kstack_ptr`.
    pub fn goto_trap_return(kstack_ptr: usize, trap_return: usize) -> (cx: Self)
        ensures
            cx.ra == trap_return,
            cx.sp == kstack_ptr,
            forall|i: int| 0 <= i < 12 ==> cx.s@[i] == 0,
    {
        TaskContext { ra: trap_return, sp: kstack_ptr, s: [0usize; 12] }
    }
}

/// The registers of a task saved on a trap, with what the trap handler
/// needs to enter the kernel.
#[derive(Clone, Copy)]
pub struct TrapContext {
    pub x: [usize; 32],
    pub sstatus: usize,
    pub sepc: usize,
    pub kernel_satp: usize,
    pub kernel_sp: usize,
    pub trap_handler: usize,
}

impl TrapContext {
    /// The context in which an application starts: all registers zero but
    /// the stack pointer `sp`, the program counter at `entry`, and the
    /// kernel's address space, stack and trap handler recorded.
    pub fn app_init_context(
        entry: usize,
        sp: usize,
        sstatus: usize,
        kernel_satp: usize,
        kernel_sp: usize,
        trap_handler: usize,
    ) -> (cx: Self)
        ensures
            cx.x@[2] == sp,
            forall|i: int| 0 <= i < 32 && i != 2 ==> cx.x@[i] == 0,
            cx.sstatus == sstatus,
            cx.sepc == entry,
            cx.kernel_satp == kernel_satp,
            cx.kernel_sp == kernel_sp,
            cx.trap_handler == trap_handler,
    {
        let mut x = [0usize; 32];
        x[2] = sp;
        TrapContext { x, sstatus, sepc: entry, kernel_satp, kernel_sp, trap_handler }
    }
}

/// What building an address space for a program gives: the token of its
/// page table, the physical page of its trap context, the top of its user
/// stack and its entry point.
#[derive(PartialEq, Eq, Structural, Clone, Copy)]
pub struct AddressSpace {
    pub token: usize,
    pub trap_cx_ppn: usize,
    pub user_sp: usize,
    pub entry_point: usize,
}

/// The parts of a task that change while it runs.
pub struct TaskControlBlockInner {
    pub trap_cx_ppn: usize,
    pub base_size: usize,
    pub task_cx: TaskContext,
    pub task_status: TaskStatus,
    pub memory_set: AddressSpace,
    /// The contents of the task's trap context page.
    pub trap_cx: TrapContext,
    /// The process id of the parent, if any.
    pub parent: Option<usize>,
    /// The process ids of the children, in the order they were forked.
    pub children: Vec<usize>,
    pub exit_code: i32,
}

impl TaskControlBlockInner {
    /// The task's trap context.
    pub fn get_trap_cx(&mut self) -> (cx: &mut TrapContext)
        ensures
            *cx == old(self).trap_cx,
            final(self).trap_cx == *final(cx),
            final(self).trap_cx_ppn == old(self).trap_cx_ppn,
            final(self).base_size == old(self).base_size,
            final(self).task_cx == old(self).task_cx,
            final(self).task_status == old(self).task_status,
            final(self).memory_set == old(self).memory_set,
            final(self).parent == old(self).parent,
            final(self).children@ == old(self).children@,
            final(self).exit_code == old(self).exit_code,
    {
        &mut self.trap_cx
    }

    /// The token of the task's address space.
    pub fn get_user_token(&self) -> (token: usize)
        ensures
            token == self.memory_set.token,
    {
        self.memory_set.token
    }

    fn get_status(&self) -> (status: TaskStatus)
        ensures
            status == self.task_status,
    {
        self.task_status
    }

    /// Whether the task has exited and waits for its parent.
    pub fn is_zombie(&self) -> (b: bool)
        ensures
            b <==> self.task_status == TaskStatus::Zombie,
    {
        self.get_status() == TaskStatus::Zombie
    }
}

/// A task: its process id, the top of its kernel stack and its changing
/// state, which is reached through `inner_exclusive_access`.
pub struct TaskControlBlock {
    pub pid: usize,
    pub kernel_stack_top: usize,
    pub inner: TaskControlBlockInner,
}

impl TaskControlBlock {
    /// Exclusive access to the task's changing state.
    pub fn inner_exclusive_access(&mut self) -> (inner: &mut TaskControlBlockInner)
        ensures
            *inner == old(self).inner,
            final(self).inner == *final(inner),
            final(self).pid == old(self).pid,
            final(self).kernel_stack_top == old(self).kernel_stack_top,
    {
        &mut self.inner
    }

    /// A ready task with process id `pid` and kernel stack top
    /// `kernel_stack_top` that runs the program whose address space is
    /// `memory_set`, with no parent and no children.
    pub fn new(
        memory_set: AddressSpace,
        pid: usize,
        kernel_stack_top: usize,
        trap_return: usize,
        sstatus: usize,
        kernel_satp: usize,
        trap_handler: usize,
    ) -> (task: Self)
        ensures
            task.pid == pid,
            task.kernel_stack_top == kernel_stack_top,
            task.inner.trap_cx_ppn == memory_set.trap_cx_ppn,
            task.inner.base_size == memory_set.user_sp,
            task.inner.task_cx.ra == trap_return,
            task.inner.task_cx.sp == kernel_stack_top,
            forall|i: int| 0 <= i < 12 ==> task.inner.task_cx.s@[i] == 0,
            task.inner.task_status == TaskStatus::Ready,
            task.inner.memory_set == memory_set,
            task.inner.parent.is_none(),
            task.inner.children@.len() == 0,
            task.inner.exit_code == 0,
            task.inner.trap_cx.sepc == memory_set.entry_point,
            task.inner.trap_cx.x@[2] == memory_set.user_sp,
            forall|i: int| 0 <= i < 32 && i != 2 ==> task.inner.trap_cx.x@[i] == 0,
            task.inner.trap_cx.sstatus == sstatus,
            task.inner.trap_cx.kernel_satp == kernel_satp,
            task.inner.trap_cx.kernel_sp == kernel_stack_top,
            task.inner.trap_cx.trap_handler == trap_handler,
    {
        let trap_cx = TrapContext::app_init_context(
            memory_set.entry_point,
            memory_set.user_sp,
            sstatus,
            kernel_satp,
            kernel_stack_top,
            trap_handler,
        );
        TaskControlBlock {
            pid,
            kernel_stack_top,
            inner: TaskControlBlockInner {
                trap_cx_ppn: memory_set.trap_cx_ppn,
                base_size: memory_set.user_sp,
                task_cx: TaskContext::goto_trap_return(kernel_stack_top, trap_return),
                task_status: TaskStatus::Ready,
                memory_set,
                trap_cx,
                parent: None,
                children: Vec::new(),
                exit_code: 0,
            },
        }
    }

    /// Makes the task run the program whose address space is `memory_set`:
    /// its address space, trap context page and user stack are replaced and
    /// its trap context starts the program; everything else stays.
    pub fn exec(&mut self, memory_set: AddressSpace, sstatus: usize, kernel_satp: usize, trap_handler: usize)
        ensures
            final(self).pid == old(self).pid,
            final(self).kernel_stack_top == old(self).kernel_stack_top,
            final(self).inner.memory_set == memory_set,
            final(self).inner.trap_cx_ppn == memory_set.trap_cx_ppn,
            final(self).inner.base_size == memory_set.user_sp,
            final(self).inner.task_cx == old(self).inner.task_cx,
            final(self).inner.task_status == old(self).inner.task_status,
            final(self).inner.parent == old(self).inner.parent,
            final(self).inner.children@ == old(self).inner.children@,
            final(self).inner.exit_code == old(self).inner.exit_code,
            final(self).inner.trap_cx.sepc == memory_set.entry_point,
            final(self).inner.trap_cx.x@[2] == memory_set.user_sp,
            forall|i: int| 0 <= i < 32 && i != 2 ==> final(self).inner.trap_cx.x@[i] == 0,
            final(self).inner.trap_cx.sstatus == sstatus,
            final(self).inner.trap_cx.kernel_satp == kernel_satp,
            final(self).inner.trap_cx.kernel_sp == old(self).kernel_stack_top,
            final(self).inner.trap_cx.trap_handler == trap_handler,
    {
        let kernel_stack_top = self.kernel_stack_top;
        let inner = &mut self.inner;
        inner.memory_set = memory_set;
        inner.trap_cx_ppn = memory_set.trap_cx_ppn;
        inner.base_size = memory_set.user_sp;
        inner.trap_cx = TrapContext::app_init_context(
            memory_set.entry_point,
            memory_set.user_sp,
            sstatus,
            kernel_satp,
            kernel_stack_top,
            trap_handler,
        );
    }

    /// Forks the task: the child, with a fresh process id `pid` (not the
    /// parent's) and kernel stack top
    /// `kernel_stack_top`, runs in `memory_set`, a copy of the parent's
    /// address space, starts ready with the parent's user stack size and a
    /// copy of the parent's trap context that enters the child's kernel
    /// stack; it is recorded as the parent's newest child.
    pub fn fork(&mut self, memory_set: AddressSpace, pid: usize, kernel_stack_top: usize, trap_return: usize) -> (child: Self)
        requires
            pid != old(self).pid,
        ensures
            final(self).pid == old(self).pid,
            final(self).kernel_stack_top == old(self).kernel_stack_top,
            final(self).inner.children@ == old(self).inner.children@.push(pid),
            final(self).inner.trap_cx_ppn == old(self).inner.trap_cx_ppn,
            final(self).inner.base_size == old(self).inner.base_size,
            final(self).inner.task_cx == old(self).inner.task_cx,
            final(self).inner.task_status == old(self).inner.task_status,
            final(self).inner.memory_set == old(self).inner.memory_set,
            final(self).inner.trap_cx == old(self).inner.trap_cx,
            final(self).inner.parent == old(self).inner.parent,
            final(self).inner.exit_code == old(self).inner.exit_code,
            child.pid == pid,
            child.kernel_stack_top == kernel_stack_top,
            child.inner.parent == Some(old(self).pid),
            child.inner.children@.len() == 0,
            child.inner.task_status == TaskStatus::Ready,
            child.inner.exit_code == 0,
            child.inner.memory_set == memory_set,
            child.inner.trap_cx_ppn == memory_set.trap_cx_ppn,
            child.inner.base_size == old(self).inner.base_size,
            child.inner.task_cx.ra == trap_return,
            child.inner.task_cx.sp == kernel_stack_top,
            forall|i: int| 0 <= i < 12 ==> child.inner.task_cx.s@[i] == 0,
            child.inner.trap_cx == (TrapContext {
                kernel_sp: kernel_stack_top,
                ..old(self).inner.trap_cx
            }),
    {
        let parent_inner = &mut self.inner;
        let mut trap_cx = parent_inner.trap_cx;
        trap_cx.kernel_sp = kernel_stack_top;
        let child = TaskControlBlock {
            pid,
            kernel_stack_top,
            inner: TaskControlBlockInner {
                trap_cx_ppn: memory_set.trap_cx_ppn,
                base_size: parent_inner.base_size,
                task_cx: TaskContext::goto_trap_return(kernel_stack_top, trap_return),
                task_status: TaskStatus::Ready,
                memory_set,
                trap_cx,
                parent: Some(self.pid),
                children: Vec::new(),
                exit_code: 0,
            },
        };
        self.inner.children.push(pid);
        child
    }

    /// The task's process id.
    pub fn getpid(&self) -> (pid: usize)
        ensures
            pid == self.pid,
    {
        self.pid
    }
}

} // verus!
