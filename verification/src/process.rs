//! Processes and their saved CPU register state.
use vstd::prelude::*;

verus! {

/// Saved CPU register state; `rsp` points at the interrupt frame that `iretq` pops.
#[derive(Clone, Copy)]
pub struct Context {
    pub rax: u64,
    pub rbx: u64,
    pub rcx: u64,
    pub rdx: u64,
    pub rsi: u64,
    pub rdi: u64,
    pub rbp: u64,
    pub r8: u64,
    pub r9: u64,
    pub r10: u64,
    pub r11: u64,
    pub r12: u64,
    pub r13: u64,
    pub r14: u64,
    pub r15: u64,
    pub rflags: u64,
    pub rsp: u64,
    pub cr3: u64,
}

/// All general registers zero.
pub open spec fn gp_zero(c: Context) -> bool {
    c.rax == 0 && c.rbx == 0 && c.rcx == 0 && c.rdx == 0 && c.rsi == 0 && c.rdi == 0 && c.rbp == 0
        && c.r8 == 0 && c.r9 == 0 && c.r10 == 0 && c.r11 == 0 && c.r12 == 0 && c.r13 == 0 && c.r14
        == 0 && c.r15 == 0
}

/// Kernel code and data selectors, user code and data selectors (ring 3).
pub const KERNEL_CS: u64 = 0x08;
pub const KERNEL_SS: u64 = 0x10;
pub const USER_CS: u64 = 0x23;
pub const USER_SS: u64 = 0x1B;

impl Context {
    /// Context of the idle task: interrupts enabled, everything else zero.
    pub fn new_idle() -> (r: Self)
        ensures
            gp_zero(r),
            r.rflags == 0x200,
            r.rsp == 0,
            r.cr3 == 0,
    {
        Context {
            rflags: 0x200,
            rax: 0, rbx: 0, rcx: 0, rdx: 0,
            rsi: 0, rdi: 0, rbp: 0,
            r8: 0, r9: 0, r10: 0, r11: 0,
            r12: 0, r13: 0, r14: 0, r15: 0,
            rsp: 0,
            cr3: 0,
        }
    }

    /// Context of a kernel thread whose stack occupies `stack_size` bytes from `stack_base`;
    /// `rsp` points at the five-word interrupt frame below the top of the stack.
    pub fn new_kernel_thread(stack_base: u64, stack_size: u64) -> (r: Self)
        requires
            stack_base + stack_size <= u64::MAX,
            stack_base + stack_size >= 40,
        ensures
            gp_zero(r),
            r.rflags == 0x202,
            r.rsp == stack_base + stack_size - 40,
            r.cr3 == 0,
    {
        let rsp = stack_base + stack_size;
        Context {
            rflags: 0x202,
            rax: 0, rbx: 0, rcx: 0, rdx: 0,
            rsi: 0, rdi: 0, rbp: 0,
            r8: 0, r9: 0, r10: 0, r11: 0,
            r12: 0, r13: 0, r14: 0, r15: 0,
            rsp: rsp - 40,
            cr3: 0,
        }
    }

    /// Context of a ring-3 thread: the same layout on its kernel stack.
    pub fn new_user_thread(kernel_stack_base: u64, kernel_stack_size: u64) -> (r: Self)
        requires
            kernel_stack_base + kernel_stack_size <= u64::MAX,
            kernel_stack_base + kernel_stack_size >= 40,
        ensures
            gp_zero(r),
            r.rflags == 0x202,
            r.rsp == kernel_stack_base + kernel_stack_size - 40,
            r.cr3 == 0,
    {
        Context::new_kernel_thread(kernel_stack_base, kernel_stack_size)
    }
}

/// The interrupt frame `[RIP, CS, RFLAGS, RSP, SS]` (lowest address first) that starts a
/// kernel thread at `entry` with its stack top at `stack_top`.
pub fn kernel_iret_frame(entry: u64, stack_top: u64) -> (r: [u64; 5])
    ensures
        r@ == seq![entry, KERNEL_CS, 0x202u64, stack_top, KERNEL_SS],
{
    let r = [entry, KERNEL_CS, 0x202u64, stack_top, KERNEL_SS];
    assert(r@ =~= seq![entry, KERNEL_CS, 0x202u64, stack_top, KERNEL_SS]);
    r
}

/// The interrupt frame that drops to ring 3 at `entry` with user stack `user_stack_top`.
pub fn user_iret_frame(entry: u64, user_stack_top: u64) -> (r: [u64; 5])
    ensures
        r@ == seq![entry, USER_CS, 0x202u64, user_stack_top, USER_SS],
{
    let r = [entry, USER_CS, 0x202u64, user_stack_top, USER_SS];
    assert(r@ =~= seq![entry, USER_CS, 0x202u64, user_stack_top, USER_SS]);
    r
}

#[derive(Debug, Clone, Copy, PartialEq, Eq, Structural)]
pub enum ProcessState {
    Ready,
    Running,
    Blocked,
    Dead,
}

pub struct Process {
    pub pid: u32,
    pub name: &'static str,
    pub state: ProcessState,
    pub priority: u8,
    pub ctx: Context,
    pub stack_base: usize,
    pub stack_size: usize,
}

impl Process {
    /// A ready process with the given identity, context and the stack it owns (base address
    /// and size; the caller allocated it).
    pub fn from_parts(
        pid: u32,
        name: &'static str,
        priority: u8,
        ctx: Context,
        stack_base: usize,
        stack_size: usize,
    ) -> (r: Self)
        ensures
            r.pid == pid,
            r.name == name,
            r.priority == priority,
            r.ctx == ctx,
            r.state == ProcessState::Ready,
            r.stack() == (stack_base, stack_size),
    {
        Process { pid, name, state: ProcessState::Ready, priority, ctx, stack_base, stack_size }
    }

    /// Base address and size of the stack the process owns.
    pub open spec fn stack(&self) -> (usize, usize) {
        (self.stack_base, self.stack_size)
    }

    /// Base address and size of the stack, for releasing it.
    pub fn stack_region(&self) -> (r: (usize, usize))
        ensures
            r == self.stack(),
    {
        (self.stack_base, self.stack_size)
    }

    pub fn name(&self) -> (r: &'static str)
        ensures
            r == self.name,
    {
        self.name
    }

    pub fn pid(&self) -> (r: u32)
        ensures
            r == self.pid,
    {
        self.pid
    }

    pub fn state(&self) -> (r: ProcessState)
        ensures
            r == self.state,
    {
        self.state
    }

    pub fn set_state(&mut self, state: ProcessState)
        ensures
            final(self).state == state,
            final(self).pid == old(self).pid,
            final(self).name == old(self).name,
            final(self).priority == old(self).priority,
            final(self).ctx == old(self).ctx,
            final(self).stack() == old(self).stack(),
    {
        self.state = state;
    }

    pub fn ctx(&self) -> (r: &Context)
        ensures
            *r == self.ctx,
    {
        &self.ctx
    }

    /// Mutable access to the saved registers.
    pub fn ctx_mut(&mut self) -> (r: &mut Context)
        ensures
            *r == old(self).ctx,
            final(self).ctx == *final(r),
            final(self).state == old(self).state,
            final(self).pid == old(self).pid,
            final(self).name == old(self).name,
            final(self).priority == old(self).priority,
            final(self).stack() == old(self).stack(),
    {
        &mut self.ctx
    }
}

} // verus!
