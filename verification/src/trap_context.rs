//! The trap context of a user task: the registers saved when the task traps
//! into the kernel, and the kernel addresses needed to handle the trap.
use vstd::prelude::*;

verus! {

/// Bit 8 of `sstatus`, the `SPP` field: the privilege mode that `sret`
/// returns to, user mode when the bit is clear.
pub const SSTATUS_SPP: u64 = 0x100;

/// The status value `s` with `SPP` set to user mode and every other bit
/// kept: what the `riscv` crate's `Sstatus::set_spp(SPP::User)` makes of
/// the raw value (`bf_insert(bits, 8, 1, 0)`).
pub open spec fn user_mode_status(s: u64) -> u64 {
    s & !SSTATUS_SPP
}

/// Setting `SPP` to user mode clears bit 8 and keeps every other bit.
pub proof fn lemma_user_mode_status(s: u64)
    ensures
        user_mode_status(s) & SSTATUS_SPP == 0,
        user_mode_status(s) & !SSTATUS_SPP == s & !SSTATUS_SPP,
        user_mode_status(s) | SSTATUS_SPP == s | SSTATUS_SPP,
{
    assert(s & !0x100u64 & 0x100u64 == 0) by (bit_vector);
    assert(s & !0x100u64 & !0x100u64 == s & !0x100u64) by (bit_vector);
    assert(s & !0x100u64 | 0x100u64 == s | 0x100u64) by (bit_vector);
}

/// The saved state of a user task at a trap.
#[derive(Clone, Copy, Debug)]
pub struct TrapContext {
    /// General purpose registers x0-x31.
    pub x: [u64; 32],
    /// Supervisor status register, as the raw bits of the register.
    pub sstatus: u64,
    /// Supervisor exception program counter: where the task resumes.
    pub sepc: u64,
    /// Token (satp) of the kernel address space.
    pub kernel_satp: u64,
    /// Top of the task's kernel stack.
    pub kernel_sp: u64,
    /// Virtual address of the kernel's trap handler.
    pub trap_handler: u64,
}

/// The mathematical model of a trap context.
pub struct TrapState {
    pub x: Seq<u64>,
    pub sstatus: u64,
    pub sepc: u64,
    pub kernel_satp: u64,
    pub kernel_sp: u64,
    pub trap_handler: u64,
}

impl View for TrapContext {
    type V = TrapState;

    open spec fn view(&self) -> TrapState {
        TrapState {
            x: self.x@,
            sstatus: self.sstatus,
            sepc: self.sepc,
            kernel_satp: self.kernel_satp,
            kernel_sp: self.kernel_sp,
            trap_handler: self.trap_handler,
        }
    }
}

/// The registers of a fresh user task: all zero but the stack pointer `x2`.
pub open spec fn initial_regs(sp: u64) -> Seq<u64> {
    Seq::new(32, |i: int| if i == 2 { sp } else { 0u64 })
}

/// Returning from the trap with the status `cx.sstatus` enters user mode.
pub open spec fn returns_to_user(cx: TrapState) -> bool {
    cx.sstatus & SSTATUS_SPP == 0
}

/// `cx` is the context in which a user program starts at `entry` with stack
/// pointer `sp`: registers cleared but the stack pointer, and the trap
/// return entering user mode.
pub open spec fn starts_user_program(
    cx: TrapState,
    entry: u64,
    sp: u64,
    kernel_satp: u64,
    kernel_sp: u64,
    trap_handler: u64,
) -> bool {
    &&& cx.x == initial_regs(sp)
    &&& cx.sepc == entry
    &&& cx.kernel_satp == kernel_satp
    &&& cx.kernel_sp == kernel_sp
    &&& cx.trap_handler == trap_handler
    &&& returns_to_user(cx)
}

/// The initial trap context of an application started at `entry` with
/// stack pointer `sp`, when the hart's status register holds `sstatus`:
/// the saved status is `sstatus` with `SPP` set to user mode.
pub open spec fn app_init_state(
    sstatus: u64,
    entry: u64,
    sp: u64,
    kernel_satp: u64,
    kernel_sp: u64,
    trap_handler: u64,
) -> TrapState {
    TrapState {
        x: initial_regs(sp),
        sstatus: user_mode_status(sstatus),
        sepc: entry,
        kernel_satp,
        kernel_sp,
        trap_handler,
    }
}

/// An initial trap context starts its program in user mode, and its saved
/// status agrees with the hart's on every bit but `SPP`.
pub proof fn lemma_app_init_state(
    sstatus: u64,
    entry: u64,
    sp: u64,
    kernel_satp: u64,
    kernel_sp: u64,
    trap_handler: u64,
)
    ensures
        starts_user_program(
            app_init_state(sstatus, entry, sp, kernel_satp, kernel_sp, trap_handler),
            entry,
            sp,
            kernel_satp,
            kernel_sp,
            trap_handler,
        ),
        app_init_state(sstatus, entry, sp, kernel_satp, kernel_sp, trap_handler).sstatus & !SSTATUS_SPP
            == sstatus & !SSTATUS_SPP,
{
    lemma_user_mode_status(sstatus);
}

impl TrapContext {
    /// Puts `sp` into the stack pointer register `x2`.
    pub fn set_sp(&mut self, sp: u64)
        ensures
            final(self).x@ == old(self).x@.update(2, sp),
            final(self).sstatus == old(self).sstatus,
            final(self).sepc == old(self).sepc,
            final(self).kernel_satp == old(self).kernel_satp,
            final(self).kernel_sp == old(self).kernel_sp,
            final(self).trap_handler == old(self).trap_handler,
    {
        self.x[2] = sp;
    }

    /// The initial trap context of an application: every register zero but
    /// the stack pointer `sp`, resuming at `entry`, with the kernel's
    /// addresses. `sstatus` is the value of the hart's status register; the
    /// context saves it with `SPP` set to user mode, so that returning from
    /// the trap enters the application in user mode.
    pub fn app_init_context(
        entry: u64,
        sp: u64,
        kernel_satp: u64,
        kernel_sp: u64,
        trap_handler: u64,
        sstatus: u64,
    ) -> (cx: Self)
        ensures
            cx@ == app_init_state(sstatus, entry, sp, kernel_satp, kernel_sp, trap_handler),
            starts_user_program(cx@, entry, sp, kernel_satp, kernel_sp, trap_handler),
            cx.sstatus & !SSTATUS_SPP == sstatus & !SSTATUS_SPP,
    {
        let mut cx = TrapContext {
            x: [0u64; 32],
            sstatus: sstatus & !SSTATUS_SPP,
            sepc: entry,
            kernel_satp,
            kernel_sp,
            trap_handler,
        };
        cx.set_sp(sp);
        assert(cx.x@ =~= initial_regs(sp));
        proof {
            lemma_app_init_state(sstatus, entry, sp, kernel_satp, kernel_sp, trap_handler);
        }
        cx
    }
}

} // verus!
