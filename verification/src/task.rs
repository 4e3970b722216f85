//! Tasks as the process layer sees them: an identity, the process that
//! owns them and the saved user registers.

use vstd::prelude::*;

verus! {

/// The general-purpose registers of a hart.
#[derive(Clone, Copy, Debug, PartialEq, Eq, Structural)]
pub struct GeneralRegisters {
    pub ra: usize,
    pub sp: usize,
    pub gp: usize,
    pub tp: usize,
    pub t0: usize,
    pub t1: usize,
    pub t2: usize,
    pub s0: usize,
    pub s1: usize,
    pub a0: usize,
    pub a1: usize,
    pub a2: usize,
    pub a3: usize,
    pub a4: usize,
    pub a5: usize,
    pub a6: usize,
    pub a7: usize,
    pub s2: usize,
    pub s3: usize,
    pub s4: usize,
    pub s5: usize,
    pub s6: usize,
    pub s7: usize,
    pub s8: usize,
    pub s9: usize,
    pub s10: usize,
    pub s11: usize,
    pub t3: usize,
    pub t4: usize,
    pub t5: usize,
    pub t6: usize,
}

impl GeneralRegisters {
    /// The registers, all zero.
    pub open spec fn spec_zero() -> Self {
        GeneralRegisters {
            ra: 0,
            sp: 0,
            gp: 0,
            tp: 0,
            t0: 0,
            t1: 0,
            t2: 0,
            s0: 0,
            s1: 0,
            a0: 0,
            a1: 0,
            a2: 0,
            a3: 0,
            a4: 0,
            a5: 0,
            a6: 0,
            a7: 0,
            s2: 0,
            s3: 0,
            s4: 0,
            s5: 0,
            s6: 0,
            s7: 0,
            s8: 0,
            s9: 0,
            s10: 0,
            s11: 0,
            t3: 0,
            t4: 0,
            t5: 0,
            t6: 0,
        }
    }

    /// The registers, all zero.
    pub fn zero() -> (r: Self)
        ensures
            r == Self::spec_zero(),
    {
        GeneralRegisters {
            ra: 0,
            sp: 0,
            gp: 0,
            tp: 0,
            t0: 0,
            t1: 0,
            t2: 0,
            s0: 0,
            s1: 0,
            a0: 0,
            a1: 0,
            a2: 0,
            a3: 0,
            a4: 0,
            a5: 0,
            a6: 0,
            a7: 0,
            s2: 0,
            s3: 0,
            s4: 0,
            s5: 0,
            s6: 0,
            s7: 0,
            s8: 0,
            s9: 0,
            s10: 0,
            s11: 0,
            t3: 0,
            t4: 0,
            t5: 0,
            t6: 0,
        }
    }
}

/// The bit of the status register that says that a trap came from
/// supervisor mode.
pub const SSTATUS_SPP: usize = 0x100;

/// The registers that are saved when a task traps and restored when it
/// goes back to user mode.
#[derive(Clone, Copy, Debug, PartialEq, Eq, Structural)]
pub struct TrapFrame {
    /// The general-purpose registers.
    pub regs: GeneralRegisters,
    /// The program counter to go back to.
    pub sepc: usize,
    /// The status register.
    pub sstatus: usize,
}

impl TrapFrame {
    /// The frame with which a program is first entered.
    pub open spec fn spec_app_init_context(app_entry: usize, user_sp: usize, sstatus: usize) -> Self {
        TrapFrame {
            regs: GeneralRegisters { sp: user_sp, ..GeneralRegisters::spec_zero() },
            sepc: app_entry,
            sstatus: sstatus & !SSTATUS_SPP,
        }
    }

    /// The frame with which a program is first entered: the program counter
    /// is `app_entry`, the stack pointer is `user_sp`, every other register
    /// is zero, and the status is `sstatus` with the bit cleared that would
    /// send the hart back to supervisor mode.
    pub fn app_init_context(app_entry: usize, user_sp: usize, sstatus: usize) -> (r: Self)
        ensures
            r == Self::spec_app_init_context(app_entry, user_sp, sstatus),
    {
        let mut regs = GeneralRegisters::zero();
        regs.sp = user_sp;
        TrapFrame { regs, sepc: app_entry, sstatus: sstatus & !SSTATUS_SPP }
    }
}

/// What the process layer keeps of a task.
#[derive(Clone, Copy, Debug, PartialEq, Eq, Structural)]
pub struct Task {
    /// The task's identity.
    pub id: u64,
    /// The process that the task is bound to.
    pub process_id: u64,
    /// Whether the task leads its thread group.
    pub is_leader: bool,
    /// The saved user registers.
    pub trap_frame: TrapFrame,
    /// The token of the address space that the task runs in.
    pub page_table_token: usize,
}

/// What the scheduler or the hardware is asked to do.
#[derive(Clone, Copy, Debug, PartialEq, Eq, Structural)]
pub enum SchedAction {
    /// Put the task on the run queue.
    AddTask(u64),
    /// Take the task off the run queue.
    RemoveTask(u64),
    /// Stop scheduling the running task, which exits with the code.
    ExitCurrent(i32),
    /// Pick the next task to run.
    Resched,
    /// Make the address space with this token the active one.
    SwitchPageTable(usize),
    /// Let another task run.
    Yield,
    /// Put the running task to sleep for so many seconds and nanoseconds.
    Sleep(u64, u32),
}

} // verus!
