//! Making a new task: a thread of the caller's process or the first task of
//! a new process.

use vstd::prelude::*;
use crate::flags::{CloneFlags, CLONE_PARENT, CLONE_SETTLS, CLONE_THREAD, CLONE_VM};
use crate::mem_state::{fork_of, MemState};
use crate::memory_set::{views_of, MemoryError};
use crate::process::{process_is, Kernel, Process, ProcessInner, KERNEL_PROCESS_ID};
use crate::task::{GeneralRegisters, SchedAction, Task, TrapFrame};

verus! {

/// The registers that the new task starts with: those of the caller, with
/// zero as the call's result, with `tls` as the thread pointer where the
/// flags ask for it, and with `stack` as the stack pointer where one is
/// given.
pub open spec fn child_frame(
    caller: TrapFrame,
    flags: CloneFlags,
    stack: Option<usize>,
    tls: usize,
) -> TrapFrame {
    TrapFrame {
        regs: GeneralRegisters {
            a0: 0,
            tp: if flags.spec_contains(CLONE_SETTLS) {
                tls
            } else {
                caller.regs.tp
            },
            sp: match stack {
                Some(s) => s,
                None => caller.regs.sp,
            },
            ..caller.regs
        },
        ..caller
    }
}

/// Whether the kernel has too few identities or open-file numbers left for
/// the call.
pub open spec fn clone_refused(before: Kernel, flags: CloneFlags) -> bool {
    if flags.spec_contains(CLONE_THREAD) {
        before.next_id + 1 > u64::MAX
    } else {
        before.next_id + 2 > u64::MAX || before.next_file + 4 > usize::MAX
    }
}

/// What copying the address space of the process `pid` gives.
pub open spec fn clone_fork(before: Kernel, pid: u64) -> (Result<(), MemoryError>, MemState) {
    fork_of(
        before.kernel_table@,
        views_of(before.spaces@[before.pid2pc@[pid].inner.memory_set as int].areas@),
        before.frames.base,
        before.frames.used@,
    )
}

/// Whether `p` is a process as it is first made.
pub open spec fn fresh_process(
    p: Process,
    pid: u64,
    parent: u64,
    memory_set: usize,
    heap_bottom: usize,
    files: usize,
    tasks: Seq<u64>,
) -> bool {
    &&& p.pid == pid
    &&& p.inner.parent == parent
    &&& p.inner.children@.len() == 0
    &&& p.inner.tasks@ == tasks
    &&& p.inner.memory_set == memory_set
    &&& p.inner.heap_bottom == heap_bottom
    &&& p.inner.heap_top == heap_bottom
    &&& !p.inner.is_zombie
    &&& p.inner.exit_code == 0
    &&& p.inner.fd_table@ == seq![
        Some(files),
        Some((files + 1) as usize),
        Some((files + 2) as usize),
        Some((files + 3) as usize),
    ]
}

/// Whether `after` is `before` once the task `curr` of the process `pid`
/// made a new task. With `CLONE_VM` the new task runs in the caller's
/// address space, else in a copy of it. With `CLONE_THREAD` the new task
/// joins the caller's process and the process table keeps its entries;
/// else it leads a new process, which gets the next identity and an entry
/// in the table, has the caller's parent as its parent with
/// `CLONE_PARENT` and the caller else, and is added to the children of
/// that parent where the table knows it.
pub open spec fn cloned(
    before: Kernel,
    after: Kernel,
    pid: u64,
    curr: u64,
    flags: CloneFlags,
    stack: Option<usize>,
    tls: usize,
) -> bool {
    let vm = flags.spec_contains(CLONE_VM);
    let thread = flags.spec_contains(CLONE_THREAD);
    let p = before.pid2pc@[pid];
    let new_ms = if vm {
        p.inner.memory_set as int
    } else {
        before.spaces@.len() as int
    };
    let process_id = if thread {
        pid
    } else {
        before.next_id
    };
    let task_id = if thread {
        before.next_id
    } else {
        (before.next_id + 1) as u64
    };
    let parent_id = if flags.spec_contains(CLONE_PARENT) {
        p.inner.parent
    } else {
        pid
    };
    &&& after.next_id == task_id + 1
    &&& after.kernel_table == before.kernel_table
    &&& after.frames.base == before.frames.base
    &&& vm ==> after.spaces == before.spaces && after.frames == before.frames
    &&& !vm ==> {
        &&& after.spaces@.len() == before.spaces@.len() + 1
        &&& forall|s: int|
            0 <= s < before.spaces@.len() ==> #[trigger] after.spaces@[s] == before.spaces@[s]
        &&& after.spaces@[new_ms].state(&after.frames) == clone_fork(before, pid).1
    }
    &&& after.tasks@ == before.tasks@.insert(
        task_id,
        Task {
            id: task_id,
            process_id,
            is_leader: !thread,
            trap_frame: child_frame(before.tasks@[curr].trap_frame, flags, stack, tls),
            page_table_token: after.spaces@[new_ms].page_table.root,
        },
    )
    &&& thread ==> {
        &&& after.pid2pc@.dom() == before.pid2pc@.dom()
        &&& after.next_file == before.next_file
        &&& process_is(
            after.pid2pc@[pid],
            p,
            p.inner.parent,
            p.inner.children@,
            p.inner.tasks@.push(task_id),
            p.inner.is_zombie,
            p.inner.exit_code,
        )
        &&& forall|q: u64|
            before.pid2pc@.contains_key(q) && q != pid ==> #[trigger] after.pid2pc@[q]
                == before.pid2pc@[q]
    }
    &&& !thread ==> {
        &&& after.pid2pc@.dom() == before.pid2pc@.dom().insert(process_id)
        &&& !before.pid2pc@.contains_key(process_id)
        &&& after.next_file == before.next_file + 4
        &&& fresh_process(
            after.pid2pc@[process_id],
            process_id,
            parent_id,
            new_ms as usize,
            p.inner.heap_bottom,
            before.next_file,
            seq![task_id],
        )
        &&& before.pid2pc@.contains_key(parent_id) ==> process_is(
            after.pid2pc@[parent_id],
            before.pid2pc@[parent_id],
            before.pid2pc@[parent_id].inner.parent,
            before.pid2pc@[parent_id].inner.children@.push(process_id),
            before.pid2pc@[parent_id].inner.tasks@,
            before.pid2pc@[parent_id].inner.is_zombie,
            before.pid2pc@[parent_id].inner.exit_code,
        )
        &&& forall|q: u64|
            before.pid2pc@.contains_key(q) && q != parent_id ==> #[trigger] after.pid2pc@[q]
                == before.pid2pc@[q]
    }
}

/// The identity of the task that a successful call makes.
pub open spec fn clone_task_id(before: Kernel, flags: CloneFlags) -> u64 {
    if flags.spec_contains(CLONE_THREAD) {
        before.next_id
    } else {
        (before.next_id + 1) as u64
    }
}

impl Process {
    /// Makes a new task for the task `curr` of the process `pid`, and asks
    /// the scheduler to run it. Returns the identity of the new task where
    /// it is a thread of the caller's process, else that of the new
    /// process; either is the next identity of the kernel. `OutOfMemory`
    /// where no identity is left or the address space cannot be copied,
    /// `MappingConflict` where the copy meets a mapping of the kernel; a
    /// failure leaves the kernel as it was. The kernel process makes no
    /// sibling of itself.
    pub fn clone_task(
        kernel: &mut Kernel,
        pid: u64,
        curr: u64,
        flags: CloneFlags,
        stack: Option<usize>,
        ptid: usize,
        tls: usize,
        ctid: usize,
    ) -> (r: Result<(u64, Vec<SchedAction>), MemoryError>)
        requires
            old(kernel).wf(),
            old(kernel).pid2pc@.contains_key(pid),
            old(kernel).tasks@.contains_key(curr),
            flags.spec_contains(CLONE_PARENT) ==> pid != KERNEL_PROCESS_ID,
        ensures
            final(kernel).wf(),
            clone_refused(*old(kernel), flags) ==> r == Err::<
                (u64, Vec<SchedAction>),
                MemoryError,
            >(MemoryError::OutOfMemory) && *final(kernel) == *old(kernel),
            !clone_refused(*old(kernel), flags) && !flags.spec_contains(CLONE_VM) && clone_fork(
                *old(kernel),
                pid,
            ).0.is_err() ==> {
                &&& r.is_err()
                &&& Err::<(), MemoryError>(r.unwrap_err()) == clone_fork(*old(kernel), pid).0
                &&& final(kernel).frames.base == old(kernel).frames.base
                &&& final(kernel).frames.used@ == old(kernel).frames.used@
                &&& final(kernel).kernel_table == old(kernel).kernel_table
                &&& final(kernel).spaces == old(kernel).spaces
                &&& final(kernel).pid2pc == old(kernel).pid2pc
                &&& final(kernel).tasks == old(kernel).tasks
                &&& final(kernel).next_id == old(kernel).next_id
                &&& final(kernel).next_file == old(kernel).next_file
            },
            !clone_refused(*old(kernel), flags) && (flags.spec_contains(CLONE_VM) || clone_fork(
                *old(kernel),
                pid,
            ).0.is_ok()) ==> {
                &&& r matches Ok(v)
                &&& v.0 == old(kernel).next_id
                &&& v.1@ == seq![SchedAction::AddTask(clone_task_id(*old(kernel), flags))]
                &&& cloned(*old(kernel), *final(kernel), pid, curr, flags, stack, tls)
            },
    {
        let vm = flags.contains(CLONE_VM);
        let thread = flags.contains(CLONE_THREAD);
        if thread {
            if kernel.next_id == u64::MAX {
                return Err(MemoryError::OutOfMemory);
            }
        } else {
            if kernel.next_id >= u64::MAX - 1 || kernel.next_file > usize::MAX - 4 {
                return Err(MemoryError::OutOfMemory);
            }
        }
        let (caller_parent, ms, heap_bottom) = {
            let p = kernel.pid2pc.get(&pid).unwrap();
            (p.inner.parent, p.inner.memory_set, p.inner.heap_bottom)
        };
        let caller_frame = kernel.tasks.get(&curr).unwrap().trap_frame;
        let new_ms = if vm {
            ms
        } else {
            match kernel.fork_space(ms) {
                Ok(i) => i,
                Err(e) => {
                    return Err(e);
                },
            }
        };
        let token = kernel.spaces[new_ms].page_table_token();
        let process_id = if thread {
            pid
        } else {
            kernel.alloc_id().unwrap()
        };
        let task_id = kernel.alloc_id().unwrap();
        let parent_id = if flags.contains(CLONE_PARENT) {
            caller_parent
        } else {
            pid
        };
        let mut trap_frame = caller_frame;
        trap_frame.regs.a0 = 0;
        if flags.contains(CLONE_SETTLS) {
            trap_frame.regs.tp = tls;
        }
        if let Some(s) = stack {
            trap_frame.regs.sp = s;
        }
        assert(trap_frame == child_frame(caller_frame, flags, stack, tls));
        kernel.add_task(
            Task { id: task_id, process_id, is_leader: !thread, trap_frame, page_table_token: token },
        );
        if thread {
            kernel.push_task(pid, task_id);
        } else {
            let files = kernel.next_file;
            kernel.next_file = files + 4;
            let mut inner = ProcessInner::new(parent_id, new_ms, heap_bottom, files);
            inner.tasks.push(task_id);
            assert(inner.tasks@ =~= seq![task_id]);
            let known = kernel.pid2pc.contains_key(&parent_id);
            kernel.add_process(Process { pid: process_id, inner });
            if known {
                let mut one: Vec<u64> = Vec::new();
                one.push(process_id);
                let ghost before = kernel.pid2pc@[parent_id].inner.children@;
                kernel.push_children(parent_id, &mut one);
                assert(before + seq![process_id] =~= before.push(process_id));
            }
        }
        let mut actions: Vec<SchedAction> = Vec::new();
        actions.push(SchedAction::AddTask(task_id));
        let id = if thread {
            task_id
        } else {
            process_id
        };
        Ok((id, actions))
    }
}

/// A call with `CLONE_THREAD` leaves the process table with the entries it
/// had. A call without it adds one entry, for the new process, whose
/// parent is the caller, or the caller's parent with `CLONE_PARENT`.
pub proof fn lemma_clone_table(
    before: Kernel,
    after: Kernel,
    pid: u64,
    curr: u64,
    flags: CloneFlags,
    stack: Option<usize>,
    tls: usize,
)
    requires
        cloned(before, after, pid, curr, flags, stack, tls),
    ensures
        flags.spec_contains(CLONE_THREAD) ==> after.pid2pc@.dom() == before.pid2pc@.dom(),
        !flags.spec_contains(CLONE_THREAD) ==> {
            &&& !before.pid2pc@.contains_key(before.next_id)
            &&& after.pid2pc@.dom() == before.pid2pc@.dom().insert(before.next_id)
            &&& after.pid2pc@[before.next_id].pid == before.next_id
            &&& after.pid2pc@[before.next_id].inner.parent == if flags.spec_contains(CLONE_PARENT) {
                before.pid2pc@[pid].inner.parent
            } else {
                pid
            }
        },
{
}

} // verus!
