//! The system calls that work on the descriptor table of a process, the
//! numbers of the system calls and their decoding.

use vstd::prelude::*;
use crate::process::{lemma_table_kept, lemma_tasks_rule_same, Kernel, ProcessInner};
use crate::task::{SchedAction, Task};

verus! {

pub const SYS_GETCWD: usize = 17;

pub const SYS_DUP: usize = 23;

pub const SYS_DUP3: usize = 24;

pub const SYS_MKDIRAT: usize = 34;

pub const SYS_UNLINKAT: usize = 35;

pub const SYS_LINKAT: usize = 37;

pub const SYS_UNMOUNT: usize = 39;

pub const SYS_MOUNT: usize = 40;

pub const SYS_CHDIR: usize = 49;

pub const SYS_OPENAT: usize = 56;

pub const SYS_CLOSE: usize = 57;

pub const SYS_PIPE2: usize = 59;

pub const SYS_GETDENTS64: usize = 61;

pub const SYS_READ: usize = 63;

pub const SYS_WRITE: usize = 64;

pub const SYS_FSTAT: usize = 80;

pub const SYS_EXIT: usize = 93;

pub const SYS_NANO_SLEEP: usize = 101;

pub const SYS_SCHED_YIELD: usize = 124;

pub const SYS_TIMES: usize = 153;

pub const SYS_UNAME: usize = 160;

pub const SYS_GETTIMEOFDAY: usize = 169;

pub const SYS_GETPID: usize = 172;

pub const SYS_GETPPID: usize = 173;

pub const SYS_BRK: usize = 214;

pub const SYS_MUNMAP: usize = 215;

pub const SYS_CLONE: usize = 220;

pub const SYS_EXECVE: usize = 221;

pub const SYS_MMAP: usize = 222;

pub const SYS_WAIT4: usize = 260;

/// A system call with its arguments, as the handlers take them.
#[derive(Clone, Copy, Debug, PartialEq, Eq, Structural)]
pub enum Syscall {
    /// Write `count` bytes from `buf` to the descriptor `fd`.
    Write { fd: usize, buf: usize, count: usize },
    /// End the calling task with `code`.
    Exit { code: i32 },
    /// Replace the program by the one at the path at `path`, with the
    /// arguments that the array at `argv` points to.
    Execve { path: usize, argv: usize },
    /// Make a new task.
    Clone { flags: usize, stack: usize, ptid: usize, tls: usize, ctid: usize },
    /// The identity of the calling process.
    GetPid,
    /// The identity of the parent of the calling process.
    GetPPid,
    /// Wait for the child `pid`, or any with -1, and store its status at
    /// `status`.
    Wait4 { pid: isize, status: usize, options: u32 },
    /// Read up to `count` bytes from the descriptor `fd` into `buf`.
    Read { fd: usize, buf: usize, count: usize },
    /// Open the file at the path at `path`.
    OpenAt { fd: usize, path: usize, open_flags: u8, mode: u8 },
    /// Close the descriptor `fd`.
    Close { fd: usize },
}

/// The call that the number `syscall_id` and the six argument registers
/// stand for; `None` where the number names no call that is handled.
/// Arguments narrower than a register are its low bits.
pub open spec fn decoded(syscall_id: usize, args: Seq<usize>) -> Option<Syscall> {
    if syscall_id == SYS_WRITE {
        Some(Syscall::Write { fd: args[0], buf: args[1], count: args[2] })
    } else if syscall_id == SYS_EXIT {
        Some(Syscall::Exit { code: args[0] as i32 })
    } else if syscall_id == SYS_EXECVE {
        Some(Syscall::Execve { path: args[0], argv: args[1] })
    } else if syscall_id == SYS_CLONE {
        Some(
            Syscall::Clone {
                flags: args[0],
                stack: args[1],
                ptid: args[2],
                tls: args[3],
                ctid: args[4],
            },
        )
    } else if syscall_id == SYS_GETPID {
        Some(Syscall::GetPid)
    } else if syscall_id == SYS_GETPPID {
        Some(Syscall::GetPPid)
    } else if syscall_id == SYS_WAIT4 {
        Some(Syscall::Wait4 { pid: args[0] as isize, status: args[1], options: args[2] as u32 })
    } else if syscall_id == SYS_READ {
        Some(Syscall::Read { fd: args[0], buf: args[1], count: args[2] })
    } else if syscall_id == SYS_OPENAT {
        Some(
            Syscall::OpenAt {
                fd: args[0],
                path: args[1],
                open_flags: args[2] as u8,
                mode: args[3] as u8,
            },
        )
    } else if syscall_id == SYS_CLOSE {
        Some(Syscall::Close { fd: args[0] })
    } else {
        None
    }
}

/// Decodes a system call from its number and the six argument registers.
pub fn syscall(syscall_id: usize, args: [usize; 6]) -> (r: Option<Syscall>)
    ensures
        r == decoded(syscall_id, args@),
{
    if syscall_id == SYS_WRITE {
        Some(Syscall::Write { fd: args[0], buf: args[1], count: args[2] })
    } else if syscall_id == SYS_EXIT {
        Some(Syscall::Exit { code: #[verifier::truncate] (args[0] as i32) })
    } else if syscall_id == SYS_EXECVE {
        Some(Syscall::Execve { path: args[0], argv: args[1] })
    } else if syscall_id == SYS_CLONE {
        Some(
            Syscall::Clone {
                flags: args[0],
                stack: args[1],
                ptid: args[2],
                tls: args[3],
                ctid: args[4],
            },
        )
    } else if syscall_id == SYS_GETPID {
        Some(Syscall::GetPid)
    } else if syscall_id == SYS_GETPPID {
        Some(Syscall::GetPPid)
    } else if syscall_id == SYS_WAIT4 {
        Some(
            Syscall::Wait4 {
                pid: #[verifier::truncate] (args[0] as isize),
                status: args[1],
                options: #[verifier::truncate] (args[2] as u32),
            },
        )
    } else if syscall_id == SYS_READ {
        Some(Syscall::Read { fd: args[0], buf: args[1], count: args[2] })
    } else if syscall_id == SYS_OPENAT {
        Some(
            Syscall::OpenAt {
                fd: args[0],
                path: args[1],
                open_flags: #[verifier::truncate] (args[2] as u8),
                mode: #[verifier::truncate] (args[3] as u8),
            },
        )
    } else if syscall_id == SYS_CLOSE {
        Some(Syscall::Close { fd: args[0] })
    } else {
        None
    }
}

/// Whether `after` is `before` but for the descriptor table.
pub open spec fn same_but_fds(before: ProcessInner, after: ProcessInner) -> bool {
    &&& after.parent == before.parent
    &&& after.children == before.children
    &&& after.tasks == before.tasks
    &&& after.memory_set == before.memory_set
    &&& after.heap_bottom == before.heap_bottom
    &&& after.heap_top == before.heap_top
    &&& after.is_zombie == before.is_zombie
    &&& after.exit_code == before.exit_code
}

/// Whether the descriptor `fd` names an open file in `table`.
pub open spec fn is_open(table: Seq<Option<usize>>, fd: usize) -> bool {
    fd < table.len() && table[fd as int].is_some()
}

/// The lowest descriptor of `table` that names no open file; the length of
/// `table` where every one names one.
pub open spec fn is_lowest_free(table: Seq<Option<usize>>, fd: int) -> bool {
    &&& 0 <= fd <= table.len()
    &&& fd < table.len() ==> table[fd].is_none()
    &&& forall|i: int| 0 <= i < fd ==> (#[trigger] table[i]).is_some()
}

/// The lowest descriptor of `table` that names no open file; the length of
/// `table` where every one names one.
pub open spec fn lowest_free(table: Seq<Option<usize>>) -> int {
    choose|fd: int| is_lowest_free(table, fd)
}

/// There is one lowest free descriptor.
pub proof fn lemma_lowest_free(table: Seq<Option<usize>>, fd: int)
    requires
        is_lowest_free(table, fd),
    ensures
        lowest_free(table) == fd,
{
    let other = lowest_free(table);
    assert(is_lowest_free(table, other));
    if other < fd {
        assert(table[other].is_some());
    }
    if fd < other {
        assert(table[fd].is_some());
    }
}

/// `table`, one descriptor longer where `fd` is its length.
pub open spec fn grown_to(table: Seq<Option<usize>>, fd: int) -> Seq<Option<usize>> {
    if fd < table.len() {
        table
    } else {
        table.push(None)
    }
}

/// Closes the descriptor `fd`: 0 where it named an open file, which it
/// names no longer; -1, with nothing changed, where it did not.
pub fn syscall_close(inner: &mut ProcessInner, fd: usize) -> (r: isize)
    ensures
        same_but_fds(*old(inner), *final(inner)),
        is_open(old(inner).fd_table@, fd) ==> r == 0 && final(inner).fd_table@ == old(inner).fd_table@.update(fd as int, None),
        !is_open(old(inner).fd_table@, fd) ==> r == -1 && final(inner).fd_table@ == old(inner).fd_table@,
{
    if fd >= inner.fd_table.len() {
        return -1;
    }
    if inner.fd_table[fd].is_none() {
        return -1;
    }
    inner.fd_table.set(fd, None);
    0
}

/// Makes the lowest free descriptor name the open file that `fd` names,
/// and returns it; `None`, with nothing changed, where `fd` names none.
pub fn syscall_dup(inner: &mut ProcessInner, fd: usize) -> (r: Option<usize>)
    ensures
        same_but_fds(*old(inner), *final(inner)),
        !is_open(old(inner).fd_table@, fd) ==> r.is_none() && final(inner).fd_table@ == old(inner).fd_table@,
        is_open(old(inner).fd_table@, fd) ==> {
            &&& r matches Some(new_fd)
            &&& new_fd == lowest_free(old(inner).fd_table@)
            &&& final(inner).fd_table@ == grown_to(old(inner).fd_table@, new_fd as int).update(
                new_fd as int,
                old(inner).fd_table@[fd as int],
            )
        },
{
    if fd >= inner.fd_table.len() {
        return None;
    }
    if inner.fd_table[fd].is_none() {
        return None;
    }
    let file = inner.fd_table[fd];
    let fd_num = inner.alloc_fd();
    proof {
        lemma_lowest_free(old(inner).fd_table@, fd_num as int);
    }
    inner.fd_table.set(fd_num, file);
    Some(fd_num)
}

/// `table`, made longer with free descriptors until `fd` is one of its
/// descriptors.
pub open spec fn reaching(table: Seq<Option<usize>>, fd: int) -> Seq<Option<usize>> {
    if fd < table.len() {
        table
    } else {
        table + Seq::new((fd + 1 - table.len()) as nat, |i: int| None::<usize>)
    }
}

/// Makes the descriptor `new_fd` name the open file that `fd` names, and
/// returns it. `None`, with nothing changed, where `fd` names none or
/// `new_fd` is the highest number there is; else the table is made long
/// enough to hold `new_fd`, and there is `None` where `new_fd` names an
/// open file already.
pub fn syscall_dup3(inner: &mut ProcessInner, fd: usize, new_fd: usize) -> (r: Option<usize>)
    ensures
        same_but_fds(*old(inner), *final(inner)),
        !is_open(old(inner).fd_table@, fd) || new_fd == usize::MAX ==> r.is_none() && final(inner).fd_table@ == old(inner).fd_table@,
        is_open(old(inner).fd_table@, fd) && new_fd < usize::MAX ==> {
            let table = reaching(old(inner).fd_table@, new_fd as int);
            if table[new_fd as int].is_some() {
                r.is_none() && final(inner).fd_table@ == table
            } else {
                r == Some(new_fd) && final(inner).fd_table@ == table.update(
                    new_fd as int,
                    old(inner).fd_table@[fd as int],
                )
            }
        },
{
    if fd >= inner.fd_table.len() {
        return None;
    }
    if inner.fd_table[fd].is_none() {
        return None;
    }
    if new_fd == usize::MAX {
        return None;
    }
    let ghost before = inner.fd_table@;
    while inner.fd_table.len() <= new_fd
        invariant
            same_but_fds(*old(inner), *inner),
            before == old(inner).fd_table@,
            before.len() <= inner.fd_table@.len(),
            inner.fd_table@.len() <= new_fd + 1 || inner.fd_table@ == before,
            inner.fd_table@ == before + Seq::new(
                (inner.fd_table@.len() - before.len()) as nat,
                |i: int| None::<usize>,
            ),
        decreases new_fd + 1 - inner.fd_table@.len(),
    {
        let ghost prev = inner.fd_table@;
        inner.fd_table.push(None);
        assert(inner.fd_table@ =~= before + Seq::new(
            (inner.fd_table@.len() - before.len()) as nat,
            |i: int| None::<usize>,
        ));
    }
    proof {
        if new_fd < before.len() {
            assert(inner.fd_table@ =~= before);
        }
        assert(inner.fd_table@ == reaching(before, new_fd as int));
    }
    if inner.fd_table[new_fd].is_some() {
        return None;
    }
    let file = inner.fd_table[fd];
    inner.fd_table.set(new_fd, file);
    Some(new_fd)
}

/// Gives the file that was opened a descriptor: where `opened` holds, the
/// lowest free descriptor of the process `pid` is made to name the next
/// open file of the kernel, and is returned; else there is `None`. The
/// table is one descriptor longer where every descriptor named an open
/// file.
pub fn syscall_openat(kernel: &mut Kernel, pid: u64, opened: bool) -> (r: Option<usize>)
    requires
        old(kernel).wf(),
        old(kernel).pid2pc@.contains_key(pid),
    ensures
        final(kernel).wf(),
        final(kernel).frames == old(kernel).frames,
        final(kernel).kernel_table == old(kernel).kernel_table,
        final(kernel).spaces == old(kernel).spaces,
        final(kernel).tasks == old(kernel).tasks,
        final(kernel).next_id == old(kernel).next_id,
        final(kernel).pid2pc@.dom() == old(kernel).pid2pc@.dom(),
        forall|q: u64|
            q != pid && old(kernel).pid2pc@.contains_key(q) ==> #[trigger] final(kernel).pid2pc@[q]
                == old(kernel).pid2pc@[q],
        final(kernel).pid2pc@[pid].pid == pid,
        same_but_fds(old(kernel).pid2pc@[pid].inner, final(kernel).pid2pc@[pid].inner),
        ({
            let table = old(kernel).pid2pc@[pid].inner.fd_table@;
            let fd = lowest_free(table);
            if opened && old(kernel).next_file < usize::MAX {
                &&& r matches Some(got)
                &&& got == fd
                &&& final(kernel).next_file == old(kernel).next_file + 1
                &&& final(kernel).pid2pc@[pid].inner.fd_table@ == grown_to(table, fd).update(
                    fd,
                    Some(old(kernel).next_file),
                )
            } else {
                &&& r.is_none()
                &&& final(kernel).next_file == old(kernel).next_file
                &&& final(kernel).pid2pc@[pid].inner.fd_table@ == grown_to(table, fd)
            }
        }),
{
    let ghost procs = kernel.pid2pc@;
    let mut p = kernel.pid2pc.remove(&pid).unwrap();
    let ghost table = p.inner.fd_table@;
    let fd_num = p.inner.alloc_fd();
    assert(is_lowest_free(table, fd_num as int));
    proof {
        lemma_lowest_free(table, fd_num as int);
    }
    assert(p.inner.fd_table@ == grown_to(table, fd_num as int));
    let r = if opened && kernel.next_file < usize::MAX {
        let file = kernel.next_file;
        kernel.next_file = file + 1;
        p.inner.fd_table.set(fd_num, Some(file));
        Some(fd_num)
    } else {
        None
    };
    kernel.pid2pc.insert(pid, p);
    proof {
        assert(kernel.pid2pc@.dom() =~= procs.dom());
        assert forall|i: int|
            0 <= i < kernel.pid2pc@[pid].inner.children@.len() implies kernel.pid2pc@.contains_key(
            #[trigger] kernel.pid2pc@[pid].inner.children@[i],
        ) && pid < kernel.pid2pc@[pid].inner.children@[i] by {
            assert(procs.contains_key(procs[pid].inner.children@[i]));
        }
        assert forall|i: int|
            0 <= i < kernel.pid2pc@[pid].inner.tasks@.len() implies kernel.tasks@.contains_key(
            #[trigger] kernel.pid2pc@[pid].inner.tasks@[i],
        ) by {
            assert(kernel.tasks@.contains_key(procs[pid].inner.tasks@[i]));
        }
        let before = Kernel { next_file: kernel.next_file, ..*old(kernel) };
        assert(before.wf());
        lemma_tasks_rule_same(kernel.tasks@, procs[pid], kernel.pid2pc@[pid]);
        lemma_table_kept(before, *kernel, pid);
    }
    r
}

/// The request to let another task run.
pub fn yield_now_task() -> (r: SchedAction)
    ensures
        r == SchedAction::Yield,
{
    SchedAction::Yield
}

/// The request to put the running task to sleep for `secs` seconds and
/// `nanos` nanoseconds.
pub fn sleep_now_task(secs: u64, nanos: u32) -> (r: SchedAction)
    ensures
        r == SchedAction::Sleep(secs, nanos),
{
    SchedAction::Sleep(secs, nanos)
}

/// What the kernel keeps of the task `curr`, if it knows it.
pub fn current_task(kernel: &Kernel, curr: u64) -> (r: Option<&Task>)
    ensures
        match r {
            Some(t) => kernel.tasks@.contains_key(curr) && *t == kernel.tasks@[curr],
            None => !kernel.tasks@.contains_key(curr),
        },
{
    kernel.task(curr)
}

} // verus!
