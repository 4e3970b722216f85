//! Processes, the table that holds them, and the state of the kernel that
//! their lifecycle runs on.

use std::collections::BTreeMap;
use vstd::prelude::*;
use crate::areas::AreaView;
use crate::elf::ElfInfo;
use crate::frames::{
    first_fit, lemma_first_fit_is_lowest, mark_run, splice, within_run, FrameAllocator,
};
use crate::mem_state::{
    areas_within, fork_of, lemma_map_from_within, lemma_release_from, load_requests, load_spec,
    release_from, requests_of, unmap_from, MemState,
};
use crate::memory_set::{views_of, MemoryError, MemorySet};
use crate::page_table::{PageEntry, PageTable};
use crate::task::{Task, TrapFrame};

verus! {

/// The identity of the kernel process, the root of the hierarchy.
pub const KERNEL_PROCESS_ID: u64 = 1;

/// The size of a task's kernel stack, in bytes.
pub const KERNEL_STACK_SIZE: usize = 4096;

/// The state of a process that changes over its life.
pub struct ProcessInner {
    /// The identity of the parent process.
    pub parent: u64,
    /// The identities of the child processes that were not reaped.
    pub children: Vec<u64>,
    /// The identities of the tasks that are bound to the process.
    pub tasks: Vec<u64>,
    /// The index of the address space, which processes may share.
    pub memory_set: usize,
    /// The lowest address of the heap.
    pub heap_bottom: usize,
    /// The address just past the heap in use.
    pub heap_top: usize,
    /// Whether the process has exited and was not reaped.
    pub is_zombie: bool,
    /// The code that the process exited with.
    pub exit_code: i32,
    /// For each file descriptor, the open file that it names, if any.
    pub fd_table: Vec<Option<usize>>,
}

/// A process.
pub struct Process {
    /// The identity of the process.
    pub pid: u64,
    /// The state that changes.
    pub inner: ProcessInner,
}

impl ProcessInner {
    /// The state of a new process: no child, no task, the heap empty at
    /// `heap_bottom`, running, and the descriptors 0 to 3 naming the open
    /// files `files` to `files + 3`: the standard input, output and error
    /// output and the working directory.
    pub fn new(parent: u64, memory_set: usize, heap_bottom: usize, files: usize) -> (r: Self)
        requires
            files + 3 <= usize::MAX,
        ensures
            r.parent == parent,
            r.children@ == Seq::<u64>::empty(),
            r.tasks@ == Seq::<u64>::empty(),
            r.memory_set == memory_set,
            r.heap_bottom == heap_bottom,
            r.heap_top == heap_bottom,
            !r.is_zombie,
            r.exit_code == 0,
            r.fd_table@ == seq![
                Some(files),
                Some((files + 1) as usize),
                Some((files + 2) as usize),
                Some((files + 3) as usize),
            ],
    {
        let mut fd_table: Vec<Option<usize>> = Vec::new();
        fd_table.push(Some(files));
        fd_table.push(Some(files + 1));
        fd_table.push(Some(files + 2));
        fd_table.push(Some(files + 3));
        assert(fd_table@ =~= seq![
            Some(files),
            Some((files + 1) as usize),
            Some((files + 2) as usize),
            Some((files + 3) as usize),
        ]);
        Self {
            parent,
            children: Vec::new(),
            tasks: Vec::new(),
            memory_set,
            heap_bottom,
            heap_top: heap_bottom,
            is_zombie: false,
            exit_code: 0,
            fd_table,
        }
    }

    /// The token of the address space that the process runs in.
    pub fn get_page_table_token(&self, kernel: &Kernel) -> (r: usize)
        requires
            self.memory_set < kernel.spaces@.len(),
        ensures
            r == kernel.spaces@[self.memory_set as int].page_table.root,
    {
        kernel.spaces[self.memory_set].page_table_token()
    }

    /// The lowest descriptor that names no open file; the table grows by
    /// one descriptor where every one is in use.
    pub fn alloc_fd(&mut self) -> (fd: usize)
        ensures
            fd < final(self).fd_table@.len(),
            final(self).fd_table@[fd as int].is_none(),
            forall|i: int| 0 <= i < fd ==> (#[trigger] old(self).fd_table@[i]).is_some(),
            fd < old(self).fd_table@.len() ==> final(self).fd_table@ == old(self).fd_table@,
            fd >= old(self).fd_table@.len() ==> {
                &&& fd == old(self).fd_table@.len()
                &&& final(self).fd_table@ == old(self).fd_table@.push(None)
            },
            final(self).parent == old(self).parent,
            final(self).children == old(self).children,
            final(self).tasks == old(self).tasks,
            final(self).memory_set == old(self).memory_set,
            final(self).heap_bottom == old(self).heap_bottom,
            final(self).heap_top == old(self).heap_top,
            final(self).is_zombie == old(self).is_zombie,
            final(self).exit_code == old(self).exit_code,
    {
        let n = self.fd_table.len();
        let mut i: usize = 0;
        while i < n
            invariant
                i <= n,
                n == self.fd_table@.len(),
                *self == *old(self),
                forall|k: int| 0 <= k < i ==> (#[trigger] self.fd_table@[k]).is_some(),
            decreases n - i,
        {
            if self.fd_table[i].is_none() {
                return i;
            }
            i += 1;
        }
        self.fd_table.push(None);
        n
    }
}

/// The state of the kernel that processes live in.
pub struct Kernel {
    /// The allocator of page frames.
    pub frames: FrameAllocator,
    /// The mappings of the kernel, which every user address space starts
    /// with.
    pub kernel_table: PageTable,
    /// The address spaces; a process names one by its index.
    pub spaces: Vec<MemorySet>,
    /// The process table: every process that was ever made, by identity.
    pub pid2pc: BTreeMap<u64, Process>,
    /// Every task that was ever made, by identity.
    pub tasks: BTreeMap<u64, Task>,
    /// The identity that the next process or task gets.
    pub next_id: u64,
    /// The number of open files that were handed out.
    pub next_file: usize,
}

/// Whether the `i`-th task of `list` leads its thread group.
pub open spec fn leader_at(tasks: Map<u64, Task>, list: Seq<u64>, i: int) -> bool {
    0 <= i < list.len() && tasks[list[i]].is_leader
}

/// Whether the tasks of `p` are as a process has them: there is at least
/// one, each is bound to `p`, and exactly one of them leads the thread
/// group.
pub open spec fn tasks_rule(tasks: Map<u64, Task>, p: Process) -> bool {
    &&& p.inner.tasks@.len() > 0
    &&& forall|i: int|
        0 <= i < p.inner.tasks@.len() ==> tasks[#[trigger] p.inner.tasks@[i]].process_id == p.pid
    &&& exists|i: int| #[trigger] leader_at(tasks, p.inner.tasks@, i)
    &&& forall|i: int, j: int|
        #[trigger] leader_at(tasks, p.inner.tasks@, i) && #[trigger] leader_at(
            tasks,
            p.inner.tasks@,
            j,
        ) ==> i == j
}

/// The rule holds of a process with the same identity and the same tasks.
pub proof fn lemma_tasks_rule_same(tasks: Map<u64, Task>, p: Process, q: Process)
    requires
        tasks_rule(tasks, p),
        q.pid == p.pid,
        q.inner.tasks@ == p.inner.tasks@,
    ensures
        tasks_rule(tasks, q),
{
    let w = choose|i: int| #[trigger] leader_at(tasks, p.inner.tasks@, i);
    assert(leader_at(tasks, q.inner.tasks@, w));
}

/// The rule holds of a process in another record of tasks that keeps what
/// is recorded of the process's tasks.
pub proof fn lemma_tasks_rule_kept(before: Map<u64, Task>, after: Map<u64, Task>, p: Process)
    requires
        tasks_rule(before, p),
        forall|i: int|
            0 <= i < p.inner.tasks@.len() ==> after[#[trigger] p.inner.tasks@[i]]
                == before[p.inner.tasks@[i]],
    ensures
        tasks_rule(after, p),
{
    let list = p.inner.tasks@;
    let w = choose|i: int| #[trigger] leader_at(before, list, i);
    assert(after[list[w]] == before[list[w]]);
    assert(leader_at(after, list, w));
    assert forall|i: int, j: int|
        #[trigger] leader_at(after, list, i) && #[trigger] leader_at(after, list, j) implies i
        == j by {
        assert(after[list[i]] == before[list[i]]);
        assert(after[list[j]] == before[list[j]]);
        assert(leader_at(before, list, i) && leader_at(before, list, j));
    }
    assert forall|i: int| 0 <= i < list.len() implies after[#[trigger] list[i]].process_id
        == p.pid by {
        assert(after[list[i]] == before[list[i]]);
    }
}

/// Whether the process `p` is kept well under the identity `pid` in a
/// kernel of `spaces` address spaces whose next identity is `next_id`.
pub open spec fn process_ok(p: Process, pid: u64, spaces: int, next_id: u64) -> bool {
    &&& p.pid == pid
    &&& 1 <= pid < next_id
    &&& p.inner.memory_set < spaces
    &&& p.inner.heap_bottom <= p.inner.heap_top
}

impl Kernel {
    /// The allocator, the page tables and the address spaces are well
    /// formed; every process is kept under its own identity, names an
    /// address space that exists and children and tasks that exist, has a
    /// parent that exists unless it is the kernel process, and has among
    /// its tasks, of which there is at least one, exactly one leader; every
    /// task is kept under its own identity; no identity in use is as high
    /// as the next one.
    pub open spec fn wf(&self) -> bool {
        &&& self.frames.wf()
        &&& self.kernel_table.wf()
        &&& 1 <= self.next_id
        &&& forall|s: int|
            0 <= s < self.spaces@.len() ==> (#[trigger] self.spaces@[s]).wf() && areas_within(
                self.spaces@[s].state(&self.frames),
            )
        &&& forall|pid: u64| #[trigger]
            self.pid2pc@.contains_key(pid) ==> process_ok(
                self.pid2pc@[pid],
                pid,
                self.spaces@.len() as int,
                self.next_id,
            )
        &&& forall|pid: u64, i: int|
            self.pid2pc@.contains_key(pid) && 0 <= i < self.pid2pc@[pid].inner.children@.len()
                ==> self.pid2pc@.contains_key(#[trigger] self.pid2pc@[pid].inner.children@[i])
                && pid < self.pid2pc@[pid].inner.children@[i]
        &&& forall|pid: u64, i: int|
            self.pid2pc@.contains_key(pid) && 0 <= i < self.pid2pc@[pid].inner.tasks@.len()
                ==> self.tasks@.contains_key(#[trigger] self.pid2pc@[pid].inner.tasks@[i])
        &&& forall|tid: u64| #[trigger]
            self.tasks@.contains_key(tid) ==> self.tasks@[tid].id == tid && tid < self.next_id
        &&& forall|pid: u64| #[trigger]
            self.pid2pc@.contains_key(pid) ==> tasks_rule(self.tasks@, self.pid2pc@[pid]) && (pid
                == KERNEL_PROCESS_ID || self.pid2pc@.contains_key(
                self.pid2pc@[pid].inner.parent,
            ))
    }

    /// A kernel with the allocator `frames` and the kernel mappings
    /// `kernel_table`, with no address space, no process and no task; the
    /// first identity it hands out is 1.
    pub fn new(frames: FrameAllocator, kernel_table: PageTable) -> (r: Self)
        requires
            frames.wf(),
            kernel_table.wf(),
        ensures
            r.wf(),
            r.frames == frames,
            r.kernel_table == kernel_table,
            r.spaces@.len() == 0,
            r.pid2pc@ == Map::<u64, Process>::empty(),
            r.tasks@ == Map::<u64, Task>::empty(),
            r.next_id == 1,
            r.next_file == 0,
    {
        Kernel {
            frames,
            kernel_table,
            spaces: Vec::new(),
            pid2pc: BTreeMap::new(),
            tasks: BTreeMap::new(),
            next_id: 1,
            next_file: 0,
        }
    }

    /// Hands out the next identity; `None`, with nothing changed, where
    /// there is none left.
    pub fn alloc_id(&mut self) -> (r: Option<u64>)
        requires
            old(self).wf(),
        ensures
            final(self).wf(),
            final(self).frames == old(self).frames,
            final(self).kernel_table == old(self).kernel_table,
            final(self).spaces == old(self).spaces,
            final(self).pid2pc == old(self).pid2pc,
            final(self).tasks == old(self).tasks,
            final(self).next_file == old(self).next_file,
            match r {
                Some(id) => id == old(self).next_id && id >= 1 && final(self).next_id == id + 1,
                None => old(self).next_id == u64::MAX && final(self).next_id == old(self).next_id,
            },
    {
        if self.next_id == u64::MAX {
            return None;
        }
        let id = self.next_id;
        self.next_id = id + 1;
        Some(id)
    }

    /// Records the task `t`, whose identity is not in use.
    pub fn add_task(&mut self, t: Task)
        requires
            old(self).wf(),
            !old(self).tasks@.contains_key(t.id),
            t.id < old(self).next_id,
        ensures
            final(self).wf(),
            final(self).frames == old(self).frames,
            final(self).kernel_table == old(self).kernel_table,
            final(self).spaces == old(self).spaces,
            final(self).pid2pc == old(self).pid2pc,
            final(self).next_id == old(self).next_id,
            final(self).next_file == old(self).next_file,
            final(self).tasks@ == old(self).tasks@.insert(t.id, t),
    {
        self.tasks.insert(t.id, t);
        proof {
            assert forall|q: u64, i: int|
                self.pid2pc@.contains_key(q) && 0 <= i
                    < self.pid2pc@[q].inner.tasks@.len() implies self.tasks@.contains_key(
                #[trigger] self.pid2pc@[q].inner.tasks@[i],
            ) by {
                assert(old(self).tasks@.contains_key(old(self).pid2pc@[q].inner.tasks@[i]));
            }
            assert forall|q: u64| #[trigger] self.pid2pc@.contains_key(q) implies tasks_rule(
                self.tasks@,
                self.pid2pc@[q],
            ) by {
                assert forall|i: int|
                    0 <= i < self.pid2pc@[q].inner.tasks@.len() implies self.tasks@[#[trigger] self.pid2pc@[q].inner.tasks@[i]]
                    == old(self).tasks@[self.pid2pc@[q].inner.tasks@[i]] by {
                    assert(old(self).tasks@.contains_key(old(self).pid2pc@[q].inner.tasks@[i]));
                }
                lemma_tasks_rule_kept(old(self).tasks@, self.tasks@, self.pid2pc@[q]);
            }
        }
    }

    /// Records the process `p`, whose identity is not in use and which has
    /// no child yet.
    pub fn add_process(&mut self, p: Process)
        requires
            old(self).wf(),
            !old(self).pid2pc@.contains_key(p.pid),
            process_ok(p, p.pid, old(self).spaces@.len() as int, old(self).next_id),
            p.inner.children@.len() == 0,
            p.inner.tasks@.len() == 1,
            old(self).tasks@.contains_key(p.inner.tasks@[0]),
            old(self).tasks@[p.inner.tasks@[0]].process_id == p.pid,
            old(self).tasks@[p.inner.tasks@[0]].is_leader,
            p.pid == KERNEL_PROCESS_ID || old(self).pid2pc@.contains_key(p.inner.parent),
        ensures
            final(self).wf(),
            final(self).frames == old(self).frames,
            final(self).kernel_table == old(self).kernel_table,
            final(self).spaces == old(self).spaces,
            final(self).tasks == old(self).tasks,
            final(self).next_id == old(self).next_id,
            final(self).next_file == old(self).next_file,
            final(self).pid2pc@ == old(self).pid2pc@.insert(p.pid, p),
    {
        let ghost procs = self.pid2pc@;
        let ghost pid = p.pid;
        self.pid2pc.insert(p.pid, p);
        proof {
            assert forall|q: u64, i: int|
                self.pid2pc@.contains_key(q) && 0 <= i
                    < self.pid2pc@[q].inner.children@.len() implies self.pid2pc@.contains_key(
                #[trigger] self.pid2pc@[q].inner.children@[i],
            ) && q < self.pid2pc@[q].inner.children@[i] by {
                if q != pid {
                    assert(procs.contains_key(procs[q].inner.children@[i]));
                }
            }
            assert forall|q: u64, i: int|
                self.pid2pc@.contains_key(q) && 0 <= i
                    < self.pid2pc@[q].inner.tasks@.len() implies self.tasks@.contains_key(
                #[trigger] self.pid2pc@[q].inner.tasks@[i],
            ) by {
                if q != pid {
                    assert(self.tasks@.contains_key(procs[q].inner.tasks@[i]));
                }
            }
            assert forall|q: u64| #[trigger] self.pid2pc@.contains_key(q) implies tasks_rule(
                self.tasks@,
                self.pid2pc@[q],
            ) && (q == KERNEL_PROCESS_ID || self.pid2pc@.contains_key(
                self.pid2pc@[q].inner.parent,
            )) by {
                if q == pid {
                    assert(leader_at(self.tasks@, self.pid2pc@[q].inner.tasks@, 0));
                } else {
                    assert(procs.contains_key(q));
                }
            }
        }
    }

    /// Adds a copy of the address space `ms` on frames of its own and
    /// returns its index. A failure adds no address space and leaves every
    /// frame as it was.
    pub fn fork_space(&mut self, ms: usize) -> (r: Result<usize, MemoryError>)
        requires
            old(self).wf(),
            ms < old(self).spaces@.len(),
        ensures
            final(self).wf(),
            final(self).kernel_table == old(self).kernel_table,
            final(self).pid2pc == old(self).pid2pc,
            final(self).tasks == old(self).tasks,
            final(self).next_id == old(self).next_id,
            final(self).next_file == old(self).next_file,
            final(self).frames.base == old(self).frames.base,
            match r {
                Ok(i) => {
                    &&& i == old(self).spaces@.len()
                    &&& final(self).frames.used@ == fork_of(
                        old(self).kernel_table@,
                        views_of(old(self).spaces@[ms as int].areas@),
                        old(self).frames.base,
                        old(self).frames.used@,
                    ).1.used
                    &&& final(self).spaces@.len() == i + 1
                    &&& forall|s: int|
                        0 <= s < i ==> #[trigger] final(self).spaces@[s] == old(self).spaces@[s]
                    &&& fork_of(
                        old(self).kernel_table@,
                        views_of(old(self).spaces@[ms as int].areas@),
                        old(self).frames.base,
                        old(self).frames.used@,
                    ).0.is_ok()
                    &&& final(self).spaces@[i as int].state(&final(self).frames) == fork_of(
                        old(self).kernel_table@,
                        views_of(old(self).spaces@[ms as int].areas@),
                        old(self).frames.base,
                        old(self).frames.used@,
                    ).1
                },
                Err(e) => {
                    &&& final(self).spaces == old(self).spaces
                    &&& final(self).frames.used@ == old(self).frames.used@
                    &&& fork_of(
                        old(self).kernel_table@,
                        views_of(old(self).spaces@[ms as int].areas@),
                        old(self).frames.base,
                        old(self).frames.used@,
                    ).0 == Err::<(), MemoryError>(e)
                },
            },
    {
        let ghost spaces = self.spaces@;
        let ghost frames = self.frames;
        let ghost src = views_of(self.spaces@[ms as int].areas@);
        let forked = MemorySet::new_from_task(&self.spaces[ms], &self.kernel_table, &mut self.frames);
        proof {
            lemma_first_fit_is_lowest(frames.used@, 1);
            if first_fit(frames.used@, 1).is_some() {
                let st0 = MemState {
                    table: self.kernel_table@,
                    areas: Seq::<AreaView>::empty(),
                    base: frames.base,
                    used: mark_run(frames.used@, first_fit(frames.used@, 1).unwrap(), 1, true),
                };
                lemma_map_from_within(st0, requests_of(src), 0);
            }
            assert forall|s: int| 0 <= s < spaces.len() implies areas_within(
                (#[trigger] spaces[s]).state(&self.frames),
            ) by {
                assert(spaces[s].wf() && areas_within(spaces[s].state(&frames)));
                assert(spaces[s].state(&self.frames).areas == spaces[s].state(&frames).areas);
            }
        }
        match forked {
            Ok(m) => {
                let i = self.spaces.len();
                self.spaces.push(m);
                Ok(i)
            },
            Err(e) => Err(e),
        }
    }

    /// Adds an address space with no region and returns its index. It
    /// starts with the mappings of the kernel where `kernel_mappings`
    /// holds, else with none. `OutOfMemory`, with nothing changed, where no
    /// frame is free for its page table.
    pub fn new_space(&mut self, kernel_mappings: bool) -> (r: Result<usize, MemoryError>)
        requires
            old(self).wf(),
        ensures
            final(self).wf(),
            final(self).kernel_table == old(self).kernel_table,
            final(self).pid2pc == old(self).pid2pc,
            final(self).tasks == old(self).tasks,
            final(self).next_id == old(self).next_id,
            final(self).next_file == old(self).next_file,
            final(self).frames.base == old(self).frames.base,
            match first_fit(old(self).frames.used@, 1) {
                Some(f) => {
                    &&& r matches Ok(i)
                    &&& i == old(self).spaces@.len()
                    &&& final(self).spaces@.len() == old(self).spaces@.len() + 1
                    &&& forall|s: int|
                        0 <= s < old(self).spaces@.len() ==> #[trigger] final(self).spaces@[s]
                            == old(self).spaces@[s]
                    &&& final(self).spaces@.last().page_table@ == if kernel_mappings {
                        old(self).kernel_table@
                    } else {
                        Map::<usize, PageEntry>::empty()
                    }
                    &&& final(self).spaces@.last().areas@.len() == 0
                    &&& final(self).spaces@.last().page_table.root == old(self).frames.base + f
                        * 0x1000
                    &&& final(self).frames.used@ == mark_run(old(self).frames.used@, f, 1, true)
                },
                None => {
                    &&& r == Err::<usize, MemoryError>(MemoryError::OutOfMemory)
                    &&& *final(self) == *old(self)
                },
            },
    {
        let ghost spaces = self.spaces@;
        let ghost frames = self.frames;
        if self.frames.first_free().is_none() {
            return Err(MemoryError::OutOfMemory);
        }
        let made = if kernel_mappings {
            MemorySet::new_from_kernel(&self.kernel_table, &mut self.frames)
        } else {
            MemorySet::new_empty(&mut self.frames)
        };
        match made {
            Ok(m) => {
                let i = self.spaces.len();
                self.spaces.push(m);
                proof {
                    assert forall|s: int| 0 <= s < self.spaces@.len() implies (
                    #[trigger] self.spaces@[s]).wf() && areas_within(
                        self.spaces@[s].state(&self.frames),
                    ) by {
                        if s < spaces.len() {
                            assert(spaces[s].wf() && areas_within(spaces[s].state(&frames)));
                            assert(self.spaces@[s].state(&self.frames).areas == spaces[s].state(
                                &frames,
                            ).areas);
                        }
                    }
                }
                Ok(i)
            },
            Err(e) => Err(e),
        }
    }

    /// Takes the last address space away, which no process names, and
    /// gives the frames of its regions and of its page table's root back.
    pub fn drop_last_space(&mut self)
        requires
            old(self).wf(),
            old(self).spaces@.len() > 0,
            forall|pid: u64| #[trigger]
                old(self).pid2pc@.contains_key(pid) ==> old(self).pid2pc@[pid].inner.memory_set
                    < old(self).spaces@.len() - 1,
            old(self).frames.run_within(old(self).spaces@.last().page_table.root as int, 1),
        ensures
            final(self).wf(),
            final(self).kernel_table == old(self).kernel_table,
            final(self).pid2pc == old(self).pid2pc,
            final(self).tasks == old(self).tasks,
            final(self).next_id == old(self).next_id,
            final(self).next_file == old(self).next_file,
            final(self).spaces@ == old(self).spaces@.drop_last(),
            final(self).frames.base == old(self).frames.base,
            final(self).frames.used@ == mark_run(
                release_from(
                    old(self).frames.base,
                    old(self).frames.used@,
                    views_of(old(self).spaces@.last().areas@),
                    old(self).spaces@.last().areas@.len() as int,
                ),
                old(self).frames.index_of(old(self).spaces@.last().page_table.root as int),
                1,
                false,
            ),
    {
        let ghost spaces = self.spaces@;
        let ghost frames = self.frames;
        let mut last = self.spaces.pop().unwrap();
        assert(last == spaces[spaces.len() - 1]);
        assert(last.wf() && areas_within(last.state(&self.frames)));
        let root = last.page_table.root_paddr();
        last.release_areas(&mut self.frames);
        proof {
            lemma_release_from(
                frames.base,
                frames.used@,
                views_of(spaces.last().areas@),
                spaces.last().areas@.len() as int,
            );
        }
        self.frames.dealloc(root, 1);
        proof {
            assert(self.spaces@ =~= spaces.drop_last());
            assert forall|s: int| 0 <= s < self.spaces@.len() implies (
            #[trigger] self.spaces@[s]).wf() && areas_within(
                self.spaces@[s].state(&self.frames),
            ) by {
                assert(self.spaces@[s] == spaces[s]);
                assert(spaces[s].wf() && areas_within(spaces[s].state(&frames)));
                assert(self.spaces@[s].state(&self.frames).areas == spaces[s].state(
                    &frames,
                ).areas);
            }
        }
    }

    /// Empties the address space `ms` and loads the executable that `info`
    /// was read of: removes the mappings of its regions, gives their frames
    /// back, and maps the segments, a heap and a stack. Returns the entry
    /// point, the bottom of the stack and the bottom of the heap. A failure
    /// leaves what was mapped before it.
    pub fn reload(&mut self, ms: usize, image: &[u8], info: &ElfInfo) -> (r: Result<
        (usize, usize, usize),
        MemoryError,
    >)
        requires
            old(self).wf(),
            ms < old(self).spaces@.len(),
            info.wf_for(image@.len() as int),
        ensures
            final(self).wf(),
            final(self).kernel_table == old(self).kernel_table,
            final(self).pid2pc == old(self).pid2pc,
            final(self).tasks == old(self).tasks,
            final(self).next_id == old(self).next_id,
            final(self).next_file == old(self).next_file,
            final(self).spaces@.len() == old(self).spaces@.len(),
            final(self).frames.base == old(self).frames.base,
            forall|s: int|
                0 <= s < old(self).spaces@.len() && s != ms ==> #[trigger] final(self).spaces@[s]
                    == old(self).spaces@[s],
            final(self).spaces@[ms as int].page_table.root == old(self).spaces@[ms as int].page_table.root,
            r == load_spec(
                cleared(old(self).spaces@[ms as int].state(&old(self).frames)),
                image@,
                info.entry,
                info.segments@,
            ).0,
            final(self).spaces@[ms as int].state(&final(self).frames) == load_spec(
                cleared(old(self).spaces@[ms as int].state(&old(self).frames)),
                image@,
                info.entry,
                info.segments@,
            ).1,
    {
        let ghost spaces = self.spaces@;
        let ghost frames = self.frames;
        let ghost st0 = self.spaces@[ms as int].state(&self.frames);
        self.spaces[ms].unmap_user_areas();
        assert(areas_within(self.spaces@[ms as int].state(&self.frames))) by {
            assert(self.spaces@[ms as int].state(&self.frames).areas == st0.areas);
            assert(areas_within(st0));
        }
        self.spaces[ms].release_areas(&mut self.frames);
        let ghost st1 = self.spaces@[ms as int].state(&self.frames);
        proof {
            lemma_release_from(st0.base, st0.used, st0.areas, st0.areas.len() as int);
            assert(st1.areas =~= Seq::<AreaView>::empty());
            assert(st1 == cleared(st0));
        }
        let r = self.spaces[ms].load_segments(&mut self.frames, image, info);
        proof {
            let reqs = load_requests(image@, info.segments@);
            lemma_map_from_within(st1, reqs, 0);
            assert forall|s: int| 0 <= s < self.spaces@.len() implies (
            #[trigger] self.spaces@[s]).wf() && areas_within(
                self.spaces@[s].state(&self.frames),
            ) by {
                if s != ms {
                    assert(self.spaces@[s] == spaces[s]);
                    assert(spaces[s].wf() && areas_within(spaces[s].state(&frames)));
                    assert(self.spaces@[s].state(&self.frames).areas == spaces[s].state(
                        &frames,
                    ).areas);
                }
            }
        }
        r
    }

    /// Copies `bytes` into the region `index` of the address space `ms`,
    /// from byte `offset` of the region on.
    pub fn write_region(&mut self, ms: usize, index: usize, offset: usize, bytes: &[u8])
        requires
            old(self).wf(),
            ms < old(self).spaces@.len(),
            index < old(self).spaces@[ms as int].areas@.len(),
            offset + bytes@.len() <= old(self).spaces@[ms as int].areas@[index as int]@.data.len(),
        ensures
            final(self).wf(),
            final(self).frames == old(self).frames,
            final(self).kernel_table == old(self).kernel_table,
            final(self).pid2pc == old(self).pid2pc,
            final(self).tasks == old(self).tasks,
            final(self).next_id == old(self).next_id,
            final(self).next_file == old(self).next_file,
            final(self).spaces@.len() == old(self).spaces@.len(),
            forall|s: int|
                0 <= s < old(self).spaces@.len() && s != ms ==> #[trigger] final(self).spaces@[s]
                    == old(self).spaces@[s],
            final(self).spaces@[ms as int].page_table == old(self).spaces@[ms as int].page_table,
            final(self).spaces@[ms as int].areas@.len() == old(self).spaces@[ms as int].areas@.len(),
            forall|i: int|
                0 <= i < old(self).spaces@[ms as int].areas@.len() && i != index ==> #[trigger] final(self).spaces@[ms as int].areas@[i] == old(self).spaces@[ms as int].areas@[i],
            final(self).spaces@[ms as int].areas@[index as int]@ == (AreaView {
                data: splice(
                    old(self).spaces@[ms as int].areas@[index as int]@.data,
                    offset as int,
                    bytes@,
                ),
                ..old(self).spaces@[ms as int].areas@[index as int]@
            }),
    {
        let ghost spaces = self.spaces@;
        self.spaces[ms].write_area(index, offset, bytes);
        proof {
            let before = spaces[ms as int].state(&self.frames);
            let after = self.spaces@[ms as int].state(&self.frames);
            assert(areas_within(before));
            assert forall|i: int| 0 <= i < after.areas.len() implies within_run(
                after.base,
                after.used.len() as int,
                (#[trigger] after.areas[i]).start_paddr as int,
                after.areas[i].num_pages(),
            ) by {
                assert(after.areas[i].start_paddr == before.areas[i].start_paddr);
                assert(after.areas[i].num_pages() == before.areas[i].num_pages());
            }
        }
    }

    /// Makes `curr` the only task and the leader of the process `pid`, with
    /// the registers `trap_frame`, sets the process's heap to start and
    /// end at `heap_bottom`, and hands out the tasks that the process had
    /// besides `curr`, in order.
    pub fn enter_program(
        &mut self,
        pid: u64,
        curr: u64,
        heap_bottom: usize,
        trap_frame: TrapFrame,
    ) -> (removed: Vec<u64>)
        requires
            old(self).wf(),
            old(self).pid2pc@.contains_key(pid),
            old(self).tasks@.contains_key(curr),
            old(self).tasks@[curr].process_id == pid,
        ensures
            final(self).wf(),
            final(self).frames == old(self).frames,
            final(self).kernel_table == old(self).kernel_table,
            final(self).spaces == old(self).spaces,
            final(self).next_id == old(self).next_id,
            final(self).next_file == old(self).next_file,
            final(self).tasks@ == old(self).tasks@.insert(
                curr,
                Task { is_leader: true, trap_frame, ..old(self).tasks@[curr] },
            ),
            final(self).pid2pc@.dom() == old(self).pid2pc@.dom(),
            removed@ == old(self).pid2pc@[pid].inner.tasks@.filter(|t: u64| t != curr),
            forall|q: u64|
                q != pid && old(self).pid2pc@.contains_key(q) ==> #[trigger] final(self).pid2pc@[q]
                    == old(self).pid2pc@[q],
            final(self).pid2pc@[pid].pid == pid,
            final(self).pid2pc@[pid].inner.parent == old(self).pid2pc@[pid].inner.parent,
            final(self).pid2pc@[pid].inner.children == old(self).pid2pc@[pid].inner.children,
            final(self).pid2pc@[pid].inner.tasks@ == seq![curr],
            final(self).pid2pc@[pid].inner.memory_set == old(self).pid2pc@[pid].inner.memory_set,
            final(self).pid2pc@[pid].inner.heap_bottom == heap_bottom,
            final(self).pid2pc@[pid].inner.heap_top == heap_bottom,
            final(self).pid2pc@[pid].inner.is_zombie == old(self).pid2pc@[pid].inner.is_zombie,
            final(self).pid2pc@[pid].inner.exit_code == old(self).pid2pc@[pid].inner.exit_code,
            final(self).pid2pc@[pid].inner.fd_table == old(self).pid2pc@[pid].inner.fd_table,
    {
        let ghost procs = self.pid2pc@;
        let ghost tasks = self.tasks@;
        let mut p = self.pid2pc.remove(&pid).unwrap();
        let ghost all = p.inner.tasks@;
        let mut removed: Vec<u64> = Vec::new();
        let n = p.inner.tasks.len();
        let mut k: usize = 0;
        while k < n
            invariant
                k <= n,
                n == all.len(),
                all == p.inner.tasks@,
                removed@ == all.take(k as int).filter(|t: u64| t != curr),
            decreases n - k,
        {
            let t = p.inner.tasks[k];
            proof {
                assert(all.take(k + 1) =~= all.take(k as int).push(t));
                lemma_filter_push(all.take(k as int), t, curr);
            }
            if t != curr {
                removed.push(t);
            }
            k += 1;
        }
        assert(all.take(n as int) =~= all);
        p.inner.tasks.clear();
        p.inner.tasks.push(curr);
        assert(p.inner.tasks@ =~= seq![curr]);
        p.inner.heap_bottom = heap_bottom;
        p.inner.heap_top = heap_bottom;
        self.pid2pc.insert(pid, p);
        let task = *self.tasks.get(&curr).unwrap();
        self.tasks.insert(
            curr,
            Task {
                id: task.id,
                process_id: task.process_id,
                is_leader: true,
                trap_frame,
                page_table_token: task.page_table_token,
            },
        );
        proof {
            assert(self.pid2pc@.dom() =~= procs.dom());
            assert forall|q: u64| #[trigger] self.pid2pc@.contains_key(q) implies process_ok(
                self.pid2pc@[q],
                q,
                self.spaces@.len() as int,
                self.next_id,
            ) by {
                assert(procs.contains_key(q));
            }
            assert forall|q: u64, i: int|
                self.pid2pc@.contains_key(q) && 0 <= i
                    < self.pid2pc@[q].inner.children@.len() implies self.pid2pc@.contains_key(
                #[trigger] self.pid2pc@[q].inner.children@[i],
            ) && q < self.pid2pc@[q].inner.children@[i] by {
                assert(procs.contains_key(procs[q].inner.children@[i]));
            }
            assert forall|q: u64, i: int|
                self.pid2pc@.contains_key(q) && 0 <= i
                    < self.pid2pc@[q].inner.tasks@.len() implies self.tasks@.contains_key(
                #[trigger] self.pid2pc@[q].inner.tasks@[i],
            ) by {
                if q != pid {
                    assert(tasks.contains_key(procs[q].inner.tasks@[i]));
                }
            }
            assert forall|q: u64| #[trigger] self.pid2pc@.contains_key(q) implies tasks_rule(
                self.tasks@,
                self.pid2pc@[q],
            ) && (q == KERNEL_PROCESS_ID || self.pid2pc@.contains_key(
                self.pid2pc@[q].inner.parent,
            )) by {
                assert(procs.contains_key(q));
                if q == pid {
                    assert(leader_at(self.tasks@, self.pid2pc@[q].inner.tasks@, 0));
                } else {
                    assert(tasks_rule(tasks, procs[q]));
                    assert forall|i: int|
                        0 <= i < procs[q].inner.tasks@.len() implies self.tasks@[#[trigger] procs[q].inner.tasks@[i]]
                        == tasks[procs[q].inner.tasks@[i]] by {
                        assert(tasks[procs[q].inner.tasks@[i]].process_id == q);
                    }
                    lemma_tasks_rule_kept(tasks, self.tasks@, procs[q]);
                }
            }
        }
        removed
    }

    /// Makes `parent`, which exists, the parent of the process `pid`.
    pub fn set_parent(&mut self, pid: u64, parent: u64)
        requires
            old(self).wf(),
            old(self).pid2pc@.contains_key(pid),
            old(self).pid2pc@.contains_key(parent),
        ensures
            final(self).wf(),
            same_but_processes(*old(self), *final(self)),
            forall|q: u64|
                q != pid && old(self).pid2pc@.contains_key(q) ==> #[trigger] final(self).pid2pc@[q]
                    == old(self).pid2pc@[q],
            process_is(
                final(self).pid2pc@[pid],
                old(self).pid2pc@[pid],
                parent,
                old(self).pid2pc@[pid].inner.children@,
                old(self).pid2pc@[pid].inner.tasks@,
                old(self).pid2pc@[pid].inner.is_zombie,
                old(self).pid2pc@[pid].inner.exit_code,
            ),
    {
        let ghost procs = self.pid2pc@;
        let mut p = self.pid2pc.remove(&pid).unwrap();
        p.inner.parent = parent;
        self.pid2pc.insert(pid, p);
        proof {
            assert(self.pid2pc@.dom() =~= procs.dom());
            lemma_tasks_rule_same(self.tasks@, procs[pid], self.pid2pc@[pid]);
            lemma_table_kept(*old(self), *self, pid);
        }
    }

    /// Adds `children`, in order, to the children of the process `pid`.
    pub fn push_children(&mut self, pid: u64, children: &mut Vec<u64>)
        requires
            old(self).wf(),
            old(self).pid2pc@.contains_key(pid),
            forall|i: int|
                0 <= i < old(children)@.len() ==> old(self).pid2pc@.contains_key(
                    #[trigger] old(children)@[i],
                ) && pid < old(children)@[i],
        ensures
            final(self).wf(),
            final(children)@.len() == 0,
            same_but_processes(*old(self), *final(self)),
            forall|q: u64|
                q != pid && old(self).pid2pc@.contains_key(q) ==> #[trigger] final(self).pid2pc@[q]
                    == old(self).pid2pc@[q],
            process_is(
                final(self).pid2pc@[pid],
                old(self).pid2pc@[pid],
                old(self).pid2pc@[pid].inner.parent,
                old(self).pid2pc@[pid].inner.children@ + old(children)@,
                old(self).pid2pc@[pid].inner.tasks@,
                old(self).pid2pc@[pid].inner.is_zombie,
                old(self).pid2pc@[pid].inner.exit_code,
            ),
    {
        let ghost procs = self.pid2pc@;
        let mut p = self.pid2pc.remove(&pid).unwrap();
        p.inner.children.append(children);
        self.pid2pc.insert(pid, p);
        proof {
            assert(self.pid2pc@.dom() =~= procs.dom());
            lemma_tasks_rule_same(self.tasks@, procs[pid], self.pid2pc@[pid]);
            lemma_table_kept(*old(self), *self, pid);
            assert forall|i: int|
                0 <= i < self.pid2pc@[pid].inner.children@.len() implies self.pid2pc@.contains_key(
                #[trigger] self.pid2pc@[pid].inner.children@[i],
            ) && pid < self.pid2pc@[pid].inner.children@[i] by {
                let before = procs[pid].inner.children@;
                if i < before.len() {
                    assert(procs.contains_key(before[i]));
                } else {
                    assert(procs.contains_key(old(children)@[i - before.len()]));
                }
            }
        }
    }

    /// Adds the task `tid`, which is bound to the process `pid` and is no
    /// leader, to the tasks of that process.
    pub fn push_task(&mut self, pid: u64, tid: u64)
        requires
            old(self).wf(),
            old(self).pid2pc@.contains_key(pid),
            old(self).tasks@.contains_key(tid),
            old(self).tasks@[tid].process_id == pid,
            !old(self).tasks@[tid].is_leader,
        ensures
            final(self).wf(),
            same_but_processes(*old(self), *final(self)),
            forall|q: u64|
                q != pid && old(self).pid2pc@.contains_key(q) ==> #[trigger] final(self).pid2pc@[q]
                    == old(self).pid2pc@[q],
            process_is(
                final(self).pid2pc@[pid],
                old(self).pid2pc@[pid],
                old(self).pid2pc@[pid].inner.parent,
                old(self).pid2pc@[pid].inner.children@,
                old(self).pid2pc@[pid].inner.tasks@.push(tid),
                old(self).pid2pc@[pid].inner.is_zombie,
                old(self).pid2pc@[pid].inner.exit_code,
            ),
    {
        let ghost procs = self.pid2pc@;
        let mut p = self.pid2pc.remove(&pid).unwrap();
        p.inner.tasks.push(tid);
        self.pid2pc.insert(pid, p);
        proof {
            assert(self.pid2pc@.dom() =~= procs.dom());
            assert forall|i: int|
                0 <= i < self.pid2pc@[pid].inner.tasks@.len() implies self.tasks@.contains_key(
                #[trigger] self.pid2pc@[pid].inner.tasks@[i],
            ) by {
                if i < procs[pid].inner.tasks@.len() {
                    assert(self.tasks@.contains_key(procs[pid].inner.tasks@[i]));
                }
            }
            let before = procs[pid].inner.tasks@;
            let after = self.pid2pc@[pid].inner.tasks@;
            assert(tasks_rule(self.tasks@, procs[pid]));
            let w = choose|i: int| #[trigger] leader_at(self.tasks@, before, i);
            assert(after[w] == before[w]);
            assert(leader_at(self.tasks@, after, w));
            assert forall|i: int, j: int|
                #[trigger] leader_at(self.tasks@, after, i) && #[trigger] leader_at(
                    self.tasks@,
                    after,
                    j,
                ) implies i == j by {
                assert(after[i] == before[i] && after[j] == before[j]);
                assert(leader_at(self.tasks@, before, i) && leader_at(self.tasks@, before, j));
            }
            assert forall|i: int| 0 <= i < after.len() implies self.tasks@[#[trigger] after[i]].process_id
                == pid by {
                if i < before.len() {
                    assert(after[i] == before[i]);
                }
            }
            lemma_table_kept(*old(self), *self, pid);
        }
    }

    /// Records that the process `pid` has exited with `exit_code`, and
    /// hands out its children, of which it keeps none.
    pub fn mark_zombie(&mut self, pid: u64, exit_code: i32) -> (children: Vec<u64>)
        requires
            old(self).wf(),
            old(self).pid2pc@.contains_key(pid),
        ensures
            final(self).wf(),
            children@ == old(self).pid2pc@[pid].inner.children@,
            same_but_processes(*old(self), *final(self)),
            forall|q: u64|
                q != pid && old(self).pid2pc@.contains_key(q) ==> #[trigger] final(self).pid2pc@[q]
                    == old(self).pid2pc@[q],
            process_is(
                final(self).pid2pc@[pid],
                old(self).pid2pc@[pid],
                old(self).pid2pc@[pid].inner.parent,
                Seq::<u64>::empty(),
                old(self).pid2pc@[pid].inner.tasks@,
                true,
                exit_code,
            ),
    {
        let ghost procs = self.pid2pc@;
        let mut p = self.pid2pc.remove(&pid).unwrap();
        p.inner.exit_code = exit_code;
        p.inner.is_zombie = true;
        let mut children: Vec<u64> = Vec::new();
        core::mem::swap(&mut p.inner.children, &mut children);
        self.pid2pc.insert(pid, p);
        proof {
            assert(self.pid2pc@.dom() =~= procs.dom());
            lemma_tasks_rule_same(self.tasks@, procs[pid], self.pid2pc@[pid]);
            lemma_table_kept(*old(self), *self, pid);
        }
        children
    }

    /// The process with the identity `pid`, if there is one.
    pub fn lookup(&self, pid: u64) -> (r: Option<&Process>)
        ensures
            match r {
                Some(p) => self.pid2pc@.contains_key(pid) && *p == self.pid2pc@[pid],
                None => !self.pid2pc@.contains_key(pid),
            },
    {
        self.pid2pc.get(&pid)
    }

    /// The task with the identity `tid`, if there is one.
    pub fn task(&self, tid: u64) -> (r: Option<&Task>)
        ensures
            match r {
                Some(t) => self.tasks@.contains_key(tid) && *t == self.tasks@[tid],
                None => !self.tasks@.contains_key(tid),
            },
    {
        self.tasks.get(&tid)
    }
}

/// An address space after its regions were unmapped and their frames
/// given back: the mappings of the regions' pages are gone, no region is
/// left, and the regions' frames are free.
pub open spec fn cleared(st: MemState) -> MemState {
    MemState {
        table: unmap_from(st.table, st.areas, 0),
        areas: Seq::<AreaView>::empty(),
        base: st.base,
        used: release_from(st.base, st.used, st.areas, st.areas.len() as int),
    }
}

/// Keeping the identities other than `curr` of a list with one more
/// identity keeps that one too, unless it is `curr`.
pub proof fn lemma_filter_push(s: Seq<u64>, t: u64, curr: u64)
    ensures
        s.push(t).filter(|x: u64| x != curr) == if t != curr {
            s.filter(|x: u64| x != curr).push(t)
        } else {
            s.filter(|x: u64| x != curr)
        },
{
    reveal(Seq::filter);
    assert(s.push(t).drop_last() =~= s);
}

/// Whether `after` holds what `before` holds: the same address spaces,
/// processes and tasks, the same frames handed out, the same next
/// identities.
pub open spec fn same_kernel(before: Kernel, after: Kernel) -> bool {
    &&& after.kernel_table == before.kernel_table
    &&& after.pid2pc == before.pid2pc
    &&& after.tasks == before.tasks
    &&& after.next_id == before.next_id
    &&& after.next_file == before.next_file
    &&& after.spaces@ == before.spaces@
    &&& after.frames.base == before.frames.base
    &&& after.frames.used@ == before.frames.used@
}

/// Whether `after` is `before` but for the process table.
pub open spec fn same_but_processes(before: Kernel, after: Kernel) -> bool {
    &&& after.frames == before.frames
    &&& after.kernel_table == before.kernel_table
    &&& after.spaces == before.spaces
    &&& after.tasks == before.tasks
    &&& after.next_id == before.next_id
    &&& after.next_file == before.next_file
    &&& after.pid2pc@.dom() == before.pid2pc@.dom()
}

/// Whether `after` is `before` with the given parent, children, tasks and
/// exit state.
pub open spec fn process_is(
    after: Process,
    before: Process,
    parent: u64,
    children: Seq<u64>,
    tasks: Seq<u64>,
    is_zombie: bool,
    exit_code: i32,
) -> bool {
    &&& after.pid == before.pid
    &&& after.inner.parent == parent
    &&& after.inner.children@ == children
    &&& after.inner.tasks@ == tasks
    &&& after.inner.is_zombie == is_zombie
    &&& after.inner.exit_code == exit_code
    &&& after.inner.memory_set == before.inner.memory_set
    &&& after.inner.heap_bottom == before.inner.heap_bottom
    &&& after.inner.heap_top == before.inner.heap_top
    &&& after.inner.fd_table == before.inner.fd_table
}

/// A kernel in which one process was replaced is well formed where the
/// new process is kept as well as the old one was.
pub proof fn lemma_table_kept(before: Kernel, after: Kernel, pid: u64)
    requires
        before.wf(),
        same_but_processes(before, after),
        before.pid2pc@.contains_key(pid),
        forall|q: u64|
            q != pid && before.pid2pc@.contains_key(q) ==> #[trigger] after.pid2pc@[q]
                == before.pid2pc@[q],
        process_ok(
            after.pid2pc@[pid],
            pid,
            before.spaces@.len() as int,
            before.next_id,
        ),
        forall|i: int|
            0 <= i < after.pid2pc@[pid].inner.children@.len() ==> after.pid2pc@.contains_key(
                #[trigger] after.pid2pc@[pid].inner.children@[i],
            ) && pid < after.pid2pc@[pid].inner.children@[i],
        forall|i: int|
            0 <= i < after.pid2pc@[pid].inner.tasks@.len() ==> after.tasks@.contains_key(
                #[trigger] after.pid2pc@[pid].inner.tasks@[i],
            ),
        tasks_rule(after.tasks@, after.pid2pc@[pid]),
        pid == KERNEL_PROCESS_ID || after.pid2pc@.contains_key(after.pid2pc@[pid].inner.parent),
    ensures
        after.wf(),
{
    assert forall|q: u64| #[trigger] after.pid2pc@.contains_key(q) implies tasks_rule(
        after.tasks@,
        after.pid2pc@[q],
    ) && (q == KERNEL_PROCESS_ID || after.pid2pc@.contains_key(after.pid2pc@[q].inner.parent)) by {
        assert(before.pid2pc@.contains_key(q));
    }
    assert forall|q: u64| #[trigger] after.pid2pc@.contains_key(q) implies process_ok(
        after.pid2pc@[q],
        q,
        after.spaces@.len() as int,
        after.next_id,
    ) by {
        assert(before.pid2pc@.contains_key(q));
    }
    assert forall|q: u64, i: int|
        after.pid2pc@.contains_key(q) && 0 <= i
            < after.pid2pc@[q].inner.children@.len() implies after.pid2pc@.contains_key(
        #[trigger] after.pid2pc@[q].inner.children@[i],
    ) && q < after.pid2pc@[q].inner.children@[i] by {
        assert(before.pid2pc@.contains_key(q));
        if q != pid {
            assert(before.pid2pc@.contains_key(before.pid2pc@[q].inner.children@[i]));
        }
    }
    assert forall|q: u64, i: int|
        after.pid2pc@.contains_key(q) && 0 <= i
            < after.pid2pc@[q].inner.tasks@.len() implies after.tasks@.contains_key(
        #[trigger] after.pid2pc@[q].inner.tasks@[i],
    ) by {
        assert(before.pid2pc@.contains_key(q));
        if q != pid {
            assert(before.tasks@.contains_key(before.pid2pc@[q].inner.tasks@[i]));
        }
    }
}

/// The process that the task `curr` is bound to; `None` where the task or
/// its process is not known.
pub fn current_process(kernel: &Kernel, curr: u64) -> (r: Option<&Process>)
    ensures
        match r {
            Some(p) => kernel.tasks@.contains_key(curr) && kernel.pid2pc@.contains_key(
                kernel.tasks@[curr].process_id,
            ) && *p == kernel.pid2pc@[kernel.tasks@[curr].process_id],
            None => !kernel.tasks@.contains_key(curr) || !kernel.pid2pc@.contains_key(
                kernel.tasks@[curr].process_id,
            ),
        },
{
    match kernel.task(curr) {
        Some(t) => kernel.lookup(t.process_id),
        None => None,
    }
}

} // verus!
