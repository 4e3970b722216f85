//! Leaving and reaping: what `exit` and `wait` do to the process table.

use vstd::prelude::*;
use crate::flags::WaitStatus;
use crate::mem_state::{areas_within, lemma_release_from, release_from};
use crate::memory_set::views_of;
use crate::process::{
    lemma_tasks_rule_same, process_is, tasks_rule, Kernel, Process, KERNEL_PROCESS_ID,
};
use crate::task::SchedAction;

verus! {

/// The status that a parent reads of a child that exited with `exit_code`:
/// the code, moved up by eight bits.
pub open spec fn wait_status(exit_code: i32) -> i32 {
    exit_code << 8
}

/// The first index from `k` on at which `children` names a process that
/// has exited.
pub open spec fn first_zombie(procs: Map<u64, Process>, children: Seq<u64>, k: int) -> Option<int>
    decreases children.len() - k,
{
    if k < 0 || k >= children.len() {
        None
    } else if procs[children[k]].inner.is_zombie {
        Some(k)
    } else {
        first_zombie(procs, children, k + 1)
    }
}

/// The first index from `k` on at which `children` names `pid`.
pub open spec fn first_named(children: Seq<u64>, pid: u64, k: int) -> Option<int>
    decreases children.len() - k,
{
    if k < 0 || k >= children.len() {
        None
    } else if children[k] == pid {
        Some(k)
    } else {
        first_named(children, pid, k + 1)
    }
}

/// What a parent with the children `children` learns when it waits for
/// `pid`: the index of the child to reap, or why there is none. A target
/// of -1 stands for any child and finds the first that has exited; there
/// is `Running` where there are children and none has exited, `NotExist`
/// where there is no child. Another target finds the first child of that
/// identity: it is reaped where it has exited, `Running` where it has
/// not, and `NotExist` where no child has that identity.
pub open spec fn wait_outcome(procs: Map<u64, Process>, children: Seq<u64>, pid: isize) -> Result<
    int,
    WaitStatus,
> {
    if pid == -1 {
        match first_zombie(procs, children, 0) {
            Some(i) => Ok(i),
            None => if children.len() > 0 {
                Err(WaitStatus::Running)
            } else {
                Err(WaitStatus::NotExist)
            },
        }
    } else if pid < 0 {
        Err(WaitStatus::NotExist)
    } else {
        match first_named(children, pid as u64, 0) {
            Some(i) => if procs[children[i]].inner.is_zombie {
                Ok(i)
            } else {
                Err(WaitStatus::Running)
            },
            None => Err(WaitStatus::NotExist),
        }
    }
}

/// Whether `after` is `before` with the child at `index` taken off its
/// list of children.
pub open spec fn reaped(before: Process, after: Process, index: int) -> bool {
    &&& after.pid == before.pid
    &&& after.inner.parent == before.inner.parent
    &&& after.inner.children@ == before.inner.children@.remove(index)
    &&& after.inner.tasks == before.inner.tasks
    &&& after.inner.memory_set == before.inner.memory_set
    &&& after.inner.heap_bottom == before.inner.heap_bottom
    &&& after.inner.heap_top == before.inner.heap_top
    &&& after.inner.is_zombie == before.inner.is_zombie
    &&& after.inner.exit_code == before.inner.exit_code
    &&& after.inner.fd_table == before.inner.fd_table
}

/// Looks among the children of `parent` for one to reap. A target `pid` of
/// -1 stands for any child. A child that has exited is taken off the
/// parent's list and its identity is returned with its exit status; its
/// entry in the process table stays.
pub fn wait_pid(kernel: &mut Kernel, parent: u64, pid: isize) -> (r: Result<(u64, i32), WaitStatus>)
    requires
        old(kernel).wf(),
        old(kernel).pid2pc@.contains_key(parent),
    ensures
        final(kernel).wf(),
        final(kernel).frames == old(kernel).frames,
        final(kernel).kernel_table == old(kernel).kernel_table,
        final(kernel).spaces == old(kernel).spaces,
        final(kernel).tasks == old(kernel).tasks,
        final(kernel).next_id == old(kernel).next_id,
        final(kernel).next_file == old(kernel).next_file,
        final(kernel).pid2pc@.dom() == old(kernel).pid2pc@.dom(),
        forall|q: u64|
            q != parent && old(kernel).pid2pc@.contains_key(q) ==> #[trigger] final(kernel).pid2pc@[q] == old(kernel).pid2pc@[q],
        match wait_outcome(
            old(kernel).pid2pc@,
            old(kernel).pid2pc@[parent].inner.children@,
            pid,
        ) {
            Ok(i) => {
                let child = old(kernel).pid2pc@[parent].inner.children@[i];
                &&& r == Ok::<(u64, i32), WaitStatus>(
                    (child, wait_status(old(kernel).pid2pc@[child].inner.exit_code)),
                )
                &&& reaped(old(kernel).pid2pc@[parent], final(kernel).pid2pc@[parent], i)
            },
            Err(s) => r == Err::<(u64, i32), WaitStatus>(s) && final(kernel).pid2pc@[parent] == old(kernel).pid2pc@[parent],
        },
{
    let ghost procs = kernel.pid2pc@;
    let ghost ch = kernel.pid2pc@[parent].inner.children@;
    let found: Result<(usize, i32), WaitStatus> = {
        let p = kernel.pid2pc.get(&parent).unwrap();
        let n = p.inner.children.len();
        if pid == -1 {
            let mut k: usize = 0;
            let mut hit: Option<(usize, i32)> = None;
            while k < n && hit.is_none()
                invariant
                    k <= n,
                    n == ch.len(),
                    ch == p.inner.children@,
                    procs == kernel.pid2pc@,
                    kernel.wf(),
                    kernel.pid2pc@.contains_key(parent),
                    *p == kernel.pid2pc@[parent],
                    match hit {
                        Some(at) => first_zombie(procs, ch, 0) == Some(at.0 as int) && at.0 < n
                            && at.1 == procs[ch[at.0 as int]].inner.exit_code,
                        None => first_zombie(procs, ch, k as int) == first_zombie(procs, ch, 0),
                    },
                decreases n - k + (if hit.is_none() { 1int } else { 0int }),
            {
                let c = p.inner.children[k];
                assert(kernel.pid2pc@.contains_key(p.inner.children@[k as int]));
                let child = kernel.pid2pc.get(&c).unwrap();
                if child.inner.is_zombie {
                    hit = Some((k, child.inner.exit_code));
                } else {
                    k += 1;
                }
            }
            match hit {
                Some(at) => Ok(at),
                None => if n > 0 {
                    Err(WaitStatus::Running)
                } else {
                    Err(WaitStatus::NotExist)
                },
            }
        } else if pid < 0 {
            Err(WaitStatus::NotExist)
        } else {
            let target = pid as u64;
            let mut k: usize = 0;
            let mut hit: Option<usize> = None;
            while k < n && hit.is_none()
                invariant
                    k <= n,
                    n == ch.len(),
                    ch == p.inner.children@,
                    match hit {
                        Some(i) => first_named(ch, target, 0) == Some(i as int) && i < n,
                        None => first_named(ch, target, k as int) == first_named(ch, target, 0),
                    },
                decreases n - k + (if hit.is_none() { 1int } else { 0int }),
            {
                if p.inner.children[k] == target {
                    hit = Some(k);
                } else {
                    k += 1;
                }
            }
            match hit {
                Some(i) => {
                    let c = p.inner.children[i];
                    assert(kernel.pid2pc@.contains_key(p.inner.children@[i as int]));
                    let child = kernel.pid2pc.get(&c).unwrap();
                    if child.inner.is_zombie {
                        Ok((i, child.inner.exit_code))
                    } else {
                        Err(WaitStatus::Running)
                    }
                },
                None => Err(WaitStatus::NotExist),
            }
        }
    };
    assert(match wait_outcome(procs, ch, pid) {
        Ok(i) => found == Ok::<(usize, i32), WaitStatus>(
            (i as usize, procs[ch[i]].inner.exit_code),
        ) && 0 <= i < ch.len(),
        Err(s) => found == Err::<(usize, i32), WaitStatus>(s),
    });
    match found {
        Err(s) => Err(s),
        Ok(at) => {
            let i = at.0;
            let mut p = kernel.pid2pc.remove(&parent).unwrap();
            let c = p.inner.children.remove(i);
            kernel.pid2pc.insert(parent, p);
            proof {
                assert(kernel.pid2pc@.dom() =~= procs.dom());
                assert(reaped(procs[parent], kernel.pid2pc@[parent], i as int));
                assert forall|q: u64, j: int|
                    kernel.pid2pc@.contains_key(q) && 0 <= j
                        < kernel.pid2pc@[q].inner.children@.len() implies kernel.pid2pc@.contains_key(
                    #[trigger] kernel.pid2pc@[q].inner.children@[j],
                ) by {
                    if q == parent {
                        if j < i {
                            assert(procs.contains_key(procs[parent].inner.children@[j]));
                        } else {
                            assert(procs.contains_key(procs[parent].inner.children@[j + 1]));
                        }
                    } else {
                        assert(procs.contains_key(procs[q].inner.children@[j]));
                    }
                }
                assert forall|q: u64, j: int|
                    kernel.pid2pc@.contains_key(q) && 0 <= j
                        < kernel.pid2pc@[q].inner.tasks@.len() implies kernel.tasks@.contains_key(
                    #[trigger] kernel.pid2pc@[q].inner.tasks@[j],
                ) by {
                    assert(kernel.tasks@.contains_key(procs[q].inner.tasks@[j]));
                }
                assert forall|q: u64| #[trigger]
                    kernel.pid2pc@.contains_key(q) implies tasks_rule(
                    kernel.tasks@,
                    kernel.pid2pc@[q],
                ) && (q == KERNEL_PROCESS_ID || kernel.pid2pc@.contains_key(
                    kernel.pid2pc@[q].inner.parent,
                )) by {
                    assert(procs.contains_key(q));
                    lemma_tasks_rule_same(kernel.tasks@, procs[q], kernel.pid2pc@[q]);
                }
                assert(kernel.wf());
            }
            Ok((c, at.1 << 8))
        },
    }
}

/// Whether `after` is `before` once the process `pid` has exited with
/// `exit_code` as the leader of its thread group: the process is a zombie
/// with that code and without children; each of its children has the
/// kernel process as its parent and stands, in order, at the end of the
/// kernel process's children; the regions of its address space are gone
/// and their frames are given back.
pub open spec fn exited(before: Kernel, after: Kernel, pid: u64, exit_code: i32) -> bool {
    let old_p = before.pid2pc@[pid];
    let ch = old_p.inner.children@;
    let ms = old_p.inner.memory_set as int;
    let root = before.pid2pc@[KERNEL_PROCESS_ID];
    &&& after.kernel_table == before.kernel_table
    &&& after.tasks == before.tasks
    &&& after.next_id == before.next_id
    &&& after.next_file == before.next_file
    &&& after.pid2pc@.dom() == before.pid2pc@.dom()
    &&& process_is(
        after.pid2pc@[pid],
        old_p,
        old_p.inner.parent,
        Seq::<u64>::empty(),
        old_p.inner.tasks@,
        true,
        exit_code,
    )
    &&& process_is(
        after.pid2pc@[KERNEL_PROCESS_ID],
        root,
        root.inner.parent,
        root.inner.children@ + ch,
        root.inner.tasks@,
        root.inner.is_zombie,
        root.inner.exit_code,
    )
    &&& forall|q: u64|
        before.pid2pc@.contains_key(q) && q != pid && q != KERNEL_PROCESS_ID ==> if ch.contains(q) {
            process_is(
                #[trigger] after.pid2pc@[q],
                before.pid2pc@[q],
                KERNEL_PROCESS_ID,
                before.pid2pc@[q].inner.children@,
                before.pid2pc@[q].inner.tasks@,
                before.pid2pc@[q].inner.is_zombie,
                before.pid2pc@[q].inner.exit_code,
            )
        } else {
            after.pid2pc@[q] == before.pid2pc@[q]
        }
    &&& after.spaces@.len() == before.spaces@.len()
    &&& after.spaces@[ms].areas@.len() == 0
    &&& after.spaces@[ms].page_table == before.spaces@[ms].page_table
    &&& forall|s: int|
        0 <= s < before.spaces@.len() && s != ms ==> #[trigger] after.spaces@[s]
            == before.spaces@[s]
    &&& after.frames.base == before.frames.base
    &&& after.frames.used@ == release_from(
        before.frames.base,
        before.frames.used@,
        views_of(before.spaces@[ms].areas@),
        before.spaces@[ms].areas@.len() as int,
    )
}

/// Ends the task `curr` with `exit_code`: the scheduler is asked to stop
/// it and to pick another task. Where the task leads its thread group,
/// its process becomes a zombie with that code, hands its children over
/// to the kernel process and gives up the frames of its regions; else
/// nothing but the task ends.
pub fn exit(kernel: &mut Kernel, curr: u64, exit_code: i32) -> (actions: Vec<SchedAction>)
    requires
        old(kernel).wf(),
        old(kernel).tasks@.contains_key(curr),
        old(kernel).tasks@[curr].is_leader ==> {
            &&& old(kernel).pid2pc@.contains_key(old(kernel).tasks@[curr].process_id)
            &&& old(kernel).pid2pc@.contains_key(KERNEL_PROCESS_ID)
            &&& old(kernel).tasks@[curr].process_id != KERNEL_PROCESS_ID
        },
    ensures
        final(kernel).wf(),
        actions@ == seq![SchedAction::ExitCurrent(exit_code), SchedAction::Resched],
        !old(kernel).tasks@[curr].is_leader ==> *final(kernel) == *old(kernel),
        old(kernel).tasks@[curr].is_leader ==> exited(
            *old(kernel),
            *final(kernel),
            old(kernel).tasks@[curr].process_id,
            exit_code,
        ),
{
    let mut actions: Vec<SchedAction> = Vec::new();
    actions.push(SchedAction::ExitCurrent(exit_code));
    let task = *kernel.tasks.get(&curr).unwrap();
    if task.is_leader {
        let pid = task.process_id;
        let ghost procs = kernel.pid2pc@;
        let ghost ch = procs[pid].inner.children@;
        assert forall|i: int| 0 <= i < ch.len() implies procs.contains_key(#[trigger] ch[i]) && pid
            < ch[i] by {
            assert(procs.contains_key(procs[pid].inner.children@[i]));
        }
        assert(1 <= pid);
        let mut moved = kernel.mark_zombie(pid, exit_code);
        let ms = kernel.pid2pc.get(&pid).unwrap().inner.memory_set;
        let ghost mid = kernel.pid2pc@;
        let n = moved.len();
        let mut k: usize = 0;
        while k < n
            invariant
                k <= n,
                n == moved@.len(),
                moved@ == ch,
                pid != KERNEL_PROCESS_ID,
                kernel.wf(),
                kernel.frames == old(kernel).frames,
                kernel.kernel_table == old(kernel).kernel_table,
                kernel.spaces == old(kernel).spaces,
                kernel.tasks == old(kernel).tasks,
                kernel.next_id == old(kernel).next_id,
                kernel.next_file == old(kernel).next_file,
                kernel.pid2pc@.dom() == mid.dom(),
                mid.dom() == procs.dom(),
                mid.contains_key(pid),
                mid.contains_key(KERNEL_PROCESS_ID),
                1 <= pid,
                forall|i: int| 0 <= i < ch.len() ==> procs.contains_key(#[trigger] ch[i]) && pid < ch[i],
                kernel.pid2pc@[pid] == mid[pid],
                kernel.pid2pc@[KERNEL_PROCESS_ID] == mid[KERNEL_PROCESS_ID],
                forall|q: u64|
                    mid.contains_key(q) && q != pid && q != KERNEL_PROCESS_ID ==> if ch.take(
                        k as int,
                    ).contains(q) {
                        process_is(
                            #[trigger] kernel.pid2pc@[q],
                            mid[q],
                            KERNEL_PROCESS_ID,
                            mid[q].inner.children@,
                            mid[q].inner.tasks@,
                            mid[q].inner.is_zombie,
                            mid[q].inner.exit_code,
                        )
                    } else {
                        kernel.pid2pc@[q] == mid[q]
                    },
            decreases n - k,
        {
            let c = moved[k];
            let ghost before = kernel.pid2pc@;
            assert(procs.contains_key(ch[k as int]));
            assert(c != pid && c != KERNEL_PROCESS_ID);
            kernel.set_parent(c, KERNEL_PROCESS_ID);
            proof {
                assert(ch.take(k + 1) =~= ch.take(k as int).push(c));
                assert forall|q: u64|
                    mid.contains_key(q) && q != pid && q != KERNEL_PROCESS_ID implies if ch.take(
                        k + 1,
                    ).contains(q) {
                        process_is(
                            #[trigger] kernel.pid2pc@[q],
                            mid[q],
                            KERNEL_PROCESS_ID,
                            mid[q].inner.children@,
                            mid[q].inner.tasks@,
                            mid[q].inner.is_zombie,
                            mid[q].inner.exit_code,
                        )
                    } else {
                        kernel.pid2pc@[q] == mid[q]
                    } by {
                    if q == c {
                        assert(ch.take(k + 1)[k as int] == c);
                    } else {
                        assert(kernel.pid2pc@[q] == before[q]);
                        let longer = ch.take(k + 1);
                        let shorter = ch.take(k as int);
                        if longer.contains(q) {
                            let j = choose|j: int| 0 <= j < longer.len() && longer[j] == q;
                            assert(shorter[j] == q);
                        }
                        if shorter.contains(q) {
                            let j = choose|j: int| 0 <= j < shorter.len() && shorter[j] == q;
                            assert(longer[j] == q);
                        }
                    }
                }
            }
            k += 1;
        }
        assert(ch.take(n as int) =~= ch);
        kernel.push_children(KERNEL_PROCESS_ID, &mut moved);
        assert(areas_within(kernel.spaces@[ms as int].state(&kernel.frames)));
        let ghost spaces = kernel.spaces@;
        let ghost frames = kernel.frames;
        kernel.spaces[ms].release_areas(&mut kernel.frames);
        proof {
            lemma_release_from(
                frames.base,
                frames.used@,
                views_of(spaces[ms as int].areas@),
                spaces[ms as int].areas@.len() as int,
            );
            assert forall|s: int| 0 <= s < kernel.spaces@.len() implies (
            #[trigger] kernel.spaces@[s]).wf() && areas_within(
                kernel.spaces@[s].state(&kernel.frames),
            ) by {
                if s != ms {
                    assert(kernel.spaces@[s] == spaces[s]);
                    assert(spaces[s].wf() && areas_within(spaces[s].state(&frames)));
                    assert(kernel.spaces@[s].state(&kernel.frames).areas == spaces[s].state(
                        &frames,
                    ).areas);
                }
            }
        }
    }
    actions.push(SchedAction::Resched);
    actions
}

/// The first child found that has exited is one, and none before it has;
/// none is found only where no child from `k` on has exited.
pub proof fn lemma_first_zombie(procs: Map<u64, Process>, children: Seq<u64>, k: int)
    requires
        0 <= k,
    ensures
        match first_zombie(procs, children, k) {
            Some(i) => k <= i < children.len() && procs[children[i]].inner.is_zombie && forall|
                j: int,
            |
                k <= j < i ==> !procs[#[trigger] children[j]].inner.is_zombie,
            None => forall|j: int|
                k <= j < children.len() ==> !procs[#[trigger] children[j]].inner.is_zombie,
        },
    decreases children.len() - k,
{
    if k < children.len() && !procs[children[k]].inner.is_zombie {
        lemma_first_zombie(procs, children, k + 1);
    }
}

/// The first child found of the identity `pid` has it, and none before it
/// has; none is found only where no child from `k` on has it.
pub proof fn lemma_first_named(children: Seq<u64>, pid: u64, k: int)
    requires
        0 <= k,
    ensures
        match first_named(children, pid, k) {
            Some(i) => k <= i < children.len() && children[i] == pid && forall|j: int|
                k <= j < i ==> #[trigger] children[j] != pid,
            None => forall|j: int| k <= j < children.len() ==> #[trigger] children[j] != pid,
        },
    decreases children.len() - k,
{
    if k < children.len() && children[k] != pid {
        lemma_first_named(children, pid, k + 1);
    }
}

/// Waiting for any child reaps one child that has exited where there is
/// one, and then the parent has one child less; it finds `Running` where
/// there are children and none has exited, and `NotExist` where there is
/// no child. Waiting for a child that has not exited finds `Running` and
/// reaps nothing.
pub proof fn lemma_wait(procs: Map<u64, Process>, children: Seq<u64>, pid: isize)
    ensures
        pid == -1 ==> match wait_outcome(procs, children, pid) {
            Ok(i) => 0 <= i < children.len() && procs[children[i]].inner.is_zombie
                && children.remove(i).len() == children.len() - 1,
            Err(WaitStatus::Running) => children.len() > 0 && forall|j: int|
                0 <= j < children.len() ==> !procs[#[trigger] children[j]].inner.is_zombie,
            Err(WaitStatus::NotExist) => children.len() == 0,
            Err(WaitStatus::Exited) => false,
        },
        pid >= 0 && (exists|j: int| 0 <= j < children.len() && children[j] == pid as u64)
            && (forall|j: int|
            0 <= j < children.len() && #[trigger] children[j] == pid as u64
                ==> !procs[children[j]].inner.is_zombie) ==> wait_outcome(procs, children, pid)
            == Err::<int, WaitStatus>(WaitStatus::Running),
        pid >= 0 && (forall|j: int| 0 <= j < children.len() ==> #[trigger] children[j] != pid as u64)
            ==> wait_outcome(procs, children, pid) == Err::<int, WaitStatus>(WaitStatus::NotExist),
{
    lemma_first_zombie(procs, children, 0);
    if pid >= 0 {
        lemma_first_named(children, pid as u64, 0);
    }
}

/// After the leader of a process has exited, the process is a zombie with
/// the exit code, each of its former children is in the process table
/// with the kernel process as its parent, and its address space has no
/// region left.
pub proof fn lemma_exit(before: Kernel, after: Kernel, pid: u64, exit_code: i32)
    requires
        before.wf(),
        before.pid2pc@.contains_key(pid),
        pid != KERNEL_PROCESS_ID,
        exited(before, after, pid, exit_code),
    ensures
        after.pid2pc@[pid].inner.is_zombie,
        after.pid2pc@[pid].inner.exit_code == exit_code,
        forall|i: int|
            0 <= i < before.pid2pc@[pid].inner.children@.len() ==> after.pid2pc@.contains_key(
                #[trigger] before.pid2pc@[pid].inner.children@[i],
            ) && after.pid2pc@[before.pid2pc@[pid].inner.children@[i]].inner.parent
                == KERNEL_PROCESS_ID,
        after.spaces@[before.pid2pc@[pid].inner.memory_set as int].areas@.len() == 0,
{
    let ch = before.pid2pc@[pid].inner.children@;
    assert forall|i: int| 0 <= i < ch.len() implies after.pid2pc@.contains_key(#[trigger] ch[i])
        && after.pid2pc@[ch[i]].inner.parent == KERNEL_PROCESS_ID by {
        let c = ch[i];
        assert(before.pid2pc@.contains_key(before.pid2pc@[pid].inner.children@[i]));
        assert(pid < c);
        assert(ch.contains(c));
    }
}

} // verus!
