//! Starting a program: in a new process, or in place of the one that a
//! process runs.

use vstd::prelude::*;
use vstd::slice::slice_to_vec;
use vstd::string::StringSliceAdditionalSpecFns;
use vstd::utf8::encode_utf8;
use crate::addr::{lemma_page_ceil, page_aligned};
use crate::areas::AreaView;
use crate::clone_task::fresh_process;
use crate::elf::{parse_elf, parse_spec, ElfSegment};
use crate::frames::{first_fit, frame_index, lemma_first_fit_is_lowest, mark_run};
use crate::mem_state::{
    area_of, areas_within, heap_bottom_of, layout_fits, lemma_map_from_shape,
    lemma_map_from_undone, lemma_map_from_within, lemma_release_prefix, load_requests, load_spec,
    max_end, stack_bottom_of, MemState,
};
use crate::memory_set::{views_of, MemoryError, MemorySet, USER_STACK_SIZE};
use crate::page_table::PageEntry;
use crate::process::{cleared, same_kernel, Kernel, Process, ProcessInner, KERNEL_PROCESS_ID};
use crate::stack::{argv_base_of, fill_stack, is_stack_image, plan_stack, sp_of};
use crate::task::{GeneralRegisters, SchedAction, Task, TrapFrame};

verus! {

/// The bytes of each string of `args`.
pub open spec fn strings_bytes(args: Seq<String>) -> Seq<Seq<u8>> {
    Seq::new(args.len(), |i: int| encode_utf8(args[i]@))
}

/// The bytes of each string of `args`.
pub fn args_to_bytes(args: &Vec<String>) -> (r: Vec<Vec<u8>>)
    ensures
        r.deep_view() == strings_bytes(args@),
{
    let mut out: Vec<Vec<u8>> = Vec::new();
    let n = args.len();
    let mut i: usize = 0;
    while i < n
        invariant
            i <= n,
            n == args@.len(),
            out@.len() == i,
            forall|k: int| 0 <= k < i ==> (#[trigger] out@[k])@ == encode_utf8(args@[k]@),
        decreases n - i,
    {
        let bytes = slice_to_vec(args[i].as_str().as_bytes());
        out.push(bytes);
        i += 1;
    }
    assert forall|k: int| 0 <= k < n implies #[trigger] out.deep_view()[k] == strings_bytes(
        args@,
    )[k] by {
        assert(out.deep_view()[k] == out@[k].deep_view());
        assert(out@[k].deep_view() =~= out@[k]@);
    }
    assert(out.deep_view() =~= strings_bytes(args@));
    out
}

/// The registers with which a program is entered that was given `argc`
/// arguments through the array at `argv_base`.
pub open spec fn entry_frame(
    entry: usize,
    sp: usize,
    sstatus: usize,
    argc: usize,
    argv_base: usize,
) -> TrapFrame {
    let init = TrapFrame::spec_app_init_context(entry, sp, sstatus);
    TrapFrame { regs: GeneralRegisters { a0: argc, a1: argv_base, ..init.regs }, ..init }
}

/// What is found before anything is changed: the fault that reading the
/// image found; `InvalidExecutable` where heap and stack would end beyond
/// the address space; `BadAddress` where the arguments do not fit on the
/// stack; else the entry point and the segments.
pub open spec fn start_plan(image: Seq<u8>, args: Seq<Seq<u8>>, align: bool) -> Result<
    (usize, Seq<ElfSegment>),
    MemoryError,
> {
    match parse_spec(image) {
        Err(e) => Err(e),
        Ok(parsed) => if !layout_fits(parsed.1) {
            Err(MemoryError::InvalidExecutable)
        } else if sp_of(stack_bottom_of(parsed.1) + 0x1000, args, align) < stack_bottom_of(
            parsed.1,
        ) {
            Err(MemoryError::BadAddress)
        } else {
            Ok(parsed)
        },
    }
}

/// Whether the regions `after` are the regions `loaded` of a program that
/// was just loaded, with the arguments `args` laid out at the top of the
/// stack, which is the last region.
pub open spec fn stack_written(
    loaded: Seq<AreaView>,
    after: Seq<AreaView>,
    segs: Seq<ElfSegment>,
    args: Seq<Seq<u8>>,
    align: bool,
) -> bool {
    let bottom = stack_bottom_of(segs);
    let top = bottom + 0x1000;
    let sp = sp_of(top, args, align);
    let last = loaded.len() - 1;
    &&& after.len() == loaded.len()
    &&& forall|i: int| 0 <= i < last ==> #[trigger] after[i] == loaded[i]
    &&& after[last].start_va == loaded[last].start_va
    &&& after[last].start_paddr == loaded[last].start_paddr
    &&& after[last].flags == loaded[last].flags
    &&& after[last].data.len() == 0x1000
    &&& after[last].data.subrange(0, sp - bottom) == loaded[last].data.subrange(0, sp - bottom)
    &&& is_stack_image(after[last].data.subrange(sp - bottom, 0x1000), top, args, align)
}

/// The requests to the scheduler and the hardware that `exec` ends with:
/// to take each task of `others` off the run queue, in order, and then,
/// unless the process is the kernel process or the token is zero, to make
/// the address space with the token `token` the active one.
pub open spec fn exec_actions(others: Seq<u64>, pid: u64, token: usize) -> Seq<SchedAction> {
    Seq::new(others.len(), |i: int| SchedAction::RemoveTask(others[i])) + if pid
        != KERNEL_PROCESS_ID && token != 0 {
        seq![SchedAction::SwitchPageTable(token)]
    } else {
        Seq::<SchedAction>::empty()
    }
}

/// Whether `after` is `before` once the process `pid` has replaced its
/// program by the executable with the entry point `entry` and the
/// segments `segs`, called by its task `curr` with the arguments `args`.
pub open spec fn executed(
    before: Kernel,
    after: Kernel,
    pid: u64,
    curr: u64,
    image: Seq<u8>,
    entry: usize,
    segs: Seq<ElfSegment>,
    args: Seq<Seq<u8>>,
    sstatus: usize,
) -> bool {
    let p = before.pid2pc@[pid];
    let ms = p.inner.memory_set as int;
    let loaded = load_spec(cleared(before.spaces@[ms].state(&before.frames)), image, entry, segs).1;
    let top = stack_bottom_of(segs) + 0x1000;
    let q = after.pid2pc@[pid];
    &&& after.kernel_table == before.kernel_table
    &&& after.next_id == before.next_id
    &&& after.next_file == before.next_file
    &&& after.frames.base == before.frames.base
    &&& after.frames.used@ == loaded.used
    &&& after.spaces@.len() == before.spaces@.len()
    &&& forall|s: int|
        0 <= s < before.spaces@.len() && s != ms ==> #[trigger] after.spaces@[s]
            == before.spaces@[s]
    &&& after.spaces@[ms].page_table@ == loaded.table
    &&& after.spaces@[ms].page_table.root == before.spaces@[ms].page_table.root
    &&& stack_written(loaded.areas, views_of(after.spaces@[ms].areas@), segs, args, true)
    &&& after.tasks@ == before.tasks@.insert(
        curr,
        Task {
            id: curr,
            process_id: before.tasks@[curr].process_id,
            is_leader: true,
            trap_frame: entry_frame(
                entry,
                sp_of(top, args, true) as usize,
                sstatus,
                args.len() as usize,
                argv_base_of(top, args) as usize,
            ),
            page_table_token: before.tasks@[curr].page_table_token,
        },
    )
    &&& after.pid2pc@.dom() == before.pid2pc@.dom()
    &&& forall|o: u64|
        before.pid2pc@.contains_key(o) && o != pid ==> #[trigger] after.pid2pc@[o]
            == before.pid2pc@[o]
    &&& q.pid == pid
    &&& q.inner.parent == p.inner.parent
    &&& q.inner.children == p.inner.children
    &&& q.inner.tasks@ == seq![curr]
    &&& q.inner.memory_set == p.inner.memory_set
    &&& q.inner.heap_bottom == heap_bottom_of(segs)
    &&& q.inner.heap_top == heap_bottom_of(segs)
    &&& q.inner.is_zombie == p.inner.is_zombie
    &&& q.inner.exit_code == p.inner.exit_code
    &&& q.inner.fd_table == p.inner.fd_table
}

/// Whether `after` is `before` but for the address space `ms`, which holds
/// `st`, and the allocator.
pub open spec fn only_space_changed(before: Kernel, after: Kernel, ms: int, st: MemState) -> bool {
    &&& after.kernel_table == before.kernel_table
    &&& after.pid2pc == before.pid2pc
    &&& after.tasks == before.tasks
    &&& after.next_id == before.next_id
    &&& after.next_file == before.next_file
    &&& after.spaces@.len() == before.spaces@.len()
    &&& forall|s: int|
        0 <= s < before.spaces@.len() && s != ms ==> #[trigger] after.spaces@[s]
            == before.spaces@[s]
    &&& after.spaces@[ms].state(&after.frames) == st
}

/// The requests `exec` ends with, as a vector.
fn make_actions(removed: &Vec<u64>, pid: u64, token: usize) -> (actions: Vec<SchedAction>)
    ensures
        actions@ == exec_actions(removed@, pid, token),
{
    let mut actions: Vec<SchedAction> = Vec::new();
    let n = removed.len();
    let mut i: usize = 0;
    while i < n
        invariant
            i <= n,
            n == removed@.len(),
            actions@ == Seq::new(i as nat, |k: int| SchedAction::RemoveTask(removed@[k])),
        decreases n - i,
    {
        actions.push(SchedAction::RemoveTask(removed[i]));
        i += 1;
        assert(actions@ =~= Seq::new(i as nat, |k: int| SchedAction::RemoveTask(removed@[k])));
    }
    if pid != KERNEL_PROCESS_ID && token != 0 {
        actions.push(SchedAction::SwitchPageTable(token));
    }
    assert(actions@ =~= exec_actions(removed@, pid, token));
    actions
}

impl Process {
    /// Replaces the program of the process `pid`, called by its task
    /// `curr`, by the executable `elf_data` with the arguments `args`.
    /// The image and the arguments are checked first, and a fault found
    /// there changes nothing. Then the regions of the address space are
    /// unmapped and their frames given back, the executable is loaded, the
    /// arguments are laid out at the top of the new stack, `curr` becomes
    /// the only task and the leader of the process and gets the registers
    /// to enter the program with, and the heap is reset. The scheduler is
    /// asked to remove the other tasks and the hardware to switch to the
    /// address space. A failure to load leaves the address space with what
    /// was mapped before it, and the process and its tasks as they were.
    pub fn exec(
        kernel: &mut Kernel,
        pid: u64,
        curr: u64,
        elf_data: &[u8],
        args: &Vec<String>,
        sstatus: usize,
    ) -> (r: Result<Vec<SchedAction>, MemoryError>)
        requires
            old(kernel).wf(),
            old(kernel).pid2pc@.contains_key(pid),
            old(kernel).tasks@.contains_key(curr),
            old(kernel).tasks@[curr].process_id == pid,
            old(kernel).pid2pc@[pid].inner.tasks@.contains(curr),
        ensures
            final(kernel).wf(),
            match start_plan(elf_data@, strings_bytes(args@), true) {
                Err(e) => r == Err::<Vec<SchedAction>, MemoryError>(e) && *final(kernel) == *old(kernel),
                Ok(parsed) => {
                    let ms = old(kernel).pid2pc@[pid].inner.memory_set as int;
                    let loaded = load_spec(
                        cleared(old(kernel).spaces@[ms].state(&old(kernel).frames)),
                        elf_data@,
                        parsed.0,
                        parsed.1,
                    );
                    match loaded.0 {
                        Err(e) => r == Err::<Vec<SchedAction>, MemoryError>(e)
                            && only_space_changed(*old(kernel), *final(kernel), ms, loaded.1),
                        Ok(_) => {
                            &&& r matches Ok(actions)
                            &&& actions@ == exec_actions(
                                old(kernel).pid2pc@[pid].inner.tasks@.filter(|t: u64| t != curr),
                                pid,
                                old(kernel).spaces@[ms].page_table.root,
                            )
                            &&& executed(
                                *old(kernel),
                                *final(kernel),
                                pid,
                                curr,
                                elf_data@,
                                parsed.0,
                                parsed.1,
                                strings_bytes(args@),
                                sstatus,
                            )
                        },
                    }
                },
            },
    {
        let info = match parse_elf(elf_data) {
            Ok(info) => info,
            Err(e) => {
                return Err(e);
            },
        };
        assert forall|i: int| 0 <= i < info.segments@.len() implies (
        #[trigger] info.segments@[i]).start_va + info.segments@[i].mem_size <= usize::MAX by {
            assert(info.segments@[i].wf_for(elf_data@.len() as int));
        }
        let (_, stack_bottom) = match MemorySet::layout_of(&info) {
            Some(at) => at,
            None => {
                return Err(MemoryError::InvalidExecutable);
            },
        };
        let bytes = args_to_bytes(args);
        let top = stack_bottom + USER_STACK_SIZE;
        let plan = match plan_stack(top, USER_STACK_SIZE, &bytes, true) {
            Some(plan) => plan,
            None => {
                return Err(MemoryError::BadAddress);
            },
        };
        let image = fill_stack(&plan, top, &bytes, true);
        let ms = kernel.pid2pc.get(&pid).unwrap().inner.memory_set;
        let ghost st1 = cleared(kernel.spaces@[ms as int].state(&kernel.frames));
        let ghost segs = info.segments@;
        let ghost a = strings_bytes(args@);
        let (entry, _, heap_bottom) = match kernel.reload(ms, elf_data, &info) {
            Ok(found) => found,
            Err(e) => {
                return Err(e);
            },
        };
        let ghost loaded = kernel.spaces@[ms as int].state(&kernel.frames);
        proof {
            lemma_map_from_shape(st1, load_requests(elf_data@, segs), 0);
            lemma_page_ceil(max_end(segs, segs.len() as int));
            let n = segs.len() as int;
            let last = loaded.areas[n + 1];
            assert(loaded.areas[0 + (n + 1) - 0] == area_of(
                load_requests(elf_data@, segs)[n + 1],
                loaded.areas[0 + (n + 1) - 0].start_paddr,
            ));
            assert(page_aligned(stack_bottom as int));
            assert(last.start_va == stack_bottom);
            assert(last.data.len() == 0x1000);
            assert(loaded.areas[n + 1] == kernel.spaces@[ms as int].areas@[n + 1]@);
        }
        let index = kernel.spaces[ms].areas.len() - 1;
        let ghost mid = views_of(kernel.spaces@[ms as int].areas@);
        kernel.write_region(ms, index, plan.sp - stack_bottom, image.as_slice());
        proof {
            let after = views_of(kernel.spaces@[ms as int].areas@);
            assert(after[index as int].data.subrange(plan.sp - stack_bottom, 0x1000) =~= image@);
            assert(after[index as int].data.subrange(0, plan.sp - stack_bottom)
                =~= mid[index as int].data.subrange(0, plan.sp - stack_bottom));
            assert(stack_written(mid, after, segs, a, true));
        }
        let token = kernel.spaces[ms].page_table_token();
        let mut trap_frame = TrapFrame::app_init_context(entry, plan.sp, sstatus);
        trap_frame.regs.a0 = args.len();
        trap_frame.regs.a1 = plan.argv_base;
        let removed = kernel.enter_program(pid, curr, heap_bottom, trap_frame);
        Ok(make_actions(&removed, pid, token))
    }
}

/// The address space that a new program is loaded into: the mappings of
/// the kernel, no region, and the frame `f` taken for the page table.
pub open spec fn fresh_space(before: Kernel, f: int) -> MemState {
    MemState {
        table: before.kernel_table@,
        areas: Seq::<AreaView>::empty(),
        base: before.frames.base,
        used: mark_run(before.frames.used@, f, 1, true),
    }
}

/// Whether the kernel has too few identities or open-file numbers left to
/// make a process with one task.
pub open spec fn spawn_refused(before: Kernel) -> bool {
    before.next_id + 2 > u64::MAX || before.next_file + 4 > usize::MAX
}

/// What starting the executable `image` under the name `name` gives: the
/// fault that the checks found; `OutOfMemory` where the kernel has too few
/// identities or open-file numbers left or no frame is free for the page
/// table; the fault that loading met; else the identity of the new
/// process's task.
pub open spec fn spawn_result(before: Kernel, name: Seq<u8>, image: Seq<u8>) -> Result<
    u64,
    MemoryError,
> {
    match start_plan(image, seq![name], false) {
        Err(e) => Err(e),
        Ok(parsed) => if spawn_refused(before) || first_fit(before.frames.used@, 1).is_none() {
            Err(MemoryError::OutOfMemory)
        } else {
            match load_spec(
                fresh_space(before, first_fit(before.frames.used@, 1).unwrap()),
                image,
                parsed.0,
                parsed.1,
            ).0 {
                Err(e) => Err(e),
                Ok(_) => Ok((before.next_id + 1) as u64),
            }
        },
    }
}

/// Whether `after` is `before` once the program with the entry point
/// `entry` and the segments `segs` was started as a new process: it runs
/// in a new address space with the mappings of the kernel, has the kernel
/// process as its parent, gets the next identity and an entry in the
/// process table, and has one task, its leader, with the identity after
/// that, which enters the program with one argument, the program's name.
pub open spec fn spawned(
    before: Kernel,
    after: Kernel,
    name: Seq<u8>,
    image: Seq<u8>,
    entry: usize,
    segs: Seq<ElfSegment>,
    sstatus: usize,
) -> bool {
    let f = first_fit(before.frames.used@, 1).unwrap();
    let ms = before.spaces@.len() as int;
    let loaded = load_spec(fresh_space(before, f), image, entry, segs).1;
    let top = stack_bottom_of(segs) + 0x1000;
    let pid = before.next_id;
    let tid = (before.next_id + 1) as u64;
    &&& after.kernel_table == before.kernel_table
    &&& after.next_id == before.next_id + 2
    &&& after.next_file == before.next_file + 4
    &&& after.frames.base == before.frames.base
    &&& after.frames.used@ == loaded.used
    &&& after.spaces@.len() == before.spaces@.len() + 1
    &&& forall|s: int|
        0 <= s < before.spaces@.len() ==> #[trigger] after.spaces@[s] == before.spaces@[s]
    &&& after.spaces@[ms].page_table@ == loaded.table
    &&& after.spaces@[ms].page_table.root == before.frames.base + f * 0x1000
    &&& stack_written(loaded.areas, views_of(after.spaces@[ms].areas@), segs, seq![name], false)
    &&& after.tasks@ == before.tasks@.insert(
        tid,
        Task {
            id: tid,
            process_id: pid,
            is_leader: true,
            trap_frame: entry_frame(
                entry,
                sp_of(top, seq![name], false) as usize,
                sstatus,
                1,
                argv_base_of(top, seq![name]) as usize,
            ),
            page_table_token: after.spaces@[ms].page_table.root,
        },
    )
    &&& !before.pid2pc@.contains_key(pid)
    &&& after.pid2pc@.dom() == before.pid2pc@.dom().insert(pid)
    &&& forall|o: u64|
        before.pid2pc@.contains_key(o) ==> #[trigger] after.pid2pc@[o] == before.pid2pc@[o]
    &&& fresh_process(
        after.pid2pc@[pid],
        pid,
        KERNEL_PROCESS_ID,
        ms as usize,
        heap_bottom_of(segs) as usize,
        before.next_file,
        seq![tid],
    )
}

impl Process {
    /// Starts the executable `elf_data`, which was read from `path`, as a
    /// new process, and returns its first task, which the caller hands to
    /// the scheduler. A failure makes no process and leaves the kernel
    /// with what it held.
    pub fn new(kernel: &mut Kernel, path: &str, elf_data: &[u8], sstatus: usize) -> (r: Result<
        u64,
        MemoryError,
    >)
        requires
            old(kernel).wf(),
            old(kernel).pid2pc@.contains_key(KERNEL_PROCESS_ID),
        ensures
            final(kernel).wf(),
            r == spawn_result(*old(kernel), path.spec_bytes(), elf_data@),
            r.is_err() ==> same_kernel(*old(kernel), *final(kernel)),
            r.is_ok() ==> spawned(
                *old(kernel),
                *final(kernel),
                path.spec_bytes(),
                elf_data@,
                start_plan(elf_data@, seq![path.spec_bytes()], false).unwrap().0,
                start_plan(elf_data@, seq![path.spec_bytes()], false).unwrap().1,
                sstatus,
            ),
    {
        let info = match parse_elf(elf_data) {
            Ok(info) => info,
            Err(e) => {
                return Err(e);
            },
        };
        assert forall|i: int| 0 <= i < info.segments@.len() implies (
        #[trigger] info.segments@[i]).start_va + info.segments@[i].mem_size <= usize::MAX by {
            assert(info.segments@[i].wf_for(elf_data@.len() as int));
        }
        let (_, stack_bottom) = match MemorySet::layout_of(&info) {
            Some(at) => at,
            None => {
                return Err(MemoryError::InvalidExecutable);
            },
        };
        let mut bytes: Vec<Vec<u8>> = Vec::new();
        bytes.push(slice_to_vec(path.as_bytes()));
        let ghost a = seq![path.spec_bytes()];
        assert(bytes.deep_view() =~= a) by {
            assert(bytes.deep_view()[0] == bytes@[0].deep_view());
            assert(bytes@[0].deep_view() =~= bytes@[0]@);
        }
        let top = stack_bottom + USER_STACK_SIZE;
        let plan = match plan_stack(top, USER_STACK_SIZE, &bytes, false) {
            Some(plan) => plan,
            None => {
                return Err(MemoryError::BadAddress);
            },
        };
        let image = fill_stack(&plan, top, &bytes, false);
        if kernel.next_id >= u64::MAX - 1 || kernel.next_file > usize::MAX - 4 {
            return Err(MemoryError::OutOfMemory);
        }
        let ms = match kernel.new_space(true) {
            Ok(ms) => ms,
            Err(e) => {
                return Err(e);
            },
        };
        let ghost st0 = kernel.spaces@[ms as int].state(&kernel.frames);
        let ghost segs = info.segments@;
        proof {
            assert(kernel.spaces@.last() == kernel.spaces@[ms as int]);
            assert(areas_within(st0));
            assert(st0.areas =~= Seq::<AreaView>::empty());
            assert(st0 == fresh_space(*old(kernel), first_fit(old(kernel).frames.used@, 1).unwrap()));
            assert(cleared(st0).table =~= st0.table);
            assert(cleared(st0) == st0);
        }
        let ghost f = first_fit(old(kernel).frames.used@, 1).unwrap();
        let (entry, _, heap_bottom) = match kernel.reload(ms, elf_data, &info) {
            Ok(found) => found,
            Err(e) => {
                proof {
                    lemma_first_fit_is_lowest(old(kernel).frames.used@, 1);
                    lemma_map_from_undone(
                        st0,
                        load_requests(elf_data@, segs),
                        0,
                    );
                    lemma_release_prefix(
                        st0.base,
                        st0.used,
                        st0.areas,
                        Seq::<AreaView>::empty(),
                        0,
                    );
                    lemma_map_from_within(
                        st0,
                        load_requests(elf_data@, segs),
                        0,
                    );
                    assert(0 <= f < old(kernel).frames.used@.len());
                    assert(kernel.frames.used@.len() == old(kernel).frames.used@.len());
                    assert(kernel.spaces@.last() == kernel.spaces@[ms as int]);
                    assert(kernel.spaces@.last().page_table.root == old(kernel).frames.base + f
                        * 0x1000);
                    assert(page_aligned(old(kernel).frames.base + f * 0x1000));
                    assert(frame_index(
                        old(kernel).frames.base,
                        old(kernel).frames.base + f * 0x1000,
                    ) == f);
                    assert forall|pid: u64| #[trigger]
                        kernel.pid2pc@.contains_key(pid) implies kernel.pid2pc@[pid].inner.memory_set
                        < kernel.spaces@.len() - 1 by {
                        assert(old(kernel).pid2pc@.contains_key(pid));
                    }
                }
                kernel.drop_last_space();
                proof {
                    assert(kernel.frames.used@ =~= old(kernel).frames.used@);
                    assert(kernel.spaces@ =~= old(kernel).spaces@);
                }
                return Err(e);
            },
        };
        let ghost loaded = kernel.spaces@[ms as int].state(&kernel.frames);
        proof {
            lemma_map_from_shape(st0, load_requests(elf_data@, segs), 0);
            lemma_page_ceil(max_end(segs, segs.len() as int));
            let n = segs.len() as int;
            assert(loaded.areas[0 + (n + 1) - 0] == area_of(
                load_requests(elf_data@, segs)[n + 1],
                loaded.areas[0 + (n + 1) - 0].start_paddr,
            ));
            assert(page_aligned(stack_bottom as int));
            assert(loaded.areas[n + 1].data.len() == 0x1000);
            assert(loaded.areas[n + 1] == kernel.spaces@[ms as int].areas@[n + 1]@);
        }
        let index = kernel.spaces[ms].areas.len() - 1;
        let ghost mid = views_of(kernel.spaces@[ms as int].areas@);
        kernel.write_region(ms, index, plan.sp - stack_bottom, image.as_slice());
        proof {
            let after = views_of(kernel.spaces@[ms as int].areas@);
            assert(after[index as int].data.subrange(plan.sp - stack_bottom, 0x1000) =~= image@);
            assert(after[index as int].data.subrange(0, plan.sp - stack_bottom)
                =~= mid[index as int].data.subrange(0, plan.sp - stack_bottom));
            assert(stack_written(mid, after, segs, a, false));
        }
        let token = kernel.spaces[ms].page_table_token();
        let pid = kernel.alloc_id().unwrap();
        let tid = kernel.alloc_id().unwrap();
        let files = kernel.next_file;
        kernel.next_file = files + 4;
        let mut trap_frame = TrapFrame::app_init_context(entry, plan.sp, sstatus);
        trap_frame.regs.a0 = 1;
        trap_frame.regs.a1 = plan.argv_base;
        kernel.add_task(
            Task { id: tid, process_id: pid, is_leader: true, trap_frame, page_table_token: token },
        );
        let mut inner = ProcessInner::new(KERNEL_PROCESS_ID, ms, heap_bottom, files);
        inner.tasks.push(tid);
        assert(inner.tasks@ =~= seq![tid]);
        kernel.add_process(Process { pid, inner });
        Ok(tid)
    }
}

/// Makes the kernel process, the root of the hierarchy, in a kernel that
/// has made nothing yet: it gets the identity 1, an address space without
/// any mapping, the parent 0, and one task, the idle task, with the
/// identity 2. `OutOfMemory`, with nothing changed, where no frame is free
/// for the page table.
pub fn init_kernel_process(kernel: &mut Kernel) -> (r: Result<(), MemoryError>)
    requires
        old(kernel).wf(),
        old(kernel).next_id == 1,
        old(kernel).next_file + 4 <= usize::MAX,
    ensures
        final(kernel).wf(),
        match first_fit(old(kernel).frames.used@, 1) {
            None => r == Err::<(), MemoryError>(MemoryError::OutOfMemory) && *final(kernel) == *old(kernel),
            Some(f) => {
                let ms = old(kernel).spaces@.len() as int;
                &&& r == Ok::<(), MemoryError>(())
                &&& final(kernel).kernel_table == old(kernel).kernel_table
                &&& final(kernel).next_id == 3
                &&& final(kernel).next_file == old(kernel).next_file + 4
                &&& final(kernel).frames.base == old(kernel).frames.base
                &&& final(kernel).frames.used@ == mark_run(old(kernel).frames.used@, f, 1, true)
                &&& final(kernel).spaces@.len() == ms + 1
                &&& forall|s: int|
                    0 <= s < ms ==> #[trigger] final(kernel).spaces@[s] == old(kernel).spaces@[s]
                &&& final(kernel).spaces@[ms].page_table@ == Map::<usize, PageEntry>::empty()
                &&& final(kernel).spaces@[ms].areas@.len() == 0
                &&& final(kernel).tasks@ == old(kernel).tasks@.insert(
                    2,
                    Task {
                        id: 2,
                        process_id: KERNEL_PROCESS_ID,
                        is_leader: true,
                        trap_frame: TrapFrame {
                            regs: GeneralRegisters::spec_zero(),
                            sepc: 0,
                            sstatus: 0,
                        },
                        page_table_token: final(kernel).spaces@[ms].page_table.root,
                    },
                )
                &&& final(kernel).pid2pc@.dom() == old(kernel).pid2pc@.dom().insert(
                    KERNEL_PROCESS_ID,
                )
                &&& fresh_process(
                    final(kernel).pid2pc@[KERNEL_PROCESS_ID],
                    KERNEL_PROCESS_ID,
                    0,
                    ms as usize,
                    0,
                    old(kernel).next_file,
                    seq![2u64],
                )
            },
        },
{
    let ms = match kernel.new_space(false) {
        Ok(ms) => ms,
        Err(e) => {
            return Err(e);
        },
    };
    assert(kernel.spaces@.last() == kernel.spaces@[ms as int]);
    let token = kernel.spaces[ms].page_table_token();
    let pid = kernel.alloc_id().unwrap();
    let tid = kernel.alloc_id().unwrap();
    let files = kernel.next_file;
    kernel.next_file = files + 4;
    kernel.add_task(
        Task {
            id: tid,
            process_id: pid,
            is_leader: true,
            trap_frame: TrapFrame { regs: GeneralRegisters::zero(), sepc: 0, sstatus: 0 },
            page_table_token: token,
        },
    );
    let mut inner = ProcessInner::new(0, ms, 0, files);
    inner.tasks.push(tid);
    assert(inner.tasks@ =~= seq![tid]);
    kernel.add_process(Process { pid, inner });
    Ok(())
}

/// Starts the executable `elf_data` as the first user process, under the
/// name `waitpid`, and asks the scheduler to run its task. A failure makes
/// no process and leaves the kernel with what it held.
pub fn init_user_process(kernel: &mut Kernel, elf_data: &[u8], sstatus: usize) -> (r: Result<
    Vec<SchedAction>,
    MemoryError,
>)
    requires
        old(kernel).wf(),
        old(kernel).pid2pc@.contains_key(KERNEL_PROCESS_ID),
    ensures
        final(kernel).wf(),
        match spawn_result(*old(kernel), "waitpid".spec_bytes(), elf_data@) {
            Ok(tid) => {
                &&& r matches Ok(actions)
                &&& actions@ == seq![SchedAction::AddTask(tid)]
                &&& spawned(
                    *old(kernel),
                    *final(kernel),
                    "waitpid".spec_bytes(),
                    elf_data@,
                    start_plan(elf_data@, seq!["waitpid".spec_bytes()], false).unwrap().0,
                    start_plan(elf_data@, seq!["waitpid".spec_bytes()], false).unwrap().1,
                    sstatus,
                )
            },
            Err(e) => {
                &&& r matches Err(got)
                &&& got == e
                &&& same_kernel(*old(kernel), *final(kernel))
            },
        },
{
    match Process::new(kernel, "waitpid", elf_data, sstatus) {
        Ok(tid) => {
            let mut actions: Vec<SchedAction> = Vec::new();
            actions.push(SchedAction::AddTask(tid));
            Ok(actions)
        },
        Err(e) => Err(e),
    }
}

} // verus!
