
use axcore::exec::{init_kernel_process, init_user_process};
use axcore::flags::{
    CloneFlags, WaitStatus, CLONE_PARENT, CLONE_SETTLS, CLONE_THREAD, CLONE_VM,
};
use axcore::frames::FrameAllocator;
use axcore::lifecycle::{exit, wait_pid};
use axcore::memory_set::MemoryError;
use axcore::page_table::PageTable;
use axcore::process::{current_process, Kernel, Process, KERNEL_PROCESS_ID};
use axcore::syscall::{current_task, sleep_now_task, yield_now_task};
use axcore::task::SchedAction;

const BASE: usize = 0x8000_0000;

fn push_u16(v: &mut Vec<u8>, x: u16) {
    v.extend_from_slice(&x.to_le_bytes());
}

fn push_u32(v: &mut Vec<u8>, x: u32) {
    v.extend_from_slice(&x.to_le_bytes());
}

fn push_u64(v: &mut Vec<u8>, x: u64) {
    v.extend_from_slice(&x.to_le_bytes());
}

/// A 64-bit image with a read-execute segment at 0x1000 and a read-write
/// segment at 0x2000, one page each.
fn program(entry: u64) -> Vec<u8> {
    let segments: [(u32, u64, u64, Vec<u8>); 2] =
        [(5, 0x1000, 0x1000, vec![0xaa, 0xbb]), (6, 0x2000, 0x1000, vec![0xcc])];
    let mut v: Vec<u8> = vec![0x7f, 0x45, 0x4c, 0x46, 2, 1, 1, 0, 0, 0, 0, 0, 0, 0, 0, 0];
    push_u16(&mut v, 2);
    push_u16(&mut v, 0xf3);
    push_u32(&mut v, 1);
    push_u64(&mut v, entry);
    push_u64(&mut v, 64);
    push_u64(&mut v, 0);
    push_u32(&mut v, 0);
    push_u16(&mut v, 64);
    push_u16(&mut v, 56);
    push_u16(&mut v, 2);
    push_u16(&mut v, 0);
    push_u16(&mut v, 0);
    push_u16(&mut v, 0);
    let mut offset = 64 + 56 * 2;
    for (flags, vaddr, mem_size, bytes) in segments.iter() {
        push_u32(&mut v, 1);
        push_u32(&mut v, *flags);
        push_u64(&mut v, offset);
        push_u64(&mut v, *vaddr);
        push_u64(&mut v, *vaddr);
        push_u64(&mut v, bytes.len() as u64);
        push_u64(&mut v, *mem_size);
        push_u64(&mut v, 0x1000);
        offset += bytes.len() as u64;
    }
    for (_, _, _, bytes) in segments.iter() {
        v.extend_from_slice(bytes);
    }
    v
}

fn kernel_with(frames: usize) -> Kernel {
    let mut frames = FrameAllocator::new(BASE, frames).unwrap();
    let table = PageTable::try_new(&mut frames).unwrap();
    let mut kernel = Kernel::new(frames, table);
    init_kernel_process(&mut kernel).unwrap();
    kernel
}

/// A kernel with the kernel process and one user process; returns the
/// user process's identity and its task.
fn booted() -> (Kernel, u64, u64) {
    let mut kernel = kernel_with(256);
    let tid = Process::new(&mut kernel, "init", &program(0x1040), 0x120).unwrap();
    let pid = kernel.task(tid).unwrap().process_id;
    (kernel, pid, tid)
}

fn fork(kernel: &mut Kernel, pid: u64, curr: u64) -> u64 {
    let (id, _) =
        Process::clone_task(kernel, pid, curr, CloneFlags::from_bits(0), None, 0, 0, 0).unwrap();
    id
}

fn leader_of(kernel: &Kernel, pid: u64) -> u64 {
    kernel.lookup(pid).unwrap().inner.tasks[0]
}

fn exit_leader(kernel: &mut Kernel, pid: u64, code: i32) {
    let leader = leader_of(kernel, pid);
    exit(kernel, leader, code);
}

#[test]
fn kernel_process_is_the_first() {
    let kernel = kernel_with(16);
    let root = kernel.lookup(KERNEL_PROCESS_ID).unwrap();
    assert_eq!(root.pid, 1);
    assert_eq!(root.inner.parent, 0);
    assert_eq!(root.inner.tasks, vec![2]);
    assert!(root.inner.children.is_empty());
    assert_eq!(root.inner.fd_table, vec![Some(0), Some(1), Some(2), Some(3)]);
    assert_eq!(kernel.next_id, 3);
    let idle = kernel.task(2).unwrap();
    assert_eq!(idle.process_id, 1);
    assert!(idle.is_leader);
    assert_eq!(kernel.spaces[root.inner.memory_set].areas.len(), 0);
    assert_eq!(current_process(&kernel, 2).unwrap().pid, 1);
    assert!(current_process(&kernel, 9).is_none());
    assert_eq!(current_task(&kernel, 2).unwrap().id, 2);
    assert!(current_task(&kernel, 1).is_none());
}

#[test]
fn kernel_process_needs_a_frame() {
    let mut frames = FrameAllocator::new(BASE, 1).unwrap();
    let table = PageTable::try_new(&mut frames).unwrap();
    let mut kernel = Kernel::new(frames, table);
    assert_eq!(init_kernel_process(&mut kernel), Err(MemoryError::OutOfMemory));
    assert_eq!(kernel.next_id, 1);
    assert!(kernel.lookup(1).is_none());
}

#[test]
fn spawn_registers_a_process_with_a_leader() {
    let (kernel, pid, tid) = booted();
    assert_eq!(pid, 3);
    assert_eq!(tid, 4);
    let p = kernel.lookup(pid).unwrap();
    assert_eq!(p.inner.parent, KERNEL_PROCESS_ID);
    assert_eq!(p.inner.tasks, vec![tid]);
    assert_eq!(p.inner.heap_bottom, 0x4000);
    assert_eq!(p.inner.heap_top, 0x4000);
    assert!(!p.inner.is_zombie);
    assert_eq!(p.inner.fd_table, vec![Some(4), Some(5), Some(6), Some(7)]);
    let t = kernel.task(tid).unwrap();
    assert!(t.is_leader);
    assert_eq!(t.process_id, pid);
    assert_eq!(t.trap_frame.sepc, 0x1040);
    assert_eq!(t.trap_frame.sstatus, 0x20);
    assert_eq!(t.trap_frame.regs.a0, 1);
    assert_eq!(t.trap_frame.regs.a1, 0x7ff0);
    assert_eq!(t.trap_frame.regs.sp, 0x7fe8);
    assert_eq!(t.trap_frame.regs.ra, 0);
    let space = &kernel.spaces[p.inner.memory_set];
    assert_eq!(t.page_table_token, space.page_table_token());
    assert_eq!(space.areas.len(), 4);
    let stack = space.areas[3].pages.as_slice();
    assert_eq!(&stack[0xfe8..0xff0], b"\0\0\0init\0");
    assert_eq!(&stack[0xff0..0xff8], &0x7febu64.to_le_bytes());
    assert_eq!(&stack[0xff8..], &[0u8; 8]);
    assert!(stack[..0xfe8].iter().all(|b| *b == 0));
    assert_eq!(space.translate_str(0x7feb).unwrap(), "init");
    assert!(kernel.lookup(KERNEL_PROCESS_ID).unwrap().inner.children.is_empty());
}

#[test]
fn spawn_refuses_a_bad_image_and_changes_nothing() {
    let mut kernel = kernel_with(64);
    let mut image = program(0x1000);
    image[1] = 0;
    assert_eq!(Process::new(&mut kernel, "x", &image, 0), Err(MemoryError::InvalidExecutable));
    assert_eq!(kernel.next_id, 3);
    assert_eq!(kernel.spaces.len(), 1);
    let long = "n".repeat(5000);
    assert_eq!(
        Process::new(&mut kernel, &long, &program(0x1000), 0),
        Err(MemoryError::BadAddress)
    );
    assert_eq!(kernel.spaces.len(), 1);
}

#[test]
fn spawn_fails_without_memory() {
    let mut kernel = kernel_with(4);
    assert_eq!(
        Process::new(&mut kernel, "x", &program(0x1000), 0),
        Err(MemoryError::OutOfMemory)
    );
    assert!(kernel.lookup(3).is_none());
    assert_eq!(kernel.next_id, 3);
    assert_eq!(kernel.spaces.len(), 1);
    assert_eq!(kernel.frames.used, vec![true, true, false, false]);
}

#[test]
fn first_user_process_is_enqueued() {
    let mut kernel = kernel_with(64);
    let actions = init_user_process(&mut kernel, &program(0x1000), 0).unwrap();
    assert_eq!(actions, vec![SchedAction::AddTask(4)]);
    let space = &kernel.spaces[kernel.lookup(3).unwrap().inner.memory_set];
    assert_eq!(space.translate_str(0x7fe8).unwrap(), "waitpid");
}

#[test]
fn clone_thread_adds_no_process() {
    let (mut kernel, pid, tid) = booted();
    let count = kernel.pid2pc.len();
    let spaces = kernel.spaces.len();
    let flags = CloneFlags::from_bits(CLONE_VM | CLONE_THREAD | CLONE_SETTLS);
    let (id, actions) =
        Process::clone_task(&mut kernel, pid, tid, flags, Some(0x5000), 0, 0x77, 0).unwrap();
    assert_eq!(id, 5);
    assert_eq!(actions, vec![SchedAction::AddTask(5)]);
    assert_eq!(kernel.pid2pc.len(), count);
    assert_eq!(kernel.spaces.len(), spaces);
    assert_eq!(kernel.lookup(pid).unwrap().inner.tasks, vec![tid, 5]);
    let t = kernel.task(5).unwrap();
    let caller = kernel.task(tid).unwrap();
    assert_eq!(t.process_id, pid);
    assert!(!t.is_leader);
    assert_eq!(t.trap_frame.regs.a0, 0);
    assert_eq!(t.trap_frame.regs.tp, 0x77);
    assert_eq!(t.trap_frame.regs.sp, 0x5000);
    assert_eq!(t.trap_frame.regs.a1, caller.trap_frame.regs.a1);
    assert_eq!(t.trap_frame.sepc, caller.trap_frame.sepc);
    assert_eq!(t.page_table_token, caller.page_table_token);
    assert_eq!(kernel.next_id, 6);
}

#[test]
fn clone_process_adds_an_entry_with_the_caller_as_parent() {
    let (mut kernel, pid, tid) = booted();
    let count = kernel.pid2pc.len();
    let (id, actions) =
        Process::clone_task(&mut kernel, pid, tid, CloneFlags::from_bits(0), None, 0, 9, 0)
            .unwrap();
    assert_eq!(id, 5);
    assert_eq!(actions, vec![SchedAction::AddTask(6)]);
    assert_eq!(kernel.pid2pc.len(), count + 1);
    let child = kernel.lookup(5).unwrap();
    assert_eq!(child.inner.parent, pid);
    assert_eq!(child.inner.tasks, vec![6]);
    assert_eq!(child.inner.heap_bottom, 0x4000);
    assert_eq!(kernel.lookup(pid).unwrap().inner.children, vec![5]);
    let t = kernel.task(6).unwrap();
    let caller = kernel.task(tid).unwrap();
    assert!(t.is_leader);
    assert_eq!(t.process_id, 5);
    assert_eq!(t.trap_frame.regs.a0, 0);
    assert_eq!(t.trap_frame.regs.tp, caller.trap_frame.regs.tp);
    assert_eq!(t.trap_frame.regs.sp, caller.trap_frame.regs.sp);
    let parent_space = &kernel.spaces[kernel.lookup(pid).unwrap().inner.memory_set];
    let child_space = &kernel.spaces[child.inner.memory_set];
    assert_ne!(child.inner.memory_set, kernel.lookup(pid).unwrap().inner.memory_set);
    assert_eq!(t.page_table_token, child_space.page_table_token());
    assert_eq!(child_space.areas.len(), parent_space.areas.len());
    for i in 0..child_space.areas.len() {
        assert_eq!(child_space.areas[i].pages.as_slice(), parent_space.areas[i].pages.as_slice());
        assert_ne!(
            child_space.areas[i].pages.start_paddr(),
            parent_space.areas[i].pages.start_paddr()
        );
    }
}

#[test]
fn clone_parent_makes_a_sibling() {
    let (mut kernel, pid, tid) = booted();
    let child = fork(&mut kernel, pid, tid);
    let child_task = leader_of(&kernel, child);
    let flags = CloneFlags::from_bits(CLONE_PARENT | CLONE_VM);
    let (sibling, _) =
        Process::clone_task(&mut kernel, child, child_task, flags, None, 0, 0, 0).unwrap();
    assert_eq!(kernel.lookup(sibling).unwrap().inner.parent, pid);
    assert_eq!(kernel.lookup(pid).unwrap().inner.children, vec![child, sibling]);
    assert!(kernel.lookup(child).unwrap().inner.children.is_empty());
    assert_eq!(
        kernel.lookup(sibling).unwrap().inner.memory_set,
        kernel.lookup(child).unwrap().inner.memory_set
    );
}

#[test]
fn clone_reports_exhaustion() {
    let mut kernel = kernel_with(9);
    let tid = Process::new(&mut kernel, "init", &program(0x1040), 0).unwrap();
    let before = kernel.next_id;
    let r = Process::clone_task(&mut kernel, 3, tid, CloneFlags::from_bits(0), None, 0, 0, 0);
    assert!(matches!(r, Err(MemoryError::OutOfMemory)));
    assert_eq!(kernel.next_id, before);
    assert!(kernel.lookup(3).unwrap().inner.children.is_empty());
    let (mut full, pid, tid) = booted();
    full.next_id = u64::MAX - 1;
    let r = Process::clone_task(&mut full, pid, tid, CloneFlags::from_bits(0), None, 0, 0, 0);
    assert!(matches!(r, Err(MemoryError::OutOfMemory)));
    let thread = CloneFlags::from_bits(CLONE_THREAD | CLONE_VM);
    let r = Process::clone_task(&mut full, pid, tid, thread, None, 0, 0, 0);
    assert!(matches!(r, Ok((id, _)) if id == u64::MAX - 1));
}

#[test]
fn exit_of_a_thread_changes_no_process() {
    let (mut kernel, pid, tid) = booted();
    let flags = CloneFlags::from_bits(CLONE_VM | CLONE_THREAD);
    let (thread, _) = Process::clone_task(&mut kernel, pid, tid, flags, None, 0, 0, 0).unwrap();
    let actions = exit(&mut kernel, thread, 7);
    assert_eq!(actions, vec![SchedAction::ExitCurrent(7), SchedAction::Resched]);
    let p = kernel.lookup(pid).unwrap();
    assert!(!p.inner.is_zombie);
    assert_eq!(kernel.spaces[p.inner.memory_set].areas.len(), 4);
}

#[test]
fn exit_of_a_leader_reparents_the_children_and_frees_the_frames() {
    let (mut kernel, pid, tid) = booted();
    let a = fork(&mut kernel, pid, tid);
    let b = fork(&mut kernel, pid, tid);
    let a_leader = leader_of(&kernel, a);
    let grandchild = fork(&mut kernel, a, a_leader);
    let mut probe = kernel.frames.used.iter().filter(|u| **u).count();
    let ms = kernel.lookup(pid).unwrap().inner.memory_set;
    let held: usize = kernel.spaces[ms].areas.iter().map(|r| r.size() / 0x1000).sum();
    let actions = exit(&mut kernel, tid, 3);
    assert_eq!(actions, vec![SchedAction::ExitCurrent(3), SchedAction::Resched]);
    let p = kernel.lookup(pid).unwrap();
    assert!(p.inner.is_zombie);
    assert_eq!(p.inner.exit_code, 3);
    assert!(p.inner.children.is_empty());
    assert_eq!(kernel.lookup(a).unwrap().inner.parent, KERNEL_PROCESS_ID);
    assert_eq!(kernel.lookup(b).unwrap().inner.parent, KERNEL_PROCESS_ID);
    assert_eq!(kernel.lookup(grandchild).unwrap().inner.parent, a);
    assert_eq!(kernel.lookup(KERNEL_PROCESS_ID).unwrap().inner.children, vec![a, b]);
    assert_eq!(kernel.spaces[ms].areas.len(), 0);
    probe -= held;
    assert_eq!(kernel.frames.used.iter().filter(|u| **u).count(), probe);
    assert!(kernel.lookup(pid).is_some());
}

#[test]
fn wait_for_any_reaps_one_zombie_per_call() {
    let (mut kernel, pid, tid) = booted();
    assert_eq!(wait_pid(&mut kernel, pid, -1), Err(WaitStatus::NotExist));
    let a = fork(&mut kernel, pid, tid);
    let b = fork(&mut kernel, pid, tid);
    let c = fork(&mut kernel, pid, tid);
    assert_eq!(wait_pid(&mut kernel, pid, -1), Err(WaitStatus::Running));
    exit_leader(&mut kernel, c, 1);
    exit_leader(&mut kernel, a, 2);
    let first = wait_pid(&mut kernel, pid, -1).unwrap();
    let second = wait_pid(&mut kernel, pid, -1).unwrap();
    let mut got = vec![first, second];
    got.sort();
    let mut want = vec![(a, 2 << 8), (c, 1 << 8)];
    want.sort();
    assert_eq!(got, want);
    assert_eq!(kernel.lookup(pid).unwrap().inner.children, vec![b]);
    assert_eq!(wait_pid(&mut kernel, pid, -1), Err(WaitStatus::Running));
    exit_leader(&mut kernel, b, 0);
    assert_eq!(wait_pid(&mut kernel, pid, -1), Ok((b, 0)));
    assert_eq!(wait_pid(&mut kernel, pid, -1), Err(WaitStatus::NotExist));
    assert!(kernel.lookup(a).is_some());
    assert!(kernel.lookup(a).unwrap().inner.is_zombie);
}

#[test]
fn wait_for_one_child() {
    let (mut kernel, pid, tid) = booted();
    let a = fork(&mut kernel, pid, tid);
    let b = fork(&mut kernel, pid, tid);
    assert_eq!(wait_pid(&mut kernel, pid, a as isize), Err(WaitStatus::Running));
    assert_eq!(kernel.lookup(pid).unwrap().inner.children, vec![a, b]);
    assert_eq!(wait_pid(&mut kernel, pid, 99), Err(WaitStatus::NotExist));
    assert_eq!(wait_pid(&mut kernel, pid, -5), Err(WaitStatus::NotExist));
    assert_eq!(wait_pid(&mut kernel, pid, pid as isize), Err(WaitStatus::NotExist));
    exit_leader(&mut kernel, b, 5);
    assert_eq!(wait_pid(&mut kernel, pid, a as isize), Err(WaitStatus::Running));
    assert_eq!(wait_pid(&mut kernel, pid, b as isize), Ok((b, 5 << 8)));
    assert_eq!(kernel.lookup(pid).unwrap().inner.children, vec![a]);
    assert_eq!(wait_pid(&mut kernel, pid, b as isize), Err(WaitStatus::NotExist));
    assert_eq!(wait_pid(&mut kernel, a, -1), Err(WaitStatus::NotExist));
}

#[test]
fn exec_replaces_the_program_and_lays_out_the_arguments() {
    let (mut kernel, pid, tid) = booted();
    let flags = CloneFlags::from_bits(CLONE_VM | CLONE_THREAD);
    let (t1, _) = Process::clone_task(&mut kernel, pid, tid, flags, None, 0, 0, 0).unwrap();
    let (t2, _) = Process::clone_task(&mut kernel, pid, tid, flags, None, 0, 0, 0).unwrap();
    let ms = kernel.lookup(pid).unwrap().inner.memory_set;
    let token = kernel.spaces[ms].page_table_token();
    let used = kernel.frames.used.iter().filter(|u| **u).count();
    let args = vec!["ab".to_string(), "cde".to_string()];
    let actions = Process::exec(&mut kernel, pid, t1, &program(0x2000), &args, 0x1ff).unwrap();
    assert_eq!(
        actions,
        vec![
            SchedAction::RemoveTask(tid),
            SchedAction::RemoveTask(t2),
            SchedAction::SwitchPageTable(token)
        ]
    );
    let p = kernel.lookup(pid).unwrap();
    assert_eq!(p.inner.tasks, vec![t1]);
    assert_eq!(p.inner.memory_set, ms);
    assert_eq!(p.inner.heap_bottom, 0x4000);
    assert_eq!(p.inner.heap_top, 0x4000);
    let t = kernel.task(t1).unwrap();
    assert!(t.is_leader);
    assert_eq!(t.trap_frame.sepc, 0x2000);
    assert_eq!(t.trap_frame.sstatus, 0xff);
    assert_eq!(t.trap_frame.regs.sp, 0x7fd8);
    assert_eq!(t.trap_frame.regs.a0, 2);
    assert_eq!(t.trap_frame.regs.a1, 0x7fe8);
    assert_eq!(t.trap_frame.regs.tp, 0);
    let space = &kernel.spaces[ms];
    assert_eq!(space.page_table_token(), token);
    assert_eq!(space.areas.len(), 4);
    assert_eq!(kernel.frames.used.iter().filter(|u| **u).count(), used);
    let stack = space.areas[3].pages.as_slice();
    assert_eq!(&stack[0xfd8..0xfe0], b"cde\0\0\0\0\0");
    assert_eq!(&stack[0xfe0..0xfe8], b"ab\0\0\0\0\0\0");
    assert_eq!(&stack[0xfe8..0xff0], &0x7fe0u64.to_le_bytes());
    assert_eq!(&stack[0xff0..0xff8], &0x7fd8u64.to_le_bytes());
    assert_eq!(&stack[0xff8..], &[0u8; 8]);
    assert!(stack[..0xfd8].iter().all(|b| *b == 0));
    assert_eq!(space.translate_str(0x7fe0).unwrap(), "ab");
    assert_eq!(space.translate_str(0x7fd8).unwrap(), "cde");
}

#[test]
fn exec_checks_before_it_changes_anything() {
    let (mut kernel, pid, tid) = booted();
    let ms = kernel.lookup(pid).unwrap().inner.memory_set;
    let base = kernel.spaces[ms].areas[0].pages.start_paddr();
    let r = Process::exec(&mut kernel, pid, tid, &[1, 2, 3], &vec![], 0);
    assert!(matches!(r, Err(MemoryError::InvalidExecutable)));
    let big = vec!["x".repeat(4096)];
    let r = Process::exec(&mut kernel, pid, tid, &program(0x1000), &big, 0);
    assert!(matches!(r, Err(MemoryError::BadAddress)));
    assert_eq!(kernel.spaces[ms].areas.len(), 4);
    assert_eq!(kernel.spaces[ms].areas[0].pages.start_paddr(), base);
    assert_eq!(kernel.spaces[ms].translate_str(0x7feb).unwrap(), "init");
    let r = Process::exec(&mut kernel, pid, tid, &program(0x1000), &vec![], 0);
    assert_eq!(r.unwrap(), vec![SchedAction::SwitchPageTable(kernel.spaces[ms].page_table_token())]);
    let t = kernel.task(tid).unwrap();
    assert_eq!(t.trap_frame.regs.a0, 0);
    assert_eq!(t.trap_frame.regs.a1, 0x7ff8);
    assert_eq!(t.trap_frame.regs.sp, 0x7ff8);
}

#[test]
fn exec_of_the_kernel_process_switches_no_address_space() {
    let mut kernel = kernel_with(64);
    let r = Process::exec(&mut kernel, KERNEL_PROCESS_ID, 2, &program(0x1000), &vec![], 0);
    assert_eq!(r.unwrap(), Vec::<SchedAction>::new());
    assert_eq!(kernel.spaces[0].areas.len(), 4);
}

#[test]
fn scheduler_requests() {
    assert_eq!(yield_now_task(), SchedAction::Yield);
    assert_eq!(sleep_now_task(3, 500), SchedAction::Sleep(3, 500));
}

#[test]
fn clone_flags_are_bit_sets() {
    let f = CloneFlags::from_bits(CLONE_VM | CLONE_THREAD);
    assert!(f.contains(CLONE_VM));
    assert!(f.contains(CLONE_THREAD));
    assert!(!f.contains(CLONE_PARENT));
    assert!(!f.contains(CLONE_SETTLS));
    assert!(f.contains(CLONE_VM | CLONE_THREAD));
}
