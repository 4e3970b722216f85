use axcore::exec::init_kernel_process;
use axcore::file_io::{DirDesc, FileDesc, FileIOType, FileObject};
use axcore::frames::FrameAllocator;
use axcore::page_table::PageTable;
use axcore::process::{Kernel, ProcessInner};
use axcore::syscall::{
    syscall, syscall_close, syscall_dup, syscall_dup3, syscall_openat, Syscall, SYS_CLONE,
    SYS_CLOSE, SYS_EXECVE, SYS_EXIT, SYS_GETPID, SYS_GETPPID, SYS_OPENAT, SYS_READ, SYS_WAIT4,
    SYS_WRITE,
};
use axcore::vfs::X64PagingMetaData;

fn table() -> ProcessInner {
    ProcessInner::new(1, 0, 0x4000, 10)
}

#[test]
fn new_process_state_has_the_standard_descriptors() {
    let p = table();
    assert_eq!(p.parent, 1);
    assert_eq!(p.heap_bottom, 0x4000);
    assert_eq!(p.heap_top, 0x4000);
    assert_eq!(p.exit_code, 0);
    assert!(!p.is_zombie);
    assert_eq!(p.fd_table, vec![Some(10), Some(11), Some(12), Some(13)]);
}

#[test]
fn alloc_fd_finds_the_lowest_free_descriptor() {
    let mut p = table();
    assert_eq!(p.alloc_fd(), 4);
    assert_eq!(p.fd_table.len(), 5);
    assert_eq!(p.alloc_fd(), 4);
    assert_eq!(p.fd_table.len(), 5);
    assert_eq!(syscall_close(&mut p, 1), 0);
    assert_eq!(p.alloc_fd(), 1);
}

#[test]
fn close_frees_an_open_descriptor() {
    let mut p = table();
    assert_eq!(syscall_close(&mut p, 4), -1);
    assert_eq!(syscall_close(&mut p, 2), 0);
    assert_eq!(p.fd_table, vec![Some(10), Some(11), None, Some(13)]);
    assert_eq!(syscall_close(&mut p, 2), -1);
    assert_eq!(syscall_close(&mut p, usize::MAX), -1);
}

#[test]
fn dup_takes_the_lowest_free_descriptor() {
    let mut p = table();
    assert_eq!(syscall_dup(&mut p, 1), Some(4));
    assert_eq!(p.fd_table, vec![Some(10), Some(11), Some(12), Some(13), Some(11)]);
    assert_eq!(syscall_close(&mut p, 0), 0);
    assert_eq!(syscall_dup(&mut p, 3), Some(0));
    assert_eq!(p.fd_table[0], Some(13));
    assert_eq!(syscall_close(&mut p, 2), 0);
    assert_eq!(syscall_dup(&mut p, 2), None);
    assert_eq!(syscall_dup(&mut p, 9), None);
    assert_eq!(p.fd_table.len(), 5);
}

#[test]
fn dup3_takes_the_descriptor_it_is_given() {
    let mut p = table();
    assert_eq!(syscall_dup3(&mut p, 0, 6), Some(6));
    assert_eq!(
        p.fd_table,
        vec![Some(10), Some(11), Some(12), Some(13), None, None, Some(10)]
    );
    assert_eq!(syscall_dup3(&mut p, 1, 6), None);
    assert_eq!(syscall_dup3(&mut p, 1, 1), None);
    assert_eq!(syscall_dup3(&mut p, 4, 5), None);
    assert_eq!(syscall_dup3(&mut p, 9, 5), None);
    assert_eq!(syscall_dup3(&mut p, 1, usize::MAX), None);
    assert_eq!(p.fd_table.len(), 7);
    assert_eq!(syscall_dup3(&mut p, 1, 4), Some(4));
    assert_eq!(p.fd_table[4], Some(11));
}

#[test]
fn openat_binds_the_next_open_file() {
    let mut frames = FrameAllocator::new(0x8000_0000, 8).unwrap();
    let table = PageTable::try_new(&mut frames).unwrap();
    let mut kernel = Kernel::new(frames, table);
    init_kernel_process(&mut kernel).unwrap();
    assert_eq!(kernel.next_file, 4);
    assert_eq!(syscall_openat(&mut kernel, 1, true), Some(4));
    assert_eq!(kernel.next_file, 5);
    assert_eq!(kernel.lookup(1).unwrap().inner.fd_table[4], Some(4));
    assert_eq!(syscall_openat(&mut kernel, 1, false), None);
    assert_eq!(kernel.next_file, 5);
    assert_eq!(kernel.lookup(1).unwrap().inner.fd_table.len(), 6);
    assert_eq!(kernel.lookup(1).unwrap().inner.fd_table[5], None);
    assert_eq!(syscall_openat(&mut kernel, 1, true), Some(5));
    assert_eq!(kernel.lookup(1).unwrap().inner.fd_table[5], Some(5));
}

#[test]
fn syscalls_are_decoded_by_number() {
    let a = [1usize, 2, 3, 4, 5, 6];
    assert_eq!(syscall(SYS_WRITE, a), Some(Syscall::Write { fd: 1, buf: 2, count: 3 }));
    assert_eq!(syscall(SYS_READ, a), Some(Syscall::Read { fd: 1, buf: 2, count: 3 }));
    assert_eq!(syscall(SYS_EXIT, a), Some(Syscall::Exit { code: 1 }));
    assert_eq!(
        syscall(SYS_EXIT, [usize::MAX, 0, 0, 0, 0, 0]),
        Some(Syscall::Exit { code: -1 })
    );
    assert_eq!(syscall(SYS_EXECVE, a), Some(Syscall::Execve { path: 1, argv: 2 }));
    assert_eq!(
        syscall(SYS_CLONE, a),
        Some(Syscall::Clone { flags: 1, stack: 2, ptid: 3, tls: 4, ctid: 5 })
    );
    assert_eq!(syscall(SYS_GETPID, a), Some(Syscall::GetPid));
    assert_eq!(syscall(SYS_GETPPID, a), Some(Syscall::GetPPid));
    assert_eq!(
        syscall(SYS_WAIT4, [usize::MAX, 8, 0x1_0000_0002, 0, 0, 0]),
        Some(Syscall::Wait4 { pid: -1, status: 8, options: 2 })
    );
    assert_eq!(
        syscall(SYS_OPENAT, [7, 8, 0x102, 0x203, 0, 0]),
        Some(Syscall::OpenAt { fd: 7, path: 8, open_flags: 2, mode: 3 })
    );
    assert_eq!(syscall(SYS_CLOSE, a), Some(Syscall::Close { fd: 1 }));
    assert_eq!(syscall(0, a), None);
    assert_eq!(syscall(9999, a), None);
}

#[test]
fn directory_descriptors() {
    let d = DirDesc::new("/tmp".to_string());
    assert_eq!(d.dir_path, "/tmp");
    assert!(!d.readable());
    assert!(!d.writable());
    assert_eq!(d.get_path(), "/tmp");
    assert_eq!(d.get_type(), FileIOType::DirDesc);
}

#[test]
fn paging_sizes() {
    assert_eq!(X64PagingMetaData::levels(), 3);
    assert_eq!(X64PagingMetaData::pa_max_bits(), 52);
    assert_eq!(X64PagingMetaData::va_max_bits(), 48);
}

#[test]
fn file_objects_answer_for_their_kind() {
    let f = FileObject::File(FileDesc::new("/a".to_string(), true, false));
    assert!(f.readable());
    assert!(!f.writable());
    assert_eq!(f.get_type(), FileIOType::FileDesc);
    assert_eq!(f.get_path(), Some("/a".to_string()));
    let d = FileObject::Dir(DirDesc::new("/d".to_string()));
    assert!(!d.readable() && !d.writable());
    assert_eq!(d.get_type(), FileIOType::DirDesc);
    assert_eq!(d.get_path(), Some("/d".to_string()));
    assert!(FileObject::Stdin.readable() && !FileObject::Stdin.writable());
    assert!(!FileObject::Stdout.readable() && FileObject::Stdout.writable());
    assert!(!FileObject::Stderr.readable() && FileObject::Stderr.writable());
    assert_eq!(FileObject::Stdin.get_type(), FileIOType::Stdin);
    assert_eq!(FileObject::Stdout.get_type(), FileIOType::Stdout);
    assert_eq!(FileObject::Stderr.get_type(), FileIOType::Stderr);
    assert_eq!(FileObject::Stdout.get_path(), None);
    assert!(FileObject::Pipe(true).readable() && !FileObject::Pipe(true).writable());
    assert!(!FileObject::Pipe(false).readable() && FileObject::Pipe(false).writable());
    assert_eq!(FileObject::Pipe(false).get_type(), FileIOType::Pipe);
}
