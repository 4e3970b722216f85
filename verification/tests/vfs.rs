use axcore::vfs::{VfsDirEntry, VfsNodeAttr, VfsNodePerm, VfsNodeType};

#[test]
fn default_modes() {
    assert_eq!(VfsNodePerm::default_file().bits(), 0o666);
    assert_eq!(VfsNodePerm::default_dir().bits(), 0o755);
    assert_eq!(VfsNodePerm::from_bits_truncate(0o7777).bits(), 0o777);
}

#[test]
fn node_types() {
    assert!(VfsNodeType::File.is_file());
    assert!(!VfsNodeType::File.is_dir());
    assert!(VfsNodeType::Dir.is_dir());
    assert!(!VfsNodeType::Socket.is_file());
    assert_eq!(VfsNodeType::SymLink.code(), 0o12);
}

#[test]
fn node_attributes() {
    let f = VfsNodeAttr::new_file(10, 1);
    assert!(f.is_file());
    assert!(!f.is_dir());
    assert_eq!(f.size(), 10);
    assert_eq!(f.file_type(), VfsNodeType::File);
    let d = VfsNodeAttr::new_dir(0, 0);
    assert!(d.is_dir());
    let n = VfsNodeAttr::new(VfsNodePerm::default_dir(), VfsNodeType::Fifo, 3, 4);
    assert_eq!(n.file_type(), VfsNodeType::Fifo);
    assert_eq!(n.size(), 3);
}

#[test]
fn directory_entry_names() {
    let e = VfsDirEntry::new("hello", VfsNodeType::Dir);
    assert_eq!(e.entry_type(), VfsNodeType::Dir);
    assert_eq!(e.name_as_bytes(), b"hello");
    let d = VfsDirEntry::default();
    assert_eq!(d.entry_type(), VfsNodeType::File);
    assert_eq!(d.name_as_bytes(), b"");
    let long = "a".repeat(63);
    let l = VfsDirEntry::new(&long, VfsNodeType::File);
    assert_eq!(l.name_as_bytes().len(), 63);
}
