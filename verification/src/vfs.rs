//! The attributes and directory entries that file-system nodes are
//! described with.

use vstd::prelude::*;
use vstd::array::array_as_slice;
use vstd::slice::slice_subrange;
use vstd::string::StringSliceAdditionalSpecFns;

verus! {

/// What a file system tells of itself as a whole.
pub struct FileSystemInfo;

/// Owner has read permission.
pub const OWNER_READ: u16 = 0o400;

/// Owner has write permission.
pub const OWNER_WRITE: u16 = 0o200;

/// Owner has execute permission.
pub const OWNER_EXEC: u16 = 0o100;

/// Group has read permission.
pub const GROUP_READ: u16 = 0o40;

/// Group has write permission.
pub const GROUP_WRITE: u16 = 0o20;

/// Group has execute permission.
pub const GROUP_EXEC: u16 = 0o10;

/// Others have read permission.
pub const OTHER_READ: u16 = 0o4;

/// Others have write permission.
pub const OTHER_WRITE: u16 = 0o2;

/// Others have execute permission.
pub const OTHER_EXEC: u16 = 0o1;

/// The permission mode of a node: nine bits, `rwx` for owner, group and
/// others.
#[derive(Clone, Copy, Debug, PartialEq, Eq, Structural)]
pub struct VfsNodePerm {
    /// The permission bits; none is set above the ninth.
    pub bits: u16,
}

impl VfsNodePerm {
    /// The mode whose bits are the nine low bits of `bits`.
    pub fn from_bits_truncate(bits: u16) -> (r: Self)
        ensures
            r.bits == bits & 0o777,
    {
        VfsNodePerm { bits: bits & 0o777 }
    }

    /// The permission bits.
    pub fn bits(&self) -> (r: u16)
        ensures
            r == self.bits,
    {
        self.bits
    }

    /// Whether every bit of `other` is set in `self`.
    pub fn contains(&self, other: u16) -> (r: bool)
        ensures
            r == (self.bits & other == other),
    {
        self.bits & other == other
    }

    /// The mode that a new file gets: read and write for everyone.
    pub fn default_file() -> (r: Self)
        ensures
            r.bits == 0o666,
    {
        VfsNodePerm { bits: 0o666 }
    }

    /// The mode that a new directory gets: everything for the owner, read
    /// and execute for the others.
    pub fn default_dir() -> (r: Self)
        ensures
            r.bits == 0o755,
    {
        VfsNodePerm { bits: 0o755 }
    }
}

/// The type of a node.
#[derive(Clone, Copy, Debug, PartialEq, Eq, Structural)]
pub enum VfsNodeType {
    /// FIFO (named pipe)
    Fifo,
    /// Character device
    CharDevice,
    /// Directory
    Dir,
    /// Block device
    BlockDevice,
    /// Regular file
    File,
    /// Symbolic link
    SymLink,
    /// Socket
    Socket,
}

impl VfsNodeType {
    /// Whether the node is a regular file.
    pub fn is_file(self) -> (r: bool)
        ensures
            r == (self == VfsNodeType::File),
    {
        matches!(self, VfsNodeType::File)
    }

    /// Whether the node is a directory.
    pub fn is_dir(self) -> (r: bool)
        ensures
            r == (self == VfsNodeType::Dir),
    {
        matches!(self, VfsNodeType::Dir)
    }

    /// The number that stands for the type in a directory record.
    pub open spec fn spec_code(self) -> u8 {
        match self {
            VfsNodeType::Fifo => 0o1,
            VfsNodeType::CharDevice => 0o2,
            VfsNodeType::Dir => 0o4,
            VfsNodeType::BlockDevice => 0o6,
            VfsNodeType::File => 0o10,
            VfsNodeType::SymLink => 0o12,
            VfsNodeType::Socket => 0o14,
        }
    }

    /// The number that stands for the type in a directory record.
    pub fn code(self) -> (r: u8)
        ensures
            r == self.spec_code(),
    {
        match self {
            VfsNodeType::Fifo => 0o1,
            VfsNodeType::CharDevice => 0o2,
            VfsNodeType::Dir => 0o4,
            VfsNodeType::BlockDevice => 0o6,
            VfsNodeType::File => 0o10,
            VfsNodeType::SymLink => 0o12,
            VfsNodeType::Socket => 0o14,
        }
    }
}

/// The attributes of a node.
#[derive(Clone, Copy, Debug)]
pub struct VfsNodeAttr {
    /// File permission mode.
    pub mode: VfsNodePerm,
    /// File type.
    pub ty: VfsNodeType,
    /// Total size, in bytes.
    pub size: u64,
    /// Number of 512B blocks allocated.
    pub blocks: u64,
}

impl VfsNodeAttr {
    /// The attributes made of the four values.
    pub fn new(mode: VfsNodePerm, ty: VfsNodeType, size: u64, blocks: u64) -> (r: Self)
        ensures
            r.mode == mode,
            r.ty == ty,
            r.size == size,
            r.blocks == blocks,
    {
        Self { mode, ty, size, blocks }
    }

    /// The attributes of a regular file with the default mode.
    pub fn new_file(size: u64, blocks: u64) -> (r: Self)
        ensures
            r.mode.bits == 0o666,
            r.ty == VfsNodeType::File,
            r.size == size,
            r.blocks == blocks,
    {
        Self { mode: VfsNodePerm::default_file(), ty: VfsNodeType::File, size, blocks }
    }

    /// The attributes of a directory with the default mode.
    pub fn new_dir(size: u64, blocks: u64) -> (r: Self)
        ensures
            r.mode.bits == 0o755,
            r.ty == VfsNodeType::Dir,
            r.size == size,
            r.blocks == blocks,
    {
        Self { mode: VfsNodePerm::default_dir(), ty: VfsNodeType::Dir, size, blocks }
    }

    /// The size of the node in bytes.
    pub fn size(&self) -> (r: u64)
        ensures
            r == self.size,
    {
        self.size
    }

    /// The type of the node.
    pub fn file_type(&self) -> (r: VfsNodeType)
        ensures
            r == self.ty,
    {
        self.ty
    }

    /// Whether the node is a regular file.
    pub fn is_file(&self) -> (r: bool)
        ensures
            r == (self.ty == VfsNodeType::File),
    {
        self.ty.is_file()
    }

    /// Whether the node is a directory.
    pub fn is_dir(&self) -> (r: bool)
        ensures
            r == (self.ty == VfsNodeType::Dir),
    {
        self.ty.is_dir()
    }
}

/// The length of the name that the bytes of `s` hold: the index of the
/// first zero byte, or the length of `s` where there is none.
pub open spec fn is_name_len(s: Seq<u8>, n: int) -> bool {
    &&& 0 <= n <= s.len()
    &&& n == s.len() || s[n] == 0
    &&& forall|i: int| 0 <= i < n ==> #[trigger] s[i] != 0
}

/// `name` followed by as many zero bytes as make `len` bytes in all.
pub open spec fn zero_padded(name: Seq<u8>, len: nat) -> Seq<u8> {
    Seq::new(
        len,
        |i: int|
            if i < name.len() {
                name[i]
            } else {
                0u8
            },
    )
}

/// An entry of a directory: a type and a name of at most 63 bytes.
pub struct VfsDirEntry {
    /// The type of the node that the entry names.
    pub d_type: VfsNodeType,
    /// The name, followed by zero bytes.
    pub d_name: [u8; 63],
}

impl VfsDirEntry {
    /// An entry of a regular file with the empty name.
    pub fn default() -> (r: Self)
        ensures
            r.d_type == VfsNodeType::File,
            r.d_name@ == zero_padded(Seq::<u8>::empty(), 63),
    {
        let r = Self { d_type: VfsNodeType::File, d_name: [0u8;63] };
        assert(r.d_name@ =~= zero_padded(Seq::<u8>::empty(), 63));
        r
    }

    /// The entry of type `ty` whose name is `name`, which has at most 63
    /// bytes.
    pub fn new(name: &str, ty: VfsNodeType) -> (r: Self)
        requires
            name.spec_bytes().len() <= 63,
        ensures
            r.d_type == ty,
            r.d_name@ == zero_padded(name.spec_bytes(), 63),
    {
        let mut d_name = [0u8;63];
        let bytes = name.as_bytes();
        let n = bytes.len();
        let mut i: usize = 0;
        while i < n
            invariant
                i <= n,
                n == bytes@.len(),
                n <= 63,
                forall|k: int|
                    0 <= k < 63 ==> #[trigger] d_name@[k] == (if k < i {
                        bytes@[k]
                    } else {
                        0u8
                    }),
            decreases n - i,
        {
            d_name[i] = bytes[i];
            i += 1;
        }
        assert(d_name@ =~= zero_padded(name.spec_bytes(), 63));
        Self { d_type: ty, d_name }
    }

    /// The type of the node that the entry names.
    pub fn entry_type(&self) -> (r: VfsNodeType)
        ensures
            r == self.d_type,
    {
        self.d_type
    }

    /// The name: the bytes before the first zero byte, or all 63.
    pub fn name_as_bytes(&self) -> (r: &[u8])
        ensures
            is_name_len(self.d_name@, r@.len() as int),
            r@ == self.d_name@.subrange(0, r@.len() as int),
    {
        let mut len: usize = 0;
        while len < 63 && self.d_name[len] != 0
            invariant
                len <= 63,
                forall|i: int| 0 <= i < len ==> #[trigger] self.d_name@[i] != 0,
            decreases 63 - len,
        {
            len += 1;
        }
        slice_subrange(array_as_slice(&self.d_name), 0, len)
    }
}

/// The sizes of the x86-64 page table: the number of levels and the widths
/// of physical and virtual addresses.
pub struct X64PagingMetaData;

impl X64PagingMetaData {
    /// The number of levels of the table.
    pub fn levels() -> (r: usize)
        ensures
            r == 3,
    {
        3
    }

    /// The width of a physical address, in bits.
    pub fn pa_max_bits() -> (r: usize)
        ensures
            r == 52,
    {
        52
    }

    /// The width of a virtual address, in bits.
    pub fn va_max_bits() -> (r: usize)
        ensures
            r == 48,
    {
        48
    }
}

} // verus!
