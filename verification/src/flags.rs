//! Permission and option sets that the memory and process operations take.

use vstd::prelude::*;

verus! {

/// The access rights of a mapping.
#[derive(Clone, Copy, Debug, PartialEq, Eq, Structural)]
pub struct MappingFlags {
    /// The memory is readable.
    pub read: bool,
    /// The memory is writable.
    pub write: bool,
    /// The memory is executable.
    pub execute: bool,
    /// The memory is accessible from user mode.
    pub user: bool,
    /// The memory is device memory.
    pub device: bool,
}

impl MappingFlags {
    /// The set with no right in it.
    pub fn empty() -> (r: Self)
        ensures
            r == (MappingFlags {
                read: false,
                write: false,
                execute: false,
                user: false,
                device: false,
            }),
    {
        MappingFlags { read: false, write: false, execute: false, user: false, device: false }
    }

    /// The rights of a user data region: read, write and user access.
    pub fn user_data() -> (r: Self)
        ensures
            r == Self::spec_user_data(),
    {
        MappingFlags { read: true, write: true, execute: false, user: true, device: false }
    }

    /// The value that `user_data` returns.
    pub open spec fn spec_user_data() -> Self {
        MappingFlags { read: true, write: true, execute: false, user: true, device: false }
    }

    /// Every right that is in `self` or in `other`.
    pub open spec fn spec_union(self, other: Self) -> Self {
        MappingFlags {
            read: self.read || other.read,
            write: self.write || other.write,
            execute: self.execute || other.execute,
            user: self.user || other.user,
            device: self.device || other.device,
        }
    }

    /// Every right that is in `self` or in `other`.
    pub fn union(self, other: Self) -> (r: Self)
        ensures
            r == self.spec_union(other),
    {
        MappingFlags {
            read: self.read || other.read,
            write: self.write || other.write,
            execute: self.execute || other.execute,
            user: self.user || other.user,
            device: self.device || other.device,
        }
    }

    /// Whether every right of `other` is in `self`.
    pub open spec fn spec_contains(self, other: Self) -> bool {
        &&& other.read ==> self.read
        &&& other.write ==> self.write
        &&& other.execute ==> self.execute
        &&& other.user ==> self.user
        &&& other.device ==> self.device
    }

    /// Whether every right of `other` is in `self`.
    pub fn contains(self, other: Self) -> (r: bool)
        ensures
            r == self.spec_contains(other),
    {
        (!other.read || self.read) && (!other.write || self.write) && (!other.execute
            || self.execute) && (!other.user || self.user) && (!other.device || self.device)
    }
}

/// The caller and the new task share one address space.
pub const CLONE_VM: u32 = 0x100;

/// The new task has the caller's parent as its parent.
pub const CLONE_PARENT: u32 = 0x8000;

/// The new task is a thread of the caller's process.
pub const CLONE_THREAD: u32 = 0x10000;

/// The new task's thread pointer is set from the `tls` argument.
pub const CLONE_SETTLS: u32 = 0x80000;

/// The options of a `clone` call, as a set of bits.
#[derive(Clone, Copy, Debug, PartialEq, Eq, Structural)]
pub struct CloneFlags {
    /// The option bits.
    pub bits: u32,
}

impl CloneFlags {
    /// The set whose bits are `bits`.
    pub fn from_bits(bits: u32) -> (r: Self)
        ensures
            r.bits == bits,
    {
        CloneFlags { bits }
    }

    /// Whether every bit of `flag` is set.
    pub open spec fn spec_contains(self, flag: u32) -> bool {
        self.bits & flag == flag
    }

    /// Whether every bit of `flag` is set.
    pub fn contains(&self, flag: u32) -> (r: bool)
        ensures
            r == self.spec_contains(flag),
    {
        self.bits & flag == flag
    }
}

/// What a parent learns of a child it looks for without reaping one.
#[derive(Clone, Copy, Debug, PartialEq, Eq, Structural)]
pub enum WaitStatus {
    /// The child has exited.
    Exited,
    /// The child exists and has not exited.
    Running,
    /// No child matches.
    NotExist,
}

} // verus!
