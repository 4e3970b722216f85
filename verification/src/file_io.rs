//! The kinds of open files and their descriptors.

use vstd::prelude::*;

verus! {

/// The kind of an open file.
#[derive(Clone, Copy, Debug, PartialEq, Eq, Structural)]
pub enum FileIOType {
    /// A regular file.
    FileDesc,
    /// A directory.
    DirDesc,
    /// The standard input.
    Stdin,
    /// The standard output.
    Stdout,
    /// The standard error output.
    Stderr,
    /// One end of a pipe.
    Pipe,
    /// A link.
    Link,
    /// Anything else.
    Other,
}

/// The descriptor of an open directory.
pub struct DirDesc {
    /// The directory's path.
    pub dir_path: String,
}

impl DirDesc {
    /// The descriptor of the directory at `path`.
    pub fn new(path: String) -> (r: Self)
        ensures
            r.dir_path@ == path@,
    {
        Self { dir_path: path }
    }

    /// A directory cannot be read as a file.
    pub fn readable(&self) -> (r: bool)
        ensures
            !r,
    {
        false
    }

    /// A directory cannot be written as a file.
    pub fn writable(&self) -> (r: bool)
        ensures
            !r,
    {
        false
    }

    /// The directory's path.
    pub fn get_path(&self) -> (r: String)
        ensures
            r@ == self.dir_path@,
    {
        self.dir_path.clone()
    }

    /// The kind of the descriptor.
    pub fn get_type(&self) -> (r: FileIOType)
        ensures
            r == FileIOType::DirDesc,
    {
        FileIOType::DirDesc
    }
}

/// The descriptor of an open regular file.
pub struct FileDesc {
    /// The file's path.
    pub path: String,
    /// Whether the file was opened for reading.
    pub can_read: bool,
    /// Whether the file was opened for writing.
    pub can_write: bool,
}

impl FileDesc {
    /// The descriptor of the file at `path`, opened for what the two
    /// flags say.
    pub fn new(path: String, can_read: bool, can_write: bool) -> (r: Self)
        ensures
            r.path@ == path@,
            r.can_read == can_read,
            r.can_write == can_write,
    {
        Self { path, can_read, can_write }
    }
}

/// What a descriptor can name.
pub enum FileObject {
    /// A regular file.
    File(FileDesc),
    /// A directory.
    Dir(DirDesc),
    /// The standard input.
    Stdin,
    /// The standard output.
    Stdout,
    /// The standard error output.
    Stderr,
    /// One end of a pipe: the end that is read where the flag holds, the
    /// end that is written else.
    Pipe(bool),
}

impl FileObject {
    /// Whether the object can be read: a file that was opened for reading,
    /// the standard input, the read end of a pipe.
    pub open spec fn spec_readable(&self) -> bool {
        match self {
            FileObject::File(f) => f.can_read,
            FileObject::Dir(_) => false,
            FileObject::Stdin => true,
            FileObject::Stdout => false,
            FileObject::Stderr => false,
            FileObject::Pipe(read_end) => *read_end,
        }
    }

    /// Whether the object can be written: a file that was opened for
    /// writing, the standard output and error output, the write end of a
    /// pipe.
    pub open spec fn spec_writable(&self) -> bool {
        match self {
            FileObject::File(f) => f.can_write,
            FileObject::Dir(_) => false,
            FileObject::Stdin => false,
            FileObject::Stdout => true,
            FileObject::Stderr => true,
            FileObject::Pipe(read_end) => !*read_end,
        }
    }

    /// The kind of the object.
    pub open spec fn spec_get_type(&self) -> FileIOType {
        match self {
            FileObject::File(_) => FileIOType::FileDesc,
            FileObject::Dir(_) => FileIOType::DirDesc,
            FileObject::Stdin => FileIOType::Stdin,
            FileObject::Stdout => FileIOType::Stdout,
            FileObject::Stderr => FileIOType::Stderr,
            FileObject::Pipe(_) => FileIOType::Pipe,
        }
    }

    /// Whether the object can be read.
    pub fn readable(&self) -> (r: bool)
        ensures
            r == self.spec_readable(),
    {
        match self {
            FileObject::File(f) => f.can_read,
            FileObject::Dir(d) => d.readable(),
            FileObject::Stdin => true,
            FileObject::Stdout => false,
            FileObject::Stderr => false,
            FileObject::Pipe(read_end) => *read_end,
        }
    }

    /// Whether the object can be written.
    pub fn writable(&self) -> (r: bool)
        ensures
            r == self.spec_writable(),
    {
        match self {
            FileObject::File(f) => f.can_write,
            FileObject::Dir(d) => d.writable(),
            FileObject::Stdin => false,
            FileObject::Stdout => true,
            FileObject::Stderr => true,
            FileObject::Pipe(read_end) => !*read_end,
        }
    }

    /// The kind of the object.
    pub fn get_type(&self) -> (r: FileIOType)
        ensures
            r == self.spec_get_type(),
    {
        match self {
            FileObject::File(_) => FileIOType::FileDesc,
            FileObject::Dir(_) => FileIOType::DirDesc,
            FileObject::Stdin => FileIOType::Stdin,
            FileObject::Stdout => FileIOType::Stdout,
            FileObject::Stderr => FileIOType::Stderr,
            FileObject::Pipe(_) => FileIOType::Pipe,
        }
    }

    /// The path of a file or a directory; `None` for what has no path.
    pub fn get_path(&self) -> (r: Option<String>)
        ensures
            match self {
                FileObject::File(f) => r.is_some() && r.unwrap()@ == f.path@,
                FileObject::Dir(d) => r.is_some() && r.unwrap()@ == d.dir_path@,
                _ => r.is_none(),
            },
    {
        match self {
            FileObject::File(f) => Some(f.path.clone()),
            FileObject::Dir(d) => Some(d.get_path()),
            _ => None,
        }
    }
}

} // verus!
