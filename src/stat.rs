//! What the engine reads of a file's status and of a directory entry.
use vstd::prelude::*;

verus! {

/// Mask of the file-type bits of `st_mode`.
pub const S_IFMT: u32 = 0o170000;

/// File type of a directory.
pub const S_IFDIR: u32 = 0o040000;

/// File type of a regular file.
pub const S_IFREG: u32 = 0o100000;

/// File type of a symbolic link.
pub const S_IFLNK: u32 = 0o120000;

/// Directory-entry type of a directory.
pub const DT_DIR: u8 = 4;

/// Directory-entry type when the file system does not report one.
pub const DT_UNKNOWN: u8 = 0;

/// The identity and mode of a file, as a status call reports them.
#[derive(Clone, Copy, PartialEq, Eq, Structural, Debug)]
pub struct Stat {
    pub dev: u64,
    pub ino: u64,
    pub mode: u32,
}

/// `a` and `b` name the same object: same device and inode.
pub open spec fn same_object(a: Stat, b: Stat) -> bool {
    a.dev == b.dev && a.ino == b.ino
}

/// The file-type bits of a mode.
pub open spec fn file_type(mode: u32) -> u32 {
    mode & S_IFMT
}

impl Stat {
    /// Whether `self` and `o` name the same object.
    pub fn same_object(&self, o: &Stat) -> (r: bool)
        ensures
            r == same_object(*self, *o),
    {
        self.dev == o.dev && self.ino == o.ino
    }

    /// Whether the mode's file type is `kind` (one of the `S_IF*` values).
    pub fn is_type(&self, kind: u32) -> (r: bool)
        ensures
            r == (file_type(self.mode) == kind),
    {
        (self.mode & S_IFMT) == kind
    }

    /// Whether this is a directory.
    pub fn is_dir(&self) -> (r: bool)
        ensures
            r == (file_type(self.mode) == S_IFDIR),
    {
        self.is_type(S_IFDIR)
    }

    /// Whether this is a regular file.
    pub fn is_reg(&self) -> (r: bool)
        ensures
            r == (file_type(self.mode) == S_IFREG),
    {
        self.is_type(S_IFREG)
    }

    /// Whether this is a symbolic link.
    pub fn is_lnk(&self) -> (r: bool)
        ensures
            r == (file_type(self.mode) == S_IFLNK),
    {
        self.is_type(S_IFLNK)
    }
}

/// Whether two status records describe the same file: same device, inode
/// and mode.
pub fn same_file_by_stat(a: &Stat, b: &Stat) -> (r: bool)
    ensures
        r == (a.dev == b.dev && a.ino == b.ino && a.mode == b.mode),
{
    a.dev == b.dev && a.ino == b.ino && a.mode == b.mode
}

/// One entry of a directory stream.
#[derive(Clone, Debug)]
pub struct DirEntry {
    pub d_name: Vec<u8>,
    pub d_ino: u64,
    pub d_off: i64,
    pub d_type: u8,
}

/// What the engine reads of a directory entry.
pub struct EntryView {
    pub name: Seq<u8>,
    pub ino: u64,
    pub kind: u8,
}

impl View for DirEntry {
    type V = EntryView;

    open spec fn view(&self) -> EntryView {
        EntryView { name: self.d_name@, ino: self.d_ino, kind: self.d_type }
    }
}

impl DirEntry {
    /// The entry's name, as raw bytes.
    pub fn name(&self) -> (r: &[u8])
        ensures
            r@ == self.d_name@,
    {
        self.d_name.as_slice()
    }
}

} // verus!
