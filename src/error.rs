//! Errors of the resolution engine.
use vstd::prelude::*;

verus! {

/// The system call a file-system error came from.
#[derive(Clone, Copy, PartialEq, Eq, Structural, Debug)]
pub enum Op {
    Open,
    Openat,
    Mkdirat,
    Symlinkat,
    Fcntl,
    Stat,
    Fstatat,
    Fstat,
    Readlinkat,
    Fdopendir,
    Readdir,
}

impl Op {
    /// The name of the system call.
    pub fn name(&self) -> (r: &'static str)
        ensures
            r@ == op_name(*self),
    {
        match self {
            Op::Open => "open",
            Op::Openat => "openat",
            Op::Mkdirat => "mkdirat",
            Op::Symlinkat => "symlinkat",
            Op::Fcntl => "fcntl",
            Op::Stat => "stat",
            Op::Fstatat => "fstatat",
            Op::Fstat => "fstat",
            Op::Readlinkat => "readlinkat",
            Op::Fdopendir => "fdopendir",
            Op::Readdir => "readdir",
        }
    }
}

/// The name of a system call.
pub open spec fn op_name(op: Op) -> Seq<char> {
    match op {
        Op::Open => "open"@,
        Op::Openat => "openat"@,
        Op::Mkdirat => "mkdirat"@,
        Op::Symlinkat => "symlinkat"@,
        Op::Fcntl => "fcntl"@,
        Op::Stat => "stat"@,
        Op::Fstatat => "fstatat"@,
        Op::Fstat => "fstat"@,
        Op::Readlinkat => "readlinkat"@,
        Op::Fdopendir => "fdopendir"@,
        Op::Readdir => "readdir"@,
    }
}

/// Why a query failed.
#[derive(Debug)]
pub enum Error {
    /// The system call `op` on `path` failed with the OS error number
    /// `errno`. The path is empty where the call takes none.
    Io { errno: i32, op: Op, path: Vec<u8> },
    /// `chdir` was given a path that does not start at the root.
    NotAbsolute(Vec<u8>),
    /// The symbolic-link budget ran out while resolving this path.
    TooManyLoops(Vec<u8>),
    /// `full_path` found no entry of a parent directory for the directory
    /// below it.
    NoEntryFound,
}

/// The mathematical value of an `Error`.
pub enum Fault {
    Io { errno: i32, op: Op, path: Seq<u8> },
    NotAbsolute(Seq<u8>),
    TooManyLoops(Seq<u8>),
    NoEntryFound,
}

impl View for Error {
    type V = Fault;

    open spec fn view(&self) -> Fault {
        match self {
            Error::Io { errno, op, path } => Fault::Io { errno: *errno, op: *op, path: path@ },
            Error::NotAbsolute(p) => Fault::NotAbsolute(p@),
            Error::TooManyLoops(p) => Fault::TooManyLoops(p@),
            Error::NoEntryFound => Fault::NoEntryFound,
        }
    }
}

impl Error {
    /// A short description of the error.
    pub fn message(&self) -> (r: String)
        ensures
            r@ == match self@ {
                Fault::Io { .. } => "file-system operation failed"@,
                Fault::NotAbsolute(_) => "path not absolute"@,
                Fault::TooManyLoops(_) => "too many loops while resolving symbolic link"@,
                Fault::NoEntryFound => "full_path(): no entry found"@,
            },
    {
        match self {
            Error::Io { .. } => String::from_str("file-system operation failed"),
            Error::NotAbsolute(_) => String::from_str("path not absolute"),
            Error::TooManyLoops(_) => String::from_str(
                "too many loops while resolving symbolic link",
            ),
            Error::NoEntryFound => String::from_str("full_path(): no entry found"),
        }
    }
}

} // verus!
