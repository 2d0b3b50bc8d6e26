//! The userspace chroot: a root directory on the host, below which every
//! path is resolved.
//!
//! Every query starts a walk whose steps a driver carries out with
//! directory-relative, link-aware file-system calls. Absolute paths and
//! symbolic-link targets that start with `/` begin again at the root, and
//! `..` at the root stays there.
use vstd::prelude::*;
use crate::error::{Error, Fault};
use crate::full_path::{FinderState, PathFinder, Wait};
use crate::path::has_root;
use crate::walk::{inv, start, Goal, Walker, MAX_LOOP};

verus! {

/// A userspace chroot environment.
pub struct Chroot {
    root: Vec<u8>,
}

impl Chroot {
    /// The root directory, as a host path.
    pub closed spec fn root_path(&self) -> Seq<u8> {
        self.root@
    }

    /// The chroot at `root`. Nothing is checked here: the first query
    /// reports a root that cannot be opened.
    pub fn new(root: &[u8]) -> (r: Chroot)
        ensures
            r.root_path() == root@,
    {
        Chroot { root: vstd::slice::slice_to_vec(root) }
    }

    /// The root directory, as a host path.
    pub fn root(&self) -> (r: &[u8])
        ensures
            r@ == self.root_path(),
    {
        self.root.as_slice()
    }

    /// The walk that opens the directory `path` denotes inside the chroot.
    /// `path` must be absolute.
    pub fn chdir_walk(&self, path: &[u8]) -> (r: Result<Walker, Error>)
        ensures
            match r {
                Ok(w) => has_root(path@) && w@ == start(Goal::Dir, path@, None, MAX_LOOP as nat)
                    && inv(w@),
                Err(e) => !has_root(path@) && e@ == Fault::NotAbsolute(path@),
            },
    {
        if path.len() > 0 && path[0] == crate::path::SLASH {
            Ok(Walker::new(Goal::Dir, path))
        } else {
            Err(Error::NotAbsolute(vstd::slice::slice_to_vec(path)))
        }
    }

    /// The walk that opens the directory `path` denotes, relative to a base
    /// directory inside the chroot.
    pub fn chdirat_walk(&self, path: &[u8]) -> (r: Walker)
        ensures
            r@ == start(Goal::Dir, path@, None, MAX_LOOP as nat),
            inv(r@),
    {
        Walker::new(Goal::Dir, path)
    }

    /// The walk that opens the file `path` denotes, relative to a base
    /// directory inside the chroot; `open` is this walk from the root.
    pub fn openat_walk(&self, path: &[u8]) -> (r: Walker)
        ensures
            r@ == start(Goal::File, path@, None, MAX_LOOP as nat),
            inv(r@),
    {
        Walker::new(Goal::File, path)
    }

    /// The walk that finds the directory holding the last component of
    /// `path`, and that component's name; the type tests and `fstatat` look
    /// at that name.
    pub fn lookup_walk(&self, path: &[u8]) -> (r: Walker)
        ensures
            r@ == start(Goal::Parent, path@, None, MAX_LOOP as nat),
            inv(r@),
    {
        Walker::new(Goal::Parent, path)
    }

    /// The search for the path of a directory inside the chroot, with
    /// `fname` appended when given.
    pub fn full_path_finder(&self, fname: Option<&[u8]>) -> (r: PathFinder)
        ensures
            r@ == (FinderState {
                names: Seq::empty(),
                fname: match fname {
                    None => None,
                    Some(f) => Some(f@),
                },
                root: None,
                target: None,
                candidate: Seq::empty(),
                pending: Wait::Start,
            }),
    {
        PathFinder::new(fname)
    }
}

} // verus!
