//! The decisions of a directory stream: which entries reach the caller, and
//! how a failed read is reported.
use vstd::prelude::*;
use crate::error::{Error, Fault, Op};
use crate::path::DOT;
use crate::stat::DirEntry;

verus! {

/// The outcome of one low-level read of a directory stream.
#[derive(Debug)]
pub enum RawRead {
    /// The stream produced this entry.
    Entry(DirEntry),
    /// The stream is exhausted.
    End,
    /// The read failed with this OS error number.
    Failed(i32),
}

/// What the stream hands its caller for one low-level read.
#[derive(Debug)]
pub enum Verdict {
    /// Hand this entry out.
    Yield(DirEntry),
    /// Nothing to hand out: read again.
    Skip,
    /// The stream has ended.
    End,
    /// Report this error.
    Fail(Error),
}

/// The entries `.` and `..`, which a stream never hands out.
pub open spec fn is_dot_entry(n: Seq<u8>) -> bool {
    n == seq![DOT] || n == seq![DOT, DOT]
}

/// Iteration state of a directory stream.
pub struct ReadDir {
    /// A read failed: the stream has ended.
    pub failed: bool,
}

impl ReadDir {
    /// A stream that has not failed.
    pub fn new() -> (r: ReadDir)
        ensures
            !r.failed,
    {
        ReadDir { failed: false }
    }

    /// Decides what one low-level read yields. An error is reported once;
    /// after it the stream has ended, whatever a later read finds.
    pub fn on_read(&mut self, raw: RawRead) -> (r: Verdict)
        ensures
            old(self).failed ==> r is End && final(self).failed,
            !old(self).failed ==> match raw {
                RawRead::Failed(e) => r matches Verdict::Fail(err) && err@ == (Fault::Io {
                    errno: e,
                    op: Op::Readdir,
                    path: Seq::empty(),
                }) && final(self).failed,
                RawRead::End => r is End && !final(self).failed,
                RawRead::Entry(ent) => !final(self).failed && if is_dot_entry(ent.d_name@) {
                    r is Skip
                } else {
                    r == Verdict::Yield(ent)
                },
            },
    {
        if self.failed {
            return Verdict::End;
        }
        match raw {
            RawRead::Failed(e) => {
                self.failed = true;
                let path: Vec<u8> = Vec::new();
                assert(path@ =~= Seq::<u8>::empty());
                Verdict::Fail(Error::Io { errno: e, op: Op::Readdir, path })
            },
            RawRead::End => Verdict::End,
            RawRead::Entry(ent) => {
                let n = ent.d_name.len();
                let dot = (n == 1 && ent.d_name[0] == DOT) || (n == 2 && ent.d_name[0] == DOT
                    && ent.d_name[1] == DOT);
                proof {
                    if n == 1 && ent.d_name@[0] == DOT {
                        assert(ent.d_name@ =~= seq![DOT]);
                    }
                    if n == 2 && ent.d_name@[0] == DOT && ent.d_name@[1] == DOT {
                        assert(ent.d_name@ =~= seq![DOT, DOT]);
                    }
                    if ent.d_name@ == seq![DOT] {
                        assert(ent.d_name@.len() == 1);
                    }
                    if ent.d_name@ == seq![DOT, DOT] {
                        assert(ent.d_name@.len() == 2);
                    }
                }
                if dot {
                    Verdict::Skip
                } else {
                    Verdict::Yield(ent)
                }
            },
        }
    }
}

} // verus!
