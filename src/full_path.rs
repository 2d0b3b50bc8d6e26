//! Recovering the path of a directory below the chroot root.
//!
//! Starting at a directory, the finder climbs to the root one level at a
//! time. At each level it looks in the parent for the entry that names the
//! directory it came from: the entry's inode must match, its type must be a
//! directory or unknown, and a status call on it must confirm a directory
//! with the same device and inode.
use vstd::prelude::*;
use crate::error::{Error, Fault};
use crate::path::{is_plain_name, SLASH, DOT};
use crate::stat::{file_type, same_object, DirEntry, EntryView, Stat, DT_DIR, DT_UNKNOWN, S_IFDIR};

verus! {

/// An entry of a parent directory that may name the directory `target`.
pub open spec fn entry_may_match(e: EntryView, target: Stat) -> bool {
    &&& e.ino == target.ino
    &&& (e.kind == DT_DIR || e.kind == DT_UNKNOWN)
    &&& is_plain_name(e.name)
}

/// A status that confirms an entry names the directory `target`.
pub open spec fn stat_confirms(s: Stat, target: Stat) -> bool {
    &&& file_type(s.mode) == S_IFDIR
    &&& s.ino == target.ino
    &&& s.dev == target.dev
}

/// `/`-prefixed names, the last of `up` first: `up` lists the names from
/// the directory upward.
pub open spec fn joined_up(up: Seq<Seq<u8>>) -> Seq<u8>
    decreases up.len(),
{
    if up.len() == 0 {
        Seq::empty()
    } else {
        joined_up(up.subrange(1, up.len() as int)) + seq![SLASH] + up[0]
    }
}

/// The path of the directory whose names, from it upward, are `up`, with
/// `fname` appended when given. The root alone is `/`.
pub open spec fn full_path_bytes(up: Seq<Seq<u8>>, fname: Option<Seq<u8>>) -> Seq<u8> {
    let base = if up.len() == 0 && fname is None {
        seq![SLASH]
    } else {
        joined_up(up)
    };
    match fname {
        None => base,
        Some(f) => base + seq![SLASH] + f,
    }
}

/// What the finder waits to hear about.
#[derive(Clone, Copy, PartialEq, Eq, Structural, Debug)]
pub enum Wait {
    /// Nothing has run yet.
    Start,
    /// The status of the chroot root.
    RootStat,
    /// The status of the current directory.
    CurStat,
    /// The parent has been opened and made current.
    Opened,
    /// The next entry of the current directory.
    Entry,
    /// The status of the candidate entry.
    EntryStat,
    /// Nothing: the search has ended.
    Finished,
}

/// What a driver observed for the finder's last request.
#[derive(Debug)]
pub enum Report {
    /// The request was carried out.
    Ready,
    /// The status that was asked for.
    Stat(Stat),
    /// The next entry of the directory stream.
    Entry(DirEntry),
    /// The directory stream has no more entries.
    End,
}

/// The mathematical value of a `Report`.
pub enum Reported {
    Ready,
    Stat(Stat),
    Entry(EntryView),
    End,
}

impl View for Report {
    type V = Reported;

    open spec fn view(&self) -> Reported {
        match self {
            Report::Ready => Reported::Ready,
            Report::Stat(s) => Reported::Stat(*s),
            Report::Entry(e) => Reported::Entry(e@),
            Report::End => Reported::End,
        }
    }
}

/// What the finder asks the driver to do next.
#[derive(Debug)]
pub enum Request {
    /// Report the status of the chroot root, following links.
    StatRoot,
    /// Report the status of the current directory.
    StatCur,
    /// Open `..` of the current directory, make it current, and start a
    /// directory stream on it.
    OpenParent,
    /// Report the next entry of the stream.
    NextEntry,
    /// Report the status of this name in the current directory, without
    /// following a link.
    StatEntry(Vec<u8>),
    /// Done: this is the path.
    Done(Vec<u8>),
    /// Done: the search fails.
    Fail(Error),
}

/// The mathematical value of a `Request`.
pub enum Req {
    StatRoot,
    StatCur,
    OpenParent,
    NextEntry,
    StatEntry(Seq<u8>),
    Done(Seq<u8>),
    Fail(Fault),
}

impl View for Request {
    type V = Req;

    open spec fn view(&self) -> Req {
        match self {
            Request::StatRoot => Req::StatRoot,
            Request::StatCur => Req::StatCur,
            Request::OpenParent => Req::OpenParent,
            Request::NextEntry => Req::NextEntry,
            Request::StatEntry(n) => Req::StatEntry(n@),
            Request::Done(p) => Req::Done(p@),
            Request::Fail(e) => Req::Fail(e@),
        }
    }
}

/// The state of a search.
pub struct FinderState {
    /// Names found so far, from the starting directory upward.
    pub names: Seq<Seq<u8>>,
    pub fname: Option<Seq<u8>>,
    pub root: Option<Stat>,
    /// The status of the directory whose name is being looked for.
    pub target: Option<Stat>,
    /// The entry whose status was asked for.
    pub candidate: Seq<u8>,
    pub pending: Wait,
}

/// The invariant of a search.
pub open spec fn finder_inv(s: FinderState) -> bool {
    &&& forall|i: int| 0 <= i < s.names.len() ==> is_plain_name(#[trigger] s.names[i])
    &&& (s.pending != Wait::Start && s.pending != Wait::RootStat ==> s.root is Some)
    &&& (s.pending == Wait::Opened || s.pending == Wait::Entry || s.pending == Wait::EntryStat
        ==> s.target is Some)
    &&& (s.pending == Wait::EntryStat ==> is_plain_name(s.candidate))
}

/// Whether the finder, in state `s`, can take `ev`.
pub open spec fn finder_accepts(s: FinderState, ev: Reported) -> bool {
    match s.pending {
        Wait::Start | Wait::Opened => ev is Ready,
        Wait::RootStat | Wait::CurStat | Wait::EntryStat => ev is Stat,
        Wait::Entry => ev is Entry || ev is End,
        Wait::Finished => false,
    }
}

/// One step of the search: the state after `ev`, and the next request.
pub open spec fn find_step(s: FinderState, ev: Reported) -> (FinderState, Req) {
    match s.pending {
        Wait::Start => (FinderState { pending: Wait::RootStat, ..s }, Req::StatRoot),
        Wait::RootStat => (
            FinderState { root: Some(ev->Stat_0), pending: Wait::CurStat, ..s },
            Req::StatCur,
        ),
        Wait::CurStat => if same_object(ev->Stat_0, s.root->0) {
            (
                FinderState { pending: Wait::Finished, ..s },
                Req::Done(full_path_bytes(s.names, s.fname)),
            )
        } else {
            (
                FinderState { target: Some(ev->Stat_0), pending: Wait::Opened, ..s },
                Req::OpenParent,
            )
        },
        Wait::Opened => (FinderState { pending: Wait::Entry, ..s }, Req::NextEntry),
        Wait::Entry => match ev {
            Reported::Entry(e) => if entry_may_match(e, s.target->0) {
                (
                    FinderState { candidate: e.name, pending: Wait::EntryStat, ..s },
                    Req::StatEntry(e.name),
                )
            } else {
                (s, Req::NextEntry)
            },
            _ => (FinderState { pending: Wait::Finished, ..s }, Req::Fail(Fault::NoEntryFound)),
        },
        Wait::EntryStat => if stat_confirms(ev->Stat_0, s.target->0) {
            (
                FinderState { names: s.names.push(s.candidate), pending: Wait::CurStat, ..s },
                Req::StatCur,
            )
        } else {
            (FinderState { pending: Wait::Entry, ..s }, Req::NextEntry)
        },
        Wait::Finished => (s, Req::Fail(Fault::NoEntryFound)),
    }
}

fn copy_bytes(v: &[u8]) -> (r: Vec<u8>)
    ensures
        r@ == v@,
{
    vstd::slice::slice_to_vec(v)
}

/// Whether `n` can be looked up in one directory step.
pub fn plain_name(n: &[u8]) -> (r: bool)
    ensures
        r == is_plain_name(n@),
{
    let len = n.len();
    if len == 0 {
        return false;
    }
    if len == 1 && n[0] == DOT {
        assert(n@ =~= seq![DOT]);
        return false;
    }
    if len == 2 && n[0] == DOT && n[1] == DOT {
        assert(n@ =~= seq![DOT, DOT]);
        return false;
    }
    proof {
        if n@ == seq![DOT] {
            assert(n@.len() == 1);
        }
        if n@ == seq![DOT, DOT] {
            assert(n@.len() == 2);
        }
    }
    let mut i: usize = 0;
    while i < len
        invariant
            len == n@.len(),
            i <= len,
            forall|j: int| 0 <= j < i ==> n@[j] != SLASH,
        decreases len - i,
    {
        if n[i] == SLASH {
            return false;
        }
        i = i + 1;
    }
    true
}

/// Builds the path of the directory whose names, from it upward, are
/// `up`, appending `fname` when given.
pub fn join_full_path(up: &Vec<Vec<u8>>, fname: Option<&[u8]>) -> (r: Vec<u8>)
    ensures
        r@ == full_path_bytes(
            up@.map_values(|v: Vec<u8>| v@),
            match fname {
                None => None,
                Some(f) => Some(f@),
            },
        ),
{
    let ghost ups = up@.map_values(|v: Vec<u8>| v@);
    let mut out: Vec<u8> = Vec::new();
    if up.len() == 0 && fname.is_none() {
        out.push(SLASH);
    }
    let mut i: usize = up.len();
    proof {
        assert(ups.subrange(i as int, ups.len() as int) =~= Seq::<Seq<u8>>::empty());
        assert(out@ =~= (if up@.len() == 0 && fname is None {
            seq![SLASH]
        } else {
            Seq::<u8>::empty()
        }) + joined_up(ups.subrange(i as int, ups.len() as int)));
    }
    while i > 0
        invariant
            i <= up@.len(),
            ups == up@.map_values(|v: Vec<u8>| v@),
            out@ == (if up@.len() == 0 && fname is None {
                seq![SLASH]
            } else {
                Seq::<u8>::empty()
            }) + joined_up(ups.subrange(i as int, ups.len() as int)),
        decreases i,
    {
        let ghost before = out@;
        out.push(SLASH);
        let name = &up[i - 1];
        let mut j: usize = 0;
        let ghost mid = out@;
        while j < name.len()
            invariant
                j <= name@.len(),
                out@ == mid + name@.subrange(0, j as int),
            decreases name@.len() - j,
        {
            out.push(name[j]);
            proof {
                assert(name@.subrange(0, j as int + 1) =~= name@.subrange(0, j as int).push(
                    name@[j as int],
                ));
            }
            j = j + 1;
        }
        proof {
            assert(name@.subrange(0, name@.len() as int) =~= name@);
            let sub = ups.subrange(i - 1, ups.len() as int);
            assert(sub.subrange(1, sub.len() as int) =~= ups.subrange(i as int, ups.len() as int));
            assert(sub[0] == name@);
        }
        i = i - 1;
        proof {
            let sub = ups.subrange(i as int, ups.len() as int);
            assert(joined_up(sub) == joined_up(sub.subrange(1, sub.len() as int)) + seq![SLASH]
                + sub[0]);
        }
        assert(out@ =~= (if up@.len() == 0 && fname is None {
            seq![SLASH]
        } else {
            Seq::<u8>::empty()
        }) + joined_up(ups.subrange(i as int, ups.len() as int)));
    }
    proof {
        assert(ups.subrange(0, ups.len() as int) =~= ups);
    }
    match fname {
        None => {
            assert(out@ =~= full_path_bytes(ups, None));
        },
        Some(f) => {
            let ghost mid = out@;
            out.push(SLASH);
            let mut j: usize = 0;
            let ghost mid2 = out@;
            while j < f.len()
                invariant
                    j <= f@.len(),
                    out@ == mid2 + f@.subrange(0, j as int),
                decreases f@.len() - j,
            {
                out.push(f[j]);
                proof {
                    assert(f@.subrange(0, j as int + 1) =~= f@.subrange(0, j as int).push(
                        f@[j as int],
                    ));
                }
                j = j + 1;
            }
            assert(f@.subrange(0, f@.len() as int) =~= f@);
            assert(out@ =~= full_path_bytes(ups, Some(f@)));
        },
    }
    out
}

/// Whether `e` may name the directory `target`: same inode, a directory
/// or unknown type, and a plain name.
pub fn entry_may_match_exec(e: &DirEntry, target: &Stat) -> (r: bool)
    ensures
        r == entry_may_match(e@, *target),
{
    e.d_ino == target.ino && (e.d_type == DT_DIR || e.d_type == DT_UNKNOWN) && plain_name(
        e.d_name.as_slice(),
    )
}

/// Whether `s` confirms a directory with the device and inode of `target`.
pub fn stat_confirms_exec(s: &Stat, target: &Stat) -> (r: bool)
    ensures
        r == stat_confirms(*s, *target),
{
    s.is_dir() && s.ino == target.ino && s.dev == target.dev
}

/// A search for the path of a directory.
pub struct PathFinder {
    names: Vec<Vec<u8>>,
    fname: Option<Vec<u8>>,
    root: Option<Stat>,
    target: Option<Stat>,
    candidate: Vec<u8>,
    pending: Wait,
}

impl View for PathFinder {
    type V = FinderState;

    closed spec fn view(&self) -> FinderState {
        FinderState {
            names: self.names@.map_values(|v: Vec<u8>| v@),
            fname: match self.fname {
                None => None,
                Some(f) => Some(f@),
            },
            root: self.root,
            target: self.target,
            candidate: self.candidate@,
            pending: self.pending,
        }
    }
}

impl PathFinder {
    /// A search for the path of the driver's current directory, with
    /// `fname` to append.
    pub fn new(fname: Option<&[u8]>) -> (r: PathFinder)
        ensures
            r@ == (FinderState {
                names: Seq::empty(),
                fname: match fname {
                    None => None,
                    Some(f) => Some(f@),
                },
                root: None,
                target: None,
                candidate: Seq::empty(),
                pending: Wait::Start,
            }),
            finder_inv(r@),
    {
        let f = match fname {
            None => None,
            Some(f) => Some(copy_bytes(f)),
        };
        let r = PathFinder {
            names: Vec::new(),
            fname: f,
            root: None,
            target: None,
            candidate: Vec::new(),
            pending: Wait::Start,
        };
        assert(r@.names =~= Seq::<Seq<u8>>::empty());
        assert(r@.candidate =~= Seq::<u8>::empty());
        r
    }

    /// Whether the finder can take `ev` now.
    pub fn accepts(&self, ev: &Report) -> (r: bool)
        ensures
            r == finder_accepts(self@, ev@),
    {
        match self.pending {
            Wait::Start | Wait::Opened => matches!(ev, Report::Ready),
            Wait::RootStat | Wait::CurStat | Wait::EntryStat => matches!(ev, Report::Stat(_)),
            Wait::Entry => matches!(ev, Report::Entry(_)) || matches!(ev, Report::End),
            Wait::Finished => false,
        }
    }

    /// Takes what the driver observed for the last request and returns the
    /// next request.
    pub fn resume(&mut self, ev: Report) -> (r: Request)
        requires
            finder_inv(old(self)@),
            finder_accepts(old(self)@, ev@),
        ensures
            finder_inv(final(self)@),
            (final(self)@, r@) == find_step(old(self)@, ev@),
    {
        let ghost names0 = self.names@;
        let r = match self.pending {
            Wait::Start => {
                self.pending = Wait::RootStat;

                Request::StatRoot
            },
            Wait::RootStat => {
                match ev {
                    Report::Stat(st) => {
                        self.root = Some(st);
                    },
                    _ => {},
                }
                self.pending = Wait::CurStat;
                Request::StatCur
            },
            Wait::CurStat => {
                let st = match ev {
                    Report::Stat(st) => st,
                    _ => Stat { dev: 0, ino: 0, mode: 0 },
                };
                let at_root = match self.root {
                    Some(r) => st.same_object(&r),
                    None => false,
                };
                if at_root {
                    self.pending = Wait::Finished;
                    let f = match &self.fname {
                        None => None,
                        Some(f) => Some(f.as_slice()),
                    };
                    Request::Done(join_full_path(&self.names, f))
                } else {
                    self.target = Some(st);
                    self.pending = Wait::Opened;
                    Request::OpenParent
                }
            },
            Wait::Opened => {
                self.pending = Wait::Entry;
                Request::NextEntry
            },
            Wait::Entry => {
                match ev {
                    Report::Entry(e) => {
                        let t = match self.target {
                            Some(t) => t,
                            None => Stat { dev: 0, ino: 0, mode: 0 },
                        };
                        if entry_may_match_exec(&e, &t) {
                            let n = copy_bytes(e.d_name.as_slice());
                            self.candidate = e.d_name;
                            self.pending = Wait::EntryStat;
                            Request::StatEntry(n)
                        } else {
                            Request::NextEntry
                        }
                    },
                    _ => {
                        self.pending = Wait::Finished;
                        Request::Fail(Error::NoEntryFound)
                    },
                }
            },
            Wait::EntryStat => {
                let st = match ev {
                    Report::Stat(st) => st,
                    _ => Stat { dev: 0, ino: 0, mode: 0 },
                };
                let t = match self.target {
                    Some(t) => t,
                    None => Stat { dev: 0, ino: 0, mode: 0 },
                };
                if stat_confirms_exec(&st, &t) {
                    let ghost n0 = self@.names;
                    let c = copy_bytes(self.candidate.as_slice());
                    self.names.push(c);
                    self.pending = Wait::CurStat;
                    proof {
                        assert(self@.names =~= n0.push(old(self)@.candidate));
                        assert forall|i: int| 0 <= i < self@.names.len() implies is_plain_name(
                            #[trigger] self@.names[i],
                        ) by {
                            if i < n0.len() {
                                assert(self@.names[i] == n0[i]);
                            }
                        }
                    }
                    Request::StatCur
                } else {
                    self.pending = Wait::Entry;
                    Request::NextEntry
                }
            },
            Wait::Finished => Request::Fail(Error::NoEntryFound),
        };
        proof {
            if self.names@ == names0 {
                assert(self@.names =~= old(self)@.names);
            }
        }
        r
    }
}

} // verus!
