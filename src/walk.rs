//! The path walker: resolves a path below the chroot root one component at a
//! time, following symbolic links itself under a budget.
//!
//! The walker performs no file-system operation. Each call of
//! [`Walker::resume`] hands it what the previous [`Action`] observed and
//! returns the next action. The driver keeps a current directory handle,
//! which starts at the base directory of the query.
use vstd::prelude::*;
use crate::error::{Error, Fault};
use crate::path::{
    components, is_plain_name, lemma_parts_plain, parts, parts_plain, parts_view, Component, Part,
    DOT,
};
use crate::stat::{same_object, Stat};

verus! {

/// The symbolic-link budget of one walk, and the number of times a final
/// symbolic link is read before `open` gives up.
pub const MAX_LOOP: u32 = 256;

/// What a walk resolves.
#[derive(Clone, Copy, PartialEq, Eq, Structural, Debug)]
pub enum Goal {
    /// The directory the whole path denotes.
    Dir,
    /// The directory holding the last component, and that component's name.
    Parent,
    /// The file the path denotes. A final symbolic link is read, and its
    /// target walked from the directory that holds the link, as often as the
    /// budget allows.
    File,
}

/// What the walker waits to hear about.
#[derive(Clone, Copy, PartialEq, Eq, Structural, Debug)]
pub enum Pending {
    /// The last action changed the current directory (or nothing yet ran).
    Ready,
    /// The status of the chroot root.
    RootStat,
    /// The status of the current directory.
    CurStat,
    /// Whether the name under lookup is a symbolic link.
    Link,
    /// The target of the symbolic link under lookup.
    Target,
    /// Whether the final name is a symbolic link.
    FinalLink,
    /// The target of the final symbolic link.
    FinalTarget,
    /// Nothing: the walk has ended.
    Finished,
}

/// What a driver observed for the last action.
#[derive(Debug)]
pub enum Event {
    /// The action changed the current directory as asked.
    Ready,
    /// The status that was asked for.
    Stat(Stat),
    /// Whether the name is a symbolic link; a failed lookup counts as no.
    IsLink(bool),
    /// The target of the symbolic link.
    Target(Vec<u8>),
}

/// The mathematical value of an `Event`.
pub enum Observed {
    Ready,
    Stat(Stat),
    IsLink(bool),
    Target(Seq<u8>),
}

impl View for Event {
    type V = Observed;

    open spec fn view(&self) -> Observed {
        match self {
            Event::Ready => Observed::Ready,
            Event::Stat(s) => Observed::Stat(*s),
            Event::IsLink(b) => Observed::IsLink(*b),
            Event::Target(t) => Observed::Target(t@),
        }
    }
}

/// What the walker asks the driver to do next.
#[derive(Debug)]
pub enum Action {
    /// Make a fresh handle on the chroot root the current directory.
    OpenRoot,
    /// Report the status of the chroot root, following links.
    StatRoot,
    /// Report the status of the current directory.
    StatCur,
    /// Open `..` of the current directory, as a directory and without
    /// following a link, and make it current.
    OpenParent,
    /// Report whether this name in the current directory is a symbolic link.
    CheckLink(Vec<u8>),
    /// Open this name of the current directory, as a directory and without
    /// following a link, and make it current.
    OpenDir(Vec<u8>),
    /// Report the target of this symbolic link in the current directory.
    ReadLink(Vec<u8>),
    /// Done: open this name of the current directory with the caller's flags
    /// and without following a final link.
    OpenFile(Vec<u8>),
    /// Done: the answer is this name in the current directory.
    Found(Vec<u8>),
    /// Done: the answer is the current directory.
    Done,
    /// Done: the query fails.
    Fail(Error),
}

/// The mathematical value of an `Action`.
pub enum Act {
    OpenRoot,
    StatRoot,
    StatCur,
    OpenParent,
    CheckLink(Seq<u8>),
    OpenDir(Seq<u8>),
    ReadLink(Seq<u8>),
    OpenFile(Seq<u8>),
    Found(Seq<u8>),
    Done,
    Fail(Fault),
}

impl View for Action {
    type V = Act;

    open spec fn view(&self) -> Act {
        match self {
            Action::OpenRoot => Act::OpenRoot,
            Action::StatRoot => Act::StatRoot,
            Action::StatCur => Act::StatCur,
            Action::OpenParent => Act::OpenParent,
            Action::CheckLink(n) => Act::CheckLink(n@),
            Action::OpenDir(n) => Act::OpenDir(n@),
            Action::ReadLink(n) => Act::ReadLink(n@),
            Action::OpenFile(n) => Act::OpenFile(n@),
            Action::Found(n) => Act::Found(n@),
            Action::Done => Act::Done,
            Action::Fail(e) => Act::Fail(e@),
        }
    }
}

/// An entry of the walker's work stack.
pub enum Item {
    /// A component still to resolve.
    Step(Component),
    /// The end of a symbolic link's target: its budget is given back here.
    Leave,
}

/// The mathematical value of an `Item`.
pub enum Task {
    Step(Part),
    Leave,
}

impl View for Item {
    type V = Task;

    open spec fn view(&self) -> Task {
        match self {
            Item::Step(c) => Task::Step(c@),
            Item::Leave => Task::Leave,
        }
    }
}

/// The values of a work stack.
pub open spec fn tasks_view(v: Seq<Item>) -> Seq<Task> {
    v.map_values(|i: Item| i@)
}

/// The state of a walk.
pub struct WalkState {
    /// Work still to do; the last entry is the next one.
    pub todo: Seq<Task>,
    /// The path of each symbolic-link expansion in progress, the outermost
    /// (the query's path) first.
    pub paths: Seq<Seq<u8>>,
    /// The symbolic-link budget left.
    pub counter: nat,
    /// The status of the root, once it has been asked for.
    pub root: Option<Stat>,
    pub pending: Pending,
    /// The name that the pending question is about.
    pub name: Seq<u8>,
    pub goal: Goal,
    /// The final name, for `Goal::Parent` and `Goal::File`.
    pub last: Seq<u8>,
    /// How many more final symbolic links may be read.
    pub retries: nat,
}

/// `ps` laid out as a work stack: the first part on top.
pub open spec fn stack_of(ps: Seq<Part>) -> Seq<Task>
    decreases ps.len(),
{
    if ps.len() == 0 {
        Seq::empty()
    } else {
        seq![Task::Step(ps.last())] + stack_of(ps.drop_last())
    }
}

/// How many link ends a work stack holds.
pub open spec fn leaves(t: Seq<Task>) -> nat
    decreases t.len(),
{
    if t.len() == 0 {
        0
    } else {
        leaves(t.drop_last()) + if t.last() is Leave {
            1nat
        } else {
            0nat
        }
    }
}

/// Every name on a work stack can be looked up in one directory step.
pub open spec fn names_plain(t: Seq<Task>) -> bool {
    forall|i: int|
        0 <= i < t.len() ==> (#[trigger] t[i] matches Task::Step(Part::Name(n)) ==> is_plain_name(
            n,
        ))
}

/// The directory to walk and the final name that a query on `ps` splits
/// into. When the last component is not a name, the whole path is walked and
/// the final name is `.`.
pub open spec fn split_parts(ps: Seq<Part>) -> (Seq<Part>, Seq<u8>) {
    if ps.len() > 0 && ps.last() is Name {
        (ps.drop_last(), ps.last()->Name_0)
    } else {
        (ps, seq![DOT])
    }
}

/// The state in which a walk of `p` for `goal` starts.
pub open spec fn start(goal: Goal, p: Seq<u8>, root: Option<Stat>, retries: nat) -> WalkState {
    let ps = parts(p);
    let walk = if goal == Goal::Dir {
        ps
    } else {
        split_parts(ps).0
    };
    let last = if goal == Goal::Dir {
        seq![DOT]
    } else {
        split_parts(ps).1
    };
    WalkState {
        todo: stack_of(walk),
        paths: seq![p],
        counter: MAX_LOOP as nat,
        root,
        pending: Pending::Ready,
        name: Seq::empty(),
        goal,
        last,
        retries,
    }
}

/// The walker's invariant.
pub open spec fn inv(s: WalkState) -> bool {
    &&& s.counter + leaves(s.todo) == MAX_LOOP
    &&& s.paths.len() == leaves(s.todo) + 1
    &&& s.retries <= MAX_LOOP
    &&& (s.pending != Pending::Finished ==> s.retries >= 1)
    &&& names_plain(s.todo)
    &&& (s.pending == Pending::Link ==> is_plain_name(s.name))
    &&& (s.pending == Pending::Target ==> s.counter > 0)
    &&& (is_plain_name(s.last) || s.last == seq![DOT])
    &&& (s.pending == Pending::CurStat ==> s.root is Some)
    &&& (s.pending == Pending::FinalLink || s.pending == Pending::FinalTarget ==> s.goal
        == Goal::File && s.todo.len() == 0)
}

/// Takes entries off the work stack until one needs the driver.
pub open spec fn advance(s: WalkState) -> (WalkState, Act)
    decreases s.todo.len(),
{
    if s.todo.len() == 0 {
        if s.goal == Goal::Dir {
            (WalkState { pending: Pending::Finished, ..s }, Act::Done)
        } else if s.goal == Goal::Parent {
            (WalkState { pending: Pending::Finished, ..s }, Act::Found(s.last))
        } else {
            (WalkState { pending: Pending::FinalLink, ..s }, Act::CheckLink(s.last))
        }
    } else {
        let rest = WalkState { todo: s.todo.drop_last(), ..s };
        match s.todo.last() {
            Task::Leave => advance(
                WalkState { counter: s.counter + 1, paths: s.paths.drop_last(), ..rest },
            ),
            Task::Step(Part::Cur) => advance(rest),
            Task::Step(Part::Root) => (WalkState { pending: Pending::Ready, ..rest }, Act::OpenRoot),
            Task::Step(Part::Parent) => if s.root is None {
                (WalkState { pending: Pending::RootStat, ..rest }, Act::StatRoot)
            } else {
                (WalkState { pending: Pending::CurStat, ..rest }, Act::StatCur)
            },
            Task::Step(Part::Name(n)) => (
                WalkState { pending: Pending::Link, name: n, ..rest },
                Act::CheckLink(n),
            ),
        }
    }
}

/// Whether the walker, in state `s`, can take `ev`.
pub open spec fn accepts(s: WalkState, ev: Observed) -> bool {
    match s.pending {
        Pending::Ready => ev is Ready,
        Pending::RootStat | Pending::CurStat => ev is Stat,
        Pending::Link | Pending::FinalLink => ev is IsLink,
        Pending::Target | Pending::FinalTarget => ev is Target,
        Pending::Finished => false,
    }
}

/// One step of the walker: the state after `ev`, and the next action.
pub open spec fn step(s: WalkState, ev: Observed) -> (WalkState, Act) {
    match ev {
        Observed::Ready => advance(s),
        Observed::Stat(st) => if s.pending == Pending::RootStat {
            (WalkState { root: Some(st), pending: Pending::CurStat, ..s }, Act::StatCur)
        } else if same_object(st, s.root->0) {
            advance(WalkState { pending: Pending::Ready, ..s })
        } else {
            (WalkState { pending: Pending::Ready, ..s }, Act::OpenParent)
        },
        Observed::IsLink(b) => if s.pending == Pending::Link {
            if !b {
                (WalkState { pending: Pending::Ready, ..s }, Act::OpenDir(s.name))
            } else if s.counter == 0 {
                (
                    WalkState { pending: Pending::Finished, ..s },
                    Act::Fail(Fault::TooManyLoops(s.paths.last())),
                )
            } else {
                (WalkState { pending: Pending::Target, ..s }, Act::ReadLink(s.name))
            }
        } else {
            if !b {
                (WalkState { pending: Pending::Finished, ..s }, Act::OpenFile(s.last))
            } else {
                (WalkState { pending: Pending::FinalTarget, ..s }, Act::ReadLink(s.last))
            }
        },
        Observed::Target(t) => if s.pending == Pending::Target {
            advance(
                WalkState {
                    todo: s.todo.push(Task::Leave) + stack_of(parts(t)),
                    paths: s.paths.push(t),
                    counter: (s.counter - 1) as nat,
                    pending: Pending::Ready,
                    ..s
                },
            )
        } else if s.retries <= 1 {
            (
                WalkState { pending: Pending::Finished, retries: 0, ..s },
                Act::Fail(Fault::TooManyLoops(t)),
            )
        } else {
            advance(start(Goal::File, t, s.root, (s.retries - 1) as nat))
        },
    }
}

/// A walk in progress.
pub struct Walker {
    todo: Vec<Item>,
    paths: Vec<Vec<u8>>,
    counter: u32,
    root: Option<Stat>,
    pending: Pending,
    name: Vec<u8>,
    goal: Goal,
    last: Vec<u8>,
    retries: u32,
}

impl View for Walker {
    type V = WalkState;

    closed spec fn view(&self) -> WalkState {
        WalkState {
            todo: tasks_view(self.todo@),
            paths: self.paths@.map_values(|p: Vec<u8>| p@),
            counter: self.counter as nat,
            root: self.root,
            pending: self.pending,
            name: self.name@,
            goal: self.goal,
            last: self.last@,
            retries: self.retries as nat,
        }
    }
}

/// The layout of a work stack built from parts: the first part on top, and
/// no link ends.
pub proof fn lemma_stack_of(ps: Seq<Part>)
    ensures
        stack_of(ps).len() == ps.len(),
        forall|i: int|
            0 <= i < ps.len() ==> #[trigger] stack_of(ps)[i] == Task::Step(ps[ps.len() - 1 - i]),
        leaves(stack_of(ps)) == 0,
    decreases ps.len(),
{
    if ps.len() > 0 {
        let rest = ps.drop_last();
        lemma_stack_of(rest);
        let s = stack_of(ps);
        assert forall|i: int| 0 <= i < ps.len() implies #[trigger] s[i] == Task::Step(
            ps[ps.len() - 1 - i],
        ) by {
            if i > 0 {
                assert(s[i] == stack_of(rest)[i - 1]);
            }
        }
        let one = seq![Task::Step(ps.last())];
        lemma_leaves_concat(one, stack_of(rest));
        assert(one.drop_last() =~= Seq::<Task>::empty());
        assert(one.last() == Task::Step(ps.last()));
        assert(leaves(one) == leaves(one.drop_last()));
    }
}

proof fn lemma_leaves_concat(a: Seq<Task>, b: Seq<Task>)
    ensures
        leaves(a + b) == leaves(a) + leaves(b),
    decreases b.len(),
{
    if b.len() > 0 {
        lemma_leaves_concat(a, b.drop_last());
        assert((a + b).drop_last() =~= a + b.drop_last());
        assert((a + b).last() == b.last());
    } else {
        assert(a + b =~= a);
    }
}

proof fn lemma_stack_plain(ps: Seq<Part>)
    requires
        parts_plain(ps),
    ensures
        names_plain(stack_of(ps)),
{
    lemma_stack_of(ps);
    let s = stack_of(ps);
    assert forall|i: int| 0 <= i < s.len() implies (#[trigger] s[i] matches Task::Step(
        Part::Name(n),
    ) ==> is_plain_name(n)) by {
        assert(s[i] == Task::Step(ps[ps.len() - 1 - i]));
        assert(ps[ps.len() - 1 - i] matches Part::Name(n) ==> is_plain_name(n));
    }
}

proof fn lemma_names_plain_concat(a: Seq<Task>, b: Seq<Task>)
    requires
        names_plain(a),
        names_plain(b),
    ensures
        names_plain(a + b),
{
    assert forall|i: int| 0 <= i < (a + b).len() implies (#[trigger] (a + b)[i] matches Task::Step(
        Part::Name(n),
    ) ==> is_plain_name(n)) by {
        if i < a.len() {
            assert((a + b)[i] == a[i]);
        } else {
            assert((a + b)[i] == b[i - a.len()]);
        }
    }
}

/// Every walk starts in a state that meets the invariant.
pub proof fn lemma_start_inv(goal: Goal, p: Seq<u8>, root: Option<Stat>, retries: nat)
    requires
        1 <= retries <= MAX_LOOP,
    ensures
        inv(start(goal, p, root, retries)),
{
    let ps = parts(p);
    lemma_parts_plain(p);
    let walk = if goal == Goal::Dir {
        ps
    } else {
        split_parts(ps).0
    };
    if goal != Goal::Dir && ps.len() > 0 && ps.last() is Name {
        assert(ps[ps.len() - 1] matches Part::Name(n) ==> is_plain_name(n));
        assert(parts_plain(walk)) by {
            assert forall|i: int| 0 <= i < walk.len() implies (#[trigger] walk[i] matches Part::Name(
                n,
            ) ==> is_plain_name(n)) by {
                assert(walk[i] == ps[i]);
            }
        }
    }
    lemma_stack_of(walk);
    lemma_stack_plain(walk);
}

fn copy_bytes(v: &[u8]) -> (r: Vec<u8>)
    ensures
        r@ == v@,
{
    vstd::slice::slice_to_vec(v)
}

/// Pushes `comps` onto a work stack, the first component on top.
fn push_components(todo: &mut Vec<Item>, comps: Vec<Component>)
    ensures
        tasks_view(final(todo)@) == tasks_view(old(todo)@) + stack_of(parts_view(comps@)),
{
    let ghost all = parts_view(comps@);
    let mut comps = comps;
    assert(tasks_view(todo@) + stack_of(all) == tasks_view(old(todo)@) + stack_of(all));
    while comps.len() > 0
        invariant
            tasks_view(old(todo)@) + stack_of(all) == tasks_view(todo@) + stack_of(
                parts_view(comps@),
            ),
        decreases comps.len(),
    {
        let ghost before = comps@;
        let ghost t0 = todo@;
        match comps.pop() {
            Some(c) => {
                todo.push(Item::Step(c));
                proof {
                    let pv = parts_view(before);
                    assert(pv.drop_last() =~= parts_view(comps@));
                    assert(pv.last() == c@);
                    assert(tasks_view(todo@) =~= tasks_view(t0).push(Task::Step(c@)));
                    assert(stack_of(pv) == seq![Task::Step(c@)] + stack_of(parts_view(comps@)));
                    assert(tasks_view(t0) + stack_of(pv) =~= tasks_view(todo@) + stack_of(
                        parts_view(comps@),
                    ));
                }
            },
            None => {},
        }
    }
    assert(parts_view(comps@) =~= Seq::<Part>::empty());
    assert(tasks_view(todo@) + stack_of(parts_view(comps@)) =~= tasks_view(todo@));
}

/// The walker for `p`, with the given root status and final-link retries.
fn start_walk(goal: Goal, p: &[u8], root: Option<Stat>, retries: u32) -> (r: Walker)
    ensures
        r@ == start(goal, p@, root, retries as nat),
{
    let mut comps = components(p);
    let ghost ps = parts_view(comps@);
    let mut last: Vec<u8> = vec![DOT];
    if goal != Goal::Dir {
        match comps.pop() {
            Some(Component::Normal(n)) => {
                assert(parts_view(comps@) =~= ps.drop_last());
                last = n;
            },
            Some(c) => {
                comps.push(c);
                assert(parts_view(comps@) =~= ps);
            },
            None => {
                assert(parts_view(comps@) =~= ps);
            },
        }
    }
    let mut todo: Vec<Item> = Vec::new();
    push_components(&mut todo, comps);
    let mut paths: Vec<Vec<u8>> = Vec::new();
    paths.push(copy_bytes(p));
    let r = Walker {
        todo,
        paths,
        counter: MAX_LOOP,
        root,
        pending: Pending::Ready,
        name: Vec::new(),
        goal,
        last,
        retries,
    };
    assert(tasks_view(todo@) =~= stack_of(parts_view(comps@)));
    assert(r@.paths =~= seq![p@]);
    assert(r@.name =~= Seq::<u8>::empty());
    assert(last@ =~= start(goal, p@, root, retries as nat).last);
    r
}

impl Walker {
    /// A walk of `p` for `goal`, from the base directory of the query.
    pub fn new(goal: Goal, p: &[u8]) -> (r: Walker)
        ensures
            r@ == start(goal, p@, None, MAX_LOOP as nat),
            inv(r@),
    {
        proof {
            lemma_start_inv(goal, p@, None, MAX_LOOP as nat);
        }
        start_walk(goal, p, None, MAX_LOOP)
    }

    /// Whether the walker can take `ev` now.
    pub fn accepts(&self, ev: &Event) -> (r: bool)
        ensures
            r == accepts(self@, ev@),
    {
        match self.pending {
            Pending::Ready => matches!(ev, Event::Ready),
            Pending::RootStat | Pending::CurStat => matches!(ev, Event::Stat(_)),
            Pending::Link | Pending::FinalLink => matches!(ev, Event::IsLink(_)),
            Pending::Target | Pending::FinalTarget => matches!(ev, Event::Target(_)),
            Pending::Finished => false,
        }
    }

    fn advance(&mut self) -> (r: Action)
        requires
            inv(old(self)@),
            old(self)@.pending == Pending::Ready,
        ensures
            inv(final(self)@),
            (final(self)@, r@) == advance(old(self)@),
    {
        loop
            invariant
                inv(self@),
                self@.pending == Pending::Ready,
                advance(self@) == advance(old(self)@),
            decreases self.todo@.len(),
        {
            let ghost s0 = self@;
            let ghost len0 = self.todo@.len();
            proof {
                if len0 > 0 {
                    assert(s0.todo[len0 - 1] == s0.todo.last());
                    assert(s0.todo.drop_last() =~= s0.todo.subrange(0, len0 - 1));
                }
            }
            match self.todo.pop() {
                None => {
                    self.pending = if self.goal == Goal::File {
                        Pending::FinalLink
                    } else {
                        Pending::Finished
                    };
                    if self.goal == Goal::Dir {
                        return Action::Done;
                    } else if self.goal == Goal::Parent {
                        return Action::Found(copy_bytes(self.last.as_slice()));
                    } else {
                        return Action::CheckLink(copy_bytes(self.last.as_slice()));
                    }
                },
                Some(item) => {
                    proof {
                        assert(tasks_view(self.todo@) =~= s0.todo.drop_last());
                        assert(item@ == s0.todo.last());
                        lemma_names_plain_drop_last(s0.todo);
                    }
                    match item {
                        Item::Leave => {
                            self.counter = self.counter + 1;
                            let _ = self.paths.pop();
                            proof {
                                assert(self@.paths =~= s0.paths.drop_last());
                            }
                        },
                        Item::Step(Component::CurDir) => {},
                        Item::Step(Component::RootDir) => {
                            return Action::OpenRoot;
                        },
                        Item::Step(Component::ParentDir) => {
                            if self.root.is_none() {
                                self.pending = Pending::RootStat;
                                return Action::StatRoot;
                            } else {
                                self.pending = Pending::CurStat;
                                return Action::StatCur;
                            }
                        },
                        Item::Step(Component::Normal(n)) => {
                            let a = copy_bytes(n.as_slice());
                            self.name = n;
                            self.pending = Pending::Link;
                            return Action::CheckLink(a);
                        },
                    }
                },
            }
        }
    }

    /// Takes what the driver observed for the last action and returns the
    /// next action.
    pub fn resume(&mut self, ev: Event) -> (r: Action)
        requires
            inv(old(self)@),
            accepts(old(self)@, ev@),
        ensures
            inv(final(self)@),
            (final(self)@, r@) == step(old(self)@, ev@),
    {
        match ev {
            Event::Ready => self.advance(),
            Event::Stat(st) => {
                if self.pending == Pending::RootStat {
                    self.root = Some(st);
                    self.pending = Pending::CurStat;
                    Action::StatCur
                } else {
                    let same = match self.root {
                        Some(r) => st.same_object(&r),
                        None => false,
                    };
                    self.pending = Pending::Ready;
                    if same {
                        self.advance()
                    } else {
                        Action::OpenParent
                    }
                }
            },
            Event::IsLink(b) => {
                if self.pending == Pending::Link {
                    if !b {
                        self.pending = Pending::Ready;
                        Action::OpenDir(copy_bytes(self.name.as_slice()))
                    } else if self.counter == 0 {
                        self.pending = Pending::Finished;
                        let k = self.paths.len() - 1;
                        let p = copy_bytes(self.paths[k].as_slice());
                        Action::Fail(Error::TooManyLoops(p))
                    } else {
                        self.pending = Pending::Target;
                        Action::ReadLink(copy_bytes(self.name.as_slice()))
                    }
                } else {
                    if !b {
                        self.pending = Pending::Finished;
                        Action::OpenFile(copy_bytes(self.last.as_slice()))
                    } else {
                        self.pending = Pending::FinalTarget;
                        Action::ReadLink(copy_bytes(self.last.as_slice()))
                    }
                }
            },
            Event::Target(t) => {
                if self.pending == Pending::Target {
                    let ghost s0 = self@;
                    self.todo.push(Item::Leave);
                    let comps = components(t.as_slice());
                    let ghost ps = parts_view(comps@);
                    push_components(&mut self.todo, comps);
                    self.paths.push(t);
                    self.counter = self.counter - 1;
                    self.pending = Pending::Ready;
                    proof {
                        let pushed = s0.todo.push(Task::Leave);
                        assert(self@.todo == pushed + stack_of(parts(t@)));
                        assert(self@.paths =~= s0.paths.push(t@));
                        lemma_parts_plain(t@);
                        lemma_stack_plain(parts(t@));
                        lemma_stack_of(parts(t@));
                        lemma_leaves_concat(pushed, stack_of(parts(t@)));
                        assert(pushed.drop_last() =~= s0.todo);
                        assert(names_plain(pushed)) by {
                            assert forall|i: int| 0 <= i < pushed.len() implies (
                            #[trigger] pushed[i] matches Task::Step(Part::Name(n))
                                ==> is_plain_name(n)) by {
                                if i < s0.todo.len() {
                                    assert(pushed[i] == s0.todo[i]);
                                }
                            }
                        }
                        lemma_names_plain_concat(pushed, stack_of(parts(t@)));
                    }
                    self.advance()
                } else if self.retries <= 1 {
                    self.pending = Pending::Finished;
                    self.retries = 0;
                    Action::Fail(Error::TooManyLoops(t))
                } else {
                    proof {
                        lemma_start_inv(Goal::File, t@, self.root, (self.retries - 1) as nat);
                    }
                    let w = start_walk(Goal::File, t.as_slice(), self.root, self.retries - 1);
                    *self = w;
                    self.advance()
                }
            },
        }
    }
}

proof fn lemma_names_plain_drop_last(t: Seq<Task>)
    requires
        names_plain(t),
        t.len() > 0,
    ensures
        names_plain(t.drop_last()),
        t.last() matches Task::Step(Part::Name(n)) ==> is_plain_name(n),
        leaves(t) == leaves(t.drop_last()) + if t.last() is Leave {
            1nat
        } else {
            0nat
        },
{
    assert(t[t.len() - 1] == t.last());
    let d = t.drop_last();
    assert forall|i: int| 0 <= i < d.len() implies (#[trigger] d[i] matches Task::Step(
        Part::Name(n),
    ) ==> is_plain_name(n)) by {
        assert(d[i] == t[i]);
    }
}

} // verus!
