//! What holds of every walk: confinement below the root, the root as a
//! fixed point of `..`, absolute targets read from the root, the link
//! budget, the final open that never follows a link, and `full_path`
//! results that walk back to the same directory.
use vstd::prelude::*;
use crate::error::Fault;
use crate::full_path::{full_path_bytes, joined_up};
use crate::path::{
    has_root, is_plain_name, lead_parts, lemma_segments_nonempty, parts, parts_of_segments,
    segment_parts, segments, Part, DOT, SLASH,
};
use crate::stat::{same_object, Stat};
use crate::walk::{
    accepts, advance, inv, leaves, lemma_stack_of, names_plain, split_parts, stack_of, start, step,
    Act, Goal, Observed, Pending, Task, WalkState, MAX_LOOP,
};

verus! {

/// An action that names at most one entry of the current directory: a
/// lookup or descent takes a plain name, and a final name is plain or `.`.
pub open spec fn confined(a: Act) -> bool {
    match a {
        Act::OpenDir(n) => is_plain_name(n),
        Act::CheckLink(n) => is_plain_name(n) || n == seq![DOT],
        Act::ReadLink(n) => is_plain_name(n) || n == seq![DOT],
        Act::OpenFile(n) => is_plain_name(n) || n == seq![DOT],
        Act::Found(n) => is_plain_name(n) || n == seq![DOT],
        _ => true,
    }
}

/// An action that only takes work off the stack: it names at most a plain
/// name or the final name, and never descends, ascends, reads a link or
/// opens the final file.
pub open spec fn quiet(a: Act) -> bool {
    &&& confined(a)
    &&& !(a is OpenDir || a is OpenParent || a is ReadLink || a is OpenFile || a is Fail)
}

proof fn lemma_advance(s: WalkState)
    requires
        names_plain(s.todo),
        is_plain_name(s.last) || s.last == seq![DOT],
    ensures
        quiet(advance(s).1),
    decreases s.todo.len(),
{
    if s.todo.len() > 0 {
        let rest = WalkState { todo: s.todo.drop_last(), ..s };
        assert(s.todo[s.todo.len() - 1] == s.todo.last());
        assert(names_plain(s.todo.drop_last())) by {
            assert forall|i: int| 0 <= i < s.todo.drop_last().len() implies (
            #[trigger] s.todo.drop_last()[i] matches Task::Step(Part::Name(n))
                ==> is_plain_name(n)) by {
                assert(s.todo.drop_last()[i] == s.todo[i]);
            }
        }
        match s.todo.last() {
            Task::Leave => {
                lemma_advance(
                    WalkState { counter: s.counter + 1, paths: s.paths.drop_last(), ..rest },
                );
            },
            Task::Step(Part::Cur) => {
                lemma_advance(rest);
            },
            _ => {},
        }
    }
}

/// Confinement: in every reachable state, each action the walker asks for
/// looks up or opens a single plain name of the current directory (or, for
/// the final name, `.`); it asks to open `..` only right after the current
/// directory was seen not to be the root; and it opens the final name only
/// right after that name was seen not to be a symbolic link.
pub proof fn lemma_confined(s: WalkState, ev: Observed)
    requires
        inv(s),
        accepts(s, ev),
    ensures
        confined(step(s, ev).1),
        step(s, ev).1 is OpenParent ==> s.pending == Pending::CurStat && ev is Stat
            && !same_object(ev->Stat_0, s.root->0),
        step(s, ev).1 is OpenFile ==> s.pending == Pending::FinalLink && ev
            == Observed::IsLink(false),
{
    match ev {
        Observed::Ready => {
            lemma_advance(s);
        },
        Observed::Stat(st) => {
            lemma_advance(WalkState { pending: Pending::Ready, ..s });
        },
        Observed::IsLink(b) => {},
        Observed::Target(t) => {
            if s.pending == Pending::Target {
                let s2 = WalkState {
                    todo: s.todo.push(Task::Leave) + stack_of(parts(t)),
                    paths: s.paths.push(t),
                    counter: (s.counter - 1) as nat,
                    pending: Pending::Ready,
                    ..s
                };
                lemma_push_target_plain(s.todo, t);
                lemma_advance(s2);
            } else if s.retries > 1 {
                let s2 = start(Goal::File, t, s.root, (s.retries - 1) as nat);
                crate::walk::lemma_start_inv(Goal::File, t, s.root, (s.retries - 1) as nat);
                lemma_advance(s2);
            }
        },
    }
}

proof fn lemma_push_target_plain(todo: Seq<Task>, t: Seq<u8>)
    requires
        names_plain(todo),
    ensures
        names_plain(todo.push(Task::Leave) + stack_of(parts(t))),
{
    crate::path::lemma_parts_plain(t);
    lemma_stack_of(parts(t));
    let a = todo.push(Task::Leave);
    let b = stack_of(parts(t));
    assert forall|i: int| 0 <= i < (a + b).len() implies (#[trigger] (a + b)[i] matches Task::Step(
        Part::Name(n),
    ) ==> is_plain_name(n)) by {
        if i < todo.len() {
            assert((a + b)[i] == todo[i]);
        } else if i == todo.len() {
            assert((a + b)[i] == Task::Leave);
        } else {
            let j = i - a.len();
            assert((a + b)[i] == b[j]);
            assert(b[j] == Task::Step(parts(t)[parts(t).len() - 1 - j]));
            assert(parts(t)[parts(t).len() - 1 - j] matches Part::Name(n) ==> is_plain_name(n));
        }
    }
}

/// The root is a fixed point of `..`: when the current directory is the
/// root, a `..` opens nothing, and the walk goes on exactly as if the `..`
/// had not been there.
pub proof fn lemma_root_fixed_point(s: WalkState, c: Stat)
    requires
        inv(s),
        s.pending == Pending::CurStat,
        same_object(c, s.root->0),
    ensures
        step(s, Observed::Stat(c)) == advance(WalkState { pending: Pending::Ready, ..s }),
        !(step(s, Observed::Stat(c)).1 is OpenParent),
{
    lemma_advance(WalkState { pending: Pending::Ready, ..s });
}

/// The walk after the driver answers `n` status questions in a row with
/// the status `r`.
pub open spec fn answered(s: WalkState, r: Stat, n: nat) -> (WalkState, Act)
    decreases n,
{
    if n <= 1 {
        step(s, Observed::Stat(r))
    } else {
        answered(step(s, Observed::Stat(r)).0, r, (n - 1) as nat)
    }
}

/// The root is a fixed point of any run of `..`: when the walker has asked
/// for the status of the current directory, the root's status `r` is known,
/// and the next `k` entries of its work are `..`, then while the current
/// directory is the root the walk opens nothing for them, and after the
/// `k + 1` answers it goes on exactly as if those `k` entries had not been
/// there.
pub proof fn lemma_parents_at_root(s: WalkState, r: Stat, k: nat)
    requires
        s.pending == Pending::CurStat,
        s.root == Some(r),
        k <= s.todo.len(),
        forall|i: int|
            0 <= i < k ==> #[trigger] s.todo[s.todo.len() - 1 - i] == Task::Step(Part::Parent),
    ensures
        answered(s, r, k + 1) == advance(
            WalkState { todo: s.todo.subrange(0, s.todo.len() - k), pending: Pending::Ready, ..s },
        ),
    decreases k,
{
    if k == 0 {
        assert(s.todo.subrange(0, s.todo.len() as int) =~= s.todo);
    } else {
        let len = s.todo.len();
        assert(s.todo[len - 1 - 0] == Task::Step(Part::Parent));
        assert(s.todo.last() == s.todo[len - 1]);
        let s1 = WalkState { todo: s.todo.drop_last(), pending: Pending::CurStat, ..s };
        assert(step(s, Observed::Stat(r)).0 == s1);
        assert forall|i: int| 0 <= i < k - 1 implies #[trigger] s1.todo[s1.todo.len() - 1 - i]
            == Task::Step(Part::Parent) by {
            assert(s1.todo[s1.todo.len() - 1 - i] == s.todo[len - 1 - (i + 1)]);
        }
        lemma_parents_at_root(s1, r, (k - 1) as nat);
        assert(s1.todo.subrange(0, s1.todo.len() - (k - 1)) =~= s.todo.subrange(0, len - k));
    }
}

/// A path that starts with `/` is read from the root: for every goal, the
/// first action of its walk replaces the base directory with the root.
pub proof fn lemma_absolute_starts_at_root(
    goal: Goal,
    p: Seq<u8>,
    root: Option<Stat>,
    retries: nat,
)
    requires
        has_root(p),
    ensures
        advance(start(goal, p, root, retries)).1 == Act::OpenRoot,
{
    let ps = parts(p);
    assert(ps[0] == Part::Root) by {
        assert(lead_parts(p) == seq![Part::Root]);
        assert(ps[0] == lead_parts(p)[0]);
    }
    let walk = if goal == Goal::Dir {
        ps
    } else {
        split_parts(ps).0
    };
    assert(walk.len() >= 1 && walk[0] == Part::Root) by {
        if goal != Goal::Dir && ps.len() > 0 && ps.last() is Name {
            assert(ps.len() >= 2) by {
                if ps.len() == 1 {
                    assert(ps.last() == ps[0]);
                }
            }
            assert(walk[0] == ps[0]);
        }
    }
    lemma_stack_of(walk);
    let s = start(goal, p, root, retries);
    assert(s.todo.last() == stack_of(walk)[walk.len() - 1]);
}

/// Absolute link targets are read from the root: when the walker reads a
/// symbolic link whose target starts with `/`, its next action replaces the
/// current directory with the root. A link met on the way leaves as work
/// the rest of the target's components, then the end of the expansion, then
/// what remained of the path. A final link goes on as an `open` of the
/// target itself, with the root's status kept and one retry fewer.
pub proof fn lemma_absolute_target(s: WalkState, t: Seq<u8>)
    requires
        inv(s),
        s.pending == Pending::Target || s.pending == Pending::FinalTarget,
        has_root(t),
    ensures
        s.pending == Pending::Target || s.retries > 1 ==> step(s, Observed::Target(t)).1
            == Act::OpenRoot,
        s.pending == Pending::Target ==> step(s, Observed::Target(t)).0 == (WalkState {
            todo: (s.todo.push(Task::Leave) + stack_of(parts(t))).drop_last(),
            paths: s.paths.push(t),
            counter: (s.counter - 1) as nat,
            pending: Pending::Ready,
            ..s
        }),
        s.pending == Pending::FinalTarget && s.retries > 1 ==> step(s, Observed::Target(t))
            == advance(start(Goal::File, t, s.root, (s.retries - 1) as nat)),
{
    if s.pending == Pending::Target {
        let ps = parts(t);
        assert(ps[0] == Part::Root) by {
            assert(lead_parts(t) == seq![Part::Root]);
            assert(ps[0] == lead_parts(t)[0]);
        }
        lemma_stack_of(ps);
        let todo = s.todo.push(Task::Leave) + stack_of(ps);
        assert(todo.last() == stack_of(ps)[ps.len() - 1]);
    } else if s.retries > 1 {
        lemma_absolute_starts_at_root(Goal::File, t, s.root, (s.retries - 1) as nat);
    }
}

/// Bounded work: at most `MAX_LOOP` symbolic-link expansions are ever
/// nested in one walk; the budget left is `MAX_LOOP` less the expansions in
/// progress, so it is whole again once the directory holding the final name
/// is reached; and a link met with the budget spent fails the walk with the
/// budget error instead of being read.
pub proof fn lemma_bounded_expansion(s: WalkState)
    requires
        inv(s),
    ensures
        leaves(s.todo) <= MAX_LOOP,
        s.counter == MAX_LOOP - leaves(s.todo),
        s.pending == Pending::FinalLink ==> s.counter == MAX_LOOP,
        s.paths.len() <= MAX_LOOP + 1,
        s.pending == Pending::Link && s.counter == 0 ==> step(s, Observed::IsLink(true)).1
            == Act::Fail(Fault::TooManyLoops(s.paths.last())),
        s.pending == Pending::FinalTarget && s.retries <= 1 ==> forall|t: Seq<u8>|
            #![auto]
            step(s, Observed::Target(t)).1 == Act::Fail(Fault::TooManyLoops(t)),
{
}

/// The final open never follows a link: the walker asks to open the final
/// name only right after that name was seen not to be a symbolic link.
pub proof fn lemma_final_nofollow(s: WalkState, ev: Observed)
    requires
        inv(s),
        accepts(s, ev),
        step(s, ev).1 is OpenFile,
    ensures
        s.pending == Pending::FinalLink,
        ev == Observed::IsLink(false),
        step(s, ev).1 == Act::OpenFile(s.last),
{
    lemma_confined(s, ev);
}

/// The names `up`, listed from a directory upward, as parts from the top
/// down.
pub open spec fn down_parts(up: Seq<Seq<u8>>) -> Seq<Part> {
    Seq::new(up.len(), |i: int| Part::Name(up[up.len() - 1 - i]))
}

proof fn lemma_segments_append(q: Seq<u8>, n: Seq<u8>)
    requires
        forall|k: int| 0 <= k < n.len() ==> n[k] != SLASH,
    ensures
        segments(q + n) == segments(q).update(
            segments(q).len() - 1,
            segments(q).last() + n,
        ),
    decreases n.len(),
{
    lemma_segments_nonempty(q);
    let sq = segments(q);
    if n.len() == 0 {
        assert(q + n =~= q);
        assert(sq.last() + n =~= sq.last());
        assert(sq.update(sq.len() - 1, sq.last()) =~= sq);
    } else {
        let m = n.drop_last();
        lemma_segments_append(q, m);
        assert((q + n).drop_last() =~= q + m);
        assert((q + n).last() == n.last());
        let prev = segments(q + m);
        assert(prev.last() == sq.last() + m);
        assert(prev.last().push(n.last()) =~= sq.last() + n);
        assert(prev.update(prev.len() - 1, prev.last().push(n.last())) =~= sq.update(
            sq.len() - 1,
            sq.last() + n,
        ));
    }
}

proof fn lemma_joined_up(up: Seq<Seq<u8>>)
    requires
        forall|i: int| 0 <= i < up.len() ==> is_plain_name(#[trigger] up[i]),
    ensures
        segments(joined_up(up)) == seq![Seq::<u8>::empty()] + Seq::new(
            up.len(),
            |i: int| up[up.len() - 1 - i],
        ),
        parts_of_segments(segments(joined_up(up))) == down_parts(up),
        up.len() > 0 ==> joined_up(up).len() > 0 && joined_up(up)[0] == SLASH,
    decreases up.len(),
{
    let downs = Seq::new(up.len(), |i: int| up[up.len() - 1 - i]);
    if up.len() == 0 {
        assert(segments(Seq::<u8>::empty()) == seq![Seq::<u8>::empty()]);
        assert(seq![Seq::<u8>::empty()] + downs =~= seq![Seq::<u8>::empty()]);
        let segs = seq![Seq::<u8>::empty()];
        assert(segs.drop_last() =~= Seq::<Seq<u8>>::empty());
        assert(parts_of_segments(segs) == parts_of_segments(segs.drop_last()) + segment_parts(
            segs.last(),
        ));
        assert(parts_of_segments(segs) =~= down_parts(up));
    } else {
        let tail = up.subrange(1, up.len() as int);
        assert forall|i: int| 0 <= i < tail.len() implies is_plain_name(#[trigger] tail[i]) by {
            assert(tail[i] == up[i + 1]);
        }
        lemma_joined_up(tail);
        let jt = joined_up(tail);
        let n = up[0];
        assert(is_plain_name(n));
        let with_sep = jt.push(SLASH);
        assert(with_sep.drop_last() =~= jt);
        lemma_segments_nonempty(jt);
        assert(segments(with_sep) == segments(jt).push(Seq::<u8>::empty()));
        assert(jt + seq![SLASH] + n =~= with_sep + n);
        lemma_segments_append(with_sep, n);
        let st = segments(jt);
        let tdowns = Seq::new(tail.len(), |i: int| tail[tail.len() - 1 - i]);
        assert(segments(with_sep).last() + n =~= n);
        assert(segments(joined_up(up)) =~= st.push(n));
        assert(st.push(n) =~= seq![Seq::<u8>::empty()] + downs) by {
            assert forall|i: int| 0 <= i < downs.len() - 1 implies downs[i] == tdowns[i] by {
                assert(tail[tail.len() - 1 - i] == up[up.len() - 1 - i]);
            }
        }
        let segs = st.push(n);
        assert(segs.drop_last() =~= st);
        assert(segment_parts(n) == seq![Part::Name(n)]) by {
            assert(n.len() > 0);
        }
        assert(parts_of_segments(segs) == parts_of_segments(st) + seq![Part::Name(n)]);
        assert(parts_of_segments(segs) =~= down_parts(up)) by {
            assert forall|i: int| 0 <= i < up.len() - 1 implies down_parts(tail)[i]
                == down_parts(up)[i] by {
                assert(tail[tail.len() - 1 - i] == up[up.len() - 1 - i]);
            }
        }
        if tail.len() == 0 {
            assert(jt == Seq::<u8>::empty());
            assert(joined_up(up)[0] == (jt + seq![SLASH] + n)[0]);
        } else {
            assert(joined_up(up)[0] == (jt + seq![SLASH] + n)[0]);
        }
    }
}

/// `full_path` round trip: the path built from the names of a directory
/// and its ancestors up to the root decomposes into the root followed by
/// those names from the top down. Walked again, it descends through the
/// same names one plain lookup at a time.
pub proof fn lemma_full_path_round_trip(up: Seq<Seq<u8>>)
    requires
        forall|i: int| 0 <= i < up.len() ==> is_plain_name(#[trigger] up[i]),
    ensures
        parts(full_path_bytes(up, None)) == seq![Part::Root] + down_parts(up),
        has_root(full_path_bytes(up, None)),
{
    lemma_joined_up(up);
    if up.len() == 0 {
        let p = seq![SLASH];
        assert(full_path_bytes(up, None) == p);
        assert(p.drop_last() =~= Seq::<u8>::empty());
        assert(segments(p) == seq![Seq::<u8>::empty(), Seq::<u8>::empty()]) by {
            assert(segments(Seq::<u8>::empty()) == seq![Seq::<u8>::empty()]);
            assert(seq![Seq::<u8>::empty()].push(Seq::<u8>::empty()) =~= seq![
                Seq::<u8>::empty(),
                Seq::<u8>::empty(),
            ]);
        }
        let segs = segments(p);
        assert(segs.drop_last() =~= seq![Seq::<u8>::empty()]);
        assert(seq![Seq::<u8>::empty()].drop_last() =~= Seq::<Seq<u8>>::empty());
        assert(parts_of_segments(seq![Seq::<u8>::empty()]) == parts_of_segments(
            Seq::<Seq<u8>>::empty(),
        ) + segment_parts(Seq::<u8>::empty()));
        assert(parts_of_segments(segs) =~= Seq::<Part>::empty());
        assert(parts(p) =~= seq![Part::Root] + down_parts(up));
    } else {
        assert(full_path_bytes(up, None) == joined_up(up));
    }
}

} // verus!
