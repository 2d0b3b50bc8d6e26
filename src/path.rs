//! Byte paths and their decomposition into components.
use vstd::prelude::*;

verus! {

/// The separator byte `/`.
pub const SLASH: u8 = 47;

/// The byte `.`.
pub const DOT: u8 = 46;

/// One element of a decomposed path.
#[derive(Debug)]
pub enum Component {
    /// A leading `/`.
    RootDir,
    /// A `.` that opens a relative path.
    CurDir,
    /// A `..`.
    ParentDir,
    /// Any other name: a non-empty byte string without `/`.
    Normal(Vec<u8>),
}

/// The mathematical value of a component.
pub enum Part {
    Root,
    Cur,
    Parent,
    Name(Seq<u8>),
}

impl View for Component {
    type V = Part;

    open spec fn view(&self) -> Part {
        match self {
            Component::RootDir => Part::Root,
            Component::CurDir => Part::Cur,
            Component::ParentDir => Part::Parent,
            Component::Normal(n) => Part::Name(n@),
        }
    }
}

/// The values of a sequence of components.
pub open spec fn parts_view(v: Seq<Component>) -> Seq<Part> {
    v.map_values(|c: Component| c@)
}

/// A name that a single directory lookup can take: not empty, not `.` or
/// `..`, and without a separator.
pub open spec fn is_plain_name(n: Seq<u8>) -> bool {
    &&& n.len() > 0
    &&& n != seq![DOT]
    &&& n != seq![DOT, DOT]
    &&& forall|i: int| 0 <= i < n.len() ==> n[i] != SLASH
}

/// The pieces of `p` between separators, in order; empty pieces included.
pub open spec fn segments(p: Seq<u8>) -> Seq<Seq<u8>>
    decreases p.len(),
{
    if p.len() == 0 {
        seq![Seq::empty()]
    } else {
        let prev = segments(p.drop_last());
        if p.last() == SLASH {
            prev.push(Seq::empty())
        } else {
            prev.update(prev.len() - 1, prev.last().push(p.last()))
        }
    }
}

/// What a piece between separators contributes: nothing for an empty piece
/// or `.`, a parent step for `..`, a name otherwise.
pub open spec fn segment_parts(s: Seq<u8>) -> Seq<Part> {
    if s.len() == 0 || s == seq![DOT] {
        Seq::empty()
    } else if s == seq![DOT, DOT] {
        seq![Part::Parent]
    } else {
        seq![Part::Name(s)]
    }
}

/// The parts of a sequence of pieces, in order.
pub open spec fn parts_of_segments(segs: Seq<Seq<u8>>) -> Seq<Part>
    decreases segs.len(),
{
    if segs.len() == 0 {
        Seq::empty()
    } else {
        parts_of_segments(segs.drop_last()) + segment_parts(segs.last())
    }
}

/// `p` starts at the root.
pub open spec fn has_root(p: Seq<u8>) -> bool {
    p.len() > 0 && p[0] == SLASH
}

/// `p` is relative and its first piece is `.`.
pub open spec fn leading_cur(p: Seq<u8>) -> bool {
    &&& !has_root(p)
    &&& p.len() > 0
    &&& p[0] == DOT
    &&& (p.len() == 1 || p[1] == SLASH)
}

/// The leading marker of `p`: the root, a `.`, or nothing.
pub open spec fn lead_parts(p: Seq<u8>) -> Seq<Part> {
    if has_root(p) {
        seq![Part::Root]
    } else if leading_cur(p) {
        seq![Part::Cur]
    } else {
        Seq::empty()
    }
}

/// The components of `p`: a leading marker, then one part for each piece
/// between separators that is neither empty nor `.`.
pub open spec fn parts(p: Seq<u8>) -> Seq<Part> {
    lead_parts(p) + parts_of_segments(segments(p))
}

/// Every name among `ps` is plain.
pub open spec fn parts_plain(ps: Seq<Part>) -> bool {
    forall|i: int|
        0 <= i < ps.len() ==> (#[trigger] ps[i] matches Part::Name(n) ==> is_plain_name(n))
}

proof fn lemma_segments_no_slash(p: Seq<u8>)
    ensures
        forall|j: int, k: int|
            0 <= j < segments(p).len() && 0 <= k < segments(p)[j].len() ==> #[trigger] segments(
                p,
            )[j][k] != SLASH,
    decreases p.len(),
{
    if p.len() > 0 {
        lemma_segments_no_slash(p.drop_last());
        lemma_segments_nonempty(p.drop_last());
    }
}

proof fn lemma_parts_of_segments_plain(segs: Seq<Seq<u8>>)
    requires
        forall|j: int, k: int|
            0 <= j < segs.len() && 0 <= k < segs[j].len() ==> #[trigger] segs[j][k] != SLASH,
    ensures
        parts_plain(parts_of_segments(segs)),
    decreases segs.len(),
{
    if segs.len() > 0 {
        let init = segs.drop_last();
        assert forall|j: int, k: int|
            0 <= j < init.len() && 0 <= k < init[j].len() implies #[trigger] init[j][k]
            != SLASH by {
            assert(init[j] == segs[j]);
        }
        lemma_parts_of_segments_plain(init);
        let s = segs.last();
        assert(segs[segs.len() - 1] == s);
        let a = parts_of_segments(init);
        let b = segment_parts(s);
        assert(parts_plain(b));
        assert forall|i: int| 0 <= i < (a + b).len() implies (#[trigger] (a + b)[i] matches Part::Name(
            n,
        ) ==> is_plain_name(n)) by {
            if i >= a.len() {
                assert((a + b)[i] == b[i - a.len()]);
            } else {
                assert((a + b)[i] == a[i]);
            }
        }
    }
}

/// Every name that a path decomposes into can be looked up in one directory
/// step: it is not empty, not `.` or `..`, and holds no separator.
pub proof fn lemma_parts_plain(p: Seq<u8>)
    ensures
        parts_plain(parts(p)),
{
    lemma_segments_no_slash(p);
    lemma_parts_of_segments_plain(segments(p));
    let a = lead_parts(p);
    let b = parts_of_segments(segments(p));
    assert forall|i: int| 0 <= i < (a + b).len() implies (#[trigger] (a + b)[i] matches Part::Name(
        n,
    ) ==> is_plain_name(n)) by {
        if i >= a.len() {
            assert((a + b)[i] == b[i - a.len()]);
        } else {
            assert((a + b)[i] == a[i]);
        }
    }
}

/// A path always has at least one piece between separators.
pub proof fn lemma_segments_nonempty(p: Seq<u8>)
    ensures
        segments(p).len() >= 1,
    decreases p.len(),
{
    if p.len() > 0 {
        lemma_segments_nonempty(p.drop_last());
    }
}

/// The component of one piece between separators, if it yields one.
fn segment_component(s: Vec<u8>) -> (r: Option<Component>)
    ensures
        segment_parts(s@) == (match r {
            None => Seq::<Part>::empty(),
            Some(c) => seq![c@],
        }),
{
    if s.len() == 0 {
        None
    } else if s.len() == 1 && s[0] == DOT {
        assert(s@ =~= seq![DOT]);
        None
    } else if s.len() == 2 && s[0] == DOT && s[1] == DOT {
        assert(s@ =~= seq![DOT, DOT]);
        Some(Component::ParentDir)
    } else {
        assert(s@ != seq![DOT]) by {
            if s@ == seq![DOT] {
                assert(s@.len() == 1);
            }
        }
        assert(s@ != seq![DOT, DOT]) by {
            if s@ == seq![DOT, DOT] {
                assert(s@.len() == 2 && s@[0] == DOT && s@[1] == DOT);
            }
        }
        Some(Component::Normal(s))
    }
}

/// Splits `p` into its components.
pub fn components(p: &[u8]) -> (r: Vec<Component>)
    ensures
        parts_view(r@) == parts(p@),
{
    let mut out: Vec<Component> = Vec::new();
    let n: usize = p.len();
    if n > 0 && p[0] == SLASH {
        out.push(Component::RootDir);
    } else if n > 0 && p[0] == DOT && (n == 1 || p[1] == SLASH) {
        out.push(Component::CurDir);
    }
    assert(parts_view(out@) =~= lead_parts(p@));
    let mut seg: Vec<u8> = Vec::new();
    let mut i: usize = 0;
    proof {
        assert(p@.subrange(0, 0) =~= Seq::<u8>::empty());
        assert(segments(Seq::<u8>::empty()).drop_last() =~= Seq::<Seq<u8>>::empty());
        assert(seg@ =~= Seq::<u8>::empty());
        assert(lead_parts(p@) + Seq::<Part>::empty() =~= lead_parts(p@));
    }
    while i < n
        invariant
            n == p.len(),
            i <= n,
            seg@ == segments(p@.subrange(0, i as int)).last(),
            parts_view(out@) == lead_parts(p@) + parts_of_segments(
                segments(p@.subrange(0, i as int)).drop_last(),
            ),
        decreases n - i,
    {
        let ghost pre = p@.subrange(0, i as int);
        let ghost next = p@.subrange(0, i as int + 1);
        proof {
            lemma_segments_nonempty(pre);
            assert(next.drop_last() =~= pre);
            assert(next.last() == p@[i as int]);
        }
        let ghost prev_out = parts_view(out@);
        if p[i] == SLASH {
            let c = segment_component(seg);
            match c {
                Some(c) => {
                    out.push(c);
                },
                None => {},
            }
            seg = Vec::new();
            proof {
                let segs = segments(pre);
                assert(segments(next) == segs.push(Seq::<u8>::empty()));
                assert(segs.push(Seq::<u8>::empty()).drop_last() =~= segs);
                assert(segs =~= segs.drop_last().push(segs.last()));
                assert(parts_of_segments(segs) == parts_of_segments(segs.drop_last())
                    + segment_parts(segs.last()));
                assert(parts_view(out@) =~= prev_out + segment_parts(segs.last()));
                assert(parts_view(out@) =~= lead_parts(p@) + parts_of_segments(
                    segments(next).drop_last()));
                assert(seg@ =~= segments(next).last());
            }
        } else {
            let b = p[i];
            seg.push(b);
            proof {
                let segs = segments(pre);
                let upd = segs.update(segs.len() - 1, segs.last().push(b));
                assert(segments(next) == upd);
                assert(upd.drop_last() =~= segs.drop_last());
            }
        }
        i = i + 1;
    }
    proof {
        let segs = segments(p@.subrange(0, n as int));
        lemma_segments_nonempty(p@.subrange(0, n as int));
        assert(p@.subrange(0, n as int) =~= p@);
        assert(segs == segments(p@));
        assert(segs =~= segs.drop_last().push(segs.last()));
        assert(parts_of_segments(segs) == parts_of_segments(segs.drop_last())
            + segment_parts(segs.last()));
    }
    let ghost prev_out = parts_view(out@);
    let ghost last_seg = seg@;
    let c = segment_component(seg);
    match c {
        Some(c) => {
            out.push(c);
        },
        None => {},
    }
    assert(parts_view(out@) =~= prev_out + segment_parts(last_seg));
    assert(parts_view(out@) =~= parts(p@));
    out
}

} // verus!
