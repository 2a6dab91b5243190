//! The request-path model: which decoded path segments may be joined onto the
//! fixed base directory, and the path that the join produces.

use vstd::prelude::*;

verus! {

/// The fixed base directory, as a sequence of characters: `static`.
pub open spec fn base_dir() -> Seq<char> {
    seq!['s', 't', 'a', 't', 'i', 'c']
}

/// A parent-directory segment: exactly the two characters `..`.
pub open spec fn is_parent_segment(s: Seq<char>) -> bool {
    s.len() == 2 && s[0] == '.' && s[1] == '.'
}

/// A segment may be joined onto the base directory when it is not a
/// parent-directory segment and carries no path separator of its own.
pub open spec fn segment_ok(s: Seq<char>) -> bool {
    &&& !is_parent_segment(s)
    &&& forall|i: int| 0 <= i < s.len() ==> s[i] != '/'
}

/// Every segment of the request may be joined onto the base directory.
pub open spec fn segments_ok(segs: Seq<Seq<char>>) -> bool {
    forall|i: int| 0 <= i < segs.len() ==> segment_ok(#[trigger] segs[i])
}

/// The characters that the segments contribute to the joined path:
/// a `/` in front of each segment, in order.
pub open spec fn join_rest(segs: Seq<Seq<char>>) -> Seq<char>
    decreases segs.len(),
{
    if segs.len() == 0 {
        Seq::empty()
    } else {
        seq!['/'] + segs[0] + join_rest(segs.drop_first())
    }
}

/// The path that a request for `segs` resolves to: the base directory with
/// each segment appended behind a `/`.
pub open spec fn base_join(segs: Seq<Seq<char>>) -> Seq<char> {
    base_dir() + join_rest(segs)
}

/// What resolution returns: the joined path when every segment is
/// acceptable, nothing otherwise.
pub open spec fn resolve_spec(segs: Seq<Seq<char>>) -> Option<Seq<char>> {
    if segments_ok(segs) {
        Some(base_join(segs))
    } else {
        None
    }
}

/// The segments of a path, read back by cutting it at every `/`. Splitting
/// the empty sequence gives one empty segment, as splitting the text between
/// two separators always does.
pub open spec fn split_slash(s: Seq<char>) -> Seq<Seq<char>>
    decreases s.len(),
{
    if s.len() == 0 {
        seq![Seq::<char>::empty()]
    } else if s[0] == '/' {
        seq![Seq::<char>::empty()] + split_slash(s.drop_first())
    } else {
        let rest = split_slash(s.drop_first());
        seq![seq![s[0]] + rest[0]] + rest.drop_first()
    }
}

/// Splitting `head + join_rest(tail)` recovers `head` and then `tail`,
/// provided no segment among them contains a separator.
proof fn lemma_split_join(head: Seq<char>, tail: Seq<Seq<char>>)
    requires
        forall|i: int| 0 <= i < head.len() ==> head[i] != '/',
        forall|i: int, j: int|
            0 <= i < tail.len() && 0 <= j < tail[i].len() ==> #[trigger] tail[i][j] != '/',
    ensures
        split_slash(head + join_rest(tail)) == seq![head] + tail,
    decreases tail.len(), head.len(),
{
    if head.len() > 0 {
        let s = head + join_rest(tail);
        assert(s[0] == head[0]);
        assert(s.drop_first() =~= head.drop_first() + join_rest(tail));
        lemma_split_join(head.drop_first(), tail);
        let rest = split_slash(s.drop_first());
        assert(rest == seq![head.drop_first()] + tail);
        assert(rest[0] == head.drop_first());
        assert(seq![head[0]] + rest[0] =~= head);
        assert(rest.drop_first() =~= tail);
        assert(split_slash(s) =~= seq![head] + tail);
    } else {
        if tail.len() == 0 {
            assert(head + join_rest(tail) =~= Seq::<char>::empty());
            assert(split_slash(head + join_rest(tail)) =~= seq![head] + tail);
        } else {
            let s = head + join_rest(tail);
            assert(s =~= seq!['/'] + (tail[0] + join_rest(tail.drop_first())));
            assert(s[0] == '/');
            assert(s.drop_first() =~= tail[0] + join_rest(tail.drop_first()));
            assert(forall|i: int, j: int|
                0 <= i < tail.drop_first().len() && 0 <= j < tail.drop_first()[i].len()
                    ==> #[trigger] tail.drop_first()[i][j] != '/');
            lemma_split_join(tail[0], tail.drop_first());
            assert(head =~= Seq::<char>::empty());
            assert(tail =~= seq![tail[0]] + tail.drop_first());
            assert(split_slash(s) =~~= seq![head] + tail);
        }
    }
}

/// Law: a resolved path never escapes the base directory. Cutting the joined
/// path back at every `/` yields exactly the base directory followed by the
/// request's own segments, so the path begins with the base directory and no
/// parent-directory segment survives anywhere in it.
pub proof fn lemma_resolved_within_base(segs: Seq<Seq<char>>)
    requires
        segments_ok(segs),
    ensures
        split_slash(base_join(segs)) == seq![base_dir()] + segs,
        base_join(segs).take(base_dir().len() as int) == base_dir(),
        forall|i: int| 0 <= i < split_slash(base_join(segs)).len() ==> !is_parent_segment(
            #[trigger] split_slash(base_join(segs))[i],
        ),
{
    assert forall|i: int, j: int|
        0 <= i < segs.len() && 0 <= j < segs[i].len() implies #[trigger] segs[i][j] != '/' by {
        assert(segment_ok(segs[i]));
    }
    lemma_split_join(base_dir(), segs);
    assert(base_join(segs).take(base_dir().len() as int) =~= base_dir());
    let parts = split_slash(base_join(segs));
    assert forall|i: int| 0 <= i < parts.len() implies !is_parent_segment(parts[i]) by {
        if i == 0 {
            assert(parts[0] == base_dir());
        } else {
            assert(parts[i] == segs[i - 1]);
            assert(segment_ok(segs[i - 1]));
        }
    }
}

/// Whether one decoded path segment may be joined onto the base directory.
pub fn check_segment(s: &str) -> (r: bool)
    ensures
        r == segment_ok(s@),
{
    let n = s.unicode_len();
    if n == 2 && s.get_char(0) == '.' && s.get_char(1) == '.' {
        return false;
    }
    let mut i: usize = 0;
    while i < n
        invariant
            n == s@.len(),
            i <= n,
            !is_parent_segment(s@),
            forall|j: int| 0 <= j < i ==> s@[j] != '/',
        decreases n - i,
    {
        if s.get_char(i) == '/' {
            return false;
        }
        i += 1;
    }
    true
}

proof fn lemma_join_rest_push(segs: Seq<Seq<char>>, x: Seq<char>)
    ensures
        join_rest(segs.push(x)) == join_rest(segs) + seq!['/'] + x,
    decreases segs.len(),
{
    if segs.len() == 0 {
        assert(segs.push(x)[0] == x);
        assert(segs.push(x).drop_first() =~= Seq::<Seq<char>>::empty());
        assert(join_rest(segs.push(x)) == seq!['/'] + x + join_rest(segs.push(x).drop_first()));
        assert(join_rest(segs.push(x)) =~= join_rest(segs) + seq!['/'] + x);
    } else {
        assert(segs.push(x)[0] == segs[0]);
        assert(segs.push(x).drop_first() =~= segs.drop_first().push(x));
        lemma_join_rest_push(segs.drop_first(), x);
        assert(join_rest(segs.push(x)) == seq!['/'] + segs[0] + join_rest(
            segs.drop_first().push(x),
        ));
        assert(join_rest(segs.push(x)) =~= join_rest(segs) + seq!['/'] + x);
    }
}

/// Decide whether a request for the given sequence of decoded path segments
/// may be served at all and, when it may, produce the path beneath the base
/// directory at which the file is to be read.
pub fn resolve_static(segments: &Vec<String>) -> (r: Option<String>)
    ensures
        r.deep_view() == resolve_spec(segments.deep_view()),
        r is Some <==> segments_ok(segments.deep_view()),
        r matches Some(p) ==> p@ == base_join(segments.deep_view()),
{
    let ghost gsegs: Seq<Seq<char>> = segments.deep_view();
    let n = segments.len();
    let mut i: usize = 0;
    while i < n
        invariant
            gsegs == segments.deep_view(),
            n == segments@.len(),
            i <= n,
            forall|j: int| 0 <= j < i ==> segment_ok(#[trigger] gsegs[j]),
        decreases n - i,
    {
        if !check_segment(segments[i].as_str()) {
            assert(!segment_ok(gsegs[i as int]));
            return None;
        }
        i += 1;
    }
    assert(segments_ok(gsegs));
    let mut out: String = String::from_str("static");
    proof {
        reveal_strlit("static");
        assert(out@ =~= base_dir());
        assert(gsegs.take(0) =~= Seq::<Seq<char>>::empty());
        assert(out@ =~= base_join(gsegs.take(0)));
    }
    let mut i: usize = 0;
    while i < n
        invariant
            gsegs == segments.deep_view(),
            n == segments@.len(),
            i <= n,
            out@ == base_join(gsegs.take(i as int)),
        decreases n - i,
    {
        out.append("/");
        out.append(segments[i].as_str());
        proof {
            reveal_strlit("/");
            lemma_join_rest_push(gsegs.take(i as int), gsegs[i as int]);
            assert(gsegs.take(i + 1) =~= gsegs.take(i as int).push(gsegs[i as int]));
            assert(out@ =~= base_join(gsegs.take(i + 1)));
        }
        i += 1;
    }
    proof {
        assert(gsegs.take(n as int) =~= gsegs);
    }
    Some(out)
}

} // verus!
