//! Key-expression intersection: whether two resource-name expressions can
//! match a common concrete key. A name is a `/`-separated list of
//! segments; `**` matches any suffix of segments, empty included, `*`
//! matches exactly one segment, and any other segment matches literally.

use vstd::prelude::*;
use crate::types::{bytes_eq, clone_bytes};

verus! {

/// The `/` separator byte.
pub const SLASH: u8 = 47;

/// The `*` wildcard byte.
pub const STAR: u8 = 42;

/// A segment matching any single segment.
pub open spec fn spec_star() -> Seq<u8> {
    seq![STAR]
}

/// A segment matching any suffix of segments.
pub open spec fn spec_dstar() -> Seq<u8> {
    seq![STAR, STAR]
}

/// The index of the first separator, or a negative value when none.
pub open spec fn spec_find_slash(s: Seq<u8>) -> int
    decreases s.len(),
{
    if s.len() == 0 {
        -1
    } else if s[0] == SLASH {
        0
    } else {
        let r = spec_find_slash(s.drop_first());
        if r < 0 {
            -1
        } else {
            r + 1
        }
    }
}

/// The first separator really is the first: nothing before it separates.
proof fn lemma_find_slash(t: Seq<u8>, k: int)
    requires
        0 <= k <= t.len(),
        forall|j: int| 0 <= j < k ==> t[j] != SLASH,
        k < t.len() ==> t[k] == SLASH,
    ensures
        spec_find_slash(t) == if k < t.len() {
            k
        } else {
            -1int
        },
    decreases k,
{
    if t.len() == 0 {
    } else if k == 0 {
    } else {
        assert(t[0] != SLASH);
        assert forall|j: int| 0 <= j < k - 1 implies t.drop_first()[j] != SLASH by {
            assert(t.drop_first()[j] == t[j + 1]);
        }
        if k < t.len() {
            assert(t.drop_first()[k - 1] == t[k]);
        }
        lemma_find_slash(t.drop_first(), k - 1);
    }
}

/// The segments of a name, split on `/`; empty segments are kept.
pub open spec fn spec_split(s: Seq<u8>) -> Seq<Seq<u8>>
    decreases s.len(),
{
    let i = spec_find_slash(s);
    if i < 0 || i >= s.len() {
        seq![s]
    } else {
        seq![s.subrange(0, i)] + spec_split(s.subrange(i + 1, s.len() as int))
    }
}

/// A name without separators splits into itself alone.
pub proof fn lemma_split_single(seg: Seq<u8>)
    requires
        forall|j: int| 0 <= j < seg.len() ==> seg[j] != SLASH,
    ensures
        spec_split(seg) == seq![seg],
{
    lemma_find_slash(seg, seg.len() as int);
}

/// Splitting starts at the first separator: a separator-free head
/// segment comes off whole.
pub proof fn lemma_split_head(seg: Seq<u8>, rest: Seq<u8>)
    requires
        forall|j: int| 0 <= j < seg.len() ==> seg[j] != SLASH,
    ensures
        spec_split(seg + seq![SLASH] + rest) == seq![seg] + spec_split(rest),
{
    let s = seg + seq![SLASH] + rest;
    assert forall|j: int| 0 <= j < seg.len() implies s[j] != SLASH by {
        assert(s[j] == seg[j]);
    }
    assert(s[seg.len() as int] == SLASH);
    lemma_find_slash(s, seg.len() as int);
    assert(s.subrange(0, seg.len() as int) =~= seg);
    assert(s.subrange(seg.len() as int + 1, s.len() as int) =~= rest);
    assert(spec_split(s) =~= seq![seg] + spec_split(rest));
}

/// The byte sequences of a segment vector.
pub open spec fn segs_view(s: Seq<Vec<u8>>) -> Seq<Seq<u8>> {
    Seq::new(s.len(), |i: int| s[i]@)
}

/// Whether two segment lists can match a common concrete key.
pub open spec fn spec_seg_intersect(a: Seq<Seq<u8>>, b: Seq<Seq<u8>>) -> bool
    decreases a.len() + b.len(),
{
    if a.len() == 0 && b.len() == 0 {
        true
    } else if a.len() == 0 {
        b[0] == spec_dstar() && spec_seg_intersect(a, b.drop_first())
    } else if b.len() == 0 {
        a[0] == spec_dstar() && spec_seg_intersect(a.drop_first(), b)
    } else if a[0] == spec_dstar() {
        spec_seg_intersect(a.drop_first(), b) || spec_seg_intersect(a, b.drop_first())
    } else if b[0] == spec_dstar() {
        spec_seg_intersect(a.drop_first(), b) || spec_seg_intersect(a, b.drop_first())
    } else if a[0] == spec_star() || b[0] == spec_star() || a[0] == b[0] {
        spec_seg_intersect(a.drop_first(), b.drop_first())
    } else {
        false
    }
}

/// Whether two names can match a common concrete key.
pub open spec fn spec_intersect(a: Seq<u8>, b: Seq<u8>) -> bool {
    spec_seg_intersect(spec_split(a), spec_split(b))
}

/// A copy of `s[from..to]`.
fn copy_range(s: &Vec<u8>, from: usize, to: usize) -> (r: Vec<u8>)
    requires
        from <= to <= s@.len(),
    ensures
        r@ == s@.subrange(from as int, to as int),
{
    let mut r: Vec<u8> = Vec::new();
    let mut i: usize = from;
    while i < to
        invariant
            from <= i <= to <= s@.len(),
            r@ =~= s@.subrange(from as int, i as int),
        decreases to - i,
    {
        r.push(s[i]);
        assert(r@ =~= s@.subrange(from as int, i as int + 1));
        i += 1;
    }
    r
}

/// Splits the tail of a name, from byte `from` on, into its segments.
fn split_from(s: &Vec<u8>, from: usize) -> (r: Vec<Vec<u8>>)
    requires
        from <= s@.len(),
    ensures
        segs_view(r@) =~= spec_split(s@.skip(from as int)),
    decreases s@.len() - from,
{
    let ghost t = s@.skip(from as int);
    let mut i: usize = from;
    while i < s.len() && s[i] != SLASH
        invariant
            from <= i <= s@.len(),
            forall|j: int| from <= j < i ==> s@[j] != SLASH,
        decreases s@.len() - i,
    {
        i += 1;
    }
    proof {
        assert forall|j: int| 0 <= j < i - from implies t[j] != SLASH by {
            assert(t[j] == s@[from + j]);
        }
        if i < s@.len() {
            assert(t[i - from] == s@[i as int]);
        }
        lemma_find_slash(t, i - from);
    }
    if i == s.len() {
        let seg = copy_range(s, from, i);
        let mut r: Vec<Vec<u8>> = Vec::new();
        r.push(seg);
        proof {
            assert(t.subrange(0, t.len() as int) =~= t);
            assert(segs_view(r@) =~= seq![t]);
        }
        r
    } else {
        let seg = copy_range(s, from, i);
        let rest = split_from(s, i + 1);
        let mut r: Vec<Vec<u8>> = Vec::new();
        r.push(seg);
        let mut k: usize = 0;
        while k < rest.len()
            invariant
                k <= rest@.len(),
                r@.len() == k + 1,
                r@[0]@ == t.subrange(0, i - from),
                forall|j: int| 0 <= j < k ==> r@[j + 1]@ == rest@[j]@,
            decreases rest@.len() - k,
        {
            r.push(clone_bytes(&rest[k]));
            k += 1;
        }
        proof {
            assert(t.subrange(0, i - from) =~= s@.subrange(from as int, i as int));
            assert(t.subrange(i - from + 1, t.len() as int) =~= s@.skip(i as int + 1));
            assert(segs_view(r@) =~= seq![t.subrange(0, i - from)] + segs_view(rest@));
            assert(segs_view(r@) =~= spec_split(t));
        }
        r
    }
}

/// Whether a segment is the suffix wildcard `**`.
fn is_dstar(seg: &Vec<u8>) -> (r: bool)
    ensures
        r == (seg@ == spec_dstar()),
{
    if seg.len() == 2 && seg[0] == STAR && seg[1] == STAR {
        assert(seg@ =~= spec_dstar());
        true
    } else {
        assert(seg@ != spec_dstar());
        false
    }
}

/// Whether a segment is the single-segment wildcard `*`.
fn is_star(seg: &Vec<u8>) -> (r: bool)
    ensures
        r == (seg@ == spec_star()),
{
    if seg.len() == 1 && seg[0] == STAR {
        assert(seg@ =~= spec_star());
        true
    } else {
        assert(seg@ != spec_star());
        false
    }
}

/// Whether the segment lists, from positions `i` and `j` on, can match a
/// common key.
fn seg_intersect_from(a: &Vec<Vec<u8>>, b: &Vec<Vec<u8>>, i: usize, j: usize) -> (r: bool)
    requires
        i <= a@.len(),
        j <= b@.len(),
    ensures
        r == spec_seg_intersect(segs_view(a@).skip(i as int), segs_view(b@).skip(j as int)),
    decreases a@.len() - i + b@.len() - j,
{
    let ghost sa = segs_view(a@).skip(i as int);
    let ghost sb = segs_view(b@).skip(j as int);
    proof {
        if i < a@.len() {
            assert(sa[0] == a@[i as int]@);
            assert(sa.drop_first() =~= segs_view(a@).skip(i as int + 1));
        }
        if j < b@.len() {
            assert(sb[0] == b@[j as int]@);
            assert(sb.drop_first() =~= segs_view(b@).skip(j as int + 1));
        }
    }
    if i == a.len() && j == b.len() {
        true
    } else if i == a.len() {
        is_dstar(&b[j]) && seg_intersect_from(a, b, i, j + 1)
    } else if j == b.len() {
        is_dstar(&a[i]) && seg_intersect_from(a, b, i + 1, j)
    } else if is_dstar(&a[i]) {
        seg_intersect_from(a, b, i + 1, j) || seg_intersect_from(a, b, i, j + 1)
    } else if is_dstar(&b[j]) {
        seg_intersect_from(a, b, i + 1, j) || seg_intersect_from(a, b, i, j + 1)
    } else if is_star(&a[i]) || is_star(&b[j]) || bytes_eq(&a[i], &b[j]) {
        seg_intersect_from(a, b, i + 1, j + 1)
    } else {
        false
    }
}

/// Whether two names can match a common concrete key, as
/// [`spec_intersect`] defines it.
pub fn intersect(a: &Vec<u8>, b: &Vec<u8>) -> (r: bool)
    ensures
        r == spec_intersect(a@, b@),
{
    let sa = split_from(a, 0);
    let sb = split_from(b, 0);
    proof {
        assert(a@.skip(0) =~= a@);
        assert(b@.skip(0) =~= b@);
        assert(segs_view(sa@).skip(0) =~= segs_view(sa@));
        assert(segs_view(sb@).skip(0) =~= segs_view(sb@));
    }
    seg_intersect_from(&sa, &sb, 0, 0)
}

} // verus!
