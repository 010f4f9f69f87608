use vstd::prelude::*;

verus! {

/// Single range in a [`CodepointRangeMap`].
#[derive(Clone, Debug, PartialEq, Eq)]
pub struct CodepointRange<T> {
    pub first: u32,
    pub last: u32,
    pub value: T,
}

/// Error returned when a range ends before it starts.
#[derive(Debug, PartialEq, Eq, Structural)]
pub enum RangeError {
    InvalidRange,
}

/// Every range is non-empty, and ranges are sorted and pairwise disjoint.
pub open spec fn sorted_disjoint<T>(s: Seq<CodepointRange<T>>) -> bool {
    &&& forall|i: int| 0 <= i < s.len() ==> (#[trigger] s[i]).first <= s[i].last
    &&& forall|i: int, j: int| 0 <= i < j < s.len() ==> (#[trigger] s[i]).last < (#[trigger] s[j]).first
}

/// Point `p` lies in the range at index `i`.
pub open spec fn in_range<T>(s: Seq<CodepointRange<T>>, i: int, p: int) -> bool {
    0 <= i < s.len() && s[i].first <= p <= s[i].last
}

/// Point `p` lies in some range of `s`.
pub open spec fn covers<T>(s: Seq<CodepointRange<T>>, p: int) -> bool {
    exists|i: int| #[trigger] in_range(s, i, p)
}

/// `r` is what becomes of the existing range `o` when `[first, last]` is set:
/// `o` itself if the two do not meet; else the overlap, whose value `upd`
/// relates to the old one, or the part of `o` below `first` or above `last`,
/// whose value `keep` relates to the old one.
pub open spec fn piece_of<T>(
    o: CodepointRange<T>,
    first: int,
    last: int,
    upd: spec_fn(T, T) -> bool,
    keep: spec_fn(T, T) -> bool,
    r: CodepointRange<T>,
) -> bool {
    if o.last < first || last < o.first {
        r == o
    } else if r.first == if o.first < first { first } else { o.first as int } {
        &&& r.last == if last < o.last { last } else { o.last as int }
        &&& upd(o.value, r.value)
    } else if r.first == o.first {
        &&& o.first < first
        &&& r.last == first - 1
        &&& keep(o.value, r.value)
    } else {
        &&& last < o.last
        &&& r.first == last + 1
        &&& r.last == o.last
        &&& keep(o.value, r.value)
    }
}

/// `r` is a maximal part of `[first, last]` that no range of `s` covers, with
/// a value that satisfies `fresh`.
pub open spec fn gap_of<T>(
    s: Seq<CodepointRange<T>>,
    first: int,
    last: int,
    fresh: spec_fn(T) -> bool,
    r: CodepointRange<T>,
) -> bool {
    &&& first <= r.first <= r.last <= last
    &&& forall|p: int| r.first <= p <= r.last ==> !covers(s, p)
    &&& r.first == first || covers(s, r.first - 1)
    &&& r.last == last || covers(s, r.last + 1)
    &&& fresh(r.value)
}

/// `r` is one of the ranges that setting `[first, last]` makes out of `s`.
pub open spec fn set_piece<T>(
    s: Seq<CodepointRange<T>>,
    first: int,
    last: int,
    upd: spec_fn(T, T) -> bool,
    keep: spec_fn(T, T) -> bool,
    fresh: spec_fn(T) -> bool,
    r: CodepointRange<T>,
) -> bool {
    ||| exists|i: int| 0 <= i < s.len() && #[trigger] piece_of(s[i], first, last, upd, keep, r)
    ||| gap_of(s, first, last, fresh, r)
}

/// The result of setting `[first, last]` on `s` is `t`: sorted and disjoint
/// ranges, each one a piece that the split makes, which together cover what
/// `s` covered and `[first, last]`, and nothing else.
pub open spec fn set_result<T>(
    s: Seq<CodepointRange<T>>,
    first: int,
    last: int,
    upd: spec_fn(T, T) -> bool,
    keep: spec_fn(T, T) -> bool,
    fresh: spec_fn(T) -> bool,
    t: Seq<CodepointRange<T>>,
) -> bool {
    &&& sorted_disjoint(t)
    &&& forall|k: int| 0 <= k < t.len() ==> set_piece(s, first, last, upd, keep, fresh, #[trigger] t[k])
    &&& forall|p: int| covers(t, p) <==> (covers(s, p) || first <= p <= last)
}

/// `b` is what the updater `f` returns for `a`.
pub open spec fn updated_by<T, F: Fn(T) -> T>(f: F) -> spec_fn(T, T) -> bool {
    |a: T, b: T| f.ensures((a,), b)
}

/// `b` is a clone of `a`.
pub open spec fn clone_of<T: Clone>() -> spec_fn(T, T) -> bool {
    |a: T, b: T| cloned(a, b)
}

/// `v` is what the updater `f` returns for a default value.
pub open spec fn fresh_by<T: Default, F: Fn(T) -> T>(f: F) -> spec_fn(T) -> bool {
    |v: T| exists|d: T| call_ensures(T::default, (), d) && #[trigger] f.ensures((d,), v)
}

/// Map ranges of [`u32`] codepoints to their respective values.
///
/// Ranges are kept sorted and disjoint. Setting a value on a range splits the
/// existing ranges that it partially overlaps, so that each sub-range can
/// hold its own value.
pub struct CodepointRangeMap<T: Default + Clone> {
    ranges: Vec<CodepointRange<T>>,
}

impl<T: Default + Clone> View for CodepointRangeMap<T> {
    type V = Seq<CodepointRange<T>>;

    closed spec fn view(&self) -> Seq<CodepointRange<T>> {
        self.ranges@
    }
}

/// Every point of a range that `set` makes was covered before or lies in the
/// range that was set.
proof fn lemma_piece_points<T>(
    s: Seq<CodepointRange<T>>,
    first: int,
    last: int,
    upd: spec_fn(T, T) -> bool,
    keep: spec_fn(T, T) -> bool,
    fresh: spec_fn(T) -> bool,
    r: CodepointRange<T>,
    p: int,
)
    requires
        set_piece(s, first, last, upd, keep, fresh, r),
        r.first <= p <= r.last,
    ensures
        covers(s, p) || first <= p <= last,
{
    if !gap_of(s, first, last, fresh, r) {
        let i = choose|i: int| 0 <= i < s.len() && #[trigger] piece_of(s[i], first, last, upd, keep, r);
        assert(in_range(s, i, p) || first <= p <= last);
    }
}

/// `r` with its value mapped through `g`.
pub open spec fn lift<T, U>(r: CodepointRange<T>, g: spec_fn(T) -> U) -> CodepointRange<U> {
    CodepointRange { first: r.first, last: r.last, value: g(r.value) }
}

/// Every range of `s` with its value mapped through `g`.
pub open spec fn lift_seq<T, U>(s: Seq<CodepointRange<T>>, g: spec_fn(T) -> U) -> Seq<CodepointRange<U>> {
    s.map_values(|r: CodepointRange<T>| lift(r, g))
}

/// Mapping the values leaves the bounds, and so what is covered, as it was.
pub proof fn lemma_lift_covers<T, U>(s: Seq<CodepointRange<T>>, g: spec_fn(T) -> U, p: int)
    ensures
        covers(lift_seq(s, g), p) == covers(s, p),
{
    if covers(s, p) {
        let i = choose|i: int| in_range(s, i, p);
        assert(in_range(lift_seq(s, g), i, p));
    }
    if covers(lift_seq(s, g), p) {
        let i = choose|i: int| in_range(lift_seq(s, g), i, p);
        assert(in_range(s, i, p));
    }
}

/// A result of `set` seen through `g`: where each relation on values carries
/// over to a relation on their images (for values that satisfy `inv`, which
/// every relation preserves), the images form the corresponding result.
pub proof fn lemma_lift_result<T, U>(
    s: Seq<CodepointRange<T>>,
    first: int,
    last: int,
    upd: spec_fn(T, T) -> bool,
    keep: spec_fn(T, T) -> bool,
    fresh: spec_fn(T) -> bool,
    t: Seq<CodepointRange<T>>,
    g: spec_fn(T) -> U,
    inv: spec_fn(T) -> bool,
    upd2: spec_fn(U, U) -> bool,
    keep2: spec_fn(U, U) -> bool,
    fresh2: spec_fn(U) -> bool,
)
    requires
        set_result(s, first, last, upd, keep, fresh, t),
        forall|i: int| 0 <= i < s.len() ==> inv((#[trigger] s[i]).value),
        forall|a: T, b: T| inv(a) && #[trigger] upd(a, b) ==> inv(b) && upd2(g(a), g(b)),
        forall|a: T, b: T| inv(a) && #[trigger] keep(a, b) ==> inv(b) && keep2(g(a), g(b)),
        forall|v: T| #[trigger] fresh(v) ==> inv(v) && fresh2(g(v)),
    ensures
        set_result(lift_seq(s, g), first, last, upd2, keep2, fresh2, lift_seq(t, g)),
        forall|k: int| 0 <= k < t.len() ==> inv((#[trigger] t[k]).value),
{
    let ls = lift_seq(s, g);
    let lt = lift_seq(t, g);
    assert forall|k: int| 0 <= k < t.len() implies inv((#[trigger] t[k]).value)
        && set_piece(ls, first, last, upd2, keep2, fresh2, lt[k]) by {
        let r = t[k];
        assert(set_piece(s, first, last, upd, keep, fresh, r));
        if gap_of(s, first, last, fresh, r) {
            assert forall|p: int| r.first <= p <= r.last implies !covers(ls, p) by {
                lemma_lift_covers(s, g, p);
            }
            lemma_lift_covers(s, g, r.first - 1);
            lemma_lift_covers(s, g, r.last + 1);
            assert(gap_of(ls, first, last, fresh2, lt[k]));
        } else {
            let i = choose|i: int| 0 <= i < s.len() && #[trigger] piece_of(s[i], first, last, upd, keep, r);
            assert(inv(s[i].value));
            assert(piece_of(ls[i], first, last, upd2, keep2, lt[k]));
        }
    }
    assert forall|p: int| covers(lt, p) <==> (covers(ls, p) || first <= p <= last) by {
        lemma_lift_covers(s, g, p);
        lemma_lift_covers(t, g, p);
    }
}

/// In sorted disjoint ranges, a range is the only one that starts where it
/// starts, and the only one that holds any of its points.
pub proof fn lemma_sorted_unique<T>(s: Seq<CodepointRange<T>>, i: int, j: int, p: int)
    requires
        sorted_disjoint(s),
        in_range(s, i, p),
        in_range(s, j, p),
    ensures
        i == j,
{
    if i < j {
        assert(s[i].last < s[j].first);
    }
    if j < i {
        assert(s[j].last < s[i].first);
    }
}

/// Setting `[a, d]` on an empty map, then `[b, c]` inside it, leaves the
/// ranges `[a, b - 1]` (if `a < b`), `[b, c]` and `[c + 1, d]` (if `c < d`),
/// in that order. The middle one went through both updates; the outer ones
/// went through the first update and were then split off the middle one.
pub proof fn lemma_split_three<T>(
    a: int,
    b: int,
    c: int,
    d: int,
    upd1: spec_fn(T, T) -> bool,
    keep1: spec_fn(T, T) -> bool,
    fresh1: spec_fn(T) -> bool,
    s1: Seq<CodepointRange<T>>,
    upd2: spec_fn(T, T) -> bool,
    keep2: spec_fn(T, T) -> bool,
    fresh2: spec_fn(T) -> bool,
    s2: Seq<CodepointRange<T>>,
)
    requires
        a <= b <= c <= d,
        set_result(Seq::<CodepointRange<T>>::empty(), a, d, upd1, keep1, fresh1, s1),
        set_result(s1, b, c, upd2, keep2, fresh2, s2),
    ensures
        s1.len() == 1,
        s1[0].first == a && s1[0].last == d && fresh1(s1[0].value),
        s2.len() == (if a < b { 1int } else { 0 }) + 1 + (if c < d { 1int } else { 0 }),
        a < b ==> s2[0].first == a && s2[0].last == b - 1 && keep2(s1[0].value, s2[0].value),
        ({
            let m = if a < b { 1int } else { 0 };
            s2[m].first == b && s2[m].last == c && upd2(s1[0].value, s2[m].value)
        }),
        c < d ==> ({
            let t = if a < b { 2int } else { 1 };
            s2[t].first == c + 1 && s2[t].last == d && keep2(s1[0].value, s2[t].value)
        }),
{
    let e = Seq::<CodepointRange<T>>::empty();
    // the first call makes the single range [a, d]
    assert forall|k: int| 0 <= k < s1.len() implies (#[trigger] s1[k]).first == a && s1[k].last == d
        && fresh1(s1[k].value) by {
        assert(set_piece(e, a, d, upd1, keep1, fresh1, s1[k]));
        assert(!covers(e, s1[k].first - 1));
        assert(!covers(e, s1[k].last + 1));
    }
    assert(covers(s1, a));
    if s1.len() > 1 {
        assert(s1[0].last < s1[1].first);
    }
    assert(s1.len() == 1);
    let o = s1[0];
    assert(in_range(s1, 0, b) && in_range(s1, 0, c));
    // each range of the second call is a piece of [a, d]
    assert forall|k: int| 0 <= k < s2.len() implies piece_of(o, b, c, upd2, keep2, #[trigger] s2[k]) by {
        assert(set_piece(s1, b, c, upd2, keep2, fresh2, s2[k]));
        if gap_of(s1, b, c, fresh2, s2[k]) {
            let q = s2[k].first as int;
            assert(b <= q <= c);
            assert(in_range(s1, 0, q));
            assert(covers(s1, q));
            assert(!covers(s1, q));
        } else {
            let i = choose|i: int| 0 <= i < s1.len() && #[trigger] piece_of(s1[i], b, c, upd2, keep2, s2[k]);
            assert(i == 0);
        }
    }
    let m = if a < b { 1int } else { 0 };
    // where the middle, head and tail stand
    assert(covers(s2, b));
    let km = choose|k: int| in_range(s2, k, b);
    assert(s2[km].first == b && s2[km].last == c);
    assert forall|k: int| 0 <= k < km implies (#[trigger] s2[k]).first == a && s2[k].last == b - 1 by {
        assert(s2[k].last < s2[km].first);
    }
    assert forall|k: int| km < k < s2.len() implies (#[trigger] s2[k]).first == c + 1 && s2[k].last == d by {
        assert(s2[km].last < s2[k].first);
    }
    if a < b {
        assert(covers(s2, a));
        let kh = choose|k: int| in_range(s2, k, a);
        assert(kh < km);
        if km > 1 {
            assert(s2[0].last < s2[1].first);
        }
    } else {
        if km > 0 {
            assert(s2[0].first == a && s2[0].last == b - 1);
        }
    }
    assert(km == m);
    if c < d {
        assert(covers(s2, d));
        let kt = choose|k: int| in_range(s2, k, d);
        assert(km < kt);
        if s2.len() > km + 2 {
            assert(s2[km + 1].last < s2[km + 2].first);
        }
    } else {
        if s2.len() > km + 1 {
            assert(s2[km + 1].first == c + 1);
        }
    }
}

/// `r` is one of the ranges of `s`.
pub open spec fn holds_range<T>(s: Seq<CodepointRange<T>>, r: CodepointRange<T>) -> bool {
    exists|i: int| 0 <= i < s.len() && s[i] == r
}

/// Two sorted disjoint sequences of ranges that hold the same ranges are equal.
pub proof fn lemma_sorted_same<T>(s: Seq<CodepointRange<T>>, t: Seq<CodepointRange<T>>)
    requires
        sorted_disjoint(s),
        sorted_disjoint(t),
        forall|k: int| 0 <= k < t.len() ==> holds_range(s, #[trigger] t[k]),
        forall|i: int| 0 <= i < s.len() ==> holds_range(t, #[trigger] s[i]),
    ensures
        s == t,
    decreases s.len(),
{
    if s.len() == 0 {
        if t.len() > 0 {
            assert(holds_range(s, t[0]));
        }
        assert(s =~= t);
    } else {
        assert(holds_range(t, s[0]));
        assert(holds_range(s, t[0]));
        let k0 = choose|k: int| 0 <= k < t.len() && t[k] == s[0];
        let i0 = choose|i: int| 0 <= i < s.len() && s[i] == t[0];
        if k0 > 0 {
            assert(t[0].last < t[k0].first);
        }
        if i0 > 0 {
            assert(s[0].last < s[i0].first);
        }
        assert(s[0] == t[0]);
        let s1 = s.drop_first();
        let t1 = t.drop_first();
        assert forall|k: int| 0 <= k < t1.len() implies holds_range(s1, #[trigger] t1[k]) by {
            assert(t[0].last < t[k + 1].first);
            assert(holds_range(s, t[k + 1]));
            let i = choose|i: int| 0 <= i < s.len() && s[i] == t[k + 1];
            assert(i != 0);
            assert(s1[i - 1] == t1[k]);
        }
        assert forall|i: int| 0 <= i < s1.len() implies holds_range(t1, #[trigger] s1[i]) by {
            assert(s[0].last < s[i + 1].first);
            assert(holds_range(t, s[i + 1]));
            let k = choose|k: int| 0 <= k < t.len() && t[k] == s[i + 1];
            assert(k != 0);
            assert(t1[k - 1] == s1[i]);
        }
        lemma_sorted_same(s1, t1);
        assert(s.len() == t.len());
        assert forall|j: int| 0 <= j < s.len() implies s[j] == t[j] by {
            if j > 0 {
                assert(s[j] == s1[j - 1]);
                assert(t[j] == t1[j - 1]);
            }
        }
        assert(s =~= t);
    }
}

/// Appends a range of the result of `set` after every range already there.
fn push_piece<T: Default + Clone, F: Fn(T) -> T>(
    out: &mut Vec<CodepointRange<T>>,
    r: CodepointRange<T>,
    s: Ghost<Seq<CodepointRange<T>>>,
    first: Ghost<int>,
    last: Ghost<int>,
    f: &F,
)
    requires
        sorted_disjoint(old(out)@),
        forall|k: int| 0 <= k < old(out)@.len() ==> set_piece(s@, first@, last@, updated_by(*f), clone_of(), fresh_by(*f), #[trigger] old(out)@[k]),
        forall|k: int| 0 <= k < old(out)@.len() ==> (#[trigger] old(out)@[k]).last < r.first,
        r.first <= r.last,
        set_piece(s@, first@, last@, updated_by(*f), clone_of(), fresh_by(*f), r),
    ensures
        final(out)@ == old(out)@.push(r),
        sorted_disjoint(final(out)@),
        forall|k: int| 0 <= k < final(out)@.len() ==> set_piece(s@, first@, last@, updated_by(*f), clone_of(), fresh_by(*f), #[trigger] final(out)@[k]),
        forall|p: int| covers(final(out)@, p) <==> (covers(old(out)@, p) || r.first <= p <= r.last),
{
    let ghost o = out@;
    let ghost rr = r;
    out.push(r);
    assert forall|p: int| covers(out@, p) <==> (covers(o, p) || rr.first <= p <= rr.last) by {
        if covers(o, p) {
            let k = choose|k: int| in_range(o, k, p);
            assert(in_range(out@, k, p));
        }
        if rr.first <= p <= rr.last {
            assert(in_range(out@, o.len() as int, p));
        }
        if covers(out@, p) {
            let k = choose|k: int| in_range(out@, k, p);
            if k < o.len() {
                assert(in_range(o, k, p));
            }
        }
    }
}

impl<T: Default + Clone> CodepointRangeMap<T> {
    pub open spec fn wf(&self) -> bool {
        sorted_disjoint(self@)
    }

    pub fn new() -> (r: Self)
        ensures
            r.wf(),
            r@ == Seq::<CodepointRange<T>>::empty(),
    {
        CodepointRangeMap { ranges: Vec::new() }
    }

    pub fn count(&self) -> (r: usize)
        ensures
            r == self@.len(),
    {
        self.ranges.len()
    }

    /// Set the value for the inclusive range `[first, last]` through an
    /// updater.
    ///
    /// Existing ranges that the input range partially overlaps are split; the
    /// updater maps the current value of each sub-range inside `[first, last]`
    /// to its new one. Parts of `[first, last]` that no range covered yet
    /// become new ranges, whose value is the updater applied to the default.
    ///
    /// A range with `last < first` is refused, and the map left as it was.
    pub fn set<F: Fn(T) -> T>(&mut self, first: u32, last: u32, updater: F) -> (r: Result<(), RangeError>)
        requires
            old(self).wf(),
            forall|v: T| #[trigger] updater.requires((v,)),
        ensures
            final(self).wf(),
            last < first ==> r == Err::<(), RangeError>(RangeError::InvalidRange) && final(self)@ == old(self)@,
            first <= last ==> r is Ok,
            first <= last ==> set_result(
                old(self)@,
                first as int,
                last as int,
                updated_by(updater),
                clone_of(),
                fresh_by(updater),
                final(self)@,
            ),
    {
        if last < first {
            return Err(RangeError::InvalidRange);
        }
        let ghost s = self@;
        let n = self.ranges.len();
        let mut rest: Vec<CodepointRange<T>> = Vec::new();
        core::mem::swap(&mut self.ranges, &mut rest);
        let mut out: Vec<CodepointRange<T>> = Vec::new();
        let mut cur: u32 = first;
        let mut done = false;
        let mut i: usize = 0;
        while i < n
            invariant
                n == s.len(),
                0 <= i <= n,
                rest@ == s.subrange(i as int, n as int),
                sorted_disjoint(s),
                first <= last,
                forall|v: T| #[trigger] updater.requires((v,)),
                sorted_disjoint(out@),
                forall|k: int| 0 <= k < out@.len() ==> set_piece(s, first as int, last as int, updated_by(updater), clone_of(), fresh_by(updater), #[trigger] out@[k]),
                forall|k: int, j: int| 0 <= k < out@.len() && i <= j < n ==> (#[trigger] out@[k]).last < (#[trigger] s[j]).first,
                !done ==> first <= cur <= last,
                !done ==> forall|k: int| 0 <= k < out@.len() ==> (#[trigger] out@[k]).last < cur,
                !done ==> forall|j: int| 0 <= j < i ==> (#[trigger] s[j]).last < cur,
                !done ==> (cur == first || covers(s, cur - 1)),
                !done ==> (cur == first || forall|j: int| i <= j < n ==> cur <= (#[trigger] s[j]).first),
                done ==> forall|j: int| i <= j < n ==> last < (#[trigger] s[j]).first,
                forall|j: int, p: int| 0 <= j < i && #[trigger] in_range(s, j, p) ==> covers(out@, p),
                done ==> forall|p: int| first <= p <= last ==> covers(out@, p),
                !done ==> forall|p: int| first <= p < cur ==> covers(out@, p),
            decreases n - i,
        {
            let r = rest.remove(0);
            assert(r == s[i as int]);
            if done || r.last < cur {
                assert(piece_of(s[i as int], first as int, last as int, updated_by(updater), clone_of(), r));
                push_piece(&mut out, r, Ghost(s), Ghost(first as int), Ghost(last as int), &updater);
            } else {
                let CodepointRange { first: rf, last: rl, value: v } = r;
                if cur < rf {
                    let d = T::default();
                    let g = updater(d);
                    assert(call_ensures(T::default, (), d));
                    let gl = if rf - 1 < last { rf - 1 } else { last };
                    let gap = CodepointRange { first: cur, last: gl, value: g };
                    assert(in_range(s, i as int, rf as int));
                    assert forall|p: int| cur <= p <= gl implies !covers(s, p) by {
                        if covers(s, p) {
                            let j = choose|j: int| in_range(s, j, p);
                            if j >= i {
                                assert(s[i as int].first <= s[j].first);
                            }
                        }
                    }
                    assert(gap.first == first || covers(s, gap.first - 1));
                    assert(gap.last == last || covers(s, gap.last + 1));
                    assert(updater.ensures((d,), gap.value));
                    assert(gap.first == first || covers(s, gap.first - 1));
            assert(updater.ensures((d,), gap.value));
            assert(gap_of(s, first as int, last as int, fresh_by(updater), gap));
                    push_piece(&mut out, gap, Ghost(s), Ghost(first as int), Ghost(last as int), &updater);
                    if gl == last {
                        done = true;
                    } else {
                        cur = rf;
                    }
                }
                if done {
                    let whole = CodepointRange { first: rf, last: rl, value: v };
                    assert(piece_of(s[i as int], first as int, last as int, updated_by(updater), clone_of(), whole));
                    push_piece(&mut out, whole, Ghost(s), Ghost(first as int), Ghost(last as int), &updater);
                } else {
                    if rf < cur {
                        let head = CodepointRange { first: rf, last: cur - 1, value: v.clone() };
                        assert(piece_of(s[i as int], first as int, last as int, updated_by(updater), clone_of(), head));
                        push_piece(&mut out, head, Ghost(s), Ghost(first as int), Ghost(last as int), &updater);
                    }
                    let tail_value = if last < rl { Some(v.clone()) } else { None };
                    let hi = if last < rl { last } else { rl };
                    let ghost ov = v;
                    let mid = CodepointRange { first: cur, last: hi, value: updater(v) };
                    assert(ov == s[i as int].value);
                    assert(piece_of(s[i as int], first as int, last as int, updated_by(updater), clone_of(), mid));
                    assert(in_range(s, i as int, rl as int));
                    push_piece(&mut out, mid, Ghost(s), Ghost(first as int), Ghost(last as int), &updater);
                    match tail_value {
                        Some(tv) => {
                            let tail = CodepointRange { first: last + 1, last: rl, value: tv };
                            assert(piece_of(s[i as int], first as int, last as int, updated_by(updater), clone_of(), tail));
                            push_piece(&mut out, tail, Ghost(s), Ghost(first as int), Ghost(last as int), &updater);
                            done = true;
                        },
                        None => {
                            if rl == last {
                                done = true;
                            } else {
                                cur = rl + 1;
                            }
                        },
                    }
                }
            }
            i = i + 1;
        }
        if !done {
            let d = T::default();
            let g = updater(d);
            assert(call_ensures(T::default, (), d));
            let gap = CodepointRange { first: cur, last: last, value: g };
            assert forall|p: int| cur <= p <= last implies !covers(s, p) by {
                if covers(s, p) {
                    let j = choose|j: int| in_range(s, j, p);
                }
            }
            assert(gap.first == first || covers(s, gap.first - 1));
            assert(updater.ensures((d,), gap.value));
            assert(gap_of(s, first as int, last as int, fresh_by(updater), gap));
            push_piece(&mut out, gap, Ghost(s), Ghost(first as int), Ghost(last as int), &updater);
        }
        assert forall|p: int| covers(out@, p) <==> (covers(s, p) || first <= p <= last) by {
            if covers(out@, p) {
                let k = choose|k: int| in_range(out@, k, p);
                lemma_piece_points(s, first as int, last as int, updated_by(updater), clone_of(), fresh_by(updater), out@[k], p);
            }
            if covers(s, p) {
                let j = choose|j: int| in_range(s, j, p);
            }
        }
        self.ranges = out;
        Ok(())
    }

    pub fn get(&self, index: usize) -> (r: &CodepointRange<T>)
        requires
            index < self@.len(),
        ensures
            *r == self@[index as int],
    {
        &self.ranges[index]
    }
}

impl<T: Default + Clone> Default for CodepointRangeMap<T> {
    fn default() -> (r: Self)
        ensures
            r.wf(),
            r@ == Seq::<CodepointRange<T>>::empty(),
    {
        CodepointRangeMap::new()
    }
}

} // verus!
