use vstd::prelude::*;
use vstd::laws_eq::obeys_concrete_eq;
use core::ops::{Range, RangeInclusive};
use crate::ranges::{
    CodepointRange, CodepointRangeMap, RangeError, clone_of, covers, fresh_by, gap_of, holds_range,
    in_range, lemma_lift_result, lemma_sorted_same, lemma_sorted_unique, lift_seq, piece_of,
    set_piece, set_result, updated_by,
};

verus! {

/// Relies on `RangeInclusive::start`: it returns the lower bound.
pub assume_specification<Idx>[ RangeInclusive::<Idx>::start ](r: &RangeInclusive<Idx>) -> (s: &Idx)
    ensures
        *s == r@.start,
;

/// Relies on `RangeInclusive::end`: it returns the upper bound, included.
pub assume_specification<Idx>[ RangeInclusive::<Idx>::end ](r: &RangeInclusive<Idx>) -> (e: &Idx)
    ensures
        *e == r@.end,
;

/// A type that can key a property of a [`RangeTable`]; each key holds a value
/// of the associated type.
///
/// Keys are told apart by `==`, which the table's contracts take to be
/// equality of values (`obeys_concrete_eq`).
pub trait PropertyKey: PropertyKeyBase + Copy + PartialEq {
    type Value: Copy + PartialEq;
}

/// Identity test of property keys, which a property bag uses without
/// knowing the key type.
pub trait PropertyKeyBase: Sized + PartialEq {
    fn equals_key(&self, other: &Self) -> (r: bool)
        requires
            obeys_concrete_eq::<Self>(),
        ensures
            r == (*self == *other),
    ;
}

impl<T: PropertyKey> PropertyKeyBase for T {
    fn equals_key(&self, other: &Self) -> (r: bool) {
        same_key(self, other)
    }
}

/// Whether two keys are the same key.
fn same_key<K: PartialEq>(a: &K, b: &K) -> (r: bool)
    requires
        obeys_concrete_eq::<K>(),
    ensures
        r == (*a == *b),
{
    proof {
        reveal(obeys_concrete_eq);
    }
    *a == *b
}

/// Bag of property values, at most one per key.
pub struct Properties<K: PropertyKey> {
    values: Vec<(K, K::Value)>,
}

/// Keys in `s` are pairwise distinct.
pub open spec fn unique_keys<K, V>(s: Seq<(K, V)>) -> bool {
    forall|i: int, j: int| 0 <= i < s.len() && 0 <= j < s.len() && (#[trigger] s[i]).0 == (#[trigger] s[j]).0 ==> i == j
}

/// Some entry of `s` has key `k`.
pub open spec fn has_key<K, V>(s: Seq<(K, V)>, k: K) -> bool {
    exists|i: int| 0 <= i < s.len() && (#[trigger] s[i]).0 == k
}

impl<K: PropertyKey> View for Properties<K> {
    type V = Map<K, K::Value>;

    closed spec fn view(&self) -> Map<K, K::Value> {
        Map::new(
            |k: K| has_key(self.values@, k),
            |k: K| self.values@[choose|i: int| 0 <= i < self.values@.len() && (#[trigger] self.values@[i]).0 == k].1,
        )
    }
}

impl<K: PropertyKey> Properties<K> {
    pub closed spec fn wf(&self) -> bool {
        unique_keys(self.values@)
    }

    proof fn lemma_view_at(&self, i: int)
        requires
            self.wf(),
            0 <= i < self.values@.len(),
        ensures
            self@.contains_key(self.values@[i].0),
            self@[self.values@[i].0] == self.values@[i].1,
    {
        let k = self.values@[i].0;
        assert(has_key(self.values@, k));
        let j = choose|j: int| 0 <= j < self.values@.len() && (#[trigger] self.values@[j]).0 == k;
        assert(self.values@[j].0 == self.values@[i].0);
    }

    pub fn new() -> (r: Self)
        ensures
            r.wf(),
            r@ == Map::<K, K::Value>::empty(),
    {
        let r = Properties { values: Vec::new() };
        assert(r@ =~= Map::<K, K::Value>::empty());
        r
    }

    /// Return the value set for `key`, or `None` if there is none.
    pub fn get(&self, key: K) -> (r: Option<K::Value>)
        requires
            self.wf(),
            obeys_concrete_eq::<K>(),
        ensures
            r == (if self@.contains_key(key) { Some(self@[key]) } else { None::<K::Value> }),
    {
        let mut i: usize = 0;
        while i < self.values.len()
            invariant
                self.wf(),
                obeys_concrete_eq::<K>(),
                0 <= i <= self.values@.len(),
                forall|j: int| 0 <= j < i ==> (#[trigger] self.values@[j]).0 != key,
            decreases self.values@.len() - i,
        {
            if self.values[i].0.equals_key(&key) {
                proof {
                    self.lemma_view_at(i as int);
                }
                return Some(self.values[i].1);
            }
            i = i + 1;
        }
        None
    }

    /// Set the value for `key`, replacing the one it had; a bag whose keys
    /// are distinct keeps them distinct.
    pub fn set(&mut self, key: K, value: K::Value)
        requires
            obeys_concrete_eq::<K>(),
        ensures
            old(self).wf() ==> final(self).wf() && final(self)@ == old(self)@.insert(key, value),
    {
        let ghost s = self.values@;
        let mut i: usize = 0;
        while i < self.values.len()
            invariant
                self.values@ == s,
                old(self).values@ == s,
                obeys_concrete_eq::<K>(),
                0 <= i <= s.len(),
                forall|j: int| 0 <= j < i ==> (#[trigger] s[j]).0 != key,
            decreases s.len() - i,
        {
            if self.values[i].0.equals_key(&key) {
                self.values.set(i, (key, value));
                proof {
                    if unique_keys(s) {
                        let t = self.values@;
                        assert(t == s.update(i as int, (key, value)));
                        assert(unique_keys(t));
                        assert forall|k: K| has_key(t, k) == has_key(s, k) by {
                            if has_key(s, k) {
                                let j = choose|j: int| 0 <= j < s.len() && (#[trigger] s[j]).0 == k;
                                assert(t[j].0 == k);
                            }
                            if has_key(t, k) {
                                let j = choose|j: int| 0 <= j < t.len() && (#[trigger] t[j]).0 == k;
                                assert(s[j].0 == k);
                            }
                        }
                        let old_p = *old(self);
                        assert forall|k: K| #[trigger] self@.contains_key(k) implies self@[k] == old_p@.insert(key, value)[k] by {
                            let j = choose|j: int| 0 <= j < t.len() && (#[trigger] t[j]).0 == k;
                            self.lemma_view_at(j);
                            if k != key {
                                old_p.lemma_view_at(j);
                            }
                        }
                        assert(self@ =~= old_p@.insert(key, value));
                    }
                }
                return;
            }
            i = i + 1;
        }
        self.values.push((key, value));
        proof {
            if unique_keys(s) {
                let t = self.values@;
                assert(t == s.push((key, value)));
                assert(!has_key(s, key));
                assert(unique_keys(t));
                let old_p = *old(self);
                assert forall|k: K| has_key(t, k) == (has_key(s, k) || k == key) by {
                    if has_key(s, k) {
                        let j = choose|j: int| 0 <= j < s.len() && (#[trigger] s[j]).0 == k;
                        assert(t[j].0 == k);
                    }
                    if k == key {
                        assert(t[s.len() as int].0 == k);
                    }
                    if has_key(t, k) && k != key {
                        let j = choose|j: int| 0 <= j < t.len() && (#[trigger] t[j]).0 == k;
                        assert(s[j].0 == k);
                    }
                }
                assert forall|k: K| #[trigger] self@.contains_key(k) implies self@[k] == old_p@.insert(key, value)[k] by {
                    let j = choose|j: int| 0 <= j < t.len() && (#[trigger] t[j]).0 == k;
                    self.lemma_view_at(j);
                    if k != key {
                        old_p.lemma_view_at(j);
                    }
                }
                assert(self@ =~= old_p@.insert(key, value));
            }
        }
    }
}

impl<K: PropertyKey> Clone for Properties<K> {
    fn clone(&self) -> (r: Self)
        ensures
            r@ == self@,
            r.wf() == self.wf(),
    {
        let mut values: Vec<(K, K::Value)> = Vec::new();
        let mut i: usize = 0;
        while i < self.values.len()
            invariant
                0 <= i <= self.values@.len(),
                values@ == self.values@.subrange(0, i as int),
            decreases self.values@.len() - i,
        {
            values.push(self.values[i]);
            i = i + 1;
        }
        let r = Properties { values };
        assert(r.values@ =~= self.values@);
        r
    }
}

impl<K: PropertyKey> Default for Properties<K> {
    fn default() -> (r: Self)
        ensures
            r.wf(),
            r@ == Map::<K, K::Value>::empty(),
    {
        Properties::new()
    }
}

/// Value map of a property bag.
pub open spec fn bag_view<K: PropertyKey>() -> spec_fn(Properties<K>) -> Map<K, K::Value> {
    |p: Properties<K>| p@
}

/// Well-formedness of a property bag.
pub open spec fn bag_wf<K: PropertyKey>() -> spec_fn(Properties<K>) -> bool {
    |p: Properties<K>| p.wf()
}

/// `b` is `a` with `key` set to `value`.
pub open spec fn assigns<K, V>(key: K, value: V) -> spec_fn(Map<K, V>, Map<K, V>) -> bool {
    |a: Map<K, V>, b: Map<K, V>| b == a.insert(key, value)
}

/// `b` is `a`.
pub open spec fn unchanged<V>() -> spec_fn(V, V) -> bool {
    |a: V, b: V| a == b
}

/// `v` holds `key` set to `value`, and nothing else.
pub open spec fn only<K, V>(key: K, value: V) -> spec_fn(Map<K, V>) -> bool {
    |v: Map<K, V>| v == Map::<K, V>::empty().insert(key, value)
}

/// `r` lies inside a range of `s` and holds the same properties.
pub open spec fn part_of<K, V>(s: Seq<CodepointRange<Map<K, V>>>, r: CodepointRange<Map<K, V>>) -> bool {
    exists|i: int| 0 <= i < s.len() && s[i].first <= r.first && r.last <= s[i].last && s[i].value == r.value
}

/// Every range that setting `key` to `value` on `[first, last]` makes either
/// lies inside `[first, last]` and maps `key` to `value`, or lies outside it
/// and is part of a range that was there before, with its properties.
pub proof fn lemma_set_range_assigns<K, V>(
    s: Seq<CodepointRange<Map<K, V>>>,
    first: int,
    last: int,
    key: K,
    value: V,
    t: Seq<CodepointRange<Map<K, V>>>,
)
    requires
        first <= last,
        set_result(s, first, last, assigns(key, value), unchanged(), only(key, value), t),
    ensures
        forall|k: int| 0 <= k < t.len() ==> {
            ||| first <= (#[trigger] t[k]).first && t[k].last <= last && t[k].value.contains_key(key)
                && t[k].value[key] == value
            ||| (t[k].last < first || last < t[k].first) && part_of(s, t[k])
        },
{
    assert forall|k: int| 0 <= k < t.len() implies {
        ||| first <= (#[trigger] t[k]).first && t[k].last <= last && t[k].value.contains_key(key)
            && t[k].value[key] == value
        ||| (t[k].last < first || last < t[k].first) && part_of(s, t[k])
    } by {
        let r = t[k];
        assert(set_piece(s, first, last, assigns(key, value), unchanged(), only(key, value), r));
        if !gap_of(s, first, last, only(key, value), r) {
            let i = choose|i: int| 0 <= i < s.len()
                && #[trigger] piece_of(s[i], first, last, assigns(key, value), unchanged(), r);
            assert(s[i].first <= r.first && r.last <= s[i].last);
        }
    }
}

/// A key that no range held before setting another key holds in no range
/// after it.
pub proof fn lemma_unset_key_stays_unset<K, V>(
    s: Seq<CodepointRange<Map<K, V>>>,
    first: int,
    last: int,
    key: K,
    value: V,
    t: Seq<CodepointRange<Map<K, V>>>,
    other: K,
)
    requires
        set_result(s, first, last, assigns(key, value), unchanged(), only(key, value), t),
        other != key,
        forall|i: int| 0 <= i < s.len() ==> !(#[trigger] s[i]).value.contains_key(other),
    ensures
        forall|k: int| 0 <= k < t.len() ==> !(#[trigger] t[k]).value.contains_key(other),
{
    assert forall|k: int| 0 <= k < t.len() implies !(#[trigger] t[k]).value.contains_key(other) by {
        let r = t[k];
        assert(set_piece(s, first, last, assigns(key, value), unchanged(), only(key, value), r));
        if !gap_of(s, first, last, only(key, value), r) {
            let i = choose|i: int| 0 <= i < s.len()
                && #[trigger] piece_of(s[i], first, last, assigns(key, value), unchanged(), r);
            assert(!s[i].value.contains_key(other));
        }
    }
}

/// Setting `key` to `value` on a range twice in succession leaves the same
/// ranges and values as setting it once.
pub proof fn lemma_set_range_idempotent<K, V>(
    s0: Seq<CodepointRange<Map<K, V>>>,
    first: int,
    last: int,
    key: K,
    value: V,
    s1: Seq<CodepointRange<Map<K, V>>>,
    s2: Seq<CodepointRange<Map<K, V>>>,
)
    requires
        first <= last,
        set_result(s0, first, last, assigns(key, value), unchanged(), only(key, value), s1),
        set_result(s1, first, last, assigns(key, value), unchanged(), only(key, value), s2),
    ensures
        s2 == s1,
{
    let upd = assigns(key, value);
    let keep = unchanged::<Map<K, V>>();
    let fresh = only(key, value);
    lemma_set_range_assigns(s0, first, last, key, value, s1);
    assert forall|k: int| 0 <= k < s2.len() implies holds_range(s1, #[trigger] s2[k]) by {
        let r = s2[k];
        assert(set_piece(s1, first, last, upd, keep, fresh, r));
        if gap_of(s1, first, last, fresh, r) {
            let q = r.first as int;
            assert(covers(s1, q));
            assert(!covers(s1, q));
        } else {
            let i = choose|i: int| 0 <= i < s1.len() && #[trigger] piece_of(s1[i], first, last, upd, keep, r);
            let o = s1[i];
            if !(o.last < first || last < o.first) {
                assert(o.value.insert(key, value) =~= o.value);
            }
            assert(s1[i] == r);
        }
    }
    assert forall|i: int| 0 <= i < s1.len() implies holds_range(s2, #[trigger] s1[i]) by {
        let p = s1[i].first as int;
        assert(in_range(s1, i, p));
        assert(covers(s2, p));
        let k = choose|k: int| in_range(s2, k, p);
        assert(holds_range(s1, s2[k]));
        let j = choose|j: int| 0 <= j < s1.len() && s1[j] == s2[k];
        assert(in_range(s1, j, p));
        lemma_sorted_unique(s1, i, j, p);
    }
    lemma_sorted_same(s1, s2);
}

/// A range given by its bounds, half-open or inclusive.
pub trait CodeRange {
    spec fn spec_start(&self) -> int;

    /// Last point of the range; below zero where a half-open range ends at zero.
    spec fn spec_end_inclusive(&self) -> int;

    fn start_inclusive(&self) -> (r: u32)
        ensures
            r == self.spec_start(),
    ;

    fn end_inclusive(&self) -> (r: Option<u32>)
        ensures
            match r {
                Some(e) => e == self.spec_end_inclusive(),
                None => self.spec_end_inclusive() < 0,
            },
    ;
}

impl CodeRange for Range<u32> {
    open spec fn spec_start(&self) -> int {
        self.start as int
    }

    open spec fn spec_end_inclusive(&self) -> int {
        self.end - 1
    }

    fn start_inclusive(&self) -> (r: u32) {
        self.start
    }

    fn end_inclusive(&self) -> (r: Option<u32>) {
        if self.end == 0 {
            None
        } else {
            Some(self.end - 1)
        }
    }
}

impl CodeRange for RangeInclusive<u32> {
    open spec fn spec_start(&self) -> int {
        self@.start as int
    }

    open spec fn spec_end_inclusive(&self) -> int {
        self@.end as int
    }

    fn start_inclusive(&self) -> (r: u32) {
        *self.start()
    }

    fn end_inclusive(&self) -> (r: Option<u32>) {
        Some(*self.end())
    }
}

/// Maps property values onto ranges of `u32` codepoints.
///
/// Each range holds a bag of properties, indexed by [`PropertyKey`] values.
/// Setting a property on a range splits the ranges that it partially
/// overlaps, so that every range has a uniform set of properties.
pub struct RangeTable<K: PropertyKey> {
    ranges: CodepointRangeMap<Properties<K>>,
}

impl<K: PropertyKey> View for RangeTable<K> {
    type V = Seq<CodepointRange<Map<K, K::Value>>>;

    closed spec fn view(&self) -> Seq<CodepointRange<Map<K, K::Value>>> {
        lift_seq(self.ranges@, bag_view())
    }
}

/// Row of a [`RangeTable`]: a single range with uniform properties.
pub struct RangeRow<'a, K: PropertyKey> {
    pub first: u32,
    pub last: u32,
    properties: &'a Properties<K>,
}

impl<'a, K: PropertyKey> View for RangeRow<'a, K> {
    type V = CodepointRange<Map<K, K::Value>>;

    closed spec fn view(&self) -> CodepointRange<Map<K, K::Value>> {
        CodepointRange { first: self.first, last: self.last, value: self.properties@ }
    }
}

impl<'a, K: PropertyKey> RangeRow<'a, K> {
    pub closed spec fn wf(&self) -> bool {
        self.properties.wf()
    }

    /// Return a property's value for this range, or `None` if it is not set.
    pub fn get(&self, key: K) -> (r: Option<K::Value>)
        requires
            self.wf(),
            obeys_concrete_eq::<K>(),
        ensures
            r == (if self@.value.contains_key(key) { Some(self@.value[key]) } else { None::<K::Value> }),
    {
        self.properties.get(key)
    }
}

impl<K: PropertyKey> RangeTable<K> {
    pub closed spec fn wf(&self) -> bool {
        &&& self.ranges.wf()
        &&& forall|k: int| 0 <= k < self.ranges@.len() ==> (#[trigger] self.ranges@[k]).value.wf()
    }

    pub fn new() -> (r: Self)
        ensures
            r.wf(),
            r@ == Seq::<CodepointRange<Map<K, K::Value>>>::empty(),
    {
        let r = RangeTable { ranges: CodepointRangeMap::new() };
        assert(r@ =~= Seq::<CodepointRange<Map<K, K::Value>>>::empty());
        r
    }

    /// Return the number of ranges.
    pub fn count(&self) -> (r: usize)
        ensures
            r == self@.len(),
    {
        self.ranges.count()
    }

    /// Return a range by its index; ranges are sorted and do not overlap.
    pub fn get(&self, index: usize) -> (r: RangeRow<'_, K>)
        requires
            self.wf(),
            index < self@.len(),
        ensures
            r.wf(),
            r@ == self@[index as int],
    {
        let range = self.ranges.get(index);
        RangeRow { first: range.first, last: range.last, properties: &range.value }
    }

    /// Set a property value for a range, splitting the ranges that it
    /// partially overlaps.
    pub fn set_range<R: CodeRange>(&mut self, range: R, key: K, value: K::Value) -> (r: Result<(), RangeError>)
        requires
            old(self).wf(),
            obeys_concrete_eq::<K>(),
        ensures
            final(self).wf(),
            range.spec_end_inclusive() < range.spec_start() ==> r == Err::<(), RangeError>(RangeError::InvalidRange)
                && final(self)@ == old(self)@,
            range.spec_start() <= range.spec_end_inclusive() ==> r is Ok && set_result(
                old(self)@,
                range.spec_start(),
                range.spec_end_inclusive(),
                assigns(key, value),
                unchanged(),
                only(key, value),
                final(self)@,
            ),
    {
        let first = range.start_inclusive();
        let last = match range.end_inclusive() {
            Some(e) => e,
            None => {
                return Err(RangeError::InvalidRange);
            },
        };
        if last < first {
            return Err(RangeError::InvalidRange);
        }
        let updater = move |p: Properties<K>| -> (q: Properties<K>)
            requires
                obeys_concrete_eq::<K>(),
            ensures
                p.wf() ==> q.wf() && q@ == p@.insert(key, value),
            {
                let mut q = p;
                q.set(key, value);
                q
            };
        let ghost s = self.ranges@;
        let res = self.ranges.set(first, last, updater);
        proof {
            let upd = updated_by(updater);
            let keep = clone_of::<Properties<K>>();
            let fresh = fresh_by(updater);
            assert forall|a: Properties<K>, b: Properties<K>| bag_wf()(a) && #[trigger] upd(a, b)
                implies bag_wf()(b) && assigns(key, value)(bag_view()(a), bag_view()(b)) by {}
            assert forall|a: Properties<K>, b: Properties<K>| bag_wf()(a) && #[trigger] keep(a, b)
                implies bag_wf()(b) && unchanged()(bag_view()(a), bag_view()(b)) by {}
            assert forall|v: Properties<K>| #[trigger] fresh(v)
                implies bag_wf()(v) && only(key, value)(bag_view()(v)) by {
                let d = choose|d: Properties<K>| call_ensures(Properties::<K>::default, (), d) && #[trigger] updater.ensures((d,), v);
            }
            lemma_lift_result(
                s,
                first as int,
                last as int,
                upd,
                keep,
                fresh,
                self.ranges@,
                bag_view(),
                bag_wf(),
                assigns(key, value),
                unchanged(),
                only(key, value),
            );
        }
        res
    }
}

impl<K: PropertyKey> Default for RangeTable<K> {
    fn default() -> (r: Self)
        ensures
            r.wf(),
            r@ == Seq::<CodepointRange<Map<K, K::Value>>>::empty(),
    {
        RangeTable::new()
    }
}

} // verus!
