//! Insertion-ordered association maps with a mathematical `Map` view.
//!
//! The pipeline's aggregation tables need deterministic iteration order (so
//! that regenerating a snapshot from the same rows gives the same bytes), a
//! `Map` view for contracts, and nothing else fancy, so a `Vec` of distinct
//! keys beside a `Vec` of values is the right executable shape.
use vstd::prelude::*;

verus! {

/// A key usable in a [`KMap`]: it has a mathematical view, and an executable
/// equality that decides view equality.
pub trait MapKey: Sized {
    type KV;

    spec fn key_view(&self) -> Self::KV;

    fn key_eq(&self, other: &Self) -> (r: bool)
        ensures
            r == (self.key_view() == other.key_view()),
    ;

    fn key_dup(&self) -> (r: Self)
        ensures
            r.key_view() == self.key_view(),
    ;
}

impl MapKey for String {
    type KV = Seq<char>;

    open spec fn key_view(&self) -> Seq<char> {
        self@
    }

    fn key_eq(&self, other: &Self) -> (r: bool) {
        *self == *other
    }

    fn key_dup(&self) -> (r: Self) {
        self.clone()
    }
}

impl MapKey for i16 {
    type KV = i16;

    open spec fn key_view(&self) -> i16 {
        *self
    }

    fn key_eq(&self, other: &Self) -> (r: bool) {
        *self == *other
    }

    fn key_dup(&self) -> (r: Self) {
        *self
    }
}

/// An insertion-ordered map from `K` to `V`.
pub struct KMap<K, V> {
    pub keys: Vec<K>,
    pub vals: Vec<V>,
}

impl<K: MapKey, V> KMap<K, V> {
    /// Well-formed: parallel vectors, no two keys with the same view.
    pub open spec fn wf(&self) -> bool {
        &&& self.keys@.len() == self.vals@.len()
        &&& forall|i: int, j: int|
            0 <= i < j < self.keys@.len() ==> self.keys@[i].key_view() != self.keys@[j].key_view()
    }

    pub open spec fn spec_len(&self) -> nat {
        self.keys@.len()
    }

    /// The key views, in insertion order.
    pub open spec fn key_seq(&self) -> Seq<K::KV> {
        Seq::new(self.keys@.len(), |i: int| self.keys@[i].key_view())
    }

    /// The values, in insertion order.
    pub open spec fn val_seq(&self) -> Seq<V> {
        self.vals@
    }

    pub open spec fn contains_key(&self, k: K::KV) -> bool {
        exists|i: int| 0 <= i < self.keys@.len() && self.keys@[i].key_view() == k
    }

    pub open spec fn get_rec(&self, k: K::KV, i: int) -> Option<V>
        decreases self.keys@.len() - i,
    {
        if i < 0 || i >= self.keys@.len() {
            None
        } else if self.keys@[i].key_view() == k {
            Some(self.vals@[i])
        } else {
            self.get_rec(k, i + 1)
        }
    }

    /// The value stored under `k`, if any.
    pub open spec fn spec_get(&self, k: K::KV) -> Option<V> {
        self.get_rec(k, 0)
    }

    proof fn lemma_get_rec_some(&self, k: K::KV, i: int, j: int)
        requires
            self.wf(),
            0 <= i <= j < self.keys@.len(),
            self.keys@[j].key_view() == k,
            forall|m: int| i <= m < j ==> self.keys@[m].key_view() != k,
        ensures
            self.get_rec(k, i) == Some(self.vals@[j]),
        decreases j - i,
    {
        if i < j {
            self.lemma_get_rec_some(k, i + 1, j);
        }
    }

    proof fn lemma_get_rec_none(&self, k: K::KV, i: int)
        requires
            self.wf(),
            0 <= i,
            forall|m: int| i <= m < self.keys@.len() ==> self.keys@[m].key_view() != k,
        ensures
            self.get_rec(k, i) is None,
        decreases self.keys@.len() - i,
    {
        if i < self.keys@.len() {
            self.lemma_get_rec_none(k, i + 1);
        }
    }

    /// Looking a key up gives `Some` exactly when the key is present: the
    /// index form and the `exists` form of membership agree.
    pub proof fn lemma_get_is_contains(&self, k: K::KV)
        requires
            self.wf(),
        ensures
            self.spec_get(k) is Some <==> self.contains_key(k),
            self.contains_key(k) ==> exists|i: int|
                0 <= i < self.spec_len() && self.key_seq()[i] == k && self.spec_get(k)
                    == Some(self.val_seq()[i]),
    {
        if self.contains_key(k) {
            let j = choose|j: int|
                0 <= j < self.keys@.len() && self.keys@[j].key_view() == k && forall|m: int|
                    0 <= m < j ==> self.keys@[m].key_view() != k;
            assert(exists|j0: int| 0 <= j0 < self.keys@.len() && self.keys@[j0].key_view() == k);
            let j0 = choose|j0: int| 0 <= j0 < self.keys@.len() && self.keys@[j0].key_view() == k;
            // the first occurrence works as a witness
            let first = Self::first_occurrence(self.key_seq(), k, j0);
            self.lemma_get_rec_some(k, 0, first);
        } else {
            self.lemma_get_rec_none(k, 0);
        }
    }

    /// The least index `<= bound` at which `k` occurs in `s`.
    proof fn first_occurrence(s: Seq<K::KV>, k: K::KV, bound: int) -> (r: int)
        requires
            0 <= bound < s.len(),
            s[bound] == k,
        ensures
            0 <= r <= bound,
            s[r] == k,
            forall|m: int| 0 <= m < r ==> s[m] != k,
        decreases bound,
    {
        if exists|m: int| 0 <= m < bound && s[m] == k {
            let m = choose|m: int| 0 <= m < bound && s[m] == k;
            Self::first_occurrence(s, k, m)
        } else {
            bound
        }
    }

    /// The lookup of the key at position `i` gives the value at position `i`.
    pub proof fn lemma_get_at_index(&self, i: int)
        requires
            self.wf(),
            0 <= i < self.spec_len(),
        ensures
            self.spec_get(self.key_seq()[i]) == Some(self.val_seq()[i]),
    {
        let k = self.keys@[i].key_view();
        assert(self.key_seq()[i] == k);
        let first = Self::first_occurrence(self.key_seq(), k, i);
        assert(first == i) by {
            if first < i {
                assert(self.keys@[first].key_view() != self.keys@[i].key_view());
            }
        }
        self.lemma_get_rec_some(k, 0, i);
    }

    /// Membership by index into the key order and membership as `Seq`
    /// containment agree.
    pub proof fn lemma_contains_iff_key_seq(&self, k: K::KV)
        ensures
            self.contains_key(k) <==> self.key_seq().contains(k),
    {
        if self.contains_key(k) {
            let i = choose|i: int| 0 <= i < self.keys@.len() && self.keys@[i].key_view() == k;
            assert(self.key_seq()[i] == k);
        }
        if self.key_seq().contains(k) {
            let i = choose|i: int| 0 <= i < self.key_seq().len() && self.key_seq()[i] == k;
            assert(self.keys@[i].key_view() == k);
        }
    }

    pub fn empty() -> (r: Self)
        ensures
            r.wf(),
            r.spec_len() == 0,
            forall|k: K::KV| r.spec_get(k) is None,
            forall|k: K::KV| !r.contains_key(k),
    {
        let r = KMap { keys: Vec::new(), vals: Vec::new() };
        proof {
            assert forall|k: K::KV| r.spec_get(k) is None by {
                r.lemma_get_rec_none(k, 0);
            }
        }
        r
    }

    pub fn len(&self) -> (r: usize)
        ensures
            r == self.spec_len(),
    {
        self.keys.len()
    }

    /// The index of `k` in insertion order, if present.
    fn find(&self, k: &K) -> (r: Option<usize>)
        requires
            self.wf(),
        ensures
            match r {
                Some(i) => {
                    &&& 0 <= i < self.spec_len()
                    &&& self.key_seq()[i as int] == k.key_view()
                    &&& self.spec_get(k.key_view()) == Some(self.val_seq()[i as int])
                },
                None => {
                    &&& !self.contains_key(k.key_view())
                    &&& self.spec_get(k.key_view()) is None
                },
            },
    {
        let n = self.keys.len();
        let mut i: usize = 0;
        while i < n
            invariant
                self.wf(),
                n == self.spec_len(),
                0 <= i <= n,
                forall|m: int| 0 <= m < i ==> self.keys@[m].key_view() != k.key_view(),
            decreases n - i,
        {
            if self.keys[i].key_eq(k) {
                proof {
                    self.lemma_get_rec_some(k.key_view(), 0, i as int);
                }
                return Some(i);
            }
            i += 1;
        }
        proof {
            self.lemma_get_rec_none(k.key_view(), 0);
        }
        None
    }

    pub fn contains(&self, k: &K) -> (r: bool)
        requires
            self.wf(),
        ensures
            r == self.contains_key(k.key_view()),
    {
        proof {
            self.lemma_get_is_contains(k.key_view());
        }
        match self.find(k) {
            Some(_) => true,
            None => false,
        }
    }

    pub fn get(&self, k: &K) -> (r: Option<&V>)
        requires
            self.wf(),
        ensures
            match r {
                Some(v) => self.spec_get(k.key_view()) == Some(*v),
                None => self.spec_get(k.key_view()) is None,
            },
    {
        match self.find(k) {
            Some(i) => Some(&self.vals[i]),
            None => None,
        }
    }

    /// The key at position `i` in insertion order.
    pub fn key_at(&self, i: usize) -> (r: &K)
        requires
            self.wf(),
            i < self.spec_len(),
        ensures
            r.key_view() == self.key_seq()[i as int],
            self.spec_get(r.key_view()) == Some(self.val_seq()[i as int]),
    {
        proof {
            let k = self.keys@[i as int].key_view();
            assert(exists|j0: int| 0 <= j0 < self.keys@.len() && self.keys@[j0].key_view() == k);
            let first = Self::first_occurrence(self.key_seq(), k, i as int);
            assert(first == i) by {
                if first < i {
                    assert(self.keys@[first].key_view() != self.keys@[i as int].key_view());
                }
            }
            self.lemma_get_rec_some(k, 0, i as int);
        }
        &self.keys[i]
    }

    /// The value at position `i` in insertion order.
    pub fn val_at(&self, i: usize) -> (r: &V)
        requires
            self.wf(),
            i < self.spec_len(),
        ensures
            *r == self.val_seq()[i as int],
    {
        &self.vals[i]
    }

    /// Insert or replace. A fresh key goes to the end of the order; an
    /// existing key keeps its position and gets the new value.
    pub fn set(&mut self, k: &K, v: V)
        requires
            old(self).wf(),
        ensures
            final(self).wf(),
            final(self).spec_get(k.key_view()) == Some(v),
            forall|k2: K::KV|
                k2 != k.key_view() ==> final(self).spec_get(k2) == old(self).spec_get(k2),
            if old(self).contains_key(k.key_view()) {
                &&& final(self).key_seq() == old(self).key_seq()
                &&& exists|i: int|
                    0 <= i < old(self).spec_len() && old(self).key_seq()[i] == k.key_view()
                        && final(self).val_seq() == old(self).val_seq().update(i, v)
            } else {
                &&& final(self).key_seq() == old(self).key_seq().push(k.key_view())
                &&& final(self).val_seq() == old(self).val_seq().push(v)
            },
    {
        let ghost pre = *self;
        match self.find(k) {
            Some(i) => {
                self.vals[i] = v;
                proof {
                    assert(final(self).key_seq() =~= pre.key_seq());
                    Self::lemma_get_after_val_update(pre, *self, i as int, k.key_view(), v);
                }
            },
            None => {
                self.keys.push(k.key_dup());
                self.vals.push(v);
                proof {
                    assert(final(self).key_seq() =~= pre.key_seq().push(k.key_view()));
                    Self::lemma_get_after_push(pre, *self, k.key_view(), v);
                }
            },
        }
    }

    proof fn lemma_get_rec_frame(m1: Self, m2: Self, lo: int, k: K::KV)
        requires
            m1.keys@.len() == m2.keys@.len(),
            m1.vals@.len() == m1.keys@.len(),
            m2.vals@.len() == m2.keys@.len(),
            0 <= lo,
            forall|j: int|
                lo <= j < m1.keys@.len() ==> m1.keys@[j].key_view() == m2.keys@[j].key_view(),
            forall|j: int|
                lo <= j < m1.keys@.len() && m1.keys@[j].key_view() == k ==> m1.vals@[j]
                    == m2.vals@[j],
        ensures
            m1.get_rec(k, lo) == m2.get_rec(k, lo),
        decreases m1.keys@.len() - lo,
    {
        if lo < m1.keys@.len() {
            Self::lemma_get_rec_frame(m1, m2, lo + 1, k);
        }
    }

    proof fn lemma_get_after_val_update(pre: Self, post: Self, i: int, k: K::KV, v: V)
        requires
            pre.wf(),
            0 <= i < pre.keys@.len(),
            pre.keys@[i].key_view() == k,
            post.keys@ == pre.keys@,
            post.vals@ == pre.vals@.update(i, v),
        ensures
            post.wf(),
            post.spec_get(k) == Some(v),
            forall|k2: K::KV| k2 != k ==> post.spec_get(k2) == pre.spec_get(k2),
    {
        let first = Self::first_occurrence(pre.key_seq(), k, i);
        assert(first == i) by {
            if first < i {
                assert(pre.keys@[first].key_view() != pre.keys@[i].key_view());
            }
        }
        post.lemma_get_rec_some(k, 0, i);
        assert forall|k2: K::KV| k2 != k implies post.spec_get(k2) == pre.spec_get(k2) by {
            Self::lemma_get_rec_frame(pre, post, 0, k2);
        }
    }

    proof fn lemma_get_after_push(pre: Self, post: Self, k: K::KV, v: V)
        requires
            pre.wf(),
            !pre.contains_key(k),
            post.keys@.len() == pre.keys@.len() + 1,
            forall|j: int|
                0 <= j < pre.keys@.len() ==> post.keys@[j].key_view() == pre.keys@[j].key_view(),
            post.keys@[pre.keys@.len() as int].key_view() == k,
            post.vals@ == pre.vals@.push(v),
        ensures
            post.wf(),
            post.spec_get(k) == Some(v),
            forall|k2: K::KV| k2 != k ==> post.spec_get(k2) == pre.spec_get(k2),
    {
        assert(post.wf());
        post.lemma_get_rec_some(k, 0, pre.keys@.len() as int);
        assert forall|k2: K::KV| k2 != k implies post.spec_get(k2) == pre.spec_get(k2) by {
            Self::lemma_get_rec_agree_prefix(pre, post, k2, 0);
        }
    }

    proof fn lemma_get_rec_agree_prefix(pre: Self, post: Self, k: K::KV, lo: int)
        requires
            pre.keys@.len() == pre.vals@.len(),
            post.keys@.len() == pre.keys@.len() + 1,
            post.vals@.len() == post.keys@.len(),
            0 <= lo <= pre.keys@.len(),
            forall|j: int|
                0 <= j < pre.keys@.len() ==> post.keys@[j].key_view() == pre.keys@[j].key_view(),
            forall|j: int| 0 <= j < pre.vals@.len() ==> post.vals@[j] == pre.vals@[j],
            post.keys@[pre.keys@.len() as int].key_view() != k,
        ensures
            pre.get_rec(k, lo) == post.get_rec(k, lo),
        decreases pre.keys@.len() + 1 - lo,
    {
        if lo < pre.keys@.len() {
            Self::lemma_get_rec_agree_prefix(pre, post, k, lo + 1);
        } else {
            assert(pre.get_rec(k, lo) is None);
            assert(post.get_rec(k, lo) == post.get_rec(k, lo + 1));
            assert(post.get_rec(k, lo + 1) is None);
        }
    }
}

/// The saturating sum of a sequence of values, folded left to right.
pub open spec fn spec_sat_sum(s: Seq<i64>) -> int
    decreases s.len(),
{
    if s.len() == 0 {
        0
    } else {
        crate::fx::spec_sat_add(spec_sat_sum(s.drop_last()), s.last() as int)
    }
}

/// A sum of non-negative values is non-negative.
pub proof fn lemma_sat_sum_nonneg(s: Seq<i64>)
    requires
        forall|i: int| 0 <= i < s.len() ==> s[i] >= 0,
    ensures
        0 <= spec_sat_sum(s) <= i64::MAX as int,
    decreases s.len(),
{
    if s.len() > 0 {
        lemma_sat_sum_nonneg(s.drop_last());
    }
}

impl<K: MapKey> KMap<K, i64> {
    /// The value stored under `k`, or zero.
    pub open spec fn get_or_zero(&self, k: K::KV) -> i64 {
        match self.spec_get(k) {
            Some(v) => v,
            None => 0,
        }
    }

    /// Accumulate `delta` onto the entry for `k`, saturating; an absent key
    /// starts from zero at the end of the insertion order.
    pub fn accumulate(&mut self, k: &K, delta: i64)
        requires
            old(self).wf(),
        ensures
            final(self).wf(),
            final(self).spec_get(k.key_view()) == Some(
                crate::fx::spec_sat_add(old(self).get_or_zero(k.key_view()) as int, delta as int)
                    as i64,
            ),
            forall|k2: K::KV|
                k2 != k.key_view() ==> final(self).spec_get(k2) == old(self).spec_get(k2),
            if old(self).contains_key(k.key_view()) {
                final(self).key_seq() == old(self).key_seq()
            } else {
                final(self).key_seq() == old(self).key_seq().push(k.key_view())
            },
    {
        proof {
            self.lemma_get_is_contains(k.key_view());
        }
        let cur: i64 = match self.get(k) {
            Some(v) => *v,
            None => 0,
        };
        self.set(k, crate::fx::sat_add(cur, delta));
    }

    /// The saturating sum of all values, in insertion order.
    pub fn total(&self) -> (r: i64)
        requires
            self.wf(),
        ensures
            r as int == spec_sat_sum(self.val_seq()),
    {
        let n = self.vals.len();
        let mut acc: i64 = 0;
        let mut i: usize = 0;
        while i < n
            invariant
                n == self.vals@.len(),
                0 <= i <= n,
                acc as int == spec_sat_sum(self.vals@.take(i as int)),
            decreases n - i,
        {
            proof {
                assert(self.vals@.take(i as int + 1).drop_last() =~= self.vals@.take(i as int));
                assert(self.vals@.take(i as int + 1).last() == self.vals@[i as int]);
            }
            acc = crate::fx::sat_add(acc, self.vals[i]);
            i += 1;
        }
        proof {
            assert(self.vals@.take(n as int) =~= self.vals@);
        }
        acc
    }
}

} // verus!
