//! Sequence tools shared by the whole crate: element-wise views, ordered
//! keys, stable insertion sort, and the list operations the rules are
//! written with. Every executable function is tied to a spec function over
//! `Seq`.
use std::sync::Arc;
use vstd::prelude::*;

verus! {

/// The element-wise view of a sequence of executable values.
pub open spec fn views<T: View>(s: Seq<T>) -> Seq<T::V> {
    Seq::new(s.len(), |i: int| s[i]@)
}

pub broadcast proof fn views_push<T: View>(s: Seq<T>, x: T)
    ensures
        #[trigger] views(s.push(x)) == views(s).push(x@),
{
    assert(views(s.push(x)) =~= views(s).push(x@));
}

pub broadcast proof fn views_add<T: View>(a: Seq<T>, b: Seq<T>)
    ensures
        #[trigger] views(a + b) == views(a) + views(b),
{
    assert(views(a + b) =~= views(a) + views(b));
}

pub broadcast proof fn views_update<T: View>(s: Seq<T>, i: int, x: T)
    requires
        0 <= i < s.len(),
    ensures
        #[trigger] views(s.update(i, x)) == views(s).update(i, x@),
{
    assert(views(s.update(i, x)) =~= views(s).update(i, x@));
}

pub broadcast proof fn views_empty<T: View>()
    ensures
        #[trigger] views(Seq::<T>::empty()) == Seq::<T::V>::empty(),
{
    assert(views(Seq::<T>::empty()) =~= Seq::<T::V>::empty());
}

pub broadcast proof fn views_subrange<T: View>(s: Seq<T>, a: int, b: int)
    requires
        0 <= a <= b <= s.len(),
    ensures
        #[trigger] views(s.subrange(a, b)) == views(s).subrange(a, b),
{
    assert(views(s.subrange(a, b)) =~= views(s).subrange(a, b));
}

pub broadcast group group_views {
    views_push,
    views_add,
    views_update,
    views_empty,
    views_subrange,
}

/// Another handle on the same shared value. Calls `Arc::clone`, which its
/// documentation describes as another pointer to the same allocation: the
/// value behind the new handle is the value behind the old one.
#[verifier::external_body]
pub(crate) fn share<T>(a: &Arc<T>) -> (r: Arc<T>)
    ensures
        r == *a,
{
    Arc::clone(a)
}

/// A small value with decidable equality and a total order.
pub trait Key: Sized {
    /// The order `le` decides.
    spec fn below(self, other: Self) -> bool;

    /// The order is total, transitive and antisymmetric.
    proof fn ordered(x: Self, y: Self, z: Self)
        ensures
            x.below(y) || y.below(x),
            x.below(y) && y.below(z) ==> x.below(z),
            x.below(y) && y.below(x) ==> x == y,
    ;

    fn le(&self, other: &Self) -> (b: bool)
        ensures
            b == self.below(*other),
    ;

    fn same(&self, other: &Self) -> (b: bool)
        ensures
            b == (*self == *other),
    ;
}

impl Key for u8 {
    open spec fn below(self, other: u8) -> bool {
        self <= other
    }

    proof fn ordered(x: u8, y: u8, z: u8) {
    }

    fn le(&self, other: &u8) -> (b: bool) {
        *self <= *other
    }

    fn same(&self, other: &u8) -> (b: bool) {
        *self == *other
    }
}

impl Key for u32 {
    open spec fn below(self, other: u32) -> bool {
        self <= other
    }

    proof fn ordered(x: u32, y: u32, z: u32) {
    }

    fn le(&self, other: &u32) -> (b: bool) {
        *self <= *other
    }

    fn same(&self, other: &u32) -> (b: bool) {
        *self == *other
    }
}

/// Pairs are ordered by their first component, then by their second.
impl<A: Key, B: Key> Key for (A, B) {
    open spec fn below(self, other: (A, B)) -> bool {
        if self.0 == other.0 {
            self.1.below(other.1)
        } else {
            self.0.below(other.0)
        }
    }

    proof fn ordered(x: (A, B), y: (A, B), z: (A, B)) {
        A::ordered(x.0, y.0, z.0);
        A::ordered(y.0, x.0, z.0);
        A::ordered(x.0, z.0, y.0);
        A::ordered(y.0, z.0, x.0);
        B::ordered(x.1, y.1, z.1);
    }

    fn le(&self, other: &(A, B)) -> (b: bool) {
        if self.0.same(&other.0) {
            self.1.le(&other.1)
        } else {
            self.0.le(&other.0)
        }
    }

    fn same(&self, other: &(A, B)) -> (b: bool) {
        self.0.same(&other.0) && self.1.same(&other.1)
    }
}

/// Triples are ordered by their first component, then the second, then the third.
impl<A: Key, B: Key, C: Key> Key for (A, B, C) {
    open spec fn below(self, other: (A, B, C)) -> bool {
        if self.0 != other.0 {
            self.0.below(other.0)
        } else if self.1 != other.1 {
            self.1.below(other.1)
        } else {
            self.2.below(other.2)
        }
    }

    proof fn ordered(x: (A, B, C), y: (A, B, C), z: (A, B, C)) {
        A::ordered(x.0, y.0, z.0);
        A::ordered(y.0, x.0, z.0);
        A::ordered(x.0, z.0, y.0);
        A::ordered(y.0, z.0, x.0);
        B::ordered(x.1, y.1, z.1);
        B::ordered(y.1, x.1, z.1);
        B::ordered(x.1, z.1, y.1);
        B::ordered(y.1, z.1, x.1);
        C::ordered(x.2, y.2, z.2);
    }

    fn le(&self, other: &(A, B, C)) -> (b: bool) {
        if !self.0.same(&other.0) {
            self.0.le(&other.0)
        } else if !self.1.same(&other.1) {
            self.1.le(&other.1)
        } else {
            self.2.le(&other.2)
        }
    }

    fn same(&self, other: &(A, B, C)) -> (b: bool) {
        self.0.same(&other.0) && self.1.same(&other.1) && self.2.same(&other.2)
    }
}

/// The index of an item with the three-part rank it is sorted by, smallest first.
#[derive(Copy, Clone, Debug, PartialEq, Eq, Structural)]
pub struct Ranked {
    pub a: i64,
    pub b: i64,
    pub c: i64,
    pub item: usize,
}

impl Ranked {
    /// `self` may stand before `other`.
    pub open spec fn before(self, other: Ranked) -> bool {
        self.a < other.a || (self.a == other.a && (self.b < other.b || (self.b == other.b && self.c
            <= other.c)))
    }
}

// ----- membership and copying -----

pub fn in_list<T: Key + Copy>(v: &Vec<T>, x: T) -> (b: bool)
    ensures
        b == v@.contains(x),
{
    let mut i: usize = 0;
    while i < v.len()
        invariant
            i <= v.len(),
            forall|j: int| 0 <= j < i ==> v@[j] != x,
        decreases v.len() - i,
    {
        if v[i].same(&x) {
            return true;
        }
        i = i + 1;
    }
    false
}

pub fn copied<T: Copy>(v: &Vec<T>) -> (r: Vec<T>)
    ensures
        r@ == v@,
{
    let mut r: Vec<T> = Vec::new();
    let mut i: usize = 0;
    while i < v.len()
        invariant
            i <= v.len(),
            r@ == v@.subrange(0, i as int),
        decreases v.len() - i,
    {
        r.push(v[i]);
        i = i + 1;
    }
    assert(v@.subrange(0, v@.len() as int) =~= v@);
    r
}

/// Copy a list of lists.
pub fn copied_lists<T: Copy>(v: &Vec<Vec<T>>) -> (r: Vec<Vec<T>>)
    ensures
        views(r@) == views(v@),
{
    let mut r: Vec<Vec<T>> = Vec::new();
    let mut i: usize = 0;
    while i < v.len()
        invariant
            i <= v.len(),
            views(r@) == views(v@).subrange(0, i as int),
        decreases v.len() - i,
    {
        broadcast use group_views;
        r.push(copied(&v[i]));
        i = i + 1;
        assert(views(v@).subrange(0, i as int) =~= views(v@).subrange(0, i - 1).push(
            views(v@)[i - 1],
        ));
    }
    assert(views(v@).subrange(0, v@.len() as int) =~= views(v@));
    r
}

/// Append copies of every element of `more`.
pub fn extend<T: Copy>(v: &mut Vec<T>, more: &Vec<T>)
    ensures
        final(v)@ == old(v)@ + more@,
{
    let ghost start = v@;
    let mut i: usize = 0;
    while i < more.len()
        invariant
            i <= more.len(),
            v@ == start + more@.subrange(0, i as int),
        decreases more.len() - i,
    {
        v.push(more[i]);
        i = i + 1;
        assert(more@.subrange(0, i as int) =~= more@.subrange(0, i - 1).push(more@[i - 1]));
    }
    assert(more@.subrange(0, more@.len() as int) =~= more@);
}

/// The elements at `from..to`.
pub fn slice<T: Copy>(v: &Vec<T>, from: usize, to: usize) -> (r: Vec<T>)
    requires
        from <= to <= v.len(),
    ensures
        r@ == v@.subrange(from as int, to as int),
{
    let mut r: Vec<T> = Vec::new();
    let mut i: usize = from;
    while i < to
        invariant
            from <= i <= to <= v.len(),
            r@ == v@.subrange(from as int, i as int),
        decreases to - i,
    {
        r.push(v[i]);
        i = i + 1;
        assert(v@.subrange(from as int, i as int) =~= v@.subrange(from as int, i - 1).push(
            v@[i - 1],
        ));
    }
    r
}

/// The same elements, last first.
pub fn reversed<T>(v: Vec<T>) -> (r: Vec<T>)
    ensures
        r@.len() == v@.len(),
        forall|k: int| 0 <= k < r@.len() ==> #[trigger] r@[k] == v@[v@.len() - 1 - k],
{
    let ghost all = v@;
    let mut rest = v;
    let mut r: Vec<T> = Vec::new();
    while rest.len() > 0
        invariant
            rest@.len() + r@.len() == all.len(),
            rest@ == all.subrange(0, rest@.len() as int),
            forall|k: int| 0 <= k < r@.len() ==> #[trigger] r@[k] == all[all.len() - 1 - k],
        decreases rest.len(),
    {
        match rest.pop() {
            Some(x) => {
                r.push(x);
            },
            None => {},
        }
        assert(rest@ =~= all.subrange(0, rest@.len() as int));
    }
    r
}

/// `s` with its first `n` elements scanned and every `x` among them dropped.
pub open spec fn without_n<T>(s: Seq<T>, x: T, n: nat) -> Seq<T>
    decreases n,
{
    if n == 0 || n > s.len() {
        Seq::empty()
    } else {
        let rest = without_n(s, x, (n - 1) as nat);
        if s[n - 1] == x {
            rest
        } else {
            rest.push(s[n - 1])
        }
    }
}

/// `s` with every occurrence of `x` dropped, order kept.
pub open spec fn without<T>(s: Seq<T>, x: T) -> Seq<T> {
    without_n(s, x, s.len())
}

/// Drop every occurrence of `x`.
pub fn drop_value<T: Key + Copy>(v: &Vec<T>, x: T) -> (r: Vec<T>)
    ensures
        r@ == without(v@, x),
{
    let mut r: Vec<T> = Vec::new();
    let mut i: usize = 0;
    while i < v.len()
        invariant
            i <= v.len(),
            r@ == without_n(v@, x, i as nat),
        decreases v.len() - i,
    {
        if !v[i].same(&x) {
            r.push(v[i]);
        }
        i = i + 1;
    }
    r
}

/// The elements of the first `n` of `s` that are in `keep`.
pub open spec fn only_n<T>(s: Seq<T>, keep: Seq<T>, n: nat) -> Seq<T>
    decreases n,
{
    if n == 0 || n > s.len() {
        Seq::empty()
    } else {
        let rest = only_n(s, keep, (n - 1) as nat);
        if keep.contains(s[n - 1]) {
            rest.push(s[n - 1])
        } else {
            rest
        }
    }
}

/// The elements of `s` that are in `keep`, order kept.
pub open spec fn only<T>(s: Seq<T>, keep: Seq<T>) -> Seq<T> {
    only_n(s, keep, s.len())
}

pub fn keep_only<T: Key + Copy>(v: &Vec<T>, keep: &Vec<T>) -> (r: Vec<T>)
    ensures
        r@ == only(v@, keep@),
{
    let mut r: Vec<T> = Vec::new();
    let mut i: usize = 0;
    while i < v.len()
        invariant
            i <= v.len(),
            r@ == only_n(v@, keep@, i as nat),
        decreases v.len() - i,
    {
        if in_list(keep, v[i]) {
            r.push(v[i]);
        }
        i = i + 1;
    }
    r
}

/// The index of the first `x` at or after `from`, if there is one.
pub open spec fn find_from<T>(s: Seq<T>, x: T, from: nat) -> Option<nat>
    decreases s.len() - from,
{
    if from >= s.len() {
        None
    } else if s[from as int] == x {
        Some(from)
    } else {
        find_from(s, x, from + 1)
    }
}

/// The index of the first `x` in `s`, if there is one.
pub open spec fn find<T>(s: Seq<T>, x: T) -> Option<nat> {
    find_from(s, x, 0)
}

/// What `find` finds is there, and it finds whatever is there.
pub proof fn lemma_find_from<T>(s: Seq<T>, x: T, from: nat)
    ensures
        match find_from(s, x, from) {
            Some(i) => from <= i < s.len() && s[i as int] == x && (forall|j: int|
                from <= j < i ==> s[j] != x),
            None => forall|j: int| from <= j < s.len() ==> s[j] != x,
        },
    decreases s.len() - from,
{
    if from < s.len() && s[from as int] != x {
        lemma_find_from(s, x, from + 1);
    }
}

pub fn position<T: Key + Copy>(v: &Vec<T>, x: T) -> (r: Option<usize>)
    ensures
        match r {
            Some(i) => find(v@, x) == Some(i as nat) && i < v.len() && v@[i as int] == x,
            None => find(v@, x) is None && !v@.contains(x),
        },
{
    let mut i: usize = 0;
    while i < v.len()
        invariant
            i <= v.len(),
            find(v@, x) == find_from(v@, x, i as nat),
            forall|j: int| 0 <= j < i ==> v@[j] != x,
        decreases v.len() - i,
    {
        if v[i].same(&x) {
            return Some(i);
        }
        i = i + 1;
    }
    None
}

/// How often `x` occurs among the first `n` of `s`.
pub open spec fn occurrences<T>(s: Seq<T>, x: T, n: nat) -> nat
    decreases n,
{
    if n == 0 || n > s.len() {
        0
    } else {
        occurrences(s, x, (n - 1) as nat) + if s[n - 1] == x {
            1nat
        } else {
            0nat
        }
    }
}

pub fn count<T: Key + Copy>(v: &Vec<T>, x: T) -> (n: usize)
    ensures
        n == occurrences(v@, x, v@.len()),
{
    let mut n: usize = 0;
    let mut i: usize = 0;
    while i < v.len()
        invariant
            i <= v.len(),
            n <= i,
            n == occurrences(v@, x, i as nat),
        decreases v.len() - i,
    {
        if v[i].same(&x) {
            n = n + 1;
        }
        i = i + 1;
    }
    n
}

/// The first `n` of `s` with repeats of the element just before dropped.
pub open spec fn dedup_n<T>(s: Seq<T>, n: nat) -> Seq<T>
    decreases n,
{
    if n == 0 || n > s.len() {
        Seq::empty()
    } else {
        let rest = dedup_n(s, (n - 1) as nat);
        if n >= 2 && s[n - 2] == s[n - 1] {
            rest
        } else {
            rest.push(s[n - 1])
        }
    }
}

pub fn deduped<T: Key + Copy>(v: &Vec<T>) -> (r: Vec<T>)
    ensures
        r@ == dedup_n(v@, v@.len()),
{
    let mut out: Vec<T> = Vec::new();
    let mut i: usize = 0;
    while i < v.len()
        invariant
            i <= v.len(),
            out@ == dedup_n(v@, i as nat),
        decreases v.len() - i,
    {
        if !(i >= 1 && v[i - 1].same(&v[i])) {
            out.push(v[i]);
        }
        i = i + 1;
    }
    out
}

// ----- sorting -----

/// Where `x` goes among the first `n` of `s` so that equal elements keep
/// their order: right behind the last one that may stand before it.
pub open spec fn slot<T: Key>(s: Seq<T>, x: T, n: nat) -> nat
    decreases n,
{
    if n == 0 || n > s.len() {
        0
    } else if s[n - 1].below(x) {
        n
    } else {
        slot(s, x, (n - 1) as nat)
    }
}

pub open spec fn sort_n<T: Key>(s: Seq<T>, n: nat) -> Seq<T>
    decreases n,
{
    if n == 0 || n > s.len() {
        Seq::empty()
    } else {
        let done = sort_n(s, (n - 1) as nat);
        done.insert(slot(done, s[n - 1], done.len()) as int, s[n - 1])
    }
}

/// `s` in ascending order.
pub open spec fn sort<T: Key>(s: Seq<T>) -> Seq<T> {
    sort_n(s, s.len())
}

pub proof fn lemma_slot<T: Key>(s: Seq<T>, x: T, n: nat)
    requires
        n <= s.len(),
    ensures
        slot(s, x, n) <= n,
    decreases n,
{
    if n > 0 {
        lemma_slot(s, x, (n - 1) as nat);
    }
}

pub fn sorted<T: Key + Copy>(v: &Vec<T>) -> (r: Vec<T>)
    ensures
        r@ == sort(v@),
{
    let mut r: Vec<T> = Vec::new();
    let mut i: usize = 0;
    while i < v.len()
        invariant
            i <= v.len(),
            r@ == sort_n(v@, i as nat),
        decreases v.len() - i,
    {
        let x = v[i];
        let mut j: usize = r.len();
        while j > 0 && !r[j - 1].le(&x)
            invariant
                j <= r.len(),
                slot(r@, x, r@.len()) == slot(r@, x, j as nat),
            decreases j,
        {
            j = j - 1;
        }
        r.insert(j, x);
        i = i + 1;
    }
    r
}

/// `slot` for ranked items.
pub open spec fn ranked_slot(s: Seq<Ranked>, x: Ranked, n: nat) -> nat
    decreases n,
{
    if n == 0 || n > s.len() {
        0
    } else if s[n - 1].before(x) {
        n
    } else {
        ranked_slot(s, x, (n - 1) as nat)
    }
}

pub open spec fn rank_sort_n(s: Seq<Ranked>, n: nat) -> Seq<Ranked>
    decreases n,
{
    if n == 0 || n > s.len() {
        Seq::empty()
    } else {
        let done = rank_sort_n(s, (n - 1) as nat);
        done.insert(ranked_slot(done, s[n - 1], done.len()) as int, s[n - 1])
    }
}

/// `s` by ascending rank; items of equal rank keep their order.
pub open spec fn rank_sort(s: Seq<Ranked>) -> Seq<Ranked> {
    rank_sort_n(s, s.len())
}

pub fn rank_sorted(v: &Vec<Ranked>) -> (r: Vec<Ranked>)
    ensures
        r@ == rank_sort(v@),
{
    let mut r: Vec<Ranked> = Vec::new();
    let mut i: usize = 0;
    while i < v.len()
        invariant
            i <= v.len(),
            r@ == rank_sort_n(v@, i as nat),
        decreases v.len() - i,
    {
        let x = v[i];
        let mut j: usize = r.len();
        while j > 0 && !(r[j - 1].a < x.a || (r[j - 1].a == x.a && (r[j - 1].b < x.b || (r[j - 1].b
            == x.b && r[j - 1].c <= x.c))))
            invariant
                j <= r.len(),
                ranked_slot(r@, x, r@.len()) == ranked_slot(r@, x, j as nat),
            decreases j,
        {
            j = j - 1;
        }
        r.insert(j, x);
        i = i + 1;
    }
    r
}

// ----- what sorting keeps -----

/// Sorting only changes the order.
pub proof fn law_sort_permutes<T: Key>(s: Seq<T>)
    ensures
        sort(s).to_multiset() == s.to_multiset(),
        sort(s).len() == s.len(),
{
    lemma_sort_n(s, s.len());
    assert(s.subrange(0, s.len() as int) =~= s);
}

proof fn lemma_sort_n<T: Key>(s: Seq<T>, n: nat)
    requires
        n <= s.len(),
    ensures
        sort_n(s, n).to_multiset() == s.subrange(0, n as int).to_multiset(),
        sort_n(s, n).len() == n,
    decreases n,
{
    broadcast use vstd::seq_lib::group_to_multiset_ensures;

    if n == 0 {
        assert(sort_n(s, n) =~= s.subrange(0, 0));
    } else {
        let done = sort_n(s, (n - 1) as nat);
        lemma_sort_n(s, (n - 1) as nat);
        lemma_slot(done, s[n - 1], done.len());
        assert(s.subrange(0, n as int) =~= s.subrange(0, n - 1).push(s[n - 1]));
    }
}

/// Sorting gives an ascending list.
pub proof fn law_sort_ascends<T: Key>(s: Seq<T>)
    ensures
        forall|i: int, j: int|
            0 <= i <= j < sort(s).len() ==> #[trigger] sort(s)[i].below(#[trigger] sort(s)[j]),
{
    lemma_ascends_n(s, s.len());
}

proof fn lemma_slot_splits<T: Key>(s: Seq<T>, x: T, n: nat)
    requires
        n <= s.len(),
        forall|i: int, j: int| 0 <= i <= j < s.len() ==> #[trigger] s[i].below(#[trigger] s[j]),
    ensures
        slot(s, x, n) <= n,
        forall|i: int| 0 <= i < slot(s, x, n) ==> #[trigger] s[i].below(x),
        forall|i: int| slot(s, x, n) <= i < n ==> x.below(#[trigger] s[i]),
    decreases n,
{
    if n > 0 {
        if s[n - 1].below(x) {
            assert forall|i: int| 0 <= i < n implies #[trigger] s[i].below(x) by {
                T::ordered(s[i], s[n - 1], x);
                assert(s[i].below(s[n - 1]));
            }
        } else {
            T::ordered(s[n - 1], x, x);
            lemma_slot_splits(s, x, (n - 1) as nat);
        }
    }
}

proof fn lemma_ascends_n<T: Key>(s: Seq<T>, n: nat)
    requires
        n <= s.len(),
    ensures
        sort_n(s, n).len() == n,
        forall|i: int, j: int|
            0 <= i <= j < n ==> #[trigger] sort_n(s, n)[i].below(#[trigger] sort_n(s, n)[j]),
    decreases n,
{
    if n > 0 {
        let done = sort_n(s, (n - 1) as nat);
        let x = s[n - 1];
        lemma_ascends_n(s, (n - 1) as nat);
        lemma_slot_splits(done, x, done.len());
        let k = slot(done, x, done.len()) as int;
        let all = done.insert(k, x);
        assert forall|i: int, j: int| 0 <= i <= j < n implies #[trigger] all[i].below(
            #[trigger] all[j],
        ) by {
            T::ordered(x, x, x);
            if i < k {
                if j < k {
                } else if j > k {
                    assert(done[i].below(done[j - 1]));
                }
            } else if i > k {
                assert(done[i - 1].below(done[j - 1]));
            }
        }
    }
}

/// A sorted list has no duplicates where the list has none.
pub proof fn lemma_sort_distinct<T: Key>(s: Seq<T>)
    requires
        s.no_duplicates(),
    ensures
        sort(s).no_duplicates(),
{
    broadcast use vstd::seq_lib::group_to_multiset_ensures;

    law_sort_permutes(s);
    s.lemma_multiset_has_no_duplicates();
    sort(s).lemma_multiset_has_no_duplicates_conv();
}

/// A sorted list holds what the list holds.
pub proof fn lemma_sort_members<T: Key>(s: Seq<T>, x: T)
    ensures
        sort(s).contains(x) <==> s.contains(x),
{
    broadcast use vstd::seq_lib::group_to_multiset_ensures;

    law_sort_permutes(s);
    assert(sort(s).to_multiset().count(x) == s.to_multiset().count(x));
}

/// Nothing is dropped from a list without duplicates.
pub proof fn lemma_dedup_distinct<T>(s: Seq<T>, n: nat)
    requires
        s.no_duplicates(),
        n <= s.len(),
    ensures
        dedup_n(s, n) == s.subrange(0, n as int),
    decreases n,
{
    if n > 0 {
        lemma_dedup_distinct(s, (n - 1) as nat);
        assert(s.subrange(0, n as int) =~= s.subrange(0, n - 1).push(s[n - 1]));
    } else {
        assert(dedup_n(s, n) =~= s.subrange(0, 0));
    }
}

/// Counting one by one is counting in the multiset.
pub proof fn lemma_occurrences<T>(s: Seq<T>, x: T, n: nat)
    requires
        n <= s.len(),
    ensures
        occurrences(s, x, n) == s.subrange(0, n as int).to_multiset().count(x),
    decreases n,
{
    broadcast use vstd::seq_lib::group_to_multiset_ensures;

    if n > 0 {
        lemma_occurrences(s, x, (n - 1) as nat);
        assert(s.subrange(0, n as int) =~= s.subrange(0, n - 1).push(s[n - 1]));
    } else {
        assert(!s.subrange(0, 0).contains(x));
    }
}

proof fn lemma_ranked_slot(s: Seq<Ranked>, x: Ranked, n: nat)
    requires
        n <= s.len(),
    ensures
        ranked_slot(s, x, n) <= n,
    decreases n,
{
    if n > 0 {
        lemma_ranked_slot(s, x, (n - 1) as nat);
    }
}

proof fn lemma_rank_sort_n(s: Seq<Ranked>, n: nat)
    requires
        n <= s.len(),
    ensures
        rank_sort_n(s, n).to_multiset() == s.subrange(0, n as int).to_multiset(),
        rank_sort_n(s, n).len() == n,
    decreases n,
{
    broadcast use vstd::seq_lib::group_to_multiset_ensures;

    if n == 0 {
        assert(rank_sort_n(s, n) =~= s.subrange(0, 0));
    } else {
        let done = rank_sort_n(s, (n - 1) as nat);
        lemma_rank_sort_n(s, (n - 1) as nat);
        lemma_ranked_slot(done, s[n - 1], done.len());
        assert(s.subrange(0, n as int) =~= s.subrange(0, n - 1).push(s[n - 1]));
    }
}

/// Ranks that name the places of a list still name each place once, sorted.
pub proof fn lemma_rank_sort_places(s: Seq<Ranked>)
    requires
        forall|i: int| 0 <= i < s.len() ==> (#[trigger] s[i]).item == i,
    ensures
        rank_sort(s).len() == s.len(),
        forall|i: int| 0 <= i < s.len() ==> (#[trigger] rank_sort(s)[i]).item < s.len(),
        forall|i: int, j: int|
            0 <= i < j < s.len() ==> (#[trigger] rank_sort(s)[i]).item != (#[trigger] rank_sort(
                s,
            )[j]).item,
{
    broadcast use vstd::seq_lib::group_to_multiset_ensures;

    let r = rank_sort(s);
    lemma_rank_sort_n(s, s.len());
    assert(s.subrange(0, s.len() as int) =~= s);
    s.lemma_multiset_has_no_duplicates();
    r.lemma_multiset_has_no_duplicates_conv();
    assert forall|i: int| 0 <= i < s.len() implies s.contains(#[trigger] r[i]) by {
        assert(r.contains(r[i]));
        assert(r.to_multiset().count(r[i]) == s.to_multiset().count(r[i]));
    }
    assert forall|i: int, j: int| 0 <= i < j < s.len() implies (#[trigger] r[i]).item
        != (#[trigger] r[j]).item by {
        assert(s.contains(r[i]) && s.contains(r[j]));
        let a = choose|a: int| 0 <= a < s.len() && s[a] == r[i];
        let b = choose|b: int| 0 <= b < s.len() && s[b] == r[j];
        assert(r[i] != r[j]);
    }
}

/// Two ascending lists of the same items are the same list.
proof fn lemma_ascending_unique<T: Key>(a: Seq<T>, b: Seq<T>)
    requires
        a.to_multiset() == b.to_multiset(),
        forall|i: int, j: int| 0 <= i <= j < a.len() ==> #[trigger] a[i].below(#[trigger] a[j]),
        forall|i: int, j: int| 0 <= i <= j < b.len() ==> #[trigger] b[i].below(#[trigger] b[j]),
    ensures
        a == b,
    decreases a.len(),
{
    broadcast use vstd::seq_lib::group_to_multiset_ensures;

    assert(a.len() == a.to_multiset().len() && b.len() == b.to_multiset().len());
    if a.len() == 0 {
        assert(a =~= b);
    } else {
        let x = a.last();
        let y = b.last();
        assert(a.contains(x) && b.contains(y));
        assert(a.to_multiset().count(x) > 0 && b.to_multiset().count(y) > 0);
        assert(b.to_multiset().count(x) > 0 && a.to_multiset().count(y) > 0);
        assert(b.contains(x) && a.contains(y));
        let i = choose|i: int| 0 <= i < b.len() && b[i] == x;
        let j = choose|j: int| 0 <= j < a.len() && a[j] == y;
        assert(b[i].below(b[b.len() - 1]));
        assert(a[j].below(a[a.len() - 1]));
        T::ordered(x, y, x);
        assert(a.remove(a.len() - 1) =~= a.drop_last());
        assert(b.remove(b.len() - 1) =~= b.drop_last());
        assert(a.drop_last().to_multiset() == b.drop_last().to_multiset());
        lemma_ascending_unique(a.drop_last(), b.drop_last());
        assert(a =~= a.drop_last().push(x));
        assert(b =~= b.drop_last().push(y));
    }
}

/// Sorting forgets the order a list was in.
pub proof fn law_sort_forgets_order<T: Key>(a: Seq<T>, b: Seq<T>)
    requires
        a.to_multiset() == b.to_multiset(),
    ensures
        sort(a) == sort(b),
{
    law_sort_permutes(a);
    law_sort_permutes(b);
    law_sort_ascends(a);
    law_sort_ascends(b);
    lemma_ascending_unique(sort(a), sort(b));
}

} // verus!
