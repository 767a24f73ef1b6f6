//! Choosing some of several things: every subset of a size, in order.
use crate::seqs::{group_views, views};
use vstd::prelude::*;

verus! {

broadcast use group_views;

/// Each of the choices with `x` in front.
pub open spec fn prefixed<T>(x: T, choices: Seq<Seq<T>>) -> Seq<Seq<T>> {
    Seq::new(choices.len(), |i: int| seq![x] + choices[i])
}

/// Every way to take `k` of the items from index `i` on, in lexicographic
/// order of positions: those with item `i`, then those without it.
pub open spec fn combos<T>(items: Seq<T>, i: nat, k: nat) -> Seq<Seq<T>>
    decreases items.len() - i,
{
    if k == 0 {
        seq![Seq::empty()]
    } else if i + k > items.len() {
        Seq::empty()
    } else {
        prefixed(items[i as int], combos(items, i + 1, (k - 1) as nat)) + combos(items, i + 1, k)
    }
}

/// Every way to take `min`, `min + 1`, ... of the items, for `n` sizes.
pub open spec fn combo_sizes<T>(items: Seq<T>, min: nat, n: nat) -> Seq<Seq<T>>
    decreases n,
{
    if n == 0 {
        Seq::empty()
    } else {
        combo_sizes(items, min, (n - 1) as nat) + combos(items, 0, (min + n - 1) as nat)
    }
}

/// Every way to take between `min` and `max` of the items, smaller sizes first.
pub open spec fn choices<T>(items: Seq<T>, min: nat, max: nat) -> Seq<Seq<T>> {
    if min > max {
        Seq::empty()
    } else {
        combo_sizes(items, min, (max - min + 1) as nat)
    }
}

/// Increasing positions from `lo` up to `hi`.
pub open spec fn ascending(at: Seq<int>, lo: int, hi: int) -> bool {
    &&& forall|a: int| 0 <= a < at.len() ==> lo <= (#[trigger] at[a]) < hi
    &&& forall|a: int, b: int| 0 <= a < b < at.len() ==> (#[trigger] at[a]) < (#[trigger] at[b])
}

/// The items at the positions.
pub open spec fn at_positions<T>(items: Seq<T>, at: Seq<int>) -> Seq<T> {
    Seq::new(at.len(), |a: int| items[at[a]])
}

/// Some increasing positions from `lo` on hold the choice.
pub open spec fn is_choice<T>(items: Seq<T>, lo: int, c: Seq<T>) -> bool {
    exists|at: Seq<int>|
        #![trigger at_positions(items, at)]
        ascending(at, lo, items.len() as int) && c == at_positions(items, at)
}

/// Every combination listed takes exactly `k` items, at increasing positions.
pub proof fn law_combos_are_choices<T>(items: Seq<T>, i: nat, k: nat, j: int)
    requires
        i <= items.len(),
        0 <= j < combos(items, i, k).len(),
    ensures
        combos(items, i, k)[j].len() == k,
        is_choice(items, i as int, combos(items, i, k)[j]),
    decreases items.len() - i,
{
    let c = combos(items, i, k)[j];
    if k == 0 {
        let at = Seq::<int>::empty();
        assert(c =~= at_positions(items, at));
    } else if i + k <= items.len() {
        let with = prefixed(items[i as int], combos(items, i + 1, (k - 1) as nat));
        if j < with.len() {
            let tail = combos(items, i + 1, (k - 1) as nat)[j];
            law_combos_are_choices(items, i + 1, (k - 1) as nat, j);
            let rest = choose|at: Seq<int>|
                #![trigger at_positions(items, at)]
                ascending(at, (i + 1) as int, items.len() as int) && tail == at_positions(items, at);
            let at = seq![i as int] + rest;
            assert(c == seq![items[i as int]] + tail);
            assert(c =~= at_positions(items, at));
            assert(ascending(at, i as int, items.len() as int)) by {
                assert forall|a: int, b: int| 0 <= a < b < at.len() implies (#[trigger] at[a])
                    < (#[trigger] at[b]) by {
                    if a == 0 {
                        assert(at[b] == rest[b - 1]);
                    } else {
                        assert(at[a] == rest[a - 1]);
                        assert(at[b] == rest[b - 1]);
                    }
                }
                assert forall|a: int| 0 <= a < at.len() implies i as int <= (#[trigger] at[a])
                    < items.len() by {
                    if a > 0 {
                        assert(at[a] == rest[a - 1]);
                    }
                }
            }
        } else {
            law_combos_are_choices(items, i + 1, k, j - with.len());
            assert(c == combos(items, i + 1, k)[j - with.len()]);
            let at = choose|at: Seq<int>|
                #![trigger at_positions(items, at)]
                ascending(at, (i + 1) as int, items.len() as int) && c == at_positions(items, at);
            assert(ascending(at, i as int, items.len() as int));
        }
    }
}

/// Every way to take items at increasing positions is listed.
pub proof fn law_choices_are_listed<T>(items: Seq<T>, i: nat, at: Seq<int>)
    requires
        i <= items.len(),
        ascending(at, i as int, items.len() as int),
    ensures
        combos(items, i, at.len()).contains(at_positions(items, at)),
    decreases items.len() - i,
{
    let k = at.len();
    let c = at_positions(items, at);
    let all = combos(items, i, k);
    if k == 0 {
        assert(c =~= Seq::<T>::empty());
        assert(all[0] == c);
    } else {
        lemma_ascending_room(at, i as int, items.len() as int);
        let with = prefixed(items[i as int], combos(items, i + 1, (k - 1) as nat));
        let rest = combos(items, i + 1, k);
        if at[0] == i {
            let tail = at.drop_first();
            assert(ascending(tail, (i + 1) as int, items.len() as int)) by {
                assert forall|a: int| 0 <= a < tail.len() implies (i + 1) as int <= (
                #[trigger] tail[a]) < items.len() by {
                    assert(tail[a] == at[a + 1]);
                    assert(at[0] < at[a + 1]);
                }
                assert forall|a: int, b: int| 0 <= a < b < tail.len() implies (#[trigger] tail[a])
                    < (#[trigger] tail[b]) by {
                    assert(at[a + 1] < at[b + 1]);
                }
            }
            law_choices_are_listed(items, i + 1, tail);
            let inner = combos(items, i + 1, (k - 1) as nat);
            let j = choose|j: int| 0 <= j < inner.len() && inner[j] == at_positions(items, tail);
            assert(with[j] =~= c);
            assert(all[j] == with[j]);
        } else {
            assert(ascending(at, (i + 1) as int, items.len() as int)) by {
                assert forall|a: int| 0 <= a < at.len() implies (i + 1) as int <= (#[trigger] at[a])
                    < items.len() by {
                    assert(at[0] >= i + 1);
                    if a > 0 {
                        assert(at[0] < at[a]);
                    }
                }
            }
            law_choices_are_listed(items, i + 1, at);
            let j = choose|j: int| 0 <= j < rest.len() && rest[j] == c;
            assert(all[with.len() + j] == c);
        }
    }
}

/// The positions of a list of `n` items, in order.
pub open spec fn places(n: nat) -> Seq<int> {
    Seq::new(n, |i: int| i)
}

/// No choice of positions is listed twice: the combinations are what is at
/// different lists of `k` increasing positions, one after the other.
pub proof fn law_no_choice_is_listed_twice<T>(items: Seq<T>, i: nat, k: nat)
    requires
        i <= items.len(),
    ensures
        ({
            let ways = combos(places(items.len()), i, k);
            &&& ways.no_duplicates()
            &&& forall|j: int|
                0 <= j < ways.len() ==> (#[trigger] ways[j]).len() == k && ascending(
                    ways[j],
                    i as int,
                    items.len() as int,
                )
            &&& combos(items, i, k) == Seq::new(
                ways.len(),
                |j: int| at_positions(items, ways[j]),
            )
        }),
    decreases items.len() - i,
{
    let all = places(items.len());
    let ways = combos(all, i, k);
    let made = Seq::new(ways.len(), |j: int| at_positions(items, ways[j]));
    if k == 0 {
        assert(ways[0].len() == 0);
        assert(at_positions(items, ways[0]) =~= Seq::<T>::empty());
        assert(combos(items, i, k) =~= made);
    } else if i + k > items.len() {
        assert(combos(items, i, k) =~= made);
    } else {
        let tails = combos(all, i + 1, (k - 1) as nat);
        let with = prefixed(all[i as int], tails);
        let rest = combos(all, i + 1, k);
        law_no_choice_is_listed_twice(items, i + 1, (k - 1) as nat);
        law_no_choice_is_listed_twice(items, i + 1, k);
        assert(all[i as int] == i);
        assert forall|j: int| 0 <= j < ways.len() implies (#[trigger] ways[j]).len() == k
            && ascending(ways[j], i as int, items.len() as int) && (j < with.len() ==> ways[j][0]
            == i) && (j >= with.len() ==> ways[j][0] > i) && combos(items, i, k)[j]
            == at_positions(items, ways[j]) by {
            let way = ways[j];
            if j < with.len() {
                let tail = tails[j];
                assert(way == seq![i as int] + tail);
                assert forall|a: int| 0 <= a < way.len() implies i as int <= (#[trigger] way[a])
                    < items.len() by {
                    if a > 0 {
                        assert(way[a] == tail[a - 1]);
                    }
                }
                assert forall|a: int, b: int| 0 <= a < b < way.len() implies (#[trigger] way[a])
                    < (#[trigger] way[b]) by {
                    assert(way[b] == tail[b - 1]);
                    if a > 0 {
                        assert(way[a] == tail[a - 1]);
                    }
                }
                assert(combos(items, i, k)[j] == seq![items[i as int]] + at_positions(items, tail));
                assert(combos(items, i, k)[j] =~= at_positions(items, way));
            } else {
                assert(way == rest[j - with.len()]);
                assert(ascending(way, (i + 1) as int, items.len() as int));
                assert(way[0] >= i + 1);
                assert(combos(items, i, k)[j] == combos(items, i + 1, k)[j - with.len()]);
            }
        }
        assert(combos(items, i, k) =~= made);
        assert forall|a: int, b: int| 0 <= a < ways.len() && 0 <= b < ways.len() && a
            != b implies ways[a] != ways[b] by {
            assert(ways[a].len() == k && ways[b].len() == k);
            if a < with.len() && b < with.len() {
                assert(tails[a] != tails[b]);
                assert(ways[a] == seq![i as int] + tails[a]);
                assert(ways[b] == seq![i as int] + tails[b]);
                if ways[a] == ways[b] {
                    assert(tails[a] =~= ways[a].subrange(1, k as int));
                    assert(tails[b] =~= ways[b].subrange(1, k as int));
                }
            } else if a >= with.len() && b >= with.len() {
                assert(ways[a] == rest[a - with.len()]);
                assert(ways[b] == rest[b - with.len()]);
            }
        }
    }
}

/// Increasing positions need as much room as there are of them.
proof fn lemma_ascending_room(at: Seq<int>, lo: int, hi: int)
    requires
        ascending(at, lo, hi),
        lo <= hi,
    ensures
        lo + at.len() <= hi,
    decreases at.len(),
{
    if at.len() > 0 {
        let init = at.drop_last();
        let last = at.last();
        assert(ascending(init, lo, last)) by {
            assert forall|a: int| 0 <= a < init.len() implies lo <= (#[trigger] init[a]) < last by {
                assert(at[a] < at[at.len() - 1]);
            }
        }
        lemma_ascending_room(init, lo, last);
    }
}

/// Every way to take `k` of the items from index `i` on.
fn combos_from<T: Copy>(items: &Vec<T>, i: usize, k: usize) -> (r: Vec<Vec<T>>)
    requires
        i <= items.len(),
    ensures
        views(r@) == combos(items@, i as nat, k as nat),
    decreases items.len() - i,
{
    let mut out: Vec<Vec<T>> = Vec::new();
    if k == 0 {
        out.push(Vec::new());
        assert(views(out@) =~= seq![Seq::<T>::empty()]);
        return out;
    }
    if items.len() - i < k {
        return out;
    }
    let inner = combos_from(items, i + 1, k - 1);
    let ghost with = prefixed(items@[i as int], views(inner@));
    let mut j: usize = 0;
    while j < inner.len()
        invariant
            j <= inner.len(),
            i < items.len(),
            with == prefixed(items@[i as int], views(inner@)),
            views(out@) == with.subrange(0, j as int),
        decreases inner.len() - j,
    {
        let mut one: Vec<T> = Vec::new();
        one.push(items[i]);
        crate::seqs::extend(&mut one, &inner[j]);
        assert(one@ =~= with[j as int]);
        out.push(one);
        j = j + 1;
        assert(with.subrange(0, j as int) =~= with.subrange(0, j - 1).push(with[j - 1]));
    }
    assert(with.subrange(0, inner@.len() as int) =~= with);
    let mut more = combos_from(items, i + 1, k);
    out.append(&mut more);
    out
}

/// All `k`-element subsets of `items`, in lexicographic order of positions.
pub fn combinations<T: Copy>(items: &Vec<T>, k: usize) -> (r: Vec<Vec<T>>)
    ensures
        views(r@) == combos(items@, 0, k as nat),
{
    combos_from(items, 0, k)
}

/// Every way to take between `min` and `max` of the items, smaller sizes first.
pub fn choices_of<T: Copy>(items: &Vec<T>, min: usize, max: usize) -> (r: Vec<Vec<T>>)
    requires
        max <= items.len(),
    ensures
        views(r@) == choices(items@, min as nat, max as nat),
{
    let mut out: Vec<Vec<T>> = Vec::new();
    if min > max {
        return out;
    }
    let mut k: usize = min;
    let mut left = true;
    while left
        invariant
            min <= k <= max <= items.len(),
            left ==> views(out@) == combo_sizes(items@, min as nat, (k - min) as nat),
            !left ==> views(out@) == choices(items@, min as nat, max as nat),
        decreases max - k, (if left { 1nat } else { 0nat }),
    {
        let mut more = combinations(items, k);
        out.append(&mut more);
        if k == max {
            left = false;
        } else {
            k = k + 1;
        }
    }
    out
}

} // verus!
