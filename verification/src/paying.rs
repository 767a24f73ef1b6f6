//! Every payment the engine lists pays for what it is listed for.
use crate::action::PaymentModel;
use crate::mana::{capacity, pick, pick_n, pips_covered, search, search_pool, search_taps, source_at, source_ranks, spend_pool, tapped_mana, yields, Pick};
use crate::seqs::{
    lemma_dedup_distinct, lemma_occurrences, lemma_rank_sort_places, lemma_sort_distinct,
    lemma_sort_members, law_sort_permutes, rank_sort, sort,
};
use crate::state::GameModel;
use crate::types::{Mana, ManaCost, ManaPool, ObjectId, Seat};
use vstd::prelude::*;

verus! {

// ----- the combinations that are searched -----

proof fn lemma_with(p: ManaPool, c: nat, n: u8, j: nat)
    requires
        c < 6,
        j < 6,
    ensures
        p.with(Mana::at(c), n).amount(Mana::at(j)) == if j == c {
            n
        } else {
            p.amount(Mana::at(j))
        },
{
}

/// The mana of one kind in a combination.
pub open spec fn of_kind_in(way: (ManaPool, ManaPool), c: nat) -> int {
    way.0.amount(Mana::at(c)) + way.1.amount(Mana::at(c))
}

/// What the kinds from place `c` on come to beyond the coloured part of a cost.
pub open spec fn beyond(way: (ManaPool, ManaPool), cost: ManaCost, c: nat) -> int
    decreases 5 - c,
{
    if c >= 5 {
        of_kind_in(way, 5)
    } else {
        of_kind_in(way, c) - cost.pips(Mana::at(c)->Colored_0) + beyond(way, cost, c + 1)
    }
}

/// From place `c` on a combination pays the colours, and takes no more from
/// the pool than there is.
pub open spec fn pays_from(
    way: (ManaPool, ManaPool),
    pool: ManaPool,
    cost: ManaCost,
    c: nat,
) -> bool {
    &&& forall|j: nat|
        c <= j < 6 ==> way.1.amount(#[trigger] Mana::at(j)) <= pool.amount(Mana::at(j))
    &&& forall|j: nat|
        c <= j < 5 ==> of_kind_in(way, j) >= cost.pips((#[trigger] Mana::at(j))->Colored_0)
}

/// Two pools hold the same of every kind before place `c`.
pub open spec fn same_before(a: ManaPool, b: ManaPool, c: nat) -> bool {
    forall|j: nat| j < c && j < 6 ==> a.amount(#[trigger] Mana::at(j)) == b.amount(Mana::at(j))
}

/// What every combination found from place `c` on has.
pub open spec fn pays_exactly(
    way: (ManaPool, ManaPool),
    pool: ManaPool,
    cost: ManaCost,
    left: int,
    tapped: ManaPool,
    pooled: ManaPool,
    c: nat,
) -> bool {
    &&& pays_from(way, pool, cost, c)
    &&& beyond(way, cost, c) == left
    &&& same_before(way.0, tapped, c)
    &&& same_before(way.1, pooled, c)
}

proof fn lemma_search(
    c: nat,
    counts: ManaPool,
    pool: ManaPool,
    cost: ManaCost,
    left: int,
    tapped: ManaPool,
    pooled: ManaPool,
)
    requires
        c <= 5,
    ensures
        forall|i: int|
            0 <= i < search(c, counts, pool, cost, left, tapped, pooled).len() ==> pays_exactly(
                #[trigger] search(c, counts, pool, cost, left, tapped, pooled)[i],
                pool,
                cost,
                left,
                tapped,
                pooled,
                c,
            ),
    decreases 5 - c, 3nat, 0nat,
{
    let all = search(c, counts, pool, cost, left, tapped, pooled);
    if left < 0 {
    } else if c >= 5 {
        assert forall|i: int| 0 <= i < all.len() implies pays_exactly(
            #[trigger] all[i],
            pool,
            cost,
            left,
            tapped,
            pooled,
            c,
        ) by {
            let way = all[i];
            let t = if left < counts.colorless {
                left
            } else {
                counts.colorless as int
            };
            assert(Mana::at(5) == Mana::Colorless);
            assert forall|j: nat| j < 6 implies way.0.amount(#[trigger] Mana::at(j)) == (if j == 5 {
                t as u8
            } else {
                tapped.amount(Mana::at(j))
            }) && way.1.amount(Mana::at(j)) == (if j == 5 {
                (left - t) as u8
            } else {
                pooled.amount(Mana::at(j))
            }) by {
                lemma_with(tapped, 5, t as u8, j);
                lemma_with(pooled, 5, (left - t) as u8, j);
            }
            assert(way.0.amount(Mana::at(5)) == t);
        }
    } else {
        let n = counts.amount(Mana::at(c)) as nat + 1;
        lemma_search_taps(c, counts, pool, cost, left, tapped, pooled, n);
        assert(all == search_taps(c, counts, pool, cost, left, tapped, pooled, n));
    }
}

proof fn lemma_search_taps(
    c: nat,
    counts: ManaPool,
    pool: ManaPool,
    cost: ManaCost,
    left: int,
    tapped: ManaPool,
    pooled: ManaPool,
    n: nat,
)
    requires
        c < 5,
        n <= counts.amount(Mana::at(c)) + 1,
    ensures
        forall|i: int|
            0 <= i < search_taps(c, counts, pool, cost, left, tapped, pooled, n).len()
                ==> pays_exactly(
                #[trigger] search_taps(c, counts, pool, cost, left, tapped, pooled, n)[i],
                pool,
                cost,
                left,
                tapped,
                pooled,
                c,
            ),
    decreases 5 - c, 2nat, n,
{
    if n > 0 {
        let a = search_taps(c, counts, pool, cost, left, tapped, pooled, (n - 1) as nat);
        let most = pool.amount(Mana::at(c)) as nat + 1;
        let b = search_pool(c, counts, pool, cost, left, tapped, pooled, (n - 1) as nat, most);
        lemma_search_taps(c, counts, pool, cost, left, tapped, pooled, (n - 1) as nat);
        lemma_search_pool(c, counts, pool, cost, left, tapped, pooled, (n - 1) as nat, most);
        assert forall|i: int| 0 <= i < (a + b).len() implies pays_exactly(
            #[trigger] (a + b)[i],
            pool,
            cost,
            left,
            tapped,
            pooled,
            c,
        ) by {
            if i < a.len() {
                assert((a + b)[i] == a[i]);
            } else {
                assert((a + b)[i] == b[i - a.len()]);
            }
        }
    }
}

proof fn lemma_search_pool(
    c: nat,
    counts: ManaPool,
    pool: ManaPool,
    cost: ManaCost,
    left: int,
    tapped: ManaPool,
    pooled: ManaPool,
    t: nat,
    n: nat,
)
    requires
        c < 5,
        t <= counts.amount(Mana::at(c)),
        n <= pool.amount(Mana::at(c)) + 1,
    ensures
        forall|i: int|
            0 <= i < search_pool(c, counts, pool, cost, left, tapped, pooled, t, n).len()
                ==> pays_exactly(
                #[trigger] search_pool(c, counts, pool, cost, left, tapped, pooled, t, n)[i],
                pool,
                cost,
                left,
                tapped,
                pooled,
                c,
            ),
    decreases 5 - c, 1nat, n,
{
    if n > 0 {
        let p = (n - 1) as nat;
        let a = search_pool(c, counts, pool, cost, left, tapped, pooled, t, p);
        lemma_search_pool(c, counts, pool, cost, left, tapped, pooled, t, p);
        let pips = cost.pips(Mana::at(c)->Colored_0);
        let extra = t + p - pips;
        if 0 <= extra <= left {
            let taps = tapped.with(Mana::at(c), t as u8);
            let pools = pooled.with(Mana::at(c), p as u8);
            let b = search(c + 1, counts, pool, cost, left - extra, taps, pools);
            lemma_search(c + 1, counts, pool, cost, left - extra, taps, pools);
            assert forall|i: int| 0 <= i < (a + b).len() implies pays_exactly(
                #[trigger] (a + b)[i],
                pool,
                cost,
                left,
                tapped,
                pooled,
                c,
            ) by {
                if i < a.len() {
                    assert((a + b)[i] == a[i]);
                } else {
                    let way = b[i - a.len()];
                    assert((a + b)[i] == way);
                    assert forall|j: nat| j < 6 && j < c implies way.0.amount(
                        #[trigger] Mana::at(j),
                    ) == tapped.amount(Mana::at(j)) && way.1.amount(Mana::at(j)) == pooled.amount(
                        Mana::at(j),
                    ) by {
                        lemma_with(tapped, c, t as u8, j);
                        lemma_with(pooled, c, p as u8, j);
                    }
                    lemma_with(tapped, c, t as u8, c);
                    lemma_with(pooled, c, p as u8, c);
                    assert(way.0.amount(Mana::at(c)) == t);
                    assert(way.1.amount(Mana::at(c)) == p);
                    assert forall|j: nat| c <= j < 6 implies way.1.amount(#[trigger] Mana::at(j))
                        <= pool.amount(Mana::at(j)) by {
                        if j > c {
                            assert(c + 1 <= j);
                        }
                    }
                    assert forall|j: nat| c <= j < 5 implies of_kind_in(way, j) >= cost.pips(
                        (#[trigger] Mana::at(j))->Colored_0,
                    ) by {
                        if j > c {
                            assert(c + 1 <= j);
                        }
                    }
                    assert(beyond(way, cost, c) == of_kind_in(way, c) - pips + beyond(
                        way,
                        cost,
                        c + 1,
                    ));
                }
            }
        }
    }
}

// ----- what sources are worth -----

/// What a source makes of one kind.
pub open spec fn unit_worth(
    sources: Seq<(ObjectId, Mana, i32)>,
    id: ObjectId,
    m: Mana,
) -> nat {
    match source_at(sources, id, 0) {
        Some((k, n)) => if k == m {
            yields(n) as nat
        } else {
            0
        },
        None => 0,
    }
}

/// What sources make of one kind.
pub open spec fn worth(
    sources: Seq<(ObjectId, Mana, i32)>,
    ids: Seq<ObjectId>,
    m: Mana,
) -> nat
    decreases ids.len(),
{
    if ids.len() == 0 {
        0
    } else {
        worth(sources, ids.drop_last(), m) + unit_worth(sources, ids.last(), m)
    }
}

proof fn lemma_worth_push(
    sources: Seq<(ObjectId, Mana, i32)>,
    ids: Seq<ObjectId>,
    id: ObjectId,
    m: Mana,
)
    ensures
        worth(sources, ids.push(id), m) == worth(sources, ids, m) + unit_worth(sources, id, m),
{
    assert(ids.push(id).drop_last() =~= ids);
}

proof fn lemma_worth_add(
    sources: Seq<(ObjectId, Mana, i32)>,
    a: Seq<ObjectId>,
    b: Seq<ObjectId>,
    m: Mana,
)
    ensures
        worth(sources, a + b, m) == worth(sources, a, m) + worth(sources, b, m),
    decreases b.len(),
{
    if b.len() == 0 {
        assert(a + b =~= a);
    } else {
        lemma_worth_add(sources, a, b.drop_last(), m);
        assert((a + b).drop_last() =~= a + b.drop_last());
    }
}

proof fn lemma_worth_remove(
    sources: Seq<(ObjectId, Mana, i32)>,
    ids: Seq<ObjectId>,
    j: int,
    m: Mana,
)
    requires
        0 <= j < ids.len(),
    ensures
        worth(sources, ids, m) == worth(sources, ids.remove(j), m) + unit_worth(
            sources,
            ids[j],
            m,
        ),
    decreases ids.len(),
{
    if j == ids.len() - 1 {
        assert(ids.remove(j) =~= ids.drop_last());
    } else {
        lemma_worth_remove(sources, ids.drop_last(), j, m);
        assert(ids.remove(j).drop_last() =~= ids.drop_last().remove(j));
    }
}

proof fn lemma_worth_permutes(
    sources: Seq<(ObjectId, Mana, i32)>,
    a: Seq<ObjectId>,
    b: Seq<ObjectId>,
    m: Mana,
)
    requires
        a.to_multiset() == b.to_multiset(),
    ensures
        worth(sources, a, m) == worth(sources, b, m),
    decreases a.len(),
{
    broadcast use vstd::seq_lib::group_to_multiset_ensures;

    assert(a.len() == a.to_multiset().len() && b.len() == b.to_multiset().len());
    if a.len() > 0 {
        let x = a.last();
        assert(a.contains(x));
        assert(a.to_multiset().count(x) > 0);
        assert(b.to_multiset().count(x) > 0);
        assert(b.contains(x));
        let j = choose|j: int| 0 <= j < b.len() && b[j] == x;
        assert(a.remove(a.len() - 1) =~= a.drop_last());
        lemma_worth_permutes(sources, a.drop_last(), b.remove(j), m);
        lemma_worth_remove(sources, b, j, m);
    }
}

/// Distinct sources can be tapped, and make what they are worth.
proof fn lemma_tapped(
    sources: Seq<(ObjectId, Mana, i32)>,
    tap: Seq<ObjectId>,
    seat: Seat,
    n: nat,
)
    requires
        n <= tap.len(),
        tap.no_duplicates(),
        forall|i: int| 0 <= i < tap.len() ==> source_at(sources, #[trigger] tap[i], 0) is Some,
    ensures
        tapped_mana(sources, tap, seat, n) is Ok,
        forall|m: Mana|
            #![trigger tapped_mana(sources, tap, seat, n)->Ok_0.to_multiset().count(m)]
            tapped_mana(sources, tap, seat, n)->Ok_0.to_multiset().count(m) == worth(
                sources,
                tap.subrange(0, n as int),
                m,
            ),
    decreases n,
{
    broadcast use vstd::seq_lib::group_to_multiset_ensures;

    if n == 0 {
        assert forall|m: Mana| Seq::<Mana>::empty().to_multiset().count(m) == worth(
            sources,
            tap.subrange(0, 0),
            m,
        ) by {
            assert(!Seq::<Mana>::empty().contains(m));
        }
    } else {
        lemma_tapped(sources, tap, seat, (n - 1) as nat);
        assert(tap.subrange(0, n as int) =~= tap.subrange(0, n - 1).push(tap[n - 1]));
        assert(!tap.subrange(0, n - 1).contains(tap[n - 1]));
        let sofar = tapped_mana(sources, tap, seat, (n - 1) as nat)->Ok_0;
        let (k, a) = source_at(sources, tap[n - 1], 0)->0;
        let more = ManaPool::repeat(k, yields(a) as nat);
        assert forall|m: Mana| (sofar + more).to_multiset().count(m) == worth(
            sources,
            tap.subrange(0, n as int),
            m,
        ) by {
            vstd::seq_lib::lemma_multiset_commutative(sofar, more);
            lemma_repeat(k, yields(a) as nat, m);
            lemma_worth_push(sources, tap.subrange(0, n - 1), tap[n - 1], m);
        }
    }
}

proof fn lemma_repeat(k: Mana, n: nat, m: Mana)
    ensures
        ManaPool::repeat(k, n).to_multiset().count(m) == if k == m {
            n
        } else {
            0
        },
    decreases n,
{
    broadcast use vstd::seq_lib::group_to_multiset_ensures;

    if n > 0 {
        lemma_repeat(k, (n - 1) as nat, m);
        assert(ManaPool::repeat(k, n) =~= ManaPool::repeat(k, (n - 1) as nat).push(k));
    } else {
        assert(!ManaPool::repeat(k, n).contains(m));
    }
}

/// Units the pool holds can be spent.
proof fn lemma_spend(pool: ManaPool, units: Seq<Mana>, seat: Seat, n: nat)
    requires
        n <= units.len(),
        forall|m: Mana| #[trigger] units.to_multiset().count(m) <= pool.amount(m),
    ensures
        spend_pool(pool, units, seat, n) is Ok,
        forall|m: Mana|
            #![trigger spend_pool(pool, units, seat, n)->Ok_0.amount(m)]
            spend_pool(pool, units, seat, n)->Ok_0.amount(m) == pool.amount(m) - units.subrange(
                0,
                n as int,
            ).to_multiset().count(m),
    decreases n,
{
    broadcast use vstd::seq_lib::group_to_multiset_ensures;

    if n == 0 {
        assert forall|m: Mana| pool.amount(m) == pool.amount(m) - units.subrange(
            0,
            0,
        ).to_multiset().count(m) by {
            assert(!units.subrange(0, 0).contains(m));
        }
    } else {
        lemma_spend(pool, units, seat, (n - 1) as nat);
        let before = spend_pool(pool, units, seat, (n - 1) as nat)->Ok_0;
        let u = units[n - 1];
        let head = units.subrange(0, n as int);
        assert(head =~= units.subrange(0, n - 1).push(u));
        let tail = units.subrange(n as int, units.len() as int);
        assert(units =~= head + tail);
        vstd::seq_lib::lemma_multiset_commutative(head, tail);
        assert(units.to_multiset().count(u) >= head.to_multiset().count(u));
        assert(before.amount(u) >= 1);
        let after = before.minus(u, 1);
        assert forall|m: Mana| after.amount(m) == pool.amount(m) - head.to_multiset().count(m) by {
            if m != u {
                assert(after.amount(m) == before.amount(m));
            }
        }
    }
}

/// A list of mana is as long as its kinds are many.
proof fn lemma_kinds_add_up(s: Seq<Mana>)
    ensures
        s.len() == s.to_multiset().count(Mana::at(0)) + s.to_multiset().count(Mana::at(1))
            + s.to_multiset().count(Mana::at(2)) + s.to_multiset().count(Mana::at(3))
            + s.to_multiset().count(Mana::at(4)) + s.to_multiset().count(Mana::at(5)),
    decreases s.len(),
{
    broadcast use vstd::seq_lib::group_to_multiset_ensures;

    if s.len() == 0 {
        assert forall|m: Mana| s.to_multiset().count(m) == 0 by {
            assert(!s.contains(m));
        }
    } else {
        lemma_kinds_add_up(s.drop_last());
        assert(s =~= s.drop_last().push(s.last()));
        let x = s.last();
        assert(x == Mana::at(0) || x == Mana::at(1) || x == Mana::at(2) || x == Mana::at(3) || x
            == Mana::at(4) || x == Mana::at(5));
    }
}

// ----- picking permanents -----

/// Each source is listed with what it makes.
pub open spec fn truly_sources(
    g: GameModel,
    seat: Seat,
    sources: Seq<(ObjectId, Mana, i32)>,
) -> bool {
    &&& forall|i: int|
        0 <= i < sources.len() ==> g.source(seat, (#[trigger] sources[i]).0) == Some(
            (sources[i].1, sources[i].2),
        )
    &&& forall|i: int, j: int|
        0 <= i < j < sources.len() ==> (#[trigger] sources[i]).0 != (#[trigger] sources[j]).0
}

proof fn lemma_sources_n(g: GameModel, seat: Seat, ids: Seq<ObjectId>, n: nat)
    requires
        n <= ids.len(),
        ids.no_duplicates(),
    ensures
        truly_sources(g, seat, g.sources_n(seat, ids, n)),
        g.sources_n(seat, ids, n).len() <= n,
        forall|i: int|
            0 <= i < g.sources_n(seat, ids, n).len() ==> ids.subrange(0, n as int).contains(
                (#[trigger] g.sources_n(seat, ids, n)[i]).0,
            ),
    decreases n,
{
    if n > 0 {
        let rest = g.sources_n(seat, ids, (n - 1) as nat);
        lemma_sources_n(g, seat, ids, (n - 1) as nat);
        let head = ids.subrange(0, n - 1);
        let more = ids.subrange(0, n as int);
        assert(more =~= head.push(ids[n - 1]));
        assert(more[n - 1] == ids[n - 1]);
        assert(!head.contains(ids[n - 1]));
        assert forall|x: ObjectId| head.contains(x) implies more.contains(x) by {
            let k = choose|k: int| 0 <= k < head.len() && head[k] == x;
            assert(more[k] == x);
        }
    }
}

/// The sources of a seat are what they say, each listed once.
proof fn lemma_sources(g: GameModel, seat: Seat)
    requires
        g.battlefield(seat).no_duplicates(),
    ensures
        truly_sources(g, seat, g.sources(seat)),
        g.sources(seat).len() <= g.battlefield(seat).len(),
{
    let ids = g.battlefield(seat);
    let raw = g.sources_n(seat, ids, ids.len());
    lemma_sources_n(g, seat, ids, ids.len());
    assert(raw.no_duplicates());
    lemma_sort_distinct(raw);
    law_sort_permutes(raw);
    let all = sort(raw);
    assert forall|i: int| 0 <= i < all.len() implies raw.contains(#[trigger] all[i]) by {
        lemma_sort_members(raw, all[i]);
        assert(all.contains(all[i]));
    }
    assert forall|i: int| 0 <= i < all.len() implies g.source(seat, (#[trigger] all[i]).0) == Some(
        (all[i].1, all[i].2),
    ) by {
        assert(raw.contains(all[i]));
    }
    assert forall|i: int, j: int| 0 <= i < j < all.len() implies (#[trigger] all[i]).0
        != (#[trigger] all[j]).0 by {
        assert(all[i] != all[j]);
        assert(g.source(seat, all[i].0) == Some((all[i].1, all[i].2)));
        assert(g.source(seat, all[j].0) == Some((all[j].1, all[j].2)));
    }
}

proof fn lemma_source_at(
    g: GameModel,
    seat: Seat,
    sources: Seq<(ObjectId, Mana, i32)>,
    k: int,
    i: nat,
)
    requires
        truly_sources(g, seat, sources),
        i <= k < sources.len(),
    ensures
        source_at(sources, sources[k].0, i) == Some((sources[k].1, sources[k].2)),
    decreases k - i,
{
    if i < k {
        lemma_source_at(g, seat, sources, k, i + 1);
    }
}

/// Sources of one kind, each with what it makes.
pub open spec fn truly_of_kind(
    sources: Seq<(ObjectId, Mana, i32)>,
    list: Seq<(ObjectId, i32, bool)>,
    m: Mana,
) -> bool {
    &&& forall|i: int|
        0 <= i < list.len() ==> source_at(sources, (#[trigger] list[i]).0, 0) == Some(
            (m, list[i].1),
        )
    &&& forall|i: int, j: int|
        0 <= i < j < list.len() ==> (#[trigger] list[i]).0 != (#[trigger] list[j]).0
}

proof fn lemma_of_kind(
    g: GameModel,
    seat: Seat,
    sources: Seq<(ObjectId, Mana, i32)>,
    m: Mana,
    n: nat,
)
    requires
        truly_sources(g, seat, sources),
        n <= sources.len(),
    ensures
        truly_of_kind(sources, g.of_kind(sources, m, n), m),
        g.of_kind(sources, m, n).len() <= n,
        forall|i: int|
            0 <= i < g.of_kind(sources, m, n).len() ==> exists|k: int|
                0 <= k < n && (#[trigger] g.of_kind(sources, m, n)[i]).0 == (
                #[trigger] sources[k]).0,
    decreases n,
{
    if n > 0 {
        lemma_of_kind(g, seat, sources, m, (n - 1) as nat);
        lemma_source_at(g, seat, sources, n - 1, 0);
        let rest = g.of_kind(sources, m, (n - 1) as nat);
        let all = g.of_kind(sources, m, n);
        assert forall|i: int| 0 <= i < all.len() implies exists|k: int|
            0 <= k < n && (#[trigger] all[i]).0 == (#[trigger] sources[k]).0 by {
            if i < rest.len() {
                assert(all[i] == rest[i]);
                let k = choose|k: int| 0 <= k < n - 1 && rest[i].0 == (#[trigger] sources[k]).0;
                assert(all[i].0 == sources[k].0);
            } else {
                assert(all[i].0 == sources[n - 1].0);
            }
        }
        assert forall|i: int, j: int| 0 <= i < j < all.len() implies (#[trigger] all[i]).0
            != (#[trigger] all[j]).0 by {
            if j >= rest.len() {
                assert(all[i] == rest[i]);
                let k = choose|k: int| 0 <= k < n - 1 && rest[i].0 == (#[trigger] sources[k]).0;
                assert(sources[k].0 != sources[n - 1].0);
            }
        }
    }
}

/// The picked sources are distinct, of the kind, and make what was counted.
proof fn lemma_pick_n(
    sources: Seq<(ObjectId, Mana, i32)>,
    list: Seq<(ObjectId, i32, bool)>,
    strategy: Pick,
    need: int,
    m: Mana,
    n: nat,
)
    requires
        truly_of_kind(sources, list, m),
        n <= list.len() <= usize::MAX,
    ensures
        ({
            let order = rank_sort(source_ranks(list, strategy));
            let (made, chosen) = pick_n(list, order, need, n);
            &&& chosen.no_duplicates()
            &&& made == worth(sources, chosen, m)
            &&& forall|i: int|
                0 <= i < chosen.len() ==> exists|k: int|
                    0 <= k < n && #[trigger] chosen[i] == list[(
                    #[trigger] order[k]).item as int].0
            &&& forall|i: int|
                0 <= i < chosen.len() ==> (source_at(sources, #[trigger] chosen[i], 0) matches Some(
                    (k, _),
                ) && k == m)
        }),
    decreases n,
{
    let ranks = source_ranks(list, strategy);
    let order = rank_sort(ranks);
    lemma_rank_sort_places(ranks);
    if n > 0 {
        lemma_pick_n(sources, list, strategy, need, m, (n - 1) as nat);
        let (made, chosen) = pick_n(list, order, need, (n - 1) as nat);
        let p = order[n - 1].item as int;
        if made < need {
            let id = list[p].0;
            let more = chosen.push(id);
            lemma_worth_push(sources, chosen, id, m);
            assert(source_at(sources, list[p].0, 0) == Some((m, list[p].1)));
            assert forall|i: int| 0 <= i < chosen.len() implies #[trigger] chosen[i] != id by {
                let k = choose|k: int|
                    0 <= k < n - 1 && chosen[i] == list[(#[trigger] order[k]).item as int].0;
                assert(order[k].item != order[n - 1].item);
            }
            assert forall|i: int| 0 <= i < more.len() implies exists|k: int|
                0 <= k < n && #[trigger] more[i] == list[(#[trigger] order[k]).item as int].0 by {
                if i < chosen.len() {
                    assert(more[i] == chosen[i]);
                    let k = choose|k: int|
                        0 <= k < n - 1 && chosen[i] == list[(#[trigger] order[k]).item as int].0;
                    assert(more[i] == list[order[k].item as int].0);
                } else {
                    assert(more[i] == list[order[n - 1].item as int].0);
                }
            }
        } else {
            assert forall|i: int| 0 <= i < chosen.len() implies exists|k: int|
                0 <= k < n && #[trigger] chosen[i] == list[(#[trigger] order[k]).item as int].0 by {
                let k = choose|k: int|
                    0 <= k < n - 1 && chosen[i] == list[(#[trigger] order[k]).item as int].0;
                assert(chosen[i] == list[order[k].item as int].0);
            }
        }
    }
}

/// The kind of mana a source makes.
pub open spec fn made_by(sources: Seq<(ObjectId, Mana, i32)>, id: ObjectId) -> Mana {
    let (m, n) = source_at(sources, id, 0)->0;
    m
}

/// Distinct permanents that are sources.
pub open spec fn tappable(sources: Seq<(ObjectId, Mana, i32)>, tap: Seq<ObjectId>) -> bool {
    &&& tap.no_duplicates()
    &&& forall|i: int| 0 <= i < tap.len() ==> source_at(sources, #[trigger] tap[i], 0) is Some
}

/// The picked permanents are distinct sources of the kinds before place `k`
/// and make enough of each; the units spent are as many as the combination has.
#[verifier::rlimit(60)]
proof fn lemma_realise(
    g: GameModel,
    seat: Seat,
    sources: Seq<(ObjectId, Mana, i32)>,
    tapped: ManaPool,
    pooled: ManaPool,
    strategy: Pick,
    k: nat,
)
    requires
        k <= 6,
        truly_sources(g, seat, sources),
        sources.len() <= usize::MAX,
        g.realise(sources, tapped, pooled, strategy, k) is Some,
    ensures
        ({
            let (tap, units) = g.realise(sources, tapped, pooled, strategy, k)->0;
            &&& tappable(sources, tap)
            &&& forall|i: int|
                0 <= i < tap.len() ==> exists|j: nat|
                    j < k && made_by(sources, #[trigger] tap[i]) == #[trigger] Mana::at(j)
            &&& forall|j: nat|
                j < k ==> worth(sources, tap, #[trigger] Mana::at(j)) >= tapped.amount(Mana::at(j))
            &&& forall|j: nat|
                j < 6 ==> units.to_multiset().count(#[trigger] Mana::at(j)) == if j < k {
                    pooled.amount(Mana::at(j)) as nat
                } else {
                    0
                }
        }),
    decreases k,
{
    broadcast use vstd::seq_lib::group_to_multiset_ensures;

    if k == 0 {
        assert forall|j: nat| j < 6 implies Seq::<Mana>::empty().to_multiset().count(
            #[trigger] Mana::at(j),
        ) == 0 by {
            assert(!Seq::<Mana>::empty().contains(Mana::at(j)));
        }
    } else {
        let m = Mana::at((k - 1) as nat);
        lemma_realise(g, seat, sources, tapped, pooled, strategy, (k - 1) as nat);
        let (tap, units) = g.realise(sources, tapped, pooled, strategy, (k - 1) as nat)->0;
        let more_units = ManaPool::repeat(m, pooled.amount(m) as nat);
        let spent = units + more_units;
        assert forall|j: nat| j < 6 implies spent.to_multiset().count(#[trigger] Mana::at(j)) == (if j
            < k {
            pooled.amount(Mana::at(j)) as nat
        } else {
            0
        }) by {
            vstd::seq_lib::lemma_multiset_commutative(units, more_units);
            lemma_repeat(m, pooled.amount(m) as nat, Mana::at(j));
            lemma_at_injective(j, (k - 1) as nat);
        }
        if tapped.amount(m) == 0 {
            assert forall|i: int| 0 <= i < tap.len() implies exists|j: nat|
                j < k && made_by(sources, #[trigger] tap[i]) == #[trigger] Mana::at(
                    j,
                ) by {
                let j = choose|j: nat|
                    j < k - 1 && made_by(sources, tap[i]) == #[trigger] Mana::at(j);
                assert(j < k && made_by(sources, tap[i]) == Mana::at(j));
            }
        } else {
            let list = g.of_kind(sources, m, sources.len());
            lemma_of_kind(g, seat, sources, m, sources.len());
            let need = tapped.amount(m) as int;
            let order = rank_sort(source_ranks(list, strategy));
            lemma_pick_n(sources, list, strategy, need, m, list.len());
            lemma_order_len(list, strategy);
            let ids = pick(list, need, strategy)->0;
            let all = tap + ids;
            assert(worth(sources, ids, m) >= need);
            assert forall|i: int| 0 <= i < all.len() implies source_at(
                sources,
                #[trigger] all[i],
                0,
            ) is Some && exists|j: nat|
                j < k && made_by(sources, all[i]) == #[trigger] Mana::at(j) by {
                if i < tap.len() {
                    assert(all[i] == tap[i]);
                    let j = choose|j: nat|
                        j < k - 1 && made_by(sources, tap[i]) == #[trigger] Mana::at(j);
                    assert(j < k && made_by(sources, all[i]) == Mana::at(j));
                } else {
                    assert(all[i] == ids[i - tap.len()]);
                    assert(made_by(sources, all[i]) == Mana::at((k - 1) as nat));
                }
            }
            assert forall|a: int, b: int| 0 <= a < tap.len() && 0 <= b < ids.len() implies tap[a]
                != ids[b] by {
                let j = choose|j: nat|
                    j < k - 1 && made_by(sources, tap[a]) == #[trigger] Mana::at(j);
                lemma_at_injective(j, (k - 1) as nat);
                assert(made_by(sources, ids[b]) == m);
            }
            assert(all.no_duplicates()) by {
                assert forall|a: int, b: int|
                    0 <= a < all.len() && 0 <= b < all.len() && a != b implies all[a] != all[b] by {
                    if a < tap.len() && b >= tap.len() {
                        assert(tap[a] != ids[b - tap.len()]);
                    } else if a >= tap.len() && b < tap.len() {
                        assert(tap[b] != ids[a - tap.len()]);
                    }
                }
            }
            assert forall|j: nat| j < k implies worth(sources, all, #[trigger] Mana::at(j))
                >= tapped.amount(Mana::at(j)) by {
                lemma_worth_add(sources, tap, ids, Mana::at(j));
                if j < k - 1 {
                    assert(worth(sources, tap, Mana::at(j)) >= tapped.amount(Mana::at(j)));
                }
            }
        }
    }
}

proof fn lemma_order_len(list: Seq<(ObjectId, i32, bool)>, strategy: Pick)
    requires
        list.len() <= usize::MAX,
    ensures
        rank_sort(source_ranks(list, strategy)).len() == list.len(),
{
    lemma_rank_sort_places(source_ranks(list, strategy));
}

proof fn lemma_at_injective(i: nat, j: nat)
    requires
        i < 6,
        j < 6,
    ensures
        Mana::at(i) == Mana::at(j) <==> i == j,
{
}

/// A way to pay, realised as a payment, covers the cost.
proof fn lemma_way_covers(
    g: GameModel,
    seat: Seat,
    cost: ManaCost,
    way: (ManaPool, ManaPool),
    strategy: Pick,
)
    requires
        g.battlefield(seat).no_duplicates(),
        g.battlefield(seat).len() <= usize::MAX,
        pays_from(way, g.pool(seat), cost, 0),
        beyond(way, cost, 0) == cost.generic,
        g.payment_for(g.sources(seat), way, strategy) is Some,
    ensures
        g.covering(seat, g.payment_for(g.sources(seat), way, strategy)->0, cost) is Ok,
{
    broadcast use vstd::seq_lib::group_to_multiset_ensures;

    let sources = g.sources(seat);
    let pool = g.pool(seat);
    lemma_sources(g, seat);
    lemma_realise(g, seat, sources, way.0, way.1, strategy, 6);
    let (tap, units) = g.realise(sources, way.0, way.1, strategy, 6)->0;
    let p = g.payment_for(sources, way, strategy)->0;
    lemma_sort_distinct(tap);
    law_sort_permutes(tap);
    lemma_dedup_distinct(sort(tap), sort(tap).len());
    assert(sort(tap).subrange(0, sort(tap).len() as int) =~= sort(tap));
    assert(p.tap == sort(tap));
    law_sort_permutes(units);
    assert forall|i: int| 0 <= i < p.tap.len() implies source_at(
        sources,
        #[trigger] p.tap[i],
        0,
    ) is Some by {
        lemma_sort_members(tap, p.tap[i]);
        assert(p.tap.contains(p.tap[i]));
        let k = choose|k: int| 0 <= k < tap.len() && tap[k] == p.tap[i];
        assert(source_at(sources, tap[k], 0) is Some);
    }
    lemma_tapped(sources, p.tap, seat, p.tap.len());
    assert(p.tap.subrange(0, p.tap.len() as int) =~= p.tap);
    let made = tapped_mana(sources, p.tap, seat, p.tap.len())->Ok_0;
    assert forall|m: Mana| #[trigger] p.from_pool.to_multiset().count(m) <= pool.amount(m) by {
        let j = lemma_place(m);
        assert(way.1.amount(Mana::at(j)) <= pool.amount(Mana::at(j)));
        assert(units.to_multiset().count(Mana::at(j)) == way.1.amount(Mana::at(j)));
    }
    lemma_spend(pool, p.from_pool, seat, p.from_pool.len());
    let paying = made + p.from_pool;
    vstd::seq_lib::lemma_multiset_commutative(made, p.from_pool);
    assert forall|j: nat| j < 6 implies paying.to_multiset().count(#[trigger] Mana::at(j))
        >= of_kind_in(way, j) by {
        let m = Mana::at(j);
        lemma_worth_permutes(sources, p.tap, tap, m);
        assert(worth(sources, tap, m) >= way.0.amount(m));
        assert(made.to_multiset().count(m) == worth(sources, p.tap, m));
        assert(units.to_multiset().count(m) == way.1.amount(m));
    }
    lemma_pips(paying, way, pool, cost, 5);
    lemma_kinds_add_up(paying);
    lemma_total(paying, way, cost);
}

/// The place of a kind of mana.
proof fn lemma_place(m: Mana) -> (j: nat)
    ensures
        j < 6,
        Mana::at(j) == m,
{
    if m == Mana::at(0) {
        0
    } else if m == Mana::at(1) {
        1
    } else if m == Mana::at(2) {
        2
    } else if m == Mana::at(3) {
        3
    } else if m == Mana::at(4) {
        4
    } else {
        5
    }
}

proof fn lemma_pips(
    paying: Seq<Mana>,
    way: (ManaPool, ManaPool),
    pool: ManaPool,
    cost: ManaCost,
    c: nat,
)
    requires
        c <= 5,
        pays_from(way, pool, cost, 0),
        forall|j: nat|
            j < 6 ==> paying.to_multiset().count(#[trigger] Mana::at(j)) >= of_kind_in(way, j),
    ensures
        pips_covered(paying, cost, c),
    decreases c,
{
    if c > 0 {
        lemma_pips(paying, way, pool, cost, (c - 1) as nat);
        let m = Mana::at((c - 1) as nat);
        lemma_occurrences(paying, m, paying.len());
        assert(paying.subrange(0, paying.len() as int) =~= paying);
        assert(of_kind_in(way, (c - 1) as nat) >= cost.pips(m->Colored_0));
        assert(paying.to_multiset().count(m) >= of_kind_in(way, (c - 1) as nat));
    }
}

proof fn lemma_total(paying: Seq<Mana>, way: (ManaPool, ManaPool), cost: ManaCost)
    requires
        beyond(way, cost, 0) == cost.generic,
        paying.len() == paying.to_multiset().count(Mana::at(0)) + paying.to_multiset().count(
            Mana::at(1),
        ) + paying.to_multiset().count(Mana::at(2)) + paying.to_multiset().count(Mana::at(3))
            + paying.to_multiset().count(Mana::at(4)) + paying.to_multiset().count(Mana::at(5)),
        forall|j: nat|
            j < 6 ==> paying.to_multiset().count(#[trigger] Mana::at(j)) >= of_kind_in(way, j),
    ensures
        paying.len() >= cost.value(),
{
    reveal_with_fuel(beyond, 6);
    assert(paying.to_multiset().count(Mana::at(0)) >= of_kind_in(way, 0));
    assert(paying.to_multiset().count(Mana::at(1)) >= of_kind_in(way, 1));
    assert(paying.to_multiset().count(Mana::at(2)) >= of_kind_in(way, 2));
    assert(paying.to_multiset().count(Mana::at(3)) >= of_kind_in(way, 3));
    assert(paying.to_multiset().count(Mana::at(4)) >= of_kind_in(way, 4));
    assert(paying.to_multiset().count(Mana::at(5)) >= of_kind_in(way, 5));
}

proof fn lemma_payments_n(
    g: GameModel,
    seat: Seat,
    cost: ManaCost,
    ways: Seq<(ManaPool, ManaPool)>,
    n: nat,
)
    requires
        g.battlefield(seat).no_duplicates(),
        g.battlefield(seat).len() <= usize::MAX,
        n <= ways.len(),
        forall|i: int|
            0 <= i < ways.len() ==> pays_from(#[trigger] ways[i], g.pool(seat), cost, 0) && beyond(
                ways[i],
                cost,
                0,
            ) == cost.generic,
    ensures
        forall|i: int|
            0 <= i < g.payments_n(g.sources(seat), ways, n).len() ==> g.covering(
                seat,
                #[trigger] g.payments_n(g.sources(seat), ways, n)[i],
                cost,
            ) is Ok,
    decreases n,
{
    if n > 0 {
        lemma_payments_n(g, seat, cost, ways, (n - 1) as nat);
        let sources = g.sources(seat);
        let way = ways[n - 1];
        if g.payment_for(sources, way, Pick::LandsFirst) is Some {
            lemma_way_covers(g, seat, cost, way, Pick::LandsFirst);
        }
        if g.payment_for(sources, way, Pick::ProducersFirst) is Some {
            lemma_way_covers(g, seat, cost, way, Pick::ProducersFirst);
        }
    }
}

/// Every payment listed for a cost covers it.
pub proof fn law_listed_payments_cover(g: GameModel, seat: Seat, cost: ManaCost, p: PaymentModel)
    requires
        g.battlefield(seat).no_duplicates(),
        g.battlefield(seat).len() <= usize::MAX,
        g.payments(seat, cost).contains(p),
    ensures
        g.covering(seat, p, cost) is Ok,
{
    if cost.free() {
        lemma_free(g, seat, cost, p);
    } else {
        let sources = g.sources(seat);
        let counts = capacity(sources, sources.len());
        let none = ManaPool::none();
        let ways = search(0, counts, g.pool(seat), cost, cost.generic as int, none, none);
        lemma_search(0, counts, g.pool(seat), cost, cost.generic as int, none, none);
        assert forall|i: int| 0 <= i < ways.len() implies pays_from(
            #[trigger] ways[i],
            g.pool(seat),
            cost,
            0,
        ) && beyond(ways[i], cost, 0) == cost.generic by {
            assert(pays_exactly(
                ways[i],
                g.pool(seat),
                cost,
                cost.generic as int,
                none,
                none,
                0,
            ));
        }
        lemma_payments_n(g, seat, cost, ways, ways.len());
    }
}

proof fn lemma_free(g: GameModel, seat: Seat, cost: ManaCost, p: PaymentModel)
    requires
        cost.free(),
        g.payments(seat, cost).contains(p),
    ensures
        g.covering(seat, p, cost) is Ok,
{
    assert(p == PaymentModel::none());
    let paying = Seq::<Mana>::empty() + p.from_pool;
    assert(paying.len() == 0);
    lemma_nothing_owed(paying, cost, 5);
}

proof fn lemma_nothing_owed(paying: Seq<Mana>, cost: ManaCost, c: nat)
    requires
        c <= 5,
        cost.free(),
    ensures
        pips_covered(paying, cost, c),
    decreases c,
{
    if c > 0 {
        lemma_nothing_owed(paying, cost, (c - 1) as nat);
    }
}

} // verus!
