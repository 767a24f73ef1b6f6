//! What paying for something does to a mana pool.
use crate::action::PaymentModel;
use crate::event::EventModel;
use crate::mana::{
    add_units, pips_covered, remove_first, remove_times, spend_pool, surplus, tapped_mana,
    without_pips,
};
use crate::seqs::{find, law_sort_permutes, lemma_find_from, lemma_occurrences, occurrences};
use crate::state::GameModel;
use crate::types::{Mana, ManaCost, ManaPool, ObjectId, Seat};
use vstd::prelude::*;

verus! {

// ----- what is left over -----

proof fn lemma_remove_first(s: Seq<Mana>, m: Mana)
    requires
        s.to_multiset().count(m) > 0,
    ensures
        remove_first(s, m).len() == s.len() - 1,
        remove_first(s, m).to_multiset() == s.to_multiset().remove(m),
{
    broadcast use vstd::seq_lib::group_to_multiset_ensures;

    assert(s.contains(m));
    lemma_find_from(s, m, 0);
    let k = choose|k: int| 0 <= k < s.len() && s[k] == m;
    assert(s[k] == m);
    let i = find(s, m)->0;
    assert(s.remove(i as int).to_multiset() =~= s.to_multiset().remove(s[i as int]));
}

proof fn lemma_remove_times(s: Seq<Mana>, m: Mana, k: nat)
    requires
        s.to_multiset().count(m) >= k,
    ensures
        remove_times(s, m, k).len() == s.len() - k,
        remove_times(s, m, k).to_multiset().count(m) == s.to_multiset().count(m) - k,
        forall|x: Mana|
            x != m ==> #[trigger] remove_times(s, m, k).to_multiset().count(x)
                == s.to_multiset().count(x),
    decreases k,
{
    if k > 0 {
        lemma_remove_times(s, m, (k - 1) as nat);
        lemma_remove_first(remove_times(s, m, (k - 1) as nat), m);
    }
}

/// The coloured symbols of a cost before place `c`.
pub open spec fn symbols(cost: ManaCost, c: nat) -> nat
    decreases c,
{
    if c == 0 {
        0
    } else {
        symbols(cost, (c - 1) as nat) + cost.pips(Mana::at((c - 1) as nat)->Colored_0) as nat
    }
}

proof fn lemma_without_pips(paying: Seq<Mana>, cost: ManaCost, c: nat)
    requires
        c <= 5,
        pips_covered(paying, cost, c),
    ensures
        without_pips(paying, cost, c).len() == paying.len() - symbols(cost, c),
        forall|j: nat|
            c <= j < 5 ==> without_pips(paying, cost, c).to_multiset().count(
                #[trigger] Mana::at(j),
            ) == paying.to_multiset().count(Mana::at(j)),
    decreases c,
{
    if c > 0 {
        let b = (c - 1) as nat;
        lemma_without_pips(paying, cost, b);
        let m = Mana::at(b);
        lemma_occurrences(paying, m, paying.len());
        assert(paying.subrange(0, paying.len() as int) =~= paying);
        lemma_remove_times(
            without_pips(paying, cost, b),
            m,
            cost.pips(m->Colored_0) as nat,
        );
        assert forall|j: nat| c <= j < 5 implies without_pips(paying, cost, c).to_multiset().count(
            #[trigger] Mana::at(j),
        ) == paying.to_multiset().count(Mana::at(j)) by {
            assert(Mana::at(j) != m);
        }
    }
}

/// What a payment that covers a cost leaves over is the rest of it.
proof fn lemma_surplus(paying: Seq<Mana>, cost: ManaCost)
    requires
        pips_covered(paying, cost, 5),
        paying.len() >= cost.value(),
    ensures
        surplus(paying, cost).len() == paying.len() - cost.value(),
{
    lemma_without_pips(paying, cost, 5);
    law_sort_permutes(without_pips(paying, cost, 5));
    reveal_with_fuel(symbols, 6);
    assert(symbols(cost, 5) == cost.white + cost.blue + cost.black + cost.red + cost.green);
}

// ----- the pool -----

proof fn lemma_spent(pool: ManaPool, units: Seq<Mana>, seat: Seat, n: nat)
    requires
        n <= units.len(),
        spend_pool(pool, units, seat, n) is Ok,
    ensures
        spend_pool(pool, units, seat, n)->Ok_0.count() == pool.count() - n,
    decreases n,
{
    if n > 0 {
        lemma_spent(pool, units, seat, (n - 1) as nat);
    }
}

proof fn lemma_added(pool: ManaPool, units: Seq<Mana>, n: nat)
    requires
        n <= units.len(),
        forall|m: Mana|
            pool.amount(m) + #[trigger] occurrences(units, m, units.len()) <= u8::MAX,
    ensures
        add_units(pool, units, n).count() == pool.count() + n,
        forall|m: Mana|
            #![trigger add_units(pool, units, n).amount(m)]
            add_units(pool, units, n).amount(m) == pool.amount(m) + occurrences(units, m, n),
    decreases n,
{
    if n > 0 {
        lemma_added(pool, units, (n - 1) as nat);
        let before = add_units(pool, units, (n - 1) as nat);
        let u = units[n - 1];
        lemma_more(units, u, n, units.len());
        assert(before.amount(u) == pool.amount(u) + occurrences(units, u, (n - 1) as nat));
        assert(before.amount(u) < u8::MAX);
        let after = add_units(pool, units, n);
        assert forall|m: Mana|
            #![trigger after.amount(m)]
            after.amount(m) == pool.amount(m) + occurrences(units, m, n) by {
            assert(before.amount(m) == pool.amount(m) + occurrences(units, m, (n - 1) as nat));
        }
    }
}

proof fn lemma_more(units: Seq<Mana>, m: Mana, a: nat, b: nat)
    requires
        a <= b <= units.len(),
    ensures
        occurrences(units, m, a) <= occurrences(units, m, b),
    decreases b,
{
    if a < b {
        lemma_more(units, m, a, (b - 1) as nat);
    }
}

// ----- the permanents -----

impl GameModel {
    /// `h` is this game with the ids tapped, and that told.
    pub open spec fn tapped_for(self, h: GameModel, ids: Seq<ObjectId>) -> bool {
        &&& h.objects.len() == self.objects.len()
        &&& forall|id: ObjectId|
            #![trigger h.obj(id)]
            self.has_obj(id) ==> h.obj(id) == if ids.contains(id) {
                crate::state::ObjectModel { tapped: true, ..self.obj(id) }
            } else {
                self.obj(id)
            }
        &&& h.log == self.log + Seq::new(
            ids.len(),
            |i: int| EventModel::Tapped { object: ids[i] },
        )
    }
}

proof fn lemma_tapped(g: GameModel, ids: Seq<ObjectId>, n: nat)
    requires
        n <= ids.len(),
    ensures
        g.tapped_for(g.tap_all(ids, n), ids.subrange(0, n as int)),
        g.tap_all(ids, n).players == g.players,
    decreases n,
{
    let h = g.tap_all(ids, n);
    let head = ids.subrange(0, n as int);
    if n > 0 {
        lemma_tapped(g, ids, (n - 1) as nat);
        let before = g.tap_all(ids, (n - 1) as nat);
        let x = ids[n - 1];
        let short = ids.subrange(0, n - 1);
        assert(head =~= short.push(x));
        assert forall|id: ObjectId| #![trigger h.obj(id)] g.has_obj(id) implies h.obj(id)
            == if head.contains(id) {
            crate::state::ObjectModel { tapped: true, ..g.obj(id) }
        } else {
            g.obj(id)
        } by {
            assert(before.obj(id) == if short.contains(id) {
                crate::state::ObjectModel { tapped: true, ..g.obj(id) }
            } else {
                g.obj(id)
            });
            if id == x {
                assert(head[n - 1] == x);
            } else if head.contains(id) {
                let k = choose|k: int| 0 <= k < head.len() && head[k] == id;
                assert(short[k] == id);
            } else if short.contains(id) {
                let k = choose|k: int| 0 <= k < short.len() && short[k] == id;
                assert(head[k] == id);
            }
        }
    }
    assert(h.log =~= g.log + Seq::new(
        head.len(),
        |i: int| EventModel::Tapped { object: head[i] },
    ));
}

// ----- the law -----

/// The mana the permanents of a payment make.
pub open spec fn made(g: GameModel, seat: Seat, p: PaymentModel) -> Seq<Mana> {
    tapped_mana(g.sources(seat), p.tap, seat, p.tap.len())->Ok_0
}

/// No kind of mana goes past what the pool can hold when the surplus of a
/// payment comes back to it.
pub open spec fn pool_holds(g: GameModel, seat: Seat, p: PaymentModel, cost: ManaCost) -> bool {
    let left = spend_pool(g.pool(seat), p.from_pool, seat, p.from_pool.len())->Ok_0;
    let rest = surplus(made(g, seat, p) + p.from_pool, cost);
    forall|m: Mana| left.amount(m) + #[trigger] occurrences(rest, m, rest.len()) <= u8::MAX
}

/// Paying taps exactly the permanents the payment names, and says so of each;
/// the pool then holds what it held, and what they make, less the cost.
/// Nobody else's pool changes.
pub proof fn law_paying_spends_the_cost(
    g: GameModel,
    seat: Seat,
    p: PaymentModel,
    cost: ManaCost,
    other: Seat,
)
    requires
        g.has_seat(seat),
        g.covering(seat, p, cost) is Ok,
        pool_holds(g, seat, p, cost),
        other != seat,
    ensures
        ({
            let h = g.pay(seat, p, cost, g.covering(seat, p, cost)->Ok_0);
            &&& g.tapped_for(h, p.tap)
            &&& h.pool(seat).count() == g.pool(seat).count() + made(g, seat, p).len()
                - cost.value()
            &&& h.pool(other) == g.pool(other)
        }),
{
    let paying = g.covering(seat, p, cost)->Ok_0;
    let left = spend_pool(g.pool(seat), p.from_pool, seat, p.from_pool.len())->Ok_0;
    let rest = surplus(paying, cost);
    assert(paying == made(g, seat, p) + p.from_pool);
    lemma_surplus(paying, cost);
    lemma_spent(g.pool(seat), p.from_pool, seat, p.from_pool.len());
    lemma_added(left, rest, rest.len());
    let g1 = g.with_pool(seat, left);
    lemma_tapped(g1, p.tap, p.tap.len());
    assert(p.tap.subrange(0, p.tap.len() as int) =~= p.tap);
    let g2 = g1.tap_all(p.tap, p.tap.len());
    let h = g.pay(seat, p, cost, paying);
    assert(g1.objects == g.objects && g1.log == g.log);
    assert(h.objects == g2.objects && h.log == g2.log);
    assert forall|id: ObjectId| #![trigger h.obj(id)] g.has_obj(id) implies h.obj(id)
        == if p.tap.contains(id) {
        crate::state::ObjectModel { tapped: true, ..g.obj(id) }
    } else {
        g.obj(id)
    } by {
        assert(g2.obj(id) == h.obj(id));
        assert(g1.obj(id) == g.obj(id));
    }
}

} // verus!
