//! An ability listed with a payment can be paid for with it.
use crate::action::PaymentModel;
use crate::combos::{at_positions, ascending, combos, law_combos_are_choices};
use crate::ir::{Cost, Filter};
use crate::keeping::keep_pay_cost;
use crate::legal::{not_tapping, paid_in_order, uses_source, with_discard, with_mana, with_sacrifice};
use crate::mana::spend_pool;
use crate::paying::law_listed_payments_cover;
use crate::seqs::{lemma_sort_distinct, lemma_sort_members, sort, without};
use crate::sound::{lemma_moved, lemma_without};
use crate::state::{CtxModel, GameModel};
use crate::types::{Mana, ManaCost, ObjectId, Seat, Zone};
use vstd::prelude::*;

verus! {

/// The payment has what one of the costs asks for.
pub open spec fn fits(
    g: GameModel,
    seat: Seat,
    id: ObjectId,
    costs: Seq<Cost>,
    p: PaymentModel,
    k: int,
) -> bool {
    match costs[k] {
        Cost::Mana(m) => g.covering(seat, p, m.announced(0)) is Ok && (uses_source(costs)
            ==> !p.tap.contains(id)),
        Cost::Tap => !g.obj(id).tapped,
        Cost::SacrificeThis => true,
        Cost::Sacrifice(filter) => g.first_sacrifice(p.sacrifice, seat, id, filter, 0) is Some,
        Cost::PayLife(n) => g.life(seat) >= n,
        Cost::Discard(n) => n == p.discard.len() && p.discard.no_duplicates() && forall|i: int|
            0 <= i < p.discard.len() ==> g.hand(seat).contains(#[trigger] p.discard[i]),
    }
}

/// The payment has what each of the first `n` costs asks for, and announces nothing.
pub open spec fn fits_all(
    g: GameModel,
    seat: Seat,
    id: ObjectId,
    costs: Seq<Cost>,
    p: PaymentModel,
    n: int,
) -> bool {
    p.x == 0 && forall|k: int| 0 <= k < n ==> #[trigger] fits(g, seat, id, costs, p, k)
}

// ----- what is listed fits -----

proof fn lemma_not_tapping(ps: Seq<PaymentModel>, id: ObjectId, n: nat, k: int)
    requires
        n <= ps.len(),
        0 <= k < not_tapping(ps, id, n).len(),
    ensures
        ps.contains(not_tapping(ps, id, n)[k]),
        !not_tapping(ps, id, n)[k].tap.contains(id),
    decreases n,
{
    let rest = not_tapping(ps, id, (n - 1) as nat);
    if k < rest.len() {
        lemma_not_tapping(ps, id, (n - 1) as nat, k);
    } else {
        assert(ps.contains(ps[n - 1]));
    }
}

proof fn lemma_matching(
    g: GameModel,
    d: nat,
    ids: Seq<ObjectId>,
    f: Filter,
    ctx: CtxModel,
    n: nat,
    k: int,
)
    requires
        n <= ids.len(),
        0 <= k < g.matching_ids(d, ids, f, ctx, n).len(),
    ensures
        ids.contains(g.matching_ids(d, ids, f, ctx, n)[k]),
        g.matches(d, g.matching_ids(d, ids, f, ctx, n)[k], f, ctx),
    decreases n,
{
    let rest = g.matching_ids(d, ids, f, ctx, (n - 1) as nat);
    if k < rest.len() {
        lemma_matching(g, d, ids, f, ctx, (n - 1) as nat, k);
    } else {
        assert(ids.contains(ids[n - 1]));
    }
}

/// A hand's combinations take distinct cards of it.
proof fn lemma_discards_listed(g: GameModel, seat: Seat, n: nat, j: int)
    requires
        g.hand(seat).no_duplicates(),
        0 <= j < combos(sort(g.hand(seat)), 0, n).len(),
    ensures
        ({
            let c = combos(sort(g.hand(seat)), 0, n)[j];
            &&& c.len() == n
            &&& c.no_duplicates()
            &&& forall|i: int| 0 <= i < c.len() ==> g.hand(seat).contains(#[trigger] c[i])
        }),
{
    let hand = sort(g.hand(seat));
    let c = combos(hand, 0, n)[j];
    law_combos_are_choices(hand, 0, n, j);
    lemma_sort_distinct(g.hand(seat));
    let at = choose|at: Seq<int>|
        #![trigger at_positions(hand, at)]
        ascending(at, 0, hand.len() as int) && c == at_positions(hand, at);
    assert forall|i: int| 0 <= i < c.len() implies g.hand(seat).contains(#[trigger] c[i]) by {
        assert(c[i] == hand[at[i]]);
        lemma_sort_members(g.hand(seat), c[i]);
        assert(hand.contains(hand[at[i]]));
    }
    assert forall|a: int, b: int| 0 <= a < c.len() && 0 <= b < c.len() && a != b implies c[a]
        != c[b] by {
        assert(c[a] == hand[at[a]] && c[b] == hand[at[b]]);
        if a < b {
            assert(at[a] < at[b]);
        } else {
            assert(at[b] < at[a]);
        }
    }
}

proof fn lemma_with_mana(bases: Seq<PaymentModel>, ps: Seq<PaymentModel>, n: nat, k: int)
    requires
        n <= bases.len(),
        0 <= k < with_mana(bases, ps, n).len(),
    ensures
        exists|b: int, i: int|
            0 <= b < bases.len() && 0 <= i < ps.len() && with_mana(bases, ps, n)[k] == (
            PaymentModel {
                tap: (#[trigger] bases[b]).tap + (#[trigger] ps[i]).tap,
                from_pool: bases[b].from_pool + ps[i].from_pool,
                ..bases[b]
            }),
    decreases n,
{
    let rest = with_mana(bases, ps, (n - 1) as nat);
    if k < rest.len() {
        lemma_with_mana(bases, ps, (n - 1) as nat, k);
    } else {
        let b = bases[n - 1];
        let p = ps[k - rest.len()];
        assert(with_mana(bases, ps, n)[k] == (PaymentModel {
            tap: b.tap + p.tap,
            from_pool: b.from_pool + p.from_pool,
            ..b
        }));
    }
}

proof fn lemma_with_sacrifice(bases: Seq<PaymentModel>, ids: Seq<ObjectId>, n: nat, k: int)
    requires
        n <= bases.len(),
        0 <= k < with_sacrifice(bases, ids, n).len(),
    ensures
        exists|b: int, i: int|
            0 <= b < bases.len() && 0 <= i < ids.len() && with_sacrifice(bases, ids, n)[k] == (
            PaymentModel { sacrifice: seq![#[trigger] ids[i]], ..(#[trigger] bases[b]) }),
    decreases n,
{
    let rest = with_sacrifice(bases, ids, (n - 1) as nat);
    if k < rest.len() {
        lemma_with_sacrifice(bases, ids, (n - 1) as nat, k);
    } else {
        let i = k - rest.len();
        assert(with_sacrifice(bases, ids, n)[k] == (PaymentModel {
            sacrifice: seq![ids[i]],
            ..bases[n - 1]
        }));
    }
}

proof fn lemma_with_discard(
    bases: Seq<PaymentModel>,
    sets: Seq<Seq<ObjectId>>,
    n: nat,
    k: int,
)
    requires
        n <= bases.len(),
        0 <= k < with_discard(bases, sets, n).len(),
    ensures
        exists|b: int, i: int|
            0 <= b < bases.len() && 0 <= i < sets.len() && with_discard(bases, sets, n)[k] == (
            PaymentModel { discard: #[trigger] sets[i], ..(#[trigger] bases[b]) }),
    decreases n,
{
    let rest = with_discard(bases, sets, (n - 1) as nat);
    if k < rest.len() {
        lemma_with_discard(bases, sets, (n - 1) as nat, k);
    } else {
        let i = k - rest.len();
        assert(with_discard(bases, sets, n)[k] == (PaymentModel {
            discard: sets[i],
            ..bases[n - 1]
        }));
    }
}

/// The mana of a payment is all that covering looks at.
proof fn lemma_covering_same(
    g: GameModel,
    seat: Seat,
    a: PaymentModel,
    b: PaymentModel,
    cost: ManaCost,
)
    requires
        a.tap == b.tap,
        a.from_pool == b.from_pool,
    ensures
        g.covering(seat, a, cost) == g.covering(seat, b, cost),
{
}

/// A seat's permanents are on the battlefield under its control.
proof fn lemma_own(g: GameModel, seat: Seat, id: ObjectId)
    requires
        g.sound(),
        g.battlefield(seat).contains(id),
    ensures
        g.in_zone(id, Zone::Battlefield),
        g.obj(id).controller == seat,
{
    reveal(GameModel::lists_are_true);
    let k = choose|k: int| 0 <= k < g.battlefield(seat).len() && g.battlefield(seat)[k] == id;
    assert(g.in_zone(g.list(seat, Zone::Battlefield)[k], Zone::Battlefield));
}

proof fn lemma_listed_fits(
    g: GameModel,
    seat: Seat,
    id: ObjectId,
    costs: Seq<Cost>,
    n: nat,
    j: int,
)
    requires
        g.sound(),
        g.battlefield(seat).len() <= usize::MAX,
        paid_in_order(costs),
        n <= costs.len(),
        g.ability_payments(seat, id, costs, n) is Some,
        0 <= j < g.ability_payments(seat, id, costs, n)->0.len(),
    ensures
        fits_all(g, seat, id, costs, g.ability_payments(seat, id, costs, n)->0[j], n as int),
    decreases n,
{
    if n > 0 {
        let bases = g.ability_payments(seat, id, costs, (n - 1) as nat)->0;
        let all = g.ability_payments(seat, id, costs, n)->0;
        let p = all[j];
        let last = (n - 1) as int;
        assert forall|b: int| 0 <= b < bases.len() implies fits_all(
            g,
            seat,
            id,
            costs,
            #[trigger] bases[b],
            n - 1,
        ) by {
            lemma_listed_fits(g, seat, id, costs, (n - 1) as nat, b);
        }
        assert(g.battlefield(seat).no_duplicates() && g.hand(seat).no_duplicates()) by {
            reveal(GameModel::lists_are_sets);
            assert(g.list(seat, Zone::Battlefield).no_duplicates());
            assert(g.list(seat, Zone::Hand).no_duplicates());
        }
        match costs[last] {
            Cost::Mana(m) => {
                if n > 1 {
                    let first = costs[0];
                    assert(!(costs[last] is Mana));
                }
                let ps = g.payments(seat, m.announced(0));
                let used = if uses_source(costs) {
                    not_tapping(ps, id, ps.len())
                } else {
                    ps
                };
                lemma_with_mana(bases, used, bases.len(), j);
                let (b, i) = choose|b: int, i: int|
                    0 <= b < bases.len() && 0 <= i < used.len() && p == (PaymentModel {
                        tap: (#[trigger] bases[b]).tap + (#[trigger] used[i]).tap,
                        from_pool: bases[b].from_pool + used[i].from_pool,
                        ..bases[b]
                    });
                if uses_source(costs) {
                    lemma_not_tapping(ps, id, ps.len(), i);
                }
                assert(ps.contains(used[i]));
                law_listed_payments_cover(g, seat, m.announced(0), used[i]);
                assert(bases[b] == PaymentModel::none());
                assert(p.tap =~= used[i].tap);
                assert(p.from_pool =~= used[i].from_pool);
                lemma_covering_same(g, seat, p, used[i], m.announced(0));
                assert(fits(g, seat, id, costs, p, last));
            },
            Cost::Sacrifice(filter) => {
                if n > 1 {
                    let first = costs[0];
                    assert(!(costs[last] is Sacrifice));
                }
                let ctx = CtxModel::simple(seat, Some(id));
                let mine = g.battlefield(seat);
                let ids = g.matching(mine, filter, ctx);
                lemma_with_sacrifice(bases, ids, bases.len(), j);
                let (b, i) = choose|b: int, i: int|
                    0 <= b < bases.len() && 0 <= i < ids.len() && p == (PaymentModel {
                        sacrifice: seq![#[trigger] ids[i]],
                        ..(#[trigger] bases[b])
                    });
                lemma_matching(
                    g,
                    g.depth() + 1,
                    mine,
                    filter,
                    ctx,
                    mine.len(),
                    i,
                );
                lemma_own(g, seat, ids[i]);
                assert(p.sacrifice[0] == ids[i]);
                assert(g.sacrificeable(ids[i], seat, id, filter));
                assert(fits_all(g, seat, id, costs, bases[b], n - 1));
                assert(fits(g, seat, id, costs, p, last));
            },
            Cost::Discard(k) => {
                let hand = sort(g.hand(seat));
                let sets = combos(hand, 0, k as nat);
                lemma_with_discard(bases, sets, bases.len(), j);
                let (b, i) = choose|b: int, i: int|
                    0 <= b < bases.len() && 0 <= i < sets.len() && p == (PaymentModel {
                        discard: #[trigger] sets[i],
                        ..(#[trigger] bases[b])
                    });
                lemma_discards_listed(g, seat, k as nat, i);
                assert(fits_all(g, seat, id, costs, bases[b], n - 1));
                assert(fits(g, seat, id, costs, p, last));
                assert forall|c: int| 0 <= c < n - 1 implies #[trigger] fits(
                    g,
                    seat,
                    id,
                    costs,
                    p,
                    c,
                ) by {
                    assert(fits(g, seat, id, costs, bases[b], c));
                    assert(!(costs[c] is Discard)) by {
                        assert(costs[last] is Discard);
                    }
                    if let Cost::Mana(m) = costs[c] {
                        lemma_covering_same(g, seat, p, bases[b], m.announced(0));
                    }
                }
            },
            _ => {
                assert(all == bases);
                assert(fits_all(g, seat, id, costs, bases[j], n - 1));
                assert(fits(g, seat, id, costs, p, last));
            },
        }
    } else {
        assert(g.ability_payments(seat, id, costs, n)->0[j] == PaymentModel::none());
    }
}

// ----- what fits is paid -----

/// What paying one cost leaves for the others: unless that is what it takes,
/// life, hand and whether the source is tapped.
spec fn leaves(
    g: GameModel,
    h: GameModel,
    seat: Seat,
    id: ObjectId,
    p: PaymentModel,
    cost: Cost,
) -> bool {
    &&& h.has_obj(id) && h.obj(id).zone != Zone::Hand
    &&& !(cost is PayLife) ==> h.life(seat) == g.life(seat)
    &&& !(cost is Discard) ==> h.hand(seat) == g.hand(seat)
    &&& cost is PayLife || cost is Discard || (cost is Mana && !p.tap.contains(id)) ==> h.obj(
        id,
    ).tapped == g.obj(id).tapped
}

proof fn lemma_tap_all(g: GameModel, ids: Seq<ObjectId>, x: ObjectId, n: nat)
    requires
        n <= ids.len(),
    ensures
        g.tap_all(ids, n).players == g.players,
        g.tap_all(ids, n).objects.len() == g.objects.len(),
        g.has_obj(x) ==> g.tap_all(ids, n).obj(x).zone == g.obj(x).zone,
        g.has_obj(x) && !ids.contains(x) ==> g.tap_all(ids, n).obj(x) == g.obj(x),
    decreases n,
{
    if n > 0 {
        lemma_tap_all(g, ids, x, (n - 1) as nat);
        assert(ids.contains(ids[n - 1]));
    }
}

proof fn lemma_pay_leaves(
    g: GameModel,
    seat: Seat,
    id: ObjectId,
    p: PaymentModel,
    cost: ManaCost,
    paying: Seq<Mana>,
)
    requires
        g.has_obj(id),
        g.obj(id).zone != Zone::Hand,
    ensures
        leaves(g, g.pay(seat, p, cost, paying), seat, id, p, Cost::Mana(cost)),
{
    let left = match spend_pool(g.pool(seat), p.from_pool, seat, p.from_pool.len()) {
        Ok(x) => x,
        Err(_) => g.pool(seat),
    };
    let g1 = g.with_pool(seat, left);
    lemma_tap_all(g1, p.tap, id, p.tap.len());
}

/// A move out of another zone than the hand, to the graveyard.
proof fn lemma_to_graveyard(g: GameModel, seat: Seat, id: ObjectId, x: ObjectId)
    requires
        g.has_obj(id),
        g.obj(id).zone != Zone::Hand,
    ensures
        g.move_object(x, Zone::Graveyard).life(seat) == g.life(seat),
        !g.in_zone(x, Zone::Hand) ==> g.move_object(x, Zone::Graveyard).hand(seat) == g.hand(seat),
        g.move_object(x, Zone::Graveyard).has_obj(id),
        g.move_object(x, Zone::Graveyard).obj(id).zone != Zone::Hand,
        x != id ==> g.move_object(x, Zone::Graveyard).obj(id) == g.obj(id),
{
    let h = g.move_object(x, Zone::Graveyard);
    if g.has_obj(x) && g.obj(x).zone != Zone::Graveyard {
        lemma_moved(g, x, Zone::Graveyard);
        assert(h.list(seat, Zone::Hand) == h.hand(seat));
        if g.has_seat(seat) {
            assert(h.player(seat).life == g.player(seat).life);
        }
    }
}

/// Distinct cards of a hand are all discarded.
proof fn lemma_discards(
    g: GameModel,
    seat: Seat,
    id: ObjectId,
    ids: Seq<ObjectId>,
    n: nat,
)
    requires
        g.sound(),
        g.has_obj(id),
        g.obj(id).zone != Zone::Hand,
        n <= ids.len() <= i32::MAX,
        ids.no_duplicates(),
        forall|i: int| 0 <= i < ids.len() ==> g.hand(seat).contains(#[trigger] ids[i]),
    ensures
        ({
            let (h, done) = g.discard_upto(seat, ids, ids.len() as i32, n);
            &&& done == n
            &&& h.sound()
            &&& h.life(seat) == g.life(seat)
            &&& h.has_obj(id) && h.obj(id) == g.obj(id)
            &&& forall|i: int| n <= i < ids.len() ==> h.hand(seat).contains(#[trigger] ids[i])
        }),
    decreases n,
{
    if n > 0 {
        lemma_discards(g, seat, id, ids, (n - 1) as nat);
        let (h, done) = g.discard_upto(seat, ids, ids.len() as i32, (n - 1) as nat);
        let x = ids[n - 1];
        let next = h.move_object(x, Zone::Graveyard);
        assert(h.in_zone(x, Zone::Hand) && h.obj(x).home() == seat) by {
            reveal(GameModel::lists_are_true);
            let k = choose|k: int| 0 <= k < h.hand(seat).len() && h.hand(seat)[k] == x;
            assert(h.in_zone(h.list(seat, Zone::Hand)[k], Zone::Hand));
        }
        lemma_to_graveyard(h, seat, id, x);
        lemma_moved(h, x, Zone::Graveyard);
        lemma_without(h.hand(seat), x);
        assert(next.list(seat, Zone::Hand) == without(h.list(seat, Zone::Hand), x));
        assert(next.sound()) by {
            crate::sound::lemma_move_sound(h, x, Zone::Graveyard, crate::sound::nobody());
        }
        assert forall|i: int| n <= i < ids.len() implies next.hand(seat).contains(
            #[trigger] ids[i],
        ) by {
            assert(h.hand(seat).contains(ids[i]));
            assert(ids[i] != x);
        }
    }
}

/// A cost the payment fits is paid.
proof fn lemma_pays_one(
    g: GameModel,
    seat: Seat,
    id: ObjectId,
    costs: Seq<Cost>,
    p: PaymentModel,
    k: int,
)
    requires
        g.sound(),
        g.has_obj(id),
        g.obj(id).zone != Zone::Hand,
        0 <= k < costs.len(),
        fits(g, seat, id, costs, p, k),
        p.x == 0,
    ensures
        g.pay_cost(seat, id, p, costs[k]) is Ok,
        leaves(g, g.pay_cost(seat, id, p, costs[k])->Ok_0, seat, id, p, costs[k]),
{
    match costs[k] {
        Cost::Mana(m) => {
            let paying = g.covering(seat, p, m.announced(0))->Ok_0;
            lemma_pay_leaves(g, seat, id, p, m.announced(0), paying);
        },
        Cost::Tap => {},
        Cost::SacrificeThis => {
            let e = crate::event::EventModel::Sacrificed { seat, object: id };
            lemma_to_graveyard(g.emit(e), seat, id, id);
        },
        Cost::Sacrifice(filter) => {
            let x = g.first_sacrifice(p.sacrifice, seat, id, filter, 0)->0;
            lemma_first_sacrifice(g, p.sacrifice, seat, id, filter, 0);
            let e = crate::event::EventModel::Sacrificed { seat, object: x };
            lemma_to_graveyard(g.emit(e), seat, id, x);
        },
        Cost::PayLife(n) => {},
        Cost::Discard(n) => {
            lemma_discards(g, seat, id, p.discard, p.discard.len());
        },
    }
}

proof fn lemma_first_sacrifice(
    g: GameModel,
    ids: Seq<ObjectId>,
    seat: Seat,
    source: ObjectId,
    filter: Filter,
    i: nat,
)
    requires
        g.first_sacrifice(ids, seat, source, filter, i) is Some,
    ensures
        g.in_zone(g.first_sacrifice(ids, seat, source, filter, i)->0, Zone::Battlefield),
    decreases ids.len() - i,
{
    if i < ids.len() && !g.sacrificeable(ids[i as int], seat, source, filter) {
        lemma_first_sacrifice(g, ids, seat, source, filter, i + 1);
    }
}

/// Costs that can be paid in order are, with a payment that fits them.
proof fn lemma_pays_all(
    g: GameModel,
    seat: Seat,
    id: ObjectId,
    costs: Seq<Cost>,
    p: PaymentModel,
    n: nat,
)
    requires
        g.sound(),
        g.has_obj(id),
        g.obj(id).zone != Zone::Hand,
        paid_in_order(costs),
        fits_all(g, seat, id, costs, p, costs.len() as int),
        n <= costs.len(),
    ensures
        g.pay_costs(seat, id, p, costs, n) is Ok,
        ({
            let h = g.pay_costs(seat, id, p, costs, n)->Ok_0;
            &&& h.sound()
            &&& h.has_obj(id)
            &&& h.obj(id).zone != Zone::Hand
            &&& forall|k: int| n <= k < costs.len() ==> #[trigger] fits(h, seat, id, costs, p, k)
        }),
    decreases n,
{
    if n > 0 {
        let last = n - 1;
        lemma_pays_all(g, seat, id, costs, p, (n - 1) as nat);
        let h = g.pay_costs(seat, id, p, costs, (n - 1) as nat)->Ok_0;
        assert(fits(h, seat, id, costs, p, last));
        lemma_pays_one(h, seat, id, costs, p, last);
        let next = h.pay_cost(seat, id, p, costs[last])->Ok_0;
        assert(next.sound()) by {
            keep_pay_cost(h, seat, id, p, costs[last]);
            reveal(GameModel::keeps);
        }
        assert forall|k: int| n <= k < costs.len() implies #[trigger] fits(
            next,
            seat,
            id,
            costs,
            p,
            k,
        ) by {
            assert(fits(h, seat, id, costs, p, k));
            let before = costs[last];
            let cost = costs[k];
            assert(!(cost is Mana) && !(cost is Sacrifice));
            if cost is Tap {
                assert(uses_source(costs));
                if before is Mana {
                    assert(!p.tap.contains(id));
                }
            }
        }
    } else {
        assert forall|k: int| 0 <= k < costs.len() implies #[trigger] fits(
            g,
            seat,
            id,
            costs,
            p,
            k,
        ) by {}
    }
}

/// An ability whose costs can be paid in order is paid for with each payment
/// listed for it.
pub proof fn law_listed_abilities_are_payable(
    g: GameModel,
    seat: Seat,
    id: ObjectId,
    costs: Seq<Cost>,
    p: PaymentModel,
)
    requires
        g.sound(),
        g.battlefield(seat).len() <= usize::MAX,
        g.has_obj(id),
        g.obj(id).zone != Zone::Hand,
        paid_in_order(costs),
        g.ability_payments(seat, id, costs, costs.len()) is Some,
        g.ability_payments(seat, id, costs, costs.len())->0.contains(p),
    ensures
        g.pay_costs(seat, id, p, costs, costs.len()) is Ok,
        p.x == 0,
{
    let all = g.ability_payments(seat, id, costs, costs.len())->0;
    let j = choose|j: int| 0 <= j < all.len() && all[j] == p;
    lemma_listed_fits(g, seat, id, costs, costs.len(), j);
    lemma_pays_all(g, seat, id, costs, p, costs.len());
}

} // verus!
