//! What casting costs, told by the printed cost and the reductions in play.
use crate::action::PaymentModel;
use crate::card::CardModel;
use crate::ir::{Effect, Static};
use crate::mana::{pips_covered, source_at, tapped_mana};
use crate::seqs::{lemma_occurrences, lemma_sort_members};
use crate::state::{CtxModel, GameModel};
use crate::types::{CardType, Color, Keyword, Mana, ManaCost, ObjectId, Seat};
use vstd::prelude::*;

verus! {

impl GameModel {
    /// By how much a static ability reduces what a spell costs a player, if it
    /// is a reduction of theirs that the spell matches.
    pub open spec fn discount(self, seat: Seat, spell: ObjectId, s: (ObjectId, Static)) -> Option<
        int,
    > {
        let ctx = CtxModel::simple(seat, Some(spell));
        match s.1 {
            Static::CostReduction { filter, amount } => if self.has_obj(s.0) && self.obj(
                s.0,
            ).controller == seat && self.spell_matches(spell, filter, ctx) {
                Some(self.amount(amount, ctx) as int)
            } else {
                None
            },
            _ => None,
        }
    }

    /// What every static ability in play takes off, in order; zero for those
    /// that do not apply.
    pub open spec fn discounts(self, seat: Seat, spell: ObjectId) -> Seq<int> {
        let ss = self.statics(self.depth());
        Seq::new(
            ss.len(),
            |i: int|
                match self.discount(seat, spell, ss[i]) {
                    Some(n) => n,
                    None => 0,
                },
        )
    }
}

spec fn sum(s: Seq<int>) -> int {
    s.fold_left(0int, |a: int, b: int| a + b)
}

proof fn lemma_sum_step(s: Seq<int>, n: int)
    requires
        0 < n <= s.len(),
    ensures
        sum(s.subrange(0, n)) == sum(s.subrange(0, n - 1)) + s[n - 1],
{
    let a = s.subrange(0, n);
    assert(a.drop_last() =~= s.subrange(0, n - 1));
}

proof fn lemma_sums_grow(s: Seq<int>, n: int)
    requires
        0 <= n <= s.len(),
        forall|i: int| 0 <= i < s.len() ==> #[trigger] s[i] >= 0,
    ensures
        0 <= sum(s.subrange(0, n)) <= sum(s),
    decreases s.len() - n,
{
    if n < s.len() {
        lemma_sums_grow(s, n + 1);
        lemma_sum_step(s, n + 1);
    } else {
        assert(s.subrange(0, n) =~= s);
    }
    lemma_sums_start(s, n);
}

proof fn lemma_sums_start(s: Seq<int>, n: int)
    requires
        0 <= n <= s.len(),
        forall|i: int| 0 <= i < s.len() ==> #[trigger] s[i] >= 0,
    ensures
        sum(s.subrange(0, n)) >= 0,
    decreases n,
{
    if n > 0 {
        lemma_sums_start(s, n - 1);
        lemma_sum_step(s, n);
    } else {
        assert(s.subrange(0, 0).len() == 0);
    }
}

proof fn lemma_one_term(s: Seq<int>, k: int, n: int)
    requires
        0 <= k < s.len(),
        0 <= n <= s.len(),
        forall|i: int| 0 <= i < s.len() && i != k ==> #[trigger] s[i] == 0,
    ensures
        sum(s.subrange(0, n)) == (if k < n {
            s[k]
        } else {
            0
        }),
    decreases n,
{
    if n > 0 {
        lemma_one_term(s, k, n - 1);
        lemma_sum_step(s, n);
    } else {
        assert(s.subrange(0, 0).len() == 0);
    }
}

proof fn lemma_no_terms(s: Seq<int>, n: int)
    requires
        0 <= n <= s.len(),
        forall|i: int| 0 <= i < s.len() ==> #[trigger] s[i] == 0,
    ensures
        sum(s.subrange(0, n)) == 0,
    decreases n,
{
    if n > 0 {
        lemma_no_terms(s, n - 1);
        lemma_sum_step(s, n);
    } else {
        assert(s.subrange(0, 0).len() == 0);
    }
}

proof fn lemma_reduction(g: GameModel, seat: Seat, spell: ObjectId, n: nat)
    requires
        n <= g.statics(g.depth()).len(),
        forall|i: int|
            0 <= i < g.discounts(seat, spell).len() ==> #[trigger] g.discounts(seat, spell)[i] >= 0,
    ensures
        ({
            let total = sum(g.discounts(seat, spell).subrange(0, n as int));
            g.reduction(seat, spell, g.statics(g.depth()), n) == (if total <= i32::MAX {
                total
            } else {
                i32::MAX as int
            })
        }),
    decreases n,
{
    let ds = g.discounts(seat, spell);
    let ss = g.statics(g.depth());
    if n > 0 {
        lemma_reduction(g, seat, spell, (n - 1) as nat);
        lemma_sum_step(ds, n as int);
        lemma_sums_grow(ds, n - 1);
        assert(ds[n - 1] >= 0);
        let (source, s) = ss[n - 1];
        assert(g.discount(seat, spell, ss[n - 1]) is None ==> g.reduction(seat, spell, ss, n)
            == g.reduction(seat, spell, ss, (n - 1) as nat));
    } else {
        assert(ds.subrange(0, 0).len() == 0);
    }
}

/// Casting costs the printed cost with the sum of the reductions off its
/// generic part, which never goes below nothing; the rest of the cost is as
/// printed.
pub proof fn law_reductions_add_up(g: GameModel, seat: Seat, spell: ObjectId)
    requires
        g.has_def(spell),
        forall|i: int|
            0 <= i < g.discounts(seat, spell).len() ==> #[trigger] g.discounts(seat, spell)[i] >= 0,
        g.discounts(seat, spell).fold_left(0int, |a: int, b: int| a + b) <= i32::MAX,
    ensures
        ({
            let off = g.discounts(seat, spell).fold_left(0int, |a: int, b: int| a + b);
            let printed = g.def(spell).cost;
            let cost = g.cast_cost(seat, spell);
            &&& cost.generic == (if printed.generic >= off {
                printed.generic - off
            } else {
                0
            })
            &&& cost == ManaCost { generic: cost.generic, ..printed }
        }),
{
    let ds = g.discounts(seat, spell);
    lemma_reduction(g, seat, spell, g.statics(g.depth()).len());
    lemma_sums_grow(ds, ds.len() as int);
    assert(ds.subrange(0, ds.len() as int) =~= ds);
}

/// While no reduction that applies is negative, a spell costs no more than is
/// printed on it, and only generic mana is taken off.
pub proof fn law_reductions_never_add(g: GameModel, seat: Seat, spell: ObjectId)
    requires
        g.has_def(spell),
        forall|i: int|
            #![trigger g.statics(g.depth())[i]]
            0 <= i < g.statics(g.depth()).len() ==> (g.discount(
                seat,
                spell,
                g.statics(g.depth())[i],
            ) matches Some(n) ==> n >= 0),
    ensures
        ({
            let printed = g.def(spell).cost;
            let cost = g.cast_cost(seat, spell);
            &&& cost.generic <= printed.generic
            &&& cost.x == printed.x
            &&& cost.white == printed.white
            &&& cost.blue == printed.blue
            &&& cost.black == printed.black
            &&& cost.red == printed.red
            &&& cost.green == printed.green
        }),
{
    let ds = g.discounts(seat, spell);
    let ss = g.statics(g.depth());
    assert forall|i: int| 0 <= i < ds.len() implies #[trigger] ds[i] >= 0 by {
        let s = ss[i];
    }
    lemma_reduction(g, seat, spell, ss.len());
    lemma_sums_grow(ds, ds.len() as int);
    assert(ds.subrange(0, ds.len() as int) =~= ds);
}

/// With exactly one reduction that applies, of `n`, the generic part is what is
/// printed less `n`, or nothing if that would be below.
pub proof fn law_one_reduction_takes_its_amount_off(
    g: GameModel,
    seat: Seat,
    spell: ObjectId,
    k: int,
    n: int,
)
    requires
        g.has_def(spell),
        n >= 0,
        0 <= k < g.statics(g.depth()).len(),
        g.discount(seat, spell, g.statics(g.depth())[k]) == Some(n),
        forall|i: int|
            #![trigger g.statics(g.depth())[i]]
            0 <= i < g.statics(g.depth()).len() && i != k ==> g.discount(
                seat,
                spell,
                g.statics(g.depth())[i],
            ) is None,
    ensures
        ({
            let printed = g.def(spell).cost;
            let cost = g.cast_cost(seat, spell);
            &&& printed.generic >= n ==> cost.generic == printed.generic - n
            &&& printed.generic < n ==> cost.generic == 0
            &&& cost == ManaCost { generic: cost.generic, ..printed }
        }),
{
    let ds = g.discounts(seat, spell);
    let ss = g.statics(g.depth());
    assert forall|i: int| 0 <= i < ds.len() && i != k implies #[trigger] ds[i] == 0 by {
        let s = ss[i];
    }
    assert(ds[k] == n);
    lemma_one_term(ds, k, ds.len() as int);
    assert(ds.subrange(0, ds.len() as int) =~= ds);
    law_reductions_add_up(g, seat, spell);
}

/// Where no reduction applies, a spell costs what is printed on it.
pub proof fn law_spells_cost_what_is_printed(g: GameModel, seat: Seat, spell: ObjectId)
    requires
        g.has_def(spell),
        forall|i: int|
            #![trigger g.statics(g.depth())[i]]
            0 <= i < g.statics(g.depth()).len() ==> g.discount(
                seat,
                spell,
                g.statics(g.depth())[i],
            ) is None,
    ensures
        g.cast_cost(seat, spell) == g.def(spell).cost,
{
    let ds = g.discounts(seat, spell);
    let ss = g.statics(g.depth());
    assert forall|i: int| 0 <= i < ds.len() implies #[trigger] ds[i] == 0 by {
        let s = ss[i];
    }
    lemma_no_terms(ds, ds.len() as int);
    assert(ds.subrange(0, ds.len() as int) =~= ds);
    law_reductions_add_up(g, seat, spell);
}

// ----- paying -----

/// Announcing `n` for {X} adds `n` generic mana for each {X} and asks for no
/// more of it; colours stay.
pub proof fn law_x_is_paid_for(cost: ManaCost, n: u32)
    requires
        cost.generic + n * cost.x <= u32::MAX,
    ensures
        cost.announced(n).generic == cost.generic + n * cost.x,
        cost.announced(n).x == 0,
        cost.announced(n).value() == cost.value() + n * cost.x,
        cost.announced(n).white == cost.white,
        cost.announced(n).blue == cost.blue,
        cost.announced(n).black == cost.black,
        cost.announced(n).red == cost.red,
        cost.announced(n).green == cost.green,
{
}

/// A payment covers a cost only with enough mana of each colour it asks for and
/// enough in all, from permanents named once each that make mana for the player.
pub proof fn law_payments_cover_every_colour(
    g: GameModel,
    s: Seat,
    p: PaymentModel,
    cost: ManaCost,
    paying: Seq<Mana>,
    i: int,
)
    requires
        g.covering(s, p, cost) == Ok::<Seq<Mana>, crate::error::ErrorModel>(paying),
    ensures
        paying.to_multiset().count(Mana::Colored(Color::White)) >= cost.white,
        paying.to_multiset().count(Mana::Colored(Color::Blue)) >= cost.blue,
        paying.to_multiset().count(Mana::Colored(Color::Black)) >= cost.black,
        paying.to_multiset().count(Mana::Colored(Color::Red)) >= cost.red,
        paying.to_multiset().count(Mana::Colored(Color::Green)) >= cost.green,
        paying.len() >= cost.generic + cost.white + cost.blue + cost.black + cost.red + cost.green,
        p.tap.no_duplicates(),
        0 <= i < p.tap.len() ==> source_at(g.sources(s), p.tap[i], 0) is Some,
{
    reveal_with_fuel(pips_covered, 6);
    assert(paying.subrange(0, paying.len() as int) =~= paying);
    lemma_occurrences(paying, Mana::Colored(Color::White), paying.len());
    lemma_occurrences(paying, Mana::Colored(Color::Blue), paying.len());
    lemma_occurrences(paying, Mana::Colored(Color::Black), paying.len());
    lemma_occurrences(paying, Mana::Colored(Color::Red), paying.len());
    lemma_occurrences(paying, Mana::Colored(Color::Green), paying.len());
    lemma_tapped_once(g.sources(s), p.tap, s, p.tap.len());
}

proof fn lemma_tapped_once(
    sources: Seq<(ObjectId, Mana, i32)>,
    tap: Seq<ObjectId>,
    s: Seat,
    n: nat,
)
    requires
        n <= tap.len(),
        tapped_mana(sources, tap, s, n) is Ok,
    ensures
        forall|i: int, j: int| 0 <= i < j < n ==> tap[i] != tap[j],
        forall|i: int| 0 <= i < n ==> source_at(sources, #[trigger] tap[i], 0) is Some,
    decreases n,
{
    if n > 0 {
        lemma_tapped_once(sources, tap, s, (n - 1) as nat);
        assert forall|i: int| 0 <= i < n - 1 implies #[trigger] tap[i] != tap[n - 1] by {
            assert(tap.subrange(0, n - 1)[i] == tap[i]);
        }
    }
}

/// A permanent makes mana only while it is untapped, and a creature only once
/// it has been there since the turn began, or with haste.
pub proof fn law_who_makes_mana(g: GameModel, s: Seat, id: ObjectId)
    requires
        g.source(s, id) is Some,
    ensures
        g.has_def(id),
        !g.obj(id).tapped,
        g.def(id).types.contains(CardType::Creature) && g.obj(id).summoning_sick ==> g.has_keyword(
            id,
            Keyword::Haste,
        ),
        g.source(s, id).unwrap().1 > 0,
{
}

proof fn lemma_sources_n(
    g: GameModel,
    s: Seat,
    ids: Seq<ObjectId>,
    n: nat,
    id: ObjectId,
    m: Mana,
    v: i32,
)
    requires
        n <= ids.len(),
    ensures
        g.sources_n(s, ids, n).contains((id, m, v)) <==> g.source(s, id) == Some((m, v)) && exists|
            i: int,
        |
            0 <= i < n && #[trigger] ids[i] == id,
    decreases n,
{
    if n > 0 {
        let x = (id, m, v);
        lemma_sources_n(g, s, ids, (n - 1) as nat, id, m, v);
        let rest = g.sources_n(s, ids, (n - 1) as nat);
        let all = g.sources_n(s, ids, n);
        if all.contains(x) {
            let k = choose|k: int| 0 <= k < all.len() && all[k] == x;
            if k < rest.len() {
                assert(rest[k] == x);
                let i = choose|i: int| 0 <= i < n - 1 && #[trigger] ids[i] == id;
                assert(0 <= i < n && ids[i] == id);
            } else {
                assert(ids[n - 1] == id);
            }
        }
        if g.source(s, id) == Some((m, v)) && exists|i: int|
            0 <= i < n && #[trigger] ids[i] == id {
            let i = choose|i: int| 0 <= i < n && #[trigger] ids[i] == id;
            if i < n - 1 {
                assert(rest.contains(x));
                let k = choose|k: int| 0 <= k < rest.len() && rest[k] == x;
                assert(all[k] == x);
            } else {
                assert(all[rest.len() as int] == x);
            }
        }
    }
}

/// The sources of mana a player has are the permanents on their battlefield
/// that make some, with what they make.
pub proof fn law_sources_are_permanents(g: GameModel, s: Seat, id: ObjectId, m: Mana, v: i32)
    ensures
        g.sources(s).contains((id, m, v)) <==> g.battlefield(s).contains(id) && g.source(s, id)
            == Some((m, v)),
{
    let ids = g.battlefield(s);
    lemma_sources_n(g, s, ids, ids.len(), id, m, v);
    lemma_sort_members(g.sources_n(s, ids, ids.len()), (id, m, v));
    assert(ids.contains(id) <==> exists|i: int| 0 <= i < ids.len() && #[trigger] ids[i] == id);
}

// ----- what cards make -----

proof fn lemma_push_colour(s: Seq<Color>, x: Color, c: Color)
    ensures
        s.push(x).contains(c) <==> s.contains(c) || c == x,
{
    if s.contains(c) {
        let i = choose|i: int| 0 <= i < s.len() && s[i] == c;
        assert(s.push(x)[i] == c);
    }
    assert(s.push(x)[s.len() as int] == x);
    if s.push(x).contains(c) && c != x {
        let i = choose|i: int| 0 <= i < s.push(x).len() && s.push(x)[i] == c;
        assert(s[i] == c);
    }
}

/// A card produces just the colours that some mana ability of it adds.
pub proof fn law_what_colours_cards_make(def: CardModel, c: Color)
    ensures
        def.produced().contains(c) <==> exists|i: int, j: int|
            #![trigger def.activated[i].effects@[j]]
            0 <= i < def.activated.len() && def.activated[i].makes_mana() && 0 <= j
                < def.activated[i].effects@.len() && (def.activated[i].effects@[j] matches
                Effect::AddMana { color, .. } && color == Some(c)),
{
    let s0 = Seq::<Color>::empty();
    let s1 = if def.makes(Color::White) {
        s0.push(Color::White)
    } else {
        s0
    };
    let s2 = if def.makes(Color::Blue) {
        s1.push(Color::Blue)
    } else {
        s1
    };
    let s3 = if def.makes(Color::Black) {
        s2.push(Color::Black)
    } else {
        s2
    };
    let s4 = if def.makes(Color::Red) {
        s3.push(Color::Red)
    } else {
        s3
    };
    lemma_push_colour(s0, Color::White, c);
    lemma_push_colour(s1, Color::Blue, c);
    lemma_push_colour(s2, Color::Black, c);
    lemma_push_colour(s3, Color::Red, c);
    lemma_push_colour(s4, Color::Green, c);
    assert(!s0.contains(c));
}

} // verus!
