//! Mana sources, payment enumeration (one colour combination at a time, the
//! engine picks the permanents), and payment.
use crate::action::{Action, ActionModel, ManaPayment, PaymentModel, EQUIP_ABILITY};
use crate::error::{ErrorModel, RulesError};
use crate::event::{EventBase, EventModel};
use crate::ir::{Cost, Effect, Static};
use crate::seqs::{
    count, dedup_n, deduped, extend, find, group_views, in_list, occurrences, position, rank_sort,
    rank_sorted, sort, sorted, views, Ranked,
};
use crate::state::{Ctx, CtxModel, Game, GameModel, ObjectModel, PlayerModel};
use crate::types::{add_i32, id_words, sat_i32, sat_u32, sat_u8, seat_words, Color, Keyword, Mana, ManaCost, ManaPool, ObjectId, Seat};
use crate::words::{cat2, cat4};
use vstd::prelude::*;

verus! {

broadcast use group_views;

// ----- what things cost -----

impl GameModel {
    /// By how much the first `n` statics reduce what `object` costs `seat`.
    pub open spec fn reduction(
        self,
        seat: Seat,
        object: ObjectId,
        ss: Seq<(ObjectId, Static)>,
        n: nat,
    ) -> i32
        decreases n,
    {
        if n == 0 || n > ss.len() {
            0
        } else {
            let sofar = self.reduction(seat, object, ss, (n - 1) as nat);
            let (source, s) = ss[n - 1];
            let ctx = CtxModel::simple(seat, Some(object));
            match s {
                Static::CostReduction { filter, amount } => if self.has_obj(source) && self.obj(
                    source,
                ).controller == seat && self.spell_matches(object, filter, ctx) {
                    sat_i32(sofar + self.amount(amount, ctx))
                } else {
                    sofar
                },
                _ => sofar,
            }
        }
    }

    /// What casting `object` costs `seat`: the printed cost less any
    /// `CostReduction` statics they control that apply to it (generic only).
    pub open spec fn cast_cost(self, seat: Seat, object: ObjectId) -> ManaCost {
        let cost = if self.has_def(object) {
            self.def(object).cost
        } else {
            ManaCost::zero()
        };
        let ss = self.statics(self.depth());
        let left = cost.generic - self.reduction(seat, object, ss, ss.len());
        ManaCost {
            generic: if left < 0 {
                0
            } else {
                sat_u32(left)
            },
            ..cost
        }
    }

    // ----- sources -----

    /// What the `AddMana` effects among the first `n` come to.
    pub open spec fn mana_sum(self, effects: Seq<Effect>, ctx: CtxModel, n: nat) -> i32
        decreases n,
    {
        if n == 0 || n > effects.len() {
            0
        } else {
            let rest = self.mana_sum(effects, ctx, (n - 1) as nat);
            match effects[n - 1] {
                Effect::AddMana { amount, .. } => sat_i32(rest + self.amount(amount, ctx)),
                _ => rest,
            }
        }
    }

    /// The mana a permanent makes for `seat` right now, and how much.
    pub open spec fn source(self, seat: Seat, id: ObjectId) -> Option<(Mana, i32)> {
        let o = self.obj(id);
        let def = self.def(id);
        let list = def.mana_list(def.activated.len());
        if !self.has_def(id) || o.tapped || (def.creature() && o.summoning_sick
            && !self.has_keyword(id, Keyword::Haste)) || list.len() == 0 {
            None
        } else {
            let (color, amount, index) = list[0];
            let mana = match color {
                Some(c) => Mana::Colored(c),
                None => Mana::Colorless,
            };
            let effects = def.activated[index as int].effects@;
            let n = match amount {
                Some(n) => n,
                None => if index < def.activated.len() {
                    self.mana_sum(effects, CtxModel::simple(seat, Some(id)), effects.len())
                } else {
                    0
                },
            };
            if n > 0 {
                Some((mana, n))
            } else {
                None
            }
        }
    }

    pub open spec fn sources_n(self, seat: Seat, ids: Seq<ObjectId>, n: nat) -> Seq<
        (ObjectId, Mana, i32),
    >
        decreases n,
    {
        if n == 0 || n > ids.len() {
            Seq::empty()
        } else {
            let rest = self.sources_n(seat, ids, (n - 1) as nat);
            match self.source(seat, ids[n - 1]) {
                Some((m, k)) => rest.push((ids[n - 1], m, k)),
                None => rest,
            }
        }
    }

    /// Untapped permanents `seat` controls with a mana ability: the mana
    /// each makes and how much.
    pub open spec fn sources(self, seat: Seat) -> Seq<(ObjectId, Mana, i32)> {
        sort(self.sources_n(seat, self.battlefield(seat), self.battlefield(seat).len()))
    }

    pub open spec fn pool(self, seat: Seat) -> ManaPool {
        if self.has_seat(seat) {
            self.player(seat).mana_pool
        } else {
            ManaPool::none()
        }
    }
}

// ----- which combinations pay a cost -----

/// How much of each kind the first `n` sources can make, up to what a `u8` holds.
pub open spec fn capacity(sources: Seq<(ObjectId, Mana, i32)>, n: nat) -> ManaPool
    decreases n,
{
    if n == 0 || n > sources.len() {
        ManaPool::none()
    } else {
        capacity(sources, (n - 1) as nat).plus(sources[n - 1].1, sat_u8(sources[n - 1].2 as int))
    }
}

/// The ways to pay the kinds of mana from place `c` on, with `left` generic
/// mana still to pay: how much of each kind is tapped for, and how much is
/// taken from the pool.
pub open spec fn search(
    c: nat,
    counts: ManaPool,
    pool: ManaPool,
    cost: ManaCost,
    left: int,
    tapped: ManaPool,
    pooled: ManaPool,
) -> Seq<(ManaPool, ManaPool)>
    decreases 5 - c, 3nat, 0nat,
{
    if left < 0 {
        Seq::empty()
    } else if c >= 5 {
        // Whatever generic remains comes from colourless sources, then colourless pool mana.
        let t = if left < counts.colorless {
            left
        } else {
            counts.colorless as int
        };
        if pool.colorless >= left - t {
            seq![(
                tapped.with(Mana::Colorless, t as u8),
                pooled.with(Mana::Colorless, (left - t) as u8),
            )]
        } else {
            Seq::empty()
        }
    } else {
        search_taps(
            c,
            counts,
            pool,
            cost,
            left,
            tapped,
            pooled,
            counts.amount(Mana::at(c)) as nat + 1,
        )
    }
}

/// The ways with fewer than `n` of kind `c` tapped for.
pub open spec fn search_taps(
    c: nat,
    counts: ManaPool,
    pool: ManaPool,
    cost: ManaCost,
    left: int,
    tapped: ManaPool,
    pooled: ManaPool,
    n: nat,
) -> Seq<(ManaPool, ManaPool)>
    decreases 5 - c, 2nat, n,
{
    if n == 0 || c >= 5 {
        Seq::empty()
    } else {
        search_taps(c, counts, pool, cost, left, tapped, pooled, (n - 1) as nat) + search_pool(
            c,
            counts,
            pool,
            cost,
            left,
            tapped,
            pooled,
            (n - 1) as nat,
            pool.amount(Mana::at(c)) as nat + 1,
        )
    }
}

/// The ways with `t` of kind `c` tapped for and fewer than `n` taken from the pool.
pub open spec fn search_pool(
    c: nat,
    counts: ManaPool,
    pool: ManaPool,
    cost: ManaCost,
    left: int,
    tapped: ManaPool,
    pooled: ManaPool,
    t: nat,
    n: nat,
) -> Seq<(ManaPool, ManaPool)>
    decreases 5 - c, 1nat, n,
{
    if n == 0 || c >= 5 {
        Seq::empty()
    } else {
        let p = (n - 1) as nat;
        let rest = search_pool(c, counts, pool, cost, left, tapped, pooled, t, p);
        let pips = cost.pips(Mana::at(c)->Colored_0);
        let extra = t + p - pips;
        if extra < 0 || extra > left {
            rest
        } else {
            rest + search(
                c + 1,
                counts,
                pool,
                cost,
                left - extra,
                tapped.with(Mana::at(c), t as u8),
                pooled.with(Mana::at(c), p as u8),
            )
        }
    }
}

/// Which sources are tapped first.
#[derive(Copy, Clone, Debug, PartialEq, Eq, Structural)]
pub enum Pick {
    LandsFirst,
    ProducersFirst,
}

/// How a source ranks: `(id, amount, is a creature)`.
pub open spec fn source_rank(s: (ObjectId, i32, bool), strategy: Pick, i: nat) -> Ranked {
    match strategy {
        Pick::LandsFirst => Ranked {
            a: if s.2 {
                1
            } else {
                0
            },
            b: if s.2 {
                -s.1 as i64
            } else {
                0
            },
            c: s.0.0 as i64,
            item: i as usize,
        },
        Pick::ProducersFirst => Ranked {
            a: -s.1 as i64,
            b: if s.2 {
                0
            } else {
                1
            },
            c: s.0.0 as i64,
            item: i as usize,
        },
    }
}

pub open spec fn source_ranks(sources: Seq<(ObjectId, i32, bool)>, strategy: Pick) -> Seq<Ranked> {
    Seq::new(sources.len(), |i: int| source_rank(sources[i], strategy, i as nat))
}

/// What a source adds to a payment: at least one.
pub open spec fn yields(n: i32) -> int {
    if n < 1 {
        1
    } else {
        n as int
    }
}

/// How much the sources chosen among the first `n` in order make, and which they are.
pub open spec fn pick_n(
    sources: Seq<(ObjectId, i32, bool)>,
    order: Seq<Ranked>,
    need: int,
    n: nat,
) -> (int, Seq<ObjectId>)
    decreases n,
{
    if n == 0 || n > order.len() {
        (0, Seq::empty())
    } else {
        let (made, chosen) = pick_n(sources, order, need, (n - 1) as nat);
        let i = order[n - 1].item as int;
        if made >= need || i >= sources.len() {
            (made, chosen)
        } else {
            (made + yields(sources[i].1), chosen.push(sources[i].0))
        }
    }
}

/// Sources of one kind whose output covers `need`.
pub open spec fn pick(sources: Seq<(ObjectId, i32, bool)>, need: int, strategy: Pick) -> Option<
    Seq<ObjectId>,
> {
    let order = rank_sort(source_ranks(sources, strategy));
    let (made, chosen) = pick_n(sources, order, need, order.len());
    if made >= need {
        Some(chosen)
    } else {
        None
    }
}

impl GameModel {
    /// The sources of one kind among the first `n`.
    pub open spec fn of_kind(self, sources: Seq<(ObjectId, Mana, i32)>, m: Mana, n: nat) -> Seq<
        (ObjectId, i32, bool),
    >
        decreases n,
    {
        if n == 0 || n > sources.len() {
            Seq::empty()
        } else {
            let rest = self.of_kind(sources, m, (n - 1) as nat);
            let (id, k, amount) = sources[n - 1];
            if k == m {
                rest.push((id, amount, self.creature(id)))
            } else {
                rest
            }
        }
    }

    /// The permanents tapped and pool mana spent for the kinds before place
    /// `k`, or `None` if some kind has too few sources.
    pub open spec fn realise(
        self,
        sources: Seq<(ObjectId, Mana, i32)>,
        tapped: ManaPool,
        pooled: ManaPool,
        strategy: Pick,
        k: nat,
    ) -> Option<(Seq<ObjectId>, Seq<Mana>)>
        decreases k,
    {
        if k == 0 {
            Some((Seq::empty(), Seq::empty()))
        } else {
            let m = Mana::at((k - 1) as nat);
            match self.realise(sources, tapped, pooled, strategy, (k - 1) as nat) {
                None => None,
                Some((tap, from_pool)) => {
                    let spent = from_pool + ManaPool::repeat(m, pooled.amount(m) as nat);
                    if tapped.amount(m) == 0 {
                        Some((tap, spent))
                    } else {
                        match pick(
                            self.of_kind(sources, m, sources.len()),
                            tapped.amount(m) as int,
                            strategy,
                        ) {
                            Some(ids) => Some((tap + ids, spent)),
                            None => None,
                        }
                    }
                },
            }
        }
    }

    /// A colour combination as a payment with concrete permanents.
    pub open spec fn payment_for(
        self,
        sources: Seq<(ObjectId, Mana, i32)>,
        way: (ManaPool, ManaPool),
        strategy: Pick,
    ) -> Option<PaymentModel> {
        match self.realise(sources, way.0, way.1, strategy, 6) {
            None => None,
            Some((tap, from_pool)) => Some(
                PaymentModel {
                    tap: dedup_n(sort(tap), sort(tap).len()),
                    from_pool: sort(from_pool),
                    ..PaymentModel::none()
                },
            ),
        }
    }

    /// `out` and the payment, unless there is none or it is listed already.
    pub open spec fn with_payment(out: Seq<PaymentModel>, p: Option<PaymentModel>) -> Seq<
        PaymentModel,
    > {
        match p {
            Some(p) => if out.contains(p) {
                out
            } else {
                out.push(p)
            },
            None => out,
        }
    }

    /// The payments of the first `n` combinations, lands first and producers first.
    pub open spec fn payments_n(
        self,
        sources: Seq<(ObjectId, Mana, i32)>,
        ways: Seq<(ManaPool, ManaPool)>,
        n: nat,
    ) -> Seq<PaymentModel>
        decreases n,
    {
        if n == 0 || n > ways.len() {
            Seq::empty()
        } else {
            let rest = self.payments_n(sources, ways, (n - 1) as nat);
            let lands = GameModel::with_payment(
                rest,
                self.payment_for(sources, ways[n - 1], Pick::LandsFirst),
            );
            GameModel::with_payment(
                lands,
                self.payment_for(sources, ways[n - 1], Pick::ProducersFirst),
            )
        }
    }

    /// Every distinct way `seat` could pay `cost`: one colour combination at
    /// a time, realised as concrete permanents in up to two ways.
    pub open spec fn payments(self, seat: Seat, cost: ManaCost) -> Seq<PaymentModel> {
        if cost.free() {
            seq![PaymentModel::none()]
        } else {
            let sources = self.sources(seat);
            let ways = search(
                0,
                capacity(sources, sources.len()),
                self.pool(seat),
                cost,
                cost.generic as int,
                ManaPool::none(),
                ManaPool::none(),
            );
            self.payments_n(sources, ways, ways.len())
        }
    }
}

// ----- paying -----

/// The first source that is `id`, from `i` on.
pub open spec fn source_at(sources: Seq<(ObjectId, Mana, i32)>, id: ObjectId, i: nat) -> Option<
    (Mana, i32),
>
    decreases sources.len() - i,
{
    if i >= sources.len() {
        None
    } else if sources[i as int].0 == id {
        Some((sources[i as int].1, sources[i as int].2))
    } else {
        source_at(sources, id, i + 1)
    }
}

/// The mana the first `n` tapped permanents make, or why they cannot be tapped.
pub open spec fn tapped_mana(
    sources: Seq<(ObjectId, Mana, i32)>,
    tap: Seq<ObjectId>,
    seat: Seat,
    n: nat,
) -> Result<Seq<Mana>, Seq<char>>
    decreases n,
{
    if n == 0 || n > tap.len() {
        Ok(Seq::empty())
    } else {
        match tapped_mana(sources, tap, seat, (n - 1) as nat) {
            Err(e) => Err(e),
            Ok(sofar) => if tap.subrange(0, n - 1).contains(tap[n - 1]) {
                Err(id_words(tap[n - 1]) + " is listed twice in the payment"@)
            } else {
                match source_at(sources, tap[n - 1], 0) {
                    Some((m, k)) => Ok(sofar + ManaPool::repeat(m, yields(k) as nat)),
                    None => Err(
                        id_words(tap[n - 1]) + " is not an untapped mana source "@ + seat_words(
                            seat,
                        ) + " controls"@,
                    ),
                }
            },
        }
    }
}

/// The pool after the first `n` units are spent, or why they cannot be.
pub open spec fn spend_pool(pool: ManaPool, units: Seq<Mana>, seat: Seat, n: nat) -> Result<
    ManaPool,
    Seq<char>,
>
    decreases n,
{
    if n == 0 || n > units.len() {
        Ok(pool)
    } else {
        match spend_pool(pool, units, seat, (n - 1) as nat) {
            Err(e) => Err(e),
            Ok(left) => if left.amount(units[n - 1]) < 1 {
                Err(
                    seat_words(seat) + " has no "@ + units[n - 1].words()
                        + " in their mana pool to spend"@,
                )
            } else {
                Ok(left.minus(units[n - 1], 1))
            },
        }
    }
}

/// Enough of each colour before place `c`.
pub open spec fn pips_covered(paying: Seq<Mana>, cost: ManaCost, c: nat) -> bool
    decreases c,
{
    if c == 0 {
        true
    } else {
        pips_covered(paying, cost, (c - 1) as nat) && occurrences(
            paying,
            Mana::at((c - 1) as nat),
            paying.len(),
        ) >= cost.pips(Mana::at((c - 1) as nat)->Colored_0)
    }
}

pub open spec fn remove_first(s: Seq<Mana>, m: Mana) -> Seq<Mana> {
    match find(s, m) {
        Some(i) => s.remove(i as int),
        None => s,
    }
}

pub open spec fn remove_times(s: Seq<Mana>, m: Mana, k: nat) -> Seq<Mana>
    decreases k,
{
    if k == 0 {
        s
    } else {
        remove_first(remove_times(s, m, (k - 1) as nat), m)
    }
}

/// What is left of a payment once the pips of the colours before place `c` are paid.
pub open spec fn without_pips(s: Seq<Mana>, cost: ManaCost, c: nat) -> Seq<Mana>
    decreases c,
{
    if c == 0 {
        s
    } else {
        remove_times(
            without_pips(s, cost, (c - 1) as nat),
            Mana::at((c - 1) as nat),
            cost.pips(Mana::at((c - 1) as nat)->Colored_0) as nat,
        )
    }
}

/// What a payment leaves over: colourless mana is spent on generic costs first.
pub open spec fn surplus(paying: Seq<Mana>, cost: ManaCost) -> Seq<Mana> {
    let rest = sort(without_pips(paying, cost, 5));
    if rest.len() <= cost.generic {
        Seq::empty()
    } else {
        rest.subrange(0, rest.len() - cost.generic)
    }
}

pub open spec fn add_units(pool: ManaPool, units: Seq<Mana>, n: nat) -> ManaPool
    decreases n,
{
    if n == 0 || n > units.len() {
        pool
    } else {
        add_units(pool, units, (n - 1) as nat).plus(units[n - 1], 1)
    }
}

impl GameModel {
    /// The mana a payment makes, or why it does not cover `cost`.
    pub open spec fn covering(self, seat: Seat, payment: PaymentModel, cost: ManaCost) -> Result<
        Seq<Mana>,
        ErrorModel,
    > {
        match tapped_mana(self.sources(seat), payment.tap, seat, payment.tap.len()) {
            Err(e) => Err(ErrorModel::IllegalAction { reason: e }),
            Ok(made) => match spend_pool(
                self.pool(seat),
                payment.from_pool,
                seat,
                payment.from_pool.len(),
            ) {
                Err(e) => Err(ErrorModel::IllegalAction { reason: e }),
                Ok(_) => {
                    let paying = made + payment.from_pool;
                    if pips_covered(paying, cost, 5) && paying.len() >= cost.value() {
                        Ok(paying)
                    } else {
                        Err(
                            ErrorModel::IllegalAction {
                                reason: "payment does not cover "@ + cost.words(),
                            },
                        )
                    }
                },
            },
        }
    }

    /// Tap each of the first `n` ids.
    pub open spec fn tap_all(self, ids: Seq<ObjectId>, n: nat) -> GameModel
        decreases n,
    {
        if n == 0 || n > ids.len() {
            self
        } else {
            let g = self.tap_all(ids, (n - 1) as nat);
            let id = ids[n - 1];
            g.with_obj(id, ObjectModel { tapped: true, ..g.obj(id) }).emit(
                EventModel::Tapped { object: id },
            )
        }
    }

    pub open spec fn with_pool(self, seat: Seat, pool: ManaPool) -> GameModel {
        self.with_player(seat, PlayerModel { mana_pool: pool, ..self.player(seat) })
    }

    /// Execute a payment that makes `paying`: spend the named pool mana, tap
    /// the named permanents, and return any surplus to the pool.
    pub open spec fn pay(
        self,
        seat: Seat,
        payment: PaymentModel,
        cost: ManaCost,
        paying: Seq<Mana>,
    ) -> GameModel {
        let left = match spend_pool(
            self.pool(seat),
            payment.from_pool,
            seat,
            payment.from_pool.len(),
        ) {
            Ok(p) => p,
            Err(_) => self.pool(seat),
        };
        let rest = surplus(paying, cost);
        let g = self.with_pool(seat, left).tap_all(payment.tap, payment.tap.len());
        g.with_pool(seat, add_units(left, rest, rest.len()))
    }

    /// The mana an action must pay, if it is a cast or activation.
    pub open spec fn action_cost(self, a: ActionModel) -> Option<ManaCost> {
        match a {
            ActionModel::CastSpell { object, .. } => if self.has_obj(object) {
                Some(self.cast_cost(self.obj(object).controller, object))
            } else {
                None
            },
            ActionModel::ActivateAbility { object, ability, .. } => if !self.has_def(object) {
                None
            } else if ability == EQUIP_ABILITY {
                self.def(object).equip
            } else if ability < self.def(object).activated.len() {
                let cost = self.def(object).activated[ability as int].cost@;
                Some(mana_total(cost, cost.len()))
            } else {
                None
            },
            _ => None,
        }
    }
}

/// The mana among the first `n` costs.
pub open spec fn mana_total(costs: Seq<Cost>, n: nat) -> ManaCost
    decreases n,
{
    if n == 0 || n > costs.len() {
        ManaCost::zero()
    } else {
        let rest = mana_total(costs, (n - 1) as nat);
        match costs[n - 1] {
            Cost::Mana(m) => rest.plus(m),
            _ => rest,
        }
    }
}

// ----- executable parts -----

/// Append the ways to pay from place `c` on; see [`search`].
#[allow(clippy::too_many_arguments)]
fn search_ways(
    c: usize,
    counts: &ManaPool,
    pool: &ManaPool,
    cost: &ManaCost,
    left: i64,
    tapped: ManaPool,
    pooled: ManaPool,
    out: &mut Vec<(ManaPool, ManaPool)>,
)
    requires
        c <= 5,
        left <= 0xffff_ffff,
    ensures
        final(out)@ == old(out)@ + search(
            c as nat,
            *counts,
            *pool,
            *cost,
            left as int,
            tapped,
            pooled,
        ),
    decreases 5 - c,
{
    let ghost start = out@;
    assert(start + Seq::<(ManaPool, ManaPool)>::empty() =~= start);
    if left < 0 {
        return ;
    }
    if c == 5 {
        let t: i64 = if left < counts.colorless as i64 {
            left
        } else {
            counts.colorless as i64
        };
        let p: i64 = left - t;
        if pool.colorless as i64 >= p {
            let mut a = tapped;
            a.colorless = t as u8;
            let mut b = pooled;
            b.colorless = p as u8;
            out.push((a, b));
            assert(out@ =~= start + search(
                c as nat,
                *counts,
                *pool,
                *cost,
                left as int,
                tapped,
                pooled,
            ));
        }
        return ;
    }
    let m = Mana::nth(c);
    let pips: u32 = match m {
        Mana::Colored(color) => cost.pips_of(color),
        Mana::Colorless => 0,
    };
    let most_t: u32 = counts.get(m) as u32 + 1;
    let most_p: u32 = pool.get(m) as u32 + 1;
    let mut t: u32 = 0;
    while t < most_t
        invariant
            t <= most_t,
            c < 5,
            0 <= left <= 0xffff_ffff,
            m == Mana::at(c as nat),
            pips == cost.pips(Mana::at(c as nat)->Colored_0),
            most_t == counts.amount(m) + 1,
            most_p == pool.amount(m) + 1,
            out@ == start + search_taps(
                c as nat,
                *counts,
                *pool,
                *cost,
                left as int,
                tapped,
                pooled,
                t as nat,
            ),
        decreases most_t - t,
    {
        let ghost before = out@;
        let mut p: u32 = 0;
        assert(out@ =~= before + search_pool(
            c as nat,
            *counts,
            *pool,
            *cost,
            left as int,
            tapped,
            pooled,
            t as nat,
            0,
        ));
        while p < most_p
            invariant
                p <= most_p,
                t < most_t,
                c < 5,
                0 <= left <= 0xffff_ffff,
                m == Mana::at(c as nat),
                pips == cost.pips(Mana::at(c as nat)->Colored_0),
                most_t == counts.amount(m) + 1,
                most_p == pool.amount(m) + 1,
                out@ == before + search_pool(
                    c as nat,
                    *counts,
                    *pool,
                    *cost,
                    left as int,
                    tapped,
                    pooled,
                    t as nat,
                    p as nat,
                ),
            decreases most_p - p,
        {
            let extra: i64 = t as i64 + p as i64 - pips as i64;
            if extra >= 0 && extra <= left {
                let a = put(tapped, m, t as u8);
                let b = put(pooled, m, p as u8);
                search_ways(c + 1, counts, pool, cost, left - extra, a, b, out);
            }
            p = p + 1;
            assert(out@ =~= before + search_pool(
                c as nat,
                *counts,
                *pool,
                *cost,
                left as int,
                tapped,
                pooled,
                t as nat,
                p as nat,
            ));
        }
        t = t + 1;
        assert(out@ =~= start + search_taps(
            c as nat,
            *counts,
            *pool,
            *cost,
            left as int,
            tapped,
            pooled,
            t as nat,
        ));
    }
}

fn put(pool: ManaPool, m: Mana, n: u8) -> (r: ManaPool)
    ensures
        r == pool.with(m, n),
{
    let mut r = pool;
    match m {
        Mana::Colored(Color::White) => {
            r.white = n;
        },
        Mana::Colored(Color::Blue) => {
            r.blue = n;
        },
        Mana::Colored(Color::Black) => {
            r.black = n;
        },
        Mana::Colored(Color::Red) => {
            r.red = n;
        },
        Mana::Colored(Color::Green) => {
            r.green = n;
        },
        Mana::Colorless => {
            r.colorless = n;
        },
    }
    r
}

/// Append `n` units of `m`.
fn push_units(out: &mut Vec<Mana>, m: Mana, n: u32)
    ensures
        final(out)@ == old(out)@ + ManaPool::repeat(m, n as nat),
{
    let ghost start = out@;
    let mut i: u32 = 0;
    assert(out@ =~= start + ManaPool::repeat(m, 0));
    while i < n
        invariant
            i <= n,
            out@ == start + ManaPool::repeat(m, i as nat),
        decreases n - i,
    {
        out.push(m);
        i = i + 1;
        assert(out@ =~= start + ManaPool::repeat(m, i as nat));
    }
}

fn yield_of(n: i32) -> (r: u32)
    ensures
        r == yields(n),
{
    if n < 1 {
        1
    } else {
        n as u32
    }
}

fn ranks_of(sources: &Vec<(ObjectId, i32, bool)>, strategy: Pick) -> (r: Vec<Ranked>)
    ensures
        r@ == source_ranks(sources@, strategy),
{
    let mut out: Vec<Ranked> = Vec::new();
    let mut i: usize = 0;
    while i < sources.len()
        invariant
            i <= sources.len(),
            out@ == source_ranks(sources@, strategy).subrange(0, i as int),
        decreases sources.len() - i,
    {
        let (id, n, creature) = sources[i];
        let r = match strategy {
            Pick::LandsFirst => Ranked {
                a: if creature {
                    1
                } else {
                    0
                },
                b: if creature {
                    -(n as i64)
                } else {
                    0
                },
                c: id.0 as i64,
                item: i,
            },
            Pick::ProducersFirst => Ranked {
                a: -(n as i64),
                b: if creature {
                    0
                } else {
                    1
                },
                c: id.0 as i64,
                item: i,
            },
        };
        out.push(r);
        i = i + 1;
    }
    assert(source_ranks(sources@, strategy).subrange(0, sources@.len() as int) =~= source_ranks(
        sources@,
        strategy,
    ));
    out
}

/// Choose sources of one kind whose output covers `need`.
fn pick_sources(sources: &Vec<(ObjectId, i32, bool)>, need: i64, strategy: Pick) -> (r: Option<
    Vec<ObjectId>,
>)
    requires
        need <= 255,
    ensures
        match r {
            Some(v) => pick(sources@, need as int, strategy) == Some(v@),
            None => pick(sources@, need as int, strategy) is None,
        },
{
    let order = rank_sorted(&ranks_of(sources, strategy));
    let mut chosen: Vec<ObjectId> = Vec::new();
    let mut made: i64 = 0;
    let mut i: usize = 0;
    while i < order.len()
        invariant
            i <= order.len(),
            need <= 255,
            0 <= made <= 0x1_0000_0000,
            (made as int, chosen@) == pick_n(sources@, order@, need as int, i as nat),
        decreases order.len() - i,
    {
        let at: usize = order[i].item;
        if made < need && at < sources.len() {
            chosen.push(sources[at].0);
            made = made + yield_of(sources[at].1) as i64;
        }
        i = i + 1;
    }
    if made >= need {
        Some(chosen)
    } else {
        None
    }
}

fn find_source(sources: &Vec<(ObjectId, Mana, i32)>, id: ObjectId) -> (r: Option<(Mana, i32)>)
    ensures
        r == source_at(sources@, id, 0),
{
    let mut i: usize = 0;
    while i < sources.len()
        invariant
            i <= sources.len(),
            source_at(sources@, id, 0) == source_at(sources@, id, i as nat),
        decreases sources.len() - i,
    {
        if sources[i].0 == id {
            return Some((sources[i].1, sources[i].2));
        }
        i = i + 1;
    }
    None
}

proof fn lemma_tapped_err(
    sources: Seq<(ObjectId, Mana, i32)>,
    tap: Seq<ObjectId>,
    seat: Seat,
    k: nat,
    n: nat,
)
    requires
        k <= n <= tap.len(),
        tapped_mana(sources, tap, seat, k) is Err,
    ensures
        tapped_mana(sources, tap, seat, n) == tapped_mana(sources, tap, seat, k),
    decreases n,
{
    if k < n {
        lemma_tapped_err(sources, tap, seat, k, (n - 1) as nat);
    }
}

proof fn lemma_spend_err(pool: ManaPool, units: Seq<Mana>, seat: Seat, k: nat, n: nat)
    requires
        k <= n <= units.len(),
        spend_pool(pool, units, seat, k) is Err,
    ensures
        spend_pool(pool, units, seat, n) == spend_pool(pool, units, seat, k),
    decreases n,
{
    if k < n {
        lemma_spend_err(pool, units, seat, k, (n - 1) as nat);
    }
}

fn mana_of_taps(sources: &Vec<(ObjectId, Mana, i32)>, tap: &Vec<ObjectId>, seat: Seat) -> (r:
    Result<Vec<Mana>, String>)
    ensures
        match r {
            Ok(v) => tapped_mana(sources@, tap@, seat, tap@.len()) == Ok::<Seq<Mana>, Seq<char>>(
                v@,
            ),
            Err(e) => tapped_mana(sources@, tap@, seat, tap@.len()) == Err::<Seq<Mana>, Seq<char>>(
                e@,
            ),
        },
{
    let mut made: Vec<Mana> = Vec::new();
    let mut seen: Vec<ObjectId> = Vec::new();
    let mut i: usize = 0;
    while i < tap.len()
        invariant
            i <= tap.len(),
            seen@ == tap@.subrange(0, i as int),
            tapped_mana(sources@, tap@, seat, i as nat) == Ok::<Seq<Mana>, Seq<char>>(made@),
        decreases tap.len() - i,
    {
        let id = tap[i];
        if in_list(&seen, id) {
            proof {
                lemma_tapped_err(sources@, tap@, seat, (i + 1) as nat, tap@.len());
            }
            return Err(cat2(id.text().as_str(), " is listed twice in the payment"));
        }
        match find_source(sources, id) {
            Some((m, n)) => {
                push_units(&mut made, m, yield_of(n));
            },
            None => {
                proof {
                    lemma_tapped_err(sources@, tap@, seat, (i + 1) as nat, tap@.len());
                }
                return Err(
                    cat4(
                        id.text().as_str(),
                        " is not an untapped mana source ",
                        seat.text().as_str(),
                        " controls",
                    ),
                );
            },
        }
        seen.push(id);
        i = i + 1;
        assert(tap@.subrange(0, i as int) =~= tap@.subrange(0, i - 1).push(tap@[i - 1]));
    }
    Ok(made)
}

fn pool_after(pool: ManaPool, units: &Vec<Mana>, seat: Seat) -> (r: Result<ManaPool, String>)
    ensures
        match r {
            Ok(p) => spend_pool(pool, units@, seat, units@.len()) == Ok::<ManaPool, Seq<char>>(p),
            Err(e) => spend_pool(pool, units@, seat, units@.len()) == Err::<ManaPool, Seq<char>>(
                e@,
            ),
        },
{
    let mut left = pool;
    let mut i: usize = 0;
    while i < units.len()
        invariant
            i <= units.len(),
            spend_pool(pool, units@, seat, i as nat) == Ok::<ManaPool, Seq<char>>(left),
        decreases units.len() - i,
    {
        if !left.remove(units[i], 1) {
            proof {
                lemma_spend_err(pool, units@, seat, (i + 1) as nat, units@.len());
            }
            return Err(
                cat4(
                    seat.text().as_str(),
                    " has no ",
                    units[i].text(),
                    " in their mana pool to spend",
                ),
            );
        }
        i = i + 1;
    }
    Ok(left)
}

fn enough_pips(paying: &Vec<Mana>, cost: &ManaCost) -> (b: bool)
    ensures
        b == pips_covered(paying@, *cost, 5),
{
    let mut b = true;
    let mut c: usize = 0;
    while c < 5
        invariant
            c <= 5,
            b == pips_covered(paying@, *cost, c as nat),
        decreases 5 - c,
    {
        let m = Mana::nth(c);
        let pips: u32 = match m {
            Mana::Colored(color) => cost.pips_of(color),
            Mana::Colorless => 0,
        };
        let n: usize = count(paying, m);
        b = b && n as u64 >= pips as u64;
        c = c + 1;
    }
    b
}

/// What a payment leaves over; see [`surplus`].
fn surplus_of(paying: Vec<Mana>, cost: &ManaCost) -> (r: Vec<Mana>)
    ensures
        r@ == surplus(paying@, *cost),
{
    let ghost all = paying@;
    let mut left = paying;
    let mut c: usize = 0;
    while c < 5
        invariant
            c <= 5,
            left@ == without_pips(all, *cost, c as nat),
        decreases 5 - c,
    {
        let m = Mana::nth(c);
        let pips: u32 = match m {
            Mana::Colored(color) => cost.pips_of(color),
            Mana::Colorless => 0,
        };
        let ghost before = left@;
        let mut k: u32 = 0;
        while k < pips
            invariant
                k <= pips,
                left@ == remove_times(before, m, k as nat),
            decreases pips - k,
        {
            match position(&left, m) {
                Some(i) => {
                    let _spent = left.remove(i);
                },
                None => {},
            }
            k = k + 1;
        }
        c = c + 1;
    }
    let mut rest = sorted(&left);
    let ghost whole = rest@;
    let mut g: u32 = 0;
    assert(rest@ =~= whole.subrange(0, whole.len() as int));
    while g < cost.generic && rest.len() > 0
        invariant
            g <= cost.generic,
            g + rest@.len() == whole.len(),
            rest@ == whole.subrange(0, rest@.len() as int),
        decreases rest.len(),
    {
        let _spent = rest.pop();
        g = g + 1;
        assert(rest@ =~= whole.subrange(0, rest@.len() as int));
    }
    assert(rest@ =~= surplus(all, *cost));
    rest
}

fn payment_listed(out: &Vec<ManaPayment>, p: &ManaPayment) -> (b: bool)
    ensures
        b == views(out@).contains(p@),
{
    let mut i: usize = 0;
    while i < out.len()
        invariant
            i <= out.len(),
            forall|j: int| 0 <= j < i ==> views(out@)[j] != p@,
        decreases out.len() - i,
    {
        assert(views(out@)[i as int] == out@[i as int]@);
        if out[i].same(p) {
            return true;
        }
        i = i + 1;
    }
    false
}

impl Game {
    /// What casting `object` costs `seat` right now: the printed cost less any
    /// `CostReduction` statics they control that apply to it (generic only).
    pub fn cast_cost(&self, seat: Seat, object: ObjectId) -> (r: ManaCost)
        ensures
            r == self.model().cast_cost(seat, object),
    {
        let ghost g = self.model();
        let mut cost: ManaCost = match self.find_def(object) {
            Some(d) => d.cost,
            None => ManaCost::generic(0),
        };
        let ctx = Ctx::simple(seat, Some(object));
        let ss = self.active_statics();
        let mut reduction: i32 = 0;
        let mut i: usize = 0;
        while i < ss.len()
            invariant
                i <= ss.len(),
                g == self.model(),
                ctx@ == CtxModel::simple(seat, Some(object)),
                reduction == g.reduction(seat, object, ss@, i as nat),
            decreases ss.len() - i,
        {
            let mine = match self.find_obj(ss[i].0) {
                Some(o) => o.controller == seat,
                None => false,
            };
            if mine {
                if let Static::CostReduction { filter, amount } = &ss[i].1 {
                    if self.spell_matches(object, filter, &ctx) {
                        reduction = add_i32(reduction, self.eval_amount(amount, &ctx));
                    }
                }
            }
            i = i + 1;
        }
        let left: i64 = cost.generic as i64 - reduction as i64;
        cost.generic = if left < 0 {
            0
        } else if left > 0xffff_ffff {
            0xffff_ffff
        } else {
            left as u32
        };
        cost
    }

    fn mana_sum(&self, effects: &Vec<Effect>, ctx: &Ctx) -> (n: i32)
        ensures
            n == self.model().mana_sum(effects@, ctx@, effects@.len()),
    {
        let mut n: i32 = 0;
        let mut i: usize = 0;
        while i < effects.len()
            invariant
                i <= effects.len(),
                n == self.model().mana_sum(effects@, ctx@, i as nat),
            decreases effects.len() - i,
        {
            if let Effect::AddMana { amount, .. } = &effects[i] {
                n = add_i32(n, self.eval_amount(amount, ctx));
            }
            i = i + 1;
        }
        n
    }

    fn source_of(&self, seat: Seat, id: ObjectId) -> (r: Option<(Mana, i32)>)
        ensures
            r == self.model().source(seat, id),
    {
        let (o, def) = match self.find_obj(id) {
            Some(o) => match self.find_card(o.card) {
                Some(def) => (o, def),
                None => {
                    return None;
                },
            },
            None => {
                return None;
            },
        };
        if o.tapped || (def.is_creature() && o.summoning_sick && !self.has_keyword(
            id,
            Keyword::Haste,
        )) {
            return None;
        }
        let list = def.mana_abilities();
        if list.len() == 0 {
            return None;
        }
        let (color, amount, index) = list[0];
        let mana = match color {
            Some(c) => Mana::Colored(c),
            None => Mana::Colorless,
        };
        let n: i32 = match amount {
            Some(n) => n,
            None => if index < def.ir.activated.len() {
                let ctx = Ctx::simple(seat, Some(id));
                self.mana_sum(&*def.ir.activated[index].effects, &ctx)
            } else {
                0
            },
        };
        if n > 0 {
            Some((mana, n))
        } else {
            None
        }
    }

    /// Untapped permanents `seat` controls with a mana ability, and the mana each makes.
    pub fn mana_sources(&self, seat: Seat) -> (r: Vec<(ObjectId, Mana)>)
        ensures
            r@.len() == self.model().sources(seat).len(),
            forall|i: int|
                0 <= i < r@.len() ==> #[trigger] r@[i] == (
                    self.model().sources(seat)[i].0,
                    self.model().sources(seat)[i].1,
                ),
    {
        let full = self.mana_sources_with_amounts(seat);
        let mut out: Vec<(ObjectId, Mana)> = Vec::new();
        let mut i: usize = 0;
        while i < full.len()
            invariant
                i <= full.len(),
                out@.len() == i,
                forall|j: int| 0 <= j < i ==> #[trigger] out@[j] == (full@[j].0, full@[j].1),
            decreases full.len() - i,
        {
            out.push((full[i].0, full[i].1));
            i = i + 1;
        }
        out
    }

    /// Untapped permanents `seat` controls with a mana ability: the mana each
    /// makes and how much (board-dependent amounts evaluated now).
    pub fn mana_sources_with_amounts(&self, seat: Seat) -> (r: Vec<(ObjectId, Mana, i32)>)
        ensures
            r@ == self.model().sources(seat),
    {
        let ids = self.battlefield_of(seat);
        let mut out: Vec<(ObjectId, Mana, i32)> = Vec::new();
        let mut i: usize = 0;
        while i < ids.len()
            invariant
                i <= ids.len(),
                out@ == self.model().sources_n(seat, ids@, i as nat),
            decreases ids.len() - i,
        {
            if let Some((m, n)) = self.source_of(seat, ids[i]) {
                out.push((ids[i], m, n));
            }
            i = i + 1;
        }
        sorted(&out)
    }

    fn pool_of(&self, seat: Seat) -> (p: ManaPool)
        ensures
            p == self.model().pool(seat),
    {
        match self.find_player(seat) {
            Some(p) => p.mana_pool,
            None => ManaPool::empty(),
        }
    }

    fn sources_of_kind(&self, sources: &Vec<(ObjectId, Mana, i32)>, m: Mana) -> (r: Vec<
        (ObjectId, i32, bool),
    >)
        ensures
            r@ == self.model().of_kind(sources@, m, sources@.len()),
    {
        let mut out: Vec<(ObjectId, i32, bool)> = Vec::new();
        let mut i: usize = 0;
        while i < sources.len()
            invariant
                i <= sources.len(),
                out@ == self.model().of_kind(sources@, m, i as nat),
            decreases sources.len() - i,
        {
            let (id, k, n) = sources[i];
            if k == m {
                out.push((id, n, self.is_creature(id)));
            }
            i = i + 1;
        }
        out
    }

    proof fn lemma_realise_none(
        g: GameModel,
        sources: Seq<(ObjectId, Mana, i32)>,
        tapped: ManaPool,
        pooled: ManaPool,
        strategy: Pick,
        k: nat,
        n: nat,
    )
        requires
            k <= n,
            g.realise(sources, tapped, pooled, strategy, k) is None,
        ensures
            g.realise(sources, tapped, pooled, strategy, n) is None,
        decreases n,
    {
        if k < n {
            Game::lemma_realise_none(g, sources, tapped, pooled, strategy, k, (n - 1) as nat);
        }
    }

    fn payment_for(
        &self,
        sources: &Vec<(ObjectId, Mana, i32)>,
        way: (ManaPool, ManaPool),
        strategy: Pick,
    ) -> (r: Option<ManaPayment>)
        ensures
            match r {
                Some(p) => self.model().payment_for(sources@, way, strategy) == Some(p@),
                None => self.model().payment_for(sources@, way, strategy) is None,
            },
    {
        let ghost g = self.model();
        let (tapped, pooled) = way;
        let mut tap: Vec<ObjectId> = Vec::new();
        let mut from_pool: Vec<Mana> = Vec::new();
        let mut k: usize = 0;
        while k < 6
            invariant
                k <= 6,
                g == self.model(),
                g.realise(sources@, tapped, pooled, strategy, k as nat) == Some(
                    (tap@, from_pool@),
                ),
                way == (tapped, pooled),
            decreases 6 - k,
        {
            let m = Mana::nth(k);
            push_units(&mut from_pool, m, pooled.get(m) as u32);
            let need: i64 = tapped.get(m) as i64;
            if need != 0 {
                let kind = self.sources_of_kind(sources, m);
                match pick_sources(&kind, need, strategy) {
                    Some(ids) => {
                        extend(&mut tap, &ids);
                    },
                    None => {
                        proof {
                            Game::lemma_realise_none(
                                g,
                                sources@,
                                tapped,
                                pooled,
                                strategy,
                                (k + 1) as nat,
                                6,
                            );
                        }
                        return None;
                    },
                }
            }
            k = k + 1;
        }
        Some(
            ManaPayment {
                tap: deduped(&sorted(&tap)),
                from_pool: sorted(&from_pool),
                sacrifice: Vec::new(),
                discard: Vec::new(),
                x: 0,
            },
        )
    }

    fn add_payment(out: &mut Vec<ManaPayment>, p: Option<ManaPayment>)
        ensures
            views(final(out)@) == GameModel::with_payment(
                views(old(out)@),
                match p {
                    Some(p) => Some(p@),
                    None => None,
                },
            ),
    {
        if let Some(p) = p {
            if !payment_listed(out, &p) {
                out.push(p);
            }
        }
    }

    /// Every distinct way `seat` could pay `cost` right now: one colour
    /// combination at a time, realised as concrete permanents in up to two
    /// ways — lands first (fewest creatures tapped), and producers first
    /// (biggest mana creatures, leaving lands up). Any other set of untapped
    /// sources that covers the cost is also accepted by `apply`.
    pub fn enumerate_payments(&self, seat: Seat, cost: &ManaCost) -> (r: Vec<ManaPayment>)
        ensures
            views(r@) == self.model().payments(seat, *cost),
    {
        let mut out: Vec<ManaPayment> = Vec::new();
        if cost.is_free() {
            out.push(ManaPayment::default());
            assert(views(out@) =~= seq![PaymentModel::none()]);
            return out;
        }
        let sources = self.mana_sources_with_amounts(seat);
        let mut counts = ManaPool::empty();
        let mut i: usize = 0;
        while i < sources.len()
            invariant
                i <= sources.len(),
                counts == capacity(sources@, i as nat),
            decreases sources.len() - i,
        {
            counts.add(sources[i].1, crate::types::clamp_u8(sources[i].2));
            i = i + 1;
        }
        let pool = self.pool_of(seat);
        let mut ways: Vec<(ManaPool, ManaPool)> = Vec::new();
        let none = ManaPool::empty();
        search_ways(0, &counts, &pool, cost, cost.generic as i64, none, none, &mut ways);
        let ghost g = self.model();
        assert(ways@ =~= search(
            0,
            capacity(sources@, sources@.len()),
            g.pool(seat),
            *cost,
            cost.generic as int,
            ManaPool::none(),
            ManaPool::none(),
        ));
        let mut k: usize = 0;
        while k < ways.len()
            invariant
                k <= ways.len(),
                g == self.model(),
                views(out@) == g.payments_n(sources@, ways@, k as nat),
            decreases ways.len() - k,
        {
            let lands = self.payment_for(&sources, ways[k], Pick::LandsFirst);
            Game::add_payment(&mut out, lands);
            let producers = self.payment_for(&sources, ways[k], Pick::ProducersFirst);
            Game::add_payment(&mut out, producers);
            k = k + 1;
        }
        out
    }

    fn mana_made(&self, seat: Seat, payment: &ManaPayment, cost: &ManaCost) -> (r: Result<
        Vec<Mana>,
        RulesError,
    >)
        ensures
            match r {
                Ok(v) => self.model().covering(seat, payment@, *cost) == Ok::<
                    Seq<Mana>,
                    ErrorModel,
                >(v@),
                Err(e) => self.model().covering(seat, payment@, *cost) == Err::<
                    Seq<Mana>,
                    ErrorModel,
                >(e@),
            },
    {
        let sources = self.mana_sources_with_amounts(seat);
        let mut paying = match mana_of_taps(&sources, &payment.tap, seat) {
            Ok(v) => v,
            Err(e) => {
                return Err(RulesError::illegal(e.as_str()));
            },
        };
        match pool_after(self.pool_of(seat), &payment.from_pool, seat) {
            Ok(_) => {},
            Err(e) => {
                return Err(RulesError::illegal(e.as_str()));
            },
        }
        extend(&mut paying, &payment.from_pool);
        if enough_pips(&paying, cost) && paying.len() as u64 >= cost.mana_value() {
            Ok(paying)
        } else {
            let text = cat2("payment does not cover ", cost.text().as_str());
            Err(RulesError::illegal(text.as_str()))
        }
    }

    /// Whether a payment covers `cost` with sources `seat` controls, without changing anything.
    pub fn payment_covers(&self, seat: Seat, payment: &ManaPayment, cost: &ManaCost) -> (r: Result<
        (),
        RulesError,
    >)
        ensures
            match r {
                Ok(_) => self.model().covering(seat, payment@, *cost) is Ok,
                Err(e) => self.model().covering(seat, payment@, *cost) == Err::<
                    Seq<Mana>,
                    ErrorModel,
                >(e@),
            },
    {
        match self.mana_made(seat, payment, cost) {
            Ok(_) => Ok(()),
            Err(e) => Err(e),
        }
    }

    fn set_pool(&mut self, seat: Seat, pool: ManaPool)
        ensures
            final(self).model() == old(self).model().with_pool(seat, pool),
    {
        match self.player_mut(seat) {
            Some(p) => {
                p.mana_pool = pool;
            },
            None => {},
        }
    }

    fn tap_one(&mut self, id: ObjectId)
        ensures
            final(self).model() == old(self).model().with_obj(
                id,
                ObjectModel { tapped: true, ..old(self).model().obj(id) },
            ).emit(EventModel::Tapped { object: id }),
    {
        match self.obj_mut(id) {
            Some(o) => {
                o.tapped = true;
            },
            None => {},
        }
        self.emit(EventBase::Tapped { object: id });
    }

    /// Validate and execute a payment: tap the named permanents, spend the named
    /// pool mana, pay `cost`, and return any surplus to the pool.
    pub(crate) fn pay_mana(&mut self, seat: Seat, payment: &ManaPayment, cost: &ManaCost) -> (r:
        Result<(), RulesError>)
        ensures
            match r {
                Ok(_) => old(self).model().covering(seat, payment@, *cost) is Ok && final(self).model() == old(self).model().pay(
                    seat,
                    payment@,
                    *cost,
                    old(self).model().covering(seat, payment@, *cost)->Ok_0,
                ),
                Err(e) => final(self).model() == old(self).model() && old(self).model().covering(
                    seat,
                    payment@,
                    *cost,
                ) == Err::<Seq<Mana>, ErrorModel>(e@),
            },
    {
        let paying = match self.mana_made(seat, payment, cost) {
            Ok(v) => v,
            Err(e) => {
                return Err(e);
            },
        };
        let pool = self.pool_of(seat);
        let mut left = match pool_after(pool, &payment.from_pool, seat) {
            Ok(p) => p,
            Err(_) => pool,
        };
        let ghost spent = left;
        let rest = surplus_of(paying, cost);
        self.set_pool(seat, left);
        let ghost g = self.model();
        let mut i: usize = 0;
        while i < payment.tap.len()
            invariant
                i <= payment.tap.len(),
                self.model() == g.tap_all(payment.tap@, i as nat),
            decreases payment.tap.len() - i,
        {
            self.tap_one(payment.tap[i]);
            i = i + 1;
        }
        let mut k: usize = 0;
        while k < rest.len()
            invariant
                k <= rest.len(),
                left == add_units(spent, rest@, k as nat),
            decreases rest.len() - k,
        {
            left.add(rest[k], 1);
            k = k + 1;
        }
        self.set_pool(seat, left);
        Ok(())
    }
}

fn total_mana(costs: &Vec<Cost>) -> (r: ManaCost)
    ensures
        r == mana_total(costs@, costs@.len()),
{
    let mut total = ManaCost::generic(0);
    let mut i: usize = 0;
    while i < costs.len()
        invariant
            i <= costs.len(),
            total == mana_total(costs@, i as nat),
        decreases costs.len() - i,
    {
        if let Cost::Mana(m) = &costs[i] {
            total = total.add_cost(m);
        }
        i = i + 1;
    }
    total
}

impl Action {
    /// The mana this action must pay, if it is a cast or activation.
    pub fn mana_cost_in(&self, game: &Game) -> (r: Option<ManaCost>)
        ensures
            r == game.model().action_cost(self@),
    {
        match self {
            Action::CastSpell { object, .. } => match game.find_obj(*object) {
                Some(o) => Some(game.cast_cost(o.controller, *object)),
                None => None,
            },
            Action::ActivateAbility { object, ability, .. } => match game.find_def(*object) {
                Some(def) => if *ability == EQUIP_ABILITY {
                    def.ir.equip
                } else if (*ability as usize) < def.ir.activated.len() {
                    Some(total_mana(&def.ir.activated[*ability as usize].cost))
                } else {
                    None
                },
                None => None,
            },
            _ => None,
        }
    }
}

} // verus!
