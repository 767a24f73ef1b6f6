//! `legal_actions`, the load-bearing function.
use crate::action::{Action, ActionModel, ManaPayment, PaymentModel, Target, EQUIP_ABILITY};
use crate::casting::option_views;
use crate::combos::{choices, choices_of, combinations, combos};
use crate::held::lemma_plays_on;
use crate::ir::{Ability, Cost, Filter};
use crate::seqs::{copied, extend, group_views, in_list, sort, sorted, views};
use crate::state::{Ctx, CtxModel, Game, GameModel, PendingChoice, PendingModel};
use crate::suggest::ENUMERATION_CAP;
use crate::types::{Keyword, ManaCost, ObjectId, Seat, Zone};
use vstd::prelude::*;

verus! {

broadcast use group_views;

/// The activations of abilities listed before the listing of them stops: it
/// stops with the first one past this many.
pub const ABILITY_CAP: usize = 1024;

// ----- targets -----

/// Something is in both.
pub open spec fn overlap(a: Seq<Target>, b: Seq<Target>) -> bool {
    exists|i: int| 0 <= i < b.len() && a.contains(#[trigger] b[i])
}

/// `out` and `combo` extended by each of the sets from index `i` on that shares
/// nothing with it, as far as the cap leaves room.
pub open spec fn grow_one(
    out: Seq<Seq<Target>>,
    combo: Seq<Target>,
    sets: Seq<Seq<Target>>,
    i: nat,
) -> Seq<Seq<Target>>
    decreases sets.len() - i,
{
    if i >= sets.len() || out.len() >= ENUMERATION_CAP {
        out
    } else if overlap(combo, sets[i as int]) {
        grow_one(out, combo, sets, i + 1)
    } else {
        grow_one(out.push(combo + sets[i as int]), combo, sets, i + 1)
    }
}

proof fn lemma_grow_one_capped(
    out: Seq<Seq<Target>>,
    combo: Seq<Target>,
    sets: Seq<Seq<Target>>,
    i: nat,
)
    requires
        out.len() <= ENUMERATION_CAP,
    ensures
        grow_one(out, combo, sets, i).len() <= ENUMERATION_CAP,
    decreases sets.len() - i,
{
    if i < sets.len() && out.len() < ENUMERATION_CAP {
        if overlap(combo, sets[i as int]) {
            lemma_grow_one_capped(out, combo, sets, i + 1);
        } else {
            lemma_grow_one_capped(out.push(combo + sets[i as int]), combo, sets, i + 1);
        }
    }
}

/// The first `n` combinations, each extended in every way.
pub open spec fn grow(all: Seq<Seq<Target>>, sets: Seq<Seq<Target>>, n: nat) -> Seq<Seq<Target>>
    decreases n,
{
    if n == 0 || n > all.len() {
        Seq::empty()
    } else {
        grow_one(grow(all, sets, (n - 1) as nat), all[n - 1], sets, 0)
    }
}

proof fn lemma_grow_capped(all: Seq<Seq<Target>>, sets: Seq<Seq<Target>>, n: nat)
    ensures
        grow(all, sets, n).len() <= ENUMERATION_CAP,
    decreases n,
{
    if n > 0 && n <= all.len() {
        lemma_grow_capped(all, sets, (n - 1) as nat);
        lemma_grow_one_capped(grow(all, sets, (n - 1) as nat), all[n - 1], sets, 0);
    }
}

/// The fewest and most targets a spec takes of `n` candidates.
pub open spec fn most_targets(spec: Filter, n: nat) -> nat {
    match spec.most() {
        Some(k) => if k < n {
            k
        } else {
            n
        },
        None => n,
    }
}

impl GameModel {
    /// Every way to pick targets for one spec.
    pub open spec fn spec_choices(self, spec: Filter, ctx: CtxModel) -> Seq<Seq<Target>> {
        let ts = self.targets_for(spec.inner(), ctx);
        choices(ts, spec.least(), most_targets(spec, ts.len()))
    }

    /// Every combination of targets for the first `n` specs; nothing is
    /// picked for two of them.
    pub open spec fn target_combos_n(self, specs: Seq<Filter>, ctx: CtxModel, n: nat) -> Option<
        Seq<Seq<Target>>,
    >
        decreases n,
    {
        if n == 0 || n > specs.len() {
            Some(seq![Seq::empty()])
        } else {
            match self.target_combos_n(specs, ctx, (n - 1) as nat) {
                None => None,
                Some(all) => {
                    let next = grow(all, self.spec_choices(specs[n - 1], ctx), all.len());
                    if next.len() == 0 {
                        None
                    } else {
                        Some(next)
                    }
                },
            }
        }
    }

    /// Every legal combination of targets for the specs, or `None` if some
    /// spec cannot be filled. Capped.
    pub open spec fn target_combos(self, specs: Seq<Filter>, ctx: CtxModel) -> Option<
        Seq<Seq<Target>>,
    > {
        self.target_combos_n(specs, ctx, specs.len())
    }

    /// No more combinations of targets are listed than the cap allows.
    pub proof fn law_target_combos_are_capped(self, specs: Seq<Filter>, ctx: CtxModel)
        ensures
            self.target_combos(specs, ctx) matches Some(all) ==> all.len() <= ENUMERATION_CAP,
    {
        let n = specs.len();
        if n > 0 {
            if let Some(all) = self.target_combos_n(specs, ctx, (n - 1) as nat) {
                lemma_grow_capped(all, self.spec_choices(specs[n - 1], ctx), all.len());
            }
        }
    }

    proof fn lemma_combos_none(self, specs: Seq<Filter>, ctx: CtxModel, k: nat, n: nat)
        requires
            k <= n <= specs.len(),
            self.target_combos_n(specs, ctx, k) is None,
        ensures
            self.target_combos_n(specs, ctx, n) is None,
        decreases n,
    {
        if k < n {
            self.lemma_combos_none(specs, ctx, k, (n - 1) as nat);
        }
    }
}

// ----- casting -----

/// A cast for each of the first `n` combinations of targets and each payment.
pub open spec fn cast_list(
    object: ObjectId,
    all: Seq<Seq<Target>>,
    payments: Seq<PaymentModel>,
    n: nat,
) -> Seq<ActionModel>
    decreases n,
{
    if n == 0 || n > all.len() {
        Seq::empty()
    } else {
        cast_list(object, all, payments, (n - 1) as nat) + Seq::new(
            payments.len(),
            |i: int| ActionModel::CastSpell {
                object,
                targets: all[n - 1],
                payment: payments[i],
            },
        )
    }
}

/// An activation for each of the first `n` combinations of targets and each payment.
pub open spec fn activation_list(
    object: ObjectId,
    ability: u8,
    all: Seq<Seq<Target>>,
    payments: Seq<PaymentModel>,
    n: nat,
) -> Seq<ActionModel>
    decreases n,
{
    if n == 0 || n > all.len() {
        Seq::empty()
    } else {
        activation_list(object, ability, all, payments, (n - 1) as nat) + Seq::new(
            payments.len(),
            |i: int| ActionModel::ActivateAbility {
                object,
                ability,
                targets: all[n - 1],
                payment: payments[i],
            },
        )
    }
}

impl GameModel {
    /// Sorceries, creatures and lands: on an empty stack, in one's own main phase.
    pub open spec fn sorcery_timing(self, seat: Seat) -> bool {
        self.stack.len() == 0 && self.phase.main_phase() && self.active_player == seat
    }

    /// The lands among the first `n` cards.
    pub open spec fn land_plays(self, ids: Seq<ObjectId>, n: nat) -> Seq<ActionModel>
        decreases n,
    {
        if n == 0 || n > ids.len() {
            Seq::empty()
        } else {
            let rest = self.land_plays(ids, (n - 1) as nat);
            if self.has_def(ids[n - 1]) && self.def(ids[n - 1]).land() {
                rest.push(ActionModel::PlayLand { object: ids[n - 1] })
            } else {
                rest
            }
        }
    }

    /// The casts of one card.
    pub open spec fn casts_of(self, seat: Seat, id: ObjectId) -> Seq<ActionModel> {
        let def = self.def(id);
        if !self.has_def(id) || def.land() || !(self.sorcery_timing(seat) || def.instant_speed()) {
            Seq::empty()
        } else {
            let payments = self.payments(seat, self.cast_cost(seat, id).announced(0));
            if def.two_step() {
                if self.two_step_castable(seat, id) {
                    cast_list(id, seq![Seq::empty()], payments, 1)
                } else {
                    Seq::empty()
                }
            } else {
                match self.target_combos(def.spell_specs(), CtxModel::simple(seat, Some(id))) {
                    Some(all) => cast_list(id, all, payments, all.len()),
                    None => Seq::empty(),
                }
            }
        }
    }

    pub open spec fn casts(self, seat: Seat, ids: Seq<ObjectId>, n: nat) -> Seq<ActionModel>
        decreases n,
    {
        if n == 0 || n > ids.len() {
            Seq::empty()
        } else {
            self.casts(seat, ids, (n - 1) as nat) + self.casts_of(seat, ids[n - 1])
        }
    }
}

// ----- abilities -----

/// Paying also uses up the source itself.
pub open spec fn uses_source(costs: Seq<Cost>) -> bool {
    exists|i: int|
        0 <= i < costs.len() && ((#[trigger] costs[i]) is Tap || costs[i] is SacrificeThis)
}

/// The first `n` payments but those that tap `id`.
pub open spec fn not_tapping(ps: Seq<PaymentModel>, id: ObjectId, n: nat) -> Seq<PaymentModel>
    decreases n,
{
    if n == 0 || n > ps.len() {
        Seq::empty()
    } else {
        let rest = not_tapping(ps, id, (n - 1) as nat);
        if ps[n - 1].tap.contains(id) {
            rest
        } else {
            rest.push(ps[n - 1])
        }
    }
}

/// Each of the first `n` payments with each mana payment added.
pub open spec fn with_mana(bases: Seq<PaymentModel>, ps: Seq<PaymentModel>, n: nat) -> Seq<
    PaymentModel,
>
    decreases n,
{
    if n == 0 || n > bases.len() {
        Seq::empty()
    } else {
        let b = bases[n - 1];
        with_mana(bases, ps, (n - 1) as nat) + Seq::new(
            ps.len(),
            |i: int| PaymentModel {
                tap: b.tap + ps[i].tap,
                from_pool: b.from_pool + ps[i].from_pool,
                ..b
            },
        )
    }
}

/// Each of the first `n` payments with each sacrifice.
pub open spec fn with_sacrifice(bases: Seq<PaymentModel>, ids: Seq<ObjectId>, n: nat) -> Seq<
    PaymentModel,
>
    decreases n,
{
    if n == 0 || n > bases.len() {
        Seq::empty()
    } else {
        with_sacrifice(bases, ids, (n - 1) as nat) + Seq::new(
            ids.len(),
            |i: int| PaymentModel { sacrifice: seq![ids[i]], ..bases[n - 1] },
        )
    }
}

/// Each of the first `n` payments with each discard.
pub open spec fn with_discard(bases: Seq<PaymentModel>, sets: Seq<Seq<ObjectId>>, n: nat) -> Seq<
    PaymentModel,
>
    decreases n,
{
    if n == 0 || n > bases.len() {
        Seq::empty()
    } else {
        with_discard(bases, sets, (n - 1) as nat) + Seq::new(
            sets.len(),
            |i: int| PaymentModel { discard: sets[i], ..bases[n - 1] },
        )
    }
}

/// `list` and the first `n` of `more`, stopping once there are too many;
/// whether it stopped.
pub open spec fn list_capped(list: (Seq<ActionModel>, bool), more: Seq<ActionModel>, n: nat) -> (
    Seq<ActionModel>,
    bool,
)
    decreases n,
{
    if n == 0 || n > more.len() {
        list
    } else {
        let (acts, stopped) = list_capped(list, more, (n - 1) as nat);
        if stopped {
            (acts, stopped)
        } else {
            (acts.push(more[n - 1]), acts.len() + 1 > ABILITY_CAP)
        }
    }
}

/// Costs that do not get in each other's way when paid in order: mana and the
/// sacrifice of another permanent come first, the source is tapped before it
/// is sacrificed and only once, and life and cards are paid once.
pub open spec fn paid_in_order(costs: Seq<Cost>) -> bool {
    forall|i: int, j: int|
        #![trigger costs[i], costs[j]]
        0 <= i < j < costs.len() ==> follows(costs[i], costs[j])
}

/// A cost that another one before it leaves payable.
pub open spec fn follows(before: Cost, cost: Cost) -> bool {
    &&& !(cost is Mana) && !(cost is Sacrifice)
    &&& cost is Tap ==> before is Mana || before is PayLife || before is Discard
    &&& cost is PayLife ==> !(before is PayLife)
    &&& cost is Discard ==> !(before is Discard)
}

impl GameModel {
    /// An ability's costs can be paid with this payment, one after the other.
    /// Those that do not get in each other's way can be with any payment that
    /// is made up for them.
    pub open spec fn pays_for(
        self,
        seat: Seat,
        id: ObjectId,
        costs: Seq<Cost>,
        p: PaymentModel,
    ) -> bool {
        paid_in_order(costs) || self.pay_costs(seat, id, p, costs, costs.len()) is Ok
    }

    /// Those of the first `n` payments that the costs can be paid with.
    pub open spec fn working(
        self,
        seat: Seat,
        id: ObjectId,
        costs: Seq<Cost>,
        ps: Seq<PaymentModel>,
        n: nat,
    ) -> Seq<PaymentModel>
        decreases n,
    {
        if n == 0 || n > ps.len() {
            Seq::empty()
        } else {
            let rest = self.working(seat, id, costs, ps, (n - 1) as nat);
            if self.pays_for(seat, id, costs, ps[n - 1]) {
                rest.push(ps[n - 1])
            } else {
                rest
            }
        }
    }

    /// The payments so far, each with every way to pay one more cost; `None`
    /// if the cost cannot be paid.
    pub open spec fn pay_also(
        self,
        seat: Seat,
        id: ObjectId,
        costs: Seq<Cost>,
        bases: Seq<PaymentModel>,
        cost: Cost,
    ) -> Option<Seq<PaymentModel>> {
        match cost {
            Cost::Mana(m) => {
                let all = self.payments(seat, m.announced(0));
                let ps = if uses_source(costs) {
                    not_tapping(all, id, all.len())
                } else {
                    all
                };
                if ps.len() == 0 {
                    None
                } else {
                    Some(with_mana(bases, ps, bases.len()))
                }
            },
            Cost::Tap => {
                let o = self.obj(id);
                if o.tapped || (self.creature(id) && o.summoning_sick && !self.has_keyword(
                    id,
                    Keyword::Haste,
                )) {
                    None
                } else {
                    Some(bases)
                }
            },
            Cost::SacrificeThis => Some(bases),
            Cost::Sacrifice(filter) => {
                let ids = self.matching(
                    self.battlefield(seat),
                    filter,
                    CtxModel::simple(seat, Some(id)),
                );
                if ids.len() == 0 {
                    None
                } else {
                    Some(with_sacrifice(bases, ids, bases.len()))
                }
            },
            Cost::PayLife(n) => if self.life(seat) < n {
                None
            } else {
                Some(bases)
            },
            Cost::Discard(n) => {
                let hand = sort(self.hand(seat));
                if n > hand.len() {
                    None
                } else if n < 0 {
                    Some(Seq::empty())
                } else {
                    Some(with_discard(bases, combos(hand, 0, n as nat), bases.len()))
                }
            },
        }
    }

    /// Every way to pay the first `n` costs of an ability of `id`.
    pub open spec fn ability_payments(
        self,
        seat: Seat,
        id: ObjectId,
        costs: Seq<Cost>,
        n: nat,
    ) -> Option<Seq<PaymentModel>>
        decreases n,
    {
        if n == 0 || n > costs.len() {
            Some(seq![PaymentModel::none()])
        } else {
            match self.ability_payments(seat, id, costs, (n - 1) as nat) {
                None => None,
                Some(bases) => self.pay_also(seat, id, costs, bases, costs[n - 1]),
            }
        }
    }

    proof fn lemma_all_work(
        self,
        seat: Seat,
        id: ObjectId,
        costs: Seq<Cost>,
        ps: Seq<PaymentModel>,
        n: nat,
    )
        requires
            n <= ps.len(),
            paid_in_order(costs),
        ensures
            self.working(seat, id, costs, ps, n) == ps.subrange(0, n as int),
        decreases n,
    {
        if n > 0 {
            self.lemma_all_work(seat, id, costs, ps, (n - 1) as nat);
            assert(ps.subrange(0, n as int) =~= ps.subrange(0, n - 1).push(ps[n - 1]));
        } else {
            assert(ps.subrange(0, 0) =~= Seq::empty());
        }
    }

    proof fn lemma_payments_none(self, seat: Seat, id: ObjectId, costs: Seq<Cost>, k: nat, n: nat)
        requires
            k <= n <= costs.len(),
            self.ability_payments(seat, id, costs, k) is None,
        ensures
            self.ability_payments(seat, id, costs, n) is None,
        decreases n,
    {
        if k < n {
            self.lemma_payments_none(seat, id, costs, k, (n - 1) as nat);
        }
    }

    /// The activations of one ability, each with a payment it can be paid
    /// with. An ability is named by its place; the last place there is means
    /// equipping.
    pub open spec fn activations(
        self,
        seat: Seat,
        id: ObjectId,
        index: nat,
        ability: Ability,
    ) -> Seq<ActionModel> {
        if index >= EQUIP_ABILITY || ability.makes_mana() || (ability.sorcery_speed
            && !self.sorcery_timing(seat)) || ability.from_graveyard != self.in_zone(
            id,
            Zone::Graveyard,
        ) {
            Seq::empty()
        } else {
            let costs = ability.cost@;
            match self.ability_payments(seat, id, costs, costs.len()) {
                None => Seq::empty(),
                Some(ps) => match self.target_combos(
                    ability.targets@,
                    CtxModel::simple(seat, Some(id)),
                ) {
                    None => Seq::empty(),
                    Some(all) => activation_list(
                        id,
                        index as u8,
                        all,
                        self.working(seat, id, costs, ps, ps.len()),
                        all.len(),
                    ),
                },
            }
        }
    }

    /// `list` and the activations of the first `n` abilities of `id`.
    pub open spec fn with_abilities(
        self,
        list: (Seq<ActionModel>, bool),
        seat: Seat,
        id: ObjectId,
        n: nat,
    ) -> (Seq<ActionModel>, bool)
        decreases n,
    {
        let abilities = self.def(id).activated;
        if n == 0 || n > abilities.len() {
            list
        } else {
            let more = self.activations(seat, id, (n - 1) as nat, abilities[n - 1]);
            list_capped(self.with_abilities(list, seat, id, (n - 1) as nat), more, more.len())
        }
    }

    /// The creatures among the first `n` that an equipment is not attached to.
    pub open spec fn bearers(self, id: ObjectId, ids: Seq<ObjectId>, n: nat) -> Seq<Seq<Target>>
        decreases n,
    {
        if n == 0 || n > ids.len() {
            Seq::empty()
        } else {
            let rest = self.bearers(id, ids, (n - 1) as nat);
            if self.creature(ids[n - 1]) && self.obj(id).attached_to != Some(ids[n - 1]) {
                rest.push(seq![Target::Object(ids[n - 1])])
            } else {
                rest
            }
        }
    }

    /// Equipping an equipment on the battlefield.
    pub open spec fn equips(self, seat: Seat, id: ObjectId) -> Seq<ActionModel> {
        if self.sorcery_timing(seat) && self.in_zone(id, Zone::Battlefield) && self.def(
            id,
        ).equip is Some {
            let payments = self.payments(seat, self.def(id).equip->0.announced(0));
            let ids = self.battlefield(seat);
            let all = self.bearers(id, ids, ids.len());
            activation_list(id, EQUIP_ABILITY, all, payments, all.len())
        } else {
            Seq::empty()
        }
    }

    /// Abilities and equips of the first `n` objects.
    pub open spec fn ability_list(self, seat: Seat, ids: Seq<ObjectId>, n: nat) -> (
        Seq<ActionModel>,
        bool,
    )
        decreases n,
    {
        if n == 0 || n > ids.len() {
            (Seq::empty(), false)
        } else {
            let before = self.ability_list(seat, ids, (n - 1) as nat);
            let id = ids[n - 1];
            if !self.has_def(id) {
                before
            } else {
                let (acts, stopped) = self.with_abilities(
                    before,
                    seat,
                    id,
                    self.def(id).activated.len(),
                );
                if stopped {
                    (acts, stopped)
                } else {
                    (acts + self.equips(seat, id), stopped)
                }
            }
        }
    }

    /// Activated abilities (and equip) of permanents `seat` controls, and of
    /// cards in their graveyard that work there.
    pub open spec fn ability_actions(self, seat: Seat) -> Seq<ActionModel> {
        let ids = sort(self.battlefield(seat)) + sort(self.list(seat, Zone::Graveyard));
        self.ability_list(seat, ids, ids.len()).0
    }

    /// What a player with priority may do.
    pub open spec fn priority_actions(self, seat: Seat) -> Seq<ActionModel> {
        let hand = sort(self.hand(seat));
        let lands = if self.sorcery_timing(seat) && self.has_seat(seat) && self.player(
            seat,
        ).lands_played_this_turn < 1 {
            self.land_plays(hand, hand.len())
        } else {
            Seq::empty()
        };
        seq![ActionModel::PassPriority] + lands + self.casts(seat, hand, hand.len())
            + self.ability_actions(seat)
    }
}

// ----- answering -----

pub open spec fn bottom_list(sets: Seq<Seq<ObjectId>>) -> Seq<ActionModel> {
    Seq::new(sets.len(), |i: int| ActionModel::BottomCards { objects: sets[i] })
}

pub open spec fn discard_list(sets: Seq<Seq<ObjectId>>) -> Seq<ActionModel> {
    Seq::new(sets.len(), |i: int| ActionModel::Discard { objects: sets[i] })
}

pub open spec fn pick_list(sets: Seq<Seq<Target>>) -> Seq<ActionModel> {
    Seq::new(sets.len(), |i: int| ActionModel::ChooseTargets { targets: sets[i] })
}

pub open spec fn mode_list(options: Seq<(u8, Seq<char>)>) -> Seq<ActionModel> {
    Seq::new(options.len(), |i: int| ActionModel::ChooseMode { mode: options[i].0 })
}

impl GameModel {
    /// The next decision of a cast in progress.
    pub open spec fn casting_actions(
        self,
        seat: Seat,
        object: ObjectId,
        modes: Seq<u8>,
        done: bool,
        spec: nat,
    ) -> Seq<ActionModel> {
        let def = self.def(object);
        let specs = def.cast_specs(modes);
        if !self.has_def(object) {
            Seq::empty()
        } else if !def.modes_complete(modes.len(), done) {
            mode_list(self.mode_options(seat, object, modes))
        } else if spec < specs.len() && spec < usize::MAX {
            pick_list(
                self.spec_choices(specs[spec as int], CtxModel::simple(seat, Some(object))),
            )
        } else {
            Seq::empty()
        }
    }

    /// The answers to a pending decision of `seat`.
    pub open spec fn answers(self, seat: Seat, p: PendingModel) -> Seq<ActionModel> {
        let hand = sort(self.hand(seat));
        match p {
            PendingModel::Mulligan { .. } => if self.has_seat(seat) && self.player(seat).mulligans
                < self.format.starting_hand {
                seq![ActionModel::Mulligan { keep: true }, ActionModel::Mulligan { keep: false }]
            } else {
                seq![ActionModel::Mulligan { keep: true }]
            },
            PendingModel::BottomCards { count, .. } => bottom_list(combos(hand, 0, count as nat)),
            PendingModel::DeclareAttackers { .. } => self.attack_suggestions(seat),
            PendingModel::DeclareBlockers { .. } => self.block_suggestions(seat),
            PendingModel::AssignDamage { attacker, .. } => self.damage_suggestions(attacker),
            PendingModel::Discard { count, .. } => discard_list(combos(hand, 0, count as nat)),
            PendingModel::ChooseTargets { specs, trigger, .. } => match self.target_combos(
                specs,
                CtxModel::fresh(seat, Some(trigger.source), Seq::empty(), trigger.triggering),
            ) {
                Some(all) => pick_list(all),
                None => Seq::empty(),
            },
            PendingModel::Choose { options, min, max, .. } => pick_list(
                choices(
                    options,
                    min,
                    if max < options.len() {
                        max
                    } else {
                        options.len()
                    },
                ),
            ),
            PendingModel::ChooseOption { labels, .. } => Seq::new(
                labels.len(),
                |i: int| ActionModel::ChooseMode { mode: i as u8 },
            ),
            PendingModel::Casting { object, modes, modes_done, spec, .. } => self.casting_actions(
                seat,
                object,
                modes,
                modes_done,
                spec,
            ),
        }
    }

    /// Every action `seat` may take right now; conceding comes last.
    pub open spec fn legal(self, seat: Seat) -> Seq<ActionModel> {
        if self.outcome is Some {
            Seq::empty()
        } else {
            match self.pending {
                Some(p) => if p.who() == seat {
                    self.answers(seat, p).push(ActionModel::Concede)
                } else {
                    Seq::empty()
                },
                None => if self.priority == Some(seat) {
                    self.priority_actions(seat).push(ActionModel::Concede)
                } else {
                    Seq::empty()
                },
            }
        }
    }
}

/// A seat has legal actions exactly when it must act.
pub proof fn law_legal_actions_iff_must_act(g: GameModel, seat: Seat)
    ensures
        g.legal(seat).len() > 0 <==> (g.acting() matches Some((s, _)) && s == seat),
{
}

/// A seat that must act may always concede: it is listed once, at the end.
pub proof fn law_conceding_is_listed(g: GameModel, seat: Seat)
    requires
        g.legal(seat).len() > 0,
    ensures
        g.legal(seat).last() == ActionModel::Concede,
        forall|i: int|
            0 <= i < g.legal(seat).len() - 1 ==> (#[trigger] g.legal(seat)[i])
                != ActionModel::Concede,
{
    lemma_plays_on(g, seat);
}

// ----- executable parts -----

fn overlaps(a: &Vec<Target>, b: &Vec<Target>) -> (r: bool)
    ensures
        r == overlap(a@, b@),
{
    let mut i: usize = 0;
    while i < b.len()
        invariant
            i <= b.len(),
            forall|j: int| 0 <= j < i ==> !a@.contains(#[trigger] b@[j]),
        decreases b.len() - i,
    {
        if in_list(a, b[i]) {
            assert(a@.contains(b@[i as int]));
            return true;
        }
        i = i + 1;
    }
    false
}

fn grow_with(out: &mut Vec<Vec<Target>>, combo: &Vec<Target>, sets: &Vec<Vec<Target>>)
    ensures
        views(final(out)@) == grow_one(views(old(out)@), combo@, views(sets@), 0),
{
    let ghost want = grow_one(views(out@), combo@, views(sets@), 0);
    let mut i: usize = 0;
    while i < sets.len()
        invariant
            i <= sets.len(),
            want == grow_one(views(old(out)@), combo@, views(sets@), 0),
            want == grow_one(views(out@), combo@, views(sets@), i as nat),
        decreases sets.len() - i,
    {
        if out.len() >= ENUMERATION_CAP {
            return ;
        }
        if !overlaps(combo, &sets[i]) {
            let mut one = copied(combo);
            extend(&mut one, &sets[i]);
            out.push(one);
        }
        i = i + 1;
    }
}

impl Game {
    fn spec_choices(&self, spec: &Filter, ctx: &Ctx) -> (r: Vec<Vec<Target>>)
        ensures
            views(r@) == self.model().spec_choices(*spec, ctx@),
    {
        let (inner, least, most) = spec.spec_bounds();
        let ts = self.targets_for(inner, ctx);
        let top: usize = match most {
            Some(k) => if k < ts.len() {
                k
            } else {
                ts.len()
            },
            None => ts.len(),
        };
        choices_of(&ts, least, top)
    }

    /// Every legal combination of targets for the specs, or `None` if some
    /// spec has no legal target. Capped at `ENUMERATION_CAP` combinations.
    pub(crate) fn target_combos(&self, specs: &Vec<Filter>, ctx: &Ctx) -> (r: Option<
        Vec<Vec<Target>>,
    >)
        ensures
            match r {
                Some(v) => self.model().target_combos(specs@, ctx@) == Some(views(v@)),
                None => self.model().target_combos(specs@, ctx@) is None,
            },
            r matches Some(v) ==> v@.len() <= ENUMERATION_CAP,
    {
        let ghost g = self.model();
        let mut all: Vec<Vec<Target>> = Vec::new();
        all.push(Vec::new());
        assert(views(all@) =~= seq![Seq::<Target>::empty()]);
        let mut i: usize = 0;
        while i < specs.len()
            invariant
                i <= specs.len(),
                g == self.model(),
                g.target_combos_n(specs@, ctx@, i as nat) == Some(views(all@)),
            decreases specs.len() - i,
        {
            let sets = self.spec_choices(&specs[i], ctx);
            let mut next: Vec<Vec<Target>> = Vec::new();
            let mut j: usize = 0;
            while j < all.len()
                invariant
                    j <= all.len(),
                    views(next@) == grow(views(all@), views(sets@), j as nat),
                decreases all.len() - j,
            {
                grow_with(&mut next, &all[j], &sets);
                j = j + 1;
            }
            all = next;
            i = i + 1;
            if all.len() == 0 {
                proof {
                    g.lemma_combos_none(specs@, ctx@, i as nat, specs@.len());
                }
                return None;
            }
        }
        proof {
            g.law_target_combos_are_capped(specs@, ctx@);
        }
        Some(all)
    }
}

fn add_casts(
    out: &mut Vec<Action>,
    object: ObjectId,
    all: &Vec<Vec<Target>>,
    payments: &Vec<ManaPayment>,
)
    ensures
        views(final(out)@) == views(old(out)@) + cast_list(
            object,
            views(all@),
            views(payments@),
            all@.len(),
        ),
{
    let ghost start = views(out@);
    let ghost ps = views(payments@);
    let ghost sets = views(all@);
    let mut i: usize = 0;
    assert(views(out@) =~= start + cast_list(object, sets, ps, 0));
    while i < all.len()
        invariant
            i <= all.len(),
            ps == views(payments@),
            sets == views(all@),
            views(out@) == start + cast_list(object, sets, ps, i as nat),
        decreases all.len() - i,
    {
        let ghost mid = views(out@);
        let ghost row = Seq::new(
            ps.len(),
            |k: int| ActionModel::CastSpell { object, targets: sets[i as int], payment: ps[k] },
        );
        let mut j: usize = 0;
        assert(mid =~= mid + row.subrange(0, 0));
        while j < payments.len()
            invariant
                j <= payments.len(),
                i < all.len(),
                ps == views(payments@),
                sets == views(all@),
                row == Seq::new(
                    ps.len(),
                    |k: int| ActionModel::CastSpell {
                        object,
                        targets: sets[i as int],
                        payment: ps[k],
                    },
                ),
                views(out@) == mid + row.subrange(0, j as int),
            decreases payments.len() - j,
        {
            out.push(
                Action::CastSpell {
                    object,
                    targets: copied(&all[i]),
                    payment: payments[j].clone(),
                },
            );
            j = j + 1;
            assert(views(out@) =~= mid + row.subrange(0, j as int));
        }
        i = i + 1;
        assert(row.subrange(0, payments@.len() as int) =~= row);
        assert(views(out@) =~= start + cast_list(object, sets, ps, i as nat));
    }
}

fn add_activations(
    out: &mut Vec<Action>,
    object: ObjectId,
    ability: u8,
    all: &Vec<Vec<Target>>,
    payments: &Vec<ManaPayment>,
)
    ensures
        views(final(out)@) == views(old(out)@) + activation_list(
            object,
            ability,
            views(all@),
            views(payments@),
            all@.len(),
        ),
{
    let ghost start = views(out@);
    let ghost ps = views(payments@);
    let ghost sets = views(all@);
    let mut i: usize = 0;
    assert(views(out@) =~= start + activation_list(object, ability, sets, ps, 0));
    while i < all.len()
        invariant
            i <= all.len(),
            ps == views(payments@),
            sets == views(all@),
            views(out@) == start + activation_list(object, ability, sets, ps, i as nat),
        decreases all.len() - i,
    {
        let ghost mid = views(out@);
        let ghost row = Seq::new(
            ps.len(),
            |k: int| ActionModel::ActivateAbility {
                object,
                ability,
                targets: sets[i as int],
                payment: ps[k],
            },
        );
        let mut j: usize = 0;
        assert(mid =~= mid + row.subrange(0, 0));
        while j < payments.len()
            invariant
                j <= payments.len(),
                i < all.len(),
                ps == views(payments@),
                sets == views(all@),
                row == Seq::new(
                    ps.len(),
                    |k: int| ActionModel::ActivateAbility {
                        object,
                        ability,
                        targets: sets[i as int],
                        payment: ps[k],
                    },
                ),
                views(out@) == mid + row.subrange(0, j as int),
            decreases payments.len() - j,
        {
            out.push(
                Action::ActivateAbility {
                    object,
                    ability,
                    targets: copied(&all[i]),
                    payment: payments[j].clone(),
                },
            );
            j = j + 1;
            assert(views(out@) =~= mid + row.subrange(0, j as int));
        }
        i = i + 1;
        assert(row.subrange(0, payments@.len() as int) =~= row);
        assert(views(out@) =~= start + activation_list(object, ability, sets, ps, i as nat));
    }
}

fn source_used(costs: &Vec<Cost>) -> (b: bool)
    ensures
        b == uses_source(costs@),
{
    let mut i: usize = 0;
    while i < costs.len()
        invariant
            i <= costs.len(),
            forall|j: int|
                0 <= j < i ==> !((#[trigger] costs@[j]) is Tap || costs@[j] is SacrificeThis),
        decreases costs.len() - i,
    {
        if matches!(costs[i], Cost::Tap | Cost::SacrificeThis) {
            assert(costs@[i as int] is Tap || costs@[i as int] is SacrificeThis);
            return true;
        }
        i = i + 1;
    }
    false
}

fn untapping(ps: &Vec<ManaPayment>, id: ObjectId) -> (r: Vec<ManaPayment>)
    ensures
        views(r@) == not_tapping(views(ps@), id, ps@.len()),
{
    let mut out: Vec<ManaPayment> = Vec::new();
    let mut i: usize = 0;
    while i < ps.len()
        invariant
            i <= ps.len(),
            views(out@) == not_tapping(views(ps@), id, i as nat),
        decreases ps.len() - i,
    {
        if !in_list(&ps[i].tap, id) {
            out.push(ps[i].clone());
        }
        i = i + 1;
    }
    out
}

fn cross_mana(bases: &Vec<ManaPayment>, ps: &Vec<ManaPayment>) -> (r: Vec<ManaPayment>)
    ensures
        views(r@) == with_mana(views(bases@), views(ps@), bases@.len()),
{
    let ghost bs = views(bases@);
    let ghost qs = views(ps@);
    let mut out: Vec<ManaPayment> = Vec::new();
    let mut i: usize = 0;
    while i < bases.len()
        invariant
            i <= bases.len(),
            bs == views(bases@),
            qs == views(ps@),
            views(out@) == with_mana(bs, qs, i as nat),
        decreases bases.len() - i,
    {
        let ghost mid = views(out@);
        let ghost b = bs[i as int];
        let ghost row = Seq::new(
            qs.len(),
            |k: int| PaymentModel {
                tap: b.tap + qs[k].tap,
                from_pool: b.from_pool + qs[k].from_pool,
                ..b
            },
        );
        let mut j: usize = 0;
        assert(mid =~= mid + row.subrange(0, 0));
        while j < ps.len()
            invariant
                j <= ps.len(),
                i < bases.len(),
                bs == views(bases@),
                qs == views(ps@),
                b == bs[i as int],
                row == Seq::new(
                    qs.len(),
                    |k: int| PaymentModel {
                        tap: b.tap + qs[k].tap,
                        from_pool: b.from_pool + qs[k].from_pool,
                        ..b
                    },
                ),
                views(out@) == mid + row.subrange(0, j as int),
            decreases ps.len() - j,
        {
            let mut one = bases[i].clone();
            extend(&mut one.tap, &ps[j].tap);
            extend(&mut one.from_pool, &ps[j].from_pool);
            assert(one@ =~= row[j as int]);
            out.push(one);
            j = j + 1;
            assert(views(out@) =~= mid + row.subrange(0, j as int));
        }
        i = i + 1;
        assert(row.subrange(0, ps@.len() as int) =~= row);
    }
    out
}

fn cross_sacrifice(bases: &Vec<ManaPayment>, ids: &Vec<ObjectId>) -> (r: Vec<ManaPayment>)
    ensures
        views(r@) == with_sacrifice(views(bases@), ids@, bases@.len()),
{
    let ghost bs = views(bases@);
    let mut out: Vec<ManaPayment> = Vec::new();
    let mut i: usize = 0;
    while i < bases.len()
        invariant
            i <= bases.len(),
            bs == views(bases@),
            views(out@) == with_sacrifice(bs, ids@, i as nat),
        decreases bases.len() - i,
    {
        let ghost mid = views(out@);
        let ghost row = Seq::new(
            ids@.len(),
            |k: int| PaymentModel { sacrifice: seq![ids@[k]], ..bs[i as int] },
        );
        let mut j: usize = 0;
        assert(mid =~= mid + row.subrange(0, 0));
        while j < ids.len()
            invariant
                j <= ids.len(),
                i < bases.len(),
                bs == views(bases@),
                row == Seq::new(
                    ids@.len(),
                    |k: int| PaymentModel { sacrifice: seq![ids@[k]], ..bs[i as int] },
                ),
                views(out@) == mid + row.subrange(0, j as int),
            decreases ids.len() - j,
        {
            let mut one = bases[i].clone();
            let mut list: Vec<ObjectId> = Vec::new();
            list.push(ids[j]);
            one.sacrifice = list;
            assert(one@ =~= row[j as int]);
            out.push(one);
            j = j + 1;
            assert(views(out@) =~= mid + row.subrange(0, j as int));
        }
        i = i + 1;
        assert(row.subrange(0, ids@.len() as int) =~= row);
    }
    out
}

fn cross_discard(bases: &Vec<ManaPayment>, sets: &Vec<Vec<ObjectId>>) -> (r: Vec<ManaPayment>)
    ensures
        views(r@) == with_discard(views(bases@), views(sets@), bases@.len()),
{
    let ghost bs = views(bases@);
    let ghost ss = views(sets@);
    let mut out: Vec<ManaPayment> = Vec::new();
    let mut i: usize = 0;
    while i < bases.len()
        invariant
            i <= bases.len(),
            bs == views(bases@),
            ss == views(sets@),
            views(out@) == with_discard(bs, ss, i as nat),
        decreases bases.len() - i,
    {
        let ghost mid = views(out@);
        let ghost row = Seq::new(
            ss.len(),
            |k: int| PaymentModel { discard: ss[k], ..bs[i as int] },
        );
        let mut j: usize = 0;
        assert(mid =~= mid + row.subrange(0, 0));
        while j < sets.len()
            invariant
                j <= sets.len(),
                i < bases.len(),
                bs == views(bases@),
                ss == views(sets@),
                row == Seq::new(
                    ss.len(),
                    |k: int| PaymentModel { discard: ss[k], ..bs[i as int] },
                ),
                views(out@) == mid + row.subrange(0, j as int),
            decreases sets.len() - j,
        {
            let mut one = bases[i].clone();
            one.discard = copied(&sets[j]);
            assert(one@ =~= row[j as int]);
            out.push(one);
            j = j + 1;
            assert(views(out@) =~= mid + row.subrange(0, j as int));
        }
        i = i + 1;
        assert(row.subrange(0, sets@.len() as int) =~= row);
    }
    out
}

/// Move `more` to the end of `list`, stopping once there are too many.
fn costs_in_order(costs: &Vec<Cost>) -> (b: bool)
    ensures
        b == paid_in_order(costs@),
{
    let mut j: usize = 0;
    while j < costs.len()
        invariant
            j <= costs.len(),
            forall|a: int, b: int|
                #![trigger costs@[a], costs@[b]]
                0 <= a < b < j ==> follows(costs@[a], costs@[b]),
        decreases costs.len() - j,
    {
        let mut i: usize = 0;
        while i < j
            invariant
                i <= j < costs.len(),
                forall|a: int| 0 <= a < i ==> follows(#[trigger] costs@[a], costs@[j as int]),
            decreases j - i,
        {
            let fine = match (&costs[i], &costs[j]) {
                (_, Cost::Mana(_)) => false,
                (_, Cost::Sacrifice(_)) => false,
                (Cost::Mana(_), Cost::Tap) => true,
                (Cost::PayLife(_), Cost::Tap) => true,
                (Cost::Discard(_), Cost::Tap) => true,
                (_, Cost::Tap) => false,
                (Cost::PayLife(_), Cost::PayLife(_)) => false,
                (Cost::Discard(_), Cost::Discard(_)) => false,
                _ => true,
            };
            if !fine {
                assert(!follows(costs@[i as int], costs@[j as int]));
                return false;
            }
            i = i + 1;
        }
        j = j + 1;
    }
    true
}

fn add_capped(list: &mut Vec<Action>, stopped: bool, more: Vec<Action>) -> (now: bool)
    ensures
        (views(final(list)@), now) == list_capped(
            (views(old(list)@), stopped),
            views(more@),
            more@.len(),
        ),
{
    let ghost start = (views(list@), stopped);
    let ghost all = views(more@);
    let mut rest = crate::seqs::reversed(more);
    let mut now = stopped;
    let ghost mut n: nat = 0;
    while rest.len() > 0
        invariant
            n + rest@.len() == all.len(),
            forall|k: int| 0 <= k < rest@.len() ==> #[trigger] rest@[k]@ == all[all.len() - 1 - k],
            (views(list@), now) == list_capped(start, all, n),
        decreases rest.len(),
    {
        let ghost last = rest@.len() - 1;
        assert(rest@[last]@ == all[n as int]);
        match rest.pop() {
            Some(a) => {
                if !now {
                    list.push(a);
                    now = list.len() > ABILITY_CAP;
                }
            },
            None => {},
        }
        proof {
            n = n + 1;
        }
    }
    now
}

impl Game {
    fn sorcery_timing(&self, seat: Seat) -> (b: bool)
        ensures
            b == self.model().sorcery_timing(seat),
    {
        self.stack.len() == 0 && self.phase.is_main() && self.active_player == seat
    }

    fn sorted_hand(&self, seat: Seat) -> (r: Vec<ObjectId>)
        ensures
            r@ == sort(self.model().hand(seat)),
    {
        let hand = self.hand_of(seat);
        sorted(&hand)
    }

    fn land_plays(&self, ids: &Vec<ObjectId>) -> (r: Vec<Action>)
        ensures
            views(r@) == self.model().land_plays(ids@, ids@.len()),
    {
        let mut out: Vec<Action> = Vec::new();
        let mut i: usize = 0;
        while i < ids.len()
            invariant
                i <= ids.len(),
                views(out@) == self.model().land_plays(ids@, i as nat),
            decreases ids.len() - i,
        {
            let land = match self.find_def(ids[i]) {
                Some(def) => def.is_land(),
                None => false,
            };
            if land {
                out.push(Action::PlayLand { object: ids[i] });
            }
            i = i + 1;
        }
        out
    }

    fn casts_of(&self, seat: Seat, id: ObjectId) -> (r: Vec<Action>)
        ensures
            views(r@) == self.model().casts_of(seat, id),
    {
        let mut out: Vec<Action> = Vec::new();
        let def = match self.find_def(id) {
            Some(def) => def,
            None => {
                return out;
            },
        };
        if def.is_land() || !(self.sorcery_timing(seat) || def.has_instant_speed()) {
            return out;
        }
        let cost = self.cast_cost(seat, id).with_x(0);
        let payments = self.enumerate_payments(seat, &cost);
        if Game::is_two_step(def) {
            if self.two_step_castable(seat, id) {
                let mut none: Vec<Vec<Target>> = Vec::new();
                none.push(Vec::new());
                assert(views(none@) =~= seq![Seq::<Target>::empty()]);
                add_casts(&mut out, id, &none, &payments);
            }
        } else {
            let specs = Game::spell_specs(def);
            let ctx = Ctx::simple(seat, Some(id));
            if let Some(all) = self.target_combos(&specs, &ctx) {
                add_casts(&mut out, id, &all, &payments);
            }
        }
        assert(views(out@) =~= self.model().casts_of(seat, id));
        out
    }

    fn casts(&self, seat: Seat, ids: &Vec<ObjectId>) -> (r: Vec<Action>)
        ensures
            views(r@) == self.model().casts(seat, ids@, ids@.len()),
    {
        let mut out: Vec<Action> = Vec::new();
        let mut i: usize = 0;
        while i < ids.len()
            invariant
                i <= ids.len(),
                views(out@) == self.model().casts(seat, ids@, i as nat),
            decreases ids.len() - i,
        {
            let mut more = self.casts_of(seat, ids[i]);
            out.append(&mut more);
            i = i + 1;
        }
        out
    }

    fn pay_also(
        &self,
        seat: Seat,
        id: ObjectId,
        costs: &Vec<Cost>,
        bases: Vec<ManaPayment>,
        cost: &Cost,
    ) -> (r: Option<Vec<ManaPayment>>)
        requires
            self.model().has_obj(id),
        ensures
            match r {
                Some(v) => self.model().pay_also(seat, id, costs@, views(bases@), *cost) == Some(
                    views(v@),
                ),
                None => self.model().pay_also(seat, id, costs@, views(bases@), *cost) is None,
            },
    {
        match cost {
            Cost::Mana(m) => {
                let all = self.enumerate_payments(seat, &m.with_x(0));
                let ps = if source_used(costs) {
                    untapping(&all, id)
                } else {
                    all
                };
                if ps.len() == 0 {
                    None
                } else {
                    Some(cross_mana(&bases, &ps))
                }
            },
            Cost::Tap => {
                let (tapped, sick) = match self.find_obj(id) {
                    Some(o) => (o.tapped, o.summoning_sick),
                    None => (false, false),
                };
                if tapped || (self.is_creature(id) && sick && !self.has_keyword(
                    id,
                    Keyword::Haste,
                )) {
                    None
                } else {
                    Some(bases)
                }
            },
            Cost::SacrificeThis => Some(bases),
            Cost::Sacrifice(filter) => {
                let ctx = Ctx::simple(seat, Some(id));
                let held = self.battlefield_of(seat);
                let ids = self.matching(&held, filter, &ctx);
                if ids.len() == 0 {
                    None
                } else {
                    Some(cross_sacrifice(&bases, &ids))
                }
            },
            Cost::PayLife(n) => if self.life_of(seat) < *n {
                None
            } else {
                Some(bases)
            },
            Cost::Discard(n) => {
                let hand = self.sorted_hand(seat);
                if *n > 0 && *n as usize > hand.len() {
                    None
                } else if *n < 0 {
                    Some(Vec::new())
                } else {
                    let sets = combinations(&hand, *n as usize);
                    Some(cross_discard(&bases, &sets))
                }
            },
        }
    }

    fn ability_payments(&self, seat: Seat, id: ObjectId, costs: &Vec<Cost>) -> (r: Option<
        Vec<ManaPayment>,
    >)
        requires
            self.model().has_obj(id),
        ensures
            match r {
                Some(v) => self.model().ability_payments(seat, id, costs@, costs@.len()) == Some(
                    views(v@),
                ),
                None => self.model().ability_payments(seat, id, costs@, costs@.len()) is None,
            },
    {
        let ghost g = self.model();
        let mut bases: Vec<ManaPayment> = Vec::new();
        bases.push(ManaPayment::default());
        assert(views(bases@) =~= seq![PaymentModel::none()]);
        let mut i: usize = 0;
        while i < costs.len()
            invariant
                i <= costs.len(),
                g == self.model(),
                g.has_obj(id),
                g.ability_payments(seat, id, costs@, i as nat) == Some(views(bases@)),
            decreases costs.len() - i,
        {
            match self.pay_also(seat, id, costs, bases, &costs[i]) {
                Some(next) => {
                    bases = next;
                },
                None => {
                    proof {
                        g.lemma_payments_none(seat, id, costs@, (i + 1) as nat, costs@.len());
                    }
                    return None;
                },
            }
            i = i + 1;
        }
        Some(bases)
    }

    /// The payments of a list that an ability's costs can be paid with; where
    /// the costs may get in each other's way, they are paid on a copy to see.
    fn working(
        &self,
        seat: Seat,
        id: ObjectId,
        costs: &Vec<Cost>,
        ps: Vec<ManaPayment>,
    ) -> (r: Vec<ManaPayment>)
        ensures
            views(r@) == self.model().working(seat, id, costs@, views(ps@), ps@.len()),
    {
        let ghost g = self.model();
        let ghost all = views(ps@);
        if costs_in_order(costs) {
            proof {
                g.lemma_all_work(seat, id, costs@, all, all.len());
                assert(all.subrange(0, all.len() as int) =~= all);
            }
            return ps;
        }
        let mut out: Vec<ManaPayment> = Vec::new();
        let mut i: usize = 0;
        while i < ps.len()
            invariant
                i <= ps.len(),
                g == self.model(),
                all == views(ps@),
                !paid_in_order(costs@),
                views(out@) == g.working(seat, id, costs@, all, i as nat),
            decreases ps.len() - i,
        {
            let mut trial = self.clone();
            if trial.pay_costs(seat, id, &ps[i], costs).is_ok() {
                out.push(ps[i].clone());
            }
            i = i + 1;
        }
        out
    }

    fn activations(&self, seat: Seat, id: ObjectId, index: usize, ability: &Ability) -> (r: Vec<
        Action,
    >)
        requires
            self.model().has_obj(id),
        ensures
            views(r@) == self.model().activations(seat, id, index as nat, *ability),
    {
        let mut out: Vec<Action> = Vec::new();
        if index >= EQUIP_ABILITY as usize || ability.is_mana_ability() || (ability.sorcery_speed
            && !self.sorcery_timing(seat)) || ability.from_graveyard != self.is_in(
            id,
            Zone::Graveyard,
        ) {
            return out;
        }
        let payments = match self.ability_payments(seat, id, &ability.cost) {
            Some(ps) => self.working(seat, id, &ability.cost, ps),
            None => {
                return out;
            },
        };
        let ctx = Ctx::simple(seat, Some(id));
        if let Some(all) = self.target_combos(&ability.targets, &ctx) {
            add_activations(&mut out, id, index as u8, &all, &payments);
        }
        assert(views(out@) =~= self.model().activations(seat, id, index as nat, *ability));
        out
    }

    fn bearers(&self, id: ObjectId, ids: &Vec<ObjectId>) -> (r: Vec<Vec<Target>>)
        requires
            self.model().has_obj(id),
        ensures
            views(r@) == self.model().bearers(id, ids@, ids@.len()),
    {
        let at: Option<ObjectId> = match self.find_obj(id) {
            Some(o) => o.attached_to,
            None => None,
        };
        let mut out: Vec<Vec<Target>> = Vec::new();
        let mut i: usize = 0;
        while i < ids.len()
            invariant
                i <= ids.len(),
                at == self.model().obj(id).attached_to,
                views(out@) == self.model().bearers(id, ids@, i as nat),
            decreases ids.len() - i,
        {
            if self.is_creature(ids[i]) && at != Some(ids[i]) {
                let mut one: Vec<Target> = Vec::new();
                one.push(Target::Object(ids[i]));
                assert(one@ =~= seq![Target::Object(ids@[i as int])]);
                out.push(one);
            }
            i = i + 1;
        }
        out
    }

    fn equips(&self, seat: Seat, id: ObjectId) -> (r: Vec<Action>)
        requires
            self.model().has_def(id),
        ensures
            views(r@) == self.model().equips(seat, id),
    {
        let mut out: Vec<Action> = Vec::new();
        if !self.sorcery_timing(seat) || !self.is_in(id, Zone::Battlefield) {
            return out;
        }
        let equip: Option<ManaCost> = self.card_def(id).ir.equip;
        if let Some(cost) = equip {
            let payments = self.enumerate_payments(seat, &cost.with_x(0));
            let held = self.battlefield_of(seat);
            let all = self.bearers(id, &held);
            add_activations(&mut out, id, EQUIP_ABILITY, &all, &payments);
        }
        assert(views(out@) =~= self.model().equips(seat, id));
        out
    }

    /// Activated abilities (and equip) of permanents `seat` controls, with costs enumerated.
    fn ability_actions(&self, seat: Seat) -> (r: Vec<Action>)
        ensures
            views(r@) == self.model().ability_actions(seat),
    {
        let mut ids = sorted(&self.battlefield_of(seat));
        extend(&mut ids, &sorted(&self.graveyard_of(seat)));
        let mut list: Vec<Action> = Vec::new();
        let mut stopped = false;
        let mut i: usize = 0;
        while i < ids.len()
            invariant
                i <= ids.len(),
                (views(list@), stopped) == self.model().ability_list(seat, ids@, i as nat),
            decreases ids.len() - i,
        {
            let id = ids[i];
            if let Some(def) = self.find_def(id) {
                let ghost before = (views(list@), stopped);
                let mut k: usize = 0;
                while k < def.ir.activated.len()
                    invariant
                        k <= def.ir.activated.len(),
                        self.model().has_def(id),
                        def@ == self.model().def(id),
                        (views(list@), stopped) == self.model().with_abilities(
                            before,
                            seat,
                            id,
                            k as nat,
                        ),
                    decreases def.ir.activated.len() - k,
                {
                    let more = self.activations(seat, id, k, &def.ir.activated[k]);
                    stopped = add_capped(&mut list, stopped, more);
                    k = k + 1;
                }
                if !stopped {
                    let mut more = self.equips(seat, id);
                    list.append(&mut more);
                }
            }
            i = i + 1;
        }
        list
    }

    fn priority_actions(&self, seat: Seat) -> (r: Vec<Action>)
        ensures
            views(r@) == self.model().priority_actions(seat),
    {
        let hand = self.sorted_hand(seat);
        let mut acts: Vec<Action> = Vec::new();
        acts.push(Action::PassPriority);
        assert(views(acts@) =~= seq![ActionModel::PassPriority]);
        let drop = match self.find_player(seat) {
            Some(p) => p.lands_played_this_turn < 1,
            None => false,
        };
        let mut lands = if drop && self.sorcery_timing(seat) {
            self.land_plays(&hand)
        } else {
            Vec::new()
        };
        acts.append(&mut lands);
        let mut casts = self.casts(seat, &hand);
        acts.append(&mut casts);
        let mut abilities = self.ability_actions(seat);
        acts.append(&mut abilities);
        acts
    }
}

fn bottoms(sets: Vec<Vec<ObjectId>>) -> (r: Vec<Action>)
    ensures
        views(r@) == bottom_list(views(sets@)),
{
    let ghost want = bottom_list(views(sets@));
    let mut out: Vec<Action> = Vec::new();
    let mut i: usize = 0;
    while i < sets.len()
        invariant
            i <= sets.len(),
            want == bottom_list(views(sets@)),
            views(out@) == want.subrange(0, i as int),
        decreases sets.len() - i,
    {
        out.push(Action::BottomCards { objects: copied(&sets[i]) });
        i = i + 1;
        assert(want.subrange(0, i as int) =~= want.subrange(0, i - 1).push(want[i - 1]));
    }
    assert(want.subrange(0, sets@.len() as int) =~= want);
    out
}

fn discards(sets: Vec<Vec<ObjectId>>) -> (r: Vec<Action>)
    ensures
        views(r@) == discard_list(views(sets@)),
{
    let ghost want = discard_list(views(sets@));
    let mut out: Vec<Action> = Vec::new();
    let mut i: usize = 0;
    while i < sets.len()
        invariant
            i <= sets.len(),
            want == discard_list(views(sets@)),
            views(out@) == want.subrange(0, i as int),
        decreases sets.len() - i,
    {
        out.push(Action::Discard { objects: copied(&sets[i]) });
        i = i + 1;
        assert(want.subrange(0, i as int) =~= want.subrange(0, i - 1).push(want[i - 1]));
    }
    assert(want.subrange(0, sets@.len() as int) =~= want);
    out
}

fn picks(sets: Vec<Vec<Target>>) -> (r: Vec<Action>)
    ensures
        views(r@) == pick_list(views(sets@)),
{
    let ghost want = pick_list(views(sets@));
    let mut out: Vec<Action> = Vec::new();
    let mut i: usize = 0;
    while i < sets.len()
        invariant
            i <= sets.len(),
            want == pick_list(views(sets@)),
            views(out@) == want.subrange(0, i as int),
        decreases sets.len() - i,
    {
        out.push(Action::ChooseTargets { targets: copied(&sets[i]) });
        i = i + 1;
        assert(want.subrange(0, i as int) =~= want.subrange(0, i - 1).push(want[i - 1]));
    }
    assert(want.subrange(0, sets@.len() as int) =~= want);
    out
}

fn modes(options: Vec<(u8, String)>) -> (r: Vec<Action>)
    ensures
        views(r@) == mode_list(option_views(options@)),
{
    let ghost want = mode_list(option_views(options@));
    let mut out: Vec<Action> = Vec::new();
    let mut i: usize = 0;
    while i < options.len()
        invariant
            i <= options.len(),
            want == mode_list(option_views(options@)),
            views(out@) == want.subrange(0, i as int),
        decreases options.len() - i,
    {
        out.push(Action::ChooseMode { mode: options[i].0 });
        i = i + 1;
        assert(want.subrange(0, i as int) =~= want.subrange(0, i - 1).push(want[i - 1]));
    }
    assert(want.subrange(0, options@.len() as int) =~= want);
    out
}

impl Game {
    fn casting_actions(
        &self,
        seat: Seat,
        object: ObjectId,
        chosen: &Vec<u8>,
        done: bool,
        spec: usize,
    ) -> (r: Vec<Action>)
        ensures
            views(r@) == self.model().casting_actions(seat, object, chosen@, done, spec as nat),
    {
        match self.find_def(object) {
            Some(def) => {
                if !Game::modes_complete(def, chosen.len(), done) {
                    return modes(self.mode_options(seat, object, chosen));
                }
                let specs = Game::cast_specs(def, chosen);
                if spec < specs.len() {
                    let ctx = Ctx::simple(seat, Some(object));
                    picks(self.spec_choices(&specs[spec], &ctx))
                } else {
                    Vec::new()
                }
            },
            None => Vec::new(),
        }
    }

    fn answers(&self, seat: Seat, p: &PendingChoice) -> (r: Vec<Action>)
        ensures
            views(r@) == self.model().answers(seat, p@),
    {
        match p {
            PendingChoice::Mulligan { .. } => {
                let mut acts: Vec<Action> = Vec::new();
                acts.push(Action::Mulligan { keep: true });
                let more = match self.find_player(seat) {
                    Some(p) => p.mulligans < self.format.starting_hand,
                    None => false,
                };
                if more {
                    acts.push(Action::Mulligan { keep: false });
                }
                assert(views(acts@) =~= self.model().answers(seat, p@));
                acts
            },
            PendingChoice::BottomCards { count, .. } => {
                let hand = self.sorted_hand(seat);
                bottoms(combinations(&hand, *count as usize))
            },
            PendingChoice::DeclareAttackers { .. } => self.attack_suggestions(seat),
            PendingChoice::DeclareBlockers { .. } => self.block_suggestions(seat),
            PendingChoice::AssignDamage { attacker, .. } => self.damage_suggestions(*attacker),
            PendingChoice::Discard { count, .. } => {
                let hand = self.sorted_hand(seat);
                discards(combinations(&hand, *count as usize))
            },
            PendingChoice::ChooseTargets { specs, trigger, .. } => {
                let ctx = Ctx::new(seat, Some(trigger.source), Vec::new(), trigger.triggering);
                match self.target_combos(specs, &ctx) {
                    Some(all) => picks(all),
                    None => Vec::new(),
                }
            },
            PendingChoice::Choose { options, min, max, .. } => {
                let top: usize = if *max < options.len() {
                    *max
                } else {
                    options.len()
                };
                picks(choices_of(options, *min, top))
            },
            PendingChoice::ChooseOption { labels, .. } => {
                let mut acts: Vec<Action> = Vec::new();
                let mut i: usize = 0;
                while i < labels.len()
                    invariant
                        i <= labels.len(),
                        views(acts@) == Seq::new(
                            i as nat,
                            |k: int| ActionModel::ChooseMode { mode: k as u8 },
                        ),
                    decreases labels.len() - i,
                {
                    acts.push(Action::ChooseMode { mode: i as u8 });
                    i = i + 1;
                    assert(views(acts@) =~= Seq::new(
                        i as nat,
                        |k: int| ActionModel::ChooseMode { mode: k as u8 },
                    ));
                }
                assert(views(acts@) =~= self.model().answers(seat, p@));
                acts
            },
            PendingChoice::Casting { object, modes, modes_done, spec, .. } => self.casting_actions(
                seat,
                *object,
                modes,
                *modes_done,
                *spec,
            ),
        }
    }

    /// Every action `seat` may take right now. Empty unless `seat` is in `must_act`.
    pub fn legal_actions(&self, seat: Seat) -> (r: Vec<Action>)
        ensures
            views(r@) == self.model().legal(seat),
    {
        if self.outcome.is_some() {
            return Vec::new();
        }
        let mut acts = match &self.pending {
            Some(p) => {
                if p.seat() != seat {
                    return Vec::new();
                }
                self.answers(seat, p)
            },
            None => {
                if self.priority != Some(seat) {
                    return Vec::new();
                }
                self.priority_actions(seat)
            },
        };
        acts.push(Action::Concede);
        acts
    }
}

} // verus!
