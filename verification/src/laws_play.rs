//! What players may do and what comes of it, told by the hand, the stack, the
//! phase and the costs.
use crate::action::{ActionModel, PaymentModel, Target, EQUIP_ABILITY};
use crate::card::CardModel;
use crate::casting::{fixed_targets, group_start, groups_of};
use crate::combos::{ascending, at_positions, combo_sizes, combos, law_combos_are_choices};
use crate::held::lemma_list_activates;
use crate::ir::{Cost, Filter, Mode};
use crate::legal::{activation_list, cast_list, grow, grow_one, list_capped};
use crate::seqs::{lemma_sort_members, sort};
use crate::state::{CtxModel, Expiry, FrameModel, GameModel, KindModel, Modifier, ModifierKind, ObjectModel, PendingModel, StackModel};
use crate::types::{CardType, Keyword, ObjectId, Phase, Seat, Zone};
use vstd::prelude::*;

verus! {

impl GameModel {
    /// It is the player's own main phase and nothing waits to resolve.
    pub open spec fn main_phase_of(self, s: Seat) -> bool {
        &&& self.stack.len() == 0
        &&& self.phase == Phase::Main1 || self.phase == Phase::Main2
        &&& self.active_player == s
    }

    /// The player has priority and nothing else is asked of anybody.
    pub open spec fn free_to_act(self, s: Seat) -> bool {
        &&& self.outcome is None
        &&& self.pending is None
        &&& self.priority == Some(s)
        &&& self.has_seat(s)
    }
}

// ----- when cards may be played -----

proof fn lemma_land_plays(g: GameModel, ids: Seq<ObjectId>, n: nat, a: ActionModel)
    requires
        n <= ids.len(),
    ensures
        g.land_plays(ids, n).contains(a) <==> (a matches ActionModel::PlayLand { object }
            && g.has_def(object) && g.def(object).land() && exists|i: int|
            0 <= i < n && #[trigger] ids[i] == object),
    decreases n,
{
    if n > 0 {
        lemma_land_plays(g, ids, (n - 1) as nat, a);
        let rest = g.land_plays(ids, (n - 1) as nat);
        let all = g.land_plays(ids, n);
        let id = ids[n - 1];
        if all.contains(a) {
            let k = choose|k: int| 0 <= k < all.len() && all[k] == a;
            if k < rest.len() {
                assert(rest[k] == a);
                let o = a->PlayLand_object;
                let i = choose|i: int| 0 <= i < n - 1 && #[trigger] ids[i] == o;
                assert(0 <= i < n && ids[i] == o);
            } else {
                assert(ids[n - 1] == a->PlayLand_object);
            }
        }
        if rest.contains(a) {
            let k = choose|k: int| 0 <= k < rest.len() && rest[k] == a;
            assert(all[k] == a);
        }
        if g.has_def(id) && g.def(id).land() {
            assert(all[rest.len() as int] == (ActionModel::PlayLand { object: id }));
        }
    }
}

proof fn lemma_cast_list(
    object: ObjectId,
    all: Seq<Seq<Target>>,
    ps: Seq<PaymentModel>,
    n: nat,
    a: ActionModel,
)
    requires
        cast_list(object, all, ps, n).contains(a),
    ensures
        a is CastSpell,
        a->CastSpell_object == object,
    decreases n,
{
    let whole = cast_list(object, all, ps, n);
    let k = choose|k: int| 0 <= k < whole.len() && whole[k] == a;
    if n > 0 && n <= all.len() {
        let rest = cast_list(object, all, ps, (n - 1) as nat);
        if k < rest.len() {
            assert(rest[k] == a);
            lemma_cast_list(object, all, ps, (n - 1) as nat, a);
        }
    }
}

proof fn lemma_casts(g: GameModel, s: Seat, ids: Seq<ObjectId>, n: nat, a: ActionModel)
    requires
        n <= ids.len(),
        g.casts(s, ids, n).contains(a),
    ensures
        a is CastSpell,
        ({
            let id = a->CastSpell_object;
            &&& exists|i: int| 0 <= i < n && #[trigger] ids[i] == id
            &&& g.has_def(id)
            &&& !g.def(id).land()
            &&& g.sorcery_timing(s) || g.def(id).instant_speed()
        }),
    decreases n,
{
    let whole = g.casts(s, ids, n);
    let k = choose|k: int| 0 <= k < whole.len() && whole[k] == a;
    if n > 0 {
        let rest = g.casts(s, ids, (n - 1) as nat);
        let own = g.casts_of(s, ids[n - 1]);
        if k < rest.len() {
            assert(rest[k] == a);
            lemma_casts(g, s, ids, (n - 1) as nat, a);
            let i = choose|i: int| 0 <= i < n - 1 && #[trigger] ids[i] == a->CastSpell_object;
            assert(0 <= i < n && ids[i] == a->CastSpell_object);
        } else {
            let id = ids[n - 1];
            assert(own[k - rest.len()] == a);
            assert(own.contains(a));
            let def = g.def(id);
            let ps = g.payments(s, g.cast_cost(s, id).announced(0));
            if def.two_step() {
                lemma_cast_list(id, seq![Seq::empty()], ps, 1, a);
            } else {
                let all = g.target_combos(def.spell_specs(), CtxModel::simple(s, Some(id)))->0;
                lemma_cast_list(id, all, ps, all.len(), a);
            }
            assert(ids[n - 1] == a->CastSpell_object);
        }
    }
}

proof fn lemma_listed(g: GameModel, s: Seat, a: ActionModel)
    requires
        g.free_to_act(s),
        g.legal(s).contains(a),
    ensures
        ({
            let hand = sort(g.hand(s));
            ||| a is PassPriority
            ||| a is Concede
            ||| g.sorcery_timing(s) && g.player(s).lands_played_this_turn < 1 && g.land_plays(
                hand,
                hand.len(),
            ).contains(a)
            ||| g.casts(s, hand, hand.len()).contains(a)
            ||| a is ActivateAbility && g.ability_actions(s).contains(a)
        }),
{
    let hand = sort(g.hand(s));
    let all = g.legal(s);
    let k = choose|k: int| 0 <= k < all.len() && all[k] == a;
    let lands = if g.sorcery_timing(s) && g.player(s).lands_played_this_turn < 1 {
        g.land_plays(hand, hand.len())
    } else {
        Seq::empty()
    };
    let casts = g.casts(s, hand, hand.len());
    let abilities = g.ability_actions(s);
    assert(g.priority_actions(s) =~= seq![ActionModel::PassPriority] + lands + casts + abilities);
    let ids = sort(g.battlefield(s)) + sort(g.list(s, Zone::Graveyard));
    lemma_list_activates(g, s, ids, ids.len());
    if 1 <= k < 1 + lands.len() {
        assert(lands[k - 1] == a);
    } else if 1 + lands.len() <= k < 1 + lands.len() + casts.len() {
        assert(casts[k - 1 - lands.len()] == a);
    } else if 1 + lands.len() + casts.len() <= k < all.len() - 1 {
        assert(abilities[k - 1 - lands.len() - casts.len()] == a);
    }
}

/// A player with priority may play a land exactly if it is in their hand, it is
/// their own main phase with nothing on the stack, and they have played none
/// this turn.
pub proof fn law_when_lands_may_be_played(g: GameModel, s: Seat, id: ObjectId)
    requires
        g.free_to_act(s),
    ensures
        g.legal(s).contains(ActionModel::PlayLand { object: id }) <==> {
            &&& g.player(s).hand.contains(id)
            &&& g.has_def(id)
            &&& g.def(id).types.contains(CardType::Land)
            &&& g.main_phase_of(s)
            &&& g.player(s).lands_played_this_turn == 0
        },
{
    let a = ActionModel::PlayLand { object: id };
    let hand = sort(g.hand(s));
    lemma_land_plays(g, hand, hand.len(), a);
    lemma_sort_members(g.hand(s), id);
    assert(hand.contains(id) <==> exists|i: int| 0 <= i < hand.len() && #[trigger] hand[i] == id);
    if g.legal(s).contains(a) {
        lemma_listed(g, s, a);
        if g.casts(s, hand, hand.len()).contains(a) {
            lemma_casts(g, s, hand, hand.len(), a);
        }
    }
    if g.land_plays(hand, hand.len()).contains(a) && g.main_phase_of(s) && g.player(
        s,
    ).lands_played_this_turn == 0 {
        let lands = g.land_plays(hand, hand.len());
        let i = choose|i: int| 0 <= i < lands.len() && lands[i] == a;
        assert(g.priority_actions(s)[1 + i] == a);
        assert(g.legal(s)[1 + i] == a);
    }
}

/// A spell may be cast only from hand, and unless it is an instant or has flash
/// only in one's own main phase with nothing on the stack. Lands are not cast.
pub proof fn law_when_spells_may_be_cast(
    g: GameModel,
    s: Seat,
    id: ObjectId,
    targets: Seq<Target>,
    payment: PaymentModel,
)
    requires
        g.free_to_act(s),
        g.legal(s).contains(ActionModel::CastSpell { object: id, targets, payment }),
    ensures
        g.player(s).hand.contains(id),
        g.has_def(id),
        !g.def(id).types.contains(CardType::Land),
        g.main_phase_of(s) || g.def(id).types.contains(CardType::Instant) || g.def(
            id,
        ).keywords.contains(Keyword::Flash),
{
    let a = ActionModel::CastSpell { object: id, targets, payment };
    let hand = sort(g.hand(s));
    lemma_listed(g, s, a);
    lemma_land_plays(g, hand, hand.len(), a);
    lemma_casts(g, s, hand, hand.len(), a);
    lemma_sort_members(g.hand(s), id);
    let i = choose|i: int| 0 <= i < hand.len() && #[trigger] hand[i] == id;
    assert(hand.contains(id));
}

/// A player with priority may always pass, and nobody else may.
pub proof fn law_priority_may_be_passed(g: GameModel, s: Seat, other: Seat)
    requires
        g.free_to_act(s),
        other != s,
    ensures
        g.legal(s).contains(ActionModel::PassPriority),
        g.legal(other).len() == 0,
{
    assert(g.legal(s)[0] == ActionModel::PassPriority);
}

// ----- onto the stack -----

/// A spell that is cast leaves the hand for the top of the stack, under whoever
/// casts it, with its modes, targets and the value of X; they get priority.
pub proof fn law_spells_go_on_the_stack(
    g: GameModel,
    s: Seat,
    id: ObjectId,
    modes: Seq<u8>,
    targets: Seq<Target>,
    x: u32,
)
    requires
        g.sound(),
        g.has_seat(s),
        g.has_obj(id),
        g.obj(id).zone is Hand,
        g.obj(id).owner == s,
    ensures
        ({
            let h = g.put_on_stack(s, id, modes, targets, x);
            &&& h.stack == g.stack.push(
                StackModel { object: id, controller: s, targets, kind: KindModel::Spell, modes, x },
            )
            &&& h.obj(id).zone is Stack
            &&& h.obj(id).controller == s
            &&& !h.player(s).hand.contains(id)
            &&& h.priority == Some(s)
            &&& h.passed_in_succession == 0
        }),
{
    crate::sound::lemma_without(g.player(s).hand, id);
    let h = g.put_on_stack(s, id, modes, targets, x);
    assert(h.obj(id).zone is Stack);
}

/// An ability goes on top of the stack without moving its source.
pub proof fn law_abilities_go_on_the_stack(
    g: GameModel,
    s: Seat,
    id: ObjectId,
    ability: u8,
    targets: Seq<Target>,
    x: u32,
)
    ensures
        ({
            let h = g.put_ability(s, id, ability, targets, x);
            &&& h.stack.drop_last() == g.stack
            &&& h.stack.last().object == id
            &&& h.stack.last().controller == s
            &&& h.stack.last().targets == targets
            &&& h.stack.last().x == x
            &&& h.stack.last().kind is Ability || h.stack.last().kind is Equip
            &&& h.objects == g.objects
            &&& h.players == g.players
            &&& h.priority == Some(s)
        }),
{
    let h = g.put_ability(s, id, ability, targets, x);
    assert(h.stack.drop_last() =~= g.stack);
}

// ----- costs -----

/// Tapping is a cost that only an untapped permanent can pay, and pays by being
/// tapped.
pub proof fn law_tapping_pays(g: GameModel, s: Seat, id: ObjectId, payment: PaymentModel)
    requires
        g.has_obj(id),
    ensures
        g.pay_cost(s, id, payment, Cost::Tap) is Ok <==> !g.obj(id).tapped,
        g.pay_cost(s, id, payment, Cost::Tap) matches Ok(h) ==> (h.obj(id) == (ObjectModel {
            tapped: true,
            ..g.obj(id)
        }) && h.players == g.players),
{
}

/// Life is paid only by whoever has as much, and comes off their life.
pub proof fn law_life_pays(
    g: GameModel,
    s: Seat,
    id: ObjectId,
    payment: PaymentModel,
    n: i32,
    other: Seat,
)
    requires
        g.has_seat(s),
        g.has_seat(other),
        other != s,
        n >= 0,
    ensures
        g.pay_cost(s, id, payment, Cost::PayLife(n)) is Ok <==> g.player(s).life >= n,
        g.pay_cost(s, id, payment, Cost::PayLife(n)) matches Ok(h) ==> h.player(s).life == g.player(
            s,
        ).life - n && h.player(other) == g.player(other) && h.objects == g.objects,
{
}

/// A permanent that is sacrificed goes to its owner's graveyard.
pub proof fn law_sacrifices_pay(g: GameModel, s: Seat, id: ObjectId, payment: PaymentModel)
    requires
        g.sound(),
        g.has_obj(id),
        g.obj(id).zone is Battlefield,
    ensures
        g.pay_cost(s, id, payment, Cost::SacrificeThis) matches Ok(h) && {
            &&& h.obj(id).zone is Graveyard
            &&& h.player(g.obj(id).owner).graveyard == g.player(g.obj(id).owner).graveyard.push(id)
        },
{
    assert(g.has_seat(g.obj(id).owner) && g.has_seat(g.obj(id).controller)) by {
        reveal(GameModel::objects_are_real);
    }
    let e = g.emit(crate::event::EventModel::Sacrificed { seat: s, object: id });
    assert(e.obj(id) == g.obj(id));
    let h = g.sacrifice(s, id);
    assert(h.obj(id).zone is Graveyard);
}

// ----- what resolves -----

/// A creature or other permanent spell without targets enters the battlefield
/// under whoever cast it, summoning sick.
pub proof fn law_permanent_spells_enter(g: GameModel, so: StackModel, t: int)
    requires
        g.has_def(so.object),
        g.obj(so.object).zone is Stack,
        g.has_seat(so.controller),
        g.def(so.object).cast_specs(so.modes).len() == 0,
        0 <= t < g.def(so.object).types.len(),
        g.def(so.object).types[t] == CardType::Creature || g.def(so.object).types[t]
            == CardType::Artifact || g.def(so.object).types[t] == CardType::Enchantment,
    ensures
        ({
            let (h, done) = g.resolve_spell(so);
            &&& done
            &&& h.obj(so.object).zone is Battlefield
            &&& h.obj(so.object).controller == so.controller
            &&& h.obj(so.object).summoning_sick
            &&& !h.obj(so.object).tapped
        }),
{
    assert(g.def(so.object).types[t].permanent());
    assert(g.def(so.object).permanent());
}

/// A spell whose every target has become illegal does nothing and goes to the
/// graveyard.
pub proof fn law_spells_may_fizzle(g: GameModel, so: StackModel, s: Seat)
    requires
        g.has_def(so.object),
        g.obj(so.object).zone is Stack,
        g.has_seat(s),
        s != g.obj(so.object).owner,
        g.def(so.object).cast_specs(so.modes).len() > 0,
        so.targets.len() > 0,
        ({
            let specs = g.def(so.object).cast_specs(so.modes);
            let ctx = GameModel::resolving_ctx(so, so.object, specs, None);
            forall|i: int|
                0 <= i < ctx.targets.len() ==> #[trigger] g.pruned(specs, ctx.targets, ctx)[i]
                    == Seq::<Target>::empty()
        }),
    ensures
        ({
            let (h, done) = g.resolve_spell(so);
            &&& done
            &&& h.obj(so.object).zone is Graveyard
            &&& h.player(s) == g.player(s)
            &&& h.player(g.obj(so.object).owner).life == g.player(g.obj(so.object).owner).life
        }),
{
    let specs = g.def(so.object).cast_specs(so.modes);
    let ctx = GameModel::resolving_ctx(so, so.object, specs, None);
    let kept = g.pruned(specs, ctx.targets, ctx);
    assert(crate::resolve::all_gone(kept));
    let h = g.spell_leaves(so.object);
    assert(h.obj(so.object).zone is Graveyard);
}

/// Prowess gives +1/+1 until end of turn.
pub proof fn law_prowess_resolves(g: GameModel, id: ObjectId)
    requires
        g.has_obj(id),
    ensures
        ({
            let h = g.resolve_prowess(id);
            &&& g.obj(id).zone is Battlefield ==> h.obj(id).modifiers == g.obj(id).modifiers.push(
                Modifier {
                    kind: ModifierKind::Pt { power: 1, toughness: 1 },
                    expires: Expiry::EndOfTurn,
                },
            )
            &&& !(g.obj(id).zone is Battlefield) ==> h == g
            &&& h.players == g.players
        }),
{
}

/// Equipping attaches the equipment to the creature it targets, if that is still
/// a creature its controller has on the battlefield.
pub proof fn law_equipment_is_attached(g: GameModel, so: StackModel, source: ObjectId, to: ObjectId)
    requires
        so.targets.len() > 0,
        so.targets[0] == Target::Object(to),
        g.has_obj(source),
        g.obj(source).zone is Battlefield,
    ensures
        ({
            let h = g.resolve_equip(so, source);
            let fit = g.has_def(to) && g.obj(to).zone is Battlefield && g.obj(to).controller
                == so.controller && g.def(to).types.contains(CardType::Creature);
            &&& fit ==> h.obj(source) == ObjectModel { attached_to: Some(to), ..g.obj(source) }
            &&& !fit ==> h == g
            &&& h.players == g.players
        }),
{
}

// ----- mulligans -----

/// Whoever keeps puts one card on the bottom for every mulligan they took, but
/// for the first where the format says that it is free, and never more than
/// they hold; without any, the next player decides.
pub proof fn law_mulligans_cost_cards(g: GameModel, s: Seat, free: bool)
    requires
        g.has_seat(s),
        g.format.mulligan == (crate::format::MulliganRule::London { free_first: free }),
        g.player(s).hand.len() <= 255,
        g.player(s).mulligans <= g.player(s).hand.len(),
    ensures
        ({
            let taken = g.player(s).mulligans;
            let owed = if free && taken > 0 {
                taken - 1
            } else {
                taken as int
            };
            let h = g.keep_hand(s);
            &&& owed > 0 ==> h.pending == Some(
                PendingModel::BottomCards { seat: s, count: owed as u8 },
            )
            &&& owed == 0 ==> !(h.pending matches Some(PendingModel::BottomCards { .. }))
            &&& h.players == g.players
            &&& h.objects == g.objects
        }),
{
}

/// A card put on the bottom leaves the hand and lies under the whole library.
pub proof fn law_cards_go_to_the_bottom(g: GameModel, s: Seat, id: ObjectId, x: ObjectId)
    requires
        g.has_seat(s),
        g.has_obj(id),
    ensures
        ({
            let h = g.bottom_one(s, id);
            &&& h.player(s).library == seq![id] + g.player(s).library
            &&& h.player(s).hand.contains(x) <==> g.player(s).hand.contains(x) && x != id
            &&& h.obj(id).zone is Library
            &&& h.player(s).life == g.player(s).life
        }),
{
    crate::sound::lemma_without(g.player(s).hand, id);
}

/// A mulligan may be taken again only while it would leave a card to draw.
pub proof fn law_mulligans_run_out(g: GameModel, s: Seat)
    requires
        g.has_seat(s),
        g.outcome is None,
        g.pending == Some(PendingModel::Mulligan { seat: s }),
    ensures
        g.legal(s).contains(ActionModel::Mulligan { keep: true }),
        g.legal(s).contains(ActionModel::Mulligan { keep: false }) <==> g.player(s).mulligans
            < g.format.starting_hand,
{
    let all = g.legal(s);
    assert(all[0] == (ActionModel::Mulligan { keep: true }));
    if g.player(s).mulligans < g.format.starting_hand {
        assert(all[1] == (ActionModel::Mulligan { keep: false }));
    } else {
        assert(all.len() == 2);
    }
}

// ----- when abilities may be activated -----

impl GameModel {
    /// An activation that is in order: of a permanent on the battlefield or a
    /// card whose ability works in the graveyard, and at the time it may be.
    pub open spec fn in_order(self, s: Seat, a: ActionModel) -> bool {
        a matches ActionModel::ActivateAbility { object, ability, .. } ==> {
            let def = self.def(object);
            &&& self.has_def(object)
            &&& ability == EQUIP_ABILITY ==> self.main_phase_of(s) && def.equip is Some
                && self.obj(object).zone is Battlefield
            &&& ability != EQUIP_ABILITY ==> {
                &&& ability < def.activated.len()
                &&& !def.activated[ability as int].makes_mana()
                &&& def.activated[ability as int].sorcery_speed ==> self.main_phase_of(s)
                &&& def.activated[ability as int].from_graveyard <==> self.obj(
                    object,
                ).zone is Graveyard
            }
        }
    }
}

/// All of a list are activations of some of the objects, and in order.
spec fn all_in_order(g: GameModel, s: Seat, ids: Seq<ObjectId>, acts: Seq<ActionModel>) -> bool {
    forall|k: int|
        0 <= k < acts.len() ==> g.in_order(s, #[trigger] acts[k]) && (
        acts[k] matches ActionModel::ActivateAbility { object, .. } ==> ids.contains(object))
}

proof fn lemma_activation_list(
    g: GameModel,
    s: Seat,
    ids: Seq<ObjectId>,
    object: ObjectId,
    ability: u8,
    all: Seq<Seq<Target>>,
    ps: Seq<PaymentModel>,
    n: nat,
)
    requires
        ids.contains(object),
        forall|ts: Seq<Target>, p: PaymentModel|
            #[trigger]
            g.in_order(
                s,
                (ActionModel::ActivateAbility { object, ability, targets: ts, payment: p }),
            ),
    ensures
        all_in_order(g, s, ids, activation_list(object, ability, all, ps, n)),
    decreases n,
{
    if n > 0 && n <= all.len() {
        lemma_activation_list(g, s, ids, object, ability, all, ps, (n - 1) as nat);
        let rest = activation_list(object, ability, all, ps, (n - 1) as nat);
        let whole = activation_list(object, ability, all, ps, n);
        assert forall|k: int| 0 <= k < whole.len() implies g.in_order(s, #[trigger] whole[k]) && (
        whole[k] matches ActionModel::ActivateAbility { object: o, .. } ==> ids.contains(o)) by {
            if k < rest.len() {
                assert(whole[k] == rest[k]);
            } else {
                assert(whole[k] == (ActionModel::ActivateAbility {
                    object,
                    ability,
                    targets: all[n - 1],
                    payment: ps[k - rest.len()],
                }));
            }
        }
    }
}

proof fn lemma_capped(
    g: GameModel,
    s: Seat,
    ids: Seq<ObjectId>,
    list: (Seq<ActionModel>, bool),
    more: Seq<ActionModel>,
    n: nat,
)
    requires
        all_in_order(g, s, ids, list.0),
        all_in_order(g, s, ids, more),
    ensures
        all_in_order(g, s, ids, list_capped(list, more, n).0),
    decreases n,
{
    if n > 0 && n <= more.len() {
        lemma_capped(g, s, ids, list, more, (n - 1) as nat);
    }
}

proof fn lemma_with_abilities(
    g: GameModel,
    s: Seat,
    ids: Seq<ObjectId>,
    list: (Seq<ActionModel>, bool),
    id: ObjectId,
    n: nat,
)
    requires
        ids.contains(id),
        g.has_def(id),
        all_in_order(g, s, ids, list.0),
    ensures
        all_in_order(g, s, ids, g.with_abilities(list, s, id, n).0),
    decreases n,
{
    let abilities = g.def(id).activated;
    if n > 0 && n <= abilities.len() {
        lemma_with_abilities(g, s, ids, list, id, (n - 1) as nat);
        let ability = abilities[n - 1];
        let more = g.activations(s, id, (n - 1) as nat, ability);
        let costs = ability.cost@;
        if more.len() > 0 {
            let ps = g.ability_payments(s, id, costs, costs.len())->0;
            let all = g.target_combos(ability.targets@, CtxModel::simple(s, Some(id)))->0;
            assert(n - 1 < EQUIP_ABILITY);
            assert(((n - 1) as u8) as int == n - 1);
            lemma_activation_list(
                g,
                s,
                ids,
                id,
                (n - 1) as u8,
                all,
                g.working(s, id, costs, ps, ps.len()),
                all.len(),
            );
        }
        lemma_capped(g, s, ids, g.with_abilities(list, s, id, (n - 1) as nat), more, more.len());
    }
}

proof fn lemma_ability_list(g: GameModel, s: Seat, ids: Seq<ObjectId>, n: nat)
    requires
        n <= ids.len(),
    ensures
        all_in_order(g, s, ids, g.ability_list(s, ids, n).0),
    decreases n,
{
    if n > 0 {
        lemma_ability_list(g, s, ids, (n - 1) as nat);
        let id = ids[n - 1];
        assert(ids.contains(id));
        let before = g.ability_list(s, ids, (n - 1) as nat);
        if g.has_def(id) {
            lemma_with_abilities(g, s, ids, before, id, g.def(id).activated.len());
            let mid = g.with_abilities(before, s, id, g.def(id).activated.len()).0;
            let more = g.equips(s, id);
            let held = g.battlefield(s);
            let all = g.bearers(id, held, held.len());
            if more.len() > 0 {
                lemma_activation_list(
                    g,
                    s,
                    ids,
                    id,
                    EQUIP_ABILITY,
                    all,
                    g.payments(s, g.def(id).equip->0.announced(0)),
                    all.len(),
                );
            }
            let sum = mid + more;
            assert forall|k: int| 0 <= k < sum.len() implies g.in_order(s, #[trigger] sum[k]) && (
            sum[k] matches ActionModel::ActivateAbility { object: o, .. } ==> ids.contains(o)) by {
                if k < mid.len() {
                    assert(sum[k] == mid[k]);
                } else {
                    assert(sum[k] == more[k - mid.len()]);
                }
            }
        }
    }
}

/// A player may activate an ability only of a permanent they have on the
/// battlefield or of a card in their graveyard whose ability works there; one
/// that is as slow as a sorcery, and equipping, only in their own main phase
/// with nothing on the stack.
pub proof fn law_when_abilities_may_be_activated(
    g: GameModel,
    s: Seat,
    id: ObjectId,
    ability: u8,
    targets: Seq<Target>,
    payment: PaymentModel,
)
    requires
        g.free_to_act(s),
        g.legal(s).contains(
            ActionModel::ActivateAbility { object: id, ability, targets, payment },
        ),
    ensures
        g.player(s).battlefield.contains(id) || g.player(s).graveyard.contains(id),
        g.in_order(s, ActionModel::ActivateAbility { object: id, ability, targets, payment }),
{
    let a = ActionModel::ActivateAbility { object: id, ability, targets, payment };
    let hand = sort(g.hand(s));
    lemma_listed(g, s, a);
    lemma_land_plays(g, hand, hand.len(), a);
    if g.casts(s, hand, hand.len()).contains(a) {
        lemma_casts(g, s, hand, hand.len(), a);
    }
    let field = sort(g.battlefield(s));
    let grave = sort(g.list(s, Zone::Graveyard));
    let ids = field + grave;
    lemma_ability_list(g, s, ids, ids.len());
    let acts = g.ability_actions(s);
    let k = choose|k: int| 0 <= k < acts.len() && acts[k] == a;
    assert(g.in_order(s, acts[k]));
    assert(ids.contains(id));
    let i = choose|i: int| 0 <= i < ids.len() && ids[i] == id;
    if i < field.len() {
        assert(field[i] == id);
    } else {
        assert(grave[i - field.len()] == id);
    }
    lemma_sort_members(g.battlefield(s), id);
    lemma_sort_members(g.list(s, Zone::Graveyard), id);
}

// ----- targets as a spell resolves -----

proof fn lemma_legal_n(g: GameModel, group: Seq<Target>, f: &Filter, ctx: CtxModel, n: nat, t: Target)
    requires
        n <= group.len(),
    ensures
        g.legal_n(group, *f, ctx, n).contains(t) <==> g.target_is_legal(t, *f, ctx) && exists|
            i: int,
        |
            0 <= i < n && #[trigger] group[i] == t,
    decreases n,
{
    if n > 0 {
        lemma_legal_n(g, group, f, ctx, (n - 1) as nat, t);
        let rest = g.legal_n(group, *f, ctx, (n - 1) as nat);
        let all = g.legal_n(group, *f, ctx, n);
        if all.contains(t) {
            let k = choose|k: int| 0 <= k < all.len() && all[k] == t;
            if k < rest.len() {
                assert(rest[k] == t);
                let i = choose|i: int| 0 <= i < n - 1 && #[trigger] group[i] == t;
                assert(0 <= i < n && group[i] == t);
            } else {
                assert(group[n - 1] == t);
            }
        }
        if g.target_is_legal(t, *f, ctx) && exists|i: int| 0 <= i < n && #[trigger] group[i] == t {
            let i = choose|i: int| 0 <= i < n && #[trigger] group[i] == t;
            if i < n - 1 {
                assert(rest.contains(t));
                let k = choose|k: int| 0 <= k < rest.len() && rest[k] == t;
                assert(all[k] == t);
            } else {
                assert(all[rest.len() as int] == t);
            }
        }
    }
}

/// As a spell resolves, of its targets exactly those that are still legal count.
pub proof fn law_illegal_targets_are_left_out(
    g: GameModel,
    specs: Seq<Filter>,
    groups: Seq<Seq<Target>>,
    ctx: CtxModel,
    i: int,
    t: Target,
)
    requires
        0 <= i < groups.len(),
        i < specs.len(),
    ensures
        g.pruned(specs, groups, ctx).len() == groups.len(),
        g.pruned(specs, groups, ctx)[i].contains(t) <==> groups[i].contains(t)
            && g.target_is_legal(t, specs[i].inner(), ctx),
{
    let group = groups[i];
    lemma_legal_n(g, group, &specs[i].inner(), ctx, group.len(), t);
    assert(group.contains(t) <==> exists|k: int| 0 <= k < group.len() && #[trigger] group[k] == t);
}

// ----- modes -----

proof fn lemma_modes_on_offer(
    g: GameModel,
    s: Seat,
    id: ObjectId,
    modes: Seq<Mode>,
    chosen: Seq<u8>,
    n: nat,
    i: u8,
)
    requires
        n <= modes.len() <= 255,
    ensures
        (exists|k: int|
            0 <= k < g.modes_on_offer(s, id, modes, chosen, n).len() && (
            #[trigger] g.modes_on_offer(s, id, modes, chosen, n)[k]).0 == i) <==> i < n
            && !chosen.contains(i) && g.mode_castable(s, id, i as nat),
    decreases n,
{
    if n > 0 {
        lemma_modes_on_offer(g, s, id, modes, chosen, (n - 1) as nat, i);
        let rest = g.modes_on_offer(s, id, modes, chosen, (n - 1) as nat);
        let all = g.modes_on_offer(s, id, modes, chosen, n);
        if exists|k: int| 0 <= k < rest.len() && (#[trigger] rest[k]).0 == i {
            let k = choose|k: int| 0 <= k < rest.len() && (#[trigger] rest[k]).0 == i;
            assert(all[k].0 == i);
        }
        if exists|k: int| 0 <= k < all.len() && (#[trigger] all[k]).0 == i {
            let k = choose|k: int| 0 <= k < all.len() && (#[trigger] all[k]).0 == i;
            if k < rest.len() {
                assert(rest[k].0 == i);
            }
        }
        if i == n - 1 && !chosen.contains(i) && g.mode_castable(s, id, i as nat) {
            assert(all[rest.len() as int].0 == i);
        }
    }
}

/// Of a modal spell, the modes on offer are those not yet chosen whose every
/// target word has enough legal targets.
pub proof fn law_modes_on_offer(g: GameModel, s: Seat, id: ObjectId, chosen: Seq<u8>, i: u8)
    requires
        g.has_def(id),
        g.def(id).spell is Some,
        i < g.def(id).spell->0.modes@.len() < 255,
    ensures
        ({
            let modes = g.def(id).spell->0.modes@;
            let ctx = CtxModel::simple(s, Some(id));
            let specs = modes[i as int].targets@;
            (exists|k: int|
                0 <= k < g.mode_options(s, id, chosen).len() && (#[trigger] g.mode_options(
                    s,
                    id,
                    chosen,
                )[k]).0 == i) <==> !chosen.contains(i) && forall|j: int|
                0 <= j < specs.len() ==> (#[trigger] specs[j]).least() == 0 || g.targets_for(
                    specs[j].inner(),
                    ctx,
                ).len() >= specs[j].least()
        }),
{
    let modes = g.def(id).spell->0.modes@;
    let open = g.modes_on_offer(s, id, modes, chosen, modes.len());
    let all = g.mode_options(s, id, chosen);
    let ctx = CtxModel::simple(s, Some(id));
    let specs = modes[i as int].targets@;
    lemma_modes_on_offer(g, s, id, modes, chosen, modes.len(), i);
    assert(g.mode_castable(s, id, i as nat) <==> forall|j: int|
        0 <= j < specs.len() ==> (#[trigger] specs[j]).least() == 0 || g.targets_for(
            specs[j].inner(),
            ctx,
        ).len() >= specs[j].least()) by {
        if g.all_fillable(specs, ctx) {
            assert forall|j: int| 0 <= j < specs.len() implies (#[trigger] specs[j]).least() == 0
                || g.targets_for(specs[j].inner(), ctx).len() >= specs[j].least() by {
                assert(g.spec_fillable(specs[j], ctx));
            }
        }
    }
    if exists|k: int| 0 <= k < open.len() && (#[trigger] open[k]).0 == i {
        let k = choose|k: int| 0 <= k < open.len() && (#[trigger] open[k]).0 == i;
        assert(all[k].0 == i);
    }
    if exists|k: int| 0 <= k < all.len() && (#[trigger] all[k]).0 == i {
        let k = choose|k: int| 0 <= k < all.len() && (#[trigger] all[k]).0 == i;
        assert(k < open.len());
        assert(open[k].0 == i);
    }
}

/// "Choose one" is done after one mode; "one or both" after two, or after one
/// if the player says so.
pub proof fn law_when_modes_are_chosen(def: CardModel, n: nat)
    requires
        def.modal(),
        def.spell is Some,
    ensures
        def.spell->0.choice is One ==> (def.modes_complete(n, false) <==> n >= 1),
        def.spell->0.choice is OneOrBoth ==> (def.modes_complete(n, false) <==> n >= 2) && (
        def.modes_complete(n, true) <==> n >= 1),
        !def.modes_complete(0, true),
{
}

// ----- what may be targeted -----

proof fn lemma_sizes(items: Seq<Target>, min: nat, n: nat, k: int)
    requires
        0 <= k < combo_sizes(items, min, n).len(),
    ensures
        ({
            let c = combo_sizes(items, min, n)[k];
            &&& min <= c.len() < min + n
            &&& forall|a: int| 0 <= a < c.len() ==> items.contains(#[trigger] c[a])
        }),
    decreases n,
{
    if n > 0 {
        let rest = combo_sizes(items, min, (n - 1) as nat);
        let own = combos(items, 0, (min + n - 1) as nat);
        let c = combo_sizes(items, min, n)[k];
        if k < rest.len() {
            lemma_sizes(items, min, (n - 1) as nat, k);
            assert(c == rest[k]);
        } else {
            assert(c == own[k - rest.len()]);
            law_combos_are_choices(items, 0, (min + n - 1) as nat, k - rest.len());
            let at = choose|at: Seq<int>|
                #![trigger at_positions(items, at)]
                ascending(at, 0, items.len() as int) && c == at_positions(items, at);
            assert forall|a: int| 0 <= a < c.len() implies items.contains(#[trigger] c[a]) by {
                assert(c[a] == items[at[a]]);
            }
        }
    }
}

/// A choice of targets for one target word is of as many as it asks for, all
/// legal.
pub proof fn law_targets_for_a_word(g: GameModel, spec: Filter, ctx: CtxModel, k: int, a: int)
    requires
        0 <= k < g.spec_choices(spec, ctx).len(),
        0 <= a < g.spec_choices(spec, ctx)[k].len(),
    ensures
        ({
            let c = g.spec_choices(spec, ctx)[k];
            &&& c.len() >= spec.least()
            &&& spec.most() matches Some(m) ==> c.len() <= m
            &&& g.targets_for(spec.inner(), ctx).contains(c[a])
        }),
{
    let ts = g.targets_for(spec.inner(), ctx);
    let hi = crate::legal::most_targets(spec, ts.len());
    lemma_sizes(ts, spec.least(), (hi - spec.least() + 1) as nat, k);
}

/// Every target of the combination is legal for some target word.
spec fn well_aimed(g: GameModel, specs: Seq<Filter>, ctx: CtxModel, n: nat, c: Seq<Target>) -> bool {
    forall|a: int|
        0 <= a < c.len() ==> exists|i: int|
            0 <= i < n && g.targets_for((#[trigger] specs[i]).inner(), ctx).contains(
                #[trigger] c[a],
            )
}

proof fn lemma_grow_one(
    g: GameModel,
    specs: Seq<Filter>,
    ctx: CtxModel,
    n: nat,
    out: Seq<Seq<Target>>,
    combo: Seq<Target>,
    i: nat,
)
    requires
        0 < n <= specs.len(),
        forall|k: int| 0 <= k < out.len() ==> well_aimed(g, specs, ctx, n, #[trigger] out[k]),
        well_aimed(g, specs, ctx, (n - 1) as nat, combo),
    ensures
        ({
            let all = grow_one(out, combo, g.spec_choices(specs[n - 1], ctx), i);
            forall|k: int| 0 <= k < all.len() ==> well_aimed(g, specs, ctx, n, #[trigger] all[k])
        }),
    decreases g.spec_choices(specs[n - 1], ctx).len() - i,
{
    let sets = g.spec_choices(specs[n - 1], ctx);
    if i < sets.len() && out.len() < crate::suggest::ENUMERATION_CAP {
        let set = sets[i as int];
        if crate::legal::overlap(combo, set) {
            lemma_grow_one(g, specs, ctx, n, out, combo, i + 1);
            assert(grow_one(out, combo, sets, i) == grow_one(out, combo, sets, i + 1));
        } else {
            let c = combo + set;
            assert forall|a: int| 0 <= a < c.len() implies exists|j: int|
                0 <= j < n && g.targets_for((#[trigger] specs[j]).inner(), ctx).contains(
                    #[trigger] c[a],
                ) by {
                if a < combo.len() {
                    assert(c[a] == combo[a]);
                    let j = choose|j: int|
                        0 <= j < n - 1 && g.targets_for((#[trigger] specs[j]).inner(), ctx).contains(
                            combo[a],
                        );
                    assert(0 <= j < n && g.targets_for(specs[j].inner(), ctx).contains(c[a]));
                } else {
                    law_targets_for_a_word(g, specs[n - 1], ctx, i as int, a - combo.len());
                    assert(c[a] == set[a - combo.len()]);
                    assert(g.targets_for(specs[n - 1].inner(), ctx).contains(c[a]));
                }
            }
            assert(well_aimed(g, specs, ctx, n, c));
            lemma_grow_one(g, specs, ctx, n, out.push(c), combo, i + 1);
            assert(grow_one(out, combo, sets, i) == grow_one(out.push(c), combo, sets, i + 1));
        }
    } else {
        assert(grow_one(out, combo, sets, i) == out);
    }
}

proof fn lemma_grow(
    g: GameModel,
    specs: Seq<Filter>,
    ctx: CtxModel,
    n: nat,
    all: Seq<Seq<Target>>,
    m: nat,
)
    requires
        0 < n <= specs.len(),
        m <= all.len(),
        forall|k: int|
            0 <= k < all.len() ==> well_aimed(g, specs, ctx, (n - 1) as nat, #[trigger] all[k]),
    ensures
        ({
            let next = grow(all, g.spec_choices(specs[n - 1], ctx), m);
            forall|k: int| 0 <= k < next.len() ==> well_aimed(g, specs, ctx, n, #[trigger] next[k])
        }),
    decreases m,
{
    if m > 0 {
        lemma_grow(g, specs, ctx, n, all, (m - 1) as nat);
        lemma_grow_one(
            g,
            specs,
            ctx,
            n,
            grow(all, g.spec_choices(specs[n - 1], ctx), (m - 1) as nat),
            all[m - 1],
            0,
        );
    }
}

proof fn lemma_combos(g: GameModel, specs: Seq<Filter>, ctx: CtxModel, n: nat)
    requires
        n <= specs.len(),
    ensures
        g.target_combos_n(specs, ctx, n) matches Some(all) ==> forall|k: int|
            0 <= k < all.len() ==> well_aimed(g, specs, ctx, n, #[trigger] all[k]),
    decreases n,
{
    if n > 0 {
        lemma_combos(g, specs, ctx, (n - 1) as nat);
        if let Some(all) = g.target_combos_n(specs, ctx, (n - 1) as nat) {
            lemma_grow(g, specs, ctx, n, all, all.len());
        }
    }
}

/// Whatever targets a spell or ability may be cast or activated with, each is a
/// legal target for one of its target words.
pub proof fn law_offered_combinations_are_legal(
    g: GameModel,
    specs: Seq<Filter>,
    ctx: CtxModel,
    k: int,
    a: int,
)
    requires
        g.target_combos(specs, ctx) is Some,
        0 <= k < g.target_combos(specs, ctx)->0.len(),
        0 <= a < g.target_combos(specs, ctx)->0[k].len(),
    ensures
        exists|i: int|
            0 <= i < specs.len() && g.targets_for((#[trigger] specs[i]).inner(), ctx).contains(
                g.target_combos(specs, ctx)->0[k][a],
            ),
{
    lemma_combos(g, specs, ctx, specs.len());
    let c = g.target_combos(specs, ctx)->0[k];
    assert(well_aimed(g, specs, ctx, specs.len(), c));
    let t = c[a];
}

// ----- what is accepted -----

/// Once the game is over nothing is accepted, and before that only what whoever
/// must act does, but for conceding; every player in the game may always concede.
pub proof fn law_who_may_act(g: GameModel, s: Seat, a: ActionModel)
    ensures
        g.outcome is Some ==> g.apply(s, a) is Err,
        g.outcome is None && !(a is Concede) && !(g.acting() matches Some((t, _)) && t == s)
            ==> g.apply(s, a) == Err::<GameModel, crate::error::ErrorModel>(
            crate::error::ErrorModel::NotYourTurnToAct { seat: s },
        ),
        g.outcome is None && g.has_seat(s) ==> (g.refusal(s, ActionModel::Concede) is None
            <==> g.player(s).eliminated is None),
        g.outcome is None && !g.has_seat(s) ==> g.refusal(s, ActionModel::Concede) is Some,
{
    reveal(GameModel::apply);
}

/// A land is accepted only when it may be played.
pub proof fn law_lands_are_refused_out_of_turn(g: GameModel, s: Seat, id: ObjectId)
    requires
        g.free_to_act(s),
        g.refusal(s, ActionModel::PlayLand { object: id }) is None,
    ensures
        g.player(s).hand.contains(id),
        g.has_def(id),
        g.def(id).types.contains(CardType::Land),
        g.main_phase_of(s),
        g.player(s).lands_played_this_turn == 0,
{
    let a = ActionModel::PlayLand { object: id };
    let acts = g.legal(s);
    if crate::play::lists(acts, a) {
        let i = choose|i: int|
            0 <= i < acts.len() && (#[trigger] acts[i]).canonical() == a.canonical();
        assert(acts[i] == a);
        assert(acts.contains(a));
    }
    law_when_lands_may_be_played(g, s, id);
}

/// A spell is accepted only when it may be cast, whatever it is paid with.
pub proof fn law_spells_are_refused_out_of_turn(
    g: GameModel,
    s: Seat,
    id: ObjectId,
    targets: Seq<Target>,
    payment: PaymentModel,
)
    requires
        g.free_to_act(s),
        g.refusal(s, ActionModel::CastSpell { object: id, targets, payment }) is None,
    ensures
        g.player(s).hand.contains(id),
        g.has_def(id),
        !g.def(id).types.contains(CardType::Land),
        g.main_phase_of(s) || g.def(id).types.contains(CardType::Instant) || g.def(
            id,
        ).keywords.contains(Keyword::Flash),
{
    let a = ActionModel::CastSpell { object: id, targets, payment };
    let acts = g.legal(s);
    let i = if crate::play::lists(acts, a) {
        choose|i: int| 0 <= i < acts.len() && (#[trigger] acts[i]).canonical() == a.canonical()
    } else {
        choose|i: int| 0 <= i < acts.len() && (#[trigger] acts[i]).twin(a)
    };
    let b = acts[i];
    assert(b is CastSpell && b->CastSpell_object == id);
    assert(acts.contains(b));
    law_when_spells_may_be_cast(g, s, id, b->CastSpell_targets, b->CastSpell_payment);
}

/// An accepted action does just what it says before the game moves on.
pub proof fn law_actions_do_what_they_say(
    g: GameModel,
    s: Seat,
    id: ObjectId,
    xs: Seq<(ObjectId, crate::action::AttackTarget)>,
    bs: Seq<(ObjectId, ObjectId)>,
    keep: bool,
)
    ensures
        g.perform(s, ActionModel::PassPriority) == Ok::<GameModel, crate::error::ErrorModel>(
            g.pass_priority(s),
        ),
        g.perform(s, ActionModel::PlayLand { object: id }) == Ok::<
            GameModel,
            crate::error::ErrorModel,
        >(g.play_land(s, id)),
        g.perform(s, ActionModel::DeclareAttackers { attackers: xs }) == Ok::<
            GameModel,
            crate::error::ErrorModel,
        >(g.declare_attackers(s, xs)),
        g.perform(s, ActionModel::DeclareBlockers { blocks: bs }) == Ok::<
            GameModel,
            crate::error::ErrorModel,
        >(g.declare_blockers(s, bs)),
        g.perform(s, ActionModel::Mulligan { keep }) == Ok::<GameModel, crate::error::ErrorModel>(
            if keep {
                g.keep_hand(s)
            } else {
                g.take_mulligan(s)
            },
        ),
{
    reveal(GameModel::perform);
    reveal(GameModel::mulligan);
}

// ----- which target is for which word -----

proof fn lemma_single_groups(specs: Seq<Filter>, m: nat, n: nat)
    requires
        n <= specs.len(),
        m == specs.len(),
        forall|i: int| 0 <= i < specs.len() ==> !((#[trigger] specs[i]) is Targets),
    ensures
        fixed_targets(specs, n) == n,
        group_start(specs, m, n) == n,
    decreases n,
{
    if n > 0 {
        lemma_single_groups(specs, m, (n - 1) as nat);
        assert(!(specs[n - 1] is Targets));
    }
}

/// Where every target word is for one target, the targets chosen are for the
/// words in order.
pub proof fn law_targets_are_for_the_words_in_order(
    specs: Seq<Filter>,
    targets: Seq<Target>,
    i: int,
)
    requires
        targets.len() == specs.len(),
        forall|k: int| 0 <= k < specs.len() ==> !((#[trigger] specs[k]) is Targets),
        0 <= i < specs.len(),
    ensures
        groups_of(specs, targets).len() == specs.len(),
        groups_of(specs, targets)[i] == seq![targets[i]],
{
    lemma_single_groups(specs, specs.len(), i as nat);
    lemma_single_groups(specs, specs.len(), (i + 1) as nat);
    assert(targets.subrange(i, i + 1) =~= seq![targets[i]]);
}

// ----- casting and activating -----

/// A spell that needs no further choices is cast exactly if its payment covers
/// what it costs, and then is on top of the stack.
pub proof fn law_casting(
    g: GameModel,
    s: Seat,
    id: ObjectId,
    targets: Seq<Target>,
    payment: PaymentModel,
)
    ensures
        g.cast_spell(s, id, targets, payment) is Ok <==> g.covering(
            s,
            payment,
            g.cast_cost(s, id).announced(payment.x),
        ) is Ok,
        g.cast_spell(s, id, targets, payment) matches Ok(h) ==> ({
            let cost = g.cast_cost(s, id).announced(payment.x);
            let paid = g.pay(s, payment, cost, g.covering(s, payment, cost)->Ok_0);
            !(paid.has_def(id) && paid.def(id).two_step()) ==> h == paid.put_on_stack(
                s,
                id,
                Seq::empty(),
                targets,
                payment.x,
            )
        }),
{
    reveal(GameModel::cast_spell);
}

/// An ability is activated only if every cost of it is paid, in order: if any
/// cannot be, nothing comes of it.
pub proof fn law_every_cost_is_paid(
    g: GameModel,
    s: Seat,
    id: ObjectId,
    payment: PaymentModel,
    a: Cost,
    b: Cost,
)
    ensures
        g.pay_costs(s, id, payment, seq![a, b], 2) == (match g.pay_cost(s, id, payment, a) {
            Ok(h) => h.pay_cost(s, id, payment, b),
            Err(e) => Err(e),
        }),
{
    reveal_with_fuel(GameModel::pay_costs, 3);
    assert(seq![a, b][0] == a && seq![a, b][1] == b);
}

proof fn lemma_first_sacrifice(
    g: GameModel,
    ids: Seq<ObjectId>,
    s: Seat,
    source: ObjectId,
    filter: &Filter,
    i: nat,
)
    ensures
        match g.first_sacrifice(ids, s, source, *filter, i) {
            Some(id) => g.sacrificeable(id, s, source, *filter) && exists|k: int|
                i <= k < ids.len() && #[trigger] ids[k] == id,
            None => forall|k: int|
                i <= k < ids.len() ==> !g.sacrificeable(#[trigger] ids[k], s, source, *filter),
        },
    decreases ids.len() - i,
{
    if i < ids.len() {
        lemma_first_sacrifice(g, ids, s, source, filter, i + 1);
        if let Some(id) = g.first_sacrifice(ids, s, source, *filter, i) {
            if !g.sacrificeable(ids[i as int], s, source, *filter) {
                let k = choose|k: int| i + 1 <= k < ids.len() && #[trigger] ids[k] == id;
                assert(i <= k < ids.len() && ids[k] == id);
            } else {
                assert(ids[i as int] == id);
            }
        }
    }
}

/// "Sacrifice a creature" is paid if and only if the payment names something the
/// player controls on the battlefield that matches.
pub proof fn law_sacrifice_costs(
    g: GameModel,
    s: Seat,
    id: ObjectId,
    payment: PaymentModel,
    filter: Filter,
)
    ensures
        g.pay_cost(s, id, payment, Cost::Sacrifice(filter)) is Ok <==> exists|k: int|
            0 <= k < payment.sacrifice.len() && g.has_obj(#[trigger] payment.sacrifice[k]) && g.obj(
                payment.sacrifice[k],
            ).zone is Battlefield && g.obj(payment.sacrifice[k]).controller == s
                && g.object_matches(
                payment.sacrifice[k],
                filter,
                CtxModel::simple(s, Some(id)),
            ),
{
    let ids = payment.sacrifice;
    lemma_first_sacrifice(g, ids, s, id, &filter, 0);
    if let Some(x) = g.first_sacrifice(ids, s, id, filter, 0) {
        let k = choose|k: int| 0 <= k < ids.len() && #[trigger] ids[k] == x;
        assert(g.sacrificeable(ids[k], s, id, filter));
    } else if exists|k: int|
        0 <= k < ids.len() && g.has_obj(#[trigger] ids[k]) && g.obj(ids[k]).zone is Battlefield
            && g.obj(ids[k]).controller == s && g.object_matches(
            ids[k],
            filter,
            CtxModel::simple(s, Some(id)),
        ) {
        let k = choose|k: int|
            0 <= k < ids.len() && g.has_obj(#[trigger] ids[k]) && g.obj(ids[k]).zone is Battlefield
                && g.obj(ids[k]).controller == s && g.object_matches(
                ids[k],
                filter,
                CtxModel::simple(s, Some(id)),
            );
        assert(g.sacrificeable(ids[k], s, id, filter));
    }
}

// ----- auras and modes -----

/// An aura enters the battlefield attached to what it was cast on; anything else
/// attached to nothing.
pub proof fn law_auras_are_attached(
    g: GameModel,
    id: ObjectId,
    s: Seat,
    targets: Seq<Target>,
    to: ObjectId,
)
    requires
        g.has_def(id),
        g.has_seat(s),
        g.obj(id).zone is Stack,
    ensures
        ({
            let h = g.spell_enters(id, s, targets);
            &&& h.obj(id).zone is Battlefield
            &&& h.obj(id).controller == s
            &&& h.obj(id).summoning_sick
            &&& g.def(id).aura() && targets.len() > 0 && targets[0] == Target::Object(to)
                ==> h.obj(id).attached_to == Some(to)
            &&& !g.def(id).aura() ==> h.obj(id).attached_to is None
        }),
{
    let a = g.with_obj(id, ObjectModel { controller: s, ..g.obj(id) });
    crate::sound::lemma_moved(a, id, Zone::Battlefield);
    let e = g.enter_under(id, s);
    assert(e.obj(id).zone is Battlefield);
}

/// A modal spell does what the chosen modes say, in the order they were chosen,
/// each with the targets chosen for it.
pub proof fn law_modes_are_done_in_order(
    modes: Seq<Mode>,
    a: u8,
    b: u8,
    groups: Seq<Seq<Target>>,
)
    requires
        a < modes.len(),
        b < modes.len(),
        modes[a as int].targets@.len() + modes[b as int].targets@.len() == groups.len(),
    ensures
        ({
            let work = crate::resolve::mode_work(modes, seq![a, b], groups, 2);
            let k = modes[a as int].targets@.len() as int;
            &&& work.len() == 4
            &&& work[0] == (FrameModel::Targets { groups: groups.subrange(0, k) })
            &&& work[1] == (FrameModel::Effects { effects: modes[a as int].effects@, next: 0 })
            &&& work[2] == (FrameModel::Targets {
                groups: groups.subrange(k, groups.len() as int),
            })
            &&& work[3] == (FrameModel::Effects { effects: modes[b as int].effects@, next: 0 })
        }),
{
    reveal_with_fuel(crate::resolve::mode_work, 3);
    reveal_with_fuel(crate::resolve::mode_spec_count, 3);
    let chosen = seq![a, b];
    assert(chosen[0] == a && chosen[1] == b);
    let k = modes[a as int].targets@.len();
    let m = modes[b as int].targets@.len();
    assert(crate::resolve::group_slice(groups, 0, k) =~= groups.subrange(0, k as int));
    assert(crate::resolve::group_slice(groups, k, m) =~= groups.subrange(
        k as int,
        groups.len() as int,
    ));
}

/// A discard is paid only with as many cards as it asks for.
pub proof fn law_discard_costs(
    g: GameModel,
    s: Seat,
    id: ObjectId,
    payment: PaymentModel,
    n: i32,
)
    ensures
        payment.discard.len() < n ==> g.pay_cost(s, id, payment, Cost::Discard(n)) is Err,
        n <= 0 ==> g.pay_cost(s, id, payment, Cost::Discard(n)) is Ok,
        (forall|k: int| 0 <= k < payment.discard.len() ==> !g.hand(s).contains(
            #[trigger] payment.discard[k],
        )) && n > 0 ==> g.pay_cost(s, id, payment, Cost::Discard(n)) is Err,
{
    lemma_discarded(g, s, payment.discard, n, payment.discard.len());
}

proof fn lemma_discarded(g: GameModel, s: Seat, ids: Seq<ObjectId>, most: i32, n: nat)
    requires
        n <= ids.len(),
    ensures
        g.discard_upto(s, ids, most, n).1 <= n,
        (forall|k: int| 0 <= k < ids.len() ==> !g.hand(s).contains(#[trigger] ids[k]))
            ==> g.discard_upto(s, ids, most, n) == (g, 0nat),
    decreases n,
{
    if n > 0 {
        lemma_discarded(g, s, ids, most, (n - 1) as nat);
        assert(g.hand(s).contains(ids[n - 1]) || !g.hand(s).contains(ids[n - 1]));
    }
}

} // verus!
