//! The card of a cast in progress can always go on the stack, and what a
//! player plays, casts or puts away is in their hand.
use crate::action::{ActionModel, PaymentModel, Target, EQUIP_ABILITY};
use crate::combos::{ascending, at_positions, combos, law_combos_are_choices};
use crate::event::{Elimination, EventModel};
use crate::hidden::idle_answers;
use crate::keeping::{keep_collect_triggers, keep_lapse, keep_perform, keep_place_triggers, keep_state_based_actions, keep_step_forward};
use crate::legal::{activation_list, bottom_list, cast_list, list_capped};
use crate::play::{lists, lists_twin};
use crate::seqs::{law_sort_permutes, lemma_sort_distinct, lemma_sort_members, sort, without};
use crate::sound::lemma_zone_after;
use crate::state::{CtxModel, GameModel, PendingModel, PlayerModel};
use crate::turn::MOST_NOTCHES;
use crate::types::{ObjectId, Seat, Zone};
use vstd::prelude::*;

verus! {

// ----- what state-based actions move -----

impl GameModel {
    /// Objects stay where they are, or go to a graveyard or out of the game.
    pub open spec fn only_sheds(self, h: GameModel) -> bool {
        &&& h.objects.len() == self.objects.len()
        &&& forall|id: ObjectId|
            #![trigger h.obj(id)]
            self.has_obj(id) ==> h.obj(id).owner == self.obj(id).owner && (h.obj(id).zone
                == self.obj(id).zone || h.obj(id).zone is Graveyard || h.obj(id).zone is OutOfGame)
    }
}

proof fn lemma_sheds_on(a: GameModel, b: GameModel, c: GameModel)
    requires
        a.only_sheds(b),
        b.only_sheds(c),
    ensures
        a.only_sheds(c),
{
    assert forall|id: ObjectId| #![trigger c.obj(id)] a.has_obj(id) implies c.obj(id).owner
        == a.obj(id).owner && (c.obj(id).zone == a.obj(id).zone || c.obj(id).zone is Graveyard
        || c.obj(id).zone is OutOfGame) by {
        assert(b.obj(id).owner == a.obj(id).owner);
    }
}

proof fn lemma_sheds_moved(g: GameModel, id: ObjectId, to: Zone)
    requires
        to is Graveyard || to is OutOfGame,
    ensures
        g.only_sheds(g.move_object(id, to)),
{
    lemma_zone_after(g, id, to);
}

proof fn lemma_sheds_all(g: GameModel, ids: Seq<ObjectId>, n: nat)
    ensures
        g.only_sheds(g.move_all(ids, Zone::OutOfGame, n)),
    decreases n,
{
    if n > 0 && n <= ids.len() {
        lemma_sheds_all(g, ids, (n - 1) as nat);
        let p = g.move_all(ids, Zone::OutOfGame, (n - 1) as nat);
        lemma_sheds_moved(p, ids[n - 1], Zone::OutOfGame);
        lemma_sheds_on(g, p, g.move_all(ids, Zone::OutOfGame, n));
    }
}

proof fn lemma_sheds_eliminate(g: GameModel, seat: Seat, reason: Elimination)
    ensures
        g.only_sheds(g.eliminate(seat, reason)),
{
    reveal(GameModel::eliminate);
    if g.has_seat(seat) && !g.out(seat) {
        let g1 = GameModel {
            turn_order: without(g.turn_order, seat),
            ..g.with_player(
                seat,
                PlayerModel { eliminated: Some(reason), ..g.player(seat) },
            ).emit(EventModel::Eliminated { seat, reason })
        };
        let owned = g1.owned_by(seat, g1.objects.len());
        lemma_sheds_all(g1, owned, owned.len());
        let g2 = g1.move_all(owned, Zone::OutOfGame, owned.len());
        let h = g.eliminate(seat, reason);
        assert(h.objects == g.strip(seat, reason).objects);
        assert forall|id: ObjectId| #![trigger h.obj(id)] g.has_obj(id) implies h.obj(id).owner
            == g.obj(id).owner && (h.obj(id).zone == g.obj(id).zone || h.obj(id).zone is Graveyard
            || h.obj(id).zone is OutOfGame) by {
            assert(g1.obj(id) == g.obj(id));
            assert(g2.obj(id).owner == g1.obj(id).owner);
            assert(h.objects[id.0 - 1] == g2.objects[id.0 - 1].not_attacking(seat));
        }
    }
}

proof fn lemma_sheds_losers(g: GameModel, seats: Seq<Seat>, n: nat)
    ensures
        g.only_sheds(g.losers_leave(seats, n).0),
    decreases n,
{
    if n > 0 && n <= seats.len() {
        lemma_sheds_losers(g, seats, (n - 1) as nat);
        let p = g.losers_leave(seats, (n - 1) as nat).0;
        if let Some(reason) = p.losing(seats[n - 1]) {
            lemma_sheds_eliminate(p, seats[n - 1], reason);
            lemma_sheds_on(g, p, p.eliminate(seats[n - 1], reason));
        }
    }
}

proof fn lemma_sheds_counters(g: GameModel, ids: Seq<ObjectId>, n: nat)
    ensures
        g.only_sheds(g.counters_cancel(ids, n).0),
    decreases n,
{
    if n > 0 && n <= ids.len() {
        lemma_sheds_counters(g, ids, (n - 1) as nat);
        let p = g.counters_cancel(ids, (n - 1) as nat).0;
        lemma_sheds_on(g, p, g.counters_cancel(ids, n).0);
    }
}

proof fn lemma_sheds_dying(g: GameModel, ids: Seq<ObjectId>, n: nat)
    ensures
        g.only_sheds(g.dying_die(ids, n).0),
    decreases n,
{
    if n > 0 && n <= ids.len() {
        lemma_sheds_dying(g, ids, (n - 1) as nat);
        let p = g.dying_die(ids, (n - 1) as nat).0;
        lemma_sheds_moved(p, ids[n - 1], Zone::Graveyard);
        lemma_sheds_on(g, p, g.dying_die(ids, n).0);
    }
}

proof fn lemma_sheds_attachments(g: GameModel, ids: Seq<ObjectId>, n: nat)
    ensures
        g.only_sheds(g.attachments_fall(ids, n).0),
    decreases n,
{
    if n > 0 && n <= ids.len() {
        lemma_sheds_attachments(g, ids, (n - 1) as nat);
        let p = g.attachments_fall(ids, (n - 1) as nat).0;
        lemma_sheds_moved(p, ids[n - 1], Zone::Graveyard);
        lemma_sheds_on(g, p, g.attachments_fall(ids, n).0);
    }
}

proof fn lemma_sheds_tokens(g: GameModel, n: nat)
    ensures
        g.only_sheds(g.tokens_cease(n).0),
    decreases n,
{
    if n > 0 && n <= g.objects.len() {
        lemma_sheds_tokens(g, (n - 1) as nat);
        let p = g.tokens_cease((n - 1) as nat).0;
        lemma_sheds_moved(p, ObjectId(n as u32), Zone::OutOfGame);
        lemma_sheds_on(g, p, g.tokens_cease(n).0);
    }
}

proof fn lemma_sheds_passes(g: GameModel, fuel: nat)
    ensures
        g.only_sheds(g.sba_passes(fuel)),
    decreases fuel,
{
    if fuel > 0 {
        let g1 = g.losers_leave(g.turn_order, g.turn_order.len()).0;
        let ids = g1.on_battlefield();
        let g2 = g1.counters_cancel(ids, ids.len()).0;
        let g3 = g2.dying_die(ids, ids.len()).0;
        let g4 = g3.attachments_fall(ids, ids.len()).0;
        let g5 = g4.tokens_cease(g4.objects.len()).0;
        lemma_sheds_losers(g, g.turn_order, g.turn_order.len());
        lemma_sheds_counters(g1, ids, ids.len());
        lemma_sheds_dying(g2, ids, ids.len());
        lemma_sheds_attachments(g3, ids, ids.len());
        lemma_sheds_tokens(g4, g4.objects.len());
        lemma_sheds_on(g, g1, g2);
        lemma_sheds_on(g, g2, g3);
        lemma_sheds_on(g, g3, g4);
        lemma_sheds_on(g, g4, g5);
        if g.sba_pass().1 {
            lemma_sheds_passes(g5, (fuel - 1) as nat);
            lemma_sheds_on(g, g5, g5.sba_passes((fuel - 1) as nat));
        }
    }
}

// ----- a cast in progress -----

/// What only sheds objects leaves the card of a cast where it can be cast.
proof fn lemma_still_castable(g: GameModel, h: GameModel)
    requires
        g.casts_its_own(),
        g.only_sheds(h),
        g.leads_to(h),
    ensures
        h.casts_its_own(),
{
    reveal(GameModel::leads_to);
    if let Some((seat, object)) = h.casting() {
        assert(h.obj(object).owner == g.obj(object).owner);
    }
}

proof fn lemma_settle_casts(g: GameModel, fuel: nat)
    requires
        g.casts_its_own(),
    ensures
        g.settle_within(fuel).casts_its_own(),
    decreases fuel,
{
    if g.outcome is None {
        let t = g.check_state_based_actions();
        lemma_sheds_passes(g, g.sba_fuel());
        assert(t.objects == g.sba_passes(g.sba_fuel()).objects);
        assert(g.only_sheds(t)) by {
            let s = g.sba_passes(g.sba_fuel());
            assert forall|id: ObjectId| #![trigger t.obj(id)] g.has_obj(id) implies t.obj(id).owner
                == g.obj(id).owner && (t.obj(id).zone == g.obj(id).zone || t.obj(
                id,
            ).zone is Graveyard || t.obj(id).zone is OutOfGame) by {
                assert(s.obj(id).owner == g.obj(id).owner);
            }
        }
        keep_state_based_actions(g);
        lemma_still_castable(g, t);
        let h = g.tidy();
        assert(h.casts_its_own() && (h.pending is None || t.pending is None || h == t)) by {
            reveal(GameModel::tidy);
            if !(t.outcome is Some || t.pending is Some) {
                keep_collect_triggers(t);
                keep_place_triggers(t.collect_triggers());
                reveal(GameModel::keeps);
                reveal(GameModel::leads_to);
            }
        }
        if h.outcome is Some || fuel == 0 {
        } else if h.moot() {
            let k = h.lapse();
            assert(k.casting() is None) by {
                keep_lapse(h);
                reveal(GameModel::keeps);
                reveal(GameModel::leads_to);
            }
            if k.pending is None {
                lemma_settle_casts(k, (fuel - 1) as nat);
            }
        } else if h.pending is None && h.priority is None {
            let k = h.step_forward();
            keep_step_forward(h);
            assert(k.casting() is None) by {
                reveal(GameModel::leads_to);
            }
            lemma_settle_casts(k, (fuel - 1) as nat);
        }
    }
}

/// A game that settles on a cast in progress has its card at hand.
pub proof fn lemma_settled_casts(g: GameModel)
    requires
        g.casts_its_own(),
    ensures
        g.settle().casts_its_own(),
{
    reveal(GameModel::settle);
    lemma_settle_casts(g, MOST_NOTCHES as nat);
}

/// So has a game in which something was done.
pub proof fn lemma_performed_casts(g: GameModel, seat: Seat, a: ActionModel)
    requires
        g.sound(),
        g.plays_fairly(seat, a),
        g.in_hand_for(seat, a),
        g.perform(seat, a) is Ok,
    ensures
        g.perform(seat, a)->Ok_0.casts_its_own(),
{
    keep_perform(g, seat, a);
    if a is Concede {
        reveal(GameModel::perform);
        lemma_sheds_eliminate(g, seat, Elimination::Conceded);
        lemma_still_castable(g, g.eliminate(seat, Elimination::Conceded));
    }
}

// ----- what is listed -----

spec fn all_in_hand(g: GameModel, seat: Seat, acts: Seq<ActionModel>) -> bool {
    forall|k: int| 0 <= k < acts.len() ==> g.in_hand_for(seat, #[trigger] acts[k])
}

proof fn lemma_in_hand_add(g: GameModel, seat: Seat, a: Seq<ActionModel>, b: Seq<ActionModel>)
    requires
        all_in_hand(g, seat, a),
        all_in_hand(g, seat, b),
    ensures
        all_in_hand(g, seat, a + b),
{
    assert forall|k: int| 0 <= k < (a + b).len() implies g.in_hand_for(
        seat,
        #[trigger] (a + b)[k],
    ) by {
        if k < a.len() {
            assert((a + b)[k] == a[k]);
        } else {
            assert((a + b)[k] == b[k - a.len()]);
        }
    }
}

proof fn lemma_lands_in_hand(g: GameModel, seat: Seat, ids: Seq<ObjectId>, n: nat)
    requires
        g.pending is None,
        forall|k: int| 0 <= k < ids.len() ==> g.holds(seat, #[trigger] ids[k]),
    ensures
        all_in_hand(g, seat, g.land_plays(ids, n)),
    decreases n,
{
    if n > 0 && n <= ids.len() {
        lemma_lands_in_hand(g, seat, ids, (n - 1) as nat);
        assert(g.holds(seat, ids[n - 1]));
    }
}

proof fn lemma_cast_list_in_hand(
    g: GameModel,
    seat: Seat,
    id: ObjectId,
    all: Seq<Seq<Target>>,
    ps: Seq<PaymentModel>,
    n: nat,
)
    requires
        g.pending is None,
        g.holds(seat, id),
    ensures
        all_in_hand(g, seat, cast_list(id, all, ps, n)),
    decreases n,
{
    if n > 0 && n <= all.len() {
        lemma_cast_list_in_hand(g, seat, id, all, ps, (n - 1) as nat);
        let more = Seq::new(
            ps.len(),
            |i: int| ActionModel::CastSpell { object: id, targets: all[n - 1], payment: ps[i] },
        );
        lemma_in_hand_add(g, seat, cast_list(id, all, ps, (n - 1) as nat), more);
    }
}

proof fn lemma_casts_in_hand(g: GameModel, seat: Seat, ids: Seq<ObjectId>, n: nat)
    requires
        g.pending is None,
        forall|k: int| 0 <= k < ids.len() ==> g.holds(seat, #[trigger] ids[k]),
    ensures
        all_in_hand(g, seat, g.casts(seat, ids, n)),
    decreases n,
{
    if n > 0 && n <= ids.len() {
        lemma_casts_in_hand(g, seat, ids, (n - 1) as nat);
        let id = ids[n - 1];
        assert(g.holds(seat, id));
        let ps = g.payments(seat, g.cast_cost(seat, id).announced(0));
        lemma_cast_list_in_hand(g, seat, id, seq![Seq::empty()], ps, 1);
        if let Some(all) = g.target_combos(
            g.def(id).spell_specs(),
            CtxModel::simple(seat, Some(id)),
        ) {
            lemma_cast_list_in_hand(g, seat, id, all, ps, all.len());
        }
        lemma_in_hand_add(g, seat, g.casts(seat, ids, (n - 1) as nat), g.casts_of(seat, id));
    }
}

/// Nothing but activations.
pub open spec fn activates(acts: Seq<ActionModel>) -> bool {
    forall|k: int| 0 <= k < acts.len() ==> (#[trigger] acts[k]) is ActivateAbility
}

proof fn lemma_activates_add(a: Seq<ActionModel>, b: Seq<ActionModel>)
    requires
        activates(a),
        activates(b),
    ensures
        activates(a + b),
{
    assert forall|k: int| 0 <= k < (a + b).len() implies (
    #[trigger] (a + b)[k]) is ActivateAbility by {
        if k < a.len() {
            assert((a + b)[k] == a[k]);
        } else {
            assert((a + b)[k] == b[k - a.len()]);
        }
    }
}

proof fn lemma_activation_list(
    object: ObjectId,
    ability: u8,
    all: Seq<Seq<Target>>,
    ps: Seq<PaymentModel>,
    n: nat,
)
    ensures
        activates(activation_list(object, ability, all, ps, n)),
    decreases n,
{
    if n > 0 && n <= all.len() {
        lemma_activation_list(object, ability, all, ps, (n - 1) as nat);
        lemma_activates_add(
            activation_list(object, ability, all, ps, (n - 1) as nat),
            Seq::new(
                ps.len(),
                |i: int| ActionModel::ActivateAbility {
                    object,
                    ability,
                    targets: all[n - 1],
                    payment: ps[i],
                },
            ),
        );
    }
}

proof fn lemma_capped_activates(list: (Seq<ActionModel>, bool), more: Seq<ActionModel>, n: nat)
    requires
        activates(list.0),
        activates(more),
    ensures
        activates(list_capped(list, more, n).0),
    decreases n,
{
    if n > 0 && n <= more.len() {
        lemma_capped_activates(list, more, (n - 1) as nat);
    }
}

proof fn lemma_abilities_activate(
    g: GameModel,
    list: (Seq<ActionModel>, bool),
    seat: Seat,
    id: ObjectId,
    n: nat,
)
    requires
        activates(list.0),
    ensures
        activates(g.with_abilities(list, seat, id, n).0),
    decreases n,
{
    let abilities = g.def(id).activated;
    if n > 0 && n <= abilities.len() {
        lemma_abilities_activate(g, list, seat, id, (n - 1) as nat);
        let ability = abilities[n - 1];
        let more = g.activations(seat, id, (n - 1) as nat, ability);
        let costs = ability.cost@;
        if let Some(ps) = g.ability_payments(seat, id, costs, costs.len()) {
            if let Some(all) = g.target_combos(
                ability.targets@,
                CtxModel::simple(seat, Some(id)),
            ) {
                lemma_activation_list(
                    id,
                    (n - 1) as u8,
                    all,
                    g.working(seat, id, costs, ps, ps.len()),
                    all.len(),
                );
            }
        }
        lemma_capped_activates(
            g.with_abilities(list, seat, id, (n - 1) as nat),
            more,
            more.len(),
        );
    }
}

pub proof fn lemma_list_activates(g: GameModel, seat: Seat, ids: Seq<ObjectId>, n: nat)
    ensures
        activates(g.ability_list(seat, ids, n).0),
    decreases n,
{
    if n > 0 && n <= ids.len() {
        lemma_list_activates(g, seat, ids, (n - 1) as nat);
        let id = ids[n - 1];
        let before = g.ability_list(seat, ids, (n - 1) as nat);
        if g.has_def(id) {
            lemma_abilities_activate(g, before, seat, id, g.def(id).activated.len());
            let held = g.battlefield(seat);
            let all = g.bearers(id, held, held.len());
            if g.def(id).equip is Some {
                lemma_activation_list(
                    id,
                    EQUIP_ABILITY,
                    all,
                    g.payments(seat, g.def(id).equip->0.announced(0)),
                    all.len(),
                );
            }
            lemma_activates_add(
                g.with_abilities(before, seat, id, g.def(id).activated.len()).0,
                g.equips(seat, id),
            );
        }
    }
}

/// Nothing on the list is a concession.
spec fn plays_on(acts: Seq<ActionModel>) -> bool {
    forall|k: int| 0 <= k < acts.len() ==> (#[trigger] acts[k]) != ActionModel::Concede
}

proof fn lemma_plays_on_add(a: Seq<ActionModel>, b: Seq<ActionModel>)
    requires
        plays_on(a),
        plays_on(b),
    ensures
        plays_on(a + b),
{
    assert forall|k: int| 0 <= k < (a + b).len() implies (#[trigger] (a + b)[k])
        != ActionModel::Concede by {
        if k < a.len() {
            assert((a + b)[k] == a[k]);
        } else {
            assert((a + b)[k] == b[k - a.len()]);
        }
    }
}

proof fn lemma_lands_play_on(g: GameModel, ids: Seq<ObjectId>, n: nat)
    ensures
        plays_on(g.land_plays(ids, n)),
    decreases n,
{
    if n > 0 && n <= ids.len() {
        lemma_lands_play_on(g, ids, (n - 1) as nat);
    }
}

proof fn lemma_cast_list_plays_on(
    id: ObjectId,
    all: Seq<Seq<Target>>,
    ps: Seq<PaymentModel>,
    n: nat,
)
    ensures
        plays_on(cast_list(id, all, ps, n)),
    decreases n,
{
    if n > 0 && n <= all.len() {
        lemma_cast_list_plays_on(id, all, ps, (n - 1) as nat);
        lemma_plays_on_add(
            cast_list(id, all, ps, (n - 1) as nat),
            Seq::new(
                ps.len(),
                |i: int| ActionModel::CastSpell { object: id, targets: all[n - 1], payment: ps[i] },
            ),
        );
    }
}

proof fn lemma_casts_play_on(g: GameModel, seat: Seat, ids: Seq<ObjectId>, n: nat)
    ensures
        plays_on(g.casts(seat, ids, n)),
    decreases n,
{
    if n > 0 && n <= ids.len() {
        lemma_casts_play_on(g, seat, ids, (n - 1) as nat);
        let id = ids[n - 1];
        let ps = g.payments(seat, g.cast_cost(seat, id).announced(0));
        lemma_cast_list_plays_on(id, seq![Seq::empty()], ps, 1);
        if let Some(all) = g.target_combos(
            g.def(id).spell_specs(),
            CtxModel::simple(seat, Some(id)),
        ) {
            lemma_cast_list_plays_on(id, all, ps, all.len());
        }
        lemma_plays_on_add(g.casts(seat, ids, (n - 1) as nat), g.casts_of(seat, id));
    }
}

/// Whatever else is listed for a seat is no concession.
pub(crate) proof fn lemma_plays_on(g: GameModel, seat: Seat)
    requires
        g.legal(seat).len() > 0,
    ensures
        forall|i: int|
            0 <= i < g.legal(seat).len() - 1 ==> (#[trigger] g.legal(seat)[i])
                != ActionModel::Concede,
{
    if let Some(p) = g.pending {
        let all = g.answers(seat, p);
        if !(p is BottomCards) {
            idle_answers(g, seat, p);
        }
        assert(plays_on(all));
    } else {
        let hand = sort(g.hand(seat));
        let pass = seq![ActionModel::PassPriority];
        let lands = if g.sorcery_timing(seat) && g.has_seat(seat) && g.player(
            seat,
        ).lands_played_this_turn < 1 {
            g.land_plays(hand, hand.len())
        } else {
            Seq::empty()
        };
        lemma_lands_play_on(g, hand, hand.len());
        lemma_casts_play_on(g, seat, hand, hand.len());
        lemma_plays_on_add(pass, lands);
        lemma_plays_on_add(pass + lands, g.casts(seat, hand, hand.len()));
        let ids = sort(g.battlefield(seat)) + sort(g.list(seat, Zone::Graveyard));
        lemma_list_activates(g, seat, ids, ids.len());
        lemma_plays_on_add(
            pass + lands + g.casts(seat, hand, hand.len()),
            g.ability_actions(seat),
        );
        assert(plays_on(g.priority_actions(seat)));
    }
}

/// The cards of a hand are held.
proof fn lemma_hand_held(g: GameModel, seat: Seat)
    requires
        g.sound(),
    ensures
        forall|k: int|
            0 <= k < sort(g.hand(seat)).len() ==> g.holds(seat, #[trigger] sort(g.hand(seat))[k]),
        sort(g.hand(seat)).no_duplicates(),
{
    let hand = sort(g.hand(seat));
    assert(g.list(seat, Zone::Hand).no_duplicates()) by {
        reveal(GameModel::lists_are_sets);
    }
    lemma_sort_distinct(g.hand(seat));
    assert forall|k: int| 0 <= k < hand.len() implies g.holds(seat, #[trigger] hand[k]) by {
        reveal(GameModel::lists_are_true);
        assert(hand.contains(hand[k]));
        lemma_sort_members(g.hand(seat), hand[k]);
        let j = choose|j: int|
            0 <= j < g.list(seat, Zone::Hand).len() && g.list(seat, Zone::Hand)[j] == hand[k];
        assert(g.in_zone(g.list(seat, Zone::Hand)[j], Zone::Hand));
    }
}

proof fn lemma_priority_in_hand(g: GameModel, seat: Seat)
    requires
        g.sound(),
        g.pending is None,
    ensures
        all_in_hand(g, seat, g.priority_actions(seat)),
{
    let hand = sort(g.hand(seat));
    lemma_hand_held(g, seat);
    let pass = seq![ActionModel::PassPriority];
    let lands = if g.sorcery_timing(seat) && g.has_seat(seat) && g.player(
        seat,
    ).lands_played_this_turn < 1 {
        g.land_plays(hand, hand.len())
    } else {
        Seq::empty()
    };
    lemma_lands_in_hand(g, seat, hand, hand.len());
    lemma_casts_in_hand(g, seat, hand, hand.len());
    lemma_in_hand_add(g, seat, pass, lands);
    lemma_in_hand_add(g, seat, pass + lands, g.casts(seat, hand, hand.len()));
    let ids = sort(g.battlefield(seat)) + sort(g.list(seat, Zone::Graveyard));
    lemma_list_activates(g, seat, ids, ids.len());
    lemma_in_hand_add(
        g,
        seat,
        pass + lands + g.casts(seat, hand, hand.len()),
        g.ability_actions(seat),
    );
}

/// A choice of cards from a hand is of different cards of that hand.
proof fn lemma_bottoms_in_hand(g: GameModel, seat: Seat, count: nat)
    requires
        g.sound(),
        g.casting() is None,
    ensures
        all_in_hand(g, seat, bottom_list(combos(sort(g.hand(seat)), 0, count))),
{
    let hand = sort(g.hand(seat));
    lemma_hand_held(g, seat);
    let sets = combos(hand, 0, count);
    assert forall|k: int| 0 <= k < sets.len() implies g.in_hand_for(
        seat,
        #[trigger] bottom_list(sets)[k],
    ) by {
        law_combos_are_choices(hand, 0, count, k);
        let c = sets[k];
        let at = choose|at: Seq<int>|
            #![trigger at_positions(hand, at)]
            ascending(at, 0, hand.len() as int) && c == at_positions(hand, at);
        assert forall|i: int| 0 <= i < c.len() implies g.hand(seat).contains(#[trigger] c[i]) by {
            assert(c[i] == hand[at[i]]);
            assert(hand.contains(hand[at[i]]));
            lemma_sort_members(g.hand(seat), c[i]);
        }
        assert forall|i: int, j: int| 0 <= i < c.len() && 0 <= j < c.len() && i != j implies c[i]
            != c[j] by {
            assert(at[i] != at[j]) by {
                if i < j {
                    assert(at[i] < at[j]);
                } else {
                    assert(at[j] < at[i]);
                }
            }
            assert(c[i] == hand[at[i]] && c[j] == hand[at[j]]);
        }
        assert(c.no_duplicates());
    }
}

proof fn lemma_answers_in_hand(g: GameModel, seat: Seat, p: PendingModel)
    requires
        g.sound(),
        g.pending == Some(p),
        g.casts_its_own(),
    ensures
        all_in_hand(g, seat, g.answers(seat, p)),
{
    let all = g.answers(seat, p);
    match p {
        PendingModel::BottomCards { count, .. } => {
            lemma_bottoms_in_hand(g, seat, count as nat);
        },
        PendingModel::Casting { .. } => {
            assert forall|k: int| 0 <= k < all.len() implies g.in_hand_for(
                seat,
                #[trigger] all[k],
            ) by {
                assert(all[k] is ChooseMode || all[k] is ChooseTargets);
            }
        },
        _ => {
            idle_answers(g, seat, p);
            assert forall|k: int| 0 <= k < all.len() implies g.in_hand_for(
                seat,
                #[trigger] all[k],
            ) by {}
        },
    }
}

/// The same cards in another order are as much in hand.
proof fn lemma_same_cards(g: GameModel, seat: Seat, a: Seq<ObjectId>, b: Seq<ObjectId>)
    requires
        sort(a) == sort(b),
        g.holds_each(seat, a),
    ensures
        g.holds_each(seat, b),
{
    broadcast use vstd::seq_lib::group_to_multiset_ensures;

    law_sort_permutes(a);
    law_sort_permutes(b);
    a.lemma_multiset_has_no_duplicates();
    b.lemma_multiset_has_no_duplicates_conv();
    assert forall|k: int| 0 <= k < b.len() implies g.hand(seat).contains(#[trigger] b[k]) by {
        assert(b.contains(b[k]));
        lemma_sort_members(b, b[k]);
        lemma_sort_members(a, b[k]);
        let j = choose|j: int| 0 <= j < a.len() && a[j] == b[k];
        assert(g.hand(seat).contains(a[j]));
    }
}

/// Whatever action is accepted, the cards that it plays, casts or puts away
/// are in the hand of whoever acts.
pub proof fn lemma_accepted_in_hand(g: GameModel, seat: Seat, a: ActionModel)
    requires
        g.sound(),
        g.casts_its_own(),
        g.refusal(seat, a) is None,
    ensures
        g.in_hand_for(seat, a),
{
    if !(a is Concede) && !a.division() {
        let acts = g.legal(seat);
        let before = match g.pending {
            Some(p) => g.answers(seat, p),
            None => g.priority_actions(seat),
        };
        if let Some(p) = g.pending {
            lemma_answers_in_hand(g, seat, p);
        } else {
            lemma_priority_in_hand(g, seat);
        }
        assert(acts == before.push(ActionModel::Concede));
        assert(lists(acts, a) || lists_twin(acts, a));
        let i = choose|i: int|
            0 <= i < acts.len() && ((#[trigger] acts[i]).canonical() == a.canonical()
                || acts[i].twin(a));
        let x = acts[i];
        assert(0 <= i < acts.len() && (x.canonical() == a.canonical() || x.twin(a))) by {
            if lists(acts, a) {
                let j = choose|j: int|
                    0 <= j < acts.len() && (#[trigger] acts[j]).canonical() == a.canonical();
                assert(acts[j].canonical() == a.canonical());
            } else {
                let j = choose|j: int| 0 <= j < acts.len() && (#[trigger] acts[j]).twin(a);
                assert(acts[j].twin(a));
            }
        }
        if i < before.len() {
            assert(x == before[i]);
            assert(g.in_hand_for(seat, x));
            if let ActionModel::BottomCards { objects } = a {
                assert(x is BottomCards);
                lemma_same_cards(g, seat, x->BottomCards_objects, objects);
            }
        } else {
            assert(x is Concede);
        }
    }
}

} // verus!
