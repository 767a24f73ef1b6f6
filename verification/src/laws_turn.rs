//! Turns and state-based actions, told by what players and permanents look
//! like before and after.
use crate::event::Outcome;
use crate::laws_players::law_cards_are_drawn;
use crate::laws_filter::lemma_zone_ids;
use crate::sba::poison_rule;
use crate::seqs::lemma_find_from;
use crate::settled::law_state_based_actions_come_to_rest;
use crate::state::{Expiry, GameModel, Modifier, ModifierKind, PendingModel};
use crate::turn::{hold_of, lasting, without_modifier};
use crate::types::{Keyword, ObjectId, Phase, Seat, Zone};
use vstd::prelude::*;

verus! {

// ----- state-based actions -----

impl GameModel {
    /// The player has not lost: there is life left, no draw failed, and there
    /// is not too much poison.
    pub open spec fn alive(self, s: Seat) -> bool {
        let p = self.player(s);
        &&& p.life > 0
        &&& !p.drew_from_empty
        &&& p.poison < poison_rule(self.format.rules@, 0)
    }

    /// The permanent may stay as it is: a creature has toughness left beyond
    /// its damage, counters of one kind at most, and an attachment something on
    /// the battlefield to be attached to.
    pub open spec fn stable(self, id: ObjectId) -> bool {
        let o = self.obj(id);
        &&& !(o.counters.plus1 > 0 && o.counters.minus1 > 0)
        &&& self.pt(id) matches Some((_, t)) ==> t > 0 && (self.has_keyword(
            id,
            Keyword::Indestructible,
        ) || (o.damage < t && !o.deathtouch_damaged))
        &&& self.has_def(id) ==> {
            &&& o.attached_to matches Some(to) ==> self.has_obj(to) && self.obj(
                to,
            ).zone is Battlefield
            &&& self.def(id).aura() ==> o.attached_to is Some
        }
    }

    /// Nothing is left for state-based actions to do.
    pub open spec fn at_peace(self) -> bool {
        &&& forall|s: Seat|
            #![trigger self.turn_order.contains(s)]
            self.turn_order.contains(s) && self.has_seat(s) ==> self.alive(s)
        &&& forall|id: ObjectId|
            #![trigger self.obj(id)]
            self.has_obj(id) && self.obj(id).zone is Battlefield ==> self.stable(id)
        &&& forall|id: ObjectId|
            #![trigger self.obj(id)]
            self.has_def(id) && self.def(id).token ==> self.obj(id).zone is Battlefield || self.obj(
                id,
            ).zone is OutOfGame
    }
}

proof fn lemma_losers(g: GameModel, seats: Seq<Seat>, n: nat)
    requires
        n <= seats.len(),
    ensures
        !g.losers_leave(seats, n).1 <==> forall|i: int|
            0 <= i < n ==> g.losing(#[trigger] seats[i]) is None,
        !g.losers_leave(seats, n).1 ==> g.losers_leave(seats, n).0 == g,
    decreases n,
{
    if n > 0 {
        lemma_losers(g, seats, (n - 1) as nat);
    }
}

proof fn lemma_cancel(g: GameModel, ids: Seq<ObjectId>, n: nat)
    requires
        n <= ids.len(),
    ensures
        !g.counters_cancel(ids, n).1 <==> forall|i: int|
            0 <= i < n ==> !(g.has_obj(#[trigger] ids[i]) && g.obj(ids[i]).counters.plus1 > 0
                && g.obj(ids[i]).counters.minus1 > 0),
        !g.counters_cancel(ids, n).1 ==> g.counters_cancel(ids, n).0 == g,
    decreases n,
{
    if n > 0 {
        lemma_cancel(g, ids, (n - 1) as nat);
    }
}

proof fn lemma_dying(g: GameModel, ids: Seq<ObjectId>, n: nat)
    requires
        n <= ids.len(),
    ensures
        !g.dying_die(ids, n).1 <==> forall|i: int| 0 <= i < n ==> !g.dying(#[trigger] ids[i]),
        !g.dying_die(ids, n).1 ==> g.dying_die(ids, n).0 == g,
    decreases n,
{
    if n > 0 {
        lemma_dying(g, ids, (n - 1) as nat);
    }
}

proof fn lemma_fall(g: GameModel, ids: Seq<ObjectId>, n: nat)
    requires
        n <= ids.len(),
    ensures
        !g.attachments_fall(ids, n).1 <==> forall|i: int|
            0 <= i < n ==> !g.in_zone(#[trigger] ids[i], Zone::Battlefield) || !g.has_def(ids[i])
                || g.held(ids[i]) || (!g.def(ids[i]).aura() && g.obj(ids[i]).attached_to is None),
        !g.attachments_fall(ids, n).1 ==> g.attachments_fall(ids, n).0 == g,
    decreases n,
{
    if n > 0 {
        lemma_fall(g, ids, (n - 1) as nat);
    }
}

proof fn lemma_cease(g: GameModel, n: nat)
    requires
        n <= g.objects.len() <= u32::MAX,
    ensures
        !g.tokens_cease(n).1 <==> forall|id: ObjectId|
            #![trigger g.obj(id)]
            1 <= id.0 <= n && g.has_def(id) && g.def(id).token ==> g.obj(id).zone is Battlefield
                || g.obj(id).zone is OutOfGame,
        !g.tokens_cease(n).1 ==> g.tokens_cease(n).0 == g,
    decreases n,
{
    if n > 0 {
        lemma_cease(g, (n - 1) as nat);
        let last = ObjectId(n as u32);
        let o = g.obj(last);
        if !g.tokens_cease((n - 1) as nat).1 {
            assert(g.tokens_cease(n).1 <==> g.has_def(last) && g.def(last).token && !(o.zone
                is Battlefield) && !(o.zone is OutOfGame));
        } else {
            let id = choose|id: ObjectId|
                #![trigger g.obj(id)]
                1 <= id.0 <= n - 1 && g.has_def(id) && g.def(id).token && !(g.obj(id).zone
                    is Battlefield) && !(g.obj(id).zone is OutOfGame);
            assert(g.obj(id) == g.obj(id));
        }
    }
}

proof fn lemma_pass(g: GameModel)
    requires
        g.objects.len() <= u32::MAX,
    ensures
        !g.sba_pass().1 <==> g.at_peace(),
        !g.sba_pass().1 ==> g.sba_pass().0 == g,
{
    let seats = g.turn_order;
    let ids = g.on_battlefield();
    lemma_losers(g, seats, seats.len());
    lemma_zone_ids(g, Zone::Battlefield, g.objects.len());
    lemma_cancel(g, ids, ids.len());
    lemma_dying(g, ids, ids.len());
    lemma_fall(g, ids, ids.len());
    lemma_cease(g, g.objects.len());
    if g.at_peace() {
        assert forall|i: int| 0 <= i < seats.len() implies g.losing(#[trigger] seats[i]) is None by {
            assert(seats.contains(seats[i]));
        }
        assert forall|i: int| 0 <= i < ids.len() implies (#[trigger] ids[i]).0 <= g.objects.len()
            && g.obj(ids[i]).zone is Battlefield && g.stable(ids[i]) by {
            assert(ids.contains(ids[i]));
        }
        assert forall|i: int| 0 <= i < ids.len() implies !g.dying(#[trigger] ids[i]) by {
            assert(ids[i].0 <= g.objects.len());
        }
        assert forall|i: int| 0 <= i < ids.len() implies !(g.has_obj(#[trigger] ids[i]) && g.obj(
            ids[i],
        ).counters.plus1 > 0 && g.obj(ids[i]).counters.minus1 > 0) by {
            assert(ids[i].0 <= g.objects.len());
        }
    }
    if !g.sba_pass().1 {
        assert forall|s: Seat|
            #![trigger g.turn_order.contains(s)]
            g.turn_order.contains(s) && g.has_seat(s) implies g.alive(s) by {
            let i = choose|i: int| 0 <= i < seats.len() && seats[i] == s;
            assert(g.losing(seats[i]) is None);
        }
        assert forall|id: ObjectId|
            #![trigger g.obj(id)]
            g.has_obj(id) && g.obj(id).zone is Battlefield implies g.stable(id) by {
            assert(ids.contains(id));
            let i = choose|i: int| 0 <= i < ids.len() && ids[i] == id;
            assert(!g.dying(ids[i]));
        }
    }
}

/// State-based actions leave nobody in the game who has lost, no creature on
/// the battlefield that should have died, no counters that cancel, nothing
/// attached to what is gone and no token anywhere else. Then the game is over
/// if at most one player is left: whoever that is wins.
pub proof fn law_state_based_actions_make_peace(g: GameModel)
    requires
        g.sound(),
    ensures
        ({
            let r = g.sba_passes(g.sba_fuel());
            let h = g.check_state_based_actions();
            &&& r.at_peace()
            &&& h.objects == r.objects
            &&& h.players == r.players
            &&& h.turn_order == r.turn_order
            &&& r.outcome is None && h.turn_order.len() == 1 ==> h.outcome == Some(
                Outcome::Winner(h.turn_order[0]),
            )
            &&& r.outcome is None && h.turn_order.len() == 0 ==> h.outcome == Some(Outcome::Draw)
            &&& h.turn_order.len() >= 2 ==> h == r
        }),
{
    let r = g.sba_passes(g.sba_fuel());
    law_state_based_actions_come_to_rest(g);
    crate::keeping::keep_sba_passes(g, g.sba_fuel());
    assert(r.sound()) by {
        reveal(GameModel::keeps);
    }
    lemma_pass(r);
}

/// Where there is nothing for them to do, state-based actions change nothing.
pub proof fn law_peace_is_kept(g: GameModel)
    requires
        g.at_peace(),
        g.objects.len() <= u32::MAX,
        g.turn_order.len() >= 2,
    ensures
        g.check_state_based_actions() == g,
{
    lemma_pass(g);
}

// ----- untapping -----

proof fn lemma_untap_each(g: GameModel, ids: Seq<ObjectId>, n: nat, id: ObjectId)
    requires
        n <= ids.len(),
        ids.no_duplicates(),
        g.has_obj(id),
    ensures
        ({
            let h = g.untap_each(ids, n);
            &&& h.players == g.players
            &&& h.active_player == g.active_player
            &&& h.objects.len() == g.objects.len()
            &&& h.obj(id) == (if exists|i: int| 0 <= i < n && #[trigger] ids[i] == id {
                g.obj(id).untapped_for(g.active_player)
            } else {
                g.obj(id)
            })
        }),
    decreases n,
{
    if n > 0 {
        lemma_untap_each(g, ids, (n - 1) as nat, id);
        let a = g.untap_each(ids, (n - 1) as nat);
        let h = g.untap_each(ids, n);
        if ids[n - 1] == id {
            assert(0 <= n - 1 < n && ids[n - 1] == id);
            assert(!exists|i: int| 0 <= i < n - 1 && #[trigger] ids[i] == id);
        } else {
            assert(h.obj(id) == a.obj(id));
            if exists|i: int| 0 <= i < n && #[trigger] ids[i] == id {
                let i = choose|i: int| 0 <= i < n && #[trigger] ids[i] == id;
                assert(0 <= i < n - 1 && ids[i] == id);
            }
            if exists|i: int| 0 <= i < n - 1 && #[trigger] ids[i] == id {
                let i = choose|i: int| 0 <= i < n - 1 && #[trigger] ids[i] == id;
                assert(0 <= i < n && ids[i] == id);
            }
        }
    }
}

/// In the untap step everything the active player has on the battlefield
/// untaps, but for what is held down once, and may attack from now on; nobody
/// else's changes. They may play a land again.
pub proof fn law_permanents_untap(g: GameModel, id: ObjectId)
    requires
        g.sound(),
        g.has_obj(id),
        g.has_seat(g.active_player),
    ensures
        ({
            let h = g.untap_step();
            let was = g.obj(id);
            let now = h.obj(id);
            let held = was.modifiers.contains(
                Modifier {
                    kind: ModifierKind::SkipUntap,
                    expires: Expiry::NextUntapOf(g.active_player),
                },
            );
            let theirs = g.player(g.active_player).battlefield.contains(id);
            &&& theirs ==> !now.summoning_sick && (now.tapped <==> was.tapped && held)
                && now.damage == was.damage && now.zone == was.zone && now.counters == was.counters
            &&& theirs && !held ==> now.modifiers == was.modifiers
            &&& !theirs ==> now == was
            &&& h.player(g.active_player).lands_played_this_turn == 0
            &&& h.player(g.active_player).hand == g.player(g.active_player).hand
            &&& h.player(g.active_player).life == g.player(g.active_player).life
        }),
{
    let ids = g.battlefield(g.active_player);
    assert(ids.no_duplicates()) by {
        reveal(GameModel::lists_are_sets);
        assert(g.list(g.active_player, Zone::Battlefield).no_duplicates());
    }
    lemma_untap_each(g, ids, ids.len(), id);
    assert(ids.contains(id) <==> exists|i: int| 0 <= i < ids.len() && #[trigger] ids[i] == id);
    let was = g.obj(id).modifiers;
    if !was.contains(hold_of(g.active_player)) {
        lemma_without_nothing(was, hold_of(g.active_player), was.len());
    }
}

proof fn lemma_without_nothing(ms: Seq<Modifier>, m: Modifier, n: nat)
    requires
        n <= ms.len(),
        !ms.contains(m),
    ensures
        without_modifier(ms, m, n) == ms.subrange(0, n as int),
    decreases n,
{
    if n > 0 {
        lemma_without_nothing(ms, m, (n - 1) as nat);
        assert(ms.contains(ms[n - 1]));
        assert(ms.subrange(0, n as int) =~= ms.subrange(0, n - 1).push(ms[n - 1]));
    } else {
        assert(without_modifier(ms, m, n) =~= ms.subrange(0, 0));
    }
    assert(ms.subrange(0, ms.len() as int) =~= ms);
}

// ----- what ends -----

proof fn lemma_lasting(ms: Seq<Modifier>, e: Expiry, n: nat, m: Modifier)
    requires
        n <= ms.len(),
    ensures
        lasting(ms, e, n).contains(m) <==> m.expires != e && exists|i: int|
            0 <= i < n && #[trigger] ms[i] == m,
    decreases n,
{
    if n > 0 {
        lemma_lasting(ms, e, (n - 1) as nat, m);
        let rest = lasting(ms, e, (n - 1) as nat);
        let all = lasting(ms, e, n);
        if all.contains(m) {
            let k = choose|k: int| 0 <= k < all.len() && all[k] == m;
            if k < rest.len() {
                assert(rest[k] == m);
                let i = choose|i: int| 0 <= i < n - 1 && #[trigger] ms[i] == m;
                assert(0 <= i < n && ms[i] == m);
            } else {
                assert(ms[n - 1] == m);
            }
        }
        if m.expires != e && exists|i: int| 0 <= i < n && #[trigger] ms[i] == m {
            let i = choose|i: int| 0 <= i < n && #[trigger] ms[i] == m;
            if i < n - 1 {
                assert(rest.contains(m));
                let k = choose|k: int| 0 <= k < rest.len() && rest[k] == m;
                assert(all[k] == m);
            } else {
                assert(all[rest.len() as int] == m);
            }
        }
    }
}

/// At cleanup all damage is gone and what lasts "until end of turn" ends;
/// everything else stays.
pub proof fn law_cleanup(g: GameModel, id: ObjectId, m: Modifier)
    requires
        g.has_obj(id),
    ensures
        ({
            let h = g.finish_cleanup();
            let was = g.obj(id);
            let now = h.obj(id);
            &&& now.damage == 0
            &&& !now.deathtouch_damaged
            &&& now.modifiers.contains(m) <==> was.modifiers.contains(m) && !(m.expires
                is EndOfTurn)
            &&& now.zone == was.zone
            &&& now.tapped == was.tapped
            &&& now.counters == was.counters
            &&& h.players == g.players
        }),
{
    let was = g.obj(id).modifiers;
    lemma_lasting(was, Expiry::EndOfTurn, was.len(), m);
    assert(was.contains(m) <==> exists|i: int| 0 <= i < was.len() && #[trigger] was[i] == m);
}

/// Whoever has more cards in hand than the format allows at cleanup discards
/// just as many as they have too many.
pub proof fn law_hands_are_cut(g: GameModel)
    requires
        g.has_seat(g.active_player),
        g.player(g.active_player).eliminated is None,
        g.player(g.active_player).hand.len() <= 255,
    ensures
        ({
            let n = g.player(g.active_player).hand.len();
            let max = g.format.max_hand_size;
            let h = g.cleanup_step();
            &&& n > max ==> h.pending == Some(
                PendingModel::Discard { seat: g.active_player, count: (n - max) as u8 },
            ) && h.objects == g.objects
            &&& n <= max ==> h == g.finish_cleanup()
        }),
{
}

/// What lasts "until your next turn" ends as that turn begins, and only then.
pub proof fn law_until_your_next_turn(g: GameModel, s: Seat, id: ObjectId, m: Modifier)
    requires
        g.has_obj(id),
    ensures
        g.expire_all(Expiry::TurnOf(s)).obj(id).modifiers.contains(m) <==> g.obj(
            id,
        ).modifiers.contains(m) && m.expires != Expiry::TurnOf(s),
        g.expire_all(Expiry::TurnOf(s)).players == g.players,
{
    let was = g.obj(id).modifiers;
    lemma_lasting(was, Expiry::TurnOf(s), was.len(), m);
    assert(was.contains(m) <==> exists|i: int| 0 <= i < was.len() && #[trigger] was[i] == m);
}

/// Mana does not last from one step to the next.
pub proof fn law_pools_empty(g: GameModel, phase: Phase, s: Seat)
    requires
        g.has_seat(s),
    ensures
        g.empty_pools().player(s).mana_pool.count() == 0,
        g.empty_pools().player(s).life == g.player(s).life,
        g.empty_pools().player(s).hand == g.player(s).hand,
        phase is Upkeep || phase is Main1 || phase is BeginCombat || phase is DeclareAttackers
            || phase is DeclareBlockers || phase is EndCombat || phase is Main2 || phase is End
            ==> g.enter_phase(phase).player(s).mana_pool.count() == 0 && g.enter_phase(
            phase,
        ).phase == phase,
{
}

// ----- the steps of a turn -----

/// In the draw step the active player draws a card, but not on the first turn
/// of a game of two.
pub proof fn law_the_draw_of_the_turn(g: GameModel, other: Seat)
    requires
        g.sound(),
        g.has_seat(g.active_player),
        g.has_seat(other),
        other != g.active_player,
    ensures
        ({
            let h = g.phase_action(Phase::Draw);
            let s = g.active_player;
            &&& g.turn == 1 && g.seating.len() == 2 ==> h.players == g.players
            &&& !(g.turn == 1 && g.seating.len() == 2) ==> g.drew(
                h,
                s,
                if g.player(s).library.len() > 0 {
                    1
                } else {
                    0
                },
            ) && h.player(s).drew_from_empty == (g.player(s).drew_from_empty || g.player(
                s,
            ).library.len() == 0)
            &&& h.player(other) == g.player(other)
        }),
{
    law_cards_are_drawn(g, g.active_player, 1, other);
}

/// A turn begins with the untap step of the player whose turn it is, and is
/// one more than the last.
pub proof fn law_turns_begin(g: GameModel, s: Seat)
    requires
        g.turn < u32::MAX,
    ensures
        ({
            let h = g.begin_turn(s);
            &&& h.active_player == s
            &&& h.turn == g.turn + 1
            &&& h.phase is Untap
            &&& !h.turn_aborted
            &&& h.turn_order == g.turn_order
        }),
{
    let a = GameModel {
        turn: (g.turn + 1) as u32,
        active_player: s,
        turn_aborted: false,
        ..g
    }.expire_all(Expiry::TurnOf(s)).emit(
        crate::event::EventModel::TurnStarted { turn: (g.turn + 1) as u32, active: s },
    );
    let b = GameModel {
        phase: Phase::Untap,
        priority: None,
        passed_in_succession: 0,
        ..a
    }.empty_pools().emit(crate::event::EventModel::PhaseChanged { phase: Phase::Untap });
    let ids = b.battlefield(s);
    lemma_untap_frame(b, ids, ids.len());
}

proof fn lemma_untap_frame(g: GameModel, ids: Seq<ObjectId>, n: nat)
    ensures
        ({
            let h = g.untap_each(ids, n);
            &&& h.active_player == g.active_player
            &&& h.turn == g.turn
            &&& h.phase == g.phase
            &&& h.turn_aborted == g.turn_aborted
            &&& h.turn_order == g.turn_order
        }),
    decreases n,
{
    if n > 0 && n <= ids.len() {
        lemma_untap_frame(g, ids, (n - 1) as nat);
    }
}

/// The blocker and damage steps are skipped if and only if nothing attacks.
pub proof fn law_combat_may_be_skipped(g: GameModel, next: Phase)
    ensures
        g.any_attackers() ==> g.phase_to_enter(next) == next,
        !g.any_attackers() && (next is DeclareBlockers || next is CombatDamage)
            ==> g.phase_to_enter(next) is EndCombat,
        !(next is DeclareBlockers) && !(next is CombatDamage) ==> g.phase_to_enter(next) == next,
{
}

// ----- who is next -----

proof fn lemma_next_from(g: GameModel, seat: Seat, pos: nat, k: nat)
    requires
        g.seating.len() > 0,
        1 <= k,
    ensures
        match g.next_from(seat, pos, k) {
            Some(s) => s != seat && g.turn_order.contains(s) && exists|j: int|
                k <= j <= g.seating.len() && s == #[trigger] g.seating[(pos + j) % (
                g.seating.len() as int)] && forall|i: int|
                    k <= i < j ==> (#[trigger] g.seating[(pos + i) % (g.seating.len() as int)])
                        == seat || !g.turn_order.contains(
                        g.seating[(pos + i) % (g.seating.len() as int)],
                    ),
            None => forall|i: int|
                k <= i <= g.seating.len() ==> (#[trigger] g.seating[(pos + i) % (
                g.seating.len() as int)]) == seat || !g.turn_order.contains(
                    g.seating[(pos + i) % (g.seating.len() as int)],
                ),
        },
    decreases g.seating.len() + 1 - k,
{
    let n = g.seating.len();
    if k <= n {
        let s = g.seating[(pos + k) as int % (n as int)];
        if s != seat && g.turn_order.contains(s) {
            assert(s == g.seating[(pos + k as int) % (n as int)]);
        } else {
            lemma_next_from(g, seat, pos, k + 1);
            if let Some(t) = g.next_from(seat, pos, k + 1) {
                let j = choose|j: int|
                    k + 1 <= j <= n && t == #[trigger] g.seating[(pos + j) % (n as int)] && forall|
                        i: int,
                    |
                        k + 1 <= i < j ==> (#[trigger] g.seating[(pos + i) % (n as int)]) == seat
                            || !g.turn_order.contains(g.seating[(pos + i) % (n as int)]);
                assert(t == g.seating[(pos + j) % (n as int)]);
            }
        }
    }
}

/// After a player comes the first other one round the table who is still in
/// the game.
pub proof fn law_who_is_next(g: GameModel, pos: nat, seat: Seat)
    requires
        pos < g.seating.len(),
        g.seating[pos as int] == seat,
        g.seating.no_duplicates(),
    ensures
        match g.next_after(seat) {
            Some(s) => s != seat && g.turn_order.contains(s) && exists|j: int|
                1 <= j <= g.seating.len() && s == #[trigger] g.seating[(pos + j) % (
                g.seating.len() as int)] && forall|i: int|
                    1 <= i < j ==> (#[trigger] g.seating[(pos + i) % (g.seating.len() as int)])
                        == seat || !g.turn_order.contains(
                        g.seating[(pos + i) % (g.seating.len() as int)],
                    ),
            None => forall|i: int|
                1 <= i <= g.seating.len() ==> (#[trigger] g.seating[(pos + i) % (
                g.seating.len() as int)]) == seat || !g.turn_order.contains(
                    g.seating[(pos + i) % (g.seating.len() as int)],
                ),
        },
{
    lemma_find_from(g.seating, seat, 0);
    assert(crate::seqs::find(g.seating, seat) == Some(pos));
    lemma_next_from(g, seat, pos, 1);
}

// ----- priority -----

/// Passing hands priority to the next player until all have passed in a row;
/// then, with nothing on the stack, the step is over.
pub proof fn law_priority_goes_round(g: GameModel, seat: Seat)
    requires
        g.passed_in_succession < 255,
    ensures
        ({
            let h = g.pass_priority(seat);
            let all = g.passed_in_succession + 1 >= g.turn_order.len();
            &&& !all ==> h.priority == g.next_after(seat) && h.passed_in_succession
                == g.passed_in_succession + 1 && h.stack == g.stack
            &&& all && g.stack.len() == 0 ==> h.priority is None && h.passed_in_succession == 0
            &&& !all || g.stack.len() == 0 ==> h.objects == g.objects && h.players == g.players
        }),
{
    reveal(GameModel::pass_priority);
    let e = g.emit(crate::event::EventModel::PriorityPassed { seat });
    assert(e.next_after(seat) == g.next_after(seat)) by {
        lemma_find_from(g.seating, seat, 0);
        if let Some(pos) = crate::seqs::find(g.seating, seat) {
            lemma_same_next(g, e, seat, pos, 1);
        }
    }
}

proof fn lemma_same_next(g: GameModel, h: GameModel, seat: Seat, pos: nat, k: nat)
    requires
        h.seating == g.seating,
        h.turn_order == g.turn_order,
    ensures
        h.next_from(seat, pos, k) == g.next_from(seat, pos, k),
    decreases g.seating.len() + 1 - k,
{
    if k <= g.seating.len() && g.seating.len() > 0 {
        lemma_same_next(g, h, seat, pos, k + 1);
    }
}

/// Priority comes back to the player whose turn it is while they are in the
/// game.
pub proof fn law_the_active_player_is_first(g: GameModel)
    requires
        g.turn_order.contains(g.active_player),
    ensures
        g.give_priority_to_active().priority == Some(g.active_player),
        g.give_priority_to_active().passed_in_succession == 0,
        g.apnap().len() > 0,
        g.apnap()[0] == g.active_player,
{
    lemma_round(g, g.active_player, g.active_player, seq![g.active_player], g.turn_order.len());
}

proof fn lemma_round(g: GameModel, first: Seat, cur: Seat, out: Seq<Seat>, left: nat)
    requires
        out.len() > 0,
    ensures
        g.round(first, cur, out, left).len() > 0,
        g.round(first, cur, out, left)[0] == out[0],
    decreases left,
{
    if left > 0 {
        if let Some(s) = g.next_after(cur) {
            if s != first {
                lemma_round(g, first, s, out.push(s), (left - 1) as nat);
            }
        }
    }
}

/// A land that is played goes from hand to the battlefield of whoever plays it,
/// and counts as their land for the turn.
pub proof fn law_lands_are_played(g: GameModel, s: Seat, id: ObjectId)
    requires
        g.sound(),
        g.has_seat(s),
        g.has_obj(id),
        g.obj(id).zone is Hand,
        g.obj(id).owner == s,
        g.player(s).lands_played_this_turn < 255,
    ensures
        ({
            let h = g.play_land(s, id);
            &&& h.obj(id).zone is Battlefield
            &&& h.obj(id).controller == s
            &&& h.player(s).battlefield == g.player(s).battlefield.push(id)
            &&& !h.player(s).hand.contains(id)
            &&& h.player(s).lands_played_this_turn == g.player(s).lands_played_this_turn + 1
            &&& h.priority == Some(s)
            &&& h.stack == g.stack
        }),
{
    reveal(GameModel::play_land);
    let a = g.with_obj(id, crate::state::ObjectModel { controller: s, ..g.obj(id) });
    assert(a.obj(id).zone is Hand);
    crate::sound::lemma_without(g.player(s).hand, id);
    let h = g.play_land(s, id);
}

// ----- what steps ask -----

/// Attackers are asked for if and only if something may attack; blockers, of
/// the first player attacked, if and only if somebody is. Otherwise the active
/// player gets priority.
pub proof fn law_what_combat_steps_ask(g: GameModel)
    requires
        g.turn_order.contains(g.active_player),
        g.pending is None,
    ensures
        ({
            let a = g.phase_action(Phase::DeclareAttackers);
            let s = g.active_player;
            &&& g.attack_candidates(s).len() > 0 ==> a.pending == Some(
                PendingModel::DeclareAttackers { seat: s },
            )
            &&& g.attack_candidates(s).len() == 0 ==> a.pending is None && a.priority == Some(s)
            &&& a.objects == g.objects && a.players == g.players
        }),
        ({
            let b = g.phase_action(Phase::DeclareBlockers);
            let ds = g.defending_seats();
            &&& ds.len() > 0 ==> (b.pending matches Some(
                PendingModel::DeclareBlockers { seat, remaining },
            ) && seat == ds[0] && remaining == ds.drop_first())
            &&& ds.len() == 0 ==> b.pending is None && b.priority == Some(g.active_player)
            &&& b.objects == g.objects && b.players == g.players
        }),
{
}

/// Steps in which nothing happens on its own give the active player priority
/// and change nothing else.
pub proof fn law_quiet_steps(g: GameModel, phase: Phase)
    requires
        g.turn_order.contains(g.active_player),
        phase is Upkeep || phase is Main1 || phase is BeginCombat || phase is EndCombat || phase
            is End,
    ensures
        ({
            let h = g.phase_action(phase);
            &&& h.priority == Some(g.active_player)
            &&& h.passed_in_succession == 0
            &&& h.objects == g.objects
            &&& h.players == g.players
            &&& h.stack == g.stack
            &&& h.pending == g.pending
        }),
{
}

/// After the last step of a turn the next player's turn begins.
pub proof fn law_turns_follow_each_other(g: GameModel, next: Seat)
    requires
        g.started,
        !g.turn_aborted,
        g.phase is Cleanup,
        g.turn < u32::MAX,
        g.next_after(g.active_player) == Some(next),
    ensures
        ({
            let h = g.step_forward();
            &&& h.active_player == next
            &&& h.turn == g.turn + 1
            &&& h.phase is Untap
        }),
{
    reveal(GameModel::step_forward);
    law_turns_begin(g, next);
}

// ----- how things die -----

/// Counters of both kinds cancel out in pairs: what they come to together stays,
/// and one kind at most is left.
pub proof fn law_counters_cancel_in_pairs(o: crate::state::ObjectModel)
    ensures
        ({
            let c = o.counters_left();
            &&& c.plus1 - c.minus1 == o.counters.plus1 - o.counters.minus1
            &&& c.plus1 == 0 || c.minus1 == 0
            &&& c.plus1 <= o.counters.plus1
            &&& c.minus1 <= o.counters.minus1
        }),
{
}

proof fn lemma_dying_go(g: GameModel, ids: Seq<ObjectId>, n: nat, x: ObjectId)
    requires
        n <= ids.len(),
        g.has_obj(x),
    ensures
        ({
            let h = g.dying_die(ids, n).0;
            &&& h.objects.len() == g.objects.len()
            &&& h.obj(x) == g.obj(x) || (g.obj(x).zone is Battlefield && h.obj(x).zone is Graveyard
                && h.obj(x).owner == g.obj(x).owner)
            &&& !(exists|i: int| 0 <= i < n && #[trigger] ids[i] == x) ==> h.obj(x) == g.obj(x)
        }),
    decreases n,
{
    if n > 0 {
        lemma_dying_go(g, ids, (n - 1) as nat, x);
        let p = g.dying_die(ids, (n - 1) as nat).0;
        let h = g.dying_die(ids, n).0;
        let id = ids[n - 1];
        if p.dying(id) {
            crate::sound::lemma_moved(p, id, Zone::Graveyard);
        }
        if x == id {
            assert(ids[n - 1] == x);
        } else {
            assert(h.obj(x) == p.obj(x));
        }
        if exists|i: int| 0 <= i < n - 1 && #[trigger] ids[i] == x {
            let i = choose|i: int| 0 <= i < n - 1 && #[trigger] ids[i] == x;
            assert(0 <= i < n && ids[i] == x);
        }
    }
}

/// A creature that dies goes to the graveyard, and nowhere else; whatever does
/// not die stays as it is.
pub proof fn law_the_dying_go_to_the_graveyard(g: GameModel, ids: Seq<ObjectId>, id: ObjectId)
    requires
        g.has_obj(id),
    ensures
        ({
            let h = g.dying_die(ids, ids.len()).0;
            &&& h.obj(id) == g.obj(id) || (g.obj(id).zone is Battlefield && h.obj(
                id,
            ).zone is Graveyard)
            &&& !ids.contains(id) ==> h.obj(id) == g.obj(id)
        }),
{
    lemma_dying_go(g, ids, ids.len(), id);
    assert(ids.contains(id) <==> exists|i: int| 0 <= i < ids.len() && #[trigger] ids[i] == id);
}

/// A creature dies of having no toughness left, or of damage as great as its
/// toughness or from a source with deathtouch, unless it is indestructible.
pub proof fn law_when_creatures_die(g: GameModel, id: ObjectId, p: i32, t: i32)
    requires
        g.has_obj(id),
        g.pt(id) == Some((p, t)),
    ensures
        !(g.obj(id).zone is Battlefield) ==> !g.dying(id),
        g.obj(id).zone is Battlefield && t <= 0 ==> g.dying(id),
        g.obj(id).zone is Battlefield && t > 0 && g.has_keyword(id, Keyword::Indestructible)
            ==> !g.dying(id),
        g.obj(id).zone is Battlefield && t > 0 && !g.has_keyword(id, Keyword::Indestructible) ==> (
        g.dying(id) <==> g.obj(id).damage >= t || g.obj(id).deathtouch_damaged),
{
}

/// A player loses at no life, after drawing from an empty library, or with as
/// much poison as the format says, ten if it says nothing; and for no other
/// reason.
pub proof fn law_when_players_lose(g: GameModel, s: Seat)
    requires
        g.has_seat(s),
        g.format.rules@.len() == 0,
    ensures
        g.losing(s) is Some <==> g.player(s).life <= 0 || g.player(s).drew_from_empty || g.player(
            s,
        ).poison >= 10,
        g.player(s).life <= 0 ==> g.losing(s) == Some(crate::event::Elimination::LifeZero),
{
}

// ----- discarding at cleanup -----

proof fn lemma_move_all(g: GameModel, ids: Seq<ObjectId>, to: Zone, n: nat, x: ObjectId)
    requires
        n <= ids.len(),
        g.has_obj(x),
    ensures
        ({
            let h = g.move_all(ids, to, n);
            &&& h.objects.len() == g.objects.len()
            &&& (exists|i: int| 0 <= i < n && #[trigger] ids[i] == x) ==> h.obj(x).zone == to
            &&& !(exists|i: int| 0 <= i < n && #[trigger] ids[i] == x) ==> h.obj(x) == g.obj(x)
        }),
    decreases n,
{
    if n > 0 {
        lemma_move_all(g, ids, to, (n - 1) as nat, x);
        let p = g.move_all(ids, to, (n - 1) as nat);
        let h = g.move_all(ids, to, n);
        let id = ids[n - 1];
        if p.has_obj(id) && p.obj(id).zone != to {
            crate::sound::lemma_moved(p, id, to);
        }
        if x == id {
            assert(ids[n - 1] == x);
        } else {
            assert(h.obj(x) == p.obj(x));
            if exists|i: int| 0 <= i < n && #[trigger] ids[i] == x {
                let i = choose|i: int| 0 <= i < n && #[trigger] ids[i] == x;
                assert(0 <= i < n - 1 && ids[i] == x);
            }
        }
        if exists|i: int| 0 <= i < n - 1 && #[trigger] ids[i] == x {
            let i = choose|i: int| 0 <= i < n - 1 && #[trigger] ids[i] == x;
            assert(0 <= i < n && ids[i] == x);
        }
    }
}

/// The cards discarded down to the hand size go to the graveyard, and the
/// cleanup goes on: no damage is left.
pub proof fn law_hands_are_cut_down(g: GameModel, s: Seat, ids: Seq<ObjectId>, id: ObjectId)
    requires
        g.has_obj(id),
    ensures
        ({
            let h = g.discard_to_hand_size(s, ids);
            &&& h.pending is None
            &&& h.obj(id).damage == 0
            &&& ids.contains(id) ==> h.obj(id).zone is Graveyard
            &&& !ids.contains(id) ==> h.obj(id).zone == g.obj(id).zone
        }),
{
    reveal(GameModel::discard_to_hand_size);
    lemma_move_all(g, ids, Zone::Graveyard, ids.len(), id);
    assert(ids.contains(id) <==> exists|i: int| 0 <= i < ids.len() && #[trigger] ids[i] == id);
}

} // verus!
