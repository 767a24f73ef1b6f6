//! Somebody can always act: the engine never comes to rest in a game that is
//! not over with nobody to wait for.
//!
//! The game moves on its own through steps without a decision. From any of
//! them a step with priority is at most three notches away, unless a player
//! leaves the game on the way, which can only happen as often as there are
//! players.
use crate::event::{Elimination, EventFacts, Outcome};
use crate::keeping::{
    keep_collect_triggers, keep_deal_packets, keep_draw, keep_empty_pools, keep_losers_leave, keep_sba_pass,
    keep_step_forward, keep_tidy, lemma_seated,
};
use crate::seqs::{find, lemma_find_from, without, without_n};
use crate::sound::{lemma_emit, lemma_same_core, lemma_same_places, lemma_without_n};
use crate::state::{CombatRound, FiredModel, GameModel};
use crate::types::{ObjectId, Phase, Seat, Zone};
use vstd::prelude::*;

verus! {

// ----- what does not change who is to act -----

impl GameModel {
    /// The same point in the turn with the same players, apart from what is
    /// asked of one of them.
    pub open spec fn same_step(self, h: GameModel) -> bool {
        &&& h.phase == self.phase
        &&& h.priority == self.priority
        &&& h.started == self.started
        &&& h.turn_aborted == self.turn_aborted
        &&& h.combat_round == self.combat_round
        &&& h.turn_order == self.turn_order
        &&& h.outcome == self.outcome
        &&& h.active_player == self.active_player
        &&& h.seating == self.seating
    }

    /// The same point in the turn, with the same question open if any.
    pub open spec fn same_moment(self, h: GameModel) -> bool {
        self.same_step(h) && h.pending == self.pending
    }

    /// Somebody holds priority or is asked something.
    pub open spec fn waits(self) -> bool {
        self.pending is Some || self.priority is Some
    }

    /// How many notches a game is from waiting for somebody, at most; one
    /// more for a question that may have to lapse.
    pub open spec fn notches(self) -> nat {
        if self.pending is Some || self.moot() {
            1
        } else if self.waits() {
            0
        } else if !self.started || self.turn_aborted {
            3
        } else {
            match self.phase {
                Phase::Untap => 2,
                Phase::Cleanup => 3,
                _ => 4,
            }
        }
    }
}

proof fn moment_move(g: GameModel, id: ObjectId, to: Zone)
    ensures
        g.same_moment(g.move_object(id, to)),
{
}

proof fn moment_move_all(g: GameModel, ids: Seq<ObjectId>, to: Zone, n: nat)
    ensures
        g.same_moment(g.move_all(ids, to, n)),
    decreases n,
{
    if n > 0 && n <= ids.len() {
        moment_move_all(g, ids, to, (n - 1) as nat);
        moment_move(g.move_all(ids, to, (n - 1) as nat), ids[n - 1], to);
    }
}

proof fn moment_draw_n(g: GameModel, seat: Seat, n: nat)
    ensures
        g.same_moment(g.draw_n(seat, n).0),
    decreases n,
{
    if n > 0 {
        moment_draw_n(g, seat, (n - 1) as nat);
    }
}

proof fn moment_counters_cancel(g: GameModel, ids: Seq<ObjectId>, n: nat)
    ensures
        g.same_moment(g.counters_cancel(ids, n).0),
    decreases n,
{
    if n > 0 && n <= ids.len() {
        moment_counters_cancel(g, ids, (n - 1) as nat);
    }
}

proof fn moment_dying_die(g: GameModel, ids: Seq<ObjectId>, n: nat)
    ensures
        g.same_moment(g.dying_die(ids, n).0),
    decreases n,
{
    if n > 0 && n <= ids.len() {
        moment_dying_die(g, ids, (n - 1) as nat);
        moment_move(g.dying_die(ids, (n - 1) as nat).0, ids[n - 1], Zone::Graveyard);
    }
}

proof fn moment_attachments_fall(g: GameModel, ids: Seq<ObjectId>, n: nat)
    ensures
        g.same_moment(g.attachments_fall(ids, n).0),
    decreases n,
{
    if n > 0 && n <= ids.len() {
        moment_attachments_fall(g, ids, (n - 1) as nat);
        moment_move(g.attachments_fall(ids, (n - 1) as nat).0, ids[n - 1], Zone::Graveyard);
    }
}

proof fn moment_tokens_cease(g: GameModel, n: nat)
    ensures
        g.same_moment(g.tokens_cease(n).0),
    decreases n,
{
    if n > 0 && n <= g.objects.len() {
        moment_tokens_cease(g, (n - 1) as nat);
        moment_move(g.tokens_cease((n - 1) as nat).0, ObjectId(n as u32), Zone::OutOfGame);
    }
}

proof fn moment_fire_all(g: GameModel, os: Seq<crate::triggers::Occurred>, n: nat)
    ensures
        g.same_moment(g.fire_all(os, n)),
    decreases n,
{
    if n > 0 && n <= os.len() {
        moment_fire_all(g, os, (n - 1) as nat);
    }
}

proof fn moment_triggers_between(g: GameModel, log: Seq<EventFacts>, from: nat, n: nat)
    ensures
        g.same_moment(g.triggers_between(log, from, n)),
    decreases n,
{
    if n > from && n <= log.len() {
        moment_triggers_between(g, log, from, (n - 1) as nat);
        let p = g.triggers_between(log, from, (n - 1) as nat);
        let e = log[n - 1];
        let before = match e {
            crate::event::EventModel::Cast { seat, object, .. } => p.fire_prowess(seat, object),
            _ => p,
        };
        let os = crate::triggers::happened(e, p.active_player);
        moment_fire_all(before, os, os.len());
    }
}

/// Placing triggers asks somebody in the game something, or changes nobody's
/// turn to act.
proof fn moment_place_line(g: GameModel, line: Seq<FiredModel>, i: nat)
    requires
        forall|k: int| 0 <= k < line.len() ==> g.turn_order.contains((#[trigger] line[k]).controller),
    ensures
        g.same_step(g.place_line(line, i).0),
        ({
            let h = g.place_line(line, i).0;
            h.pending == g.pending || (h.pending is Some && !h.moot())
        }),
    decreases line.len() - i,
{
    if i < line.len() {
        let f = line[i as int];
        assert(g.turn_order.contains(f.controller));
        if g.trigger_specs(f).len() == 0 {
            moment_place_line(g.push_trigger(f, Seq::empty()), line, i + 1);
        } else {
            moment_place_line(g, line, i + 1);
        }
    }
}

proof fn moment_deal_damage(
    g: GameModel,
    source: ObjectId,
    to: crate::action::DamageTarget,
    amount: i32,
)
    ensures
        g.same_moment(g.deal_damage(source, to, amount, true)),
{
}

proof fn moment_deal_packets(
    g: GameModel,
    packets: Seq<(ObjectId, crate::action::DamageTarget, i32)>,
    n: nat,
)
    ensures
        g.same_moment(g.deal_packets(packets, n)),
    decreases n,
{
    if n > 0 && n <= packets.len() {
        moment_deal_packets(g, packets, (n - 1) as nat);
        let (source, to, amount) = packets[n - 1];
        moment_deal_damage(g.deal_packets(packets, (n - 1) as nat), source, to, amount);
    }
}

proof fn moment_untap_each(g: GameModel, ids: Seq<ObjectId>, n: nat)
    ensures
        g.same_moment(g.untap_each(ids, n)),
    decreases n,
{
    if n > 0 && n <= ids.len() {
        moment_untap_each(g, ids, (n - 1) as nat);
    }
}

// ----- players leaving -----

/// Taking a value out of a list that holds it makes the list shorter.
proof fn lemma_without_shorter<T>(s: Seq<T>, x: T, n: nat)
    requires
        n <= s.len(),
        exists|k: int| 0 <= k < n && s[k] == x,
    ensures
        without_n(s, x, n).len() < n,
    decreases n,
{
    lemma_without_n(s, x, (n - 1) as nat);
    if s[n - 1] != x {
        lemma_without_shorter(s, x, (n - 1) as nat);
    }
}

/// Who leaves makes the table smaller.
proof fn lemma_eliminate_shrinks(g: GameModel, seat: Seat, reason: Elimination)
    requires
        g.sound(),
    ensures
        g.eliminate(seat, reason) == g || g.eliminate(seat, reason).turn_order.len()
            < g.turn_order.len(),
        g.eliminate(seat, reason).outcome == g.outcome,
{
    reveal(GameModel::eliminate);
    if g.has_seat(seat) && !g.out(seat) {
        assert(g.turn_order.contains(seat)) by {
            reveal(GameModel::table_agrees);
            assert(g.player(seat).eliminated is None);
        }
        let g1 = g.marked_out(seat, reason);
        let owned = g1.owned_by(seat, g1.objects.len());
        moment_move_all(g1, owned, Zone::OutOfGame, owned.len());
        lemma_without_shorter(g.turn_order, seat, g.turn_order.len());
        assert(g.strip(seat, reason).turn_order == without(g.turn_order, seat));
    }
}

proof fn lemma_losers(g: GameModel, seats: Seq<Seat>, n: nat)
    requires
        g.sound(),
    ensures
        g.losers_leave(seats, n).0 == g || g.losers_leave(seats, n).0.turn_order.len()
            < g.turn_order.len(),
        g.losers_leave(seats, n).0.outcome == g.outcome,
    decreases n,
{
    if n > 0 && n <= seats.len() {
        lemma_losers(g, seats, (n - 1) as nat);
        keep_losers_leave(g, seats, (n - 1) as nat);
        let p = g.losers_leave(seats, (n - 1) as nat).0;
        assert(p.sound()) by {
            reveal(GameModel::keeps);
        }
        match p.losing(seats[n - 1]) {
            Some(reason) => {
                lemma_eliminate_shrinks(p, seats[n - 1], reason);
            },
            None => {},
        }
    }
}

proof fn lemma_sba_pass(g: GameModel)
    requires
        g.sound(),
    ensures
        g.sba_pass().0.turn_order.len() < g.turn_order.len() || g.same_moment(g.sba_pass().0),
        g.sba_pass().0.sound(),
        g.sba_pass().0.outcome == g.outcome,
{
    let g1 = g.losers_leave(g.turn_order, g.turn_order.len()).0;
    lemma_losers(g, g.turn_order, g.turn_order.len());
    let ids = g1.on_battlefield();
    let g2 = g1.counters_cancel(ids, ids.len()).0;
    moment_counters_cancel(g1, ids, ids.len());
    let g3 = g2.dying_die(ids, ids.len()).0;
    moment_dying_die(g2, ids, ids.len());
    let g4 = g3.attachments_fall(ids, ids.len()).0;
    moment_attachments_fall(g3, ids, ids.len());
    moment_tokens_cease(g4, g4.objects.len());
    keep_sba_pass(g);
    reveal(GameModel::keeps);
}

proof fn lemma_sba_passes(g: GameModel, fuel: nat)
    requires
        g.sound(),
    ensures
        g.sba_passes(fuel).turn_order.len() < g.turn_order.len() || g.same_moment(
            g.sba_passes(fuel),
        ),
        g.sba_passes(fuel).outcome == g.outcome,
    decreases fuel,
{
    if fuel > 0 {
        lemma_sba_pass(g);
        lemma_sba_passes(g.sba_pass().0, (fuel - 1) as nat);
    }
}

proof fn lemma_line_slot(order: Seq<Seat>, line: Seq<FiredModel>, f: FiredModel, n: nat)
    requires
        n <= line.len(),
    ensures
        crate::triggers::line_slot(order, line, f, n) <= n,
    decreases n,
{
    if n > 0 {
        lemma_line_slot(order, line, f, (n - 1) as nat);
    }
}

/// The triggers lined up are those that stand.
proof fn lemma_line_stands(g: GameModel, order: Seq<Seat>, fs: Seq<FiredModel>, n: nat)
    ensures
        forall|k: int|
            0 <= k < g.line_up(order, fs, n).len() ==> g.stands(
                #[trigger] g.line_up(order, fs, n)[k],
            ),
    decreases n,
{
    if n > 0 && n <= fs.len() {
        lemma_line_stands(g, order, fs, (n - 1) as nat);
        let line = g.line_up(order, fs, (n - 1) as nat);
        let f = fs[n - 1];
        let at = crate::triggers::line_slot(order, line, f, line.len()) as int;
        lemma_line_slot(order, line, f, line.len());
        assert forall|k: int| 0 <= k < g.line_up(order, fs, n).len() implies g.stands(
            #[trigger] g.line_up(order, fs, n)[k],
        ) by {
            if g.stands(f) {
                if k < at {
                    assert(g.line_up(order, fs, n)[k] == line[k]);
                } else if k > at {
                    assert(g.line_up(order, fs, n)[k] == line[k - 1]);
                }
            }
        }
    }
}

/// After state-based actions and triggers a game that goes on has two players
/// left, and waits for whoever it waited for, unless somebody left it.
proof fn lemma_tidy(g: GameModel)
    requires
        g.sound(),
        g.outcome is None,
    ensures
        ({
            let h = g.tidy();
            h.outcome is None ==> h.turn_order.len() >= 2 && (h.turn_order.len()
                < g.turn_order.len() || (g.same_step(h) && (h.pending == g.pending || (
            h.pending is Some && !h.moot()))))
        }),
        g.tidy().outcome matches Some(o) ==> g.tidy().ended_well(),
{
    reveal(GameModel::tidy);
    lemma_sba_passes(g, g.sba_fuel());
    let a = g.check_state_based_actions();
    let h = g.tidy();
    if a.turn_order.len() == 1 {
        assert(a.turn_order =~= seq![a.turn_order[0]]);
    }
    if a.outcome is None && a.pending is None {
        let b = GameModel { trigger_cursor: a.log.len(), ..a };
        moment_triggers_between(b, a.log, a.trigger_cursor, a.log.len());
        let c = a.collect_triggers();
        if c.fired.len() > 0 {
            let line = c.line_up(c.apnap(), c.fired, c.fired.len());
            crate::keeping::keep_state_based_actions(g);
            keep_collect_triggers(a);
            assert(c.sound()) by {
                reveal(GameModel::keeps);
            }
            lemma_line_stands(c, c.apnap(), c.fired, c.fired.len());
            assert forall|k: int| 0 <= k < line.len() implies c.turn_order.contains(
                (#[trigger] line[k]).controller,
            ) by {
                reveal(GameModel::table_agrees);
                assert(c.stands(line[k]));
                assert(c.player(line[k].controller).eliminated is None);
            }
            moment_place_line(GameModel { fired: Seq::empty(), ..c }, line, 0);
        }
    }
}

impl GameModel {
    /// The game was won by the one player left, or drawn by none.
    pub open spec fn ended_well(self) -> bool {
        match self.outcome {
            Some(Outcome::Winner(s)) => self.turn_order == seq![s],
            Some(Outcome::Draw) => self.turn_order.len() == 0,
            None => false,
        }
    }
}

// ----- who acts first -----

/// A seat found from no step on is met on none of them.
proof fn lemma_none_met(g: GameModel, seat: Seat, pos: nat, k: nat, j: nat)
    requires
        g.next_from(seat, pos, k) is None,
        k <= j <= g.seating.len(),
        g.seating.len() > 0,
    ensures
        ({
            let s = g.seating[(pos + j) as int % (g.seating.len() as int)];
            s == seat || !g.turn_order.contains(s)
        }),
    decreases g.seating.len() + 1 - k,
{
    if k < j {
        lemma_none_met(g, seat, pos, k + 1, j);
    }
}

/// While anybody is in the game, somebody acts first.
pub proof fn lemma_first_to_act(g: GameModel)
    requires
        g.sound(),
        g.turn_order.len() > 0,
    ensures
        g.first_to_act() is Some,
{
    if !g.turn_order.contains(g.active_player) {
        lemma_seated(g);
        lemma_find_from(g.seating, g.active_player, 0);
        let n = g.seating.len();
        let j0 = choose|j: int| 0 <= j < n && g.seating[j] == g.active_player;
        let pos = find(g.seating, g.active_player)->0;
        let s = g.turn_order[0];
        assert(g.turn_order.contains(s));
        assert(g.seating.contains(s));
        let i = choose|i: int| 0 <= i < n && g.seating[i] == s;
        let k: nat = if i > pos {
            (i - pos) as nat
        } else {
            (i - pos + n) as nat
        };
        assert((pos + k) as int % (n as int) == i) by {
            if i > pos {
                vstd::arithmetic::div_mod::lemma_small_mod(i as nat, n);
            } else {
                vstd::arithmetic::div_mod::lemma_mod_add_multiples_vanish(i, n as int);
                vstd::arithmetic::div_mod::lemma_small_mod(i as nat, n);
            }
        }
        if g.next_after(g.active_player) is None {
            lemma_none_met(g, g.active_player, pos, 1, k);
        }
    }
}

// ----- one notch -----

/// Whoever acts first is in the game.
proof fn lemma_first_is_in(g: GameModel)
    ensures
        g.first_to_act() matches Some(s) ==> g.turn_order.contains(s),
{
    if let Some(pos) = find(g.seating, g.active_player) {
        crate::keeping::lemma_next_from(g, g.active_player, pos, 1);
    }
}

/// Once damage is dealt, somebody in the game has priority.
proof fn lemma_dealt(g: GameModel, first: bool)
    requires
        g.sound(),
        g.turn_order.len() > 0,
        g.pending is None,
    ensures
        ({
            let h = g.deal_combat_damage(first).give_priority_to_active();
            h.waits() && !h.moot() && h.turn_order == g.turn_order && h.outcome == g.outcome
                && h.pending is None
        }),
{
    let packets = g.combat_packets(first);
    let g3 = g.deal_packets(packets, packets.len());
    moment_deal_packets(g, packets, packets.len());
    keep_deal_packets(g, packets, packets.len());
    let g4 = g.deal_combat_damage(first);
    lemma_same_core(g3, g4);
    assert(g4.sound()) by {
        reveal(GameModel::keeps);
    }
    lemma_first_to_act(g4);
    lemma_first_is_in(g4);
}

/// Dealing combat damage ends with somebody to wait for.
proof fn lemma_combat_damage_waits(g: GameModel, first: bool)
    requires
        g.sound(),
        g.turn_order.len() > 0,
    ensures
        g.begin_combat_damage(first).waits(),
        g.begin_combat_damage(first).turn_order == g.turn_order,
        g.begin_combat_damage(first).outcome == g.outcome,
{
    let g1 = GameModel {
        combat_round: if first {
            CombatRound::FirstStrikeDone
        } else {
            CombatRound::Done
        },
        ..g
    };
    let ids = g1.attacking_creatures();
    let queue = g1.division_queue(ids, first, ids.len());
    if queue.len() == 0 {
        let g2 = GameModel { pending: None, ..g1 };
        lemma_same_core(g, g2);
        assert(g2.sound()) by {
            reveal(GameModel::keeps);
        }
        lemma_dealt(g2, first);
    }
}

/// Entering a step leaves a game that waits, but for the untap and cleanup steps.
proof fn lemma_enter_phase(g: GameModel, phase: Phase)
    requires
        g.sound(),
        g.turn_order.len() > 0,
        g.started,
        !g.turn_aborted,
    ensures
        ({
            let h = g.enter_phase(phase);
            &&& h.turn_order == g.turn_order
            &&& h.outcome == g.outcome
            &&& h.notches() <= match phase {
                Phase::Untap => 2nat,
                Phase::Cleanup => 3,
                _ => 1,
            }
        }),
{
    let g1 = GameModel { phase, priority: None, passed_in_succession: 0, ..g };
    lemma_same_core(g, g1);
    let g2 = g1.empty_pools();
    keep_empty_pools(g1);
    let e: EventFacts = crate::event::EventModel::PhaseChanged { phase };
    lemma_emit(g2, e);
    let g3 = g2.emit(e);
    assert(g3.sound()) by {
        reveal(GameModel::keeps);
    }
    let active = g3.active_player;
    lemma_first_to_act(g3);
    match phase {
        Phase::Untap => {
            let ids = g3.battlefield(active);
            moment_untap_each(g3, ids, ids.len());
        },
        Phase::Draw => {
            moment_draw_n(g3, active, 1);
            keep_draw(g3, active, 1);
            let g4 = g3.draw(active, 1);
            assert(g4.sound()) by {
                reveal(GameModel::keeps);
            }
            lemma_first_to_act(g4);
        },
        Phase::CombatDamage => {
            lemma_combat_damage_waits(g3, g3.combat_has_first_strike());
        },
        Phase::Main2 => {
            let g4 = GameModel { combat_round: CombatRound::Idle, ..g3.remove_all_from_combat() };
            lemma_same_places(g3, g4);
            assert(g4.sound()) by {
                reveal(GameModel::keeps);
            }
            lemma_first_to_act(g4);
        },
        _ => {},
    }
}

proof fn lemma_begin_turn(g: GameModel, seat: Seat)
    requires
        g.sound(),
        g.turn_order.len() > 0,
        g.started,
        g.seating.contains(seat),
    ensures
        g.begin_turn(seat).turn_order == g.turn_order,
        g.begin_turn(seat).outcome == g.outcome,
        g.begin_turn(seat).notches() <= 2,
{
    let turn = crate::types::sat_u32(g.turn + 1);
    let g1 = g.handed_over(seat, turn);
    crate::keeping::keep_handed_over(g, seat, turn);
    let g2 = g1.expire_all(crate::state::Expiry::TurnOf(seat));
    crate::keeping::keep_objects(g1, g2);
    let e: EventFacts = crate::event::EventModel::TurnStarted { turn, active: seat };
    lemma_emit(g2, e);
    assert(g2.emit(e).sound()) by {
        reveal(GameModel::keeps);
    }
    lemma_enter_phase(g2.emit(e), Phase::Untap);
}

/// Every notch brings the game closer to somebody to wait for.
#[verifier::rlimit(60)]
proof fn lemma_step_forward(g: GameModel)
    requires
        g.sound(),
        g.outcome is None,
        g.turn_order.len() >= 2,
        !g.waits(),
    ensures
        g.step_forward().turn_order == g.turn_order,
        g.step_forward().outcome == g.outcome,
        g.step_forward().notches() < g.notches(),
{
    reveal(GameModel::step_forward);
    lemma_seated(g);
    if !g.started {
        let g1 = GameModel { started: true, ..g };
        lemma_same_core(g, g1);
        assert(g1.sound()) by {
            reveal(GameModel::keeps);
        }
        lemma_begin_turn(g1, g.turn_order[0]);
    } else if g.turn_aborted {
        let g1 = GameModel { turn_aborted: false, ..g };
        lemma_same_core(g, g1);
        assert(g1.sound()) by {
            reveal(GameModel::keeps);
        }
        lemma_next_turn(g1);
    } else if g.phase is CombatDamage && g.combat_round is FirstStrikeDone {
        lemma_combat_damage_waits(g, false);
    } else {
        match g.phase.following() {
            None => {
                lemma_next_turn(g);
            },
            Some(next) => {
                lemma_enter_phase(g, g.phase_to_enter(next));
            },
        }
    }
}

proof fn lemma_next_turn(g: GameModel)
    requires
        g.sound(),
        g.turn_order.len() > 0,
        g.started,
    ensures
        g.advance_turn().turn_order == g.turn_order,
        g.advance_turn().outcome == g.outcome,
        g.advance_turn().notches() <= 2,
{
    lemma_seated(g);
    match find(g.seating, g.active_player) {
        Some(pos) => {
            crate::keeping::lemma_next_from(g, g.active_player, pos, 1);
        },
        None => {},
    }
    lemma_begin_turn(
        g,
        match g.next_after(g.active_player) {
            Some(s) => s,
            None => g.active_player,
        },
    );
}

// ----- until somebody can act -----

impl GameModel {
    /// Somebody in the game must act and can, or the game is over. Whoever is
    /// casting a spell has its card.
    pub open spec fn at_rest(self) -> bool {
        self.outcome is None ==> self.asks_somebody() && self.casts_its_own()
    }

    pub open spec fn asks_somebody(self) -> bool {
        self.acting() is Some && self.turn_order.len() >= 2 && !self.moot()
    }
}

proof fn lemma_divisible(g: GameModel, ids: Seq<ObjectId>, n: nat)
    ensures
        forall|k: int|
            0 <= k < g.divisible_n(ids, n).len() ==> g.divisible(
                #[trigger] g.divisible_n(ids, n)[k],
            ),
    decreases n,
{
    if n > 0 && n <= ids.len() {
        lemma_divisible(g, ids, (n - 1) as nat);
        let rest = g.divisible_n(ids, (n - 1) as nat);
        assert forall|k: int| 0 <= k < g.divisible_n(ids, n).len() implies g.divisible(
            #[trigger] g.divisible_n(ids, n)[k],
        ) by {
            if k < rest.len() {
                assert(g.divisible_n(ids, n)[k] == rest[k]);
            }
        }
    }
}

/// What lapses leaves a question that stands, or priority with somebody in
/// the game.
proof fn lemma_lapse(g: GameModel)
    requires
        g.sound(),
        g.outcome is None,
        g.turn_order.len() >= 2,
    ensures
        g.lapse().turn_order == g.turn_order,
        g.lapse().outcome is None,
        g.lapse().waits(),
        !g.lapse().moot(),
        g.lapse().sound(),
{
    crate::keeping::keep_lapse(g);
    assert(g.lapse().sound()) by {
        reveal(GameModel::keeps);
    }
    match g.pending {
        Some(crate::state::PendingModel::AssignDamage { queue, .. }) => {
            let left = g.divisible_n(queue, queue.len());
            lemma_divisible(g, queue, queue.len());
            if left.len() == 0 {
                let first = g.combat_round == CombatRound::FirstStrikeDone;
                let g1 = GameModel { pending: None, ..g };
                lemma_same_core(g, g1);
                assert(g1.sound()) by {
                    reveal(GameModel::keeps);
                }
                lemma_dealt(g1, first);
            } else {
                assert(g.divisible(left[0]));
                let h = g.lapse();
                assert(h.live_blockers(left[0]) == g.live_blockers(left[0])) by {
                    lemma_live_same(g, h, left[0], g.obj(left[0]).blocked_by.len());
                }
                assert(h.pending is Some && h.pending->0.who() == g.obj(left[0]).controller);
            }
        },
        _ => {
            let g1 = GameModel { pending: None, ..g };
            lemma_same_core(g, g1);
            assert(g1.sound()) by {
                reveal(GameModel::keeps);
            }
            lemma_first_to_act(g1);
            lemma_first_is_in(g1);
        },
    }
}

/// Who blocks an attacker is a matter of the objects alone.
pub proof fn lemma_live_same(g: GameModel, h: GameModel, id: ObjectId, n: nat)
    requires
        h.objects == g.objects,
    ensures
        h.live_n(id, g.obj(id).blocked_by, n) == g.live_n(id, g.obj(id).blocked_by, n),
    decreases n,
{
    if n > 0 && n <= g.obj(id).blocked_by.len() {
        lemma_live_same(g, h, id, (n - 1) as nat);
    }
}

pub proof fn lemma_settle_within(g: GameModel, fuel: nat)
    requires
        g.sound(),
        fuel >= 5 * g.turn_order.len() + g.notches(),
    ensures
        g.settle_within(fuel).outcome is None ==> g.settle_within(fuel).asks_somebody(),
        g.outcome is None && g.settle_within(fuel).outcome is Some ==> g.settle_within(
            fuel,
        ).ended_well(),
    decreases fuel,
{
    if g.outcome is None {
        let h = g.tidy();
        lemma_tidy(g);
        keep_tidy(g);
        assert(h.turn_order.len() <= g.turn_order.len()) by {
            reveal(GameModel::leads_to);
            reveal(GameModel::follows);
            reveal(GameModel::players_stay);
        }
        if h.outcome is Some {
        } else if h.moot() {
            lemma_lapse(h);
            if h.lapse().pending is None {
                lemma_settle_within(h.lapse(), (fuel - 1) as nat);
            }
        } else if !h.waits() {
            let k = h.step_forward();
            lemma_step_forward(h);
            keep_step_forward(h);
            lemma_settle_within(k, (fuel - 1) as nat);
        }
    }
}

/// Once settled, somebody must act or the game is over.
pub proof fn lemma_settle(g: GameModel)
    requires
        g.sound(),
        g.casts_its_own(),
    ensures
        g.settle().at_rest(),
        g.outcome is None && g.settle().outcome is Some ==> g.settle().ended_well(),
{
    reveal(GameModel::settle);
    assert(g.turn_order.len() <= 255) by {
        reveal(GameModel::table_agrees);
    }
    lemma_settle_within(g, crate::turn::MOST_NOTCHES as nat);
    crate::held::lemma_settled_casts(g);
}

} // verus!
