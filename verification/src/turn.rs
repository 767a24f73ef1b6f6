//! Turn structure and priority, and the auto-advance loop that guarantees
//! the engine never returns in a state where nobody can act.
use crate::event::{EventBase, EventModel};
use crate::seqs::{group_views, in_list, views};
use crate::state::{CombatRound, Expiry, Game, GameModel, Modifier, ModifierKind, ObjectModel, PendingChoice, PendingModel, PlayerModel};
use crate::types::{clamp_len_u8, sat_u32, sat_u8, ManaPool, ObjectId, Phase, Seat, Zone};
use vstd::prelude::*;

verus! {

broadcast use group_views;

/// How many notches the game may move forward on its own. Far more than any
/// table needs: every turn but an aborted one has a step with priority.
pub const MOST_NOTCHES: u32 = 10_000;

/// The first `n` modifiers but those that end at `e`.
pub open spec fn lasting(ms: Seq<Modifier>, e: Expiry, n: nat) -> Seq<Modifier>
    decreases n,
{
    if n == 0 || n > ms.len() {
        Seq::empty()
    } else {
        let rest = lasting(ms, e, (n - 1) as nat);
        if ms[n - 1].expires == e {
            rest
        } else {
            rest.push(ms[n - 1])
        }
    }
}

/// The first `n` modifiers but `m`.
pub open spec fn without_modifier(ms: Seq<Modifier>, m: Modifier, n: nat) -> Seq<Modifier>
    decreases n,
{
    if n == 0 || n > ms.len() {
        Seq::empty()
    } else {
        let rest = without_modifier(ms, m, (n - 1) as nat);
        if ms[n - 1] == m {
            rest
        } else {
            rest.push(ms[n - 1])
        }
    }
}

/// "Doesn't untap during its controller's next untap step."
pub open spec fn hold_of(seat: Seat) -> Modifier {
    Modifier { kind: ModifierKind::SkipUntap, expires: Expiry::NextUntapOf(seat) }
}

impl ObjectModel {
    pub open spec fn after_expiry(self, e: Expiry) -> ObjectModel {
        ObjectModel { modifiers: lasting(self.modifiers, e, self.modifiers.len()), ..self }
    }

    /// Damage is removed and "until end of turn" effects end (rule 514.2).
    pub open spec fn cleaned_up(self) -> ObjectModel {
        ObjectModel { damage: 0, deathtouch_damaged: false, ..self.after_expiry(Expiry::EndOfTurn) }
    }

    /// In its controller's untap step: no longer summoning sick, and untapped
    /// unless something holds it, which is then used up.
    pub open spec fn untapped_for(self, seat: Seat) -> ObjectModel {
        ObjectModel {
            summoning_sick: false,
            tapped: self.tapped && self.modifiers.contains(hold_of(seat)),
            modifiers: without_modifier(self.modifiers, hold_of(seat), self.modifiers.len()),
            ..self
        }
    }
}

impl GameModel {
    pub open spec fn expire_all(self, e: Expiry) -> GameModel {
        GameModel {
            objects: Seq::new(self.objects.len(), |i: int| self.objects[i].after_expiry(e)),
            ..self
        }
    }

    /// Rule 514.2: remove damage and end "until end of turn" effects.
    pub open spec fn finish_cleanup(self) -> GameModel {
        GameModel {
            objects: Seq::new(self.objects.len(), |i: int| self.objects[i].cleaned_up()),
            ..self
        }
    }

    pub open spec fn empty_pools(self) -> GameModel {
        GameModel {
            players: Seq::new(
                self.players.len(),
                |i: int| PlayerModel { mana_pool: ManaPool::none(), ..self.players[i] },
            ),
            ..self
        }
    }

    pub open spec fn untap_one(self, id: ObjectId) -> GameModel {
        let seat = self.active_player;
        let o = self.obj(id);
        let g = self.with_obj(id, o.untapped_for(seat));
        if self.has_obj(id) && o.tapped && !o.modifiers.contains(hold_of(seat)) {
            g.emit(EventModel::Untapped { object: id })
        } else {
            g
        }
    }

    pub open spec fn untap_each(self, ids: Seq<ObjectId>, n: nat) -> GameModel
        decreases n,
    {
        if n == 0 || n > ids.len() {
            self
        } else {
            self.untap_each(ids, (n - 1) as nat).untap_one(ids[n - 1])
        }
    }

    pub open spec fn untap_step(self) -> GameModel {
        let ids = self.battlefield(self.active_player);
        let g = self.untap_each(ids, ids.len());
        g.with_player(
            self.active_player,
            PlayerModel { lands_played_this_turn: 0, ..g.player(self.active_player) },
        )
    }

    pub open spec fn cleanup_step(self) -> GameModel {
        let held = self.hand(self.active_player).len();
        let max = self.format.max_hand_size;
        if held > max && !self.out(self.active_player) {
            GameModel {
                pending: Some(
                    PendingModel::Discard { seat: self.active_player, count: sat_u8(held - max) },
                ),
                ..self
            }
        } else {
            self.finish_cleanup()
        }
    }

    /// What happens on its own at the start of a step.
    pub open spec fn phase_action(self, phase: Phase) -> GameModel {
        let active = self.active_player;
        match phase {
            Phase::Untap => self.untap_step(),
            Phase::Draw => if self.turn == 1 && self.seating.len() == 2 {
                self.give_priority_to_active()
            } else {
                self.draw(active, 1).give_priority_to_active()
            },
            Phase::DeclareAttackers => if self.attack_candidates(active).len() == 0 {
                self.give_priority_to_active()
            } else {
                GameModel {
                    pending: Some(PendingModel::DeclareAttackers { seat: active }),
                    ..self
                }
            },
            Phase::DeclareBlockers => {
                let defenders = self.defending_seats();
                if defenders.len() == 0 {
                    self.give_priority_to_active()
                } else {
                    GameModel {
                        pending: Some(
                            PendingModel::DeclareBlockers {
                                seat: defenders[0],
                                remaining: defenders.drop_first(),
                            },
                        ),
                        ..self
                    }
                }
            },
            Phase::CombatDamage => self.begin_combat_damage(self.combat_has_first_strike()),
            Phase::Main2 => GameModel {
                combat_round: CombatRound::Idle,
                ..self.remove_all_from_combat()
            }.give_priority_to_active(),
            Phase::Cleanup => self.cleanup_step(),
            _ => self.give_priority_to_active(),
        }
    }

    /// Mana empties at the end of every step and phase (rule 500.4).
    pub open spec fn enter_phase(self, phase: Phase) -> GameModel {
        GameModel { phase, priority: None, passed_in_succession: 0, ..self }.empty_pools().emit(
            EventModel::PhaseChanged { phase },
        ).phase_action(phase)
    }

    pub open spec fn begin_turn(self, seat: Seat) -> GameModel {
        let turn = sat_u32(self.turn + 1);
        GameModel { turn, active_player: seat, turn_aborted: false, ..self }.expire_all(
            Expiry::TurnOf(seat),
        ).emit(EventModel::TurnStarted { turn, active: seat }).enter_phase(Phase::Untap)
    }

    pub open spec fn advance_turn(self) -> GameModel {
        self.begin_turn(
            match self.next_after(self.active_player) {
                Some(s) => s,
                None => self.active_player,
            },
        )
    }

    /// The step that follows; the blocker and damage steps are skipped when
    /// nothing attacked (rule 508.8).
    pub open spec fn phase_to_enter(self, next: Phase) -> Phase {
        if (next is DeclareBlockers || next is CombatDamage) && !self.any_attackers() {
            Phase::EndCombat
        } else {
            next
        }
    }

    /// Nobody can act and nothing is pending: move the game forward one notch.
    #[verifier::opaque]
    pub open spec fn step_forward(self) -> GameModel {
        if !self.started {
            GameModel { started: true, ..self }.begin_turn(
                if self.turn_order.len() > 0 {
                    self.turn_order[0]
                } else {
                    self.active_player
                },
            )
        } else if self.turn_aborted {
            GameModel { turn_aborted: false, ..self }.advance_turn()
        } else if self.phase is CombatDamage && self.combat_round is FirstStrikeDone {
            self.begin_combat_damage(false)
        } else {
            match self.phase.following() {
                None => self.advance_turn(),
                Some(next) => self.enter_phase(self.phase_to_enter(next)),
            }
        }
    }

    /// State-based actions, then triggers onto the stack before anyone
    /// receives priority (rule 117.5).
    #[verifier::opaque]
    pub open spec fn tidy(self) -> GameModel {
        let g = self.check_state_based_actions();
        if g.outcome is Some || g.pending is Some {
            g
        } else {
            g.collect_triggers().place_triggers().0
        }
    }

    /// How to divide the damage of an attacker is somebody's to say: its
    /// controller is in the game, and something blocks it.
    pub open spec fn divisible(self, id: ObjectId) -> bool {
        self.has_obj(id) && self.turn_order.contains(self.obj(id).controller)
            && self.live_blockers(id).len() > 0
    }

    pub open spec fn divisible_n(self, ids: Seq<ObjectId>, n: nat) -> Seq<ObjectId>
        decreases n,
    {
        if n == 0 || n > ids.len() {
            Seq::empty()
        } else {
            let rest = self.divisible_n(ids, (n - 1) as nat);
            if self.divisible(ids[n - 1]) {
                rest.push(ids[n - 1])
            } else {
                rest
            }
        }
    }

    /// The game waits for a player who has left it, or asks how to divide
    /// damage among blockers that have.
    pub open spec fn moot(self) -> bool {
        match self.pending {
            Some(p) => !self.turn_order.contains(p.who()) || (p matches PendingModel::AssignDamage {
                attacker,
                ..
            } && self.live_blockers(attacker).len() == 0),
            None => match self.priority {
                Some(s) => !self.turn_order.contains(s),
                None => false,
            },
        }
    }

    /// What is moot lapses: damage is divided where it still can be, and dealt
    /// if nowhere; otherwise the active player gets priority.
    pub open spec fn lapse(self) -> GameModel {
        match self.pending {
            Some(PendingModel::AssignDamage { queue, .. }) => self.continue_damage_assignment(
                self.divisible_n(queue, queue.len()),
                self.combat_round == CombatRound::FirstStrikeDone,
            ),
            _ => GameModel { pending: None, ..self }.give_priority_to_active(),
        }
    }

    /// Run state-based actions, turn-based actions and phase advancement until
    /// some seat has a legal action or the game is over, `fuel` notches at most.
    pub open spec fn settle_within(self, fuel: nat) -> GameModel
        decreases fuel,
    {
        if self.outcome is Some {
            self
        } else {
            let g = self.tidy();
            if g.outcome is Some || fuel == 0 {
                g
            } else if g.moot() {
                let h = g.lapse();
                if h.pending is Some {
                    h
                } else {
                    h.settle_within((fuel - 1) as nat)
                }
            } else if g.pending is Some || g.priority is Some {
                g
            } else {
                g.step_forward().settle_within((fuel - 1) as nat)
            }
        }
    }

    #[verifier::opaque]
    pub open spec fn settle(self) -> GameModel {
        self.settle_within(MOST_NOTCHES as nat)
    }

    // ----- what players do with priority -----

    /// Once everyone has passed in succession, the top of the stack resolves,
    /// or the step ends.
    #[verifier::opaque]
    pub open spec fn pass_priority(self, seat: Seat) -> GameModel {
        let passed = sat_u8(self.passed_in_succession + 1);
        let g = self.emit(EventModel::PriorityPassed { seat });
        if passed >= g.turn_order.len() {
            let g1 = GameModel { passed_in_succession: 0, ..g };
            if g1.stack.len() > 0 {
                let (g2, done) = GameModel { stack: g1.stack.drop_last(), ..g1 }.resolve(
                    g1.stack.last(),
                );
                if done {
                    g2.give_priority_to_active()
                } else {
                    g2
                }
            } else {
                GameModel { priority: None, ..g1 }
            }
        } else {
            GameModel { passed_in_succession: passed, priority: g.next_after(seat), ..g }
        }
    }

    #[verifier::opaque]
    pub open spec fn play_land(self, seat: Seat, object: ObjectId) -> GameModel {
        let g = self.with_obj(
            object,
            ObjectModel { controller: seat, ..self.obj(object) },
        ).move_object(object, Zone::Battlefield);
        g.with_player(
            seat,
            PlayerModel {
                lands_played_this_turn: sat_u8(g.player(seat).lands_played_this_turn + 1),
                ..g.player(seat)
            },
        ).emit(EventModel::LandPlayed { seat, object }).give_priority(seat)
    }

    #[verifier::opaque]
    pub open spec fn discard_to_hand_size(self, seat: Seat, objects: Seq<ObjectId>) -> GameModel {
        let g = self.move_all(objects, Zone::Graveyard, objects.len()).emit(
            EventModel::Discarded { seat, objects },
        );
        GameModel { pending: None, ..g }.finish_cleanup()
    }
}

fn lasting_of(ms: &Vec<Modifier>, e: Expiry) -> (r: Vec<Modifier>)
    ensures
        r@ == lasting(ms@, e, ms@.len()),
{
    let mut out: Vec<Modifier> = Vec::new();
    let mut i: usize = 0;
    while i < ms.len()
        invariant
            i <= ms.len(),
            out@ == lasting(ms@, e, i as nat),
        decreases ms.len() - i,
    {
        if ms[i].expires != e {
            out.push(ms[i]);
        }
        i = i + 1;
    }
    out
}

fn drop_modifier(ms: &Vec<Modifier>, m: Modifier) -> (r: (Vec<Modifier>, bool))
    ensures
        r.0@ == without_modifier(ms@, m, ms@.len()),
        r.1 == ms@.contains(m),
{
    let mut out: Vec<Modifier> = Vec::new();
    let mut found = false;
    let mut i: usize = 0;
    while i < ms.len()
        invariant
            i <= ms.len(),
            out@ == without_modifier(ms@, m, i as nat),
            found ==> ms@.contains(m),
            !found ==> forall|j: int| 0 <= j < i ==> ms@[j] != m,
        decreases ms.len() - i,
    {
        if ms[i] == m {
            found = true;
        } else {
            out.push(ms[i]);
        }
        i = i + 1;
    }
    (out, found)
}

impl Game {
    fn expire_all(&mut self, e: Expiry)
        ensures
            final(self).model() == old(self).model().expire_all(e),
    {
        let ghost g = self.model();
        let mut i: usize = 0;
        while i < self.objects.items.len()
            invariant
                i <= self.objects.items.len(),
                self.objects@.len() == g.objects.len(),
                self.model() == (GameModel { objects: self.objects@, ..g }),
                forall|j: int|
                    0 <= j < g.objects.len() ==> #[trigger] self.objects@[j] == (if j < i {
                        g.objects[j].after_expiry(e)
                    } else {
                        g.objects[j]
                    }),
            decreases self.objects.items.len() - i,
        {
            let ghost before = self.objects@;
            let o = &mut self.objects.items[i];
            o.modifiers = lasting_of(&o.modifiers, e);
            assert(self.objects@ =~= before.update(i as int, before[i as int].after_expiry(e)));
            i = i + 1;
        }
        assert(self.model() =~= g.expire_all(e));
    }

    /// Rule 514.2: remove damage and end "until end of turn" effects. No
    /// priority is given in cleanup, so the settle loop advances straight to
    /// the next turn.
    pub(crate) fn finish_cleanup(&mut self)
        ensures
            final(self).model() == old(self).model().finish_cleanup(),
    {
        let ghost g = self.model();
        let mut i: usize = 0;
        while i < self.objects.items.len()
            invariant
                i <= self.objects.items.len(),
                self.objects@.len() == g.objects.len(),
                self.model() == (GameModel { objects: self.objects@, ..g }),
                forall|j: int|
                    0 <= j < g.objects.len() ==> #[trigger] self.objects@[j] == (if j < i {
                        g.objects[j].cleaned_up()
                    } else {
                        g.objects[j]
                    }),
            decreases self.objects.items.len() - i,
        {
            let ghost before = self.objects@;
            let o = &mut self.objects.items[i];
            o.damage = 0;
            o.deathtouch_damaged = false;
            o.modifiers = lasting_of(&o.modifiers, Expiry::EndOfTurn);
            assert(self.objects@ =~= before.update(i as int, before[i as int].cleaned_up()));
            i = i + 1;
        }
        assert(self.model() =~= g.finish_cleanup());
    }

    fn empty_pools(&mut self)
        ensures
            final(self).model() == old(self).model().empty_pools(),
    {
        let ghost g = self.model();
        let mut i: usize = 0;
        while i < self.players.len()
            invariant
                i <= self.players.len(),
                self.players@.len() == g.players.len(),
                self.model() == (GameModel { players: views(self.players@), ..g }),
                forall|j: int|
                    0 <= j < g.players.len() ==> #[trigger] views(self.players@)[j] == (if j < i {
                        PlayerModel { mana_pool: ManaPool::none(), ..g.players[j] }
                    } else {
                        g.players[j]
                    }),
            decreases self.players.len() - i,
        {
            let ghost before = views(self.players@);
            let p = &mut self.players[i];
            p.mana_pool = ManaPool::empty();
            assert(views(self.players@) =~= before.update(
                i as int,
                PlayerModel { mana_pool: ManaPool::none(), ..before[i as int] },
            ));
            i = i + 1;
        }
        assert(self.model() =~= g.empty_pools());
    }

    fn untap_one(&mut self, id: ObjectId)
        ensures
            final(self).model() == old(self).model().untap_one(id),
    {
        let hold = Modifier {
            kind: ModifierKind::SkipUntap,
            expires: Expiry::NextUntapOf(self.active_player),
        };
        let untaps = match self.obj_mut(id) {
            Some(o) => {
                let (left, held) = drop_modifier(&o.modifiers, hold);
                let untaps = o.tapped && !held;
                o.summoning_sick = false;
                o.tapped = o.tapped && held;
                o.modifiers = left;
                untaps
            },
            None => false,
        };
        if untaps {
            self.emit(EventBase::Untapped { object: id });
        }
    }

    fn untap_step(&mut self)
        ensures
            final(self).model() == old(self).model().untap_step(),
    {
        let active = self.active_player;
        let ids = self.battlefield_of(active);
        let mut i: usize = 0;
        while i < ids.len()
            invariant
                i <= ids.len(),
                self.model() == old(self).model().untap_each(ids@, i as nat),
            decreases ids.len() - i,
        {
            self.untap_one(ids[i]);
            i = i + 1;
        }
        match self.player_mut(active) {
            Some(p) => {
                p.lands_played_this_turn = 0;
            },
            None => {},
        }
    }

    fn cleanup_step(&mut self)
        ensures
            final(self).model() == old(self).model().cleanup_step(),
    {
        let active = self.active_player;
        let max: usize = self.format.max_hand_size as usize;
        let held: usize = self.hand_of(active).len();
        if held > max && !self.is_eliminated(active) {
            self.pending = Some(
                PendingChoice::Discard { seat: active, count: clamp_len_u8(held - max) },
            );
            return ;
        }
        self.finish_cleanup();
    }

    fn phase_action(&mut self, phase: Phase)
        ensures
            final(self).model() == old(self).model().phase_action(phase),
    {
        let active = self.active_player;
        match phase {
            Phase::Untap => self.untap_step(),
            Phase::Draw => {
                // In a two-player game the starting player skips their first draw
                // (rule 103.8a); in larger games nobody does (103.8c).
                if !(self.turn == 1 && self.seating.len() == 2) {
                    self.draw(active, 1);
                }
                self.give_priority_to_active();
            },
            Phase::DeclareAttackers => {
                if self.attack_candidates(active).len() == 0 {
                    self.give_priority_to_active();
                } else {
                    self.pending = Some(PendingChoice::DeclareAttackers { seat: active });
                }
            },
            Phase::DeclareBlockers => {
                let defenders = self.defending_seats();
                if defenders.len() == 0 {
                    self.give_priority_to_active();
                } else {
                    let head = defenders[0];
                    let remaining = crate::combat::tail(&defenders);
                    self.pending = Some(PendingChoice::DeclareBlockers { seat: head, remaining });
                }
            },
            Phase::CombatDamage => {
                let first = self.combat_has_first_strike();
                self.begin_combat_damage(first);
            },
            Phase::Main2 => {
                self.remove_all_from_combat();
                self.combat_round = CombatRound::Idle;
                self.give_priority_to_active();
            },
            Phase::Cleanup => self.cleanup_step(),
            _ => {
                self.give_priority_to_active();
            },
        }
    }

    pub(crate) fn enter_phase(&mut self, phase: Phase)
        ensures
            final(self).model() == old(self).model().enter_phase(phase),
    {
        self.phase = phase;
        self.priority = None;
        self.passed_in_succession = 0;
        // Mana empties at the end of every step and phase (rule 500.4).
        self.empty_pools();
        self.emit(EventBase::PhaseChanged { phase });
        self.phase_action(phase);
    }

    fn begin_turn(&mut self, seat: Seat)
        ensures
            final(self).model() == old(self).model().begin_turn(seat),
    {
        let turn: u32 = if self.turn < 0xffff_ffff {
            self.turn + 1
        } else {
            0xffff_ffff
        };
        self.turn = turn;
        self.active_player = seat;
        self.turn_aborted = false;
        // "Until your next turn" effects this player created end now.
        self.expire_all(Expiry::TurnOf(seat));
        self.emit(EventBase::TurnStarted { turn, active: seat });
        self.enter_phase(Phase::Untap);
    }

    fn advance_turn(&mut self)
        ensures
            final(self).model() == old(self).model().advance_turn(),
    {
        let next = match self.next_in_turn_order_after(self.active_player) {
            Some(s) => s,
            None => self.active_player,
        };
        self.begin_turn(next);
    }

    /// Nobody can act and nothing is pending: move the game forward one notch.
    fn step_forward(&mut self)
        ensures
            final(self).model() == old(self).model().step_forward(),
    {
        reveal(GameModel::step_forward);
        if !self.started {
            self.started = true;
            let first = if self.turn_order.len() > 0 {
                self.turn_order[0]
            } else {
                self.active_player
            };
            self.begin_turn(first);
            return ;
        }
        if self.turn_aborted {
            self.turn_aborted = false;
            self.advance_turn();
            return ;
        }
        // After first-strike damage and a round of priority, regular damage is
        // dealt (rule 510.4).
        if self.phase == Phase::CombatDamage && self.combat_round == CombatRound::FirstStrikeDone {
            self.begin_combat_damage(false);
            return ;
        }
        match self.phase.next() {
            None => self.advance_turn(),
            Some(next) => {
                // Skip the blocker and damage steps when nothing attacked (rule 508.8).
                let skipped = matches!(next, Phase::DeclareBlockers | Phase::CombatDamage)
                    && !self.any_attackers();
                if skipped {
                    self.enter_phase(Phase::EndCombat);
                } else {
                    self.enter_phase(next);
                }
            },
        }
    }

    fn tidy(&mut self)
        ensures
            final(self).model() == old(self).model().tidy(),
    {
        reveal(GameModel::tidy);
        self.check_state_based_actions();
        if self.outcome.is_some() || self.pending.is_some() {
            return ;
        }
        self.collect_triggers();
        let _placed = self.place_triggers();
    }

    fn is_moot(&self) -> (b: bool)
        ensures
            b == self.model().moot(),
    {
        match &self.pending {
            Some(p) => {
                if !in_list(&self.turn_order, p.seat()) {
                    return true;
                }
                match p {
                    PendingChoice::AssignDamage { attacker, .. } => self.live_blockers(
                        *attacker,
                    ).len() == 0,
                    _ => false,
                }
            },
            None => match self.priority {
                Some(s) => !in_list(&self.turn_order, s),
                None => false,
            },
        }
    }

    /// The attackers of a queue whose damage is still somebody's to divide.
    fn still_divisible(&self, ids: &Vec<ObjectId>) -> (r: Vec<ObjectId>)
        ensures
            r@ == self.model().divisible_n(ids@, ids@.len()),
    {
        let mut out: Vec<ObjectId> = Vec::new();
        let mut i: usize = 0;
        while i < ids.len()
            invariant
                i <= ids.len(),
                out@ == self.model().divisible_n(ids@, i as nat),
            decreases ids.len() - i,
        {
            if let Some(o) = self.find_obj(ids[i]) {
                if in_list(&self.turn_order, o.controller) && self.live_blockers(ids[i]).len()
                    > 0 {
                    out.push(ids[i]);
                }
            }
            i = i + 1;
        }
        out
    }

    fn lapse(&mut self)
        ensures
            final(self).model() == old(self).model().lapse(),
    {
        let queue: Option<Vec<ObjectId>> = match &self.pending {
            Some(PendingChoice::AssignDamage { queue, .. }) => Some(self.still_divisible(queue)),
            _ => None,
        };
        match queue {
            Some(left) => {
                let first = self.combat_round == CombatRound::FirstStrikeDone;
                self.continue_damage_assignment(&left, first);
            },
            None => {
                self.pending = None;
                self.give_priority_to_active();
            },
        }
    }

    /// Run state-based actions, turn-based actions and phase advancement until
    /// some seat has a legal action or the game is over.
    pub(crate) fn settle(&mut self)
        ensures
            final(self).model() == old(self).model().settle(),
    {
        reveal(GameModel::settle);
        let ghost g = self.model();
        let mut fuel: u32 = MOST_NOTCHES;
        let mut done = self.outcome.is_some();
        while !done
            invariant
                g == old(self).model(),
                !done ==> self.model().outcome is None,
                !done ==> g.settle() == self.model().settle_within(fuel as nat),
                done ==> g.settle() == self.model(),
            decreases fuel, (if done { 0nat } else { 1nat }),
        {
            self.tidy();
            if self.outcome.is_some() || fuel == 0 {
                done = true;
            } else if self.is_moot() {
                self.lapse();
                fuel = fuel - 1;
                if self.pending.is_some() || self.outcome.is_some() {
                    done = true;
                }
            } else if self.pending.is_some() || self.priority.is_some() {
                done = true;
            } else {
                self.step_forward();
                fuel = fuel - 1;
                if self.outcome.is_some() {
                    done = true;
                }
            }
        }
    }

    pub(crate) fn pass_priority(&mut self, seat: Seat)
        ensures
            final(self).model() == old(self).model().pass_priority(seat),
    {
        reveal(GameModel::pass_priority);
        self.emit(EventBase::PriorityPassed { seat });
        let passed: u8 = if self.passed_in_succession < 255 {
            self.passed_in_succession + 1
        } else {
            255
        };
        if passed as usize >= self.turn_order.len() {
            self.passed_in_succession = 0;
            let ghost before = self.stack@;
            match self.stack.pop() {
                Some(top) => {
                    assert(views(self.stack@) =~= views(before).drop_last());
                    if self.resolve(top) {
                        self.give_priority_to_active();
                    }
                },
                None => {
                    self.priority = None;
                },
            }
        } else {
            let next = self.next_in_turn_order_after(seat);
            self.passed_in_succession = passed;
            self.priority = next;
        }
    }

    pub(crate) fn play_land(&mut self, seat: Seat, object: ObjectId)
        ensures
            final(self).model() == old(self).model().play_land(seat, object),
    {
        reveal(GameModel::play_land);
        match self.obj_mut(object) {
            Some(o) => {
                o.controller = seat;
            },
            None => {},
        }
        self.move_object(object, Zone::Battlefield);
        match self.player_mut(seat) {
            Some(p) => {
                if p.lands_played_this_turn < 255 {
                    p.lands_played_this_turn = p.lands_played_this_turn + 1;
                }
            },
            None => {},
        }
        self.emit(EventBase::LandPlayed { seat, object });
        self.give_priority(seat);
    }

    pub(crate) fn discard_to_hand_size(&mut self, seat: Seat, objects: &Vec<ObjectId>)
        ensures
            final(self).model() == old(self).model().discard_to_hand_size(seat, objects@),
    {
        reveal(GameModel::discard_to_hand_size);
        self.move_all(objects, Zone::Graveyard);
        self.emit(EventBase::Discarded { seat, objects: crate::seqs::copied(objects) });
        self.pending = None;
        self.finish_cleanup();
    }
}

} // verus!
