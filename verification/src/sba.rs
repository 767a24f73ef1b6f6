//! State-based actions (rule 704) and elimination (rule 800.4a), N-player
//! from day one.
use crate::action::AttackTarget;
use crate::event::{Elimination, EventBase, EventModel, Outcome};
use crate::format::FormatRule;
use crate::seqs::{copied, drop_value, group_views, views, without};
use crate::state::{Counters, Game, GameModel, ObjectModel, PendingChoice, PendingModel, PlayerModel, StackModel};
use crate::types::{Keyword, ObjectId, Seat, Zone};
use vstd::prelude::*;

verus! {

broadcast use group_views;

/// The threshold the first poison rule from index `i` on sets; ten if there is none.
pub open spec fn poison_rule(rules: Seq<FormatRule>, i: nat) -> u8
    decreases rules.len() - i,
{
    if i >= rules.len() {
        10
    } else {
        match rules[i as int] {
            FormatRule::Poison(n) => n,
            _ => poison_rule(rules, i + 1),
        }
    }
}

/// The first `n` entries of a stack but those a player controls.
pub open spec fn stack_not_of(stack: Seq<StackModel>, seat: Seat, n: nat) -> Seq<StackModel>
    decreases n,
{
    if n == 0 || n > stack.len() {
        Seq::empty()
    } else {
        let rest = stack_not_of(stack, seat, (n - 1) as nat);
        if stack[n - 1].controller == seat {
            rest
        } else {
            rest.push(stack[n - 1])
        }
    }
}

impl ObjectModel {
    /// No longer attacking a player who left.
    pub open spec fn not_attacking(self, seat: Seat) -> ObjectModel {
        if self.attacking == Some(AttackTarget::Player(seat)) {
            ObjectModel { attacking: None, blocked: false, blocked_by: Seq::empty(), ..self }
        } else {
            self
        }
    }

    /// +1/+1 and -1/-1 counters cancel out in pairs.
    pub open spec fn counters_left(self) -> Counters {
        let c = self.counters;
        if c.plus1 < c.minus1 {
            Counters { plus1: 0, minus1: (c.minus1 - c.plus1) as u8 }
        } else {
            Counters { plus1: (c.plus1 - c.minus1) as u8, minus1: 0 }
        }
    }
}

impl GameModel {
    // ----- leaving the game -----

    /// Ids among the first `n` objects of those `seat` owns that are still in the game.
    pub open spec fn owned_by(self, seat: Seat, n: nat) -> Seq<ObjectId>
        decreases n,
    {
        if n == 0 || n > self.objects.len() {
            Seq::empty()
        } else {
            let rest = self.owned_by(seat, (n - 1) as nat);
            if self.objects[n - 1].owner == seat && !(self.objects[n - 1].zone is OutOfGame) {
                rest.push(ObjectId(n as u32))
            } else {
                rest
            }
        }
    }

    /// Everything of a player who leaves goes: the seat from the turn order,
    /// what they own from the game, what they control from the stack.
    pub open spec fn strip(self, seat: Seat, reason: Elimination) -> GameModel {
        let g = self.with_player(
            seat,
            PlayerModel { eliminated: Some(reason), ..self.player(seat) },
        ).emit(EventModel::Eliminated { seat, reason });
        let g1 = GameModel { turn_order: without(g.turn_order, seat), ..g };
        let owned = g1.owned_by(seat, g1.objects.len());
        let g2 = g1.move_all(owned, Zone::OutOfGame, owned.len());
        GameModel {
            stack: stack_not_of(g2.stack, seat, g2.stack.len()),
            objects: Seq::new(g2.objects.len(), |i: int| g2.objects[i].not_attacking(seat)),
            ..g2
        }
    }

    /// A player leaves the game. If it was their turn, the turn ends; if a
    /// decision was theirs, the next seat gets it or it lapses.
    #[verifier::opaque]
    pub open spec fn eliminate(self, seat: Seat, reason: Elimination) -> GameModel {
        if !self.has_seat(seat) || self.out(seat) {
            self
        } else {
            let g = self.strip(seat, reason);
            let g1 = if g.priority == Some(seat) {
                GameModel { priority: g.next_after(seat), ..g }
            } else {
                g
            };
            if seat == g1.active_player {
                GameModel { turn_aborted: true, pending: None, priority: None, ..g1 }
            } else {
                match g1.pending {
                    Some(p) => if p.who() == seat {
                        let g2 = GameModel { pending: None, ..g1 };
                        match p {
                            PendingModel::DeclareBlockers { remaining, .. } => g2.continue_blockers(
                                remaining,
                            ),
                            PendingModel::Mulligan { .. } => g2.advance_mulligan(seat),
                            PendingModel::BottomCards { .. } => g2.advance_mulligan(seat),
                            _ => g2,
                        }
                    } else {
                        g1
                    },
                    None => g1,
                }
            }
        }
    }

    // ----- one pass of state-based actions -----

    /// Why a player loses right now.
    pub open spec fn losing(self, seat: Seat) -> Option<Elimination> {
        if !self.has_seat(seat) {
            None
        } else if self.player(seat).life <= 0 {
            Some(Elimination::LifeZero)
        } else if self.player(seat).drew_from_empty {
            Some(Elimination::DrewFromEmptyLibrary)
        } else if self.player(seat).poison >= poison_rule(self.format.rules@, 0) {
            Some(Elimination::Poison)
        } else {
            None
        }
    }

    /// The losers among the first `n` seats leave; whether there were any.
    pub open spec fn losers_leave(self, seats: Seq<Seat>, n: nat) -> (GameModel, bool)
        decreases n,
    {
        if n == 0 || n > seats.len() {
            (self, false)
        } else {
            let (g, acted) = self.losers_leave(seats, (n - 1) as nat);
            match g.losing(seats[n - 1]) {
                Some(reason) => (g.eliminate(seats[n - 1], reason), true),
                None => (g, acted),
            }
        }
    }

    /// Counters of both kinds on one of the first `n` permanents cancel out.
    pub open spec fn counters_cancel(self, ids: Seq<ObjectId>, n: nat) -> (GameModel, bool)
        decreases n,
    {
        if n == 0 || n > ids.len() {
            (self, false)
        } else {
            let (g, acted) = self.counters_cancel(ids, (n - 1) as nat);
            let id = ids[n - 1];
            let c = g.obj(id).counters;
            if g.has_obj(id) && c.plus1 > 0 && c.minus1 > 0 {
                (
                    g.with_obj(id, ObjectModel { counters: g.obj(id).counters_left(), ..g.obj(id) }),
                    true,
                )
            } else {
                (g, acted)
            }
        }
    }

    /// A creature dies: its toughness is gone, or damage destroys it.
    pub open spec fn dying(self, id: ObjectId) -> bool {
        self.in_zone(id, Zone::Battlefield) && match self.pt(id) {
            Some((_, toughness)) => toughness <= 0 || ((self.obj(id).damage >= toughness
                || self.obj(id).deathtouch_damaged) && !self.has_keyword(
                id,
                Keyword::Indestructible,
            )),
            None => false,
        }
    }

    pub open spec fn dying_die(self, ids: Seq<ObjectId>, n: nat) -> (GameModel, bool)
        decreases n,
    {
        if n == 0 || n > ids.len() {
            (self, false)
        } else {
            let (g, acted) = self.dying_die(ids, (n - 1) as nat);
            if g.dying(ids[n - 1]) {
                (g.move_object(ids[n - 1], Zone::Graveyard), true)
            } else {
                (g, acted)
            }
        }
    }

    /// Attached to something that is on the battlefield.
    pub open spec fn held(self, id: ObjectId) -> bool {
        match self.obj(id).attached_to {
            Some(to) => self.in_zone(to, Zone::Battlefield),
            None => false,
        }
    }

    /// An aura that holds nothing goes to the graveyard; an equipment whose
    /// bearer left stays, unattached.
    pub open spec fn attachments_fall(self, ids: Seq<ObjectId>, n: nat) -> (GameModel, bool)
        decreases n,
    {
        if n == 0 || n > ids.len() {
            (self, false)
        } else {
            let (g, acted) = self.attachments_fall(ids, (n - 1) as nat);
            let id = ids[n - 1];
            if !g.in_zone(id, Zone::Battlefield) || !g.has_def(id) || g.held(id) {
                (g, acted)
            } else if g.def(id).aura() {
                (g.move_object(id, Zone::Graveyard), true)
            } else if g.obj(id).attached_to is Some {
                (g.with_obj(id, ObjectModel { attached_to: None, ..g.obj(id) }), true)
            } else {
                (g, acted)
            }
        }
    }

    /// A token that left the battlefield ceases to exist (rule 111.7).
    pub open spec fn tokens_cease(self, n: nat) -> (GameModel, bool)
        decreases n,
    {
        if n == 0 || n > self.objects.len() {
            (self, false)
        } else {
            let (g, acted) = self.tokens_cease((n - 1) as nat);
            let id = ObjectId(n as u32);
            if g.has_def(id) && g.def(id).token && !(g.obj(id).zone is Battlefield) && !(g.obj(
                id,
            ).zone is OutOfGame) {
                (g.move_object(id, Zone::OutOfGame), true)
            } else {
                (g, acted)
            }
        }
    }

    /// Every state-based action once; whether any applied.
    pub open spec fn sba_pass(self) -> (GameModel, bool) {
        let (g1, a1) = self.losers_leave(self.turn_order, self.turn_order.len());
        let ids = g1.on_battlefield();
        let (g2, a2) = g1.counters_cancel(ids, ids.len());
        let (g3, a3) = g2.dying_die(ids, ids.len());
        let (g4, a4) = g3.attachments_fall(ids, ids.len());
        let (g5, a5) = g4.tokens_cease(g4.objects.len());
        (g5, a1 || a2 || a3 || a4 || a5)
    }

    /// Passes until nothing applies, `fuel` of them at most.
    pub open spec fn sba_passes(self, fuel: nat) -> GameModel
        decreases fuel,
    {
        if fuel == 0 {
            self
        } else {
            let (g, acted) = self.sba_pass();
            if acted {
                g.sba_passes((fuel - 1) as nat)
            } else {
                g
            }
        }
    }

    /// A pass that acts takes a player out of the game, cancels counters,
    /// takes something off the battlefield, detaches something or removes a
    /// token: each object is good for four passes and each seat for one.
    pub open spec fn sba_fuel(self) -> nat {
        self.turn_order.len() + 4 * self.objects.len() + 1
    }

    pub open spec fn end_game(self, outcome: Outcome) -> GameModel {
        GameModel { outcome: Some(outcome), pending: None, priority: None, ..self }.emit(
            EventModel::GameOver { outcome },
        )
    }

    /// State-based actions until none applies; then the game is over if at
    /// most one player is left.
    pub open spec fn check_state_based_actions(self) -> GameModel {
        let g = self.sba_passes(self.sba_fuel());
        if g.outcome is Some {
            g
        } else if g.turn_order.len() == 0 {
            g.end_game(Outcome::Draw)
        } else if g.turn_order.len() == 1 {
            g.end_game(Outcome::Winner(g.turn_order[0]))
        } else {
            g
        }
    }
}

impl Game {
    fn poison_threshold(&self) -> (n: u8)
        ensures
            n == poison_rule(self.model().format.rules@, 0),
    {
        let rules = &self.format.rules;
        let mut i: usize = 0;
        while i < rules.len()
            invariant
                i <= rules.len(),
                rules@ == self.model().format.rules@,
                poison_rule(rules@, 0) == poison_rule(rules@, i as nat),
            decreases rules.len() - i,
        {
            if let FormatRule::Poison(n) = rules[i] {
                return n;
            }
            i = i + 1;
        }
        10
    }

    fn end_game(&mut self, outcome: Outcome)
        ensures
            final(self).model() == old(self).model().end_game(outcome),
    {
        self.outcome = Some(outcome);
        self.pending = None;
        self.priority = None;
        self.emit(EventBase::GameOver { outcome });
    }

    fn owned_by(&self, seat: Seat) -> (r: Vec<ObjectId>)
        ensures
            r@ == self.model().owned_by(seat, self.model().objects.len()),
    {
        let mut out: Vec<ObjectId> = Vec::new();
        let mut i: usize = 0;
        while i < self.objects.items.len()
            invariant
                i <= self.objects.items.len(),
                out@ == self.model().owned_by(seat, i as nat),
            decreases self.objects.items.len() - i,
        {
            let o = &self.objects.items[i];
            if o.owner == seat && o.zone != Zone::OutOfGame {
                out.push(ObjectId((i + 1) as u32));
            }
            i = i + 1;
        }
        out
    }

    fn clear_stack_of(&mut self, seat: Seat)
        ensures
            final(self).model() == (GameModel {
                stack: stack_not_of(
                    old(self).model().stack,
                    seat,
                    old(self).model().stack.len(),
                ),
                ..old(self).model()
            }),
    {
        let ghost all = views(self.stack@);
        let mut i: usize = 0;
        let ghost mut seen: nat = 0;
        while i < self.stack.len()
            invariant
                i <= self.stack.len(),
                seen + (self.stack.len() - i) == all.len(),
                views(self.stack@) =~= stack_not_of(all, seat, seen) + all.subrange(
                    seen as int,
                    all.len() as int,
                ),
                i == stack_not_of(all, seat, seen).len(),
                self.model() == (GameModel { stack: views(self.stack@), ..old(self).model() }),
                all == old(self).model().stack,
            decreases self.stack.len() - i,
        {
            assert(views(self.stack@)[i as int] == all.subrange(seen as int, all.len() as int)[0]);
            assert(self.stack@[i as int]@ == all[seen as int]);
            if self.stack[i].controller == seat {
                let ghost before = self.stack@;
                let _gone = self.stack.remove(i);
                assert(views(self.stack@) =~= views(before).remove(i as int));
            } else {
                i = i + 1;
            }
            proof {
                seen = seen + 1;
            }
        }
    }

    fn stop_attacks_on(&mut self, seat: Seat)
        ensures
            final(self).model() == (GameModel {
                objects: Seq::new(
                    old(self).model().objects.len(),
                    |i: int| old(self).model().objects[i].not_attacking(seat),
                ),
                ..old(self).model()
            }),
    {
        let ghost g = self.model();
        let mut i: usize = 0;
        while i < self.objects.items.len()
            invariant
                i <= self.objects.items.len(),
                self.objects@.len() == g.objects.len(),
                self.model() == (GameModel { objects: self.objects@, ..g }),
                forall|j: int|
                    0 <= j < g.objects.len() ==> #[trigger] self.objects@[j] == (if j < i {
                        g.objects[j].not_attacking(seat)
                    } else {
                        g.objects[j]
                    }),
            decreases self.objects.items.len() - i,
        {
            let ghost before = self.objects@;
            let o = &mut self.objects.items[i];
            if let Some(AttackTarget::Player(s)) = o.attacking {
                if s == seat {
                    o.attacking = None;
                    o.blocked = false;
                    o.blocked_by = Vec::new();
                }
            }
            assert(self.objects@ =~= before.update(i as int, before[i as int].not_attacking(seat)));
            i = i + 1;
        }
        assert(self.objects@ =~= Seq::new(
            g.objects.len(),
            |i: int| g.objects[i].not_attacking(seat),
        ));
    }

    fn strip(&mut self, seat: Seat, reason: Elimination)
        ensures
            final(self).model() == old(self).model().strip(seat, reason),
    {
        match self.player_mut(seat) {
            Some(p) => {
                p.eliminated = Some(reason);
            },
            None => {},
        }
        self.emit(EventBase::Eliminated { seat, reason });
        self.turn_order = drop_value(&self.turn_order, seat);
        let owned = self.owned_by(seat);
        self.move_all(&owned, Zone::OutOfGame);
        self.clear_stack_of(seat);
        // Creatures attacking a player who left are removed from combat.
        self.stop_attacks_on(seat);
    }

    /// A player leaves the game: they leave `turn_order`, every object they
    /// own leaves the game, and anything they control on the stack ceases to
    /// exist. If it was their turn, the turn ends.
    pub(crate) fn eliminate(&mut self, seat: Seat, reason: Elimination)
        ensures
            final(self).model() == old(self).model().eliminate(seat, reason),
    {
        reveal(GameModel::eliminate);
        if self.find_player(seat).is_none() || self.is_eliminated(seat) {
            return ;
        }
        self.strip(seat, reason);
        if self.priority == Some(seat) {
            self.priority = self.next_in_turn_order_after(seat);
        }
        if seat == self.active_player {
            self.turn_aborted = true;
            self.pending = None;
            self.priority = None;
            return ;
        }
        let theirs = match &self.pending {
            Some(p) => p.seat() == seat,
            None => false,
        };
        if theirs {
            match self.pending.take() {
                Some(PendingChoice::DeclareBlockers { remaining, .. }) => {
                    self.continue_blockers(&remaining);
                },
                Some(PendingChoice::Mulligan { .. }) => {
                    self.advance_mulligan(seat);
                },
                Some(PendingChoice::BottomCards { .. }) => {
                    self.advance_mulligan(seat);
                },
                _ => {},
            }
        }
    }

    fn losing(&self, seat: Seat) -> (r: Option<Elimination>)
        ensures
            r == self.model().losing(seat),
    {
        match self.find_player(seat) {
            Some(p) => if p.life <= 0 {
                Some(Elimination::LifeZero)
            } else if p.drew_from_empty {
                Some(Elimination::DrewFromEmptyLibrary)
            } else if p.poison >= self.poison_threshold() {
                Some(Elimination::Poison)
            } else {
                None
            },
            None => None,
        }
    }

    fn losers_leave(&mut self) -> (acted: bool)
        ensures
            (final(self).model(), acted) == old(self).model().losers_leave(
                old(self).model().turn_order,
                old(self).model().turn_order.len(),
            ),
    {
        let seats = copied(&self.turn_order);
        let mut acted = false;
        let mut i: usize = 0;
        while i < seats.len()
            invariant
                i <= seats.len(),
                seats@ == old(self).model().turn_order,
                (self.model(), acted) == old(self).model().losers_leave(seats@, i as nat),
            decreases seats.len() - i,
        {
            if let Some(reason) = self.losing(seats[i]) {
                self.eliminate(seats[i], reason);
                acted = true;
            }
            i = i + 1;
        }
        acted
    }

    fn counters_cancel(&mut self, ids: &Vec<ObjectId>) -> (acted: bool)
        ensures
            (final(self).model(), acted) == old(self).model().counters_cancel(ids@, ids@.len()),
    {
        let mut acted = false;
        let mut i: usize = 0;
        while i < ids.len()
            invariant
                i <= ids.len(),
                (self.model(), acted) == old(self).model().counters_cancel(ids@, i as nat),
            decreases ids.len() - i,
        {
            match self.obj_mut(ids[i]) {
                Some(o) => {
                    let c = o.counters;
                    if c.plus1 > 0 && c.minus1 > 0 {
                        o.counters = if c.plus1 < c.minus1 {
                            Counters { plus1: 0, minus1: c.minus1 - c.plus1 }
                        } else {
                            Counters { plus1: c.plus1 - c.minus1, minus1: 0 }
                        };
                        acted = true;
                    }
                },
                None => {},
            }
            i = i + 1;
            assert(self.model() =~= old(self).model().counters_cancel(ids@, i as nat).0);
        }
        acted
    }

    fn is_dying(&self, id: ObjectId) -> (b: bool)
        ensures
            b == self.model().dying(id),
    {
        let (damage, touched) = match self.find_obj(id) {
            Some(o) => if o.zone == Zone::Battlefield {
                (o.damage, o.deathtouch_damaged)
            } else {
                return false;
            },
            None => {
                return false;
            },
        };
        match self.effective_stats(id) {
            Some((_, toughness)) => toughness <= 0 || ((damage >= toughness || touched)
                && !self.has_keyword(id, Keyword::Indestructible)),
            None => false,
        }
    }

    fn dying_die(&mut self, ids: &Vec<ObjectId>) -> (acted: bool)
        ensures
            (final(self).model(), acted) == old(self).model().dying_die(ids@, ids@.len()),
    {
        let mut acted = false;
        let mut i: usize = 0;
        while i < ids.len()
            invariant
                i <= ids.len(),
                (self.model(), acted) == old(self).model().dying_die(ids@, i as nat),
            decreases ids.len() - i,
        {
            if self.is_dying(ids[i]) {
                self.move_object(ids[i], Zone::Graveyard);
                acted = true;
            }
            i = i + 1;
        }
        acted
    }

    /// What to do with a permanent that is attached to nothing on the
    /// battlefield: `Some(true)` for an aura, `Some(false)` for an equipment
    /// to detach.
    fn falls(&self, id: ObjectId) -> (r: Option<bool>)
        ensures
            ({
                let g = self.model();
                let loose = g.in_zone(id, Zone::Battlefield) && g.has_def(id) && !g.held(id);
                r == (if loose && g.def(id).aura() {
                    Some(true)
                } else if loose && g.obj(id).attached_to is Some {
                    Some(false)
                } else {
                    None
                })
            }),
    {
        let at = match self.find_obj(id) {
            Some(o) => if o.zone == Zone::Battlefield {
                o.attached_to
            } else {
                return None;
            },
            None => {
                return None;
            },
        };
        let holds = match at {
            Some(to) => self.is_in(to, Zone::Battlefield),
            None => false,
        };
        match self.find_def(id) {
            Some(def) => if holds {
                None
            } else if def.is_aura() {
                Some(true)
            } else if at.is_some() {
                Some(false)
            } else {
                None
            },
            None => None,
        }
    }

    fn attachments_fall(&mut self, ids: &Vec<ObjectId>) -> (acted: bool)
        ensures
            (final(self).model(), acted) == old(self).model().attachments_fall(ids@, ids@.len()),
    {
        let mut acted = false;
        let mut i: usize = 0;
        while i < ids.len()
            invariant
                i <= ids.len(),
                (self.model(), acted) == old(self).model().attachments_fall(ids@, i as nat),
            decreases ids.len() - i,
        {
            match self.falls(ids[i]) {
                Some(true) => {
                    self.move_object(ids[i], Zone::Graveyard);
                    acted = true;
                },
                Some(false) => {
                    match self.obj_mut(ids[i]) {
                        Some(o) => {
                            o.attached_to = None;
                        },
                        None => {},
                    }
                    acted = true;
                },
                None => {},
            }
            i = i + 1;
        }
        acted
    }

    fn tokens_cease(&mut self) -> (acted: bool)
        ensures
            (final(self).model(), acted) == old(self).model().tokens_cease(
                old(self).model().objects.len(),
            ),
    {
        let ghost g = self.model();
        let n: usize = self.objects.items.len();
        let mut acted = false;
        let mut i: usize = 0;
        while i < n
            invariant
                i <= n,
                n == g.objects.len(),
                g == old(self).model(),
                (self.model(), acted) == g.tokens_cease(i as nat),
            decreases n - i,
        {
            let id = ObjectId((i + 1) as u32);
            let gone = match self.find_obj(id) {
                Some(o) => o.zone != Zone::Battlefield && o.zone != Zone::OutOfGame,
                None => false,
            };
            let token = match self.find_def(id) {
                Some(def) => def.token,
                None => false,
            };
            if gone && token {
                self.move_object(id, Zone::OutOfGame);
                acted = true;
            }
            i = i + 1;
        }
        acted
    }

    fn sba_pass(&mut self) -> (acted: bool)
        ensures
            (final(self).model(), acted) == old(self).model().sba_pass(),
    {
        let a1 = self.losers_leave();
        let ids = self.battlefield_objects();
        let a2 = self.counters_cancel(&ids);
        let a3 = self.dying_die(&ids);
        let a4 = self.attachments_fall(&ids);
        let a5 = self.tokens_cease();
        a1 || a2 || a3 || a4 || a5
    }

    pub(crate) fn check_state_based_actions(&mut self)
        ensures
            final(self).model() == old(self).model().check_state_based_actions(),
    {
        let ghost g = self.model();
        let mut fuel: u128 = self.turn_order.len() as u128 + 4 * (self.objects.items.len() as u128)
            + 1;
        let mut again = true;
        while again && fuel > 0
            invariant
                g == old(self).model(),
                again ==> g.sba_passes(g.sba_fuel()) == self.model().sba_passes(fuel as nat),
                !again ==> g.sba_passes(g.sba_fuel()) == self.model(),
            decreases fuel,
        {
            again = self.sba_pass();
            fuel = fuel - 1;
        }
        if self.outcome.is_none() {
            if self.turn_order.len() == 0 {
                self.end_game(Outcome::Draw);
            } else if self.turn_order.len() == 1 {
                let winner = self.turn_order[0];
                self.end_game(Outcome::Winner(winner));
            }
        }
    }
}

} // verus!
