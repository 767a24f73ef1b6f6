//! The rules engine state machine. Everything else in the project is a
//! consequence of this interface: `new`, `legal_actions`, `must_act`,
//! `apply`, `view`, `is_over`.
//!
//! This module holds the queries and the primitive changes that everything
//! else is made of. Each change is a function on [`GameModel`] and an
//! executable method whose contract names that function. Both are total: an
//! id or a seat that names nothing changes nothing.
use crate::card::{CardDef, CardId, CardModel};
use crate::event::{Event, EventBase, EventFacts, EventModel, Outcome};
use crate::seqs::{drop_value, find, group_views, in_list, position, views, without};
use crate::state::{
    ActReason, Game, GameModel, GameObject, ObjectModel, PendingChoice, PlayerModel, PlayerState,
    StackModel,
};
use crate::types::{ObjectId, Seat, Zone};
use vstd::prelude::*;

verus! {

broadcast use group_views;

// ----- reading the model -----

impl GameModel {
    pub open spec fn has_obj(self, id: ObjectId) -> bool {
        1 <= id.0 <= self.objects.len()
    }

    pub open spec fn obj(self, id: ObjectId) -> ObjectModel {
        self.objects[id.0 - 1]
    }

    pub open spec fn with_obj(self, id: ObjectId, o: ObjectModel) -> GameModel {
        if self.has_obj(id) {
            GameModel { objects: self.objects.update(id.0 - 1, o), ..self }
        } else {
            self
        }
    }

    /// The zone an object is in, if there is one.
    pub open spec fn in_zone(self, id: ObjectId, zone: Zone) -> bool {
        self.has_obj(id) && self.obj(id).zone == zone
    }

    /// A card of `seat`'s own that is in a hand.
    pub open spec fn holds(self, seat: Seat, id: ObjectId) -> bool {
        self.in_zone(id, Zone::Hand) && self.obj(id).owner == seat
    }

    pub open spec fn has_seat(self, seat: Seat) -> bool {
        seat.0 < self.players.len()
    }

    pub open spec fn player(self, seat: Seat) -> PlayerModel {
        self.players[seat.0 as int]
    }

    pub open spec fn with_player(self, seat: Seat, p: PlayerModel) -> GameModel {
        if self.has_seat(seat) {
            GameModel { players: self.players.update(seat.0 as int, p), ..self }
        } else {
            self
        }
    }

    pub open spec fn life(self, seat: Seat) -> i32 {
        if self.has_seat(seat) {
            self.player(seat).life
        } else {
            0
        }
    }

    /// A player's list of a zone; nothing for a seat that is not there.
    pub open spec fn list(self, seat: Seat, zone: Zone) -> Seq<ObjectId> {
        if self.has_seat(seat) {
            self.player(seat).zone_list(zone)
        } else {
            Seq::empty()
        }
    }

    pub open spec fn hand(self, seat: Seat) -> Seq<ObjectId> {
        self.list(seat, Zone::Hand)
    }

    pub open spec fn battlefield(self, seat: Seat) -> Seq<ObjectId> {
        self.list(seat, Zone::Battlefield)
    }

    pub open spec fn has_card(self, card: CardId) -> bool {
        card < self.cards.len() + self.tokens.len()
    }

    /// A card definition by id: from the database, or a token created this game.
    pub open spec fn card(self, card: CardId) -> CardModel {
        if card < self.cards.len() {
            self.cards[card as int]
        } else {
            self.tokens[card - self.cards.len()]
        }
    }

    pub open spec fn has_def(self, id: ObjectId) -> bool {
        self.has_obj(id) && self.has_card(self.obj(id).card)
    }

    pub open spec fn def(self, id: ObjectId) -> CardModel {
        self.card(self.obj(id).card)
    }

    pub open spec fn creature(self, id: ObjectId) -> bool {
        self.has_def(id) && self.def(id).creature()
    }

    pub open spec fn out(self, seat: Seat) -> bool {
        self.has_seat(seat) && self.player(seat).eliminated is Some
    }

    pub open spec fn in_game(self, seat: Seat) -> bool {
        self.turn_order.contains(seat)
    }

    /// Whoever must act right now, and why.
    pub open spec fn acting(self) -> Option<(Seat, ActReason)> {
        if self.outcome is Some {
            None
        } else {
            match self.pending {
                Some(p) => Some((p.who(), p.why())),
                None => match self.priority {
                    Some(s) => Some((s, ActReason::Priority)),
                    None => None,
                },
            }
        }
    }

    /// The first seat in the game other than `seat` met going round the
    /// table from `pos`, from the `k`-th step on.
    pub open spec fn next_from(self, seat: Seat, pos: nat, k: nat) -> Option<Seat>
        decreases self.seating.len() + 1 - k,
    {
        let n = self.seating.len();
        if k > n || n == 0 {
            None
        } else {
            let s = self.seating[(pos + k) as int % (n as int)];
            if s != seat && self.turn_order.contains(s) {
                Some(s)
            } else {
                self.next_from(seat, pos, k + 1)
            }
        }
    }

    /// The next seat still in the game after `seat` in turn order.
    pub open spec fn next_after(self, seat: Seat) -> Option<Seat> {
        match find(self.seating, seat) {
            Some(pos) => self.next_from(seat, pos, 1),
            None => None,
        }
    }

    /// The active player, or whoever follows them if they have left.
    pub open spec fn first_to_act(self) -> Option<Seat> {
        if self.turn_order.contains(self.active_player) {
            Some(self.active_player)
        } else {
            self.next_after(self.active_player)
        }
    }

    /// `out` and the seats after its last one, round the table up to `first`.
    pub open spec fn round(self, first: Seat, cur: Seat, out: Seq<Seat>, left: nat) -> Seq<Seat>
        decreases left,
    {
        if left == 0 {
            out
        } else {
            match self.next_after(cur) {
                Some(s) => if s == first {
                    out
                } else {
                    self.round(first, s, out.push(s), (left - 1) as nat)
                },
                None => out,
            }
        }
    }

    /// Seats in the game in APNAP order: the active player first, then turn order.
    pub open spec fn apnap(self) -> Seq<Seat> {
        match self.first_to_act() {
            Some(first) => self.round(first, first, seq![first], self.turn_order.len()),
            None => Seq::empty(),
        }
    }

    /// Ids among the first `n` objects of those in a zone, in id order.
    pub open spec fn zone_ids(self, zone: Zone, n: nat) -> Seq<ObjectId>
        decreases n,
    {
        if n == 0 || n > self.objects.len() {
            Seq::empty()
        } else {
            let rest = self.zone_ids(zone, (n - 1) as nat);
            if self.objects[n - 1].zone == zone {
                rest.push(ObjectId(n as u32))
            } else {
                rest
            }
        }
    }

    /// Objects on the battlefield, in id order.
    pub open spec fn on_battlefield(self) -> Seq<ObjectId> {
        self.zone_ids(Zone::Battlefield, self.objects.len())
    }
}

// ----- changing the model -----

/// The first `n` entries of a stack but those of `id`.
pub open spec fn stack_without(stack: Seq<StackModel>, id: ObjectId, n: nat) -> Seq<StackModel>
    decreases n,
{
    if n == 0 || n > stack.len() {
        Seq::empty()
    } else {
        let rest = stack_without(stack, id, (n - 1) as nat);
        if stack[n - 1].object == id {
            rest
        } else {
            rest.push(stack[n - 1])
        }
    }
}

/// Whose list an object is on in a zone: its controller's on the
/// battlefield, its owner's elsewhere.
pub open spec fn list_seat(o: ObjectModel, zone: Zone) -> Seat {
    if zone is Battlefield {
        o.controller
    } else {
        o.owner
    }
}

impl GameModel {
    pub open spec fn emit(self, e: EventFacts) -> GameModel {
        GameModel { log: self.log.push(e), ..self }
    }

    pub open spec fn with_list(self, seat: Seat, zone: Zone, list: Seq<ObjectId>) -> GameModel {
        self.with_player(seat, self.player(seat).with_zone_list(zone, list))
    }

    /// Take an object off the list of the zone it is in.
    pub open spec fn unlist(self, id: ObjectId) -> GameModel {
        let o = self.obj(id);
        if o.zone is Stack {
            GameModel { stack: stack_without(self.stack, id, self.stack.len()), ..self }
        } else {
            let seat = list_seat(o, o.zone);
            self.with_list(seat, o.zone, without(self.list(seat, o.zone), id))
        }
    }

    /// Put an object at the end of the list of the zone it is in.
    pub open spec fn enlist(self, id: ObjectId) -> GameModel {
        let o = self.obj(id);
        let seat = list_seat(o, o.zone);
        self.with_list(seat, o.zone, self.list(seat, o.zone).push(id))
    }

    /// Move an object between zones, keeping the zone lists and the object's
    /// zone in step. A move that touches a public zone is an event.
    pub open spec fn move_object(self, id: ObjectId, to: Zone) -> GameModel {
        if !self.has_obj(id) || self.obj(id).zone == to {
            self
        } else {
            let from = self.obj(id).zone;
            let g1 = self.unlist(id);
            let g2 = g1.with_obj(id, g1.obj(id).moved(to));
            let g3 = g2.enlist(id);
            if from.public() || to.public() {
                g3.emit(EventModel::ZoneChange { object: id, from, to })
            } else {
                g3
            }
        }
    }

    /// Move each of the first `n` of `ids`, in order.
    pub open spec fn move_all(self, ids: Seq<ObjectId>, to: Zone, n: nat) -> GameModel
        decreases n,
    {
        if n == 0 || n > ids.len() {
            self
        } else {
            self.move_all(ids, to, (n - 1) as nat).move_object(ids[n - 1], to)
        }
    }

    pub open spec fn shuffle_library(self, seat: Seat) -> GameModel {
        if self.has_seat(seat) {
            let lib = self.list(seat, Zone::Library);
            GameModel { dice: self.dice.after_shuffle(lib), ..self }.with_list(
                seat,
                Zone::Library,
                self.dice.shuffled(lib),
            ).emit(EventModel::Shuffled { seat })
        } else {
            self
        }
    }

    /// One card from the top of the library to the hand, or the mark of a
    /// draw from an empty library.
    pub open spec fn draw_one(self, seat: Seat) -> GameModel {
        let p = self.player(seat);
        if !self.has_seat(seat) {
            self
        } else if p.library.len() == 0 {
            self.with_player(seat, PlayerModel { drew_from_empty: true, ..p })
        } else {
            let id = p.library.last();
            let g1 = self.with_obj(id, ObjectModel { zone: Zone::Hand, ..self.obj(id) });
            g1.with_player(
                seat,
                PlayerModel { library: p.library.drop_last(), hand: p.hand.push(id), ..p },
            )
        }
    }

    /// The game after `n` draws, and the cards drawn.
    pub open spec fn draw_n(self, seat: Seat, n: nat) -> (GameModel, Seq<ObjectId>)
        decreases n,
    {
        if n == 0 {
            (self, Seq::empty())
        } else {
            let (g, drawn) = self.draw_n(seat, (n - 1) as nat);
            let next = g.draw_one(seat);
            if g.has_seat(seat) && g.player(seat).library.len() > 0 {
                (next, drawn.push(g.player(seat).library.last()))
            } else {
                (next, drawn)
            }
        }
    }

    /// Draw `n` cards. Drawing from an empty library sets the flag the
    /// state-based action checks; it does not end the game here.
    pub open spec fn draw(self, seat: Seat, n: nat) -> GameModel {
        let (g, drawn) = self.draw_n(seat, n);
        if drawn.len() > 0 {
            g.emit(EventModel::Drew { seat, cards: drawn })
        } else {
            g
        }
    }

    pub open spec fn give_priority(self, seat: Seat) -> GameModel {
        GameModel { priority: Some(seat), passed_in_succession: 0, ..self }
    }

    /// Priority to the active player, or to whoever follows them if they have left.
    pub open spec fn give_priority_to_active(self) -> GameModel {
        GameModel { priority: self.first_to_act(), passed_in_succession: 0, ..self }
    }
}

/// Who must act, and why: at most one seat at a time.
#[derive(Copy, Clone, Debug, PartialEq, Eq)]
pub struct MustAct {
    pub entry: Option<(Seat, ActReason)>,
}

impl MustAct {
    pub open spec fn of(self, seat: Seat) -> Option<ActReason> {
        match self.entry {
            Some((s, r)) => if s == seat {
                Some(r)
            } else {
                None
            },
            None => None,
        }
    }

    pub fn get(&self, seat: Seat) -> (r: Option<ActReason>)
        ensures
            r == self.of(seat),
    {
        match self.entry {
            Some((s, r)) => if s == seat {
                Some(r)
            } else {
                None
            },
            None => None,
        }
    }

    pub fn contains_key(&self, seat: Seat) -> (b: bool)
        ensures
            b == (self.of(seat) is Some),
    {
        self.get(seat).is_some()
    }

    pub fn is_empty(&self) -> (b: bool)
        ensures
            b == (self.entry is None),
    {
        self.entry.is_none()
    }

    /// The seat that must act.
    pub fn seat(&self) -> (r: Option<Seat>)
        ensures
            match self.entry {
                Some((s, _)) => r == Some(s),
                None => r is None,
            },
    {
        match self.entry {
            Some((s, _)) => Some(s),
            None => None,
        }
    }
}

impl Game {
    // ----- queries -----

    pub fn seed(&self) -> (r: u64)
        ensures
            r == self.model().seed,
    {
        self.seed
    }

    pub fn cards(&self) -> (r: &crate::card::CardDb)
        ensures
            r@ == self.model().cards,
    {
        &*self.cards
    }

    pub fn state_version(&self) -> (r: u64)
        ensures
            r == self.model().state_version,
    {
        self.state_version
    }

    /// Every accepted action, in order. With the seed, fully determines this game.
    pub fn history(&self) -> (r: &Vec<crate::state::Played>)
        ensures
            views(r@) == self.model().history,
    {
        &self.history
    }

    pub fn is_over(&self) -> (r: Option<Outcome>)
        ensures
            r == self.model().outcome,
    {
        self.outcome
    }

    /// The seat whose `legal_actions` is non-empty right now, and why. Empty
    /// iff the game is over.
    pub fn must_act(&self) -> (m: MustAct)
        ensures
            m.entry == self.model().acting(),
    {
        if self.outcome.is_some() {
            return MustAct { entry: None };
        }
        match &self.pending {
            Some(p) => MustAct { entry: Some((p.seat(), p.reason())) },
            None => match self.priority {
                Some(s) => MustAct { entry: Some((s, ActReason::Priority)) },
                None => MustAct { entry: None },
            },
        }
    }

    pub(crate) fn find_obj(&self, id: ObjectId) -> (r: Option<&GameObject>)
        ensures
            match r {
                Some(o) => self.model().has_obj(id) && o@ == self.model().obj(id),
                None => !self.model().has_obj(id),
            },
    {
        self.objects.get(id)
    }

    pub(crate) fn is_in(&self, id: ObjectId, zone: Zone) -> (b: bool)
        ensures
            b == self.model().in_zone(id, zone),
    {
        match self.find_obj(id) {
            Some(o) => o.zone == zone,
            None => false,
        }
    }

    pub(crate) fn obj_mut(&mut self, id: ObjectId) -> (r: Option<&mut GameObject>)
        ensures
            match r {
                Some(o) => {
                    &&& old(self).model().has_obj(id)
                    &&& o@ == old(self).model().obj(id)
                    &&& final(self).model() == old(self).model().with_obj(id, final(o)@)
                },
                None => !old(self).model().has_obj(id) && final(self).model() == old(self).model(),
            },
    {
        self.objects.get_mut(id)
    }

    pub(crate) fn find_player(&self, seat: Seat) -> (r: Option<&PlayerState>)
        ensures
            match r {
                Some(p) => self.model().has_seat(seat) && p@ == self.model().player(seat),
                None => !self.model().has_seat(seat),
            },
    {
        if (seat.0 as usize) < self.players.len() {
            Some(&self.players[seat.0 as usize])
        } else {
            None
        }
    }

    pub(crate) fn player_mut(&mut self, seat: Seat) -> (r: Option<&mut PlayerState>)
        ensures
            match r {
                Some(p) => {
                    &&& old(self).model().has_seat(seat)
                    &&& p@ == old(self).model().player(seat)
                    &&& final(self).model() == old(self).model().with_player(seat, final(p)@)
                },
                None => !old(self).model().has_seat(seat) && final(self).model() == old(
                    self,
                ).model(),
            },
    {
        if (seat.0 as usize) < self.players.len() {
            Some(&mut self.players[seat.0 as usize])
        } else {
            None
        }
    }

    pub(crate) fn life_of(&self, seat: Seat) -> (n: i32)
        ensures
            n == self.model().life(seat),
    {
        match self.find_player(seat) {
            Some(p) => p.life,
            None => 0,
        }
    }

    pub(crate) fn hand_of(&self, seat: Seat) -> (r: Vec<ObjectId>)
        ensures
            r@ == self.model().hand(seat),
    {
        match self.find_player(seat) {
            Some(p) => crate::seqs::copied(&p.hand),
            None => Vec::new(),
        }
    }

    pub(crate) fn battlefield_of(&self, seat: Seat) -> (r: Vec<ObjectId>)
        ensures
            r@ == self.model().battlefield(seat),
    {
        match self.find_player(seat) {
            Some(p) => crate::seqs::copied(&p.battlefield),
            None => Vec::new(),
        }
    }

    pub(crate) fn graveyard_of(&self, seat: Seat) -> (r: Vec<ObjectId>)
        ensures
            r@ == self.model().list(seat, Zone::Graveyard),
    {
        match self.find_player(seat) {
            Some(p) => crate::seqs::copied(&p.graveyard),
            None => Vec::new(),
        }
    }

    pub(crate) fn find_card(&self, card: CardId) -> (r: Option<&CardDef>)
        ensures
            match r {
                Some(d) => self.model().has_card(card) && d@ == self.model().card(card),
                None => !self.model().has_card(card),
            },
    {
        let n: usize = self.cards.len();
        if (card as usize) < n {
            Some(&self.cards.cards[card as usize])
        } else if card as usize - n < self.tokens.len() {
            Some(&self.tokens[card as usize - n])
        } else {
            None
        }
    }

    pub(crate) fn find_def(&self, id: ObjectId) -> (r: Option<&CardDef>)
        ensures
            match r {
                Some(d) => self.model().has_def(id) && d@ == self.model().def(id),
                None => !self.model().has_def(id),
            },
    {
        match self.find_obj(id) {
            Some(o) => self.find_card(o.card),
            None => None,
        }
    }

    pub fn card_def(&self, id: ObjectId) -> (d: &CardDef)
        requires
            self.model().has_def(id),
        ensures
            d@ == self.model().def(id),
    {
        self.card_by_id(self.objects.items[id.0 as usize - 1].card)
    }

    /// A card definition by id: from the database, or a token created this game.
    pub fn card_by_id(&self, card: CardId) -> (d: &CardDef)
        requires
            self.model().has_card(card),
        ensures
            d@ == self.model().card(card),
    {
        let n: usize = self.cards.len();
        if (card as usize) < n {
            &self.cards.cards[card as usize]
        } else {
            &self.tokens[card as usize - n]
        }
    }

    pub fn object_name(&self, id: ObjectId) -> (r: &str)
        requires
            self.model().has_def(id),
        ensures
            r@ == self.model().def(id).name,
    {
        self.card_def(id).name.as_str()
    }

    pub fn player_name(&self, seat: Seat) -> (r: &str)
        requires
            self.model().has_seat(seat),
        ensures
            r@ == self.model().player(seat).name,
    {
        self.players[seat.0 as usize].name.as_str()
    }

    pub fn is_creature(&self, id: ObjectId) -> (b: bool)
        ensures
            b == self.model().creature(id),
    {
        match self.find_def(id) {
            Some(d) => d.is_creature(),
            None => false,
        }
    }

    pub fn is_eliminated(&self, seat: Seat) -> (b: bool)
        ensures
            b == self.model().out(seat),
    {
        match self.find_player(seat) {
            Some(p) => p.eliminated.is_some(),
            None => false,
        }
    }

    pub(crate) fn is_in_game(&self, seat: Seat) -> (b: bool)
        ensures
            b == self.model().in_game(seat),
    {
        in_list(&self.turn_order, seat)
    }

    /// Every seat still in the game other than `seat`. Never `1 - seat`.
    pub fn opponents_of(&self, seat: Seat) -> (r: Vec<Seat>)
        ensures
            r@ == without(self.model().turn_order, seat),
    {
        drop_value(&self.turn_order, seat)
    }

    /// The next seat still in the game after `seat` in turn order, or `None` if there is none.
    pub fn next_in_turn_order_after(&self, seat: Seat) -> (r: Option<Seat>)
        ensures
            r == self.model().next_after(seat),
    {
        let n: usize = self.seating.len();
        let pos: usize = match position(&self.seating, seat) {
            Some(p) => p,
            None => {
                return None;
            },
        };
        let ghost g = self.model();
        let mut at: usize = pos;
        let mut k: usize = 1;
        proof {
            vstd::arithmetic::div_mod::lemma_small_mod(pos as nat, n as nat);
        }
        while k <= n
            invariant
                1 <= k <= n + 1,
                n == g.seating.len(),
                g == self.model(),
                pos < n,
                find(g.seating, seat) == Some(pos as nat),
                at == (pos + k - 1) % (n as int),
                g.next_from(seat, pos as nat, 1) == g.next_from(seat, pos as nat, k as nat),
            decreases n + 1 - k,
        {
            assert((pos + k) % (n as int) == (if at + 1 == n {
                0
            } else {
                at + 1
            })) by {
                lemma_step_mod(pos as int, k as int, n as int, at as int);
            }
            at = if at + 1 == n {
                0
            } else {
                at + 1
            };
            let s = self.seating[at];
            if s != seat && in_list(&self.turn_order, s) {
                return Some(s);
            }
            if k == n {
                assert(g.next_from(seat, pos as nat, (k + 1) as nat) is None);
                return None;
            }
            k = k + 1;
        }
        None
    }

    pub(crate) fn first_to_act(&self) -> (r: Option<Seat>)
        ensures
            r == self.model().first_to_act(),
    {
        if in_list(&self.turn_order, self.active_player) {
            Some(self.active_player)
        } else {
            self.next_in_turn_order_after(self.active_player)
        }
    }

    /// Seats in the game in APNAP order: the active player first, then turn order.
    pub fn apnap(&self) -> (r: Vec<Seat>)
        ensures
            r@ == self.model().apnap(),
    {
        let mut out: Vec<Seat> = Vec::new();
        let first = match self.first_to_act() {
            Some(s) => s,
            None => {
                return out;
            },
        };
        out.push(first);
        assert(out@ =~= seq![first]);
        let ghost g = self.model();
        let mut cur = first;
        let mut left: usize = self.turn_order.len();
        while left > 0
            invariant
                g == self.model(),
                g.apnap() == g.round(first, cur, out@, left as nat),
            decreases left,
        {
            match self.next_in_turn_order_after(cur) {
                Some(s) => {
                    if s == first {
                        return out;
                    }
                    out.push(s);
                    cur = s;
                },
                None => {
                    return out;
                },
            }
            left = left - 1;
        }
        out
    }

    /// Objects on the battlefield, in id order.
    pub(crate) fn battlefield_objects(&self) -> (r: Vec<ObjectId>)
        ensures
            r@ == self.model().on_battlefield(),
    {
        let mut out: Vec<ObjectId> = Vec::new();
        let mut i: usize = 0;
        while i < self.objects.items.len()
            invariant
                i <= self.objects.items.len(),
                out@ == self.model().zone_ids(Zone::Battlefield, i as nat),
            decreases self.objects.items.len() - i,
        {
            if self.objects.items[i].zone == Zone::Battlefield {
                out.push(ObjectId((i + 1) as u32));
            }
            i = i + 1;
        }
        out
    }

    // ----- mutation primitives -----

    pub(crate) fn emit(&mut self, event: Event)
        ensures
            final(self).model() == old(self).model().emit(event.facts()),
    {
        self.log.push(event);
    }

    fn set_list(&mut self, seat: Seat, zone: Zone, list: Vec<ObjectId>)
        ensures
            final(self).model() == old(self).model().with_list(seat, zone, list@),
    {
        match self.player_mut(seat) {
            Some(p) => {
                match zone {
                    Zone::Library => {
                        p.library = list;
                    },
                    Zone::Hand => {
                        p.hand = list;
                    },
                    Zone::Battlefield => {
                        p.battlefield = list;
                    },
                    Zone::Graveyard => {
                        p.graveyard = list;
                    },
                    Zone::Exile => {
                        p.exile = list;
                    },
                    Zone::Command => {
                        p.command = list;
                    },
                    Zone::Stack => {},
                    Zone::OutOfGame => {},
                }
            },
            None => {},
        }
    }

    pub(crate) fn list_of(&self, seat: Seat, zone: Zone) -> (r: Vec<ObjectId>)
        ensures
            r@ == self.model().list(seat, zone),
    {
        match self.find_player(seat) {
            Some(p) => match zone {
                Zone::Library => crate::seqs::copied(&p.library),
                Zone::Hand => crate::seqs::copied(&p.hand),
                Zone::Battlefield => crate::seqs::copied(&p.battlefield),
                Zone::Graveyard => crate::seqs::copied(&p.graveyard),
                Zone::Exile => crate::seqs::copied(&p.exile),
                Zone::Command => crate::seqs::copied(&p.command),
                Zone::Stack => Vec::new(),
                Zone::OutOfGame => Vec::new(),
            },
            None => Vec::new(),
        }
    }

    fn drop_from_stack(&mut self, id: ObjectId)
        ensures
            final(self).model() == (GameModel {
                stack: stack_without(
                    old(self).model().stack,
                    id,
                    old(self).model().stack.len(),
                ),
                ..old(self).model()
            }),
    {
        let ghost all = views(self.stack@);
        let mut i: usize = 0;
        let ghost mut seen: nat = 0;
        while i < self.stack.len()
            invariant
                i <= self.stack.len(),
                seen + (self.stack.len() - i) == all.len(),
                views(self.stack@) =~= stack_without(all, id, seen) + all.subrange(
                    seen as int,
                    all.len() as int,
                ),
                i == stack_without(all, id, seen).len(),
                self.model() == (GameModel { stack: views(self.stack@), ..old(self).model() }),
                all == old(self).model().stack,
            decreases self.stack.len() - i,
        {
            assert(views(self.stack@)[i as int] == all.subrange(seen as int, all.len() as int)[0]);
            assert(self.stack@[i as int]@ == all[seen as int]);
            if self.stack[i].object == id {
                let ghost before = self.stack@;
                let _gone = self.stack.remove(i);
                assert(views(self.stack@) =~= views(before).remove(i as int));
            } else {
                i = i + 1;
            }
            proof {
                seen = seen + 1;
            }
        }
    }

    fn unlist(&mut self, id: ObjectId)
        requires
            old(self).model().has_obj(id),
        ensures
            final(self).model() == old(self).model().unlist(id),
    {
        let (zone, owner, controller) = match self.find_obj(id) {
            Some(o) => (o.zone, o.owner, o.controller),
            None => {
                return ;
            },
        };
        if zone == Zone::Stack {
            self.drop_from_stack(id);
        } else {
            let seat = if zone == Zone::Battlefield {
                controller
            } else {
                owner
            };
            let list = self.list_of(seat, zone);
            self.set_list(seat, zone, drop_value(&list, id));
        }
    }

    fn enlist(&mut self, id: ObjectId)
        requires
            old(self).model().has_obj(id),
        ensures
            final(self).model() == old(self).model().enlist(id),
    {
        let (zone, owner, controller) = match self.find_obj(id) {
            Some(o) => (o.zone, o.owner, o.controller),
            None => {
                return ;
            },
        };
        let seat = if zone == Zone::Battlefield {
            controller
        } else {
            owner
        };
        let mut list = self.list_of(seat, zone);
        list.push(id);
        self.set_list(seat, zone, list);
    }

    /// Move an object between zones, keeping the zone lists and the object's
    /// zone field in step. The caller pushes onto `stack` itself when moving
    /// there. A hidden-to-hidden move emits nothing; anything touching a
    /// public zone emits `ZoneChange`.
    pub(crate) fn move_object(&mut self, id: ObjectId, to: Zone)
        ensures
            final(self).model() == old(self).model().move_object(id, to),
    {
        let from = match self.find_obj(id) {
            Some(o) => o.zone,
            None => {
                return ;
            },
        };
        if from == to {
            return ;
        }
        self.unlist(id);
        match self.obj_mut(id) {
            Some(o) => {
                o.reset_zone_state();
                o.zone = to;
            },
            None => {},
        }
        self.enlist(id);
        if from.is_public() || to.is_public() {
            self.emit(EventBase::ZoneChange { object: id, from, to });
        }
    }

    pub(crate) fn move_all(&mut self, ids: &Vec<ObjectId>, to: Zone)
        ensures
            final(self).model() == old(self).model().move_all(ids@, to, ids@.len()),
    {
        let mut i: usize = 0;
        while i < ids.len()
            invariant
                i <= ids.len(),
                self.model() == old(self).model().move_all(ids@, to, i as nat),
            decreases ids.len() - i,
        {
            self.move_object(ids[i], to);
            i = i + 1;
        }
    }

    pub(crate) fn shuffle_library(&mut self, seat: Seat)
        ensures
            final(self).model() == old(self).model().shuffle_library(seat),
            old(self).model().shuffles_fairly(seat),
    {
        if (seat.0 as usize) < self.players.len() {
            let lib = self.list_of(seat, Zone::Library);
            let mixed = self.dice.shuffle(&lib);
            self.set_list(seat, Zone::Library, mixed);
            self.emit(EventBase::Shuffled { seat });
        }
    }

    /// Draw `n` cards. Drawing from an empty library sets the flag the
    /// state-based action checks; it does not end the game here.
    pub(crate) fn draw(&mut self, seat: Seat, n: usize)
        ensures
            final(self).model() == old(self).model().draw(seat, n as nat),
    {
        let mut drawn: Vec<ObjectId> = Vec::new();
        let mut i: usize = 0;
        while i < n
            invariant
                i <= n,
                (self.model(), drawn@) == old(self).model().draw_n(seat, i as nat),
            decreases n - i,
        {
            match self.draw_one(seat) {
                Some(id) => {
                    drawn.push(id);
                },
                None => {},
            }
            i = i + 1;
        }
        if drawn.len() > 0 {
            self.emit(EventBase::Drew { seat, cards: drawn });
        }
    }

    fn draw_one(&mut self, seat: Seat) -> (r: Option<ObjectId>)
        ensures
            final(self).model() == old(self).model().draw_one(seat),
            match r {
                Some(id) => old(self).model().has_seat(seat) && old(self).model().player(
                    seat,
                ).library.len() > 0 && id == old(self).model().player(seat).library.last(),
                None => !(old(self).model().has_seat(seat) && old(self).model().player(
                    seat,
                ).library.len() > 0),
            },
    {
        let top: Option<ObjectId> = match self.player_mut(seat) {
            Some(p) => match p.library.pop() {
                Some(id) => {
                    p.hand.push(id);
                    Some(id)
                },
                None => {
                    p.drew_from_empty = true;
                    None
                },
            },
            None => None,
        };
        match top {
            Some(id) => {
                match self.obj_mut(id) {
                    Some(o) => {
                        o.zone = Zone::Hand;
                    },
                    None => {},
                }
            },
            None => {},
        }
        top
    }

    pub(crate) fn give_priority(&mut self, seat: Seat)
        ensures
            final(self).model() == old(self).model().give_priority(seat),
    {
        self.priority = Some(seat);
        self.passed_in_succession = 0;
    }

    /// Priority to the active player, or to whoever follows them if they have left.
    pub(crate) fn give_priority_to_active(&mut self)
        ensures
            final(self).model() == old(self).model().give_priority_to_active(),
    {
        let first = self.first_to_act();
        self.passed_in_succession = 0;
        self.priority = first;
    }

    pub(crate) fn set_pending(&mut self, p: Option<PendingChoice>)
        ensures
            final(self).model() == (GameModel {
                pending: crate::state::pending_view(p),
                ..old(self).model()
            }),
    {
        self.pending = p;
    }
}

/// Going one step further round a table.
proof fn lemma_step_mod(pos: int, k: int, n: int, at: int)
    requires
        0 <= pos < n,
        1 <= k,
        at == (pos + k - 1) % n,
    ensures
        (pos + k) % n == (if at + 1 == n {
            0
        } else {
            at + 1
        }),
{
    assert((pos + k) % n == (if (pos + k - 1) % n + 1 == n {
        0
    } else {
        (pos + k - 1) % n + 1
    })) by {
        vstd::arithmetic::div_mod::lemma_fundamental_div_mod(pos + k - 1, n);
        vstd::arithmetic::div_mod::lemma_mod_bound(pos + k - 1, n);
        let q = (pos + k - 1) / n;
        let r = (pos + k - 1) % n;
        assert(pos + k == n * q + r + 1);
        if r + 1 == n {
            assert(pos + k == n * (q + 1) + 0) by (nonlinear_arith)
                requires
                    pos + k == n * q + r + 1,
                    r + 1 == n,
            ;
            vstd::arithmetic::div_mod::lemma_fundamental_div_mod_converse(pos + k, n, q + 1, 0);
        } else {
            assert(pos + k == q * n + (r + 1)) by (nonlinear_arith)
                requires
                    pos + k == n * q + r + 1,
            ;
            vstd::arithmetic::div_mod::lemma_fundamental_div_mod_converse(pos + k, n, q, r + 1);
        }
    }
}

} // verus!
