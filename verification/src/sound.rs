//! What every change to a game keeps: where the objects are, who is at the
//! table, and what has been told.
//!
//! [`GameModel::sound`] holds of every game: each object is in one zone list
//! and says so itself, the spells on the stack are the objects in that zone,
//! and the seats in the turn order are those that have not left.
//! [`GameModel::leads_to`] holds between a game and any later one: nothing
//! told is taken back, nobody who left returns, and the log accounts for
//! every change of a life total.
use crate::card::token_model;
use crate::event::{EventFacts, EventModel};
use crate::game::{list_seat, stack_without};
use crate::interp::spell_at;
use crate::ir::TokenSpec;
use crate::seqs::{without, without_n};
use crate::state::{GameModel, KindModel, ObjectModel, PendingModel, PlayerModel, StackModel};
use crate::types::{sat_u8, ObjectId, Seat, Zone};
use vstd::prelude::*;

verus! {

// ----- where the objects are -----

/// A zone with a list for every player.
pub open spec fn listed(zone: Zone) -> bool {
    !(zone is Stack) && !(zone is OutOfGame)
}

/// The id that no object has.
pub open spec fn nobody() -> ObjectId {
    ObjectId(0)
}

impl ObjectModel {
    /// Whose list the object is on in the zone it is in.
    pub open spec fn home(self) -> Seat {
        list_seat(self, self.zone)
    }

    /// The same card, of the same players, in the same zone.
    pub open spec fn same_place(self, o: ObjectModel) -> bool {
        self.zone == o.zone && self.owner == o.owner && self.controller == o.controller
            && self.card == o.card
    }
}

impl PlayerModel {
    pub open spec fn same_lists(self, p: PlayerModel) -> bool {
        &&& self.library == p.library
        &&& self.hand == p.hand
        &&& self.graveyard == p.graveyard
        &&& self.exile == p.exile
        &&& self.battlefield == p.battlefield
        &&& self.command == p.command
    }

    /// The same person, as alive, in or out, with the same cards.
    pub open spec fn same_standing(self, p: PlayerModel) -> bool {
        self.name == p.name && self.life == p.life && self.eliminated == p.eliminated
            && self.same_lists(p)
    }
}

impl GameModel {
    /// What a list names is in that zone, and on the right player's list.
    #[verifier::opaque]
    pub open spec fn lists_are_true(self) -> bool {
        forall|s: Seat, z: Zone, k: int|
            #![trigger self.list(s, z)[k]]
            0 <= k < self.list(s, z).len() ==> self.in_zone(self.list(s, z)[k], z) && self.obj(
                self.list(s, z)[k],
            ).home() == s
    }

    /// No list names an object twice.
    #[verifier::opaque]
    pub open spec fn lists_are_sets(self) -> bool {
        forall|s: Seat, z: Zone| (#[trigger] self.list(s, z)).no_duplicates()
    }

    /// Every object in a zone with lists is on its list.
    #[verifier::opaque]
    pub open spec fn lists_are_full(self) -> bool {
        forall|id: ObjectId|
            #![trigger self.obj(id)]
            self.has_obj(id) && listed(self.obj(id).zone) ==> self.list(
                self.obj(id).home(),
                self.obj(id).zone,
            ).contains(id)
    }

    /// Every object belongs to players at the table and has a card behind it.
    #[verifier::opaque]
    pub open spec fn objects_are_real(self) -> bool {
        forall|id: ObjectId|
            #![trigger self.obj(id)]
            self.has_obj(id) ==> self.has_seat(self.obj(id).owner) && self.has_seat(
                self.obj(id).controller,
            ) && self.has_card(self.obj(id).card)
    }

    /// A spell on the stack is an object in that zone, cast by its owner.
    #[verifier::opaque]
    pub open spec fn spells_are_there(self) -> bool {
        forall|k: int|
            #![trigger self.stack[k]]
            0 <= k < self.stack.len() && self.stack[k].kind is Spell ==> self.in_zone(
                self.stack[k].object,
                Zone::Stack,
            ) && self.obj(self.stack[k].object).owner == self.stack[k].controller
    }

    pub open spec fn spell_entry(self, id: ObjectId, k: int) -> bool {
        0 <= k < self.stack.len() && self.stack[k].object == id && self.stack[k].kind is Spell
    }

    /// An object in that zone, but for `but`, is a spell on the stack.
    #[verifier::opaque]
    pub open spec fn stack_is_full_but(self, but: ObjectId) -> bool {
        forall|id: ObjectId|
            #![trigger self.obj(id)]
            self.in_zone(id, Zone::Stack) && id != but ==> exists|k: int| self.spell_entry(id, k)
    }

    /// A seat is in the turn order if and only if the player has not left,
    /// and the active player sits at the table.
    #[verifier::opaque]
    pub open spec fn table_agrees(self) -> bool {
        &&& forall|s: Seat|
            #![trigger self.turn_order.contains(s)]
            self.turn_order.contains(s) ==> self.has_seat(s) && self.player(s).eliminated is None
                && self.seating.contains(s)
        &&& forall|s: Seat|
            #![trigger self.player(s)]
            self.has_seat(s) && self.player(s).eliminated is None ==> self.turn_order.contains(s)
        &&& self.seating.contains(self.active_player)
        &&& self.turn_order.len() <= self.players.len() <= 255
    }

    /// Everything but that `but` is where it says.
    pub open spec fn sound_but(self, but: ObjectId) -> bool {
        &&& self.lists_are_true()
        &&& self.lists_are_sets()
        &&& self.lists_are_full()
        &&& self.objects_are_real()
        &&& self.spells_are_there()
        &&& self.stack_is_full_but(but)
        &&& self.table_agrees()
        &&& self.objects.len() <= u32::MAX
    }

    /// Every object is in exactly one place and says so itself.
    pub open spec fn sound(self) -> bool {
        self.sound_but(nobody())
    }
}

// ----- what has been told -----

/// A life total after the events of a log from `from` up to the `n`-th, each
/// change starting from the total before it; nothing if one does not.
pub open spec fn life_told(log: Seq<EventFacts>, seat: Seat, life: i32, from: nat, n: nat) -> Option<
    i32,
>
    decreases n,
{
    if n <= from || n > log.len() {
        Some(life)
    } else {
        match life_told(log, seat, life, from, (n - 1) as nat) {
            None => None,
            Some(l) => match log[n - 1] {
                EventModel::LifeChanged { seat: s, from: f, to } => if s != seat {
                    Some(l)
                } else if f == l {
                    Some(to)
                } else {
                    None
                },
                _ => Some(l),
            },
        }
    }
}

impl GameModel {
    /// `h` is what can become of this game within one action: the table, the
    /// cards and the record of earlier actions are the same, ...
    pub open spec fn same_table(self, h: GameModel) -> bool {
        &&& h.format == self.format
        &&& h.seating == self.seating
        &&& h.cards == self.cards
        &&& h.seed == self.seed
        &&& h.state_version == self.state_version
        &&& h.history == self.history
    }

    /// ... what was logged stays logged, tokens stay known, ...
    #[verifier::opaque]
    pub open spec fn log_grows(self, h: GameModel) -> bool {
        &&& self.log.len() <= h.log.len()
        &&& forall|i: int| 0 <= i < self.log.len() ==> #[trigger] h.log[i] == self.log[i]
        &&& self.tokens.len() <= h.tokens.len()
        &&& forall|i: int| 0 <= i < self.tokens.len() ==> #[trigger] h.tokens[i] == self.tokens[i]
    }

    /// A token, or a card of a player who left.
    pub open spec fn may_be_gone(self, id: ObjectId) -> bool {
        (self.has_def(id) && self.def(id).token) || self.out(self.obj(id).owner)
    }

    /// ... what has left the game is a token or belongs to a player who left, ...
    #[verifier::opaque]
    pub open spec fn gone_for_a_reason(self, h: GameModel) -> bool {
        h.objects.len() <= u32::MAX ==> forall|id: ObjectId|
            #![trigger h.obj(id)]
            h.has_obj(id) && h.obj(id).zone is OutOfGame ==> (self.has_obj(id) && self.obj(
                id,
            ).zone is OutOfGame) || h.may_be_gone(id)
    }

    /// ... the players are the same and who left stays out, ...
    #[verifier::opaque]
    pub open spec fn players_stay(self, h: GameModel) -> bool {
        &&& h.players.len() == self.players.len()
        &&& forall|s: Seat|
            #![trigger h.player(s)]
            self.has_seat(s) ==> h.player(s).name == self.player(s).name && (self.player(
                s,
            ).eliminated is Some ==> h.player(s).eliminated == self.player(s).eliminated)
        &&& h.turn_order.len() <= self.turn_order.len()
        &&& forall|s: Seat| #[trigger]
            h.turn_order.contains(s) ==> self.turn_order.contains(s)
    }

    /// ... objects stay what they are, ...
    #[verifier::opaque]
    pub open spec fn objects_stay(self, h: GameModel) -> bool {
        &&& self.objects.len() <= h.objects.len()
        &&& forall|id: ObjectId|
            #![trigger h.obj(id)]
            self.has_obj(id) ==> h.obj(id).card == self.obj(id).card && h.obj(id).owner
                == self.obj(id).owner
    }

    /// ... and the log tells how every life total got from there to here.
    #[verifier::opaque]
    pub open spec fn lives_are_told(self, h: GameModel) -> bool {
        forall|s: Seat|
            #![trigger h.life(s)]
            self.has_seat(s) ==> life_told(
                h.log,
                s,
                self.life(s),
                self.log.len(),
                h.log.len(),
            ) == Some(h.life(s))
    }

    #[verifier::opaque]
    pub open spec fn follows(self, h: GameModel) -> bool {
        &&& self.same_table(h)
        &&& self.log_grows(h)
        &&& self.players_stay(h)
        &&& self.objects_stay(h)
        &&& self.lives_are_told(h)
        &&& self.gone_for_a_reason(h)
        &&& self.turn <= h.turn
        &&& self.started ==> h.started
        &&& self.outcome is Some ==> h.outcome == self.outcome
    }

    /// The cast that is in progress, if one is: whose, and of which card.
    pub open spec fn casting(self) -> Option<(Seat, ObjectId)> {
        match self.pending {
            Some(PendingModel::Casting { seat, object, .. }) => Some((seat, object)),
            _ => None,
        }
    }

    /// A card of `seat`'s own that is in no player's control and not on the
    /// stack yet: it can go there.
    pub open spec fn may_cast(self, seat: Seat, id: ObjectId) -> bool {
        self.has_obj(id) && self.obj(id).owner == seat && !(self.obj(id).zone is Battlefield)
            && !(self.obj(id).zone is Stack)
    }

    /// The card of a cast in progress can go on the stack.
    pub open spec fn casts_its_own(self) -> bool {
        self.casting() matches Some((seat, object)) ==> self.may_cast(seat, object)
    }

    /// `h` follows without a cast begun on the way.
    #[verifier::opaque]
    pub open spec fn leads_to(self, h: GameModel) -> bool {
        &&& self.follows(h)
        &&& h.casting() is Some ==> h.casting() == self.casting()
    }

    /// A later game that is as sound as this one, and as much over.
    #[verifier::opaque]
    pub open spec fn keeps(self, h: GameModel) -> bool {
        &&& self.leads_to(h)
        &&& h.outcome == self.outcome
        &&& self.sound() ==> h.sound()
    }
}

proof fn lemma_told_split(log: Seq<EventFacts>, seat: Seat, life: i32, a: nat, b: nat, n: nat)
    requires
        a <= b <= n <= log.len(),
        life_told(log, seat, life, a, b) is Some,
    ensures
        life_told(log, seat, life, a, n) == life_told(
            log,
            seat,
            life_told(log, seat, life, a, b)->0,
            b,
            n,
        ),
    decreases n,
{
    if n > b {
        lemma_told_split(log, seat, life, a, b, (n - 1) as nat);
    }
}

proof fn lemma_told_prefix(
    short: Seq<EventFacts>,
    long: Seq<EventFacts>,
    seat: Seat,
    life: i32,
    from: nat,
    n: nat,
)
    requires
        n <= short.len() <= long.len(),
        forall|i: int| 0 <= i < short.len() ==> #[trigger] long[i] == short[i],
    ensures
        life_told(long, seat, life, from, n) == life_told(short, seat, life, from, n),
    decreases n,
{
    if n > from && n > 0 {
        lemma_told_prefix(short, long, seat, life, from, (n - 1) as nat);
        assert(long[n - 1] == short[n - 1]);
    }
}

pub proof fn lemma_leads_self(g: GameModel)
    ensures
        g.leads_to(g),
{
    reveal(GameModel::leads_to);
    reveal(GameModel::follows);
    reveal(GameModel::log_grows);
    reveal(GameModel::players_stay);
    reveal(GameModel::objects_stay);
    reveal(GameModel::lives_are_told);
    reveal(GameModel::gone_for_a_reason);
}

/// A token stays one, and who left stays out.
pub proof fn lemma_stays_gone(b: GameModel, c: GameModel, id: ObjectId)
    requires
        b.same_table(c),
        b.log_grows(c),
        b.players_stay(c),
        b.objects_stay(c),
        b.has_obj(id),
        b.may_be_gone(id),
    ensures
        c.may_be_gone(id),
{
    reveal(GameModel::log_grows);
    reveal(GameModel::players_stay);
    reveal(GameModel::objects_stay);
    assert(c.obj(id).card == b.obj(id).card && c.obj(id).owner == b.obj(id).owner);
    if b.out(b.obj(id).owner) {
        let s = b.obj(id).owner;
        assert(c.player(s).eliminated == b.player(s).eliminated);
    } else {
        let card = b.obj(id).card;
        if card >= b.cards.len() {
            assert(c.tokens[card - b.cards.len()] == b.tokens[card - b.cards.len()]);
        }
    }
}

pub proof fn lemma_leads_on(a: GameModel, b: GameModel, c: GameModel)
    requires
        a.leads_to(b),
        b.leads_to(c),
    ensures
        a.leads_to(c),
{
    reveal(GameModel::leads_to);
    lemma_follows_on(a, b, c);
}

pub proof fn lemma_follows_on(a: GameModel, b: GameModel, c: GameModel)
    requires
        a.follows(b),
        b.follows(c),
    ensures
        a.follows(c),
{
    reveal(GameModel::follows);
    assert(a.log_grows(c)) by {
        reveal(GameModel::log_grows);
        assert forall|i: int| 0 <= i < a.log.len() implies #[trigger] c.log[i] == a.log[i] by {
            assert(c.log[i] == b.log[i]);
            assert(b.log[i] == a.log[i]);
        }
        assert forall|i: int| 0 <= i < a.tokens.len() implies #[trigger] c.tokens[i]
            == a.tokens[i] by {
            assert(c.tokens[i] == b.tokens[i]);
            assert(b.tokens[i] == a.tokens[i]);
        }
    }
    assert(a.players_stay(c)) by {
        reveal(GameModel::players_stay);
        assert forall|s: Seat| #![trigger c.player(s)] a.has_seat(s) implies c.player(s).name
            == a.player(s).name && (a.player(s).eliminated is Some ==> c.player(s).eliminated
            == a.player(s).eliminated) by {
            assert(b.player(s).name == a.player(s).name);
        }
        assert forall|s: Seat| #[trigger] c.turn_order.contains(s) implies a.turn_order.contains(
            s,
        ) by {
            assert(b.turn_order.contains(s));
        }
    }
    assert(a.objects_stay(c)) by {
        reveal(GameModel::objects_stay);
        assert forall|id: ObjectId| #![trigger c.obj(id)] a.has_obj(id) implies c.obj(id).card
            == a.obj(id).card && c.obj(id).owner == a.obj(id).owner by {
            assert(b.obj(id).card == a.obj(id).card);
        }
    }
    assert(a.gone_for_a_reason(c)) by {
        reveal(GameModel::gone_for_a_reason);
        assert forall|id: ObjectId| #![trigger c.obj(id)]
            c.objects.len() <= u32::MAX && c.has_obj(id) && c.obj(
            id,
        ).zone is OutOfGame implies (a.has_obj(id) && a.obj(
            id,
        ).zone is OutOfGame) || c.may_be_gone(id) by {
            assert(b.objects.len() <= c.objects.len()) by {
                reveal(GameModel::objects_stay);
            }
            if b.has_obj(id) && b.obj(id).zone is OutOfGame && !(a.has_obj(id) && a.obj(
                id,
            ).zone is OutOfGame) {
                assert(b.may_be_gone(id));
                lemma_stays_gone(b, c, id);
            }
        }
    }
    assert(a.lives_are_told(c)) by {
        reveal(GameModel::log_grows);
        reveal(GameModel::lives_are_told);
        assert(a.players.len() == b.players.len()) by {
            reveal(GameModel::players_stay);
        }
        assert forall|s: Seat| #![trigger c.life(s)] a.has_seat(s) implies life_told(
            c.log,
            s,
            a.life(s),
            a.log.len(),
            c.log.len(),
        ) == Some(c.life(s)) by {
            assert(life_told(b.log, s, a.life(s), a.log.len(), b.log.len()) == Some(b.life(s)));
            assert(life_told(c.log, s, b.life(s), b.log.len(), c.log.len()) == Some(c.life(s)));
            lemma_told_prefix(b.log, c.log, s, a.life(s), a.log.len(), b.log.len());
            lemma_told_split(c.log, s, a.life(s), a.log.len(), b.log.len(), c.log.len());
        }
    }
}

/// Nothing is lost by changing nothing.
pub broadcast proof fn lemma_keeps_self(g: GameModel)
    ensures
        #[trigger] g.keeps(g),
{
    reveal(GameModel::keeps);
    lemma_leads_self(g);
}

/// What is kept by one change and by the next is kept by both.
pub broadcast proof fn lemma_keeps_on(a: GameModel, b: GameModel, c: GameModel)
    requires
        #[trigger] a.keeps(b),
        #[trigger] b.keeps(c),
    ensures
        a.keeps(c),
{
    reveal(GameModel::keeps);
    lemma_leads_on(a, b, c);
}

pub broadcast group group_keeps {
    lemma_keeps_self,
    lemma_keeps_on,
}

// ----- changes that touch none of it -----

impl GameModel {
    /// Everything that soundness and the record speak of is the same.
    pub open spec fn same_core(self, h: GameModel) -> bool {
        &&& self.same_table(h)
        &&& h.log == self.log
        &&& h.tokens == self.tokens
        &&& h.players == self.players
        &&& h.objects == self.objects
        &&& h.stack == self.stack
        &&& h.turn_order == self.turn_order
        &&& h.active_player == self.active_player
        &&& self.turn <= h.turn
        &&& self.started ==> h.started
        &&& h.outcome == self.outcome
    }
}

/// What soundness says of objects, lists and the stack carries over to a
/// game where those are the same.
pub proof fn lemma_spots_same(g: GameModel, h: GameModel, but: ObjectId)
    requires
        g.same_spots(h),
        g.sound_but(but),
    ensures
        h.lists_are_true(),
        h.lists_are_sets(),
        h.lists_are_full(),
        h.objects_are_real(),
        h.spells_are_there(),
        h.stack_is_full_but(but),
{
    assert(forall|s: Seat, z: Zone| #[trigger] h.list(s, z) == g.list(s, z));
    assert forall|id: ObjectId| #[trigger] h.obj(id).same_place(g.obj(id)) || !g.has_obj(id) by {
        if g.has_obj(id) {
            assert(h.objects[id.0 - 1].same_place(g.objects[id.0 - 1]));
        }
    }
    assert(h.lists_are_true()) by {
        reveal(GameModel::lists_are_true);
        assert forall|s: Seat, z: Zone, k: int|
            #![trigger h.list(s, z)[k]]
            0 <= k < h.list(s, z).len() implies h.in_zone(h.list(s, z)[k], z) && h.obj(
            h.list(s, z)[k],
        ).home() == s by {
            let id = g.list(s, z)[k];
            assert(g.in_zone(id, z));
            assert(h.obj(id).same_place(g.obj(id)));
        }
    }
    assert(h.lists_are_sets()) by {
        reveal(GameModel::lists_are_sets);
    }
    assert(h.lists_are_full()) by {
        reveal(GameModel::lists_are_full);
        assert forall|id: ObjectId|
            #![trigger h.obj(id)]
            h.has_obj(id) && listed(h.obj(id).zone) implies h.list(
            h.obj(id).home(),
            h.obj(id).zone,
        ).contains(id) by {
            assert(h.obj(id).same_place(g.obj(id)));
        }
    }
    assert(h.objects_are_real()) by {
        reveal(GameModel::objects_are_real);
        assert forall|id: ObjectId| #![trigger h.obj(id)] h.has_obj(id) implies h.has_seat(
            h.obj(id).owner,
        ) && h.has_seat(h.obj(id).controller) && h.has_card(h.obj(id).card) by {
            assert(h.obj(id).same_place(g.obj(id)));
        }
    }
    assert(h.spells_are_there()) by {
        reveal(GameModel::spells_are_there);
        assert forall|k: int|
            #![trigger h.stack[k]]
            0 <= k < h.stack.len() && h.stack[k].kind is Spell implies h.in_zone(
            h.stack[k].object,
            Zone::Stack,
        ) && h.obj(h.stack[k].object).owner == h.stack[k].controller by {
            let id = g.stack[k].object;
            assert(g.in_zone(id, Zone::Stack));
            assert(h.obj(id).same_place(g.obj(id)));
        }
    }
    assert(h.stack_is_full_but(but)) by {
        reveal(GameModel::stack_is_full_but);
        assert forall|id: ObjectId|
            #![trigger h.obj(id)]
            h.in_zone(id, Zone::Stack) && id != but implies exists|k: int| h.spell_entry(id, k) by {
            assert(h.obj(id).same_place(g.obj(id)));
            assert(g.in_zone(id, Zone::Stack));
            let k = choose|k: int| g.spell_entry(id, k);
            assert(h.spell_entry(id, k));
        }
    }
}

/// Two games with the same objects, lists, stack and table are as sound as
/// each other.
pub proof fn lemma_sound_same(g: GameModel, h: GameModel, but: ObjectId)
    requires
        g.same_places(h),
        g.sound_but(but),
    ensures
        h.sound_but(but),
{
    lemma_spots_same(g, h, but);
    assert forall|s: Seat| g.has_seat(s) implies #[trigger] h.player(s).eliminated == g.player(
        s,
    ).eliminated by {
        assert(h.players[s.0 as int].eliminated == g.players[s.0 as int].eliminated);
    }
    assert(h.table_agrees()) by {
        reveal(GameModel::table_agrees);
        assert forall|s: Seat|
            #![trigger h.player(s)]
            h.has_seat(s) && h.player(s).eliminated is None implies h.turn_order.contains(s) by {
            assert(g.player(s).eliminated == h.player(s).eliminated);
        }
        assert forall|s: Seat| #![trigger h.turn_order.contains(s)]
            h.turn_order.contains(s) implies h.has_seat(s) && h.player(s).eliminated is None
            && h.seating.contains(s) by {
            assert(g.turn_order.contains(s));
            assert(g.player(s).eliminated == h.player(s).eliminated);
        }
    }
}

impl GameModel {
    /// Objects, lists and stack are the same.
    pub open spec fn same_spots(self, h: GameModel) -> bool {
        &&& h.cards == self.cards
        &&& h.tokens == self.tokens
        &&& h.stack == self.stack
        &&& h.objects.len() == self.objects.len()
        &&& forall|i: int|
            0 <= i < self.objects.len() ==> (#[trigger] h.objects[i]).same_place(self.objects[i])
        &&& h.players.len() == self.players.len()
        &&& forall|i: int|
            0 <= i < self.players.len() ==> (#[trigger] h.players[i]).same_lists(self.players[i])
    }

    /// Everything that soundness speaks of is the same.
    pub open spec fn same_places(self, h: GameModel) -> bool {
        &&& self.same_spots(h)
        &&& h.seating == self.seating
        &&& h.turn_order == self.turn_order
        &&& h.active_player == self.active_player
        &&& forall|i: int|
            0 <= i < self.players.len() ==> (#[trigger] h.players[i]).eliminated
                == self.players[i].eliminated
    }
}

pub proof fn lemma_same_core(g: GameModel, h: GameModel)
    requires
        g.same_core(h),
        h.casting() is Some ==> h.casting() == g.casting(),
    ensures
        g.keeps(h),
{
    reveal(GameModel::keeps);
    reveal(GameModel::leads_to);
    reveal(GameModel::follows);
    reveal(GameModel::log_grows);
    reveal(GameModel::players_stay);
    reveal(GameModel::objects_stay);
    reveal(GameModel::lives_are_told);
    reveal(GameModel::gone_for_a_reason);
    if g.sound() {
        lemma_sound_same(g, h, nobody());
    }
}

/// Changes that leave every object where it is and every player standing.
pub proof fn lemma_same_places(g: GameModel, h: GameModel)
    requires
        h.casting() is Some ==> h.casting() == g.casting(),
        g.same_table(h),
        g.same_places(h),
        h.log == g.log,
        g.turn <= h.turn,
        g.started ==> h.started,
        h.outcome == g.outcome,
        forall|i: int|
            0 <= i < g.players.len() ==> (#[trigger] h.players[i]).same_standing(g.players[i]),
    ensures
        g.keeps(h),
{
    reveal(GameModel::keeps);
    reveal(GameModel::leads_to);
    reveal(GameModel::follows);
    reveal(GameModel::log_grows);
    assert(g.players_stay(h)) by {
        reveal(GameModel::players_stay);
        assert forall|s: Seat| #![trigger h.player(s)] g.has_seat(s) implies h.player(s).name
            == g.player(s).name && (g.player(s).eliminated is Some ==> h.player(s).eliminated
            == g.player(s).eliminated) by {
            assert(h.players[s.0 as int].same_standing(g.players[s.0 as int]));
        }
    }
    assert(g.objects_stay(h)) by {
        reveal(GameModel::objects_stay);
        assert forall|id: ObjectId| #![trigger h.obj(id)] g.has_obj(id) implies h.obj(id).card
            == g.obj(id).card && h.obj(id).owner == g.obj(id).owner by {
            assert(h.objects[id.0 - 1].same_place(g.objects[id.0 - 1]));
        }
    }
    assert(g.gone_for_a_reason(h)) by {
        reveal(GameModel::gone_for_a_reason);
        assert forall|id: ObjectId| #![trigger h.obj(id)]
            h.has_obj(id) && h.obj(id).zone is OutOfGame implies (g.has_obj(id) && g.obj(
            id,
        ).zone is OutOfGame) || h.may_be_gone(id) by {
            assert(h.objects[id.0 - 1].same_place(g.objects[id.0 - 1]));
        }
    }
    assert(g.lives_are_told(h)) by {
        reveal(GameModel::lives_are_told);
        assert forall|s: Seat| #![trigger h.life(s)] g.has_seat(s) implies life_told(
            h.log,
            s,
            g.life(s),
            g.log.len(),
            h.log.len(),
        ) == Some(h.life(s)) by {
            assert(h.players[s.0 as int].same_standing(g.players[s.0 as int]));
        }
    }
    if g.sound() {
        lemma_sound_same(g, h, nobody());
    }
}

pub proof fn lemma_with_obj(g: GameModel, id: ObjectId, o: ObjectModel)
    requires
        g.has_obj(id) ==> o.same_place(g.obj(id)),
    ensures
        g.keeps(g.with_obj(id, o)),
{
    lemma_same_places(g, g.with_obj(id, o));
}

pub proof fn lemma_with_player(g: GameModel, seat: Seat, p: PlayerModel)
    requires
        g.has_seat(seat) ==> p.same_standing(g.player(seat)),
    ensures
        g.keeps(g.with_player(seat, p)),
{
    lemma_same_places(g, g.with_player(seat, p));
}

/// An event that is not a change of life.
pub proof fn lemma_emit(g: GameModel, e: EventFacts)
    requires
        !(e is LifeChanged),
    ensures
        g.keeps(g.emit(e)),
{
    let h = g.emit(e);
    reveal(GameModel::keeps);
    reveal(GameModel::leads_to);
    reveal(GameModel::follows);
    reveal(GameModel::log_grows);
    reveal(GameModel::players_stay);
    reveal(GameModel::objects_stay);
    reveal(GameModel::gone_for_a_reason);
    assert(g.lives_are_told(h)) by {
        reveal(GameModel::lives_are_told);
        assert forall|s: Seat| #![trigger h.life(s)] g.has_seat(s) implies life_told(
            h.log,
            s,
            g.life(s),
            g.log.len(),
            h.log.len(),
        ) == Some(h.life(s)) by {
            assert(life_told(h.log, s, g.life(s), g.log.len(), g.log.len()) == Some(g.life(s)));
            assert(h.log[h.log.len() - 1] == e);
        }
    }
    if g.sound() {
        lemma_sound_same(g, h, nobody());
    }
}

/// A life total becomes `to`, which the log then says, after other events.
pub proof fn lemma_life_changes(g: GameModel, seat: Seat, to: i32, between: Option<EventFacts>)
    requires
        between matches Some(e) ==> !(e is LifeChanged),
    ensures
        ({
            let h = g.with_life(seat, to);
            let told = match between {
                Some(e) => h.emit(e),
                None => h,
            };
            g.keeps(told.emit(EventModel::LifeChanged { seat, from: g.life(seat), to }))
        }),
{
    let a = g.with_life(seat, to);
    let b = match between {
        Some(e) => a.emit(e),
        None => a,
    };
    let last = EventModel::LifeChanged { seat, from: g.life(seat), to };
    let h = b.emit(last);
    reveal(GameModel::keeps);
    reveal(GameModel::leads_to);
    reveal(GameModel::follows);
    reveal(GameModel::log_grows);
    assert(g.players_stay(h)) by {
        reveal(GameModel::players_stay);
    }
    assert(g.objects_stay(h)) by {
        reveal(GameModel::objects_stay);
    }
    assert(g.gone_for_a_reason(h)) by {
        reveal(GameModel::gone_for_a_reason);
    }
    assert(g.lives_are_told(h)) by {
        reveal(GameModel::lives_are_told);
        assert forall|s: Seat| #![trigger h.life(s)] g.has_seat(s) implies life_told(
            h.log,
            s,
            g.life(s),
            g.log.len(),
            h.log.len(),
        ) == Some(h.life(s)) by {
            let n = g.log.len();
            assert(life_told(h.log, s, g.life(s), n, n) == Some(g.life(s)));
            assert(h.log[h.log.len() - 1] == last);
            if between is Some {
                assert(h.log[n as int] == between->0);
                assert(life_told(h.log, s, g.life(s), n, n + 1) == Some(g.life(s)));
            }
            if s != seat {
                assert(h.life(s) == g.life(s));
            }
        }
    }
    if g.sound() {
        lemma_sound_same(g, h, nobody());
    }
}

// ----- lists -----

/// What `without` leaves.
pub proof fn lemma_without_n<T>(s: Seq<T>, x: T, n: nat)
    requires
        n <= s.len(),
    ensures
        forall|y: T| #[trigger]
            without_n(s, x, n).contains(y) ==> y != x && s.subrange(0, n as int).contains(y),
        forall|k: int| 0 <= k < n && s[k] != x ==> without_n(s, x, n).contains(#[trigger] s[k]),
        s.subrange(0, n as int).no_duplicates() ==> without_n(s, x, n).no_duplicates(),
        without_n(s, x, n).len() <= n,
        (forall|k: int| 0 <= k < n ==> s[k] != x) ==> without_n(s, x, n) == s.subrange(0, n as int),
    decreases n,
{
    if n > 0 {
        let m = (n - 1) as nat;
        lemma_without_n(s, x, m);
        let rest = without_n(s, x, m);
        let now = without_n(s, x, n);
        let before = s.subrange(0, m as int);
        let whole = s.subrange(0, n as int);
        assert(whole =~= before.push(s[m as int]));
        assert forall|y: T| before.contains(y) implies whole.contains(y) by {
            let j = choose|j: int| 0 <= j < before.len() && before[j] == y;
            assert(whole[j] == y);
        }
        assert(whole[m as int] == s[m as int]);
        if s[m as int] != x {
            assert(now == rest.push(s[m as int]));
            assert forall|y: T| #[trigger] now.contains(y) implies y != x && whole.contains(y) by {
                let j = choose|j: int| 0 <= j < now.len() && now[j] == y;
                if j < rest.len() {
                    assert(rest[j] == y);
                    assert(rest.contains(y));
                }
            }
            assert forall|k: int| 0 <= k < n && s[k] != x implies now.contains(#[trigger] s[k]) by {
                if k < m {
                    assert(rest.contains(s[k]));
                    let j = choose|j: int| 0 <= j < rest.len() && rest[j] == s[k];
                    assert(now[j] == s[k]);
                } else {
                    assert(now[now.len() - 1] == s[k]);
                }
            }
            if whole.no_duplicates() {
                assert(before.no_duplicates()) by {
                    assert forall|i: int, j: int|
                        0 <= i < before.len() && 0 <= j < before.len() && i != j implies before[i]
                        != before[j] by {
                        assert(whole[i] != whole[j]);
                    }
                }
                assert(!rest.contains(s[m as int])) by {
                    if rest.contains(s[m as int]) {
                        assert(before.contains(s[m as int]));
                        let j = choose|j: int| 0 <= j < before.len() && before[j] == s[m as int];
                        assert(whole[j] == whole[m as int]);
                    }
                }
                assert forall|i: int, j: int|
                    0 <= i < now.len() && 0 <= j < now.len() && i != j implies now[i] != now[j] by {
                    if i == rest.len() {
                        assert(rest.contains(rest[j]));
                    } else if j == rest.len() {
                        assert(rest.contains(rest[i]));
                    }
                }
            }
        } else {
            if whole.no_duplicates() {
                assert(before.no_duplicates()) by {
                    assert forall|i: int, j: int|
                        0 <= i < before.len() && 0 <= j < before.len() && i != j implies before[i]
                        != before[j] by {
                        assert(whole[i] != whole[j]);
                    }
                }
            }
        }
        if forall|k: int| 0 <= k < n ==> s[k] != x {
            assert(rest == before);
            assert(now =~= whole);
        }
    } else {
        assert(s.subrange(0, 0) =~= Seq::<T>::empty());
    }
}

/// Dropping a value keeps everything else, once each.
pub proof fn lemma_without<T>(s: Seq<T>, x: T)
    ensures
        forall|y: T| #[trigger] without(s, x).contains(y) <==> y != x && s.contains(y),
        s.no_duplicates() ==> without(s, x).no_duplicates(),
        without(s, x).len() <= s.len(),
        !s.contains(x) ==> without(s, x) == s,
{
    lemma_without_n(s, x, s.len());
    assert(s.subrange(0, s.len() as int) =~= s);
    assert forall|y: T| y != x && s.contains(y) implies #[trigger] without(s, x).contains(y) by {
        let k = choose|k: int| 0 <= k < s.len() && s[k] == y;
        assert(without_n(s, x, s.len()).contains(s[k]));
    }
    if !s.contains(x) {
        assert forall|k: int| 0 <= k < s.len() implies s[k] != x by {
            assert(s.contains(s[k]));
        }
    }
}

impl GameModel {
    /// The lists of a game with one list changed.
    proof fn lemma_with_list(self, seat: Seat, zone: Zone, list: Seq<ObjectId>)
        ensures
            forall|s: Seat, z: Zone| #[trigger]
                self.with_list(seat, zone, list).list(s, z) == (if s == seat && z == zone
                    && self.has_seat(seat) && listed(zone) {
                    list
                } else {
                    self.list(s, z)
                }),
            forall|s: Seat|
                #![trigger self.with_list(seat, zone, list).player(s)]
                self.has_seat(s) ==> self.with_list(seat, zone, list).player(s).life == self.player(
                    s,
                ).life && self.with_list(seat, zone, list).player(s).name == self.player(s).name
                    && self.with_list(seat, zone, list).player(s).eliminated == self.player(
                    s,
                ).eliminated,
            self.with_list(seat, zone, list) == (GameModel {
                players: self.with_list(seat, zone, list).players,
                ..self
            }),
            self.with_list(seat, zone, list).players.len() == self.players.len(),
    {
    }
}

/// What a stack without an object's entries holds.
proof fn lemma_stack_without(stack: Seq<StackModel>, id: ObjectId, n: nat)
    requires
        n <= stack.len(),
    ensures
        forall|k: int|
            0 <= k < stack_without(stack, id, n).len() ==> (#[trigger] stack_without(
                stack,
                id,
                n,
            )[k]).object != id && exists|j: int|
                0 <= j < n && #[trigger] stack[j] == stack_without(stack, id, n)[k],
        forall|j: int|
            0 <= j < n && (#[trigger] stack[j]).object != id ==> exists|k: int|
                0 <= k < stack_without(stack, id, n).len() && #[trigger] stack_without(
                    stack,
                    id,
                    n,
                )[k] == stack[j],
    decreases n,
{
    if n > 0 {
        let m = (n - 1) as nat;
        lemma_stack_without(stack, id, m);
        let rest = stack_without(stack, id, m);
        let now = stack_without(stack, id, n);
        if stack[m as int].object != id {
            assert(now == rest.push(stack[m as int]));
        }
        assert forall|k: int| 0 <= k < now.len() implies (#[trigger] now[k]).object != id
            && exists|j: int| 0 <= j < n && #[trigger] stack[j] == now[k] by {
            if k < rest.len() {
                assert(now[k] == rest[k]);
                let j = choose|j: int| 0 <= j < m && #[trigger] stack[j] == rest[k];
                assert(stack[j] == now[k]);
            } else {
                assert(stack[m as int] == now[k]);
            }
        }
        assert forall|j: int| 0 <= j < n && (#[trigger] stack[j]).object != id implies exists|
            k: int,
        |
            0 <= k < now.len() && #[trigger] now[k] == stack[j] by {
            if j < m {
                let k = choose|k: int| 0 <= k < rest.len() && #[trigger] rest[k] == stack[j];
                assert(now[k] == stack[j]);
            } else {
                assert(now[now.len() - 1] == stack[j]);
            }
        }
    }
}

// ----- moving -----

/// The lists and objects after a move.
pub proof fn lemma_moved(g: GameModel, id: ObjectId, to: Zone)
    requires
        g.has_obj(id),
        g.obj(id).zone != to,
    ensures
        ({
            let h = g.move_object(id, to);
            let o = g.obj(id);
            &&& h.objects == g.objects.update(id.0 - 1, o.moved(to))
            &&& forall|s: Seat, z: Zone| #[trigger]
                h.list(s, z) == (if s == o.home() && z == o.zone && listed(o.zone) {
                    without(g.list(s, z), id)
                } else if s == list_seat(o, to) && z == to && g.has_seat(s) && listed(to) {
                    g.list(s, z).push(id)
                } else {
                    g.list(s, z)
                })
            &&& h.players.len() == g.players.len()
            &&& forall|s: Seat|
                #![trigger h.player(s)]
                g.has_seat(s) ==> h.player(s).life == g.player(s).life && h.player(s).name
                    == g.player(s).name && h.player(s).eliminated == g.player(s).eliminated
            &&& h.stack == (if o.zone is Stack {
                stack_without(g.stack, id, g.stack.len())
            } else {
                g.stack
            })
            &&& h == (GameModel {
                players: h.players,
                objects: h.objects,
                stack: h.stack,
                log: h.log,
                ..g
            })
            &&& h.log == g.log || exists|e: EventFacts| h.log == g.log.push(e) && !(e is LifeChanged)
        }),
{
    let o = g.obj(id);
    let g1 = g.unlist(id);
    let g2 = g1.with_obj(id, g1.obj(id).moved(to));
    let g3 = g2.enlist(id);
    let from_seat = list_seat(o, o.zone);
    if !(o.zone is Stack) {
        g.lemma_with_list(from_seat, o.zone, without(g.list(from_seat, o.zone), id));
    }
    if !g.has_seat(from_seat) {
        assert(g.list(from_seat, o.zone) =~= Seq::empty());
        assert(without(g.list(from_seat, o.zone), id) =~= Seq::empty());
    }
    assert(g1.obj(id) == o);
    let to_seat = list_seat(g2.obj(id), to);
    assert(g2.obj(id) == o.moved(to));
    assert(to_seat == list_seat(o, to));
    g2.lemma_with_list(to_seat, to, g2.list(to_seat, to).push(id));
    assert(forall|s: Seat, z: Zone| #[trigger] g2.list(s, z) == g1.list(s, z));
    let h = g.move_object(id, to);
    assert forall|s: Seat, z: Zone| #[trigger] h.list(s, z) == g3.list(s, z) by {}
    if o.zone.public() || to.public() {
        let e: EventFacts = EventModel::ZoneChange { object: id, from: o.zone, to };
        assert(h.log == g.log.push(e));
    }
}

/// A move changes one object's zone.
pub proof fn lemma_zone_after(g: GameModel, id: ObjectId, to: Zone)
    ensures
        ({
            let h = g.move_object(id, to);
            &&& h.objects.len() == g.objects.len()
            &&& forall|x: ObjectId|
                #![trigger h.obj(x)]
                g.has_obj(x) ==> h.obj(x).owner == g.obj(x).owner && h.obj(x).zone == (if x == id {
                    to
                } else {
                    g.obj(x).zone
                })
        }),
{
    if g.has_obj(id) && g.obj(id).zone != to {
        lemma_moved(g, id, to);
    }
}

/// A move leads on.
pub proof fn lemma_move_leads(g: GameModel, id: ObjectId, to: Zone)
    requires
        to is OutOfGame && g.has_obj(id) && g.objects.len() <= u32::MAX ==> g.may_be_gone(id),
    ensures
        g.leads_to(g.move_object(id, to)),
{
    if g.has_obj(id) && g.obj(id).zone != to {
        lemma_moved(g, id, to);
        let h = g.move_object(id, to);
        reveal(GameModel::leads_to);
        reveal(GameModel::follows);
        assert(g.log_grows(h)) by {
            reveal(GameModel::log_grows);
        }
        assert(g.players_stay(h)) by {
            reveal(GameModel::players_stay);
        }
        assert(g.objects_stay(h)) by {
            reveal(GameModel::objects_stay);
        }
        assert(g.gone_for_a_reason(h)) by {
            reveal(GameModel::gone_for_a_reason);
            assert forall|x: ObjectId| #![trigger h.obj(x)]
                h.objects.len() <= u32::MAX && h.has_obj(x) && h.obj(
                x,
            ).zone is OutOfGame implies (g.has_obj(x) && g.obj(
                x,
            ).zone is OutOfGame) || h.may_be_gone(x) by {
                if x == id {
                    let s = g.obj(id).owner;
                    if g.out(s) {
                        assert(h.player(s).eliminated == g.player(s).eliminated);
                    }
                }
            }
        }
        assert(g.lives_are_told(h)) by {
            reveal(GameModel::lives_are_told);
            assert forall|s: Seat| #![trigger h.life(s)] g.has_seat(s) implies life_told(
                h.log,
                s,
                g.life(s),
                g.log.len(),
                h.log.len(),
            ) == Some(h.life(s)) by {
                assert(h.player(s).life == g.player(s).life);
                let n = g.log.len();
                assert(life_told(h.log, s, g.life(s), n, n) == Some(g.life(s)));
            }
        }
    } else {
        lemma_leads_self(g);
    }
}

/// An object that moves anywhere but to the stack is where it should be, and
/// so is everything else.
pub proof fn lemma_move_sound(g: GameModel, id: ObjectId, to: Zone, but: ObjectId)
    requires
        g.sound_but(but),
        !(to is Stack),
        but == nobody() || but == id,
    ensures
        g.move_object(id, to).sound(),
{
    let h = g.move_object(id, to);
    if !g.has_obj(id) || g.obj(id).zone == to {
        assert(h.stack_is_full_but(nobody())) by {
            reveal(GameModel::stack_is_full_but);
        }
    } else {
        let o = g.obj(id);
        lemma_moved(g, id, to);
        lemma_move_places(g, id, to);
        assert forall|x: ObjectId| #![trigger h.obj(x)] h.has_obj(x) implies (if x == id {
            h.obj(x) == o.moved(to)
        } else {
            h.obj(x) == g.obj(x)
        }) by {}
        if o.zone is Stack {
            lemma_stack_without(g.stack, id, g.stack.len());
        }
        assert(h.spells_are_there()) by {
            reveal(GameModel::spells_are_there);
            assert forall|k: int|
                #![trigger h.stack[k]]
                0 <= k < h.stack.len() && h.stack[k].kind is Spell implies h.in_zone(
                h.stack[k].object,
                Zone::Stack,
            ) && h.obj(h.stack[k].object).owner == h.stack[k].controller by {
                let x = h.stack[k].object;
                if o.zone is Stack {
                    let j = choose|j: int|
                        0 <= j < g.stack.len() && #[trigger] g.stack[j] == h.stack[k];
                    assert(g.in_zone(g.stack[j].object, Zone::Stack));
                } else {
                    assert(g.in_zone(g.stack[k].object, Zone::Stack));
                }
                assert(x != id);
                assert(h.obj(x) == g.obj(x));
            }
        }
        assert(h.stack_is_full_but(nobody())) by {
            reveal(GameModel::stack_is_full_but);
            assert forall|x: ObjectId|
                #![trigger h.obj(x)]
                h.in_zone(x, Zone::Stack) && x != nobody() implies exists|k: int| h.spell_entry(
                x,
                k,
            ) by {
                assert(x != id);
                assert(h.obj(x) == g.obj(x));
                assert(g.in_zone(x, Zone::Stack));
                let j = choose|j: int| g.spell_entry(x, j);
                if o.zone is Stack {
                    let k = choose|k: int|
                        0 <= k < h.stack.len() && #[trigger] h.stack[k] == g.stack[j];
                    assert(h.spell_entry(x, k));
                } else {
                    assert(h.spell_entry(x, j));
                }
            }
        }
        assert(h.table_agrees()) by {
            reveal(GameModel::table_agrees);
        }
    }
}

/// The lists and the objects agree after a move, to the stack as well.
proof fn lemma_move_places(g: GameModel, id: ObjectId, to: Zone)
    requires
        g.lists_are_true(),
        g.lists_are_sets(),
        g.lists_are_full(),
        g.objects_are_real(),
        g.has_obj(id),
        g.obj(id).zone != to,
    ensures
        ({
            let h = g.move_object(id, to);
            h.lists_are_true() && h.lists_are_sets() && h.lists_are_full() && h.objects_are_real()
        }),
{
    let o = g.obj(id);
    let h = g.move_object(id, to);
    lemma_moved(g, id, to);
    lemma_without(g.list(o.home(), o.zone), id);
    assert forall|x: ObjectId| #![trigger h.obj(x)] h.has_obj(x) implies (if x == id {
        h.obj(x) == o.moved(to)
    } else {
        h.obj(x) == g.obj(x)
    }) by {}
    // Where `id` was named before.
    assert forall|s: Seat, z: Zone, k: int|
        #![trigger g.list(s, z)[k]]
        0 <= k < g.list(s, z).len() && g.list(s, z)[k] == id implies z == o.zone && s
        == o.home() by {
        reveal(GameModel::lists_are_true);
    }
    assert(h.lists_are_true()) by {
        reveal(GameModel::lists_are_true);
        assert forall|s: Seat, z: Zone, k: int|
            #![trigger h.list(s, z)[k]]
            0 <= k < h.list(s, z).len() implies h.in_zone(h.list(s, z)[k], z) && h.obj(
            h.list(s, z)[k],
        ).home() == s by {
            let x = h.list(s, z)[k];
            let was = g.list(s, z);
            if s == o.home() && z == o.zone && listed(o.zone) {
                assert(without(was, id).contains(x));
                let j = choose|j: int| 0 <= j < was.len() && was[j] == x;
                assert(g.in_zone(g.list(s, z)[j], z));
            } else if s == list_seat(o, to) && z == to && g.has_seat(s) && listed(to) {
                if k < was.len() {
                    assert(x == was[k]);
                    assert(g.in_zone(g.list(s, z)[k], z));
                } else {
                    assert(x == id);
                }
            } else {
                assert(g.in_zone(g.list(s, z)[k], z));
            }
        }
    }
    assert(h.lists_are_sets()) by {
        reveal(GameModel::lists_are_sets);
        assert forall|s: Seat, z: Zone| (#[trigger] h.list(s, z)).no_duplicates() by {
            let was = g.list(s, z);
            assert(was.no_duplicates());
            if s == o.home() && z == o.zone && listed(o.zone) {
            } else if s == list_seat(o, to) && z == to && g.has_seat(s) && listed(to) {
                assert forall|i: int| 0 <= i < was.len() implies was[i] != id by {
                    assert(g.list(s, z)[i] == was[i]);
                }
                assert(was.push(id).no_duplicates());
            }
        }
    }
    assert(h.objects_are_real()) by {
        reveal(GameModel::objects_are_real);
        assert forall|x: ObjectId| #![trigger h.obj(x)] h.has_obj(x) implies h.has_seat(
            h.obj(x).owner,
        ) && h.has_seat(h.obj(x).controller) && h.has_card(h.obj(x).card) by {
            assert(g.has_card(g.obj(x).card));
        }
    }
    assert(h.lists_are_full()) by {
        reveal(GameModel::lists_are_full);
        assert forall|x: ObjectId|
            #![trigger h.obj(x)]
            h.has_obj(x) && listed(h.obj(x).zone) implies h.list(
            h.obj(x).home(),
            h.obj(x).zone,
        ).contains(x) by {
            if x == id {
                let s = list_seat(o, to);
                assert(g.has_seat(s)) by {
                    reveal(GameModel::objects_are_real);
                    assert(g.has_seat(g.obj(id).owner));
                }
                let l = h.list(s, to);
                assert(l == g.list(s, to).push(id));
                assert(l[l.len() - 1] == id);
            } else {
                let s = g.obj(x).home();
                let z = g.obj(x).zone;
                let was = g.list(s, z);
                assert(was.contains(x));
                if s == o.home() && z == o.zone {
                    assert(without(was, id).contains(x));
                } else {
                    let j = choose|j: int| 0 <= j < was.len() && was[j] == x;
                    assert(h.list(s, z)[j] == x);
                }
            }
        }
    }
}

/// Moving an object anywhere but to the stack.
pub proof fn lemma_move(g: GameModel, id: ObjectId, to: Zone)
    requires
        !(to is Stack),
        to is OutOfGame && g.has_obj(id) && g.objects.len() <= u32::MAX ==> g.may_be_gone(id),
    ensures
        g.keeps(g.move_object(id, to)),
{
    reveal(GameModel::keeps);
    lemma_move_leads(g, id, to);
    if g.sound() {
        lemma_move_sound(g, id, to, nobody());
    }
}

// ----- changes of several things at once -----

/// A change that logs nothing and leaves every player and object who they are.
pub proof fn lemma_leads_quietly(g: GameModel, h: GameModel)
    requires
        h.casting() is Some ==> h.casting() == g.casting(),
        g.same_table(h),
        h.log == g.log,
        g.tokens.len() <= h.tokens.len(),
        forall|i: int| 0 <= i < g.tokens.len() ==> #[trigger] h.tokens[i] == g.tokens[i],
        h.turn_order == g.turn_order,
        h.players.len() == g.players.len(),
        forall|i: int|
            0 <= i < g.players.len() ==> (#[trigger] h.players[i]).name == g.players[i].name
                && h.players[i].life == g.players[i].life && h.players[i].eliminated
                == g.players[i].eliminated,
        g.objects.len() <= h.objects.len(),
        forall|i: int|
            0 <= i < g.objects.len() ==> (#[trigger] h.objects[i]).card == g.objects[i].card
                && h.objects[i].owner == g.objects[i].owner,
        forall|i: int|
            0 <= i < h.objects.len() && (#[trigger] h.objects[i]).zone is OutOfGame ==> i
                < g.objects.len() && g.objects[i].zone is OutOfGame,
        g.turn <= h.turn,
        g.started ==> h.started,
        g.outcome is Some ==> h.outcome == g.outcome,
    ensures
        g.leads_to(h),
{
    reveal(GameModel::leads_to);
    reveal(GameModel::follows);
    reveal(GameModel::log_grows);
    assert(g.players_stay(h)) by {
        reveal(GameModel::players_stay);
        assert forall|s: Seat| #![trigger h.player(s)] g.has_seat(s) implies h.player(s).name
            == g.player(s).name && (g.player(s).eliminated is Some ==> h.player(s).eliminated
            == g.player(s).eliminated) by {
            assert(h.players[s.0 as int].name == g.players[s.0 as int].name);
        }
    }
    assert(g.objects_stay(h)) by {
        reveal(GameModel::objects_stay);
        assert forall|id: ObjectId| #![trigger h.obj(id)] g.has_obj(id) implies h.obj(id).card
            == g.obj(id).card && h.obj(id).owner == g.obj(id).owner by {
            assert(h.objects[id.0 - 1].card == g.objects[id.0 - 1].card);
        }
    }
    assert(g.gone_for_a_reason(h)) by {
        reveal(GameModel::gone_for_a_reason);
        assert forall|id: ObjectId| #![trigger h.obj(id)]
            h.has_obj(id) && h.obj(id).zone is OutOfGame implies (g.has_obj(id) && g.obj(
            id,
        ).zone is OutOfGame) || h.may_be_gone(id) by {
            assert(h.objects[id.0 - 1].zone is OutOfGame);
        }
    }
    assert(g.lives_are_told(h)) by {
        reveal(GameModel::lives_are_told);
        assert forall|s: Seat| #![trigger h.life(s)] g.has_seat(s) implies life_told(
            h.log,
            s,
            g.life(s),
            g.log.len(),
            h.log.len(),
        ) == Some(h.life(s)) by {
            assert(h.players[s.0 as int].life == g.players[s.0 as int].life);
        }
    }
}

impl GameModel {
    /// The lists name the same objects, in another order perhaps, and nothing
    /// else that soundness speaks of is changed but who controls what is not
    /// on the battlefield.
    pub open spec fn same_members(self, h: GameModel) -> bool {
        &&& h.seating == self.seating
        &&& h.cards == self.cards
        &&& h.tokens == self.tokens
        &&& h.stack == self.stack
        &&& h.turn_order == self.turn_order
        &&& h.active_player == self.active_player
        &&& h.objects.len() == self.objects.len()
        &&& forall|id: ObjectId|
            #![trigger h.obj(id)]
            self.has_obj(id) ==> h.obj(id).zone == self.obj(id).zone && h.obj(id).owner == self.obj(
                id,
            ).owner && h.obj(id).card == self.obj(id).card && h.has_seat(h.obj(id).controller) && (
            self.obj(id).zone is Battlefield ==> h.obj(id).controller == self.obj(id).controller)
        &&& h.players.len() == self.players.len()
        &&& forall|s: Seat|
            #![trigger h.player(s)]
            self.has_seat(s) ==> h.player(s).eliminated == self.player(s).eliminated
        &&& forall|s: Seat, z: Zone| (#[trigger] h.list(s, z)).no_duplicates()
        &&& forall|s: Seat, z: Zone, id: ObjectId| #[trigger]
            h.list(s, z).contains(id) <==> self.list(s, z).contains(id)
    }
}

pub proof fn lemma_sound_members(g: GameModel, h: GameModel, but: ObjectId)
    requires
        g.same_members(h),
        g.sound_but(but),
    ensures
        h.sound_but(but),
{
    assert(h.lists_are_true()) by {
        reveal(GameModel::lists_are_true);
        assert forall|s: Seat, z: Zone, k: int|
            #![trigger h.list(s, z)[k]]
            0 <= k < h.list(s, z).len() implies h.in_zone(h.list(s, z)[k], z) && h.obj(
            h.list(s, z)[k],
        ).home() == s by {
            let id = h.list(s, z)[k];
            assert(h.list(s, z).contains(id));
            assert(g.list(s, z).contains(id));
            let j = choose|j: int| 0 <= j < g.list(s, z).len() && g.list(s, z)[j] == id;
            assert(g.in_zone(g.list(s, z)[j], z));
            assert(h.obj(id).zone == g.obj(id).zone);
        }
    }
    assert(h.lists_are_sets()) by {
        reveal(GameModel::lists_are_sets);
    }
    assert(h.lists_are_full()) by {
        reveal(GameModel::lists_are_full);
        assert forall|id: ObjectId|
            #![trigger h.obj(id)]
            h.has_obj(id) && listed(h.obj(id).zone) implies h.list(
            h.obj(id).home(),
            h.obj(id).zone,
        ).contains(id) by {
            assert(g.list(g.obj(id).home(), g.obj(id).zone).contains(id));
        }
    }
    assert(h.objects_are_real()) by {
        reveal(GameModel::objects_are_real);
        assert forall|id: ObjectId| #![trigger h.obj(id)] h.has_obj(id) implies h.has_seat(
            h.obj(id).owner,
        ) && h.has_seat(h.obj(id).controller) && h.has_card(h.obj(id).card) by {
            assert(g.has_card(g.obj(id).card));
        }
    }
    assert(h.spells_are_there()) by {
        reveal(GameModel::spells_are_there);
        assert forall|k: int|
            #![trigger h.stack[k]]
            0 <= k < h.stack.len() && h.stack[k].kind is Spell implies h.in_zone(
            h.stack[k].object,
            Zone::Stack,
        ) && h.obj(h.stack[k].object).owner == h.stack[k].controller by {
            let id = g.stack[k].object;
            assert(g.in_zone(id, Zone::Stack));
            assert(h.obj(id).zone == g.obj(id).zone);
        }
    }
    assert(h.stack_is_full_but(but)) by {
        reveal(GameModel::stack_is_full_but);
        assert forall|id: ObjectId|
            #![trigger h.obj(id)]
            h.in_zone(id, Zone::Stack) && id != but implies exists|k: int| h.spell_entry(id, k) by {
            assert(g.in_zone(id, Zone::Stack));
            let k = choose|k: int| g.spell_entry(id, k);
            assert(h.spell_entry(id, k));
        }
    }
    assert(h.table_agrees()) by {
        reveal(GameModel::table_agrees);
        assert forall|s: Seat|
            #![trigger h.player(s)]
            h.has_seat(s) && h.player(s).eliminated is None implies h.turn_order.contains(s) by {
            assert(g.player(s).eliminated == h.player(s).eliminated);
        }
        assert forall|s: Seat| #![trigger h.turn_order.contains(s)]
            h.turn_order.contains(s) implies h.has_seat(s) && h.player(s).eliminated is None
            && h.seating.contains(s) by {
            assert(g.turn_order.contains(s));
            assert(g.player(s).eliminated == h.player(s).eliminated);
        }
    }
}

/// Another controller for an object that is not on the battlefield.
pub proof fn lemma_control(g: GameModel, id: ObjectId, seat: Seat, but: ObjectId)
    requires
        !g.in_zone(id, Zone::Battlefield),
        g.has_seat(seat),
    ensures
        g.leads_to(g.controlled(id, seat)),
        g.sound_but(but) ==> g.controlled(id, seat).sound_but(but),
{
    let h = g.with_obj(id, ObjectModel { controller: seat, ..g.obj(id) });
    lemma_leads_quietly(g, h);
    if g.sound_but(but) {
        assert(g.same_members(h)) by {
            reveal(GameModel::lists_are_sets);
            reveal(GameModel::objects_are_real);
            assert forall|s: Seat, z: Zone| (#[trigger] h.list(s, z)).no_duplicates() by {
                assert(g.list(s, z).no_duplicates());
                assert(h.list(s, z) == g.list(s, z));
            }
            assert forall|x: ObjectId|
                #![trigger h.obj(x)]
                g.has_obj(x) implies h.obj(x).zone == g.obj(x).zone && h.obj(x).owner == g.obj(
                x,
            ).owner && h.obj(x).card == g.obj(x).card && h.has_seat(h.obj(x).controller) && (g.obj(
                x,
            ).zone is Battlefield ==> h.obj(x).controller == g.obj(x).controller) by {
                assert(g.has_seat(g.obj(x).controller));
            }
        }
        lemma_sound_members(g, h, but);
    }
}

/// What is left when the last of a list of different values goes.
proof fn lemma_without_last<T>(s: Seq<T>)
    requires
        s.len() > 0,
        s.no_duplicates(),
    ensures
        without(s, s.last()) == s.drop_last(),
{
    let n = (s.len() - 1) as nat;
    assert forall|k: int| 0 <= k < n implies s[k] != s.last() by {}
    lemma_without_n(s, s.last(), n);
    assert(s.subrange(0, n as int) =~= s.drop_last());
}

pub proof fn lemma_draw_one(g: GameModel, seat: Seat)
    ensures
        g.keeps(g.draw_one(seat)),
{
    reveal(GameModel::keeps);
    let h = g.draw_one(seat);
    if !g.has_seat(seat) {
        lemma_leads_self(g);
    } else if g.player(seat).library.len() == 0 {
        lemma_with_player(g, seat, PlayerModel { drew_from_empty: true, ..g.player(seat) });
    } else {
        lemma_leads_quietly(g, h);
        if g.sound() {
            let lib = g.list(seat, Zone::Library);
            let id = lib.last();
            assert(lib[lib.len() - 1] == id);
            assert(g.in_zone(id, Zone::Library) && g.obj(id).home() == seat) by {
                reveal(GameModel::lists_are_true);
            }
            assert(lib.no_duplicates()) by {
                reveal(GameModel::lists_are_sets);
            }
            lemma_without_last(lib);
            let m = g.move_object(id, Zone::Hand);
            lemma_move_sound(g, id, Zone::Hand, nobody());
            lemma_moved(g, id, Zone::Hand);
            assert(m.list(seat, Zone::Library) == lib.drop_last());
            assert(m.list(seat, Zone::Hand) == g.hand(seat).push(id));
            assert forall|i: int| 0 <= i < m.players.len() implies (
            #[trigger] h.players[i]).same_lists(m.players[i]) && h.players[i].eliminated
                == m.players[i].eliminated by {
                let s = Seat(i as u8);
                assert(g.players.len() <= 255) by {
                    reveal(GameModel::table_agrees);
                }
                assert(m.player(s).eliminated == g.player(s).eliminated);
                assert(m.list(s, Zone::Library) == m.players[i].library);
                assert(m.list(s, Zone::Hand) == m.players[i].hand);
                assert(m.list(s, Zone::Graveyard) == m.players[i].graveyard);
                assert(m.list(s, Zone::Exile) == m.players[i].exile);
                assert(m.list(s, Zone::Battlefield) == m.players[i].battlefield);
                assert(m.list(s, Zone::Command) == m.players[i].command);
                assert(g.list(s, Zone::Graveyard) == g.players[i].graveyard);
                assert(g.list(s, Zone::Exile) == g.players[i].exile);
                assert(g.list(s, Zone::Battlefield) == g.players[i].battlefield);
                assert(g.list(s, Zone::Command) == g.players[i].command);
            }
            lemma_sound_same(m, h, nobody());
        }
    }
}

pub proof fn lemma_mill_one(g: GameModel, seat: Seat)
    ensures
        g.keeps(g.mill_one(seat)),
{
    reveal(GameModel::keeps);
    let h = g.mill_one(seat);
    if g.has_seat(seat) && g.player(seat).library.len() > 0 {
        let lib = g.list(seat, Zone::Library);
        let id = lib.last();
        let g1 = g.with_player(
            seat,
            PlayerModel { library: g.player(seat).library.drop_last(), ..g.player(seat) },
        );
        lemma_leads_quietly(g, g1);
        lemma_move_leads(g1, id, Zone::Graveyard);
        lemma_leads_on(g, g1, h);
        if g.sound() {
            assert(lib[lib.len() - 1] == id);
            assert(g.in_zone(id, Zone::Library) && g.obj(id).home() == seat) by {
                reveal(GameModel::lists_are_true);
            }
            assert(lib.no_duplicates()) by {
                reveal(GameModel::lists_are_sets);
            }
            lemma_without_last(lib);
            assert(!lib.drop_last().contains(id));
            lemma_without(lib.drop_last(), id);
            let m = g.move_object(id, Zone::Graveyard);
            lemma_move_sound(g, id, Zone::Graveyard, nobody());
            assert(g1.unlist(id).players =~= g.unlist(id).players);
            assert(g1.unlist(id) == g.unlist(id));
            assert(h == m);
        }
    } else {
        lemma_leads_self(g);
    }
}

// ----- the stack -----

impl GameModel {
    pub open spec fn restacked(self, stack: Seq<StackModel>) -> GameModel {
        GameModel { stack, ..self }
    }

    pub open spec fn controlled(self, id: ObjectId, seat: Seat) -> GameModel {
        self.with_obj(id, ObjectModel { controller: seat, ..self.obj(id) })
    }
}

/// An entry that is not a spell goes on the stack.
pub proof fn lemma_push_entry(g: GameModel, e: StackModel)
    requires
        !(e.kind is Spell),
    ensures
        g.keeps(g.restacked(g.stack.push(e))),
{
    let h = GameModel { stack: g.stack.push(e), ..g };
    reveal(GameModel::keeps);
    lemma_leads_quietly(g, h);
    if g.sound() {
        lemma_stack_changes(g, h, nobody());
        assert(h.spells_are_there()) by {
            reveal(GameModel::spells_are_there);
            assert forall|k: int|
                #![trigger h.stack[k]]
                0 <= k < h.stack.len() && h.stack[k].kind is Spell implies h.in_zone(
                h.stack[k].object,
                Zone::Stack,
            ) && h.obj(h.stack[k].object).owner == h.stack[k].controller by {
                assert(h.stack[k] == g.stack[k]);
            }
        }
        assert(h.stack_is_full_but(nobody())) by {
            reveal(GameModel::stack_is_full_but);
            assert forall|id: ObjectId|
                #![trigger h.obj(id)]
                h.in_zone(id, Zone::Stack) && id != nobody() implies exists|k: int| h.spell_entry(
                id,
                k,
            ) by {
                assert(g.in_zone(id, Zone::Stack) && g.obj(id) == h.obj(id));
                let k = choose|k: int| g.spell_entry(id, k);
                assert(h.spell_entry(id, k));
            }
        }
    }
}

/// With another stack, everything off it is as sound as before.
pub proof fn lemma_stack_changes(g: GameModel, h: GameModel, but: ObjectId)
    requires
        g.sound_but(but),
        h == g.restacked(h.stack),
    ensures
        h.lists_are_true(),
        h.lists_are_sets(),
        h.lists_are_full(),
        h.objects_are_real(),
        h.table_agrees(),
{
    assert(forall|s: Seat, z: Zone| #[trigger] h.list(s, z) == g.list(s, z));
    assert(forall|id: ObjectId| #[trigger] h.obj(id) == g.obj(id));
    assert(forall|s: Seat| #[trigger] h.player(s) == g.player(s));
    assert(h.lists_are_true()) by {
        reveal(GameModel::lists_are_true);
        assert forall|s: Seat, z: Zone, k: int|
            #![trigger h.list(s, z)[k]]
            0 <= k < h.list(s, z).len() implies h.in_zone(h.list(s, z)[k], z) && h.obj(
            h.list(s, z)[k],
        ).home() == s by {
            assert(g.in_zone(g.list(s, z)[k], z));
        }
    }
    assert(h.lists_are_sets()) by {
        reveal(GameModel::lists_are_sets);
    }
    assert(h.lists_are_full()) by {
        reveal(GameModel::lists_are_full);
        assert forall|id: ObjectId|
            #![trigger h.obj(id)]
            h.has_obj(id) && listed(h.obj(id).zone) implies h.list(
            h.obj(id).home(),
            h.obj(id).zone,
        ).contains(id) by {
            assert(g.list(g.obj(id).home(), g.obj(id).zone).contains(id));
        }
    }
    assert(h.objects_are_real()) by {
        reveal(GameModel::objects_are_real);
        assert forall|id: ObjectId| #![trigger h.obj(id)] h.has_obj(id) implies h.has_seat(
            h.obj(id).owner,
        ) && h.has_seat(h.obj(id).controller) && h.has_card(h.obj(id).card) by {
            assert(g.has_card(g.obj(id).card));
        }
    }
    assert(h.table_agrees()) by {
        reveal(GameModel::table_agrees);
        assert forall|s: Seat|
            #![trigger h.player(s)]
            h.has_seat(s) && h.player(s).eliminated is None implies h.turn_order.contains(s) by {
            assert(g.player(s).eliminated is None);
        }
    }
}

/// An entry leaves the stack: if it was a spell, its object is now out of place.
pub proof fn lemma_remove_entry(g: GameModel, i: int)
    requires
        0 <= i < g.stack.len(),
    ensures
        g.leads_to(g.restacked(g.stack.remove(i))),
        g.sound() ==> g.restacked(g.stack.remove(i)).sound_but(g.stack[i].object),
        g.sound() && !(g.stack[i].kind is Spell) ==> g.restacked(g.stack.remove(i)).sound(),
        g.sound() && g.stack[i].kind is Spell ==> g.in_zone(g.stack[i].object, Zone::Stack)
            && g.has_seat(g.stack[i].controller) && g.has_def(g.stack[i].object),
{
    let h = GameModel { stack: g.stack.remove(i), ..g };
    let gone = g.stack[i];
    lemma_leads_quietly(g, h);
    if g.sound() {
        lemma_stack_changes(g, h, nobody());
        assert(h.spells_are_there()) by {
            reveal(GameModel::spells_are_there);
            assert forall|k: int|
                #![trigger h.stack[k]]
                0 <= k < h.stack.len() && h.stack[k].kind is Spell implies h.in_zone(
                h.stack[k].object,
                Zone::Stack,
            ) && h.obj(h.stack[k].object).owner == h.stack[k].controller by {
                if k < i {
                    assert(h.stack[k] == g.stack[k]);
                } else {
                    assert(h.stack[k] == g.stack[k + 1]);
                }
            }
        }
        if gone.kind is Spell {
            assert(g.in_zone(gone.object, Zone::Stack) && g.obj(gone.object).owner
                == gone.controller) by {
                reveal(GameModel::spells_are_there);
            }
            assert(g.has_seat(gone.controller) && g.has_def(gone.object)) by {
                reveal(GameModel::objects_are_real);
                assert(g.has_seat(g.obj(gone.object).owner));
            }
        }
        assert forall|id: ObjectId|
            #![trigger h.obj(id)]
            h.in_zone(id, Zone::Stack) && (id != gone.object || !(gone.kind is Spell)) implies exists|
            k: int,
        |
            h.spell_entry(id, k) by {
            reveal(GameModel::stack_is_full_but);
            assert(g.in_zone(id, Zone::Stack) && g.obj(id) == h.obj(id));
            let k = choose|k: int| g.spell_entry(id, k);
            if k < i {
                assert(h.stack[k] == g.stack[k]);
                assert(h.spell_entry(id, k));
            } else {
                assert(k != i);
                assert(h.stack[k - 1] == g.stack[k]);
                assert(h.spell_entry(id, k - 1));
            }
        }
        assert(h.stack_is_full_but(gone.object)) by {
            reveal(GameModel::stack_is_full_but);
        }
        if !(gone.kind is Spell) {
            assert(h.stack_is_full_but(nobody())) by {
                reveal(GameModel::stack_is_full_but);
            }
        }
    }
}

/// A card goes to the stack, with an entry for it.
pub proof fn lemma_put_on_stack(
    g: GameModel,
    seat: Seat,
    object: ObjectId,
    modes: Seq<u8>,
    targets: Seq<crate::action::Target>,
    x: u32,
)
    ensures
        g.leads_to(g.put_on_stack(seat, object, modes, targets, x)),
        g.put_on_stack(seat, object, modes, targets, x).outcome == g.outcome,
        g.sound() && g.may_cast(seat, object) ==> g.put_on_stack(
            seat,
            object,
            modes,
            targets,
            x,
        ).sound(),
{
    reveal(GameModel::keeps);
    let owner_there = g.has_seat(seat);
    let g1 = g.with_obj(object, ObjectModel { controller: seat, ..g.obj(object) });
    let g2 = g1.move_object(object, Zone::Stack);
    let entry = StackModel {
        object,
        controller: seat,
        targets,
        kind: KindModel::Spell,
        modes,
        x,
    };
    let g3 = GameModel { stack: g2.stack.push(entry), ..g2 };
    lemma_leads_quietly(g, g1);
    lemma_move_leads(g1, object, Zone::Stack);
    lemma_leads_on(g, g1, g2);
    lemma_leads_quietly(g2, g3);
    lemma_leads_on(g, g2, g3);
    if g.sound() && g.may_cast(seat, object) {
        assert(owner_there) by {
            reveal(GameModel::objects_are_real);
            assert(g.has_seat(g.obj(object).owner));
        }
        lemma_control(g, object, seat, nobody());
        lemma_moved(g1, object, Zone::Stack);
        lemma_move_places(g1, object, Zone::Stack);
        assert(g2.table_agrees()) by {
            reveal(GameModel::table_agrees);
        }
        assert forall|id: ObjectId| #![trigger g2.obj(id)] g2.has_obj(id) && id != object implies g2.obj(
        id) == g1.obj(id) by {}
        assert(g2.stack == g1.stack);
        assert(g2.spells_are_there()) by {
            reveal(GameModel::spells_are_there);
            assert forall|k: int|
                #![trigger g2.stack[k]]
                0 <= k < g2.stack.len() && g2.stack[k].kind is Spell implies g2.in_zone(
                g2.stack[k].object,
                Zone::Stack,
            ) && g2.obj(g2.stack[k].object).owner == g2.stack[k].controller by {
                assert(g1.in_zone(g1.stack[k].object, Zone::Stack));
                assert(g2.obj(g2.stack[k].object) == g1.obj(g1.stack[k].object));
            }
        }
        assert(g2.stack_is_full_but(object)) by {
            reveal(GameModel::stack_is_full_but);
            assert forall|id: ObjectId|
                #![trigger g2.obj(id)]
                g2.in_zone(id, Zone::Stack) && id != object implies exists|k: int|
                g2.spell_entry(id, k) by {
                assert(g1.in_zone(id, Zone::Stack) && g1.obj(id) == g2.obj(id));
                let k = choose|k: int| g1.spell_entry(id, k);
                assert(g2.spell_entry(id, k));
            }
        }
        lemma_stack_changes(g2, g3, object);
        assert(g3.obj(object).zone is Stack && g3.obj(object).owner == seat);
        assert(g3.spells_are_there()) by {
            reveal(GameModel::spells_are_there);
            assert forall|k: int|
                #![trigger g3.stack[k]]
                0 <= k < g3.stack.len() && g3.stack[k].kind is Spell implies g3.in_zone(
                g3.stack[k].object,
                Zone::Stack,
            ) && g3.obj(g3.stack[k].object).owner == g3.stack[k].controller by {
                if k < g2.stack.len() {
                    assert(g3.stack[k] == g2.stack[k]);
                    assert(g2.in_zone(g2.stack[k].object, Zone::Stack));
                } else {
                    assert(g3.stack[k] == entry);
                }
            }
        }
        assert(g3.stack_is_full_but(nobody())) by {
            reveal(GameModel::stack_is_full_but);
            assert forall|id: ObjectId|
                #![trigger g3.obj(id)]
                g3.in_zone(id, Zone::Stack) && id != nobody() implies exists|k: int|
                g3.spell_entry(id, k) by {
                if id == object {
                    assert(g3.spell_entry(id, g3.stack.len() - 1));
                } else {
                    assert(g2.in_zone(id, Zone::Stack) && g2.obj(id) == g3.obj(id));
                    let k = choose|k: int| g2.spell_entry(id, k);
                    assert(g3.spell_entry(id, k));
                }
            }
        }
    }
    let e: EventFacts = EventModel::Cast { seat, object, targets };
    let h = g3.emit(e).give_priority(seat);
    lemma_emit(g3, e);
    lemma_same_core(g3.emit(e), h);
    lemma_leads_on(g, g3, g3.emit(e));
    lemma_leads_on(g, g3.emit(e), h);
}

/// An object from elsewhere enters the battlefield under a player at the table.
pub proof fn lemma_enter_under(g: GameModel, id: ObjectId, seat: Seat, but: ObjectId)
    requires
        but == nobody() || but == id,
    ensures
        g.leads_to(g.enter_under(id, seat)),
        g.enter_under(id, seat).outcome == g.outcome,
        g.sound_but(but) && g.has_seat(seat) && !g.in_zone(id, Zone::Battlefield)
            ==> g.enter_under(id, seat).sound(),
        g.sound() && !g.in_zone(id, Zone::Battlefield) ==> g.enter_under(id, seat).sound(),
{
    if g.has_seat(seat) {
        let g1 = g.with_obj(id, ObjectModel { controller: seat, ..g.obj(id) });
        let g2 = g1.move_object(id, Zone::Battlefield);
        let h = g.enter_under(id, seat);
        lemma_leads_quietly(g, g1);
        lemma_move_leads(g1, id, Zone::Battlefield);
        lemma_leads_on(g, g1, g2);
        reveal(GameModel::keeps);
        lemma_with_obj(g2, id, ObjectModel { summoning_sick: true, ..g2.obj(id) });
        lemma_leads_on(g, g2, h);
        if !g.in_zone(id, Zone::Battlefield) {
            if g.sound_but(but) {
                lemma_control(g, id, seat, but);
                lemma_move_sound(g1, id, Zone::Battlefield, but);
            }
            if g.sound() {
                lemma_control(g, id, seat, nobody());
                lemma_move_sound(g1, id, Zone::Battlefield, nobody());
            }
        }
    } else {
        lemma_leads_self(g);
    }
}

/// A spell is countered.
pub proof fn lemma_counter_spell(g: GameModel, id: ObjectId)
    ensures
        g.keeps(g.counter_spell(id)),
{
    broadcast use group_keeps;

    match spell_at(g.stack, id, 0) {
        Some(i) => {
            lemma_spell_at(g.stack, id, 0);
            let g1 = GameModel { stack: g.stack.remove(i as int), ..g };
            let g2 = g1.move_object(id, Zone::Graveyard);
            lemma_remove_entry(g, i as int);
            lemma_move_leads(g1, id, Zone::Graveyard);
            lemma_leads_on(g, g1, g2);
            if g.sound() {
                lemma_move_sound(g1, id, Zone::Graveyard, id);
            }
            assert(g.keeps(g2)) by {
                reveal(GameModel::keeps);
            }
            lemma_emit(g2, EventModel::Countered { object: id });
        },
        None => {},
    }
}

proof fn lemma_spell_at(stack: Seq<StackModel>, id: ObjectId, i: nat)
    ensures
        spell_at(stack, id, i) matches Some(k) ==> i <= k < stack.len() && stack[k as int].object
            == id && stack[k as int].kind is Spell,
    decreases stack.len() - i,
{
    if i < stack.len() {
        lemma_spell_at(stack, id, i + 1);
    }
}

// ----- new objects -----

pub proof fn lemma_create_token(g: GameModel, seat: Seat, spec: &TokenSpec)
    ensures
        g.keeps(g.create_token(seat, *spec)),
{
    broadcast use group_keeps;

    if g.room_for_token() && g.has_seat(seat) {
        let card = (g.cards.len() + g.tokens.len()) as u32;
        let id = ObjectId((g.objects.len() + 1) as u32);
        let o = ObjectModel {
            zone: Zone::Battlefield,
            summoning_sick: true,
            ..ObjectModel::fresh(id, card, seat)
        };
        let g1 = GameModel {
            tokens: g.tokens.push(token_model(*spec)),
            objects: g.objects.push(o),
            ..g
        };
        let list = g1.battlefield(seat).push(id);
        let h = g1.with_list(seat, Zone::Battlefield, list);
        g1.lemma_with_list(seat, Zone::Battlefield, list);
        assert(g.keeps(h)) by {
            reveal(GameModel::keeps);
            assert forall|i: int| 0 <= i < g.players.len() implies (#[trigger] h.players[i]).name
                == g.players[i].name && h.players[i].life == g.players[i].life
                && h.players[i].eliminated == g.players[i].eliminated by {}
            lemma_leads_quietly(g, h);
            if g.sound() {
                lemma_new_object(g, h, o, id);
            }
        }
        let e1: EventFacts = EventModel::TokenCreated { seat, object: id };
        let e2: EventFacts = EventModel::ZoneChange {
            object: id,
            from: Zone::OutOfGame,
            to: Zone::Battlefield,
        };
        lemma_emit(h, e1);
        lemma_emit(h.emit(e1), e2);
    }
}

proof fn lemma_new_object(g: GameModel, h: GameModel, o: ObjectModel, id: ObjectId)
    requires
        g.sound(),
        g.objects.len() < u32::MAX,
        id == ObjectId((g.objects.len() + 1) as u32),
        o.zone is Battlefield,
        g.has_seat(o.owner),
        g.has_seat(o.controller),
        h.objects == g.objects.push(o),
        h.has_card(o.card),
        h.cards == g.cards,
        h.tokens.len() >= g.tokens.len(),
        h.stack == g.stack,
        h.turn_order == g.turn_order,
        h.seating == g.seating,
        h.active_player == g.active_player,
        h.players.len() == g.players.len(),
        forall|s: Seat|
            #![trigger h.player(s)]
            g.has_seat(s) ==> h.player(s).eliminated == g.player(s).eliminated,
        forall|s: Seat, z: Zone| #[trigger]
            h.list(s, z) == (if s == o.controller && z is Battlefield {
                g.list(s, z).push(id)
            } else {
                g.list(s, z)
            }),
    ensures
        h.sound(),
{
    assert(h.obj(id) == o);
    assert forall|x: ObjectId| #![trigger h.obj(x)] g.has_obj(x) implies h.obj(x) == g.obj(x) by {}
    assert forall|x: ObjectId| #![trigger h.obj(x)] h.has_obj(x) && x != id implies g.has_obj(
        x,
    ) by {}
    assert(!g.has_obj(id));
    assert(h.lists_are_true()) by {
        reveal(GameModel::lists_are_true);
        assert forall|s: Seat, z: Zone, k: int|
            #![trigger h.list(s, z)[k]]
            0 <= k < h.list(s, z).len() implies h.in_zone(h.list(s, z)[k], z) && h.obj(
            h.list(s, z)[k],
        ).home() == s by {
            if k < g.list(s, z).len() {
                assert(g.in_zone(g.list(s, z)[k], z));
                assert(h.obj(h.list(s, z)[k]) == g.obj(g.list(s, z)[k]));
            } else {
                assert(h.list(s, z)[k] == id);
            }
        }
    }
    assert(h.lists_are_sets()) by {
        reveal(GameModel::lists_are_sets);
        assert forall|s: Seat, z: Zone| (#[trigger] h.list(s, z)).no_duplicates() by {
            let was = g.list(s, z);
            assert(was.no_duplicates());
            assert forall|i: int| 0 <= i < was.len() implies was[i] != id by {
                reveal(GameModel::lists_are_true);
                assert(g.in_zone(g.list(s, z)[i], z));
            }
            assert(was.push(id).no_duplicates());
        }
    }
    assert(h.lists_are_full()) by {
        reveal(GameModel::lists_are_full);
        assert forall|x: ObjectId|
            #![trigger h.obj(x)]
            h.has_obj(x) && listed(h.obj(x).zone) implies h.list(
            h.obj(x).home(),
            h.obj(x).zone,
        ).contains(x) by {
            let l = h.list(h.obj(x).home(), h.obj(x).zone);
            if x == id {
                assert(l[l.len() - 1] == id);
            } else {
                let was = g.list(g.obj(x).home(), g.obj(x).zone);
                assert(was.contains(x));
                let k = choose|k: int| 0 <= k < was.len() && was[k] == x;
                assert(l[k] == x);
            }
        }
    }
    assert(h.objects_are_real()) by {
        reveal(GameModel::objects_are_real);
        assert forall|x: ObjectId| #![trigger h.obj(x)] h.has_obj(x) implies h.has_seat(
            h.obj(x).owner,
        ) && h.has_seat(h.obj(x).controller) && h.has_card(h.obj(x).card) by {
            if x != id {
                assert(g.has_card(g.obj(x).card));
            }
        }
    }
    assert(h.spells_are_there()) by {
        reveal(GameModel::spells_are_there);
        assert forall|k: int|
            #![trigger h.stack[k]]
            0 <= k < h.stack.len() && h.stack[k].kind is Spell implies h.in_zone(
            h.stack[k].object,
            Zone::Stack,
        ) && h.obj(h.stack[k].object).owner == h.stack[k].controller by {
            assert(g.in_zone(g.stack[k].object, Zone::Stack));
            assert(h.obj(h.stack[k].object) == g.obj(g.stack[k].object));
        }
    }
    assert(h.stack_is_full_but(nobody())) by {
        reveal(GameModel::stack_is_full_but);
        assert forall|x: ObjectId|
            #![trigger h.obj(x)]
            h.in_zone(x, Zone::Stack) && x != nobody() implies exists|k: int| h.spell_entry(
            x,
            k,
        ) by {
            assert(x != id);
            assert(g.in_zone(x, Zone::Stack) && g.obj(x) == h.obj(x));
            let k = choose|k: int| g.spell_entry(x, k);
            assert(h.spell_entry(x, k));
        }
    }
    assert(h.table_agrees()) by {
        reveal(GameModel::table_agrees);
        assert forall|s: Seat|
            #![trigger h.player(s)]
            h.has_seat(s) && h.player(s).eliminated is None implies h.turn_order.contains(s) by {
            assert(g.player(s).eliminated is None);
        }
    }
}

// ----- hands and libraries -----

/// A list in another order is the same list to soundness.
proof fn lemma_reordered(a: Seq<ObjectId>, b: Seq<ObjectId>)
    requires
        a.to_multiset() == b.to_multiset(),
    ensures
        forall|id: ObjectId| #[trigger] b.contains(id) <==> a.contains(id),
        a.no_duplicates() ==> b.no_duplicates(),
{
    broadcast use vstd::seq_lib::group_to_multiset_ensures;

    assert forall|id: ObjectId| #[trigger] b.contains(id) <==> a.contains(id) by {
        assert(b.contains(id) <==> b.to_multiset().count(id) > 0);
        assert(a.contains(id) <==> a.to_multiset().count(id) > 0);
    }
    if a.no_duplicates() {
        a.lemma_multiset_has_no_duplicates();
        assert(b.to_multiset().len() == b.len());
        b.lemma_multiset_has_no_duplicates_conv();
    }
}

impl GameModel {
    /// The shuffle of a player's library, with the dice as they lie, puts it
    /// in another order and does nothing else to it.
    pub open spec fn shuffles_fairly(self, seat: Seat) -> bool {
        let lib = self.list(seat, Zone::Library);
        self.has_seat(seat) ==> self.dice.shuffled(lib).to_multiset() == lib.to_multiset()
    }
}

pub proof fn lemma_shuffle_leads(g: GameModel, seat: Seat)
    ensures
        g.leads_to(g.shuffle_library(seat)),
{
    if g.has_seat(seat) {
        let lib = g.list(seat, Zone::Library);
        let g1 = GameModel { dice: g.dice.after_shuffle(lib), ..g };
        let h = g1.with_list(seat, Zone::Library, g.dice.shuffled(lib));
        lemma_leads_quietly(g, h);
        reveal(GameModel::keeps);
        lemma_emit(h, EventModel::Shuffled { seat });
        lemma_leads_on(g, h, g.shuffle_library(seat));
    } else {
        lemma_leads_self(g);
    }
}

pub proof fn lemma_shuffle(g: GameModel, seat: Seat)
    requires
        g.shuffles_fairly(seat),
    ensures
        g.keeps(g.shuffle_library(seat)),
{
    reveal(GameModel::keeps);
    lemma_shuffle_leads(g, seat);
    if g.sound() && g.has_seat(seat) {
        let lib = g.list(seat, Zone::Library);
        let now = g.dice.shuffled(lib);
        let g1 = GameModel { dice: g.dice.after_shuffle(lib), ..g };
        let h = g1.with_list(seat, Zone::Library, now);
        g1.lemma_with_list(seat, Zone::Library, now);
        assert(forall|s: Seat, z: Zone| #[trigger] g1.list(s, z) == g.list(s, z));
        lemma_reordered(lib, now);
        assert(g.same_members(h)) by {
            reveal(GameModel::lists_are_sets);
            reveal(GameModel::objects_are_real);
            assert forall|s: Seat, z: Zone| (#[trigger] h.list(s, z)).no_duplicates() by {
                assert(g.list(s, z).no_duplicates());
            }
            assert forall|s: Seat| #![trigger h.player(s)] g.has_seat(s) implies h.player(
                s,
            ).eliminated == g.player(s).eliminated by {
                assert(h.player(s).eliminated == g1.player(s).eliminated);
            }
            assert forall|x: ObjectId|
                #![trigger h.obj(x)]
                g.has_obj(x) implies h.obj(x).zone == g.obj(x).zone && h.obj(x).owner == g.obj(
                x,
            ).owner && h.obj(x).card == g.obj(x).card && h.has_seat(h.obj(x).controller) && (g.obj(
                x,
            ).zone is Battlefield ==> h.obj(x).controller == g.obj(x).controller) by {
                assert(g.has_seat(g.obj(x).controller));
            }
        }
        lemma_sound_members(g, h, nobody());
        lemma_emit(h, EventModel::Shuffled { seat });
    }
}

/// A card goes from the hand to the bottom of the library.
pub proof fn lemma_bottom_one(g: GameModel, seat: Seat, id: ObjectId)
    ensures
        g.leads_to(g.bottom_one(seat, id)),
        g.bottom_one(seat, id).outcome == g.outcome,
        g.sound() && g.hand(seat).contains(id) ==> g.bottom_one(seat, id).sound(),
{
    let h = g.bottom_one(seat, id);
    lemma_leads_quietly(g, h);
    if g.hand(seat).contains(id) {
        if g.sound() {
            let hand = g.list(seat, Zone::Hand);
            let lib = g.list(seat, Zone::Library);
            let k = choose|k: int| 0 <= k < hand.len() && hand[k] == id;
            assert(g.in_zone(id, Zone::Hand) && g.obj(id).home() == seat) by {
                reveal(GameModel::lists_are_true);
                assert(g.in_zone(g.list(seat, Zone::Hand)[k], Zone::Hand));
            }
            let m = g.move_object(id, Zone::Library);
            lemma_move_sound(g, id, Zone::Library, nobody());
            lemma_moved(g, id, Zone::Library);
            let down = seq![id] + lib;
            assert(!lib.contains(id)) by {
                if lib.contains(id) {
                    let j = choose|j: int| 0 <= j < lib.len() && lib[j] == id;
                    reveal(GameModel::lists_are_true);
                    assert(g.in_zone(g.list(seat, Zone::Library)[j], Zone::Library));
                }
            }
            assert(lib.no_duplicates()) by {
                reveal(GameModel::lists_are_sets);
            }
            assert(down.no_duplicates()) by {
                assert forall|i: int, j: int|
                    0 <= i < down.len() && 0 <= j < down.len() && i != j implies down[i]
                    != down[j] by {
                    if i == 0 {
                        assert(lib.contains(lib[j - 1]));
                    } else if j == 0 {
                        assert(lib.contains(lib[i - 1]));
                    }
                }
            }
            assert forall|x: ObjectId| #[trigger] down.contains(x) <==> lib.push(id).contains(
                x,
            ) by {
                if down.contains(x) {
                    let j = choose|j: int| 0 <= j < down.len() && down[j] == x;
                    if j == 0 {
                        assert(lib.push(id)[lib.len() as int] == x);
                    } else {
                        assert(lib.push(id)[j - 1] == x);
                    }
                }
                if lib.push(id).contains(x) {
                    let j = choose|j: int| 0 <= j < lib.push(id).len() && lib.push(id)[j] == x;
                    if j == lib.len() {
                        assert(down[0] == x);
                    } else {
                        assert(down[j + 1] == x);
                    }
                }
            }
            assert forall|s: Seat, z: Zone| #[trigger] h.list(s, z) == (if s == seat
                && z is Library {
                down
            } else {
                m.list(s, z)
            }) by {}
            assert(m.same_members(h)) by {
                reveal(GameModel::lists_are_sets);
                reveal(GameModel::objects_are_real);
                assert forall|s: Seat, z: Zone| (#[trigger] h.list(s, z)).no_duplicates() by {
                    assert(m.list(s, z).no_duplicates());
                }
                assert forall|s: Seat| #![trigger h.player(s)] m.has_seat(s) implies h.player(
                    s,
                ).eliminated == m.player(s).eliminated by {
                    assert(m.player(s).eliminated == g.player(s).eliminated);
                }
                assert forall|x: ObjectId|
                    #![trigger h.obj(x)]
                    m.has_obj(x) implies h.obj(x).zone == m.obj(x).zone && h.obj(x).owner == m.obj(
                    x,
                ).owner && h.obj(x).card == m.obj(x).card && h.has_seat(h.obj(x).controller) && (
                m.obj(x).zone is Battlefield ==> h.obj(x).controller == m.obj(x).controller) by {
                    assert(m.has_seat(m.obj(x).controller));
                }
            }
            lemma_sound_members(m, h, nobody());
        }
    } else {
        lemma_leads_self(g);
    }
}

impl GameModel {
    /// The hand is in the library again, before anything is shuffled.
    pub open spec fn hand_back(self, seat: Seat) -> GameModel {
        let p = self.player(seat);
        self.into_library(p.hand, p.hand.len()).with_player(
            seat,
            PlayerModel {
                library: p.library + p.hand,
                hand: Seq::empty(),
                mulligans: sat_u8(p.mulligans + 1),
                ..p
            },
        )
    }

    proof fn lemma_into_library(self, ids: Seq<ObjectId>, n: nat)
        requires
            n <= ids.len(),
        ensures
            ({
                let h = self.into_library(ids, n);
                &&& h == (GameModel { objects: h.objects, ..self })
                &&& h.objects.len() == self.objects.len()
                &&& forall|id: ObjectId|
                    #![trigger h.obj(id)]
                    self.has_obj(id) ==> h.obj(id) == (if ids.subrange(0, n as int).contains(id) {
                        ObjectModel { zone: Zone::Library, ..self.obj(id) }
                    } else {
                        self.obj(id)
                    })
            }),
        decreases n,
    {
        if n > 0 {
            let m = (n - 1) as nat;
            self.lemma_into_library(ids, m);
            let a = self.into_library(ids, m);
            let h = self.into_library(ids, n);
            let x = ids[m as int];
            assert(ids.subrange(0, n as int) =~= ids.subrange(0, m as int).push(x));
            assert forall|id: ObjectId|
                #![trigger h.obj(id)]
                self.has_obj(id) implies h.obj(id) == (if ids.subrange(0, n as int).contains(id) {
                ObjectModel { zone: Zone::Library, ..self.obj(id) }
            } else {
                self.obj(id)
            }) by {
                let now = ids.subrange(0, n as int);
                let before = ids.subrange(0, m as int);
                if id == x {
                    assert(now[m as int] == id);
                    assert(a.obj(id).owner == self.obj(id).owner);
                } else {
                    assert(h.obj(id) == a.obj(id));
                    if before.contains(id) {
                        let j = choose|j: int| 0 <= j < before.len() && before[j] == id;
                        assert(now[j] == id);
                    }
                    if now.contains(id) {
                        let j = choose|j: int| 0 <= j < now.len() && now[j] == id;
                        assert(before[j] == id);
                    }
                }
            }
        }
    }
}

pub proof fn lemma_hand_back(g: GameModel, seat: Seat)
    requires
        g.has_seat(seat),
    ensures
        g.keeps(g.hand_back(seat)),
{
    reveal(GameModel::keeps);
    let h = g.hand_back(seat);
    let hand = g.list(seat, Zone::Hand);
    let lib = g.list(seat, Zone::Library);
    let p = g.player(seat);
    assert(p.hand == hand && p.library == lib);
    g.lemma_into_library(hand, hand.len());
    assert(hand.subrange(0, hand.len() as int) =~= hand);
    let a = g.into_library(hand, hand.len());
    assert forall|i: int| 0 <= i < g.objects.len() implies (#[trigger] h.objects[i]).card
        == g.objects[i].card && h.objects[i].owner == g.objects[i].owner && (
    h.objects[i].zone is OutOfGame ==> g.objects[i].zone is OutOfGame) by {
        if i < u32::MAX {
            let id = ObjectId((i + 1) as u32);
            assert(a.obj(id) == h.objects[i]);
        } else {
            lemma_into_beyond(g, hand, hand.len(), i);
        }
    }
    lemma_leads_quietly(g, h);
    if g.sound() {
        let both = lib + hand;
        assert forall|x: ObjectId| #[trigger] hand.contains(x) implies g.in_zone(x, Zone::Hand)
            && g.obj(x).owner == seat by {
            let k = choose|k: int| 0 <= k < hand.len() && hand[k] == x;
            reveal(GameModel::lists_are_true);
            assert(g.in_zone(g.list(seat, Zone::Hand)[k], Zone::Hand));
        }
        assert forall|x: ObjectId| #![trigger h.obj(x)] g.has_obj(x) implies h.obj(x) == (
        if hand.contains(x) {
            ObjectModel { zone: Zone::Library, ..g.obj(x) }
        } else {
            g.obj(x)
        }) by {
            assert(h.obj(x) == a.obj(x));
        }
        assert forall|x: ObjectId| g.in_zone(x, Zone::Hand) && g.obj(x).owner
            == seat implies #[trigger] hand.contains(x) by {
            reveal(GameModel::lists_are_full);
            assert(g.list(g.obj(x).home(), g.obj(x).zone).contains(x));
        }
        assert forall|s: Seat, z: Zone| #[trigger] h.list(s, z) == (if s == seat && z is Library {
            both
        } else if s == seat && z is Hand {
            Seq::empty()
        } else {
            g.list(s, z)
        }) by {}
        assert(h.lists_are_true()) by {
            reveal(GameModel::lists_are_true);
            assert forall|s: Seat, z: Zone, k: int|
                #![trigger h.list(s, z)[k]]
                0 <= k < h.list(s, z).len() implies h.in_zone(h.list(s, z)[k], z) && h.obj(
                h.list(s, z)[k],
            ).home() == s by {
                let x = h.list(s, z)[k];
                if s == seat && z is Library && k >= lib.len() {
                    assert(x == hand[k - lib.len()]);
                    assert(hand.contains(x));
                } else {
                    assert(x == g.list(s, z)[k]);
                    assert(g.in_zone(g.list(s, z)[k], z));
                    assert(!hand.contains(x)) by {
                        if hand.contains(x) {
                            assert(g.in_zone(x, Zone::Hand));
                        }
                    }
                    assert(h.obj(x) == g.obj(x));
                }
            }
        }
        assert(h.lists_are_sets()) by {
            assert(lib.no_duplicates() && hand.no_duplicates()) by {
                reveal(GameModel::lists_are_sets);
            }
            assert forall|i: int, j: int|
                0 <= i < both.len() && 0 <= j < both.len() && i != j implies both[i] != both[j] by {
                if i < lib.len() && j >= lib.len() {
                    assert(hand.contains(hand[j - lib.len()]));
                    reveal(GameModel::lists_are_true);
                    assert(g.in_zone(g.list(seat, Zone::Library)[i], Zone::Library));
                } else if j < lib.len() && i >= lib.len() {
                    assert(hand.contains(hand[i - lib.len()]));
                    reveal(GameModel::lists_are_true);
                    assert(g.in_zone(g.list(seat, Zone::Library)[j], Zone::Library));
                }
            }
            assert(both.no_duplicates());
            assert forall|s: Seat, z: Zone| (#[trigger] h.list(s, z)).no_duplicates() by {
                assert(g.list(s, z).no_duplicates()) by {
                    reveal(GameModel::lists_are_sets);
                }
            }
            reveal(GameModel::lists_are_sets);
        }
        assert(h.lists_are_full()) by {
            assert forall|x: ObjectId|
                #![trigger h.obj(x)]
                h.has_obj(x) && listed(h.obj(x).zone) implies h.list(
                h.obj(x).home(),
                h.obj(x).zone,
            ).contains(x) by {
                if hand.contains(x) {
                    let k = choose|k: int| 0 <= k < hand.len() && hand[k] == x;
                    assert(both[lib.len() + k] == x);
                } else {
                    assert(h.obj(x) == g.obj(x));
                    let was = g.list(g.obj(x).home(), g.obj(x).zone);
                    assert(was.contains(x)) by {
                        reveal(GameModel::lists_are_full);
                    }
                    let k = choose|k: int| 0 <= k < was.len() && was[k] == x;
                    assert(h.list(g.obj(x).home(), g.obj(x).zone)[k] == x);
                }
            }
            reveal(GameModel::lists_are_full);
        }
        assert(h.objects_are_real()) by {
            reveal(GameModel::objects_are_real);
            assert forall|x: ObjectId| #![trigger h.obj(x)] h.has_obj(x) implies h.has_seat(
                h.obj(x).owner,
            ) && h.has_seat(h.obj(x).controller) && h.has_card(h.obj(x).card) by {
                assert(g.has_card(g.obj(x).card));
            }
        }
        assert(h.spells_are_there()) by {
            reveal(GameModel::spells_are_there);
            assert forall|k: int|
                #![trigger h.stack[k]]
                0 <= k < h.stack.len() && h.stack[k].kind is Spell implies h.in_zone(
                h.stack[k].object,
                Zone::Stack,
            ) && h.obj(h.stack[k].object).owner == h.stack[k].controller by {
                let x = g.stack[k].object;
                assert(g.in_zone(x, Zone::Stack));
                assert(!hand.contains(x)) by {
                    if hand.contains(x) {
                        assert(g.in_zone(x, Zone::Hand));
                    }
                }
                assert(h.obj(x) == g.obj(x));
            }
        }
        assert(h.stack_is_full_but(nobody())) by {
            reveal(GameModel::stack_is_full_but);
            assert forall|x: ObjectId|
                #![trigger h.obj(x)]
                h.in_zone(x, Zone::Stack) && x != nobody() implies exists|k: int| h.spell_entry(
                x,
                k,
            ) by {
                assert(g.in_zone(x, Zone::Stack) && g.obj(x) == h.obj(x));
                let k = choose|k: int| g.spell_entry(x, k);
                assert(h.spell_entry(x, k));
            }
        }
        assert(h.table_agrees()) by {
            reveal(GameModel::table_agrees);
            assert forall|s: Seat| #![trigger h.player(s)] h.has_seat(s) && h.player(
                s,
            ).eliminated is None implies h.turn_order.contains(s) by {
                assert(g.player(s).eliminated is None);
            }
            assert forall|s: Seat| #![trigger h.turn_order.contains(s)]
                h.turn_order.contains(s) implies h.has_seat(s) && h.player(s).eliminated is None
                && h.seating.contains(s) by {
                assert(g.turn_order.contains(s));
                assert(g.player(s).eliminated == h.player(s).eliminated);
            }
        }
    }
}

/// Objects past the last id are never named.
proof fn lemma_into_beyond(g: GameModel, ids: Seq<ObjectId>, n: nat, i: int)
    requires
        n <= ids.len(),
        u32::MAX <= i < g.objects.len(),
    ensures
        g.into_library(ids, n).objects.len() == g.objects.len(),
        g.into_library(ids, n).objects[i] == g.objects[i],
    decreases n,
{
    if n > 0 {
        lemma_into_beyond(g, ids, (n - 1) as nat, i);
    }
}

} // verus!
