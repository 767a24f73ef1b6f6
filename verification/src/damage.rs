//! The smallest things effects and combat are made of: damage, life,
//! destruction, discarding, and tokens.
use crate::action::DamageTarget;
use crate::card::{token_model, CardDef};
use crate::event::{EventBase, EventModel};
use crate::ir::TokenSpec;
use crate::seqs::{copied, group_views, in_list};
use crate::state::{Game, GameModel, GameObject, ObjectModel, PlayerModel};
use crate::types::{add_i32, sat_i32, sub_i32, Keyword, ObjectId, Seat, Zone};
use vstd::prelude::*;

verus! {

broadcast use group_views;

impl GameModel {
    pub open spec fn with_life(self, seat: Seat, life: i32) -> GameModel {
        self.with_player(seat, PlayerModel { life, ..self.player(seat) })
    }

    /// A life total becomes `to`, and everyone hears of it.
    pub open spec fn change_life(self, seat: Seat, to: i32) -> GameModel {
        self.with_life(seat, to).emit(
            EventModel::LifeChanged { seat, from: self.life(seat), to },
        )
    }

    pub open spec fn gain_life(self, seat: Seat, n: i32) -> GameModel {
        if n <= 0 || !self.in_game(seat) {
            self
        } else {
            self.change_life(seat, sat_i32(self.life(seat) + n))
        }
    }

    /// Whether damage to this recipient does anything.
    pub open spec fn can_damage(self, to: DamageTarget) -> bool {
        match to {
            DamageTarget::Player(s) => self.in_game(s),
            DamageTarget::Object(o) => self.in_zone(o, Zone::Battlefield) && self.creature(o),
        }
    }

    /// Damage marked on a creature or taken off a life total.
    pub open spec fn mark_damage(
        self,
        source: ObjectId,
        to: DamageTarget,
        amount: i32,
        combat: bool,
    ) -> GameModel {
        match to {
            DamageTarget::Player(s) => {
                let from = self.life(s);
                let now = sat_i32(from - amount);
                self.with_life(s, now).emit(
                    EventModel::Damage { source, to, amount, combat },
                ).emit(EventModel::LifeChanged { seat: s, from, to: now })
            },
            DamageTarget::Object(o) => {
                let touched = self.has_keyword(source, Keyword::Deathtouch);
                let obj = self.obj(o);
                self.with_obj(
                    o,
                    ObjectModel {
                        damage: sat_i32(obj.damage + amount),
                        deathtouch_damaged: obj.deathtouch_damaged || touched,
                        ..obj
                    },
                ).emit(EventModel::Damage { source, to, amount, combat })
            },
        }
    }

    /// Damage from a source: marks it on creatures (deathtouch remembered),
    /// subtracts life from players, and handles lifelink.
    pub open spec fn deal_damage(
        self,
        source: ObjectId,
        to: DamageTarget,
        amount: i32,
        combat: bool,
    ) -> GameModel {
        if amount <= 0 || !self.can_damage(to) {
            self
        } else {
            let g = self.mark_damage(source, to, amount, combat);
            if g.has_keyword(source, Keyword::Lifelink) {
                g.gain_life(g.obj(source).controller, amount)
            } else {
                g
            }
        }
    }

    /// Destroy a permanent: to the graveyard unless indestructible.
    pub open spec fn destroy(self, id: ObjectId) -> GameModel {
        if self.in_zone(id, Zone::Battlefield) && !self.has_keyword(id, Keyword::Indestructible) {
            self.move_object(id, Zone::Graveyard)
        } else {
            self
        }
    }

    /// Move those of the first `n` ids that are in the hand.
    pub open spec fn discard_n(self, seat: Seat, ids: Seq<ObjectId>, n: nat) -> GameModel
        decreases n,
    {
        if n == 0 || n > ids.len() {
            self
        } else {
            let g = self.discard_n(seat, ids, (n - 1) as nat);
            if g.hand(seat).contains(ids[n - 1]) {
                g.move_object(ids[n - 1], Zone::Graveyard)
            } else {
                g
            }
        }
    }

    pub open spec fn discard(self, seat: Seat, ids: Seq<ObjectId>) -> GameModel {
        self.discard_n(seat, ids, ids.len()).emit(EventModel::Discarded { seat, objects: ids })
    }

    /// There are ids left for another token.
    pub open spec fn room_for_token(self) -> bool {
        self.objects.len() < u32::MAX && self.cards.len() + self.tokens.len() < u32::MAX
    }

    /// A new object of a new definition on `seat`'s battlefield.
    pub open spec fn create_token(self, seat: Seat, spec: TokenSpec) -> GameModel {
        if !self.room_for_token() || !self.has_seat(seat) {
            self
        } else {
            let card = (self.cards.len() + self.tokens.len()) as u32;
            let id = ObjectId((self.objects.len() + 1) as u32);
            let o = ObjectModel {
                zone: Zone::Battlefield,
                summoning_sick: true,
                ..ObjectModel::fresh(id, card, seat)
            };
            let g = GameModel {
                tokens: self.tokens.push(token_model(spec)),
                objects: self.objects.push(o),
                ..self
            };
            g.with_list(seat, Zone::Battlefield, g.battlefield(seat).push(id)).emit(
                EventModel::TokenCreated { seat, object: id },
            ).emit(
                EventModel::ZoneChange { object: id, from: Zone::OutOfGame, to: Zone::Battlefield },
            )
        }
    }

    pub open spec fn create_tokens(self, seat: Seat, spec: TokenSpec, n: nat) -> GameModel
        decreases n,
    {
        if n == 0 {
            self
        } else {
            self.create_tokens(seat, spec, (n - 1) as nat).create_token(seat, spec)
        }
    }

    pub open spec fn sacrifice(self, seat: Seat, id: ObjectId) -> GameModel {
        self.emit(EventModel::Sacrificed { seat, object: id }).move_object(id, Zone::Graveyard)
    }
}

impl Game {
    pub(crate) fn change_life(&mut self, seat: Seat, to: i32)
        ensures
            final(self).model() == old(self).model().change_life(seat, to),
    {
        let from: i32 = self.life_of(seat);
        match self.player_mut(seat) {
            Some(p) => {
                p.life = to;
            },
            None => {},
        }
        self.emit(EventBase::LifeChanged { seat, from, to });
    }

    pub(crate) fn gain_life(&mut self, seat: Seat, n: i32)
        ensures
            final(self).model() == old(self).model().gain_life(seat, n),
    {
        if n <= 0 || !self.is_in_game(seat) {
            return ;
        }
        let from: i32 = self.life_of(seat);
        self.change_life(seat, add_i32(from, n));
    }

    /// Damage from a source: marks it on creatures (deathtouch remembered),
    /// subtracts life from players, and handles lifelink.
    pub(crate) fn deal_damage(
        &mut self,
        source: ObjectId,
        to: DamageTarget,
        amount: i32,
        combat: bool,
    )
        ensures
            final(self).model() == old(self).model().deal_damage(source, to, amount, combat),
    {
        if amount <= 0 {
            return ;
        }
        match to {
            DamageTarget::Player(s) => {
                if !self.is_in_game(s) {
                    return ;
                }
                let from: i32 = self.life_of(s);
                let now: i32 = sub_i32(from, amount);
                match self.player_mut(s) {
                    Some(p) => {
                        p.life = now;
                    },
                    None => {},
                }
                self.emit(EventBase::Damage { source, to, amount, combat });
                self.emit(EventBase::LifeChanged { seat: s, from, to: now });
            },
            DamageTarget::Object(o) => {
                if !self.is_in(o, Zone::Battlefield) || !self.is_creature(o) {
                    return ;
                }
                let deathtouch = self.has_keyword(source, Keyword::Deathtouch);
                match self.obj_mut(o) {
                    Some(obj) => {
                        obj.damage = add_i32(obj.damage, amount);
                        if deathtouch {
                            obj.deathtouch_damaged = true;
                        }
                    },
                    None => {},
                }
                self.emit(EventBase::Damage { source, to, amount, combat });
            },
        }
        assert(self.model() == old(self).model().mark_damage(source, to, amount, combat));
        if self.has_keyword(source, Keyword::Lifelink) {
            let controller = match self.find_obj(source) {
                Some(o) => o.controller,
                None => {
                    return ;
                },
            };
            self.gain_life(controller, amount);
        }
    }

    /// Destroy a permanent: to the graveyard unless indestructible.
    pub(crate) fn destroy(&mut self, id: ObjectId)
        ensures
            final(self).model() == old(self).model().destroy(id),
    {
        if self.is_in(id, Zone::Battlefield) && !self.has_keyword(id, Keyword::Indestructible) {
            self.move_object(id, Zone::Graveyard);
        }
    }

    pub(crate) fn in_hand(&self, seat: Seat, id: ObjectId) -> (b: bool)
        ensures
            b == self.model().hand(seat).contains(id),
    {
        match self.find_player(seat) {
            Some(p) => in_list(&p.hand, id),
            None => false,
        }
    }

    pub(crate) fn discard(&mut self, seat: Seat, objects: &Vec<ObjectId>)
        ensures
            final(self).model() == old(self).model().discard(seat, objects@),
    {
        let mut i: usize = 0;
        while i < objects.len()
            invariant
                i <= objects.len(),
                self.model() == old(self).model().discard_n(seat, objects@, i as nat),
            decreases objects.len() - i,
        {
            if self.in_hand(seat, objects[i]) {
                self.move_object(objects[i], Zone::Graveyard);
            }
            i = i + 1;
        }
        self.emit(EventBase::Discarded { seat, objects: copied(objects) });
    }

    /// Put a token on `seat`'s battlefield. When the ids have run out, nothing happens.
    pub(crate) fn create_token(&mut self, seat: Seat, spec: &TokenSpec)
        ensures
            final(self).model() == old(self).model().create_token(seat, *spec),
    {
        let cards: usize = self.cards.len();
        let tokens: usize = self.tokens.len();
        let objects: usize = self.objects.len();
        if objects >= 0xffff_ffff || cards >= 0xffff_ffff || tokens >= 0xffff_ffff - cards {
            return ;
        }
        if self.find_player(seat).is_none() {
            return ;
        }
        let card: u32 = (cards + tokens) as u32;
        let id = ObjectId((objects + 1) as u32);
        self.tokens.push(CardDef::token(spec));
        let mut o = GameObject::new(id, card, seat);
        o.zone = Zone::Battlefield;
        o.summoning_sick = true;
        self.objects.insert(o);
        match self.player_mut(seat) {
            Some(p) => {
                p.battlefield.push(id);
            },
            None => {},
        }
        self.emit(EventBase::TokenCreated { seat, object: id });
        self.emit(
            EventBase::ZoneChange { object: id, from: Zone::OutOfGame, to: Zone::Battlefield },
        );
    }

    pub(crate) fn create_tokens(&mut self, seat: Seat, spec: &TokenSpec, n: u32)
        ensures
            final(self).model() == old(self).model().create_tokens(seat, *spec, n as nat),
    {
        let mut i: u32 = 0;
        while i < n
            invariant
                i <= n,
                self.model() == old(self).model().create_tokens(seat, *spec, i as nat),
            decreases n - i,
        {
            self.create_token(seat, spec);
            i = i + 1;
        }
    }

    pub(crate) fn sacrifice(&mut self, seat: Seat, id: ObjectId)
        ensures
            final(self).model() == old(self).model().sacrifice(seat, id),
    {
        self.emit(EventBase::Sacrificed { seat, object: id });
        self.move_object(id, Zone::Graveyard);
    }
}

} // verus!
