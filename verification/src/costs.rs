//! Casting spells and activating abilities: paying what they cost and
//! putting them on the stack. A cast or an activation that cannot be paid
//! for changes nothing.
use crate::action::{ManaPayment, PaymentModel, Target, EQUIP_ABILITY};
use crate::error::{ErrorModel, RulesError};
use crate::event::{EventBase, EventModel};
use crate::ir::{Cost, Filter};
use crate::seqs::{copied, group_views};
use crate::state::{Ctx, CtxModel, Game, GameModel, KindModel, ObjectModel, StackKind, StackModel, StackObject};
use crate::types::{id_words, sat_i32, seat_words, sub_i32, ManaCost, ObjectId, Seat, Zone};
use crate::words::{cat2, cat3, cat4, int_text, signed};
use vstd::prelude::*;

verus! {

broadcast use group_views;

pub open spec fn illegal(reason: Seq<char>) -> ErrorModel {
    ErrorModel::IllegalAction { reason }
}

impl GameModel {
    pub open spec fn pay_checked(
        self,
        seat: Seat,
        payment: PaymentModel,
        cost: ManaCost,
    ) -> Result<GameModel, ErrorModel> {
        match self.covering(seat, payment, cost) {
            Ok(paying) => Ok(self.pay(seat, payment, cost, paying)),
            Err(e) => Err(e),
        }
    }

    #[verifier::opaque]
    pub open spec fn cast_spell(
        self,
        seat: Seat,
        object: ObjectId,
        targets: Seq<Target>,
        payment: PaymentModel,
    ) -> Result<GameModel, ErrorModel> {
        match self.pay_checked(
            seat,
            payment,
            self.cast_cost(seat, object).announced(payment.x),
        ) {
            Err(e) => Err(e),
            Ok(g) => if g.has_def(object) && g.def(object).two_step() {
                Ok(g.begin_two_step_cast(seat, object, payment.x))
            } else {
                Ok(g.put_on_stack(seat, object, Seq::empty(), targets, payment.x))
            },
        }
    }

    /// The object may be sacrificed by `seat` for a cost of `source`.
    pub open spec fn sacrificeable(
        self,
        id: ObjectId,
        seat: Seat,
        source: ObjectId,
        filter: Filter,
    ) -> bool {
        self.in_zone(id, Zone::Battlefield) && self.obj(id).controller == seat
            && self.object_matches(id, filter, CtxModel::simple(seat, Some(source)))
    }

    /// The first of the ids from `i` on that may be sacrificed.
    pub open spec fn first_sacrifice(
        self,
        ids: Seq<ObjectId>,
        seat: Seat,
        source: ObjectId,
        filter: Filter,
        i: nat,
    ) -> Option<ObjectId>
        decreases ids.len() - i,
    {
        if i >= ids.len() {
            None
        } else if self.sacrificeable(ids[i as int], seat, source, filter) {
            Some(ids[i as int])
        } else {
            self.first_sacrifice(ids, seat, source, filter, i + 1)
        }
    }

    /// Move up to `most` of the first `n` ids from the hand to the graveyard;
    /// the game then, and how many went.
    pub open spec fn discard_upto(
        self,
        seat: Seat,
        ids: Seq<ObjectId>,
        most: i32,
        n: nat,
    ) -> (GameModel, nat)
        decreases n,
    {
        if n == 0 || n > ids.len() {
            (self, 0)
        } else {
            let (g, done) = self.discard_upto(seat, ids, most, (n - 1) as nat);
            if g.hand(seat).contains(ids[n - 1]) && done < most {
                (g.move_object(ids[n - 1], Zone::Graveyard), done + 1)
            } else {
                (g, done)
            }
        }
    }

    /// Pay one cost of an activated ability of `object`.
    pub open spec fn pay_cost(
        self,
        seat: Seat,
        object: ObjectId,
        payment: PaymentModel,
        cost: Cost,
    ) -> Result<GameModel, ErrorModel> {
        match cost {
            Cost::Mana(m) => self.pay_checked(seat, payment, m.announced(payment.x)),
            Cost::Tap => if self.has_obj(object) && self.obj(object).tapped {
                Err(illegal(id_words(object) + " is already tapped"@))
            } else {
                Ok(
                    self.with_obj(object, ObjectModel { tapped: true, ..self.obj(object) }).emit(
                        EventModel::Tapped { object },
                    ),
                )
            },
            Cost::SacrificeThis => Ok(self.sacrifice(seat, object)),
            Cost::Sacrifice(filter) => match self.first_sacrifice(
                payment.sacrifice,
                seat,
                object,
                filter,
                0,
            ) {
                Some(id) => Ok(self.sacrifice(seat, id)),
                None => Err(
                    illegal("the payment names nothing that can be sacrificed for this cost"@),
                ),
            },
            Cost::PayLife(n) => if self.life(seat) < n {
                Err(illegal(seat_words(seat) + " can't pay "@ + signed(n as int) + " life"@))
            } else {
                Ok(self.change_life(seat, sat_i32(self.life(seat) - n)))
            },
            Cost::Discard(n) => {
                let (g, done) = self.discard_upto(seat, payment.discard, n, payment.discard.len());
                if done < n {
                    Err(
                        illegal(
                            "the payment must name "@ + signed(n as int)
                                + " card(s) in hand to discard"@,
                        ),
                    )
                } else {
                    Ok(g.emit(EventModel::Discarded { seat, objects: payment.discard }))
                }
            },
        }
    }

    /// Pay the first `n` costs, in order.
    pub open spec fn pay_costs(
        self,
        seat: Seat,
        object: ObjectId,
        payment: PaymentModel,
        costs: Seq<Cost>,
        n: nat,
    ) -> Result<GameModel, ErrorModel>
        decreases n,
    {
        if n == 0 || n > costs.len() {
            Ok(self)
        } else {
            match self.pay_costs(seat, object, payment, costs, (n - 1) as nat) {
                Err(e) => Err(e),
                Ok(g) => g.pay_cost(seat, object, payment, costs[n - 1]),
            }
        }
    }

    /// An ability on the stack; whoever activated it gets priority.
    pub open spec fn put_ability(
        self,
        seat: Seat,
        object: ObjectId,
        ability: u8,
        targets: Seq<Target>,
        x: u32,
    ) -> GameModel {
        let kind = if ability == EQUIP_ABILITY {
            KindModel::Equip { source: object }
        } else {
            KindModel::Ability { source: object, index: ability }
        };
        GameModel {
            stack: self.stack.push(
                StackModel {
                    object,
                    controller: seat,
                    targets,
                    kind,
                    modes: Seq::empty(),
                    x,
                },
            ),
            ..self
        }.emit(EventModel::Activated { seat, object, ability, targets }).give_priority(seat)
    }

    /// Pay an activated ability's costs and put it on the stack.
    #[verifier::opaque]
    pub open spec fn activate_ability(
        self,
        seat: Seat,
        object: ObjectId,
        ability: u8,
        targets: Seq<Target>,
        payment: PaymentModel,
    ) -> Result<GameModel, ErrorModel> {
        if ability == EQUIP_ABILITY {
            if self.has_def(object) && self.def(object).equip is Some {
                match self.pay_checked(
                    seat,
                    payment,
                    self.def(object).equip->0.announced(payment.x),
                ) {
                    Ok(g) => Ok(g.put_ability(seat, object, ability, targets, payment.x)),
                    Err(e) => Err(e),
                }
            } else {
                Err(illegal("not equipment"@))
            }
        } else if self.has_def(object) && ability < self.def(object).activated.len() {
            let costs = self.def(object).activated[ability as int].cost@;
            match self.pay_costs(seat, object, payment, costs, costs.len()) {
                Ok(g) => Ok(g.put_ability(seat, object, ability, targets, payment.x)),
                Err(e) => Err(e),
            }
        } else {
            Err(illegal("no such ability"@))
        }
    }

    proof fn lemma_costs_err(
        self,
        seat: Seat,
        object: ObjectId,
        payment: PaymentModel,
        costs: Seq<Cost>,
        k: nat,
        n: nat,
    )
        requires
            k <= n <= costs.len(),
            self.pay_costs(seat, object, payment, costs, k) is Err,
        ensures
            self.pay_costs(seat, object, payment, costs, n) == self.pay_costs(
                seat,
                object,
                payment,
                costs,
                k,
            ),
        decreases n,
    {
        if k < n {
            self.lemma_costs_err(seat, object, payment, costs, k, (n - 1) as nat);
        }
    }
}

impl Game {
    /// Target filters for casting a card: an aura's `enchant`, a spell's targets, else none.
    pub fn cast_target_specs(&self, id: ObjectId) -> (r: Vec<Filter>)
        ensures
            r@ == (if self.model().has_def(id) {
                self.model().def(id).spell_specs()
            } else {
                Seq::empty()
            }),
    {
        match self.find_def(id) {
            Some(def) => Game::spell_specs(def),
            None => Vec::new(),
        }
    }

    pub(crate) fn cast_spell(
        &mut self,
        seat: Seat,
        object: ObjectId,
        targets: &Vec<Target>,
        payment: &ManaPayment,
    ) -> (r: Result<(), RulesError>)
        ensures
            match r {
                Ok(_) => old(self).model().cast_spell(seat, object, targets@, payment@) == Ok::<
                    GameModel,
                    ErrorModel,
                >(final(self).model()),
                Err(e) => final(self).model() == old(self).model() && old(self).model().cast_spell(
                    seat,
                    object,
                    targets@,
                    payment@,
                ) == Err::<GameModel, ErrorModel>(e@),
            },
    {
        reveal(GameModel::cast_spell);
        let cost = self.cast_cost(seat, object).with_x(payment.x);
        match self.pay_mana(seat, payment, &cost) {
            Ok(_) => {},
            Err(e) => {
                return Err(e);
            },
        }
        let steps = match self.find_def(object) {
            Some(def) => Game::is_two_step(def),
            None => false,
        };
        if steps {
            self.begin_two_step_cast(seat, object, payment.x);
        } else {
            self.put_on_stack(seat, object, Vec::new(), copied(targets), payment.x);
        }
        Ok(())
    }

    fn pick_sacrifice(
        &self,
        ids: &Vec<ObjectId>,
        seat: Seat,
        source: ObjectId,
        filter: &Filter,
    ) -> (r: Option<ObjectId>)
        ensures
            r == self.model().first_sacrifice(ids@, seat, source, *filter, 0),
    {
        let ctx = Ctx::simple(seat, Some(source));
        let mut i: usize = 0;
        while i < ids.len()
            invariant
                i <= ids.len(),
                ctx@ == CtxModel::simple(seat, Some(source)),
                self.model().first_sacrifice(ids@, seat, source, *filter, 0)
                    == self.model().first_sacrifice(ids@, seat, source, *filter, i as nat),
            decreases ids.len() - i,
        {
            let mine = match self.find_obj(ids[i]) {
                Some(o) => o.zone == Zone::Battlefield && o.controller == seat,
                None => false,
            };
            if mine && self.object_matches(ids[i], filter, &ctx) {
                return Some(ids[i]);
            }
            i = i + 1;
        }
        None
    }

    fn discard_upto(&mut self, seat: Seat, ids: &Vec<ObjectId>, most: i32) -> (done: i64)
        ensures
            (final(self).model(), done as nat) == old(self).model().discard_upto(
                seat,
                ids@,
                most,
                ids@.len(),
            ),
            done >= 0,
    {
        let mut done: i64 = 0;
        let mut i: usize = 0;
        while i < ids.len()
            invariant
                i <= ids.len(),
                0 <= done <= 0x7fff_ffff,
                (self.model(), done as nat) == old(self).model().discard_upto(
                    seat,
                    ids@,
                    most,
                    i as nat,
                ),
            decreases ids.len() - i,
        {
            if done < most as i64 && self.in_hand(seat, ids[i]) {
                self.move_object(ids[i], Zone::Graveyard);
                done = done + 1;
            }
            i = i + 1;
        }
        done
    }

    fn pay_cost(&mut self, seat: Seat, object: ObjectId, payment: &ManaPayment, cost: &Cost) -> (r:
        Result<(), RulesError>)
        ensures
            match r {
                Ok(_) => old(self).model().pay_cost(seat, object, payment@, *cost) == Ok::<
                    GameModel,
                    ErrorModel,
                >(final(self).model()),
                Err(e) => old(self).model().pay_cost(seat, object, payment@, *cost) == Err::<
                    GameModel,
                    ErrorModel,
                >(e@),
            },
    {
        match cost {
            Cost::Mana(m) => {
                let full = m.with_x(payment.x);
                self.pay_mana(seat, payment, &full)
            },
            Cost::Tap => {
                let tapped = match self.obj_mut(object) {
                    Some(o) => {
                        let was = o.tapped;
                        o.tapped = true;
                        was
                    },
                    None => false,
                };
                if tapped {
                    let text = cat2(object.text().as_str(), " is already tapped");
                    return Err(RulesError::illegal(text.as_str()));
                }
                self.emit(EventBase::Tapped { object });
                Ok(())
            },
            Cost::SacrificeThis => {
                self.sacrifice(seat, object);
                Ok(())
            },
            Cost::Sacrifice(filter) => match self.pick_sacrifice(
                &payment.sacrifice,
                seat,
                object,
                filter,
            ) {
                Some(id) => {
                    self.sacrifice(seat, id);
                    Ok(())
                },
                None => Err(
                    RulesError::illegal(
                        "the payment names nothing that can be sacrificed for this cost",
                    ),
                ),
            },
            Cost::PayLife(n) => {
                let life: i32 = self.life_of(seat);
                if life < *n {
                    let text = cat4(
                        seat.text().as_str(),
                        " can't pay ",
                        int_text(*n as i64).as_str(),
                        " life",
                    );
                    return Err(RulesError::illegal(text.as_str()));
                }
                self.change_life(seat, sub_i32(life, *n));
                Ok(())
            },
            Cost::Discard(n) => {
                let done: i64 = self.discard_upto(seat, &payment.discard, *n);
                if done < *n as i64 {
                    let text = cat3(
                        "the payment must name ",
                        int_text(*n as i64).as_str(),
                        " card(s) in hand to discard",
                    );
                    return Err(RulesError::illegal(text.as_str()));
                }
                self.emit(EventBase::Discarded { seat, objects: copied(&payment.discard) });
                Ok(())
            },
        }
    }

    pub(crate) fn pay_costs(
        &mut self,
        seat: Seat,
        object: ObjectId,
        payment: &ManaPayment,
        costs: &Vec<Cost>,
    ) -> (r: Result<(), RulesError>)
        ensures
            match r {
                Ok(_) => old(self).model().pay_costs(
                    seat,
                    object,
                    payment@,
                    costs@,
                    costs@.len(),
                ) == Ok::<GameModel, ErrorModel>(final(self).model()),
                Err(e) => old(self).model().pay_costs(
                    seat,
                    object,
                    payment@,
                    costs@,
                    costs@.len(),
                ) == Err::<GameModel, ErrorModel>(e@),
            },
    {
        let ghost g = self.model();
        let mut i: usize = 0;
        while i < costs.len()
            invariant
                i <= costs.len(),
                g == old(self).model(),
                g.pay_costs(seat, object, payment@, costs@, i as nat) == Ok::<
                    GameModel,
                    ErrorModel,
                >(self.model()),
            decreases costs.len() - i,
        {
            match self.pay_cost(seat, object, payment, &costs[i]) {
                Ok(_) => {},
                Err(e) => {
                    proof {
                        g.lemma_costs_err(
                            seat,
                            object,
                            payment@,
                            costs@,
                            (i + 1) as nat,
                            costs@.len(),
                        );
                    }
                    return Err(e);
                },
            }
            i = i + 1;
        }
        Ok(())
    }

    fn put_ability(
        &mut self,
        seat: Seat,
        object: ObjectId,
        ability: u8,
        targets: &Vec<Target>,
        x: u32,
    )
        ensures
            final(self).model() == old(self).model().put_ability(
                seat,
                object,
                ability,
                targets@,
                x,
            ),
    {
        let kind = if ability == EQUIP_ABILITY {
            StackKind::Equip { source: object }
        } else {
            StackKind::Ability { source: object, index: ability }
        };
        self.stack.push(
            StackObject {
                object,
                controller: seat,
                targets: copied(targets),
                kind,
                modes: Vec::new(),
                x,
            },
        );
        self.emit(EventBase::Activated { seat, object, ability, targets: copied(targets) });
        self.give_priority(seat);
    }

    /// Pay an activated ability's costs and put it on the stack.
    pub(crate) fn activate_ability(
        &mut self,
        seat: Seat,
        object: ObjectId,
        ability: u8,
        targets: &Vec<Target>,
        payment: &ManaPayment,
    ) -> (r: Result<(), RulesError>)
        ensures
            match r {
                Ok(_) => old(self).model().activate_ability(
                    seat,
                    object,
                    ability,
                    targets@,
                    payment@,
                ) == Ok::<GameModel, ErrorModel>(final(self).model()),
                Err(e) => final(self).model() == old(self).model() && old(
                    self,
                ).model().activate_ability(seat, object, ability, targets@, payment@) == Err::<
                    GameModel,
                    ErrorModel,
                >(e@),
            },
    {
        reveal(GameModel::activate_ability);
        if ability == EQUIP_ABILITY {
            let equip: Option<ManaCost> = match self.find_def(object) {
                Some(def) => def.ir.equip,
                None => None,
            };
            let cost = match equip {
                Some(c) => c.with_x(payment.x),
                None => {
                    return Err(RulesError::illegal("not equipment"));
                },
            };
            match self.pay_mana(seat, payment, &cost) {
                Ok(_) => {},
                Err(e) => {
                    return Err(e);
                },
            }
            self.put_ability(seat, object, ability, targets, payment.x);
            return Ok(());
        }
        // Costs are paid on a copy, so that one that cannot be paid takes
        // back those before it.
        let mut paid = self.clone();
        match self.find_def(object) {
            Some(def) => {
                if ability as usize >= def.ir.activated.len() {
                    return Err(RulesError::illegal("no such ability"));
                }
                match paid.pay_costs(
                    seat,
                    object,
                    payment,
                    &def.ir.activated[ability as usize].cost,
                ) {
                    Ok(_) => {},
                    Err(e) => {
                        return Err(e);
                    },
                }
            },
            None => {
                return Err(RulesError::illegal("no such ability"));
            },
        }
        paid.put_ability(seat, object, ability, targets, payment.x);
        *self = paid;
        Ok(())
    }
}

} // verus!
