//! What each effect of the card language does to a game.
//!
//! An effect that unfolds into more work (a `Sequence`, a branch of a
//! `Conditional`, "each player discards") hands back frames for the
//! evaluator to push, so a choice raised anywhere inside it pauses the whole
//! resolution and resumes it intact.
use crate::action::{DamageTarget, Target};
use crate::event::{EventBase, EventModel};
use crate::ir::{Bind, CounterKind, Effect, Quantity, Ref, ReturnZone};
use crate::seqs::{group_views, share, views};
use crate::state::{ActReason, Counters, Ctx, CtxModel, Expiry, Frame, FrameModel, Game, GameModel, KindModel, Modifier, ModifierKind, ObjectModel, PlayerModel, StackKind, StackModel};
use crate::types::{clamp_u8, sat_i32, sat_u8, sub_i32, Keyword, Mana, ObjectId, Seat, Zone};
use crate::words::{capitalize, capitalized};
use std::sync::Arc;
use vstd::prelude::*;
use vstd::string::*;

verus! {

broadcast use group_views;

// ----- picks an effect asks for itself -----

/// The place in an effect where a pick of its own may sit: its target.
pub open spec fn direct_ref(e: Effect) -> Option<Ref> {
    match e {
        Effect::DealDamage { to, .. } => Some(to),
        Effect::Destroy { target } => Some(target),
        Effect::Exile { target } => Some(target),
        Effect::Tap { target } => Some(target),
        Effect::Untap { target } => Some(target),
        Effect::ReturnToHand { target } => Some(target),
        Effect::CounterSpell { target } => Some(target),
        Effect::ModifyPt { target, .. } => Some(target),
        Effect::GrantKeyword { target, .. } => Some(target),
        Effect::AddCounters { target, .. } => Some(target),
        Effect::ReturnFromGraveyard { target, .. } => Some(target),
        _ => None,
    }
}

/// The effect with something else as its target.
pub open spec fn with_ref(e: Effect, r: Ref) -> Effect {
    match e {
        Effect::DealDamage { amount, .. } => Effect::DealDamage { amount, to: r },
        Effect::Destroy { .. } => Effect::Destroy { target: r },
        Effect::Exile { .. } => Effect::Exile { target: r },
        Effect::Tap { .. } => Effect::Tap { target: r },
        Effect::Untap { .. } => Effect::Untap { target: r },
        Effect::ReturnToHand { .. } => Effect::ReturnToHand { target: r },
        Effect::CounterSpell { .. } => Effect::CounterSpell { target: r },
        Effect::ModifyPt { power, toughness, keywords, until, .. } => Effect::ModifyPt {
            target: r,
            power,
            toughness,
            keywords,
            until,
        },
        Effect::GrantKeyword { keyword, until, .. } => Effect::GrantKeyword {
            target: r,
            keyword,
            until,
        },
        Effect::AddCounters { kind, count, .. } => Effect::AddCounters { target: r, kind, count },
        Effect::ReturnFromGraveyard { zone, .. } => Effect::ReturnFromGraveyard { target: r, zone },
        other => other,
    }
}

/// The effect first asks for a pick.
pub open spec fn asks(e: Effect) -> bool {
    direct_ref(e) matches Some(Ref::Chosen { .. })
}

/// The verb of an effect, for the menu that asks a player to choose for it.
pub open spec fn verb(e: Effect) -> Seq<char> {
    match e {
        Effect::DealDamage { .. } => "Deal damage to"@,
        Effect::Destroy { .. } => "Destroy"@,
        Effect::Exile { .. } => "Exile"@,
        Effect::Tap { .. } => "Tap"@,
        Effect::Untap { .. } => "Untap"@,
        Effect::ReturnToHand { .. } => "Return"@,
        Effect::ReturnFromGraveyard { .. } => "Return"@,
        Effect::CounterSpell { .. } => "Counter"@,
        Effect::AddCounters { .. } => "Put counters on"@,
        _ => "Choose"@,
    }
}

/// The fewest and the most picks of a quantity from `n` options.
pub open spec fn pick_bounds(q: Quantity, n: nat) -> (nat, nat) {
    match q {
        Quantity::Exactly(k) => (k as nat, k as nat),
        Quantity::UpTo(k) => (0, k as nat),
        Quantity::AnyNumber => (0, n),
    }
}

/// The name a pick is remembered by when the card gives none.
pub open spec fn pick_name(bind: Option<Bind>, bindings: nat) -> Bind {
    match bind {
        Some(b) => b,
        None => Bind::Chosen(bindings as u32),
    }
}

// ----- what effects do, one recipient at a time -----

pub open spec fn as_damage(t: Target) -> DamageTarget {
    match t {
        Target::Object(o) => DamageTarget::Object(o),
        Target::Player(s) => DamageTarget::Player(s),
    }
}

/// An amount as a count: never below zero.
pub open spec fn at_least_zero(n: i32) -> nat {
    if n > 0 {
        n as nat
    } else {
        0
    }
}

/// Keywords for a while.
pub open spec fn keyword_modifiers(ks: Seq<Keyword>, expires: Expiry) -> Seq<Modifier> {
    Seq::new(ks.len(), |i: int| Modifier { kind: ModifierKind::Keyword(ks[i]), expires })
}

pub open spec fn mana_kind(color: Option<crate::types::Color>) -> Mana {
    match color {
        Some(c) => Mana::Colored(c),
        None => Mana::Colorless,
    }
}

/// The first entry of the stack from `i` on that is the spell `id`.
pub open spec fn spell_at(stack: Seq<StackModel>, id: ObjectId, i: nat) -> Option<nat>
    decreases stack.len() - i,
{
    if i >= stack.len() {
        None
    } else if stack[i as int].object == id && stack[i as int].kind == KindModel::Spell {
        Some(i)
    } else {
        spell_at(stack, id, i + 1)
    }
}

impl GameModel {
    pub open spec fn damage_each(
        self,
        source: ObjectId,
        ts: Seq<Target>,
        amount: i32,
        n: nat,
    ) -> GameModel
        decreases n,
    {
        if n == 0 || n > ts.len() {
            self
        } else {
            self.damage_each(source, ts, amount, (n - 1) as nat).deal_damage(
                source,
                as_damage(ts[n - 1]),
                amount,
                false,
            )
        }
    }

    pub open spec fn destroy_each(self, ids: Seq<ObjectId>, n: nat) -> GameModel
        decreases n,
    {
        if n == 0 || n > ids.len() {
            self
        } else {
            self.destroy_each(ids, (n - 1) as nat).destroy(ids[n - 1])
        }
    }

    /// Move those of the first `n` ids that are in `from` when their turn comes.
    pub open spec fn move_each(self, ids: Seq<ObjectId>, from: Zone, to: Zone, n: nat) -> GameModel
        decreases n,
    {
        if n == 0 || n > ids.len() {
            self
        } else {
            let g = self.move_each(ids, from, to, (n - 1) as nat);
            if g.in_zone(ids[n - 1], from) {
                g.move_object(ids[n - 1], to)
            } else {
                g
            }
        }
    }

    pub open spec fn draw_each(self, seats: Seq<Seat>, count: nat, n: nat) -> GameModel
        decreases n,
    {
        if n == 0 || n > seats.len() {
            self
        } else {
            self.draw_each(seats, count, (n - 1) as nat).draw(seats[n - 1], count)
        }
    }

    pub open spec fn gain_each(self, seats: Seq<Seat>, amount: i32, n: nat) -> GameModel
        decreases n,
    {
        if n == 0 || n > seats.len() {
            self
        } else {
            self.gain_each(seats, amount, (n - 1) as nat).gain_life(seats[n - 1], amount)
        }
    }

    pub open spec fn lose_each(self, seats: Seq<Seat>, amount: i32, n: nat) -> GameModel
        decreases n,
    {
        if n == 0 || n > seats.len() {
            self
        } else {
            let g = self.lose_each(seats, amount, (n - 1) as nat);
            g.change_life(seats[n - 1], sat_i32(g.life(seats[n - 1]) - amount))
        }
    }

    /// Put modifiers on those of the first `n` ids that are on the battlefield.
    pub open spec fn modify_each(self, ids: Seq<ObjectId>, mods: Seq<Modifier>, n: nat) -> GameModel
        decreases n,
    {
        if n == 0 || n > ids.len() {
            self
        } else {
            let g = self.modify_each(ids, mods, (n - 1) as nat);
            let o = g.obj(ids[n - 1]);
            if g.in_zone(ids[n - 1], Zone::Battlefield) {
                g.with_obj(ids[n - 1], ObjectModel { modifiers: o.modifiers + mods, ..o })
            } else {
                g
            }
        }
    }

    pub open spec fn counters_on(self, id: ObjectId, kind: CounterKind, count: u8) -> GameModel {
        let o = self.obj(id);
        let counters = match kind {
            CounterKind::Plus1Plus1 => Counters {
                plus1: sat_u8(o.counters.plus1 + count),
                minus1: o.counters.minus1,
            },
            CounterKind::Minus1Minus1 => Counters {
                plus1: o.counters.plus1,
                minus1: sat_u8(o.counters.minus1 + count),
            },
        };
        if self.in_zone(id, Zone::Battlefield) {
            self.with_obj(id, ObjectModel { counters, ..o }).emit(
                EventModel::CountersAdded { object: id, counter: kind.words(), count: count as i32 },
            )
        } else {
            self
        }
    }

    pub open spec fn counters_each(
        self,
        ids: Seq<ObjectId>,
        kind: CounterKind,
        count: u8,
        n: nat,
    ) -> GameModel
        decreases n,
    {
        if n == 0 || n > ids.len() {
            self
        } else {
            self.counters_each(ids, kind, count, (n - 1) as nat).counters_on(
                ids[n - 1],
                kind,
                count,
            )
        }
    }

    pub open spec fn add_mana(self, seat: Seat, mana: Mana, amount: u8) -> GameModel {
        self.with_pool(seat, self.pool(seat).plus(mana, amount)).emit(
            EventModel::ManaAdded { seat, mana, amount },
        )
    }

    /// Tap (or untap) a permanent, if that changes anything.
    pub open spec fn turn_permanent(self, id: ObjectId, tapped: bool) -> GameModel {
        let o = self.obj(id);
        if self.in_zone(id, Zone::Battlefield) && o.tapped != tapped {
            let g = self.with_obj(id, ObjectModel { tapped, ..o });
            if tapped {
                g.emit(EventModel::Tapped { object: id })
            } else {
                g.emit(EventModel::Untapped { object: id })
            }
        } else {
            self
        }
    }

    pub open spec fn turn_each(self, ids: Seq<ObjectId>, tapped: bool, n: nat) -> GameModel
        decreases n,
    {
        if n == 0 || n > ids.len() {
            self
        } else {
            self.turn_each(ids, tapped, (n - 1) as nat).turn_permanent(ids[n - 1], tapped)
        }
    }

    /// Counter a spell: it leaves the stack for its owner's graveyard.
    pub open spec fn counter_spell(self, id: ObjectId) -> GameModel {
        match spell_at(self.stack, id, 0) {
            Some(i) => GameModel { stack: self.stack.remove(i as int), ..self }.move_object(
                id,
                Zone::Graveyard,
            ).emit(EventModel::Countered { object: id }),
            None => self,
        }
    }

    pub open spec fn counter_each(self, ids: Seq<ObjectId>, n: nat) -> GameModel
        decreases n,
    {
        if n == 0 || n > ids.len() {
            self
        } else {
            self.counter_each(ids, (n - 1) as nat).counter_spell(ids[n - 1])
        }
    }

    /// The top card of a library goes to the graveyard.
    pub open spec fn mill_one(self, seat: Seat) -> GameModel {
        let p = self.player(seat);
        if self.has_seat(seat) && p.library.len() > 0 {
            self.with_player(
                seat,
                PlayerModel { library: p.library.drop_last(), ..p },
            ).move_object(p.library.last(), Zone::Graveyard)
        } else {
            self
        }
    }

    pub open spec fn mill(self, seat: Seat, n: nat) -> GameModel
        decreases n,
    {
        if n == 0 {
            self
        } else {
            self.mill(seat, (n - 1) as nat).mill_one(seat)
        }
    }

    pub open spec fn mill_each(self, seats: Seq<Seat>, count: nat, n: nat) -> GameModel
        decreases n,
    {
        if n == 0 || n > seats.len() {
            self
        } else {
            self.mill_each(seats, count, (n - 1) as nat).mill(seats[n - 1], count)
        }
    }

    /// An object from elsewhere enters under `seat`'s control, summoning sick.
    pub open spec fn enter_under(self, id: ObjectId, seat: Seat) -> GameModel {
        if !self.has_seat(seat) {
            self
        } else {
            let g = self.with_obj(
                id,
                ObjectModel { controller: seat, ..self.obj(id) },
            ).move_object(id, Zone::Battlefield);
            g.with_obj(id, ObjectModel { summoning_sick: true, ..g.obj(id) })
        }
    }

    /// Those of the first `n` ids that are in a graveyard enter under `you`.
    pub open spec fn reanimate_each(self, ids: Seq<ObjectId>, you: Seat, n: nat) -> GameModel
        decreases n,
    {
        if n == 0 || n > ids.len() {
            self
        } else {
            let g = self.reanimate_each(ids, you, (n - 1) as nat);
            if g.in_zone(ids[n - 1], Zone::Graveyard) {
                g.enter_under(ids[n - 1], you)
            } else {
                g
            }
        }
    }

    // ----- one effect -----

    /// The game after one effect, apart from the work it leaves as frames.
    #[verifier::opaque]
    pub open spec fn apply_effect(self, ctx: CtxModel, e: Effect) -> GameModel {
        match e {
            Effect::DealDamage { amount, to } => match ctx.this {
                Some(source) => {
                    let ts = self.refs_of(to, ctx);
                    self.damage_each(source, ts, self.amount(amount, ctx), ts.len())
                },
                None => self,
            },
            Effect::Destroy { target } => {
                let ids = self.objects_of(target, ctx);
                self.destroy_each(ids, ids.len())
            },
            Effect::Exile { target } => {
                let ids = self.objects_of(target, ctx);
                self.move_each(ids, Zone::Battlefield, Zone::Exile, ids.len())
            },
            Effect::Draw { player, count } => {
                let seats = self.players_of(player, ctx);
                self.draw_each(seats, at_least_zero(self.amount(count, ctx)), seats.len())
            },
            Effect::GainLife { player, amount } => {
                let seats = self.players_of(player, ctx);
                self.gain_each(seats, self.amount(amount, ctx), seats.len())
            },
            Effect::LoseLife { player, amount } => {
                let seats = self.players_of(player, ctx);
                self.lose_each(seats, self.amount(amount, ctx), seats.len())
            },
            Effect::ModifyPt { target, power, toughness, keywords, until } => {
                let ids = self.objects_of(target, ctx);
                let expires = Expiry::of(until, ctx.you);
                let pt = Modifier {
                    kind: ModifierKind::Pt {
                        power: self.amount(power, ctx),
                        toughness: self.amount(toughness, ctx),
                    },
                    expires,
                };
                self.modify_each(
                    ids,
                    seq![pt] + keyword_modifiers(keywords@, expires),
                    ids.len(),
                )
            },
            Effect::GrantKeyword { target, keyword, until } => {
                let ids = self.objects_of(target, ctx);
                let m = Modifier {
                    kind: ModifierKind::Keyword(keyword),
                    expires: Expiry::of(until, ctx.you),
                };
                self.modify_each(ids, seq![m], ids.len())
            },
            Effect::CreateToken { spec, count } => self.create_tokens(
                ctx.you,
                *spec,
                at_least_zero(self.amount(count, ctx)),
            ),
            Effect::AddCounters { target, kind, count } => {
                let ids = self.objects_of(target, ctx);
                self.counters_each(ids, kind, sat_u8(self.amount(count, ctx) as int), ids.len())
            },
            Effect::AddMana { color, amount } => self.add_mana(
                ctx.you,
                mana_kind(color),
                sat_u8(self.amount(amount, ctx) as int),
            ),
            Effect::Tap { target } => {
                let ids = self.objects_of(target, ctx);
                self.turn_each(ids, true, ids.len())
            },
            Effect::Untap { target } => {
                let ids = self.objects_of(target, ctx);
                self.turn_each(ids, false, ids.len())
            },
            Effect::ReturnToHand { target } => {
                let ids = self.objects_of(target, ctx);
                self.move_each(ids, Zone::Battlefield, Zone::Hand, ids.len())
            },
            Effect::CounterSpell { target } => {
                let ids = self.objects_of(target, ctx);
                self.counter_each(ids, ids.len())
            },
            Effect::Mill { player, count } => {
                let seats = self.players_of(player, ctx);
                self.mill_each(seats, at_least_zero(self.amount(count, ctx)), seats.len())
            },
            Effect::ReturnFromGraveyard { target, zone } => {
                let ids = self.objects_of(target, ctx);
                match zone {
                    ReturnZone::Hand => self.move_each(
                        ids,
                        Zone::Graveyard,
                        Zone::Hand,
                        ids.len(),
                    ),
                    ReturnZone::Battlefield => self.reanimate_each(ids, ctx.you, ids.len()),
                }
            },
            _ => self,
        }
    }

    /// The work one effect leaves, in push order: the last is done first.
    #[verifier::opaque]
    pub open spec fn effect_frames(self, ctx: CtxModel, e: Effect) -> Seq<FrameModel> {
        match e {
            Effect::Discard { player, count, random } => seq![
                FrameModel::Discard {
                    seats: self.players_of(player, ctx),
                    count: self.amount(count, ctx),
                    random,
                },
            ],
            Effect::Sacrifice { player, filter, count } => seq![
                FrameModel::Sacrifice {
                    seats: self.players_of(player, ctx),
                    filter,
                    count: self.amount(count, ctx),
                },
            ],
            Effect::Sequence(es) => seq![FrameModel::Effects { effects: es@, next: 0 }],
            Effect::Conditional { if_, yes, no } => if self.condition(if_, ctx) {
                seq![FrameModel::Effects { effects: seq![*yes], next: 0 }]
            } else {
                match no {
                    Some(e) => seq![FrameModel::Effects { effects: seq![*e], next: 0 }],
                    None => Seq::empty(),
                }
            },
            Effect::May { effect, after, otherwise, label } => seq![
                FrameModel::Branch {
                    bind: Bind::May,
                    branches: seq![seq![*effect] + after@, otherwise@],
                },
                FrameModel::ChooseOption {
                    seat: ctx.you,
                    labels: seq![
                        if ctx.this is Some {
                            capitalized(label@)
                        } else {
                            "Do it"@
                        },
                        "Don't"@,
                    ],
                    bind: Bind::May,
                },
            ],
            _ => Seq::empty(),
        }
    }

    /// An effect that picks its own object ("a creature you control") first
    /// asks for the pick, then runs again with the answer bound by name.
    #[verifier::opaque]
    pub open spec fn ask_frames(self, ctx: CtxModel, e: Effect) -> Seq<FrameModel> {
        match direct_ref(e) {
            Some(Ref::Chosen { who, filter, count, bind }) => {
                let name = pick_name(bind, ctx.bindings.len());
                let seats = self.players_of(who, ctx);
                let options = self.choosable(*filter, ctx);
                let bounds = pick_bounds(count, options.len());
                seq![
                    FrameModel::Effects { effects: seq![with_ref(e, Ref::Named(name))], next: 0 },
                    FrameModel::Choose {
                        seat: if seats.len() > 0 {
                            seats[0]
                        } else {
                            ctx.you
                        },
                        options,
                        min: bounds.0,
                        max: bounds.1,
                        prompt: verb(e),
                        reason: ActReason::Choice,
                        bind: name,
                    },
                ]
            },
            _ => Seq::empty(),
        }
    }

    /// The game after one step of an effect.
    pub open spec fn step(self, ctx: CtxModel, e: Effect) -> GameModel {
        if asks(e) {
            self
        } else {
            self.apply_effect(ctx, e)
        }
    }

    /// The work one step of an effect leaves, in push order.
    pub open spec fn step_frames(self, ctx: CtxModel, e: Effect) -> Seq<FrameModel> {
        if asks(e) {
            self.ask_frames(ctx, e)
        } else {
            self.effect_frames(ctx, e)
        }
    }
}

// ----- executable parts -----

fn replace_ref(e: &Effect, name: Bind) -> (r: Effect)
    ensures
        r == with_ref(*e, Ref::Named(name)),
{
    match e {
        Effect::DealDamage { amount, .. } => Effect::DealDamage {
            amount: amount.clone(),
            to: Ref::Named(name),
        },
        Effect::Destroy { .. } => Effect::Destroy { target: Ref::Named(name) },
        Effect::Exile { .. } => Effect::Exile { target: Ref::Named(name) },
        Effect::Tap { .. } => Effect::Tap { target: Ref::Named(name) },
        Effect::Untap { .. } => Effect::Untap { target: Ref::Named(name) },
        Effect::ReturnToHand { .. } => Effect::ReturnToHand { target: Ref::Named(name) },
        Effect::CounterSpell { .. } => Effect::CounterSpell { target: Ref::Named(name) },
        Effect::ModifyPt { power, toughness, keywords, until, .. } => Effect::ModifyPt {
            target: Ref::Named(name),
            power: power.clone(),
            toughness: toughness.clone(),
            keywords: share(keywords),
            until: *until,
        },
        Effect::GrantKeyword { keyword, until, .. } => Effect::GrantKeyword {
            target: Ref::Named(name),
            keyword: *keyword,
            until: *until,
        },
        Effect::AddCounters { kind, count, .. } => Effect::AddCounters {
            target: Ref::Named(name),
            kind: *kind,
            count: count.clone(),
        },
        Effect::ReturnFromGraveyard { zone, .. } => Effect::ReturnFromGraveyard {
            target: Ref::Named(name),
            zone: *zone,
        },
        other => other.clone(),
    }
}

fn direct_ref_of(e: &Effect) -> (r: Option<&Ref>)
    ensures
        match r {
            Some(x) => direct_ref(*e) == Some(*x),
            None => direct_ref(*e) is None,
        },
{
    match e {
        Effect::DealDamage { to, .. } => Some(to),
        Effect::Destroy { target } => Some(target),
        Effect::Exile { target } => Some(target),
        Effect::Tap { target } => Some(target),
        Effect::Untap { target } => Some(target),
        Effect::ReturnToHand { target } => Some(target),
        Effect::CounterSpell { target } => Some(target),
        Effect::ModifyPt { target, .. } => Some(target),
        Effect::GrantKeyword { target, .. } => Some(target),
        Effect::AddCounters { target, .. } => Some(target),
        Effect::ReturnFromGraveyard { target, .. } => Some(target),
        _ => None,
    }
}

/// The verb of an effect, for the menu that asks a player to choose for it.
fn verb_of(e: &Effect) -> (r: &'static str)
    ensures
        r@ == verb(*e),
{
    match e {
        Effect::DealDamage { .. } => "Deal damage to",
        Effect::Destroy { .. } => "Destroy",
        Effect::Exile { .. } => "Exile",
        Effect::Tap { .. } => "Tap",
        Effect::Untap { .. } => "Untap",
        Effect::ReturnToHand { .. } => "Return",
        Effect::ReturnFromGraveyard { .. } => "Return",
        Effect::CounterSpell { .. } => "Counter",
        Effect::AddCounters { .. } => "Put counters on",
        _ => "Choose",
    }
}

fn count_of(n: i32) -> (k: u32)
    ensures
        k == at_least_zero(n),
{
    if n > 0 {
        n as u32
    } else {
        0
    }
}

fn one_frame(f: Frame) -> (r: Vec<Frame>)
    ensures
        views(r@) == seq![f@],
{
    let mut v: Vec<Frame> = Vec::new();
    v.push(f);
    assert(views(v@) =~= seq![f@]);
    v
}

fn one_effect(e: &Effect) -> (r: Arc<Vec<Effect>>)
    ensures
        r@ == seq![*e],
{
    let mut v: Vec<Effect> = Vec::new();
    v.push(e.clone());
    assert(v@ =~= seq![*e]);
    Arc::new(v)
}

/// `effect` and then `after`, in one list.
fn effect_and(effect: &Effect, after: &Vec<Effect>) -> (r: Arc<Vec<Effect>>)
    ensures
        r@ == seq![*effect] + after@,
{
    let mut v: Vec<Effect> = Vec::new();
    v.push(effect.clone());
    let mut i: usize = 0;
    assert(v@ =~= seq![*effect] + after@.subrange(0, 0));
    while i < after.len()
        invariant
            i <= after.len(),
            v@ == seq![*effect] + after@.subrange(0, i as int),
        decreases after.len() - i,
    {
        v.push(after[i].clone());
        i = i + 1;
        assert(v@ =~= seq![*effect] + after@.subrange(0, i as int));
    }
    assert(after@.subrange(0, after@.len() as int) =~= after@);
    Arc::new(v)
}

fn pt_modifiers(power: i32, toughness: i32, ks: &Vec<Keyword>, expires: Expiry) -> (r: Vec<
    Modifier,
>)
    ensures
        r@ == seq![Modifier { kind: ModifierKind::Pt { power, toughness }, expires }]
            + keyword_modifiers(ks@, expires),
{
    let ghost pt = Modifier { kind: ModifierKind::Pt { power, toughness }, expires };
    let ghost all = keyword_modifiers(ks@, expires);
    let mut v: Vec<Modifier> = Vec::new();
    v.push(Modifier { kind: ModifierKind::Pt { power, toughness }, expires });
    let mut i: usize = 0;
    assert(v@ =~= seq![pt] + all.subrange(0, 0));
    while i < ks.len()
        invariant
            i <= ks.len(),
            all == keyword_modifiers(ks@, expires),
            v@ == seq![pt] + all.subrange(0, i as int),
        decreases ks.len() - i,
    {
        v.push(Modifier { kind: ModifierKind::Keyword(ks[i]), expires });
        i = i + 1;
        assert(v@ =~= seq![pt] + all.subrange(0, i as int));
    }
    assert(all.subrange(0, ks@.len() as int) =~= all);
    v
}

impl Game {
    fn damage_each(&mut self, source: ObjectId, ts: &Vec<Target>, amount: i32)
        ensures
            final(self).model() == old(self).model().damage_each(source, ts@, amount, ts@.len()),
    {
        let mut i: usize = 0;
        while i < ts.len()
            invariant
                i <= ts.len(),
                self.model() == old(self).model().damage_each(source, ts@, amount, i as nat),
            decreases ts.len() - i,
        {
            let to = match ts[i] {
                Target::Object(o) => DamageTarget::Object(o),
                Target::Player(s) => DamageTarget::Player(s),
            };
            self.deal_damage(source, to, amount, false);
            i = i + 1;
        }
    }

    fn destroy_each(&mut self, ids: &Vec<ObjectId>)
        ensures
            final(self).model() == old(self).model().destroy_each(ids@, ids@.len()),
    {
        let mut i: usize = 0;
        while i < ids.len()
            invariant
                i <= ids.len(),
                self.model() == old(self).model().destroy_each(ids@, i as nat),
            decreases ids.len() - i,
        {
            self.destroy(ids[i]);
            i = i + 1;
        }
    }

    fn move_each(&mut self, ids: &Vec<ObjectId>, from: Zone, to: Zone)
        ensures
            final(self).model() == old(self).model().move_each(ids@, from, to, ids@.len()),
    {
        let mut i: usize = 0;
        while i < ids.len()
            invariant
                i <= ids.len(),
                self.model() == old(self).model().move_each(ids@, from, to, i as nat),
            decreases ids.len() - i,
        {
            if self.is_in(ids[i], from) {
                self.move_object(ids[i], to);
            }
            i = i + 1;
        }
    }

    fn draw_each(&mut self, seats: &Vec<Seat>, count: u32)
        ensures
            final(self).model() == old(self).model().draw_each(seats@, count as nat, seats@.len()),
    {
        let mut i: usize = 0;
        while i < seats.len()
            invariant
                i <= seats.len(),
                self.model() == old(self).model().draw_each(seats@, count as nat, i as nat),
            decreases seats.len() - i,
        {
            self.draw(seats[i], count as usize);
            i = i + 1;
        }
    }

    fn gain_each(&mut self, seats: &Vec<Seat>, amount: i32)
        ensures
            final(self).model() == old(self).model().gain_each(seats@, amount, seats@.len()),
    {
        let mut i: usize = 0;
        while i < seats.len()
            invariant
                i <= seats.len(),
                self.model() == old(self).model().gain_each(seats@, amount, i as nat),
            decreases seats.len() - i,
        {
            self.gain_life(seats[i], amount);
            i = i + 1;
        }
    }

    fn lose_each(&mut self, seats: &Vec<Seat>, amount: i32)
        ensures
            final(self).model() == old(self).model().lose_each(seats@, amount, seats@.len()),
    {
        let mut i: usize = 0;
        while i < seats.len()
            invariant
                i <= seats.len(),
                self.model() == old(self).model().lose_each(seats@, amount, i as nat),
            decreases seats.len() - i,
        {
            let from: i32 = self.life_of(seats[i]);
            self.change_life(seats[i], sub_i32(from, amount));
            i = i + 1;
        }
    }

    fn modify(&mut self, id: ObjectId, mods: &Vec<Modifier>)
        ensures
            final(self).model() == (if old(self).model().in_zone(id, Zone::Battlefield) {
                old(self).model().with_obj(
                    id,
                    ObjectModel {
                        modifiers: old(self).model().obj(id).modifiers + mods@,
                        ..old(self).model().obj(id)
                    },
                )
            } else {
                old(self).model()
            }),
    {
        if self.is_in(id, Zone::Battlefield) {
            match self.obj_mut(id) {
                Some(o) => {
                    crate::seqs::extend(&mut o.modifiers, mods);
                },
                None => {},
            }
        }
    }

    fn modify_each(&mut self, ids: &Vec<ObjectId>, mods: &Vec<Modifier>)
        ensures
            final(self).model() == old(self).model().modify_each(ids@, mods@, ids@.len()),
    {
        let mut i: usize = 0;
        while i < ids.len()
            invariant
                i <= ids.len(),
                self.model() == old(self).model().modify_each(ids@, mods@, i as nat),
            decreases ids.len() - i,
        {
            self.modify(ids[i], mods);
            i = i + 1;
        }
    }

    fn counters_on(&mut self, id: ObjectId, kind: CounterKind, count: u8)
        ensures
            final(self).model() == old(self).model().counters_on(id, kind, count),
    {
        if self.is_in(id, Zone::Battlefield) {
            match self.obj_mut(id) {
                Some(o) => match kind {
                    CounterKind::Plus1Plus1 => {
                        o.counters = Counters {
                            plus1: o.counters.plus1.saturating_add(count),
                            minus1: o.counters.minus1,
                        };
                    },
                    CounterKind::Minus1Minus1 => {
                        o.counters = Counters {
                            plus1: o.counters.plus1,
                            minus1: o.counters.minus1.saturating_add(count),
                        };
                    },
                },
                None => {},
            }
            self.emit(
                EventBase::CountersAdded {
                    object: id,
                    counter: kind.name().to_owned(),
                    count: count as i32,
                },
            );
        }
    }

    fn counters_each(&mut self, ids: &Vec<ObjectId>, kind: CounterKind, count: u8)
        ensures
            final(self).model() == old(self).model().counters_each(ids@, kind, count, ids@.len()),
    {
        let mut i: usize = 0;
        while i < ids.len()
            invariant
                i <= ids.len(),
                self.model() == old(self).model().counters_each(ids@, kind, count, i as nat),
            decreases ids.len() - i,
        {
            self.counters_on(ids[i], kind, count);
            i = i + 1;
        }
    }

    fn add_mana(&mut self, seat: Seat, mana: Mana, amount: u8)
        ensures
            final(self).model() == old(self).model().add_mana(seat, mana, amount),
    {
        match self.player_mut(seat) {
            Some(p) => {
                p.mana_pool.add(mana, amount);
            },
            None => {},
        }
        self.emit(EventBase::ManaAdded { seat, mana, amount });
    }

    fn turn_permanent(&mut self, id: ObjectId, tapped: bool)
        ensures
            final(self).model() == old(self).model().turn_permanent(id, tapped),
    {
        let turns = match self.find_obj(id) {
            Some(o) => o.zone == Zone::Battlefield && o.tapped != tapped,
            None => false,
        };
        if turns {
            match self.obj_mut(id) {
                Some(o) => {
                    o.tapped = tapped;
                },
                None => {},
            }
            if tapped {
                self.emit(EventBase::Tapped { object: id });
            } else {
                self.emit(EventBase::Untapped { object: id });
            }
        }
    }

    fn turn_each(&mut self, ids: &Vec<ObjectId>, tapped: bool)
        ensures
            final(self).model() == old(self).model().turn_each(ids@, tapped, ids@.len()),
    {
        let mut i: usize = 0;
        while i < ids.len()
            invariant
                i <= ids.len(),
                self.model() == old(self).model().turn_each(ids@, tapped, i as nat),
            decreases ids.len() - i,
        {
            self.turn_permanent(ids[i], tapped);
            i = i + 1;
        }
    }

    fn find_spell(&self, id: ObjectId) -> (r: Option<usize>)
        ensures
            match r {
                Some(i) => spell_at(self.model().stack, id, 0) == Some(i as nat) && i
                    < self.stack@.len(),
                None => spell_at(self.model().stack, id, 0) is None,
            },
    {
        let mut i: usize = 0;
        while i < self.stack.len()
            invariant
                i <= self.stack.len(),
                spell_at(self.model().stack, id, 0) == spell_at(self.model().stack, id, i as nat),
            decreases self.stack.len() - i,
        {
            assert(self.model().stack[i as int] == self.stack@[i as int]@);
            if self.stack[i].object == id && matches!(self.stack[i].kind, StackKind::Spell) {
                return Some(i);
            }
            i = i + 1;
        }
        None
    }

    /// Counter a spell: it leaves the stack for its owner's graveyard.
    pub(crate) fn counter_spell(&mut self, object: ObjectId)
        ensures
            final(self).model() == old(self).model().counter_spell(object),
    {
        match self.find_spell(object) {
            Some(i) => {
                let ghost before = self.stack@;
                let _gone = self.stack.remove(i);
                assert(views(self.stack@) =~= views(before).remove(i as int));
                self.move_object(object, Zone::Graveyard);
                self.emit(EventBase::Countered { object });
            },
            None => {},
        }
    }

    fn counter_each(&mut self, ids: &Vec<ObjectId>)
        ensures
            final(self).model() == old(self).model().counter_each(ids@, ids@.len()),
    {
        let mut i: usize = 0;
        while i < ids.len()
            invariant
                i <= ids.len(),
                self.model() == old(self).model().counter_each(ids@, i as nat),
            decreases ids.len() - i,
        {
            self.counter_spell(ids[i]);
            i = i + 1;
        }
    }

    fn mill_one(&mut self, seat: Seat)
        ensures
            final(self).model() == old(self).model().mill_one(seat),
    {
        let top: Option<ObjectId> = match self.player_mut(seat) {
            Some(p) => p.library.pop(),
            None => None,
        };
        match top {
            Some(id) => {
                self.move_object(id, Zone::Graveyard);
            },
            None => {
                assert(self.model() =~= old(self).model());
            },
        }
    }

    fn mill(&mut self, seat: Seat, n: u32)
        ensures
            final(self).model() == old(self).model().mill(seat, n as nat),
    {
        let mut i: u32 = 0;
        while i < n
            invariant
                i <= n,
                self.model() == old(self).model().mill(seat, i as nat),
            decreases n - i,
        {
            self.mill_one(seat);
            i = i + 1;
        }
    }

    fn mill_each(&mut self, seats: &Vec<Seat>, count: u32)
        ensures
            final(self).model() == old(self).model().mill_each(seats@, count as nat, seats@.len()),
    {
        let mut i: usize = 0;
        while i < seats.len()
            invariant
                i <= seats.len(),
                self.model() == old(self).model().mill_each(seats@, count as nat, i as nat),
            decreases seats.len() - i,
        {
            self.mill(seats[i], count);
            i = i + 1;
        }
    }

    pub(crate) fn enter_under(&mut self, id: ObjectId, seat: Seat)
        ensures
            final(self).model() == old(self).model().enter_under(id, seat),
    {
        if self.find_player(seat).is_none() {
            return ;
        }
        match self.obj_mut(id) {
            Some(o) => {
                o.controller = seat;
            },
            None => {},
        }
        self.move_object(id, Zone::Battlefield);
        match self.obj_mut(id) {
            Some(o) => {
                o.summoning_sick = true;
            },
            None => {},
        }
    }

    fn reanimate_each(&mut self, ids: &Vec<ObjectId>, you: Seat)
        ensures
            final(self).model() == old(self).model().reanimate_each(ids@, you, ids@.len()),
    {
        let mut i: usize = 0;
        while i < ids.len()
            invariant
                i <= ids.len(),
                self.model() == old(self).model().reanimate_each(ids@, you, i as nat),
            decreases ids.len() - i,
        {
            if self.is_in(ids[i], Zone::Graveyard) {
                self.enter_under(ids[i], you);
            }
            i = i + 1;
        }
    }

    fn effect_frames(&self, ctx: &Ctx, effect: &Effect) -> (r: Vec<Frame>)
        ensures
            views(r@) == self.model().effect_frames(ctx@, *effect),
    {
        proof {
            reveal(GameModel::effect_frames);
        }
        match effect {
            Effect::Discard { player, count, random } => one_frame(
                Frame::Discard {
                    seats: self.players_of(player, ctx),
                    count: self.eval_amount(count, ctx),
                    random: *random,
                },
            ),
            Effect::Sacrifice { player, filter, count } => one_frame(
                Frame::Sacrifice {
                    seats: self.players_of(player, ctx),
                    filter: filter.clone(),
                    count: self.eval_amount(count, ctx),
                },
            ),
            Effect::Sequence(es) => one_frame(Frame::Effects { effects: share(es), next: 0 }),
            Effect::Conditional { if_, yes, no } => {
                if self.condition_holds(if_, ctx) {
                    one_frame(Frame::Effects { effects: one_effect(&**yes), next: 0 })
                } else {
                    match no {
                        Some(e) => one_frame(
                            Frame::Effects { effects: one_effect(&**e), next: 0 },
                        ),
                        None => Vec::new(),
                    }
                }
            },
            Effect::May { effect, after, otherwise, label } => {
                let text = match ctx.this {
                    Some(_) => capitalize(label.as_str()),
                    None => "Do it".to_owned(),
                };
                let mut branches: Vec<Arc<Vec<Effect>>> = Vec::new();
                branches.push(effect_and(&**effect, &**after));
                branches.push(share(otherwise));
                let mut labels: Vec<String> = Vec::new();
                let ghost shown = text@;
                labels.push(text);
                labels.push("Don't".to_owned());
                // The option is asked first (pushed last); the branch it picked runs after.
                assert(crate::state::branch_views(branches@) =~= seq![
                    seq![**effect] + after@,
                    otherwise@,
                ]);
                assert(views(labels@) =~= seq![shown, "Don't"@]);
                let mut v: Vec<Frame> = Vec::new();
                v.push(Frame::Branch { bind: Bind::May, branches });
                v.push(Frame::ChooseOption { seat: ctx.you, labels, bind: Bind::May });
                assert(views(v@) =~= seq![v@[0]@, v@[1]@]);
                v
            },
            _ => Vec::new(),
        }
    }

    /// Apply one effect. Returns frames for work that must run (and may
    /// pause) after this step, in push order: the last is done first.
    pub(crate) fn step(&mut self, ctx: &Ctx, effect: &Effect) -> (r: Vec<Frame>)
        ensures
            final(self).model() == old(self).model().step(ctx@, *effect),
            views(r@) == old(self).model().step_frames(ctx@, *effect),
    {
        match self.ask_frames(ctx, effect) {
            Some(v) => v,
            None => {
                let frames = self.effect_frames(ctx, effect);
                self.apply_effect(ctx, effect);
                frames
            },
        }
    }

    /// The frames of an effect that first asks for a pick.
    fn ask_frames(&self, ctx: &Ctx, effect: &Effect) -> (r: Option<Vec<Frame>>)
        ensures
            match r {
                Some(v) => asks(*effect) && views(v@) == self.model().ask_frames(ctx@, *effect),
                None => !asks(*effect),
            },
    {
        match direct_ref_of(effect) {
            Some(Ref::Chosen { who, filter, count, bind }) => {
                let name = match bind {
                    Some(b) => *b,
                    None => Bind::Chosen(ctx.bindings.len() as u32),
                };
                let seats = self.players_of(who, ctx);
                let seat = if seats.len() > 0 {
                    seats[0]
                } else {
                    ctx.you
                };
                let options = self.choosable(&**filter, ctx);
                let (min, max): (usize, usize) = match count {
                    Quantity::Exactly(n) => (*n as usize, *n as usize),
                    Quantity::UpTo(n) => (0, *n as usize),
                    Quantity::AnyNumber => (0, options.len()),
                };
                let resolved = replace_ref(effect, name);
                let mut v: Vec<Frame> = Vec::new();
                v.push(Frame::Effects { effects: one_effect(&resolved), next: 0 });
                v.push(
                    Frame::Choose {
                        seat,
                        options,
                        min,
                        max,
                        prompt: verb_of(effect).to_owned(),
                        reason: ActReason::Choice,
                        bind: name,
                    },
                );
                proof {
                    reveal(GameModel::ask_frames);
                }
                assert(views(v@) =~= seq![v@[0]@, v@[1]@]);
                Some(v)
            },
            _ => None,
        }
    }

    fn apply_effect(&mut self, ctx: &Ctx, effect: &Effect)
        ensures
            final(self).model() == old(self).model().apply_effect(ctx@, *effect),
    {
        proof {
            reveal(GameModel::apply_effect);
        }
        match effect {
            Effect::DealDamage { amount, to } => {
                if let Some(source) = ctx.this {
                    let n: i32 = self.eval_amount(amount, ctx);
                    let ts = self.refs_of(to, ctx);
                    self.damage_each(source, &ts, n);
                }
            },
            Effect::Destroy { target } => {
                let ids = self.objects_of(target, ctx);
                self.destroy_each(&ids);
            },
            Effect::Exile { target } => {
                let ids = self.objects_of(target, ctx);
                self.move_each(&ids, Zone::Battlefield, Zone::Exile);
            },
            Effect::Draw { player, count } => {
                let n: u32 = count_of(self.eval_amount(count, ctx));
                let seats = self.players_of(player, ctx);
                self.draw_each(&seats, n);
            },
            Effect::GainLife { player, amount } => {
                let n: i32 = self.eval_amount(amount, ctx);
                let seats = self.players_of(player, ctx);
                self.gain_each(&seats, n);
            },
            Effect::LoseLife { player, amount } => {
                let n: i32 = self.eval_amount(amount, ctx);
                let seats = self.players_of(player, ctx);
                self.lose_each(&seats, n);
            },
            Effect::ModifyPt { target, power, toughness, keywords, until } => {
                let p: i32 = self.eval_amount(power, ctx);
                let t: i32 = self.eval_amount(toughness, ctx);
                let ids = self.objects_of(target, ctx);
                let mods = pt_modifiers(p, t, &**keywords, Expiry::from_duration(until, ctx.you));
                self.modify_each(&ids, &mods);
            },
            Effect::GrantKeyword { target, keyword, until } => {
                let ids = self.objects_of(target, ctx);
                let m = Modifier {
                    kind: ModifierKind::Keyword(*keyword),
                    expires: Expiry::from_duration(until, ctx.you),
                };
                let mut mods: Vec<Modifier> = Vec::new();
                mods.push(m);
                assert(mods@ =~= seq![m]);
                self.modify_each(&ids, &mods);
            },
            Effect::CreateToken { spec, count } => {
                let n: u32 = count_of(self.eval_amount(count, ctx));
                self.create_tokens(ctx.you, &**spec, n);
            },
            Effect::AddCounters { target, kind, count } => {
                let n: u8 = clamp_u8(self.eval_amount(count, ctx));
                let ids = self.objects_of(target, ctx);
                self.counters_each(&ids, *kind, n);
            },
            Effect::AddMana { color, amount } => {
                let n: u8 = clamp_u8(self.eval_amount(amount, ctx));
                let mana = match color {
                    Some(c) => Mana::Colored(*c),
                    None => Mana::Colorless,
                };
                self.add_mana(ctx.you, mana, n);
            },
            Effect::Tap { target } => {
                let ids = self.objects_of(target, ctx);
                self.turn_each(&ids, true);
            },
            Effect::Untap { target } => {
                let ids = self.objects_of(target, ctx);
                self.turn_each(&ids, false);
            },
            Effect::ReturnToHand { target } => {
                let ids = self.objects_of(target, ctx);
                self.move_each(&ids, Zone::Battlefield, Zone::Hand);
            },
            Effect::CounterSpell { target } => {
                let ids = self.objects_of(target, ctx);
                self.counter_each(&ids);
            },
            Effect::Mill { player, count } => {
                let n: u32 = count_of(self.eval_amount(count, ctx));
                let seats = self.players_of(player, ctx);
                self.mill_each(&seats, n);
            },
            Effect::ReturnFromGraveyard { target, zone } => {
                let ids = self.objects_of(target, ctx);
                match zone {
                    ReturnZone::Hand => {
                        self.move_each(&ids, Zone::Graveyard, Zone::Hand);
                    },
                    ReturnZone::Battlefield => {
                        self.reanimate_each(&ids, ctx.you);
                    },
                }
            },
            _ => {},
        }
    }
}

} // verus!
