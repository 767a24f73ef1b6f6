//! Evaluating filters, references, and amounts against the game.
//!
//! A static ability may depend on what other statics do ("creatures with
//! flying get +1/+1"), so evaluation descends through statics. Every descent
//! takes one from a depth that starts at [`GameModel::depth`]; at the bottom
//! an object has what it has by itself. There are no more things to ask of the
//! objects than that depth, so only what asks itself again gets to the bottom.
use crate::action::Target;
use crate::ir::{Amount, Bind, Condition, Filter, PlayerRef, Ref, Static};
use crate::seqs::{copied, drop_value, extend, group_views, in_list, without};
use crate::state::{Ctx, CtxModel, Game, GameModel, Modifier, ModifierKind, ObjectModel};
use crate::types::{add_i32, clamp_i64, clamp_len, has_word, sat_i32, CardType, Keyword, ObjectId, Seat, Zone};
use crate::words::{eq_fold, same_fold};
use vstd::prelude::*;

verus! {

broadcast use group_views;

/// What can be asked of one object: each keyword, and power and toughness.
pub const ASPECTS: u64 = 16;

// ----- plain parts -----

/// The objects among the first `n` targets.
pub open spec fn objects_in(ts: Seq<Target>, n: nat) -> Seq<ObjectId>
    decreases n,
{
    if n == 0 || n > ts.len() {
        Seq::empty()
    } else {
        let rest = objects_in(ts, (n - 1) as nat);
        match ts[n - 1] {
            Target::Object(id) => rest.push(id),
            Target::Player(_) => rest,
        }
    }
}

/// The players among the first `n` targets.
pub open spec fn players_in(ts: Seq<Target>, n: nat) -> Seq<Seat>
    decreases n,
{
    if n == 0 || n > ts.len() {
        Seq::empty()
    } else {
        let rest = players_in(ts, (n - 1) as nat);
        match ts[n - 1] {
            Target::Object(_) => rest,
            Target::Player(s) => rest.push(s),
        }
    }
}

/// The first `n` ids as targets.
pub open spec fn as_targets(ids: Seq<ObjectId>) -> Seq<Target> {
    Seq::new(ids.len(), |i: int| Target::Object(ids[i]))
}

/// Players as targets.
pub open spec fn seats_as_targets(seats: Seq<Seat>) -> Seq<Target> {
    Seq::new(seats.len(), |i: int| Target::Player(seats[i]))
}

/// Some text of the list is `s`, up to ASCII case.
pub open spec fn any_fold(texts: Seq<String>, s: Seq<char>) -> bool {
    exists|i: int| 0 <= i < texts.len() && eq_fold(#[trigger] texts[i]@, s)
}

/// Whether a filter can match players at all (it names players somewhere).
pub open spec fn admits_players(f: Filter) -> bool
    decreases f, 0nat,
{
    match f {
        Filter::Targets(_, g) => admits_players(*g),
        Filter::Any => true,
        Filter::Player => true,
        Filter::Opponent => true,
        Filter::And(fs) => all_admit_players(fs@, fs@.len()),
        Filter::Or(fs) => any_admits_players(fs@, fs@.len()),
        _ => false,
    }
}

pub open spec fn all_admit_players(fs: Seq<Filter>, n: nat) -> bool
    decreases fs, n,
{
    if n == 0 || n > fs.len() {
        true
    } else {
        all_admit_players(fs, (n - 1) as nat) && admits_players(fs[n - 1])
    }
}

pub open spec fn any_admits_players(fs: Seq<Filter>, n: nat) -> bool
    decreases fs, n,
{
    if n == 0 || n > fs.len() {
        false
    } else {
        any_admits_players(fs, (n - 1) as nat) || admits_players(fs[n - 1])
    }
}

/// Whether a filter can match objects (as opposed to only players).
pub open spec fn admits_objects(f: Filter) -> bool
    decreases f, 0nat,
{
    match f {
        Filter::Targets(_, g) => admits_objects(*g),
        Filter::Player => false,
        Filter::Opponent => false,
        Filter::And(fs) => all_admit_objects(fs@, fs@.len()),
        Filter::Or(fs) => any_admits_objects(fs@, fs@.len()),
        _ => true,
    }
}

pub open spec fn all_admit_objects(fs: Seq<Filter>, n: nat) -> bool
    decreases fs, n,
{
    if n == 0 || n > fs.len() {
        true
    } else {
        all_admit_objects(fs, (n - 1) as nat) && admits_objects(fs[n - 1])
    }
}

pub open spec fn any_admits_objects(fs: Seq<Filter>, n: nat) -> bool
    decreases fs, n,
{
    if n == 0 || n > fs.len() {
        false
    } else {
        any_admits_objects(fs, (n - 1) as nat) || admits_objects(fs[n - 1])
    }
}

/// The zone a target filter looks in: the stack for spells, a graveyard for
/// cards in one, else the battlefield.
pub open spec fn zone_of(f: Filter) -> Zone
    decreases f, 0nat,
{
    match f {
        Filter::Targets(_, g) => zone_of(*g),
        Filter::Spell => Zone::Stack,
        Filter::InGraveyard(_) => Zone::Graveyard,
        Filter::And(fs) => if any_in_zone(fs@, Zone::Stack, fs@.len()) {
            Zone::Stack
        } else if any_in_zone(fs@, Zone::Graveyard, fs@.len()) {
            Zone::Graveyard
        } else {
            Zone::Battlefield
        },
        _ => Zone::Battlefield,
    }
}

pub open spec fn any_in_zone(fs: Seq<Filter>, zone: Zone, n: nat) -> bool
    decreases fs, n,
{
    if n == 0 || n > fs.len() {
        false
    } else {
        any_in_zone(fs, zone, (n - 1) as nat) || zone_of(fs[n - 1]) == zone
    }
}

/// What the first `n` modifiers add to power and toughness.
pub open spec fn modified(mods: Seq<Modifier>, base: (i32, i32), n: nat) -> (i32, i32)
    decreases n,
{
    if n == 0 || n > mods.len() {
        base
    } else {
        let (p, t) = modified(mods, base, (n - 1) as nat);
        match mods[n - 1].kind {
            ModifierKind::Pt { power, toughness } => (sat_i32(p + power), sat_i32(t + toughness)),
            _ => (p, t),
        }
    }
}

pub open spec fn modifier_grants(mods: Seq<Modifier>, k: Keyword) -> bool {
    exists|i: int| 0 <= i < mods.len() && (#[trigger] mods[i]).kind == ModifierKind::Keyword(k)
}

/// Power and toughness once counters and modifiers have had their say.
pub open spec fn finish_stats(o: ObjectModel, pt: (i32, i32)) -> (i32, i32) {
    let net = o.counters.plus1 - o.counters.minus1;
    modified(o.modifiers, (sat_i32(pt.0 + net), sat_i32(pt.1 + net)), o.modifiers.len())
}

impl GameModel {
    /// Every card in the graveyards of the first `n` seats.
    pub open spec fn graveyards(self, n: nat) -> Seq<ObjectId>
        decreases n,
    {
        if n == 0 || n > self.players.len() {
            Seq::empty()
        } else {
            self.graveyards((n - 1) as nat) + self.players[n - 1].graveyard
        }
    }

    /// The objects of the first `n` stack entries.
    pub open spec fn stack_objects(self) -> Seq<ObjectId> {
        Seq::new(self.stack.len(), |i: int| self.stack[i].object)
    }

    /// Where a filter looks for its objects.
    pub open spec fn candidates(self, f: Filter) -> Seq<ObjectId> {
        match zone_of(f) {
            Zone::Stack => self.stack_objects(),
            Zone::Graveyard => self.graveyards(self.players.len()),
            _ => self.on_battlefield(),
        }
    }

    /// The controllers of the first `n` ids.
    pub open spec fn controllers(self, ids: Seq<ObjectId>, n: nat) -> Seq<Seat>
        decreases n,
    {
        if n == 0 || n > ids.len() {
            Seq::empty()
        } else {
            let rest = self.controllers(ids, (n - 1) as nat);
            if self.has_obj(ids[n - 1]) {
                rest.push(self.obj(ids[n - 1]).controller)
            } else {
                rest
            }
        }
    }

    /// The owners of the first `n` ids.
    pub open spec fn owners(self, ids: Seq<ObjectId>, n: nat) -> Seq<Seat>
        decreases n,
    {
        if n == 0 || n > ids.len() {
            Seq::empty()
        } else {
            let rest = self.owners(ids, (n - 1) as nat);
            if self.has_obj(ids[n - 1]) {
                rest.push(self.obj(ids[n - 1]).owner)
            } else {
                rest
            }
        }
    }

    /// What the source of a context is attached to.
    pub open spec fn attachment(self, ctx: CtxModel) -> Option<ObjectId> {
        match ctx.this {
            Some(t) => if self.has_obj(t) {
                self.obj(t).attached_to
            } else {
                None
            },
            None => None,
        }
    }

    /// A keyword an object has by itself: printed, or granted for a while.
    pub open spec fn own_keyword(self, id: ObjectId, k: Keyword) -> bool {
        self.has_def(id) && (self.def(id).keywords.contains(k) || modifier_grants(
            self.obj(id).modifiers,
            k,
        ))
    }

    /// Power and toughness before statics.
    pub open spec fn own_stats(self, id: ObjectId) -> Option<(i32, i32)> {
        if self.has_def(id) && self.def(id).pt is Some {
            Some(finish_stats(self.obj(id), self.def(id).pt->0))
        } else {
            None
        }
    }

    /// Does anyone in the first `n` seats have a life total in the range?
    pub open spec fn any_life(self, seats: Seq<Seat>, at_least: bool, amount: i32, n: nat) -> bool
        decreases n,
    {
        if n == 0 || n > seats.len() {
            false
        } else {
            self.any_life(seats, at_least, amount, (n - 1) as nat) || (self.has_seat(seats[n - 1])
                && if at_least {
                self.player(seats[n - 1]).life >= amount
            } else {
                self.player(seats[n - 1]).life <= amount
            })
        }
    }
}

// ----- the evaluation itself -----

impl GameModel {
    /// How many layers of statics depending on statics are looked through: as
    /// many as there are things to ask of the objects.
    pub open spec fn depth(self) -> nat {
        if self.objects.len() <= u32::MAX {
            self.objects.len() * ASPECTS as nat
        } else {
            u32::MAX as nat * ASPECTS as nat
        }
    }

    /// Does an object on the battlefield (or on the stack, for spell filters) match?
    pub open spec fn matches(self, d: nat, id: ObjectId, f: Filter, ctx: CtxModel) -> bool
        decreases d, 0nat, f, 0nat,
    {
        let o = self.obj(id);
        let def = self.def(id);
        self.has_def(id) && match f {
            Filter::Targets(_, g) => self.matches(d, id, *g, ctx),
            Filter::Any => o.zone == Zone::Battlefield && (def.creature() || def.types.contains(
                CardType::Planeswalker,
            )),
            Filter::Creature => def.creature(),
            Filter::Land => def.land(),
            Filter::Artifact => def.types.contains(CardType::Artifact),
            Filter::Enchantment => def.types.contains(CardType::Enchantment),
            Filter::Instant => def.types.contains(CardType::Instant),
            Filter::Sorcery => def.types.contains(CardType::Sorcery),
            Filter::Permanent => o.zone == Zone::Battlefield || (o.zone == Zone::Graveyard
                && def.permanent()),
            Filter::InGraveyard(p) => o.zone == Zone::Graveyard && self.players_at(
                d,
                p,
                ctx,
            ).contains(o.owner),
            Filter::Player => false,
            Filter::Opponent => false,
            Filter::Spell => o.zone == Zone::Stack,
            Filter::Other => ctx.this != Some(id),
            Filter::This => ctx.this == Some(id),
            Filter::Attached => self.attachment(ctx) == Some(id),
            Filter::Token => def.token,
            Filter::Subtype(s) => any_fold(def.subtypes, s@),
            Filter::Color(c) => def.colors.contains(c),
            Filter::ControlledBy(p) => self.players_at(d, p, ctx).contains(o.controller),
            Filter::Tapped => o.tapped,
            Filter::Untapped => !o.tapped,
            Filter::Attacking => o.attacking is Some,
            Filter::Blocking => o.blocking.len() > 0,
            Filter::PowerAtLeast(n) => {
                let pt = if d > 0 {
                    self.stats((d - 1) as nat, id)
                } else {
                    self.own_stats(id)
                };
                pt matches Some((p, _)) && p >= n
            },
            Filter::PowerAtMost(n) => {
                let pt = if d > 0 {
                    self.stats((d - 1) as nat, id)
                } else {
                    self.own_stats(id)
                };
                pt matches Some((p, _)) && p <= n
            },
            Filter::ManaValueAtMost(n) => def.cost.value() <= n,
            Filter::HasKeyword(k) => if d > 0 {
                self.keyword((d - 1) as nat, id, k)
            } else {
                self.own_keyword(id, k)
            },
            Filter::And(fs) => self.all_match(d, id, fs@, ctx, fs@.len()),
            Filter::Or(fs) => self.any_match(d, id, fs@, ctx, fs@.len()),
            Filter::Not(g) => !self.matches(d, id, *g, ctx),
        }
    }

    pub open spec fn all_match(
        self,
        d: nat,
        id: ObjectId,
        fs: Seq<Filter>,
        ctx: CtxModel,
        n: nat,
    ) -> bool
        decreases d, 0nat, fs, n,
    {
        if n == 0 || n > fs.len() {
            true
        } else {
            self.all_match(d, id, fs, ctx, (n - 1) as nat) && self.matches(d, id, fs[n - 1], ctx)
        }
    }

    pub open spec fn any_match(
        self,
        d: nat,
        id: ObjectId,
        fs: Seq<Filter>,
        ctx: CtxModel,
        n: nat,
    ) -> bool
        decreases d, 0nat, fs, n,
    {
        if n == 0 || n > fs.len() {
            false
        } else {
            self.any_match(d, id, fs, ctx, (n - 1) as nat) || self.matches(d, id, fs[n - 1], ctx)
        }
    }

    /// Those of the first `n` ids that match.
    pub open spec fn matching_ids(
        self,
        d: nat,
        ids: Seq<ObjectId>,
        f: Filter,
        ctx: CtxModel,
        n: nat,
    ) -> Seq<ObjectId>
        decreases d, 0nat, f, n + 1,
    {
        if n == 0 || n > ids.len() {
            Seq::empty()
        } else {
            let rest = self.matching_ids(d, ids, f, ctx, (n - 1) as nat);
            if self.matches(d, ids[n - 1], f, ctx) {
                rest.push(ids[n - 1])
            } else {
                rest
            }
        }
    }

    /// The players a `PlayerRef` denotes.
    pub open spec fn players_at(self, d: nat, p: PlayerRef, ctx: CtxModel) -> Seq<Seat>
        decreases d, 0nat, p, 0nat,
    {
        if ctx.chooser is Some && (p is EachOpponent || p is EachPlayer) {
            seq![ctx.chooser->0]
        } else {
            match p {
                PlayerRef::You => seq![ctx.you],
                PlayerRef::TargetPlayer(i) => if i < ctx.targets.len() {
                    players_in(ctx.targets[i as int], ctx.targets[i as int].len())
                } else {
                    Seq::empty()
                },
                PlayerRef::TargetOpponent(i) => if i < ctx.targets.len() {
                    players_in(ctx.targets[i as int], ctx.targets[i as int].len())
                } else {
                    Seq::empty()
                },
                PlayerRef::EachOpponent => without(self.turn_order, ctx.you),
                PlayerRef::EachPlayer => self.turn_order,
                PlayerRef::Triggering => match ctx.triggering {
                    Some(Target::Player(s)) => seq![s],
                    Some(Target::Object(o)) => if self.has_obj(o) {
                        seq![self.obj(o).controller]
                    } else {
                        Seq::empty()
                    },
                    None => Seq::empty(),
                },
                PlayerRef::Controller(r) => {
                    let ids = self.objects_at(d, *r, ctx);
                    self.controllers(ids, ids.len())
                },
                PlayerRef::Owner(r) => {
                    let ids = self.objects_at(d, *r, ctx);
                    self.owners(ids, ids.len())
                },
            }
        }
    }

    /// The objects a `Ref` denotes (players are handled separately).
    pub open spec fn objects_at(self, d: nat, r: Ref, ctx: CtxModel) -> Seq<ObjectId>
        decreases d, 0nat, r, 0nat,
    {
        match r {
            Ref::Target(i) => if i < ctx.targets.len() {
                objects_in(ctx.targets[i as int], ctx.targets[i as int].len())
            } else {
                Seq::empty()
            },
            Ref::This => match ctx.this {
                Some(t) => seq![t],
                None => Seq::empty(),
            },
            Ref::ExiledWithThis => match ctx.bound(Bind::Exiled) {
                Some(ts) => objects_in(ts, ts.len()),
                None => Seq::empty(),
            },
            Ref::Triggering => match ctx.triggering {
                Some(Target::Object(id)) => seq![id],
                _ => Seq::empty(),
            },
            Ref::Each(f) => {
                let ids = self.candidates(*f);
                self.matching_ids(d, ids, *f, ctx, ids.len())
            },
            Ref::Player(_) => Seq::empty(),
            Ref::Attached => match self.attachment(ctx) {
                Some(t) => seq![t],
                None => Seq::empty(),
            },
            Ref::Named(name) => match ctx.bound(name) {
                Some(ts) => objects_in(ts, ts.len()),
                None => Seq::empty(),
            },
            Ref::Chosen { .. } => Seq::empty(),
        }
    }

    /// Does one of the first `n` seats control enough that matches?
    pub open spec fn any_controls(
        self,
        d: nat,
        seats: Seq<Seat>,
        f: Filter,
        at_least: i32,
        ctx: CtxModel,
        n: nat,
    ) -> bool
        decreases d, 1nat, f, n,
    {
        if n == 0 || n > seats.len() {
            false
        } else {
            let s = seats[n - 1];
            let held = self.battlefield(s);
            self.any_controls(d, seats, f, at_least, ctx, (n - 1) as nat) || self.matching_ids(
                d,
                held,
                f,
                ctx.as_seen_by(s),
                held.len(),
            ).len() >= at_least
        }
    }

    /// Whether a condition ("if you control an Elf") holds.
    pub open spec fn condition_at(self, d: nat, c: Condition, ctx: CtxModel) -> bool
        decreases d, 2nat, Filter::Any, 0nat,
    {
        match c {
            Condition::Controls { player, filter, at_least } => {
                let seats = self.players_at(d, player, ctx);
                self.any_controls(d, seats, filter, at_least, ctx, seats.len())
            },
            Condition::LifeAtLeast { player, amount } => {
                let seats = self.players_at(d, player, ctx);
                self.any_life(seats, true, amount, seats.len())
            },
            Condition::LifeAtMost { player, amount } => {
                let seats = self.players_at(d, player, ctx);
                self.any_life(seats, false, amount, seats.len())
            },
        }
    }

    pub open spec fn amount_at(self, d: nat, a: Amount, ctx: CtxModel) -> i32
        decreases d, 1nat, a, 0nat,
    {
        match a {
            Amount::Const(n) => n,
            Amount::Count(f) => {
                let ids = self.on_battlefield();
                sat_i32(self.matching_ids(d, ids, f, ctx, ids.len()).len() as int)
            },
            Amount::LifeOf(p) => {
                let seats = self.players_at(d, p, ctx);
                if seats.len() > 0 {
                    self.life(seats[0])
                } else {
                    0
                }
            },
            Amount::PowerOf(r) => {
                let ids = self.objects_at(d, r, ctx);
                if ids.len() > 0 {
                    let pt = if d > 0 {
                        self.stats((d - 1) as nat, ids[0])
                    } else {
                        self.own_stats(ids[0])
                    };
                    match pt {
                        Some((p, _)) => p,
                        None => 0,
                    }
                } else {
                    0
                }
            },
            Amount::X => ctx.x,
            Amount::Neg(b) => sat_i32(-self.amount_at(d, *b, ctx)),
        }
    }

    /// The statics among the first `n` of one permanent that apply.
    pub open spec fn statics_of(self, d: nat, id: ObjectId, n: nat) -> Seq<(ObjectId, Static)>
        decreases d, 3nat, Filter::Any, n,
    {
        if n == 0 || n > self.def(id).statics.len() {
            Seq::empty()
        } else {
            let rest = self.statics_of(d, id, (n - 1) as nat);
            match self.def(id).statics[n - 1] {
                Static::AsLongAs { condition, static_ } => if self.condition_at(
                    d,
                    condition,
                    CtxModel::simple(self.obj(id).controller, Some(id)),
                ) {
                    rest.push((id, *static_))
                } else {
                    rest
                },
                s => rest.push((id, s)),
            }
        }
    }

    /// An aura's or equipment's statics apply only while it is attached.
    pub open spec fn statics_active(self, id: ObjectId) -> bool {
        self.has_def(id) && !((self.def(id).aura() || self.def(id).equipment()) && self.obj(
            id,
        ).attached_to is None)
    }

    /// The statics that apply of the first `n` permanents.
    pub open spec fn statics_n(self, d: nat, n: nat) -> Seq<(ObjectId, Static)>
        decreases d, 4nat, Filter::Any, n,
    {
        let ids = self.on_battlefield();
        if n == 0 || n > ids.len() {
            Seq::empty()
        } else {
            let rest = self.statics_n(d, (n - 1) as nat);
            let id = ids[n - 1];
            if self.statics_active(id) {
                rest + self.statics_of(d, id, self.def(id).statics.len())
            } else {
                rest
            }
        }
    }

    /// The static abilities of every permanent on the battlefield, with their
    /// source. An aura or equipment's statics apply only while it is attached;
    /// a conditional static ("as long as ...") only while its condition holds.
    pub open spec fn statics(self, d: nat) -> Seq<(ObjectId, Static)>
        decreases d, 5nat, Filter::Any, 0nat,
    {
        self.statics_n(d, self.on_battlefield().len())
    }

    /// The context a static of `source` is evaluated in.
    pub open spec fn static_ctx(self, source: ObjectId) -> CtxModel {
        CtxModel::simple(
            if self.has_obj(source) {
                self.obj(source).controller
            } else {
                Seat(0)
            },
            Some(source),
        )
    }

    /// Power and toughness after the first `n` statics.
    pub open spec fn boosted(
        self,
        d: nat,
        id: ObjectId,
        ss: Seq<(ObjectId, Static)>,
        base: (i32, i32),
        n: nat,
    ) -> (i32, i32)
        decreases d, 6nat, Filter::Any, n,
    {
        if n == 0 || n > ss.len() {
            base
        } else {
            let (p, t) = self.boosted(d, id, ss, base, (n - 1) as nat);
            let (source, s) = ss[n - 1];
            match s {
                Static::PtBoost { filter, power, toughness, .. } => if self.matches(
                    d,
                    id,
                    filter,
                    self.static_ctx(source),
                ) {
                    (
                        sat_i32(p + self.amount_at(d, power, self.static_ctx(source))),
                        sat_i32(t + self.amount_at(d, toughness, self.static_ctx(source))),
                    )
                } else {
                    (p, t)
                },
                _ => (p, t),
            }
        }
    }

    /// Power and toughness: base, then static boosts from permanents on the
    /// battlefield, then counters and modifiers. `None` for non-creatures.
    pub open spec fn stats(self, d: nat, id: ObjectId) -> Option<(i32, i32)>
        decreases d, 7nat, Filter::Any, 0nat,
    {
        if self.has_def(id) && self.def(id).pt is Some {
            let base = self.def(id).pt->0;
            let pt = if self.obj(id).zone == Zone::Battlefield {
                let ss = self.statics(d);
                self.boosted(d, id, ss, base, ss.len())
            } else {
                base
            };
            Some(finish_stats(self.obj(id), pt))
        } else {
            None
        }
    }

    /// One of the first `n` statics grants the keyword.
    pub open spec fn granted(
        self,
        d: nat,
        id: ObjectId,
        k: Keyword,
        ss: Seq<(ObjectId, Static)>,
        n: nat,
    ) -> bool
        decreases d, 6nat, Filter::Any, n,
    {
        if n == 0 || n > ss.len() {
            false
        } else {
            let (source, s) = ss[n - 1];
            self.granted(d, id, k, ss, (n - 1) as nat) || match s {
                Static::PtBoost { filter, keywords, .. } => keywords@.contains(k) && self.matches(
                    d,
                    id,
                    filter,
                    self.static_ctx(source),
                ),
                Static::GrantKeyword { filter, keyword } => keyword == k && self.matches(
                    d,
                    id,
                    filter,
                    self.static_ctx(source),
                ),
                _ => false,
            }
        }
    }

    /// Does the object have the keyword: printed, granted for a while, or
    /// granted by a static on the battlefield?
    pub open spec fn keyword(self, d: nat, id: ObjectId, k: Keyword) -> bool
        decreases d, 7nat, Filter::Any, 0nat,
    {
        self.has_def(id) && (self.own_keyword(id, k) || (self.obj(id).zone == Zone::Battlefield && {
            let ss = self.statics(d);
            self.granted(d, id, k, ss, ss.len())
        }))
    }

    // ----- what the rest of the rules use -----

    pub open spec fn pt(self, id: ObjectId) -> Option<(i32, i32)> {
        self.stats(self.depth(), id)
    }

    pub open spec fn power(self, id: ObjectId) -> i32 {
        match self.pt(id) {
            Some((p, _)) => p,
            None => 0,
        }
    }

    pub open spec fn toughness(self, id: ObjectId) -> i32 {
        match self.pt(id) {
            Some((_, t)) => t,
            None => 0,
        }
    }

    pub open spec fn has_keyword(self, id: ObjectId, k: Keyword) -> bool {
        self.keyword(self.depth(), id, k)
    }

    pub open spec fn object_matches(self, id: ObjectId, f: Filter, ctx: CtxModel) -> bool {
        self.matches(self.depth() + 1, id, f, ctx)
    }

    pub open spec fn players_of(self, p: PlayerRef, ctx: CtxModel) -> Seq<Seat> {
        self.players_at(self.depth() + 1, p, ctx)
    }

    pub open spec fn objects_of(self, r: Ref, ctx: CtxModel) -> Seq<ObjectId> {
        self.objects_at(self.depth() + 1, r, ctx)
    }

    pub open spec fn amount(self, a: Amount, ctx: CtxModel) -> i32 {
        self.amount_at(self.depth() + 1, a, ctx)
    }

    pub open spec fn condition(self, c: Condition, ctx: CtxModel) -> bool {
        self.condition_at(self.depth() + 1, c, ctx)
    }

    /// Those of the first `n` ids that match.
    pub open spec fn matching(
        self,
        ids: Seq<ObjectId>,
        f: Filter,
        ctx: CtxModel,
    ) -> Seq<ObjectId> {
        self.matching_ids(self.depth() + 1, ids, f, ctx, ids.len())
    }

    /// Does a card being cast (still in hand) match a spell filter? Like
    /// `object_matches`, but `Spell` is true for it wherever it is.
    pub open spec fn spell_matches(self, id: ObjectId, f: Filter, ctx: CtxModel) -> bool
        decreases f, 0nat,
    {
        match f {
            Filter::Targets(_, g) => self.spell_matches(id, *g, ctx),
            Filter::Spell => true,
            Filter::And(fs) => self.all_spell_match(id, fs@, ctx, fs@.len()),
            Filter::Or(fs) => self.any_spell_match(id, fs@, ctx, fs@.len()),
            Filter::Not(g) => !self.spell_matches(id, *g, ctx),
            other => self.object_matches(id, other, ctx),
        }
    }

    pub open spec fn all_spell_match(
        self,
        id: ObjectId,
        fs: Seq<Filter>,
        ctx: CtxModel,
        n: nat,
    ) -> bool
        decreases fs, n,
    {
        if n == 0 || n > fs.len() {
            true
        } else {
            self.all_spell_match(id, fs, ctx, (n - 1) as nat) && self.spell_matches(
                id,
                fs[n - 1],
                ctx,
            )
        }
    }

    pub open spec fn any_spell_match(
        self,
        id: ObjectId,
        fs: Seq<Filter>,
        ctx: CtxModel,
        n: nat,
    ) -> bool
        decreases fs, n,
    {
        if n == 0 || n > fs.len() {
            false
        } else {
            self.any_spell_match(id, fs, ctx, (n - 1) as nat) || self.spell_matches(
                id,
                fs[n - 1],
                ctx,
            )
        }
    }

    /// Does a player match a player-capable filter?
    pub open spec fn player_matches(self, seat: Seat, f: Filter, ctx: CtxModel) -> bool
        decreases f, 0nat,
    {
        self.in_game(seat) && match f {
            Filter::Targets(_, g) => self.player_matches(seat, *g, ctx),
            Filter::Any => true,
            Filter::Player => true,
            Filter::Opponent => seat != ctx.you,
            Filter::ControlledBy(p) => self.players_of(p, ctx).contains(seat),
            Filter::And(fs) => self.all_players_match(seat, fs@, ctx, fs@.len()),
            Filter::Or(fs) => self.any_player_matches(seat, fs@, ctx, fs@.len()),
            Filter::Not(g) => !self.player_matches(seat, *g, ctx),
            _ => false,
        }
    }

    pub open spec fn all_players_match(
        self,
        seat: Seat,
        fs: Seq<Filter>,
        ctx: CtxModel,
        n: nat,
    ) -> bool
        decreases fs, n,
    {
        if n == 0 || n > fs.len() {
            true
        } else {
            self.all_players_match(seat, fs, ctx, (n - 1) as nat) && self.player_matches(
                seat,
                fs[n - 1],
                ctx,
            )
        }
    }

    pub open spec fn any_player_matches(
        self,
        seat: Seat,
        fs: Seq<Filter>,
        ctx: CtxModel,
        n: nat,
    ) -> bool
        decreases fs, n,
    {
        if n == 0 || n > fs.len() {
            false
        } else {
            self.any_player_matches(seat, fs, ctx, (n - 1) as nat) || self.player_matches(
                seat,
                fs[n - 1],
                ctx,
            )
        }
    }

    /// Hexproof: an opponent's spells and abilities can't target it.
    pub open spec fn can_target(self, id: ObjectId, by: Seat) -> bool {
        self.has_obj(id) && !(self.obj(id).zone == Zone::Battlefield && self.has_keyword(
            id,
            Keyword::Hexproof,
        ) && self.obj(id).controller != by)
    }

    /// Those of the first `n` ids that match and, for targets, may be targeted.
    pub open spec fn object_picks(
        self,
        ids: Seq<ObjectId>,
        f: Filter,
        ctx: CtxModel,
        targeted: bool,
        n: nat,
    ) -> Seq<Target>
        decreases n,
    {
        if n == 0 || n > ids.len() {
            Seq::empty()
        } else {
            let rest = self.object_picks(ids, f, ctx, targeted, (n - 1) as nat);
            if self.object_matches(ids[n - 1], f, ctx) && (!targeted || self.can_target(
                ids[n - 1],
                ctx.you,
            )) {
                rest.push(Target::Object(ids[n - 1]))
            } else {
                rest
            }
        }
    }

    /// Those of the first `n` seats in the game that match.
    pub open spec fn player_picks(self, f: Filter, ctx: CtxModel, n: nat) -> Seq<Target>
        decreases n,
    {
        if n == 0 || n > self.turn_order.len() {
            Seq::empty()
        } else {
            let rest = self.player_picks(f, ctx, (n - 1) as nat);
            if self.player_matches(self.turn_order[n - 1], f, ctx) {
                rest.push(Target::Player(self.turn_order[n - 1]))
            } else {
                rest
            }
        }
    }

    /// Everything a filter admits: objects in the filter's zone, then players.
    pub open spec fn picks(self, f: Filter, ctx: CtxModel, targeted: bool) -> Seq<Target> {
        let ids = self.candidates(f);
        let objects = if admits_objects(f) {
            self.object_picks(ids, f, ctx, targeted, ids.len())
        } else {
            Seq::empty()
        };
        if admits_players(f) {
            objects + self.player_picks(f, ctx, self.turn_order.len())
        } else {
            objects
        }
    }

    /// Every legal target for a filter, as chosen by `ctx.you`.
    pub open spec fn targets_for(self, f: Filter, ctx: CtxModel) -> Seq<Target> {
        self.picks(f, ctx, true)
    }

    /// Everything a filter admits for a choice that does not target.
    pub open spec fn choosable(self, f: Filter, ctx: CtxModel) -> Seq<Target> {
        self.picks(f, ctx, false)
    }

    /// Is a chosen target still legal for its filter?
    pub open spec fn target_is_legal(self, t: Target, f: Filter, ctx: CtxModel) -> bool {
        match t {
            Target::Object(id) => self.in_zone(id, zone_of(f)) && self.object_matches(id, f, ctx)
                && self.can_target(id, ctx.you),
            Target::Player(s) => self.player_matches(s, f, ctx),
        }
    }

    /// Everything a `Ref` denotes: objects and players.
    pub open spec fn refs_of(self, r: Ref, ctx: CtxModel) -> Seq<Target> {
        match r {
            Ref::Target(i) => if i < ctx.targets.len() {
                ctx.targets[i as int]
            } else {
                Seq::empty()
            },
            Ref::Player(p) => seats_as_targets(self.players_of(p, ctx)),
            Ref::Triggering => match ctx.triggering {
                Some(t) => seq![t],
                None => Seq::empty(),
            },
            Ref::Named(name) => match ctx.bound(name) {
                Some(ts) => ts,
                None => Seq::empty(),
            },
            Ref::Each(f) => {
                let objects = as_targets(self.objects_of(r, ctx));
                if admits_players(*f) {
                    objects + self.player_picks(*f, ctx, self.turn_order.len())
                } else {
                    objects
                }
            },
            other => as_targets(self.objects_of(other, ctx)),
        }
    }

    /// Those of the first `n` keywords the object has.
    pub open spec fn keywords_n(self, id: ObjectId, n: nat) -> Seq<Keyword>
        decreases n,
    {
        if n == 0 || n > Keyword::every().len() {
            Seq::empty()
        } else {
            let rest = self.keywords_n(id, (n - 1) as nat);
            if self.has_keyword(id, Keyword::every()[n - 1]) {
                rest.push(Keyword::every()[n - 1])
            } else {
                rest
            }
        }
    }

    /// Every keyword the object has.
    pub open spec fn keywords_of(self, id: ObjectId) -> Seq<Keyword> {
        self.keywords_n(id, Keyword::every().len())
    }
}

// ----- executable parts -----

pub(crate) fn target_objects(ts: &Vec<Target>) -> (r: Vec<ObjectId>)
    ensures
        r@ == objects_in(ts@, ts@.len()),
{
    let mut out: Vec<ObjectId> = Vec::new();
    let mut i: usize = 0;
    while i < ts.len()
        invariant
            i <= ts.len(),
            out@ == objects_in(ts@, i as nat),
        decreases ts.len() - i,
    {
        match ts[i] {
            Target::Object(id) => {
                out.push(id);
            },
            Target::Player(_) => {},
        }
        i = i + 1;
    }
    out
}

pub(crate) fn target_players(ts: &Vec<Target>) -> (r: Vec<Seat>)
    ensures
        r@ == players_in(ts@, ts@.len()),
{
    let mut out: Vec<Seat> = Vec::new();
    let mut i: usize = 0;
    while i < ts.len()
        invariant
            i <= ts.len(),
            out@ == players_in(ts@, i as nat),
        decreases ts.len() - i,
    {
        match ts[i] {
            Target::Object(_) => {},
            Target::Player(s) => {
                out.push(s);
            },
        }
        i = i + 1;
    }
    out
}

pub(crate) fn ids_as_targets(ids: &Vec<ObjectId>) -> (r: Vec<Target>)
    ensures
        r@ == as_targets(ids@),
{
    let mut out: Vec<Target> = Vec::new();
    let mut i: usize = 0;
    while i < ids.len()
        invariant
            i <= ids.len(),
            out@ == as_targets(ids@).subrange(0, i as int),
        decreases ids.len() - i,
    {
        out.push(Target::Object(ids[i]));
        i = i + 1;
    }
    assert(as_targets(ids@).subrange(0, ids@.len() as int) =~= as_targets(ids@));
    out
}

fn players_as_targets(seats: &Vec<Seat>) -> (r: Vec<Target>)
    ensures
        r@ == seats_as_targets(seats@),
{
    let mut out: Vec<Target> = Vec::new();
    let mut i: usize = 0;
    while i < seats.len()
        invariant
            i <= seats.len(),
            out@ == seats_as_targets(seats@).subrange(0, i as int),
        decreases seats.len() - i,
    {
        out.push(Target::Player(seats[i]));
        i = i + 1;
    }
    assert(seats_as_targets(seats@).subrange(0, seats@.len() as int) =~= seats_as_targets(seats@));
    out
}

fn one<T>(x: T) -> (r: Vec<T>)
    ensures
        r@ == seq![x],
{
    let mut v: Vec<T> = Vec::new();
    v.push(x);
    assert(v@ =~= seq![x]);
    v
}

fn subtype_listed(texts: &Vec<String>, s: &str) -> (b: bool)
    ensures
        b == any_fold(texts@, s@),
{
    let mut i: usize = 0;
    while i < texts.len()
        invariant
            i <= texts.len(),
            forall|j: int| 0 <= j < i ==> !eq_fold(#[trigger] texts@[j]@, s@),
        decreases texts.len() - i,
    {
        if same_fold(texts[i].as_str(), s) {
            assert(eq_fold(texts@[i as int]@, s@));
            return true;
        }
        i = i + 1;
    }
    false
}

fn modifiers_grant(mods: &Vec<Modifier>, k: Keyword) -> (b: bool)
    ensures
        b == modifier_grants(mods@, k),
{
    let mut i: usize = 0;
    while i < mods.len()
        invariant
            i <= mods.len(),
            forall|j: int| 0 <= j < i ==> (#[trigger] mods@[j]).kind != ModifierKind::Keyword(k),
        decreases mods.len() - i,
    {
        if mods[i].kind == ModifierKind::Keyword(k) {
            assert(mods@[i as int].kind == ModifierKind::Keyword(k));
            return true;
        }
        i = i + 1;
    }
    false
}

fn stats_with(o: &crate::state::GameObject, pt: (i32, i32)) -> (r: (i32, i32))
    ensures
        r == finish_stats(o@, pt),
{
    let net: i32 = o.counters.plus1 as i32 - o.counters.minus1 as i32;
    let mut p: i32 = add_i32(pt.0, net);
    let mut t: i32 = add_i32(pt.1, net);
    let ghost base = (p, t);
    let mut i: usize = 0;
    while i < o.modifiers.len()
        invariant
            i <= o.modifiers.len(),
            (p, t) == modified(o@.modifiers, base, i as nat),
        decreases o.modifiers.len() - i,
    {
        if let ModifierKind::Pt { power, toughness } = o.modifiers[i].kind {
            p = add_i32(p, power);
            t = add_i32(t, toughness);
        }
        i = i + 1;
    }
    (p, t)
}

impl Game {
    /// Whether a filter can match players at all (it names players somewhere).
    pub fn filter_admits_players(filter: &Filter) -> (b: bool)
        ensures
            b == admits_players(*filter),
        decreases *filter, 0nat,
    {
        match filter {
            Filter::Targets(_, f) => Game::filter_admits_players(&**f),
            Filter::Any => true,
            Filter::Player => true,
            Filter::Opponent => true,
            Filter::And(fs) => Game::all_admit_players_in(&**fs),
            Filter::Or(fs) => Game::any_admits_players_in(&**fs),
            _ => false,
        }
    }

    fn all_admit_players_in(fs: &Vec<Filter>) -> (b: bool)
        ensures
            b == all_admit_players(fs@, fs@.len()),
        decreases fs@, 0nat,
    {
        let mut b = true;
        let mut i: usize = 0;
        while i < fs.len()
            invariant
                i <= fs.len(),
                b == all_admit_players(fs@, i as nat),
            decreases fs.len() - i,
        {
            let x = Game::filter_admits_players(&fs[i]);
            b = b && x;
            i = i + 1;
        }
        b
    }

    fn any_admits_players_in(fs: &Vec<Filter>) -> (b: bool)
        ensures
            b == any_admits_players(fs@, fs@.len()),
        decreases fs@, 0nat,
    {
        let mut b = false;
        let mut i: usize = 0;
        while i < fs.len()
            invariant
                i <= fs.len(),
                b == any_admits_players(fs@, i as nat),
            decreases fs.len() - i,
        {
            let x = Game::filter_admits_players(&fs[i]);
            b = b || x;
            i = i + 1;
        }
        b
    }

    /// Whether a filter can match objects (as opposed to only players).
    pub fn filter_admits_objects(filter: &Filter) -> (b: bool)
        ensures
            b == admits_objects(*filter),
        decreases *filter, 0nat,
    {
        match filter {
            Filter::Targets(_, f) => Game::filter_admits_objects(&**f),
            Filter::Player => false,
            Filter::Opponent => false,
            Filter::And(fs) => Game::all_admit_objects_in(&**fs),
            Filter::Or(fs) => Game::any_admits_objects_in(&**fs),
            _ => true,
        }
    }

    fn all_admit_objects_in(fs: &Vec<Filter>) -> (b: bool)
        ensures
            b == all_admit_objects(fs@, fs@.len()),
        decreases fs@, 0nat,
    {
        let mut b = true;
        let mut i: usize = 0;
        while i < fs.len()
            invariant
                i <= fs.len(),
                b == all_admit_objects(fs@, i as nat),
            decreases fs.len() - i,
        {
            let x = Game::filter_admits_objects(&fs[i]);
            b = b && x;
            i = i + 1;
        }
        b
    }

    fn any_admits_objects_in(fs: &Vec<Filter>) -> (b: bool)
        ensures
            b == any_admits_objects(fs@, fs@.len()),
        decreases fs@, 0nat,
    {
        let mut b = false;
        let mut i: usize = 0;
        while i < fs.len()
            invariant
                i <= fs.len(),
                b == any_admits_objects(fs@, i as nat),
            decreases fs.len() - i,
        {
            let x = Game::filter_admits_objects(&fs[i]);
            b = b || x;
            i = i + 1;
        }
        b
    }

    /// The zone a target filter looks in: the stack for spells, else the battlefield.
    pub fn filter_zone(filter: &Filter) -> (z: Zone)
        ensures
            z == zone_of(*filter),
        decreases *filter, 0nat,
    {
        match filter {
            Filter::Targets(_, f) => Game::filter_zone(&**f),
            Filter::Spell => Zone::Stack,
            Filter::InGraveyard(_) => Zone::Graveyard,
            Filter::And(fs) => if Game::any_in(&**fs, Zone::Stack) {
                Zone::Stack
            } else if Game::any_in(&**fs, Zone::Graveyard) {
                Zone::Graveyard
            } else {
                Zone::Battlefield
            },
            _ => Zone::Battlefield,
        }
    }

    fn any_in(fs: &Vec<Filter>, zone: Zone) -> (b: bool)
        ensures
            b == any_in_zone(fs@, zone, fs@.len()),
        decreases fs@, 0nat,
    {
        let mut b = false;
        let mut i: usize = 0;
        while i < fs.len()
            invariant
                i <= fs.len(),
                b == any_in_zone(fs@, zone, i as nat),
            decreases fs.len() - i,
        {
            let z = Game::filter_zone(&fs[i]);
            b = b || z == zone;
            i = i + 1;
        }
        b
    }

    /// Every card in every graveyard.
    pub fn graveyard_objects(&self) -> (r: Vec<ObjectId>)
        ensures
            r@ == self.model().graveyards(self.model().players.len()),
    {
        let mut out: Vec<ObjectId> = Vec::new();
        let mut i: usize = 0;
        while i < self.players.len()
            invariant
                i <= self.players.len(),
                out@ == self.model().graveyards(i as nat),
            decreases self.players.len() - i,
        {
            extend(&mut out, &self.players[i].graveyard);
            i = i + 1;
        }
        out
    }

    fn stack_ids(&self) -> (r: Vec<ObjectId>)
        ensures
            r@ == self.model().stack_objects(),
    {
        let mut out: Vec<ObjectId> = Vec::new();
        let mut i: usize = 0;
        while i < self.stack.len()
            invariant
                i <= self.stack.len(),
                out@ == self.model().stack_objects().subrange(0, i as int),
            decreases self.stack.len() - i,
        {
            out.push(self.stack[i].object);
            i = i + 1;
        }
        assert(self.model().stack_objects().subrange(0, self.stack@.len() as int)
            =~= self.model().stack_objects());
        out
    }

    fn candidate_ids(&self, filter: &Filter) -> (r: Vec<ObjectId>)
        ensures
            r@ == self.model().candidates(*filter),
    {
        match Game::filter_zone(filter) {
            Zone::Stack => self.stack_ids(),
            Zone::Graveyard => self.graveyard_objects(),
            _ => self.battlefield_objects(),
        }
    }

    fn controllers_of(&self, ids: &Vec<ObjectId>) -> (r: Vec<Seat>)
        ensures
            r@ == self.model().controllers(ids@, ids@.len()),
    {
        let mut out: Vec<Seat> = Vec::new();
        let mut i: usize = 0;
        while i < ids.len()
            invariant
                i <= ids.len(),
                out@ == self.model().controllers(ids@, i as nat),
            decreases ids.len() - i,
        {
            if let Some(o) = self.find_obj(ids[i]) {
                out.push(o.controller);
            }
            i = i + 1;
        }
        out
    }

    fn owners_of(&self, ids: &Vec<ObjectId>) -> (r: Vec<Seat>)
        ensures
            r@ == self.model().owners(ids@, ids@.len()),
    {
        let mut out: Vec<Seat> = Vec::new();
        let mut i: usize = 0;
        while i < ids.len()
            invariant
                i <= ids.len(),
                out@ == self.model().owners(ids@, i as nat),
            decreases ids.len() - i,
        {
            if let Some(o) = self.find_obj(ids[i]) {
                out.push(o.owner);
            }
            i = i + 1;
        }
        out
    }

    fn attachment_of(&self, ctx: &Ctx) -> (r: Option<ObjectId>)
        ensures
            r == self.model().attachment(ctx@),
    {
        match ctx.this {
            Some(t) => match self.find_obj(t) {
                Some(o) => o.attached_to,
                None => None,
            },
            None => None,
        }
    }

    fn has_own_keyword(&self, id: ObjectId, k: Keyword) -> (b: bool)
        ensures
            b == self.model().own_keyword(id, k),
    {
        match self.find_obj(id) {
            Some(o) => match self.find_card(o.card) {
                Some(d) => d.has_keyword(k) || modifiers_grant(&o.modifiers, k),
                None => false,
            },
            None => false,
        }
    }

    fn stats_alone(&self, id: ObjectId) -> (r: Option<(i32, i32)>)
        ensures
            r == self.model().own_stats(id),
    {
        match self.find_obj(id) {
            Some(o) => match self.find_card(o.card) {
                Some(d) => match d.pt {
                    Some(pt) => Some(stats_with(o, pt)),
                    None => None,
                },
                None => None,
            },
            None => None,
        }
    }

    fn any_life_at(&self, seats: &Vec<Seat>, at_least: bool, amount: i32) -> (b: bool)
        ensures
            b == self.model().any_life(seats@, at_least, amount, seats@.len()),
    {
        let mut b = false;
        let mut i: usize = 0;
        while i < seats.len()
            invariant
                i <= seats.len(),
                b == self.model().any_life(seats@, at_least, amount, i as nat),
            decreases seats.len() - i,
        {
            let x = match self.find_player(seats[i]) {
                Some(p) => if at_least {
                    p.life >= amount
                } else {
                    p.life <= amount
                },
                None => false,
            };
            b = b || x;
            i = i + 1;
        }
        b
    }

    // ----- the evaluation itself -----

    fn matches_at(&self, d: u64, id: ObjectId, filter: &Filter, ctx: &Ctx) -> (b: bool)
        ensures
            b == self.model().matches(d as nat, id, *filter, ctx@),
        decreases d, 0nat, *filter, 0nat,
    {
        let (o, def) = match self.find_obj(id) {
            Some(o) => match self.find_card(o.card) {
                Some(def) => (o, def),
                None => {
                    return false;
                },
            },
            None => {
                return false;
            },
        };
        match filter {
            Filter::Targets(_, f) => self.matches_at(d, id, &**f, ctx),
            Filter::Any => o.zone == Zone::Battlefield && (def.is_creature() || in_list(
                &def.types,
                CardType::Planeswalker,
            )),
            Filter::Creature => def.is_creature(),
            Filter::Land => def.is_land(),
            Filter::Artifact => in_list(&def.types, CardType::Artifact),
            Filter::Enchantment => in_list(&def.types, CardType::Enchantment),
            Filter::Instant => in_list(&def.types, CardType::Instant),
            Filter::Sorcery => in_list(&def.types, CardType::Sorcery),
            Filter::Permanent => o.zone == Zone::Battlefield || (o.zone == Zone::Graveyard
                && def.is_permanent()),
            Filter::InGraveyard(p) => o.zone == Zone::Graveyard && {
                let seats = self.seats_at(d, p, ctx);
                in_list(&seats, o.owner)
            },
            Filter::Player => false,
            Filter::Opponent => false,
            Filter::Spell => o.zone == Zone::Stack,
            Filter::Other => ctx.this != Some(id),
            Filter::This => ctx.this == Some(id),
            Filter::Attached => self.attachment_of(ctx) == Some(id),
            Filter::Token => def.token,
            Filter::Subtype(s) => subtype_listed(&def.subtypes, s.as_str()),
            Filter::Color(c) => in_list(&def.colors, *c),
            Filter::ControlledBy(p) => {
                let seats = self.seats_at(d, p, ctx);
                in_list(&seats, o.controller)
            },
            Filter::Tapped => o.tapped,
            Filter::Untapped => !o.tapped,
            Filter::Attacking => o.attacking.is_some(),
            Filter::Blocking => o.blocking.len() > 0,
            Filter::PowerAtLeast(n) => {
                let pt = if d > 0 {
                    self.stats_at(d - 1, id)
                } else {
                    self.stats_alone(id)
                };
                match pt {
                    Some((p, _)) => p >= *n,
                    None => false,
                }
            },
            Filter::PowerAtMost(n) => {
                let pt = if d > 0 {
                    self.stats_at(d - 1, id)
                } else {
                    self.stats_alone(id)
                };
                match pt {
                    Some((p, _)) => p <= *n,
                    None => false,
                }
            },
            Filter::ManaValueAtMost(n) => *n >= 0 && def.cost.mana_value() <= *n as u64,
            Filter::HasKeyword(k) => if d > 0 {
                self.keyword_at(d - 1, id, *k)
            } else {
                self.has_own_keyword(id, *k)
            },
            Filter::And(fs) => self.all_match_at(d, id, &**fs, ctx),
            Filter::Or(fs) => self.any_match_at(d, id, &**fs, ctx),
            Filter::Not(f) => !self.matches_at(d, id, &**f, ctx),
        }
    }

    fn all_match_at(&self, d: u64, id: ObjectId, fs: &Vec<Filter>, ctx: &Ctx) -> (b: bool)
        ensures
            b == self.model().all_match(d as nat, id, fs@, ctx@, fs@.len()),
        decreases d, 0nat, fs@, 0nat,
    {
        let mut b = true;
        let mut i: usize = 0;
        while i < fs.len()
            invariant
                i <= fs.len(),
                b == self.model().all_match(d as nat, id, fs@, ctx@, i as nat),
            decreases fs.len() - i,
        {
            if b {
                b = self.matches_at(d, id, &fs[i], ctx);
            }
            i = i + 1;
        }
        b
    }

    fn any_match_at(&self, d: u64, id: ObjectId, fs: &Vec<Filter>, ctx: &Ctx) -> (b: bool)
        ensures
            b == self.model().any_match(d as nat, id, fs@, ctx@, fs@.len()),
        decreases d, 0nat, fs@, 0nat,
    {
        let mut b = false;
        let mut i: usize = 0;
        while i < fs.len()
            invariant
                i <= fs.len(),
                b == self.model().any_match(d as nat, id, fs@, ctx@, i as nat),
            decreases fs.len() - i,
        {
            if !b {
                b = self.matches_at(d, id, &fs[i], ctx);
            }
            i = i + 1;
        }
        b
    }

    fn matching_at(&self, d: u64, ids: &Vec<ObjectId>, filter: &Filter, ctx: &Ctx) -> (r: Vec<
        ObjectId,
    >)
        ensures
            r@ == self.model().matching_ids(d as nat, ids@, *filter, ctx@, ids@.len()),
        decreases d, 0nat, *filter, 1nat,
    {
        let mut out: Vec<ObjectId> = Vec::new();
        let mut i: usize = 0;
        while i < ids.len()
            invariant
                i <= ids.len(),
                out@ == self.model().matching_ids(d as nat, ids@, *filter, ctx@, i as nat),
            decreases ids.len() - i,
        {
            if self.matches_at(d, ids[i], filter, ctx) {
                out.push(ids[i]);
            }
            i = i + 1;
        }
        out
    }

    fn seats_at(&self, d: u64, p: &PlayerRef, ctx: &Ctx) -> (r: Vec<Seat>)
        ensures
            r@ == self.model().players_at(d as nat, *p, ctx@),
        decreases d, 0nat, *p, 0nat,
    {
        if let Some(c) = ctx.chooser {
            if matches!(p, PlayerRef::EachOpponent | PlayerRef::EachPlayer) {
                return one(c);
            }
        }
        match p {
            PlayerRef::You => one(ctx.you),
            PlayerRef::TargetPlayer(i) => if (*i as usize) < ctx.targets.len() {
                target_players(&ctx.targets[*i as usize])
            } else {
                Vec::new()
            },
            PlayerRef::TargetOpponent(i) => if (*i as usize) < ctx.targets.len() {
                target_players(&ctx.targets[*i as usize])
            } else {
                Vec::new()
            },
            PlayerRef::EachOpponent => drop_value(&self.turn_order, ctx.you),
            PlayerRef::EachPlayer => copied(&self.turn_order),
            PlayerRef::Triggering => match ctx.triggering {
                Some(Target::Player(s)) => one(s),
                Some(Target::Object(o)) => match self.find_obj(o) {
                    Some(o) => one(o.controller),
                    None => Vec::new(),
                },
                None => Vec::new(),
            },
            PlayerRef::Controller(r) => {
                let ids = self.ids_at(d, &**r, ctx);
                self.controllers_of(&ids)
            },
            PlayerRef::Owner(r) => {
                let ids = self.ids_at(d, &**r, ctx);
                self.owners_of(&ids)
            },
        }
    }

    fn ids_at(&self, d: u64, r: &Ref, ctx: &Ctx) -> (ids: Vec<ObjectId>)
        ensures
            ids@ == self.model().objects_at(d as nat, *r, ctx@),
        decreases d, 0nat, *r, 0nat,
    {
        match r {
            Ref::Target(i) => if (*i as usize) < ctx.targets.len() {
                target_objects(&ctx.targets[*i as usize])
            } else {
                Vec::new()
            },
            Ref::This => match ctx.this {
                Some(t) => one(t),
                None => Vec::new(),
            },
            Ref::ExiledWithThis => match ctx.get_bound(Bind::Exiled) {
                Some(ts) => target_objects(ts),
                None => Vec::new(),
            },
            Ref::Triggering => match ctx.triggering {
                Some(Target::Object(id)) => one(id),
                _ => Vec::new(),
            },
            Ref::Each(f) => {
                let ids = self.candidate_ids(&**f);
                self.matching_at(d, &ids, &**f, ctx)
            },
            Ref::Player(_) => Vec::new(),
            Ref::Attached => match self.attachment_of(ctx) {
                Some(t) => one(t),
                None => Vec::new(),
            },
            Ref::Named(name) => match ctx.get_bound(*name) {
                Some(ts) => target_objects(ts),
                None => Vec::new(),
            },
            Ref::Chosen { .. } => Vec::new(),
        }
    }

    fn any_controls_at(
        &self,
        d: u64,
        seats: &Vec<Seat>,
        filter: &Filter,
        at_least: i32,
        ctx: &Ctx,
    ) -> (b: bool)
        ensures
            b == self.model().any_controls(
                d as nat,
                seats@,
                *filter,
                at_least,
                ctx@,
                seats@.len(),
            ),
        decreases d, 1nat, *filter, 0nat,
    {
        let mut b = false;
        let mut i: usize = 0;
        while i < seats.len()
            invariant
                i <= seats.len(),
                b == self.model().any_controls(d as nat, seats@, *filter, at_least, ctx@, i as nat),
            decreases seats.len() - i,
        {
            if !b {
                let sub = ctx.seen_by(seats[i]);
                let held = self.battlefield_of(seats[i]);
                let found = self.matching_at(d, &held, filter, &sub);
                b = clamp_len(found.len()) >= at_least;
            }
            i = i + 1;
        }
        b
    }

    fn holds_at(&self, d: u64, c: &Condition, ctx: &Ctx) -> (b: bool)
        ensures
            b == self.model().condition_at(d as nat, *c, ctx@),
        decreases d, 2nat, Filter::Any, 0nat,
    {
        match c {
            Condition::Controls { player, filter, at_least } => {
                let seats = self.seats_at(d, player, ctx);
                self.any_controls_at(d, &seats, filter, *at_least, ctx)
            },
            Condition::LifeAtLeast { player, amount } => {
                let seats = self.seats_at(d, player, ctx);
                self.any_life_at(&seats, true, *amount)
            },
            Condition::LifeAtMost { player, amount } => {
                let seats = self.seats_at(d, player, ctx);
                self.any_life_at(&seats, false, *amount)
            },
        }
    }

    fn value_at(&self, d: u64, a: &Amount, ctx: &Ctx) -> (n: i32)
        ensures
            n == self.model().amount_at(d as nat, *a, ctx@),
        decreases d, 1nat, *a, 0nat,
    {
        match a {
            Amount::Const(n) => *n,
            Amount::Count(f) => {
                let ids = self.battlefield_objects();
                let found = self.matching_at(d, &ids, f, ctx);
                clamp_len(found.len())
            },
            Amount::LifeOf(p) => {
                let seats = self.seats_at(d, p, ctx);
                if seats.len() > 0 {
                    self.life_of(seats[0])
                } else {
                    0
                }
            },
            Amount::PowerOf(r) => {
                let ids = self.ids_at(d, r, ctx);
                if ids.len() > 0 {
                    let pt = if d > 0 {
                        self.stats_at(d - 1, ids[0])
                    } else {
                        self.stats_alone(ids[0])
                    };
                    match pt {
                        Some((p, _)) => p,
                        None => 0,
                    }
                } else {
                    0
                }
            },
            Amount::X => ctx.x,
            Amount::Neg(b) => {
                let n: i32 = self.value_at(d, &**b, ctx);
                clamp_i64(-(n as i64))
            },
        }
    }

    fn statics_at(&self, d: u64) -> (r: Vec<(ObjectId, Static)>)
        ensures
            r@ == self.model().statics(d as nat),
        decreases d, 5nat, Filter::Any, 0nat,
    {
        let ids = self.battlefield_objects();
        let ghost g = self.model();
        let mut out: Vec<(ObjectId, Static)> = Vec::new();
        let mut i: usize = 0;
        while i < ids.len()
            invariant
                i <= ids.len(),
                g == self.model(),
                ids@ == g.on_battlefield(),
                out@ == g.statics_n(d as nat, i as nat),
            decreases ids.len() - i,
        {
            let id = ids[i];
            if let Some(o) = self.find_obj(id) {
                if let Some(def) = self.find_card(o.card) {
                    if !((def.is_aura() || def.is_equipment()) && o.attached_to.is_none()) {
                        let ghost start = out@;
                        let controller = o.controller;
                        let mut j: usize = 0;
                        while j < def.ir.statics.len()
                            invariant
                                j <= def.ir.statics.len(),
                                g == self.model(),
                                g.has_def(id),
                                def@ == g.def(id),
                                controller == g.obj(id).controller,
                                out@ == start + g.statics_of(d as nat, id, j as nat),
                            decreases def.ir.statics.len() - j,
                        {
                            match &def.ir.statics[j] {
                                Static::AsLongAs { condition, static_ } => {
                                    let ctx = Ctx::simple(controller, Some(id));
                                    if self.holds_at(d, condition, &ctx) {
                                        out.push((id, (**static_).clone()));
                                    }
                                },
                                s => {
                                    out.push((id, s.clone()));
                                },
                            }
                            j = j + 1;
                            assert(out@ =~= start + g.statics_of(d as nat, id, j as nat));
                        }
                    }
                }
            }
            i = i + 1;
        }
        out
    }

    fn static_ctx_of(&self, source: ObjectId) -> (r: Ctx)
        ensures
            r@ == self.model().static_ctx(source),
    {
        match self.find_obj(source) {
            Some(o) => Ctx::simple(o.controller, Some(source)),
            None => Ctx::simple(Seat(0), Some(source)),
        }
    }

    fn stats_at(&self, d: u64, id: ObjectId) -> (r: Option<(i32, i32)>)
        ensures
            r == self.model().stats(d as nat, id),
        decreases d, 7nat, Filter::Any, 0nat,
    {
        let (o, base) = match self.find_obj(id) {
            Some(o) => match self.find_card(o.card) {
                Some(def) => match def.pt {
                    Some(pt) => (o, pt),
                    None => {
                        return None;
                    },
                },
                None => {
                    return None;
                },
            },
            None => {
                return None;
            },
        };
        if o.zone != Zone::Battlefield {
            return Some(stats_with(o, base));
        }
        let ghost g = self.model();
        let mut p: i32 = base.0;
        let mut t: i32 = base.1;
        let ss = self.statics_at(d);
        let mut i: usize = 0;
        while i < ss.len()
            invariant
                i <= ss.len(),
                g == self.model(),
                ss@ == g.statics(d as nat),
                (p, t) == g.boosted(d as nat, id, ss@, base, i as nat),
            decreases ss.len() - i,
        {
            if let Static::PtBoost { filter, power, toughness, .. } = &ss[i].1 {
                let ctx = self.static_ctx_of(ss[i].0);
                if self.matches_at(d, id, filter, &ctx) {
                    p = add_i32(p, self.value_at(d, power, &ctx));
                    t = add_i32(t, self.value_at(d, toughness, &ctx));
                }
            }
            i = i + 1;
        }
        Some(stats_with(o, (p, t)))
    }

    fn granted_in(&self, d: u64, id: ObjectId, kw: Keyword, ss: &Vec<(ObjectId, Static)>) -> (b:
        bool)
        requires
            ss@ == self.model().statics(d as nat),
        ensures
            b == self.model().granted(d as nat, id, kw, ss@, ss@.len()),
        decreases d, 6nat, Filter::Any, 0nat,
    {
        let ghost g = self.model();
        let mut b = false;
        let mut i: usize = 0;
        while i < ss.len()
            invariant
                i <= ss.len(),
                g == self.model(),
                ss@ == g.statics(d as nat),
                b == g.granted(d as nat, id, kw, ss@, i as nat),
            decreases ss.len() - i,
        {
            if !b {
                match &ss[i].1 {
                    Static::PtBoost { filter, keywords, .. } => {
                        if has_word(&**keywords, kw) {
                            let ctx = self.static_ctx_of(ss[i].0);
                            b = self.matches_at(d, id, filter, &ctx);
                        }
                    },
                    Static::GrantKeyword { filter, keyword } => {
                        if *keyword == kw {
                            let ctx = self.static_ctx_of(ss[i].0);
                            b = self.matches_at(d, id, filter, &ctx);
                        }
                    },
                    _ => {},
                }
            }
            i = i + 1;
        }
        b
    }

    fn is_in_play(&self, id: ObjectId) -> (b: bool)
        ensures
            b == (self.model().has_def(id) && self.model().obj(id).zone == Zone::Battlefield),
    {
        match self.find_obj(id) {
            Some(o) => match self.find_card(o.card) {
                Some(_) => o.zone == Zone::Battlefield,
                None => false,
            },
            None => false,
        }
    }

    fn keyword_at(&self, d: u64, id: ObjectId, kw: Keyword) -> (b: bool)
        ensures
            b == self.model().keyword(d as nat, id, kw),
        decreases d, 7nat, Filter::Any, 0nat,
    {
        if self.has_own_keyword(id, kw) {
            return true;
        }
        if !self.is_in_play(id) {
            return false;
        }
        let ss = self.statics_at(d);
        self.granted_in(d, id, kw, &ss)
    }

    // ----- what the rest of the rules use -----

    fn looks(&self) -> (d: u64)
        ensures
            d == self.model().depth(),
            d < u64::MAX,
    {
        let most: usize = u32::MAX as usize;
        let n: usize = self.objects.items.len();
        if n <= most {
            n as u64 * ASPECTS
        } else {
            most as u64 * ASPECTS
        }
    }

    /// Effective power and toughness (layer 7 only): base, then static
    /// boosts from permanents on the battlefield, then counters and
    /// "until end of turn" modifiers. Recomputed on every call, never cached.
    /// `None` for non-creatures.
    pub fn effective_stats(&self, id: ObjectId) -> (r: Option<(i32, i32)>)
        ensures
            r == self.model().pt(id),
    {
        self.stats_at(self.looks(), id)
    }

    pub fn power(&self, id: ObjectId) -> (n: i32)
        ensures
            n == self.model().power(id),
    {
        match self.effective_stats(id) {
            Some((p, _)) => p,
            None => 0,
        }
    }

    pub fn toughness(&self, id: ObjectId) -> (n: i32)
        ensures
            n == self.model().toughness(id),
    {
        match self.effective_stats(id) {
            Some((_, t)) => t,
            None => 0,
        }
    }

    /// Does the object have the keyword right now: printed, granted by a
    /// static on the battlefield, or granted until end of turn?
    pub fn has_keyword(&self, id: ObjectId, kw: Keyword) -> (b: bool)
        ensures
            b == self.model().has_keyword(id, kw),
    {
        self.keyword_at(self.looks(), id, kw)
    }

    /// Every keyword the object has right now.
    pub fn keywords_of(&self, id: ObjectId) -> (r: Vec<Keyword>)
        ensures
            r@ == self.model().keywords_of(id),
    {
        let all = Keyword::all();
        let in_play = self.is_in_play(id);
        let ss = self.statics_at(self.looks());
        let mut out: Vec<Keyword> = Vec::new();
        let mut i: usize = 0;
        while i < all.len()
            invariant
                i <= all.len(),
                all@ == Keyword::every(),
                ss@ == self.model().statics(self.model().depth()),
                in_play == (self.model().has_def(id) && self.model().obj(id).zone
                    == Zone::Battlefield),
                out@ == self.model().keywords_n(id, i as nat),
            decreases all.len() - i,
        {
            if self.has_own_keyword(id, all[i]) || (in_play && self.granted_in(
                self.looks(),
                id,
                all[i],
                &ss,
            )) {
                out.push(all[i]);
            }
            i = i + 1;
        }
        out
    }

    /// The static abilities of every permanent on the battlefield, with their
    /// source. An aura or equipment's statics apply only while it is attached;
    /// a conditional static ("as long as ...") only while its condition holds.
    pub(crate) fn active_statics(&self) -> (r: Vec<(ObjectId, Static)>)
        ensures
            r@ == self.model().statics(self.model().depth()),
    {
        self.statics_at(self.looks())
    }

    /// Does an object on the battlefield (or on the stack, for spell filters) match?
    pub fn object_matches(&self, id: ObjectId, filter: &Filter, ctx: &Ctx) -> (b: bool)
        ensures
            b == self.model().object_matches(id, *filter, ctx@),
    {
        self.matches_at(self.looks() + 1, id, filter, ctx)
    }

    /// Those of the ids that match.
    pub(crate) fn matching(&self, ids: &Vec<ObjectId>, filter: &Filter, ctx: &Ctx) -> (r: Vec<
        ObjectId,
    >)
        ensures
            r@ == self.model().matching(ids@, *filter, ctx@),
    {
        self.matching_at(self.looks() + 1, ids, filter, ctx)
    }

    /// The players a `PlayerRef` denotes right now.
    pub fn players_of(&self, p: &PlayerRef, ctx: &Ctx) -> (r: Vec<Seat>)
        ensures
            r@ == self.model().players_of(*p, ctx@),
    {
        self.seats_at(self.looks() + 1, p, ctx)
    }

    /// The objects a `Ref` denotes right now (players are handled separately).
    pub fn objects_of(&self, r: &Ref, ctx: &Ctx) -> (ids: Vec<ObjectId>)
        ensures
            ids@ == self.model().objects_of(*r, ctx@),
    {
        self.ids_at(self.looks() + 1, r, ctx)
    }

    /// Whether a condition ("if you control an Elf") holds right now.
    pub fn condition_holds(&self, c: &Condition, ctx: &Ctx) -> (b: bool)
        ensures
            b == self.model().condition(*c, ctx@),
    {
        self.holds_at(self.looks() + 1, c, ctx)
    }

    pub fn eval_amount(&self, a: &Amount, ctx: &Ctx) -> (n: i32)
        ensures
            n == self.model().amount(*a, ctx@),
    {
        self.value_at(self.looks() + 1, a, ctx)
    }

    /// Does a card being cast (still in hand) match a spell filter? Like
    /// `object_matches`, but `Spell` is true for it wherever it is.
    pub fn spell_matches(&self, id: ObjectId, filter: &Filter, ctx: &Ctx) -> (b: bool)
        ensures
            b == self.model().spell_matches(id, *filter, ctx@),
        decreases *filter, 0nat,
    {
        match filter {
            Filter::Targets(_, f) => self.spell_matches(id, &**f, ctx),
            Filter::Spell => true,
            Filter::And(fs) => self.all_spell_match_in(id, &**fs, ctx),
            Filter::Or(fs) => self.any_spell_match_in(id, &**fs, ctx),
            Filter::Not(f) => !self.spell_matches(id, &**f, ctx),
            other => self.object_matches(id, other, ctx),
        }
    }

    fn all_spell_match_in(&self, id: ObjectId, fs: &Vec<Filter>, ctx: &Ctx) -> (b: bool)
        ensures
            b == self.model().all_spell_match(id, fs@, ctx@, fs@.len()),
        decreases fs@, 0nat,
    {
        let mut b = true;
        let mut i: usize = 0;
        while i < fs.len()
            invariant
                i <= fs.len(),
                b == self.model().all_spell_match(id, fs@, ctx@, i as nat),
            decreases fs.len() - i,
        {
            if b {
                b = self.spell_matches(id, &fs[i], ctx);
            }
            i = i + 1;
        }
        b
    }

    fn any_spell_match_in(&self, id: ObjectId, fs: &Vec<Filter>, ctx: &Ctx) -> (b: bool)
        ensures
            b == self.model().any_spell_match(id, fs@, ctx@, fs@.len()),
        decreases fs@, 0nat,
    {
        let mut b = false;
        let mut i: usize = 0;
        while i < fs.len()
            invariant
                i <= fs.len(),
                b == self.model().any_spell_match(id, fs@, ctx@, i as nat),
            decreases fs.len() - i,
        {
            if !b {
                b = self.spell_matches(id, &fs[i], ctx);
            }
            i = i + 1;
        }
        b
    }

    /// Does a player match a player-capable filter?
    pub fn player_matches(&self, seat: Seat, filter: &Filter, ctx: &Ctx) -> (b: bool)
        ensures
            b == self.model().player_matches(seat, *filter, ctx@),
        decreases *filter, 0nat,
    {
        if !self.is_in_game(seat) {
            return false;
        }
        match filter {
            Filter::Targets(_, f) => self.player_matches(seat, &**f, ctx),
            Filter::Any => true,
            Filter::Player => true,
            Filter::Opponent => seat != ctx.you,
            Filter::ControlledBy(p) => {
                let seats = self.players_of(p, ctx);
                in_list(&seats, seat)
            },
            Filter::And(fs) => self.all_players_match_in(seat, &**fs, ctx),
            Filter::Or(fs) => self.any_player_matches_in(seat, &**fs, ctx),
            Filter::Not(f) => !self.player_matches(seat, &**f, ctx),
            _ => false,
        }
    }

    fn all_players_match_in(&self, seat: Seat, fs: &Vec<Filter>, ctx: &Ctx) -> (b: bool)
        ensures
            b == self.model().all_players_match(seat, fs@, ctx@, fs@.len()),
        decreases fs@, 0nat,
    {
        let mut b = true;
        let mut i: usize = 0;
        while i < fs.len()
            invariant
                i <= fs.len(),
                b == self.model().all_players_match(seat, fs@, ctx@, i as nat),
            decreases fs.len() - i,
        {
            if b {
                b = self.player_matches(seat, &fs[i], ctx);
            }
            i = i + 1;
        }
        b
    }

    fn any_player_matches_in(&self, seat: Seat, fs: &Vec<Filter>, ctx: &Ctx) -> (b: bool)
        ensures
            b == self.model().any_player_matches(seat, fs@, ctx@, fs@.len()),
        decreases fs@, 0nat,
    {
        let mut b = false;
        let mut i: usize = 0;
        while i < fs.len()
            invariant
                i <= fs.len(),
                b == self.model().any_player_matches(seat, fs@, ctx@, i as nat),
            decreases fs.len() - i,
        {
            if !b {
                b = self.player_matches(seat, &fs[i], ctx);
            }
            i = i + 1;
        }
        b
    }

    /// Hexproof: an opponent's spells and abilities can't target it.
    pub fn can_target(&self, id: ObjectId, by: Seat) -> (b: bool)
        ensures
            b == self.model().can_target(id, by),
    {
        match self.find_obj(id) {
            Some(o) => !(o.zone == Zone::Battlefield && self.has_keyword(id, Keyword::Hexproof)
                && o.controller != by),
            None => false,
        }
    }

    fn player_targets(&self, filter: &Filter, ctx: &Ctx) -> (r: Vec<Target>)
        ensures
            r@ == self.model().player_picks(*filter, ctx@, self.model().turn_order.len()),
    {
        let mut out: Vec<Target> = Vec::new();
        let mut i: usize = 0;
        while i < self.turn_order.len()
            invariant
                i <= self.turn_order.len(),
                out@ == self.model().player_picks(*filter, ctx@, i as nat),
            decreases self.turn_order.len() - i,
        {
            if self.player_matches(self.turn_order[i], filter, ctx) {
                out.push(Target::Player(self.turn_order[i]));
            }
            i = i + 1;
        }
        out
    }

    fn admitted(&self, filter: &Filter, ctx: &Ctx, targeted: bool) -> (r: Vec<Target>)
        ensures
            r@ == self.model().picks(*filter, ctx@, targeted),
    {
        let mut out: Vec<Target> = Vec::new();
        if Game::filter_admits_objects(filter) {
            let ids = self.candidate_ids(filter);
            let mut i: usize = 0;
            while i < ids.len()
                invariant
                    i <= ids.len(),
                    out@ == self.model().object_picks(ids@, *filter, ctx@, targeted, i as nat),
                decreases ids.len() - i,
            {
                if self.object_matches(ids[i], filter, ctx) && (!targeted || self.can_target(
                    ids[i],
                    ctx.you,
                )) {
                    out.push(Target::Object(ids[i]));
                }
                i = i + 1;
            }
        }
        if Game::filter_admits_players(filter) {
            let seats = self.player_targets(filter, ctx);
            extend(&mut out, &seats);
        }
        out
    }

    /// Every legal target for a filter right now, as chosen by `ctx.you`:
    /// objects in the filter's zone (hexproof excludes opponents' spells) and players.
    pub fn targets_for(&self, filter: &Filter, ctx: &Ctx) -> (r: Vec<Target>)
        ensures
            r@ == self.model().targets_for(*filter, ctx@),
    {
        self.admitted(filter, ctx, true)
    }

    /// Everything a filter admits right now for a choice that does not target
    /// ("a creature you control"): like `targets_for`, but hexproof is no bar.
    pub fn choosable(&self, filter: &Filter, ctx: &Ctx) -> (r: Vec<Target>)
        ensures
            r@ == self.model().choosable(*filter, ctx@),
    {
        self.admitted(filter, ctx, false)
    }

    /// Is a chosen target still legal for its filter?
    pub fn target_is_legal(&self, target: Target, filter: &Filter, ctx: &Ctx) -> (b: bool)
        ensures
            b == self.model().target_is_legal(target, *filter, ctx@),
    {
        match target {
            Target::Object(id) => self.is_in(id, Game::filter_zone(filter)) && self.object_matches(
                id,
                filter,
                ctx,
            ) && self.can_target(id, ctx.you),
            Target::Player(s) => self.player_matches(s, filter, ctx),
        }
    }

    /// Everything a `Ref` denotes: objects and players.
    pub fn refs_of(&self, r: &Ref, ctx: &Ctx) -> (ts: Vec<Target>)
        ensures
            ts@ == self.model().refs_of(*r, ctx@),
    {
        match r {
            Ref::Target(i) => if (*i as usize) < ctx.targets.len() {
                copied(&ctx.targets[*i as usize])
            } else {
                Vec::new()
            },
            Ref::Player(p) => {
                let seats = self.players_of(p, ctx);
                players_as_targets(&seats)
            },
            Ref::Triggering => match ctx.triggering {
                Some(t) => one(t),
                None => Vec::new(),
            },
            Ref::Named(name) => match ctx.get_bound(*name) {
                Some(ts) => copied(ts),
                None => Vec::new(),
            },
            Ref::Each(f) => {
                let ids = self.objects_of(r, ctx);
                let mut out = ids_as_targets(&ids);
                if Game::filter_admits_players(&**f) {
                    let seats = self.player_targets(&**f, ctx);
                    extend(&mut out, &seats);
                }
                out
            },
            other => {
                let ids = self.objects_of(other, ctx);
                ids_as_targets(&ids)
            },
        }
    }
}

} // verus!
