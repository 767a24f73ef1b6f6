//! What a game in progress consists of, as executable data and as the
//! mathematical values the rules are stated over.
use crate::action::{Action, ActionModel, AttackTarget, DamageTarget, Target};
use crate::card::{CardDb, CardDef, CardId, CardModel};
use crate::dice::Dice;
use crate::event::{Elimination, Event, EventFacts, Outcome};
use crate::format::Format;
use crate::ir::{Bind, DelayedAt, Duration, Effect, Filter, Restriction};
use crate::seqs::{copied, copied_lists, group_views, views};
use crate::types::{Keyword, ManaPool, ObjectId, Phase, Seat, Zone};
use std::sync::Arc;
use vstd::prelude::*;

verus! {

broadcast use group_views;

/// Why a seat must act right now. Computed once by the engine and carried
/// unchanged to everyone who shows it.
#[derive(Copy, Clone, Debug, PartialEq, Eq, PartialOrd, Ord, Hash, Structural)]
pub enum ActReason {
    Priority,
    DeclareAttackers,
    DeclareBlockers,
    AssignDamage,
    Mulligan,
    BottomCards,
    Discard,
    Choice,
}

impl ActReason {
    pub open spec fn words(self) -> Seq<char> {
        match self {
            ActReason::Priority => "Priority"@,
            ActReason::DeclareAttackers => "DeclareAttackers"@,
            ActReason::DeclareBlockers => "DeclareBlockers"@,
            ActReason::AssignDamage => "AssignDamage"@,
            ActReason::Mulligan => "Mulligan"@,
            ActReason::BottomCards => "BottomCards"@,
            ActReason::Discard => "Discard"@,
            ActReason::Choice => "Choice"@,
        }
    }

    pub fn name(self) -> (r: &'static str)
        ensures
            r@ == self.words(),
    {
        match self {
            ActReason::Priority => "Priority",
            ActReason::DeclareAttackers => "DeclareAttackers",
            ActReason::DeclareBlockers => "DeclareBlockers",
            ActReason::AssignDamage => "AssignDamage",
            ActReason::Mulligan => "Mulligan",
            ActReason::BottomCards => "BottomCards",
            ActReason::Discard => "Discard",
            ActReason::Choice => "Choice",
        }
    }
}

// ----- what a filter is evaluated relative to -----

/// A name and what was picked under it.
#[derive(Debug, PartialEq, Eq)]
pub struct Binding {
    pub name: Bind,
    pub picks: Vec<Target>,
}

/// A name and what was picked under it, as a mathematical value.
#[verifier::ext_equal]
pub ghost struct BindingModel {
    pub name: Bind,
    pub picks: Seq<Target>,
}

impl View for Binding {
    type V = BindingModel;

    open spec fn view(&self) -> BindingModel {
        BindingModel { name: self.name, picks: self.picks@ }
    }
}

/// What a filter is evaluated relative to.
#[derive(Debug, PartialEq, Eq)]
pub struct Ctx {
    /// The controller of the spell or ability ("you").
    pub you: Seat,
    /// The source object, if any ("~", "this").
    pub this: Option<ObjectId>,
    /// Chosen targets, grouped by target spec: `Target(i)` is everything
    /// picked for the i-th "target" word (several things for "up to two
    /// target creatures"), with illegal ones already pruned at resolution.
    pub targets: Vec<Vec<Target>>,
    /// The object or player that caused a trigger.
    pub triggering: Option<Target>,
    /// What each `Chosen ... bind` picked as the effect resolved, by name.
    /// Every name occurs once.
    pub bindings: Vec<Binding>,
    /// Options picked by index ("you may": 0 did it, 1 declined), by name.
    /// Every name occurs once.
    pub options: Vec<(Bind, u8)>,
    /// The value announced for `{X}` when this was cast or activated.
    pub x: i32,
    /// While one player of an "each opponent may" decides and acts, the
    /// effects run for that player alone.
    pub chooser: Option<Seat>,
}

/// A context as a mathematical value.
#[verifier::ext_equal]
pub ghost struct CtxModel {
    pub you: Seat,
    pub this: Option<ObjectId>,
    pub targets: Seq<Seq<Target>>,
    pub triggering: Option<Target>,
    pub bindings: Seq<BindingModel>,
    pub options: Seq<(Bind, u8)>,
    pub x: i32,
    pub chooser: Option<Seat>,
}

impl View for Ctx {
    type V = CtxModel;

    open spec fn view(&self) -> CtxModel {
        CtxModel {
            you: self.you,
            this: self.this,
            targets: views(self.targets@),
            triggering: self.triggering,
            bindings: views(self.bindings@),
            options: self.options@,
            x: self.x,
            chooser: self.chooser,
        }
    }
}

/// The index of the first binding of a name, from `i` on.
pub open spec fn binding_at(bs: Seq<BindingModel>, name: Bind, i: nat) -> Option<nat>
    decreases bs.len() - i,
{
    if i >= bs.len() {
        None
    } else if bs[i as int].name == name {
        Some(i)
    } else {
        binding_at(bs, name, i + 1)
    }
}

/// The index of the first option of a name, from `i` on.
pub open spec fn option_at(os: Seq<(Bind, u8)>, name: Bind, i: nat) -> Option<nat>
    decreases os.len() - i,
{
    if i >= os.len() {
        None
    } else if os[i as int].0 == name {
        Some(i)
    } else {
        option_at(os, name, i + 1)
    }
}

impl CtxModel {
    pub open spec fn simple(you: Seat, this: Option<ObjectId>) -> CtxModel {
        CtxModel::fresh(you, this, Seq::empty(), None)
    }

    pub open spec fn fresh(
        you: Seat,
        this: Option<ObjectId>,
        targets: Seq<Seq<Target>>,
        triggering: Option<Target>,
    ) -> CtxModel {
        CtxModel {
            you,
            this,
            targets,
            triggering,
            bindings: Seq::empty(),
            options: Seq::empty(),
            x: 0,
            chooser: None,
        }
    }

    /// The same context with another player as "you".
    pub open spec fn as_seen_by(self, seat: Seat) -> CtxModel {
        CtxModel { you: seat, ..self }
    }

    /// What was picked under a name.
    pub open spec fn bound(self, name: Bind) -> Option<Seq<Target>> {
        match binding_at(self.bindings, name, 0) {
            Some(i) => Some(self.bindings[i as int].picks),
            None => None,
        }
    }

    /// Remember a pick under a name, in place of what the name held.
    pub open spec fn binding(self, name: Bind, picks: Seq<Target>) -> CtxModel {
        let b = BindingModel { name, picks };
        CtxModel {
            bindings: match binding_at(self.bindings, name, 0) {
                Some(i) => self.bindings.update(i as int, b),
                None => self.bindings.push(b),
            },
            ..self
        }
    }

    /// The option picked under a name.
    pub open spec fn opted(self, name: Bind) -> Option<u8> {
        match option_at(self.options, name, 0) {
            Some(i) => Some(self.options[i as int].1),
            None => None,
        }
    }

    /// Remember an option under a name, in place of what the name held.
    pub open spec fn opting(self, name: Bind, option: u8) -> CtxModel {
        CtxModel {
            options: match option_at(self.options, name, 0) {
                Some(i) => self.options.update(i as int, (name, option)),
                None => self.options.push((name, option)),
            },
            ..self
        }
    }
}

impl Clone for Ctx {
    fn clone(&self) -> (r: Ctx)
        ensures
            r@ == self@,
    {
        let mut bindings: Vec<Binding> = Vec::new();
        let mut i: usize = 0;
        while i < self.bindings.len()
            invariant
                i <= self.bindings.len(),
                views(bindings@) == views(self.bindings@).subrange(0, i as int),
            decreases self.bindings.len() - i,
        {
            let b = &self.bindings[i];
            bindings.push(Binding { name: b.name, picks: copied(&b.picks) });
            i = i + 1;
            assert(views(self.bindings@).subrange(0, i as int) =~= views(self.bindings@).subrange(
                0,
                i - 1,
            ).push(views(self.bindings@)[i - 1]));
        }
        assert(views(self.bindings@).subrange(0, self.bindings@.len() as int) =~= views(
            self.bindings@,
        ));
        Ctx {
            you: self.you,
            this: self.this,
            targets: copied_lists(&self.targets),
            triggering: self.triggering,
            bindings,
            options: copied(&self.options),
            x: self.x,
            chooser: self.chooser,
        }
    }
}

/// A `u32` as an `i32`, clamped.
pub open spec fn x_value(x: u32) -> i32 {
    if x > i32::MAX {
        i32::MAX
    } else {
        x as i32
    }
}

impl Ctx {
    pub fn simple(you: Seat, this: Option<ObjectId>) -> (r: Ctx)
        ensures
            r@ == CtxModel::simple(you, this),
    {
        Ctx::new(you, this, Vec::new(), None)
    }

    pub fn new(
        you: Seat,
        this: Option<ObjectId>,
        targets: Vec<Vec<Target>>,
        triggering: Option<Target>,
    ) -> (r: Ctx)
        ensures
            r@ == CtxModel::fresh(you, this, views(targets@), triggering),
    {
        Ctx {
            you,
            this,
            targets,
            triggering,
            bindings: Vec::new(),
            options: Vec::new(),
            x: 0,
            chooser: None,
        }
    }

    /// The same context with a value for `{X}`.
    pub fn with_x(self, x: u32) -> (r: Ctx)
        ensures
            r@ == (CtxModel { x: x_value(x), ..self@ }),
    {
        let mut r = self;
        r.x = if x > 0x7fff_ffff {
            0x7fff_ffff
        } else {
            x as i32
        };
        r
    }

    /// The same context with another player as "you".
    pub fn seen_by(&self, seat: Seat) -> (r: Ctx)
        ensures
            r@ == self@.as_seen_by(seat),
    {
        let mut r = self.clone();
        r.you = seat;
        r
    }

    /// What was picked under a name.
    pub fn get_bound(&self, name: Bind) -> (r: Option<&Vec<Target>>)
        ensures
            match r {
                Some(v) => self@.bound(name) == Some(v@),
                None => self@.bound(name) is None,
            },
    {
        let mut i: usize = 0;
        while i < self.bindings.len()
            invariant
                i <= self.bindings.len(),
                binding_at(self@.bindings, name, 0) == binding_at(self@.bindings, name, i as nat),
            decreases self.bindings.len() - i,
        {
            if self.bindings[i].name == name {
                return Some(&self.bindings[i].picks);
            }
            i = i + 1;
        }
        None
    }

    /// Remember a pick under a name, in place of what the name held.
    pub fn bind(&mut self, name: Bind, picks: Vec<Target>)
        ensures
            final(self)@ == old(self)@.binding(name, picks@),
    {
        let mut i: usize = 0;
        while i < self.bindings.len()
            invariant
                i <= self.bindings.len(),
                binding_at(self@.bindings, name, 0) == binding_at(self@.bindings, name, i as nat),
                *self == *old(self),
            decreases self.bindings.len() - i,
        {
            if self.bindings[i].name == name {
                self.bindings.set(i, Binding { name, picks });
                return ;
            }
            i = i + 1;
        }
        self.bindings.push(Binding { name, picks });
    }

    /// The option picked under a name.
    pub fn get_option(&self, name: Bind) -> (r: Option<u8>)
        ensures
            r == self@.opted(name),
    {
        let mut i: usize = 0;
        while i < self.options.len()
            invariant
                i <= self.options.len(),
                option_at(self@.options, name, 0) == option_at(self@.options, name, i as nat),
            decreases self.options.len() - i,
        {
            if self.options[i].0 == name {
                return Some(self.options[i].1);
            }
            i = i + 1;
        }
        None
    }

    /// Remember an option under a name, in place of what the name held.
    pub fn opt(&mut self, name: Bind, option: u8)
        ensures
            final(self)@ == old(self)@.opting(name, option),
    {
        let mut i: usize = 0;
        while i < self.options.len()
            invariant
                i <= self.options.len(),
                option_at(self@.options, name, 0) == option_at(self@.options, name, i as nat),
                *self == *old(self),
            decreases self.options.len() - i,
        {
            if self.options[i].0 == name {
                self.options.set(i, (name, option));
                return ;
            }
            i = i + 1;
        }
        self.options.push((name, option));
    }
}

// ----- resolutions in progress -----

/// One step of work a resolution still has to do. Frames are pushed as an
/// effect unfolds (a `Sequence` becomes an `Effects` frame, "each player
/// discards" becomes a `Discard` frame over the remaining seats) and popped
/// as they finish, so pausing at any depth loses nothing.
#[derive(Debug, PartialEq, Eq)]
#[allow(inconsistent_fields)]
pub enum Frame {
    /// Run `effects` in order; `next` is the index of the one to run next.
    Effects { effects: Arc<Vec<Effect>>, next: usize },
    /// Ask `seat` to pick between `min` and `max` of `options`; what they
    /// pick is bound to `bind`. Decided on the spot when there is no choice.
    Choose {
        seat: Seat,
        options: Vec<Target>,
        min: usize,
        max: usize,
        /// The verb, for menus: "Sacrifice", "Discard", "Return".
        prompt: String,
        reason: ActReason,
        bind: Bind,
    },
    /// Ask `seat` to pick one of `labels`; the index is stored under `bind`.
    ChooseOption { seat: Seat, labels: Vec<String>, bind: Bind },
    /// Continue with the branch whose index is stored under `bind`.
    Branch { bind: Bind, branches: Vec<Arc<Vec<Effect>>> },
    /// Each of `seats`, in order, discards `count` cards (at random, or by choice).
    Discard { seats: Vec<Seat>, count: i32, random: bool },
    /// Each of `seats`, in order, sacrifices `count` permanents matching `filter`.
    Sacrifice { seats: Vec<Seat>, filter: Filter, count: i32 },
    /// Sacrifice what `bind` holds (the answer to a `Choose`).
    SacrificeBound { seat: Seat, bind: Bind },
    /// Discard what `bind` holds.
    DiscardBound { seat: Seat, bind: Bind },
    /// What follows refers to these targets (the next mode of a modal spell).
    Targets { groups: Vec<Vec<Target>> },
}

/// A frame as a mathematical value.
#[verifier::ext_equal]
#[allow(inconsistent_fields)]
pub ghost enum FrameModel {
    Effects { effects: Seq<Effect>, next: nat },
    Choose {
        seat: Seat,
        options: Seq<Target>,
        min: nat,
        max: nat,
        prompt: Seq<char>,
        reason: ActReason,
        bind: Bind,
    },
    ChooseOption { seat: Seat, labels: Seq<Seq<char>>, bind: Bind },
    Branch { bind: Bind, branches: Seq<Seq<Effect>> },
    Discard { seats: Seq<Seat>, count: i32, random: bool },
    Sacrifice { seats: Seq<Seat>, filter: Filter, count: i32 },
    SacrificeBound { seat: Seat, bind: Bind },
    DiscardBound { seat: Seat, bind: Bind },
    Targets { groups: Seq<Seq<Target>> },
}

pub open spec fn branch_views(s: Seq<Arc<Vec<Effect>>>) -> Seq<Seq<Effect>> {
    Seq::new(s.len(), |i: int| s[i]@)
}

impl View for Frame {
    type V = FrameModel;

    open spec fn view(&self) -> FrameModel {
        match self {
            Frame::Effects { effects, next } => FrameModel::Effects {
                effects: effects@,
                next: *next as nat,
            },
            Frame::Choose { seat, options, min, max, prompt, reason, bind } => FrameModel::Choose {
                seat: *seat,
                options: options@,
                min: *min as nat,
                max: *max as nat,
                prompt: prompt@,
                reason: *reason,
                bind: *bind,
            },
            Frame::ChooseOption { seat, labels, bind } => FrameModel::ChooseOption {
                seat: *seat,
                labels: views(labels@),
                bind: *bind,
            },
            Frame::Branch { bind, branches } => FrameModel::Branch {
                bind: *bind,
                branches: branch_views(branches@),
            },
            Frame::Discard { seats, count, random } => FrameModel::Discard {
                seats: seats@,
                count: *count,
                random: *random,
            },
            Frame::Sacrifice { seats, filter, count } => FrameModel::Sacrifice {
                seats: seats@,
                filter: *filter,
                count: *count,
            },
            Frame::SacrificeBound { seat, bind } => FrameModel::SacrificeBound {
                seat: *seat,
                bind: *bind,
            },
            Frame::DiscardBound { seat, bind } => FrameModel::DiscardBound {
                seat: *seat,
                bind: *bind,
            },
            Frame::Targets { groups } => FrameModel::Targets { groups: views(groups@) },
        }
    }
}

/// A resolution in progress: what it is evaluating relative to, and the
/// frames still to run (top of the stack last). Stored inside a
/// `PendingChoice` while a player decides, and picked up again afterwards.
#[derive(Debug, PartialEq, Eq)]
pub struct Continuation {
    pub ctx: Ctx,
    /// The target filters the effects were written against.
    pub specs: Vec<Filter>,
    pub frames: Vec<Frame>,
}

/// A continuation as a mathematical value.
#[verifier::ext_equal]
pub ghost struct ContModel {
    pub ctx: CtxModel,
    pub specs: Seq<Filter>,
    pub frames: Seq<FrameModel>,
}

impl View for Continuation {
    type V = ContModel;

    open spec fn view(&self) -> ContModel {
        ContModel { ctx: self.ctx@, specs: self.specs@, frames: views(self.frames@) }
    }
}

impl ContModel {
    pub open spec fn fresh(ctx: CtxModel, specs: Seq<Filter>, effects: Seq<Effect>) -> ContModel {
        ContModel { ctx, specs, frames: seq![FrameModel::Effects { effects, next: 0 }] }
    }
}

impl Continuation {
    /// Run `effects` in order under `ctx`.
    pub fn new(ctx: Ctx, specs: Vec<Filter>, effects: Arc<Vec<Effect>>) -> (r: Continuation)
        ensures
            r@ == ContModel::fresh(ctx@, specs@, effects@),
    {
        let mut frames: Vec<Frame> = Vec::new();
        frames.push(Frame::Effects { effects, next: 0 });
        assert(views(frames@) =~= seq![FrameModel::Effects { effects: effects@, next: 0 }]);
        Continuation { ctx, specs, frames }
    }
}

// ----- triggers waiting for the stack -----

/// Which ability of the source fired.
#[derive(Debug, PartialEq, Eq)]
pub enum FiredKind {
    /// Index into the source's `triggers`.
    Card(u8),
    Prowess,
    /// A delayed trigger: effects to run under the context they were created in.
    Delayed { effects: Arc<Vec<Effect>>, ctx: Ctx },
}

#[verifier::ext_equal]
pub ghost enum FiredKindModel {
    Card(u8),
    Prowess,
    Delayed { effects: Seq<Effect>, ctx: CtxModel },
}

impl View for FiredKind {
    type V = FiredKindModel;

    open spec fn view(&self) -> FiredKindModel {
        match self {
            FiredKind::Card(i) => FiredKindModel::Card(*i),
            FiredKind::Prowess => FiredKindModel::Prowess,
            FiredKind::Delayed { effects, ctx } => FiredKindModel::Delayed {
                effects: effects@,
                ctx: ctx@,
            },
        }
    }
}

/// A trigger that has fired but is not yet on the stack.
#[derive(Debug, PartialEq, Eq)]
pub struct FiredTrigger {
    pub source: ObjectId,
    pub controller: Seat,
    pub kind: FiredKind,
    pub triggering: Option<Target>,
}

/// A fired trigger as a mathematical value.
#[verifier::ext_equal]
pub ghost struct FiredModel {
    pub source: ObjectId,
    pub controller: Seat,
    pub kind: FiredKindModel,
    pub triggering: Option<Target>,
}

impl View for FiredTrigger {
    type V = FiredModel;

    open spec fn view(&self) -> FiredModel {
        FiredModel {
            source: self.source,
            controller: self.controller,
            kind: self.kind@,
            triggering: self.triggering,
        }
    }
}

/// A trigger an effect set up for later.
#[derive(Debug, PartialEq, Eq)]
pub struct DelayedTrigger {
    pub at: DelayedAt,
    pub source: ObjectId,
    pub controller: Seat,
    pub ctx: Ctx,
    pub effects: Arc<Vec<Effect>>,
}

/// A delayed trigger as a mathematical value.
#[verifier::ext_equal]
pub ghost struct DelayedModel {
    pub at: DelayedAt,
    pub source: ObjectId,
    pub controller: Seat,
    pub ctx: CtxModel,
    pub effects: Seq<Effect>,
}

impl View for DelayedTrigger {
    type V = DelayedModel;

    open spec fn view(&self) -> DelayedModel {
        DelayedModel {
            at: self.at,
            source: self.source,
            controller: self.controller,
            ctx: self.ctx@,
            effects: self.effects@,
        }
    }
}

// ----- decisions -----

/// A decision the game is waiting on that is not "someone has priority".
#[derive(Debug, PartialEq, Eq)]
#[allow(inconsistent_fields)]
pub enum PendingChoice {
    Mulligan { seat: Seat },
    BottomCards { seat: Seat, count: u8 },
    DeclareAttackers { seat: Seat },
    /// `seat` declares now; `remaining` declare afterwards, in APNAP order.
    DeclareBlockers { seat: Seat, remaining: Vec<Seat> },
    /// `attacker` needs a damage division now; `queue` holds the rest.
    AssignDamage { seat: Seat, attacker: ObjectId, queue: Vec<ObjectId> },
    /// Cleanup-step hand size.
    Discard { seat: Seat, count: u8 },
    /// A trigger needs targets before it goes on the stack.
    ChooseTargets { seat: Seat, specs: Vec<Filter>, trigger: FiredTrigger },
    /// A resolving effect asks `seat` to pick between `min` and `max` of
    /// `options` (what to sacrifice, discard, return, ...). Answered with
    /// `ChooseTargets`; the pick is bound to `bind` and the resolution continues.
    Choose {
        seat: Seat,
        options: Vec<Target>,
        min: usize,
        max: usize,
        /// The verb, for menus: "Sacrifice", "Discard", "Return".
        prompt: String,
        reason: ActReason,
        bind: Bind,
        resume: Continuation,
    },
    /// A resolving effect asks `seat` to pick one of `labels` ("you may":
    /// do it, or don't). Answered with `ChooseMode`.
    ChooseOption { seat: Seat, labels: Vec<String>, bind: Bind, resume: Continuation },
    /// `seat` is casting `object` in steps: mana is paid; modes (answered
    /// with `ChooseMode`) and then each target spec (answered with
    /// `ChooseTargets`) are still being chosen. The card is still in hand.
    Casting {
        seat: Seat,
        object: ObjectId,
        /// Modes chosen so far, in order.
        modes: Vec<u8>,
        /// "One or both": the caster said they are done choosing modes.
        modes_done: bool,
        /// Targets chosen so far, flat, in spec order.
        targets: Vec<Target>,
        /// Index of the next spec to choose for.
        spec: usize,
        /// The value announced for `{X}`.
        x: u32,
    },
}

/// A pending decision as a mathematical value.
#[verifier::ext_equal]
#[allow(inconsistent_fields)]
pub ghost enum PendingModel {
    Mulligan { seat: Seat },
    BottomCards { seat: Seat, count: u8 },
    DeclareAttackers { seat: Seat },
    DeclareBlockers { seat: Seat, remaining: Seq<Seat> },
    AssignDamage { seat: Seat, attacker: ObjectId, queue: Seq<ObjectId> },
    Discard { seat: Seat, count: u8 },
    ChooseTargets { seat: Seat, specs: Seq<Filter>, trigger: FiredModel },
    Choose {
        seat: Seat,
        options: Seq<Target>,
        min: nat,
        max: nat,
        prompt: Seq<char>,
        reason: ActReason,
        bind: Bind,
        resume: ContModel,
    },
    ChooseOption { seat: Seat, labels: Seq<Seq<char>>, bind: Bind, resume: ContModel },
    Casting {
        seat: Seat,
        object: ObjectId,
        modes: Seq<u8>,
        modes_done: bool,
        targets: Seq<Target>,
        spec: nat,
        x: u32,
    },
}

impl View for PendingChoice {
    type V = PendingModel;

    open spec fn view(&self) -> PendingModel {
        match self {
            PendingChoice::Mulligan { seat } => PendingModel::Mulligan { seat: *seat },
            PendingChoice::BottomCards { seat, count } => PendingModel::BottomCards {
                seat: *seat,
                count: *count,
            },
            PendingChoice::DeclareAttackers { seat } => PendingModel::DeclareAttackers {
                seat: *seat,
            },
            PendingChoice::DeclareBlockers { seat, remaining } => PendingModel::DeclareBlockers {
                seat: *seat,
                remaining: remaining@,
            },
            PendingChoice::AssignDamage { seat, attacker, queue } => PendingModel::AssignDamage {
                seat: *seat,
                attacker: *attacker,
                queue: queue@,
            },
            PendingChoice::Discard { seat, count } => PendingModel::Discard {
                seat: *seat,
                count: *count,
            },
            PendingChoice::ChooseTargets { seat, specs, trigger } => PendingModel::ChooseTargets {
                seat: *seat,
                specs: specs@,
                trigger: trigger@,
            },
            PendingChoice::Choose { seat, options, min, max, prompt, reason, bind, resume } => {
                PendingModel::Choose {
                    seat: *seat,
                    options: options@,
                    min: *min as nat,
                    max: *max as nat,
                    prompt: prompt@,
                    reason: *reason,
                    bind: *bind,
                    resume: resume@,
                }
            },
            PendingChoice::ChooseOption { seat, labels, bind, resume } => {
                PendingModel::ChooseOption {
                    seat: *seat,
                    labels: views(labels@),
                    bind: *bind,
                    resume: resume@,
                }
            },
            PendingChoice::Casting { seat, object, modes, modes_done, targets, spec, x } => {
                PendingModel::Casting {
                    seat: *seat,
                    object: *object,
                    modes: modes@,
                    modes_done: *modes_done,
                    targets: targets@,
                    spec: *spec as nat,
                    x: *x,
                }
            },
        }
    }
}

impl PendingModel {
    /// Who decides.
    pub open spec fn who(self) -> Seat {
        match self {
            PendingModel::Mulligan { seat } => seat,
            PendingModel::BottomCards { seat, .. } => seat,
            PendingModel::DeclareAttackers { seat } => seat,
            PendingModel::DeclareBlockers { seat, .. } => seat,
            PendingModel::AssignDamage { seat, .. } => seat,
            PendingModel::Discard { seat, .. } => seat,
            PendingModel::ChooseTargets { seat, .. } => seat,
            PendingModel::Choose { seat, .. } => seat,
            PendingModel::ChooseOption { seat, .. } => seat,
            PendingModel::Casting { seat, .. } => seat,
        }
    }

    /// Why they must act.
    pub open spec fn why(self) -> ActReason {
        match self {
            PendingModel::Mulligan { .. } => ActReason::Mulligan,
            PendingModel::BottomCards { .. } => ActReason::BottomCards,
            PendingModel::DeclareAttackers { .. } => ActReason::DeclareAttackers,
            PendingModel::DeclareBlockers { .. } => ActReason::DeclareBlockers,
            PendingModel::AssignDamage { .. } => ActReason::AssignDamage,
            PendingModel::Discard { .. } => ActReason::Discard,
            PendingModel::Choose { reason, .. } => reason,
            PendingModel::ChooseTargets { .. } => ActReason::Choice,
            PendingModel::ChooseOption { .. } => ActReason::Choice,
            PendingModel::Casting { .. } => ActReason::Choice,
        }
    }
}

impl PendingChoice {
    pub fn seat(&self) -> (s: Seat)
        ensures
            s == self@.who(),
    {
        match self {
            PendingChoice::Mulligan { seat } => *seat,
            PendingChoice::BottomCards { seat, .. } => *seat,
            PendingChoice::DeclareAttackers { seat } => *seat,
            PendingChoice::DeclareBlockers { seat, .. } => *seat,
            PendingChoice::AssignDamage { seat, .. } => *seat,
            PendingChoice::Discard { seat, .. } => *seat,
            PendingChoice::ChooseTargets { seat, .. } => *seat,
            PendingChoice::Choose { seat, .. } => *seat,
            PendingChoice::ChooseOption { seat, .. } => *seat,
            PendingChoice::Casting { seat, .. } => *seat,
        }
    }

    pub fn reason(&self) -> (r: ActReason)
        ensures
            r == self@.why(),
    {
        match self {
            PendingChoice::Mulligan { .. } => ActReason::Mulligan,
            PendingChoice::BottomCards { .. } => ActReason::BottomCards,
            PendingChoice::DeclareAttackers { .. } => ActReason::DeclareAttackers,
            PendingChoice::DeclareBlockers { .. } => ActReason::DeclareBlockers,
            PendingChoice::AssignDamage { .. } => ActReason::AssignDamage,
            PendingChoice::Discard { .. } => ActReason::Discard,
            PendingChoice::Choose { reason, .. } => *reason,
            PendingChoice::ChooseTargets { .. } => ActReason::Choice,
            PendingChoice::ChooseOption { .. } => ActReason::Choice,
            PendingChoice::Casting { .. } => ActReason::Choice,
        }
    }
}

// ----- the stack -----

/// What an entry on the stack is.
#[derive(Debug, PartialEq, Eq)]
pub enum StackKind {
    /// The card itself is on the stack.
    Spell,
    /// An activated ability of `source` (which stays where it is).
    Ability { source: ObjectId, index: u8 },
    /// The equip ability of an Equipment.
    Equip { source: ObjectId },
    /// A triggered ability of `source`.
    Trigger { source: ObjectId, index: u8, triggering: Option<Target> },
    /// The prowess trigger.
    Prowess { source: ObjectId },
    /// A delayed trigger set up by an effect of `source`, run under the
    /// context (targets, bindings) that effect resolved with.
    Delayed { source: ObjectId, effects: Arc<Vec<Effect>>, ctx: Ctx },
}

/// What an entry on the stack is, as a mathematical value.
#[verifier::ext_equal]
pub ghost enum KindModel {
    Spell,
    Ability { source: ObjectId, index: u8 },
    Equip { source: ObjectId },
    Trigger { source: ObjectId, index: u8, triggering: Option<Target> },
    Prowess { source: ObjectId },
    Delayed { source: ObjectId, effects: Seq<Effect>, ctx: CtxModel },
}

impl View for StackKind {
    type V = KindModel;

    open spec fn view(&self) -> KindModel {
        match self {
            StackKind::Spell => KindModel::Spell,
            StackKind::Ability { source, index } => KindModel::Ability {
                source: *source,
                index: *index,
            },
            StackKind::Equip { source } => KindModel::Equip { source: *source },
            StackKind::Trigger { source, index, triggering } => KindModel::Trigger {
                source: *source,
                index: *index,
                triggering: *triggering,
            },
            StackKind::Prowess { source } => KindModel::Prowess { source: *source },
            StackKind::Delayed { source, effects, ctx } => KindModel::Delayed {
                source: *source,
                effects: effects@,
                ctx: ctx@,
            },
        }
    }
}

#[derive(Debug, PartialEq, Eq)]
pub struct StackObject {
    /// The spell card, or the source of an ability or trigger.
    pub object: ObjectId,
    pub controller: Seat,
    /// Flat, in spec order; grouped per spec at resolution.
    pub targets: Vec<Target>,
    pub kind: StackKind,
    /// A modal spell's chosen modes, in order.
    pub modes: Vec<u8>,
    /// The value announced for `{X}`.
    pub x: u32,
}

/// An entry on the stack as a mathematical value.
#[verifier::ext_equal]
pub ghost struct StackModel {
    pub object: ObjectId,
    pub controller: Seat,
    pub targets: Seq<Target>,
    pub kind: KindModel,
    pub modes: Seq<u8>,
    pub x: u32,
}

impl View for StackObject {
    type V = StackModel;

    open spec fn view(&self) -> StackModel {
        StackModel {
            object: self.object,
            controller: self.controller,
            targets: self.targets@,
            kind: self.kind@,
            modes: self.modes@,
            x: self.x,
        }
    }
}

// ----- objects -----

#[derive(Copy, Clone, Debug, PartialEq, Eq, Structural)]
pub struct Counters {
    pub plus1: u8,
    pub minus1: u8,
}

#[derive(Copy, Clone, Debug, PartialEq, Eq, Structural)]
pub enum ModifierKind {
    Pt { power: i32, toughness: i32 },
    Keyword(Keyword),
    /// "can't block this turn"
    Restriction(Restriction),
    /// "doesn't untap during its controller's next untap step"
    SkipUntap,
}

#[derive(Copy, Clone, Debug, PartialEq, Eq, Structural)]
pub enum Expiry {
    EndOfTurn,
    /// Ends as this seat's next turn begins ("until your next turn").
    TurnOf(Seat),
    /// Consumed by this seat's next untap step.
    NextUntapOf(Seat),
}

impl Expiry {
    pub open spec fn of(d: Duration, you: Seat) -> Expiry {
        match d {
            Duration::EndOfTurn => Expiry::EndOfTurn,
            Duration::UntilYourNextTurn => Expiry::TurnOf(you),
        }
    }

    /// The expiry for an effect `you` created with this duration.
    pub fn from_duration(d: &Duration, you: Seat) -> (r: Expiry)
        ensures
            r == Expiry::of(*d, you),
    {
        match d {
            Duration::EndOfTurn => Expiry::EndOfTurn,
            Duration::UntilYourNextTurn => Expiry::TurnOf(you),
        }
    }
}

/// An "until end of turn" style effect stored on the object it modifies.
#[derive(Copy, Clone, Debug, PartialEq, Eq, Structural)]
pub struct Modifier {
    pub kind: ModifierKind,
    pub expires: Expiry,
}

#[derive(Debug, PartialEq, Eq)]
pub struct GameObject {
    pub id: ObjectId,
    pub card: CardId,
    pub owner: Seat,
    pub controller: Seat,
    pub zone: Zone,
    pub tapped: bool,
    pub summoning_sick: bool,
    pub damage: i32,
    pub counters: Counters,
    pub attached_to: Option<ObjectId>,
    pub attacking: Option<AttackTarget>,
    /// Attackers this creature is blocking.
    pub blocking: Vec<ObjectId>,
    /// Once blocked, an attacker stays blocked even if its blockers leave (rule 509.1h).
    pub blocked: bool,
    /// Blockers in the order they were declared.
    pub blocked_by: Vec<ObjectId>,
    pub modifiers: Vec<Modifier>,
    /// Took damage from a deathtouch source this turn (rule 704.5h).
    pub deathtouch_damaged: bool,
}

/// A game object as a mathematical value.
#[verifier::ext_equal]
pub ghost struct ObjectModel {
    pub id: ObjectId,
    pub card: CardId,
    pub owner: Seat,
    pub controller: Seat,
    pub zone: Zone,
    pub tapped: bool,
    pub summoning_sick: bool,
    pub damage: i32,
    pub counters: Counters,
    pub attached_to: Option<ObjectId>,
    pub attacking: Option<AttackTarget>,
    pub blocking: Seq<ObjectId>,
    pub blocked: bool,
    pub blocked_by: Seq<ObjectId>,
    pub modifiers: Seq<Modifier>,
    pub deathtouch_damaged: bool,
}

impl View for GameObject {
    type V = ObjectModel;

    open spec fn view(&self) -> ObjectModel {
        ObjectModel {
            id: self.id,
            card: self.card,
            owner: self.owner,
            controller: self.controller,
            zone: self.zone,
            tapped: self.tapped,
            summoning_sick: self.summoning_sick,
            damage: self.damage,
            counters: self.counters,
            attached_to: self.attached_to,
            attacking: self.attacking,
            blocking: self.blocking@,
            blocked: self.blocked,
            blocked_by: self.blocked_by@,
            modifiers: self.modifiers@,
            deathtouch_damaged: self.deathtouch_damaged,
        }
    }
}

impl ObjectModel {
    /// A card at the start of the game: in its owner's library.
    pub open spec fn fresh(id: ObjectId, card: CardId, owner: Seat) -> ObjectModel {
        ObjectModel {
            id,
            card,
            owner,
            controller: owner,
            zone: Zone::Library,
            tapped: false,
            summoning_sick: false,
            damage: 0,
            counters: Counters { plus1: 0, minus1: 0 },
            attached_to: None,
            attacking: None,
            blocking: Seq::empty(),
            blocked: false,
            blocked_by: Seq::empty(),
            modifiers: Seq::empty(),
            deathtouch_damaged: false,
        }
    }

    /// An object that changes zones becomes a new object: only its identity,
    /// its card, its owner and its controller carry over.
    pub open spec fn moved(self, to: Zone) -> ObjectModel {
        ObjectModel {
            zone: to,
            controller: self.controller,
            ..ObjectModel::fresh(self.id, self.card, self.owner)
        }
    }

    pub open spec fn out_of_combat(self) -> ObjectModel {
        ObjectModel {
            attacking: None,
            blocking: Seq::empty(),
            blocked: false,
            blocked_by: Seq::empty(),
            ..self
        }
    }
}

impl GameObject {
    pub fn new(id: ObjectId, card: CardId, owner: Seat) -> (r: GameObject)
        ensures
            r@ == ObjectModel::fresh(id, card, owner),
    {
        GameObject {
            id,
            card,
            owner,
            controller: owner,
            zone: Zone::Library,
            tapped: false,
            summoning_sick: false,
            damage: 0,
            counters: Counters { plus1: 0, minus1: 0 },
            attached_to: None,
            attacking: None,
            blocking: Vec::new(),
            blocked: false,
            blocked_by: Vec::new(),
            modifiers: Vec::new(),
            deathtouch_damaged: false,
        }
    }

    /// An object that changes zones becomes a new object: nothing carries over.
    pub fn reset_zone_state(&mut self)
        ensures
            final(self)@ == old(self)@.moved(old(self)@.zone),
    {
        self.tapped = false;
        self.summoning_sick = false;
        self.damage = 0;
        self.counters = Counters { plus1: 0, minus1: 0 };
        self.attached_to = None;
        self.attacking = None;
        self.blocking = Vec::new();
        self.blocked = false;
        self.blocked_by = Vec::new();
        self.modifiers = Vec::new();
        self.deathtouch_damaged = false;
    }
}

// ----- players -----

#[derive(Debug, PartialEq, Eq)]
pub struct PlayerState {
    pub name: String,
    pub life: i32,
    pub eliminated: Option<Elimination>,
    /// Index 0 is the bottom of the library; the last element is the top.
    pub library: Vec<ObjectId>,
    pub hand: Vec<ObjectId>,
    pub graveyard: Vec<ObjectId>,
    pub exile: Vec<ObjectId>,
    pub battlefield: Vec<ObjectId>,
    /// Command zone; empty outside commander formats.
    pub command: Vec<ObjectId>,
    /// Damage taken from each commander (rule 903.10a).
    pub commander_damage: Vec<(ObjectId, i32)>,
    pub commander_casts: Vec<(ObjectId, u8)>,
    pub mana_pool: ManaPool,
    pub lands_played_this_turn: u8,
    pub poison: u8,
    pub mulligans: u8,
    /// Set when a draw from an empty library was attempted; checked as a state-based action.
    pub drew_from_empty: bool,
}

/// A player as a mathematical value.
#[verifier::ext_equal]
pub ghost struct PlayerModel {
    pub name: Seq<char>,
    pub life: i32,
    pub eliminated: Option<Elimination>,
    pub library: Seq<ObjectId>,
    pub hand: Seq<ObjectId>,
    pub graveyard: Seq<ObjectId>,
    pub exile: Seq<ObjectId>,
    pub battlefield: Seq<ObjectId>,
    pub command: Seq<ObjectId>,
    pub commander_damage: Seq<(ObjectId, i32)>,
    pub commander_casts: Seq<(ObjectId, u8)>,
    pub mana_pool: ManaPool,
    pub lands_played_this_turn: u8,
    pub poison: u8,
    pub mulligans: u8,
    pub drew_from_empty: bool,
}

impl View for PlayerState {
    type V = PlayerModel;

    open spec fn view(&self) -> PlayerModel {
        PlayerModel {
            name: self.name@,
            life: self.life,
            eliminated: self.eliminated,
            library: self.library@,
            hand: self.hand@,
            graveyard: self.graveyard@,
            exile: self.exile@,
            battlefield: self.battlefield@,
            command: self.command@,
            commander_damage: self.commander_damage@,
            commander_casts: self.commander_casts@,
            mana_pool: self.mana_pool,
            lands_played_this_turn: self.lands_played_this_turn,
            poison: self.poison,
            mulligans: self.mulligans,
            drew_from_empty: self.drew_from_empty,
        }
    }
}

impl PlayerModel {
    /// A player at the start of the game.
    pub open spec fn fresh(name: Seq<char>, life: i32, library: Seq<ObjectId>) -> PlayerModel {
        PlayerModel {
            name,
            life,
            eliminated: None,
            library,
            hand: Seq::empty(),
            graveyard: Seq::empty(),
            exile: Seq::empty(),
            battlefield: Seq::empty(),
            command: Seq::empty(),
            commander_damage: Seq::empty(),
            commander_casts: Seq::empty(),
            mana_pool: ManaPool::none(),
            lands_played_this_turn: 0,
            poison: 0,
            mulligans: 0,
            drew_from_empty: false,
        }
    }

    /// The list of a player's cards in a zone; the stack and the cards out of
    /// the game are in nobody's list.
    pub open spec fn zone_list(self, zone: Zone) -> Seq<ObjectId> {
        match zone {
            Zone::Library => self.library,
            Zone::Hand => self.hand,
            Zone::Battlefield => self.battlefield,
            Zone::Graveyard => self.graveyard,
            Zone::Exile => self.exile,
            Zone::Command => self.command,
            Zone::Stack => Seq::empty(),
            Zone::OutOfGame => Seq::empty(),
        }
    }

    pub open spec fn with_zone_list(self, zone: Zone, list: Seq<ObjectId>) -> PlayerModel {
        match zone {
            Zone::Library => PlayerModel { library: list, ..self },
            Zone::Hand => PlayerModel { hand: list, ..self },
            Zone::Battlefield => PlayerModel { battlefield: list, ..self },
            Zone::Graveyard => PlayerModel { graveyard: list, ..self },
            Zone::Exile => PlayerModel { exile: list, ..self },
            Zone::Command => PlayerModel { command: list, ..self },
            Zone::Stack => self,
            Zone::OutOfGame => self,
        }
    }
}

impl PlayerState {
    /// A player at the start of the game.
    pub fn new(name: String, life: i32, library: Vec<ObjectId>) -> (r: PlayerState)
        ensures
            r@ == PlayerModel::fresh(name@, life, library@),
    {
        PlayerState {
            name,
            life,
            eliminated: None,
            library,
            hand: Vec::new(),
            graveyard: Vec::new(),
            exile: Vec::new(),
            battlefield: Vec::new(),
            command: Vec::new(),
            commander_damage: Vec::new(),
            commander_casts: Vec::new(),
            mana_pool: ManaPool::empty(),
            lands_played_this_turn: 0,
            poison: 0,
            mulligans: 0,
            drew_from_empty: false,
        }
    }
}

/// How an attacker's combat damage was divided.
#[derive(Debug, PartialEq, Eq)]
pub struct Assigned {
    pub attacker: ObjectId,
    pub split: Vec<(DamageTarget, i32)>,
}

/// How an attacker's combat damage was divided, as a mathematical value.
#[verifier::ext_equal]
pub ghost struct AssignedModel {
    pub attacker: ObjectId,
    pub split: Seq<(DamageTarget, i32)>,
}

impl View for Assigned {
    type V = AssignedModel;

    open spec fn view(&self) -> AssignedModel {
        AssignedModel { attacker: self.attacker, split: self.split@ }
    }
}

#[derive(Copy, Clone, Debug, PartialEq, Eq, Structural)]
pub enum CombatRound {
    /// Not in the combat damage step.
    Idle,
    /// First-strike damage was dealt; regular damage is still to come.
    FirstStrikeDone,
    /// Regular damage dealt (or no first strike this combat).
    Done,
}

/// An accepted action and who took it.
#[derive(Debug, PartialEq, Eq)]
pub struct Played {
    pub seat: Seat,
    pub action: Action,
}

/// An accepted action and who took it, as a mathematical value.
#[verifier::ext_equal]
pub ghost struct PlayedModel {
    pub seat: Seat,
    pub action: ActionModel,
}

impl View for Played {
    type V = PlayedModel;

    open spec fn view(&self) -> PlayedModel {
        PlayedModel { seat: self.seat, action: self.action@ }
    }
}

/// The objects of a game by id. Objects are never removed (an object whose
/// owner leaves the game moves to `Zone::OutOfGame`), so a stable index is a
/// stable identity for the life of the game, and ids stay small enough to
/// read as `#12`.
#[derive(Debug, PartialEq, Eq)]
pub struct Objects {
    pub items: Vec<GameObject>,
}

impl View for Objects {
    type V = Seq<ObjectModel>;

    open spec fn view(&self) -> Seq<ObjectModel> {
        views(self.items@)
    }
}

/// Full game state, including every player's hidden information. Never leaves
/// the engine except through `Game::view` and `Game::view_spectator`.
#[derive(Debug, PartialEq, Eq)]
pub struct Game {
    pub format: Arc<Format>,
    pub turn: u32,
    /// Every seat in turn order from the starting player, eliminated seats included.
    pub seating: Vec<Seat>,
    /// Seats still in the game, in turn order from the starting player.
    pub turn_order: Vec<Seat>,
    pub active_player: Seat,
    pub phase: Phase,
    /// `None` during untap and cleanup, and while a `PendingChoice` is open.
    pub priority: Option<Seat>,
    /// Equals `turn_order.len()` with an empty stack → advance the step.
    pub passed_in_succession: u8,
    /// Bottom to top.
    pub stack: Vec<StackObject>,
    /// Indexed by seat; eliminated players stay (their objects still reference them).
    pub players: Vec<PlayerState>,
    pub objects: Objects,
    pub pending: Option<PendingChoice>,
    pub log: Vec<Event>,
    pub dice: Dice,
    pub cards: Arc<CardDb>,
    pub seed: u64,
    pub state_version: u64,
    pub history: Vec<Played>,
    pub outcome: Option<Outcome>,
    pub started: bool,
    /// Set when the active player leaves the game: the turn ends at the next opportunity.
    pub turn_aborted: bool,
    /// Every attacker occurs once.
    pub damage_assignments: Vec<Assigned>,
    /// Tokens created this game; `CardId`s from `cards.len()` upwards index here.
    pub tokens: Vec<CardDef>,
    /// Triggers that fired but are not yet on the stack.
    pub fired: Vec<FiredTrigger>,
    /// Delayed triggers waiting for their moment.
    pub delayed: Vec<DelayedTrigger>,
    /// Events before this index have been scanned for triggers.
    pub trigger_cursor: usize,
    /// Which combat damage round is next / done.
    pub combat_round: CombatRound,
}

/// A game as a mathematical value.
#[verifier::ext_equal]
pub ghost struct GameModel {
    pub format: Format,
    pub turn: u32,
    pub seating: Seq<Seat>,
    pub turn_order: Seq<Seat>,
    pub active_player: Seat,
    pub phase: Phase,
    pub priority: Option<Seat>,
    pub passed_in_succession: u8,
    pub stack: Seq<StackModel>,
    pub players: Seq<PlayerModel>,
    pub objects: Seq<ObjectModel>,
    pub pending: Option<PendingModel>,
    pub log: Seq<EventFacts>,
    pub dice: Dice,
    pub cards: Seq<CardModel>,
    pub seed: u64,
    pub state_version: u64,
    pub history: Seq<PlayedModel>,
    pub outcome: Option<Outcome>,
    pub started: bool,
    pub turn_aborted: bool,
    pub damage_assignments: Seq<AssignedModel>,
    pub tokens: Seq<CardModel>,
    pub fired: Seq<FiredModel>,
    pub delayed: Seq<DelayedModel>,
    pub trigger_cursor: nat,
    pub combat_round: CombatRound,
}

pub open spec fn pending_view(p: Option<PendingChoice>) -> Option<PendingModel> {
    match p {
        Some(p) => Some(p@),
        None => None,
    }
}

impl Game {
    /// The game as a mathematical value.
    pub open spec fn model(&self) -> GameModel {
        GameModel {
            format: *self.format,
            turn: self.turn,
            seating: self.seating@,
            turn_order: self.turn_order@,
            active_player: self.active_player,
            phase: self.phase,
            priority: self.priority,
            passed_in_succession: self.passed_in_succession,
            stack: views(self.stack@),
            players: views(self.players@),
            objects: self.objects@,
            pending: pending_view(self.pending),
            log: views(self.log@),
            dice: self.dice,
            cards: self.cards@,
            seed: self.seed,
            state_version: self.state_version,
            history: views(self.history@),
            outcome: self.outcome,
            started: self.started,
            turn_aborted: self.turn_aborted,
            damage_assignments: views(self.damage_assignments@),
            tokens: views(self.tokens@),
            fired: views(self.fired@),
            delayed: views(self.delayed@),
            trigger_cursor: self.trigger_cursor as nat,
            combat_round: self.combat_round,
        }
    }
}

} // verus!
