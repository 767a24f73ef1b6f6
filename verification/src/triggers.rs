//! Triggered abilities: collected from emitted events, matched against each
//! card's event patterns, then put on the stack in APNAP order, asking for
//! targets where a trigger has them. Delayed triggers that effects set up
//! ("at the beginning of the next end step") wait in `Game::delayed`.
use crate::action::{AttackTarget, DamageTarget, Target};
use crate::copies::{duplicate_all, Duplicate};
use crate::event::{Event, EventBase, EventFacts, EventModel};
use crate::ir::{copied_filters, DelayedAt, EventPattern, Filter, Trigger};
use crate::seqs::{copied, find, group_views, in_list, position, reversed, views};
use crate::state::{Ctx, CtxModel, DelayedModel, DelayedTrigger, FiredKind, FiredKindModel, FiredModel, FiredTrigger, Game, GameModel, KindModel, PendingChoice, PendingModel, StackKind, StackModel, StackObject};
use crate::types::{Keyword, ObjectId, Phase, Seat, Zone};
use vstd::prelude::*;

verus! {

broadcast use group_views;

/// One thing that just happened, in the terms event patterns are written in.
#[derive(Copy, Clone, Debug, PartialEq, Eq, Structural)]
#[allow(inconsistent_fields)]
pub enum Occurred {
    Enters(ObjectId),
    Dies(ObjectId),
    Attacks(ObjectId),
    Blocks { blocker: ObjectId, attacker: ObjectId },
    BecomesBlocked { attacker: ObjectId, blocker: ObjectId },
    CombatDamageToPlayer { source: ObjectId, player: Seat },
    Tapped(ObjectId),
    Step { phase: Phase, active: Seat },
    Cast { seat: Seat, spell: ObjectId },
    GainsLife(Seat),
    Discards(Seat),
}

impl Occurred {
    /// What `Triggering` refers to for this occurrence.
    pub open spec fn cause(self) -> Target {
        match self {
            Occurred::Enters(id) => Target::Object(id),
            Occurred::Dies(id) => Target::Object(id),
            Occurred::Attacks(id) => Target::Object(id),
            Occurred::Tapped(id) => Target::Object(id),
            Occurred::Blocks { attacker, .. } => Target::Object(attacker),
            Occurred::BecomesBlocked { blocker, .. } => Target::Object(blocker),
            Occurred::CombatDamageToPlayer { player, .. } => Target::Player(player),
            Occurred::Step { active, .. } => Target::Player(active),
            Occurred::Cast { spell, .. } => Target::Object(spell),
            Occurred::GainsLife(s) => Target::Player(s),
            Occurred::Discards(s) => Target::Player(s),
        }
    }

    fn triggering(&self) -> (t: Target)
        ensures
            t == self.cause(),
    {
        match self {
            Occurred::Enters(id) => Target::Object(*id),
            Occurred::Dies(id) => Target::Object(*id),
            Occurred::Attacks(id) => Target::Object(*id),
            Occurred::Tapped(id) => Target::Object(*id),
            Occurred::Blocks { attacker, .. } => Target::Object(*attacker),
            Occurred::BecomesBlocked { blocker, .. } => Target::Object(*blocker),
            Occurred::CombatDamageToPlayer { player, .. } => Target::Player(*player),
            Occurred::Step { active, .. } => Target::Player(*active),
            Occurred::Cast { spell, .. } => Target::Object(*spell),
            Occurred::GainsLife(s) => Target::Player(*s),
            Occurred::Discards(s) => Target::Player(*s),
        }
    }
}

// ----- what an event amounts to -----

/// An occurrence for each of the first `n` attackers.
pub open spec fn attacks_of(attackers: Seq<(ObjectId, AttackTarget)>, n: nat) -> Seq<Occurred>
    decreases n,
{
    if n == 0 || n > attackers.len() {
        Seq::empty()
    } else {
        attacks_of(attackers, (n - 1) as nat).push(Occurred::Attacks(attackers[n - 1].0))
    }
}

/// The attackers of the first `n` blocks.
pub open spec fn blocked_in(blocks: Seq<(ObjectId, ObjectId)>, n: nat) -> Seq<ObjectId>
    decreases n,
{
    if n == 0 || n > blocks.len() {
        Seq::empty()
    } else {
        blocked_in(blocks, (n - 1) as nat).push(blocks[n - 1].1)
    }
}

/// The occurrences of the first `n` blocks; an attacker becomes blocked once.
pub open spec fn blocks_of(blocks: Seq<(ObjectId, ObjectId)>, n: nat) -> Seq<Occurred>
    decreases n,
{
    if n == 0 || n > blocks.len() {
        Seq::empty()
    } else {
        let (blocker, attacker) = blocks[n - 1];
        let rest = blocks_of(blocks, (n - 1) as nat).push(Occurred::Blocks { blocker, attacker });
        if blocked_in(blocks, (n - 1) as nat).contains(attacker) {
            rest
        } else {
            rest.push(Occurred::BecomesBlocked { attacker, blocker })
        }
    }
}

/// What an event amounts to, in the terms patterns are written in.
pub open spec fn happened(e: EventFacts, active: Seat) -> Seq<Occurred> {
    match e {
        EventModel::ZoneChange { object, from, to } => if to is Battlefield {
            seq![Occurred::Enters(object)]
        } else if from is Battlefield && to is Graveyard {
            seq![Occurred::Dies(object)]
        } else {
            Seq::empty()
        },
        EventModel::Attacked { attackers, .. } => attacks_of(attackers, attackers.len()),
        EventModel::Blocked { blocks, .. } => blocks_of(blocks, blocks.len()),
        EventModel::Damage { source, to, amount, combat } => match to {
            DamageTarget::Player(player) => if combat && amount > 0 {
                seq![Occurred::CombatDamageToPlayer { source, player }]
            } else {
                Seq::empty()
            },
            DamageTarget::Object(_) => Seq::empty(),
        },
        EventModel::Tapped { object } => seq![Occurred::Tapped(object)],
        EventModel::PhaseChanged { phase } => if phase is Upkeep || phase is End
            || phase is BeginCombat {
            seq![Occurred::Step { phase, active }]
        } else {
            Seq::empty()
        },
        EventModel::Cast { seat, object, .. } => seq![Occurred::Cast { seat, spell: object }],
        EventModel::LifeChanged { seat, from, to } => if to > from {
            seq![Occurred::GainsLife(seat)]
        } else {
            Seq::empty()
        },
        EventModel::Discarded { seat, objects } => Seq::new(
            objects.len(),
            |i: int| Occurred::Discards(seat),
        ),
        _ => Seq::empty(),
    }
}

// ----- what fires -----

impl GameModel {
    /// Does the occurrence match the pattern, as seen by `watcher`?
    pub open spec fn event_matches(
        self,
        pattern: EventPattern,
        o: Occurred,
        watcher: ObjectId,
        ctx: CtxModel,
    ) -> bool
        decreases pattern, 0nat,
    {
        match pattern {
            EventPattern::ThisEnters => o == Occurred::Enters(watcher),
            EventPattern::ThisDies => o == Occurred::Dies(watcher),
            EventPattern::ThisAttacks => o == Occurred::Attacks(watcher),
            EventPattern::ThisBecomesTapped => o == Occurred::Tapped(watcher),
            EventPattern::ThisBlocks => o matches Occurred::Blocks { blocker, .. } && blocker
                == watcher,
            EventPattern::ThisBecomesBlocked => o matches Occurred::BecomesBlocked {
                attacker,
                ..
            } && attacker == watcher,
            EventPattern::ThisDealsCombatDamageToPlayer => o
                matches Occurred::CombatDamageToPlayer { source, .. } && source == watcher,
            EventPattern::Enters(f) => o matches Occurred::Enters(id) && self.object_matches(
                id,
                f,
                ctx,
            ),
            EventPattern::Dies(f) => o matches Occurred::Dies(id) && self.object_matches(
                id,
                f,
                ctx,
            ),
            EventPattern::Upkeep(whose) => o matches Occurred::Step { phase, active } && phase
                is Upkeep && self.players_of(whose, ctx).contains(active),
            EventPattern::EndStep(whose) => o matches Occurred::Step { phase, active } && phase
                is End && self.players_of(whose, ctx).contains(active),
            EventPattern::BeginCombat(whose) => o matches Occurred::Step { phase, active } && phase
                is BeginCombat && self.players_of(whose, ctx).contains(active),
            EventPattern::Cast { who, filter } => o matches Occurred::Cast { seat, spell }
                && self.players_of(who, ctx).contains(seat) && self.spell_matches(
                spell,
                filter,
                ctx,
            ),
            EventPattern::GainsLife(whose) => o matches Occurred::GainsLife(seat)
                && self.players_of(whose, ctx).contains(seat),
            EventPattern::Discards(whose) => o matches Occurred::Discards(seat) && self.players_of(
                whose,
                ctx,
            ).contains(seat),
            EventPattern::Any(es) => self.any_event_matches(es@, o, watcher, ctx, es@.len()),
        }
    }

    /// One of the first `n` patterns matches.
    pub open spec fn any_event_matches(
        self,
        es: Seq<EventPattern>,
        o: Occurred,
        watcher: ObjectId,
        ctx: CtxModel,
        n: nat,
    ) -> bool
        decreases es, n,
    {
        if n == 0 || n > es.len() {
            false
        } else {
            self.any_event_matches(es, o, watcher, ctx, (n - 1) as nat) || self.event_matches(
                es[n - 1],
                o,
                watcher,
                ctx,
            )
        }
    }

    /// The trigger fires: its pattern matches and its intervening "if" holds.
    pub open spec fn trigger_fires(
        self,
        t: Trigger,
        o: Occurred,
        watcher: ObjectId,
        ctx: CtxModel,
    ) -> bool {
        self.event_matches(t.event, o, watcher, ctx) && match t.condition {
            Some(c) => self.condition(c, ctx),
            None => true,
        }
    }

    /// What fires among the first `n` triggers of `watcher`.
    pub open spec fn fired_of(self, o: Occurred, watcher: ObjectId, n: nat) -> Seq<FiredModel>
        decreases n,
    {
        let ts = self.def(watcher).triggers;
        if n == 0 || n > ts.len() {
            Seq::empty()
        } else {
            let rest = self.fired_of(o, watcher, (n - 1) as nat);
            let controller = self.obj(watcher).controller;
            let ctx = CtxModel::fresh(controller, Some(watcher), Seq::empty(), Some(o.cause()));
            if self.trigger_fires(ts[n - 1], o, watcher, ctx) {
                rest.push(
                    FiredModel {
                        source: watcher,
                        controller,
                        kind: FiredKindModel::Card((n - 1) as u8),
                        triggering: Some(o.cause()),
                    },
                )
            } else {
                rest
            }
        }
    }

    /// What fires on the first `n` watchers.
    pub open spec fn fired_by(self, o: Occurred, watchers: Seq<ObjectId>, n: nat) -> Seq<FiredModel>
        decreases n,
    {
        if n == 0 || n > watchers.len() {
            Seq::empty()
        } else {
            let rest = self.fired_by(o, watchers, (n - 1) as nat);
            if self.has_def(watchers[n - 1]) {
                rest + self.fired_of(
                    o,
                    watchers[n - 1],
                    self.def(watchers[n - 1]).triggers.len(),
                )
            } else {
                rest
            }
        }
    }

    /// Everything on the battlefield, and a dying creature itself.
    pub open spec fn watchers(self, o: Occurred) -> Seq<ObjectId> {
        let seen = self.on_battlefield();
        match o {
            Occurred::Dies(id) => if seen.contains(id) {
                seen
            } else {
                seen.push(id)
            },
            _ => seen,
        }
    }

    /// Queue every trigger whose event pattern matches, if its intervening
    /// "if" holds.
    pub open spec fn fire(self, o: Occurred) -> GameModel {
        let ws = self.watchers(o);
        GameModel { fired: self.fired + self.fired_by(o, ws, ws.len()), ..self }
    }

    pub open spec fn fire_all(self, os: Seq<Occurred>, n: nat) -> GameModel
        decreases n,
    {
        if n == 0 || n > os.len() {
            self
        } else {
            self.fire_all(os, (n - 1) as nat).fire(os[n - 1])
        }
    }

    /// The prowess triggers of those of the first `n` creatures that have it.
    pub open spec fn prowess_of(
        self,
        seat: Seat,
        spell: ObjectId,
        ids: Seq<ObjectId>,
        n: nat,
    ) -> Seq<FiredModel>
        decreases n,
    {
        if n == 0 || n > ids.len() {
            Seq::empty()
        } else {
            let rest = self.prowess_of(seat, spell, ids, (n - 1) as nat);
            if self.creature(ids[n - 1]) && self.has_keyword(ids[n - 1], Keyword::Prowess) {
                rest.push(
                    FiredModel {
                        source: ids[n - 1],
                        controller: seat,
                        kind: FiredKindModel::Prowess,
                        triggering: Some(Target::Object(spell)),
                    },
                )
            } else {
                rest
            }
        }
    }

    /// Prowess on each creature the caster of a noncreature spell controls.
    pub open spec fn fire_prowess(self, seat: Seat, spell: ObjectId) -> GameModel {
        if self.creature(spell) {
            self
        } else {
            let ids = self.battlefield(seat);
            GameModel { fired: self.fired + self.prowess_of(seat, spell, ids, ids.len()), ..self }
        }
    }

    /// Fire every delayed trigger whose moment this is.
    pub open spec fn fire_delayed(self, at: DelayedAt) -> GameModel {
        GameModel {
            fired: self.fired + due(self.delayed, at, self.delayed.len()),
            delayed: not_due(self.delayed, at, self.delayed.len()),
            ..self
        }
    }

    /// Queue the triggers one event causes.
    pub open spec fn triggers_for_event(self, e: EventFacts) -> GameModel {
        let before = match e {
            EventModel::Cast { seat, object, .. } => self.fire_prowess(seat, object),
            _ => self,
        };
        let os = happened(e, self.active_player);
        let g = before.fire_all(os, os.len());
        if e matches EventModel::PhaseChanged { phase } && phase is End {
            g.fire_delayed(DelayedAt::NextEndStep)
        } else {
            g
        }
    }

    /// Queue the triggers of the events from `from` up to the `n`-th.
    pub open spec fn triggers_between(self, log: Seq<EventFacts>, from: nat, n: nat) -> GameModel
        decreases n,
    {
        if n <= from || n > log.len() {
            self
        } else {
            self.triggers_between(log, from, (n - 1) as nat).triggers_for_event(log[n - 1])
        }
    }

    /// Scan events emitted since the last scan and queue the triggers they cause.
    pub open spec fn collect_triggers(self) -> GameModel {
        GameModel { trigger_cursor: self.log.len(), ..self }.triggers_between(
            self.log,
            self.trigger_cursor,
            self.log.len(),
        )
    }
}

/// The triggers whose moment this is, among the first `n`.
pub open spec fn due(ds: Seq<DelayedModel>, at: DelayedAt, n: nat) -> Seq<FiredModel>
    decreases n,
{
    if n == 0 || n > ds.len() {
        Seq::empty()
    } else {
        let rest = due(ds, at, (n - 1) as nat);
        let d = ds[n - 1];
        if d.at == at {
            rest.push(
                FiredModel {
                    source: d.source,
                    controller: d.controller,
                    kind: FiredKindModel::Delayed { effects: d.effects, ctx: d.ctx },
                    triggering: None,
                },
            )
        } else {
            rest
        }
    }
}

/// The triggers that keep waiting, among the first `n`.
pub open spec fn not_due(ds: Seq<DelayedModel>, at: DelayedAt, n: nat) -> Seq<DelayedModel>
    decreases n,
{
    if n == 0 || n > ds.len() {
        Seq::empty()
    } else {
        let rest = not_due(ds, at, (n - 1) as nat);
        if ds[n - 1].at == at {
            rest
        } else {
            rest.push(ds[n - 1])
        }
    }
}

// ----- onto the stack -----

/// A seat's place in an order; behind everyone if it is not in it.
pub open spec fn turn_place(order: Seq<Seat>, seat: Seat) -> nat {
    match find(order, seat) {
        Some(i) => i,
        None => order.len(),
    }
}

/// Where a trigger goes among the first `n` of `line`: right behind the last
/// one whose controller does not come later.
pub open spec fn line_slot(order: Seq<Seat>, line: Seq<FiredModel>, f: FiredModel, n: nat) -> nat
    decreases n,
{
    if n == 0 || n > line.len() {
        0
    } else if turn_place(order, line[n - 1].controller) <= turn_place(order, f.controller) {
        n
    } else {
        line_slot(order, line, f, (n - 1) as nat)
    }
}

impl GameModel {
    /// A trigger whose source exists and whose controller is in the game.
    pub open spec fn stands(self, f: FiredModel) -> bool {
        self.has_obj(f.source) && self.in_game(f.controller)
    }

    /// The standing triggers among the first `n`, by their controllers' turn;
    /// one player's triggers keep their order.
    pub open spec fn line_up(self, order: Seq<Seat>, fs: Seq<FiredModel>, n: nat) -> Seq<FiredModel>
        decreases n,
    {
        if n == 0 || n > fs.len() {
            Seq::empty()
        } else {
            let line = self.line_up(order, fs, (n - 1) as nat);
            if self.stands(fs[n - 1]) {
                line.insert(line_slot(order, line, fs[n - 1], line.len()) as int, fs[n - 1])
            } else {
                line
            }
        }
    }

    /// The target specs of a fired trigger.
    pub open spec fn trigger_specs(self, f: FiredModel) -> Seq<Filter> {
        match f.kind {
            FiredKindModel::Card(i) => if self.has_def(f.source) && i < self.def(
                f.source,
            ).triggers.len() {
                self.def(f.source).triggers[i as int].targets@
            } else {
                Seq::empty()
            },
            _ => Seq::empty(),
        }
    }

    /// Every spec has some legal target.
    pub open spec fn all_targetable(self, specs: Seq<Filter>, ctx: CtxModel) -> bool {
        forall|i: int|
            0 <= i < specs.len() ==> self.targets_for(#[trigger] specs[i], ctx).len() > 0
    }

    /// Put one trigger on the stack.
    pub open spec fn push_trigger(self, f: FiredModel, targets: Seq<Target>) -> GameModel {
        let kind = match f.kind {
            FiredKindModel::Card(index) => KindModel::Trigger {
                source: f.source,
                index,
                triggering: f.triggering,
            },
            FiredKindModel::Prowess => KindModel::Prowess { source: f.source },
            FiredKindModel::Delayed { effects, ctx } => KindModel::Delayed {
                source: f.source,
                effects,
                ctx,
            },
        };
        GameModel {
            stack: self.stack.push(
                StackModel {
                    object: f.source,
                    controller: f.controller,
                    targets,
                    kind,
                    modes: Seq::empty(),
                    x: 0,
                },
            ),
            ..self
        }.emit(
            EventModel::Triggered {
                source: f.source,
                description: self.kind_words(kind),
                targets,
            },
        )
    }

    /// Put the triggers from index `i` of `line` on the stack, up to the first
    /// that needs its controller to choose targets. One with a spec that has
    /// no legal target is dropped (rule 603.3d).
    pub open spec fn place_line(self, line: Seq<FiredModel>, i: nat) -> (GameModel, bool)
        decreases line.len() - i,
    {
        if i >= line.len() {
            (self, true)
        } else {
            let f = line[i as int];
            let specs = self.trigger_specs(f);
            let ctx = CtxModel::fresh(f.controller, Some(f.source), Seq::empty(), f.triggering);
            if specs.len() == 0 {
                self.push_trigger(f, Seq::empty()).place_line(line, i + 1)
            } else if !self.all_targetable(specs, ctx) {
                self.place_line(line, i + 1)
            } else {
                (
                    GameModel {
                        fired: line.subrange((i + 1) as int, line.len() as int),
                        pending: Some(
                            PendingModel::ChooseTargets { seat: f.controller, specs, trigger: f },
                        ),
                        ..self
                    },
                    false,
                )
            }
        }
    }

    /// Put fired triggers on the stack in APNAP order; `false` when a trigger
    /// needs its controller to choose targets.
    pub open spec fn place_triggers(self) -> (GameModel, bool) {
        if self.fired.len() == 0 {
            (self, true)
        } else {
            let line = self.line_up(self.apnap(), self.fired, self.fired.len());
            GameModel { fired: Seq::empty(), ..self }.place_line(line, 0)
        }
    }

    /// Answer a `ChooseTargets` for a trigger, then keep placing the rest.
    #[verifier::opaque]
    pub open spec fn choose_trigger_targets(self, targets: Seq<Target>) -> GameModel {
        let g1 = match self.pending {
            Some(PendingModel::ChooseTargets { trigger, .. }) => GameModel {
                pending: None,
                ..self
            }.push_trigger(trigger, targets),
            _ => GameModel { pending: None, ..self },
        };
        let (g2, done) = g1.place_triggers();
        if done && g2.priority is None {
            g2.give_priority_to_active()
        } else {
            g2
        }
    }
}

// ----- executable parts -----

fn occurrences_of(e: &Event, active: Seat) -> (r: Vec<Occurred>)
    ensures
        r@ == happened(e.facts(), active),
{
    let mut out: Vec<Occurred> = Vec::new();
    match e {
        EventBase::ZoneChange { object, from, to } => {
            if *to == Zone::Battlefield {
                out.push(Occurred::Enters(*object));
            } else if *from == Zone::Battlefield && *to == Zone::Graveyard {
                out.push(Occurred::Dies(*object));
            }
        },
        EventBase::Attacked { attackers, .. } => {
            let mut i: usize = 0;
            while i < attackers.len()
                invariant
                    i <= attackers.len(),
                    out@ == attacks_of(attackers@, i as nat),
                decreases attackers.len() - i,
            {
                out.push(Occurred::Attacks(attackers[i].0));
                i = i + 1;
            }
        },
        EventBase::Blocked { blocks, .. } => {
            let mut blocked: Vec<ObjectId> = Vec::new();
            let mut i: usize = 0;
            while i < blocks.len()
                invariant
                    i <= blocks.len(),
                    blocked@ == blocked_in(blocks@, i as nat),
                    out@ == blocks_of(blocks@, i as nat),
                decreases blocks.len() - i,
            {
                let (blocker, attacker) = blocks[i];
                out.push(Occurred::Blocks { blocker, attacker });
                if !in_list(&blocked, attacker) {
                    out.push(Occurred::BecomesBlocked { attacker, blocker });
                }
                blocked.push(attacker);
                i = i + 1;
            }
        },
        EventBase::Damage { source, to, amount, combat } => {
            if let DamageTarget::Player(player) = *to {
                if *combat && *amount > 0 {
                    out.push(Occurred::CombatDamageToPlayer { source: *source, player });
                }
            }
        },
        EventBase::Tapped { object } => {
            out.push(Occurred::Tapped(*object));
        },
        EventBase::PhaseChanged { phase } => {
            if matches!(*phase, Phase::Upkeep | Phase::End | Phase::BeginCombat) {
                out.push(Occurred::Step { phase: *phase, active });
            }
        },
        EventBase::Cast { seat, object, .. } => {
            out.push(Occurred::Cast { seat: *seat, spell: *object });
        },
        EventBase::LifeChanged { seat, from, to } => {
            if *to > *from {
                out.push(Occurred::GainsLife(*seat));
            }
        },
        EventBase::Discarded { seat, objects } => {
            let mut i: usize = 0;
            while i < objects.len()
                invariant
                    i <= objects.len(),
                    out@ == Seq::new(i as nat, |k: int| Occurred::Discards(*seat)),
                decreases objects.len() - i,
            {
                out.push(Occurred::Discards(*seat));
                i = i + 1;
            }
        },
        _ => {},
    }
    assert(out@ =~= happened(e.facts(), active));
    out
}

/// A seat's place in an order; behind everyone if it is not in it.
fn place_in(order: &Vec<Seat>, seat: Seat) -> (i: usize)
    ensures
        i == turn_place(order@, seat),
{
    match position(order, seat) {
        Some(i) => i,
        None => order.len(),
    }
}

impl Game {
    fn event_matches(
        &self,
        pattern: &EventPattern,
        o: &Occurred,
        watcher: ObjectId,
        ctx: &Ctx,
    ) -> (b: bool)
        ensures
            b == self.model().event_matches(*pattern, *o, watcher, ctx@),
        decreases *pattern, 0nat,
    {
        match (pattern, *o) {
            (EventPattern::ThisEnters, Occurred::Enters(id)) => id == watcher,
            (EventPattern::ThisDies, Occurred::Dies(id)) => id == watcher,
            (EventPattern::ThisAttacks, Occurred::Attacks(id)) => id == watcher,
            (EventPattern::ThisBecomesTapped, Occurred::Tapped(id)) => id == watcher,
            (EventPattern::ThisBlocks, Occurred::Blocks { blocker, .. }) => blocker == watcher,
            (EventPattern::ThisBecomesBlocked, Occurred::BecomesBlocked { attacker, .. }) => attacker
                == watcher,
            (
                EventPattern::ThisDealsCombatDamageToPlayer,
                Occurred::CombatDamageToPlayer { source, .. },
            ) => source == watcher,
            (EventPattern::Enters(f), Occurred::Enters(id)) => self.object_matches(id, f, ctx),
            (EventPattern::Dies(f), Occurred::Dies(id)) => self.object_matches(id, f, ctx),
            (EventPattern::Upkeep(whose), Occurred::Step { phase, active }) => phase
                == Phase::Upkeep && in_list(&self.players_of(whose, ctx), active),
            (EventPattern::EndStep(whose), Occurred::Step { phase, active }) => phase == Phase::End
                && in_list(&self.players_of(whose, ctx), active),
            (EventPattern::BeginCombat(whose), Occurred::Step { phase, active }) => phase
                == Phase::BeginCombat && in_list(&self.players_of(whose, ctx), active),
            (EventPattern::Cast { who, filter }, Occurred::Cast { seat, spell }) => in_list(
                &self.players_of(who, ctx),
                seat,
            ) && self.spell_matches(spell, filter, ctx),
            (EventPattern::GainsLife(whose), Occurred::GainsLife(seat)) => in_list(
                &self.players_of(whose, ctx),
                seat,
            ),
            (EventPattern::Discards(whose), Occurred::Discards(seat)) => in_list(
                &self.players_of(whose, ctx),
                seat,
            ),
            (EventPattern::Any(es), _) => self.any_event_matches(&**es, o, watcher, ctx),
            _ => false,
        }
    }

    fn any_event_matches(
        &self,
        es: &Vec<EventPattern>,
        o: &Occurred,
        watcher: ObjectId,
        ctx: &Ctx,
    ) -> (b: bool)
        ensures
            b == self.model().any_event_matches(es@, *o, watcher, ctx@, es@.len()),
        decreases es@, 0nat,
    {
        let mut b = false;
        let mut i: usize = 0;
        while i < es.len()
            invariant
                i <= es.len(),
                b == self.model().any_event_matches(es@, *o, watcher, ctx@, i as nat),
            decreases es.len() - i,
        {
            if self.event_matches(&es[i], o, watcher, ctx) {
                b = true;
            }
            i = i + 1;
        }
        b
    }

    fn fired_of(&self, o: &Occurred, watcher: ObjectId) -> (r: Vec<FiredTrigger>)
        ensures
            views(r@) == (if self.model().has_def(watcher) {
                self.model().fired_of(*o, watcher, self.model().def(watcher).triggers.len())
            } else {
                Seq::empty()
            }),
    {
        let mut out: Vec<FiredTrigger> = Vec::new();
        let controller = match self.find_obj(watcher) {
            Some(obj) => obj.controller,
            None => {
                return out;
            },
        };
        let def = match self.find_def(watcher) {
            Some(def) => def,
            None => {
                return out;
            },
        };
        let cause = o.triggering();
        let ctx = Ctx::new(controller, Some(watcher), Vec::new(), Some(cause));
        let mut i: usize = 0;
        while i < def.ir.triggers.len()
            invariant
                i <= def.ir.triggers.len(),
                self.model().has_def(watcher),
                def@ == self.model().def(watcher),
                controller == self.model().obj(watcher).controller,
                cause == o.cause(),
                ctx@ == CtxModel::fresh(controller, Some(watcher), Seq::empty(), Some(cause)),
                views(out@) == self.model().fired_of(*o, watcher, i as nat),
            decreases def.ir.triggers.len() - i,
        {
            let t = &def.ir.triggers[i];
            let holds = match &t.condition {
                Some(c) => self.condition_holds(c, &ctx),
                None => true,
            };
            if holds && self.event_matches(&t.event, o, watcher, &ctx) {
                out.push(
                    FiredTrigger {
                        source: watcher,
                        controller,
                        kind: FiredKind::Card(i as u8),
                        triggering: Some(cause),
                    },
                );
            }
            i = i + 1;
        }
        out
    }

    /// Queue every trigger on the battlefield (plus the occurrence's own
    /// extra watcher) whose event pattern matches, if its intervening "if" holds.
    fn fire(&mut self, o: &Occurred)
        ensures
            final(self).model() == old(self).model().fire(*o),
    {
        let ghost g = self.model();
        let mut watchers = self.battlefield_objects();
        if let Occurred::Dies(id) = *o {
            if !in_list(&watchers, id) {
                watchers.push(id);
            }
        }
        let mut all: Vec<FiredTrigger> = Vec::new();
        let mut i: usize = 0;
        while i < watchers.len()
            invariant
                i <= watchers.len(),
                g == self.model(),
                views(all@) == g.fired_by(*o, watchers@, i as nat),
            decreases watchers.len() - i,
        {
            let mut more = self.fired_of(o, watchers[i]);
            all.append(&mut more);
            i = i + 1;
            assert(views(all@) =~= g.fired_by(*o, watchers@, i as nat));
        }
        self.fired.append(&mut all);
    }

    fn fire_prowess(&mut self, seat: Seat, spell: ObjectId)
        ensures
            final(self).model() == old(self).model().fire_prowess(seat, spell),
    {
        if self.is_creature(spell) {
            return ;
        }
        let ghost g = self.model();
        let ids = self.battlefield_of(seat);
        let mut all: Vec<FiredTrigger> = Vec::new();
        let mut i: usize = 0;
        while i < ids.len()
            invariant
                i <= ids.len(),
                g == self.model(),
                views(all@) == g.prowess_of(seat, spell, ids@, i as nat),
            decreases ids.len() - i,
        {
            if self.is_creature(ids[i]) && self.has_keyword(ids[i], Keyword::Prowess) {
                all.push(
                    FiredTrigger {
                        source: ids[i],
                        controller: seat,
                        kind: FiredKind::Prowess,
                        triggering: Some(Target::Object(spell)),
                    },
                );
            }
            i = i + 1;
        }
        self.fired.append(&mut all);
    }

    /// Fire every delayed trigger whose moment this is.
    fn fire_delayed(&mut self, at: DelayedAt)
        ensures
            final(self).model() == old(self).model().fire_delayed(at),
    {
        let ghost ds = self.model().delayed;
        let mut all: Vec<FiredTrigger> = Vec::new();
        let mut rest: Vec<DelayedTrigger> = Vec::new();
        let mut i: usize = 0;
        while i < self.delayed.len()
            invariant
                i <= self.delayed.len(),
                self.model() == old(self).model(),
                ds == self.model().delayed,
                views(all@) == due(ds, at, i as nat),
                views(rest@) == not_due(ds, at, i as nat),
            decreases self.delayed.len() - i,
        {
            let d = self.delayed[i].duplicate();
            if d.at == at {
                all.push(
                    FiredTrigger {
                        source: d.source,
                        controller: d.controller,
                        kind: FiredKind::Delayed { effects: d.effects, ctx: d.ctx },
                        triggering: None,
                    },
                );
            } else {
                rest.push(d);
            }
            i = i + 1;
        }
        self.delayed = rest;
        self.fired.append(&mut all);
    }

    fn triggers_for_event(&mut self, event: &Event)
        ensures
            final(self).model() == old(self).model().triggers_for_event(event.facts()),
    {
        let os = occurrences_of(event, self.active_player);
        if let EventBase::Cast { seat, object, .. } = event {
            self.fire_prowess(*seat, *object);
        }
        let ghost before = self.model();
        let mut i: usize = 0;
        while i < os.len()
            invariant
                i <= os.len(),
                self.model() == before.fire_all(os@, i as nat),
            decreases os.len() - i,
        {
            self.fire(&os[i]);
            i = i + 1;
        }
        if let EventBase::PhaseChanged { phase } = event {
            if *phase == Phase::End {
                self.fire_delayed(DelayedAt::NextEndStep);
            }
        }
    }

    /// Scan events emitted since the last scan and queue the triggers they cause.
    pub(crate) fn collect_triggers(&mut self)
        ensures
            final(self).model() == old(self).model().collect_triggers(),
    {
        let start: usize = self.trigger_cursor;
        let end: usize = self.log.len();
        let events = if start < end {
            crate::event::copied_events(&self.log, start)
        } else {
            Vec::new()
        };
        self.trigger_cursor = end;
        let ghost before = self.model();
        let ghost log = before.log;
        let mut i: usize = 0;
        assert(before.triggers_between(log, start as nat, start as nat) == before);
        while i < events.len()
            invariant
                i <= events.len(),
                end == log.len(),
                start < end ==> views(events@) == log.subrange(start as int, end as int),
                start >= end ==> events@.len() == 0,
                self.model() == before.triggers_between(log, start as nat, (start + i) as nat),
            decreases events.len() - i,
        {
            assert(events@[i as int].facts() == views(events@)[i as int]);
            self.triggers_for_event(&events[i]);
            i = i + 1;
        }
        assert(self.model() == before.triggers_between(log, start as nat, end as nat)) by {
            if start < end {
                assert(views(events@).len() == events@.len());
            }
        }
    }

    fn push_trigger(&mut self, f: &FiredTrigger, targets: &Vec<Target>)
        ensures
            final(self).model() == old(self).model().push_trigger(f@, targets@),
    {
        let kind = match &f.kind {
            FiredKind::Card(i) => StackKind::Trigger {
                source: f.source,
                index: *i,
                triggering: f.triggering,
            },
            FiredKind::Prowess => StackKind::Prowess { source: f.source },
            FiredKind::Delayed { effects, ctx } => StackKind::Delayed {
                source: f.source,
                effects: crate::seqs::share(effects),
                ctx: ctx.clone(),
            },
        };
        let description = self.describe_stack_kind(&kind);
        self.stack.push(
            StackObject {
                object: f.source,
                controller: f.controller,
                targets: copied(targets),
                kind,
                modes: Vec::new(),
                x: 0,
            },
        );
        self.emit(
            EventBase::Triggered { source: f.source, description, targets: copied(targets) },
        );
    }

    fn trigger_specs(&self, f: &FiredTrigger) -> (r: Vec<Filter>)
        ensures
            r@ == self.model().trigger_specs(f@),
    {
        match &f.kind {
            FiredKind::Card(i) => match self.find_def(f.source) {
                Some(def) => if (*i as usize) < def.ir.triggers.len() {
                    copied_filters(&def.ir.triggers[*i as usize].targets)
                } else {
                    Vec::new()
                },
                None => Vec::new(),
            },
            _ => Vec::new(),
        }
    }

    fn all_targetable(&self, specs: &Vec<Filter>, ctx: &Ctx) -> (b: bool)
        ensures
            b == self.model().all_targetable(specs@, ctx@),
    {
        let mut i: usize = 0;
        while i < specs.len()
            invariant
                i <= specs.len(),
                forall|j: int|
                    0 <= j < i ==> self.model().targets_for(#[trigger] specs@[j], ctx@).len() > 0,
            decreases specs.len() - i,
        {
            let ts = self.targets_for(&specs[i], ctx);
            if ts.len() == 0 {
                assert(self.model().targets_for(specs@[i as int], ctx@).len() == 0);
                return false;
            }
            i = i + 1;
        }
        true
    }

    /// The standing triggers in APNAP order.
    fn line_up(&self, fired: Vec<FiredTrigger>) -> (r: Vec<FiredTrigger>)
        ensures
            views(r@) == self.model().line_up(
                self.model().apnap(),
                views(fired@),
                views(fired@).len(),
            ),
    {
        let order = self.apnap();
        let ghost fs = views(fired@);
        let ghost g = self.model();
        let mut rest = reversed(fired);
        let mut line: Vec<FiredTrigger> = Vec::new();
        let ghost mut n: nat = 0;
        while rest.len() > 0
            invariant
                g == self.model(),
                order@ == g.apnap(),
                n + rest@.len() == fs.len(),
                forall|k: int|
                    0 <= k < rest@.len() ==> #[trigger] rest@[k]@ == fs[fs.len() - 1 - k],
                views(line@) == g.line_up(order@, fs, n),
            decreases rest.len(),
        {
            let ghost last = rest@.len() - 1;
            assert(rest@[last]@ == fs[n as int]);
            match rest.pop() {
                Some(f) => {
                    if self.objects.contains(f.source) && in_list(&self.turn_order, f.controller) {
                        let place: usize = place_in(&order, f.controller);
                        let ghost l = views(line@);
                        let mut j: usize = line.len();
                        while j > 0 && place_in(&order, line[j - 1].controller) > place
                            invariant
                                j <= line.len(),
                                l == views(line@),
                                place == turn_place(order@, f@.controller),
                                line_slot(order@, l, f@, l.len()) == line_slot(
                                    order@,
                                    l,
                                    f@,
                                    j as nat,
                                ),
                            decreases j,
                        {
                            j = j - 1;
                        }
                        let ghost before = line@;
                        let ghost fv = f@;
                        line.insert(j, f);
                        assert(views(line@) =~= views(before).insert(j as int, fv));
                    }
                },
                None => {},
            }
            proof {
                n = n + 1;
            }
        }
        line
    }

    /// Put fired triggers on the stack in APNAP order. Stops (returns `false`)
    /// when a trigger needs its controller to choose targets.
    pub(crate) fn place_triggers(&mut self) -> (done: bool)
        ensures
            (final(self).model(), done) == old(self).model().place_triggers(),
    {
        if self.fired.len() == 0 {
            return true;
        }
        let ghost start = self.model();
        let line = self.line_up(duplicate_all(&self.fired));
        self.fired = Vec::new();
        let ghost l = views(line@);
        let mut rest = reversed(line);
        let ghost mut i: nat = 0;
        while rest.len() > 0
            invariant
                start == old(self).model(),
                start.place_triggers() == self.model().place_line(l, i),
                i + rest@.len() == l.len(),
                forall|k: int| 0 <= k < rest@.len() ==> #[trigger] rest@[k]@ == l[l.len() - 1 - k],
            decreases rest.len(),
        {
            let ghost last = rest@.len() - 1;
            assert(rest@[last]@ == l[i as int]);
            match rest.pop() {
                Some(f) => {
                    let specs = self.trigger_specs(&f);
                    if specs.len() == 0 {
                        self.push_trigger(&f, &Vec::new());
                    } else {
                        let ctx = Ctx::new(
                            f.controller,
                            Some(f.source),
                            Vec::new(),
                            f.triggering,
                        );
                        if self.all_targetable(&specs, &ctx) {
                            // Ask the controller.
                            let left = reversed(rest);
                            assert(views(left@) =~= l.subrange((i + 1) as int, l.len() as int));
                            self.fired = left;
                            self.pending = Some(
                                PendingChoice::ChooseTargets {
                                    seat: f.controller,
                                    specs,
                                    trigger: f,
                                },
                            );
                            return false;
                        }
                    }
                },
                None => {},
            }
            proof {
                i = i + 1;
            }
        }
        true
    }

    /// Answer a `ChooseTargets` for a trigger, then keep placing the rest.
    pub(crate) fn choose_trigger_targets(&mut self, targets: &Vec<Target>)
        ensures
            final(self).model() == old(self).model().choose_trigger_targets(targets@),
    {
        reveal(GameModel::choose_trigger_targets);
        match self.pending.take() {
            Some(PendingChoice::ChooseTargets { trigger, .. }) => {
                self.push_trigger(&trigger, targets);
            },
            _ => {},
        }
        if self.place_triggers() {
            // Triggers went on the stack while someone held priority; the
            // active player gets priority to respond (rule 117.3b).
            if self.priority.is_none() {
                self.give_priority_to_active();
            }
        }
    }
}

} // verus!
