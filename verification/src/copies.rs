//! Copies of a game in progress. A copy has the same mathematical value as
//! what it was made from.
use crate::card::CardDef;
use crate::ir::{copied_filters, Effect};
use crate::seqs::{copied, copied_lists, group_views, share, views};
use crate::state::{branch_views, Assigned, Continuation, DelayedTrigger, FiredKind, FiredTrigger, Frame, Game, GameObject, Objects, PendingChoice, Played, PlayerState, StackKind, StackObject};
use crate::words::copied_strings;
use std::sync::Arc;
use vstd::prelude::*;

verus! {

broadcast use group_views;

/// A value a faithful copy can be made of.
pub trait Duplicate: View + Sized {
    fn duplicate(&self) -> (r: Self)
        ensures
            r@ == self@,
    ;
}

pub fn duplicate_all<T: Duplicate>(v: &Vec<T>) -> (r: Vec<T>)
    ensures
        views(r@) == views(v@),
{
    let mut r: Vec<T> = Vec::new();
    let mut i: usize = 0;
    while i < v.len()
        invariant
            i <= v.len(),
            views(r@) == views(v@).subrange(0, i as int),
        decreases v.len() - i,
    {
        r.push(v[i].duplicate());
        i = i + 1;
        assert(views(v@).subrange(0, i as int) =~= views(v@).subrange(0, i - 1).push(
            views(v@)[i - 1],
        ));
    }
    assert(views(v@).subrange(0, v@.len() as int) =~= views(v@));
    r
}

fn shared_branches(v: &Vec<Arc<Vec<Effect>>>) -> (r: Vec<Arc<Vec<Effect>>>)
    ensures
        branch_views(r@) == branch_views(v@),
{
    let mut r: Vec<Arc<Vec<Effect>>> = Vec::new();
    let mut i: usize = 0;
    while i < v.len()
        invariant
            i <= v.len(),
            r@ == v@.subrange(0, i as int),
        decreases v.len() - i,
    {
        r.push(share(&v[i]));
        i = i + 1;
    }
    assert(v@.subrange(0, v@.len() as int) =~= v@);
    r
}

impl Duplicate for Frame {
    fn duplicate(&self) -> (r: Frame) {
        match self {
            Frame::Effects { effects, next } => Frame::Effects {
                effects: share(effects),
                next: *next,
            },
            Frame::Choose { seat, options, min, max, prompt, reason, bind } => Frame::Choose {
                seat: *seat,
                options: copied(options),
                min: *min,
                max: *max,
                prompt: prompt.clone(),
                reason: *reason,
                bind: *bind,
            },
            Frame::ChooseOption { seat, labels, bind } => Frame::ChooseOption {
                seat: *seat,
                labels: copied_strings(labels),
                bind: *bind,
            },
            Frame::Branch { bind, branches } => Frame::Branch {
                bind: *bind,
                branches: shared_branches(branches),
            },
            Frame::Discard { seats, count, random } => Frame::Discard {
                seats: copied(seats),
                count: *count,
                random: *random,
            },
            Frame::Sacrifice { seats, filter, count } => Frame::Sacrifice {
                seats: copied(seats),
                filter: filter.clone(),
                count: *count,
            },
            Frame::SacrificeBound { seat, bind } => Frame::SacrificeBound {
                seat: *seat,
                bind: *bind,
            },
            Frame::DiscardBound { seat, bind } => Frame::DiscardBound { seat: *seat, bind: *bind },
            Frame::Targets { groups } => Frame::Targets { groups: copied_lists(groups) },
        }
    }
}

impl Duplicate for Continuation {
    fn duplicate(&self) -> (r: Continuation) {
        Continuation {
            ctx: self.ctx.clone(),
            specs: copied_filters(&self.specs),
            frames: duplicate_all(&self.frames),
        }
    }
}

impl Duplicate for FiredTrigger {
    fn duplicate(&self) -> (r: FiredTrigger) {
        let kind = match &self.kind {
            FiredKind::Card(i) => FiredKind::Card(*i),
            FiredKind::Prowess => FiredKind::Prowess,
            FiredKind::Delayed { effects, ctx } => FiredKind::Delayed {
                effects: share(effects),
                ctx: ctx.clone(),
            },
        };
        FiredTrigger {
            source: self.source,
            controller: self.controller,
            kind,
            triggering: self.triggering,
        }
    }
}

impl Duplicate for DelayedTrigger {
    fn duplicate(&self) -> (r: DelayedTrigger) {
        DelayedTrigger {
            at: self.at,
            source: self.source,
            controller: self.controller,
            ctx: self.ctx.clone(),
            effects: share(&self.effects),
        }
    }
}

impl Duplicate for PendingChoice {
    fn duplicate(&self) -> (r: PendingChoice) {
        match self {
            PendingChoice::Mulligan { seat } => PendingChoice::Mulligan { seat: *seat },
            PendingChoice::BottomCards { seat, count } => PendingChoice::BottomCards {
                seat: *seat,
                count: *count,
            },
            PendingChoice::DeclareAttackers { seat } => PendingChoice::DeclareAttackers {
                seat: *seat,
            },
            PendingChoice::DeclareBlockers { seat, remaining } => PendingChoice::DeclareBlockers {
                seat: *seat,
                remaining: copied(remaining),
            },
            PendingChoice::AssignDamage { seat, attacker, queue } => PendingChoice::AssignDamage {
                seat: *seat,
                attacker: *attacker,
                queue: copied(queue),
            },
            PendingChoice::Discard { seat, count } => PendingChoice::Discard {
                seat: *seat,
                count: *count,
            },
            PendingChoice::ChooseTargets { seat, specs, trigger } => PendingChoice::ChooseTargets {
                seat: *seat,
                specs: copied_filters(specs),
                trigger: trigger.duplicate(),
            },
            PendingChoice::Choose { seat, options, min, max, prompt, reason, bind, resume } => {
                PendingChoice::Choose {
                    seat: *seat,
                    options: copied(options),
                    min: *min,
                    max: *max,
                    prompt: prompt.clone(),
                    reason: *reason,
                    bind: *bind,
                    resume: resume.duplicate(),
                }
            },
            PendingChoice::ChooseOption { seat, labels, bind, resume } => {
                PendingChoice::ChooseOption {
                    seat: *seat,
                    labels: copied_strings(labels),
                    bind: *bind,
                    resume: resume.duplicate(),
                }
            },
            PendingChoice::Casting { seat, object, modes, modes_done, targets, spec, x } => {
                PendingChoice::Casting {
                    seat: *seat,
                    object: *object,
                    modes: copied(modes),
                    modes_done: *modes_done,
                    targets: copied(targets),
                    spec: *spec,
                    x: *x,
                }
            },
        }
    }
}

impl Duplicate for StackKind {
    fn duplicate(&self) -> (r: StackKind) {
        match self {
            StackKind::Spell => StackKind::Spell,
            StackKind::Ability { source, index } => StackKind::Ability {
                source: *source,
                index: *index,
            },
            StackKind::Equip { source } => StackKind::Equip { source: *source },
            StackKind::Trigger { source, index, triggering } => StackKind::Trigger {
                source: *source,
                index: *index,
                triggering: *triggering,
            },
            StackKind::Prowess { source } => StackKind::Prowess { source: *source },
            StackKind::Delayed { source, effects, ctx } => StackKind::Delayed {
                source: *source,
                effects: share(effects),
                ctx: ctx.clone(),
            },
        }
    }
}

impl Duplicate for StackObject {
    fn duplicate(&self) -> (r: StackObject) {
        StackObject {
            object: self.object,
            controller: self.controller,
            targets: copied(&self.targets),
            kind: self.kind.duplicate(),
            modes: copied(&self.modes),
            x: self.x,
        }
    }
}

impl Duplicate for GameObject {
    fn duplicate(&self) -> (r: GameObject) {
        GameObject {
            id: self.id,
            card: self.card,
            owner: self.owner,
            controller: self.controller,
            zone: self.zone,
            tapped: self.tapped,
            summoning_sick: self.summoning_sick,
            damage: self.damage,
            counters: self.counters,
            attached_to: self.attached_to,
            attacking: self.attacking,
            blocking: copied(&self.blocking),
            blocked: self.blocked,
            blocked_by: copied(&self.blocked_by),
            modifiers: copied(&self.modifiers),
            deathtouch_damaged: self.deathtouch_damaged,
        }
    }
}

impl Duplicate for PlayerState {
    fn duplicate(&self) -> (r: PlayerState) {
        PlayerState {
            name: self.name.clone(),
            life: self.life,
            eliminated: self.eliminated,
            library: copied(&self.library),
            hand: copied(&self.hand),
            graveyard: copied(&self.graveyard),
            exile: copied(&self.exile),
            battlefield: copied(&self.battlefield),
            command: copied(&self.command),
            commander_damage: copied(&self.commander_damage),
            commander_casts: copied(&self.commander_casts),
            mana_pool: self.mana_pool,
            lands_played_this_turn: self.lands_played_this_turn,
            poison: self.poison,
            mulligans: self.mulligans,
            drew_from_empty: self.drew_from_empty,
        }
    }
}

impl Duplicate for Assigned {
    fn duplicate(&self) -> (r: Assigned) {
        Assigned { attacker: self.attacker, split: copied(&self.split) }
    }
}

impl Duplicate for Played {
    fn duplicate(&self) -> (r: Played) {
        Played { seat: self.seat, action: self.action.clone() }
    }
}

impl Duplicate for CardDef {
    fn duplicate(&self) -> (r: CardDef) {
        CardDef {
            name: self.name.clone(),
            cost: self.cost,
            types: copied(&self.types),
            supertypes: copied(&self.supertypes),
            subtypes: copied_strings(&self.subtypes),
            pt: self.pt,
            text: self.text.clone(),
            set: self.set.clone(),
            keywords: copied(&self.keywords),
            token: self.token,
            colors: copied(&self.colors),
            ir: share(&self.ir),
        }
    }
}

impl Clone for Game {
    fn clone(&self) -> (r: Game)
        ensures
            r.model() == self.model(),
    {
        let pending = match &self.pending {
            Some(p) => Some(p.duplicate()),
            None => None,
        };
        let log = crate::event::copied_events(&self.log, 0);
        assert(views(self.log@).subrange(0, self.log@.len() as int) =~= views(self.log@));
        Game {
            format: share(&self.format),
            turn: self.turn,
            seating: copied(&self.seating),
            turn_order: copied(&self.turn_order),
            active_player: self.active_player,
            phase: self.phase,
            priority: self.priority,
            passed_in_succession: self.passed_in_succession,
            stack: duplicate_all(&self.stack),
            players: duplicate_all(&self.players),
            objects: Objects { items: duplicate_all(&self.objects.items) },
            pending,
            log,
            dice: self.dice,
            cards: share(&self.cards),
            seed: self.seed,
            state_version: self.state_version,
            history: duplicate_all(&self.history),
            outcome: self.outcome,
            started: self.started,
            turn_aborted: self.turn_aborted,
            damage_assignments: duplicate_all(&self.damage_assignments),
            tokens: duplicate_all(&self.tokens),
            fired: duplicate_all(&self.fired),
            delayed: duplicate_all(&self.delayed),
            trigger_cursor: self.trigger_cursor,
            combat_round: self.combat_round,
        }
    }
}

} // verus!
