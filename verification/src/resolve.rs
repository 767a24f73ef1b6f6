//! Resolving what is on top of the stack: spells, abilities, triggers.
use crate::action::Target;
use crate::casting::groups_of;
use crate::event::{EventBase, EventModel};
use crate::ir::{copied_filters, Effect, Filter, Mode};
use crate::seqs::{copied_lists, group_views, reversed, share, views};
use crate::state::{x_value, ContModel, Continuation, Ctx, CtxModel, Expiry, Frame, FrameModel, Game, GameModel, KindModel, Modifier, ModifierKind, ObjectModel, StackKind, StackModel, StackObject};
use crate::types::{ObjectId, Seat, Zone};
use std::sync::Arc;
use vstd::prelude::*;

verus! {

broadcast use group_views;

/// Nothing is left in any group.
pub open spec fn all_gone(groups: Seq<Seq<Target>>) -> bool {
    forall|i: int| 0 <= i < groups.len() ==> (#[trigger] groups[i]).len() == 0
}

/// A spell or ability with targets whose targets are all illegal on
/// resolution doesn't resolve (rule 608.2b).
pub open spec fn fizzles(specs: Seq<Filter>, targets: Seq<Target>, kept: Seq<Seq<Target>>) -> bool {
    specs.len() > 0 && targets.len() > 0 && all_gone(kept)
}

/// The `k` groups from `at` on; empty ones where there are no more.
pub open spec fn group_slice(groups: Seq<Seq<Target>>, at: nat, k: nat) -> Seq<Seq<Target>> {
    Seq::new(
        k,
        |i: int|
            if at + i < groups.len() {
                groups[at + i]
            } else {
                Seq::empty()
            },
    )
}

/// How many target specs the first `n` chosen modes have.
pub open spec fn mode_spec_count(modes: Seq<Mode>, chosen: Seq<u8>, n: nat) -> nat
    decreases n,
{
    if n == 0 || n > chosen.len() {
        0
    } else {
        mode_spec_count(modes, chosen, (n - 1) as nat) + if chosen[n - 1] < modes.len() {
            modes[chosen[n - 1] as int].targets@.len()
        } else {
            0
        }
    }
}

/// What a modal spell does, mode by mode in the order they were chosen: each
/// mode's effects refer to that mode's own targets.
pub open spec fn mode_work(
    modes: Seq<Mode>,
    chosen: Seq<u8>,
    groups: Seq<Seq<Target>>,
    n: nat,
) -> Seq<FrameModel>
    decreases n,
{
    if n == 0 || n > chosen.len() {
        Seq::empty()
    } else {
        let rest = mode_work(modes, chosen, groups, (n - 1) as nat);
        if chosen[n - 1] < modes.len() {
            let mode = modes[chosen[n - 1] as int];
            rest.push(
                FrameModel::Targets {
                    groups: group_slice(
                        groups,
                        mode_spec_count(modes, chosen, (n - 1) as nat),
                        mode.targets@.len(),
                    ),
                },
            ).push(FrameModel::Effects { effects: mode.effects@, next: 0 })
        } else {
            rest
        }
    }
}

impl GameModel {
    /// A permanent spell enters the battlefield, attached to its target if it is an aura.
    pub open spec fn spell_enters(
        self,
        object: ObjectId,
        controller: Seat,
        targets: Seq<Target>,
    ) -> GameModel {
        let aura = self.def(object).aura();
        let g = self.enter_under(object, controller);
        let attached = if aura && targets.len() > 0 && targets[0] is Object {
            let to = targets[0]->Object_0;
            g.with_obj(object, ObjectModel { attached_to: Some(to), ..g.obj(object) }).emit(
                EventModel::Attached { object, to },
            )
        } else {
            g
        };
        attached.emit(EventModel::Resolved { object })
    }

    /// An instant or sorcery leaves the stack as it resolves: every object
    /// stays in exactly one zone list while a resolution is paused on a choice.
    pub open spec fn spell_leaves(self, object: ObjectId) -> GameModel {
        self.move_object(object, Zone::Graveyard).emit(EventModel::Resolved { object })
    }

    /// What a resolving spell or ability is evaluated relative to, before
    /// illegal targets are pruned.
    pub open spec fn resolving_ctx(
        so: StackModel,
        source: ObjectId,
        specs: Seq<Filter>,
        triggering: Option<Target>,
    ) -> CtxModel {
        CtxModel {
            x: x_value(so.x),
            ..CtxModel::fresh(
                so.controller,
                Some(source),
                groups_of(specs, so.targets),
                triggering,
            )
        }
    }

    pub open spec fn resolve_spell(self, so: StackModel) -> (GameModel, bool) {
        if !self.has_def(so.object) {
            (self, true)
        } else {
            let def = self.def(so.object);
            let specs = def.cast_specs(so.modes);
            let ctx = GameModel::resolving_ctx(so, so.object, specs, None);
            let kept = self.pruned(specs, ctx.targets, ctx);
            if fizzles(specs, so.targets, kept) {
                (self.spell_leaves(so.object), true)
            } else if def.permanent() {
                (self.spell_enters(so.object, so.controller, so.targets), true)
            } else {
                let g = self.spell_leaves(so.object);
                let now = CtxModel { targets: kept, ..ctx };
                match def.spell {
                    Some(s) => if def.modal() {
                        g.run(
                            ContModel {
                                ctx: now,
                                specs,
                                frames: mode_work(
                                    s.modes@,
                                    so.modes,
                                    kept,
                                    so.modes.len(),
                                ).reverse(),
                            },
                        )
                    } else {
                        g.run(ContModel::fresh(now, specs, s.effects@))
                    },
                    None => (g, true),
                }
            }
        }
    }

    /// Run an ability's effects under its targets, unless all of them became illegal.
    pub open spec fn resolve_effects(
        self,
        so: StackModel,
        source: ObjectId,
        specs: Seq<Filter>,
        effects: Seq<Effect>,
        triggering: Option<Target>,
    ) -> (GameModel, bool) {
        let ctx = GameModel::resolving_ctx(so, source, specs, triggering);
        let kept = self.pruned(specs, ctx.targets, ctx);
        if fizzles(specs, so.targets, kept) {
            (self, true)
        } else {
            self.run(ContModel::fresh(CtxModel { targets: kept, ..ctx }, specs, effects))
        }
    }

    /// Attach an equipment to the creature it targets, if it still may be.
    pub open spec fn resolve_equip(self, so: StackModel, source: ObjectId) -> GameModel {
        if so.targets.len() > 0 && so.targets[0] is Object {
            let to = so.targets[0]->Object_0;
            if self.in_zone(to, Zone::Battlefield) && self.obj(to).controller == so.controller
                && self.creature(to) && self.in_zone(source, Zone::Battlefield) {
                self.with_obj(
                    source,
                    ObjectModel { attached_to: Some(to), ..self.obj(source) },
                ).emit(EventModel::Attached { object: source, to })
            } else {
                self
            }
        } else {
            self
        }
    }

    /// +1/+1 until end of turn.
    pub open spec fn resolve_prowess(self, source: ObjectId) -> GameModel {
        if self.in_zone(source, Zone::Battlefield) {
            self.with_obj(
                source,
                ObjectModel {
                    modifiers: self.obj(source).modifiers.push(
                        Modifier {
                            kind: ModifierKind::Pt { power: 1, toughness: 1 },
                            expires: Expiry::EndOfTurn,
                        },
                    ),
                    ..self.obj(source)
                },
            )
        } else {
            self
        }
    }

    /// Resolve an object taken off the stack; `false` if resolution paused on a choice.
    pub open spec fn resolve(self, so: StackModel) -> (GameModel, bool) {
        match so.kind {
            KindModel::Spell => self.resolve_spell(so),
            KindModel::Ability { source, index } => if self.has_def(source) && index < self.def(
                source,
            ).activated.len() {
                let a = self.def(source).activated[index as int];
                self.resolve_effects(so, source, a.targets@, a.effects@, None)
            } else {
                (self, true)
            },
            KindModel::Equip { source } => (self.resolve_equip(so, source), true),
            KindModel::Trigger { source, index, triggering } => if self.has_def(source) && index
                < self.def(source).triggers.len() {
                let t = self.def(source).triggers[index as int];
                self.resolve_effects(so, source, t.targets@, t.effects@, triggering)
            } else {
                (self, true)
            },
            KindModel::Prowess { source } => (self.resolve_prowess(source), true),
            KindModel::Delayed { effects, ctx, .. } => self.run(
                ContModel::fresh(ctx, Seq::empty(), effects),
            ),
        }
    }
}

fn nothing_left(groups: &Vec<Vec<Target>>) -> (b: bool)
    ensures
        b == all_gone(views(groups@)),
{
    let mut i: usize = 0;
    while i < groups.len()
        invariant
            i <= groups.len(),
            forall|j: int| 0 <= j < i ==> (#[trigger] views(groups@)[j]).len() == 0,
        decreases groups.len() - i,
    {
        if groups[i].len() != 0 {
            assert(views(groups@)[i as int].len() != 0);
            return false;
        }
        i = i + 1;
    }
    true
}

fn slice_groups(groups: &Vec<Vec<Target>>, at: usize, k: usize) -> (r: Vec<Vec<Target>>)
    ensures
        views(r@) == group_slice(views(groups@), at as nat, k as nat),
{
    let ghost want = group_slice(views(groups@), at as nat, k as nat);
    let mut out: Vec<Vec<Target>> = Vec::new();
    let mut i: usize = 0;
    while i < k
        invariant
            i <= k,
            want == group_slice(views(groups@), at as nat, k as nat),
            views(out@) == want.subrange(0, i as int),
        decreases k - i,
    {
        let one: Vec<Target> = if at < groups.len() && i < groups.len() - at {
            crate::seqs::copied(&groups[at + i])
        } else {
            Vec::new()
        };
        assert(one@ =~= want[i as int]);
        out.push(one);
        i = i + 1;
        assert(want.subrange(0, i as int) =~= want.subrange(0, i - 1).push(want[i - 1]));
    }
    assert(want.subrange(0, k as int) =~= want);
    out
}

/// The frames of the chosen modes, the first mode's on top.
fn mode_frames(modes: &Vec<Mode>, chosen: &Vec<u8>, groups: &Vec<Vec<Target>>) -> (r: Vec<Frame>)
    ensures
        views(r@) == mode_work(modes@, chosen@, views(groups@), chosen@.len()).reverse(),
{
    let mut out: Vec<Frame> = Vec::new();
    let mut at: usize = 0;
    let mut over = false;
    let mut i: usize = 0;
    while i < chosen.len()
        invariant
            i <= chosen.len(),
            !over ==> at == mode_spec_count(modes@, chosen@, i as nat),
            over ==> mode_spec_count(modes@, chosen@, i as nat) >= groups@.len() && at
                == groups@.len(),
            views(out@) == mode_work(modes@, chosen@, views(groups@), i as nat),
        decreases chosen.len() - i,
    {
        let m: usize = chosen[i] as usize;
        if m < modes.len() {
            let k: usize = modes[m].targets.len();
            let part = slice_groups(groups, at, k);
            assert(views(part@) =~= group_slice(
                views(groups@),
                mode_spec_count(modes@, chosen@, i as nat),
                k as nat,
            ));
            out.push(Frame::Targets { groups: part });
            out.push(Frame::Effects { effects: share(&modes[m].effects), next: 0 });
            if over || at >= groups.len() || k >= groups.len() - at {
                over = true;
                at = groups.len();
            } else {
                at = at + k;
            }
        }
        i = i + 1;
    }
    let ghost all = views(out@);
    let r = reversed(out);
    assert(views(r@) =~= all.reverse());
    r
}

impl Game {
    fn spell_leaves(&mut self, object: ObjectId)
        ensures
            final(self).model() == old(self).model().spell_leaves(object),
    {
        self.move_object(object, Zone::Graveyard);
        self.emit(EventBase::Resolved { object });
    }

    fn spell_enters(&mut self, object: ObjectId, controller: Seat, targets: &Vec<Target>)
        requires
            old(self).model().has_def(object),
        ensures
            final(self).model() == old(self).model().spell_enters(object, controller, targets@),
    {
        let aura = self.card_def(object).is_aura();
        self.enter_under(object, controller);
        if aura && targets.len() > 0 {
            if let Target::Object(to) = targets[0] {
                match self.obj_mut(object) {
                    Some(o) => {
                        o.attached_to = Some(to);
                    },
                    None => {},
                }
                self.emit(EventBase::Attached { object, to });
            }
        }
        self.emit(EventBase::Resolved { object });
    }

    fn resolving_ctx(
        so: &StackObject,
        source: ObjectId,
        specs: &Vec<Filter>,
        triggering: Option<Target>,
    ) -> (r: Ctx)
        ensures
            r@ == GameModel::resolving_ctx(so@, source, specs@, triggering),
    {
        let groups = Game::group_targets(specs, &so.targets);
        Ctx::new(so.controller, Some(source), groups, triggering).with_x(so.x)
    }

    fn resolve_spell(&mut self, so: &StackObject) -> (done: bool)
        ensures
            (final(self).model(), done) == old(self).model().resolve_spell(so@),
    {
        let object = so.object;
        let (specs, permanent) = match self.find_def(object) {
            Some(def) => (Game::cast_specs(def, &so.modes), def.is_permanent()),
            None => {
                return true;
            },
        };
        let mut ctx = Game::resolving_ctx(so, object, &specs, None);
        let kept = self.prune_targets(&specs, &ctx.targets, &ctx);
        if specs.len() > 0 && so.targets.len() > 0 && nothing_left(&kept) {
            // The spell does nothing and goes to the graveyard.
            self.spell_leaves(object);
            return true;
        }
        if permanent {
            self.spell_enters(object, so.controller, &so.targets);
            return true;
        }
        ctx.targets = copied_lists(&kept);
        let work: Option<Continuation> = match self.find_def(object) {
            Some(def) => match &def.ir.spell {
                Some(s) => if def.is_modal() {
                    let frames = mode_frames(&s.modes, &so.modes, &kept);
                    Some(Continuation { ctx, specs, frames })
                } else {
                    Some(Continuation::new(ctx, specs, share(&s.effects)))
                },
                None => None,
            },
            None => None,
        };
        self.spell_leaves(object);
        match work {
            Some(k) => self.run(k),
            None => true,
        }
    }

    fn resolve_effects(
        &mut self,
        so: &StackObject,
        source: ObjectId,
        specs: Vec<Filter>,
        effects: Arc<Vec<Effect>>,
        triggering: Option<Target>,
    ) -> (done: bool)
        ensures
            (final(self).model(), done) == old(self).model().resolve_effects(
                so@,
                source,
                specs@,
                effects@,
                triggering,
            ),
    {
        let mut ctx = Game::resolving_ctx(so, source, &specs, triggering);
        let kept = self.prune_targets(&specs, &ctx.targets, &ctx);
        if specs.len() > 0 && so.targets.len() > 0 && nothing_left(&kept) {
            return true;
        }
        ctx.targets = kept;
        self.run(Continuation::new(ctx, specs, effects))
    }

    fn resolve_equip(&mut self, so: &StackObject, source: ObjectId)
        ensures
            final(self).model() == old(self).model().resolve_equip(so@, source),
    {
        if so.targets.len() == 0 {
            return ;
        }
        if let Target::Object(to) = so.targets[0] {
            let mine = match self.find_obj(to) {
                Some(o) => o.zone == Zone::Battlefield && o.controller == so.controller,
                None => false,
            };
            if mine && self.is_creature(to) && self.is_in(source, Zone::Battlefield) {
                match self.obj_mut(source) {
                    Some(o) => {
                        o.attached_to = Some(to);
                    },
                    None => {},
                }
                self.emit(EventBase::Attached { object: source, to });
            }
        }
    }

    fn resolve_prowess(&mut self, source: ObjectId)
        ensures
            final(self).model() == old(self).model().resolve_prowess(source),
    {
        match self.obj_mut(source) {
            Some(o) => {
                if o.zone == Zone::Battlefield {
                    o.modifiers.push(
                        Modifier {
                            kind: ModifierKind::Pt { power: 1, toughness: 1 },
                            expires: Expiry::EndOfTurn,
                        },
                    );
                }
            },
            None => {},
        }
    }

    /// Resolve the top object. Returns `false` if resolution paused on a choice.
    pub(crate) fn resolve(&mut self, so: StackObject) -> (done: bool)
        ensures
            (final(self).model(), done) == old(self).model().resolve(so@),
    {
        match &so.kind {
            StackKind::Spell => self.resolve_spell(&so),
            StackKind::Ability { source, index } => {
                let i: usize = *index as usize;
                let (specs, effects) = match self.find_def(*source) {
                    Some(def) => if i < def.ir.activated.len() {
                        let a = &def.ir.activated[i];
                        (copied_filters(&a.targets), share(&a.effects))
                    } else {
                        return true;
                    },
                    None => {
                        return true;
                    },
                };
                self.resolve_effects(&so, *source, specs, effects, None)
            },
            StackKind::Equip { source } => {
                self.resolve_equip(&so, *source);
                true
            },
            StackKind::Trigger { source, index, triggering } => {
                let i: usize = *index as usize;
                let (specs, effects) = match self.find_def(*source) {
                    Some(def) => if i < def.ir.triggers.len() {
                        let t = &def.ir.triggers[i];
                        (copied_filters(&t.targets), share(&t.effects))
                    } else {
                        return true;
                    },
                    None => {
                        return true;
                    },
                };
                self.resolve_effects(&so, *source, specs, effects, *triggering)
            },
            StackKind::Prowess { source } => {
                self.resolve_prowess(*source);
                true
            },
            StackKind::Delayed { effects, ctx, .. } => {
                self.run(Continuation::new(ctx.clone(), Vec::new(), share(effects)))
            },
        }
    }
}

} // verus!
