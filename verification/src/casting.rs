//! Casting in steps: a modal spell, or one with a caster-chosen number of
//! targets, is paid for first and then asks for its modes and each target
//! spec in turn before it goes on the stack. Also the target bookkeeping
//! every resolution shares: grouping a flat target list by spec and pruning
//! targets that became illegal.
use crate::action::Target;
use crate::card::{CardDef, CardModel};
use crate::error::{ErrorModel, RulesError};
use crate::event::{EventBase, EventModel};
use crate::ir::{copied_filters, Filter, Mode};
use crate::seqs::{copied, extend, group_views, in_list, slice, views};
use crate::state::{Ctx, CtxModel, Game, GameModel, KindModel, ObjectModel, PendingChoice, PendingModel, StackKind, StackModel, StackObject};
use crate::types::{ObjectId, Seat, Zone};
use vstd::prelude::*;
use vstd::string::*;

verus! {

broadcast use group_views;

/// The `ChooseMode` value that ends mode selection for "choose one or both".
pub const NO_MORE_MODES: u8 = 255;

// ----- what a cast asks for -----

/// Some spec lets the caster pick how many targets it takes.
pub open spec fn any_variable(specs: Seq<Filter>) -> bool {
    exists|i: int| 0 <= i < specs.len() && (#[trigger] specs[i]).variable()
}

/// The target specs of the first `n` chosen modes, one mode after another.
pub open spec fn mode_specs(modes: Seq<Mode>, chosen: Seq<u8>, n: nat) -> Seq<Filter>
    decreases n,
{
    if n == 0 || n > chosen.len() {
        Seq::empty()
    } else {
        let rest = mode_specs(modes, chosen, (n - 1) as nat);
        if chosen[n - 1] < modes.len() {
            rest + modes[chosen[n - 1] as int].targets@
        } else {
            rest
        }
    }
}

impl CardModel {
    /// A non-modal spell's target specs: an aura's `enchant`, else the spell's list.
    pub open spec fn spell_specs(self) -> Seq<Filter> {
        match self.enchant {
            Some(f) => seq![f],
            None => match self.spell {
                Some(s) => s.targets@,
                None => Seq::empty(),
            },
        }
    }

    /// Cast in steps rather than with its targets listed up front.
    pub open spec fn two_step(self) -> bool {
        self.modal() || any_variable(self.spell_specs())
    }

    /// The target specs a cast asks for, in order.
    pub open spec fn cast_specs(self, chosen: Seq<u8>) -> Seq<Filter> {
        if self.modal() {
            mode_specs(self.spell->0.modes@, chosen, chosen.len())
        } else {
            self.spell_specs()
        }
    }

    /// Enough modes are chosen.
    pub open spec fn modes_complete(self, chosen: nat, done: bool) -> bool {
        self.modal() ==> chosen >= self.spell->0.choice.most() || (done && chosen
            >= self.spell->0.choice.least())
    }
}

// ----- grouping and pruning -----

/// How many targets the fixed-count specs among the first `n` take.
pub open spec fn fixed_targets(specs: Seq<Filter>, n: nat) -> nat
    decreases n,
{
    if n == 0 || n > specs.len() {
        0
    } else {
        let rest = fixed_targets(specs, (n - 1) as nat);
        match specs[n - 1].most() {
            Some(k) => if specs[n - 1].variable() {
                rest
            } else {
                rest + k
            },
            None => rest,
        }
    }
}

/// How many targets a spec takes when the variable one takes `rest`.
pub open spec fn share_of(spec: Filter, rest: nat) -> nat {
    if spec.variable() {
        rest
    } else {
        match spec.most() {
            Some(k) => k,
            None => 0,
        }
    }
}

/// What the fixed-count specs leave.
pub open spec fn leftover(specs: Seq<Filter>, targets: nat) -> nat {
    let fixed = fixed_targets(specs, specs.len());
    if targets > fixed {
        (targets - fixed) as nat
    } else {
        0
    }
}

/// Where the share of spec `n` starts.
pub open spec fn group_start(specs: Seq<Filter>, targets: nat, n: nat) -> nat
    decreases n,
{
    if n == 0 || n > specs.len() {
        0
    } else {
        let end = group_start(specs, targets, (n - 1) as nat) + share_of(
            specs[n - 1],
            leftover(specs, targets),
        );
        if end < targets {
            end
        } else {
            targets
        }
    }
}

/// A flat target list as one group per spec: fixed-count specs take their
/// share in order; the one variable spec takes the rest.
pub open spec fn groups_of(specs: Seq<Filter>, targets: Seq<Target>) -> Seq<Seq<Target>> {
    Seq::new(
        specs.len(),
        |i: int|
            targets.subrange(
                group_start(specs, targets.len(), i as nat) as int,
                group_start(specs, targets.len(), (i + 1) as nat) as int,
            ),
    )
}

impl GameModel {
    /// Those of the first `n` targets that are legal.
    pub open spec fn legal_n(self, group: Seq<Target>, f: Filter, ctx: CtxModel, n: nat) -> Seq<
        Target,
    >
        decreases n,
    {
        if n == 0 || n > group.len() {
            Seq::empty()
        } else {
            let rest = self.legal_n(group, f, ctx, (n - 1) as nat);
            if self.target_is_legal(group[n - 1], f, ctx) {
                rest.push(group[n - 1])
            } else {
                rest
            }
        }
    }

    /// The groups without targets that are no longer legal for their spec (rule 608.2b).
    pub open spec fn pruned(
        self,
        specs: Seq<Filter>,
        groups: Seq<Seq<Target>>,
        ctx: CtxModel,
    ) -> Seq<Seq<Target>> {
        Seq::new(
            groups.len(),
            |i: int|
                if i < specs.len() {
                    self.legal_n(groups[i], specs[i].inner(), ctx, groups[i].len())
                } else {
                    Seq::empty()
                },
        )
    }

    /// There are enough legal targets for a spec.
    pub open spec fn spec_fillable(self, spec: Filter, ctx: CtxModel) -> bool {
        spec.least() == 0 || self.targets_for(spec.inner(), ctx).len() >= spec.least()
    }

    /// There are enough legal targets for every spec.
    pub open spec fn all_fillable(self, specs: Seq<Filter>, ctx: CtxModel) -> bool {
        forall|i: int| 0 <= i < specs.len() ==> self.spec_fillable(#[trigger] specs[i], ctx)
    }

    /// Whether `seat` could pick this mode: every fixed target spec has
    /// enough legal targets.
    pub open spec fn mode_castable(self, seat: Seat, object: ObjectId, mode: nat) -> bool {
        &&& self.has_def(object)
        &&& self.def(object).spell matches Some(s) && mode < s.modes@.len() && self.all_fillable(
            s.modes@[mode as int].targets@,
            CtxModel::simple(seat, Some(object)),
        )
    }

    /// How many of the first `n` modes could be picked.
    pub open spec fn castable_modes(self, seat: Seat, object: ObjectId, n: nat) -> nat
        decreases n,
    {
        if n == 0 {
            0
        } else {
            self.castable_modes(seat, object, (n - 1) as nat) + if self.mode_castable(
                seat,
                object,
                (n - 1) as nat,
            ) {
                1nat
            } else {
                0nat
            }
        }
    }

    /// Whether a two-step spell can be cast at all.
    pub open spec fn two_step_castable(self, seat: Seat, object: ObjectId) -> bool {
        self.has_def(object) && {
            let def = self.def(object);
            if def.modal() {
                self.castable_modes(seat, object, def.spell->0.modes@.len())
                    >= def.spell->0.choice.least()
            } else {
                self.all_fillable(def.spell_specs(), CtxModel::simple(seat, Some(object)))
            }
        }
    }

    /// The modes among the first `n` still on offer: `(index, text)`.
    pub open spec fn modes_on_offer(
        self,
        seat: Seat,
        object: ObjectId,
        modes: Seq<Mode>,
        chosen: Seq<u8>,
        n: nat,
    ) -> Seq<(u8, Seq<char>)>
        decreases n,
    {
        if n == 0 || n > modes.len() {
            Seq::empty()
        } else {
            let rest = self.modes_on_offer(seat, object, modes, chosen, (n - 1) as nat);
            let i = (n - 1) as u8;
            if !chosen.contains(i) && self.mode_castable(seat, object, (n - 1) as nat) {
                rest.push((i, modes[n - 1].text@))
            } else {
                rest
            }
        }
    }

    /// The modes still on offer while casting, plus the end of the choice
    /// once "one or both" may stop.
    pub open spec fn mode_options(self, seat: Seat, object: ObjectId, chosen: Seq<u8>) -> Seq<
        (u8, Seq<char>),
    > {
        if self.has_def(object) && self.def(object).spell is Some {
            let s = self.def(object).spell->0;
            let open = self.modes_on_offer(seat, object, s.modes@, chosen, s.modes@.len());
            if chosen.len() >= s.choice.least() && chosen.len() < s.modes@.len() {
                open.push((NO_MORE_MODES, "No more modes"@))
            } else {
                open
            }
        } else {
            Seq::empty()
        }
    }

    // ----- the steps -----

    /// The spell goes on the stack with everything chosen; the caster gets
    /// priority.
    pub open spec fn put_on_stack(
        self,
        seat: Seat,
        object: ObjectId,
        modes: Seq<u8>,
        targets: Seq<Target>,
        x: u32,
    ) -> GameModel {
        let g = self.with_obj(
            object,
            ObjectModel { controller: seat, ..self.obj(object) },
        ).move_object(object, Zone::Stack);
        GameModel {
            stack: g.stack.push(
                StackModel { object, controller: seat, targets, kind: KindModel::Spell, modes, x },
            ),
            ..g
        }.emit(EventModel::Cast { seat, object, targets }).give_priority(seat)
    }

    /// How many target specs of the cast in progress are still to be looked at.
    pub open spec fn specs_left(self) -> nat {
        match self.pending {
            Some(PendingModel::Casting { object, modes, spec, .. }) => {
                let n = self.def(object).cast_specs(modes).len();
                if spec < n {
                    (n - spec) as nat
                } else {
                    0
                }
            },
            _ => 0,
        }
    }

    /// Move the cast along: wait for a mode or a target spec that needs a
    /// decision, skip specs with nothing to pick, and finish when done.
    pub open spec fn advance_casting(self) -> GameModel
        decreases self.specs_left(),
    {
        match self.pending {
            Some(PendingModel::Casting { seat, object, modes, modes_done, targets, spec, x }) => {
                let def = self.def(object);
                let specs = def.cast_specs(modes);
                if !self.has_def(object) || !def.modes_complete(modes.len(), modes_done) {
                    self
                } else if spec >= specs.len() {
                    GameModel { pending: None, ..self }.put_on_stack(
                        seat,
                        object,
                        modes,
                        targets,
                        x,
                    )
                } else if specs[spec as int].least() == 0 && self.targets_for(
                    specs[spec as int].inner(),
                    CtxModel::simple(seat, Some(object)),
                ).len() == 0 {
                    GameModel {
                        pending: Some(
                            PendingModel::Casting {
                                seat,
                                object,
                                modes,
                                modes_done,
                                targets,
                                spec: spec + 1,
                                x,
                            },
                        ),
                        ..self
                    }.advance_casting()
                } else {
                    self
                }
            },
            _ => self,
        }
    }

    /// Begin casting a two-step spell: mana is paid, the card stays in hand
    /// while its modes and targets are chosen, nobody holds priority.
    pub open spec fn begin_two_step_cast(self, seat: Seat, object: ObjectId, x: u32) -> GameModel {
        GameModel {
            pending: Some(
                PendingModel::Casting {
                    seat,
                    object,
                    modes: Seq::empty(),
                    modes_done: false,
                    targets: Seq::empty(),
                    spec: 0,
                    x,
                },
            ),
            priority: None,
            ..self
        }.advance_casting()
    }

    /// A mode is chosen for the cast in progress.
    #[verifier::opaque]
    pub open spec fn answer_cast_mode(self, mode: u8) -> GameModel {
        match self.pending {
            Some(PendingModel::Casting { seat, object, modes, modes_done, targets, spec, x }) => {
                GameModel {
                    pending: Some(
                        PendingModel::Casting {
                            seat,
                            object,
                            modes: if mode == NO_MORE_MODES {
                                modes
                            } else {
                                modes.push(mode)
                            },
                            modes_done: modes_done || mode == NO_MORE_MODES,
                            targets,
                            spec,
                            x,
                        },
                    ),
                    ..self
                }.advance_casting()
            },
            _ => self,
        }
    }

    /// Targets are chosen for the current spec of the cast in progress.
    #[verifier::opaque]
    pub open spec fn answer_cast_targets(self, chosen: Seq<Target>) -> GameModel {
        match self.pending {
            Some(PendingModel::Casting { seat, object, modes, modes_done, targets, spec, x }) => {
                GameModel {
                    pending: Some(
                        PendingModel::Casting {
                            seat,
                            object,
                            modes,
                            modes_done,
                            targets: targets + chosen,
                            spec: spec + 1,
                            x,
                        },
                    ),
                    ..self
                }.advance_casting()
            },
            _ => self,
        }
    }
}

// ----- executable parts -----

impl Game {
    /// Whether this card is cast in steps rather than with its targets listed up front.
    pub fn is_two_step(def: &CardDef) -> (b: bool)
        ensures
            b == def@.two_step(),
    {
        if def.is_modal() {
            return true;
        }
        let specs = Game::spell_specs(def);
        let mut i: usize = 0;
        while i < specs.len()
            invariant
                i <= specs.len(),
                specs@ == def@.spell_specs(),
                forall|j: int| 0 <= j < i ==> !(#[trigger] specs@[j]).variable(),
            decreases specs.len() - i,
        {
            if specs[i].is_variable() {
                assert(specs@[i as int].variable());
                return true;
            }
            i = i + 1;
        }
        false
    }

    /// A non-modal spell's target specs: an aura's `enchant`, else the spell's list.
    pub(crate) fn spell_specs(def: &CardDef) -> (r: Vec<Filter>)
        ensures
            r@ == def@.spell_specs(),
    {
        match &def.ir.enchant {
            Some(f) => {
                let mut v: Vec<Filter> = Vec::new();
                v.push(f.clone());
                assert(v@ =~= seq![*f]);
                v
            },
            None => match &def.ir.spell {
                Some(s) => copied_filters(&s.targets),
                None => Vec::new(),
            },
        }
    }

    /// The target specs a cast asks for, in order: the chosen modes' specs
    /// one mode after another, or the spell's own.
    pub fn cast_specs(def: &CardDef, modes: &Vec<u8>) -> (r: Vec<Filter>)
        ensures
            r@ == def@.cast_specs(modes@),
    {
        if !def.is_modal() {
            return Game::spell_specs(def);
        }
        let mut out: Vec<Filter> = Vec::new();
        if let Some(s) = &def.ir.spell {
            let mut i: usize = 0;
            while i < modes.len()
                invariant
                    i <= modes.len(),
                    out@ == mode_specs(s.modes@, modes@, i as nat),
                decreases modes.len() - i,
            {
                let m: usize = modes[i] as usize;
                if m < s.modes.len() {
                    push_filters(&mut out, &s.modes[m].targets);
                }
                i = i + 1;
            }
        }
        out
    }

    /// Split a flat target list into one group per spec. Fixed-count specs
    /// take their share in order; the one variable spec takes the rest.
    pub fn group_targets(specs: &Vec<Filter>, targets: &Vec<Target>) -> (r: Vec<Vec<Target>>)
        ensures
            views(r@) == groups_of(specs@, targets@),
    {
        let n: usize = targets.len();
        // What is left of the targets once the fixed-count specs have theirs.
        let mut rest: usize = n;
        let mut over = false;
        let mut i: usize = 0;
        while i < specs.len()
            invariant
                i <= specs.len(),
                n == targets@.len(),
                over == (fixed_targets(specs@, i as nat) > n),
                !over ==> rest == n - fixed_targets(specs@, i as nat),
                over ==> rest == 0,
            decreases specs.len() - i,
        {
            if !specs[i].is_variable() {
                let take: usize = match specs[i].spec_bounds().2 {
                    Some(k) => k,
                    None => 0,
                };
                if over || take > rest {
                    over = true;
                    rest = 0;
                } else {
                    rest = rest - take;
                }
            }
            i = i + 1;
        }
        let mut out: Vec<Vec<Target>> = Vec::new();
        let mut at: usize = 0;
        let mut k: usize = 0;
        while k < specs.len()
            invariant
                k <= specs.len(),
                n == targets@.len(),
                rest == leftover(specs@, n as nat),
                at == group_start(specs@, n as nat, k as nat),
                at <= n,
                views(out@) == groups_of(specs@, targets@).subrange(0, k as int),
            decreases specs.len() - k,
        {
            let take: usize = if specs[k].is_variable() {
                rest
            } else {
                match specs[k].spec_bounds().2 {
                    Some(m) => m,
                    None => 0,
                }
            };
            let end: usize = if take >= n - at {
                n
            } else {
                at + take
            };
            out.push(slice(targets, at, end));
            at = end;
            k = k + 1;
            assert(groups_of(specs@, targets@).subrange(0, k as int) =~= groups_of(
                specs@,
                targets@,
            ).subrange(0, k - 1).push(groups_of(specs@, targets@)[k - 1]));
        }
        assert(groups_of(specs@, targets@).subrange(0, specs@.len() as int) =~= groups_of(
            specs@,
            targets@,
        ));
        out
    }

    fn legal_in(&self, group: &Vec<Target>, f: &Filter, ctx: &Ctx) -> (r: Vec<Target>)
        ensures
            r@ == self.model().legal_n(group@, *f, ctx@, group@.len()),
    {
        let mut out: Vec<Target> = Vec::new();
        let mut i: usize = 0;
        while i < group.len()
            invariant
                i <= group.len(),
                out@ == self.model().legal_n(group@, *f, ctx@, i as nat),
            decreases group.len() - i,
        {
            if self.target_is_legal(group[i], f, ctx) {
                out.push(group[i]);
            }
            i = i + 1;
        }
        out
    }

    /// Drop targets that are no longer legal for their spec (rule 608.2b).
    pub fn prune_targets(&self, specs: &Vec<Filter>, groups: &Vec<Vec<Target>>, ctx: &Ctx) -> (r:
        Vec<Vec<Target>>)
        ensures
            views(r@) == self.model().pruned(specs@, views(groups@), ctx@),
    {
        let ghost want = self.model().pruned(specs@, views(groups@), ctx@);
        let mut out: Vec<Vec<Target>> = Vec::new();
        let mut i: usize = 0;
        while i < groups.len()
            invariant
                i <= groups.len(),
                want == self.model().pruned(specs@, views(groups@), ctx@),
                views(out@) == want.subrange(0, i as int),
            decreases groups.len() - i,
        {
            let kept = if i < specs.len() {
                self.legal_in(&groups[i], specs[i].spec_bounds().0, ctx)
            } else {
                Vec::new()
            };
            assert(kept@ =~= want[i as int]);
            out.push(kept);
            i = i + 1;
            assert(want.subrange(0, i as int) =~= want.subrange(0, i - 1).push(want[i - 1]));
        }
        assert(want.subrange(0, groups@.len() as int) =~= want);
        out
    }

    fn can_fill(&self, spec: &Filter, ctx: &Ctx) -> (b: bool)
        ensures
            b == self.model().spec_fillable(*spec, ctx@),
    {
        let (inner, least, _) = spec.spec_bounds();
        if least == 0 {
            return true;
        }
        let ts = self.targets_for(inner, ctx);
        ts.len() >= least
    }

    pub(crate) fn can_fill_all(&self, specs: &Vec<Filter>, ctx: &Ctx) -> (b: bool)
        ensures
            b == self.model().all_fillable(specs@, ctx@),
    {
        let mut i: usize = 0;
        while i < specs.len()
            invariant
                i <= specs.len(),
                forall|j: int|
                    0 <= j < i ==> self.model().spec_fillable(#[trigger] specs@[j], ctx@),
            decreases specs.len() - i,
        {
            if !self.can_fill(&specs[i], ctx) {
                assert(!self.model().spec_fillable(specs@[i as int], ctx@));
                return false;
            }
            i = i + 1;
        }
        true
    }

    /// Whether `seat` could pick this mode now: every fixed target spec has
    /// enough legal targets.
    pub fn mode_castable(&self, seat: Seat, object: ObjectId, mode: usize) -> (b: bool)
        ensures
            b == self.model().mode_castable(seat, object, mode as nat),
    {
        match self.find_def(object) {
            Some(def) => match &def.ir.spell {
                Some(s) => if mode < s.modes.len() {
                    let ctx = Ctx::simple(seat, Some(object));
                    self.can_fill_all(&s.modes[mode].targets, &ctx)
                } else {
                    false
                },
                None => false,
            },
            None => false,
        }
    }

    /// Whether a two-step spell can be cast at all right now.
    pub fn two_step_castable(&self, seat: Seat, object: ObjectId) -> (b: bool)
        ensures
            b == self.model().two_step_castable(seat, object),
    {
        match self.find_def(object) {
            Some(def) => {
                if def.is_modal() {
                    match &def.ir.spell {
                        Some(s) => {
                            let mut n: usize = 0;
                            let mut i: usize = 0;
                            while i < s.modes.len()
                                invariant
                                    i <= s.modes.len(),
                                    n <= i,
                                    n == self.model().castable_modes(seat, object, i as nat),
                                decreases s.modes.len() - i,
                            {
                                if self.mode_castable(seat, object, i) {
                                    n = n + 1;
                                }
                                i = i + 1;
                            }
                            n >= s.choice.bounds().0
                        },
                        None => false,
                    }
                } else {
                    let specs = Game::spell_specs(def);
                    let ctx = Ctx::simple(seat, Some(object));
                    self.can_fill_all(&specs, &ctx)
                }
            },
            None => false,
        }
    }

    /// The modes still on offer while casting: `(index, text)`, plus
    /// `(NO_MORE_MODES, ...)` once "one or both" may stop.
    pub fn mode_options(&self, seat: Seat, object: ObjectId, chosen: &Vec<u8>) -> (r: Vec<
        (u8, String),
    >)
        ensures
            option_views(r@) == self.model().mode_options(seat, object, chosen@),
    {
        let mut out: Vec<(u8, String)> = Vec::new();
        assert(option_views(out@) =~= Seq::<(u8, Seq<char>)>::empty());
        let spell = match self.find_def(object) {
            Some(def) => match &def.ir.spell {
                Some(s) => s,
                None => {
                    return out;
                },
            },
            None => {
                return out;
            },
        };
        let mut i: usize = 0;
        while i < spell.modes.len()
            invariant
                i <= spell.modes.len(),
                option_views(out@) == self.model().modes_on_offer(
                    seat,
                    object,
                    spell.modes@,
                    chosen@,
                    i as nat,
                ),
            decreases spell.modes.len() - i,
        {
            if !in_list(chosen, i as u8) && self.mode_castable(seat, object, i) {
                let ghost before = out@;
                out.push((i as u8, spell.modes[i].text.clone()));
                assert(option_views(out@) =~= option_views(before).push(
                    (i as u8, spell.modes@[i as int].text@),
                ));
            }
            i = i + 1;
        }
        if chosen.len() >= spell.choice.bounds().0 && chosen.len() < spell.modes.len() {
            let ghost before = out@;
            out.push((NO_MORE_MODES, "No more modes".to_owned()));
            assert(option_views(out@) =~= option_views(before).push(
                (NO_MORE_MODES, "No more modes"@),
            ));
        }
        out
    }

    pub(crate) fn modes_complete(def: &CardDef, chosen: usize, done: bool) -> (b: bool)
        ensures
            b == def@.modes_complete(chosen as nat, done),
    {
        if !def.is_modal() {
            return true;
        }
        match &def.ir.spell {
            Some(s) => {
                let (least, most) = s.choice.bounds();
                chosen >= most || (done && chosen >= least)
            },
            None => true,
        }
    }

    /// Begin casting a two-step spell: mana is paid, the card stays in hand
    /// while its modes and targets are chosen, nobody holds priority.
    pub(crate) fn begin_two_step_cast(&mut self, seat: Seat, object: ObjectId, x: u32)
        ensures
            final(self).model() == old(self).model().begin_two_step_cast(seat, object, x),
    {
        self.pending = Some(
            PendingChoice::Casting {
                seat,
                object,
                modes: Vec::new(),
                modes_done: false,
                targets: Vec::new(),
                spec: 0,
                x,
            },
        );
        self.priority = None;
        self.advance_casting();
    }

    fn advance_casting(&mut self)
        ensures
            final(self).model() == old(self).model().advance_casting(),
    {
        let ghost g = self.model();
        let (seat, object, modes, modes_done, targets, first, x) = match &self.pending {
            Some(PendingChoice::Casting { seat, object, modes, modes_done, targets, spec, x }) => (
                *seat,
                *object,
                copied(modes),
                *modes_done,
                copied(targets),
                *spec,
                *x,
            ),
            _ => {
                return ;
            },
        };
        let specs = match self.find_def(object) {
            Some(def) => {
                if !Game::modes_complete(def, modes.len(), modes_done) {
                    return ;
                }
                Game::cast_specs(def, &modes)
            },
            None => {
                return ;
            },
        };
        let ctx = Ctx::simple(seat, Some(object));
        let mut spec: usize = first;
        while spec < specs.len()
            invariant
                g == old(self).model(),
                self.model() == (GameModel {
                    pending: Some(
                        PendingModel::Casting {
                            seat,
                            object,
                            modes: modes@,
                            modes_done,
                            targets: targets@,
                            spec: spec as nat,
                            x,
                        },
                    ),
                    ..g
                }),
                g.has_def(object),
                g.def(object).modes_complete(modes@.len(), modes_done),
                specs@ == g.def(object).cast_specs(modes@),
                ctx@ == CtxModel::simple(seat, Some(object)),
                g.advance_casting() == self.model().advance_casting(),
            decreases specs.len() - spec,
        {
            let (inner, least, _) = specs[spec].spec_bounds();
            let ts = self.targets_for(inner, &ctx);
            if !(least == 0 && ts.len() == 0) {
                return ;
            }
            // Nothing to pick: the spec takes no targets.
            spec = spec + 1;
            self.pending = Some(
                PendingChoice::Casting {
                    seat,
                    object,
                    modes: copied(&modes),
                    modes_done,
                    targets: copied(&targets),
                    spec,
                    x,
                },
            );
        }
        self.pending = None;
        self.put_on_stack(seat, object, modes, targets, x);
    }

    pub(crate) fn answer_cast_mode(&mut self, mode: u8) -> (r: Result<(), RulesError>)
        ensures
            match r {
                Ok(_) => old(self).model().pending matches Some(PendingModel::Casting { .. })
                    && final(self).model() == old(self).model().answer_cast_mode(mode),
                Err(e) => !(old(self).model().pending matches Some(PendingModel::Casting { .. }))
                    && final(self).model() == old(self).model() && e@
                    == (ErrorModel::IllegalAction { reason: "no modes to choose"@ }),
            },
    {
        reveal(GameModel::answer_cast_mode);
        match &mut self.pending {
            Some(PendingChoice::Casting { modes, modes_done, .. }) => {
                if mode == NO_MORE_MODES {
                    *modes_done = true;
                } else {
                    modes.push(mode);
                }
            },
            _ => {
                return Err(RulesError::illegal("no modes to choose"));
            },
        }
        self.advance_casting();
        Ok(())
    }

    pub(crate) fn answer_cast_targets(&mut self, chosen: &Vec<Target>) -> (r: Result<
        (),
        RulesError,
    >)
        ensures
            match r {
                Ok(_) => old(self).model().pending matches Some(PendingModel::Casting { spec, .. })
                    && spec < usize::MAX && final(self).model()
                    == old(self).model().answer_cast_targets(chosen@),
                Err(e) => final(self).model() == old(self).model() && e@
                    == (ErrorModel::IllegalAction { reason: "no targets to choose"@ }) && !(old(
                    self,
                ).model().pending matches Some(PendingModel::Casting { spec, .. }) && spec
                    < usize::MAX),
            },
    {
        reveal(GameModel::answer_cast_targets);
        match &mut self.pending {
            Some(PendingChoice::Casting { targets, spec, .. }) => {
                if *spec == usize::MAX {
                    return Err(RulesError::illegal("no targets to choose"));
                }
                extend(targets, chosen);
                *spec = *spec + 1;
            },
            _ => {
                return Err(RulesError::illegal("no targets to choose"));
            },
        }
        self.advance_casting();
        Ok(())
    }

    /// The spell goes on the stack with everything chosen; the caster gets
    /// priority.
    pub(crate) fn put_on_stack(
        &mut self,
        seat: Seat,
        object: ObjectId,
        modes: Vec<u8>,
        targets: Vec<Target>,
        x: u32,
    )
        ensures
            final(self).model() == old(self).model().put_on_stack(
                seat,
                object,
                modes@,
                targets@,
                x,
            ),
    {
        match self.obj_mut(object) {
            Some(o) => {
                o.controller = seat;
            },
            None => {},
        }
        self.move_object(object, Zone::Stack);
        let shown = copied(&targets);
        self.stack.push(
            StackObject { object, controller: seat, targets, kind: StackKind::Spell, modes, x },
        );
        self.emit(EventBase::Cast { seat, object, targets: shown });
        self.give_priority(seat);
    }
}

pub open spec fn option_views(s: Seq<(u8, String)>) -> Seq<(u8, Seq<char>)> {
    Seq::new(s.len(), |i: int| (s[i].0, s[i].1@))
}

fn push_filters(out: &mut Vec<Filter>, more: &Vec<Filter>)
    ensures
        final(out)@ == old(out)@ + more@,
{
    let ghost start = out@;
    let mut i: usize = 0;
    assert(out@ =~= start + more@.subrange(0, 0));
    while i < more.len()
        invariant
            i <= more.len(),
            out@ == start + more@.subrange(0, i as int),
        decreases more.len() - i,
    {
        out.push(more[i].clone());
        i = i + 1;
        assert(out@ =~= start + more@.subrange(0, i as int));
    }
    assert(more@.subrange(0, more@.len() as int) =~= more@);
}

} // verus!
