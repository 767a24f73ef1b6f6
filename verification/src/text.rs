//! Plain-text rendering: events for logs, actions for menus, and the compact
//! state view models read.
use crate::action::{Action, ActionModel, AttackTarget, DamageTarget, ManaPayment, PaymentModel, Target, EQUIP_ABILITY};
use crate::casting::NO_MORE_MODES;
use crate::event::{DrawnCards, DrawnModel, Event, EventBase, EventFacts, EventModel, EventView, Outcome, SeenFacts};
use crate::ir::Mode;
use crate::seqs::{group_views, views};
use crate::state::{Game, GameModel, KindModel, PendingChoice, PendingModel, StackKind, StackModel, StackObject};
use crate::types::{id_words, seat_words, Mana, ObjectId, Seat, Zone};
use crate::words::{cat2, cat3, cat4, cat5, cat6, decimal, int_text, join, joined, nat_text, signed};
use vstd::prelude::*;
use vstd::string::*;

verus! {

broadcast use group_views;

// ----- what is on the stack -----

/// The wording of the first `n` chosen modes.
pub open spec fn mode_words(modes: Seq<Mode>, chosen: Seq<u8>, n: nat) -> Seq<Seq<char>>
    decreases n,
{
    if n == 0 || n > chosen.len() {
        Seq::empty()
    } else {
        let rest = mode_words(modes, chosen, (n - 1) as nat);
        if chosen[n - 1] < modes.len() {
            rest.push(modes[chosen[n - 1] as int].text@)
        } else {
            rest
        }
    }
}

impl GameModel {
    /// What an entry on the stack will do, as text.
    pub open spec fn kind_words(self, kind: KindModel) -> Seq<char> {
        match kind {
            KindModel::Spell => "spell"@,
            KindModel::Ability { source, index } => if self.has_def(source) && index < self.def(
                source,
            ).activated.len() {
                self.def(source).activated[index as int].text@
            } else {
                Seq::empty()
            },
            KindModel::Equip { source } => if self.has_def(source) && self.def(source).equip is Some {
                "Equip "@ + self.def(source).equip->0.words()
            } else {
                "Equip "@
            },
            KindModel::Trigger { source, index, .. } => if self.has_def(source) && index
                < self.def(source).triggers.len() {
                self.def(source).triggers[index as int].text@
            } else {
                Seq::empty()
            },
            KindModel::Prowess { .. } => "Prowess: gets +1/+1 until end of turn"@,
            KindModel::Delayed { .. } => "At the beginning of the next end step"@,
        }
    }

    /// What an entry on the stack will do: a modal spell's chosen modes one after another.
    pub open spec fn entry_words(self, so: StackModel) -> Seq<char> {
        if so.kind is Spell && self.has_def(so.object) && self.def(so.object).modal() {
            joined(
                mode_words(self.def(so.object).spell->0.modes@, so.modes, so.modes.len()),
                " "@,
            )
        } else {
            self.kind_words(so.kind)
        }
    }
}

impl Game {
    /// What an entry on the stack will do, as text.
    pub fn describe_stack_kind(&self, kind: &StackKind) -> (r: String)
        ensures
            r@ == self.model().kind_words(kind@),
    {
        match kind {
            StackKind::Spell => "spell".to_owned(),
            StackKind::Ability { source, index } => match self.find_def(*source) {
                Some(def) => if (*index as usize) < def.ir.activated.len() {
                    def.ir.activated[*index as usize].text.clone()
                } else {
                    String::new()
                },
                None => String::new(),
            },
            StackKind::Equip { source } => match self.find_def(*source) {
                Some(def) => match &def.ir.equip {
                    Some(c) => cat2("Equip ", c.text().as_str()),
                    None => "Equip ".to_owned(),
                },
                None => "Equip ".to_owned(),
            },
            StackKind::Trigger { source, index, .. } => match self.find_def(*source) {
                Some(def) => if (*index as usize) < def.ir.triggers.len() {
                    def.ir.triggers[*index as usize].text.clone()
                } else {
                    String::new()
                },
                None => String::new(),
            },
            StackKind::Prowess { .. } => "Prowess: gets +1/+1 until end of turn".to_owned(),
            StackKind::Delayed { .. } => "At the beginning of the next end step".to_owned(),
        }
    }

    /// What an entry on the stack will do: a modal spell's chosen modes one after another.
    pub fn describe_stack_object(&self, so: &StackObject) -> (r: String)
        ensures
            r@ == self.model().entry_words(so@),
    {
        if let StackKind::Spell = &so.kind {
            if let Some(def) = self.find_def(so.object) {
                if def.is_modal() {
                    if let Some(spell) = &def.ir.spell {
                        let mut parts: Vec<String> = Vec::new();
                        let mut i: usize = 0;
                        while i < so.modes.len()
                            invariant
                                i <= so.modes.len(),
                                views(parts@) == mode_words(spell.modes@, so.modes@, i as nat),
                            decreases so.modes.len() - i,
                        {
                            let m: usize = so.modes[i] as usize;
                            if m < spell.modes.len() {
                                parts.push(spell.modes[m].text.clone());
                            }
                            i = i + 1;
                        }
                        return join(&parts, " ");
                    }
                }
            }
        }
        self.describe_stack_kind(&so.kind)
    }
}


// ----- names -----

/// How objects and seats are called, as mathematical functions.
pub ghost struct Naming {
    pub objects: spec_fn(ObjectId) -> Seq<char>,
    pub seats: spec_fn(Seat) -> Seq<char>,
}

impl Naming {
    pub open spec fn object(self, id: ObjectId) -> Seq<char> {
        (self.objects)(id)
    }

    pub open spec fn seat(self, seat: Seat) -> Seq<char> {
        (self.seats)(seat)
    }

    pub open spec fn target(self, t: Target) -> Seq<char> {
        match t {
            Target::Object(o) => self.object(o),
            Target::Player(s) => self.seat(s),
        }
    }

    pub open spec fn damage_target(self, t: DamageTarget) -> Seq<char> {
        match t {
            DamageTarget::Player(s) => self.seat(s),
            DamageTarget::Object(o) => self.object(o),
        }
    }

    pub open spec fn attack_target(self, t: AttackTarget) -> Seq<char> {
        match t {
            AttackTarget::Player(s) => self.seat(s),
            AttackTarget::Planeswalker(o) => self.object(o),
        }
    }

    pub open spec fn object_list(self, ids: Seq<ObjectId>) -> Seq<char> {
        joined(Seq::new(ids.len(), |i: int| self.object(ids[i])), ", "@)
    }

    pub open spec fn target_list(self, ts: Seq<Target>) -> Seq<char> {
        joined(Seq::new(ts.len(), |i: int| self.target(ts[i])), ", "@)
    }

    pub open spec fn attack_list(self, xs: Seq<(ObjectId, AttackTarget)>) -> Seq<char> {
        joined(
            Seq::new(
                xs.len(),
                |i: int| self.object(xs[i].0) + " → "@ + self.attack_target(xs[i].1),
            ),
            ", "@,
        )
    }

    pub open spec fn block_list(self, xs: Seq<(ObjectId, ObjectId)>) -> Seq<char> {
        joined(
            Seq::new(
                xs.len(),
                |i: int| self.object(xs[i].0) + " blocks "@ + self.object(xs[i].1),
            ),
            ", "@,
        )
    }

    pub open spec fn split_list(self, xs: Seq<(DamageTarget, i32)>) -> Seq<char> {
        joined(
            Seq::new(
                xs.len(),
                |i: int| signed(xs[i].1 as int) + " to "@ + self.damage_target(xs[i].0),
            ),
            ", "@,
        )
    }

    /// " → a, b", or nothing without targets.
    pub open spec fn arrow(self, ts: Seq<Target>) -> Seq<char> {
        if ts.len() == 0 {
            Seq::empty()
        } else {
            " → "@ + self.target_list(ts)
        }
    }
}

/// Whoever can tell what objects and seats are called: a game itself, or a
/// client that keeps a cache of the names it has seen.
pub trait Names {
    spec fn naming(&self) -> Naming;

    fn object_text(&self, id: ObjectId) -> (r: String)
        ensures
            r@ == self.naming().object(id),
    ;

    fn seat_text(&self, seat: Seat) -> (r: String)
        ensures
            r@ == self.naming().seat(seat),
    ;
}

impl GameModel {
    /// "Grizzly Bears #4"
    pub open spec fn obj_words(self, id: ObjectId) -> Seq<char> {
        if self.has_def(id) {
            self.def(id).name + " "@ + id_words(id)
        } else {
            id_words(id)
        }
    }

    /// "Ada (seat 0)"
    pub open spec fn who_words(self, seat: Seat) -> Seq<char> {
        if self.has_seat(seat) {
            self.player(seat).name + " ("@ + seat_words(seat) + ")"@
        } else {
            seat_words(seat)
        }
    }

    pub open spec fn naming(self) -> Naming {
        Naming {
            objects: |id: ObjectId| self.obj_words(id),
            seats: |seat: Seat| self.who_words(seat),
        }
    }
}

impl Names for Game {
    open spec fn naming(&self) -> Naming {
        self.model().naming()
    }

    fn object_text(&self, id: ObjectId) -> (r: String) {
        match self.find_def(id) {
            Some(def) => cat3(def.name.as_str(), " ", id.text().as_str()),
            None => id.text(),
        }
    }

    fn seat_text(&self, seat: Seat) -> (r: String) {
        match self.find_player(seat) {
            Some(p) => cat4(p.name.as_str(), " (", seat.text().as_str(), ")"),
            None => seat.text(),
        }
    }
}

// ----- lists as text -----

fn target_text<N: Names>(n: &N, t: Target) -> (r: String)
    ensures
        r@ == n.naming().target(t),
{
    match t {
        Target::Object(o) => n.object_text(o),
        Target::Player(s) => n.seat_text(s),
    }
}

fn damage_target<N: Names>(n: &N, t: DamageTarget) -> (r: String)
    ensures
        r@ == n.naming().damage_target(t),
{
    match t {
        DamageTarget::Player(s) => n.seat_text(s),
        DamageTarget::Object(o) => n.object_text(o),
    }
}

fn attack_target<N: Names>(n: &N, t: AttackTarget) -> (r: String)
    ensures
        r@ == n.naming().attack_target(t),
{
    match t {
        AttackTarget::Player(s) => n.seat_text(s),
        AttackTarget::Planeswalker(o) => n.object_text(o),
    }
}

fn object_list<N: Names>(n: &N, ids: &Vec<ObjectId>) -> (r: String)
    ensures
        r@ == n.naming().object_list(ids@),
{
    let ghost want = Seq::new(ids@.len(), |i: int| n.naming().object(ids@[i]));
    let mut parts: Vec<String> = Vec::new();
    let mut i: usize = 0;
    while i < ids.len()
        invariant
            i <= ids.len(),
            want == Seq::new(ids@.len(), |i: int| n.naming().object(ids@[i])),
            views(parts@) == want.subrange(0, i as int),
        decreases ids.len() - i,
    {
        parts.push(n.object_text(ids[i]));
        i = i + 1;
        assert(want.subrange(0, i as int) =~= want.subrange(0, i - 1).push(want[i - 1]));
    }
    assert(want.subrange(0, ids@.len() as int) =~= want);
    join(&parts, ", ")
}

fn target_list<N: Names>(n: &N, ts: &Vec<Target>) -> (r: String)
    ensures
        r@ == n.naming().target_list(ts@),
{
    let ghost want = Seq::new(ts@.len(), |i: int| n.naming().target(ts@[i]));
    let mut parts: Vec<String> = Vec::new();
    let mut i: usize = 0;
    while i < ts.len()
        invariant
            i <= ts.len(),
            want == Seq::new(ts@.len(), |i: int| n.naming().target(ts@[i])),
            views(parts@) == want.subrange(0, i as int),
        decreases ts.len() - i,
    {
        parts.push(target_text(n, ts[i]));
        i = i + 1;
        assert(want.subrange(0, i as int) =~= want.subrange(0, i - 1).push(want[i - 1]));
    }
    assert(want.subrange(0, ts@.len() as int) =~= want);
    join(&parts, ", ")
}

fn attack_list<N: Names>(n: &N, xs: &Vec<(ObjectId, AttackTarget)>) -> (r: String)
    ensures
        r@ == n.naming().attack_list(xs@),
{
    let ghost nm = n.naming();
    let ghost want = Seq::new(
        xs@.len(),
        |i: int| nm.object(xs@[i].0) + " → "@ + nm.attack_target(xs@[i].1),
    );
    let mut parts: Vec<String> = Vec::new();
    let mut i: usize = 0;
    while i < xs.len()
        invariant
            i <= xs.len(),
            nm == n.naming(),
            want == Seq::new(
                xs@.len(),
                |i: int| nm.object(xs@[i].0) + " → "@ + nm.attack_target(xs@[i].1),
            ),
            views(parts@) == want.subrange(0, i as int),
        decreases xs.len() - i,
    {
        let a = n.object_text(xs[i].0);
        let t = attack_target(n, xs[i].1);
        parts.push(cat3(a.as_str(), " → ", t.as_str()));
        i = i + 1;
        assert(want.subrange(0, i as int) =~= want.subrange(0, i - 1).push(want[i - 1]));
    }
    assert(want.subrange(0, xs@.len() as int) =~= want);
    join(&parts, ", ")
}

fn block_list<N: Names>(n: &N, xs: &Vec<(ObjectId, ObjectId)>) -> (r: String)
    ensures
        r@ == n.naming().block_list(xs@),
{
    let ghost nm = n.naming();
    let ghost want = Seq::new(
        xs@.len(),
        |i: int| nm.object(xs@[i].0) + " blocks "@ + nm.object(xs@[i].1),
    );
    let mut parts: Vec<String> = Vec::new();
    let mut i: usize = 0;
    while i < xs.len()
        invariant
            i <= xs.len(),
            nm == n.naming(),
            want == Seq::new(
                xs@.len(),
                |i: int| nm.object(xs@[i].0) + " blocks "@ + nm.object(xs@[i].1),
            ),
            views(parts@) == want.subrange(0, i as int),
        decreases xs.len() - i,
    {
        let b = n.object_text(xs[i].0);
        let a = n.object_text(xs[i].1);
        parts.push(cat3(b.as_str(), " blocks ", a.as_str()));
        i = i + 1;
        assert(want.subrange(0, i as int) =~= want.subrange(0, i - 1).push(want[i - 1]));
    }
    assert(want.subrange(0, xs@.len() as int) =~= want);
    join(&parts, ", ")
}

fn split_list<N: Names>(n: &N, xs: &Vec<(DamageTarget, i32)>) -> (r: String)
    ensures
        r@ == n.naming().split_list(xs@),
{
    let ghost nm = n.naming();
    let ghost want = Seq::new(
        xs@.len(),
        |i: int| signed(xs@[i].1 as int) + " to "@ + nm.damage_target(xs@[i].0),
    );
    let mut parts: Vec<String> = Vec::new();
    let mut i: usize = 0;
    while i < xs.len()
        invariant
            i <= xs.len(),
            nm == n.naming(),
            want == Seq::new(
                xs@.len(),
                |i: int| signed(xs@[i].1 as int) + " to "@ + nm.damage_target(xs@[i].0),
            ),
            views(parts@) == want.subrange(0, i as int),
        decreases xs.len() - i,
    {
        let amount = int_text(xs[i].1 as i64);
        let to = damage_target(n, xs[i].0);
        parts.push(cat3(amount.as_str(), " to ", to.as_str()));
        i = i + 1;
        assert(want.subrange(0, i as int) =~= want.subrange(0, i - 1).push(want[i - 1]));
    }
    assert(want.subrange(0, xs@.len() as int) =~= want);
    join(&parts, ", ")
}

fn arrow<N: Names>(n: &N, ts: &Vec<Target>) -> (r: String)
    ensures
        r@ == n.naming().arrow(ts@),
{
    if ts.len() == 0 {
        String::new()
    } else {
        cat2(" → ", target_list(n, ts).as_str())
    }
}

/// "#1, #2"
pub open spec fn id_list(ids: Seq<ObjectId>) -> Seq<char> {
    joined(Seq::new(ids.len(), |i: int| id_words(ids[i])), ", "@)
}

fn ids_text(ids: &Vec<ObjectId>) -> (r: String)
    ensures
        r@ == id_list(ids@),
{
    let ghost want = Seq::new(ids@.len(), |i: int| id_words(ids@[i]));
    let mut parts: Vec<String> = Vec::new();
    let mut i: usize = 0;
    while i < ids.len()
        invariant
            i <= ids.len(),
            want == Seq::new(ids@.len(), |i: int| id_words(ids@[i])),
            views(parts@) == want.subrange(0, i as int),
        decreases ids.len() - i,
    {
        parts.push(ids[i].text());
        i = i + 1;
        assert(want.subrange(0, i as int) =~= want.subrange(0, i - 1).push(want[i - 1]));
    }
    assert(want.subrange(0, ids@.len() as int) =~= want);
    join(&parts, ", ")
}

/// The symbols of the first `n` units one after another.
pub open spec fn mana_run(ms: Seq<Mana>, n: nat) -> Seq<char>
    decreases n,
{
    if n == 0 || n > ms.len() {
        Seq::empty()
    } else {
        mana_run(ms, (n - 1) as nat) + ms[n - 1].words()
    }
}

fn mana_text(ms: &Vec<Mana>) -> (r: String)
    ensures
        r@ == mana_run(ms@, ms@.len()),
{
    let mut s = String::new();
    let mut i: usize = 0;
    while i < ms.len()
        invariant
            i <= ms.len(),
            s@ == mana_run(ms@, i as nat),
        decreases ms.len() - i,
    {
        s.append(ms[i].text());
        i = i + 1;
    }
    s
}

// ----- actions -----

/// " (tap #1, #2)", or nothing.
pub open spec fn tap_words(p: PaymentModel) -> Seq<char> {
    if p.tap.len() == 0 {
        Seq::empty()
    } else {
        " (tap "@ + id_list(p.tap) + ")"@
    }
}

/// " (from pool ...)", or nothing.
pub open spec fn pool_words(p: PaymentModel) -> Seq<char> {
    if p.from_pool.len() == 0 {
        Seq::empty()
    } else {
        " (from pool "@ + mana_run(p.from_pool, p.from_pool.len()) + ")"@
    }
}

fn tap_text(p: &ManaPayment) -> (r: String)
    ensures
        r@ == tap_words(p@),
{
    if p.tap.len() == 0 {
        String::new()
    } else {
        cat3(" (tap ", ids_text(&p.tap).as_str(), ")")
    }
}

fn pool_text(p: &ManaPayment) -> (r: String)
    ensures
        r@ == pool_words(p@),
{
    if p.from_pool.len() == 0 {
        String::new()
    } else {
        cat3(" (from pool ", mana_text(&p.from_pool).as_str(), ")")
    }
}

/// " (sacrifice ...)" and the like, or nothing.
pub open spec fn cost_words(nm: Naming, verb: Seq<char>, ids: Seq<ObjectId>) -> Seq<char> {
    if ids.len() == 0 {
        Seq::empty()
    } else {
        verb + nm.object_list(ids) + ")"@
    }
}

fn cost_text<N: Names>(n: &N, verb: &str, ids: &Vec<ObjectId>) -> (r: String)
    ensures
        r@ == cost_words(n.naming(), verb@, ids@),
{
    if ids.len() == 0 {
        String::new()
    } else {
        cat3(verb, object_list(n, ids).as_str(), ")")
    }
}

impl GameModel {
    pub open spec fn cast_words(
        self,
        object: ObjectId,
        targets: Seq<Target>,
        payment: PaymentModel,
    ) -> Seq<char> {
        let nm = self.naming();
        let cost = if self.has_def(object) {
            self.def(object).cost.words()
        } else {
            Seq::empty()
        };
        "Cast "@ + nm.object(object) + " "@ + cost + (nm.arrow(targets) + tap_words(payment)
            + pool_words(payment))
    }

    /// What an activation of an ability is called.
    pub open spec fn ability_words(self, object: ObjectId, ability: u8) -> Seq<char> {
        if !self.has_def(object) {
            "ability "@ + decimal(ability as nat)
        } else if ability == EQUIP_ABILITY {
            "Equip "@ + match self.def(object).equip {
                Some(c) => c.words(),
                None => Seq::empty(),
            }
        } else if ability < self.def(object).activated.len() {
            self.def(object).activated[ability as int].text@
        } else {
            "ability "@ + decimal(ability as nat)
        }
    }

    pub open spec fn activation_words(
        self,
        object: ObjectId,
        ability: u8,
        targets: Seq<Target>,
        payment: PaymentModel,
    ) -> Seq<char> {
        let nm = self.naming();
        nm.object(object) + ": "@ + self.ability_words(object, ability) + (nm.arrow(targets)
            + tap_words(payment) + cost_words(nm, " (sacrifice "@, payment.sacrifice) + cost_words(
            nm,
            " (discard "@,
            payment.discard,
        ))
    }

    /// A pick in the words of whatever asks for it.
    pub open spec fn pick_words(self, targets: Seq<Target>) -> Seq<char> {
        let list = if targets.len() == 0 {
            "nothing"@
        } else {
            self.naming().target_list(targets)
        };
        match self.pending {
            Some(PendingModel::Choose { prompt, .. }) => prompt + " "@ + list,
            Some(PendingModel::Casting { .. }) => "Target "@ + list,
            _ => "Choose "@ + list,
        }
    }

    /// An option in the words of whatever offers it.
    pub open spec fn mode_words(self, mode: u8) -> Seq<char> {
        match self.pending {
            Some(PendingModel::ChooseOption { labels, .. }) => if mode < labels.len() {
                labels[mode as int]
            } else {
                "Choose mode "@ + decimal(mode as nat)
            },
            Some(PendingModel::Casting { object, .. }) => if mode == NO_MORE_MODES {
                "No more modes"@
            } else if self.has_def(object) && self.def(object).spell is Some && mode < self.def(
                object,
            ).spell->0.modes@.len() {
                self.def(object).spell->0.modes@[mode as int].text@
            } else {
                "Choose mode "@ + decimal(mode as nat)
            },
            _ => "Choose mode "@ + decimal(mode as nat),
        }
    }

    /// A short human-readable description of an action.
    pub open spec fn action_words(self, a: ActionModel) -> Seq<char> {
        let nm = self.naming();
        match a {
            ActionModel::PassPriority => "Pass priority"@,
            ActionModel::PlayLand { object } => "Play "@ + nm.object(object),
            ActionModel::CastSpell { object, targets, payment } => self.cast_words(
                object,
                targets,
                payment,
            ),
            ActionModel::CastCommander { object, targets, payment } => self.cast_words(
                object,
                targets,
                payment,
            ),
            ActionModel::ActivateAbility { object, ability, targets, payment } => {
                self.activation_words(object, ability, targets, payment)
            },
            ActionModel::DeclareAttackers { attackers } => if attackers.len() == 0 {
                "Attack with nothing"@
            } else {
                "Attack: "@ + nm.attack_list(attackers)
            },
            ActionModel::DeclareBlockers { blocks } => if blocks.len() == 0 {
                "Block with nothing"@
            } else {
                "Block: "@ + nm.block_list(blocks)
            },
            ActionModel::AssignCombatDamage { attacker, assignments } => nm.object(attacker)
                + " assigns "@ + nm.split_list(assignments),
            ActionModel::ChooseTargets { targets } => self.pick_words(targets),
            ActionModel::ChooseMode { mode } => self.mode_words(mode),
            ActionModel::Discard { objects } => "Discard "@ + nm.object_list(objects),
            ActionModel::Mulligan { keep } => if keep {
                "Keep this hand"@
            } else {
                "Mulligan"@
            },
            ActionModel::BottomCards { objects } => "Put on the bottom: "@ + nm.object_list(
                objects,
            ),
            ActionModel::CommanderToCommandZone { object } => "Return "@ + nm.object(object)
                + " to the command zone"@,
            ActionModel::Concede => "Concede"@,
        }
    }
}

impl Game {
    fn cast_text(&self, object: ObjectId, targets: &Vec<Target>, payment: &ManaPayment) -> (r:
        String)
        ensures
            r@ == self.model().cast_words(object, targets@, payment@),
    {
        let cost = match self.find_def(object) {
            Some(def) => def.cost.text(),
            None => String::new(),
        };
        let head = cat4("Cast ", self.object_text(object).as_str(), " ", cost.as_str());
        let tail = cat3(
            arrow(self, targets).as_str(),
            tap_text(payment).as_str(),
            pool_text(payment).as_str(),
        );
        cat2(head.as_str(), tail.as_str())
    }

    fn ability_text(&self, object: ObjectId, ability: u8) -> (r: String)
        ensures
            r@ == self.model().ability_words(object, ability),
    {
        match self.find_def(object) {
            Some(def) => if ability == EQUIP_ABILITY {
                match &def.ir.equip {
                    Some(c) => cat2("Equip ", c.text().as_str()),
                    None => cat2("Equip ", String::new().as_str()),
                }
            } else if (ability as usize) < def.ir.activated.len() {
                def.ir.activated[ability as usize].text.clone()
            } else {
                cat2("ability ", nat_text(ability as u64).as_str())
            },
            None => cat2("ability ", nat_text(ability as u64).as_str()),
        }
    }

    fn activation_text(
        &self,
        object: ObjectId,
        ability: u8,
        targets: &Vec<Target>,
        payment: &ManaPayment,
    ) -> (r: String)
        ensures
            r@ == self.model().activation_words(object, ability, targets@, payment@),
    {
        let head = cat3(
            self.object_text(object).as_str(),
            ": ",
            self.ability_text(object, ability).as_str(),
        );
        let tail = cat4(
            arrow(self, targets).as_str(),
            tap_text(payment).as_str(),
            cost_text(self, " (sacrifice ", &payment.sacrifice).as_str(),
            cost_text(self, " (discard ", &payment.discard).as_str(),
        );
        cat2(head.as_str(), tail.as_str())
    }

    fn pick_text(&self, targets: &Vec<Target>) -> (r: String)
        ensures
            r@ == self.model().pick_words(targets@),
    {
        let list = if targets.len() == 0 {
            "nothing".to_owned()
        } else {
            target_list(self, targets)
        };
        match &self.pending {
            Some(PendingChoice::Choose { prompt, .. }) => cat3(prompt.as_str(), " ", list.as_str()),
            Some(PendingChoice::Casting { .. }) => cat2("Target ", list.as_str()),
            _ => cat2("Choose ", list.as_str()),
        }
    }

    fn mode_text(&self, mode: u8) -> (r: String)
        ensures
            r@ == self.model().mode_words(mode),
    {
        let plain = cat2("Choose mode ", nat_text(mode as u64).as_str());
        match &self.pending {
            Some(PendingChoice::ChooseOption { labels, .. }) => if (mode as usize) < labels.len() {
                labels[mode as usize].clone()
            } else {
                plain
            },
            Some(PendingChoice::Casting { object, .. }) => {
                if mode == NO_MORE_MODES {
                    return "No more modes".to_owned();
                }
                match self.find_def(*object) {
                    Some(def) => match &def.ir.spell {
                        Some(s) => if (mode as usize) < s.modes.len() {
                            s.modes[mode as usize].text.clone()
                        } else {
                            plain
                        },
                        None => plain,
                    },
                    None => plain,
                }
            },
            _ => plain,
        }
    }
}

/// A short human-readable description of an action, for menus and error messages.
pub fn describe_action(game: &Game, a: &Action) -> (r: String)
    ensures
        r@ == game.model().action_words(a@),
{
    match a {
        Action::PassPriority => "Pass priority".to_owned(),
        Action::PlayLand { object } => cat2("Play ", game.object_text(*object).as_str()),
        Action::CastSpell { object, targets, payment } => game.cast_text(*object, targets, payment),
        Action::CastCommander { object, targets, payment } => game.cast_text(
            *object,
            targets,
            payment,
        ),
        Action::ActivateAbility { object, ability, targets, payment } => game.activation_text(
            *object,
            *ability,
            targets,
            payment,
        ),
        Action::DeclareAttackers { attackers } => if attackers.len() == 0 {
            "Attack with nothing".to_owned()
        } else {
            cat2("Attack: ", attack_list(game, attackers).as_str())
        },
        Action::DeclareBlockers { blocks } => if blocks.len() == 0 {
            "Block with nothing".to_owned()
        } else {
            cat2("Block: ", block_list(game, blocks).as_str())
        },
        Action::AssignCombatDamage { attacker, assignments } => cat3(
            game.object_text(*attacker).as_str(),
            " assigns ",
            split_list(game, assignments).as_str(),
        ),
        Action::ChooseTargets { targets } => game.pick_text(targets),
        Action::ChooseMode { mode } => game.mode_text(*mode),
        Action::Discard { objects } => cat2("Discard ", object_list(game, objects).as_str()),
        Action::Mulligan { keep } => if *keep {
            "Keep this hand".to_owned()
        } else {
            "Mulligan".to_owned()
        },
        Action::BottomCards { objects } => cat2(
            "Put on the bottom: ",
            object_list(game, objects).as_str(),
        ),
        Action::CommanderToCommandZone { object } => cat3(
            "Return ",
            game.object_text(*object).as_str(),
            " to the command zone",
        ),
        Action::Concede => "Concede".to_owned(),
    }
}

// ----- events -----

/// "+1/+1" for a kind of counter, or its name.
pub open spec fn counter_words(counter: Seq<char>) -> Seq<char> {
    if counter == "Plus1Plus1"@ {
        "+1/+1"@
    } else if counter == "Minus1Minus1"@ {
        "-1/-1"@
    } else {
        counter
    }
}

/// What a move between zones is called.
pub open spec fn move_words(from: Zone, to: Zone) -> Seq<char> {
    if from is Battlefield && to is Graveyard {
        "dies"@
    } else if to is Battlefield {
        "enters the battlefield"@
    } else if to is OutOfGame {
        "leaves the game"@
    } else {
        "moves from "@ + from.words() + " to "@ + to.words()
    }
}

/// One line for an event; `drawn` is how many cards a draw event shows.
pub open spec fn event_words<D>(e: EventModel<D>, drawn: nat, nm: Naming) -> Seq<char> {
    match e {
        EventModel::GameStarted { starting_player, seats } => "Game started with "@ + decimal(
            seats as nat,
        ) + " seats; "@ + nm.seat(starting_player) + " plays first"@,
        EventModel::Drew { seat, .. } => nm.seat(seat) + " draws "@ + decimal(drawn) + " card(s)"@,
        EventModel::Shuffled { seat } => nm.seat(seat) + " shuffles"@,
        EventModel::MulliganTaken { seat, to } => nm.seat(seat) + " mulligans to "@ + decimal(
            to as nat,
        ),
        EventModel::HandKept { seat, size } => nm.seat(seat) + " keeps "@ + decimal(size as nat),
        EventModel::Bottomed { seat, count } => nm.seat(seat) + " puts "@ + decimal(count as nat)
            + " card(s) on the bottom"@,
        EventModel::TurnStarted { turn, active } => "--- Turn "@ + decimal(turn as nat) + ": "@
            + nm.seat(active) + " ---"@,
        EventModel::PhaseChanged { phase } => "["@ + phase.words() + "]"@,
        EventModel::PriorityPassed { seat } => nm.seat(seat) + " passes"@,
        EventModel::LandPlayed { seat, object } => nm.seat(seat) + " plays "@ + nm.object(object),
        EventModel::Cast { seat, object, .. } => nm.seat(seat) + " casts "@ + nm.object(object),
        EventModel::Resolved { object } => nm.object(object) + " resolves"@,
        EventModel::Tapped { object } => nm.object(object) + " taps"@,
        EventModel::Untapped { object } => nm.object(object) + " untaps"@,
        EventModel::ManaAdded { seat, mana, amount } => nm.seat(seat) + " adds "@ + decimal(
            amount as nat,
        ) + "×"@ + mana.words(),
        EventModel::Attacked { seat, attackers } => if attackers.len() == 0 {
            nm.seat(seat) + " declares no attackers"@
        } else {
            nm.seat(seat) + " attacks: "@ + nm.attack_list(attackers)
        },
        EventModel::Blocked { seat, blocks } => if blocks.len() == 0 {
            nm.seat(seat) + " declares no blockers"@
        } else {
            nm.seat(seat) + ": "@ + nm.block_list(blocks)
        },
        EventModel::DamageAssigned { attacker, assignments } => nm.object(attacker) + " assigns "@
            + nm.split_list(assignments),
        EventModel::Damage { source, to, amount, combat } => nm.object(source) + " deals "@
            + signed(amount as int) + (if combat {
            " combat damage to "@
        } else {
            " damage to "@
        }) + nm.damage_target(to),
        EventModel::Activated { seat, object, ability, targets } => nm.seat(seat) + (if ability
            == EQUIP_ABILITY {
            " activates equip of "@
        } else {
            " activates an ability of "@
        }) + nm.object(object) + nm.arrow(targets),
        EventModel::Triggered { source, description, targets } => nm.object(source)
            + " triggers: "@ + description + nm.arrow(targets),
        EventModel::Countered { object } => nm.object(object) + " is countered"@,
        EventModel::Sacrificed { seat, object } => nm.seat(seat) + " sacrifices "@ + nm.object(
            object,
        ),
        EventModel::TokenCreated { seat, object } => nm.seat(seat) + " creates "@ + nm.object(
            object,
        ),
        EventModel::CountersAdded { object, counter, count } => nm.object(object) + " gets "@
            + signed(count as int) + " "@ + counter_words(counter) + " counter(s)"@,
        EventModel::Attached { object, to } => nm.object(object) + " is attached to "@ + nm.object(
            to,
        ),
        EventModel::LifeChanged { seat, from, to } => nm.seat(seat) + ": "@ + signed(from as int)
            + " → "@ + signed(to as int) + " life"@,
        EventModel::ZoneChange { object, from, to } => nm.object(object) + " "@ + move_words(
            from,
            to,
        ),
        EventModel::Discarded { seat, objects } => nm.seat(seat) + " discards "@ + nm.object_list(
            objects,
        ),
        EventModel::Eliminated { seat, reason } => nm.seat(seat) + " "@ + reason.words()
            + " and leaves the game"@,
        EventModel::GameOver { outcome } => match outcome {
            Outcome::Winner(s) => "=== "@ + nm.seat(s) + " wins ==="@,
            Outcome::Draw => "=== The game is a draw ==="@,
        },
        EventModel::Chat { from, to, text } => match to {
            Some(t) => nm.seat(from) + " → "@ + nm.seat(t) + ": \""@ + text + "\""@,
            None => nm.seat(from) + ": \""@ + text + "\""@,
        },
    }
}

fn counter_text(counter: &str) -> (r: String)
    ensures
        r@ == counter_words(counter@),
{
    if crate::words::same_text(counter, "Plus1Plus1") {
        "+1/+1".to_owned()
    } else if crate::words::same_text(counter, "Minus1Minus1") {
        "-1/-1".to_owned()
    } else {
        counter.to_owned()
    }
}

fn move_text(from: Zone, to: Zone) -> (r: String)
    ensures
        r@ == move_words(from, to),
{
    if from == Zone::Battlefield && to == Zone::Graveyard {
        "dies".to_owned()
    } else if to == Zone::Battlefield {
        "enters the battlefield".to_owned()
    } else if to == Zone::OutOfGame {
        "leaves the game".to_owned()
    } else {
        cat4("moves from ", from.name(), " to ", to.name())
    }
}

fn count_text(n: u8) -> (r: String)
    ensures
        r@ == decimal(n as nat),
{
    nat_text(n as u64)
}

fn amount_text(n: i32) -> (r: String)
    ensures
        r@ == signed(n as int),
{
    int_text(n as i64)
}

fn describe_event_with<D: View, N: Names>(e: &EventBase<D>, drawn: usize, n: &N) -> (r: String)
    ensures
        r@ == event_words(View::view(e), drawn as nat, n.naming()),
{
    match e {
        EventBase::GameStarted { starting_player, seats } => cat5(
            "Game started with ",
            count_text(*seats).as_str(),
            " seats; ",
            n.seat_text(*starting_player).as_str(),
            " plays first",
        ),
        EventBase::Drew { seat, .. } => cat4(
            n.seat_text(*seat).as_str(),
            " draws ",
            nat_text(drawn as u64).as_str(),
            " card(s)",
        ),
        EventBase::Shuffled { seat } => cat2(n.seat_text(*seat).as_str(), " shuffles"),
        EventBase::MulliganTaken { seat, to } => cat3(
            n.seat_text(*seat).as_str(),
            " mulligans to ",
            count_text(*to).as_str(),
        ),
        EventBase::HandKept { seat, size } => cat3(
            n.seat_text(*seat).as_str(),
            " keeps ",
            count_text(*size).as_str(),
        ),
        EventBase::Bottomed { seat, count } => cat4(
            n.seat_text(*seat).as_str(),
            " puts ",
            count_text(*count).as_str(),
            " card(s) on the bottom",
        ),
        EventBase::TurnStarted { turn, active } => cat5(
            "--- Turn ",
            nat_text(*turn as u64).as_str(),
            ": ",
            n.seat_text(*active).as_str(),
            " ---",
        ),
        EventBase::PhaseChanged { phase } => cat3("[", phase.label(), "]"),
        EventBase::PriorityPassed { seat } => cat2(n.seat_text(*seat).as_str(), " passes"),
        EventBase::LandPlayed { seat, object } => cat3(
            n.seat_text(*seat).as_str(),
            " plays ",
            n.object_text(*object).as_str(),
        ),
        EventBase::Cast { seat, object, .. } => cat3(
            n.seat_text(*seat).as_str(),
            " casts ",
            n.object_text(*object).as_str(),
        ),
        EventBase::Resolved { object } => cat2(n.object_text(*object).as_str(), " resolves"),
        EventBase::Tapped { object } => cat2(n.object_text(*object).as_str(), " taps"),
        EventBase::Untapped { object } => cat2(n.object_text(*object).as_str(), " untaps"),
        EventBase::ManaAdded { seat, mana, amount } => cat5(
            n.seat_text(*seat).as_str(),
            " adds ",
            count_text(*amount).as_str(),
            "×",
            mana.text(),
        ),
        EventBase::Attacked { seat, attackers } => if attackers.len() == 0 {
            cat2(n.seat_text(*seat).as_str(), " declares no attackers")
        } else {
            cat3(
                n.seat_text(*seat).as_str(),
                " attacks: ",
                attack_list(n, attackers).as_str(),
            )
        },
        EventBase::Blocked { seat, blocks } => if blocks.len() == 0 {
            cat2(n.seat_text(*seat).as_str(), " declares no blockers")
        } else {
            cat3(n.seat_text(*seat).as_str(), ": ", block_list(n, blocks).as_str())
        },
        EventBase::DamageAssigned { attacker, assignments } => cat3(
            n.object_text(*attacker).as_str(),
            " assigns ",
            split_list(n, assignments).as_str(),
        ),
        EventBase::Damage { source, to, amount, combat } => {
            let how = if *combat {
                " combat damage to "
            } else {
                " damage to "
            };
            cat5(
                n.object_text(*source).as_str(),
                " deals ",
                amount_text(*amount).as_str(),
                how,
                damage_target(n, *to).as_str(),
            )
        },
        EventBase::Activated { seat, object, ability, targets } => {
            let what = if *ability == EQUIP_ABILITY {
                " activates equip of "
            } else {
                " activates an ability of "
            };
            cat4(
                n.seat_text(*seat).as_str(),
                what,
                n.object_text(*object).as_str(),
                arrow(n, targets).as_str(),
            )
        },
        EventBase::Triggered { source, description, targets } => cat4(
            n.object_text(*source).as_str(),
            " triggers: ",
            description.as_str(),
            arrow(n, targets).as_str(),
        ),
        EventBase::Countered { object } => cat2(n.object_text(*object).as_str(), " is countered"),
        EventBase::Sacrificed { seat, object } => cat3(
            n.seat_text(*seat).as_str(),
            " sacrifices ",
            n.object_text(*object).as_str(),
        ),
        EventBase::TokenCreated { seat, object } => cat3(
            n.seat_text(*seat).as_str(),
            " creates ",
            n.object_text(*object).as_str(),
        ),
        EventBase::CountersAdded { object, counter, count } => cat6(
            n.object_text(*object).as_str(),
            " gets ",
            amount_text(*count).as_str(),
            " ",
            counter_text(counter.as_str()).as_str(),
            " counter(s)",
        ),
        EventBase::Attached { object, to } => cat3(
            n.object_text(*object).as_str(),
            " is attached to ",
            n.object_text(*to).as_str(),
        ),
        EventBase::LifeChanged { seat, from, to } => cat6(
            n.seat_text(*seat).as_str(),
            ": ",
            amount_text(*from).as_str(),
            " → ",
            amount_text(*to).as_str(),
            " life",
        ),
        EventBase::ZoneChange { object, from, to } => cat3(
            n.object_text(*object).as_str(),
            " ",
            move_text(*from, *to).as_str(),
        ),
        EventBase::Discarded { seat, objects } => cat3(
            n.seat_text(*seat).as_str(),
            " discards ",
            object_list(n, objects).as_str(),
        ),
        EventBase::Eliminated { seat, reason } => cat4(
            n.seat_text(*seat).as_str(),
            " ",
            reason.phrase(),
            " and leaves the game",
        ),
        EventBase::GameOver { outcome } => match outcome {
            Outcome::Winner(s) => cat3("=== ", n.seat_text(*s).as_str(), " wins ==="),
            Outcome::Draw => "=== The game is a draw ===".to_owned(),
        },
        EventBase::Chat { from, to, text } => match to {
            Some(t) => cat6(
                n.seat_text(*from).as_str(),
                " → ",
                n.seat_text(*t).as_str(),
                ": \"",
                text.as_str(),
                "\"",
            ),
            None => cat4(n.seat_text(*from).as_str(), ": \"", text.as_str(), "\""),
        },
    }
}

/// How many cards a draw event shows.
pub open spec fn drawn_in(e: EventFacts) -> nat {
    match e {
        EventModel::Drew { cards, .. } => cards.len(),
        _ => 0,
    }
}

/// How many cards a draw event shows to whoever sees it.
pub open spec fn drawn_in_view(e: SeenFacts) -> nat {
    match e {
        EventModel::Drew { cards, .. } => match cards {
            DrawnModel::Yours(ids) => ids.len(),
            DrawnModel::Hidden { count } => count as nat,
        },
        _ => 0,
    }
}

/// One line per event, with card names, from inside the engine.
pub fn describe_event(game: &Game, e: &Event) -> (r: String)
    ensures
        r@ == event_words(e.facts(), drawn_in(e.facts()), game.model().naming()),
{
    let drawn: usize = match e {
        EventBase::Drew { cards, .. } => cards.len(),
        _ => 0,
    };
    describe_event_with(e, drawn, game)
}

/// One line per seat-filtered event, for clients that only hold a view.
/// `names` resolves object ids (clients keep a cache from the views they
/// have seen) and seats.
pub fn describe_event_view<N: Names>(e: &EventView, names: &N) -> (r: String)
    ensures
        r@ == event_words(e@, drawn_in_view(e@), names.naming()),
{
    let drawn: usize = match e {
        EventBase::Drew { cards, .. } => match cards {
            DrawnCards::Yours(ids) => ids.len(),
            DrawnCards::Hidden { count } => *count as usize,
        },
        _ => 0,
    };
    describe_event_with(e, drawn, names)
}

} // verus!
