//! The action vocabulary. Deliberately small.
use crate::seqs::{law_sort_forgets_order, law_sort_permutes, copied, group_views, sort, sorted, views, Key};
use crate::types::{Mana, ObjectId, Seat};
use vstd::prelude::*;

verus! {

broadcast use group_views;

#[derive(Copy, Clone, Debug, PartialEq, Eq, PartialOrd, Ord, Hash, Structural)]
pub enum AttackTarget {
    Player(Seat),
    Planeswalker(ObjectId),
}

#[derive(Copy, Clone, Debug, PartialEq, Eq, PartialOrd, Ord, Hash, Structural)]
pub enum DamageTarget {
    Player(Seat),
    Object(ObjectId),
}

#[derive(Copy, Clone, Debug, PartialEq, Eq, PartialOrd, Ord, Hash, Structural)]
pub enum Target {
    Object(ObjectId),
    Player(Seat),
}

/// Players come before planeswalkers.
impl Key for AttackTarget {
    open spec fn below(self, other: AttackTarget) -> bool {
        match (self, other) {
            (AttackTarget::Player(a), AttackTarget::Player(b)) => a.0 <= b.0,
            (AttackTarget::Player(_), AttackTarget::Planeswalker(_)) => true,
            (AttackTarget::Planeswalker(_), AttackTarget::Player(_)) => false,
            (AttackTarget::Planeswalker(a), AttackTarget::Planeswalker(b)) => a.0 <= b.0,
        }
    }

    proof fn ordered(x: AttackTarget, y: AttackTarget, z: AttackTarget) {
    }

    fn le(&self, other: &AttackTarget) -> (b: bool) {
        match (*self, *other) {
            (AttackTarget::Player(a), AttackTarget::Player(b)) => a.0 <= b.0,
            (AttackTarget::Player(_), AttackTarget::Planeswalker(_)) => true,
            (AttackTarget::Planeswalker(_), AttackTarget::Player(_)) => false,
            (AttackTarget::Planeswalker(a), AttackTarget::Planeswalker(b)) => a.0 <= b.0,
        }
    }

    fn same(&self, other: &AttackTarget) -> (b: bool) {
        *self == *other
    }
}

/// Players come before objects.
impl Key for DamageTarget {
    open spec fn below(self, other: DamageTarget) -> bool {
        match (self, other) {
            (DamageTarget::Player(a), DamageTarget::Player(b)) => a.0 <= b.0,
            (DamageTarget::Player(_), DamageTarget::Object(_)) => true,
            (DamageTarget::Object(_), DamageTarget::Player(_)) => false,
            (DamageTarget::Object(a), DamageTarget::Object(b)) => a.0 <= b.0,
        }
    }

    proof fn ordered(x: DamageTarget, y: DamageTarget, z: DamageTarget) {
    }

    fn le(&self, other: &DamageTarget) -> (b: bool) {
        match (*self, *other) {
            (DamageTarget::Player(a), DamageTarget::Player(b)) => a.0 <= b.0,
            (DamageTarget::Player(_), DamageTarget::Object(_)) => true,
            (DamageTarget::Object(_), DamageTarget::Player(_)) => false,
            (DamageTarget::Object(a), DamageTarget::Object(b)) => a.0 <= b.0,
        }
    }

    fn same(&self, other: &DamageTarget) -> (b: bool) {
        *self == *other
    }
}

/// Objects come before players.
impl Key for Target {
    open spec fn below(self, other: Target) -> bool {
        match (self, other) {
            (Target::Object(a), Target::Object(b)) => a.0 <= b.0,
            (Target::Object(_), Target::Player(_)) => true,
            (Target::Player(_), Target::Object(_)) => false,
            (Target::Player(a), Target::Player(b)) => a.0 <= b.0,
        }
    }

    proof fn ordered(x: Target, y: Target, z: Target) {
    }

    fn le(&self, other: &Target) -> (b: bool) {
        match (*self, *other) {
            (Target::Object(a), Target::Object(b)) => a.0 <= b.0,
            (Target::Object(_), Target::Player(_)) => true,
            (Target::Player(_), Target::Object(_)) => false,
            (Target::Player(a), Target::Player(b)) => a.0 <= b.0,
        }
    }

    fn same(&self, other: &Target) -> (b: bool) {
        *self == *other
    }
}

impl Key for i32 {
    open spec fn below(self, other: i32) -> bool {
        self <= other
    }

    proof fn ordered(x: i32, y: i32, z: i32) {
    }

    fn le(&self, other: &i32) -> (b: bool) {
        *self <= *other
    }

    fn same(&self, other: &i32) -> (b: bool) {
        *self == *other
    }
}

/// Whether two lists hold the same elements in the same order.
pub fn same_list<T: Key + Copy>(a: &Vec<T>, b: &Vec<T>) -> (r: bool)
    ensures
        r == (a@ == b@),
{
    if a.len() != b.len() {
        return false;
    }
    let mut i: usize = 0;
    while i < a.len()
        invariant
            i <= a.len(),
            a@.len() == b@.len(),
            forall|j: int| 0 <= j < i ==> a@[j] == b@[j],
        decreases a.len() - i,
    {
        if !a[i].same(&b[i]) {
            return false;
        }
        i = i + 1;
    }
    assert(a@ =~= b@);
    true
}

/// How a cost is paid: which permanents to tap for their mana, and which mana
/// already in the pool to spend. Enumerated by the engine one colour
/// combination at a time; the engine picks concrete permanents.
#[derive(Debug, PartialEq, Eq)]
pub struct ManaPayment {
    pub tap: Vec<ObjectId>,
    pub from_pool: Vec<Mana>,
    /// Permanents sacrificed to pay a "Sacrifice a creature" cost.
    pub sacrifice: Vec<ObjectId>,
    /// Cards discarded to pay a "Discard a card" cost.
    pub discard: Vec<ObjectId>,
    /// The value announced for `{X}` in the cost; ignored for costs without one.
    pub x: u32,
}

/// A payment as a mathematical value.
#[verifier::ext_equal]
pub ghost struct PaymentModel {
    pub tap: Seq<ObjectId>,
    pub from_pool: Seq<Mana>,
    pub sacrifice: Seq<ObjectId>,
    pub discard: Seq<ObjectId>,
    pub x: u32,
}

impl View for ManaPayment {
    type V = PaymentModel;

    open spec fn view(&self) -> PaymentModel {
        PaymentModel {
            tap: self.tap@,
            from_pool: self.from_pool@,
            sacrifice: self.sacrifice@,
            discard: self.discard@,
            x: self.x,
        }
    }
}

impl PaymentModel {
    /// The payment that pays nothing.
    pub open spec fn none() -> PaymentModel {
        PaymentModel {
            tap: Seq::empty(),
            from_pool: Seq::empty(),
            sacrifice: Seq::empty(),
            discard: Seq::empty(),
            x: 0,
        }
    }

    pub open spec fn canonical(self) -> PaymentModel {
        PaymentModel {
            tap: sort(self.tap),
            from_pool: sort(self.from_pool),
            sacrifice: sort(self.sacrifice),
            discard: sort(self.discard),
            x: self.x,
        }
    }
}

impl Default for ManaPayment {
    fn default() -> (r: ManaPayment)
        ensures
            r@ == PaymentModel::none(),
    {
        ManaPayment {
            tap: Vec::new(),
            from_pool: Vec::new(),
            sacrifice: Vec::new(),
            discard: Vec::new(),
            x: 0,
        }
    }
}

impl Clone for ManaPayment {
    fn clone(&self) -> (r: ManaPayment)
        ensures
            r@ == self@,
    {
        ManaPayment {
            tap: copied(&self.tap),
            from_pool: copied(&self.from_pool),
            sacrifice: copied(&self.sacrifice),
            discard: copied(&self.discard),
            x: self.x,
        }
    }
}

impl ManaPayment {
    pub fn same(&self, other: &ManaPayment) -> (b: bool)
        ensures
            b == (self@ == other@),
    {
        let b = same_list(&self.tap, &other.tap) && same_list(&self.from_pool, &other.from_pool)
            && same_list(&self.sacrifice, &other.sacrifice) && same_list(
            &self.discard,
            &other.discard,
        ) && self.x == other.x;
        assert(b ==> self@ =~= other@);
        b
    }

    pub fn canonical(&self) -> (r: ManaPayment)
        ensures
            r@ == self@.canonical(),
    {
        ManaPayment {
            tap: sorted(&self.tap),
            from_pool: sorted(&self.from_pool),
            sacrifice: sorted(&self.sacrifice),
            discard: sorted(&self.discard),
            x: self.x,
        }
    }
}

/// The `ability` index that means "equip" on an Equipment.
pub const EQUIP_ABILITY: u8 = 255;

#[derive(Debug, PartialEq, Eq)]
pub enum Action {
    PassPriority,
    PlayLand { object: ObjectId },
    CastSpell { object: ObjectId, targets: Vec<Target>, payment: ManaPayment },
    ActivateAbility { object: ObjectId, ability: u8, targets: Vec<Target>, payment: ManaPayment },
    DeclareAttackers { attackers: Vec<(ObjectId, AttackTarget)> },
    /// `(blocker, attacker)` pairs.
    DeclareBlockers { blocks: Vec<(ObjectId, ObjectId)> },
    /// Only offered when a real choice exists. Validated by rule, not by list membership.
    AssignCombatDamage { attacker: ObjectId, assignments: Vec<(DamageTarget, i32)> },
    /// Answering a `PendingChoice`.
    ChooseTargets { targets: Vec<Target> },
    ChooseMode { mode: u8 },
    /// Cleanup-step hand size.
    Discard { objects: Vec<ObjectId> },
    Mulligan { keep: bool },
    /// London mulligan: after keeping, put N cards on the bottom.
    BottomCards { objects: Vec<ObjectId> },
    CastCommander { object: ObjectId, targets: Vec<Target>, payment: ManaPayment },
    CommanderToCommandZone { object: ObjectId },
    Concede,
}

/// An action as a mathematical value.
#[verifier::ext_equal]
pub ghost enum ActionModel {
    PassPriority,
    PlayLand { object: ObjectId },
    CastSpell { object: ObjectId, targets: Seq<Target>, payment: PaymentModel },
    ActivateAbility { object: ObjectId, ability: u8, targets: Seq<Target>, payment: PaymentModel },
    DeclareAttackers { attackers: Seq<(ObjectId, AttackTarget)> },
    DeclareBlockers { blocks: Seq<(ObjectId, ObjectId)> },
    AssignCombatDamage { attacker: ObjectId, assignments: Seq<(DamageTarget, i32)> },
    ChooseTargets { targets: Seq<Target> },
    ChooseMode { mode: u8 },
    Discard { objects: Seq<ObjectId> },
    Mulligan { keep: bool },
    BottomCards { objects: Seq<ObjectId> },
    CastCommander { object: ObjectId, targets: Seq<Target>, payment: PaymentModel },
    CommanderToCommandZone { object: ObjectId },
    Concede,
}

impl View for Action {
    type V = ActionModel;

    open spec fn view(&self) -> ActionModel {
        match self {
            Action::PassPriority => ActionModel::PassPriority,
            Action::PlayLand { object } => ActionModel::PlayLand { object: *object },
            Action::CastSpell { object, targets, payment } => ActionModel::CastSpell {
                object: *object,
                targets: targets@,
                payment: payment@,
            },
            Action::ActivateAbility { object, ability, targets, payment } => {
                ActionModel::ActivateAbility {
                    object: *object,
                    ability: *ability,
                    targets: targets@,
                    payment: payment@,
                }
            },
            Action::DeclareAttackers { attackers } => ActionModel::DeclareAttackers {
                attackers: attackers@,
            },
            Action::DeclareBlockers { blocks } => ActionModel::DeclareBlockers { blocks: blocks@ },
            Action::AssignCombatDamage { attacker, assignments } => {
                ActionModel::AssignCombatDamage { attacker: *attacker, assignments: assignments@ }
            },
            Action::ChooseTargets { targets } => ActionModel::ChooseTargets { targets: targets@ },
            Action::ChooseMode { mode } => ActionModel::ChooseMode { mode: *mode },
            Action::Discard { objects } => ActionModel::Discard { objects: objects@ },
            Action::Mulligan { keep } => ActionModel::Mulligan { keep: *keep },
            Action::BottomCards { objects } => ActionModel::BottomCards { objects: objects@ },
            Action::CastCommander { object, targets, payment } => ActionModel::CastCommander {
                object: *object,
                targets: targets@,
                payment: payment@,
            },
            Action::CommanderToCommandZone { object } => ActionModel::CommanderToCommandZone {
                object: *object,
            },
            Action::Concede => ActionModel::Concede,
        }
    }
}

impl ActionModel {
    pub open spec fn division(self) -> bool {
        self is AssignCombatDamage || self is DeclareAttackers || self is DeclareBlockers
    }

    /// The order-insensitive form: set-like lists in ascending order.
    pub open spec fn canonical(self) -> ActionModel {
        match self {
            ActionModel::CastSpell { object, targets, payment } => ActionModel::CastSpell {
                object,
                targets,
                payment: payment.canonical(),
            },
            ActionModel::ActivateAbility { object, ability, targets, payment } => {
                ActionModel::ActivateAbility {
                    object,
                    ability,
                    targets,
                    payment: payment.canonical(),
                }
            },
            ActionModel::CastCommander { object, targets, payment } => ActionModel::CastCommander {
                object,
                targets,
                payment: payment.canonical(),
            },
            ActionModel::ChooseTargets { targets } => ActionModel::ChooseTargets {
                targets: sort(targets),
            },
            ActionModel::DeclareAttackers { attackers } => ActionModel::DeclareAttackers {
                attackers: sort(attackers),
            },
            ActionModel::DeclareBlockers { blocks } => ActionModel::DeclareBlockers {
                blocks: sort(blocks),
            },
            ActionModel::AssignCombatDamage { attacker, assignments } => {
                ActionModel::AssignCombatDamage { attacker, assignments: sort(assignments) }
            },
            ActionModel::Discard { objects } => ActionModel::Discard { objects: sort(objects) },
            ActionModel::BottomCards { objects } => ActionModel::BottomCards {
                objects: sort(objects),
            },
            a => a,
        }
    }

    pub open spec fn paid(self) -> Option<PaymentModel> {
        match self {
            ActionModel::CastSpell { payment, .. } => Some(payment),
            ActionModel::ActivateAbility { payment, .. } => Some(payment),
            ActionModel::CastCommander { payment, .. } => Some(payment),
            _ => None,
        }
    }

    /// The same cast or activation, whatever permanents pay the mana.
    pub open spec fn twin(self, other: ActionModel) -> bool {
        match (self, other) {
            (
                ActionModel::CastSpell { object: a, targets: ta, .. },
                ActionModel::CastSpell { object: b, targets: tb, .. },
            ) => a == b && ta == tb,
            (
                ActionModel::ActivateAbility { object: a, ability: ia, targets: ta, payment: pa },
                ActionModel::ActivateAbility { object: b, ability: ib, targets: tb, payment: pb },
            ) => a == b && ia == ib && ta == tb && pa.sacrifice == pb.sacrifice && pa.discard
                == pb.discard,
            _ => false,
        }
    }
}

impl Clone for Action {
    fn clone(&self) -> (r: Action)
        ensures
            r@ == self@,
    {
        match self {
            Action::PassPriority => Action::PassPriority,
            Action::PlayLand { object } => Action::PlayLand { object: *object },
            Action::CastSpell { object, targets, payment } => Action::CastSpell {
                object: *object,
                targets: copied(targets),
                payment: payment.clone(),
            },
            Action::ActivateAbility { object, ability, targets, payment } => {
                Action::ActivateAbility {
                    object: *object,
                    ability: *ability,
                    targets: copied(targets),
                    payment: payment.clone(),
                }
            },
            Action::DeclareAttackers { attackers } => Action::DeclareAttackers {
                attackers: copied(attackers),
            },
            Action::DeclareBlockers { blocks } => Action::DeclareBlockers {
                blocks: copied(blocks),
            },
            Action::AssignCombatDamage { attacker, assignments } => Action::AssignCombatDamage {
                attacker: *attacker,
                assignments: copied(assignments),
            },
            Action::ChooseTargets { targets } => Action::ChooseTargets { targets: copied(targets) },
            Action::ChooseMode { mode } => Action::ChooseMode { mode: *mode },
            Action::Discard { objects } => Action::Discard { objects: copied(objects) },
            Action::Mulligan { keep } => Action::Mulligan { keep: *keep },
            Action::BottomCards { objects } => Action::BottomCards { objects: copied(objects) },
            Action::CastCommander { object, targets, payment } => Action::CastCommander {
                object: *object,
                targets: copied(targets),
                payment: payment.clone(),
            },
            Action::CommanderToCommandZone { object } => Action::CommanderToCommandZone {
                object: *object,
            },
            Action::Concede => Action::Concede,
        }
    }
}

impl Action {
    /// Actions whose legal space is a division of a resource among recipients:
    /// combat damage among blockers, and — in the same spirit — a player's
    /// creatures among attack targets or among attackers to block. These are
    /// validated by rule rather than by list membership; the entries
    /// `legal_actions` enumerates for them are suggestions.
    pub fn is_division(&self) -> (b: bool)
        ensures
            b == self@.division(),
    {
        matches!(
            self,
            Action::AssignCombatDamage { .. }
                | Action::DeclareAttackers { .. }
                | Action::DeclareBlockers { .. }
        )
    }

    /// Order-insensitive form used for list-membership checks: the vectors
    /// inside set-like actions are sorted so `[a, b]` and `[b, a]` compare equal.
    pub fn canonical(&self) -> (r: Action)
        ensures
            r@ == self@.canonical(),
    {
        match self {
            Action::CastSpell { object, targets, payment } => Action::CastSpell {
                object: *object,
                targets: copied(targets),
                payment: payment.canonical(),
            },
            Action::ActivateAbility { object, ability, targets, payment } => {
                Action::ActivateAbility {
                    object: *object,
                    ability: *ability,
                    targets: copied(targets),
                    payment: payment.canonical(),
                }
            },
            Action::CastCommander { object, targets, payment } => Action::CastCommander {
                object: *object,
                targets: copied(targets),
                payment: payment.canonical(),
            },
            Action::ChooseTargets { targets } => Action::ChooseTargets { targets: sorted(targets) },
            Action::DeclareAttackers { attackers } => Action::DeclareAttackers {
                attackers: sorted(attackers),
            },
            Action::DeclareBlockers { blocks } => Action::DeclareBlockers {
                blocks: sorted(blocks),
            },
            Action::AssignCombatDamage { attacker, assignments } => Action::AssignCombatDamage {
                attacker: *attacker,
                assignments: sorted(assignments),
            },
            Action::Discard { objects } => Action::Discard { objects: sorted(objects) },
            Action::BottomCards { objects } => Action::BottomCards { objects: sorted(objects) },
            other => other.clone(),
        }
    }

    pub fn is_pass(&self) -> (b: bool)
        ensures
            b == (self@ is PassPriority),
    {
        matches!(self, Action::PassPriority)
    }

    pub fn payment(&self) -> (r: Option<&ManaPayment>)
        ensures
            match r {
                Some(p) => self@.paid() == Some(p@),
                None => self@.paid() is None,
            },
    {
        match self {
            Action::CastSpell { payment, .. } => Some(payment),
            Action::ActivateAbility { payment, .. } => Some(payment),
            Action::CastCommander { payment, .. } => Some(payment),
            _ => None,
        }
    }

    /// The same cast or activation, ignoring which permanents pay the mana.
    pub fn same_except_mana(&self, other: &Action) -> (b: bool)
        ensures
            b == self@.twin(other@),
    {
        match (self, other) {
            (
                Action::CastSpell { object: a, targets: ta, .. },
                Action::CastSpell { object: b, targets: tb, .. },
            ) => *a == *b && same_list(ta, tb),
            (
                Action::ActivateAbility { object: a, ability: ia, targets: ta, payment: pa },
                Action::ActivateAbility { object: b, ability: ib, targets: tb, payment: pb },
            ) => *a == *b && *ia == *ib && same_list(ta, tb) && same_list(
                &pa.sacrifice,
                &pb.sacrifice,
            ) && same_list(&pa.discard, &pb.discard),
            _ => false,
        }
    }

    /// Whether two actions are the same in every part.
    pub fn same(&self, other: &Action) -> (b: bool)
        ensures
            b == (self@ == other@),
    {
        match (self, other) {
            (Action::PassPriority, Action::PassPriority) => true,
            (Action::PlayLand { object: a }, Action::PlayLand { object: b }) => *a == *b,
            (
                Action::CastSpell { object: a, targets: ta, payment: pa },
                Action::CastSpell { object: b, targets: tb, payment: pb },
            ) => *a == *b && same_list(ta, tb) && pa.same(pb),
            (
                Action::ActivateAbility { object: a, ability: ia, targets: ta, payment: pa },
                Action::ActivateAbility { object: b, ability: ib, targets: tb, payment: pb },
            ) => *a == *b && *ia == *ib && same_list(ta, tb) && pa.same(pb),
            (
                Action::DeclareAttackers { attackers: a },
                Action::DeclareAttackers { attackers: b },
            ) => same_list(a, b),
            (Action::DeclareBlockers { blocks: a }, Action::DeclareBlockers { blocks: b }) => {
                same_list(a, b)
            },
            (
                Action::AssignCombatDamage { attacker: a, assignments: xa },
                Action::AssignCombatDamage { attacker: b, assignments: xb },
            ) => *a == *b && same_list(xa, xb),
            (Action::ChooseTargets { targets: a }, Action::ChooseTargets { targets: b }) => {
                same_list(a, b)
            },
            (Action::ChooseMode { mode: a }, Action::ChooseMode { mode: b }) => *a == *b,
            (Action::Discard { objects: a }, Action::Discard { objects: b }) => same_list(a, b),
            (Action::Mulligan { keep: a }, Action::Mulligan { keep: b }) => *a == *b,
            (Action::BottomCards { objects: a }, Action::BottomCards { objects: b }) => {
                same_list(a, b)
            },
            (
                Action::CastCommander { object: a, targets: ta, payment: pa },
                Action::CastCommander { object: b, targets: tb, payment: pb },
            ) => *a == *b && same_list(ta, tb) && pa.same(pb),
            (
                Action::CommanderToCommandZone { object: a },
                Action::CommanderToCommandZone { object: b },
            ) => *a == *b,
            (Action::Concede, Action::Concede) => true,
            _ => false,
        }
    }
}

pub fn copied_actions(v: &Vec<Action>) -> (r: Vec<Action>)
    ensures
        views(r@) == views(v@),
{
    let mut r: Vec<Action> = Vec::new();
    let mut i: usize = 0;
    while i < v.len()
        invariant
            i <= v.len(),
            views(r@) == views(v@.subrange(0, i as int)),
        decreases v.len() - i,
    {
        r.push(v[i].clone());
        i = i + 1;
        assert(v@.subrange(0, i as int) =~= v@.subrange(0, i - 1).push(v@[i - 1]));
    }
    assert(v@.subrange(0, v@.len() as int) =~= v@);
    r
}

// ----- order does not matter -----

/// The same items, in some order.
pub open spec fn reorders<T>(a: Seq<T>, b: Seq<T>) -> bool {
    a.to_multiset() == b.to_multiset()
}

impl PaymentModel {
    /// The same payment, whatever the order of what it names.
    pub open spec fn same_but_order(self, other: PaymentModel) -> bool {
        &&& reorders(self.tap, other.tap)
        &&& reorders(self.from_pool, other.from_pool)
        &&& reorders(self.sacrifice, other.sacrifice)
        &&& reorders(self.discard, other.discard)
        &&& self.x == other.x
    }
}

impl ActionModel {
    /// The same action, whatever the order of what it names. The order of the
    /// targets of a cast or activation does matter.
    pub open spec fn same_but_order(self, other: ActionModel) -> bool {
        match (self, other) {
            (
                ActionModel::CastSpell { object: a, targets: s, payment: p },
                ActionModel::CastSpell { object: b, targets: t, payment: q },
            ) => a == b && s == t && p.same_but_order(q),
            (
                ActionModel::ActivateAbility { object: a, ability: i, targets: s, payment: p },
                ActionModel::ActivateAbility { object: b, ability: j, targets: t, payment: q },
            ) => a == b && i == j && s == t && p.same_but_order(q),
            (
                ActionModel::CastCommander { object: a, targets: s, payment: p },
                ActionModel::CastCommander { object: b, targets: t, payment: q },
            ) => a == b && s == t && p.same_but_order(q),
            (
                ActionModel::ChooseTargets { targets: s },
                ActionModel::ChooseTargets { targets: t },
            ) => reorders(s, t),
            (
                ActionModel::DeclareAttackers { attackers: s },
                ActionModel::DeclareAttackers { attackers: t },
            ) => reorders(s, t),
            (
                ActionModel::DeclareBlockers { blocks: s },
                ActionModel::DeclareBlockers { blocks: t },
            ) => reorders(s, t),
            (
                ActionModel::AssignCombatDamage { attacker: a, assignments: s },
                ActionModel::AssignCombatDamage { attacker: b, assignments: t },
            ) => a == b && reorders(s, t),
            (ActionModel::Discard { objects: s }, ActionModel::Discard { objects: t }) => reorders(
                s,
                t,
            ),
            (
                ActionModel::BottomCards { objects: s },
                ActionModel::BottomCards { objects: t },
            ) => reorders(s, t),
            (a, b) => a == b,
        }
    }
}

proof fn lemma_sort_iff<T: Key>(a: Seq<T>, b: Seq<T>)
    ensures
        sort(a) == sort(b) <==> reorders(a, b),
{
    law_sort_permutes(a);
    law_sort_permutes(b);
    if reorders(a, b) {
        law_sort_forgets_order(a, b);
    }
}

proof fn lemma_payment_iff(p: PaymentModel, q: PaymentModel)
    ensures
        p.canonical() == q.canonical() <==> p.same_but_order(q),
{
    lemma_sort_iff(p.tap, q.tap);
    lemma_sort_iff(p.from_pool, q.from_pool);
    lemma_sort_iff(p.sacrifice, q.sacrifice);
    lemma_sort_iff(p.discard, q.discard);
}

/// Two actions have the same canonical form if and only if they differ at
/// most in the order of what they name.
pub proof fn law_canonical_forgets_order(a: ActionModel, b: ActionModel)
    ensures
        a.canonical() == b.canonical() <==> a.same_but_order(b),
{
    match (a, b) {
        (
            ActionModel::CastSpell { payment: p, .. },
            ActionModel::CastSpell { payment: q, .. },
        ) => {
            lemma_payment_iff(p, q);
        },
        (
            ActionModel::ActivateAbility { payment: p, .. },
            ActionModel::ActivateAbility { payment: q, .. },
        ) => {
            lemma_payment_iff(p, q);
        },
        (
            ActionModel::CastCommander { payment: p, .. },
            ActionModel::CastCommander { payment: q, .. },
        ) => {
            lemma_payment_iff(p, q);
        },
        (
            ActionModel::ChooseTargets { targets: s },
            ActionModel::ChooseTargets { targets: t },
        ) => {
            lemma_sort_iff(s, t);
        },
        (
            ActionModel::DeclareAttackers { attackers: s },
            ActionModel::DeclareAttackers { attackers: t },
        ) => {
            lemma_sort_iff(s, t);
        },
        (
            ActionModel::DeclareBlockers { blocks: s },
            ActionModel::DeclareBlockers { blocks: t },
        ) => {
            lemma_sort_iff(s, t);
        },
        (
            ActionModel::AssignCombatDamage { assignments: s, .. },
            ActionModel::AssignCombatDamage { assignments: t, .. },
        ) => {
            lemma_sort_iff(s, t);
        },
        (ActionModel::Discard { objects: s }, ActionModel::Discard { objects: t }) => {
            lemma_sort_iff(s, t);
        },
        (ActionModel::BottomCards { objects: s }, ActionModel::BottomCards { objects: t }) => {
            lemma_sort_iff(s, t);
        },
        _ => {},
    }
}

} // verus!
