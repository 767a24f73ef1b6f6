//! Combat declarations and damage divisions worth listing. The listed ones
//! are suggestions: any declaration or division that satisfies the rules is
//! accepted, and `validate_division` is that rule check.
use crate::action::{Action, ActionModel, AttackTarget, DamageTarget};
use crate::costs::illegal;
use crate::error::{ErrorModel, RulesError};
use crate::seqs::{group_views, in_list, rank_sort, rank_sorted, views, without, Ranked};
use crate::state::{Game, GameModel, PendingChoice, PendingModel};
use crate::types::{id_words, seat_words, ObjectId, Seat};
use crate::words::{cat2, cat3, cat4, cat6};
use vstd::prelude::*;
use vstd::string::*;

verus! {

broadcast use group_views;

/// Above this many combinations, attack and block enumeration falls back to a
/// structured subset. The full space stays legal: these actions are validated by rule.
pub const ENUMERATION_CAP: usize = 256;

/// `base` to the power of `n`.
pub open spec fn power_of(base: nat, n: nat) -> nat
    decreases n,
{
    if n == 0 {
        1
    } else {
        base * power_of(base, (n - 1) as nat)
    }
}

proof fn lemma_power_grows(base: nat, a: nat, b: nat)
    requires
        base >= 1,
        a <= b,
    ensures
        power_of(base, a) <= power_of(base, b),
    decreases b,
{
    if a < b {
        lemma_power_grows(base, a, (b - 1) as nat);
        let p = power_of(base, (b - 1) as nat);
        assert(p <= base * p) by (nonlinear_arith)
            requires
                base >= 1,
        ;
    }
}

/// `base` to the power of `n`, if it is at most the cap.
fn power_within(base: u128, n: usize) -> (r: Option<u128>)
    requires
        1 <= base <= 0x1_0000_0000_0000_0000,
    ensures
        match r {
            Some(p) => p == power_of(base as nat, n as nat) && 1 <= p <= ENUMERATION_CAP,
            None => power_of(base as nat, n as nat) > ENUMERATION_CAP,
        },
{
    let mut p: u128 = 1;
    let mut i: usize = 0;
    while i < n
        invariant
            i <= n,
            1 <= base <= 0x1_0000_0000_0000_0000,
            p == power_of(base as nat, i as nat),
            1 <= p <= ENUMERATION_CAP,
        decreases n - i,
    {
        assert(1 <= base * p <= 0x1_0000_0000_0000_0000 * 256) by (nonlinear_arith)
            requires
                1 <= base <= 0x1_0000_0000_0000_0000,
                1 <= p <= 256,
        ;
        p = base * p;
        i = i + 1;
        if p > ENUMERATION_CAP as u128 {
            proof {
                lemma_power_grows(base as nat, i as nat, n as nat);
            }
            return None;
        }
    }
    Some(p)
}

// ----- who goes where -----

/// What the digits of `code` (in base `targets.len() + 1`, lowest first) send
/// the items from index `i` on to: a digit of zero sends an item nowhere.
pub open spec fn assignment<A, B>(items: Seq<A>, targets: Seq<B>, code: nat, i: nat) -> Seq<(A, B)>
    decreases items.len() - i,
{
    if i >= items.len() {
        Seq::empty()
    } else {
        let base = targets.len() + 1;
        let digit = code % base;
        let rest = assignment(items, targets, code / base, i + 1);
        if digit > 0 {
            seq![(items[i as int], targets[digit - 1])] + rest
        } else {
            rest
        }
    }
}

fn assign_by<A: Copy, B: Copy>(items: &Vec<A>, targets: &Vec<B>, code: u128) -> (r: Vec<(A, B)>)
    ensures
        r@ == assignment(items@, targets@, code as nat, 0),
{
    let base: u128 = targets.len() as u128 + 1;
    let mut out: Vec<(A, B)> = Vec::new();
    let mut rest: u128 = code;
    let mut i: usize = 0;
    let ghost all = assignment(items@, targets@, code as nat, 0);
    assert(all =~= out@ + assignment(items@, targets@, rest as nat, 0));
    while i < items.len()
        invariant
            i <= items.len(),
            base == targets@.len() + 1,
            base <= usize::MAX + 1,
            all == out@ + assignment(items@, targets@, rest as nat, i as nat),
        decreases items.len() - i,
    {
        let digit: u128 = rest % base;
        let ghost before = out@;
        let ghost code_now = rest as nat;
        rest = rest / base;
        if digit > 0 {
            out.push((items[i], targets[(digit - 1) as usize]));
        }
        i = i + 1;
        assert(before + assignment(items@, targets@, code_now, (i - 1) as nat) =~= out@
            + assignment(items@, targets@, rest as nat, i as nat));
    }
    assert(all =~= out@);
    out
}

/// The ids in the order of their ranks.
pub open spec fn in_rank_order(ids: Seq<ObjectId>, order: Seq<Ranked>, n: nat) -> Seq<ObjectId>
    decreases n,
{
    if n == 0 || n > order.len() {
        Seq::empty()
    } else {
        let rest = in_rank_order(ids, order, (n - 1) as nat);
        if order[n - 1].item < ids.len() {
            rest.push(ids[order[n - 1].item as int])
        } else {
            rest
        }
    }
}

fn by_rank(ids: &Vec<ObjectId>, ranks: &Vec<Ranked>) -> (r: Vec<ObjectId>)
    ensures
        r@ == in_rank_order(ids@, rank_sort(ranks@), rank_sort(ranks@).len()),
{
    let order = rank_sorted(ranks);
    let mut out: Vec<ObjectId> = Vec::new();
    let mut i: usize = 0;
    while i < order.len()
        invariant
            i <= order.len(),
            out@ == in_rank_order(ids@, order@, i as nat),
        decreases order.len() - i,
    {
        if order[i].item < ids.len() {
            out.push(ids[order[i].item]);
        }
        i = i + 1;
    }
    out
}

// ----- attacks -----

/// The first `n` ids, each where it first occurs.
pub open spec fn each_once(ids: Seq<ObjectId>, n: nat) -> Seq<ObjectId>
    decreases n,
{
    if n == 0 || n > ids.len() {
        Seq::empty()
    } else {
        let rest = each_once(ids, (n - 1) as nat);
        if rest.contains(ids[n - 1]) {
            rest
        } else {
            rest.push(ids[n - 1])
        }
    }
}

fn listed_once(ids: &Vec<ObjectId>) -> (r: Vec<ObjectId>)
    ensures
        r@ == each_once(ids@, ids@.len()),
{
    let mut out: Vec<ObjectId> = Vec::new();
    let mut i: usize = 0;
    while i < ids.len()
        invariant
            i <= ids.len(),
            out@ == each_once(ids@, i as nat),
        decreases ids.len() - i,
    {
        if !in_list(&out, ids[i]) {
            out.push(ids[i]);
        }
        i = i + 1;
    }
    out
}

/// The whole lot at one target.
pub open spec fn all_at<A, B>(items: Seq<A>, t: B) -> Seq<(A, B)> {
    Seq::new(items.len(), |i: int| (items[i], t))
}

/// Everyone at each of the first `n` targets, and each attacker alone.
pub open spec fn structured_attacks(
    cands: Seq<ObjectId>,
    targets: Seq<AttackTarget>,
    n: nat,
) -> Seq<ActionModel>
    decreases n,
{
    if n == 0 || n > targets.len() {
        Seq::empty()
    } else {
        let t = targets[n - 1];
        structured_attacks(cands, targets, (n - 1) as nat).push(
            ActionModel::DeclareAttackers { attackers: all_at(cands, t) },
        ) + Seq::new(
            cands.len(),
            |i: int| ActionModel::DeclareAttackers { attackers: seq![(cands[i], t)] },
        )
    }
}

impl GameModel {
    pub open spec fn attack_targets(self, seat: Seat) -> Seq<AttackTarget> {
        let seats = without(self.turn_order, seat);
        Seq::new(seats.len(), |i: int| AttackTarget::Player(seats[i]))
    }

    /// Every way to send the candidates at targets if there are few enough,
    /// else a structured subset; attacking with nothing comes first.
    pub open spec fn attack_suggestions(self, seat: Seat) -> Seq<ActionModel> {
        let cands = self.attack_candidates(seat);
        let targets = self.attack_targets(seat);
        let none = seq![ActionModel::DeclareAttackers { attackers: Seq::empty() }];
        if cands.len() == 0 || targets.len() == 0 {
            none
        } else {
            let total = power_of(targets.len() + 1, cands.len());
            if total <= ENUMERATION_CAP {
                none + Seq::new(
                    (total - 1) as nat,
                    |i: int| ActionModel::DeclareAttackers {
                        attackers: assignment(cands, targets, (i + 1) as nat, 0),
                    },
                )
            } else {
                none + structured_attacks(cands, targets, targets.len())
            }
        }
    }

    // ----- blocks -----

    /// Every pair may block, and menace is satisfied.
    pub open spec fn blocks_legal(
        self,
        blocks: Seq<(ObjectId, ObjectId)>,
        attackers: Seq<ObjectId>,
    ) -> bool {
        (forall|i: int|
            0 <= i < blocks.len() ==> self.can_block(
                (#[trigger] blocks[i]).0,
                blocks[i].1,
            )) && self.menace_ok(blocks, attackers)
    }

    /// `out` and the declaration, if it is legal.
    pub open spec fn with_blocks(
        self,
        out: Seq<ActionModel>,
        blocks: Seq<(ObjectId, ObjectId)>,
        attackers: Seq<ObjectId>,
    ) -> Seq<ActionModel> {
        if self.blocks_legal(blocks, attackers) {
            out.push(ActionModel::DeclareBlockers { blocks })
        } else {
            out
        }
    }

    /// The legal declarations among codes `1` up to `n`.
    pub open spec fn coded_blocks(
        self,
        blockers: Seq<ObjectId>,
        attackers: Seq<ObjectId>,
        n: nat,
    ) -> Seq<ActionModel>
        decreases n,
    {
        if n == 0 {
            Seq::empty()
        } else {
            self.with_blocks(
                self.coded_blocks(blockers, attackers, (n - 1) as nat),
                assignment(blockers, attackers, n, 0),
                attackers,
            )
        }
    }

    /// Those of the first `n` blockers that can block an attacker.
    pub open spec fn able_to_block(self, blockers: Seq<ObjectId>, a: ObjectId, n: nat) -> Seq<
        ObjectId,
    >
        decreases n,
    {
        if n == 0 || n > blockers.len() {
            Seq::empty()
        } else {
            let rest = self.able_to_block(blockers, a, (n - 1) as nat);
            if self.can_block(blockers[n - 1], a) {
                rest.push(blockers[n - 1])
            } else {
                rest
            }
        }
    }

    /// `out` and each of the first `n` blockers alone.
    pub open spec fn single_blocks(
        self,
        out: Seq<ActionModel>,
        can: Seq<ObjectId>,
        a: ObjectId,
        attackers: Seq<ObjectId>,
        n: nat,
    ) -> Seq<ActionModel>
        decreases n,
    {
        if n == 0 || n > can.len() {
            out
        } else {
            self.with_blocks(
                self.single_blocks(out, can, a, attackers, (n - 1) as nat),
                seq![(can[n - 1], a)],
                attackers,
            )
        }
    }

    /// `out` and blocker `i` paired with each of those behind it, up to the `n`-th.
    pub open spec fn pairs_with(
        self,
        out: Seq<ActionModel>,
        can: Seq<ObjectId>,
        a: ObjectId,
        attackers: Seq<ObjectId>,
        i: nat,
        n: nat,
    ) -> Seq<ActionModel>
        decreases n,
    {
        if n <= i + 1 || n > can.len() {
            out
        } else {
            self.with_blocks(
                self.pairs_with(out, can, a, attackers, i, (n - 1) as nat),
                seq![(can[i as int], a), (can[n - 1], a)],
                attackers,
            )
        }
    }

    /// `out` and every pair whose first member is among the first `n`.
    pub open spec fn pair_blocks(
        self,
        out: Seq<ActionModel>,
        can: Seq<ObjectId>,
        a: ObjectId,
        attackers: Seq<ObjectId>,
        n: nat,
    ) -> Seq<ActionModel>
        decreases n,
    {
        if n == 0 || n > can.len() {
            out
        } else {
            self.pairs_with(
                self.pair_blocks(out, can, a, attackers, (n - 1) as nat),
                can,
                a,
                attackers,
                (n - 1) as nat,
                can.len(),
            )
        }
    }

    /// `out` and the blocks on one attacker: singles, pairs, everyone.
    pub open spec fn blocks_of_one(
        self,
        out: Seq<ActionModel>,
        blockers: Seq<ObjectId>,
        a: ObjectId,
        attackers: Seq<ObjectId>,
    ) -> Seq<ActionModel> {
        let can = self.able_to_block(blockers, a, blockers.len());
        let pairs = self.pair_blocks(
            self.single_blocks(out, can, a, attackers, can.len()),
            can,
            a,
            attackers,
            can.len(),
        );
        if can.len() > 2 {
            self.with_blocks(pairs, all_at(can, a), attackers)
        } else {
            pairs
        }
    }

    pub open spec fn structured_blocks(
        self,
        blockers: Seq<ObjectId>,
        attackers: Seq<ObjectId>,
        n: nat,
    ) -> Seq<ActionModel>
        decreases n,
    {
        if n == 0 || n > attackers.len() {
            Seq::empty()
        } else {
            self.blocks_of_one(
                self.structured_blocks(blockers, attackers, (n - 1) as nat),
                blockers,
                attackers[n - 1],
                attackers,
            )
        }
    }

    /// Biggest power first.
    pub open spec fn by_power(self, ids: Seq<ObjectId>) -> Seq<ObjectId> {
        let order = rank_sort(
            Seq::new(
                ids.len(),
                |i: int| Ranked { a: -self.power(ids[i]) as i64, b: 0, c: 0, item: i as usize },
            ),
        );
        in_rank_order(ids, order, order.len())
    }

    /// Toughest first, then biggest power.
    pub open spec fn by_toughness(self, ids: Seq<ObjectId>) -> Seq<ObjectId> {
        let order = rank_sort(
            Seq::new(
                ids.len(),
                |i: int| Ranked {
                    a: -self.toughness(ids[i]) as i64,
                    b: -self.power(ids[i]) as i64,
                    c: 0,
                    item: i as usize,
                },
            ),
        );
        in_rank_order(ids, order, order.len())
    }

    /// The first of `free` from index `i` on that can block `a`.
    pub open spec fn first_able(self, free: Seq<ObjectId>, a: ObjectId, i: nat) -> Option<nat>
        decreases free.len() - i,
    {
        if i >= free.len() {
            None
        } else if self.can_block(free[i as int], a) {
            Some(i)
        } else {
            self.first_able(free, a, i + 1)
        }
    }

    /// Each of the first `n` attackers takes the first free blocker that can
    /// block it: the blocks, and the blockers still free.
    pub open spec fn spread_n(self, attackers: Seq<ObjectId>, free: Seq<ObjectId>, n: nat) -> (
        Seq<(ObjectId, ObjectId)>,
        Seq<ObjectId>,
    )
        decreases n,
    {
        if n == 0 || n > attackers.len() {
            (Seq::empty(), free)
        } else {
            let (blocks, left) = self.spread_n(attackers, free, (n - 1) as nat);
            match self.first_able(left, attackers[n - 1], 0) {
                Some(i) => (
                    blocks.push((left[i as int], attackers[n - 1])),
                    left.remove(i as int),
                ),
                None => (blocks, left),
            }
        }
    }

    /// Every legal declaration if there are few enough to look at, else a
    /// structured subset; blocking with nothing comes first.
    pub open spec fn block_suggestions(self, seat: Seat) -> Seq<ActionModel> {
        let blockers = self.block_candidates(seat);
        let attackers = self.attackers_against(seat);
        let none = seq![ActionModel::DeclareBlockers { blocks: Seq::empty() }];
        if blockers.len() == 0 || attackers.len() == 0 {
            none
        } else {
            let total = power_of(attackers.len() + 1, blockers.len());
            if total <= ENUMERATION_CAP {
                none + self.coded_blocks(blockers, attackers, (total - 1) as nat)
            } else {
                let listed = none + self.structured_blocks(blockers, attackers, attackers.len());
                let spread = self.spread_n(
                    self.by_power(attackers),
                    self.by_toughness(blockers),
                    self.by_power(attackers).len(),
                ).0;
                if spread.len() > 1 {
                    self.with_blocks(listed, spread, attackers)
                } else {
                    listed
                }
            }
        }
    }

    // ----- damage -----

    /// `out` and the division, unless one like it is listed.
    pub open spec fn with_division(
        out: Seq<ActionModel>,
        attacker: ObjectId,
        split: Seq<(DamageTarget, i32)>,
    ) -> Seq<ActionModel> {
        let a = ActionModel::AssignCombatDamage { attacker, assignments: split };
        if exists|i: int|
            0 <= i < out.len() && (#[trigger] out[i]).canonical() == a.canonical() {
            out
        } else {
            out.push(a)
        }
    }

    /// `out` and everything to each of the first `n` blockers, where legal.
    pub open spec fn gang_divisions(
        self,
        out: Seq<ActionModel>,
        attacker: ObjectId,
        blockers: Seq<ObjectId>,
        n: nat,
    ) -> Seq<ActionModel>
        decreases n,
    {
        if n == 0 || n > blockers.len() {
            out
        } else {
            let rest = self.gang_divisions(out, attacker, blockers, (n - 1) as nat);
            let split = seq![(DamageTarget::Object(blockers[n - 1]), self.strength(attacker))];
            if self.division_error(attacker, split) is None {
                GameModel::with_division(rest, attacker, split)
            } else {
                rest
            }
        }
    }

    /// The common splits: lethal in declared order, and everything to each
    /// blocker. A division names each recipient once, so a creature that was
    /// declared as a blocker twice has one place in the order.
    pub open spec fn damage_suggestions(self, attacker: ObjectId) -> Seq<ActionModel> {
        let blockers = self.live_blockers(attacker);
        self.gang_divisions(
            GameModel::with_division(
                Seq::empty(),
                attacker,
                self.lethal_in_order(attacker, each_once(blockers, blockers.len())),
            ),
            attacker,
            blockers,
            blockers.len(),
        )
    }
}

// ----- the rule check -----

impl GameModel {
    pub open spec fn name_words(self, id: ObjectId) -> Seq<char> {
        if self.has_def(id) {
            self.def(id).name
        } else {
            "unknown object"@
        }
    }

    /// Entry `k` names a creature an earlier entry named.
    pub open spec fn named_before<B>(xs: Seq<(ObjectId, B)>, k: nat) -> bool {
        exists|j: int| 0 <= j < k && (#[trigger] xs[j]).0 == xs[k as int].0
    }

    /// Why entry `k` of an attack declaration is not allowed, if it is not.
    pub open spec fn attack_entry_error(
        self,
        seat: Seat,
        xs: Seq<(ObjectId, AttackTarget)>,
        k: nat,
    ) -> Option<ErrorModel> {
        let (id, target) = xs[k as int];
        if !self.attack_candidates(seat).contains(id) {
            Some(illegal(self.name_words(id) + " "@ + id_words(id) + " can't attack"@))
        } else if GameModel::named_before(xs, k) {
            Some(illegal(id_words(id) + " is declared twice"@))
        } else {
            match target {
                AttackTarget::Player(t) => if t == seat || !self.in_game(t) {
                    Some(illegal(seat_words(t) + " can't be attacked"@))
                } else {
                    None
                },
                AttackTarget::Planeswalker(_) => Some(
                    ErrorModel::Unsupported { what: "attacking planeswalkers"@ },
                ),
            }
        }
    }

    /// The first error of an attack declaration, from entry `i` on.
    pub open spec fn attack_error(
        self,
        seat: Seat,
        xs: Seq<(ObjectId, AttackTarget)>,
        i: nat,
    ) -> Option<ErrorModel>
        decreases xs.len() - i,
    {
        if i >= xs.len() {
            None
        } else {
            match self.attack_entry_error(seat, xs, i) {
                Some(e) => Some(e),
                None => self.attack_error(seat, xs, i + 1),
            }
        }
    }

    pub open spec fn block_entry_error(
        self,
        seat: Seat,
        xs: Seq<(ObjectId, ObjectId)>,
        k: nat,
    ) -> Option<ErrorModel> {
        let (b, a) = xs[k as int];
        if !self.block_candidates(seat).contains(b) {
            Some(illegal(self.name_words(b) + " "@ + id_words(b) + " can't block"@))
        } else if GameModel::named_before(xs, k) {
            Some(illegal(id_words(b) + " can block only one attacker"@))
        } else if !self.attackers_against(seat).contains(a) {
            Some(illegal(id_words(a) + " is not attacking "@ + seat_words(seat)))
        } else if !self.can_block(b, a) {
            Some(
                illegal(
                    self.name_words(b) + " "@ + id_words(b) + " can't block "@ + self.name_words(a)
                        + ": it has flying"@,
                ),
            )
        } else {
            None
        }
    }

    pub open spec fn block_error(self, seat: Seat, xs: Seq<(ObjectId, ObjectId)>, i: nat) -> Option<
        ErrorModel,
    >
        decreases xs.len() - i,
    {
        if i >= xs.len() {
            if self.menace_ok(xs, self.attackers_against(seat)) {
                None
            } else {
                Some(illegal("a creature with menace can't be blocked by just one creature"@))
            }
        } else {
            match self.block_entry_error(seat, xs, i) {
                Some(e) => Some(e),
                None => self.block_error(seat, xs, i + 1),
            }
        }
    }

    /// Why a declaration or division is refused, if it is: it has to be the
    /// choice pending for `seat`, and satisfy the rules.
    pub open spec fn declaration_error(self, seat: Seat, a: ActionModel) -> Option<ErrorModel> {
        match (a, self.pending) {
            (
                ActionModel::DeclareAttackers { attackers },
                Some(PendingModel::DeclareAttackers { seat: s }),
            ) if s == seat => self.attack_error(seat, attackers, 0),
            (
                ActionModel::DeclareBlockers { blocks },
                Some(PendingModel::DeclareBlockers { seat: s, .. }),
            ) if s == seat => self.block_error(seat, blocks, 0),
            (
                ActionModel::AssignCombatDamage { attacker, assignments },
                Some(PendingModel::AssignDamage { seat: s, attacker: asked, .. }),
            ) if s == seat => if attacker != asked {
                Some(
                    illegal(
                        id_words(asked) + " is the attacker whose damage needs assigning, not "@
                            + id_words(attacker),
                    ),
                )
            } else {
                match self.division_error(attacker, assignments) {
                    Some(e) => Some(illegal(e)),
                    None => None,
                }
            },
            _ => Some(
                illegal(
                    self.action_words(a) + " is not the choice pending for "@ + seat_words(seat),
                ),
            ),
        }
    }
}

// ----- executable parts -----

impl Game {
    fn attack_targets(&self, seat: Seat) -> (r: Vec<AttackTarget>)
        ensures
            r@ == self.model().attack_targets(seat),
    {
        let seats = self.opponents_of(seat);
        let mut out: Vec<AttackTarget> = Vec::new();
        let mut i: usize = 0;
        while i < seats.len()
            invariant
                i <= seats.len(),
                out@ == Seq::new(i as nat, |j: int| AttackTarget::Player(seats@[j])),
            decreases seats.len() - i,
        {
            out.push(AttackTarget::Player(seats[i]));
            i = i + 1;
        }
        out
    }

    pub(crate) fn attack_suggestions(&self, seat: Seat) -> (r: Vec<Action>)
        ensures
            views(r@) == self.model().attack_suggestions(seat),
    {
        let cands = self.attack_candidates(seat);
        let targets = self.attack_targets(seat);
        let mut out: Vec<Action> = Vec::new();
        out.push(Action::DeclareAttackers { attackers: Vec::new() });
        let ghost none = seq![ActionModel::DeclareAttackers { attackers: Seq::empty() }];
        assert(views(out@) =~= none);
        if cands.len() == 0 || targets.len() == 0 {
            return out;
        }
        match power_within(targets.len() as u128 + 1, cands.len()) {
            Some(total) => {
                let mut code: u128 = 1;
                assert(views(out@) =~= none + Seq::new(
                    0,
                    |i: int| ActionModel::DeclareAttackers {
                        attackers: assignment(cands@, targets@, (i + 1) as nat, 0),
                    },
                ));
                while code < total
                    invariant
                        1 <= code <= total,
                        views(out@) == none + Seq::new(
                            (code - 1) as nat,
                            |i: int| ActionModel::DeclareAttackers {
                                attackers: assignment(cands@, targets@, (i + 1) as nat, 0),
                            },
                        ),
                    decreases total - code,
                {
                    let attackers = assign_by(&cands, &targets, code);
                    out.push(Action::DeclareAttackers { attackers });
                    code = code + 1;
                    assert(views(out@) =~= none + Seq::new(
                        (code - 1) as nat,
                        |i: int| ActionModel::DeclareAttackers {
                            attackers: assignment(cands@, targets@, (i + 1) as nat, 0),
                        },
                    ));
                }
                assert(views(out@) =~= self.model().attack_suggestions(seat));
                out
            },
            None => self.structured_attacks(&cands, &targets, out),
        }
    }

    fn structured_attacks(
        &self,
        cands: &Vec<ObjectId>,
        targets: &Vec<AttackTarget>,
        out: Vec<Action>,
    ) -> (r: Vec<Action>)
        ensures
            views(r@) == views(out@) + structured_attacks(cands@, targets@, targets@.len()),
    {
        let ghost start = views(out@);
        let mut out = out;
        let mut i: usize = 0;
        assert(views(out@) =~= start + structured_attacks(cands@, targets@, 0));
        while i < targets.len()
            invariant
                i <= targets.len(),
                views(out@) == start + structured_attacks(cands@, targets@, i as nat),
            decreases targets.len() - i,
        {
            let t = targets[i];
            let mut all: Vec<(ObjectId, AttackTarget)> = Vec::new();
            let mut j: usize = 0;
            while j < cands.len()
                invariant
                    j <= cands.len(),
                    all@ == Seq::new(j as nat, |k: int| (cands@[k], t)),
                decreases cands.len() - j,
            {
                all.push((cands[j], t));
                j = j + 1;
            }
            assert(all@ =~= all_at(cands@, t));
            out.push(Action::DeclareAttackers { attackers: all });
            let ghost mid = views(out@);
            let mut k: usize = 0;
            assert(mid =~= mid + Seq::new(
                0,
                |i: int| ActionModel::DeclareAttackers { attackers: seq![(cands@[i], t)] },
            ));
            while k < cands.len()
                invariant
                    k <= cands.len(),
                    views(out@) == mid + Seq::new(
                        k as nat,
                        |i: int| ActionModel::DeclareAttackers { attackers: seq![(cands@[i], t)] },
                    ),
                decreases cands.len() - k,
            {
                let ghost before = views(out@);
                let mut one: Vec<(ObjectId, AttackTarget)> = Vec::new();
                one.push((cands[k], t));
                assert(one@ =~= seq![(cands@[k as int], t)]);
                out.push(Action::DeclareAttackers { attackers: one });
                k = k + 1;
                assert(views(out@) =~= mid + Seq::new(
                    k as nat,
                    |i: int| ActionModel::DeclareAttackers { attackers: seq![(cands@[i], t)] },
                ));
            }
            i = i + 1;
            assert(views(out@) =~= start + structured_attacks(cands@, targets@, i as nat));
        }
        out
    }

    fn blocks_legal(&self, blocks: &Vec<(ObjectId, ObjectId)>, attackers: &Vec<ObjectId>) -> (b:
        bool)
        ensures
            b == self.model().blocks_legal(blocks@, attackers@),
    {
        let mut i: usize = 0;
        while i < blocks.len()
            invariant
                i <= blocks.len(),
                forall|j: int|
                    0 <= j < i ==> self.model().can_block((#[trigger] blocks@[j]).0, blocks@[j].1),
            decreases blocks.len() - i,
        {
            if !self.can_block(blocks[i].0, blocks[i].1) {
                assert(!self.model().can_block(blocks@[i as int].0, blocks@[i as int].1));
                return false;
            }
            i = i + 1;
        }
        self.blocks_satisfy_menace(blocks, attackers)
    }

    fn add_blocks(
        &self,
        out: &mut Vec<Action>,
        blocks: Vec<(ObjectId, ObjectId)>,
        attackers: &Vec<ObjectId>,
    )
        ensures
            views(final(out)@) == self.model().with_blocks(views(old(out)@), blocks@, attackers@),
    {
        if self.blocks_legal(&blocks, attackers) {
            out.push(Action::DeclareBlockers { blocks });
        }
    }

    fn able_to_block(&self, blockers: &Vec<ObjectId>, a: ObjectId) -> (r: Vec<ObjectId>)
        ensures
            r@ == self.model().able_to_block(blockers@, a, blockers@.len()),
    {
        let mut out: Vec<ObjectId> = Vec::new();
        let mut i: usize = 0;
        while i < blockers.len()
            invariant
                i <= blockers.len(),
                out@ == self.model().able_to_block(blockers@, a, i as nat),
            decreases blockers.len() - i,
        {
            if self.can_block(blockers[i], a) {
                out.push(blockers[i]);
            }
            i = i + 1;
        }
        out
    }

    fn add_singles(
        &self,
        out: &mut Vec<Action>,
        can: &Vec<ObjectId>,
        a: ObjectId,
        attackers: &Vec<ObjectId>,
    )
        ensures
            views(final(out)@) == self.model().single_blocks(
                views(old(out)@),
                can@,
                a,
                attackers@,
                can@.len(),
            ),
    {
        let ghost start = views(out@);
        let mut i: usize = 0;
        while i < can.len()
            invariant
                i <= can.len(),
                views(out@) == self.model().single_blocks(start, can@, a, attackers@, i as nat),
            decreases can.len() - i,
        {
            let mut one: Vec<(ObjectId, ObjectId)> = Vec::new();
            one.push((can[i], a));
            assert(one@ =~= seq![(can@[i as int], a)]);
            self.add_blocks(out, one, attackers);
            i = i + 1;
        }
    }

    fn add_pairs_with(
        &self,
        out: &mut Vec<Action>,
        can: &Vec<ObjectId>,
        a: ObjectId,
        attackers: &Vec<ObjectId>,
        i: usize,
    )
        requires
            i < can.len(),
        ensures
            views(final(out)@) == self.model().pairs_with(
                views(old(out)@),
                can@,
                a,
                attackers@,
                i as nat,
                can@.len(),
            ),
    {
        let ghost start = views(out@);
        let mut j: usize = i + 1;
        while j < can.len()
            invariant
                i < j <= can.len(),
                views(out@) == self.model().pairs_with(
                    start,
                    can@,
                    a,
                    attackers@,
                    i as nat,
                    j as nat,
                ),
            decreases can.len() - j,
        {
            let mut two: Vec<(ObjectId, ObjectId)> = Vec::new();
            two.push((can[i], a));
            two.push((can[j], a));
            assert(two@ =~= seq![(can@[i as int], a), (can@[j as int], a)]);
            self.add_blocks(out, two, attackers);
            j = j + 1;
        }
    }

    fn add_pairs(
        &self,
        out: &mut Vec<Action>,
        can: &Vec<ObjectId>,
        a: ObjectId,
        attackers: &Vec<ObjectId>,
    )
        ensures
            views(final(out)@) == self.model().pair_blocks(
                views(old(out)@),
                can@,
                a,
                attackers@,
                can@.len(),
            ),
    {
        let ghost start = views(out@);
        let mut i: usize = 0;
        while i < can.len()
            invariant
                i <= can.len(),
                views(out@) == self.model().pair_blocks(start, can@, a, attackers@, i as nat),
            decreases can.len() - i,
        {
            self.add_pairs_with(out, can, a, attackers, i);
            i = i + 1;
        }
    }

    fn add_blocks_of_one(
        &self,
        out: &mut Vec<Action>,
        blockers: &Vec<ObjectId>,
        a: ObjectId,
        attackers: &Vec<ObjectId>,
    )
        ensures
            views(final(out)@) == self.model().blocks_of_one(
                views(old(out)@),
                blockers@,
                a,
                attackers@,
            ),
    {
        let can = self.able_to_block(blockers, a);
        self.add_singles(out, &can, a, attackers);
        self.add_pairs(out, &can, a, attackers);
        if can.len() > 2 {
            let mut all: Vec<(ObjectId, ObjectId)> = Vec::new();
            let mut j: usize = 0;
            while j < can.len()
                invariant
                    j <= can.len(),
                    all@ == Seq::new(j as nat, |k: int| (can@[k], a)),
                decreases can.len() - j,
            {
                all.push((can[j], a));
                j = j + 1;
            }
            assert(all@ =~= all_at(can@, a));
            self.add_blocks(out, all, attackers);
        }
    }

    fn by_power(&self, ids: &Vec<ObjectId>) -> (r: Vec<ObjectId>)
        ensures
            r@ == self.model().by_power(ids@),
    {
        let mut ranks: Vec<Ranked> = Vec::new();
        let mut i: usize = 0;
        while i < ids.len()
            invariant
                i <= ids.len(),
                ranks@ == Seq::new(
                    i as nat,
                    |i: int| Ranked {
                        a: -self.model().power(ids@[i]) as i64,
                        b: 0,
                        c: 0,
                        item: i as usize,
                    },
                ),
            decreases ids.len() - i,
        {
            ranks.push(Ranked { a: -(self.power(ids[i]) as i64), b: 0, c: 0, item: i });
            i = i + 1;
        }
        by_rank(ids, &ranks)
    }

    fn by_toughness(&self, ids: &Vec<ObjectId>) -> (r: Vec<ObjectId>)
        ensures
            r@ == self.model().by_toughness(ids@),
    {
        let mut ranks: Vec<Ranked> = Vec::new();
        let mut i: usize = 0;
        while i < ids.len()
            invariant
                i <= ids.len(),
                ranks@ == Seq::new(
                    i as nat,
                    |i: int| Ranked {
                        a: -self.model().toughness(ids@[i]) as i64,
                        b: -self.model().power(ids@[i]) as i64,
                        c: 0,
                        item: i as usize,
                    },
                ),
            decreases ids.len() - i,
        {
            ranks.push(
                Ranked {
                    a: -(self.toughness(ids[i]) as i64),
                    b: -(self.power(ids[i]) as i64),
                    c: 0,
                    item: i,
                },
            );
            i = i + 1;
        }
        by_rank(ids, &ranks)
    }

    fn first_able(&self, free: &Vec<ObjectId>, a: ObjectId) -> (r: Option<usize>)
        ensures
            match r {
                Some(i) => i < free.len() && self.model().first_able(free@, a, 0) == Some(i as nat),
                None => self.model().first_able(free@, a, 0) is None,
            },
    {
        let mut i: usize = 0;
        while i < free.len()
            invariant
                i <= free.len(),
                self.model().first_able(free@, a, 0) == self.model().first_able(
                    free@,
                    a,
                    i as nat,
                ),
            decreases free.len() - i,
        {
            if self.can_block(free[i], a) {
                return Some(i);
            }
            i = i + 1;
        }
        None
    }

    /// Biggest attackers first, each taking the toughest free blocker that can block it.
    fn spread(&self, blockers: &Vec<ObjectId>, attackers: &Vec<ObjectId>) -> (r: Vec<
        (ObjectId, ObjectId),
    >)
        ensures
            r@ == self.model().spread_n(
                self.model().by_power(attackers@),
                self.model().by_toughness(blockers@),
                self.model().by_power(attackers@).len(),
            ).0,
    {
        let order = self.by_power(attackers);
        let mut free = self.by_toughness(blockers);
        let ghost start = free@;
        let mut out: Vec<(ObjectId, ObjectId)> = Vec::new();
        let mut i: usize = 0;
        while i < order.len()
            invariant
                i <= order.len(),
                (out@, free@) == self.model().spread_n(order@, start, i as nat),
            decreases order.len() - i,
        {
            if let Some(k) = self.first_able(&free, order[i]) {
                let b = free.remove(k);
                out.push((b, order[i]));
            }
            i = i + 1;
        }
        out
    }

    pub(crate) fn block_suggestions(&self, seat: Seat) -> (r: Vec<Action>)
        ensures
            views(r@) == self.model().block_suggestions(seat),
    {
        let blockers = self.block_candidates(seat);
        let attackers = self.attackers_against(seat);
        let mut out: Vec<Action> = Vec::new();
        out.push(Action::DeclareBlockers { blocks: Vec::new() });
        let ghost none = seq![ActionModel::DeclareBlockers { blocks: Seq::empty() }];
        assert(views(out@) =~= none);
        if blockers.len() == 0 || attackers.len() == 0 {
            return out;
        }
        match power_within(attackers.len() as u128 + 1, blockers.len()) {
            Some(total) => {
                let mut listed: Vec<Action> = Vec::new();
                let mut code: u128 = 1;
                while code < total
                    invariant
                        1 <= code <= total,
                        views(listed@) == self.model().coded_blocks(
                            blockers@,
                            attackers@,
                            (code - 1) as nat,
                        ),
                    decreases total - code,
                {
                    let blocks = assign_by(&blockers, &attackers, code);
                    self.add_blocks(&mut listed, blocks, &attackers);
                    code = code + 1;
                }
                out.append(&mut listed);
                assert(views(out@) =~= self.model().block_suggestions(seat));
                out
            },
            None => {
                // Too many combinations to list: singles, double-blocks, full gangs,
                // and a spread that puts one blocker on each attacker. Any other
                // legal assignment may be sent as a full action.
                let mut listed: Vec<Action> = Vec::new();
                let mut i: usize = 0;
                while i < attackers.len()
                    invariant
                        i <= attackers.len(),
                        views(listed@) == self.model().structured_blocks(
                            blockers@,
                            attackers@,
                            i as nat,
                        ),
                    decreases attackers.len() - i,
                {
                    self.add_blocks_of_one(&mut listed, &blockers, attackers[i], &attackers);
                    i = i + 1;
                }
                out.append(&mut listed);
                let spread = self.spread(&blockers, &attackers);
                if spread.len() > 1 {
                    self.add_blocks(&mut out, spread, &attackers);
                }
                out
            },
        }
    }

    fn add_division(
        out: &mut Vec<Action>,
        attacker: ObjectId,
        split: Vec<(DamageTarget, i32)>,
    )
        ensures
            views(final(out)@) == GameModel::with_division(views(old(out)@), attacker, split@),
    {
        let ghost model = ActionModel::AssignCombatDamage { attacker, assignments: split@ };
        let a = Action::AssignCombatDamage { attacker, assignments: split };
        let canon = a.canonical();
        let ghost all = views(out@);
        let mut i: usize = 0;
        while i < out.len()
            invariant
                i <= out.len(),
                all == views(out@),
                all == views(old(out)@),
                canon@ == model.canonical(),
                model == (ActionModel::AssignCombatDamage { attacker, assignments: split@ }),
                forall|j: int| 0 <= j < i ==> (#[trigger] all[j]).canonical() != model.canonical(),
            decreases out.len() - i,
        {
            let c = out[i].canonical();
            if c.same(&canon) {
                assert(all[i as int].canonical() == model.canonical());
                return ;
            }
            i = i + 1;
        }
        out.push(a);
    }

    /// The common splits: everything to each blocker, and lethal in declared order.
    pub(crate) fn damage_suggestions(&self, attacker: ObjectId) -> (r: Vec<Action>)
        ensures
            views(r@) == self.model().damage_suggestions(attacker),
    {
        let blockers = self.live_blockers(attacker);
        let power: i32 = self.strength(attacker);
        let mut out: Vec<Action> = Vec::new();
        Game::add_division(
            &mut out,
            attacker,
            self.lethal_in_order(attacker, &listed_once(&blockers)),
        );
        let ghost first = views(out@);
        let mut i: usize = 0;
        while i < blockers.len()
            invariant
                i <= blockers.len(),
                power == self.model().strength(attacker),
                views(out@) == self.model().gang_divisions(first, attacker, blockers@, i as nat),
            decreases blockers.len() - i,
        {
            let mut all: Vec<(DamageTarget, i32)> = Vec::new();
            all.push((DamageTarget::Object(blockers[i]), power));
            assert(all@ =~= seq![(DamageTarget::Object(blockers@[i as int]), power)]);
            if self.assignment_is_legal(attacker, &all).is_ok() {
                Game::add_division(&mut out, attacker, all);
            }
            i = i + 1;
        }
        out
    }

    fn name_or_unknown(&self, id: ObjectId) -> (r: String)
        ensures
            r@ == self.model().name_words(id),
    {
        match self.find_def(id) {
            Some(def) => def.name.clone(),
            None => "unknown object".to_owned(),
        }
    }

    fn check_attackers(&self, seat: Seat, xs: &Vec<(ObjectId, AttackTarget)>) -> (r: Result<
        (),
        RulesError,
    >)
        ensures
            match r {
                Ok(_) => self.model().attack_error(seat, xs@, 0) is None,
                Err(e) => self.model().attack_error(seat, xs@, 0) == Some(e@),
            },
    {
        let ghost g = self.model();
        let cands = self.attack_candidates(seat);
        let mut seen: Vec<ObjectId> = Vec::new();
        let mut i: usize = 0;
        while i < xs.len()
            invariant
                i <= xs.len(),
                g == self.model(),
                cands@ == g.attack_candidates(seat),
                seen@ == Seq::new(i as nat, |j: int| xs@[j].0),
                g.attack_error(seat, xs@, 0) == g.attack_error(seat, xs@, i as nat),
            decreases xs.len() - i,
        {
            let (id, target) = xs[i];
            if !in_list(&cands, id) {
                let text = cat4(
                    self.name_or_unknown(id).as_str(),
                    " ",
                    id.text().as_str(),
                    " can't attack",
                );
                return Err(RulesError::illegal(text.as_str()));
            }
            let again = in_list(&seen, id);
            assert(again == GameModel::named_before(xs@, i as nat)) by {
                if again {
                    let j = choose|j: int| 0 <= j < seen@.len() && seen@[j] == id;
                    assert(xs@[j].0 == id);
                }
                if GameModel::named_before(xs@, i as nat) {
                    let j = choose|j: int| 0 <= j < i && (#[trigger] xs@[j]).0 == xs@[i as int].0;
                    assert(seen@[j] == id);
                }
            }
            if again {
                let text = cat2(id.text().as_str(), " is declared twice");
                return Err(RulesError::illegal(text.as_str()));
            }
            match target {
                AttackTarget::Player(t) => {
                    if t == seat || !self.is_in_game(t) {
                        let text = cat2(t.text().as_str(), " can't be attacked");
                        return Err(RulesError::illegal(text.as_str()));
                    }
                },
                AttackTarget::Planeswalker(_) => {
                    return Err(
                        RulesError::Unsupported { what: "attacking planeswalkers".to_owned() },
                    );
                },
            }
            seen.push(id);
            i = i + 1;
        }
        Ok(())
    }

    fn check_blockers(&self, seat: Seat, xs: &Vec<(ObjectId, ObjectId)>) -> (r: Result<
        (),
        RulesError,
    >)
        ensures
            match r {
                Ok(_) => self.model().block_error(seat, xs@, 0) is None,
                Err(e) => self.model().block_error(seat, xs@, 0) == Some(e@),
            },
    {
        let ghost g = self.model();
        let blockers = self.block_candidates(seat);
        let attackers = self.attackers_against(seat);
        let mut seen: Vec<ObjectId> = Vec::new();
        let mut i: usize = 0;
        while i < xs.len()
            invariant
                i <= xs.len(),
                g == self.model(),
                blockers@ == g.block_candidates(seat),
                attackers@ == g.attackers_against(seat),
                seen@ == Seq::new(i as nat, |j: int| xs@[j].0),
                g.block_error(seat, xs@, 0) == g.block_error(seat, xs@, i as nat),
            decreases xs.len() - i,
        {
            let (b, a) = xs[i];
            if !in_list(&blockers, b) {
                let text = cat4(
                    self.name_or_unknown(b).as_str(),
                    " ",
                    b.text().as_str(),
                    " can't block",
                );
                return Err(RulesError::illegal(text.as_str()));
            }
            let again = in_list(&seen, b);
            assert(again == GameModel::named_before(xs@, i as nat)) by {
                if again {
                    let j = choose|j: int| 0 <= j < seen@.len() && seen@[j] == b;
                    assert(xs@[j].0 == b);
                }
                if GameModel::named_before(xs@, i as nat) {
                    let j = choose|j: int| 0 <= j < i && (#[trigger] xs@[j]).0 == xs@[i as int].0;
                    assert(seen@[j] == b);
                }
            }
            if again {
                let text = cat2(b.text().as_str(), " can block only one attacker");
                return Err(RulesError::illegal(text.as_str()));
            }
            if !in_list(&attackers, a) {
                let text = cat3(a.text().as_str(), " is not attacking ", seat.text().as_str());
                return Err(RulesError::illegal(text.as_str()));
            }
            if !self.can_block(b, a) {
                let text = cat6(
                    self.name_or_unknown(b).as_str(),
                    " ",
                    b.text().as_str(),
                    " can't block ",
                    self.name_or_unknown(a).as_str(),
                    ": it has flying",
                );
                return Err(RulesError::illegal(text.as_str()));
            }
            seen.push(b);
            i = i + 1;
        }
        if !self.blocks_satisfy_menace(xs, &attackers) {
            return Err(
                RulesError::illegal(
                    "a creature with menace can't be blocked by just one creature",
                ),
            );
        }
        Ok(())
    }

    /// Rule check for division actions. Anything satisfying the rule is accepted
    /// whether or not `legal_actions` listed it.
    pub(crate) fn validate_division(&self, seat: Seat, action: &Action) -> (r: Result<
        (),
        RulesError,
    >)
        ensures
            match r {
                Ok(_) => self.model().declaration_error(seat, action@) is None,
                Err(e) => self.model().declaration_error(seat, action@) == Some(e@),
            },
    {
        match (action, &self.pending) {
            (
                Action::DeclareAttackers { attackers },
                Some(PendingChoice::DeclareAttackers { seat: s }),
            ) => {
                if *s == seat {
                    return self.check_attackers(seat, attackers);
                }
            },
            (
                Action::DeclareBlockers { blocks },
                Some(PendingChoice::DeclareBlockers { seat: s, .. }),
            ) => {
                if *s == seat {
                    return self.check_blockers(seat, blocks);
                }
            },
            (
                Action::AssignCombatDamage { attacker, assignments },
                Some(PendingChoice::AssignDamage { seat: s, attacker: asked, .. }),
            ) => {
                if *s == seat {
                    if *attacker != *asked {
                        let text = cat3(
                            asked.text().as_str(),
                            " is the attacker whose damage needs assigning, not ",
                            attacker.text().as_str(),
                        );
                        return Err(RulesError::illegal(text.as_str()));
                    }
                    return match self.assignment_is_legal(*attacker, assignments) {
                        Ok(_) => Ok(()),
                        Err(e) => Err(RulesError::illegal(e.as_str())),
                    };
                }
            },
            _ => {},
        }
        let text = cat3(
            crate::text::describe_action(self, action).as_str(),
            " is not the choice pending for ",
            seat.text().as_str(),
        );
        Err(RulesError::illegal(text.as_str()))
    }
}

} // verus!
