//! Every action the engine lists is one it accepts.
use crate::action::{ActionModel, AttackTarget, DamageTarget, PaymentModel, Target, EQUIP_ABILITY};
use crate::combat::{given_to, recipients};
use crate::ir::Cost;
use crate::legal::{activation_list, cast_list, list_capped, paid_in_order};
use crate::mana::{capacity, search, Pick};
use crate::payable::law_listed_abilities_are_payable;
use crate::paying::law_listed_payments_cover;
use crate::play::lists;
use crate::seqs::{lemma_rank_sort_places, lemma_sort_distinct, lemma_sort_members, rank_sort, sort, without, without_n, Ranked};
use crate::state::{CtxModel, GameModel, PendingModel};
use crate::suggest::{all_at, assignment, each_once, in_rank_order, power_of, structured_attacks, ENUMERATION_CAP};
use crate::types::{Keyword, Mana, ManaCost, ManaPool, ObjectId, Seat, Zone};
use vstd::prelude::*;

verus! {

// ----- sending items to targets -----

/// Each pair sends one of the items to one of the targets, no item twice.
pub open spec fn pairs_from<A, B>(items: Seq<A>, targets: Seq<B>, xs: Seq<(A, B)>) -> bool {
    &&& forall|k: int|
        0 <= k < xs.len() ==> items.contains((#[trigger] xs[k]).0) && targets.contains(xs[k].1)
    &&& forall|i: int, j: int|
        0 <= i < j < xs.len() ==> (#[trigger] xs[i]).0 != (#[trigger] xs[j]).0
}

proof fn lemma_assignment<A, B>(items: Seq<A>, targets: Seq<B>, code: nat, i: nat)
    requires
        items.no_duplicates(),
    ensures
        pairs_from(items, targets, assignment(items, targets, code, i)),
        forall|k: int|
            0 <= k < assignment(items, targets, code, i).len() ==> exists|p: int|
                i <= p < items.len() && (#[trigger] assignment(items, targets, code, i)[k]).0
                    == #[trigger] items[p],
    decreases items.len() - i,
{
    if i < items.len() {
        let base = targets.len() + 1;
        let digit = code % base;
        let rest = assignment(items, targets, code / base, i + 1);
        let xs = assignment(items, targets, code, i);
        lemma_assignment(items, targets, code / base, i + 1);
        let shift: int = if digit > 0 {
            1
        } else {
            0
        };
        assert(0 <= digit < base) by (nonlinear_arith)
            requires
                base > 0,
                digit == code % base,
        ;
        assert forall|k: int| 0 <= k < xs.len() implies items.contains((#[trigger] xs[k]).0)
            && targets.contains(xs[k].1) && exists|p: int|
            i <= p < items.len() && xs[k].0 == #[trigger] items[p] by {
            if k < shift {
                assert(xs[k].0 == items[i as int]);
                assert(xs[k].1 == targets[digit - 1]);
            } else {
                assert(xs[k] == rest[k - shift]);
                let p = choose|p: int|
                    i + 1 <= p < items.len() && rest[k - shift].0 == #[trigger] items[p];
                assert(xs[k].0 == items[p]);
            }
        }
        assert forall|a: int, b: int| 0 <= a < b < xs.len() implies (#[trigger] xs[a]).0 != (
        #[trigger] xs[b]).0 by {
            assert(xs[b] == rest[b - shift]);
            if a < shift {
                let p = choose|p: int|
                    i + 1 <= p < items.len() && rest[b - shift].0 == #[trigger] items[p];
                assert(items[p] != items[i as int]);
            } else {
                assert(xs[a] == rest[a - shift]);
            }
        }
    }
}

proof fn lemma_all_at<A, B>(items: Seq<A>, targets: Seq<B>, some: Seq<A>, t: B)
    requires
        some.no_duplicates(),
        forall|k: int| 0 <= k < some.len() ==> items.contains(#[trigger] some[k]),
        targets.contains(t),
    ensures
        pairs_from(items, targets, all_at(some, t)),
{
}

proof fn lemma_able(g: GameModel, ids: Seq<ObjectId>, attack: bool, n: nat)
    requires
        n <= ids.len(),
        ids.no_duplicates(),
    ensures
        g.able(ids, attack, n).no_duplicates(),
        g.able(ids, attack, n).len() <= n,
        forall|k: int|
            0 <= k < g.able(ids, attack, n).len() ==> ids.subrange(0, n as int).contains(
                #[trigger] g.able(ids, attack, n)[k],
            ),
    decreases n,
{
    if n > 0 {
        lemma_able(g, ids, attack, (n - 1) as nat);
        let head = ids.subrange(0, n - 1);
        let more = ids.subrange(0, n as int);
        assert(more =~= head.push(ids[n - 1]));
        assert(more[n - 1] == ids[n - 1]);
        assert(!head.contains(ids[n - 1]));
        assert forall|x: ObjectId| head.contains(x) implies more.contains(x) by {
            let k = choose|k: int| 0 <= k < head.len() && head[k] == x;
            assert(more[k] == x);
        }
    }
}

proof fn lemma_candidates(g: GameModel, seat: Seat, attack: bool)
    requires
        g.battlefield(seat).no_duplicates(),
    ensures
        attack ==> g.attack_candidates(seat).no_duplicates() && g.attack_candidates(seat).len()
            <= g.battlefield(seat).len(),
        !attack ==> g.block_candidates(seat).no_duplicates() && g.block_candidates(seat).len()
            <= g.battlefield(seat).len(),
{
    let ids = g.battlefield(seat);
    lemma_able(g, ids, attack, ids.len());
    lemma_sort_distinct(g.able(ids, attack, ids.len()));
    crate::seqs::law_sort_permutes(g.able(ids, attack, ids.len()));
}

// ----- attacks -----

/// A listed attack: candidates at opponents, none twice.
spec fn is_attack(g: GameModel, seat: Seat, a: ActionModel) -> bool {
    a matches ActionModel::DeclareAttackers { attackers } && pairs_from(
        g.attack_candidates(seat),
        g.attack_targets(seat),
        attackers,
    )
}

proof fn lemma_structured_attacks(
    g: GameModel,
    seat: Seat,
    cands: Seq<ObjectId>,
    targets: Seq<AttackTarget>,
    n: nat,
)
    requires
        cands == g.attack_candidates(seat),
        targets == g.attack_targets(seat),
        cands.no_duplicates(),
        n <= targets.len(),
    ensures
        forall|k: int|
            0 <= k < structured_attacks(cands, targets, n).len() ==> is_attack(
                g,
                seat,
                #[trigger] structured_attacks(cands, targets, n)[k],
            ),
    decreases n,
{
    if n > 0 {
        lemma_structured_attacks(g, seat, cands, targets, (n - 1) as nat);
        let rest = structured_attacks(cands, targets, (n - 1) as nat);
        let t = targets[n - 1];
        let all = structured_attacks(cands, targets, n);
        assert(targets.contains(t));
        assert forall|k: int| 0 <= k < all.len() implies is_attack(g, seat, #[trigger] all[k]) by {
            if k < rest.len() {
                assert(all[k] == rest[k]);
            } else if k == rest.len() {
                lemma_all_at(cands, targets, cands, t);
                assert(all[k] == (ActionModel::DeclareAttackers { attackers: all_at(cands, t) }));
            } else {
                let i = k - rest.len() - 1;
                let xs = seq![(cands[i], t)];
                assert(all[k] == (ActionModel::DeclareAttackers { attackers: xs }));
                assert(xs[0] == (cands[i], t));
                assert(cands.contains(cands[i]));
                assert(pairs_from(cands, targets, xs));
            }
        }
    }
}

proof fn lemma_attacks(g: GameModel, seat: Seat)
    requires
        g.battlefield(seat).no_duplicates(),
    ensures
        forall|k: int|
            0 <= k < g.attack_suggestions(seat).len() ==> is_attack(
                g,
                seat,
                #[trigger] g.attack_suggestions(seat)[k],
            ),
{
    let cands = g.attack_candidates(seat);
    let targets = g.attack_targets(seat);
    lemma_candidates(g, seat, true);
    lemma_structured_attacks(g, seat, cands, targets, targets.len());
    let all = g.attack_suggestions(seat);
    assert forall|k: int| 0 <= k < all.len() implies is_attack(g, seat, #[trigger] all[k]) by {
        let total = power_of(targets.len() + 1, cands.len());
        if k == 0 {
            assert(all[k] == (ActionModel::DeclareAttackers { attackers: Seq::empty() }));
        } else if total <= ENUMERATION_CAP {
            lemma_assignment(cands, targets, k as nat, 0);
            assert(all[k] == (ActionModel::DeclareAttackers {
                attackers: assignment(cands, targets, k as nat, 0),
            }));
        } else {
            assert(all[k] == structured_attacks(cands, targets, targets.len())[k - 1]);
        }
    }
}

proof fn lemma_attack_error(
    g: GameModel,
    seat: Seat,
    xs: Seq<(ObjectId, AttackTarget)>,
    i: nat,
)
    requires
        pairs_from(g.attack_candidates(seat), g.attack_targets(seat), xs),
    ensures
        g.attack_error(seat, xs, i) is None,
    decreases xs.len() - i,
{
    if i < xs.len() {
        let (id, t) = xs[i as int];
        assert(g.attack_candidates(seat).contains(xs[i as int].0));
        assert(!GameModel::named_before(xs, i));
        let seats = without(g.turn_order, seat);
        assert(g.attack_targets(seat).contains(xs[i as int].1));
        let k = choose|k: int| 0 <= k < g.attack_targets(seat).len() && g.attack_targets(seat)[k]
            == t;
        assert(t == AttackTarget::Player(seats[k]));
        lemma_without_member(g.turn_order, seat, g.turn_order.len(), k);
        lemma_attack_error(g, seat, xs, i + 1);
    }
}

proof fn lemma_without_member<T>(s: Seq<T>, x: T, n: nat, k: int)
    requires
        n <= s.len(),
        0 <= k < without_n(s, x, n).len(),
    ensures
        without_n(s, x, n)[k] != x,
        s.contains(without_n(s, x, n)[k]),
    decreases n,
{
    let rest = without_n(s, x, (n - 1) as nat);
    if k < rest.len() {
        lemma_without_member(s, x, (n - 1) as nat, k);
    } else {
        assert(s.contains(s[n - 1]));
    }
}

// ----- blocks -----

/// A listed block: candidates at attackers, none twice, and allowed.
spec fn is_block(
    g: GameModel,
    blockers: Seq<ObjectId>,
    attackers: Seq<ObjectId>,
    a: ActionModel,
) -> bool {
    a matches ActionModel::DeclareBlockers { blocks } && pairs_from(blockers, attackers, blocks)
        && g.blocks_legal(blocks, attackers)
}

spec fn all_blocks(
    g: GameModel,
    blockers: Seq<ObjectId>,
    attackers: Seq<ObjectId>,
    acts: Seq<ActionModel>,
) -> bool {
    forall|k: int| 0 <= k < acts.len() ==> is_block(g, blockers, attackers, #[trigger] acts[k])
}

proof fn lemma_with_blocks(
    g: GameModel,
    blockers: Seq<ObjectId>,
    attackers: Seq<ObjectId>,
    out: Seq<ActionModel>,
    blocks: Seq<(ObjectId, ObjectId)>,
)
    requires
        all_blocks(g, blockers, attackers, out),
        pairs_from(blockers, attackers, blocks),
    ensures
        all_blocks(g, blockers, attackers, g.with_blocks(out, blocks, attackers)),
{
}

proof fn lemma_coded(g: GameModel, blockers: Seq<ObjectId>, attackers: Seq<ObjectId>, n: nat)
    requires
        blockers.no_duplicates(),
    ensures
        all_blocks(g, blockers, attackers, g.coded_blocks(blockers, attackers, n)),
    decreases n,
{
    if n > 0 {
        lemma_coded(g, blockers, attackers, (n - 1) as nat);
        lemma_assignment(blockers, attackers, n, 0);
        lemma_with_blocks(
            g,
            blockers,
            attackers,
            g.coded_blocks(blockers, attackers, (n - 1) as nat),
            assignment(blockers, attackers, n, 0),
        );
    }
}

/// Some of the blockers, none twice.
spec fn some_of(blockers: Seq<ObjectId>, can: Seq<ObjectId>) -> bool {
    can.no_duplicates() && forall|k: int|
        0 <= k < can.len() ==> blockers.contains(#[trigger] can[k])
}

proof fn lemma_able_to_block(g: GameModel, blockers: Seq<ObjectId>, a: ObjectId, n: nat)
    requires
        blockers.no_duplicates(),
        n <= blockers.len(),
    ensures
        some_of(blockers.subrange(0, n as int), g.able_to_block(blockers, a, n)),
    decreases n,
{
    if n > 0 {
        lemma_able_to_block(g, blockers, a, (n - 1) as nat);
        let head = blockers.subrange(0, n - 1);
        let more = blockers.subrange(0, n as int);
        assert(more =~= head.push(blockers[n - 1]));
        assert(more[n - 1] == blockers[n - 1]);
        assert(!head.contains(blockers[n - 1]));
        assert forall|x: ObjectId| head.contains(x) implies more.contains(x) by {
            let k = choose|k: int| 0 <= k < head.len() && head[k] == x;
            assert(more[k] == x);
        }
    }
}

proof fn lemma_single_blocks(
    g: GameModel,
    blockers: Seq<ObjectId>,
    attackers: Seq<ObjectId>,
    out: Seq<ActionModel>,
    can: Seq<ObjectId>,
    a: ObjectId,
    n: nat,
)
    requires
        all_blocks(g, blockers, attackers, out),
        some_of(blockers, can),
        attackers.contains(a),
        n <= can.len(),
    ensures
        all_blocks(g, blockers, attackers, g.single_blocks(out, can, a, attackers, n)),
    decreases n,
{
    if n > 0 {
        lemma_single_blocks(g, blockers, attackers, out, can, a, (n - 1) as nat);
        let xs = seq![(can[n - 1], a)];
        assert(blockers.contains(can[n - 1]));
        assert(xs[0] == (can[n - 1], a));
        assert(pairs_from(blockers, attackers, xs));
        lemma_with_blocks(
            g,
            blockers,
            attackers,
            g.single_blocks(out, can, a, attackers, (n - 1) as nat),
            xs,
        );
    }
}

proof fn lemma_pairs_with(
    g: GameModel,
    blockers: Seq<ObjectId>,
    attackers: Seq<ObjectId>,
    out: Seq<ActionModel>,
    can: Seq<ObjectId>,
    a: ObjectId,
    i: nat,
    n: nat,
)
    requires
        all_blocks(g, blockers, attackers, out),
        some_of(blockers, can),
        attackers.contains(a),
        i < can.len(),
        n <= can.len(),
    ensures
        all_blocks(g, blockers, attackers, g.pairs_with(out, can, a, attackers, i, n)),
    decreases n,
{
    if n > i + 1 {
        lemma_pairs_with(g, blockers, attackers, out, can, a, i, (n - 1) as nat);
        let xs = seq![(can[i as int], a), (can[n - 1], a)];
        assert(blockers.contains(can[i as int]) && blockers.contains(can[n - 1]));
        assert(xs[0] == (can[i as int], a) && xs[1] == (can[n - 1], a));
        assert(can[i as int] != can[n - 1]);
        assert(pairs_from(blockers, attackers, xs));
        lemma_with_blocks(
            g,
            blockers,
            attackers,
            g.pairs_with(out, can, a, attackers, i, (n - 1) as nat),
            xs,
        );
    }
}

proof fn lemma_pair_blocks(
    g: GameModel,
    blockers: Seq<ObjectId>,
    attackers: Seq<ObjectId>,
    out: Seq<ActionModel>,
    can: Seq<ObjectId>,
    a: ObjectId,
    n: nat,
)
    requires
        all_blocks(g, blockers, attackers, out),
        some_of(blockers, can),
        attackers.contains(a),
        n <= can.len(),
    ensures
        all_blocks(g, blockers, attackers, g.pair_blocks(out, can, a, attackers, n)),
    decreases n,
{
    if n > 0 {
        lemma_pair_blocks(g, blockers, attackers, out, can, a, (n - 1) as nat);
        lemma_pairs_with(
            g,
            blockers,
            attackers,
            g.pair_blocks(out, can, a, attackers, (n - 1) as nat),
            can,
            a,
            (n - 1) as nat,
            can.len(),
        );
    }
}

proof fn lemma_structured_blocks(
    g: GameModel,
    blockers: Seq<ObjectId>,
    attackers: Seq<ObjectId>,
    n: nat,
)
    requires
        blockers.no_duplicates(),
        n <= attackers.len(),
    ensures
        all_blocks(g, blockers, attackers, g.structured_blocks(blockers, attackers, n)),
    decreases n,
{
    if n > 0 {
        lemma_structured_blocks(g, blockers, attackers, (n - 1) as nat);
        let out = g.structured_blocks(blockers, attackers, (n - 1) as nat);
        let a = attackers[n - 1];
        assert(attackers.contains(a));
        let can = g.able_to_block(blockers, a, blockers.len());
        lemma_able_to_block(g, blockers, a, blockers.len());
        assert(blockers.subrange(0, blockers.len() as int) =~= blockers);
        lemma_single_blocks(g, blockers, attackers, out, can, a, can.len());
        let singles = g.single_blocks(out, can, a, attackers, can.len());
        lemma_pair_blocks(g, blockers, attackers, singles, can, a, can.len());
        lemma_all_at(blockers, attackers, can, a);
        lemma_with_blocks(
            g,
            blockers,
            attackers,
            g.pair_blocks(singles, can, a, attackers, can.len()),
            all_at(can, a),
        );
    }
}

proof fn lemma_in_rank_order(ids: Seq<ObjectId>, order: Seq<Ranked>, n: nat)
    requires
        ids.no_duplicates(),
        order.len() == ids.len(),
        n <= order.len(),
        forall|i: int| 0 <= i < order.len() ==> (#[trigger] order[i]).item < ids.len(),
        forall|i: int, j: int|
            0 <= i < j < order.len() ==> (#[trigger] order[i]).item != (#[trigger] order[j]).item,
    ensures
        in_rank_order(ids, order, n).len() == n,
        forall|k: int|
            0 <= k < n ==> #[trigger] in_rank_order(ids, order, n)[k] == ids[order[k].item as int],
        some_of(ids, in_rank_order(ids, order, n)),
    decreases n,
{
    if n > 0 {
        lemma_in_rank_order(ids, order, (n - 1) as nat);
        let all = in_rank_order(ids, order, n);
        assert forall|k: int| 0 <= k < n implies #[trigger] all[k] == ids[order[k].item as int]
            by {
            if k < n - 1 {
                assert(all[k] == in_rank_order(ids, order, (n - 1) as nat)[k]);
            }
        }
        assert forall|i: int, j: int| 0 <= i < n && 0 <= j < n && i != j implies all[i]
            != all[j] by {
            assert(order[i].item != order[j].item);
        }
    }
}

proof fn lemma_by_power(g: GameModel, ids: Seq<ObjectId>)
    requires
        ids.no_duplicates(),
        ids.len() <= usize::MAX,
    ensures
        some_of(ids, g.by_power(ids)),
        some_of(ids, g.by_toughness(ids)),
{
    let a = Seq::new(
        ids.len(),
        |i: int| Ranked { a: -g.power(ids[i]) as i64, b: 0, c: 0, item: i as usize },
    );
    lemma_rank_sort_places(a);
    lemma_in_rank_order(ids, rank_sort(a), rank_sort(a).len());
    let b = Seq::new(
        ids.len(),
        |i: int|
            Ranked {
                a: -g.toughness(ids[i]) as i64,
                b: -g.power(ids[i]) as i64,
                c: 0,
                item: i as usize,
            },
    );
    lemma_rank_sort_places(b);
    lemma_in_rank_order(ids, rank_sort(b), rank_sort(b).len());
}

proof fn lemma_first_able(g: GameModel, free: Seq<ObjectId>, a: ObjectId, i: nat)
    ensures
        g.first_able(free, a, i) matches Some(k) ==> k < free.len(),
    decreases free.len() - i,
{
    if i < free.len() {
        lemma_first_able(g, free, a, i + 1);
    }
}

proof fn lemma_spread(
    g: GameModel,
    blockers: Seq<ObjectId>,
    attackers: Seq<ObjectId>,
    order: Seq<ObjectId>,
    free: Seq<ObjectId>,
    n: nat,
)
    requires
        some_of(blockers, free),
        some_of(attackers, order),
        n <= order.len(),
    ensures
        pairs_from(blockers, attackers, g.spread_n(order, free, n).0),
        some_of(blockers, g.spread_n(order, free, n).1),
        forall|i: int, j: int|
            0 <= i < g.spread_n(order, free, n).0.len() && 0 <= j < g.spread_n(
                order,
                free,
                n,
            ).1.len() ==> (#[trigger] g.spread_n(order, free, n).0[i]).0 != #[trigger] g.spread_n(
                order,
                free,
                n,
            ).1[j],
    decreases n,
{
    if n > 0 {
        lemma_spread(g, blockers, attackers, order, free, (n - 1) as nat);
        let (blocks, left) = g.spread_n(order, free, (n - 1) as nat);
        lemma_first_able(g, left, order[n - 1], 0);
        if let Some(p) = g.first_able(left, order[n - 1], 0) {
            let p = p as int;
            let now = blocks.push((left[p], order[n - 1]));
            let rest = left.remove(p);
            assert(attackers.contains(order[n - 1]));
            assert(blockers.contains(left[p]));
            assert forall|k: int| 0 <= k < rest.len() implies blockers.contains(#[trigger] rest[k])
                && rest[k] != left[p] by {
                if k < p {
                    assert(rest[k] == left[k]);
                } else {
                    assert(rest[k] == left[k + 1]);
                }
            }
            assert(rest.no_duplicates());
            assert forall|i: int, j: int| 0 <= i < now.len() && 0 <= j < rest.len() implies (
            #[trigger] now[i]).0 != #[trigger] rest[j] by {
                if i < blocks.len() {
                    assert(now[i] == blocks[i]);
                    if j < p {
                        assert(rest[j] == left[j]);
                    } else {
                        assert(rest[j] == left[j + 1]);
                    }
                }
            }
            assert forall|i: int, j: int| 0 <= i < j < now.len() implies (#[trigger] now[i]).0 != (
            #[trigger] now[j]).0 by {
                assert(now[i] == blocks[i]);
                if j == blocks.len() {
                    assert(blocks[i].0 != left[p]);
                }
            }
        }
    }
}

proof fn lemma_blocks(g: GameModel, seat: Seat)
    requires
        g.battlefield(seat).no_duplicates(),
        g.battlefield(seat).len() <= usize::MAX,
        g.attackers_against(seat).no_duplicates(),
        g.attackers_against(seat).len() <= usize::MAX,
    ensures
        all_blocks(
            g,
            g.block_candidates(seat),
            g.attackers_against(seat),
            g.block_suggestions(seat),
        ),
{
    let blockers = g.block_candidates(seat);
    let attackers = g.attackers_against(seat);
    lemma_candidates(g, seat, false);
    let none = seq![ActionModel::DeclareBlockers { blocks: Seq::empty() }];
    assert(all_blocks(g, blockers, attackers, none)) by {
        assert(none[0] == (ActionModel::DeclareBlockers { blocks: Seq::empty() }));
    }
    if blockers.len() > 0 && attackers.len() > 0 {
        let total = power_of(attackers.len() + 1, blockers.len());
        if total <= ENUMERATION_CAP {
            lemma_coded(g, blockers, attackers, (total - 1) as nat);
            lemma_blocks_add(
                g,
                blockers,
                attackers,
                none,
                g.coded_blocks(blockers, attackers, (total - 1) as nat),
            );
        } else {
            lemma_structured_blocks(g, blockers, attackers, attackers.len());
            let listed = none + g.structured_blocks(blockers, attackers, attackers.len());
            lemma_blocks_add(
                g,
                blockers,
                attackers,
                none,
                g.structured_blocks(blockers, attackers, attackers.len()),
            );
            lemma_by_power(g, attackers);
            lemma_by_power(g, blockers);
            let order = g.by_power(attackers);
            let free = g.by_toughness(blockers);
            lemma_spread(g, blockers, attackers, order, free, order.len());
            lemma_with_blocks(
                g,
                blockers,
                attackers,
                listed,
                g.spread_n(order, free, order.len()).0,
            );
        }
    }
}

proof fn lemma_blocks_add(
    g: GameModel,
    blockers: Seq<ObjectId>,
    attackers: Seq<ObjectId>,
    a: Seq<ActionModel>,
    b: Seq<ActionModel>,
)
    requires
        all_blocks(g, blockers, attackers, a),
        all_blocks(g, blockers, attackers, b),
    ensures
        all_blocks(g, blockers, attackers, a + b),
{
    assert forall|k: int| 0 <= k < (a + b).len() implies is_block(
        g,
        blockers,
        attackers,
        #[trigger] (a + b)[k],
    ) by {
        if k < a.len() {
            assert((a + b)[k] == a[k]);
        } else {
            assert((a + b)[k] == b[k - a.len()]);
        }
    }
}

proof fn lemma_block_error(g: GameModel, seat: Seat, xs: Seq<(ObjectId, ObjectId)>, i: nat)
    requires
        pairs_from(g.block_candidates(seat), g.attackers_against(seat), xs),
        g.blocks_legal(xs, g.attackers_against(seat)),
    ensures
        g.block_error(seat, xs, i) is None,
    decreases xs.len() - i,
{
    if i < xs.len() {
        assert(g.block_candidates(seat).contains(xs[i as int].0));
        assert(!GameModel::named_before(xs, i));
        assert(g.can_block(xs[i as int].0, xs[i as int].1));
        lemma_block_error(g, seat, xs, i + 1);
    }
}

// ----- dividing damage -----

spec fn sum_n(xs: Seq<(DamageTarget, i32)>, n: nat) -> int
    decreases n,
{
    if n == 0 || n > xs.len() {
        0
    } else {
        sum_n(xs, (n - 1) as nat) + xs[n - 1].1
    }
}

proof fn lemma_sum_same(a: Seq<(DamageTarget, i32)>, b: Seq<(DamageTarget, i32)>, n: nat)
    requires
        n <= a.len(),
        n <= b.len(),
        forall|k: int| 0 <= k < n ==> a[k] == b[k],
    ensures
        sum_n(a, n) == sum_n(b, n),
    decreases n,
{
    if n > 0 {
        lemma_sum_same(a, b, (n - 1) as nat);
    }
}

proof fn lemma_lethal_n(g: GameModel, attacker: ObjectId, blockers: Seq<ObjectId>, n: nat)
    requires
        n <= blockers.len(),
    ensures
        ({
            let (left, out) = g.lethal_n(attacker, blockers, n);
            &&& 0 <= left <= g.strength(attacker)
            &&& out.len() <= n
            &&& forall|k: int|
                0 <= k < out.len() ==> (#[trigger] out[k]).0 == DamageTarget::Object(blockers[k])
                    && out[k].1 > 0
            &&& sum_n(out, out.len()) + left == g.strength(attacker)
            &&& left > 0 ==> out.len() == n && forall|k: int|
                0 <= k < n ==> (#[trigger] out[k]).1 == g.lethal_for(attacker, blockers[k])
        }),
    decreases n,
{
    if n > 0 {
        lemma_lethal_n(g, attacker, blockers, (n - 1) as nat);
        let (left, out) = g.lethal_n(attacker, blockers, (n - 1) as nat);
        if left != 0 {
            let lethal = g.lethal_for(attacker, blockers[n - 1]);
            let give = if left < lethal {
                left
            } else {
                lethal
            };
            let more = out.push((DamageTarget::Object(blockers[n - 1]), give));
            lemma_sum_same(out, more, out.len());
        }
    }
}

proof fn lemma_recipients(xs: Seq<(DamageTarget, i32)>, n: nat)
    requires
        n <= xs.len(),
    ensures
        recipients(xs, n) =~= Seq::new(n, |i: int| xs[i].0),
    decreases n,
{
    if n > 0 {
        lemma_recipients(xs, (n - 1) as nat);
    }
}

/// A division without an error in any entry adds up.
proof fn lemma_division_n(
    g: GameModel,
    attacker: ObjectId,
    xs: Seq<(DamageTarget, i32)>,
    n: nat,
)
    requires
        n <= xs.len(),
        forall|k: nat| k < xs.len() ==> #[trigger] g.entry_error(attacker, xs, k) is None,
        forall|k: int| 0 <= k < xs.len() ==> (#[trigger] xs[k]).1 >= 0,
        sum_n(xs, xs.len()) <= i32::MAX,
        forall|k: int| 0 <= k < xs.len() - 1 ==> !((#[trigger] xs[k]).0 is Player),
    ensures
        0 <= sum_n(xs, n) <= sum_n(xs, xs.len()),
        g.division_n(attacker, xs, n) is Ok,
        ({ let (sum, past) = g.division_n(attacker, xs, n)->Ok_0; sum == sum_n(xs, n) && past == if n == xs.len() && n > 0 && xs.last().0 is Player { xs.last().1 as int } else { 0 } }),
    decreases n,
{
    lemma_sum_grows(xs, n, xs.len());
    lemma_sum_grows(xs, 0, n);
    if n > 0 {
        lemma_division_n(g, attacker, xs, (n - 1) as nat);
        assert(g.entry_error(attacker, xs, (n - 1) as nat) is None);
        assert(xs[n - 1].1 >= 0);
    }
}

proof fn lemma_sum_grows(xs: Seq<(DamageTarget, i32)>, a: nat, b: nat)
    requires
        a <= b <= xs.len(),
        forall|k: int| 0 <= k < xs.len() ==> (#[trigger] xs[k]).1 >= 0,
    ensures
        sum_n(xs, a) <= sum_n(xs, b),
    decreases b,
{
    if a < b {
        lemma_sum_grows(xs, a, (b - 1) as nat);
        assert(xs[b - 1].1 >= 0);
    }
}

proof fn lemma_given(xs: Seq<(DamageTarget, i32)>, k: int, i: nat)
    requires
        i <= k < xs.len(),
        forall|a: int, b: int|
            0 <= a < b < xs.len() ==> (#[trigger] xs[a]).0 != (#[trigger] xs[b]).0,
    ensures
        given_to(xs, xs[k].0, i) == xs[k].1,
    decreases k - i,
{
    if i < k {
        assert(xs[i as int].0 != xs[k].0);
        lemma_given(xs, k, i + 1);
    }
}

proof fn lemma_fed(g: GameModel, attacker: ObjectId, xs: Seq<(DamageTarget, i32)>, i: nat)
    requires
        ({
            let all = g.live_blockers(attacker);
            let blockers = each_once(all, all.len());
            &&& blockers.len() <= xs.len()
            &&& forall|a: int, b: int|
                0 <= a < b < xs.len() ==> (#[trigger] xs[a]).0 != (#[trigger] xs[b]).0
            &&& forall|k: int|
                0 <= k < blockers.len() ==> (#[trigger] xs[k]).0 == DamageTarget::Object(
                    blockers[k],
                ) && xs[k].1 == g.lethal_for(attacker, blockers[k])
        }),
    ensures
        g.underfed(attacker, xs, i) is None,
    decreases g.live_blockers(attacker).len() - i,
{
    let all = g.live_blockers(attacker);
    let blockers = each_once(all, all.len());
    if i < all.len() {
        lemma_each_once(all, all.len());
        assert(blockers.contains(all[i as int]));
        let k = choose|k: int| 0 <= k < blockers.len() && blockers[k] == all[i as int];
        lemma_given(xs, k, 0);
        assert(xs[k].0 == DamageTarget::Object(blockers[k]));
        lemma_fed(g, attacker, xs, i + 1);
    }
}

/// Each of the ids, and none of them twice.
proof fn lemma_each_once(ids: Seq<ObjectId>, n: nat)
    requires
        n <= ids.len(),
    ensures
        each_once(ids, n).no_duplicates(),
        each_once(ids, n).len() <= n,
        n > 0 ==> each_once(ids, n).len() > 0,
        forall|k: int| 0 <= k < n ==> each_once(ids, n).contains(#[trigger] ids[k]),
        forall|k: int|
            0 <= k < each_once(ids, n).len() ==> ids.contains(#[trigger] each_once(ids, n)[k]),
    decreases n,
{
    if n > 0 {
        lemma_each_once(ids, (n - 1) as nat);
        let rest = each_once(ids, (n - 1) as nat);
        let all = each_once(ids, n);
        assert forall|k: int| 0 <= k < n implies all.contains(#[trigger] ids[k]) by {
            if k < n - 1 {
                assert(rest.contains(ids[k]));
                let j = choose|j: int| 0 <= j < rest.len() && rest[j] == ids[k];
                assert(all[j] == ids[k]);
            } else if !rest.contains(ids[k]) {
                assert(all[rest.len() as int] == ids[k]);
            }
        }
        assert forall|k: int| 0 <= k < all.len() implies ids.contains(#[trigger] all[k]) by {
            if k < rest.len() {
                assert(all[k] == rest[k]);
            } else {
                assert(all[k] == ids[n - 1]);
            }
        }
    }
}

/// Giving each blocker lethal damage in order, and the rest to the last of
/// them or past them, is an allowed division.
pub proof fn law_lethal_in_order_is_allowed(g: GameModel, attacker: ObjectId)
    requires
        g.live_blockers(attacker).len() > 0,
    ensures
        ({
            let blockers = g.live_blockers(attacker);
            g.division_error(
                attacker,
                g.lethal_in_order(attacker, each_once(blockers, blockers.len())),
            ) is None
        }),
{
    let live = g.live_blockers(attacker);
    let blockers = each_once(live, live.len());
    let (left, out) = g.lethal_n(attacker, blockers, blockers.len());
    let xs = g.lethal_in_order(attacker, blockers);
    lemma_each_once(live, live.len());
    lemma_lethal_n(g, attacker, blockers, blockers.len());
    let past = left > 0 && g.has_keyword(attacker, Keyword::Trample) && g.attacked_player(
        attacker,
    ) is Some;
    if left > 0 {
        let n = blockers.len();
        if past {
            lemma_sum_same(out, xs, n);
        } else {
            lemma_sum_same(out, xs, (n - 1) as nat);
            lemma_sum_grows(out, (n - 1) as nat, n);
            lemma_sum_grows(out, 0, (n - 1) as nat);
            assert(out.last().1 + left <= g.strength(attacker));
            assert(xs.len() == n);
        }
    }
    assert(sum_n(xs, xs.len()) == g.strength(attacker));
    assert forall|k: int| 0 <= k < xs.len() implies (#[trigger] xs[k]).1 >= 0 && (xs[k].0 == (if past
        && k == blockers.len() {
        DamageTarget::Player(g.attacked_player(attacker)->0)
    } else {
        DamageTarget::Object(blockers[k])
    })) && (xs[k].0 is Player ==> past && k == blockers.len()) by {
        if k < out.len() {
            assert(out[k].0 == DamageTarget::Object(blockers[k]));
        }
    }
    assert forall|a: int, b: int| 0 <= a < b < xs.len() implies (#[trigger] xs[a]).0 != (
    #[trigger] xs[b]).0 by {
        assert(xs[a].0 == DamageTarget::Object(blockers[a]));
        if !(past && b == blockers.len()) {
            assert(blockers[a] != blockers[b]);
        }
    }
    assert forall|k: nat| k < xs.len() implies #[trigger] g.entry_error(
        attacker,
        xs,
        k,
    ) is None by {
        let x = xs[k as int];
        lemma_recipients(xs, k);
        assert(!recipients(xs, k).contains(x.0)) by {
            if recipients(xs, k).contains(x.0) {
                let i = choose|i: int|
                    0 <= i < recipients(xs, k).len() && recipients(xs, k)[i] == x.0;
                assert(xs[i].0 == x.0);
            }
        }
        if !(past && k == blockers.len()) {
            assert(live.contains(blockers[k as int]));
        }
    }
    lemma_division_n(g, attacker, xs, xs.len());
    if past {
        assert forall|k: int| 0 <= k < blockers.len() implies (#[trigger] xs[k]).0
            == DamageTarget::Object(blockers[k]) && xs[k].1 == g.lethal_for(
            attacker,
            blockers[k],
        ) by {
            assert(xs[k] == out[k]);
        }
        lemma_fed(g, attacker, xs, 0);
    }
}

/// A listed division: of the attacker asked about, and allowed.
spec fn is_division(g: GameModel, attacker: ObjectId, a: ActionModel) -> bool {
    a matches ActionModel::AssignCombatDamage { attacker: who, assignments } && who == attacker
        && g.division_error(attacker, assignments) is None
}

proof fn lemma_gangs(
    g: GameModel,
    attacker: ObjectId,
    out: Seq<ActionModel>,
    blockers: Seq<ObjectId>,
    n: nat,
)
    requires
        forall|k: int| 0 <= k < out.len() ==> is_division(g, attacker, #[trigger] out[k]),
    ensures
        forall|k: int|
            0 <= k < g.gang_divisions(out, attacker, blockers, n).len() ==> is_division(
                g,
                attacker,
                #[trigger] g.gang_divisions(out, attacker, blockers, n)[k],
            ),
    decreases n,
{
    if n > 0 && n <= blockers.len() {
        lemma_gangs(g, attacker, out, blockers, (n - 1) as nat);
        let rest = g.gang_divisions(out, attacker, blockers, (n - 1) as nat);
        let all = g.gang_divisions(out, attacker, blockers, n);
        let split = seq![(DamageTarget::Object(blockers[n - 1]), g.strength(attacker))];
        assert forall|k: int| 0 <= k < all.len() implies is_division(
            g,
            attacker,
            #[trigger] all[k],
        ) by {
            if k < rest.len() {
                assert(all[k] == rest[k]);
            } else {
                assert(all[k] == (ActionModel::AssignCombatDamage { attacker, assignments: split }));
            }
        }
    }
}

proof fn lemma_divisions(g: GameModel, attacker: ObjectId)
    requires
        g.live_blockers(attacker).len() > 0,
    ensures
        forall|k: int|
            0 <= k < g.damage_suggestions(attacker).len() ==> is_division(
                g,
                attacker,
                #[trigger] g.damage_suggestions(attacker)[k],
            ),
{
    law_lethal_in_order_is_allowed(g, attacker);
    let blockers = g.live_blockers(attacker);
    let first = GameModel::with_division(
        Seq::empty(),
        attacker,
        g.lethal_in_order(attacker, each_once(blockers, blockers.len())),
    );
    lemma_gangs(g, attacker, first, blockers, blockers.len());
}

// ----- lengths -----

/// Distinct ids of a game are no more than its objects.
proof fn lemma_few(ids: Seq<ObjectId>, most: nat)
    requires
        ids.no_duplicates(),
        forall|k: int| 0 <= k < ids.len() ==> 1 <= (#[trigger] ids[k]).0 <= most,
    ensures
        ids.len() <= most,
    decreases most,
{
    if most == 0 {
        if ids.len() > 0 {
            assert(1 <= ids[0].0 <= most);
        }
    } else {
        let top = ObjectId(most as u32);
        if most <= u32::MAX && ids.contains(top) {
            let j = choose|j: int| 0 <= j < ids.len() && ids[j] == top;
            let rest = ids.remove(j);
            assert forall|k: int| 0 <= k < rest.len() implies 1 <= (#[trigger] rest[k]).0 <= most
                - 1 by {
                let was = if k < j {
                    k
                } else {
                    k + 1
                };
                assert(rest[k] == ids[was]);
                assert(ids[was] != ids[j]);
            }
            lemma_few(rest, (most - 1) as nat);
        } else {
            assert forall|k: int| 0 <= k < ids.len() implies 1 <= (#[trigger] ids[k]).0 <= most
                - 1 by {
                assert(ids.contains(ids[k]));
            }
            lemma_few(ids, (most - 1) as nat);
        }
    }
}

proof fn lemma_zone_ids(g: GameModel, zone: Zone, n: nat)
    requires
        n <= g.objects.len() <= u32::MAX,
    ensures
        g.zone_ids(zone, n).no_duplicates(),
        g.zone_ids(zone, n).len() <= n,
        forall|k: int|
            0 <= k < g.zone_ids(zone, n).len() ==> 1 <= (#[trigger] g.zone_ids(zone, n)[k]).0 <= n,
    decreases n,
{
    if n > 0 {
        lemma_zone_ids(g, zone, (n - 1) as nat);
    }
}

proof fn lemma_against_n(g: GameModel, seat: Seat, ids: Seq<ObjectId>, n: nat)
    requires
        n <= ids.len(),
        ids.no_duplicates(),
    ensures
        g.against_n(seat, ids, n).no_duplicates(),
        g.against_n(seat, ids, n).len() <= n,
        forall|k: int|
            0 <= k < g.against_n(seat, ids, n).len() ==> ids.subrange(0, n as int).contains(
                #[trigger] g.against_n(seat, ids, n)[k],
            ),
    decreases n,
{
    if n > 0 {
        lemma_against_n(g, seat, ids, (n - 1) as nat);
        let head = ids.subrange(0, n - 1);
        let more = ids.subrange(0, n as int);
        assert(more =~= head.push(ids[n - 1]));
        assert(more[n - 1] == ids[n - 1]);
        assert(!head.contains(ids[n - 1]));
        assert forall|x: ObjectId| head.contains(x) implies more.contains(x) by {
            let k = choose|k: int| 0 <= k < head.len() && head[k] == x;
            assert(more[k] == x);
        }
    }
}

/// The lists of a sound game name no object twice, and are not too long.
proof fn lemma_lists(g: GameModel, seat: Seat)
    requires
        g.sound(),
    ensures
        g.battlefield(seat).no_duplicates(),
        g.battlefield(seat).len() <= usize::MAX,
        g.attackers_against(seat).no_duplicates(),
        g.attackers_against(seat).len() <= usize::MAX,
{
    reveal(GameModel::lists_are_sets);
    reveal(GameModel::lists_are_true);
    let ids = g.list(seat, Zone::Battlefield);
    assert(ids.no_duplicates());
    assert forall|k: int| 0 <= k < ids.len() implies 1 <= (#[trigger] ids[k]).0
        <= g.objects.len() by {
        assert(g.in_zone(g.list(seat, Zone::Battlefield)[k], Zone::Battlefield));
    }
    lemma_few(ids, g.objects.len());
    lemma_zone_ids(g, Zone::Battlefield, g.objects.len());
    lemma_against_n(g, seat, g.on_battlefield(), g.on_battlefield().len());
}

// ----- what is done at priority -----

/// What is listed at priority is done.
spec fn doable(g: GameModel, seat: Seat, a: ActionModel) -> bool {
    !a.division() && g.perform(seat, a) is Ok
}

spec fn all_doable(g: GameModel, seat: Seat, acts: Seq<ActionModel>) -> bool {
    forall|k: int| 0 <= k < acts.len() ==> doable(g, seat, #[trigger] acts[k])
}

proof fn lemma_doable_add(g: GameModel, seat: Seat, a: Seq<ActionModel>, b: Seq<ActionModel>)
    requires
        all_doable(g, seat, a),
        all_doable(g, seat, b),
    ensures
        all_doable(g, seat, a + b),
{
    assert forall|k: int| 0 <= k < (a + b).len() implies doable(g, seat, #[trigger] (a + b)[k]) by {
        if k < a.len() {
            assert((a + b)[k] == a[k]);
        } else {
            assert((a + b)[k] == b[k - a.len()]);
        }
    }
}

proof fn lemma_lands(g: GameModel, seat: Seat, ids: Seq<ObjectId>, n: nat)
    ensures
        all_doable(g, seat, g.land_plays(ids, n)),
    decreases n,
{
    reveal(GameModel::perform);
    if n > 0 && n <= ids.len() {
        lemma_lands(g, seat, ids, (n - 1) as nat);
    }
}

/// The payments listed for a cost cover it and announce nothing.
spec fn all_cover(g: GameModel, seat: Seat, cost: ManaCost, ps: Seq<PaymentModel>) -> bool {
    forall|k: int|
        0 <= k < ps.len() ==> g.covering(seat, #[trigger] ps[k], cost) is Ok && ps[k].x == 0
}

proof fn lemma_announce_nothing(
    g: GameModel,
    sources: Seq<(ObjectId, Mana, i32)>,
    ways: Seq<(ManaPool, ManaPool)>,
    n: nat,
)
    ensures
        forall|k: int|
            0 <= k < g.payments_n(sources, ways, n).len() ==> (#[trigger] g.payments_n(
                sources,
                ways,
                n,
            )[k]).x == 0,
    decreases n,
{
    if n > 0 && n <= ways.len() {
        lemma_announce_nothing(g, sources, ways, (n - 1) as nat);
        let rest = g.payments_n(sources, ways, (n - 1) as nat);
        let one = g.payment_for(sources, ways[n - 1], Pick::LandsFirst);
        let two = g.payment_for(sources, ways[n - 1], Pick::ProducersFirst);
        let lands = GameModel::with_payment(rest, one);
        assert(forall|k: int| 0 <= k < lands.len() ==> (#[trigger] lands[k]).x == 0);
        let both = GameModel::with_payment(lands, two);
        assert(forall|k: int| 0 <= k < both.len() ==> (#[trigger] both[k]).x == 0);
        assert(both == g.payments_n(sources, ways, n));
    }
}

proof fn lemma_all_cover(g: GameModel, seat: Seat, cost: ManaCost)
    requires
        g.sound(),
    ensures
        all_cover(g, seat, cost, g.payments(seat, cost)),
{
    lemma_lists(g, seat);
    let ps = g.payments(seat, cost);
    let sources = g.sources(seat);
    let ways = search(
        0,
        capacity(sources, sources.len()),
        g.pool(seat),
        cost,
        cost.generic as int,
        ManaPool::none(),
        ManaPool::none(),
    );
    lemma_announce_nothing(g, sources, ways, ways.len());
    assert forall|k: int| 0 <= k < ps.len() implies g.covering(
        seat,
        #[trigger] ps[k],
        cost,
    ) is Ok && ps[k].x == 0 by {
        assert(ps.contains(ps[k]));
        law_listed_payments_cover(g, seat, cost, ps[k]);
        if cost.free() {
            assert(ps[k] == PaymentModel::none());
        }
    }
}

proof fn lemma_cast_list(
    g: GameModel,
    seat: Seat,
    id: ObjectId,
    all: Seq<Seq<Target>>,
    ps: Seq<PaymentModel>,
    n: nat,
)
    requires
        all_cover(g, seat, g.cast_cost(seat, id).announced(0), ps),
    ensures
        all_doable(g, seat, cast_list(id, all, ps, n)),
    decreases n,
{
    if n > 0 && n <= all.len() {
        lemma_cast_list(g, seat, id, all, ps, (n - 1) as nat);
        let rest = cast_list(id, all, ps, (n - 1) as nat);
        let more = Seq::new(
            ps.len(),
            |i: int| ActionModel::CastSpell { object: id, targets: all[n - 1], payment: ps[i] },
        );
        assert forall|k: int| 0 <= k < more.len() implies doable(g, seat, #[trigger] more[k]) by {
            reveal(GameModel::perform);
            reveal(GameModel::cast_spell);
            assert(g.covering(seat, ps[k], g.cast_cost(seat, id).announced(0)) is Ok);
        }
        lemma_doable_add(g, seat, rest, more);
    }
}

proof fn lemma_casts(g: GameModel, seat: Seat, ids: Seq<ObjectId>, n: nat)
    requires
        g.sound(),
    ensures
        all_doable(g, seat, g.casts(seat, ids, n)),
    decreases n,
{
    if n > 0 && n <= ids.len() {
        lemma_casts(g, seat, ids, (n - 1) as nat);
        let id = ids[n - 1];
        let cost = g.cast_cost(seat, id).announced(0);
        let ps = g.payments(seat, cost);
        lemma_all_cover(g, seat, cost);
        lemma_cast_list(g, seat, id, seq![Seq::empty()], ps, 1);
        if let Some(all) = g.target_combos(
            g.def(id).spell_specs(),
            CtxModel::simple(seat, Some(id)),
        ) {
            lemma_cast_list(g, seat, id, all, ps, all.len());
        }
        lemma_doable_add(g, seat, g.casts(seat, ids, (n - 1) as nat), g.casts_of(seat, id));
    }
}

proof fn lemma_capped(
    g: GameModel,
    seat: Seat,
    list: (Seq<ActionModel>, bool),
    more: Seq<ActionModel>,
    n: nat,
)
    requires
        all_doable(g, seat, list.0),
        all_doable(g, seat, more),
    ensures
        all_doable(g, seat, list_capped(list, more, n).0),
    decreases n,
{
    if n > 0 && n <= more.len() {
        lemma_capped(g, seat, list, more, (n - 1) as nat);
        assert(doable(g, seat, more[n - 1]));
    }
}

spec fn activation(
    object: ObjectId,
    ability: u8,
    targets: Seq<Target>,
    payment: PaymentModel,
) -> ActionModel {
    ActionModel::ActivateAbility { object, ability, targets, payment }
}

/// Activations that are doable whatever their targets are listed as such.
proof fn lemma_activation_list(
    g: GameModel,
    seat: Seat,
    id: ObjectId,
    ability: u8,
    all: Seq<Seq<Target>>,
    ps: Seq<PaymentModel>,
    n: nat,
)
    requires
        forall|t: Seq<Target>, k: int|
            0 <= k < ps.len() ==> doable(g, seat, #[trigger] activation(id, ability, t, ps[k])),
    ensures
        all_doable(g, seat, activation_list(id, ability, all, ps, n)),
    decreases n,
{
    if n > 0 && n <= all.len() {
        lemma_activation_list(g, seat, id, ability, all, ps, (n - 1) as nat);
        let rest = activation_list(id, ability, all, ps, (n - 1) as nat);
        let more = Seq::new(
            ps.len(),
            |i: int|
                ActionModel::ActivateAbility {
                    object: id,
                    ability,
                    targets: all[n - 1],
                    payment: ps[i],
                },
        );
        assert forall|k: int| 0 <= k < more.len() implies doable(g, seat, #[trigger] more[k]) by {
            assert(more[k] == activation(id, ability, all[n - 1], ps[k]));
        }
        lemma_doable_add(g, seat, rest, more);
    }
}

proof fn lemma_working(
    g: GameModel,
    seat: Seat,
    id: ObjectId,
    costs: Seq<Cost>,
    ps: Seq<PaymentModel>,
    n: nat,
    k: int,
)
    requires
        n <= ps.len(),
        0 <= k < g.working(seat, id, costs, ps, n).len(),
    ensures
        ps.contains(g.working(seat, id, costs, ps, n)[k]),
        g.pays_for(seat, id, costs, g.working(seat, id, costs, ps, n)[k]),
    decreases n,
{
    let rest = g.working(seat, id, costs, ps, (n - 1) as nat);
    if k < rest.len() {
        lemma_working(g, seat, id, costs, ps, (n - 1) as nat, k);
    } else {
        assert(ps.contains(ps[n - 1]));
    }
}

proof fn lemma_activations(g: GameModel, seat: Seat, id: ObjectId, index: nat)
    requires
        g.sound(),
        g.has_def(id),
        g.obj(id).zone != Zone::Hand,
        index < g.def(id).activated.len(),
    ensures
        all_doable(g, seat, g.activations(seat, id, index, g.def(id).activated[index as int])),
{
    let ability = g.def(id).activated[index as int];
    let costs = ability.cost@;
    if let Some(ps) = g.ability_payments(seat, id, costs, costs.len()) {
        let works = g.working(seat, id, costs, ps, ps.len());
        if let Some(all) = g.target_combos(ability.targets@, CtxModel::simple(seat, Some(id))) {
            if index < EQUIP_ABILITY {
                assert forall|t: Seq<Target>, k: int|
                    0 <= k < works.len() implies doable(
                    g,
                    seat,
                    #[trigger] activation(id, index as u8, t, works[k]),
                ) by {
                    assert(index as u8 == index);
                    lemma_lists(g, seat);
                    lemma_working(g, seat, id, costs, ps, ps.len(), k);
                    if paid_in_order(costs) {
                        law_listed_abilities_are_payable(g, seat, id, costs, works[k]);
                    }
                    reveal(GameModel::perform);
                    reveal(GameModel::activate_ability);
                }
                lemma_activation_list(g, seat, id, index as u8, all, works, all.len());
            }
        }
    }
}

proof fn lemma_with_abilities(
    g: GameModel,
    seat: Seat,
    list: (Seq<ActionModel>, bool),
    id: ObjectId,
    n: nat,
)
    requires
        g.sound(),
        g.has_def(id),
        g.obj(id).zone != Zone::Hand,
        all_doable(g, seat, list.0),
    ensures
        all_doable(g, seat, g.with_abilities(list, seat, id, n).0),
    decreases n,
{
    if n > 0 && n <= g.def(id).activated.len() {
        lemma_with_abilities(g, seat, list, id, (n - 1) as nat);
        lemma_activations(g, seat, id, (n - 1) as nat);
        let more = g.activations(seat, id, (n - 1) as nat, g.def(id).activated[n - 1]);
        lemma_capped(
            g,
            seat,
            g.with_abilities(list, seat, id, (n - 1) as nat),
            more,
            more.len(),
        );
    }
}

proof fn lemma_equips(g: GameModel, seat: Seat, id: ObjectId)
    requires
        g.sound(),
        g.has_def(id),
    ensures
        all_doable(g, seat, g.equips(seat, id)),
{
    if g.def(id).equip is Some {
        let cost = g.def(id).equip->0.announced(0);
        let ps = g.payments(seat, cost);
        lemma_all_cover(g, seat, cost);
        let ids = g.battlefield(seat);
        let all = g.bearers(id, ids, ids.len());
        assert forall|t: Seq<Target>, k: int|
            0 <= k < ps.len() implies doable(
            g,
            seat,
            #[trigger] activation(id, EQUIP_ABILITY, t, ps[k]),
        ) by {
            reveal(GameModel::perform);
            reveal(GameModel::activate_ability);
            assert(g.covering(seat, ps[k], cost) is Ok);
        }
        lemma_activation_list(g, seat, id, EQUIP_ABILITY, all, ps, all.len());
    }
}

proof fn lemma_ability_list(g: GameModel, seat: Seat, ids: Seq<ObjectId>, n: nat)
    requires
        g.sound(),
        forall|k: int|
            0 <= k < ids.len() ==> g.has_obj(#[trigger] ids[k]) && g.obj(ids[k]).zone
                != Zone::Hand,
    ensures
        all_doable(g, seat, g.ability_list(seat, ids, n).0),
    decreases n,
{
    if n > 0 && n <= ids.len() {
        lemma_ability_list(g, seat, ids, (n - 1) as nat);
        let before = g.ability_list(seat, ids, (n - 1) as nat);
        let id = ids[n - 1];
        if g.has_def(id) {
            let count = g.def(id).activated.len();
            lemma_with_abilities(g, seat, before, id, count);
            lemma_equips(g, seat, id);
            lemma_doable_add(
                g,
                seat,
                g.with_abilities(before, seat, id, count).0,
                g.equips(seat, id),
            );
        }
    }
}

/// What is on a list is an object in that zone.
proof fn lemma_on_list(g: GameModel, seat: Seat, zone: Zone, x: ObjectId)
    requires
        g.sound(),
        sort(g.list(seat, zone)).contains(x),
    ensures
        g.in_zone(x, zone),
{
    reveal(GameModel::lists_are_true);
    lemma_sort_members(g.list(seat, zone), x);
    let k = choose|k: int| 0 <= k < g.list(seat, zone).len() && g.list(seat, zone)[k] == x;
    assert(g.in_zone(g.list(seat, zone)[k], zone));
}

proof fn lemma_priority(g: GameModel, seat: Seat)
    requires
        g.sound(),
    ensures
        all_doable(g, seat, g.priority_actions(seat)),
{
    let hand = sort(g.hand(seat));
    let pass = seq![ActionModel::PassPriority];
    assert(all_doable(g, seat, pass)) by {
        reveal(GameModel::perform);
        assert(pass[0] == ActionModel::PassPriority);
    }
    let lands = if g.sorcery_timing(seat) && g.has_seat(seat) && g.player(
        seat,
    ).lands_played_this_turn < 1 {
        g.land_plays(hand, hand.len())
    } else {
        Seq::empty()
    };
    lemma_lands(g, seat, hand, hand.len());
    lemma_doable_add(g, seat, pass, lands);
    lemma_casts(g, seat, hand, hand.len());
    lemma_doable_add(g, seat, pass + lands, g.casts(seat, hand, hand.len()));
    let field = sort(g.battlefield(seat));
    let yard = sort(g.list(seat, Zone::Graveyard));
    let ids = field + yard;
    assert forall|k: int| 0 <= k < ids.len() implies g.has_obj(#[trigger] ids[k]) && g.obj(
        ids[k],
    ).zone != Zone::Hand by {
        if k < field.len() {
            assert(field.contains(field[k]));
            lemma_on_list(g, seat, Zone::Battlefield, ids[k]);
        } else {
            assert(yard.contains(yard[k - field.len()]));
            lemma_on_list(g, seat, Zone::Graveyard, ids[k]);
        }
    }
    lemma_ability_list(g, seat, ids, ids.len());
    lemma_doable_add(
        g,
        seat,
        pass + lands + g.casts(seat, hand, hand.len()),
        g.ability_actions(seat),
    );
}

// ----- the law -----

proof fn lemma_answers(g: GameModel, seat: Seat, a: ActionModel)
    requires
        g.sound(),
        g.outcome is None,
        g.pending is Some,
        g.pending->0.who() == seat,
        !g.moot(),
        g.answers(seat, g.pending->0).contains(a),
    ensures
        g.perform(seat, a) is Ok,
        !(a is Concede),
        a.division() ==> g.declaration_error(seat, a) is None,
{
    reveal(GameModel::perform);
    let p = g.pending->0;
    let all = g.answers(seat, p);
    let k = choose|k: int| 0 <= k < all.len() && all[k] == a;
    match p {
        PendingModel::DeclareAttackers { .. } => {
            lemma_lists(g, seat);
            lemma_attacks(g, seat);
            assert(is_attack(g, seat, all[k]));
            lemma_attack_error(g, seat, a->attackers, 0);
        },
        PendingModel::DeclareBlockers { .. } => {
            lemma_lists(g, seat);
            lemma_blocks(g, seat);
            assert(is_block(g, g.block_candidates(seat), g.attackers_against(seat), all[k]));
            lemma_block_error(g, seat, a->blocks, 0);
        },
        PendingModel::AssignDamage { attacker, .. } => {
            lemma_divisions(g, attacker);
            assert(is_division(g, attacker, all[k]));
        },
        _ => {},
    }
}

/// Every action listed for a seat is accepted from it, in every game as
/// [`Game::new`] and [`Game::apply`] leave it.
pub proof fn law_listed_actions_are_accepted(g: GameModel, seat: Seat, a: ActionModel)
    requires
        g.sound(),
        g.at_rest(),
        g.legal(seat).contains(a),
    ensures
        g.apply(seat, a) is Ok,
{
    let acts = g.legal(seat);
    let k = choose|k: int| 0 <= k < acts.len() && acts[k] == a;
    assert(lists(acts, a));
    reveal(GameModel::apply);
    if a is Concede {
        reveal(GameModel::perform);
        reveal(GameModel::table_agrees);
        assert(g.turn_order.contains(seat));
    } else if let Some(p) = g.pending {
        let all = g.answers(seat, p);
        assert(all[k] == a);
        lemma_answers(g, seat, a);
    } else {
        let all = g.priority_actions(seat);
        assert(all[k] == a);
        lemma_priority(g, seat);
        assert(doable(g, seat, all[k]));
    }
}

} // verus!
