//! Combat, told by who attacks and blocks whom and by what creatures can do.
use crate::action::{ActionModel, AttackTarget, DamageTarget};
use crate::combat::{assigned_at, given_to, recipients};
use crate::laws_filter::lemma_zone_ids;
use crate::seqs::lemma_sort_members;
use crate::state::{AssignedModel, GameModel, ObjectModel, PendingModel};
use crate::types::{CardType, Keyword, ObjectId, Seat, Zone};
use vstd::prelude::*;

verus! {

// ----- who may attack and block -----

proof fn lemma_able(g: GameModel, ids: Seq<ObjectId>, attack: bool, n: nat, x: ObjectId)
    requires
        n <= ids.len(),
    ensures
        g.able(ids, attack, n).contains(x) <==> (if attack {
            g.can_attack(x)
        } else {
            g.can_block_at_all(x)
        }) && exists|i: int|
            0 <= i < n && #[trigger] ids[i] == x,
    decreases n,
{
    if n > 0 {
        lemma_able(g, ids, attack, (n - 1) as nat, x);
        let rest = g.able(ids, attack, (n - 1) as nat);
        let all = g.able(ids, attack, n);
        if all.contains(x) {
            let k = choose|k: int| 0 <= k < all.len() && all[k] == x;
            if k < rest.len() {
                assert(rest[k] == x);
                let i = choose|i: int| 0 <= i < n - 1 && #[trigger] ids[i] == x;
                assert(0 <= i < n && ids[i] == x);
            } else {
                assert(ids[n - 1] == x);
            }
        }
        if (if attack {
            g.can_attack(x)
        } else {
            g.can_block_at_all(x)
        }) && exists|i: int| 0 <= i < n && #[trigger] ids[i] == x {
            let i = choose|i: int| 0 <= i < n && #[trigger] ids[i] == x;
            if i < n - 1 {
                assert(rest.contains(x));
                let k = choose|k: int| 0 <= k < rest.len() && rest[k] == x;
                assert(all[k] == x);
            } else {
                assert(all[rest.len() as int] == x);
            }
        }
    }
}

/// Those who may attack are the untapped creatures a player has on the
/// battlefield that have been there since the turn began or have haste, but
/// for defenders.
pub proof fn law_who_may_attack(g: GameModel, s: Seat, id: ObjectId)
    ensures
        g.attack_candidates(s).contains(id) <==> {
            &&& g.battlefield(s).contains(id)
            &&& g.has_def(id)
            &&& g.def(id).types.contains(CardType::Creature)
            &&& !g.obj(id).tapped
            &&& g.obj(id).summoning_sick ==> g.has_keyword(id, Keyword::Haste)
            &&& !g.has_keyword(id, Keyword::Defender)
        },
{
    let ids = g.battlefield(s);
    lemma_able(g, ids, true, ids.len(), id);
    lemma_sort_members(g.able(ids, true, ids.len()), id);
    assert(ids.contains(id) <==> exists|i: int| 0 <= i < ids.len() && #[trigger] ids[i] == id);
}

/// Those who may block are the untapped creatures a player has on the
/// battlefield, however new.
pub proof fn law_who_may_block(g: GameModel, s: Seat, id: ObjectId)
    ensures
        g.block_candidates(s).contains(id) <==> {
            &&& g.battlefield(s).contains(id)
            &&& g.has_def(id)
            &&& g.def(id).types.contains(CardType::Creature)
            &&& !g.obj(id).tapped
        },
{
    let ids = g.battlefield(s);
    lemma_able(g, ids, false, ids.len(), id);
    lemma_sort_members(g.able(ids, false, ids.len()), id);
    assert(ids.contains(id) <==> exists|i: int| 0 <= i < ids.len() && #[trigger] ids[i] == id);
}

/// A creature with flying is blocked only by creatures with flying or reach;
/// any other by any.
pub proof fn law_flyers_are_hard_to_block(g: GameModel, blocker: ObjectId, attacker: ObjectId)
    ensures
        !g.has_keyword(attacker, Keyword::Flying) ==> g.can_block(blocker, attacker),
        g.has_keyword(blocker, Keyword::Flying) ==> g.can_block(blocker, attacker),
        g.has_keyword(blocker, Keyword::Reach) ==> g.can_block(blocker, attacker),
        g.has_keyword(attacker, Keyword::Flying) && !g.has_keyword(blocker, Keyword::Flying)
            && !g.has_keyword(blocker, Keyword::Reach) ==> !g.can_block(blocker, attacker),
{
}

proof fn lemma_blocks_on(blocks: Seq<(ObjectId, ObjectId)>, a: ObjectId, n: nat)
    requires
        n <= blocks.len(),
    ensures
        GameModel::blocks_on(blocks, a, n) == 0 <==> forall|i: int|
            0 <= i < n ==> (#[trigger] blocks[i]).1 != a,
        GameModel::blocks_on(blocks, a, n) == 1 <==> exists|i: int|
            0 <= i < n && (#[trigger] blocks[i]).1 == a && forall|j: int|
                0 <= j < n && j != i ==> (#[trigger] blocks[j]).1 != a,
    decreases n,
{
    if n > 0 {
        lemma_blocks_on(blocks, a, (n - 1) as nat);
        let was = GameModel::blocks_on(blocks, a, (n - 1) as nat);
        if blocks[n - 1].1 == a {
            if was == 0 {
                assert(0 <= n - 1 < n && blocks[n - 1].1 == a && forall|j: int|
                    0 <= j < n && j != n - 1 ==> (#[trigger] blocks[j]).1 != a);
            } else {
                let k = choose|k: int| 0 <= k < n - 1 && (#[trigger] blocks[k]).1 == a;
                assert(blocks[k].1 == a);
            }
        } else if was == 1 {
            let i = choose|i: int|
                0 <= i < n - 1 && (#[trigger] blocks[i]).1 == a && forall|j: int|
                    0 <= j < n - 1 && j != i ==> (#[trigger] blocks[j]).1 != a;
            assert(0 <= i < n && blocks[i].1 == a && forall|j: int|
                0 <= j < n && j != i ==> (#[trigger] blocks[j]).1 != a);
        }
    }
}

/// An attacker with menace is not blocked by just one creature; any other
/// number, and any attacker without it, is in order.
pub proof fn law_menace_takes_two(
    g: GameModel,
    blocks: Seq<(ObjectId, ObjectId)>,
    attackers: Seq<ObjectId>,
)
    ensures
        g.menace_ok(blocks, attackers) <==> forall|k: int, i: int|
            0 <= k < attackers.len() && 0 <= i < blocks.len() && g.has_keyword(
                #[trigger] attackers[k],
                Keyword::Menace,
            ) && (#[trigger] blocks[i]).1 == attackers[k] ==> exists|j: int|
                0 <= j < blocks.len() && j != i && (#[trigger] blocks[j]).1 == attackers[k],
{
    assert forall|k: int| 0 <= k < attackers.len() implies (GameModel::blocks_on(
        blocks,
        #[trigger] attackers[k],
        blocks.len(),
    ) == 1 <==> exists|i: int|
        0 <= i < blocks.len() && (#[trigger] blocks[i]).1 == attackers[k] && forall|j: int|
            0 <= j < blocks.len() && j != i ==> (#[trigger] blocks[j]).1 != attackers[k]) by {
        lemma_blocks_on(blocks, attackers[k], blocks.len());
    }
}

// ----- who is in combat -----

proof fn lemma_against(g: GameModel, s: Seat, ids: Seq<ObjectId>, n: nat, x: ObjectId)
    requires
        n <= ids.len(),
    ensures
        g.against_n(s, ids, n).contains(x) <==> (g.attacks_seat(x, s)) && exists|i: int|
            0 <= i < n && #[trigger] ids[i] == x,
    decreases n,
{
    if n > 0 {
        lemma_against(g, s, ids, (n - 1) as nat, x);
        let rest = g.against_n(s, ids, (n - 1) as nat);
        let all = g.against_n(s, ids, n);
        if all.contains(x) {
            let k = choose|k: int| 0 <= k < all.len() && all[k] == x;
            if k < rest.len() {
                assert(rest[k] == x);
                let i = choose|i: int| 0 <= i < n - 1 && #[trigger] ids[i] == x;
                assert(0 <= i < n && ids[i] == x);
            } else {
                assert(ids[n - 1] == x);
            }
        }
        if (g.attacks_seat(x, s)) && exists|i: int| 0 <= i < n && #[trigger] ids[i] == x {
            let i = choose|i: int| 0 <= i < n && #[trigger] ids[i] == x;
            if i < n - 1 {
                assert(rest.contains(x));
                let k = choose|k: int| 0 <= k < rest.len() && rest[k] == x;
                assert(all[k] == x);
            } else {
                assert(all[rest.len() as int] == x);
            }
        }
    }
}

proof fn lemma_attacking(g: GameModel, ids: Seq<ObjectId>, n: nat, x: ObjectId)
    requires
        n <= ids.len(),
    ensures
        g.attacking_n(ids, n).contains(x) <==> (g.has_obj(x) && g.obj(x).attacking is Some) && exists|i: int|
            0 <= i < n && #[trigger] ids[i] == x,
    decreases n,
{
    if n > 0 {
        lemma_attacking(g, ids, (n - 1) as nat, x);
        let rest = g.attacking_n(ids, (n - 1) as nat);
        let all = g.attacking_n(ids, n);
        if all.contains(x) {
            let k = choose|k: int| 0 <= k < all.len() && all[k] == x;
            if k < rest.len() {
                assert(rest[k] == x);
                let i = choose|i: int| 0 <= i < n - 1 && #[trigger] ids[i] == x;
                assert(0 <= i < n && ids[i] == x);
            } else {
                assert(ids[n - 1] == x);
            }
        }
        if (g.has_obj(x) && g.obj(x).attacking is Some) && exists|i: int| 0 <= i < n && #[trigger] ids[i] == x {
            let i = choose|i: int| 0 <= i < n && #[trigger] ids[i] == x;
            if i < n - 1 {
                assert(rest.contains(x));
                let k = choose|k: int| 0 <= k < rest.len() && rest[k] == x;
                assert(all[k] == x);
            } else {
                assert(all[rest.len() as int] == x);
            }
        }
    }
}

proof fn lemma_live(g: GameModel, a: ObjectId, ids: Seq<ObjectId>, n: nat, x: ObjectId)
    requires
        n <= ids.len(),
    ensures
        g.live_n(a, ids, n).contains(x) <==> (g.in_zone(x, Zone::Battlefield) && g.obj(x).blocking.contains(a)) && exists|i: int|
            0 <= i < n && #[trigger] ids[i] == x,
    decreases n,
{
    if n > 0 {
        lemma_live(g, a, ids, (n - 1) as nat, x);
        let rest = g.live_n(a, ids, (n - 1) as nat);
        let all = g.live_n(a, ids, n);
        if all.contains(x) {
            let k = choose|k: int| 0 <= k < all.len() && all[k] == x;
            if k < rest.len() {
                assert(rest[k] == x);
                let i = choose|i: int| 0 <= i < n - 1 && #[trigger] ids[i] == x;
                assert(0 <= i < n && ids[i] == x);
            } else {
                assert(ids[n - 1] == x);
            }
        }
        if (g.in_zone(x, Zone::Battlefield) && g.obj(x).blocking.contains(a)) && exists|i: int| 0 <= i < n && #[trigger] ids[i] == x {
            let i = choose|i: int| 0 <= i < n && #[trigger] ids[i] == x;
            if i < n - 1 {
                assert(rest.contains(x));
                let k = choose|k: int| 0 <= k < rest.len() && rest[k] == x;
                assert(all[k] == x);
            } else {
                assert(all[rest.len() as int] == x);
            }
        }
    }
}

proof fn lemma_defending(g: GameModel, seats: Seq<Seat>, n: nat, x: Seat)
    requires
        n <= seats.len(),
    ensures
        g.defending_n(seats, n).contains(x) <==> (x != g.active_player && g.attackers_against(x).len() > 0) && exists|i: int|
            0 <= i < n && #[trigger] seats[i] == x,
    decreases n,
{
    if n > 0 {
        lemma_defending(g, seats, (n - 1) as nat, x);
        let rest = g.defending_n(seats, (n - 1) as nat);
        let all = g.defending_n(seats, n);
        if all.contains(x) {
            let k = choose|k: int| 0 <= k < all.len() && all[k] == x;
            if k < rest.len() {
                assert(rest[k] == x);
                let i = choose|i: int| 0 <= i < n - 1 && #[trigger] seats[i] == x;
                assert(0 <= i < n && seats[i] == x);
            } else {
                assert(seats[n - 1] == x);
            }
        }
        if (x != g.active_player && g.attackers_against(x).len() > 0) && exists|i: int| 0 <= i < n && #[trigger] seats[i] == x {
            let i = choose|i: int| 0 <= i < n && #[trigger] seats[i] == x;
            if i < n - 1 {
                assert(rest.contains(x));
                let k = choose|k: int| 0 <= k < rest.len() && rest[k] == x;
                assert(all[k] == x);
            } else {
                assert(all[rest.len() as int] == x);
            }
        }
    }
}

/// The attackers against a player are the permanents on the battlefield that
/// attack them or a planeswalker they control; the attacking creatures are all
/// that attack.
pub proof fn law_who_attacks(g: GameModel, s: Seat, id: ObjectId)
    requires
        g.objects.len() <= u32::MAX,
    ensures
        g.attackers_against(s).contains(id) <==> {
            &&& g.has_obj(id)
            &&& g.obj(id).zone is Battlefield
            &&& match g.obj(id).attacking {
                Some(AttackTarget::Player(p)) => p == s,
                Some(AttackTarget::Planeswalker(pw)) => g.has_obj(pw) && g.obj(pw).controller == s,
                None => false,
            }
        },
        g.attacking_creatures().contains(id) <==> g.has_obj(id) && g.obj(id).zone is Battlefield
            && g.obj(id).attacking is Some,
{
    let ids = g.on_battlefield();
    lemma_zone_ids(g, Zone::Battlefield, g.objects.len());
    lemma_against(g, s, ids, ids.len(), id);
    lemma_attacking(g, ids, ids.len(), id);
    assert(ids.contains(id) <==> exists|i: int| 0 <= i < ids.len() && #[trigger] ids[i] == id);
}

/// Whoever is attacked declares blocks: every player in the order of turns, but
/// for the one whose turn it is, against whom something attacks.
pub proof fn law_who_defends(g: GameModel, s: Seat, id: ObjectId)
    requires
        g.objects.len() <= u32::MAX,
        g.has_obj(id),
        g.obj(id).zone is Battlefield,
        g.obj(id).attacking == Some(AttackTarget::Player(s)),
    ensures
        g.defending_seats().contains(s) <==> g.apnap().contains(s) && s != g.active_player,
{
    let seats = g.apnap();
    law_who_attacks(g, s, id);
    assert(g.attackers_against(s).len() > 0);
    lemma_defending(g, seats, seats.len(), s);
    assert(seats.contains(s) <==> exists|i: int| 0 <= i < seats.len() && #[trigger] seats[i] == s);
}

/// A blocker still blocks while it is on the battlefield and has not been taken
/// out of combat.
pub proof fn law_who_still_blocks(g: GameModel, a: ObjectId, b: ObjectId)
    requires
        g.has_obj(a),
    ensures
        g.live_blockers(a).contains(b) <==> g.obj(a).blocked_by.contains(b) && g.has_obj(b) && g.obj(
            b,
        ).zone is Battlefield && g.obj(b).blocking.contains(a),
{
    let ids = g.obj(a).blocked_by;
    lemma_live(g, a, ids, ids.len(), b);
    assert(ids.contains(b) <==> exists|i: int| 0 <= i < ids.len() && #[trigger] ids[i] == b);
}

/// An attacker attacks what it was declared against and taps, unless it has
/// vigilance; nothing else about it or anything else changes.
pub proof fn law_attackers_tap(
    g: GameModel,
    id: ObjectId,
    target: AttackTarget,
    other: ObjectId,
)
    requires
        g.has_obj(id),
        g.has_obj(other),
        other != id,
    ensures
        ({
            let h = g.attack_with(id, target);
            let was = g.obj(id);
            &&& h.obj(id).attacking == Some(target)
            &&& g.has_keyword(id, Keyword::Vigilance) ==> h.obj(id).tapped == was.tapped
            &&& !g.has_keyword(id, Keyword::Vigilance) ==> h.obj(id).tapped
            &&& h.obj(id) == ObjectModel {
                attacking: Some(target),
                tapped: h.obj(id).tapped,
                ..was
            }
            &&& h.obj(other) == g.obj(other)
            &&& h.players == g.players
        }),
{
}

proof fn lemma_attack_all(
    g: GameModel,
    attackers: Seq<(ObjectId, AttackTarget)>,
    n: nat,
    id: ObjectId,
)
    requires
        n <= attackers.len(),
        g.has_obj(id),
        forall|i: int, j: int|
            0 <= i < j < attackers.len() ==> (#[trigger] attackers[i]).0 != (
            #[trigger] attackers[j]).0,
    ensures
        ({
            let h = g.attack_all(attackers, n);
            &&& h.players == g.players
            &&& h.objects.len() == g.objects.len()
            &&& h.obj(id).zone == g.obj(id).zone
            &&& (forall|i: int| 0 <= i < n ==> (#[trigger] attackers[i]).0 != id) ==> h.obj(id)
                == g.obj(id)
            &&& forall|i: int|
                0 <= i < n && (#[trigger] attackers[i]).0 == id ==> h.obj(id).attacking == Some(
                    attackers[i].1,
                )
        }),
    decreases n,
{
    if n > 0 {
        lemma_attack_all(g, attackers, (n - 1) as nat, id);
        let a = g.attack_all(attackers, (n - 1) as nat);
        let h = g.attack_all(attackers, n);
        if attackers[n - 1].0 != id {
            assert(h.obj(id) == a.obj(id));
        }
    }
}

/// Every declared attacker attacks what it was declared against, and nothing
/// that was not declared changes.
pub proof fn law_declared_attackers_attack(
    g: GameModel,
    seat: Seat,
    attackers: Seq<(ObjectId, AttackTarget)>,
    k: int,
    id: ObjectId,
)
    requires
        g.has_obj(id),
        0 <= k < attackers.len(),
        g.has_obj(attackers[k].0),
        forall|i: int, j: int|
            0 <= i < j < attackers.len() ==> (#[trigger] attackers[i]).0 != (
            #[trigger] attackers[j]).0,
    ensures
        ({
            let h = g.declare_attackers(seat, attackers);
            &&& h.obj(attackers[k].0).attacking == Some(attackers[k].1)
            &&& (forall|i: int| 0 <= i < attackers.len() ==> (#[trigger] attackers[i]).0 != id)
                ==> h.obj(id) == g.obj(id)
            &&& h.pending is None
        }),
{
    reveal(GameModel::declare_attackers);
    lemma_attack_all(g, attackers, attackers.len(), id);
    lemma_attack_all(g, attackers, attackers.len(), attackers[k].0);
}

/// A block makes the attacker blocked by the blocker and the blocker blocking
/// the attacker, on top of what they were; nothing else changes.
pub proof fn law_blocks_are_remembered(
    g: GameModel,
    b: ObjectId,
    a: ObjectId,
    other: ObjectId,
)
    requires
        g.has_obj(a),
        g.has_obj(b),
        g.has_obj(other),
        a != b,
        other != a,
        other != b,
    ensures
        ({
            let h = g.block_with(b, a);
            &&& h.obj(b) == ObjectModel { blocking: g.obj(b).blocking.push(a), ..g.obj(b) }
            &&& h.obj(a) == ObjectModel {
                blocked: true,
                blocked_by: g.obj(a).blocked_by.push(b),
                ..g.obj(a)
            }
            &&& h.obj(other) == g.obj(other)
            &&& h.players == g.players
        }),
{
}

/// When combat ends, nothing attacks, blocks or is blocked any more.
pub proof fn law_combat_ends(g: GameModel, id: ObjectId)
    requires
        g.has_obj(id),
    ensures
        ({
            let h = g.remove_all_from_combat();
            let o = h.obj(id);
            &&& o.attacking is None
            &&& o.blocking.len() == 0
            &&& !o.blocked
            &&& o.blocked_by.len() == 0
            &&& o.zone == g.obj(id).zone
            &&& o.tapped == g.obj(id).tapped
            &&& o.damage == g.obj(id).damage
            &&& h.players == g.players
            &&& !h.any_attackers()
        }),
{
}

// ----- when damage is dealt -----

/// A creature with first strike deals its damage in the first round only, one
/// with double strike in both, any other in the second only.
pub proof fn law_rounds_of_damage(g: GameModel, id: ObjectId)
    ensures
        ({
            let first = g.has_keyword(id, Keyword::FirstStrike);
            let double = g.has_keyword(id, Keyword::DoubleStrike);
            &&& double ==> g.deals_in_round(id, true) && g.deals_in_round(id, false)
            &&& first && !double ==> g.deals_in_round(id, true) && !g.deals_in_round(id, false)
            &&& !first && !double ==> !g.deals_in_round(id, true) && g.deals_in_round(id, false)
        }),
{
}

/// There is a first round if and only if some creature in combat on the
/// battlefield has first or double strike.
pub proof fn law_when_there_is_a_first_round(g: GameModel)
    requires
        g.objects.len() <= u32::MAX,
    ensures
        g.combat_has_first_strike() <==> exists|id: ObjectId|
            #![trigger g.obj(id)]
            g.has_obj(id) && g.obj(id).zone is Battlefield && (g.obj(id).attacking is Some || g.obj(
                id,
            ).blocking.len() > 0) && (g.has_keyword(id, Keyword::FirstStrike) || g.has_keyword(
                id,
                Keyword::DoubleStrike,
            )),
{
    let ids = g.on_battlefield();
    lemma_zone_ids(g, Zone::Battlefield, g.objects.len());
    if g.combat_has_first_strike() {
        let i = choose|i: int| 0 <= i < ids.len() && g.strikes_first(#[trigger] ids[i]);
        assert(ids.contains(ids[i]));
        assert(g.obj(ids[i]).zone is Battlefield);
    }
    if exists|id: ObjectId|
        #![trigger g.obj(id)]
        g.has_obj(id) && g.obj(id).zone is Battlefield && (g.obj(id).attacking is Some || g.obj(
            id,
        ).blocking.len() > 0) && (g.has_keyword(id, Keyword::FirstStrike) || g.has_keyword(
            id,
            Keyword::DoubleStrike,
        )) {
        let id = choose|id: ObjectId|
            #![trigger g.obj(id)]
            g.has_obj(id) && g.obj(id).zone is Battlefield && (g.obj(id).attacking is Some || g.obj(
                id,
            ).blocking.len() > 0) && (g.has_keyword(id, Keyword::FirstStrike) || g.has_keyword(
                id,
                Keyword::DoubleStrike,
            ));
        assert(ids.contains(id));
        let i = choose|i: int| 0 <= i < ids.len() && ids[i] == id;
        assert(g.strikes_first(ids[i]));
    }
}

/// Lethal damage is one from a source with deathtouch; from any other it is
/// the toughness that is left, at least one.
pub proof fn law_lethal_damage(g: GameModel, a: ObjectId, b: ObjectId, t: i32)
    requires
        g.has_obj(b),
        g.pt(b) is Some,
        g.pt(b).unwrap().1 == t,
        i32::MIN <= t - g.obj(b).damage <= i32::MAX,
    ensures
        g.has_keyword(a, Keyword::Deathtouch) ==> g.lethal_for(a, b) == 1,
        !g.has_keyword(a, Keyword::Deathtouch) && t - g.obj(b).damage >= 1 ==> g.lethal_for(a, b)
            == t - g.obj(b).damage,
        t - g.obj(b).damage < 1 ==> g.lethal_for(a, b) == 1,
{
}

// ----- who is dealt damage -----

/// An unblocked creature deals its power to the player it attacks, if they are
/// still in the game, and nothing to anybody else.
pub proof fn law_unblocked_damage(g: GameModel, a: ObjectId, first: bool, s: Seat, p: i32)
    requires
        g.has_obj(a),
        g.obj(a).attacking == Some(AttackTarget::Player(s)),
        !g.obj(a).blocked,
        g.deals_in_round(a, first),
        g.pt(a) is Some,
        g.pt(a).unwrap().0 == p,
    ensures
        p > 0 && g.turn_order.contains(s) ==> g.attack_packets(a, first) == seq![
            (a, DamageTarget::Player(s), p),
        ],
        p <= 0 || !g.turn_order.contains(s) ==> g.attack_packets(a, first).len() == 0,
{
}

/// A creature that does not attack, has no power or does not deal damage in
/// this round deals none as an attacker.
pub proof fn law_idle_attackers(g: GameModel, a: ObjectId, first: bool)
    ensures
        !g.has_obj(a) || g.obj(a).attacking is None || g.power(a) <= 0 || !g.deals_in_round(a, first)
            ==> g.attack_packets(a, first).len() == 0,
{
}

/// A creature with one blocker and no trample deals all its damage to it; one
/// whose blockers are all gone deals none, unless it has trample.
pub proof fn law_blocked_damage(g: GameModel, a: ObjectId, b: ObjectId, first: bool, s: Seat, p: i32)
    requires
        g.has_obj(a),
        g.obj(a).attacking == Some(AttackTarget::Player(s)),
        g.obj(a).blocked,
        g.deals_in_round(a, first),
        g.pt(a) is Some,
        g.pt(a).unwrap().0 == p,
        p > 0,
    ensures
        g.live_blockers(a) == seq![b] && !g.has_keyword(a, Keyword::Trample) ==> g.attack_packets(
            a,
            first,
        ) == seq![(a, DamageTarget::Object(b), p)],
        g.live_blockers(a).len() == 0 && !g.has_keyword(a, Keyword::Trample) ==> g.attack_packets(
            a,
            first,
        ).len() == 0,
        g.live_blockers(a).len() == 0 && g.has_keyword(a, Keyword::Trample) ==> g.attack_packets(
            a,
            first,
        ) == seq![(a, DamageTarget::Player(s), p)],
{
}

proof fn lemma_block_packets(
    g: GameModel,
    b: ObjectId,
    blocking: Seq<ObjectId>,
    n: nat,
    x: (ObjectId, DamageTarget, i32),
)
    requires
        n <= blocking.len(),
    ensures
        g.block_packets(b, blocking, n).contains(x) <==> x.0 == b && x.2 == g.power(b) && exists|
            i: int,
        |
            0 <= i < n && x.1 == DamageTarget::Object(#[trigger] blocking[i]) && g.in_zone(
                blocking[i],
                Zone::Battlefield,
            ) && g.obj(blocking[i]).attacking is Some,
    decreases n,
{
    if n > 0 {
        lemma_block_packets(g, b, blocking, (n - 1) as nat, x);
        let rest = g.block_packets(b, blocking, (n - 1) as nat);
        let all = g.block_packets(b, blocking, n);
        let a = blocking[n - 1];
        if all.contains(x) {
            let k = choose|k: int| 0 <= k < all.len() && all[k] == x;
            if k < rest.len() {
                assert(rest[k] == x);
                let i = choose|i: int|
                    0 <= i < n - 1 && x.1 == DamageTarget::Object(#[trigger] blocking[i])
                        && g.in_zone(blocking[i], Zone::Battlefield) && g.obj(
                        blocking[i],
                    ).attacking is Some;
                assert(0 <= i < n && x.1 == DamageTarget::Object(blocking[i]));
            } else {
                assert(x.1 == DamageTarget::Object(blocking[n - 1]));
            }
        }
        if rest.contains(x) {
            let k = choose|k: int| 0 <= k < rest.len() && rest[k] == x;
            assert(all[k] == x);
        }
        if g.in_zone(a, Zone::Battlefield) && g.obj(a).attacking is Some {
            assert(all[rest.len() as int] == (b, DamageTarget::Object(a), g.power(b)));
        }
    }
}

/// A blocker deals its power to every attacker it blocks that is still there,
/// and to nobody else.
pub proof fn law_blockers_hit_back(
    g: GameModel,
    b: ObjectId,
    x: (ObjectId, DamageTarget, i32),
)
    ensures
        g.block_packets(b, g.obj(b).blocking, g.obj(b).blocking.len()).contains(x) <==> x.0 == b
            && x.2 == g.power(b) && exists|i: int|
            0 <= i < g.obj(b).blocking.len() && x.1 == DamageTarget::Object(
                #[trigger] g.obj(b).blocking[i],
            ) && g.in_zone(g.obj(b).blocking[i], Zone::Battlefield) && g.obj(
                g.obj(b).blocking[i],
            ).attacking is Some,
{
    lemma_block_packets(g, b, g.obj(b).blocking, g.obj(b).blocking.len(), x);
}

// ----- dividing damage -----

spec fn total(xs: Seq<(DamageTarget, i32)>, n: nat) -> int
    decreases n,
{
    if n == 0 || n > xs.len() {
        0
    } else {
        total(xs, (n - 1) as nat) + xs[n - 1].1
    }
}

proof fn lemma_recipients(xs: Seq<(DamageTarget, i32)>, n: nat)
    requires
        n <= xs.len(),
    ensures
        recipients(xs, n).len() == n,
        forall|i: int| 0 <= i < n ==> #[trigger] recipients(xs, n)[i] == xs[i].0,
    decreases n,
{
    if n > 0 {
        lemma_recipients(xs, (n - 1) as nat);
    }
}

impl GameModel {
    /// An attacker may give some of its damage there: to a creature that still
    /// blocks it, or with trample to the player it attacks.
    pub open spec fn may_hit(self, a: ObjectId, to: DamageTarget) -> bool {
        match to {
            DamageTarget::Object(b) => self.live_blockers(a).contains(b),
            DamageTarget::Player(s) => self.has_keyword(a, Keyword::Trample) && self.obj(
                a,
            ).attacking == Some(AttackTarget::Player(s)),
        }
    }
}

proof fn lemma_division(g: GameModel, a: ObjectId, xs: Seq<(DamageTarget, i32)>, n: nat)
    requires
        n <= xs.len(),
        g.has_obj(a),
    ensures
        g.division_n(a, xs, n) is Ok <==> {
            &&& forall|i: int|
                0 <= i < n ==> (#[trigger] xs[i]).1 >= 0 && g.may_hit(a, xs[i].0)
            &&& forall|i: int, j: int|
                0 <= i < j < n ==> (#[trigger] xs[i]).0 != (#[trigger] xs[j]).0
        },
        g.division_n(a, xs, n) matches Ok((sum, to_player)) ==> {
            &&& total(xs, n) >= 0
            &&& sum == (if total(xs, n) <= i32::MAX {
                total(xs, n)
            } else {
                i32::MAX as int
            })
            &&& to_player >= 0
            &&& to_player > 0 <==> exists|i: int|
                0 <= i < n && (#[trigger] xs[i]).0 is Player && xs[i].1 > 0
        },
    decreases n,
{
    if n > 0 {
        lemma_division(g, a, xs, (n - 1) as nat);
        lemma_recipients(xs, (n - 1) as nat);
        let was = g.division_n(a, xs, (n - 1) as nat);
        let rs = recipients(xs, (n - 1) as nat);
        let (to, amount) = xs[n - 1];
        assert(rs.contains(to) <==> exists|i: int| 0 <= i < n - 1 && (#[trigger] xs[i]).0 == to) by {
            if rs.contains(to) {
                let i = choose|i: int| 0 <= i < rs.len() && rs[i] == to;
                assert(xs[i].0 == to);
            }
            if exists|i: int| 0 <= i < n - 1 && (#[trigger] xs[i]).0 == to {
                let i = choose|i: int| 0 <= i < n - 1 && (#[trigger] xs[i]).0 == to;
                assert(rs[i] == to);
            }
        }
        assert(g.entry_error(a, xs, (n - 1) as nat) is None <==> amount >= 0 && g.may_hit(a, to)
            && !rs.contains(to));
        assert(xs[n - 1] == (to, amount));
        if was is Ok && g.entry_error(a, xs, (n - 1) as nat) is None {
            let tp = was->Ok_0.1;
            if tp > 0 {
                let i = choose|i: int|
                    0 <= i < n - 1 && (#[trigger] xs[i]).0 is Player && xs[i].1 > 0;
                assert(xs[i].0 is Player);
            }
        }
    }
}

proof fn lemma_underfed(g: GameModel, a: ObjectId, xs: Seq<(DamageTarget, i32)>, i: nat)
    ensures
        g.underfed(a, xs, i) is None <==> forall|k: int|
            i <= k < g.live_blockers(a).len() ==> given_to(
                xs,
                DamageTarget::Object(#[trigger] g.live_blockers(a)[k]),
                0,
            ) >= g.lethal_for(a, g.live_blockers(a)[k]),
    decreases g.live_blockers(a).len() - i,
{
    if i < g.live_blockers(a).len() {
        lemma_underfed(g, a, xs, i + 1);
    }
}

/// A division of an attacker's damage is allowed if and only if it gives out
/// exactly its power, only to creatures that still block it or, with trample,
/// to the player it attacks, to each at most once and never less than nothing;
/// and to the player only once every blocker gets lethal damage.
pub proof fn law_allowed_divisions(g: GameModel, a: ObjectId, xs: Seq<(DamageTarget, i32)>)
    requires
        g.has_obj(a),
        g.strength(a) < i32::MAX,
    ensures
        g.division_error(a, xs) is None <==> {
            &&& forall|i: int|
                0 <= i < xs.len() ==> (#[trigger] xs[i]).1 >= 0 && g.may_hit(a, xs[i].0)
            &&& forall|i: int, j: int|
                0 <= i < j < xs.len() ==> (#[trigger] xs[i]).0 != (#[trigger] xs[j]).0
            &&& xs.map_values(|x: (DamageTarget, i32)| x.1 as int).fold_left(
                0int,
                |p: int, q: int| p + q,
            ) == g.strength(a)
            &&& (exists|i: int|
                0 <= i < xs.len() && (#[trigger] xs[i]).0 is Player && xs[i].1 > 0) ==> forall|
                k: int,
            |
                0 <= k < g.live_blockers(a).len() ==> given_to(
                    xs,
                    DamageTarget::Object(#[trigger] g.live_blockers(a)[k]),
                    0,
                ) >= g.lethal_for(a, g.live_blockers(a)[k])
        },
{
    lemma_division(g, a, xs, xs.len());
    lemma_underfed(g, a, xs, 0);
    lemma_total(xs, xs.len());
    let ys = xs.map_values(|x: (DamageTarget, i32)| x.1 as int);
    assert(ys.subrange(0, ys.len() as int) =~= ys);
}

proof fn lemma_total(xs: Seq<(DamageTarget, i32)>, n: nat)
    requires
        n <= xs.len(),
    ensures
        xs.map_values(|x: (DamageTarget, i32)| x.1 as int).subrange(0, n as int).fold_left(
            0int,
            |p: int, q: int| p + q,
        ) == total(xs, n),
    decreases n,
{
    let ys = xs.map_values(|x: (DamageTarget, i32)| x.1 as int);
    let cut = ys.subrange(0, n as int);
    if n > 0 {
        lemma_total(xs, (n - 1) as nat);
        assert(cut.drop_last() =~= ys.subrange(0, n - 1));
    }
}

// ----- declaring -----

proof fn lemma_attack_error(g: GameModel, s: Seat, xs: Seq<(ObjectId, AttackTarget)>, i: nat)
    requires
        i <= xs.len(),
    ensures
        g.attack_error(s, xs, i) is None <==> forall|k: nat|
            i <= k < xs.len() ==> #[trigger] g.attack_entry_error(s, xs, k) is None,
    decreases xs.len() - i,
{
    if i < xs.len() {
        lemma_attack_error(g, s, xs, i + 1);
        assert(g.attack_entry_error(s, xs, i) is None || g.attack_entry_error(s, xs, i) is Some);
    }
}

/// An attack may be declared if and only if every attacker may attack, attacks
/// another player who is in the game, and is declared once.
pub proof fn law_allowed_attacks(g: GameModel, s: Seat, xs: Seq<(ObjectId, AttackTarget)>)
    requires
        g.pending == Some(PendingModel::DeclareAttackers { seat: s }),
    ensures
        g.declaration_error(s, ActionModel::DeclareAttackers { attackers: xs }) is None <==> {
            &&& forall|k: int|
                0 <= k < xs.len() ==> g.attack_candidates(s).contains((#[trigger] xs[k]).0)
            &&& forall|k: int|
                0 <= k < xs.len() ==> match (#[trigger] xs[k]).1 {
                    AttackTarget::Player(t) => t != s && g.turn_order.contains(t),
                    AttackTarget::Planeswalker(_) => false,
                }
            &&& forall|j: int, k: int|
                0 <= j < k < xs.len() ==> (#[trigger] xs[j]).0 != (#[trigger] xs[k]).0
        },
{
    lemma_attack_error(g, s, xs, 0);
    if g.attack_error(s, xs, 0) is None {
        assert forall|k: int| 0 <= k < xs.len() implies g.attack_candidates(s).contains(
            (#[trigger] xs[k]).0,
        ) && match xs[k].1 {
            AttackTarget::Player(t) => t != s && g.turn_order.contains(t),
            AttackTarget::Planeswalker(_) => false,
        } by {
            assert(g.attack_entry_error(s, xs, k as nat) is None);
        }
        assert forall|j: int, k: int| 0 <= j < k < xs.len() implies (#[trigger] xs[j]).0 != (
        #[trigger] xs[k]).0 by {
            assert(g.attack_entry_error(s, xs, k as nat) is None);
            assert(!GameModel::named_before(xs, k as nat));
        }
    } else {
        let k = choose|k: nat|
            0 <= k < xs.len() && !(#[trigger] g.attack_entry_error(s, xs, k) is None);
        let x = xs[k as int];
        if GameModel::named_before(xs, k) {
            let j = choose|j: int| 0 <= j < k && (#[trigger] xs[j]).0 == xs[k as int].0;
            assert(xs[j].0 == xs[k as int].0);
        }
    }
}

proof fn lemma_block_error(g: GameModel, s: Seat, xs: Seq<(ObjectId, ObjectId)>, i: nat)
    requires
        i <= xs.len(),
    ensures
        g.block_error(s, xs, i) is None <==> g.menace_ok(xs, g.attackers_against(s)) && forall|
            k: nat,
        |
            i <= k < xs.len() ==> #[trigger] g.block_entry_error(s, xs, k) is None,
    decreases xs.len() - i,
{
    if i < xs.len() {
        lemma_block_error(g, s, xs, i + 1);
        assert(g.block_entry_error(s, xs, i) is None || g.block_entry_error(s, xs, i) is Some);
    }
}

/// Blocks may be declared if and only if every blocker may block, blocks one
/// attacker, which attacks the player and can be blocked by it, and menace is
/// respected.
pub proof fn law_allowed_blocks(
    g: GameModel,
    s: Seat,
    xs: Seq<(ObjectId, ObjectId)>,
    remaining: Seq<Seat>,
)
    requires
        g.pending == Some(PendingModel::DeclareBlockers { seat: s, remaining }),
    ensures
        g.declaration_error(s, ActionModel::DeclareBlockers { blocks: xs }) is None <==> {
            &&& forall|k: int|
                0 <= k < xs.len() ==> g.block_candidates(s).contains((#[trigger] xs[k]).0)
                    && g.attackers_against(s).contains(xs[k].1) && g.can_block(xs[k].0, xs[k].1)
            &&& forall|j: int, k: int|
                0 <= j < k < xs.len() ==> (#[trigger] xs[j]).0 != (#[trigger] xs[k]).0
            &&& g.menace_ok(xs, g.attackers_against(s))
        },
{
    lemma_block_error(g, s, xs, 0);
    if g.block_error(s, xs, 0) is None {
        assert forall|k: int| 0 <= k < xs.len() implies g.block_candidates(s).contains(
            (#[trigger] xs[k]).0,
        ) && g.attackers_against(s).contains(xs[k].1) && g.can_block(xs[k].0, xs[k].1) by {
            assert(g.block_entry_error(s, xs, k as nat) is None);
        }
        assert forall|j: int, k: int| 0 <= j < k < xs.len() implies (#[trigger] xs[j]).0 != (
        #[trigger] xs[k]).0 by {
            assert(g.block_entry_error(s, xs, k as nat) is None);
            assert(!GameModel::named_before(xs, k as nat));
        }
    } else if g.menace_ok(xs, g.attackers_against(s)) {
        let k = choose|k: nat|
            0 <= k < xs.len() && !(#[trigger] g.block_entry_error(s, xs, k) is None);
        let x = xs[k as int];
        if GameModel::named_before(xs, k) {
            let j = choose|j: int| 0 <= j < k && (#[trigger] xs[j]).0 == xs[k as int].0;
            assert(xs[j].0 == xs[k as int].0);
        }
    }
}

/// Only the player who is asked may answer, and only what is asked.
pub proof fn law_declarations_answer_what_is_asked(g: GameModel, s: Seat, a: ActionModel)
    requires
        g.declaration_error(s, a) is None,
    ensures
        g.pending matches Some(p) && p.who() == s,
        a is DeclareAttackers ==> g.pending->0 is DeclareAttackers,
        a is DeclareBlockers ==> g.pending->0 is DeclareBlockers,
        a is AssignCombatDamage ==> g.pending->0 is AssignDamage,
        a is DeclareAttackers || a is DeclareBlockers || a is AssignCombatDamage,
{
}

// ----- what combat does -----

proof fn lemma_deal_packets(
    g: GameModel,
    ps: Seq<(ObjectId, DamageTarget, i32)>,
    n: nat,
    id: ObjectId,
)
    requires
        n <= ps.len(),
        g.has_obj(id),
        forall|i: int| 0 <= i < ps.len() ==> (#[trigger] ps[i]).2 >= 0,
    ensures
        ({
            let h = g.deal_packets(ps, n);
            &&& h.objects.len() == g.objects.len()
            &&& h.cards == g.cards && h.tokens == g.tokens
            &&& h.obj(id).zone == g.obj(id).zone
            &&& h.obj(id).card == g.obj(id).card
            &&& h.obj(id).tapped == g.obj(id).tapped
            &&& h.obj(id).damage >= g.obj(id).damage
            &&& !(exists|i: int|
                0 <= i < n && (#[trigger] ps[i]).1 == DamageTarget::Object(id) && ps[i].2 > 0)
                ==> h.obj(id) == g.obj(id)
            &&& g.obj(id).zone is Battlefield && g.creature(id) ==> forall|i: int|
                0 <= i < n && (#[trigger] ps[i]).1 == DamageTarget::Object(id) ==> h.obj(id).damage
                    >= ps[i].2 + g.obj(id).damage || h.obj(id).damage == i32::MAX
        }),
    decreases n,
{
    if n > 0 {
        lemma_deal_packets(g, ps, (n - 1) as nat, id);
        let p = g.deal_packets(ps, (n - 1) as nat);
        let h = g.deal_packets(ps, n);
        let (source, to, amount) = ps[n - 1];
        assert(p.creature(id) == g.creature(id));
        assert(ps[n - 1].2 >= 0);
        if to != DamageTarget::Object(id) || amount <= 0 {
            assert(h.obj(id) == p.obj(id));
        } else {
            assert(ps[n - 1].1 == DamageTarget::Object(id));
        }
        if exists|i: int|
            0 <= i < n - 1 && (#[trigger] ps[i]).1 == DamageTarget::Object(id) && ps[i].2 > 0 {
            let i = choose|i: int|
                0 <= i < n - 1 && (#[trigger] ps[i]).1 == DamageTarget::Object(id) && ps[i].2 > 0;
            assert(ps[i].1 == DamageTarget::Object(id));
        }
    }
}

/// Combat damage is marked on every creature it is dealt to, all at once, and
/// on no other; nothing moves before state-based actions are done.
pub proof fn law_combat_damage_is_marked(
    g: GameModel,
    ps: Seq<(ObjectId, DamageTarget, i32)>,
    id: ObjectId,
    i: int,
)
    requires
        g.has_obj(id),
        forall|k: int| 0 <= k < ps.len() ==> (#[trigger] ps[k]).2 >= 0,
        0 <= i < ps.len(),
    ensures
        ({
            let h = g.deal_packets(ps, ps.len());
            &&& h.obj(id).zone == g.obj(id).zone
            &&& (forall|k: int|
                0 <= k < ps.len() ==> (#[trigger] ps[k]).1 != DamageTarget::Object(id)) ==> h.obj(
                id,
            ) == g.obj(id)
            &&& ps[i].1 == DamageTarget::Object(id) && g.obj(id).zone is Battlefield && g.creature(
                id,
            ) ==> h.obj(id).damage >= g.obj(id).damage + ps[i].2 || h.obj(id).damage == i32::MAX
        }),
{
    lemma_deal_packets(g, ps, ps.len(), id);
}

// ----- rounds of damage -----

/// A round of damage asks for divisions first, one attacker after the other, and
/// deals all damage of that round once none is left to ask for.
pub proof fn law_damage_waits_for_divisions(g: GameModel, queue: Seq<ObjectId>, first: bool)
    ensures
        ({
            let h = g.continue_damage_assignment(queue, first);
            &&& queue.len() > 0 ==> (h.pending matches Some(
                PendingModel::AssignDamage { attacker, queue: rest, .. },
            ) && attacker == queue[0] && rest == queue.drop_first()) && h.objects == g.objects
                && h.players == g.players
            &&& queue.len() > 0 && g.has_obj(queue[0]) ==> (h.pending matches Some(p) && p.who()
                == g.obj(queue[0]).controller)
            &&& queue.len() == 0 ==> h.objects == (GameModel {
                pending: None,
                ..g
            }).deal_combat_damage(first).objects && h.damage_assignments.len() == 0
        }),
{
}

/// How to divide damage is asked for exactly where there is something to decide:
/// the attacker has power, deals damage in this round, and two or more creatures
/// block it, or one and it has trample.
pub proof fn law_when_divisions_are_asked_for(g: GameModel, a: ObjectId, first: bool)
    ensures
        g.needs_division(a, first) <==> {
            &&& g.power(a) > 0
            &&& g.deals_in_round(a, first)
            &&& g.live_blockers(a).len() >= 2 || (g.live_blockers(a).len() == 1 && g.has_keyword(
                a,
                Keyword::Trample,
            ))
        },
{
}

// ----- all damage of a round -----

proof fn lemma_attack_packets_n(
    g: GameModel,
    ids: Seq<ObjectId>,
    first: bool,
    n: nat,
    x: (ObjectId, DamageTarget, i32),
)
    requires
        n <= ids.len(),
    ensures
        g.attack_packets_n(ids, first, n).contains(x) <==> exists|i: int|
            0 <= i < n && g.attack_packets(#[trigger] ids[i], first).contains(x),
    decreases n,
{
    if n > 0 {
        lemma_attack_packets_n(g, ids, first, (n - 1) as nat, x);
        let rest = g.attack_packets_n(ids, first, (n - 1) as nat);
        let own = g.attack_packets(ids[n - 1], first);
        let all = g.attack_packets_n(ids, first, n);
        if all.contains(x) {
            let k = choose|k: int| 0 <= k < all.len() && all[k] == x;
            if k < rest.len() {
                assert(rest[k] == x);
                let i = choose|i: int|
                    0 <= i < n - 1 && g.attack_packets(#[trigger] ids[i], first).contains(x);
                assert(0 <= i < n && g.attack_packets(ids[i], first).contains(x));
            } else {
                assert(own[k - rest.len()] == x);
                assert(g.attack_packets(ids[n - 1], first).contains(x));
            }
        }
        if rest.contains(x) {
            let k = choose|k: int| 0 <= k < rest.len() && rest[k] == x;
            assert(all[k] == x);
        }
        if own.contains(x) {
            let k = choose|k: int| 0 <= k < own.len() && own[k] == x;
            assert(all[rest.len() + k] == x);
        }
    }
}

/// Every attacking creature on the battlefield deals its damage in the round.
pub proof fn law_every_attacker_deals_damage(
    g: GameModel,
    first: bool,
    a: ObjectId,
    x: (ObjectId, DamageTarget, i32),
)
    requires
        g.objects.len() <= u32::MAX,
        g.has_obj(a),
        g.obj(a).zone is Battlefield,
        g.obj(a).attacking is Some,
        g.attack_packets(a, first).contains(x),
    ensures
        g.combat_packets(first).contains(x),
{
    let ids = g.attacking_creatures();
    law_who_attacks(g, g.active_player, a);
    let i = choose|i: int| 0 <= i < ids.len() && ids[i] == a;
    assert(g.attack_packets(ids[i], first).contains(x));
    lemma_attack_packets_n(g, ids, first, ids.len(), x);
    let one = g.attack_packets_n(ids, first, ids.len());
    let k = choose|k: int| 0 <= k < one.len() && one[k] == x;
    assert(g.combat_packets(first)[k] == x);
}

proof fn lemma_block_packets_n(
    g: GameModel,
    ids: Seq<ObjectId>,
    first: bool,
    n: nat,
    i: int,
    x: (ObjectId, DamageTarget, i32),
)
    requires
        n <= ids.len(),
        0 <= i < n,
        g.has_obj(ids[i]),
        g.deals_in_round(ids[i], first),
        g.power(ids[i]) > 0,
        g.block_packets(ids[i], g.obj(ids[i]).blocking, g.obj(ids[i]).blocking.len()).contains(x),
    ensures
        g.block_packets_n(ids, first, n).contains(x),
    decreases n,
{
    let rest = g.block_packets_n(ids, first, (n - 1) as nat);
    let all = g.block_packets_n(ids, first, n);
    let b = ids[n - 1];
    let own = g.block_packets(b, g.obj(b).blocking, g.obj(b).blocking.len());
    if i < n - 1 {
        lemma_block_packets_n(g, ids, first, (n - 1) as nat, i, x);
        let k = choose|k: int| 0 <= k < rest.len() && rest[k] == x;
        assert(all[k] == x);
    } else {
        let k = choose|k: int| 0 <= k < own.len() && own[k] == x;
        assert(all[rest.len() + k] == x);
    }
}

/// Every blocker that deals damage in the round deals its power to each attacker
/// it blocks.
pub proof fn law_every_blocker_deals_damage(
    g: GameModel,
    first: bool,
    b: ObjectId,
    a: ObjectId,
)
    requires
        g.objects.len() <= u32::MAX,
        g.has_obj(b),
        g.obj(b).zone is Battlefield,
        g.obj(b).blocking.contains(a),
        g.deals_in_round(b, first),
        g.power(b) > 0,
        g.has_obj(a),
        g.obj(a).zone is Battlefield,
        g.obj(a).attacking is Some,
    ensures
        g.combat_packets(first).contains((b, DamageTarget::Object(a), g.power(b))),
{
    let x = (b, DamageTarget::Object(a), g.power(b));
    let ids = g.on_battlefield();
    lemma_zone_ids(g, Zone::Battlefield, g.objects.len());
    assert(ids.contains(b));
    let i = choose|i: int| 0 <= i < ids.len() && ids[i] == b;
    let blocking = g.obj(b).blocking;
    let j = choose|j: int| 0 <= j < blocking.len() && blocking[j] == a;
    lemma_block_packets(g, b, blocking, blocking.len(), x);
    assert(x.1 == DamageTarget::Object(blocking[j]));
    lemma_block_packets_n(g, ids, first, ids.len(), i, x);
    let attackers = g.attacking_creatures();
    let one = g.attack_packets_n(attackers, first, attackers.len());
    let two = g.block_packets_n(ids, first, ids.len());
    let k = choose|k: int| 0 <= k < two.len() && two[k] == x;
    assert(g.combat_packets(first)[one.len() + k] == x);
}

proof fn lemma_assigned(xs: Seq<AssignedModel>, a: ObjectId, i: nat)
    ensures
        match assigned_at(xs, a, i) {
            Some(k) => i <= k < xs.len() && xs[k as int].attacker == a && forall|j: int|
                i <= j < k ==> (#[trigger] xs[j]).attacker != a,
            None => forall|j: int| i <= j < xs.len() ==> (#[trigger] xs[j]).attacker != a,
        },
    decreases xs.len() - i,
{
    if i < xs.len() && xs[i as int].attacker != a {
        lemma_assigned(xs, a, i + 1);
    }
}

/// A division is remembered for its attacker, in place of an earlier one, and
/// for no other.
pub proof fn law_divisions_are_remembered(
    g: GameModel,
    a: ObjectId,
    split: Seq<(DamageTarget, i32)>,
    other: ObjectId,
)
    requires
        other != a,
    ensures
        g.assign(a, split).assignment_of(a) == Some(split),
        g.assign(a, split).assignment_of(other) == g.assignment_of(other),
{
    let xs = g.damage_assignments;
    let ys = g.assign(a, split).damage_assignments;
    lemma_assigned(xs, a, 0);
    lemma_assigned(ys, a, 0);
    lemma_assigned(xs, other, 0);
    lemma_assigned(ys, other, 0);
    let k = match assigned_at(xs, a, 0) {
        Some(k) => k as int,
        None => xs.len() as int,
    };
    assert(ys[k].attacker == a);
    assert(ys[k].split == split);
    assert(forall|j: int| 0 <= j < xs.len() && j != k ==> ys[j] == xs[j]);
    if let Some(m) = assigned_at(xs, other, 0) {
        assert(ys[m as int].attacker == other);
        assert(xs[m as int].attacker == other);
    }
    if let Some(m) = assigned_at(ys, other, 0) {
        assert(m != k);
        assert(ys[m as int] == xs[m as int]);
    }
    if let Some(m) = assigned_at(ys, a, 0) {
        if m != k {
            assert(ys[m as int] == xs[m as int]);
        }
    }
}

// ----- blocks -----

proof fn lemma_block_all(g: GameModel, bs: Seq<(ObjectId, ObjectId)>, n: nat, id: ObjectId)
    requires
        n <= bs.len(),
        g.has_obj(id),
        forall|i: int| 0 <= i < bs.len() ==> (#[trigger] bs[i]).0 != bs[i].1,
    ensures
        ({
            let h = g.block_all(bs, n);
            let was = g.obj(id);
            let now = h.obj(id);
            &&& h.objects.len() == g.objects.len()
            &&& h.players == g.players
            &&& now.zone == was.zone
            &&& now.tapped == was.tapped
            &&& now.blocked <==> was.blocked || exists|i: int|
                0 <= i < n && (#[trigger] bs[i]).1 == id
            &&& forall|a: ObjectId| #[trigger]
                now.blocking.contains(a) <==> was.blocking.contains(a) || exists|i: int|
                    0 <= i < n && #[trigger] bs[i] == (id, a)
            &&& forall|b: ObjectId| #[trigger]
                now.blocked_by.contains(b) <==> was.blocked_by.contains(b) || exists|i: int|
                    0 <= i < n && #[trigger] bs[i] == (b, id)
        }),
    decreases n,
{
    if n > 0 {
        lemma_block_all(g, bs, (n - 1) as nat, id);
        let p = g.block_all(bs, (n - 1) as nat);
        let h = g.block_all(bs, n);
        let (b, a) = bs[n - 1];
        let was = p.obj(id);
        let now = h.obj(id);
        assert(bs[n - 1].0 != bs[n - 1].1);
        assert(now.blocking == (if id == b {
            was.blocking.push(a)
        } else {
            was.blocking
        }));
        assert(now.blocked_by == (if id == a {
            was.blocked_by.push(b)
        } else {
            was.blocked_by
        }));
        assert(now.blocked == (was.blocked || id == a));
        assert forall|x: ObjectId| #[trigger] now.blocking.contains(x) <==> g.obj(
            id,
        ).blocking.contains(x) || exists|i: int| 0 <= i < n && #[trigger] bs[i] == (id, x) by {
            lemma_push_contains(was.blocking, a, x);
            if exists|i: int| 0 <= i < n && #[trigger] bs[i] == (id, x) {
                let i = choose|i: int| 0 <= i < n && #[trigger] bs[i] == (id, x);
                if i < n - 1 {
                    assert(0 <= i < n - 1 && bs[i] == (id, x));
                }
            }
            if exists|i: int| 0 <= i < n - 1 && #[trigger] bs[i] == (id, x) {
                let i = choose|i: int| 0 <= i < n - 1 && #[trigger] bs[i] == (id, x);
                assert(0 <= i < n && bs[i] == (id, x));
            }
            if id == b && x == a {
                assert(bs[n - 1] == (id, x));
            }
        }
        assert forall|x: ObjectId| #[trigger] now.blocked_by.contains(x) <==> g.obj(
            id,
        ).blocked_by.contains(x) || exists|i: int| 0 <= i < n && #[trigger] bs[i] == (x, id) by {
            lemma_push_contains(was.blocked_by, b, x);
            if exists|i: int| 0 <= i < n && #[trigger] bs[i] == (x, id) {
                let i = choose|i: int| 0 <= i < n && #[trigger] bs[i] == (x, id);
                if i < n - 1 {
                    assert(0 <= i < n - 1 && bs[i] == (x, id));
                }
            }
            if exists|i: int| 0 <= i < n - 1 && #[trigger] bs[i] == (x, id) {
                let i = choose|i: int| 0 <= i < n - 1 && #[trigger] bs[i] == (x, id);
                assert(0 <= i < n && bs[i] == (x, id));
            }
            if id == a && x == b {
                assert(bs[n - 1] == (x, id));
            }
        }
        if exists|i: int| 0 <= i < n - 1 && (#[trigger] bs[i]).1 == id {
            let i = choose|i: int| 0 <= i < n - 1 && (#[trigger] bs[i]).1 == id;
            assert(0 <= i < n && bs[i].1 == id);
        }
        if id == a {
            assert(bs[n - 1].1 == id);
        }
    }
}

proof fn lemma_push_contains(s: Seq<ObjectId>, x: ObjectId, y: ObjectId)
    ensures
        s.push(x).contains(y) <==> s.contains(y) || y == x,
{
    if s.contains(y) {
        let i = choose|i: int| 0 <= i < s.len() && s[i] == y;
        assert(s.push(x)[i] == y);
    }
    assert(s.push(x)[s.len() as int] == x);
    if s.push(x).contains(y) && y != x {
        let i = choose|i: int| 0 <= i < s.push(x).len() && s.push(x)[i] == y;
        assert(s[i] == y);
    }
}

/// Declared blocks are what they say: a creature is blocked if and only if it was
/// or one of the blocks names it, by whoever they name, and blocks whomever they
/// say; nothing else about it changes.
pub proof fn law_declared_blocks(
    g: GameModel,
    bs: Seq<(ObjectId, ObjectId)>,
    id: ObjectId,
    other: ObjectId,
)
    requires
        g.has_obj(id),
        forall|i: int| 0 <= i < bs.len() ==> (#[trigger] bs[i]).0 != bs[i].1,
    ensures
        ({
            let h = g.block_all(bs, bs.len());
            let was = g.obj(id);
            let now = h.obj(id);
            &&& now.zone == was.zone
            &&& now.tapped == was.tapped
            &&& now.blocked <==> was.blocked || exists|i: int|
                0 <= i < bs.len() && (#[trigger] bs[i]).1 == id
            &&& now.blocking.contains(other) <==> was.blocking.contains(other) || bs.contains(
                (id, other),
            )
            &&& now.blocked_by.contains(other) <==> was.blocked_by.contains(other) || bs.contains(
                (other, id),
            )
        }),
{
    lemma_block_all(g, bs, bs.len(), id);
    assert(bs.contains((id, other)) <==> exists|i: int|
        0 <= i < bs.len() && #[trigger] bs[i] == (id, other));
    assert(bs.contains((other, id)) <==> exists|i: int|
        0 <= i < bs.len() && #[trigger] bs[i] == (other, id));
}

} // verus!
