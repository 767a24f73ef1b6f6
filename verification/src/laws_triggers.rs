//! Which triggers fire on what, told by the event, the card that watches and
//! the players its pattern refers to.
use crate::action::{AttackTarget, DamageTarget, Target};
use crate::event::{EventFacts, EventModel};
use crate::ir::{DelayedAt, EventPattern, Filter, PlayerRef};
use crate::state::{CtxModel, DelayedModel, FiredKindModel, FiredModel, GameModel, KindModel};
use crate::triggers::{attacks_of, blocked_in, blocks_of, due, happened, line_slot, not_due, turn_place, Occurred};
use crate::types::{Keyword, ObjectId, Phase, Seat};
use std::sync::Arc;
use vstd::prelude::*;

verus! {

// ----- what patterns match -----

impl GameModel {
    /// The pattern matches something that the event amounts to.
    pub open spec fn is_heard(
        self,
        e: EventFacts,
        pattern: EventPattern,
        watcher: ObjectId,
        ctx: CtxModel,
    ) -> bool {
        let os = happened(e, self.active_player);
        exists|i: int| 0 <= i < os.len() && self.event_matches(pattern, #[trigger] os[i], watcher, ctx)
    }
}

/// "At the beginning of the upkeep", "of the end step" and "of combat" answer
/// to the start of just that step, and only where the player whose turn it is
/// is among those meant.
pub proof fn law_steps_are_told_apart(
    g: GameModel,
    phase: Phase,
    whose: PlayerRef,
    watcher: ObjectId,
    ctx: CtxModel,
)
    ensures
        ({
            let e = EventModel::PhaseChanged { phase };
            let meant = g.players_of(whose, ctx).contains(g.active_player);
            &&& g.is_heard(e, EventPattern::Upkeep(whose), watcher, ctx) <==> phase == Phase::Upkeep
                && meant
            &&& g.is_heard(e, EventPattern::EndStep(whose), watcher, ctx) <==> phase == Phase::End
                && meant
            &&& g.is_heard(e, EventPattern::BeginCombat(whose), watcher, ctx) <==> phase
                == Phase::BeginCombat && meant
        }),
{
    let e: EventFacts = EventModel::PhaseChanged { phase };
    let os = happened(e, g.active_player);
    if os.len() > 0 {
        assert(os[0] == (Occurred::Step { phase, active: g.active_player }));
    }
}

/// A pattern for a step matches an occurrence if and only if that is the step
/// that begins and its player is among those meant. So no two of them match
/// the same occurrence.
pub proof fn law_step_patterns_never_agree(
    g: GameModel,
    o: Occurred,
    phase: Phase,
    active: Seat,
    p: PlayerRef,
    q: PlayerRef,
    r: PlayerRef,
    watcher: ObjectId,
    ctx: CtxModel,
)
    ensures
        ({
            let step = Occurred::Step { phase, active };
            &&& g.event_matches(EventPattern::Upkeep(p), step, watcher, ctx) <==> phase
                == Phase::Upkeep && g.players_of(p, ctx).contains(active)
            &&& g.event_matches(EventPattern::EndStep(q), step, watcher, ctx) <==> phase
                == Phase::End && g.players_of(q, ctx).contains(active)
            &&& g.event_matches(EventPattern::BeginCombat(r), step, watcher, ctx) <==> phase
                == Phase::BeginCombat && g.players_of(r, ctx).contains(active)
        }),
        ({
            let u = g.event_matches(EventPattern::Upkeep(p), o, watcher, ctx);
            let e = g.event_matches(EventPattern::EndStep(q), o, watcher, ctx);
            let c = g.event_matches(EventPattern::BeginCombat(r), o, watcher, ctx);
            &&& !(u && e)
            &&& !(u && c)
            &&& !(e && c)
            &&& u || e || c ==> o is Step
        }),
{
}

/// "When this enters", "dies", "attacks", "becomes tapped": the card itself,
/// doing just that.
pub proof fn law_cards_watch_themselves(g: GameModel, o: Occurred, w: ObjectId, ctx: CtxModel)
    ensures
        g.event_matches(EventPattern::ThisEnters, o, w, ctx) <==> o == Occurred::Enters(w),
        g.event_matches(EventPattern::ThisDies, o, w, ctx) <==> o == Occurred::Dies(w),
        g.event_matches(EventPattern::ThisAttacks, o, w, ctx) <==> o == Occurred::Attacks(w),
        g.event_matches(EventPattern::ThisBecomesTapped, o, w, ctx) <==> o == Occurred::Tapped(w),
        g.event_matches(EventPattern::ThisBlocks, o, w, ctx) <==> exists|a: ObjectId|
            o == (Occurred::Blocks { blocker: w, attacker: a }),
        g.event_matches(EventPattern::ThisBecomesBlocked, o, w, ctx) <==> exists|b: ObjectId|
            o == (Occurred::BecomesBlocked { attacker: w, blocker: b }),
        g.event_matches(EventPattern::ThisDealsCombatDamageToPlayer, o, w, ctx) <==> exists|
            s: Seat,
        |
            o == (Occurred::CombatDamageToPlayer { source: w, player: s }),
{
    if let Occurred::Blocks { blocker, attacker } = o {
        assert(blocker == w ==> o == (Occurred::Blocks { blocker: w, attacker }));
    }
    if let Occurred::BecomesBlocked { attacker, blocker } = o {
        assert(attacker == w ==> o == (Occurred::BecomesBlocked { attacker: w, blocker }));
    }
    if let Occurred::CombatDamageToPlayer { source, player } = o {
        assert(source == w ==> o == (Occurred::CombatDamageToPlayer { source: w, player }));
    }
}

/// "Whenever a creature enters" and "dies" answer to a card that matches doing
/// just that, "whenever you cast" to a spell that matches cast by a player
/// meant, and so on; none of them to anything else.
pub proof fn law_patterns_with_filters(
    g: GameModel,
    o: Occurred,
    w: ObjectId,
    ctx: CtxModel,
    f: Filter,
    who: PlayerRef,
    id: ObjectId,
    s: Seat,
)
    ensures
        g.event_matches(EventPattern::Enters(f), Occurred::Enters(id), w, ctx)
            <==> g.object_matches(id, f, ctx),
        g.event_matches(EventPattern::Dies(f), Occurred::Dies(id), w, ctx) <==> g.object_matches(
            id,
            f,
            ctx,
        ),
        g.event_matches(
            EventPattern::Cast { who, filter: f },
            Occurred::Cast { seat: s, spell: id },
            w,
            ctx,
        ) <==> g.players_of(who, ctx).contains(s) && g.spell_matches(id, f, ctx),
        g.event_matches(EventPattern::GainsLife(who), Occurred::GainsLife(s), w, ctx)
            <==> g.players_of(who, ctx).contains(s),
        g.event_matches(EventPattern::Discards(who), Occurred::Discards(s), w, ctx)
            <==> g.players_of(who, ctx).contains(s),
        g.event_matches(EventPattern::Enters(f), o, w, ctx) ==> o is Enters,
        g.event_matches(EventPattern::Dies(f), o, w, ctx) ==> o is Dies,
        g.event_matches(EventPattern::Cast { who, filter: f }, o, w, ctx) ==> o is Cast,
        g.event_matches(EventPattern::GainsLife(who), o, w, ctx) ==> o is GainsLife,
        g.event_matches(EventPattern::Discards(who), o, w, ctx) ==> o is Discards,
{
}

proof fn lemma_any(
    g: GameModel,
    es: Seq<EventPattern>,
    o: Occurred,
    w: ObjectId,
    ctx: CtxModel,
    n: nat,
)
    requires
        n <= es.len(),
    ensures
        g.any_event_matches(es, o, w, ctx, n) <==> exists|i: int|
            0 <= i < n && g.event_matches(#[trigger] es[i], o, w, ctx),
    decreases n,
{
    if n > 0 {
        lemma_any(g, es, o, w, ctx, (n - 1) as nat);
        if g.any_event_matches(es, o, w, ctx, (n - 1) as nat) {
            let i = choose|i: int| 0 <= i < n - 1 && g.event_matches(#[trigger] es[i], o, w, ctx);
            assert(0 <= i < n && g.event_matches(es[i], o, w, ctx));
        }
        if g.event_matches(es[n - 1], o, w, ctx) {
            assert(0 <= n - 1 < n && g.event_matches(es[n - 1], o, w, ctx));
        }
    }
}

/// Any of some patterns matches what one of them matches.
pub proof fn law_any_of_some_patterns(
    g: GameModel,
    es: Arc<Vec<EventPattern>>,
    o: Occurred,
    w: ObjectId,
    ctx: CtxModel,
)
    ensures
        g.event_matches(EventPattern::Any(es), o, w, ctx) <==> exists|i: int|
            0 <= i < es@.len() && g.event_matches(#[trigger] es@[i], o, w, ctx),
{
    lemma_any(g, es@, o, w, ctx, es@.len());
}

// ----- what events amount to -----

/// A card enters when it comes to the battlefield and dies when it goes from
/// there to a graveyard; any other move is neither.
pub proof fn law_moves_amount_to(e: EventFacts, active: Seat, o: Occurred)
    requires
        e is ZoneChange,
    ensures
        e matches EventModel::ZoneChange { object, from, to } ==> (happened(e, active).contains(o)
            <==> {
            ||| to is Battlefield && o == Occurred::Enters(object)
            ||| from is Battlefield && to is Graveyard && o == Occurred::Dies(object)
        }),
{
    let os = happened(e, active);
    if os.len() > 0 {
        assert(os.contains(os[0]));
    }
}

proof fn lemma_attacks(attackers: Seq<(ObjectId, AttackTarget)>, n: nat)
    requires
        n <= attackers.len(),
    ensures
        attacks_of(attackers, n).len() == n,
        forall|i: int|
            0 <= i < n ==> #[trigger] attacks_of(attackers, n)[i] == Occurred::Attacks(
                attackers[i].0,
            ),
    decreases n,
{
    if n > 0 {
        lemma_attacks(attackers, (n - 1) as nat);
    }
}

/// Every attacker attacks, once for each time it is declared.
pub proof fn law_attackers_attack(e: EventFacts, active: Seat)
    requires
        e is Attacked,
    ensures
        e matches EventModel::Attacked { attackers, .. } ==> {
            &&& happened(e, active).len() == attackers.len()
            &&& forall|i: int|
                0 <= i < attackers.len() ==> #[trigger] happened(e, active)[i] == Occurred::Attacks(
                    attackers[i].0,
                )
        },
{
    if let EventModel::Attacked { attackers, .. } = e {
        lemma_attacks(attackers, attackers.len());
    }
}

proof fn lemma_blocked(blocks: Seq<(ObjectId, ObjectId)>, n: nat)
    requires
        n <= blocks.len(),
    ensures
        blocked_in(blocks, n).len() == n,
        forall|i: int| 0 <= i < n ==> #[trigger] blocked_in(blocks, n)[i] == blocks[i].1,
    decreases n,
{
    if n > 0 {
        lemma_blocked(blocks, (n - 1) as nat);
    }
}

proof fn lemma_blocks(blocks: Seq<(ObjectId, ObjectId)>, n: nat, o: Occurred)
    requires
        n <= blocks.len(),
    ensures
        blocks_of(blocks, n).contains(o) <==> (exists|i: int|
            0 <= i < n && {
                ||| o == (Occurred::Blocks {
                    blocker: (#[trigger] blocks[i]).0,
                    attacker: blocks[i].1,
                })
                ||| o == (Occurred::BecomesBlocked {
                    attacker: blocks[i].1,
                    blocker: blocks[i].0,
                }) && forall|j: int| 0 <= j < i ==> (#[trigger] blocks[j]).1 != blocks[i].1
            }),
    decreases n,
{
    if n > 0 {
        let m = (n - 1) as nat;
        lemma_blocks(blocks, m, o);
        lemma_blocked(blocks, m);
        let (b, a) = blocks[n - 1];
        let was = blocks_of(blocks, m);
        let mid = was.push(Occurred::Blocks { blocker: b, attacker: a });
        let now = blocks_of(blocks, n);
        let first = !blocked_in(blocks, m).contains(a);
        assert(first <==> forall|j: int| 0 <= j < n - 1 ==> (#[trigger] blocks[j]).1 != a) by {
            if !first {
                let j = choose|j: int| 0 <= j < m && blocked_in(blocks, m)[j] == a;
                assert(blocks[j].1 == a);
            } else {
                assert forall|j: int| 0 <= j < n - 1 implies (#[trigger] blocks[j]).1 != a by {
                    assert(blocked_in(blocks, m)[j] == blocks[j].1);
                }
            }
        }
        if was.contains(o) {
            let k = choose|k: int| 0 <= k < was.len() && was[k] == o;
            assert(now[k] == o);
        }
        assert(mid[was.len() as int] == (Occurred::Blocks { blocker: b, attacker: a }));
        assert(now[was.len() as int] == (Occurred::Blocks { blocker: b, attacker: a }));
        if first {
            assert(now[mid.len() as int] == (Occurred::BecomesBlocked { attacker: a, blocker: b }));
        }
        if now.contains(o) {
            let k = choose|k: int| 0 <= k < now.len() && now[k] == o;
            if k < was.len() {
                assert(was[k] == o);
            } else {
                assert(blocks[n - 1] == (b, a));
            }
        }
        assert(blocks[n - 1] == (b, a));
    }
}

/// Every blocker blocks, and an attacker becomes blocked once, by the first
/// that blocks it.
pub proof fn law_blockers_block(
    e: EventFacts,
    active: Seat,
    blocks: Seq<(ObjectId, ObjectId)>,
    i: int,
)
    requires
        e matches EventModel::Blocked { blocks: bs, .. } && bs == blocks,
        0 <= i < blocks.len(),
    ensures
        happened(e, active).contains(
            Occurred::Blocks { blocker: blocks[i].0, attacker: blocks[i].1 },
        ),
        (forall|j: int| 0 <= j < i ==> (#[trigger] blocks[j]).1 != blocks[i].1) ==> happened(
            e,
            active,
        ).contains(Occurred::BecomesBlocked { attacker: blocks[i].1, blocker: blocks[i].0 }),
{
    let o = Occurred::Blocks { blocker: blocks[i].0, attacker: blocks[i].1 };
    let p = Occurred::BecomesBlocked { attacker: blocks[i].1, blocker: blocks[i].0 };
    lemma_blocks(blocks, blocks.len(), o);
    lemma_blocks(blocks, blocks.len(), p);
}

/// Combat damage to a player, life gained, cards discarded, spells cast and
/// permanents tapped are told apart; damage that is not combat damage, or none,
/// and life lost amount to nothing.
pub proof fn law_other_events_amount_to(
    active: Seat,
    source: ObjectId,
    player: Seat,
    amount: i32,
    combat: bool,
    from: i32,
    to: i32,
    o: Occurred,
)
    ensures
        ({
            let hit: EventFacts = EventModel::Damage {
                source,
                to: DamageTarget::Player(player),
                amount,
                combat,
            };
            happened(hit, active).contains(o) <==> combat && amount > 0 && o == (
            Occurred::CombatDamageToPlayer { source, player })
        }),
        ({
            let life: EventFacts = EventModel::LifeChanged { seat: player, from, to };
            happened(life, active).contains(o) <==> to > from && o == Occurred::GainsLife(player)
        }),
        ({
            let tap: EventFacts = EventModel::Tapped { object: source };
            happened(tap, active).contains(o) <==> o == Occurred::Tapped(source)
        }),
{
    let hit: EventFacts = EventModel::Damage {
        source,
        to: DamageTarget::Player(player),
        amount,
        combat,
    };
    let life: EventFacts = EventModel::LifeChanged { seat: player, from, to };
    let tap: EventFacts = EventModel::Tapped { object: source };
    let a = happened(hit, active);
    let b = happened(life, active);
    let c = happened(tap, active);
    if a.len() > 0 {
        assert(a.contains(a[0]));
    }
    if b.len() > 0 {
        assert(b.contains(b[0]));
    }
    assert(c.contains(c[0]));
}

// ----- what fires -----

/// "That creature", "that player" and the like in a triggered ability mean what
/// the event happened to: for a blocker the attacker it blocks, for a blocked
/// attacker its blocker.
pub proof fn law_what_set_it_off(id: ObjectId, other: ObjectId, s: Seat, phase: Phase)
    ensures
        Occurred::Enters(id).cause() == Target::Object(id),
        Occurred::Dies(id).cause() == Target::Object(id),
        Occurred::Attacks(id).cause() == Target::Object(id),
        Occurred::Tapped(id).cause() == Target::Object(id),
        (Occurred::Blocks { blocker: id, attacker: other }).cause() == Target::Object(other),
        (Occurred::BecomesBlocked { attacker: id, blocker: other }).cause() == Target::Object(
            other,
        ),
        (Occurred::CombatDamageToPlayer { source: id, player: s }).cause() == Target::Player(s),
        (Occurred::Step { phase, active: s }).cause() == Target::Player(s),
        (Occurred::Cast { seat: s, spell: id }).cause() == Target::Object(id),
        Occurred::GainsLife(s).cause() == Target::Player(s),
        Occurred::Discards(s).cause() == Target::Player(s),
{
}

impl GameModel {
    /// The `k`-th triggered ability of `w`, set off by the occurrence.
    pub open spec fn set_off(self, o: Occurred, w: ObjectId, k: int) -> FiredModel {
        FiredModel {
            source: w,
            controller: self.obj(w).controller,
            kind: FiredKindModel::Card(k as u8),
            triggering: Some(o.cause()),
        }
    }

    /// The `k`-th triggered ability of `w` asks for the occurrence, and its
    /// "if" holds.
    pub open spec fn asks_for(self, o: Occurred, w: ObjectId, k: int) -> bool {
        let t = self.def(w).triggers[k];
        let ctx = CtxModel::fresh(
            self.obj(w).controller,
            Some(w),
            Seq::empty(),
            Some(o.cause()),
        );
        &&& 0 <= k < self.def(w).triggers.len()
        &&& self.event_matches(t.event, o, w, ctx)
        &&& t.condition is Some ==> self.condition(t.condition->0, ctx)
    }
}

proof fn lemma_fired_of(g: GameModel, o: Occurred, w: ObjectId, n: nat, f: FiredModel)
    requires
        n <= g.def(w).triggers.len(),
    ensures
        g.fired_of(o, w, n).contains(f) <==> exists|k: int|
            0 <= k < n && #[trigger] g.asks_for(o, w, k) && f == g.set_off(o, w, k),
    decreases n,
{
    if n > 0 {
        lemma_fired_of(g, o, w, (n - 1) as nat, f);
        let rest = g.fired_of(o, w, (n - 1) as nat);
        let all = g.fired_of(o, w, n);
        let asked = g.asks_for(o, w, n - 1);
        if asked {
            assert(all == rest.push(g.set_off(o, w, n - 1)));
            assert(all[rest.len() as int] == g.set_off(o, w, n - 1));
        } else {
            assert(all == rest);
        }
        if all.contains(f) {
            let i = choose|i: int| 0 <= i < all.len() && all[i] == f;
            if i < rest.len() {
                assert(rest[i] == f);
                let k = choose|k: int|
                    0 <= k < n - 1 && #[trigger] g.asks_for(o, w, k) && f == g.set_off(o, w, k);
                assert(0 <= k < n && g.asks_for(o, w, k));
            }
        }
        if exists|k: int| 0 <= k < n && #[trigger] g.asks_for(o, w, k) && f == g.set_off(o, w, k) {
            let k = choose|k: int|
                0 <= k < n && #[trigger] g.asks_for(o, w, k) && f == g.set_off(o, w, k);
            if k < n - 1 {
                assert(rest.contains(f));
                let i = choose|i: int| 0 <= i < rest.len() && rest[i] == f;
                assert(all[i] == f);
            }
        }
    }
}

proof fn lemma_fired_by(g: GameModel, o: Occurred, ws: Seq<ObjectId>, n: nat, f: FiredModel)
    requires
        n <= ws.len(),
    ensures
        g.fired_by(o, ws, n).contains(f) <==> exists|i: int, k: int|
            0 <= i < n && g.has_def(#[trigger] ws[i]) && #[trigger] g.asks_for(o, ws[i], k) && f
                == g.set_off(o, ws[i], k),
    decreases n,
{
    if n > 0 {
        lemma_fired_by(g, o, ws, (n - 1) as nat, f);
        let w = ws[n - 1];
        let rest = g.fired_by(o, ws, (n - 1) as nat);
        let own = g.fired_of(o, w, g.def(w).triggers.len());
        let all = g.fired_by(o, ws, n);
        lemma_fired_of(g, o, w, g.def(w).triggers.len(), f);
        if g.has_def(w) {
            assert(all == rest + own);
        }
        if all.contains(f) {
            let i = choose|i: int| 0 <= i < all.len() && all[i] == f;
            if i < rest.len() {
                assert(rest[i] == f);
                let (j, k) = choose|j: int, k: int|
                    0 <= j < n - 1 && g.has_def(#[trigger] ws[j]) && #[trigger] g.asks_for(
                        o,
                        ws[j],
                        k,
                    ) && f == g.set_off(o, ws[j], k);
                assert(0 <= j < n && g.has_def(ws[j]) && g.asks_for(o, ws[j], k));
            } else {
                assert(own[i - rest.len()] == f);
                let k = choose|k: int|
                    0 <= k < g.def(w).triggers.len() && #[trigger] g.asks_for(o, w, k) && f
                        == g.set_off(o, w, k);
                assert(g.has_def(ws[n - 1]) && g.asks_for(o, ws[n - 1], k));
            }
        }
        if exists|i: int, k: int|
            0 <= i < n && g.has_def(#[trigger] ws[i]) && #[trigger] g.asks_for(o, ws[i], k) && f
                == g.set_off(o, ws[i], k) {
            let (i, k) = choose|i: int, k: int|
                0 <= i < n && g.has_def(#[trigger] ws[i]) && #[trigger] g.asks_for(o, ws[i], k) && f
                    == g.set_off(o, ws[i], k);
            if i < n - 1 {
                assert(rest.contains(f));
                let j = choose|j: int| 0 <= j < rest.len() && rest[j] == f;
                assert(all[j] == f);
            } else {
                assert(own.contains(f));
                let j = choose|j: int| 0 <= j < own.len() && own[j] == f;
                assert(all[rest.len() + j] == f);
            }
        }
    }
}

/// An occurrence sets off every ability that asks for it, of every permanent on
/// the battlefield and of a card that just died, and no other; what had fired
/// before stays in front, and nothing else changes.
pub proof fn law_every_watcher_is_asked(
    g: GameModel,
    o: Occurred,
    w: ObjectId,
    k: int,
    f: FiredModel,
)
    requires
        g.objects.len() <= u32::MAX,
        g.has_def(w),
        g.def(w).triggers.len() <= 256,
        0 <= k < g.def(w).triggers.len(),
    ensures
        ({
            let h = g.fire(o);
            let new = h.fired.subrange(g.fired.len() as int, h.fired.len() as int);
            let watches = g.obj(w).zone is Battlefield || o == Occurred::Dies(w);
            &&& h.fired == g.fired + new
            &&& h == GameModel { fired: h.fired, ..g }
            &&& new.contains(g.set_off(o, w, k)) <==> watches && g.asks_for(o, w, k)
            &&& new.contains(f) ==> f.kind is Card && f.triggering == Some(o.cause())
                && f.controller == g.obj(f.source).controller
        }),
{
    let h = g.fire(o);
    let ws = g.watchers(o);
    let seen = g.on_battlefield();
    crate::laws_filter::lemma_zone_ids(g, crate::types::Zone::Battlefield, g.objects.len());
    let new = h.fired.subrange(g.fired.len() as int, h.fired.len() as int);
    assert(new =~= g.fired_by(o, ws, ws.len()));
    let watches = g.obj(w).zone is Battlefield || o == Occurred::Dies(w);
    assert(ws.contains(w) <==> watches) by {
        assert(seen.contains(w) <==> g.obj(w).zone is Battlefield);
        if ws.contains(w) {
            let i = choose|i: int| 0 <= i < ws.len() && ws[i] == w;
            if i < seen.len() {
                assert(seen[i] == w);
            }
        }
        if seen.contains(w) {
            let i = choose|i: int| 0 <= i < seen.len() && seen[i] == w;
            assert(ws[i] == w);
        } else if o == Occurred::Dies(w) {
            assert(ws[seen.len() as int] == w);
        }
    }
    let t = g.set_off(o, w, k);
    lemma_fired_by(g, o, ws, ws.len(), t);
    lemma_fired_by(g, o, ws, ws.len(), f);
    if new.contains(t) {
        let (i, j) = choose|i: int, j: int|
            0 <= i < ws.len() && g.has_def(#[trigger] ws[i]) && #[trigger] g.asks_for(o, ws[i], j)
                && t == g.set_off(o, ws[i], j);
        assert(ws[i] == w);
        assert(j as u8 == k as u8);
        assert(j == k);
    }
    if watches && g.asks_for(o, w, k) {
        let i = choose|i: int| 0 <= i < ws.len() && ws[i] == w;
        assert(g.has_def(ws[i]) && g.asks_for(o, ws[i], k) && t == g.set_off(o, ws[i], k));
    }
}

proof fn lemma_prowess(g: GameModel, s: Seat, spell: ObjectId, ids: Seq<ObjectId>, n: nat, f: FiredModel)
    requires
        n <= ids.len(),
    ensures
        g.prowess_of(s, spell, ids, n).contains(f) <==> f.controller == s && f.kind
            == FiredKindModel::Prowess && f.triggering == Some(Target::Object(spell)) && g.creature(
            f.source,
        ) && g.has_keyword(f.source, Keyword::Prowess) && exists|i: int|
            0 <= i < n && #[trigger] ids[i] == f.source,
    decreases n,
{
    if n > 0 {
        lemma_prowess(g, s, spell, ids, (n - 1) as nat, f);
        let rest = g.prowess_of(s, spell, ids, (n - 1) as nat);
        let all = g.prowess_of(s, spell, ids, n);
        let id = ids[n - 1];
        if all.contains(f) {
            let i = choose|i: int| 0 <= i < all.len() && all[i] == f;
            if i < rest.len() {
                assert(rest[i] == f);
                let j = choose|j: int| 0 <= j < n - 1 && #[trigger] ids[j] == f.source;
                assert(0 <= j < n && ids[j] == f.source);
            } else {
                assert(ids[n - 1] == f.source);
            }
        }
        if rest.contains(f) {
            let i = choose|i: int| 0 <= i < rest.len() && rest[i] == f;
            assert(all[i] == f);
        }
        if g.creature(id) && g.has_keyword(id, Keyword::Prowess) {
            assert(all[rest.len() as int].source == id);
        }
    }
}

/// Casting a spell that is no creature sets off prowess on each creature with
/// it that the caster has on the battlefield; casting a creature sets off none.
pub proof fn law_prowess_is_set_off(g: GameModel, s: Seat, spell: ObjectId, f: FiredModel)
    requires
        g.has_seat(s),
    ensures
        ({
            let h = g.fire_prowess(s, spell);
            let new = h.fired.subrange(g.fired.len() as int, h.fired.len() as int);
            &&& h.fired == g.fired + new
            &&& new.contains(f) <==> !g.creature(spell) && f.controller == s && f.kind
                == FiredKindModel::Prowess && f.triggering == Some(Target::Object(spell))
                && g.player(s).battlefield.contains(f.source) && g.creature(f.source)
                && g.has_keyword(f.source, Keyword::Prowess)
        }),
{
    let h = g.fire_prowess(s, spell);
    let ids = g.battlefield(s);
    let new = h.fired.subrange(g.fired.len() as int, h.fired.len() as int);
    assert(g.fired + new =~= h.fired);
    lemma_prowess(g, s, spell, ids, ids.len(), f);
    assert(ids.contains(f.source) <==> exists|i: int|
        0 <= i < ids.len() && #[trigger] ids[i] == f.source);
    if !g.creature(spell) {
        assert(new =~= g.prowess_of(s, spell, ids, ids.len()));
    }
}

proof fn lemma_due(ds: Seq<DelayedModel>, at: DelayedAt, n: nat, d: DelayedModel)
    requires
        n <= ds.len(),
    ensures
        not_due(ds, at, n).contains(d) <==> d.at != at && exists|i: int|
            0 <= i < n && #[trigger] ds[i] == d,
        due(ds, at, n).len() + not_due(ds, at, n).len() == n,
        forall|i: int|
            0 <= i < n && (#[trigger] ds[i]).at == at ==> due(ds, at, n).contains(
                FiredModel {
                    source: ds[i].source,
                    controller: ds[i].controller,
                    kind: FiredKindModel::Delayed { effects: ds[i].effects, ctx: ds[i].ctx },
                    triggering: None,
                },
            ),
    decreases n,
{
    if n > 0 {
        lemma_due(ds, at, (n - 1) as nat, d);
        let a = not_due(ds, at, (n - 1) as nat);
        let b = not_due(ds, at, n);
        let last = ds[n - 1];
        if a.contains(d) {
            let i = choose|i: int| 0 <= i < a.len() && a[i] == d;
            assert(b[i] == d);
            let j = choose|j: int| 0 <= j < n - 1 && #[trigger] ds[j] == d;
            assert(0 <= j < n && ds[j] == d);
        }
        if last.at != at {
            assert(b[a.len() as int] == last);
        }
        if b.contains(d) && !a.contains(d) {
            let i = choose|i: int| 0 <= i < b.len() && b[i] == d;
            assert(i == a.len());
            assert(ds[n - 1] == d);
        }
        let p = due(ds, at, (n - 1) as nat);
        let q = due(ds, at, n);
        assert forall|i: int| 0 <= i < n && (#[trigger] ds[i]).at == at implies q.contains(
            FiredModel {
                source: ds[i].source,
                controller: ds[i].controller,
                kind: FiredKindModel::Delayed { effects: ds[i].effects, ctx: ds[i].ctx },
                triggering: None,
            },
        ) by {
            let f = FiredModel {
                source: ds[i].source,
                controller: ds[i].controller,
                kind: FiredKindModel::Delayed { effects: ds[i].effects, ctx: ds[i].ctx },
                triggering: None,
            };
            if i < n - 1 {
                assert(p.contains(f));
                let k = choose|k: int| 0 <= k < p.len() && p[k] == f;
                assert(q[k] == f);
            } else {
                assert(q[p.len() as int] == f);
            }
        }
    }
}

/// What waits for a moment fires when it comes, once, and waits no more; what
/// waits for another keeps waiting.
pub proof fn law_delayed_triggers_wait_for_their_moment(
    g: GameModel,
    at: DelayedAt,
    i: int,
    d: DelayedModel,
)
    requires
        0 <= i < g.delayed.len(),
    ensures
        ({
            let h = g.fire_delayed(at);
            let w = g.delayed[i];
            let new = h.fired.subrange(g.fired.len() as int, h.fired.len() as int);
            &&& h.fired == g.fired + new
            &&& h.delayed.contains(d) <==> g.delayed.contains(d) && d.at != at
            &&& new.len() + h.delayed.len() == g.delayed.len()
            &&& w.at == at ==> new.contains(
                FiredModel {
                    source: w.source,
                    controller: w.controller,
                    kind: FiredKindModel::Delayed { effects: w.effects, ctx: w.ctx },
                    triggering: None,
                },
            )
        }),
{
    let h = g.fire_delayed(at);
    let ds = g.delayed;
    let new = h.fired.subrange(g.fired.len() as int, h.fired.len() as int);
    assert(new =~= due(ds, at, ds.len()));
    assert(h.fired =~= g.fired + new);
    lemma_due(ds, at, ds.len(), d);
    assert(ds.contains(d) <==> exists|j: int| 0 <= j < ds.len() && #[trigger] ds[j] == d);
}

// ----- in whose order -----

proof fn lemma_line_slot(
    order: Seq<Seat>,
    line: Seq<FiredModel>,
    f: FiredModel,
    n: nat,
)
    requires
        n <= line.len(),
    ensures
        line_slot(order, line, f, n) <= n,
        line_slot(order, line, f, n) > 0 ==> turn_place(
            order,
            line[line_slot(order, line, f, n) - 1].controller,
        ) <= turn_place(order, f.controller),
        forall|i: int|
            line_slot(order, line, f, n) <= i < n ==> turn_place(order, f.controller) < turn_place(
                order,
                (#[trigger] line[i]).controller,
            ),
    decreases n,
{
    if n > 0 {
        lemma_line_slot(order, line, f, (n - 1) as nat);
    }
}

proof fn lemma_line_up(g: GameModel, order: Seq<Seat>, fs: Seq<FiredModel>, n: nat, x: FiredModel)
    requires
        n <= fs.len(),
    ensures
        ({
            let line = g.line_up(order, fs, n);
            &&& forall|i: int, j: int|
                0 <= i <= j < line.len() ==> turn_place(order, (#[trigger] line[i]).controller)
                    <= turn_place(order, (#[trigger] line[j]).controller)
            &&& line.contains(x) <==> g.stands(x) && exists|i: int|
                0 <= i < n && #[trigger] fs[i] == x
        }),
    decreases n,
{
    if n > 0 {
        lemma_line_up(g, order, fs, (n - 1) as nat, x);
        let was = g.line_up(order, fs, (n - 1) as nat);
        let f = fs[n - 1];
        let line = g.line_up(order, fs, n);
        let k = line_slot(order, was, f, was.len()) as int;
        lemma_line_slot(order, was, f, was.len());
        if g.stands(f) {
            assert(line == was.insert(k, f));
            assert forall|i: int, j: int| 0 <= i <= j < line.len() implies turn_place(
                order,
                (#[trigger] line[i]).controller,
            ) <= turn_place(order, (#[trigger] line[j]).controller) by {
                let a = if i < k {
                    i
                } else {
                    i - 1
                };
                let b = if j < k {
                    j
                } else {
                    j - 1
                };
                if i != k && j != k {
                    assert(line[i] == was[a] && line[j] == was[b]);
                } else if i == k && j != k {
                    assert(line[j] == was[b]);
                } else if j == k && i != k {
                    assert(line[i] == was[a]);
                    assert(was[a].controller == was[a].controller && was[k - 1].controller
                        == was[k - 1].controller);
                }
            }
            assert(line[k] == f);
            if was.contains(x) {
                let i = choose|i: int| 0 <= i < was.len() && was[i] == x;
                if i < k {
                    assert(line[i] == x);
                } else {
                    assert(line[i + 1] == x);
                }
            }
            if line.contains(x) {
                let i = choose|i: int| 0 <= i < line.len() && line[i] == x;
                if i < k {
                    assert(was[i] == x);
                } else if i > k {
                    assert(was[i - 1] == x);
                } else {
                    assert(fs[n - 1] == x);
                }
            }
        }
        if was.contains(x) {
            let i = choose|i: int| 0 <= i < n - 1 && #[trigger] fs[i] == x;
            assert(0 <= i < n && fs[i] == x);
        }
    }
}

/// Triggers are put on the stack in the order of their controllers: whoever
/// comes earlier in it has theirs placed, and so deeper, before whoever comes
/// later. Every one that fired is placed, but for those whose source or
/// controller is gone.
pub proof fn law_triggers_line_up(
    g: GameModel,
    order: Seq<Seat>,
    fs: Seq<FiredModel>,
    i: int,
    j: int,
    a: int,
    b: int,
    x: FiredModel,
)
    requires
        order.no_duplicates(),
        0 <= a < b < order.len(),
        0 <= i < g.line_up(order, fs, fs.len()).len(),
        0 <= j < g.line_up(order, fs, fs.len()).len(),
        g.line_up(order, fs, fs.len())[i].controller == order[a],
        g.line_up(order, fs, fs.len())[j].controller == order[b],
    ensures
        i < j,
        g.line_up(order, fs, fs.len()).contains(x) <==> fs.contains(x) && g.has_obj(x.source)
            && g.turn_order.contains(x.controller),
{
    let line = g.line_up(order, fs, fs.len());
    lemma_line_up(g, order, fs, fs.len(), x);
    crate::seqs::lemma_find_from(order, order[a], 0);
    crate::seqs::lemma_find_from(order, order[b], 0);
    assert(turn_place(order, order[a]) == a);
    assert(turn_place(order, order[b]) == b);
    if j <= i {
        assert(turn_place(order, line[j].controller) <= turn_place(order, line[i].controller));
    }
    assert(fs.contains(x) <==> exists|k: int| 0 <= k < fs.len() && #[trigger] fs[k] == x);
}

/// A trigger goes on top of the stack, from its source, under its controller,
/// with the targets chosen for it and with what set it off.
pub proof fn law_triggers_go_on_top(g: GameModel, f: FiredModel, targets: Seq<Target>)
    ensures
        ({
            let h = g.push_trigger(f, targets);
            let top = h.stack.last();
            &&& h.stack.drop_last() == g.stack
            &&& top.object == f.source
            &&& top.controller == f.controller
            &&& top.targets == targets
            &&& f.kind matches FiredKindModel::Card(k) ==> top.kind == (KindModel::Trigger {
                source: f.source,
                index: k,
                triggering: f.triggering,
            })
            &&& f.kind is Prowess ==> top.kind == (KindModel::Prowess { source: f.source })
            &&& f.kind matches FiredKindModel::Delayed { effects, ctx } ==> top.kind == (
            KindModel::Delayed { source: f.source, effects, ctx })
            &&& h.objects == g.objects
            &&& h.players == g.players
        }),
{
    let h = g.push_trigger(f, targets);
    assert(h.stack.drop_last() =~= g.stack);
}

// ----- from events to triggers -----

proof fn lemma_one_occurrence(g: GameModel, o: Occurred)
    ensures
        g.fire_all(seq![o], 1) == g.fire(o),
{
    reveal_with_fuel(GameModel::fire_all, 2);
    assert(seq![o][0] == o);
}

proof fn lemma_due_kind(ds: Seq<DelayedModel>, at: DelayedAt, n: nat)
    requires
        n <= ds.len(),
    ensures
        forall|i: int|
            0 <= i < due(ds, at, n).len() ==> (#[trigger] due(ds, at, n)[i]).kind is Delayed,
    decreases n,
{
    if n > 0 {
        lemma_due_kind(ds, at, (n - 1) as nat);
    }
}

/// "At the beginning of upkeep" on a permanent fires when a step begins if and
/// only if that step is the upkeep and the player whose turn it is is among
/// those meant; so with the end step and with combat.
pub proof fn law_steps_set_off_their_triggers(
    g: GameModel,
    w: ObjectId,
    k: int,
    phase: Phase,
    whose: PlayerRef,
)
    requires
        g.objects.len() <= u32::MAX,
        g.has_def(w),
        g.obj(w).zone is Battlefield,
        g.def(w).triggers.len() <= 256,
        0 <= k < g.def(w).triggers.len(),
        g.def(w).triggers[k].condition is None,
    ensures
        ({
            let o = Occurred::Step { phase, active: g.active_player };
            let h = g.triggers_for_event(EventModel::PhaseChanged { phase });
            let new = h.fired.subrange(g.fired.len() as int, h.fired.len() as int);
            let t = g.set_off(o, w, k);
            let ctx = CtxModel::fresh(
                g.obj(w).controller,
                Some(w),
                Seq::empty(),
                Some(Target::Player(g.active_player)),
            );
            let meant = g.players_of(whose, ctx).contains(g.active_player);
            &&& g.def(w).triggers[k].event == EventPattern::Upkeep(whose) ==> (new.contains(t)
                <==> phase == Phase::Upkeep && meant)
            &&& g.def(w).triggers[k].event == EventPattern::EndStep(whose) ==> (new.contains(t)
                <==> phase == Phase::End && meant)
            &&& g.def(w).triggers[k].event == EventPattern::BeginCombat(whose) ==> (new.contains(t)
                <==> phase == Phase::BeginCombat && meant)
        }),
{
    let e: EventFacts = EventModel::PhaseChanged { phase };
    let o = Occurred::Step { phase, active: g.active_player };
    let h = g.triggers_for_event(e);
    let new = h.fired.subrange(g.fired.len() as int, h.fired.len() as int);
    let t = g.set_off(o, w, k);
    let f = g.fire(o);
    let own = f.fired.subrange(g.fired.len() as int, f.fired.len() as int);
    law_every_watcher_is_asked(g, o, w, k, t);
    if phase is Upkeep || phase is End || phase is BeginCombat {
        lemma_one_occurrence(g, o);
        assert(happened(e, g.active_player) =~= seq![o]);
        if phase is End {
            let d = due(f.delayed, DelayedAt::NextEndStep, f.delayed.len());
            assert(h.fired == f.fired + d);
            assert(new =~= own + d);
            lemma_due_kind(f.delayed, DelayedAt::NextEndStep, f.delayed.len());
            if own.contains(t) {
                let i = choose|i: int| 0 <= i < own.len() && own[i] == t;
                assert(new[i] == t);
            }
            if new.contains(t) {
                let i = choose|i: int| 0 <= i < new.len() && new[i] == t;
                if i < own.len() {
                    assert(own[i] == t);
                } else {
                    assert(d[i - own.len()].kind is Delayed);
                }
            }
        } else {
            assert(h == f);
        }
    } else {
        assert(happened(e, g.active_player).len() == 0);
        assert(h.fired == g.fired);
        assert(new.len() == 0);
    }
}

// ----- placing triggers -----

proof fn lemma_place_line(g: GameModel, line: Seq<FiredModel>, i: nat)
    requires
        i <= line.len(),
        forall|j: int| 0 <= j < line.len() ==> g.trigger_specs(#[trigger] line[j]).len() == 0,
    ensures
        ({
            let (h, done) = g.place_line(line, i);
            &&& done
            &&& h.objects == g.objects
            &&& h.players == g.players
            &&& h.stack.len() == g.stack.len() + line.len() - i
            &&& forall|k: int| 0 <= k < g.stack.len() ==> #[trigger] h.stack[k] == g.stack[k]
            &&& forall|k: int|
                i <= k < line.len() ==> h.stack[g.stack.len() + k - i].object == (
                #[trigger] line[k]).source && h.stack[g.stack.len() + k - i].controller
                    == line[k].controller
        }),
    decreases line.len() - i,
{
    if i < line.len() {
        let f = line[i as int];
        let p = g.push_trigger(f, Seq::empty());
        assert forall|j: int| 0 <= j < line.len() implies p.trigger_specs(
            #[trigger] line[j],
        ).len() == 0 by {
            assert(g.trigger_specs(line[j]).len() == 0);
        }
        assert(g.trigger_specs(line[i as int]).len() == 0);
        lemma_place_line(p, line, i + 1);
        let h = g.place_line(line, i).0;
        assert(h == p.place_line(line, i + 1).0);
        assert forall|k: int| 0 <= k < g.stack.len() implies #[trigger] h.stack[k]
            == g.stack[k] by {
            assert(p.stack[k] == g.stack[k]);
        }
        assert forall|k: int| i <= k < line.len() implies h.stack[g.stack.len() + k - i].object == (
        #[trigger] line[k]).source && h.stack[g.stack.len() + k - i].controller
            == line[k].controller by {
            if k == i {
                assert(h.stack[g.stack.len() as int] == p.stack[g.stack.len() as int]);
            }
        }
    }
}

/// Triggers without targets all go on the stack, in the order in which they line
/// up; nothing else changes.
pub proof fn law_triggers_are_placed_in_line(g: GameModel, k: int)
    requires
        g.fired.len() > 0,
        ({
            let line = g.line_up(g.apnap(), g.fired, g.fired.len());
            &&& 0 <= k < line.len()
            &&& forall|j: int| 0 <= j < line.len() ==> g.trigger_specs(#[trigger] line[j]).len() == 0
        }),
    ensures
        ({
            let line = g.line_up(g.apnap(), g.fired, g.fired.len());
            let (h, done) = g.place_triggers();
            &&& done
            &&& h.fired.len() == 0
            &&& h.stack.len() == g.stack.len() + line.len()
            &&& h.stack[g.stack.len() + k].object == line[k].source
            &&& h.stack[g.stack.len() + k].controller == line[k].controller
            &&& h.objects == g.objects
            &&& h.players == g.players
        }),
{
    let line = g.line_up(g.apnap(), g.fired, g.fired.len());
    let bare = GameModel { fired: Seq::empty(), ..g };
    assert forall|j: int| 0 <= j < line.len() implies bare.trigger_specs(#[trigger] line[j]).len()
        == 0 by {
        assert(g.trigger_specs(line[j]).len() == 0);
    }
    lemma_place_line(bare, line, 0);
    assert(line[k] == line[k]);
    lemma_placed_fired(bare, line, 0);
}

proof fn lemma_placed_fired(g: GameModel, line: Seq<FiredModel>, i: nat)
    requires
        g.fired.len() == 0,
        forall|j: int| 0 <= j < line.len() ==> g.trigger_specs(#[trigger] line[j]).len() == 0,
    ensures
        g.place_line(line, i).0.fired.len() == 0,
    decreases line.len() - i,
{
    if i < line.len() {
        let p = g.push_trigger(line[i as int], Seq::empty());
        assert forall|j: int| 0 <= j < line.len() implies p.trigger_specs(
            #[trigger] line[j],
        ).len() == 0 by {
            assert(g.trigger_specs(line[j]).len() == 0);
        }
        assert(g.trigger_specs(line[i as int]).len() == 0);
        lemma_placed_fired(p, line, i + 1);
    }
}

} // verus!
