//! Two games that differ only in what a viewer cannot see look the same to
//! that viewer.
use crate::action::{ActionModel, AttackTarget};
use crate::sight::{eq_priority_actions, eq_stats, lemma_keywords, lemma_same, lemma_seen};
use crate::state::{GameModel, KindModel, PendingModel, PlayerModel};
use crate::suggest::{all_at, each_once, power_of, structured_attacks, ENUMERATION_CAP};
use crate::types::{Keyword, ObjectId, Seat, Zone};
use crate::view::usable;
use vstd::prelude::*;

verus! {

// ----- alike -----

impl PlayerModel {
    /// All that the others may know of a player is the same.
    pub open spec fn looks_like(self, p: PlayerModel) -> bool {
        &&& self.name == p.name
        &&& self.life == p.life
        &&& self.eliminated == p.eliminated
        &&& self.hand.len() == p.hand.len()
        &&& self.library.len() == p.library.len()
        &&& self.graveyard == p.graveyard
        &&& self.exile == p.exile
        &&& self.battlefield == p.battlefield
        &&& self.command == p.command
        &&& self.commander_damage == p.commander_damage
        &&& self.poison == p.poison
        &&& self.lands_played_this_turn == p.lands_played_this_turn
    }
}

impl KindModel {
    /// The object whose wording an entry on the stack shows.
    pub open spec fn worded_by(self) -> Option<ObjectId> {
        match self {
            KindModel::Ability { source, .. } => Some(source),
            KindModel::Equip { source } => Some(source),
            KindModel::Trigger { source, .. } => Some(source),
            _ => None,
        }
    }
}

impl GameModel {
    /// The games differ only in what the viewer cannot see: in the cards of
    /// libraries and of other players' hands, in which of those cards is
    /// where, and in what no view tells, such as the pools of others.
    /// Whatever else a thing in sight names, the card it is attached to or
    /// the source of an entry on the stack, is the same in both.
    pub open spec fn alike(self, h: GameModel, viewer: Option<Seat>) -> bool {
        &&& h.turn == self.turn
        &&& h.active_player == self.active_player
        &&& h.phase == self.phase
        &&& h.priority == self.priority
        &&& h.state_version == self.state_version
        &&& h.outcome == self.outcome
        &&& h.acting() == self.acting()
        &&& h.pending is Some == self.pending is Some
        &&& h.turn_order == self.turn_order
        &&& h.cards == self.cards
        &&& h.tokens == self.tokens
        &&& h.stack == self.stack
        &&& forall|i: int|
            #![trigger self.stack[i]]
            0 <= i < self.stack.len() ==> self.knows(h, self.stack[i].object) && (
            self.stack[i].kind.worded_by() matches Some(source) ==> self.knows(h, source))
        &&& h.players.len() == self.players.len()
        &&& forall|i: int|
            #![trigger self.players[i]]
            #![trigger h.players[i]]
            0 <= i < self.players.len() ==> h.players[i].looks_like(self.players[i])
        &&& viewer matches Some(seat) ==> h.player(seat).hand == self.player(seat).hand && h.player(
            seat,
        ).mana_pool == self.player(seat).mana_pool
        &&& h.objects.len() == self.objects.len()
        &&& forall|i: int|
            #![trigger self.objects[i]]
            #![trigger h.objects[i]]
            0 <= i < self.objects.len() && (self.objects[i].seen_by(viewer)
                || h.objects[i].seen_by(viewer)) ==> h.objects[i] == self.objects[i] && (
            self.objects[i].attached_to matches Some(t) ==> self.knows(h, t))
    }
}

proof fn lemma_board(g: GameModel, h: GameModel, viewer: Option<Seat>)
    requires
        g.sound(),
        g.alike(h, viewer),
    ensures
        g.same_board(h, viewer),
{
    reveal(GameModel::same_board);
    reveal(GameModel::lists_are_true);
    reveal(GameModel::table_agrees);
    assert forall|i: int| 0 <= i < g.players.len() implies g.sees_all(
        viewer,
        (#[trigger] g.players[i]).battlefield,
    ) && g.sees_all(viewer, g.players[i].graveyard) by {
        let s = Seat(i as u8);
        assert(g.player(s) == g.players[i]);
        let field = g.players[i].battlefield;
        assert(g.list(s, Zone::Battlefield) == field);
        assert forall|k: int| 0 <= k < field.len() implies g.has_obj(#[trigger] field[k]) && g.obj(
            field[k],
        ).seen_by(viewer) by {
            assert(g.in_zone(g.list(s, Zone::Battlefield)[k], Zone::Battlefield));
        }
        let yard = g.players[i].graveyard;
        assert(g.list(s, Zone::Graveyard) == yard);
        assert forall|k: int| 0 <= k < yard.len() implies g.has_obj(#[trigger] yard[k]) && g.obj(
            yard[k],
        ).seen_by(viewer) by {
            assert(g.in_zone(g.list(s, Zone::Graveyard)[k], Zone::Graveyard));
        }
    }
}

proof fn lemma_own_side(g: GameModel, h: GameModel, seat: Seat)
    requires
        g.sound(),
        g.alike(h, Some(seat)),
        g.has_seat(seat),
    ensures
        g.same_side(h, seat),
{
    lemma_board(g, h, Some(seat));
    reveal(GameModel::table_agrees);
    assert(h.players[seat.0 as int].looks_like(g.players[seat.0 as int]));
    assert forall|k: int| 0 <= k < g.player(seat).hand.len() implies g.holds(
        seat,
        #[trigger] g.player(seat).hand[k],
    ) by {
        reveal(GameModel::lists_are_true);
        assert(g.list(seat, Zone::Hand) == g.player(seat).hand);
        assert(g.in_zone(g.list(seat, Zone::Hand)[k], Zone::Hand));
    }
}

// ----- answers play nothing -----

/// Nothing on the list plays, casts or activates anything, puts cards away
/// or concedes.
pub(crate) open spec fn idle(acts: Seq<ActionModel>) -> bool {
    forall|i: int|
        0 <= i < acts.len() ==> !((#[trigger] acts[i]) is PlayLand) && !(acts[i] is CastSpell)
            && !(acts[i] is ActivateAbility) && !(acts[i] is BottomCards) && !(acts[i] is Concede)
}

proof fn lemma_idle_push(acts: Seq<ActionModel>, a: ActionModel)
    requires
        idle(acts),
        !(a is PlayLand) && !(a is CastSpell) && !(a is ActivateAbility) && !(a is BottomCards),
        !(a is Concede),
    ensures
        idle(acts.push(a)),
{
}

proof fn lemma_idle_add(a: Seq<ActionModel>, b: Seq<ActionModel>)
    requires
        idle(a),
        idle(b),
    ensures
        idle(a + b),
{
    assert forall|i: int| 0 <= i < (a + b).len() implies !((#[trigger] (a + b)[i]) is PlayLand)
        && !((a + b)[i] is CastSpell) && !((a + b)[i] is ActivateAbility) && !((a
        + b)[i] is BottomCards) && !((a + b)[i] is Concede) by {
        if i < a.len() {
            assert((a + b)[i] == a[i]);
        } else {
            assert((a + b)[i] == b[i - a.len()]);
        }
    }
}

proof fn idle_attacks(cands: Seq<ObjectId>, targets: Seq<AttackTarget>, n: nat)
    ensures
        idle(structured_attacks(cands, targets, n)),
    decreases n,
{
    if n > 0 && n <= targets.len() {
        idle_attacks(cands, targets, (n - 1) as nat);
        let t = targets[n - 1];
        let rest = structured_attacks(cands, targets, (n - 1) as nat);
        let all = ActionModel::DeclareAttackers { attackers: all_at(cands, t) };
        lemma_idle_push(rest, all);
        lemma_idle_add(
            rest.push(all),
            Seq::new(
                cands.len(),
                |i: int| ActionModel::DeclareAttackers { attackers: seq![(cands[i], t)] },
            ),
        );
    }
}

proof fn idle_coded(g: GameModel, blockers: Seq<ObjectId>, attackers: Seq<ObjectId>, n: nat)
    ensures
        idle(g.coded_blocks(blockers, attackers, n)),
    decreases n,
{
    if n > 0 {
        idle_coded(g, blockers, attackers, (n - 1) as nat);
    }
}

proof fn idle_singles(
    g: GameModel,
    out: Seq<ActionModel>,
    can: Seq<ObjectId>,
    a: ObjectId,
    attackers: Seq<ObjectId>,
    n: nat,
)
    requires
        idle(out),
    ensures
        idle(g.single_blocks(out, can, a, attackers, n)),
    decreases n,
{
    if n > 0 && n <= can.len() {
        idle_singles(g, out, can, a, attackers, (n - 1) as nat);
    }
}

proof fn idle_pairs_with(
    g: GameModel,
    out: Seq<ActionModel>,
    can: Seq<ObjectId>,
    a: ObjectId,
    attackers: Seq<ObjectId>,
    i: nat,
    n: nat,
)
    requires
        idle(out),
    ensures
        idle(g.pairs_with(out, can, a, attackers, i, n)),
    decreases n,
{
    if n > i + 1 && n <= can.len() {
        idle_pairs_with(g, out, can, a, attackers, i, (n - 1) as nat);
    }
}

proof fn idle_pairs(
    g: GameModel,
    out: Seq<ActionModel>,
    can: Seq<ObjectId>,
    a: ObjectId,
    attackers: Seq<ObjectId>,
    n: nat,
)
    requires
        idle(out),
    ensures
        idle(g.pair_blocks(out, can, a, attackers, n)),
    decreases n,
{
    if n > 0 && n <= can.len() {
        idle_pairs(g, out, can, a, attackers, (n - 1) as nat);
        idle_pairs_with(
            g,
            g.pair_blocks(out, can, a, attackers, (n - 1) as nat),
            can,
            a,
            attackers,
            (n - 1) as nat,
            can.len(),
        );
    }
}

proof fn idle_structured(g: GameModel, blockers: Seq<ObjectId>, attackers: Seq<ObjectId>, n: nat)
    ensures
        idle(g.structured_blocks(blockers, attackers, n)),
    decreases n,
{
    if n > 0 && n <= attackers.len() {
        idle_structured(g, blockers, attackers, (n - 1) as nat);
        let out = g.structured_blocks(blockers, attackers, (n - 1) as nat);
        let a = attackers[n - 1];
        let can = g.able_to_block(blockers, a, blockers.len());
        idle_singles(g, out, can, a, attackers, can.len());
        idle_pairs(
            g,
            g.single_blocks(out, can, a, attackers, can.len()),
            can,
            a,
            attackers,
            can.len(),
        );
    }
}

proof fn idle_divisions(
    g: GameModel,
    out: Seq<ActionModel>,
    attacker: ObjectId,
    blockers: Seq<ObjectId>,
    n: nat,
)
    requires
        idle(out),
    ensures
        idle(g.gang_divisions(out, attacker, blockers, n)),
    decreases n,
{
    if n > 0 && n <= blockers.len() {
        idle_divisions(g, out, attacker, blockers, (n - 1) as nat);
    }
}

pub(crate) proof fn idle_answers(g: GameModel, seat: Seat, p: PendingModel)
    requires
        !(p is BottomCards),
    ensures
        idle(g.answers(seat, p)),
{
    match p {
        PendingModel::DeclareAttackers { .. } => {
            let cands = g.attack_candidates(seat);
            let targets = g.attack_targets(seat);
            let none = seq![ActionModel::DeclareAttackers { attackers: Seq::empty() }];
            idle_attacks(cands, targets, targets.len());
            lemma_idle_add(none, structured_attacks(cands, targets, targets.len()));
        },
        PendingModel::DeclareBlockers { .. } => {
            let blockers = g.block_candidates(seat);
            let attackers = g.attackers_against(seat);
            let none = seq![ActionModel::DeclareBlockers { blocks: Seq::empty() }];
            let total = power_of(attackers.len() + 1, blockers.len());
            if total <= ENUMERATION_CAP {
                idle_coded(g, blockers, attackers, (total - 1) as nat);
                lemma_idle_add(none, g.coded_blocks(blockers, attackers, (total - 1) as nat));
            } else {
                idle_structured(g, blockers, attackers, attackers.len());
                lemma_idle_add(none, g.structured_blocks(blockers, attackers, attackers.len()));
            }
        },
        PendingModel::AssignDamage { attacker, .. } => {
            let blockers = g.live_blockers(attacker);
            idle_divisions(
                g,
                GameModel::with_division(
                    Seq::empty(),
                    attacker,
                    g.lethal_in_order(attacker, each_once(blockers, blockers.len())),
                ),
                attacker,
                blockers,
                blockers.len(),
            );
        },
        _ => {},
    }
}

proof fn lemma_nothing_usable(g: GameModel, seat: Seat, p: PendingModel, id: ObjectId)
    ensures
        !usable(g.answers(seat, p).push(ActionModel::Concede), id),
{
    let acts = g.answers(seat, p).push(ActionModel::Concede);
    if p is BottomCards {
        assert forall|i: int| 0 <= i < acts.len() implies (#[trigger] acts[i]) is BottomCards
            || acts[i] is Concede by {}
    } else {
        idle_answers(g, seat, p);
        assert forall|i: int| 0 <= i < acts.len() implies !((#[trigger] acts[i]) is PlayLand) && !(
        acts[i] is CastSpell) && !(acts[i] is ActivateAbility) by {
            if i < acts.len() - 1 {
                assert(acts[i] == g.answers(seat, p)[i]);
            }
        }
    }
}

/// The same cards can be used in both games.
proof fn lemma_same_use(g: GameModel, h: GameModel, viewer: Option<Seat>, id: ObjectId)
    requires
        g.sound(),
        g.alike(h, viewer),
        viewer matches Some(seat) ==> g.has_seat(seat),
    ensures
        usable(h.viewer_actions(viewer), id) == usable(g.viewer_actions(viewer), id),
{
    reveal(GameModel::viewer_actions);
    if let Some(seat) = viewer {
        if g.outcome is None {
            match (g.pending, h.pending) {
                (Some(p), Some(q)) => {
                    assert(p.who() == q.who());
                    if p.who() == seat {
                        lemma_nothing_usable(g, seat, p, id);
                        lemma_nothing_usable(h, seat, q, id);
                    }
                },
                _ => {
                    if g.priority == Some(seat) {
                        lemma_own_side(g, h, seat);
                        eq_priority_actions(g, h, seat);
                    }
                },
            }
        }
    }
}

// ----- the law -----

proof fn lemma_objects_seen(g: GameModel, h: GameModel, viewer: Option<Seat>, n: nat)
    requires
        g.sound(),
        g.alike(h, viewer),
        viewer matches Some(seat) ==> g.has_seat(seat),
        n <= g.objects.len(),
    ensures
        h.objects_seen(viewer, h.viewer_actions(viewer), n) == g.objects_seen(
            viewer,
            g.viewer_actions(viewer),
            n,
        ),
    decreases n,
{
    if n > 0 {
        lemma_objects_seen(g, h, viewer, (n - 1) as nat);
        let id = ObjectId(n as u32);
        let o = g.objects[n - 1];
        assert(g.obj(id) == o);
        if o.seen_by(viewer) {
            lemma_board(g, h, viewer);
            lemma_seen(g, h, viewer, id);
            lemma_same(g, h, viewer, id, Seat(0));
            lemma_same_use(g, h, viewer, id);
            eq_stats(g, h, viewer, g.depth(), id);
            lemma_keywords(g, h, viewer, id, Keyword::every().len());
            reveal(GameModel::object_seen);
        } else {
            assert(!h.objects[n - 1].seen_by(viewer));
        }
    }
}

/// A view shows a seat, or a spectator, nothing but what it may know: two
/// games that differ only in what the viewer cannot see, the cards behind
/// libraries and other hands and their order among them, give equal views.
pub proof fn law_views_ignore_what_is_hidden(g: GameModel, h: GameModel, viewer: Option<Seat>)
    requires
        g.sound(),
        g.alike(h, viewer),
        viewer matches Some(seat) ==> g.has_seat(seat),
    ensures
        h.seen(viewer) == g.seen(viewer),
{
    lemma_objects_seen(g, h, viewer, g.objects.len());
    lemma_board(g, h, viewer);
    let a = g.seen(viewer);
    let b = h.seen(viewer);
    assert forall|i: int| 0 <= i < g.stack.len() implies #[trigger] b.stack[i] == a.stack[i] by {
        let so = g.stack[i];
        lemma_same(g, h, viewer, so.object, Seat(0));
        if let Some(source) = so.kind.worded_by() {
            lemma_same(g, h, viewer, source, Seat(0));
        }
    }
    assert(b.stack =~= a.stack);
    assert forall|i: int| 0 <= i < g.players.len() implies #[trigger] b.players[i]
        == a.players[i] by {
        reveal(GameModel::table_agrees);
        assert(h.players[i].looks_like(g.players[i]));
    }
    assert(b.players =~= a.players);
}

} // verus!
