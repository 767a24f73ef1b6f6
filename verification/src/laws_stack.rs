//! How resolutions run, what they ask and what is discarded and sacrificed on
//! the way, told by where cards are and by what is left to do.
use crate::action::Target;
use crate::interp::pick_bounds;
use crate::ir::{Bind, Effect, Filter, Quantity};
use crate::keeping::{keep_discard_n, keep_sacrifice_each};
use crate::laws_effects::law_cards_are_where_they_say;
use crate::sound::lemma_moved;
use crate::stack::{least_of, most_of};
use crate::state::{ContModel, CtxModel, FrameModel, GameModel, KindModel, PendingModel, StackModel};
use crate::types::{ObjectId, Seat, Zone};
use vstd::prelude::*;

verus! {

// ----- effects one after the other -----

impl GameModel {
    /// The effect is done at once: it asks nothing and leaves nothing to do.
    pub open spec fn at_once(self, ctx: CtxModel, e: Effect) -> bool {
        &&& !crate::interp::asks(e)
        &&& self.effect_frames(ctx, e).len() == 0
    }
}

/// Effects are done in the order they are written, each on what the one before
/// it left.
pub proof fn law_effects_are_done_in_order(
    g: GameModel,
    ctx: CtxModel,
    specs: Seq<Filter>,
    first: Effect,
    second: Effect,
)
    requires
        g.at_once(ctx, first),
        g.apply_effect(ctx, first).at_once(ctx, second),
    ensures
        g.run(
            ContModel {
                ctx,
                specs,
                frames: seq![FrameModel::Effects { effects: seq![first, second], next: 0 }],
            },
        ) == (g.apply_effect(ctx, first).apply_effect(ctx, second), true),
{
    let es = seq![first, second];
    let k0 = ContModel { ctx, specs, frames: seq![FrameModel::Effects { effects: es, next: 0 }] };
    let k1 = ContModel { ctx, specs, frames: seq![FrameModel::Effects { effects: es, next: 1 }] };
    let k2 = ContModel { ctx, specs, frames: Seq::empty() };
    let a = g.apply_effect(ctx, first);
    let b = a.apply_effect(ctx, second);
    assert(k0.frames.last() == (FrameModel::Effects { effects: es, next: 0 }));
    assert(k1.frames.last() == (FrameModel::Effects { effects: es, next: 1 }));
    assert(es[0] == first && es[1] == second);
    assert(g.after_frame(k0).frames =~= k1.frames);
    assert(a.after_frame(k1).frames =~= k2.frames);
    assert(g.run(k0) == a.run(k1));
    assert(a.run(k1) == b.run(k2));
}

/// "You may" asks whoever controls the effect: the first answer does it and what
/// comes after, the second does what is said otherwise.
pub proof fn law_you_may(g: GameModel, ctx: CtxModel, bind: Bind, yes: Seq<Effect>, no: Seq<Effect>)
    requires
        yes.len() > 0,
        no.len() > 0,
    ensures
        ({
            let f = FrameModel::Branch { bind, branches: seq![yes, no] };
            &&& ctx.opted(bind) == Some(0u8) ==> g.frame_pushes(f, ctx) == seq![
                FrameModel::Effects { effects: yes, next: 0 },
            ]
            &&& ctx.opted(bind) == Some(1u8) ==> g.frame_pushes(f, ctx) == seq![
                FrameModel::Effects { effects: no, next: 0 },
            ]
            &&& g.frame_game(f, ctx) == g
        }),
{
}

// ----- how many -----

/// "Exactly two" is two, "up to two" any number up to that, and "any number" all
/// there are at most; never more than there is to pick from.
pub proof fn law_how_many_are_picked(k: u8, n: nat)
    ensures
        ({
            let (lo, hi) = pick_bounds(Quantity::Exactly(k), n);
            k <= n ==> most_of(hi, n) == k && least_of(lo, most_of(hi, n)) == k
        }),
        ({
            let (lo, hi) = pick_bounds(Quantity::UpTo(k), n);
            &&& least_of(lo, most_of(hi, n)) == 0
            &&& most_of(hi, n) <= k
            &&& most_of(hi, n) <= n
            &&& k <= n ==> most_of(hi, n) == k
        }),
        ({
            let (lo, hi) = pick_bounds(Quantity::AnyNumber, n);
            &&& least_of(lo, most_of(hi, n)) == 0
            &&& most_of(hi, n) == n
        }),
        ({
            let (lo, hi) = pick_bounds(Quantity::Exactly(k), n);
            k > n ==> most_of(hi, n) == n && least_of(lo, most_of(hi, n)) == n
        }),
{
}

/// A pick is asked for unless there is nothing to decide: nothing to pick, or
/// everything must be picked. Whoever picks sees all options.
pub proof fn law_picks_are_asked_for(
    g: GameModel,
    s: Seat,
    options: Seq<Target>,
    min: nat,
    max: nat,
    prompt: Seq<char>,
    reason: crate::state::ActReason,
    bind: Bind,
    k: ContModel,
)
    requires
        min <= max,
    ensures
        ({
            let f = FrameModel::Choose { seat: s, options, min, max, prompt, reason, bind };
            &&& g.frame_asks(f) <==> max > 0 && options.len() > 0 && min < options.len()
            &&& g.frame_question(f, k).pending matches Some(
                PendingModel::Choose { seat, options: shown, min: lo, max: hi, .. },
            ) && seat == s && shown == options && hi <= options.len() && lo <= hi && hi <= max && (
            max <= options.len() ==> lo == min && hi == max)
            &&& g.frame_question(f, k).objects == g.objects
            &&& g.frame_question(f, k).players == g.players
        }),
{
}

// ----- discarding -----

proof fn lemma_discard_n(g: GameModel, s: Seat, ids: Seq<ObjectId>, n: nat, x: ObjectId)
    requires
        g.sound(),
        g.has_seat(s),
        g.has_obj(x),
        n <= ids.len(),
    ensures
        ({
            let h = g.discard_n(s, ids, n);
            let meant = g.obj(x).zone is Hand && g.obj(x).owner == s && exists|i: int|
                0 <= i < n && #[trigger] ids[i] == x;
            &&& h.sound()
            &&& h.objects.len() == g.objects.len()
            &&& h.players.len() == g.players.len()
            &&& meant ==> h.obj(x).zone is Graveyard && h.obj(x).owner == g.obj(x).owner
            &&& !meant ==> h.obj(x) == g.obj(x)
        }),
    decreases n,
{
    if n > 0 {
        lemma_discard_n(g, s, ids, (n - 1) as nat, x);
        let p = g.discard_n(s, ids, (n - 1) as nat);
        let h = g.discard_n(s, ids, n);
        let id = ids[n - 1];
        keep_discard_n(g, s, ids, n);
        assert(h.sound()) by {
            reveal(GameModel::keeps);
        }
        law_cards_are_where_they_say(p, x, s);
        if p.hand(s).contains(id) {
            assert(p.has_obj(id) && p.obj(id).zone is Hand) by {
                reveal(GameModel::lists_are_true);
                let k = choose|k: int| 0 <= k < p.hand(s).len() && p.hand(s)[k] == id;
                assert(p.list(s, Zone::Hand)[k] == id);
            }
            lemma_moved(p, id, Zone::Graveyard);
        }
        if x == id {
            assert(ids[n - 1] == x);
        } else {
            assert(h.obj(x) == p.obj(x));
            if exists|i: int| 0 <= i < n && #[trigger] ids[i] == x {
                let i = choose|i: int| 0 <= i < n && #[trigger] ids[i] == x;
                assert(0 <= i < n - 1 && ids[i] == x);
            }
        }
        if exists|i: int| 0 <= i < n - 1 && #[trigger] ids[i] == x {
            let i = choose|i: int| 0 <= i < n - 1 && #[trigger] ids[i] == x;
            assert(0 <= i < n && ids[i] == x);
        }
    }
}

/// Discarding puts the cards that are in the player's hand into their graveyard
/// and moves nothing else.
pub proof fn law_cards_are_discarded(g: GameModel, s: Seat, ids: Seq<ObjectId>, id: ObjectId)
    requires
        g.sound(),
        g.has_seat(s),
        g.has_obj(id),
    ensures
        ({
            let h = g.discard(s, ids);
            let meant = ids.contains(id) && g.player(s).hand.contains(id);
            &&& meant ==> h.obj(id).zone is Graveyard && h.player(s).graveyard.contains(id)
                && !h.player(s).hand.contains(id)
            &&& !meant ==> h.obj(id) == g.obj(id)
        }),
{
    lemma_discard_n(g, s, ids, ids.len(), id);
    let p = g.discard_n(s, ids, ids.len());
    law_cards_are_where_they_say(g, id, s);
    law_cards_are_where_they_say(p, id, s);
    assert(ids.contains(id) <==> exists|i: int| 0 <= i < ids.len() && #[trigger] ids[i] == id);
    let h = g.discard(s, ids);
    assert(h.obj(id) == p.obj(id) && h.player(s) == p.player(s));
}

// ----- sacrificing -----

proof fn lemma_sacrifice_each(g: GameModel, s: Seat, ids: Seq<ObjectId>, n: nat, x: ObjectId)
    requires
        g.sound(),
        g.has_obj(x),
        n <= ids.len(),
    ensures
        ({
            let h = g.sacrifice_each(s, ids, n);
            let meant = g.obj(x).zone is Battlefield && g.obj(x).controller == s && exists|i: int|
                0 <= i < n && #[trigger] ids[i] == x;
            &&& h.sound()
            &&& h.objects.len() == g.objects.len()
            &&& h.players.len() == g.players.len()
            &&& meant ==> h.obj(x).zone is Graveyard && h.obj(x).owner == g.obj(x).owner
            &&& !meant ==> h.obj(x) == g.obj(x)
        }),
    decreases n,
{
    if n > 0 {
        lemma_sacrifice_each(g, s, ids, (n - 1) as nat, x);
        let p = g.sacrifice_each(s, ids, (n - 1) as nat);
        let h = g.sacrifice_each(s, ids, n);
        let id = ids[n - 1];
        keep_sacrifice_each(g, s, ids, n);
        assert(h.sound()) by {
            reveal(GameModel::keeps);
        }
        if p.in_zone(id, Zone::Battlefield) && p.obj(id).controller == s {
            let e = p.emit(crate::event::EventModel::Sacrificed { seat: s, object: id });
            lemma_moved(e, id, Zone::Graveyard);
            assert(e.obj(x) == p.obj(x));
        }
        if x == id {
            assert(ids[n - 1] == x);
        } else {
            assert(h.obj(x) == p.obj(x));
            if exists|i: int| 0 <= i < n && #[trigger] ids[i] == x {
                let i = choose|i: int| 0 <= i < n && #[trigger] ids[i] == x;
                assert(0 <= i < n - 1 && ids[i] == x);
            }
        }
        if exists|i: int| 0 <= i < n - 1 && #[trigger] ids[i] == x {
            let i = choose|i: int| 0 <= i < n - 1 && #[trigger] ids[i] == x;
            assert(0 <= i < n && ids[i] == x);
        }
    }
}

/// Sacrificing puts the permanents that the player controls into their owners'
/// graveyards, indestructible or not, and moves nothing else.
pub proof fn law_permanents_are_sacrificed(
    g: GameModel,
    s: Seat,
    ids: Seq<ObjectId>,
    id: ObjectId,
)
    requires
        g.sound(),
        g.has_obj(id),
    ensures
        ({
            let h = g.sacrifice_each(s, ids, ids.len());
            let meant = ids.contains(id) && g.obj(id).zone is Battlefield && g.obj(id).controller
                == s;
            &&& meant ==> h.obj(id).zone is Graveyard && h.player(
                g.obj(id).owner,
            ).graveyard.contains(id)
            &&& !meant ==> h.obj(id) == g.obj(id)
        }),
{
    lemma_sacrifice_each(g, s, ids, ids.len(), id);
    let h = g.sacrifice_each(s, ids, ids.len());
    assert(ids.contains(id) <==> exists|i: int| 0 <= i < ids.len() && #[trigger] ids[i] == id);
    assert(h.has_seat(h.obj(id).owner)) by {
        reveal(GameModel::objects_are_real);
    }
    law_cards_are_where_they_say(h, id, h.obj(id).owner);
}

/// What may be sacrificed is what the player controls on the battlefield that
/// matches, as they see it.
pub proof fn law_what_may_be_sacrificed(
    g: GameModel,
    s: Seat,
    filter: Filter,
    ctx: CtxModel,
    id: ObjectId,
)
    ensures
        g.sacrifices(s, filter, ctx).contains(id) <==> g.battlefield(s).contains(id)
            && g.object_matches(id, filter, ctx.as_seen_by(s)),
{
    let ids = g.battlefield(s);
    let all = g.matching(ids, filter, ctx.as_seen_by(s));
    crate::seqs::lemma_sort_members(all, id);
    crate::laws_filter::lemma_matching(
        g,
        g.depth() + 1,
        ids,
        &filter,
        ctx.as_seen_by(s),
        ids.len(),
    );
    assert(ids.contains(id) <==> exists|i: int| 0 <= i < ids.len() && #[trigger] ids[i] == id);
}

// ----- what resolves -----

proof fn lemma_one_effect(g: GameModel, ctx: CtxModel, specs: Seq<Filter>, e: Effect)
    requires
        g.at_once(ctx, e),
    ensures
        g.run(ContModel::fresh(ctx, specs, seq![e])) == (g.apply_effect(ctx, e), true),
{
    let k0 = ContModel::fresh(ctx, specs, seq![e]);
    let k1 = ContModel { ctx, specs, frames: Seq::empty() };
    assert(k0.frames =~= seq![FrameModel::Effects { effects: seq![e], next: 0 }]);
    assert(k0.frames.last() == (FrameModel::Effects { effects: seq![e], next: 0 }));
    assert(seq![e][0] == e);
    assert(g.after_frame(k0).frames =~= k1.frames);
    assert(g.run(k0) == g.apply_effect(ctx, e).run(k1));
}

impl GameModel {
    /// What an effect of a resolving ability without targets refers to: its
    /// controller, its source, what set it off and the value of X.
    pub open spec fn plain_ctx(so: StackModel, source: ObjectId, cause: Option<Target>) -> CtxModel {
        CtxModel {
            x: crate::state::x_value(so.x),
            ..CtxModel::fresh(so.controller, Some(source), Seq::empty(), cause)
        }
    }
}

/// An activated ability without targets does what it says, for whoever
/// activated it; a triggered ability does what that trigger of its source says,
/// with what set it off.
pub proof fn law_abilities_do_what_they_say(
    g: GameModel,
    so: StackModel,
    source: ObjectId,
    index: u8,
    cause: Option<Target>,
    e: Effect,
)
    requires
        g.has_def(source),
    ensures
        so.kind == (KindModel::Ability { source, index }) && index < g.def(source).activated.len()
            && g.def(source).activated[index as int].effects@ == seq![e] && g.def(
            source,
        ).activated[index as int].targets@.len() == 0 && so.targets.len() == 0 && g.at_once(
            GameModel::plain_ctx(so, source, None),
            e,
        ) ==> g.resolve(so) == (g.apply_effect(GameModel::plain_ctx(so, source, None), e), true),
        so.kind == (KindModel::Trigger { source, index, triggering: cause }) && index < g.def(
            source,
        ).triggers.len() && g.def(source).triggers[index as int].effects@ == seq![e] && g.def(
            source,
        ).triggers[index as int].targets@.len() == 0 && so.targets.len() == 0 && g.at_once(
            GameModel::plain_ctx(so, source, cause),
            e,
        ) ==> g.resolve(so) == (g.apply_effect(GameModel::plain_ctx(so, source, cause), e), true),
{
    let none = Seq::<Filter>::empty();
    let groups = crate::casting::groups_of(none, so.targets);
    assert(groups =~= Seq::<Seq<Target>>::empty());
    if let KindModel::Ability { .. } = so.kind {
        let ctx = GameModel::plain_ctx(so, source, None);
        if index < g.def(source).activated.len() && g.def(source).activated[index as int].targets@.len()
            == 0 && g.at_once(ctx, e) {
            let specs = g.def(source).activated[index as int].targets@;
            assert(specs =~= none);
            let rc = GameModel::resolving_ctx(so, source, specs, None);
            assert(rc == ctx);
            assert(g.pruned(specs, rc.targets, rc) =~= Seq::<Seq<Target>>::empty());
            lemma_one_effect(g, ctx, specs, e);
        }
    }
    if let KindModel::Trigger { .. } = so.kind {
        let ctx = GameModel::plain_ctx(so, source, cause);
        if index < g.def(source).triggers.len() && g.def(source).triggers[index as int].targets@.len()
            == 0 && g.at_once(ctx, e) {
            let specs = g.def(source).triggers[index as int].targets@;
            assert(specs =~= none);
            let rc = GameModel::resolving_ctx(so, source, specs, cause);
            assert(rc == ctx);
            assert(g.pruned(specs, rc.targets, rc) =~= Seq::<Seq<Target>>::empty());
            lemma_one_effect(g, ctx, specs, e);
        }
    }
}

// ----- what effects ask for -----

/// "Discard" and "sacrifice" ask each player meant, in order, for as many as the
/// effect says, and do nothing by themselves.
pub proof fn law_effects_that_ask_players(
    g: GameModel,
    ctx: CtxModel,
    player: crate::ir::PlayerRef,
    count: crate::ir::Amount,
    random: bool,
    filter: Filter,
)
    ensures
        ({
            let d = Effect::Discard { player, count, random };
            let s = Effect::Sacrifice { player, filter, count };
            &&& g.effect_frames(ctx, d) == seq![
                FrameModel::Discard {
                    seats: g.players_of(player, ctx),
                    count: g.amount(count, ctx),
                    random,
                },
            ]
            &&& g.effect_frames(ctx, s) == seq![
                FrameModel::Sacrifice {
                    seats: g.players_of(player, ctx),
                    filter,
                    count: g.amount(count, ctx),
                },
            ]
            &&& g.apply_effect(ctx, d) == g
            &&& g.apply_effect(ctx, s) == g
        }),
{
    reveal(GameModel::effect_frames);
    reveal(GameModel::apply_effect);
}

/// Whoever is to discard picks as many cards as asked for among those in their
/// own hand; whoever is to sacrifice, among what they control that matches.
pub proof fn law_players_pick_their_own(
    g: GameModel,
    ctx: CtxModel,
    s: Seat,
    count: i32,
    filter: Filter,
    id: ObjectId,
)
    requires
        count > 0,
        g.hand(s).len() > 0,
    ensures
        ({
            let f = FrameModel::Discard { seats: seq![s], count, random: false };
            let top = g.frame_pushes(f, ctx).last();
            &&& top matches FrameModel::Choose { seat, options, min, max, .. } && seat == s && min
                == count && max == count && (options.contains(Target::Object(id)) <==> g.hand(
                s,
            ).contains(id))
            &&& g.frame_game(f, ctx) == g
        }),
        ({
            let f = FrameModel::Sacrifice { seats: seq![s], filter, count };
            let top = g.frame_pushes(f, ctx).last();
            g.sacrifices(s, filter, ctx).len() > 0 ==> (top matches FrameModel::Choose {
                seat,
                options,
                min,
                max,
                ..
            } && seat == s && min == count && max == count && (options.contains(Target::Object(id))
                <==> g.battlefield(s).contains(id) && g.object_matches(
                id,
                filter,
                ctx.as_seen_by(s),
            )))
        }),
{
    let hand = crate::seqs::sort(g.hand(s));
    crate::seqs::lemma_sort_members(g.hand(s), id);
    law_what_may_be_sacrificed(g, s, filter, ctx, id);
    lemma_as_targets(hand, id);
    lemma_as_targets(g.sacrifices(s, filter, ctx), id);
    assert(seq![s][0] == s);
}

proof fn lemma_as_targets(ids: Seq<ObjectId>, id: ObjectId)
    ensures
        crate::filter::as_targets(ids).contains(Target::Object(id)) <==> ids.contains(id),
{
    let ts = crate::filter::as_targets(ids);
    if ids.contains(id) {
        let i = choose|i: int| 0 <= i < ids.len() && ids[i] == id;
        assert(ts[i] == Target::Object(id));
    }
    if ts.contains(Target::Object(id)) {
        let i = choose|i: int| 0 <= i < ts.len() && ts[i] == Target::Object(id);
        assert(ids[i] == id);
    }
}

/// An effect on something of a player's choosing first asks for it, and then is
/// done to what was picked.
pub proof fn law_effects_ask_for_their_picks(
    g: GameModel,
    ctx: CtxModel,
    who: crate::ir::PlayerRef,
    filter: std::sync::Arc<Filter>,
    count: Quantity,
    b: Bind,
    s: Seat,
)
    requires
        g.players_of(who, ctx).len() > 0,
        g.players_of(who, ctx)[0] == s,
    ensures
        ({
            let target = crate::ir::Ref::Chosen { who, filter, count, bind: Some(b) };
            let e = Effect::Destroy { target };
            let frames = g.step_frames(ctx, e);
            let (lo, hi) = pick_bounds(count, g.choosable(*filter, ctx).len());
            &&& g.step(ctx, e) == g
            &&& frames.len() == 2
            &&& frames[0] == (FrameModel::Effects {
                effects: seq![Effect::Destroy { target: crate::ir::Ref::Named(b) }],
                next: 0,
            })
            &&& frames[1] matches FrameModel::Choose { seat, options, min, max, bind, .. } && seat
                == s && options == g.choosable(*filter, ctx) && min == lo && max == hi && bind == b
        }),
{
    reveal(GameModel::ask_frames);
}

} // verus!
