//! What a seat is shown does not depend on what it cannot see.
use crate::action::{ActionModel, PaymentModel};
use crate::error::ErrorModel;
use crate::event::{EventFacts, EventModel};
use crate::ir::{Amount, Condition, Cost, Effect, Filter, PlayerRef, Ref, Static};
use crate::mana::{add_units, capacity, search, spend_pool, surplus, Pick};
use crate::seqs::{lemma_sort_members, sort, without};
use crate::sound::{lemma_moved, lemma_without};
use crate::state::{CtxModel, GameModel, ObjectModel, PlayerModel};
use crate::types::{sat_i32, Keyword, Mana, ManaCost, ManaPool, ObjectId, Seat, Zone};
use vstd::prelude::*;

verus! {

// ----- the same board -----

impl ObjectModel {
    /// A viewer may know the object: it is in a public zone, or in the
    /// viewer's own hand.
    pub open spec fn seen_by(self, viewer: Option<Seat>) -> bool {
        self.zone.public() || (self.zone is Hand && viewer == Some(self.owner))
    }
}

impl GameModel {
    /// An object is the same in both games.
    pub open spec fn knows(self, h: GameModel, id: ObjectId) -> bool {
        self.has_obj(id) ==> h.obj(id) == self.obj(id)
    }

    pub open spec fn knows_all(self, h: GameModel, ids: Seq<ObjectId>) -> bool {
        forall|k: int| 0 <= k < ids.len() ==> self.knows(h, #[trigger] ids[k])
    }

    /// What the list names may be known to a viewer.
    pub open spec fn sees_all(self, viewer: Option<Seat>, ids: Seq<ObjectId>) -> bool {
        forall|k: int|
            0 <= k < ids.len() ==> self.has_obj(#[trigger] ids[k]) && self.obj(ids[k]).seen_by(
                viewer,
            )
    }

    /// What a viewer may know of the objects is the same, and so is whatever
    /// that names.
    #[verifier::opaque]
    pub open spec fn same_board(self, h: GameModel, viewer: Option<Seat>) -> bool {
        &&& h.objects.len() == self.objects.len()
        &&& h.cards == self.cards
        &&& h.tokens == self.tokens
        &&& h.turn_order == self.turn_order
        &&& h.stack == self.stack
        &&& h.players.len() == self.players.len()
        &&& forall|i: int|
            #![trigger self.players[i]]
            #![trigger h.players[i]]
            0 <= i < self.players.len() ==> h.players[i].life == self.players[i].life
                && h.players[i].eliminated == self.players[i].eliminated
                && h.players[i].battlefield == self.players[i].battlefield
                && h.players[i].graveyard == self.players[i].graveyard && self.sees_all(
                viewer,
                self.players[i].battlefield,
            ) && self.sees_all(viewer, self.players[i].graveyard)
        &&& forall|i: int|
            #![trigger self.objects[i]]
            #![trigger h.objects[i]]
            0 <= i < self.objects.len() && (self.objects[i].seen_by(viewer)
                || h.objects[i].seen_by(viewer)) ==> h.objects[i] == self.objects[i] && (
            self.objects[i].attached_to matches Some(t) ==> self.knows(h, t))
        &&& forall|i: int|
            #![trigger self.stack[i]]
            0 <= i < self.stack.len() ==> self.knows(h, self.stack[i].object)
    }

    /// A context that names nothing but its source, which the viewer may know.
    pub open spec fn plain(self, h: GameModel, viewer: Option<Seat>, ctx: CtxModel) -> bool {
        &&& ctx.targets.len() == 0
        &&& ctx.triggering is None
        &&& ctx.bindings.len() == 0
        &&& ctx.this matches Some(t) ==> self.has_obj(t) && self.obj(t).seen_by(viewer)
    }
}

/// What may be known is, and what it is attached to.
pub(crate) proof fn lemma_seen(g: GameModel, h: GameModel, v: Option<Seat>, id: ObjectId)
    requires
        g.same_board(h, v),
        g.has_obj(id),
        g.obj(id).seen_by(v),
    ensures
        g.knows(h, id),
        g.obj(id).attached_to matches Some(t) ==> g.knows(h, t),
{
    reveal(GameModel::same_board);
    assert(g.objects[id.0 - 1].seen_by(v));
}

proof fn lemma_sees_all(g: GameModel, h: GameModel, v: Option<Seat>, ids: Seq<ObjectId>)
    requires
        g.same_board(h, v),
        g.sees_all(v, ids),
    ensures
        g.knows_all(h, ids),
{
    assert forall|k: int| 0 <= k < ids.len() implies g.knows(h, #[trigger] ids[k]) by {
        lemma_seen(g, h, v, ids[k]);
    }
}

proof fn lemma_zone_ids(g: GameModel, h: GameModel, v: Option<Seat>, n: nat)
    requires
        g.same_board(h, v),
        n <= g.objects.len(),
    ensures
        h.zone_ids(Zone::Battlefield, n) == g.zone_ids(Zone::Battlefield, n),
    decreases n,
{
    reveal(GameModel::same_board);
    if n > 0 {
        lemma_zone_ids(g, h, v, (n - 1) as nat);
        assert(g.objects[n - 1].zone == Zone::Battlefield ==> g.objects[n - 1].seen_by(v));
        assert(h.objects[n - 1].zone == Zone::Battlefield ==> h.objects[n - 1].seen_by(v));
    }
}

proof fn lemma_zone_seen(g: GameModel, v: Option<Seat>, n: nat)
    requires
        n <= g.objects.len() <= u32::MAX,
    ensures
        forall|k: int|
            0 <= k < g.zone_ids(Zone::Battlefield, n).len() ==> g.in_zone(
                #[trigger] g.zone_ids(Zone::Battlefield, n)[k],
                Zone::Battlefield,
            ),
    decreases n,
{
    if n > 0 {
        lemma_zone_seen(g, v, (n - 1) as nat);
        let rest = g.zone_ids(Zone::Battlefield, (n - 1) as nat);
        let all = g.zone_ids(Zone::Battlefield, n);
        assert forall|k: int| 0 <= k < all.len() implies g.in_zone(
            #[trigger] all[k],
            Zone::Battlefield,
        ) by {
            if k < rest.len() {
                assert(all[k] == rest[k]);
            } else {
                assert(all[k] == ObjectId(n as u32));
            }
        }
    }
}

/// The battlefield is the same, and known.
proof fn lemma_field(g: GameModel, h: GameModel, v: Option<Seat>)
    requires
        g.same_board(h, v),
        g.objects.len() <= u32::MAX,
    ensures
        h.on_battlefield() == g.on_battlefield(),
        g.knows_all(h, g.on_battlefield()),
        g.sees_all(v, g.on_battlefield()),
        forall|k: int|
            0 <= k < g.on_battlefield().len() ==> g.in_zone(
                #[trigger] g.on_battlefield()[k],
                Zone::Battlefield,
            ),
{
    lemma_zone_ids(g, h, v, g.objects.len());
    lemma_zone_seen(g, v, g.objects.len());
    assert(h.objects.len() == g.objects.len()) by {
        reveal(GameModel::same_board);
    }
    assert(g.sees_all(v, g.on_battlefield()));
    lemma_sees_all(g, h, v, g.on_battlefield());
}

proof fn lemma_yards(g: GameModel, h: GameModel, v: Option<Seat>, n: nat)
    requires
        g.same_board(h, v),
        n <= g.players.len(),
    ensures
        h.graveyards(n) == g.graveyards(n),
        g.knows_all(h, g.graveyards(n)),
    decreases n,
{
    reveal(GameModel::same_board);
    if n > 0 {
        lemma_yards(g, h, v, (n - 1) as nat);
        let before = g.graveyards((n - 1) as nat);
        let more = g.players[n - 1].graveyard;
        assert(g.sees_all(v, more));
        lemma_sees_all(g, h, v, more);
        assert forall|k: int| 0 <= k < g.graveyards(n).len() implies g.knows(
            h,
            #[trigger] g.graveyards(n)[k],
        ) by {
            if k < before.len() {
                assert(g.graveyards(n)[k] == before[k]);
            } else {
                assert(g.graveyards(n)[k] == more[k - before.len()]);
            }
        }
    }
}

proof fn lemma_candidates(g: GameModel, h: GameModel, v: Option<Seat>, f: &Filter)
    requires
        g.same_board(h, v),
        g.objects.len() <= u32::MAX,
    ensures
        h.candidates(*f) == g.candidates(*f),
        g.knows_all(h, g.candidates(*f)),
{
    lemma_field(g, h, v);
    lemma_yards(g, h, v, g.players.len());
    reveal(GameModel::same_board);
    assert(h.stack_objects() =~= g.stack_objects());
    assert forall|k: int| 0 <= k < g.stack_objects().len() implies g.knows(
        h,
        #[trigger] g.stack_objects()[k],
    ) by {
        assert(g.knows(h, g.stack[k].object));
    }
}

/// What is known of an object, and of a seat.
pub(crate) proof fn lemma_same(
    g: GameModel,
    h: GameModel,
    v: Option<Seat>,
    id: ObjectId,
    seat: Seat,
)
    requires
        g.same_board(h, v),
        g.knows(h, id),
    ensures
        h.has_obj(id) == g.has_obj(id),
        h.has_def(id) == g.has_def(id),
        g.has_obj(id) ==> h.obj(id) == g.obj(id) && h.def(id) == g.def(id),
        h.has_seat(seat) == g.has_seat(seat),
        h.life(seat) == g.life(seat),
        g.has_seat(seat) ==> h.player(seat).life == g.player(seat).life,
        h.battlefield(seat) == g.battlefield(seat),
        g.knows_all(h, g.battlefield(seat)),
        g.sees_all(v, g.battlefield(seat)),
        h.in_game(seat) == g.in_game(seat),
        h.turn_order == g.turn_order,
        h.depth() == g.depth(),
{
    reveal(GameModel::same_board);
    if g.has_seat(seat) {
        assert(h.players[seat.0 as int].life == g.players[seat.0 as int].life);
        lemma_sees_all(g, h, v, g.players[seat.0 as int].battlefield);
    }
}

// ----- evaluation -----

proof fn eq_matches(
    g: GameModel,
    h: GameModel,
    v: Option<Seat>,
    d: nat,
    id: ObjectId,
    f: &Filter,
    ctx: CtxModel,
)
    requires
        g.same_board(h, v),
        g.objects.len() <= u32::MAX,
        g.plain(h, v, ctx),
        g.knows(h, id),
    ensures
        h.matches(d, id, *f, ctx) == g.matches(d, id, *f, ctx),
    decreases d, 0nat, *f, 0nat,
{
    lemma_same(g, h, v, id, ctx.you);
    match f {
        Filter::Targets(_, inner) => {
            eq_matches(g, h, v, d, id, &**inner, ctx);
        },
        Filter::InGraveyard(p) => {
            eq_players(g, h, v, d, p, ctx);
        },
        Filter::ControlledBy(p) => {
            eq_players(g, h, v, d, p, ctx);
        },
        Filter::Attached => {
            if let Some(t) = ctx.this {
                lemma_seen(g, h, v, t);
                lemma_same(g, h, v, t, ctx.you);
            }
        },
        Filter::PowerAtLeast(_) => {
            if d > 0 {
                eq_stats(g, h, v, (d - 1) as nat, id);
            }
        },
        Filter::PowerAtMost(_) => {
            if d > 0 {
                eq_stats(g, h, v, (d - 1) as nat, id);
            }
        },
        Filter::HasKeyword(k) => {
            if d > 0 {
                eq_keyword(g, h, v, (d - 1) as nat, id, *k);
            }
        },
        Filter::And(fs) => {
            eq_all(g, h, v, d, id, fs@, ctx, fs@.len());
        },
        Filter::Or(fs) => {
            eq_any(g, h, v, d, id, fs@, ctx, fs@.len());
        },
        Filter::Not(inner) => {
            eq_matches(g, h, v, d, id, &**inner, ctx);
        },
        _ => {},
    }
}

proof fn eq_all(
    g: GameModel,
    h: GameModel,
    v: Option<Seat>,
    d: nat,
    id: ObjectId,
    fs: Seq<Filter>,
    ctx: CtxModel,
    n: nat,
)
    requires
        g.same_board(h, v),
        g.objects.len() <= u32::MAX,
        g.plain(h, v, ctx),
        g.knows(h, id),
    ensures
        h.all_match(d, id, fs, ctx, n) == g.all_match(d, id, fs, ctx, n),
    decreases d, 0nat, fs, n,
{
    if n > 0 && n <= fs.len() {
        eq_all(g, h, v, d, id, fs, ctx, (n - 1) as nat);
        eq_matches(g, h, v, d, id, &fs[n - 1], ctx);
    }
}

proof fn eq_any(
    g: GameModel,
    h: GameModel,
    v: Option<Seat>,
    d: nat,
    id: ObjectId,
    fs: Seq<Filter>,
    ctx: CtxModel,
    n: nat,
)
    requires
        g.same_board(h, v),
        g.objects.len() <= u32::MAX,
        g.plain(h, v, ctx),
        g.knows(h, id),
    ensures
        h.any_match(d, id, fs, ctx, n) == g.any_match(d, id, fs, ctx, n),
    decreases d, 0nat, fs, n,
{
    if n > 0 && n <= fs.len() {
        eq_any(g, h, v, d, id, fs, ctx, (n - 1) as nat);
        eq_matches(g, h, v, d, id, &fs[n - 1], ctx);
    }
}

proof fn eq_matching(
    g: GameModel,
    h: GameModel,
    v: Option<Seat>,
    d: nat,
    ids: Seq<ObjectId>,
    f: &Filter,
    ctx: CtxModel,
    n: nat,
)
    requires
        g.same_board(h, v),
        g.objects.len() <= u32::MAX,
        g.plain(h, v, ctx),
        g.knows_all(h, ids),
    ensures
        h.matching_ids(d, ids, *f, ctx, n) == g.matching_ids(d, ids, *f, ctx, n),
        g.knows_all(h, g.matching_ids(d, ids, *f, ctx, n)),
    decreases d, 0nat, *f, n + 1,
{
    if n > 0 && n <= ids.len() {
        eq_matching(g, h, v, d, ids, f, ctx, (n - 1) as nat);
        eq_matches(g, h, v, d, ids[n - 1], f, ctx);
    }
}

proof fn eq_players(
    g: GameModel,
    h: GameModel,
    v: Option<Seat>,
    d: nat,
    p: &PlayerRef,
    ctx: CtxModel,
)
    requires
        g.same_board(h, v),
        g.objects.len() <= u32::MAX,
        g.plain(h, v, ctx),
    ensures
        h.players_at(d, *p, ctx) == g.players_at(d, *p, ctx),
    decreases d, 0nat, *p, 0nat,
{
    assert(h.turn_order == g.turn_order) by {
        reveal(GameModel::same_board);
    }
    match p {
        PlayerRef::Controller(r) => {
            let r1: &Ref = &**r;
            eq_objects(g, h, v, d, r1, ctx);
            let ids = g.objects_at(d, *r1, ctx);
            lemma_controllers(g, h, v, ids, ids.len());
        },
        PlayerRef::Owner(r) => {
            let r1: &Ref = &**r;
            eq_objects(g, h, v, d, r1, ctx);
            let ids = g.objects_at(d, *r1, ctx);
            lemma_controllers(g, h, v, ids, ids.len());
        },
        _ => {},
    }
}

proof fn lemma_controllers(g: GameModel, h: GameModel, v: Option<Seat>, ids: Seq<ObjectId>, n: nat)
    requires
        g.same_board(h, v),
        g.knows_all(h, ids),
    ensures
        h.controllers(ids, n) == g.controllers(ids, n),
        h.owners(ids, n) == g.owners(ids, n),
    decreases n,
{
    if n > 0 && n <= ids.len() {
        lemma_controllers(g, h, v, ids, (n - 1) as nat);
        lemma_same(g, h, v, ids[n - 1], Seat(0));
    }
}

proof fn eq_objects(g: GameModel, h: GameModel, v: Option<Seat>, d: nat, r: &Ref, ctx: CtxModel)
    requires
        g.same_board(h, v),
        g.objects.len() <= u32::MAX,
        g.plain(h, v, ctx),
    ensures
        h.objects_at(d, *r, ctx) == g.objects_at(d, *r, ctx),
        g.knows_all(h, g.objects_at(d, *r, ctx)),
    decreases d, 0nat, *r, 0nat,
{
    if let Some(t) = ctx.this {
        lemma_seen(g, h, v, t);
        lemma_same(g, h, v, t, ctx.you);
    }
    match r {
        Ref::Each(f) => {
            let f1: &Filter = &**f;
            lemma_candidates(g, h, v, f1);
            let ids = g.candidates(*f1);
            eq_matching(g, h, v, d, ids, f1, ctx, ids.len());
        },
        _ => {},
    }
}

proof fn eq_controls(
    g: GameModel,
    h: GameModel,
    v: Option<Seat>,
    d: nat,
    seats: Seq<Seat>,
    f: &Filter,
    at_least: i32,
    ctx: CtxModel,
    n: nat,
)
    requires
        g.same_board(h, v),
        g.objects.len() <= u32::MAX,
        g.plain(h, v, ctx),
    ensures
        h.any_controls(d, seats, *f, at_least, ctx, n) == g.any_controls(
            d,
            seats,
            *f,
            at_least,
            ctx,
            n,
        ),
    decreases d, 1nat, *f, n,
{
    if n > 0 && n <= seats.len() {
        eq_controls(g, h, v, d, seats, f, at_least, ctx, (n - 1) as nat);
        let s = seats[n - 1];
        lemma_same(g, h, v, ObjectId(0), s);
        let held = g.battlefield(s);
        eq_matching(g, h, v, d, held, f, ctx.as_seen_by(s), held.len());
    }
}

proof fn lemma_any_life(
    g: GameModel,
    h: GameModel,
    v: Option<Seat>,
    seats: Seq<Seat>,
    at_least: bool,
    amount: i32,
    n: nat,
)
    requires
        g.same_board(h, v),
    ensures
        h.any_life(seats, at_least, amount, n) == g.any_life(seats, at_least, amount, n),
    decreases n,
{
    if n > 0 && n <= seats.len() {
        lemma_any_life(g, h, v, seats, at_least, amount, (n - 1) as nat);
        lemma_same(g, h, v, ObjectId(0), seats[n - 1]);
    }
}

proof fn eq_condition(
    g: GameModel,
    h: GameModel,
    v: Option<Seat>,
    d: nat,
    c: Condition,
    ctx: CtxModel,
)
    requires
        g.same_board(h, v),
        g.objects.len() <= u32::MAX,
        g.plain(h, v, ctx),
    ensures
        h.condition_at(d, c, ctx) == g.condition_at(d, c, ctx),
    decreases d, 2nat, Filter::Any, 0nat,
{
    match c {
        Condition::Controls { player, filter, at_least } => {
            eq_players(g, h, v, d, &player, ctx);
            let seats = g.players_at(d, player, ctx);
            eq_controls(g, h, v, d, seats, &filter, at_least, ctx, seats.len());
        },
        Condition::LifeAtLeast { player, amount } => {
            eq_players(g, h, v, d, &player, ctx);
            let seats = g.players_at(d, player, ctx);
            lemma_any_life(g, h, v, seats, true, amount, seats.len());
        },
        Condition::LifeAtMost { player, amount } => {
            eq_players(g, h, v, d, &player, ctx);
            let seats = g.players_at(d, player, ctx);
            lemma_any_life(g, h, v, seats, false, amount, seats.len());
        },
    }
}

proof fn eq_amount(g: GameModel, h: GameModel, v: Option<Seat>, d: nat, a: &Amount, ctx: CtxModel)
    requires
        g.same_board(h, v),
        g.objects.len() <= u32::MAX,
        g.plain(h, v, ctx),
    ensures
        h.amount_at(d, *a, ctx) == g.amount_at(d, *a, ctx),
    decreases d, 1nat, *a, 0nat,
{
    match a {
        Amount::Count(f) => {
            lemma_field(g, h, v);
            let ids = g.on_battlefield();
            eq_matching(g, h, v, d, ids, f, ctx, ids.len());
        },
        Amount::LifeOf(p) => {
            eq_players(g, h, v, d, p, ctx);
            let seats = g.players_at(d, *p, ctx);
            if seats.len() > 0 {
                lemma_same(g, h, v, ObjectId(0), seats[0]);
            }
        },
        Amount::PowerOf(r) => {
            eq_objects(g, h, v, d, r, ctx);
            let ids = g.objects_at(d, *r, ctx);
            if ids.len() > 0 {
                lemma_same(g, h, v, ids[0], ctx.you);
                if d > 0 {
                    eq_stats(g, h, v, (d - 1) as nat, ids[0]);
                }
            }
        },
        Amount::Neg(b) => {
            eq_amount(g, h, v, d, &**b, ctx);
        },
        _ => {},
    }
}

proof fn eq_statics_of(g: GameModel, h: GameModel, v: Option<Seat>, d: nat, id: ObjectId, n: nat)
    requires
        g.same_board(h, v),
        g.objects.len() <= u32::MAX,
        g.in_zone(id, Zone::Battlefield),
        g.knows(h, id),
    ensures
        h.statics_of(d, id, n) == g.statics_of(d, id, n),
        forall|k: int|
            0 <= k < g.statics_of(d, id, n).len() ==> (#[trigger] g.statics_of(d, id, n)[k]).0
                == id,
    decreases d, 3nat, Filter::Any, n,
{
    lemma_same(g, h, v, id, Seat(0));
    if n > 0 && n <= g.def(id).statics.len() {
        eq_statics_of(g, h, v, d, id, (n - 1) as nat);
        match g.def(id).statics[n - 1] {
            Static::AsLongAs { condition, static_ } => {
                eq_condition(
                    g,
                    h,
                    v,
                    d,
                    condition,
                    CtxModel::simple(g.obj(id).controller, Some(id)),
                );
            },
            _ => {},
        }
    }
}

/// The source of a static is a permanent.
spec fn sourced(g: GameModel, ss: Seq<(ObjectId, Static)>) -> bool {
    forall|k: int| 0 <= k < ss.len() ==> g.in_zone((#[trigger] ss[k]).0, Zone::Battlefield)
}

proof fn eq_statics_n(g: GameModel, h: GameModel, v: Option<Seat>, d: nat, n: nat)
    requires
        g.same_board(h, v),
        g.objects.len() <= u32::MAX,
    ensures
        h.statics_n(d, n) == g.statics_n(d, n),
        sourced(g, g.statics_n(d, n)),
    decreases d, 4nat, Filter::Any, n,
{
    lemma_field(g, h, v);
    let ids = g.on_battlefield();
    if n > 0 && n <= ids.len() {
        eq_statics_n(g, h, v, d, (n - 1) as nat);
        let id = ids[n - 1];
        assert(g.knows(h, id));
        lemma_same(g, h, v, id, Seat(0));
        if g.statics_active(id) {
            eq_statics_of(g, h, v, d, id, g.def(id).statics.len());
            let rest = g.statics_n(d, (n - 1) as nat);
            let more = g.statics_of(d, id, g.def(id).statics.len());
            assert forall|k: int| 0 <= k < (rest + more).len() implies g.in_zone(
                (#[trigger] (rest + more)[k]).0,
                Zone::Battlefield,
            ) by {
                if k < rest.len() {
                    assert((rest + more)[k] == rest[k]);
                } else {
                    assert((rest + more)[k] == more[k - rest.len()]);
                }
            }
        }
    }
}

proof fn eq_statics(g: GameModel, h: GameModel, v: Option<Seat>, d: nat)
    requires
        g.same_board(h, v),
        g.objects.len() <= u32::MAX,
    ensures
        h.statics(d) == g.statics(d),
        sourced(g, g.statics(d)),
    decreases d, 5nat, Filter::Any, 0nat,
{
    lemma_field(g, h, v);
    eq_statics_n(g, h, v, d, g.on_battlefield().len());
}

proof fn lemma_static_ctx(
    g: GameModel,
    h: GameModel,
    v: Option<Seat>,
    ss: Seq<(ObjectId,
    Static)>,
    k: int,
)
    requires
        g.same_board(h, v),
        sourced(g, ss),
        0 <= k < ss.len(),
    ensures
        h.static_ctx(ss[k].0) == g.static_ctx(ss[k].0),
        g.plain(h, v, g.static_ctx(ss[k].0)),
{
    let id = ss[k].0;
    lemma_seen(g, h, v, id);
    lemma_same(g, h, v, id, Seat(0));
}

proof fn eq_boosted(
    g: GameModel,
    h: GameModel,
    v: Option<Seat>,
    d: nat,
    id: ObjectId,
    ss: Seq<(ObjectId, Static)>,
    base: (i32, i32),
    n: nat,
)
    requires
        g.same_board(h, v),
        g.objects.len() <= u32::MAX,
        g.knows(h, id),
        sourced(g, ss),
    ensures
        h.boosted(d, id, ss, base, n) == g.boosted(d, id, ss, base, n),
    decreases d, 6nat, Filter::Any, n,
{
    if n > 0 && n <= ss.len() {
        eq_boosted(g, h, v, d, id, ss, base, (n - 1) as nat);
        lemma_static_ctx(g, h, v, ss, n - 1);
        let (source, s) = ss[n - 1];
        let ctx = g.static_ctx(source);
        match s {
            Static::PtBoost { filter, power, toughness, .. } => {
                eq_matches(g, h, v, d, id, &filter, ctx);
                eq_amount(g, h, v, d, &power, ctx);
                eq_amount(g, h, v, d, &toughness, ctx);
            },
            _ => {},
        }
    }
}

pub(crate) proof fn eq_stats(g: GameModel, h: GameModel, v: Option<Seat>, d: nat, id: ObjectId)
    requires
        g.same_board(h, v),
        g.objects.len() <= u32::MAX,
        g.knows(h, id),
    ensures
        h.stats(d, id) == g.stats(d, id),
    decreases d, 7nat, Filter::Any, 0nat,
{
    lemma_same(g, h, v, id, Seat(0));
    if g.has_def(id) && g.def(id).pt is Some && g.obj(id).zone == Zone::Battlefield {
        eq_statics(g, h, v, d);
        let ss = g.statics(d);
        eq_boosted(g, h, v, d, id, ss, g.def(id).pt->0, ss.len());
    }
}

proof fn eq_granted(
    g: GameModel,
    h: GameModel,
    v: Option<Seat>,
    d: nat,
    id: ObjectId,
    k: Keyword,
    ss: Seq<(ObjectId, Static)>,
    n: nat,
)
    requires
        g.same_board(h, v),
        g.objects.len() <= u32::MAX,
        g.knows(h, id),
        sourced(g, ss),
    ensures
        h.granted(d, id, k, ss, n) == g.granted(d, id, k, ss, n),
    decreases d, 6nat, Filter::Any, n,
{
    if n > 0 && n <= ss.len() {
        eq_granted(g, h, v, d, id, k, ss, (n - 1) as nat);
        lemma_static_ctx(g, h, v, ss, n - 1);
        let (source, s) = ss[n - 1];
        let ctx = g.static_ctx(source);
        match s {
            Static::PtBoost { filter, .. } => {
                eq_matches(g, h, v, d, id, &filter, ctx);
            },
            Static::GrantKeyword { filter, .. } => {
                eq_matches(g, h, v, d, id, &filter, ctx);
            },
            _ => {},
        }
    }
}

proof fn eq_keyword(g: GameModel, h: GameModel, v: Option<Seat>, d: nat, id: ObjectId, k: Keyword)
    requires
        g.same_board(h, v),
        g.objects.len() <= u32::MAX,
        g.knows(h, id),
    ensures
        h.keyword(d, id, k) == g.keyword(d, id, k),
    decreases d, 7nat, Filter::Any, 0nat,
{
    lemma_same(g, h, v, id, Seat(0));
    if g.has_def(id) && g.obj(id).zone == Zone::Battlefield {
        eq_statics(g, h, v, d);
        let ss = g.statics(d);
        eq_granted(g, h, v, d, id, k, ss, ss.len());
    }
}

pub(crate) proof fn lemma_keywords(
    g: GameModel,
    h: GameModel,
    v: Option<Seat>,
    id: ObjectId,
    n: nat,
)
    requires
        g.same_board(h, v),
        g.objects.len() <= u32::MAX,
        g.knows(h, id),
    ensures
        h.keywords_n(id, n) == g.keywords_n(id, n),
    decreases n,
{
    if n > 0 && n <= Keyword::every().len() {
        lemma_keywords(g, h, v, id, (n - 1) as nat);
        lemma_same(g, h, v, id, Seat(0));
        eq_keyword(g, h, v, g.depth(), id, Keyword::every()[n - 1]);
    }
}

// ----- targets -----

proof fn eq_object_matches(
    g: GameModel,
    h: GameModel,
    v: Option<Seat>,
    id: ObjectId,
    f: &Filter,
    ctx: CtxModel,
)
    requires
        g.same_board(h, v),
        g.objects.len() <= u32::MAX,
        g.plain(h, v, ctx),
        g.knows(h, id),
    ensures
        h.object_matches(id, *f, ctx) == g.object_matches(id, *f, ctx),
{
    lemma_same(g, h, v, id, ctx.you);
    eq_matches(g, h, v, g.depth() + 1, id, f, ctx);
}

proof fn eq_spell(
    g: GameModel,
    h: GameModel,
    v: Option<Seat>,
    id: ObjectId,
    f: &Filter,
    ctx: CtxModel,
)
    requires
        g.same_board(h, v),
        g.objects.len() <= u32::MAX,
        g.plain(h, v, ctx),
        g.knows(h, id),
    ensures
        h.spell_matches(id, *f, ctx) == g.spell_matches(id, *f, ctx),
    decreases *f, 0nat,
{
    match f {
        Filter::Targets(_, inner) => {
            eq_spell(g, h, v, id, &**inner, ctx);
        },
        Filter::Spell => {},
        Filter::And(fs) => {
            eq_spells(g, h, v, id, fs@, ctx, fs@.len());
        },
        Filter::Or(fs) => {
            eq_spells(g, h, v, id, fs@, ctx, fs@.len());
        },
        Filter::Not(inner) => {
            eq_spell(g, h, v, id, &**inner, ctx);
        },
        _ => {
            eq_object_matches(g, h, v, id, f, ctx);
        },
    }
}

proof fn eq_spells(
    g: GameModel,
    h: GameModel,
    v: Option<Seat>,
    id: ObjectId,
    fs: Seq<Filter>,
    ctx: CtxModel,
    n: nat,
)
    requires
        g.same_board(h, v),
        g.objects.len() <= u32::MAX,
        g.plain(h, v, ctx),
        g.knows(h, id),
    ensures
        h.all_spell_match(id, fs, ctx, n) == g.all_spell_match(id, fs, ctx, n),
        h.any_spell_match(id, fs, ctx, n) == g.any_spell_match(id, fs, ctx, n),
    decreases fs, n,
{
    if n > 0 && n <= fs.len() {
        eq_spells(g, h, v, id, fs, ctx, (n - 1) as nat);
        eq_spell(g, h, v, id, &fs[n - 1], ctx);
    }
}

proof fn eq_player(
    g: GameModel,
    h: GameModel,
    v: Option<Seat>,
    seat: Seat,
    f: &Filter,
    ctx: CtxModel,
)
    requires
        g.same_board(h, v),
        g.objects.len() <= u32::MAX,
        g.plain(h, v, ctx),
    ensures
        h.player_matches(seat, *f, ctx) == g.player_matches(seat, *f, ctx),
    decreases *f, 0nat,
{
    lemma_same(g, h, v, ObjectId(0), seat);
    match f {
        Filter::Targets(_, inner) => {
            eq_player(g, h, v, seat, &**inner, ctx);
        },
        Filter::ControlledBy(p) => {
            eq_players(g, h, v, g.depth() + 1, p, ctx);
        },
        Filter::And(fs) => {
            eq_player_all(g, h, v, seat, fs@, ctx, fs@.len());
        },
        Filter::Or(fs) => {
            eq_player_all(g, h, v, seat, fs@, ctx, fs@.len());
        },
        Filter::Not(inner) => {
            eq_player(g, h, v, seat, &**inner, ctx);
        },
        _ => {},
    }
}

proof fn eq_player_all(
    g: GameModel,
    h: GameModel,
    v: Option<Seat>,
    seat: Seat,
    fs: Seq<Filter>,
    ctx: CtxModel,
    n: nat,
)
    requires
        g.same_board(h, v),
        g.objects.len() <= u32::MAX,
        g.plain(h, v, ctx),
    ensures
        h.all_players_match(seat, fs, ctx, n) == g.all_players_match(seat, fs, ctx, n),
        h.any_player_matches(seat, fs, ctx, n) == g.any_player_matches(seat, fs, ctx, n),
    decreases fs, n,
{
    if n > 0 && n <= fs.len() {
        eq_player_all(g, h, v, seat, fs, ctx, (n - 1) as nat);
        eq_player(g, h, v, seat, &fs[n - 1], ctx);
    }
}

proof fn eq_object_picks(
    g: GameModel,
    h: GameModel,
    v: Option<Seat>,
    ids: Seq<ObjectId>,
    f: &Filter,
    ctx: CtxModel,
    targeted: bool,
    n: nat,
)
    requires
        g.same_board(h, v),
        g.objects.len() <= u32::MAX,
        g.plain(h, v, ctx),
        g.knows_all(h, ids),
    ensures
        h.object_picks(ids, *f, ctx, targeted, n) == g.object_picks(ids, *f, ctx, targeted, n),
    decreases n,
{
    if n > 0 && n <= ids.len() {
        eq_object_picks(g, h, v, ids, f, ctx, targeted, (n - 1) as nat);
        let id = ids[n - 1];
        eq_object_matches(g, h, v, id, f, ctx);
        lemma_same(g, h, v, id, ctx.you);
        eq_keyword(g, h, v, g.depth(), id, Keyword::Hexproof);
    }
}

proof fn eq_player_picks(
    g: GameModel,
    h: GameModel,
    v: Option<Seat>,
    f: &Filter,
    ctx: CtxModel,
    n: nat,
)
    requires
        g.same_board(h, v),
        g.objects.len() <= u32::MAX,
        g.plain(h, v, ctx),
    ensures
        h.player_picks(*f, ctx, n) == g.player_picks(*f, ctx, n),
    decreases n,
{
    lemma_same(g, h, v, ObjectId(0), ctx.you);
    if n > 0 && n <= g.turn_order.len() {
        eq_player_picks(g, h, v, f, ctx, (n - 1) as nat);
        eq_player(g, h, v, g.turn_order[n - 1], f, ctx);
    }
}

proof fn eq_targets(g: GameModel, h: GameModel, v: Option<Seat>, f: &Filter, ctx: CtxModel)
    requires
        g.same_board(h, v),
        g.objects.len() <= u32::MAX,
        g.plain(h, v, ctx),
    ensures
        h.targets_for(*f, ctx) == g.targets_for(*f, ctx),
{
    lemma_same(g, h, v, ObjectId(0), ctx.you);
    lemma_candidates(g, h, v, f);
    let ids = g.candidates(*f);
    eq_object_picks(g, h, v, ids, f, ctx, true, ids.len());
    eq_player_picks(g, h, v, f, ctx, g.turn_order.len());
}

proof fn eq_combos(
    g: GameModel,
    h: GameModel,
    v: Option<Seat>,
    specs: Seq<Filter>,
    ctx: CtxModel,
    n: nat,
)
    requires
        g.same_board(h, v),
        g.objects.len() <= u32::MAX,
        g.plain(h, v, ctx),
    ensures
        h.target_combos_n(specs, ctx, n) == g.target_combos_n(specs, ctx, n),
    decreases n,
{
    if n > 0 && n <= specs.len() {
        eq_combos(g, h, v, specs, ctx, (n - 1) as nat);
        let f = specs[n - 1].inner();
        eq_targets(g, h, v, &f, ctx);
    }
}

proof fn eq_fillable(
    g: GameModel,
    h: GameModel,
    v: Option<Seat>,
    specs: Seq<Filter>,
    ctx: CtxModel,
)
    requires
        g.same_board(h, v),
        g.objects.len() <= u32::MAX,
        g.plain(h, v, ctx),
    ensures
        h.all_fillable(specs, ctx) == g.all_fillable(specs, ctx),
{
    assert forall|i: int| 0 <= i < specs.len() implies h.spec_fillable(#[trigger] specs[i], ctx)
        == g.spec_fillable(specs[i], ctx) by {
        let f = specs[i].inner();
        eq_targets(g, h, v, &f, ctx);
    }
    if g.all_fillable(specs, ctx) {
        assert forall|i: int| 0 <= i < specs.len() implies h.spec_fillable(
            #[trigger] specs[i],
            ctx,
        ) by {
            assert(g.spec_fillable(specs[i], ctx));
        }
    }
    if h.all_fillable(specs, ctx) {
        assert forall|i: int| 0 <= i < specs.len() implies g.spec_fillable(
            #[trigger] specs[i],
            ctx,
        ) by {
            assert(h.spec_fillable(specs[i], ctx));
        }
    }
}

proof fn eq_castable_modes(
    g: GameModel,
    h: GameModel,
    v: Option<Seat>,
    seat: Seat,
    id: ObjectId,
    n: nat,
)
    requires
        g.same_board(h, v),
        g.objects.len() <= u32::MAX,
        g.has_obj(id),
        g.obj(id).seen_by(v),
    ensures
        h.castable_modes(seat, id, n) == g.castable_modes(seat, id, n),
    decreases n,
{
    if n > 0 {
        eq_castable_modes(g, h, v, seat, id, (n - 1) as nat);
        lemma_seen(g, h, v, id);
        lemma_same(g, h, v, id, seat);
        let mode = (n - 1) as nat;
        if g.has_def(id) && g.def(id).spell is Some && mode < g.def(id).spell->0.modes@.len() {
            eq_fillable(
                g,
                h,
                v,
                g.def(id).spell->0.modes@[mode as int].targets@,
                CtxModel::simple(seat, Some(id)),
            );
        }
    }
}

// ----- mana -----

impl GameModel {
    /// What `seat` may know is the same: the board, and their own hand, pool
    /// and land drops.
    pub open spec fn same_side(self, h: GameModel, seat: Seat) -> bool {
        &&& self.same_board(h, Some(seat))
        &&& self.objects.len() <= u32::MAX
        &&& self.players.len() <= 255
        &&& self.has_seat(seat)
        &&& h.phase == self.phase
        &&& h.active_player == self.active_player
        &&& h.player(seat).hand == self.player(seat).hand
        &&& h.player(seat).mana_pool == self.player(seat).mana_pool
        &&& h.player(seat).lands_played_this_turn == self.player(seat).lands_played_this_turn
        &&& forall|k: int|
            0 <= k < self.player(seat).hand.len() ==> self.holds(
                seat,
                #[trigger] self.player(seat).hand[k],
            )
    }
}

proof fn lemma_side(g: GameModel, h: GameModel, seat: Seat)
    requires
        g.same_side(h, seat),
    ensures
        h.has_seat(seat),
        h.hand(seat) == g.hand(seat),
        h.pool(seat) == g.pool(seat),
        h.stack == g.stack,
        h.sorcery_timing(seat) == g.sorcery_timing(seat),
        g.sees_all(Some(seat), g.hand(seat)),
{
    reveal(GameModel::same_board);
}

proof fn eq_reduction(
    g: GameModel,
    h: GameModel,
    v: Option<Seat>,
    seat: Seat,
    id: ObjectId,
    ss: Seq<(ObjectId, Static)>,
    n: nat,
)
    requires
        g.same_board(h, v),
        g.objects.len() <= u32::MAX,
        g.has_obj(id),
        g.obj(id).seen_by(v),
        sourced(g, ss),
    ensures
        h.reduction(seat, id, ss, n) == g.reduction(seat, id, ss, n),
    decreases n,
{
    if n > 0 && n <= ss.len() {
        eq_reduction(g, h, v, seat, id, ss, (n - 1) as nat);
        let (source, s) = ss[n - 1];
        let ctx = CtxModel::simple(seat, Some(id));
        lemma_seen(g, h, v, source);
        lemma_same(g, h, v, source, seat);
        lemma_seen(g, h, v, id);
        match s {
            Static::CostReduction { filter, amount } => {
                eq_spell(g, h, v, id, &filter, ctx);
                eq_amount(g, h, v, g.depth() + 1, &amount, ctx);
            },
            _ => {},
        }
    }
}

proof fn eq_cast_cost(g: GameModel, h: GameModel, v: Option<Seat>, seat: Seat, id: ObjectId)
    requires
        g.same_board(h, v),
        g.objects.len() <= u32::MAX,
        g.has_obj(id),
        g.obj(id).seen_by(v),
    ensures
        h.cast_cost(seat, id) == g.cast_cost(seat, id),
{
    lemma_seen(g, h, v, id);
    lemma_same(g, h, v, id, seat);
    eq_statics(g, h, v, g.depth());
    let ss = g.statics(g.depth());
    eq_reduction(g, h, v, seat, id, ss, ss.len());
}

proof fn eq_mana_sum(
    g: GameModel,
    h: GameModel,
    v: Option<Seat>,
    effects: Seq<Effect>,
    ctx: CtxModel,
    n: nat,
)
    requires
        g.same_board(h, v),
        g.objects.len() <= u32::MAX,
        g.plain(h, v, ctx),
    ensures
        h.mana_sum(effects, ctx, n) == g.mana_sum(effects, ctx, n),
    decreases n,
{
    if n > 0 && n <= effects.len() {
        eq_mana_sum(g, h, v, effects, ctx, (n - 1) as nat);
        lemma_same(g, h, v, ObjectId(0), ctx.you);
        match effects[n - 1] {
            Effect::AddMana { amount, .. } => {
                eq_amount(g, h, v, g.depth() + 1, &amount, ctx);
            },
            _ => {},
        }
    }
}

proof fn eq_sources_n(
    g: GameModel,
    h: GameModel,
    v: Option<Seat>,
    seat: Seat,
    ids: Seq<ObjectId>,
    n: nat,
)
    requires
        g.same_board(h, v),
        g.objects.len() <= u32::MAX,
        g.sees_all(v, ids),
    ensures
        h.sources_n(seat, ids, n) == g.sources_n(seat, ids, n),
    decreases n,
{
    if n > 0 && n <= ids.len() {
        eq_sources_n(g, h, v, seat, ids, (n - 1) as nat);
        let id = ids[n - 1];
        assert(g.has_obj(id) && g.obj(id).seen_by(v));
        lemma_seen(g, h, v, id);
        lemma_same(g, h, v, id, seat);
        eq_keyword(g, h, v, g.depth(), id, Keyword::Haste);
        if g.has_def(id) {
            let def = g.def(id);
            let list = def.mana_list(def.activated.len());
            if list.len() > 0 {
                let effects = def.activated[list[0].2 as int].effects@;
                eq_mana_sum(
                    g,
                    h,
                    v,
                    effects,
                    CtxModel::simple(seat, Some(id)),
                    effects.len(),
                );
            }
        }
        assert(h.source(seat, id) == g.source(seat, id));
    }
}

proof fn eq_of_kind(
    g: GameModel,
    h: GameModel,
    v: Option<Seat>,
    sources: Seq<(ObjectId, Mana, i32)>,
    m: Mana,
    n: nat,
)
    requires
        g.same_board(h, v),
        forall|k: int|
            0 <= k < sources.len() ==> g.has_obj((#[trigger] sources[k]).0) && g.obj(
                sources[k].0,
            ).seen_by(v),
    ensures
        h.of_kind(sources, m, n) == g.of_kind(sources, m, n),
    decreases n,
{
    if n > 0 && n <= sources.len() {
        eq_of_kind(g, h, v, sources, m, (n - 1) as nat);
        let id = sources[n - 1].0;
        lemma_seen(g, h, v, id);
        lemma_same(g, h, v, id, Seat(0));
    }
}

proof fn eq_realise(
    g: GameModel,
    h: GameModel,
    v: Option<Seat>,
    sources: Seq<(ObjectId, Mana, i32)>,
    tapped: ManaPool,
    pooled: ManaPool,
    strategy: Pick,
    k: nat,
)
    requires
        g.same_board(h, v),
        forall|k: int|
            0 <= k < sources.len() ==> g.has_obj((#[trigger] sources[k]).0) && g.obj(
                sources[k].0,
            ).seen_by(v),
    ensures
        h.realise(sources, tapped, pooled, strategy, k) == g.realise(
            sources,
            tapped,
            pooled,
            strategy,
            k,
        ),
    decreases k,
{
    if k > 0 {
        eq_realise(g, h, v, sources, tapped, pooled, strategy, (k - 1) as nat);
        eq_of_kind(g, h, v, sources, Mana::at((k - 1) as nat), sources.len());
    }
}

proof fn eq_payments_n(
    g: GameModel,
    h: GameModel,
    v: Option<Seat>,
    sources: Seq<(ObjectId, Mana, i32)>,
    ways: Seq<(ManaPool, ManaPool)>,
    n: nat,
)
    requires
        g.same_board(h, v),
        forall|k: int|
            0 <= k < sources.len() ==> g.has_obj((#[trigger] sources[k]).0) && g.obj(
                sources[k].0,
            ).seen_by(v),
    ensures
        h.payments_n(sources, ways, n) == g.payments_n(sources, ways, n),
    decreases n,
{
    if n > 0 && n <= ways.len() {
        eq_payments_n(g, h, v, sources, ways, (n - 1) as nat);
        let way = ways[n - 1];
        eq_realise(g, h, v, sources, way.0, way.1, Pick::LandsFirst, 6);
        eq_realise(g, h, v, sources, way.0, way.1, Pick::ProducersFirst, 6);
    }
}

/// A source is one of the permanents looked at.
proof fn lemma_source_ids(g: GameModel, seat: Seat, ids: Seq<ObjectId>, n: nat)
    ensures
        forall|k: int|
            0 <= k < g.sources_n(seat, ids, n).len() ==> ids.contains(
                (#[trigger] g.sources_n(seat, ids, n)[k]).0,
            ),
    decreases n,
{
    if n > 0 && n <= ids.len() {
        lemma_source_ids(g, seat, ids, (n - 1) as nat);
        let rest = g.sources_n(seat, ids, (n - 1) as nat);
        let all = g.sources_n(seat, ids, n);
        assert forall|k: int| 0 <= k < all.len() implies ids.contains((#[trigger] all[k]).0) by {
            if k < rest.len() {
                assert(all[k] == rest[k]);
            } else {
                assert(ids[n - 1] == all[k].0);
            }
        }
    }
}

proof fn eq_sources(g: GameModel, h: GameModel, seat: Seat)
    requires
        g.same_side(h, seat),
    ensures
        h.sources(seat) == g.sources(seat),
        forall|k: int|
            0 <= k < g.sources(seat).len() ==> g.has_obj((#[trigger] g.sources(seat)[k]).0)
                && g.obj(g.sources(seat)[k].0).seen_by(Some(seat)),
{
    let v = Some(seat);
    lemma_same(g, h, v, ObjectId(0), seat);
    let ids = g.battlefield(seat);
    eq_sources_n(g, h, v, seat, ids, ids.len());
    lemma_source_ids(g, seat, ids, ids.len());
    let raw = g.sources_n(seat, ids, ids.len());
    assert forall|k: int| 0 <= k < g.sources(seat).len() implies g.has_obj(
        (#[trigger] g.sources(seat)[k]).0,
    ) && g.obj(g.sources(seat)[k].0).seen_by(v) by {
        let x = g.sources(seat)[k];
        assert(g.sources(seat).contains(x));
        lemma_sort_members(raw, x);
        let j = choose|j: int| 0 <= j < raw.len() && raw[j] == x;
        assert(ids.contains(raw[j].0));
        let i = choose|i: int| 0 <= i < ids.len() && ids[i] == raw[j].0;
        assert(g.has_obj(ids[i]));
    }
}

proof fn eq_payments(g: GameModel, h: GameModel, seat: Seat, cost: ManaCost)
    requires
        g.same_side(h, seat),
    ensures
        h.payments(seat, cost) == g.payments(seat, cost),
{
    eq_sources(g, h, seat);
    lemma_side(g, h, seat);
    let sources = g.sources(seat);
    let ways = search(
        0,
        capacity(sources, sources.len()),
        g.pool(seat),
        cost,
        cost.generic as int,
        ManaPool::none(),
        ManaPool::none(),
    );
    eq_payments_n(g, h, Some(seat), sources, ways, ways.len());
}

// ----- casts -----

proof fn eq_land_plays(g: GameModel, h: GameModel, v: Option<Seat>, ids: Seq<ObjectId>, n: nat)
    requires
        g.same_board(h, v),
        g.sees_all(v, ids),
    ensures
        h.land_plays(ids, n) == g.land_plays(ids, n),
    decreases n,
{
    if n > 0 && n <= ids.len() {
        eq_land_plays(g, h, v, ids, (n - 1) as nat);
        lemma_seen(g, h, v, ids[n - 1]);
        lemma_same(g, h, v, ids[n - 1], Seat(0));
    }
}

proof fn eq_casts(g: GameModel, h: GameModel, seat: Seat, ids: Seq<ObjectId>, n: nat)
    requires
        g.same_side(h, seat),
        g.sees_all(Some(seat), ids),
    ensures
        h.casts(seat, ids, n) == g.casts(seat, ids, n),
    decreases n,
{
    if n > 0 && n <= ids.len() {
        let v = Some(seat);
        eq_casts(g, h, seat, ids, (n - 1) as nat);
        let id = ids[n - 1];
        assert(g.has_obj(id) && g.obj(id).seen_by(v));
        lemma_seen(g, h, v, id);
        lemma_same(g, h, v, id, seat);
        lemma_side(g, h, seat);
        eq_cast_cost(g, h, v, seat, id);
        eq_payments(g, h, seat, g.cast_cost(seat, id).announced(0));
        let ctx = CtxModel::simple(seat, Some(id));
        if g.has_def(id) {
            let def = g.def(id);
            eq_combos(g, h, v, def.spell_specs(), ctx, def.spell_specs().len());
            eq_fillable(g, h, v, def.spell_specs(), ctx);
            if def.modal() {
                eq_castable_modes(g, h, v, seat, id, def.spell->0.modes@.len());
            }
        }
    }
}

// ----- paying -----

proof fn eq_covering(g: GameModel, h: GameModel, seat: Seat, p: PaymentModel, cost: ManaCost)
    requires
        g.same_side(h, seat),
    ensures
        h.covering(seat, p, cost) == g.covering(seat, p, cost),
{
    eq_sources(g, h, seat);
    lemma_side(g, h, seat);
}

/// Turning a permanent, or anything else about it that stays in the same
/// place, keeps two games alike.
proof fn side_tapped(g: GameModel, h: GameModel, seat: Seat, id: ObjectId)
    requires
        g.same_side(h, seat),
    ensures
        g.with_obj(id, ObjectModel { tapped: true, ..g.obj(id) }).same_side(
            h.with_obj(id, ObjectModel { tapped: true, ..h.obj(id) }),
            seat,
        ),
{
    reveal(GameModel::same_board);
    let v = Some(seat);
    let g1 = g.with_obj(id, ObjectModel { tapped: true, ..g.obj(id) });
    let h1 = h.with_obj(id, ObjectModel { tapped: true, ..h.obj(id) });
    assert forall|x: ObjectId| g.knows(h, x) implies #[trigger] g1.knows(h1, x) by {}
    assert forall|ids: Seq<ObjectId>| g.sees_all(v, ids) implies #[trigger] g1.sees_all(v, ids) by {
        assert forall|k: int| 0 <= k < ids.len() implies g1.has_obj(#[trigger] ids[k]) && g1.obj(
            ids[k],
        ).seen_by(v) by {
            assert(g.has_obj(ids[k]));
        }
    }
    assert forall|i: int|
        #![trigger g1.objects[i]]
        #![trigger h1.objects[i]]
        0 <= i < g1.objects.len() && (g1.objects[i].seen_by(v) || h1.objects[i].seen_by(
            v,
        )) implies h1.objects[i] == g1.objects[i] && (g1.objects[i].attached_to matches Some(t)
        ==> g1.knows(h1, t)) by {
        assert(g.objects[i].seen_by(v) || h.objects[i].seen_by(v));
    }
    assert forall|i: int| #![trigger g1.stack[i]] 0 <= i < g1.stack.len() implies g1.knows(
        h1,
        g1.stack[i].object,
    ) by {
        assert(g.knows(h, g.stack[i].object));
    }
    assert(g1.players == g.players && h1.players == h.players);
}

/// A changed log makes no difference.
proof fn side_told(g: GameModel, h: GameModel, seat: Seat, e: EventFacts, f: EventFacts)
    requires
        g.same_side(h, seat),
    ensures
        g.emit(e).same_side(h.emit(f), seat),
{
    reveal(GameModel::same_board);
    let v = Some(seat);
    let g1 = g.emit(e);
    let h1 = h.emit(f);
    assert(g1.objects == g.objects && h1.objects == h.objects && g1.players == g.players
        && h1.players == h.players);
    assert forall|x: ObjectId| g.knows(h, x) implies #[trigger] g1.knows(h1, x) by {}
    assert forall|ids: Seq<ObjectId>| g.sees_all(v, ids) implies #[trigger] g1.sees_all(v, ids) by {
        assert forall|k: int| 0 <= k < ids.len() implies g1.has_obj(#[trigger] ids[k]) && g1.obj(
            ids[k],
        ).seen_by(v) by {
            assert(g.has_obj(ids[k]));
        }
    }
    assert forall|i: int| #![trigger g1.stack[i]] 0 <= i < g1.stack.len() implies g1.knows(
        h1,
        g1.stack[i].object,
    ) by {
        assert(g.knows(h, g.stack[i].object));
    }
    assert forall|i: int|
        #![trigger g1.objects[i]]
        #![trigger h1.objects[i]]
        0 <= i < g1.objects.len() && (g1.objects[i].seen_by(v) || h1.objects[i].seen_by(
            v,
        )) implies h1.objects[i] == g1.objects[i] && (g1.objects[i].attached_to matches Some(t)
        ==> g1.knows(h1, t)) by {
        assert(g.objects[i].seen_by(v) || h.objects[i].seen_by(v));
    }
}

/// So do changes of one player that leave their lists alone.
proof fn side_player(g: GameModel, h: GameModel, seat: Seat, p: PlayerModel, q: PlayerModel)
    requires
        g.same_side(h, seat),
        p.same_lists(g.player(seat)),
        q.same_lists(h.player(seat)),
        p.eliminated == g.player(seat).eliminated,
        q.eliminated == h.player(seat).eliminated,
        p.life == q.life,
        p.mana_pool == q.mana_pool,
        p.lands_played_this_turn == q.lands_played_this_turn,
    ensures
        g.with_player(seat, p).same_side(h.with_player(seat, q), seat),
{
    reveal(GameModel::same_board);
    let v = Some(seat);
    let g1 = g.with_player(seat, p);
    let h1 = h.with_player(seat, q);
    assert(g1.objects == g.objects && h1.objects == h.objects);
    assert forall|x: ObjectId| g.knows(h, x) implies #[trigger] g1.knows(h1, x) by {}
    assert forall|ids: Seq<ObjectId>| g.sees_all(v, ids) implies #[trigger] g1.sees_all(v, ids) by {
        assert forall|k: int| 0 <= k < ids.len() implies g1.has_obj(#[trigger] ids[k]) && g1.obj(
            ids[k],
        ).seen_by(v) by {
            assert(g.has_obj(ids[k]));
        }
    }
    assert forall|i: int|
        #![trigger g1.players[i]]
        #![trigger h1.players[i]]
        0 <= i < g1.players.len() implies h1.players[i].life == g1.players[i].life
        && h1.players[i].eliminated == g1.players[i].eliminated && h1.players[i].battlefield
        == g1.players[i].battlefield && h1.players[i].graveyard == g1.players[i].graveyard
        && g1.sees_all(v, g1.players[i].battlefield) && g1.sees_all(
        v,
        g1.players[i].graveyard,
    ) by {
        assert(g.sees_all(v, g.players[i].battlefield));
        assert(g.sees_all(v, g.players[i].graveyard));
        assert(h.players[i].eliminated == g.players[i].eliminated);
    }
    assert forall|i: int| #![trigger g1.stack[i]] 0 <= i < g1.stack.len() implies g1.knows(
        h1,
        g1.stack[i].object,
    ) by {
        assert(g.knows(h, g.stack[i].object));
    }
    assert forall|i: int|
        #![trigger g1.objects[i]]
        #![trigger h1.objects[i]]
        0 <= i < g1.objects.len() && (g1.objects[i].seen_by(v) || h1.objects[i].seen_by(
            v,
        )) implies h1.objects[i] == g1.objects[i] && (g1.objects[i].attached_to matches Some(t)
        ==> g1.knows(h1, t)) by {
        assert(g.objects[i].seen_by(v) || h.objects[i].seen_by(v));
    }
    assert forall|k: int| 0 <= k < g1.player(seat).hand.len() implies g1.holds(
        seat,
        #[trigger] g1.player(seat).hand[k],
    ) by {
        assert(g.holds(seat, g.player(seat).hand[k]));
    }
}

/// Something that may be known goes to a graveyard.
proof fn side_buried(g: GameModel, h: GameModel, seat: Seat, x: ObjectId)
    requires
        g.same_side(h, seat),
        g.has_obj(x),
        g.obj(x).seen_by(Some(seat)),
        !(g.obj(x).zone is Stack),
    ensures
        g.move_object(x, Zone::Graveyard).same_side(h.move_object(x, Zone::Graveyard), seat),
        g.move_object(x, Zone::Graveyard).in_zone(x, Zone::Graveyard),
        forall|y: ObjectId|
            #![trigger g.move_object(x, Zone::Graveyard).obj(y)]
            g.has_obj(y) && y != x ==> g.move_object(x, Zone::Graveyard).has_obj(y)
                && g.move_object(x, Zone::Graveyard).obj(y) == g.obj(y),
{
    let v = Some(seat);
    lemma_seen(g, h, v, x);
    lemma_same(g, h, v, x, seat);
    if g.obj(x).zone != Zone::Graveyard {
        let to = Zone::Graveyard;
        let g1 = g.move_object(x, to);
        let h1 = h.move_object(x, to);
        lemma_moved(g, x, to);
        lemma_moved(h, x, to);
        reveal(GameModel::same_board);
        assert forall|y: ObjectId| g.knows(h, y) implies #[trigger] g1.knows(h1, y) by {}
        assert forall|y: ObjectId| g.has_obj(y) && g.obj(y).seen_by(v) implies (
        #[trigger] g1.obj(y)).seen_by(v) by {}
        assert forall|ids: Seq<ObjectId>| g.sees_all(v, ids) implies #[trigger] g1.sees_all(
            v,
            ids,
        ) by {
            assert forall|k: int| 0 <= k < ids.len() implies g1.has_obj(#[trigger] ids[k])
                && g1.obj(ids[k]).seen_by(v) by {
                assert(g.has_obj(ids[k]));
            }
        }
        assert forall|ids: Seq<ObjectId>| g.sees_all(v, ids) implies g1.sees_all(
            v,
            #[trigger] without(ids, x),
        ) by {
            lemma_without(ids, x);
            let left = without(ids, x);
            assert forall|k: int| 0 <= k < left.len() implies g1.has_obj(#[trigger] left[k])
                && g1.obj(left[k]).seen_by(v) by {
                assert(left.contains(left[k]));
                let j = choose|j: int| 0 <= j < ids.len() && ids[j] == left[k];
                assert(g.has_obj(ids[j]));
            }
        }
        assert forall|ids: Seq<ObjectId>| g.sees_all(v, ids) implies g1.sees_all(
            v,
            #[trigger] ids.push(x),
        ) by {
            let more = ids.push(x);
            assert forall|k: int| 0 <= k < more.len() implies g1.has_obj(#[trigger] more[k])
                && g1.obj(more[k]).seen_by(v) by {
                if k < ids.len() {
                    assert(more[k] == ids[k]);
                    assert(g.has_obj(ids[k]));
                }
            }
        }
        assert forall|i: int|
            #![trigger g1.players[i]]
            #![trigger h1.players[i]]
            0 <= i < g1.players.len() implies h1.players[i].life == g1.players[i].life
            && h1.players[i].eliminated == g1.players[i].eliminated && h1.players[i].battlefield
            == g1.players[i].battlefield && h1.players[i].graveyard == g1.players[i].graveyard
            && g1.sees_all(v, g1.players[i].battlefield) && g1.sees_all(
            v,
            g1.players[i].graveyard,
        ) by {
            let s = Seat(i as u8);
            assert(g.sees_all(v, g.players[i].battlefield));
            assert(g.sees_all(v, g.players[i].graveyard));
            assert(h.players[i].eliminated == g.players[i].eliminated);
            assert(g1.player(s) == g1.players[i] && h1.player(s) == h1.players[i]);
            assert(g.player(s) == g.players[i] && h.player(s) == h.players[i]);
            assert(g1.list(s, Zone::Battlefield) == g1.players[i].battlefield);
            assert(h1.list(s, Zone::Battlefield) == h1.players[i].battlefield);
            assert(g1.list(s, Zone::Graveyard) == g1.players[i].graveyard);
            assert(h1.list(s, Zone::Graveyard) == h1.players[i].graveyard);
            assert(g.list(s, Zone::Battlefield) == g.players[i].battlefield);
            assert(h.list(s, Zone::Battlefield) == h.players[i].battlefield);
            assert(g.list(s, Zone::Graveyard) == g.players[i].graveyard);
            assert(h.list(s, Zone::Graveyard) == h.players[i].graveyard);
        }
        assert(g1.list(seat, Zone::Hand) == g1.player(seat).hand);
        assert(h1.list(seat, Zone::Hand) == h1.player(seat).hand);
        assert(g.list(seat, Zone::Hand) == g.player(seat).hand);
        assert(h.list(seat, Zone::Hand) == h.player(seat).hand);
        lemma_without(g.hand(seat), x);
        assert forall|k: int| 0 <= k < g1.player(seat).hand.len() implies g1.holds(
            seat,
            #[trigger] g1.player(seat).hand[k],
        ) by {
            let y = g1.player(seat).hand[k];
            assert(g1.hand(seat).contains(y));
            assert(g.hand(seat).contains(y));
            let j = choose|j: int| 0 <= j < g.hand(seat).len() && g.hand(seat)[j] == y;
            assert(g.holds(seat, g.player(seat).hand[j]));
        }
        assert forall|i: int|
            #![trigger g1.objects[i]]
            #![trigger h1.objects[i]]
            0 <= i < g1.objects.len() && (g1.objects[i].seen_by(v) || h1.objects[i].seen_by(
                v,
            )) implies h1.objects[i] == g1.objects[i] && (
        g1.objects[i].attached_to matches Some(t) ==> g1.knows(h1, t)) by {
            if i != x.0 - 1 {
                assert(g.objects[i].seen_by(v) || h.objects[i].seen_by(v));
            }
        }
        assert forall|i: int| #![trigger g1.stack[i]] 0 <= i < g1.stack.len() implies g1.knows(
            h1,
            g1.stack[i].object,
        ) by {
            assert(g.knows(h, g.stack[i].object));
        }
        lemma_moved_rest(g, x, seat);
        lemma_moved_rest(h, x, seat);
    }
}

/// What moving an object leaves alone.
proof fn lemma_moved_rest(g: GameModel, x: ObjectId, seat: Seat)
    requires
        g.has_seat(seat),
    ensures
        ({
            let h = g.move_object(x, Zone::Graveyard);
            &&& h.player(seat).mana_pool == g.player(seat).mana_pool
            &&& h.player(seat).lands_played_this_turn == g.player(seat).lands_played_this_turn
            &&& h.phase == g.phase
            &&& h.active_player == g.active_player
        }),
{
}

proof fn side_tap_all(g: GameModel, h: GameModel, seat: Seat, ids: Seq<ObjectId>, n: nat)
    requires
        g.same_side(h, seat),
    ensures
        g.tap_all(ids, n).same_side(h.tap_all(ids, n), seat),
        g.tap_all(ids, n).players == g.players,
        h.tap_all(ids, n).players == h.players,
        forall|y: ObjectId|
            #![trigger g.tap_all(ids, n).obj(y)]
            g.has_obj(y) ==> g.tap_all(ids, n).has_obj(y) && g.tap_all(ids, n).obj(y).zone == g.obj(
                y,
            ).zone && g.tap_all(ids, n).obj(y).owner == g.obj(y).owner,
    decreases n,
{
    if n > 0 && n <= ids.len() {
        side_tap_all(g, h, seat, ids, (n - 1) as nat);
        let id = ids[n - 1];
        let a = g.tap_all(ids, (n - 1) as nat);
        let b = h.tap_all(ids, (n - 1) as nat);
        side_tapped(a, b, seat, id);
        let e: EventFacts = EventModel::Tapped { object: id };
        side_told(
            a.with_obj(id, ObjectModel { tapped: true, ..a.obj(id) }),
            b.with_obj(id, ObjectModel { tapped: true, ..b.obj(id) }),
            seat,
            e,
            e,
        );
        let c = g.tap_all(ids, n);
        assert forall|y: ObjectId|
            #![trigger c.obj(y)]
            g.has_obj(y) implies c.has_obj(y) && c.obj(y).zone == g.obj(y).zone && c.obj(y).owner
            == g.obj(y).owner by {
            assert(a.obj(y).zone == g.obj(y).zone);
        }
    }
}

/// Something whose abilities may be used: a permanent or a card in a graveyard.
spec fn in_reach(g: GameModel, id: ObjectId) -> bool {
    g.has_obj(id) && (g.obj(id).zone is Battlefield || g.obj(id).zone is Graveyard)
}

/// Both pay the same cost or neither does, and are alike after.
spec fn keeps_pace(
    a: Result<GameModel, ErrorModel>,
    b: Result<GameModel, ErrorModel>,
    seat: Seat,
    id: ObjectId,
) -> bool {
    match (a, b) {
        (Ok(g), Ok(h)) => g.same_side(h, seat) && in_reach(g, id),
        (Err(_), Err(_)) => true,
        _ => false,
    }
}

proof fn pace_mana(
    g: GameModel,
    h: GameModel,
    seat: Seat,
    id: ObjectId,
    p: PaymentModel,
    cost: ManaCost,
)
    requires
        g.same_side(h, seat),
        in_reach(g, id),
    ensures
        keeps_pace(g.pay_checked(seat, p, cost), h.pay_checked(seat, p, cost), seat, id),
{
    eq_covering(g, h, seat, p, cost);
    lemma_side(g, h, seat);
    if let Ok(paying) = g.covering(seat, p, cost) {
        let left = match spend_pool(g.pool(seat), p.from_pool, seat, p.from_pool.len()) {
            Ok(x) => x,
            Err(_) => g.pool(seat),
        };
        let rest = surplus(paying, cost);
        lemma_lives(g, h, seat);
        side_player(
            g,
            h,
            seat,
            PlayerModel { mana_pool: left, ..g.player(seat) },
            PlayerModel { mana_pool: left, ..h.player(seat) },
        );
        let g1 = g.with_pool(seat, left);
        let h1 = h.with_pool(seat, left);
        side_tap_all(g1, h1, seat, p.tap, p.tap.len());
        let g2 = g1.tap_all(p.tap, p.tap.len());
        let h2 = h1.tap_all(p.tap, p.tap.len());
        let pool = add_units(left, rest, rest.len());
        lemma_lives(g2, h2, seat);
        side_player(
            g2,
            h2,
            seat,
            PlayerModel { mana_pool: pool, ..g2.player(seat) },
            PlayerModel { mana_pool: pool, ..h2.player(seat) },
        );
        assert(g1.has_obj(id) && g1.obj(id) == g.obj(id));
        assert(g2.has_obj(id) && g2.obj(id).zone == g.obj(id).zone);
        assert(g.pay(seat, p, cost, paying) == g2.with_pool(seat, pool));
        assert(h.pay(seat, p, cost, paying) == h2.with_pool(seat, pool));
    }
}

proof fn lemma_lives(g: GameModel, h: GameModel, seat: Seat)
    requires
        g.same_side(h, seat),
    ensures
        h.player(seat).life == g.player(seat).life,
        h.player(seat).eliminated == g.player(seat).eliminated,
{
    reveal(GameModel::same_board);
    assert(h.players[seat.0 as int].life == g.players[seat.0 as int].life);
}

proof fn eq_sacrificeable(
    g: GameModel,
    h: GameModel,
    seat: Seat,
    id: ObjectId,
    source: ObjectId,
    filter: &Filter,
)
    requires
        g.same_side(h, seat),
        in_reach(g, source),
    ensures
        h.sacrificeable(id, seat, source, *filter) == g.sacrificeable(id, seat, source, *filter),
{
    let v = Some(seat);
    assert(h.objects.len() == g.objects.len()) by {
        reveal(GameModel::same_board);
    }
    if g.has_obj(id) {
        if g.obj(id).seen_by(v) {
            lemma_seen(g, h, v, id);
            eq_object_matches(g, h, v, id, filter, CtxModel::simple(seat, Some(source)));
        } else {
            assert(!h.obj(id).seen_by(v)) by {
                reveal(GameModel::same_board);
                if h.objects[id.0 - 1].seen_by(v) {
                    assert(h.objects[id.0 - 1] == g.objects[id.0 - 1]);
                }
            }
        }
    }
}

proof fn eq_first_sacrifice(
    g: GameModel,
    h: GameModel,
    seat: Seat,
    ids: Seq<ObjectId>,
    source: ObjectId,
    filter: &Filter,
    i: nat,
)
    requires
        g.same_side(h, seat),
        in_reach(g, source),
    ensures
        h.first_sacrifice(ids, seat, source, *filter, i) == g.first_sacrifice(
            ids,
            seat,
            source,
            *filter,
            i,
        ),
        g.first_sacrifice(ids, seat, source, *filter, i) matches Some(x) ==> g.in_zone(
            x,
            Zone::Battlefield,
        ),
    decreases ids.len() - i,
{
    if i < ids.len() {
        eq_sacrificeable(g, h, seat, ids[i as int], source, filter);
        eq_first_sacrifice(g, h, seat, ids, source, filter, i + 1);
    }
}

proof fn pace_buried(g: GameModel, h: GameModel, seat: Seat, id: ObjectId, x: ObjectId)
    requires
        g.same_side(h, seat),
        in_reach(g, id),
        in_reach(g, x),
    ensures
        g.sacrifice(seat, x).same_side(h.sacrifice(seat, x), seat),
        in_reach(g.sacrifice(seat, x), id),
{
    let e: EventFacts = EventModel::Sacrificed { seat, object: x };
    side_told(g, h, seat, e, e);
    let g1 = g.emit(e);
    assert(g1.obj(x) == g.obj(x) && g1.obj(id) == g.obj(id));
    side_buried(g1, h.emit(e), seat, x);
    if id != x {
        assert(g1.move_object(x, Zone::Graveyard).obj(id) == g1.obj(id));
    }
}

proof fn pace_discards(
    g: GameModel,
    h: GameModel,
    seat: Seat,
    id: ObjectId,
    ids: Seq<ObjectId>,
    most: i32,
    n: nat,
)
    requires
        g.same_side(h, seat),
        in_reach(g, id),
    ensures
        g.discard_upto(seat, ids, most, n).0.same_side(
            h.discard_upto(seat, ids, most, n).0,
            seat,
        ),
        h.discard_upto(seat, ids, most, n).1 == g.discard_upto(seat, ids, most, n).1,
        in_reach(g.discard_upto(seat, ids, most, n).0, id),
    decreases n,
{
    if n > 0 && n <= ids.len() {
        pace_discards(g, h, seat, id, ids, most, (n - 1) as nat);
        let (a, done) = g.discard_upto(seat, ids, most, (n - 1) as nat);
        let b = h.discard_upto(seat, ids, most, (n - 1) as nat).0;
        lemma_side(a, b, seat);
        let x = ids[n - 1];
        if a.hand(seat).contains(x) && done < most {
            let k = choose|k: int| 0 <= k < a.hand(seat).len() && a.hand(seat)[k] == x;
            assert(a.holds(seat, a.player(seat).hand[k]));
            side_buried(a, b, seat, x);
            if id != x {
                assert(a.move_object(x, Zone::Graveyard).obj(id) == a.obj(id));
            }
        }
    }
}

proof fn pace_cost(
    g: GameModel,
    h: GameModel,
    seat: Seat,
    id: ObjectId,
    p: PaymentModel,
    cost: &Cost,
)
    requires
        g.same_side(h, seat),
        in_reach(g, id),
    ensures
        keeps_pace(g.pay_cost(seat, id, p, *cost), h.pay_cost(seat, id, p, *cost), seat, id),
{
    let v = Some(seat);
    lemma_seen(g, h, v, id);
    lemma_same(g, h, v, id, seat);
    match cost {
        Cost::Mana(m) => {
            pace_mana(g, h, seat, id, p, m.announced(p.x));
        },
        Cost::Tap => {
            side_tapped(g, h, seat, id);
            let e: EventFacts = EventModel::Tapped { object: id };
            side_told(
                g.with_obj(id, ObjectModel { tapped: true, ..g.obj(id) }),
                h.with_obj(id, ObjectModel { tapped: true, ..h.obj(id) }),
                seat,
                e,
                e,
            );
        },
        Cost::SacrificeThis => {
            pace_buried(g, h, seat, id, id);
        },
        Cost::Sacrifice(filter) => {
            eq_first_sacrifice(g, h, seat, p.sacrifice, id, filter, 0);
            if let Some(x) = g.first_sacrifice(p.sacrifice, seat, id, *filter, 0) {
                pace_buried(g, h, seat, id, x);
            }
        },
        Cost::PayLife(n) => {
            let to = sat_i32(g.life(seat) - *n);
            lemma_lives(g, h, seat);
            side_player(
                g,
                h,
                seat,
                PlayerModel { life: to, ..g.player(seat) },
                PlayerModel { life: to, ..h.player(seat) },
            );
            let e: EventFacts = EventModel::LifeChanged { seat, from: g.life(seat), to };
            side_told(g.with_life(seat, to), h.with_life(seat, to), seat, e, e);
        },
        Cost::Discard(n) => {
            pace_discards(g, h, seat, id, p.discard, *n, p.discard.len());
            let e: EventFacts = EventModel::Discarded { seat, objects: p.discard };
            side_told(
                g.discard_upto(seat, p.discard, *n, p.discard.len()).0,
                h.discard_upto(seat, p.discard, *n, p.discard.len()).0,
                seat,
                e,
                e,
            );
        },
    }
}

proof fn pace_costs(
    g: GameModel,
    h: GameModel,
    seat: Seat,
    id: ObjectId,
    p: PaymentModel,
    costs: Seq<Cost>,
    n: nat,
)
    requires
        g.same_side(h, seat),
        in_reach(g, id),
    ensures
        keeps_pace(
            g.pay_costs(seat, id, p, costs, n),
            h.pay_costs(seat, id, p, costs, n),
            seat,
            id,
        ),
    decreases n,
{
    if n > 0 && n <= costs.len() {
        pace_costs(g, h, seat, id, p, costs, (n - 1) as nat);
        if let Ok(a) = g.pay_costs(seat, id, p, costs, (n - 1) as nat) {
            let b = h.pay_costs(seat, id, p, costs, (n - 1) as nat)->Ok_0;
            pace_cost(a, b, seat, id, p, &costs[n - 1]);
        }
    }
}

// ----- abilities -----

proof fn eq_working(
    g: GameModel,
    h: GameModel,
    seat: Seat,
    id: ObjectId,
    costs: Seq<Cost>,
    ps: Seq<PaymentModel>,
    n: nat,
)
    requires
        g.same_side(h, seat),
        in_reach(g, id),
    ensures
        h.working(seat, id, costs, ps, n) == g.working(seat, id, costs, ps, n),
    decreases n,
{
    if n > 0 && n <= ps.len() {
        eq_working(g, h, seat, id, costs, ps, (n - 1) as nat);
        pace_costs(g, h, seat, id, ps[n - 1], costs, costs.len());
    }
}

proof fn eq_ability_payments(
    g: GameModel,
    h: GameModel,
    seat: Seat,
    id: ObjectId,
    costs: Seq<Cost>,
    n: nat,
)
    requires
        g.same_side(h, seat),
        in_reach(g, id),
    ensures
        h.ability_payments(seat, id, costs, n) == g.ability_payments(seat, id, costs, n),
    decreases n,
{
    if n > 0 && n <= costs.len() {
        eq_ability_payments(g, h, seat, id, costs, (n - 1) as nat);
        let v = Some(seat);
        lemma_seen(g, h, v, id);
        lemma_same(g, h, v, id, seat);
        lemma_side(g, h, seat);
        match costs[n - 1] {
            Cost::Mana(m) => {
                eq_payments(g, h, seat, m.announced(0));
            },
            Cost::Tap => {
                eq_keyword(g, h, v, g.depth(), id, Keyword::Haste);
            },
            Cost::Sacrifice(filter) => {
                let held = g.battlefield(seat);
                eq_matching(
                    g,
                    h,
                    v,
                    g.depth() + 1,
                    held,
                    &filter,
                    CtxModel::simple(seat, Some(id)),
                    held.len(),
                );
            },
            _ => {},
        }
    }
}

proof fn eq_with_abilities(
    g: GameModel,
    h: GameModel,
    seat: Seat,
    list: (Seq<ActionModel>, bool),
    id: ObjectId,
    n: nat,
)
    requires
        g.same_side(h, seat),
        in_reach(g, id),
        g.has_def(id),
    ensures
        h.with_abilities(list, seat, id, n) == g.with_abilities(list, seat, id, n),
    decreases n,
{
    let v = Some(seat);
    lemma_seen(g, h, v, id);
    lemma_same(g, h, v, id, seat);
    lemma_side(g, h, seat);
    if n > 0 && n <= g.def(id).activated.len() {
        eq_with_abilities(g, h, seat, list, id, (n - 1) as nat);
        let ability = g.def(id).activated[n - 1];
        let costs = ability.cost@;
        eq_ability_payments(g, h, seat, id, costs, costs.len());
        if let Some(ps) = g.ability_payments(seat, id, costs, costs.len()) {
            eq_working(g, h, seat, id, costs, ps, ps.len());
        }
        eq_combos(
            g,
            h,
            v,
            ability.targets@,
            CtxModel::simple(seat, Some(id)),
            ability.targets@.len(),
        );
        assert(h.activations(seat, id, (n - 1) as nat, ability) == g.activations(
            seat,
            id,
            (n - 1) as nat,
            ability,
        ));
    }
}

proof fn eq_bearers(
    g: GameModel,
    h: GameModel,
    v: Option<Seat>,
    id: ObjectId,
    ids: Seq<ObjectId>,
    n: nat,
)
    requires
        g.same_board(h, v),
        g.knows_all(h, ids),
        g.has_obj(id),
        g.knows(h, id),
    ensures
        h.bearers(id, ids, n) == g.bearers(id, ids, n),
    decreases n,
{
    if n > 0 && n <= ids.len() {
        eq_bearers(g, h, v, id, ids, (n - 1) as nat);
        lemma_same(g, h, v, ids[n - 1], Seat(0));
    }
}

proof fn eq_ability_list(g: GameModel, h: GameModel, seat: Seat, ids: Seq<ObjectId>, n: nat)
    requires
        g.same_side(h, seat),
        forall|k: int| 0 <= k < ids.len() ==> in_reach(g, #[trigger] ids[k]),
    ensures
        h.ability_list(seat, ids, n) == g.ability_list(seat, ids, n),
    decreases n,
{
    if n > 0 && n <= ids.len() {
        eq_ability_list(g, h, seat, ids, (n - 1) as nat);
        let v = Some(seat);
        let id = ids[n - 1];
        assert(in_reach(g, id));
        lemma_seen(g, h, v, id);
        lemma_same(g, h, v, id, seat);
        lemma_side(g, h, seat);
        let before = g.ability_list(seat, ids, (n - 1) as nat);
        if g.has_def(id) {
            eq_with_abilities(g, h, seat, before, id, g.def(id).activated.len());
            if g.def(id).equip is Some {
                eq_payments(g, h, seat, g.def(id).equip->0.announced(0));
                let held = g.battlefield(seat);
                eq_bearers(g, h, v, id, held, held.len());
            }
        }
    }
}

/// What a player with priority may do is a matter of what they may know.
pub(crate) proof fn eq_priority_actions(g: GameModel, h: GameModel, seat: Seat)
    requires
        g.sound(),
        g.same_side(h, seat),
    ensures
        h.priority_actions(seat) == g.priority_actions(seat),
{
    let v = Some(seat);
    lemma_side(g, h, seat);
    lemma_same(g, h, v, ObjectId(0), seat);
    let hand = sort(g.hand(seat));
    assert forall|k: int| 0 <= k < hand.len() implies g.has_obj(#[trigger] hand[k]) && g.obj(
        hand[k],
    ).seen_by(v) by {
        assert(hand.contains(hand[k]));
        lemma_sort_members(g.hand(seat), hand[k]);
        let j = choose|j: int| 0 <= j < g.hand(seat).len() && g.hand(seat)[j] == hand[k];
        assert(g.has_obj(g.hand(seat)[j]));
    }
    eq_land_plays(g, h, v, hand, hand.len());
    eq_casts(g, h, seat, hand, hand.len());
    let field = sort(g.battlefield(seat));
    let yard = sort(g.list(seat, Zone::Graveyard));
    assert(h.list(seat, Zone::Graveyard) == g.list(seat, Zone::Graveyard)) by {
        reveal(GameModel::same_board);
        assert(h.players[seat.0 as int].graveyard == g.players[seat.0 as int].graveyard);
    }
    let ids = field + yard;
    assert forall|k: int| 0 <= k < ids.len() implies in_reach(g, #[trigger] ids[k]) by {
        reveal(GameModel::lists_are_true);
        if k < field.len() {
            assert(field.contains(field[k]));
            lemma_sort_members(g.battlefield(seat), ids[k]);
            let j = choose|j: int|
                0 <= j < g.list(seat, Zone::Battlefield).len() && g.list(
                    seat,
                    Zone::Battlefield,
                )[j] == ids[k];
            assert(g.in_zone(g.list(seat, Zone::Battlefield)[j], Zone::Battlefield));
        } else {
            assert(yard.contains(yard[k - field.len()]));
            lemma_sort_members(g.list(seat, Zone::Graveyard), ids[k]);
            let j = choose|j: int|
                0 <= j < g.list(seat, Zone::Graveyard).len() && g.list(seat, Zone::Graveyard)[j]
                    == ids[k];
            assert(g.in_zone(g.list(seat, Zone::Graveyard)[j], Zone::Graveyard));
        }
    }
    eq_ability_list(g, h, seat, ids, ids.len());
}

} // verus!
