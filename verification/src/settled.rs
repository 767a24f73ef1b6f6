//! State-based actions come to rest: passes follow each other until one finds
//! nothing to do, and there are always enough of them.
use crate::event::Elimination;
use crate::keeping::keep_sba_pass;
use crate::seqs::without_n;
use crate::sound::lemma_moved;
use crate::state::{GameModel, ObjectModel};
use crate::types::{ObjectId, Seat, Zone};
use vstd::prelude::*;

verus! {

/// A card is a token's.
pub open spec fn is_token(g: GameModel, o: ObjectModel) -> bool {
    g.has_card(o.card) && g.card(o.card).token
}

/// How many times state-based actions can still do something to an object: it
/// can lose counters, its bearer, its place on the battlefield, and if it is
/// a token its place in the game.
pub open spec fn weight(g: GameModel, o: ObjectModel) -> nat {
    let token: nat = if is_token(g, o) && !(o.zone is OutOfGame) {
        1
    } else {
        0
    };
    let counters: nat = if o.counters.plus1 > 0 && o.counters.minus1 > 0 {
        1
    } else {
        0
    };
    let attached: nat = if o.attached_to is Some {
        1
    } else {
        0
    };
    if o.zone is Battlefield {
        1 + token + counters + attached
    } else {
        token
    }
}

/// The weight of the first `n` objects.
pub open spec fn load(g: GameModel, n: nat) -> nat
    decreases n,
{
    if n == 0 || n > g.objects.len() {
        0
    } else {
        load(g, (n - 1) as nat) + weight(g, g.objects[n - 1])
    }
}

/// The same objects and players, or fewer, with no more to be done to any of them.
spec fn lighter(g: GameModel, h: GameModel) -> bool {
    &&& h.cards == g.cards
    &&& h.tokens == g.tokens
    &&& h.objects.len() == g.objects.len()
    &&& h.turn_order.len() <= g.turn_order.len()
    &&& forall|i: int|
        0 <= i < g.objects.len() ==> weight(g, #[trigger] h.objects[i]) <= weight(g, g.objects[i])
}

/// Less to be done to one object than before.
spec fn lighter_at(g: GameModel, h: GameModel, i: int) -> bool {
    0 <= i < g.objects.len() && weight(g, h.objects[i]) < weight(g, g.objects[i])
}

/// Something was done.
spec fn less(g: GameModel, h: GameModel) -> bool {
    lighter(g, h) && (h.turn_order.len() < g.turn_order.len() || exists|i: int|
        #[trigger] lighter_at(g, h, i))
}

proof fn lemma_lighter_on(g: GameModel, h: GameModel, k: GameModel)
    requires
        lighter(g, h),
        lighter(h, k),
    ensures
        lighter(g, k),
        less(g, h) || less(h, k) ==> less(g, k),
{
    assert forall|i: int| 0 <= i < g.objects.len() implies weight(g, #[trigger] k.objects[i])
        <= weight(g, g.objects[i]) by {
        assert(weight(h, k.objects[i]) <= weight(h, h.objects[i]));
        assert(weight(g, h.objects[i]) <= weight(g, g.objects[i]));
    }
    if h.turn_order.len() < g.turn_order.len() || k.turn_order.len() < h.turn_order.len() {
    } else if exists|i: int| #[trigger] lighter_at(g, h, i) {
        let i = choose|i: int| #[trigger] lighter_at(g, h, i);
        assert(weight(h, k.objects[i]) <= weight(h, h.objects[i]));
        assert(lighter_at(g, k, i));
    } else if exists|i: int| #[trigger] lighter_at(h, k, i) {
        let i = choose|i: int| #[trigger] lighter_at(h, k, i);
        assert(weight(g, h.objects[i]) <= weight(g, g.objects[i]));
        assert(lighter_at(g, k, i));
    }
}

/// One object changed, and weighs no more.
proof fn lemma_lighter_one(g: GameModel, h: GameModel, id: ObjectId, o: ObjectModel)
    requires
        g.has_obj(id),
        h.cards == g.cards,
        h.tokens == g.tokens,
        h.turn_order == g.turn_order,
        h.objects == g.objects.update(id.0 - 1, o),
        weight(g, o) <= weight(g, g.obj(id)),
    ensures
        lighter(g, h),
        weight(g, o) < weight(g, g.obj(id)) ==> less(g, h),
{
    if weight(g, o) < weight(g, g.obj(id)) {
        assert(lighter_at(g, h, id.0 - 1));
    }
}

proof fn lemma_move_lighter(g: GameModel, id: ObjectId, to: Zone)
    requires
        to is OutOfGame || (to is Graveyard && g.in_zone(id, Zone::Battlefield)),
    ensures
        lighter(g, g.move_object(id, to)),
        g.in_zone(id, Zone::Battlefield) ==> less(g, g.move_object(id, to)),
        g.has_obj(id) && is_token(g, g.obj(id)) && !(g.obj(id).zone is OutOfGame)
            && to is OutOfGame ==> less(g, g.move_object(id, to)),
{
    if g.has_obj(id) && g.obj(id).zone != to {
        lemma_moved(g, id, to);
        lemma_lighter_one(g, g.move_object(id, to), id, g.obj(id).moved(to));
    }
}

proof fn lemma_move_all_lighter(g: GameModel, ids: Seq<ObjectId>, n: nat)
    ensures
        lighter(g, g.move_all(ids, Zone::OutOfGame, n)),
    decreases n,
{
    if n > 0 && n <= ids.len() {
        lemma_move_all_lighter(g, ids, (n - 1) as nat);
        let h = g.move_all(ids, Zone::OutOfGame, (n - 1) as nat);
        lemma_move_lighter(h, ids[n - 1], Zone::OutOfGame);
        lemma_lighter_on(g, h, h.move_object(ids[n - 1], Zone::OutOfGame));
    }
}

proof fn lemma_without_shorter<T>(s: Seq<T>, x: T, n: nat)
    requires
        n <= s.len(),
    ensures
        without_n(s, x, n).len() <= n,
        s.subrange(0, n as int).contains(x) ==> without_n(s, x, n).len() < n,
    decreases n,
{
    if n > 0 {
        lemma_without_shorter(s, x, (n - 1) as nat);
        let more = s.subrange(0, n as int);
        if more.contains(x) && s[n - 1] != x {
            let k = choose|k: int| 0 <= k < more.len() && more[k] == x;
            assert(s.subrange(0, n - 1)[k] == x);
        }
    }
}

proof fn lemma_eliminate_lighter(g: GameModel, seat: Seat, reason: Elimination)
    ensures
        lighter(g, g.eliminate(seat, reason)),
        g.turn_order.contains(seat) && g.has_seat(seat) && !g.out(seat) ==> less(
            g,
            g.eliminate(seat, reason),
        ),
{
    reveal(GameModel::eliminate);
    if g.has_seat(seat) && !g.out(seat) {
        let g1 = g.marked_out(seat, reason);
        let owned = g1.owned_by(seat, g1.objects.len());
        let g2 = g1.move_all(owned, Zone::OutOfGame, owned.len());
        lemma_without_shorter(g.turn_order, seat, g.turn_order.len());
        assert(g.turn_order.subrange(0, g.turn_order.len() as int) =~= g.turn_order);
        assert(lighter(g, g1));
        lemma_move_all_lighter(g1, owned, owned.len());
        lemma_lighter_on(g, g1, g2);
        let h = g.eliminate(seat, reason);
        assert(h.objects == g2.cleared_of(seat).objects);
        assert forall|i: int| 0 <= i < g2.objects.len() implies weight(g2, #[trigger] h.objects[i])
            <= weight(g2, g2.objects[i]) by {
            assert(h.objects[i] == g2.objects[i].not_attacking(seat));
        }
        assert(lighter(g2, h));
        lemma_lighter_on(g, g2, h);
    }
}

proof fn lemma_losers_lighter(g: GameModel, n: nat)
    requires
        g.sound(),
        n <= g.turn_order.len(),
    ensures
        ({
            let (h, acted) = g.losers_leave(g.turn_order, n);
            lighter(g, h) && (if acted {
                less(g, h)
            } else {
                h == g
            })
        }),
    decreases n,
{
    if n > 0 {
        lemma_losers_lighter(g, (n - 1) as nat);
        let (h, acted) = g.losers_leave(g.turn_order, (n - 1) as nat);
        let seat = g.turn_order[n - 1];
        if let Some(reason) = h.losing(seat) {
            lemma_eliminate_lighter(h, seat, reason);
            lemma_lighter_on(g, h, h.eliminate(seat, reason));
            if !acted {
                reveal(GameModel::table_agrees);
                assert(g.turn_order.contains(seat));
            }
        }
    }
}

proof fn lemma_counters_lighter(g: GameModel, ids: Seq<ObjectId>, n: nat)
    requires
        forall|k: int| 0 <= k < ids.len() ==> g.in_zone(#[trigger] ids[k], Zone::Battlefield),
    ensures
        ({
            let (h, acted) = g.counters_cancel(ids, n);
            &&& lighter(g, h)
            &&& forall|k: int| 0 <= k < ids.len() ==> h.in_zone(#[trigger] ids[k], Zone::Battlefield)
            &&& if acted {
                less(g, h)
            } else {
                h == g
            }
        }),
    decreases n,
{
    if n > 0 && n <= ids.len() {
        lemma_counters_lighter(g, ids, (n - 1) as nat);
        let (h, acted) = g.counters_cancel(ids, (n - 1) as nat);
        let id = ids[n - 1];
        assert(h.in_zone(id, Zone::Battlefield));
        let c = h.obj(id).counters;
        if h.has_obj(id) && c.plus1 > 0 && c.minus1 > 0 {
            let o = ObjectModel { counters: h.obj(id).counters_left(), ..h.obj(id) };
            let k = h.with_obj(id, o);
            lemma_lighter_one(h, k, id, o);
            lemma_lighter_on(g, h, k);
        }
    }
}

proof fn lemma_dying_lighter(g: GameModel, ids: Seq<ObjectId>, n: nat)
    ensures
        ({
            let (h, acted) = g.dying_die(ids, n);
            lighter(g, h) && (if acted {
                less(g, h)
            } else {
                h == g
            })
        }),
    decreases n,
{
    if n > 0 && n <= ids.len() {
        lemma_dying_lighter(g, ids, (n - 1) as nat);
        let (h, acted) = g.dying_die(ids, (n - 1) as nat);
        if h.dying(ids[n - 1]) {
            lemma_move_lighter(h, ids[n - 1], Zone::Graveyard);
            lemma_lighter_on(g, h, h.move_object(ids[n - 1], Zone::Graveyard));
        }
    }
}

proof fn lemma_attachments_lighter(g: GameModel, ids: Seq<ObjectId>, n: nat)
    ensures
        ({
            let (h, acted) = g.attachments_fall(ids, n);
            lighter(g, h) && (if acted {
                less(g, h)
            } else {
                h == g
            })
        }),
    decreases n,
{
    if n > 0 && n <= ids.len() {
        lemma_attachments_lighter(g, ids, (n - 1) as nat);
        let (h, acted) = g.attachments_fall(ids, (n - 1) as nat);
        let id = ids[n - 1];
        if !h.in_zone(id, Zone::Battlefield) || !h.has_def(id) || h.held(id) {
        } else if h.def(id).aura() {
            lemma_move_lighter(h, id, Zone::Graveyard);
            lemma_lighter_on(g, h, h.move_object(id, Zone::Graveyard));
        } else if h.obj(id).attached_to is Some {
            let o = ObjectModel { attached_to: None, ..h.obj(id) };
            lemma_lighter_one(h, h.with_obj(id, o), id, o);
            lemma_lighter_on(g, h, h.with_obj(id, o));
        }
    }
}

proof fn lemma_tokens_lighter(g: GameModel, n: nat)
    ensures
        ({
            let (h, acted) = g.tokens_cease(n);
            lighter(g, h) && (if acted {
                less(g, h)
            } else {
                h == g
            })
        }),
    decreases n,
{
    if n > 0 && n <= g.objects.len() {
        lemma_tokens_lighter(g, (n - 1) as nat);
        let (h, acted) = g.tokens_cease((n - 1) as nat);
        let id = ObjectId(n as u32);
        lemma_move_lighter(h, id, Zone::OutOfGame);
        lemma_lighter_on(g, h, h.move_object(id, Zone::OutOfGame));
    }
}

proof fn lemma_on_battlefield(g: GameModel, n: nat)
    requires
        n <= g.objects.len() <= u32::MAX,
    ensures
        forall|k: int|
            0 <= k < g.zone_ids(Zone::Battlefield, n).len() ==> g.in_zone(
                #[trigger] g.zone_ids(Zone::Battlefield, n)[k],
                Zone::Battlefield,
            ),
    decreases n,
{
    if n > 0 {
        lemma_on_battlefield(g, (n - 1) as nat);
        let rest = g.zone_ids(Zone::Battlefield, (n - 1) as nat);
        let all = g.zone_ids(Zone::Battlefield, n);
        assert forall|k: int| 0 <= k < all.len() implies g.in_zone(
            #[trigger] all[k],
            Zone::Battlefield,
        ) by {
            if k < rest.len() {
                assert(all[k] == rest[k]);
            } else {
                assert(all[k] == ObjectId(n as u32));
            }
        }
    }
}

/// A pass either does something, and there is less to do then, or leaves the
/// game as it is.
proof fn lemma_pass(g: GameModel)
    requires
        g.sound(),
    ensures
        ({
            let (h, acted) = g.sba_pass();
            if acted {
                less(g, h)
            } else {
                h == g
            }
        }),
{
    let (g1, a1) = g.losers_leave(g.turn_order, g.turn_order.len());
    lemma_losers_lighter(g, g.turn_order.len());
    let ids = g1.on_battlefield();
    lemma_on_battlefield(g1, g1.objects.len());
    let (g2, a2) = g1.counters_cancel(ids, ids.len());
    lemma_counters_lighter(g1, ids, ids.len());
    lemma_lighter_on(g, g1, g2);
    let (g3, a3) = g2.dying_die(ids, ids.len());
    lemma_dying_lighter(g2, ids, ids.len());
    lemma_lighter_on(g, g2, g3);
    let (g4, a4) = g3.attachments_fall(ids, ids.len());
    lemma_attachments_lighter(g3, ids, ids.len());
    lemma_lighter_on(g, g3, g4);
    let (g5, a5) = g4.tokens_cease(g4.objects.len());
    lemma_tokens_lighter(g4, g4.objects.len());
    lemma_lighter_on(g, g4, g5);
}

proof fn lemma_load(g: GameModel, h: GameModel, n: nat)
    requires
        lighter(g, h),
        n <= g.objects.len(),
    ensures
        load(h, n) <= load(g, n),
        (exists|i: int| 0 <= i < n && #[trigger] lighter_at(g, h, i)) ==> load(h, n) < load(g, n),
    decreases n,
{
    if n > 0 {
        lemma_load(g, h, (n - 1) as nat);
        let o = h.objects[n - 1];
        assert(weight(h, o) == weight(g, o));
        assert(weight(g, o) <= weight(g, g.objects[n - 1]));
        if exists|i: int| 0 <= i < n && #[trigger] lighter_at(g, h, i) {
            let i = choose|i: int| 0 <= i < n && #[trigger] lighter_at(g, h, i);
            if i < n - 1 {
                assert(0 <= i < n - 1 && lighter_at(g, h, i));
            }
        }
    }
}

proof fn lemma_load_bound(g: GameModel, n: nat)
    requires
        n <= g.objects.len(),
    ensures
        load(g, n) <= 4 * n,
    decreases n,
{
    if n > 0 {
        lemma_load_bound(g, (n - 1) as nat);
    }
}

proof fn lemma_passes(g: GameModel, fuel: nat)
    requires
        g.sound(),
        g.turn_order.len() + load(g, g.objects.len()) < fuel,
    ensures
        g.sba_passes(fuel).sba_pass() == (g.sba_passes(fuel), false),
        g.sba_passes(fuel).sound(),
    decreases fuel,
{
    lemma_pass(g);
    let (h, acted) = g.sba_pass();
    if acted {
        lemma_load(g, h, g.objects.len());
        assert(h.sound()) by {
            keep_sba_pass(g);
            reveal(GameModel::keeps);
        }
        lemma_passes(h, (fuel - 1) as nat);
    }
}

/// State-based actions are done until there is nothing left for them to do:
/// once they come to rest another pass changes nothing.
pub proof fn law_state_based_actions_come_to_rest(g: GameModel)
    requires
        g.sound(),
    ensures
        g.sba_passes(g.sba_fuel()).sba_pass() == (g.sba_passes(g.sba_fuel()), false),
{
    lemma_load_bound(g, g.objects.len());
    lemma_passes(g, g.sba_fuel());
}

} // verus!
