//! How games start and how players leave them, told by the table, the decks
//! and where cards are.
use crate::event::Elimination;
use crate::seqs::without;
use crate::setup::ConfigModel;
use crate::sound::{lemma_moved, lemma_without};
use crate::state::{GameModel, StackModel};
use crate::types::{ObjectId, Seat, Zone};
use vstd::prelude::*;

verus! {

// ----- before the game -----

proof fn lemma_decks(c: ConfigModel, i: nat)
    requires
        i <= c.players.len(),
    ensures
        c.deck_error(i) is None <==> forall|k: nat|
            i <= k < c.players.len() ==> (#[trigger] c.deck_violations(k)).len() == 0,
    decreases c.players.len() - i,
{
    if i < c.players.len() {
        lemma_decks(c, i + 1);
        assert(c.deck_violations(i).len() >= 0);
    }
}

/// A game starts if and only if there are as many players as the format is for,
/// it asks for no rule beyond the game's own, whoever starts sits at the table
/// and nothing is against any deck.
pub proof fn law_who_may_start(c: ConfigModel)
    ensures
        c.error() is None <==> {
            &&& c.format.players.min <= c.players.len() <= c.format.players.max
            &&& c.format.rules@.len() == 0
            &&& c.starting_player matches Some(s) ==> s.0 < c.players.len()
            &&& forall|k: nat|
                k < c.players.len() ==> (#[trigger] c.deck_violations(k)).len() == 0
        },
{
    lemma_decks(c, 0);
}

/// Every player starts with the life the format says, an empty hand to draw into
/// and their whole deck as the library; all are in the game, and the turn is
/// that of whoever starts.
pub proof fn law_the_table_is_laid(c: ConfigModel, seed: u64, s: Seat)
    requires
        s.0 < c.players.len() <= 255,
        c.starting_player matches Some(t) ==> t.0 < c.players.len(),
    ensures
        ({
            let g = c.laid_out(seed);
            let p = g.player(s);
            &&& g.players.len() == c.players.len()
            &&& p.life == c.format.starting_life
            &&& p.name == c.players[s.0 as int].name
            &&& p.hand.len() == 0
            &&& p.battlefield.len() == 0
            &&& p.graveyard.len() == 0
            &&& p.library.len() == c.players[s.0 as int].deck.len()
            &&& p.eliminated is None
            &&& g.seating.len() == c.players.len()
            &&& g.turn_order == g.seating
            &&& g.stack.len() == 0
            &&& g.outcome is None
            &&& c.starting_player matches Some(t) ==> g.active_player == t && g.seating[0] == t
        }),
{
    if let Some(t) = c.starting_player {
        let n = c.players.len() as int;
        assert((t.0 + 0) % n == t.0) by {
            vstd::arithmetic::div_mod::lemma_small_mod(t.0 as nat, n as nat);
        }
    }
}

/// After one player comes the seat to their left, round the whole table.
pub proof fn law_seats_go_round(starting: Seat, n: nat, k: int)
    requires
        0 < n <= 255,
        starting.0 < n,
        0 <= k < n,
    ensures
        ({
            let all = crate::setup::seats_from(starting, n);
            &&& all.len() == n
            &&& starting.0 + k < n ==> all[k].0 == starting.0 + k
            &&& starting.0 + k >= n ==> all[k].0 == starting.0 + k - n
        }),
{
    if starting.0 + k < n {
        vstd::arithmetic::div_mod::lemma_small_mod((starting.0 + k) as nat, n);
    } else {
        vstd::arithmetic::div_mod::lemma_small_mod((starting.0 + k - n) as nat, n);
        vstd::arithmetic::div_mod::lemma_mod_sub_multiples_vanish(starting.0 + k, n as int);
    }
}

// ----- leaving -----

proof fn lemma_owned(g: GameModel, s: Seat, n: nat, id: ObjectId)
    requires
        n <= g.objects.len() <= u32::MAX,
    ensures
        g.owned_by(s, n).contains(id) <==> 1 <= id.0 <= n && g.obj(id).owner == s && !(g.obj(
            id,
        ).zone is OutOfGame),
    decreases n,
{
    if n > 0 {
        lemma_owned(g, s, (n - 1) as nat, id);
        let rest = g.owned_by(s, (n - 1) as nat);
        let all = g.owned_by(s, n);
        let last = ObjectId(n as u32);
        if rest.contains(id) {
            let k = choose|k: int| 0 <= k < rest.len() && rest[k] == id;
            assert(all[k] == id);
        }
        if all.contains(id) {
            let k = choose|k: int| 0 <= k < all.len() && all[k] == id;
            if k < rest.len() {
                assert(rest[k] == id);
            }
        }
        if g.objects[n - 1].owner == s && !(g.objects[n - 1].zone is OutOfGame) {
            assert(all[rest.len() as int] == last);
        }
    }
}

proof fn lemma_taken_out(g: GameModel, ids: Seq<ObjectId>, n: nat, x: ObjectId)
    requires
        n <= ids.len(),
        g.has_obj(x),
    ensures
        ({
            let h = g.move_all(ids, Zone::OutOfGame, n);
            &&& h.objects.len() == g.objects.len()
            &&& h.players.len() == g.players.len()
            &&& h.turn_order == g.turn_order
            &&& (exists|i: int| 0 <= i < n && #[trigger] ids[i] == x) ==> h.obj(
                x,
            ).zone is OutOfGame
            &&& !(exists|i: int| 0 <= i < n && #[trigger] ids[i] == x) ==> h.obj(x) == g.obj(x)
            &&& forall|s: Seat|
                #![trigger h.player(s)]
                g.has_seat(s) ==> h.player(s).life == g.player(s).life && h.player(s).eliminated
                    == g.player(s).eliminated
        }),
    decreases n,
{
    if n > 0 {
        lemma_taken_out(g, ids, (n - 1) as nat, x);
        let p = g.move_all(ids, Zone::OutOfGame, (n - 1) as nat);
        let h = g.move_all(ids, Zone::OutOfGame, n);
        let id = ids[n - 1];
        if p.has_obj(id) && !(p.obj(id).zone is OutOfGame) {
            lemma_moved(p, id, Zone::OutOfGame);
        }
        assert forall|s: Seat| #![trigger h.player(s)] g.has_seat(s) implies h.player(s).life
            == g.player(s).life && h.player(s).eliminated == g.player(s).eliminated by {
            assert(p.player(s).life == g.player(s).life);
        }
        if x == id {
            assert(ids[n - 1] == x);
        } else {
            assert(h.obj(x) == p.obj(x));
            if exists|i: int| 0 <= i < n && #[trigger] ids[i] == x {
                let i = choose|i: int| 0 <= i < n && #[trigger] ids[i] == x;
                assert(0 <= i < n - 1 && ids[i] == x);
            }
        }
        if exists|i: int| 0 <= i < n - 1 && #[trigger] ids[i] == x {
            let i = choose|i: int| 0 <= i < n - 1 && #[trigger] ids[i] == x;
            assert(0 <= i < n && ids[i] == x);
        }
    }
}

proof fn lemma_stack_not_of(stack: Seq<StackModel>, s: Seat, n: nat)
    requires
        n <= stack.len(),
    ensures
        forall|k: int|
            0 <= k < crate::sba::stack_not_of(stack, s, n).len() ==> (
            #[trigger] crate::sba::stack_not_of(stack, s, n)[k]).controller != s,
    decreases n,
{
    if n > 0 {
        lemma_stack_not_of(stack, s, (n - 1) as nat);
    }
}

/// Whoever leaves the game takes what they own with them, and nothing of theirs
/// stays on the stack; everybody else stays, and what they own stays where it
/// is. Nobody attacks who is no longer there.
pub proof fn law_leaving_takes_everything_along(
    g: GameModel,
    s: Seat,
    reason: Elimination,
    id: ObjectId,
    other: Seat,
)
    requires
        g.objects.len() <= u32::MAX,
        g.has_seat(s),
        g.has_seat(other),
        other != s,
        g.has_obj(id),
    ensures
        ({
            let h = g.strip(s, reason);
            &&& !h.turn_order.contains(s)
            &&& h.turn_order.contains(other) <==> g.turn_order.contains(other)
            &&& h.player(s).eliminated == Some(reason)
            &&& h.player(other).eliminated == g.player(other).eliminated
            &&& h.player(other).life == g.player(other).life
            &&& g.obj(id).owner == s ==> h.obj(id).zone is OutOfGame
            &&& g.obj(id).owner != s ==> h.obj(id).zone == g.obj(id).zone && h.obj(id).tapped
                == g.obj(id).tapped
            &&& h.obj(id).attacking != Some(crate::action::AttackTarget::Player(s))
            &&& forall|k: int| 0 <= k < h.stack.len() ==> (#[trigger] h.stack[k]).controller != s
        }),
{
    let a = g.with_player(
        s,
        crate::state::PlayerModel { eliminated: Some(reason), ..g.player(s) },
    ).emit(crate::event::EventModel::Eliminated { seat: s, reason });
    let b = GameModel { turn_order: without(a.turn_order, s), ..a };
    lemma_without(a.turn_order, s);
    let owned = b.owned_by(s, b.objects.len());
    lemma_owned(b, s, b.objects.len(), id);
    lemma_taken_out(b, owned, owned.len(), id);
    assert(b.obj(id) == g.obj(id));
    assert(owned.contains(id) <==> exists|i: int| 0 <= i < owned.len() && #[trigger] owned[i] == id);
    let d = b.move_all(owned, Zone::OutOfGame, owned.len());
    lemma_stack_not_of(d.stack, s, d.stack.len());
    assert(d.player(s).eliminated == b.player(s).eliminated);
    assert(d.player(other).eliminated == b.player(other).eliminated);
}

/// If it was the turn of whoever leaves, the turn ends there and nobody is asked
/// anything; if they had priority, the next player gets it. Whoever is gone
/// already does not leave again.
pub proof fn law_the_game_goes_on_without_them(g: GameModel, s: Seat, reason: Elimination)
    requires
        g.has_seat(s),
    ensures
        ({
            let h = g.eliminate(s, reason);
            &&& g.player(s).eliminated is Some ==> h == g
            &&& g.player(s).eliminated is None && s == g.active_player ==> h.turn_aborted
                && h.pending is None && h.priority is None
            &&& g.player(s).eliminated is None && s != g.active_player && g.pending is None ==> {
                &&& g.priority == Some(s) ==> h.priority == g.strip(s, reason).next_after(s)
                &&& g.priority != Some(s) ==> h.priority == g.priority
                &&& h.pending is None
            }
        }),
{
    reveal(GameModel::eliminate);
    let a = g.with_player(
        s,
        crate::state::PlayerModel { eliminated: Some(reason), ..g.player(s) },
    ).emit(crate::event::EventModel::Eliminated { seat: s, reason });
    let b = GameModel { turn_order: without(a.turn_order, s), ..a };
    let owned = b.owned_by(s, b.objects.len());
    lemma_move_frame(b, owned, Zone::OutOfGame, owned.len());
}

proof fn lemma_move_frame(g: GameModel, ids: Seq<ObjectId>, to: Zone, n: nat)
    ensures
        ({
            let h = g.move_all(ids, to, n);
            &&& h.active_player == g.active_player
            &&& h.pending == g.pending
            &&& h.priority == g.priority
        }),
    decreases n,
{
    if n > 0 && n <= ids.len() {
        lemma_move_frame(g, ids, to, (n - 1) as nat);
    }
}

// ----- mulligans -----

proof fn lemma_draw_counts(g: GameModel, s: Seat, n: nat)
    requires
        g.has_seat(s),
    ensures
        ({
            let h = g.draw_n(s, n).0;
            let all = g.player(s).library.len();
            let k = if n < all {
                n
            } else {
                all
            };
            &&& h.has_seat(s)
            &&& h.player(s).library == g.player(s).library.subrange(0, all - k)
            &&& h.player(s).hand.len() == g.player(s).hand.len() + k
            &&& h.player(s).mulligans == g.player(s).mulligans
            &&& h.player(s).life == g.player(s).life
        }),
    decreases n,
{
    if n == 0 {
        let lib = g.player(s).library;
        assert(lib.subrange(0, lib.len() as int) =~= lib);
    } else {
        lemma_draw_counts(g, s, (n - 1) as nat);
        let lib = g.player(s).library;
        let a = g.draw_n(s, (n - 1) as nat).0;
        let h = g.draw_n(s, n).0;
        if a.player(s).library.len() > 0 {
            assert(h.player(s).library =~= lib.subrange(0, lib.len() - n));
        }
    }
}

/// A mulligan shuffles the hand into the library and draws a new hand of the
/// size the format says, as far as there are cards; it is counted, and no card
/// is lost.
pub proof fn law_mulligans_draw_anew(g: GameModel, s: Seat)
    requires
        g.has_seat(s),
        g.player(s).mulligans < 255,
        ({
            let p = g.player(s);
            let all = p.library + p.hand;
            g.dice.shuffled(all).len() == all.len()
        }),
    ensures
        ({
            let h = g.take_mulligan(s);
            let was = g.player(s);
            let now = h.player(s);
            let all = was.library.len() + was.hand.len();
            &&& now.mulligans == was.mulligans + 1
            &&& now.hand.len() == (if g.format.starting_hand < all {
                g.format.starting_hand as nat
            } else {
                all
            })
            &&& now.hand.len() + now.library.len() == all
            &&& now.life == was.life
        }),
{
    let p = g.player(s);
    let a = g.into_library(p.hand, p.hand.len());
    lemma_into_library(g, p.hand, p.hand.len());
    let b = a.with_player(
        s,
        crate::state::PlayerModel {
            library: p.library + p.hand,
            hand: Seq::empty(),
            mulligans: crate::types::sat_u8(p.mulligans + 1),
            ..p
        },
    );
    let c = b.shuffle_library(s);
    assert(b.list(s, Zone::Library) == p.library + p.hand);
    assert(b.dice == g.dice);
    lemma_draw_counts(c, s, g.format.starting_hand as nat);
}

proof fn lemma_into_library(g: GameModel, ids: Seq<ObjectId>, n: nat)
    ensures
        ({
            let h = g.into_library(ids, n);
            &&& h.players == g.players
            &&& h.dice == g.dice
            &&& h.format == g.format
        }),
    decreases n,
{
    if n > 0 && n <= ids.len() {
        lemma_into_library(g, ids, (n - 1) as nat);
    }
}

proof fn lemma_next_to_mulligan(g: GameModel, i: nat)
    ensures
        match g.next_to_mulligan(i) {
            Some(s) => exists|k: int|
                i <= k < g.seating.len() && #[trigger] g.seating[k] == s && !g.out(s) && forall|
                    j: int,
                |
                    i <= j < k ==> g.out(#[trigger] g.seating[j]),
            None => forall|j: int| i <= j < g.seating.len() ==> g.out(#[trigger] g.seating[j]),
        },
    decreases g.seating.len() - i,
{
    if i < g.seating.len() && g.out(g.seating[i as int]) {
        lemma_next_to_mulligan(g, i + 1);
        if let Some(s) = g.next_to_mulligan(i + 1) {
            let k = choose|k: int|
                i + 1 <= k < g.seating.len() && #[trigger] g.seating[k] == s && !g.out(s) && forall|
                    j: int,
                |
                    i + 1 <= j < k ==> g.out(#[trigger] g.seating[j]);
            assert(i <= k < g.seating.len() && g.seating[k] == s);
        }
    } else if i < g.seating.len() {
        assert(g.seating[i as int] == g.next_to_mulligan(i)->0);
    }
}

/// After one player has decided on their hand, the next at the table who is
/// still in decides; after the last, nobody is asked any more.
pub proof fn law_mulligans_go_round(g: GameModel, pos: nat)
    requires
        pos < g.seating.len(),
        g.seating.no_duplicates(),
    ensures
        ({
            let h = g.advance_mulligan(g.seating[pos as int]);
            &&& pos + 1 < g.seating.len() && !g.out(g.seating[pos as int + 1]) ==> h.pending == Some(
                crate::state::PendingModel::Mulligan { seat: g.seating[pos as int + 1] },
            )
            &&& (forall|j: int| pos < j < g.seating.len() ==> g.out(#[trigger] g.seating[j]))
                ==> h.pending is None
            &&& h.objects == g.objects
            &&& h.players == g.players
        }),
{
    let s = g.seating[pos as int];
    crate::seqs::lemma_find_from(g.seating, s, 0);
    assert(crate::seqs::find(g.seating, s) == Some(pos));
    lemma_next_to_mulligan(g, pos + 1);
}

} // verus!
