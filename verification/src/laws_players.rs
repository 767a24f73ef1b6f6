//! What effects do to players, told by their life, hands, libraries and
//! graveyards before and after.
use crate::ir::{Amount, Effect, PlayerRef};
use crate::keeping::{keep_draw_n, keep_mill};
use crate::seqs::without;
use crate::sound::lemma_without;
use crate::state::{CtxModel, GameModel, PlayerModel};
use crate::types::{sat_i32, ObjectId, Seat, Zone};
use vstd::prelude::*;

verus! {

// ----- life -----

proof fn lemma_lives_each(g: GameModel, seats: Seq<Seat>, amount: i32, n: nat)
    requires
        n <= seats.len(),
        seats.no_duplicates(),
    ensures
        ({
            let gain = g.gain_each(seats, amount, n);
            let lose = g.lose_each(seats, amount, n);
            &&& gain.objects == g.objects && lose.objects == g.objects
            &&& gain.turn_order == g.turn_order && lose.turn_order == g.turn_order
            &&& gain.players.len() == g.players.len() && lose.players.len() == g.players.len()
            &&& forall|s: Seat|
                #![trigger gain.player(s)]
                g.has_seat(s) ==> gain.player(s).life == (if amount > 0 && g.turn_order.contains(s)
                    && (exists|i: int| 0 <= i < n && #[trigger] seats[i] == s) {
                    sat_i32(g.player(s).life + amount)
                } else {
                    g.player(s).life
                })
            &&& forall|s: Seat|
                #![trigger lose.player(s)]
                g.has_seat(s) ==> lose.player(s).life == (if exists|i: int|
                    0 <= i < n && #[trigger] seats[i] == s {
                    sat_i32(g.player(s).life - amount)
                } else {
                    g.player(s).life
                })
        }),
    decreases n,
{
    if n > 0 {
        lemma_lives_each(g, seats, amount, (n - 1) as nat);
        let a = g.gain_each(seats, amount, (n - 1) as nat);
        let b = g.lose_each(seats, amount, (n - 1) as nat);
        let gain = g.gain_each(seats, amount, n);
        let lose = g.lose_each(seats, amount, n);
        let t = seats[n - 1];
        assert forall|s: Seat|
            g.has_seat(s) && s != t implies ((exists|i: int| 0 <= i < n && #[trigger] seats[i] == s)
            <==> (exists|i: int| 0 <= i < n - 1 && #[trigger] seats[i] == s)) by {
            if exists|i: int| 0 <= i < n && #[trigger] seats[i] == s {
                let i = choose|i: int| 0 <= i < n && #[trigger] seats[i] == s;
                assert(0 <= i < n - 1 && seats[i] == s);
            }
            if exists|i: int| 0 <= i < n - 1 && #[trigger] seats[i] == s {
                let i = choose|i: int| 0 <= i < n - 1 && #[trigger] seats[i] == s;
                assert(0 <= i < n && seats[i] == s);
            }
        }
        assert(seats[n - 1] == t);
        assert forall|s: Seat| #![trigger gain.player(s)] g.has_seat(s) implies gain.player(s).life
            == (if amount > 0 && g.turn_order.contains(s) && (exists|i: int|
            0 <= i < n && #[trigger] seats[i] == s) {
            sat_i32(g.player(s).life + amount)
        } else {
            g.player(s).life
        }) by {
            let before = a.player(s);
            if s != t {
                assert(gain.player(s) == a.player(s));
            }
        }
        assert forall|s: Seat| #![trigger lose.player(s)] g.has_seat(s) implies lose.player(s).life
            == (if exists|i: int| 0 <= i < n && #[trigger] seats[i] == s {
            sat_i32(g.player(s).life - amount)
        } else {
            g.player(s).life
        }) by {
            let before = b.player(s);
            if s != t {
                assert(lose.player(s) == b.player(s));
            }
        }
    }
}

/// Gaining life adds that much to the life of each player referred to who is
/// in the game, and losing life takes it off; nobody else's changes, and
/// nothing moves.
pub proof fn law_life_is_gained_and_lost(
    g: GameModel,
    ctx: CtxModel,
    player: PlayerRef,
    amount: Amount,
    s: Seat,
)
    requires
        g.has_seat(s),
        g.players_of(player, ctx).no_duplicates(),
    ensures
        ({
            let n = g.amount(amount, ctx);
            let life = g.player(s).life;
            let gain = g.apply_effect(ctx, Effect::GainLife { player, amount }).player(s).life;
            let lose = g.apply_effect(ctx, Effect::LoseLife { player, amount }).player(s).life;
            &&& g.players_of(player, ctx).contains(s) ==> {
                &&& g.turn_order.contains(s) && n > 0 && life + n <= i32::MAX ==> gain == life + n
                &&& n <= 0 ==> gain == life
                &&& i32::MIN <= life - n <= i32::MAX ==> lose == life - n
            }
            &&& !g.players_of(player, ctx).contains(s) ==> gain == life && lose == life
            &&& gain >= life
            &&& n >= 0 ==> lose <= life
        }),
        g.apply_effect(ctx, Effect::GainLife { player, amount }).objects == g.objects,
        g.apply_effect(ctx, Effect::LoseLife { player, amount }).objects == g.objects,
{
    reveal(GameModel::apply_effect);
    let seats = g.players_of(player, ctx);
    let n = g.amount(amount, ctx);
    lemma_lives_each(g, seats, n, seats.len());
    let gain = g.gain_each(seats, n, seats.len());
    let lose = g.lose_each(seats, n, seats.len());
    assert(gain.player(s).life == gain.player(s).life && lose.player(s).life == lose.player(
        s,
    ).life);
    assert(seats.contains(s) <==> exists|i: int| 0 <= i < seats.len() && #[trigger] seats[i] == s);
}

// ----- drawing and milling -----

impl GameModel {
    /// The top `k` cards of a library went to the end of a hand, one by one.
    pub open spec fn drew(self, h: GameModel, s: Seat, k: nat) -> bool {
        let was = self.player(s);
        let now = h.player(s);
        &&& now.library == was.library.subrange(0, was.library.len() - k)
        &&& now.hand.len() == was.hand.len() + k
        &&& now.hand.subrange(0, was.hand.len() as int) == was.hand
        &&& forall|i: int|
            0 <= i < k ==> #[trigger] now.hand[was.hand.len() + i]
                == was.library[was.library.len() - 1 - i]
        &&& now.graveyard == was.graveyard
        &&& now.battlefield == was.battlefield
        &&& now.life == was.life
    }
}

proof fn lemma_draw_n(g: GameModel, s: Seat, n: nat)
    requires
        g.sound(),
        g.has_seat(s),
    ensures
        ({
            let h = g.draw_n(s, n).0;
            let all = g.player(s).library.len();
            let k = if n < all {
                n
            } else {
                all
            };
            &&& h.sound()
            &&& g.drew(h, s, k)
            &&& h.player(s).drew_from_empty == (g.player(s).drew_from_empty || n > all)
            &&& h.objects.len() == g.objects.len()
            &&& h.players.len() == g.players.len()
            &&& g.draw_n(s, n).1.len() == k
            &&& forall|x: ObjectId|
                #![trigger h.obj(x)]
                g.has_obj(x) && !(g.obj(x).zone is Library) ==> h.obj(x) == g.obj(x)
            &&& forall|t: Seat|
                #![trigger h.player(t)]
                t != s && g.has_seat(t) ==> h.player(t) == g.player(t)
        }),
    decreases n,
{
    if n == 0 {
        let p = g.player(s);
        assert(p.library.subrange(0, p.library.len() as int) =~= p.library);
        assert(p.hand.subrange(0, p.hand.len() as int) =~= p.hand);
    } else {
        lemma_draw_n(g, s, (n - 1) as nat);
        let a = g.draw_n(s, (n - 1) as nat).0;
        let h = g.draw_n(s, n).0;
        keep_draw_n(g, s, n);
        assert(h.sound()) by {
            reveal(GameModel::keeps);
        }
        let was = g.player(s);
        let mid = a.player(s);
        let now = h.player(s);
        if mid.library.len() > 0 {
            let id = mid.library.last();
            let k = (n - 1) as nat;
            assert(n <= was.library.len());
            assert(id == was.library[was.library.len() - 1 - k]);
            assert(now.library =~= was.library.subrange(0, was.library.len() - n));
            assert(now.hand == mid.hand.push(id));
            assert(now.hand.subrange(0, was.hand.len() as int) =~= mid.hand.subrange(
                0,
                was.hand.len() as int,
            ));
            assert forall|i: int| 0 <= i < n implies #[trigger] now.hand[was.hand.len() + i]
                == was.library[was.library.len() - 1 - i] by {
                if i < k {
                    assert(now.hand[was.hand.len() + i] == mid.hand[was.hand.len() + i]);
                }
            }
            assert(a.has_obj(id) && a.obj(id).zone is Library) by {
                reveal(GameModel::lists_are_true);
                assert(a.list(s, Zone::Library)[mid.library.len() - 1] == id);
            }
            assert forall|x: ObjectId|
                #![trigger h.obj(x)]
                g.has_obj(x) && !(g.obj(x).zone is Library) implies h.obj(x) == g.obj(x) by {
                assert(a.obj(x) == g.obj(x));
            }
        } else {
            assert forall|x: ObjectId|
                #![trigger h.obj(x)]
                g.has_obj(x) && !(g.obj(x).zone is Library) implies h.obj(x) == g.obj(x) by {
                assert(a.obj(x) == g.obj(x));
            }
        }
        assert forall|t: Seat| #![trigger h.player(t)] t != s && g.has_seat(t) implies h.player(
            t,
        ) == g.player(t) by {
            assert(a.player(t) == g.player(t));
        }
    }
}

/// Drawing takes cards off the top of one's library into one's hand, one after
/// the other, as many as there are; drawing more than there are is remembered.
/// Nobody else's cards move.
pub proof fn law_cards_are_drawn(g: GameModel, s: Seat, n: nat, other: Seat)
    requires
        g.sound(),
        g.has_seat(s),
        g.has_seat(other),
        other != s,
    ensures
        ({
            let h = g.draw(s, n);
            let all = g.player(s).library.len();
            let k = if n < all {
                n
            } else {
                all
            };
            &&& g.drew(h, s, k)
            &&& h.player(s).drew_from_empty == (g.player(s).drew_from_empty || n > all)
            &&& h.player(other) == g.player(other)
        }),
{
    lemma_draw_n(g, s, n);
    let h = g.draw_n(s, n).0;
    assert(h.player(other) == g.player(other));
}

proof fn lemma_draw_each(g: GameModel, seats: Seq<Seat>, count: nat, n: nat, s: Seat)
    requires
        g.sound(),
        seats.no_duplicates(),
        n <= seats.len(),
        g.has_seat(s),
    ensures
        ({
            let h = g.draw_each(seats, count, n);
            let all = g.player(s).library.len();
            let k = if count < all {
                count
            } else {
                all
            };
            &&& h.sound()
            &&& h.players.len() == g.players.len()
            &&& if exists|i: int| 0 <= i < n && #[trigger] seats[i] == s {
                g.drew(h, s, k)
            } else {
                h.player(s) == g.player(s)
            }
        }),
    decreases n,
{
    if n > 0 {
        lemma_draw_each(g, seats, count, (n - 1) as nat, s);
        let a = g.draw_each(seats, count, (n - 1) as nat);
        let t = seats[n - 1];
        let h = g.draw_each(seats, count, n);
        crate::keeping::keep_draw(a, t, count);
        assert(h.sound()) by {
            reveal(GameModel::keeps);
        }
        if exists|i: int| 0 <= i < n - 1 && #[trigger] seats[i] == s {
            let i = choose|i: int| 0 <= i < n - 1 && #[trigger] seats[i] == s;
            assert(0 <= i < n && seats[i] == s);
            assert(s != t);
        }
        if s == t {
            assert(seats[n - 1] == s);
            lemma_draw_n(a, s, count);
        } else {
            if exists|i: int| 0 <= i < n && #[trigger] seats[i] == s {
                let i = choose|i: int| 0 <= i < n && #[trigger] seats[i] == s;
                assert(0 <= i < n - 1 && seats[i] == s);
            }
            if a.has_seat(t) {
                lemma_draw_n(a, t, count);
                let b = a.draw_n(t, count).0;
                assert(b.player(s) == a.player(s));
            } else {
                lemma_no_draw(a, t, count);
            }
        }
    }
}

proof fn lemma_no_draw(g: GameModel, s: Seat, n: nat)
    requires
        !g.has_seat(s),
    ensures
        g.draw_n(s, n).0 == g,
        g.draw_n(s, n).1.len() == 0,
    decreases n,
{
    if n > 0 {
        lemma_no_draw(g, s, (n - 1) as nat);
    }
}

/// "Draw two cards" has each player referred to draw that many and nobody
/// else any.
pub proof fn law_draw_effects(
    g: GameModel,
    ctx: CtxModel,
    player: PlayerRef,
    count: Amount,
    s: Seat,
)
    requires
        g.sound(),
        g.has_seat(s),
        g.players_of(player, ctx).no_duplicates(),
    ensures
        ({
            let h = g.apply_effect(ctx, Effect::Draw { player, count });
            let n = g.amount(count, ctx);
            let all = g.player(s).library.len();
            let k: nat = if n <= 0 {
                0
            } else if n < all {
                n as nat
            } else {
                all
            };
            if g.players_of(player, ctx).contains(s) {
                g.drew(h, s, k)
            } else {
                h.player(s) == g.player(s)
            }
        }),
{
    reveal(GameModel::apply_effect);
    let seats = g.players_of(player, ctx);
    lemma_draw_each(
        g,
        seats,
        crate::interp::at_least_zero(g.amount(count, ctx)),
        seats.len(),
        s,
    );
    assert(seats.contains(s) <==> exists|i: int| 0 <= i < seats.len() && #[trigger] seats[i] == s);
}

impl GameModel {
    /// The top `k` cards of a library went to the graveyard, one by one.
    pub open spec fn milled(self, h: GameModel, s: Seat, k: nat) -> bool {
        let was = self.player(s);
        let now = h.player(s);
        &&& now.library == was.library.subrange(0, was.library.len() - k)
        &&& now.graveyard.len() == was.graveyard.len() + k
        &&& now.graveyard.subrange(0, was.graveyard.len() as int) == was.graveyard
        &&& forall|i: int|
            0 <= i < k ==> #[trigger] now.graveyard[was.graveyard.len() + i]
                == was.library[was.library.len() - 1 - i]
        &&& now.hand == was.hand
        &&& now.battlefield == was.battlefield
        &&& now.life == was.life
        &&& now.drew_from_empty == was.drew_from_empty
    }
}

proof fn lemma_mill_one(g: GameModel, s: Seat)
    requires
        g.sound(),
        g.has_seat(s),
        g.player(s).library.len() > 0,
    ensures
        ({
            let h = g.mill_one(s);
            let was = g.player(s);
            let now = h.player(s);
            &&& now.library == was.library.drop_last()
            &&& now.graveyard == was.graveyard.push(was.library.last())
            &&& now.hand == was.hand
            &&& now.battlefield == was.battlefield
            &&& now.life == was.life
            &&& now.drew_from_empty == was.drew_from_empty
            &&& h.players.len() == g.players.len()
            &&& forall|t: Seat|
                #![trigger h.player(t)]
                t != s && g.has_seat(t) ==> h.player(t) == g.player(t)
        }),
{
    let p = g.player(s);
    let id = p.library.last();
    let rest = p.library.drop_last();
    assert(g.has_obj(id) && g.obj(id).zone is Library && g.obj(id).owner == s) by {
        reveal(GameModel::lists_are_true);
        assert(g.list(s, Zone::Library)[p.library.len() - 1] == id);
    }
    assert(!rest.contains(id)) by {
        reveal(GameModel::lists_are_sets);
        assert(g.list(s, Zone::Library).no_duplicates());
        if rest.contains(id) {
            let j = choose|j: int| 0 <= j < rest.len() && rest[j] == id;
            assert(p.library[j] == p.library[p.library.len() - 1]);
        }
    }
    lemma_without(rest, id);
    let g1 = g.with_player(s, PlayerModel { library: rest, ..p });
    let h = g.mill_one(s);
    assert(g1.obj(id) == g.obj(id));
    assert(without(g1.list(s, Zone::Library), id) == rest);
    assert forall|t: Seat| #![trigger h.player(t)] t != s && g.has_seat(t) implies h.player(t)
        == g.player(t) by {}
}

proof fn lemma_mill(g: GameModel, s: Seat, n: nat)
    requires
        g.sound(),
        g.has_seat(s),
    ensures
        ({
            let h = g.mill(s, n);
            let all = g.player(s).library.len();
            let k = if n < all {
                n
            } else {
                all
            };
            &&& h.sound()
            &&& g.milled(h, s, k)
            &&& h.players.len() == g.players.len()
            &&& forall|t: Seat|
                #![trigger h.player(t)]
                t != s && g.has_seat(t) ==> h.player(t) == g.player(t)
        }),
    decreases n,
{
    if n == 0 {
        let p = g.player(s);
        assert(p.library.subrange(0, p.library.len() as int) =~= p.library);
        assert(p.graveyard.subrange(0, p.graveyard.len() as int) =~= p.graveyard);
    } else {
        lemma_mill(g, s, (n - 1) as nat);
        let a = g.mill(s, (n - 1) as nat);
        let h = g.mill(s, n);
        keep_mill(g, s, n);
        assert(h.sound()) by {
            reveal(GameModel::keeps);
        }
        let was = g.player(s);
        let mid = a.player(s);
        let now = h.player(s);
        if mid.library.len() > 0 {
            lemma_mill_one(a, s);
            let k = (n - 1) as nat;
            assert(now.library =~= was.library.subrange(0, was.library.len() - n));
            assert(now.graveyard.subrange(0, was.graveyard.len() as int)
                =~= mid.graveyard.subrange(0, was.graveyard.len() as int));
            assert forall|i: int| 0 <= i < n implies #[trigger] now.graveyard[was.graveyard.len()
                + i] == was.library[was.library.len() - 1 - i] by {
                if i < k {
                    assert(now.graveyard[was.graveyard.len() + i] == mid.graveyard[
                        was.graveyard.len() + i]);
                }
            }
        }
        assert forall|t: Seat| #![trigger h.player(t)] t != s && g.has_seat(t) implies h.player(
            t,
        ) == g.player(t) by {
            assert(a.player(t) == g.player(t));
        }
    }
}

/// Milling one player puts that many cards off the top of their library into
/// their graveyard, as many as there are; nobody draws, and nobody else's
/// cards move.
pub proof fn law_cards_are_milled(
    g: GameModel,
    ctx: CtxModel,
    player: PlayerRef,
    count: Amount,
    s: Seat,
    other: Seat,
)
    requires
        g.sound(),
        g.has_seat(s),
        g.has_seat(other),
        other != s,
        g.players_of(player, ctx) == seq![s],
    ensures
        ({
            let h = g.apply_effect(ctx, Effect::Mill { player, count });
            let n = g.amount(count, ctx);
            let all = g.player(s).library.len();
            let k: nat = if n <= 0 {
                0
            } else if n < all {
                n as nat
            } else {
                all
            };
            g.milled(h, s, k) && h.player(other) == g.player(other)
        }),
{
    reveal(GameModel::apply_effect);
    let n = crate::interp::at_least_zero(g.amount(count, ctx));
    lemma_mill(g, s, n);
    reveal_with_fuel(GameModel::mill_each, 2);
    assert(seq![s][0] == s);
    let h = g.mill(s, n);
    assert(h.player(other) == g.player(other));
}

} // verus!
