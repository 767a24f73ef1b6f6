//! What holds of every game, from its first decision to its last.
use crate::action::ActionModel;
use crate::error::ErrorModel;
use crate::held::{lemma_accepted_in_hand, lemma_performed_casts};
use crate::keeping::{keep_draw, keep_perform, keep_settle};
use crate::progress::lemma_settle;
use crate::setup::ConfigModel;
use crate::sound::{lemma_emit, lemma_follows_on, lemma_leads_on, lemma_leads_self, lemma_same_core, lemma_shuffle_leads, lemma_stays_gone, life_told, listed, nobody};
use crate::state::{GameModel, PendingModel, PlayedModel};
use crate::types::{ObjectId, Seat, Zone};
use vstd::prelude::*;

verus! {

// ----- one action -----

impl GameModel {
    pub open spec fn remembering(self, p: PlayedModel) -> GameModel {
        GameModel { history: self.history.push(p), ..self }
    }

    pub open spec fn counted(self) -> GameModel {
        GameModel {
            state_version: if self.state_version < u64::MAX {
                (self.state_version + 1) as u64
            } else {
                self.state_version
            },
            ..self
        }
    }
}

/// Where an accepted action leads: through what it does and what the game
/// then does on its own.
proof fn lemma_apply(g: GameModel, seat: Seat, a: ActionModel) -> (next: GameModel)
    requires
        g.apply(seat, a) is Ok,
    ensures
        g.apply(seat, a)->Ok_0 == next.counted(),
        g.remembering(PlayedModel { seat, action: a }).follows(next),
        g.sound() && g.at_rest() && g.plays_fairly(seat, a) ==> next.sound() && next.at_rest() && (
        next.outcome is Some ==> next.ended_well()),
{
    reveal(GameModel::apply);
    let p = g.perform(seat, a)->Ok_0;
    keep_perform(g, seat, a);
    let played = PlayedModel { seat, action: a };
    let g1 = g.remembering(played);
    let p1 = p.remembering(played);
    assert(g1.follows(p1)) by {
        reveal(GameModel::leads_to);
        reveal(GameModel::follows);
        reveal(GameModel::log_grows);
        reveal(GameModel::players_stay);
        reveal(GameModel::objects_stay);
        reveal(GameModel::lives_are_told);
        reveal(GameModel::gone_for_a_reason);
        assert(forall|s: Seat| #[trigger] p1.player(s) == p.player(s));
        assert(forall|s: Seat| #[trigger] g1.player(s) == g.player(s));
        assert(forall|id: ObjectId| #[trigger] p1.obj(id) == p.obj(id));
        assert(forall|id: ObjectId| #[trigger] g1.obj(id) == g.obj(id));
        assert(forall|s: Seat| #[trigger] p1.life(s) == p.life(s));
        assert(forall|s: Seat| #[trigger] g1.life(s) == g.life(s));
    }
    let next = p1.settle();
    keep_settle(p1);
    assert(p1.follows(next)) by {
        reveal(GameModel::leads_to);
    }
    lemma_follows_on(g1, p1, next);
    if g.sound() && g.at_rest() && g.plays_fairly(seat, a) {
        lemma_accepted_in_hand(g, seat, a);
        lemma_performed_casts(g, seat, a);
        crate::sound::lemma_sound_same(p, p1, nobody());
        lemma_settle(p1);
    }
    next
}

/// An accepted action is remembered and counted; the table, its cards and
/// its rules stay as they are.
pub proof fn law_accepted_actions_are_counted(g: GameModel, seat: Seat, a: ActionModel)
    requires
        g.apply(seat, a) is Ok,
        g.state_version < u64::MAX,
    ensures
        ({
            let h = g.apply(seat, a)->Ok_0;
            &&& h.state_version == g.state_version + 1
            &&& h.history == g.history.push(PlayedModel { seat, action: a })
            &&& h.format == g.format
            &&& h.seating == g.seating
            &&& h.cards == g.cards
            &&& h.seed == g.seed
        }),
{
    let next = lemma_apply(g, seat, a);
    reveal(GameModel::leads_to);
    reveal(GameModel::follows);
}

/// The log only grows, and turns only pass.
pub proof fn law_the_log_only_grows(g: GameModel, seat: Seat, a: ActionModel)
    requires
        g.apply(seat, a) is Ok,
    ensures
        ({
            let h = g.apply(seat, a)->Ok_0;
            &&& g.log.len() <= h.log.len()
            &&& h.log.subrange(0, g.log.len() as int) == g.log
            &&& h.log == g.log + h.news(g.log.len())
            &&& g.turn <= h.turn
        }),
{
    let next = lemma_apply(g, seat, a);
    let h = next.counted();
    reveal(GameModel::leads_to);
    reveal(GameModel::follows);
    reveal(GameModel::log_grows);
    assert(h.log.subrange(0, g.log.len() as int) =~= g.log);
    assert(h.log =~= g.log + h.news(g.log.len()));
}

/// The events of an action tell what it did to every life total: each change
/// starts from the total before it, and the last one ends at the total now.
pub proof fn law_life_changes_chain(g: GameModel, seat: Seat, a: ActionModel, s: Seat)
    requires
        g.apply(seat, a) is Ok,
        g.has_seat(s),
    ensures
        ({
            let h = g.apply(seat, a)->Ok_0;
            life_told(h.log, s, g.life(s), g.log.len(), h.log.len()) == Some(h.life(s))
        }),
{
    let next = lemma_apply(g, seat, a);
    reveal(GameModel::leads_to);
    reveal(GameModel::follows);
    reveal(GameModel::lives_are_told);
    let played = PlayedModel { seat, action: a };
    assert(g.remembering(played).life(s) == g.life(s));
    assert(next.counted().life(s) == next.life(s));
}

/// Nobody joins a game, and whoever left it stays out, for the reason they
/// left.
pub proof fn law_who_left_stays_out(g: GameModel, seat: Seat, a: ActionModel, s: Seat)
    requires
        g.apply(seat, a) is Ok,
        g.has_seat(s),
    ensures
        ({
            let h = g.apply(seat, a)->Ok_0;
            &&& h.players.len() == g.players.len()
            &&& h.player(s).name == g.player(s).name
            &&& g.out(s) ==> h.player(s).eliminated == g.player(s).eliminated
            &&& h.turn_order.contains(s) ==> g.turn_order.contains(s)
        }),
{
    let next = lemma_apply(g, seat, a);
    reveal(GameModel::leads_to);
    reveal(GameModel::follows);
    reveal(GameModel::players_stay);
    let played = PlayedModel { seat, action: a };
    assert(g.remembering(played).player(s) == g.player(s));
    assert(next.counted().player(s) == next.player(s));
    assert(g.remembering(played).has_seat(s));
}

/// Objects keep their ids, cards and owners.
pub proof fn law_objects_keep_their_owners(g: GameModel, seat: Seat, a: ActionModel, id: ObjectId)
    requires
        g.apply(seat, a) is Ok,
        g.has_obj(id),
    ensures
        ({
            let h = g.apply(seat, a)->Ok_0;
            h.has_obj(id) && h.obj(id).card == g.obj(id).card && h.obj(id).owner == g.obj(id).owner
        }),
{
    let next = lemma_apply(g, seat, a);
    reveal(GameModel::leads_to);
    reveal(GameModel::follows);
    reveal(GameModel::objects_stay);
    let played = PlayedModel { seat, action: a };
    assert(g.remembering(played).obj(id) == g.obj(id));
    assert(g.remembering(played).has_obj(id));
    assert(next.counted().obj(id) == next.obj(id));
}

/// Every accepted action of a sound game at rest leaves a sound one, provided
/// that the shuffle it may call for is one.
pub proof fn law_games_stay_sound(g: GameModel, seat: Seat, a: ActionModel)
    requires
        g.apply(seat, a) is Ok,
        g.sound(),
        g.at_rest(),
        g.plays_fairly(seat, a),
    ensures
        g.apply(seat, a)->Ok_0.sound(),
{
    let next = lemma_apply(g, seat, a);
    crate::sound::lemma_sound_same(next, next.counted(), nobody());
}

/// After every accepted action somebody who is in the game must act, or the
/// game is over: won by the one player left, or drawn by none. Nobody is asked
/// to divide damage among blockers that are gone.
pub proof fn law_somebody_must_act(g: GameModel, seat: Seat, a: ActionModel)
    requires
        g.apply(seat, a) is Ok,
        g.sound(),
        g.at_rest(),
        g.plays_fairly(seat, a),
    ensures
        ({
            let h = g.apply(seat, a)->Ok_0;
            &&& h.at_rest()
            &&& if h.outcome is Some {
                h.acting() is None && h.ended_well()
            } else {
                &&& h.acting() matches Some((s, _)) && h.turn_order.contains(s)
                &&& h.turn_order.len() >= 2
                &&& h.pending matches Some(PendingModel::AssignDamage { attacker, .. })
                    ==> h.live_blockers(attacker).len() > 0
            }
        }),
{
    let next = lemma_apply(g, seat, a);
    let h = next.counted();
    if let Some(PendingModel::AssignDamage { attacker, .. }) = next.pending {
        crate::progress::lemma_live_same(
            next,
            h,
            attacker,
            next.obj(attacker).blocked_by.len(),
        );
    }
}

// ----- one place for every object -----

/// In a sound game an object that is on a list says so itself, and is on no
/// other; an object that says it is in a zone with lists is on the list of
/// its owner there, or on the battlefield on that of its controller.
pub proof fn law_every_object_is_in_one_place(
    g: GameModel,
    id: ObjectId,
    s: Seat,
    z: Zone,
)
    requires
        g.sound(),
        g.has_obj(id),
    ensures
        listed(z) ==> (g.list(s, z).contains(id) <==> g.obj(id).zone == z && s == (
        if z is Battlefield {
            g.obj(id).controller
        } else {
            g.obj(id).owner
        })),
        g.list(s, z).no_duplicates(),
        g.has_seat(g.obj(id).owner),
        g.has_seat(g.obj(id).controller),
{
    reveal(GameModel::lists_are_true);
    reveal(GameModel::lists_are_sets);
    reveal(GameModel::lists_are_full);
    reveal(GameModel::objects_are_real);
    if g.list(s, z).contains(id) {
        let k = choose|k: int| 0 <= k < g.list(s, z).len() && g.list(s, z)[k] == id;
        assert(g.in_zone(g.list(s, z)[k], z));
    }
    let o = g.obj(id);
    if listed(o.zone) {
        assert(g.list(o.home(), o.zone).contains(id));
    }
}

/// In a sound game the spells on the stack are the objects in that zone.
pub proof fn law_the_stack_holds_its_spells(g: GameModel, id: ObjectId)
    requires
        g.sound(),
        g.has_obj(id),
    ensures
        g.obj(id).zone is Stack <==> exists|k: int| g.spell_entry(id, k),
{
    reveal(GameModel::spells_are_there);
    reveal(GameModel::stack_is_full_but);
    if exists|k: int| g.spell_entry(id, k) {
        let k = choose|k: int| g.spell_entry(id, k);
        assert(g.in_zone(g.stack[k].object, Zone::Stack));
    }
}

/// In a sound game a seat is in the turn order if and only if its player has
/// not left.
pub proof fn law_the_turn_order_is_who_is_left(g: GameModel, s: Seat)
    requires
        g.sound(),
        g.has_seat(s),
    ensures
        g.turn_order.contains(s) <==> !g.out(s),
{
    reveal(GameModel::table_agrees);
}

// ----- a game is its seed and its actions -----

proof fn lemma_deal_leads(g: GameModel, seats: Seq<Seat>, n: nat)
    ensures
        g.leads_to(g.deal(seats, n)),
    decreases n,
{
    if n > 0 && n <= seats.len() {
        let m = (n - 1) as nat;
        lemma_deal_leads(g, seats, m);
        let a = g.deal(seats, m);
        let b = a.shuffle_library(seats[n - 1]);
        lemma_shuffle_leads(a, seats[n - 1]);
        keep_draw(b, seats[n - 1], g.format.starting_hand as nat);
        reveal(GameModel::keeps);
        lemma_leads_on(g, a, b);
        lemma_leads_on(g, b, g.deal(seats, n));
    } else {
        lemma_leads_self(g);
    }
}

/// A game starts with nothing done.
proof fn lemma_start(c: ConfigModel, seed: u64)
    ensures
        c.start(seed).history == Seq::<PlayedModel>::empty(),
        c.start(seed).seed == seed,
        c.start(seed).state_version == 0,
        c.laid_out(seed).leads_to(c.start(seed)),
{
    let g0 = c.laid_out(seed);
    let g1 = g0.emit(c.opening(seed));
    lemma_emit(g0, c.opening(seed));
    let g2 = g1.deal(g0.seating, g0.seating.len());
    lemma_deal_leads(g1, g0.seating, g0.seating.len());
    let g3 = GameModel {
        pending: if c.format.starting_hand > 0 && g0.seating.len() > 0 {
            Some(PendingModel::Mulligan { seat: g0.seating[0] })
        } else {
            None
        },
        trigger_cursor: g2.log.len(),
        ..g2
    };
    lemma_same_core(g2, g3);
    keep_settle(g3);
    reveal(GameModel::keeps);
    lemma_leads_on(g0, g1, g2);
    lemma_leads_on(g0, g2, g3);
    lemma_leads_on(g0, g3, g3.settle());
    assert(c.start(seed) == g3.settle());
    reveal(GameModel::leads_to);
    reveal(GameModel::follows);
}

/// What was done in a game is what it remembers.
proof fn lemma_history(g: GameModel, plays: Seq<PlayedModel>, n: nat)
    requires
        n <= plays.len(),
        g.apply_all(plays, n) is Ok,
    ensures
        g.apply_all(plays, n)->Ok_0.history == g.history + plays.subrange(0, n as int),
        g.apply_all(plays, n)->Ok_0.seed == g.seed,
    decreases n,
{
    if n > 0 {
        let m = (n - 1) as nat;
        lemma_history(g, plays, m);
        let p = g.apply_all(plays, m)->Ok_0;
        let last = plays[n - 1];
        let next = lemma_apply(p, last.seat, last.action);
        assert(next.history == p.history.push(last) && next.seed == p.seed) by {
            reveal(GameModel::leads_to);
            reveal(GameModel::follows);
        }
        assert(plays.subrange(0, n as int) =~= plays.subrange(0, m as int).push(last));
        assert(g.history + plays.subrange(0, n as int) =~= (g.history + plays.subrange(
            0,
            m as int,
        )).push(last));
    } else {
        assert(g.history + plays.subrange(0, 0) =~= g.history);
    }
}

proof fn lemma_same_plays(g: GameModel, a: Seq<PlayedModel>, b: Seq<PlayedModel>, n: nat)
    requires
        n <= a.len(),
        n <= b.len(),
        forall|i: int| 0 <= i < n ==> #[trigger] a[i] == b[i],
    ensures
        g.apply_all(a, n) == g.apply_all(b, n),
    decreases n,
{
    if n > 0 {
        lemma_same_plays(g, a, b, (n - 1) as nat);
        assert(a[n - 1] == b[n - 1]);
    }
}

/// A game is reconstructed from its setup, its seed and what was done in it:
/// replaying its own history gives the very same game.
pub proof fn law_history_replays(c: ConfigModel, seed: u64, plays: Seq<PlayedModel>, n: nat)
    requires
        c.error() is None,
        n <= plays.len(),
        c.start(seed).apply_all(plays, n) is Ok,
    ensures
        ({
            let g = c.start(seed).apply_all(plays, n)->Ok_0;
            &&& g.history == plays.subrange(0, n as int)
            &&& c.replay(g.seed, g.history) == Ok::<GameModel, ErrorModel>(g)
        }),
{
    let g0 = c.start(seed);
    lemma_start(c, seed);
    lemma_history(g0, plays, n);
    let g = g0.apply_all(plays, n)->Ok_0;
    let done = plays.subrange(0, n as int);
    assert(g.history =~= done);
    assert forall|i: int| 0 <= i < n implies #[trigger] plays[i] == done[i] by {}
    lemma_same_plays(g0, plays, done, n);
}

// ----- what leaves the game -----

proof fn lemma_all_there(c: ConfigModel, n: nat)
    ensures
        forall|i: int|
            0 <= i < c.objects_n(n).len() ==> !((#[trigger] c.objects_n(n)[i]).zone is OutOfGame),
    decreases n,
{
    if n > 0 && n <= c.players.len() {
        lemma_all_there(c, (n - 1) as nat);
        let rest = c.objects_n((n - 1) as nat);
        let all = c.objects_n(n);
        assert forall|i: int| 0 <= i < all.len() implies !((
        #[trigger] all[i]).zone is OutOfGame) by {
            if i < rest.len() {
                assert(all[i] == rest[i]);
            }
        }
    }
}

proof fn lemma_gone_so_far(c: ConfigModel, seed: u64, plays: Seq<PlayedModel>, n: nat, id: ObjectId)
    requires
        n <= plays.len(),
        c.start(seed).apply_all(plays, n) is Ok,
        ({
            let g = c.start(seed).apply_all(plays, n)->Ok_0;
            g.objects.len() <= u32::MAX && g.has_obj(id) && g.obj(id).zone is OutOfGame
        }),
    ensures
        c.start(seed).apply_all(plays, n)->Ok_0.may_be_gone(id),
    decreases n,
{
    let g = c.start(seed).apply_all(plays, n)->Ok_0;
    reveal(GameModel::gone_for_a_reason);
    if n == 0 {
        lemma_start(c, seed);
        let g0 = c.laid_out(seed);
        assert(g0.gone_for_a_reason(g)) by {
            reveal(GameModel::leads_to);
            reveal(GameModel::follows);
        }
        lemma_all_there(c, c.players.len());
        if g0.has_obj(id) {
            assert(!(g0.objects[id.0 - 1].zone is OutOfGame));
        }
        assert(g.obj(id).zone is OutOfGame);
    } else {
        let m = (n - 1) as nat;
        let p = c.start(seed).apply_all(plays, m)->Ok_0;
        let last = plays[n - 1];
        let next = lemma_apply(p, last.seat, last.action);
        let q = p.remembering(last);
        assert(g == next.counted());
        assert(next.obj(id) == g.obj(id));
        assert(next.has_obj(id));
        reveal(GameModel::leads_to);
        reveal(GameModel::follows);
        assert(q.gone_for_a_reason(next));
        assert(p.objects.len() <= g.objects.len()) by {
            reveal(GameModel::objects_stay);
        }
        if q.has_obj(id) && q.obj(id).zone is OutOfGame {
            assert(p.obj(id) == q.obj(id));
            lemma_gone_so_far(c, seed, plays, m, id);
            assert(q.may_be_gone(id));
            lemma_stays_gone(q, next, id);
        }
        assert(next.may_be_gone(id));
    }
}

/// In every game that is played, what has left it is a token or belongs to a
/// player who has left.
pub proof fn law_what_is_gone_may_be(
    c: ConfigModel,
    seed: u64,
    plays: Seq<PlayedModel>,
    g: GameModel,
    id: ObjectId,
)
    requires
        c.replay(seed, plays) == Ok::<GameModel, ErrorModel>(g),
        g.objects.len() <= u32::MAX,
        g.has_obj(id),
        g.obj(id).zone is OutOfGame,
    ensures
        (g.has_def(id) && g.def(id).token) || g.out(g.obj(id).owner),
{
    lemma_gone_so_far(c, seed, plays, plays.len(), id);
}

} // verus!
