//! What the effects of the card language do, told by where cards are
//! before and after.
use crate::ir::{Effect, Ref, ReturnZone};
use crate::keeping::{keep_destroy_each, keep_move_each, keep_reanimate_each};
use crate::sound::lemma_moved;
use crate::state::{CtxModel, GameModel, ObjectModel};
use crate::types::{Keyword, ObjectId, Seat, Zone};
use vstd::prelude::*;

verus! {

// ----- where cards are -----

impl GameModel {
    /// A player's lists name the object if and only if that is where it is:
    /// with its controller on the battlefield, with its owner elsewhere.
    pub open spec fn filed(self, id: ObjectId, s: Seat) -> bool {
        let o = self.obj(id);
        let p = self.player(s);
        &&& p.library.contains(id) <==> o.zone is Library && o.owner == s
        &&& p.hand.contains(id) <==> o.zone is Hand && o.owner == s
        &&& p.battlefield.contains(id) <==> o.zone is Battlefield && o.controller == s
        &&& p.graveyard.contains(id) <==> o.zone is Graveyard && o.owner == s
        &&& p.exile.contains(id) <==> o.zone is Exile && o.owner == s
        &&& p.command.contains(id) <==> o.zone is Command && o.owner == s
    }

    /// An object that nothing has happened to.
    pub open spec fn untouched(self, h: GameModel, id: ObjectId) -> bool {
        h.has_obj(id) && h.obj(id) == self.obj(id)
    }

    /// The object went from one zone to another: the same card of the same
    /// owner, with nothing of what it was before.
    pub open spec fn went(self, h: GameModel, id: ObjectId, to: Zone) -> bool {
        let o = h.obj(id);
        &&& h.has_obj(id)
        &&& o.zone == to
        &&& o.card == self.obj(id).card
        &&& o.owner == self.obj(id).owner
        &&& !o.tapped
        &&& o.damage == 0
        &&& !o.deathtouch_damaged
        &&& o.counters.plus1 == 0 && o.counters.minus1 == 0
        &&& o.modifiers.len() == 0
        &&& o.attached_to is None
        &&& o.attacking is None
        &&& o.blocking.len() == 0
        &&& !o.blocked
    }
}

/// In a sound game every card is where it says it is, and nowhere else.
pub proof fn law_cards_are_where_they_say(g: GameModel, id: ObjectId, s: Seat)
    requires
        g.sound(),
        g.has_obj(id),
        g.has_seat(s),
    ensures
        g.filed(id, s),
{
    lemma_filed(g, id, s, Zone::Library);
    lemma_filed(g, id, s, Zone::Hand);
    lemma_filed(g, id, s, Zone::Battlefield);
    lemma_filed(g, id, s, Zone::Graveyard);
    lemma_filed(g, id, s, Zone::Exile);
    lemma_filed(g, id, s, Zone::Command);
}

proof fn lemma_filed(g: GameModel, id: ObjectId, s: Seat, z: Zone)
    requires
        g.sound(),
        g.has_obj(id),
        g.has_seat(s),
        !(z is Stack) && !(z is OutOfGame),
    ensures
        g.list(s, z).contains(id) <==> g.obj(id).zone == z && (if z is Battlefield {
            g.obj(id).controller
        } else {
            g.obj(id).owner
        }) == s,
{
    if g.list(s, z).contains(id) {
        reveal(GameModel::lists_are_true);
        let k = choose|k: int| 0 <= k < g.list(s, z).len() && g.list(s, z)[k] == id;
        assert(g.in_zone(g.list(s, z)[k], z));
    }
    if g.obj(id).zone == z {
        reveal(GameModel::lists_are_full);
        assert(g.list(g.obj(id).home(), g.obj(id).zone).contains(id));
    }
}

/// Moving a card puts it where it goes and leaves every other card alone.
pub proof fn law_moves_move_one_card(g: GameModel, id: ObjectId, to: Zone, other: ObjectId, s: Seat)
    requires
        g.sound(),
        g.has_obj(id),
        g.has_obj(other),
        g.has_seat(s),
        other != id,
        g.obj(id).zone != to,
        !(to is Stack) && !(to is OutOfGame),
    ensures
        ({
            let h = g.move_object(id, to);
            &&& g.went(h, id, to)
            &&& h.obj(id).controller == g.obj(id).controller
            &&& g.untouched(h, other)
            &&& h.filed(id, s)
            &&& h.filed(other, s)
            &&& h.player(s).life == g.player(s).life
        }),
{
    let h = g.move_object(id, to);
    lemma_moved(g, id, to);
    crate::sound::lemma_move(g, id, to);
    assert(h.sound()) by {
        reveal(GameModel::keeps);
    }
    law_cards_are_where_they_say(h, id, s);
    law_cards_are_where_they_say(h, other, s);
}

proof fn lemma_move_each(g: GameModel, ids: Seq<ObjectId>, from: Zone, to: Zone, n: nat)
    requires
        g.sound(),
        from != to,
        !(to is Stack) && !(to is OutOfGame),
        n <= ids.len(),
    ensures
        ({
            let h = g.move_each(ids, from, to, n);
            &&& h.sound()
            &&& h.objects.len() == g.objects.len()
            &&& h.players.len() == g.players.len()
            &&& h.turn_order == g.turn_order
            &&& forall|x: ObjectId|
                #![trigger h.obj(x)]
                g.has_obj(x) ==> if g.obj(x).zone == from && exists|i: int|
                    0 <= i < n && #[trigger] ids[i] == x {
                    g.went(h, x, to) && h.obj(x).controller == g.obj(x).controller
                } else {
                    h.obj(x) == g.obj(x)
                }
            &&& forall|s: Seat|
                #![trigger h.player(s)]
                g.has_seat(s) ==> h.player(s).life == g.player(s).life
        }),
    decreases n,
{
    if n > 0 {
        lemma_move_each(g, ids, from, to, (n - 1) as nat);
        let p = g.move_each(ids, from, to, (n - 1) as nat);
        let h = g.move_each(ids, from, to, n);
        let id = ids[n - 1];
        keep_move_each(g, ids, from, to, n);
        assert(h.sound()) by {
            reveal(GameModel::keeps);
        }
        if p.in_zone(id, from) {
            lemma_moved(p, id, to);
        }
        assert forall|x: ObjectId| #![trigger h.obj(x)] g.has_obj(x) implies if g.obj(x).zone
            == from && exists|i: int| 0 <= i < n && #[trigger] ids[i] == x {
            g.went(h, x, to) && h.obj(x).controller == g.obj(x).controller
        } else {
            h.obj(x) == g.obj(x)
        } by {
            let before = p.obj(x);
            if x == id {
                assert(ids[n - 1] == x);
                if g.obj(x).zone == from {
                    if exists|i: int| 0 <= i < n - 1 && #[trigger] ids[i] == x {
                        assert(p.obj(x).zone == to);
                        assert(h.obj(x) == p.obj(x));
                    } else {
                        assert(p.obj(x) == g.obj(x));
                    }
                } else {
                    assert(p.obj(x) == g.obj(x));
                }
            } else {
                assert(h.obj(x) == p.obj(x));
                if exists|i: int| 0 <= i < n && #[trigger] ids[i] == x {
                    let i = choose|i: int| 0 <= i < n && #[trigger] ids[i] == x;
                    assert(0 <= i < n - 1 && ids[i] == x);
                }
                if exists|i: int| 0 <= i < n - 1 && #[trigger] ids[i] == x {
                    let i = choose|i: int| 0 <= i < n - 1 && #[trigger] ids[i] == x;
                    assert(0 <= i < n && ids[i] == x);
                }
            }
        }
        assert forall|s: Seat| #![trigger h.player(s)] g.has_seat(s) implies h.player(s).life
            == g.player(s).life by {
            assert(p.player(s).life == g.player(s).life);
        }
    }
}

/// What a list of ids names is one of them.
proof fn lemma_named(ids: Seq<ObjectId>, x: ObjectId)
    ensures
        ids.contains(x) <==> exists|i: int| 0 <= i < ids.len() && #[trigger] ids[i] == x,
{
}

/// Returning cards from graveyards to hands puts each card referred to that is
/// in a graveyard into its owner's hand, and moves nothing else: nothing enters
/// the battlefield.
pub proof fn law_cards_return_to_hand(g: GameModel, ctx: CtxModel, target: Ref, id: ObjectId, s: Seat)
    requires
        g.sound(),
        g.has_obj(id),
        g.has_seat(s),
    ensures
        ({
            let h = g.apply_effect(ctx, Effect::ReturnFromGraveyard { target, zone: ReturnZone::Hand });
            &&& if g.obj(id).zone is Graveyard && g.objects_of(target, ctx).contains(id) {
                g.went(h, id, Zone::Hand)
            } else {
                g.untouched(h, id)
            }
            &&& h.filed(id, s)
            &&& h.obj(id).zone is Battlefield ==> g.obj(id).zone is Battlefield
            &&& h.player(s).life == g.player(s).life
        }),
{
    reveal(GameModel::apply_effect);
    let ids = g.objects_of(target, ctx);
    let h = g.move_each(ids, Zone::Graveyard, Zone::Hand, ids.len());
    lemma_move_each(g, ids, Zone::Graveyard, Zone::Hand, ids.len());
    lemma_named(ids, id);
    law_cards_are_where_they_say(h, id, s);
    assert(h.player(s).life == g.player(s).life);
}

/// Returning permanents to hands puts each permanent referred to into its
/// owner's hand, and moves nothing else.
pub proof fn law_permanents_return_to_hand(
    g: GameModel,
    ctx: CtxModel,
    target: Ref,
    id: ObjectId,
    s: Seat,
)
    requires
        g.sound(),
        g.has_obj(id),
        g.has_seat(s),
    ensures
        ({
            let h = g.apply_effect(ctx, Effect::ReturnToHand { target });
            &&& if g.obj(id).zone is Battlefield && g.objects_of(target, ctx).contains(id) {
                g.went(h, id, Zone::Hand)
            } else {
                g.untouched(h, id)
            }
            &&& h.filed(id, s)
            &&& h.player(s).life == g.player(s).life
        }),
{
    reveal(GameModel::apply_effect);
    let ids = g.objects_of(target, ctx);
    let h = g.move_each(ids, Zone::Battlefield, Zone::Hand, ids.len());
    lemma_move_each(g, ids, Zone::Battlefield, Zone::Hand, ids.len());
    lemma_named(ids, id);
    law_cards_are_where_they_say(h, id, s);
    assert(h.player(s).life == g.player(s).life);
}

/// Exiling puts each permanent referred to into exile, and moves nothing else.
pub proof fn law_permanents_are_exiled(
    g: GameModel,
    ctx: CtxModel,
    target: Ref,
    id: ObjectId,
    s: Seat,
)
    requires
        g.sound(),
        g.has_obj(id),
        g.has_seat(s),
    ensures
        ({
            let h = g.apply_effect(ctx, Effect::Exile { target });
            &&& if g.obj(id).zone is Battlefield && g.objects_of(target, ctx).contains(id) {
                g.went(h, id, Zone::Exile)
            } else {
                g.untouched(h, id)
            }
            &&& h.filed(id, s)
            &&& h.player(s).life == g.player(s).life
        }),
{
    reveal(GameModel::apply_effect);
    let ids = g.objects_of(target, ctx);
    let h = g.move_each(ids, Zone::Battlefield, Zone::Exile, ids.len());
    lemma_move_each(g, ids, Zone::Battlefield, Zone::Exile, ids.len());
    lemma_named(ids, id);
    law_cards_are_where_they_say(h, id, s);
    assert(h.player(s).life == g.player(s).life);
}

proof fn lemma_entered(g: GameModel, id: ObjectId, seat: Seat)
    requires
        g.sound(),
        g.has_obj(id),
        g.has_seat(seat),
        !(g.obj(id).zone is Battlefield),
    ensures
        ({
            let h = g.enter_under(id, seat);
            &&& h.objects.len() == g.objects.len()
            &&& h.players.len() == g.players.len()
            &&& g.went(h, id, Zone::Battlefield)
            &&& h.obj(id).controller == seat
            &&& h.obj(id).summoning_sick
            &&& forall|x: ObjectId| #![trigger h.obj(x)] g.has_obj(x) && x != id ==> h.obj(x) == g.obj(x)
            &&& forall|s: Seat|
                #![trigger h.player(s)]
                g.has_seat(s) ==> h.player(s).life == g.player(s).life
        }),
{
    let g1 = g.with_obj(id, ObjectModel { controller: seat, ..g.obj(id) });
    lemma_moved(g1, id, Zone::Battlefield);
    let g2 = g1.move_object(id, Zone::Battlefield);
    let h = g.enter_under(id, seat);
    assert forall|x: ObjectId| #![trigger h.obj(x)] g.has_obj(x) && x != id implies h.obj(x)
        == g.obj(x) by {
        assert(g1.obj(x) == g.obj(x));
        assert(g2.obj(x) == g1.obj(x));
    }
    assert forall|s: Seat| #![trigger h.player(s)] g.has_seat(s) implies h.player(s).life
        == g.player(s).life by {
        assert(g1.player(s) == g.player(s));
        assert(g2.player(s).life == g1.player(s).life);
    }
    assert(g2.obj(id).zone is Battlefield);
}

proof fn lemma_reanimate_each(g: GameModel, ids: Seq<ObjectId>, you: Seat, n: nat)
    requires
        g.sound(),
        g.has_seat(you),
        n <= ids.len(),
    ensures
        ({
            let h = g.reanimate_each(ids, you, n);
            &&& h.sound()
            &&& h.objects.len() == g.objects.len()
            &&& h.players.len() == g.players.len()
            &&& forall|x: ObjectId|
                #![trigger h.obj(x)]
                g.has_obj(x) ==> if g.obj(x).zone is Graveyard && exists|i: int|
                    0 <= i < n && #[trigger] ids[i] == x {
                    g.went(h, x, Zone::Battlefield) && h.obj(x).controller == you && h.obj(
                        x,
                    ).summoning_sick
                } else {
                    h.obj(x) == g.obj(x)
                }
        }),
    decreases n,
{
    if n > 0 {
        lemma_reanimate_each(g, ids, you, (n - 1) as nat);
        let p = g.reanimate_each(ids, you, (n - 1) as nat);
        let h = g.reanimate_each(ids, you, n);
        let id = ids[n - 1];
        keep_reanimate_each(g, ids, you, n);
        assert(h.sound()) by {
            reveal(GameModel::keeps);
        }
        if p.in_zone(id, Zone::Graveyard) {
            lemma_entered(p, id, you);
        }
        assert forall|x: ObjectId| #![trigger h.obj(x)] g.has_obj(x) implies if g.obj(
            x,
        ).zone is Graveyard && exists|i: int| 0 <= i < n && #[trigger] ids[i] == x {
            g.went(h, x, Zone::Battlefield) && h.obj(x).controller == you && h.obj(
                x,
            ).summoning_sick
        } else {
            h.obj(x) == g.obj(x)
        } by {
            let before = p.obj(x);
            if x == id {
                assert(ids[n - 1] == x);
                if g.obj(x).zone is Graveyard && exists|i: int|
                    0 <= i < n - 1 && #[trigger] ids[i] == x {
                    assert(p.obj(x).zone is Battlefield);
                    assert(h.obj(x) == p.obj(x));
                } else {
                    assert(p.obj(x) == g.obj(x));
                }
            } else {
                assert(h.obj(x) == p.obj(x));
                if exists|i: int| 0 <= i < n && #[trigger] ids[i] == x {
                    let i = choose|i: int| 0 <= i < n && #[trigger] ids[i] == x;
                    assert(0 <= i < n - 1 && ids[i] == x);
                }
                if exists|i: int| 0 <= i < n - 1 && #[trigger] ids[i] == x {
                    let i = choose|i: int| 0 <= i < n - 1 && #[trigger] ids[i] == x;
                    assert(0 <= i < n && ids[i] == x);
                }
            }
        }
    }
}

/// Returning cards from graveyards to the battlefield puts each card referred
/// to that is in a graveyard there, under the control of whoever controls the
/// effect, summoning sick; nothing else moves.
pub proof fn law_cards_return_to_the_battlefield(
    g: GameModel,
    ctx: CtxModel,
    target: Ref,
    id: ObjectId,
    s: Seat,
)
    requires
        g.sound(),
        g.has_obj(id),
        g.has_seat(s),
        g.has_seat(ctx.you),
    ensures
        ({
            let h = g.apply_effect(
                ctx,
                Effect::ReturnFromGraveyard { target, zone: ReturnZone::Battlefield },
            );
            &&& if g.obj(id).zone is Graveyard && g.objects_of(target, ctx).contains(id) {
                g.went(h, id, Zone::Battlefield) && h.obj(id).controller == ctx.you && h.obj(
                    id,
                ).summoning_sick
            } else {
                g.untouched(h, id)
            }
            &&& h.filed(id, s)
        }),
{
    reveal(GameModel::apply_effect);
    let ids = g.objects_of(target, ctx);
    let h = g.reanimate_each(ids, ctx.you, ids.len());
    lemma_reanimate_each(g, ids, ctx.you, ids.len());
    lemma_named(ids, id);
    law_cards_are_where_they_say(h, id, s);
}

proof fn lemma_destroy_each(g: GameModel, ids: Seq<ObjectId>, n: nat)
    requires
        g.sound(),
        n <= ids.len(),
    ensures
        ({
            let h = g.destroy_each(ids, n);
            &&& h.sound()
            &&& h.objects.len() == g.objects.len()
            &&& h.players.len() == g.players.len()
            &&& h.cards == g.cards
            &&& h.tokens == g.tokens
            &&& forall|x: ObjectId|
                #![trigger h.obj(x)]
                g.has_obj(x) ==> (h.obj(x) == g.obj(x) || (g.went(h, x, Zone::Graveyard) && g.obj(
                    x,
                ).zone is Battlefield && (exists|i: int| 0 <= i < n && #[trigger] ids[i] == x)
                    && !g.own_keyword(x, Keyword::Indestructible)))
            &&& n > 0 && g.has_obj(ids[0]) && g.obj(ids[0]).zone is Battlefield && !g.has_keyword(
                ids[0],
                Keyword::Indestructible,
            ) ==> g.went(h, ids[0], Zone::Graveyard)
        }),
    decreases n,
{
    if n > 0 {
        lemma_destroy_each(g, ids, (n - 1) as nat);
        let p = g.destroy_each(ids, (n - 1) as nat);
        let h = g.destroy_each(ids, n);
        let id = ids[n - 1];
        keep_destroy_each(g, ids, n);
        assert(h.sound()) by {
            reveal(GameModel::keeps);
        }
        if p.in_zone(id, Zone::Battlefield) {
            lemma_moved(p, id, Zone::Graveyard);
        }
        assert forall|x: ObjectId| #![trigger h.obj(x)] g.has_obj(x) implies (h.obj(x) == g.obj(x)
            || (g.went(h, x, Zone::Graveyard) && g.obj(x).zone is Battlefield && (exists|i: int|
            0 <= i < n && #[trigger] ids[i] == x) && !g.own_keyword(
            x,
            Keyword::Indestructible,
        ))) by {
            let before = p.obj(x);
            if exists|i: int| 0 <= i < n - 1 && #[trigger] ids[i] == x {
                let i = choose|i: int| 0 <= i < n - 1 && #[trigger] ids[i] == x;
                assert(0 <= i < n && ids[i] == x);
            }
            if x == id {
                assert(ids[n - 1] == x);
                if p.obj(x) == g.obj(x) {
                    assert(p.def(x) == g.def(x));
                    assert(p.own_keyword(x, Keyword::Indestructible) == g.own_keyword(
                        x,
                        Keyword::Indestructible,
                    ));
                }
            } else {
                assert(h.obj(x) == p.obj(x));
            }
        }
        if g.has_obj(ids[0]) && g.obj(ids[0]).zone is Battlefield && !g.has_keyword(
            ids[0],
            Keyword::Indestructible,
        ) {
            if n > 1 {
                assert(g.went(p, ids[0], Zone::Graveyard));
                assert(p.obj(ids[0]).zone is Graveyard);
                assert(h.obj(ids[0]) == p.obj(ids[0]));
            }
        }
    }
}

/// Destroying puts permanents that are referred to into their owners'
/// graveyards. What is not referred to, what is no permanent and what is
/// indestructible by itself stays as it is; the first permanent referred to
/// goes unless it is indestructible.
pub proof fn law_permanents_are_destroyed(
    g: GameModel,
    ctx: CtxModel,
    target: Ref,
    id: ObjectId,
    s: Seat,
)
    requires
        g.sound(),
        g.has_obj(id),
        g.has_seat(s),
    ensures
        ({
            let h = g.apply_effect(ctx, Effect::Destroy { target });
            let ids = g.objects_of(target, ctx);
            &&& g.untouched(h, id) || (g.went(h, id, Zone::Graveyard) && ids.contains(id) && g.obj(
                id,
            ).zone is Battlefield)
            &&& g.has_def(id) && g.def(id).keywords.contains(Keyword::Indestructible)
                ==> g.untouched(h, id)
            &&& ids.len() > 0 && ids[0] == id && g.obj(id).zone is Battlefield && !g.has_keyword(
                id,
                Keyword::Indestructible,
            ) ==> g.went(h, id, Zone::Graveyard)
            &&& ids == seq![id] && g.has_keyword(id, Keyword::Indestructible) ==> g.untouched(h, id)
            &&& h.filed(id, s)
        }),
{
    reveal(GameModel::apply_effect);
    let ids = g.objects_of(target, ctx);
    let h = g.destroy_each(ids, ids.len());
    lemma_destroy_each(g, ids, ids.len());
    lemma_named(ids, id);
    law_cards_are_where_they_say(h, id, s);
    let after = h.obj(id);
    if ids == seq![id] {
        reveal_with_fuel(GameModel::destroy_each, 2);
        assert(ids[0] == id);
    }
}

} // verus!
