//! What a view of the game tells, told by the game itself.
use crate::state::{GameModel, StackModel};
use crate::types::{Keyword, ObjectId, Seat, Zone};
use crate::action::ActionModel;
use crate::view::{usable, HandSeen};
use vstd::prelude::*;

verus! {

/// What lies on the battlefield, in a graveyard, in exile, in the command zone
/// or on the stack is for everybody to see; hands and libraries are not.
pub proof fn law_which_zones_are_public()
    ensures
        Zone::Battlefield.public(),
        Zone::Graveyard.public(),
        Zone::Exile.public(),
        Zone::Stack.public(),
        Zone::Command.public(),
        !Zone::Hand.public(),
        !Zone::Library.public(),
        !Zone::OutOfGame.public(),
{
}

/// A view tells whose turn it is and how far it has come, who must act and how
/// the game ended, and of every player what everybody may know, as it is.
pub proof fn law_views_tell_of_the_table(g: GameModel, viewer: Option<Seat>, s: Seat)
    requires
        g.has_seat(s),
    ensures
        ({
            let v = g.seen(viewer);
            let p = g.player(s);
            let w = v.players[s.0 as int];
            &&& v.you == viewer
            &&& v.turn == g.turn
            &&& v.active_player == g.active_player
            &&& v.phase == g.phase
            &&& v.priority == g.priority
            &&& v.outcome == g.outcome
            &&& v.players.len() == g.players.len()
            &&& w.seat == s
            &&& w.name == p.name
            &&& w.life == p.life
            &&& w.poison == p.poison
            &&& w.eliminated <==> p.eliminated is Some
            &&& w.graveyard == p.graveyard
            &&& w.battlefield == p.battlefield
            &&& w.exile == p.exile
            &&& w.lands_played_this_turn == p.lands_played_this_turn
            &&& viewer == Some(s) ==> w.hand == HandSeen::Yours(p.hand) && w.mana_pool == Some(
                p.mana_pool,
            )
            &&& viewer != Some(s) ==> w.mana_pool is None && !(w.hand is Yours)
            &&& p.hand.len() <= 255 ==> w.hand.size() == p.hand.len()
            &&& p.library.len() <= u16::MAX ==> w.library.count == p.library.len()
        }),
{
}

/// The stack is shown whole, in order.
pub proof fn law_views_show_the_stack(g: GameModel, viewer: Option<Seat>, i: int)
    requires
        0 <= i < g.stack.len(),
    ensures
        ({
            let v = g.seen(viewer).stack;
            let e: StackModel = g.stack[i];
            &&& v.len() == g.stack.len()
            &&& v[i].object == e.object
            &&& v[i].controller == e.controller
            &&& v[i].targets == e.targets
            &&& v[i].modes == e.modes
            &&& v[i].x == e.x
            &&& g.has_def(e.object) ==> v[i].name == g.def(e.object).name
        }),
{
}

proof fn lemma_entry(
    g: GameModel,
    viewer: Option<Seat>,
    acts: Seq<ActionModel>,
    n: nat,
    i: int,
) -> (j: int)
    requires
        n <= g.objects.len(),
        0 <= i < g.objects_seen(viewer, acts, n).len(),
    ensures
        0 <= j < n,
        g.visible(g.objects[j], viewer),
        g.objects_seen(viewer, acts, n)[i] == g.object_seen(
            g.objects[j],
            ObjectId((j + 1) as u32),
            acts,
        ),
    decreases n,
{
    let rest = g.objects_seen(viewer, acts, (n - 1) as nat);
    if i < rest.len() {
        lemma_entry(g, viewer, acts, (n - 1) as nat, i)
    } else {
        n - 1
    }
}

/// What a view tells of a card is so: what is printed on it, where it is, whose
/// it is, and on the battlefield what has become of it. It is marked as usable
/// if and only if the viewer may play, cast or activate it right now.
pub proof fn law_views_tell_of_cards(g: GameModel, viewer: Option<Seat>, i: int)
    requires
        g.objects.len() <= u32::MAX,
        0 <= i < g.seen(viewer).objects.len(),
    ensures
        ({
            let w = g.seen(viewer).objects[i];
            let o = g.obj(w.id);
            let def = g.def(w.id);
            &&& g.has_def(w.id)
            &&& w.card == o.card
            &&& w.name == def.name
            &&& w.cost == def.cost
            &&& w.types == def.types
            &&& w.text == def.text
            &&& w.token == def.token
            &&& w.owner == o.owner
            &&& w.controller == o.controller
            &&& w.zone == o.zone
            &&& w.tapped == o.tapped
            &&& w.summoning_sick == o.summoning_sick
            &&& w.damage == o.damage
            &&& w.attacking == o.attacking
            &&& w.blocking == o.blocking
            &&& w.attached_to == o.attached_to
            &&& w.counters == o.counters.plus1 - o.counters.minus1
            &&& w.pt == g.pt(w.id)
            &&& w.castable <==> (viewer is Some && usable(g.legal(viewer->0), w.id))
        }),
{
    let acts = g.viewer_actions(viewer);
    let j = lemma_entry(g, viewer, acts, g.objects.len(), i);
    reveal(GameModel::object_seen);
    reveal(GameModel::viewer_actions);
    let id = ObjectId((j + 1) as u32);
    assert(g.obj(id) == g.objects[j]);
}

proof fn lemma_keywords_n(g: GameModel, id: ObjectId, n: nat, k: Keyword)
    requires
        n <= Keyword::every().len(),
    ensures
        g.keywords_n(id, n).contains(k) <==> g.has_keyword(id, k) && exists|i: int|
            0 <= i < n && #[trigger] Keyword::every()[i] == k,
    decreases n,
{
    let all = Keyword::every();
    if n > 0 {
        lemma_keywords_n(g, id, (n - 1) as nat, k);
        let rest = g.keywords_n(id, (n - 1) as nat);
        let now = g.keywords_n(id, n);
        if now.contains(k) {
            let j = choose|j: int| 0 <= j < now.len() && now[j] == k;
            if j < rest.len() {
                assert(rest[j] == k);
                let i = choose|i: int| 0 <= i < n - 1 && #[trigger] all[i] == k;
                assert(0 <= i < n && all[i] == k);
            } else {
                assert(all[n - 1] == k);
            }
        }
        if g.has_keyword(id, k) && exists|i: int| 0 <= i < n && #[trigger] all[i] == k {
            let i = choose|i: int| 0 <= i < n && #[trigger] all[i] == k;
            if i < n - 1 {
                assert(rest.contains(k));
                let j = choose|j: int| 0 <= j < rest.len() && rest[j] == k;
                assert(now[j] == k);
            } else {
                assert(now[rest.len() as int] == k);
            }
        }
    }
}

/// The keywords shown of a permanent are all those it has.
pub proof fn law_all_keywords_are_shown(g: GameModel, id: ObjectId, k: Keyword)
    ensures
        g.keywords_of(id).contains(k) <==> g.has_keyword(id, k),
{
    let all = Keyword::every();
    lemma_keywords_n(g, id, all.len(), k);
    assert(exists|i: int| 0 <= i < all.len() && #[trigger] all[i] == k) by {
        lemma_every(k);
    }
}

proof fn lemma_every(k: Keyword)
    ensures
        exists|i: int| 0 <= i < Keyword::every().len() && #[trigger] Keyword::every()[i] == k,
{
    let all = Keyword::every();
    assert(all[0] == Keyword::Flying);
    assert(all[1] == Keyword::Reach);
    assert(all[2] == Keyword::FirstStrike);
    assert(all[3] == Keyword::DoubleStrike);
    assert(all[4] == Keyword::Deathtouch);
    assert(all[5] == Keyword::Lifelink);
    assert(all[6] == Keyword::Indestructible);
    assert(all[7] == Keyword::Trample);
    assert(all[8] == Keyword::Vigilance);
    assert(all[9] == Keyword::Haste);
    assert(all[10] == Keyword::Menace);
    assert(all[11] == Keyword::Flash);
    assert(all[12] == Keyword::Hexproof);
    assert(all[13] == Keyword::Defender);
    assert(all[14] == Keyword::Prowess);
}

} // verus!
