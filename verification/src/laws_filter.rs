//! What filters, references, amounts and conditions mean: laws on what they
//! pick out, in terms of the cards and objects themselves.
use crate::action::Target;
use crate::filter::{admits_objects, admits_players, any_in_zone, objects_in, players_in, zone_of};
use crate::ir::{Amount, Bind, Condition, Filter, PlayerRef, Ref};
use crate::sound::lemma_without;
use crate::state::{binding_at, BindingModel, CtxModel, GameModel, ModifierKind};
use crate::types::{CardType, Color, Keyword, ObjectId, Seat, Zone};
use crate::words::eq_fold;
use std::sync::Arc;
use vstd::prelude::*;

verus! {

// ----- cards -----

/// A type filter picks out the cards with that type in their type line, a
/// colour filter those of the colour, and a subtype filter those with the
/// subtype, whatever its letter case.
pub proof fn law_filters_read_the_card(
    g: GameModel,
    id: ObjectId,
    ctx: CtxModel,
    c: Color,
    subtype: String,
)
    requires
        g.has_def(id),
    ensures
        g.object_matches(id, Filter::Creature, ctx) <==> g.def(id).types.contains(
            CardType::Creature,
        ),
        g.object_matches(id, Filter::Land, ctx) <==> g.def(id).types.contains(CardType::Land),
        g.object_matches(id, Filter::Artifact, ctx) <==> g.def(id).types.contains(
            CardType::Artifact,
        ),
        g.object_matches(id, Filter::Enchantment, ctx) <==> g.def(id).types.contains(
            CardType::Enchantment,
        ),
        g.object_matches(id, Filter::Instant, ctx) <==> g.def(id).types.contains(
            CardType::Instant,
        ),
        g.object_matches(id, Filter::Sorcery, ctx) <==> g.def(id).types.contains(
            CardType::Sorcery,
        ),
        g.object_matches(id, Filter::Token, ctx) <==> g.def(id).token,
        g.object_matches(id, Filter::Color(c), ctx) <==> g.def(id).colors.contains(c),
        g.object_matches(id, Filter::Subtype(subtype), ctx) <==> exists|i: int|
            0 <= i < g.def(id).subtypes.len() && eq_fold(
                #[trigger] g.def(id).subtypes[i]@,
                subtype@,
            ),
        g.object_matches(id, Filter::Any, ctx) <==> g.obj(id).zone is Battlefield && (g.def(
            id,
        ).types.contains(CardType::Creature) || g.def(id).types.contains(CardType::Planeswalker)),
{
}

/// "Mana value at most" compares what the card's symbols come to, `{X}` being
/// nothing; a looser bound lets in whatever a tighter one does.
pub proof fn law_mana_value_is_compared(
    g: GameModel,
    id: ObjectId,
    ctx: CtxModel,
    n: i32,
    more: i32,
)
    requires
        g.has_def(id),
        n <= more,
    ensures
        ({
            let c = g.def(id).cost;
            g.object_matches(id, Filter::ManaValueAtMost(n), ctx) <==> c.generic + c.white + c.blue
                + c.black + c.red + c.green <= n
        }),
        g.object_matches(id, Filter::ManaValueAtMost(n), ctx) ==> g.object_matches(
            id,
            Filter::ManaValueAtMost(more),
            ctx,
        ),
{
}

/// "Power at least" and "power at most" compare an object's power as it is
/// now: an object is at least and at most its own power, and the two bounds
/// go opposite ways.
pub proof fn law_power_is_compared(
    g: GameModel,
    id: ObjectId,
    ctx: CtxModel,
    n: i32,
    less: i32,
)
    requires
        g.has_def(id),
        less <= n,
    ensures
        match g.pt(id) {
            Some((p, _)) => {
                &&& g.object_matches(id, Filter::PowerAtLeast(n), ctx) <==> p >= n
                &&& g.object_matches(id, Filter::PowerAtMost(n), ctx) <==> p <= n
                &&& g.object_matches(id, Filter::PowerAtLeast(p), ctx)
                &&& g.object_matches(id, Filter::PowerAtMost(p), ctx)
                &&& g.object_matches(id, Filter::PowerAtLeast(n), ctx) || g.object_matches(
                    id,
                    Filter::PowerAtMost(n),
                    ctx,
                )
            },
            None => !g.object_matches(id, Filter::PowerAtLeast(n), ctx) && !g.object_matches(
                id,
                Filter::PowerAtMost(n),
                ctx,
            ),
        },
        g.object_matches(id, Filter::PowerAtLeast(n), ctx) ==> g.object_matches(
            id,
            Filter::PowerAtLeast(less),
            ctx,
        ),
        g.object_matches(id, Filter::PowerAtMost(less), ctx) ==> g.object_matches(
            id,
            Filter::PowerAtMost(n),
            ctx,
        ),
{
}

/// Only a card that says so has a power, and a keyword filter picks out what
/// has the keyword as it is now, which whatever has it printed does.
pub proof fn law_keywords_are_asked(g: GameModel, id: ObjectId, ctx: CtxModel, k: Keyword)
    requires
        g.has_def(id),
    ensures
        g.object_matches(id, Filter::HasKeyword(k), ctx) <==> g.has_keyword(id, k),
        g.def(id).keywords.contains(k) ==> g.has_keyword(id, k),
        forall|i: int|
            0 <= i < g.obj(id).modifiers.len() && (#[trigger] g.obj(id).modifiers[i]).kind
                == ModifierKind::Keyword(k) ==> g.has_keyword(id, k),
        !(g.obj(id).zone is Battlefield) && !g.def(id).keywords.contains(k) && (forall|i: int|
            0 <= i < g.obj(id).modifiers.len() ==> (#[trigger] g.obj(id).modifiers[i]).kind
                != ModifierKind::Keyword(k)) ==> !g.has_keyword(id, k),
        g.pt(id) is Some <==> g.def(id).pt is Some,
{
}

// ----- objects -----

/// What an object is doing and where it is, is asked of the object: tapped or
/// untapped and never both, attacking or blocking while it is, on the stack,
/// and the source itself or another.
pub proof fn law_filters_look_at_the_object(g: GameModel, id: ObjectId, ctx: CtxModel)
    requires
        g.has_def(id),
    ensures
        g.object_matches(id, Filter::Tapped, ctx) <==> g.obj(id).tapped,
        g.object_matches(id, Filter::Untapped, ctx) <==> !g.object_matches(id, Filter::Tapped, ctx),
        g.object_matches(id, Filter::Attacking, ctx) <==> g.obj(id).attacking is Some,
        g.object_matches(id, Filter::Blocking, ctx) <==> g.obj(id).blocking.len() > 0,
        g.object_matches(id, Filter::Spell, ctx) <==> g.obj(id).zone is Stack,
        g.obj(id).zone is Battlefield ==> g.object_matches(id, Filter::Permanent, ctx),
        g.object_matches(id, Filter::Permanent, ctx) ==> g.obj(id).zone is Battlefield || g.obj(
            id,
        ).zone is Graveyard,
        g.obj(id).zone is Graveyard && g.def(id).types.contains(CardType::Creature)
            ==> g.object_matches(id, Filter::Permanent, ctx),
        g.obj(id).zone is Graveyard && g.def(id).types.contains(CardType::Land)
            ==> g.object_matches(id, Filter::Permanent, ctx),
        g.obj(id).zone is Graveyard && g.def(id).types.contains(CardType::Artifact)
            ==> g.object_matches(id, Filter::Permanent, ctx),
        g.obj(id).zone is Graveyard && g.def(id).types.contains(CardType::Enchantment)
            ==> g.object_matches(id, Filter::Permanent, ctx),
        g.obj(id).zone is Graveyard && g.def(id).types == seq![CardType::Instant]
            ==> !g.object_matches(id, Filter::Permanent, ctx),
        g.obj(id).zone is Graveyard && g.def(id).types == seq![CardType::Sorcery]
            ==> !g.object_matches(id, Filter::Permanent, ctx),
        g.object_matches(id, Filter::This, ctx) <==> ctx.this == Some(id),
        g.object_matches(id, Filter::Other, ctx) <==> !g.object_matches(id, Filter::This, ctx),
        !g.object_matches(id, Filter::Player, ctx),
        !g.object_matches(id, Filter::Opponent, ctx),
{
    let t = g.def(id).types;
    assert forall|ty: CardType| #[trigger] t.contains(ty) && ty.permanent() implies g.def(
        id,
    ).permanent() by {
        let i = choose|i: int| 0 <= i < t.len() && t[i] == ty;
        assert(t[i].permanent());
    }
}

/// "Enchanted" and "equipped" name what the source is attached to, and
/// nothing while it is attached to nothing.
pub proof fn law_attached_names_the_bearer(
    g: GameModel,
    id: ObjectId,
    source: ObjectId,
    ctx: CtxModel,
)
    requires
        g.has_def(id),
        g.has_obj(source),
        ctx.this == Some(source),
    ensures
        g.object_matches(id, Filter::Attached, ctx) <==> g.obj(source).attached_to == Some(id),
        g.obj(source).attached_to is None ==> g.objects_of(Ref::Attached, ctx).len() == 0,
        g.obj(source).attached_to matches Some(t) ==> g.objects_of(Ref::Attached, ctx) == seq![t],
{
}

/// "You control" and "in your graveyard" ask for the controller of what is
/// anywhere, and for the owner of what is in a graveyard.
pub proof fn law_whose_it_is(g: GameModel, id: ObjectId, ctx: CtxModel, p: PlayerRef)
    requires
        g.has_def(id),
    ensures
        g.object_matches(id, Filter::ControlledBy(p), ctx) <==> g.players_of(p, ctx).contains(
            g.obj(id).controller,
        ),
        g.object_matches(id, Filter::InGraveyard(p), ctx) <==> g.obj(id).zone is Graveyard
            && g.players_of(p, ctx).contains(g.obj(id).owner),
        g.object_matches(id, Filter::ControlledBy(PlayerRef::You), ctx) <==> g.obj(id).controller
            == ctx.you,
        g.object_matches(id, Filter::InGraveyard(PlayerRef::You), ctx) <==> g.obj(
            id,
        ).zone is Graveyard && g.obj(id).owner == ctx.you,
{
    let yours = g.players_of(PlayerRef::You, ctx);
    assert(yours == seq![ctx.you]);
    assert forall|s: Seat| yours.contains(s) <==> s == ctx.you by {
        assert(yours[0] == ctx.you);
    }
    assert(g.object_matches(id, Filter::ControlledBy(PlayerRef::You), ctx) == yours.contains(
        g.obj(id).controller,
    ));
    assert(g.object_matches(id, Filter::InGraveyard(PlayerRef::You), ctx) == (g.obj(
        id,
    ).zone is Graveyard && yours.contains(g.obj(id).owner)));
}

proof fn lemma_all_match(
    g: GameModel,
    d: nat,
    id: ObjectId,
    fs: Seq<Filter>,
    ctx: CtxModel,
    n: nat,
)
    requires
        n <= fs.len(),
    ensures
        g.all_match(d, id, fs, ctx, n) <==> forall|i: int|
            0 <= i < n ==> g.matches(d, id, #[trigger] fs[i], ctx),
        g.any_match(d, id, fs, ctx, n) <==> exists|i: int|
            0 <= i < n && g.matches(d, id, #[trigger] fs[i], ctx),
    decreases n,
{
    if n > 0 {
        lemma_all_match(g, d, id, fs, ctx, (n - 1) as nat);
        if g.any_match(d, id, fs, ctx, n) {
            if g.matches(d, id, fs[n - 1], ctx) {
            } else {
                let i = choose|i: int| 0 <= i < n - 1 && g.matches(d, id, #[trigger] fs[i], ctx);
                assert(g.matches(d, id, fs[i], ctx));
            }
        }
    }
}

/// "And" asks for everything, "or" for something, "not" for the opposite, and
/// a count of targets for what it counts. What is no card matches nothing.
pub proof fn law_filters_combine(
    g: GameModel,
    id: ObjectId,
    ctx: CtxModel,
    fs: Arc<Vec<Filter>>,
    f: Arc<Filter>,
    q: crate::ir::Quantity,
    any: Filter,
)
    ensures
        g.has_def(id) ==> {
            &&& g.object_matches(id, Filter::And(fs), ctx) <==> forall|i: int|
                0 <= i < fs@.len() ==> g.object_matches(id, #[trigger] fs@[i], ctx)
            &&& g.object_matches(id, Filter::Or(fs), ctx) <==> exists|i: int|
                0 <= i < fs@.len() && g.object_matches(id, #[trigger] fs@[i], ctx)
            &&& g.object_matches(id, Filter::Not(f), ctx) <==> !g.object_matches(id, *f, ctx)
            &&& g.object_matches(id, Filter::Targets(q, f), ctx) <==> g.object_matches(id, *f, ctx)
        },
        !g.has_def(id) ==> !g.object_matches(id, any, ctx),
{
    let d = g.depth() + 1;
    lemma_all_match(g, d, id, fs@, ctx, fs@.len());
    if g.has_def(id) {
        assert(g.object_matches(id, Filter::And(fs), ctx) == g.all_match(
            d,
            id,
            fs@,
            ctx,
            fs@.len(),
        ));
        assert(g.object_matches(id, Filter::Or(fs), ctx) == g.any_match(d, id, fs@, ctx, fs@.len()));
        if exists|i: int| 0 <= i < fs@.len() && g.object_matches(id, #[trigger] fs@[i], ctx) {
            let i = choose|i: int|
                0 <= i < fs@.len() && g.object_matches(id, #[trigger] fs@[i], ctx);
            assert(g.matches(d, id, fs@[i], ctx));
        }
        if g.any_match(d, id, fs@, ctx, fs@.len()) {
            let i = choose|i: int|
                0 <= i < fs@.len() && g.matches(d, id, #[trigger] fs@[i], ctx);
            assert(g.object_matches(id, fs@[i], ctx));
        }
        if forall|i: int| 0 <= i < fs@.len() ==> g.object_matches(id, #[trigger] fs@[i], ctx) {
            assert forall|i: int| 0 <= i < fs@.len() implies g.matches(
                d,
                id,
                #[trigger] fs@[i],
                ctx,
            ) by {
                assert(g.object_matches(id, fs@[i], ctx));
            }
        }
        if g.all_match(d, id, fs@, ctx, fs@.len()) {
            assert forall|i: int| 0 <= i < fs@.len() implies g.object_matches(
                id,
                #[trigger] fs@[i],
                ctx,
            ) by {
                assert(g.matches(d, id, fs@[i], ctx));
            }
        }
    }
}

// ----- spells being cast -----

/// A card being cast is a spell wherever it is; of everything else about it a
/// spell filter asks what any filter would.
pub proof fn law_spells_are_asked_like_cards(
    g: GameModel,
    id: ObjectId,
    ctx: CtxModel,
    f: Arc<Filter>,
)
    ensures
        g.spell_matches(id, Filter::Spell, ctx),
        g.spell_matches(id, Filter::Not(f), ctx) <==> !g.spell_matches(id, *f, ctx),
        g.spell_matches(id, Filter::Creature, ctx) <==> g.object_matches(id, Filter::Creature, ctx),
        g.spell_matches(id, Filter::Instant, ctx) <==> g.object_matches(id, Filter::Instant, ctx),
        g.spell_matches(id, Filter::Sorcery, ctx) <==> g.object_matches(id, Filter::Sorcery, ctx),
        g.spell_matches(id, Filter::Artifact, ctx) <==> g.object_matches(id, Filter::Artifact, ctx),
        g.spell_matches(id, Filter::Enchantment, ctx) <==> g.object_matches(
            id,
            Filter::Enchantment,
            ctx,
        ),
        g.spell_matches(id, Filter::Other, ctx) <==> g.object_matches(id, Filter::Other, ctx),
        !(*f is Targets) && !(*f is Spell) && !(*f is And) && !(*f is Or) && !(*f is Not)
            ==> g.spell_matches(id, *f, ctx) == g.object_matches(id, *f, ctx),
{
}

proof fn lemma_spell_lists(g: GameModel, id: ObjectId, fs: Seq<Filter>, ctx: CtxModel, n: nat)
    requires
        n <= fs.len(),
    ensures
        g.all_spell_match(id, fs, ctx, n) <==> forall|i: int|
            0 <= i < n ==> g.spell_matches(id, #[trigger] fs[i], ctx),
        g.any_spell_match(id, fs, ctx, n) <==> exists|i: int|
            0 <= i < n && g.spell_matches(id, #[trigger] fs[i], ctx),
    decreases n,
{
    if n > 0 {
        lemma_spell_lists(g, id, fs, ctx, (n - 1) as nat);
        if g.any_spell_match(id, fs, ctx, n) && !g.spell_matches(id, fs[n - 1], ctx) {
            let i = choose|i: int| 0 <= i < n - 1 && g.spell_matches(id, #[trigger] fs[i], ctx);
            assert(g.spell_matches(id, fs[i], ctx));
        }
    }
}

/// A spell filter combines like any other.
pub proof fn law_spell_filters_combine(
    g: GameModel,
    id: ObjectId,
    ctx: CtxModel,
    fs: Arc<Vec<Filter>>,
)
    ensures
        g.spell_matches(id, Filter::And(fs), ctx) <==> forall|i: int|
            0 <= i < fs@.len() ==> g.spell_matches(id, #[trigger] fs@[i], ctx),
        g.spell_matches(id, Filter::Or(fs), ctx) <==> exists|i: int|
            0 <= i < fs@.len() && g.spell_matches(id, #[trigger] fs@[i], ctx),
{
    lemma_spell_lists(g, id, fs@, ctx, fs@.len());
}

// ----- players -----

/// A player filter picks out players who are in the game: any of them, or any
/// but oneself for "opponent". What asks about objects picks out none.
pub proof fn law_player_filters(g: GameModel, seat: Seat, ctx: CtxModel, p: PlayerRef, f: Arc<Filter>)
    ensures
        g.player_matches(seat, Filter::Player, ctx) <==> g.turn_order.contains(seat),
        g.player_matches(seat, Filter::Any, ctx) <==> g.turn_order.contains(seat),
        g.player_matches(seat, Filter::Opponent, ctx) <==> g.turn_order.contains(seat) && seat
            != ctx.you,
        g.player_matches(seat, Filter::ControlledBy(p), ctx) <==> g.turn_order.contains(seat)
            && g.players_of(p, ctx).contains(seat),
        g.player_matches(seat, Filter::Not(f), ctx) <==> g.turn_order.contains(seat)
            && !g.player_matches(seat, *f, ctx),
        !g.player_matches(seat, Filter::Creature, ctx),
        !g.player_matches(seat, Filter::Permanent, ctx),
        !g.player_matches(seat, Filter::Spell, ctx),
        !g.turn_order.contains(seat) ==> !g.player_matches(seat, *f, ctx),
{
}

proof fn lemma_player_lists(g: GameModel, seat: Seat, fs: Seq<Filter>, ctx: CtxModel, n: nat)
    requires
        n <= fs.len(),
    ensures
        g.all_players_match(seat, fs, ctx, n) <==> forall|i: int|
            0 <= i < n ==> g.player_matches(seat, #[trigger] fs[i], ctx),
        g.any_player_matches(seat, fs, ctx, n) <==> exists|i: int|
            0 <= i < n && g.player_matches(seat, #[trigger] fs[i], ctx),
    decreases n,
{
    if n > 0 {
        lemma_player_lists(g, seat, fs, ctx, (n - 1) as nat);
        if g.any_player_matches(seat, fs, ctx, n) && !g.player_matches(seat, fs[n - 1], ctx) {
            let i = choose|i: int| 0 <= i < n - 1 && g.player_matches(seat, #[trigger] fs[i], ctx);
            assert(g.player_matches(seat, fs[i], ctx));
        }
    }
}

/// A player filter combines like any other.
pub proof fn law_player_filters_combine(
    g: GameModel,
    seat: Seat,
    ctx: CtxModel,
    fs: Arc<Vec<Filter>>,
)
    requires
        g.turn_order.contains(seat),
    ensures
        g.player_matches(seat, Filter::And(fs), ctx) <==> forall|i: int|
            0 <= i < fs@.len() ==> g.player_matches(seat, #[trigger] fs@[i], ctx),
        g.player_matches(seat, Filter::Or(fs), ctx) <==> exists|i: int|
            0 <= i < fs@.len() && g.player_matches(seat, #[trigger] fs@[i], ctx),
{
    lemma_player_lists(g, seat, fs@, ctx, fs@.len());
}

/// "You" is you, "each player" everyone in the game, "each opponent" everyone
/// in the game but you, once each.
pub proof fn law_players_meant(g: GameModel, ctx: CtxModel, s: Seat)
    requires
        ctx.chooser is None,
        g.sound(),
    ensures
        g.players_of(PlayerRef::You, ctx) == seq![ctx.you],
        g.players_of(PlayerRef::EachPlayer, ctx).contains(s) <==> g.turn_order.contains(s),
        g.players_of(PlayerRef::EachOpponent, ctx).contains(s) <==> g.turn_order.contains(s) && s
            != ctx.you,
        g.players_of(PlayerRef::EachPlayer, ctx) == g.turn_order,
        g.turn_order.no_duplicates() ==> g.players_of(
            PlayerRef::EachOpponent,
            ctx,
        ).no_duplicates(),
{
    lemma_without(g.turn_order, ctx.you);
}

/// Inside an effect that makes each player choose, "each player" and "each
/// opponent" are the one who is choosing.
pub proof fn law_the_chooser_is_meant(g: GameModel, ctx: CtxModel, s: Seat)
    requires
        ctx.chooser == Some(s),
    ensures
        g.players_of(PlayerRef::EachPlayer, ctx) == seq![s],
        g.players_of(PlayerRef::EachOpponent, ctx) == seq![s],
        g.players_of(PlayerRef::You, ctx) == seq![ctx.you],
{
}

proof fn lemma_among_targets(ts: Seq<Target>, n: nat)
    requires
        n <= ts.len(),
    ensures
        forall|s: Seat| #[trigger]
            players_in(ts, n).contains(s) <==> exists|i: int|
                0 <= i < n && #[trigger] ts[i] == Target::Player(s),
        forall|id: ObjectId| #[trigger]
            objects_in(ts, n).contains(id) <==> exists|i: int|
                0 <= i < n && #[trigger] ts[i] == Target::Object(id),
    decreases n,
{
    if n > 0 {
        lemma_among_targets(ts, (n - 1) as nat);
        let ps = players_in(ts, (n - 1) as nat);
        let os = objects_in(ts, (n - 1) as nat);
        assert forall|s: Seat| #[trigger] players_in(ts, n).contains(s) <==> exists|i: int|
            0 <= i < n && #[trigger] ts[i] == Target::Player(s) by {
            if players_in(ts, n).contains(s) {
                let j = choose|j: int| 0 <= j < players_in(ts, n).len() && players_in(ts, n)[j] == s;
                if j < ps.len() {
                    assert(ps[j] == s);
                    assert(ps.contains(s));
                    let i = choose|i: int| 0 <= i < n - 1 && #[trigger] ts[i] == Target::Player(s);
                    assert(ts[i] == Target::Player(s));
                } else {
                    assert(ts[n - 1] == Target::Player(s));
                }
            }
            if exists|i: int| 0 <= i < n && #[trigger] ts[i] == Target::Player(s) {
                let i = choose|i: int| 0 <= i < n && #[trigger] ts[i] == Target::Player(s);
                if i < n - 1 {
                    assert(ps.contains(s));
                    let j = choose|j: int| 0 <= j < ps.len() && ps[j] == s;
                    assert(players_in(ts, n)[j] == s);
                } else {
                    assert(players_in(ts, n)[ps.len() as int] == s);
                }
            }
        }
        assert forall|id: ObjectId| #[trigger] objects_in(ts, n).contains(id) <==> exists|i: int|
            0 <= i < n && #[trigger] ts[i] == Target::Object(id) by {
            if objects_in(ts, n).contains(id) {
                let j = choose|j: int|
                    0 <= j < objects_in(ts, n).len() && objects_in(ts, n)[j] == id;
                if j < os.len() {
                    assert(os[j] == id);
                    assert(os.contains(id));
                    let i = choose|i: int| 0 <= i < n - 1 && #[trigger] ts[i] == Target::Object(id);
                    assert(ts[i] == Target::Object(id));
                } else {
                    assert(ts[n - 1] == Target::Object(id));
                }
            }
            if exists|i: int| 0 <= i < n && #[trigger] ts[i] == Target::Object(id) {
                let i = choose|i: int| 0 <= i < n && #[trigger] ts[i] == Target::Object(id);
                if i < n - 1 {
                    assert(os.contains(id));
                    let j = choose|j: int| 0 <= j < os.len() && os[j] == id;
                    assert(objects_in(ts, n)[j] == id);
                } else {
                    assert(objects_in(ts, n)[os.len() as int] == id);
                }
            }
        }
    }
}

/// A target word means what was picked for it: the players of that pick for a
/// player, the objects of it for an object, and nothing if there is no such
/// word.
pub proof fn law_targets_meant(g: GameModel, ctx: CtxModel, i: u8, s: Seat, id: ObjectId)
    ensures
        i < ctx.targets.len() ==> {
            let ts = ctx.targets[i as int];
            &&& g.refs_of(Ref::Target(i), ctx) == ts
            &&& g.objects_of(Ref::Target(i), ctx).contains(id) <==> ts.contains(Target::Object(id))
            &&& g.players_of(PlayerRef::TargetPlayer(i), ctx).contains(s) <==> ts.contains(
                Target::Player(s),
            )
            &&& g.players_of(PlayerRef::TargetOpponent(i), ctx).contains(s) <==> ts.contains(
                Target::Player(s),
            )
        },
        i >= ctx.targets.len() ==> g.refs_of(Ref::Target(i), ctx).len() == 0 && g.objects_of(
            Ref::Target(i),
            ctx,
        ).len() == 0 && g.players_of(PlayerRef::TargetPlayer(i), ctx).len() == 0,
{
    if i < ctx.targets.len() {
        let ts = ctx.targets[i as int];
        lemma_among_targets(ts, ts.len());
        if ts.contains(Target::Object(id)) {
            let k = choose|k: int| 0 <= k < ts.len() && ts[k] == Target::Object(id);
            assert(ts[k] == Target::Object(id));
        }
        if ts.contains(Target::Player(s)) {
            let k = choose|k: int| 0 <= k < ts.len() && ts[k] == Target::Player(s);
            assert(ts[k] == Target::Player(s));
        }
    }
}

/// "This" is the source, the triggering thing is what caused the trigger, and
/// its player the player, or the controller of the object.
pub proof fn law_source_and_cause_meant(g: GameModel, ctx: CtxModel, id: ObjectId, s: Seat)
    ensures
        ctx.this == Some(id) ==> g.objects_of(Ref::This, ctx) == seq![id] && g.refs_of(
            Ref::This,
            ctx,
        ) == seq![Target::Object(id)],
        ctx.this is None ==> g.objects_of(Ref::This, ctx).len() == 0,
        ctx.triggering == Some(Target::Object(id)) ==> g.objects_of(Ref::Triggering, ctx)
            == seq![id] && (g.has_obj(id) ==> g.players_of(PlayerRef::Triggering, ctx) == seq![
            g.obj(id).controller,
        ]),
        ctx.triggering == Some(Target::Player(s)) ==> g.objects_of(Ref::Triggering, ctx).len() == 0
            && g.players_of(PlayerRef::Triggering, ctx) == seq![s] && g.refs_of(
            Ref::Triggering,
            ctx,
        ) == seq![Target::Player(s)],
        g.refs_of(Ref::Player(PlayerRef::You), ctx) == seq![Target::Player(ctx.you)],
{
    assert(g.refs_of(Ref::Player(PlayerRef::You), ctx) =~= seq![Target::Player(ctx.you)]);
    if ctx.this == Some(id) {
        assert(g.refs_of(Ref::This, ctx) =~= seq![Target::Object(id)]);
    }
}

/// The controller and the owner of the source are those of the object.
pub proof fn law_controller_and_owner_meant(g: GameModel, ctx: CtxModel, id: ObjectId, r: Arc<Ref>)
    requires
        *r == Ref::This,
        ctx.this == Some(id),
        g.has_obj(id),
    ensures
        g.players_of(PlayerRef::Controller(r), ctx) == seq![g.obj(id).controller],
        g.players_of(PlayerRef::Owner(r), ctx) == seq![g.obj(id).owner],
{
    let ids = seq![id];
    reveal_with_fuel(GameModel::controllers, 2);
    reveal_with_fuel(GameModel::owners, 2);
    assert(ids[0] == id);
    assert(g.controllers(ids, 1) =~= seq![g.obj(id).controller]);
    assert(g.owners(ids, 1) =~= seq![g.obj(id).owner]);
}

/// A named pick is whatever was last picked under the name.
pub proof fn law_named_picks_are_remembered(
    g: GameModel,
    ctx: CtxModel,
    name: Bind,
    other: Bind,
    picks: Seq<Target>,
)
    requires
        name != other,
    ensures
        g.refs_of(Ref::Named(name), ctx.binding(name, picks)) == picks,
        g.refs_of(Ref::Named(other), ctx.binding(name, picks)) == g.refs_of(
            Ref::Named(other),
            ctx,
        ),
{
    let was = ctx.bindings;
    let now = ctx.binding(name, picks).bindings;
    lemma_first_binding(was, name, 0);
    lemma_first_binding(was, other, 0);
    let k: nat = match binding_at(was, name, 0) {
        Some(k) => k,
        None => was.len(),
    };
    lemma_is_binding(now, name, k, 0);
    match binding_at(was, other, 0) {
        Some(m) => {
            lemma_is_binding(now, other, m, 0);
        },
        None => {
            lemma_first_binding(now, other, 0);
            if let Some(m) = binding_at(now, other, 0) {
                assert(now[m as int].name == other);
                assert(now[m as int] == was[m as int]);
            }
        },
    }
}

proof fn lemma_is_binding(bs: Seq<BindingModel>, name: Bind, k: nat, i: nat)
    requires
        i <= k < bs.len(),
        bs[k as int].name == name,
        forall|j: int| i <= j < k ==> (#[trigger] bs[j]).name != name,
    ensures
        binding_at(bs, name, i) == Some(k),
    decreases k - i,
{
    if i < k {
        lemma_is_binding(bs, name, k, i + 1);
    }
}

proof fn lemma_first_binding(bs: Seq<BindingModel>, name: Bind, i: nat)
    ensures
        binding_at(bs, name, i) matches Some(k) ==> i <= k < bs.len()
            && bs[k as int].name == name && forall|j: int| i <= j < k ==> (#[trigger] bs[j]).name
            != name,
        binding_at(bs, name, i) is None ==> forall|j: int|
            i <= j < bs.len() ==> (#[trigger] bs[j]).name != name,
    decreases bs.len() - i,
{
    if i < bs.len() {
        lemma_first_binding(bs, name, i + 1);
    }
}


// ----- what is picked out -----

/// The ids of a zone are those of the objects in it, in order.
pub proof fn lemma_zone_ids(g: GameModel, zone: Zone, n: nat)
    requires
        n <= g.objects.len() <= u32::MAX,
    ensures
        forall|id: ObjectId| #[trigger]
            g.zone_ids(zone, n).contains(id) <==> 1 <= id.0 <= n && g.obj(id).zone == zone,
        g.zone_ids(zone, n).no_duplicates(),
    decreases n,
{
    if n > 0 {
        lemma_zone_ids(g, zone, (n - 1) as nat);
        let rest = g.zone_ids(zone, (n - 1) as nat);
        let all = g.zone_ids(zone, n);
        let last = ObjectId(n as u32);
        assert(!rest.contains(last));
        assert forall|id: ObjectId| #[trigger] all.contains(id) <==> 1 <= id.0 <= n && g.obj(
            id,
        ).zone == zone by {
            if g.objects[n - 1].zone == zone {
                assert(all == rest.push(last));
                if all.contains(id) {
                    let k = choose|k: int| 0 <= k < all.len() && all[k] == id;
                    if k < rest.len() {
                        assert(rest[k] == id);
                        assert(rest.contains(id));
                    }
                }
                if 1 <= id.0 <= n && g.obj(id).zone == zone {
                    if id == last {
                        assert(all[rest.len() as int] == id);
                    } else {
                        assert(rest.contains(id));
                        let k = choose|k: int| 0 <= k < rest.len() && rest[k] == id;
                        assert(all[k] == id);
                    }
                }
            } else if id == last {
                assert(g.obj(id) == g.objects[n - 1]);
            }
        }
    }
}

pub proof fn lemma_matching(
    g: GameModel,
    d: nat,
    ids: Seq<ObjectId>,
    f: &Filter,
    ctx: CtxModel,
    n: nat,
)
    requires
        n <= ids.len(),
    ensures
        forall|id: ObjectId| #[trigger]
            g.matching_ids(d, ids, *f, ctx, n).contains(id) <==> g.matches(d, id, *f, ctx) && exists|
                i: int,
            |
                0 <= i < n && #[trigger] ids[i] == id,
        g.matching_ids(d, ids, *f, ctx, n).len() <= n,
        ids.no_duplicates() ==> g.matching_ids(d, ids, *f, ctx, n).no_duplicates(),
    decreases n,
{
    if n > 0 {
        lemma_matching(g, d, ids, f, ctx, (n - 1) as nat);
        let rest = g.matching_ids(d, ids, *f, ctx, (n - 1) as nat);
        let all = g.matching_ids(d, ids, *f, ctx, n);
        let last = ids[n - 1];
        assert forall|id: ObjectId| #[trigger] all.contains(id) <==> g.matches(d, id, *f, ctx)
            && exists|i: int| 0 <= i < n && #[trigger] ids[i] == id by {
            if all.contains(id) {
                let k = choose|k: int| 0 <= k < all.len() && all[k] == id;
                if k < rest.len() {
                    assert(rest[k] == id);
                    assert(rest.contains(id));
                    let i = choose|i: int| 0 <= i < n - 1 && #[trigger] ids[i] == id;
                    assert(ids[i] == id);
                } else {
                    assert(ids[n - 1] == id);
                }
            }
            if g.matches(d, id, *f, ctx) && exists|i: int| 0 <= i < n && #[trigger] ids[i] == id {
                let i = choose|i: int| 0 <= i < n && #[trigger] ids[i] == id;
                if i < n - 1 {
                    assert(rest.contains(id));
                    let k = choose|k: int| 0 <= k < rest.len() && rest[k] == id;
                    assert(all[k] == id);
                } else {
                    assert(all[rest.len() as int] == id);
                }
            }
        }
        if ids.no_duplicates() && g.matches(d, last, *f, ctx) {
            assert(!rest.contains(last));
        }
    }
}

/// "Each creature", or whatever permanents a filter asks for, is every object
/// on the battlefield that matches, once.
pub proof fn law_each_is_every_match(g: GameModel, ctx: CtxModel, f: Arc<Filter>, id: ObjectId)
    requires
        g.objects.len() <= u32::MAX,
        zone_of(*f) is Battlefield,
    ensures
        g.objects_of(Ref::Each(f), ctx).contains(id) <==> g.has_obj(id) && g.obj(
            id,
        ).zone is Battlefield && g.object_matches(id, *f, ctx),
        g.objects_of(Ref::Each(f), ctx).no_duplicates(),
{
    let d = g.depth() + 1;
    let ids = g.on_battlefield();
    lemma_zone_ids(g, Zone::Battlefield, g.objects.len());
    lemma_matching(g, d, ids, &*f, ctx, ids.len());
    let all = g.objects_of(Ref::Each(f), ctx);
    assert(all == g.matching_ids(d, ids, *f, ctx, ids.len()));
    if all.contains(id) {
        let i = choose|i: int| 0 <= i < ids.len() && #[trigger] ids[i] == id;
        assert(ids.contains(id));
    }
    if g.has_obj(id) && g.obj(id).zone is Battlefield {
        assert(ids.contains(id));
        let i = choose|i: int| 0 <= i < ids.len() && ids[i] == id;
        assert(ids[i] == id);
    }
}

/// A filter looks for spells on the stack, for cards of a graveyard there,
/// and for everything else on the battlefield.
pub proof fn law_where_filters_look(p: PlayerRef, n: i32, k: Keyword)
    ensures
        zone_of(Filter::Spell) is Stack,
        zone_of(Filter::InGraveyard(p)) is Graveyard,
        zone_of(Filter::Creature) is Battlefield,
        zone_of(Filter::Land) is Battlefield,
        zone_of(Filter::Artifact) is Battlefield,
        zone_of(Filter::Enchantment) is Battlefield,
        zone_of(Filter::Permanent) is Battlefield,
        zone_of(Filter::Any) is Battlefield,
        zone_of(Filter::Token) is Battlefield,
        zone_of(Filter::Tapped) is Battlefield,
        zone_of(Filter::Attacking) is Battlefield,
        zone_of(Filter::PowerAtLeast(n)) is Battlefield,
        zone_of(Filter::PowerAtMost(n)) is Battlefield,
        zone_of(Filter::HasKeyword(k)) is Battlefield,
        zone_of(Filter::ControlledBy(p)) is Battlefield,
{
}

proof fn lemma_any_in_zone(fs: Seq<Filter>, zone: Zone, n: nat)
    requires
        n <= fs.len(),
    ensures
        any_in_zone(fs, zone, n) <==> exists|i: int|
            0 <= i < n && zone_of(#[trigger] fs[i]) == zone,
    decreases n,
{
    if n > 0 {
        lemma_any_in_zone(fs, zone, (n - 1) as nat);
        if any_in_zone(fs, zone, n) && zone_of(fs[n - 1]) != zone {
            let i = choose|i: int| 0 <= i < n - 1 && zone_of(#[trigger] fs[i]) == zone;
            assert(zone_of(fs[i]) == zone);
        }
    }
}

/// A filter made of several looks on the stack if one of them does, else in
/// graveyards if one does, else on the battlefield.
pub proof fn law_where_combined_filters_look(fs: Arc<Vec<Filter>>)
    ensures
        zone_of(Filter::And(fs)) is Stack <==> exists|i: int|
            0 <= i < fs@.len() && zone_of(#[trigger] fs@[i]) is Stack,
        (forall|i: int| 0 <= i < fs@.len() ==> zone_of(#[trigger] fs@[i]) is Battlefield)
            ==> zone_of(Filter::And(fs)) is Battlefield,
        zone_of(Filter::And(fs)) is Graveyard ==> exists|i: int|
            0 <= i < fs@.len() && zone_of(#[trigger] fs@[i]) is Graveyard,
{
    lemma_any_in_zone(fs@, Zone::Stack, fs@.len());
    lemma_any_in_zone(fs@, Zone::Graveyard, fs@.len());
}

// ----- targets -----

proof fn lemma_object_picks(
    g: GameModel,
    ids: Seq<ObjectId>,
    f: Filter,
    ctx: CtxModel,
    targeted: bool,
    n: nat,
    t: Target,
)
    requires
        n <= ids.len(),
    ensures
        g.object_picks(ids, f, ctx, targeted, n).contains(t) <==> (t matches Target::Object(id)
            && g.object_matches(id, f, ctx) && (!targeted || g.can_target(id, ctx.you)) && exists|
            i: int,
        |
            0 <= i < n && #[trigger] ids[i] == id),
    decreases n,
{
    if n > 0 {
        lemma_object_picks(g, ids, f, ctx, targeted, (n - 1) as nat, t);
        let rest = g.object_picks(ids, f, ctx, targeted, (n - 1) as nat);
        let all = g.object_picks(ids, f, ctx, targeted, n);
        if all.contains(t) {
            let k = choose|k: int| 0 <= k < all.len() && all[k] == t;
            if k < rest.len() {
                assert(rest[k] == t);
                assert(rest.contains(t));
                let id = t->Object_0;
                let i = choose|i: int| 0 <= i < n - 1 && #[trigger] ids[i] == id;
                assert(ids[i] == id);
            } else {
                assert(t == Target::Object(ids[n - 1]));
            }
        }
        if let Target::Object(id) = t {
            if g.object_matches(id, f, ctx) && (!targeted || g.can_target(id, ctx.you)) && exists|
                i: int,
            |
                0 <= i < n && #[trigger] ids[i] == id {
                let i = choose|i: int| 0 <= i < n && #[trigger] ids[i] == id;
                if i < n - 1 {
                    assert(rest.contains(t));
                    let k = choose|k: int| 0 <= k < rest.len() && rest[k] == t;
                    assert(all[k] == t);
                } else {
                    assert(all[rest.len() as int] == t);
                }
            }
        }
    }
}

proof fn lemma_player_picks(g: GameModel, f: Filter, ctx: CtxModel, n: nat, t: Target)
    requires
        n <= g.turn_order.len(),
    ensures
        g.player_picks(f, ctx, n).contains(t) <==> (t matches Target::Player(s)
            && g.player_matches(s, f, ctx) && exists|i: int|
            0 <= i < n && #[trigger] g.turn_order[i] == s),
    decreases n,
{
    if n > 0 {
        lemma_player_picks(g, f, ctx, (n - 1) as nat, t);
        let rest = g.player_picks(f, ctx, (n - 1) as nat);
        let all = g.player_picks(f, ctx, n);
        if all.contains(t) {
            let k = choose|k: int| 0 <= k < all.len() && all[k] == t;
            if k < rest.len() {
                assert(rest[k] == t);
                assert(rest.contains(t));
                let s = t->Player_0;
                let i = choose|i: int| 0 <= i < n - 1 && #[trigger] g.turn_order[i] == s;
                assert(g.turn_order[i] == s);
            } else {
                assert(t == Target::Player(g.turn_order[n - 1]));
            }
        }
        if let Target::Player(s) = t {
            if g.player_matches(s, f, ctx) && exists|i: int|
                0 <= i < n && #[trigger] g.turn_order[i] == s {
                let i = choose|i: int| 0 <= i < n && #[trigger] g.turn_order[i] == s;
                if i < n - 1 {
                    assert(rest.contains(t));
                    let k = choose|k: int| 0 <= k < rest.len() && rest[k] == t;
                    assert(all[k] == t);
                } else {
                    assert(all[rest.len() as int] == t);
                }
            }
        }
    }
}

/// A permanent may be targeted if and only if the filter admits objects, it is
/// on the battlefield, it matches, and it is not hexproof against whoever
/// targets. For a choice that does not target, hexproof does not matter.
pub proof fn law_permanents_targeted(g: GameModel, ctx: CtxModel, f: Filter, id: ObjectId)
    requires
        g.objects.len() <= u32::MAX,
        zone_of(f) is Battlefield,
    ensures
        g.targets_for(f, ctx).contains(Target::Object(id)) <==> admits_objects(f) && g.has_obj(id)
            && g.obj(id).zone is Battlefield && g.object_matches(id, f, ctx) && (g.obj(
            id,
        ).controller == ctx.you || !g.has_keyword(id, Keyword::Hexproof)),
        g.choosable(f, ctx).contains(Target::Object(id)) <==> admits_objects(f) && g.has_obj(id)
            && g.obj(id).zone is Battlefield && g.object_matches(id, f, ctx),
{
    let ids = g.on_battlefield();
    let t = Target::Object(id);
    lemma_zone_ids(g, Zone::Battlefield, g.objects.len());
    lemma_object_picks(g, ids, f, ctx, true, ids.len(), t);
    lemma_object_picks(g, ids, f, ctx, false, ids.len(), t);
    lemma_player_picks(g, f, ctx, g.turn_order.len(), t);
    if ids.contains(id) {
        let i = choose|i: int| 0 <= i < ids.len() && ids[i] == id;
        assert(ids[i] == id);
    }
    if exists|i: int| 0 <= i < ids.len() && #[trigger] ids[i] == id {
        let i = choose|i: int| 0 <= i < ids.len() && #[trigger] ids[i] == id;
        assert(ids.contains(ids[i]));
    }
    lemma_picks(g, f, ctx, true, t);
    lemma_picks(g, f, ctx, false, t);
}

proof fn lemma_picks(g: GameModel, f: Filter, ctx: CtxModel, targeted: bool, t: Target)
    ensures
        ({
            let ids = g.candidates(f);
            g.picks(f, ctx, targeted).contains(t) <==> (admits_objects(f) && g.object_picks(
                ids,
                f,
                ctx,
                targeted,
                ids.len(),
            ).contains(t)) || (admits_players(f) && g.player_picks(
                f,
                ctx,
                g.turn_order.len(),
            ).contains(t))
        }),
{
    let ids = g.candidates(f);
    let a = if admits_objects(f) {
        g.object_picks(ids, f, ctx, targeted, ids.len())
    } else {
        Seq::empty()
    };
    let b = if admits_players(f) {
        g.player_picks(f, ctx, g.turn_order.len())
    } else {
        Seq::empty()
    };
    assert(g.picks(f, ctx, targeted) =~= a + b);
    if (a + b).contains(t) {
        let k = choose|k: int| 0 <= k < (a + b).len() && (a + b)[k] == t;
        if k < a.len() {
            assert(a[k] == t);
        } else {
            assert(b[k - a.len()] == t);
        }
    }
    if a.contains(t) {
        let k = choose|k: int| 0 <= k < a.len() && a[k] == t;
        assert((a + b)[k] == t);
    }
    if b.contains(t) {
        let k = choose|k: int| 0 <= k < b.len() && b[k] == t;
        assert((a + b)[a.len() + k] == t);
    }
}

/// A player may be targeted if and only if the filter admits players and the
/// player, who is in the game, matches it.
pub proof fn law_players_targeted(g: GameModel, ctx: CtxModel, f: Filter, s: Seat)
    ensures
        g.targets_for(f, ctx).contains(Target::Player(s)) <==> admits_players(f)
            && g.turn_order.contains(s) && g.player_matches(s, f, ctx),
        g.targets_for(Filter::Player, ctx).contains(Target::Player(s)) <==> g.turn_order.contains(
            s,
        ),
        g.targets_for(Filter::Opponent, ctx).contains(Target::Player(s)) <==> g.turn_order.contains(
            s,
        ) && s != ctx.you,
        !g.targets_for(Filter::Creature, ctx).contains(Target::Player(s)),
{
    let t = Target::Player(s);
    lemma_player_targeted(g, ctx, f, s);
    lemma_player_targeted(g, ctx, Filter::Player, s);
    lemma_player_targeted(g, ctx, Filter::Opponent, s);
    lemma_player_targeted(g, ctx, Filter::Creature, s);
}

proof fn lemma_player_targeted(g: GameModel, ctx: CtxModel, f: Filter, s: Seat)
    ensures
        g.targets_for(f, ctx).contains(Target::Player(s)) <==> admits_players(f)
            && g.turn_order.contains(s) && g.player_matches(s, f, ctx),
{
    let t = Target::Player(s);
    let ids = g.candidates(f);
    lemma_picks(g, f, ctx, true, t);
    lemma_object_picks(g, ids, f, ctx, true, ids.len(), t);
    lemma_player_picks(g, f, ctx, g.turn_order.len(), t);
    if g.turn_order.contains(s) {
        let i = choose|i: int| 0 <= i < g.turn_order.len() && g.turn_order[i] == s;
        assert(g.turn_order[i] == s);
    }
}

/// What is offered as a target is a legal one, and stays so until it moves:
/// in a sound game the targets offered for a permanent or a player are those
/// that a check on resolution still finds legal.
pub proof fn law_offered_targets_are_legal(g: GameModel, ctx: CtxModel, f: Filter, t: Target)
    requires
        g.objects.len() <= u32::MAX,
        zone_of(f) is Battlefield,
    ensures
        g.targets_for(f, ctx).contains(t) ==> g.target_is_legal(t, f, ctx),
        g.target_is_legal(t, f, ctx) && (t is Object ==> admits_objects(f)) && (t is Player
            ==> admits_players(f)) ==> g.targets_for(f, ctx).contains(t),
{
    match t {
        Target::Object(id) => {
            law_permanents_targeted(g, ctx, f, id);
        },
        Target::Player(s) => {
            law_players_targeted(g, ctx, f, s);
        },
    }
}

/// Which filters can pick out players, and which objects.
pub proof fn law_what_filters_admit(p: PlayerRef, c: Color)
    ensures
        admits_players(Filter::Player) && !admits_objects(Filter::Player),
        admits_players(Filter::Opponent) && !admits_objects(Filter::Opponent),
        admits_players(Filter::Any) && admits_objects(Filter::Any),
        !admits_players(Filter::Creature) && admits_objects(Filter::Creature),
        !admits_players(Filter::Permanent) && admits_objects(Filter::Permanent),
        !admits_players(Filter::Spell) && admits_objects(Filter::Spell),
        !admits_players(Filter::Land) && admits_objects(Filter::Land),
        !admits_players(Filter::Artifact) && admits_objects(Filter::Artifact),
        !admits_players(Filter::InGraveyard(p)) && admits_objects(Filter::InGraveyard(p)),
        !admits_players(Filter::Color(c)) && admits_objects(Filter::Color(c)),
{
}

// ----- amounts and conditions -----

/// A number is itself, `X` what was announced, and the negative of an amount
/// its opposite.
pub proof fn law_plain_amounts(g: GameModel, ctx: CtxModel, n: i32, a: Arc<Amount>)
    ensures
        g.amount(Amount::Const(n), ctx) == n,
        g.amount(Amount::X, ctx) == ctx.x,
        g.amount(*a, ctx) > i32::MIN ==> g.amount(Amount::Neg(a), ctx) == -g.amount(*a, ctx),
{
}

/// Counting counts the permanents that match, each once.
pub proof fn law_counts_are_of_permanents(g: GameModel, ctx: CtxModel, f: Filter)
    requires
        g.objects.len() <= i32::MAX,
    ensures
        ({
            let counted = Set::new(
                |id: ObjectId|
                    g.has_obj(id) && g.obj(id).zone is Battlefield && g.object_matches(id, f, ctx),
            );
            g.amount(Amount::Count(f), ctx) == counted.len() && counted.finite()
        }),
{
    let d = g.depth() + 1;
    let ids = g.on_battlefield();
    lemma_zone_ids(g, Zone::Battlefield, g.objects.len());
    lemma_matching(g, d, ids, &f, ctx, ids.len());
    lemma_zone_len(g, Zone::Battlefield, g.objects.len());
    let all = g.matching_ids(d, ids, f, ctx, ids.len());
    let counted = Set::new(
        |id: ObjectId|
            g.has_obj(id) && g.obj(id).zone is Battlefield && g.object_matches(id, f, ctx),
    );
    all.unique_seq_to_set();
    assert(all.to_set() =~= counted) by {
        assert forall|id: ObjectId| all.contains(id) <==> #[trigger] counted.contains(id) by {
            if all.contains(id) {
                let i = choose|i: int| 0 <= i < ids.len() && #[trigger] ids[i] == id;
                assert(ids.contains(ids[i]));
            }
            if counted.contains(id) {
                assert(ids.contains(id));
                let i = choose|i: int| 0 <= i < ids.len() && ids[i] == id;
                assert(ids[i] == id);
            }
        }
    }
}

proof fn lemma_zone_len(g: GameModel, zone: Zone, n: nat)
    requires
        n <= g.objects.len(),
    ensures
        g.zone_ids(zone, n).len() <= n,
    decreases n,
{
    if n > 0 {
        lemma_zone_len(g, zone, (n - 1) as nat);
    }
}

/// A player's life is their life total, and an object's power its power now.
pub proof fn law_life_and_power_amounts(g: GameModel, ctx: CtxModel, p: PlayerRef, r: Ref)
    ensures
        ({
            let seats = g.players_of(p, ctx);
            seats.len() > 0 && g.has_seat(seats[0]) ==> g.amount(Amount::LifeOf(p), ctx)
                == g.player(seats[0]).life
        }),
        ({
            let ids = g.objects_of(r, ctx);
            &&& ids.len() > 0 ==> (g.pt(ids[0]) matches Some((power, _)) ==> g.amount(
                Amount::PowerOf(r),
                ctx,
            ) == power)
            &&& ids.len() == 0 ==> g.amount(Amount::PowerOf(r), ctx) == 0
        }),
{
}

proof fn lemma_any_life(g: GameModel, seats: Seq<Seat>, at_least: bool, amount: i32, n: nat)
    requires
        n <= seats.len(),
    ensures
        g.any_life(seats, at_least, amount, n) <==> exists|i: int|
            0 <= i < n && g.has_seat(#[trigger] seats[i]) && if at_least {
                g.player(seats[i]).life >= amount
            } else {
                g.player(seats[i]).life <= amount
            },
    decreases n,
{
    if n > 0 {
        lemma_any_life(g, seats, at_least, amount, (n - 1) as nat);
        if g.any_life(seats, at_least, amount, (n - 1) as nat) {
            let i = choose|i: int|
                0 <= i < n - 1 && g.has_seat(#[trigger] seats[i]) && if at_least {
                    g.player(seats[i]).life >= amount
                } else {
                    g.player(seats[i]).life <= amount
                };
            assert(g.has_seat(seats[i]));
        } else if g.any_life(seats, at_least, amount, n) {
            assert(g.has_seat(seats[n - 1]));
        }
    }
}

/// "If a player has 10 or more life" holds if one of the players meant has
/// that much, "or less" if one has that little; either way the amount itself
/// counts.
pub proof fn law_life_conditions(g: GameModel, ctx: CtxModel, p: PlayerRef, amount: i32)
    ensures
        g.condition(Condition::LifeAtLeast { player: p, amount }, ctx) <==> exists|i: int|
            0 <= i < g.players_of(p, ctx).len() && g.has_seat(#[trigger] g.players_of(p, ctx)[i])
                && g.player(g.players_of(p, ctx)[i]).life >= amount,
        g.condition(Condition::LifeAtMost { player: p, amount }, ctx) <==> exists|i: int|
            0 <= i < g.players_of(p, ctx).len() && g.has_seat(#[trigger] g.players_of(p, ctx)[i])
                && g.player(g.players_of(p, ctx)[i]).life <= amount,
{
    let seats = g.players_of(p, ctx);
    lemma_any_life(g, seats, true, amount, seats.len());
    lemma_any_life(g, seats, false, amount, seats.len());
}

proof fn lemma_any_controls(
    g: GameModel,
    d: nat,
    seats: Seq<Seat>,
    f: Filter,
    at_least: i32,
    ctx: CtxModel,
    n: nat,
)
    requires
        n <= seats.len(),
    ensures
        g.any_controls(d, seats, f, at_least, ctx, n) <==> exists|i: int|
            0 <= i < n && g.matching_ids(
                d,
                g.battlefield(#[trigger] seats[i]),
                f,
                (CtxModel { you: seats[i], ..ctx }),
                g.battlefield(seats[i]).len(),
            ).len() >= at_least,
    decreases n,
{
    if n > 0 {
        lemma_any_controls(g, d, seats, f, at_least, ctx, (n - 1) as nat);
        if g.any_controls(d, seats, f, at_least, ctx, (n - 1) as nat) {
            let i = choose|i: int|
                0 <= i < n - 1 && g.matching_ids(
                    d,
                    g.battlefield(#[trigger] seats[i]),
                    f,
                    (CtxModel { you: seats[i], ..ctx }),
                    g.battlefield(seats[i]).len(),
                ).len() >= at_least;
            assert(g.battlefield(seats[i]) == g.battlefield(seats[i]));
        }
    }
}

/// "If you control an Elf" holds if and only if one of your permanents
/// matches; "three or more" if and only if three different ones do.
pub proof fn law_control_conditions(g: GameModel, ctx: CtxModel, f: Filter, at_least: i32)
    requires
        g.sound(),
        g.has_seat(ctx.you),
    ensures
        g.condition(Condition::Controls { player: PlayerRef::You, filter: f, at_least: 1 }, ctx)
            <==> exists|k: int|
            0 <= k < g.player(ctx.you).battlefield.len() && g.object_matches(
                #[trigger] g.player(ctx.you).battlefield[k],
                f,
                ctx,
            ),
        ({
            let held = Set::new(
                |id: ObjectId|
                    g.player(ctx.you).battlefield.contains(id) && g.object_matches(id, f, ctx),
            );
            g.condition(Condition::Controls { player: PlayerRef::You, filter: f, at_least }, ctx)
                <==> held.len() >= at_least
        }),
{
    let d = g.depth() + 1;
    let ids = g.battlefield(ctx.you);
    let seats = seq![ctx.you];
    lemma_any_controls(g, d, seats, f, at_least, ctx, 1);
    lemma_any_controls(g, d, seats, f, 1, ctx, 1);
    lemma_matching(g, d, ids, &f, ctx, ids.len());
    assert(ids.no_duplicates()) by {
        reveal(GameModel::lists_are_sets);
        assert(g.list(ctx.you, Zone::Battlefield).no_duplicates());
    }
    let all = g.matching_ids(d, ids, f, ctx, ids.len());
    let held = Set::new(
        |id: ObjectId| g.player(ctx.you).battlefield.contains(id) && g.object_matches(id, f, ctx),
    );
    all.unique_seq_to_set();
    assert forall|id: ObjectId| all.contains(id) <==> #[trigger] held.contains(id) by {
        if all.contains(id) {
            let i = choose|i: int| 0 <= i < ids.len() && #[trigger] ids[i] == id;
            assert(ids.contains(ids[i]));
        }
        if held.contains(id) {
            let i = choose|i: int| 0 <= i < ids.len() && ids[i] == id;
            assert(ids[i] == id);
        }
    }
    assert(all.to_set() =~= held);
    assert(g.players_of(PlayerRef::You, ctx) =~= seats);
    assert(seats[0] == ctx.you);
    assert((CtxModel { you: seats[0], ..ctx }) == ctx);
    assert(g.condition(
        Condition::Controls { player: PlayerRef::You, filter: f, at_least },
        ctx,
    ) <==> all.len() >= at_least);
    assert(g.condition(
        Condition::Controls { player: PlayerRef::You, filter: f, at_least: 1 },
        ctx,
    ) <==> all.len() >= 1);
    if all.len() >= 1 {
        assert(all.contains(all[0]));
        let i = choose|i: int| 0 <= i < ids.len() && #[trigger] ids[i] == all[0];
        assert(g.object_matches(g.player(ctx.you).battlefield[i], f, ctx));
    }
    if exists|k: int|
        0 <= k < g.player(ctx.you).battlefield.len() && g.object_matches(
            #[trigger] g.player(ctx.you).battlefield[k],
            f,
            ctx,
        ) {
        let k = choose|k: int|
            0 <= k < g.player(ctx.you).battlefield.len() && g.object_matches(
                #[trigger] g.player(ctx.you).battlefield[k],
                f,
                ctx,
            );
        assert(ids[k] == g.player(ctx.you).battlefield[k]);
        assert(all.contains(ids[k]));
    }
}

} // verus!
