//! What effects do to permanents and spells, told by what they carry before
//! and after.
use crate::action::{DamageTarget, Target};
use crate::ir::{Amount, CounterKind, Duration, Effect, Ref, TokenSpec};
use crate::interp::spell_at;
use crate::keeping::keep_counter_each;
use crate::laws_effects::law_cards_are_where_they_say;
use crate::state::{Counters, CtxModel, Expiry, FrameModel, GameModel, Modifier, ModifierKind, ObjectModel, PlayerModel, StackModel};
use crate::types::{sat_i32, sat_u8, Color, Keyword, ObjectId, Seat, Zone};
use vstd::prelude::*;

verus! {

// ----- tokens -----

impl GameModel {
    /// The object is a token as the effect describes it, new on the
    /// battlefield of `seat`.
    pub open spec fn is_new_token(self, id: ObjectId, seat: Seat, spec: TokenSpec) -> bool {
        let o = self.obj(id);
        let def = self.def(id);
        &&& self.has_def(id)
        &&& o.zone is Battlefield
        &&& o.owner == seat
        &&& o.controller == seat
        &&& o.summoning_sick
        &&& !o.tapped
        &&& o.damage == 0
        &&& def.token
        &&& def.name == spec.name@
        &&& def.types == spec.types@
        &&& def.subtypes == spec.subtypes@
        &&& def.pt == spec.pt
        &&& def.keywords == spec.keywords@
        &&& def.colors == spec.colors@
    }
}

proof fn lemma_tokens(g: GameModel, seat: Seat, spec: &TokenSpec, n: nat)
    requires
        g.has_seat(seat),
        g.objects.len() + n <= u32::MAX,
        g.cards.len() + g.tokens.len() + n <= u32::MAX,
    ensures
        ({
            let h = g.create_tokens(seat, *spec, n);
            &&& h.objects.len() == g.objects.len() + n
            &&& h.tokens.len() == g.tokens.len() + n
            &&& h.cards == g.cards
            &&& h.players.len() == g.players.len()
            &&& forall|x: ObjectId|
                #![trigger h.obj(x)]
                g.has_obj(x) ==> h.obj(x) == g.obj(x)
            &&& forall|i: int| 0 <= i < g.tokens.len() ==> #[trigger] h.tokens[i] == g.tokens[i]
            &&& forall|x: ObjectId|
                #![trigger h.obj(x)]
                h.has_obj(x) && !g.has_obj(x) ==> h.is_new_token(x, seat, *spec)
            &&& h.player(seat).battlefield.len() == g.player(seat).battlefield.len() + n
            &&& forall|x: ObjectId|
                h.has_obj(x) && !g.has_obj(x) ==> #[trigger] h.player(seat).battlefield.contains(x)
            &&& h.player(seat).life == g.player(seat).life
            &&& h.player(seat).hand == g.player(seat).hand
        }),
    decreases n,
{
    if n > 0 {
        lemma_tokens(g, seat, spec, (n - 1) as nat);
        let a = g.create_tokens(seat, *spec, (n - 1) as nat);
        let h = g.create_tokens(seat, *spec, n);
        let id = ObjectId((a.objects.len() + 1) as u32);
        let field = a.player(seat).battlefield;
        assert(h.player(seat).battlefield == field.push(id));
        assert forall|x: ObjectId| #![trigger h.obj(x)] g.has_obj(x) implies h.obj(x) == g.obj(
            x,
        ) by {
            assert(a.obj(x) == g.obj(x));
        }
        assert forall|x: ObjectId|
            #![trigger h.obj(x)]
            h.has_obj(x) && !g.has_obj(x) implies h.is_new_token(x, seat, *spec) by {
            if x != id {
                assert(a.obj(x) == h.obj(x));
                assert(a.is_new_token(x, seat, *spec));
                assert(h.def(x) == a.def(x));
            }
        }
        assert forall|x: ObjectId| h.has_obj(x) && !g.has_obj(x) implies #[trigger] h.player(
            seat,
        ).battlefield.contains(x) by {
            if x == id {
                assert(h.player(seat).battlefield[field.len() as int] == id);
            } else {
                assert(field.contains(x));
                let k = choose|k: int| 0 <= k < field.len() && field[k] == x;
                assert(h.player(seat).battlefield[k] == x);
            }
        }
    }
}

/// Creating tokens adds that many new permanents, each as the effect describes
/// it, under the control of whoever controls the effect; everything that was
/// there before is as it was.
pub proof fn law_tokens_are_created(
    g: GameModel,
    ctx: CtxModel,
    spec: std::sync::Arc<TokenSpec>,
    count: Amount,
    id: ObjectId,
)
    requires
        g.has_seat(ctx.you),
        g.amount(count, ctx) >= 0,
        g.objects.len() + g.amount(count, ctx) <= u32::MAX,
        g.cards.len() + g.tokens.len() + g.amount(count, ctx) <= u32::MAX,
    ensures
        ({
            let h = g.apply_effect(ctx, Effect::CreateToken { spec, count });
            let n = g.amount(count, ctx);
            &&& h.objects.len() == g.objects.len() + n
            &&& g.has_obj(id) ==> g.untouched(h, id)
            &&& h.has_obj(id) && !g.has_obj(id) ==> h.is_new_token(id, ctx.you, *spec) && h.player(
                ctx.you,
            ).battlefield.contains(id)
            &&& h.player(ctx.you).battlefield.len() == g.player(ctx.you).battlefield.len() + n
        }),
{
    reveal(GameModel::apply_effect);
    let n = crate::interp::at_least_zero(g.amount(count, ctx));
    lemma_tokens(g, ctx.you, &*spec, n);
    let h = g.apply_effect(ctx, Effect::CreateToken { spec, count });
    let o = h.obj(id);
    assert(h.has_obj(id) && !g.has_obj(id) ==> h.player(ctx.you).battlefield.contains(id));
}

// ----- what permanents carry -----

proof fn lemma_turn_each(g: GameModel, ids: Seq<ObjectId>, tapped: bool, n: nat, id: ObjectId)
    requires
        n <= ids.len(),
        g.has_obj(id),
    ensures
        ({
            let h = g.turn_each(ids, tapped, n);
            &&& h.players == g.players
            &&& h.stack == g.stack
            &&& h.objects.len() == g.objects.len()
            &&& h.obj(id) == (if g.obj(id).zone is Battlefield && exists|i: int|
                0 <= i < n && #[trigger] ids[i] == id {
                ObjectModel { tapped, ..g.obj(id) }
            } else {
                g.obj(id)
            })
        }),
    decreases n,
{
    if n > 0 {
        lemma_turn_each(g, ids, tapped, (n - 1) as nat, id);
        let a = g.turn_each(ids, tapped, (n - 1) as nat);
        let h = g.turn_each(ids, tapped, n);
        if ids[n - 1] == id {
            assert(0 <= n - 1 < n && ids[n - 1] == id);
        } else {
            assert(h.obj(id) == a.obj(id));
            if exists|i: int| 0 <= i < n && #[trigger] ids[i] == id {
                let i = choose|i: int| 0 <= i < n && #[trigger] ids[i] == id;
                assert(0 <= i < n - 1 && ids[i] == id);
            }
        }
        if exists|i: int| 0 <= i < n - 1 && #[trigger] ids[i] == id {
            let i = choose|i: int| 0 <= i < n - 1 && #[trigger] ids[i] == id;
            assert(0 <= i < n && ids[i] == id);
        }
    }
}

/// Tapping leaves every permanent referred to tapped, untapping leaves it
/// untapped, and nothing else about it or anything else changes.
pub proof fn law_permanents_are_tapped_and_untapped(
    g: GameModel,
    ctx: CtxModel,
    target: Ref,
    id: ObjectId,
)
    requires
        g.has_obj(id),
    ensures
        ({
            let tap = g.apply_effect(ctx, Effect::Tap { target });
            let untap = g.apply_effect(ctx, Effect::Untap { target });
            let o = g.obj(id);
            let meant = g.objects_of(target, ctx).contains(id) && o.zone is Battlefield;
            &&& meant ==> tap.obj(id) == ObjectModel { tapped: true, ..o } && untap.obj(id)
                == ObjectModel { tapped: false, ..o }
            &&& !meant ==> tap.obj(id) == o && untap.obj(id) == o
            &&& tap.players == g.players
            &&& untap.players == g.players
        }),
{
    reveal(GameModel::apply_effect);
    let ids = g.objects_of(target, ctx);
    lemma_turn_each(g, ids, true, ids.len(), id);
    lemma_turn_each(g, ids, false, ids.len(), id);
    assert(ids.contains(id) <==> exists|i: int| 0 <= i < ids.len() && #[trigger] ids[i] == id);
}

proof fn lemma_counters_each(
    g: GameModel,
    ids: Seq<ObjectId>,
    kind: CounterKind,
    count: u8,
    n: nat,
    id: ObjectId,
)
    requires
        n <= ids.len(),
        ids.no_duplicates(),
        g.has_obj(id),
    ensures
        ({
            let h = g.counters_each(ids, kind, count, n);
            let o = g.obj(id);
            let c = o.counters;
            &&& h.players == g.players
            &&& h.objects.len() == g.objects.len()
            &&& h.obj(id) == (if o.zone is Battlefield && exists|i: int|
                0 <= i < n && #[trigger] ids[i] == id {
                ObjectModel {
                    counters: if kind is Plus1Plus1 {
                        Counters { plus1: sat_u8(c.plus1 + count), minus1: c.minus1 }
                    } else {
                        Counters { plus1: c.plus1, minus1: sat_u8(c.minus1 + count) }
                    },
                    ..o
                }
            } else {
                o
            })
        }),
    decreases n,
{
    if n > 0 {
        lemma_counters_each(g, ids, kind, count, (n - 1) as nat, id);
        let a = g.counters_each(ids, kind, count, (n - 1) as nat);
        let h = g.counters_each(ids, kind, count, n);
        if ids[n - 1] == id {
            assert(0 <= n - 1 < n && ids[n - 1] == id);
            assert(!exists|i: int| 0 <= i < n - 1 && #[trigger] ids[i] == id);
        } else {
            assert(h.obj(id) == a.obj(id));
            if exists|i: int| 0 <= i < n && #[trigger] ids[i] == id {
                let i = choose|i: int| 0 <= i < n && #[trigger] ids[i] == id;
                assert(0 <= i < n - 1 && ids[i] == id);
            }
            if exists|i: int| 0 <= i < n - 1 && #[trigger] ids[i] == id {
                let i = choose|i: int| 0 <= i < n - 1 && #[trigger] ids[i] == id;
                assert(0 <= i < n && ids[i] == id);
            }
        }
    }
}

/// Putting counters on permanents gives each of those referred to that many
/// more of just that kind.
pub proof fn law_counters_are_put_on(
    g: GameModel,
    ctx: CtxModel,
    target: Ref,
    kind: CounterKind,
    count: Amount,
    id: ObjectId,
)
    requires
        g.has_obj(id),
        g.objects_of(target, ctx).no_duplicates(),
        0 <= g.amount(count, ctx),
        g.obj(id).counters.plus1 + g.amount(count, ctx) <= u8::MAX,
        g.obj(id).counters.minus1 + g.amount(count, ctx) <= u8::MAX,
    ensures
        ({
            let h = g.apply_effect(ctx, Effect::AddCounters { target, kind, count });
            let n = g.amount(count, ctx);
            let was = g.obj(id);
            let now = h.obj(id);
            let meant = g.objects_of(target, ctx).contains(id) && was.zone is Battlefield;
            &&& now == ObjectModel { counters: now.counters, ..was }
            &&& meant && kind is Plus1Plus1 ==> now.counters.plus1 == was.counters.plus1 + n
                && now.counters.minus1 == was.counters.minus1
            &&& meant && kind is Minus1Minus1 ==> now.counters.minus1 == was.counters.minus1 + n
                && now.counters.plus1 == was.counters.plus1
            &&& !meant ==> now == was
            &&& h.players == g.players
        }),
{
    reveal(GameModel::apply_effect);
    let ids = g.objects_of(target, ctx);
    lemma_counters_each(g, ids, kind, sat_u8(g.amount(count, ctx) as int), ids.len(), id);
    assert(ids.contains(id) <==> exists|i: int| 0 <= i < ids.len() && #[trigger] ids[i] == id);
}

proof fn lemma_modify_each(
    g: GameModel,
    ids: Seq<ObjectId>,
    mods: Seq<Modifier>,
    n: nat,
    id: ObjectId,
)
    requires
        n <= ids.len(),
        ids.no_duplicates(),
        g.has_obj(id),
    ensures
        ({
            let h = g.modify_each(ids, mods, n);
            let o = g.obj(id);
            &&& h.players == g.players
            &&& h.objects.len() == g.objects.len()
            &&& h.obj(id) == (if o.zone is Battlefield && exists|i: int|
                0 <= i < n && #[trigger] ids[i] == id {
                ObjectModel { modifiers: o.modifiers + mods, ..o }
            } else {
                o
            })
        }),
    decreases n,
{
    if n > 0 {
        lemma_modify_each(g, ids, mods, (n - 1) as nat, id);
        let a = g.modify_each(ids, mods, (n - 1) as nat);
        let h = g.modify_each(ids, mods, n);
        if ids[n - 1] == id {
            assert(0 <= n - 1 < n && ids[n - 1] == id);
            assert(!exists|i: int| 0 <= i < n - 1 && #[trigger] ids[i] == id);
        } else {
            assert(h.obj(id) == a.obj(id));
            if exists|i: int| 0 <= i < n && #[trigger] ids[i] == id {
                let i = choose|i: int| 0 <= i < n && #[trigger] ids[i] == id;
                assert(0 <= i < n - 1 && ids[i] == id);
            }
            if exists|i: int| 0 <= i < n - 1 && #[trigger] ids[i] == id {
                let i = choose|i: int| 0 <= i < n - 1 && #[trigger] ids[i] == id;
                assert(0 <= i < n && ids[i] == id);
            }
        }
    }
}

/// "Gets +a/+b and gains ..." gives each permanent referred to just that, on top
/// of what it carried, until the end of turn or until the next turn of whoever
/// controls the effect, as it says.
pub proof fn law_permanents_are_modified(
    g: GameModel,
    ctx: CtxModel,
    target: Ref,
    power: Amount,
    toughness: Amount,
    keywords: std::sync::Arc<Vec<Keyword>>,
    until: Duration,
    id: ObjectId,
    k: int,
)
    requires
        g.has_obj(id),
        g.objects_of(target, ctx).no_duplicates(),
    ensures
        ({
            let h = g.apply_effect(
                ctx,
                Effect::ModifyPt { target, power, toughness, keywords, until },
            );
            let was = g.obj(id);
            let now = h.obj(id);
            let n = was.modifiers.len() as int;
            let meant = g.objects_of(target, ctx).contains(id) && was.zone is Battlefield;
            &&& now == ObjectModel { modifiers: now.modifiers, ..was }
            &&& !meant ==> now == was
            &&& meant ==> {
                &&& now.modifiers.len() == n + 1 + keywords@.len()
                &&& now.modifiers.subrange(0, n) == was.modifiers
                &&& now.modifiers[n].kind == (ModifierKind::Pt {
                    power: g.amount(power, ctx),
                    toughness: g.amount(toughness, ctx),
                })
                &&& 0 <= k < keywords@.len() ==> now.modifiers[n + 1 + k].kind
                    == ModifierKind::Keyword(keywords@[k])
                &&& n <= k < now.modifiers.len() ==> now.modifiers[k].expires == (
                if until is EndOfTurn {
                    Expiry::EndOfTurn
                } else {
                    Expiry::TurnOf(ctx.you)
                })
            }
            &&& h.players == g.players
        }),
{
    reveal(GameModel::apply_effect);
    let ids = g.objects_of(target, ctx);
    let expires = Expiry::of(until, ctx.you);
    let pt = Modifier {
        kind: ModifierKind::Pt {
            power: g.amount(power, ctx),
            toughness: g.amount(toughness, ctx),
        },
        expires,
    };
    let mods = seq![pt] + crate::interp::keyword_modifiers(keywords@, expires);
    lemma_modify_each(g, ids, mods, ids.len(), id);
    assert(ids.contains(id) <==> exists|i: int| 0 <= i < ids.len() && #[trigger] ids[i] == id);
    let was = g.obj(id).modifiers;
    assert((was + mods).subrange(0, was.len() as int) =~= was);
}

/// "Gains flying" gives each permanent referred to that keyword, for as long as
/// it says: it has it afterwards.
pub proof fn law_keywords_are_granted(
    g: GameModel,
    ctx: CtxModel,
    target: Ref,
    keyword: Keyword,
    until: Duration,
    id: ObjectId,
)
    requires
        g.has_def(id),
        g.objects_of(target, ctx).no_duplicates(),
    ensures
        ({
            let h = g.apply_effect(ctx, Effect::GrantKeyword { target, keyword, until });
            let was = g.obj(id);
            let now = h.obj(id);
            let meant = g.objects_of(target, ctx).contains(id) && was.zone is Battlefield;
            &&& now == ObjectModel { modifiers: now.modifiers, ..was }
            &&& !meant ==> now == was
            &&& meant ==> now.modifiers == was.modifiers.push(
                Modifier {
                    kind: ModifierKind::Keyword(keyword),
                    expires: if until is EndOfTurn {
                        Expiry::EndOfTurn
                    } else {
                        Expiry::TurnOf(ctx.you)
                    },
                },
            )
            &&& meant ==> h.has_keyword(id, keyword)
            &&& h.players == g.players
        }),
{
    reveal(GameModel::apply_effect);
    let ids = g.objects_of(target, ctx);
    let m = Modifier {
        kind: ModifierKind::Keyword(keyword),
        expires: Expiry::of(until, ctx.you),
    };
    lemma_modify_each(g, ids, seq![m], ids.len(), id);
    lemma_modify_tables(g, ids, seq![m], ids.len());
    assert(ids.contains(id) <==> exists|i: int| 0 <= i < ids.len() && #[trigger] ids[i] == id);
    let was = g.obj(id).modifiers;
    assert(was + seq![m] =~= was.push(m));
    let h = g.modify_each(ids, seq![m], ids.len());
    if ids.contains(id) && g.obj(id).zone is Battlefield {
        assert(h.obj(id).modifiers[was.len() as int] == m);
        assert(h.has_def(id));
        crate::laws_stats::law_where_keywords_come_from(h, id, keyword);
    }
}

proof fn lemma_modify_tables(g: GameModel, ids: Seq<ObjectId>, mods: Seq<Modifier>, n: nat)
    ensures
        g.modify_each(ids, mods, n).cards == g.cards,
        g.modify_each(ids, mods, n).tokens == g.tokens,
    decreases n,
{
    if n > 0 && n <= ids.len() {
        lemma_modify_tables(g, ids, mods, (n - 1) as nat);
    }
}

// ----- mana -----

/// Adding mana puts that much of just that kind into the pool of whoever
/// controls the effect.
pub proof fn law_mana_is_added(
    g: GameModel,
    ctx: CtxModel,
    color: Option<Color>,
    amount: Amount,
    other: Seat,
)
    requires
        g.has_seat(ctx.you),
        g.has_seat(other),
        other != ctx.you,
        0 <= g.amount(amount, ctx) <= 100,
        g.player(ctx.you).mana_pool.white <= 100,
        g.player(ctx.you).mana_pool.blue <= 100,
        g.player(ctx.you).mana_pool.black <= 100,
        g.player(ctx.you).mana_pool.red <= 100,
        g.player(ctx.you).mana_pool.green <= 100,
        g.player(ctx.you).mana_pool.colorless <= 100,
    ensures
        ({
            let h = g.apply_effect(ctx, Effect::AddMana { color, amount });
            let n = g.amount(amount, ctx);
            let was = g.player(ctx.you).mana_pool;
            let now = h.player(ctx.you).mana_pool;
            &&& now.white == was.white + if color == Some(Color::White) {
                n as int
            } else {
                0
            }
            &&& now.blue == was.blue + if color == Some(Color::Blue) {
                n as int
            } else {
                0
            }
            &&& now.black == was.black + if color == Some(Color::Black) {
                n as int
            } else {
                0
            }
            &&& now.red == was.red + if color == Some(Color::Red) {
                n as int
            } else {
                0
            }
            &&& now.green == was.green + if color == Some(Color::Green) {
                n as int
            } else {
                0
            }
            &&& now.colorless == was.colorless + if color is None {
                n as int
            } else {
                0
            }
            &&& h.player(other) == g.player(other)
            &&& h.player(ctx.you) == PlayerModel { mana_pool: now, ..g.player(ctx.you) }
            &&& h.objects == g.objects
        }),
{
    reveal(GameModel::apply_effect);
}

// ----- spells -----

proof fn lemma_spell_at(stack: Seq<StackModel>, id: ObjectId, i: nat)
    ensures
        spell_at(stack, id, i) matches Some(k) ==> i <= k < stack.len() && stack[k as int].object
            == id && stack[k as int].kind is Spell,
        spell_at(stack, id, i) is None ==> forall|j: int|
            i <= j < stack.len() ==> !((#[trigger] stack[j]).object == id && stack[j].kind is Spell),
    decreases stack.len() - i,
{
    if i < stack.len() {
        lemma_spell_at(stack, id, i + 1);
    }
}

/// A spell that is countered leaves the stack for its owner's graveyard; what
/// is not a spell on the stack is left alone.
pub proof fn law_spells_are_countered(
    g: GameModel,
    ctx: CtxModel,
    target: Ref,
    id: ObjectId,
    k: int,
)
    requires
        g.sound(),
        g.objects_of(target, ctx) == seq![id],
    ensures
        ({
            let h = g.apply_effect(ctx, Effect::CounterSpell { target });
            &&& 0 <= k < g.stack.len() && g.stack[k].object == id && g.stack[k].kind is Spell ==> {
                &&& h.has_obj(id)
                &&& h.obj(id).zone is Graveyard
                &&& h.player(h.obj(id).owner).graveyard.contains(id)
                &&& h.obj(id).owner == g.obj(id).owner
                &&& forall|j: int|
                    0 <= j < h.stack.len() ==> !((#[trigger] h.stack[j]).object == id
                        && h.stack[j].kind is Spell)
            }
            &&& (forall|j: int|
                0 <= j < g.stack.len() ==> !((#[trigger] g.stack[j]).object == id
                    && g.stack[j].kind is Spell)) ==> h == g
        }),
{
    reveal(GameModel::apply_effect);
    reveal_with_fuel(GameModel::counter_each, 2);
    let h = g.counter_each(seq![id], 1);
    assert(seq![id][0] == id);
    assert(h == g.counter_spell(id));
    lemma_spell_at(g.stack, id, 0);
    if 0 <= k < g.stack.len() && g.stack[k].object == id && g.stack[k].kind is Spell {
        assert(g.in_zone(g.stack[k].object, Zone::Stack)) by {
            reveal(GameModel::spells_are_there);
        }
        keep_counter_each(g, seq![id], 1);
        assert(h.sound()) by {
            reveal(GameModel::keeps);
        }
        let i = spell_at(g.stack, id, 0)->0;
        let cut = GameModel { stack: g.stack.remove(i as int), ..g };
        assert(cut.has_obj(id) && cut.obj(id) == g.obj(id));
        assert(h.objects.len() == g.objects.len());
        assert(h.obj(id).zone is Graveyard && h.obj(id).owner == g.obj(id).owner);
        assert(h.has_seat(h.obj(id).owner)) by {
            reveal(GameModel::objects_are_real);
            assert(h.obj(id) == h.objects[id.0 - 1]);
        }
        law_cards_are_where_they_say(h, id, h.obj(id).owner);
        crate::laws::law_the_stack_holds_its_spells(h, id);
        assert forall|j: int| 0 <= j < h.stack.len() implies !((#[trigger] h.stack[j]).object == id
            && h.stack[j].kind is Spell) by {
            assert(!h.spell_entry(id, j));
        }
    }
}

// ----- damage -----

/// Damage to a player takes that much off their life; with lifelink, the
/// source's controller gains as much. No damage, or damage to a player who has
/// left, does nothing.
pub proof fn law_players_are_damaged(
    g: GameModel,
    source: ObjectId,
    s: Seat,
    amount: i32,
    combat: bool,
    other: Seat,
)
    requires
        g.has_def(source),
        g.has_seat(s),
        g.has_seat(other),
        g.objects.len() <= u32::MAX,
        g.no_statics(),
        g.turn_order.contains(s),
        i32::MIN <= g.player(s).life - amount,
        g.player(other).life + amount <= i32::MAX,
    ensures
        ({
            let h = g.deal_damage(source, DamageTarget::Player(s), amount, combat);
            let lifelink = g.def(source).keywords.contains(Keyword::Lifelink) || exists|i: int|
                0 <= i < g.obj(source).modifiers.len() && (#[trigger] g.obj(
                    source,
                ).modifiers[i]).kind == ModifierKind::Keyword(Keyword::Lifelink);
            let healed = lifelink && g.turn_order.contains(g.obj(source).controller);
            let c = g.obj(source).controller;
            &&& amount <= 0 ==> h == g
            &&& amount > 0 && !(healed && c == s) ==> h.player(s).life == g.player(s).life - amount
            &&& amount > 0 && healed && c == s ==> h.player(s).life == g.player(s).life
            &&& amount > 0 && other != s ==> h.player(other).life == g.player(other).life + (
            if healed && other == c {
                amount as int
            } else {
                0
            })
            &&& h.objects == g.objects
        }),
{
    if amount > 0 {
        let m = g.mark_damage(source, DamageTarget::Player(s), amount, combat);
        assert(m.objects == g.objects);
        assert(m.no_statics()) by {
            assert forall|id: ObjectId|
                #![trigger m.obj(id)]
                m.has_def(id) && m.obj(id).zone is Battlefield implies m.def(id).statics.len()
                == 0 by {
                assert(g.obj(id).zone is Battlefield);
            }
        }
        crate::laws_stats::law_plain_keywords(m, source, Keyword::Lifelink);
        assert(m.obj(source) == g.obj(source));
    }
}

/// Damage to a creature is marked on it, deathtouch with it; only creatures on
/// the battlefield are damaged.
pub proof fn law_creatures_are_damaged(
    g: GameModel,
    source: ObjectId,
    id: ObjectId,
    amount: i32,
    combat: bool,
    other: ObjectId,
)
    requires
        g.has_obj(id),
        g.has_obj(other),
        other != id,
        g.obj(id).damage + amount <= i32::MAX,
    ensures
        ({
            let h = g.deal_damage(source, DamageTarget::Object(id), amount, combat);
            let was = g.obj(id);
            let hit = amount > 0 && was.zone is Battlefield && g.creature(id);
            &&& hit ==> h.obj(id) == ObjectModel {
                damage: (was.damage + amount) as i32,
                deathtouch_damaged: was.deathtouch_damaged || g.has_keyword(
                    source,
                    Keyword::Deathtouch,
                ),
                ..was
            }
            &&& !hit ==> h == g
            &&& h.obj(other) == g.obj(other)
            &&& h.objects.len() == g.objects.len()
        }),
{
}

proof fn lemma_damage_each(
    g: GameModel,
    source: ObjectId,
    ts: Seq<Target>,
    amount: i32,
    n: nat,
    id: ObjectId,
)
    requires
        n <= ts.len(),
        ts.no_duplicates(),
        g.has_obj(id),
    ensures
        ({
            let h = g.damage_each(source, ts, amount, n);
            let was = g.obj(id);
            &&& h.objects.len() == g.objects.len()
            &&& h.cards == g.cards && h.tokens == g.tokens
            &&& h.obj(id).zone == was.zone
            &&& h.obj(id).card == was.card
            &&& h.obj(id).damage == (if amount > 0 && was.zone is Battlefield && g.creature(id)
                && exists|i: int| 0 <= i < n && #[trigger] ts[i] == Target::Object(id) {
                sat_i32(was.damage + amount)
            } else {
                was.damage
            })
        }),
    decreases n,
{
    if n > 0 {
        lemma_damage_each(g, source, ts, amount, (n - 1) as nat, id);
        let a = g.damage_each(source, ts, amount, (n - 1) as nat);
        let h = g.damage_each(source, ts, amount, n);
        let t = Target::Object(id);
        assert(a.creature(id) == g.creature(id));
        if ts[n - 1] == t {
            assert(0 <= n - 1 < n && ts[n - 1] == t);
            assert(!exists|i: int| 0 <= i < n - 1 && #[trigger] ts[i] == t);
        } else {
            assert(h.obj(id) == a.obj(id));
            if exists|i: int| 0 <= i < n && #[trigger] ts[i] == t {
                let i = choose|i: int| 0 <= i < n && #[trigger] ts[i] == t;
                assert(0 <= i < n - 1 && ts[i] == t);
            }
            if exists|i: int| 0 <= i < n - 1 && #[trigger] ts[i] == t {
                let i = choose|i: int| 0 <= i < n - 1 && #[trigger] ts[i] == t;
                assert(0 <= i < n && ts[i] == t);
            }
        }
    }
}

/// "Deals damage to" marks that much on every creature referred to, once, and
/// on no other; an effect without a source deals none.
pub proof fn law_damage_effects(
    g: GameModel,
    ctx: CtxModel,
    amount: Amount,
    to: Ref,
    id: ObjectId,
    source: ObjectId,
)
    requires
        g.has_obj(id),
        ctx.this == Some(source),
        g.refs_of(to, ctx).no_duplicates(),
        g.obj(id).damage + g.amount(amount, ctx) <= i32::MAX,
    ensures
        ({
            let h = g.apply_effect(ctx, Effect::DealDamage { amount, to });
            let n = g.amount(amount, ctx);
            let hit = n > 0 && g.refs_of(to, ctx).contains(Target::Object(id)) && g.obj(
                id,
            ).zone is Battlefield && g.creature(id);
            &&& h.obj(id).zone == g.obj(id).zone
            &&& hit ==> h.obj(id).damage == g.obj(id).damage + n
            &&& !hit ==> h.obj(id).damage == g.obj(id).damage
            &&& (g.refs_of(to, ctx) == seq![Target::Object(id)] ==> h == g.deal_damage(
                source,
                DamageTarget::Object(id),
                n,
                false,
            ))
        }),
{
    reveal(GameModel::apply_effect);
    let ts = g.refs_of(to, ctx);
    lemma_damage_each(g, source, ts, g.amount(amount, ctx), ts.len(), id);
    assert(ts.contains(Target::Object(id)) <==> exists|i: int|
        0 <= i < ts.len() && #[trigger] ts[i] == Target::Object(id));
    if ts == seq![Target::Object(id)] {
        reveal_with_fuel(GameModel::damage_each, 2);
        assert(ts[0] == Target::Object(id));
    }
}

/// "Deals damage to" a player is damage to that player that is no combat damage.
pub proof fn law_damage_effects_on_a_player(
    g: GameModel,
    ctx: CtxModel,
    amount: Amount,
    to: Ref,
    s: Seat,
    source: ObjectId,
)
    requires
        ctx.this == Some(source),
        g.refs_of(to, ctx) == seq![Target::Player(s)],
    ensures
        g.apply_effect(ctx, Effect::DealDamage { amount, to }) == g.deal_damage(
            source,
            DamageTarget::Player(s),
            g.amount(amount, ctx),
            false,
        ),
{
    reveal(GameModel::apply_effect);
    reveal_with_fuel(GameModel::damage_each, 2);
    assert(seq![Target::Player(s)][0] == Target::Player(s));
}

// ----- effects that leave work -----

/// "If ..., do this; otherwise that" leaves the one to be done where the
/// condition holds and the other where it does not.
pub proof fn law_conditions_choose_the_effect(
    g: GameModel,
    ctx: CtxModel,
    if_: crate::ir::Condition,
    yes: std::sync::Arc<Effect>,
    no: std::sync::Arc<Effect>,
)
    ensures
        ({
            let both = Effect::Conditional { if_, yes, no: Some(no) };
            let one = Effect::Conditional { if_, yes, no: None };
            let first = FrameModel::Effects { effects: seq![*yes], next: 0 };
            let second = FrameModel::Effects { effects: seq![*no], next: 0 };
            &&& g.condition(if_, ctx) ==> g.effect_frames(ctx, both) == seq![first]
                && g.effect_frames(ctx, one) == seq![first]
            &&& !g.condition(if_, ctx) ==> g.effect_frames(ctx, both) == seq![second]
                && g.effect_frames(ctx, one).len() == 0
            &&& g.apply_effect(ctx, both) == g
        }),
{
    reveal(GameModel::apply_effect);
    reveal(GameModel::effect_frames);
}

} // verus!
