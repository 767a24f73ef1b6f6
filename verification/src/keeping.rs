//! Every rule keeps what [`crate::sound`] says every change keeps: one lemma
//! for each function on [`GameModel`] that a game is changed by.
use crate::action::{ActionModel, AttackTarget, DamageTarget, Target};
use crate::event::{Elimination, EventFacts, EventModel, Outcome};
use crate::ir::{Cost, CounterKind, DelayedAt, Effect, Filter, TokenSpec};
use crate::sba::stack_not_of;
use crate::seqs::without;
use crate::sound::{lemma_stays_gone, group_keeps, lemma_control, lemma_sound_same, lemma_spots_same, lemma_stack_changes, lemma_without, lemma_zone_after, life_told, lemma_bottom_one, lemma_counter_spell, lemma_create_token, lemma_draw_one, lemma_emit, lemma_enter_under, lemma_hand_back, lemma_follows_on, lemma_leads_on, lemma_leads_quietly, lemma_leads_self, lemma_life_changes, lemma_mill_one, lemma_move, lemma_move_leads, lemma_move_sound, lemma_push_entry, lemma_put_on_stack, lemma_remove_entry, lemma_same_core, lemma_same_places, lemma_shuffle, lemma_shuffle_leads, lemma_with_obj, lemma_with_player, nobody};
use crate::state::{CombatRound, ContModel, CtxModel, Expiry, FiredModel, FrameModel, GameModel, KindModel, Modifier, ModifierKind, ObjectModel, PendingModel, PlayerModel, StackModel};
use crate::types::{ManaCost, Mana, ManaPool, ObjectId, Phase, Seat, Zone};
use vstd::prelude::*;

verus! {

broadcast use group_keeps;

// ----- life, damage, moving -----

pub proof fn keep_change_life(g: GameModel, seat: Seat, to: i32)
    ensures
        g.keeps(g.change_life(seat, to)),
{
    lemma_life_changes(g, seat, to, None);
}

pub proof fn keep_gain_life(g: GameModel, seat: Seat, n: i32)
    ensures
        g.keeps(g.gain_life(seat, n)),
{
    if n > 0 && g.in_game(seat) {
        keep_change_life(g, seat, crate::types::sat_i32(g.life(seat) + n));
    }
}

pub proof fn keep_mark_damage(
    g: GameModel,
    source: ObjectId,
    to: DamageTarget,
    amount: i32,
    combat: bool,
)
    ensures
        g.keeps(g.mark_damage(source, to, amount, combat)),
{
    let e: EventFacts = EventModel::Damage { source, to, amount, combat };
    match to {
        DamageTarget::Player(s) => {
            lemma_life_changes(g, s, crate::types::sat_i32(g.life(s) - amount), Some(e));
        },
        DamageTarget::Object(o) => {
            let h = g.mark_damage(source, to, amount, combat);
            let touched = g.has_keyword(source, crate::types::Keyword::Deathtouch);
            let obj = g.obj(o);
            let now = ObjectModel {
                damage: crate::types::sat_i32(obj.damage + amount),
                deathtouch_damaged: obj.deathtouch_damaged || touched,
                ..obj
            };
            lemma_with_obj(g, o, now);
            lemma_emit(g.with_obj(o, now), e);
            assert(h == g.with_obj(o, now).emit(e));
        },
    }
}

pub proof fn keep_deal_damage(
    g: GameModel,
    source: ObjectId,
    to: DamageTarget,
    amount: i32,
    combat: bool,
)
    ensures
        g.keeps(g.deal_damage(source, to, amount, combat)),
{
    if amount > 0 && g.can_damage(to) {
        let h = g.mark_damage(source, to, amount, combat);
        keep_mark_damage(g, source, to, amount, combat);
        keep_gain_life(h, h.obj(source).controller, amount);
    }
}

pub proof fn keep_destroy(g: GameModel, id: ObjectId)
    ensures
        g.keeps(g.destroy(id)),
{
    lemma_move(g, id, Zone::Graveyard);
}

pub proof fn keep_move_all(g: GameModel, ids: Seq<ObjectId>, to: Zone, n: nat)
    requires
        !(to is Stack),
        to is OutOfGame && g.objects.len() <= u32::MAX ==> forall|k: int|
            0 <= k < ids.len() ==> g.has_obj(#[trigger] ids[k]) && g.may_be_gone(ids[k]),
    ensures
        g.keeps(g.move_all(ids, to, n)),
    decreases n,
{
    if n > 0 && n <= ids.len() {
        keep_move_all(g, ids, to, (n - 1) as nat);
        let h = g.move_all(ids, to, (n - 1) as nat);
        if to is OutOfGame && h.objects.len() <= u32::MAX {
            reveal(GameModel::keeps);
            reveal(GameModel::leads_to);
            reveal(GameModel::follows);
            assert(g.objects.len() <= h.objects.len()) by {
                reveal(GameModel::objects_stay);
            }
            lemma_stays_gone(g, h, ids[n - 1]);
        }
        lemma_move(g.move_all(ids, to, (n - 1) as nat), ids[n - 1], to);
    }
}

pub proof fn keep_discard_n(g: GameModel, seat: Seat, ids: Seq<ObjectId>, n: nat)
    ensures
        g.keeps(g.discard_n(seat, ids, n)),
    decreases n,
{
    if n > 0 && n <= ids.len() {
        keep_discard_n(g, seat, ids, (n - 1) as nat);
        lemma_move(g.discard_n(seat, ids, (n - 1) as nat), ids[n - 1], Zone::Graveyard);
    }
}

pub proof fn keep_discard(g: GameModel, seat: Seat, ids: Seq<ObjectId>)
    ensures
        g.keeps(g.discard(seat, ids)),
{
    keep_discard_n(g, seat, ids, ids.len());
    lemma_emit(
        g.discard_n(seat, ids, ids.len()),
        EventModel::Discarded { seat, objects: ids },
    );
}

pub proof fn keep_create_tokens(g: GameModel, seat: Seat, spec: &TokenSpec, n: nat)
    ensures
        g.keeps(g.create_tokens(seat, *spec, n)),
    decreases n,
{
    if n > 0 {
        keep_create_tokens(g, seat, spec, (n - 1) as nat);
        lemma_create_token(g.create_tokens(seat, *spec, (n - 1) as nat), seat, spec);
    }
}

pub proof fn keep_sacrifice(g: GameModel, seat: Seat, id: ObjectId)
    ensures
        g.keeps(g.sacrifice(seat, id)),
{
    let e: EventFacts = EventModel::Sacrificed { seat, object: id };
    lemma_emit(g, e);
    lemma_move(g.emit(e), id, Zone::Graveyard);
}

pub proof fn keep_draw_n(g: GameModel, seat: Seat, n: nat)
    ensures
        g.keeps(g.draw_n(seat, n).0),
    decreases n,
{
    if n > 0 {
        keep_draw_n(g, seat, (n - 1) as nat);
        lemma_draw_one(g.draw_n(seat, (n - 1) as nat).0, seat);
    }
}

pub proof fn keep_draw(g: GameModel, seat: Seat, n: nat)
    ensures
        g.keeps(g.draw(seat, n)),
{
    keep_draw_n(g, seat, n);
    let (h, drawn) = g.draw_n(seat, n);
    lemma_emit(h, EventModel::Drew { seat, cards: drawn });
}

pub proof fn keep_priority(g: GameModel, seat: Seat)
    ensures
        g.keeps(g.give_priority(seat)),
        g.keeps(g.give_priority_to_active()),
{
    lemma_same_core(g, g.give_priority(seat));
    lemma_same_core(g, g.give_priority_to_active());
}

// ----- effects -----

pub proof fn keep_move_each(g: GameModel, ids: Seq<ObjectId>, from: Zone, to: Zone, n: nat)
    requires
        !(to is Stack),
        !(to is OutOfGame),
    ensures
        g.keeps(g.move_each(ids, from, to, n)),
    decreases n,
{
    if n > 0 && n <= ids.len() {
        keep_move_each(g, ids, from, to, (n - 1) as nat);
        lemma_move(g.move_each(ids, from, to, (n - 1) as nat), ids[n - 1], to);
    }
}

pub proof fn keep_counters_on(g: GameModel, id: ObjectId, kind: CounterKind, count: u8)
    ensures
        g.keeps(g.counters_on(id, kind, count)),
{
    let h = g.counters_on(id, kind, count);
    if g.in_zone(id, Zone::Battlefield) {
        let h0 = GameModel { log: g.log, ..h };
        lemma_same_places(g, h0);
        lemma_emit(
            h0,
            EventModel::CountersAdded { object: id, counter: kind.words(), count: count as i32 },
        );
    }
}

pub proof fn keep_with_pool(g: GameModel, seat: Seat, pool: ManaPool)
    ensures
        g.keeps(g.with_pool(seat, pool)),
{
    lemma_with_player(g, seat, PlayerModel { mana_pool: pool, ..g.player(seat) });
}

pub proof fn keep_add_mana(g: GameModel, seat: Seat, mana: Mana, amount: u8)
    ensures
        g.keeps(g.add_mana(seat, mana, amount)),
{
    let pool = g.pool(seat).plus(mana, amount);
    keep_with_pool(g, seat, pool);
    lemma_emit(g.with_pool(seat, pool), EventModel::ManaAdded { seat, mana, amount });
}

pub proof fn keep_turn_permanent(g: GameModel, id: ObjectId, tapped: bool)
    ensures
        g.keeps(g.turn_permanent(id, tapped)),
{
    let o = ObjectModel { tapped, ..g.obj(id) };
    lemma_with_obj(g, id, o);
    lemma_emit(g.with_obj(id, o), EventModel::Tapped { object: id });
    lemma_emit(g.with_obj(id, o), EventModel::Untapped { object: id });
}

pub proof fn keep_enter_under(g: GameModel, id: ObjectId, seat: Seat)
    requires
        !g.in_zone(id, Zone::Battlefield),
    ensures
        g.keeps(g.enter_under(id, seat)),
{
    reveal(GameModel::keeps);
    lemma_enter_under(g, id, seat, nobody());
}

pub proof fn keep_damage_each(g: GameModel, source: ObjectId, ts: Seq<Target>, amount: i32, n: nat)
    ensures
        g.keeps(g.damage_each(source, ts, amount, n)),
    decreases n,
{
    if n > 0 && n <= ts.len() {
        keep_damage_each(g, source, ts, amount, (n - 1) as nat);
        let p = g.damage_each(source, ts, amount, (n - 1) as nat);
        match ts[n - 1] {
            Target::Object(o) => {
                keep_deal_damage(p, source, DamageTarget::Object(o), amount, false);
            },
            Target::Player(s) => {
                keep_deal_damage(p, source, DamageTarget::Player(s), amount, false);
            },
        }
    }
}

pub proof fn keep_destroy_each(g: GameModel, ids: Seq<ObjectId>, n: nat)
    ensures
        g.keeps(g.destroy_each(ids, n)),
    decreases n,
{
    if n > 0 && n <= ids.len() {
        keep_destroy_each(g, ids, (n - 1) as nat);
        let p = g.destroy_each(ids, (n - 1) as nat);
        keep_destroy(p, ids[n - 1]);
    }
}

pub proof fn keep_draw_each(g: GameModel, seats: Seq<Seat>, count: nat, n: nat)
    ensures
        g.keeps(g.draw_each(seats, count, n)),
    decreases n,
{
    if n > 0 && n <= seats.len() {
        keep_draw_each(g, seats, count, (n - 1) as nat);
        let p = g.draw_each(seats, count, (n - 1) as nat);
        keep_draw(p, seats[n - 1], count);
    }
}

pub proof fn keep_gain_each(g: GameModel, seats: Seq<Seat>, amount: i32, n: nat)
    ensures
        g.keeps(g.gain_each(seats, amount, n)),
    decreases n,
{
    if n > 0 && n <= seats.len() {
        keep_gain_each(g, seats, amount, (n - 1) as nat);
        let p = g.gain_each(seats, amount, (n - 1) as nat);
        keep_gain_life(p, seats[n - 1], amount);
    }
}

pub proof fn keep_lose_each(g: GameModel, seats: Seq<Seat>, amount: i32, n: nat)
    ensures
        g.keeps(g.lose_each(seats, amount, n)),
    decreases n,
{
    if n > 0 && n <= seats.len() {
        keep_lose_each(g, seats, amount, (n - 1) as nat);
        let p = g.lose_each(seats, amount, (n - 1) as nat);
        keep_change_life(
            p,
            seats[n - 1],
            crate::types::sat_i32(p.life(seats[n - 1]) - amount),
        );
    }
}

pub proof fn keep_modify_each(g: GameModel, ids: Seq<ObjectId>, mods: Seq<Modifier>, n: nat)
    ensures
        g.keeps(g.modify_each(ids, mods, n)),
    decreases n,
{
    if n > 0 && n <= ids.len() {
        keep_modify_each(g, ids, mods, (n - 1) as nat);
        let p = g.modify_each(ids, mods, (n - 1) as nat);
        let o = p.obj(ids[n - 1]);
        lemma_with_obj(p, ids[n - 1], ObjectModel { modifiers: o.modifiers + mods, ..o });
    }
}

pub proof fn keep_counters_each(g: GameModel, ids: Seq<ObjectId>, kind: CounterKind, count: u8, n: nat)
    ensures
        g.keeps(g.counters_each(ids, kind, count, n)),
    decreases n,
{
    if n > 0 && n <= ids.len() {
        keep_counters_each(g, ids, kind, count, (n - 1) as nat);
        let p = g.counters_each(ids, kind, count, (n - 1) as nat);
        keep_counters_on(p, ids[n - 1], kind, count);
    }
}

pub proof fn keep_turn_each(g: GameModel, ids: Seq<ObjectId>, tapped: bool, n: nat)
    ensures
        g.keeps(g.turn_each(ids, tapped, n)),
    decreases n,
{
    if n > 0 && n <= ids.len() {
        keep_turn_each(g, ids, tapped, (n - 1) as nat);
        let p = g.turn_each(ids, tapped, (n - 1) as nat);
        keep_turn_permanent(p, ids[n - 1], tapped);
    }
}

pub proof fn keep_counter_each(g: GameModel, ids: Seq<ObjectId>, n: nat)
    ensures
        g.keeps(g.counter_each(ids, n)),
    decreases n,
{
    if n > 0 && n <= ids.len() {
        keep_counter_each(g, ids, (n - 1) as nat);
        let p = g.counter_each(ids, (n - 1) as nat);
        lemma_counter_spell(p, ids[n - 1]);
    }
}

pub proof fn keep_mill(g: GameModel, seat: Seat, n: nat)
    ensures
        g.keeps(g.mill(seat, n)),
    decreases n,
{
    if n > 0 {
        keep_mill(g, seat, (n - 1) as nat);
        let p = g.mill(seat, (n - 1) as nat);
        lemma_mill_one(p, seat);
    }
}

pub proof fn keep_mill_each(g: GameModel, seats: Seq<Seat>, count: nat, n: nat)
    ensures
        g.keeps(g.mill_each(seats, count, n)),
    decreases n,
{
    if n > 0 && n <= seats.len() {
        keep_mill_each(g, seats, count, (n - 1) as nat);
        let p = g.mill_each(seats, count, (n - 1) as nat);
        keep_mill(p, seats[n - 1], count);
    }
}

pub proof fn keep_reanimate_each(g: GameModel, ids: Seq<ObjectId>, you: Seat, n: nat)
    ensures
        g.keeps(g.reanimate_each(ids, you, n)),
    decreases n,
{
    if n > 0 && n <= ids.len() {
        keep_reanimate_each(g, ids, you, (n - 1) as nat);
        let p = g.reanimate_each(ids, you, (n - 1) as nat);
        if p.in_zone(ids[n - 1], Zone::Graveyard) {
            keep_enter_under(p, ids[n - 1], you);
        }
    }
}

pub proof fn keep_apply_effect(g: GameModel, ctx: CtxModel, e: Effect)
    ensures
        g.keeps(g.apply_effect(ctx, e)),
{
    reveal(GameModel::apply_effect);
    match e {
        Effect::DealDamage { amount, to } => {
            let ts = g.refs_of(to, ctx);
            if ctx.this is Some {
                keep_damage_each(g, ctx.this->0, ts, g.amount(amount, ctx), ts.len());
            }
        },
        Effect::Destroy { target } => {
            let ids = g.objects_of(target, ctx);
            keep_destroy_each(g, ids, ids.len());
        },
        Effect::Exile { target } => {
            let ids = g.objects_of(target, ctx);
            keep_move_each(g, ids, Zone::Battlefield, Zone::Exile, ids.len());
        },
        Effect::Draw { player, count } => {
            let seats = g.players_of(player, ctx);
            keep_draw_each(
                g,
                seats,
                crate::interp::at_least_zero(g.amount(count, ctx)),
                seats.len(),
            );
        },
        Effect::GainLife { player, amount } => {
            let seats = g.players_of(player, ctx);
            keep_gain_each(g, seats, g.amount(amount, ctx), seats.len());
        },
        Effect::LoseLife { player, amount } => {
            let seats = g.players_of(player, ctx);
            keep_lose_each(g, seats, g.amount(amount, ctx), seats.len());
        },
        Effect::ModifyPt { target, power, toughness, keywords, until } => {
            let ids = g.objects_of(target, ctx);
            let expires = Expiry::of(until, ctx.you);
            let pt = Modifier {
                kind: ModifierKind::Pt {
                    power: g.amount(power, ctx),
                    toughness: g.amount(toughness, ctx),
                },
                expires,
            };
            let mods = seq![pt] + crate::interp::keyword_modifiers(keywords@, expires);
            keep_modify_each(g, ids, mods, ids.len());
        },
        Effect::GrantKeyword { target, keyword, until } => {
            let ids = g.objects_of(target, ctx);
            let m = Modifier {
                kind: ModifierKind::Keyword(keyword),
                expires: Expiry::of(until, ctx.you),
            };
            keep_modify_each(g, ids, seq![m], ids.len());
        },
        Effect::CreateToken { spec, count } => {
            keep_create_tokens(
                g,
                ctx.you,
                &*spec,
                crate::interp::at_least_zero(g.amount(count, ctx)),
            );
        },
        Effect::AddCounters { target, kind, count } => {
            let ids = g.objects_of(target, ctx);
            keep_counters_each(
                g,
                ids,
                kind,
                crate::types::sat_u8(g.amount(count, ctx) as int),
                ids.len(),
            );
        },
        Effect::AddMana { color, amount } => {
            keep_add_mana(
                g,
                ctx.you,
                crate::interp::mana_kind(color),
                crate::types::sat_u8(g.amount(amount, ctx) as int),
            );
        },
        Effect::Tap { target } => {
            let ids = g.objects_of(target, ctx);
            keep_turn_each(g, ids, true, ids.len());
        },
        Effect::Untap { target } => {
            let ids = g.objects_of(target, ctx);
            keep_turn_each(g, ids, false, ids.len());
        },
        Effect::ReturnToHand { target } => {
            let ids = g.objects_of(target, ctx);
            keep_move_each(g, ids, Zone::Battlefield, Zone::Hand, ids.len());
        },
        Effect::CounterSpell { target } => {
            let ids = g.objects_of(target, ctx);
            keep_counter_each(g, ids, ids.len());
        },
        Effect::Mill { player, count } => {
            let seats = g.players_of(player, ctx);
            keep_mill_each(
                g,
                seats,
                crate::interp::at_least_zero(g.amount(count, ctx)),
                seats.len(),
            );
        },
        Effect::ReturnFromGraveyard { target, zone } => {
            let ids = g.objects_of(target, ctx);
            keep_move_each(g, ids, Zone::Graveyard, Zone::Hand, ids.len());
            keep_reanimate_each(g, ids, ctx.you, ids.len());
        },
        _ => {},
    }
}

// ----- resolution -----

pub proof fn keep_sacrifice_each(g: GameModel, seat: Seat, ids: Seq<ObjectId>, n: nat)
    ensures
        g.keeps(g.sacrifice_each(seat, ids, n)),
    decreases n,
{
    if n > 0 && n <= ids.len() {
        keep_sacrifice_each(g, seat, ids, (n - 1) as nat);
        let p = g.sacrifice_each(seat, ids, (n - 1) as nat);
        keep_sacrifice(p, seat, ids[n - 1]);
    }
}

pub proof fn keep_discard_at_random(g: GameModel, seat: Seat, count: nat)
    ensures
        g.keeps(g.discard_at_random(seat, count)),
{
    let hand = g.hand(seat);
    let g1 = GameModel { dice: g.dice.after_shuffle(hand), ..g };
    lemma_same_core(g, g1);
    keep_discard(g1, seat, crate::stack::first_of(g.dice.shuffled(hand), count));
}

pub proof fn keep_frame_question(g: GameModel, f: FrameModel, k: ContModel)
    ensures
        g.keeps(g.frame_question(f, k)),
{
    lemma_same_core(g, g.frame_question(f, k));
}

pub proof fn keep_frame_game(g: GameModel, f: FrameModel, ctx: CtxModel)
    ensures
        g.keeps(g.frame_game(f, ctx)),
{
    match f {
        FrameModel::Effects { effects, next } => {
            if next < effects.len() {
                keep_apply_effect(g, ctx, effects[next as int]);
            }
        },
        FrameModel::Discard { seats, count, random } => {
            if seats.len() > 0 && count > 0 {
                keep_discard_at_random(g, seats[0], count as nat);
            }
        },
        FrameModel::SacrificeBound { seat, bind } => {
            let ids = crate::stack::bound_ids(ctx, bind);
            keep_sacrifice_each(g, seat, ids, ids.len());
        },
        FrameModel::DiscardBound { seat, bind } => {
            keep_discard(g, seat, crate::stack::bound_ids(ctx, bind));
        },
        _ => {},
    }
}

pub proof fn keep_run(g: GameModel, k: ContModel)
    ensures
        g.keeps(g.run(k).0),
    decreases
            crate::stack::total_weight(k.frames, k.frames.len()),
            crate::stack::total_rank(k.frames, k.frames.len()),
{
    if k.frames.len() > 0 {
        let f = k.frames.last();
        if g.frame_asks(f) {
            keep_frame_question(g, f, ContModel { frames: k.frames.drop_last(), ..k });
        } else {
            crate::stack::lemma_frame_decreases(g, k);
            keep_frame_game(g, f, k.ctx);
            keep_run(g.frame_game(f, k.ctx), g.after_frame(k));
        }
    }
}

pub proof fn keep_resume(g: GameModel, k: ContModel)
    ensures
        g.keeps(g.resume(k)),
{
    keep_run(g, k);
    keep_priority(g.run(k).0, g.active_player);
}

pub proof fn keep_answer_choice(g: GameModel, targets: Seq<Target>)
    ensures
        g.keeps(g.answer_choice(targets)),
{
    reveal(GameModel::answer_choice);
    match g.pending {
        Some(PendingModel::Choose { bind, resume, .. }) => {
            let g1 = GameModel { pending: None, ..g };
            lemma_same_core(g, g1);
            keep_resume(g1, ContModel { ctx: resume.ctx.binding(bind, targets), ..resume });
        },
        _ => {},
    }
}

pub proof fn keep_answer_option(g: GameModel, mode: u8)
    ensures
        g.keeps(g.answer_option(mode)),
{
    reveal(GameModel::answer_option);
    match g.pending {
        Some(PendingModel::ChooseOption { bind, resume, .. }) => {
            let g1 = GameModel { pending: None, ..g };
            lemma_same_core(g, g1);
            keep_resume(g1, ContModel { ctx: resume.ctx.opting(bind, mode), ..resume });
        },
        _ => {},
    }
}

impl GameModel {
    /// What resolving an entry just taken off the stack relies on: if it is a
    /// spell, its object waits in that zone; nothing else is out of place.
    pub open spec fn ready_for(self, so: StackModel) -> bool {
        if so.kind is Spell {
            self.sound_but(so.object) && self.in_zone(so.object, Zone::Stack) && self.has_seat(
                so.controller,
            ) && self.has_def(so.object)
        } else {
            self.sound()
        }
    }
}

/// A resolving instant or sorcery leaves the stack.
proof fn keep_spell_leaves(g: GameModel, object: ObjectId)
    ensures
        g.leads_to(g.spell_leaves(object)),
        g.spell_leaves(object).outcome == g.outcome,
        g.sound_but(object) ==> g.spell_leaves(object).sound(),
{
    let g1 = g.move_object(object, Zone::Graveyard);
    lemma_move_leads(g, object, Zone::Graveyard);
    lemma_emit(g1, EventModel::Resolved { object });
    reveal(GameModel::keeps);
    lemma_leads_on(g, g1, g.spell_leaves(object));
    if g.sound_but(object) {
        lemma_move_sound(g, object, Zone::Graveyard, object);
    }
}

proof fn keep_spell_enters(g: GameModel, object: ObjectId, controller: Seat, targets: Seq<Target>)
    ensures
        g.leads_to(g.spell_enters(object, controller, targets)),
        g.spell_enters(object, controller, targets).outcome == g.outcome,
        g.sound_but(object) && g.has_seat(controller) && !g.in_zone(object, Zone::Battlefield)
            ==> g.spell_enters(
            object,
            controller,
            targets,
        ).sound(),
{
    let h = g.spell_enters(object, controller, targets);
    let g1 = g.enter_under(object, controller);
    lemma_enter_under(g, object, controller, object);
    assert(g1.keeps(h)) by {
        if g.def(object).aura() && targets.len() > 0 && targets[0] is Object {
            let to = targets[0]->Object_0;
            let o = ObjectModel { attached_to: Some(to), ..g1.obj(object) };
            lemma_with_obj(g1, object, o);
            let g2 = g1.with_obj(object, o);
            let e: EventFacts = EventModel::Attached { object, to };
            lemma_emit(g2, e);
            lemma_emit(g2.emit(e), EventModel::Resolved { object });
        } else {
            lemma_emit(g1, EventModel::Resolved { object });
        }
    }
    reveal(GameModel::keeps);
    lemma_leads_on(g, g1, h);
}

proof fn keep_resolve_spell(g: GameModel, so: StackModel)
    requires
        so.kind is Spell,
    ensures
        g.leads_to(g.resolve_spell(so).0),
        g.resolve_spell(so).0.outcome == g.outcome,
        g.ready_for(so) ==> g.resolve_spell(so).0.sound(),
{
    let h = g.resolve_spell(so).0;
    if g.has_def(so.object) {
        let def = g.def(so.object);
        let specs = def.cast_specs(so.modes);
        let ctx = GameModel::resolving_ctx(so, so.object, specs, None);
        let kept = g.pruned(specs, ctx.targets, ctx);
        let g1 = g.spell_leaves(so.object);
        keep_spell_leaves(g, so.object);
        keep_spell_enters(g, so.object, so.controller, so.targets);
        if !crate::resolve::fizzles(specs, so.targets, kept) && !def.permanent() {
            assert(g1.keeps(h)) by {
                let now = CtxModel { targets: kept, ..ctx };
                match def.spell {
                    Some(s) => {
                        if def.modal() {
                            keep_run(
                                g1,
                                ContModel {
                                    ctx: now,
                                    specs,
                                    frames: crate::resolve::mode_work(
                                        s.modes@,
                                        so.modes,
                                        kept,
                                        so.modes.len(),
                                    ).reverse(),
                                },
                            );
                        } else {
                            keep_run(g1, ContModel::fresh(now, specs, s.effects@));
                        }
                    },
                    None => {},
                }
            }
            reveal(GameModel::keeps);
            lemma_leads_on(g, g1, h);
        }
    } else {
        lemma_leads_self(g);
    }
}

proof fn keep_resolve_effects(
    g: GameModel,
    so: StackModel,
    source: ObjectId,
    specs: Seq<Filter>,
    effects: Seq<Effect>,
    triggering: Option<Target>,
)
    ensures
        g.keeps(g.resolve_effects(so, source, specs, effects, triggering).0),
{
    let ctx = GameModel::resolving_ctx(so, source, specs, triggering);
    let kept = g.pruned(specs, ctx.targets, ctx);
    keep_run(g, ContModel::fresh(CtxModel { targets: kept, ..ctx }, specs, effects));
}

proof fn keep_resolve_equip(g: GameModel, so: StackModel, source: ObjectId)
    ensures
        g.keeps(g.resolve_equip(so, source)),
{
    if so.targets.len() > 0 && so.targets[0] is Object {
        let to = so.targets[0]->Object_0;
        let o = ObjectModel { attached_to: Some(to), ..g.obj(source) };
        lemma_with_obj(g, source, o);
        lemma_emit(g.with_obj(source, o), EventModel::Attached { object: source, to });
    }
}

proof fn keep_resolve_prowess(g: GameModel, source: ObjectId)
    ensures
        g.keeps(g.resolve_prowess(source)),
{
    lemma_same_places(g, g.resolve_prowess(source));
}

/// Resolving an entry puts everything where it belongs.
pub proof fn keep_resolve(g: GameModel, so: StackModel)
    ensures
        g.leads_to(g.resolve(so).0),
        g.resolve(so).0.outcome == g.outcome,
        g.ready_for(so) ==> g.resolve(so).0.sound(),
{
    match so.kind {
        KindModel::Spell => {
            keep_resolve_spell(g, so);
        },
        _ => {
            assert(g.keeps(g.resolve(so).0)) by {
                match so.kind {
                    KindModel::Spell => {},
                    KindModel::Ability { source, index } => {
                        if g.has_def(source) && index < g.def(source).activated.len() {
                            let a = g.def(source).activated[index as int];
                            keep_resolve_effects(g, so, source, a.targets@, a.effects@, None);
                        }
                    },
                    KindModel::Equip { source } => {
                        keep_resolve_equip(g, so, source);
                    },
                    KindModel::Trigger { source, index, triggering } => {
                        if g.has_def(source) && index < g.def(source).triggers.len() {
                            let t = g.def(source).triggers[index as int];
                            keep_resolve_effects(g, so, source, t.targets@, t.effects@, triggering);
                        }
                    },
                    KindModel::Prowess { source } => {
                        keep_resolve_prowess(g, source);
                    },
                    KindModel::Delayed { effects, ctx, .. } => {
                        keep_run(g, ContModel::fresh(ctx, Seq::empty(), effects));
                    },
                }
            }
            reveal(GameModel::keeps);
        },
    }
}

// ----- paying, casting, activating -----

pub proof fn keep_tap_all(g: GameModel, ids: Seq<ObjectId>, n: nat)
    ensures
        g.keeps(g.tap_all(ids, n)),
    decreases n,
{
    if n > 0 && n <= ids.len() {
        keep_tap_all(g, ids, (n - 1) as nat);
        let p = g.tap_all(ids, (n - 1) as nat);
        let id = ids[n - 1];
        let o = ObjectModel { tapped: true, ..p.obj(id) };
        lemma_with_obj(p, id, o);
        lemma_emit(p.with_obj(id, o), EventModel::Tapped { object: id });
    }
}

pub proof fn keep_pay(
    g: GameModel,
    seat: Seat,
    payment: crate::action::PaymentModel,
    cost: ManaCost,
    paying: Seq<Mana>,
)
    ensures
        g.keeps(g.pay(seat, payment, cost, paying)),
{
    let left = match crate::mana::spend_pool(
        g.pool(seat),
        payment.from_pool,
        seat,
        payment.from_pool.len(),
    ) {
        Ok(p) => p,
        Err(_) => g.pool(seat),
    };
    let rest = crate::mana::surplus(paying, cost);
    let g1 = g.with_pool(seat, left);
    let g2 = g1.tap_all(payment.tap, payment.tap.len());
    keep_with_pool(g, seat, left);
    keep_tap_all(g1, payment.tap, payment.tap.len());
    keep_with_pool(g2, seat, crate::mana::add_units(left, rest, rest.len()));
}

pub proof fn keep_pay_checked(
    g: GameModel,
    seat: Seat,
    payment: crate::action::PaymentModel,
    cost: ManaCost,
)
    ensures
        g.pay_checked(seat, payment, cost) matches Ok(h) ==> g.keeps(h),
{
    match g.covering(seat, payment, cost) {
        Ok(paying) => {
            keep_pay(g, seat, payment, cost, paying);
        },
        Err(_) => {},
    }
}

/// A cast that moves along is still that cast, or done.
pub proof fn keep_advance_casting(g: GameModel)
    ensures
        g.leads_to(g.advance_casting()),
        g.advance_casting().outcome == g.outcome,
        g.sound() && g.casts_its_own() ==> g.advance_casting().sound()
            && g.advance_casting().casts_its_own(),
    decreases g.specs_left(),
{
    lemma_leads_self(g);
    match g.pending {
        Some(PendingModel::Casting { seat, object, modes, modes_done, targets, spec, x }) => {
            let def = g.def(object);
            let specs = def.cast_specs(modes);
            if !g.has_def(object) || !def.modes_complete(modes.len(), modes_done) {
            } else if spec >= specs.len() {
                let g1 = GameModel { pending: None, ..g };
                lemma_same_core(g, g1);
                lemma_put_on_stack(g1, seat, object, modes, targets, x);
                reveal(GameModel::keeps);
                lemma_leads_on(g, g1, g.advance_casting());
            } else if specs[spec as int].least() == 0 && g.targets_for(
                specs[spec as int].inner(),
                CtxModel::simple(seat, Some(object)),
            ).len() == 0 {
                let g1 = GameModel {
                    pending: Some(
                        PendingModel::Casting {
                            seat,
                            object,
                            modes,
                            modes_done,
                            targets,
                            spec: spec + 1,
                            x,
                        },
                    ),
                    ..g
                };
                lemma_same_core(g, g1);
                keep_advance_casting(g1);
                reveal(GameModel::keeps);
                lemma_leads_on(g, g1, g.advance_casting());
            }
        },
        _ => {},
    }
}

/// A cast moves along with another step taken.
proof fn keep_casting_step(g: GameModel, p: Option<PendingModel>)
    requires
        (GameModel { pending: p, ..g }).casting() == g.casting(),
    ensures
        ({
            let h = (GameModel { pending: p, ..g }).advance_casting();
            g.leads_to(h) && h.outcome == g.outcome && (g.sound() && g.casts_its_own()
                ==> h.sound() && h.casts_its_own())
        }),
{
    let g1 = GameModel { pending: p, ..g };
    lemma_same_core(g, g1);
    keep_advance_casting(g1);
    reveal(GameModel::keeps);
    lemma_leads_on(g, g1, g1.advance_casting());
}

/// Paying leaves every card where it is.
proof fn lemma_paid_places(g: GameModel, ids: Seq<ObjectId>, n: nat)
    ensures
        g.tap_all(ids, n).objects.len() == g.objects.len(),
        g.tap_all(ids, n).pending == g.pending,
        forall|id: ObjectId|
            #![trigger g.tap_all(ids, n).obj(id)]
            g.has_obj(id) ==> g.tap_all(ids, n).obj(id).owner == g.obj(id).owner
                && g.tap_all(ids, n).obj(id).zone == g.obj(id).zone,
    decreases n,
{
    if n > 0 && n <= ids.len() {
        lemma_paid_places(g, ids, (n - 1) as nat);
        let a = g.tap_all(ids, (n - 1) as nat);
        let h = g.tap_all(ids, n);
        assert forall|id: ObjectId| #![trigger h.obj(id)] g.has_obj(id) implies h.obj(id).owner
            == g.obj(id).owner && h.obj(id).zone == g.obj(id).zone by {
            assert(a.obj(id).owner == g.obj(id).owner);
        }
    }
}

pub proof fn keep_cast_spell(
    g: GameModel,
    seat: Seat,
    object: ObjectId,
    targets: Seq<Target>,
    payment: crate::action::PaymentModel,
)
    ensures
        g.cast_spell(seat, object, targets, payment) matches Ok(h) ==> g.follows(h) && h.outcome
            == g.outcome && (g.sound() && g.pending is None && g.may_cast(seat, object)
            ==> h.sound() && h.casts_its_own()),
{
    reveal(GameModel::cast_spell);
    let cost = g.cast_cost(seat, object).announced(payment.x);
    keep_pay_checked(g, seat, payment, cost);
    match g.pay_checked(seat, payment, cost) {
        Ok(g1) => {
            let p = PendingModel::Casting {
                seat,
                object,
                modes: Seq::empty(),
                modes_done: false,
                targets: Seq::empty(),
                spec: 0,
                x: payment.x,
            };
            let g2 = GameModel { pending: Some(p), priority: None, ..g1 };
            let h = g2.advance_casting();
            let k = g1.put_on_stack(seat, object, Seq::empty(), targets, payment.x);
            keep_advance_casting(g2);
            lemma_put_on_stack(g1, seat, object, Seq::empty(), targets, payment.x);
            reveal(GameModel::keeps);
            reveal(GameModel::leads_to);
            assert(g1.follows(g2)) by {
                let g3 = GameModel { pending: None, priority: None, ..g1 };
                lemma_same_core(g1, g3);
                reveal(GameModel::follows);
                reveal(GameModel::log_grows);
                reveal(GameModel::players_stay);
                reveal(GameModel::objects_stay);
                reveal(GameModel::lives_are_told);
                reveal(GameModel::gone_for_a_reason);
            }
            lemma_follows_on(g, g1, g2);
            lemma_follows_on(g, g2, h);
            lemma_follows_on(g, g1, k);
            if g.sound() && g.pending is None && g.may_cast(seat, object) {
                crate::sound::lemma_sound_same(g1, g2, nobody());
                assert(g1.may_cast(seat, object) && g1.pending is None) by {
                    let left = match crate::mana::spend_pool(
                        g.pool(seat),
                        payment.from_pool,
                        seat,
                        payment.from_pool.len(),
                    ) {
                        Ok(p) => p,
                        Err(_) => g.pool(seat),
                    };
                    let a = g.with_pool(seat, left);
                    let b = a.tap_all(payment.tap, payment.tap.len());
                    lemma_paid_places(a, payment.tap, payment.tap.len());
                    assert(a.obj(object) == g.obj(object));
                    assert(b.obj(object).zone == a.obj(object).zone);
                    assert(g1.objects == b.objects);
                }
            }
        },
        Err(_) => {},
    }
}

pub proof fn keep_answer_cast(g: GameModel, mode: u8, chosen: Seq<Target>)
    ensures
        g.leads_to(g.answer_cast_mode(mode)),
        g.answer_cast_mode(mode).outcome == g.outcome,
        g.sound() && g.casts_its_own() ==> g.answer_cast_mode(mode).sound() && g.answer_cast_mode(
            mode,
        ).casts_its_own(),
        g.leads_to(g.answer_cast_targets(chosen)),
        g.answer_cast_targets(chosen).outcome == g.outcome,
        g.sound() && g.casts_its_own() ==> g.answer_cast_targets(chosen).sound()
            && g.answer_cast_targets(chosen).casts_its_own(),
{
    lemma_leads_self(g);
    reveal(GameModel::answer_cast_mode);
    reveal(GameModel::answer_cast_targets);
    match g.pending {
        Some(PendingModel::Casting { seat, object, modes, modes_done, targets, spec, x }) => {
            let no_more = crate::casting::NO_MORE_MODES;
            keep_casting_step(
                g,
                Some(
                    PendingModel::Casting {
                        seat,
                        object,
                        modes: if mode == no_more {
                            modes
                        } else {
                            modes.push(mode)
                        },
                        modes_done: modes_done || mode == no_more,
                        targets,
                        spec,
                        x,
                    },
                ),
            );
            keep_casting_step(
                g,
                Some(
                    PendingModel::Casting {
                        seat,
                        object,
                        modes,
                        modes_done,
                        targets: targets + chosen,
                        spec: spec + 1,
                        x,
                    },
                ),
            );
        },
        _ => {},
    }
}

pub proof fn keep_discard_upto(g: GameModel, seat: Seat, ids: Seq<ObjectId>, most: i32, n: nat)
    ensures
        g.keeps(g.discard_upto(seat, ids, most, n).0),
    decreases n,
{
    if n > 0 && n <= ids.len() {
        keep_discard_upto(g, seat, ids, most, (n - 1) as nat);
        lemma_move(
            g.discard_upto(seat, ids, most, (n - 1) as nat).0,
            ids[n - 1],
            Zone::Graveyard,
        );
    }
}

pub proof fn keep_pay_cost(
    g: GameModel,
    seat: Seat,
    object: ObjectId,
    payment: crate::action::PaymentModel,
    cost: Cost,
)
    ensures
        g.pay_cost(seat, object, payment, cost) matches Ok(h) ==> g.keeps(h),
{
    match cost {
        Cost::Mana(m) => {
            keep_pay_checked(g, seat, payment, m.announced(payment.x));
        },
        Cost::Tap => {
            let o = ObjectModel { tapped: true, ..g.obj(object) };
            lemma_with_obj(g, object, o);
            lemma_emit(g.with_obj(object, o), EventModel::Tapped { object });
        },
        Cost::SacrificeThis => {
            keep_sacrifice(g, seat, object);
        },
        Cost::Sacrifice(filter) => {
            match g.first_sacrifice(payment.sacrifice, seat, object, filter, 0) {
                Some(id) => {
                    keep_sacrifice(g, seat, id);
                },
                None => {},
            }
        },
        Cost::PayLife(n) => {
            keep_change_life(g, seat, crate::types::sat_i32(g.life(seat) - n));
        },
        Cost::Discard(n) => {
            let h = g.discard_upto(seat, payment.discard, n, payment.discard.len()).0;
            keep_discard_upto(g, seat, payment.discard, n, payment.discard.len());
            lemma_emit(h, EventModel::Discarded { seat, objects: payment.discard });
        },
    }
}

pub proof fn keep_pay_costs(
    g: GameModel,
    seat: Seat,
    object: ObjectId,
    payment: crate::action::PaymentModel,
    costs: Seq<Cost>,
    n: nat,
)
    ensures
        g.pay_costs(seat, object, payment, costs, n) matches Ok(h) ==> g.keeps(h),
    decreases n,
{
    if n > 0 && n <= costs.len() {
        keep_pay_costs(g, seat, object, payment, costs, (n - 1) as nat);
        match g.pay_costs(seat, object, payment, costs, (n - 1) as nat) {
            Ok(h) => {
                keep_pay_cost(h, seat, object, payment, costs[n - 1]);
            },
            Err(_) => {},
        }
    }
}

pub proof fn keep_put_ability(
    g: GameModel,
    seat: Seat,
    object: ObjectId,
    ability: u8,
    targets: Seq<Target>,
    x: u32,
)
    ensures
        g.keeps(g.put_ability(seat, object, ability, targets, x)),
{
    let kind = if ability == crate::action::EQUIP_ABILITY {
        KindModel::Equip { source: object }
    } else {
        KindModel::Ability { source: object, index: ability }
    };
    let e = StackModel { object, controller: seat, targets, kind, modes: Seq::empty(), x };
    let g1 = g.restacked(g.stack.push(e));
    lemma_push_entry(g, e);
    let told: EventFacts = EventModel::Activated { seat, object, ability, targets };
    lemma_emit(g1, told);
    keep_priority(g1.emit(told), seat);
}

pub proof fn keep_activate_ability(
    g: GameModel,
    seat: Seat,
    object: ObjectId,
    ability: u8,
    targets: Seq<Target>,
    payment: crate::action::PaymentModel,
)
    ensures
        g.activate_ability(seat, object, ability, targets, payment) matches Ok(h) ==> g.keeps(h),
{
    reveal(GameModel::activate_ability);
    if ability == crate::action::EQUIP_ABILITY {
        if g.has_def(object) && g.def(object).equip is Some {
            let cost = g.def(object).equip->0.announced(payment.x);
            keep_pay_checked(g, seat, payment, cost);
            match g.pay_checked(seat, payment, cost) {
                Ok(g1) => {
                    keep_put_ability(g1, seat, object, ability, targets, payment.x);
                },
                Err(_) => {},
            }
        }
    } else if g.has_def(object) && ability < g.def(object).activated.len() {
        let costs = g.def(object).activated[ability as int].cost@;
        keep_pay_costs(g, seat, object, payment, costs, costs.len());
        match g.pay_costs(seat, object, payment, costs, costs.len()) {
            Ok(g1) => {
                keep_put_ability(g1, seat, object, ability, targets, payment.x);
            },
            Err(_) => {},
        }
    }
}

// ----- triggers -----

pub proof fn keep_fire(g: GameModel, o: crate::triggers::Occurred)
    ensures
        g.keeps(g.fire(o)),
{
    lemma_same_core(g, g.fire(o));
}

pub proof fn keep_fire_all(g: GameModel, os: Seq<crate::triggers::Occurred>, n: nat)
    ensures
        g.keeps(g.fire_all(os, n)),
    decreases n,
{
    if n > 0 && n <= os.len() {
        keep_fire_all(g, os, (n - 1) as nat);
        let p = g.fire_all(os, (n - 1) as nat);
        keep_fire(p, os[n - 1]);
    }
}

pub proof fn keep_triggers_for_event(g: GameModel, e: EventFacts)
    ensures
        g.keeps(g.triggers_for_event(e)),
{
    let before = match e {
        EventModel::Cast { seat, object, .. } => g.fire_prowess(seat, object),
        _ => g,
    };
    lemma_same_core(g, before);
    let os = crate::triggers::happened(e, g.active_player);
    keep_fire_all(before, os, os.len());
    let h = before.fire_all(os, os.len());
    lemma_same_core(h, h.fire_delayed(DelayedAt::NextEndStep));
}

pub proof fn keep_triggers_between(g: GameModel, log: Seq<EventFacts>, from: nat, n: nat)
    ensures
        g.keeps(g.triggers_between(log, from, n)),
    decreases n,
{
    if n > from && n <= log.len() {
        keep_triggers_between(g, log, from, (n - 1) as nat);
        keep_triggers_for_event(g.triggers_between(log, from, (n - 1) as nat), log[n - 1]);
    }
}

pub proof fn keep_collect_triggers(g: GameModel)
    ensures
        g.keeps(g.collect_triggers()),
{
    let g1 = GameModel { trigger_cursor: g.log.len(), ..g };
    lemma_same_core(g, g1);
    keep_triggers_between(g1, g.log, g.trigger_cursor, g.log.len());
}

pub proof fn keep_push_trigger(g: GameModel, f: FiredModel, targets: Seq<Target>)
    ensures
        g.keeps(g.push_trigger(f, targets)),
{
    let h = g.push_trigger(f, targets);
    let e = h.stack.last();
    let g1 = g.restacked(g.stack.push(e));
    assert(h.stack =~= g.stack.push(e));
    lemma_push_entry(g, e);
    lemma_emit(g1, h.log.last());
    assert(h == g1.emit(h.log.last()));
}

pub proof fn keep_place_line(g: GameModel, line: Seq<FiredModel>, i: nat)
    ensures
        g.keeps(g.place_line(line, i).0),
    decreases line.len() - i,
{
    if i < line.len() {
        let f = line[i as int];
        let specs = g.trigger_specs(f);
        let ctx = CtxModel::fresh(f.controller, Some(f.source), Seq::empty(), f.triggering);
        if specs.len() == 0 {
            keep_push_trigger(g, f, Seq::empty());
            keep_place_line(g.push_trigger(f, Seq::empty()), line, i + 1);
        } else if !g.all_targetable(specs, ctx) {
            keep_place_line(g, line, i + 1);
        } else {
            lemma_same_core(g, g.place_line(line, i).0);
        }
    }
}

pub proof fn keep_place_triggers(g: GameModel)
    ensures
        g.keeps(g.place_triggers().0),
{
    if g.fired.len() > 0 {
        let line = g.line_up(g.apnap(), g.fired, g.fired.len());
        let g1 = GameModel { fired: Seq::empty(), ..g };
        lemma_same_core(g, g1);
        keep_place_line(g1, line, 0);
    }
}

pub proof fn keep_choose_trigger_targets(g: GameModel, targets: Seq<Target>)
    ensures
        g.keeps(g.choose_trigger_targets(targets)),
{
    reveal(GameModel::choose_trigger_targets);
    let g0 = GameModel { pending: None, ..g };
    lemma_same_core(g, g0);
    let g1 = match g.pending {
        Some(PendingModel::ChooseTargets { trigger, .. }) => {
            keep_push_trigger(g0, trigger, targets);
            g0.push_trigger(trigger, targets)
        },
        _ => g0,
    };
    keep_place_triggers(g1);
    keep_priority(g1.place_triggers().0, g.active_player);
}

// ----- combat -----

pub proof fn keep_attack_with(g: GameModel, id: ObjectId, target: AttackTarget)
    ensures
        g.keeps(g.attack_with(id, target)),
{
    if g.has_obj(id) {
        let h = g.attack_with(id, target);
        let h0 = GameModel { log: g.log, ..h };
        lemma_same_places(g, h0);
        lemma_emit(h0, EventModel::Tapped { object: id });
    }
}

pub proof fn keep_attack_all(g: GameModel, attackers: Seq<(ObjectId, AttackTarget)>, n: nat)
    ensures
        g.keeps(g.attack_all(attackers, n)),
    decreases n,
{
    if n > 0 && n <= attackers.len() {
        keep_attack_all(g, attackers, (n - 1) as nat);
        let p = g.attack_all(attackers, (n - 1) as nat);
        keep_attack_with(p, attackers[n - 1].0, attackers[n - 1].1);
    }
}

pub proof fn keep_declare_attackers(
    g: GameModel,
    seat: Seat,
    attackers: Seq<(ObjectId, AttackTarget)>,
)
    ensures
        g.keeps(g.declare_attackers(seat, attackers)),
{
    reveal(GameModel::declare_attackers);
    let g1 = g.attack_all(attackers, attackers.len());
    let e: EventFacts = EventModel::Attacked { seat, attackers };
    let g2 = GameModel { pending: None, ..g1.emit(e) };
    keep_attack_all(g, attackers, attackers.len());
    lemma_emit(g1, e);
    lemma_same_core(g1.emit(e), g2);
    keep_priority(g2, seat);
}

pub proof fn keep_block_with(g: GameModel, blocker: ObjectId, attacker: ObjectId)
    ensures
        g.keeps(g.block_with(blocker, attacker)),
{
    let b = g.obj(blocker);
    let now = ObjectModel { blocking: b.blocking.push(attacker), ..b };
    let g1 = g.with_obj(blocker, now);
    lemma_with_obj(g, blocker, now);
    let a = g1.obj(attacker);
    lemma_with_obj(
        g1,
        attacker,
        ObjectModel { blocked: true, blocked_by: a.blocked_by.push(blocker), ..a },
    );
}

pub proof fn keep_block_all(g: GameModel, blocks: Seq<(ObjectId, ObjectId)>, n: nat)
    ensures
        g.keeps(g.block_all(blocks, n)),
    decreases n,
{
    if n > 0 && n <= blocks.len() {
        keep_block_all(g, blocks, (n - 1) as nat);
        let p = g.block_all(blocks, (n - 1) as nat);
        keep_block_with(p, blocks[n - 1].0, blocks[n - 1].1);
    }
}

pub proof fn keep_continue_blockers(g: GameModel, remaining: Seq<Seat>)
    ensures
        g.keeps(g.continue_blockers(remaining)),
{
    lemma_same_core(g, g.continue_blockers(remaining));
}

pub proof fn keep_declare_blockers(g: GameModel, seat: Seat, blocks: Seq<(ObjectId, ObjectId)>)
    ensures
        g.keeps(g.declare_blockers(seat, blocks)),
{
    reveal(GameModel::declare_blockers);
    let g1 = g.block_all(blocks, blocks.len());
    let e: EventFacts = EventModel::Blocked { seat, blocks };
    let g2 = g1.emit(e);
    let g3 = GameModel { pending: None, ..g2 };
    keep_block_all(g, blocks, blocks.len());
    lemma_emit(g1, e);
    lemma_same_core(g2, g3);
    let remaining = match g2.pending {
        Some(PendingModel::DeclareBlockers { remaining, .. }) => remaining,
        _ => Seq::empty(),
    };
    keep_continue_blockers(g3, remaining);
}

pub proof fn keep_deal_packets(g: GameModel, packets: Seq<(ObjectId, DamageTarget, i32)>, n: nat)
    ensures
        g.keeps(g.deal_packets(packets, n)),
    decreases n,
{
    if n > 0 && n <= packets.len() {
        keep_deal_packets(g, packets, (n - 1) as nat);
        let p = g.deal_packets(packets, (n - 1) as nat);
        let (source, to, amount) = packets[n - 1];
        keep_deal_damage(p, source, to, amount, true);
    }
}

pub proof fn keep_continue_damage_assignment(g: GameModel, queue: Seq<ObjectId>, first: bool)
    ensures
        g.keeps(g.continue_damage_assignment(queue, first)),
{
    if queue.len() == 0 {
        let g1 = GameModel { pending: None, ..g };
        lemma_same_core(g, g1);
        let packets = g1.combat_packets(first);
        let g2 = g1.deal_packets(packets, packets.len());
        keep_deal_packets(g1, packets, packets.len());
        let g3 = g1.deal_combat_damage(first);
        lemma_same_core(g2, g3);
        keep_priority(g3, g.active_player);
    } else {
        lemma_same_core(g, g.continue_damage_assignment(queue, first));
    }
}

pub proof fn keep_begin_combat_damage(g: GameModel, first: bool)
    ensures
        g.keeps(g.begin_combat_damage(first)),
{
    let g1 = GameModel {
        combat_round: if first {
            CombatRound::FirstStrikeDone
        } else {
            CombatRound::Done
        },
        ..g
    };
    lemma_same_core(g, g1);
    let ids = g1.attacking_creatures();
    keep_continue_damage_assignment(g1, g1.division_queue(ids, first, ids.len()), first);
}

pub proof fn keep_assign_combat_damage(
    g: GameModel,
    attacker: ObjectId,
    split: Seq<(DamageTarget, i32)>,
)
    ensures
        g.keeps(g.assign_combat_damage(attacker, split)),
{
    reveal(GameModel::assign_combat_damage);
    let g1 = g.assign(attacker, split);
    lemma_same_core(g, g1);
    let e: EventFacts = EventModel::DamageAssigned { attacker, assignments: split };
    lemma_emit(g1, e);
    let g2 = g1.emit(e);
    let g3 = GameModel { pending: None, ..g2 };
    lemma_same_core(g2, g3);
    let queue = match g2.pending {
        Some(PendingModel::AssignDamage { queue, .. }) => queue,
        _ => Seq::empty(),
    };
    keep_continue_damage_assignment(
        g3,
        queue,
        g2.combat_round == CombatRound::FirstStrikeDone,
    );
}

// ----- leaving the game -----

/// What `owned_by` lists: a player's objects that are still in the game.
proof fn lemma_owned_by(g: GameModel, seat: Seat, n: nat)
    requires
        n <= g.objects.len() <= u32::MAX,
    ensures
        forall|x: ObjectId| #[trigger]
            g.owned_by(seat, n).contains(x) <==> 1 <= x.0 <= n && g.obj(x).owner == seat && !(g.obj(
                x,
            ).zone is OutOfGame),
    decreases n,
{
    if n > 0 {
        lemma_owned_by(g, seat, (n - 1) as nat);
        let rest = g.owned_by(seat, (n - 1) as nat);
        let now = g.owned_by(seat, n);
        let last = ObjectId(n as u32);
        assert forall|x: ObjectId| #[trigger] now.contains(x) <==> 1 <= x.0 <= n && g.obj(x).owner
            == seat && !(g.obj(x).zone is OutOfGame) by {
            if now.len() > rest.len() {
                assert(now == rest.push(last));
                assert(now.contains(x) <==> rest.contains(x) || x == last) by {
                    if rest.contains(x) {
                        let k = choose|k: int| 0 <= k < rest.len() && rest[k] == x;
                        assert(now[k] == x);
                    }
                    if x == last {
                        assert(now[rest.len() as int] == x);
                    }
                }
            }
            assert(rest.contains(x) <==> 1 <= x.0 <= n - 1 && g.obj(x).owner == seat && !(g.obj(
                x,
            ).zone is OutOfGame));
            if x.0 == n {
                assert(x == last);
            }
        }
    }
}

/// What left the game, or is among the first `n` to leave, is out of it.
proof fn lemma_gone(g: GameModel, ids: Seq<ObjectId>, n: nat)
    requires
        n <= ids.len(),
    ensures
        ({
            let h = g.move_all(ids, Zone::OutOfGame, n);
            &&& h.objects.len() == g.objects.len()
            &&& forall|x: ObjectId|
                #![trigger h.obj(x)]
                g.has_obj(x) ==> h.obj(x).owner == g.obj(x).owner && (g.obj(x).zone is OutOfGame
                    || ids.subrange(0, n as int).contains(x) ==> h.obj(x).zone is OutOfGame)
        }),
    decreases n,
{
    if n > 0 {
        let m = (n - 1) as nat;
        lemma_gone(g, ids, m);
        let p = g.move_all(ids, Zone::OutOfGame, m);
        let h = g.move_all(ids, Zone::OutOfGame, n);
        lemma_zone_after(p, ids[m as int], Zone::OutOfGame);
        assert forall|x: ObjectId|
            #![trigger h.obj(x)]
            g.has_obj(x) implies h.obj(x).owner == g.obj(x).owner && (g.obj(x).zone is OutOfGame
            || ids.subrange(0, n as int).contains(x) ==> h.obj(x).zone is OutOfGame) by {
            assert(p.obj(x).owner == g.obj(x).owner);
            let now = ids.subrange(0, n as int);
            if now.contains(x) && x != ids[m as int] {
                let k = choose|k: int| 0 <= k < now.len() && now[k] == x;
                assert(ids.subrange(0, m as int)[k] == x);
                assert(ids.subrange(0, m as int).contains(x));
            }
        }
    }
}

/// What a stack without a player's entries holds.
proof fn lemma_stack_not_of(stack: Seq<StackModel>, seat: Seat, n: nat)
    requires
        n <= stack.len(),
    ensures
        forall|k: int|
            0 <= k < stack_not_of(stack, seat, n).len() ==> exists|j: int|
                0 <= j < n && stack[j] == #[trigger] stack_not_of(stack, seat, n)[k],
        forall|j: int|
            0 <= j < n && (#[trigger] stack[j]).controller != seat ==> exists|k: int|
                0 <= k < stack_not_of(stack, seat, n).len() && #[trigger] stack_not_of(
                    stack,
                    seat,
                    n,
                )[k] == stack[j],
    decreases n,
{
    if n > 0 {
        let m = (n - 1) as nat;
        lemma_stack_not_of(stack, seat, m);
        let rest = stack_not_of(stack, seat, m);
        let now = stack_not_of(stack, seat, n);
        assert forall|k: int| 0 <= k < now.len() implies exists|j: int|
            0 <= j < n && stack[j] == #[trigger] now[k] by {
            if k < rest.len() {
                assert(now[k] == rest[k]);
                let j = choose|j: int| 0 <= j < m && stack[j] == rest[k];
                assert(stack[j] == now[k]);
            } else {
                assert(stack[m as int] == now[k]);
            }
        }
        assert forall|j: int| 0 <= j < n && (#[trigger] stack[j]).controller != seat implies exists|
            k: int,
        |
            0 <= k < now.len() && #[trigger] now[k] == stack[j] by {
            if j < m {
                let k = choose|k: int| 0 <= k < rest.len() && #[trigger] rest[k] == stack[j];
                assert(now[k] == stack[j]);
            } else {
                assert(now[now.len() - 1] == stack[j]);
            }
        }
    }
}

impl GameModel {
    /// A player is marked as out and gone from the turn order.
    pub open spec fn marked_out(self, seat: Seat, reason: Elimination) -> GameModel {
        let g = self.with_player(
            seat,
            PlayerModel { eliminated: Some(reason), ..self.player(seat) },
        ).emit(EventModel::Eliminated { seat, reason });
        GameModel { turn_order: without(g.turn_order, seat), ..g }
    }
}

proof fn keep_marked_out(g: GameModel, seat: Seat, reason: Elimination)
    requires
        g.has_seat(seat),
        !g.out(seat),
    ensures
        g.keeps(g.marked_out(seat, reason)),
{
    let h = g.marked_out(seat, reason);
    let e: EventFacts = EventModel::Eliminated { seat, reason };
    lemma_without(g.turn_order, seat);
    reveal(GameModel::keeps);
    reveal(GameModel::leads_to);
    reveal(GameModel::follows);
    assert(g.log_grows(h)) by {
        reveal(GameModel::log_grows);
    }
    assert(g.players_stay(h)) by {
        reveal(GameModel::players_stay);
    }
    assert(g.objects_stay(h)) by {
        reveal(GameModel::objects_stay);
    }
    assert(g.gone_for_a_reason(h)) by {
        reveal(GameModel::gone_for_a_reason);
    }
    assert(g.lives_are_told(h)) by {
        reveal(GameModel::lives_are_told);
        assert forall|s: Seat| #![trigger h.life(s)] g.has_seat(s) implies life_told(
            h.log,
            s,
            g.life(s),
            g.log.len(),
            h.log.len(),
        ) == Some(h.life(s)) by {
            let n = g.log.len();
            assert(life_told(h.log, s, g.life(s), n, n) == Some(g.life(s)));
            assert(h.log[h.log.len() - 1] == e);
            assert(h.life(s) == g.life(s));
        }
    }
    if g.sound() {
        lemma_spots_same(g, h, nobody());
        assert(h.table_agrees()) by {
            reveal(GameModel::table_agrees);
            assert forall|s: Seat| #![trigger h.turn_order.contains(s)]
                h.turn_order.contains(s) implies h.has_seat(s) && h.player(s).eliminated is None
                && h.seating.contains(s) by {
                assert(g.turn_order.contains(s));
                assert(s != seat);
                assert(h.player(s) == g.player(s));
            }
            assert forall|s: Seat|
                #![trigger h.player(s)]
                h.has_seat(s) && h.player(s).eliminated is None implies h.turn_order.contains(
                s,
            ) by {
                assert(s != seat);
                assert(h.player(s) == g.player(s));
                assert(g.turn_order.contains(s));
            }
        }
    }
}

pub proof fn keep_strip(g: GameModel, seat: Seat, reason: Elimination)
    requires
        g.has_seat(seat),
        !g.out(seat),
    ensures
        g.keeps(g.strip(seat, reason)),
{
    let g1 = g.marked_out(seat, reason);
    keep_marked_out(g, seat, reason);
    let owned = g1.owned_by(seat, g1.objects.len());
    let g2 = g1.move_all(owned, Zone::OutOfGame, owned.len());
    if g1.objects.len() <= u32::MAX {
        lemma_owned_by(g1, seat, g1.objects.len());
        assert forall|k: int| 0 <= k < owned.len() implies g1.has_obj(#[trigger] owned[k])
            && g1.may_be_gone(owned[k]) by {
            assert(owned.contains(owned[k]));
        }
    }
    keep_move_all(g1, owned, Zone::OutOfGame, owned.len());
    let h = g.strip(seat, reason);
    assert(h == g2.cleared_of(seat));
    assert(g2.keeps(h) || !g2.sound()) by {
        lemma_gone(g1, owned, owned.len());
        if g2.sound() {
            lemma_strip_rest(g1, g2, seat);
        }
    }
    assert(g.keeps(h)) by {
        reveal(GameModel::keeps);
        lemma_leads_quietly(g2, h);
        lemma_leads_on(g, g2, h);
    }
}

impl GameModel {
    /// Nothing on the stack is the player's, and nothing attacks them.
    pub open spec fn cleared_of(self, seat: Seat) -> GameModel {
        GameModel {
            stack: stack_not_of(self.stack, seat, self.stack.len()),
            objects: Seq::new(self.objects.len(), |i: int| self.objects[i].not_attacking(seat)),
            ..self
        }
    }
}

proof fn lemma_strip_rest(g1: GameModel, g2: GameModel, seat: Seat)
    requires
        g1.objects.len() <= u32::MAX,
        ({
            let owned = g1.owned_by(seat, g1.objects.len());
            g2 == g1.move_all(owned, Zone::OutOfGame, owned.len())
        }),
        g2.sound(),
    ensures
        g2.keeps(g2.cleared_of(seat)),
{
    let h = g2.cleared_of(seat);
    let owned = g1.owned_by(seat, g1.objects.len());
    lemma_owned_by(g1, seat, g1.objects.len());
    lemma_gone(g1, owned, owned.len());
    assert(owned.subrange(0, owned.len() as int) =~= owned);
    assert forall|x: ObjectId| #![trigger g2.obj(x)] g2.has_obj(x) && g2.obj(x).owner
        == seat implies g2.obj(x).zone is OutOfGame by {
        assert(g1.obj(x).owner == seat);
        if !(g1.obj(x).zone is OutOfGame) {
            assert(owned.contains(x));
        }
    }
    lemma_stack_not_of(g2.stack, seat, g2.stack.len());
    reveal(GameModel::keeps);
    lemma_leads_quietly(g2, h);
    let mid = GameModel { stack: g2.stack, ..h };
    lemma_same_places(g2, mid);
    assert(mid.sound());
    lemma_stack_changes(mid, h, nobody());
    assert forall|x: ObjectId| #![trigger h.obj(x)] g2.has_obj(x) implies h.obj(x).zone == g2.obj(
        x,
    ).zone && h.obj(x).owner == g2.obj(x).owner by {}
    assert(h.spells_are_there()) by {
        reveal(GameModel::spells_are_there);
        assert forall|k: int|
            #![trigger h.stack[k]]
            0 <= k < h.stack.len() && h.stack[k].kind is Spell implies h.in_zone(
            h.stack[k].object,
            Zone::Stack,
        ) && h.obj(h.stack[k].object).owner == h.stack[k].controller by {
            let j = choose|j: int| 0 <= j < g2.stack.len() && g2.stack[j] == h.stack[k];
            assert(g2.in_zone(g2.stack[j].object, Zone::Stack));
            assert(h.obj(h.stack[k].object).zone == g2.obj(g2.stack[j].object).zone);
        }
    }
    assert(h.stack_is_full_but(nobody())) by {
        assert forall|x: ObjectId|
            #![trigger h.obj(x)]
            h.in_zone(x, Zone::Stack) && x != nobody() implies exists|k: int| h.spell_entry(
            x,
            k,
        ) by {
            assert(g2.in_zone(x, Zone::Stack)) by {
                assert(h.obj(x).zone == g2.obj(x).zone);
            }
            reveal(GameModel::stack_is_full_but);
            assert(g2.obj(x).zone is Stack);
            let j = choose|j: int| g2.spell_entry(x, j);
            assert(g2.obj(x).owner == g2.stack[j].controller) by {
                reveal(GameModel::spells_are_there);
            }
            assert(g2.stack[j].controller != seat);
            let k = choose|k: int| 0 <= k < h.stack.len() && #[trigger] h.stack[k] == g2.stack[j];
            assert(h.spell_entry(x, k));
        }
        reveal(GameModel::stack_is_full_but);
    }
}

pub proof fn keep_eliminate(g: GameModel, seat: Seat, reason: Elimination)
    ensures
        g.keeps(g.eliminate(seat, reason)),
{
    reveal(GameModel::eliminate);
    if g.has_seat(seat) && !g.out(seat) {
        let h = g.eliminate(seat, reason);
        let g1 = g.strip(seat, reason);
        keep_strip(g, seat, reason);
        lemma_same_core(g1, h);
    }
}

// ----- state-based actions -----

pub proof fn keep_losers_leave(g: GameModel, seats: Seq<Seat>, n: nat)
    ensures
        g.keeps(g.losers_leave(seats, n).0),
    decreases n,
{
    if n > 0 && n <= seats.len() {
        keep_losers_leave(g, seats, (n - 1) as nat);
        let p = g.losers_leave(seats, (n - 1) as nat).0;
        match p.losing(seats[n - 1]) {
            Some(reason) => {
                keep_eliminate(p, seats[n - 1], reason);
            },
            None => {},
        }
    }
}

pub proof fn keep_counters_cancel(g: GameModel, ids: Seq<ObjectId>, n: nat)
    ensures
        g.keeps(g.counters_cancel(ids, n).0),
    decreases n,
{
    if n > 0 && n <= ids.len() {
        keep_counters_cancel(g, ids, (n - 1) as nat);
        let p = g.counters_cancel(ids, (n - 1) as nat).0;
        let id = ids[n - 1];
        lemma_with_obj(
            p,
            id,
            ObjectModel { counters: p.obj(id).counters_left(), ..p.obj(id) },
        );
    }
}

pub proof fn keep_dying_die(g: GameModel, ids: Seq<ObjectId>, n: nat)
    ensures
        g.keeps(g.dying_die(ids, n).0),
    decreases n,
{
    if n > 0 && n <= ids.len() {
        keep_dying_die(g, ids, (n - 1) as nat);
        lemma_move(g.dying_die(ids, (n - 1) as nat).0, ids[n - 1], Zone::Graveyard);
    }
}

pub proof fn keep_attachments_fall(g: GameModel, ids: Seq<ObjectId>, n: nat)
    ensures
        g.keeps(g.attachments_fall(ids, n).0),
    decreases n,
{
    if n > 0 && n <= ids.len() {
        keep_attachments_fall(g, ids, (n - 1) as nat);
        let p = g.attachments_fall(ids, (n - 1) as nat).0;
        let id = ids[n - 1];
        lemma_move(p, id, Zone::Graveyard);
        lemma_with_obj(p, id, ObjectModel { attached_to: None, ..p.obj(id) });
    }
}

pub proof fn keep_tokens_cease(g: GameModel, n: nat)
    ensures
        g.keeps(g.tokens_cease(n).0),
    decreases n,
{
    if n > 0 && n <= g.objects.len() {
        keep_tokens_cease(g, (n - 1) as nat);
        let p = g.tokens_cease((n - 1) as nat).0;
        let id = ObjectId(n as u32);
        if p.has_def(id) && p.def(id).token {
            lemma_move(p, id, Zone::OutOfGame);
        }
    }
}

pub proof fn keep_sba_pass(g: GameModel)
    ensures
        g.keeps(g.sba_pass().0),
{
    let g1 = g.losers_leave(g.turn_order, g.turn_order.len()).0;
    keep_losers_leave(g, g.turn_order, g.turn_order.len());
    let ids = g1.on_battlefield();
    let g2 = g1.counters_cancel(ids, ids.len()).0;
    keep_counters_cancel(g1, ids, ids.len());
    let g3 = g2.dying_die(ids, ids.len()).0;
    keep_dying_die(g2, ids, ids.len());
    let g4 = g3.attachments_fall(ids, ids.len()).0;
    keep_attachments_fall(g3, ids, ids.len());
    keep_tokens_cease(g4, g4.objects.len());
}

pub proof fn keep_sba_passes(g: GameModel, fuel: nat)
    ensures
        g.keeps(g.sba_passes(fuel)),
    decreases fuel,
{
    if fuel > 0 {
        keep_sba_pass(g);
        keep_sba_passes(g.sba_pass().0, (fuel - 1) as nat);
    }
}

pub proof fn keep_end_game(g: GameModel, outcome: Outcome)
    requires
        g.outcome is None,
    ensures
        g.leads_to(g.end_game(outcome)),
        g.sound() ==> g.end_game(outcome).sound(),
{
    let g1 = GameModel { outcome: Some(outcome), pending: None, priority: None, ..g };
    lemma_leads_quietly(g, g1);
    lemma_emit(g1, EventModel::GameOver { outcome });
    reveal(GameModel::keeps);
    lemma_leads_on(g, g1, g.end_game(outcome));
    if g.sound() {
        lemma_sound_same(g, g1, nobody());
    }
}

pub proof fn keep_state_based_actions(g: GameModel)
    ensures
        g.leads_to(g.check_state_based_actions()),
        g.sound() ==> g.check_state_based_actions().sound(),
{
    let h = g.sba_passes(g.sba_fuel());
    keep_sba_passes(g, g.sba_fuel());
    assert(g.leads_to(h) && (g.sound() ==> h.sound())) by {
        reveal(GameModel::keeps);
    }
    if h.outcome is None {
        keep_end_game(h, Outcome::Draw);
        lemma_leads_on(g, h, h.end_game(Outcome::Draw));
        if h.turn_order.len() == 1 {
            keep_end_game(h, Outcome::Winner(h.turn_order[0]));
            lemma_leads_on(g, h, h.end_game(Outcome::Winner(h.turn_order[0])));
        }
    }
}

// ----- the turn -----

/// Objects change in ways that leave each where it is.
pub proof fn keep_objects(g: GameModel, h: GameModel)
    requires
        h == (GameModel { objects: h.objects, ..g }),
        h.objects.len() == g.objects.len(),
        forall|i: int|
            0 <= i < g.objects.len() ==> (#[trigger] h.objects[i]).same_place(g.objects[i]),
    ensures
        g.keeps(h),
{
    lemma_same_places(g, h);
}

pub proof fn keep_finish_cleanup(g: GameModel)
    ensures
        g.keeps(g.finish_cleanup()),
{
    keep_objects(g, g.finish_cleanup());
}

pub proof fn keep_empty_pools(g: GameModel)
    ensures
        g.keeps(g.empty_pools()),
{
    lemma_same_places(g, g.empty_pools());
}

pub proof fn keep_untap_one(g: GameModel, id: ObjectId)
    ensures
        g.keeps(g.untap_one(id)),
{
    let o = g.obj(id).untapped_for(g.active_player);
    lemma_with_obj(g, id, o);
    lemma_emit(g.with_obj(id, o), EventModel::Untapped { object: id });
}

pub proof fn keep_untap_each(g: GameModel, ids: Seq<ObjectId>, n: nat)
    ensures
        g.keeps(g.untap_each(ids, n)),
    decreases n,
{
    if n > 0 && n <= ids.len() {
        keep_untap_each(g, ids, (n - 1) as nat);
        let p = g.untap_each(ids, (n - 1) as nat);
        keep_untap_one(p, ids[n - 1]);
    }
}

pub proof fn keep_untap_step(g: GameModel)
    ensures
        g.keeps(g.untap_step()),
{
    let ids = g.battlefield(g.active_player);
    let g1 = g.untap_each(ids, ids.len());
    keep_untap_each(g, ids, ids.len());
    lemma_with_player(
        g1,
        g.active_player,
        PlayerModel { lands_played_this_turn: 0, ..g1.player(g.active_player) },
    );
}

pub proof fn keep_cleanup_step(g: GameModel)
    ensures
        g.keeps(g.cleanup_step()),
{
    keep_finish_cleanup(g);
    if g.hand(g.active_player).len() > g.format.max_hand_size && !g.out(g.active_player) {
        lemma_same_core(g, g.cleanup_step());
    }
}

pub proof fn keep_phase_action(g: GameModel, phase: Phase)
    ensures
        g.keeps(g.phase_action(phase)),
{
    let active = g.active_player;
    keep_priority(g, active);
    match phase {
        Phase::Untap => {
            keep_untap_step(g);
        },
        Phase::Draw => {
            keep_draw(g, active, 1);
            keep_priority(g.draw(active, 1), active);
        },
        Phase::DeclareAttackers => {
            if g.attack_candidates(active).len() > 0 {
                lemma_same_core(g, g.phase_action(phase));
            }
        },
        Phase::DeclareBlockers => {
            if g.defending_seats().len() > 0 {
                lemma_same_core(g, g.phase_action(phase));
            }
        },
        Phase::CombatDamage => {
            keep_begin_combat_damage(g, g.combat_has_first_strike());
        },
        Phase::Main2 => {
            let g1 = GameModel { combat_round: CombatRound::Idle, ..g.remove_all_from_combat() };
            lemma_same_places(g, g1);
            keep_priority(g1, active);
        },
        Phase::Cleanup => {
            keep_cleanup_step(g);
        },
        _ => {},
    }
}

pub proof fn keep_enter_phase(g: GameModel, phase: Phase)
    ensures
        g.keeps(g.enter_phase(phase)),
{
    let g1 = GameModel { phase, priority: None, passed_in_succession: 0, ..g };
    lemma_same_core(g, g1);
    let g2 = g1.empty_pools();
    keep_empty_pools(g1);
    let e: EventFacts = EventModel::PhaseChanged { phase };
    lemma_emit(g2, e);
    keep_phase_action(g2.emit(e), phase);
}

impl GameModel {
    /// It is another player's turn.
    pub open spec fn handed_over(self, seat: Seat, turn: u32) -> GameModel {
        GameModel { turn, active_player: seat, turn_aborted: false, ..self }
    }
}

pub proof fn keep_handed_over(g: GameModel, seat: Seat, turn: u32)
    requires
        g.turn <= turn,
    ensures
        g.leads_to(g.handed_over(seat, turn)),
        g.seating.contains(seat) ==> g.keeps(g.handed_over(seat, turn)),
{
    let h = g.handed_over(seat, turn);
    reveal(GameModel::keeps);
    lemma_leads_quietly(g, h);
    if g.sound() && g.seating.contains(seat) {
        lemma_spots_same(g, h, nobody());
        assert(h.table_agrees()) by {
            reveal(GameModel::table_agrees);
            assert forall|s: Seat|
                #![trigger h.player(s)]
                h.has_seat(s) && h.player(s).eliminated is None implies h.turn_order.contains(
                s,
            ) by {
                assert(g.player(s).eliminated is None);
            }
        }
    }
}

pub proof fn keep_begin_turn(g: GameModel, seat: Seat)
    ensures
        g.leads_to(g.begin_turn(seat)),
        g.seating.contains(seat) ==> g.keeps(g.begin_turn(seat)),
{
    let turn = crate::types::sat_u32(g.turn + 1);
    let g1 = g.handed_over(seat, turn);
    keep_handed_over(g, seat, turn);
    let h = g.begin_turn(seat);
    assert(g1.keeps(h)) by {
        let g2 = g1.expire_all(Expiry::TurnOf(seat));
        keep_objects(g1, g2);
        let e: EventFacts = EventModel::TurnStarted { turn, active: seat };
        lemma_emit(g2, e);
        keep_enter_phase(g2.emit(e), Phase::Untap);
    }
    assert(g1.leads_to(h)) by {
        reveal(GameModel::keeps);
    }
    lemma_leads_on(g, g1, h);
}

/// The seat found going round the table sits at it, and is in the game.
pub proof fn lemma_next_from(g: GameModel, seat: Seat, pos: nat, k: nat)
    ensures
        g.next_from(seat, pos, k) matches Some(s) ==> g.seating.contains(s)
            && g.turn_order.contains(s) && s != seat,
    decreases g.seating.len() + 1 - k,
{
    let n = g.seating.len();
    if k <= n && n > 0 {
        let i = (pos + k) as int % (n as int);
        let s = g.seating[i];
        if s != seat && g.turn_order.contains(s) {
            assert(g.seating.contains(s));
        } else {
            lemma_next_from(g, seat, pos, k + 1);
        }
    }
}

pub proof fn keep_advance_turn(g: GameModel)
    ensures
        g.leads_to(g.advance_turn()),
        g.seating.contains(g.active_player) ==> g.keeps(g.advance_turn()),
{
    match crate::seqs::find(g.seating, g.active_player) {
        Some(pos) => {
            lemma_next_from(g, g.active_player, pos, 1);
        },
        None => {},
    }
    keep_begin_turn(
        g,
        match g.next_after(g.active_player) {
            Some(s) => s,
            None => g.active_player,
        },
    );
}

/// Whoever has a turn sits at the table.
pub proof fn lemma_seated(g: GameModel)
    requires
        g.sound(),
    ensures
        g.seating.contains(g.active_player),
        g.turn_order.len() > 0 ==> g.seating.contains(g.turn_order[0]),
{
    reveal(GameModel::table_agrees);
    if g.turn_order.len() > 0 {
        assert(g.turn_order.contains(g.turn_order[0]));
    }
}

pub proof fn keep_step_forward(g: GameModel)
    ensures
        g.leads_to(g.step_forward()),
        g.sound() ==> g.step_forward().sound(),
{
    reveal(GameModel::step_forward);
    let h = g.step_forward();
    if g.sound() {
        lemma_seated(g);
    }
    if !g.started {
        let g1 = GameModel { started: true, ..g };
        lemma_same_core(g, g1);
        keep_begin_turn(
            g1,
            if g.turn_order.len() > 0 {
                g.turn_order[0]
            } else {
                g.active_player
            },
        );
        reveal(GameModel::keeps);
        lemma_leads_on(g, g1, h);
    } else if g.turn_aborted {
        let g1 = GameModel { turn_aborted: false, ..g };
        lemma_same_core(g, g1);
        keep_advance_turn(g1);
        reveal(GameModel::keeps);
        lemma_leads_on(g, g1, h);
    } else if g.phase is CombatDamage && g.combat_round is FirstStrikeDone {
        keep_begin_combat_damage(g, false);
        reveal(GameModel::keeps);
    } else {
        match g.phase.following() {
            None => {
                keep_advance_turn(g);
            },
            Some(next) => {
                keep_enter_phase(g, g.phase_to_enter(next));
            },
        }
        reveal(GameModel::keeps);
    }
}

pub proof fn keep_tidy(g: GameModel)
    ensures
        g.leads_to(g.tidy()),
        g.sound() ==> g.tidy().sound(),
{
    reveal(GameModel::tidy);
    let g1 = g.check_state_based_actions();
    keep_state_based_actions(g);
    keep_collect_triggers(g1);
    keep_place_triggers(g1.collect_triggers());
    assert(g1.keeps(g.tidy()));
    reveal(GameModel::keeps);
    lemma_leads_on(g, g1, g.tidy());
}

pub proof fn keep_lapse(g: GameModel)
    ensures
        g.keeps(g.lapse()),
{
    match g.pending {
        Some(PendingModel::AssignDamage { queue, .. }) => {
            keep_continue_damage_assignment(
                g,
                g.divisible_n(queue, queue.len()),
                g.combat_round == CombatRound::FirstStrikeDone,
            );
        },
        _ => {
            let g1 = GameModel { pending: None, ..g };
            lemma_same_core(g, g1);
            lemma_same_core(g1, g.lapse());
        },
    }
}

pub proof fn keep_settle_within(g: GameModel, fuel: nat)
    ensures
        g.leads_to(g.settle_within(fuel)),
        g.sound() ==> g.settle_within(fuel).sound(),
    decreases fuel,
{
    if g.outcome is None {
        let h = g.tidy();
        keep_tidy(g);
        if h.outcome is Some || fuel == 0 {
        } else if h.moot() {
            let k = h.lapse();
            keep_lapse(h);
            reveal(GameModel::keeps);
            lemma_leads_on(g, h, k);
            if k.pending is None {
                keep_settle_within(k, (fuel - 1) as nat);
                lemma_leads_on(g, k, g.settle_within(fuel));
            }
        } else if h.pending is None && h.priority is None {
            let k = h.step_forward();
            keep_step_forward(h);
            keep_settle_within(k, (fuel - 1) as nat);
            lemma_leads_on(g, h, k);
            lemma_leads_on(g, k, g.settle_within(fuel));
        }
    } else {
        lemma_leads_self(g);
    }
}

pub proof fn keep_settle(g: GameModel)
    ensures
        g.leads_to(g.settle()),
        g.sound() ==> g.settle().sound(),
{
    reveal(GameModel::settle);
    keep_settle_within(g, crate::turn::MOST_NOTCHES as nat);
}

// ----- what players do -----

pub proof fn keep_pass_priority(g: GameModel, seat: Seat)
    ensures
        g.keeps(g.pass_priority(seat)),
{
    reveal(GameModel::pass_priority);
    let passed = crate::types::sat_u8(g.passed_in_succession + 1);
    let e: EventFacts = EventModel::PriorityPassed { seat };
    let g0 = g.emit(e);
    lemma_emit(g, e);
    if passed >= g0.turn_order.len() {
        let g1 = GameModel { passed_in_succession: 0, ..g0 };
        lemma_same_core(g0, g1);
        if g1.stack.len() > 0 {
            let top = g1.stack.len() - 1;
            let so = g1.stack.last();
            let g2 = g1.restacked(g1.stack.drop_last());
            assert(g1.stack.drop_last() =~= g1.stack.remove(top));
            lemma_remove_entry(g1, top);
            keep_resolve(g2, so);
            let g3 = g2.resolve(so).0;
            assert(g1.keeps(g3)) by {
                reveal(GameModel::keeps);
                lemma_leads_on(g1, g2, g3);
            }
            keep_priority(g3, seat);
        } else {
            lemma_same_core(g1, GameModel { priority: None, ..g1 });
        }
    } else {
        lemma_same_core(g0, g.pass_priority(seat));
    }
}

pub proof fn keep_play_land(g: GameModel, seat: Seat, object: ObjectId)
    ensures
        g.leads_to(g.play_land(seat, object)),
        g.play_land(seat, object).outcome == g.outcome,
        g.sound() && g.holds(seat, object) ==> g.play_land(seat, object).sound(),
{
    reveal(GameModel::play_land);
    let g1 = g.controlled(object, seat);
    let g2 = g1.move_object(object, Zone::Battlefield);
    lemma_leads_quietly(g, g1);
    lemma_move_leads(g1, object, Zone::Battlefield);
    lemma_leads_on(g, g1, g2);
    if g.sound() && g.holds(seat, object) {
        assert(g.has_seat(seat)) by {
            reveal(GameModel::objects_are_real);
            assert(g.has_seat(g.obj(object).owner));
        }
        lemma_control(g, object, seat, nobody());
        lemma_move_sound(g1, object, Zone::Battlefield, nobody());
    }
    let p = PlayerModel {
        lands_played_this_turn: crate::types::sat_u8(g2.player(seat).lands_played_this_turn + 1),
        ..g2.player(seat)
    };
    lemma_with_player(g2, seat, p);
    let g3 = g2.with_player(seat, p);
    let e: EventFacts = EventModel::LandPlayed { seat, object };
    lemma_emit(g3, e);
    keep_priority(g3.emit(e), seat);
    assert(g2.keeps(g.play_land(seat, object)));
    reveal(GameModel::keeps);
    lemma_leads_on(g, g2, g.play_land(seat, object));
}

pub proof fn keep_discard_to_hand_size(g: GameModel, seat: Seat, objects: Seq<ObjectId>)
    ensures
        g.keeps(g.discard_to_hand_size(seat, objects)),
{
    reveal(GameModel::discard_to_hand_size);
    let g1 = g.move_all(objects, Zone::Graveyard, objects.len());
    keep_move_all(g, objects, Zone::Graveyard, objects.len());
    let e: EventFacts = EventModel::Discarded { seat, objects };
    lemma_emit(g1, e);
    let g2 = GameModel { pending: None, ..g1.emit(e) };
    lemma_same_core(g1.emit(e), g2);
    keep_finish_cleanup(g2);
}

// ----- mulligans -----

pub proof fn keep_keep_hand(g: GameModel, seat: Seat)
    ensures
        g.keeps(g.keep_hand(seat)),
{
    let e: EventFacts = EventModel::HandKept {
        seat,
        size: crate::types::sat_u8(g.hand(seat).len() as int),
    };
    lemma_emit(g, e);
    lemma_same_core(g.emit(e), g.keep_hand(seat));
}

/// A mulligan leads on; it is as sound as its shuffle is fair.
pub proof fn keep_take_mulligan(g: GameModel, seat: Seat)
    ensures
        g.leads_to(g.take_mulligan(seat)),
        g.take_mulligan(seat).outcome == g.outcome,
        g.sound() && g.hand_back(seat).shuffles_fairly(seat) ==> g.take_mulligan(seat).sound(),
{
    if g.has_seat(seat) {
        let h = g.take_mulligan(seat);
        let g1 = g.hand_back(seat);
        let g2 = g1.shuffle_library(seat);
        let n = g.format.starting_hand as nat;
        let g3 = g2.draw(seat, n);
        lemma_hand_back(g, seat);
        lemma_shuffle_leads(g1, seat);
        keep_draw(g2, seat, n);
        let e: EventFacts = EventModel::MulliganTaken {
            seat,
            to: crate::types::sat_u8(
                g.format.starting_hand - crate::types::sat_u8(g.player(seat).mulligans + 1),
            ),
        };
        lemma_emit(g3, e);
        assert(h == g3.emit(e));
        if g1.shuffles_fairly(seat) {
            lemma_shuffle(g1, seat);
        }
        reveal(GameModel::keeps);
        lemma_leads_on(g, g1, g2);
        lemma_leads_on(g, g2, g3);
        lemma_leads_on(g, g3, h);
    } else {
        lemma_leads_self(g);
    }
}

pub proof fn keep_bottom_each(g: GameModel, seat: Seat, ids: Seq<ObjectId>, n: nat)
    ensures
        g.leads_to(g.bottom_each(seat, ids, n)),
        g.bottom_each(seat, ids, n).outcome == g.outcome,
        g.sound() && n <= ids.len() && g.holds_each(seat, ids) ==> g.bottom_each(
            seat,
            ids,
            n,
        ).sound() && forall|k: int|
            n <= k < ids.len() ==> g.bottom_each(seat, ids, n).hand(seat).contains(
                #[trigger] ids[k],
            ),
    decreases n,
{
    if n > 0 && n <= ids.len() {
        keep_bottom_each(g, seat, ids, (n - 1) as nat);
        let p = g.bottom_each(seat, ids, (n - 1) as nat);
        let h = g.bottom_each(seat, ids, n);
        lemma_bottom_one(p, seat, ids[n - 1]);
        lemma_leads_on(g, p, h);
        if g.sound() && g.holds_each(seat, ids) {
            assert(p.hand(seat).contains(ids[n - 1]));
            lemma_without(p.hand(seat), ids[n - 1]);
            assert forall|k: int| n <= k < ids.len() implies h.hand(seat).contains(
                #[trigger] ids[k],
            ) by {
                assert(p.hand(seat).contains(ids[k]));
                assert(ids[k] != ids[n - 1]);
                assert(h.hand(seat) == without(p.hand(seat), ids[n - 1]));
            }
        }
    } else {
        lemma_leads_self(g);
    }
}

pub proof fn keep_bottom_cards(g: GameModel, seat: Seat, ids: Seq<ObjectId>)
    ensures
        g.leads_to(g.bottom_cards(seat, ids)),
        g.bottom_cards(seat, ids).outcome == g.outcome,
        g.sound() && g.holds_each(seat, ids) ==> g.bottom_cards(seat, ids).sound(),
{
    reveal(GameModel::bottom_cards);
    let g1 = g.bottom_each(seat, ids, ids.len());
    keep_bottom_each(g, seat, ids, ids.len());
    let e: EventFacts = EventModel::Bottomed {
        seat,
        count: crate::types::sat_u8(ids.len() as int),
    };
    lemma_emit(g1, e);
    lemma_same_core(g1.emit(e), g1.emit(e).advance_mulligan(seat));
    assert(g1.keeps(g.bottom_cards(seat, ids)));
    reveal(GameModel::keeps);
    lemma_leads_on(g, g1, g.bottom_cards(seat, ids));
}

// ----- an action -----

impl GameModel {
    /// Different cards of a hand.
    pub open spec fn holds_each(self, seat: Seat, ids: Seq<ObjectId>) -> bool {
        ids.no_duplicates() && forall|k: int|
            0 <= k < ids.len() ==> self.hand(seat).contains(#[trigger] ids[k])
    }

    /// The cards that an action plays, casts or puts away are the seat's own,
    /// and so is the card of the cast that is in progress.
    pub open spec fn in_hand_for(self, seat: Seat, a: ActionModel) -> bool {
        match a {
            ActionModel::PlayLand { object } => self.holds(seat, object) && self.casting() is None,
            ActionModel::CastSpell { object, .. } => self.may_cast(seat, object)
                && self.pending is None,
            ActionModel::BottomCards { objects } => self.holds_each(seat, objects)
                && self.casting() is None,
            ActionModel::ChooseTargets { .. } => self.casts_its_own(),
            ActionModel::ChooseMode { .. } => self.casts_its_own(),
            ActionModel::Concede => self.casts_its_own(),
            _ => self.casting() is None,
        }
    }

    /// The one shuffle an action can call for, if it does, is fair.
    pub open spec fn plays_fairly(self, seat: Seat, a: ActionModel) -> bool {
        a matches ActionModel::Mulligan { keep } ==> keep || self.hand_back(seat).shuffles_fairly(
            seat,
        )
    }
}

pub proof fn keep_perform(g: GameModel, seat: Seat, a: ActionModel)
    ensures
        g.perform(seat, a) matches Ok(h) ==> g.follows(h) && h.outcome == g.outcome && (g.sound()
            && g.plays_fairly(seat, a) && g.in_hand_for(seat, a) ==> h.sound() && (!(a is Concede)
            ==> h.casts_its_own())),
        a is Concede ==> (g.perform(seat, a) matches Ok(h) ==> g.leads_to(h)),
{
    reveal(GameModel::perform);
    reveal(GameModel::leads_to);
    match a {
        ActionModel::Mulligan { keep } => {
            reveal(GameModel::mulligan);
            if keep {
                keep_keep_hand(g, seat);
                reveal(GameModel::keeps);
            } else {
                keep_take_mulligan(g, seat);
            }
        },
        ActionModel::PlayLand { object } => {
            keep_play_land(g, seat, object);
        },
        ActionModel::CastSpell { object, targets, payment } => {
            keep_cast_spell(g, seat, object, targets, payment);
        },
        ActionModel::BottomCards { objects } => {
            keep_bottom_cards(g, seat, objects);
        },
        ActionModel::ChooseTargets { targets } => {
            keep_choose_trigger_targets(g, targets);
            keep_answer_choice(g, targets);
            keep_answer_cast(g, 0, targets);
            reveal(GameModel::keeps);
        },
        ActionModel::ChooseMode { mode } => {
            keep_answer_option(g, mode);
            keep_answer_cast(g, mode, Seq::empty());
            reveal(GameModel::keeps);
        },
        _ => {
            assert(g.perform(seat, a) matches Ok(h) ==> g.keeps(h)) by {
                keep_perform_plain(g, seat, a);
            }
            reveal(GameModel::keeps);
        },
    }
}

proof fn keep_perform_plain(g: GameModel, seat: Seat, a: ActionModel)
    requires
        !(a is Mulligan) && !(a is PlayLand) && !(a is CastSpell) && !(a is BottomCards) && !(
        a is ChooseTargets) && !(a is ChooseMode),
    ensures
        g.perform(seat, a) matches Ok(h) ==> g.keeps(h),
{
    reveal(GameModel::perform);
    match a {
        ActionModel::PassPriority => {
            keep_pass_priority(g, seat);
        },
        ActionModel::ActivateAbility { object, ability, targets, payment } => {
            keep_activate_ability(g, seat, object, ability, targets, payment);
        },
        ActionModel::DeclareAttackers { attackers } => {
            keep_declare_attackers(g, seat, attackers);
        },
        ActionModel::DeclareBlockers { blocks } => {
            keep_declare_blockers(g, seat, blocks);
        },
        ActionModel::AssignCombatDamage { attacker, assignments } => {
            keep_assign_combat_damage(g, attacker, assignments);
        },
        ActionModel::Discard { objects } => {
            keep_discard_to_hand_size(g, seat, objects);
        },
        ActionModel::Concede => {
            keep_eliminate(g, seat, Elimination::Conceded);
        },
        _ => {},
    }
}

} // verus!
