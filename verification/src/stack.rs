//! The effect evaluator. A resolution runs on an explicit frame stack so it
//! can pause on a player's choice at any depth and continue later.
use crate::action::Target;
use crate::filter::{as_targets, ids_as_targets, objects_in, target_objects};
use crate::interp::asks;
use crate::ir::{Bind, Effect, Filter};
use crate::seqs::{copied, group_views, share, slice, sort, sorted, views};
use crate::state::{ActReason, ContModel, Continuation, Ctx, CtxModel, Frame, FrameModel, Game, GameModel, PendingChoice, PendingModel};
use crate::types::{ObjectId, Seat, Zone};
use std::sync::Arc;
use vstd::prelude::*;
use vstd::string::*;

verus! {

broadcast use group_views;

// ----- how much work is left -----

/// How many steps an effect can unfold into. An effect that first asks for a
/// pick counts once for the question and once for the answer.
pub open spec fn weight(e: Effect) -> nat
    decreases e, 0nat,
{
    match e {
        Effect::Sequence(es) => 1 + weights_from(es@, 0),
        Effect::Conditional { yes, no, .. } => 1 + weight(*yes) + match no {
            Some(x) => weight(*x),
            None => 0,
        },
        Effect::May { effect, after, otherwise, .. } => 1 + weight(*effect) + weights_from(
            after@,
            0,
        ) + weights_from(otherwise@, 0),
        other => if asks(other) {
            2
        } else {
            1
        },
    }
}

/// The weight of the effects from index `i` on.
pub open spec fn weights_from(es: Seq<Effect>, i: nat) -> nat
    decreases es, es.len() - i,
{
    if i >= es.len() {
        0
    } else {
        weight(es[i as int]) + weights_from(es, i + 1)
    }
}

/// The weight of the first `n` branches.
pub open spec fn branch_weights(bs: Seq<Seq<Effect>>, n: nat) -> nat
    decreases n,
{
    if n == 0 || n > bs.len() {
        0
    } else {
        branch_weights(bs, (n - 1) as nat) + weights_from(bs[n - 1], 0)
    }
}

pub open spec fn frame_weight(f: FrameModel) -> nat {
    match f {
        FrameModel::Effects { effects, next } => weights_from(effects, next),
        FrameModel::Branch { branches, .. } => branch_weights(branches, branches.len()),
        _ => 0,
    }
}

/// How often a frame can be looked at before its weight goes down.
pub open spec fn frame_rank(f: FrameModel) -> nat {
    match f {
        FrameModel::Branch { .. } => 2,
        FrameModel::Discard { seats, .. } => 1 + 3 * seats.len(),
        FrameModel::Sacrifice { seats, .. } => 1 + 3 * seats.len(),
        _ => 1,
    }
}

pub open spec fn total_weight(fs: Seq<FrameModel>, n: nat) -> nat
    decreases n,
{
    if n == 0 || n > fs.len() {
        0
    } else {
        total_weight(fs, (n - 1) as nat) + frame_weight(fs[n - 1])
    }
}

pub open spec fn total_rank(fs: Seq<FrameModel>, n: nat) -> nat
    decreases n,
{
    if n == 0 || n > fs.len() {
        0
    } else {
        total_rank(fs, (n - 1) as nat) + frame_rank(fs[n - 1])
    }
}

proof fn lemma_totals_add(a: Seq<FrameModel>, b: Seq<FrameModel>, n: nat)
    requires
        n <= b.len(),
    ensures
        total_weight(a + b, a.len() + n) == total_weight(a, a.len()) + total_weight(b, n),
        total_rank(a + b, a.len() + n) == total_rank(a, a.len()) + total_rank(b, n),
    decreases n,
{
    if n == 0 {
        lemma_totals_prefix(a, b, a.len());
    } else {
        lemma_totals_add(a, b, (n - 1) as nat);
        assert((a + b)[a.len() + n - 1] == b[n - 1]);
    }
}

proof fn lemma_totals_prefix(a: Seq<FrameModel>, b: Seq<FrameModel>, n: nat)
    requires
        n <= a.len(),
    ensures
        total_weight(a + b, n) == total_weight(a, n),
        total_rank(a + b, n) == total_rank(a, n),
    decreases n,
{
    if n > 0 {
        lemma_totals_prefix(a, b, (n - 1) as nat);
        assert((a + b)[n - 1] == a[n - 1]);
    }
}

proof fn lemma_branch_weight(bs: Seq<Seq<Effect>>, i: nat, n: nat)
    requires
        i < n <= bs.len(),
    ensures
        weights_from(bs[i as int], 0) <= branch_weights(bs, n),
    decreases n,
{
    if i < n - 1 {
        lemma_branch_weight(bs, i, (n - 1) as nat);
    }
}

proof fn lemma_weights_of_prefixed(e: Effect, es: Seq<Effect>, i: nat)
    ensures
        weights_from(seq![e] + es, i + 1) == weights_from(es, i),
    decreases es.len() - i,
{
    if i < es.len() {
        assert((seq![e] + es)[(i + 1) as int] == es[i as int]);
        lemma_weights_of_prefixed(e, es, i + 1);
    }
}

/// The frames one step of an effect leaves weigh less than the effect.
proof fn lemma_step_weight(g: GameModel, ctx: CtxModel, e: Effect)
    ensures
        total_weight(g.step_frames(ctx, e), g.step_frames(ctx, e).len()) < weight(e),
{
    reveal(GameModel::ask_frames);
    reveal(GameModel::effect_frames);
    reveal_with_fuel(total_weight, 3);
    reveal_with_fuel(weights_from, 3);
    reveal_with_fuel(branch_weights, 3);
    let fs = g.step_frames(ctx, e);
    if asks(e) {
        assert(fs.len() == 2);
        assert(fs[1] is Choose);
        let r = fs[0]->effects[0];
        assert(fs[0]->effects =~= seq![r]);
        assert(!asks(r));
        assert(weight(r) == 1);
        assert(weight(e) == 2);
        assert(frame_weight(fs[0]) == 1);
    } else {
        match e {
            Effect::Sequence(es) => {
                assert(fs.len() == 1);
            },
            Effect::Conditional { yes, no, .. } => {
                assert(fs.len() <= 1);
                if fs.len() == 1 {
                    assert(fs[0]->effects.len() == 1);
                    assert(frame_weight(fs[0]) == weight(fs[0]->effects[0]));
                }
            },
            Effect::May { effect, after, otherwise, .. } => {
                assert(fs.len() == 2);
                let bs = fs[0]->branches;
                assert(bs.len() == 2);
                assert(bs[0] == seq![*effect] + after@);
                assert(bs[1] == otherwise@);
                let first = bs[0][0];
                assert(first == *effect);
                lemma_weights_of_prefixed(first, after@, 0);
                assert(weights_from(bs[0], 0) == weight(*effect) + weights_from(after@, 0));
            },
            Effect::Discard { .. } => {
                assert(fs.len() == 1);
            },
            Effect::Sacrifice { .. } => {
                assert(fs.len() == 1);
            },
            _ => {
                assert(fs.len() == 0);
            },
        }
    }
}

// ----- one frame -----

/// The objects a name holds.
pub open spec fn bound_ids(ctx: CtxModel, bind: Bind) -> Seq<ObjectId> {
    match ctx.bound(bind) {
        Some(ts) => objects_in(ts, ts.len()),
        None => Seq::empty(),
    }
}

/// The most that can be picked of `n` options.
pub open spec fn most_of(max: nat, n: nat) -> nat {
    if max < n {
        max
    } else {
        n
    }
}

/// The fewest that must be picked when at most `most` can.
pub open spec fn least_of(min: nat, most: nat) -> nat {
    if min < most {
        min
    } else {
        most
    }
}

/// The first `count` of a list.
pub open spec fn first_of(ids: Seq<ObjectId>, count: nat) -> Seq<ObjectId> {
    if count < ids.len() {
        ids.subrange(0, count as int)
    } else {
        ids
    }
}

impl GameModel {
    /// The permanents `seat` could sacrifice, in id order. The filter is read
    /// from the sacrificing player's side ("a creature you control").
    pub open spec fn sacrifices(self, seat: Seat, filter: Filter, ctx: CtxModel) -> Seq<ObjectId> {
        sort(self.matching(self.battlefield(seat), filter, ctx.as_seen_by(seat)))
    }

    /// Sacrifice those of the first `n` ids that `seat` still controls.
    pub open spec fn sacrifice_each(self, seat: Seat, ids: Seq<ObjectId>, n: nat) -> GameModel
        decreases n,
    {
        if n == 0 || n > ids.len() {
            self
        } else {
            let g = self.sacrifice_each(seat, ids, (n - 1) as nat);
            if g.in_zone(ids[n - 1], Zone::Battlefield) && g.obj(ids[n - 1]).controller == seat {
                g.sacrifice(seat, ids[n - 1])
            } else {
                g
            }
        }
    }

    /// A player discards `count` cards at random.
    pub open spec fn discard_at_random(self, seat: Seat, count: nat) -> GameModel {
        let hand = self.hand(seat);
        GameModel { dice: self.dice.after_shuffle(hand), ..self }.discard(
            seat,
            first_of(self.dice.shuffled(hand), count),
        )
    }

    /// The frame has to ask a player something first.
    pub open spec fn frame_asks(self, f: FrameModel) -> bool {
        match f {
            FrameModel::Choose { options, min, max, .. } => {
                let most = most_of(max, options.len());
                most > 0 && options.len() > least_of(min, most)
            },
            FrameModel::ChooseOption { labels, .. } => labels.len() > 1,
            _ => false,
        }
    }

    /// The question a frame asks, with what is to be done after the answer.
    pub open spec fn frame_question(self, f: FrameModel, k: ContModel) -> GameModel {
        match f {
            FrameModel::Choose { seat, options, min, max, prompt, reason, bind } => {
                let most = most_of(max, options.len());
                GameModel {
                    pending: Some(
                        PendingModel::Choose {
                            seat,
                            options,
                            min: least_of(min, most),
                            max: most,
                            prompt,
                            reason,
                            bind,
                            resume: k,
                        },
                    ),
                    priority: None,
                    ..self
                }
            },
            FrameModel::ChooseOption { seat, labels, bind } => GameModel {
                pending: Some(PendingModel::ChooseOption { seat, labels, bind, resume: k }),
                priority: None,
                ..self
            },
            _ => self,
        }
    }

    /// The game after a frame that asks nothing.
    pub open spec fn frame_game(self, f: FrameModel, ctx: CtxModel) -> GameModel {
        match f {
            FrameModel::Effects { effects, next } => if next < effects.len() {
                self.step(ctx, effects[next as int])
            } else {
                self
            },
            FrameModel::Discard { seats, count, random } => if count > 0 && seats.len() > 0
                && random && self.hand(seats[0]).len() > 0 {
                self.discard_at_random(seats[0], count as nat)
            } else {
                self
            },
            FrameModel::SacrificeBound { seat, bind } => {
                let ids = bound_ids(ctx, bind);
                self.sacrifice_each(seat, ids, ids.len())
            },
            FrameModel::DiscardBound { seat, bind } => {
                let ids = bound_ids(ctx, bind);
                if ids.len() > 0 {
                    self.discard(seat, ids)
                } else {
                    self
                }
            },
            _ => self,
        }
    }

    /// The context after a frame that asks nothing.
    pub open spec fn frame_ctx(self, f: FrameModel, ctx: CtxModel) -> CtxModel {
        match f {
            FrameModel::Choose { options, max, bind, .. } => if most_of(max, options.len()) == 0 {
                ctx.binding(bind, Seq::empty())
            } else {
                ctx.binding(bind, options)
            },
            FrameModel::ChooseOption { bind, .. } => ctx.opting(bind, 0),
            FrameModel::Targets { groups } => CtxModel { targets: groups, ..ctx },
            _ => ctx,
        }
    }

    /// The frames a frame that asks nothing leaves, in push order.
    pub open spec fn frame_pushes(self, f: FrameModel, ctx: CtxModel) -> Seq<FrameModel> {
        match f {
            FrameModel::Effects { effects, next } => if next < effects.len() {
                let rest = if next + 1 < effects.len() {
                    seq![FrameModel::Effects { effects, next: next + 1 }]
                } else {
                    Seq::empty()
                };
                rest + self.step_frames(ctx, effects[next as int])
            } else {
                Seq::empty()
            },
            FrameModel::Branch { bind, branches } => match ctx.opted(bind) {
                Some(i) => if i < branches.len() && branches[i as int].len() > 0 {
                    seq![FrameModel::Effects { effects: branches[i as int], next: 0 }]
                } else {
                    Seq::empty()
                },
                None => Seq::empty(),
            },
            FrameModel::Discard { seats, count, random } => if count > 0 && seats.len() > 0 {
                let rest = if seats.len() > 1 {
                    seq![FrameModel::Discard { seats: seats.drop_first(), count, random }]
                } else {
                    Seq::empty()
                };
                let hand = self.hand(seats[0]);
                if random || hand.len() == 0 {
                    rest
                } else {
                    rest + seq![
                        FrameModel::DiscardBound { seat: seats[0], bind: Bind::Discard },
                        FrameModel::Choose {
                            seat: seats[0],
                            options: as_targets(sort(hand)),
                            min: count as nat,
                            max: count as nat,
                            prompt: "Discard"@,
                            reason: ActReason::Discard,
                            bind: Bind::Discard,
                        },
                    ]
                }
            } else {
                Seq::empty()
            },
            FrameModel::Sacrifice { seats, filter, count } => if count > 0 && seats.len() > 0 {
                let rest = if seats.len() > 1 {
                    seq![FrameModel::Sacrifice { seats: seats.drop_first(), filter, count }]
                } else {
                    Seq::empty()
                };
                let held = self.sacrifices(seats[0], filter, ctx);
                if held.len() == 0 {
                    rest
                } else {
                    rest + seq![
                        FrameModel::SacrificeBound { seat: seats[0], bind: Bind::Sacrifice },
                        FrameModel::Choose {
                            seat: seats[0],
                            options: as_targets(held),
                            min: count as nat,
                            max: count as nat,
                            prompt: "Sacrifice"@,
                            reason: ActReason::Choice,
                            bind: Bind::Sacrifice,
                        },
                    ]
                }
            } else {
                Seq::empty()
            },
            _ => Seq::empty(),
        }
    }

    /// What is left to do after the topmost frame.
    pub open spec fn after_frame(self, k: ContModel) -> ContModel {
        let f = k.frames.last();
        ContModel {
            ctx: self.frame_ctx(f, k.ctx),
            frames: k.frames.drop_last() + self.frame_pushes(f, k.ctx),
            ..k
        }
    }

    /// Run frames until none are left or a player must choose something
    /// first; `true` when finished.
    pub open spec fn run(self, k: ContModel) -> (GameModel, bool)
        decreases
            total_weight(k.frames, k.frames.len()),
            total_rank(k.frames, k.frames.len()),
    {
        if k.frames.len() == 0 {
            (self, true)
        } else {
            let f = k.frames.last();
            if self.frame_asks(f) {
                (
                    self.frame_question(f, ContModel { frames: k.frames.drop_last(), ..k }),
                    false,
                )
            } else {
                proof {
                    lemma_frame_decreases(self, k);
                }
                self.frame_game(f, k.ctx).run(self.after_frame(k))
            }
        }
    }

    /// Continue a resolution that paused on a choice.
    pub open spec fn resume(self, k: ContModel) -> GameModel {
        let (g, done) = self.run(k);
        if done {
            g.give_priority_to_active()
        } else {
            g
        }
    }

    /// Answer a pending pick with what was chosen, then continue the
    /// resolution that asked.
    #[verifier::opaque]
    pub open spec fn answer_choice(self, targets: Seq<Target>) -> GameModel {
        match self.pending {
            Some(PendingModel::Choose { bind, resume, .. }) => GameModel {
                pending: None,
                ..self
            }.resume(ContModel { ctx: resume.ctx.binding(bind, targets), ..resume }),
            _ => self,
        }
    }

    /// Answer a pending option ("you may": do it, or don't), then continue.
    #[verifier::opaque]
    pub open spec fn answer_option(self, mode: u8) -> GameModel {
        match self.pending {
            Some(PendingModel::ChooseOption { bind, resume, .. }) => GameModel {
                pending: None,
                ..self
            }.resume(ContModel { ctx: resume.ctx.opting(bind, mode), ..resume }),
            _ => self,
        }
    }
}

/// Each frame leaves less work than there was.
pub proof fn lemma_frame_decreases(g: GameModel, k: ContModel)
    requires
        k.frames.len() > 0,
    ensures
        ({
            let next = g.after_frame(k);
            let before = total_weight(k.frames, k.frames.len());
            let after = total_weight(next.frames, next.frames.len());
            after < before || (after == before && total_rank(next.frames, next.frames.len())
                < total_rank(k.frames, k.frames.len()))
        }),
{
    let f = k.frames.last();
    let rest = k.frames.drop_last();
    let pushed = g.frame_pushes(f, k.ctx);
    assert(k.frames =~= rest + seq![f]);
    lemma_totals_add(rest, seq![f], 1);
    lemma_totals_add(rest, pushed, pushed.len());
    reveal_with_fuel(total_weight, 4);
    reveal_with_fuel(total_rank, 4);
    match f {
        FrameModel::Effects { effects, next } => {
            if next < effects.len() {
                let e = effects[next as int];
                let fs = g.step_frames(k.ctx, e);
                lemma_step_weight(g, k.ctx, e);
                let left = if next + 1 < effects.len() {
                    seq![FrameModel::Effects { effects, next: next + 1 }]
                } else {
                    Seq::empty()
                };
                lemma_totals_add(left, fs, fs.len());
                assert(weights_from(effects, next) == weight(e) + weights_from(effects, next + 1));
                assert(total_weight(left, left.len()) == weights_from(effects, next + 1)) by {
                    if next + 1 < effects.len() {
                        assert(left[0] == FrameModel::Effects { effects, next: next + 1 });
                    }
                }
            }
        },
        FrameModel::Branch { bind, branches } => {
            match k.ctx.opted(bind) {
                Some(i) => {
                    if i < branches.len() {
                        lemma_branch_weight(branches, i as nat, branches.len());
                    }
                },
                None => {},
            }
        },
        FrameModel::Discard { seats, count, random } => {
            assert(pushed.len() <= 3);
        },
        FrameModel::Sacrifice { seats, filter, count } => {
            assert(pushed.len() <= 3);
        },
        _ => {},
    }
}

// ----- running frames -----

/// The objects a name holds.
fn bound_objects(ctx: &Ctx, bind: Bind) -> (r: Vec<ObjectId>)
    ensures
        r@ == bound_ids(ctx@, bind),
{
    match ctx.get_bound(bind) {
        Some(ts) => target_objects(ts),
        None => Vec::new(),
    }
}

/// Push every frame of `more`.
fn push_frames(frames: &mut Vec<Frame>, more: Vec<Frame>)
    ensures
        views(final(frames)@) == views(old(frames)@) + views(more@),
{
    let mut more = more;
    frames.append(&mut more);
}

impl Game {
    fn run_effects(&mut self, effects: Arc<Vec<Effect>>, next: usize, k: Continuation) -> (r:
        Continuation)
        ensures
            final(self).model() == old(self).model().frame_game(
                (FrameModel::Effects { effects: effects@, next: next as nat }),
                k@.ctx,
            ),
            r@ == (ContModel {
                frames: k@.frames + old(self).model().frame_pushes(
                    (FrameModel::Effects { effects: effects@, next: next as nat }),
                    k@.ctx,
                ),
                ..k@
            }),
    {
        let ghost f = FrameModel::Effects { effects: effects@, next: next as nat };
        let ghost pushes = self.model().frame_pushes(f, k@.ctx);
        let mut k = k;
        let ghost start = k@.frames;
        if next >= effects.len() {
            assert(start + pushes =~= start);
            return k;
        }
        if effects.len() - next > 1 {
            k.frames.push(Frame::Effects { effects: share(&effects), next: next + 1 });
        }
        let ghost mid = k@.frames;
        let more = self.step(&k.ctx, &effects[next]);
        let ghost last = views(more@);
        push_frames(&mut k.frames, more);
        assert(mid + last =~= start + pushes);
        k
    }

    fn run_choose(
        &mut self,
        seat: Seat,
        options: Vec<Target>,
        min: usize,
        max: usize,
        prompt: String,
        reason: ActReason,
        bind: Bind,
        k: Continuation,
    ) -> (r: Option<Continuation>)
        ensures
            ({
                let f = FrameModel::Choose {
                    seat,
                    options: options@,
                    min: min as nat,
                    max: max as nat,
                    prompt: prompt@,
                    reason,
                    bind,
                };
                match r {
                    Some(k2) => !old(self).model().frame_asks(f) && final(self).model() == old(
                        self,
                    ).model() && k2@ == (ContModel {
                        ctx: old(self).model().frame_ctx(f, k@.ctx),
                        ..k@
                    }),
                    None => old(self).model().frame_asks(f) && final(self).model() == old(
                        self,
                    ).model().frame_question(f, k@),
                }
            }),
    {
        let most: usize = if max < options.len() {
            max
        } else {
            options.len()
        };
        let least: usize = if min < most {
            min
        } else {
            most
        };
        if most == 0 {
            let mut k = k;
            k.ctx.bind(bind, Vec::new());
            return Some(k);
        }
        if options.len() <= least {
            // Everything must be taken: no decision to make.
            let mut k = k;
            k.ctx.bind(bind, options);
            return Some(k);
        }
        self.pending = Some(
            PendingChoice::Choose {
                seat,
                options,
                min: least,
                max: most,
                prompt,
                reason,
                bind,
                resume: k,
            },
        );
        self.priority = None;
        None
    }

    fn run_discard(&mut self, seats: Vec<Seat>, count: i32, random: bool, k: Continuation) -> (r:
        Continuation)
        ensures
            final(self).model() == old(self).model().frame_game(
                (FrameModel::Discard { seats: seats@, count, random }),
                k@.ctx,
            ),
            r@ == (ContModel {
                frames: k@.frames + old(self).model().frame_pushes(
                    (FrameModel::Discard { seats: seats@, count, random }),
                    k@.ctx,
                ),
                ..k@
            }),
    {
        let ghost f = FrameModel::Discard { seats: seats@, count, random };
        let ghost pushes = self.model().frame_pushes(f, k@.ctx);
        let mut k = k;
        let ghost start = k@.frames;
        if count <= 0 || seats.len() == 0 {
            assert(start + pushes =~= start);
            return k;
        }
        let seat = seats[0];
        if seats.len() > 1 {
            let others = crate::combat::tail(&seats);
            k.frames.push(Frame::Discard { seats: others, count, random });
        }
        let hand = self.hand_of(seat);
        if hand.len() == 0 {
            assert(k@.frames =~= start + pushes);
            return k;
        }
        if random {
            let mixed = self.dice.shuffle(&hand);
            let n: usize = if mixed.len() > count as usize {
                count as usize
            } else {
                mixed.len()
            };
            let chosen = slice(&mixed, 0, n);
            assert(chosen@ =~= first_of(mixed@, count as nat));
            self.discard(seat, &chosen);
            assert(k@.frames =~= start + pushes);
            return k;
        }
        let options = ids_as_targets(&sorted(&hand));
        k.frames.push(Frame::DiscardBound { seat, bind: Bind::Discard });
        k.frames.push(
            Frame::Choose {
                seat,
                options,
                min: count as usize,
                max: count as usize,
                prompt: "Discard".to_owned(),
                reason: ActReason::Discard,
                bind: Bind::Discard,
            },
        );
        assert(k@.frames =~= start + pushes);
        k
    }

    fn run_sacrifice(&self, seats: Vec<Seat>, filter: Filter, count: i32, k: Continuation) -> (r:
        Continuation)
        ensures
            r@ == (ContModel {
                frames: k@.frames + self.model().frame_pushes(
                    (FrameModel::Sacrifice { seats: seats@, filter, count }),
                    k@.ctx,
                ),
                ..k@
            }),
    {
        let ghost f = FrameModel::Sacrifice { seats: seats@, filter, count };
        let ghost pushes = self.model().frame_pushes(f, k@.ctx);
        let mut k = k;
        let ghost start = k@.frames;
        if count <= 0 || seats.len() == 0 {
            assert(start + pushes =~= start);
            return k;
        }
        let seat = seats[0];
        if seats.len() > 1 {
            let others = crate::combat::tail(&seats);
            k.frames.push(Frame::Sacrifice { seats: others, filter: filter.clone(), count });
        }
        let sub = k.ctx.seen_by(seat);
        let held = self.battlefield_of(seat);
        let candidates = sorted(&self.matching(&held, &filter, &sub));
        if candidates.len() == 0 {
            assert(k@.frames =~= start + pushes);
            return k;
        }
        let options = ids_as_targets(&candidates);
        k.frames.push(Frame::SacrificeBound { seat, bind: Bind::Sacrifice });
        k.frames.push(
            Frame::Choose {
                seat,
                options,
                min: count as usize,
                max: count as usize,
                prompt: "Sacrifice".to_owned(),
                reason: ActReason::Choice,
                bind: Bind::Sacrifice,
            },
        );
        assert(k@.frames =~= start + pushes);
        k
    }

    fn run_branch(&self, bind: Bind, branches: &Vec<Arc<Vec<Effect>>>, k: Continuation) -> (r:
        Continuation)
        ensures
            r@ == (ContModel {
                frames: k@.frames + self.model().frame_pushes(
                    (FrameModel::Branch {
                        bind,
                        branches: crate::state::branch_views(branches@),
                    }),
                    k@.ctx,
                ),
                ..k@
            }),
    {
        let ghost f = FrameModel::Branch {
            bind,
            branches: crate::state::branch_views(branches@),
        };
        let ghost pushes = self.model().frame_pushes(f, k@.ctx);
        let mut k = k;
        let ghost start = k@.frames;
        if let Some(i) = k.ctx.get_option(bind) {
            if (i as usize) < branches.len() && branches[i as usize].len() > 0 {
                k.frames.push(Frame::Effects { effects: share(&branches[i as usize]), next: 0 });
            }
        }
        assert(k@.frames =~= start + pushes);
        k
    }

    fn sacrifice_each(&mut self, seat: Seat, ids: &Vec<ObjectId>)
        ensures
            final(self).model() == old(self).model().sacrifice_each(seat, ids@, ids@.len()),
    {
        let mut i: usize = 0;
        while i < ids.len()
            invariant
                i <= ids.len(),
                self.model() == old(self).model().sacrifice_each(seat, ids@, i as nat),
            decreases ids.len() - i,
        {
            let mine = match self.find_obj(ids[i]) {
                Some(o) => o.zone == Zone::Battlefield && o.controller == seat,
                None => false,
            };
            if mine {
                self.sacrifice(seat, ids[i]);
            }
            i = i + 1;
        }
    }

    fn run_frame(&mut self, f: Frame, k: Continuation) -> (r: Option<Continuation>)
        ensures
            match r {
                Some(k2) => !old(self).model().frame_asks(f@) && final(self).model() == old(
                    self,
                ).model().frame_game(f@, k@.ctx) && k2@ == (ContModel {
                    ctx: old(self).model().frame_ctx(f@, k@.ctx),
                    frames: k@.frames + old(self).model().frame_pushes(f@, k@.ctx),
                    ..k@
                }),
                None => old(self).model().frame_asks(f@) && final(self).model() == old(
                    self,
                ).model().frame_question(f@, k@),
            },
    {
        assert(k@.frames + Seq::<FrameModel>::empty() =~= k@.frames);
        match f {
            Frame::Effects { effects, next } => Some(self.run_effects(effects, next, k)),
            Frame::Choose { seat, options, min, max, prompt, reason, bind } => {
                self.run_choose(seat, options, min, max, prompt, reason, bind, k)
            },
            Frame::ChooseOption { seat, labels, bind } => {
                if labels.len() <= 1 {
                    let mut k = k;
                    k.ctx.opt(bind, 0);
                    Some(k)
                } else {
                    self.pending = Some(
                        PendingChoice::ChooseOption { seat, labels, bind, resume: k },
                    );
                    self.priority = None;
                    None
                }
            },
            Frame::Branch { bind, branches } => Some(self.run_branch(bind, &branches, k)),
            Frame::Discard { seats, count, random } => Some(
                self.run_discard(seats, count, random, k),
            ),
            Frame::Sacrifice { seats, filter, count } => Some(
                self.run_sacrifice(seats, filter, count, k),
            ),
            Frame::SacrificeBound { seat, bind } => {
                let ids = bound_objects(&k.ctx, bind);
                self.sacrifice_each(seat, &ids);
                Some(k)
            },
            Frame::DiscardBound { seat, bind } => {
                let ids = bound_objects(&k.ctx, bind);
                if ids.len() > 0 {
                    self.discard(seat, &ids);
                }
                Some(k)
            },
            Frame::Targets { groups } => {
                let mut k = k;
                k.ctx.targets = groups;
                Some(k)
            },
        }
    }

    /// Run the continuation to completion. Returns `true` when finished;
    /// `false` when a player must choose something first, in which case the
    /// continuation is stored in `pending` and nobody holds priority.
    pub(crate) fn run(&mut self, k: Continuation) -> (done: bool)
        ensures
            (final(self).model(), done) == old(self).model().run(k@),
    {
        let ghost start = self.model();
        let mut rest = k;
        while rest.frames.len() > 0
            invariant
                start.run(k@) == self.model().run(rest@),
                start == old(self).model(),
            decreases
                total_weight(rest@.frames, rest@.frames.len()),
                total_rank(rest@.frames, rest@.frames.len()),
        {
            let ghost now = rest@;
            let ghost g = self.model();
            proof {
                lemma_frame_decreases(g, now);
            }
            match rest.frames.pop() {
                Some(f) => {
                    assert(f@ == now.frames.last());
                    assert(rest@.frames =~= now.frames.drop_last());
                    match self.run_frame(f, rest) {
                        Some(next) => {
                            rest = next;
                            assert(rest@ =~= g.after_frame(now));
                        },
                        None => {
                            return false;
                        },
                    }
                },
                None => {},
            }
        }
        true
    }

    /// Continue a resolution that paused on a choice.
    pub(crate) fn resume(&mut self, k: Continuation)
        ensures
            final(self).model() == old(self).model().resume(k@),
    {
        if self.run(k) {
            self.give_priority_to_active();
        }
    }

    /// Answer a pending pick with what was chosen, then continue the
    /// resolution that asked.
    pub(crate) fn answer_choice(&mut self, targets: &Vec<Target>)
        ensures
            final(self).model() == old(self).model().answer_choice(targets@),
    {
        reveal(GameModel::answer_choice);
        match self.pending.take() {
            Some(PendingChoice::Choose { bind, resume, .. }) => {
                let mut resume = resume;
                resume.ctx.bind(bind, copied(targets));
                self.resume(resume);
            },
            other => {
                self.pending = other;
            },
        }
    }

    /// Answer a pending option ("you may": do it, or don't), then continue.
    pub(crate) fn answer_option(&mut self, mode: u8)
        ensures
            final(self).model() == old(self).model().answer_option(mode),
    {
        reveal(GameModel::answer_option);
        match self.pending.take() {
            Some(PendingChoice::ChooseOption { bind, resume, .. }) => {
                let mut resume = resume;
                resume.ctx.opt(bind, mode);
                self.resume(resume);
            },
            other => {
                self.pending = other;
            },
        }
    }
}

} // verus!
