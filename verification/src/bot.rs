//! The built-in random opponent: picks uniformly from `legal_actions`.
use crate::action::{Action, ActionModel};
use crate::dice::Dice;
use crate::error::{ErrorModel, RulesError};
use crate::seqs::{group_views, views};
use crate::state::{Game, GameModel};
use crate::types::Seat;
use vstd::prelude::*;

verus! {

broadcast use group_views;

/// The first `n` actions but concessions.
pub open spec fn playable(acts: Seq<ActionModel>, n: nat) -> Seq<ActionModel>
    decreases n,
{
    if n == 0 || n > acts.len() {
        Seq::empty()
    } else {
        let rest = playable(acts, (n - 1) as nat);
        if acts[n - 1] is Concede {
            rest
        } else {
            rest.push(acts[n - 1])
        }
    }
}

/// What the bot chooses from: everything but conceding, while there is anything else.
pub open spec fn options(acts: Seq<ActionModel>) -> Seq<ActionModel> {
    let some = playable(acts, acts.len());
    if some.len() == 0 {
        acts
    } else {
        some
    }
}

pub open spec fn indices(n: nat) -> Seq<u32> {
    Seq::new(n, |i: int| i as u32)
}

/// The action the dice pick.
pub open spec fn chosen(dice: Dice, pool: Seq<ActionModel>) -> Option<ActionModel> {
    match dice.picked(indices(pool.len())) {
        Some(k) => if k < pool.len() {
            Some(pool[k as int])
        } else {
            None
        },
        None => None,
    }
}

/// A game, the bot's dice, the number of actions applied, and what stopped it.
#[verifier::ext_equal]
pub ghost struct Session {
    pub game: GameModel,
    pub dice: Dice,
    pub applied: nat,
    pub error: Option<ErrorModel>,
}

impl Session {
    /// One action of whoever must act; the same session if nobody must.
    pub open spec fn next(self) -> Session {
        match self.game.acting() {
            None => self,
            Some((seat, _)) => {
                let pool = options(self.game.legal(seat));
                let dice = self.dice.after_pick(indices(pool.len()));
                match chosen(self.dice, pool) {
                    None => Session { dice, ..self },
                    Some(a) => match self.game.apply(seat, a) {
                        Ok(game) => Session { game, dice, applied: self.applied + 1, ..self },
                        Err(e) => Session { dice, error: Some(e), ..self },
                    },
                }
            },
        }
    }

    /// The session after at most `n` actions.
    pub open spec fn played(self, n: nat) -> Session
        decreases n,
    {
        if n == 0 {
            self
        } else {
            let before = self.played((n - 1) as nat);
            if before.applied == self.applied + n - 1 {
                before.next()
            } else {
                before
            }
        }
    }

    proof fn lemma_stopped(self, k: nat, n: nat)
        requires
            k <= n,
            self.played(k).applied != self.applied + k,
        ensures
            self.played(n) == self.played(k),
            self.played(n).applied < self.applied + n,
        decreases n,
    {
        self.lemma_at_most(k);
        if k < n {
            self.lemma_stopped(k, (n - 1) as nat);
        }
    }

    proof fn lemma_at_most(self, n: nat)
        ensures
            self.played(n).applied <= self.applied + n,
        decreases n,
    {
        if n > 0 {
            self.lemma_at_most((n - 1) as nat);
        }
    }
}

/// The first `n` actions hold something else than conceding only if the
/// playable ones do.
proof fn lemma_playable(acts: Seq<ActionModel>, n: nat)
    requires
        n <= acts.len(),
    ensures
        forall|i: int|
            0 <= i < playable(acts, n).len() ==> !((#[trigger] playable(acts, n)[i]) is Concede),
        playable(acts, n).len() == 0 ==> forall|i: int| 0 <= i < n ==> (#[trigger] acts[i]) is Concede,
    decreases n,
{
    if n > 0 {
        lemma_playable(acts, (n - 1) as nat);
    }
}

/// The bot never concedes while it has any other option.
pub proof fn law_bot_concedes_last(acts: Seq<ActionModel>, dice: Dice)
    requires
        chosen(dice, options(acts)) == Some(ActionModel::Concede),
    ensures
        forall|i: int| 0 <= i < acts.len() ==> (#[trigger] acts[i]) is Concede,
{
    lemma_playable(acts, acts.len());
}

#[derive(Debug)]
pub struct RandomBot {
    pub dice: Dice,
}

fn index_list(n: usize) -> (r: Vec<u32>)
    ensures
        r@ == indices(n as nat),
{
    let mut v: Vec<u32> = Vec::new();
    let mut i: usize = 0;
    while i < n
        invariant
            i <= n,
            v@ == indices(i as nat),
        decreases n - i,
    {
        v.push(i as u32);
        i = i + 1;
        assert(v@ =~= indices(i as nat));
    }
    v
}

impl RandomBot {
    pub fn new(seed: u64) -> (r: RandomBot)
        ensures
            r.dice == (Dice { seed, pos: 0 }),
    {
        RandomBot { dice: Dice::new(seed) }
    }

    /// A uniformly random legal action for `seat`. The bot never concedes
    /// while it has any other option, so its games run to a real result.
    pub fn choose_action(&mut self, game: &Game, seat: Seat) -> (r: Option<Action>)
        ensures
            match r {
                Some(a) => chosen(old(self).dice, options(game.model().legal(seat))) == Some(a@),
                None => chosen(old(self).dice, options(game.model().legal(seat))) is None,
            },
            final(self).dice == old(self).dice.after_pick(
                indices(options(game.model().legal(seat)).len()),
            ),
    {
        let ghost legal = game.model().legal(seat);
        let acts = game.legal_actions(seat);
        let mut some: Vec<Action> = Vec::new();
        let mut i: usize = 0;
        assert(legal.len() == acts@.len());
        while i < acts.len()
            invariant
                i <= acts.len(),
                legal == views(acts@),
                legal.len() == acts@.len(),
                views(some@) == playable(legal, i as nat),
            decreases acts.len() - i,
        {
            assert(legal[i as int] == acts@[i as int]@);
            if !matches!(acts[i], Action::Concede) {
                some.push(acts[i].clone());
            }
            i = i + 1;
        }
        assert(views(some@).len() == some@.len());
        let pool = if some.len() == 0 {
            acts
        } else {
            some
        };
        assert(views(pool@) == options(legal));
        assert(views(pool@).len() == pool@.len());
        match self.dice.pick(&index_list(pool.len())) {
            Some(k) => if (k as usize) < pool.len() {
                Some(pool[k as usize].clone())
            } else {
                None
            },
            None => None,
        }
    }
}

/// Drive `game` to completion with one random bot in every seat. Returns the
/// number of actions applied. Stops early after `max_actions`.
pub fn play_random_game(game: &mut Game, bot_seed: u64, max_actions: usize) -> (r: Result<
    usize,
    RulesError,
>)
    ensures
        ({
            let s = Session {
                game: old(game).model(),
                dice: Dice { seed: bot_seed, pos: 0 },
                applied: 0,
                error: None,
            }.played(max_actions as nat);
            final(game).model() == s.game && match r {
                Ok(n) => s.error is None && n == s.applied,
                Err(e) => s.error == Some(e@),
            }
        }),
{
    let mut bot = RandomBot::new(bot_seed);
    let ghost start = Session { game: game.model(), dice: bot.dice, applied: 0, error: None };
    let mut applied: usize = 0;
    while applied < max_actions
        invariant
            applied <= max_actions,
            start == (Session {
                game: old(game).model(),
                dice: Dice { seed: bot_seed, pos: 0 },
                applied: 0,
                error: None,
            }),
            start.played(applied as nat) == (Session {
                game: game.model(),
                dice: bot.dice,
                applied: applied as nat,
                error: None,
            }),
        decreases max_actions - applied,
    {
        let seat = match game.must_act().seat() {
            Some(s) => s,
            None => {
                proof {
                    assert(start.played((applied + 1) as nat) == start.played(applied as nat));
                    start.lemma_stopped((applied + 1) as nat, max_actions as nat);
                }
                return Ok(applied);
            },
        };
        let action = match bot.choose_action(game, seat) {
            Some(a) => a,
            None => {
                proof {
                    start.lemma_stopped((applied + 1) as nat, max_actions as nat);
                }
                return Ok(applied);
            },
        };
        match game.apply(seat, &action) {
            Ok(_) => {},
            Err(e) => {
                proof {
                    start.lemma_stopped((applied + 1) as nat, max_actions as nat);
                }
                return Err(e);
            },
        }
        applied = applied + 1;
    }
    Ok(applied)
}

} // verus!
