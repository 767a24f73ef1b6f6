//! `apply`, the only way a game changes, and `replay`.
use crate::action::{Action, ActionModel};
use crate::costs::illegal;
use crate::error::{ErrorModel, RulesError};
use crate::event::{copied_events, Elimination, Event, EventFacts};
use crate::laws::{law_games_stay_sound, law_somebody_must_act};
use crate::seqs::{group_views, views};
use crate::setup::{ConfigModel, GameConfig};
use crate::state::{Game, GameModel, PendingChoice, PendingModel, Played, PlayedModel};
use crate::text::describe_action;
use crate::types::{seat_words, Seat};
use crate::words::{cat2, cat4};
use vstd::prelude::*;

verus! {

broadcast use group_views;

/// The list holds this action, up to the order of what it names.
pub open spec fn lists(acts: Seq<ActionModel>, a: ActionModel) -> bool {
    exists|i: int| 0 <= i < acts.len() && (#[trigger] acts[i]).canonical() == a.canonical()
}

/// The list holds this cast or activation, paid with other mana perhaps.
pub open spec fn lists_twin(acts: Seq<ActionModel>, a: ActionModel) -> bool {
    exists|i: int| 0 <= i < acts.len() && (#[trigger] acts[i]).twin(a)
}

impl GameModel {
    /// Why an action that is not a division of attackers, blockers or damage
    /// is refused, if it is: it must be listed, or be a listed cast or
    /// activation whose own payment covers the cost.
    pub open spec fn unlisted_error(self, seat: Seat, a: ActionModel) -> Option<ErrorModel> {
        let acts = self.legal(seat);
        if lists(acts, a) {
            None
        } else if lists_twin(acts, a) && self.action_cost(a) is Some && a.paid() is Some {
            let p = a.paid()->0;
            match self.covering(seat, p, self.action_cost(a)->0.announced(p.x)) {
                Ok(_) => None,
                Err(e) => Some(e),
            }
        } else {
            Some(
                illegal(
                    self.action_words(a) + " is not a legal action for "@ + seat_words(seat)
                        + " right now"@,
                ),
            )
        }
    }

    /// Why an action is refused, if it is.
    pub open spec fn refusal(self, seat: Seat, a: ActionModel) -> Option<ErrorModel> {
        if self.outcome is Some {
            Some(ErrorModel::GameOver { outcome: self.outcome->0 })
        } else if a is Concede {
            if !self.has_seat(seat) {
                Some(illegal(seat_words(seat) + " is not at this table"@))
            } else if self.out(seat) {
                Some(illegal(seat_words(seat) + " has already left the game"@))
            } else {
                None
            }
        } else if !(self.acting() matches Some((s, _)) && s == seat) {
            Some(ErrorModel::NotYourTurnToAct { seat })
        } else if a.division() {
            self.declaration_error(seat, a)
        } else {
            self.unlisted_error(seat, a)
        }
    }

    /// What an action does, before the game moves on.
    #[verifier::opaque]
    pub open spec fn perform(self, seat: Seat, a: ActionModel) -> Result<GameModel, ErrorModel> {
        match a {
            ActionModel::PassPriority => Ok(self.pass_priority(seat)),
            ActionModel::PlayLand { object } => Ok(self.play_land(seat, object)),
            ActionModel::CastSpell { object, targets, payment } => self.cast_spell(
                seat,
                object,
                targets,
                payment,
            ),
            ActionModel::ActivateAbility { object, ability, targets, payment } => {
                self.activate_ability(seat, object, ability, targets, payment)
            },
            ActionModel::ChooseTargets { targets } => match self.pending {
                Some(PendingModel::ChooseTargets { .. }) => Ok(
                    self.choose_trigger_targets(targets),
                ),
                Some(PendingModel::Choose { .. }) => Ok(self.answer_choice(targets)),
                Some(PendingModel::Casting { spec, .. }) => if spec < usize::MAX {
                    Ok(self.answer_cast_targets(targets))
                } else {
                    Err(illegal("no targets to choose"@))
                },
                _ => Err(illegal("nothing to choose"@)),
            },
            ActionModel::ChooseMode { mode } => match self.pending {
                Some(PendingModel::ChooseOption { .. }) => Ok(self.answer_option(mode)),
                Some(PendingModel::Casting { .. }) => Ok(self.answer_cast_mode(mode)),
                _ => Err(illegal("no option to choose"@)),
            },
            ActionModel::DeclareAttackers { attackers } => Ok(
                self.declare_attackers(seat, attackers),
            ),
            ActionModel::DeclareBlockers { blocks } => Ok(self.declare_blockers(seat, blocks)),
            ActionModel::AssignCombatDamage { attacker, assignments } => Ok(
                self.assign_combat_damage(attacker, assignments),
            ),
            ActionModel::Discard { objects } => Ok(self.discard_to_hand_size(seat, objects)),
            ActionModel::Mulligan { keep } => Ok(self.mulligan(seat, keep)),
            ActionModel::BottomCards { objects } => Ok(self.bottom_cards(seat, objects)),
            ActionModel::Concede => Ok(self.eliminate(seat, Elimination::Conceded)),
            ActionModel::CastCommander { .. } | ActionModel::CommanderToCommandZone { .. } => Err(
                ErrorModel::Unsupported { what: self.action_words(a) },
            ),
        }
    }

    /// The game after an accepted action: remembered, carried forward to the
    /// next decision, and counted.
    pub open spec fn moved_on(self, seat: Seat, a: ActionModel) -> GameModel {
        let g = GameModel { history: self.history.push(PlayedModel { seat, action: a }), ..self };
        let next = g.settle();
        GameModel {
            state_version: if next.state_version < u64::MAX {
                (next.state_version + 1) as u64
            } else {
                next.state_version
            },
            ..next
        }
    }

    /// The game after an action of `seat`, or why it is refused.
    #[verifier::opaque]
    pub open spec fn apply(self, seat: Seat, a: ActionModel) -> Result<GameModel, ErrorModel> {
        match self.refusal(seat, a) {
            Some(e) => Err(e),
            None => match self.perform(seat, a) {
                Ok(g) => Ok(g.moved_on(seat, a)),
                Err(e) => Err(e),
            },
        }
    }

    /// The game after the first `n` of a list of actions, or the first refusal.
    pub open spec fn apply_all(self, plays: Seq<PlayedModel>, n: nat) -> Result<
        GameModel,
        ErrorModel,
    >
        decreases n,
    {
        if n == 0 || n > plays.len() {
            Ok(self)
        } else {
            match self.apply_all(plays, (n - 1) as nat) {
                Ok(g) => g.apply(plays[n - 1].seat, plays[n - 1].action),
                Err(e) => Err(e),
            }
        }
    }

    proof fn lemma_refused(self, plays: Seq<PlayedModel>, k: nat, n: nat)
        requires
            k <= n <= plays.len(),
            self.apply_all(plays, k) is Err,
        ensures
            self.apply_all(plays, n) == self.apply_all(plays, k),
        decreases n,
    {
        if k < n {
            self.lemma_refused(plays, k, (n - 1) as nat);
        }
    }

    /// What happened since the log had `start` entries.
    pub open spec fn news(self, start: nat) -> Seq<EventFacts> {
        if start <= self.log.len() {
            self.log.subrange(start as int, self.log.len() as int)
        } else {
            Seq::empty()
        }
    }
}

impl ConfigModel {
    /// The game a setup, a seed and a list of actions make.
    pub open spec fn replay(self, seed: u64, plays: Seq<PlayedModel>) -> Result<
        GameModel,
        ErrorModel,
    > {
        match self.error() {
            Some(e) => Err(e),
            None => self.start(seed).apply_all(plays, plays.len()),
        }
    }
}

fn is_listed(acts: &Vec<Action>, a: &Action) -> (b: bool)
    ensures
        b == lists(views(acts@), a@),
{
    let canon = a.canonical();
    let mut i: usize = 0;
    while i < acts.len()
        invariant
            i <= acts.len(),
            canon@ == a@.canonical(),
            forall|j: int|
                0 <= j < i ==> (#[trigger] views(acts@)[j]).canonical() != a@.canonical(),
        decreases acts.len() - i,
    {
        if acts[i].canonical().same(&canon) {
            assert(views(acts@)[i as int].canonical() == a@.canonical());
            return true;
        }
        i = i + 1;
    }
    false
}

fn has_twin(acts: &Vec<Action>, a: &Action) -> (b: bool)
    ensures
        b == lists_twin(views(acts@), a@),
{
    let mut i: usize = 0;
    while i < acts.len()
        invariant
            i <= acts.len(),
            forall|j: int| 0 <= j < i ==> !(#[trigger] views(acts@)[j]).twin(a@),
        decreases acts.len() - i,
    {
        if acts[i].same_except_mana(a) {
            assert(views(acts@)[i as int].twin(a@));
            return true;
        }
        i = i + 1;
    }
    false
}

impl Game {
    fn check_listed(&self, seat: Seat, action: &Action) -> (r: Result<(), RulesError>)
        ensures
            match r {
                Ok(_) => self.model().unlisted_error(seat, action@) is None,
                Err(e) => self.model().unlisted_error(seat, action@) == Some(e@),
            },
    {
        let acts = self.legal_actions(seat);
        if is_listed(&acts, action) {
            return Ok(());
        }
        // A cast or activation may name its own mana sources: accept it if
        // everything but the tapped permanents matches a listed action and
        // the payment covers the cost.
        if has_twin(&acts, action) {
            if let Some(cost) = action.mana_cost_in(self) {
                if let Some(payment) = action.payment() {
                    return self.payment_covers(seat, payment, &cost.with_x(payment.x));
                }
            }
        }
        let text = cat4(
            describe_action(self, action).as_str(),
            " is not a legal action for ",
            seat.text().as_str(),
            " right now",
        );
        Err(RulesError::illegal(text.as_str()))
    }

    fn check_action(&self, seat: Seat, action: &Action) -> (r: Result<(), RulesError>)
        ensures
            match r {
                Ok(_) => self.model().refusal(seat, action@) is None,
                Err(e) => self.model().refusal(seat, action@) == Some(e@),
            },
    {
        if let Some(outcome) = self.outcome {
            return Err(RulesError::GameOver { outcome });
        }
        // A player may concede at any time (rule 104.3a), whether or not they must act.
        if matches!(action, Action::Concede) {
            return match self.find_player(seat) {
                None => Err(
                    RulesError::illegal(
                        cat2(seat.text().as_str(), " is not at this table").as_str(),
                    ),
                ),
                Some(_) => if self.is_eliminated(seat) {
                    Err(
                        RulesError::illegal(
                            cat2(seat.text().as_str(), " has already left the game").as_str(),
                        ),
                    )
                } else {
                    Ok(())
                },
            };
        }
        if !self.must_act().contains_key(seat) {
            return Err(RulesError::NotYourTurnToAct { seat });
        }
        if action.is_division() {
            self.validate_division(seat, action)
        } else {
            self.check_listed(seat, action)
        }
    }

    fn perform(&mut self, seat: Seat, action: &Action) -> (r: Result<(), RulesError>)
        ensures
            match r {
                Ok(_) => old(self).model().perform(seat, action@) == Ok::<GameModel, ErrorModel>(
                    final(self).model(),
                ) && old(self).model().plays_fairly(seat, action@),
                Err(e) => final(self).model() == old(self).model() && old(self).model().perform(
                    seat,
                    action@,
                ) == Err::<GameModel, ErrorModel>(e@),
            },
    {
        reveal(GameModel::perform);
        match action {
            Action::PassPriority => self.pass_priority(seat),
            Action::PlayLand { object } => self.play_land(seat, *object),
            Action::CastSpell { object, targets, payment } => {
                return self.cast_spell(seat, *object, targets, payment);
            },
            Action::ActivateAbility { object, ability, targets, payment } => {
                return self.activate_ability(seat, *object, *ability, targets, payment);
            },
            Action::ChooseTargets { targets } => match &self.pending {
                Some(PendingChoice::ChooseTargets { .. }) => self.choose_trigger_targets(targets),
                Some(PendingChoice::Choose { .. }) => self.answer_choice(targets),
                Some(PendingChoice::Casting { .. }) => {
                    return self.answer_cast_targets(targets);
                },
                _ => {
                    return Err(RulesError::illegal("nothing to choose"));
                },
            },
            Action::ChooseMode { mode } => match &self.pending {
                Some(PendingChoice::ChooseOption { .. }) => self.answer_option(*mode),
                Some(PendingChoice::Casting { .. }) => {
                    return self.answer_cast_mode(*mode);
                },
                _ => {
                    return Err(RulesError::illegal("no option to choose"));
                },
            },
            Action::DeclareAttackers { attackers } => self.declare_attackers(seat, attackers),
            Action::DeclareBlockers { blocks } => self.declare_blockers(seat, blocks),
            Action::AssignCombatDamage { attacker, assignments } => self.assign_combat_damage(
                *attacker,
                assignments,
            ),
            Action::Discard { objects } => self.discard_to_hand_size(seat, objects),
            Action::Mulligan { keep } => self.mulligan(seat, *keep),
            Action::BottomCards { objects } => self.bottom_cards(seat, objects),
            Action::Concede => self.eliminate(seat, Elimination::Conceded),
            Action::CastCommander { .. } | Action::CommanderToCommandZone { .. } => {
                return Err(RulesError::Unsupported { what: describe_action(self, action) });
            },
        }
        Ok(())
    }

    fn events_since(&self, start: usize) -> (r: Vec<Event>)
        ensures
            views(r@) == self.model().news(start as nat),
    {
        if start <= self.log.len() {
            copied_events(&self.log, start)
        } else {
            Vec::new()
        }
    }

    /// Apply one action for one seat. Rejects anything `legal_actions` would not
    /// list (or, for division actions, anything that fails the rule check), then
    /// runs turn-based actions, state-based actions and phase advancement until
    /// some seat can act again or the game is over. A rejected action changes
    /// nothing.
    pub fn apply(&mut self, seat: Seat, action: &Action) -> (r: Result<Vec<Event>, RulesError>)
        ensures
            match r {
                Ok(events) => old(self).model().apply(seat, action@) == Ok::<
                    GameModel,
                    ErrorModel,
                >(final(self).model()) && views(events@) == final(self).model().news(
                    old(self).model().log.len(),
                ) && old(self).model().plays_fairly(seat, action@) && (old(self).model().sound()
                    && old(self).model().at_rest() ==> final(self).model().sound() && final(self).model().at_rest()),
                Err(e) => final(self).model() == old(self).model() && old(self).model().apply(
                    seat,
                    action@,
                ) == Err::<GameModel, ErrorModel>(e@),
            },
    {
        reveal(GameModel::apply);
        match self.check_action(seat, action) {
            Ok(_) => {},
            Err(e) => {
                return Err(e);
            },
        }
        let start: usize = self.log.len();
        assert(start == self.model().log.len());
        match self.perform(seat, action) {
            Ok(_) => {},
            Err(e) => {
                return Err(e);
            },
        }
        self.history.push(Played { seat, action: action.clone() });
        self.settle();
        if self.state_version < u64::MAX {
            self.state_version = self.state_version + 1;
        }
        proof {
            if old(self).model().sound() && old(self).model().at_rest() {
                law_games_stay_sound(old(self).model(), seat, action@);
                law_somebody_must_act(old(self).model(), seat, action@);
            }
        }
        Ok(self.events_since(start))
    }

    /// Reconstruct a game from its seed and action log.
    pub fn replay(config: GameConfig, seed: u64, actions: &Vec<Played>) -> (r: Result<
        Game,
        RulesError,
    >)
        requires
            config@.readable(),
        ensures
            match r {
                Ok(g) => config@.replay(seed, views(actions@)) == Ok::<GameModel, ErrorModel>(
                    g.model(),
                ) && (config@.fits() ==> g.model().sound() && g.model().at_rest()),
                Err(e) => config@.replay(seed, views(actions@)) == Err::<GameModel, ErrorModel>(
                    e@,
                ),
            },
    {
        let ghost g0 = config@.start(seed);
        let ghost plays = views(actions@);
        let mut game = match Game::new(config, seed) {
            Ok(g) => g,
            Err(e) => {
                return Err(e);
            },
        };
        let mut i: usize = 0;
        while i < actions.len()
            invariant
                i <= actions.len(),
                plays == views(actions@),
                config@.error() is None,
                g0 == config@.start(seed),
                g0.apply_all(plays, i as nat) == Ok::<GameModel, ErrorModel>(game.model()),
                config@.fits() ==> game.model().sound() && game.model().at_rest(),
            decreases actions.len() - i,
        {
            match game.apply(actions[i].seat, &actions[i].action) {
                Ok(_) => {},
                Err(e) => {
                    proof {
                        g0.lemma_refused(plays, (i + 1) as nat, plays.len());
                    }
                    return Err(e);
                },
            }
            i = i + 1;
        }
        Ok(game)
    }
}

} // verus!
