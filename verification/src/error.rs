//! Why the engine refuses something.
use crate::event::Outcome;
use crate::types::{seat_words, Seat};
use crate::words::cat2;
use vstd::prelude::*;

verus! {

#[derive(Debug, PartialEq, Eq)]
pub enum RulesError {
    GameOver { outcome: Outcome },
    NotYourTurnToAct { seat: Seat },
    IllegalAction { reason: String },
    Unsupported { what: String },
    Setup { reason: String },
}

/// An error as a mathematical value.
#[verifier::ext_equal]
pub ghost enum ErrorModel {
    GameOver { outcome: Outcome },
    NotYourTurnToAct { seat: Seat },
    IllegalAction { reason: Seq<char> },
    Unsupported { what: Seq<char> },
    Setup { reason: Seq<char> },
}

impl View for RulesError {
    type V = ErrorModel;

    open spec fn view(&self) -> ErrorModel {
        match self {
            RulesError::GameOver { outcome } => ErrorModel::GameOver { outcome: *outcome },
            RulesError::NotYourTurnToAct { seat } => ErrorModel::NotYourTurnToAct { seat: *seat },
            RulesError::IllegalAction { reason } => ErrorModel::IllegalAction { reason: reason@ },
            RulesError::Unsupported { what } => ErrorModel::Unsupported { what: what@ },
            RulesError::Setup { reason } => ErrorModel::Setup { reason: reason@ },
        }
    }
}

impl ErrorModel {
    pub open spec fn words(self) -> Seq<char> {
        match self {
            ErrorModel::GameOver { .. } => "the game is over"@,
            ErrorModel::NotYourTurnToAct { seat } => seat_words(seat)
                + " does not need to act right now"@,
            ErrorModel::IllegalAction { reason } => "illegal action: "@ + reason,
            ErrorModel::Unsupported { what } => "unsupported in this build: "@ + what,
            ErrorModel::Setup { reason } => "cannot set up game: "@ + reason,
        }
    }
}

impl RulesError {
    pub fn illegal(reason: &str) -> (r: RulesError)
        ensures
            r@ == (ErrorModel::IllegalAction { reason: reason@ }),
    {
        RulesError::IllegalAction { reason: reason.to_owned() }
    }

    pub fn setup(reason: &str) -> (r: RulesError)
        ensures
            r@ == (ErrorModel::Setup { reason: reason@ }),
    {
        RulesError::Setup { reason: reason.to_owned() }
    }

    pub fn is_retryable(&self) -> (b: bool)
        ensures
            b == (self@ is NotYourTurnToAct),
    {
        matches!(self, RulesError::NotYourTurnToAct { .. })
    }

    pub fn text(&self) -> (r: String)
        ensures
            r@ == self@.words(),
    {
        match self {
            RulesError::GameOver { .. } => "the game is over".to_owned(),
            RulesError::NotYourTurnToAct { seat } => cat2(
                seat.text().as_str(),
                " does not need to act right now",
            ),
            RulesError::IllegalAction { reason } => cat2("illegal action: ", reason.as_str()),
            RulesError::Unsupported { what } => cat2("unsupported in this build: ", what.as_str()),
            RulesError::Setup { reason } => cat2("cannot set up game: ", reason.as_str()),
        }
    }
}

} // verus!
