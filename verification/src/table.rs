//! Finding a seat at a published table, and steering the server that holds
//! one: every refusal and every reply, decided from plain values.
use crate::seqs::{group_views, views};
use crate::session::{Session, SessionModel};
use crate::words::{opt_text_view, cat2, cat3, cat4, cat5, cat7, decimal, join, joined, nat_text};
use vstd::prelude::*;
use vstd::string::*;

verus! {

broadcast use group_views;

// ----- published games -----

/// Who a published seat is for.
#[derive(Copy, Clone, Debug, PartialEq, Eq, Structural)]
pub enum SeatKind {
    Human,
    Agent,
    Random,
}

/// A seat a game publishes.
#[derive(Debug)]
pub struct SeatSlot {
    pub seat: u8,
    pub kind: SeatKind,
    pub name: String,
    /// What an agent joins with.
    pub token: Option<String>,
    pub deck: Option<String>,
}

/// A published seat as a mathematical value.
#[verifier::ext_equal]
pub ghost struct SlotModel {
    pub seat: u8,
    pub kind: SeatKind,
    pub name: Seq<char>,
    pub token: Option<Seq<char>>,
    pub deck: Option<Seq<char>>,
}

impl View for SeatSlot {
    type V = SlotModel;

    open spec fn view(&self) -> SlotModel {
        SlotModel {
            seat: self.seat,
            kind: self.kind,
            name: self.name@,
            token: opt_text_view(self.token),
            deck: opt_text_view(self.deck),
        }
    }
}

/// A game published for agents, and who has claimed which of its seats (by
/// process).
#[derive(Debug)]
pub struct GameMarker {
    pub game_id: String,
    pub seats: Vec<SeatSlot>,
    pub claims: Vec<(u8, u32)>,
}

/// A published game as a mathematical value.
#[verifier::ext_equal]
pub ghost struct MarkerModel {
    pub game_id: Seq<char>,
    pub seats: Seq<SlotModel>,
    pub claims: Seq<(u8, u32)>,
}

impl View for GameMarker {
    type V = MarkerModel;

    open spec fn view(&self) -> MarkerModel {
        MarkerModel { game_id: self.game_id@, seats: views(self.seats@), claims: self.claims@ }
    }
}

/// The numbers of the agent seats among the first `n`.
pub open spec fn agent_numbers(seats: Seq<SlotModel>, n: nat) -> Seq<Seq<char>>
    decreases n,
{
    if n == 0 || n > seats.len() {
        Seq::empty()
    } else {
        let rest = agent_numbers(seats, (n - 1) as nat);
        if seats[n - 1].kind is Agent {
            rest.push(decimal(seats[n - 1].seat as nat))
        } else {
            rest
        }
    }
}

impl MarkerModel {
    pub open spec fn agent_words(self) -> Seq<char> {
        let all = agent_numbers(self.seats, self.seats.len());
        if all.len() == 0 {
            "none"@
        } else {
            joined(all, ", "@)
        }
    }

    pub open spec fn claim_words(self) -> Seq<char> {
        joined(
            Seq::new(
                self.claims.len(),
                |i: int|
                    "seat "@ + decimal(self.claims[i].0 as nat) + " (pid "@ + decimal(
                        self.claims[i].1 as nat,
                    ) + ")"@,
            ),
            ", "@,
        )
    }

    /// Why an agent gets no seat here.
    pub open spec fn refusal(self, want: Option<u8>) -> Seq<char> {
        match want {
            Some(n) => "seat "@ + decimal(n as nat) + " at "@ + self.game_id
                + " is not a free agent seat (agent seats: "@ + self.agent_words() + "; claimed: "@
                + (if self.claims.len() == 0 {
                "none"@
            } else {
                self.claim_words()
            }) + "). Call sit_down with no seat to take the next free one."@,
            None => "every agent seat at "@ + self.game_id + " is taken ("@ + (
            if self.claims.len() == 0 {
                "the game has no agent seats"@
            } else {
                self.claim_words()
            }) + "); ask the human to start a game with an agent seat."@,
        }
    }
}

/// The agent seats a game publishes, as "1, 2" (for an error message).
pub fn agent_seats(game: &GameMarker) -> (r: String)
    ensures
        r@ == game@.agent_words(),
{
    let ghost all = game@.seats;
    assert(all.len() == game.seats@.len());
    let mut parts: Vec<String> = Vec::new();
    let mut i: usize = 0;
    while i < game.seats.len()
        invariant
            i <= game.seats.len(),
            all == views(game.seats@),
            all.len() == game.seats@.len(),
            views(parts@) == agent_numbers(all, i as nat),
        decreases game.seats.len() - i,
    {
        assert(all[i as int] == game.seats@[i as int]@);
        if game.seats[i].kind == SeatKind::Agent {
            parts.push(nat_text(game.seats[i].seat as u64));
        }
        i = i + 1;
    }
    assert(views(parts@).len() == parts@.len());
    if parts.len() == 0 {
        "none".to_owned()
    } else {
        join(&parts, ", ")
    }
}

fn claims_text(game: &GameMarker) -> (r: String)
    ensures
        r@ == game@.claim_words(),
{
    let ghost all = Seq::new(
        game@.claims.len(),
        |i: int|
            "seat "@ + decimal(game@.claims[i].0 as nat) + " (pid "@ + decimal(
                game@.claims[i].1 as nat,
            ) + ")"@,
    );
    let mut parts: Vec<String> = Vec::new();
    let mut i: usize = 0;
    while i < game.claims.len()
        invariant
            i <= game.claims.len(),
            all == Seq::new(
                game@.claims.len(),
                |i: int|
                    "seat "@ + decimal(game@.claims[i].0 as nat) + " (pid "@ + decimal(
                        game@.claims[i].1 as nat,
                    ) + ")"@,
            ),
            views(parts@) == all.subrange(0, i as int),
        decreases game.claims.len() - i,
    {
        parts.push(
            cat5(
                "seat ",
                nat_text(game.claims[i].0 as u64).as_str(),
                " (pid ",
                nat_text(game.claims[i].1 as u64).as_str(),
                ")",
            ),
        );
        i = i + 1;
        assert(all.subrange(0, i as int) =~= all.subrange(0, i - 1).push(all[i - 1]));
    }
    assert(all.subrange(0, game.claims@.len() as int) =~= all);
    join(&parts, ", ")
}

/// Why an agent gets no seat at a game whose seat it could not claim.
pub fn seat_refusal(game: &GameMarker, want: Option<u8>) -> (r: String)
    ensures
        r@ == game@.refusal(want),
{
    let taken = claims_text(game);
    match want {
        Some(n) => {
            let mut s = cat5(
                "seat ",
                nat_text(n as u64).as_str(),
                " at ",
                game.game_id.as_str(),
                " is not a free agent seat (agent seats: ",
            );
            s.append(agent_seats(game).as_str());
            s.append("; claimed: ");
            s.append(
                if game.claims.len() == 0 {
                    "none"
                } else {
                    taken.as_str()
                },
            );
            s.append("). Call sit_down with no seat to take the next free one.");
            s
        },
        None => cat5(
            "every agent seat at ",
            game.game_id.as_str(),
            " is taken (",
            if game.claims.len() == 0 {
                "the game has no agent seats"
            } else {
                taken.as_str()
            },
            "); ask the human to start a game with an agent seat.",
        ),
    }
}

// ----- sitting down and leaving -----

/// What a request for a seat leads to.
#[derive(Copy, Clone, Debug, PartialEq, Eq, Structural)]
pub enum SitDown {
    /// The seat was given on the command line and cannot be changed.
    Fixed,
    /// Already seated at a game that is still on.
    Seated,
    /// The last game is over: give its seat back, and take another.
    Move,
    Take,
}

pub open spec fn sitting(fixed: bool, session: Option<SessionModel>) -> SitDown {
    if fixed {
        SitDown::Fixed
    } else {
        match session {
            Some(s) => if s.outcome() is Some {
                SitDown::Move
            } else {
                SitDown::Seated
            },
            None => SitDown::Take,
        }
    }
}

pub open spec fn session_view(s: Option<&Session>) -> Option<SessionModel> {
    match s {
        Some(s) => Some(s.model()),
        None => None,
    }
}

pub fn sit_down(fixed: bool, session: Option<&Session>) -> (r: SitDown)
    ensures
        r == sitting(fixed, session_view(session)),
{
    if fixed {
        return SitDown::Fixed;
    }
    match session {
        Some(s) => if s.outcome().is_some() {
            SitDown::Move
        } else {
            SitDown::Seated
        },
        None => SitDown::Take,
    }
}

/// A seat at a game that is still on is never given up by asking for another.
pub proof fn law_a_live_seat_is_kept(fixed: bool, s: SessionModel)
    requires
        s.outcome() is None,
    ensures
        !(sitting(fixed, Some(s)) is Move) && !(sitting(fixed, Some(s)) is Take),
{
}

impl SessionModel {
    pub open spec fn already_seated_words(self) -> Seq<char> {
        "you are already seated in game "@ + self.game_id + " as seat "@ + decimal(
            self.me.0 as nat,
        ) + "; call leave first if you want a different seat"@
    }

    /// What an agent is told that has just sat down.
    pub open spec fn seated_words(self, name: Seq<char>, deck: Option<Seq<char>>) -> Seq<char> {
        "Seated at game "@ + self.game_id + " as seat "@ + decimal(self.me.0 as nat) + " ("@ + name
            + ")."@ + (match deck {
            Some(d) => " Your deck is "@ + d + "."@,
            None => " No deck was chosen for you: pick one with list_decks and submit_deck."@,
        }) + " "@ + if self.lobby.started {
            "The game is under way: call wait_for_turn."@
        } else {
            "Call wait_for_turn once you are ready; it returns when the game starts and you must act."@
        }
    }

    pub open spec fn left_words(self) -> Seq<char> {
        "Left game "@ + self.game_id + " (seat "@ + decimal(self.me.0 as nat)
            + "); the seat is free for another agent and this session is back to card data only."@
    }

    pub open spec fn mode_words(self) -> Seq<char> {
        "game "@ + self.game_id + ", seat "@ + decimal(self.me.0 as nat)
    }
}

pub fn already_seated(session: &Session) -> (r: String)
    ensures
        r@ == session.model().already_seated_words(),
{
    cat5(
        "you are already seated in game ",
        session.game_id.as_str(),
        " as seat ",
        nat_text(session.me.0 as u64).as_str(),
        "; call leave first if you want a different seat",
    )
}

/// What an agent is told that has just sat down.
pub fn seated_text(session: &Session, name: &str, deck: &Option<String>) -> (r: String)
    ensures
        r@ == session.model().seated_words(name@, opt_text_view(*deck)),
{
    let mut s = cat7(
        "Seated at game ",
        session.game_id.as_str(),
        " as seat ",
        nat_text(session.me.0 as u64).as_str(),
        " (",
        name,
        ").",
    );
    let about = match deck {
        Some(d) => cat3(" Your deck is ", d.as_str(), "."),
        None => {
            " No deck was chosen for you: pick one with list_decks and submit_deck.".to_owned()
        },
    };
    s.append(about.as_str());
    s.append(" ");
    s.append(
        if session.lobby.started {
            "The game is under way: call wait_for_turn."
        } else {
            "Call wait_for_turn once you are ready; it returns when the game starts and you must act."
        },
    );
    s
}

pub fn left_text(session: &Session) -> (r: String)
    ensures
        r@ == session.model().left_words(),
{
    cat5(
        "Left game ",
        session.game_id.as_str(),
        " (seat ",
        nat_text(session.me.0 as u64).as_str(),
        "); the seat is free for another agent and this session is back to card data only.",
    )
}

pub open spec fn mode_of(session: Option<SessionModel>) -> Seq<char> {
    match session {
        Some(s) => s.mode_words(),
        None => "card data only"@,
    }
}

/// "card data only" or "game <id>, seat <n>".
pub fn mode(session: Option<&Session>) -> (r: String)
    ensures
        r@ == mode_of(session_view(session)),
{
    match session {
        Some(s) => cat4(
            "game ",
            s.game_id.as_str(),
            ", seat ",
            nat_text(s.me.0 as u64).as_str(),
        ),
        None => "card data only".to_owned(),
    }
}

// ----- control -----

/// What a running server advertises.
#[derive(Debug)]
pub struct Marker {
    pub pid: u32,
    /// `http://host:port/mcp`
    pub url: String,
    pub control_socket: String,
    /// "card data only" or "game <id>, seat <n>".
    pub mode: String,
}

#[derive(Debug)]
pub enum ControlRequest {
    Status,
    /// Join a game as a seat: the server connects to the daemon and, if a
    /// decklist is given, submits it and readies up.
    Attach { endpoint: String, token: String, name: String, decklist: Option<String> },
    /// Leave the game: back to card data only.
    Detach,
}

#[derive(Debug)]
pub enum ControlReply {
    Done { mode: String, url: String },
    Error { message: String },
}

/// A control reply as a mathematical value.
#[verifier::ext_equal]
pub ghost enum ReplyModel {
    Done { mode: Seq<char>, url: Seq<char> },
    Error { message: Seq<char> },
}

impl View for ControlReply {
    type V = ReplyModel;

    open spec fn view(&self) -> ReplyModel {
        match self {
            ControlReply::Done { mode, url } => ReplyModel::Done { mode: mode@, url: url@ },
            ControlReply::Error { message } => ReplyModel::Error { message: message@ },
        }
    }
}

/// What a control request asks of the server.
#[derive(Debug)]
pub enum ControlStep {
    /// Nothing but the reply.
    Reply(ControlReply),
    /// Connect to the game the request names, then reply.
    Join,
    /// Drop the seat, then reply.
    Leave,
}

/// What a control request asks of a server that holds this seat, if any.
pub fn control_step(session: Option<&Session>, req: &ControlRequest, url: &str) -> (r: ControlStep)
    ensures
        match *req {
            ControlRequest::Status => r matches ControlStep::Reply(a) && a@ == (ReplyModel::Done {
                mode: mode_of(session_view(session)),
                url: url@,
            }),
            ControlRequest::Attach { .. } => match session_view(session) {
                Some(s) => if s.outcome() is None {
                    r matches ControlStep::Reply(a) && a@ == (ReplyModel::Error {
                        message: "already seated in game "@ + s.game_id + "; detach first"@,
                    })
                } else {
                    r is Join
                },
                None => r is Join,
            },
            ControlRequest::Detach => r is Leave,
        },
{
    match req {
        ControlRequest::Status => ControlStep::Reply(
            ControlReply::Done { mode: mode(session), url: url.to_owned() },
        ),
        ControlRequest::Attach { .. } => {
            if let Some(s) = session {
                if s.outcome().is_none() {
                    return ControlStep::Reply(
                        ControlReply::Error {
                            message: cat3(
                                "already seated in game ",
                                s.game_id.as_str(),
                                "; detach first",
                            ),
                        },
                    );
                }
            }
            ControlStep::Join
        },
        ControlRequest::Detach => ControlStep::Leave,
    }
}

/// The reply once a seat was taken or given up: the mode the server is in now.
pub fn control_done(session: Option<&Session>, url: &str) -> (r: ControlReply)
    ensures
        r@ == (ReplyModel::Done { mode: mode_of(session_view(session)), url: url@ }),
{
    ControlReply::Done { mode: mode(session), url: url.to_owned() }
}

/// The reply when the game could not be joined.
pub fn control_failed(error: &str) -> (r: ControlReply)
    ensures
        r@ == (ReplyModel::Error { message: "could not join the game: "@ + error@ }),
{
    ControlReply::Error { message: cat2("could not join the game: ", error) }
}

} // verus!
