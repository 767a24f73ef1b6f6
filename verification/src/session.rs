//! One seat's place at a table that is hosted elsewhere: what this seat has
//! been told, kept current by the messages that arrive, and every decision
//! about waiting, acting and giving up. The connection itself is somebody
//! else's business: whoever holds it performs what these functions decide.
use crate::action::{Action, ActionModel};
use crate::event::{EventBase, EventModel, EventView, Outcome, SeenFacts};
use crate::seqs::{group_views, views};
use crate::state::ActReason;
use crate::text::{describe_event_view, drawn_in_view, event_words, Names, Naming};
use crate::types::{id_words, seat_words, ObjectId, Seat};
use crate::view::{GameSeen, GameView, ObjectSeen};
use crate::words::{cat3, cat5, decimal, nat_text, opt_text_view};
use vstd::prelude::*;
use vstd::string::*;

verus! {

broadcast use group_views;

/// How often a wait asks for the state directly, in milliseconds.
pub const POLL_MILLIS: u64 = 3000;

/// The longest a wait sleeps while connected, in milliseconds.
pub const NAP_MILLIS: u64 = 500;

/// How long an ordinary request may sit on a link that is reconnecting before
/// it comes back and says so, in milliseconds.
pub const GRACE_MILLIS: u64 = 15000;

// ----- what arrives -----

/// An action a seat may take, as the table lists it.
#[derive(Debug)]
pub struct LegalAction {
    pub id: u32,
    pub action: Action,
    pub description: String,
}

/// A listed action as a mathematical value.
#[verifier::ext_equal]
pub ghost struct LegalModel {
    pub id: u32,
    pub action: ActionModel,
    pub description: Seq<char>,
}

impl View for LegalAction {
    type V = LegalModel;

    open spec fn view(&self) -> LegalModel {
        LegalModel { id: self.id, action: self.action@, description: self.description@ }
    }
}

/// A seat in the lobby.
#[derive(Debug)]
pub struct LobbySeat {
    pub seat: Seat,
    pub name: Option<String>,
    pub deck_ok: bool,
    pub ready: bool,
}

/// A seat in the lobby, as a mathematical value.
#[verifier::ext_equal]
pub ghost struct LobbySeatModel {
    pub seat: Seat,
    pub name: Option<Seq<char>>,
    pub deck_ok: bool,
    pub ready: bool,
}

impl View for LobbySeat {
    type V = LobbySeatModel;

    open spec fn view(&self) -> LobbySeatModel {
        LobbySeatModel {
            seat: self.seat,
            name: opt_text_view(self.name),
            deck_ok: self.deck_ok,
            ready: self.ready,
        }
    }
}

/// The table before the game starts.
#[derive(Debug)]
pub struct LobbyView {
    pub seats: Vec<LobbySeat>,
    pub started: bool,
}

/// The table before the game starts, as a mathematical value.
#[verifier::ext_equal]
pub ghost struct LobbyModel {
    pub seats: Seq<LobbySeatModel>,
    pub started: bool,
}

impl View for LobbyView {
    type V = LobbyModel;

    open spec fn view(&self) -> LobbyModel {
        LobbyModel { seats: views(self.seats@), started: self.started }
    }
}

/// A message the table sends unasked.
#[derive(Debug)]
pub enum Push {
    Event { event: EventView, state_version: u64 },
    Lobby { lobby: LobbyView },
    MustAct,
    Other,
}

#[derive(Debug)]
pub struct LogLine {
    pub turn: u32,
    pub text: String,
    /// Somebody else talking to the table. The tools push these into their own
    /// replies, because an agent that never calls `get_log` would otherwise
    /// never hear a word anyone said to it. Your own chat is not marked: you
    /// know what you said.
    pub chat: bool,
}

/// A line of the log as a mathematical value.
#[verifier::ext_equal]
pub ghost struct LogModel {
    pub turn: u32,
    pub text: Seq<char>,
    pub chat: bool,
}

impl View for LogLine {
    type V = LogModel;

    open spec fn view(&self) -> LogModel {
        LogModel { turn: self.turn, text: self.text@, chat: self.chat }
    }
}

/// The state of the link to the table.
#[derive(Copy, Clone, Debug, PartialEq, Eq, Structural)]
pub enum ConnState {
    Connected,
    Reconnecting,
    Reconnected,
    GaveUp,
}

impl ConnState {
    pub open spec fn up(self) -> bool {
        self is Connected || self is Reconnected
    }

    pub fn is_connected(self) -> (b: bool)
        ensures
            b == self.up(),
    {
        matches!(self, ConnState::Connected | ConnState::Reconnected)
    }
}

/// What a wait does next.
#[derive(Copy, Clone, Debug, PartialEq, Eq, Structural)]
pub enum Wait {
    Ready,
    TimedOut,
    /// The connection dropped and did not come back: the client gave up
    /// reconnecting. A drop on its own is not this — the wait sits through one.
    Disconnected,
    /// A newer tool call arrived; this wait must not act any further.
    Superseded,
    /// Nothing yet: sleep this long or until something changes, and ask again.
    Sleep { millis: u64 },
}

/// What a request that has not been answered does next.
#[derive(Copy, Clone, Debug, PartialEq, Eq, Structural)]
pub enum Request {
    /// The game is over and the table has gone.
    Closed,
    /// The link is gone for good.
    Lost,
    /// The link is down and the grace period is over.
    Unanswered,
    KeepWaiting,
}

// ----- the seat -----

/// Everything one seat knows about the table.
#[derive(Debug)]
pub struct Session {
    pub me: Seat,
    pub game_id: String,
    pub view: Option<GameView>,
    pub lobby: LobbyView,
    pub log: Vec<LogLine>,
    /// The names of every object this seat has ever seen; each id once.
    pub names: Vec<(ObjectId, String)>,
    /// The last legal actions handed out, so an action can be taken by its id,
    /// and the state version they came from.
    pub last_legal: Option<(Vec<LegalAction>, u64)>,
    /// Bumped by every tool call; a wait whose generation is behind has been
    /// abandoned and must stop acting.
    pub wait_gen: u64,
    /// How far into `log` this seat has already been shown the chat.
    pub chat_cursor: usize,
}

/// A seat's knowledge as a mathematical value.
#[verifier::ext_equal]
pub ghost struct SessionModel {
    pub me: Seat,
    pub game_id: Seq<char>,
    pub view: Option<GameSeen>,
    pub lobby: LobbyModel,
    pub log: Seq<LogModel>,
    pub names: Seq<(ObjectId, Seq<char>)>,
    pub last_legal: Option<(Seq<LegalModel>, u64)>,
    pub wait_gen: u64,
    pub chat_cursor: nat,
}

pub open spec fn name_pairs(s: Seq<(ObjectId, String)>) -> Seq<(ObjectId, Seq<char>)> {
    Seq::new(s.len(), |i: int| (s[i].0, s[i].1@))
}

impl Session {
    /// What this seat knows, as a mathematical value.
    pub open spec fn model(&self) -> SessionModel {
        SessionModel {
            me: self.me,
            game_id: self.game_id@,
            view: match self.view {
                Some(v) => Some(v@),
                None => None,
            },
            lobby: self.lobby@,
            log: views(self.log@),
            names: name_pairs(self.names@),
            last_legal: match self.last_legal {
                Some((acts, v)) => Some((views(acts@), v)),
                None => None,
            },
            wait_gen: self.wait_gen,
            chat_cursor: self.chat_cursor as nat,
        }
    }
}

/// Where an id is in a list of names, from index `i` on.
pub open spec fn name_at(names: Seq<(ObjectId, Seq<char>)>, id: ObjectId, i: nat) -> Option<nat>
    decreases names.len() - i,
{
    if i >= names.len() {
        None
    } else if names[i as int].0 == id {
        Some(i)
    } else {
        name_at(names, id, i + 1)
    }
}

/// The names with one more learned.
pub open spec fn with_name(
    names: Seq<(ObjectId, Seq<char>)>,
    id: ObjectId,
    name: Seq<char>,
) -> Seq<(ObjectId, Seq<char>)> {
    match name_at(names, id, 0) {
        Some(i) => names.update(i as int, (id, name)),
        None => names.push((id, name)),
    }
}

/// The names with those of the first `n` objects learned.
pub open spec fn with_names(
    names: Seq<(ObjectId, Seq<char>)>,
    objects: Seq<ObjectSeen>,
    n: nat,
) -> Seq<(ObjectId, Seq<char>)>
    decreases n,
{
    if n == 0 || n > objects.len() {
        names
    } else {
        with_name(with_names(names, objects, (n - 1) as nat), objects[n - 1].id, objects[n - 1].name)
    }
}

/// Events that say too little to be worth a line.
pub open spec fn noisy(e: SeenFacts) -> bool {
    e is PriorityPassed || e is Tapped || e is Untapped || e is Shuffled || e is ManaAdded
}

/// The texts of the chat among the first `n` lines.
pub open spec fn chat_lines(log: Seq<LogModel>, from: nat, n: nat) -> Seq<Seq<char>>
    decreases n,
{
    if n <= from || n > log.len() {
        Seq::empty()
    } else {
        let rest = chat_lines(log, from, (n - 1) as nat);
        if log[n - 1].chat {
            rest.push(log[n - 1].text)
        } else {
            rest
        }
    }
}

/// Those of the first `n` lines that are not from before a turn.
pub open spec fn lines_since(log: Seq<LogModel>, turn: u32, n: nat) -> Seq<LogModel>
    decreases n,
{
    if n == 0 || n > log.len() {
        Seq::empty()
    } else {
        let rest = lines_since(log, turn, (n - 1) as nat);
        if log[n - 1].turn >= turn {
            rest.push(log[n - 1])
        } else {
            rest
        }
    }
}

/// The first action of the list with an id, from index `i` on.
pub open spec fn action_at(acts: Seq<LegalModel>, id: u32, i: nat) -> Option<ActionModel>
    decreases acts.len() - i,
{
    if i >= acts.len() {
        None
    } else if acts[i as int].id == id {
        Some(acts[i as int].action)
    } else {
        action_at(acts, id, i + 1)
    }
}

impl SessionModel {
    pub open spec fn with_view(self, v: GameSeen) -> SessionModel {
        SessionModel {
            view: Some(v),
            names: with_names(self.names, v.objects, v.objects.len()),
            ..self
        }
    }

    pub open spec fn name_of(self, id: ObjectId) -> Seq<char> {
        match name_at(self.names, id, 0) {
            Some(i) => self.names[i as int].1,
            None => id_words(id),
        }
    }

    /// A seat's name: as the game has it, or as the lobby has it, or its number.
    pub open spec fn seat_name(self, seat: Seat) -> Seq<char> {
        if self.view matches Some(v) && seat.0 < v.players.len() {
            self.view->0.players[seat.0 as int].name
        } else if seat.0 < self.lobby.seats.len() && self.lobby.seats[seat.0 as int].name is Some {
            self.lobby.seats[seat.0 as int].name->0
        } else {
            seat_words(seat)
        }
    }

    pub open spec fn naming(self) -> Naming {
        Naming {
            objects: |id: ObjectId| self.name_of(id) + " "@ + id_words(id),
            seats: |seat: Seat| self.seat_name(seat),
        }
    }

    /// Why this seat must act right now, if it must.
    pub open spec fn my_reason(self) -> Option<ActReason> {
        match self.view {
            Some(v) => v.must_act.of(self.me),
            None => None,
        }
    }

    pub open spec fn outcome(self) -> Option<Outcome> {
        match self.view {
            Some(v) => v.outcome,
            None => None,
        }
    }

    pub open spec fn current_version(self) -> u64 {
        match self.view {
            Some(v) => v.state_version,
            None => 0,
        }
    }

    /// The game has ended and the link is gone.
    pub open spec fn table_closed(self, conn: ConnState) -> bool {
        self.outcome() is Some && !conn.up()
    }

    pub open spec fn line_turn(self, e: SeenFacts) -> u32 {
        match e {
            EventModel::TurnStarted { turn, .. } => turn,
            _ => match self.view {
                Some(v) => v.turn,
                None => 0,
            },
        }
    }

    pub open spec fn line_words(self, e: SeenFacts) -> Seq<char> {
        match e {
            EventModel::Chat { from, to, text } => {
                let who = if from == self.me {
                    "You"@
                } else {
                    self.seat_name(from)
                };
                match to {
                    Some(t) => who + " → "@ + self.seat_name(t) + ": "@ + text,
                    None => who + ": "@ + text,
                }
            },
            _ => event_words(e, drawn_in_view(e), self.naming()),
        }
    }

    /// The log with an event's line added.
    pub open spec fn logged(self, e: SeenFacts) -> SessionModel {
        if noisy(e) {
            self
        } else {
            let chat = match e {
                EventModel::Chat { from, .. } => from != self.me,
                _ => false,
            };
            SessionModel {
                log: self.log.push(
                    LogModel { turn: self.line_turn(e), text: self.line_words(e), chat },
                ),
                ..self
            }
        }
    }

    /// What a pushed message changes here, and whether the state must be fetched.
    pub open spec fn pushed(self, push: Push) -> (SessionModel, bool) {
        match push {
            Push::Event { event, state_version } => (
                self.logged(event@),
                state_version > self.current_version(),
            ),
            Push::Lobby { lobby } => (
                SessionModel { lobby: lobby@, ..self },
                lobby@.started && self.view is None,
            ),
            Push::MustAct => (self, true),
            Push::Other => (self, false),
        }
    }

    /// A tool call of this generation is no longer the newest.
    pub open spec fn superseded(self, generation: u64) -> bool {
        self.wait_gen != generation
    }

    /// This seat must act, or the game is over.
    pub open spec fn ready(self) -> bool {
        self.my_reason() is Some || self.outcome() is Some
    }

    /// What a wait of `generation` with `left` milliseconds to go does next.
    /// The timeout only runs while connected: a link that is down is not the
    /// agent taking too long.
    pub open spec fn wait_step(self, generation: u64, conn: ConnState, left: u64) -> Wait {
        if self.superseded(generation) {
            Wait::Superseded
        } else if self.ready() {
            Wait::Ready
        } else if conn is GaveUp {
            Wait::Disconnected
        } else if !conn.up() {
            Wait::Sleep { millis: POLL_MILLIS }
        } else if left == 0 {
            Wait::TimedOut
        } else if left < NAP_MILLIS {
            Wait::Sleep { millis: left }
        } else {
            Wait::Sleep { millis: NAP_MILLIS }
        }
    }

    /// What a request does that has waited `waited` milliseconds for its answer.
    pub open spec fn request_step(self, conn: ConnState, waited: u64) -> Request {
        if self.table_closed(conn) {
            Request::Closed
        } else if conn is GaveUp {
            Request::Lost
        } else if waited >= GRACE_MILLIS {
            Request::Unanswered
        } else {
            Request::KeepWaiting
        }
    }

    /// An action by its id in the last list, and the version of the list; or
    /// why it is refused. The id is bound to the state version that list came
    /// from: if the game has moved on since, or the caller names a different
    /// version, it is refused rather than mapped onto whatever it means now.
    pub open spec fn action_by_id(self, id: u32, expected: Option<u64>) -> Result<
        (ActionModel, u64),
        Seq<char>,
    > {
        match self.last_legal {
            None => Err("call get_legal_actions first to get action ids"@),
            Some((acts, version)) => if expected matches Some(want) && want != version {
                Err(
                    "your action ids are from state version "@ + decimal(version as nat)
                        + ", but you named version "@ + decimal(expected->0 as nat)
                        + "; call get_legal_actions again"@,
                )
            } else if self.current_version() > version {
                Err(
                    "the game has moved on (your action list is from version "@ + decimal(
                        version as nat,
                    ) + ", the game is at "@ + decimal(self.current_version() as nat)
                        + "); call get_legal_actions or wait_for_turn again before choosing"@,
                )
            } else {
                match action_at(acts, id, 0) {
                    Some(a) => Ok((a, version)),
                    None => Err(
                        "no action with id "@ + decimal(id as nat)
                            + " in the last legal_actions list (ids: 0.."@ + decimal(acts.len())
                            + ")"@,
                    ),
                }
            },
        }
    }
}

// ----- laws -----

/// An id is only ever resolved against the state it was listed for: an action
/// comes out of the list that was handed out last, with that list's version,
/// and only while the game has not moved past it.
pub proof fn law_ids_are_bound_to_their_version(s: SessionModel, id: u32, expected: Option<u64>)
    ensures
        s.action_by_id(id, expected) matches Ok((a, version)) ==> s.last_legal matches Some((acts, v))
            && v == version && s.current_version() <= version && (expected matches Some(w) ==> w
            == version) && exists|i: int|
            0 <= i < acts.len() && (#[trigger] acts[i]).id == id && acts[i].action == a,
{
    if let Some((acts, v)) = s.last_legal {
        lemma_action_at(acts, id, 0);
    }
}

proof fn lemma_action_at(acts: Seq<LegalModel>, id: u32, i: nat)
    ensures
        action_at(acts, id, i) matches Some(a) ==> exists|k: int|
            0 <= k < acts.len() && (#[trigger] acts[k]).id == id && acts[k].action == a,
    decreases acts.len() - i,
{
    if i < acts.len() && acts[i as int].id != id {
        lemma_action_at(acts, id, i + 1);
    }
}

/// A wait ends by itself only when this seat must act, the game is over, a
/// newer call took its place, or, while the link is up, its time is up.
pub proof fn law_wait_ends_for_a_reason(
    s: SessionModel,
    generation: u64,
    conn: ConnState,
    left: u64,
)
    ensures
        s.wait_step(generation, conn, left) is Ready ==> s.my_reason() is Some || s.outcome() is Some,
        s.wait_step(generation, conn, left) is TimedOut ==> conn.up() && left == 0,
        s.superseded(generation) ==> s.wait_step(generation, conn, left) is Superseded,
        s.wait_step(generation, conn, left) matches Wait::Sleep { millis } ==> 0 < millis <= POLL_MILLIS,
{
}

// ----- executable parts -----

fn find_name(names: &Vec<(ObjectId, String)>, id: ObjectId) -> (r: Option<usize>)
    ensures
        match r {
            Some(i) => name_at(name_pairs(names@), id, 0) == Some(i as nat) && i < names@.len(),
            None => name_at(name_pairs(names@), id, 0) is None,
        },
{
    let ghost pairs = name_pairs(names@);
    let mut i: usize = 0;
    while i < names.len()
        invariant
            i <= names.len(),
            pairs == name_pairs(names@),
            name_at(pairs, id, 0) == name_at(pairs, id, i as nat),
        decreases names.len() - i,
    {
        if names[i].0 == id {
            return Some(i);
        }
        i = i + 1;
    }
    None
}

impl Names for Session {
    open spec fn naming(&self) -> Naming {
        self.model().naming()
    }

    fn object_text(&self, id: ObjectId) -> (r: String) {
        cat3(self.name_of(id).as_str(), " ", id.text().as_str())
    }

    fn seat_text(&self, seat: Seat) -> (r: String) {
        self.seat_name(seat)
    }
}

impl Session {
    /// A seat that has just joined.
    pub fn new(me: Seat, game_id: String, lobby: LobbyView) -> (r: Session)
        ensures
            r.model() == (SessionModel {
                me,
                game_id: game_id@,
                view: None,
                lobby: lobby@,
                log: Seq::empty(),
                names: Seq::empty(),
                last_legal: None,
                wait_gen: 0,
                chat_cursor: 0,
            }),
    {
        let r = Session {
            me,
            game_id,
            view: None,
            lobby,
            log: Vec::new(),
            names: Vec::new(),
            last_legal: None,
            wait_gen: 0,
            chat_cursor: 0,
        };
        assert(name_pairs(r.names@) =~= Seq::empty());
        r
    }

    fn learn(&mut self, id: ObjectId, name: String)
        ensures
            final(self).model() == (SessionModel {
                names: with_name(old(self).model().names, id, name@),
                ..old(self).model()
            }),
    {
        let ghost before = self.names@;
        let ghost said = name@;
        match find_name(&self.names, id) {
            Some(i) => {
                self.names.set(i, (id, name));
                assert(name_pairs(self.names@) =~= name_pairs(before).update(i as int, (id, said)));
            },
            None => {
                self.names.push((id, name));
                assert(name_pairs(self.names@) =~= name_pairs(before).push((id, said)));
            },
        }
    }

    /// Keep the newest state, and the names in it.
    pub fn store_view(&mut self, view: GameView)
        ensures
            final(self).model() == old(self).model().with_view(view@),
    {
        let ghost seen = view@.objects;
        let mut i: usize = 0;
        assert(seen.len() == view.objects@.len());
        while i < view.objects.len()
            invariant
                i <= view.objects.len(),
                seen == views(view.objects@),
                seen.len() == view.objects@.len(),
                self.model() == (SessionModel {
                    names: with_names(old(self).model().names, seen, i as nat),
                    ..old(self).model()
                }),
            decreases view.objects.len() - i,
        {
            assert(seen[i as int] == view.objects@[i as int]@);
            self.learn(view.objects[i].id, view.objects[i].name.clone());
            i = i + 1;
        }
        self.view = Some(view);
    }

    pub fn view(&self) -> (r: Option<&GameView>)
        ensures
            match r {
                Some(v) => self.model().view == Some(v@),
                None => self.model().view is None,
            },
    {
        match &self.view {
            Some(v) => Some(v),
            None => None,
        }
    }

    pub fn lobby(&self) -> (r: &LobbyView)
        ensures
            r@ == self.model().lobby,
    {
        &self.lobby
    }

    pub fn started(&self) -> (b: bool)
        ensures
            b == (self.model().view is Some),
    {
        self.view.is_some()
    }

    pub fn name_of(&self, id: ObjectId) -> (r: String)
        ensures
            r@ == self.model().name_of(id),
    {
        match find_name(&self.names, id) {
            Some(i) => self.names[i].1.clone(),
            None => id.text(),
        }
    }

    pub fn seat_name(&self, seat: Seat) -> (r: String)
        ensures
            r@ == self.model().seat_name(seat),
    {
        if let Some(v) = &self.view {
            assert(views(v.players@).len() == v.players@.len());
            if seat.index() < v.players.len() {
                assert(v@.players[seat.0 as int] == v.players@[seat.0 as int]@);
                return v.players[seat.index()].name.clone();
            }
        }
        assert(views(self.lobby.seats@).len() == self.lobby.seats@.len());
        if seat.index() < self.lobby.seats.len() {
            assert(self.model().lobby.seats[seat.0 as int] == self.lobby.seats@[seat.0 as int]@);
            if let Some(n) = &self.lobby.seats[seat.index()].name {
                return n.clone();
            }
        }
        seat.text()
    }

    /// Why this seat must act right now, if it must.
    pub fn my_reason(&self) -> (r: Option<ActReason>)
        ensures
            r == self.model().my_reason(),
    {
        match &self.view {
            Some(v) => v.must_act.get(self.me),
            None => None,
        }
    }

    pub fn outcome(&self) -> (r: Option<Outcome>)
        ensures
            r == self.model().outcome(),
    {
        match &self.view {
            Some(v) => v.outcome,
            None => None,
        }
    }

    pub fn current_version(&self) -> (n: u64)
        ensures
            n == self.model().current_version(),
    {
        match &self.view {
            Some(v) => v.state_version,
            None => 0,
        }
    }

    /// The game has ended *and* the link is gone: whoever hosted the table
    /// took it down with the game, so there is nothing left to reconnect to.
    pub fn table_closed(&self, conn: ConnState) -> (b: bool)
        ensures
            b == self.model().table_closed(conn),
    {
        self.outcome().is_some() && !conn.is_connected()
    }

    /// Whether a request that has waited `waited` milliseconds goes on waiting:
    /// a finished table fails at once, and a live one that is reconnecting
    /// gets a while before the tool comes back and says so.
    pub fn request_step(&self, conn: ConnState, waited: u64) -> (r: Request)
        ensures
            r == self.model().request_step(conn, waited),
    {
        if self.table_closed(conn) {
            Request::Closed
        } else if conn == ConnState::GaveUp {
            Request::Lost
        } else if waited >= GRACE_MILLIS {
            Request::Unanswered
        } else {
            Request::KeepWaiting
        }
    }

    fn line_text(&self, event: &EventView) -> (r: String)
        ensures
            r@ == self.model().line_words(event@),
    {
        match event {
            EventBase::Chat { from, to, text } => {
                let who = if *from == self.me {
                    "You".to_owned()
                } else {
                    self.seat_name(*from)
                };
                match to {
                    Some(t) => cat5(
                        who.as_str(),
                        " → ",
                        self.seat_name(*t).as_str(),
                        ": ",
                        text.as_str(),
                    ),
                    None => cat3(who.as_str(), ": ", text.as_str()),
                }
            },
            e => describe_event_view(e, self),
        }
    }

    /// A line in the log for an event, unless it says too little.
    pub fn log_event(&mut self, event: &EventView)
        ensures
            final(self).model() == old(self).model().logged(event@),
    {
        let noisy = matches!(
            event,
            EventBase::PriorityPassed { .. } | EventBase::Tapped { .. } | EventBase::Untapped { .. }
            | EventBase::Shuffled { .. } | EventBase::ManaAdded { .. }
        );
        if noisy {
            return ;
        }
        let turn: u32 = match event {
            EventBase::TurnStarted { turn, .. } => *turn,
            _ => match &self.view {
                Some(v) => v.turn,
                None => 0,
            },
        };
        let chat = match event {
            EventBase::Chat { from, .. } => *from != self.me,
            _ => false,
        };
        let text = self.line_text(event);
        self.log.push(LogLine { turn, text, chat });
    }

    /// Take in a pushed message. Returns whether the state must be fetched.
    pub fn handle_push(&mut self, push: Push) -> (refresh: bool)
        ensures
            (final(self).model(), refresh) == old(self).model().pushed(push),
    {
        match push {
            Push::Event { event, state_version } => {
                let newer = state_version > self.current_version();
                self.log_event(&event);
                newer
            },
            Push::Lobby { lobby } => {
                let refresh = lobby.started && !self.started();
                self.lobby = lobby;
                refresh
            },
            Push::MustAct => true,
            Push::Other => false,
        }
    }

    /// What the table has said to this seat since the last tool reply, and
    /// marks it delivered. The tools append it to their own text: chat is
    /// pushed live and never replayed, so an agent that only reads tool
    /// replies would otherwise be talked at and never hear it.
    pub fn undelivered_chat(&mut self) -> (r: Vec<String>)
        ensures
            views(r@) == chat_lines(
                old(self).model().log,
                if old(self).model().chat_cursor < old(self).model().log.len() {
                    old(self).model().chat_cursor
                } else {
                    old(self).model().log.len()
                },
                old(self).model().log.len(),
            ),
            final(self).model() == (SessionModel { chat_cursor: old(self).model().log.len(), ..old(self).model() }),
    {
        let ghost log = self.model().log;
        assert(log.len() == self.log@.len());
        let from: usize = if self.chat_cursor < self.log.len() {
            self.chat_cursor
        } else {
            self.log.len()
        };
        let mut out: Vec<String> = Vec::new();
        let mut i: usize = from;
        while i < self.log.len()
            invariant
                from <= i <= self.log.len(),
                log == views(self.log@),
                log.len() == self.log@.len(),
                views(out@) == chat_lines(log, from as nat, i as nat),
            decreases self.log.len() - i,
        {
            assert(log[i as int] == self.log@[i as int]@);
            if self.log[i].chat {
                out.push(self.log[i].text.clone());
            }
            i = i + 1;
        }
        self.chat_cursor = self.log.len();
        out
    }

    /// The log from a turn on.
    pub fn log_since(&self, since_turn: Option<u32>) -> (r: Vec<LogLine>)
        ensures
            views(r@) == match since_turn {
                Some(t) => lines_since(self.model().log, t, self.model().log.len()),
                None => self.model().log,
            },
    {
        let ghost log = self.model().log;
        assert(log.len() == self.log@.len());
        let mut out: Vec<LogLine> = Vec::new();
        let mut i: usize = 0;
        while i < self.log.len()
            invariant
                i <= self.log.len(),
                log == views(self.log@),
                log.len() == self.log@.len(),
                views(out@) == match since_turn {
                    Some(t) => lines_since(log, t, i as nat),
                    None => log.subrange(0, i as int),
                },
            decreases self.log.len() - i,
        {
            assert(log[i as int] == self.log@[i as int]@);
            let keep = match since_turn {
                Some(t) => self.log[i].turn >= t,
                None => true,
            };
            if keep {
                out.push(
                    LogLine {
                        turn: self.log[i].turn,
                        text: self.log[i].text.clone(),
                        chat: self.log[i].chat,
                    },
                );
            }
            i = i + 1;
            assert(log.subrange(0, i as int) =~= log.subrange(0, i - 1).push(log[i - 1]));
        }
        assert(log.subrange(0, log.len() as int) =~= log);
        out
    }

    /// Start a new tool call: any wait still running from an earlier call (one
    /// the client gave up on) is told to stop. Returns this call's generation.
    pub fn begin_call(&mut self) -> (generation: u64)
        ensures
            final(self).model() == (SessionModel { wait_gen: generation, ..old(self).model() }),
            generation == if old(self).model().wait_gen < u64::MAX {
                (old(self).model().wait_gen + 1) as u64
            } else {
                0
            },
    {
        self.wait_gen = if self.wait_gen < u64::MAX {
            self.wait_gen + 1
        } else {
            0
        };
        self.wait_gen
    }

    pub fn superseded(&self, generation: u64) -> (b: bool)
        ensures
            b == self.model().superseded(generation),
    {
        self.wait_gen != generation
    }

    /// What a wait does next: it ends when this seat must act or the game
    /// ends, the timeout passes, or a newer tool call supersedes it.
    pub fn wait_step(&self, generation: u64, conn: ConnState, left: u64) -> (w: Wait)
        ensures
            w == self.model().wait_step(generation, conn, left),
    {
        if self.superseded(generation) {
            Wait::Superseded
        } else if self.my_reason().is_some() || self.outcome().is_some() {
            Wait::Ready
        } else if conn == ConnState::GaveUp {
            Wait::Disconnected
        } else if !conn.is_connected() {
            Wait::Sleep { millis: POLL_MILLIS }
        } else if left == 0 {
            Wait::TimedOut
        } else if left < NAP_MILLIS {
            Wait::Sleep { millis: left }
        } else {
            Wait::Sleep { millis: NAP_MILLIS }
        }
    }

    /// Remember the legal actions that were handed out, for an action by its id.
    pub fn remember_legal(&mut self, actions: Vec<LegalAction>, version: u64)
        ensures
            final(self).model() == (SessionModel {
                last_legal: Some((views(actions@), version)),
                ..old(self).model()
            }),
    {
        self.last_legal = Some((actions, version));
    }

    /// An action was accepted: keep the state and the list that came back.
    pub fn acted(&mut self, view: GameView, legal: Vec<LegalAction>)
        ensures
            final(self).model() == (SessionModel {
                last_legal: Some((views(legal@), view@.state_version)),
                ..old(self).model().with_view(view@)
            }),
    {
        let version: u64 = view.state_version;
        self.store_view(view);
        self.last_legal = Some((legal, version));
    }

    /// Resolve an action id from the last list handed out.
    pub fn action_by_id(&self, id: u32, expected_version: Option<u64>) -> (r: Result<
        (Action, u64),
        String,
    >)
        ensures
            match r {
                Ok((a, v)) => self.model().action_by_id(id, expected_version) == Ok::<
                    (ActionModel, u64),
                    Seq<char>,
                >((a@, v)),
                Err(e) => self.model().action_by_id(id, expected_version) == Err::<
                    (ActionModel, u64),
                    Seq<char>,
                >(e@),
            },
    {
        let (actions, version) = match &self.last_legal {
            Some((a, v)) => (a, *v),
            None => {
                return Err("call get_legal_actions first to get action ids".to_owned());
            },
        };
        if let Some(want) = expected_version {
            if want != version {
                return Err(
                    cat5(
                        "your action ids are from state version ",
                        nat_text(version).as_str(),
                        ", but you named version ",
                        nat_text(want).as_str(),
                        "; call get_legal_actions again",
                    ),
                );
            }
        }
        let current: u64 = self.current_version();
        if current > version {
            return Err(
                cat5(
                    "the game has moved on (your action list is from version ",
                    nat_text(version).as_str(),
                    ", the game is at ",
                    nat_text(current).as_str(),
                    "); call get_legal_actions or wait_for_turn again before choosing",
                ),
            );
        }
        let ghost acts = views(actions@);
        assert(acts.len() == actions@.len());
        let mut i: usize = 0;
        while i < actions.len()
            invariant
                i <= actions.len(),
                acts == views(actions@),
                acts.len() == actions@.len(),
                self.model().last_legal == Some((acts, version)),
                !(expected_version matches Some(want) && want != version),
                self.model().current_version() <= version,
                action_at(acts, id, 0) == action_at(acts, id, i as nat),
            decreases actions.len() - i,
        {
            assert(acts[i as int] == actions@[i as int]@);
            if actions[i].id == id {
                return Ok((actions[i].action.clone(), version));
            }
            i = i + 1;
        }
        Err(
            cat5(
                "no action with id ",
                nat_text(id as u64).as_str(),
                " in the last legal_actions list (ids: 0..",
                nat_text(actions.len() as u64).as_str(),
                ")",
            ),
        )
    }
}

/// A call that began before another one is superseded by it.
pub proof fn law_newer_calls_supersede(before: SessionModel, after: SessionModel, generation: u64)
    requires
        before.wait_gen == generation,
        after.wait_gen == if generation < u64::MAX {
            (generation + 1) as u64
        } else {
            0
        },
    ensures
        !before.superseded(generation),
        after.superseded(generation),
{
}

} // verus!
