//! Sessions of agent seats, what they are told, and the tools they call.
use manaline::event::EventBase;
use manaline::ingest::{roundtrip, roundtrip_files, type_line, AsWritten, InvalidFile, OracleCard, RoundTrip};
use manaline::ir::Card;
use manaline::reply::{
    card_text, combat_composition_hint, cube_text, decide_turn, not_started, nothing_to_do, outcome_text, reason_text, render_acted,
    render_legal, render_state, with_chat, TurnStep,
};
use manaline::session::{ConnState, LegalAction, LobbySeat, LobbyView, LogLine, Push, Request, Session, Wait};
use manaline::table::{
    agent_seats, already_seated, control_done, control_failed, control_step, left_text, mode, seat_refusal, seated_text, sit_down,
    ControlReply, ControlRequest, ControlStep, GameMarker, SeatKind, SeatSlot, SitDown,
};
use manaline::testing::TestGame;
use manaline::tools::{
    deck_line, log_text, open_editor, padded_left, padded_right, problems_of, status_text, still_waiting, tool_offered, ActionChoice,
    CheckedCard, DeckChoice, EditorStatus, SearchParams, SubmitDeckParams, TakeActionParams, WaitParams,
};
use manaline::types::Supertype;
use manaline::{
    ActReason, Action, AttackTarget, CardDb, CardType, Elimination, EventView, Game, ManaCost, ObjectId, Outcome, Seat,
};
use std::sync::Arc;

fn no_mana() -> ManaCost {
    ManaCost { generic: 0, x: 0, white: 0, blue: 0, black: 0, red: 0, green: 0 }
}

fn bears() -> Card {
    let mut c = Card::blank("Grizzly Bears", ManaCost { generic: 1, green: 1, ..no_mana() }, vec![CardType::Creature]);
    c.subtypes = vec!["Bear".to_string()];
    c.pt = Some((2, 2));
    c
}

fn forest() -> Card {
    let mut c = Card::blank("Forest", no_mana(), vec![CardType::Land]);
    c.supertypes = vec![Supertype::Basic];
    c.subtypes = vec!["Forest".to_string()];
    c
}

fn db() -> Arc<CardDb> {
    Arc::new(CardDb::from_ir("core", vec![(forest(), None), (bears(), None)]).unwrap())
}

fn game() -> Game {
    TestGame::new(db(), 2).battlefield(Seat(0), "Grizzly Bears").build().unwrap()
}

fn lobby(started: bool) -> LobbyView {
    LobbyView {
        seats: vec![
            LobbySeat { seat: Seat(0), name: Some("Ada".to_string()), deck_ok: true, ready: true },
            LobbySeat { seat: Seat(1), name: None, deck_ok: false, ready: false },
        ],
        started,
    }
}

fn session() -> Session {
    Session::new(Seat(0), "abc".to_string(), lobby(true))
}

fn listed(game: &Game, seat: Seat) -> Vec<LegalAction> {
    let mut out = Vec::new();
    for (i, action) in game.legal_actions(seat).into_iter().enumerate() {
        let description = manaline::text::describe_action(game, &action);
        out.push(LegalAction { id: i as u32, action, description });
    }
    out
}

// ----- the session -----

#[test]
fn a_new_session_knows_nothing() {
    let s = session();
    assert!(s.view().is_none());
    assert_eq!(s.my_reason(), None);
    assert_eq!(s.outcome(), None);
    assert_eq!(s.current_version(), 0);
    assert!(!s.started());
    assert_eq!(s.seat_name(Seat(0)), "Ada");
    assert_eq!(s.name_of(ObjectId(9)), "#9");
}

#[test]
fn a_view_tells_whose_turn_it_is() {
    let g = game();
    let mut s = session();
    s.store_view(g.view(Seat(0)));
    assert!(s.started());
    assert_eq!(s.my_reason(), Some(ActReason::Priority));
    assert_eq!(s.current_version(), g.state_version());
    assert_eq!(s.name_of(g.players[0].battlefield[0]), "Grizzly Bears");
}

#[test]
fn ids_are_bound_to_the_version_they_came_from() {
    let mut g = game();
    let mut s = session();
    assert_eq!(s.action_by_id(0, None).unwrap_err(), "call get_legal_actions first to get action ids");
    s.store_view(g.view(Seat(0)));
    let v = g.state_version();
    s.remember_legal(listed(&g, Seat(0)), v);
    let (a, from) = s.action_by_id(0, None).unwrap();
    assert!(a.is_pass());
    assert_eq!(from, v);
    assert!(s.action_by_id(0, Some(v)).is_ok());
    let err = s.action_by_id(0, Some(v + 1)).unwrap_err();
    assert!(err.starts_with("your action ids are from state version"), "{err}");
    let err = s.action_by_id(99, None).unwrap_err();
    assert!(err.starts_with("no action with id 99"), "{err}");
    g.apply(Seat(0), &Action::PassPriority).unwrap();
    s.store_view(g.view(Seat(0)));
    let err = s.action_by_id(0, None).unwrap_err();
    assert!(err.starts_with("the game has moved on"), "{err}");
}

#[test]
fn a_newer_call_supersedes_a_wait() {
    let mut s = session();
    let first = s.begin_call();
    assert!(!s.superseded(first));
    let second = s.begin_call();
    assert!(s.superseded(first));
    assert!(!s.superseded(second));
    assert_eq!(s.wait_step(first, ConnState::Connected, 1000), Wait::Superseded);
}

#[test]
fn a_wait_ends_for_a_reason() {
    let mut s = session();
    let call = s.begin_call();
    assert_eq!(s.wait_step(call, ConnState::Connected, 1000), Wait::Sleep { millis: 500 });
    assert_eq!(s.wait_step(call, ConnState::Connected, 200), Wait::Sleep { millis: 200 });
    assert_eq!(s.wait_step(call, ConnState::Connected, 0), Wait::TimedOut);
    assert_eq!(s.wait_step(call, ConnState::Reconnecting, 0), Wait::Sleep { millis: 3000 });
    assert_eq!(s.wait_step(call, ConnState::GaveUp, 1000), Wait::Disconnected);
    s.store_view(game().view(Seat(0)));
    assert_eq!(s.wait_step(call, ConnState::Connected, 1000), Wait::Ready);
}

#[test]
fn a_request_waits_for_a_table_that_may_come_back() {
    let mut s = session();
    assert_eq!(s.request_step(ConnState::Reconnecting, 0), Request::KeepWaiting);
    assert_eq!(s.request_step(ConnState::Reconnecting, 15_000), Request::Unanswered);
    assert_eq!(s.request_step(ConnState::GaveUp, 0), Request::Lost);
    let mut g = game();
    g.apply(Seat(1), &Action::Concede).unwrap();
    s.store_view(g.view(Seat(0)));
    assert_eq!(s.request_step(ConnState::Reconnecting, 0), Request::Closed);
    assert!(s.table_closed(ConnState::GaveUp));
    assert!(!s.table_closed(ConnState::Connected));
}

#[test]
fn chat_is_delivered_once() {
    let mut s = session();
    let said: EventView = EventBase::Chat { from: Seat(0), to: None, text: "hello".to_string() };
    s.log_event(&said);
    s.handle_push(Push::Event {
        event: EventBase::Chat { from: Seat(0), to: Some(Seat(1)), text: "psst".to_string() },
        state_version: 0,
    });
    let lines: Vec<String> = s.log_since(None).into_iter().map(|l| l.text).collect();
    assert_eq!(lines[0], "You: hello");
    assert!(lines[1].starts_with("You → "), "{lines:?}");
    let first = s.undelivered_chat();
    assert!(first.is_empty(), "{first:?}");
    s.log_event(&EventBase::Chat { from: Seat(1), to: None, text: "your move".to_string() });
    assert_eq!(s.undelivered_chat(), vec!["seat 1: your move"]);
    assert!(s.undelivered_chat().is_empty());
}

// ----- what an agent is told -----

#[test]
fn the_state_says_whose_turn_it_is() {
    let g = game();
    let mut s = session();
    let view = g.view(Seat(0));
    s.store_view(g.view(Seat(0)));
    let text = render_state(&s, &view, &listed(&g, Seat(0)));
    assert!(text.contains("IT IS YOUR TURN TO ACT"), "{text}");
    assert!(text.contains("LEGAL ACTIONS (state_version"), "{text}");
    let other = Session::new(Seat(1), "abc".to_string(), lobby(true));
    let text = render_state(&other, &g.view(Seat(1)), &vec![]);
    assert!(text.contains("Not your turn. Waiting on"), "{text}");
    assert_eq!(reason_text(ActReason::Priority), "you have priority: cast, play a land, or pass");
}

#[test]
fn an_outcome_is_told_from_ones_own_side() {
    let mut g = game();
    g.apply(Seat(1), &Action::Concede).unwrap();
    let mut s = session();
    s.store_view(g.view(Seat(0)));
    let text = outcome_text(&s, Outcome::Winner(Seat(0)));
    assert!(text.starts_with("you won ("), "{text}");
    let mut loser = Session::new(Seat(1), "abc".to_string(), lobby(true));
    loser.store_view(g.view(Seat(1)));
    let text = outcome_text(&loser, Outcome::Winner(Seat(0)));
    assert!(text.contains(" won (you "), "{text}");
    assert!(!text.contains("you was"), "{text}");
    assert!(!Elimination::LifeZero.your_phrase().contains("was"));
    assert!(render_state(&s, &g.view(Seat(0)), &vec![]).contains("GAME OVER: you won"));
}

#[test]
fn an_action_is_answered_with_what_happened() {
    let g = game();
    let s = session();
    let events: Vec<EventView> = vec![
        EventBase::PriorityPassed { seat: Seat(0) },
        EventBase::LifeChanged { seat: Seat(0), from: 20, to: 18 },
    ];
    let text = render_acted(&s, &events, &g.view(Seat(0)), &vec![]);
    assert!(text.starts_with("WHAT HAPPENED\n  "), "{text}");
    assert!(text.contains("18"), "{text}");
    let quiet: Vec<EventView> = vec![EventBase::PriorityPassed { seat: Seat(0) }];
    assert!(!render_acted(&s, &quiet, &g.view(Seat(0)), &vec![]).contains("WHAT HAPPENED"));
}

#[test]
fn combat_declarations_come_with_an_example() {
    let attack = LegalAction {
        id: 0,
        action: Action::DeclareAttackers { attackers: vec![(ObjectId(7), AttackTarget::Player(Seat(1)))] },
        description: "Attack".to_string(),
    };
    let text = combat_composition_hint(&vec![attack]);
    assert!(text.contains("\nATTACKING: any subset"), "{text}");
    assert!(text.contains("{\"kind\":\"declare_attackers\",\"attackers\":[[7,"), "{text}");
    let block = LegalAction {
        id: 0,
        action: Action::DeclareBlockers { blocks: vec![(ObjectId(3), ObjectId(7))] },
        description: "Block".to_string(),
    };
    let text = combat_composition_hint(&vec![block]);
    assert!(text.contains("{\"kind\":\"declare_blockers\",\"blocks\":[[3,7]]}"), "{text}");
    assert_eq!(combat_composition_hint(&vec![]), "");
    assert_eq!(render_legal(&vec![], 4), "\nLEGAL ACTIONS (state_version 4)\n");
}

#[test]
fn a_seat_is_woken_for_decisions_only() {
    let g = game();
    let view = g.view(Seat(0));
    let legal = listed(&g, Seat(0));
    let v = view.state_version;
    let only_pass = vec![LegalAction { id: 0, action: Action::PassPriority, description: "Pass".to_string() }];
    assert!(nothing_to_do(&only_pass));
    let decide = |legal: &Vec<LegalAction>, version: u64, auto: bool| {
        decide_turn(&view, Seat(0), legal, version, Some(ActReason::Priority), auto)
    };
    assert_eq!(decide(&only_pass, v, true), TurnStep::Pass);
    assert_eq!(decide(&only_pass, v, false), TurnStep::Decide);
    assert_eq!(decide(&only_pass, v + 1, false), TurnStep::Resync);
    assert_eq!(decide(&vec![], v, false), TurnStep::Resync);
    assert_eq!(decide(&legal, v, true), if nothing_to_do(&legal) { TurnStep::Pass } else { TurnStep::Decide });
    let mut over = game();
    over.apply(Seat(1), &Action::Concede).unwrap();
    let view = over.view(Seat(0));
    assert_eq!(decide_turn(&view, Seat(0), &vec![], 0, None, true), TurnStep::GameOver);
}

#[test]
fn cards_are_told_in_full() {
    assert_eq!(
        card_text("Grizzly Bears", "{1}{G}", &vec![CardType::Creature], &vec!["Bear".to_string()], Some((2, 2)), ""),
        "Grizzly Bears {1}{G}\nCreature — Bear\n2/2\n(no rules text)"
    );
    let text = cube_text(&db());
    assert!(text.starts_with("# Card set\n\nForest "), "{text}");
    assert!(text.contains("Grizzly Bears {1}{G} · Creature — Bear 2/2\n"), "{text}");
}

#[test]
fn chat_follows_the_reply() {
    assert_eq!(with_chat("ok", &vec![]), "ok");
    assert_eq!(with_chat("ok", &vec!["Ada: hi".to_string()]), "ok\nTABLE CHAT\n  Ada: hi\n");
}

#[test]
fn the_lobby_is_told_before_the_game() {
    let s = Session::new(Seat(0), "abc".to_string(), lobby(false));
    let text = not_started(&s);
    assert!(text.contains("seat 0: Ada, deck ok, ready"), "{text}");
    assert!(text.contains("no deck"), "{text}");
}

// ----- tables -----

fn marker(claims: Vec<(u8, u32)>) -> GameMarker {
    let slot = |seat: u8, kind: SeatKind| SeatSlot { seat, kind, name: String::new(), token: None, deck: None };
    GameMarker {
        game_id: "g1".to_string(),
        seats: vec![slot(0, SeatKind::Human), slot(1, SeatKind::Agent), slot(2, SeatKind::Agent), slot(3, SeatKind::Random)],
        claims,
    }
}

#[test]
fn a_refused_seat_is_explained() {
    assert_eq!(agent_seats(&marker(vec![])), "1, 2");
    assert_eq!(
        seat_refusal(&marker(vec![(1, 77)]), Some(1)),
        "seat 1 at g1 is not a free agent seat (agent seats: 1, 2; claimed: seat 1 (pid 77)). \
         Call sit_down with no seat to take the next free one."
    );
    assert_eq!(
        seat_refusal(&marker(vec![(1, 77), (2, 78)]), None),
        "every agent seat at g1 is taken (seat 1 (pid 77), seat 2 (pid 78)); \
         ask the human to start a game with an agent seat."
    );
}

#[test]
fn a_live_seat_is_kept_and_a_finished_one_given_back() {
    let mut s = session();
    assert_eq!(sit_down(true, None), SitDown::Fixed);
    assert_eq!(sit_down(false, None), SitDown::Take);
    assert_eq!(sit_down(false, Some(&s)), SitDown::Seated);
    let mut g = game();
    g.apply(Seat(1), &Action::Concede).unwrap();
    s.store_view(g.view(Seat(0)));
    assert_eq!(sit_down(false, Some(&s)), SitDown::Move);
}

#[test]
fn seats_are_announced() {
    let s = session();
    assert_eq!(
        already_seated(&s),
        "you are already seated in game abc as seat 0; call leave first if you want a different seat"
    );
    assert_eq!(
        seated_text(&s, "Ada", &Some("green".to_string())),
        "Seated at game abc as seat 0 (Ada). Your deck is green. The game is under way: call wait_for_turn."
    );
    assert!(left_text(&s).starts_with("Left game abc (seat 0)"));
    assert_eq!(mode(Some(&s)), "game abc, seat 0");
    assert_eq!(mode(None), "card data only");
}

#[test]
fn control_requests_are_answered_by_the_seat_held() {
    let s = session();
    let attach = ControlRequest::Attach {
        endpoint: "e".to_string(),
        token: "t".to_string(),
        name: "n".to_string(),
        decklist: None,
    };
    match control_step(Some(&s), &ControlRequest::Status, "http://x/mcp") {
        ControlStep::Reply(ControlReply::Done { mode, url }) => {
            assert_eq!(mode, "game abc, seat 0");
            assert_eq!(url, "http://x/mcp");
        }
        other => panic!("{other:?}"),
    }
    match control_step(Some(&s), &attach, "u") {
        ControlStep::Reply(ControlReply::Error { message }) => {
            assert_eq!(message, "already seated in game abc; detach first");
        }
        other => panic!("{other:?}"),
    }
    assert!(matches!(control_step(None, &attach, "u"), ControlStep::Join));
    assert!(matches!(control_step(Some(&s), &ControlRequest::Detach, "u"), ControlStep::Leave));
    assert!(matches!(control_done(None, "u"), ControlReply::Done { mode, .. } if mode == "card data only"));
    assert!(matches!(control_failed("no"), ControlReply::Error { message } if message == "could not join the game: no"));
}

// ----- tools -----

#[test]
fn parameters_have_defaults_and_bounds() {
    let wait = |t: Option<u32>| WaitParams { timeout_seconds: t, auto_pass: None }.seconds();
    assert_eq!((wait(None), wait(Some(0)), wait(Some(9))), (45, 1, 9));
    assert!(WaitParams { timeout_seconds: None, auto_pass: None }.passes());
    assert!(!WaitParams { timeout_seconds: None, auto_pass: Some(false) }.passes());
    let most = |limit: Option<u32>| SearchParams { query: "t:elf".to_string(), limit, include_unimplemented: None }.most();
    assert_eq!((most(None), most(Some(0)), most(Some(5)), most(Some(999))), (20, 1, 5, 200));
    let search = SearchParams { query: "t:elf".to_string(), limit: None, include_unimplemented: None };
    assert_eq!(search.search_text(true), "(t:elf) is:implemented");
    assert_eq!(search.search_text(false), "t:elf");
}

#[test]
fn an_action_is_named_one_way() {
    let take = |action_id: Option<u32>, action: Option<&str>| TakeActionParams {
        action_id,
        action: action.map(|a| a.to_string()),
        state_version: None,
    };
    assert!(matches!(take(Some(3), None).choice(), ActionChoice::ById(3)));
    assert!(matches!(take(None, Some("{}")).choice(), ActionChoice::Written("{}")));
    assert!(matches!(take(None, None).choice(), ActionChoice::Unclear));
    assert!(matches!(take(Some(1), Some("{}")).choice(), ActionChoice::Unclear));
    let deck = |name: Option<&str>, list: Option<&str>| SubmitDeckParams {
        name: name.map(|a| a.to_string()),
        decklist: list.map(|a| a.to_string()),
    };
    assert!(matches!(deck(Some("red"), Some("1 Forest")).choice(), DeckChoice::Named("red")));
    assert!(matches!(deck(None, Some("1 Forest")).choice(), DeckChoice::Listed("1 Forest")));
    assert!(matches!(deck(None, None).choice(), DeckChoice::Missing));
}

#[test]
fn the_deckbuilder_is_hidden_from_a_seat() {
    assert!(tool_offered("editor_save", false));
    assert!(!tool_offered("editor_save", true));
    assert!(tool_offered("take_action", true));
}

#[test]
fn replies_are_laid_out() {
    assert_eq!(log_text(&vec![]), "(nothing yet)");
    let line = |turn: u32, text: &str| LogLine { turn, text: text.to_string(), chat: false };
    assert_eq!(log_text(&vec![line(1, "a"), line(2, "b")]), "T1  a\nT2  b");
    assert!(still_waiting(45, 3).starts_with("Still waiting after 45s: "));
    assert!(still_waiting(45, 3).contains("(3 priority passes made for you)"));
    assert_eq!(padded_left("7", 3), "  7");
    assert_eq!(padded_right("ab", 4), "ab  ");
    assert_eq!(padded_right("abcde", 4), "abcde");
    assert_eq!(deck_line("green", 40, "G", true, "builtin"), "green             40 cards  G      legal      builtin\n");
    let cards = vec![
        CheckedCard { count: 1, name: "A".to_string(), problem: String::new() },
        CheckedCard { count: 1, name: "B".to_string(), problem: "banned".to_string() },
    ];
    assert_eq!(problems_of(&vec!["too small".to_string()], &cards), vec!["too small", "B: banned"]);
}

#[test]
fn deckbuilders_are_found_and_described() {
    assert_eq!(open_editor(&vec![]), Ok(None));
    assert_eq!(open_editor(&vec!["a".to_string()]), Ok(Some(0)));
    assert_eq!(
        open_editor(&vec!["a".to_string(), "b".to_string()]),
        Err("several deckbuilders are open (a, b); name the file with `path`".to_string())
    );
    let st = EditorStatus {
        path: "red.txt".to_string(),
        format: "Cube".to_string(),
        legality: "legal".to_string(),
        dirty: true,
        last_agent_action: Some("added Shock".to_string()),
    };
    assert_eq!(
        status_text(&st),
        "Deckbuilder on red.txt (Cube format): legal · unsaved changes · last agent action: added Shock"
    );
}

// ----- written cards -----

#[test]
fn type_lines_are_capitalised() {
    assert_eq!(type_line(&forest()), "Basic Land — Forest");
    assert_eq!(type_line(&bears()), "Creature — Bear");
    assert_eq!(type_line(&Card::blank("X", no_mana(), vec![CardType::Instant])), "Instant");
}

#[test]
fn every_card_comes_back_or_is_listed() {
    let trips = vec![
        RoundTrip { name: "A".to_string(), mismatch: None },
        RoundTrip { name: "B".to_string(), mismatch: Some(("x".to_string(), "y".to_string())) },
    ];
    let r = roundtrip(&trips);
    assert_eq!((r.total, r.exact, r.mismatches.len()), (2, 1, 1));
    assert!(!r.is_clean());
    assert!(roundtrip(&vec![RoundTrip { name: "A".to_string(), mismatch: None }]).is_clean());
    let r = roundtrip_files(&trips, vec![InvalidFile { file: "c.ron".to_string(), error: "bad".to_string() }]);
    assert_eq!((r.total, r.invalid.len()), (3, 1));
    let text = r.render();
    assert!(text.contains("c.ron") && text.contains("bad"), "{text}");
    assert!(text.contains("1 invalid"), "{text}");
}

#[test]
fn card_data_is_compared_field_by_field() {
    let mut data = vec![OracleCard {
        name: "Grizzly Bears".to_string(),
        oracle_text: String::new(),
        mana_cost: "{1}{G}".to_string(),
        type_line: "Creature — Bear".to_string(),
        power: Some("2".to_string()),
        toughness: Some("2".to_string()),
    }];
    let mut r = roundtrip(&vec![]);
    r.check_oracle(&vec![bears(), forest()], &data, &AsWritten);
    assert!(r.oracle_checked);
    assert!(r.oracle_diffs.is_empty(), "{:?}", r.oracle_diffs);
    assert_eq!(r.not_on_scryfall, vec!["Forest"]);
    data[0].power = Some("3".to_string());
    let mut r = roundtrip(&vec![]);
    r.check_oracle(&vec![bears()], &data, &AsWritten);
    assert_eq!(r.oracle_diffs.len(), 1);
    assert_eq!(r.oracle_diffs[0].field, "pt");
    assert_eq!((r.oracle_diffs[0].ours.as_str(), r.oracle_diffs[0].theirs.as_str()), ("2/2", "3/2"));
}
