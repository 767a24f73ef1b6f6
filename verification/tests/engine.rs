//! What holds of whole games, refusals, formulas, and the engine's use of
//! chance and text.
use manaline::action::ManaPayment;
use manaline::bot::{play_random_game, RandomBot};
use manaline::combos::{choices_of, combinations};
use manaline::dice::Dice;
use manaline::ir::{Ability, Amount, Card, Cost, Effect, Filter, ModeChoice, Ref, Spell};
use manaline::testing::{acting_seat, advance_until, TestGame};
use manaline::types::Supertype;
use manaline::words::{capitalize, int_text, join, nat_text, same_fold, sign_text};
use manaline::{
    Action, AttackTarget, CardDb, CardId, CardPool, CardType, Color, Elimination, Event, EventBase, Format, Game, GameConfig,
    HandView, Mana, ManaCost, ManaPool, ObjectId, Outcome, PendingChoice, PlayerSetup, RulesError, Seat, Zone,
};
use std::sync::Arc;

fn free() -> ManaCost {
    ManaCost { generic: 0, x: 0, white: 0, blue: 0, black: 0, red: 0, green: 0 }
}

fn land(name: &str, color: Color) -> Card {
    let mut c = Card::blank(name, free(), vec![CardType::Land]);
    c.supertypes = vec![Supertype::Basic];
    c.subtypes = vec![name.to_string()];
    c.activated = vec![Ability {
        cost: vec![Cost::Tap],
        targets: vec![],
        effects: Arc::new(vec![Effect::AddMana { color: Some(color), amount: Amount::Const(1) }]),
        sorcery_speed: false,
        from_graveyard: false,
        text: "{T}: Add mana.".to_string(),
    }];
    c
}

fn bears() -> Card {
    let mut c = Card::blank("Grizzly Bears", ManaCost { generic: 1, green: 1, ..free() }, vec![CardType::Creature]);
    c.subtypes = vec!["Bear".to_string()];
    c.pt = Some((2, 2));
    c
}

fn bolt() -> Card {
    let mut c = Card::blank("Bolt", ManaCost { red: 1, ..free() }, vec![CardType::Instant]);
    c.spell = Some(Spell {
        targets: vec![Filter::Any],
        effects: Arc::new(vec![Effect::DealDamage { amount: Amount::Const(3), to: Ref::Target(0) }]),
        modes: vec![],
        choice: ModeChoice::One,
    });
    c
}

fn db() -> Arc<CardDb> {
    let cards = vec![land("Forest", Color::Green), land("Mountain", Color::Red), bears(), bolt()];
    Arc::new(CardDb::from_ir("core", cards.into_iter().map(|c| (c, None)).collect()).unwrap())
}

fn config(db: &Arc<CardDb>, seats: usize) -> GameConfig {
    let id = |name: &str| db.lookup(name).unwrap();
    let mut deck: Vec<CardId> = Vec::new();
    for _ in 0..9 {
        deck.push(id("Forest"));
        deck.push(id("Mountain"));
    }
    for _ in 0..21 {
        deck.push(id("Grizzly Bears"));
        deck.push(id("Bolt"));
    }
    let mut format = if seats == 2 { Format::two_player() } else { Format::free_for_all() };
    format.deck.max_copies = None;
    let players = (0..seats)
        .map(|i| PlayerSetup { name: format!("P{i}"), deck: deck.clone() })
        .collect();
    GameConfig { format, players, cards: db.clone(), starting_player: Some(Seat(0)) }
}

fn refused(r: Result<Vec<Event>, RulesError>) -> String {
    r.unwrap_err().text()
}

/// Every object is in exactly one list, the one its zone names.
fn places_agree(game: &Game) {
    for (id, o) in game.objects.iter() {
        let mut places = 0;
        for p in &game.players {
            for (zone, list) in [
                (Zone::Library, &p.library),
                (Zone::Hand, &p.hand),
                (Zone::Graveyard, &p.graveyard),
                (Zone::Exile, &p.exile),
                (Zone::Battlefield, &p.battlefield),
                (Zone::Command, &p.command),
            ] {
                let n = list.iter().filter(|x| **x == id).count();
                places += n;
                assert!(n == 0 || o.zone == zone, "{id:?} is listed in {zone:?} but says {:?}", o.zone);
            }
        }
        assert!(places <= 1);
    }
}

// ----- whole games -----

#[test]
fn accepted_actions_are_counted_and_the_log_grows() {
    let db = db();
    let mut game = Game::new(config(&db, 2), 5).unwrap();
    let mut bot = RandomBot::new(9);
    for _ in 0..120 {
        let seat = match acting_seat(&game) {
            Some(s) => s,
            None => break,
        };
        let action = bot.choose_action(&game, seat).unwrap();
        let (version, played) = (game.state_version(), game.history().len());
        let log = game.log.len();
        let last = format!("{:?}", game.log.last());
        let told = game.apply(seat, &action).unwrap();
        assert_eq!(game.state_version(), version + 1);
        assert_eq!(game.history().len(), played + 1);
        assert_eq!(game.log.len(), log + told.len());
        assert_eq!(format!("{:?}", game.log[..log].last()), last);
        assert!(game.log[log..] == told[..]);
        places_agree(&game);
        assert_eq!(game.is_over().is_none(), acting_seat(&game).is_some());
    }
}

#[test]
fn a_refused_action_changes_nothing() {
    let db = db();
    let mut game = Game::new(config(&db, 2), 5).unwrap();
    let (version, log) = (game.state_version(), game.log.len());
    assert!(game.apply(Seat(0), &Action::PassPriority).is_err());
    assert_eq!((game.state_version(), game.log.len()), (version, log));
}

#[test]
fn life_changes_chain() {
    let db = db();
    let mut game = Game::new(config(&db, 2), 21).unwrap();
    play_random_game(&mut game, 4, 5000).unwrap();
    for seat in [Seat(0), Seat(1)] {
        let mut life = 20;
        for e in &game.log {
            if let EventBase::LifeChanged { seat: s, from, to } = e {
                if *s == seat {
                    assert_eq!(*from, life);
                    life = *to;
                }
            }
        }
        assert_eq!(life, game.players[seat.0 as usize].life);
    }
}

#[test]
fn who_left_stays_out_of_the_turn_order() {
    let db = db();
    let mut game = Game::new(config(&db, 4), 2).unwrap();
    game.apply(Seat(2), &Action::Concede).unwrap();
    assert_eq!(game.players[2].eliminated, Some(Elimination::Conceded));
    assert_eq!(game.turn_order, vec![Seat(0), Seat(1), Seat(3)]);
    assert_eq!(game.seating, vec![Seat(0), Seat(1), Seat(2), Seat(3)]);
    assert!(game.legal_actions(Seat(2)).is_empty());
    game.apply(Seat(0), &Action::Concede).unwrap();
    assert_eq!(game.players[2].eliminated, Some(Elimination::Conceded));
    assert_eq!(game.turn_order, vec![Seat(1), Seat(3)]);
    assert_eq!(game.opponents_of(Seat(1)), vec![Seat(3)]);
    game.apply(Seat(1), &Action::Concede).unwrap();
    assert_eq!(game.is_over(), Some(Outcome::Winner(Seat(3))));
}

#[test]
fn objects_keep_their_owners() {
    let db = db();
    let mut game = Game::new(config(&db, 2), 3).unwrap();
    let owners: Vec<(ObjectId, Seat)> = game.objects.iter().into_iter().map(|(id, o)| (id, o.owner)).collect();
    play_random_game(&mut game, 8, 5000).unwrap();
    for (id, owner) in owners {
        if let Some(o) = game.objects.get(id) {
            assert_eq!(o.owner, owner);
        }
    }
}

#[test]
fn a_history_replays_to_the_same_game() {
    let db = db();
    let mut game = Game::new(config(&db, 2), 77).unwrap();
    play_random_game(&mut game, 1, 5000).unwrap();
    let again = Game::replay(config(&db, 2), 77, game.history()).unwrap();
    assert!(again.log == game.log);
    assert_eq!(again.state_version(), game.state_version());
    assert_eq!(again.is_over(), game.is_over());
}

#[test]
fn only_who_must_act_has_actions() {
    let db = db();
    let game = Game::new(config(&db, 2), 1).unwrap();
    for seat in [Seat(0), Seat(1), Seat(7)] {
        let must = game.must_act().contains_key(seat);
        let legal = game.legal_actions(seat);
        assert_eq!(must, !legal.is_empty());
        assert!(!must || legal.last() == Some(&Action::Concede));
    }
}

#[test]
fn every_listed_action_is_accepted() {
    let db = db();
    let build = || {
        TestGame::new(db.clone(), 2)
            .battlefield(Seat(0), "Mountain")
            .battlefield(Seat(0), "Forest")
            .battlefield(Seat(0), "Forest")
            .hand(Seat(0), "Grizzly Bears")
            .hand(Seat(0), "Bolt")
            .hand(Seat(0), "Forest")
            .build()
            .unwrap()
    };
    let legal = build().legal_actions(Seat(0));
    assert!(legal.len() > 5);
    for a in &legal {
        assert!(build().apply(Seat(0), a).is_ok(), "{a:?}");
    }
}

#[test]
fn the_stack_holds_its_spells() {
    let mut game = TestGame::new(db(), 2)
        .battlefield(Seat(0), "Mountain")
        .hand(Seat(0), "Bolt")
        .build()
        .unwrap();
    let bolt = game.players[0].hand[0];
    let cast = game
        .legal_actions(Seat(0))
        .into_iter()
        .find(|a| matches!(a, Action::CastSpell { targets, .. } if targets == &vec![manaline::Target::Player(Seat(1))]))
        .unwrap();
    game.apply(Seat(0), &cast).unwrap();
    assert_eq!(game.stack.len(), 1);
    assert_eq!(game.objects.get(bolt).unwrap().zone, Zone::Stack);
    places_agree(&game);
    game.apply(Seat(0), &Action::PassPriority).unwrap();
    game.apply(Seat(1), &Action::PassPriority).unwrap();
    assert_eq!(game.players[1].life, 17);
    assert_eq!(game.players[0].graveyard, vec![bolt]);
}

#[test]
fn a_view_names_only_its_own_hand() {
    let game = Game::new(config(&db(), 2), 6).unwrap();
    let view = game.view(Seat(0));
    assert!(matches!(view.player(Seat(0)).hand, HandView::Yours(_)));
    assert!(matches!(view.player(Seat(1)).hand, HandView::Hidden { count: 7 }));
    assert!(view.object(game.players[1].hand[0]).is_none());
    assert!(view.object(game.players[0].library[0]).is_none());
    assert!(matches!(game.view_spectator().player(Seat(0)).hand, HandView::Hidden { count: 7 }));
}

#[test]
fn draws_are_told_to_the_drawer_only() {
    let game = Game::new(config(&db(), 2), 6).unwrap();
    let drawn = game.log.iter().find(|e| matches!(e, EventBase::Drew { seat: Seat(0), .. })).unwrap();
    let own = drawn.view(Some(Seat(0))).unwrap();
    let other = drawn.view(Some(Seat(1))).unwrap();
    assert!(own != other);
    assert!(other == drawn.view(None).unwrap());
    let whisper: Event = EventBase::Chat { from: Seat(0), to: Some(Seat(1)), text: "hi".to_string() };
    assert!(whisper.view(Some(Seat(0))).is_some() && whisper.view(Some(Seat(1))).is_some());
    assert!(whisper.view(Some(Seat(2))).is_none() && whisper.view(None).is_none());
}

#[test]
fn a_bot_concedes_only_when_nothing_else_is_left() {
    let db = db();
    let game = Game::new(config(&db, 2), 12).unwrap();
    for seed in 0..20 {
        let a = RandomBot::new(seed).choose_action(&game, Seat(0)).unwrap();
        assert!(a != Action::Concede);
    }
    assert!(RandomBot::new(0).choose_action(&game, Seat(9)).is_none());
}

// ----- refusals -----

#[test]
fn each_refusal_says_why() {
    let db = db();
    let mut game = TestGame::new(db.clone(), 2).battlefield(Seat(0), "Grizzly Bears").build().unwrap();
    let e = game.apply(Seat(1), &Action::PassPriority).unwrap_err();
    assert_eq!(e, RulesError::NotYourTurnToAct { seat: Seat(1) });
    assert!(e.is_retryable());
    assert_eq!(e.text(), "seat 1 does not need to act right now");
    let r = game.apply(Seat(0), &Action::PlayLand { object: ObjectId(999) });
    assert!(refused(r).starts_with("illegal action: "));
    advance_until(&mut game, |g| matches!(g.pending, Some(PendingChoice::DeclareAttackers { .. }))).unwrap();
    let bear = game.players[0].battlefield[0];
    let r = game.apply(
        Seat(0),
        &Action::DeclareAttackers { attackers: vec![(bear, AttackTarget::Planeswalker(ObjectId(4)))] },
    );
    assert!(matches!(r, Err(RulesError::Unsupported { .. })), "{r:?}");
    assert_eq!(refused(r), "unsupported in this build: attacking planeswalkers");
    game.apply(Seat(1), &Action::Concede).unwrap();
    let e = game.apply(Seat(0), &Action::PassPriority).unwrap_err();
    assert_eq!(e, RulesError::GameOver { outcome: Outcome::Winner(Seat(0)) });
    assert_eq!(e.text(), "the game is over");
    let mut alone = config(&db, 2);
    alone.players.pop();
    let e = Game::new(alone, 1).err().unwrap();
    assert!(matches!(e, RulesError::Setup { .. }));
    assert!(e.text().starts_with("cannot set up game: "), "{}", e.text());
}

#[test]
fn a_card_may_be_named_once() {
    let e = CardDb::from_ir("core", vec![(bears(), None), (bears(), None)]).err().unwrap();
    assert_eq!(e, "duplicate card name \"Grizzly Bears\"");
    let e = CardDb::from_ir("core", vec![(bears(), Some("no".to_string()))]).err().unwrap();
    assert_eq!(e, "no");
}

#[test]
fn a_payment_must_cover_its_cost() {
    let game = TestGame::new(db(), 2)
        .battlefield(Seat(0), "Mountain")
        .battlefield(Seat(0), "Forest")
        .build()
        .unwrap();
    let cost = ManaCost { generic: 1, green: 1, ..free() };
    let ways = game.enumerate_payments(Seat(0), &cost);
    assert_eq!(ways.len(), 1);
    assert!(game.payment_covers(Seat(0), &ways[0], &cost).is_ok());
    let nothing = ManaPayment { tap: vec![], from_pool: vec![], sacrifice: vec![], discard: vec![], x: 0 };
    assert!(game.payment_covers(Seat(0), &nothing, &cost).is_err());
    assert!(game.payment_covers(Seat(0), &nothing, &free()).is_ok());
    assert!(game.enumerate_payments(Seat(0), &ManaCost { generic: 3, ..free() }).is_empty());
}

// ----- formulas -----

#[test]
fn choices_are_counted() {
    let items = vec![1u32, 2, 3, 4];
    assert_eq!(
        combinations(&items, 2),
        vec![vec![1, 2], vec![1, 3], vec![1, 4], vec![2, 3], vec![2, 4], vec![3, 4]]
    );
    assert_eq!(combinations(&items, 0), vec![Vec::<u32>::new()]);
    assert!(combinations(&items, 5).is_empty());
    assert_eq!(choices_of(&items, 1, 2).len(), 10);
}

#[test]
fn costs_add_up() {
    let cost = ManaCost { generic: 2, x: 1, green: 1, ..free() };
    assert_eq!(cost.mana_value(), 3);
    assert_eq!(cost.with_x(4).mana_value(), 7);
    assert_eq!(cost.add_cost(&ManaCost::generic(2)).generic, 4);
    assert_eq!(cost.pips_of(Color::Green), 1);
    assert!(free().is_free() && !cost.is_free());
    let mut pool = ManaPool::empty();
    pool.add(Mana::Colored(Color::Green), 2);
    pool.add(Mana::Colorless, 1);
    assert_eq!((pool.total(), pool.units().len()), (3, 3));
    pool.clear();
    assert!(pool.is_empty());
}

#[test]
fn numbers_are_written_out() {
    assert_eq!(nat_text(0), "0");
    assert_eq!(nat_text(18446744073709551615), "18446744073709551615");
    assert_eq!(int_text(-20), "-20");
    assert_eq!((sign_text(3), sign_text(-3), sign_text(0)), ("+3".to_string(), "-3".to_string(), "+0".to_string()));
    assert_eq!(join(&vec!["a".to_string(), "b".to_string()], ", "), "a, b");
}

#[test]
fn turns_go_round_the_table() {
    let game = Game::new(config(&db(), 3), 4).unwrap();
    assert_eq!(game.next_in_turn_order_after(Seat(0)), Some(Seat(1)));
    assert_eq!(game.next_in_turn_order_after(Seat(2)), Some(Seat(0)));
    assert_eq!(game.apnap(), vec![Seat(0), Seat(1), Seat(2)]);
}

// ----- text -----

#[test]
fn names_are_looked_up_as_people_write_them() {
    let db = db();
    let id = db.lookup("Grizzly Bears");
    assert!(id.is_some());
    assert_eq!(db.lookup("  grizzly BEARS "), id);
    assert_eq!(db.lookup("grizzly"), None);
    assert!(same_fold("Elf", "eLF") && !same_fold("Elf", "Elk"));
}

#[test]
fn words_are_capitalised_and_quoted() {
    assert_eq!(capitalize("creature"), "Creature");
    assert_eq!(capitalize(""), "");
    assert_eq!(capitalize("ßa"), "SSa");
    assert_eq!(CardPool::Builtin("a\"b".to_string()).text(), "Builtin(\"a\\\"b\")");
    assert_eq!(CardPool::Sets(vec!["lea".to_string(), "m10".to_string()]).text(), "Sets([\"lea\", \"m10\"])");
}

// ----- chance -----

#[test]
fn chance_is_a_function_of_the_seed() {
    let mut a = Dice::new(7);
    let mut b = Dice::new(7);
    let rolls: Vec<u64> = (0..50).map(|_| a.roll(6)).collect();
    assert!(rolls.iter().all(|k| *k < 6));
    assert!((0..6).all(|k| rolls.contains(&k)));
    assert_eq!(rolls, (0..50).map(|_| b.roll(6)).collect::<Vec<u64>>());
    assert_eq!(a, b);
    let ids: Vec<ObjectId> = (0..40).map(ObjectId).collect();
    let mixed = a.shuffle(&ids);
    assert!(mixed != ids);
    let mut sorted: Vec<u32> = mixed.iter().map(|x| x.0).collect();
    sorted.sort();
    assert_eq!(sorted, (0..40).collect::<Vec<u32>>());
    assert!(a.shuffle(&ids) != mixed);
    let items = vec![3u32, 5, 8];
    let picks: Vec<u32> = (0..30).map(|_| b.pick(&items).unwrap()).collect();
    assert!(items.iter().all(|x| picks.contains(x)));
    assert_eq!(b.pick(&vec![]), None);
}

#[test]
fn the_stream_goes_on_where_it_stopped() {
    use_the_same_stream(1);
    use_the_same_stream(42);
}

fn use_the_same_stream(seed: u64) {
    let mut rng = <rand_chacha::ChaCha8Rng as rand::SeedableRng>::seed_from_u64(seed);
    let mut dice = Dice::new(seed);
    for n in [2u64, 6, 20, 3, 1000, 7] {
        assert_eq!(dice.roll(n), rand::Rng::gen_range(&mut rng, 0..n));
        let ids: Vec<ObjectId> = (0..9).map(ObjectId).collect();
        let mut raw: Vec<u32> = (0..9).collect();
        rand::seq::SliceRandom::shuffle(&mut raw[..], &mut rng);
        assert_eq!(dice.shuffle(&ids).iter().map(|x| x.0).collect::<Vec<u32>>(), raw);
        assert_eq!(dice.pick(&raw), rand::seq::SliceRandom::choose(&raw[..], &mut rng).copied());
    }
}
