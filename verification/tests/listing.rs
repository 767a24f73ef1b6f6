//! What is listed and what is asked: caps, costs that get in each other's
//! way, questions that lapse, and long lines of statics.
use manaline::combos::combinations;
use manaline::ir::{Ability, Amount, Card, Cost, Effect, Filter, Mode, ModeChoice, PlayerRef, Spell, Static};
use manaline::testing::{advance_until, TestGame};
use manaline::tools::{deck_report, CheckedCard};
use manaline::{Action, ActReason, AttackTarget, CardDb, CardType, Color, DamageTarget, Game, Keyword, ManaCost, ObjectId, PendingChoice, Seat, Zone};
use std::sync::Arc;

fn free() -> ManaCost {
    ManaCost { generic: 0, x: 0, white: 0, blue: 0, black: 0, red: 0, green: 0 }
}

fn green(n: u32) -> ManaCost {
    ManaCost { green: n, ..free() }
}

fn ability(cost: Vec<Cost>, effects: Vec<Effect>) -> Ability {
    Ability {
        cost,
        targets: vec![],
        effects: Arc::new(effects),
        sorcery_speed: false,
        from_graveyard: false,
        text: "ability".to_string(),
    }
}

fn taps_for(n: i32) -> Ability {
    ability(vec![Cost::Tap], vec![Effect::AddMana { color: Some(Color::Green), amount: Amount::Const(n) }])
}

fn gain() -> Vec<Effect> {
    vec![Effect::GainLife { player: PlayerRef::You, amount: Amount::Const(1) }]
}

fn creature(name: &str, pt: (i32, i32)) -> Card {
    let mut c = Card::blank(name, green(1), vec![CardType::Creature]);
    c.pt = Some(pt);
    c
}

fn artifact(name: &str, cost: Vec<Cost>) -> Card {
    let mut c = Card::blank(name, free(), vec![CardType::Artifact]);
    c.activated = vec![ability(cost, gain())];
    c
}

const LINE: [Keyword; 12] = [
    Keyword::Flying,
    Keyword::Reach,
    Keyword::FirstStrike,
    Keyword::Deathtouch,
    Keyword::Lifelink,
    Keyword::Trample,
    Keyword::Vigilance,
    Keyword::Haste,
    Keyword::Menace,
    Keyword::Hexproof,
    Keyword::Defender,
    Keyword::Prowess,
];

fn db() -> Arc<CardDb> {
    let mut forest = Card::blank("Forest", free(), vec![CardType::Land]);
    forest.activated = vec![taps_for(1)];
    let mut grove = Card::blank("Grove", free(), vec![CardType::Land]);
    grove.activated = vec![taps_for(3)];
    let mut elf = creature("Elf", (1, 1));
    elf.activated = vec![taps_for(1)];
    let mut fork = Card::blank("Fork", free(), vec![CardType::Instant]);
    fork.spell = Some(Spell {
        targets: vec![Filter::Creature, Filter::Creature],
        effects: Arc::new(gain()),
        modes: vec![],
        choice: ModeChoice::One,
    });
    let mut charm = Card::blank("Charm", free(), vec![CardType::Instant]);
    charm.spell = Some(Spell {
        targets: vec![],
        effects: Arc::new(vec![]),
        modes: vec![
            Mode { targets: vec![], effects: Arc::new(gain()), text: "Gain".to_string() },
            Mode { targets: vec![], effects: Arc::new(vec![]), text: "Nothing".to_string() },
        ],
        choice: ModeChoice::One,
    });
    let mut bird = creature("Bird", (1, 1));
    bird.keywords = vec![LINE[0]];
    let mut cards = vec![
        forest,
        grove,
        elf,
        fork,
        charm,
        bird,
        creature("Bear", (2, 2)),
        creature("Giant", (5, 5)),
        artifact("Altar", vec![Cost::Sacrifice(Filter::Creature), Cost::Mana(green(1))]),
        artifact("Pyre", vec![Cost::Mana(green(1)), Cost::Sacrifice(Filter::Creature)]),
        artifact("Chalice", vec![Cost::PayLife(3), Cost::PayLife(3)]),
        artifact("Lamp", vec![Cost::Tap, Cost::Mana(green(1))]),
    ];
    for i in 1..LINE.len() {
        let mut c = Card::blank(&format!("Banner {i}"), free(), vec![CardType::Enchantment]);
        c.statics = vec![Static::GrantKeyword { filter: Filter::HasKeyword(LINE[i - 1]), keyword: LINE[i] }];
        cards.push(c);
    }
    Arc::new(CardDb::from_ir("core", cards.into_iter().map(|c| (c, None)).collect()).unwrap())
}

fn activations(game: &Game, object: ObjectId) -> Vec<Action> {
    game.legal_actions(Seat(0))
        .into_iter()
        .filter(|a| matches!(a, Action::ActivateAbility { object: o, .. } if *o == object))
        .collect()
}

fn named(game: &Game, name: &str) -> ObjectId {
    let found: Vec<ObjectId> =
        game.objects.iter().into_iter().map(|(id, _)| id).filter(|id| game.object_name(*id) == name).collect();
    found[0]
}

#[test]
fn combinations_of_targets_are_capped() {
    let mut t = TestGame::new(db(), 2).hand(Seat(0), "Fork");
    for _ in 0..30 {
        t = t.battlefield(Seat(0), "Bear");
    }
    let game = t.build().unwrap();
    let mut casts: Vec<String> = game
        .legal_actions(Seat(0))
        .iter()
        .filter(|a| matches!(a, Action::CastSpell { .. }))
        .map(|a| format!("{a:?}"))
        .collect();
    assert_eq!(casts.len(), 256);
    casts.sort();
    casts.dedup();
    assert_eq!(casts.len(), 256);
}

#[test]
fn a_payment_that_defeats_itself_is_not_listed() {
    let build = |lands: usize, pyre: &str| {
        let mut t = TestGame::new(db(), 2).battlefield(Seat(0), pyre).battlefield(Seat(0), "Elf");
        for _ in 0..lands {
            t = t.battlefield(Seat(0), "Forest");
        }
        t.build().unwrap()
    };
    // The creature to sacrifice is the only source of mana.
    let game = build(0, "Altar");
    assert!(activations(&game, named(&game, "Altar")).is_empty());
    let game = build(1, "Altar");
    let listed = activations(&game, named(&game, "Altar"));
    assert_eq!(listed.len(), 1);
    let forest = game.players[0].battlefield[2];
    assert_eq!(game.object_name(forest), "Forest");
    assert!(matches!(&listed[0], Action::ActivateAbility { payment, .. } if payment.tap == vec![forest]));
    assert!(build(1, "Altar").apply(Seat(0), &listed[0]).is_ok());
    // Tapped for mana first, it can be sacrificed after.
    let game = build(0, "Pyre");
    let listed = activations(&game, named(&game, "Pyre"));
    assert_eq!(listed.len(), 1);
    let mut game = build(0, "Pyre");
    game.apply(Seat(0), &listed[0]).unwrap();
    assert_eq!(game.objects.get(named(&game, "Elf")).unwrap().zone, Zone::Graveyard);
    // The source taps for its own cost, and something else for the mana.
    let game = build(1, "Lamp");
    let listed = activations(&game, named(&game, "Lamp"));
    assert!(!listed.is_empty());
    for a in &listed {
        assert!(build(1, "Lamp").apply(Seat(0), a).is_ok());
    }
}

#[test]
fn life_is_paid_only_where_there_is_enough_for_all_of_it() {
    let build = |life: i32| TestGame::new(db(), 2).battlefield(Seat(0), "Chalice").life(Seat(0), life).build().unwrap();
    let game = build(4);
    assert!(activations(&game, named(&game, "Chalice")).is_empty());
    let mut game = build(7);
    let listed = activations(&game, named(&game, "Chalice"));
    assert_eq!(listed.len(), 1);
    game.apply(Seat(0), &listed[0]).unwrap();
    assert_eq!(game.players[0].life, 1);
}

#[test]
fn a_division_lapses_when_its_blockers_leave() {
    let mut game = TestGame::new(db(), 3)
        .battlefield(Seat(0), "Giant")
        .battlefield(Seat(1), "Bear")
        .battlefield(Seat(1), "Bear")
        .build()
        .unwrap();
    advance_until(&mut game, |g| matches!(g.pending, Some(PendingChoice::DeclareAttackers { .. }))).unwrap();
    let giant = named(&game, "Giant");
    let bears: Vec<ObjectId> = game.players[1].battlefield.clone();
    let attackers = vec![(giant, AttackTarget::Player(Seat(1)))];
    game.apply(Seat(0), &Action::DeclareAttackers { attackers }).unwrap();
    advance_until(&mut game, |g| matches!(g.pending, Some(PendingChoice::DeclareBlockers { .. }))).unwrap();
    let blocks = vec![(bears[0], giant), (bears[1], giant)];
    game.apply(Seat(1), &Action::DeclareBlockers { blocks }).unwrap();
    advance_until(&mut game, |g| matches!(g.pending, Some(PendingChoice::AssignDamage { .. }))).unwrap();
    assert_eq!(game.must_act().get(Seat(0)), Some(ActReason::AssignDamage));
    assert_eq!(game.live_blockers(giant), bears);
    game.apply(Seat(1), &Action::Concede).unwrap();
    assert!(game.live_blockers(giant).is_empty());
    assert!(game.pending.is_none());
    assert_eq!(game.must_act().get(Seat(0)), Some(ActReason::Priority));
    for a in game.legal_actions(Seat(0)) {
        let mut copy = game.clone();
        assert!(copy.apply(Seat(0), &a).is_ok(), "{a:?}");
    }
}

#[test]
fn keywords_are_granted_down_a_long_line() {
    let mut t = TestGame::new(db(), 2).battlefield(Seat(0), "Bird").battlefield(Seat(0), "Bear");
    for i in 1..LINE.len() {
        t = t.battlefield(Seat(1), &format!("Banner {i}"));
    }
    let game = t.build().unwrap();
    let bird = named(&game, "Bird");
    for k in LINE {
        assert!(game.has_keyword(bird, k), "{k:?}");
        assert!(!game.has_keyword(named(&game, "Bear"), k), "{k:?}");
    }
    assert!(!game.has_keyword(bird, Keyword::DoubleStrike));
}

#[test]
fn surplus_mana_goes_back_to_the_pool() {
    let mut game = TestGame::new(db(), 2).battlefield(Seat(0), "Grove").hand(Seat(0), "Bear").build().unwrap();
    let cast = game
        .legal_actions(Seat(0))
        .into_iter()
        .find(|a| matches!(a, Action::CastSpell { .. }))
        .unwrap();
    game.apply(Seat(0), &cast).unwrap();
    assert_eq!(game.players[0].mana_pool.green, 2);
    assert!(game.objects.get(named(&game, "Grove")).unwrap().tapped);
}

#[test]
fn white_space_and_case_do_not_matter_to_a_lookup() {
    let db = db();
    let bear = db.lookup("Bear");
    assert!(bear.is_some());
    for name in ["  bear", "BEAR\t\n", "\u{3000}Bear\u{a0}", "\u{2028}bEAR\u{85} "] {
        assert_eq!(db.lookup(name), bear, "{name:?}");
    }
    assert_eq!(db.lookup("B ear"), None);
    assert_eq!(db.lookup("\u{200b}Bear"), None);
}

#[test]
fn a_deck_report_ends_with_what_is_wrong() {
    let card = |count: u32, name: &str, problem: &str| CheckedCard {
        count,
        name: name.to_string(),
        problem: problem.to_string(),
    };
    let cards = vec![card(4, "Bear", ""), card(2, "Ghost", "unknown card")];
    assert_eq!(deck_report("60 cards\n", true, &vec![], &cards), "60 cards\n\nlegal in this format\n");
    assert_eq!(
        deck_report("6 cards\n", false, &vec!["too few cards".to_string()], &cards),
        "6 cards\n\nproblems:\n  - too few cards\n  - 2 Ghost: unknown card\n"
    );
}

#[test]
fn a_view_ignores_what_it_cannot_show() {
    let deal = |theirs: [&str; 2], mine: &Vec<&str>, yours: &Vec<&str>| {
        TestGame::new(db(), 2)
            .battlefield(Seat(0), "Forest")
            .battlefield(Seat(1), "Bear")
            .hand(Seat(0), "Elf")
            .hand(Seat(1), theirs[0])
            .hand(Seat(1), theirs[1])
            .library(Seat(0), mine)
            .library(Seat(1), yours)
            .build()
            .unwrap()
    };
    let a = deal(["Giant", "Fork"], &vec!["Bear", "Elf", "Giant"], &vec!["Lamp", "Pyre"]);
    let b = deal(["Altar", "Bird"], &vec!["Giant", "Bear", "Elf"], &vec!["Bear", "Grove"]);
    assert_eq!(a.view(Seat(0)), b.view(Seat(0)));
    assert_eq!(a.view_spectator(), b.view_spectator());
    assert_ne!(a.view(Seat(1)), b.view(Seat(1)));
    assert!(a.view(Seat(0)).objects.iter().any(|o| o.name == "Elf" && o.castable));
    assert!(!a.view(Seat(0)).objects.iter().any(|o| o.name == "Giant"));
    let c = deal(["Giant", "Fork"], &vec!["Bear", "Elf"], &vec!["Lamp", "Pyre"]);
    assert_ne!(a.view(Seat(0)), c.view(Seat(0)));
}

#[test]
fn a_blocker_declared_twice_is_live_twice() {
    let mut game =
        TestGame::new(db(), 2).battlefield(Seat(0), "Giant").battlefield(Seat(1), "Bear").build().unwrap();
    advance_until(&mut game, |g| matches!(g.pending, Some(PendingChoice::DeclareAttackers { .. }))).unwrap();
    let giant = named(&game, "Giant");
    let bear = named(&game, "Bear");
    let attackers = vec![(giant, AttackTarget::Player(Seat(1)))];
    game.apply(Seat(0), &Action::DeclareAttackers { attackers }).unwrap();
    advance_until(&mut game, |g| matches!(g.pending, Some(PendingChoice::DeclareBlockers { .. }))).unwrap();
    game.apply(Seat(1), &Action::DeclareBlockers { blocks: vec![(bear, giant)] }).unwrap();
    assert_eq!(game.live_blockers(giant), vec![bear]);
    game.objects.get_mut(giant).unwrap().blocked_by.push(bear);
    assert_eq!(game.live_blockers(giant), vec![bear, bear]);
    // Two entries call for a division; it names the one creature once.
    advance_until(&mut game, |g| matches!(g.pending, Some(PendingChoice::AssignDamage { .. }))).unwrap();
    let listed = game.legal_actions(Seat(0));
    let all = Action::AssignCombatDamage { attacker: giant, assignments: vec![(DamageTarget::Object(bear), 5)] };
    assert_eq!(listed, vec![all, Action::Concede]);
    for a in &listed {
        assert!(game.clone().apply(Seat(0), a).is_ok());
    }
}

#[test]
fn a_cast_goes_on_the_stack_from_wherever_the_card_is() {
    let mut game = TestGame::new(db(), 2).hand(Seat(0), "Charm").build().unwrap();
    let charm = named(&game, "Charm");
    let cast = game
        .legal_actions(Seat(0))
        .into_iter()
        .find(|a| matches!(a, Action::CastSpell { object, .. } if *object == charm))
        .unwrap();
    game.apply(Seat(0), &cast).unwrap();
    assert!(matches!(game.pending, Some(PendingChoice::Casting { object, .. }) if object == charm));
    assert_eq!(game.objects.get(charm).unwrap().zone, Zone::Hand);
    let mut moved = game.clone();
    game.apply(Seat(0), &Action::ChooseMode { mode: 0 }).unwrap();
    assert_eq!(game.objects.get(charm).unwrap().zone, Zone::Stack);
    assert!(game.players[0].hand.is_empty());
    moved.objects.get_mut(charm).unwrap().zone = Zone::Graveyard;
    moved.players[0].hand.clear();
    moved.players[0].graveyard.push(charm);
    moved.apply(Seat(0), &Action::ChooseMode { mode: 0 }).unwrap();
    assert_eq!(moved.objects.get(charm).unwrap().zone, Zone::Stack);
    assert_eq!(moved.stack.len(), 1);
    assert_eq!(moved.stack[0].object, charm);
    assert!(moved.players[0].graveyard.is_empty());
}

#[test]
fn conceding_is_listed_once_and_last() {
    let game = TestGame::new(db(), 2)
        .battlefield(Seat(0), "Forest")
        .battlefield(Seat(0), "Pyre")
        .hand(Seat(0), "Elf")
        .hand(Seat(0), "Charm")
        .build()
        .unwrap();
    let listed = game.legal_actions(Seat(0));
    assert!(listed.len() > 3);
    assert_eq!(listed.iter().filter(|a| matches!(a, Action::Concede)).count(), 1);
    assert_eq!(listed[listed.len() - 1], Action::Concede);
}

#[test]
fn no_combination_of_positions_comes_twice() {
    let mut all = combinations(&vec![0, 1, 2, 3, 4], 3);
    assert_eq!(all.len(), 10);
    assert_eq!(all[0], vec![0, 1, 2]);
    assert_eq!(all[9], vec![2, 3, 4]);
    all.dedup();
    assert_eq!(all.len(), 10);
    // Equal items at different positions are different choices.
    assert_eq!(combinations(&vec![7, 7, 7], 2), vec![vec![7, 7], vec![7, 7], vec![7, 7]]);
}
