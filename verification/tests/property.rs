//! Random games at 2, 3, and 4 seats, invariants checked after every action,
//! and every finished game replayed from its seed and action log.
use manaline::bot::RandomBot;
use manaline::ir::{
    Ability, Amount, Card, Condition, Cost, Duration, Effect, EventPattern, Filter, ModeChoice, PlayerRef, Ref, Spell,
    Static, TokenSpec, Trigger,
};
use manaline::types::Supertype;
use manaline::view::HandView;
use manaline::{
    CardDb, CardId, CardType, Color, Format, Game, GameConfig, GameObject, Keyword, ManaCost, ObjectId, PlayerSetup, Seat, Zone,
};
use std::collections::{BTreeMap, HashMap};
use std::sync::Arc;

// ----- the card pool -----

/// A mana cost written in braces.
fn mana(text: &str) -> ManaCost {
    let mut c = ManaCost { generic: 0, x: 0, white: 0, blue: 0, black: 0, red: 0, green: 0 };
    for part in text.split('}').filter(|p| !p.is_empty()) {
        match &part[1..] {
            "X" => c.x += 1,
            "W" => c.white += 1,
            "U" => c.blue += 1,
            "B" => c.black += 1,
            "R" => c.red += 1,
            "G" => c.green += 1,
            n => c.generic += n.parse::<u32>().unwrap(),
        }
    }
    c
}

fn land(name: &str, color: Color) -> Card {
    let mut c = Card::blank(name, mana(""), vec![CardType::Land]);
    c.supertypes = vec![Supertype::Basic];
    c.subtypes = vec![name.to_string()];
    c.activated = vec![tap_for(color, Amount::Const(1))];
    c
}

fn tap_for(color: Color, amount: Amount) -> Ability {
    Ability {
        cost: vec![Cost::Tap],
        targets: vec![],
        effects: Arc::new(vec![Effect::AddMana { color: Some(color), amount }]),
        sorcery_speed: false,
        from_graveyard: false,
        text: "{T}: Add mana.".to_string(),
    }
}

fn creature(name: &str, cost: &str, kind: &str, pt: (i32, i32), keywords: &[Keyword]) -> Card {
    let mut c = Card::blank(name, mana(cost), vec![CardType::Creature]);
    c.subtypes = vec![kind.to_string()];
    c.pt = Some(pt);
    c.keywords = keywords.to_vec();
    c
}

fn one_shot(name: &str, cost: &str, kind: CardType, targets: Vec<Filter>, effects: Vec<Effect>) -> Card {
    let mut c = Card::blank(name, mana(cost), vec![kind]);
    c.spell = Some(Spell { targets, effects: Arc::new(effects), modes: vec![], choice: ModeChoice::One });
    c
}

fn instant(name: &str, cost: &str, targets: Vec<Filter>, effects: Vec<Effect>) -> Card {
    one_shot(name, cost, CardType::Instant, targets, effects)
}

fn sorcery(name: &str, cost: &str, targets: Vec<Filter>, effects: Vec<Effect>) -> Card {
    one_shot(name, cost, CardType::Sorcery, targets, effects)
}

fn ability(cost: Vec<Cost>, targets: Vec<Filter>, effects: Vec<Effect>, text: &str) -> Ability {
    Ability {
        cost,
        targets,
        effects: Arc::new(effects),
        sorcery_speed: false,
        from_graveyard: false,
        text: text.to_string(),
    }
}

fn trigger(event: EventPattern, condition: Option<Condition>, targets: Vec<Filter>, effects: Vec<Effect>, text: &str) -> Trigger {
    Trigger { event, condition, targets, effects: Arc::new(effects), text: text.to_string() }
}

fn pump(target: Ref, n: (i32, i32), until: Duration) -> Effect {
    Effect::ModifyPt {
        target,
        power: Amount::Const(n.0),
        toughness: Amount::Const(n.1),
        keywords: Arc::new(vec![]),
        until,
    }
}

fn damage(n: i32) -> Vec<Effect> {
    vec![Effect::DealDamage { amount: Amount::Const(n), to: Ref::Target(0) }]
}

fn boost(filter: Filter, n: (i32, i32)) -> Static {
    Static::PtBoost {
        filter,
        power: Amount::Const(n.0),
        toughness: Amount::Const(n.1),
        keywords: Arc::new(vec![]),
    }
}

fn your(kind: &str) -> Filter {
    Filter::and(vec![Filter::Creature, Filter::Subtype(kind.to_string()), Filter::ControlledBy(PlayerRef::You)])
}

fn other_your(kind: &str) -> Filter {
    Filter::and(vec![
        Filter::Creature,
        Filter::Other,
        Filter::Subtype(kind.to_string()),
        Filter::ControlledBy(PlayerRef::You),
    ])
}

fn core_cards() -> Vec<Card> {
    let mut all = vec![
        land("Plains", Color::White),
        land("Island", Color::Blue),
        land("Swamp", Color::Black),
        land("Mountain", Color::Red),
        land("Forest", Color::Green),
        creature("Grizzly Bears", "{1}{G}", "Bear", (2, 2), &[]),
        creature("Centaur Courser", "{2}{G}", "Centaur", (3, 3), &[]),
        creature("Craw Wurm", "{4}{G}{G}", "Wurm", (6, 4), &[]),
        creature("Hill Giant", "{3}{R}", "Giant", (3, 3), &[]),
        creature("Suntail Hawk", "{W}", "Bird", (1, 1), &[Keyword::Flying]),
        creature("Bloodfire Expert", "{2}{R}", "Efreet", (3, 1), &[Keyword::Prowess]),
        creature("Goblin Piker", "{1}{R}", "Goblin", (2, 1), &[]),
        creature("Wind Drake", "{2}{U}", "Drake", (2, 2), &[Keyword::Flying]),
        creature("Wall of Vines", "{G}", "Wall", (0, 3), &[Keyword::Defender, Keyword::Reach]),
        creature("Youthful Knight", "{1}{W}", "Knight", (2, 1), &[Keyword::FirstStrike]),
        creature("Typhoid Rats", "{B}", "Rat", (1, 1), &[Keyword::Deathtouch]),
        creature("Child of Night", "{1}{B}", "Vampire", (2, 1), &[Keyword::Lifelink]),
        creature("Colossal Dreadmaw", "{4}{G}{G}", "Dinosaur", (6, 6), &[Keyword::Trample]),
        creature("Serra Angel", "{3}{W}{W}", "Angel", (4, 4), &[Keyword::Flying, Keyword::Vigilance]),
        creature("Raging Goblin", "{R}", "Goblin", (1, 1), &[Keyword::Haste]),
        instant("Lightning Strike", "{1}{R}", vec![Filter::Any], damage(3)),
        instant("Shock", "{R}", vec![Filter::Any], damage(2)),
        sorcery("Flame Slash", "{R}", vec![Filter::Creature], damage(4)),
        instant("Giant Growth", "{G}", vec![Filter::Creature], vec![pump(Ref::Target(0), (3, 3), Duration::EndOfTurn)]),
        instant("Counterspell", "{U}{U}", vec![Filter::Spell], vec![Effect::CounterSpell { target: Ref::Target(0) }]),
        instant(
            "Negate",
            "{1}{U}",
            vec![Filter::and(vec![Filter::Spell, Filter::not(Filter::Creature)])],
            vec![Effect::CounterSpell { target: Ref::Target(0) }],
        ),
        instant("Unsummon", "{U}", vec![Filter::Creature], vec![Effect::ReturnToHand { target: Ref::Target(0) }]),
        instant("Dark Ritual", "{B}", vec![], vec![Effect::AddMana { color: Some(Color::Black), amount: Amount::Const(3) }]),
        instant("Murder", "{1}{B}{B}", vec![Filter::Creature], vec![Effect::Destroy { target: Ref::Target(0) }]),
        sorcery(
            "Cruel Edict",
            "{1}{B}",
            vec![Filter::Opponent],
            vec![Effect::Sacrifice {
                player: PlayerRef::TargetOpponent(0),
                filter: Filter::Creature,
                count: Amount::Const(1),
            }],
        ),
        sorcery(
            "Mind Rot",
            "{2}{B}",
            vec![Filter::Player],
            vec![Effect::Discard { player: PlayerRef::TargetPlayer(0), count: Amount::Const(2), random: false }],
        ),
        instant(
            "Raise the Alarm",
            "{1}{W}",
            vec![],
            vec![Effect::CreateToken {
                spec: Arc::new(TokenSpec {
                    name: "Soldier".to_string(),
                    types: vec![CardType::Creature],
                    subtypes: vec!["Soldier".to_string()],
                    pt: Some((1, 1)),
                    keywords: vec![],
                    colors: vec![Color::White],
                }),
                count: Amount::Const(2),
            }],
        ),
        sorcery(
            "Overrun",
            "{2}{G}{G}{G}",
            vec![],
            vec![Effect::ModifyPt {
                target: Ref::Each(Arc::new(Filter::and(vec![Filter::Creature, Filter::ControlledBy(PlayerRef::You)]))),
                power: Amount::Const(3),
                toughness: Amount::Const(3),
                keywords: Arc::new(vec![Keyword::Trample]),
                until: Duration::EndOfTurn,
            }],
        ),
    ];
    for name in ["Llanowar Elves", "Elvish Mystic"] {
        let mut c = creature(name, "{G}", "Elf", (1, 1), &[]);
        c.activated = vec![tap_for(Color::Green, Amount::Const(1))];
        all.push(c);
    }
    let mut c = creature("Elvish Archdruid", "{1}{G}{G}", "Elf", (2, 2), &[]);
    c.statics = vec![boost(other_your("Elf"), (1, 1))];
    c.activated = vec![tap_for(Color::Green, Amount::Count(your("Elf")))];
    all.push(c);
    let mut c = creature("Elvish Visionary", "{1}{G}", "Elf", (1, 1), &[]);
    c.triggers = vec![trigger(
        EventPattern::ThisEnters,
        None,
        vec![],
        vec![Effect::Draw { player: PlayerRef::You, count: Amount::Const(1) }],
        "When this creature enters, draw a card.",
    )];
    all.push(c);
    let mut c = creature("Man-o'-War", "{2}{U}", "Jellyfish", (2, 2), &[]);
    c.triggers = vec![trigger(
        EventPattern::ThisEnters,
        None,
        vec![Filter::Creature],
        vec![Effect::ReturnToHand { target: Ref::Target(0) }],
        "When this creature enters, return target creature to its owner's hand.",
    )];
    all.push(c);
    let mut c = creature("Festering Goblin", "{B}", "Goblin", (1, 1), &[]);
    c.triggers = vec![trigger(
        EventPattern::ThisDies,
        None,
        vec![Filter::Creature],
        vec![pump(Ref::Target(0), (-1, -1), Duration::EndOfTurn)],
        "When this creature dies, target creature gets -1/-1 until end of turn.",
    )];
    all.push(c);
    let mut c = creature("Prodigal Pyromancer", "{2}{R}", "Wizard", (1, 1), &[]);
    c.activated = vec![ability(vec![Cost::Tap], vec![Filter::Any], damage(1), "{T}: ~ deals 1 damage to any target.")];
    all.push(c);
    let mut c = creature("Furnace Whelp", "{2}{R}{R}", "Dragon", (2, 2), &[Keyword::Flying]);
    c.activated = vec![ability(
        vec![Cost::Mana(mana("{R}"))],
        vec![],
        vec![pump(Ref::This, (1, 0), Duration::EndOfTurn)],
        "{R}: ~ gets +1/+0 until end of turn.",
    )];
    all.push(c);
    let mut c = creature("Goblin Chieftain", "{1}{R}{R}", "Goblin", (2, 2), &[Keyword::Haste]);
    c.statics = vec![
        boost(other_your("Goblin"), (1, 1)),
        Static::GrantKeyword { filter: other_your("Goblin"), keyword: Keyword::Haste },
    ];
    all.push(c);
    let mut c = Card::blank("Holy Strength", mana("{W}"), vec![CardType::Enchantment]);
    c.subtypes = vec!["Aura".to_string()];
    c.enchant = Some(Filter::Creature);
    c.statics = vec![boost(Filter::Attached, (1, 2))];
    all.push(c);
    let mut c = Card::blank("Bonesplitter", mana("{1}"), vec![CardType::Artifact]);
    c.subtypes = vec!["Equipment".to_string()];
    c.equip = Some(mana("{1}"));
    c.statics = vec![boost(Filter::Attached, (2, 0))];
    all.push(c);
    all
}

fn database(cards: Vec<Card>) -> Arc<CardDb> {
    let mut written: Vec<(Card, Option<String>)> = Vec::new();
    for c in cards {
        written.push((c, None));
    }
    Arc::new(CardDb::from_ir("core", written).unwrap())
}

fn db() -> Arc<CardDb> {
    database(core_cards())
}

/// Forty cards: lands first, then as many copies of each spell.
fn deck(db: &CardDb, basic: &str, lands: usize, spells: &[&str]) -> Vec<CardId> {
    let mut ids = vec![db.lookup(basic).unwrap(); lands];
    let mut i = 0;
    while ids.len() < 40 {
        ids.push(db.lookup(spells[i % spells.len()]).unwrap());
        i += 1;
    }
    ids
}

fn named_deck(db: &CardDb, name: &str) -> Vec<CardId> {
    match name {
        "green" => deck(
            db,
            "Forest",
            16,
            &["Grizzly Bears", "Centaur Courser", "Craw Wurm", "Giant Growth", "Llanowar Elves", "Elvish Visionary", "Elvish Archdruid", "Overrun"],
        ),
        "red" => deck(
            db,
            "Mountain",
            16,
            &["Hill Giant", "Lightning Strike", "Shock", "Goblin Piker", "Raging Goblin", "Prodigal Pyromancer", "Goblin Chieftain", "Bloodfire Expert", "Furnace Whelp"],
        ),
        "blue" => deck(db, "Island", 16, &["Wind Drake", "Man-o'-War", "Counterspell", "Unsummon", "Negate", "Bonesplitter"]),
        "white" => deck(
            db,
            "Plains",
            16,
            &["Suntail Hawk", "Youthful Knight", "Serra Angel", "Raise the Alarm", "Holy Strength", "Bonesplitter"],
        ),
        other => panic!("no {other} deck"),
    }
}

fn obj(game: &Game, id: ObjectId) -> &GameObject {
    game.objects.get(id).unwrap()
}

const MAX_ACTIONS: usize = 20_000;

const TEST_DECKS: [&str; 4] = ["green", "red", "blue", "white"];

fn config(db: &Arc<CardDb>, seats: usize) -> GameConfig {
    let format = if seats == 2 {
        Format::cube()
    } else {
        Format::builtin("free-for-all").unwrap()
    };
    let players = (0..seats)
        .map(|i| {
            let name = TEST_DECKS[i % TEST_DECKS.len()];
            PlayerSetup {
                name: format!("Bot{i}"),
                deck: named_deck(db, name),
            }
        })
        .collect();
    GameConfig {
        format,
        players,
        cards: db.clone(),
        starting_player: None,
    }
}

struct LifeTracker {
    life: Vec<i32>,
}

impl LifeTracker {
    fn check(&mut self, events: &[manaline::Event]) {
        for e in events {
            if let manaline::EventBase::LifeChanged { seat, from, to } = e {
                assert_eq!(self.life[seat.index()], *from, "life change does not chain from the previous value");
                self.life[seat.index()] = *to;
            }
        }
    }
}

fn check_invariants(game: &Game, seats: usize) {
    let must = game.must_act();
    if game.is_over().is_some() {
        assert!(must.is_empty(), "must_act must be empty once the game is over");
        for s in 0..seats {
            assert!(game.legal_actions(Seat(s as u8)).is_empty());
        }
    } else {
        assert!(
            !must.is_empty(),
            "must_act is empty while the game is not over (turn {}, {:?})",
            game.turn,
            game.phase
        );
        for s in 0..seats {
            let seat = Seat(s as u8);
            let acts = game.legal_actions(seat);
            if must.contains_key(seat) {
                assert!(!acts.is_empty(), "{seat:?} is in must_act but has no legal action");
            } else {
                assert!(acts.is_empty(), "{seat:?} is not in must_act but has legal actions: {acts:?}");
            }
        }
    }

    // Every object is in exactly one zone list, and its zone field agrees.
    let mut seen: HashMap<ObjectId, Zone> = HashMap::new();
    for (i, p) in game.players.iter().enumerate() {
        let lists = [
            (Zone::Library, &p.library),
            (Zone::Hand, &p.hand),
            (Zone::Graveyard, &p.graveyard),
            (Zone::Exile, &p.exile),
            (Zone::Battlefield, &p.battlefield),
            (Zone::Command, &p.command),
        ];
        for (zone, list) in lists {
            for &id in list {
                assert!(seen.insert(id, zone).is_none(), "{id:?} appears in two zones");
                let obj = obj(game, id);
                assert_eq!(obj.zone, zone, "{id:?} zone field disagrees with its list");
                let expected_owner = match zone {
                    Zone::Battlefield => obj.controller,
                    _ => obj.owner,
                };
                assert_eq!(expected_owner, Seat(i as u8), "{id:?} is in the wrong player's {zone:?} list");
            }
        }
    }
    for so in &game.stack {
        // Abilities and triggers reference their source, which stays where it is.
        if so.kind == manaline::StackKind::Spell {
            assert!(seen.insert(so.object, Zone::Stack).is_none());
            assert_eq!(obj(game, so.object).zone, Zone::Stack);
        }
    }
    for (id, obj) in game.objects.iter() {
        match obj.zone {
            Zone::OutOfGame => {
                assert!(!seen.contains_key(&id));
                let token = game.card_by_id(obj.card).token;
                assert!(
                    token || game.is_eliminated(obj.owner),
                    "{id:?} left the game but its owner is still playing"
                );
            }
            z => assert_eq!(seen.get(&id), Some(&z), "{id:?} says it is in {z:?} but no list holds it"),
        }
    }

    // Views never leak hidden information.
    let spectator = game.view_spectator();
    for p in &spectator.players {
        assert!(matches!(p.hand, HandView::Hidden { .. }));
        assert!(p.mana_pool.is_none());
    }
    for ov in &spectator.objects {
        let id = ov.id;
        assert!(ov.zone.is_public(), "spectator view shows {id:?} in {:?}", ov.zone);
    }
    for s in 0..seats {
        let seat = Seat(s as u8);
        let view = game.view(seat);
        assert_eq!(view.you, Some(seat));
        assert_eq!(view.must_act, must);
        for p in &view.players {
            if p.seat == seat {
                match &p.hand {
                    HandView::Yours(ids) => assert_eq!(ids, &game.players[s].hand),
                    HandView::Hidden { .. } => panic!("your own hand is hidden from you"),
                }
            } else {
                assert!(matches!(p.hand, HandView::Hidden { .. }), "{seat:?} can see {:?}'s hand", p.seat);
                assert!(p.mana_pool.is_none());
            }
            assert_eq!(p.library.count as usize, game.players[p.seat.index()].library.len());
        }
        for ov in &view.objects {
            let id = ov.id;
            let obj = obj(game, id);
            assert!(
                obj.zone.is_public() || (obj.zone == Zone::Hand && obj.owner == seat),
                "{seat:?}'s view shows {id:?} in {:?} owned by {:?}",
                obj.zone,
                obj.owner
            );
            assert_eq!(ov.zone, obj.zone);
        }
    }
}

fn run_game(db: &Arc<CardDb>, seats: usize, seed: u64) -> Game {
    let mut game = Game::new(config(db, seats), seed).unwrap();
    let mut bot = RandomBot::new(seed ^ 0xdead_beef);
    let mut life = LifeTracker {
        life: vec![game.format.starting_life; seats],
    };
    let mut turn_seen = 0;
    check_invariants(&game, seats);
    let mut applied = 0;
    while game.is_over().is_none() {
        assert!(
            applied < MAX_ACTIONS,
            "game did not finish within {MAX_ACTIONS} actions (turn {})",
            game.turn
        );
        let must = game.must_act();
        let seat = must.seat().unwrap();
        let action = bot.choose_action(&game, seat).unwrap();
        let before = game.state_version();
        let events = game.apply(seat, &action).unwrap_or_else(|e| panic!("{action:?} for {seat:?}: {e:?}"));
        assert_eq!(game.state_version(), before + 1);
        life.check(&events);
        assert!(game.turn >= turn_seen);
        turn_seen = game.turn;
        check_invariants(&game, seats);
        applied += 1;
    }
    for (i, p) in game.players.iter().enumerate() {
        assert_eq!(p.life, life.life[i], "Bot{i}'s life disagrees with the LifeChanged events");
    }
    assert_eq!(game.history().len(), applied);
    game
}

fn replay_matches(db: &Arc<CardDb>, seats: usize, game: &Game) {
    let replayed = Game::replay(config(db, seats), game.seed(), game.history()).unwrap();
    assert_eq!(replayed.log, game.log, "replay produced a different event log");
    assert_eq!(replayed.view_spectator(), game.view_spectator());
    assert_eq!(replayed.is_over(), game.is_over());
}

fn seeds() -> Vec<u64> {
    (1..=6).collect()
}

#[test]
fn random_games_two_seats() {
    let cards = db();
    for seed in seeds() {
        let game = run_game(&cards, 2, seed);
        replay_matches(&cards, 2, &game);
    }
}

#[test]
fn random_games_three_seats() {
    let cards = db();
    for seed in seeds() {
        let game = run_game(&cards, 3, seed);
        replay_matches(&cards, 3, &game);
    }
}

#[test]
fn random_games_four_seats() {
    let cards = db();
    for seed in seeds() {
        let game = run_game(&cards, 4, seed);
        replay_matches(&cards, 4, &game);
    }
}

#[test]
fn eliminated_seats_stay_out_and_the_rest_keep_playing() {
    // In a pod, at least one game must feature an elimination that does not
    // end the game; check the bookkeeping around it.
    let cards = db();
    let mut saw_mid_game_elimination = false;
    for seed in 1..=8u64 {
        let game = run_game(&cards, 4, seed);
        let mut alive: BTreeMap<Seat, bool> = (0..4).map(|s| (Seat(s), true)).collect();
        for e in &game.log {
            if let manaline::EventBase::Eliminated { seat, .. } = e {
                alive.insert(*seat, false);
                if alive.values().filter(|a| **a).count() >= 2 {
                    saw_mid_game_elimination = true;
                }
            }
        }
        let survivors: Vec<Seat> = alive.iter().filter(|(_, a)| **a).map(|(s, _)| *s).collect();
        assert_eq!(survivors.len(), 1);
        assert_eq!(game.is_over(), Some(manaline::Outcome::Winner(survivors[0])));
        assert_eq!(game.turn_order, survivors);
    }
    assert!(saw_mid_game_elimination, "eight four-seat games and never a mid-game elimination?");
}
