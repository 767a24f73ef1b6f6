//! One scenario per rule: priority passing, land drops, casting and resolving,
//! mana payment, combat, damage assignment, state-based actions, elimination
//! in a pod, mulligans, hidden information, and determinism.
use manaline::bot::play_random_game;
use manaline::ir::{
    Ability, Amount, Card, Condition, Cost, Duration, Effect, EventPattern, Filter, ModeChoice, PlayerRef, Ref, Spell,
    Static, TokenSpec, Trigger,
};
use manaline::types::Supertype;
use manaline::testing::{acting_seat, advance_to, advance_until, TestGame};
use manaline::{
    ActReason, Action, AttackTarget, CardDb, CardId, CardType, Color, DamageTarget, Elimination, Format, Game, GameConfig,
    GameObject, Keyword, ManaCost, ObjectId, Outcome, PendingChoice, Phase, PlayerSetup, RulesError, Seat, Zone,
};
use std::sync::Arc;

// ----- the card pool -----

/// A mana cost written in braces.
fn mana(text: &str) -> ManaCost {
    let mut c = ManaCost { generic: 0, x: 0, white: 0, blue: 0, black: 0, red: 0, green: 0 };
    for part in text.split('}').filter(|p| !p.is_empty()) {
        match &part[1..] {
            "X" => c.x += 1,
            "W" => c.white += 1,
            "U" => c.blue += 1,
            "B" => c.black += 1,
            "R" => c.red += 1,
            "G" => c.green += 1,
            n => c.generic += n.parse::<u32>().unwrap(),
        }
    }
    c
}

fn land(name: &str, color: Color) -> Card {
    let mut c = Card::blank(name, mana(""), vec![CardType::Land]);
    c.supertypes = vec![Supertype::Basic];
    c.subtypes = vec![name.to_string()];
    c.activated = vec![tap_for(color, Amount::Const(1))];
    c
}

fn tap_for(color: Color, amount: Amount) -> Ability {
    Ability {
        cost: vec![Cost::Tap],
        targets: vec![],
        effects: Arc::new(vec![Effect::AddMana { color: Some(color), amount }]),
        sorcery_speed: false,
        from_graveyard: false,
        text: "{T}: Add mana.".to_string(),
    }
}

fn creature(name: &str, cost: &str, kind: &str, pt: (i32, i32), keywords: &[Keyword]) -> Card {
    let mut c = Card::blank(name, mana(cost), vec![CardType::Creature]);
    c.subtypes = vec![kind.to_string()];
    c.pt = Some(pt);
    c.keywords = keywords.to_vec();
    c
}

fn one_shot(name: &str, cost: &str, kind: CardType, targets: Vec<Filter>, effects: Vec<Effect>) -> Card {
    let mut c = Card::blank(name, mana(cost), vec![kind]);
    c.spell = Some(Spell { targets, effects: Arc::new(effects), modes: vec![], choice: ModeChoice::One });
    c
}

fn instant(name: &str, cost: &str, targets: Vec<Filter>, effects: Vec<Effect>) -> Card {
    one_shot(name, cost, CardType::Instant, targets, effects)
}

fn sorcery(name: &str, cost: &str, targets: Vec<Filter>, effects: Vec<Effect>) -> Card {
    one_shot(name, cost, CardType::Sorcery, targets, effects)
}

fn ability(cost: Vec<Cost>, targets: Vec<Filter>, effects: Vec<Effect>, text: &str) -> Ability {
    Ability {
        cost,
        targets,
        effects: Arc::new(effects),
        sorcery_speed: false,
        from_graveyard: false,
        text: text.to_string(),
    }
}

fn trigger(event: EventPattern, condition: Option<Condition>, targets: Vec<Filter>, effects: Vec<Effect>, text: &str) -> Trigger {
    Trigger { event, condition, targets, effects: Arc::new(effects), text: text.to_string() }
}

fn pump(target: Ref, n: (i32, i32), until: Duration) -> Effect {
    Effect::ModifyPt {
        target,
        power: Amount::Const(n.0),
        toughness: Amount::Const(n.1),
        keywords: Arc::new(vec![]),
        until,
    }
}

fn damage(n: i32) -> Vec<Effect> {
    vec![Effect::DealDamage { amount: Amount::Const(n), to: Ref::Target(0) }]
}

fn boost(filter: Filter, n: (i32, i32)) -> Static {
    Static::PtBoost {
        filter,
        power: Amount::Const(n.0),
        toughness: Amount::Const(n.1),
        keywords: Arc::new(vec![]),
    }
}

fn your(kind: &str) -> Filter {
    Filter::and(vec![Filter::Creature, Filter::Subtype(kind.to_string()), Filter::ControlledBy(PlayerRef::You)])
}

fn other_your(kind: &str) -> Filter {
    Filter::and(vec![
        Filter::Creature,
        Filter::Other,
        Filter::Subtype(kind.to_string()),
        Filter::ControlledBy(PlayerRef::You),
    ])
}

fn core_cards() -> Vec<Card> {
    let mut all = vec![
        land("Plains", Color::White),
        land("Island", Color::Blue),
        land("Swamp", Color::Black),
        land("Mountain", Color::Red),
        land("Forest", Color::Green),
        creature("Grizzly Bears", "{1}{G}", "Bear", (2, 2), &[]),
        creature("Centaur Courser", "{2}{G}", "Centaur", (3, 3), &[]),
        creature("Craw Wurm", "{4}{G}{G}", "Wurm", (6, 4), &[]),
        creature("Hill Giant", "{3}{R}", "Giant", (3, 3), &[]),
        creature("Suntail Hawk", "{W}", "Bird", (1, 1), &[Keyword::Flying]),
        creature("Bloodfire Expert", "{2}{R}", "Efreet", (3, 1), &[Keyword::Prowess]),
        creature("Goblin Piker", "{1}{R}", "Goblin", (2, 1), &[]),
        creature("Wind Drake", "{2}{U}", "Drake", (2, 2), &[Keyword::Flying]),
        creature("Wall of Vines", "{G}", "Wall", (0, 3), &[Keyword::Defender, Keyword::Reach]),
        creature("Youthful Knight", "{1}{W}", "Knight", (2, 1), &[Keyword::FirstStrike]),
        creature("Typhoid Rats", "{B}", "Rat", (1, 1), &[Keyword::Deathtouch]),
        creature("Child of Night", "{1}{B}", "Vampire", (2, 1), &[Keyword::Lifelink]),
        creature("Colossal Dreadmaw", "{4}{G}{G}", "Dinosaur", (6, 6), &[Keyword::Trample]),
        creature("Serra Angel", "{3}{W}{W}", "Angel", (4, 4), &[Keyword::Flying, Keyword::Vigilance]),
        creature("Raging Goblin", "{R}", "Goblin", (1, 1), &[Keyword::Haste]),
        instant("Lightning Strike", "{1}{R}", vec![Filter::Any], damage(3)),
        instant("Shock", "{R}", vec![Filter::Any], damage(2)),
        sorcery("Flame Slash", "{R}", vec![Filter::Creature], damage(4)),
        instant("Giant Growth", "{G}", vec![Filter::Creature], vec![pump(Ref::Target(0), (3, 3), Duration::EndOfTurn)]),
        instant("Counterspell", "{U}{U}", vec![Filter::Spell], vec![Effect::CounterSpell { target: Ref::Target(0) }]),
        instant(
            "Negate",
            "{1}{U}",
            vec![Filter::and(vec![Filter::Spell, Filter::not(Filter::Creature)])],
            vec![Effect::CounterSpell { target: Ref::Target(0) }],
        ),
        instant("Unsummon", "{U}", vec![Filter::Creature], vec![Effect::ReturnToHand { target: Ref::Target(0) }]),
        instant("Dark Ritual", "{B}", vec![], vec![Effect::AddMana { color: Some(Color::Black), amount: Amount::Const(3) }]),
        instant("Murder", "{1}{B}{B}", vec![Filter::Creature], vec![Effect::Destroy { target: Ref::Target(0) }]),
        sorcery(
            "Cruel Edict",
            "{1}{B}",
            vec![Filter::Opponent],
            vec![Effect::Sacrifice {
                player: PlayerRef::TargetOpponent(0),
                filter: Filter::Creature,
                count: Amount::Const(1),
            }],
        ),
        sorcery(
            "Mind Rot",
            "{2}{B}",
            vec![Filter::Player],
            vec![Effect::Discard { player: PlayerRef::TargetPlayer(0), count: Amount::Const(2), random: false }],
        ),
        instant(
            "Raise the Alarm",
            "{1}{W}",
            vec![],
            vec![Effect::CreateToken {
                spec: Arc::new(TokenSpec {
                    name: "Soldier".to_string(),
                    types: vec![CardType::Creature],
                    subtypes: vec!["Soldier".to_string()],
                    pt: Some((1, 1)),
                    keywords: vec![],
                    colors: vec![Color::White],
                }),
                count: Amount::Const(2),
            }],
        ),
        sorcery(
            "Overrun",
            "{2}{G}{G}{G}",
            vec![],
            vec![Effect::ModifyPt {
                target: Ref::Each(Arc::new(Filter::and(vec![Filter::Creature, Filter::ControlledBy(PlayerRef::You)]))),
                power: Amount::Const(3),
                toughness: Amount::Const(3),
                keywords: Arc::new(vec![Keyword::Trample]),
                until: Duration::EndOfTurn,
            }],
        ),
    ];
    for name in ["Llanowar Elves", "Elvish Mystic"] {
        let mut c = creature(name, "{G}", "Elf", (1, 1), &[]);
        c.activated = vec![tap_for(Color::Green, Amount::Const(1))];
        all.push(c);
    }
    let mut c = creature("Elvish Archdruid", "{1}{G}{G}", "Elf", (2, 2), &[]);
    c.statics = vec![boost(other_your("Elf"), (1, 1))];
    c.activated = vec![tap_for(Color::Green, Amount::Count(your("Elf")))];
    all.push(c);
    let mut c = creature("Elvish Visionary", "{1}{G}", "Elf", (1, 1), &[]);
    c.triggers = vec![trigger(
        EventPattern::ThisEnters,
        None,
        vec![],
        vec![Effect::Draw { player: PlayerRef::You, count: Amount::Const(1) }],
        "When this creature enters, draw a card.",
    )];
    all.push(c);
    let mut c = creature("Man-o'-War", "{2}{U}", "Jellyfish", (2, 2), &[]);
    c.triggers = vec![trigger(
        EventPattern::ThisEnters,
        None,
        vec![Filter::Creature],
        vec![Effect::ReturnToHand { target: Ref::Target(0) }],
        "When this creature enters, return target creature to its owner's hand.",
    )];
    all.push(c);
    let mut c = creature("Festering Goblin", "{B}", "Goblin", (1, 1), &[]);
    c.triggers = vec![trigger(
        EventPattern::ThisDies,
        None,
        vec![Filter::Creature],
        vec![pump(Ref::Target(0), (-1, -1), Duration::EndOfTurn)],
        "When this creature dies, target creature gets -1/-1 until end of turn.",
    )];
    all.push(c);
    let mut c = creature("Prodigal Pyromancer", "{2}{R}", "Wizard", (1, 1), &[]);
    c.activated = vec![ability(vec![Cost::Tap], vec![Filter::Any], damage(1), "{T}: ~ deals 1 damage to any target.")];
    all.push(c);
    let mut c = creature("Furnace Whelp", "{2}{R}{R}", "Dragon", (2, 2), &[Keyword::Flying]);
    c.activated = vec![ability(
        vec![Cost::Mana(mana("{R}"))],
        vec![],
        vec![pump(Ref::This, (1, 0), Duration::EndOfTurn)],
        "{R}: ~ gets +1/+0 until end of turn.",
    )];
    all.push(c);
    let mut c = creature("Goblin Chieftain", "{1}{R}{R}", "Goblin", (2, 2), &[Keyword::Haste]);
    c.statics = vec![
        boost(other_your("Goblin"), (1, 1)),
        Static::GrantKeyword { filter: other_your("Goblin"), keyword: Keyword::Haste },
    ];
    all.push(c);
    let mut c = Card::blank("Holy Strength", mana("{W}"), vec![CardType::Enchantment]);
    c.subtypes = vec!["Aura".to_string()];
    c.enchant = Some(Filter::Creature);
    c.statics = vec![boost(Filter::Attached, (1, 2))];
    all.push(c);
    let mut c = Card::blank("Bonesplitter", mana("{1}"), vec![CardType::Artifact]);
    c.subtypes = vec!["Equipment".to_string()];
    c.equip = Some(mana("{1}"));
    c.statics = vec![boost(Filter::Attached, (2, 0))];
    all.push(c);
    all
}

fn database(cards: Vec<Card>) -> Arc<CardDb> {
    let mut written: Vec<(Card, Option<String>)> = Vec::new();
    for c in cards {
        written.push((c, None));
    }
    Arc::new(CardDb::from_ir("core", written).unwrap())
}

fn db() -> Arc<CardDb> {
    database(core_cards())
}

/// Forty cards: lands first, then as many copies of each spell.
fn deck(db: &CardDb, basic: &str, lands: usize, spells: &[&str]) -> Vec<CardId> {
    let mut ids = vec![db.lookup(basic).unwrap(); lands];
    let mut i = 0;
    while ids.len() < 40 {
        ids.push(db.lookup(spells[i % spells.len()]).unwrap());
        i += 1;
    }
    ids
}

fn named_deck(db: &CardDb, name: &str) -> Vec<CardId> {
    match name {
        "green" => deck(
            db,
            "Forest",
            16,
            &["Grizzly Bears", "Centaur Courser", "Craw Wurm", "Giant Growth", "Llanowar Elves", "Elvish Visionary", "Elvish Archdruid", "Overrun"],
        ),
        "red" => deck(
            db,
            "Mountain",
            16,
            &["Hill Giant", "Lightning Strike", "Shock", "Goblin Piker", "Raging Goblin", "Prodigal Pyromancer", "Goblin Chieftain", "Bloodfire Expert", "Furnace Whelp"],
        ),
        "blue" => deck(db, "Island", 16, &["Wind Drake", "Man-o'-War", "Counterspell", "Unsummon", "Negate", "Bonesplitter"]),
        "white" => deck(
            db,
            "Plains",
            16,
            &["Suntail Hawk", "Youthful Knight", "Serra Angel", "Raise the Alarm", "Holy Strength", "Bonesplitter"],
        ),
        other => panic!("no {other} deck"),
    }
}

fn obj(game: &Game, id: ObjectId) -> &GameObject {
    game.objects.get(id).unwrap()
}

fn hand_card(game: &Game, seat: Seat, name: &str) -> ObjectId {
    game.players[seat.index()]
        .hand
        .iter()
        .copied()
        .find(|&id| game.object_name(id) == name)
        .unwrap_or_else(|| panic!("{name} not in {seat:?}'s hand"))
}

fn battlefield_card(game: &Game, seat: Seat, name: &str) -> ObjectId {
    game.players[seat.index()]
        .battlefield
        .iter()
        .copied()
        .find(|&id| game.object_name(id) == name)
        .unwrap_or_else(|| panic!("{name} not on {seat:?}'s battlefield"))
}

fn battlefield_cards(game: &Game, seat: Seat, name: &str) -> Vec<ObjectId> {
    game.players[seat.index()]
        .battlefield
        .iter()
        .copied()
        .filter(|&id| game.object_name(id) == name)
        .collect()
}

fn pass_both(game: &mut Game) {
    for _ in 0..game.turn_order.len() {
        let seat = game.priority.expect("someone has priority");
        game.apply(seat, &Action::PassPriority).unwrap();
    }
}

#[test]
fn scenario_starts_in_main_phase_with_priority() {
    let game = TestGame::new(db(), 2).build().unwrap();
    assert_eq!(game.turn, 1);
    assert_eq!(game.phase, Phase::Main1);
    assert_eq!(game.active_player, Seat(0));
    assert_eq!(game.priority, Some(Seat(0)));
    assert_eq!(game.must_act().get(Seat(0)), Some(ActReason::Priority));
    assert!(game.legal_actions(Seat(1)).is_empty());
}

#[test]
fn passing_priority_walks_the_turn() {
    let mut game = TestGame::new(db(), 2).build().unwrap();
    let expected = [
        Phase::BeginCombat,
        Phase::DeclareAttackers,
        Phase::EndCombat, // no attackers: blockers and damage are skipped
        Phase::Main2,
        Phase::End,
    ];
    for phase in expected {
        pass_both(&mut game);
        assert_eq!(game.phase, phase);
        assert_eq!(game.priority, Some(Seat(0)));
    }
    pass_both(&mut game);
    // Cleanup has no priority; the engine moves straight to seat 1's turn.
    assert_eq!(game.turn, 2);
    assert_eq!(game.active_player, Seat(1));
    assert_eq!(game.phase, Phase::Upkeep);
    assert_eq!(game.priority, Some(Seat(1)));
}

#[test]
fn draw_step_is_skipped_only_on_the_first_turn_of_a_two_player_game() {
    let mut two = TestGame::new(db(), 2).build().unwrap();
    assert_eq!(two.players[0].hand.len(), 0, "two-player starting player skipped their draw");
    advance_to(&mut two, Phase::Main1).unwrap();
    while two.turn < 2 || two.phase != Phase::Main1 {
        pass_both(&mut two);
    }
    assert_eq!(two.players[1].hand.len(), 1, "seat 1 draws on turn 2");

    let three = TestGame::new(db(), 3).build().unwrap();
    assert_eq!(three.players[0].hand.len(), 1, "in a pod the starting player draws on turn 1");
}

#[test]
fn one_land_per_turn() {
    let mut game = TestGame::new(db(), 2).hand(Seat(0), "Forest").hand(Seat(0), "Forest").build().unwrap();
    let forest = hand_card(&game, Seat(0), "Forest");
    let acts = game.legal_actions(Seat(0));
    assert_eq!(acts.iter().filter(|a| matches!(a, Action::PlayLand { .. })).count(), 2);
    game.apply(Seat(0), &Action::PlayLand { object: forest }).unwrap();
    assert_eq!(obj(&game, forest).zone, Zone::Battlefield);
    assert_eq!(game.priority, Some(Seat(0)), "playing a land keeps priority");
    let acts = game.legal_actions(Seat(0));
    assert!(
        !acts.iter().any(|a| matches!(a, Action::PlayLand { .. })),
        "second land is not offered"
    );
    let other = hand_card(&game, Seat(0), "Forest");
    let err = game.apply(Seat(0), &Action::PlayLand { object: other }).unwrap_err();
    assert!(matches!(err, RulesError::IllegalAction { .. }));
}

#[test]
fn creature_spell_uses_the_stack_and_resolves_summoning_sick() {
    let mut game = TestGame::new(db(), 2)
        .battlefield(Seat(0), "Forest")
        .battlefield(Seat(0), "Forest")
        .hand(Seat(0), "Grizzly Bears")
        .build().unwrap();
    let bears = hand_card(&game, Seat(0), "Grizzly Bears");
    let casts: Vec<Action> = game
        .legal_actions(Seat(0))
        .into_iter()
        .filter(|a| matches!(a, Action::CastSpell { .. }))
        .collect();
    assert_eq!(casts.len(), 1, "one colour combination pays {{1}}{{G}} with two Forests");
    let events = game.apply(Seat(0), &casts[0]).unwrap();
    assert!(events.iter().any(|e| matches!(e, manaline::EventBase::Cast { .. })));
    assert_eq!(game.stack.len(), 1);
    assert_eq!(obj(&game, bears).zone, Zone::Stack);
    assert!(game.mana_sources(Seat(0)).is_empty(), "both Forests tapped");
    assert_eq!(game.priority, Some(Seat(0)), "caster gets priority back");

    game.apply(Seat(0), &Action::PassPriority).unwrap();
    assert_eq!(game.priority, Some(Seat(1)));
    assert!(game
        .legal_actions(Seat(1))
        .iter()
        .all(|a| matches!(a, Action::PassPriority | Action::Concede)));
    game.apply(Seat(1), &Action::PassPriority).unwrap();
    assert!(game.stack.is_empty());
    assert_eq!(obj(&game, bears).zone, Zone::Battlefield);
    assert!(obj(&game, bears).summoning_sick);
    assert_eq!(game.phase, Phase::Main1, "still main phase after resolution");
    assert_eq!(game.priority, Some(Seat(0)));
    assert!(game.attack_candidates(Seat(0)).is_empty(), "summoning sick creatures can't attack");
}

#[test]
fn payments_are_enumerated_by_colour_combination() {
    let game = TestGame::new(db(), 2)
        .battlefield(Seat(0), "Forest")
        .battlefield(Seat(0), "Forest")
        .battlefield(Seat(0), "Mountain")
        .hand(Seat(0), "Grizzly Bears")
        .hand(Seat(0), "Centaur Courser")
        .hand(Seat(0), "Craw Wurm")
        .build().unwrap();
    let bears = hand_card(&game, Seat(0), "Grizzly Bears");
    let courser = hand_card(&game, Seat(0), "Centaur Courser");
    let wurm = hand_card(&game, Seat(0), "Craw Wurm");
    let acts = game.legal_actions(Seat(0));
    let casts_of = |id| {
        acts.iter()
            .filter(|a| matches!(a, Action::CastSpell { object, .. } if *object == id))
            .count()
    };
    assert_eq!(casts_of(bears), 2, "{{1}}{{G}}: tap G+G or G+R");
    assert_eq!(casts_of(courser), 1, "{{2}}{{G}}: all three lands");
    assert_eq!(casts_of(wurm), 0, "{{4}}{{G}}{{G}} is unaffordable");
    let view = game.view(Seat(0));
    assert!(view.object(bears).unwrap().castable);
    assert!(!view.object(wurm).unwrap().castable);
}

#[test]
fn unblocked_attacker_deals_damage_to_the_player() {
    let mut game = TestGame::new(db(), 2).battlefield(Seat(0), "Grizzly Bears").build().unwrap();
    let bears = battlefield_card(&game, Seat(0), "Grizzly Bears");
    advance_until(&mut game, |g| matches!(g.pending, Some(PendingChoice::DeclareAttackers { .. }))).unwrap();
    assert_eq!(game.must_act().get(Seat(0)), Some(ActReason::DeclareAttackers));
    assert_eq!(game.priority, None, "no priority while the declaration is pending");
    let acts = game.legal_actions(Seat(0));
    assert!(acts.contains(&Action::DeclareAttackers {
        attackers: vec![(bears, AttackTarget::Player(Seat(1)))]
    }));
    game.apply(
        Seat(0),
        &Action::DeclareAttackers {
            attackers: vec![(bears, AttackTarget::Player(Seat(1)))],
        },
    )
    .unwrap();
    assert!(obj(&game, bears).tapped, "attacking taps");
    assert_eq!(game.priority, Some(Seat(0)));
    pass_both(&mut game);
    assert_eq!(game.phase, Phase::DeclareBlockers);
    assert_eq!(game.must_act().get(Seat(1)), Some(ActReason::DeclareBlockers));
    game.apply(Seat(1), &Action::DeclareBlockers { blocks: vec![] }).unwrap();
    pass_both(&mut game);
    assert_eq!(game.phase, Phase::CombatDamage);
    assert_eq!(game.players[1].life, 18);
    assert_eq!(game.priority, Some(Seat(0)), "priority after damage");
    pass_both(&mut game);
    assert_eq!(game.phase, Phase::EndCombat);
    pass_both(&mut game);
    assert_eq!(game.phase, Phase::Main2);
    assert!(obj(&game, bears).attacking.is_none(), "removed from combat");
}

#[test]
fn single_block_needs_no_assignment_and_lethal_damage_destroys() {
    let mut game = TestGame::new(db(), 2)
        .battlefield(Seat(0), "Hill Giant")
        .battlefield(Seat(1), "Grizzly Bears")
        .build().unwrap();
    let giant = battlefield_card(&game, Seat(0), "Hill Giant");
    let bears = battlefield_card(&game, Seat(1), "Grizzly Bears");
    advance_until(&mut game, |g| matches!(g.pending, Some(PendingChoice::DeclareAttackers { .. }))).unwrap();
    game.apply(
        Seat(0),
        &Action::DeclareAttackers {
            attackers: vec![(giant, AttackTarget::Player(Seat(1)))],
        },
    )
    .unwrap();
    pass_both(&mut game);
    game.apply(
        Seat(1),
        &Action::DeclareBlockers {
            blocks: vec![(bears, giant)],
        },
    )
    .unwrap();
    pass_both(&mut game);
    assert_eq!(game.phase, Phase::CombatDamage);
    assert!(game.pending.is_none(), "one blocker: no assignment choice");
    assert_eq!(obj(&game, bears).zone, Zone::Graveyard, "2/2 took 3");
    assert_eq!(obj(&game, giant).zone, Zone::Battlefield);
    assert_eq!(obj(&game, giant).damage, 2);
    assert_eq!(game.players[1].life, 20, "blocked: no damage to the player");
    // Damage wears off in cleanup.
    advance_until(&mut game, |g| g.turn == 2).unwrap();
    assert_eq!(obj(&game, giant).damage, 0);
}

#[test]
fn multiple_blockers_require_a_damage_assignment_validated_by_rule() {
    let mut game = TestGame::new(db(), 2)
        .battlefield(Seat(0), "Hill Giant")
        .battlefield(Seat(1), "Grizzly Bears")
        .battlefield(Seat(1), "Grizzly Bears")
        .build().unwrap();
    let giant = battlefield_card(&game, Seat(0), "Hill Giant");
    let bears = battlefield_cards(&game, Seat(1), "Grizzly Bears");
    advance_until(&mut game, |g| matches!(g.pending, Some(PendingChoice::DeclareAttackers { .. }))).unwrap();
    game.apply(
        Seat(0),
        &Action::DeclareAttackers {
            attackers: vec![(giant, AttackTarget::Player(Seat(1)))],
        },
    )
    .unwrap();
    pass_both(&mut game);
    game.apply(
        Seat(1),
        &Action::DeclareBlockers {
            blocks: vec![(bears[0], giant), (bears[1], giant)],
        },
    )
    .unwrap();
    pass_both(&mut game);

    assert_eq!(game.phase, Phase::CombatDamage);
    assert_eq!(game.must_act().get(Seat(0)), Some(ActReason::AssignDamage));
    assert_eq!(game.priority, None, "no priority between the assignment and the damage");
    let suggestions = game.legal_actions(Seat(0));
    assert!(suggestions.iter().all(|a| a.is_division() || matches!(a, Action::Concede)));
    assert!(suggestions.contains(&Action::AssignCombatDamage {
        attacker: giant,
        assignments: vec![(DamageTarget::Object(bears[0]), 3)],
    }));

    // Wrong total, unknown recipient, and the player are rejected.
    let bad_sum = Action::AssignCombatDamage {
        attacker: giant,
        assignments: vec![(DamageTarget::Object(bears[0]), 2)],
    };
    assert!(matches!(game.apply(Seat(0), &bad_sum), Err(RulesError::IllegalAction { .. })));
    let to_player = Action::AssignCombatDamage {
        attacker: giant,
        assignments: vec![(DamageTarget::Player(Seat(1)), 3)],
    };
    assert!(matches!(game.apply(Seat(0), &to_player), Err(RulesError::IllegalAction { .. })));

    // A split that was never listed is accepted because it satisfies the rule.
    let custom = Action::AssignCombatDamage {
        attacker: giant,
        assignments: vec![(DamageTarget::Object(bears[0]), 1), (DamageTarget::Object(bears[1]), 2)],
    };
    assert!(!suggestions.contains(&custom));
    game.apply(Seat(0), &custom).unwrap();
    assert_eq!(obj(&game, bears[0]).zone, Zone::Battlefield);
    assert_eq!(obj(&game, bears[0]).damage, 1);
    assert_eq!(obj(&game, bears[1]).zone, Zone::Graveyard);
    assert_eq!(obj(&game, giant).zone, Zone::Graveyard, "3/3 took 4 from two bears");
    assert_eq!(game.priority, Some(Seat(0)));
}

#[test]
fn zero_life_eliminates_and_ends_a_two_player_game() {
    let mut game = TestGame::new(db(), 2)
        .battlefield(Seat(0), "Grizzly Bears")
        .life(Seat(1), 2)
        .build().unwrap();
    let bears = battlefield_card(&game, Seat(0), "Grizzly Bears");
    advance_until(&mut game, |g| matches!(g.pending, Some(PendingChoice::DeclareAttackers { .. }))).unwrap();
    game.apply(
        Seat(0),
        &Action::DeclareAttackers {
            attackers: vec![(bears, AttackTarget::Player(Seat(1)))],
        },
    )
    .unwrap();
    pass_both(&mut game);
    game.apply(Seat(1), &Action::DeclareBlockers { blocks: vec![] }).unwrap();
    let events = pass_both_collect(&mut game);
    assert_eq!(game.players[1].life, 0);
    assert_eq!(game.players[1].eliminated, Some(Elimination::LifeZero));
    assert_eq!(game.is_over(), Some(Outcome::Winner(Seat(0))));
    assert!(events.iter().any(|e| matches!(e, manaline::EventBase::GameOver { .. })));
    assert!(game.must_act().is_empty());
    assert!(matches!(
        game.apply(Seat(0), &Action::PassPriority),
        Err(RulesError::GameOver { .. })
    ));
}

fn pass_both_collect(game: &mut Game) -> Vec<manaline::Event> {
    let mut all = Vec::new();
    for _ in 0..game.turn_order.len() {
        let Some(seat) = game.priority else { break };
        all.extend(game.apply(seat, &Action::PassPriority).unwrap());
    }
    all
}

#[test]
fn a_pod_continues_after_an_elimination() {
    let mut game = TestGame::new(db(), 3)
        .battlefield(Seat(0), "Grizzly Bears")
        .life(Seat(1), 2)
        .build().unwrap();
    let bears = battlefield_card(&game, Seat(0), "Grizzly Bears");
    advance_until(&mut game, |g| matches!(g.pending, Some(PendingChoice::DeclareAttackers { .. }))).unwrap();
    let acts = game.legal_actions(Seat(0));
    assert!(acts.contains(&Action::DeclareAttackers {
        attackers: vec![(bears, AttackTarget::Player(Seat(2)))]
    }));
    game.apply(
        Seat(0),
        &Action::DeclareAttackers {
            attackers: vec![(bears, AttackTarget::Player(Seat(1)))],
        },
    )
    .unwrap();
    pass_both(&mut game);
    assert_eq!(acting_seat(&game), Some(Seat(1)), "only the attacked seat declares blockers");
    game.apply(Seat(1), &Action::DeclareBlockers { blocks: vec![] }).unwrap();
    pass_both(&mut game);
    assert_eq!(game.players[1].eliminated, Some(Elimination::LifeZero));
    assert_eq!(game.is_over(), None);
    assert_eq!(game.turn_order, vec![Seat(0), Seat(2)]);
    assert!(game.players[1].battlefield.is_empty() && game.players[1].library.is_empty());
    assert_eq!(game.opponents_of(Seat(0)), vec![Seat(2)]);
    assert!(game.view(Seat(2)).players[1].eliminated);
    // Priority passes over the empty seat and the next turn belongs to seat 2.
    advance_until(&mut game, |g| g.turn == 2).unwrap();
    assert_eq!(game.active_player, Seat(2));
}

#[test]
fn blockers_are_declared_sequentially_in_apnap_order() {
    let mut game = TestGame::new(db(), 3)
        .battlefield(Seat(0), "Grizzly Bears")
        .battlefield(Seat(0), "Hill Giant")
        .battlefield(Seat(1), "Grizzly Bears")
        .battlefield(Seat(2), "Grizzly Bears")
        .build().unwrap();
    let bears = battlefield_card(&game, Seat(0), "Grizzly Bears");
    let giant = battlefield_card(&game, Seat(0), "Hill Giant");
    let b1 = battlefield_card(&game, Seat(1), "Grizzly Bears");
    let b2 = battlefield_card(&game, Seat(2), "Grizzly Bears");
    advance_until(&mut game, |g| matches!(g.pending, Some(PendingChoice::DeclareAttackers { .. }))).unwrap();
    game.apply(
        Seat(0),
        &Action::DeclareAttackers {
            attackers: vec![(bears, AttackTarget::Player(Seat(2))), (giant, AttackTarget::Player(Seat(1)))],
        },
    )
    .unwrap();
    pass_both(&mut game);
    assert_eq!(
        game.pending,
        Some(PendingChoice::DeclareBlockers {
            seat: Seat(1),
            remaining: vec![Seat(2)]
        })
    );
    // Seat 1 may only block what attacks seat 1.
    let wrong = Action::DeclareBlockers { blocks: vec![(b1, bears)] };
    assert!(matches!(game.apply(Seat(1), &wrong), Err(RulesError::IllegalAction { .. })));
    assert!(matches!(
        game.apply(Seat(2), &Action::DeclareBlockers { blocks: vec![] }),
        Err(RulesError::NotYourTurnToAct { .. })
    ));
    game.apply(Seat(1), &Action::DeclareBlockers { blocks: vec![(b1, giant)] }).unwrap();
    assert_eq!(
        game.pending,
        Some(PendingChoice::DeclareBlockers {
            seat: Seat(2),
            remaining: vec![]
        })
    );
    game.apply(Seat(2), &Action::DeclareBlockers { blocks: vec![(b2, bears)] }).unwrap();
    assert_eq!(game.priority, Some(Seat(0)));
    pass_both(&mut game);
    assert_eq!(game.phase, Phase::CombatDamage);
    assert_eq!(obj(&game, b1).zone, Zone::Graveyard);
    assert_eq!(obj(&game, b2).zone, Zone::Graveyard);
    assert_eq!(obj(&game, bears).zone, Zone::Graveyard);
    assert_eq!(obj(&game, giant).damage, 2);
}

#[test]
fn drawing_from_an_empty_library_loses() {
    let mut game = TestGame::new(db(), 2).library(Seat(1), &vec![]).build().unwrap();
    advance_until(&mut game, |g| g.is_over().is_some() || g.turn == 3).unwrap();
    assert_eq!(game.players[1].eliminated, Some(Elimination::DrewFromEmptyLibrary));
    assert_eq!(game.is_over(), Some(Outcome::Winner(Seat(0))));
}

#[test]
fn active_player_conceding_ends_their_turn() {
    let mut game = TestGame::new(db(), 3).build().unwrap();
    assert!(game.legal_actions(Seat(0)).contains(&Action::Concede));
    game.apply(Seat(0), &Action::Concede).unwrap();
    assert_eq!(game.players[0].eliminated, Some(Elimination::Conceded));
    assert_eq!(game.is_over(), None);
    assert_eq!(game.turn, 2);
    assert_eq!(game.active_player, Seat(1));
    assert_eq!(game.turn_order, vec![Seat(1), Seat(2)]);
}

#[test]
fn any_seat_may_concede_at_any_time() {
    let mut game = TestGame::new(db(), 3).build().unwrap();
    assert_eq!(game.priority, Some(Seat(0)));
    assert!(
        !game.legal_actions(Seat(2)).contains(&Action::Concede),
        "not listed when it isn't their turn"
    );
    game.apply(Seat(2), &Action::Concede).unwrap();
    assert_eq!(game.players[2].eliminated, Some(Elimination::Conceded));
    assert_eq!(game.turn_order, vec![Seat(0), Seat(1)]);
    assert!(matches!(
        game.apply(Seat(2), &Action::Concede),
        Err(RulesError::IllegalAction { .. })
    ));
    assert_eq!(game.priority, Some(Seat(0)), "the turn continues");
}

#[test]
fn cleanup_discards_down_to_hand_size() {
    let mut t = TestGame::new(db(), 2);
    for _ in 0..9 {
        t = t.hand(Seat(0), "Forest");
    }
    let mut game = t.build().unwrap();
    // Play nothing; walk to cleanup.
    advance_until(&mut game, |g| matches!(g.pending, Some(PendingChoice::Discard { .. }))).unwrap();
    assert_eq!(game.phase, Phase::Cleanup);
    assert_eq!(game.pending, Some(PendingChoice::Discard { seat: Seat(0), count: 2 }));
    let acts = game.legal_actions(Seat(0));
    assert_eq!(acts.iter().filter(|a| matches!(a, Action::Discard { .. })).count(), 36, "C(9,2)");
    let choice = acts.into_iter().find(|a| matches!(a, Action::Discard { .. })).unwrap();
    game.apply(Seat(0), &choice).unwrap();
    assert_eq!(game.players[0].hand.len(), 7);
    assert_eq!(game.players[0].graveyard.len(), 2);
    assert_eq!(game.turn, 2);
}

fn cube_game(starting: Seat) -> Game {
    let db = db();
    let green = named_deck(&db, "green");
    let red = named_deck(&db, "red");
    let config = GameConfig {
        format: Format::cube(),
        players: vec![
            PlayerSetup {
                name: "Alex".into(),
                deck: green,
            },
            PlayerSetup {
                name: "Robin".into(),
                deck: red,
            },
        ],
        cards: db,
        starting_player: Some(starting),
    };
    Game::new(config, 42).unwrap()
}

#[test]
fn london_mulligan_bottoms_one_card_per_mulligan() {
    let mut game = cube_game(Seat(1));
    assert_eq!(game.turn, 0);
    assert_eq!(
        game.must_act().get(Seat(1)),
        Some(ActReason::Mulligan),
        "starting player decides first"
    );
    assert!(game.legal_actions(Seat(0)).is_empty());
    game.apply(Seat(1), &Action::Mulligan { keep: false }).unwrap();
    assert_eq!(game.players[1].hand.len(), 7, "London: redraw seven");
    assert_eq!(game.must_act().get(Seat(1)), Some(ActReason::Mulligan));
    game.apply(Seat(1), &Action::Mulligan { keep: true }).unwrap();
    assert_eq!(game.pending, Some(PendingChoice::BottomCards { seat: Seat(1), count: 1 }));
    let acts = game.legal_actions(Seat(1));
    assert_eq!(acts.iter().filter(|a| matches!(a, Action::BottomCards { .. })).count(), 7);
    let bottom = acts.into_iter().find(|a| matches!(a, Action::BottomCards { .. })).unwrap();
    game.apply(Seat(1), &bottom).unwrap();
    assert_eq!(game.players[1].hand.len(), 6);
    assert_eq!(game.players[1].library.len(), 34);
    assert_eq!(game.must_act().get(Seat(0)), Some(ActReason::Mulligan));
    game.apply(Seat(0), &Action::Mulligan { keep: true }).unwrap();
    assert_eq!(game.turn, 1);
    assert_eq!(game.active_player, Seat(1));
    assert_eq!(game.phase, Phase::Upkeep);
}

#[test]
fn views_hide_other_hands_and_all_libraries() {
    let game = cube_game(Seat(0));
    let v0 = game.view(Seat(0));
    let v1 = game.view(Seat(1));
    let spec = game.view_spectator();
    assert_eq!(v0.player(Seat(0)).hand, manaline::HandView::Yours(game.players[0].hand.clone()));
    assert_eq!(v0.player(Seat(1)).hand, manaline::HandView::Hidden { count: 7 });
    assert_eq!(v1.player(Seat(0)).hand, manaline::HandView::Hidden { count: 7 });
    for id in &game.players[1].hand {
        assert!(v0.object(*id).is_none());
        assert!(v1.object(*id).is_some());
        assert!(spec.object(*id).is_none());
    }
    assert_eq!(v0.player(Seat(0)).library.count, 33);
    assert!(spec.players.iter().all(|p| matches!(p.hand, manaline::HandView::Hidden { count: 7 })));
    // Draw events reveal cards only to the drawing seat.
    let drew = game
        .log
        .iter()
        .find(|e| matches!(e, manaline::EventBase::Drew { seat: Seat(1), .. }))
        .unwrap();
    match drew.view(Some(Seat(0))).unwrap() {
        manaline::EventBase::Drew {
            cards: manaline::DrawnCards::Hidden { count },
            ..
        } => assert_eq!(count, 7),
        other => panic!("{other:?}"),
    }
    match drew.view(Some(Seat(1))).unwrap() {
        manaline::EventBase::Drew {
            cards: manaline::DrawnCards::Yours(ids),
            ..
        } => assert_eq!(ids.len(), 7),
        other => panic!("{other:?}"),
    }
    let private = manaline::Event::Chat {
        from: Seat(0),
        to: Some(Seat(1)),
        text: "gg".into(),
    };
    assert!(private.view(None).is_none());
    assert!(private.view(Some(Seat(1))).is_some());
}

#[test]
fn illegal_and_out_of_turn_actions_are_rejected() {
    let mut game = TestGame::new(db(), 2).hand(Seat(1), "Forest").build().unwrap();
    let forest = hand_card(&game, Seat(1), "Forest");
    let version = game.state_version();
    assert!(matches!(
        game.apply(Seat(1), &Action::PlayLand { object: forest }),
        Err(RulesError::NotYourTurnToAct { seat: Seat(1) })
    ));
    assert!(matches!(
        game.apply(Seat(0), &Action::PlayLand { object: forest }),
        Err(RulesError::IllegalAction { .. })
    ));
    assert!(matches!(
        game.apply(Seat(0), &Action::DeclareAttackers { attackers: vec![] }),
        Err(RulesError::IllegalAction { .. })
    ));
    assert_eq!(game.state_version(), version, "rejected actions do not change state");
}

#[test]
fn illegal_decks_and_player_counts_are_refused() {
    let db = db();
    let green = named_deck(&db, "green");
    let short = green[..30].to_vec();
    let players = |a: Vec<CardId>, b: Vec<CardId>| {
        vec![PlayerSetup { name: "a".into(), deck: a }, PlayerSetup { name: "b".into(), deck: b }]
    };
    let err = Game::new(
        GameConfig {
            format: Format::cube(),
            players: players(short, green.clone()),
            cards: db.clone(),
            starting_player: None,
        },
        1,
    )
    .unwrap_err();
    assert!(matches!(err, RulesError::Setup { .. }), "{err:?}");
    let mut three = players(green.clone(), green.clone());
    three.push(PlayerSetup {
        name: "c".into(),
        deck: green.clone(),
    });
    let err = Game::new(
        GameConfig {
            format: Format::cube(),
            players: three,
            cards: db.clone(),
            starting_player: None,
        },
        1,
    )
    .unwrap_err();
    assert!(err.text().contains("players"), "{err:?}");
    let err = Game::new(
        GameConfig {
            format: Format::builtin("commander").unwrap(),
            players: players(green.clone(), green),
            cards: db,
            starting_player: None,
        },
        1,
    )
    .unwrap_err();
    assert!(err.text().contains("not implemented"), "{err:?}");
}

#[test]
fn same_seed_and_actions_give_the_same_game() {
    let mut a = cube_game(Seat(0));
    play_random_game(&mut a, 9, 5000).unwrap();
    assert!(a.is_over().is_some());
    let b = Game::replay(
        GameConfig {
            format: Format::cube(),
            players: vec![
                PlayerSetup {
                    name: "Alex".into(),
                    deck: deck_of(&a, Seat(0)),
                },
                PlayerSetup {
                    name: "Robin".into(),
                    deck: deck_of(&a, Seat(1)),
                },
            ],
            cards: db(),
            starting_player: Some(Seat(0)),
        },
        a.seed(),
        a.history(),
    )
    .unwrap();
    assert_eq!(a.log, b.log);
    assert_eq!(a.view_spectator(), b.view_spectator());
}

/// The card ids of `seat`'s original deck, in the order `Game::new` received them.
fn deck_of(game: &Game, seat: Seat) -> Vec<CardId> {
    let mut objs: Vec<_> = game.objects.iter().into_iter().filter(|(_, o)| o.owner == seat).collect();
    objs.sort_by_key(|(id, _)| id.0);
    objs.into_iter().map(|(_, o)| o.card).collect()
}
