//! Spells, abilities, triggers, keywords in combat, auras, equipment, tokens,
//! counters, choices, and fizzling, driven through `legal_actions` and `apply`.
use manaline::ir::{
    Ability, Amount, Bind, Card, Condition, Cost, CounterKind, Duration, Effect, EventPattern, Filter, Mode, ModeChoice, PlayerRef, Quantity, Ref, Spell,
    Static, TokenSpec, Trigger,
};
use manaline::types::Supertype;
use manaline::render::render_view;
use manaline::testing::{advance_until, TestGame};
use manaline::text::describe_action;
use manaline::{
    ActReason, Action, AttackTarget, CardDb, CardType, Color, DamageTarget, Game, GameObject, Keyword, ManaCost, ObjectId,
    PendingChoice, Phase, RulesError, Seat, Target, Zone, EQUIP_ABILITY,
};
use std::sync::Arc;

// ----- the card pool -----

/// A mana cost written in braces.
fn mana(text: &str) -> ManaCost {
    let mut c = ManaCost { generic: 0, x: 0, white: 0, blue: 0, black: 0, red: 0, green: 0 };
    for part in text.split('}').filter(|p| !p.is_empty()) {
        match &part[1..] {
            "X" => c.x += 1,
            "W" => c.white += 1,
            "U" => c.blue += 1,
            "B" => c.black += 1,
            "R" => c.red += 1,
            "G" => c.green += 1,
            n => c.generic += n.parse::<u32>().unwrap(),
        }
    }
    c
}

fn land(name: &str, color: Color) -> Card {
    let mut c = Card::blank(name, mana(""), vec![CardType::Land]);
    c.supertypes = vec![Supertype::Basic];
    c.subtypes = vec![name.to_string()];
    c.activated = vec![tap_for(color, Amount::Const(1))];
    c
}

fn tap_for(color: Color, amount: Amount) -> Ability {
    Ability {
        cost: vec![Cost::Tap],
        targets: vec![],
        effects: Arc::new(vec![Effect::AddMana { color: Some(color), amount }]),
        sorcery_speed: false,
        from_graveyard: false,
        text: "{T}: Add mana.".to_string(),
    }
}

fn creature(name: &str, cost: &str, kind: &str, pt: (i32, i32), keywords: &[Keyword]) -> Card {
    let mut c = Card::blank(name, mana(cost), vec![CardType::Creature]);
    c.subtypes = vec![kind.to_string()];
    c.pt = Some(pt);
    c.keywords = keywords.to_vec();
    c
}

fn one_shot(name: &str, cost: &str, kind: CardType, targets: Vec<Filter>, effects: Vec<Effect>) -> Card {
    let mut c = Card::blank(name, mana(cost), vec![kind]);
    c.spell = Some(Spell { targets, effects: Arc::new(effects), modes: vec![], choice: ModeChoice::One });
    c
}

fn instant(name: &str, cost: &str, targets: Vec<Filter>, effects: Vec<Effect>) -> Card {
    one_shot(name, cost, CardType::Instant, targets, effects)
}

fn sorcery(name: &str, cost: &str, targets: Vec<Filter>, effects: Vec<Effect>) -> Card {
    one_shot(name, cost, CardType::Sorcery, targets, effects)
}

fn ability(cost: Vec<Cost>, targets: Vec<Filter>, effects: Vec<Effect>, text: &str) -> Ability {
    Ability {
        cost,
        targets,
        effects: Arc::new(effects),
        sorcery_speed: false,
        from_graveyard: false,
        text: text.to_string(),
    }
}

fn trigger(event: EventPattern, condition: Option<Condition>, targets: Vec<Filter>, effects: Vec<Effect>, text: &str) -> Trigger {
    Trigger { event, condition, targets, effects: Arc::new(effects), text: text.to_string() }
}

fn pump(target: Ref, n: (i32, i32), until: Duration) -> Effect {
    Effect::ModifyPt {
        target,
        power: Amount::Const(n.0),
        toughness: Amount::Const(n.1),
        keywords: Arc::new(vec![]),
        until,
    }
}

fn damage(n: i32) -> Vec<Effect> {
    vec![Effect::DealDamage { amount: Amount::Const(n), to: Ref::Target(0) }]
}

fn boost(filter: Filter, n: (i32, i32)) -> Static {
    Static::PtBoost {
        filter,
        power: Amount::Const(n.0),
        toughness: Amount::Const(n.1),
        keywords: Arc::new(vec![]),
    }
}

fn your(kind: &str) -> Filter {
    Filter::and(vec![Filter::Creature, Filter::Subtype(kind.to_string()), Filter::ControlledBy(PlayerRef::You)])
}

fn other_your(kind: &str) -> Filter {
    Filter::and(vec![
        Filter::Creature,
        Filter::Other,
        Filter::Subtype(kind.to_string()),
        Filter::ControlledBy(PlayerRef::You),
    ])
}

fn core_cards() -> Vec<Card> {
    let mut all = vec![
        land("Plains", Color::White),
        land("Island", Color::Blue),
        land("Swamp", Color::Black),
        land("Mountain", Color::Red),
        land("Forest", Color::Green),
        creature("Grizzly Bears", "{1}{G}", "Bear", (2, 2), &[]),
        creature("Centaur Courser", "{2}{G}", "Centaur", (3, 3), &[]),
        creature("Craw Wurm", "{4}{G}{G}", "Wurm", (6, 4), &[]),
        creature("Hill Giant", "{3}{R}", "Giant", (3, 3), &[]),
        creature("Suntail Hawk", "{W}", "Bird", (1, 1), &[Keyword::Flying]),
        creature("Bloodfire Expert", "{2}{R}", "Efreet", (3, 1), &[Keyword::Prowess]),
        creature("Goblin Piker", "{1}{R}", "Goblin", (2, 1), &[]),
        creature("Wind Drake", "{2}{U}", "Drake", (2, 2), &[Keyword::Flying]),
        creature("Wall of Vines", "{G}", "Wall", (0, 3), &[Keyword::Defender, Keyword::Reach]),
        creature("Youthful Knight", "{1}{W}", "Knight", (2, 1), &[Keyword::FirstStrike]),
        creature("Typhoid Rats", "{B}", "Rat", (1, 1), &[Keyword::Deathtouch]),
        creature("Child of Night", "{1}{B}", "Vampire", (2, 1), &[Keyword::Lifelink]),
        creature("Colossal Dreadmaw", "{4}{G}{G}", "Dinosaur", (6, 6), &[Keyword::Trample]),
        creature("Serra Angel", "{3}{W}{W}", "Angel", (4, 4), &[Keyword::Flying, Keyword::Vigilance]),
        creature("Raging Goblin", "{R}", "Goblin", (1, 1), &[Keyword::Haste]),
        instant("Lightning Strike", "{1}{R}", vec![Filter::Any], damage(3)),
        instant("Shock", "{R}", vec![Filter::Any], damage(2)),
        sorcery("Flame Slash", "{R}", vec![Filter::Creature], damage(4)),
        instant("Giant Growth", "{G}", vec![Filter::Creature], vec![pump(Ref::Target(0), (3, 3), Duration::EndOfTurn)]),
        instant("Counterspell", "{U}{U}", vec![Filter::Spell], vec![Effect::CounterSpell { target: Ref::Target(0) }]),
        instant(
            "Negate",
            "{1}{U}",
            vec![Filter::and(vec![Filter::Spell, Filter::not(Filter::Creature)])],
            vec![Effect::CounterSpell { target: Ref::Target(0) }],
        ),
        instant("Unsummon", "{U}", vec![Filter::Creature], vec![Effect::ReturnToHand { target: Ref::Target(0) }]),
        instant("Dark Ritual", "{B}", vec![], vec![Effect::AddMana { color: Some(Color::Black), amount: Amount::Const(3) }]),
        instant("Murder", "{1}{B}{B}", vec![Filter::Creature], vec![Effect::Destroy { target: Ref::Target(0) }]),
        sorcery(
            "Cruel Edict",
            "{1}{B}",
            vec![Filter::Opponent],
            vec![Effect::Sacrifice {
                player: PlayerRef::TargetOpponent(0),
                filter: Filter::Creature,
                count: Amount::Const(1),
            }],
        ),
        sorcery(
            "Mind Rot",
            "{2}{B}",
            vec![Filter::Player],
            vec![Effect::Discard { player: PlayerRef::TargetPlayer(0), count: Amount::Const(2), random: false }],
        ),
        instant(
            "Raise the Alarm",
            "{1}{W}",
            vec![],
            vec![Effect::CreateToken {
                spec: Arc::new(TokenSpec {
                    name: "Soldier".to_string(),
                    types: vec![CardType::Creature],
                    subtypes: vec!["Soldier".to_string()],
                    pt: Some((1, 1)),
                    keywords: vec![],
                    colors: vec![Color::White],
                }),
                count: Amount::Const(2),
            }],
        ),
        sorcery(
            "Overrun",
            "{2}{G}{G}{G}",
            vec![],
            vec![Effect::ModifyPt {
                target: Ref::Each(Arc::new(Filter::and(vec![Filter::Creature, Filter::ControlledBy(PlayerRef::You)]))),
                power: Amount::Const(3),
                toughness: Amount::Const(3),
                keywords: Arc::new(vec![Keyword::Trample]),
                until: Duration::EndOfTurn,
            }],
        ),
    ];
    for name in ["Llanowar Elves", "Elvish Mystic"] {
        let mut c = creature(name, "{G}", "Elf", (1, 1), &[]);
        c.activated = vec![tap_for(Color::Green, Amount::Const(1))];
        all.push(c);
    }
    let mut c = creature("Elvish Archdruid", "{1}{G}{G}", "Elf", (2, 2), &[]);
    c.statics = vec![boost(other_your("Elf"), (1, 1))];
    c.activated = vec![tap_for(Color::Green, Amount::Count(your("Elf")))];
    all.push(c);
    let mut c = creature("Elvish Visionary", "{1}{G}", "Elf", (1, 1), &[]);
    c.triggers = vec![trigger(
        EventPattern::ThisEnters,
        None,
        vec![],
        vec![Effect::Draw { player: PlayerRef::You, count: Amount::Const(1) }],
        "When this creature enters, draw a card.",
    )];
    all.push(c);
    let mut c = creature("Man-o'-War", "{2}{U}", "Jellyfish", (2, 2), &[]);
    c.triggers = vec![trigger(
        EventPattern::ThisEnters,
        None,
        vec![Filter::Creature],
        vec![Effect::ReturnToHand { target: Ref::Target(0) }],
        "When this creature enters, return target creature to its owner's hand.",
    )];
    all.push(c);
    let mut c = creature("Festering Goblin", "{B}", "Goblin", (1, 1), &[]);
    c.triggers = vec![trigger(
        EventPattern::ThisDies,
        None,
        vec![Filter::Creature],
        vec![pump(Ref::Target(0), (-1, -1), Duration::EndOfTurn)],
        "When this creature dies, target creature gets -1/-1 until end of turn.",
    )];
    all.push(c);
    let mut c = creature("Prodigal Pyromancer", "{2}{R}", "Wizard", (1, 1), &[]);
    c.activated = vec![ability(vec![Cost::Tap], vec![Filter::Any], damage(1), "{T}: ~ deals 1 damage to any target.")];
    all.push(c);
    let mut c = creature("Furnace Whelp", "{2}{R}{R}", "Dragon", (2, 2), &[Keyword::Flying]);
    c.activated = vec![ability(
        vec![Cost::Mana(mana("{R}"))],
        vec![],
        vec![pump(Ref::This, (1, 0), Duration::EndOfTurn)],
        "{R}: ~ gets +1/+0 until end of turn.",
    )];
    all.push(c);
    let mut c = creature("Goblin Chieftain", "{1}{R}{R}", "Goblin", (2, 2), &[Keyword::Haste]);
    c.statics = vec![
        boost(other_your("Goblin"), (1, 1)),
        Static::GrantKeyword { filter: other_your("Goblin"), keyword: Keyword::Haste },
    ];
    all.push(c);
    let mut c = Card::blank("Holy Strength", mana("{W}"), vec![CardType::Enchantment]);
    c.subtypes = vec!["Aura".to_string()];
    c.enchant = Some(Filter::Creature);
    c.statics = vec![boost(Filter::Attached, (1, 2))];
    all.push(c);
    let mut c = Card::blank("Bonesplitter", mana("{1}"), vec![CardType::Artifact]);
    c.subtypes = vec!["Equipment".to_string()];
    c.equip = Some(mana("{1}"));
    c.statics = vec![boost(Filter::Attached, (2, 0))];
    all.push(c);
    all
}

fn database(cards: Vec<Card>) -> Arc<CardDb> {
    let mut written: Vec<(Card, Option<String>)> = Vec::new();
    for c in cards {
        written.push((c, None));
    }
    Arc::new(CardDb::from_ir("core", written).unwrap())
}

fn db() -> Arc<CardDb> {
    database(core_cards())
}

/// The core cards plus one for each primitive they do not use.
fn db_with_extras() -> Arc<CardDb> {
    let one = || vec![Filter::Creature];
    let mine = || Filter::and(vec![Filter::Creature, Filter::ControlledBy(PlayerRef::You)]);
    let mut all = core_cards();
    all.extend(vec![
        instant("Test Exile", "{W}", one(), vec![Effect::Exile { target: Ref::Target(0) }]),
        instant("Test Tap", "{U}", one(), vec![Effect::Tap { target: Ref::Target(0) }]),
        instant("Test Untap", "{U}", one(), vec![Effect::Untap { target: Ref::Target(0) }]),
        instant(
            "Test Counters",
            "{G}",
            one(),
            vec![Effect::AddCounters { target: Ref::Target(0), kind: CounterKind::Plus1Plus1, count: Amount::Const(2) }],
        ),
        sorcery(
            "Test Drain",
            "{B}",
            vec![],
            vec![
                Effect::LoseLife { player: PlayerRef::EachOpponent, amount: Amount::Const(2) },
                Effect::GainLife { player: PlayerRef::You, amount: Amount::Const(2) },
            ],
        ),
        sorcery(
            "Test Conditional",
            "{G}",
            vec![],
            vec![Effect::Conditional {
                if_: Condition::Controls {
                    player: PlayerRef::You,
                    filter: Filter::Subtype("Forest".to_string()),
                    at_least: 1,
                },
                yes: Arc::new(Effect::Draw { player: PlayerRef::You, count: Amount::Const(1) }),
                no: None,
            }],
        ),
        instant(
            "Test Wings",
            "{U}",
            one(),
            vec![Effect::GrantKeyword {
                target: Ref::Target(0),
                keyword: Keyword::Flying,
                until: Duration::EndOfTurn,
            }],
        ),
        creature("Hexproof Bear", "{1}{G}", "Bear", (2, 2), &[Keyword::Hexproof]),
        creature("Stone Bear", "{1}{G}", "Bear", (2, 2), &[Keyword::Indestructible]),
        creature("Menace Bear", "{1}{B}", "Bear", (2, 2), &[Keyword::Menace]),
        creature("Flash Bear", "{1}{G}", "Bear", (2, 2), &[Keyword::Flash]),
        creature("Double Bear", "{1}{R}", "Bear", (2, 2), &[Keyword::DoubleStrike]),
        sorcery(
            "Test Nested Edict",
            "{1}{B}",
            vec![Filter::Opponent],
            vec![Effect::Sequence(Arc::new(vec![
                Effect::Sacrifice {
                    player: PlayerRef::TargetOpponent(0),
                    filter: Filter::Creature,
                    count: Amount::Const(1),
                },
                Effect::Draw { player: PlayerRef::You, count: Amount::Const(1) },
            ]))],
        ),
        sorcery(
            "Test Wheel",
            "{2}{B}",
            vec![],
            vec![
                Effect::Discard { player: PlayerRef::EachPlayer, count: Amount::Const(1), random: false },
                Effect::GainLife { player: PlayerRef::You, amount: Amount::Const(1) },
            ],
        ),
        sorcery(
            "Test Reap",
            "{B}",
            vec![],
            vec![Effect::May {
                effect: Arc::new(Effect::Sacrifice {
                    player: PlayerRef::You,
                    filter: Filter::Creature,
                    count: Amount::Const(1),
                }),
                after: Arc::new(vec![Effect::Draw { player: PlayerRef::You, count: Amount::Const(2) }]),
                otherwise: Arc::new(vec![Effect::LoseLife { player: PlayerRef::You, amount: Amount::Const(2) }]),
                label: "Sacrifice a creature".to_string(),
            }],
        ),
        sorcery(
            "Test Cull",
            "{W}",
            vec![],
            vec![Effect::Exile {
                target: Ref::Chosen {
                    who: PlayerRef::You,
                    filter: Arc::new(mine()),
                    count: Quantity::UpTo(2),
                    bind: None,
                },
            }],
        ),
        instant(
            "Test Volley",
            "{R}",
            vec![Filter::Targets(Quantity::UpTo(2), Arc::new(Filter::Creature))],
            damage(2),
        ),
        instant("Test Ward", "{W}", one(), vec![pump(Ref::Target(0), (2, 2), Duration::UntilYourNextTurn)]),
        instant(
            "Test Rouse",
            "{G}",
            vec![],
            vec![Effect::Sequence(Arc::new(vec![
                Effect::Tap {
                    target: Ref::Chosen {
                        who: PlayerRef::You,
                        filter: Arc::new(mine()),
                        count: Quantity::Exactly(1),
                        bind: Some(Bind::Card(0)),
                    },
                },
                pump(Ref::Named(Bind::Card(0)), (2, 2), Duration::EndOfTurn),
            ]))],
        ),
    ]);
    let mut c = creature("Test Sac Outlet", "{B}", "Ghoul", (1, 1), &[]);
    c.activated = vec![ability(
        vec![Cost::Sacrifice(Filter::Creature)],
        vec![],
        vec![Effect::GainLife { player: PlayerRef::You, amount: Amount::Const(2) }],
        "Sacrifice a creature: You gain 2 life.",
    )];
    all.push(c);
    let mut c = creature("Test Elf Captain", "{1}{G}", "Elf", (2, 2), &[]);
    c.triggers = vec![trigger(
        EventPattern::ThisAttacks,
        Some(Condition::Controls {
            player: PlayerRef::You,
            filter: Filter::and(vec![Filter::Other, Filter::Subtype("Elf".to_string())]),
            at_least: 1,
        }),
        vec![],
        vec![pump(Ref::This, (2, 2), Duration::EndOfTurn)],
        "Whenever this creature attacks, if you control another Elf, it gets +2/+2 until end of turn.",
    )];
    all.push(c);
    let mut c = creature("Test Brawler", "{1}{R}", "Bear", (2, 2), &[]);
    c.triggers = vec![trigger(
        EventPattern::Any(Arc::new(vec![EventPattern::ThisAttacks, EventPattern::ThisBlocks])),
        None,
        vec![],
        vec![pump(Ref::This, (1, 1), Duration::EndOfTurn)],
        "Whenever this creature attacks or blocks, it gets +1/+1 until end of turn.",
    )];
    all.push(c);
    let mut c = Card::blank("Test Charm", mana("{G}"), vec![CardType::Instant]);
    c.spell = Some(Spell {
        targets: vec![],
        effects: Arc::new(vec![]),
        modes: vec![
            Mode {
                targets: vec![Filter::Creature],
                effects: Arc::new(vec![pump(Ref::Target(0), (2, 2), Duration::EndOfTurn)]),
                text: "Target creature gets +2/+2 until end of turn.".to_string(),
            },
            Mode {
                targets: vec![],
                effects: Arc::new(vec![Effect::Draw { player: PlayerRef::You, count: Amount::Const(1) }]),
                text: "Draw a card.".to_string(),
            },
        ],
        choice: ModeChoice::OneOrBoth,
    });
    all.push(c);
    database(all)
}

fn obj(game: &Game, id: ObjectId) -> &GameObject {
    game.objects.get(id).unwrap()
}

fn hand_card(game: &Game, seat: Seat, name: &str) -> ObjectId {
    game.players[seat.index()]
        .hand
        .iter()
        .copied()
        .find(|&id| game.object_name(id) == name)
        .unwrap_or_else(|| panic!("{name} not in hand"))
}

fn bf(game: &Game, seat: Seat, name: &str) -> ObjectId {
    game.players[seat.index()]
        .battlefield
        .iter()
        .copied()
        .find(|&id| game.object_name(id) == name)
        .unwrap_or_else(|| panic!("{name} not on battlefield"))
}

fn bfs(game: &Game, seat: Seat, name: &str) -> Vec<ObjectId> {
    game.players[seat.index()]
        .battlefield
        .iter()
        .copied()
        .filter(|&id| game.object_name(id) == name)
        .collect()
}

/// The legal cast of `name` from `seat`'s hand with exactly these targets (first payment).
fn cast_action(game: &Game, seat: Seat, name: &str, targets: &[Target]) -> Action {
    let id = hand_card(game, seat, name);
    game.legal_actions(seat)
        .into_iter()
        .find(|a| matches!(a, Action::CastSpell { object, targets: t, .. } if *object == id && t == targets))
        .unwrap_or_else(|| panic!("no legal cast of {name} with targets {targets:?}"))
}

fn cast(game: &mut Game, seat: Seat, name: &str, targets: &[Target]) {
    let a = cast_action(game, seat, name, targets);
    game.apply(seat, &a).unwrap();
}

/// Everyone passes until the top of the stack resolves (or a choice opens).
fn resolve_top(game: &mut Game) {
    let depth = game.stack.len();
    assert!(depth > 0, "nothing to resolve");
    for _ in 0..8 {
        if game.stack.len() < depth || game.pending.is_some() || game.is_over().is_some() {
            return;
        }
        let seat = game.priority.expect("someone holds priority");
        game.apply(seat, &Action::PassPriority).unwrap();
    }
    panic!("stack did not resolve");
}

fn pass_both(game: &mut Game) {
    for _ in 0..game.turn_order.len() {
        let seat = game.priority.expect("someone has priority");
        game.apply(seat, &Action::PassPriority).unwrap();
    }
}

fn to_attackers(game: &mut Game) {
    advance_until(game, |g| matches!(g.pending, Some(PendingChoice::DeclareAttackers { .. }))).unwrap();
}

fn attack_with(game: &mut Game, seat: Seat, ids: &[ObjectId], target: Seat) {
    to_attackers(game);
    let attackers = ids.iter().map(|&id| (id, AttackTarget::Player(target))).collect();
    game.apply(seat, &Action::DeclareAttackers { attackers }).unwrap();
    pass_both(game);
}

fn block_with(game: &mut Game, seat: Seat, blocks: &[(ObjectId, ObjectId)]) {
    assert!(
        matches!(game.pending, Some(PendingChoice::DeclareBlockers { .. })),
        "{:?}",
        game.pending
    );
    game.apply(seat, &Action::DeclareBlockers { blocks: blocks.to_vec() }).unwrap();
    pass_both(game);
}

// ----- spells and targeting -----

#[test]
fn lightning_strike_targets_any_target_and_kills() {
    let mut game = TestGame::new(db(), 2)
        .battlefield(Seat(0), "Mountain")
        .battlefield(Seat(0), "Mountain")
        .hand(Seat(0), "Lightning Strike")
        .battlefield(Seat(1), "Grizzly Bears")
        .build().unwrap();
    let bears = bf(&game, Seat(1), "Grizzly Bears");
    let strike = hand_card(&game, Seat(0), "Lightning Strike");
    let casts: Vec<Action> = game
        .legal_actions(Seat(0))
        .into_iter()
        .filter(|a| matches!(a, Action::CastSpell { .. }))
        .collect();
    let targets: Vec<Vec<Target>> = casts
        .iter()
        .map(|a| match a {
            Action::CastSpell { targets, .. } => targets.clone(),
            _ => unreachable!(),
        })
        .collect();
    assert!(targets.contains(&vec![Target::Object(bears)]));
    assert!(targets.contains(&vec![Target::Player(Seat(0))]));
    assert!(targets.contains(&vec![Target::Player(Seat(1))]));
    assert_eq!(casts.len(), 3, "{casts:?}");

    cast(&mut game, Seat(0), "Lightning Strike", &[Target::Object(bears)]);
    assert_eq!(obj(&game, strike).zone, Zone::Stack);
    assert_eq!(game.stack.len(), 1);
    resolve_top(&mut game);
    assert_eq!(obj(&game, bears).zone, Zone::Graveyard);
    assert_eq!(obj(&game, strike).zone, Zone::Graveyard);
    assert_eq!(game.priority, Some(Seat(0)));
}

#[test]
fn instants_can_be_cast_on_the_opponents_turn_and_pumps_wear_off() {
    let mut game = TestGame::new(db(), 2)
        .battlefield(Seat(0), "Grizzly Bears")
        .battlefield(Seat(1), "Forest")
        .hand(Seat(1), "Giant Growth")
        .build().unwrap();
    let bears = bf(&game, Seat(0), "Grizzly Bears");
    // Seat 0 passes in its main phase; seat 1 gets priority and may cast the instant.
    game.apply(Seat(0), &Action::PassPriority).unwrap();
    assert_eq!(game.priority, Some(Seat(1)));
    cast(&mut game, Seat(1), "Giant Growth", &[Target::Object(bears)]);
    resolve_top(&mut game);
    assert_eq!(game.effective_stats(bears), Some((5, 5)));
    advance_until(&mut game, |g| g.turn == 2).unwrap();
    assert_eq!(game.effective_stats(bears), Some((2, 2)), "until end of turn");
}

#[test]
fn sorceries_only_at_sorcery_speed() {
    let mut game = TestGame::new(db(), 2)
        .battlefield(Seat(0), "Mountain")
        .hand(Seat(0), "Flame Slash")
        .battlefield(Seat(1), "Grizzly Bears")
        .build().unwrap();
    assert!(game.legal_actions(Seat(0)).iter().any(|a| matches!(a, Action::CastSpell { .. })));
    pass_both(&mut game);
    assert_eq!(game.phase, Phase::BeginCombat);
    assert!(
        !game.legal_actions(Seat(0)).iter().any(|a| matches!(a, Action::CastSpell { .. })),
        "not in combat"
    );
}

#[test]
fn counterspell_counters_a_creature_spell() {
    let mut game = TestGame::new(db(), 2)
        .battlefield(Seat(0), "Forest")
        .battlefield(Seat(0), "Forest")
        .hand(Seat(0), "Grizzly Bears")
        .battlefield(Seat(1), "Island")
        .battlefield(Seat(1), "Island")
        .hand(Seat(1), "Counterspell")
        .hand(Seat(1), "Negate")
        .build().unwrap();
    let bears = hand_card(&game, Seat(0), "Grizzly Bears");
    cast(&mut game, Seat(0), "Grizzly Bears", &[]);
    game.apply(Seat(0), &Action::PassPriority).unwrap();
    assert_eq!(game.priority, Some(Seat(1)));
    // Negate can't target a creature spell; Counterspell can.
    let negate = hand_card(&game, Seat(1), "Negate");
    assert!(!game
        .legal_actions(Seat(1))
        .iter()
        .any(|a| matches!(a, Action::CastSpell { object, .. } if *object == negate)));
    cast(&mut game, Seat(1), "Counterspell", &[Target::Object(bears)]);
    assert_eq!(game.stack.len(), 2);
    resolve_top(&mut game);
    assert_eq!(obj(&game, bears).zone, Zone::Graveyard, "countered");
    assert!(game.stack.is_empty());
    assert!(game.log.iter().any(|e| matches!(e, manaline::EventBase::Countered { .. })));
}

#[test]
fn a_spell_whose_only_target_left_fizzles() {
    let mut game = TestGame::new(db(), 2)
        .battlefield(Seat(0), "Mountain")
        .battlefield(Seat(0), "Mountain")
        .hand(Seat(0), "Lightning Strike")
        .battlefield(Seat(1), "Island")
        .battlefield(Seat(1), "Grizzly Bears")
        .hand(Seat(1), "Unsummon")
        .build().unwrap();
    let bears = bf(&game, Seat(1), "Grizzly Bears");
    cast(&mut game, Seat(0), "Lightning Strike", &[Target::Object(bears)]);
    game.apply(Seat(0), &Action::PassPriority).unwrap();
    cast(&mut game, Seat(1), "Unsummon", &[Target::Object(bears)]);
    resolve_top(&mut game); // Unsummon: bears to hand
    assert_eq!(obj(&game, bears).zone, Zone::Hand);
    assert_eq!(game.players[1].life, 20);
    resolve_top(&mut game); // Strike fizzles
    assert_eq!(game.players[1].life, 20);
    assert!(game.stack.is_empty());
}

#[test]
fn dark_ritual_mana_can_pay_for_a_spell_in_the_same_phase() {
    let mut game = TestGame::new(db(), 2)
        .battlefield(Seat(0), "Swamp")
        .hand(Seat(0), "Dark Ritual")
        .hand(Seat(0), "Murder")
        .battlefield(Seat(1), "Grizzly Bears")
        .build().unwrap();
    let murder = hand_card(&game, Seat(0), "Murder");
    assert!(!game
        .legal_actions(Seat(0))
        .iter()
        .any(|a| matches!(a, Action::CastSpell { object, .. } if *object == murder)));
    cast(&mut game, Seat(0), "Dark Ritual", &[]);
    resolve_top(&mut game);
    assert_eq!(game.players[0].mana_pool.total(), 3);
    let cast_murder = game
        .legal_actions(Seat(0))
        .into_iter()
        .find(|a| matches!(a, Action::CastSpell { object, .. } if *object == murder))
        .expect("Murder castable from the pool");
    if let Action::CastSpell { payment, .. } = &cast_murder {
        assert_eq!(payment.from_pool.len(), 3);
        assert!(payment.tap.is_empty());
    }
    game.apply(Seat(0), &cast_murder).unwrap();
    assert_eq!(game.players[0].mana_pool.total(), 0);
}

// ----- effects that need a choice -----

#[test]
fn cruel_edict_asks_the_opponent_which_creature_to_sacrifice() {
    let mut game = TestGame::new(db(), 2)
        .battlefield(Seat(0), "Swamp")
        .battlefield(Seat(0), "Swamp")
        .hand(Seat(0), "Cruel Edict")
        .battlefield(Seat(1), "Grizzly Bears")
        .battlefield(Seat(1), "Hill Giant")
        .build().unwrap();
    cast(&mut game, Seat(0), "Cruel Edict", &[Target::Player(Seat(1))]);
    resolve_top(&mut game);
    assert!(
        matches!(
            game.pending,
            Some(PendingChoice::Choose {
                seat: Seat(1),
                reason: ActReason::Choice,
                ..
            })
        ),
        "{:?}",
        game.pending
    );
    assert_eq!(game.must_act().get(Seat(1)), Some(ActReason::Choice));
    let choices = game.legal_actions(Seat(1));
    assert_eq!(choices.iter().filter(|a| matches!(a, Action::ChooseTargets { .. })).count(), 2);
    let giant = bf(&game, Seat(1), "Hill Giant");
    game.apply(
        Seat(1),
        &Action::ChooseTargets {
            targets: vec![Target::Object(giant)],
        },
    )
    .unwrap();
    assert_eq!(obj(&game, giant).zone, Zone::Graveyard);
    assert_eq!(game.players[1].battlefield.len(), 1);
    assert_eq!(game.priority, Some(Seat(0)), "resolution finished; active player gets priority");
    assert!(game.pending.is_none());
}

#[test]
fn mind_rot_lets_the_target_choose_what_to_discard() {
    let mut game = TestGame::new(db(), 2)
        .battlefield(Seat(0), "Swamp")
        .battlefield(Seat(0), "Swamp")
        .battlefield(Seat(0), "Swamp")
        .hand(Seat(0), "Mind Rot")
        .hand(Seat(1), "Forest")
        .hand(Seat(1), "Forest")
        .hand(Seat(1), "Grizzly Bears")
        .build().unwrap();
    cast(&mut game, Seat(0), "Mind Rot", &[Target::Player(Seat(1))]);
    resolve_top(&mut game);
    assert!(matches!(
        game.pending,
        Some(PendingChoice::Choose {
            seat: Seat(1),
            min: 2,
            max: 2,
            reason: ActReason::Discard,
            ..
        })
    ));
    assert_eq!(game.must_act().get(Seat(1)), Some(ActReason::Discard));
    let choices = game.legal_actions(Seat(1));
    assert_eq!(
        choices.iter().filter(|a| matches!(a, Action::ChooseTargets { .. })).count(),
        3,
        "C(3,2)"
    );
    let pick = choices.into_iter().find(|a| matches!(a, Action::ChooseTargets { .. })).unwrap();
    game.apply(Seat(1), &pick).unwrap();
    assert_eq!(game.players[1].hand.len(), 1);
    assert_eq!(game.players[1].graveyard.len(), 2);
}

#[test]
fn a_choice_inside_a_sequence_keeps_the_rest_of_the_sequence() {
    let mut game = TestGame::new(db_with_extras(), 2)
        .battlefield(Seat(0), "Swamp")
        .battlefield(Seat(0), "Swamp")
        .hand(Seat(0), "Test Nested Edict")
        .library(Seat(0), &vec!["Forest"; 3])
        .battlefield(Seat(1), "Grizzly Bears")
        .battlefield(Seat(1), "Hill Giant")
        .build().unwrap();
    let hand_before = game.players[0].hand.len();
    cast(&mut game, Seat(0), "Test Nested Edict", &[Target::Player(Seat(1))]);
    resolve_top(&mut game);
    assert!(matches!(game.pending, Some(PendingChoice::Choose { seat: Seat(1), .. })));
    let bears = bf(&game, Seat(1), "Grizzly Bears");
    game.apply(
        Seat(1),
        &Action::ChooseTargets {
            targets: vec![Target::Object(bears)],
        },
    )
    .unwrap();
    assert_eq!(obj(&game, bears).zone, Zone::Graveyard);
    assert_eq!(
        game.players[0].hand.len(),
        hand_before - 1 + 1,
        "the draw after the sacrifice still happens"
    );
    assert!(game.pending.is_none());
    assert_eq!(game.priority, Some(Seat(0)));
}

#[test]
fn each_player_discarding_asks_every_seat_in_turn() {
    let mut game = TestGame::new(db_with_extras(), 3)
        .battlefield(Seat(0), "Swamp")
        .battlefield(Seat(0), "Swamp")
        .battlefield(Seat(0), "Swamp")
        .hand(Seat(0), "Test Wheel")
        .hand(Seat(0), "Forest") // plus the turn-one draw: a pod's starting player draws
        .hand(Seat(1), "Forest")
        .hand(Seat(1), "Grizzly Bears")
        .hand(Seat(2), "Forest")
        .build().unwrap();
    cast(&mut game, Seat(0), "Test Wheel", &[]);
    resolve_top(&mut game);
    // Seat 0 has two cards left and chooses; seat 1 chooses; seat 2's only card goes on its own.
    for seat in [Seat(0), Seat(1)] {
        assert!(
            matches!(game.pending, Some(PendingChoice::Choose { seat: s, min: 1, reason: ActReason::Discard, .. }) if s == seat),
            "{:?}",
            game.pending
        );
        assert_eq!(game.must_act().get(seat), Some(ActReason::Discard));
        let pick = game
            .legal_actions(seat)
            .into_iter()
            .find(|a| matches!(a, Action::ChooseTargets { .. }))
            .unwrap();
        game.apply(seat, &pick).unwrap();
    }
    assert!(game.pending.is_none(), "{:?}", game.pending);
    assert_eq!(game.players[0].hand.len(), 1);
    assert_eq!(game.players[1].hand.len(), 1);
    assert_eq!(game.players[2].hand.len(), 0);
    assert_eq!(game.players[0].life, 21, "the effect after the discards still runs");
    assert_eq!(game.priority, Some(Seat(0)));
}

#[test]
fn you_may_asks_and_runs_the_branch_that_was_picked() {
    // Decline: the "if you don't" branch runs.
    let mut game = TestGame::new(db_with_extras(), 2)
        .battlefield(Seat(0), "Swamp")
        .battlefield(Seat(0), "Grizzly Bears")
        .hand(Seat(0), "Test Reap")
        .library(Seat(0), &vec!["Forest"; 4])
        .build().unwrap();
    cast(&mut game, Seat(0), "Test Reap", &[]);
    resolve_top(&mut game);
    assert!(
        matches!(game.pending, Some(PendingChoice::ChooseOption { seat: Seat(0), .. })),
        "{:?}",
        game.pending
    );
    assert_eq!(game.must_act().get(Seat(0)), Some(ActReason::Choice));
    let acts = game.legal_actions(Seat(0));
    let labels: Vec<String> = acts
        .iter()
        .filter(|a| matches!(a, Action::ChooseMode { .. }))
        .map(|a| describe_action(&game, a))
        .collect();
    assert_eq!(labels, vec!["Sacrifice a creature".to_string(), "Don't".to_string()]);
    game.apply(Seat(0), &Action::ChooseMode { mode: 1 }).unwrap();
    assert_eq!(game.players[0].life, 18);
    assert_eq!(game.players[0].hand.len(), 0);
    assert_eq!(game.players[0].battlefield.len(), 2, "nothing sacrificed");
    assert!(game.pending.is_none());
    assert_eq!(game.priority, Some(Seat(0)));

    // Accept: the sacrifice is a real choice, and the "if you do" branch follows it.
    let mut game = TestGame::new(db_with_extras(), 2)
        .battlefield(Seat(0), "Swamp")
        .battlefield(Seat(0), "Grizzly Bears")
        .battlefield(Seat(0), "Hill Giant")
        .hand(Seat(0), "Test Reap")
        .library(Seat(0), &vec!["Forest"; 4])
        .build().unwrap();
    let giant = bf(&game, Seat(0), "Hill Giant");
    cast(&mut game, Seat(0), "Test Reap", &[]);
    resolve_top(&mut game);
    game.apply(Seat(0), &Action::ChooseMode { mode: 0 }).unwrap();
    assert!(
        matches!(
            game.pending,
            Some(PendingChoice::Choose {
                seat: Seat(0),
                min: 1,
                max: 1,
                ..
            })
        ),
        "{:?}",
        game.pending
    );
    let text = describe_action(
        &game,
        &Action::ChooseTargets {
            targets: vec![Target::Object(giant)],
        },
    );
    assert!(text.starts_with("Sacrifice Hill Giant"), "{text}");
    game.apply(
        Seat(0),
        &Action::ChooseTargets {
            targets: vec![Target::Object(giant)],
        },
    )
    .unwrap();
    assert_eq!(obj(&game, giant).zone, Zone::Graveyard);
    assert_eq!(game.players[0].hand.len(), 2, "drew two");
    assert_eq!(game.players[0].life, 20);
}

#[test]
fn up_to_n_offers_every_size_including_none() {
    let mut t = TestGame::new(db_with_extras(), 2)
        .battlefield(Seat(0), "Plains")
        .hand(Seat(0), "Test Cull");
    for _ in 0..3 {
        t = t.battlefield(Seat(0), "Grizzly Bears");
    }
    let mut game = t.build().unwrap();
    let bears = bfs(&game, Seat(0), "Grizzly Bears");
    cast(&mut game, Seat(0), "Test Cull", &[]);
    resolve_top(&mut game);
    assert!(
        matches!(game.pending, Some(PendingChoice::Choose { min: 0, max: 2, .. })),
        "{:?}",
        game.pending
    );
    let picks: Vec<Action> = game
        .legal_actions(Seat(0))
        .into_iter()
        .filter(|a| matches!(a, Action::ChooseTargets { .. }))
        .collect();
    assert_eq!(picks.len(), 1 + 3 + 3, "none, each single, each pair: {picks:?}");
    assert_eq!(
        describe_action(&game, &Action::ChooseTargets { targets: vec![] }),
        "Exile nothing"
    );
    game.apply(
        Seat(0),
        &Action::ChooseTargets {
            targets: vec![Target::Object(bears[0]), Target::Object(bears[2])],
        },
    )
    .unwrap();
    assert_eq!(obj(&game, bears[0]).zone, Zone::Exile);
    assert_eq!(obj(&game, bears[1]).zone, Zone::Battlefield);
    assert_eq!(obj(&game, bears[2]).zone, Zone::Exile);
}

#[test]
fn a_two_step_cast_pays_first_then_asks_for_modes_and_targets() {
    let mut game = TestGame::new(db_with_extras(), 2)
        .battlefield(Seat(0), "Forest")
        .battlefield(Seat(0), "Grizzly Bears")
        .hand(Seat(0), "Test Charm")
        .library(Seat(0), &vec!["Forest"; 3])
        .build().unwrap();
    let bears = bf(&game, Seat(0), "Grizzly Bears");
    let forest = bf(&game, Seat(0), "Forest");
    let charm = hand_card(&game, Seat(0), "Test Charm");
    let casts: Vec<Action> = game
        .legal_actions(Seat(0))
        .into_iter()
        .filter(|a| matches!(a, Action::CastSpell { object, .. } if *object == charm))
        .collect();
    assert_eq!(casts.len(), 1, "one action per payment, no targets yet: {casts:?}");
    game.apply(Seat(0), &casts[0]).unwrap();
    assert!(obj(&game, forest).tapped, "mana is paid up front");
    assert_eq!(obj(&game, charm).zone, Zone::Hand, "not on the stack until the choices are made");
    assert!(game.stack.is_empty());
    assert_eq!(game.must_act().get(Seat(0)), Some(ActReason::Choice));
    assert_eq!(game.priority, None);

    // Modes: both offered, plus nothing to stop with until one is chosen.
    let modes: Vec<String> = game
        .legal_actions(Seat(0))
        .iter()
        .filter(|a| matches!(a, Action::ChooseMode { .. }))
        .map(|a| describe_action(&game, a))
        .collect();
    assert_eq!(
        modes,
        vec![
            "Target creature gets +2/+2 until end of turn.".to_string(),
            "Draw a card.".to_string()
        ]
    );
    game.apply(Seat(0), &Action::ChooseMode { mode: 1 }).unwrap();
    let modes: Vec<String> = game
        .legal_actions(Seat(0))
        .iter()
        .filter(|a| matches!(a, Action::ChooseMode { .. }))
        .map(|a| describe_action(&game, a))
        .collect();
    assert_eq!(
        modes,
        vec![
            "Target creature gets +2/+2 until end of turn.".to_string(),
            "No more modes".to_string()
        ]
    );
    game.apply(Seat(0), &Action::ChooseMode { mode: 0 }).unwrap();
    // Two modes chosen: now the first mode's target.
    let picks: Vec<Action> = game
        .legal_actions(Seat(0))
        .into_iter()
        .filter(|a| matches!(a, Action::ChooseTargets { .. }))
        .collect();
    assert_eq!(
        picks,
        vec![Action::ChooseTargets {
            targets: vec![Target::Object(bears)]
        }]
    );
    assert_eq!(
        describe_action(&game, &picks[0]),
        format!("Target Grizzly Bears {}", bears.text())
    );
    game.apply(Seat(0), &picks[0]).unwrap();
    assert_eq!(game.stack.len(), 1);
    assert_eq!(game.stack[0].modes, vec![1, 0]);
    assert_eq!(game.priority, Some(Seat(0)), "the caster gets priority back");
    let view = game.view(Seat(1));
    assert_eq!(view.stack[0].modes, vec![1, 0]);
    assert!(
        view.stack[0].description.contains("Draw a card") && view.stack[0].description.contains("+2/+2"),
        "{}",
        view.stack[0].description
    );
    let before = game.players[0].hand.len();
    resolve_top(&mut game);
    assert_eq!(game.players[0].hand.len(), before + 1, "modes resolve in the order chosen");
    assert_eq!(game.effective_stats(bears), Some((4, 4)));
}

#[test]
fn illegal_targets_are_pruned_one_by_one_and_only_a_total_loss_fizzles() {
    let mut game = TestGame::new(db_with_extras(), 2)
        .battlefield(Seat(0), "Mountain")
        .hand(Seat(0), "Test Volley")
        .battlefield(Seat(1), "Grizzly Bears")
        .battlefield(Seat(1), "Hill Giant")
        .battlefield(Seat(1), "Island")
        .hand(Seat(1), "Unsummon")
        .build().unwrap();
    let bears = bf(&game, Seat(1), "Grizzly Bears");
    let giant = bf(&game, Seat(1), "Hill Giant");
    cast(&mut game, Seat(0), "Test Volley", &[]);
    game.apply(
        Seat(0),
        &Action::ChooseTargets {
            targets: vec![Target::Object(bears), Target::Object(giant)],
        },
    )
    .unwrap();
    // In response the opponent bounces one target; the other is still hit.
    game.apply(Seat(0), &Action::PassPriority).unwrap();
    cast(&mut game, Seat(1), "Unsummon", &[Target::Object(bears)]);
    resolve_top(&mut game);
    assert_eq!(obj(&game, bears).zone, Zone::Hand);
    resolve_top(&mut game);
    assert_eq!(obj(&game, giant).damage, 2, "the remaining target is still dealt damage");
}

#[test]
fn until_your_next_turn_outlasts_the_opponents_turn() {
    let mut game = TestGame::new(db_with_extras(), 2)
        .battlefield(Seat(0), "Plains")
        .battlefield(Seat(0), "Grizzly Bears")
        .hand(Seat(0), "Test Ward")
        .build().unwrap();
    let bears = bf(&game, Seat(0), "Grizzly Bears");
    cast(&mut game, Seat(0), "Test Ward", &[Target::Object(bears)]);
    resolve_top(&mut game);
    assert_eq!(game.effective_stats(bears), Some((4, 4)));
    advance_until(&mut game, |g| g.turn == 2 && g.phase == Phase::Main1).unwrap();
    assert_eq!(game.effective_stats(bears), Some((4, 4)), "still on during the opponent's turn");
    advance_until(&mut game, |g| g.turn == 3).unwrap();
    assert_eq!(game.effective_stats(bears), Some((2, 2)), "gone as my next turn begins");
}

#[test]
fn a_bound_choice_can_be_referred_to_later() {
    let mut game = TestGame::new(db_with_extras(), 2)
        .battlefield(Seat(0), "Forest")
        .battlefield(Seat(0), "Grizzly Bears")
        .battlefield(Seat(0), "Hill Giant")
        .hand(Seat(0), "Test Rouse")
        .build().unwrap();
    let giant = bf(&game, Seat(0), "Hill Giant");
    cast(&mut game, Seat(0), "Test Rouse", &[]);
    resolve_top(&mut game);
    game.apply(
        Seat(0),
        &Action::ChooseTargets {
            targets: vec![Target::Object(giant)],
        },
    )
    .unwrap();
    assert!(obj(&game, giant).tapped);
    assert_eq!(game.effective_stats(giant), Some((5, 5)), "\"it\" is the tapped creature");
}

// ----- triggers -----

#[test]
fn an_intervening_if_gates_the_trigger() {
    // Without another Elf the trigger never fires.
    let mut game = TestGame::new(db_with_extras(), 2).battlefield(Seat(0), "Test Elf Captain").build().unwrap();
    let captain = bf(&game, Seat(0), "Test Elf Captain");
    attack_with(&mut game, Seat(0), &[captain], Seat(1));
    assert!(game.stack.is_empty(), "no trigger: {:?}", game.stack);
    assert_eq!(game.effective_stats(captain), Some((2, 2)));

    // With one it fires and resolves.
    let mut game = TestGame::new(db_with_extras(), 2)
        .battlefield(Seat(0), "Test Elf Captain")
        .battlefield(Seat(0), "Llanowar Elves")
        .build().unwrap();
    let captain = bf(&game, Seat(0), "Test Elf Captain");
    to_attackers(&mut game);
    game.apply(
        Seat(0),
        &Action::DeclareAttackers {
            attackers: vec![(captain, AttackTarget::Player(Seat(1)))],
        },
    )
    .unwrap();
    assert_eq!(game.stack.len(), 1, "the trigger is on the stack");
    resolve_top(&mut game);
    assert_eq!(game.effective_stats(captain), Some((4, 4)));
}

#[test]
fn an_event_union_fires_on_either_event() {
    // Blocking: the opponent attacks and the brawler blocks.
    let mut game = TestGame::new(db_with_extras(), 2)
        .battlefield(Seat(0), "Hill Giant")
        .battlefield(Seat(1), "Test Brawler")
        .build().unwrap();
    let giant = bf(&game, Seat(0), "Hill Giant");
    let brawler = bf(&game, Seat(1), "Test Brawler");
    attack_with(&mut game, Seat(0), &[giant], Seat(1));
    game.apply(
        Seat(1),
        &Action::DeclareBlockers {
            blocks: vec![(brawler, giant)],
        },
    )
    .unwrap();
    assert_eq!(game.stack.len(), 1, "blocking fired it");
    resolve_top(&mut game);
    assert_eq!(game.effective_stats(brawler), Some((3, 3)));
    pass_both(&mut game);
    assert_eq!(obj(&game, giant).zone, Zone::Graveyard, "a 3/3 blocker kills the 3/3 attacker");
    assert_eq!(obj(&game, brawler).zone, Zone::Graveyard);

    // Attacking fires it too.
    let mut game = TestGame::new(db_with_extras(), 2).battlefield(Seat(0), "Test Brawler").build().unwrap();
    let brawler = bf(&game, Seat(0), "Test Brawler");
    to_attackers(&mut game);
    game.apply(
        Seat(0),
        &Action::DeclareAttackers {
            attackers: vec![(brawler, AttackTarget::Player(Seat(1)))],
        },
    )
    .unwrap();
    resolve_top(&mut game);
    assert_eq!(game.effective_stats(brawler), Some((3, 3)));
}

#[test]
fn elvish_visionary_draws_on_entering() {
    let mut game = TestGame::new(db(), 2)
        .battlefield(Seat(0), "Forest")
        .battlefield(Seat(0), "Forest")
        .hand(Seat(0), "Elvish Visionary")
        .build().unwrap();
    let before = game.players[0].hand.len();
    cast(&mut game, Seat(0), "Elvish Visionary", &[]);
    // Both pass: the creature resolves and its trigger goes on the stack.
    pass_both(&mut game);
    assert_eq!(game.stack.len(), 1, "the ETB trigger is on the stack: {:?}", game.stack);
    assert!(matches!(game.stack[0].kind, manaline::StackKind::Trigger { .. }));
    assert!(game.log.iter().any(|e| matches!(e, manaline::EventBase::Triggered { .. })));
    assert_eq!(game.priority, Some(Seat(0)), "active player may respond to the trigger");
    assert_eq!(game.players[0].hand.len(), before - 1);
    resolve_top(&mut game);
    assert_eq!(game.players[0].hand.len(), before - 1 + 1);
}

#[test]
fn man_o_war_asks_for_a_target_then_bounces() {
    let mut game = TestGame::new(db(), 2)
        .battlefield(Seat(0), "Island")
        .battlefield(Seat(0), "Island")
        .battlefield(Seat(0), "Island")
        .hand(Seat(0), "Man-o'-War")
        .battlefield(Seat(1), "Grizzly Bears")
        .build().unwrap();
    let bears = bf(&game, Seat(1), "Grizzly Bears");
    cast(&mut game, Seat(0), "Man-o'-War", &[]);
    resolve_top(&mut game);
    assert!(
        matches!(game.pending, Some(PendingChoice::ChooseTargets { seat: Seat(0), .. })),
        "{:?}",
        game.pending
    );
    assert_eq!(game.must_act().get(Seat(0)), Some(ActReason::Choice));
    let choices = game.legal_actions(Seat(0));
    assert_eq!(
        choices.iter().filter(|a| matches!(a, Action::ChooseTargets { .. })).count(),
        2,
        "bears or itself"
    );
    game.apply(
        Seat(0),
        &Action::ChooseTargets {
            targets: vec![Target::Object(bears)],
        },
    )
    .unwrap();
    assert_eq!(game.stack.len(), 1);
    resolve_top(&mut game);
    assert_eq!(obj(&game, bears).zone, Zone::Hand);
}

#[test]
fn festering_goblin_dies_trigger_shrinks_a_creature() {
    let mut game = TestGame::new(db(), 2)
        .battlefield(Seat(0), "Festering Goblin")
        .battlefield(Seat(1), "Grizzly Bears")
        .battlefield(Seat(1), "Suntail Hawk")
        .build().unwrap();
    let goblin = bf(&game, Seat(0), "Festering Goblin");
    let bears = bf(&game, Seat(1), "Grizzly Bears");
    let hawk = bf(&game, Seat(1), "Suntail Hawk");
    attack_with(&mut game, Seat(0), &[goblin], Seat(1));
    block_with(&mut game, Seat(1), &[(bears, goblin)]);
    assert_eq!(obj(&game, goblin).zone, Zone::Graveyard);
    assert!(
        matches!(game.pending, Some(PendingChoice::ChooseTargets { seat: Seat(0), .. })),
        "{:?}",
        game.pending
    );
    game.apply(
        Seat(0),
        &Action::ChooseTargets {
            targets: vec![Target::Object(hawk)],
        },
    )
    .unwrap();
    resolve_top(&mut game);
    assert_eq!(obj(&game, hawk).zone, Zone::Graveyard, "1/1 with -1/-1 dies");
}

#[test]
fn prowess_pumps_on_a_noncreature_spell() {
    let mut game = TestGame::new(db(), 2)
        .battlefield(Seat(0), "Bloodfire Expert")
        .battlefield(Seat(0), "Mountain")
        .hand(Seat(0), "Shock")
        .build().unwrap();
    let expert = bf(&game, Seat(0), "Bloodfire Expert");
    cast(&mut game, Seat(0), "Shock", &[Target::Player(Seat(1))]);
    assert_eq!(game.stack.len(), 2, "prowess trigger above the spell");
    resolve_top(&mut game);
    assert_eq!(game.effective_stats(expert), Some((4, 2)));
}

// ----- activated and mana abilities -----

#[test]
fn prodigal_pyromancer_pings_and_respects_summoning_sickness() {
    let mut game = TestGame::new(db(), 2).battlefield(Seat(0), "Prodigal Pyromancer").build().unwrap();
    let pinger = bf(&game, Seat(0), "Prodigal Pyromancer");
    let acts: Vec<Action> = game
        .legal_actions(Seat(0))
        .into_iter()
        .filter(|a| matches!(a, Action::ActivateAbility { object, .. } if *object == pinger))
        .collect();
    assert_eq!(acts.len(), 3, "bears? no: itself, and both players: {acts:?}");
    let ping = acts
        .iter()
        .find(|a| matches!(a, Action::ActivateAbility { targets, .. } if targets == &vec![Target::Player(Seat(1))]))
        .unwrap()
        .clone();
    game.apply(Seat(0), &ping).unwrap();
    assert!(obj(&game, pinger).tapped);
    resolve_top(&mut game);
    assert_eq!(game.players[1].life, 19);

    let mut sick = TestGame::new(db(), 2)
        .battlefield(Seat(0), "Mountain")
        .battlefield(Seat(0), "Mountain")
        .battlefield(Seat(0), "Mountain")
        .hand(Seat(0), "Prodigal Pyromancer")
        .build().unwrap();
    cast(&mut sick, Seat(0), "Prodigal Pyromancer", &[]);
    resolve_top(&mut sick);
    assert!(
        !sick
            .legal_actions(Seat(0))
            .iter()
            .any(|a| matches!(a, Action::ActivateAbility { .. })),
        "summoning sick: no {{T}}"
    );
}

#[test]
fn elves_make_mana_and_the_archdruid_scales_with_elves() {
    let mut game = TestGame::new(db(), 2)
        .battlefield(Seat(0), "Llanowar Elves")
        .battlefield(Seat(0), "Elvish Mystic")
        .battlefield(Seat(0), "Elvish Archdruid")
        .battlefield(Seat(0), "Forest")
        .battlefield(Seat(0), "Forest")
        .battlefield(Seat(0), "Forest")
        .hand(Seat(0), "Craw Wurm")
        .build().unwrap();
    let elves = bf(&game, Seat(0), "Llanowar Elves");
    assert_eq!(game.effective_stats(elves), Some((2, 2)), "lord");
    let sources = game.mana_sources_with_amounts(Seat(0));
    let druid = bf(&game, Seat(0), "Elvish Archdruid");
    assert_eq!(
        sources.iter().find(|(id, _, _)| *id == druid).map(|(_, _, n)| *n),
        Some(3),
        "three Elves"
    );
    let wurm = hand_card(&game, Seat(0), "Craw Wurm");
    assert!(
        game.legal_actions(Seat(0))
            .iter()
            .any(|a| matches!(a, Action::CastSpell { object, .. } if *object == wurm)),
        "{{4}}{{G}}{{G}} from 3 Forests + Elves"
    );
    cast(&mut game, Seat(0), "Craw Wurm", &[]);
    assert!(obj(&game, druid).tapped || obj(&game, elves).tapped);
}

#[test]
fn sacrifice_costs_enumerate_each_candidate() {
    let mut game = TestGame::new(db_with_extras(), 2)
        .battlefield(Seat(0), "Test Sac Outlet")
        .battlefield(Seat(0), "Grizzly Bears")
        .build().unwrap();
    let bears = bf(&game, Seat(0), "Grizzly Bears");
    let acts: Vec<Action> = game
        .legal_actions(Seat(0))
        .into_iter()
        .filter(|a| matches!(a, Action::ActivateAbility { .. }))
        .collect();
    assert_eq!(acts.len(), 2, "sacrifice itself or the bears: {acts:?}");
    let sac_bears = acts
        .iter()
        .find(|a| matches!(a, Action::ActivateAbility { payment, .. } if payment.sacrifice == vec![bears]))
        .unwrap()
        .clone();
    game.apply(Seat(0), &sac_bears).unwrap();
    assert_eq!(obj(&game, bears).zone, Zone::Graveyard);
    resolve_top(&mut game);
    assert_eq!(game.players[0].life, 22);
}

// ----- statics, auras, equipment, tokens -----

#[test]
fn goblin_chieftain_grants_haste_to_other_goblins() {
    let mut game = TestGame::new(db(), 2)
        .battlefield(Seat(0), "Goblin Chieftain")
        .battlefield(Seat(0), "Mountain")
        .battlefield(Seat(0), "Mountain")
        .hand(Seat(0), "Goblin Piker")
        .build().unwrap();
    cast(&mut game, Seat(0), "Goblin Piker", &[]);
    resolve_top(&mut game);
    let piker = bf(&game, Seat(0), "Goblin Piker");
    assert!(obj(&game, piker).summoning_sick);
    assert!(game.has_keyword(piker, Keyword::Haste));
    assert_eq!(game.effective_stats(piker), Some((3, 2)));
    assert!(game.attack_candidates(Seat(0)).contains(&piker), "haste lets it attack");
}

#[test]
fn auras_attach_and_fall_off_when_the_creature_dies() {
    let mut game = TestGame::new(db(), 2)
        .battlefield(Seat(0), "Plains")
        .battlefield(Seat(0), "Grizzly Bears")
        .hand(Seat(0), "Holy Strength")
        .battlefield(Seat(1), "Mountain")
        .battlefield(Seat(1), "Mountain")
        .hand(Seat(1), "Lightning Strike")
        .build().unwrap();
    let bears = bf(&game, Seat(0), "Grizzly Bears");
    let aura = hand_card(&game, Seat(0), "Holy Strength");
    cast(&mut game, Seat(0), "Holy Strength", &[Target::Object(bears)]);
    resolve_top(&mut game);
    assert_eq!(obj(&game, aura).attached_to, Some(bears));
    assert_eq!(game.effective_stats(bears), Some((3, 4)));
    game.apply(Seat(0), &Action::PassPriority).unwrap();
    cast(&mut game, Seat(1), "Lightning Strike", &[Target::Object(bears)]);
    resolve_top(&mut game);
    assert_eq!(obj(&game, bears).zone, Zone::Battlefield, "3 damage on a 3/4");
    assert_eq!(obj(&game, bears).damage, 3);
}

#[test]
fn equipment_equips_at_sorcery_speed_and_survives_its_bearer() {
    let mut game = TestGame::new(db(), 2)
        .battlefield(Seat(0), "Plains")
        .battlefield(Seat(0), "Plains")
        .battlefield(Seat(0), "Grizzly Bears")
        .hand(Seat(0), "Bonesplitter")
        .battlefield(Seat(1), "Hill Giant")
        .build().unwrap();
    let bears = bf(&game, Seat(0), "Grizzly Bears");
    cast(&mut game, Seat(0), "Bonesplitter", &[]);
    resolve_top(&mut game);
    let axe = bf(&game, Seat(0), "Bonesplitter");
    let equip = game
        .legal_actions(Seat(0))
        .into_iter()
        .find(|a| matches!(a, Action::ActivateAbility { object, ability, .. } if *object == axe && *ability == EQUIP_ABILITY))
        .expect("equip is offered");
    game.apply(Seat(0), &equip).unwrap();
    resolve_top(&mut game);
    assert_eq!(obj(&game, axe).attached_to, Some(bears));
    assert_eq!(game.effective_stats(bears), Some((4, 2)));
    // Attack into the giant; the bears die, the axe stays.
    let giant = bf(&game, Seat(1), "Hill Giant");
    attack_with(&mut game, Seat(0), &[bears], Seat(1));
    block_with(&mut game, Seat(1), &[(giant, bears)]);
    assert_eq!(obj(&game, bears).zone, Zone::Graveyard);
    assert_eq!(obj(&game, giant).zone, Zone::Graveyard, "4 power kills a 3/3");
    assert_eq!(obj(&game, axe).zone, Zone::Battlefield);
    assert_eq!(obj(&game, axe).attached_to, None);
}

#[test]
fn raise_the_alarm_makes_tokens_that_cease_to_exist_when_they_die() {
    let mut game = TestGame::new(db(), 2)
        .battlefield(Seat(0), "Plains")
        .battlefield(Seat(0), "Plains")
        .hand(Seat(0), "Raise the Alarm")
        .battlefield(Seat(1), "Mountain")
        .hand(Seat(1), "Shock")
        .build().unwrap();
    cast(&mut game, Seat(0), "Raise the Alarm", &[]);
    resolve_top(&mut game);
    let soldiers = bfs(&game, Seat(0), "Soldier");
    assert_eq!(soldiers.len(), 2);
    assert_eq!(game.effective_stats(soldiers[0]), Some((1, 1)));
    assert!(game.view(Seat(1)).object(soldiers[0]).unwrap().token);
    game.apply(Seat(0), &Action::PassPriority).unwrap();
    cast(&mut game, Seat(1), "Shock", &[Target::Object(soldiers[0])]);
    resolve_top(&mut game);
    assert_eq!(obj(&game, soldiers[0]).zone, Zone::OutOfGame);
    let graveyard_names: Vec<&str> = game.players[0].graveyard.iter().map(|&id| game.object_name(id)).collect();
    assert_eq!(graveyard_names, vec!["Raise the Alarm"], "the token never lands in the graveyard");
}

#[test]
fn counters_change_stats_and_annihilate() {
    let mut game = TestGame::new(db_with_extras(), 2)
        .battlefield(Seat(0), "Forest")
        .battlefield(Seat(0), "Grizzly Bears")
        .hand(Seat(0), "Test Counters")
        .build().unwrap();
    let bears = bf(&game, Seat(0), "Grizzly Bears");
    cast(&mut game, Seat(0), "Test Counters", &[Target::Object(bears)]);
    resolve_top(&mut game);
    assert_eq!(game.effective_stats(bears), Some((4, 4)));
    assert_eq!(game.view(Seat(0)).object(bears).unwrap().counters, 2);
    game.objects.get_mut(bears).unwrap().counters.minus1 = 1;
    game.apply(Seat(0), &Action::PassPriority).unwrap();
    assert_eq!((obj(&game, bears).counters.plus1, obj(&game, bears).counters.minus1), (1, 0));
}

// ----- keywords in combat -----

#[test]
fn flying_needs_flying_or_reach_to_block() {
    let mut game = TestGame::new(db(), 2)
        .battlefield(Seat(0), "Wind Drake")
        .battlefield(Seat(1), "Grizzly Bears")
        .battlefield(Seat(1), "Wall of Vines")
        .build().unwrap();
    let drake = bf(&game, Seat(0), "Wind Drake");
    let bears = bf(&game, Seat(1), "Grizzly Bears");
    let wall = bf(&game, Seat(1), "Wall of Vines");
    attack_with(&mut game, Seat(0), &[drake], Seat(1));
    let err = game
        .apply(
            Seat(1),
            &Action::DeclareBlockers {
                blocks: vec![(bears, drake)],
            },
        )
        .unwrap_err();
    assert!(matches!(err, RulesError::IllegalAction { .. }));
    assert!(!game.legal_actions(Seat(1)).contains(&Action::DeclareBlockers {
        blocks: vec![(bears, drake)]
    }));
    block_with(&mut game, Seat(1), &[(wall, drake)]);
    assert_eq!(obj(&game, drake).damage, 0, "a 0/3 wall deals nothing");
    assert_eq!(obj(&game, wall).damage, 2);
    assert!(!game.attack_candidates(Seat(1)).contains(&wall), "defender");
}

#[test]
fn first_strike_kills_before_taking_damage() {
    let mut game = TestGame::new(db(), 2)
        .battlefield(Seat(0), "Youthful Knight")
        .battlefield(Seat(1), "Grizzly Bears")
        .build().unwrap();
    let knight = bf(&game, Seat(0), "Youthful Knight");
    let bears = bf(&game, Seat(1), "Grizzly Bears");
    attack_with(&mut game, Seat(0), &[knight], Seat(1));
    block_with(&mut game, Seat(1), &[(bears, knight)]);
    assert_eq!(obj(&game, bears).zone, Zone::Graveyard);
    assert_eq!(obj(&game, knight).zone, Zone::Battlefield);
    assert_eq!(obj(&game, knight).damage, 0, "the bears never dealt damage");
    assert_eq!(game.phase, Phase::CombatDamage);
    // Priority after first-strike damage, then the regular round passes with no one left.
    pass_both(&mut game);
    assert_eq!(game.phase, Phase::CombatDamage);
    pass_both(&mut game);
    assert_eq!(game.phase, Phase::EndCombat);
}

#[test]
fn double_strike_hits_in_both_rounds() {
    let mut game = TestGame::new(db_with_extras(), 2).battlefield(Seat(0), "Double Bear").build().unwrap();
    let bear = bf(&game, Seat(0), "Double Bear");
    attack_with(&mut game, Seat(0), &[bear], Seat(1));
    game.apply(Seat(1), &Action::DeclareBlockers { blocks: vec![] }).unwrap();
    pass_both(&mut game);
    assert_eq!(game.players[1].life, 18, "first strike round");
    pass_both(&mut game);
    assert_eq!(game.players[1].life, 16, "regular round");
}

#[test]
fn deathtouch_lifelink_and_indestructible() {
    let mut game = TestGame::new(db_with_extras(), 2)
        .battlefield(Seat(0), "Typhoid Rats")
        .battlefield(Seat(0), "Child of Night")
        .battlefield(Seat(1), "Hill Giant")
        .battlefield(Seat(1), "Stone Bear")
        .build().unwrap();
    let rats = bf(&game, Seat(0), "Typhoid Rats");
    let child = bf(&game, Seat(0), "Child of Night");
    let giant = bf(&game, Seat(1), "Hill Giant");
    let stone = bf(&game, Seat(1), "Stone Bear");
    attack_with(&mut game, Seat(0), &[rats, child], Seat(1));
    block_with(&mut game, Seat(1), &[(giant, rats), (stone, child)]);
    assert_eq!(obj(&game, giant).zone, Zone::Graveyard, "deathtouch");
    assert_eq!(obj(&game, rats).zone, Zone::Graveyard);
    assert_eq!(obj(&game, stone).zone, Zone::Battlefield, "indestructible survives lethal damage");
    assert_eq!(obj(&game, stone).damage, 2);
    assert_eq!(game.players[0].life, 22, "lifelink on a blocked creature still gains");
    assert_eq!(obj(&game, child).zone, Zone::Graveyard);
}

#[test]
fn trample_assigns_the_rest_to_the_player() {
    let mut game = TestGame::new(db(), 2)
        .battlefield(Seat(0), "Colossal Dreadmaw")
        .battlefield(Seat(1), "Grizzly Bears")
        .build().unwrap();
    let maw = bf(&game, Seat(0), "Colossal Dreadmaw");
    let bears = bf(&game, Seat(1), "Grizzly Bears");
    attack_with(&mut game, Seat(0), &[maw], Seat(1));
    block_with(&mut game, Seat(1), &[(bears, maw)]);
    assert!(
        matches!(game.pending, Some(PendingChoice::AssignDamage { seat: Seat(0), .. })),
        "trample with a blocker is a choice"
    );
    let suggestions = game.legal_actions(Seat(0));
    let lethal_then_player = Action::AssignCombatDamage {
        attacker: maw,
        assignments: vec![(DamageTarget::Object(bears), 2), (DamageTarget::Player(Seat(1)), 4)],
    };
    assert!(
        suggestions.iter().any(|a| a.canonical() == lethal_then_player.canonical()),
        "{suggestions:?}"
    );
    let greedy = Action::AssignCombatDamage {
        attacker: maw,
        assignments: vec![(DamageTarget::Object(bears), 1), (DamageTarget::Player(Seat(1)), 5)],
    };
    assert!(
        matches!(game.apply(Seat(0), &greedy), Err(RulesError::IllegalAction { .. })),
        "lethal first"
    );
    game.apply(Seat(0), &lethal_then_player).unwrap();
    assert_eq!(game.players[1].life, 16);
    assert_eq!(obj(&game, bears).zone, Zone::Graveyard);
}

#[test]
fn vigilance_haste_menace_and_flash() {
    let mut game = TestGame::new(db_with_extras(), 2)
        .battlefield(Seat(0), "Serra Angel")
        .battlefield(Seat(0), "Menace Bear")
        .battlefield(Seat(0), "Mountain")
        .hand(Seat(0), "Raging Goblin")
        .battlefield(Seat(1), "Grizzly Bears")
        .battlefield(Seat(1), "Hill Giant")
        .battlefield(Seat(1), "Forest")
        .battlefield(Seat(1), "Forest")
        .hand(Seat(1), "Flash Bear")
        .build().unwrap();
    cast(&mut game, Seat(0), "Raging Goblin", &[]);
    resolve_top(&mut game);
    let goblin = bf(&game, Seat(0), "Raging Goblin");
    let angel = bf(&game, Seat(0), "Serra Angel");
    let menace = bf(&game, Seat(0), "Menace Bear");
    assert!(game.attack_candidates(Seat(0)).contains(&goblin), "haste");
    attack_with(&mut game, Seat(0), &[angel, menace, goblin], Seat(1));
    assert!(!obj(&game, angel).tapped, "vigilance");
    assert!(obj(&game, goblin).tapped);
    // Flash: seat 1 can cast a creature during combat, before blocks.
    // (Blockers are pending for seat 1; priority passed already, so test flash on their priority instead.)
    let bears = bf(&game, Seat(1), "Grizzly Bears");
    let giant = bf(&game, Seat(1), "Hill Giant");
    let one_block = Action::DeclareBlockers {
        blocks: vec![(bears, menace)],
    };
    assert!(
        matches!(game.apply(Seat(1), &one_block), Err(RulesError::IllegalAction { .. })),
        "menace"
    );
    block_with(&mut game, Seat(1), &[(bears, menace), (giant, menace)]);
    assert!(matches!(game.pending, Some(PendingChoice::AssignDamage { .. })));
    let split = game
        .legal_actions(Seat(0))
        .into_iter()
        .find(|a| matches!(a, Action::AssignCombatDamage { .. }))
        .unwrap();
    game.apply(Seat(0), &split).unwrap();
    assert_eq!(obj(&game, menace).zone, Zone::Graveyard);
    // Now in the combat damage step with priority: flash creature is castable at instant speed.
    game.apply(Seat(0), &Action::PassPriority).unwrap();
    assert_eq!(game.priority, Some(Seat(1)));
    let flash = hand_card(&game, Seat(1), "Flash Bear");
    assert!(
        game.legal_actions(Seat(1))
            .iter()
            .any(|a| matches!(a, Action::CastSpell { object, .. } if *object == flash)),
        "flash"
    );
}

#[test]
fn hexproof_blocks_opponents_targets_but_not_your_own() {
    let mut game = TestGame::new(db_with_extras(), 2)
        .battlefield(Seat(0), "Mountain")
        .battlefield(Seat(0), "Mountain")
        .hand(Seat(0), "Lightning Strike")
        .battlefield(Seat(1), "Hexproof Bear")
        .battlefield(Seat(1), "Forest")
        .hand(Seat(1), "Giant Growth")
        .build().unwrap();
    let bear = bf(&game, Seat(1), "Hexproof Bear");
    let strikes: Vec<Action> = game
        .legal_actions(Seat(0))
        .into_iter()
        .filter(|a| matches!(a, Action::CastSpell { .. }))
        .collect();
    assert!(!strikes
        .iter()
        .any(|a| matches!(a, Action::CastSpell { targets, .. } if targets.contains(&Target::Object(bear)))));
    assert_eq!(strikes.len(), 2, "only the two players");
    game.apply(Seat(0), &Action::PassPriority).unwrap();
    assert!(
        game.legal_actions(Seat(1))
            .iter()
            .any(|a| matches!(a, Action::CastSpell { targets, .. } if targets.contains(&Target::Object(bear)))),
        "its controller can target it"
    );
}

// ----- interpreter primitives not yet used by a cube card -----

#[test]
fn exile_tap_untap_drain_conditional_and_granted_flying() {
    let mut game = TestGame::new(db_with_extras(), 2)
        .battlefield(Seat(0), "Plains")
        .battlefield(Seat(0), "Island")
        .battlefield(Seat(0), "Island")
        .battlefield(Seat(0), "Island")
        .battlefield(Seat(0), "Swamp")
        .battlefield(Seat(0), "Forest")
        .battlefield(Seat(0), "Forest")
        .battlefield(Seat(0), "Grizzly Bears")
        .hand(Seat(0), "Test Exile")
        .hand(Seat(0), "Test Tap")
        .hand(Seat(0), "Test Untap")
        .hand(Seat(0), "Test Drain")
        .hand(Seat(0), "Test Conditional")
        .hand(Seat(0), "Test Wings")
        .battlefield(Seat(1), "Hill Giant")
        .build().unwrap();
    let giant = bf(&game, Seat(1), "Hill Giant");
    let bears = bf(&game, Seat(0), "Grizzly Bears");

    cast(&mut game, Seat(0), "Test Tap", &[Target::Object(giant)]);
    resolve_top(&mut game);
    assert!(obj(&game, giant).tapped);
    cast(&mut game, Seat(0), "Test Untap", &[Target::Object(giant)]);
    resolve_top(&mut game);
    assert!(!obj(&game, giant).tapped);

    cast(&mut game, Seat(0), "Test Wings", &[Target::Object(bears)]);
    resolve_top(&mut game);
    assert!(game.has_keyword(bears, Keyword::Flying));
    assert!(game.view(Seat(1)).object(bears).unwrap().keywords.contains(&Keyword::Flying));

    cast(&mut game, Seat(0), "Test Drain", &[]);
    resolve_top(&mut game);
    assert_eq!(game.players[1].life, 18);
    assert_eq!(game.players[0].life, 22);

    let hand_before = game.players[0].hand.len();
    cast(&mut game, Seat(0), "Test Conditional", &[]);
    resolve_top(&mut game);
    assert_eq!(game.players[0].hand.len(), hand_before, "cast one, drew one");

    cast(&mut game, Seat(0), "Test Exile", &[Target::Object(giant)]);
    resolve_top(&mut game);
    assert_eq!(obj(&game, giant).zone, Zone::Exile);
}

#[test]
fn views_describe_the_stack_and_abilities() {
    let mut game = TestGame::new(db(), 2)
        .battlefield(Seat(0), "Prodigal Pyromancer")
        .battlefield(Seat(0), "Furnace Whelp")
        .battlefield(Seat(0), "Mountain")
        .build().unwrap();
    let view = game.view(Seat(0));
    let pinger = bf(&game, Seat(0), "Prodigal Pyromancer");
    assert_eq!(
        view.object(pinger).unwrap().abilities,
        vec!["{T}: ~ deals 1 damage to any target.".to_string()]
    );
    let ping = game
        .legal_actions(Seat(0))
        .into_iter()
        .find(|a| matches!(a, Action::ActivateAbility { object, targets, .. } if *object == pinger && targets == &vec![Target::Player(Seat(1))]))
        .unwrap();
    let text = describe_action(&game, &ping);
    assert!(text.contains("deals 1 damage") && text.contains("P1"), "{text}");
    game.apply(Seat(0), &ping).unwrap();
    let view = game.view(Seat(1));
    assert_eq!(view.stack[0].kind, "ability");
    assert!(view.stack[0].description.contains("deals 1 damage"));
    let rendered = render_view(&view);
    assert!(rendered.contains("[ability:"), "{rendered}");
    assert!(rendered.contains("flying"), "keywords in the text view: {rendered}");
}

#[test]
fn big_mana_producers_are_offered_and_custom_payments_are_accepted() {
    let mut game = TestGame::new(db(), 2)
        .battlefield(Seat(0), "Elvish Archdruid")
        .battlefield(Seat(0), "Llanowar Elves")
        .battlefield(Seat(0), "Llanowar Elves")
        .battlefield(Seat(0), "Elvish Mystic")
        .battlefield(Seat(0), "Forest")
        .battlefield(Seat(0), "Forest")
        .battlefield(Seat(0), "Forest")
        .hand(Seat(0), "Overrun")
        .hand(Seat(0), "Giant Growth")
        .build().unwrap();
    let druid = bf(&game, Seat(0), "Elvish Archdruid");
    let forests = bfs(&game, Seat(0), "Forest");
    let overrun = hand_card(&game, Seat(0), "Overrun");
    let payments: Vec<manaline::ManaPayment> = game
        .legal_actions(Seat(0))
        .into_iter()
        .filter_map(|a| match a {
            Action::CastSpell { object, payment, .. } if object == overrun => Some(payment),
            _ => None,
        })
        .collect();
    // Lands first: three Forests plus the Archdruid (one creature, not two Elves).
    assert!(
        payments
            .iter()
            .any(|p| p.tap.len() == 4 && p.tap.contains(&druid) && forests.iter().all(|f| p.tap.contains(f))),
        "{payments:?}"
    );
    // Producers first: the Archdruid (4 mana) plus one Forest.
    assert!(payments.iter().any(|p| p.tap.len() == 2 && p.tap.contains(&druid)), "{payments:?}");

    // A hand-built payment that covers the cost is accepted even though it was never listed:
    // the Archdruid and one specific Forest, leaving the other two up for Giant Growth.
    let custom = Action::CastSpell {
        object: overrun,
        targets: vec![],
        payment: manaline::ManaPayment {
            tap: vec![druid, forests[2]],
            ..Default::default()
        },
    };
    game.apply(Seat(0), &custom).unwrap();
    assert!(obj(&game, druid).tapped);
    assert!(obj(&game, forests[2]).tapped);
    assert!(!obj(&game, forests[0]).tapped && !obj(&game, forests[1]).tapped);
    resolve_top(&mut game);
    let growth = hand_card(&game, Seat(0), "Giant Growth");
    assert!(
        game.legal_actions(Seat(0))
            .iter()
            .any(|a| matches!(a, Action::CastSpell { object, .. } if *object == growth)),
        "Forests left up"
    );

    // One that does not cover the cost is refused.
    let short = Action::CastSpell {
        object: growth,
        targets: vec![Target::Object(druid)],
        payment: manaline::ManaPayment {
            tap: vec![druid],
            ..Default::default()
        },
    };
    assert!(
        matches!(game.apply(Seat(0), &short), Err(RulesError::IllegalAction { .. })),
        "tapped source"
    );
}
