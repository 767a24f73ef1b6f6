//! The card language: what a card's text does, as data the engine interprets.
//!
//! Nested parts are shared, so copying an expression yields the very same
//! expression. Wording that menus show for an ability, a mode or an optional
//! effect travels with it as plain text.
use crate::seqs::share;
use crate::types::{CardType, Color, Keyword, ManaCost, Supertype};
use std::sync::Arc;
use vstd::prelude::*;

verus! {

/// How many things a "target" word or a choice picks.
#[derive(Copy, Clone, Debug, PartialEq, Eq, Hash, Structural)]
pub enum Quantity {
    Exactly(u8),
    UpTo(u8),
    AnyNumber,
}

/// The name something picked during a resolution is remembered by.
#[derive(Copy, Clone, Debug, PartialEq, Eq, Hash, Structural)]
pub enum Bind {
    /// A name written on the card.
    Card(u32),
    /// What a player picked to sacrifice.
    Sacrifice,
    /// What a player picked to discard.
    Discard,
    /// Whether a player did something they may do.
    May,
    /// The cards a source had exiled when it left the battlefield.
    Exiled,
    /// A pick an effect made without naming it.
    Chosen(u32),
}

/// Players, relative to a spell or ability.
#[derive(Debug, PartialEq, Eq)]
pub enum PlayerRef {
    You,
    TargetPlayer(u8),
    TargetOpponent(u8),
    EachOpponent,
    EachPlayer,
    Triggering,
    Controller(Arc<Ref>),
    Owner(Arc<Ref>),
}

impl Clone for PlayerRef {
    fn clone(&self) -> (r: PlayerRef)
        ensures
            r == *self,
    {
        match self {
            PlayerRef::You => PlayerRef::You,
            PlayerRef::TargetPlayer(i) => PlayerRef::TargetPlayer(*i),
            PlayerRef::TargetOpponent(i) => PlayerRef::TargetOpponent(*i),
            PlayerRef::EachOpponent => PlayerRef::EachOpponent,
            PlayerRef::EachPlayer => PlayerRef::EachPlayer,
            PlayerRef::Triggering => PlayerRef::Triggering,
            PlayerRef::Controller(r) => PlayerRef::Controller(share(r)),
            PlayerRef::Owner(r) => PlayerRef::Owner(share(r)),
        }
    }
}

/// Objects (and players), relative to a spell or ability.
#[derive(Debug, PartialEq, Eq)]
pub enum Ref {
    /// Everything picked for the i-th "target" word.
    Target(u8),
    This,
    ExiledWithThis,
    Triggering,
    Each(Arc<Filter>),
    Player(PlayerRef),
    Attached,
    Named(Bind),
    /// A pick the effect asks for as it resolves.
    Chosen { who: PlayerRef, filter: Arc<Filter>, count: Quantity, bind: Option<Bind> },
}

impl Clone for Ref {
    fn clone(&self) -> (r: Ref)
        ensures
            r == *self,
    {
        match self {
            Ref::Target(i) => Ref::Target(*i),
            Ref::This => Ref::This,
            Ref::ExiledWithThis => Ref::ExiledWithThis,
            Ref::Triggering => Ref::Triggering,
            Ref::Each(f) => Ref::Each(share(f)),
            Ref::Player(p) => Ref::Player(p.clone()),
            Ref::Attached => Ref::Attached,
            Ref::Named(b) => Ref::Named(*b),
            Ref::Chosen { who, filter, count, bind } => Ref::Chosen {
                who: who.clone(),
                filter: share(filter),
                count: *count,
                bind: *bind,
            },
        }
    }
}

/// Which objects or players something applies to.
#[derive(Debug, PartialEq, Eq)]
pub enum Filter {
    /// "up to two target ...": a target word with its own count.
    Targets(Quantity, Arc<Filter>),
    /// "any target"
    Any,
    Creature,
    Land,
    Artifact,
    Enchantment,
    Instant,
    Sorcery,
    Permanent,
    InGraveyard(PlayerRef),
    Player,
    Opponent,
    Spell,
    Other,
    This,
    Attached,
    Token,
    Subtype(String),
    Color(Color),
    ControlledBy(PlayerRef),
    Tapped,
    Untapped,
    Attacking,
    Blocking,
    PowerAtLeast(i32),
    PowerAtMost(i32),
    ManaValueAtMost(i32),
    HasKeyword(Keyword),
    And(Arc<Vec<Filter>>),
    Or(Arc<Vec<Filter>>),
    Not(Arc<Filter>),
}

impl Clone for Filter {
    fn clone(&self) -> (r: Filter)
        ensures
            r == *self,
    {
        match self {
            Filter::Targets(q, f) => Filter::Targets(*q, share(f)),
            Filter::Any => Filter::Any,
            Filter::Creature => Filter::Creature,
            Filter::Land => Filter::Land,
            Filter::Artifact => Filter::Artifact,
            Filter::Enchantment => Filter::Enchantment,
            Filter::Instant => Filter::Instant,
            Filter::Sorcery => Filter::Sorcery,
            Filter::Permanent => Filter::Permanent,
            Filter::InGraveyard(p) => Filter::InGraveyard(p.clone()),
            Filter::Player => Filter::Player,
            Filter::Opponent => Filter::Opponent,
            Filter::Spell => Filter::Spell,
            Filter::Other => Filter::Other,
            Filter::This => Filter::This,
            Filter::Attached => Filter::Attached,
            Filter::Token => Filter::Token,
            Filter::Subtype(s) => Filter::Subtype(s.clone()),
            Filter::Color(c) => Filter::Color(*c),
            Filter::ControlledBy(p) => Filter::ControlledBy(p.clone()),
            Filter::Tapped => Filter::Tapped,
            Filter::Untapped => Filter::Untapped,
            Filter::Attacking => Filter::Attacking,
            Filter::Blocking => Filter::Blocking,
            Filter::PowerAtLeast(n) => Filter::PowerAtLeast(*n),
            Filter::PowerAtMost(n) => Filter::PowerAtMost(*n),
            Filter::ManaValueAtMost(n) => Filter::ManaValueAtMost(*n),
            Filter::HasKeyword(k) => Filter::HasKeyword(*k),
            Filter::And(fs) => Filter::And(share(fs)),
            Filter::Or(fs) => Filter::Or(share(fs)),
            Filter::Not(f) => Filter::Not(share(f)),
        }
    }
}

impl Filter {
    /// The filter one target has to match.
    pub open spec fn inner(self) -> Filter {
        match self {
            Filter::Targets(_, f) => *f,
            f => f,
        }
    }

    /// The fewest targets the spec takes.
    pub open spec fn least(self) -> nat {
        match self {
            Filter::Targets(Quantity::Exactly(n), _) => n as nat,
            Filter::Targets(_, _) => 0,
            _ => 1,
        }
    }

    /// The most targets the spec takes; `None` for no limit.
    pub open spec fn most(self) -> Option<nat> {
        match self {
            Filter::Targets(Quantity::Exactly(n), _) => Some(n as nat),
            Filter::Targets(Quantity::UpTo(n), _) => Some(n as nat),
            Filter::Targets(Quantity::AnyNumber, _) => None,
            _ => Some(1),
        }
    }

    /// The caster picks how many targets the spec takes.
    pub open spec fn variable(self) -> bool {
        self matches Filter::Targets(q, _) && !(q is Exactly)
    }

    /// Whether the caster picks how many targets this spec takes.
    pub fn is_variable(&self) -> (b: bool)
        ensures
            b == self.variable(),
    {
        matches!(
            self,
            Filter::Targets(Quantity::UpTo(_), _) | Filter::Targets(Quantity::AnyNumber, _)
        )
    }

    /// The filter each target must match, and the fewest and most targets.
    pub fn spec_bounds(&self) -> (r: (&Filter, usize, Option<usize>))
        ensures
            *r.0 == self.inner(),
            r.1 == self.least(),
            match r.2 {
                Some(n) => self.most() == Some(n as nat),
                None => self.most() is None,
            },
    {
        match self {
            Filter::Targets(Quantity::Exactly(n), f) => (&**f, *n as usize, Some(*n as usize)),
            Filter::Targets(Quantity::UpTo(n), f) => (&**f, 0, Some(*n as usize)),
            Filter::Targets(Quantity::AnyNumber, f) => (&**f, 0, None),
            _ => (self, 1, Some(1)),
        }
    }

    pub fn and(fs: Vec<Filter>) -> (r: Filter)
        ensures
            r == Filter::And(Arc::new(fs)),
    {
        Filter::And(Arc::new(fs))
    }

    pub fn or(fs: Vec<Filter>) -> (r: Filter)
        ensures
            r == Filter::Or(Arc::new(fs)),
    {
        Filter::Or(Arc::new(fs))
    }

    pub fn not(f: Filter) -> (r: Filter)
        ensures
            r == Filter::Not(Arc::new(f)),
    {
        Filter::Not(Arc::new(f))
    }
}

pub fn copied_filters(v: &Vec<Filter>) -> (r: Vec<Filter>)
    ensures
        r@ == v@,
{
    let mut r: Vec<Filter> = Vec::new();
    let mut i: usize = 0;
    while i < v.len()
        invariant
            i <= v.len(),
            r@ == v@.subrange(0, i as int),
        decreases v.len() - i,
    {
        r.push(v[i].clone());
        i = i + 1;
    }
    assert(v@.subrange(0, v@.len() as int) =~= v@);
    r
}

/// A number, read off the game when it is needed.
#[derive(Debug, PartialEq, Eq)]
pub enum Amount {
    Const(i32),
    /// How many permanents match.
    Count(Filter),
    LifeOf(PlayerRef),
    PowerOf(Ref),
    X,
    Neg(Arc<Amount>),
}

impl Clone for Amount {
    fn clone(&self) -> (r: Amount)
        ensures
            r == *self,
    {
        match self {
            Amount::Const(n) => Amount::Const(*n),
            Amount::Count(f) => Amount::Count(f.clone()),
            Amount::LifeOf(p) => Amount::LifeOf(p.clone()),
            Amount::PowerOf(r) => Amount::PowerOf(r.clone()),
            Amount::X => Amount::X,
            Amount::Neg(a) => Amount::Neg(share(a)),
        }
    }
}

#[derive(Debug, PartialEq, Eq)]
pub enum Condition {
    Controls { player: PlayerRef, filter: Filter, at_least: i32 },
    LifeAtLeast { player: PlayerRef, amount: i32 },
    LifeAtMost { player: PlayerRef, amount: i32 },
}

impl Clone for Condition {
    fn clone(&self) -> (r: Condition)
        ensures
            r == *self,
    {
        match self {
            Condition::Controls { player, filter, at_least } => Condition::Controls {
                player: player.clone(),
                filter: filter.clone(),
                at_least: *at_least,
            },
            Condition::LifeAtLeast { player, amount } => Condition::LifeAtLeast {
                player: player.clone(),
                amount: *amount,
            },
            Condition::LifeAtMost { player, amount } => Condition::LifeAtMost {
                player: player.clone(),
                amount: *amount,
            },
        }
    }
}

/// An ability that applies all the time while its source is on the battlefield.
#[derive(Debug, PartialEq, Eq)]
pub enum Static {
    PtBoost { filter: Filter, power: Amount, toughness: Amount, keywords: Arc<Vec<Keyword>> },
    GrantKeyword { filter: Filter, keyword: Keyword },
    CostReduction { filter: Filter, amount: Amount },
    AsLongAs { condition: Condition, static_: Arc<Static> },
}

impl Clone for Static {
    fn clone(&self) -> (r: Static)
        ensures
            r == *self,
    {
        match self {
            Static::PtBoost { filter, power, toughness, keywords } => Static::PtBoost {
                filter: filter.clone(),
                power: power.clone(),
                toughness: toughness.clone(),
                keywords: share(keywords),
            },
            Static::GrantKeyword { filter, keyword } => Static::GrantKeyword {
                filter: filter.clone(),
                keyword: *keyword,
            },
            Static::CostReduction { filter, amount } => Static::CostReduction {
                filter: filter.clone(),
                amount: amount.clone(),
            },
            Static::AsLongAs { condition, static_ } => Static::AsLongAs {
                condition: condition.clone(),
                static_: share(static_),
            },
        }
    }
}

/// How long an effect lasts.
#[derive(Copy, Clone, Debug, PartialEq, Eq, Hash, Structural)]
pub enum Duration {
    EndOfTurn,
    UntilYourNextTurn,
}

/// When a delayed trigger fires.
#[derive(Copy, Clone, Debug, PartialEq, Eq, Hash, Structural)]
pub enum DelayedAt {
    NextEndStep,
}

#[derive(Copy, Clone, Debug, PartialEq, Eq, Hash, Structural)]
pub enum CounterKind {
    Plus1Plus1,
    Minus1Minus1,
}

impl CounterKind {
    pub open spec fn words(self) -> Seq<char> {
        match self {
            CounterKind::Plus1Plus1 => "Plus1Plus1"@,
            CounterKind::Minus1Minus1 => "Minus1Minus1"@,
        }
    }

    pub fn name(self) -> (r: &'static str)
        ensures
            r@ == self.words(),
    {
        match self {
            CounterKind::Plus1Plus1 => "Plus1Plus1",
            CounterKind::Minus1Minus1 => "Minus1Minus1",
        }
    }
}

/// Where a card returned from a graveyard goes.
#[derive(Copy, Clone, Debug, PartialEq, Eq, Hash, Structural)]
pub enum ReturnZone {
    Hand,
    Battlefield,
}

/// Something a permanent may not do.
#[derive(Copy, Clone, Debug, PartialEq, Eq, Hash, Structural)]
pub enum Restriction {
    CantAttack,
    CantBlock,
}

/// A token as an effect describes it.
#[derive(Debug, PartialEq, Eq)]
pub struct TokenSpec {
    pub name: String,
    pub types: Vec<CardType>,
    pub subtypes: Vec<String>,
    pub pt: Option<(i32, i32)>,
    pub keywords: Vec<Keyword>,
    pub colors: Vec<Color>,
}

#[derive(Debug, PartialEq, Eq)]
pub enum Effect {
    DealDamage { amount: Amount, to: Ref },
    Destroy { target: Ref },
    Exile { target: Ref },
    Draw { player: PlayerRef, count: Amount },
    Discard { player: PlayerRef, count: Amount, random: bool },
    GainLife { player: PlayerRef, amount: Amount },
    LoseLife { player: PlayerRef, amount: Amount },
    ModifyPt {
        target: Ref,
        power: Amount,
        toughness: Amount,
        keywords: Arc<Vec<Keyword>>,
        until: Duration,
    },
    GrantKeyword { target: Ref, keyword: Keyword, until: Duration },
    CreateToken { spec: Arc<TokenSpec>, count: Amount },
    AddCounters { target: Ref, kind: CounterKind, count: Amount },
    AddMana { color: Option<Color>, amount: Amount },
    Tap { target: Ref },
    Untap { target: Ref },
    ReturnToHand { target: Ref },
    CounterSpell { target: Ref },
    Sacrifice { player: PlayerRef, filter: Filter, count: Amount },
    Mill { player: PlayerRef, count: Amount },
    ReturnFromGraveyard { target: Ref, zone: ReturnZone },
    Sequence(Arc<Vec<Effect>>),
    Conditional { if_: Condition, yes: Arc<Effect>, no: Option<Arc<Effect>> },
    /// "You may": `label` words the offer; `after` follows if it is taken,
    /// `otherwise` if it is not.
    May {
        effect: Arc<Effect>,
        after: Arc<Vec<Effect>>,
        otherwise: Arc<Vec<Effect>>,
        label: String,
    },
    Unsupported,
}

impl Clone for Effect {
    fn clone(&self) -> (r: Effect)
        ensures
            r == *self,
    {
        match self {
            Effect::DealDamage { amount, to } => Effect::DealDamage {
                amount: amount.clone(),
                to: to.clone(),
            },
            Effect::Destroy { target } => Effect::Destroy { target: target.clone() },
            Effect::Exile { target } => Effect::Exile { target: target.clone() },
            Effect::Draw { player, count } => Effect::Draw {
                player: player.clone(),
                count: count.clone(),
            },
            Effect::Discard { player, count, random } => Effect::Discard {
                player: player.clone(),
                count: count.clone(),
                random: *random,
            },
            Effect::GainLife { player, amount } => Effect::GainLife {
                player: player.clone(),
                amount: amount.clone(),
            },
            Effect::LoseLife { player, amount } => Effect::LoseLife {
                player: player.clone(),
                amount: amount.clone(),
            },
            Effect::ModifyPt { target, power, toughness, keywords, until } => Effect::ModifyPt {
                target: target.clone(),
                power: power.clone(),
                toughness: toughness.clone(),
                keywords: share(keywords),
                until: *until,
            },
            Effect::GrantKeyword { target, keyword, until } => Effect::GrantKeyword {
                target: target.clone(),
                keyword: *keyword,
                until: *until,
            },
            Effect::CreateToken { spec, count } => Effect::CreateToken {
                spec: share(spec),
                count: count.clone(),
            },
            Effect::AddCounters { target, kind, count } => Effect::AddCounters {
                target: target.clone(),
                kind: *kind,
                count: count.clone(),
            },
            Effect::AddMana { color, amount } => Effect::AddMana {
                color: *color,
                amount: amount.clone(),
            },
            Effect::Tap { target } => Effect::Tap { target: target.clone() },
            Effect::Untap { target } => Effect::Untap { target: target.clone() },
            Effect::ReturnToHand { target } => Effect::ReturnToHand { target: target.clone() },
            Effect::CounterSpell { target } => Effect::CounterSpell { target: target.clone() },
            Effect::Sacrifice { player, filter, count } => Effect::Sacrifice {
                player: player.clone(),
                filter: filter.clone(),
                count: count.clone(),
            },
            Effect::Mill { player, count } => Effect::Mill {
                player: player.clone(),
                count: count.clone(),
            },
            Effect::ReturnFromGraveyard { target, zone } => Effect::ReturnFromGraveyard {
                target: target.clone(),
                zone: *zone,
            },
            Effect::Sequence(es) => Effect::Sequence(share(es)),
            Effect::Conditional { if_, yes, no } => Effect::Conditional {
                if_: if_.clone(),
                yes: share(yes),
                no: match no {
                    Some(e) => Some(share(e)),
                    None => None,
                },
            },
            Effect::May { effect, after, otherwise, label } => Effect::May {
                effect: share(effect),
                after: share(after),
                otherwise: share(otherwise),
                label: label.clone(),
            },
            Effect::Unsupported => Effect::Unsupported,
        }
    }
}

pub fn copied_effects(v: &Vec<Effect>) -> (r: Vec<Effect>)
    ensures
        r@ == v@,
{
    let mut r: Vec<Effect> = Vec::new();
    let mut i: usize = 0;
    while i < v.len()
        invariant
            i <= v.len(),
            r@ == v@.subrange(0, i as int),
        decreases v.len() - i,
    {
        r.push(v[i].clone());
        i = i + 1;
    }
    assert(v@.subrange(0, v@.len() as int) =~= v@);
    r
}

/// What has to happen for a trigger to fire.
#[derive(Debug, PartialEq, Eq)]
pub enum EventPattern {
    ThisEnters,
    ThisDies,
    ThisAttacks,
    ThisBecomesTapped,
    ThisBlocks,
    ThisBecomesBlocked,
    ThisDealsCombatDamageToPlayer,
    Enters(Filter),
    Dies(Filter),
    Upkeep(PlayerRef),
    EndStep(PlayerRef),
    BeginCombat(PlayerRef),
    Cast { who: PlayerRef, filter: Filter },
    GainsLife(PlayerRef),
    Discards(PlayerRef),
    Any(Arc<Vec<EventPattern>>),
}

/// One cost of an activated ability.
#[derive(Debug, PartialEq, Eq)]
pub enum Cost {
    Mana(ManaCost),
    Tap,
    SacrificeThis,
    Sacrifice(Filter),
    PayLife(i32),
    Discard(i32),
}

/// How many modes a modal spell takes.
#[derive(Copy, Clone, Debug, PartialEq, Eq, Hash, Structural)]
pub enum ModeChoice {
    One,
    OneOrBoth,
}

impl ModeChoice {
    pub open spec fn least(self) -> nat {
        1
    }

    pub open spec fn most(self) -> nat {
        match self {
            ModeChoice::One => 1,
            ModeChoice::OneOrBoth => 2,
        }
    }

    /// The fewest and the most modes.
    pub fn bounds(self) -> (r: (usize, usize))
        ensures
            r.0 == self.least(),
            r.1 == self.most(),
    {
        match self {
            ModeChoice::One => (1, 1),
            ModeChoice::OneOrBoth => (1, 2),
        }
    }
}

/// One mode of a modal spell.
#[derive(Debug, PartialEq, Eq)]
pub struct Mode {
    pub targets: Vec<Filter>,
    pub effects: Arc<Vec<Effect>>,
    /// The mode's wording, for menus.
    pub text: String,
}

/// What an instant or sorcery does.
#[derive(Debug, PartialEq, Eq)]
pub struct Spell {
    pub targets: Vec<Filter>,
    pub effects: Arc<Vec<Effect>>,
    pub modes: Vec<Mode>,
    pub choice: ModeChoice,
}

#[derive(Debug, PartialEq, Eq)]
pub struct Trigger {
    pub event: EventPattern,
    /// An intervening "if".
    pub condition: Option<Condition>,
    pub targets: Vec<Filter>,
    pub effects: Arc<Vec<Effect>>,
    /// The ability's wording, for menus and the log.
    pub text: String,
}

/// An activated ability.
#[derive(Debug, PartialEq, Eq)]
pub struct Ability {
    pub cost: Vec<Cost>,
    pub targets: Vec<Filter>,
    pub effects: Arc<Vec<Effect>>,
    pub sorcery_speed: bool,
    pub from_graveyard: bool,
    /// The ability's wording, for menus and the log.
    pub text: String,
}

impl Ability {
    /// A mana ability targets nothing and only adds mana (rule 605.1a).
    pub open spec fn makes_mana(self) -> bool {
        &&& self.targets@.len() == 0
        &&& self.effects@.len() > 0
        &&& forall|i: int|
            0 <= i < self.effects@.len() ==> (#[trigger] self.effects@[i]) is AddMana
    }

    pub fn is_mana_ability(&self) -> (b: bool)
        ensures
            b == self.makes_mana(),
    {
        if self.targets.len() != 0 || self.effects.len() == 0 {
            return false;
        }
        let mut i: usize = 0;
        while i < self.effects.len()
            invariant
                i <= self.effects@.len(),
                self.targets@.len() == 0,
                self.effects@.len() > 0,
                forall|j: int| 0 <= j < i ==> (#[trigger] self.effects@[j]) is AddMana,
            decreases self.effects@.len() - i,
        {
            if !matches!(self.effects[i], Effect::AddMana { .. }) {
                assert(!(self.effects@[i as int] is AddMana));
                return false;
            }
            i = i + 1;
        }
        true
    }
}

/// A card as written.
#[derive(Debug, PartialEq, Eq)]
pub struct Card {
    pub name: String,
    pub cost: ManaCost,
    pub types: Vec<CardType>,
    pub supertypes: Vec<Supertype>,
    pub subtypes: Vec<String>,
    pub pt: Option<(i32, i32)>,
    /// Oracle text, for display.
    pub text: String,
    pub keywords: Vec<Keyword>,
    pub spell: Option<Spell>,
    /// What an Aura may be attached to.
    pub enchant: Option<Filter>,
    pub equip: Option<ManaCost>,
    pub statics: Vec<Static>,
    pub triggers: Vec<Trigger>,
    pub activated: Vec<Ability>,
}

/// The colours of a cost, each once, in W U B R G order.
pub open spec fn cost_colors(c: ManaCost) -> Seq<Color> {
    let s0 = Seq::<Color>::empty();
    let s1 = if c.white > 0 {
        s0.push(Color::White)
    } else {
        s0
    };
    let s2 = if c.blue > 0 {
        s1.push(Color::Blue)
    } else {
        s1
    };
    let s3 = if c.black > 0 {
        s2.push(Color::Black)
    } else {
        s2
    };
    let s4 = if c.red > 0 {
        s3.push(Color::Red)
    } else {
        s3
    };
    if c.green > 0 {
        s4.push(Color::Green)
    } else {
        s4
    }
}

impl Card {
    /// The card's colours, from its cost.
    pub fn colors(&self) -> (r: Vec<Color>)
        ensures
            r@ == cost_colors(self.cost),
    {
        let mut v: Vec<Color> = Vec::new();
        if self.cost.white > 0 {
            v.push(Color::White);
        }
        if self.cost.blue > 0 {
            v.push(Color::Blue);
        }
        if self.cost.black > 0 {
            v.push(Color::Black);
        }
        if self.cost.red > 0 {
            v.push(Color::Red);
        }
        if self.cost.green > 0 {
            v.push(Color::Green);
        }
        v
    }

    /// A card with a name, a cost and types, and nothing else.
    pub fn blank(name: &str, cost: ManaCost, types: Vec<CardType>) -> (r: Card)
        ensures
            r.name@ == name@,
            r.cost == cost,
            r.types@ == types@,
            r.supertypes@.len() == 0,
            r.subtypes@.len() == 0,
            r.pt is None,
            r.text@ == Seq::<char>::empty(),
            r.keywords@.len() == 0,
            r.spell is None,
            r.enchant is None,
            r.equip is None,
            r.statics@.len() == 0,
            r.triggers@.len() == 0,
            r.activated@.len() == 0,
    {
        Card {
            name: name.to_owned(),
            cost,
            types,
            supertypes: Vec::new(),
            subtypes: Vec::new(),
            pt: None,
            text: String::new(),
            keywords: Vec::new(),
            spell: None,
            enchant: None,
            equip: None,
            statics: Vec::new(),
            triggers: Vec::new(),
            activated: Vec::new(),
        }
    }
}

} // verus!
