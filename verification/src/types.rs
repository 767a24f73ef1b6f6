//! Core value types shared by every part of the engine.
//!
//! Nothing here assumes two players, a fixed life total, or a single machine.
use crate::seqs::Key;
use crate::words::{cat2, cat3, decimal, nat_text};
use vstd::prelude::*;
use vstd::string::*;

verus! {

/// A seat at the table. Seats are indices; no type anywhere names "player 1/2".
#[derive(Copy, Clone, Debug, PartialEq, Eq, PartialOrd, Ord, Hash, Structural)]
pub struct Seat(pub u8);

/// "seat 3"
pub open spec fn seat_words(s: Seat) -> Seq<char> {
    "seat "@ + decimal(s.0 as nat)
}

impl Seat {
    pub fn index(self) -> (i: usize)
        ensures
            i == self.0,
    {
        self.0 as usize
    }

    pub fn text(self) -> (r: String)
        ensures
            r@ == seat_words(self),
    {
        cat2("seat ", nat_text(self.0 as u64).as_str())
    }
}

impl Key for Seat {
    open spec fn below(self, other: Seat) -> bool {
        self.0 <= other.0
    }

    proof fn ordered(x: Seat, y: Seat, z: Seat) {
    }

    fn le(&self, other: &Seat) -> (b: bool) {
        self.0 <= other.0
    }

    fn same(&self, other: &Seat) -> (b: bool) {
        *self == *other
    }
}

/// Identity of a game object (card, token, ability) for the life of the game.
/// Shown to humans and agents as `#12`.
#[derive(Copy, Clone, Debug, PartialEq, Eq, PartialOrd, Ord, Hash, Structural)]
pub struct ObjectId(pub u32);

/// "#12"
pub open spec fn id_words(id: ObjectId) -> Seq<char> {
    "#"@ + decimal(id.0 as nat)
}

impl ObjectId {
    pub fn index(self) -> (i: u32)
        ensures
            i == self.0,
    {
        self.0
    }

    pub fn text(self) -> (r: String)
        ensures
            r@ == id_words(self),
    {
        cat2("#", nat_text(self.0 as u64).as_str())
    }
}

impl Key for ObjectId {
    open spec fn below(self, other: ObjectId) -> bool {
        self.0 <= other.0
    }

    proof fn ordered(x: ObjectId, y: ObjectId, z: ObjectId) {
    }

    fn le(&self, other: &ObjectId) -> (b: bool) {
        self.0 <= other.0
    }

    fn same(&self, other: &ObjectId) -> (b: bool) {
        *self == *other
    }
}

#[derive(Copy, Clone, Debug, PartialEq, Eq, Hash, Structural)]
pub enum Zone {
    Library,
    Hand,
    Battlefield,
    Graveyard,
    Exile,
    Stack,
    Command,
    /// Objects owned by a player who has left the game (rule 800.4a).
    OutOfGame,
}

impl Zone {
    /// Public zones are visible to every seat and to spectators.
    pub open spec fn public(self) -> bool {
        self is Battlefield || self is Graveyard || self is Exile || self is Stack
            || self is Command
    }

    pub open spec fn words(self) -> Seq<char> {
        match self {
            Zone::Library => "Library"@,
            Zone::Hand => "Hand"@,
            Zone::Battlefield => "Battlefield"@,
            Zone::Graveyard => "Graveyard"@,
            Zone::Exile => "Exile"@,
            Zone::Stack => "Stack"@,
            Zone::Command => "Command"@,
            Zone::OutOfGame => "OutOfGame"@,
        }
    }

    /// Public zones are visible to every seat and to spectators.
    pub fn is_public(self) -> (b: bool)
        ensures
            b == self.public(),
    {
        matches!(
            self,
            Zone::Battlefield | Zone::Graveyard | Zone::Exile | Zone::Stack | Zone::Command
        )
    }

    pub fn name(self) -> (r: &'static str)
        ensures
            r@ == self.words(),
    {
        match self {
            Zone::Library => "Library",
            Zone::Hand => "Hand",
            Zone::Battlefield => "Battlefield",
            Zone::Graveyard => "Graveyard",
            Zone::Exile => "Exile",
            Zone::Stack => "Stack",
            Zone::Command => "Command",
            Zone::OutOfGame => "OutOfGame",
        }
    }
}

#[derive(Copy, Clone, Debug, PartialEq, Eq, Hash, Structural)]
pub enum Phase {
    Untap,
    Upkeep,
    Draw,
    Main1,
    BeginCombat,
    DeclareAttackers,
    DeclareBlockers,
    CombatDamage,
    EndCombat,
    Main2,
    End,
    Cleanup,
}

impl Phase {
    /// The place of a step in its turn, from 0 for untap.
    pub open spec fn order(self) -> nat {
        match self {
            Phase::Untap => 0,
            Phase::Upkeep => 1,
            Phase::Draw => 2,
            Phase::Main1 => 3,
            Phase::BeginCombat => 4,
            Phase::DeclareAttackers => 5,
            Phase::DeclareBlockers => 6,
            Phase::CombatDamage => 7,
            Phase::EndCombat => 8,
            Phase::Main2 => 9,
            Phase::End => 10,
            Phase::Cleanup => 11,
        }
    }

    pub open spec fn main_phase(self) -> bool {
        self is Main1 || self is Main2
    }

    pub open spec fn combat(self) -> bool {
        4 <= self.order() <= 8
    }

    pub open spec fn words(self) -> Seq<char> {
        match self {
            Phase::Untap => "Untap"@,
            Phase::Upkeep => "Upkeep"@,
            Phase::Draw => "Draw"@,
            Phase::Main1 => "Main 1"@,
            Phase::BeginCombat => "Begin Combat"@,
            Phase::DeclareAttackers => "Declare Attackers"@,
            Phase::DeclareBlockers => "Declare Blockers"@,
            Phase::CombatDamage => "Combat Damage"@,
            Phase::EndCombat => "End Combat"@,
            Phase::Main2 => "Main 2"@,
            Phase::End => "End"@,
            Phase::Cleanup => "Cleanup"@,
        }
    }

    pub open spec fn upper_words(self) -> Seq<char> {
        match self {
            Phase::Untap => "UNTAP"@,
            Phase::Upkeep => "UPKEEP"@,
            Phase::Draw => "DRAW"@,
            Phase::Main1 => "MAIN 1"@,
            Phase::BeginCombat => "BEGIN COMBAT"@,
            Phase::DeclareAttackers => "DECLARE ATTACKERS"@,
            Phase::DeclareBlockers => "DECLARE BLOCKERS"@,
            Phase::CombatDamage => "COMBAT DAMAGE"@,
            Phase::EndCombat => "END COMBAT"@,
            Phase::Main2 => "MAIN 2"@,
            Phase::End => "END"@,
            Phase::Cleanup => "CLEANUP"@,
        }
    }

    /// The step that follows this one in the same turn.
    pub open spec fn following(self) -> Option<Phase> {
        match self {
            Phase::Untap => Some(Phase::Upkeep),
            Phase::Upkeep => Some(Phase::Draw),
            Phase::Draw => Some(Phase::Main1),
            Phase::Main1 => Some(Phase::BeginCombat),
            Phase::BeginCombat => Some(Phase::DeclareAttackers),
            Phase::DeclareAttackers => Some(Phase::DeclareBlockers),
            Phase::DeclareBlockers => Some(Phase::CombatDamage),
            Phase::CombatDamage => Some(Phase::EndCombat),
            Phase::EndCombat => Some(Phase::Main2),
            Phase::Main2 => Some(Phase::End),
            Phase::End => Some(Phase::Cleanup),
            Phase::Cleanup => None,
        }
    }

    /// The step that follows this one in the same turn, or `None` after cleanup.
    pub fn next(self) -> (r: Option<Phase>)
        ensures
            r == self.following(),
            r is None <==> self is Cleanup,
            r matches Some(p) ==> p.order() == self.order() + 1,
    {
        match self {
            Phase::Untap => Some(Phase::Upkeep),
            Phase::Upkeep => Some(Phase::Draw),
            Phase::Draw => Some(Phase::Main1),
            Phase::Main1 => Some(Phase::BeginCombat),
            Phase::BeginCombat => Some(Phase::DeclareAttackers),
            Phase::DeclareAttackers => Some(Phase::DeclareBlockers),
            Phase::DeclareBlockers => Some(Phase::CombatDamage),
            Phase::CombatDamage => Some(Phase::EndCombat),
            Phase::EndCombat => Some(Phase::Main2),
            Phase::Main2 => Some(Phase::End),
            Phase::End => Some(Phase::Cleanup),
            Phase::Cleanup => None,
        }
    }

    pub fn is_main(self) -> (b: bool)
        ensures
            b == self.main_phase(),
    {
        matches!(self, Phase::Main1 | Phase::Main2)
    }

    pub fn is_combat(self) -> (b: bool)
        ensures
            b == self.combat(),
    {
        matches!(
            self,
            Phase::BeginCombat
                | Phase::DeclareAttackers
                | Phase::DeclareBlockers
                | Phase::CombatDamage
                | Phase::EndCombat
        )
    }

    /// Players receive priority in every step except untap and cleanup (rule 500.3, 514.3).
    pub fn has_priority(self) -> (b: bool)
        ensures
            b == !(self is Untap || self is Cleanup),
    {
        !matches!(self, Phase::Untap | Phase::Cleanup)
    }

    pub fn label(self) -> (r: &'static str)
        ensures
            r@ == self.words(),
    {
        match self {
            Phase::Untap => "Untap",
            Phase::Upkeep => "Upkeep",
            Phase::Draw => "Draw",
            Phase::Main1 => "Main 1",
            Phase::BeginCombat => "Begin Combat",
            Phase::DeclareAttackers => "Declare Attackers",
            Phase::DeclareBlockers => "Declare Blockers",
            Phase::CombatDamage => "Combat Damage",
            Phase::EndCombat => "End Combat",
            Phase::Main2 => "Main 2",
            Phase::End => "End",
            Phase::Cleanup => "Cleanup",
        }
    }

    /// The label in capitals.
    pub fn upper_label(self) -> (r: &'static str)
        ensures
            r@ == self.upper_words(),
    {
        match self {
            Phase::Untap => "UNTAP",
            Phase::Upkeep => "UPKEEP",
            Phase::Draw => "DRAW",
            Phase::Main1 => "MAIN 1",
            Phase::BeginCombat => "BEGIN COMBAT",
            Phase::DeclareAttackers => "DECLARE ATTACKERS",
            Phase::DeclareBlockers => "DECLARE BLOCKERS",
            Phase::CombatDamage => "COMBAT DAMAGE",
            Phase::EndCombat => "END COMBAT",
            Phase::Main2 => "MAIN 2",
            Phase::End => "END",
            Phase::Cleanup => "CLEANUP",
        }
    }
}

/// Following `next` from untap visits every step once, in order, and ends at cleanup.
pub proof fn law_phase_order(p: Phase)
    ensures
        p.following() is None <==> p is Cleanup,
        p.following() matches Some(q) ==> q.order() == p.order() + 1,
        forall|q: Phase| q.order() == p.order() ==> q == p,
        p.order() < 12,
{
}

#[derive(Copy, Clone, Debug, PartialEq, Eq, PartialOrd, Ord, Hash, Structural)]
pub enum Color {
    White,
    Blue,
    Black,
    Red,
    Green,
}

impl Color {
    /// The place of a colour in W U B R G order.
    pub open spec fn order(self) -> nat {
        match self {
            Color::White => 0,
            Color::Blue => 1,
            Color::Black => 2,
            Color::Red => 3,
            Color::Green => 4,
        }
    }

    pub fn slot(self) -> (i: usize)
        ensures
            i == self.order(),
            i < 5,
    {
        match self {
            Color::White => 0,
            Color::Blue => 1,
            Color::Black => 2,
            Color::Red => 3,
            Color::Green => 4,
        }
    }
}

impl Key for Color {
    open spec fn below(self, other: Color) -> bool {
        self.order() <= other.order()
    }

    proof fn ordered(x: Color, y: Color, z: Color) {
    }

    fn le(&self, other: &Color) -> (b: bool) {
        self.slot() <= other.slot()
    }

    fn same(&self, other: &Color) -> (b: bool) {
        *self == *other
    }
}

#[derive(Copy, Clone, Debug, PartialEq, Eq, PartialOrd, Ord, Hash, Structural)]
pub enum CardType {
    Creature,
    Land,
    Artifact,
    Enchantment,
    Instant,
    Sorcery,
    Planeswalker,
}

impl CardType {
    pub open spec fn permanent(self) -> bool {
        !(self is Instant || self is Sorcery)
    }

    pub open spec fn words(self) -> Seq<char> {
        match self {
            CardType::Creature => "creature"@,
            CardType::Land => "land"@,
            CardType::Artifact => "artifact"@,
            CardType::Enchantment => "enchantment"@,
            CardType::Instant => "instant"@,
            CardType::Sorcery => "sorcery"@,
            CardType::Planeswalker => "planeswalker"@,
        }
    }

    /// Cards of this type stay on the battlefield.
    pub fn is_permanent(self) -> (b: bool)
        ensures
            b == self.permanent(),
    {
        !matches!(self, CardType::Instant | CardType::Sorcery)
    }

    pub fn word(self) -> (r: &'static str)
        ensures
            r@ == self.words(),
    {
        match self {
            CardType::Creature => "creature",
            CardType::Land => "land",
            CardType::Artifact => "artifact",
            CardType::Enchantment => "enchantment",
            CardType::Instant => "instant",
            CardType::Sorcery => "sorcery",
            CardType::Planeswalker => "planeswalker",
        }
    }
}

impl Key for CardType {
    open spec fn below(self, other: CardType) -> bool {
        type_order(self) <= type_order(other)
    }

    proof fn ordered(x: CardType, y: CardType, z: CardType) {
    }

    fn le(&self, other: &CardType) -> (b: bool) {
        type_slot(*self) <= type_slot(*other)
    }

    fn same(&self, other: &CardType) -> (b: bool) {
        *self == *other
    }
}

pub open spec fn type_order(t: CardType) -> nat {
    match t {
        CardType::Creature => 0,
        CardType::Land => 1,
        CardType::Artifact => 2,
        CardType::Enchantment => 3,
        CardType::Instant => 4,
        CardType::Sorcery => 5,
        CardType::Planeswalker => 6,
    }
}

fn type_slot(t: CardType) -> (i: usize)
    ensures
        i == type_order(t),
{
    match t {
        CardType::Creature => 0,
        CardType::Land => 1,
        CardType::Artifact => 2,
        CardType::Enchantment => 3,
        CardType::Instant => 4,
        CardType::Sorcery => 5,
        CardType::Planeswalker => 6,
    }
}

#[derive(Copy, Clone, Debug, PartialEq, Eq, PartialOrd, Ord, Hash, Structural)]
pub enum Supertype {
    Basic,
    Legendary,
}

impl Supertype {
    pub open spec fn words(self) -> Seq<char> {
        match self {
            Supertype::Basic => "basic"@,
            Supertype::Legendary => "legendary"@,
        }
    }

    pub fn word(self) -> (r: &'static str)
        ensures
            r@ == self.words(),
    {
        match self {
            Supertype::Basic => "basic",
            Supertype::Legendary => "legendary",
        }
    }
}

#[derive(Copy, Clone, Debug, PartialEq, Eq, PartialOrd, Ord, Hash, Structural)]
pub enum Keyword {
    Flying,
    Reach,
    FirstStrike,
    DoubleStrike,
    Deathtouch,
    Lifelink,
    Indestructible,
    Trample,
    Vigilance,
    Haste,
    Menace,
    Flash,
    Hexproof,
    Defender,
    Prowess,
}

impl Keyword {
    pub open spec fn words(self) -> Seq<char> {
        match self {
            Keyword::Flying => "flying"@,
            Keyword::Reach => "reach"@,
            Keyword::FirstStrike => "first strike"@,
            Keyword::DoubleStrike => "double strike"@,
            Keyword::Deathtouch => "deathtouch"@,
            Keyword::Lifelink => "lifelink"@,
            Keyword::Indestructible => "indestructible"@,
            Keyword::Trample => "trample"@,
            Keyword::Vigilance => "vigilance"@,
            Keyword::Haste => "haste"@,
            Keyword::Menace => "menace"@,
            Keyword::Flash => "flash"@,
            Keyword::Hexproof => "hexproof"@,
            Keyword::Defender => "defender"@,
            Keyword::Prowess => "prowess"@,
        }
    }

    /// Every keyword, in declaration order.
    pub open spec fn every() -> Seq<Keyword> {
        seq![
            Keyword::Flying,
            Keyword::Reach,
            Keyword::FirstStrike,
            Keyword::DoubleStrike,
            Keyword::Deathtouch,
            Keyword::Lifelink,
            Keyword::Indestructible,
            Keyword::Trample,
            Keyword::Vigilance,
            Keyword::Haste,
            Keyword::Menace,
            Keyword::Flash,
            Keyword::Hexproof,
            Keyword::Defender,
            Keyword::Prowess,
        ]
    }

    /// Every keyword, in declaration order.
    pub fn all() -> (r: Vec<Keyword>)
        ensures
            r@ == Keyword::every(),
    {
        let mut v: Vec<Keyword> = Vec::new();
        v.push(Keyword::Flying);
        v.push(Keyword::Reach);
        v.push(Keyword::FirstStrike);
        v.push(Keyword::DoubleStrike);
        v.push(Keyword::Deathtouch);
        v.push(Keyword::Lifelink);
        v.push(Keyword::Indestructible);
        v.push(Keyword::Trample);
        v.push(Keyword::Vigilance);
        v.push(Keyword::Haste);
        v.push(Keyword::Menace);
        v.push(Keyword::Flash);
        v.push(Keyword::Hexproof);
        v.push(Keyword::Defender);
        v.push(Keyword::Prowess);
        v
    }

    pub fn word(self) -> (r: &'static str)
        ensures
            r@ == self.words(),
    {
        match self {
            Keyword::Flying => "flying",
            Keyword::Reach => "reach",
            Keyword::FirstStrike => "first strike",
            Keyword::DoubleStrike => "double strike",
            Keyword::Deathtouch => "deathtouch",
            Keyword::Lifelink => "lifelink",
            Keyword::Indestructible => "indestructible",
            Keyword::Trample => "trample",
            Keyword::Vigilance => "vigilance",
            Keyword::Haste => "haste",
            Keyword::Menace => "menace",
            Keyword::Flash => "flash",
            Keyword::Hexproof => "hexproof",
            Keyword::Defender => "defender",
            Keyword::Prowess => "prowess",
        }
    }
}

pub fn has_word(v: &Vec<Keyword>, k: Keyword) -> (b: bool)
    ensures
        b == v@.contains(k),
{
    let mut i: usize = 0;
    while i < v.len()
        invariant
            i <= v.len(),
            forall|j: int| 0 <= j < i ==> v@[j] != k,
        decreases v.len() - i,
    {
        if v[i] == k {
            return true;
        }
        i = i + 1;
    }
    false
}

/// One unit of mana in a pool or a payment.
#[derive(Copy, Clone, Debug, PartialEq, Eq, PartialOrd, Ord, Hash, Structural)]
pub enum Mana {
    Colored(Color),
    Colorless,
}

impl Mana {
    /// The place of a kind of mana in W U B R G C order.
    pub open spec fn order(self) -> nat {
        match self {
            Mana::Colored(c) => c.order(),
            Mana::Colorless => 5,
        }
    }

    pub open spec fn words(self) -> Seq<char> {
        match self {
            Mana::Colored(Color::White) => "{W}"@,
            Mana::Colored(Color::Blue) => "{U}"@,
            Mana::Colored(Color::Black) => "{B}"@,
            Mana::Colored(Color::Red) => "{R}"@,
            Mana::Colored(Color::Green) => "{G}"@,
            Mana::Colorless => "{C}"@,
        }
    }

    pub open spec fn letter(self) -> char {
        match self {
            Mana::Colored(Color::White) => 'W',
            Mana::Colored(Color::Blue) => 'U',
            Mana::Colored(Color::Black) => 'B',
            Mana::Colored(Color::Red) => 'R',
            Mana::Colored(Color::Green) => 'G',
            Mana::Colorless => 'C',
        }
    }

    /// The kind of mana in a given place.
    pub open spec fn at(i: nat) -> Mana {
        if i == 0 {
            Mana::Colored(Color::White)
        } else if i == 1 {
            Mana::Colored(Color::Blue)
        } else if i == 2 {
            Mana::Colored(Color::Black)
        } else if i == 3 {
            Mana::Colored(Color::Red)
        } else if i == 4 {
            Mana::Colored(Color::Green)
        } else {
            Mana::Colorless
        }
    }

    pub fn nth(i: usize) -> (m: Mana)
        requires
            i < 6,
        ensures
            m == Mana::at(i as nat),
            m.order() == i,
    {
        if i == 0 {
            Mana::Colored(Color::White)
        } else if i == 1 {
            Mana::Colored(Color::Blue)
        } else if i == 2 {
            Mana::Colored(Color::Black)
        } else if i == 3 {
            Mana::Colored(Color::Red)
        } else if i == 4 {
            Mana::Colored(Color::Green)
        } else {
            Mana::Colorless
        }
    }

    pub fn slot(self) -> (i: usize)
        ensures
            i == self.order(),
            i < 6,
            Mana::at(i as nat) == self,
    {
        match self {
            Mana::Colored(c) => c.slot(),
            Mana::Colorless => 5,
        }
    }

    pub fn symbol(self) -> (c: char)
        ensures
            c == self.letter(),
    {
        match self {
            Mana::Colored(Color::White) => 'W',
            Mana::Colored(Color::Blue) => 'U',
            Mana::Colored(Color::Black) => 'B',
            Mana::Colored(Color::Red) => 'R',
            Mana::Colored(Color::Green) => 'G',
            Mana::Colorless => 'C',
        }
    }

    /// "{G}"
    pub fn text(self) -> (r: &'static str)
        ensures
            r@ == self.words(),
    {
        match self {
            Mana::Colored(Color::White) => "{W}",
            Mana::Colored(Color::Blue) => "{U}",
            Mana::Colored(Color::Black) => "{B}",
            Mana::Colored(Color::Red) => "{R}",
            Mana::Colored(Color::Green) => "{G}",
            Mana::Colorless => "{C}",
        }
    }
}

impl Key for Mana {
    open spec fn below(self, other: Mana) -> bool {
        self.order() <= other.order()
    }

    proof fn ordered(x: Mana, y: Mana, z: Mana) {
    }

    fn le(&self, other: &Mana) -> (b: bool) {
        self.slot() <= other.slot()
    }

    fn same(&self, other: &Mana) -> (b: bool) {
        *self == *other
    }
}

/// A mana cost: generic mana, `{X}` symbols, and coloured pips.
#[derive(Copy, Clone, Debug, PartialEq, Eq, Hash, Structural)]
pub struct ManaCost {
    pub generic: u32,
    /// How many `{X}` symbols the cost has.
    pub x: u32,
    pub white: u32,
    pub blue: u32,
    pub black: u32,
    pub red: u32,
    pub green: u32,
}

impl ManaCost {
    pub open spec fn zero() -> ManaCost {
        ManaCost { generic: 0, x: 0, white: 0, blue: 0, black: 0, red: 0, green: 0 }
    }

    pub open spec fn pips(self, c: Color) -> u32 {
        match c {
            Color::White => self.white,
            Color::Blue => self.blue,
            Color::Black => self.black,
            Color::Red => self.red,
            Color::Green => self.green,
        }
    }

    /// The total amount of mana, `{X}` counting as nothing.
    pub open spec fn value(self) -> nat {
        (self.generic + self.white + self.blue + self.black + self.red + self.green) as nat
    }

    pub open spec fn free(self) -> bool {
        self == ManaCost::zero()
    }

    /// The cost once `n` is announced for `{X}`.
    pub open spec fn announced(self, n: u32) -> ManaCost {
        ManaCost { generic: sat_u32(self.generic + n * self.x), x: 0, ..self }
    }

    pub open spec fn plus(self, other: ManaCost) -> ManaCost {
        ManaCost {
            generic: sat_u32(self.generic + other.generic),
            x: sat_u32(self.x + other.x),
            white: sat_u32(self.white + other.white),
            blue: sat_u32(self.blue + other.blue),
            black: sat_u32(self.black + other.black),
            red: sat_u32(self.red + other.red),
            green: sat_u32(self.green + other.green),
        }
    }

    /// `n` copies of a symbol.
    pub open spec fn run(symbol: Seq<char>, n: nat) -> Seq<char>
        decreases n,
    {
        if n == 0 {
            Seq::empty()
        } else {
            ManaCost::run(symbol, (n - 1) as nat) + symbol
        }
    }

    /// "{X}{1}{G}": X symbols, then generic (shown when it is not 0 or when
    /// there is nothing else), then pips in W U B R G order.
    pub open spec fn words(self) -> Seq<char> {
        let head = ManaCost::run("{X}"@, self.x as nat);
        let generic = if self.generic > 0 || self.free() {
            "{"@ + decimal(self.generic as nat) + "}"@
        } else {
            ""@
        };
        head + generic + ManaCost::run("{W}"@, self.white as nat) + ManaCost::run(
            "{U}"@,
            self.blue as nat,
        ) + ManaCost::run("{B}"@, self.black as nat) + ManaCost::run("{R}"@, self.red as nat)
            + ManaCost::run("{G}"@, self.green as nat)
    }

    /// A cost with no `{X}` and no pips.
    pub fn generic(n: u32) -> (r: ManaCost)
        ensures
            r == (ManaCost { generic: n, ..ManaCost::zero() }),
    {
        ManaCost { generic: n, x: 0, white: 0, blue: 0, black: 0, red: 0, green: 0 }
    }

    pub fn is_free(&self) -> (b: bool)
        ensures
            b == self.free(),
    {
        self.generic == 0 && self.x == 0 && self.white == 0 && self.blue == 0 && self.black == 0
            && self.red == 0 && self.green == 0
    }

    pub fn pips_of(&self, c: Color) -> (n: u32)
        ensures
            n == self.pips(c),
    {
        match c {
            Color::White => self.white,
            Color::Blue => self.blue,
            Color::Black => self.black,
            Color::Red => self.red,
            Color::Green => self.green,
        }
    }

    pub fn mana_value(&self) -> (n: u64)
        ensures
            n == self.value(),
    {
        self.generic as u64 + self.white as u64 + self.blue as u64 + self.black as u64
            + self.red as u64 + self.green as u64
    }

    pub fn with_x(&self, n: u32) -> (r: ManaCost)
        ensures
            r == self.announced(n),
    {
        assert(0 <= n * self.x <= 0xffff_ffff * 0xffff_ffff) by (nonlinear_arith)
            requires
                0 <= n <= 0xffff_ffff,
                0 <= self.x <= 0xffff_ffff,
        ;
        let total: u64 = self.generic as u64 + (n as u64) * (self.x as u64);
        ManaCost {
            generic: if total > 0xffff_ffff {
                0xffff_ffff
            } else {
                total as u32
            },
            x: 0,
            white: self.white,
            blue: self.blue,
            black: self.black,
            red: self.red,
            green: self.green,
        }
    }

    /// The two costs together.
    pub fn add_cost(&self, other: &ManaCost) -> (r: ManaCost)
        ensures
            r == self.plus(*other),
    {
        ManaCost {
            generic: self.generic.saturating_add(other.generic),
            x: self.x.saturating_add(other.x),
            white: self.white.saturating_add(other.white),
            blue: self.blue.saturating_add(other.blue),
            black: self.black.saturating_add(other.black),
            red: self.red.saturating_add(other.red),
            green: self.green.saturating_add(other.green),
        }
    }

    fn run_text(symbol: &str, n: u32) -> (r: String)
        ensures
            r@ == ManaCost::run(symbol@, n as nat),
    {
        let mut s = String::new();
        let mut i: u32 = 0;
        while i < n
            invariant
                i <= n,
                s@ == ManaCost::run(symbol@, i as nat),
            decreases n - i,
        {
            s.append(symbol);
            i = i + 1;
        }
        s
    }

    pub fn text(&self) -> (r: String)
        ensures
            r@ == self.words(),
    {
        let generic = if self.generic > 0 || self.is_free() {
            cat3("{", nat_text(self.generic as u64).as_str(), "}")
        } else {
            "".to_owned()
        };
        let mut s = ManaCost::run_text("{X}", self.x);
        s.append(generic.as_str());
        s.append(ManaCost::run_text("{W}", self.white).as_str());
        s.append(ManaCost::run_text("{U}", self.blue).as_str());
        s.append(ManaCost::run_text("{B}", self.black).as_str());
        s.append(ManaCost::run_text("{R}", self.red).as_str());
        s.append(ManaCost::run_text("{G}", self.green).as_str());
        s
    }
}

/// An integer clamped to the range of `u32` from above.
pub open spec fn sat_u32(n: int) -> u32 {
    if n > u32::MAX {
        u32::MAX
    } else {
        n as u32
    }
}

/// An integer clamped to the range of `u8`.
pub open spec fn sat_u8(n: int) -> u8 {
    if n > u8::MAX {
        u8::MAX
    } else if n < 0 {
        0
    } else {
        n as u8
    }
}

/// An integer clamped to the range of `i32`. Life totals, damage, power and
/// toughness stay in this range.
pub open spec fn sat_i32(n: int) -> i32 {
    if n > i32::MAX {
        i32::MAX
    } else if n < i32::MIN {
        i32::MIN
    } else {
        n as i32
    }
}

pub fn add_i32(a: i32, b: i32) -> (r: i32)
    ensures
        r == sat_i32(a + b),
{
    clamp_i64(a as i64 + b as i64)
}

pub fn sub_i32(a: i32, b: i32) -> (r: i32)
    ensures
        r == sat_i32(a - b),
{
    clamp_i64(a as i64 - b as i64)
}

pub fn clamp_i64(n: i64) -> (r: i32)
    ensures
        r == sat_i32(n as int),
{
    if n > 0x7fff_ffff {
        0x7fff_ffff
    } else if n < -0x8000_0000 {
        -0x8000_0000
    } else {
        n as i32
    }
}

pub fn clamp_len(n: usize) -> (r: i32)
    ensures
        r == sat_i32(n as int),
{
    if n > 0x7fff_ffff {
        0x7fff_ffff
    } else {
        n as i32
    }
}

pub fn clamp_u8(n: i32) -> (r: u8)
    ensures
        r == sat_u8(n as int),
{
    if n > 255 {
        255
    } else if n < 0 {
        0
    } else {
        n as u8
    }
}

pub fn clamp_len_u8(n: usize) -> (r: u8)
    ensures
        r == sat_u8(n as int),
{
    if n > 255 {
        255
    } else {
        n as u8
    }
}

/// A player's mana pool: a count per mana kind.
#[derive(Copy, Clone, Debug, PartialEq, Eq, Hash, Structural)]
pub struct ManaPool {
    pub white: u8,
    pub blue: u8,
    pub black: u8,
    pub red: u8,
    pub green: u8,
    pub colorless: u8,
}

impl ManaPool {
    pub open spec fn none() -> ManaPool {
        ManaPool { white: 0, blue: 0, black: 0, red: 0, green: 0, colorless: 0 }
    }

    pub open spec fn amount(self, m: Mana) -> u8 {
        match m {
            Mana::Colored(Color::White) => self.white,
            Mana::Colored(Color::Blue) => self.blue,
            Mana::Colored(Color::Black) => self.black,
            Mana::Colored(Color::Red) => self.red,
            Mana::Colored(Color::Green) => self.green,
            Mana::Colorless => self.colorless,
        }
    }

    pub open spec fn with(self, m: Mana, n: u8) -> ManaPool {
        match m {
            Mana::Colored(Color::White) => ManaPool { white: n, ..self },
            Mana::Colored(Color::Blue) => ManaPool { blue: n, ..self },
            Mana::Colored(Color::Black) => ManaPool { black: n, ..self },
            Mana::Colored(Color::Red) => ManaPool { red: n, ..self },
            Mana::Colored(Color::Green) => ManaPool { green: n, ..self },
            Mana::Colorless => ManaPool { colorless: n, ..self },
        }
    }

    /// The pool with `n` more of `m`; a kind never goes past what a `u8` holds.
    pub open spec fn plus(self, m: Mana, n: u8) -> ManaPool {
        self.with(m, sat_u8(self.amount(m) + n))
    }

    /// The pool with `n` fewer of `m`, if it holds that many.
    pub open spec fn minus(self, m: Mana, n: u8) -> ManaPool {
        if self.amount(m) < n {
            self
        } else {
            self.with(m, (self.amount(m) - n) as u8)
        }
    }

    pub open spec fn count(self) -> nat {
        (self.white + self.blue + self.black + self.red + self.green + self.colorless) as nat
    }

    /// `n` units of `m`.
    pub open spec fn repeat(m: Mana, n: nat) -> Seq<Mana> {
        Seq::new(n, |i: int| m)
    }

    /// One entry per unit for the kinds before place `k`.
    pub open spec fn units_to(self, k: nat) -> Seq<Mana>
        decreases k,
    {
        if k == 0 {
            Seq::empty()
        } else {
            self.units_to((k - 1) as nat) + ManaPool::repeat(
                Mana::at((k - 1) as nat),
                self.amount(Mana::at((k - 1) as nat)) as nat,
            )
        }
    }

    pub open spec fn words_n(units: Seq<Mana>, n: nat) -> Seq<char>
        decreases n,
    {
        if n == 0 || n > units.len() {
            Seq::empty()
        } else {
            ManaPool::words_n(units, (n - 1) as nat) + units[n - 1].words()
        }
    }

    /// "-" for an empty pool, else one symbol per unit.
    pub open spec fn words(self) -> Seq<char> {
        if self.count() == 0 {
            "-"@
        } else {
            ManaPool::words_n(self.units_to(6), self.units_to(6).len())
        }
    }

    /// An empty pool.
    pub fn empty() -> (p: ManaPool)
        ensures
            p == ManaPool::none(),
    {
        ManaPool { white: 0, blue: 0, black: 0, red: 0, green: 0, colorless: 0 }
    }

    pub fn get(&self, m: Mana) -> (n: u8)
        ensures
            n == self.amount(m),
    {
        match m {
            Mana::Colored(Color::White) => self.white,
            Mana::Colored(Color::Blue) => self.blue,
            Mana::Colored(Color::Black) => self.black,
            Mana::Colored(Color::Red) => self.red,
            Mana::Colored(Color::Green) => self.green,
            Mana::Colorless => self.colorless,
        }
    }

    fn put(&mut self, m: Mana, n: u8)
        ensures
            *final(self) == old(self).with(m, n),
    {
        match m {
            Mana::Colored(Color::White) => {
                self.white = n;
            },
            Mana::Colored(Color::Blue) => {
                self.blue = n;
            },
            Mana::Colored(Color::Black) => {
                self.black = n;
            },
            Mana::Colored(Color::Red) => {
                self.red = n;
            },
            Mana::Colored(Color::Green) => {
                self.green = n;
            },
            Mana::Colorless => {
                self.colorless = n;
            },
        }
    }

    pub fn add(&mut self, m: Mana, n: u8)
        ensures
            *final(self) == old(self).plus(m, n),
    {
        let now: u8 = self.get(m);
        self.put(m, now.saturating_add(n));
    }

    /// Remove `n` of `m`; returns false (and changes nothing) if the pool holds fewer.
    pub fn remove(&mut self, m: Mana, n: u8) -> (ok: bool)
        ensures
            ok == (old(self).amount(m) >= n),
            *final(self) == old(self).minus(m, n),
            !ok ==> *final(self) == *old(self),
    {
        let now: u8 = self.get(m);
        if now < n {
            return false;
        }
        self.put(m, now - n);
        true
    }

    pub fn total(&self) -> (n: u32)
        ensures
            n == self.count(),
    {
        self.white as u32 + self.blue as u32 + self.black as u32 + self.red as u32
            + self.green as u32 + self.colorless as u32
    }

    pub fn is_empty(&self) -> (b: bool)
        ensures
            b == (self.count() == 0),
            b == (*self == ManaPool::none()),
    {
        self.total() == 0
    }

    pub fn clear(&mut self)
        ensures
            *final(self) == ManaPool::none(),
    {
        *self = ManaPool::empty();
    }

    /// Every unit in the pool, one entry per unit, in W U B R G C order.
    pub fn units(&self) -> (r: Vec<Mana>)
        ensures
            r@ == self.units_to(6),
    {
        let mut out: Vec<Mana> = Vec::new();
        let mut k: usize = 0;
        while k < 6
            invariant
                k <= 6,
                out@ == self.units_to(k as nat),
            decreases 6 - k,
        {
            let m = Mana::nth(k);
            let n: u8 = self.get(m);
            let ghost start = out@;
            let mut i: u8 = 0;
            while i < n
                invariant
                    i <= n,
                    out@ == start + ManaPool::repeat(m, i as nat),
                decreases n - i,
            {
                out.push(m);
                i = i + 1;
                assert(out@ =~= start + ManaPool::repeat(m, i as nat));
            }
            k = k + 1;
        }
        out
    }

    pub fn text(&self) -> (r: String)
        ensures
            r@ == self.words(),
    {
        if self.is_empty() {
            return "-".to_owned();
        }
        let units = self.units();
        let mut s = String::new();
        let mut i: usize = 0;
        while i < units.len()
            invariant
                i <= units.len(),
                s@ == ManaPool::words_n(units@, i as nat),
            decreases units.len() - i,
        {
            s.append(units[i].text());
            i = i + 1;
        }
        s
    }
}

impl Default for ManaPool {
    fn default() -> (p: ManaPool)
        ensures
            p == ManaPool::none(),
    {
        ManaPool::empty()
    }
}

/// Adding mana and then removing as much of it gives back the pool one had,
/// as long as the kind stays in range; nothing else in the pool moves.
pub proof fn law_pool_add_remove(p: ManaPool, m: Mana, n: u8)
    requires
        p.amount(m) + n <= u8::MAX,
    ensures
        p.plus(m, n).minus(m, n) == p,
        p.plus(m, n).amount(m) == p.amount(m) + n,
        forall|k: Mana| k != m ==> p.plus(m, n).amount(k) == p.amount(k),
        p.plus(m, n).count() == p.count() + n,
{
}

} // verus!
