//! Formats are data: how the game is set up, which extra rules apply, and
//! which cards are allowed.
use crate::card::{quote_text, quoted, CardDb, CardId, CardModel};
use crate::seqs::{dedup_n, group_views, occurrences, sort, sorted, views};
use crate::words::{cat2, cat3, cat4, cat5, decimal, eq_fold, int_text, join, joined, nat_text, same_fold, same_text, signed};
use vstd::prelude::*;
use vstd::string::*;

verus! {

broadcast use group_views;

#[derive(Copy, Clone, Debug, PartialEq, Eq, Structural)]
pub struct PlayerRange {
    pub min: u8,
    pub max: u8,
}

#[derive(Copy, Clone, Debug, PartialEq, Eq, Structural)]
pub enum MulliganRule {
    London { free_first: bool },
}

#[derive(Copy, Clone, Debug, PartialEq, Eq, Structural)]
pub enum DeckSize {
    Exact(u16),
    Min(u16),
    Range(u16, u16),
}

/// Deck construction rules.
#[derive(Copy, Clone, Debug, PartialEq, Eq, Structural)]
pub struct Deck {
    pub size: DeckSize,
    pub singleton: bool,
    pub includes_commander: bool,
    /// Most copies of one card (basic lands excepted); `None` for no limit.
    pub max_copies: Option<u8>,
}

/// Each variant is a hook the engine grows a format-specific rule behind.
/// Only the empty list is honoured; the rest are recognised so that formats
/// can name them.
#[derive(Copy, Clone, Debug, PartialEq, Eq, Structural)]
pub enum FormatRule {
    Commander,
    CommanderDamage(i32),
    ColorIdentity,
    Poison(u8),
}

impl FormatRule {
    pub open spec fn words(self) -> Seq<char> {
        match self {
            FormatRule::Commander => "Commander"@,
            FormatRule::CommanderDamage(n) => "CommanderDamage("@ + signed(n as int) + ")"@,
            FormatRule::ColorIdentity => "ColorIdentity"@,
            FormatRule::Poison(n) => "Poison("@ + decimal(n as nat) + ")"@,
        }
    }

    pub fn text(self) -> (r: String)
        ensures
            r@ == self.words(),
    {
        match self {
            FormatRule::Commander => "Commander".to_owned(),
            FormatRule::CommanderDamage(n) => cat3(
                "CommanderDamage(",
                int_text(n as i64).as_str(),
                ")",
            ),
            FormatRule::ColorIdentity => "ColorIdentity".to_owned(),
            FormatRule::Poison(n) => cat3("Poison(", nat_text(n as u64).as_str(), ")"),
        }
    }
}

#[derive(Debug, PartialEq, Eq)]
pub enum CardPool {
    /// A named card set compiled into the binary; `"core"` is the starter cube.
    Builtin(String),
    /// A directory of card files relative to the data directory (custom/community sets).
    Dir(String),
    /// The cards a named format's legality data calls legal.
    Scryfall { format: String },
    /// Set codes.
    Sets(Vec<String>),
    All,
}

/// The debug forms of the first `n` of some texts.
pub open spec fn quoted_all(parts: Seq<String>) -> Seq<Seq<char>> {
    Seq::new(parts.len(), |i: int| quoted(parts[i]@))
}

impl CardPool {
    pub open spec fn words(self) -> Seq<char> {
        match self {
            CardPool::Builtin(s) => "Builtin("@ + quoted(s@) + ")"@,
            CardPool::Dir(s) => "Dir("@ + quoted(s@) + ")"@,
            CardPool::Scryfall { format } => "Scryfall { format: "@ + quoted(format@) + " }"@,
            CardPool::Sets(v) => "Sets(["@ + joined(quoted_all(v@), ", "@) + "])"@,
            CardPool::All => "All"@,
        }
    }

    pub fn text(&self) -> (r: String)
        ensures
            r@ == self.words(),
    {
        match self {
            CardPool::Builtin(s) => cat3("Builtin(", quote_text(s.as_str()).as_str(), ")"),
            CardPool::Dir(s) => cat3("Dir(", quote_text(s.as_str()).as_str(), ")"),
            CardPool::Scryfall { format } => cat3(
                "Scryfall { format: ",
                quote_text(format.as_str()).as_str(),
                " }",
            ),
            CardPool::Sets(v) => {
                let mut parts: Vec<String> = Vec::new();
                let mut i: usize = 0;
                while i < v.len()
                    invariant
                        i <= v.len(),
                        views(parts@) == quoted_all(v@).subrange(0, i as int),
                    decreases v.len() - i,
                {
                    parts.push(quote_text(v[i].as_str()));
                    i = i + 1;
                    assert(quoted_all(v@).subrange(0, i as int) =~= quoted_all(v@).subrange(
                        0,
                        i - 1,
                    ).push(quoted(v@[i - 1]@)));
                }
                assert(quoted_all(v@).subrange(0, v@.len() as int) =~= quoted_all(v@));
                cat3("Sets([", join(&parts, ", ").as_str(), "])")
            },
            CardPool::All => "All".to_owned(),
        }
    }
}

#[derive(Debug, PartialEq, Eq)]
pub struct Legality {
    pub pool: CardPool,
    pub banned: Vec<String>,
    pub allowed: Vec<String>,
}

#[derive(Debug, PartialEq, Eq)]
pub struct Format {
    pub name: String,
    pub players: PlayerRange,
    pub starting_life: i32,
    pub starting_hand: u8,
    pub max_hand_size: u8,
    pub mulligan: MulliganRule,
    pub deck: Deck,
    pub rules: Vec<FormatRule>,
    pub legality: Legality,
}

/// The hand size a format has when it names none.
pub fn default_max_hand_size() -> (n: u8)
    ensures
        n == 7,
{
    7
}

/// Deck rules that accept anything, for sample hands and scenarios.
pub fn format_deck_any() -> (r: Deck)
    ensures
        r == (Deck {
            size: DeckSize::Min(0),
            singleton: false,
            includes_commander: false,
            max_copies: None,
        }),
{
    Deck {
        size: DeckSize::Min(0),
        singleton: false,
        includes_commander: false,
        max_copies: None,
    }
}

/// Where per-format legality comes from for a `CardPool::Scryfall` pool: a
/// cache of card data, or a table. `None` means the card is unknown to the
/// source.
pub trait LegalitySource {
    /// What the source says of a card in a format.
    spec fn says(&self, card_name: Seq<char>, format: Seq<char>) -> Option<bool>;

    fn legal_in(&self, card_name: &str, format: &str) -> (r: Option<bool>)
        ensures
            r == self.says(card_name@, format@),
    ;
}

/// One line of a legality table.
#[derive(Debug, PartialEq, Eq)]
pub struct LegalityEntry {
    pub card: String,
    pub format: String,
    pub legal: bool,
}

/// A legality source held in memory: the first line for a card and a format counts.
#[derive(Debug, PartialEq, Eq)]
pub struct LegalityTable {
    pub entries: Vec<LegalityEntry>,
}

pub open spec fn table_says(
    entries: Seq<LegalityEntry>,
    card: Seq<char>,
    format: Seq<char>,
    i: nat,
) -> Option<bool>
    decreases entries.len() - i,
{
    if i >= entries.len() {
        None
    } else if entries[i as int].card@ == card && entries[i as int].format@ == format {
        Some(entries[i as int].legal)
    } else {
        table_says(entries, card, format, i + 1)
    }
}

impl LegalitySource for LegalityTable {
    open spec fn says(&self, card_name: Seq<char>, format: Seq<char>) -> Option<bool> {
        table_says(self.entries@, card_name, format, 0)
    }

    fn legal_in(&self, card_name: &str, format: &str) -> (r: Option<bool>) {
        let mut i: usize = 0;
        while i < self.entries.len()
            invariant
                i <= self.entries.len(),
                table_says(self.entries@, card_name@, format@, 0) == table_says(
                    self.entries@,
                    card_name@,
                    format@,
                    i as nat,
                ),
            decreases self.entries.len() - i,
        {
            let e = &self.entries[i];
            if same_text(e.card.as_str(), card_name) && same_text(e.format.as_str(), format) {
                return Some(e.legal);
            }
            i = i + 1;
        }
        None
    }
}

/// One reason a deck is not legal in a format.
#[derive(Debug, PartialEq, Eq)]
pub enum Violation {
    TooFewCards { have: usize, need: usize },
    TooManyCards { have: usize, max: usize },
    NotSingleton { name: String, count: usize },
    TooManyCopies { name: String, count: usize, max: usize },
    Banned { name: String },
    NotInPool { name: String },
    UnsupportedPool { pool: String },
    UnsupportedRule { rule: String },
    /// The decklist could not be parsed (unknown card name, bad line).
    Unparsable { reason: String },
    /// The pool needs card data and none is cached.
    NeedsCardData { format: String },
}

/// A violation as a mathematical value.
#[verifier::ext_equal]
pub ghost enum ViolationModel {
    TooFewCards { have: nat, need: nat },
    TooManyCards { have: nat, max: nat },
    NotSingleton { name: Seq<char>, count: nat },
    TooManyCopies { name: Seq<char>, count: nat, max: nat },
    Banned { name: Seq<char> },
    NotInPool { name: Seq<char> },
    UnsupportedPool { pool: Seq<char> },
    UnsupportedRule { rule: Seq<char> },
    Unparsable { reason: Seq<char> },
    NeedsCardData { format: Seq<char> },
}

impl View for Violation {
    type V = ViolationModel;

    open spec fn view(&self) -> ViolationModel {
        match self {
            Violation::TooFewCards { have, need } => ViolationModel::TooFewCards {
                have: *have as nat,
                need: *need as nat,
            },
            Violation::TooManyCards { have, max } => ViolationModel::TooManyCards {
                have: *have as nat,
                max: *max as nat,
            },
            Violation::NotSingleton { name, count } => ViolationModel::NotSingleton {
                name: name@,
                count: *count as nat,
            },
            Violation::TooManyCopies { name, count, max } => ViolationModel::TooManyCopies {
                name: name@,
                count: *count as nat,
                max: *max as nat,
            },
            Violation::Banned { name } => ViolationModel::Banned { name: name@ },
            Violation::NotInPool { name } => ViolationModel::NotInPool { name: name@ },
            Violation::UnsupportedPool { pool } => ViolationModel::UnsupportedPool { pool: pool@ },
            Violation::UnsupportedRule { rule } => ViolationModel::UnsupportedRule { rule: rule@ },
            Violation::Unparsable { reason } => ViolationModel::Unparsable { reason: reason@ },
            Violation::NeedsCardData { format } => ViolationModel::NeedsCardData {
                format: format@,
            },
        }
    }
}

impl ViolationModel {
    pub open spec fn words(self) -> Seq<char> {
        match self {
            ViolationModel::TooFewCards { have, need } => "deck has "@ + decimal(have)
                + " cards, needs at least "@ + decimal(need),
            ViolationModel::TooManyCards { have, max } => "deck has "@ + decimal(have)
                + " cards, at most "@ + decimal(max) + " allowed"@,
            ViolationModel::NotSingleton { name, count } => name + ": "@ + decimal(count)
                + " copies in a singleton format"@,
            ViolationModel::TooManyCopies { name, count, max } => name + ": "@ + decimal(count)
                + " copies, at most "@ + (decimal(max) + " allowed"@),
            ViolationModel::Banned { name } => name + " is banned"@,
            ViolationModel::NotInPool { name } => name + " is not in this format's card pool"@,
            ViolationModel::UnsupportedPool { pool } => "card pool "@ + pool
                + " is not supported yet"@,
            ViolationModel::UnsupportedRule { rule } => "format rule "@ + rule
                + " is not implemented yet"@,
            ViolationModel::Unparsable { reason } => "could not read the decklist: "@ + reason,
            ViolationModel::NeedsCardData { format } => "legality in "@ + format
                + " needs the Scryfall card data: run `manaline cards update`"@,
        }
    }
}

impl Violation {
    pub fn text(&self) -> (r: String)
        ensures
            r@ == self@.words(),
    {
        match self {
            Violation::TooFewCards { have, need } => cat4(
                "deck has ",
                nat_text(*have as u64).as_str(),
                " cards, needs at least ",
                nat_text(*need as u64).as_str(),
            ),
            Violation::TooManyCards { have, max } => cat5(
                "deck has ",
                nat_text(*have as u64).as_str(),
                " cards, at most ",
                nat_text(*max as u64).as_str(),
                " allowed",
            ),
            Violation::NotSingleton { name, count } => cat4(
                name.as_str(),
                ": ",
                nat_text(*count as u64).as_str(),
                " copies in a singleton format",
            ),
            Violation::TooManyCopies { name, count, max } => cat5(
                name.as_str(),
                ": ",
                nat_text(*count as u64).as_str(),
                " copies, at most ",
                cat2(nat_text(*max as u64).as_str(), " allowed").as_str(),
            ),
            Violation::Banned { name } => cat2(name.as_str(), " is banned"),
            Violation::NotInPool { name } => cat2(
                name.as_str(),
                " is not in this format's card pool",
            ),
            Violation::UnsupportedPool { pool } => cat3(
                "card pool ",
                pool.as_str(),
                " is not supported yet",
            ),
            Violation::UnsupportedRule { rule } => cat3(
                "format rule ",
                rule.as_str(),
                " is not implemented yet",
            ),
            Violation::Unparsable { reason } => cat2(
                "could not read the decklist: ",
                reason.as_str(),
            ),
            Violation::NeedsCardData { format } => cat3(
                "legality in ",
                format.as_str(),
                " needs the Scryfall card data: run `manaline cards update`",
            ),
        }
    }
}

// ----- checking a deck -----

/// The distinct cards of a deck, in id order.
pub open spec fn deck_ids(deck: Seq<CardId>) -> Seq<CardId> {
    dedup_n(sort(deck), sort(deck).len())
}

/// Some text of the list is `name`, up to ASCII case.
pub open spec fn lists(names: Seq<String>, name: Seq<char>) -> bool {
    exists|i: int| 0 <= i < names.len() && eq_fold(#[trigger] names[i]@, name)
}

/// What the size of a deck violates.
pub open spec fn size_violations(size: DeckSize, n: nat) -> Seq<ViolationModel> {
    match size {
        DeckSize::Exact(k) => if n < k {
            seq![ViolationModel::TooFewCards { have: n, need: k as nat }]
        } else if n > k {
            seq![ViolationModel::TooManyCards { have: n, max: k as nat }]
        } else {
            seq![]
        },
        DeckSize::Min(k) => if n < k {
            seq![ViolationModel::TooFewCards { have: n, need: k as nat }]
        } else {
            seq![]
        },
        DeckSize::Range(lo, hi) => if n < lo {
            seq![ViolationModel::TooFewCards { have: n, need: lo as nat }]
        } else if n > hi {
            seq![ViolationModel::TooManyCards { have: n, max: hi as nat }]
        } else {
            seq![]
        },
    }
}

pub open spec fn has_needs_data(out: Seq<ViolationModel>) -> bool {
    exists|i: int| 0 <= i < out.len() && (#[trigger] out[i]) is NeedsCardData
}

impl Format {
    /// `out` with what having `count` copies of a card violates.
    pub open spec fn with_copies(
        self,
        out: Seq<ViolationModel>,
        card: CardModel,
        count: nat,
    ) -> Seq<ViolationModel> {
        if self.deck.singleton && count > 1 && !card.basic() {
            out.push(ViolationModel::NotSingleton { name: card.name, count })
        } else if self.deck.max_copies matches Some(max) && count > max && !card.basic() {
            out.push(
                ViolationModel::TooManyCopies {
                    name: card.name,
                    count,
                    max: self.deck.max_copies->0 as nat,
                },
            )
        } else {
            out
        }
    }

    /// `out` with what the card pool has against a card that is neither
    /// banned nor allowed by name. `legal` is what the legality source says
    /// of it, if there is a source.
    pub open spec fn with_pool(
        self,
        out: Seq<ViolationModel>,
        card: CardModel,
        legal: Option<Option<bool>>,
    ) -> Seq<ViolationModel> {
        match self.legality.pool {
            CardPool::All => out,
            CardPool::Builtin(set) => if card.set != set@ {
                out.push(ViolationModel::NotInPool { name: card.name })
            } else {
                out
            },
            CardPool::Scryfall { format } => match legal {
                None => if has_needs_data(out) {
                    out
                } else {
                    out.push(ViolationModel::NeedsCardData { format: format@ })
                },
                Some(says) => if says != Some(true) {
                    out.push(ViolationModel::NotInPool { name: card.name })
                } else {
                    out
                },
            },
            other => if out.contains(ViolationModel::UnsupportedPool { pool: other.words() }) {
                out
            } else {
                out.push(ViolationModel::UnsupportedPool { pool: other.words() })
            },
        }
    }

    /// `out` with everything one card of a deck violates.
    pub open spec fn with_card(
        self,
        out: Seq<ViolationModel>,
        card: CardModel,
        count: nat,
        legal: Option<Option<bool>>,
    ) -> Seq<ViolationModel> {
        let copies = self.with_copies(out, card, count);
        if lists(self.legality.banned@, card.name) {
            copies.push(ViolationModel::Banned { name: card.name })
        } else if lists(self.legality.allowed@, card.name) {
            copies
        } else {
            self.with_pool(copies, card, legal)
        }
    }

    /// What a legality source says of a card, where the pool asks it.
    pub open spec fn asks<L: LegalitySource>(
        self,
        source: Option<&L>,
        card: CardModel,
    ) -> Option<Option<bool>> {
        match (self.legality.pool, source) {
            (CardPool::Scryfall { format }, Some(src)) => Some(src.says(card.name, format@)),
            _ => None,
        }
    }

    /// The violations of the first `n` distinct cards of a deck, after those of its size.
    pub open spec fn violations_n<L: LegalitySource>(
        self,
        deck: Seq<CardId>,
        db: Seq<CardModel>,
        source: Option<&L>,
        n: nat,
    ) -> Seq<ViolationModel>
        decreases n,
    {
        if n == 0 || n > deck_ids(deck).len() {
            size_violations(self.deck.size, deck.len())
        } else {
            let id = deck_ids(deck)[n - 1];
            let card = db[id as int];
            self.with_card(
                self.violations_n(deck, db, source, (n - 1) as nat),
                card,
                occurrences(deck, id, deck.len()),
                self.asks(source, card),
            )
        }
    }

    /// Every reason a deck is not legal, in the order they are reported.
    pub open spec fn violations<L: LegalitySource>(
        self,
        deck: Seq<CardId>,
        db: Seq<CardModel>,
        source: Option<&L>,
    ) -> Seq<ViolationModel> {
        self.violations_n(deck, db, source, deck_ids(deck).len())
    }

    /// One violation per extra rule, in order.
    pub open spec fn rule_violations(self) -> Seq<ViolationModel> {
        Seq::new(
            self.rules@.len(),
            |i: int| ViolationModel::UnsupportedRule { rule: self.rules@[i].words() },
        )
    }
}

proof fn lemma_sort_members(s: Seq<CardId>, n: nat)
    requires
        n <= s.len(),
    ensures
        forall|i: int|
            0 <= i < crate::seqs::sort_n(s, n).len() ==> s.contains(
                #[trigger] crate::seqs::sort_n(s, n)[i],
            ),
    decreases n,
{
    if n > 0 {
        lemma_sort_members(s, (n - 1) as nat);
        let done = crate::seqs::sort_n(s, (n - 1) as nat);
        crate::seqs::lemma_slot(done, s[n - 1], done.len());
    }
}

proof fn lemma_dedup_members(s: Seq<CardId>, n: nat)
    requires
        n <= s.len(),
    ensures
        forall|i: int| 0 <= i < dedup_n(s, n).len() ==> s.contains(#[trigger] dedup_n(s, n)[i]),
    decreases n,
{
    if n > 0 {
        lemma_dedup_members(s, (n - 1) as nat);
        let rest = dedup_n(s, (n - 1) as nat);
        assert(s.contains(s[n - 1]));
        assert forall|i: int| 0 <= i < dedup_n(s, n).len() implies s.contains(
            #[trigger] dedup_n(s, n)[i],
        ) by {
            if i < rest.len() {
                assert(dedup_n(s, n)[i] == rest[i]);
            }
        }
    }
}

/// Every listed card of a deck is in the deck.
proof fn lemma_deck_ids(deck: Seq<CardId>)
    ensures
        forall|i: int| 0 <= i < deck_ids(deck).len() ==> deck.contains(#[trigger] deck_ids(deck)[i]),
{
    lemma_sort_members(deck, deck.len());
    lemma_dedup_members(sort(deck), sort(deck).len());
    assert forall|i: int| 0 <= i < deck_ids(deck).len() implies deck.contains(
        #[trigger] deck_ids(deck)[i],
    ) by {
        assert(sort(deck).contains(deck_ids(deck)[i]));
    }
}

fn distinct_ids(deck: &Vec<CardId>) -> (r: Vec<CardId>)
    ensures
        r@ == deck_ids(deck@),
{
    crate::seqs::deduped(&sorted(deck))
}

fn listed(names: &Vec<String>, name: &str) -> (b: bool)
    ensures
        b == lists(names@, name@),
{
    let mut i: usize = 0;
    while i < names.len()
        invariant
            i <= names.len(),
            forall|j: int| 0 <= j < i ==> !eq_fold(#[trigger] names@[j]@, name@),
        decreases names.len() - i,
    {
        if same_fold(names[i].as_str(), name) {
            assert(eq_fold(names@[i as int]@, name@));
            return true;
        }
        i = i + 1;
    }
    false
}

fn needs_data_listed(out: &Vec<Violation>) -> (b: bool)
    ensures
        b == has_needs_data(views(out@)),
{
    let mut i: usize = 0;
    while i < out.len()
        invariant
            i <= out.len(),
            forall|j: int| 0 <= j < i ==> !((#[trigger] views(out@)[j]) is NeedsCardData),
        decreases out.len() - i,
    {
        if matches!(out[i], Violation::NeedsCardData { .. }) {
            assert(views(out@)[i as int] is NeedsCardData);
            return true;
        }
        i = i + 1;
    }
    false
}

fn pool_listed(out: &Vec<Violation>, pool: &str) -> (b: bool)
    ensures
        b == views(out@).contains(ViolationModel::UnsupportedPool { pool: pool@ }),
{
    let mut i: usize = 0;
    while i < out.len()
        invariant
            i <= out.len(),
            forall|j: int|
                0 <= j < i ==> #[trigger] views(out@)[j] != (ViolationModel::UnsupportedPool {
                    pool: pool@,
                }),
        decreases out.len() - i,
    {
        if let Violation::UnsupportedPool { pool: p } = &out[i] {
            if same_text(p.as_str(), pool) {
                assert(views(out@)[i as int] == (ViolationModel::UnsupportedPool { pool: pool@ }));
                return true;
            }
        }
        i = i + 1;
    }
    false
}

impl Format {
    pub fn allows_player_count(&self, n: usize) -> (b: bool)
        ensures
            b == (self.players.min <= n <= self.players.max),
    {
        n >= self.players.min as usize && n <= self.players.max as usize
    }

    /// Rules the engine cannot honour yet. A format with any of these cannot start a game.
    pub fn unsupported_rules(&self) -> (r: Vec<Violation>)
        ensures
            views(r@) == self.rule_violations(),
    {
        let mut out: Vec<Violation> = Vec::new();
        let mut i: usize = 0;
        while i < self.rules.len()
            invariant
                i <= self.rules.len(),
                views(out@) == self.rule_violations().subrange(0, i as int),
            decreases self.rules.len() - i,
        {
            out.push(Violation::UnsupportedRule { rule: self.rules[i].text() });
            i = i + 1;
            assert(self.rule_violations().subrange(0, i as int) =~= self.rule_violations().subrange(
                0,
                i - 1,
            ).push(self.rule_violations()[i - 1]));
        }
        assert(self.rule_violations().subrange(0, self.rules@.len() as int)
            =~= self.rule_violations());
        out
    }

    /// Check a deck against this format's construction rules and card pool,
    /// without card data (a Scryfall pool then reports `NeedsCardData`).
    pub fn check_deck(&self, deck: &Vec<CardId>, db: &CardDb) -> (r: Vec<Violation>)
        requires
            forall|i: int| 0 <= i < deck@.len() ==> (#[trigger] deck@[i]) < db@.len(),
        ensures
            views(r@) == self.violations(deck@, db@, None::<&LegalityTable>),
    {
        self.check_deck_with(deck, db, None::<&LegalityTable>)
    }

    /// Check a deck, consulting `legality` for Scryfall-pool formats.
    pub fn check_deck_with<L: LegalitySource>(
        &self,
        deck: &Vec<CardId>,
        db: &CardDb,
        legality: Option<&L>,
    ) -> (r: Vec<Violation>)
        requires
            forall|i: int| 0 <= i < deck@.len() ==> (#[trigger] deck@[i]) < db@.len(),
        ensures
            views(r@) == self.violations(deck@, db@, legality),
    {
        let mut out: Vec<Violation> = Vec::new();
        let n: usize = deck.len();
        match self.deck.size {
            DeckSize::Exact(k) => {
                if n < k as usize {
                    out.push(Violation::TooFewCards { have: n, need: k as usize });
                } else if n > k as usize {
                    out.push(Violation::TooManyCards { have: n, max: k as usize });
                }
            },
            DeckSize::Min(k) => {
                if n < k as usize {
                    out.push(Violation::TooFewCards { have: n, need: k as usize });
                }
            },
            DeckSize::Range(lo, hi) => {
                if n < lo as usize {
                    out.push(Violation::TooFewCards { have: n, need: lo as usize });
                } else if n > hi as usize {
                    out.push(Violation::TooManyCards { have: n, max: hi as usize });
                }
            },
        }
        assert(views(out@) =~= size_violations(self.deck.size, deck@.len()));
        let ids = distinct_ids(deck);
        proof {
            lemma_deck_ids(deck@);
        }
        let mut i: usize = 0;
        while i < ids.len()
            invariant
                i <= ids.len(),
                ids@ == deck_ids(deck@),
                forall|j: int|
                    0 <= j < deck_ids(deck@).len() ==> deck@.contains(
                        #[trigger] deck_ids(deck@)[j],
                    ),
                forall|j: int| 0 <= j < deck@.len() ==> (#[trigger] deck@[j]) < db@.len(),
                views(out@) == self.violations_n(deck@, db@, legality, i as nat),
            decreases ids.len() - i,
        {
            let id = ids[i];
            assert(deck@.contains(deck_ids(deck@)[i as int]));
            let card = db.get(id);
            let count: usize = crate::seqs::count(deck, id);
            self.check_card(card, count, legality, &mut out);
            i = i + 1;
        }
        out
    }

    fn check_copies(&self, card: &crate::card::CardDef, count: usize, out: &mut Vec<Violation>)
        ensures
            views(final(out)@) == self.with_copies(views(old(out)@), card@, count as nat),
    {
        if self.deck.singleton && count > 1 && !card.is_basic() {
            out.push(Violation::NotSingleton { name: card.name.clone(), count });
        } else if let Some(max) = self.deck.max_copies {
            if count > max as usize && !card.is_basic() {
                out.push(
                    Violation::TooManyCopies { name: card.name.clone(), count, max: max as usize },
                );
            }
        }
    }

    fn check_card<L: LegalitySource>(
        &self,
        card: &crate::card::CardDef,
        count: usize,
        legality: Option<&L>,
        out: &mut Vec<Violation>,
    )
        ensures
            views(final(out)@) == self.with_card(
                views(old(out)@),
                card@,
                count as nat,
                self.asks(legality, card@),
            ),
    {
        self.check_copies(card, count, out);
        if listed(&self.legality.banned, card.name.as_str()) {
            out.push(Violation::Banned { name: card.name.clone() });
            return ;
        }
        if listed(&self.legality.allowed, card.name.as_str()) {
            return ;
        }
        match &self.legality.pool {
            CardPool::All => {},
            CardPool::Builtin(set) => {
                if !same_text(card.set.as_str(), set.as_str()) {
                    out.push(Violation::NotInPool { name: card.name.clone() });
                }
            },
            CardPool::Scryfall { format } => {
                match legality {
                    None => {
                        if !needs_data_listed(out) {
                            out.push(Violation::NeedsCardData { format: format.clone() });
                        }
                    },
                    Some(src) => {
                        let says = src.legal_in(card.name.as_str(), format.as_str());
                        if says != Some(true) {
                            out.push(Violation::NotInPool { name: card.name.clone() });
                        }
                    },
                }
            },
            other => {
                let pool = other.text();
                if !pool_listed(out, pool.as_str()) {
                    out.push(Violation::UnsupportedPool { pool });
                }
            },
        }
    }
}

// ----- the formats that ship with the engine -----

/// The names of the formats that ship with the engine.
pub open spec fn shipped(name: Seq<char>) -> bool {
    name == "cube"@ || name == "two-player"@ || name == "free-for-all"@ || name == "commander"@
}

/// The starter cube: two players, twenty life, decks of forty from the core set.
pub open spec fn is_cube(f: Format) -> bool {
    &&& f.name@ == "Cube"@
    &&& f.players == (PlayerRange { min: 2, max: 2 })
    &&& f.starting_life == 20
    &&& f.starting_hand == 7
    &&& f.max_hand_size == 7
    &&& f.mulligan == (MulliganRule::London { free_first: false })
    &&& f.deck == (Deck {
        size: DeckSize::Min(40),
        singleton: false,
        includes_commander: false,
        max_copies: None,
    })
    &&& f.rules@.len() == 0
    &&& f.legality.pool matches CardPool::Builtin(set) && set@ == "core"@
    &&& f.legality.banned@.len() == 0
    &&& f.legality.allowed@.len() == 0
}

/// Two players with decks of sixty, four copies of a card at most.
pub open spec fn is_two_player(f: Format) -> bool {
    &&& f.name@ == "Two-player"@
    &&& f.players == (PlayerRange { min: 2, max: 2 })
    &&& f.starting_life == 20
    &&& f.starting_hand == 7
    &&& f.max_hand_size == 7
    &&& f.mulligan == (MulliganRule::London { free_first: false })
    &&& f.deck == (Deck {
        size: DeckSize::Min(60),
        singleton: false,
        includes_commander: false,
        max_copies: Some(4),
    })
    &&& f.rules@.len() == 0
    &&& f.legality.pool matches CardPool::Builtin(set) && set@ == "core"@
    &&& f.legality.banned@.len() == 0
    &&& f.legality.allowed@.len() == 0
}

/// Two to six players, the first mulligan free.
pub open spec fn is_free_for_all(f: Format) -> bool {
    &&& f.name@ == "Free-for-all"@
    &&& f.players == (PlayerRange { min: 2, max: 6 })
    &&& f.starting_life == 20
    &&& f.starting_hand == 7
    &&& f.max_hand_size == 7
    &&& f.mulligan == (MulliganRule::London { free_first: true })
    &&& f.deck == (Deck {
        size: DeckSize::Min(40),
        singleton: false,
        includes_commander: false,
        max_copies: None,
    })
    &&& f.rules@.len() == 0
    &&& f.legality.pool matches CardPool::Builtin(set) && set@ == "core"@
    &&& f.legality.banned@.len() == 0
    &&& f.legality.allowed@.len() == 0
}

/// Commander: forty life, singleton decks of a hundred.
pub open spec fn is_commander(f: Format) -> bool {
    &&& f.name@ == "Commander"@
    &&& f.players == (PlayerRange { min: 2, max: 4 })
    &&& f.starting_life == 40
    &&& f.starting_hand == 7
    &&& f.max_hand_size == 7
    &&& f.mulligan == (MulliganRule::London { free_first: true })
    &&& f.deck == (Deck {
        size: DeckSize::Exact(100),
        singleton: true,
        includes_commander: true,
        max_copies: None,
    })
    &&& f.rules@ == seq![
        FormatRule::Commander,
        FormatRule::CommanderDamage(21),
        FormatRule::ColorIdentity,
    ]
    &&& f.legality.pool matches CardPool::Scryfall { format } && format@ == "commander"@
    &&& f.legality.banned@.len() == 0
    &&& f.legality.allowed@.len() == 0
}

impl Format {
    /// Formats that ship with the engine, by name.
    pub fn builtin_names() -> (r: Vec<&'static str>)
        ensures
            r@.len() == 4,
            r@[0]@ == "cube"@,
            r@[1]@ == "two-player"@,
            r@[2]@ == "free-for-all"@,
            r@[3]@ == "commander"@,
    {
        let mut v: Vec<&'static str> = Vec::new();
        v.push("cube");
        v.push("two-player");
        v.push("free-for-all");
        v.push("commander");
        v
    }

    pub fn builtin(name: &str) -> (r: Option<Format>)
        ensures
            r is Some <==> shipped(name@),
            match r {
                Some(f) => if name@ == "cube"@ {
                    is_cube(f)
                } else if name@ == "two-player"@ {
                    is_two_player(f)
                } else if name@ == "free-for-all"@ {
                    is_free_for_all(f)
                } else {
                    is_commander(f)
                },
                None => true,
            },
    {
        if same_text(name, "cube") {
            Some(Format::cube())
        } else if same_text(name, "two-player") {
            Some(Format::two_player())
        } else if same_text(name, "free-for-all") {
            Some(Format::free_for_all())
        } else if same_text(name, "commander") {
            Some(Format::commander())
        } else {
            None
        }
    }

    pub fn cube() -> (f: Format)
        ensures
            is_cube(f),
    {
        Format {
            name: "Cube".to_owned(),
            players: PlayerRange { min: 2, max: 2 },
            starting_life: 20,
            starting_hand: 7,
            max_hand_size: default_max_hand_size(),
            mulligan: MulliganRule::London { free_first: false },
            deck: Deck {
                size: DeckSize::Min(40),
                singleton: false,
                includes_commander: false,
                max_copies: None,
            },
            rules: Vec::new(),
            legality: Legality {
                pool: CardPool::Builtin("core".to_owned()),
                banned: Vec::new(),
                allowed: Vec::new(),
            },
        }
    }

    pub fn two_player() -> (f: Format)
        ensures
            is_two_player(f),
    {
        Format {
            name: "Two-player".to_owned(),
            players: PlayerRange { min: 2, max: 2 },
            starting_life: 20,
            starting_hand: 7,
            max_hand_size: default_max_hand_size(),
            mulligan: MulliganRule::London { free_first: false },
            deck: Deck {
                size: DeckSize::Min(60),
                singleton: false,
                includes_commander: false,
                max_copies: Some(4),
            },
            rules: Vec::new(),
            legality: Legality {
                pool: CardPool::Builtin("core".to_owned()),
                banned: Vec::new(),
                allowed: Vec::new(),
            },
        }
    }

    pub fn free_for_all() -> (f: Format)
        ensures
            is_free_for_all(f),
    {
        Format {
            name: "Free-for-all".to_owned(),
            players: PlayerRange { min: 2, max: 6 },
            starting_life: 20,
            starting_hand: 7,
            max_hand_size: default_max_hand_size(),
            mulligan: MulliganRule::London { free_first: true },
            deck: Deck {
                size: DeckSize::Min(40),
                singleton: false,
                includes_commander: false,
                max_copies: None,
            },
            rules: Vec::new(),
            legality: Legality {
                pool: CardPool::Builtin("core".to_owned()),
                banned: Vec::new(),
                allowed: Vec::new(),
            },
        }
    }

    pub fn commander() -> (f: Format)
        ensures
            is_commander(f),
    {
        let mut rules: Vec<FormatRule> = Vec::new();
        rules.push(FormatRule::Commander);
        rules.push(FormatRule::CommanderDamage(21));
        rules.push(FormatRule::ColorIdentity);
        assert(rules@ =~= seq![
            FormatRule::Commander,
            FormatRule::CommanderDamage(21),
            FormatRule::ColorIdentity,
        ]);
        Format {
            name: "Commander".to_owned(),
            players: PlayerRange { min: 2, max: 4 },
            starting_life: 40,
            starting_hand: 7,
            max_hand_size: default_max_hand_size(),
            mulligan: MulliganRule::London { free_first: true },
            deck: Deck {
                size: DeckSize::Exact(100),
                singleton: true,
                includes_commander: true,
                max_copies: None,
            },
            rules,
            legality: Legality {
                pool: CardPool::Scryfall { format: "commander".to_owned() },
                banned: Vec::new(),
                allowed: Vec::new(),
            },
        }
    }
}

} // verus!
