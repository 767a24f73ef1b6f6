//! The card database the engine plays from. Every card is a written card
//! plus the set it came from; tokens are synthesised from their `TokenSpec`
//! at runtime.
use crate::ir::{cost_colors, Ability, Amount, Card, Effect, Filter, Spell, Static, TokenSpec, Trigger};
use crate::seqs::{copied, group_views, in_list, reversed, views};
use crate::types::{has_word, CardType, Color, Keyword, ManaCost, Supertype};
use crate::words::{cat2, copied_strings, same_text};
use std::sync::Arc;
use vstd::prelude::*;
use vstd::string::*;

verus! {

broadcast use group_views;

/// Index into a [`CardDb`]. Stable for the life of a database instance.
/// Ids at or above the database length are tokens local to one game.
pub type CardId = u32;

#[derive(Debug, PartialEq, Eq)]
pub struct CardDef {
    pub name: String,
    pub cost: ManaCost,
    pub types: Vec<CardType>,
    pub supertypes: Vec<Supertype>,
    pub subtypes: Vec<String>,
    /// Present iff the card is a creature.
    pub pt: Option<(i32, i32)>,
    /// Oracle text, for display.
    pub text: String,
    /// The set this definition belongs to, used by `CardPool::Builtin`.
    pub set: String,
    pub keywords: Vec<Keyword>,
    /// Tokens have no card and are never in a library.
    pub token: bool,
    /// The card's colours (from its cost, or the token spec).
    pub colors: Vec<Color>,
    /// The behaviour the engine interprets.
    pub ir: Arc<Card>,
}

/// A card definition as a mathematical value.
#[verifier::ext_equal]
pub ghost struct CardModel {
    pub name: Seq<char>,
    pub cost: ManaCost,
    pub types: Seq<CardType>,
    pub supertypes: Seq<Supertype>,
    pub subtypes: Seq<String>,
    pub pt: Option<(i32, i32)>,
    pub text: Seq<char>,
    pub set: Seq<char>,
    pub keywords: Seq<Keyword>,
    pub token: bool,
    pub colors: Seq<Color>,
    pub spell: Option<Spell>,
    pub enchant: Option<Filter>,
    pub equip: Option<ManaCost>,
    pub statics: Seq<Static>,
    pub triggers: Seq<Trigger>,
    pub activated: Seq<Ability>,
}

impl View for CardDef {
    type V = CardModel;

    open spec fn view(&self) -> CardModel {
        CardModel {
            name: self.name@,
            cost: self.cost,
            types: self.types@,
            supertypes: self.supertypes@,
            subtypes: self.subtypes@,
            pt: self.pt,
            text: self.text@,
            set: self.set@,
            keywords: self.keywords@,
            token: self.token,
            colors: self.colors@,
            spell: self.ir.spell,
            enchant: self.ir.enchant,
            equip: self.ir.equip,
            statics: self.ir.statics@,
            triggers: self.ir.triggers@,
            activated: self.ir.activated@,
        }
    }
}

/// A token's definition.
pub open spec fn token_model(spec: TokenSpec) -> CardModel {
    CardModel {
        name: spec.name@,
        cost: ManaCost::zero(),
        types: spec.types@,
        supertypes: Seq::empty(),
        subtypes: spec.subtypes@,
        pt: spec.pt,
        text: Seq::empty(),
        set: "token"@,
        keywords: spec.keywords@,
        token: true,
        colors: spec.colors@,
        spell: None,
        enchant: None,
        equip: None,
        statics: Seq::empty(),
        triggers: Seq::empty(),
        activated: Seq::empty(),
    }
}

impl CardModel {
    pub open spec fn creature(self) -> bool {
        self.types.contains(CardType::Creature)
    }

    pub open spec fn land(self) -> bool {
        self.types.contains(CardType::Land)
    }

    pub open spec fn permanent(self) -> bool {
        exists|i: int| 0 <= i < self.types.len() && (#[trigger] self.types[i]).permanent()
    }

    pub open spec fn basic(self) -> bool {
        self.supertypes.contains(Supertype::Basic)
    }

    pub open spec fn aura(self) -> bool {
        self.enchant is Some
    }

    pub open spec fn equipment(self) -> bool {
        self.equip is Some
    }

    /// A modal spell ("Choose one —").
    pub open spec fn modal(self) -> bool {
        self.spell matches Some(s) && s.modes@.len() > 0
    }

    pub open spec fn instant_speed(self) -> bool {
        self.types.contains(CardType::Instant) || self.keywords.contains(Keyword::Flash)
    }

    /// Some mana ability adds mana of this colour.
    pub open spec fn makes(self, c: Color) -> bool {
        exists|i: int, j: int|
            #![trigger self.activated[i].effects@[j]]
            0 <= i < self.activated.len() && self.activated[i].makes_mana() && 0 <= j
                < self.activated[i].effects@.len() && (self.activated[i].effects@[j] matches
                Effect::AddMana { color, .. } && color == Some(c))
    }

    /// The colours its mana abilities add, each once, in W U B R G order.
    pub open spec fn produced(self) -> Seq<Color> {
        let s0 = Seq::<Color>::empty();
        let s1 = if self.makes(Color::White) {
            s0.push(Color::White)
        } else {
            s0
        };
        let s2 = if self.makes(Color::Blue) {
            s1.push(Color::Blue)
        } else {
            s1
        };
        let s3 = if self.makes(Color::Black) {
            s2.push(Color::Black)
        } else {
            s2
        };
        let s4 = if self.makes(Color::Red) {
            s3.push(Color::Red)
        } else {
            s3
        };
        if self.makes(Color::Green) {
            s4.push(Color::Green)
        } else {
            s4
        }
    }

    /// The `AddMana` effects among the first `n` of ability `i`, as entries.
    pub open spec fn mana_entries(effects: Seq<Effect>, i: nat, n: nat) -> Seq<
        (Option<Color>, Option<i32>, usize),
    >
        decreases n,
    {
        if n == 0 || n > effects.len() {
            Seq::empty()
        } else {
            let rest = CardModel::mana_entries(effects, i, (n - 1) as nat);
            match effects[n - 1] {
                Effect::AddMana { color, amount } => rest.push(
                    (
                        color,
                        match amount {
                            Amount::Const(k) => Some(k),
                            _ => None,
                        },
                        i as usize,
                    ),
                ),
                _ => rest,
            }
        }
    }

    /// The mana made by the mana abilities among the first `n` abilities.
    pub open spec fn mana_list(self, n: nat) -> Seq<(Option<Color>, Option<i32>, usize)>
        decreases n,
    {
        if n == 0 || n > self.activated.len() {
            Seq::empty()
        } else {
            let rest = self.mana_list((n - 1) as nat);
            let a = self.activated[n - 1];
            if a.makes_mana() {
                rest + CardModel::mana_entries(a.effects@, (n - 1) as nat, a.effects@.len())
            } else {
                rest
            }
        }
    }
}

impl CardDef {
    pub fn from_ir(card: Card, set: &str) -> (r: CardDef)
        ensures
            r@ == (CardModel {
                name: card.name@,
                cost: card.cost,
                types: card.types@,
                supertypes: card.supertypes@,
                subtypes: card.subtypes@,
                pt: card.pt,
                text: card.text@,
                set: set@,
                keywords: card.keywords@,
                token: false,
                colors: cost_colors(card.cost),
                spell: card.spell,
                enchant: card.enchant,
                equip: card.equip,
                statics: card.statics@,
                triggers: card.triggers@,
                activated: card.activated@,
            }),
            *r.ir == card,
    {
        CardDef {
            name: card.name.clone(),
            cost: card.cost,
            types: copied(&card.types),
            supertypes: copied(&card.supertypes),
            subtypes: copied_strings(&card.subtypes),
            pt: card.pt,
            text: card.text.clone(),
            set: set.to_owned(),
            keywords: copied(&card.keywords),
            token: false,
            colors: card.colors(),
            ir: Arc::new(card),
        }
    }

    /// A token as described by a `CreateToken` effect.
    pub fn token(spec: &TokenSpec) -> (r: CardDef)
        ensures
            r@ == token_model(*spec),
    {
        let ir = Card {
            name: spec.name.clone(),
            cost: ManaCost::generic(0),
            types: copied(&spec.types),
            supertypes: Vec::new(),
            subtypes: copied_strings(&spec.subtypes),
            pt: spec.pt,
            text: String::new(),
            keywords: copied(&spec.keywords),
            spell: None,
            enchant: None,
            equip: None,
            statics: Vec::new(),
            triggers: Vec::new(),
            activated: Vec::new(),
        };
        CardDef {
            name: spec.name.clone(),
            cost: ManaCost::generic(0),
            types: copied(&spec.types),
            supertypes: Vec::new(),
            subtypes: copied_strings(&spec.subtypes),
            pt: spec.pt,
            text: String::new(),
            set: "token".to_owned(),
            keywords: copied(&spec.keywords),
            token: true,
            colors: copied(&spec.colors),
            ir: Arc::new(ir),
        }
    }

    pub fn is_creature(&self) -> (b: bool)
        ensures
            b == self@.creature(),
    {
        in_list(&self.types, CardType::Creature)
    }

    pub fn is_land(&self) -> (b: bool)
        ensures
            b == self@.land(),
    {
        in_list(&self.types, CardType::Land)
    }

    pub fn is_permanent(&self) -> (b: bool)
        ensures
            b == self@.permanent(),
    {
        let mut i: usize = 0;
        while i < self.types.len()
            invariant
                i <= self.types.len(),
                forall|j: int| 0 <= j < i ==> !(#[trigger] self@.types[j]).permanent(),
            decreases self.types.len() - i,
        {
            if self.types[i].is_permanent() {
                assert(self@.types[i as int].permanent());
                return true;
            }
            i = i + 1;
        }
        false
    }

    pub fn is_basic(&self) -> (b: bool)
        ensures
            b == self@.basic(),
    {
        let mut i: usize = 0;
        while i < self.supertypes.len()
            invariant
                i <= self.supertypes.len(),
                forall|j: int| 0 <= j < i ==> self.supertypes@[j] != Supertype::Basic,
            decreases self.supertypes.len() - i,
        {
            if self.supertypes[i] == Supertype::Basic {
                return true;
            }
            i = i + 1;
        }
        false
    }

    pub fn is_aura(&self) -> (b: bool)
        ensures
            b == self@.aura(),
    {
        self.ir.enchant.is_some()
    }

    pub fn is_equipment(&self) -> (b: bool)
        ensures
            b == self@.equipment(),
    {
        self.ir.equip.is_some()
    }

    /// A modal spell ("Choose one —").
    pub fn is_modal(&self) -> (b: bool)
        ensures
            b == self@.modal(),
    {
        match &self.ir.spell {
            Some(s) => s.modes.len() > 0,
            None => false,
        }
    }

    pub fn has_keyword(&self, k: Keyword) -> (b: bool)
        ensures
            b == self@.keywords.contains(k),
    {
        has_word(&self.keywords, k)
    }

    /// Instants and cards with flash may be cast at any time.
    pub fn has_instant_speed(&self) -> (b: bool)
        ensures
            b == self@.instant_speed(),
    {
        in_list(&self.types, CardType::Instant) || self.has_keyword(Keyword::Flash)
    }

    fn makes_color(&self, c: Color) -> (b: bool)
        ensures
            b == self@.makes(c),
    {
        let mut i: usize = 0;
        while i < self.ir.activated.len()
            invariant
                i <= self.ir.activated.len(),
                forall|k: int, j: int|
                    #![trigger self@.activated[k].effects@[j]]
                    0 <= k < i && self@.activated[k].makes_mana() && 0 <= j
                        < self@.activated[k].effects@.len() ==> !(self@.activated[k].effects@[j] matches
                    Effect::AddMana { color, .. } && color == Some(c)),
            decreases self.ir.activated.len() - i,
        {
            let a = &self.ir.activated[i];
            if a.is_mana_ability() {
                let mut j: usize = 0;
                while j < a.effects.len()
                    invariant
                        i < self.ir.activated.len(),
                        j <= a.effects.len(),
                        *a == self@.activated[i as int],
                        a.makes_mana(),
                        forall|m: int|
                            #![trigger self@.activated[i as int].effects@[m]]
                            0 <= m < j ==> !(self@.activated[i as int].effects@[m] matches
                            Effect::AddMana { color, .. } && color == Some(c)),
                    decreases a.effects.len() - j,
                {
                    if let Effect::AddMana { color: Some(k), .. } = &a.effects[j] {
                        if *k == c {
                            assert(self@.activated[i as int].effects@[j as int] matches
                                Effect::AddMana { color, .. } && color == Some(c));
                            return true;
                        }
                    }
                    j = j + 1;
                }
            }
            i = i + 1;
        }
        false
    }

    /// Colours this permanent's mana abilities can make, each once.
    pub fn produces(&self) -> (r: Vec<Color>)
        ensures
            r@ == self@.produced(),
    {
        let mut out: Vec<Color> = Vec::new();
        if self.makes_color(Color::White) {
            out.push(Color::White);
        }
        if self.makes_color(Color::Blue) {
            out.push(Color::Blue);
        }
        if self.makes_color(Color::Black) {
            out.push(Color::Black);
        }
        if self.makes_color(Color::Red) {
            out.push(Color::Red);
        }
        if self.makes_color(Color::Green) {
            out.push(Color::Green);
        }
        out
    }

    /// The mana abilities as `(colour, amount, ability)`; `amount` is `None`
    /// when it depends on the board (evaluated by the engine at payment time).
    pub fn mana_abilities(&self) -> (r: Vec<(Option<Color>, Option<i32>, usize)>)
        ensures
            r@ == self@.mana_list(self@.activated.len()),
    {
        let mut out: Vec<(Option<Color>, Option<i32>, usize)> = Vec::new();
        let mut i: usize = 0;
        while i < self.ir.activated.len()
            invariant
                i <= self.ir.activated.len(),
                out@ == self@.mana_list(i as nat),
            decreases self.ir.activated.len() - i,
        {
            let a = &self.ir.activated[i];
            if a.is_mana_ability() {
                let ghost start = out@;
                let mut j: usize = 0;
                while j < a.effects.len()
                    invariant
                        j <= a.effects.len(),
                        out@ == start + CardModel::mana_entries(a.effects@, i as nat, j as nat),
                    decreases a.effects.len() - j,
                {
                    if let Effect::AddMana { color, amount } = &a.effects[j] {
                        let n: Option<i32> = match amount {
                            Amount::Const(k) => Some(*k),
                            _ => None,
                        };
                        out.push((*color, n, i));
                    }
                    j = j + 1;
                    assert(out@ =~= start + CardModel::mana_entries(a.effects@, i as nat, j as nat));
                }
            }
            i = i + 1;
        }
        out
    }
}

// ----- names -----

/// A code point with the Unicode property `White_Space`.
pub open spec fn white(c: char) -> bool {
    let n = c as u32;
    (9 <= n <= 13) || n == 0x20 || n == 0x85 || n == 0xa0 || n == 0x1680 || (0x2000 <= n <= 0x200a)
        || n == 0x2028 || n == 0x2029 || n == 0x202f || n == 0x205f || n == 0x3000
}

pub open spec fn all_white(s: Seq<char>) -> bool {
    forall|i: int| 0 <= i < s.len() ==> white(#[trigger] s[i])
}

/// A text without the white space it begins with.
pub open spec fn trim_front(s: Seq<char>) -> Seq<char>
    decreases s.len(),
{
    if s.len() > 0 && white(s[0]) {
        trim_front(s.drop_first())
    } else {
        s
    }
}

/// A text without the white space it ends with.
pub open spec fn trim_back(s: Seq<char>) -> Seq<char>
    decreases s.len(),
{
    if s.len() > 0 && white(s.last()) {
        trim_back(s.drop_last())
    } else {
        s
    }
}

/// A text without the white space around it.
pub open spec fn trimmed(s: Seq<char>) -> Seq<char> {
    trim_back(trim_front(s))
}

/// What `str::to_lowercase` makes of a text.
pub uninterp spec fn lowercased(s: Seq<char>) -> Seq<char>;

/// What the debug format (`{:?}`) makes of a text: quoted and escaped.
pub uninterp spec fn quoted(s: Seq<char>) -> Seq<char>;

/// Calls `str::trim`: the text without leading and trailing white space, as
/// Unicode's property `White_Space` has it.
#[verifier::external_body]
fn trim_text(s: &str) -> (r: &str)
    ensures
        r@ == trimmed(s@),
{
    s.trim()
}

/// Calls `str::to_lowercase`: the lower-case form of the text.
#[verifier::external_body]
fn lower_text(s: &str) -> (r: String)
    ensures
        r@ == lowercased(s@),
{
    s.to_lowercase()
}

/// Formats a text with `{:?}`, which quotes and escapes it.
#[verifier::external_body]
pub(crate) fn quote_text(s: &str) -> (r: String)
    ensures
        r@ == quoted(s@),
{
    format!("{s:?}")
}

/// The form of a name that lookups go by: no surrounding space, no case.
pub open spec fn name_key(name: Seq<char>) -> Seq<char> {
    lowercased(trimmed(name))
}

/// The index of the first card whose name has this key, among those from `i` on.
pub open spec fn find_name(cards: Seq<CardModel>, key: Seq<char>, i: nat) -> Option<CardId>
    decreases cards.len() - i,
{
    if i >= cards.len() {
        None
    } else if name_key(cards[i as int].name) == key {
        Some(i as u32)
    } else {
        find_name(cards, key, i + 1)
    }
}

/// No two cards share a name, whatever its case.
pub open spec fn names_distinct(cards: Seq<CardModel>) -> bool {
    forall|i: int, j: int|
        0 <= i < j < cards.len() ==> name_key(#[trigger] cards[i].name) != name_key(
            #[trigger] cards[j].name,
        )
}

pub proof fn lemma_find_name(cards: Seq<CardModel>, key: Seq<char>, i: nat)
    requires
        cards.len() <= u32::MAX,
    ensures
        match find_name(cards, key, i) {
            Some(c) => i <= c < cards.len() && name_key(cards[c as int].name) == key,
            None => forall|j: int| i <= j < cards.len() ==> name_key(#[trigger] cards[j].name) != key,
        },
    decreases cards.len() - i,
{
    if i < cards.len() {
        lemma_find_name(cards, key, i + 1);
    }
}

proof fn lemma_trim_front(pad: Seq<char>, s: Seq<char>)
    requires
        all_white(pad),
    ensures
        trim_front(pad + s) == trim_front(s),
    decreases pad.len(),
{
    if pad.len() > 0 {
        assert((pad + s)[0] == pad[0]);
        assert((pad + s).drop_first() =~= pad.drop_first() + s);
        lemma_trim_front(pad.drop_first(), s);
    } else {
        assert(pad + s =~= s);
    }
}

proof fn lemma_trim_back(s: Seq<char>, pad: Seq<char>)
    requires
        all_white(pad),
    ensures
        trim_back(s + pad) == trim_back(s),
    decreases pad.len(),
{
    if pad.len() > 0 {
        assert((s + pad).last() == pad.last());
        assert((s + pad).drop_last() =~= s + pad.drop_last());
        lemma_trim_back(s, pad.drop_last());
    } else {
        assert(s + pad =~= s);
    }
}

/// White space behind a text stays behind what is left of it in front, unless
/// nothing is.
proof fn lemma_trim_front_keeps(s: Seq<char>, pad: Seq<char>)
    requires
        all_white(pad),
    ensures
        trim_front(s + pad) == if all_white(s) {
            Seq::empty()
        } else {
            trim_front(s) + pad
        },
        all_white(s) ==> trim_front(s) == Seq::<char>::empty(),
    decreases s.len(),
{
    if s.len() > 0 && white(s[0]) {
        assert((s + pad)[0] == s[0]);
        assert((s + pad).drop_first() =~= s.drop_first() + pad);
        lemma_trim_front_keeps(s.drop_first(), pad);
        if all_white(s.drop_first()) {
            assert forall|i: int| 0 <= i < s.len() implies white(#[trigger] s[i]) by {
                if i > 0 {
                    assert(s.drop_first()[i - 1] == s[i]);
                }
            }
        } else {
            let j = choose|j: int|
                0 <= j < s.drop_first().len() && !white(#[trigger] s.drop_first()[j]);
            assert(s[j + 1] == s.drop_first()[j]);
        }
    } else if s.len() > 0 {
        assert((s + pad)[0] == s[0]);
    } else {
        assert(s + pad =~= pad);
        assert(pad + Seq::<char>::empty() =~= pad);
        lemma_trim_front(pad, Seq::empty());
    }
}

/// White space around a text does not matter to what is left when it is trimmed.
pub proof fn law_trimming_ignores_space_around(before: Seq<char>, s: Seq<char>, after: Seq<char>)
    requires
        all_white(before),
        all_white(after),
    ensures
        trimmed(before + s + after) == trimmed(s),
{
    assert(before + s + after =~= before + (s + after));
    lemma_trim_front(before, s + after);
    lemma_trim_front_keeps(s, after);
    if !all_white(s) {
        lemma_trim_back(trim_front(s), after);
    }
}

/// A card that was added is found under its name in any letter case and with
/// any white space around it; what was found before still is.
pub proof fn law_an_added_card_is_found(
    cards: Seq<CardModel>,
    card: CardModel,
    before: Seq<char>,
    name: Seq<char>,
    after: Seq<char>,
)
    requires
        insert_error(cards, card) is None,
        cards.len() < u32::MAX,
        all_white(before),
        all_white(after),
    ensures
        ({
            let written = before + name + after;
            let found = find_name(cards.push(card), name_key(written), 0);
            if lowercased(trimmed(name)) == lowercased(trimmed(card.name)) {
                found == Some(cards.len() as u32)
            } else {
                found == find_name(cards, name_key(name), 0)
            }
        }),
{
    let written = before + name + after;
    let key = name_key(written);
    let more = cards.push(card);
    law_trimming_ignores_space_around(before, name, after);
    lemma_find_name(cards, key, 0);
    lemma_find_name(more, key, 0);
    assert(forall|j: int| 0 <= j < cards.len() ==> #[trigger] more[j] == cards[j]);
    assert(more[cards.len() as int] == card);
    lemma_find_pushed(cards, card, key, 0);
    if key == name_key(card.name) {
        assert(find_name(cards, key, 0) is None);
    }
}

proof fn lemma_find_pushed(cards: Seq<CardModel>, card: CardModel, key: Seq<char>, i: nat)
    requires
        i <= cards.len(),
    ensures
        find_name(cards.push(card), key, i) == match find_name(cards, key, i) {
            Some(c) => Some(c),
            None => if name_key(card.name) == key {
                Some(cards.len() as u32)
            } else {
                None
            },
        },
    decreases cards.len() - i,
{
    let more = cards.push(card);
    if i < cards.len() {
        assert(more[i as int] == cards[i as int]);
        lemma_find_pushed(cards, card, key, i + 1);
    } else {
        assert(more[i as int] == card);
        assert(find_name(more, key, i + 1) is None);
    }
}

/// Why a card cannot be added to `cards`, if it cannot.
pub open spec fn insert_error(cards: Seq<CardModel>, card: CardModel) -> Option<Seq<char>> {
    if find_name(cards, name_key(card.name), 0) is Some {
        Some("duplicate card name "@ + quoted(card.name))
    } else if card.creature() != (card.pt is Some) {
        Some(quoted(card.name) + ": P/T must be present iff the card is a creature"@)
    } else {
        None
    }
}

#[derive(Debug, PartialEq, Eq)]
pub struct CardDb {
    pub cards: Vec<CardDef>,
}

impl View for CardDb {
    type V = Seq<CardModel>;

    open spec fn view(&self) -> Seq<CardModel> {
        views(self.cards@)
    }
}

/// What adding the first `n` of `more`, one at a time, to `cards` comes to:
/// the grown list, or the first error.
pub open spec fn insert_all(cards: Seq<CardModel>, more: Seq<CardModel>, n: nat) -> Result<
    Seq<CardModel>,
    Seq<char>,
>
    decreases n,
{
    if n == 0 || n > more.len() {
        Ok(cards)
    } else {
        match insert_all(cards, more, (n - 1) as nat) {
            Err(e) => Err(e),
            Ok(sofar) => match insert_error(sofar, more[n - 1]) {
                Some(e) => Err(e),
                None => Ok(sofar.push(more[n - 1])),
            },
        }
    }
}

/// The definition a written card becomes in `set`.
pub open spec fn def_of(card: Card, set: Seq<char>) -> CardModel {
    CardModel {
        name: card.name@,
        cost: card.cost,
        types: card.types@,
        supertypes: card.supertypes@,
        subtypes: card.subtypes@,
        pt: card.pt,
        text: card.text@,
        set,
        keywords: card.keywords@,
        token: false,
        colors: cost_colors(card.cost),
        spell: card.spell,
        enchant: card.enchant,
        equip: card.equip,
        statics: card.statics@,
        triggers: card.triggers@,
        activated: card.activated@,
    }
}

/// What building from the first `n` written cards comes to. Each comes with
/// what validating it found.
pub open spec fn build_all(
    set: Seq<char>,
    cards: Seq<(Card, Option<String>)>,
    n: nat,
) -> Result<Seq<CardModel>, Seq<char>>
    decreases n,
{
    if n == 0 || n > cards.len() {
        Ok(Seq::empty())
    } else {
        match build_all(set, cards, (n - 1) as nat) {
            Err(e) => Err(e),
            Ok(sofar) => match cards[n - 1].1 {
                Some(problem) => Err(problem@),
                None => match insert_error(sofar, def_of(cards[n - 1].0, set)) {
                    Some(e) => Err(e),
                    None => Ok(sofar.push(def_of(cards[n - 1].0, set))),
                },
            },
        }
    }
}

impl CardDb {
    /// A database of these cards, or the first reason there is none.
    pub fn new(cards: Vec<CardDef>) -> (r: Result<CardDb, String>)
        requires
            cards@.len() < u32::MAX,
        ensures
            match r {
                Ok(db) => insert_all(Seq::empty(), views(cards@), cards@.len()) == Ok::<
                    Seq<CardModel>,
                    Seq<char>,
                >(db@) && names_distinct(db@),
                Err(e) => insert_all(Seq::empty(), views(cards@), cards@.len()) == Err::<
                    Seq<CardModel>,
                    Seq<char>,
                >(e@),
            },
    {
        let ghost all = views(cards@);
        let ghost total = cards@.len();
        let mut db = CardDb { cards: Vec::new() };
        let mut left = reversed(cards);
        let mut i: usize = 0;
        while left.len() > 0
            invariant
                i + left.len() == total,
                total == all.len(),
                all == views(cards@),
                total < u32::MAX,
                forall|k: int|
                    0 <= k < left@.len() ==> (#[trigger] left@[k])@ == all[total - 1 - k],
                insert_all(Seq::empty(), all, i as nat) == Ok::<Seq<CardModel>, Seq<char>>(db@),
                db@.len() <= i,
                names_distinct(db@),
            decreases left.len(),
        {
            match left.pop() {
                Some(c) => {
                    assert(c@ == all[i as int]);
                    match db.insert(c) {
                        Ok(_) => {},
                        Err(e) => {
                            proof {
                                lemma_insert_all_err(Seq::empty(), all, (i + 1) as nat, total);
                            }
                            return Err(e);
                        },
                    }
                },
                None => {},
            }
            i = i + 1;
        }
        Ok(db)
    }

    /// Build from written cards, each with the problem validating it found,
    /// if any. One entry per name, ever.
    pub fn from_ir(set: &str, cards: Vec<(Card, Option<String>)>) -> (r: Result<CardDb, String>)
        requires
            cards@.len() < u32::MAX,
        ensures
            match r {
                Ok(db) => build_all(set@, cards@, cards@.len()) == Ok::<Seq<CardModel>, Seq<char>>(
                    db@,
                ) && names_distinct(db@),
                Err(e) => build_all(set@, cards@, cards@.len()) == Err::<Seq<CardModel>, Seq<char>>(
                    e@,
                ),
            },
    {
        let ghost all = cards@;
        let ghost total = cards@.len();
        let mut left = reversed(cards);
        let mut db = CardDb { cards: Vec::new() };
        let mut i: usize = 0;
        assert(db@ =~= Seq::empty());
        while left.len() > 0
            invariant
                i + left.len() == total,
                total == all.len(),
                all == cards@,
                total < u32::MAX,
                forall|k: int| 0 <= k < left@.len() ==> #[trigger] left@[k] == all[total - 1 - k],
                build_all(set@, all, i as nat) == Ok::<Seq<CardModel>, Seq<char>>(db@),
                db@.len() <= i,
                names_distinct(db@),
            decreases left.len(),
        {
            match left.pop() {
                Some((card, problem)) => {
                    assert((card, problem) == all[i as int]);
                    match problem {
                        Some(e) => {
                            proof {
                                lemma_build_all_err(set@, all, (i + 1) as nat, total);
                            }
                            return Err(e);
                        },
                        None => {},
                    }
                    match db.insert(CardDef::from_ir(card, set)) {
                        Ok(_) => {},
                        Err(e) => {
                            proof {
                                lemma_build_all_err(set@, all, (i + 1) as nat, total);
                            }
                            return Err(e);
                        },
                    }
                },
                None => {},
            }
            i = i + 1;
        }
        Ok(db)
    }

    /// Add a definition. Names are unique, case-insensitively.
    pub fn insert(&mut self, card: CardDef) -> (r: Result<CardId, String>)
        requires
            old(self)@.len() < u32::MAX,
        ensures
            match r {
                Ok(id) => insert_error(old(self)@, card@) is None && id == old(self)@.len()
                    && final(self)@ == old(self)@.push(card@),
                Err(e) => insert_error(old(self)@, card@) == Some(e@) && final(self)@ == old(
                    self,
                )@,
            },
            names_distinct(old(self)@) ==> names_distinct(final(self)@),
    {
        proof {
            lemma_find_name(self@, name_key(card@.name), 0);
        }
        if self.lookup(card.name.as_str()).is_some() {
            return Err(cat2("duplicate card name ", quote_text(card.name.as_str()).as_str()));
        }
        if card.is_creature() != card.pt.is_some() {
            return Err(
                cat2(
                    quote_text(card.name.as_str()).as_str(),
                    ": P/T must be present iff the card is a creature",
                ),
            );
        }
        let id: u32 = self.cards.len() as u32;
        self.cards.push(card);
        Ok(id)
    }

    pub fn get(&self, id: CardId) -> (r: &CardDef)
        requires
            id < self@.len(),
        ensures
            r@ == self@[id as int],
    {
        &self.cards[id as usize]
    }

    pub fn try_get(&self, id: CardId) -> (r: Option<&CardDef>)
        ensures
            match r {
                Some(c) => id < self@.len() && c@ == self@[id as int],
                None => id >= self@.len(),
            },
    {
        if (id as usize) < self.cards.len() {
            Some(&self.cards[id as usize])
        } else {
            None
        }
    }

    /// The card of this name, whatever its case and surrounding space.
    pub fn lookup(&self, name: &str) -> (r: Option<CardId>)
        requires
            self@.len() <= u32::MAX,
        ensures
            r == find_name(self@, name_key(name@), 0),
            match r {
                Some(c) => c < self@.len() && name_key(self@[c as int].name) == name_key(name@),
                None => forall|j: int|
                    0 <= j < self@.len() ==> name_key(#[trigger] self@[j].name) != name_key(name@),
            },
    {
        let key = lower_text(trim_text(name));
        proof {
            lemma_find_name(self@, name_key(name@), 0);
        }
        let mut i: usize = 0;
        while i < self.cards.len()
            invariant
                i <= self.cards.len(),
                self@.len() <= u32::MAX,
                key@ == name_key(name@),
                find_name(self@, name_key(name@), 0) == find_name(self@, name_key(name@), i as nat),
            decreases self.cards.len() - i,
        {
            let k = lower_text(trim_text(self.cards[i].name.as_str()));
            if same_text(k.as_str(), key.as_str()) {
                return Some(i as u32);
            }
            i = i + 1;
        }
        None
    }

    pub fn len(&self) -> (n: usize)
        ensures
            n == self@.len(),
    {
        self.cards.len()
    }

    pub fn is_empty(&self) -> (b: bool)
        ensures
            b == (self@.len() == 0),
    {
        self.cards.len() == 0
    }

    /// Every card with its id, in id order.
    pub fn iter(&self) -> (r: Vec<(CardId, &CardDef)>)
        requires
            self@.len() <= u32::MAX,
        ensures
            r@.len() == self@.len(),
            forall|i: int|
                0 <= i < r@.len() ==> (#[trigger] r@[i]).0 == i && r@[i].1@ == self@[i],
    {
        let mut out: Vec<(CardId, &CardDef)> = Vec::new();
        let mut i: usize = 0;
        while i < self.cards.len()
            invariant
                i <= self.cards.len(),
                self@.len() <= u32::MAX,
                out@.len() == i,
                forall|j: int|
                    0 <= j < i ==> (#[trigger] out@[j]).0 == j && out@[j].1@ == self@[j],
            decreases self.cards.len() - i,
        {
            out.push((i as u32, &self.cards[i]));
            i = i + 1;
        }
        out
    }
}

proof fn lemma_insert_all_err(cards: Seq<CardModel>, more: Seq<CardModel>, k: nat, n: nat)
    requires
        k <= n <= more.len(),
        insert_all(cards, more, k) is Err,
    ensures
        insert_all(cards, more, n) == insert_all(cards, more, k),
    decreases n,
{
    if k < n {
        lemma_insert_all_err(cards, more, k, (n - 1) as nat);
    }
}

proof fn lemma_build_all_err(set: Seq<char>, cards: Seq<(Card, Option<String>)>, k: nat, n: nat)
    requires
        k <= n <= cards.len(),
        build_all(set, cards, k) is Err,
    ensures
        build_all(set, cards, n) == build_all(set, cards, k),
    decreases n,
{
    if k < n {
        lemma_build_all_err(set, cards, k, (n - 1) as nat);
    }
}

} // verus!
