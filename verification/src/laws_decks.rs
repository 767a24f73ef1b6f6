//! What a deck check reports, told by the cards of the deck and how many
//! there are of each.
use crate::card::{CardId, CardModel};
use crate::format::{deck_ids, lists, size_violations, CardPool, DeckSize, Format, LegalitySource, ViolationModel};
use crate::seqs::{dedup_n, law_sort_ascends, law_sort_forgets_order, law_sort_permutes, lemma_occurrences, lemma_sort_members, occurrences, sort, Key};
use crate::types::Supertype;
use crate::words::{char_eq_fold, eq_fold};
use vstd::prelude::*;

verus! {

/// How many copies of a card a deck has.
pub open spec fn copies(deck: Seq<CardId>, id: CardId) -> nat {
    deck.to_multiset().count(id)
}

/// The card is a basic land.
pub open spec fn is_basic(card: CardModel) -> bool {
    card.supertypes.contains(Supertype::Basic)
}

proof fn lemma_dedup_keeps(s: Seq<CardId>, n: nat, i: int)
    requires
        0 <= i < n <= s.len(),
    ensures
        dedup_n(s, n).contains(s[i]),
    decreases n,
{
    let rest = dedup_n(s, (n - 1) as nat);
    if n >= 2 && s[n - 2] == s[n - 1] {
        if i < n - 1 {
            lemma_dedup_keeps(s, (n - 1) as nat, i);
        } else {
            lemma_dedup_keeps(s, (n - 1) as nat, n - 2);
        }
    } else if i < n - 1 {
        lemma_dedup_keeps(s, (n - 1) as nat, i);
        let j = choose|j: int| 0 <= j < rest.len() && rest[j] == s[i];
        assert(dedup_n(s, n)[j] == s[i]);
    } else {
        assert(dedup_n(s, n)[rest.len() as int] == s[i]);
    }
}

proof fn lemma_dedup_from(s: Seq<CardId>, n: nat, j: int)
    requires
        n <= s.len(),
        0 <= j < dedup_n(s, n).len(),
    ensures
        exists|i: int| 0 <= i < n && s[i] == dedup_n(s, n)[j],
    decreases n,
{
    if n > 0 {
        let rest = dedup_n(s, (n - 1) as nat);
        if j < rest.len() {
            lemma_dedup_from(s, (n - 1) as nat, j);
            let i = choose|i: int| 0 <= i < n - 1 && s[i] == rest[j];
            assert(0 <= i < n && s[i] == dedup_n(s, n)[j]);
        } else {
            assert(s[n - 1] == dedup_n(s, n)[j]);
        }
    }
}

proof fn lemma_dedup_ascends(s: Seq<CardId>, n: nat)
    requires
        n <= s.len(),
        forall|i: int, j: int| 0 <= i <= j < s.len() ==> s[i] <= s[j],
    ensures
        forall|i: int, j: int|
            0 <= i < j < dedup_n(s, n).len() ==> dedup_n(s, n)[i] < dedup_n(s, n)[j],
    decreases n,
{
    if n > 0 {
        lemma_dedup_ascends(s, (n - 1) as nat);
        let rest = dedup_n(s, (n - 1) as nat);
        if n == 1 || s[n - 2] != s[n - 1] {
            assert forall|i: int, j: int| 0 <= i < j < dedup_n(s, n).len() implies dedup_n(s, n)[i]
                < dedup_n(s, n)[j] by {
                if j == rest.len() {
                    lemma_dedup_from(s, (n - 1) as nat, i);
                    let k = choose|k: int| 0 <= k < n - 1 && s[k] == rest[i];
                    assert(s[k] <= s[n - 2]);
                    assert(s[n - 2] <= s[n - 1]);
                }
            }
        }
    }
}

/// A deck check looks at every card of the deck once, in the order of the ids.
pub proof fn law_every_card_is_looked_at_once(deck: Seq<CardId>, id: CardId)
    ensures
        deck_ids(deck).contains(id) <==> deck.contains(id),
        forall|i: int, j: int|
            0 <= i < j < deck_ids(deck).len() ==> deck_ids(deck)[i] < deck_ids(deck)[j],
{
    let s = sort(deck);
    lemma_sort_members(deck, id);
    law_sort_ascends(deck);
    assert forall|i: int, j: int| 0 <= i <= j < s.len() implies s[i] <= s[j] by {
        assert(s[i].below(s[j]));
    }
    lemma_dedup_ascends(s, s.len());
    if s.contains(id) {
        let i = choose|i: int| 0 <= i < s.len() && s[i] == id;
        lemma_dedup_keeps(s, s.len(), i);
    }
    if deck_ids(deck).contains(id) {
        let j = choose|j: int| 0 <= j < deck_ids(deck).len() && deck_ids(deck)[j] == id;
        lemma_dedup_from(s, s.len(), j);
    }
}

impl Format {
    /// One card of a deck gives rise to the violation.
    spec fn faults<L: LegalitySource>(
        self,
        deck: Seq<CardId>,
        db: Seq<CardModel>,
        source: Option<&L>,
        id: CardId,
        v: ViolationModel,
    ) -> bool {
        let card = db[id as int];
        let n = copies(deck, id);
        let banned = lists(self.legality.banned@, card.name);
        let open = !banned && !lists(self.legality.allowed@, card.name);
        match v {
            ViolationModel::NotSingleton { name, count } => self.deck.singleton && n > 1
                && !is_basic(card) && name == card.name && count == n,
            ViolationModel::TooManyCopies { name, count, max } => !(self.deck.singleton && n > 1)
                && self.deck.max_copies is Some && n > self.deck.max_copies->0 && !is_basic(card)
                && name == card.name && count == n && max == self.deck.max_copies->0,
            ViolationModel::Banned { name } => banned && name == card.name,
            ViolationModel::NotInPool { name } => open && name == card.name && (
            match self.legality.pool {
                CardPool::Builtin(set) => card.set != set@,
                CardPool::Scryfall { format } => source is Some && source->0.says(
                    card.name,
                    format@,
                ) != Some(true),
                _ => false,
            }),
            ViolationModel::UnsupportedPool { pool } => open && pool == self.legality.pool.words()
                && (self.legality.pool is Dir || self.legality.pool is Sets),
            _ => false,
        }
    }
}

proof fn lemma_pushed<T>(s: Seq<T>, x: T, v: T)
    ensures
        s.push(x).contains(v) <==> s.contains(v) || v == x,
{
    if s.contains(v) {
        let i = choose|i: int| 0 <= i < s.len() && s[i] == v;
        assert(s.push(x)[i] == v);
    }
    assert(s.push(x)[s.len() as int] == x);
}

proof fn lemma_faults<L: LegalitySource>(
    f: &Format,
    deck: Seq<CardId>,
    db: Seq<CardModel>,
    source: Option<&L>,
    v: ViolationModel,
    n: nat,
)
    requires
        n <= deck_ids(deck).len(),
        !(v is NeedsCardData),
    ensures
        f.violations_n(deck, db, source, n).contains(v) <==> size_violations(
            f.deck.size,
            deck.len(),
        ).contains(v) || exists|j: int|
            0 <= j < n && f.faults(deck, db, source, #[trigger] deck_ids(deck)[j], v),
    decreases n,
{
    if n > 0 {
        lemma_faults(f, deck, db, source, v, (n - 1) as nat);
        let ids = deck_ids(deck);
        let id = ids[n - 1];
        let card = db[id as int];
        let out = f.violations_n(deck, db, source, (n - 1) as nat);
        let now = f.violations_n(deck, db, source, n);
        let count = occurrences(deck, id, deck.len());
        lemma_occurrences(deck, id, deck.len());
        assert(deck.subrange(0, deck.len() as int) =~= deck);
        let legal = f.asks(source, card);
        let mid = f.with_copies(out, card, count);
        let a = ViolationModel::NotSingleton { name: card.name, count };
        let b = ViolationModel::TooManyCopies {
            name: card.name,
            count,
            max: f.deck.max_copies->0 as nat,
        };
        lemma_pushed(out, a, v);
        lemma_pushed(out, b, v);
        lemma_pushed(mid, ViolationModel::Banned { name: card.name }, v);
        lemma_pushed(mid, ViolationModel::NotInPool { name: card.name }, v);
        let p = ViolationModel::UnsupportedPool { pool: f.legality.pool.words() };
        lemma_pushed(mid, p, v);
        if f.legality.pool is Scryfall {
            lemma_pushed(
                mid,
                ViolationModel::NeedsCardData { format: f.legality.pool->format@ },
                v,
            );
        }
        assert(now == f.with_card(out, card, count, legal));
        assert(card.basic() == is_basic(card));
        assert(now.contains(v) <==> out.contains(v) || f.faults(deck, db, source, id, v));
        if f.faults(deck, db, source, id, v) {
            assert(0 <= n - 1 < n && f.faults(deck, db, source, ids[n - 1], v));
        }
        if exists|j: int| 0 <= j < n - 1 && f.faults(deck, db, source, #[trigger] ids[j], v) {
            let j = choose|j: int|
                0 <= j < n - 1 && f.faults(deck, db, source, #[trigger] ids[j], v);
            assert(0 <= j < n && f.faults(deck, db, source, ids[j], v));
        }
    }
}

proof fn lemma_reported<L: LegalitySource>(
    f: &Format,
    deck: Seq<CardId>,
    db: Seq<CardModel>,
    source: Option<&L>,
    v: ViolationModel,
)
    requires
        !(v is NeedsCardData),
    ensures
        f.violations(deck, db, source).contains(v) <==> size_violations(
            f.deck.size,
            deck.len(),
        ).contains(v) || exists|id: CardId|
            #[trigger] deck.contains(id) && f.faults(deck, db, source, id, v),
{
    let ids = deck_ids(deck);
    lemma_faults(f, deck, db, source, v, ids.len());
    if exists|id: CardId| #[trigger] deck.contains(id) && f.faults(deck, db, source, id, v) {
        let id = choose|id: CardId|
            #[trigger] deck.contains(id) && f.faults(deck, db, source, id, v);
        law_every_card_is_looked_at_once(deck, id);
        let j = choose|j: int| 0 <= j < ids.len() && ids[j] == id;
        assert(f.faults(deck, db, source, ids[j], v));
    }
    if exists|j: int| 0 <= j < ids.len() && f.faults(deck, db, source, #[trigger] ids[j], v) {
        let j = choose|j: int|
            0 <= j < ids.len() && f.faults(deck, db, source, #[trigger] ids[j], v);
        assert(ids.contains(ids[j]));
        law_every_card_is_looked_at_once(deck, ids[j]);
        assert(deck.contains(ids[j]) && f.faults(deck, db, source, ids[j], v));
    }
}

/// A deck with nothing against it has no more copies of any card that is not a
/// basic land than the format allows, and only one where the format is
/// singleton.
pub proof fn law_legal_decks_keep_to_the_copies<L: LegalitySource>(
    f: &Format,
    deck: Seq<CardId>,
    db: Seq<CardModel>,
    source: Option<&L>,
    id: CardId,
)
    requires
        f.violations(deck, db, source).len() == 0,
        !db[id as int].supertypes.contains(Supertype::Basic),
    ensures
        f.deck.max_copies matches Some(m) ==> deck.to_multiset().count(id) <= m,
        f.deck.singleton ==> deck.to_multiset().count(id) <= 1,
{
    broadcast use vstd::seq_lib::group_to_multiset_ensures;

    let card = db[id as int];
    let n = copies(deck, id);
    if n > 0 {
        assert(deck.contains(id));
        let a = ViolationModel::NotSingleton { name: card.name, count: n };
        let b = ViolationModel::TooManyCopies {
            name: card.name,
            count: n,
            max: f.deck.max_copies->0 as nat,
        };
        lemma_reported(f, deck, db, source, a);
        lemma_reported(f, deck, db, source, b);
        assert(!f.violations(deck, db, source).contains(a));
        assert(!f.violations(deck, db, source).contains(b));
        assert(!f.faults(deck, db, source, id, a));
        assert(!f.faults(deck, db, source, id, b));
    }
}

/// A violation about copies is of a card of the deck that is not a basic land,
/// and tells how many there are and how many there may be. So none ever names
/// a card whose every namesake in the deck is a basic land.
pub proof fn law_copies_are_of_other_than_basics<L: LegalitySource>(
    f: &Format,
    deck: Seq<CardId>,
    db: Seq<CardModel>,
    source: Option<&L>,
    v: ViolationModel,
)
    requires
        f.violations(deck, db, source).contains(v),
    ensures
        v matches ViolationModel::NotSingleton { name, count } ==> (f.deck.singleton && count > 1
            && exists|id: CardId|
            #[trigger] deck.contains(id) && db[id as int].name == name
                && !db[id as int].supertypes.contains(Supertype::Basic)
                && deck.to_multiset().count(id) == count),
        v matches ViolationModel::TooManyCopies { name, count, max } ==> (count > max
            && f.deck.max_copies is Some && max == f.deck.max_copies->0 && exists|id: CardId|
            #[trigger] deck.contains(id) && db[id as int].name == name
                && !db[id as int].supertypes.contains(Supertype::Basic)
                && deck.to_multiset().count(id) == count),
{
    if v is NotSingleton || v is TooManyCopies {
        lemma_reported(f, deck, db, source, v);
        let id = choose|id: CardId|
            #[trigger] deck.contains(id) && f.faults(deck, db, source, id, v);
        assert(deck.contains(id) && f.faults(deck, db, source, id, v));
    }
}

/// More copies of a card than the format allows are always reported.
pub proof fn law_too_many_copies_are_reported<L: LegalitySource>(
    f: &Format,
    deck: Seq<CardId>,
    db: Seq<CardModel>,
    source: Option<&L>,
    id: CardId,
)
    requires
        !db[id as int].supertypes.contains(Supertype::Basic),
    ensures
        ({
            let n = deck.to_multiset().count(id);
            let name = db[id as int].name;
            let out = f.violations(deck, db, source);
            &&& f.deck.singleton && n > 1 ==> out.contains(
                ViolationModel::NotSingleton { name, count: n },
            )
            &&& f.deck.max_copies matches Some(m) ==> (n > m && !f.deck.singleton ==> out.contains(
                ViolationModel::TooManyCopies { name, count: n, max: m as nat },
            ))
        }),
{
    broadcast use vstd::seq_lib::group_to_multiset_ensures;

    let card = db[id as int];
    let n = copies(deck, id);
    let a = ViolationModel::NotSingleton { name: card.name, count: n };
    let b = ViolationModel::TooManyCopies {
        name: card.name,
        count: n,
        max: f.deck.max_copies->0 as nat,
    };
    lemma_reported(f, deck, db, source, a);
    lemma_reported(f, deck, db, source, b);
    if n > 0 {
        assert(deck.contains(id));
        if f.deck.singleton && n > 1 {
            assert(f.faults(deck, db, source, id, a));
        }
        if f.deck.max_copies is Some && n > f.deck.max_copies->0 && !f.deck.singleton {
            assert(f.faults(deck, db, source, id, b));
        }
    }
}

/// A card is reported as banned if and only if it is in the deck and its name
/// is on the list of banned cards; a legal deck holds none.
pub proof fn law_banned_cards_are_reported<L: LegalitySource>(
    f: &Format,
    deck: Seq<CardId>,
    db: Seq<CardModel>,
    source: Option<&L>,
    id: CardId,
    i: int,
    name: Seq<char>,
)
    ensures
        deck.contains(id) && 0 <= i < f.legality.banned@.len() && f.legality.banned@[i]@ == db[id
            as int].name ==> f.violations(deck, db, source).contains(
            ViolationModel::Banned { name: db[id as int].name },
        ),
        f.legality.banned@.len() == 0 ==> !f.violations(deck, db, source).contains(
            ViolationModel::Banned { name },
        ),
        f.violations(deck, db, source).contains(ViolationModel::Banned { name }) ==> exists|
            c: CardId,
        |
            #[trigger] deck.contains(c) && db[c as int].name == name,
{
    let v = ViolationModel::Banned { name: db[id as int].name };
    let w = ViolationModel::Banned { name };
    lemma_reported(f, deck, db, source, v);
    lemma_reported(f, deck, db, source, w);
    if deck.contains(id) && 0 <= i < f.legality.banned@.len() && f.legality.banned@[i]@ == db[id
        as int].name {
        assert(crate::words::eq_fold(f.legality.banned@[i]@, db[id as int].name));
        assert(f.faults(deck, db, source, id, v));
    }
    if f.violations(deck, db, source).contains(w) {
        let c = choose|c: CardId| #[trigger]
            deck.contains(c) && f.faults(deck, db, source, c, w);
        assert(deck.contains(c) && f.faults(deck, db, source, c, w));
    }
}

/// From a built-in card set, a card of another set is reported unless the
/// format allows or bans it by name, and a card of the set never is.
pub proof fn law_other_sets_are_reported<L: LegalitySource>(
    f: &Format,
    deck: Seq<CardId>,
    db: Seq<CardModel>,
    source: Option<&L>,
    id: CardId,
    set: Seq<char>,
)
    requires
        f.legality.pool matches CardPool::Builtin(s) && s@ == set,
        f.legality.banned@.len() == 0,
        f.legality.allowed@.len() == 0,
    ensures
        deck.contains(id) && db[id as int].set != set ==> f.violations(deck, db, source).contains(
            ViolationModel::NotInPool { name: db[id as int].name },
        ),
        (forall|c: CardId| #[trigger] deck.contains(c) ==> db[c as int].set == set) ==> !f.violations(
            deck,
            db,
            source,
        ).contains(ViolationModel::NotInPool { name: db[id as int].name }),
{
    let v = ViolationModel::NotInPool { name: db[id as int].name };
    lemma_reported(f, deck, db, source, v);
    if deck.contains(id) && db[id as int].set != set {
        assert(f.faults(deck, db, source, id, v));
    }
}

/// From the pool of a format's legality data, a card is reported unless the
/// data says that it is legal there, or the format allows or bans it by name.
pub proof fn law_illegal_cards_are_reported<L: LegalitySource>(
    f: &Format,
    deck: Seq<CardId>,
    db: Seq<CardModel>,
    source: &L,
    id: CardId,
    format: Seq<char>,
)
    requires
        f.legality.pool matches CardPool::Scryfall { format: s } && s@ == format,
        f.legality.banned@.len() == 0,
        f.legality.allowed@.len() == 0,
    ensures
        deck.contains(id) && source.says(db[id as int].name, format) != Some(true)
            ==> f.violations(deck, db, Some(source)).contains(
            ViolationModel::NotInPool { name: db[id as int].name },
        ),
        (forall|c: CardId| #[trigger]
            deck.contains(c) ==> source.says(db[c as int].name, format) == Some(true))
            ==> !f.violations(deck, db, Some(source)).contains(
            ViolationModel::NotInPool { name: db[id as int].name },
        ),
{
    let v = ViolationModel::NotInPool { name: db[id as int].name };
    lemma_reported(f, deck, db, Some(source), v);
    if deck.contains(id) && source.says(db[id as int].name, format) != Some(true) {
        assert(f.faults(deck, db, Some(source), id, v));
    }
}

/// Where every card is allowed, and in any format for a card allowed by name,
/// nothing is reported about the pool.
pub proof fn law_allowed_cards_pass<L: LegalitySource>(
    f: &Format,
    deck: Seq<CardId>,
    db: Seq<CardModel>,
    source: Option<&L>,
    name: Seq<char>,
    i: int,
)
    requires
        f.legality.pool is All || (0 <= i < f.legality.allowed@.len() && f.legality.allowed@[i]@
            == name),
    ensures
        !f.violations(deck, db, source).contains(ViolationModel::NotInPool { name }),
{
    let v = ViolationModel::NotInPool { name };
    lemma_reported(f, deck, db, source, v);
    if 0 <= i < f.legality.allowed@.len() && f.legality.allowed@[i]@ == name {
        assert(crate::words::eq_fold(f.legality.allowed@[i]@, name));
    }
}

/// The size of a deck is reported if and only if it is below the least or above
/// the most that the format allows; a legal deck is of a size in between.
pub proof fn law_deck_sizes<L: LegalitySource>(
    f: &Format,
    deck: Seq<CardId>,
    db: Seq<CardModel>,
    source: Option<&L>,
)
    ensures
        ({
            let n = deck.len();
            let out = f.violations(deck, db, source);
            match f.deck.size {
                DeckSize::Exact(k) => {
                    &&& n < k <==> out.contains(
                        ViolationModel::TooFewCards { have: n, need: k as nat },
                    )
                    &&& n > k <==> out.contains(
                        ViolationModel::TooManyCards { have: n, max: k as nat },
                    )
                    &&& out.len() == 0 ==> n == k
                },
                DeckSize::Min(k) => {
                    &&& n < k <==> out.contains(
                        ViolationModel::TooFewCards { have: n, need: k as nat },
                    )
                    &&& out.len() == 0 ==> n >= k
                },
                DeckSize::Range(lo, hi) => {
                    &&& n < lo <==> out.contains(
                        ViolationModel::TooFewCards { have: n, need: lo as nat },
                    )
                    &&& lo <= n && n > hi ==> out.contains(
                        ViolationModel::TooManyCards { have: n, max: hi as nat },
                    )
                    &&& out.len() == 0 ==> lo <= n <= hi
                },
            }
        }),
{
    let n = deck.len();
    let sv = size_violations(f.deck.size, n);
    let (lo, hi) = match f.deck.size {
        DeckSize::Exact(k) => (k, k),
        DeckSize::Min(k) => (k, k),
        DeckSize::Range(a, b) => (a, b),
    };
    let few = ViolationModel::TooFewCards { have: n, need: lo as nat };
    let many = ViolationModel::TooManyCards { have: n, max: hi as nat };
    lemma_reported(f, deck, db, source, few);
    lemma_reported(f, deck, db, source, many);
    if sv.len() > 0 {
        assert(sv[0] == few || sv[0] == many);
        assert(sv.contains(sv[0]));
    }
    assert(sv.contains(few) ==> sv[0] == few);
    assert(sv.contains(many) ==> sv[0] == many);
}

proof fn lemma_same_violations<L: LegalitySource>(
    f: &Format,
    a: Seq<CardId>,
    b: Seq<CardId>,
    db: Seq<CardModel>,
    source: Option<&L>,
    n: nat,
)
    requires
        a.len() == b.len(),
        deck_ids(a) == deck_ids(b),
        a.to_multiset() == b.to_multiset(),
    ensures
        f.violations_n(a, db, source, n) == f.violations_n(b, db, source, n),
    decreases n,
{
    if n > 0 && n <= deck_ids(a).len() {
        lemma_same_violations(f, a, b, db, source, (n - 1) as nat);
        let id = deck_ids(a)[n - 1];
        lemma_occurrences(a, id, a.len());
        lemma_occurrences(b, id, b.len());
        assert(a.subrange(0, a.len() as int) =~= a);
        assert(b.subrange(0, b.len() as int) =~= b);
    }
}

/// The order in which a deck lists its cards makes no difference.
pub proof fn law_deck_order_is_ignored<L: LegalitySource>(
    f: &Format,
    a: Seq<CardId>,
    b: Seq<CardId>,
    db: Seq<CardModel>,
    source: Option<&L>,
)
    requires
        a.to_multiset() == b.to_multiset(),
    ensures
        f.violations(a, db, source) == f.violations(b, db, source),
{
    law_sort_forgets_order(a, b);
    law_sort_permutes(a);
    law_sort_permutes(b);
    lemma_same_violations(f, a, b, db, source, deck_ids(a).len());
}

// ----- names -----

/// Names on a list are told apart by their letters, not by upper or lower case.
pub proof fn law_names_ignore_case(a: Seq<char>, b: Seq<char>, c: char)
    ensures
        eq_fold(a, a),
        eq_fold(a, b) ==> eq_fold(b, a) && a.len() == b.len(),
        'A' <= c && c <= 'Z' ==> char_eq_fold(c, ((c as u32) + 32) as char),
        char_eq_fold('a', 'b') == false,
        !('A' <= c && c <= 'Z') && char_eq_fold(c, 'z') ==> c == 'z',
{
    if eq_fold(a, b) {
        assert forall|i: int| 0 <= i < b.len() implies char_eq_fold(b[i], a[i]) by {
            assert(char_eq_fold(a[i], b[i]));
        }
    }
}

/// A list names a card if and only if one of its lines is the name up to case.
pub proof fn law_lists_name_cards(names: Seq<String>, name: Seq<char>, i: int)
    ensures
        0 <= i < names.len() && names[i]@ == name ==> lists(names, name),
        names.len() == 0 ==> !lists(names, name),
        (forall|k: int| 0 <= k < names.len() ==> (#[trigger] names[k])@.len() != name.len())
            ==> !lists(names, name),
{
    if 0 <= i < names.len() && names[i]@ == name {
        assert(eq_fold(names[i]@, name));
    }
}

} // verus!
