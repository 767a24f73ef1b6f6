//! Tooling around written cards: the round-trip and card-data reports.
use crate::ir::Card;
use crate::seqs::{group_views, views};
use crate::types::{CardType, Supertype};
use crate::words::{cat2, cat3, cat5, cat7, capitalize, capitalized, decimal, int_text, join, joined, nat_text, opt_text_view, same_text, signed};
use vstd::prelude::*;
use vstd::string::*;

verus! {

broadcast use group_views;

// ----- type lines -----

pub open spec fn super_words(s: Seq<Supertype>) -> Seq<Seq<char>> {
    Seq::new(s.len(), |i: int| capitalized(s[i].words()))
}

pub open spec fn sort_words(t: Seq<CardType>) -> Seq<Seq<char>> {
    Seq::new(t.len(), |i: int| capitalized(t[i].words()))
}

/// The type line as card data prints it.
pub open spec fn line_words(c: Card) -> Seq<char> {
    joined(super_words(c.supertypes@) + sort_words(c.types@), " "@) + if c.subtypes@.len() == 0 {
        Seq::empty()
    } else {
        " — "@ + joined(views(c.subtypes@), " "@)
    }
}

/// The type line as Scryfall prints it: "Legendary Creature — Elf Druid".
pub fn type_line(c: &Card) -> (r: String)
    ensures
        r@ == line_words(*c),
{
    let ghost first = super_words(c.supertypes@);
    let ghost second = sort_words(c.types@);
    let mut parts: Vec<String> = Vec::new();
    let mut i: usize = 0;
    while i < c.supertypes.len()
        invariant
            i <= c.supertypes.len(),
            first == super_words(c.supertypes@),
            views(parts@) == first.subrange(0, i as int),
        decreases c.supertypes.len() - i,
    {
        parts.push(capitalize(c.supertypes[i].word()));
        i = i + 1;
        assert(first.subrange(0, i as int) =~= first.subrange(0, i - 1).push(first[i - 1]));
    }
    assert(first.subrange(0, c.supertypes@.len() as int) =~= first);
    let mut k: usize = 0;
    assert(views(parts@) =~= first + second.subrange(0, 0));
    while k < c.types.len()
        invariant
            k <= c.types.len(),
            second == sort_words(c.types@),
            views(parts@) == first + second.subrange(0, k as int),
        decreases c.types.len() - k,
    {
        parts.push(capitalize(c.types[k].word()));
        k = k + 1;
        assert(views(parts@) =~= first + second.subrange(0, k as int));
    }
    assert(second.subrange(0, c.types@.len() as int) =~= second);
    let tail = if c.subtypes.len() == 0 {
        String::new()
    } else {
        cat2(" — ", join(&c.subtypes, " ").as_str())
    };
    cat2(join(&parts, " ").as_str(), tail.as_str())
}

// ----- card data -----

/// What card data says about a card.
#[derive(Debug)]
pub struct OracleCard {
    pub name: String,
    pub oracle_text: String,
    pub mana_cost: String,
    pub type_line: String,
    pub power: Option<String>,
    pub toughness: Option<String>,
}

/// What card data says, as a mathematical value.
#[verifier::ext_equal]
pub ghost struct OracleModel {
    pub name: Seq<char>,
    pub oracle_text: Seq<char>,
    pub mana_cost: Seq<char>,
    pub type_line: Seq<char>,
    pub power: Option<Seq<char>>,
    pub toughness: Option<Seq<char>>,
}

impl View for OracleCard {
    type V = OracleModel;

    open spec fn view(&self) -> OracleModel {
        OracleModel {
            name: self.name@,
            oracle_text: self.oracle_text@,
            mana_cost: self.mana_cost@,
            type_line: self.type_line@,
            power: opt_text_view(self.power),
            toughness: opt_text_view(self.toughness),
        }
    }
}

/// The first entry of a name, from index `i` on.
pub open spec fn entry_of(data: Seq<OracleModel>, name: Seq<char>, i: nat) -> Option<OracleModel>
    decreases data.len() - i,
{
    if i >= data.len() {
        None
    } else if data[i as int].name == name {
        Some(data[i as int])
    } else {
        entry_of(data, name, i + 1)
    }
}

/// How texts are brought into a form in which they can be compared.
pub trait TextForm {
    spec fn form(&self, text: Seq<char>, name: Seq<char>) -> Seq<char>;

    fn normalise(&self, text: &str, name: &str) -> (r: String)
        ensures
            r@ == self.form(text@, name@),
    ;
}

/// Texts compared as they are written.
#[derive(Copy, Clone, Debug, PartialEq, Eq)]
pub struct AsWritten;

impl TextForm for AsWritten {
    open spec fn form(&self, text: Seq<char>, name: Seq<char>) -> Seq<char> {
        text
    }

    fn normalise(&self, text: &str, name: &str) -> (r: String) {
        text.to_owned()
    }
}

/// A field that differs: the card, the field, ours, theirs.
#[derive(Debug)]
pub struct OracleDiff {
    pub name: String,
    pub field: String,
    pub ours: String,
    pub theirs: String,
}

/// A field that differs, as a mathematical value.
#[verifier::ext_equal]
pub ghost struct DiffModel {
    pub name: Seq<char>,
    pub field: Seq<char>,
    pub ours: Seq<char>,
    pub theirs: Seq<char>,
}

impl View for OracleDiff {
    type V = DiffModel;

    open spec fn view(&self) -> DiffModel {
        DiffModel {
            name: self.name@,
            field: self.field@,
            ours: self.ours@,
            theirs: self.theirs@,
        }
    }
}

/// A file that could not be read, and why.
#[derive(Debug)]
pub struct InvalidFile {
    pub file: String,
    pub error: String,
}

/// A card whose text does not come back: the text on the card, and what came back.
#[derive(Debug)]
pub struct Mismatch {
    pub name: String,
    pub want: String,
    pub got: String,
}

#[verifier::ext_equal]
pub ghost struct InvalidModel {
    pub file: Seq<char>,
    pub error: Seq<char>,
}

#[verifier::ext_equal]
pub ghost struct MismatchModel {
    pub name: Seq<char>,
    pub want: Seq<char>,
    pub got: Seq<char>,
}

impl View for InvalidFile {
    type V = InvalidModel;

    open spec fn view(&self) -> InvalidModel {
        InvalidModel { file: self.file@, error: self.error@ }
    }
}

impl View for Mismatch {
    type V = MismatchModel;

    open spec fn view(&self) -> MismatchModel {
        MismatchModel { name: self.name@, want: self.want@, got: self.got@ }
    }
}

#[derive(Debug)]
pub struct RoundTripReport {
    pub total: usize,
    pub exact: usize,
    pub invalid: Vec<InvalidFile>,
    pub mismatches: Vec<Mismatch>,
    /// Cards whose file disagrees with Scryfall.
    pub oracle_diffs: Vec<OracleDiff>,
    /// Cards the Scryfall data does not know at all.
    pub not_on_scryfall: Vec<String>,
    /// Whether the Scryfall data was consulted.
    pub oracle_checked: bool,
}

/// A report as a mathematical value.
#[verifier::ext_equal]
pub ghost struct ReportModel {
    pub total: usize,
    pub exact: usize,
    pub invalid: Seq<InvalidModel>,
    pub mismatches: Seq<MismatchModel>,
    pub oracle_diffs: Seq<DiffModel>,
    pub not_on_scryfall: Seq<Seq<char>>,
    pub oracle_checked: bool,
}

impl View for RoundTripReport {
    type V = ReportModel;

    open spec fn view(&self) -> ReportModel {
        ReportModel {
            total: self.total,
            exact: self.exact,
            invalid: views(self.invalid@),
            mismatches: views(self.mismatches@),
            oracle_diffs: views(self.oracle_diffs@),
            not_on_scryfall: views(self.not_on_scryfall@),
            oracle_checked: self.oracle_checked,
        }
    }
}

/// The cost as card data prints it: nothing for a land without one.
pub open spec fn printed_cost(c: Card) -> Seq<char> {
    if c.types@.contains(CardType::Land) && c.cost.free() {
        Seq::empty()
    } else {
        c.cost.words()
    }
}

pub open spec fn printed_pt(pt: Option<(i32, i32)>) -> Seq<char> {
    match pt {
        Some((p, t)) => signed(p as int) + "/"@ + signed(t as int),
        None => Seq::empty(),
    }
}

pub open spec fn data_pt(m: OracleModel) -> Seq<char> {
    match (m.power, m.toughness) {
        (Some(p), Some(t)) => p + "/"@ + t,
        _ => Seq::empty(),
    }
}

impl ReportModel {
    /// The report with a field added, if the two forms differ.
    pub open spec fn compared<F: TextForm>(
        self,
        form: &F,
        name: Seq<char>,
        field: Seq<char>,
        ours: Seq<char>,
        theirs: Seq<char>,
    ) -> ReportModel {
        if form.form(ours, name) != form.form(theirs, name) {
            ReportModel {
                oracle_diffs: self.oracle_diffs.push(DiffModel { name, field, ours, theirs }),
                ..self
            }
        } else {
            self
        }
    }

    /// The report with a card compared field by field.
    pub open spec fn card_checked<F: TextForm>(
        self,
        form: &F,
        data: Seq<OracleModel>,
        c: Card,
    ) -> ReportModel {
        match entry_of(data, c.name@, 0) {
            None => ReportModel { not_on_scryfall: self.not_on_scryfall.push(c.name@), ..self },
            Some(m) => self.compared(form, c.name@, "text"@, c.text@, m.oracle_text).compared(
                form,
                c.name@,
                "cost"@,
                printed_cost(c),
                m.mana_cost,
            ).compared(form, c.name@, "pt"@, printed_pt(c.pt), data_pt(m)).compared(
                form,
                c.name@,
                "type line"@,
                line_words(c),
                m.type_line,
            ),
        }
    }

    /// The report with the first `n` cards compared.
    pub open spec fn all_checked<F: TextForm>(
        self,
        form: &F,
        data: Seq<OracleModel>,
        cards: Seq<Card>,
        n: nat,
    ) -> ReportModel
        decreases n,
    {
        if n == 0 || n > cards.len() {
            ReportModel { oracle_checked: true, ..self }
        } else {
            self.all_checked(form, data, cards, (n - 1) as nat).card_checked(
                form,
                data,
                cards[n - 1],
            )
        }
    }

    pub open spec fn clean(self) -> bool {
        self.invalid.len() == 0 && self.mismatches.len() == 0 && self.oracle_diffs.len() == 0
    }
}

pub open spec fn invalid_lines(xs: Seq<InvalidModel>, n: nat) -> Seq<char>
    decreases n,
{
    if n == 0 || n > xs.len() {
        Seq::empty()
    } else {
        invalid_lines(xs, (n - 1) as nat) + ("INVALID   "@ + xs[n - 1].file + "\n  "@
            + xs[n - 1].error + "\n"@)
    }
}

pub open spec fn mismatch_lines(xs: Seq<MismatchModel>, n: nat) -> Seq<char>
    decreases n,
{
    if n == 0 || n > xs.len() {
        Seq::empty()
    } else {
        mismatch_lines(xs, (n - 1) as nat) + ("MISMATCH  "@ + xs[n - 1].name + "\n  oracle:   "@
            + xs[n - 1].want + "\n  rendered: "@ + xs[n - 1].got + "\n"@)
    }
}

pub open spec fn diff_lines(xs: Seq<DiffModel>, n: nat) -> Seq<char>
    decreases n,
{
    if n == 0 || n > xs.len() {
        Seq::empty()
    } else {
        let d = xs[n - 1];
        diff_lines(xs, (n - 1) as nat) + ("ORACLE    "@ + d.name + " ("@ + d.field
            + ")\n  ours:     "@ + d.ours + "\n  scryfall: "@ + d.theirs + "\n"@)
    }
}

pub open spec fn unknown_lines(xs: Seq<Seq<char>>, n: nat) -> Seq<char>
    decreases n,
{
    if n == 0 || n > xs.len() {
        Seq::empty()
    } else {
        unknown_lines(xs, (n - 1) as nat) + ("UNKNOWN   "@ + xs[n - 1]
            + " is not in the Scryfall data\n"@)
    }
}

impl ReportModel {
    pub open spec fn totals(self) -> Seq<char> {
        decimal(self.total as nat) + " cards, "@ + decimal(self.exact as nat)
            + " round-trip exactly, "@ + decimal(self.mismatches.len()) + " mismatch, "@ + decimal(
            self.invalid.len(),
        ) + " invalid"@ + (if self.oracle_checked {
            ", "@ + decimal(self.oracle_diffs.len()) + " differ from Scryfall"@
        } else {
            Seq::empty()
        }) + "\n"@
    }

    pub open spec fn words(self) -> Seq<char> {
        invalid_lines(self.invalid, self.invalid.len()) + mismatch_lines(
            self.mismatches,
            self.mismatches.len(),
        ) + diff_lines(self.oracle_diffs, self.oracle_diffs.len()) + unknown_lines(
            self.not_on_scryfall,
            self.not_on_scryfall.len(),
        ) + self.totals()
    }
}

fn find_entry<'a>(data: &'a Vec<OracleCard>, name: &str) -> (r: Option<&'a OracleCard>)
    ensures
        match r {
            Some(m) => entry_of(views(data@), name@, 0) == Some(m@),
            None => entry_of(views(data@), name@, 0) is None,
        },
{
    let ghost all = views(data@);
    assert(all.len() == data@.len());
    let mut i: usize = 0;
    while i < data.len()
        invariant
            i <= data.len(),
            all == views(data@),
            all.len() == data@.len(),
            entry_of(all, name@, 0) == entry_of(all, name@, i as nat),
        decreases data.len() - i,
    {
        assert(all[i as int] == data@[i as int]@);
        if same_text(data[i].name.as_str(), name) {
            return Some(&data[i]);
        }
        i = i + 1;
    }
    None
}

fn has_land(types: &Vec<CardType>) -> (b: bool)
    ensures
        b == types@.contains(CardType::Land),
{
    let mut i: usize = 0;
    while i < types.len()
        invariant
            i <= types.len(),
            forall|j: int| 0 <= j < i ==> types@[j] != CardType::Land,
        decreases types.len() - i,
    {
        if types[i] == CardType::Land {
            assert(types@[i as int] == CardType::Land);
            return true;
        }
        i = i + 1;
    }
    false
}

impl RoundTripReport {
    pub fn is_clean(&self) -> (b: bool)
        ensures
            b == self@.clean(),
    {
        assert(views(self.invalid@).len() == self.invalid@.len());
        assert(views(self.mismatches@).len() == self.mismatches@.len());
        assert(views(self.oracle_diffs@).len() == self.oracle_diffs@.len());
        self.invalid.len() == 0 && self.mismatches.len() == 0 && self.oracle_diffs.len() == 0
    }

    fn compare<F: TextForm>(
        &mut self,
        form: &F,
        name: &str,
        field: &str,
        ours: String,
        theirs: String,
    )
        ensures
            final(self)@ == old(self)@.compared(form, name@, field@, ours@, theirs@),
    {
        let a = form.normalise(ours.as_str(), name);
        let b = form.normalise(theirs.as_str(), name);
        if !same_text(a.as_str(), b.as_str()) {
            self.oracle_diffs.push(
                OracleDiff { name: name.to_owned(), field: field.to_owned(), ours, theirs },
            );
        }
    }

    fn check_card<F: TextForm>(&mut self, form: &F, data: &Vec<OracleCard>, c: &Card)
        ensures
            final(self)@ == old(self)@.card_checked(form, views(data@), *c),
    {
        let m = match find_entry(data, c.name.as_str()) {
            Some(m) => m,
            None => {
                self.not_on_scryfall.push(c.name.clone());
                return ;
            },
        };
        let name = c.name.as_str();
        self.compare(form, name, "text", c.text.clone(), m.oracle_text.clone());
        let cost = if has_land(&c.types) && c.cost.is_free() {
            String::new()
        } else {
            c.cost.text()
        };
        self.compare(form, name, "cost", cost, m.mana_cost.clone());
        let ours = match c.pt {
            Some((p, t)) => cat3(int_text(p as i64).as_str(), "/", int_text(t as i64).as_str()),
            None => String::new(),
        };
        let theirs = match (&m.power, &m.toughness) {
            (Some(p), Some(t)) => cat3(p.as_str(), "/", t.as_str()),
            _ => String::new(),
        };
        self.compare(form, name, "pt", ours, theirs);
        self.compare(form, name, "type line", type_line(c), m.type_line.clone());
    }

    /// Compare every card's text, cost, types, and P/T with the Scryfall data.
    pub fn check_oracle<F: TextForm>(
        &mut self,
        cards: &Vec<Card>,
        data: &Vec<OracleCard>,
        form: &F,
    )
        ensures
            final(self)@ == old(self)@.all_checked(form, views(data@), cards@, cards@.len()),
    {
        self.oracle_checked = true;
        let mut i: usize = 0;
        while i < cards.len()
            invariant
                i <= cards.len(),
                self@ == old(self)@.all_checked(form, views(data@), cards@, i as nat),
            decreases cards.len() - i,
        {
            self.check_card(form, data, &cards[i]);
            i = i + 1;
        }
    }

    fn invalid_text(&self) -> (r: String)
        ensures
            r@ == invalid_lines(self@.invalid, self@.invalid.len()),
    {
        let ghost all = self@.invalid;
        assert(all.len() == self.invalid@.len());
        let mut s = String::new();
        let mut i: usize = 0;
        while i < self.invalid.len()
            invariant
                i <= self.invalid.len(),
                all == views(self.invalid@),
                all.len() == self.invalid@.len(),
                s@ == invalid_lines(all, i as nat),
            decreases self.invalid.len() - i,
        {
            let x = &self.invalid[i];
            assert(all[i as int] == x@);
            s.append(
                cat5("INVALID   ", x.file.as_str(), "\n  ", x.error.as_str(), "\n").as_str(),
            );
            i = i + 1;
        }
        s
    }

    fn mismatch_text(&self) -> (r: String)
        ensures
            r@ == mismatch_lines(self@.mismatches, self@.mismatches.len()),
    {
        let ghost all = self@.mismatches;
        assert(all.len() == self.mismatches@.len());
        let mut s = String::new();
        let mut i: usize = 0;
        while i < self.mismatches.len()
            invariant
                i <= self.mismatches.len(),
                all == views(self.mismatches@),
                all.len() == self.mismatches@.len(),
                s@ == mismatch_lines(all, i as nat),
            decreases self.mismatches.len() - i,
        {
            let x = &self.mismatches[i];
            assert(all[i as int] == x@);
            s.append(
                cat7(
                    "MISMATCH  ",
                    x.name.as_str(),
                    "\n  oracle:   ",
                    x.want.as_str(),
                    "\n  rendered: ",
                    x.got.as_str(),
                    "\n",
                ).as_str(),
            );
            i = i + 1;
        }
        s
    }

    fn diff_text(&self) -> (r: String)
        ensures
            r@ == diff_lines(self@.oracle_diffs, self@.oracle_diffs.len()),
    {
        let ghost all = self@.oracle_diffs;
        assert(all.len() == self.oracle_diffs@.len());
        let mut s = String::new();
        let mut i: usize = 0;
        while i < self.oracle_diffs.len()
            invariant
                i <= self.oracle_diffs.len(),
                all == views(self.oracle_diffs@),
                all.len() == self.oracle_diffs@.len(),
                s@ == diff_lines(all, i as nat),
            decreases self.oracle_diffs.len() - i,
        {
            let d = &self.oracle_diffs[i];
            assert(all[i as int] == d@);
            let mut line = cat7(
                "ORACLE    ",
                d.name.as_str(),
                " (",
                d.field.as_str(),
                ")\n  ours:     ",
                d.ours.as_str(),
                "\n  scryfall: ",
            );
            line.append(d.theirs.as_str());
            line.append("\n");
            s.append(line.as_str());
            i = i + 1;
        }
        s
    }

    fn unknown_text(&self) -> (r: String)
        ensures
            r@ == unknown_lines(self@.not_on_scryfall, self@.not_on_scryfall.len()),
    {
        let ghost all = self@.not_on_scryfall;
        assert(all.len() == self.not_on_scryfall@.len());
        let mut s = String::new();
        let mut i: usize = 0;
        while i < self.not_on_scryfall.len()
            invariant
                i <= self.not_on_scryfall.len(),
                all == views(self.not_on_scryfall@),
                all.len() == self.not_on_scryfall@.len(),
                s@ == unknown_lines(all, i as nat),
            decreases self.not_on_scryfall.len() - i,
        {
            s.append(
                cat3(
                    "UNKNOWN   ",
                    self.not_on_scryfall[i].as_str(),
                    " is not in the Scryfall data\n",
                ).as_str(),
            );
            i = i + 1;
        }
        s
    }

    fn totals_text(&self) -> (r: String)
        ensures
            r@ == self@.totals(),
    {
        assert(views(self.invalid@).len() == self.invalid@.len());
        assert(views(self.mismatches@).len() == self.mismatches@.len());
        assert(views(self.oracle_diffs@).len() == self.oracle_diffs@.len());
        let mut s = cat5(
            nat_text(self.total as u64).as_str(),
            " cards, ",
            nat_text(self.exact as u64).as_str(),
            " round-trip exactly, ",
            nat_text(self.mismatches.len() as u64).as_str(),
        );
        s.append(" mismatch, ");
        s.append(nat_text(self.invalid.len() as u64).as_str());
        s.append(" invalid");
        let more = if self.oracle_checked {
            cat3(", ", nat_text(self.oracle_diffs.len() as u64).as_str(), " differ from Scryfall")
        } else {
            String::new()
        };
        s.append(more.as_str());
        s.append("\n");
        s
    }

    pub fn render(&self) -> (r: String)
        ensures
            r@ == self@.words(),
    {
        let mut s = self.invalid_text();
        s.append(self.mismatch_text().as_str());
        s.append(self.diff_text().as_str());
        s.append(self.unknown_text().as_str());
        s.append(self.totals_text().as_str());
        s
    }
}

// ----- round trips -----

/// A card and what came of rendering it back: `None` when its own text did,
/// else the text on the card and what came back.
#[derive(Debug)]
pub struct RoundTrip {
    pub name: String,
    pub mismatch: Option<(String, String)>,
}

/// How many of the first `n` came back exactly.
pub open spec fn exact_n(trips: Seq<RoundTrip>, n: nat) -> nat
    decreases n,
{
    if n == 0 || n > trips.len() {
        0
    } else {
        exact_n(trips, (n - 1) as nat) + if trips[n - 1].mismatch is None {
            1nat
        } else {
            0nat
        }
    }
}

/// Those of the first `n` that did not come back.
pub open spec fn mismatches_n(trips: Seq<RoundTrip>, n: nat) -> Seq<MismatchModel>
    decreases n,
{
    if n == 0 || n > trips.len() {
        Seq::empty()
    } else {
        let rest = mismatches_n(trips, (n - 1) as nat);
        match trips[n - 1].mismatch {
            None => rest,
            Some((want, got)) => rest.push(
                MismatchModel { name: trips[n - 1].name@, want: want@, got: got@ },
            ),
        }
    }
}

proof fn lemma_exact(trips: Seq<RoundTrip>, n: nat)
    requires
        n <= trips.len(),
    ensures
        exact_n(trips, n) + mismatches_n(trips, n).len() == n,
    decreases n,
{
    if n > 0 {
        lemma_exact(trips, (n - 1) as nat);
    }
}

/// Every card either comes back exactly or is listed as a mismatch.
pub proof fn law_every_card_is_accounted_for(trips: Seq<RoundTrip>)
    ensures
        exact_n(trips, trips.len()) + mismatches_n(trips, trips.len()).len() == trips.len(),
{
    lemma_exact(trips, trips.len());
}

/// The report on what came of rendering a list of cards back.
pub fn roundtrip(trips: &Vec<RoundTrip>) -> (r: RoundTripReport)
    ensures
        r@ == (ReportModel {
            total: trips@.len() as usize,
            exact: exact_n(trips@, trips@.len()) as usize,
            invalid: Seq::empty(),
            mismatches: mismatches_n(trips@, trips@.len()),
            oracle_diffs: Seq::empty(),
            not_on_scryfall: Seq::empty(),
            oracle_checked: false,
        }),
{
    let mut exact: usize = 0;
    let mut mismatches: Vec<Mismatch> = Vec::new();
    let mut i: usize = 0;
    while i < trips.len()
        invariant
            i <= trips.len(),
            exact == exact_n(trips@, i as nat),
            exact <= i,
            views(mismatches@) == mismatches_n(trips@, i as nat),
        decreases trips.len() - i,
    {
        match &trips[i].mismatch {
            None => {
                exact = exact + 1;
            },
            Some((want, got)) => {
                mismatches.push(
                    Mismatch { name: trips[i].name.clone(), want: want.clone(), got: got.clone() },
                );
            },
        }
        i = i + 1;
    }
    RoundTripReport {
        total: trips.len(),
        exact,
        invalid: Vec::new(),
        mismatches,
        oracle_diffs: Vec::new(),
        not_on_scryfall: Vec::new(),
        oracle_checked: false,
    }
}

/// The report on a directory: what came of the files that loaded, and the
/// files that did not.
pub fn roundtrip_files(trips: &Vec<RoundTrip>, invalid: Vec<InvalidFile>) -> (r: RoundTripReport)
    ensures
        r@ == (ReportModel {
            total: (if trips@.len() + invalid@.len() <= usize::MAX {
                trips@.len() + invalid@.len()
            } else {
                usize::MAX as nat
            }) as usize,
            exact: exact_n(trips@, trips@.len()) as usize,
            invalid: views(invalid@),
            mismatches: mismatches_n(trips@, trips@.len()),
            oracle_diffs: Seq::empty(),
            not_on_scryfall: Seq::empty(),
            oracle_checked: false,
        }),
{
    let mut r = roundtrip(trips);
    let loaded: usize = trips.len();
    r.total = if invalid.len() <= usize::MAX - loaded {
        loaded + invalid.len()
    } else {
        usize::MAX
    };
    r.invalid = invalid;
    r
}

} // verus!
