//! The tools an agent calls: what their parameters mean, and what they reply
//! where no game is needed to say it.
use crate::render::opt_words;
use crate::seqs::{group_views, views};
use crate::session::{LogLine, LogModel};
use crate::words::{cat2, cat3, cat4, cat5, decimal, join, joined, nat_text, opt_text_view, same_text};
use vstd::prelude::*;
use vstd::string::*;

verus! {

broadcast use group_views;

/// Short enough to come back before any client gives up on the call.
pub const DEFAULT_WAIT_SECS: u64 = 45;

// ----- parameters -----

#[derive(Debug)]
pub struct TakeActionParams {
    /// The id of an action from the last list of legal actions.
    pub action_id: Option<u32>,
    /// A full action in its written form instead of an id.
    pub action: Option<String>,
    /// The `state_version` the action list came from. If the game has moved on, the action is
    /// refused instead of being applied to a different situation.
    pub state_version: Option<u64>,
}

/// Which action is meant.
#[derive(Debug)]
pub enum ActionChoice<'a> {
    ById(u32),
    Written(&'a str),
    /// Neither or both.
    Unclear,
}

impl TakeActionParams {
    /// Exactly one of an id and a written action must be there.
    pub fn choice(&self) -> (r: ActionChoice)
        ensures
            match (self.action_id, self.action) {
                (Some(id), None) => r matches ActionChoice::ById(k) && k == id,
                (None, Some(a)) => r matches ActionChoice::Written(t) && t@ == a@,
                _ => r is Unclear,
            },
    {
        match (self.action_id, &self.action) {
            (Some(id), None) => ActionChoice::ById(id),
            (None, Some(a)) => ActionChoice::Written(a.as_str()),
            _ => ActionChoice::Unclear,
        }
    }
}

#[derive(Debug)]
pub struct WaitParams {
    /// Give up after this many seconds. Default 45.
    pub timeout_seconds: Option<u32>,
    /// Pass priority for you whenever passing (or conceding) is your only option, and keep
    /// waiting, so you are only woken when there is a real decision. Default true.
    pub auto_pass: Option<bool>,
}

impl WaitParams {
    /// How long to wait: at least a second.
    pub fn seconds(&self) -> (n: u64)
        ensures
            n == match self.timeout_seconds {
                Some(t) => if t == 0 {
                    1
                } else {
                    t as u64
                },
                None => DEFAULT_WAIT_SECS,
            },
    {
        match self.timeout_seconds {
            Some(t) => if t == 0 {
                1
            } else {
                t as u64
            },
            None => DEFAULT_WAIT_SECS,
        }
    }

    pub fn passes(&self) -> (b: bool)
        ensures
            b == (self.auto_pass != Some(false)),
    {
        match self.auto_pass {
            Some(b) => b,
            None => true,
        }
    }
}

#[derive(Debug)]
pub struct GetCardParams {
    /// A card name, e.g. "Grizzly Bears".
    pub name: Option<String>,
    /// An object id from the state, e.g. 12 for #12.
    pub object_id: Option<u32>,
    /// The card's engine definition as well as the prose.
    pub include_ir: Option<bool>,
}

#[derive(Debug)]
pub struct GetLogParams {
    /// Only lines from this turn onwards.
    pub since_turn: Option<u32>,
}

#[derive(Debug)]
pub struct SayParams {
    /// What to say.
    pub text: String,
}

#[derive(Debug)]
pub struct SearchParams {
    /// Scryfall-style query, e.g. `t:creature c:g mv<=2 o:"draw a card" kw:flying`.
    pub query: String,
    /// Most results to return. Default 20.
    pub limit: Option<u32>,
    /// Cards the engine cannot play yet as well. Default false: only playable cards.
    pub include_unimplemented: Option<bool>,
}

impl SearchParams {
    pub fn most(&self) -> (n: u32)
        ensures
            n == match self.limit {
                Some(k) => if k < 1 {
                    1
                } else if k > 200 {
                    200
                } else {
                    k
                },
                None => 20,
            },
    {
        match self.limit {
            Some(k) => if k < 1 {
                1
            } else if k > 200 {
                200
            } else {
                k
            },
            None => 20,
        }
    }

    /// The query that is searched. Without the full card data every card
    /// there is can be played, and nothing has to be said about it.
    pub fn search_text(&self, full_data: bool) -> (r: String)
        ensures
            r@ == if self.include_unimplemented == Some(true) || !full_data {
                self.query@
            } else {
                "("@ + self.query@ + ") is:implemented"@
            },
    {
        let all = match self.include_unimplemented {
            Some(b) => b,
            None => false,
        };
        if all || !full_data {
            self.query.clone()
        } else {
            cat3("(", self.query.as_str(), ") is:implemented")
        }
    }
}

#[derive(Debug)]
pub struct DeckStatsParams {
    /// A decklist in the standard text format: one `N Card Name` per line.
    pub decklist: String,
}

#[derive(Debug)]
pub struct SubmitDeckParams {
    /// The `name` of a deck, to play it as-is. Pass this or `decklist`.
    pub name: Option<String>,
    /// A decklist in the standard text format: one `N Card Name` per line.
    pub decklist: Option<String>,
}

/// Which deck is meant.
#[derive(Debug)]
pub enum DeckChoice<'a> {
    Named(&'a str),
    Listed(&'a str),
    Missing,
}

impl SubmitDeckParams {
    /// A name goes before a decklist.
    pub fn choice(&self) -> (r: DeckChoice)
        ensures
            match (self.name, self.decklist) {
                (Some(n), _) => r matches DeckChoice::Named(t) && t@ == n@,
                (None, Some(d)) => r matches DeckChoice::Listed(t) && t@ == d@,
                (None, None) => r is Missing,
            },
    {
        match (&self.name, &self.decklist) {
            (Some(n), _) => DeckChoice::Named(n.as_str()),
            (None, Some(d)) => DeckChoice::Listed(d.as_str()),
            (None, None) => DeckChoice::Missing,
        }
    }
}

#[derive(Debug)]
pub struct GetDeckParams {
    /// A deck's name or a file path.
    pub name: String,
}

#[derive(Debug)]
pub struct SitDownParams {
    /// The seat number to take. Leave it out to take the next free agent seat.
    pub seat: Option<u8>,
}

#[derive(Debug)]
pub struct EditorCardParams {
    /// The card's name.
    pub name: String,
    /// How many copies. Default 1.
    pub count: Option<u32>,
}

impl EditorCardParams {
    pub fn copies(&self) -> (n: u32)
        ensures
            n == match self.count {
                Some(k) => k,
                None => 1,
            },
    {
        match self.count {
            Some(k) => k,
            None => 1,
        }
    }
}

#[derive(Debug)]
pub struct EditorRemoveParams {
    /// The card's name.
    pub name: String,
    /// How many copies to remove. Default 1.
    pub count: Option<u32>,
    /// Remove every copy.
    pub all: Option<bool>,
}

impl EditorRemoveParams {
    pub fn copies(&self) -> (n: u32)
        ensures
            n == match self.count {
                Some(k) => k,
                None => 1,
            },
    {
        match self.count {
            Some(k) => k,
            None => 1,
        }
    }

    pub fn every_copy(&self) -> (b: bool)
        ensures
            b == (self.all == Some(true)),
    {
        match self.all {
            Some(b) => b,
            None => false,
        }
    }
}

#[derive(Debug)]
pub struct EditorSetCountParams {
    /// The card's name.
    pub name: String,
    /// The exact number of copies; 0 removes it.
    pub count: u32,
}

#[derive(Debug)]
pub struct EditorReplaceParams {
    /// The whole main deck, in the standard text format: one `N Card Name` per line.
    pub decklist: String,
}

/// Tools that drive the human's open deckbuilder; hidden from a seat in a game.
pub open spec fn deckbuilding_tool(name: Seq<char>) -> bool {
    name == "editor_status"@ || name == "editor_deck"@ || name == "editor_add_card"@ || name
        == "editor_remove_card"@ || name == "editor_set_count"@ || name == "editor_replace_deck"@
        || name == "editor_undo"@ || name == "editor_stats"@ || name == "editor_save"@
}

/// Whether a tool is on offer to a session that holds a seat, or holds none.
pub fn tool_offered(name: &str, seated: bool) -> (b: bool)
    ensures
        b == !(seated && deckbuilding_tool(name@)),
{
    !(seated && (same_text(name, "editor_status") || same_text(name, "editor_deck") || same_text(
        name,
        "editor_add_card",
    ) || same_text(name, "editor_remove_card") || same_text(name, "editor_set_count") || same_text(
        name,
        "editor_replace_deck",
    ) || same_text(name, "editor_undo") || same_text(name, "editor_stats") || same_text(
        name,
        "editor_save",
    )))
}

// ----- the log -----

/// The log one line per event, each with its turn.
pub open spec fn log_words(lines: Seq<LogModel>) -> Seq<char> {
    if lines.len() == 0 {
        "(nothing yet)"@
    } else {
        joined(
            Seq::new(
                lines.len(),
                |i: int| "T"@ + decimal(lines[i].turn as nat) + "  "@ + lines[i].text,
            ),
            "\n"@,
        )
    }
}

pub fn log_text(lines: &Vec<LogLine>) -> (r: String)
    ensures
        r@ == log_words(views(lines@)),
{
    let ghost ls = views(lines@);
    assert(ls.len() == lines@.len());
    if lines.len() == 0 {
        return "(nothing yet)".to_owned();
    }
    let ghost all = Seq::new(
        ls.len(),
        |i: int| "T"@ + decimal(ls[i].turn as nat) + "  "@ + ls[i].text,
    );
    let mut parts: Vec<String> = Vec::new();
    let mut i: usize = 0;
    while i < lines.len()
        invariant
            i <= lines.len(),
            ls == views(lines@),
            ls.len() == lines@.len(),
            all == Seq::new(
                ls.len(),
                |i: int| "T"@ + decimal(ls[i].turn as nat) + "  "@ + ls[i].text,
            ),
            views(parts@) == all.subrange(0, i as int),
        decreases lines.len() - i,
    {
        assert(ls[i as int] == lines@[i as int]@);
        parts.push(
            cat4("T", nat_text(lines[i].turn as u64).as_str(), "  ", lines[i].text.as_str()),
        );
        i = i + 1;
        assert(all.subrange(0, i as int) =~= all.subrange(0, i - 1).push(all[i - 1]));
    }
    assert(all.subrange(0, lines@.len() as int) =~= all);
    join(&parts, "\n")
}

/// What a wait says whose time is up.
pub fn still_waiting(secs: u64, auto_passed: u32) -> (r: String)
    ensures
        r@ == "Still waiting after "@ + decimal(secs as nat)
            + "s: the game is in progress and the opponent is thinking ("@ + decimal(
            auto_passed as nat,
        )
            + " priority passes made for you). Call wait_for_turn again now. Do not stop, do not end your turn, and do not ask for confirmation: keep waiting until it returns your legal actions or says the game is over."@,
{
    cat5(
        "Still waiting after ",
        nat_text(secs).as_str(),
        "s: the game is in progress and the opponent is thinking (",
        nat_text(auto_passed as u64).as_str(),
        " priority passes made for you). Call wait_for_turn again now. Do not stop, do not end your turn, and do not ask for confirmation: keep waiting until it returns your legal actions or says the game is over.",
    )
}

// ----- decks -----

/// `n` spaces.
pub open spec fn spaces(n: nat) -> Seq<char>
    decreases n,
{
    if n == 0 {
        Seq::empty()
    } else {
        spaces((n - 1) as nat) + " "@
    }
}

pub open spec fn pad_right(s: Seq<char>, width: nat) -> Seq<char> {
    if s.len() < width {
        s + spaces((width - s.len()) as nat)
    } else {
        s
    }
}

pub open spec fn pad_left(s: Seq<char>, width: nat) -> Seq<char> {
    if s.len() < width {
        spaces((width - s.len()) as nat) + s
    } else {
        s
    }
}

fn blank(n: usize) -> (r: String)
    ensures
        r@ == spaces(n as nat),
{
    let mut s = String::new();
    let mut i: usize = 0;
    while i < n
        invariant
            i <= n,
            s@ == spaces(i as nat),
        decreases n - i,
    {
        s.append(" ");
        i = i + 1;
    }
    s
}

pub fn padded_right(s: &str, width: usize) -> (r: String)
    ensures
        r@ == pad_right(s@, width as nat),
{
    let n: usize = s.unicode_len();
    if n < width {
        cat2(s, blank(width - n).as_str())
    } else {
        s.to_owned()
    }
}

pub fn padded_left(s: &str, width: usize) -> (r: String)
    ensures
        r@ == pad_left(s@, width as nat),
{
    let n: usize = s.unicode_len();
    if n < width {
        cat2(blank(width - n).as_str(), s)
    } else {
        s.to_owned()
    }
}

/// A deck in the listing: its name, size, colours, legality and where it lives.
pub open spec fn deck_line_words(
    name: Seq<char>,
    cards: u32,
    colours: Seq<char>,
    legal: bool,
    origin: Seq<char>,
) -> Seq<char> {
    pad_right(name, 16) + " "@ + pad_left(decimal(cards as nat), 3) + " cards  "@ + pad_right(
        colours,
        6,
    ) + " "@ + pad_right(
        if legal {
            "legal"@
        } else {
            "not legal"@
        },
        10,
    ) + " "@ + origin + "\n"@
}

pub fn deck_line(name: &str, cards: u32, colours: &str, legal: bool, origin: &str) -> (r: String)
    ensures
        r@ == deck_line_words(name@, cards, colours@, legal, origin@),
{
    let verdict = if legal {
        "legal"
    } else {
        "not legal"
    };
    let mut s = cat4(
        padded_right(name, 16).as_str(),
        " ",
        padded_left(nat_text(cards as u64).as_str(), 3).as_str(),
        " cards  ",
    );
    s.append(padded_right(colours, 6).as_str());
    s.append(" ");
    s.append(padded_right(verdict, 10).as_str());
    s.append(" ");
    s.append(origin);
    s.append("\n");
    s
}

/// A card of a checked deck: `problem` is empty when there is none.
#[derive(Debug)]
pub struct CheckedCard {
    pub count: u32,
    pub name: String,
    pub problem: String,
}

/// A card of a checked deck as a mathematical value.
#[verifier::ext_equal]
pub ghost struct CheckedModel {
    pub count: u32,
    pub name: Seq<char>,
    pub problem: Seq<char>,
}

impl View for CheckedCard {
    type V = CheckedModel;

    open spec fn view(&self) -> CheckedModel {
        CheckedModel { count: self.count, name: self.name@, problem: self.problem@ }
    }
}

/// The problems of the first `n` cards.
pub open spec fn card_problems(cards: Seq<CheckedModel>, n: nat) -> Seq<Seq<char>>
    decreases n,
{
    if n == 0 || n > cards.len() {
        Seq::empty()
    } else {
        let rest = card_problems(cards, (n - 1) as nat);
        if cards[n - 1].problem.len() == 0 {
            rest
        } else {
            rest.push(cards[n - 1].name + ": "@ + cards[n - 1].problem)
        }
    }
}

/// Deck-level and per-card problems, as one list.
pub fn problems_of(deck: &Vec<String>, cards: &Vec<CheckedCard>) -> (r: Vec<String>)
    ensures
        views(r@) == views(deck@) + card_problems(views(cards@), cards@.len()),
{
    let ghost ds = views(deck@);
    let ghost cs = views(cards@);
    let mut out: Vec<String> = Vec::new();
    let mut i: usize = 0;
    while i < deck.len()
        invariant
            i <= deck.len(),
            ds == views(deck@),
            views(out@) == ds.subrange(0, i as int),
        decreases deck.len() - i,
    {
        out.push(deck[i].clone());
        i = i + 1;
        assert(ds.subrange(0, i as int) =~= ds.subrange(0, i - 1).push(ds[i - 1]));
    }
    assert(ds.subrange(0, deck@.len() as int) =~= ds);
    let mut k: usize = 0;
    assert(cs.len() == cards@.len());
    assert(views(out@) =~= ds + card_problems(cs, 0));
    while k < cards.len()
        invariant
            k <= cards.len(),
            cs == views(cards@),
            cs.len() == cards@.len(),
            views(out@) == ds + card_problems(cs, k as nat),
        decreases cards.len() - k,
    {
        assert(cs[k as int] == cards@[k as int]@);
        if cards[k].problem.as_str().unicode_len() > 0 {
            out.push(cat3(cards[k].name.as_str(), ": ", cards[k].problem.as_str()));
        }
        k = k + 1;
        assert(views(out@) =~= ds + card_problems(cs, k as nat));
    }
    out
}

// ----- the deckbuilder -----

pub open spec fn problem_line(p: Seq<char>) -> Seq<char> {
    "  - "@ + p + "\n"@
}

/// The problems of the first `n` of a deck as a whole, a line each.
pub open spec fn deck_lines(deck: Seq<Seq<char>>, n: nat) -> Seq<char>
    decreases n,
{
    if n == 0 || n > deck.len() {
        Seq::empty()
    } else {
        deck_lines(deck, (n - 1) as nat) + problem_line(deck[n - 1])
    }
}

/// The problems of the first `n` cards, a line each.
pub open spec fn card_lines(cards: Seq<CheckedModel>, n: nat) -> Seq<char>
    decreases n,
{
    if n == 0 || n > cards.len() {
        Seq::empty()
    } else {
        let c = cards[n - 1];
        card_lines(cards, (n - 1) as nat) + opt_words(
            c.problem.len() > 0,
            problem_line(decimal(c.count as nat) + " "@ + c.name + ": "@ + c.problem),
        )
    }
}

/// The report on a deck: what was found out about it, and whether it is
/// legal or what stands in the way.
pub fn deck_report(text: &str, legal: bool, deck: &Vec<String>, cards: &Vec<CheckedCard>) -> (r:
    String)
    ensures
        r@ == text@ + if legal {
            "\nlegal in this format\n"@
        } else {
            "\nproblems:\n"@ + deck_lines(views(deck@), deck@.len()) + card_lines(
                views(cards@),
                cards@.len(),
            )
        },
{
    if legal {
        return cat2(text, "\nlegal in this format\n");
    }
    let ghost ds = views(deck@);
    let ghost cs = views(cards@);
    let mut s = String::new();
    let mut i: usize = 0;
    while i < deck.len()
        invariant
            i <= deck.len(),
            ds == views(deck@),
            s@ == deck_lines(ds, i as nat),
        decreases deck.len() - i,
    {
        s.append("  - ");
        s.append(deck[i].as_str());
        s.append("\n");
        i = i + 1;
        assert(s@ =~= deck_lines(ds, i as nat));
    }
    let mut t = String::new();
    let mut k: usize = 0;
    while k < cards.len()
        invariant
            k <= cards.len(),
            cs == views(cards@),
            t@ == card_lines(cs, k as nat),
        decreases cards.len() - k,
    {
        let c = &cards[k];
        if c.problem.as_str().unicode_len() > 0 {
            let line = cat4(
                nat_text(c.count as u64).as_str(),
                " ",
                c.name.as_str(),
                cat2(": ", c.problem.as_str()).as_str(),
            );
            t.append("  - ");
            t.append(line.as_str());
            t.append("\n");
        }
        k = k + 1;
        assert(t@ =~= card_lines(cs, k as nat));
    }
    let r = cat4(text, "\nproblems:\n", s.as_str(), t.as_str());
    assert(r@ =~= text@ + ("\nproblems:\n"@ + s@ + t@));
    r
}

/// What an open deckbuilder says of itself.
#[derive(Debug)]
pub struct EditorStatus {
    pub path: String,
    pub format: String,
    pub legality: String,
    pub dirty: bool,
    pub last_agent_action: Option<String>,
}

pub open spec fn status_words(st: EditorStatus) -> Seq<char> {
    "Deckbuilder on "@ + st.path@ + " ("@ + st.format@ + " format): "@ + st.legality@ + opt_words(
        st.dirty,
        " · unsaved changes"@,
    ) + match opt_text_view(st.last_agent_action) {
        Some(a) => " · last agent action: "@ + a,
        None => Seq::empty(),
    }
}

pub fn status_text(st: &EditorStatus) -> (r: String)
    ensures
        r@ == status_words(*st),
{
    let mut s = cat5(
        "Deckbuilder on ",
        st.path.as_str(),
        " (",
        st.format.as_str(),
        " format): ",
    );
    s.append(st.legality.as_str());
    let unsaved = if st.dirty {
        " · unsaved changes".to_owned()
    } else {
        String::new()
    };
    s.append(unsaved.as_str());
    let last = match &st.last_agent_action {
        Some(a) => cat2(" · last agent action: ", a.as_str()),
        None => String::new(),
    };
    s.append(last.as_str());
    s
}

/// A row of the open deck.
#[derive(Debug)]
pub struct EditorCard {
    pub count: u32,
    pub name: String,
    pub cost: String,
    pub problem: String,
}

/// Rows of the open deck of one type.
#[derive(Debug)]
pub struct EditorGroup {
    pub title: String,
    pub count: u32,
    pub cards: Vec<EditorCard>,
}

pub open spec fn row_words(c: EditorCard) -> Seq<char> {
    "  "@ + pad_left(decimal(c.count as nat), 2) + " "@ + c.name@ + " "@ + c.cost@ + opt_words(
        c.problem@.len() > 0,
        "  ← "@ + c.problem@,
    ) + "\n"@
}

pub open spec fn row_lines(cards: Seq<EditorCard>, n: nat) -> Seq<char>
    decreases n,
{
    if n == 0 || n > cards.len() {
        Seq::empty()
    } else {
        row_lines(cards, (n - 1) as nat) + row_words(cards[n - 1])
    }
}

pub open spec fn group_words(g: EditorGroup) -> Seq<char> {
    g.title@ + " ("@ + decimal(g.count as nat) + ")\n"@ + row_lines(g.cards@, g.cards@.len())
}

pub open spec fn group_lines(groups: Seq<EditorGroup>, n: nat) -> Seq<char>
    decreases n,
{
    if n == 0 || n > groups.len() {
        Seq::empty()
    } else {
        group_lines(groups, (n - 1) as nat) + group_words(groups[n - 1])
    }
}

fn row_text(c: &EditorCard) -> (r: String)
    ensures
        r@ == row_words(*c),
{
    let mut s = cat5(
        "  ",
        padded_left(nat_text(c.count as u64).as_str(), 2).as_str(),
        " ",
        c.name.as_str(),
        " ",
    );
    s.append(c.cost.as_str());
    let problem = if c.problem.as_str().unicode_len() > 0 {
        cat2("  ← ", c.problem.as_str())
    } else {
        String::new()
    };
    s.append(problem.as_str());
    s.append("\n");
    s
}

fn group_text(g: &EditorGroup) -> (r: String)
    ensures
        r@ == group_words(*g),
{
    let mut rows = String::new();
    let mut i: usize = 0;
    while i < g.cards.len()
        invariant
            i <= g.cards.len(),
            rows@ == row_lines(g.cards@, i as nat),
        decreases g.cards.len() - i,
    {
        rows.append(row_text(&g.cards[i]).as_str());
        i = i + 1;
    }
    cat5(
        g.title.as_str(),
        " (",
        nat_text(g.count as u64).as_str(),
        ")\n",
        rows.as_str(),
    )
}

/// The deck as the open deckbuilder holds it, grouped by type.
pub fn editor_deck_text(st: &EditorStatus, groups: &Vec<EditorGroup>) -> (r: String)
    ensures
        r@ == status_words(*st) + "\n"@ + group_lines(groups@, groups@.len()),
{
    let mut lines = String::new();
    let mut i: usize = 0;
    while i < groups.len()
        invariant
            i <= groups.len(),
            lines@ == group_lines(groups@, i as nat),
        decreases groups.len() - i,
    {
        lines.append(group_text(&groups[i]).as_str());
        i = i + 1;
    }
    cat3(status_text(st).as_str(), "\n", lines.as_str())
}

/// The deckbuilder a request is for: the one that is open, if exactly one is.
pub fn open_editor(paths: &Vec<String>) -> (r: Result<Option<usize>, String>)
    ensures
        match r {
            Ok(None) => paths@.len() == 0,
            Ok(Some(i)) => paths@.len() == 1 && i == 0,
            Err(e) => paths@.len() > 1 && e@ == "several deckbuilders are open ("@ + joined(
                views(paths@),
                ", "@,
            ) + "); name the file with `path`"@,
        },
{
    if paths.len() == 0 {
        Ok(None)
    } else if paths.len() == 1 {
        Ok(Some(0))
    } else {
        Err(
            cat3(
                "several deckbuilders are open (",
                join(paths, ", ").as_str(),
                "); name the file with `path`",
            ),
        )
    }
}

} // verus!
