//! What an agent at a table is told, as text: the state, the numbered legal
//! actions, cards, and how a game ended.
use crate::action::{Action, ActionModel, AttackTarget};
use crate::card::{CardDb, CardDef, CardModel};
use crate::event::{Elimination, EventBase, EventView, Outcome, SeenFacts};
use crate::render::{opt_words, render_view};
use crate::seqs::{copied, deduped, dedup_n, group_views, slice, sort, sorted, views};
use crate::session::{LegalAction, LegalModel, LobbySeat, LobbySeatModel, Session, SessionModel};
use crate::state::ActReason;
use crate::text::{describe_event_view, drawn_in_view, event_words};
use crate::types::{id_words, CardType, Keyword, ObjectId, Phase, Seat, Zone};
use crate::view::{GameSeen, GameView, ObjectSeen, ObjectView, PlayerSeen};
use crate::words::{cat2, cat3, cat4, cat5, cat6, decimal, int_text, join, joined, nat_text, signed};
use vstd::prelude::*;
use vstd::string::*;

verus! {

broadcast use group_views;

// ----- reasons and outcomes -----

impl ActReason {
    /// What the reason asks of whoever must act.
    pub open spec fn hint(self) -> Seq<char> {
        match self {
            ActReason::Priority => "you have priority: cast, play a land, or pass"@,
            ActReason::DeclareAttackers => "declare attackers"@,
            ActReason::DeclareBlockers => "declare blockers"@,
            ActReason::AssignDamage => "assign combat damage among blockers"@,
            ActReason::Mulligan => "decide whether to keep your opening hand"@,
            ActReason::BottomCards => "choose cards to put on the bottom of your library"@,
            ActReason::Discard => "discard down to your maximum hand size"@,
            ActReason::Choice => "make a choice"@,
        }
    }
}

pub fn reason_text(r: ActReason) -> (s: &'static str)
    ensures
        s@ == r.hint(),
{
    match r {
        ActReason::Priority => "you have priority: cast, play a land, or pass",
        ActReason::DeclareAttackers => "declare attackers",
        ActReason::DeclareBlockers => "declare blockers",
        ActReason::AssignDamage => "assign combat damage among blockers",
        ActReason::Mulligan => "decide whether to keep your opening hand",
        ActReason::BottomCards => "choose cards to put on the bottom of your library",
        ActReason::Discard => "discard down to your maximum hand size",
        ActReason::Choice => "make a choice",
    }
}

impl Elimination {
    /// The phrase after "you".
    pub open spec fn your_words(self) -> Seq<char> {
        match self {
            Elimination::LifeZero => "were reduced to 0 life"@,
            Elimination::Poison => "took ten poison counters"@,
            Elimination::DrewFromEmptyLibrary => "drew from an empty library"@,
            Elimination::Conceded => "conceded"@,
        }
    }

    /// "conceded", "were reduced to 0 life", ...
    pub fn your_phrase(&self) -> (r: &'static str)
        ensures
            r@ == self.your_words(),
    {
        match self {
            Elimination::LifeZero => "were reduced to 0 life",
            Elimination::Poison => "took ten poison counters",
            Elimination::DrewFromEmptyLibrary => "drew from an empty library",
            Elimination::Conceded => "conceded",
        }
    }
}

/// How each of the first `n` players who are out went out.
pub open spec fn ends(players: Seq<PlayerSeen>, me: Seat, n: nat) -> Seq<Seq<char>>
    decreases n,
{
    if n == 0 || n > players.len() {
        Seq::empty()
    } else {
        let rest = ends(players, me, (n - 1) as nat);
        let p = players[n - 1];
        match p.elimination {
            Some(e) => rest.push(
                if p.seat == me {
                    "you "@ + e.your_words()
                } else {
                    p.name + " "@ + e.words()
                },
            ),
            None => rest,
        }
    }
}

impl SessionModel {
    pub open spec fn why_words(self) -> Seq<char> {
        let all = match self.view {
            Some(v) => ends(v.players, self.me, v.players.len()),
            None => Seq::empty(),
        };
        opt_words(all.len() > 0, " ("@ + joined(all, ", "@) + ")"@)
    }

    /// How the game ended, from this seat's point of view.
    pub open spec fn outcome_words(self, o: Outcome) -> Seq<char> {
        match o {
            Outcome::Winner(s) => if s == self.me {
                "you won"@ + self.why_words()
            } else {
                self.seat_name(s) + " won"@ + self.why_words()
            },
            Outcome::Draw => "the game was a draw"@ + self.why_words(),
        }
    }
}

fn why_text(session: &Session) -> (r: String)
    ensures
        r@ == session.model().why_words(),
{
    let mut parts: Vec<String> = Vec::new();
    if let Some(v) = session.view() {
        let ghost players = v@.players;
        assert(players.len() == v.players@.len());
        let mut i: usize = 0;
        while i < v.players.len()
            invariant
                i <= v.players.len(),
                players == views(v.players@),
                players.len() == v.players@.len(),
                views(parts@) == ends(players, session.me, i as nat),
            decreases v.players.len() - i,
        {
            let p = &v.players[i];
            assert(players[i as int] == p@);
            if let Some(e) = &p.elimination {
                if p.seat == session.me {
                    parts.push(cat2("you ", e.your_phrase()));
                } else {
                    parts.push(cat3(p.name.as_str(), " ", e.phrase()));
                }
            }
            i = i + 1;
        }
    }
    assert(views(parts@).len() == parts@.len());
    if parts.len() == 0 {
        String::new()
    } else {
        cat3(" (", join(&parts, ", ").as_str(), ")")
    }
}

pub fn outcome_text(session: &Session, o: Outcome) -> (r: String)
    ensures
        r@ == session.model().outcome_words(o),
{
    let why = why_text(session);
    match o {
        Outcome::Winner(s) => if s == session.me {
            cat2("you won", why.as_str())
        } else {
            cat3(session.seat_name(s).as_str(), " won", why.as_str())
        },
        Outcome::Draw => cat2("the game was a draw", why.as_str()),
    }
}

// ----- legal actions -----

/// The lines of the first `n` actions.
pub open spec fn action_lines(legal: Seq<LegalModel>, n: nat) -> Seq<char>
    decreases n,
{
    if n == 0 || n > legal.len() {
        Seq::empty()
    } else {
        let a = legal[n - 1];
        action_lines(legal, (n - 1) as nat) + "  "@ + decimal(a.id as nat) + ". "@ + a.description
            + "\n"@
    }
}

/// The pairs of the first `n` actions that block with one creature.
pub open spec fn single_blocks(legal: Seq<LegalModel>, n: nat) -> Seq<(ObjectId, ObjectId)>
    decreases n,
{
    if n == 0 || n > legal.len() {
        Seq::empty()
    } else {
        let rest = single_blocks(legal, (n - 1) as nat);
        match legal[n - 1].action {
            ActionModel::DeclareBlockers { blocks } => if blocks.len() == 1 {
                rest.push(blocks[0])
            } else {
                rest
            },
            _ => rest,
        }
    }
}

/// The first attack with one creature, from index `i` on.
pub open spec fn single_attack(legal: Seq<LegalModel>, i: nat) -> Option<(ObjectId, AttackTarget)>
    decreases legal.len() - i,
{
    if i >= legal.len() {
        None
    } else {
        match legal[i as int].action {
            ActionModel::DeclareAttackers { attackers } => if attackers.len() == 1 {
                Some(attackers[0])
            } else {
                single_attack(legal, i + 1)
            },
            _ => single_attack(legal, i + 1),
        }
    }
}

/// A pair of ids as JSON.
pub open spec fn pair_json(p: (ObjectId, ObjectId)) -> Seq<char> {
    "["@ + decimal(p.0.0 as nat) + ","@ + decimal(p.1.0 as nat) + "]"@
}

/// A block declaration as JSON.
pub open spec fn block_json(blocks: Seq<(ObjectId, ObjectId)>) -> Seq<char> {
    "{\"kind\":\"declare_blockers\",\"blocks\":["@ + joined(
        Seq::new(blocks.len(), |i: int| pair_json(blocks[i])),
        ","@,
    ) + "]}"@
}

pub open spec fn attack_target_json(t: AttackTarget) -> Seq<char> {
    match t {
        AttackTarget::Player(s) => "{\"player\":"@ + decimal(s.0 as nat) + "}"@,
        AttackTarget::Planeswalker(o) => "{\"planeswalker\":"@ + decimal(o.0 as nat) + "}"@,
    }
}

/// An attack with one creature as JSON.
pub open spec fn attack_json(a: (ObjectId, AttackTarget)) -> Seq<char> {
    "{\"kind\":\"declare_attackers\",\"attackers\":[["@ + decimal(a.0.0 as nat) + ","@
        + attack_target_json(a.1) + "]]}"@
}

/// What a blocker can block, among the first `n` pairs.
pub open spec fn blockable(pairs: Seq<(ObjectId, ObjectId)>, b: ObjectId, n: nat) -> Seq<Seq<char>>
    decreases n,
{
    if n == 0 || n > pairs.len() {
        Seq::empty()
    } else {
        let rest = blockable(pairs, b, (n - 1) as nat);
        if pairs[n - 1].0 == b {
            rest.push(id_words(pairs[n - 1].1))
        } else {
            rest
        }
    }
}

/// The blockers of the pairs, each once, in id order.
pub open spec fn blockers_of(pairs: Seq<(ObjectId, ObjectId)>) -> Seq<ObjectId> {
    let ids = sort(Seq::new(pairs.len(), |i: int| pairs[i].0));
    dedup_n(ids, ids.len())
}

/// A line for each of the first `n` blockers.
pub open spec fn blocker_lines(pairs: Seq<(ObjectId, ObjectId)>, ids: Seq<ObjectId>, n: nat) -> Seq<
    char,
>
    decreases n,
{
    if n == 0 || n > ids.len() {
        Seq::empty()
    } else {
        blocker_lines(pairs, ids, (n - 1) as nat) + "  "@ + id_words(ids[n - 1]) + " can block "@
            + joined(blockable(pairs, ids[n - 1], pairs.len()), ", "@) + "\n"@
    }
}

pub open spec fn first_two(pairs: Seq<(ObjectId, ObjectId)>) -> Seq<(ObjectId, ObjectId)> {
    if pairs.len() <= 2 {
        pairs
    } else {
        pairs.subrange(0, 2)
    }
}

pub open spec fn blocking_words(pairs: Seq<(ObjectId, ObjectId)>) -> Seq<char> {
    "\nBLOCKING: the list above is only the common shapes. You may block with ANY assignment of blockers to attackers "@
        + "(several blockers on one attacker, different blockers on different attackers, some staying home) by passing a full action to take_action, e.g.\n"@
        + "  action: "@ + block_json(first_two(pairs)) + "\n"@
        + "Each pair is [blocker_id, attacker_id]; a blocker may appear once. Legal pairs:\n"@
        + blocker_lines(pairs, blockers_of(pairs), blockers_of(pairs).len())
}

pub open spec fn attacking_words(a: (ObjectId, AttackTarget)) -> Seq<char> {
    "\nATTACKING: any subset of your untapped creatures may attack; pass a full action with every attacker you want, e.g.\n"@
        + "  action: "@ + attack_json(a) + "\n"@
}

/// Attack and block declarations are validated by rule, not by list; this
/// spells it out.
pub open spec fn combat_words(legal: Seq<LegalModel>) -> Seq<char> {
    let pairs = single_blocks(legal, legal.len());
    opt_words(pairs.len() > 0, blocking_words(pairs)) + match single_attack(legal, 0) {
        Some(a) => attacking_words(a),
        None => Seq::empty(),
    }
}

/// The numbered legal actions of a state.
pub open spec fn legal_words(legal: Seq<LegalModel>, version: u64) -> Seq<char> {
    "\nLEGAL ACTIONS (state_version "@ + decimal(version as nat) + ")\n"@ + action_lines(
        legal,
        legal.len(),
    ) + combat_words(legal)
}

fn pairs_json(blocks: &Vec<(ObjectId, ObjectId)>) -> (r: String)
    ensures
        r@ == block_json(blocks@),
{
    let ghost all = Seq::new(blocks@.len(), |i: int| pair_json(blocks@[i]));
    let mut parts: Vec<String> = Vec::new();
    let mut i: usize = 0;
    while i < blocks.len()
        invariant
            i <= blocks.len(),
            all == Seq::new(blocks@.len(), |i: int| pair_json(blocks@[i])),
            views(parts@) == all.subrange(0, i as int),
        decreases blocks.len() - i,
    {
        parts.push(
            cat5(
                "[",
                nat_text(blocks[i].0.0 as u64).as_str(),
                ",",
                nat_text(blocks[i].1.0 as u64).as_str(),
                "]",
            ),
        );
        i = i + 1;
        assert(all.subrange(0, i as int) =~= all.subrange(0, i - 1).push(all[i - 1]));
    }
    assert(all.subrange(0, blocks@.len() as int) =~= all);
    cat3(
        "{\"kind\":\"declare_blockers\",\"blocks\":[",
        join(&parts, ",").as_str(),
        "]}",
    )
}

fn singles(legal: &Vec<LegalAction>) -> (r: Vec<(ObjectId, ObjectId)>)
    ensures
        r@ == single_blocks(views(legal@), legal@.len()),
{
    let ghost all = views(legal@);
    let mut out: Vec<(ObjectId, ObjectId)> = Vec::new();
    let mut i: usize = 0;
    while i < legal.len()
        invariant
            i <= legal.len(),
            all == views(legal@),
            out@ == single_blocks(all, i as nat),
        decreases legal.len() - i,
    {
        assert(all[i as int] == legal@[i as int]@);
        if let Action::DeclareBlockers { blocks } = &legal[i].action {
            if blocks.len() == 1 {
                out.push(blocks[0]);
            }
        }
        i = i + 1;
    }
    out
}

fn attack_example(legal: &Vec<LegalAction>) -> (r: Option<(ObjectId, AttackTarget)>)
    ensures
        r == single_attack(views(legal@), 0),
{
    let ghost all = views(legal@);
    let mut i: usize = 0;
    assert(all.len() == legal@.len());
    while i < legal.len()
        invariant
            i <= legal.len(),
            all == views(legal@),
            all.len() == legal@.len(),
            single_attack(all, 0) == single_attack(all, i as nat),
        decreases legal.len() - i,
    {
        assert(all[i as int] == legal@[i as int]@);
        if let Action::DeclareAttackers { attackers } = &legal[i].action {
            if attackers.len() == 1 {
                return Some(attackers[0]);
            }
        }
        i = i + 1;
    }
    None
}

fn blockable_by(pairs: &Vec<(ObjectId, ObjectId)>, b: ObjectId) -> (r: String)
    ensures
        r@ == joined(blockable(pairs@, b, pairs@.len()), ", "@),
{
    let mut parts: Vec<String> = Vec::new();
    let mut i: usize = 0;
    while i < pairs.len()
        invariant
            i <= pairs.len(),
            views(parts@) == blockable(pairs@, b, i as nat),
        decreases pairs.len() - i,
    {
        if pairs[i].0 == b {
            parts.push(pairs[i].1.text());
        }
        i = i + 1;
    }
    join(&parts, ", ")
}

fn blocking_text(pairs: &Vec<(ObjectId, ObjectId)>) -> (r: String)
    ensures
        r@ == blocking_words(pairs@),
{
    let mut s = "\nBLOCKING: the list above is only the common shapes. You may block with ANY assignment of blockers to attackers ".to_owned();
    s.append(
        "(several blockers on one attacker, different blockers on different attackers, some staying home) by passing a full action to take_action, e.g.\n",
    );
    let example = if pairs.len() <= 2 {
        copied(pairs)
    } else {
        slice(pairs, 0, 2)
    };
    s.append("  action: ");
    s.append(pairs_json(&example).as_str());
    s.append("\n");
    s.append("Each pair is [blocker_id, attacker_id]; a blocker may appear once. Legal pairs:\n");
    let mut ids: Vec<ObjectId> = Vec::new();
    let ghost all = Seq::new(pairs@.len(), |i: int| pairs@[i].0);
    let mut i: usize = 0;
    while i < pairs.len()
        invariant
            i <= pairs.len(),
            all == Seq::new(pairs@.len(), |i: int| pairs@[i].0),
            ids@ == all.subrange(0, i as int),
        decreases pairs.len() - i,
    {
        ids.push(pairs[i].0);
        i = i + 1;
        assert(all.subrange(0, i as int) =~= all.subrange(0, i - 1).push(all[i - 1]));
    }
    assert(all.subrange(0, pairs@.len() as int) =~= all);
    let blockers = deduped(&sorted(&ids));
    let ghost head = s@;
    let mut lines = String::new();
    let mut k: usize = 0;
    while k < blockers.len()
        invariant
            k <= blockers.len(),
            lines@ == blocker_lines(pairs@, blockers@, k as nat),
        decreases blockers.len() - k,
    {
        lines.append("  ");
        lines.append(blockers[k].text().as_str());
        lines.append(" can block ");
        lines.append(blockable_by(pairs, blockers[k]).as_str());
        lines.append("\n");
        k = k + 1;
    }
    s.append(lines.as_str());
    s
}

fn attacking_text(a: (ObjectId, AttackTarget)) -> (r: String)
    ensures
        r@ == attacking_words(a),
{
    let target = match a.1 {
        AttackTarget::Player(s) => cat3("{\"player\":", nat_text(s.0 as u64).as_str(), "}"),
        AttackTarget::Planeswalker(o) => cat3(
            "{\"planeswalker\":",
            nat_text(o.0 as u64).as_str(),
            "}",
        ),
    };
    let json = cat5(
        "{\"kind\":\"declare_attackers\",\"attackers\":[[",
        nat_text(a.0.0 as u64).as_str(),
        ",",
        target.as_str(),
        "]]}",
    );
    cat4(
        "\nATTACKING: any subset of your untapped creatures may attack; pass a full action with every attacker you want, e.g.\n",
        "  action: ",
        json.as_str(),
        "\n",
    )
}

/// Attack and block declarations are validated by rule, not by list: the
/// listed shapes are suggestions and any legal assignment may be sent as a
/// full `action`. Spell this out, with the legal blocker→attacker pairs.
pub fn combat_composition_hint(legal: &Vec<LegalAction>) -> (r: String)
    ensures
        r@ == combat_words(views(legal@)),
{
    let pairs = singles(legal);
    assert(views(legal@).len() == legal@.len());
    let blocking = if pairs.len() > 0 {
        blocking_text(&pairs)
    } else {
        String::new()
    };
    let attacking = match attack_example(legal) {
        Some(a) => attacking_text(a),
        None => String::new(),
    };
    cat2(blocking.as_str(), attacking.as_str())
}

pub fn render_legal(legal: &Vec<LegalAction>, version: u64) -> (r: String)
    ensures
        r@ == legal_words(views(legal@), version),
{
    let ghost all = views(legal@);
    let mut lines = String::new();
    let mut i: usize = 0;
    assert(all.len() == legal@.len());
    while i < legal.len()
        invariant
            i <= legal.len(),
            all == views(legal@),
            all.len() == legal@.len(),
            lines@ == action_lines(all, i as nat),
        decreases legal.len() - i,
    {
        assert(all[i as int] == legal@[i as int]@);
        lines.append("  ");
        lines.append(nat_text(legal[i].id as u64).as_str());
        lines.append(". ");
        lines.append(legal[i].description.as_str());
        lines.append("\n");
        i = i + 1;
    }
    cat5(
        "\nLEGAL ACTIONS (state_version ",
        nat_text(version).as_str(),
        ")\n",
        lines.as_str(),
        combat_composition_hint(legal).as_str(),
    )
}

// ----- the state -----

impl SessionModel {
    pub open spec fn waiting_words(self, v: GameSeen) -> Seq<char> {
        match v.must_act.entry {
            Some((s, r)) => self.seat_name(s) + " to "@ + r.hint(),
            None => Seq::empty(),
        }
    }

    pub open spec fn turn_words(self, v: GameSeen) -> Seq<char> {
        match v.must_act.of(self.me) {
            Some(r) => "\nIT IS YOUR TURN TO ACT: "@ + r.hint() + ".\n"@,
            None => "\nNot your turn. Waiting on "@ + self.waiting_words(v)
                + ". Call wait_for_turn.\n"@,
        }
    }

    /// The state view plus a line saying whether it is your turn, and the
    /// numbered legal actions if it is.
    pub open spec fn state_words(self, v: GameSeen, legal: Seq<LegalModel>) -> Seq<char> {
        match v.outcome {
            Some(o) => v.words() + "\nGAME OVER: "@ + self.outcome_words(o) + "\n"@,
            None => v.words() + self.turn_words(v) + opt_words(
                legal.len() > 0,
                legal_words(legal, v.state_version),
            ),
        }
    }
}

/// The state view plus a line saying whether it is your turn, and the
/// numbered legal actions if it is.
pub fn render_state(session: &Session, view: &GameView, legal: &Vec<LegalAction>) -> (r: String)
    ensures
        r@ == session.model().state_words(view@, views(legal@)),
{
    let s = render_view(view);
    if let Some(o) = view.outcome {
        return cat4(
            s.as_str(),
            "\nGAME OVER: ",
            outcome_text(session, o).as_str(),
            "\n",
        );
    }
    let turn = match view.must_act.get(session.me) {
        Some(r) => cat3("\nIT IS YOUR TURN TO ACT: ", reason_text(r), ".\n"),
        None => {
            let who = match view.must_act.entry {
                Some((seat, r)) => cat3(session.seat_name(seat).as_str(), " to ", reason_text(r)),
                None => String::new(),
            };
            cat3("\nNot your turn. Waiting on ", who.as_str(), ". Call wait_for_turn.\n")
        },
    };
    assert(views(legal@).len() == legal@.len());
    let list = if legal.len() > 0 {
        render_legal(legal, view.state_version)
    } else {
        String::new()
    };
    cat3(s.as_str(), turn.as_str(), list.as_str())
}

/// The first `n` lines, each with an indent.
pub open spec fn indented(lines: Seq<Seq<char>>, n: nat) -> Seq<char>
    decreases n,
{
    if n == 0 || n > lines.len() {
        Seq::empty()
    } else {
        indented(lines, (n - 1) as nat) + "  "@ + lines[n - 1] + "\n"@
    }
}

fn indent(lines: &Vec<String>) -> (r: String)
    ensures
        r@ == indented(views(lines@), lines@.len()),
{
    let ghost all = views(lines@);
    let mut s = String::new();
    let mut i: usize = 0;
    assert(all.len() == lines@.len());
    while i < lines.len()
        invariant
            i <= lines.len(),
            all == views(lines@),
            all.len() == lines@.len(),
            s@ == indented(all, i as nat),
        decreases lines.len() - i,
    {
        s.append("  ");
        s.append(lines[i].as_str());
        s.append("\n");
        i = i + 1;
    }
    s
}

/// A reply with what the table has said since the last one.
pub open spec fn with_chat_words(text: Seq<char>, chat: Seq<Seq<char>>) -> Seq<char> {
    text + opt_words(chat.len() > 0, "\nTABLE CHAT\n"@ + indented(chat, chat.len()))
}

/// A reply with what the table has said since the last one, once.
pub fn with_chat(text: &str, chat: &Vec<String>) -> (r: String)
    ensures
        r@ == with_chat_words(text@, views(chat@)),
{
    assert(views(chat@).len() == chat@.len());
    let said = if chat.len() > 0 {
        cat2("\nTABLE CHAT\n", indent(chat).as_str())
    } else {
        String::new()
    };
    cat2(text, said.as_str())
}

impl SessionModel {
    /// The lines of the first `n` events but passes and taps.
    pub open spec fn happened(self, events: Seq<SeenFacts>, n: nat) -> Seq<Seq<char>>
        decreases n,
    {
        if n == 0 || n > events.len() {
            Seq::empty()
        } else {
            let rest = self.happened(events, (n - 1) as nat);
            let e = events[n - 1];
            if e is PriorityPassed || e is Tapped {
                rest
            } else {
                rest.push(event_words(e, drawn_in_view(e), self.naming()))
            }
        }
    }

    /// What an action did, then the state it led to.
    pub open spec fn acted_words(
        self,
        events: Seq<SeenFacts>,
        v: GameSeen,
        legal: Seq<LegalModel>,
    ) -> Seq<char> {
        let lines = self.happened(events, events.len());
        opt_words(
            lines.len() > 0,
            "WHAT HAPPENED\n"@ + indented(lines, lines.len()) + "\n"@,
        ) + self.state_words(v, legal)
    }
}

/// What an action did, then the state it led to.
pub fn render_acted(
    session: &Session,
    events: &Vec<EventView>,
    view: &GameView,
    legal: &Vec<LegalAction>,
) -> (r: String)
    ensures
        r@ == session.model().acted_words(views(events@), view@, views(legal@)),
{
    let ghost all = views(events@);
    let mut lines: Vec<String> = Vec::new();
    let mut i: usize = 0;
    assert(all.len() == events@.len());
    while i < events.len()
        invariant
            i <= events.len(),
            all == views(events@),
            all.len() == events@.len(),
            views(lines@) == session.model().happened(all, i as nat),
        decreases events.len() - i,
    {
        assert(all[i as int] == events@[i as int]@);
        let quiet = matches!(events[i], EventBase::PriorityPassed { .. } | EventBase::Tapped { .. });
        if !quiet {
            lines.push(describe_event_view(&events[i], session));
        }
        i = i + 1;
    }
    assert(views(lines@).len() == lines@.len());
    let what = if lines.len() > 0 {
        cat3("WHAT HAPPENED\n", indent(&lines).as_str(), "\n")
    } else {
        String::new()
    };
    cat2(what.as_str(), render_state(session, view, legal).as_str())
}

// ----- before the game -----

impl LobbySeatModel {
    pub open spec fn words(self) -> Seq<char> {
        "seat "@ + decimal(self.seat.0 as nat) + ": "@ + match self.name {
            Some(n) => n,
            None => "(empty)"@,
        } + (if self.deck_ok {
            ", deck ok"@
        } else {
            ", no deck"@
        }) + opt_words(self.ready, ", ready"@)
    }
}

impl SessionModel {
    pub open spec fn needs_deck(self) -> bool {
        self.me.0 < self.lobby.seats.len() && !self.lobby.seats[self.me.0 as int].deck_ok
    }

    /// What a game tool says before the game has started.
    pub open spec fn lobby_words(self) -> Seq<char> {
        "The game has not started yet. Lobby: "@ + joined(
            Seq::new(self.lobby.seats.len(), |i: int| self.lobby.seats[i].words()),
            "; "@,
        ) + ". "@ + if self.needs_deck() {
            "Submit a deck with submit_deck."@
        } else {
            "Call wait_for_turn to wait for it to start."@
        }
    }
}

fn lobby_seat_text(s: &LobbySeat) -> (r: String)
    ensures
        r@ == s@.words(),
{
    let name = match &s.name {
        Some(n) => n.clone(),
        None => "(empty)".to_owned(),
    };
    let deck = if s.deck_ok {
        ", deck ok"
    } else {
        ", no deck"
    };
    let ready = if s.ready {
        ", ready".to_owned()
    } else {
        String::new()
    };
    cat6(
        "seat ",
        nat_text(s.seat.0 as u64).as_str(),
        ": ",
        name.as_str(),
        deck,
        ready.as_str(),
    )
}

/// What a game tool says before the game has started.
pub fn not_started(session: &Session) -> (r: String)
    ensures
        r@ == session.model().lobby_words(),
{
    let seats = &session.lobby.seats;
    let ghost model = session.model();
    let ghost all = Seq::new(model.lobby.seats.len(), |i: int| model.lobby.seats[i].words());
    assert(model.lobby.seats.len() == seats@.len());
    let mut parts: Vec<String> = Vec::new();
    let mut i: usize = 0;
    while i < seats.len()
        invariant
            i <= seats.len(),
            model.lobby.seats == views(seats@),
            model.lobby.seats.len() == seats@.len(),
            all == Seq::new(model.lobby.seats.len(), |i: int| model.lobby.seats[i].words()),
            views(parts@) == all.subrange(0, i as int),
        decreases seats.len() - i,
    {
        assert(model.lobby.seats[i as int] == seats@[i as int]@);
        parts.push(lobby_seat_text(&seats[i]));
        i = i + 1;
        assert(all.subrange(0, i as int) =~= all.subrange(0, i - 1).push(all[i - 1]));
    }
    assert(all.subrange(0, seats@.len() as int) =~= all);
    let me: usize = session.me.index();
    let mut deckless = false;
    if me < seats.len() {
        assert(model.lobby.seats[me as int] == seats@[me as int]@);
        deckless = !seats[me].deck_ok;
    }
    cat4(
        "The game has not started yet. Lobby: ",
        join(&parts, "; ").as_str(),
        ". ",
        if deckless {
            "Submit a deck with submit_deck."
        } else {
            "Call wait_for_turn to wait for it to start."
        },
    )
}

// ----- cards -----

impl CardType {
    /// The type as a card prints it.
    pub open spec fn title(self) -> Seq<char> {
        match self {
            CardType::Creature => "Creature"@,
            CardType::Land => "Land"@,
            CardType::Artifact => "Artifact"@,
            CardType::Enchantment => "Enchantment"@,
            CardType::Instant => "Instant"@,
            CardType::Sorcery => "Sorcery"@,
            CardType::Planeswalker => "Planeswalker"@,
        }
    }

    pub fn title_text(self) -> (r: &'static str)
        ensures
            r@ == self.title(),
    {
        match self {
            CardType::Creature => "Creature",
            CardType::Land => "Land",
            CardType::Artifact => "Artifact",
            CardType::Enchantment => "Enchantment",
            CardType::Instant => "Instant",
            CardType::Sorcery => "Sorcery",
            CardType::Planeswalker => "Planeswalker",
        }
    }
}

pub open spec fn type_words(types: Seq<CardType>) -> Seq<char> {
    joined(Seq::new(types.len(), |i: int| types[i].title()), " "@)
}

fn types_text(types: &Vec<CardType>) -> (r: String)
    ensures
        r@ == type_words(types@),
{
    let ghost all = Seq::new(types@.len(), |i: int| types@[i].title());
    let mut parts: Vec<String> = Vec::new();
    let mut i: usize = 0;
    while i < types.len()
        invariant
            i <= types.len(),
            all == Seq::new(types@.len(), |i: int| types@[i].title()),
            views(parts@) == all.subrange(0, i as int),
        decreases types.len() - i,
    {
        parts.push(types[i].title_text().to_owned());
        i = i + 1;
        assert(all.subrange(0, i as int) =~= all.subrange(0, i - 1).push(all[i - 1]));
    }
    assert(all.subrange(0, types@.len() as int) =~= all);
    join(&parts, " ")
}

pub open spec fn subtype_words(subtypes: Seq<String>) -> Seq<char> {
    opt_words(subtypes.len() > 0, " — "@ + joined(views(subtypes), " "@))
}

fn subtypes_text(subtypes: &Vec<String>) -> (r: String)
    ensures
        r@ == subtype_words(subtypes@),
{
    if subtypes.len() > 0 {
        cat2(" — ", join(subtypes, " ").as_str())
    } else {
        String::new()
    }
}

/// A card in full: cost, types, stats and rules text.
pub open spec fn card_words(
    name: Seq<char>,
    cost: Seq<char>,
    types: Seq<CardType>,
    subtypes: Seq<String>,
    pt: Option<(i32, i32)>,
    text: Seq<char>,
) -> Seq<char> {
    name + " "@ + cost + "\n"@ + type_words(types) + subtype_words(subtypes) + match pt {
        Some((p, t)) => "\n"@ + signed(p as int) + "/"@ + signed(t as int),
        None => Seq::empty(),
    } + "\n"@ + if text.len() == 0 {
        "(no rules text)"@
    } else {
        text
    }
}

/// A card in full: cost, types, stats and rules text.
pub fn card_text(
    name: &str,
    cost: &str,
    types: &Vec<CardType>,
    subtypes: &Vec<String>,
    pt: Option<(i32, i32)>,
    text: &str,
) -> (r: String)
    ensures
        r@ == card_words(name@, cost@, types@, subtypes@, pt, text@),
{
    let mut s = cat4(name, " ", cost, "\n");
    s.append(types_text(types).as_str());
    s.append(subtypes_text(subtypes).as_str());
    let stats = match pt {
        Some((p, t)) => cat4("\n", int_text(p as i64).as_str(), "/", int_text(t as i64).as_str()),
        None => String::new(),
    };
    s.append(stats.as_str());
    s.append("\n");
    if text.unicode_len() == 0 {
        s.append("(no rules text)");
    } else {
        s.append(text);
    }
    s
}

/// A card of the set on one line.
pub open spec fn cube_line(c: CardModel) -> Seq<char> {
    c.name + " "@ + c.cost.words() + " · "@ + type_words(c.types) + subtype_words(c.subtypes)
        + match c.pt {
        Some((p, t)) => " "@ + signed(p as int) + "/"@ + signed(t as int),
        None => Seq::empty(),
    } + opt_words(c.text.len() > 0, " · "@ + c.text) + "\n"@
}

/// The lines of the first `n` cards.
pub open spec fn cube_lines(cards: Seq<CardModel>, n: nat) -> Seq<char>
    decreases n,
{
    if n == 0 || n > cards.len() {
        Seq::empty()
    } else {
        cube_lines(cards, (n - 1) as nat) + cube_line(cards[n - 1])
    }
}

fn cube_line_text(c: &CardDef) -> (r: String)
    ensures
        r@ == cube_line(c@),
{
    let mut s = cat4(c.name.as_str(), " ", c.cost.text().as_str(), " · ");
    s.append(types_text(&c.types).as_str());
    s.append(subtypes_text(&c.subtypes).as_str());
    let stats = match c.pt {
        Some((p, t)) => cat4(" ", int_text(p as i64).as_str(), "/", int_text(t as i64).as_str()),
        None => String::new(),
    };
    s.append(stats.as_str());
    let rules = if c.text.as_str().unicode_len() > 0 {
        cat2(" · ", c.text.as_str())
    } else {
        String::new()
    };
    s.append(rules.as_str());
    s.append("\n");
    s
}

/// Every card of the set with its cost, types, stats and rules text.
pub fn cube_text(db: &CardDb) -> (r: String)
    ensures
        r@ == "# Card set\n\n"@ + cube_lines(db@, db@.len()),
{
    let mut s = String::new();
    let mut i: usize = 0;
    while i < db.len()
        invariant
            i <= db@.len(),
            s@ == cube_lines(db@, i as nat),
        decreases db@.len() - i,
    {
        s.append(cube_line_text(&db.cards[i]).as_str());
        i = i + 1;
    }
    cat2("# Card set\n\n", s.as_str())
}

impl Zone {
    pub open spec fn lower_words(self) -> Seq<char> {
        match self {
            Zone::Library => "library"@,
            Zone::Hand => "hand"@,
            Zone::Battlefield => "battlefield"@,
            Zone::Graveyard => "graveyard"@,
            Zone::Exile => "exile"@,
            Zone::Stack => "stack"@,
            Zone::Command => "command"@,
            Zone::OutOfGame => "outofgame"@,
        }
    }

    fn lower_name(self) -> (r: &'static str)
        ensures
            r@ == self.lower_words(),
    {
        match self {
            Zone::Library => "library",
            Zone::Hand => "hand",
            Zone::Battlefield => "battlefield",
            Zone::Graveyard => "graveyard",
            Zone::Exile => "exile",
            Zone::Stack => "stack",
            Zone::Command => "command",
            Zone::OutOfGame => "outofgame",
        }
    }
}

impl ObjectSeen {
    /// Where an object is and what is going on with it.
    pub open spec fn conditions(self, controller: Seq<char>) -> Seq<Seq<char>> {
        let s0 = seq![self.zone.lower_words(), "controlled by "@ + controller];
        let s1 = if self.tapped {
            s0.push("tapped"@)
        } else {
            s0
        };
        let s2 = if self.summoning_sick && self.pt is Some {
            s1.push(
                if self.keywords.contains(Keyword::Haste) {
                    "summoning sick, but has haste so it can attack"@
                } else {
                    "summoning sick"@
                },
            )
        } else {
            s1
        };
        let s3 = if self.damage > 0 {
            s2.push(signed(self.damage as int) + " damage marked"@)
        } else {
            s2
        };
        let s4 = if self.attacking is Some {
            s3.push("attacking"@)
        } else {
            s3
        };
        if self.blocking.len() > 0 {
            s4.push(
                "blocking "@ + joined(
                    Seq::new(self.blocking.len(), |i: int| id_words(self.blocking[i])),
                    ", "@,
                ),
            )
        } else {
            s4
        }
    }

    /// An object in full: its card, and the state it is in.
    pub open spec fn full_words(self, controller: Seq<char>) -> Seq<char> {
        card_words(
            self.name,
            self.cost.words(),
            self.types,
            self.subtypes,
            self.pt,
            self.text,
        ) + "\nState: "@ + joined(self.conditions(controller), ", "@)
    }
}

fn ids_joined(ids: &Vec<ObjectId>) -> (r: String)
    ensures
        r@ == joined(Seq::new(ids@.len(), |i: int| id_words(ids@[i])), ", "@),
{
    let ghost all = Seq::new(ids@.len(), |i: int| id_words(ids@[i]));
    let mut parts: Vec<String> = Vec::new();
    let mut i: usize = 0;
    while i < ids.len()
        invariant
            i <= ids.len(),
            all == Seq::new(ids@.len(), |i: int| id_words(ids@[i])),
            views(parts@) == all.subrange(0, i as int),
        decreases ids.len() - i,
    {
        parts.push(ids[i].text());
        i = i + 1;
        assert(all.subrange(0, i as int) =~= all.subrange(0, i - 1).push(all[i - 1]));
    }
    assert(all.subrange(0, ids@.len() as int) =~= all);
    join(&parts, ", ")
}

fn is_hasty(o: &ObjectView) -> (b: bool)
    ensures
        b == o@.keywords.contains(Keyword::Haste),
{
    let mut i: usize = 0;
    while i < o.keywords.len()
        invariant
            i <= o.keywords.len(),
            forall|j: int| 0 <= j < i ==> o.keywords@[j] != Keyword::Haste,
        decreases o.keywords.len() - i,
    {
        if o.keywords[i] == Keyword::Haste {
            assert(o.keywords@[i as int] == Keyword::Haste);
            return true;
        }
        i = i + 1;
    }
    false
}

fn conditions_of(o: &ObjectView, controller: &str) -> (r: Vec<String>)
    ensures
        views(r@) == o@.conditions(controller@),
{
    let mut state: Vec<String> = Vec::new();
    state.push(o.zone.lower_name().to_owned());
    state.push(cat2("controlled by ", controller));
    assert(views(state@) =~= seq![o.zone.lower_words(), "controlled by "@ + controller@]);
    if o.tapped {
        state.push("tapped".to_owned());
    }
    if o.summoning_sick && o.pt.is_some() {
        if is_hasty(o) {
            state.push("summoning sick, but has haste so it can attack".to_owned());
        } else {
            state.push("summoning sick".to_owned());
        }
    }
    if o.damage > 0 {
        state.push(cat2(int_text(o.damage as i64).as_str(), " damage marked"));
    }
    if o.attacking.is_some() {
        state.push("attacking".to_owned());
    }
    if o.blocking.len() > 0 {
        state.push(cat2("blocking ", ids_joined(&o.blocking).as_str()));
    }
    state
}

/// An object in full: its card, and the state it is in.
pub fn object_text(o: &ObjectView, controller: &str) -> (r: String)
    ensures
        r@ == o@.full_words(controller@),
{
    let card = card_text(
        o.name.as_str(),
        o.cost.text().as_str(),
        &o.types,
        &o.subtypes,
        o.pt,
        o.text.as_str(),
    );
    let state = conditions_of(o, controller);
    cat3(card.as_str(), "\nState: ", join(&state, ", ").as_str())
}

// ----- waiting -----

/// Priority with nothing to do: every legal action is a pass or a concession.
pub open spec fn idle(legal: Seq<LegalModel>) -> bool {
    legal.len() > 0 && forall|i: int|
        0 <= i < legal.len() ==> (#[trigger] legal[i]).action is PassPriority
            || legal[i].action is Concede
}

/// Somebody is attacking.
pub open spec fn under_attack(v: GameSeen) -> bool {
    exists|i: int| 0 <= i < v.objects.len() && (#[trigger] v.objects[i]).attacking is Some
}

/// A moment worth waking a seat for: anything but plain priority, anything
/// with a stack, its own main phases and attack, and the moments of other
/// turns in which an instant matters.
pub open spec fn worth_waking(v: GameSeen, me: Seat, reason: Option<ActReason>) -> bool {
    if reason != Some(ActReason::Priority) || v.stack.len() > 0 {
        true
    } else if v.active_player == me {
        v.phase is Main1 || v.phase is Main2 || v.phase is DeclareAttackers
    } else {
        (v.phase is DeclareAttackers && under_attack(v)) || v.phase is DeclareBlockers
            || v.phase is End
    }
}

/// What a wait that has come to this seat's turn does.
#[derive(Copy, Clone, Debug, PartialEq, Eq, Structural)]
pub enum TurnStep {
    GameOver,
    /// The view and the list disagree: the game moved between them.
    Resync,
    /// Nothing worth waking for: pass and keep waiting.
    Pass,
    /// A decision for the agent.
    Decide,
}

pub open spec fn turn_step(
    v: GameSeen,
    me: Seat,
    legal: Seq<LegalModel>,
    version: u64,
    reason: Option<ActReason>,
    auto_pass: bool,
) -> TurnStep {
    if v.outcome is Some {
        TurnStep::GameOver
    } else if legal.len() == 0 || version != v.state_version {
        TurnStep::Resync
    } else if auto_pass && (idle(legal) || !worth_waking(v, me, reason)) {
        TurnStep::Pass
    } else {
        TurnStep::Decide
    }
}

/// With automatic passing a seat is woken only where it has something other
/// than passing to do, at a moment worth waking for; without it, always.
pub proof fn law_woken_only_for_a_decision(
    v: GameSeen,
    me: Seat,
    legal: Seq<LegalModel>,
    version: u64,
    reason: Option<ActReason>,
    auto_pass: bool,
)
    requires
        turn_step(v, me, legal, version, reason, auto_pass) is Decide,
    ensures
        legal.len() > 0,
        version == v.state_version,
        auto_pass ==> worth_waking(v, me, reason) && exists|i: int|
            0 <= i < legal.len() && !((#[trigger] legal[i]).action is PassPriority)
                && !(legal[i].action is Concede),
{
}

pub fn nothing_to_do(legal: &Vec<LegalAction>) -> (b: bool)
    ensures
        b == idle(views(legal@)),
{
    let ghost all = views(legal@);
    assert(all.len() == legal@.len());
    if legal.len() == 0 {
        return false;
    }
    let mut i: usize = 0;
    while i < legal.len()
        invariant
            i <= legal.len(),
            all == views(legal@),
            all.len() == legal@.len(),
            forall|j: int|
                0 <= j < i ==> (#[trigger] all[j]).action is PassPriority || all[j].action is Concede,
        decreases legal.len() - i,
    {
        assert(all[i as int] == legal@[i as int]@);
        if !matches!(legal[i].action, Action::PassPriority | Action::Concede) {
            return false;
        }
        i = i + 1;
    }
    true
}

fn is_under_attack(v: &GameView) -> (b: bool)
    ensures
        b == under_attack(v@),
{
    let ghost all = v@.objects;
    assert(all.len() == v.objects@.len());
    let mut i: usize = 0;
    while i < v.objects.len()
        invariant
            i <= v.objects.len(),
            all == views(v.objects@),
            all.len() == v.objects@.len(),
            forall|j: int| 0 <= j < i ==> (#[trigger] all[j]).attacking is None,
        decreases v.objects.len() - i,
    {
        assert(all[i as int] == v.objects@[i as int]@);
        if v.objects[i].attacking.is_some() {
            return true;
        }
        i = i + 1;
    }
    false
}

fn is_worth_waking(v: &GameView, me: Seat, reason: Option<ActReason>) -> (b: bool)
    ensures
        b == worth_waking(v@, me, reason),
{
    assert(views(v.stack@).len() == v.stack@.len());
    if reason != Some(ActReason::Priority) || v.stack.len() > 0 {
        true
    } else if v.active_player == me {
        matches!(v.phase, Phase::Main1 | Phase::Main2 | Phase::DeclareAttackers)
    } else {
        match v.phase {
            Phase::DeclareAttackers => is_under_attack(v),
            Phase::DeclareBlockers => true,
            Phase::End => true,
            _ => false,
        }
    }
}

/// What a wait does once it is this seat's turn: wake the agent for a real
/// decision, and pass for it where there is none.
pub fn decide_turn(
    view: &GameView,
    me: Seat,
    legal: &Vec<LegalAction>,
    version: u64,
    reason: Option<ActReason>,
    auto_pass: bool,
) -> (r: TurnStep)
    ensures
        r == turn_step(view@, me, views(legal@), version, reason, auto_pass),
{
    assert(views(legal@).len() == legal@.len());
    if view.outcome.is_some() {
        TurnStep::GameOver
    } else if legal.len() == 0 || version != view.state_version {
        TurnStep::Resync
    } else if auto_pass && (nothing_to_do(legal) || !is_worth_waking(view, me, reason)) {
        TurnStep::Pass
    } else {
        TurnStep::Decide
    }
}

} // verus!
