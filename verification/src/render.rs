//! The compact text view.
use crate::action::Target;
use crate::event::Outcome;
use crate::seqs::{group_views, reversed, copied, views};
use crate::types::{id_words, CardType, Keyword, ObjectId, Seat};
use crate::view::{GameSeen, GameView, HandSeen, HandView, ObjectSeen, ObjectView, PlayerSeen, PlayerView, StackSeen, StackObjectView};
use crate::words::{cat2, cat3, cat4, cat5, decimal, int_text, join, joined, nat_text, same_text, sign_text, signed, with_sign};
use vstd::prelude::*;
use vstd::string::*;

verus! {

broadcast use group_views;

impl Outcome {
    pub open spec fn words(self) -> Seq<char> {
        match self {
            Outcome::Winner(s) => "Winner(Seat("@ + decimal(s.0 as nat) + "))"@,
            Outcome::Draw => "Draw"@,
        }
    }

    pub fn text(self) -> (r: String)
        ensures
            r@ == self.words(),
    {
        match self {
            Outcome::Winner(s) => cat3("Winner(Seat(", nat_text(s.0 as u64).as_str(), "))"),
            Outcome::Draw => "Draw".to_owned(),
        }
    }
}

pub open spec fn opt_words(c: bool, s: Seq<char>) -> Seq<char> {
    if c {
        s
    } else {
        Seq::empty()
    }
}

pub open spec fn keyword_words(ks: Seq<Keyword>) -> Seq<char> {
    joined(Seq::new(ks.len(), |i: int| ks[i].words()), " "@)
}

impl ObjectSeen {
    pub open spec fn stat_words(self) -> Seq<char> {
        match self.pt {
            Some((p, t)) => " "@ + signed(p as int) + "/"@ + signed(t as int) + opt_words(
                self.damage > 0,
                " ("@ + signed(self.damage as int) + " dmg)"@,
            ),
            None => opt_words(
                !self.types.contains(CardType::Land),
                " "@ + self.cost.words(),
            ),
        }
    }

    /// What is going on with a permanent.
    pub open spec fn flags(self) -> Seq<Seq<char>> {
        let tapped = if self.tapped {
            seq!["T"@]
        } else {
            Seq::empty()
        };
        let sick = if self.summoning_sick && self.pt is Some {
            tapped.push(
                if self.keywords.contains(Keyword::Haste) {
                    "sick but hasty"@
                } else {
                    "sick"@
                },
            )
        } else {
            tapped
        };
        let attacking = if self.attacking is Some {
            sick.push("attacking"@)
        } else {
            sick
        };
        if self.blocking.len() > 0 {
            attacking.push("blocking"@)
        } else {
            attacking
        }
    }

    pub open spec fn attached_words(self) -> Seq<char> {
        match self.attached_to {
            Some(a) => " (attached to "@ + id_words(a) + ")"@,
            None => Seq::empty(),
        }
    }

    pub open spec fn words(self) -> Seq<char> {
        id_words(self.id) + " "@ + self.name + self.stat_words() + opt_words(
            self.keywords.len() > 0,
            " "@ + keyword_words(self.keywords),
        ) + opt_words(
            self.counters != 0,
            " ["@ + with_sign(self.counters as int) + " counters]"@,
        ) + self.attached_words() + opt_words(
            self.flags().len() > 0,
            " ("@ + joined(self.flags(), ", "@) + ")"@,
        )
    }
}

impl GameSeen {
    /// YOU, or a seat by name.
    pub open spec fn label(self, seat: Seat) -> Seq<char> {
        if self.you == Some(seat) {
            "YOU"@
        } else if seat.0 < self.players.len() {
            self.players[seat.0 as int].name + " (seat "@ + decimal(seat.0 as nat) + ")"@
        } else {
            "(seat "@ + decimal(seat.0 as nat) + ")"@
        }
    }

    pub open spec fn must_words(self) -> Seq<char> {
        match self.must_act.entry {
            Some((s, r)) => self.label(s) + " ("@ + r.words() + ")"@,
            None => "-"@,
        }
    }

    pub open spec fn head_words(self) -> Seq<char> {
        "TURN "@ + decimal(self.turn as nat) + " · "@ + self.phase.upper_words() + " · Active: "@
            + self.label(self.active_player) + " · Must act: "@ + self.must_words() + "\n"@
    }

    pub open spec fn outcome_words(self) -> Seq<char> {
        match self.outcome {
            Some(o) => "GAME OVER: "@ + o.words() + "\n"@,
            None => Seq::empty(),
        }
    }

    pub open spec fn target_words(self, t: Target) -> Seq<char> {
        match t {
            Target::Object(o) => id_words(o),
            Target::Player(s) => self.label(s),
        }
    }

    pub open spec fn target_list(self, ts: Seq<Target>) -> Seq<char> {
        joined(Seq::new(ts.len(), |i: int| self.target_words(ts[i])), ", "@)
    }

    pub open spec fn entry_line(self, so: StackSeen) -> Seq<char> {
        "  "@ + so.name + " "@ + id_words(so.object) + opt_words(
            so.kind != "spell"@,
            " ["@ + so.kind + ": "@ + so.description + "]"@,
        ) + opt_words(so.targets.len() > 0, " → "@ + self.target_list(so.targets)) + " ("@
            + self.label(so.controller) + ")\n"@
    }

    /// The lines of the first `n` entries of the stack.
    pub open spec fn entry_lines(self, n: nat) -> Seq<char>
        decreases n,
    {
        if n == 0 || n > self.stack.len() {
            Seq::empty()
        } else {
            self.entry_lines((n - 1) as nat) + self.entry_line(self.stack[n - 1])
        }
    }

    pub open spec fn stack_words(self) -> Seq<char> {
        if self.stack.len() == 0 {
            "Stack: (empty)\n"@
        } else {
            "Stack (top last):\n"@ + self.entry_lines(self.stack.len())
        }
    }

    pub open spec fn thing_words(self, id: ObjectId) -> Seq<char> {
        match self.object(id) {
            Some(o) => o.words(),
            None => id_words(id),
        }
    }

    pub open spec fn card_words(self, id: ObjectId) -> Seq<char> {
        self.thing_words(id) + opt_words(
            self.object(id) is Some && self.object(id)->0.castable,
            " (castable)"@,
        )
    }

    pub open spec fn thing_list(self, ids: Seq<ObjectId>) -> Seq<char> {
        joined(Seq::new(ids.len(), |i: int| self.thing_words(ids[i])), "  "@)
    }

    pub open spec fn card_list(self, ids: Seq<ObjectId>) -> Seq<char> {
        joined(Seq::new(ids.len(), |i: int| self.card_words(ids[i])), "  "@)
    }

    pub open spec fn player_head(self, p: PlayerSeen) -> Seq<char> {
        "\n"@ + self.label(p.seat) + "  life "@ + signed(p.life as int) + "  hand "@ + decimal(
            p.hand.size(),
        ) + "  library "@ + decimal(p.library.count as nat) + "  grave "@ + decimal(
            p.graveyard.len(),
        ) + match p.mana_pool {
            Some(m) => "  pool: "@ + m.words(),
            None => Seq::empty(),
        } + "\n"@
    }

    pub open spec fn player_words(self, p: PlayerSeen) -> Seq<char> {
        if p.eliminated {
            "\n"@ + self.label(p.seat) + "  (eliminated)\n"@
        } else {
            self.player_head(p) + opt_words(
                p.battlefield.len() > 0,
                "  battlefield: "@ + self.thing_list(p.battlefield) + "\n"@,
            ) + opt_words(
                p.graveyard.len() > 0,
                "  graveyard (newest first): "@ + self.thing_list(p.graveyard.reverse()) + "\n"@,
            ) + match p.hand {
                HandSeen::Yours(hand) => "  hand: "@ + self.card_list(hand) + "\n"@,
                HandSeen::Hidden { .. } => Seq::empty(),
            }
        }
    }

    pub open spec fn all_player_words(self, n: nat) -> Seq<char>
        decreases n,
    {
        if n == 0 || n > self.players.len() {
            Seq::empty()
        } else {
            self.all_player_words((n - 1) as nat) + self.player_words(self.players[n - 1])
        }
    }

    /// The compact text view.
    pub open spec fn words(self) -> Seq<char> {
        self.head_words() + self.outcome_words() + self.stack_words() + self.all_player_words(
            self.players.len(),
        )
    }
}

fn opt_text(c: bool, s: String) -> (r: String)
    ensures
        r@ == opt_words(c, s@),
{
    if c {
        s
    } else {
        String::new()
    }
}

fn keyword_text(ks: &Vec<Keyword>) -> (r: String)
    ensures
        r@ == keyword_words(ks@),
{
    let ghost all = Seq::new(ks@.len(), |i: int| ks@[i].words());
    let mut parts: Vec<String> = Vec::new();
    let mut i: usize = 0;
    while i < ks.len()
        invariant
            i <= ks.len(),
            all == Seq::new(ks@.len(), |i: int| ks@[i].words()),
            views(parts@) == all.subrange(0, i as int),
        decreases ks.len() - i,
    {
        parts.push(ks[i].word().to_owned());
        i = i + 1;
        assert(all.subrange(0, i as int) =~= all.subrange(0, i - 1).push(all[i - 1]));
    }
    assert(all.subrange(0, ks@.len() as int) =~= all);
    join(&parts, " ")
}

fn holds_keyword(ks: &Vec<Keyword>, k: Keyword) -> (b: bool)
    ensures
        b == ks@.contains(k),
{
    let mut i: usize = 0;
    while i < ks.len()
        invariant
            i <= ks.len(),
            forall|j: int| 0 <= j < i ==> ks@[j] != k,
        decreases ks.len() - i,
    {
        if ks[i] == k {
            assert(ks@[i as int] == k);
            return true;
        }
        i = i + 1;
    }
    false
}

fn holds_type(ts: &Vec<CardType>, t: CardType) -> (b: bool)
    ensures
        b == ts@.contains(t),
{
    let mut i: usize = 0;
    while i < ts.len()
        invariant
            i <= ts.len(),
            forall|j: int| 0 <= j < i ==> ts@[j] != t,
        decreases ts.len() - i,
    {
        if ts[i] == t {
            assert(ts@[i as int] == t);
            return true;
        }
        i = i + 1;
    }
    false
}

impl ObjectView {
    fn stat_text(&self) -> (r: String)
        ensures
            r@ == self@.stat_words(),
    {
        match self.pt {
            Some((p, t)) => {
                let harm = cat3(" (", int_text(self.damage as i64).as_str(), " dmg)");
                cat5(
                    " ",
                    int_text(p as i64).as_str(),
                    "/",
                    int_text(t as i64).as_str(),
                    opt_text(self.damage > 0, harm).as_str(),
                )
            },
            None => opt_text(
                !holds_type(&self.types, CardType::Land),
                cat2(" ", self.cost.text().as_str()),
            ),
        }
    }

    fn flags(&self) -> (r: Vec<String>)
        ensures
            views(r@) == self@.flags(),
    {
        let mut flags: Vec<String> = Vec::new();
        if self.tapped {
            flags.push("T".to_owned());
            assert(views(flags@) =~= seq!["T"@]);
        }
        if self.summoning_sick && self.pt.is_some() {
            if holds_keyword(&self.keywords, Keyword::Haste) {
                flags.push("sick but hasty".to_owned());
            } else {
                flags.push("sick".to_owned());
            }
        }
        if self.attacking.is_some() {
            flags.push("attacking".to_owned());
        }
        if self.blocking.len() > 0 {
            flags.push("blocking".to_owned());
        }
        flags
    }

    fn text(&self) -> (r: String)
        ensures
            r@ == self@.words(),
    {
        let mut s = cat4(
            self.id.text().as_str(),
            " ",
            self.name.as_str(),
            self.stat_text().as_str(),
        );
        s.append(
            opt_text(
                self.keywords.len() > 0,
                cat2(" ", keyword_text(&self.keywords).as_str()),
            ).as_str(),
        );
        s.append(
            opt_text(
                self.counters != 0,
                cat3(" [", sign_text(self.counters as i64).as_str(), " counters]"),
            ).as_str(),
        );
        let attached = match self.attached_to {
            Some(a) => cat3(" (attached to ", a.text().as_str(), ")"),
            None => String::new(),
        };
        s.append(attached.as_str());
        let flags = self.flags();
        assert(views(flags@).len() == flags@.len());
        s.append(
            opt_text(flags.len() > 0, cat3(" (", join(&flags, ", ").as_str(), ")")).as_str(),
        );
        s
    }
}

impl GameView {
    fn label(&self, seat: Seat) -> (r: String)
        ensures
            r@ == self@.label(seat),
    {
        assert(views(self.players@).len() == self.players@.len());
        if self.you == Some(seat) {
            "YOU".to_owned()
        } else if seat.index() < self.players.len() {
            cat4(
                self.players[seat.index()].name.as_str(),
                " (seat ",
                nat_text(seat.0 as u64).as_str(),
                ")",
            )
        } else {
            cat3("(seat ", nat_text(seat.0 as u64).as_str(), ")")
        }
    }

    fn head_text(&self) -> (r: String)
        ensures
            r@ == self@.head_words(),
    {
        let must = match self.must_act.entry {
            Some((s, r)) => cat4(self.label(s).as_str(), " (", r.name(), ")"),
            None => "-".to_owned(),
        };
        let mut s = cat5(
            "TURN ",
            nat_text(self.turn as u64).as_str(),
            " · ",
            self.phase.upper_label(),
            " · Active: ",
        );
        s.append(self.label(self.active_player).as_str());
        s.append(" · Must act: ");
        s.append(must.as_str());
        s.append("\n");
        s
    }

    fn target_text(&self, t: Target) -> (r: String)
        ensures
            r@ == self@.target_words(t),
    {
        match t {
            Target::Object(o) => o.text(),
            Target::Player(s) => self.label(s),
        }
    }

    fn target_list(&self, ts: &Vec<Target>) -> (r: String)
        ensures
            r@ == self@.target_list(ts@),
    {
        let ghost all = Seq::new(ts@.len(), |i: int| self@.target_words(ts@[i]));
        let mut parts: Vec<String> = Vec::new();
        let mut i: usize = 0;
        while i < ts.len()
            invariant
                i <= ts.len(),
                all == Seq::new(ts@.len(), |i: int| self@.target_words(ts@[i])),
                views(parts@) == all.subrange(0, i as int),
            decreases ts.len() - i,
        {
            parts.push(self.target_text(ts[i]));
            i = i + 1;
            assert(all.subrange(0, i as int) =~= all.subrange(0, i - 1).push(all[i - 1]));
        }
        assert(all.subrange(0, ts@.len() as int) =~= all);
        join(&parts, ", ")
    }

    fn entry_text(&self, so: &StackObjectView) -> (r: String)
        ensures
            r@ == self@.entry_line(so@),
    {
        let mut s = cat4("  ", so.name.as_str(), " ", so.object.text().as_str());
        let what = cat5(" [", so.kind.as_str(), ": ", so.description.as_str(), "]");
        s.append(opt_text(!same_text(so.kind.as_str(), "spell"), what).as_str());
        let arrow = cat2(" → ", self.target_list(&so.targets).as_str());
        s.append(opt_text(so.targets.len() > 0, arrow).as_str());
        s.append(" (");
        s.append(self.label(so.controller).as_str());
        s.append(")\n");
        s
    }

    fn stack_text(&self) -> (r: String)
        ensures
            r@ == self@.stack_words(),
    {
        assert(views(self.stack@).len() == self.stack@.len());
        if self.stack.len() == 0 {
            return "Stack: (empty)\n".to_owned();
        }
        let mut s = String::new();
        let mut i: usize = 0;
        while i < self.stack.len()
            invariant
                i <= self.stack.len(),
                self@.stack.len() == self.stack@.len(),
                s@ == self@.entry_lines(i as nat),
            decreases self.stack.len() - i,
        {
            assert(self@.stack[i as int] == self.stack@[i as int]@);
            s.append(self.entry_text(&self.stack[i]).as_str());
            i = i + 1;
        }
        cat2("Stack (top last):\n", s.as_str())
    }

    fn thing_text(&self, id: ObjectId) -> (r: String)
        ensures
            r@ == self@.thing_words(id),
    {
        match self.object(id) {
            Some(o) => o.text(),
            None => id.text(),
        }
    }

    fn card_text(&self, id: ObjectId) -> (r: String)
        ensures
            r@ == self@.card_words(id),
    {
        let castable = match self.object(id) {
            Some(o) => o.castable,
            None => false,
        };
        cat2(
            self.thing_text(id).as_str(),
            opt_text(castable, " (castable)".to_owned()).as_str(),
        )
    }

    fn thing_list(&self, ids: &Vec<ObjectId>) -> (r: String)
        ensures
            r@ == self@.thing_list(ids@),
    {
        let ghost all = Seq::new(ids@.len(), |i: int| self@.thing_words(ids@[i]));
        let mut parts: Vec<String> = Vec::new();
        let mut i: usize = 0;
        while i < ids.len()
            invariant
                i <= ids.len(),
                all == Seq::new(ids@.len(), |i: int| self@.thing_words(ids@[i])),
                views(parts@) == all.subrange(0, i as int),
            decreases ids.len() - i,
        {
            parts.push(self.thing_text(ids[i]));
            i = i + 1;
            assert(all.subrange(0, i as int) =~= all.subrange(0, i - 1).push(all[i - 1]));
        }
        assert(all.subrange(0, ids@.len() as int) =~= all);
        join(&parts, "  ")
    }

    fn card_list(&self, ids: &Vec<ObjectId>) -> (r: String)
        ensures
            r@ == self@.card_list(ids@),
    {
        let ghost all = Seq::new(ids@.len(), |i: int| self@.card_words(ids@[i]));
        let mut parts: Vec<String> = Vec::new();
        let mut i: usize = 0;
        while i < ids.len()
            invariant
                i <= ids.len(),
                all == Seq::new(ids@.len(), |i: int| self@.card_words(ids@[i])),
                views(parts@) == all.subrange(0, i as int),
            decreases ids.len() - i,
        {
            parts.push(self.card_text(ids[i]));
            i = i + 1;
            assert(all.subrange(0, i as int) =~= all.subrange(0, i - 1).push(all[i - 1]));
        }
        assert(all.subrange(0, ids@.len() as int) =~= all);
        join(&parts, "  ")
    }

    fn player_head(&self, p: &PlayerView) -> (r: String)
        ensures
            r@ == self@.player_head(p@),
    {
        let mut s = cat4(
            "\n",
            self.label(p.seat).as_str(),
            "  life ",
            int_text(p.life as i64).as_str(),
        );
        s.append("  hand ");
        s.append(nat_text(p.hand.count() as u64).as_str());
        s.append("  library ");
        s.append(nat_text(p.library.count as u64).as_str());
        s.append("  grave ");
        s.append(nat_text(p.graveyard.len() as u64).as_str());
        let pool = match &p.mana_pool {
            Some(m) => cat2("  pool: ", m.text().as_str()),
            None => String::new(),
        };
        s.append(pool.as_str());
        s.append("\n");
        s
    }

    fn player_text(&self, p: &PlayerView) -> (r: String)
        ensures
            r@ == self@.player_words(p@),
    {
        if p.eliminated {
            return cat3("\n", self.label(p.seat).as_str(), "  (eliminated)\n");
        }
        let mut s = self.player_head(p);
        let field = cat3("  battlefield: ", self.thing_list(&p.battlefield).as_str(), "\n");
        s.append(opt_text(p.battlefield.len() > 0, field).as_str());
        let newest = reversed(copied(&p.graveyard));
        assert(newest@ =~= p.graveyard@.reverse());
        let grave = cat3(
            "  graveyard (newest first): ",
            self.thing_list(&newest).as_str(),
            "\n",
        );
        s.append(opt_text(p.graveyard.len() > 0, grave).as_str());
        let hand = match &p.hand {
            HandView::Yours(hand) => cat3("  hand: ", self.card_list(hand).as_str(), "\n"),
            HandView::Hidden { .. } => String::new(),
        };
        s.append(hand.as_str());
        s
    }
}

/// The compact text view. `you` is labelled YOU; other seats by name and seat.
pub fn render_view(v: &GameView) -> (r: String)
    ensures
        r@ == v@.words(),
{
    let over = match v.outcome {
        Some(o) => cat3("GAME OVER: ", o.text().as_str(), "\n"),
        None => String::new(),
    };
    let mut people = String::new();
    let mut i: usize = 0;
    assert(views(v.players@).len() == v.players@.len());
    while i < v.players.len()
        invariant
            i <= v.players.len(),
            v@.players.len() == v.players@.len(),
            people@ == v@.all_player_words(i as nat),
        decreases v.players.len() - i,
    {
        assert(v@.players[i as int] == v.players@[i as int]@);
        people.append(v.player_text(&v.players[i]).as_str());
        i = i + 1;
    }
    cat4(
        v.head_text().as_str(),
        over.as_str(),
        v.stack_text().as_str(),
        people.as_str(),
    )
}

} // verus!
