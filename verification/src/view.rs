//! What one seat is allowed to know. Produced only by `Game::view` and
//! `Game::view_spectator`; structurally unable to carry another seat's hand or
//! any library's order.
use crate::action::{Action, ActionModel, AttackTarget, Target};
use crate::card::{CardDef, CardId, CardModel};
use crate::event::{Elimination, Outcome};
use crate::game::MustAct;
use crate::seqs::{copied, group_views, views};
use crate::state::{Game, GameModel, GameObject, KindModel, ObjectModel, PlayerModel, PlayerState, StackKind, StackModel, StackObject};
use crate::types::{CardType, Color, Keyword, ManaCost, ManaPool, ObjectId, Phase, Seat, Zone};
use crate::words::{cat2, copied_strings};
use vstd::prelude::*;

verus! {

broadcast use group_views;

#[derive(Debug, PartialEq, Eq)]
pub enum HandView {
    Yours(Vec<ObjectId>),
    Hidden { count: u8 },
}

/// A hand as seen from a seat, as a mathematical value.
#[verifier::ext_equal]
pub ghost enum HandSeen {
    Yours(Seq<ObjectId>),
    Hidden { count: u8 },
}

impl View for HandView {
    type V = HandSeen;

    open spec fn view(&self) -> HandSeen {
        match self {
            HandView::Yours(v) => HandSeen::Yours(v@),
            HandView::Hidden { count } => HandSeen::Hidden { count: *count },
        }
    }
}

impl HandSeen {
    pub open spec fn size(self) -> nat {
        match self {
            HandSeen::Yours(v) => v.len(),
            HandSeen::Hidden { count } => count as nat,
        }
    }
}

impl HandView {
    pub fn count(&self) -> (n: usize)
        ensures
            n == self@.size(),
    {
        match self {
            HandView::Yours(v) => v.len(),
            HandView::Hidden { count } => *count as usize,
        }
    }
}

/// Libraries are always hidden, even your own.
#[derive(Copy, Clone, Debug, PartialEq, Eq, Structural)]
pub struct LibraryView {
    pub count: u16,
}

#[derive(Debug, PartialEq, Eq)]
pub struct PlayerView {
    pub seat: Seat,
    pub name: String,
    pub life: i32,
    pub eliminated: bool,
    pub elimination: Option<Elimination>,
    pub hand: HandView,
    pub library: LibraryView,
    pub graveyard: Vec<ObjectId>,
    pub exile: Vec<ObjectId>,
    pub battlefield: Vec<ObjectId>,
    pub command: Vec<ObjectId>,
    pub commander_damage: Vec<(ObjectId, i32)>,
    pub poison: u8,
    pub lands_played_this_turn: u8,
    /// `Some` only for `you`.
    pub mana_pool: Option<ManaPool>,
    /// Limited pool, `Some` only for `you` and only in limited formats.
    pub pool: Option<Vec<CardId>>,
}

/// A player as seen from a seat, as a mathematical value.
#[verifier::ext_equal]
pub ghost struct PlayerSeen {
    pub seat: Seat,
    pub name: Seq<char>,
    pub life: i32,
    pub eliminated: bool,
    pub elimination: Option<Elimination>,
    pub hand: HandSeen,
    pub library: LibraryView,
    pub graveyard: Seq<ObjectId>,
    pub exile: Seq<ObjectId>,
    pub battlefield: Seq<ObjectId>,
    pub command: Seq<ObjectId>,
    pub commander_damage: Seq<(ObjectId, i32)>,
    pub poison: u8,
    pub lands_played_this_turn: u8,
    pub mana_pool: Option<ManaPool>,
    pub pool: Option<Seq<CardId>>,
}

impl View for PlayerView {
    type V = PlayerSeen;

    open spec fn view(&self) -> PlayerSeen {
        PlayerSeen {
            seat: self.seat,
            name: self.name@,
            life: self.life,
            eliminated: self.eliminated,
            elimination: self.elimination,
            hand: self.hand@,
            library: self.library,
            graveyard: self.graveyard@,
            exile: self.exile@,
            battlefield: self.battlefield@,
            command: self.command@,
            commander_damage: self.commander_damage@,
            poison: self.poison,
            lands_played_this_turn: self.lands_played_this_turn,
            mana_pool: self.mana_pool,
            pool: match self.pool {
                Some(p) => Some(p@),
                None => None,
            },
        }
    }
}

#[derive(Debug, PartialEq, Eq)]
pub struct ObjectView {
    pub id: ObjectId,
    pub card: CardId,
    pub name: String,
    pub cost: ManaCost,
    pub types: Vec<CardType>,
    pub subtypes: Vec<String>,
    /// Oracle text.
    pub text: String,
    /// Colours this permanent's intrinsic mana ability makes (basic lands).
    pub produces: Vec<Color>,
    pub owner: Seat,
    pub controller: Seat,
    pub zone: Zone,
    pub tapped: bool,
    pub summoning_sick: bool,
    pub damage: i32,
    /// Effective power/toughness, present iff the object is a creature.
    pub pt: Option<(i32, i32)>,
    pub attacking: Option<AttackTarget>,
    pub blocking: Vec<ObjectId>,
    /// Only meaningful for cards in `you`'s hand: whether a legal cast/play exists right now.
    pub castable: bool,
    /// Keywords the object has right now (printed, granted, or until end of turn).
    pub keywords: Vec<Keyword>,
    pub attached_to: Option<ObjectId>,
    pub token: bool,
    /// +1/+1 counters minus -1/-1 counters.
    pub counters: i32,
    /// Activated abilities as text, in ability order (equip last).
    pub abilities: Vec<String>,
}

/// An object as seen from a seat, as a mathematical value.
#[verifier::ext_equal]
pub ghost struct ObjectSeen {
    pub id: ObjectId,
    pub card: CardId,
    pub name: Seq<char>,
    pub cost: ManaCost,
    pub types: Seq<CardType>,
    pub subtypes: Seq<String>,
    pub text: Seq<char>,
    pub produces: Seq<Color>,
    pub owner: Seat,
    pub controller: Seat,
    pub zone: Zone,
    pub tapped: bool,
    pub summoning_sick: bool,
    pub damage: i32,
    pub pt: Option<(i32, i32)>,
    pub attacking: Option<AttackTarget>,
    pub blocking: Seq<ObjectId>,
    pub castable: bool,
    pub keywords: Seq<Keyword>,
    pub attached_to: Option<ObjectId>,
    pub token: bool,
    pub counters: i32,
    pub abilities: Seq<Seq<char>>,
}

impl View for ObjectView {
    type V = ObjectSeen;

    open spec fn view(&self) -> ObjectSeen {
        ObjectSeen {
            id: self.id,
            card: self.card,
            name: self.name@,
            cost: self.cost,
            types: self.types@,
            subtypes: self.subtypes@,
            text: self.text@,
            produces: self.produces@,
            owner: self.owner,
            controller: self.controller,
            zone: self.zone,
            tapped: self.tapped,
            summoning_sick: self.summoning_sick,
            damage: self.damage,
            pt: self.pt,
            attacking: self.attacking,
            blocking: self.blocking@,
            castable: self.castable,
            keywords: self.keywords@,
            attached_to: self.attached_to,
            token: self.token,
            counters: self.counters,
            abilities: views(self.abilities@),
        }
    }
}

#[derive(Debug, PartialEq, Eq)]
pub struct StackObjectView {
    /// The spell card, or the source of an ability or trigger.
    pub object: ObjectId,
    pub name: String,
    pub controller: Seat,
    pub targets: Vec<Target>,
    pub modes: Vec<u8>,
    pub x: u32,
    /// "spell", "ability", "trigger", "equip"
    pub kind: String,
    /// What it will do, as text.
    pub description: String,
}

/// An entry on the stack as seen by everyone, as a mathematical value.
#[verifier::ext_equal]
pub ghost struct StackSeen {
    pub object: ObjectId,
    pub name: Seq<char>,
    pub controller: Seat,
    pub targets: Seq<Target>,
    pub modes: Seq<u8>,
    pub x: u32,
    pub kind: Seq<char>,
    pub description: Seq<char>,
}

impl View for StackObjectView {
    type V = StackSeen;

    open spec fn view(&self) -> StackSeen {
        StackSeen {
            object: self.object,
            name: self.name@,
            controller: self.controller,
            targets: self.targets@,
            modes: self.modes@,
            x: self.x,
            kind: self.kind@,
            description: self.description@,
        }
    }
}

#[derive(Debug, PartialEq, Eq)]
pub struct GameView {
    /// `None` for spectators.
    pub you: Option<Seat>,
    pub turn: u32,
    pub active_player: Seat,
    pub phase: Phase,
    pub priority: Option<Seat>,
    pub must_act: MustAct,
    pub state_version: u64,
    pub outcome: Option<Outcome>,
    /// Bottom to top.
    pub stack: Vec<StackObjectView>,
    pub players: Vec<PlayerView>,
    /// Objects in public zones, plus `you`'s hand, in id order.
    pub objects: Vec<ObjectView>,
}

/// A game as seen from a seat, as a mathematical value.
#[verifier::ext_equal]
pub ghost struct GameSeen {
    pub you: Option<Seat>,
    pub turn: u32,
    pub active_player: Seat,
    pub phase: Phase,
    pub priority: Option<Seat>,
    pub must_act: MustAct,
    pub state_version: u64,
    pub outcome: Option<Outcome>,
    pub stack: Seq<StackSeen>,
    pub players: Seq<PlayerSeen>,
    pub objects: Seq<ObjectSeen>,
}

impl View for GameView {
    type V = GameSeen;

    open spec fn view(&self) -> GameSeen {
        GameSeen {
            you: self.you,
            turn: self.turn,
            active_player: self.active_player,
            phase: self.phase,
            priority: self.priority,
            must_act: self.must_act,
            state_version: self.state_version,
            outcome: self.outcome,
            stack: views(self.stack@),
            players: views(self.players@),
            objects: views(self.objects@),
        }
    }
}

impl GameSeen {
    /// The first entry for an id from index `i` on.
    pub open spec fn find_from(self, id: ObjectId, i: nat) -> Option<ObjectSeen>
        decreases self.objects.len() - i,
    {
        if i >= self.objects.len() {
            None
        } else if self.objects[i as int].id == id {
            Some(self.objects[i as int])
        } else {
            self.find_from(id, i + 1)
        }
    }

    pub open spec fn object(self, id: ObjectId) -> Option<ObjectSeen> {
        self.find_from(id, 0)
    }
}

impl GameView {
    pub fn player(&self, seat: Seat) -> (r: &PlayerView)
        requires
            seat.0 < self@.players.len(),
        ensures
            r@ == self@.players[seat.0 as int],
    {
        assert(views(self.players@).len() == self.players@.len());
        &self.players[seat.index()]
    }

    pub fn object(&self, id: ObjectId) -> (r: Option<&ObjectView>)
        ensures
            match r {
                Some(o) => self@.object(id) == Some(o@),
                None => self@.object(id) is None,
            },
    {
        let mut i: usize = 0;
        assert(views(self.objects@).len() == self.objects@.len());
        while i < self.objects.len()
            invariant
                i <= self.objects.len(),
                self@.objects.len() == self.objects@.len(),
                self@.object(id) == self@.find_from(id, i as nat),
            decreases self.objects.len() - i,
        {
            assert(self@.objects[i as int] == self.objects@[i as int]@);
            if self.objects[i].id == id {
                return Some(&self.objects[i]);
            }
            i = i + 1;
        }
        None
    }
}

// ----- what is seen -----

/// Some action of the list plays, casts or activates `id`.
pub open spec fn usable(acts: Seq<ActionModel>, id: ObjectId) -> bool {
    exists|i: int|
        0 <= i < acts.len() && match #[trigger] acts[i] {
            ActionModel::PlayLand { object } => object == id,
            ActionModel::CastSpell { object, .. } => object == id,
            ActionModel::ActivateAbility { object, .. } => object == id,
            _ => false,
        }
}

/// The first `n` abilities but those that make mana, as text.
pub open spec fn ability_lines(def: CardModel, n: nat) -> Seq<Seq<char>>
    decreases n,
{
    if n == 0 || n > def.activated.len() {
        Seq::empty()
    } else {
        let rest = ability_lines(def, (n - 1) as nat);
        if def.activated[n - 1].makes_mana() {
            rest
        } else {
            rest.push(def.activated[n - 1].text@)
        }
    }
}

/// A card's activated abilities as text, equip last.
pub open spec fn all_ability_lines(def: CardModel) -> Seq<Seq<char>> {
    let lines = ability_lines(def, def.activated.len());
    match def.equip {
        Some(c) => lines.push("Equip "@ + c.words()),
        None => lines,
    }
}

impl KindModel {
    /// "spell", "ability", "trigger" or "equip".
    pub open spec fn sort_words(self) -> Seq<char> {
        match self {
            KindModel::Spell => "spell"@,
            KindModel::Ability { .. } => "ability"@,
            KindModel::Equip { .. } => "equip"@,
            KindModel::Trigger { .. } => "trigger"@,
            KindModel::Prowess { .. } => "trigger"@,
            KindModel::Delayed { .. } => "trigger"@,
        }
    }
}

impl PlayerModel {
    /// A player as seen from a seat: a hand and a pool are their owner's alone.
    pub open spec fn seen(self, seat: Seat, viewer: Option<Seat>) -> PlayerSeen {
        let is_you = viewer == Some(seat);
        PlayerSeen {
            seat,
            name: self.name,
            life: self.life,
            eliminated: self.eliminated is Some,
            elimination: self.eliminated,
            hand: if is_you {
                HandSeen::Yours(self.hand)
            } else {
                HandSeen::Hidden { count: self.hand.len() as u8 }
            },
            library: LibraryView { count: self.library.len() as u16 },
            graveyard: self.graveyard,
            exile: self.exile,
            battlefield: self.battlefield,
            command: self.command,
            commander_damage: self.commander_damage,
            poison: self.poison,
            lands_played_this_turn: self.lands_played_this_turn,
            mana_pool: if is_you {
                Some(self.mana_pool)
            } else {
                None
            },
            pool: None,
        }
    }
}

impl GameModel {
    /// What the viewer may play, cast or activate right now.
    #[verifier::opaque]
    pub open spec fn viewer_actions(self, viewer: Option<Seat>) -> Seq<ActionModel> {
        match viewer {
            Some(s) => self.legal(s),
            None => Seq::empty(),
        }
    }

    /// An object is seen in a public zone, and in its owner's hand by its owner.
    pub open spec fn visible(self, o: ObjectModel, viewer: Option<Seat>) -> bool {
        self.has_card(o.card) && (o.zone.public() || (o.zone is Hand && viewer == Some(o.owner)))
    }

    #[verifier::opaque]
    pub open spec fn object_seen(
        self,
        o: ObjectModel,
        id: ObjectId,
        acts: Seq<ActionModel>,
    ) -> ObjectSeen {
        let def = self.card(o.card);
        ObjectSeen {
            id,
            card: o.card,
            name: def.name,
            cost: def.cost,
            types: def.types,
            subtypes: def.subtypes,
            text: def.text,
            produces: def.produced(),
            owner: o.owner,
            controller: o.controller,
            zone: o.zone,
            tapped: o.tapped,
            summoning_sick: o.summoning_sick,
            damage: o.damage,
            pt: self.pt(id),
            attacking: o.attacking,
            blocking: o.blocking,
            castable: usable(acts, id),
            keywords: if o.zone is Battlefield {
                self.keywords_of(id)
            } else {
                def.keywords
            },
            attached_to: o.attached_to,
            token: def.token,
            counters: (o.counters.plus1 - o.counters.minus1) as i32,
            abilities: all_ability_lines(def),
        }
    }

    /// The visible ones among the first `n` objects, in id order.
    pub open spec fn objects_seen(self, viewer: Option<Seat>, acts: Seq<ActionModel>, n: nat) -> Seq<
        ObjectSeen,
    >
        decreases n,
    {
        if n == 0 || n > self.objects.len() {
            Seq::empty()
        } else {
            let rest = self.objects_seen(viewer, acts, (n - 1) as nat);
            if self.visible(self.objects[n - 1], viewer) {
                rest.push(self.object_seen(self.objects[n - 1], ObjectId(n as u32), acts))
            } else {
                rest
            }
        }
    }

    pub open spec fn entry_seen(self, so: StackModel) -> StackSeen {
        StackSeen {
            object: so.object,
            name: if self.has_def(so.object) {
                self.def(so.object).name
            } else {
                Seq::empty()
            },
            controller: so.controller,
            targets: so.targets,
            modes: so.modes,
            x: so.x,
            kind: so.kind.sort_words(),
            description: self.entry_words(so),
        }
    }

    /// What a seat, or a spectator, is allowed to know.
    pub open spec fn seen(self, viewer: Option<Seat>) -> GameSeen {
        GameSeen {
            you: viewer,
            turn: self.turn,
            active_player: self.active_player,
            phase: self.phase,
            priority: self.priority,
            must_act: MustAct { entry: self.acting() },
            state_version: self.state_version,
            outcome: self.outcome,
            stack: Seq::new(self.stack.len(), |i: int| self.entry_seen(self.stack[i])),
            players: Seq::new(
                self.players.len(),
                |i: int| self.players[i].seen(Seat(i as u8), viewer),
            ),
            objects: self.objects_seen(viewer, self.viewer_actions(viewer), self.objects.len()),
        }
    }
}

// ----- laws -----

proof fn lemma_object_seen(g: GameModel, o: ObjectModel, id: ObjectId, acts: Seq<ActionModel>)
    ensures
        g.object_seen(o, id, acts).id == id,
        g.object_seen(o, id, acts).zone == o.zone,
        g.object_seen(o, id, acts).owner == o.owner,
{
    reveal(GameModel::object_seen);
}

/// Entry `i` of what is seen is a visible object.
proof fn lemma_seen_visible(
    g: GameModel,
    viewer: Option<Seat>,
    acts: Seq<ActionModel>,
    n: nat,
    i: int,
)
    requires
        n <= g.objects.len() <= u32::MAX,
        0 <= i < g.objects_seen(viewer, acts, n).len(),
    ensures
        ({
            let s = g.objects_seen(viewer, acts, n)[i];
            1 <= s.id.0 <= n && g.visible(g.obj(s.id), viewer) && s.zone == g.obj(s.id).zone
                && s.owner == g.obj(s.id).owner
        }),
    decreases n,
{
    lemma_object_seen(g, g.objects[n - 1], ObjectId(n as u32), acts);
    if i < g.objects_seen(viewer, acts, (n - 1) as nat).len() {
        lemma_seen_visible(g, viewer, acts, (n - 1) as nat, i);
    }
}

/// A visible object is among what is seen.
proof fn lemma_visible_seen(
    g: GameModel,
    viewer: Option<Seat>,
    acts: Seq<ActionModel>,
    n: nat,
    id: ObjectId,
) -> (i: int)
    requires
        1 <= id.0 <= n <= g.objects.len() <= u32::MAX,
        g.visible(g.obj(id), viewer),
    ensures
        0 <= i < g.objects_seen(viewer, acts, n).len(),
        g.objects_seen(viewer, acts, n)[i].id == id,
    decreases n,
{
    lemma_object_seen(g, g.objects[n - 1], ObjectId(n as u32), acts);
    if id.0 == n {
        g.objects_seen(viewer, acts, n).len() - 1
    } else {
        lemma_visible_seen(g, viewer, acts, (n - 1) as nat, id)
    }
}

/// A view shows every object in a public zone and in the viewer's own hand.
pub proof fn law_view_shows_what_is_visible(g: GameModel, viewer: Option<Seat>, id: ObjectId)
    requires
        g.objects.len() <= u32::MAX,
        g.has_obj(id),
        g.visible(g.obj(id), viewer),
    ensures
        exists|i: int|
            0 <= i < g.seen(viewer).objects.len() && (#[trigger] g.seen(viewer).objects[i]).id
                == id,
{
    let i = lemma_visible_seen(g, viewer, g.viewer_actions(viewer), g.objects.len(), id);
    assert(g.seen(viewer).objects[i].id == id);
}

/// A view shows nothing but objects in public zones and in the viewer's own
/// hand: no card in a library, and none in another hand.
pub proof fn law_view_hides_hands_and_libraries(g: GameModel, viewer: Option<Seat>, i: int)
    requires
        g.objects.len() <= u32::MAX,
        0 <= i < g.seen(viewer).objects.len(),
    ensures
        ({
            let s = g.seen(viewer).objects[i];
            g.has_obj(s.id) && s.zone == g.obj(s.id).zone && s.owner == g.obj(s.id).owner && (
            s.zone.public() || (s.zone is Hand && viewer == Some(s.owner)))
        }),
{
    lemma_seen_visible(g, viewer, g.viewer_actions(viewer), g.objects.len(), i);
}

/// A view names the cards of the viewer's own hand and of nobody else's;
/// of the others, and of every library, it gives the size. Only the viewer's
/// own mana pool is shown.
pub proof fn law_view_names_only_your_hand(g: GameModel, viewer: Option<Seat>, seat: Seat)
    requires
        g.has_seat(seat),
    ensures
        g.seen(viewer).players.len() == g.players.len(),
        match g.seen(viewer).players[seat.0 as int].hand {
            HandSeen::Yours(cards) => viewer == Some(seat) && cards == g.hand(seat),
            HandSeen::Hidden { count } => viewer != Some(seat) && count == g.hand(
                seat,
            ).len() as u8,
        },
        g.seen(viewer).players[seat.0 as int].mana_pool is Some <==> viewer == Some(seat),
{
}

// ----- executable parts -----

fn is_usable(acts: &Vec<Action>, id: ObjectId) -> (b: bool)
    ensures
        b == usable(views(acts@), id),
{
    let ghost all = views(acts@);
    let mut i: usize = 0;
    while i < acts.len()
        invariant
            i <= acts.len(),
            all == views(acts@),
            forall|j: int|
                0 <= j < i ==> !match #[trigger] all[j] {
                    ActionModel::PlayLand { object } => object == id,
                    ActionModel::CastSpell { object, .. } => object == id,
                    ActionModel::ActivateAbility { object, .. } => object == id,
                    _ => false,
                },
        decreases acts.len() - i,
    {
        assert(all[i as int] == acts@[i as int]@);
        let hit = match &acts[i] {
            Action::PlayLand { object } => *object == id,
            Action::CastSpell { object, .. } => *object == id,
            Action::ActivateAbility { object, .. } => *object == id,
            _ => false,
        };
        if hit {
            return true;
        }
        i = i + 1;
    }
    false
}

fn abilities_of(def: &CardDef) -> (r: Vec<String>)
    ensures
        views(r@) == all_ability_lines(def@),
{
    let mut out: Vec<String> = Vec::new();
    let mut i: usize = 0;
    while i < def.ir.activated.len()
        invariant
            i <= def.ir.activated.len(),
            views(out@) == ability_lines(def@, i as nat),
        decreases def.ir.activated.len() - i,
    {
        if !def.ir.activated[i].is_mana_ability() {
            out.push(def.ir.activated[i].text.clone());
        }
        i = i + 1;
    }
    if let Some(c) = &def.ir.equip {
        out.push(cat2("Equip ", c.text().as_str()));
    }
    out
}

impl PlayerState {
    fn seen(&self, seat: Seat, viewer: Option<Seat>) -> (r: PlayerView)
        ensures
            r@ == self@.seen(seat, viewer),
    {
        let is_you = viewer == Some(seat);
        PlayerView {
            seat,
            name: self.name.clone(),
            life: self.life,
            eliminated: self.eliminated.is_some(),
            elimination: self.eliminated,
            hand: if is_you {
                HandView::Yours(copied(&self.hand))
            } else {
                HandView::Hidden { count: self.hand.len() as u8 }
            },
            library: LibraryView { count: self.library.len() as u16 },
            graveyard: copied(&self.graveyard),
            exile: copied(&self.exile),
            battlefield: copied(&self.battlefield),
            command: copied(&self.command),
            commander_damage: copied(&self.commander_damage),
            poison: self.poison,
            lands_played_this_turn: self.lands_played_this_turn,
            mana_pool: if is_you {
                Some(self.mana_pool)
            } else {
                None
            },
            pool: None,
        }
    }
}

impl Game {
    fn object_seen(
        &self,
        id: ObjectId,
        o: &GameObject,
        def: &CardDef,
        acts: &Vec<Action>,
    ) -> (r: ObjectView)
        requires
            def@ == self.model().card(o@.card),
        ensures
            r@ == self.model().object_seen(o@, id, views(acts@)),
    {
        reveal(GameModel::object_seen);
        ObjectView {
            id,
            card: o.card,
            name: def.name.clone(),
            cost: def.cost,
            types: copied(&def.types),
            subtypes: copied_strings(&def.subtypes),
            text: def.text.clone(),
            produces: def.produces(),
            owner: o.owner,
            controller: o.controller,
            zone: o.zone,
            tapped: o.tapped,
            summoning_sick: o.summoning_sick,
            damage: o.damage,
            pt: self.effective_stats(id),
            attacking: o.attacking,
            blocking: copied(&o.blocking),
            castable: is_usable(acts, id),
            keywords: if matches!(o.zone, Zone::Battlefield) {
                self.keywords_of(id)
            } else {
                copied(&def.keywords)
            },
            attached_to: o.attached_to,
            token: def.token,
            counters: o.counters.plus1 as i32 - o.counters.minus1 as i32,
            abilities: abilities_of(def),
        }
    }

    fn objects_seen(&self, viewer: Option<Seat>, acts: &Vec<Action>) -> (r: Vec<ObjectView>)
        ensures
            views(r@) == self.model().objects_seen(
                viewer,
                views(acts@),
                self.model().objects.len(),
            ),
    {
        let ghost g = self.model();
        let mut out: Vec<ObjectView> = Vec::new();
        let mut i: usize = 0;
        assert(g.objects.len() == self.objects.items@.len());
        while i < self.objects.items.len()
            invariant
                i <= self.objects.items.len(),
                g == self.model(),
                g.objects.len() == self.objects.items@.len(),
                views(out@) == g.objects_seen(viewer, views(acts@), i as nat),
            decreases self.objects.items.len() - i,
        {
            let o = &self.objects.items[i];
            assert(o@ == g.objects[i as int]);
            let shown = o.zone.is_public() || (matches!(o.zone, Zone::Hand) && viewer == Some(
                o.owner,
            ));
            if shown {
                if let Some(def) = self.find_card(o.card) {
                    let id = ObjectId((i as u128 + 1) as u32);
                    out.push(self.object_seen(id, o, def, acts));
                }
            }
            i = i + 1;
        }
        out
    }

    fn entry_seen(&self, so: &StackObject) -> (r: StackObjectView)
        ensures
            r@ == self.model().entry_seen(so@),
    {
        StackObjectView {
            object: so.object,
            name: match self.find_def(so.object) {
                Some(def) => def.name.clone(),
                None => String::new(),
            },
            controller: so.controller,
            targets: copied(&so.targets),
            modes: copied(&so.modes),
            x: so.x,
            kind: match so.kind {
                StackKind::Spell => "spell".to_owned(),
                StackKind::Ability { .. } => "ability".to_owned(),
                StackKind::Equip { .. } => "equip".to_owned(),
                StackKind::Trigger { .. } => "trigger".to_owned(),
                StackKind::Prowess { .. } => "trigger".to_owned(),
                StackKind::Delayed { .. } => "trigger".to_owned(),
            },
            description: self.describe_stack_object(so),
        }
    }

    fn build_view(&self, viewer: Option<Seat>) -> (r: GameView)
        ensures
            r@ == self.model().seen(viewer),
    {
        let ghost want = self.model().seen(viewer);
        let acts = match viewer {
            Some(s) => self.legal_actions(s),
            None => Vec::new(),
        };
        let mut players: Vec<PlayerView> = Vec::new();
        let mut i: usize = 0;
        assert(want.players.len() == self.players@.len());
        while i < self.players.len()
            invariant
                i <= self.players.len(),
                want == self.model().seen(viewer),
                want.players.len() == self.players@.len(),
                views(players@) == want.players.subrange(0, i as int),
            decreases self.players.len() - i,
        {
            players.push(self.players[i].seen(Seat(i as u8), viewer));
            i = i + 1;
            assert(want.players.subrange(0, i as int) =~= want.players.subrange(0, i - 1).push(
                want.players[i - 1],
            ));
        }
        assert(want.players.subrange(0, self.players@.len() as int) =~= want.players);
        let mut stack: Vec<StackObjectView> = Vec::new();
        let mut k: usize = 0;
        assert(want.stack.len() == self.stack@.len());
        while k < self.stack.len()
            invariant
                k <= self.stack.len(),
                want == self.model().seen(viewer),
                want.stack.len() == self.stack@.len(),
                views(stack@) == want.stack.subrange(0, k as int),
            decreases self.stack.len() - k,
        {
            stack.push(self.entry_seen(&self.stack[k]));
            k = k + 1;
            assert(want.stack.subrange(0, k as int) =~= want.stack.subrange(0, k - 1).push(
                want.stack[k - 1],
            ));
        }
        assert(want.stack.subrange(0, self.stack@.len() as int) =~= want.stack);
        let objects = self.objects_seen(viewer, &acts);
        assert(views(acts@) =~= self.model().viewer_actions(viewer)) by {
            reveal(GameModel::viewer_actions);
        }
        GameView {
            you: viewer,
            turn: self.turn,
            active_player: self.active_player,
            phase: self.phase,
            priority: self.priority,
            must_act: self.must_act(),
            state_version: self.state_version,
            outcome: self.outcome,
            stack,
            players,
            objects,
        }
    }

    /// What `seat` is allowed to know: hidden information of other seats removed.
    pub fn view(&self, seat: Seat) -> (r: GameView)
        ensures
            r@ == self.model().seen(Some(seat)),
    {
        self.build_view(Some(seat))
    }

    /// All hidden information removed.
    pub fn view_spectator(&self) -> (r: GameView)
        ensures
            r@ == self.model().seen(None),
    {
        self.build_view(None)
    }
}

} // verus!
