//! `TestGame`: a builder that puts specific objects on the battlefield and in
//! hands, then hands back a game positioned at the active player's first main
//! phase.
use crate::action::{Action, ActionModel};
use crate::card::{find_name, name_key, quote_text, quoted, CardDb, CardId, CardModel};
use crate::error::{ErrorModel, RulesError};
use crate::format::{CardPool, Deck, DeckSize, Format, Legality, MulliganRule, PlayerRange};
use crate::seqs::{copied, group_views, share, views};
use crate::setup::{ConfigModel, GameConfig, PlayerSetup, SetupModel};
use crate::state::{Game, GameModel, GameObject, ObjectModel, PendingChoice, PendingModel, PlayerModel};
use crate::types::{ObjectId, Phase, Seat, Zone};
use crate::words::{cat2, cat3, cat5, decimal, nat_text};
use std::sync::Arc;
use vstd::prelude::*;

verus! {

broadcast use group_views;

/// A permissive format: no opening hand, no mulligans, any deck size, any
/// card, and a table of this many seats.
pub open spec fn is_scenario(f: Format, seats: nat) -> bool {
    &&& f.name@ == "Scenario"@
    &&& f.players.min == 2
    &&& f.players.max == (if seats < 2 {
        2
    } else {
        seats as u8
    })
    &&& f.starting_life == 20
    &&& f.starting_hand == 0
    &&& f.max_hand_size == 7
    &&& f.mulligan == (MulliganRule::London { free_first: false })
    &&& f.deck == (Deck {
        size: DeckSize::Min(0),
        singleton: false,
        max_copies: None,
        includes_commander: false,
    })
    &&& f.rules@.len() == 0
    &&& f.legality.pool == CardPool::All
    &&& f.legality.banned@.len() == 0
    &&& f.legality.allowed@.len() == 0
}

/// A permissive format for scenario tests: no opening hand, no mulligans,
/// any deck size, any card, up to six seats.
pub fn scenario_format(seats: usize) -> (f: Format)
    ensures
        is_scenario(f, seats as nat),
{
    Format {
        name: "Scenario".to_owned(),
        players: PlayerRange {
            min: 2,
            max: if seats < 2 {
                2
            } else {
                seats as u8
            },
        },
        starting_life: 20,
        starting_hand: 0,
        max_hand_size: 7,
        mulligan: MulliganRule::London { free_first: false },
        deck: Deck {
            size: DeckSize::Min(0),
            singleton: false,
            max_copies: None,
            includes_commander: false,
        },
        rules: Vec::new(),
        legality: Legality { pool: CardPool::All, banned: Vec::new(), allowed: Vec::new() },
    }
}

// ----- putting things in place -----

impl GameModel {
    /// A new object straight onto a list of `seat`.
    pub open spec fn put(self, seat: Seat, card: CardId, zone: Zone) -> GameModel {
        if self.has_seat(seat) {
            let id = ObjectId((self.objects.len() + 1) as u32);
            let o = ObjectModel { zone, ..ObjectModel::fresh(id, card, seat) };
            let g = GameModel { objects: self.objects.push(o), ..self };
            g.with_list(seat, zone, self.player(seat).zone_list(zone).push(id))
        } else {
            self
        }
    }
}

fn new_object(game: &mut Game, seat: Seat, card: CardId, zone: Zone) -> (id: ObjectId)
    requires
        zone is Battlefield || zone is Hand,
    ensures
        final(game).model() == old(game).model().put(seat, card, zone),
        id == ObjectId((old(game).model().objects.len() + 1) as u32),
{
    let at: usize = game.objects.len();
    let id = ObjectId((at as u128 + 1) as u32);
    if game.find_player(seat).is_none() {
        return id;
    }
    let mut o = GameObject::new(id, card, seat);
    o.zone = zone;
    game.objects.insert(o);
    let ghost g = game.model();
    match game.player_mut(seat) {
        Some(p) => {
            if matches!(zone, Zone::Battlefield) {
                p.battlefield.push(id);
            } else {
                p.hand.push(id);
            }
        },
        None => {},
    }
    id
}

/// Create an object directly on the battlefield under `seat`'s control, not summoning sick.
pub fn put_onto_battlefield(game: &mut Game, seat: Seat, card: CardId) -> (id: ObjectId)
    requires
        old(game).model().has_seat(seat),
    ensures
        final(game).model() == old(game).model().put(seat, card, Zone::Battlefield),
        id == ObjectId((old(game).model().objects.len() + 1) as u32),
{
    new_object(game, seat, card, Zone::Battlefield)
}

pub fn put_in_hand(game: &mut Game, seat: Seat, card: CardId) -> (id: ObjectId)
    requires
        old(game).model().has_seat(seat),
    ensures
        final(game).model() == old(game).model().put(seat, card, Zone::Hand),
        id == ObjectId((old(game).model().objects.len() + 1) as u32),
{
    new_object(game, seat, card, Zone::Hand)
}

// ----- moving on -----

impl GameModel {
    /// What a scenario does when nothing else is asked of it: no attackers, no
    /// blockers, the first suggestion for anything else, and passing.
    pub open spec fn default_action(self) -> Option<(Seat, ActionModel)> {
        match self.pending {
            Some(PendingModel::DeclareAttackers { seat }) => Some(
                (seat, ActionModel::DeclareAttackers { attackers: Seq::empty() }),
            ),
            Some(PendingModel::DeclareBlockers { seat, .. }) => Some(
                (seat, ActionModel::DeclareBlockers { blocks: Seq::empty() }),
            ),
            Some(p) => if self.legal(p.who()).len() > 0 {
                Some((p.who(), self.legal(p.who())[0]))
            } else {
                None
            },
            None => match self.priority {
                Some(s) => Some((s, ActionModel::PassPriority)),
                None => None,
            },
        }
    }

    /// The game after `n` default actions, or what stops it.
    pub open spec fn drifted(self, n: nat) -> Result<GameModel, ErrorModel>
        decreases n,
    {
        if n == 0 {
            Ok(self)
        } else {
            match self.drifted((n - 1) as nat) {
                Err(e) => Err(e),
                Ok(g) => match g.default_action() {
                    Some((seat, a)) => g.apply(seat, a),
                    None => Err(ErrorModel::Setup { reason: "nobody can act"@ }),
                },
            }
        }
    }

    /// At the start of `phase` with the active player holding priority.
    pub open spec fn arrived(self, phase: Phase) -> bool {
        self.phase == phase && self.pending is None && self.priority == Some(self.active_player)
    }

    pub open spec fn stuck(self) -> ErrorModel {
        ErrorModel::Setup {
            reason: "did not converge (turn "@ + decimal(self.turn as nat) + ", "@
                + self.phase.words() + ")"@,
        }
    }

    /// From the state after `n` default actions on, drift to the start of
    /// `phase`; at most a thousand actions.
    pub open spec fn drift_from(self, phase: Phase, n: nat) -> Result<GameModel, ErrorModel>
        decreases MOST_DRIFT - n,
    {
        match self.drifted(n) {
            Err(e) => Err(e),
            Ok(g) => if n >= MOST_DRIFT {
                Err(g.stuck())
            } else if g.outcome is Some || g.arrived(phase) {
                Ok(g)
            } else {
                self.drift_from(phase, n + 1)
            },
        }
    }
}

/// The most default actions `advance_to` and `advance_until` take.
pub const MOST_DRIFT: usize = 1000;

impl Game {
    fn default_action(&self) -> (r: Option<(Seat, Action)>)
        ensures
            match r {
                Some((s, a)) => self.model().default_action() == Some((s, a@)),
                None => self.model().default_action() is None,
            },
    {
        match &self.pending {
            Some(PendingChoice::DeclareAttackers { seat }) => Some(
                (*seat, Action::DeclareAttackers { attackers: Vec::new() }),
            ),
            Some(PendingChoice::DeclareBlockers { seat, .. }) => Some(
                (*seat, Action::DeclareBlockers { blocks: Vec::new() }),
            ),
            Some(p) => {
                let seat = p.seat();
                let acts = self.legal_actions(seat);
                assert(views(acts@).len() == acts@.len());
                if acts.len() > 0 {
                    assert(views(acts@)[0] == acts@[0]@);
                    Some((seat, acts[0].clone()))
                } else {
                    None
                }
            },
            None => match self.priority {
                Some(s) => Some((s, Action::PassPriority)),
                None => None,
            },
        }
    }

    fn is_stuck(&self) -> (r: RulesError)
        ensures
            r@ == self.model().stuck(),
    {
        let text = cat5(
            "did not converge (turn ",
            nat_text(self.turn as u64).as_str(),
            ", ",
            self.phase.label(),
            ")",
        );
        RulesError::setup(text.as_str())
    }

    fn drift(&mut self) -> (r: Result<(), RulesError>)
        ensures
            match old(self).model().default_action() {
                Some((seat, a)) => match r {
                    Ok(_) => old(self).model().apply(seat, a) == Ok::<GameModel, ErrorModel>(
                        final(self).model(),
                    ),
                    Err(e) => old(self).model().apply(seat, a) == Err::<GameModel, ErrorModel>(
                        e@,
                    ) && final(self).model() == old(self).model(),
                },
                None => r matches Err(e) && e@ == (ErrorModel::Setup { reason: "nobody can act"@ })
                    && final(self).model() == old(self).model(),
            },
    {
        match self.default_action() {
            Some((seat, action)) => match self.apply(seat, &action) {
                Ok(_) => Ok(()),
                Err(e) => Err(e),
            },
            None => Err(RulesError::setup("nobody can act")),
        }
    }
}

/// Pass priority (declaring no attackers or blockers, and answering other
/// pending choices with their first suggestion) until the game is at the
/// start of `phase` with the active player holding priority.
pub fn advance_to(game: &mut Game, phase: Phase) -> (r: Result<(), RulesError>)
    ensures
        match r {
            Ok(_) => old(game).model().drift_from(phase, 0) == Ok::<GameModel, ErrorModel>(
                final(game).model(),
            ),
            Err(e) => old(game).model().drift_from(phase, 0) == Err::<GameModel, ErrorModel>(e@),
        },
{
    let ghost g = game.model();
    let mut n: usize = 0;
    while n < MOST_DRIFT
        invariant
            n <= MOST_DRIFT,
            g == old(game).model(),
            g.drifted(n as nat) == Ok::<GameModel, ErrorModel>(game.model()),
            g.drift_from(phase, 0) == g.drift_from(phase, n as nat),
        decreases MOST_DRIFT - n,
    {
        if game.is_over().is_some() || (game.phase == phase && game.pending.is_none()
            && game.priority == Some(game.active_player)) {
            return Ok(());
        }
        match game.drift() {
            Ok(_) => {},
            Err(e) => {
                assert(g.drifted((n + 1) as nat) == Err::<GameModel, ErrorModel>(e@));
                assert(g.drift_from(phase, (n + 1) as nat) == Err::<GameModel, ErrorModel>(e@));
                return Err(e);
            },
        }
        n = n + 1;
    }
    Err(game.is_stuck())
}

/// `done` did not hold of the state after `k` default actions.
pub open spec fn passed_by<F: Fn(&Game) -> bool>(done: F, start: GameModel, k: nat) -> bool {
    exists|g: Game|
        #[trigger] done.ensures((&g,), false) && start.drifted(k) == Ok::<GameModel, ErrorModel>(
            g.model(),
        ) && g.model().outcome is None
}

/// Like `advance_to`, but stops as soon as `done` holds (asked before each
/// default action), so a test can stop at an open pending choice.
pub fn advance_until<F: Fn(&Game) -> bool>(game: &mut Game, done: F) -> (r: Result<(), RulesError>)
    requires
        forall|g: Game| done.requires((&g,)),
    ensures
        match r {
            Ok(_) => exists|n: nat|
                {
                    &&& n < MOST_DRIFT
                    &&& #[trigger] old(game).model().drifted(n) == Ok::<GameModel, ErrorModel>(
                        final(game).model(),
                    )
                    &&& final(game).model().outcome is Some || done.ensures((&*final(game),), true)
                    &&& forall|k: nat| k < n ==> #[trigger] passed_by(done, old(game).model(), k)
                },
            Err(e) => exists|n: nat|
                n <= MOST_DRIFT && (#[trigger] old(game).model().drifted(n) == Err::<
                    GameModel,
                    ErrorModel,
                >(e@) || (n == MOST_DRIFT && old(game).model().drifted(n) == Ok::<
                    GameModel,
                    ErrorModel,
                >(final(game).model()) && e@ == final(game).model().stuck())),
        },
{
    let ghost start = game.model();
    let mut n: usize = 0;
    while n < MOST_DRIFT
        invariant
            n <= MOST_DRIFT,
            start == old(game).model(),
            forall|g: Game| done.requires((&g,)),
            start.drifted(n as nat) == Ok::<GameModel, ErrorModel>(game.model()),
            forall|k: nat| k < n ==> #[trigger] passed_by(done, start, k),
        decreases MOST_DRIFT - n,
    {
        let ghost here = *game;
        if game.is_over().is_some() {
            return Ok(());
        }
        let stop = done(&*game);
        if stop {
            assert(done.ensures((&here,), true));
            return Ok(());
        }
        assert(done.ensures((&here,), false));
        assert(passed_by(done, start, n as nat));
        match game.drift() {
            Ok(_) => {},
            Err(e) => {
                assert(start.drifted((n + 1) as nat) == Err::<GameModel, ErrorModel>(e@));
                return Err(e);
            },
        }
        n = n + 1;
    }
    Err(game.is_stuck())
}

/// The seat currently required to act, if any.
pub fn acting_seat(game: &Game) -> (r: Option<Seat>)
    ensures
        match game.model().acting() {
            Some((s, _)) => r == Some(s),
            None => r is None,
        },
{
    game.must_act().seat()
}

// ----- building a scenario -----

/// A scenario as a mathematical value.
#[verifier::ext_equal]
pub ghost struct ScenarioModel {
    pub cards: Seq<CardModel>,
    pub seats: nat,
    pub seed: u64,
    pub starting_player: Seat,
    pub libraries: Seq<Option<Seq<CardId>>>,
    pub battlefield: Seq<(Seat, CardId, bool)>,
    pub hands: Seq<(Seat, CardId)>,
    pub life: Seq<(Seat, i32)>,
    pub missing: Option<Seq<char>>,
}

impl ScenarioModel {
    pub open spec fn known(self, ids: Seq<CardId>) -> bool {
        forall|k: int| 0 <= k < ids.len() ==> (#[trigger] ids[k]) < self.cards.len()
    }

    /// Every library is made of cards in the database.
    pub open spec fn sound(self) -> bool {
        &&& self.cards.len() <= u32::MAX
        &&& self.libraries.len() == self.seats
        &&& forall|i: int|
            0 <= i < self.libraries.len() ==> (#[trigger] self.libraries[i] matches Some(d)
                ==> self.known(d))
    }

    pub open spec fn card(self, name: Seq<char>) -> Option<CardId> {
        find_name(self.cards, name_key(name), 0)
    }

    /// The first unknown name is remembered.
    pub open spec fn without_card(self, name: Seq<char>) -> ScenarioModel {
        ScenarioModel {
            missing: match self.missing {
                Some(m) => Some(m),
                None => Some(name),
            },
            ..self
        }
    }

    pub open spec fn permanent(self, seat: Seat, name: Seq<char>, tapped: bool) -> ScenarioModel {
        match self.card(name) {
            Some(c) => ScenarioModel {
                battlefield: self.battlefield.push((seat, c, tapped)),
                ..self
            },
            None => self.without_card(name),
        }
    }

    pub open spec fn in_hand(self, seat: Seat, name: Seq<char>) -> ScenarioModel {
        match self.card(name) {
            Some(c) => ScenarioModel { hands: self.hands.push((seat, c)), ..self },
            None => self.without_card(name),
        }
    }

    /// The ids of the first `n` names; unknown names are left out.
    pub open spec fn ids(self, names: Seq<&str>, n: nat) -> Seq<CardId>
        decreases n,
    {
        if n == 0 || n > names.len() {
            Seq::empty()
        } else {
            let rest = self.ids(names, (n - 1) as nat);
            match self.card(names[n - 1]@) {
                Some(c) => rest.push(c),
                None => rest,
            }
        }
    }

    /// The first unknown name among the first `n` is remembered.
    pub open spec fn checked(self, names: Seq<&str>, n: nat) -> ScenarioModel
        decreases n,
    {
        if n == 0 || n > names.len() {
            self
        } else {
            let before = self.checked(names, (n - 1) as nat);
            match self.card(names[n - 1]@) {
                Some(_) => before,
                None => before.without_card(names[n - 1]@),
            }
        }
    }

    pub open spec fn with_library(self, seat: Seat, names: Seq<&str>) -> ScenarioModel {
        let s = self.checked(names, names.len());
        ScenarioModel {
            libraries: s.libraries.update(seat.0 as int, Some(self.ids(names, names.len()))),
            ..s
        }
    }

    /// Ten Forests, unless the scenario says otherwise.
    pub open spec fn deck(self, i: int) -> Seq<CardId> {
        match self.libraries[i] {
            Some(d) => d,
            None => match self.card("Forest"@) {
                Some(f) => Seq::new(10, |k: int| f),
                None => Seq::empty(),
            },
        }
    }

    pub open spec fn config(self, format: Format) -> ConfigModel {
        ConfigModel {
            format,
            players: Seq::new(
                self.seats,
                |i: int| SetupModel { name: "P"@ + decimal(i as nat), deck: self.deck(i) },
            ),
            cards: self.cards,
            starting_player: Some(self.starting_player),
        }
    }

    pub open spec fn built(self, format: Format) -> Result<GameModel, ErrorModel> {
        if self.missing is Some {
            Err(
                ErrorModel::Setup {
                    reason: "no card named "@ + quoted(self.missing->0)
                        + " in the test database"@,
                },
            )
        } else {
            match self.config(format).error() {
                Some(e) => Err(e),
                None => {
                    let g0 = self.config(format).start(self.seed);
                    let g1 = g0.with_permanents(self.battlefield, self.battlefield.len());
                    let g2 = g1.with_hands(self.hands, self.hands.len());
                    let g3 = g2.with_lives(self.life, self.life.len());
                    g3.drift_from(Phase::Main1, 0)
                },
            }
        }
    }
}

impl GameModel {
    pub open spec fn with_permanents(self, xs: Seq<(Seat, CardId, bool)>, n: nat) -> GameModel
        decreases n,
    {
        if n == 0 || n > xs.len() {
            self
        } else {
            let g = self.with_permanents(xs, (n - 1) as nat);
            let (seat, card, tapped) = xs[n - 1];
            let id = ObjectId((g.objects.len() + 1) as u32);
            let h = g.put(seat, card, Zone::Battlefield);
            if tapped && g.has_seat(seat) {
                h.with_obj(id, ObjectModel { tapped: true, ..h.obj(id) })
            } else {
                h
            }
        }
    }

    pub open spec fn with_hands(self, xs: Seq<(Seat, CardId)>, n: nat) -> GameModel
        decreases n,
    {
        if n == 0 || n > xs.len() {
            self
        } else {
            self.with_hands(xs, (n - 1) as nat).put(xs[n - 1].0, xs[n - 1].1, Zone::Hand)
        }
    }

    pub open spec fn with_lives(self, xs: Seq<(Seat, i32)>, n: nat) -> GameModel
        decreases n,
    {
        if n == 0 || n > xs.len() {
            self
        } else {
            let g = self.with_lives(xs, (n - 1) as nat);
            g.with_player(xs[n - 1].0, PlayerModel { life: xs[n - 1].1, ..g.player(xs[n - 1].0) })
        }
    }
}

pub struct TestGame {
    pub db: Arc<CardDb>,
    pub seats: usize,
    pub seed: u64,
    pub starting_player: Seat,
    /// `None` = the default ten Forests; `Some(vec![])` = deliberately empty.
    pub libraries: Vec<Option<Vec<CardId>>>,
    pub battlefield: Vec<(Seat, CardId, bool)>,
    pub hands: Vec<(Seat, CardId)>,
    pub life: Vec<(Seat, i32)>,
    /// The first name that is not in the database.
    pub missing: Option<String>,
}

pub open spec fn library_views(s: Seq<Option<Vec<CardId>>>) -> Seq<Option<Seq<CardId>>> {
    Seq::new(
        s.len(),
        |i: int|
            match s[i] {
                Some(d) => Some(d@),
                None => None,
            },
    )
}

impl View for TestGame {
    type V = ScenarioModel;

    open spec fn view(&self) -> ScenarioModel {
        ScenarioModel {
            cards: self.db@,
            seats: self.seats as nat,
            seed: self.seed,
            starting_player: self.starting_player,
            libraries: library_views(self.libraries@),
            battlefield: self.battlefield@,
            hands: self.hands@,
            life: self.life@,
            missing: match self.missing {
                Some(m) => Some(m@),
                None => None,
            },
        }
    }
}

impl TestGame {
    pub fn new(db: Arc<CardDb>, seats: usize) -> (r: TestGame)
        requires
            db@.len() <= u32::MAX,
        ensures
            r@ == (ScenarioModel {
                cards: db@,
                seats: seats as nat,
                seed: 1,
                starting_player: Seat(0),
                libraries: Seq::new(seats as nat, |i: int| None),
                battlefield: Seq::empty(),
                hands: Seq::empty(),
                life: Seq::empty(),
                missing: None,
            }),
            r@.sound(),
    {
        let mut libraries: Vec<Option<Vec<CardId>>> = Vec::new();
        let mut i: usize = 0;
        while i < seats
            invariant
                i <= seats,
                libraries@.len() == i,
                forall|k: int| 0 <= k < i ==> (#[trigger] libraries@[k]) is None,
            decreases seats - i,
        {
            libraries.push(None);
            i = i + 1;
        }
        assert(library_views(libraries@) =~= Seq::new(seats as nat, |i: int| None));
        TestGame {
            db,
            seats,
            seed: 1,
            starting_player: Seat(0),
            libraries,
            battlefield: Vec::new(),
            hands: Vec::new(),
            life: Vec::new(),
            missing: None,
        }
    }

    pub fn seed(self, seed: u64) -> (r: TestGame)
        ensures
            r@ == (ScenarioModel { seed, ..self@ }),
    {
        let mut t = self;
        t.seed = seed;
        t
    }

    pub fn starting_player(self, seat: Seat) -> (r: TestGame)
        ensures
            r@ == (ScenarioModel { starting_player: seat, ..self@ }),
    {
        let mut t = self;
        t.starting_player = seat;
        t
    }

    fn card(&self, name: &str) -> (r: Option<CardId>)
        requires
            self@.sound(),
        ensures
            r == self@.card(name@),
            r matches Some(c) ==> c < self@.cards.len(),
    {
        self.db.lookup(name)
    }

    fn note_missing(&mut self, name: &str)
        ensures
            final(self)@ == old(self)@.without_card(name@),
    {
        if self.missing.is_none() {
            self.missing = Some(name.to_owned());
        }
    }

    fn permanent(self, seat: Seat, name: &str, tapped: bool) -> (r: TestGame)
        requires
            self@.sound(),
        ensures
            r@ == self@.permanent(seat, name@, tapped),
            r@.sound(),
    {
        let mut t = self;
        match t.card(name) {
            Some(c) => {
                t.battlefield.push((seat, c, tapped));
            },
            None => {
                t.note_missing(name);
            },
        }
        t
    }

    /// Put `name` onto `seat`'s battlefield, untapped and not summoning sick.
    pub fn battlefield(self, seat: Seat, name: &str) -> (r: TestGame)
        requires
            self@.sound(),
        ensures
            r@ == self@.permanent(seat, name@, false),
            r@.sound(),
    {
        self.permanent(seat, name, false)
    }

    pub fn battlefield_tapped(self, seat: Seat, name: &str) -> (r: TestGame)
        requires
            self@.sound(),
        ensures
            r@ == self@.permanent(seat, name@, true),
            r@.sound(),
    {
        self.permanent(seat, name, true)
    }

    pub fn hand(self, seat: Seat, name: &str) -> (r: TestGame)
        requires
            self@.sound(),
        ensures
            r@ == self@.in_hand(seat, name@),
            r@.sound(),
    {
        let mut t = self;
        match t.card(name) {
            Some(c) => {
                t.hands.push((seat, c));
            },
            None => {
                t.note_missing(name);
            },
        }
        t
    }

    /// Top of the library is the last name given. An empty list means an empty library.
    pub fn library(self, seat: Seat, names: &Vec<&str>) -> (r: TestGame)
        requires
            self@.sound(),
            seat.0 < self@.seats,
        ensures
            r@ == self@.with_library(seat, names@),
            r@.sound(),
    {
        let ghost s = self@;
        let mut t = self;
        let mut ids: Vec<CardId> = Vec::new();
        let mut i: usize = 0;
        while i < names.len()
            invariant
                i <= names.len(),
                t@ == s.checked(names@, i as nat),
                t@.cards == s.cards,
                t@.seats == s.seats,
                t@.libraries == s.libraries,
                s.sound(),
                s.known(ids@),
                ids@ == s.ids(names@, i as nat),
            decreases names.len() - i,
        {
            match t.card(names[i]) {
                Some(c) => {
                    ids.push(c);
                },
                None => {
                    t.note_missing(names[i]);
                },
            }
            i = i + 1;
        }
        let ghost before = t.libraries@;
        assert(library_views(before).len() == before.len());
        t.libraries.set(seat.index(), Some(ids));
        assert(library_views(t.libraries@) =~= library_views(before).update(
            seat.0 as int,
            Some(ids@),
        ));
        assert forall|i: int| 0 <= i < t@.libraries.len() implies (#[trigger] t@.libraries[i] matches Some(d)
            ==> t@.known(d)) by {
            if i != seat.0 {
                assert(t@.libraries[i] == s.libraries[i]);
                if let Some(d) = s.libraries[i] {
                    assert(s.known(d));
                }
            }
        }
        t
    }

    pub fn life(self, seat: Seat, life: i32) -> (r: TestGame)
        ensures
            r@ == (ScenarioModel { life: self@.life.push((seat, life)), ..self@ }),
    {
        let mut t = self;
        t.life.push((seat, life));
        t
    }

    fn deck(&self, i: usize) -> (r: Vec<CardId>)
        requires
            self@.sound(),
            i < self@.seats,
        ensures
            r@ == self@.deck(i as int),
            self@.known(r@),
    {
        assert(self@.libraries[i as int] == match self.libraries@[i as int] {
            Some(d) => Some(d@),
            None => None,
        });
        match &self.libraries[i] {
            Some(d) => copied(d),
            None => match self.card("Forest") {
                Some(f) => {
                    let mut v: Vec<CardId> = Vec::new();
                    let mut k: usize = 0;
                    while k < 10
                        invariant
                            k <= 10,
                            v@ == Seq::new(k as nat, |j: int| f),
                        decreases 10 - k,
                    {
                        v.push(f);
                        k = k + 1;
                        assert(v@ =~= Seq::new(k as nat, |j: int| f));
                    }
                    v
                },
                None => Vec::new(),
            },
        }
    }

    /// Build the game and advance it to the starting player's first main
    /// phase with priority. Libraries default to ten basic Forests so draws
    /// never fail unless a test asks for an empty library.
    pub fn build(self) -> (r: Result<Game, RulesError>)
        requires
            self@.sound(),
        ensures
            exists|f: Format|
                #[trigger] is_scenario(f, self@.seats) && match r {
                    Ok(g) => self@.built(f) == Ok::<GameModel, ErrorModel>(g.model()),
                    Err(e) => self@.built(f) == Err::<GameModel, ErrorModel>(e@),
                },
    {
        let ghost s = self@;
        let format = scenario_format(self.seats);
        let ghost f = format;
        assert(is_scenario(f, s.seats));
        if let Some(name) = &self.missing {
            let text = cat3(
                "no card named ",
                quote_text(name.as_str()).as_str(),
                " in the test database",
            );
            return Err(RulesError::setup(text.as_str()));
        }
        let mut players: Vec<PlayerSetup> = Vec::new();
        let ghost want = s.config(f).players;
        let mut i: usize = 0;
        while i < self.seats
            invariant
                i <= self.seats,
                s == self@,
                s.sound(),
                want == s.config(f).players,
                views(players@) == want.subrange(0, i as int),
                forall|k: int| 0 <= k < i ==> s.known(#[trigger] want[k].deck),
            decreases self.seats - i,
        {
            let deck = self.deck(i);
            let name = cat2("P", nat_text(i as u64).as_str());
            players.push(PlayerSetup { name, deck });
            i = i + 1;
            assert(want.subrange(0, i as int) =~= want.subrange(0, i - 1).push(want[i - 1]));
        }
        assert(want.subrange(0, self.seats as int) =~= want);
        let config = GameConfig {
            format,
            players,
            cards: share(&self.db),
            starting_player: Some(self.starting_player),
        };
        assert(config@ =~= s.config(f));
        assert forall|i: int| 0 <= i < config@.players.len() implies #[trigger] config@.deck_known(
            i,
        ) by {
            assert(s.known(want[i].deck));
        }
        let mut game = match Game::new(config, self.seed) {
            Ok(g) => g,
            Err(e) => {
                return Err(e);
            },
        };
        let ghost g0 = game.model();
        let mut j: usize = 0;
        while j < self.battlefield.len()
            invariant
                j <= self.battlefield.len(),
                game.model() == g0.with_permanents(self.battlefield@, j as nat),
            decreases self.battlefield.len() - j,
        {
            let (seat, card, tapped) = self.battlefield[j];
            let there = game.find_player(seat).is_some();
            let id = new_object(&mut game, seat, card, Zone::Battlefield);
            if tapped && there {
                match game.obj_mut(id) {
                    Some(o) => {
                        o.tapped = true;
                    },
                    None => {},
                }
            }
            j = j + 1;
        }
        let ghost g1 = game.model();
        let mut k: usize = 0;
        while k < self.hands.len()
            invariant
                k <= self.hands.len(),
                game.model() == g1.with_hands(self.hands@, k as nat),
            decreases self.hands.len() - k,
        {
            let _ = new_object(&mut game, self.hands[k].0, self.hands[k].1, Zone::Hand);
            k = k + 1;
        }
        let ghost g2 = game.model();
        let mut m: usize = 0;
        while m < self.life.len()
            invariant
                m <= self.life.len(),
                game.model() == g2.with_lives(self.life@, m as nat),
            decreases self.life.len() - m,
        {
            match game.player_mut(self.life[m].0) {
                Some(p) => {
                    p.life = self.life[m].1;
                },
                None => {},
            }
            m = m + 1;
        }
        match advance_to(&mut game, Phase::Main1) {
            Ok(_) => Ok(game),
            Err(e) => Err(e),
        }
    }
}

} // verus!
