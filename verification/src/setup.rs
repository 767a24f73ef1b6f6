//! Sitting down to a game: who plays, with which decks, under which rules.
use crate::card::{CardDb, CardId, CardModel};
use crate::dice::Dice;
use crate::error::{ErrorModel, RulesError};
use crate::event::{EventBase, EventFacts, EventModel};
use crate::format::{Format, LegalityTable, Violation, ViolationModel};
use crate::keeping::{keep_draw, keep_settle};
use crate::progress::lemma_settle;
use crate::seqs::{copied, group_views, views};
use crate::sound::{lemma_emit, lemma_same_core, lemma_shuffle, nobody};
use crate::state::{CombatRound, Game, GameModel, GameObject, ObjectModel, Objects, PendingChoice, PendingModel, PlayerModel, PlayerState};
use crate::types::{seat_words, ObjectId, Phase, Seat, Zone};
use crate::words::{cat2, cat6, cat7, decimal, join, joined, nat_text};
use std::sync::Arc;
use vstd::prelude::*;

verus! {

broadcast use group_views;

#[derive(Debug)]
pub struct PlayerSetup {
    pub name: String,
    /// Already validated against the format; `Game::new` checks again.
    pub deck: Vec<CardId>,
}

/// A player's name and deck, as a mathematical value.
#[verifier::ext_equal]
pub ghost struct SetupModel {
    pub name: Seq<char>,
    pub deck: Seq<CardId>,
}

impl View for PlayerSetup {
    type V = SetupModel;

    open spec fn view(&self) -> SetupModel {
        SetupModel { name: self.name@, deck: self.deck@ }
    }
}

impl Clone for PlayerSetup {
    fn clone(&self) -> (r: PlayerSetup)
        ensures
            r@ == self@,
    {
        PlayerSetup { name: self.name.clone(), deck: copied(&self.deck) }
    }
}

pub struct GameConfig {
    pub format: Format,
    /// One per seat, in seat order.
    pub players: Vec<PlayerSetup>,
    pub cards: Arc<CardDb>,
    /// `None` chooses at random from the seed (rule 103.1).
    pub starting_player: Option<Seat>,
}

/// How a game is set up, as a mathematical value.
#[verifier::ext_equal]
pub ghost struct ConfigModel {
    pub format: Format,
    pub players: Seq<SetupModel>,
    pub cards: Seq<CardModel>,
    pub starting_player: Option<Seat>,
}

impl View for GameConfig {
    type V = ConfigModel;

    open spec fn view(&self) -> ConfigModel {
        ConfigModel {
            format: self.format,
            players: views(self.players@),
            cards: self.cards@,
            starting_player: self.starting_player,
        }
    }
}

pub open spec fn violation_words(vs: Seq<ViolationModel>) -> Seq<char> {
    joined(Seq::new(vs.len(), |i: int| vs[i].words()), "; "@)
}

/// The objects of a deck whose first card gets the id after `start`.
pub open spec fn deck_objects(deck: Seq<CardId>, owner: Seat, start: nat) -> Seq<ObjectModel> {
    Seq::new(
        deck.len(),
        |i: int| ObjectModel::fresh(ObjectId((start + i + 1) as u32), deck[i], owner),
    )
}

pub open spec fn ids_after(start: nat, n: nat) -> Seq<ObjectId> {
    Seq::new(n, |i: int| ObjectId((start + i + 1) as u32))
}

/// The seats round the table from `starting`.
pub open spec fn seats_from(starting: Seat, n: nat) -> Seq<Seat> {
    Seq::new(n, |k: int| Seat(((starting.0 + k) % (n as int)) as u8))
}

impl ConfigModel {
    /// What is wrong with a setup before anyone's deck is looked at.
    pub open spec fn table_error(self) -> Option<ErrorModel> {
        let n = self.players.len();
        if !(self.format.players.min <= n <= self.format.players.max) {
            Some(
                ErrorModel::Setup {
                    reason: self.format.name@ + " needs "@ + decimal(
                        self.format.players.min as nat,
                    ) + "–"@ + decimal(self.format.players.max as nat) + " players, got "@
                        + decimal(n),
                },
            )
        } else if self.format.rule_violations().len() > 0 {
            Some(ErrorModel::Setup { reason: violation_words(self.format.rule_violations()) })
        } else {
            match self.starting_player {
                Some(s) => if s.0 >= n {
                    Some(ErrorModel::Setup { reason: seat_words(s) + " is not at this table"@ })
                } else {
                    None
                },
                None => None,
            }
        }
    }

    pub open spec fn deck_violations(self, i: nat) -> Seq<ViolationModel> {
        self.format.violations(self.players[i as int].deck, self.cards, None::<&LegalityTable>)
    }

    /// What is wrong with the first illegal deck from player `i` on.
    pub open spec fn deck_error(self, i: nat) -> Option<ErrorModel>
        decreases self.players.len() - i,
    {
        if i >= self.players.len() {
            None
        } else if self.deck_violations(i).len() > 0 {
            Some(
                ErrorModel::Setup {
                    reason: self.players[i as int].name + "'s deck is not legal in "@
                        + self.format.name@ + ": "@ + violation_words(self.deck_violations(i)),
                },
            )
        } else {
            self.deck_error(i + 1)
        }
    }

    /// Why a game cannot be set up this way, if it cannot.
    pub open spec fn error(self) -> Option<ErrorModel> {
        match self.table_error() {
            Some(e) => Some(e),
            None => self.deck_error(0),
        }
    }

    pub open spec fn deck_known(self, i: int) -> bool {
        forall|k: int|
            0 <= k < self.players[i].deck.len() ==> (#[trigger] self.players[i].deck[k])
                < self.cards.len()
    }

    /// Somebody sits at the table, and every deck up to the first illegal one
    /// is made of cards in the database.
    pub open spec fn readable(self) -> bool {
        self.table_error() is None ==> self.players.len() > 0 && forall|i: int|
            0 <= i < self.players.len() && (forall|j: int|
                0 <= j < i ==> (#[trigger] self.deck_violations(j as nat)).len() == 0)
                ==> #[trigger] self.deck_known(i)
    }

    /// There are ids for all the cards.
    pub open spec fn fits(self) -> bool {
        self.objects_n(self.players.len()).len() <= u32::MAX
    }

    /// The objects of the first `n` players, in seat order.
    pub open spec fn objects_n(self, n: nat) -> Seq<ObjectModel>
        decreases n,
    {
        if n == 0 || n > self.players.len() {
            Seq::empty()
        } else {
            let before = self.objects_n((n - 1) as nat);
            before + deck_objects(self.players[n - 1].deck, Seat((n - 1) as u8), before.len())
        }
    }

    pub open spec fn seated(self, i: nat) -> PlayerModel {
        let p = self.players[i as int];
        PlayerModel::fresh(
            p.name,
            self.format.starting_life,
            ids_after(self.objects_n(i).len(), p.deck.len()),
        )
    }

    pub open spec fn starting(self, seed: u64) -> Seat {
        match self.starting_player {
            Some(s) => s,
            None => Seat((Dice { seed, pos: 0 }).rolled(self.players.len() as u64) as u8),
        }
    }

    /// The table before anything has happened.
    pub open spec fn laid_out(self, seed: u64) -> GameModel {
        let n = self.players.len();
        let dice = Dice { seed, pos: 0 };
        GameModel {
            format: self.format,
            turn: 0,
            seating: seats_from(self.starting(seed), n),
            turn_order: seats_from(self.starting(seed), n),
            active_player: self.starting(seed),
            phase: Phase::Untap,
            priority: None,
            passed_in_succession: 0,
            stack: Seq::empty(),
            players: Seq::new(n, |i: int| self.seated(i as nat)),
            objects: self.objects_n(n),
            pending: None,
            log: Seq::empty(),
            dice: if self.starting_player is Some {
                dice
            } else {
                dice.after_roll(n as u64)
            },
            cards: self.cards,
            seed,
            state_version: 0,
            history: Seq::empty(),
            outcome: None,
            started: false,
            turn_aborted: false,
            damage_assignments: Seq::empty(),
            tokens: Seq::empty(),
            fired: Seq::empty(),
            delayed: Seq::empty(),
            trigger_cursor: 0,
            combat_round: CombatRound::Idle,
        }
    }

    /// The game is announced.
    pub open spec fn opening(self, seed: u64) -> EventFacts {
        EventModel::GameStarted {
            starting_player: self.starting(seed),
            seats: self.players.len() as u8,
        }
    }

    /// The game before its first decision.
    pub open spec fn start(self, seed: u64) -> GameModel {
        let g0 = self.laid_out(seed);
        let g1 = g0.emit(self.opening(seed)).deal(g0.seating, g0.seating.len());
        let g2 = GameModel {
            pending: if self.format.starting_hand > 0 && g0.seating.len() > 0 {
                Some(PendingModel::Mulligan { seat: g0.seating[0] })
            } else {
                None
            },
            ..g1
        };
        GameModel { trigger_cursor: g2.log.len(), ..g2 }.settle()
    }
}

impl GameModel {
    /// The first `n` seats shuffle and draw a hand, in order.
    pub open spec fn deal(self, seats: Seq<Seat>, n: nat) -> GameModel
        decreases n,
    {
        if n == 0 || n > seats.len() {
            self
        } else {
            self.deal(seats, (n - 1) as nat).shuffle_library(seats[n - 1]).draw(
                seats[n - 1],
                self.format.starting_hand as nat,
            )
        }
    }
}

fn violation_text(vs: &Vec<Violation>) -> (r: String)
    ensures
        r@ == violation_words(views(vs@)),
{
    let mut parts: Vec<String> = Vec::new();
    let ghost all = Seq::new(vs@.len(), |i: int| views(vs@)[i].words());
    let mut i: usize = 0;
    while i < vs.len()
        invariant
            i <= vs.len(),
            all == Seq::new(vs@.len(), |i: int| views(vs@)[i].words()),
            views(parts@) == all.subrange(0, i as int),
        decreases vs.len() - i,
    {
        parts.push(vs[i].text());
        i = i + 1;
        assert(all.subrange(0, i as int) =~= all.subrange(0, i - 1).push(all[i - 1]));
    }
    assert(all.subrange(0, vs@.len() as int) =~= all);
    join(&parts, "; ")
}

fn table_of(starting: Seat, n: usize) -> (r: Vec<Seat>)
    requires
        0 < n <= 255,
    ensures
        r@ == seats_from(starting, n as nat),
{
    let mut out: Vec<Seat> = Vec::new();
    let mut k: usize = 0;
    while k < n
        invariant
            k <= n,
            0 < n <= 255,
            out@ == seats_from(starting, n as nat).subrange(0, k as int),
        decreases n - k,
    {
        out.push(Seat(((starting.0 as usize + k) % n) as u8));
        k = k + 1;
        assert(seats_from(starting, n as nat).subrange(0, k as int) =~= seats_from(
            starting,
            n as nat,
        ).subrange(0, k - 1).push(seats_from(starting, n as nat)[k - 1]));
    }
    assert(seats_from(starting, n as nat).subrange(0, n as int) =~= seats_from(starting, n as nat));
    out
}

/// Put a deck's cards among the objects and return their ids.
fn lay_out(objects: &mut Objects, deck: &Vec<CardId>, owner: Seat) -> (r: Vec<ObjectId>)
    ensures
        final(objects)@ == old(objects)@ + deck_objects(deck@, owner, old(objects)@.len()),
        r@ == ids_after(old(objects)@.len(), deck@.len()),
{
    let ghost start = objects@;
    let ghost more = deck_objects(deck@, owner, start.len());
    let mut ids: Vec<ObjectId> = Vec::new();
    let mut i: usize = 0;
    assert(start =~= start + more.subrange(0, 0));
    while i < deck.len()
        invariant
            i <= deck.len(),
            more == deck_objects(deck@, owner, start.len()),
            objects@ == start + more.subrange(0, i as int),
            ids@ == ids_after(start.len(), deck@.len()).subrange(0, i as int),
        decreases deck.len() - i,
    {
        let at: usize = objects.len();
        let id = ObjectId((at as u128 + 1) as u32);
        objects.insert(GameObject::new(id, deck[i], owner));
        ids.push(id);
        i = i + 1;
        assert(more.subrange(0, i as int) =~= more.subrange(0, i - 1).push(more[i - 1]));
        assert(objects@ =~= start + more.subrange(0, i as int));
        assert(ids@ =~= ids_after(start.len(), deck@.len()).subrange(0, i as int));
    }
    assert(more.subrange(0, deck@.len() as int) =~= more);
    assert(ids_after(start.len(), deck@.len()).subrange(0, deck@.len() as int) =~= ids_after(
        start.len(),
        deck@.len(),
    ));
    ids
}

impl GameConfig {
    fn check_table(&self) -> (r: Result<(), RulesError>)
        ensures
            match r {
                Ok(_) => self@.table_error() is None,
                Err(e) => self@.table_error() == Some(e@),
            },
    {
        let n: usize = self.players.len();
        if !self.format.allows_player_count(n) {
            let text = cat7(
                self.format.name.as_str(),
                " needs ",
                nat_text(self.format.players.min as u64).as_str(),
                "–",
                nat_text(self.format.players.max as u64).as_str(),
                " players, got ",
                nat_text(n as u64).as_str(),
            );
            return Err(RulesError::setup(text.as_str()));
        }
        let unsupported = self.format.unsupported_rules();
        assert(views(unsupported@).len() == unsupported@.len());
        if unsupported.len() > 0 {
            return Err(RulesError::setup(violation_text(&unsupported).as_str()));
        }
        if let Some(s) = self.starting_player {
            if s.index() >= n {
                return Err(
                    RulesError::setup(cat2(s.text().as_str(), " is not at this table").as_str()),
                );
            }
        }
        Ok(())
    }
}

impl Game {
    /// The table before anything has happened, or what is wrong with the setup.
    fn laid_out(config: GameConfig, seed: u64) -> (r: Result<Game, RulesError>)
        requires
            config@.readable(),
        ensures
            match r {
                Ok(g) => {
                    let n = config@.players.len();
                    &&& config@.error() is None
                    &&& g.model() == config@.laid_out(seed)
                    &&& 0 < n <= 255
                    &&& config@.starting(seed).0 < n
                    &&& forall|j: int| 0 <= j < n ==> #[trigger] config@.deck_known(j)
                },
                Err(e) => config@.error() == Some(e@),
            },
    {
        let ghost c = config@;
        match config.check_table() {
            Ok(_) => {},
            Err(e) => {
                return Err(e);
            },
        }
        let GameConfig { format, players, cards, starting_player } = config;
        let n: usize = players.len();
        let mut objects = Objects::new();
        let mut states: Vec<PlayerState> = Vec::new();
        let mut i: usize = 0;
        while i < n
            invariant
                i <= n,
                c == config@,
                n == players@.len(),
                c.players == views(players@),
                c.format == format,
                c.cards == cards@,
                c.readable(),
                c.table_error() is None,
                c.error() == c.deck_error(i as nat),
                n <= 255,
                forall|j: int| 0 <= j < i ==> (#[trigger] c.deck_violations(j as nat)).len() == 0,
                objects@ == c.objects_n(i as nat),
                views(states@) == Seq::new(i as nat, |k: int| c.seated(k as nat)),
            decreases n - i,
        {
            let p = &players[i];
            assert(c.players[i as int] == p@);
            assert(c.deck_known(i as int));
            assert forall|k: int| 0 <= k < p.deck@.len() implies (#[trigger] p.deck@[k])
                < cards@.len() by {
                assert(c.players[i as int].deck[k] < c.cards.len());
            }
            let violations = format.check_deck(&p.deck, &*cards);
            assert(views(violations@) == c.deck_violations(i as nat));
            assert(views(violations@).len() == violations@.len());
            if violations.len() > 0 {
                let text = cat6(
                    p.name.as_str(),
                    "'s deck is not legal in ",
                    format.name.as_str(),
                    ": ",
                    violation_text(&violations).as_str(),
                    String::new().as_str(),
                );
                assert(text@ =~= c.players[i as int].name + "'s deck is not legal in "@
                    + c.format.name@ + ": "@ + violation_words(c.deck_violations(i as nat)));
                return Err(RulesError::setup(text.as_str()));
            }
            let library = lay_out(&mut objects, &p.deck, Seat(i as u8));
            states.push(PlayerState::new(p.name.clone(), format.starting_life, library));
            i = i + 1;
            assert(views(states@) =~= Seq::new(i as nat, |k: int| c.seated(k as nat)));
        }
        let mut dice = Dice::new(seed);
        let starting = match starting_player {
            Some(s) => s,
            None => Seat(dice.roll(n as u64) as u8),
        };
        let seating = table_of(starting, n);
        let game = Game {
            format: Arc::new(format),
            turn: 0,
            seating: copied(&seating),
            turn_order: copied(&seating),
            active_player: starting,
            phase: Phase::Untap,
            priority: None,
            passed_in_succession: 0,
            stack: Vec::new(),
            players: states,
            objects,
            pending: None,
            log: Vec::new(),
            dice,
            cards,
            seed,
            state_version: 0,
            history: Vec::new(),
            outcome: None,
            started: false,
            turn_aborted: false,
            damage_assignments: Vec::new(),
            tokens: Vec::new(),
            fired: Vec::new(),
            delayed: Vec::new(),
            trigger_cursor: 0,
            combat_round: CombatRound::Idle,
        };
        assert(game.model() =~= c.laid_out(seed));
        assert(forall|j: int| 0 <= j < n ==> #[trigger] c.deck_known(j));
        Ok(game)
    }

    pub fn new(config: GameConfig, seed: u64) -> (r: Result<Game, RulesError>)
        requires
            config@.readable(),
        ensures
            match r {
                Ok(g) => config@.error() is None && g.model() == config@.start(seed) && (
                config@.fits() ==> g.model().sound() && g.model().at_rest()),
                Err(e) => config@.error() == Some(e@),
            },
    {
        let ghost c = config@;
        let n: usize = config.players.len();
        let mut game = match Game::laid_out(config, seed) {
            Ok(g) => g,
            Err(e) => {
                return Err(e);
            },
        };
        let starting = game.active_player;
        let seating = copied(&game.seating);
        let starting_hand = game.format.starting_hand;
        proof {
            if c.fits() {
                lemma_opening(c, seed);
            }
        }
        game.emit(EventBase::GameStarted { starting_player: starting, seats: n as u8 });
        let ghost g1 = game.model();
        let mut k: usize = 0;
        while k < seating.len()
            invariant
                k <= seating.len(),
                starting_hand == g1.format.starting_hand,
                game.model() == g1.deal(seating@, k as nat),
                c.fits() ==> game.model().sound(),
            decreases seating.len() - k,
        {
            let ghost before = game.model();
            game.shuffle_library(seating[k]);
            game.draw(seating[k], starting_hand as usize);
            proof {
                if c.fits() {
                    lemma_dealt(before, seating[k as int], starting_hand as nat);
                }
            }
            k = k + 1;
        }
        let ghost dealt = game.model();
        if starting_hand > 0 {
            game.set_pending(Some(PendingChoice::Mulligan { seat: seating[0] }));
        } else {
            game.set_pending(None);
        }
        game.trigger_cursor = game.log.len();
        assert(game.model().casting() is None);
        proof {
            if c.fits() {
                lemma_opened(dealt, game.model());
            }
        }
        game.settle();
        Ok(game)
    }
}

// ----- the table before anything has happened -----

/// What the objects of the first `n` players are: each player's deck in a row.
proof fn lemma_objects_n(c: ConfigModel, n: nat)
    requires
        n <= c.players.len(),
    ensures
        forall|j: int|
            0 <= j < n ==> #[trigger] c.objects_n(j as nat).len() + c.players[j].deck.len()
                <= c.objects_n(n).len(),
        forall|j: int, k: int|
            #![trigger c.players[j].deck[k]]
            0 <= j < n && 0 <= k < c.players[j].deck.len() ==> c.objects_n(n)[c.objects_n(
                j as nat,
            ).len() + k] == ObjectModel::fresh(
                ObjectId((c.objects_n(j as nat).len() + k + 1) as u32),
                c.players[j].deck[k],
                Seat(j as u8),
            ),
        forall|i: int| 0 <= i < c.objects_n(n).len() ==> #[trigger] c.in_a_deck(i, n),
    decreases n,
{
    if n > 0 {
        let m = (n - 1) as nat;
        lemma_objects_n(c, m);
        let before = c.objects_n(m);
        let now = c.objects_n(n);
        assert forall|j: int, k: int|
            #![trigger c.players[j].deck[k]]
            0 <= j < n && 0 <= k < c.players[j].deck.len() implies now[c.objects_n(j as nat).len()
            + k] == ObjectModel::fresh(
            ObjectId((c.objects_n(j as nat).len() + k + 1) as u32),
            c.players[j].deck[k],
            Seat(j as u8),
        ) by {
            if j < m {
                let at = c.objects_n(j as nat).len() + k;
                assert(c.objects_n(j as nat).len() + c.players[j].deck.len() <= before.len());
                assert(now[at] == before[at]);
            }
        }
        assert forall|i: int| 0 <= i < now.len() implies #[trigger] c.in_a_deck(i, n) by {
            if i < before.len() {
                assert(c.in_a_deck(i, m));
                let (j, k) = choose|j: int, k: int| c.deck_slot(i, m, j, k);
                assert(c.deck_slot(i, n, j, k));
            } else {
                assert(c.deck_slot(i, n, m as int, i - before.len()));
            }
        }
    }
}

impl ConfigModel {
    /// The `i`-th object is card `k` of player `j`, one of the first `n`.
    pub open spec fn deck_slot(self, i: int, n: nat, j: int, k: int) -> bool {
        0 <= j < n && 0 <= k < self.players[j].deck.len() && i == self.objects_n(j as nat).len() + k
    }

    pub open spec fn in_a_deck(self, i: int, n: nat) -> bool {
        exists|j: int, k: int| self.deck_slot(i, n, j, k)
    }
}

/// Everybody sits round the table once.
proof fn lemma_seats_from(starting: Seat, n: nat)
    requires
        starting.0 < n <= 255,
    ensures
        forall|s: Seat| #[trigger] seats_from(starting, n).contains(s) <==> s.0 < n,
        seats_from(starting, n).len() == n,
{
    let all = seats_from(starting, n);
    assert forall|s: Seat| #[trigger] all.contains(s) <==> s.0 < n by {
        if all.contains(s) {
            let k = choose|k: int| 0 <= k < all.len() && all[k] == s;
            assert(0 <= (starting.0 + k) % (n as int) < n);
        }
        if s.0 < n {
            let k: int = if s.0 >= starting.0 {
                s.0 - starting.0
            } else {
                s.0 - starting.0 + n
            };
            assert((starting.0 + k) % (n as int) == s.0) by {
                vstd::arithmetic::div_mod::lemma_small_mod(s.0 as nat, n);
                vstd::arithmetic::div_mod::lemma_mod_add_multiples_vanish(s.0 as int, n as int);
            }
            assert(all[k] == s);
        }
    }
}

/// The table with the game announced.
proof fn lemma_opening(c: ConfigModel, seed: u64)
    requires
        0 < c.players.len() <= 255,
        c.starting(seed).0 < c.players.len(),
        c.fits(),
        forall|j: int| 0 <= j < c.players.len() ==> #[trigger] c.deck_known(j),
    ensures
        c.laid_out(seed).emit(c.opening(seed)).sound(),
{
    lemma_laid_out(c, seed);
    lemma_emit(c.laid_out(seed), c.opening(seed));
    reveal(GameModel::keeps);
}

/// Shuffling and drawing a hand keeps a game sound.
proof fn lemma_dealt(g: GameModel, seat: Seat, n: nat)
    requires
        g.sound(),
        g.shuffles_fairly(seat),
    ensures
        g.shuffle_library(seat).draw(seat, n).sound(),
{
    lemma_shuffle(g, seat);
    keep_draw(g.shuffle_library(seat), seat, n);
    reveal(GameModel::keeps);
}

/// With hands dealt, the game comes to rest on its first decision.
proof fn lemma_opened(dealt: GameModel, g: GameModel)
    requires
        dealt.sound(),
        dealt.same_core(g),
        g.casting() is None,
    ensures
        g.settle().sound(),
        g.settle().at_rest(),
{
    lemma_same_core(dealt, g);
    assert(g.sound()) by {
        reveal(GameModel::keeps);
    }
    keep_settle(g);
    lemma_settle(g);
}

/// Before anything has happened every card is in its owner's library.
proof fn lemma_laid_out(c: ConfigModel, seed: u64)
    requires
        0 < c.players.len() <= 255,
        c.starting(seed).0 < c.players.len(),
        c.fits(),
        forall|j: int| 0 <= j < c.players.len() ==> #[trigger] c.deck_known(j),
    ensures
        c.laid_out(seed).sound(),
{
    let n = c.players.len();
    let g = c.laid_out(seed);
    lemma_objects_n(c, n);
    lemma_seats_from(c.starting(seed), n);
    assert forall|s: Seat, z: Zone| #[trigger] g.list(s, z) == (if s.0 < n && z is Library {
        ids_after(c.objects_n(s.0 as nat).len(), c.players[s.0 as int].deck.len())
    } else {
        Seq::empty()
    }) by {
        if s.0 < n {
            assert(g.players[s.0 as int] == c.seated(s.0 as nat));
        }
    }
    assert forall|s: Seat, k: int|
        #![trigger g.list(s, Zone::Library)[k]]
        s.0 < n && 0 <= k < g.list(s, Zone::Library).len() implies g.list(s, Zone::Library)[k].0
        == c.objects_n(s.0 as nat).len() + k + 1 && g.in_zone(
        g.list(s, Zone::Library)[k],
        Zone::Library,
    ) && g.obj(g.list(s, Zone::Library)[k]).owner == s by {
        let j = s.0 as int;
        let at = c.objects_n(j as nat).len() + k;
        assert(c.objects_n(j as nat).len() + c.players[j].deck.len() <= c.objects_n(n).len());
        let card = c.players[j].deck[k];
        assert(g.objects[at] == ObjectModel::fresh(ObjectId((at + 1) as u32), card, Seat(j as u8)));
    }
    assert(g.lists_are_true()) by {
        reveal(GameModel::lists_are_true);
        assert forall|s: Seat, z: Zone, k: int|
            #![trigger g.list(s, z)[k]]
            0 <= k < g.list(s, z).len() implies g.in_zone(g.list(s, z)[k], z) && g.obj(
            g.list(s, z)[k],
        ).home() == s by {
            assert(z is Library && s.0 < n);
            assert(g.in_zone(g.list(s, Zone::Library)[k], Zone::Library));
        }
    }
    assert(g.lists_are_sets()) by {
        reveal(GameModel::lists_are_sets);
        assert forall|s: Seat, z: Zone| (#[trigger] g.list(s, z)).no_duplicates() by {
            let l = g.list(s, z);
            assert forall|i: int, j: int| 0 <= i < l.len() && 0 <= j < l.len() && i != j implies l[i]
                != l[j] by {
                assert(z is Library && s.0 < n);
                assert(g.list(s, Zone::Library)[i].0 == c.objects_n(s.0 as nat).len() + i + 1);
                assert(g.list(s, Zone::Library)[j].0 == c.objects_n(s.0 as nat).len() + j + 1);
            }
        }
    }
    assert forall|id: ObjectId| #![trigger g.obj(id)] g.has_obj(id) implies ({
        let o = g.obj(id);
        &&& o.zone is Library
        &&& o.owner.0 < n
        &&& o.controller == o.owner
        &&& o.card < c.cards.len()
        &&& g.list(o.owner, Zone::Library).contains(id)
    }) by {
        let i = id.0 - 1;
        assert(c.in_a_deck(i, n));
        let (j, k) = choose|j: int, k: int| c.deck_slot(i, n, j, k);
        let card = c.players[j].deck[k];
        assert(c.deck_known(j));
        assert(g.obj(id) == ObjectModel::fresh(ObjectId((i + 1) as u32), card, Seat(j as u8)));
        let s = Seat(j as u8);
        assert(g.list(s, Zone::Library)[k] == id);
    }
    assert(g.lists_are_full()) by {
        reveal(GameModel::lists_are_full);
    }
    assert(g.objects_are_real()) by {
        reveal(GameModel::objects_are_real);
    }
    assert(g.spells_are_there()) by {
        reveal(GameModel::spells_are_there);
    }
    assert(g.stack_is_full_but(nobody())) by {
        reveal(GameModel::stack_is_full_but);
    }
    assert(g.table_agrees()) by {
        reveal(GameModel::table_agrees);
        assert forall|s: Seat|
            #![trigger g.turn_order.contains(s)]
            g.turn_order.contains(s) implies g.has_seat(s) && g.player(s).eliminated is None
            && g.seating.contains(s) by {
            assert(g.players[s.0 as int] == c.seated(s.0 as nat));
        }
        assert(g.seating.contains(g.active_player));
    }
}

} // verus!
