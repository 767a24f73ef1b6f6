//! Events the engine emits, and the seat-filtered view of them.
//!
//! `Event` and `EventView` are the same enum with one type parameter: the
//! payload of `Drew`. The only hidden information an event can carry is which
//! cards were drawn, so that is the only place the two types differ, and a
//! `Hidden { count }` payload is structurally incapable of naming a card.
use crate::action::{AttackTarget, DamageTarget, Target};
use crate::seqs::{copied, group_views, views};
use crate::types::{clamp_len_u8, sat_u8, Mana, ObjectId, Phase, Seat, Zone};
use vstd::prelude::*;

verus! {

broadcast use group_views;

#[derive(Copy, Clone, Debug, PartialEq, Eq, Hash, Structural)]
pub enum Elimination {
    LifeZero,
    Poison,
    DrewFromEmptyLibrary,
    Conceded,
}

impl Elimination {
    pub open spec fn words(self) -> Seq<char> {
        match self {
            Elimination::LifeZero => "was reduced to 0 life"@,
            Elimination::Poison => "took ten poison counters"@,
            Elimination::DrewFromEmptyLibrary => "drew from an empty library"@,
            Elimination::Conceded => "conceded"@,
        }
    }

    /// "conceded", "was reduced to 0 life", ...
    pub fn phrase(&self) -> (r: &'static str)
        ensures
            r@ == self.words(),
    {
        match self {
            Elimination::LifeZero => "was reduced to 0 life",
            Elimination::Poison => "took ten poison counters",
            Elimination::DrewFromEmptyLibrary => "drew from an empty library",
            Elimination::Conceded => "conceded",
        }
    }
}

#[derive(Copy, Clone, Debug, PartialEq, Eq, Hash, Structural)]
pub enum Outcome {
    Winner(Seat),
    Draw,
}

#[allow(inconsistent_fields)]
#[derive(Debug, PartialEq, Eq)]
pub enum EventBase<D> {
    GameStarted { starting_player: Seat, seats: u8 },
    Drew { seat: Seat, cards: D },
    Shuffled { seat: Seat },
    MulliganTaken { seat: Seat, to: u8 },
    HandKept { seat: Seat, size: u8 },
    Bottomed { seat: Seat, count: u8 },
    TurnStarted { turn: u32, active: Seat },
    PhaseChanged { phase: Phase },
    PriorityPassed { seat: Seat },
    LandPlayed { seat: Seat, object: ObjectId },
    Cast { seat: Seat, object: ObjectId, targets: Vec<Target> },
    Activated { seat: Seat, object: ObjectId, ability: u8, targets: Vec<Target> },
    Triggered { source: ObjectId, description: String, targets: Vec<Target> },
    Countered { object: ObjectId },
    Resolved { object: ObjectId },
    Sacrificed { seat: Seat, object: ObjectId },
    TokenCreated { seat: Seat, object: ObjectId },
    CountersAdded { object: ObjectId, counter: String, count: i32 },
    Attached { object: ObjectId, to: ObjectId },
    Tapped { object: ObjectId },
    Untapped { object: ObjectId },
    ManaAdded { seat: Seat, mana: Mana, amount: u8 },
    Attacked { seat: Seat, attackers: Vec<(ObjectId, AttackTarget)> },
    Blocked { seat: Seat, blocks: Vec<(ObjectId, ObjectId)> },
    DamageAssigned { attacker: ObjectId, assignments: Vec<(DamageTarget, i32)> },
    Damage { source: ObjectId, to: DamageTarget, amount: i32, combat: bool },
    LifeChanged { seat: Seat, from: i32, to: i32 },
    /// Library→hand is never a `ZoneChange`; it is `Drew`. Hand→library is
    /// `MulliganTaken` / `Bottomed`. Every other transition is public.
    ZoneChange { object: ObjectId, from: Zone, to: Zone },
    Discarded { seat: Seat, objects: Vec<ObjectId> },
    Eliminated { seat: Seat, reason: Elimination },
    GameOver { outcome: Outcome },
    /// Table talk. The engine never produces this; whoever hosts the table
    /// injects it into the stream so the type lives with the others.
    Chat { from: Seat, to: Option<Seat>, text: String },
}

/// An event as a mathematical value.
#[allow(inconsistent_fields)]
#[verifier::ext_equal]
pub ghost enum EventModel<D> {
    GameStarted { starting_player: Seat, seats: u8 },
    Drew { seat: Seat, cards: D },
    Shuffled { seat: Seat },
    MulliganTaken { seat: Seat, to: u8 },
    HandKept { seat: Seat, size: u8 },
    Bottomed { seat: Seat, count: u8 },
    TurnStarted { turn: u32, active: Seat },
    PhaseChanged { phase: Phase },
    PriorityPassed { seat: Seat },
    LandPlayed { seat: Seat, object: ObjectId },
    Cast { seat: Seat, object: ObjectId, targets: Seq<Target> },
    Activated { seat: Seat, object: ObjectId, ability: u8, targets: Seq<Target> },
    Triggered { source: ObjectId, description: Seq<char>, targets: Seq<Target> },
    Countered { object: ObjectId },
    Resolved { object: ObjectId },
    Sacrificed { seat: Seat, object: ObjectId },
    TokenCreated { seat: Seat, object: ObjectId },
    CountersAdded { object: ObjectId, counter: Seq<char>, count: i32 },
    Attached { object: ObjectId, to: ObjectId },
    Tapped { object: ObjectId },
    Untapped { object: ObjectId },
    ManaAdded { seat: Seat, mana: Mana, amount: u8 },
    Attacked { seat: Seat, attackers: Seq<(ObjectId, AttackTarget)> },
    Blocked { seat: Seat, blocks: Seq<(ObjectId, ObjectId)> },
    DamageAssigned { attacker: ObjectId, assignments: Seq<(DamageTarget, i32)> },
    Damage { source: ObjectId, to: DamageTarget, amount: i32, combat: bool },
    LifeChanged { seat: Seat, from: i32, to: i32 },
    ZoneChange { object: ObjectId, from: Zone, to: Zone },
    Discarded { seat: Seat, objects: Seq<ObjectId> },
    Eliminated { seat: Seat, reason: Elimination },
    GameOver { outcome: Outcome },
    Chat { from: Seat, to: Option<Seat>, text: Seq<char> },
}

impl<D: View> View for EventBase<D> {
    type V = EventModel<D::V>;

    open spec fn view(&self) -> EventModel<D::V> {
        match self {
            EventBase::GameStarted { starting_player, seats } => EventModel::GameStarted {
                starting_player: *starting_player,
                seats: *seats,
            },
            EventBase::Drew { seat, cards } => EventModel::Drew { seat: *seat, cards: cards@ },
            EventBase::Shuffled { seat } => EventModel::Shuffled { seat: *seat },
            EventBase::MulliganTaken { seat, to } => EventModel::MulliganTaken {
                seat: *seat,
                to: *to,
            },
            EventBase::HandKept { seat, size } => EventModel::HandKept { seat: *seat, size: *size },
            EventBase::Bottomed { seat, count } => EventModel::Bottomed {
                seat: *seat,
                count: *count,
            },
            EventBase::TurnStarted { turn, active } => EventModel::TurnStarted {
                turn: *turn,
                active: *active,
            },
            EventBase::PhaseChanged { phase } => EventModel::PhaseChanged { phase: *phase },
            EventBase::PriorityPassed { seat } => EventModel::PriorityPassed { seat: *seat },
            EventBase::LandPlayed { seat, object } => EventModel::LandPlayed {
                seat: *seat,
                object: *object,
            },
            EventBase::Cast { seat, object, targets } => EventModel::Cast {
                seat: *seat,
                object: *object,
                targets: targets@,
            },
            EventBase::Activated { seat, object, ability, targets } => EventModel::Activated {
                seat: *seat,
                object: *object,
                ability: *ability,
                targets: targets@,
            },
            EventBase::Triggered { source, description, targets } => EventModel::Triggered {
                source: *source,
                description: description@,
                targets: targets@,
            },
            EventBase::Countered { object } => EventModel::Countered { object: *object },
            EventBase::Resolved { object } => EventModel::Resolved { object: *object },
            EventBase::Sacrificed { seat, object } => EventModel::Sacrificed {
                seat: *seat,
                object: *object,
            },
            EventBase::TokenCreated { seat, object } => EventModel::TokenCreated {
                seat: *seat,
                object: *object,
            },
            EventBase::CountersAdded { object, counter, count } => EventModel::CountersAdded {
                object: *object,
                counter: counter@,
                count: *count,
            },
            EventBase::Attached { object, to } => EventModel::Attached {
                object: *object,
                to: *to,
            },
            EventBase::Tapped { object } => EventModel::Tapped { object: *object },
            EventBase::Untapped { object } => EventModel::Untapped { object: *object },
            EventBase::ManaAdded { seat, mana, amount } => EventModel::ManaAdded {
                seat: *seat,
                mana: *mana,
                amount: *amount,
            },
            EventBase::Attacked { seat, attackers } => EventModel::Attacked {
                seat: *seat,
                attackers: attackers@,
            },
            EventBase::Blocked { seat, blocks } => EventModel::Blocked {
                seat: *seat,
                blocks: blocks@,
            },
            EventBase::DamageAssigned { attacker, assignments } => EventModel::DamageAssigned {
                attacker: *attacker,
                assignments: assignments@,
            },
            EventBase::Damage { source, to, amount, combat } => EventModel::Damage {
                source: *source,
                to: *to,
                amount: *amount,
                combat: *combat,
            },
            EventBase::LifeChanged { seat, from, to } => EventModel::LifeChanged {
                seat: *seat,
                from: *from,
                to: *to,
            },
            EventBase::ZoneChange { object, from, to } => EventModel::ZoneChange {
                object: *object,
                from: *from,
                to: *to,
            },
            EventBase::Discarded { seat, objects } => EventModel::Discarded {
                seat: *seat,
                objects: objects@,
            },
            EventBase::Eliminated { seat, reason } => EventModel::Eliminated {
                seat: *seat,
                reason: *reason,
            },
            EventBase::GameOver { outcome } => EventModel::GameOver { outcome: *outcome },
            EventBase::Chat { from, to, text } => EventModel::Chat {
                from: *from,
                to: *to,
                text: text@,
            },
        }
    }
}

/// The full event, as the engine emits it. Holds hidden information.
pub type Event = EventBase<Vec<ObjectId>>;

/// The full event as a mathematical value.
pub type EventFacts = EventModel<Seq<ObjectId>>;

/// What one seat (or a spectator) is allowed to know about a draw.
#[derive(Debug, PartialEq, Eq)]
pub enum DrawnCards {
    Yours(Vec<ObjectId>),
    Hidden { count: u8 },
}

/// What one seat may know about a draw, as a mathematical value.
#[verifier::ext_equal]
pub ghost enum DrawnModel {
    Yours(Seq<ObjectId>),
    Hidden { count: u8 },
}

impl View for DrawnCards {
    type V = DrawnModel;

    open spec fn view(&self) -> DrawnModel {
        match self {
            DrawnCards::Yours(v) => DrawnModel::Yours(v@),
            DrawnCards::Hidden { count } => DrawnModel::Hidden { count: *count },
        }
    }
}

/// The event as seen from one seat.
pub type EventView = EventBase<DrawnCards>;

/// The event as seen from one seat, as a mathematical value.
pub type SeenFacts = EventModel<DrawnModel>;

/// What `viewer` sees of a draw by `seat`.
pub open spec fn drawn_seen(seat: Seat, cards: Seq<ObjectId>, viewer: Option<Seat>) -> DrawnModel {
    if viewer == Some(seat) {
        DrawnModel::Yours(cards)
    } else {
        DrawnModel::Hidden { count: sat_u8(cards.len() as int) }
    }
}

/// What `viewer` sees of an event: a draw by someone else without its cards,
/// someone else's private chat not at all, everything else as it is.
pub open spec fn seen(e: EventFacts, viewer: Option<Seat>) -> Option<SeenFacts> {
    match e {
        EventModel::Drew { seat, cards } => Some(
            EventModel::Drew { seat, cards: drawn_seen(seat, cards, viewer) },
        ),
        EventModel::Chat { from, to, text } => if to matches Some(t) && viewer != Some(from)
            && viewer != Some(t) {
            None
        } else {
            Some(EventModel::Chat { from, to, text })
        },
        EventModel::GameStarted { starting_player, seats } => Some(
            EventModel::GameStarted { starting_player, seats },
        ),
        EventModel::Shuffled { seat } => Some(EventModel::Shuffled { seat }),
        EventModel::MulliganTaken { seat, to } => Some(EventModel::MulliganTaken { seat, to }),
        EventModel::HandKept { seat, size } => Some(EventModel::HandKept { seat, size }),
        EventModel::Bottomed { seat, count } => Some(EventModel::Bottomed { seat, count }),
        EventModel::TurnStarted { turn, active } => Some(EventModel::TurnStarted { turn, active }),
        EventModel::PhaseChanged { phase } => Some(EventModel::PhaseChanged { phase }),
        EventModel::PriorityPassed { seat } => Some(EventModel::PriorityPassed { seat }),
        EventModel::LandPlayed { seat, object } => Some(EventModel::LandPlayed { seat, object }),
        EventModel::Cast { seat, object, targets } => Some(
            EventModel::Cast { seat, object, targets },
        ),
        EventModel::Activated { seat, object, ability, targets } => Some(
            EventModel::Activated { seat, object, ability, targets },
        ),
        EventModel::Triggered { source, description, targets } => Some(
            EventModel::Triggered { source, description, targets },
        ),
        EventModel::Countered { object } => Some(EventModel::Countered { object }),
        EventModel::Resolved { object } => Some(EventModel::Resolved { object }),
        EventModel::Sacrificed { seat, object } => Some(EventModel::Sacrificed { seat, object }),
        EventModel::TokenCreated { seat, object } => Some(
            EventModel::TokenCreated { seat, object },
        ),
        EventModel::CountersAdded { object, counter, count } => Some(
            EventModel::CountersAdded { object, counter, count },
        ),
        EventModel::Attached { object, to } => Some(EventModel::Attached { object, to }),
        EventModel::Tapped { object } => Some(EventModel::Tapped { object }),
        EventModel::Untapped { object } => Some(EventModel::Untapped { object }),
        EventModel::ManaAdded { seat, mana, amount } => Some(
            EventModel::ManaAdded { seat, mana, amount },
        ),
        EventModel::Attacked { seat, attackers } => Some(EventModel::Attacked { seat, attackers }),
        EventModel::Blocked { seat, blocks } => Some(EventModel::Blocked { seat, blocks }),
        EventModel::DamageAssigned { attacker, assignments } => Some(
            EventModel::DamageAssigned { attacker, assignments },
        ),
        EventModel::Damage { source, to, amount, combat } => Some(
            EventModel::Damage { source, to, amount, combat },
        ),
        EventModel::LifeChanged { seat, from, to } => Some(
            EventModel::LifeChanged { seat, from, to },
        ),
        EventModel::ZoneChange { object, from, to } => Some(
            EventModel::ZoneChange { object, from, to },
        ),
        EventModel::Discarded { seat, objects } => Some(EventModel::Discarded { seat, objects }),
        EventModel::Eliminated { seat, reason } => Some(EventModel::Eliminated { seat, reason }),
        EventModel::GameOver { outcome } => Some(EventModel::GameOver { outcome }),
    }
}

/// A viewer other than the one who drew cannot tell two draws of as many
/// cards apart: the event it receives is the same.
pub proof fn law_draws_are_hidden(
    seat: Seat,
    a: Seq<ObjectId>,
    b: Seq<ObjectId>,
    viewer: Option<Seat>,
)
    requires
        viewer != Some(seat),
        a.len() == b.len(),
    ensures
        seen(EventModel::Drew { seat, cards: a }, viewer) == seen(
            EventModel::Drew { seat, cards: b },
            viewer,
        ),
{
}

/// Every viewer receives every event but other people's private chat.
pub proof fn law_only_private_chat_is_withheld(e: EventFacts, viewer: Option<Seat>)
    ensures
        seen(e, viewer) is None <==> (e matches EventModel::Chat { from, to: Some(t), .. } && viewer
            != Some(from) && viewer != Some(t)),
{
}

impl EventBase<Vec<ObjectId>> {
    /// The event as a mathematical value.
    pub open spec fn facts(&self) -> EventFacts {
        View::view(self)
    }

    /// Filter this event for `viewer` (`None` = spectator). Returns `None` when
    /// the viewer should not receive the event at all (private chat).
    pub fn view(&self, viewer: Option<Seat>) -> (r: Option<EventView>)
        ensures
            match r {
                Some(e) => seen(self.facts(), viewer) == Some(e@),
                None => seen(self.facts(), viewer) is None,
            },
    {
        Some(
            match self {
                EventBase::Drew { seat, cards } => EventBase::Drew {
                    seat: *seat,
                    cards: if viewer == Some(*seat) {
                        DrawnCards::Yours(copied(cards))
                    } else {
                        DrawnCards::Hidden { count: clamp_len_u8(cards.len()) }
                    },
                },
                EventBase::Chat { from, to, text } => {
                    if let Some(t) = to {
                        if viewer != Some(*from) && viewer != Some(*t) {
                            return None;
                        }
                    }
                    EventBase::Chat { from: *from, to: *to, text: text.clone() }
                },
                EventBase::GameStarted { starting_player, seats } => EventBase::GameStarted {
                    starting_player: *starting_player,
                    seats: *seats,
                },
                EventBase::Shuffled { seat } => EventBase::Shuffled { seat: *seat },
                EventBase::MulliganTaken { seat, to } => EventBase::MulliganTaken {
                    seat: *seat,
                    to: *to,
                },
                EventBase::HandKept { seat, size } => EventBase::HandKept {
                    seat: *seat,
                    size: *size,
                },
                EventBase::Bottomed { seat, count } => EventBase::Bottomed {
                    seat: *seat,
                    count: *count,
                },
                EventBase::TurnStarted { turn, active } => EventBase::TurnStarted {
                    turn: *turn,
                    active: *active,
                },
                EventBase::PhaseChanged { phase } => EventBase::PhaseChanged { phase: *phase },
                EventBase::PriorityPassed { seat } => EventBase::PriorityPassed { seat: *seat },
                EventBase::LandPlayed { seat, object } => EventBase::LandPlayed {
                    seat: *seat,
                    object: *object,
                },
                EventBase::Cast { seat, object, targets } => EventBase::Cast {
                    seat: *seat,
                    object: *object,
                    targets: copied(targets),
                },
                EventBase::Activated { seat, object, ability, targets } => EventBase::Activated {
                    seat: *seat,
                    object: *object,
                    ability: *ability,
                    targets: copied(targets),
                },
                EventBase::Triggered { source, description, targets } => EventBase::Triggered {
                    source: *source,
                    description: description.clone(),
                    targets: copied(targets),
                },
                EventBase::Countered { object } => EventBase::Countered { object: *object },
                EventBase::Resolved { object } => EventBase::Resolved { object: *object },
                EventBase::Sacrificed { seat, object } => EventBase::Sacrificed {
                    seat: *seat,
                    object: *object,
                },
                EventBase::TokenCreated { seat, object } => EventBase::TokenCreated {
                    seat: *seat,
                    object: *object,
                },
                EventBase::CountersAdded { object, counter, count } => EventBase::CountersAdded {
                    object: *object,
                    counter: counter.clone(),
                    count: *count,
                },
                EventBase::Attached { object, to } => EventBase::Attached {
                    object: *object,
                    to: *to,
                },
                EventBase::Tapped { object } => EventBase::Tapped { object: *object },
                EventBase::Untapped { object } => EventBase::Untapped { object: *object },
                EventBase::ManaAdded { seat, mana, amount } => EventBase::ManaAdded {
                    seat: *seat,
                    mana: *mana,
                    amount: *amount,
                },
                EventBase::Attacked { seat, attackers } => EventBase::Attacked {
                    seat: *seat,
                    attackers: copied(attackers),
                },
                EventBase::Blocked { seat, blocks } => EventBase::Blocked {
                    seat: *seat,
                    blocks: copied(blocks),
                },
                EventBase::DamageAssigned { attacker, assignments } => EventBase::DamageAssigned {
                    attacker: *attacker,
                    assignments: copied(assignments),
                },
                EventBase::Damage { source, to, amount, combat } => EventBase::Damage {
                    source: *source,
                    to: *to,
                    amount: *amount,
                    combat: *combat,
                },
                EventBase::LifeChanged { seat, from, to } => EventBase::LifeChanged {
                    seat: *seat,
                    from: *from,
                    to: *to,
                },
                EventBase::ZoneChange { object, from, to } => EventBase::ZoneChange {
                    object: *object,
                    from: *from,
                    to: *to,
                },
                EventBase::Discarded { seat, objects } => EventBase::Discarded {
                    seat: *seat,
                    objects: copied(objects),
                },
                EventBase::Eliminated { seat, reason } => EventBase::Eliminated {
                    seat: *seat,
                    reason: *reason,
                },
                EventBase::GameOver { outcome } => EventBase::GameOver { outcome: *outcome },
            },
        )
    }
}

impl Clone for EventBase<Vec<ObjectId>> {
    fn clone(&self) -> (r: EventBase<Vec<ObjectId>>)
        ensures
            r.facts() == self.facts(),
    {
        match self {
            EventBase::Drew { seat, cards } => EventBase::Drew {
                seat: *seat,
                cards: copied(cards),
            },
            EventBase::Chat { from, to, text } => EventBase::Chat {
                from: *from,
                to: *to,
                text: text.clone(),
            },
            EventBase::GameStarted { starting_player, seats } => EventBase::GameStarted {
                starting_player: *starting_player,
                seats: *seats,
            },
            EventBase::Shuffled { seat } => EventBase::Shuffled { seat: *seat },
            EventBase::MulliganTaken { seat, to } => EventBase::MulliganTaken {
                seat: *seat,
                to: *to,
            },
            EventBase::HandKept { seat, size } => EventBase::HandKept { seat: *seat, size: *size },
            EventBase::Bottomed { seat, count } => EventBase::Bottomed {
                seat: *seat,
                count: *count,
            },
            EventBase::TurnStarted { turn, active } => EventBase::TurnStarted {
                turn: *turn,
                active: *active,
            },
            EventBase::PhaseChanged { phase } => EventBase::PhaseChanged { phase: *phase },
            EventBase::PriorityPassed { seat } => EventBase::PriorityPassed { seat: *seat },
            EventBase::LandPlayed { seat, object } => EventBase::LandPlayed {
                seat: *seat,
                object: *object,
            },
            EventBase::Cast { seat, object, targets } => EventBase::Cast {
                seat: *seat,
                object: *object,
                targets: copied(targets),
            },
            EventBase::Activated { seat, object, ability, targets } => EventBase::Activated {
                seat: *seat,
                object: *object,
                ability: *ability,
                targets: copied(targets),
            },
            EventBase::Triggered { source, description, targets } => EventBase::Triggered {
                source: *source,
                description: description.clone(),
                targets: copied(targets),
            },
            EventBase::Countered { object } => EventBase::Countered { object: *object },
            EventBase::Resolved { object } => EventBase::Resolved { object: *object },
            EventBase::Sacrificed { seat, object } => EventBase::Sacrificed {
                seat: *seat,
                object: *object,
            },
            EventBase::TokenCreated { seat, object } => EventBase::TokenCreated {
                seat: *seat,
                object: *object,
            },
            EventBase::CountersAdded { object, counter, count } => EventBase::CountersAdded {
                object: *object,
                counter: counter.clone(),
                count: *count,
            },
            EventBase::Attached { object, to } => EventBase::Attached { object: *object, to: *to },
            EventBase::Tapped { object } => EventBase::Tapped { object: *object },
            EventBase::Untapped { object } => EventBase::Untapped { object: *object },
            EventBase::ManaAdded { seat, mana, amount } => EventBase::ManaAdded {
                seat: *seat,
                mana: *mana,
                amount: *amount,
            },
            EventBase::Attacked { seat, attackers } => EventBase::Attacked {
                seat: *seat,
                attackers: copied(attackers),
            },
            EventBase::Blocked { seat, blocks } => EventBase::Blocked {
                seat: *seat,
                blocks: copied(blocks),
            },
            EventBase::DamageAssigned { attacker, assignments } => EventBase::DamageAssigned {
                attacker: *attacker,
                assignments: copied(assignments),
            },
            EventBase::Damage { source, to, amount, combat } => EventBase::Damage {
                source: *source,
                to: *to,
                amount: *amount,
                combat: *combat,
            },
            EventBase::LifeChanged { seat, from, to } => EventBase::LifeChanged {
                seat: *seat,
                from: *from,
                to: *to,
            },
            EventBase::ZoneChange { object, from, to } => EventBase::ZoneChange {
                object: *object,
                from: *from,
                to: *to,
            },
            EventBase::Discarded { seat, objects } => EventBase::Discarded {
                seat: *seat,
                objects: copied(objects),
            },
            EventBase::Eliminated { seat, reason } => EventBase::Eliminated {
                seat: *seat,
                reason: *reason,
            },
            EventBase::GameOver { outcome } => EventBase::GameOver { outcome: *outcome },
        }
    }
}

/// The events from index `from` on.
pub fn copied_events(v: &Vec<Event>, from: usize) -> (r: Vec<Event>)
    requires
        from <= v@.len(),
    ensures
        views(r@) == views(v@).subrange(from as int, v@.len() as int),
{
    let mut r: Vec<Event> = Vec::new();
    let mut i: usize = from;
    while i < v.len()
        invariant
            from <= i <= v.len(),
            views(r@) == views(v@).subrange(from as int, i as int),
        decreases v.len() - i,
    {
        r.push(v[i].clone());
        i = i + 1;
        assert(views(v@).subrange(from as int, i as int) =~= views(v@).subrange(
            from as int,
            i - 1,
        ).push(views(v@)[i - 1]));
    }
    r
}

} // verus!
