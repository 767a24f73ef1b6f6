//! London mulligan as two actions: decided in turn order from the starting
//! player, one seat at a time.
use crate::event::{EventBase, EventModel};
use crate::format::MulliganRule;
use crate::seqs::{drop_value, find, group_views, position, without};
use crate::state::{Game, GameModel, ObjectModel, PendingChoice, PendingModel, PlayerModel};
use crate::types::{clamp_len_u8, sat_u8, ObjectId, Seat, Zone};
use vstd::prelude::*;

verus! {

broadcast use group_views;

impl GameModel {
    /// How many cards a kept hand puts on the bottom: one per mulligan taken,
    /// the first one free where the format says so, and never more than there are.
    pub open spec fn bottom_count(self, seat: Seat) -> u8 {
        let taken = if self.has_seat(seat) {
            self.player(seat).mulligans
        } else {
            0
        };
        let free = self.format.mulligan->free_first;
        let owed = if free && taken > 0 {
            (taken - 1) as u8
        } else {
            taken
        };
        let held = sat_u8(self.hand(seat).len() as int);
        if owed < held {
            owed
        } else {
            held
        }
    }

    /// The first seat from index `i` of the seating that is not out.
    pub open spec fn next_to_mulligan(self, i: nat) -> Option<Seat>
        decreases self.seating.len() - i,
    {
        if i >= self.seating.len() {
            None
        } else if self.out(self.seating[i as int]) {
            self.next_to_mulligan(i + 1)
        } else {
            Some(self.seating[i as int])
        }
    }

    /// Hand the mulligan decision to the next seat in turn order, or start the game.
    pub open spec fn advance_mulligan(self, seat: Seat) -> GameModel {
        let pos = match find(self.seating, seat) {
            Some(p) => p,
            None => 0,
        };
        GameModel {
            pending: match self.next_to_mulligan(pos + 1) {
                Some(s) => Some(PendingModel::Mulligan { seat: s }),
                None => None,
            },
            ..self
        }
    }

    pub open spec fn keep_hand(self, seat: Seat) -> GameModel {
        let g = self.emit(
            EventModel::HandKept { seat, size: sat_u8(self.hand(seat).len() as int) },
        );
        let count = self.bottom_count(seat);
        if count > 0 {
            GameModel { pending: Some(PendingModel::BottomCards { seat, count }), ..g }
        } else {
            g.advance_mulligan(seat)
        }
    }

    /// The first `n` cards are in the library again, as far as they say themselves.
    pub open spec fn into_library(self, ids: Seq<ObjectId>, n: nat) -> GameModel
        decreases n,
    {
        if n == 0 || n > ids.len() {
            self
        } else {
            let g = self.into_library(ids, (n - 1) as nat);
            g.with_obj(ids[n - 1], ObjectModel { zone: Zone::Library, ..g.obj(ids[n - 1]) })
        }
    }

    /// Shuffle the hand back and draw a new one. The same seat decides again.
    pub open spec fn take_mulligan(self, seat: Seat) -> GameModel {
        let p = self.player(seat);
        if !self.has_seat(seat) {
            self
        } else {
            let taken = sat_u8(p.mulligans + 1);
            let g = self.into_library(p.hand, p.hand.len()).with_player(
                seat,
                PlayerModel {
                    library: p.library + p.hand,
                    hand: Seq::empty(),
                    mulligans: taken,
                    ..p
                },
            ).shuffle_library(seat).draw(seat, self.format.starting_hand as nat);
            g.emit(
                EventModel::MulliganTaken {
                    seat,
                    to: sat_u8(self.format.starting_hand - taken),
                },
            )
        }
    }

    #[verifier::opaque]
    pub open spec fn mulligan(self, seat: Seat, keep: bool) -> GameModel {
        if keep {
            self.keep_hand(seat)
        } else {
            self.take_mulligan(seat)
        }
    }

    /// One card from the hand to the bottom of the library.
    pub open spec fn bottom_one(self, seat: Seat, id: ObjectId) -> GameModel {
        let g = self.with_obj(id, ObjectModel { zone: Zone::Library, ..self.obj(id) });
        let p = g.player(seat);
        g.with_player(
            seat,
            PlayerModel { hand: without(p.hand, id), library: seq![id] + p.library, ..p },
        )
    }

    pub open spec fn bottom_each(self, seat: Seat, ids: Seq<ObjectId>, n: nat) -> GameModel
        decreases n,
    {
        if n == 0 || n > ids.len() {
            self
        } else {
            self.bottom_each(seat, ids, (n - 1) as nat).bottom_one(seat, ids[n - 1])
        }
    }

    #[verifier::opaque]
    pub open spec fn bottom_cards(self, seat: Seat, ids: Seq<ObjectId>) -> GameModel {
        self.bottom_each(seat, ids, ids.len()).emit(
            EventModel::Bottomed { seat, count: sat_u8(ids.len() as int) },
        ).advance_mulligan(seat)
    }
}

impl Game {
    fn bottom_count(&self, seat: Seat) -> (n: u8)
        ensures
            n == self.model().bottom_count(seat),
    {
        let (taken, held) = match self.find_player(seat) {
            Some(p) => (p.mulligans, clamp_len_u8(p.hand.len())),
            None => (0, 0),
        };
        let MulliganRule::London { free_first } = self.format.mulligan;
        let owed: u8 = if free_first && taken > 0 {
            taken - 1
        } else {
            taken
        };
        if owed < held {
            owed
        } else {
            held
        }
    }

    /// Hand the mulligan decision to the next seat in turn order, or start the game.
    pub(crate) fn advance_mulligan(&mut self, seat: Seat)
        ensures
            final(self).model() == old(self).model().advance_mulligan(seat),
    {
        let ghost g = self.model();
        let pos: usize = match position(&self.seating, seat) {
            Some(p) => p,
            None => 0,
        };
        let mut next: Option<Seat> = None;
        let mut i: usize = if pos < self.seating.len() {
            pos + 1
        } else {
            self.seating.len()
        };
        assert(g.next_to_mulligan((pos + 1) as nat) == g.next_to_mulligan(i as nat));
        while i < self.seating.len()
            invariant_except_break
                i <= self.seating.len(),
                g == self.model(),
                next is None,
                g.next_to_mulligan((pos + 1) as nat) == g.next_to_mulligan(i as nat),
            ensures
                g == self.model(),
                next == g.next_to_mulligan((pos + 1) as nat),
            decreases self.seating.len() - i,
        {
            if !self.is_eliminated(self.seating[i]) {
                next = Some(self.seating[i]);
                break;
            }
            i = i + 1;
        }
        self.pending = match next {
            Some(s) => Some(PendingChoice::Mulligan { seat: s }),
            None => None,
        };
    }

    fn into_library(&mut self, ids: &Vec<ObjectId>)
        ensures
            final(self).model() == old(self).model().into_library(ids@, ids@.len()),
    {
        let mut i: usize = 0;
        while i < ids.len()
            invariant
                i <= ids.len(),
                self.model() == old(self).model().into_library(ids@, i as nat),
            decreases ids.len() - i,
        {
            match self.obj_mut(ids[i]) {
                Some(o) => {
                    o.zone = Zone::Library;
                },
                None => {},
            }
            i = i + 1;
        }
    }

    pub(crate) fn mulligan(&mut self, seat: Seat, keep: bool)
        ensures
            final(self).model() == old(self).model().mulligan(seat, keep),
            keep || old(self).model().hand_back(seat).shuffles_fairly(seat),
    {
        reveal(GameModel::mulligan);
        if keep {
            let size: u8 = clamp_len_u8(self.hand_of(seat).len());
            let count: u8 = self.bottom_count(seat);
            self.emit(EventBase::HandKept { seat, size });
            if count > 0 {
                self.pending = Some(PendingChoice::BottomCards { seat, count });
            } else {
                self.advance_mulligan(seat);
            }
        } else {
            self.take_mulligan(seat);
        }
    }

    fn take_mulligan(&mut self, seat: Seat)
        ensures
            final(self).model() == old(self).model().take_mulligan(seat),
            old(self).model().hand_back(seat).shuffles_fairly(seat),
    {
        let ghost g = self.model();
        let hand = self.hand_of(seat);
        let start: u8 = self.format.starting_hand;
        if self.find_player(seat).is_none() {
            proof {
                let held = g.player(seat).hand;
                g.lemma_into_library_keeps_players(held, held.len());
            }
            return ;
        }
        self.into_library(&hand);
        proof {
            g.lemma_into_library_keeps_players(hand@, hand@.len());
        }
        let taken: u8 = match self.player_mut(seat) {
            Some(p) => {
                let old_hand = crate::seqs::copied(&p.hand);
                crate::seqs::extend(&mut p.library, &old_hand);
                p.hand = Vec::new();
                p.mulligans = if p.mulligans < 255 {
                    p.mulligans + 1
                } else {
                    255
                };
                p.mulligans
            },
            None => 0,
        };
        assert(self.model() == g.hand_back(seat));
        self.shuffle_library(seat);
        self.draw(seat, start as usize);
        let to: u8 = if start > taken {
            start - taken
        } else {
            0
        };
        self.emit(EventBase::MulliganTaken { seat, to });
    }

    fn bottom_one(&mut self, seat: Seat, id: ObjectId)
        ensures
            final(self).model() == old(self).model().bottom_one(seat, id),
    {
        match self.obj_mut(id) {
            Some(o) => {
                o.zone = Zone::Library;
            },
            None => {},
        }
        match self.player_mut(seat) {
            Some(p) => {
                p.hand = drop_value(&p.hand, id);
                let ghost before = p.library@;
                p.library.insert(0, id);
                assert(p.library@ =~= seq![id] + before);
            },
            None => {},
        }
    }

    pub(crate) fn bottom_cards(&mut self, seat: Seat, objects: &Vec<ObjectId>)
        ensures
            final(self).model() == old(self).model().bottom_cards(seat, objects@),
    {
        reveal(GameModel::bottom_cards);
        let mut i: usize = 0;
        while i < objects.len()
            invariant
                i <= objects.len(),
                self.model() == old(self).model().bottom_each(seat, objects@, i as nat),
            decreases objects.len() - i,
        {
            self.bottom_one(seat, objects[i]);
            i = i + 1;
        }
        self.emit(EventBase::Bottomed { seat, count: clamp_len_u8(objects.len()) });
        self.advance_mulligan(seat);
    }
}

impl GameModel {
    pub proof fn lemma_into_library_keeps_players(self, ids: Seq<ObjectId>, n: nat)
        ensures
            self.into_library(ids, n) == (GameModel {
                objects: self.into_library(ids, n).objects,
                ..self
            }),
        decreases n,
    {
        if n > 0 && n <= ids.len() {
            self.lemma_into_library_keeps_players(ids, (n - 1) as nat);
        }
    }
}

} // verus!
