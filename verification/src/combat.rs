//! Combat: attackers, sequential multiplayer blockers, evasion keywords, and
//! damage assignment, with a first-strike round when needed.
use crate::action::{AttackTarget, DamageTarget};
use crate::event::{EventBase, EventModel};
use crate::seqs::{copied, group_views, in_list, keep_only, only, sort, sorted};
use crate::state::{Assigned, AssignedModel, CombatRound, Game, GameModel, ObjectModel, PendingChoice, PendingModel};
use crate::types::{add_i32, id_words, sat_i32, sub_i32, Keyword, ObjectId, Seat, Zone};
use crate::words::{cat3, cat5, int_text, signed};
use vstd::prelude::*;

verus! {

broadcast use group_views;

// ----- who may do what -----

impl GameModel {
    pub open spec fn can_attack(self, id: ObjectId) -> bool {
        self.creature(id) && !self.obj(id).tapped && (!self.obj(id).summoning_sick
            || self.has_keyword(id, Keyword::Haste)) && !self.has_keyword(id, Keyword::Defender)
    }

    pub open spec fn can_block_at_all(self, id: ObjectId) -> bool {
        self.creature(id) && !self.obj(id).tapped
    }

    /// Those of the first `n` ids that may attack (or block).
    pub open spec fn able(self, ids: Seq<ObjectId>, attack: bool, n: nat) -> Seq<ObjectId>
        decreases n,
    {
        if n == 0 || n > ids.len() {
            Seq::empty()
        } else {
            let rest = self.able(ids, attack, (n - 1) as nat);
            if if attack {
                self.can_attack(ids[n - 1])
            } else {
                self.can_block_at_all(ids[n - 1])
            } {
                rest.push(ids[n - 1])
            } else {
                rest
            }
        }
    }

    /// Creatures `seat` controls that could be declared as attackers.
    pub open spec fn attack_candidates(self, seat: Seat) -> Seq<ObjectId> {
        sort(self.able(self.battlefield(seat), true, self.battlefield(seat).len()))
    }

    /// Creatures `seat` controls that could block.
    pub open spec fn block_candidates(self, seat: Seat) -> Seq<ObjectId> {
        sort(self.able(self.battlefield(seat), false, self.battlefield(seat).len()))
    }

    /// Can `blocker` block `attacker` at all (flying and reach)?
    pub open spec fn can_block(self, blocker: ObjectId, attacker: ObjectId) -> bool {
        self.has_keyword(attacker, Keyword::Flying) ==> self.has_keyword(blocker, Keyword::Flying)
            || self.has_keyword(blocker, Keyword::Reach)
    }

    /// How many of the first `n` blocks name `attacker`.
    pub open spec fn blocks_on(
        blocks: Seq<(ObjectId, ObjectId)>,
        attacker: ObjectId,
        n: nat,
    ) -> nat
        decreases n,
    {
        if n == 0 || n > blocks.len() {
            0
        } else {
            GameModel::blocks_on(blocks, attacker, (n - 1) as nat) + if blocks[n - 1].1
                == attacker {
                1nat
            } else {
                0nat
            }
        }
    }

    /// Menace: an attacker can't be blocked by exactly one creature.
    pub open spec fn menace_ok(
        self,
        blocks: Seq<(ObjectId, ObjectId)>,
        attackers: Seq<ObjectId>,
    ) -> bool {
        forall|i: int|
            0 <= i < attackers.len() ==> !(self.has_keyword(
                #[trigger] attackers[i],
                Keyword::Menace,
            ) && GameModel::blocks_on(blocks, attackers[i], blocks.len()) == 1)
    }

    /// The object attacks `seat`, or a planeswalker `seat` controls.
    pub open spec fn attacks_seat(self, id: ObjectId, seat: Seat) -> bool {
        self.has_obj(id) && match self.obj(id).attacking {
            Some(AttackTarget::Player(s)) => s == seat,
            Some(AttackTarget::Planeswalker(pw)) => self.has_obj(pw) && self.obj(pw).controller
                == seat,
            None => false,
        }
    }

    pub open spec fn against_n(self, seat: Seat, ids: Seq<ObjectId>, n: nat) -> Seq<ObjectId>
        decreases n,
    {
        if n == 0 || n > ids.len() {
            Seq::empty()
        } else {
            let rest = self.against_n(seat, ids, (n - 1) as nat);
            if self.attacks_seat(ids[n - 1], seat) {
                rest.push(ids[n - 1])
            } else {
                rest
            }
        }
    }

    /// Attackers currently attacking `seat` (or a planeswalker they control).
    pub open spec fn attackers_against(self, seat: Seat) -> Seq<ObjectId> {
        self.against_n(seat, self.on_battlefield(), self.on_battlefield().len())
    }

    pub open spec fn attacking_n(self, ids: Seq<ObjectId>, n: nat) -> Seq<ObjectId>
        decreases n,
    {
        if n == 0 || n > ids.len() {
            Seq::empty()
        } else {
            let rest = self.attacking_n(ids, (n - 1) as nat);
            if self.has_obj(ids[n - 1]) && self.obj(ids[n - 1]).attacking is Some {
                rest.push(ids[n - 1])
            } else {
                rest
            }
        }
    }

    pub open spec fn attacking_creatures(self) -> Seq<ObjectId> {
        self.attacking_n(self.on_battlefield(), self.on_battlefield().len())
    }

    pub open spec fn any_attackers(self) -> bool {
        exists|i: int|
            0 <= i < self.objects.len() && (#[trigger] self.objects[i]).zone == Zone::Battlefield
                && self.objects[i].attacking is Some
    }

    pub open spec fn live_n(self, attacker: ObjectId, ids: Seq<ObjectId>, n: nat) -> Seq<ObjectId>
        decreases n,
    {
        if n == 0 || n > ids.len() {
            Seq::empty()
        } else {
            let rest = self.live_n(attacker, ids, (n - 1) as nat);
            if self.in_zone(ids[n - 1], Zone::Battlefield) && self.obj(
                ids[n - 1],
            ).blocking.contains(attacker) {
                rest.push(ids[n - 1])
            } else {
                rest
            }
        }
    }

    /// Blockers still on the battlefield and still blocking `attacker`, in
    /// declared order.
    pub open spec fn live_blockers(self, attacker: ObjectId) -> Seq<ObjectId> {
        if self.has_obj(attacker) {
            let ids = self.obj(attacker).blocked_by;
            self.live_n(attacker, ids, ids.len())
        } else {
            Seq::empty()
        }
    }

    pub open spec fn defending_n(self, seats: Seq<Seat>, n: nat) -> Seq<Seat>
        decreases n,
    {
        if n == 0 || n > seats.len() {
            Seq::empty()
        } else {
            let rest = self.defending_n(seats, (n - 1) as nat);
            if seats[n - 1] != self.active_player && self.attackers_against(seats[n - 1]).len()
                > 0 {
                rest.push(seats[n - 1])
            } else {
                rest
            }
        }
    }

    /// Seats that were attacked, in APNAP order (rule 802.3): they declare
    /// blockers one at a time.
    pub open spec fn defending_seats(self) -> Seq<Seat> {
        self.defending_n(self.apnap(), self.apnap().len())
    }

    /// The creature is in combat and strikes first.
    pub open spec fn strikes_first(self, id: ObjectId) -> bool {
        self.has_obj(id) && (self.obj(id).attacking is Some || self.obj(id).blocking.len() > 0) && (
        self.has_keyword(id, Keyword::FirstStrike) || self.has_keyword(id, Keyword::DoubleStrike))
    }

    /// Whether any creature in combat has first or double strike.
    pub open spec fn combat_has_first_strike(self) -> bool {
        exists|i: int|
            0 <= i < self.on_battlefield().len() && self.strikes_first(
                #[trigger] self.on_battlefield()[i],
            )
    }

    /// Does this creature deal combat damage in the given round?
    pub open spec fn deals_in_round(self, id: ObjectId, first: bool) -> bool {
        if first {
            self.has_keyword(id, Keyword::FirstStrike) || self.has_keyword(
                id,
                Keyword::DoubleStrike,
            )
        } else {
            self.has_keyword(id, Keyword::DoubleStrike) || !self.has_keyword(
                id,
                Keyword::FirstStrike,
            )
        }
    }

    /// Lethal damage to assign to a blocker: 1 from a deathtouch source, else
    /// remaining toughness, at least 1.
    pub open spec fn lethal_for(self, attacker: ObjectId, blocker: ObjectId) -> i32 {
        let marked = if self.has_obj(blocker) {
            self.obj(blocker).damage
        } else {
            0
        };
        let left = sat_i32(self.toughness(blocker) - marked);
        if self.has_keyword(attacker, Keyword::Deathtouch) || left < 1 {
            1
        } else {
            left
        }
    }

    /// The player an object attacks.
    pub open spec fn attacked_player(self, id: ObjectId) -> Option<Seat> {
        if self.has_obj(id) {
            match self.obj(id).attacking {
                Some(AttackTarget::Player(s)) => Some(s),
                _ => None,
            }
        } else {
            None
        }
    }

    /// Power for dealing damage: never below zero.
    pub open spec fn strength(self, id: ObjectId) -> i32 {
        if self.power(id) > 0 {
            self.power(id)
        } else {
            0
        }
    }

    /// What is left, and the split so far, once the first `n` blockers have
    /// been given lethal damage in order.
    pub open spec fn lethal_n(self, attacker: ObjectId, blockers: Seq<ObjectId>, n: nat) -> (
        i32,
        Seq<(DamageTarget, i32)>,
    )
        decreases n,
    {
        if n == 0 || n > blockers.len() {
            (self.strength(attacker), Seq::empty())
        } else {
            let (left, out) = self.lethal_n(attacker, blockers, (n - 1) as nat);
            if left == 0 {
                (left, out)
            } else {
                let lethal = self.lethal_for(attacker, blockers[n - 1]);
                let give = if left < lethal {
                    left
                } else {
                    lethal
                };
                ((left - give) as i32, out.push((DamageTarget::Object(blockers[n - 1]), give)))
            }
        }
    }

    /// "Lethal to each blocker in declared order, remainder to the last one"
    /// (or to the player, with trample).
    pub open spec fn lethal_in_order(self, attacker: ObjectId, blockers: Seq<ObjectId>) -> Seq<
        (DamageTarget, i32),
    > {
        let (left, out) = self.lethal_n(attacker, blockers, blockers.len());
        if left <= 0 {
            out
        } else if self.has_keyword(attacker, Keyword::Trample) && self.attacked_player(
            attacker,
        ) is Some {
            out.push((DamageTarget::Player(self.attacked_player(attacker)->0), left))
        } else if out.len() > 0 {
            out.update(out.len() - 1, (out.last().0, sat_i32(out.last().1 + left)))
        } else {
            out
        }
    }
}

// ----- dividing combat damage -----

/// The recipients of a division.
pub open spec fn recipients(xs: Seq<(DamageTarget, i32)>, n: nat) -> Seq<DamageTarget>
    decreases n,
{
    if n == 0 || n > xs.len() {
        Seq::empty()
    } else {
        recipients(xs, (n - 1) as nat).push(xs[n - 1].0)
    }
}

/// What the first entry for `to` from `i` on gives it.
pub open spec fn given_to(xs: Seq<(DamageTarget, i32)>, to: DamageTarget, i: nat) -> i32
    decreases xs.len() - i,
{
    if i >= xs.len() {
        0
    } else if xs[i as int].0 == to {
        xs[i as int].1
    } else {
        given_to(xs, to, i + 1)
    }
}

impl GameModel {
    /// Why entry `k` of a division is not allowed, if it is not.
    pub open spec fn entry_error(
        self,
        attacker: ObjectId,
        xs: Seq<(DamageTarget, i32)>,
        k: nat,
    ) -> Option<Seq<char>> {
        let (to, amount) = xs[k as int];
        if amount < 0 {
            Some("damage amounts can't be negative"@)
        } else if to matches DamageTarget::Object(o) && !self.live_blockers(attacker).contains(o) {
            Some(id_words(to->Object_0) + " is not blocking "@ + id_words(attacker))
        } else if to matches DamageTarget::Player(s) && !(self.has_keyword(
            attacker,
            Keyword::Trample,
        ) && self.attacked_player(attacker) == Some(s)) {
            Some("only a creature with trample can assign damage to the player it's attacking"@)
        } else if recipients(xs, k).contains(to) {
            Some("each recipient may appear only once"@)
        } else {
            None
        }
    }

    /// The totals over the first `n` entries (all, and to a player), or the
    /// first error among them.
    pub open spec fn division_n(
        self,
        attacker: ObjectId,
        xs: Seq<(DamageTarget, i32)>,
        n: nat,
    ) -> Result<(i32, i32), Seq<char>>
        decreases n,
    {
        if n == 0 || n > xs.len() {
            Ok((0, 0))
        } else {
            match self.division_n(attacker, xs, (n - 1) as nat) {
                Err(e) => Err(e),
                Ok((sum, to_player)) => match self.entry_error(attacker, xs, (n - 1) as nat) {
                    Some(e) => Err(e),
                    None => Ok(
                        (
                            sat_i32(sum + xs[n - 1].1),
                            if xs[n - 1].0 is Player {
                                sat_i32(to_player + xs[n - 1].1)
                            } else {
                                to_player
                            },
                        ),
                    ),
                },
            }
        }
    }

    /// The first blocker among those from `i` on that got less than lethal.
    pub open spec fn underfed(
        self,
        attacker: ObjectId,
        xs: Seq<(DamageTarget, i32)>,
        i: nat,
    ) -> Option<ObjectId>
        decreases self.live_blockers(attacker).len() - i,
    {
        let blockers = self.live_blockers(attacker);
        if i >= blockers.len() {
            None
        } else if given_to(xs, DamageTarget::Object(blockers[i as int]), 0) < self.lethal_for(
            attacker,
            blockers[i as int],
        ) {
            Some(blockers[i as int])
        } else {
            self.underfed(attacker, xs, i + 1)
        }
    }

    /// Why a division of `attacker`'s damage is not legal, if it is not: it
    /// has to sum to its power and name only its blockers (plus the defending
    /// player with trample, only once every blocker has lethal).
    pub open spec fn division_error(
        self,
        attacker: ObjectId,
        xs: Seq<(DamageTarget, i32)>,
    ) -> Option<Seq<char>> {
        match self.division_n(attacker, xs, xs.len()) {
            Err(e) => Some(e),
            Ok((sum, to_player)) => if sum != self.strength(attacker) {
                Some(
                    id_words(attacker) + " must assign exactly "@ + signed(
                        self.strength(attacker) as int,
                    ) + " damage, got "@ + signed(sum as int),
                )
            } else if to_player > 0 && self.underfed(attacker, xs, 0) is Some {
                Some(
                    "trample: "@ + id_words(self.underfed(attacker, xs, 0)->0)
                        + " must be assigned lethal damage before any goes to the player"@,
                )
            } else {
                None
            },
        }
    }
}

/// Where an attacker's division is kept.
pub open spec fn assigned_at(xs: Seq<AssignedModel>, attacker: ObjectId, i: nat) -> Option<nat>
    decreases xs.len() - i,
{
    if i >= xs.len() {
        None
    } else if xs[i as int].attacker == attacker {
        Some(i)
    } else {
        assigned_at(xs, attacker, i + 1)
    }
}

// ----- what happens -----

impl GameModel {
    pub open spec fn assignment_of(self, attacker: ObjectId) -> Option<Seq<(DamageTarget, i32)>> {
        match assigned_at(self.damage_assignments, attacker, 0) {
            Some(i) => Some(self.damage_assignments[i as int].split),
            None => None,
        }
    }

    /// Remember a division, in place of an earlier one for the same attacker.
    pub open spec fn assign(self, attacker: ObjectId, split: Seq<(DamageTarget, i32)>) -> GameModel {
        let a = AssignedModel { attacker, split };
        GameModel {
            damage_assignments: match assigned_at(self.damage_assignments, attacker, 0) {
                Some(i) => self.damage_assignments.update(i as int, a),
                None => self.damage_assignments.push(a),
            },
            ..self
        }
    }

    /// One creature starts attacking, tapping unless it has vigilance.
    pub open spec fn attack_with(self, id: ObjectId, target: AttackTarget) -> GameModel {
        if !self.has_obj(id) {
            self
        } else {
            let o = self.obj(id);
            let taps = !o.tapped && !self.has_keyword(id, Keyword::Vigilance);
            let g = self.with_obj(
                id,
                ObjectModel { attacking: Some(target), tapped: o.tapped || taps, ..o },
            );
            if taps {
                g.emit(EventModel::Tapped { object: id })
            } else {
                g
            }
        }
    }

    pub open spec fn attack_all(
        self,
        attackers: Seq<(ObjectId, AttackTarget)>,
        n: nat,
    ) -> GameModel
        decreases n,
    {
        if n == 0 || n > attackers.len() {
            self
        } else {
            self.attack_all(attackers, (n - 1) as nat).attack_with(
                attackers[n - 1].0,
                attackers[n - 1].1,
            )
        }
    }

    #[verifier::opaque]
    pub open spec fn declare_attackers(
        self,
        seat: Seat,
        attackers: Seq<(ObjectId, AttackTarget)>,
    ) -> GameModel {
        let g = self.attack_all(attackers, attackers.len()).emit(
            EventModel::Attacked { seat, attackers },
        );
        GameModel { pending: None, ..g }.give_priority_to_active()
    }

    pub open spec fn block_with(self, blocker: ObjectId, attacker: ObjectId) -> GameModel {
        let b = self.obj(blocker);
        let g = self.with_obj(
            blocker,
            ObjectModel { blocking: b.blocking.push(attacker), ..b },
        );
        let a = g.obj(attacker);
        g.with_obj(
            attacker,
            ObjectModel { blocked: true, blocked_by: a.blocked_by.push(blocker), ..a },
        )
    }

    pub open spec fn block_all(self, blocks: Seq<(ObjectId, ObjectId)>, n: nat) -> GameModel
        decreases n,
    {
        if n == 0 || n > blocks.len() {
            self
        } else {
            self.block_all(blocks, (n - 1) as nat).block_with(blocks[n - 1].0, blocks[n - 1].1)
        }
    }

    /// The next of `remaining` still in the game declares blockers, or the
    /// active player gets priority.
    pub open spec fn continue_blockers(self, remaining: Seq<Seat>) -> GameModel {
        let left = only(remaining, self.turn_order);
        if left.len() == 0 {
            GameModel { pending: None, ..self }.give_priority_to_active()
        } else {
            GameModel {
                pending: Some(
                    PendingModel::DeclareBlockers { seat: left[0], remaining: left.drop_first() },
                ),
                ..self
            }
        }
    }

    #[verifier::opaque]
    pub open spec fn declare_blockers(
        self,
        seat: Seat,
        blocks: Seq<(ObjectId, ObjectId)>,
    ) -> GameModel {
        let g = self.block_all(blocks, blocks.len()).emit(EventModel::Blocked { seat, blocks });
        let remaining = match g.pending {
            Some(PendingModel::DeclareBlockers { remaining, .. }) => remaining,
            _ => Seq::empty(),
        };
        GameModel { pending: None, ..g }.continue_blockers(remaining)
    }

    /// A real choice exists in dividing this attacker's damage.
    pub open spec fn needs_division(self, id: ObjectId, first: bool) -> bool {
        self.power(id) > 0 && self.deals_in_round(id, first) && {
            let n = self.live_blockers(id).len();
            n >= 2 || (self.has_keyword(id, Keyword::Trample) && n > 0)
        }
    }

    pub open spec fn division_queue(self, ids: Seq<ObjectId>, first: bool, n: nat) -> Seq<ObjectId>
        decreases n,
    {
        if n == 0 || n > ids.len() {
            Seq::empty()
        } else {
            let rest = self.division_queue(ids, first, (n - 1) as nat);
            if self.needs_division(ids[n - 1], first) {
                rest.push(ids[n - 1])
            } else {
                rest
            }
        }
    }

    /// The damage packets of one attacker.
    pub open spec fn attack_packets(self, a: ObjectId, first: bool) -> Seq<
        (ObjectId, DamageTarget, i32),
    > {
        let p = self.power(a);
        let o = self.obj(a);
        let blockers = self.live_blockers(a);
        let trample = self.has_keyword(a, Keyword::Trample);
        if !self.has_obj(a) || o.attacking is None || p <= 0 || !self.deals_in_round(a, first) {
            Seq::empty()
        } else if !o.blocked {
            match o.attacking->0 {
                AttackTarget::Player(s) => if self.in_game(s) {
                    seq![(a, DamageTarget::Player(s), p)]
                } else {
                    Seq::empty()
                },
                AttackTarget::Planeswalker(pw) => seq![(a, DamageTarget::Object(pw), p)],
            }
        } else if blockers.len() == 0 {
            // Blocked but the blockers are gone: trample still hits the player (rule 702.19c).
            match o.attacking->0 {
                AttackTarget::Player(s) => if trample {
                    seq![(a, DamageTarget::Player(s), p)]
                } else {
                    Seq::empty()
                },
                AttackTarget::Planeswalker(_) => Seq::empty(),
            }
        } else if blockers.len() == 1 && !trample {
            seq![(a, DamageTarget::Object(blockers[0]), p)]
        } else {
            let split = match self.assignment_of(a) {
                Some(s) => s,
                None => self.lethal_in_order(a, blockers),
            };
            GameModel::split_packets(a, split, split.len())
        }
    }

    /// The entries of a division that deal damage, as packets.
    pub open spec fn split_packets(a: ObjectId, split: Seq<(DamageTarget, i32)>, n: nat) -> Seq<
        (ObjectId, DamageTarget, i32),
    >
        decreases n,
    {
        if n == 0 || n > split.len() {
            Seq::empty()
        } else {
            let rest = GameModel::split_packets(a, split, (n - 1) as nat);
            if split[n - 1].1 > 0 {
                rest.push((a, split[n - 1].0, split[n - 1].1))
            } else {
                rest
            }
        }
    }

    pub open spec fn attack_packets_n(self, ids: Seq<ObjectId>, first: bool, n: nat) -> Seq<
        (ObjectId, DamageTarget, i32),
    >
        decreases n,
    {
        if n == 0 || n > ids.len() {
            Seq::empty()
        } else {
            self.attack_packets_n(ids, first, (n - 1) as nat) + self.attack_packets(
                ids[n - 1],
                first,
            )
        }
    }

    /// The packets of a blocker against the first `n` attackers it blocks.
    pub open spec fn block_packets(self, b: ObjectId, blocking: Seq<ObjectId>, n: nat) -> Seq<
        (ObjectId, DamageTarget, i32),
    >
        decreases n,
    {
        if n == 0 || n > blocking.len() {
            Seq::empty()
        } else {
            let rest = self.block_packets(b, blocking, (n - 1) as nat);
            let a = blocking[n - 1];
            if self.in_zone(a, Zone::Battlefield) && self.obj(a).attacking is Some {
                rest.push((b, DamageTarget::Object(a), self.power(b)))
            } else {
                rest
            }
        }
    }

    pub open spec fn block_packets_n(self, ids: Seq<ObjectId>, first: bool, n: nat) -> Seq<
        (ObjectId, DamageTarget, i32),
    >
        decreases n,
    {
        if n == 0 || n > ids.len() {
            Seq::empty()
        } else {
            let rest = self.block_packets_n(ids, first, (n - 1) as nat);
            let b = ids[n - 1];
            if self.has_obj(b) && self.deals_in_round(b, first) && self.power(b) > 0 {
                let blocking = self.obj(b).blocking;
                rest + self.block_packets(b, blocking, blocking.len())
            } else {
                rest
            }
        }
    }

    /// All combat damage of a round.
    pub open spec fn combat_packets(self, first: bool) -> Seq<(ObjectId, DamageTarget, i32)> {
        let attackers = self.attacking_creatures();
        let all = self.on_battlefield();
        self.attack_packets_n(attackers, first, attackers.len()) + self.block_packets_n(
            all,
            first,
            all.len(),
        )
    }

    pub open spec fn deal_packets(
        self,
        packets: Seq<(ObjectId, DamageTarget, i32)>,
        n: nat,
    ) -> GameModel
        decreases n,
    {
        if n == 0 || n > packets.len() {
            self
        } else {
            let (source, to, amount) = packets[n - 1];
            self.deal_packets(packets, (n - 1) as nat).deal_damage(source, to, amount, true)
        }
    }

    /// All combat damage in a round is worked out first and then dealt (rule 510.2).
    pub open spec fn deal_combat_damage(self, first: bool) -> GameModel {
        let packets = self.combat_packets(first);
        GameModel {
            damage_assignments: Seq::empty(),
            ..self.deal_packets(packets, packets.len())
        }
    }

    pub open spec fn continue_damage_assignment(
        self,
        queue: Seq<ObjectId>,
        first: bool,
    ) -> GameModel {
        if queue.len() == 0 {
            GameModel { pending: None, ..self }.deal_combat_damage(first).give_priority_to_active()
        } else {
            let seat = if self.has_obj(queue[0]) {
                self.obj(queue[0]).controller
            } else {
                self.active_player
            };
            GameModel {
                pending: Some(
                    PendingModel::AssignDamage {
                        seat,
                        attacker: queue[0],
                        queue: queue.drop_first(),
                    },
                ),
                ..self
            }
        }
    }

    /// Turn-based action at the start of a combat damage round (rule 510.1):
    /// ask the attacking player to divide damage wherever a real choice
    /// exists, then deal it all at once.
    pub open spec fn begin_combat_damage(self, first: bool) -> GameModel {
        let g = GameModel {
            combat_round: if first {
                CombatRound::FirstStrikeDone
            } else {
                CombatRound::Done
            },
            ..self
        };
        let ids = g.attacking_creatures();
        g.continue_damage_assignment(g.division_queue(ids, first, ids.len()), first)
    }

    #[verifier::opaque]
    pub open spec fn assign_combat_damage(
        self,
        attacker: ObjectId,
        split: Seq<(DamageTarget, i32)>,
    ) -> GameModel {
        let g = self.assign(attacker, split).emit(
            EventModel::DamageAssigned { attacker, assignments: split },
        );
        let queue = match g.pending {
            Some(PendingModel::AssignDamage { queue, .. }) => queue,
            _ => Seq::empty(),
        };
        GameModel { pending: None, ..g }.continue_damage_assignment(
            queue,
            g.combat_round == CombatRound::FirstStrikeDone,
        )
    }

    pub open spec fn remove_all_from_combat(self) -> GameModel {
        GameModel {
            objects: Seq::new(self.objects.len(), |i: int| self.objects[i].out_of_combat()),
            damage_assignments: Seq::empty(),
            ..self
        }
    }
}

// ----- executable parts -----

fn count_blocks(blocks: &Vec<(ObjectId, ObjectId)>, attacker: ObjectId) -> (n: usize)
    ensures
        n == GameModel::blocks_on(blocks@, attacker, blocks@.len()),
{
    let mut n: usize = 0;
    let mut i: usize = 0;
    while i < blocks.len()
        invariant
            i <= blocks.len(),
            n <= i,
            n == GameModel::blocks_on(blocks@, attacker, i as nat),
        decreases blocks.len() - i,
    {
        if blocks[i].1 == attacker {
            n = n + 1;
        }
        i = i + 1;
    }
    n
}

fn amount_for(xs: &Vec<(DamageTarget, i32)>, to: DamageTarget) -> (n: i32)
    ensures
        n == given_to(xs@, to, 0),
{
    let mut i: usize = 0;
    while i < xs.len()
        invariant
            i <= xs.len(),
            given_to(xs@, to, 0) == given_to(xs@, to, i as nat),
        decreases xs.len() - i,
    {
        if xs[i].0 == to {
            return xs[i].1;
        }
        i = i + 1;
    }
    0
}

/// The list without its first element.
pub(crate) fn tail<T: Copy>(v: &Vec<T>) -> (r: Vec<T>)
    requires
        v@.len() > 0,
    ensures
        r@ == v@.drop_first(),
{
    let r = crate::seqs::slice(v, 1, v.len());
    assert(r@ =~= v@.drop_first());
    r
}

impl Game {
    fn may_attack(&self, id: ObjectId) -> (b: bool)
        ensures
            b == self.model().can_attack(id),
    {
        if !self.is_creature(id) {
            return false;
        }
        match self.find_obj(id) {
            Some(o) => !o.tapped && (!o.summoning_sick || self.has_keyword(id, Keyword::Haste))
                && !self.has_keyword(id, Keyword::Defender),
            None => false,
        }
    }

    fn may_block(&self, id: ObjectId) -> (b: bool)
        ensures
            b == self.model().can_block_at_all(id),
    {
        if !self.is_creature(id) {
            return false;
        }
        match self.find_obj(id) {
            Some(o) => !o.tapped,
            None => false,
        }
    }

    /// Creatures `seat` controls that could be declared as attackers right now.
    pub fn attack_candidates(&self, seat: Seat) -> (r: Vec<ObjectId>)
        ensures
            r@ == self.model().attack_candidates(seat),
    {
        let ids = self.battlefield_of(seat);
        let mut out: Vec<ObjectId> = Vec::new();
        let mut i: usize = 0;
        while i < ids.len()
            invariant
                i <= ids.len(),
                out@ == self.model().able(ids@, true, i as nat),
            decreases ids.len() - i,
        {
            if self.may_attack(ids[i]) {
                out.push(ids[i]);
            }
            i = i + 1;
        }
        sorted(&out)
    }

    /// Creatures `seat` controls that could block right now.
    pub fn block_candidates(&self, seat: Seat) -> (r: Vec<ObjectId>)
        ensures
            r@ == self.model().block_candidates(seat),
    {
        let ids = self.battlefield_of(seat);
        let mut out: Vec<ObjectId> = Vec::new();
        let mut i: usize = 0;
        while i < ids.len()
            invariant
                i <= ids.len(),
                out@ == self.model().able(ids@, false, i as nat),
            decreases ids.len() - i,
        {
            if self.may_block(ids[i]) {
                out.push(ids[i]);
            }
            i = i + 1;
        }
        sorted(&out)
    }

    /// Can `blocker` block `attacker` at all (flying and reach)?
    pub fn can_block(&self, blocker: ObjectId, attacker: ObjectId) -> (b: bool)
        ensures
            b == self.model().can_block(blocker, attacker),
    {
        !self.has_keyword(attacker, Keyword::Flying) || self.has_keyword(blocker, Keyword::Flying)
            || self.has_keyword(blocker, Keyword::Reach)
    }

    /// Menace: an attacker can't be blocked by exactly one creature.
    pub fn blocks_satisfy_menace(
        &self,
        blocks: &Vec<(ObjectId, ObjectId)>,
        attackers: &Vec<ObjectId>,
    ) -> (b: bool)
        ensures
            b == self.model().menace_ok(blocks@, attackers@),
    {
        let mut i: usize = 0;
        while i < attackers.len()
            invariant
                i <= attackers.len(),
                forall|j: int|
                    0 <= j < i ==> !(self.model().has_keyword(
                        #[trigger] attackers@[j],
                        Keyword::Menace,
                    ) && GameModel::blocks_on(blocks@, attackers@[j], blocks@.len()) == 1),
            decreases attackers.len() - i,
        {
            if self.has_keyword(attackers[i], Keyword::Menace) && count_blocks(
                blocks,
                attackers[i],
            ) == 1 {
                assert(self.model().has_keyword(attackers@[i as int], Keyword::Menace));
                return false;
            }
            i = i + 1;
        }
        true
    }

    fn is_attacking_seat(&self, id: ObjectId, seat: Seat) -> (b: bool)
        ensures
            b == self.model().attacks_seat(id, seat),
    {
        match self.find_obj(id) {
            Some(o) => match o.attacking {
                Some(AttackTarget::Player(s)) => s == seat,
                Some(AttackTarget::Planeswalker(pw)) => match self.find_obj(pw) {
                    Some(w) => w.controller == seat,
                    None => false,
                },
                None => false,
            },
            None => false,
        }
    }

    /// Attackers currently attacking `seat` (or a planeswalker they control).
    pub fn attackers_against(&self, seat: Seat) -> (r: Vec<ObjectId>)
        ensures
            r@ == self.model().attackers_against(seat),
    {
        let ids = self.battlefield_objects();
        let mut out: Vec<ObjectId> = Vec::new();
        let mut i: usize = 0;
        while i < ids.len()
            invariant
                i <= ids.len(),
                out@ == self.model().against_n(seat, ids@, i as nat),
            decreases ids.len() - i,
        {
            if self.is_attacking_seat(ids[i], seat) {
                out.push(ids[i]);
            }
            i = i + 1;
        }
        out
    }

    pub fn attacking_creatures(&self) -> (r: Vec<ObjectId>)
        ensures
            r@ == self.model().attacking_creatures(),
    {
        let ids = self.battlefield_objects();
        let mut out: Vec<ObjectId> = Vec::new();
        let mut i: usize = 0;
        while i < ids.len()
            invariant
                i <= ids.len(),
                out@ == self.model().attacking_n(ids@, i as nat),
            decreases ids.len() - i,
        {
            if let Some(o) = self.find_obj(ids[i]) {
                if o.attacking.is_some() {
                    out.push(ids[i]);
                }
            }
            i = i + 1;
        }
        out
    }

    pub fn any_attackers(&self) -> (b: bool)
        ensures
            b == self.model().any_attackers(),
    {
        let mut i: usize = 0;
        while i < self.objects.items.len()
            invariant
                i <= self.objects.items.len(),
                forall|j: int|
                    0 <= j < i ==> !((#[trigger] self.model().objects[j]).zone == Zone::Battlefield
                        && self.model().objects[j].attacking is Some),
            decreases self.objects.items.len() - i,
        {
            let o = &self.objects.items[i];
            assert(o@ == self.model().objects[i as int]);
            if o.zone == Zone::Battlefield && o.attacking.is_some() {
                return true;
            }
            i = i + 1;
        }
        false
    }

    /// Blockers still on the battlefield and still blocking `attacker`, in
    /// declared order.
    pub fn live_blockers(&self, attacker: ObjectId) -> (r: Vec<ObjectId>)
        ensures
            r@ == self.model().live_blockers(attacker),
    {
        let ids = match self.find_obj(attacker) {
            Some(o) => copied(&o.blocked_by),
            None => Vec::new(),
        };
        let mut out: Vec<ObjectId> = Vec::new();
        let mut i: usize = 0;
        while i < ids.len()
            invariant
                i <= ids.len(),
                out@ == self.model().live_n(attacker, ids@, i as nat),
            decreases ids.len() - i,
        {
            if let Some(o) = self.find_obj(ids[i]) {
                if o.zone == Zone::Battlefield && in_list(&o.blocking, attacker) {
                    out.push(ids[i]);
                }
            }
            i = i + 1;
        }
        out
    }

    /// Seats that were attacked, in APNAP order (rule 802.3): they declare blockers one at a time.
    pub(crate) fn defending_seats(&self) -> (r: Vec<Seat>)
        ensures
            r@ == self.model().defending_seats(),
    {
        let seats = self.apnap();
        let mut out: Vec<Seat> = Vec::new();
        let mut i: usize = 0;
        while i < seats.len()
            invariant
                i <= seats.len(),
                out@ == self.model().defending_n(seats@, i as nat),
            decreases seats.len() - i,
        {
            if seats[i] != self.active_player {
                let attackers = self.attackers_against(seats[i]);
                if attackers.len() > 0 {
                    out.push(seats[i]);
                }
            }
            i = i + 1;
        }
        out
    }

    pub(crate) fn declare_attackers(
        &mut self,
        seat: Seat,
        attackers: &Vec<(ObjectId, AttackTarget)>,
    )
        ensures
            final(self).model() == old(self).model().declare_attackers(seat, attackers@),
    {
        reveal(GameModel::declare_attackers);
        let mut i: usize = 0;
        while i < attackers.len()
            invariant
                i <= attackers.len(),
                self.model() == old(self).model().attack_all(attackers@, i as nat),
            decreases attackers.len() - i,
        {
            self.attack_with(attackers[i].0, attackers[i].1);
            i = i + 1;
        }
        self.emit(EventBase::Attacked { seat, attackers: copied(attackers) });
        self.pending = None;
        self.give_priority_to_active();
    }

    fn attack_with(&mut self, id: ObjectId, target: AttackTarget)
        ensures
            final(self).model() == old(self).model().attack_with(id, target),
    {
        let vigilance = self.has_keyword(id, Keyword::Vigilance);
        let taps = match self.obj_mut(id) {
            Some(o) => {
                let taps = !o.tapped && !vigilance;
                o.attacking = Some(target);
                if taps {
                    o.tapped = true;
                }
                taps
            },
            None => false,
        };
        if taps {
            self.emit(EventBase::Tapped { object: id });
        }
    }

    fn block_with(&mut self, blocker: ObjectId, attacker: ObjectId)
        ensures
            final(self).model() == old(self).model().block_with(blocker, attacker),
    {
        match self.obj_mut(blocker) {
            Some(b) => {
                b.blocking.push(attacker);
            },
            None => {},
        }
        match self.obj_mut(attacker) {
            Some(a) => {
                a.blocked = true;
                a.blocked_by.push(blocker);
            },
            None => {},
        }
    }

    pub(crate) fn declare_blockers(&mut self, seat: Seat, blocks: &Vec<(ObjectId, ObjectId)>)
        ensures
            final(self).model() == old(self).model().declare_blockers(seat, blocks@),
    {
        reveal(GameModel::declare_blockers);
        let mut i: usize = 0;
        while i < blocks.len()
            invariant
                i <= blocks.len(),
                self.model() == old(self).model().block_all(blocks@, i as nat),
            decreases blocks.len() - i,
        {
            self.block_with(blocks[i].0, blocks[i].1);
            i = i + 1;
        }
        self.emit(EventBase::Blocked { seat, blocks: copied(blocks) });
        let remaining = match &self.pending {
            Some(PendingChoice::DeclareBlockers { remaining, .. }) => copied(remaining),
            _ => Vec::new(),
        };
        self.pending = None;
        self.continue_blockers(&remaining);
    }

    pub(crate) fn continue_blockers(&mut self, remaining: &Vec<Seat>)
        ensures
            final(self).model() == old(self).model().continue_blockers(remaining@),
    {
        let left = keep_only(remaining, &self.turn_order);
        if left.len() == 0 {
            self.pending = None;
            self.give_priority_to_active();
        } else {
            self.pending = Some(
                PendingChoice::DeclareBlockers { seat: left[0], remaining: tail(&left) },
            );
        }
    }

    /// Whether any creature in combat has first or double strike.
    pub(crate) fn combat_has_first_strike(&self) -> (b: bool)
        ensures
            b == self.model().combat_has_first_strike(),
    {
        let ids = self.battlefield_objects();
        let mut i: usize = 0;
        while i < ids.len()
            invariant
                i <= ids.len(),
                ids@ == self.model().on_battlefield(),
                forall|j: int|
                    0 <= j < i ==> !self.model().strikes_first(
                        #[trigger] self.model().on_battlefield()[j],
                    ),
            decreases ids.len() - i,
        {
            let id = ids[i];
            if let Some(o) = self.find_obj(id) {
                if (o.attacking.is_some() || o.blocking.len() > 0) && (self.has_keyword(
                    id,
                    Keyword::FirstStrike,
                ) || self.has_keyword(id, Keyword::DoubleStrike)) {
                    assert(self.model().strikes_first(self.model().on_battlefield()[i as int]));
                    return true;
                }
            }
            assert(!self.model().strikes_first(self.model().on_battlefield()[i as int]));
            i = i + 1;
        }
        false
    }

    /// Does this creature deal combat damage in the given round?
    fn deals_damage_in_round(&self, id: ObjectId, first: bool) -> (b: bool)
        ensures
            b == self.model().deals_in_round(id, first),
    {
        let fs = self.has_keyword(id, Keyword::FirstStrike);
        let ds = self.has_keyword(id, Keyword::DoubleStrike);
        if first {
            fs || ds
        } else {
            ds || !fs
        }
    }

    /// Lethal damage to assign to a blocker: 1 from a deathtouch source, else remaining toughness.
    fn lethal_for(&self, attacker: ObjectId, blocker: ObjectId) -> (n: i32)
        ensures
            n == self.model().lethal_for(attacker, blocker),
            n >= 1,
    {
        if self.has_keyword(attacker, Keyword::Deathtouch) {
            return 1;
        }
        let marked: i32 = match self.find_obj(blocker) {
            Some(o) => o.damage,
            None => 0,
        };
        let left: i32 = sub_i32(self.toughness(blocker), marked);
        if left < 1 {
            1
        } else {
            left
        }
    }

    fn attacked_player(&self, id: ObjectId) -> (r: Option<Seat>)
        ensures
            r == self.model().attacked_player(id),
    {
        match self.find_obj(id) {
            Some(o) => match o.attacking {
                Some(AttackTarget::Player(s)) => Some(s),
                _ => None,
            },
            None => None,
        }
    }

    pub(crate) fn strength(&self, id: ObjectId) -> (n: i32)
        ensures
            n == self.model().strength(id),
            n >= 0,
    {
        let p: i32 = self.power(id);
        if p > 0 {
            p
        } else {
            0
        }
    }

    fn needs_division(&self, id: ObjectId, first: bool) -> (b: bool)
        ensures
            b == self.model().needs_division(id, first),
    {
        if self.power(id) <= 0 || !self.deals_damage_in_round(id, first) {
            return false;
        }
        let blockers = self.live_blockers(id);
        blockers.len() >= 2 || (self.has_keyword(id, Keyword::Trample) && blockers.len() > 0)
    }

    /// Turn-based action at the start of a combat damage round (rule 510.1):
    /// ask the attacking player to divide damage wherever a real choice exists,
    /// then deal it all at once.
    pub(crate) fn begin_combat_damage(&mut self, first: bool)
        ensures
            final(self).model() == old(self).model().begin_combat_damage(first),
    {
        self.combat_round = if first {
            CombatRound::FirstStrikeDone
        } else {
            CombatRound::Done
        };
        let ids = self.attacking_creatures();
        let mut queue: Vec<ObjectId> = Vec::new();
        let ghost g = self.model();
        let mut i: usize = 0;
        while i < ids.len()
            invariant
                i <= ids.len(),
                g == self.model(),
                queue@ == g.division_queue(ids@, first, i as nat),
            decreases ids.len() - i,
        {
            if self.needs_division(ids[i], first) {
                queue.push(ids[i]);
            }
            i = i + 1;
        }
        self.continue_damage_assignment(&queue, first);
    }

    pub(crate) fn assign_combat_damage(
        &mut self,
        attacker: ObjectId,
        assignments: &Vec<(DamageTarget, i32)>,
    )
        ensures
            final(self).model() == old(self).model().assign_combat_damage(attacker, assignments@),
    {
        reveal(GameModel::assign_combat_damage);
        self.remember_division(attacker, assignments);
        self.emit(EventBase::DamageAssigned { attacker, assignments: copied(assignments) });
        let queue = match &self.pending {
            Some(PendingChoice::AssignDamage { queue, .. }) => copied(queue),
            _ => Vec::new(),
        };
        let first = self.combat_round == CombatRound::FirstStrikeDone;
        self.pending = None;
        self.continue_damage_assignment(&queue, first);
    }

    fn remember_division(&mut self, attacker: ObjectId, split: &Vec<(DamageTarget, i32)>)
        ensures
            final(self).model() == old(self).model().assign(attacker, split@),
    {
        let a = Assigned { attacker, split: copied(split) };
        let mut i: usize = 0;
        while i < self.damage_assignments.len()
            invariant
                i <= self.damage_assignments.len(),
                *self == *old(self),
                assigned_at(self.model().damage_assignments, attacker, 0) == assigned_at(
                    self.model().damage_assignments,
                    attacker,
                    i as nat,
                ),
                a@ == (AssignedModel { attacker, split: split@ }),
            decreases self.damage_assignments.len() - i,
        {
            if self.damage_assignments[i].attacker == attacker {
                self.damage_assignments.set(i, a);
                return ;
            }
            i = i + 1;
        }
        self.damage_assignments.push(a);
    }

    fn division_of(&self, attacker: ObjectId) -> (r: Option<Vec<(DamageTarget, i32)>>)
        ensures
            match r {
                Some(v) => self.model().assignment_of(attacker) == Some(v@),
                None => self.model().assignment_of(attacker) is None,
            },
    {
        let mut i: usize = 0;
        while i < self.damage_assignments.len()
            invariant
                i <= self.damage_assignments.len(),
                assigned_at(self.model().damage_assignments, attacker, 0) == assigned_at(
                    self.model().damage_assignments,
                    attacker,
                    i as nat,
                ),
            decreases self.damage_assignments.len() - i,
        {
            if self.damage_assignments[i].attacker == attacker {
                return Some(copied(&self.damage_assignments[i].split));
            }
            i = i + 1;
        }
        None
    }

    pub(crate) fn continue_damage_assignment(&mut self, queue: &Vec<ObjectId>, first: bool)
        ensures
            final(self).model() == old(self).model().continue_damage_assignment(queue@, first),
    {
        if queue.len() == 0 {
            self.pending = None;
            self.deal_combat_damage(first);
            self.give_priority_to_active();
        } else {
            let attacker = queue[0];
            let seat = match self.find_obj(attacker) {
                Some(o) => o.controller,
                None => self.active_player,
            };
            self.pending = Some(
                PendingChoice::AssignDamage { seat, attacker, queue: tail(queue) },
            );
        }
    }

    /// "Lethal to each blocker in declared order, remainder to the last one"
    /// (or to the player, with trample). The usual default and the engine's fallback.
    pub(crate) fn lethal_in_order(&self, attacker: ObjectId, blockers: &Vec<ObjectId>) -> (r: Vec<
        (DamageTarget, i32),
    >)
        ensures
            r@ == self.model().lethal_in_order(attacker, blockers@),
    {
        let mut remaining: i32 = self.strength(attacker);
        let mut out: Vec<(DamageTarget, i32)> = Vec::new();
        let mut i: usize = 0;
        while i < blockers.len()
            invariant
                i <= blockers.len(),
                remaining >= 0,
                (remaining, out@) == self.model().lethal_n(attacker, blockers@, i as nat),
            decreases blockers.len() - i,
        {
            if remaining != 0 {
                let lethal: i32 = self.lethal_for(attacker, blockers[i]);
                let give: i32 = if remaining < lethal {
                    remaining
                } else {
                    lethal
                };
                out.push((DamageTarget::Object(blockers[i]), give));
                remaining = remaining - give;
            }
            i = i + 1;
        }
        if remaining > 0 {
            let player = self.attacked_player(attacker);
            if self.has_keyword(attacker, Keyword::Trample) && player.is_some() {
                if let Some(s) = player {
                    out.push((DamageTarget::Player(s), remaining));
                }
            } else if out.len() > 0 {
                let at: usize = out.len() - 1;
                let (to, n) = out[at];
                out.set(at, (to, add_i32(n, remaining)));
            }
        }
        out
    }

    fn check_entry(
        &self,
        attacker: ObjectId,
        xs: &Vec<(DamageTarget, i32)>,
        k: usize,
        blockers: &Vec<ObjectId>,
        seen: &Vec<DamageTarget>,
    ) -> (r: Option<String>)
        requires
            k < xs@.len(),
            blockers@ == self.model().live_blockers(attacker),
            seen@ == recipients(xs@, k as nat),
        ensures
            match r {
                Some(e) => self.model().entry_error(attacker, xs@, k as nat) == Some(e@),
                None => self.model().entry_error(attacker, xs@, k as nat) is None,
            },
    {
        let (to, amount) = xs[k];
        if amount < 0 {
            return Some("damage amounts can't be negative".to_owned());
        }
        match to {
            DamageTarget::Object(o) => {
                if !in_list(blockers, o) {
                    return Some(
                        cat3(
                            o.text().as_str(),
                            " is not blocking ",
                            attacker.text().as_str(),
                        ),
                    );
                }
            },
            DamageTarget::Player(s) => {
                if !(self.has_keyword(attacker, Keyword::Trample) && self.attacked_player(attacker)
                    == Some(s)) {
                    return Some(
                        "only a creature with trample can assign damage to the player it's attacking".to_owned(),
                    );
                }
            },
        }
        if in_list(seen, to) {
            return Some("each recipient may appear only once".to_owned());
        }
        None
    }

    /// Whether a division of `attacker`'s damage is legal: sums to its power,
    /// names only its blockers (plus the defending player with trample, only
    /// once every blocker has lethal).
    pub(crate) fn assignment_is_legal(
        &self,
        attacker: ObjectId,
        assignments: &Vec<(DamageTarget, i32)>,
    ) -> (r: Result<(), String>)
        ensures
            match r {
                Ok(_) => self.model().division_error(attacker, assignments@) is None,
                Err(e) => self.model().division_error(attacker, assignments@) == Some(e@),
            },
    {
        let ghost g = self.model();
        let blockers = self.live_blockers(attacker);
        let power: i32 = self.strength(attacker);
        let mut seen: Vec<DamageTarget> = Vec::new();
        let mut sum: i32 = 0;
        let mut to_player: i32 = 0;
        let mut i: usize = 0;
        while i < assignments.len()
            invariant
                i <= assignments.len(),
                g == self.model(),
                blockers@ == g.live_blockers(attacker),
                seen@ == recipients(assignments@, i as nat),
                g.division_n(attacker, assignments@, i as nat) == Ok::<(i32, i32), Seq<char>>(
                    (sum, to_player),
                ),
            decreases assignments.len() - i,
        {
            match self.check_entry(attacker, assignments, i, &blockers, &seen) {
                Some(e) => {
                    proof {
                        g.lemma_division_err(
                            attacker,
                            assignments@,
                            (i + 1) as nat,
                            assignments@.len(),
                        );
                    }
                    return Err(e);
                },
                None => {},
            }
            let (to, amount) = assignments[i];
            if matches!(to, DamageTarget::Player(_)) {
                to_player = add_i32(to_player, amount);
            }
            seen.push(to);
            sum = add_i32(sum, amount);
            i = i + 1;
        }
        if sum != power {
            return Err(
                cat5(
                    attacker.text().as_str(),
                    " must assign exactly ",
                    int_text(power as i64).as_str(),
                    " damage, got ",
                    int_text(sum as i64).as_str(),
                ),
            );
        }
        if to_player > 0 {
            let mut j: usize = 0;
            while j < blockers.len()
                invariant
                    j <= blockers.len(),
                    g == self.model(),
                    blockers@ == g.live_blockers(attacker),
                    g.underfed(attacker, assignments@, 0) == g.underfed(
                        attacker,
                        assignments@,
                        j as nat,
                    ),
                    g.division_n(attacker, assignments@, assignments@.len()) == Ok::<
                        (i32, i32),
                        Seq<char>,
                    >((sum, to_player)),
                    to_player > 0,
                    sum == g.strength(attacker),
                decreases blockers.len() - j,
            {
                let b = blockers[j];
                let got: i32 = amount_for(assignments, DamageTarget::Object(b));
                if got < self.lethal_for(attacker, b) {
                    return Err(
                        cat3(
                            "trample: ",
                            b.text().as_str(),
                            " must be assigned lethal damage before any goes to the player",
                        ),
                    );
                }
                j = j + 1;
            }
        }
        Ok(())
    }

    fn packets_of(&self, a: ObjectId, first: bool, packets: &mut Vec<
        (ObjectId, DamageTarget, i32),
    >)
        ensures
            final(packets)@ == old(packets)@ + self.model().attack_packets(a, first),
    {
        let ghost start = packets@;
        let ghost g = self.model();
        assert(start + Seq::<(ObjectId, DamageTarget, i32)>::empty() =~= start);
        let p: i32 = self.power(a);
        let (target, blocked) = match self.find_obj(a) {
            Some(o) => match o.attacking {
                Some(t) => (t, o.blocked),
                None => {
                    return ;
                },
            },
            None => {
                return ;
            },
        };
        if p <= 0 || !self.deals_damage_in_round(a, first) {
            return ;
        }
        if !blocked {
            match target {
                AttackTarget::Player(s) => {
                    if self.is_in_game(s) {
                        packets.push((a, DamageTarget::Player(s), p));
                    }
                },
                AttackTarget::Planeswalker(pw) => {
                    packets.push((a, DamageTarget::Object(pw), p));
                },
            }
            assert(packets@ =~= start + g.attack_packets(a, first));
            return ;
        }
        let blockers = self.live_blockers(a);
        let trample = self.has_keyword(a, Keyword::Trample);
        if blockers.len() == 0 {
            // Blocked but the blockers are gone: trample still hits the player (rule 702.19c).
            match target {
                AttackTarget::Player(s) => {
                    if trample {
                        packets.push((a, DamageTarget::Player(s), p));
                    }
                },
                AttackTarget::Planeswalker(_) => {},
            }
            assert(packets@ =~= start + g.attack_packets(a, first));
            return ;
        }
        if blockers.len() == 1 && !trample {
            packets.push((a, DamageTarget::Object(blockers[0]), p));
            assert(packets@ =~= start + g.attack_packets(a, first));
            return ;
        }
        let split = match self.division_of(a) {
            Some(s) => s,
            None => self.lethal_in_order(a, &blockers),
        };
        let mut i: usize = 0;
        while i < split.len()
            invariant
                i <= split.len(),
                packets@ == start + GameModel::split_packets(a, split@, i as nat),
            decreases split.len() - i,
        {
            let (to, n) = split[i];
            if n > 0 {
                packets.push((a, to, n));
            }
            i = i + 1;
            assert(packets@ =~= start + GameModel::split_packets(a, split@, i as nat));
        }
    }

    fn combat_packets(&self, first: bool) -> (r: Vec<(ObjectId, DamageTarget, i32)>)
        ensures
            r@ == self.model().combat_packets(first),
    {
        let ghost g = self.model();
        let mut packets: Vec<(ObjectId, DamageTarget, i32)> = Vec::new();
        let attackers = self.attacking_creatures();
        let mut i: usize = 0;
        while i < attackers.len()
            invariant
                i <= attackers.len(),
                g == self.model(),
                packets@ == g.attack_packets_n(attackers@, first, i as nat),
            decreases attackers.len() - i,
        {
            self.packets_of(attackers[i], first, &mut packets);
            i = i + 1;
        }
        let ghost from_attackers = packets@;
        let all = self.battlefield_objects();
        let mut k: usize = 0;
        assert(packets@ =~= from_attackers + g.block_packets_n(all@, first, 0));
        while k < all.len()
            invariant
                k <= all.len(),
                g == self.model(),
                packets@ == from_attackers + g.block_packets_n(all@, first, k as nat),
            decreases all.len() - k,
        {
            let b = all[k];
            let ghost before = packets@;
            if let Some(o) = self.find_obj(b) {
                if o.blocking.len() > 0 && self.deals_damage_in_round(b, first) {
                    let p: i32 = self.power(b);
                    if p > 0 {
                        let mut j: usize = 0;
                        assert(packets@ =~= before + g.block_packets(b, o.blocking@, 0));
                        while j < o.blocking.len()
                            invariant
                                j <= o.blocking.len(),
                                g == self.model(),
                                p == g.power(b),
                                packets@ == before + g.block_packets(b, o.blocking@, j as nat),
                            decreases o.blocking.len() - j,
                        {
                            let a = o.blocking[j];
                            if let Some(x) = self.find_obj(a) {
                                if x.zone == Zone::Battlefield && x.attacking.is_some() {
                                    packets.push((b, DamageTarget::Object(a), p));
                                }
                            }
                            j = j + 1;
                            assert(packets@ =~= before + g.block_packets(
                                b,
                                o.blocking@,
                                j as nat,
                            ));
                        }
                    }
                }
            }
            k = k + 1;
            assert(packets@ =~= from_attackers + g.block_packets_n(all@, first, k as nat));
        }
        packets
    }

    fn deal_combat_damage(&mut self, first: bool)
        ensures
            final(self).model() == old(self).model().deal_combat_damage(first),
    {
        let packets = self.combat_packets(first);
        let mut i: usize = 0;
        while i < packets.len()
            invariant
                i <= packets.len(),
                self.model() == old(self).model().deal_packets(packets@, i as nat),
            decreases packets.len() - i,
        {
            let (source, to, amount) = packets[i];
            self.deal_damage(source, to, amount, true);
            i = i + 1;
        }
        self.damage_assignments = Vec::new();
    }

    pub(crate) fn remove_all_from_combat(&mut self)
        ensures
            final(self).model() == old(self).model().remove_all_from_combat(),
    {
        let ghost g = self.model();
        let mut i: usize = 0;
        while i < self.objects.items.len()
            invariant
                i <= self.objects.items.len(),
                self.objects@.len() == g.objects.len(),
                self.model() == (GameModel { objects: self.objects@, ..g }),
                forall|j: int|
                    0 <= j < g.objects.len() ==> #[trigger] self.objects@[j] == (if j < i {
                        g.objects[j].out_of_combat()
                    } else {
                        g.objects[j]
                    }),
            decreases self.objects.items.len() - i,
        {
            let ghost before = self.objects@;
            let o = &mut self.objects.items[i];
            o.attacking = None;
            o.blocking = Vec::new();
            o.blocked = false;
            o.blocked_by = Vec::new();
            assert(self.objects@ =~= before.update(i as int, before[i as int].out_of_combat()));
            i = i + 1;
        }
        self.damage_assignments = Vec::new();
        assert(self.model() =~= g.remove_all_from_combat());
    }
}

impl GameModel {
    proof fn lemma_division_err(
        self,
        attacker: ObjectId,
        xs: Seq<(DamageTarget, i32)>,
        k: nat,
        n: nat,
    )
        requires
            k <= n <= xs.len(),
            self.division_n(attacker, xs, k) is Err,
        ensures
            self.division_n(attacker, xs, n) == self.division_n(attacker, xs, k),
        decreases n,
    {
        if k < n {
            self.lemma_division_err(attacker, xs, k, (n - 1) as nat);
        }
    }
}

} // verus!
