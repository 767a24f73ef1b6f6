//! The engine's source of chance: a ChaCha stream, held as its seed and the
//! position in it, so a game is a function of its seed and its actions.
use crate::types::ObjectId;
use rand::seq::SliceRandom;
use rand::{Rng, SeedableRng};
use rand_chacha::ChaCha8Rng;
use vstd::prelude::*;

verus! {

/// What `Rng::gen_range` draws from `0..n` with the ChaCha8 stream of a seed
/// at a word position, and the position afterwards.
pub uninterp spec fn chacha_roll(seed: u64, pos: u128, n: u64) -> (u64, u128);

/// The order `SliceRandom::shuffle` puts a list in with the ChaCha8 stream of
/// a seed at a word position, and the position afterwards.
pub uninterp spec fn chacha_shuffle(seed: u64, pos: u128, items: Seq<u32>) -> (Seq<u32>, u128);

/// The item `SliceRandom::choose` picks with the ChaCha8 stream of a seed at
/// a word position, and the position afterwards.
pub uninterp spec fn chacha_choose(seed: u64, pos: u128, items: Seq<u32>) -> (Option<u32>, u128);

/// Calls `Rng::gen_range(0..n)` on a `ChaCha8Rng` seeded with `seed` and
/// moved to `pos`. What it draws is below `n`; the rest is a function of the
/// three numbers.
#[verifier::external_body]
fn roll_at(seed: u64, pos: u128, n: u64) -> (r: (u64, u128))
    requires
        n > 0,
    ensures
        r == chacha_roll(seed, pos, n),
        r.0 < n,
{
    let mut rng = ChaCha8Rng::seed_from_u64(seed);
    rng.set_word_pos(pos);
    let k = rng.gen_range(0..n);
    (k, rng.get_word_pos())
}

/// Calls `SliceRandom::shuffle` with a `ChaCha8Rng` seeded with `seed` and
/// moved to `pos`. It only swaps elements, so the result holds the same
/// items; their order is a function of the arguments.
#[verifier::external_body]
fn shuffle_at(seed: u64, pos: u128, items: Vec<u32>) -> (r: (Vec<u32>, u128))
    ensures
        r.0@ == chacha_shuffle(seed, pos, items@).0,
        r.1 == chacha_shuffle(seed, pos, items@).1,
        r.0@.to_multiset() == items@.to_multiset(),
{
    let mut rng = ChaCha8Rng::seed_from_u64(seed);
    rng.set_word_pos(pos);
    let mut items = items;
    items.shuffle(&mut rng);
    (items, rng.get_word_pos())
}

/// Calls `SliceRandom::choose` with a `ChaCha8Rng` seeded with `seed` and
/// moved to `pos`. It picks one of the items, or nothing from an empty list;
/// which one is a function of the arguments.
#[verifier::external_body]
fn choose_at(seed: u64, pos: u128, items: &Vec<u32>) -> (r: (Option<u32>, u128))
    ensures
        r == chacha_choose(seed, pos, items@),
        r.0 is None <==> items@.len() == 0,
        r.0 matches Some(x) ==> items@.contains(x),
{
    let mut rng = ChaCha8Rng::seed_from_u64(seed);
    rng.set_word_pos(pos);
    let x = items.choose(&mut rng).copied();
    (x, rng.get_word_pos())
}

/// A ChaCha stream at a position.
#[derive(Copy, Clone, Debug, PartialEq, Eq, Structural)]
pub struct Dice {
    pub seed: u64,
    pub pos: u128,
}

pub open spec fn raw_ids(ids: Seq<ObjectId>) -> Seq<u32> {
    Seq::new(ids.len(), |i: int| ids[i].0)
}

pub open spec fn as_ids(raw: Seq<u32>) -> Seq<ObjectId> {
    Seq::new(raw.len(), |i: int| ObjectId(raw[i]))
}

impl Dice {
    pub open spec fn rolled(self, n: u64) -> u64 {
        chacha_roll(self.seed, self.pos, n).0
    }

    pub open spec fn after_roll(self, n: u64) -> Dice {
        Dice { pos: chacha_roll(self.seed, self.pos, n).1, ..self }
    }

    pub open spec fn shuffled(self, ids: Seq<ObjectId>) -> Seq<ObjectId> {
        as_ids(chacha_shuffle(self.seed, self.pos, raw_ids(ids)).0)
    }

    pub open spec fn after_shuffle(self, ids: Seq<ObjectId>) -> Dice {
        Dice { pos: chacha_shuffle(self.seed, self.pos, raw_ids(ids)).1, ..self }
    }

    pub open spec fn picked(self, items: Seq<u32>) -> Option<u32> {
        chacha_choose(self.seed, self.pos, items).0
    }

    pub open spec fn after_pick(self, items: Seq<u32>) -> Dice {
        Dice { pos: chacha_choose(self.seed, self.pos, items).1, ..self }
    }

    /// The stream of a seed, at its start.
    pub fn new(seed: u64) -> (d: Dice)
        ensures
            d == (Dice { seed, pos: 0 }),
    {
        Dice { seed, pos: 0 }
    }

    /// A number below `n`.
    pub fn roll(&mut self, n: u64) -> (k: u64)
        requires
            n > 0,
        ensures
            k == old(self).rolled(n),
            k < n,
            *final(self) == old(self).after_roll(n),
    {
        let (k, pos) = roll_at(self.seed, self.pos, n);
        self.pos = pos;
        k
    }

    /// The list in a new order.
    pub fn shuffle(&mut self, ids: &Vec<ObjectId>) -> (r: Vec<ObjectId>)
        ensures
            r@ == old(self).shuffled(ids@),
            *final(self) == old(self).after_shuffle(ids@),
            r@.to_multiset() == ids@.to_multiset(),
    {
        let mut raw: Vec<u32> = Vec::new();
        let mut i: usize = 0;
        while i < ids.len()
            invariant
                i <= ids.len(),
                raw@ == raw_ids(ids@).subrange(0, i as int),
            decreases ids.len() - i,
        {
            raw.push(ids[i].0);
            i = i + 1;
        }
        assert(raw_ids(ids@).subrange(0, ids@.len() as int) =~= raw_ids(ids@));
        let (mixed, pos) = shuffle_at(self.seed, self.pos, raw);
        self.pos = pos;
        let mut out: Vec<ObjectId> = Vec::new();
        let mut j: usize = 0;
        while j < mixed.len()
            invariant
                j <= mixed.len(),
                out@ == as_ids(mixed@).subrange(0, j as int),
            decreases mixed.len() - j,
        {
            out.push(ObjectId(mixed[j]));
            j = j + 1;
        }
        assert(as_ids(mixed@).subrange(0, mixed@.len() as int) =~= as_ids(mixed@));
        proof {
            lemma_same_items(mixed@, ids@);
        }
        out
    }

    /// One of the items.
    pub fn pick(&mut self, items: &Vec<u32>) -> (r: Option<u32>)
        ensures
            r == old(self).picked(items@),
            *final(self) == old(self).after_pick(items@),
            r is None <==> items@.len() == 0,
            r matches Some(x) ==> items@.contains(x),
    {
        let (x, pos) = choose_at(self.seed, self.pos, items);
        self.pos = pos;
        x
    }
}

proof fn lemma_as_ids_multiset(raw: Seq<u32>)
    ensures
        forall|k: u32|
            as_ids(raw).to_multiset().count(ObjectId(k)) == #[trigger] raw.to_multiset().count(k),
    decreases raw.len(),
{
    broadcast use vstd::seq_lib::group_to_multiset_ensures;

    if raw.len() == 0 {
        assert(as_ids(raw) =~= Seq::empty());
        assert(raw =~= Seq::empty());
    } else {
        let rest = raw.drop_last();
        lemma_as_ids_multiset(rest);
        assert(raw =~= rest.push(raw.last()));
        assert(as_ids(raw) =~= as_ids(rest).push(ObjectId(raw.last())));
    }
}

proof fn lemma_same_items(mixed: Seq<u32>, ids: Seq<ObjectId>)
    requires
        mixed.to_multiset() == raw_ids(ids).to_multiset(),
    ensures
        as_ids(mixed).to_multiset() == ids.to_multiset(),
{
    lemma_as_ids_multiset(mixed);
    lemma_as_ids_multiset(raw_ids(ids));
    assert(as_ids(raw_ids(ids)) =~= ids);
    assert forall|x: ObjectId|
        as_ids(mixed).to_multiset().count(x) == ids.to_multiset().count(x) by {
        let k = x.0;
        assert(x == ObjectId(k));
        assert(as_ids(mixed).to_multiset().count(ObjectId(k)) == mixed.to_multiset().count(k));
        assert(as_ids(raw_ids(ids)).to_multiset().count(ObjectId(k))
            == raw_ids(ids).to_multiset().count(k));
    }
    assert(as_ids(mixed).to_multiset() =~= ids.to_multiset());
}

} // verus!
