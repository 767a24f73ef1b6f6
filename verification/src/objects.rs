//! The object arena.
use crate::seqs::group_views;
use crate::state::{GameObject, ObjectModel, Objects};
use crate::types::ObjectId;
use vstd::prelude::*;

verus! {

broadcast use group_views;

impl Objects {
    pub fn new() -> (r: Objects)
        ensures
            r@ == Seq::<ObjectModel>::empty(),
    {
        Objects { items: Vec::new() }
    }

    /// Allocate the next id and build the object with it. Ids start at 1.
    pub fn insert_with_key<F: FnOnce(ObjectId) -> GameObject>(&mut self, f: F) -> (id: ObjectId)
        requires
            old(self)@.len() < u32::MAX,
            f.requires((ObjectId((old(self)@.len() + 1) as u32),)),
        ensures
            id == ObjectId((old(self)@.len() + 1) as u32),
            final(self)@.len() == old(self)@.len() + 1,
            final(self)@.drop_last() == old(self)@,
            exists|o: GameObject|
                f.ensures((id,), o) && #[trigger] o@ == final(self)@[old(self)@.len() as int],
    {
        let id = ObjectId((self.items.len() + 1) as u32);
        let o = f(id);
        self.items.push(o);
        assert(self@.drop_last() =~= old(self)@);
        id
    }

    /// Allocate the next id for an object. Ids start at 1.
    pub fn insert(&mut self, o: GameObject)
        ensures
            final(self)@ == old(self)@.push(o@),
    {
        self.items.push(o);
    }

    pub fn get(&self, id: ObjectId) -> (r: Option<&GameObject>)
        ensures
            match r {
                Some(o) => 1 <= id.0 <= self@.len() && o@ == self@[id.0 - 1],
                None => !(1 <= id.0 <= self@.len()),
            },
    {
        if id.0 >= 1 && (id.0 as usize) <= self.items.len() {
            Some(&self.items[id.0 as usize - 1])
        } else {
            None
        }
    }

    pub fn get_mut(&mut self, id: ObjectId) -> (r: Option<&mut GameObject>)
        ensures
            match r {
                Some(o) => {
                    &&& 1 <= id.0 <= old(self)@.len()
                    &&& o@ == old(self)@[id.0 - 1]
                    &&& final(self)@ == old(self)@.update(id.0 - 1, final(o)@)
                },
                None => !(1 <= id.0 <= old(self)@.len()) && final(self)@ == old(self)@,
            },
    {
        if id.0 >= 1 && (id.0 as usize) <= self.items.len() {
            Some(&mut self.items[id.0 as usize - 1])
        } else {
            None
        }
    }

    pub fn contains(&self, id: ObjectId) -> (b: bool)
        ensures
            b == (1 <= id.0 <= self@.len()),
    {
        id.0 >= 1 && (id.0 as usize) <= self.items.len()
    }

    pub fn len(&self) -> (n: usize)
        ensures
            n == self@.len(),
    {
        self.items.len()
    }

    pub fn is_empty(&self) -> (b: bool)
        ensures
            b == (self@.len() == 0),
    {
        self.items.len() == 0
    }

    /// Every object with its id, in id order.
    pub fn iter(&self) -> (r: Vec<(ObjectId, &GameObject)>)
        ensures
            r@.len() == self@.len(),
            forall|i: int|
                0 <= i < r@.len() ==> (#[trigger] r@[i]).0 == ObjectId((i + 1) as u32) && r@[i].1@
                    == self@[i],
    {
        let mut out: Vec<(ObjectId, &GameObject)> = Vec::new();
        let mut i: usize = 0;
        while i < self.items.len()
            invariant
                i <= self.items.len(),
                out@.len() == i,
                forall|j: int|
                    0 <= j < i ==> (#[trigger] out@[j]).0 == ObjectId((j + 1) as u32)
                        && out@[j].1@ == self@[j],
            decreases self.items.len() - i,
        {
            out.push((ObjectId((i + 1) as u32), &self.items[i]));
            i = i + 1;
        }
        out
    }
}

} // verus!
