//! The object cache: the last known state of each object, by identifier.
//! Entries are overwritten, never removed.

use vstd::prelude::*;
use crate::ids::{ObjectId, ObjectRef};
use crate::object::RawObject;

verus! {

/// What the cache knows of one object.
#[derive(Debug, PartialEq, Eq)]
pub enum CacheSlot {
    /// The object as a backend last reported it.
    Content(RawObject),
    /// Only the state that a transaction left the object in: whatever
    /// content was held before is out of date, and a read must go to the
    /// backend.
    Reference(ObjectRef),
}

/// One entry of the cache.
#[derive(Debug)]
pub struct CacheEntry {
    pub id: ObjectId,
    pub slot: CacheSlot,
}

/// The cache. Its model is the map from identifier to slot.
#[derive(Debug)]
pub struct ObjectCache {
    entries: Vec<CacheEntry>,
}

/// Whether some entry of `entries` is for `id`.
pub open spec fn holds(entries: Seq<CacheEntry>, id: ObjectId) -> bool {
    exists|i: int| 0 <= i < entries.len() && #[trigger] entries[i].id == id
}

/// The position of an entry for `id`.
pub open spec fn position(entries: Seq<CacheEntry>, id: ObjectId) -> int {
    choose|i: int| 0 <= i < entries.len() && #[trigger] entries[i].id == id
}

/// No two entries are for the same identifier.
pub open spec fn distinct(entries: Seq<CacheEntry>) -> bool {
    forall|i: int, j: int|
        0 <= i < j < entries.len() ==> #[trigger] entries[i].id != #[trigger] entries[j].id
}

/// The object that a read of `id` is served from the map `m`: the content
/// held for it, if content is held.
pub open spec fn cached_in(m: Map<ObjectId, CacheSlot>, id: ObjectId) -> Option<RawObject> {
    if m.dom().contains(id) {
        match m[id] {
            CacheSlot::Content(o) => Some(o),
            CacheSlot::Reference(_) => None,
        }
    } else {
        None
    }
}

/// The map after each reference of `refs`, first to last, has overwritten
/// the slot of its object.
pub open spec fn apply_refs(m: Map<ObjectId, CacheSlot>, refs: Seq<ObjectRef>) -> Map<
    ObjectId,
    CacheSlot,
>
    decreases refs.len(),
{
    if refs.len() == 0 {
        m
    } else {
        apply_refs(m, refs.drop_last()).insert(refs.last().id, CacheSlot::Reference(refs.last()))
    }
}

impl ObjectCache {
    /// The entries are for distinct identifiers.
    pub closed spec fn wf(&self) -> bool {
        distinct(self.entries@)
    }

    /// The cache as a map.
    pub closed spec fn view(&self) -> Map<ObjectId, CacheSlot> {
        Map::new(
            |id: ObjectId| holds(self.entries@, id),
            |id: ObjectId| self.entries@[position(self.entries@, id)].slot,
        )
    }

    /// The object that a read of `id` is served, if any.
    pub open spec fn cached(&self, id: ObjectId) -> Option<RawObject> {
        cached_in(self@, id)
    }

    /// The cache has finitely many entries.
    pub proof fn lemma_finite(&self)
        ensures
            self@.dom().finite(),
    {
        let ids = Seq::new(self.entries@.len(), |i: int| self.entries@[i].id);
        vstd::seq_lib::seq_to_set_is_finite(ids);
        assert forall|id: ObjectId| self@.dom().contains(id) <==> ids.to_set().contains(id) by {
            if self@.dom().contains(id) {
                let k = position(self.entries@, id);
                assert(ids[k] == id);
            }
            if ids.to_set().contains(id) {
                let k = choose|k: int| 0 <= k < ids.len() && ids[k] == id;
                assert(self.entries@[k].id == id);
            }
        }
        assert(self@.dom() =~= ids.to_set());
    }

    /// An empty cache.
    pub fn new() -> (r: ObjectCache)
        ensures
            r.wf(),
            r@ == Map::<ObjectId, CacheSlot>::empty(),
    {
        let r = ObjectCache { entries: Vec::new() };
        assert(r@ =~= Map::<ObjectId, CacheSlot>::empty());
        r
    }

    fn find(&self, id: &ObjectId) -> (r: Option<usize>)
        ensures
            r is Some ==> r.unwrap() < self.entries@.len() && self.entries@[r.unwrap() as int].id
                == *id,
            r is None ==> !holds(self.entries@, *id),
    {
        let mut i: usize = 0;
        while i < self.entries.len()
            invariant
                i <= self.entries@.len(),
                forall|k: int| 0 <= k < i ==> self.entries@[k].id != *id,
            decreases self.entries@.len() - i,
        {
            if self.entries[i].id.same(id) {
                return Some(i);
            }
            i += 1;
        }
        None
    }

    /// Whether the cache has an entry for `id`, with content or without.
    pub fn contains(&self, id: &ObjectId) -> (r: bool)
        requires
            self.wf(),
        ensures
            r == self@.dom().contains(*id),
    {
        self.find(id).is_some()
    }

    /// Pure lookup: the content held for `id`, if content is held.
    pub fn get(&self, id: &ObjectId) -> (r: Option<&RawObject>)
        requires
            self.wf(),
        ensures
            r is Some <==> self.cached(*id) is Some,
            r is Some ==> *r.unwrap() == self.cached(*id).unwrap(),
    {
        match self.find(id) {
            Some(i) => {
                assert(position(self.entries@, *id) == i as int);
                match &self.entries[i].slot {
                    CacheSlot::Content(o) => Some(o),
                    CacheSlot::Reference(_) => None,
                }
            },
            None => None,
        }
    }

    fn store(&mut self, id: ObjectId, slot: CacheSlot)
        requires
            old(self).wf(),
        ensures
            final(self).wf(),
            final(self)@ == old(self)@.insert(id, slot),
    {
        let found = self.find(&id);
        let entry = CacheEntry { id, slot };
        match found {
            Some(i) => {
                self.entries.set(i, entry);
                assert(self.entries@[i as int].id == id);
            },
            None => {
                self.entries.push(entry);
                assert(self.entries@[self.entries@.len() - 1].id == id);
            },
        }
        assert(distinct(self.entries@));
        assert forall|x: ObjectId| holds(self.entries@, x) <==> (x == id || holds(
            old(self).entries@,
            x,
        )) by {
            if holds(self.entries@, x) && x != id {
                let k = position(self.entries@, x);
                assert(old(self).entries@[k].id == x);
            }
            if holds(old(self).entries@, x) {
                let k = position(old(self).entries@, x);
                assert(self.entries@[k].id == x);
            }
        }
        assert forall|x: ObjectId| holds(self.entries@, x) implies self.entries@[position(
            self.entries@,
            x,
        )].slot == old(self)@.insert(id, slot)[x] by {
            let k = position(self.entries@, x);
            if x != id {
                assert(old(self).entries@[k].id == x);
                assert(position(old(self).entries@, x) == k);
            }
        }
        assert(self@ =~= old(self)@.insert(id, slot));
    }

    /// Overwrites the entry of `id` with the content `object`.
    pub fn put(&mut self, id: ObjectId, object: RawObject)
        requires
            old(self).wf(),
        ensures
            final(self).wf(),
            final(self)@ == old(self)@.insert(id, CacheSlot::Content(object)),
    {
        self.store(id, CacheSlot::Content(object));
    }

    /// Records the states that a transaction left objects in. Each
    /// reference overwrites the entry of its object, content included, so
    /// that the next read of that object goes to the backend.
    pub fn put_refs(&mut self, refs: &Vec<ObjectRef>)
        requires
            old(self).wf(),
        ensures
            final(self).wf(),
            final(self)@ == apply_refs(old(self)@, refs@),
    {
        let mut i: usize = 0;
        while i < refs.len()
            invariant
                i <= refs@.len(),
                self.wf(),
                self@ == apply_refs(old(self)@, refs@.take(i as int)),
            decreases refs@.len() - i,
        {
            assert(refs@.take(i + 1).drop_last() =~= refs@.take(i as int));
            self.store(refs[i].id, CacheSlot::Reference(refs[i]));
            i += 1;
        }
        assert(refs@.take(i as int) =~= refs@);
    }
}

} // verus!
