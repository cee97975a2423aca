//! Object identifiers and exact object references.

use vstd::prelude::*;

verus! {

/// Number of bytes in an object identifier.
pub const OBJECT_ID_LENGTH: usize = 16;

/// Number of bytes in a content digest.
pub const DIGEST_LENGTH: usize = 32;

/// A fixed-size opaque identifier. Objects and packages share one
/// identifier space.
#[derive(Clone, Copy, Debug, PartialEq, Eq, Hash)]
pub struct ObjectId {
    pub bytes: [u8; 16],
}

impl ObjectId {
    /// The identifier made of the given bytes, where their number fits.
    pub fn from_slice(bytes: &[u8]) -> (r: Option<ObjectId>)
        ensures
            r.is_some() <==> bytes@.len() == OBJECT_ID_LENGTH,
            r.is_some() ==> r.unwrap().bytes@ == bytes@,
    {
        if bytes.len() != OBJECT_ID_LENGTH {
            return None;
        }
        let mut out: [u8; 16] = [0u8; 16];
        let mut i: usize = 0;
        while i < OBJECT_ID_LENGTH
            invariant
                i <= OBJECT_ID_LENGTH,
                bytes@.len() == OBJECT_ID_LENGTH,
                forall|k: int| 0 <= k < i ==> out@[k] == bytes@[k],
            decreases OBJECT_ID_LENGTH - i,
        {
            out[i] = bytes[i];
            i += 1;
        }
        assert(out@ =~= bytes@);
        Some(ObjectId { bytes: out })
    }

    /// Byte-wise equality of two identifiers.
    pub fn same(&self, other: &ObjectId) -> (r: bool)
        ensures
            r == (*self == *other),
    {
        let mut i: usize = 0;
        while i < OBJECT_ID_LENGTH
            invariant
                i <= OBJECT_ID_LENGTH,
                forall|k: int| 0 <= k < i ==> self.bytes@[k] == other.bytes@[k],
            decreases OBJECT_ID_LENGTH - i,
        {
            if self.bytes[i] != other.bytes[i] {
                return false;
            }
            i += 1;
        }
        assert(self.bytes@ =~= other.bytes@);
        assert(self.bytes =~= other.bytes);
        true
    }
}

/// Whether `id` is among `ids`.
pub fn contains_id(ids: &Vec<ObjectId>, id: &ObjectId) -> (r: bool)
    ensures
        r == ids@.contains(*id),
{
    let mut i: usize = 0;
    while i < ids.len()
        invariant
            i <= ids@.len(),
            forall|k: int| 0 <= k < i ==> ids@[k] != *id,
        decreases ids@.len() - i,
    {
        if ids[i].same(id) {
            return true;
        }
        i += 1;
    }
    false
}

/// The identifiers of a list with one more at its end are those of the list
/// and that one.
pub proof fn lemma_push_to_set(ids: Seq<ObjectId>, id: ObjectId)
    ensures
        ids.push(id).to_set() == ids.to_set().insert(id),
{
    let pushed = ids.push(id);
    assert(pushed[ids.len() as int] == id);
    assert forall|x: ObjectId| pushed.contains(x) <==> (ids.contains(x) || x == id) by {
        if pushed.contains(x) {
            let k = choose|k: int| 0 <= k < pushed.len() && pushed[k] == x;
            if k < ids.len() {
                assert(ids[k] == x);
            }
        }
        if ids.contains(x) {
            let k = choose|k: int| 0 <= k < ids.len() && ids[k] == x;
            assert(pushed[k] == x);
        }
    }
    assert(pushed.to_set() =~= ids.to_set().insert(id));
}

/// The exact historical state of an object: its identifier, its version and
/// the digest of its content. Two references are equal only where all three
/// agree.
#[derive(Clone, Copy, Debug, PartialEq, Eq, Hash)]
pub struct ObjectRef {
    pub id: ObjectId,
    pub version: u64,
    pub digest: [u8; 32],
}

} // verus!
