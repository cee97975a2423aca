//! The mutation coordinator's decisions: what the effects of an executed
//! transaction do to the cache.

use vstd::prelude::*;
use crate::backend::ClientError;
use crate::cache::{apply_refs, cached_in, CacheSlot, ObjectCache};
use crate::ids::{ObjectId, ObjectRef};

verus! {

/// Who owns an object.
#[derive(Clone, Copy, Debug, PartialEq, Eq)]
pub enum Owner {
    AddressOwner(ObjectId),
    ObjectOwner(ObjectId),
    Shared,
    Immutable,
}

/// The state a transaction left an object in, with its owner.
#[derive(Clone, Copy, Debug, PartialEq, Eq)]
pub struct OwnedObjectRef {
    pub owner: Owner,
    pub reference: ObjectRef,
}

/// What the ledger reports of an executed transaction, as far as the cache
/// is concerned.
#[derive(Clone, Debug, PartialEq, Eq)]
pub struct TransactionEffects {
    pub mutated: Vec<OwnedObjectRef>,
    pub deleted: Vec<ObjectRef>,
}

/// The references of the mutated objects, in order.
pub open spec fn mutated_refs(mutated: Seq<OwnedObjectRef>) -> Seq<ObjectRef> {
    Seq::new(mutated.len(), |i: int| mutated[i].reference)
}

/// Every change that the effects report: the mutated objects, then the
/// deleted ones.
pub open spec fn all_changes(effects: TransactionEffects) -> Seq<ObjectRef> {
    mutated_refs(effects.mutated@) + effects.deleted@
}

/// The plain references of all objects that the effects report as mutated
/// or deleted.
pub fn collect_changes(effects: &TransactionEffects) -> (r: Vec<ObjectRef>)
    ensures
        r@ == all_changes(*effects),
{
    let mut changes: Vec<ObjectRef> = Vec::new();
    let mut i: usize = 0;
    while i < effects.mutated.len()
        invariant
            i <= effects.mutated@.len(),
            changes@ == mutated_refs(effects.mutated@.take(i as int)),
        decreases effects.mutated@.len() - i,
    {
        changes.push(effects.mutated[i].reference);
        assert(changes@ =~= mutated_refs(effects.mutated@.take(i + 1)));
        i += 1;
    }
    assert(effects.mutated@.take(i as int) =~= effects.mutated@);
    let mut j: usize = 0;
    while j < effects.deleted.len()
        invariant
            j <= effects.deleted@.len(),
            changes@ == mutated_refs(effects.mutated@) + effects.deleted@.take(j as int),
        decreases effects.deleted@.len() - j,
    {
        changes.push(effects.deleted[j]);
        assert(changes@ =~= mutated_refs(effects.mutated@) + effects.deleted@.take(j + 1));
        j += 1;
    }
    assert(effects.deleted@.take(j as int) =~= effects.deleted@);
    changes
}

/// Settles a submission. Where the backend executed the transaction, every
/// object that its effects report as mutated or deleted is recorded in the
/// cache before the effects are handed on. Where it failed, the failure is
/// handed on as it came and the cache stays as it was.
pub fn settle_execution(
    cache: &mut ObjectCache,
    outcome: Result<TransactionEffects, ClientError>,
) -> (r: Result<TransactionEffects, ClientError>)
    requires
        old(cache).wf(),
    ensures
        final(cache).wf(),
        r == outcome,
        outcome is Ok ==> final(cache)@ == apply_refs(old(cache)@, all_changes(outcome.unwrap())),
        outcome is Err ==> final(cache)@ == old(cache)@,
{
    match outcome {
        Ok(effects) => {
            let changes = collect_changes(&effects);
            cache.put_refs(&changes);
            Ok(effects)
        },
        Err(e) => Err(e),
    }
}

/// Recording references never removes an entry, and leaves each object
/// named by a reference with a slot that holds a reference to it and no
/// content: the next read of it is not served from the cache.
pub proof fn lemma_refs_invalidate(m: Map<ObjectId, CacheSlot>, refs: Seq<ObjectRef>)
    ensures
        m.dom().subset_of(apply_refs(m, refs).dom()),
        forall|i: int|
            0 <= i < refs.len() ==> {
                &&& apply_refs(m, refs).dom().contains(#[trigger] refs[i].id)
                &&& apply_refs(m, refs)[refs[i].id] is Reference
                &&& apply_refs(m, refs)[refs[i].id]->Reference_0.id == refs[i].id
                &&& cached_in(apply_refs(m, refs), refs[i].id) is None
            },
    decreases refs.len(),
{
    if refs.len() > 0 {
        let front = refs.drop_last();
        lemma_refs_invalidate(m, front);
        assert forall|i: int| 0 <= i < refs.len() implies {
            &&& apply_refs(m, refs).dom().contains(#[trigger] refs[i].id)
            &&& apply_refs(m, refs)[refs[i].id] is Reference
            &&& apply_refs(m, refs)[refs[i].id]->Reference_0.id == refs[i].id
            &&& cached_in(apply_refs(m, refs), refs[i].id) is None
        } by {
            if i < refs.len() - 1 {
                assert(front[i] == refs[i]);
            }
        }
    }
}

/// Recording references leaves alone the entry of every object that none of
/// them names.
pub proof fn lemma_refs_leave_others(
    m: Map<ObjectId, CacheSlot>,
    refs: Seq<ObjectRef>,
    id: ObjectId,
)
    requires
        forall|i: int| 0 <= i < refs.len() ==> (#[trigger] refs[i]).id != id,
    ensures
        apply_refs(m, refs).dom().contains(id) == m.dom().contains(id),
        apply_refs(m, refs)[id] == m[id],
        cached_in(apply_refs(m, refs), id) == cached_in(m, id),
    decreases refs.len(),
{
    if refs.len() > 0 {
        let front = refs.drop_last();
        assert(refs[refs.len() - 1].id != id);
        assert forall|i: int| 0 <= i < front.len() implies (#[trigger] front[i]).id != id by {
            assert(front[i] == refs[i]);
        }
        lemma_refs_leave_others(m, front, id);
    }
}

/// Once an execution is settled, no object that its effects report as
/// mutated or deleted is served from the cache: the content held before
/// the transaction does not pass for the current state.
pub proof fn lemma_execution_invalidates(m: Map<ObjectId, CacheSlot>, effects: TransactionEffects)
    ensures
        forall|i: int|
            0 <= i < effects.mutated@.len() ==> cached_in(
                apply_refs(m, all_changes(effects)),
                (#[trigger] effects.mutated@[i]).reference.id,
            ) is None,
        forall|j: int|
            0 <= j < effects.deleted@.len() ==> cached_in(
                apply_refs(m, all_changes(effects)),
                (#[trigger] effects.deleted@[j]).id,
            ) is None,
{
    let changes = all_changes(effects);
    lemma_refs_invalidate(m, changes);
    assert forall|i: int| 0 <= i < effects.mutated@.len() implies cached_in(
        apply_refs(m, changes),
        (#[trigger] effects.mutated@[i]).reference.id,
    ) is None by {
        assert(changes[i] == effects.mutated@[i].reference);
    }
    assert forall|j: int| 0 <= j < effects.deleted@.len() implies cached_in(
        apply_refs(m, changes),
        (#[trigger] effects.deleted@[j]).id,
    ) is None by {
        assert(changes[effects.mutated@.len() + j] == effects.deleted@[j]);
    }
}

/// The last reference recorded for an object is the one that the cache
/// holds for it.
pub proof fn lemma_last_ref_wins(m: Map<ObjectId, CacheSlot>, refs: Seq<ObjectRef>)
    requires
        refs.len() > 0,
    ensures
        apply_refs(m, refs)[refs.last().id] == CacheSlot::Reference(refs.last()),
{
}

} // verus!
