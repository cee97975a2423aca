//! What the traversal computes: the dependency closure of a set of seed
//! packages over a ledger of packages, and the proofs that the resolver's
//! steps arrive at it whatever the order of the worklist, and cannot go on
//! for ever.

use vstd::prelude::*;
use crate::backend::ClientError;
use crate::cache::{cached_in, CacheSlot, ObjectCache};
use crate::ids::{contains_id, lemma_push_to_set, ObjectId};
use crate::object::{struct_packages, Module, StructTag};
use crate::resolver::{handle_packages, names_valid, pending, self_packages, Resolver};

verus! {

/// The packages of a ledger: for each identifier that is a package, its
/// modules.
pub type Ledger = Map<ObjectId, Seq<Module>>;

/// Each module declares as its own the package that holds it.
pub open spec fn self_declaring(ledger: Ledger) -> bool {
    forall|id: ObjectId, i: int|
        ledger.dom().contains(id) && 0 <= i < ledger[id].len() ==> (
        #[trigger] ledger[id][i]).self_package == id
}

/// Every package holds a module.
pub open spec fn inhabited(ledger: Ledger) -> bool {
    forall|id: ObjectId| #[trigger] ledger.dom().contains(id) ==> ledger[id].len() > 0
}

/// Every package holds a module, and each module declares as its own the
/// package that holds it.
pub open spec fn faithful(ledger: Ledger) -> bool {
    self_declaring(ledger) && inhabited(ledger)
}

/// `x` is seen or waits in the worklist.
pub open spec fn reached(queue: Seq<ObjectId>, seen: Set<ObjectId>, x: ObjectId) -> bool {
    seen.contains(x) || queue.contains(x)
}

/// `s` holds the seeds, holds only packages, and holds with each package
/// those of all its modules' handles.
pub open spec fn closed(ledger: Ledger, seeds: Seq<ObjectId>, s: Set<ObjectId>) -> bool {
    &&& forall|i: int| 0 <= i < seeds.len() ==> s.contains(#[trigger] seeds[i])
    &&& forall|x: ObjectId| #[trigger] s.contains(x) ==> ledger.dom().contains(x)
    &&& forall|x: ObjectId, j: int|
        s.contains(x) && 0 <= j < handle_packages(ledger[x]).len() ==> s.contains(
            #[trigger] handle_packages(ledger[x])[j],
        )
}

/// `c` is the dependency closure of the seeds: the least closed set.
pub open spec fn is_closure(ledger: Ledger, seeds: Seq<ObjectId>, c: Set<ObjectId>) -> bool {
    &&& closed(ledger, seeds, c)
    &&& forall|s: Set<ObjectId>| #[trigger] closed(ledger, seeds, s) ==> c.subset_of(s)
}

/// Nothing that the closure lacks has been taken up: what is seen is a
/// package, and what is seen or waits in the worklist is in every closed set.
pub open spec fn sound(
    ledger: Ledger,
    seeds: Seq<ObjectId>,
    queue: Seq<ObjectId>,
    seen: Set<ObjectId>,
) -> bool {
    &&& forall|x: ObjectId| #[trigger] seen.contains(x) ==> ledger.dom().contains(x)
    &&& forall|s: Set<ObjectId>| #[trigger]
        closed(ledger, seeds, s) ==> seen.subset_of(s) && forall|i: int|
            0 <= i < queue.len() ==> s.contains(#[trigger] queue[i])
}

/// Nothing that the closure needs has been lost: every seed, and every
/// package of a handle of a package seen, is seen or waits in the worklist.
pub open spec fn thorough(
    ledger: Ledger,
    seeds: Seq<ObjectId>,
    queue: Seq<ObjectId>,
    seen: Set<ObjectId>,
) -> bool {
    &&& forall|i: int| 0 <= i < seeds.len() ==> reached(queue, seen, #[trigger] seeds[i])
    &&& forall|x: ObjectId, j: int|
        seen.contains(x) && 0 <= j < handle_packages(ledger[x]).len() ==> reached(
            queue,
            seen,
            #[trigger] handle_packages(ledger[x])[j],
        )
}

/// What holds of a traversal between two steps.
pub open spec fn traversal_inv(
    ledger: Ledger,
    seeds: Seq<ObjectId>,
    queue: Seq<ObjectId>,
    seen: Set<ObjectId>,
) -> bool {
    sound(ledger, seeds, queue, seen) && thorough(ledger, seeds, queue, seen)
}

/// Discarding seen identifiers from the end of the worklist leaves a prefix
/// of it; what was discarded is seen, and what is then at the end is not.
pub proof fn lemma_pending(queue: Seq<ObjectId>, seen: Set<ObjectId>)
    ensures
        pending(queue, seen).len() <= queue.len(),
        pending(queue, seen) == queue.take(pending(queue, seen).len() as int),
        forall|i: int| pending(queue, seen).len() <= i < queue.len() ==> seen.contains(#[trigger] queue[i]),
        pending(queue, seen).len() > 0 ==> !seen.contains(pending(queue, seen).last()),
    decreases queue.len(),
{
    if queue.len() == 0 {
        assert(queue.take(0) =~= queue);
    } else if seen.contains(queue.last()) {
        lemma_pending(queue.drop_last(), seen);
        let p = pending(queue, seen);
        assert(queue.drop_last().take(p.len() as int) =~= queue.take(p.len() as int));
        assert forall|i: int| p.len() <= i < queue.len() implies seen.contains(#[trigger] queue[i]) by {
            if i < queue.len() - 1 {
                assert(queue.drop_last()[i] == queue[i]);
            }
        }
    } else {
        assert(queue.take(queue.len() as int) =~= queue);
    }
}

/// Where modules declare the package that holds them, a package's modules
/// declare that package and no other.
pub proof fn lemma_declared_self(ledger: Ledger, id: ObjectId)
    requires
        self_declaring(ledger),
        ledger.dom().contains(id),
    ensures
        ledger[id].len() > 0 ==> self_packages(ledger[id]) == Set::<ObjectId>::empty().insert(id),
        ledger[id].len() == 0 ==> self_packages(ledger[id]) == Set::<ObjectId>::empty(),
{
    if ledger[id].len() > 0 {
        assert(ledger[id][0].self_package == id);
        assert(self_packages(ledger[id]) =~= Set::<ObjectId>::empty().insert(id));
    } else {
        assert(self_packages(ledger[id]) =~= Set::<ObjectId>::empty());
    }
}

/// One step takes up nothing that the closure lacks, in a ledger whose
/// modules declare the package that holds them.
pub proof fn lemma_sound_step(
    ledger: Ledger,
    seeds: Seq<ObjectId>,
    queue: Seq<ObjectId>,
    seen: Set<ObjectId>,
)
    requires
        self_declaring(ledger),
        sound(ledger, seeds, queue, seen),
        pending(queue, seen).len() > 0,
        ledger.dom().contains(pending(queue, seen).last()),
    ensures
        sound(
            ledger,
            seeds,
            pending(queue, seen).drop_last() + handle_packages(
                ledger[pending(queue, seen).last()],
            ),
            seen.union(self_packages(ledger[pending(queue, seen).last()])),
        ),
{
    let p = pending(queue, seen);
    let id = p.last();
    let hp = handle_packages(ledger[id]);
    let queue2 = p.drop_last() + hp;
    let seen2 = seen.union(self_packages(ledger[id]));
    lemma_pending(queue, seen);
    lemma_declared_self(ledger, id);
    assert(queue[p.len() - 1] == id);
    assert forall|s: Set<ObjectId>| #[trigger] closed(ledger, seeds, s) implies seen2.subset_of(s)
        && forall|i: int| 0 <= i < queue2.len() ==> s.contains(#[trigger] queue2[i]) by {
        assert(s.contains(queue[p.len() - 1]));
        assert forall|i: int| 0 <= i < queue2.len() implies s.contains(#[trigger] queue2[i]) by {
            if i < p.len() - 1 {
                assert(queue2[i] == queue[i]);
            } else {
                assert(queue2[i] == hp[i - (p.len() - 1)]);
            }
        }
    }
}

/// A traversal that starts with the seeds as its worklist and nothing seen
/// is in order.
pub proof fn lemma_traversal_starts(ledger: Ledger, seeds: Seq<ObjectId>)
    ensures
        traversal_inv(ledger, seeds, seeds, Set::<ObjectId>::empty()),
{
    assert forall|i: int| 0 <= i < seeds.len() implies reached(
        seeds,
        Set::<ObjectId>::empty(),
        #[trigger] seeds[i],
    ) by {
        assert(seeds.contains(seeds[i]));
    }
}

/// One step keeps the traversal in order: taking the next unseen package
/// `id` from the worklist and taking in its modules, in a faithful ledger
/// that holds `id`.
pub proof fn lemma_traversal_step(
    ledger: Ledger,
    seeds: Seq<ObjectId>,
    queue: Seq<ObjectId>,
    seen: Set<ObjectId>,
)
    requires
        faithful(ledger),
        traversal_inv(ledger, seeds, queue, seen),
        pending(queue, seen).len() > 0,
        ledger.dom().contains(pending(queue, seen).last()),
    ensures
        traversal_inv(
            ledger,
            seeds,
            pending(queue, seen).drop_last() + handle_packages(
                ledger[pending(queue, seen).last()],
            ),
            seen.union(self_packages(ledger[pending(queue, seen).last()])),
        ),
{
    let p = pending(queue, seen);
    let id = p.last();
    let hp = handle_packages(ledger[id]);
    let queue2 = p.drop_last() + hp;
    let seen2 = seen.union(self_packages(ledger[id]));
    lemma_pending(queue, seen);
    lemma_declared_self(ledger, id);
    lemma_sound_step(ledger, seeds, queue, seen);
    assert(queue[p.len() - 1] == id);
    assert forall|y: ObjectId| reached(queue, seen, y) implies reached(queue2, seen2, y) by {
        if !seen.contains(y) {
            let k = choose|k: int| 0 <= k < queue.len() && queue[k] == y;
            if k < p.len() - 1 {
                assert(queue2[k] == y);
            }
        }
    }
    assert forall|x: ObjectId, j: int|
        seen2.contains(x) && 0 <= j < handle_packages(ledger[x]).len() implies reached(
        queue2,
        seen2,
        #[trigger] handle_packages(ledger[x])[j],
    ) by {
        if x == id {
            assert(queue2[p.len() - 1 + j] == hp[j]);
        } else {
            assert(reached(queue, seen, handle_packages(ledger[x])[j]));
        }
    }
    assert forall|i: int| 0 <= i < seeds.len() implies reached(queue2, seen2, #[trigger] seeds[i]) by {
        assert(reached(queue, seen, seeds[i]));
    }
}

/// When the worklist has run out, the packages seen are the dependency
/// closure of the seeds.
pub proof fn lemma_traversal_complete(
    ledger: Ledger,
    seeds: Seq<ObjectId>,
    queue: Seq<ObjectId>,
    seen: Set<ObjectId>,
)
    requires
        traversal_inv(ledger, seeds, queue, seen),
        pending(queue, seen).len() == 0,
    ensures
        is_closure(ledger, seeds, seen),
{
    lemma_pending(queue, seen);
    assert forall|y: ObjectId| reached(queue, seen, y) implies seen.contains(y) by {
        if !seen.contains(y) {
            let k = choose|k: int| 0 <= k < queue.len() && queue[k] == y;
            assert(seen.contains(queue[k]));
        }
    }
    assert forall|i: int| 0 <= i < seeds.len() implies seen.contains(#[trigger] seeds[i]) by {
        assert(reached(queue, seen, seeds[i]));
    }
    assert forall|x: ObjectId, j: int|
        seen.contains(x) && 0 <= j < handle_packages(ledger[x]).len() implies seen.contains(
        #[trigger] handle_packages(ledger[x])[j],
    ) by {
        assert(reached(queue, seen, handle_packages(ledger[x])[j]));
    }
}

/// The closure does not depend on the order in which the worklist was
/// taken: two closures of the same seeds over the same ledger are one set.
pub proof fn lemma_closure_unique(
    ledger: Ledger,
    seeds: Seq<ObjectId>,
    a: Set<ObjectId>,
    b: Set<ObjectId>,
)
    requires
        is_closure(ledger, seeds, a),
        is_closure(ledger, seeds, b),
    ensures
        a == b,
{
    assert(a.subset_of(b));
    assert(b.subset_of(a));
    assert(a =~= b);
}

/// The packages of the ledger that the traversal has not seen.
pub open spec fn unseen(ledger: Ledger, seen: Set<ObjectId>) -> Set<ObjectId> {
    ledger.dom().difference(seen)
}

/// Every step brings the traversal nearer its end, cycles among the
/// packages or not: it takes one package out of the unseen ones of a finite
/// ledger, or, where the package holds no module, leaves them as they are
/// and shortens the worklist.
pub proof fn lemma_traversal_progress(ledger: Ledger, queue: Seq<ObjectId>, seen: Set<ObjectId>)
    requires
        self_declaring(ledger),
        ledger.dom().finite(),
        pending(queue, seen).len() > 0,
        ledger.dom().contains(pending(queue, seen).last()),
    ensures
        ledger[pending(queue, seen).last()].len() > 0 ==> unseen(
            ledger,
            seen.union(self_packages(ledger[pending(queue, seen).last()])),
        ).len() + 1 == unseen(ledger, seen).len(),
        ledger[pending(queue, seen).last()].len() == 0 ==> seen.union(
            self_packages(ledger[pending(queue, seen).last()]),
        ) == seen && (pending(queue, seen).drop_last() + handle_packages(
            ledger[pending(queue, seen).last()],
        )).len() < queue.len(),
{
    let id = pending(queue, seen).last();
    lemma_pending(queue, seen);
    lemma_declared_self(ledger, id);
    if ledger[id].len() > 0 {
        let before = unseen(ledger, seen);
        let after = unseen(ledger, seen.union(self_packages(ledger[id])));
        assert(before.contains(id));
        assert(after =~= before.remove(id));
        vstd::set_lib::lemma_len_difference(ledger.dom(), seen);
        assert(before.finite());
    } else {
        assert(seen.union(self_packages(ledger[id])) =~= seen);
        assert(handle_packages(ledger[id]).len() == 0);
    }
}

/// Whether the map serves, for `id`, a package whose modules all go by
/// identifiers.
pub open spec fn is_package_in(m: Map<ObjectId, CacheSlot>, id: ObjectId) -> bool {
    &&& cached_in(m, id) is Some
    &&& cached_in(m, id).unwrap().package() is Some
    &&& names_valid(cached_in(m, id).unwrap().package().unwrap().modules@)
}

/// The ledger of the packages that the map serves.
pub open spec fn packages_in(m: Map<ObjectId, CacheSlot>) -> Ledger {
    Map::new(
        |id: ObjectId| is_package_in(m, id),
        |id: ObjectId| cached_in(m, id).unwrap().package().unwrap().modules@,
    )
}

/// How a traversal over the objects that a cache holds ended.
#[derive(Debug, PartialEq, Eq)]
pub enum Traversal {
    /// The worklist ran out; these are the packages seen.
    Complete(Vec<ObjectId>),
    /// The traversal needs this object, and the cache does not serve it.
    Fetch(ObjectId),
}

/// Taking the identifier at position `k` out of the worklist, together
/// with all that follows it, and adding the handles of its package, takes up
/// nothing that the closure lacks; nor does cutting the worklist there.
pub proof fn lemma_visit_sound(
    ledger: Ledger,
    seeds: Seq<ObjectId>,
    queue: Seq<ObjectId>,
    visited: Set<ObjectId>,
    k: int,
)
    requires
        sound(ledger, seeds, queue, visited),
        0 <= k < queue.len(),
    ensures
        sound(ledger, seeds, queue.take(k), visited),
        ledger.dom().contains(queue[k]) ==> sound(
            ledger,
            seeds,
            queue.take(k) + handle_packages(ledger[queue[k]]),
            visited.insert(queue[k]),
        ),
{
    let id = queue[k];
    let hp = handle_packages(ledger[id]);
    let queue2 = queue.take(k) + hp;
    assert forall|s: Set<ObjectId>| #[trigger] closed(ledger, seeds, s) implies visited.subset_of(
        s,
    ) && (forall|i: int| 0 <= i < queue.take(k).len() ==> s.contains(#[trigger] queue.take(k)[i]))
        && (ledger.dom().contains(id) ==> visited.insert(id).subset_of(s) && forall|i: int|
        0 <= i < queue2.len() ==> s.contains(#[trigger] queue2[i])) by {
        assert(s.contains(queue[k]));
        assert forall|i: int| 0 <= i < queue.take(k).len() implies s.contains(
            #[trigger] queue.take(k)[i],
        ) by {
            assert(queue.take(k)[i] == queue[i]);
        }
        assert forall|i: int| 0 <= i < queue2.len() implies s.contains(#[trigger] queue2[i]) by {
            if i < k {
                assert(queue2[i] == queue[i]);
            } else {
                assert(queue2[i] == hp[i - k]);
            }
        }
    }
}

/// Visiting a package of a finite ledger for the first time leaves one
/// package fewer to visit.
pub proof fn lemma_visit_progress(ledger: Ledger, visited: Set<ObjectId>, id: ObjectId)
    requires
        ledger.dom().finite(),
        ledger.dom().contains(id),
        !visited.contains(id),
    ensures
        unseen(ledger, visited.insert(id)).len() + 1 == unseen(ledger, visited).len(),
{
    let before = unseen(ledger, visited);
    assert(before.contains(id));
    assert(unseen(ledger, visited.insert(id)) =~= before.remove(id));
    vstd::set_lib::lemma_len_difference(ledger.dom(), visited);
}

/// Traverses the dependencies of `root` over the objects that `cache`
/// serves, without going to a backend, and visits no package twice. The
/// traversal stops at the first object that it needs and the cache does not
/// serve, and names it; it fails at the first that is no package, or is a
/// package with a module whose name is no identifier. Where the type has a
/// closure among the packages served, none of these happens. A traversal
/// that ran to its end over a faithful ledger has seen exactly the closure;
/// over one whose modules declare the package that holds them, nothing
/// outside it.
pub fn resolve_closure(cache: &ObjectCache, root: &StructTag) -> (r: Result<Traversal, ClientError>)
    requires
        cache.wf(),
    ensures
        (exists|s: Set<ObjectId>| closed(packages_in(cache@), struct_packages(*root), s)) ==> r
            matches Ok(Traversal::Complete(_)),
        r matches Ok(Traversal::Complete(v)) ==> (faithful(packages_in(cache@)) ==> is_closure(
            packages_in(cache@),
            struct_packages(*root),
            v@.to_set(),
        )) && (self_declaring(packages_in(cache@)) ==> forall|s: Set<ObjectId>| #[trigger]
            closed(packages_in(cache@), struct_packages(*root), s) ==> v@.to_set().subset_of(s)),
        r matches Ok(Traversal::Fetch(x)) ==> cache.cached(x) is None,
        r matches Err(e) ==> match e {
            ClientError::InternalInvariantViolation(x) => cache.cached(x) is Some && cache.cached(
                x,
            ).unwrap().package() is None,
            ClientError::DecodeError(x) => cache.cached(x) is Some && cache.cached(
                x,
            ).unwrap().package() is Some && !names_valid(
                cache.cached(x).unwrap().package().unwrap().modules@,
            ),
            _ => false,
        },
{
    let ghost ledger = packages_in(cache@);
    let ghost seeds = struct_packages(*root);
    let mut resolver = Resolver::new(root);
    let mut visited: Vec<ObjectId> = Vec::new();
    proof {
        lemma_traversal_starts(ledger, seeds);
        cache.lemma_finite();
        vstd::set_lib::lemma_len_subset(ledger.dom(), cache@.dom());
        assert(visited@.to_set() =~= Set::<ObjectId>::empty());
    }
    loop
        invariant
            cache.wf(),
            ledger == packages_in(cache@),
            seeds == struct_packages(*root),
            ledger.dom().finite(),
            sound(ledger, seeds, resolver.queue(), visited@.to_set()),
            self_declaring(ledger) ==> resolver.seen().subset_of(visited@.to_set()),
            faithful(ledger) ==> resolver.seen() == visited@.to_set() && thorough(
                ledger,
                seeds,
                resolver.queue(),
                resolver.seen(),
            ),
        decreases unseen(ledger, visited@.to_set()).len(), resolver.queue().len(),
    {
        let ghost queue = resolver.queue();
        let ghost seen = resolver.seen();
        let ghost earlier = visited@;
        let ghost before = visited@.to_set();
        let ghost p = pending(queue, seen);
        proof {
            lemma_pending(queue, seen);
        }
        let cur = match resolver.next() {
            Some(cur) => cur,
            None => {
                proof {
                    if faithful(ledger) {
                        lemma_traversal_complete(ledger, seeds, queue, seen);
                    }
                }
                return Ok(Traversal::Complete(resolver.into_closure()));
            },
        };
        proof {
            assert(queue[p.len() - 1] == cur);
            assert(p.drop_last() =~= queue.take(p.len() - 1));
            lemma_visit_sound(ledger, seeds, queue, before, p.len() - 1);
            assert forall|s: Set<ObjectId>| #[trigger] closed(ledger, seeds, s) implies s.contains(
                cur,
            ) && is_package_in(cache@, cur) by {
                assert(s.contains(queue[p.len() - 1]));
                assert(ledger.dom().contains(cur));
            }
        }
        if !contains_id(&visited, &cur) {
            let object = match cache.get(&cur) {
                Some(object) => object,
                None => {
                    return Ok(Traversal::Fetch(cur));
                },
            };
            match resolver.absorb(cur, object) {
                Err(e) => {
                    return Err(e);
                },
                Ok(()) => {
                    visited.push(cur);
                    proof {
                        assert(is_package_in(cache@, cur));
                        assert(ledger.dom().contains(cur));
                        assert(ledger[cur] == object.package().unwrap().modules@);
                        lemma_push_to_set(earlier, cur);
                        lemma_visit_progress(ledger, before, cur);
                        if self_declaring(ledger) {
                            lemma_declared_self(ledger, cur);
                        }
                        if faithful(ledger) {
                            lemma_traversal_step(ledger, seeds, queue, seen);
                        }
                    }
                },
            }
        }
    }
}

} // verus!
