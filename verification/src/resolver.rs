//! The dependency resolver: a worklist traversal of the package dependency
//! graph. The resolver decides which package to load next and what a loaded
//! package adds to the traversal; loading itself is the caller's part.

use vstd::prelude::*;
use crate::backend::ClientError;
use crate::identifier::{is_valid_identifier, valid_identifier};
use crate::ids::{contains_id, lemma_push_to_set, ObjectId};
use crate::object::{struct_packages, Module, RawObject, StructTag, seed_packages};

verus! {

/// What is left of the worklist `queue` once the identifiers already in
/// `seen` have been discarded from its end.
pub open spec fn pending(queue: Seq<ObjectId>, seen: Set<ObjectId>) -> Seq<ObjectId>
    decreases queue.len(),
{
    if queue.len() == 0 {
        queue
    } else if seen.contains(queue.last()) {
        pending(queue.drop_last(), seen)
    } else {
        queue
    }
}

/// The packages that the modules declare as their own.
pub open spec fn self_packages(modules: Seq<Module>) -> Set<ObjectId> {
    Set::new(
        |id: ObjectId| exists|i: int| 0 <= i < modules.len() && #[trigger] modules[i].self_package == id,
    )
}

/// The packages of the module handles of all the modules, module by module
/// and in table order.
pub open spec fn handle_packages(modules: Seq<Module>) -> Seq<ObjectId>
    decreases modules.len(),
{
    if modules.len() == 0 {
        Seq::empty()
    } else {
        handle_packages(modules.drop_last()) + modules.last().handle_packages@
    }
}

/// Every module goes by a name that is an identifier.
pub open spec fn names_valid(modules: Seq<Module>) -> bool {
    forall|i: int| 0 <= i < modules.len() ==> valid_identifier((#[trigger] modules[i]).name@)
}

/// Whether every module goes by a name that is an identifier.
pub fn has_valid_names(modules: &Vec<Module>) -> (r: bool)
    ensures
        r == names_valid(modules@),
{
    let mut i: usize = 0;
    while i < modules.len()
        invariant
            i <= modules@.len(),
            forall|k: int| 0 <= k < i ==> valid_identifier((#[trigger] modules@[k]).name@),
        decreases modules@.len() - i,
    {
        if !is_valid_identifier(modules[i].name.as_str()) {
            return false;
        }
        i += 1;
    }
    true
}

/// The state of one traversal: the worklist, taken from its end, and the set
/// of packages seen.
#[derive(Debug)]
pub struct Resolver {
    queue: Vec<ObjectId>,
    seen: Vec<ObjectId>,
}

impl Resolver {
    /// The worklist, its end being the next to be taken.
    pub closed spec fn queue(&self) -> Seq<ObjectId> {
        self.queue@
    }

    /// The packages seen so far.
    pub closed spec fn seen(&self) -> Set<ObjectId> {
        self.seen@.to_set()
    }

    /// A traversal seeded with the packages that `root` draws on; nothing is
    /// seen yet.
    pub fn new(root: &StructTag) -> (r: Resolver)
        ensures
            r.queue() == struct_packages(*root),
            r.seen() == Set::<ObjectId>::empty(),
    {
        let r = Resolver { queue: seed_packages(root), seen: Vec::new() };
        assert(r.seen@.to_set() =~= Set::<ObjectId>::empty());
        r
    }

    /// Takes identifiers from the end of the worklist until one comes that
    /// has not been seen, and returns it: the package to load next. Returns
    /// `None` when the worklist runs out: the traversal is complete.
    pub fn next(&mut self) -> (r: Option<ObjectId>)
        ensures
            final(self).seen() == old(self).seen(),
            pending(old(self).queue(), old(self).seen()).len() == 0 ==> r is None
                && final(self).queue() == Seq::<ObjectId>::empty(),
            pending(old(self).queue(), old(self).seen()).len() > 0 ==> r == Some(
                pending(old(self).queue(), old(self).seen()).last(),
            ) && final(self).queue() == pending(old(self).queue(), old(self).seen()).drop_last(),
    {
        loop
            invariant
                self.seen == old(self).seen,
                pending(self.queue@, self.seen@.to_set()) == pending(
                    old(self).queue@,
                    old(self).seen@.to_set(),
                ),
            decreases self.queue@.len(),
        {
            let ghost before = self.queue@;
            match self.queue.pop() {
                None => {
                    assert(self.queue@ =~= Seq::<ObjectId>::empty());
                    return None;
                },
                Some(cur) => {
                    if !contains_id(&self.seen, &cur) {
                        assert(pending(before, self.seen@.to_set()) == before);
                        return Some(cur);
                    }
                },
            }
        }
    }

    /// Takes in the object loaded for `id`. A package marks as seen the
    /// package that each of its modules declares as its own, and adds the
    /// packages of all their module handles to the worklist. A package with
    /// a module whose name is no identifier is malformed, and anything that
    /// is no package has led the traversal astray: either way the traversal
    /// stays as it was.
    pub fn absorb(&mut self, id: ObjectId, object: &RawObject) -> (r: Result<(), ClientError>)
        ensures
            object.package() is Some && names_valid(object.package().unwrap().modules@) ==> r is Ok
                && final(self).seen() == old(self).seen().union(
                self_packages(object.package().unwrap().modules@),
            ) && final(self).queue() == old(self).queue() + handle_packages(
                object.package().unwrap().modules@,
            ),
            object.package() is Some && !names_valid(object.package().unwrap().modules@) ==> r
                == Err::<(), ClientError>(ClientError::DecodeError(id)),
            object.package() is None ==> r == Err::<(), ClientError>(
                ClientError::InternalInvariantViolation(id),
            ),
            r is Err ==> final(self).seen() == old(self).seen(),
            r is Err ==> final(self).queue() == old(self).queue(),
    {
        let package = match object.as_package() {
            Some(p) => p,
            None => {
                return Err(ClientError::InternalInvariantViolation(id));
            },
        };
        if !has_valid_names(&package.modules) {
            return Err(ClientError::DecodeError(id));
        }
        let mut m: usize = 0;
        while m < package.modules.len()
            invariant
                m <= package.modules@.len(),
                self.seen@.to_set() == old(self).seen@.to_set().union(
                    self_packages(package.modules@.take(m as int)),
                ),
                self.queue@ == old(self).queue@ + handle_packages(package.modules@.take(m as int)),
            decreases package.modules@.len() - m,
        {
            let module = &package.modules[m];
            let ghost seen_before = self.seen@;
            let ghost queue_before = self.queue@;
            if !contains_id(&self.seen, &module.self_package) {
                self.seen.push(module.self_package);
                proof {
                    lemma_push_to_set(seen_before, module.self_package);
                }
            }
            assert(self.seen@.to_set() =~= seen_before.to_set().insert(module.self_package));
            let mut h: usize = 0;
            while h < module.handle_packages.len()
                invariant
                    h <= module.handle_packages@.len(),
                    self.queue@ == queue_before + module.handle_packages@.take(h as int),
                    self.seen@.to_set() == seen_before.to_set().insert(module.self_package),
                decreases module.handle_packages@.len() - h,
            {
                self.queue.push(module.handle_packages[h]);
                assert(module.handle_packages@.take(h + 1) =~= module.handle_packages@.take(
                    h as int,
                ).push(module.handle_packages@[h as int]));
                h += 1;
            }
            proof {
                let before = package.modules@.take(m as int);
                let after = package.modules@.take(m + 1);
                assert(after.drop_last() =~= before);
                assert(after.last() == *module);
                assert(module.handle_packages@.take(h as int) =~= module.handle_packages@);
                assert(self.queue@ =~= old(self).queue@ + handle_packages(after));
                assert forall|x: ObjectId|
                    self_packages(after).contains(x) <==> (self_packages(before).contains(x) || x
                        == module.self_package) by {
                    if self_packages(after).contains(x) {
                        let i = choose|i: int|
                            0 <= i < after.len() && #[trigger] after[i].self_package == x;
                        if i < m {
                            assert(before[i].self_package == x);
                        }
                    }
                    if self_packages(before).contains(x) {
                        let i = choose|i: int|
                            0 <= i < before.len() && #[trigger] before[i].self_package == x;
                        assert(after[i].self_package == x);
                    }
                    if x == module.self_package {
                        assert(after[m as int].self_package == x);
                    }
                }
                assert(self.seen@.to_set() =~= old(self).seen@.to_set().union(
                    self_packages(after),
                ));
            }
            m += 1;
        }
        assert(package.modules@.take(m as int) =~= package.modules@);
        Ok(())
    }

    /// Whether `id` has been seen.
    pub fn has_seen(&self, id: &ObjectId) -> (r: bool)
        ensures
            r == self.seen().contains(*id),
    {
        contains_id(&self.seen, id)
    }

    /// The packages seen: the closure, once the traversal is complete.
    pub fn into_closure(self) -> (r: Vec<ObjectId>)
        ensures
            r@.to_set() == self.seen(),
    {
        self.seen
    }
}

} // verus!
