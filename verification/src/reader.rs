//! The read accessor's decisions: what a backend's answer does to the
//! cache, and what typed view an object gets.

use vstd::prelude::*;
use crate::backend::ClientError;
use crate::cache::{cached_in, CacheSlot, ObjectCache};
use crate::ids::{contains_id, ObjectId};
use crate::object::{struct_packages, seed_packages, RawObject, StructTag};

verus! {

/// What came of asking a backend for an object.
#[derive(Debug)]
pub enum Fetched {
    /// The backend's answer.
    Object(RawObject),
    /// The backend answered, and the answer could not be decoded.
    Malformed,
    /// The backend could not be reached.
    Unavailable,
}

/// The shape of one value inside a typed value.
#[derive(Debug, PartialEq, Eq)]
pub enum TypeLayout {
    Bool,
    U8,
    U64,
    U128,
    Address,
    Signer,
    Vector(Box<TypeLayout>),
    Struct(Layout),
}

/// One field of a struct: its name and the shape of its value.
#[derive(Debug, PartialEq, Eq)]
pub struct FieldLayout {
    pub name: String,
    pub layout: TypeLayout,
}

/// The field-level shape of a struct, by which its serialized contents are
/// read. A layout is built from the modules of a closure by a decoder of
/// module bytecode, which is not part of this library.
#[derive(Debug, PartialEq, Eq)]
pub struct Layout {
    pub fields: Vec<FieldLayout>,
}

/// An object with its layout; the layout is there for typed values only.
#[derive(Debug, PartialEq, Eq)]
pub struct TypedObject {
    pub object: RawObject,
    pub layout: Option<Layout>,
}

/// The cache after the backend has answered a read of `id` with `object`:
/// the answer overwrites the entry of `id`, unless it says that there is no
/// such object, which leaves no trace.
pub open spec fn after_fetch(m: Map<ObjectId, CacheSlot>, id: ObjectId, object: RawObject) -> Map<
    ObjectId,
    CacheSlot,
> {
    if object is NotExists {
        m
    } else {
        m.insert(id, CacheSlot::Content(object))
    }
}

/// The first of `packages` that `closure` lacks.
pub open spec fn first_missing(packages: Seq<ObjectId>, closure: Set<ObjectId>) -> Option<
    ObjectId,
>
    decreases packages.len(),
{
    if packages.len() == 0 {
        None
    } else if !closure.contains(packages.first()) {
        Some(packages.first())
    } else {
        first_missing(packages.drop_first(), closure)
    }
}

/// Settles a read of `id` that missed the cache. A failure of the backend
/// or of decoding is reported and leaves the cache as it was. An answer
/// that there is no such object is handed back and not cached. Any other
/// answer is moved into the cache, from where the read is then served, and
/// `None` is returned.
pub fn record_fetched(cache: &mut ObjectCache, id: ObjectId, fetched: Fetched) -> (r: Result<
    Option<RawObject>,
    ClientError,
>)
    requires
        old(cache).wf(),
    ensures
        final(cache).wf(),
        fetched is Unavailable ==> r == Err::<Option<RawObject>, ClientError>(
            ClientError::BackendUnavailable,
        ) && final(cache)@ == old(cache)@,
        fetched is Malformed ==> r == Err::<Option<RawObject>, ClientError>(
            ClientError::DecodeError(id),
        ) && final(cache)@ == old(cache)@,
        fetched is Object ==> final(cache)@ == after_fetch(old(cache)@, id, fetched->Object_0),
        fetched is Object && fetched->Object_0 is NotExists ==> r == Ok::<
            Option<RawObject>,
            ClientError,
        >(Some(fetched->Object_0)),
        fetched is Object && !(fetched->Object_0 is NotExists) ==> r == Ok::<
            Option<RawObject>,
            ClientError,
        >(None) && final(cache).cached(id) == Some(fetched->Object_0),
{
    match fetched {
        Fetched::Unavailable => Err(ClientError::BackendUnavailable),
        Fetched::Malformed => Err(ClientError::DecodeError(id)),
        Fetched::Object(object) => {
            if object.is_missing() {
                Ok(Some(object))
            } else {
                cache.put(id, object);
                Ok(None)
            }
        },
    }
}

/// The first package that `type_` draws on and `closure` lacks, if there
/// is one: with it missing, no layout can be built.
pub fn missing_package(type_: &StructTag, closure: &Vec<ObjectId>) -> (r: Option<ObjectId>)
    ensures
        r == first_missing(struct_packages(*type_), closure@.to_set()),
{
    let packages = seed_packages(type_);
    let mut i: usize = 0;
    assert(packages@.skip(0) =~= packages@);
    while i < packages.len()
        invariant
            i <= packages@.len(),
            packages@ == struct_packages(*type_),
            first_missing(packages@.skip(i as int), closure@.to_set()) == first_missing(
                packages@,
                closure@.to_set(),
            ),
        decreases packages@.len() - i,
    {
        proof {
            assert(packages@.skip(i as int).drop_first() =~= packages@.skip(i + 1));
            assert(packages@.skip(i as int).first() == packages@[i as int]);
        }
        if !contains_id(closure, &packages[i]) {
            return Some(packages[i]);
        }
        i += 1;
    }
    assert(packages@.skip(i as int).len() == 0);
    None
}

/// The layout of the value `id` of type `type_` over the packages of
/// `closure`, given what the bytecode decoder built from them: `None` where
/// it could build nothing. Fails with the first package that the type draws
/// on and the closure lacks, whatever was built; with a complete closure and
/// nothing built, the modules could not be decoded.
pub fn compute_layout(
    id: ObjectId,
    type_: &StructTag,
    closure: &Vec<ObjectId>,
    built: Option<Layout>,
) -> (r: Result<Layout, ClientError>)
    ensures
        first_missing(struct_packages(*type_), closure@.to_set()) is Some ==> r == Err::<
            Layout,
            ClientError,
        >(
            ClientError::MissingModule(
                first_missing(struct_packages(*type_), closure@.to_set()).unwrap(),
            ),
        ),
        first_missing(struct_packages(*type_), closure@.to_set()) is None && built is None ==> r
            == Err::<Layout, ClientError>(ClientError::DecodeError(id)),
        first_missing(struct_packages(*type_), closure@.to_set()) is None && built is Some ==> r
            == Ok::<Layout, ClientError>(built.unwrap()),
{
    match missing_package(type_, closure) {
        Some(package) => Err(ClientError::MissingModule(package)),
        None => match built {
            Some(layout) => Ok(layout),
            None => Err(ClientError::DecodeError(id)),
        },
    }
}

/// The typed view of the object read under `id`. A typed value gets the
/// layout that `compute_layout` gives for its type, `closure` and `built`,
/// or its error. A package, a deleted object and one that does not exist
/// have no layout, whatever the closure and whatever was built.
pub fn parse_object(
    id: ObjectId,
    object: RawObject,
    closure: &Vec<ObjectId>,
    built: Option<Layout>,
) -> (r: Result<TypedObject, ClientError>)
    ensures
        object.move_type() is None ==> r == Ok::<TypedObject, ClientError>(
            (TypedObject { object, layout: None }),
        ),
        object.move_type() is Some && first_missing(
            struct_packages(object.move_type().unwrap()),
            closure@.to_set(),
        ) is Some ==> r == Err::<TypedObject, ClientError>(
            ClientError::MissingModule(
                first_missing(
                    struct_packages(object.move_type().unwrap()),
                    closure@.to_set(),
                ).unwrap(),
            ),
        ),
        object.move_type() is Some && first_missing(
            struct_packages(object.move_type().unwrap()),
            closure@.to_set(),
        ) is None && built is None ==> r == Err::<TypedObject, ClientError>(
            ClientError::DecodeError(id),
        ),
        object.move_type() is Some && first_missing(
            struct_packages(object.move_type().unwrap()),
            closure@.to_set(),
        ) is None && built is Some ==> r == Ok::<TypedObject, ClientError>(
            (TypedObject { object, layout: built }),
        ),
{
    let computed = match object.as_move_type() {
        Some(type_) => Some(compute_layout(id, type_, closure, built)),
        None => None,
    };
    match computed {
        None => Ok(TypedObject { object, layout: None }),
        Some(Ok(layout)) => Ok(TypedObject { object, layout: Some(layout) }),
        Some(Err(e)) => Err(e),
    }
}

/// A read that follows a fetch of the same object is served from the cache,
/// with the very object that was fetched, and reads of other objects are
/// served as before.
pub proof fn lemma_fetched_is_served(m: Map<ObjectId, CacheSlot>, id: ObjectId, object: RawObject)
    requires
        !(object is NotExists),
    ensures
        cached_in(after_fetch(m, id, object), id) == Some(object),
        forall|other: ObjectId|
            other != id ==> cached_in(after_fetch(m, id, object), other) == cached_in(m, other),
{
}

/// An answer that there is no such object leaves the cache without an entry
/// for it: whatever is read later under that identifier comes from the
/// backend.
pub proof fn lemma_missing_leaves_no_entry(
    m: Map<ObjectId, CacheSlot>,
    id: ObjectId,
    object: RawObject,
)
    requires
        object is NotExists,
    ensures
        after_fetch(m, id, object) == m,
        !m.dom().contains(id) ==> !after_fetch(m, id, object).dom().contains(id),
{
}

} // verus!
