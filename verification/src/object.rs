//! The data model: type tags, packages and their modules, and the raw
//! representation of an object as a ledger backend reports it.

use vstd::prelude::*;
use crate::ids::{ObjectId, ObjectRef};

verus! {

/// A structural description of a value's type.
#[derive(Debug, PartialEq, Eq)]
pub enum TypeTag {
    Bool,
    U8,
    U64,
    U128,
    Address,
    Signer,
    Vector(Box<TypeTag>),
    Struct(StructTag),
}

/// A struct type: the package and module that declare it, its name and its
/// type arguments.
#[derive(Debug, PartialEq, Eq)]
pub struct StructTag {
    pub address: ObjectId,
    pub module: String,
    pub name: String,
    pub type_params: Vec<TypeTag>,
}

/// What the resolver reads of one decoded module: the package that the
/// module declares as its own, and the package of every entry of its module
/// handle table, in table order.
#[derive(Clone, Debug, PartialEq, Eq)]
pub struct Module {
    pub name: String,
    pub self_package: ObjectId,
    pub handle_packages: Vec<ObjectId>,
}

/// An immutable bundle of modules.
#[derive(Clone, Debug, PartialEq, Eq)]
pub struct Package {
    pub modules: Vec<Module>,
}

/// A typed value: its declared type and its serialized contents.
#[derive(Debug, PartialEq, Eq)]
pub struct MoveObject {
    pub type_: StructTag,
    pub contents: Vec<u8>,
}

/// The contents of an object that exists.
#[derive(Debug, PartialEq, Eq)]
pub enum ObjectData {
    Move(MoveObject),
    Package(Package),
}

/// An existing object: the exact state it is in, and its contents.
#[derive(Debug, PartialEq, Eq)]
pub struct ObjectContent {
    pub reference: ObjectRef,
    pub data: ObjectData,
}

/// The raw representation of an object.
#[derive(Debug, PartialEq, Eq)]
pub enum RawObject {
    Exists(ObjectContent),
    NotExists(ObjectId),
    Deleted(ObjectRef),
}

/// The declaring packages of every struct in `t`, outermost first, type
/// arguments left to right.
pub open spec fn type_packages(t: TypeTag) -> Seq<ObjectId>
    decreases t, 0nat,
{
    match t {
        TypeTag::Vector(inner) => type_packages(*inner),
        TypeTag::Struct(s) => seq![s.address] + params_packages(s.type_params, s.type_params@.len()),
        _ => Seq::empty(),
    }
}

/// The declaring packages of the first `n` tags of `params`, in order.
pub open spec fn params_packages(params: Vec<TypeTag>, n: nat) -> Seq<ObjectId>
    decreases params, n,
{
    if n == 0 || n > params@.len() {
        Seq::empty()
    } else {
        params_packages(params, (n - 1) as nat) + type_packages(params@[n - 1])
    }
}

/// The packages that a struct type draws on: its own, then those of its type
/// arguments.
pub open spec fn struct_packages(s: StructTag) -> Seq<ObjectId> {
    seq![s.address] + params_packages(s.type_params, s.type_params@.len())
}

/// Appends to `packages` the declaring package of every struct in `type_`.
pub fn used_packages(packages: &mut Vec<ObjectId>, type_: &TypeTag)
    ensures
        final(packages)@ == old(packages)@ + type_packages(*type_),
    decreases *type_,
{
    match type_ {
        TypeTag::Vector(inner) => used_packages(packages, inner),
        TypeTag::Struct(s) => {
            packages.push(s.address);
            let ghost mid = packages@;
            let mut i: usize = 0;
            while i < s.type_params.len()
                invariant
                    i <= s.type_params@.len(),
                    packages@ == mid + params_packages(s.type_params, i as nat),
                    *type_ is Struct,
                    (*type_)->Struct_0 == *s,
                decreases s.type_params@.len() - i,
            {
                proof {
                    vstd::std_specs::vec::axiom_vec_index_decreases(s.type_params, i as int);
                    assert(decreases_to!(*type_ => (*type_)->Struct_0));
                    assert(decreases_to!(*s => s.type_params));
                    assert(decreases_to!(s.type_params => s.type_params[i as int]));
                }
                used_packages(packages, &s.type_params[i]);
                i += 1;
            }
            assert(packages@ =~= old(packages)@ + type_packages(*type_));
        },
        _ => {
            assert(packages@ =~= old(packages)@ + type_packages(*type_));
        },
    }
}

/// The packages that `tag` draws on, as the resolver's first worklist.
pub fn seed_packages(tag: &StructTag) -> (r: Vec<ObjectId>)
    ensures
        r@ == struct_packages(*tag),
{
    let mut queue: Vec<ObjectId> = Vec::new();
    queue.push(tag.address);
    let mut i: usize = 0;
    while i < tag.type_params.len()
        invariant
            i <= tag.type_params@.len(),
            queue@ == seq![tag.address] + params_packages(tag.type_params, i as nat),
        decreases tag.type_params@.len() - i,
    {
        used_packages(&mut queue, &tag.type_params[i]);
        i += 1;
    }
    queue
}

impl RawObject {
    /// The declared type of the value, where the object is a typed value.
    pub open spec fn move_type(self) -> Option<StructTag> {
        match self {
            RawObject::Exists(ObjectContent { data: ObjectData::Move(m), .. }) => Some(m.type_),
            _ => None,
        }
    }

    /// The package, where the object is one.
    pub open spec fn package(self) -> Option<Package> {
        match self {
            RawObject::Exists(ObjectContent { data: ObjectData::Package(p), .. }) => Some(p),
            _ => None,
        }
    }

    /// Whether the backend holds no record of the object.
    pub fn is_missing(&self) -> (r: bool)
        ensures
            r == (*self is NotExists),
    {
        match self {
            RawObject::NotExists(_) => true,
            _ => false,
        }
    }

    /// The declared type of the value, where the object is a typed value.
    pub fn as_move_type(&self) -> (r: Option<&StructTag>)
        ensures
            r.is_some() == self.move_type().is_some(),
            r.is_some() ==> *r.unwrap() == self.move_type().unwrap(),
    {
        match self {
            RawObject::Exists(content) => match &content.data {
                ObjectData::Move(m) => Some(&m.type_),
                ObjectData::Package(_) => None,
            },
            _ => None,
        }
    }

    /// The package, where the object is one.
    pub fn as_package(&self) -> (r: Option<&Package>)
        ensures
            r.is_some() == self.package().is_some(),
            r.is_some() ==> *r.unwrap() == self.package().unwrap(),
    {
        match self {
            RawObject::Exists(content) => match &content.data {
                ObjectData::Package(p) => Some(p),
                ObjectData::Move(_) => None,
            },
            _ => None,
        }
    }
}

} // verus!
