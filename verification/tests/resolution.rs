use sui_sdk::backend::ClientError;
use sui_sdk::ids::{contains_id, ObjectId, ObjectRef};
use sui_sdk::object::{
    seed_packages, used_packages, Module, MoveObject, ObjectContent, ObjectData, Package,
    RawObject, StructTag, TypeTag,
};
use sui_sdk::reader::{
    compute_layout, missing_package, parse_object, FieldLayout, Layout, TypeLayout, TypedObject,
};
use sui_sdk::resolver::{has_valid_names, Resolver};

fn id(n: u8) -> ObjectId {
    let mut bytes = [0u8; 16];
    bytes[15] = n;
    ObjectId { bytes }
}

fn reference(n: u8, version: u64) -> ObjectRef {
    ObjectRef { id: id(n), version, digest: [n; 32] }
}

fn tag(package: u8, params: Vec<TypeTag>) -> StructTag {
    StructTag {
        address: id(package),
        module: String::from("m"),
        name: String::from("T"),
        type_params: params,
    }
}

fn module(owner: u8, handles: &[u8]) -> Module {
    Module {
        name: format!("m{}", owner),
        self_package: id(owner),
        handle_packages: handles.iter().map(|n| id(*n)).collect(),
    }
}

fn package(n: u8, modules: Vec<Module>) -> RawObject {
    RawObject::Exists(ObjectContent {
        reference: reference(n, 1),
        data: ObjectData::Package(Package { modules }),
    })
}

fn value(n: u8, type_: StructTag) -> RawObject {
    RawObject::Exists(ObjectContent {
        reference: reference(n, 1),
        data: ObjectData::Move(MoveObject { type_, contents: vec![1, 2, 3] }),
    })
}

fn sorted(mut ids: Vec<ObjectId>) -> Vec<ObjectId> {
    ids.sort_by(|a, b| a.bytes.cmp(&b.bytes));
    ids
}

/// Runs a traversal against `ledger`, answering "no such object" for what it
/// lacks. Returns the closure and every identifier that was loaded, in order.
fn traverse(
    ledger: &[(ObjectId, RawObject)],
    root: &StructTag,
) -> Result<(Vec<ObjectId>, Vec<ObjectId>), ClientError> {
    let mut resolver = Resolver::new(root);
    let mut loaded = Vec::new();
    let mut steps = 0;
    while let Some(cur) = resolver.next() {
        steps += 1;
        assert!(steps < 1000);
        loaded.push(cur);
        let absent = RawObject::NotExists(cur);
        let object = ledger.iter().find(|(k, _)| *k == cur).map(|(_, o)| o).unwrap_or(&absent);
        resolver.absorb(cur, object)?;
    }
    Ok((sorted(resolver.into_closure()), loaded))
}

#[test]
fn primitives_name_no_package() {
    for t in [TypeTag::Bool, TypeTag::U8, TypeTag::U64, TypeTag::U128, TypeTag::Address, TypeTag::Signer] {
        let mut out = vec![id(9)];
        used_packages(&mut out, &t);
        assert_eq!(out, vec![id(9)]);
    }
}

#[test]
fn vector_names_what_its_element_names() {
    let t = TypeTag::Vector(Box::new(TypeTag::Vector(Box::new(TypeTag::Struct(tag(4, vec![]))))));
    let mut out = Vec::new();
    used_packages(&mut out, &t);
    assert_eq!(out, vec![id(4)]);
    let mut none = Vec::new();
    used_packages(&mut none, &TypeTag::Vector(Box::new(TypeTag::U8)));
    assert!(none.is_empty());
}

#[test]
fn struct_names_itself_then_its_arguments() {
    let inner = TypeTag::Struct(tag(2, vec![TypeTag::U64, TypeTag::Struct(tag(3, vec![]))]));
    let root = tag(1, vec![inner, TypeTag::Vector(Box::new(TypeTag::Struct(tag(1, vec![]))))]);
    assert_eq!(seed_packages(&root), vec![id(1), id(2), id(3), id(1)]);
    let mut out = vec![id(7)];
    used_packages(&mut out, &TypeTag::Struct(root));
    assert_eq!(out, vec![id(7), id(1), id(2), id(3), id(1)]);
}

#[test]
fn next_skips_what_was_seen_and_takes_from_the_end() {
    let root = tag(1, vec![TypeTag::Struct(tag(2, vec![])), TypeTag::Struct(tag(1, vec![]))]);
    let mut resolver = Resolver::new(&root);
    assert!(!resolver.has_seen(&id(1)));
    assert_eq!(resolver.next(), Some(id(1)));
    assert_eq!(resolver.absorb(id(1), &package(1, vec![module(1, &[1])])), Ok(()));
    assert!(resolver.has_seen(&id(1)));
    // the self handle of the module is on the worklist and is skipped
    assert_eq!(resolver.next(), Some(id(2)));
    assert_eq!(resolver.absorb(id(2), &package(2, vec![module(2, &[])])), Ok(()));
    assert_eq!(resolver.next(), None);
    assert_eq!(resolver.next(), None);
    assert_eq!(sorted(resolver.into_closure()), vec![id(1), id(2)]);
}

#[test]
fn absorb_marks_declared_packages_and_queues_handles_in_order() {
    let mut resolver = Resolver::new(&tag(1, vec![]));
    assert_eq!(resolver.next(), Some(id(1)));
    let p = package(1, vec![module(1, &[1, 5]), module(1, &[6, 7])]);
    assert_eq!(resolver.absorb(id(1), &p), Ok(()));
    assert_eq!(resolver.next(), Some(id(7)));
    assert_eq!(resolver.absorb(id(7), &package(7, vec![module(7, &[])])), Ok(()));
    assert_eq!(resolver.next(), Some(id(6)));
    assert_eq!(resolver.absorb(id(6), &package(6, vec![module(6, &[])])), Ok(()));
    assert_eq!(resolver.next(), Some(id(5)));
}

#[test]
fn absorb_refuses_what_is_no_package() {
    let mut resolver = Resolver::new(&tag(1, vec![]));
    assert_eq!(resolver.next(), Some(id(1)));
    assert_eq!(
        resolver.absorb(id(1), &value(1, tag(2, vec![]))),
        Err(ClientError::InternalInvariantViolation(id(1)))
    );
    assert_eq!(
        resolver.absorb(id(1), &RawObject::NotExists(id(1))),
        Err(ClientError::InternalInvariantViolation(id(1)))
    );
    assert_eq!(
        resolver.absorb(id(1), &RawObject::Deleted(reference(1, 3))),
        Err(ClientError::InternalInvariantViolation(id(1)))
    );
    assert!(!resolver.has_seen(&id(1)));
    assert_eq!(resolver.next(), None);
}

#[test]
fn closure_of_three_packages_in_any_seed_order() {
    // A = 1, B = 2, C = 3; B depends on C, C depends on A
    let ledger = vec![
        (id(1), package(1, vec![module(1, &[1])])),
        (id(2), package(2, vec![module(2, &[2, 3])])),
        (id(3), package(3, vec![module(3, &[3, 1])])),
    ];
    let s = |n: u8| TypeTag::Struct(tag(n, vec![]));
    let orders = vec![
        tag(1, vec![s(2), s(3)]),
        tag(3, vec![s(2), s(1)]),
        tag(2, vec![s(1), s(3)]),
        tag(2, vec![]),
    ];
    for root in orders {
        let (closure, loaded) = traverse(&ledger, &root).unwrap();
        assert_eq!(closure, vec![id(1), id(2), id(3)]);
        assert_eq!(sorted(loaded), vec![id(1), id(2), id(3)]);
    }
}

#[test]
fn closure_terminates_on_a_cycle() {
    let ledger = vec![
        (id(1), package(1, vec![module(1, &[1])])),
        (id(2), package(2, vec![module(2, &[2, 3])])),
        (id(3), package(3, vec![module(3, &[3, 2, 1])])),
    ];
    let root = tag(1, vec![TypeTag::Struct(tag(2, vec![])), TypeTag::Struct(tag(3, vec![]))]);
    let (closure, loaded) = traverse(&ledger, &root).unwrap();
    assert_eq!(closure, vec![id(1), id(2), id(3)]);
    assert_eq!(loaded.len(), 3);
}

#[test]
fn end_to_end_loads_each_package_once() {
    let ledger = vec![
        (id(1), package(1, vec![module(1, &[1, 2, 3])])),
        (id(2), package(2, vec![module(2, &[2])])),
        (id(3), package(3, vec![module(3, &[3])])),
    ];
    let root = tag(1, vec![TypeTag::Struct(tag(2, vec![]))]);
    let (closure, loaded) = traverse(&ledger, &root).unwrap();
    assert_eq!(closure, vec![id(1), id(2), id(3)]);
    assert_eq!(sorted(loaded.clone()), vec![id(1), id(2), id(3)]);
    assert_eq!(loaded.len(), 3);
}

#[test]
fn end_to_end_fails_when_a_dependency_is_absent() {
    let ledger = vec![
        (id(1), package(1, vec![module(1, &[1, 2, 3])])),
        (id(2), package(2, vec![module(2, &[2])])),
    ];
    let root = tag(1, vec![TypeTag::Struct(tag(2, vec![]))]);
    assert_eq!(traverse(&ledger, &root), Err(ClientError::InternalInvariantViolation(id(3))));
}

fn coin_layout() -> Layout {
    Layout {
        fields: vec![
            FieldLayout { name: String::from("id"), layout: TypeLayout::Address },
            FieldLayout {
                name: String::from("balance"),
                layout: TypeLayout::Struct(Layout {
                    fields: vec![FieldLayout { name: String::from("value"), layout: TypeLayout::U64 }],
                }),
            },
            FieldLayout {
                name: String::from("tags"),
                layout: TypeLayout::Vector(Box::new(TypeLayout::U8)),
            },
        ],
    }
}

#[test]
fn missing_package_is_the_first_that_the_closure_lacks() {
    let root = tag(1, vec![TypeTag::Struct(tag(2, vec![])), TypeTag::Struct(tag(3, vec![]))]);
    assert_eq!(missing_package(&root, &vec![id(3), id(2), id(1)]), None);
    assert_eq!(missing_package(&root, &vec![id(1)]), Some(id(2)));
    assert_eq!(missing_package(&root, &vec![id(1), id(2)]), Some(id(3)));
    assert_eq!(missing_package(&root, &vec![id(2), id(3)]), Some(id(1)));
    assert_eq!(missing_package(&root, &vec![]), Some(id(1)));
}

#[test]
fn layout_is_what_was_built_over_a_complete_closure() {
    let root = tag(1, vec![TypeTag::Struct(tag(2, vec![])), TypeTag::U8]);
    let layout = compute_layout(id(8), &root, &vec![id(3), id(2), id(1)], Some(coin_layout()));
    assert_eq!(layout, Ok(coin_layout()));
}

#[test]
fn layout_fails_with_the_first_missing_package() {
    let root = tag(1, vec![TypeTag::Struct(tag(2, vec![])), TypeTag::Struct(tag(3, vec![]))]);
    assert_eq!(
        compute_layout(id(8), &root, &vec![id(1)], Some(coin_layout())),
        Err(ClientError::MissingModule(id(2)))
    );
    assert_eq!(
        compute_layout(id(8), &root, &vec![id(1), id(2)], None),
        Err(ClientError::MissingModule(id(3)))
    );
    assert_eq!(compute_layout(id(8), &root, &vec![], None), Err(ClientError::MissingModule(id(1))));
}

#[test]
fn layout_fails_when_nothing_could_be_built() {
    let root = tag(1, vec![]);
    assert_eq!(compute_layout(id(8), &root, &vec![id(1)], None), Err(ClientError::DecodeError(id(8))));
}

#[test]
fn layout_is_deterministic() {
    let root = tag(1, vec![TypeTag::Struct(tag(2, vec![]))]);
    let closure = vec![id(1), id(2)];
    assert_eq!(
        compute_layout(id(8), &root, &closure, Some(coin_layout())),
        compute_layout(id(8), &root, &closure, Some(coin_layout()))
    );
}

#[test]
fn typed_value_gets_a_layout() {
    let typed = parse_object(id(8), value(8, tag(1, vec![])), &vec![id(1)], Some(coin_layout()));
    assert_eq!(
        typed,
        Ok(TypedObject { object: value(8, tag(1, vec![])), layout: Some(coin_layout()) })
    );
    let failed = parse_object(id(8), value(8, tag(1, vec![])), &vec![], Some(coin_layout()));
    assert_eq!(failed, Err(ClientError::MissingModule(id(1))));
    let undecoded = parse_object(id(8), value(8, tag(1, vec![])), &vec![id(1)], None);
    assert_eq!(undecoded, Err(ClientError::DecodeError(id(8))));
}

#[test]
fn package_and_absent_objects_have_no_layout() {
    let p = parse_object(id(1), package(1, vec![module(1, &[1])]), &vec![], None);
    assert_eq!(p, Ok(TypedObject { object: package(1, vec![module(1, &[1])]), layout: None }));
    let n = parse_object(id(4), RawObject::NotExists(id(4)), &vec![], Some(coin_layout()));
    assert_eq!(n, Ok(TypedObject { object: RawObject::NotExists(id(4)), layout: None }));
    let d = parse_object(id(4), RawObject::Deleted(reference(4, 2)), &vec![], None);
    assert_eq!(d, Ok(TypedObject { object: RawObject::Deleted(reference(4, 2)), layout: None }));
}

#[test]
fn raw_object_accessors() {
    let v = value(1, tag(2, vec![]));
    assert_eq!(v.as_move_type(), Some(&tag(2, vec![])));
    assert!(v.as_package().is_none());
    assert!(!v.is_missing());
    let p = package(1, vec![module(1, &[])]);
    assert!(p.as_move_type().is_none());
    assert_eq!(p.as_package().unwrap().modules.len(), 1);
    assert!(RawObject::NotExists(id(1)).is_missing());
    assert!(!RawObject::Deleted(reference(1, 1)).is_missing());
}

#[test]
fn object_id_from_slice_and_same() {
    let bytes: Vec<u8> = (1..=16).collect();
    let a = ObjectId::from_slice(&bytes).unwrap();
    assert_eq!(a.bytes[0], 1);
    assert_eq!(a.bytes[15], 16);
    assert!(ObjectId::from_slice(&bytes[..15]).is_none());
    assert!(ObjectId::from_slice(&[0u8; 17]).is_none());
    assert!(ObjectId::from_slice(&[]).is_none());
    assert!(a.same(&a));
    let mut other = a;
    other.bytes[15] = 0;
    assert!(!a.same(&other));
    assert!(id(3).same(&id(3)));
    assert!(!id(3).same(&id(4)));
}

fn named(name: &str) -> Module {
    Module { name: String::from(name), self_package: id(1), handle_packages: vec![id(1)] }
}

#[test]
fn identifiers_are_told_from_other_names() {
    for good in ["a", "Z", "coin", "Coin_2", "_a", "__", "_1", "a_", "x9", "<SELF>"] {
        assert!(has_valid_names(&vec![named(good)]), "{}", good);
    }
    for bad in ["", "_", "1a", "9", "a-b", "a b", " a", "a.b", "<SELF", "<self>", "<SELF>x", "\u{e9}t\u{e9}", "a\u{e9}", "a::b"] {
        assert!(!has_valid_names(&vec![named(bad)]), "{}", bad);
    }
    assert!(has_valid_names(&vec![]));
    assert!(has_valid_names(&vec![named("a"), named("b")]));
    assert!(!has_valid_names(&vec![named("a"), named("2b"), named("c")]));
}

#[test]
fn absorb_refuses_a_module_with_a_bad_name() {
    let mut resolver = Resolver::new(&tag(1, vec![]));
    assert_eq!(resolver.next(), Some(id(1)));
    let bad = package(1, vec![named("ok"), named("not ok")]);
    assert_eq!(resolver.absorb(id(1), &bad), Err(ClientError::DecodeError(id(1))));
    assert!(!resolver.has_seen(&id(1)));
    assert_eq!(resolver.next(), None);
}

#[test]
fn empty_package_adds_nothing() {
    let mut resolver = Resolver::new(&tag(1, vec![TypeTag::Struct(tag(2, vec![]))]));
    assert_eq!(resolver.next(), Some(id(2)));
    assert_eq!(resolver.absorb(id(2), &package(2, vec![])), Ok(()));
    assert!(!resolver.has_seen(&id(2)));
    assert_eq!(resolver.next(), Some(id(1)));
}

#[test]
fn contains_id_finds_what_is_there() {
    let ids = vec![id(1), id(5), id(1)];
    assert!(contains_id(&ids, &id(1)));
    assert!(contains_id(&ids, &id(5)));
    assert!(!contains_id(&ids, &id(2)));
    assert!(!contains_id(&vec![], &id(1)));
}
