use sui_sdk::backend::{BackendKind, ClientError, Operation};
use sui_sdk::cache::ObjectCache;
use sui_sdk::ids::{ObjectId, ObjectRef};
use sui_sdk::mutation::{collect_changes, settle_execution, OwnedObjectRef, Owner, TransactionEffects};
use sui_sdk::object::{MoveObject, ObjectContent, ObjectData, RawObject, StructTag};
use sui_sdk::reader::{record_fetched, Fetched};

fn oid(n: u8) -> ObjectId {
    ObjectId { bytes: [n; 16] }
}

fn oref(n: u8, version: u64) -> ObjectRef {
    ObjectRef { id: oid(n), version, digest: [version as u8; 32] }
}

fn coin(n: u8, version: u64) -> RawObject {
    RawObject::Exists(ObjectContent {
        reference: oref(n, version),
        data: ObjectData::Move(MoveObject {
            type_: StructTag {
                address: oid(2),
                module: String::from("coin"),
                name: String::from("Coin"),
                type_params: vec![],
            },
            contents: vec![version as u8],
        }),
    })
}

const INDEXED: [Operation; 5] = [
    Operation::TransactionsByInputObject,
    Operation::TransactionsByMutatedObject,
    Operation::TransactionsByMoveFunction,
    Operation::TransactionsFromAddr,
    Operation::TransactionsToAddr,
];

const PLAIN: [Operation; 9] = [
    Operation::ObjectsOwnedByAddress,
    Operation::ObjectsOwnedByObject,
    Operation::RawObject,
    Operation::TotalTransactionNumber,
    Operation::TransactionsInRange,
    Operation::RecentTransactions,
    Operation::Transaction,
    Operation::ExecuteTransaction,
    Operation::SyncAccountState,
];

#[test]
fn empty_cache_serves_nothing() {
    let cache = ObjectCache::new();
    assert!(cache.get(&oid(1)).is_none());
    assert!(!cache.contains(&oid(1)));
}

#[test]
fn put_overwrites_last_write_wins() {
    let mut cache = ObjectCache::new();
    cache.put(oid(1), coin(1, 1));
    cache.put(oid(2), coin(2, 1));
    assert_eq!(cache.get(&oid(1)), Some(&coin(1, 1)));
    cache.put(oid(1), coin(1, 2));
    assert_eq!(cache.get(&oid(1)), Some(&coin(1, 2)));
    assert_eq!(cache.get(&oid(2)), Some(&coin(2, 1)));
    assert!(cache.get(&oid(3)).is_none());
}

#[test]
fn second_read_is_a_cache_hit_with_the_same_object() {
    let mut cache = ObjectCache::new();
    assert!(cache.get(&oid(1)).is_none());
    let settled = record_fetched(&mut cache, oid(1), Fetched::Object(coin(1, 1)));
    assert_eq!(settled, Ok(None));
    let first = cache.get(&oid(1)).unwrap();
    let second = cache.get(&oid(1)).unwrap();
    assert_eq!(first, &coin(1, 1));
    assert_eq!(first, second);
}

#[test]
fn deleted_answer_is_cached() {
    let mut cache = ObjectCache::new();
    let settled = record_fetched(&mut cache, oid(1), Fetched::Object(RawObject::Deleted(oref(1, 4))));
    assert_eq!(settled, Ok(None));
    assert_eq!(cache.get(&oid(1)), Some(&RawObject::Deleted(oref(1, 4))));
}

#[test]
fn missing_object_leaves_no_phantom_entry() {
    let mut cache = ObjectCache::new();
    let settled = record_fetched(&mut cache, oid(1), Fetched::Object(RawObject::NotExists(oid(1))));
    assert_eq!(settled, Ok(Some(RawObject::NotExists(oid(1)))));
    assert!(!cache.contains(&oid(1)));
    assert!(cache.get(&oid(1)).is_none());
    // the object comes into being later: the read is settled with the real one
    assert_eq!(record_fetched(&mut cache, oid(1), Fetched::Object(coin(1, 1))), Ok(None));
    assert_eq!(cache.get(&oid(1)), Some(&coin(1, 1)));
}

#[test]
fn missing_answer_keeps_held_content() {
    let mut cache = ObjectCache::new();
    cache.put(oid(1), coin(1, 1));
    let settled = record_fetched(&mut cache, oid(1), Fetched::Object(RawObject::NotExists(oid(1))));
    assert_eq!(settled, Ok(Some(RawObject::NotExists(oid(1)))));
    assert_eq!(cache.get(&oid(1)), Some(&coin(1, 1)));
}

#[test]
fn failed_fetch_is_reported_and_not_cached() {
    let mut cache = ObjectCache::new();
    cache.put(oid(2), coin(2, 1));
    assert_eq!(
        record_fetched(&mut cache, oid(1), Fetched::Malformed),
        Err(ClientError::DecodeError(oid(1)))
    );
    assert_eq!(
        record_fetched(&mut cache, oid(1), Fetched::Unavailable),
        Err(ClientError::BackendUnavailable)
    );
    assert!(!cache.contains(&oid(1)));
    assert_eq!(cache.get(&oid(2)), Some(&coin(2, 1)));
}

#[test]
fn put_refs_invalidates_held_content() {
    let mut cache = ObjectCache::new();
    cache.put(oid(1), coin(1, 1));
    cache.put(oid(2), coin(2, 1));
    cache.put_refs(&vec![oref(1, 2), oref(3, 5)]);
    assert!(cache.get(&oid(1)).is_none());
    assert!(cache.contains(&oid(1)));
    assert!(cache.get(&oid(3)).is_none());
    assert!(cache.contains(&oid(3)));
    assert_eq!(cache.get(&oid(2)), Some(&coin(2, 1)));
    cache.put_refs(&vec![]);
    assert_eq!(cache.get(&oid(2)), Some(&coin(2, 1)));
}

#[test]
fn collect_changes_is_mutated_then_deleted() {
    let effects = TransactionEffects {
        mutated: vec![
            OwnedObjectRef { owner: Owner::AddressOwner(oid(9)), reference: oref(1, 2) },
            OwnedObjectRef { owner: Owner::Shared, reference: oref(2, 7) },
        ],
        deleted: vec![oref(3, 4)],
    };
    assert_eq!(collect_changes(&effects), vec![oref(1, 2), oref(2, 7), oref(3, 4)]);
    let none = TransactionEffects { mutated: vec![], deleted: vec![] };
    assert!(collect_changes(&none).is_empty());
}

#[test]
fn execution_updates_the_cache_before_it_returns() {
    let mut cache = ObjectCache::new();
    cache.put(oid(1), coin(1, 1));
    cache.put(oid(3), coin(3, 1));
    cache.put(oid(4), coin(4, 1));
    let effects = TransactionEffects {
        mutated: vec![OwnedObjectRef { owner: Owner::Immutable, reference: oref(1, 2) }],
        deleted: vec![oref(3, 2)],
    };
    let settled = settle_execution(&mut cache, Ok(effects.clone()));
    assert_eq!(settled, Ok(effects));
    // version 1 is no longer served as current
    assert!(cache.get(&oid(1)).is_none());
    assert!(cache.get(&oid(3)).is_none());
    assert_eq!(cache.get(&oid(4)), Some(&coin(4, 1)));
    // the next read fetches version 2
    assert_eq!(record_fetched(&mut cache, oid(1), Fetched::Object(coin(1, 2))), Ok(None));
    assert_eq!(cache.get(&oid(1)), Some(&coin(1, 2)));
}

#[test]
fn failed_execution_is_handed_on_unchanged() {
    let mut cache = ObjectCache::new();
    cache.put(oid(1), coin(1, 1));
    assert_eq!(
        settle_execution(&mut cache, Err(ClientError::BackendUnavailable)),
        Err(ClientError::BackendUnavailable)
    );
    assert_eq!(
        settle_execution(&mut cache, Err(ClientError::DecodeError(oid(1)))),
        Err(ClientError::DecodeError(oid(1)))
    );
    assert_eq!(cache.get(&oid(1)), Some(&coin(1, 1)));
}

#[test]
fn embedded_backend_refuses_indexed_queries() {
    for op in INDEXED {
        assert!(!BackendKind::Embedded.supports(op));
        assert_eq!(BackendKind::Embedded.require(op), Err(ClientError::UnsupportedOperation(op)));
        assert_eq!(BackendKind::Rpc { streaming: false }.require(op), Ok(()));
        assert_eq!(BackendKind::Rpc { streaming: true }.require(op), Ok(()));
    }
}

#[test]
fn both_backends_carry_out_the_plain_operations() {
    for op in PLAIN {
        assert_eq!(BackendKind::Embedded.require(op), Ok(()));
        assert_eq!(BackendKind::Rpc { streaming: false }.require(op), Ok(()));
        assert!(BackendKind::Rpc { streaming: true }.supports(op));
    }
}

#[test]
fn events_need_a_streaming_remote_backend() {
    let op = Operation::SubscribeEvent;
    assert_eq!(BackendKind::Rpc { streaming: true }.require(op), Ok(()));
    assert_eq!(
        BackendKind::Rpc { streaming: false }.require(op),
        Err(ClientError::UnsupportedOperation(op))
    );
    assert_eq!(BackendKind::Embedded.require(op), Err(ClientError::UnsupportedOperation(op)));
}
