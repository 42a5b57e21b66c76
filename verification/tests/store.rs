use boros::storage::StoreError;
use boros::storage::Transaction;
use boros::storage::TransactionPriority;
use boros::storage::TransactionStatus;
use boros::storage::TransactionStore;

fn tx(id: &str, priority: u32, created_at: i64, dependencies: Option<Vec<String>>) -> Transaction {
    Transaction {
        id: id.to_owned(),
        raw: vec![1, 2, 3],
        status: TransactionStatus::Pending,
        priority,
        dependencies,
        created_at,
        updated_at: created_at,
    }
}

#[test]
fn it_should_create_tx() {
    let mut storage = TransactionStore::new();
    let transaction = Transaction::default();

    let result = storage.create(&vec![transaction]);
    assert!(result.is_ok());
}

#[test]
fn it_should_create_tx_with_dependencies() {
    let mut storage = TransactionStore::new();
    let mut transaction_1 = Transaction::default();
    transaction_1.id = "hex1".into();

    let mut transaction_2 = Transaction::default();
    transaction_2.id = "hex2".into();
    transaction_2.dependencies = Some(vec![transaction_1.id.clone()]);

    let result = storage.create(&vec![transaction_1, transaction_2]);
    assert!(result.is_ok());
}

#[test]
fn it_should_fail_create_tx_with_invalid_dependencies() {
    let mut storage = TransactionStore::new();

    let mut transaction = Transaction::default();
    transaction.dependencies = Some(vec!["something".into()]);

    let result = storage.create(&vec![transaction]);
    assert!(result.is_err());
}

#[test]
fn it_should_find_next_transaction() {
    let mut storage = TransactionStore::new();
    let transaction = Transaction::default();

    storage.create(&vec![transaction]).unwrap();

    let result = storage.next_ready(TransactionStatus::Pending);
    assert!(result.is_ok());
    assert!(result.unwrap().is_some());
}

#[test]
fn it_should_update_transaction_valid() {
    let mut storage = TransactionStore::new();

    let transaction = Transaction::default();
    storage.create(&vec![transaction]).unwrap();

    let mut transaction = Transaction::default();
    transaction.status = TransactionStatus::Validated;
    let result = storage.update_now(&transaction);
    assert!(result.is_ok());

    let result = storage.next_ready(TransactionStatus::Validated);
    assert!(result.is_ok());
    assert!(result.unwrap().is_some());
}

#[test]
fn single_record_is_next_ready() {
    // Insert one record with id "t1", no dependencies, priority 1: it is the
    // next ready Pending record.
    let mut store = TransactionStore::new();
    store.create(&vec![tx("t1", 1, 10, None)]).unwrap();

    let next = store.next_ready(TransactionStatus::Pending).unwrap();
    assert_eq!(next.unwrap().id, "t1");
}

#[test]
fn dependent_record_waits_despite_priority() {
    // "t2" depends on "t1"; even with a better (smaller) priority value it
    // is not selected while it still carries a dependency.
    let mut store = TransactionStore::new();
    store.create(&vec![tx("t1", 5, 10, None)]).unwrap();
    store
        .create(&vec![tx("t2", 0, 11, Some(vec!["t1".to_owned()]))])
        .unwrap();

    let next = store.next_ready(TransactionStatus::Pending).unwrap();
    assert_eq!(next.unwrap().id, "t1");
}

#[test]
fn missing_dependency_rejects_whole_batch() {
    // "t1" depends on a nonexistent id: the batch fails with
    // DependencyNotFound and "t1" is absent afterwards.
    let mut store = TransactionStore::new();
    let result = store.create(&vec![tx("t1", 1, 10, Some(vec!["missing".to_owned()]))]);
    assert_eq!(result, Err(StoreError::DependencyNotFound));
    assert!(!store.contains(&"t1".to_owned()));
    assert!(store.get(&"t1".to_owned()).is_none());
}

#[test]
fn updated_record_changes_queue() {
    // After updating "t1" to Validated, it no longer appears among Pending
    // records but does among Validated ones.
    let mut store = TransactionStore::new();
    store.create(&vec![tx("t1", 1, 10, None)]).unwrap();

    let mut changed = tx("t1", 1, 10, None);
    changed.status = TransactionStatus::Validated;
    store.update(&changed, 20).unwrap();

    assert!(store
        .next_ready(TransactionStatus::Pending)
        .unwrap()
        .is_none());
    let next = store.next_ready(TransactionStatus::Validated).unwrap();
    assert_eq!(next.unwrap().id, "t1");
}

#[test]
fn failed_batch_leaves_store_unchanged() {
    // A batch whose second record has a missing dependency persists nothing,
    // not even its valid first record.
    let mut store = TransactionStore::new();
    let good = tx("a", 1, 10, None);
    let bad = tx("b", 1, 10, Some(vec!["missing".to_owned()]));
    let result = store.create(&vec![good, bad]);
    assert_eq!(result, Err(StoreError::DependencyNotFound));
    assert!(!store.contains(&"a".to_owned()));
    assert!(!store.contains(&"b".to_owned()));
}

#[test]
fn duplicate_id_rejects_whole_batch() {
    let mut store = TransactionStore::new();
    store.create(&vec![tx("t1", 1, 10, None)]).unwrap();

    let result = store.create(&vec![tx("t2", 1, 11, None), tx("t1", 1, 12, None)]);
    assert_eq!(result, Err(StoreError::DuplicateId));
    assert!(!store.contains(&"t2".to_owned()));
}

#[test]
fn duplicate_id_within_batch_rejected() {
    let mut store = TransactionStore::new();
    let result = store.create(&vec![tx("t1", 1, 10, None), tx("t1", 1, 11, None)]);
    assert_eq!(result, Err(StoreError::DuplicateId));
    assert!(!store.contains(&"t1".to_owned()));
}

#[test]
fn self_dependency_rejected() {
    let mut store = TransactionStore::new();
    let result = store.create(&vec![tx("t1", 1, 10, Some(vec!["t1".to_owned()]))]);
    assert_eq!(result, Err(StoreError::DependencyNotFound));
}

#[test]
fn repeated_dependency_pair_rejected() {
    let mut store = TransactionStore::new();
    store.create(&vec![tx("t1", 1, 10, None)]).unwrap();
    let result = store.create(&vec![tx(
        "t2",
        1,
        11,
        Some(vec!["t1".to_owned(), "t1".to_owned()]),
    )]);
    assert_eq!(result, Err(StoreError::DuplicateId));
}

#[test]
fn intra_batch_backward_reference_succeeds() {
    // A dependency on an id earlier in the same batch is already written
    // when the edge is checked.
    let mut store = TransactionStore::new();
    let result = store.create(&vec![
        tx("t1", 1, 10, None),
        tx("t2", 1, 11, Some(vec!["t1".to_owned()])),
    ]);
    assert!(result.is_ok());
    assert!(store.contains(&"t1".to_owned()));
    assert!(store.contains(&"t2".to_owned()));
}

#[test]
fn intra_batch_forward_reference_fails() {
    let mut store = TransactionStore::new();
    let result = store.create(&vec![
        tx("t1", 1, 10, Some(vec!["t2".to_owned()])),
        tx("t2", 1, 11, None),
    ]);
    assert_eq!(result, Err(StoreError::DependencyNotFound));
    assert!(!store.contains(&"t2".to_owned()));
}

#[test]
fn ordering_by_priority_then_age_then_id() {
    let mut store = TransactionStore::new();
    store
        .create(&vec![
            tx("late", 2, 50, None),
            tx("old", 1, 10, None),
            tx("young", 1, 20, None),
        ])
        .unwrap();

    // Smallest priority wins; among equal priorities the earlier created_at.
    let next = store.next_ready(TransactionStatus::Pending).unwrap();
    assert_eq!(next.unwrap().id, "old");

    let mut store = TransactionStore::new();
    store
        .create(&vec![tx("b", 1, 10, None), tx("a", 1, 10, None)])
        .unwrap();
    // Equal priority and creation time: ties break by id.
    let next = store.next_ready(TransactionStatus::Pending).unwrap();
    assert_eq!(next.unwrap().id, "a");
}

#[test]
fn repeated_reads_return_same_record() {
    let mut store = TransactionStore::new();
    store
        .create(&vec![tx("t1", 1, 10, None), tx("t2", 1, 10, None)])
        .unwrap();

    let first = store.next_ready(TransactionStatus::Pending).unwrap();
    let second = store.next_ready(TransactionStatus::Pending).unwrap();
    assert_eq!(first.unwrap().id, second.unwrap().id);
}

#[test]
fn updated_at_never_goes_backwards() {
    let mut store = TransactionStore::new();
    store.create(&vec![tx("t1", 1, 10, None)]).unwrap();

    let mut changed = tx("t1", 1, 10, None);
    changed.status = TransactionStatus::Validated;
    store.update(&changed, 100).unwrap();
    let stamped = store.get(&"t1".to_owned()).unwrap().updated_at;
    assert_eq!(stamped, 100);

    // A clock that reads earlier than the last stamp does not move it back.
    changed.status = TransactionStatus::Propagated;
    store.update(&changed, 50).unwrap();
    let stamped = store.get(&"t1".to_owned()).unwrap().updated_at;
    assert_eq!(stamped, 100);
    assert_eq!(
        store.get(&"t1".to_owned()).unwrap().status,
        TransactionStatus::Propagated
    );
}

#[test]
fn update_of_missing_id_is_not_found() {
    let mut store = TransactionStore::new();
    let result = store.update(&tx("ghostly", 1, 10, None), 20);
    assert_eq!(result, Err(StoreError::NotFound));
    let result = store.update_now(&tx("ghostly", 1, 10, None));
    assert_eq!(result, Err(StoreError::NotFound));
}

#[test]
fn empty_batch_is_accepted() {
    let mut store = TransactionStore::new();
    assert!(store.create(&vec![]).is_ok());
    assert!(store
        .next_ready(TransactionStatus::Pending)
        .unwrap()
        .is_none());
}

#[test]
fn empty_dependency_list_is_ready() {
    // An explicitly empty dependency list waits on nothing, like an absent one.
    let mut store = TransactionStore::new();
    store.create(&vec![tx("t1", 1, 10, Some(vec![]))]).unwrap();
    let next = store.next_ready(TransactionStatus::Pending).unwrap();
    assert_eq!(next.unwrap().id, "t1");
}

#[test]
fn constructed_record_starts_pending() {
    let t = Transaction::new(
        "t9".to_owned(),
        vec![9, 9],
        TransactionPriority::HIGH,
        None,
    );
    assert_eq!(t.id, "t9");
    assert_eq!(t.raw, vec![9, 9]);
    assert_eq!(t.status, TransactionStatus::Pending);
    assert_eq!(t.priority, 0);
    assert_eq!(t.created_at, t.updated_at);
}

#[test]
fn default_record_shape() {
    let t = Transaction::default();
    assert_eq!(t.id, "hex");
    assert_eq!(t.raw, b"hex".to_vec());
    assert_eq!(t.status, TransactionStatus::Pending);
    assert_eq!(t.priority, 1);
    assert!(t.dependencies.is_none());
    assert_eq!(t.created_at, t.updated_at);
}
