use boros::storage::StoreError;
use boros::storage::Transaction;
use boros::storage::TransactionPriority;
use boros::storage::TransactionStatus;

#[test]
fn status_text_round_trips() {
    let all = [
        TransactionStatus::Pending,
        TransactionStatus::Validated,
        TransactionStatus::Propagated,
        TransactionStatus::Failed,
    ];
    for status in all {
        let text = status.encode();
        assert_eq!(TransactionStatus::parse(text.as_str()), Ok(status));
    }
    assert_eq!(TransactionStatus::parse("pending"), Ok(TransactionStatus::Pending));
    assert_eq!(TransactionStatus::parse("failed"), Ok(TransactionStatus::Failed));
}

#[test]
fn unknown_status_text_is_corruption() {
    assert_eq!(
        TransactionStatus::parse("finished"),
        Err(StoreError::StorageUnavailable)
    );
    assert_eq!(
        TransactionStatus::parse(""),
        Err(StoreError::StorageUnavailable)
    );
    assert_eq!(
        TransactionStatus::parse("Pending"),
        Err(StoreError::StorageUnavailable)
    );
}

#[test]
fn priority_level_round_trips() {
    let all = [
        TransactionPriority::HIGH,
        TransactionPriority::MEDIUM,
        TransactionPriority::LOW,
    ];
    for priority in all {
        assert_eq!(TransactionPriority::from_level(priority.level()), Ok(priority));
    }
    assert_eq!(TransactionPriority::HIGH.level(), 0);
    assert_eq!(TransactionPriority::MEDIUM.level(), 1);
    assert_eq!(TransactionPriority::LOW.level(), 2);
}

#[test]
fn unknown_priority_level_is_corruption() {
    assert_eq!(
        TransactionPriority::from_level(3),
        Err(StoreError::StorageUnavailable)
    );
    assert_eq!(
        TransactionPriority::from_level(u32::MAX),
        Err(StoreError::StorageUnavailable)
    );
}

#[test]
fn record_row_round_trips() {
    let t = Transaction {
        id: "abc".to_owned(),
        raw: vec![0, 255, 3],
        status: TransactionStatus::Validated,
        priority: 7,
        dependencies: Some(vec!["dep1".to_owned(), "dep2".to_owned()]),
        created_at: 100,
        updated_at: 150,
    };
    let row = t.to_record();
    assert_eq!(row.status, "validated");
    assert_eq!(row.id, "abc");

    let back = Transaction::from_record(&row).unwrap();
    assert_eq!(back.id, t.id);
    assert_eq!(back.raw, t.raw);
    assert_eq!(back.status, t.status);
    assert_eq!(back.priority, t.priority);
    assert_eq!(back.dependencies, t.dependencies);
    assert_eq!(back.created_at, t.created_at);
    assert_eq!(back.updated_at, t.updated_at);
}

#[test]
fn corrupt_row_is_rejected() {
    let t = Transaction::default();
    let mut row = t.to_record();
    row.status = "limbo".to_owned();
    let back = Transaction::from_record(&row);
    assert!(matches!(back, Err(StoreError::StorageUnavailable)));
}
