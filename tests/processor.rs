use ledger_engine::processor::{TransactionProcessor, CACHE_SIZE_LIMIT, CACHE_SIZE_LINE};
use ledger_engine::type_defs::{Amount, ClientId, TransactionRecord};

// Test deposit transactions in a loop
#[test]
fn test_deposit_loop() {
    let mut processor = TransactionProcessor::<CACHE_SIZE_LIMIT, CACHE_SIZE_LINE>::new();
    let num_iterations = 1024;
    let expected_amount = num_iterations.to_string();
    for i in 0..num_iterations {
        let transaction = TransactionRecord {
            transaction_type: "deposit".to_owned(),
            client: 1,
            tx: i,
            amount: Some("1".to_owned()),
        };
        assert_eq!(processor.process_transaction(transaction), Ok(()));
    }
    assert_eq!(processor.client_count(), 1);
    for client in processor.into_clients() {
        assert_eq!(client.client_id(), ClientId(1));
        assert_eq!(
            client.total(),
            Amount::from_str(expected_amount.clone()).unwrap()
        );
        assert_eq!(
            client.available(),
            Amount::from_str(expected_amount.clone()).unwrap()
        );
        assert_eq!(client.locked(), false);
        assert_eq!(client.held(), Amount::from_str("0.0".to_owned()).unwrap());
    }
}

// Test deposit follow by the same amount of withdraws.
#[test]
fn test_deposit_withdraw_loop() {
    let mut processor = TransactionProcessor::<CACHE_SIZE_LIMIT, CACHE_SIZE_LINE>::new();
    let num_iterations = 8 * 1024;
    for i in 0..num_iterations {
        let transaction = TransactionRecord {
            transaction_type: "deposit".to_owned(),
            client: 1,
            tx: i * 2,
            amount: Some("1".to_owned()),
        };

        assert_eq!(processor.process_transaction(transaction), Ok(()));

        let transaction = TransactionRecord {
            transaction_type: "withdrawal".to_owned(),
            client: 1,
            tx: i * 2 + 1,
            amount: Some("1".to_owned()),
        };
        assert_eq!(processor.process_transaction(transaction), Ok(()));
    }

    assert_eq!(processor.client_count(), 1);
    for client in processor.into_clients() {
        assert_eq!(client.client_id(), ClientId(1));
        assert_eq!(client.total(), Amount::from_str("0.0".to_owned()).unwrap());
        assert_eq!(
            client.available(),
            Amount::from_str("0.0".to_owned()).unwrap()
        );
        assert_eq!(client.locked(), false);
        assert_eq!(client.held(), Amount::from_str("0.0".to_owned()).unwrap());
    }
}

// Test duplicate transaction do nothing.
#[test]
fn test_duplicate_transactions_do_nothing() {
    let mut processor = TransactionProcessor::<CACHE_SIZE_LIMIT, CACHE_SIZE_LINE>::new();
    let num_iterations = 8 * 1024;
    for i in 0..num_iterations {
        let transaction = TransactionRecord {
            transaction_type: "deposit".to_owned(),
            client: 1,
            tx: i * 2,
            amount: Some("1".to_owned()),
        };

        assert_eq!(processor.process_transaction(transaction.clone()), Ok(()));
        assert!(processor.process_transaction(transaction).is_err());

        let transaction = TransactionRecord {
            transaction_type: "withdrawal".to_owned(),
            client: 1,
            tx: i * 2 + 1,
            amount: Some("1".to_owned()),
        };
        assert_eq!(processor.process_transaction(transaction.clone()), Ok(()));
        assert!(processor.process_transaction(transaction).is_err());
    }

    assert_eq!(processor.client_count(), 1);
    for client in processor.into_clients() {
        assert_eq!(client.client_id(), ClientId(1));
        assert_eq!(client.total(), Amount::from_str("0.0".to_owned()).unwrap());
        assert_eq!(
            client.available(),
            Amount::from_str("0.0".to_owned()).unwrap()
        );
        assert_eq!(client.locked(), false);
        assert_eq!(client.held(), Amount::from_str("0.0".to_owned()).unwrap());
    }
}

// Test a sequence of dispute, withdraw, resolve and make sure the
// account balance is correct.
#[test]
fn test_deposit_dispute_withdraw_resolve_withdraw() {
    let mut processor = TransactionProcessor::<CACHE_SIZE_LIMIT, CACHE_SIZE_LINE>::new();
    let deposit_transaction_id = 8 * 1024;
    let transaction = TransactionRecord {
        transaction_type: "deposit".to_owned(),
        client: 1,
        tx: deposit_transaction_id,
        amount: Some("1".to_owned()),
    };

    assert_eq!(processor.process_transaction(transaction), Ok(()));
    let transaction = TransactionRecord {
        transaction_type: "dispute".to_owned(),
        client: 1,
        tx: deposit_transaction_id,
        amount: None,
    };
    assert_eq!(processor.process_transaction(transaction), Ok(()));

    let transaction = TransactionRecord {
        transaction_type: "withdrawal".to_owned(),
        client: 1,
        tx: deposit_transaction_id + 1,
        amount: Some("1".to_owned()),
    };
    assert!(processor.process_transaction(transaction).is_err());

    let transaction = TransactionRecord {
        transaction_type: "resolve".to_owned(),
        client: 1,
        tx: deposit_transaction_id,
        amount: None,
    };

    assert_eq!(processor.process_transaction(transaction.clone()), Ok(()));

    assert!(processor.process_transaction(transaction).is_err());

    let transaction = TransactionRecord {
        transaction_type: "withdrawal".to_owned(),
        client: 1,
        tx: deposit_transaction_id + 1,
        amount: Some("1".to_owned()),
    };
    assert_eq!(processor.process_transaction(transaction), Ok(()));
    for client in processor.into_clients() {
        assert_eq!(client.client_id(), ClientId(1));
        assert_eq!(client.total(), Amount::from_str("0.0".to_owned()).unwrap());
        assert_eq!(
            client.available(),
            Amount::from_str("0.0".to_owned()).unwrap()
        );
        assert_eq!(client.locked(), false);
        assert_eq!(client.held(), Amount::from_str("0.0".to_owned()).unwrap());
    }
}

// Test that disputing the same transaction twice or resolving
// twice do not have any impact.
#[test]
fn test_deposit_dispute_twice_resolve_twice() {
    let mut processor = TransactionProcessor::<CACHE_SIZE_LIMIT, CACHE_SIZE_LINE>::new();
    let deposit_transaction_id = 8 * 1024;
    let transaction = TransactionRecord {
        transaction_type: "deposit".to_owned(),
        client: 1,
        tx: deposit_transaction_id,
        amount: Some("1".to_owned()),
    };

    assert_eq!(processor.process_transaction(transaction), Ok(()));
    let transaction = TransactionRecord {
        transaction_type: "dispute".to_owned(),
        client: 1,
        tx: deposit_transaction_id,
        amount: None,
    };

    assert_eq!(processor.process_transaction(transaction.clone()), Ok(()));
    assert!(processor.process_transaction(transaction).is_err());

    let transaction = TransactionRecord {
        transaction_type: "resolve".to_owned(),
        client: 1,
        tx: deposit_transaction_id,
        amount: None,
    };

    assert_eq!(processor.process_transaction(transaction.clone()), Ok(()));

    assert!(processor.process_transaction(transaction).is_err());

    for client in processor.into_clients() {
        assert_eq!(client.client_id(), ClientId(1));
        assert_eq!(client.total(), Amount::from_str("1.0".to_owned()).unwrap());
        assert_eq!(
            client.available(),
            Amount::from_str("1.0".to_owned()).unwrap()
        );
        assert_eq!(client.locked(), false);
        assert_eq!(client.held(), Amount::from_str("0.0".to_owned()).unwrap());
    }
}

// Test that withdraw after chargeback is not processed
#[test]
fn test_deposit_dispute_withdraw_chargeback_withdraw() {
    let mut processor = TransactionProcessor::<CACHE_SIZE_LIMIT, CACHE_SIZE_LINE>::new();
    let deposit_transaction_id = 8 * 1024;
    let transaction = TransactionRecord {
        transaction_type: "deposit".to_owned(),
        client: 1,
        tx: deposit_transaction_id,
        amount: Some("1".to_owned()),
    };

    assert_eq!(processor.process_transaction(transaction), Ok(()));
    let transaction = TransactionRecord {
        transaction_type: "dispute".to_owned(),
        client: 1,
        tx: deposit_transaction_id,
        amount: None,
    };
    assert_eq!(processor.process_transaction(transaction), Ok(()));

    let transaction = TransactionRecord {
        transaction_type: "withdrawal".to_owned(),
        client: 1,
        tx: deposit_transaction_id + 1,
        amount: Some("1".to_owned()),
    };
    assert!(processor.process_transaction(transaction).is_err());

    let transaction = TransactionRecord {
        transaction_type: "chargeback".to_owned(),
        client: 1,
        tx: deposit_transaction_id,
        amount: None,
    };

    assert_eq!(processor.process_transaction(transaction.clone()), Ok(()));

    assert!(processor.process_transaction(transaction).is_err());

    let transaction = TransactionRecord {
        transaction_type: "withdrawal".to_owned(),
        client: 1,
        tx: deposit_transaction_id + 1,
        amount: Some("1".to_owned()),
    };
    assert!(processor.process_transaction(transaction).is_err());

    for client in processor.into_clients() {
        assert_eq!(client.client_id(), ClientId(1));
        assert_eq!(client.total(), Amount::from_str("0.0".to_owned()).unwrap());
        assert_eq!(
            client.available(),
            Amount::from_str("0.0".to_owned()).unwrap()
        );
        assert_eq!(client.locked(), true);
        assert_eq!(client.held(), Amount::from_str("0.0".to_owned()).unwrap());
    }
}
