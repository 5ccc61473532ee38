use ledger_engine::client::{Client, StoreKind};
use ledger_engine::processor::{TransactionProcessor, CACHE_SIZE_LIMIT, CACHE_SIZE_LINE};
use ledger_engine::transaction_cache::TransactionCache;
use ledger_engine::type_defs::{
    Amount, ClientId, LedgerError, Transaction, TransactionId, TransactionRecord,
};

type Processor = TransactionProcessor<CACHE_SIZE_LIMIT, CACHE_SIZE_LINE>;

fn record(kind: &str, client: u16, tx: u32, amount: Option<&str>) -> TransactionRecord {
    TransactionRecord {
        transaction_type: kind.to_owned(),
        client,
        tx,
        amount: amount.map(|a| a.to_owned()),
    }
}

fn amount(text: &str) -> Amount {
    Amount::from_str(text.to_owned()).unwrap()
}

fn only_client(processor: Processor) -> Client<CACHE_SIZE_LIMIT, CACHE_SIZE_LINE> {
    let mut clients = processor.into_clients();
    assert_eq!(clients.len(), 1);
    clients.pop().unwrap()
}

fn deposit(client: u16, tx: u32, a: &str) -> Transaction {
    Transaction::from_record(record("deposit", client, tx, Some(a))).unwrap()
}

#[test]
fn deposit_then_insufficient_withdrawal() {
    let mut p = Processor::new();
    assert_eq!(p.process_transaction(record("deposit", 1, 1, Some("1.5"))), Ok(()));
    assert_eq!(
        p.process_transaction(record("withdrawal", 1, 2, Some("2.0"))),
        Err(LedgerError::InsufficientFunds)
    );
    let c = only_client(p);
    assert_eq!(c.available(), amount("1.5"));
    assert_eq!(c.total(), amount("1.5"));
    assert_eq!(c.held(), amount("0"));
}

#[test]
fn excess_precision_is_rejected() {
    assert_eq!(
        Amount::from_str("1.23456".to_owned()),
        Err(LedgerError::InvalidPrecision)
    );
    assert_eq!(Amount::from_parts(123456, 5), Err(LedgerError::InvalidPrecision));
    assert_eq!(Amount::from_str("1.2345".to_owned()), Amount::from_parts(12345, 4));
}

#[test]
fn malformed_amount_is_rejected() {
    assert_eq!(Amount::from_str("abc".to_owned()), Err(LedgerError::InvalidFormat));
    let mut p = Processor::new();
    assert_eq!(
        p.process_transaction(record("deposit", 1, 1, Some("x1"))),
        Err(LedgerError::InvalidFormat)
    );
    assert_eq!(p.client_count(), 0);
}

#[test]
fn amount_parts_scale_to_four_digits() {
    assert_eq!(Amount::from_parts(15, 1), Amount::from_parts(15000, 4));
    assert_eq!(amount("1"), Amount::from_parts(10000, 4).unwrap());
    assert_eq!(amount("-2.5"), Amount::from_parts(-25000, 4).unwrap());
    assert_eq!(
        Amount::from_parts(79228162514264337593543950335, 0),
        Err(LedgerError::AmountOverflow)
    );
}

#[test]
fn amount_text_has_four_fraction_digits() {
    assert_eq!(amount("1.5").to_text(), "1.5000");
    assert_eq!(Amount::new().to_text(), "0.0000");
    assert_eq!(amount("-0.25").to_text(), "-0.2500");
}

#[test]
fn amount_arithmetic_is_exact() {
    let a = amount("0.1");
    let b = amount("0.2");
    assert_eq!(a.checked_add(b), Some(amount("0.3")));
    assert_eq!(b.checked_sub(a), Some(amount("0.1")));
    let big = Amount::from_parts(79228162514264337593543950335, 4).unwrap();
    assert_eq!(big.checked_add(amount("0.0001")), None);
    assert!(a.le(b));
    assert!(!b.le(a));
}

#[test]
fn deposit_then_withdraw_same_amount_is_zero() {
    let mut p = Processor::new();
    assert_eq!(p.process_transaction(record("deposit", 3, 10, Some("7.25"))), Ok(()));
    assert_eq!(p.process_transaction(record("withdrawal", 3, 11, Some("7.25"))), Ok(()));
    let c = only_client(p);
    assert_eq!(c.available(), amount("0"));
    assert_eq!(c.held(), amount("0"));
    assert_eq!(c.total(), amount("0"));
    assert!(!c.locked());
}

#[test]
fn duplicate_withdrawal_is_rejected() {
    let mut p = Processor::new();
    assert_eq!(p.process_transaction(record("deposit", 1, 1, Some("5"))), Ok(()));
    assert_eq!(p.process_transaction(record("withdrawal", 1, 2, Some("2"))), Ok(()));
    assert_eq!(
        p.process_transaction(record("withdrawal", 1, 2, Some("2"))),
        Err(LedgerError::DuplicateTransaction)
    );
    assert_eq!(
        p.process_transaction(record("deposit", 1, 1, Some("5"))),
        Err(LedgerError::DuplicateTransaction)
    );
    let c = only_client(p);
    assert_eq!(c.available(), amount("3"));
    assert_eq!(c.total(), amount("3"));
}

#[test]
fn dispute_resolve_restores_balances() {
    let mut p = Processor::new();
    assert_eq!(p.process_transaction(record("deposit", 1, 1, Some("4"))), Ok(()));
    assert_eq!(p.process_transaction(record("dispute", 1, 1, None)), Ok(()));
    assert_eq!(
        p.process_transaction(record("dispute", 1, 1, None)),
        Err(LedgerError::AlreadyDisputed)
    );
    assert_eq!(p.process_transaction(record("resolve", 1, 1, None)), Ok(()));
    assert_eq!(
        p.process_transaction(record("resolve", 1, 1, None)),
        Err(LedgerError::TransactionNotFound)
    );
    let c = only_client(p);
    assert_eq!(c.available(), amount("4"));
    assert_eq!(c.held(), amount("0"));
    assert_eq!(c.total(), amount("4"));
}

#[test]
fn chargeback_locks_account() {
    let mut p = Processor::new();
    assert_eq!(p.process_transaction(record("deposit", 2, 1, Some("3"))), Ok(()));
    assert_eq!(p.process_transaction(record("deposit", 2, 2, Some("1"))), Ok(()));
    assert_eq!(p.process_transaction(record("dispute", 2, 1, None)), Ok(()));
    assert_eq!(p.process_transaction(record("chargeback", 2, 1, None)), Ok(()));
    assert_eq!(
        p.process_transaction(record("withdrawal", 2, 3, Some("0.5"))),
        Err(LedgerError::AccountLocked)
    );
    assert_eq!(
        p.process_transaction(record("deposit", 2, 4, Some("0.5"))),
        Err(LedgerError::AccountLocked)
    );
    // A locked account still takes a dispute.
    assert_eq!(p.process_transaction(record("dispute", 2, 2, None)), Ok(()));
    let c = only_client(p);
    assert!(c.locked());
    assert_eq!(c.total(), amount("1"));
    assert_eq!(c.held(), amount("1"));
    assert_eq!(c.available(), amount("0"));
}

#[test]
fn dispute_of_unknown_id_fails() {
    let mut p = Processor::new();
    assert_eq!(p.process_transaction(record("deposit", 1, 1, Some("2"))), Ok(()));
    assert_eq!(
        p.process_transaction(record("dispute", 1, 99, None)),
        Err(LedgerError::TransactionNotFound)
    );
    let c = only_client(p);
    assert_eq!(c.available(), amount("2"));
    assert_eq!(c.held(), amount("0"));
}

#[test]
fn withdrawal_cannot_be_disputed() {
    let mut p = Processor::new();
    assert_eq!(p.process_transaction(record("deposit", 1, 1, Some("2"))), Ok(()));
    assert_eq!(p.process_transaction(record("withdrawal", 1, 2, Some("1"))), Ok(()));
    assert_eq!(
        p.process_transaction(record("dispute", 1, 2, None)),
        Err(LedgerError::WrongTransactionType)
    );
}

#[test]
fn unknown_kind_is_unrecognized() {
    let mut p = Processor::new();
    assert_eq!(
        p.process_transaction(record("transfer", 1, 1, Some("2"))),
        Err(LedgerError::UnrecognizedTransactionType)
    );
    assert_eq!(p.client_count(), 0);
    assert_eq!(
        Transaction::from_record(record("transfer", 1, 1, None)),
        Ok(Transaction::Unknown)
    );
}

#[test]
fn record_without_amount_deposits_zero() {
    let t = Transaction::from_record(record("deposit", 4, 8, None)).unwrap();
    assert_eq!(t, Transaction::Deposit(ClientId(4), TransactionId(8), Amount::new()));
    assert_eq!(
        Transaction::from_record(record("chargeback", 4, 8, Some("1"))),
        Ok(Transaction::ChargeBack(ClientId(4), TransactionId(8)))
    );
}

#[test]
fn balances_keep_total_identity() {
    let mut p = Processor::new();
    let steps = [
        record("deposit", 1, 1, Some("10")),
        record("withdrawal", 1, 2, Some("3.5")),
        record("deposit", 1, 3, Some("2.25")),
        record("dispute", 1, 3, None),
        record("dispute", 1, 1, None),
        record("resolve", 1, 1, None),
    ];
    for s in steps.iter() {
        assert_eq!(p.process_transaction(s.clone()), Ok(()));
    }
    let c = only_client(p);
    assert_eq!(c.available().checked_add(c.held()), Some(c.total()));
    assert_eq!(c.total(), amount("8.75"));
    assert_eq!(c.held(), amount("2.25"));
}

#[test]
fn snapshot_writes_exact_text() {
    let mut p = Processor::new();
    assert_eq!(p.process_transaction(record("deposit", 5, 1, Some("1.5"))), Ok(()));
    assert_eq!(p.process_transaction(record("deposit", 6, 2, Some("2"))), Ok(()));
    let snap = p.snapshot();
    assert_eq!(snap.len(), 2);
    assert_eq!(snap[0].client, 5);
    assert_eq!(snap[0].available, "1.5000");
    assert_eq!(snap[0].held, "0.0000");
    assert_eq!(snap[0].total, "1.5000");
    assert!(!snap[0].locked);
    assert_eq!(snap[1].client, 6);
    assert_eq!(snap[1].total, "2.0000");
}

#[test]
fn store_spill_round_trip() {
    let mut store = TransactionCache::<4, 3>::new();
    let mut txs = Vec::new();
    for i in 0..4u32 {
        let t = deposit(1, i, "1");
        txs.push(t);
        assert_eq!(store.insert(TransactionId(i), t), None);
    }
    assert_eq!(store.cache_size(), 4);
    assert!(store.take_spilled().is_empty());
    // The fifth record goes over the limit: every partition is handed out.
    let t = deposit(1, 4, "1");
    txs.push(t);
    assert_eq!(store.insert(TransactionId(4), t), None);
    assert_eq!(store.cache_size(), 0);
    let spilled = store.take_spilled();
    assert!(store.take_spilled().is_empty());
    let mut keys: Vec<u32> = spilled.iter().map(|l| l.0).collect();
    keys.sort();
    assert_eq!(keys, vec![0, 1]);
    for i in 0..5u32 {
        assert_eq!(store.pending_load(&TransactionId(i)), Some(i / 3));
    }
    for (key, line) in spilled {
        store.load(key, line);
    }
    assert_eq!(store.cache_size(), 5);
    for i in 0..5u32 {
        assert_eq!(store.pending_load(&TransactionId(i)), None);
        assert!(store.contains_key(&TransactionId(i)));
        assert_eq!(store.get(&TransactionId(i)), Some(txs[i as usize]));
    }
    assert_eq!(store.remove(&TransactionId(4)), Some(txs[4]));
    assert!(!store.contains_key(&TransactionId(4)));
}

#[test]
fn store_under_limit_does_not_spill() {
    let mut store = TransactionCache::<4, 3>::new();
    for i in 0..4u32 {
        store.insert(TransactionId(i), deposit(1, i, "1"));
    }
    assert_eq!(store.cache_size(), 4);
    assert!(store.take_spilled().is_empty());
    assert_eq!(store.pending_load(&TransactionId(0)), None);
    assert_eq!(store.get(&TransactionId(9)), None);
}

#[test]
fn ledger_after_spill_and_reload() {
    let mut p = TransactionProcessor::<2, 2>::new();
    for i in 0..4u32 {
        assert_eq!(p.process_transaction(record("deposit", 1, i, Some("1"))), Ok(()));
        let (processed, disputed) = p.take_spilled(ClientId(1));
        assert!(disputed.is_empty());
        assert_eq!(processed.is_empty(), i < 2);
        for (key, line) in processed {
            let entries: Vec<(u32, Transaction)> = line.into_iter().collect();
            // Reload right away through the account, as a reader would.
            assert_eq!(p.load_partition(ClientId(1), StoreKind::Processed, key, entries), Ok(()));
        }
    }
    // Spill again, then a dispute needs its partition back first.
    assert_eq!(p.process_transaction(record("deposit", 1, 9, Some("1"))), Ok(()));
    let (processed, _) = p.take_spilled(ClientId(1));
    assert!(!processed.is_empty());
    assert_eq!(p.pending_load(ClientId(1), TransactionId(2)), Some((StoreKind::Processed, 1)));
    for (key, line) in processed {
        let entries: Vec<(u32, Transaction)> = line.into_iter().collect();
        assert_eq!(p.load_partition(ClientId(1), StoreKind::Processed, key, entries), Ok(()));
    }
    assert_eq!(p.pending_load(ClientId(1), TransactionId(2)), None);
    assert_eq!(p.process_transaction(record("dispute", 1, 2, None)), Ok(()));
    let c = only_client_small(p);
    assert_eq!(c.total(), amount("5"));
    assert_eq!(c.held(), amount("1"));
}

fn only_client_small(p: TransactionProcessor<2, 2>) -> Client<2, 2> {
    let mut clients = p.into_clients();
    assert_eq!(clients.len(), 1);
    clients.pop().unwrap()
}

#[test]
fn malformed_partition_is_store_error() {
    let mut p = TransactionProcessor::<2, 2>::new();
    assert_eq!(
        p.load_partition(ClientId(7), StoreKind::Processed, 0, Vec::new()),
        Err(LedgerError::StoreIoError)
    );
    assert_eq!(p.process_transaction(record("deposit", 7, 1, Some("1"))), Ok(()));
    // Id 5 does not belong to partition 0.
    let bad = vec![(5u32, deposit(7, 5, "1"))];
    assert_eq!(
        p.load_partition(ClientId(7), StoreKind::Processed, 0, bad),
        Err(LedgerError::StoreIoError)
    );
    let withdrawal = Transaction::from_record(record("withdrawal", 7, 0, Some("1"))).unwrap();
    assert_eq!(
        p.load_partition(ClientId(7), StoreKind::Disputed, 0, vec![(0, withdrawal)]),
        Err(LedgerError::StoreIoError)
    );
}

#[test]
fn overlong_amount_is_rejected_not_rounded() {
    // Thirty digits do not fit a decimal mantissa: the text is refused.
    assert_eq!(
        Amount::from_str("1234567890123456789012345.12345".to_owned()),
        Err(LedgerError::InvalidFormat)
    );
    assert_eq!(
        Amount::from_str("1.00000".to_owned()),
        Err(LedgerError::InvalidPrecision)
    );
}
