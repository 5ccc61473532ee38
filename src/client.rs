use crate::transaction_cache::{SpilledLine, TransactionCache};
use crate::type_defs::{
    decimal_text, in_range, Amount, ClientId, LedgerError, Transaction, TransactionId,
};
use std::collections::HashMap;
use vstd::prelude::*;

verus! {

broadcast use vstd::std_specs::hash::group_hash_axioms;

/// The final state of one account, amounts written as exact decimal text.
#[derive(Debug, Clone)]
pub struct ClientSnapshot {
    pub client: u16,
    pub available: String,
    pub held: String,
    pub total: String,
    pub locked: bool,
}
/// The map that a list of entries builds: a later entry for an id replaces
/// an earlier one.
pub open spec fn entries_map(s: Seq<(u32, Transaction)>) -> Map<u32, Transaction>
    decreases s.len(),
{
    if s.len() == 0 {
        Map::empty()
    } else {
        entries_map(s.drop_last()).insert(s.last().0, s.last().1)
    }
}

/// Which of a client's two stores a partition belongs to.
#[derive(Debug, PartialEq, Eq, Structural, Hash, Copy, Clone)]
pub enum StoreKind {
    Processed,
    Disputed,
}

/// One client account: its balances, its lock, every deposit and withdrawal
/// applied to it, and the deposits under dispute.
pub struct Client<const CACHE_SIZE_LIMIT: u64, const CACHE_LINE_SIZE: u32> {
    client_id: ClientId,
    available: Amount,
    held: Amount,
    total: Amount,
    locked: bool,
    processed_transactions: TransactionCache<CACHE_SIZE_LIMIT, CACHE_LINE_SIZE>,
    disputed: TransactionCache<CACHE_SIZE_LIMIT, CACHE_LINE_SIZE>,
}

impl<const CACHE_SIZE_LIMIT: u64, const CACHE_LINE_SIZE: u32> Client<
    CACHE_SIZE_LIMIT,
    CACHE_LINE_SIZE,
> {
    pub closed spec fn id(&self) -> ClientId {
        self.client_id
    }

    pub closed spec fn available_units(&self) -> int {
        self.available.units()
    }

    pub closed spec fn held_units(&self) -> int {
        self.held.units()
    }

    pub closed spec fn total_units(&self) -> int {
        self.total.units()
    }

    pub closed spec fn is_locked(&self) -> bool {
        self.locked
    }

    /// The store of every deposit and withdrawal applied.
    pub closed spec fn processed(&self) -> TransactionCache<CACHE_SIZE_LIMIT, CACHE_LINE_SIZE> {
        self.processed_transactions
    }

    /// The store of the deposits under dispute.
    pub closed spec fn disputes(&self) -> TransactionCache<CACHE_SIZE_LIMIT, CACHE_LINE_SIZE> {
        self.disputed
    }

    /// The account's invariant: amounts in range, `total == available + held`,
    /// and only deposits under dispute.
    pub open spec fn wf(&self) -> bool {
        &&& self.processed().wf()
        &&& self.disputes().wf()
        &&& in_range(self.available_units())
        &&& in_range(self.held_units())
        &&& in_range(self.total_units())
        &&& self.total_units() == self.available_units() + self.held_units()
        &&& forall|id: u32| #[trigger]
            self.processed()@.contains_key(id) ==> self.processed()@[id].wf()
        &&& forall|id: u32| #[trigger]
            self.disputes()@.contains_key(id) ==> (self.disputes()@[id] is Deposit
                && self.disputes()@[id].wf())
    }

    proof fn lemma_amounts_wf(&self)
        requires
            self.wf(),
        ensures
            self.available.wf(),
            self.held.wf(),
            self.total.wf(),
    {
    }

    /// Whether the partitions that `transaction` reads are in memory.
    pub open spec fn ready_for(&self, transaction: Transaction) -> bool {
        match transaction {
            Transaction::Deposit(_, id, _) => self.processed().ready(id.0),
            Transaction::Withdrawal(_, id, _) => self.processed().ready(id.0),
            Transaction::Dispute(_, id) => self.processed().ready(id.0) && self.disputes().ready(
                id.0,
            ),
            Transaction::Resolve(_, id) => self.disputes().ready(id.0),
            Transaction::ChargeBack(_, id) => self.disputes().ready(id.0),
            Transaction::Unknown => true,
        }
    }

    /// Balances, lock and both stores are as in `other`.
    pub open spec fn same_ledger(&self, other: &Self) -> bool {
        &&& self.id() == other.id()
        &&& self.available_units() == other.available_units()
        &&& self.held_units() == other.held_units()
        &&& self.total_units() == other.total_units()
        &&& self.is_locked() == other.is_locked()
        &&& self.processed()@ == other.processed()@
        &&& self.disputes()@ == other.disputes()@
    }

    /// What applying `t` as a deposit does.
    pub open spec fn deposit_post(pre: Self, post: Self, t: Transaction, r: Result<(), LedgerError>) -> bool {
        if pre.is_locked() {
            r == Err::<(), LedgerError>(LedgerError::AccountLocked) && post == pre
        } else {
            match t {
                Transaction::Deposit(_, id, a) => if pre.processed()@.contains_key(id.0) {
                    r == Err::<(), LedgerError>(LedgerError::DuplicateTransaction) && post == pre
                } else if !in_range(pre.available_units() + a.units()) || !in_range(
                    pre.total_units() + a.units(),
                ) {
                    r == Err::<(), LedgerError>(LedgerError::AmountOverflow) && post == pre
                } else {
                    &&& r == Ok::<(), LedgerError>(())
                    &&& post.id() == pre.id()
                    &&& post.available_units() == pre.available_units() + a.units()
                    &&& post.total_units() == pre.total_units() + a.units()
                    &&& post.held_units() == pre.held_units()
                    &&& post.is_locked() == pre.is_locked()
                    &&& post.processed()@ == pre.processed()@.insert(id.0, t)
                    &&& TransactionCache::insert_post(pre.processed(), post.processed(), id.0, t)
                    &&& post.disputes() == pre.disputes()
                },
                _ => r == Err::<(), LedgerError>(LedgerError::WrongTransactionType) && post == pre,
            }
        }
    }

    /// What applying `t` as a withdrawal does.
    pub open spec fn withdraw_post(pre: Self, post: Self, t: Transaction, r: Result<(), LedgerError>) -> bool {
        if pre.is_locked() {
            r == Err::<(), LedgerError>(LedgerError::AccountLocked) && post == pre
        } else {
            match t {
                Transaction::Withdrawal(_, id, a) => if pre.processed()@.contains_key(id.0) {
                    r == Err::<(), LedgerError>(LedgerError::DuplicateTransaction) && post == pre
                } else if a.units() > pre.available_units() {
                    r == Err::<(), LedgerError>(LedgerError::InsufficientFunds) && post == pre
                } else if !in_range(pre.available_units() - a.units()) || !in_range(
                    pre.total_units() - a.units(),
                ) {
                    r == Err::<(), LedgerError>(LedgerError::AmountOverflow) && post == pre
                } else {
                    &&& r == Ok::<(), LedgerError>(())
                    &&& post.id() == pre.id()
                    &&& post.available_units() == pre.available_units() - a.units()
                    &&& post.total_units() == pre.total_units() - a.units()
                    &&& post.held_units() == pre.held_units()
                    &&& post.is_locked() == pre.is_locked()
                    &&& post.processed()@ == pre.processed()@.insert(id.0, t)
                    &&& TransactionCache::insert_post(pre.processed(), post.processed(), id.0, t)
                    &&& post.disputes() == pre.disputes()
                },
                _ => r == Err::<(), LedgerError>(LedgerError::WrongTransactionType) && post == pre,
            }
        }
    }

    /// What disputing transaction `id` does. A locked account still accepts a
    /// dispute.
    pub open spec fn dispute_post(pre: Self, post: Self, id: u32, r: Result<(), LedgerError>) -> bool {
        if pre.disputes()@.contains_key(id) {
            r == Err::<(), LedgerError>(LedgerError::AlreadyDisputed) && post == pre
        } else if !pre.processed()@.contains_key(id) {
            r == Err::<(), LedgerError>(LedgerError::TransactionNotFound) && post == pre
        } else {
            match pre.processed()@[id] {
                Transaction::Deposit(_, _, a) => if !in_range(pre.available_units() - a.units())
                    || !in_range(pre.held_units() + a.units()) {
                    r == Err::<(), LedgerError>(LedgerError::AmountOverflow) && post == pre
                } else {
                    &&& r == Ok::<(), LedgerError>(())
                    &&& post.id() == pre.id()
                    &&& post.available_units() == pre.available_units() - a.units()
                    &&& post.held_units() == pre.held_units() + a.units()
                    &&& post.total_units() == pre.total_units()
                    &&& post.is_locked() == pre.is_locked()
                    &&& post.processed() == pre.processed()
                    &&& post.disputes()@ == pre.disputes()@.insert(id, pre.processed()@[id])
                    &&& TransactionCache::insert_post(
                        pre.disputes(),
                        post.disputes(),
                        id,
                        pre.processed()@[id],
                    )
                },
                _ => r == Err::<(), LedgerError>(LedgerError::WrongTransactionType) && post == pre,
            }
        }
    }

    /// What resolving (`chargeback == false`) or charging back
    /// (`chargeback == true`) the dispute of transaction `id` does.
    pub open spec fn settle_post(
        pre: Self,
        post: Self,
        id: u32,
        chargeback: bool,
        r: Result<(), LedgerError>,
    ) -> bool {
        if pre.is_locked() {
            r == Err::<(), LedgerError>(LedgerError::AccountLocked) && post == pre
        } else if !pre.disputes()@.contains_key(id) {
            r == Err::<(), LedgerError>(LedgerError::TransactionNotFound) && post == pre
        } else {
            let a = match pre.disputes()@[id] {
                Transaction::Deposit(_, _, a) => a.units(),
                _ => 0,
            };
            if !chargeback && (!in_range(pre.available_units() + a) || !in_range(
                pre.held_units() - a,
            )) {
                r == Err::<(), LedgerError>(LedgerError::AmountOverflow) && post == pre
            } else if chargeback && (!in_range(pre.total_units() - a) || !in_range(
                pre.held_units() - a,
            )) {
                r == Err::<(), LedgerError>(LedgerError::AmountOverflow) && post == pre
            } else {
                &&& r == Ok::<(), LedgerError>(())
                &&& post.id() == pre.id()
                &&& post.held_units() == pre.held_units() - a
                &&& if chargeback {
                    &&& post.available_units() == pre.available_units()
                    &&& post.total_units() == pre.total_units() - a
                    &&& post.is_locked()
                } else {
                    &&& post.available_units() == pre.available_units() + a
                    &&& post.total_units() == pre.total_units()
                    &&& post.is_locked() == pre.is_locked()
                }
                &&& post.processed() == pre.processed()
                &&& post.disputes()@ == pre.disputes()@.remove(id)
                &&& post.disputes().disk() == pre.disputes().disk()
                &&& post.disputes().size() == pre.disputes().size()
                &&& post.disputes().handed_out() == pre.disputes().handed_out()
            }
        }
    }

    /// A fresh, unlocked account with nothing in it.
    pub fn new(client_id: ClientId) -> (r: Self)
        requires
            CACHE_LINE_SIZE > 0,
        ensures
            r.wf(),
            r.id() == client_id,
            r.available_units() == 0,
            r.held_units() == 0,
            r.total_units() == 0,
            !r.is_locked(),
            r.processed()@ == Map::<u32, Transaction>::empty(),
            r.disputes()@ == Map::<u32, Transaction>::empty(),
            r.processed().disk() == Map::<u32, Map<u32, Transaction>>::empty(),
            r.disputes().disk() == Map::<u32, Map<u32, Transaction>>::empty(),
            r.processed().size() == 0,
            r.disputes().size() == 0,
            r.processed().handed_out() == Seq::<SpilledLine>::empty(),
            r.disputes().handed_out() == Seq::<SpilledLine>::empty(),
    {
        Self::new_with_cache(client_id, TransactionCache::new(), TransactionCache::new())
    }

    /// A fresh, unlocked account with zero balances over the given stores.
    pub fn new_with_cache(
        client_id: ClientId,
        processed_transactions: TransactionCache<CACHE_SIZE_LIMIT, CACHE_LINE_SIZE>,
        disputed: TransactionCache<CACHE_SIZE_LIMIT, CACHE_LINE_SIZE>,
    ) -> (r: Self)
        requires
            processed_transactions.wf(),
            disputed.wf(),
            forall|id: u32| #[trigger]
                processed_transactions@.contains_key(id) ==> processed_transactions@[id].wf(),
            forall|id: u32| #[trigger]
                disputed@.contains_key(id) ==> (disputed@[id] is Deposit && disputed@[id].wf()),
        ensures
            r.wf(),
            r.id() == client_id,
            r.available_units() == 0,
            r.held_units() == 0,
            r.total_units() == 0,
            !r.is_locked(),
            r.processed() == processed_transactions,
            r.disputes() == disputed,
    {
        Client {
            client_id,
            available: Amount::new(),
            held: Amount::new(),
            total: Amount::new(),
            locked: false,
            processed_transactions,
            disputed,
        }
    }

    /// Fails with `AccountLocked` on a locked account.
    pub fn can_process(&self) -> (r: Result<(), LedgerError>)
        ensures
            r == (if self.is_locked() {
                Err::<(), LedgerError>(LedgerError::AccountLocked)
            } else {
                Ok::<(), LedgerError>(())
            }),
    {
        if self.locked {
            return Err(LedgerError::AccountLocked);
        }
        Ok(())
    }

    /// Applies a deposit: credits available and total, and records it.
    pub fn deposit(&mut self, transaction: Transaction) -> (r: Result<(), LedgerError>)
        requires
            old(self).wf(),
            transaction.wf(),
            old(self).ready_for(transaction),
        ensures
            final(self).wf(),
            Self::deposit_post(*old(self), *final(self), transaction, r),
    {
        self.can_process()?;
        proof {
            self.lemma_amounts_wf();
        }
        if let Transaction::Deposit(_, transaction_id, amount) = transaction {
            if self.processed_transactions.contains_key(&transaction_id) {
                return Err(LedgerError::DuplicateTransaction);
            }
            let available = match self.available.checked_add(amount) {
                Some(v) => v,
                None => return Err(LedgerError::AmountOverflow),
            };
            let total = match self.total.checked_add(amount) {
                Some(v) => v,
                None => return Err(LedgerError::AmountOverflow),
            };
            self.available = available;
            self.total = total;
            self.processed_transactions.insert(transaction_id, transaction);
            return Ok(());
        }
        Err(LedgerError::WrongTransactionType)
    }

    /// Applies a withdrawal: debits available and total when the funds
    /// suffice, and records it.
    pub fn withdraw(&mut self, transaction: Transaction) -> (r: Result<(), LedgerError>)
        requires
            old(self).wf(),
            transaction.wf(),
            old(self).ready_for(transaction),
        ensures
            final(self).wf(),
            Self::withdraw_post(*old(self), *final(self), transaction, r),
    {
        self.can_process()?;
        proof {
            self.lemma_amounts_wf();
        }
        if let Transaction::Withdrawal(_, transaction_id, amount) = transaction {
            if self.processed_transactions.contains_key(&transaction_id) {
                return Err(LedgerError::DuplicateTransaction);
            }
            if !amount.le(self.available) {
                return Err(LedgerError::InsufficientFunds);
            }
            let available = match self.available.checked_sub(amount) {
                Some(v) => v,
                None => return Err(LedgerError::AmountOverflow),
            };
            let total = match self.total.checked_sub(amount) {
                Some(v) => v,
                None => return Err(LedgerError::AmountOverflow),
            };
            self.available = available;
            self.total = total;
            self.processed_transactions.insert(transaction_id, transaction);
            return Ok(());
        }
        Err(LedgerError::WrongTransactionType)
    }

    /// Puts a recorded deposit under dispute: its amount moves from available
    /// to held.
    pub fn dispute(&mut self, disputed_transaction_id: &TransactionId) -> (r: Result<(), LedgerError>)
        requires
            old(self).wf(),
            old(self).processed().ready(disputed_transaction_id.0),
            old(self).disputes().ready(disputed_transaction_id.0),
        ensures
            final(self).wf(),
            Self::dispute_post(*old(self), *final(self), disputed_transaction_id.0, r),
    {
        proof {
            self.lemma_amounts_wf();
        }
        if self.disputed.contains_key(disputed_transaction_id) {
            return Err(LedgerError::AlreadyDisputed);
        }
        let disputed_transaction = match self.processed_transactions.get(disputed_transaction_id) {
            Some(t) => t,
            None => return Err(LedgerError::TransactionNotFound),
        };
        if let Transaction::Deposit(_, _, amount) = disputed_transaction {
            let available = match self.available.checked_sub(amount) {
                Some(v) => v,
                None => return Err(LedgerError::AmountOverflow),
            };
            let held = match self.held.checked_add(amount) {
                Some(v) => v,
                None => return Err(LedgerError::AmountOverflow),
            };
            self.available = available;
            self.held = held;
            self.disputed.insert(*disputed_transaction_id, disputed_transaction);
            return Ok(());
        }
        Err(LedgerError::WrongTransactionType)
    }

    /// Ends the dispute of a deposit in the client's favour: its amount moves
    /// from held back to available.
    pub fn resolve(&mut self, disputed_transaction_id: &TransactionId) -> (r: Result<(), LedgerError>)
        requires
            old(self).wf(),
            old(self).disputes().ready(disputed_transaction_id.0),
        ensures
            final(self).wf(),
            Self::settle_post(*old(self), *final(self), disputed_transaction_id.0, false, r),
    {
        self.can_process()?;
        proof {
            self.lemma_amounts_wf();
        }
        let amount = match self.disputed.get(disputed_transaction_id) {
            Some(Transaction::Deposit(_, _, amount)) => amount,
            Some(_) => return Err(LedgerError::WrongTransactionType),
            None => return Err(LedgerError::TransactionNotFound),
        };
        let available = match self.available.checked_add(amount) {
            Some(v) => v,
            None => return Err(LedgerError::AmountOverflow),
        };
        let held = match self.held.checked_sub(amount) {
            Some(v) => v,
            None => return Err(LedgerError::AmountOverflow),
        };
        self.disputed.remove(disputed_transaction_id);
        self.available = available;
        self.held = held;
        Ok(())
    }

    /// Ends the dispute of a deposit against the client: its amount leaves
    /// held and total, and the account is locked.
    pub fn chargeback(&mut self, disputed_transaction_id: &TransactionId) -> (r: Result<(), LedgerError>)
        requires
            old(self).wf(),
            old(self).disputes().ready(disputed_transaction_id.0),
        ensures
            final(self).wf(),
            Self::settle_post(*old(self), *final(self), disputed_transaction_id.0, true, r),
    {
        self.can_process()?;
        proof {
            self.lemma_amounts_wf();
        }
        let amount = match self.disputed.get(disputed_transaction_id) {
            Some(Transaction::Deposit(_, _, amount)) => amount,
            Some(_) => return Err(LedgerError::WrongTransactionType),
            None => return Err(LedgerError::TransactionNotFound),
        };
        let total = match self.total.checked_sub(amount) {
            Some(v) => v,
            None => return Err(LedgerError::AmountOverflow),
        };
        let held = match self.held.checked_sub(amount) {
            Some(v) => v,
            None => return Err(LedgerError::AmountOverflow),
        };
        self.disputed.remove(disputed_transaction_id);
        self.locked = true;
        self.total = total;
        self.held = held;
        Ok(())
    }

    pub fn client_id(&self) -> (r: ClientId)
        ensures
            r == self.id(),
    {
        self.client_id
    }

    pub fn available(&self) -> (r: Amount)
        ensures
            r.units() == self.available_units(),
    {
        self.available
    }

    pub fn held(&self) -> (r: Amount)
        ensures
            r.units() == self.held_units(),
    {
        self.held
    }

    pub fn total(&self) -> (r: Amount)
        ensures
            r.units() == self.total_units(),
    {
        self.total
    }

    pub fn locked(&self) -> (r: bool)
        ensures
            r == self.is_locked(),
    {
        self.locked
    }

    /// The account's balances and lock, amounts as exact decimal text.
    pub fn snapshot(&self) -> (r: ClientSnapshot)
        requires
            self.wf(),
        ensures
            r.client == self.id().0,
            r.available@ == decimal_text(self.available_units()),
            r.held@ == decimal_text(self.held_units()),
            r.total@ == decimal_text(self.total_units()),
            r.locked == self.is_locked(),
    {
        proof {
            self.lemma_amounts_wf();
        }
        ClientSnapshot {
            client: self.client_id.0,
            available: self.available.to_text(),
            held: self.held.to_text(),
            total: self.total.to_text(),
            locked: self.locked,
        }
    }

    /// Whether both stores can read and write transaction `id`.
    pub open spec fn ready(&self, id: u32) -> bool {
        self.processed().ready(id) && self.disputes().ready(id)
    }

    /// The partition to hand back before transaction `id` can be applied,
    /// if any.
    pub fn pending_load(&self, transaction_id: &TransactionId) -> (r: Option<(StoreKind, u32)>)
        requires
            self.wf(),
        ensures
            r is None <==> self.ready(transaction_id.0),
            r matches Some(p) ==> p.1 == TransactionCache::<
                CACHE_SIZE_LIMIT,
                CACHE_LINE_SIZE,
            >::key_of(transaction_id.0),
            r matches Some(p) ==> (p.0 == StoreKind::Processed <==> !self.processed().ready(
                transaction_id.0,
            )),
    {
        match self.processed_transactions.pending_load(transaction_id) {
            Some(k) => Some((StoreKind::Processed, k)),
            None => match self.disputed.pending_load(transaction_id) {
                Some(k) => Some((StoreKind::Disputed, k)),
                None => None,
            },
        }
    }

    /// Whether `entry` may be handed back in partition `key` of store `kind`:
    /// it lies in that partition, carries an amount in range, and is a
    /// deposit, or a withdrawal in the store of processed transactions.
    pub open spec fn entry_ok(kind: StoreKind, key: u32, entry: (u32, Transaction)) -> bool {
        &&& TransactionCache::<CACHE_SIZE_LIMIT, CACHE_LINE_SIZE>::key_of(entry.0) == key
        &&& entry.1.wf()
        &&& (entry.1 is Deposit || (kind == StoreKind::Processed && entry.1 is Withdrawal))
    }

    /// What handing back partition `key` of store `kind` with `entries` does.
    pub open spec fn load_post(
        pre: Self,
        post: Self,
        kind: StoreKind,
        key: u32,
        entries: Seq<(u32, Transaction)>,
        r: Result<(), LedgerError>,
    ) -> bool {
        &&& r is Ok <==> forall|i: int|
            0 <= i < entries.len() ==> Self::entry_ok(kind, key, #[trigger] entries[i])
        &&& r is Err ==> post == pre
        &&& r is Err ==> r == Err::<(), LedgerError>(LedgerError::StoreIoError)
        &&& r is Ok ==> {
            &&& post.id() == pre.id()
            &&& post.available_units() == pre.available_units()
            &&& post.held_units() == pre.held_units()
            &&& post.total_units() == pre.total_units()
            &&& post.is_locked() == pre.is_locked()
            &&& kind == StoreKind::Processed ==> post.disputes() == pre.disputes()
                && TransactionCache::load_post(
                pre.processed(),
                post.processed(),
                key,
                entries_map(entries),
            )
            &&& kind == StoreKind::Disputed ==> post.processed() == pre.processed()
                && TransactionCache::load_post(
                pre.disputes(),
                post.disputes(),
                key,
                entries_map(entries),
            )
        }
    }

    /// Hands partition `key` of one store back into memory. Fails with
    /// `StoreIoError`, changing nothing, when an entry lies outside the
    /// partition, carries an amount out of range, or (in the store of
    /// disputes) is not a deposit.
    pub fn load(&mut self, kind: StoreKind, key: u32, entries: Vec<(u32, Transaction)>) -> (r: Result<
        (),
        LedgerError,
    >)
        requires
            old(self).wf(),
        ensures
            final(self).wf(),
            Self::load_post(*old(self), *final(self), kind, key, entries@, r),
    {
        let mut line: HashMap<u32, Transaction> = HashMap::new();
        let n = entries.len();
        let mut i: usize = 0;
        proof {
            self.processed().lemma_width_positive();
        }
        while i < n
            invariant
                old(self).wf(),
                *self == *old(self),
                n == entries@.len(),
                0 <= i <= n,
                CACHE_LINE_SIZE > 0,
                TransactionCache::<CACHE_SIZE_LIMIT, CACHE_LINE_SIZE>::in_partition(line@, key),
                forall|id: u32| #[trigger]
                    line@.contains_key(id) ==> line@[id].wf() && (kind == StoreKind::Disputed
                        ==> line@[id] is Deposit),
                line@ == entries_map(entries@.take(i as int)),
                forall|j: int| 0 <= j < i ==> Self::entry_ok(kind, key, #[trigger] entries@[j]),
            decreases n - i,
        {
            let (id, t) = entries[i];
            if id / CACHE_LINE_SIZE != key {
                return Err(LedgerError::StoreIoError);
            }
            let valid = match t {
                Transaction::Deposit(_, _, a) => a.is_valid(),
                Transaction::Withdrawal(_, _, a) => kind == StoreKind::Processed && a.is_valid(),
                _ => false,
            };
            if !valid {
                return Err(LedgerError::StoreIoError);
            }
            line.insert(id, t);
            proof {
                assert(entries@.take(i + 1).drop_last() == entries@.take(i as int));
            }
            i = i + 1;
        }
        assert(entries@.take(n as int) == entries@);
        match kind {
            StoreKind::Processed => self.processed_transactions.load(key, line),
            StoreKind::Disputed => self.disputed.load(key, line),
        }
        proof {
            assert forall|id: u32| #[trigger]
                self.processed()@.contains_key(id) implies self.processed()@[id].wf() by {
                let k = TransactionCache::<CACHE_SIZE_LIMIT, CACHE_LINE_SIZE>::key_of(id);
                if kind == StoreKind::Processed && k == key && old(self).processed().disk().contains_key(key) {
                    assert(self.processed().resident().contains_key(k));
                } else {
                    assert(old(self).processed()@.contains_key(id));
                }
            }
            assert forall|id: u32| #[trigger]
                self.disputes()@.contains_key(id) implies (self.disputes()@[id] is Deposit
                && self.disputes()@[id].wf()) by {
                let k = TransactionCache::<CACHE_SIZE_LIMIT, CACHE_LINE_SIZE>::key_of(id);
                if kind == StoreKind::Disputed && k == key && old(self).disputes().disk().contains_key(key) {
                    assert(self.disputes().resident().contains_key(k));
                } else {
                    assert(old(self).disputes()@.contains_key(id));
                }
            }
        }
        Ok(())
    }

    /// Collects the partitions that each store has handed out: those of
    /// processed transactions first, then those of disputes. Balances and what
    /// both stores hold are unchanged.
    pub fn take_spilled(&mut self) -> (r: (Vec<SpilledLine>, Vec<SpilledLine>))
        requires
            old(self).wf(),
        ensures
            final(self).wf(),
            final(self).same_ledger(old(self)),
            r.0@ == old(self).processed().handed_out(),
            r.1@ == old(self).disputes().handed_out(),
            final(self).processed().handed_out() == Seq::<SpilledLine>::empty(),
            final(self).disputes().handed_out() == Seq::<SpilledLine>::empty(),
            final(self).processed().disk() == old(self).processed().disk(),
            final(self).disputes().disk() == old(self).disputes().disk(),
    {
        let a = self.processed_transactions.take_spilled();
        let b = self.disputed.take_spilled();
        (a, b)
    }

    /// On every account state, total equals available plus held.
    pub proof fn lemma_total_is_available_plus_held(c: Self)
        requires
            c.wf(),
        ensures
            c.total_units() == c.available_units() + c.held_units(),
    {
    }

    /// On a fresh account, a deposit followed by a withdrawal of the same
    /// amount (under another transaction id) both succeed and leave every
    /// balance at zero, unlocked.
    pub proof fn lemma_deposit_then_withdraw(
        c0: Self,
        c1: Self,
        c2: Self,
        deposit: Transaction,
        withdrawal: Transaction,
        r1: Result<(), LedgerError>,
        r2: Result<(), LedgerError>,
    )
        requires
            c0.wf(),
            c0.available_units() == 0,
            c0.held_units() == 0,
            !c0.is_locked(),
            c0.processed()@ == Map::<u32, Transaction>::empty(),
            deposit.wf(),
            deposit is Deposit,
            withdrawal is Withdrawal,
            deposit->Deposit_2.units() == withdrawal->Withdrawal_2.units(),
            deposit->Deposit_1 != withdrawal->Withdrawal_1,
            Self::deposit_post(c0, c1, deposit, r1),
            Self::withdraw_post(c1, c2, withdrawal, r2),
        ensures
            r1 is Ok,
            r2 is Ok,
            c2.available_units() == 0,
            c2.held_units() == 0,
            c2.total_units() == 0,
            !c2.is_locked(),
    {
        assert(in_range(deposit->Deposit_2.units()));
        assert(!c1.processed()@.contains_key(withdrawal->Withdrawal_1.0));
    }

    /// Applying the same deposit or withdrawal a second time, after it was
    /// applied once, fails with `DuplicateTransaction` and changes nothing.
    pub proof fn lemma_duplicate_is_rejected(
        c0: Self,
        c1: Self,
        c2: Self,
        t: Transaction,
        r1: Result<(), LedgerError>,
        r2: Result<(), LedgerError>,
    )
        requires
            c0.wf(),
            t is Deposit ==> Self::deposit_post(c0, c1, t, r1) && Self::deposit_post(c1, c2, t, r2),
            t is Withdrawal ==> Self::withdraw_post(c0, c1, t, r1) && Self::withdraw_post(
                c1,
                c2,
                t,
                r2,
            ),
            t is Deposit || t is Withdrawal,
            r1 is Ok,
        ensures
            r2 == Err::<(), LedgerError>(LedgerError::DuplicateTransaction),
            c2 == c1,
    {
    }

    /// Disputing a deposit and then resolving it gives back the balances from
    /// before the dispute; a second resolve of the same id fails with
    /// `TransactionNotFound` and changes nothing.
    pub proof fn lemma_dispute_then_resolve(
        c0: Self,
        c1: Self,
        c2: Self,
        c3: Self,
        id: u32,
        r1: Result<(), LedgerError>,
        r2: Result<(), LedgerError>,
        r3: Result<(), LedgerError>,
    )
        requires
            c0.wf(),
            !c0.is_locked(),
            c0.processed()@.contains_key(id),
            c0.processed()@[id] is Deposit,
            !c0.disputes()@.contains_key(id),
            Self::dispute_post(c0, c1, id, r1),
            r1 is Ok,
            Self::settle_post(c1, c2, id, false, r2),
            Self::settle_post(c2, c3, id, false, r3),
        ensures
            r2 is Ok,
            c2.available_units() == c0.available_units(),
            c2.held_units() == c0.held_units(),
            c2.total_units() == c0.total_units(),
            !c2.is_locked(),
            r3 == Err::<(), LedgerError>(LedgerError::TransactionNotFound),
            c3 == c2,
    {
        assert(c1.disputes()@.contains_key(id));
        assert(!c2.disputes()@.contains_key(id));
    }

    /// Disputing a deposit of amount `a` and charging it back lowers total by
    /// `a`, gives held back its value from before the dispute, and locks the
    /// account; any later withdrawal fails with `AccountLocked`.
    pub proof fn lemma_dispute_then_chargeback(
        c0: Self,
        c1: Self,
        c2: Self,
        c3: Self,
        id: u32,
        withdrawal: Transaction,
        r1: Result<(), LedgerError>,
        r2: Result<(), LedgerError>,
        r3: Result<(), LedgerError>,
    )
        requires
            c0.wf(),
            !c0.is_locked(),
            c0.processed()@.contains_key(id),
            c0.processed()@[id] is Deposit,
            !c0.disputes()@.contains_key(id),
            in_range(c0.total_units() - c0.processed()@[id]->Deposit_2.units()),
            Self::dispute_post(c0, c1, id, r1),
            r1 is Ok,
            Self::settle_post(c1, c2, id, true, r2),
            Self::withdraw_post(c2, c3, withdrawal, r3),
        ensures
            r2 is Ok,
            c2.total_units() == c0.total_units() - c0.processed()@[id]->Deposit_2.units(),
            c2.held_units() == c0.held_units(),
            c2.is_locked(),
            r3 == Err::<(), LedgerError>(LedgerError::AccountLocked),
            c3 == c2,
    {
        assert(c1.disputes()@.contains_key(id));
        assert(c1.disputes()@[id] == c0.processed()@[id]);
    }

    /// Disputing an id that was never applied fails with
    /// `TransactionNotFound` and changes nothing.
    pub proof fn lemma_dispute_unknown_id(
        c0: Self,
        c1: Self,
        id: u32,
        r: Result<(), LedgerError>,
    )
        requires
            c0.wf(),
            !c0.processed()@.contains_key(id),
            !c0.disputes()@.contains_key(id),
            Self::dispute_post(c0, c1, id, r),
        ensures
            r == Err::<(), LedgerError>(LedgerError::TransactionNotFound),
            c1 == c0,
    {
    }
}

} // verus!
