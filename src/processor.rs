use crate::client::{Client, ClientSnapshot, StoreKind};
use crate::transaction_cache::{SpilledLine, TransactionCache};
use crate::type_defs::{ClientId, LedgerError, Transaction, TransactionId, TransactionRecord};
use std::collections::HashMap;
use vstd::prelude::*;

verus! {

broadcast use vstd::std_specs::hash::group_hash_axioms;

/// Records kept in memory per store before its partitions are spilled.
pub const CACHE_SIZE_LIMIT: u64 = 2 * 1024 * 1024 * 1024;

/// Transaction ids per partition.
pub const CACHE_SIZE_LINE: u32 = 4 * 1024 * 1024;

/// The id of the transaction that `t` applies or refers to.
pub open spec fn transaction_id_of(t: Transaction) -> u32 {
    match t {
        Transaction::Deposit(_, id, _) => id.0,
        Transaction::Withdrawal(_, id, _) => id.0,
        Transaction::Dispute(_, id) => id.0,
        Transaction::Resolve(_, id) => id.0,
        Transaction::ChargeBack(_, id) => id.0,
        Transaction::Unknown => 0,
    }
}

/// Every account met so far, each created when a transaction first names it.
pub struct TransactionProcessor<const CACHE_SIZE_LIMIT: u64, const CACHE_LINE_SIZE: u32> {
    clients: HashMap<u16, Client<CACHE_SIZE_LIMIT, CACHE_LINE_SIZE>>,
    order: Vec<u16>,
}

impl<const CACHE_SIZE_LIMIT: u64, const CACHE_LINE_SIZE: u32> TransactionProcessor<
    CACHE_SIZE_LIMIT,
    CACHE_LINE_SIZE,
> {
    /// The accounts, by client id.
    pub closed spec fn clients(&self) -> Map<u16, Client<CACHE_SIZE_LIMIT, CACHE_LINE_SIZE>> {
        self.clients@
    }

    /// The client ids in the order their accounts were created.
    pub closed spec fn order(&self) -> Seq<u16> {
        self.order@
    }

    pub open spec fn wf(&self) -> bool {
        &&& CACHE_LINE_SIZE > 0
        &&& forall|i: int, j: int|
            0 <= i < j < self.order().len() ==> self.order()[i] != self.order()[j]
        &&& forall|c: u16| #[trigger]
            self.clients().contains_key(c) <==> self.order().contains(c)
        &&& forall|c: u16| #[trigger]
            self.clients().contains_key(c) ==> self.clients()[c].wf()
                && self.clients()[c].id().0 == c
    }

    /// Whether transaction `id` of client `client` can be read and written.
    pub open spec fn ready(&self, client: u16, id: u32) -> bool {
        self.clients().contains_key(client) ==> self.clients()[client].ready(id)
    }

    /// A client as `Client::new` makes it.
    pub open spec fn is_fresh(c: Client<CACHE_SIZE_LIMIT, CACHE_LINE_SIZE>, id: ClientId) -> bool {
        &&& c.wf()
        &&& c.id() == id
        &&& c.available_units() == 0
        &&& c.held_units() == 0
        &&& c.total_units() == 0
        &&& !c.is_locked()
        &&& c.processed()@ == Map::<u32, Transaction>::empty()
        &&& c.disputes()@ == Map::<u32, Transaction>::empty()
        &&& c.processed().disk() == Map::<u32, Map<u32, Transaction>>::empty()
        &&& c.disputes().disk() == Map::<u32, Map<u32, Transaction>>::empty()
        &&& c.processed().size() == 0
        &&& c.disputes().size() == 0
        &&& c.processed().handed_out() == Seq::<SpilledLine>::empty()
        &&& c.disputes().handed_out() == Seq::<SpilledLine>::empty()
    }

    /// What applying `t` to account `pre` does.
    pub open spec fn apply_post(
        pre: Client<CACHE_SIZE_LIMIT, CACHE_LINE_SIZE>,
        post: Client<CACHE_SIZE_LIMIT, CACHE_LINE_SIZE>,
        t: Transaction,
        r: Result<(), LedgerError>,
    ) -> bool {
        match t {
            Transaction::Deposit(_, _, _) => Client::deposit_post(pre, post, t, r),
            Transaction::Withdrawal(_, _, _) => Client::withdraw_post(pre, post, t, r),
            Transaction::Dispute(_, id) => Client::dispute_post(pre, post, id.0, r),
            Transaction::Resolve(_, id) => Client::settle_post(pre, post, id.0, false, r),
            Transaction::ChargeBack(_, id) => Client::settle_post(pre, post, id.0, true, r),
            Transaction::Unknown => false,
        }
    }

    /// What routing `t` does: an unknown transaction fails and changes
    /// nothing; any other is applied to the account it names, created fresh
    /// if it was not met before, and every other account is left as it was.
    pub open spec fn route_post(pre: Self, post: Self, t: Transaction, r: Result<(), LedgerError>) -> bool {
        &&& post.wf()
        &&& match t.client_of() {
            None => r == Err::<(), LedgerError>(LedgerError::UnrecognizedTransactionType)
                && post.clients() == pre.clients(),
            Some(c) => {
                &&& post.clients().contains_key(c.0)
                &&& post.clients().remove(c.0) == pre.clients().remove(c.0)
                &&& pre.clients().contains_key(c.0) ==> Self::apply_post(
                    pre.clients()[c.0],
                    post.clients()[c.0],
                    t,
                    r,
                )
                &&& !pre.clients().contains_key(c.0) ==> exists|
                    fresh: Client<CACHE_SIZE_LIMIT, CACHE_LINE_SIZE>,
                |
                    Self::is_fresh(fresh, c) && Self::apply_post(fresh, post.clients()[c.0], t, r)
            },
        }
    }

    /// No accounts.
    pub fn new() -> (r: Self)
        requires
            CACHE_LINE_SIZE > 0,
        ensures
            r.wf(),
            r.clients() == Map::<u16, Client<CACHE_SIZE_LIMIT, CACHE_LINE_SIZE>>::empty(),
    {
        TransactionProcessor { clients: HashMap::new(), order: Vec::new() }
    }

    /// The number of accounts.
    pub fn client_count(&self) -> (r: usize)
        requires
            self.wf(),
        ensures
            r == self.clients().len(),
    {
        proof {
            self.lemma_len();
        }
        self.order.len()
    }

    proof fn lemma_len(&self)
        requires
            self.wf(),
        ensures
            self.clients().len() == self.order().len(),
    {
        self.order().unique_seq_to_set();
        assert(self.clients().dom() =~= self.order().to_set());
    }

    /// Applies `transaction` to the account it names.
    pub fn route(&mut self, transaction: Transaction) -> (r: Result<(), LedgerError>)
        requires
            old(self).wf(),
            transaction.wf(),
            transaction.client_of() matches Some(c) ==> old(self).ready(
                c.0,
                transaction_id_of(transaction),
            ),
        ensures
            Self::route_post(*old(self), *final(self), transaction, r),
    {
        let client_id = match transaction {
            Transaction::Deposit(c, _, _) => c,
            Transaction::Withdrawal(c, _, _) => c,
            Transaction::Dispute(c, _) => c,
            Transaction::Resolve(c, _) => c,
            Transaction::ChargeBack(c, _) => c,
            Transaction::Unknown => return Err(LedgerError::UnrecognizedTransactionType),
        };
        let key = client_id.0;
        let mut client = match self.clients.remove(&key) {
            Some(c) => c,
            None => {
                self.order.push(key);
                proof {
                    assert(self.order@.last() == key);
                    assert forall|c: u16| #[trigger]
                        old(self).clients@.contains_key(c) ==> self.order@.contains(c) by {
                        if old(self).clients@.contains_key(c) {
                            let j = choose|j: int|
                                0 <= j < old(self).order@.len() && old(self).order@[j] == c;
                            assert(self.order@[j] == c);
                        }
                    }
                    assert forall|c: u16| #[trigger]
                        self.order@.contains(c) && c != key ==> old(self).clients@.contains_key(c) by {
                        if self.order@.contains(c) && c != key {
                            let j = choose|j: int| 0 <= j < self.order@.len() && self.order@[j] == c;
                            assert(old(self).order@[j] == c);
                        }
                    }
                }
                Client::new(client_id)
            },
        };
        let ghost pre = client;
        let r = match transaction {
            Transaction::Deposit(_, _, _) => client.deposit(transaction),
            Transaction::Withdrawal(_, _, _) => client.withdraw(transaction),
            Transaction::Dispute(_, id) => client.dispute(&id),
            Transaction::Resolve(_, id) => client.resolve(&id),
            Transaction::ChargeBack(_, id) => client.chargeback(&id),
            Transaction::Unknown => Err(LedgerError::UnrecognizedTransactionType),
        };
        self.clients.insert(key, client);
        proof {
            assert(self.clients@.remove(key) =~= old(self).clients@.remove(key));
            if !old(self).clients@.contains_key(key) {
                assert(Self::is_fresh(pre, client_id));
            }
            assert forall|c: u16| #[trigger]
                self.clients@.contains_key(c) <==> self.order@.contains(c) by {
                if c != key && old(self).clients@.contains_key(c) {
                    assert(old(self).order@.contains(c));
                }
                if old(self).clients@.contains_key(key) {
                    assert(old(self).order@.contains(key));
                }
            }
        }
        r
    }

    /// Builds a transaction from `record` and applies it to the account it
    /// names. A record whose amount does not parse fails with the parse error
    /// and changes nothing.
    pub fn process_transaction(&mut self, record: TransactionRecord) -> (r: Result<(), LedgerError>)
        requires
            old(self).wf(),
            old(self).ready(record.client, record.tx),
        ensures
            exists|p: Result<Transaction, LedgerError>|
                {
                    &&& Transaction::from_record_post(record, p)
                    &&& match p {
                        Err(e) => r == Err::<(), LedgerError>(e) && *final(self) == *old(self),
                        Ok(t) => Self::route_post(*old(self), *final(self), t, r),
                    }
                },
    {
        match Transaction::from_record(record) {
            Err(e) => Err(e),
            Ok(transaction) => self.route(transaction),
        }
    }

    /// The partition to hand back before transaction `transaction_id` of
    /// `client_id` can be applied, if any.
    pub fn pending_load(&self, client_id: ClientId, transaction_id: TransactionId) -> (r: Option<
        (StoreKind, u32),
    >)
        requires
            self.wf(),
        ensures
            r is None <==> self.ready(client_id.0, transaction_id.0),
            r matches Some(p) ==> p.1 == TransactionCache::<
                CACHE_SIZE_LIMIT,
                CACHE_LINE_SIZE,
            >::key_of(transaction_id.0),
            r matches Some(p) ==> (p.0 == StoreKind::Processed <==> !self.clients()[
                client_id.0
            ].processed().ready(transaction_id.0)),
    {
        match self.clients.get(&client_id.0) {
            Some(c) => {
                proof {
                    assert(self.clients().contains_key(client_id.0));
                }
                c.pending_load(&transaction_id)
            },
            None => None,
        }
    }

    /// Hands a partition of one of `client_id`'s stores back into memory.
    /// Fails with `StoreIoError`, changing nothing, for an unknown account or
    /// malformed entries.
    pub fn load_partition(
        &mut self,
        client_id: ClientId,
        kind: StoreKind,
        key: u32,
        entries: Vec<(u32, Transaction)>,
    ) -> (r: Result<(), LedgerError>)
        requires
            old(self).wf(),
        ensures
            final(self).wf(),
            final(self).clients().dom() == old(self).clients().dom(),
            final(self).clients().remove(client_id.0) == old(self).clients().remove(client_id.0),
            old(self).clients().contains_key(client_id.0) ==> Client::load_post(
                old(self).clients()[client_id.0],
                final(self).clients()[client_id.0],
                kind,
                key,
                entries@,
                r,
            ),
            !old(self).clients().contains_key(client_id.0) ==> r == Err::<(), LedgerError>(
                LedgerError::StoreIoError,
            ) && final(self).clients() == old(self).clients(),
            final(self).order() == old(self).order(),
    {
        let key_c = client_id.0;
        match self.clients.remove(&key_c) {
            None => {
                assert(self.clients@ =~= old(self).clients@);
                assert(self.clients() == old(self).clients());
                Err(LedgerError::StoreIoError)
            },
            Some(mut c) => {
                proof {
                    assert(old(self).clients().contains_key(key_c));
                }
                let r = c.load(kind, key, entries);
                self.clients.insert(key_c, c);
                proof {
                    assert(self.clients@.remove(key_c) =~= old(self).clients@.remove(key_c));
                    assert(self.clients@.dom() =~= old(self).clients@.dom());
                    assert(self.clients()[key_c].id().0 == key_c);
                    assert forall|c: u16| #[trigger]
                        self.clients().contains_key(c) implies self.clients()[c].wf()
                        && self.clients()[c].id().0 == c by {
                        if c != key_c {
                            assert(self.clients@.remove(key_c).contains_key(c));
                            assert(old(self).clients().contains_key(c));
                        }
                    }
                }
                r
            },
        }
    }

    /// Collects the partitions that the stores of `client_id` have handed
    /// out. What every account holds is unchanged.
    pub fn take_spilled(&mut self, client_id: ClientId) -> (r: (Vec<SpilledLine>, Vec<SpilledLine>))
        requires
            old(self).wf(),
        ensures
            final(self).wf(),
            final(self).clients().dom() == old(self).clients().dom(),
            final(self).order() == old(self).order(),
            forall|c: u16| #[trigger]
                final(self).clients().contains_key(c) ==> final(self).clients()[c].same_ledger(
                    &old(self).clients()[c],
                ),
            final(self).clients().remove(client_id.0) == old(self).clients().remove(client_id.0),
            old(self).clients().contains_key(client_id.0) ==> {
                &&& r.0@ == old(self).clients()[client_id.0].processed().handed_out()
                &&& r.1@ == old(self).clients()[client_id.0].disputes().handed_out()
                &&& final(self).clients()[client_id.0].processed().handed_out() == Seq::<
                    SpilledLine,
                >::empty()
                &&& final(self).clients()[client_id.0].disputes().handed_out() == Seq::<
                    SpilledLine,
                >::empty()
            },
            !old(self).clients().contains_key(client_id.0) ==> r.0@.len() == 0 && r.1@.len() == 0,
    {
        let key_c = client_id.0;
        match self.clients.remove(&key_c) {
            None => {
                assert(self.clients@ =~= old(self).clients@);
                assert(self.clients() == old(self).clients());
                (Vec::new(), Vec::new())
            },
            Some(mut c) => {
                proof {
                    assert(old(self).clients().contains_key(key_c));
                }
                let r = c.take_spilled();
                self.clients.insert(key_c, c);
                proof {
                    assert(self.clients@.remove(key_c) =~= old(self).clients@.remove(key_c));
                    assert(self.clients@.dom() =~= old(self).clients@.dom());
                    assert(self.clients()[key_c].id().0 == key_c);
                    assert forall|c: u16| #[trigger]
                        self.clients().contains_key(c) implies self.clients()[c].wf()
                        && self.clients()[c].id().0 == c by {
                        if c != key_c {
                            assert(self.clients@.remove(key_c).contains_key(c));
                            assert(old(self).clients().contains_key(c));
                        }
                    }
                }
                r
            },
        }
    }

    /// The final state of every account, in the order the accounts were
    /// created.
    pub fn snapshot(&self) -> (r: Vec<ClientSnapshot>)
        requires
            self.wf(),
        ensures
            r@.len() == self.order().len(),
            forall|i: int|
                0 <= i < r@.len() ==> {
                    let c = self.clients()[self.order()[i]];
                    &&& #[trigger] r@[i].client == self.order()[i]
                    &&& r@[i].available@ == crate::type_defs::decimal_text(c.available_units())
                    &&& r@[i].held@ == crate::type_defs::decimal_text(c.held_units())
                    &&& r@[i].total@ == crate::type_defs::decimal_text(c.total_units())
                    &&& r@[i].locked == c.is_locked()
                },
    {
        let mut out: Vec<ClientSnapshot> = Vec::new();
        let n = self.order.len();
        let mut i: usize = 0;
        while i < n
            invariant
                self.wf(),
                n == self.order().len(),
                0 <= i <= n,
                out@.len() == i,
                forall|j: int|
                    #![trigger out@[j]]
                    0 <= j < i ==> {
                        let c = self.clients()[self.order()[j]];
                        &&& out@[j].client == self.order()[j]
                        &&& out@[j].available@ == crate::type_defs::decimal_text(
                            c.available_units(),
                        )
                        &&& out@[j].held@ == crate::type_defs::decimal_text(c.held_units())
                        &&& out@[j].total@ == crate::type_defs::decimal_text(c.total_units())
                        &&& out@[j].locked == c.is_locked()
                    },
            decreases n - i,
        {
            let id = self.order[i];
            proof {
                assert(self.order()[i as int] == id);
                assert(self.order().contains(id));
                assert(self.clients().contains_key(id));
            }
            match self.clients.get(&id) {
                Some(c) => {
                    let snap = c.snapshot();
                    let ghost pre_out = out@;
                    out.push(snap);
                    proof {
                        assert forall|j: int| #![trigger out@[j]] 0 <= j < i + 1 implies {
                            let c = self.clients()[self.order()[j]];
                            &&& out@[j].client == self.order()[j]
                            &&& out@[j].available@ == crate::type_defs::decimal_text(
                                c.available_units(),
                            )
                            &&& out@[j].held@ == crate::type_defs::decimal_text(c.held_units())
                            &&& out@[j].total@ == crate::type_defs::decimal_text(c.total_units())
                            &&& out@[j].locked == c.is_locked()
                        } by {
                            if j < i {
                                assert(out@[j] == pre_out[j]);
                            }
                        }
                    }
                },
                None => {
                    proof {
                        assert(false);
                    }
                },
            }
            i = i + 1;
        }
        out
    }

    /// Every account, in the order the accounts were created.
    pub fn into_clients(self) -> (r: Vec<Client<CACHE_SIZE_LIMIT, CACHE_LINE_SIZE>>)
        requires
            self.wf(),
        ensures
            r@.len() == self.order().len(),
            forall|i: int|
                0 <= i < r@.len() ==> #[trigger] r@[i] == self.clients()[self.order()[i]],
    {
        let ghost orig = self;
        let mut clients = self.clients;
        let order = self.order;
        let mut out: Vec<Client<CACHE_SIZE_LIMIT, CACHE_LINE_SIZE>> = Vec::new();
        let n = order.len();
        let mut i: usize = 0;
        proof {
            assert forall|c: u16| #[trigger]
                clients@.contains_key(c) <==> (exists|j: int| 0 <= j < n && #[trigger] order@[j] == c) by {
                if clients@.contains_key(c) {
                    assert(orig.clients().contains_key(c));
                    assert(orig.order().contains(c));
                }
                if exists|j: int| 0 <= j < n && #[trigger] order@[j] == c {
                    let j = choose|j: int| 0 <= j < n && #[trigger] order@[j] == c;
                    assert(orig.order().contains(c));
                    assert(orig.clients().contains_key(c));
                }
            }
        }
        while i < n
            invariant
                orig.wf(),
                order@ == orig.order(),
                n == order@.len(),
                0 <= i <= n,
                out@.len() == i,
                forall|c: u16| #[trigger]
                    clients@.contains_key(c) <==> (exists|j: int|
                        i <= j < n && #[trigger] order@[j] == c),
                forall|c: u16| #[trigger]
                    clients@.contains_key(c) ==> clients@[c] == orig.clients()[c],
                forall|j: int| 0 <= j < i ==> #[trigger] out@[j] == orig.clients()[order@[j]],
            decreases n - i,
        {
            let id = order[i];
            let ghost pre = clients@;
            match clients.remove(&id) {
                Some(c) => {
                    out.push(c);
                },
                None => {
                    proof {
                        assert(false);
                    }
                },
            }
            proof {
                assert forall|c: u16| #[trigger]
                    clients@.contains_key(c) <==> (exists|j: int|
                        i + 1 <= j < n && #[trigger] order@[j] == c) by {
                    if clients@.contains_key(c) {
                        let j = choose|j: int| i <= j < n && #[trigger] order@[j] == c;
                        assert(j != i);
                    }
                    if exists|j: int| i + 1 <= j < n && #[trigger] order@[j] == c {
                        let j = choose|j: int| i + 1 <= j < n && #[trigger] order@[j] == c;
                        assert(pre.contains_key(c));
                        assert(order@[i as int] != order@[j]);
                    }
                }
            }
            i = i + 1;
        }
        out
    }
}

} // verus!
