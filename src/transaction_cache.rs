use crate::type_defs::{Transaction, TransactionId};
use std::collections::{HashMap, HashSet};
use vstd::prelude::*;

verus! {

broadcast use vstd::std_specs::hash::group_hash_axioms;

/// One partition handed out of memory: its key and the transactions it holds.
pub type SpilledLine = (u32, HashMap<u32, Transaction>);

/// A map from transaction id to transaction, grouped in partitions of
/// `CACHE_LINE_SIZE` consecutive ids. When an insert brings the count of
/// records in memory over `CACHE_SIZE_LIMIT`, every resident partition is
/// handed out, to be collected with `take_spilled` and kept elsewhere; a
/// partition kept elsewhere must be handed back (`load`) before an id in it is
/// read or written.
pub struct TransactionCache<const CACHE_SIZE_LIMIT: u64, const CACHE_LINE_SIZE: u32> {
    lines: HashMap<u32, HashMap<u32, Transaction>>,
    keys: Vec<u32>,
    spilled: HashSet<u32>,
    cache_size: u64,
    outbox: Vec<SpilledLine>,
    disk: Ghost<Map<u32, Map<u32, Transaction>>>,
}

impl<const CACHE_SIZE_LIMIT: u64, const CACHE_LINE_SIZE: u32> TransactionCache<
    CACHE_SIZE_LIMIT,
    CACHE_LINE_SIZE,
> {
    /// The partition an id belongs to.
    pub open spec fn key_of(id: u32) -> u32 {
        (id / CACHE_LINE_SIZE) as u32
    }

    /// Whether every id of `m` belongs to partition `key`.
    pub open spec fn in_partition(m: Map<u32, Transaction>, key: u32) -> bool {
        forall|id: u32| #[trigger] m.contains_key(id) ==> Self::key_of(id) == key
    }

    /// The resident partitions.
    pub closed spec fn resident(&self) -> Map<u32, Map<u32, Transaction>> {
        Map::new(|k: u32| self.lines@.contains_key(k), |k: u32| self.lines@[k]@)
    }

    /// The partitions kept outside memory, as they were handed out.
    pub closed spec fn disk(&self) -> Map<u32, Map<u32, Transaction>> {
        self.disk@
    }

    /// The number of records brought into memory since the last spill.
    pub closed spec fn size(&self) -> nat {
        self.cache_size as nat
    }

    /// The partitions handed out and not yet collected, oldest first.
    pub closed spec fn handed_out(&self) -> Seq<SpilledLine> {
        self.outbox@
    }

    /// `n + by`, saturating at the largest count.
    pub open spec fn bumped(n: nat, by: nat) -> nat {
        if n + by <= u64::MAX {
            n + by
        } else {
            u64::MAX as nat
        }
    }

    /// The resident partitions once `t` is stored under `id`, before any
    /// spill.
    pub open spec fn insert_resident(pre: Self, id: u32, t: Transaction) -> Map<
        u32,
        Map<u32, Transaction>,
    > {
        let k = Self::key_of(id);
        let line = if pre.resident().contains_key(k) {
            pre.resident()[k]
        } else {
            Map::<u32, Transaction>::empty()
        };
        pre.resident().insert(k, line.insert(id, t))
    }

    pub closed spec fn wf(&self) -> bool {
        &&& CACHE_LINE_SIZE > 0
        &&& forall|i: int, j: int|
            0 <= i < j < self.keys@.len() ==> self.keys@[i] != self.keys@[j]
        &&& forall|k: u32| #[trigger]
            self.lines@.contains_key(k) <==> self.keys@.contains(k)
        &&& forall|k: u32| #[trigger]
            self.lines@.contains_key(k) ==> !self.disk@.contains_key(k)
        &&& self.spilled@ == self.disk@.dom()
        &&& forall|k: u32| #[trigger]
            self.lines@.contains_key(k) ==> Self::in_partition(self.lines@[k]@, k)
        &&& forall|k: u32| #[trigger]
            self.disk@.contains_key(k) ==> Self::in_partition(self.disk@[k], k)
    }

    pub proof fn lemma_width_positive(&self)
        requires
            self.wf(),
        ensures
            CACHE_LINE_SIZE > 0,
    {
    }

    /// What the store holds, wherever each partition is kept.
    pub open spec fn contents(
        resident: Map<u32, Map<u32, Transaction>>,
        disk: Map<u32, Map<u32, Transaction>>,
    ) -> Map<u32, Transaction> {
        Map::new(
            |id: u32|
                {
                    let k = Self::key_of(id);
                    (resident.contains_key(k) && resident[k].contains_key(id)) || (
                    !resident.contains_key(k) && disk.contains_key(k) && disk[k].contains_key(id))
                },
            |id: u32|
                {
                    let k = Self::key_of(id);
                    if resident.contains_key(k) {
                        resident[k][id]
                    } else {
                        disk[k][id]
                    }
                },
        )
    }

    pub open spec fn view(&self) -> Map<u32, Transaction> {
        Self::contents(self.resident(), self.disk())
    }

    /// Whether the partition of `id` is in memory or was never handed out, so
    /// that `id` can be read and written.
    pub open spec fn ready(&self, id: u32) -> bool {
        !self.disk().contains_key(Self::key_of(id))
    }

    /// The spill rule, from resident partitions `resident`, partitions kept
    /// elsewhere `disk` and count `size`: nothing happens while the count is
    /// within the limit; otherwise every resident partition is handed out, as
    /// `out` lists them, and the count drops to zero.
    pub open spec fn spill_post(
        resident: Map<u32, Map<u32, Transaction>>,
        disk: Map<u32, Map<u32, Transaction>>,
        size: nat,
        post: Self,
        out: Seq<SpilledLine>,
    ) -> bool {
        if size > CACHE_SIZE_LIMIT {
            &&& post.resident() == Map::<u32, Map<u32, Transaction>>::empty()
            &&& post.size() == 0
            &&& post.disk() == disk.union_prefer_right(resident)
            &&& forall|i: int|
                0 <= i < out.len() ==> resident.contains_key(#[trigger] out[i].0)
                    && out[i].1@ == resident[out[i].0]
            &&& forall|k: u32|
                resident.contains_key(k) ==> exists|i: int|
                    0 <= i < out.len() && #[trigger] out[i].0 == k
        } else {
            &&& post.resident() == resident
            &&& post.disk() == disk
            &&& post.size() == size
            &&& out.len() == 0
        }
    }

    /// What `store_cache` does: the spill rule on the current state.
    pub open spec fn store_post(pre: Self, post: Self, out: Seq<SpilledLine>) -> bool {
        &&& post.wf()
        &&& post@ == pre@
        &&& post.handed_out() == pre.handed_out()
        &&& Self::spill_post(pre.resident(), pre.disk(), pre.size(), post, out)
    }

    /// What storing `t` under `id` does: the store then maps `id` to `t`, the
    /// count grows by one, the spill rule applies, and what it hands out is
    /// queued after what was already handed out.
    pub open spec fn insert_post(pre: Self, post: Self, id: u32, t: Transaction) -> bool {
        &&& post.wf()
        &&& post@ == pre@.insert(id, t)
        &&& post.size() <= CACHE_SIZE_LIMIT
        &&& pre.handed_out().len() <= post.handed_out().len()
        &&& post.handed_out().take(pre.handed_out().len() as int) == pre.handed_out()
        &&& Self::spill_post(
            Self::insert_resident(pre, id, t),
            pre.disk(),
            Self::bumped(pre.size(), 1),
            post,
            post.handed_out().skip(pre.handed_out().len() as int),
        )
    }

    /// What `load` does: the partition `key`, if it was handed out, comes
    /// back in memory holding `m`.
    pub open spec fn load_post(pre: Self, post: Self, key: u32, m: Map<u32, Transaction>) -> bool {
        &&& post.wf()
        &&& post.handed_out() == pre.handed_out()
        &&& if pre.disk().contains_key(key) {
            &&& post.resident() == pre.resident().insert(key, m)
            &&& post.disk() == pre.disk().remove(key)
            &&& post.size() == Self::bumped(pre.size(), m.len())
        } else {
            &&& post.resident() == pre.resident()
            &&& post.disk() == pre.disk()
            &&& post.size() == pre.size()
        }
    }

    /// An empty store.
    pub fn new() -> (r: Self)
        requires
            CACHE_LINE_SIZE > 0,
        ensures
            r.wf(),
            r@ == Map::<u32, Transaction>::empty(),
            r.disk() == Map::<u32, Map<u32, Transaction>>::empty(),
            r.resident() == Map::<u32, Map<u32, Transaction>>::empty(),
            r.size() == 0,
            r.handed_out() == Seq::<SpilledLine>::empty(),
    {
        let r = TransactionCache {
            lines: HashMap::new(),
            keys: Vec::new(),
            spilled: HashSet::new(),
            cache_size: 0,
            outbox: Vec::new(),
            disk: Ghost(Map::empty()),
        };
        assert(r.resident() =~= Map::<u32, Map<u32, Transaction>>::empty());
        assert(r@ =~= Map::<u32, Transaction>::empty());
        r
    }

    /// The transaction stored under `transaction_id`, if any.
    pub fn get(&self, transaction_id: &TransactionId) -> (r: Option<Transaction>)
        requires
            self.wf(),
            self.ready(transaction_id.0),
        ensures
            r == (if self@.contains_key(transaction_id.0) {
                Some(self@[transaction_id.0])
            } else {
                None
            }),
    {
        let id = transaction_id.0;
        let key = id / CACHE_LINE_SIZE;
        match self.lines.get(&key) {
            Some(line) => match line.get(&id) {
                Some(t) => Some(*t),
                None => None,
            },
            None => None,
        }
    }

    /// Whether a transaction is stored under `transaction_id`.
    pub fn contains_key(&self, transaction_id: &TransactionId) -> (r: bool)
        requires
            self.wf(),
            self.ready(transaction_id.0),
        ensures
            r == self@.contains_key(transaction_id.0),
    {
        let id = transaction_id.0;
        let key = id / CACHE_LINE_SIZE;
        match self.lines.get(&key) {
            Some(line) => line.contains_key(&id),
            None => false,
        }
    }

    /// Removes and returns the transaction stored under `transaction_id`.
    pub fn remove(&mut self, transaction_id: &TransactionId) -> (r: Option<Transaction>)
        requires
            old(self).wf(),
            old(self).ready(transaction_id.0),
        ensures
            final(self).wf(),
            final(self)@ == old(self)@.remove(transaction_id.0),
            r == (if old(self)@.contains_key(transaction_id.0) {
                Some(old(self)@[transaction_id.0])
            } else {
                None
            }),
            final(self).disk() == old(self).disk(),
            final(self).size() == old(self).size(),
            final(self).handed_out() == old(self).handed_out(),
    {
        let id = transaction_id.0;
        let key = id / CACHE_LINE_SIZE;
        match self.lines.remove(&key) {
            Some(mut line) => {
                let r = line.remove(&id);
                self.lines.insert(key, line);
                proof {
                    assert(self.keys@.contains(key));
                    assert(self.resident() =~= old(self).resident().insert(key, line@));
                    assert(self@ =~= old(self)@.remove(id));
                }
                r
            },
            None => {
                assert(self@ =~= old(self)@.remove(id));
                None
            },
        }
    }

    /// Stores `transaction` under `transaction_id` and returns what was stored
    /// there before.
    pub fn insert(&mut self, transaction_id: TransactionId, transaction: Transaction) -> (r: Option<
        Transaction,
    >)
        requires
            old(self).wf(),
            old(self).ready(transaction_id.0),
        ensures
            Self::insert_post(*old(self), *final(self), transaction_id.0, transaction),
            r == (if old(self)@.contains_key(transaction_id.0) {
                Some(old(self)@[transaction_id.0])
            } else {
                None
            }),
    {
        let id = transaction_id.0;
        let key = id / CACHE_LINE_SIZE;
        let r = match self.lines.remove(&key) {
            Some(mut line) => {
                let r = line.insert(id, transaction);
                self.lines.insert(key, line);
                proof {
                    assert(self.keys@.contains(key));
                    assert(self.resident() =~= old(self).resident().insert(key, line@));
                }
                r
            },
            None => {
                let mut line: HashMap<u32, Transaction> = HashMap::new();
                line.insert(id, transaction);
                self.lines.insert(key, line);
                self.keys.push(key);
                proof {
                    assert(self.keys@.last() == key);
                    assert forall|k: u32| #[trigger]
                        self.lines@.contains_key(k) <==> self.keys@.contains(k) by {
                        if old(self).keys@.contains(k) {
                            let j = choose|j: int|
                                0 <= j < old(self).keys@.len() && old(self).keys@[j] == k;
                            assert(self.keys@[j] == k);
                        }
                        if self.keys@.contains(k) && k != key {
                            let j = choose|j: int| 0 <= j < self.keys@.len() && self.keys@[j] == k;
                            assert(old(self).keys@[j] == k);
                        }
                    }
                    assert(self.resident() =~= old(self).resident().insert(key, line@));
                }
                None
            },
        };
        self.cache_size = self.cache_size.saturating_add(1);
        assert(self@ =~= old(self)@.insert(id, transaction));
        assert(self.resident() =~= Self::insert_resident(*old(self), id, transaction));
        let ghost mid = *self;
        let mut spilled = self.store_cache();
        let ghost out = spilled@;
        self.outbox.append(&mut spilled);
        proof {
            assert(self.handed_out().take(old(self).handed_out().len() as int)
                =~= old(self).handed_out());
            assert(self.handed_out().skip(old(self).handed_out().len() as int) =~= out);
        }
        r
    }

    /// Collects the partitions handed out so far, oldest first, to be kept
    /// elsewhere until they are loaded back.
    pub fn take_spilled(&mut self) -> (r: Vec<SpilledLine>)
        requires
            old(self).wf(),
        ensures
            final(self).wf(),
            r@ == old(self).handed_out(),
            final(self).handed_out() == Seq::<SpilledLine>::empty(),
            final(self).resident() == old(self).resident(),
            final(self).disk() == old(self).disk(),
            final(self).size() == old(self).size(),
            final(self)@ == old(self)@,
    {
        let mut r: Vec<SpilledLine> = Vec::new();
        std::mem::swap(&mut r, &mut self.outbox);
        assert(self.resident() =~= old(self).resident());
        r
    }

    /// The partition that must be handed back before `transaction_id` can be
    /// read or written, if any.
    pub fn pending_load(&self, transaction_id: &TransactionId) -> (r: Option<u32>)
        requires
            self.wf(),
        ensures
            r is None <==> self.ready(transaction_id.0),
            r matches Some(k) ==> k == Self::key_of(transaction_id.0),
    {
        let key = transaction_id.0 / CACHE_LINE_SIZE;
        if self.spilled.contains(&key) {
            Some(key)
        } else {
            None
        }
    }

    /// Hands partition `key` back into memory, holding the transactions of
    /// `line`. The number of records in memory grows by their count.
    pub fn load(&mut self, key: u32, line: HashMap<u32, Transaction>)
        requires
            old(self).wf(),
            Self::in_partition(line@, key),
        ensures
            Self::load_post(*old(self), *final(self), key, line@),
            line@ == old(self).disk()[key] ==> final(self)@ == old(self)@,
    {
        if self.spilled.contains(&key) {
            let n = line.len();
            self.spilled.remove(&key);
            self.lines.insert(key, line);
            self.keys.push(key);
            self.disk = Ghost(self.disk@.remove(key));
            self.cache_size = self.cache_size.saturating_add(n as u64);
            proof {
                assert(!old(self).lines@.contains_key(key));
                assert(self.keys@.last() == key);
                assert forall|k: u32| #[trigger]
                    self.lines@.contains_key(k) <==> self.keys@.contains(k) by {
                    if old(self).keys@.contains(k) {
                        let j = choose|j: int|
                            0 <= j < old(self).keys@.len() && old(self).keys@[j] == k;
                        assert(self.keys@[j] == k);
                    }
                    if self.keys@.contains(k) && k != key {
                        let j = choose|j: int| 0 <= j < self.keys@.len() && self.keys@[j] == k;
                        assert(old(self).keys@[j] == k);
                    }
                }
                assert(self.spilled@ =~= self.disk@.dom());
                assert(self.resident() =~= old(self).resident().insert(key, line@));
                assert(self.disk() =~= old(self).disk().remove(key));
                if line@ == old(self).disk()[key] {
                    assert(self@ =~= old(self)@);
                }
            }
        }
    }

    /// The number of records brought into memory since the last spill.
    pub fn cache_size(&self) -> (r: u64)
        ensures
            r == self.size(),
    {
        self.cache_size
    }

    /// Once more than `CACHE_SIZE_LIMIT` records are in memory, hands out every
    /// resident partition and empties memory; otherwise does nothing and hands
    /// out nothing. What the store holds is the same either way.
    fn store_cache(&mut self) -> (r: Vec<SpilledLine>)
        requires
            old(self).wf(),
        ensures
            Self::store_post(*old(self), *final(self), r@),
    {
        let mut out: Vec<SpilledLine> = Vec::new();
        if self.cache_size <= CACHE_SIZE_LIMIT {
            return out;
        }
        let n = self.keys.len();
        let mut i: usize = 0;
        assert(self.disk@ =~= old(self).disk@.union_prefer_right(
            Map::new(
                |k: u32| old(self).lines@.contains_key(k) && !self.lines@.contains_key(k),
                |k: u32| old(self).lines@[k]@,
            ),
        ));
        while i < n
            invariant
                old(self).wf(),
                0 <= i <= n,
                n == self.keys@.len(),
                self.keys@ == old(self).keys@,
                self.cache_size == old(self).cache_size,
                self.outbox@ == old(self).outbox@,
                CACHE_LINE_SIZE > 0,
                forall|k: u32| #[trigger]
                    self.lines@.contains_key(k) <==> (exists|j: int|
                        i <= j < n && #[trigger] self.keys@[j] == k),
                forall|k: u32| #[trigger]
                    self.lines@.contains_key(k) ==> old(self).lines@.contains_key(k)
                        && self.lines@[k] == old(self).lines@[k],
                forall|k: u32| #[trigger]
                    self.lines@.contains_key(k) ==> !self.disk@.contains_key(k),
                self.spilled@ == self.disk@.dom(),
                forall|k: u32| #[trigger]
                    self.disk@.contains_key(k) ==> Self::in_partition(self.disk@[k], k),
                self.disk@ == old(self).disk@.union_prefer_right(
                    Map::new(
                        |k: u32| old(self).lines@.contains_key(k) && !self.lines@.contains_key(k),
                        |k: u32| old(self).lines@[k]@,
                    ),
                ),
                Self::contents(self.resident(), self.disk()) == old(self)@,
                out@.len() == i,
                forall|j: int|
                    0 <= j < i ==> (#[trigger] out@[j]).0 == self.keys@[j] && out@[j].1@
                        == old(self).resident()[self.keys@[j]],
                forall|j: int| 0 <= j < i ==> old(self).lines@.contains_key(#[trigger] self.keys@[j]),
            decreases n - i,
        {
            let key = self.keys[i];
            proof {
                assert(old(self).keys@[i as int] == key);
                assert(old(self).keys@.contains(key));
                assert(old(self).lines@.contains_key(key));
                assert(self.lines@.contains_key(key));
            }
            let ghost pre_lines = self.lines@;
            let ghost pre_disk = self.disk@;
            let ghost pre_contents = Self::contents(self.resident(), self.disk());
            let line = match self.lines.remove(&key) {
                Some(l) => l,
                None => {
                    proof {
                        assert(false);
                    }
                    HashMap::new()
                },
            };
            self.spilled.insert(key);
            self.disk = Ghost(self.disk@.insert(key, line@));
            proof {
                assert forall|k: u32| #[trigger]
                    self.lines@.contains_key(k) <==> (exists|j: int|
                        i + 1 <= j < n && #[trigger] self.keys@[j] == k) by {
                    if self.lines@.contains_key(k) {
                        let j = choose|j: int| i <= j < n && #[trigger] self.keys@[j] == k;
                        assert(j != i);
                    }
                    if exists|j: int| i + 1 <= j < n && #[trigger] self.keys@[j] == k {
                        let j = choose|j: int| i + 1 <= j < n && #[trigger] self.keys@[j] == k;
                        assert(pre_lines.contains_key(k));
                        assert(self.keys@[i as int] != self.keys@[j]);
                    }
                }
                assert(self.spilled@ =~= self.disk@.dom());
                assert(self.disk@ =~= old(self).disk@.union_prefer_right(
                    Map::new(
                        |k: u32| old(self).lines@.contains_key(k) && !self.lines@.contains_key(k),
                        |k: u32| old(self).lines@[k]@,
                    ),
                ));
                assert(Self::contents(self.resident(), self.disk()) =~= pre_contents);
            }
            out.push((key, line));
            i = i + 1;
        }
        self.keys = Vec::new();
        self.cache_size = 0;
        proof {
            assert forall|k: u32| !self.lines@.contains_key(k) by {
                if self.lines@.contains_key(k) {
                    let j = choose|j: int| i <= j < n && #[trigger] self.keys@[j] == k;
                }
            }
            assert(self.resident() =~= Map::<u32, Map<u32, Transaction>>::empty());
            assert(self.disk() =~= old(self).disk().union_prefer_right(old(self).resident()));
            assert forall|k: u32| old(self).resident().contains_key(k) implies exists|j: int|
                0 <= j < out@.len() && #[trigger] out@[j].0 == k by {
                assert(old(self).keys@.contains(k));
                let j = choose|j: int| 0 <= j < n && old(self).keys@[j] == k;
                assert(out@[j].0 == k);
            }
        }
        out
    }

    /// A spill changes nothing that can be read, and neither does handing a
    /// spilled partition back exactly as it was handed out: whatever the
    /// resident partitions `resident` and the partitions kept elsewhere `disk`
    /// held before the spill, the store holds after the spill and after the
    /// reload, and every id of the reloaded partition can be read again.
    pub proof fn lemma_spill_round_trip(
        resident: Map<u32, Map<u32, Transaction>>,
        disk: Map<u32, Map<u32, Transaction>>,
        size: nat,
        s1: Self,
        out: Seq<SpilledLine>,
        i: int,
        s2: Self,
    )
        requires
            forall|k: u32| #[trigger] resident.contains_key(k) ==> !disk.contains_key(k),
            Self::spill_post(resident, disk, size, s1, out),
            0 <= i < out.len(),
            Self::load_post(s1, s2, out[i].0, out[i].1@),
        ensures
            s1@ == Self::contents(resident, disk),
            s2@ == Self::contents(resident, disk),
            forall|id: u32| Self::key_of(id) == out[i].0 ==> s2.ready(id),
    {
        let key = out[i].0;
        assert(resident.contains_key(key));
        assert(s1.disk().contains_key(key));
        assert(s1.disk()[key] == out[i].1@);
        assert(s1@ =~= Self::contents(resident, disk));
        assert(s2@ =~= s1@);
    }
}

} // verus!
