//! The mempool: pending transactions keyed by hash, admitted only when
//! valid, ordered for block inclusion by fee priority, and evicted by age
//! and capacity.
use vstd::prelude::*;

use crate::block::spec_txs;
use crate::bytesutil::bytes32_eq;
use crate::clock::now_ts;
use crate::crypto::hash_data;
use crate::merkle::spec_hashes;
use crate::transaction::{spec_is_valid, spec_tx_hash, Transaction, TxView};

verus! {

/// Fixed-point scale used by the fee priority.
pub const PRIORITY_SCALE: i64 = 1_000_000;

/// The floor put under the amount when computing priority, so that tiny
/// amounts do not produce unbounded priorities: one thousandth of a unit.
pub const PRIORITY_AMOUNT_FLOOR: i64 = 1_000;

/// The priority of a transaction: its fee divided by its amount (floored),
/// in millionths.
pub open spec fn spec_priority(t: TxView) -> int {
    let denom = if t.amount >= PRIORITY_AMOUNT_FLOOR {
        t.amount as int
    } else {
        PRIORITY_AMOUNT_FLOOR as int
    };
    t.fee * PRIORITY_SCALE / denom
}

/// A pending transaction with its admission data.
#[derive(Debug)]
pub struct MempoolEntry {
    /// The canonical hash the entry is keyed by.
    pub hash: crate::Hash,
    /// The transaction itself.
    pub transaction: Transaction,
    /// When the entry was admitted (Unix seconds).
    pub received_at: u64,
    /// The fee priority, in millionths.
    pub priority: u128,
}

/// The mathematical content of a pool entry.
pub struct EntryView {
    pub hash: Seq<u8>,
    pub transaction: TxView,
    pub received_at: u64,
    pub priority: u128,
}

impl View for MempoolEntry {
    type V = EntryView;

    open spec fn view(&self) -> EntryView {
        EntryView {
            hash: self.hash@,
            transaction: self.transaction@,
            received_at: self.received_at,
            priority: self.priority,
        }
    }
}

/// The views of a sequence of pool entries.
pub open spec fn spec_entries(s: Seq<MempoolEntry>) -> Seq<EntryView> {
    Seq::new(s.len(), |i: int| s[i]@)
}

/// A well-formed pool: hashes pairwise distinct, each entry keyed by its
/// transaction's canonical hash, each priority derived from its transaction.
pub open spec fn spec_pool_wf(s: Seq<EntryView>) -> bool {
    &&& (forall|i: int, j: int|
        0 <= i < j < s.len() ==> (#[trigger] s[i]).hash != (#[trigger] s[j]).hash)
    &&& (forall|i: int| 0 <= i < s.len() ==> (#[trigger] s[i]).hash == spec_tx_hash(s[i].transaction))
    &&& (forall|i: int| 0 <= i < s.len() ==> (#[trigger] s[i]).priority == spec_priority(s[i].transaction))
}

/// The pool after one admission at a stamp: the new entry appended, after
/// the first-admitted oldest entry made way when the pool was full.
pub open spec fn spec_admit_effect(
    pool: Seq<EntryView>,
    max_size: int,
    pool2: Seq<EntryView>,
    tx: TxView,
    stamp: u64,
) -> bool {
    let entry = EntryView {
        hash: spec_tx_hash(tx),
        transaction: tx,
        received_at: stamp,
        priority: spec_priority(tx) as u128,
    };
    if pool.len() < max_size || pool.len() == 0 {
        pool2 == pool.push(entry)
    } else {
        exists|j: int|
            #![trigger pool.remove(j)]
            {
                &&& 0 <= j < pool.len()
                &&& (forall|i: int|
                    0 <= i < pool.len() ==> (#[trigger] pool[i]).received_at
                        >= pool[j].received_at)
                &&& (forall|i: int|
                    0 <= i < j ==> (#[trigger] pool[i]).received_at > pool[j].received_at)
                &&& pool2 == pool.remove(j).push(entry)
            }
    }
}

/// Whether an entry is still fresh at a time: its age is under the given
/// maximum (an entry stamped in the future counts as age zero).
pub open spec fn spec_fresh(e: EntryView, now: u64, max_age: u64) -> bool {
    (if e.received_at <= now {
        now - e.received_at
    } else {
        0
    }) < max_age
}

/// The fresh entries of the pool, in pool order.
pub open spec fn spec_fresh_entries(s: Seq<EntryView>, now: u64, max_age: u64) -> Seq<EntryView>
    decreases s.len(),
{
    if s.len() == 0 {
        Seq::empty()
    } else if spec_fresh(s[0], now, max_age) {
        seq![s[0]] + spec_fresh_entries(s.skip(1), now, max_age)
    } else {
        spec_fresh_entries(s.skip(1), now, max_age)
    }
}

/// The inclusion order: higher priority first, ties to the entry received
/// earlier, further ties keeping pool order.
pub open spec fn spec_entry_before(a: EntryView, b: EntryView) -> bool {
    a.priority > b.priority || (a.priority == b.priority && a.received_at < b.received_at)
}

/// Insertion into a list sorted by the inclusion order, after any equal
/// element.
pub open spec fn spec_insert_entry(s: Seq<EntryView>, x: EntryView) -> Seq<EntryView>
    decreases s.len(),
{
    if s.len() == 0 {
        seq![x]
    } else if spec_entry_before(x, s[0]) {
        seq![x] + s
    } else {
        seq![s[0]] + spec_insert_entry(s.skip(1), x)
    }
}

/// Stable insertion sort by the inclusion order.
pub open spec fn spec_sort_entries(s: Seq<EntryView>) -> Seq<EntryView>
    decreases s.len(),
{
    if s.len() == 0 {
        Seq::empty()
    } else {
        spec_insert_entry(spec_sort_entries(s.drop_last()), s.last())
    }
}

/// The transactions the pool hands out for a block: the fresh entries in
/// inclusion order, cut to the requested count.
pub open spec fn spec_block_selection(
    s: Seq<EntryView>,
    now: u64,
    max_age: u64,
    max_count: int,
) -> Seq<TxView> {
    let sorted = spec_sort_entries(spec_fresh_entries(s, now, max_age));
    let k = if max_count < sorted.len() {
        max_count
    } else {
        sorted.len() as int
    };
    Seq::new(k as nat, |i: int| sorted[i].transaction)
}

/// The pool with the first entry of a hash removed; unchanged when no entry
/// holds it.
pub open spec fn spec_remove_hash(s: Seq<EntryView>, h: Seq<u8>) -> Seq<EntryView>
    decreases s.len(),
{
    if s.len() == 0 {
        Seq::empty()
    } else if s[0].hash == h {
        s.skip(1)
    } else {
        seq![s[0]] + spec_remove_hash(s.skip(1), h)
    }
}

/// The pool with a list of hashes removed, in order.
pub open spec fn spec_remove_hashes(s: Seq<EntryView>, hs: Seq<Seq<u8>>) -> Seq<EntryView>
    decreases hs.len(),
{
    if hs.len() == 0 {
        s
    } else {
        spec_remove_hashes(spec_remove_hash(s, hs[0]), hs.skip(1))
    }
}

/// Inserting an element whose place is `p` splits the sorted list there.
proof fn lemma_insert_entry_at(s: Seq<EntryView>, x: EntryView, p: int)
    requires
        0 <= p <= s.len(),
        forall|j: int| 0 <= j < p ==> !spec_entry_before(x, #[trigger] s[j]),
        p < s.len() ==> spec_entry_before(x, s[p]),
    ensures
        spec_insert_entry(s, x) == s.take(p) + seq![x] + s.skip(p),
    decreases s.len(),
{
    if s.len() == 0 {
        assert(spec_insert_entry(s, x) =~= s.take(p) + seq![x] + s.skip(p));
    } else if p == 0 {
        if spec_entry_before(x, s[0]) {
            assert(spec_insert_entry(s, x) =~= s.take(0) + seq![x] + s.skip(0));
        } else {
            assert(spec_entry_before(x, s[p]));
            assert(false);
        }
    } else {
        assert(!spec_entry_before(x, s[0]));
        lemma_insert_entry_at(s.skip(1), x, p - 1);
        assert(forall|j: int| 0 <= j < p - 1 ==> s.skip(1)[j] == s[j + 1]);
        assert(seq![s[0]] + (s.skip(1).take(p - 1) + seq![x] + s.skip(1).skip(p - 1)) =~= s.take(p)
            + seq![x] + s.skip(p));
    }
}

/// Fresh-entry decomposition over a prefix.
proof fn lemma_fresh_entries_snoc(s: Seq<EntryView>, now: u64, max_age: u64, k: int)
    requires
        0 <= k < s.len(),
    ensures
        spec_fresh_entries(s.take(k + 1), now, max_age) == if spec_fresh(s[k], now, max_age) {
            spec_fresh_entries(s.take(k), now, max_age).push(s[k])
        } else {
            spec_fresh_entries(s.take(k), now, max_age)
        },
    decreases k,
{
    if k == 0 {
        assert(s.take(0) =~= Seq::<EntryView>::empty());
        assert(s.take(1)[0] == s[0]);
        assert(s.take(1).skip(1) =~= Seq::<EntryView>::empty());
        if spec_fresh(s[0], now, max_age) {
            assert(spec_fresh_entries(s.take(1), now, max_age) =~= spec_fresh_entries(
                s.take(0),
                now,
                max_age,
            ).push(s[0]));
        }
    } else {
        assert(s.take(k + 1)[0] == s[0]);
        assert(s.take(k + 1).skip(1) =~= s.skip(1).take(k));
        assert(s.take(k)[0] == s[0]);
        assert(s.take(k).skip(1) =~= s.skip(1).take(k - 1));
        lemma_fresh_entries_snoc(s.skip(1), now, max_age, k - 1);
        assert(s.skip(1)[k - 1] == s[k]);
        if spec_fresh(s[0], now, max_age) {
            if spec_fresh(s[k], now, max_age) {
                assert(seq![s[0]] + spec_fresh_entries(s.skip(1).take(k - 1), now, max_age).push(
                    s[k],
                ) =~= (seq![s[0]] + spec_fresh_entries(s.skip(1).take(k - 1), now, max_age)).push(
                    s[k],
                ));
            }
        }
    }
}

/// The pool of pending transactions.
pub struct Mempool {
    transactions: Vec<MempoolEntry>,
    max_size: usize,
    max_age: u64,
}

/// The errors of pool admission.
#[derive(Debug, PartialEq, Eq, Structural)]
pub enum MempoolError {
    /// The transaction failed its validity rules.
    InvalidTransaction,
    /// An entry with the same hash is already pending.
    AlreadyExists,
    /// The pool is at capacity.
    Full,
}

impl Mempool {
    /// The entries of the pool, in admission order.
    pub closed spec fn spec_pool(self) -> Seq<EntryView> {
        spec_entries(self.transactions@)
    }

    /// The configured capacity.
    pub closed spec fn spec_max_size(self) -> int {
        self.max_size as int
    }

    /// The configured maximum age in seconds.
    pub closed spec fn spec_max_age(self) -> u64 {
        self.max_age
    }

    /// The pool is well formed.
    pub open spec fn wf(self) -> bool {
        spec_pool_wf(self.spec_pool())
    }

    /// Creates an empty pool with the given capacity and maximum age.
    pub fn new(max_size: usize, max_age: u64) -> (r: Self)
        ensures
            r.wf(),
            r.spec_pool() == Seq::<EntryView>::empty(),
            r.spec_max_size() == max_size,
            r.spec_max_age() == max_age,
    {
        let r = Mempool { transactions: Vec::new(), max_size, max_age };
        proof {
            assert(r.spec_pool() =~= Seq::<EntryView>::empty());
        }
        r
    }

    /// How many transactions are pending.
    pub fn size(&self) -> (r: usize)
        ensures
            r == self.spec_pool().len(),
    {
        self.transactions.len()
    }

    /// Finds the first entry keyed by a hash.
    fn index_of_hash(&self, hash: &crate::Hash) -> (r: Option<usize>)
        ensures
            r matches Some(i) ==> i < self.spec_pool().len() && (self.spec_pool()[i as int]).hash
                == hash@ && (forall|j: int|
                0 <= j < i ==> (#[trigger] self.spec_pool()[j]).hash != hash@),
            r is None ==> forall|j: int|
                0 <= j < self.spec_pool().len() ==> (#[trigger] self.spec_pool()[j]).hash != hash@,
    {
        let mut i: usize = 0;
        while i < self.transactions.len()
            invariant
                i <= self.transactions@.len(),
                forall|j: int|
                    0 <= j < i ==> (#[trigger] spec_entries(self.transactions@)[j]).hash != hash@,
            decreases self.transactions@.len() - i,
        {
            if bytes32_eq(&self.transactions[i].hash, hash) {
                proof {
                    assert((spec_entries(self.transactions@)[i as int]).hash == hash@);
                }
                return Some(i);
            }
            i += 1;
        }
        None
    }

    /// Admits a transaction at the given time: rejects an invalid or
    /// already-pending transaction; at capacity, the entry waiting longest
    /// (the first admitted among the oldest) is evicted first.
    pub fn add_transaction_at(&mut self, tx: Transaction, now: u64) -> (r: Result<
        (),
        MempoolError,
    >)
        requires
            old(self).wf(),
        ensures
            final(self).wf(),
            final(self).spec_max_size() == old(self).spec_max_size(),
            final(self).spec_max_age() == old(self).spec_max_age(),
            r == Err::<(), MempoolError>(MempoolError::InvalidTransaction) <==> !spec_is_valid(
                tx@,
            ),
            r == Err::<(), MempoolError>(MempoolError::AlreadyExists) <==> spec_is_valid(tx@) && (
            exists|j: int|
                0 <= j < old(self).spec_pool().len() && (#[trigger] old(self).spec_pool()[j]).hash
                    == spec_tx_hash(tx@)),
            r is Err ==> final(self).spec_pool() == old(self).spec_pool(),
            r is Ok <==> spec_is_valid(tx@) && !(exists|j: int|
                0 <= j < old(self).spec_pool().len() && (#[trigger] old(self).spec_pool()[j]).hash
                    == spec_tx_hash(tx@)),
            r is Ok ==> spec_admit_effect(
                old(self).spec_pool(),
                old(self).spec_max_size(),
                final(self).spec_pool(),
                tx@,
                now,
            ),
    {
        if !tx.is_valid() {
            return Err(MempoolError::InvalidTransaction);
        }
        let content = tx.content_bytes();
        let hash = hash_data(content.as_slice());
        if let Option::Some(_i) = self.index_of_hash(&hash) {
            return Err(MempoolError::AlreadyExists);
        }
        if self.transactions.len() >= self.max_size && self.transactions.len() > 0 {
            self.evict_oldest();
        }
        let ghost evicted = self.spec_pool();
        proof {
            // What was absent from the pool stays absent after an eviction.
            if old(self).spec_pool().len() >= old(self).spec_max_size() && old(
                self,
            ).spec_pool().len() > 0 {
                let pool = old(self).spec_pool();
                let j = choose|j: int|
                    #![trigger pool.remove(j)]
                    0 <= j < pool.len() && (forall|i: int|
                        0 <= i < pool.len() ==> (#[trigger] pool[i]).received_at
                            >= pool[j].received_at) && (forall|i: int|
                        0 <= i < j ==> (#[trigger] pool[i]).received_at > pool[j].received_at)
                        && evicted == pool.remove(j);
                assert forall|i: int| 0 <= i < evicted.len() implies (#[trigger] evicted[i]).hash
                    != hash@ by {
                    let i0 = if i < j {
                        i
                    } else {
                        i + 1
                    };
                    assert(pool[i0].hash != hash@);
                }
            }
        }
        let ghost txv = tx@;
        proof {
            assert(txv.fee >= 0);
            assert(spec_priority(txv) >= 0) by (nonlinear_arith)
                requires
                    txv.fee >= 0,
                    spec_priority(txv) == txv.fee * PRIORITY_SCALE / (if txv.amount
                        >= PRIORITY_AMOUNT_FLOOR {
                        txv.amount as int
                    } else {
                        PRIORITY_AMOUNT_FLOOR as int
                    }),
                    (if txv.amount >= PRIORITY_AMOUNT_FLOOR {
                        txv.amount as int
                    } else {
                        PRIORITY_AMOUNT_FLOOR as int
                    }) >= 1;
        }
        let denom: i64 = if tx.amount >= PRIORITY_AMOUNT_FLOOR {
            tx.amount
        } else {
            PRIORITY_AMOUNT_FLOOR
        };
        let priority: u128 = ((tx.fee as u128) * (PRIORITY_SCALE as u128)) / (denom as u128);
        proof {
            assert(priority == spec_priority(txv));
        }
        let entry = MempoolEntry { hash, transaction: tx, received_at: now, priority };
        proof {
            assert(entry@.transaction == txv);
            assert(entry@.hash == spec_tx_hash(txv));
        }
        self.transactions.push(entry);
        proof {
            assert(self.spec_pool() =~= evicted.push(entry@));
        }
        Ok(())
    }

    /// Admits a transaction stamped with the current time.
    pub fn add_transaction(&mut self, tx: Transaction) -> (r: Result<(), MempoolError>)
        requires
            old(self).wf(),
        ensures
            final(self).wf(),
            final(self).spec_max_size() == old(self).spec_max_size(),
            final(self).spec_max_age() == old(self).spec_max_age(),
            r == Err::<(), MempoolError>(MempoolError::InvalidTransaction) <==> !spec_is_valid(
                tx@,
            ),
            r == Err::<(), MempoolError>(MempoolError::AlreadyExists) <==> spec_is_valid(tx@) && (
            exists|j: int|
                0 <= j < old(self).spec_pool().len() && (#[trigger] old(self).spec_pool()[j]).hash
                    == spec_tx_hash(tx@)),
            r is Err ==> final(self).spec_pool() == old(self).spec_pool(),
            r is Ok <==> spec_is_valid(tx@) && !(exists|j: int|
                0 <= j < old(self).spec_pool().len() && (#[trigger] old(self).spec_pool()[j]).hash
                    == spec_tx_hash(tx@)),
            r is Ok ==> exists|t: u64|
                spec_admit_effect(
                    old(self).spec_pool(),
                    old(self).spec_max_size(),
                    final(self).spec_pool(),
                    tx@,
                    t,
                ),
    {
        let ghost txv = tx@;
        let now = now_ts();
        let stamp: u64 = if now >= 0 {
            now as u64
        } else {
            0
        };
        let r = self.add_transaction_at(tx, stamp);
        proof {
            if r is Ok {
                assert(spec_admit_effect(
                    old(self).spec_pool(),
                    old(self).spec_max_size(),
                    self.spec_pool(),
                    txv,
                    stamp,
                ));
            }
        }
        r
    }

    /// Evicts the entry waiting longest: the first admitted among those with
    /// the smallest admission time.
    fn evict_oldest(&mut self)
        requires
            old(self).wf(),
            old(self).spec_pool().len() > 0,
        ensures
            final(self).wf(),
            final(self).spec_max_size() == old(self).spec_max_size(),
            final(self).spec_max_age() == old(self).spec_max_age(),
            exists|j: int|
                #![trigger old(self).spec_pool().remove(j)]
                {
                    let pool = old(self).spec_pool();
                    &&& 0 <= j < pool.len()
                    &&& (forall|i: int|
                        0 <= i < pool.len() ==> (#[trigger] pool[i]).received_at
                            >= pool[j].received_at)
                    &&& (forall|i: int|
                        0 <= i < j ==> (#[trigger] pool[i]).received_at > pool[j].received_at)
                    &&& final(self).spec_pool() == pool.remove(j)
                },
    {
        let mut oldest: usize = 0;
        let mut i: usize = 1;
        while i < self.transactions.len()
            invariant
                *self == *old(self),
                1 <= i <= self.transactions@.len(),
                oldest < i,
                forall|k: int|
                    0 <= k < i ==> (#[trigger] spec_entries(self.transactions@)[k]).received_at
                        >= spec_entries(self.transactions@)[oldest as int].received_at,
                forall|k: int|
                    0 <= k < oldest ==> (#[trigger] spec_entries(self.transactions@)[k]).received_at
                        > spec_entries(self.transactions@)[oldest as int].received_at,
            decreases self.transactions@.len() - i,
        {
            if self.transactions[i].received_at < self.transactions[oldest].received_at {
                oldest = i;
            }
            i += 1;
        }
        self.transactions.remove(oldest);
        proof {
            let pool = old(self).spec_pool();
            assert(self.spec_pool() =~= pool.remove(oldest as int));
            assert forall|a: int, b: int|
                0 <= a < b < self.spec_pool().len() implies (#[trigger] self.spec_pool()[a]).hash
                != (#[trigger] self.spec_pool()[b]).hash by {
                let a0 = if a < oldest as int {
                    a
                } else {
                    a + 1
                };
                let b0 = if b < oldest as int {
                    b
                } else {
                    b + 1
                };
                assert(pool[a0].hash != pool[b0].hash);
            }
        }
    }

    /// Removes the entry keyed by a hash, if any.
    pub fn remove_transaction(&mut self, hash: &crate::Hash)
        requires
            old(self).wf(),
        ensures
            final(self).wf(),
            final(self).spec_max_size() == old(self).spec_max_size(),
            final(self).spec_max_age() == old(self).spec_max_age(),
            final(self).spec_pool() == spec_remove_hash(old(self).spec_pool(), hash@),
    {
        let idx = self.index_of_hash(hash);
        match idx {
            Option::None => {
                proof {
                    lemma_remove_hash_absent(self.spec_pool(), hash@);
                }
            },
            Option::Some(i) => {
                self.transactions.remove(i);
                proof {
                    let pool = old(self).spec_pool();
                    lemma_remove_hash_at(pool, hash@, i as int);
                    assert(self.spec_pool() =~= pool.remove(i as int));
                    assert forall|a: int, b: int|
                        0 <= a < b < self.spec_pool().len() implies (
                    #[trigger] self.spec_pool()[a]).hash != (#[trigger] self.spec_pool()[b]).hash by {
                        let a0 = if a < i as int {
                            a
                        } else {
                            a + 1
                        };
                        let b0 = if b < i as int {
                            b
                        } else {
                            b + 1
                        };
                        assert(pool[a0].hash != pool[b0].hash);
                    }
                }
            },
        }
    }

    /// Removes every entry keyed by one of the given hashes; unknown hashes
    /// are ignored.
    pub fn remove_transactions(&mut self, hashes: &[crate::Hash])
        requires
            old(self).wf(),
        ensures
            final(self).wf(),
            final(self).spec_max_size() == old(self).spec_max_size(),
            final(self).spec_max_age() == old(self).spec_max_age(),
            final(self).spec_pool() == spec_remove_hashes(
                old(self).spec_pool(),
                crate::merkle::spec_hashes(hashes@),
            ),
    {
        let ghost hs = crate::merkle::spec_hashes(hashes@);
        let mut k: usize = 0;
        proof {
            assert(hs.skip(0) =~= hs);
        }
        while k < hashes.len()
            invariant
                k <= hashes@.len(),
                hs == crate::merkle::spec_hashes(hashes@),
                self.wf(),
                self.spec_max_size() == old(self).spec_max_size(),
                self.spec_max_age() == old(self).spec_max_age(),
                spec_remove_hashes(self.spec_pool(), hs.skip(k as int)) == spec_remove_hashes(
                    old(self).spec_pool(),
                    hs,
                ),
            decreases hashes@.len() - k,
        {
            let ghost before = self.spec_pool();
            self.remove_transaction(&hashes[k]);
            proof {
                assert(hs.skip(k as int)[0] == hs[k as int]);
                assert(hs.skip(k as int).skip(1) =~= hs.skip(k + 1));
                assert(spec_remove_hashes(before, hs.skip(k as int)) == spec_remove_hashes(
                    spec_remove_hash(before, hs[k as int]),
                    hs.skip(k + 1),
                ));
            }
            k += 1;
        }
        proof {
            assert(hs.skip(hs.len() as int) =~= Seq::<Seq<u8>>::empty());
        }
    }

    /// Drops every entry older than the maximum age at the given time.
    pub fn cleanup_expired_at(&mut self, now: u64)
        requires
            old(self).wf(),
        ensures
            final(self).wf(),
            final(self).spec_max_size() == old(self).spec_max_size(),
            final(self).spec_max_age() == old(self).spec_max_age(),
            final(self).spec_pool() == spec_fresh_entries(
                old(self).spec_pool(),
                now,
                old(self).spec_max_age(),
            ),
    {
        let ghost pool0 = self.spec_pool();
        let mut kept: Vec<MempoolEntry> = Vec::new();
        let mut i: usize = 0;
        proof {
            assert(spec_entries(kept@) =~= spec_fresh_entries(
                pool0.take(0),
                now,
                self.spec_max_age(),
            )) by {
                assert(pool0.take(0) =~= Seq::<EntryView>::empty());
            }
        }
        while i < self.transactions.len()
            invariant
                *self == *old(self),
                i <= self.transactions@.len(),
                pool0 == old(self).spec_pool(),
                spec_entries(kept@) == spec_fresh_entries(
                    pool0.take(i as int),
                    now,
                    old(self).spec_max_age(),
                ),
            decreases self.transactions@.len() - i,
        {
            let e = &self.transactions[i];
            let age: u64 = if e.received_at <= now {
                now - e.received_at
            } else {
                0
            };
            let ghost prevkept = spec_entries(kept@);
            proof {
                lemma_fresh_entries_snoc(pool0, now, old(self).spec_max_age(), i as int);
            }
            if age < self.max_age {
                let entry = MempoolEntry {
                    hash: self.transactions[i].hash,
                    transaction: self.transactions[i].transaction.clone(),
                    received_at: self.transactions[i].received_at,
                    priority: self.transactions[i].priority,
                };
                proof {
                    assert(entry@ == pool0[i as int]);
                }
                kept.push(entry);
                proof {
                    assert(spec_entries(kept@) =~= prevkept.push(pool0[i as int]));
                }
            }
            i += 1;
        }
        proof {
            assert(pool0.take(pool0.len() as int) =~= pool0);
        }
        self.transactions = kept;
        proof {
            let pool = self.spec_pool();
            lemma_fresh_entries_wf(pool0, now, old(self).spec_max_age());
        }
    }

    /// Drops every entry older than the maximum age, measured now.
    pub fn cleanup_expired(&mut self)
        requires
            old(self).wf(),
        ensures
            final(self).wf(),
            final(self).spec_max_size() == old(self).spec_max_size(),
            final(self).spec_max_age() == old(self).spec_max_age(),
            exists|t: u64|
                final(self).spec_pool() == spec_fresh_entries(
                    old(self).spec_pool(),
                    t,
                    old(self).spec_max_age(),
                ),
    {
        let now = now_ts();
        let stamp: u64 = if now >= 0 {
            now as u64
        } else {
            0
        };
        self.cleanup_expired_at(stamp);
    }

    /// The transactions handed out for a block, measured at the current
    /// time.
    pub fn get_transactions_for_block(&self, max_count: usize) -> (r: Vec<Transaction>)
        requires
            self.wf(),
        ensures
            exists|t: u64|
                spec_txs(r@) == spec_block_selection(
                    self.spec_pool(),
                    t,
                    self.spec_max_age(),
                    max_count as int,
                ),
    {
        let now = now_ts();
        let stamp: u64 = if now >= 0 {
            now as u64
        } else {
            0
        };
        let r = self.get_transactions_for_block_at(max_count, stamp);
        proof {
            assert(spec_txs(r@) == spec_block_selection(
                self.spec_pool(),
                stamp,
                self.spec_max_age(),
                max_count as int,
            ));
        }
        r
    }

    /// The transactions handed out for a block at the given time: the fresh
    /// entries by descending priority, older first on ties, at most the
    /// requested number.
    pub fn get_transactions_for_block_at(&self, max_count: usize, now: u64) -> (r: Vec<Transaction>)
        requires
            self.wf(),
        ensures
            spec_txs(r@) == spec_block_selection(
                self.spec_pool(),
                now,
                self.spec_max_age(),
                max_count as int,
            ),
    {
        let ghost pool0 = self.spec_pool();
        // Collect the fresh entries.
        let mut fresh: Vec<MempoolEntry> = Vec::new();
        let mut i: usize = 0;
        proof {
            assert(spec_entries(fresh@) =~= spec_fresh_entries(
                pool0.take(0),
                now,
                self.spec_max_age(),
            )) by {
                assert(pool0.take(0) =~= Seq::<EntryView>::empty());
            }
        }
        while i < self.transactions.len()
            invariant
                i <= self.transactions@.len(),
                pool0 == self.spec_pool(),
                spec_entries(fresh@) == spec_fresh_entries(
                    pool0.take(i as int),
                    now,
                    self.spec_max_age(),
                ),
            decreases self.transactions@.len() - i,
        {
            let e = &self.transactions[i];
            let age: u64 = if e.received_at <= now {
                now - e.received_at
            } else {
                0
            };
            let ghost prevfresh = spec_entries(fresh@);
            proof {
                lemma_fresh_entries_snoc(pool0, now, self.spec_max_age(), i as int);
            }
            if age < self.max_age {
                let entry = MempoolEntry {
                    hash: e.hash,
                    transaction: e.transaction.clone(),
                    received_at: e.received_at,
                    priority: e.priority,
                };
                proof {
                    assert(entry@ == pool0[i as int]);
                }
                fresh.push(entry);
                proof {
                    assert(spec_entries(fresh@) =~= prevfresh.push(pool0[i as int]));
                }
            }
            i += 1;
        }
        proof {
            assert(pool0.take(pool0.len() as int) =~= pool0);
        }
        // Sort by the inclusion order.
        let sorted = sort_entries(fresh);
        // Hand out the best.
        let count = if max_count < sorted.len() {
            max_count
        } else {
            sorted.len()
        };
        let mut out: Vec<Transaction> = Vec::new();
        let mut k: usize = 0;
        while k < count
            invariant
                k <= count,
                count <= sorted@.len(),
                spec_entries(sorted@) == spec_sort_entries(
                    spec_fresh_entries(pool0, now, self.spec_max_age()),
                ),
                out@.len() == k,
                forall|j: int|
                    0 <= j < k ==> (#[trigger] out@[j])@ == spec_entries(sorted@)[j].transaction,
            decreases count - k,
        {
            out.push(sorted[k].transaction.clone());
            k += 1;
        }
        proof {
            assert(spec_txs(out@) =~= spec_block_selection(
                pool0,
                now,
                self.spec_max_age(),
                max_count as int,
            ));
        }
        out
    }
}

/// Removing an absent hash leaves the pool unchanged.
proof fn lemma_remove_hash_absent(s: Seq<EntryView>, h: Seq<u8>)
    requires
        forall|j: int| 0 <= j < s.len() ==> (#[trigger] s[j]).hash != h,
    ensures
        spec_remove_hash(s, h) == s,
    decreases s.len(),
{
    if s.len() == 0 {
        assert(spec_remove_hash(s, h) =~= s);
    } else {
        assert(forall|j: int| 0 <= j < s.skip(1).len() ==> (#[trigger] s.skip(1)[j]).hash != h);
        lemma_remove_hash_absent(s.skip(1), h);
        assert(seq![s[0]] + s.skip(1) =~= s);
    }
}

/// Removing a hash whose first entry stands at `i` removes that entry.
proof fn lemma_remove_hash_at(s: Seq<EntryView>, h: Seq<u8>, i: int)
    requires
        0 <= i < s.len(),
        s[i].hash == h,
        forall|j: int| 0 <= j < i ==> (#[trigger] s[j]).hash != h,
    ensures
        spec_remove_hash(s, h) == s.remove(i),
    decreases s.len(),
{
    if i == 0 {
        assert(spec_remove_hash(s, h) =~= s.remove(0));
    } else {
        assert(forall|j: int| 0 <= j < i - 1 ==> (#[trigger] s.skip(1)[j]).hash != h);
        assert(s.skip(1)[i - 1].hash == h);
        lemma_remove_hash_at(s.skip(1), h, i - 1);
        assert(seq![s[0]] + s.skip(1).remove(i - 1) =~= s.remove(i));
    }
}

/// The fresh entries of a well-formed pool form a well-formed pool.
proof fn lemma_fresh_entries_wf(s: Seq<EntryView>, now: u64, max_age: u64)
    requires
        spec_pool_wf(s),
    ensures
        spec_pool_wf(spec_fresh_entries(s, now, max_age)),
    decreases s.len(),
{
    if s.len() > 0 {
        assert(forall|j: int| 0 <= j < s.skip(1).len() ==> #[trigger] s.skip(1)[j] == s[j + 1]);
        lemma_fresh_entries_wf(s.skip(1), now, max_age);
        let rest = spec_fresh_entries(s.skip(1), now, max_age);
        lemma_fresh_entries_subset(s.skip(1), now, max_age);
        if spec_fresh(s[0], now, max_age) {
            let whole = seq![s[0]] + rest;
            assert forall|a: int, b: int|
                0 <= a < b < whole.len() implies (#[trigger] whole[a]).hash != (
            #[trigger] whole[b]).hash by {
                if a == 0 {
                    let bi = choose|bi: int|
                        0 <= bi < s.skip(1).len() && s.skip(1)[bi] == whole[b];
                    assert(s[0].hash != s[bi + 1].hash);
                }
            }
            assert forall|a: int| 0 <= a < whole.len() implies (#[trigger] whole[a]).hash
                == spec_tx_hash(whole[a].transaction) && whole[a].priority == spec_priority(
                whole[a].transaction,
            ) by {
                if a > 0 {
                    assert(rest[a - 1].hash == spec_tx_hash(rest[a - 1].transaction));
                }
            }
        }
    }
}

/// Every fresh entry is one of the pool's entries.
proof fn lemma_fresh_entries_subset(s: Seq<EntryView>, now: u64, max_age: u64)
    ensures
        forall|i: int|
            0 <= i < spec_fresh_entries(s, now, max_age).len() ==> exists|j: int|
                0 <= j < s.len() && s[j] == #[trigger] spec_fresh_entries(s, now, max_age)[i],
    decreases s.len(),
{
    if s.len() > 0 {
        lemma_fresh_entries_subset(s.skip(1), now, max_age);
        let rest = spec_fresh_entries(s.skip(1), now, max_age);
        assert forall|i: int| 0 <= i < rest.len() implies exists|j: int|
            0 <= j < s.len() && s[j] == #[trigger] rest[i] by {
            let j0 = choose|j0: int| 0 <= j0 < s.skip(1).len() && s.skip(1)[j0] == rest[i];
            assert(s[j0 + 1] == rest[i]);
        }
        if spec_fresh(s[0], now, max_age) {
            let whole = seq![s[0]] + rest;
            assert forall|i: int| 0 <= i < whole.len() implies exists|j: int|
                0 <= j < s.len() && s[j] == #[trigger] whole[i] by {
                if i == 0 {
                    assert(s[0] == whole[0]);
                } else {
                    let j0 = choose|j0: int| 0 <= j0 < s.len() && s[j0] == rest[i - 1];
                    assert(s[j0] == whole[i]);
                }
            }
        }
    }
}

/// Whether `a` comes before `b` in the inclusion order.
fn entry_before(a: &MempoolEntry, b: &MempoolEntry) -> (r: bool)
    ensures
        r == spec_entry_before(a@, b@),
{
    a.priority > b.priority || (a.priority == b.priority && a.received_at < b.received_at)
}

/// Sorts entries by the inclusion order, stably.
fn sort_entries(entries: Vec<MempoolEntry>) -> (r: Vec<MempoolEntry>)
    ensures
        spec_entries(r@) == spec_sort_entries(spec_entries(entries@)),
{
    let mut sorted: Vec<MempoolEntry> = Vec::new();
    let mut i: usize = 0;
    proof {
        assert(spec_entries(sorted@) =~= spec_sort_entries(spec_entries(entries@).take(0)));
    }
    while i < entries.len()
        invariant
            i <= entries@.len(),
            spec_entries(sorted@) == spec_sort_entries(spec_entries(entries@).take(i as int)),
        decreases entries@.len() - i,
    {
        let e = &entries[i];
        let c = MempoolEntry {
            hash: e.hash,
            transaction: e.transaction.clone(),
            received_at: e.received_at,
            priority: e.priority,
        };
        proof {
            assert(c@ == spec_entries(entries@)[i as int]);
        }
        let mut pos: usize = 0;
        loop
            invariant
                pos <= sorted@.len(),
                forall|j: int| 0 <= j < pos ==> !spec_entry_before(c@, spec_entries(sorted@)[j]),
            ensures
                pos <= sorted@.len(),
                forall|j: int| 0 <= j < pos ==> !spec_entry_before(c@, spec_entries(sorted@)[j]),
                pos < sorted@.len() ==> spec_entry_before(c@, spec_entries(sorted@)[pos as int]),
            decreases sorted@.len() - pos,
        {
            if pos >= sorted.len() {
                break ;
            }
            if entry_before(&c, &sorted[pos]) {
                break ;
            }
            pos += 1;
        }
        let ghost before = spec_entries(sorted@);
        let ghost cv = c@;
        proof {
            lemma_insert_entry_at(before, cv, pos as int);
        }
        sorted.insert(pos, c);
        proof {
            assert(spec_entries(sorted@) =~= before.take(pos as int) + seq![cv] + before.skip(
                pos as int,
            ));
        }
        i += 1;
        proof {
            let all = spec_entries(entries@);
            assert(spec_entries(sorted@) == spec_insert_entry(before, cv));
            assert(all.take(i as int).drop_last() =~= all.take(i - 1));
            assert(all.take(i as int).last() == all[i - 1]);
            assert(all[i - 1] == cv);
            assert(spec_sort_entries(all.take(i as int)) == spec_insert_entry(
                spec_sort_entries(all.take(i - 1)),
                cv,
            ));
        }
    }
    proof {
        assert(spec_entries(entries@).take(entries@.len() as int) =~= spec_entries(entries@));
    }
    sorted
}

} // verus!
