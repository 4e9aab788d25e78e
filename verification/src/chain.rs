//! The ledger: the chain of blocks, the balance book, Universal Dividend
//! scheduling, and checkpoints.
//!
//! A block is accepted only whole: every rule is checked and every
//! transaction applied on a scratch copy, and the ledger is modified only
//! when all of it succeeded.
use vstd::prelude::*;

use crate::block::{
    spec_block_hash, spec_block_valid, spec_quorum_met, spec_txs, spec_txs_merkle_root, Block,
    BlockView,
};
use crate::bytesutil::{append_bytes, bytes32_eq};
use crate::checkpoint::{spec_is_checkpoint, Checkpoint, CheckpointConfig};
use crate::clock::now_ts;
use crate::crypto::{blake3_of, hash_data};
use crate::du::{spec_daily_du, DUCalculator, DUConfig, SECONDS_PER_DAY};
use crate::encoding::{push_i64_le, push_u64_le, spec_i64_le};
use crate::rvs::{RVSConfig, RVS};
use crate::transaction::{Transaction, TxView};
use crate::{Amount, PublicKey};
use vstd::bytes::spec_u64_to_le_bytes;

verus! {

/// One account of the balance book.
pub type BalanceEntry = (PublicKey, Amount);

/// The mathematical content of one account: key bytes and balance.
pub type BalancePair = (Seq<u8>, i64);

/// The views of the balance book's entries, in book order.
pub open spec fn spec_balances(s: Seq<BalanceEntry>) -> Seq<BalancePair> {
    Seq::new(s.len(), |i: int| (s[i].0@, s[i].1))
}

/// The keys of the book are pairwise distinct.
pub open spec fn spec_keys_unique(s: Seq<BalancePair>) -> bool {
    forall|i: int, j: int| 0 <= i < j < s.len() ==> (#[trigger] s[i]).0 != (#[trigger] s[j]).0
}

/// Every balance of the book is non-negative.
pub open spec fn spec_balances_nonneg(s: Seq<BalancePair>) -> bool {
    forall|i: int| 0 <= i < s.len() ==> (#[trigger] s[i]).1 >= 0
}

/// The balance of a key: the first entry holding it, or zero.
pub open spec fn spec_balance_of(s: Seq<BalancePair>, key: Seq<u8>) -> int
    decreases s.len(),
{
    if s.len() == 0 {
        0
    } else if s[0].0 == key {
        s[0].1 as int
    } else {
        spec_balance_of(s.skip(1), key)
    }
}

/// The book with the key's balance set: the first entry holding the key is
/// replaced, or a new entry appended.
pub open spec fn spec_set_balance(s: Seq<BalancePair>, key: Seq<u8>, value: i64) -> Seq<
    BalancePair,
>
    decreases s.len(),
{
    if s.len() == 0 {
        seq![(key, value)]
    } else if s[0].0 == key {
        s.update(0, (key, value))
    } else {
        seq![s[0]] + spec_set_balance(s.skip(1), key, value)
    }
}

/// The sum of all balances of the book.
pub open spec fn spec_sum(s: Seq<BalancePair>) -> int
    decreases s.len(),
{
    if s.len() == 0 {
        0
    } else {
        s[0].1 + spec_sum(s.skip(1))
    }
}

/// When the first entry holding the key stands at `i`, the balance is that
/// entry's, and setting replaces exactly that entry.
proof fn lemma_first_match(s: Seq<BalancePair>, key: Seq<u8>, i: int, value: i64)
    requires
        0 <= i < s.len(),
        s[i].0 == key,
        forall|j: int| 0 <= j < i ==> (#[trigger] s[j]).0 != key,
    ensures
        spec_balance_of(s, key) == s[i].1,
        spec_set_balance(s, key, value) == s.update(i, (key, value)),
    decreases s.len(),
{
    if i == 0 {
        assert(spec_set_balance(s, key, value) =~= s.update(0, (key, value)));
    } else {
        lemma_first_match(s.skip(1), key, i - 1, value);
        assert(forall|j: int| 0 <= j < i - 1 ==> (#[trigger] s.skip(1)[j]).0 != key);
        assert(s.skip(1)[i - 1].0 == key);
        assert(seq![s[0]] + s.skip(1).update(i - 1, (key, value)) =~= s.update(i, (key, value)));
    }
}

/// When no entry holds the key, the balance is zero and setting appends.
proof fn lemma_no_match(s: Seq<BalancePair>, key: Seq<u8>, value: i64)
    requires
        forall|j: int| 0 <= j < s.len() ==> (#[trigger] s[j]).0 != key,
    ensures
        spec_balance_of(s, key) == 0,
        spec_set_balance(s, key, value) == s.push((key, value)),
    decreases s.len(),
{
    if s.len() == 0 {
        assert(spec_set_balance(s, key, value) =~= s.push((key, value)));
    } else {
        assert(forall|j: int| 0 <= j < s.skip(1).len() ==> (#[trigger] s.skip(1)[j]).0 != key);
        lemma_no_match(s.skip(1), key, value);
        assert(seq![s[0]] + s.skip(1).push((key, value)) =~= s.push((key, value)));
    }
}

/// The sum after replacing one entry.
proof fn lemma_sum_update(s: Seq<BalancePair>, i: int, p: BalancePair)
    requires
        0 <= i < s.len(),
    ensures
        spec_sum(s.update(i, p)) == spec_sum(s) - s[i].1 + p.1,
    decreases s.len(),
{
    if i == 0 {
        assert(s.update(0, p).skip(1) =~= s.skip(1));
    } else {
        assert(s.update(i, p).skip(1) =~= s.skip(1).update(i - 1, p));
        lemma_sum_update(s.skip(1), i - 1, p);
    }
}

/// The sum after appending one entry.
proof fn lemma_sum_push(s: Seq<BalancePair>, p: BalancePair)
    ensures
        spec_sum(s.push(p)) == spec_sum(s) + p.1,
    decreases s.len(),
{
    if s.len() == 0 {
        assert(s.push(p)[0] == p);
        assert(s.push(p).skip(1) =~= Seq::<BalancePair>::empty());
        assert(spec_sum(Seq::<BalancePair>::empty()) == 0);
        assert(spec_sum(s.push(p)) == p.1 + spec_sum(s.push(p).skip(1)));
    } else {
        assert(s.push(p)[0] == s[0]);
        assert(s.push(p).skip(1) =~= s.skip(1).push(p));
        lemma_sum_push(s.skip(1), p);
        assert(spec_sum(s.push(p)) == s[0].1 + spec_sum(s.push(p).skip(1)));
    }
}

/// With every balance non-negative, each single balance is at most the sum.
proof fn lemma_element_le_sum(s: Seq<BalancePair>, i: int)
    requires
        spec_balances_nonneg(s),
        0 <= i < s.len(),
    ensures
        s[i].1 <= spec_sum(s),
        spec_sum(s) >= 0,
    decreases s.len(),
{
    assert(forall|j: int|
        0 <= j < s.skip(1).len() ==> (#[trigger] s.skip(1)[j]) == s[j + 1]);
    if s.len() == 1 {
        assert(spec_sum(s.skip(1)) == 0);
    } else {
        if i == 0 {
            lemma_element_le_sum(s.skip(1), 0);
        } else {
            lemma_element_le_sum(s.skip(1), i - 1);
        }
    }
}

/// With every balance non-negative, the sum is non-negative.
proof fn lemma_sum_nonneg(s: Seq<BalancePair>)
    requires
        spec_balances_nonneg(s),
    ensures
        spec_sum(s) >= 0,
    decreases s.len(),
{
    if s.len() > 0 {
        assert(forall|j: int|
            0 <= j < s.skip(1).len() ==> (#[trigger] s.skip(1)[j]) == s[j + 1]);
        lemma_sum_nonneg(s.skip(1));
    }
}

/// The book after every account is credited the same amount.
pub open spec fn spec_credit_all(s: Seq<BalancePair>, du: i64) -> Seq<BalancePair> {
    Seq::new(s.len(), |i: int| (s[i].0, (s[i].1 + du) as i64))
}

/// The sum after crediting every account.
proof fn lemma_sum_credit_all(s: Seq<BalancePair>, du: i64)
    requires
        spec_balances_nonneg(s),
        du >= 0,
        forall|i: int| 0 <= i < s.len() ==> (#[trigger] s[i]).1 + du <= i64::MAX,
    ensures
        spec_sum(spec_credit_all(s, du)) == spec_sum(s) + s.len() * du,
    decreases s.len(),
{
    if s.len() == 0 {
    } else {
        assert(forall|j: int|
            0 <= j < s.skip(1).len() ==> (#[trigger] s.skip(1)[j]) == s[j + 1]);
        assert(spec_credit_all(s, du).skip(1) =~= spec_credit_all(s.skip(1), du));
        lemma_sum_credit_all(s.skip(1), du);
        assert(s.len() * du == (s.len() - 1) * du + du) by (nonlinear_arith);
    }
}

/// One transaction applied to the book: the sender must cover amount plus
/// fee; the sender is debited, the recipient credited.
pub open spec fn spec_apply_tx(s: Seq<BalancePair>, t: TxView) -> Option<Seq<BalancePair>> {
    let sender_balance = spec_balance_of(s, t.from);
    if sender_balance < t.amount + t.fee {
        Option::None
    } else {
        let s1 = spec_set_balance(s, t.from, (sender_balance - t.amount - t.fee) as i64);
        let recipient_balance = spec_balance_of(s1, t.to);
        Option::Some(spec_set_balance(s1, t.to, (recipient_balance + t.amount) as i64))
    }
}

/// The transactions applied in order; `None` as soon as one fails.
pub open spec fn spec_apply_txs(s: Seq<BalancePair>, txs: Seq<TxView>) -> Option<Seq<BalancePair>>
    decreases txs.len(),
{
    if txs.len() == 0 {
        Option::Some(s)
    } else {
        match spec_apply_tx(s, txs[0]) {
            Option::None => Option::None,
            Option::Some(s1) => spec_apply_txs(s1, txs.skip(1)),
        }
    }
}

/// The fees of a list of transactions, summed.
pub open spec fn spec_total_fees(txs: Seq<TxView>) -> int
    decreases txs.len(),
{
    if txs.len() == 0 {
        0
    } else {
        txs[0].fee + spec_total_fees(txs.skip(1))
    }
}



/// The all-zero 32-byte value, the previous hash of a genesis block.
pub open spec fn spec_zero_hash() -> Seq<u8> {
    Seq::new(32, |i: int| 0u8)
}

/// One transaction list decomposition: applying all the transactions is
/// applying a prefix, then the rest from wherever the prefix landed.
proof fn lemma_apply_txs_split(s: Seq<BalancePair>, txs: Seq<TxView>, k: int)
    requires
        0 <= k <= txs.len(),
    ensures
        spec_apply_txs(s, txs) == (match spec_apply_txs(s, txs.take(k)) {
            Option::None => Option::<Seq<BalancePair>>::None,
            Option::Some(m) => spec_apply_txs(m, txs.skip(k)),
        }),
    decreases k,
{
    if k == 0 {
        assert(txs.take(0) =~= Seq::<TxView>::empty());
        assert(txs.skip(0) =~= txs);
    } else {
        assert(txs.take(k)[0] == txs[0]);
        assert(txs.take(k).skip(1) =~= txs.skip(1).take(k - 1));
        match spec_apply_tx(s, txs[0]) {
            Option::None => {
            },
            Option::Some(s1) => {
                lemma_apply_txs_split(s1, txs.skip(1), k - 1);
                assert(txs.skip(1).skip(k - 1) =~= txs.skip(k));
            },
        }
    }
}

/// Fee decomposition over a prefix.
proof fn lemma_total_fees_snoc(txs: Seq<TxView>, k: int)
    requires
        0 <= k < txs.len(),
    ensures
        spec_total_fees(txs.take(k + 1)) == spec_total_fees(txs.take(k)) + txs[k].fee,
    decreases k,
{
    if k == 0 {
        assert(txs.take(1).skip(1) =~= Seq::<TxView>::empty());
        assert(txs.take(0) =~= Seq::<TxView>::empty());
        assert(txs.take(1)[0] == txs[0]);
    } else {
        assert(txs.take(k + 1)[0] == txs[0]);
        assert(txs.take(k + 1).skip(1) =~= txs.skip(1).take(k));
        assert(txs.take(k)[0] == txs[0]);
        assert(txs.take(k).skip(1) =~= txs.skip(1).take(k - 1));
        lemma_total_fees_snoc(txs.skip(1), k - 1);
        assert(txs.skip(1)[k - 1] == txs[k]);
    }
}

/// The canonical bytes of the balance entries, key then amount, in book
/// order.
pub open spec fn spec_entries_bytes(s: Seq<BalancePair>) -> Seq<u8>
    decreases s.len(),
{
    if s.len() == 0 {
        Seq::empty()
    } else {
        s[0].0 + spec_i64_le(s[0].1) + spec_entries_bytes(s.skip(1))
    }
}

/// The canonical bytes of the whole balance book: the number of accounts,
/// then every entry.
pub open spec fn spec_state_bytes(s: Seq<BalancePair>) -> Seq<u8> {
    spec_u64_to_le_bytes(s.len() as u64) + spec_entries_bytes(s)
}

/// Entry-bytes decomposition over a prefix.
proof fn lemma_entries_bytes_snoc(s: Seq<BalancePair>, k: int)
    requires
        0 <= k < s.len(),
    ensures
        spec_entries_bytes(s.take(k + 1)) == spec_entries_bytes(s.take(k)) + s[k].0 + spec_i64_le(
            s[k].1,
        ),
    decreases k,
{
    if k == 0 {
        assert(s.take(1).skip(1) =~= Seq::<BalancePair>::empty());
        assert(s.take(0) =~= Seq::<BalancePair>::empty());
        assert(s.take(1)[0] == s[0]);
        assert(spec_entries_bytes(s.take(1)) == s[0].0 + spec_i64_le(s[0].1) + spec_entries_bytes(
            Seq::<BalancePair>::empty(),
        ));
        assert(spec_entries_bytes(s.take(1)) =~= spec_entries_bytes(s.take(0)) + s[0].0
            + spec_i64_le(s[0].1));
    } else {
        assert(s.take(k + 1)[0] == s[0]);
        assert(s.take(k + 1).skip(1) =~= s.skip(1).take(k));
        assert(s.take(k)[0] == s[0]);
        assert(s.take(k).skip(1) =~= s.skip(1).take(k - 1));
        lemma_entries_bytes_snoc(s.skip(1), k - 1);
        assert(s.skip(1)[k - 1] == s[k]);
        assert(s[0].0 + spec_i64_le(s[0].1) + (spec_entries_bytes(s.skip(1).take(k - 1)) + s[k].0
            + spec_i64_le(s[k].1)) =~= (s[0].0 + spec_i64_le(s[0].1) + spec_entries_bytes(
            s.skip(1).take(k - 1),
        )) + s[k].0 + spec_i64_le(s[k].1));
    }
}

/// Whether a Universal Dividend is due: a full day has elapsed since the
/// last distribution.
pub open spec fn spec_du_due(last_du: int, now: int) -> bool {
    now - last_du >= SECONDS_PER_DAY
}

/// The balance book, mass and last-distribution time after the dividend
/// stage: when a day has elapsed and there are members and a positive
/// dividend, every account is credited and the mass grows accordingly.
pub open spec fn spec_du_stage(
    cfg: DUConfig,
    book: Seq<BalancePair>,
    mass: int,
    last_du: int,
    now: int,
) -> (Seq<BalancePair>, int, int) {
    if !spec_du_due(last_du, now) {
        (book, mass, last_du)
    } else {
        let du = spec_daily_du(cfg, mass, book.len() as int, now);
        if book.len() > 0 && du > 0 {
            (spec_credit_all(book, du as i64), mass + book.len() * du, now)
        } else {
            (book, mass, now)
        }
    }
}

/// Whether the dividend stage stays within machine bounds.
pub open spec fn spec_du_stage_fits(
    cfg: DUConfig,
    book: Seq<BalancePair>,
    mass: int,
    last_du: int,
    now: int,
) -> bool {
    spec_du_due(last_du, now) ==> {
        let du = spec_daily_du(cfg, mass, book.len() as int, now);
        book.len() > 0 && du > 0 ==> mass + book.len() * du <= i64::MAX
    }
}

/// State of the ledger: every account's balance, the member count, the
/// total monetary mass, and when the Universal Dividend last fired.
#[derive(Debug)]
pub struct BlockchainState {
    /// The balance book: one entry per account, keys distinct.
    pub balances: Vec<BalanceEntry>,
    /// How many accounts the book holds.
    pub member_count: u64,
    /// The total monetary mass, always the sum of all balances.
    pub total_mass: Amount,
    /// When the Universal Dividend was last distributed.
    pub last_du_distribution: i64,
}

impl Default for BlockchainState {
    /// The empty ledger state, with the dividend clock started now.
    fn default() -> (r: Self)
        ensures
            r.balances@.len() == 0,
            r.member_count == 0,
            r.total_mass == 0,
    {
        BlockchainState {
            balances: Vec::new(),
            member_count: 0,
            total_mass: 0,
            last_du_distribution: now_ts(),
        }
    }
}

/// The ledger: the chain, the state, the consensus registry, the dividend
/// calculator and the recorded checkpoints.
pub struct Blockchain {
    blocks: Vec<Block>,
    state: BlockchainState,
    consensus: RVS,
    du_calculator: DUCalculator,
    checkpoint_config: CheckpointConfig,
    checkpoints: Vec<Checkpoint>,
    fees_burned: Ghost<int>,
    ud_credited: Ghost<int>,
}

impl Blockchain {
    /// The accepted blocks, oldest first.
    pub closed spec fn spec_blocks(self) -> Seq<BlockView> {
        Seq::new(self.blocks@.len(), |i: int| self.blocks@[i]@)
    }

    /// The balance book.
    pub closed spec fn spec_balance_book(self) -> Seq<BalancePair> {
        spec_balances(self.state.balances@)
    }

    /// The member count.
    pub closed spec fn spec_member_count(self) -> int {
        self.state.member_count as int
    }

    /// The total monetary mass.
    pub closed spec fn spec_total_mass(self) -> int {
        self.state.total_mass as int
    }

    /// When the Universal Dividend last fired.
    pub closed spec fn spec_last_du(self) -> int {
        self.state.last_du_distribution as int
    }

    /// The recorded checkpoints.
    pub closed spec fn spec_checkpoints(self) -> Seq<Checkpoint> {
        self.checkpoints@
    }

    /// The consensus registry.
    pub closed spec fn spec_consensus(self) -> RVS {
        self.consensus
    }

    /// The dividend configuration.
    pub closed spec fn spec_du_config(self) -> DUConfig {
        self.du_calculator.spec_config()
    }

    /// The checkpoint configuration.
    pub closed spec fn spec_checkpoint_config(self) -> CheckpointConfig {
        self.checkpoint_config
    }

    /// All fees ever burned by accepted transactions.
    pub closed spec fn spec_fees_burned(self) -> int {
        self.fees_burned@
    }

    /// All credits ever issued by Universal Dividend events.
    pub closed spec fn spec_ud_credited(self) -> int {
        self.ud_credited@
    }

    /// The ledger invariant.
    ///
    /// The balance book has distinct keys and non-negative balances; the
    /// member count is the number of accounts; the total mass is the sum of
    /// all balances, which equals everything the dividend ever credited
    /// minus everything fees ever burned. Every stored block carries its
    /// correct hash, heights are contiguous from zero, each block links to
    /// the hash of its predecessor (all zeroes at height zero), and every
    /// stored block's Merkle root matches its transactions.
    pub open spec fn wf(self) -> bool {
        &&& spec_keys_unique(self.spec_balance_book())
        &&& spec_balances_nonneg(self.spec_balance_book())
        &&& self.spec_member_count() == self.spec_balance_book().len()
        &&& self.spec_total_mass() == spec_sum(self.spec_balance_book())
        &&& spec_sum(self.spec_balance_book()) == self.spec_ud_credited()
            - self.spec_fees_burned()
        &&& (forall|i: int|
            0 <= i < self.spec_blocks().len() ==> (#[trigger] self.spec_blocks()[i]).hash == Some(
                spec_block_hash(self.spec_blocks()[i].header),
            ))
        &&& (forall|i: int|
            0 <= i < self.spec_blocks().len() ==> (#[trigger] self.spec_blocks()[i]).header.height
                == i)
        &&& (self.spec_blocks().len() > 0 ==> self.spec_blocks()[0].header.previous_hash
            == spec_zero_hash())
        &&& (forall|i: int|
            1 <= i < self.spec_blocks().len() ==> (#[trigger] self.spec_blocks()[i]).header
                .previous_hash == spec_block_hash(self.spec_blocks()[i - 1].header))
        &&& (forall|i: int|
            0 <= i < self.spec_blocks().len() ==> (#[trigger] self.spec_blocks()[i]).header
                .merkle_root == spec_txs_merkle_root(self.spec_blocks()[i].transactions))
        &&& self.spec_consensus().wf()
        &&& self.spec_checkpoint_config().wf()
        &&& self.spec_du_config().wf()
    }

    /// Creates an empty ledger over the given configurations, with the
    /// dividend clock started at the given time.
    pub fn new_at(du_config: DUConfig, rvs_config: RVSConfig, now: i64) -> (r: Self)
        requires
            du_config.wf(),
        ensures
            r.wf(),
            r.spec_blocks().len() == 0,
            r.spec_balance_book().len() == 0,
            r.spec_total_mass() == 0,
            r.spec_checkpoints().len() == 0,
            r.spec_du_config() == du_config,
            r.spec_consensus().spec_config() == rvs_config,
            r.spec_last_du() == now,
    {
        let r = Blockchain {
            blocks: Vec::new(),
            state: BlockchainState {
                balances: Vec::new(),
                member_count: 0,
                total_mass: 0,
                last_du_distribution: now,
            },
            consensus: RVS::new(rvs_config),
            du_calculator: DUCalculator::new(du_config),
            checkpoint_config: CheckpointConfig { interval: 100, first_checkpoint: 100 },
            checkpoints: Vec::new(),
            fees_burned: Ghost(0),
            ud_credited: Ghost(0),
        };
        proof {
            assert(r.spec_balance_book() =~= Seq::<BalancePair>::empty());
        }
        r
    }

    /// Creates an empty ledger, with the dividend clock started now.
    pub fn new(du_config: DUConfig, rvs_config: RVSConfig) -> (r: Self)
        requires
            du_config.wf(),
        ensures
            r.wf(),
            r.spec_blocks().len() == 0,
            r.spec_balance_book().len() == 0,
            r.spec_total_mass() == 0,
            r.spec_checkpoints().len() == 0,
            r.spec_du_config() == du_config,
            r.spec_consensus().spec_config() == rvs_config,
    {
        let now = now_ts();
        Self::new_at(du_config, rvs_config, now)
    }

    /// The current height: how many blocks the chain holds.
    pub fn height(&self) -> (r: u64)
        requires
            self.spec_blocks().len() <= u64::MAX,
        ensures
            r == self.spec_blocks().len(),
    {
        self.blocks.len() as u64
    }

    /// The hash of the last block, if any block exists.
    pub fn last_block_hash(&self) -> (r: Option<crate::Hash>)
        requires
            self.wf(),
        ensures
            self.spec_blocks().len() == 0 ==> r is None,
            self.spec_blocks().len() > 0 ==> (r matches Some(h) && h@ == spec_block_hash(
                self.spec_blocks().last().header,
            )),
    {
        let n = self.blocks.len();
        if n == 0 {
            return None;
        }
        match &self.blocks[n - 1].hash {
            Option::Some(h) => Some(*h),
            Option::None => {
                proof {
                    assert(self.spec_blocks()[n - 1].hash is Some);
                    assert(false);
                }
                None
            },
        }
    }

    /// The balance of an address; zero for an unknown address.
    pub fn get_balance(&self, address: &PublicKey) -> (r: Amount)
        ensures
            r == spec_balance_of(self.spec_balance_book(), address@),
    {
        let mut i: usize = 0;
        while i < self.state.balances.len()
            invariant
                i <= self.state.balances@.len(),
                forall|j: int|
                    0 <= j < i ==> (#[trigger] spec_balances(self.state.balances@)[j]).0
                        != address@,
            decreases self.state.balances@.len() - i,
        {
            if bytes32_eq(&self.state.balances[i].0, address) {
                proof {
                    lemma_first_match(self.spec_balance_book(), address@, i as int, 0);
                }
                return self.state.balances[i].1;
            }
            i += 1;
        }
        proof {
            lemma_no_match(self.spec_balance_book(), address@, 0);
        }
        0
    }

    /// The consensus registry.
    pub fn consensus(&self) -> (r: &RVS)
        ensures
            *r == self.spec_consensus(),
    {
        &self.consensus
    }

    /// The consensus registry, for registration and reputation updates.
    /// The ledger stays well formed as long as the registry it is handed
    /// back is.
    pub fn consensus_mut(&mut self) -> (r: &mut RVS)
        ensures
            *r == old(self).spec_consensus(),
            final(self).spec_consensus() == *final(r),
            final(self).spec_blocks() == old(self).spec_blocks(),
            final(self).spec_balance_book() == old(self).spec_balance_book(),
            final(self).spec_member_count() == old(self).spec_member_count(),
            final(self).spec_total_mass() == old(self).spec_total_mass(),
            final(self).spec_last_du() == old(self).spec_last_du(),
            final(self).spec_checkpoints() == old(self).spec_checkpoints(),
            final(self).spec_du_config() == old(self).spec_du_config(),
            final(self).spec_checkpoint_config() == old(self).spec_checkpoint_config(),
            final(self).spec_fees_burned() == old(self).spec_fees_burned(),
            final(self).spec_ud_credited() == old(self).spec_ud_credited(),
            old(self).wf() && final(r).wf() ==> final(self).wf(),
    {
        &mut self.consensus
    }

    /// The block at a height, if the chain reaches it.
    pub fn get_block(&self, height: u64) -> (r: Option<&Block>)
        ensures
            height < self.spec_blocks().len() ==> (r matches Some(b) && b@ == self.spec_blocks()[
                height as int]),
            height >= self.spec_blocks().len() ==> r is None,
    {
        if height < self.blocks.len() as u64 {
            Some(&self.blocks[height as usize])
        } else {
            None
        }
    }

    /// The most recent checkpoint, if one was recorded.
    pub fn last_checkpoint(&self) -> (r: Option<&Checkpoint>)
        ensures
            self.spec_checkpoints().len() == 0 ==> r is None,
            self.spec_checkpoints().len() > 0 ==> (r matches Some(c) && *c
                == self.spec_checkpoints().last()),
    {
        let n = self.checkpoints.len();
        if n == 0 {
            None
        } else {
            Some(&self.checkpoints[n - 1])
        }
    }
}


/// The hash a new block must link to: the last block's, or all zeroes for
/// an empty chain.
pub open spec fn spec_prev_hash(blocks: Seq<BlockView>) -> Seq<u8> {
    if blocks.len() == 0 {
        spec_zero_hash()
    } else {
        spec_block_hash(blocks.last().header)
    }
}

/// Two ledgers agree on everything observable.
pub open spec fn spec_same_ledger(a: Blockchain, b: Blockchain) -> bool {
    &&& a.spec_blocks() == b.spec_blocks()
    &&& a.spec_balance_book() == b.spec_balance_book()
    &&& a.spec_member_count() == b.spec_member_count()
    &&& a.spec_total_mass() == b.spec_total_mass()
    &&& a.spec_last_du() == b.spec_last_du()
    &&& a.spec_checkpoints() == b.spec_checkpoints()
    &&& a.spec_consensus() == b.spec_consensus()
    &&& a.spec_du_config() == b.spec_du_config()
    &&& a.spec_checkpoint_config() == b.spec_checkpoint_config()
    &&& a.spec_fees_burned() == b.spec_fees_burned()
    &&& a.spec_ud_credited() == b.spec_ud_credited()
}

/// The header of a genesis block created at a time by a validator.
pub open spec fn spec_genesis_header(validator: Seq<u8>, now: i64) -> crate::block::HeaderView {
    crate::block::HeaderView {
        height: 0,
        previous_hash: spec_zero_hash(),
        merkle_root: spec_txs_merkle_root(Seq::<TxView>::empty()),
        timestamp: now,
        validator: validator,
        version: crate::block::PROTOCOL_VERSION,
    }
}

/// All the rules a block must pass to be accepted: computed hash present,
/// valid against the chain tip, at the next height, quorum met whenever any
/// validator is registered, and every transaction covered by its sender.
pub open spec fn spec_add_block_ok(c: Blockchain, b: BlockView) -> bool {
    &&& b.hash is Some
    &&& spec_block_valid(b, Some(spec_prev_hash(c.spec_blocks())))
    &&& b.header.height == c.spec_blocks().len()
    &&& (c.spec_consensus().spec_validators().len() > 0 ==> spec_quorum_met(
        b.signatures.len() as int,
        c.spec_consensus().spec_validators().len() as int,
    ))
    &&& spec_apply_txs(c.spec_balance_book(), b.transactions) is Some
}

/// The dividend stage that would follow the block stays within machine
/// bounds.
pub open spec fn spec_add_block_fits(c: Blockchain, b: BlockView, now: i64) -> bool {
    spec_apply_txs(c.spec_balance_book(), b.transactions) matches Some(book1)
        ==> spec_du_stage_fits(
        c.spec_du_config(),
        book1,
        c.spec_total_mass() - spec_total_fees(b.transactions),
        c.spec_last_du(),
        now as int,
    )
}

/// Everything an accepted block does to the ledger at a given time: the
/// block is appended carrying its computed hash, the transactions are
/// applied, the fees burned, the dividend stage runs, and a checkpoint is
/// recorded at checkpoint heights; consensus and configuration stand still.
pub open spec fn spec_add_block_effects(
    c: Blockchain,
    c2: Blockchain,
    b: BlockView,
    h: Seq<u8>,
    now: i64,
) -> bool {
    let txs = b.transactions;
    let book1 = spec_apply_txs(c.spec_balance_book(), txs)->Some_0;
    let fees = spec_total_fees(txs);
    let mass1 = c.spec_total_mass() - fees;
    let staged = spec_du_stage(c.spec_du_config(), book1, mass1, c.spec_last_du(), now as int);
    &&& h == spec_block_hash(b.header)
    &&& c2.spec_blocks() == c.spec_blocks().push(
        BlockView { hash: Some(spec_block_hash(b.header)), ..b },
    )
    &&& c2.spec_balance_book() == staged.0
    &&& c2.spec_total_mass() == staged.1
    &&& c2.spec_last_du() == staged.2
    &&& c2.spec_member_count() == staged.0.len()
    &&& c2.spec_fees_burned() == c.spec_fees_burned() + fees
    &&& c2.spec_ud_credited() == c.spec_ud_credited() + (staged.1 - mass1)
    &&& ({
        let cps = c2.spec_checkpoints();
        if spec_is_checkpoint(c.spec_checkpoint_config(), b.header.height) {
            &&& cps.len() == c.spec_checkpoints().len() + 1
            &&& cps == c.spec_checkpoints().push(cps.last())
            &&& cps.last().height == b.header.height
            &&& cps.last().block_hash@ == spec_block_hash(b.header)
            &&& cps.last().state_hash@ == blake3_of(spec_state_bytes(staged.0))
            &&& cps.last().timestamp == b.header.timestamp
            &&& cps.last().checkpoint_interval == c.spec_checkpoint_config().interval
        } else {
            cps == c.spec_checkpoints()
        }
    })
    &&& c2.spec_consensus() == c.spec_consensus()
    &&& c2.spec_du_config() == c.spec_du_config()
    &&& c2.spec_checkpoint_config() == c.spec_checkpoint_config()
}

/// Copies the balance book.
fn copy_balances(src: &Vec<BalanceEntry>) -> (r: Vec<BalanceEntry>)
    ensures
        r@ == src@,
{
    let mut out: Vec<BalanceEntry> = Vec::new();
    let mut i: usize = 0;
    while i < src.len()
        invariant
            i <= src@.len(),
            out@ == src@.take(i as int),
        decreases src@.len() - i,
    {
        out.push(src[i]);
        proof {
            assert(src@.take(i as int).push(src@[i as int]) =~= src@.take(i + 1));
        }
        i += 1;
    }
    proof {
        assert(src@.take(src@.len() as int) =~= src@);
    }
    out
}

/// Finds the first entry of a key in the book.
fn balance_index(balances: &Vec<BalanceEntry>, key: &PublicKey) -> (r: Option<usize>)
    ensures
        r matches Some(i) ==> i < balances@.len() && (spec_balances(balances@)[i as int]).0 == key@
            && (forall|j: int|
            0 <= j < i ==> (#[trigger] spec_balances(balances@)[j]).0 != key@),
        r is None ==> forall|j: int|
            0 <= j < balances@.len() ==> (#[trigger] spec_balances(balances@)[j]).0 != key@,
{
    let mut i: usize = 0;
    while i < balances.len()
        invariant
            i <= balances@.len(),
            forall|j: int| 0 <= j < i ==> (#[trigger] spec_balances(balances@)[j]).0 != key@,
        decreases balances@.len() - i,
    {
        if bytes32_eq(&balances[i].0, key) {
            proof {
                assert((spec_balances(balances@)[i as int]).0 == key@);
            }
            return Some(i);
        }
        i += 1;
    }
    None
}

/// Applies one transaction to the book: fails exactly when the sender's
/// balance does not cover amount plus fee; otherwise debits the sender and
/// credits the recipient, burning the fee from the sum.
fn apply_one(balances: &mut Vec<BalanceEntry>, tx: &Transaction) -> (r: bool)
    requires
        spec_keys_unique(spec_balances(old(balances)@)),
        spec_balances_nonneg(spec_balances(old(balances)@)),
        tx@.amount > 0,
        tx@.fee >= 0,
        spec_sum(spec_balances(old(balances)@)) <= i64::MAX,
    ensures
        r == (spec_apply_tx(spec_balances(old(balances)@), tx@) is Some),
        r ==> Some(spec_balances(final(balances)@)) == spec_apply_tx(
            spec_balances(old(balances)@),
            tx@,
        ) && spec_keys_unique(spec_balances(final(balances)@)) && spec_balances_nonneg(
            spec_balances(final(balances)@),
        ) && spec_sum(spec_balances(final(balances)@)) == spec_sum(spec_balances(old(balances)@))
            - tx@.fee,
        !r ==> final(balances)@ == old(balances)@,
{
    let ghost book0 = spec_balances(balances@);
    let sender_idx = balance_index(balances, &tx.from);
    let i = match sender_idx {
        Option::None => {
            proof {
                lemma_no_match(book0, tx@.from, 0);
            }
            return false;
        },
        Option::Some(i) => i,
    };
    let sender_balance = balances[i].1;
    proof {
        lemma_first_match(book0, tx@.from, i as int, 0);
        assert(spec_balance_of(book0, tx@.from) == sender_balance);
    }
    if (sender_balance as i128) < (tx.amount as i128) + (tx.fee as i128) {
        return false;
    }
    let new_sender: i64 = sender_balance - tx.amount - tx.fee;
    proof {
        lemma_first_match(book0, tx@.from, i as int, new_sender);
        lemma_element_le_sum(book0, i as int);
    }
    balances.set(i, (tx.from, new_sender));
    let ghost book1 = spec_balances(balances@);
    proof {
        assert(book1 =~= book0.update(i as int, (tx@.from, new_sender)));
        assert(book1 == spec_set_balance(book0, tx@.from, new_sender));
        lemma_sum_update(book0, i as int, (tx@.from, new_sender));
        assert(spec_sum(book1) == spec_sum(book0) - tx@.amount - tx@.fee);
        assert forall|a: int, b: int| 0 <= a < b < book1.len() implies (#[trigger] book1[a]).0 != (
        #[trigger] book1[b]).0 by {
            assert(book0[a].0 != book0[b].0);
            assert(book1[a].0 == book0[a].0);
            assert(book1[b].0 == book0[b].0);
        }
        assert(spec_balances_nonneg(book1));
        lemma_sum_nonneg(book1);
    }
    let recipient_idx = balance_index(balances, &tx.to);
    match recipient_idx {
        Option::Some(j) => {
            let rb = balances[j].1;
            proof {
                lemma_first_match(book1, tx@.to, j as int, 0);
                assert(spec_balance_of(book1, tx@.to) == rb);
                lemma_element_le_sum(book1, j as int);
                assert(rb + tx@.amount <= spec_sum(book1) + tx@.amount);
            }
            let new_rb: i64 = rb + tx.amount;
            proof {
                lemma_first_match(book1, tx@.to, j as int, new_rb);
                lemma_sum_update(book1, j as int, (tx@.to, new_rb));
            }
            balances.set(j, (tx.to, new_rb));
            proof {
                let book2 = spec_balances(balances@);
                assert(book2 =~= book1.update(j as int, (tx@.to, new_rb)));
                assert(book2 == spec_set_balance(book1, tx@.to, new_rb));
                assert forall|a: int, b: int|
                    0 <= a < b < book2.len() implies (#[trigger] book2[a]).0 != (
                #[trigger] book2[b]).0 by {
                    assert(book1[a].0 != book1[b].0);
                    assert(book2[a].0 == book1[a].0);
                    assert(book2[b].0 == book1[b].0);
                }
            }
            true
        },
        Option::None => {
            proof {
                lemma_no_match(book1, tx@.to, 0);
                lemma_no_match(book1, tx@.to, tx.amount);
                lemma_sum_push(book1, (tx@.to, tx@.amount));
            }
            balances.push((tx.to, tx.amount));
            proof {
                let book2 = spec_balances(balances@);
                assert(book2 =~= book1.push((tx@.to, tx@.amount)));
                assert(book2 == spec_set_balance(book1, tx@.to, tx@.amount));
                assert forall|a: int, b: int|
                    0 <= a < b < book2.len() implies (#[trigger] book2[a]).0 != (
                #[trigger] book2[b]).0 by {
                    if b < book1.len() {
                        assert(book1[a].0 != book1[b].0);
                    } else {
                        assert(book1[a].0 != tx@.to);
                    }
                }
            }
            true
        },
    }
}

/// Applies a block's transactions in order to the book; returns the total
/// fee burned, or nothing as soon as one transaction is not covered.
fn apply_all(balances: &mut Vec<BalanceEntry>, transactions: &Vec<Transaction>) -> (r: Option<i64>)
    requires
        spec_keys_unique(spec_balances(old(balances)@)),
        spec_balances_nonneg(spec_balances(old(balances)@)),
        spec_sum(spec_balances(old(balances)@)) <= i64::MAX,
        forall|i: int|
            0 <= i < spec_txs(transactions@).len() ==> (#[trigger] spec_txs(transactions@)[i]).amount
                > 0 && spec_txs(transactions@)[i].fee >= 0,
    ensures
        r is Some <==> spec_apply_txs(spec_balances(old(balances)@), spec_txs(transactions@))
            is Some,
        r matches Some(fees) ==> Some(spec_balances(final(balances)@)) == spec_apply_txs(
            spec_balances(old(balances)@),
            spec_txs(transactions@),
        ) && fees == spec_total_fees(spec_txs(transactions@)) && spec_keys_unique(
            spec_balances(final(balances)@),
        ) && spec_balances_nonneg(spec_balances(final(balances)@)) && spec_sum(
            spec_balances(final(balances)@),
        ) == spec_sum(spec_balances(old(balances)@)) - fees && 0 <= fees,
{
    let ghost book0 = spec_balances(balances@);
    let ghost txs = spec_txs(transactions@);
    let mut fees: i64 = 0;
    let mut k: usize = 0;
    proof {
        assert(txs.take(0) =~= Seq::<TxView>::empty());
        assert(spec_total_fees(txs.take(0)) == 0);
    }
    while k < transactions.len()
        invariant
            k <= transactions@.len(),
            txs == spec_txs(transactions@),
            book0 == spec_balances(old(balances)@),
            spec_keys_unique(book0),
            spec_balances_nonneg(book0),
            spec_sum(book0) <= i64::MAX,
            forall|i: int|
                0 <= i < txs.len() ==> (#[trigger] txs[i]).amount > 0 && txs[i].fee >= 0,
            Some(spec_balances(balances@)) == spec_apply_txs(book0, txs.take(k as int)),
            fees == spec_total_fees(txs.take(k as int)),
            spec_keys_unique(spec_balances(balances@)),
            spec_balances_nonneg(spec_balances(balances@)),
            spec_sum(spec_balances(balances@)) == spec_sum(book0) - fees,
            0 <= fees,
        decreases transactions@.len() - k,
    {
        let tx = &transactions[k];
        proof {
            assert(tx@ == txs[k as int]);
            lemma_sum_nonneg(spec_balances(balances@));
        }
        let ghost mid = spec_balances(balances@);
        let ok = apply_one(balances, tx);
        proof {
            lemma_apply_txs_split(book0, txs, k as int);
            assert(txs.skip(k as int)[0] == txs[k as int]);
        }
        if !ok {
            proof {
                assert(spec_apply_tx(mid, txs[k as int]) is None);
                assert(txs.skip(k as int).len() > 0);
                assert(spec_apply_txs(mid, txs.skip(k as int)) is None);
                assert(spec_apply_txs(book0, txs) is None);
            }
            return None;
        }
        proof {
            let after = spec_balances(balances@);
            assert(spec_apply_tx(mid, txs[k as int]) == Some(after));
            lemma_total_fees_snoc(txs, k as int);
            lemma_sum_nonneg(after);
            assert(fees + txs[k as int].fee <= spec_sum(book0));
            // The prefix extends by one applied transaction.
            lemma_apply_txs_split(book0, txs.take(k + 1), k as int);
            assert(txs.take(k + 1).take(k as int) =~= txs.take(k as int));
            assert(txs.take(k + 1).skip(k as int) =~= seq![txs[k as int]]);
            assert(seq![txs[k as int]][0] == txs[k as int]);
            assert(seq![txs[k as int]].skip(1) =~= Seq::<TxView>::empty());
            assert(spec_apply_txs(after, Seq::<TxView>::empty()) == Some(after));
            assert(spec_apply_txs(mid, seq![txs[k as int]]) == Some(after));
            assert(spec_apply_txs(book0, txs.take(k + 1)) == Some(after));
        }
        fees = fees + tx.fee;
        k += 1;
    }
    proof {
        assert(txs.take(txs.len() as int) =~= txs);
    }
    Some(fees)
}

/// Builds the canonical bytes of the balance book and hashes them.
fn state_hash_of(balances: &Vec<BalanceEntry>) -> (r: crate::Hash)
    ensures
        r@ == blake3_of(spec_state_bytes(spec_balances(balances@))),
{
    let mut data: Vec<u8> = Vec::new();
    push_u64_le(&mut data, balances.len() as u64);
    let mut k: usize = 0;
    proof {
        assert(spec_balances(balances@).take(0) =~= Seq::<BalancePair>::empty());
        assert(data@ =~= spec_u64_to_le_bytes(balances@.len() as u64) + spec_entries_bytes(
            spec_balances(balances@).take(0),
        ));
    }
    while k < balances.len()
        invariant
            k <= balances@.len(),
            data@ == spec_u64_to_le_bytes(balances@.len() as u64) + spec_entries_bytes(
                spec_balances(balances@).take(k as int),
            ),
        decreases balances@.len() - k,
    {
        append_bytes(&mut data, balances[k].0.as_slice());
        push_i64_le(&mut data, balances[k].1);
        proof {
            lemma_entries_bytes_snoc(spec_balances(balances@), k as int);
            assert((spec_balances(balances@)[k as int]).0 == balances@[k as int].0@);
            assert(data@ =~= spec_u64_to_le_bytes(balances@.len() as u64) + spec_entries_bytes(
                spec_balances(balances@).take(k + 1),
            ));
        }
        k += 1;
    }
    proof {
        assert(spec_balances(balances@).take(balances@.len() as int) =~= spec_balances(balances@));
    }
    hash_data(data.as_slice())
}

impl Blockchain {
    /// Creates the genesis block at height zero with an all-zero previous
    /// hash and no transactions, stamped with the given time; fails if any
    /// block already exists, leaving the ledger unchanged.
    pub fn create_genesis_at(&mut self, validator: PublicKey, now: i64) -> (r: Result<
        crate::Hash,
        String,
    >)
        requires
            old(self).wf(),
        ensures
            final(self).wf(),
            r is Ok <==> old(self).spec_blocks().len() == 0,
            r is Err ==> spec_same_ledger(*final(self), *old(self)),
            r matches Ok(h) ==> {
                &&& h@ == spec_block_hash(spec_genesis_header(validator@, now))
                &&& final(self).spec_blocks().len() == 1
                &&& final(self).spec_blocks()[0].header == spec_genesis_header(validator@, now)
                &&& final(self).spec_blocks()[0].transactions.len() == 0
                &&& final(self).spec_blocks()[0].hash == Some(h@)
                &&& final(self).spec_balance_book() == old(self).spec_balance_book()
                &&& final(self).spec_member_count() == old(self).spec_member_count()
                &&& final(self).spec_total_mass() == old(self).spec_total_mass()
                &&& final(self).spec_last_du() == old(self).spec_last_du()
                &&& final(self).spec_checkpoints() == old(self).spec_checkpoints()
                &&& final(self).spec_consensus() == old(self).spec_consensus()
                &&& final(self).spec_du_config() == old(self).spec_du_config()
                &&& final(self).spec_checkpoint_config() == old(self).spec_checkpoint_config()
                &&& final(self).spec_fees_burned() == old(self).spec_fees_burned()
                &&& final(self).spec_ud_credited() == old(self).spec_ud_credited()
            },
    {
        if self.blocks.len() > 0 {
            return Err("Genesis block already exists".to_owned());
        }
        let zero: crate::Hash = [0u8; 32];
        proof {
            assert(zero@ =~= spec_zero_hash());
            assert(spec_txs(Seq::<Transaction>::empty()) =~= Seq::<TxView>::empty());
        }
        let mut genesis = Block::new_at(0, zero, Vec::new(), validator, now);
        let hash = genesis.calculate_hash();
        self.blocks.push(genesis);
        proof {
            assert(self.spec_blocks() =~= old(self).spec_blocks().push(genesis@));
            assert(genesis@.header == spec_genesis_header(validator@, now));
        }
        Ok(hash)
    }

    /// Creates the genesis block, stamped with the current time.
    pub fn create_genesis(&mut self, validator: PublicKey) -> (r: Result<crate::Hash, String>)
        requires
            old(self).wf(),
        ensures
            final(self).wf(),
            r is Ok <==> old(self).spec_blocks().len() == 0,
            r is Err ==> spec_same_ledger(*final(self), *old(self)),
            r is Ok ==> final(self).spec_blocks().len() == 1 && final(self).spec_blocks()[0].header
                .height == 0,
            final(self).spec_consensus() == old(self).spec_consensus(),
    {
        let now = now_ts();
        self.create_genesis_at(validator, now)
    }
}


impl Blockchain {
    /// Accepts a block at the given time: verifies it against the chain
    /// tip, the expected height and the quorum, applies its transactions
    /// atomically, fires the Universal Dividend when a day has elapsed, and
    /// records a checkpoint at checkpoint heights. On any failure the
    /// ledger is unchanged.
    pub fn add_block_at(&mut self, block: Block, now: i64) -> (r: Result<crate::Hash, String>)
        requires
            old(self).wf(),
            block@.hash is Some,
        ensures
            final(self).wf(),
            r is Ok <==> spec_add_block_ok(*old(self), block@) && spec_add_block_fits(
                *old(self),
                block@,
                now,
            ),
            r is Err ==> spec_same_ledger(*final(self), *old(self)),
            r matches Ok(h) ==> spec_add_block_effects(*old(self), *final(self), block@, h@, now),
    {
        let n = self.blocks.len();
        let previous_hash: crate::Hash = if n == 0 {
            let zero: crate::Hash = [0u8; 32];
            proof {
                assert(zero@ =~= spec_zero_hash());
            }
            zero
        } else {
            match &self.blocks[n - 1].hash {
                Option::Some(h) => *h,
                Option::None => {
                    proof {
                        assert(self.spec_blocks()[n - 1].hash is Some);
                        assert(false);
                    }
                    [0u8; 32]
                },
            }
        };
        proof {
            assert(previous_hash@ == spec_prev_hash(old(self).spec_blocks()));
        }
        if !block.is_valid(Some(previous_hash)) {
            return Err("Invalid block".to_owned());
        }
        if block.header.height != n as u64 {
            return Err("Invalid block height".to_owned());
        }
        let total_validators = self.consensus.active_validators_count();
        if total_validators > 0 && !block.has_quorum(total_validators) {
            return Err("Block does not have required quorum".to_owned());
        }
        proof {
            // Block validity makes every transaction's amount positive and
            // fee non-negative.
            assert forall|i: int| 0 <= i < block@.transactions.len() implies (
            #[trigger] block@.transactions[i]).amount > 0 && block@.transactions[i].fee >= 0 by {
                assert(crate::transaction::spec_is_valid(block@.transactions[i]));
            }
            lemma_sum_nonneg(old(self).spec_balance_book());
        }
        let mut scratch = copy_balances(&self.state.balances);
        let fees = match apply_all(&mut scratch, &block.transactions) {
            Option::None => {
                return Err("Insufficient balance".to_owned());
            },
            Option::Some(f) => f,
        };
        let ghost book1 = spec_balances(scratch@);
        let mass1: i64 = self.state.total_mass - fees;
        proof {
            lemma_sum_nonneg(book1);
            assert(mass1 == spec_sum(book1));
            assert(mass1 >= 0);
        }
        let due = (now as i128) - (self.state.last_du_distribution as i128) >= (SECONDS_PER_DAY
            as i128);
        proof {
            assert(due == spec_du_due(old(self).spec_last_du(), now as int));
        }
        let mut mass2: i64 = mass1;
        let mut last2: i64 = self.state.last_du_distribution;
        let ghost du_total: int = 0;
        if due {
            last2 = now;
            let members1: u64 = scratch.len() as u64;
            let du = self.du_calculator.calculate_du(mass1, members1, now);
            if members1 > 0 && du > 0 {
                proof {
                    assert((du as int) * (members1 as int) <= (i64::MAX as int) * (u64::MAX
                        as int)) by (nonlinear_arith)
                        requires
                            0 <= du <= i64::MAX,
                            0 <= members1 <= u64::MAX;
                }
                let total_du: i128 = (du as i128) * (members1 as i128);
                if (mass1 as i128) + total_du > (i64::MAX as i128) {
                    proof {
                        assert((book1.len() as int) * (du as int) == (du as int) * (members1
                            as int)) by (nonlinear_arith)
                            requires
                                book1.len() == members1;
                        assert(!spec_du_stage_fits(
                            old(self).spec_du_config(),
                            book1,
                            mass1 as int,
                            old(self).spec_last_du(),
                            now as int,
                        ));
                    }
                    return Err("Ledger arithmetic overflow".to_owned());
                }
                proof {
                    assert((book1.len() as int) * (du as int) == (du as int) * (members1 as int))
                        by (nonlinear_arith)
                        requires
                            book1.len() == members1;
                    assert((du as int) <= (du as int) * (members1 as int)) by (nonlinear_arith)
                        requires
                            du >= 0,
                            members1 >= 1;
                }
                let mut k: usize = 0;
                while k < scratch.len()
                    invariant
                        k <= scratch@.len(),
                        scratch@.len() == book1.len(),
                        spec_balances_nonneg(book1),
                        spec_sum(book1) == mass1,
                        0 <= mass1,
                        0 <= du,
                        mass1 + book1.len() * du <= i64::MAX,
                        du <= book1.len() * du,
                        forall|j: int|
                            k <= j < book1.len() ==> (#[trigger] spec_balances(scratch@)[j])
                                == book1[j],
                        forall|j: int|
                            0 <= j < k ==> (#[trigger] spec_balances(scratch@)[j]) == (
                            book1[j].0,
                            (book1[j].1 + du) as i64,
                            ),
                    decreases scratch@.len() - k,
                {
                    let entry = scratch[k];
                    proof {
                        assert(spec_balances(scratch@)[k as int] == book1[k as int]);
                        lemma_element_le_sum(book1, k as int);
                        assert(entry.1 + du <= mass1 + book1.len() * du);
                    }
                    let ghost prior = scratch@;
                    scratch.set(k, (entry.0, entry.1 + du));
                    proof {
                        assert(scratch@ == prior.update(k as int, (entry.0, (entry.1 + du) as i64)));
                        assert forall|j: int|
                            0 <= j < book1.len() && j != k implies (#[trigger] spec_balances(
                            scratch@,
                        )[j]) == spec_balances(prior)[j] by {
                            assert(scratch@[j] == prior[j]);
                        }
                        assert(spec_balances(scratch@)[k as int] == (
                            book1[k as int].0,
                            (book1[k as int].1 + du) as i64,
                        ));
                    }
                    k += 1;
                }
                proof {
                    assert(spec_balances(scratch@) =~= spec_credit_all(book1, du));
                    assert forall|i: int| 0 <= i < book1.len() implies (#[trigger] book1[i]).1 + du
                        <= i64::MAX by {
                        lemma_element_le_sum(book1, i);
                    }
                    lemma_sum_credit_all(book1, du);
                }
                mass2 = ((mass1 as i128) + total_du) as i64;
                proof {
                    du_total = (book1.len() * du) as int;
                    assert(mass2 == mass1 + book1.len() * du);
                }
            }
        }
        // Commit.
        let members2: u64 = scratch.len() as u64;
        let ghost book2 = spec_balances(scratch@);
        let mut block = block;
        let hash = block.calculate_hash();
        let height = block.header.height;
        self.state.balances = scratch;
        self.state.member_count = members2;
        self.state.total_mass = mass2;
        self.state.last_du_distribution = last2;
        proof {
            self.fees_burned@ = old(self).spec_fees_burned() + fees as int;
            self.ud_credited@ = old(self).spec_ud_credited() + du_total;
        }
        self.blocks.push(block);
        proof {
            assert(self.spec_blocks() =~= old(self).spec_blocks().push(block@));
        }
        if self.checkpoint_config.is_checkpoint(height) {
            let state_hash = state_hash_of(&self.state.balances);
            let m = self.blocks.len();
            let cp = Checkpoint::from_block(
                &self.blocks[m - 1],
                state_hash,
                self.checkpoint_config.interval,
            );
            self.checkpoints.push(cp);
            proof {
                assert(self.spec_checkpoints() =~= old(self).spec_checkpoints().push(cp));
            }
        }
        proof {
            let c = *old(self);
            let staged = spec_du_stage(
                c.spec_du_config(),
                book1,
                mass1 as int,
                c.spec_last_du(),
                now as int,
            );
            assert(book2 == staged.0);
            assert(mass2 == staged.1);
            assert(last2 == staged.2);
            assert(self.spec_balance_book() == book2);
        }
        Ok(hash)
    }

    /// Accepts a block at the current time: the clock only decides the
    /// dividend stage, so a block that passes the acceptance rules and fits
    /// at every time is owed acceptance.
    pub fn add_block(&mut self, block: Block) -> (r: Result<crate::Hash, String>)
        requires
            old(self).wf(),
            block@.hash is Some,
        ensures
            final(self).wf(),
            r is Err ==> spec_same_ledger(*final(self), *old(self)),
            r is Ok ==> spec_add_block_ok(*old(self), block@),
            spec_add_block_ok(*old(self), block@) && (forall|t: i64|
                spec_add_block_fits(*old(self), block@, t)) ==> r is Ok,
            r matches Ok(h) ==> h@ == spec_block_hash(block@.header),
            r matches Ok(h) ==> exists|t: i64|
                spec_add_block_effects(*old(self), *final(self), block@, h@, t),
    {
        let ghost bv = block@;
        let now = now_ts();
        let r = self.add_block_at(block, now);
        proof {
            if spec_add_block_ok(*old(self), bv) && (forall|t: i64|
                spec_add_block_fits(*old(self), bv, t)) {
                assert(spec_add_block_fits(*old(self), bv, now));
            }
            match r {
                Ok(h) => {
                    assert(spec_add_block_effects(*old(self), *self, bv, h@, now));
                },
                Err(_) => {
                },
            }
        }
        r
    }
}

/// Every block the ledger accepted carries the Merkle root computed from
/// its own transactions.
pub proof fn lemma_accepted_merkle_roots(c: Blockchain)
    requires
        c.wf(),
    ensures
        forall|i: int|
            0 <= i < c.spec_blocks().len() ==> (#[trigger] c.spec_blocks()[i]).header.merkle_root
                == spec_txs_merkle_root(c.spec_blocks()[i].transactions),
{
}

/// The accepted chain is contiguous: heights count up from zero, the first
/// block links to all zeroes, and every later block links to the hash of
/// its predecessor.
pub proof fn lemma_chain_contiguous(c: Blockchain)
    requires
        c.wf(),
    ensures
        forall|i: int|
            0 <= i < c.spec_blocks().len() ==> (#[trigger] c.spec_blocks()[i]).header.height == i,
        c.spec_blocks().len() > 0 ==> c.spec_blocks()[0].header.previous_hash == spec_zero_hash(),
        forall|i: int|
            1 <= i < c.spec_blocks().len() ==> (#[trigger] c.spec_blocks()[i]).header.previous_hash
                == spec_block_hash(c.spec_blocks()[i - 1].header),
{
}

/// Mass conservation: the money in all accounts plus everything burned as
/// fees equals everything the Universal Dividend ever created, and the
/// recorded total mass is exactly the sum of all balances.
pub proof fn lemma_mass_conservation(c: Blockchain)
    requires
        c.wf(),
    ensures
        spec_sum(c.spec_balance_book()) + c.spec_fees_burned() == c.spec_ud_credited(),
        c.spec_total_mass() == spec_sum(c.spec_balance_book()),
{
}

} // verus!
