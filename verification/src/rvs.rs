//! Random Validator Selection: the validator registry, deterministic
//! per-round selection, reputation updates, and the quorum rule.
//!
//! Selection scores every registered validator by hashing the previous block
//! hash with its key, weights the score by reputation, and orders by score
//! descending with ties broken by key ascending, so that every observer of
//! the same registry and seed computes the same selection.
use vstd::prelude::*;

use crate::bytesutil::{append_bytes, bytes32_eq, key_lt, lex_lt};
use crate::clock::now_ts;
use crate::crypto::{blake3_of, hash_data};
use crate::merkle::spec_hashes;
use crate::vrf::{spec_vrf_number, VRF};
use crate::{PublicKey, Timestamp};

verus! {

/// Fixed-point scale of reputation: this many thousandths make 1.0.
pub const REPUTATION_SCALE: u64 = 1000;

/// Least reputation, one tenth.
pub const MIN_REPUTATION: u64 = 100;

/// Greatest reputation, two.
pub const MAX_REPUTATION: u64 = 2000;

/// Configuration of the consensus round.
#[derive(Clone, Copy, Debug)]
pub struct RVSConfig {
    /// Seconds between blocks.
    pub block_interval: u64,
    /// How many validators are selected per block.
    pub validator_count: usize,
    /// Required quorum in percent.
    pub quorum_percentage: u8,
}

impl Default for RVSConfig {
    /// The default round: a block every five seconds, ten validators, a
    /// sixty-seven percent quorum.
    fn default() -> (r: Self)
        ensures
            r.block_interval == 5,
            r.validator_count == 10,
            r.quorum_percentage == 67,
    {
        RVSConfig { block_interval: 5, validator_count: 10, quorum_percentage: 67 }
    }
}

/// A registered validator: its key, wallet, reputation in thousandths, and
/// last activity.
#[derive(Clone, Copy, Debug)]
pub struct ValidatorInfo {
    /// Public key of the validator.
    pub public_key: PublicKey,
    /// Wallet address of the validator.
    pub wallet_address: PublicKey,
    /// Reputation in thousandths, always between `MIN_REPUTATION` and
    /// `MAX_REPUTATION`.
    pub reputation: u64,
    /// Timestamp of the last activity.
    pub last_active: Timestamp,
}

/// The mathematical content of a registered validator.
pub struct InfoView {
    pub public_key: Seq<u8>,
    pub wallet_address: Seq<u8>,
    pub reputation: u64,
    pub last_active: i64,
}

impl View for ValidatorInfo {
    type V = InfoView;

    open spec fn view(&self) -> InfoView {
        InfoView {
            public_key: self.public_key@,
            wallet_address: self.wallet_address@,
            reputation: self.reputation,
            last_active: self.last_active,
        }
    }
}

/// The views of a sequence of registered validators.
pub open spec fn spec_infos(s: Seq<ValidatorInfo>) -> Seq<InfoView> {
    Seq::new(s.len(), |i: int| s[i]@)
}

/// The registry is well formed: keys are pairwise distinct and reputations
/// stay in their range.
pub open spec fn spec_registry_wf(s: Seq<InfoView>) -> bool {
    &&& (forall|i: int, j: int|
        0 <= i < j < s.len() ==> (#[trigger] s[i]).public_key != (#[trigger] s[j]).public_key)
    &&& (forall|i: int|
        0 <= i < s.len() ==> MIN_REPUTATION <= (#[trigger] s[i]).reputation <= MAX_REPUTATION)
}

/// Whether some entry of the registry holds the given key.
pub open spec fn spec_has_key(s: Seq<InfoView>, key: Seq<u8>) -> bool {
    exists|j: int| 0 <= j < s.len() && (#[trigger] s[j]).public_key == key
}

/// What registering a validator at a time does to the registry: an entry
/// with reputation 1.0 and the given activity time replaces the one under
/// the same key, or is appended for a new key.
pub open spec fn spec_register_outcome(
    vs: Seq<InfoView>,
    vs2: Seq<InfoView>,
    public_key: Seq<u8>,
    wallet_address: Seq<u8>,
    now: i64,
) -> bool {
    let info = InfoView {
        public_key: public_key,
        wallet_address: wallet_address,
        reputation: REPUTATION_SCALE,
        last_active: now,
    };
    if spec_has_key(vs, public_key) {
        exists|j: int|
            0 <= j < vs.len() && (#[trigger] vs[j]).public_key == public_key && vs2 == vs.update(
                j,
                info,
            )
    } else {
        vs2 == vs.push(info)
    }
}

/// What one reputation update at a time does to the registry: the entry
/// under the key has its reputation stepped and its activity refreshed;
/// an unknown key changes nothing.
pub open spec fn spec_reputation_outcome(
    vs: Seq<InfoView>,
    vs2: Seq<InfoView>,
    public_key: Seq<u8>,
    success: bool,
    now: i64,
) -> bool {
    if spec_has_key(vs, public_key) {
        exists|j: int|
            0 <= j < vs.len() && (#[trigger] vs[j]).public_key == public_key && vs2 == vs.update(
                j,
                InfoView {
                    reputation: spec_updated_reputation(vs[j].reputation, success),
                    last_active: now,
                    ..vs[j]
                },
            )
    } else {
        vs2 == vs
    }
}

/// A validator's selection score: the first eight bytes of the digest of
/// seed and key, weighted by reputation, saturating at the largest 64-bit
/// value.
pub open spec fn spec_adjusted_score(seed: Seq<u8>, info: InfoView) -> u64 {
    let raw = spec_vrf_number(blake3_of(seed + info.public_key));
    let scaled = (raw as int) * (info.reputation as int) / (REPUTATION_SCALE as int);
    if scaled > u64::MAX as int {
        u64::MAX
    } else {
        scaled as u64
    }
}

/// A scored candidate.
pub struct CandView {
    pub key: Seq<u8>,
    pub score: u64,
}

/// The scored candidates of a registry under a seed, in registry order.
pub open spec fn spec_candidates(vals: Seq<InfoView>, seed: Seq<u8>) -> Seq<CandView> {
    Seq::new(
        vals.len(),
        |i: int| CandView { key: vals[i].public_key, score: spec_adjusted_score(seed, vals[i]) },
    )
}

/// The selection order: higher score first, ties broken by the smaller key.
pub open spec fn spec_cand_before(a: CandView, b: CandView) -> bool {
    a.score > b.score || (a.score == b.score && lex_lt(a.key, b.key))
}

/// Insertion into a list sorted by the selection order.
pub open spec fn spec_insert_cand(s: Seq<CandView>, x: CandView) -> Seq<CandView>
    decreases s.len(),
{
    if s.len() == 0 {
        seq![x]
    } else if spec_cand_before(x, s[0]) {
        seq![x] + s
    } else {
        seq![s[0]] + spec_insert_cand(s.skip(1), x)
    }
}

/// Insertion sort by the selection order.
pub open spec fn spec_sort_cands(s: Seq<CandView>) -> Seq<CandView>
    decreases s.len(),
{
    if s.len() == 0 {
        Seq::empty()
    } else {
        spec_insert_cand(spec_sort_cands(s.drop_last()), s.last())
    }
}

/// The keys selected from a registry under a seed: the candidates in
/// selection order, cut to the configured count.
pub open spec fn spec_selection(vals: Seq<InfoView>, seed: Seq<u8>, count: int) -> Seq<Seq<u8>> {
    let sorted = spec_sort_cands(spec_candidates(vals, seed));
    let k = if count < sorted.len() {
        count
    } else {
        sorted.len() as int
    };
    Seq::new(k as nat, |i: int| sorted[i].key)
}

/// The selection is a pure function of the registry snapshot and the seed:
/// equal registries and seeds give equal selections, whoever computes them.
pub proof fn lemma_selection_reproducible(
    vals1: Seq<InfoView>,
    vals2: Seq<InfoView>,
    seed1: Seq<u8>,
    seed2: Seq<u8>,
    count: int,
)
    requires
        vals1 == vals2,
        seed1 == seed2,
    ensures
        spec_selection(vals1, seed1, count) == spec_selection(vals2, seed2, count),
{
}

/// Inserting an element whose place is `p` splits the sorted list there.
proof fn lemma_insert_cand_at(s: Seq<CandView>, x: CandView, p: int)
    requires
        0 <= p <= s.len(),
        forall|j: int| 0 <= j < p ==> !spec_cand_before(x, #[trigger] s[j]),
        p < s.len() ==> spec_cand_before(x, s[p]),
    ensures
        spec_insert_cand(s, x) == s.take(p) + seq![x] + s.skip(p),
    decreases s.len(),
{
    if s.len() == 0 {
        assert(spec_insert_cand(s, x) =~= s.take(p) + seq![x] + s.skip(p));
    } else if p == 0 {
        if spec_cand_before(x, s[0]) {
            assert(spec_insert_cand(s, x) =~= s.take(0) + seq![x] + s.skip(0));
        } else {
            // p == 0 and x not before s[0] forces p == s.len(), impossible here.
            assert(spec_cand_before(x, s[p]));
            assert(false);
        }
    } else {
        assert(!spec_cand_before(x, s[0]));
        lemma_insert_cand_at(s.skip(1), x, p - 1);
        assert(forall|j: int| 0 <= j < p - 1 ==> s.skip(1)[j] == s[j + 1]);
        assert(seq![s[0]] + (s.skip(1).take(p - 1) + seq![x] + s.skip(1).skip(p - 1)) =~= s.take(p)
            + seq![x] + s.skip(p));
    }
}

/// The result of one selection round.
#[derive(Clone, Debug)]
pub struct ValidatorSelection {
    /// The selected validator keys, best first.
    pub selected_validators: Vec<PublicKey>,
    /// The seed the selection was computed from.
    pub previous_block_hash: crate::Hash,
    /// When the selection was made.
    pub timestamp: Timestamp,
}

/// A scored candidate during selection.
#[derive(Clone, Copy)]
struct Candidate {
    key: PublicKey,
    score: u64,
}

impl View for Candidate {
    type V = CandView;

    closed spec fn view(&self) -> CandView {
        CandView { key: self.key@, score: self.score }
    }
}

/// The views of a sequence of candidates.
spec fn spec_cands(s: Seq<Candidate>) -> Seq<CandView> {
    Seq::new(s.len(), |i: int| s[i]@)
}

/// Whether `a` comes before `b` in the selection order.
fn cand_before(a: &Candidate, b: &Candidate) -> (r: bool)
    ensures
        r == spec_cand_before(a@, b@),
{
    if a.score > b.score {
        true
    } else if a.score == b.score {
        key_lt(&a.key, &b.key)
    } else {
        false
    }
}

/// Sorts candidates by the selection order.
fn sort_candidates(cands: &Vec<Candidate>) -> (r: Vec<Candidate>)
    ensures
        spec_cands(r@) == spec_sort_cands(spec_cands(cands@)),
{
    let mut sorted: Vec<Candidate> = Vec::new();
    let mut i: usize = 0;
    proof {
        assert(spec_cands(sorted@) =~= spec_sort_cands(spec_cands(cands@).take(0)));
    }
    while i < cands.len()
        invariant
            i <= cands@.len(),
            spec_cands(sorted@) == spec_sort_cands(spec_cands(cands@).take(i as int)),
        decreases cands@.len() - i,
    {
        let c = cands[i];
        let mut pos: usize = 0;
        loop
            invariant
                pos <= sorted@.len(),
                forall|j: int| 0 <= j < pos ==> !spec_cand_before(c@, spec_cands(sorted@)[j]),
            ensures
                pos <= sorted@.len(),
                forall|j: int| 0 <= j < pos ==> !spec_cand_before(c@, spec_cands(sorted@)[j]),
                pos < sorted@.len() ==> spec_cand_before(c@, spec_cands(sorted@)[pos as int]),
            decreases sorted@.len() - pos,
        {
            if pos >= sorted.len() {
                break ;
            }
            if cand_before(&c, &sorted[pos]) {
                break ;
            }
            pos += 1;
        }
        let ghost before = spec_cands(sorted@);
        proof {
            lemma_insert_cand_at(before, c@, pos as int);
        }
        sorted.insert(pos, c);
        proof {
            assert(spec_cands(sorted@) =~= before.take(pos as int) + seq![c@] + before.skip(
                pos as int,
            ));
        }
        i += 1;
        proof {
            let all = spec_cands(cands@);
            assert(all.take(i as int).drop_last() =~= all.take(i - 1));
            assert(all.take(i as int).last() == all[i - 1]);
            assert(all[i - 1] == c@);
            assert(spec_sort_cands(all.take(i as int)) == spec_insert_cand(
                spec_sort_cands(all.take(i - 1)),
                c@,
            ));
        }
    }
    proof {
        assert(spec_cands(cands@).take(cands@.len() as int) =~= spec_cands(cands@));
    }
    sorted
}

/// The consensus manager: configuration and the validator registry.
pub struct RVS {
    config: RVSConfig,
    validators: Vec<ValidatorInfo>,
}

impl RVS {
    /// The registered validators, in registration order.
    pub closed spec fn spec_validators(self) -> Seq<InfoView> {
        spec_infos(self.validators@)
    }

    /// The configuration.
    pub closed spec fn spec_config(self) -> RVSConfig {
        self.config
    }

    /// The registry is well formed: distinct keys, reputations in range.
    pub open spec fn wf(self) -> bool {
        spec_registry_wf(self.spec_validators())
    }

    /// Creates a manager with no registered validators.
    pub fn new(config: RVSConfig) -> (r: Self)
        ensures
            r.wf(),
            r.spec_config() == config,
            r.spec_validators() == Seq::<InfoView>::empty(),
    {
        let r = RVS { config, validators: Vec::new() };
        proof {
            assert(r.spec_validators() =~= Seq::<InfoView>::empty());
        }
        r
    }

    /// Registers a validator with reputation 1.0 and the given activity
    /// time; a validator already registered under the same key is replaced.
    pub fn register_validator_at(
        &mut self,
        public_key: PublicKey,
        wallet_address: PublicKey,
        now: Timestamp,
    )
        requires
            old(self).wf(),
        ensures
            final(self).wf(),
            final(self).spec_config() == old(self).spec_config(),
            spec_register_outcome(
                old(self).spec_validators(),
                final(self).spec_validators(),
                public_key@,
                wallet_address@,
                now,
            ),
    {
        let mut i: usize = 0;
        while i < self.validators.len()
            invariant
                old(self).wf(),
                i <= self.validators@.len(),
                *self == *old(self),
                forall|j: int|
                    0 <= j < i ==> (#[trigger] spec_infos(self.validators@)[j]).public_key
                        != public_key@,
            decreases self.validators@.len() - i,
        {
            if bytes32_eq(&self.validators[i].public_key, &public_key) {
                proof {
                    assert((spec_infos(self.validators@)[i as int]).public_key == public_key@);
                }
                let info = ValidatorInfo {
                    public_key,
                    wallet_address,
                    reputation: REPUTATION_SCALE,
                    last_active: now,
                };
                self.validators.set(i, info);
                proof {
                    let vs = old(self).spec_validators();
                    assert(vs[i as int].public_key == public_key@);
                    assert(self.spec_validators() =~= vs.update(i as int, info@));
                    assert forall|a: int, b: int|
                        0 <= a < b < self.spec_validators().len() implies (
                        self.spec_validators()[a]).public_key != (
                        self.spec_validators()[b]).public_key by {
                        assert(vs[a].public_key != vs[b].public_key);
                    }
                }
                return ;
            }
            i += 1;
        }
        let info = ValidatorInfo {
            public_key,
            wallet_address,
            reputation: REPUTATION_SCALE,
            last_active: now,
        };
        self.validators.push(info);
        proof {
            assert(self.spec_validators() =~= old(self).spec_validators().push(info@));
        }
    }

    /// Registers a validator with reputation 1.0, active now.
    pub fn register_validator(&mut self, public_key: PublicKey, wallet_address: PublicKey)
        requires
            old(self).wf(),
        ensures
            final(self).wf(),
            final(self).spec_config() == old(self).spec_config(),
            final(self).spec_validators().len() >= 1,
            spec_has_key(final(self).spec_validators(), public_key@),
            exists|t: i64|
                spec_register_outcome(
                    old(self).spec_validators(),
                    final(self).spec_validators(),
                    public_key@,
                    wallet_address@,
                    t,
                ),
    {
        let now = now_ts();
        self.register_validator_at(public_key, wallet_address, now);
        proof {
            assert(spec_register_outcome(
                old(self).spec_validators(),
                self.spec_validators(),
                public_key@,
                wallet_address@,
                now,
            ));
            let vs = old(self).spec_validators();
            let info = InfoView {
                public_key: public_key@,
                wallet_address: wallet_address@,
                reputation: REPUTATION_SCALE,
                last_active: now,
            };
            if spec_has_key(vs, public_key@) {
                let j = choose|j: int|
                    0 <= j < vs.len() && (#[trigger] vs[j]).public_key == public_key@
                        && self.spec_validators() == vs.update(j, info);
                assert((self.spec_validators()[j]).public_key == public_key@);
            } else {
                let n = vs.len() as int;
                assert((self.spec_validators()[n]).public_key == public_key@);
            }
        }
    }

    /// Removes the validator registered under the given key, if any.
    pub fn unregister_validator(&mut self, public_key: &PublicKey)
        requires
            old(self).wf(),
        ensures
            final(self).wf(),
            final(self).spec_config() == old(self).spec_config(),
            ({
                let vs = old(self).spec_validators();
                if spec_has_key(vs, public_key@) {
                    exists|j: int|
                        0 <= j < vs.len() && (#[trigger] vs[j]).public_key == public_key@
                            && final(self).spec_validators() == vs.remove(j)
                } else {
                    final(self).spec_validators() == vs
                }
            }),
    {
        let mut i: usize = 0;
        while i < self.validators.len()
            invariant
                old(self).wf(),
                i <= self.validators@.len(),
                *self == *old(self),
                forall|j: int|
                    0 <= j < i ==> (#[trigger] spec_infos(self.validators@)[j]).public_key
                        != public_key@,
            decreases self.validators@.len() - i,
        {
            if bytes32_eq(&self.validators[i].public_key, public_key) {
                proof {
                    assert((spec_infos(self.validators@)[i as int]).public_key == public_key@);
                }
                self.validators.remove(i);
                proof {
                    let vs = old(self).spec_validators();
                    assert(vs[i as int].public_key == public_key@);
                    assert(self.spec_validators() =~= vs.remove(i as int));
                    assert forall|a: int, b: int|
                        0 <= a < b < self.spec_validators().len() implies (
                        self.spec_validators()[a]).public_key != (
                        self.spec_validators()[b]).public_key by {
                        let a0 = if a < i as int { a } else { a + 1 };
                        let b0 = if b < i as int { b } else { b + 1 };
                        assert(vs[a0].public_key != vs[b0].public_key);
                    }
                }
                return ;
            }
            i += 1;
        }
    }

    /// Selects up to the configured number of validators for the round
    /// seeded by the previous block hash, deterministically, stamped with
    /// the given time.
    pub fn select_validators_at(&self, previous_block_hash: crate::Hash, timestamp: Timestamp) -> (r:
        ValidatorSelection)
        ensures
            spec_hashes(r.selected_validators@) == spec_selection(
                self.spec_validators(),
                previous_block_hash@,
                self.spec_config().validator_count as int,
            ),
            r.previous_block_hash@ == previous_block_hash@,
            r.timestamp == timestamp,
    {
        let mut cands: Vec<Candidate> = Vec::new();
        let ghost vals = self.spec_validators();
        let ghost seed = previous_block_hash@;
        let mut i: usize = 0;
        proof {
            assert(spec_cands(cands@) =~= spec_candidates(vals, seed).take(0));
        }
        while i < self.validators.len()
            invariant
                i <= self.validators@.len(),
                vals == spec_infos(self.validators@),
                seed == previous_block_hash@,
                spec_cands(cands@) == spec_candidates(vals, seed).take(i as int),
            decreases self.validators@.len() - i,
        {
            let info = &self.validators[i];
            let mut message: Vec<u8> = Vec::new();
            append_bytes(&mut message, previous_block_hash.as_slice());
            append_bytes(&mut message, info.public_key.as_slice());
            proof {
                assert(message@ =~= seed + info@.public_key);
            }
            let vrf_output = hash_data(message.as_slice());
            let raw = VRF::output_to_number(&vrf_output);
            proof {
                assert(info@ == vals[i as int]);
                assert((raw as int) * (info.reputation as int) <= (u64::MAX as int) * (u64::MAX
                    as int)) by (nonlinear_arith)
                    requires
                        raw <= u64::MAX,
                        info.reputation <= u64::MAX;
            }
            let scaled: u128 = (raw as u128) * (info.reputation as u128) / (REPUTATION_SCALE
                as u128);
            let score: u64 = if scaled > u64::MAX as u128 {
                u64::MAX
            } else {
                scaled as u64
            };
            proof {
                assert(score == spec_adjusted_score(seed, vals[i as int]));
            }
            let ghost prev = cands@;
            cands.push(Candidate { key: info.public_key, score });
            i += 1;
            proof {
                let cs = spec_candidates(vals, seed);
                assert(spec_cands(prev) == cs.take(i - 1));
                assert(prev.len() == spec_cands(prev).len());
                assert(prev.len() == i - 1);
                assert(cands@ == prev.push(Candidate { key: info.public_key, score }));
                assert forall|j: int| 0 <= j < i implies spec_cands(cands@)[j] == cs.take(
                    i as int,
                )[j] by {
                    if j < i - 1 {
                        assert(cands@[j] == prev[j]);
                        assert(spec_cands(prev)[j] == cs.take(i - 1)[j]);
                    } else {
                        assert(cands@[j]@ == (CandView { key: info@.public_key, score }));
                        assert(cs[j] == (CandView {
                            key: vals[j].public_key,
                            score: spec_adjusted_score(seed, vals[j]),
                        }));
                    }
                }
                assert(spec_cands(cands@) =~= cs.take(i as int));
            }
        }
        proof {
            assert(spec_candidates(vals, seed).take(vals.len() as int) =~= spec_candidates(
                vals,
                seed,
            ));
        }
        let sorted = sort_candidates(&cands);
        let count = if self.config.validator_count < sorted.len() {
            self.config.validator_count
        } else {
            sorted.len()
        };
        let mut selected: Vec<PublicKey> = Vec::new();
        let mut k: usize = 0;
        while k < count
            invariant
                k <= count,
                count <= sorted@.len(),
                spec_cands(sorted@) == spec_sort_cands(spec_candidates(vals, seed)),
                selected@.len() == k,
                forall|j: int| 0 <= j < k ==> selected@[j]@ == spec_cands(sorted@)[j].key,
            decreases count - k,
        {
            selected.push(sorted[k].key);
            k += 1;
        }
        proof {
            assert(spec_hashes(selected@) =~= spec_selection(
                vals,
                seed,
                self.config.validator_count as int,
            ));
        }
        ValidatorSelection { selected_validators: selected, previous_block_hash, timestamp }
    }

    /// Selects the validators for the round, stamped with the current time.
    pub fn select_validators(&self, previous_block_hash: crate::Hash) -> (r: ValidatorSelection)
        ensures
            spec_hashes(r.selected_validators@) == spec_selection(
                self.spec_validators(),
                previous_block_hash@,
                self.spec_config().validator_count as int,
            ),
            r.previous_block_hash@ == previous_block_hash@,
    {
        let timestamp = now_ts();
        self.select_validators_at(previous_block_hash, timestamp)
    }

    /// Whether a key is among the selected validators.
    pub fn is_validator_selected(&self, public_key: &PublicKey, selection: &ValidatorSelection)
        -> (r: bool)
        ensures
            r == exists|i: int|
                0 <= i < selection.selected_validators@.len() && (#[trigger] selection
                    .selected_validators@[i])@ == public_key@,
    {
        let mut i: usize = 0;
        while i < selection.selected_validators.len()
            invariant
                i <= selection.selected_validators@.len(),
                forall|j: int|
                    0 <= j < i ==> (#[trigger] selection.selected_validators@[j])@ != public_key@,
            decreases selection.selected_validators@.len() - i,
        {
            if bytes32_eq(&selection.selected_validators[i], public_key) {
                return true;
            }
            i += 1;
        }
        false
    }

    /// The quorum required of the current registry: the configured
    /// percentage of the registered validators, rounded up.
    pub fn required_quorum(&self) -> (r: usize)
        requires
            self.spec_validators().len() * self.spec_config().quorum_percentage as int + 99
                <= usize::MAX as int,
        ensures
            r == (self.spec_validators().len() * self.spec_config().quorum_percentage as int + 99)
                / 100,
    {
        let total = self.validators.len();
        (total * (self.config.quorum_percentage as usize) + 99) / 100
    }

    /// Updates a validator's reputation: multiplied by 1.01 and capped at
    /// 2.0 on success, multiplied by 0.95 and floored at 0.1 on failure; the
    /// activity time is refreshed. Unknown keys are ignored.
    pub fn update_reputation_at(&mut self, public_key: &PublicKey, success: bool, now: Timestamp)
        requires
            old(self).wf(),
        ensures
            final(self).wf(),
            final(self).spec_config() == old(self).spec_config(),
            spec_reputation_outcome(
                old(self).spec_validators(),
                final(self).spec_validators(),
                public_key@,
                success,
                now,
            ),
    {
        let mut i: usize = 0;
        while i < self.validators.len()
            invariant
                old(self).wf(),
                i <= self.validators@.len(),
                *self == *old(self),
                forall|j: int|
                    0 <= j < i ==> (#[trigger] spec_infos(self.validators@)[j]).public_key
                        != public_key@,
            decreases self.validators@.len() - i,
        {
            if bytes32_eq(&self.validators[i].public_key, public_key) {
                let info = self.validators[i];
                proof {
                    assert(spec_infos(self.validators@)[i as int] == info@);
                    assert(MIN_REPUTATION <= info.reputation <= MAX_REPUTATION);
                }
                let updated = if success {
                    let grown = info.reputation * 101 / 100;
                    if grown > MAX_REPUTATION {
                        MAX_REPUTATION
                    } else {
                        grown
                    }
                } else {
                    let shrunk = info.reputation * 95 / 100;
                    if shrunk < MIN_REPUTATION {
                        MIN_REPUTATION
                    } else {
                        shrunk
                    }
                };
                let new_info = ValidatorInfo {
                    reputation: updated,
                    last_active: now,
                    ..info
                };
                self.validators.set(i, new_info);
                proof {
                    lemma_reputation_in_range(info.reputation, success);
                    let vs = old(self).spec_validators();
                    assert(vs[i as int].public_key == public_key@);
                    assert(self.spec_validators() =~= vs.update(i as int, new_info@));
                    assert forall|a: int, b: int|
                        0 <= a < b < self.spec_validators().len() implies (
                        self.spec_validators()[a]).public_key != (
                        self.spec_validators()[b]).public_key by {
                        assert(vs[a].public_key != vs[b].public_key);
                    }
                    assert(new_info@ == (InfoView {
                        reputation: spec_updated_reputation(
                            old(self).spec_validators()[i as int].reputation,
                            success,
                        ),
                        last_active: now,
                        ..old(self).spec_validators()[i as int]
                    }));
                }
                return ;
            }
            i += 1;
        }
    }

    /// Updates a validator's reputation, refreshing its activity to now.
    pub fn update_reputation(&mut self, public_key: &PublicKey, success: bool)
        requires
            old(self).wf(),
        ensures
            final(self).wf(),
            final(self).spec_config() == old(self).spec_config(),
            exists|t: i64|
                spec_reputation_outcome(
                    old(self).spec_validators(),
                    final(self).spec_validators(),
                    public_key@,
                    success,
                    t,
                ),
    {
        let now = now_ts();
        self.update_reputation_at(public_key, success, now);
        proof {
            assert(spec_reputation_outcome(
                old(self).spec_validators(),
                self.spec_validators(),
                public_key@,
                success,
                now,
            ));
        }
    }

    /// How many validators are registered.
    pub fn active_validators_count(&self) -> (r: usize)
        ensures
            r == self.spec_validators().len(),
    {
        self.validators.len()
    }
}

/// The reputation after one update: multiplied by 1.01 and capped at 2.0 on
/// success, multiplied by 0.95 and floored at 0.1 on failure.
pub open spec fn spec_updated_reputation(reputation: u64, success: bool) -> u64 {
    if success {
        let grown = reputation * 101 / 100;
        if grown > MAX_REPUTATION {
            MAX_REPUTATION
        } else {
            grown as u64
        }
    } else {
        let shrunk = reputation * 95 / 100;
        if shrunk < MIN_REPUTATION {
            MIN_REPUTATION
        } else {
            shrunk as u64
        }
    }
}

/// An updated reputation stays within its range.
pub proof fn lemma_reputation_in_range(reputation: u64, success: bool)
    requires
        MIN_REPUTATION <= reputation <= MAX_REPUTATION,
    ensures
        MIN_REPUTATION <= spec_updated_reputation(reputation, success) <= MAX_REPUTATION,
{
}

} // verus!
