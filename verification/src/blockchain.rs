//! The append-only, hash-linked chain of blocks and its integrity rules.
//!
//! Every mutation goes through [`Blockchain::add_block`], which checks the
//! link to the current tip, the block's content hash, and hash uniqueness
//! before anything is inserted; a rejected block leaves the ledger untouched.

use std::collections::HashMap;
use vstd::prelude::*;

verus! {

broadcast use vstd::std_specs::hash::group_hash_axioms;

/// `prev_hash` of the first block: the genesis sentinel (the all-zero hash).
pub const GENESIS_PREV_HASH: u64 = 0;

/// Multiplier of the word-mixing step of the content hash (the 64-bit FNV prime).
pub const HASH_PRIME: u64 = 0x100000001b3;

/// Initial state of the content hash (the 64-bit FNV offset basis).
pub const HASH_SEED: u64 = 0xcbf29ce484222325;

/// One mixing step of the content hash: fold one 64-bit word into the state.
pub open spec fn hash_mix(h: u64, w: u64) -> u64 {
    vstd::wrapping::u64_specs::wrapping_mul(h ^ w, HASH_PRIME)
}

/// Fold a byte sequence into the hash state, left to right.
pub open spec fn hash_bytes(h: u64, s: Seq<u8>) -> u64
    decreases s.len(),
{
    if s.len() == 0 {
        h
    } else {
        hash_mix(hash_bytes(h, s.drop_last()), s.last() as u64)
    }
}

/// The deterministic content hash over a block's `number`, `timestamp`,
/// `prev_hash` and `payload`.
pub open spec fn spec_content_hash(
    number: u64,
    timestamp: u64,
    prev_hash: u64,
    payload: Seq<u8>,
) -> u64 {
    hash_bytes(hash_mix(hash_mix(hash_mix(HASH_SEED, number), timestamp), prev_hash), payload)
}

/// A block of the chain, immutable once constructed.
#[derive(Clone, Debug)]
pub struct Block {
    /// Position in the chain; strictly increasing from 0 (genesis).
    pub number: u64,
    /// Wall-clock value captured when the block was built.
    pub timestamp: u64,
    /// Hash of the preceding block, or the genesis sentinel for block 0.
    pub prev_hash: u64,
    /// Serialized batch of the transactions committed by this block.
    pub payload: Vec<u8>,
    /// Content hash over `(number, timestamp, prev_hash, payload)`.
    pub hash: u64,
}

/// The stored hash of `b` matches the hash recomputed from its fields.
pub open spec fn block_hash_ok(b: Block) -> bool {
    b.hash == spec_content_hash(b.number, b.timestamp, b.prev_hash, b.payload@)
}

/// What the next block's `prev_hash` must be: the tip's hash, or the genesis
/// sentinel for an empty chain.
pub open spec fn expected_prev_hash(s: Seq<Block>) -> u64 {
    if s.len() == 0 {
        GENESIS_PREV_HASH
    } else {
        s.last().hash
    }
}

/// Candidate `b` links correctly onto the chain `s`: its `prev_hash` names the
/// current tip and its `number` is the next position.
pub open spec fn link_ok(s: Seq<Block>, b: Block) -> bool {
    &&& b.prev_hash == expected_prev_hash(s)
    &&& b.number == s.len()
}

/// Some block of `s` already carries the hash `h`.
pub open spec fn hash_present(s: Seq<Block>, h: u64) -> bool {
    exists|i: int| 0 <= i < s.len() && s[i].hash == h
}

/// The chain-integrity invariants over the whole sequence: the genesis
/// sentinel, every link, every block number, and every content hash.
pub open spec fn chain_valid(s: Seq<Block>) -> bool {
    &&& s.len() > 0 ==> s[0].prev_hash == GENESIS_PREV_HASH
    &&& forall|i: int| #![trigger s[i]] 0 < i < s.len() ==> s[i].prev_hash == s[i - 1].hash
    &&& forall|i: int| #![trigger s[i]] 0 <= i < s.len() ==> s[i].number == i
    &&& forall|i: int| #![trigger s[i]] 0 <= i < s.len() ==> block_hash_ok(s[i])
}

/// Why an `add_block` call was rejected.
#[derive(Clone, Copy, Debug, PartialEq, Eq, Structural)]
pub enum ChainError {
    /// The candidate's `prev_hash` or `number` does not continue the current
    /// tip; recoverable by retrying against the refreshed tip.
    BrokenLink,
    /// The stored hash does not match the recomputed content hash; the block
    /// is corrupt or was built wrongly.
    HashMismatch,
    /// The candidate's hash is already present in the chain.
    DuplicateHash,
}

/// The exact outcome of appending candidate `b` to the chain `s`: the link to
/// the tip is checked first, then the content hash, then hash uniqueness.
pub open spec fn append_check(s: Seq<Block>, b: Block) -> Result<(), ChainError> {
    if !link_ok(s, b) {
        Err(ChainError::BrokenLink)
    } else if !block_hash_ok(b) {
        Err(ChainError::HashMismatch)
    } else if hash_present(s, b.hash) {
        Err(ChainError::DuplicateHash)
    } else {
        Ok(())
    }
}

/// One word-mixing step of the content hash.
fn mix_word(h: u64, w: u64) -> (r: u64)
    ensures
        r == hash_mix(h, w),
{
    (h ^ w).wrapping_mul(HASH_PRIME)
}

/// Compute the content hash of a block's fields.
pub fn content_hash(number: u64, timestamp: u64, prev_hash: u64, payload: &[u8]) -> (h: u64)
    ensures
        h == spec_content_hash(number, timestamp, prev_hash, payload@),
{
    let mut h = mix_word(mix_word(mix_word(HASH_SEED, number), timestamp), prev_hash);
    let ghost h0 = h;
    let mut i: usize = 0;
    while i < payload.len()
        invariant
            i <= payload.len(),
            h == hash_bytes(h0, payload@.take(i as int)),
        decreases payload.len() - i,
    {
        h = mix_word(h, payload[i] as u64);
        proof {
            assert(payload@.take(i + 1).drop_last() =~= payload@.take(i as int));
            assert(payload@.take(i + 1).last() == payload@[i as int]);
        }
        i = i + 1;
    }
    proof {
        assert(payload@.take(payload@.len() as int) =~= payload@);
    }
    h
}

/// The index is bijective with the block sequence: it holds exactly one entry
/// per block, mapping the block's hash to its position.
pub open spec fn index_ok(s: Seq<Block>, m: Map<u64, usize>) -> bool {
    &&& forall|i: int| #![trigger s[i]]
        0 <= i < s.len() ==> m.contains_key(s[i].hash) && m[s[i].hash] == i as usize
    &&& forall|h: u64| #![trigger m[h]]
        m.contains_key(h) ==> m[h] < s.len() && s[m[h] as int].hash == h
}

/// A bijective index forces the blocks' hashes to be pairwise distinct.
proof fn lemma_index_ok_distinct(s: Seq<Block>, m: Map<u64, usize>)
    requires
        index_ok(s, m),
        s.len() <= usize::MAX,
    ensures
        forall|i: int, j: int| #![trigger s[i], s[j]]
            0 <= i < j < s.len() ==> s[i].hash != s[j].hash,
{
    assert forall|i: int, j: int| #![trigger s[i], s[j]]
        0 <= i < j < s.len() implies s[i].hash != s[j].hash by {
        if s[i].hash == s[j].hash {
            assert(m[s[i].hash] == i as usize);
            assert(m[s[j].hash] == j as usize);
        }
    }
}

/// Appending a fresh block and recording its position keeps the index
/// bijective with the sequence.
proof fn lemma_index_ok_insert(s: Seq<Block>, m: Map<u64, usize>, b: Block, pos: usize)
    requires
        index_ok(s, m),
        pos == s.len(),
        !hash_present(s, b.hash),
    ensures
        index_ok(s.push(b), m.insert(b.hash, pos)),
{
    let s2 = s.push(b);
    let m2 = m.insert(b.hash, pos);
    assert forall|i: int|
        0 <= i < s2.len() implies m2.contains_key(s2[i].hash) && m2[s2[i].hash]
        == i as usize by {
        if i < s.len() {
            assert(s2[i] == s[i]);
            assert(s[i].hash != b.hash) by {
                if s[i].hash == b.hash {
                    assert(hash_present(s, b.hash));
                }
            }
        } else {
            assert(s2[i] == b);
        }
    }
    assert forall|h2: u64|
        m2.contains_key(h2) implies m2[h2] < s2.len() && s2[m2[h2] as int].hash == h2 by {
        if h2 != b.hash {
            assert(m.contains_key(h2));
            let idx = m[h2] as int;
            assert(s2[idx] == s[idx]);
        }
    }
}

/// The ledger: the ordered block sequence and the hash-to-position index,
/// kept bijective with each other on every mutation.
pub struct Blockchain {
    blocks: Vec<Block>,
    index: HashMap<u64, usize>,
}

impl View for Blockchain {
    type V = Seq<Block>;

    closed spec fn view(&self) -> Seq<Block> {
        self.blocks@
    }
}

impl Blockchain {
    /// Well-formedness: the chain invariants hold and the index maps exactly
    /// each block's hash to its position.
    pub closed spec fn wf(&self) -> bool {
        &&& chain_valid(self.blocks@)
        &&& index_ok(self.blocks@, self.index@)
    }

    /// A well-formed ledger satisfies every chain-integrity invariant.
    pub proof fn lemma_wf_chain_valid(&self)
        requires
            self.wf(),
        ensures
            chain_valid(self@),
    {
    }

    /// No two blocks of a well-formed ledger share a hash, so a hash names at
    /// most one block.
    pub proof fn lemma_wf_hashes_distinct(&self)
        requires
            self.wf(),
        ensures
            forall|i: int, j: int| #![trigger self@[i], self@[j]]
                0 <= i < j < self@.len() ==> self@[i].hash != self@[j].hash,
    {
        assert(self.blocks.len() == self.blocks@.len());
        lemma_index_ok_distinct(self.blocks@, self.index@);
    }

    /// Create an empty ledger.
    pub fn new() -> (r: Blockchain)
        ensures
            r.wf(),
            r@ =~= Seq::<Block>::empty(),
    {
        Blockchain { blocks: Vec::new(), index: HashMap::new() }
    }

    /// Append a candidate block. The link to the current tip, the content
    /// hash and hash uniqueness are checked before anything is inserted; a
    /// rejected block leaves the ledger exactly as it was.
    pub fn add_block(&mut self, block: Block) -> (r: Result<(), ChainError>)
        requires
            old(self).wf(),
        ensures
            final(self).wf(),
            r == append_check(old(self)@, block),
            r is Ok ==> final(self)@ =~= old(self)@.push(block),
            r is Err ==> *final(self) == *old(self),
    {
        let len = self.blocks.len();
        let link_good = if len == 0 {
            block.prev_hash == GENESIS_PREV_HASH && block.number == 0
        } else {
            block.prev_hash == self.blocks[len - 1].hash && block.number == len as u64
        };
        if !link_good {
            return Err(ChainError::BrokenLink);
        }
        let recomputed = content_hash(
            block.number,
            block.timestamp,
            block.prev_hash,
            block.payload.as_slice(),
        );
        if recomputed != block.hash {
            return Err(ChainError::HashMismatch);
        }
        if self.index.contains_key(&block.hash) {
            proof {
                let idx = old(self).index@[block.hash] as int;
                assert(old(self)@[idx].hash == block.hash);
                assert(hash_present(old(self)@, block.hash));
            }
            return Err(ChainError::DuplicateHash);
        }
        proof {
            assert(!hash_present(old(self)@, block.hash)) by {
                if hash_present(old(self)@, block.hash) {
                    let i = choose|i: int|
                        0 <= i < old(self)@.len() && old(self)@[i].hash == block.hash;
                    assert(old(self).index@.contains_key(old(self)@[i].hash));
                }
            }
        }
        let pos = self.blocks.len();
        let h = block.hash;
        self.blocks.push(block);
        self.index.insert(h, pos);
        proof {
            let s_old = old(self)@;
            assert(append_check(s_old, block) == Ok::<(), ChainError>(()));
            lemma_append_preserves_valid(s_old, block);
            lemma_index_ok_insert(s_old, old(self).index@, block, pos);
            assert(self.blocks@ == s_old.push(block));
            assert(self.index@ == old(self).index@.insert(h, pos));
        }
        Ok(())
    }

    /// Full integrity audit: a linear scan recomputing the genesis sentinel,
    /// every link, every block number, and every content hash. A well-formed
    /// ledger always passes; intended for periodic audits, not the per-append
    /// hot path, which performs only the O(1) tip checks.
    pub fn validate(&self) -> (r: bool)
        ensures
            r == chain_valid(self@),
            self.wf() ==> r,
    {
        let n = self.blocks.len();
        let mut i: usize = 0;
        while i < n
            invariant
                i <= n,
                n == self@.len(),
                i > 0 ==> self@[0].prev_hash == GENESIS_PREV_HASH,
                forall|j: int| #![trigger self@[j]]
                    0 < j < i ==> self@[j].prev_hash == self@[j - 1].hash,
                forall|j: int| #![trigger self@[j]] 0 <= j < i ==> self@[j].number == j,
                forall|j: int| #![trigger self@[j]] 0 <= j < i ==> block_hash_ok(self@[j]),
            decreases n - i,
        {
            let expected_prev = if i == 0 {
                GENESIS_PREV_HASH
            } else {
                self.blocks[i - 1].hash
            };
            if self.blocks[i].prev_hash != expected_prev {
                return false;
            }
            if self.blocks[i].number != i as u64 {
                return false;
            }
            let recomputed = content_hash(
                self.blocks[i].number,
                self.blocks[i].timestamp,
                self.blocks[i].prev_hash,
                self.blocks[i].payload.as_slice(),
            );
            if recomputed != self.blocks[i].hash {
                return false;
            }
            i = i + 1;
        }
        true
    }

    /// Number of blocks in the chain.
    pub fn len(&self) -> (n: usize)
        ensures
            n == self@.len(),
    {
        self.blocks.len()
    }

    /// The chain tip, or nothing for an empty ledger.
    pub fn latest_block(&self) -> (r: Option<&Block>)
        ensures
            match r {
                Some(b) => self@.len() > 0 && *b == self@.last(),
                None => self@.len() == 0,
            },
    {
        let n = self.blocks.len();
        if n == 0 {
            None
        } else {
            Some(&self.blocks[n - 1])
        }
    }

    /// Look a block up by its hash, in O(1) through the index: the block
    /// carrying that hash if one was ever appended, nothing otherwise.
    pub fn get_block_by_hash(&self, hash: u64) -> (r: Option<&Block>)
        requires
            self.wf(),
        ensures
            match r {
                Some(b) => b.hash == hash && exists|i: int|
                    0 <= i < self@.len() && self@[i] == *b,
                None => !hash_present(self@, hash),
            },
    {
        match self.index.get(&hash) {
            Some(pos) => Some(&self.blocks[*pos]),
            None => None,
        }
    }
}

/// A candidate whose `prev_hash` does not name the current tip is always
/// rejected as a broken link, whatever its other fields hold.
pub proof fn lemma_stale_prev_rejected(s: Seq<Block>, b: Block)
    requires
        b.prev_hash != expected_prev_hash(s),
    ensures
        append_check(s, b) == Err::<(), ChainError>(ChainError::BrokenLink),
{
}

/// A candidate whose stored hash does not match its recomputed content hash
/// is always rejected as a hash mismatch, even when it links correctly.
pub proof fn lemma_hash_mismatch_rejected(s: Seq<Block>, b: Block)
    requires
        link_ok(s, b),
        !block_hash_ok(b),
    ensures
        append_check(s, b) == Err::<(), ChainError>(ChainError::HashMismatch),
{
}

/// Appending a block that passes every check keeps the whole chain valid:
/// together with `Blockchain::new`, every chain built from accepted appends
/// satisfies the integrity invariants.
pub proof fn lemma_append_preserves_valid(s: Seq<Block>, b: Block)
    requires
        chain_valid(s),
        append_check(s, b) == Ok::<(), ChainError>(()),
    ensures
        chain_valid(s.push(b)),
{
    let s2 = s.push(b);
    assert forall|i: int| 0 < i < s2.len() implies s2[i].prev_hash == s2[i - 1].hash by {
        if i < s.len() {
            assert(s2[i] == s[i]);
        } else {
            assert(s2[i] == b);
        }
    }
}

/// Two producers racing on the same tip cannot both win: once one candidate
/// has been accepted, any other candidate built against the old tip is
/// rejected as a broken link, so the chain grows by exactly one block.
pub proof fn lemma_race_single_winner(s: Seq<Block>, winner: Block, loser: Block)
    requires
        append_check(s, winner) == Ok::<(), ChainError>(()),
        link_ok(s, loser),
    ensures
        append_check(s.push(winner), loser) == Err::<(), ChainError>(ChainError::BrokenLink),
{
    let s2 = s.push(winner);
    if s.len() == 0 {
        assert(loser.number == 0int);
        assert(s2.len() == 1);
    } else {
        assert(!hash_present(s, winner.hash));
        assert(s[s.len() - 1].hash == s.last().hash);
        assert(s.last().hash != winner.hash);
        assert(s2.last() == winner);
    }
    assert(!link_ok(s2, loser));
}

} // verus!
