//! The block producer: drains queued transactions, serializes them into a
//! payload, builds a candidate block against the current chain tip, and
//! commits it to the ledger. A losing cycle puts its batch back at the front
//! of the queue; no transaction is ever dropped.

use vstd::prelude::*;

use crate::blockchain::Block;
use crate::blockchain::Blockchain;
use crate::blockchain::ChainError;
use crate::blockchain::GENESIS_PREV_HASH;
use crate::blockchain::block_hash_ok;
use crate::blockchain::content_hash;
use crate::blockchain::expected_prev_hash;
use crate::blockchain::hash_present;
use crate::blockchain::link_ok;
use crate::blockchain::spec_content_hash;
use crate::txhandler::Transaction;
use crate::txhandler::TransactionHandler;

verus! {

/// The eight bytes of `x`, least significant first.
pub open spec fn le_bytes(x: u64) -> Seq<u8> {
    seq![
        x as u8,
        (x >> 8) as u8,
        (x >> 16) as u8,
        (x >> 24) as u8,
        (x >> 32) as u8,
        (x >> 40) as u8,
        (x >> 48) as u8,
        (x >> 56) as u8,
    ]
}

/// A transaction's wire form in a block payload: sender, amount (two's
/// complement) and nonce, each as eight little-endian bytes.
pub open spec fn encode_tx(t: Transaction) -> Seq<u8> {
    le_bytes(t.sender) + le_bytes(t.amount as u64) + le_bytes(t.nonce)
}

/// A batch's wire form: the transactions' encodings, in batch order.
pub open spec fn encode_batch(batch: Seq<Transaction>) -> Seq<u8>
    decreases batch.len(),
{
    if batch.len() == 0 {
        Seq::empty()
    } else {
        encode_batch(batch.drop_last()) + encode_tx(batch.last())
    }
}

/// Append the eight little-endian bytes of `x`.
fn push_le_bytes(out: &mut Vec<u8>, x: u64)
    ensures
        final(out)@ == old(out)@ + le_bytes(x),
{
    out.push(x as u8);
    out.push((x >> 8) as u8);
    out.push((x >> 16) as u8);
    out.push((x >> 24) as u8);
    out.push((x >> 32) as u8);
    out.push((x >> 40) as u8);
    out.push((x >> 48) as u8);
    out.push((x >> 56) as u8);
    proof {
        assert(out@ =~= old(out)@ + le_bytes(x));
    }
}

/// Serialize a drained batch into a block payload.
pub fn serialize_batch(batch: &Vec<Transaction>) -> (r: Vec<u8>)
    ensures
        r@ == encode_batch(batch@),
{
    let mut out: Vec<u8> = Vec::new();
    let mut i: usize = 0;
    while i < batch.len()
        invariant
            i <= batch.len(),
            out@ == encode_batch(batch@.take(i as int)),
        decreases batch.len() - i,
    {
        let t = batch[i];
        push_le_bytes(&mut out, t.sender);
        push_le_bytes(&mut out, t.amount as u64);
        push_le_bytes(&mut out, t.nonce);
        proof {
            assert(batch@.take(i + 1).drop_last() =~= batch@.take(i as int));
            assert(batch@.take(i + 1).last() == batch@[i as int]);
            assert(out@ =~= encode_batch(batch@.take(i as int)) + encode_tx(batch@[i as int]));
        }
        i = i + 1;
    }
    proof {
        assert(batch@.take(batch@.len() as int) =~= batch@);
    }
    out
}

/// The block-production loop's state and policy. The production policy is a
/// fixed interval with no batching threshold: every `interval_millis` the
/// producer runs one production cycle, empty batches included.
#[derive(Clone, Copy, Debug)]
pub struct Consensus {
    max_batch_size: usize,
    interval_millis: u64,
}

impl Consensus {
    /// Most transactions a single block's payload may commit.
    pub closed spec fn max_batch(&self) -> usize {
        self.max_batch_size
    }

    /// The production tick, in milliseconds.
    pub closed spec fn interval(&self) -> u64 {
        self.interval_millis
    }

    /// Create a producer committing at most `max_batch_size` transactions per
    /// block, one cycle every `interval_millis`.
    pub fn new(max_batch_size: usize, interval_millis: u64) -> (r: Consensus)
        ensures
            r.max_batch() == max_batch_size,
            r.interval() == interval_millis,
    {
        Consensus { max_batch_size, interval_millis }
    }

    /// The production tick, for the loop that schedules cycles.
    pub fn interval_millis(&self) -> (r: u64)
        ensures
            r == self.interval(),
    {
        self.interval_millis
    }

    /// Build a candidate block extending `tip`: the next number, the tip's
    /// hash as `prev_hash` (the genesis sentinel when the chain is empty),
    /// and the content hash computed over the final fields.
    pub fn generate_block(&self, tip: Option<&Block>, timestamp: u64, payload: Vec<u8>) -> (b:
        Block)
        requires
            match tip {
                Some(t) => t.number < u64::MAX,
                None => true,
            },
        ensures
            b.number == match tip {
                Some(t) => t.number + 1,
                None => 0int,
            },
            b.prev_hash == match tip {
                Some(t) => t.hash,
                None => GENESIS_PREV_HASH,
            },
            b.timestamp == timestamp,
            b.payload == payload,
            block_hash_ok(b),
    {
        let (number, prev_hash) = match tip {
            Some(t) => (t.number + 1, t.hash),
            None => (0u64, GENESIS_PREV_HASH),
        };
        let hash = content_hash(number, timestamp, prev_hash, payload.as_slice());
        Block { number, timestamp, prev_hash, payload, hash }
    }

    /// One production cycle: drain up to `max_batch` transactions, serialize
    /// them, build a candidate against the current tip, and commit it. The
    /// candidate links correctly and hashes correctly by construction, so the
    /// only possible rejection is a duplicate hash; in that case the ledger is
    /// untouched and the whole batch goes back to the front of the queue.
    pub fn propose(
        &self,
        chain: &mut Blockchain,
        handler: &mut TransactionHandler,
        timestamp: u64,
    ) -> (r: Result<(), ChainError>)
        requires
            old(chain).wf(),
            old(handler).wf(),
            old(chain)@.len() < u64::MAX,
        ensures
            final(chain).wf(),
            final(handler).wf(),
            forall|a: u64| final(handler).balance_of(a) == old(handler).balance_of(a),
            ({
                let k = if self.max_batch() <= old(handler).queue().len() {
                    self.max_batch() as int
                } else {
                    old(handler).queue().len() as int
                };
                let batch = old(handler).queue().take(k);
                let candidate_hash = spec_content_hash(
                    old(chain)@.len() as u64,
                    timestamp,
                    expected_prev_hash(old(chain)@),
                    encode_batch(batch),
                );
                match r {
                    Ok(()) => {
                        &&& !hash_present(old(chain)@, candidate_hash)
                        &&& final(chain)@ == old(chain)@.push(final(chain)@.last())
                        &&& final(chain)@.len() == old(chain)@.len() + 1
                        &&& final(chain)@.last().payload@ == encode_batch(batch)
                        &&& final(chain)@.last().timestamp == timestamp
                        &&& final(chain)@.last().hash == candidate_hash
                        &&& link_ok(old(chain)@, final(chain)@.last())
                        &&& block_hash_ok(final(chain)@.last())
                        &&& final(handler).queue() == old(handler).queue().skip(k)
                    },
                    Err(e) => {
                        &&& e == ChainError::DuplicateHash
                        &&& hash_present(old(chain)@, candidate_hash)
                        &&& *final(chain) == *old(chain)
                        &&& final(handler).queue() == old(handler).queue()
                    },
                }
            }),
    {
        let batch = handler.drain_batch(self.max_batch_size);
        let payload = serialize_batch(&batch);
        proof {
            chain.lemma_wf_chain_valid();
            if old(chain)@.len() > 0 {
                assert(old(chain)@[old(chain)@.len() - 1].number == old(chain)@.len() - 1);
            }
        }
        let tip = chain.latest_block();
        let candidate = self.generate_block(tip, timestamp, payload);
        proof {
            assert(link_ok(old(chain)@, candidate));
            assert(candidate.number == old(chain)@.len() as u64);
            assert(candidate.prev_hash == expected_prev_hash(old(chain)@));
            assert(candidate.hash == spec_content_hash(
                old(chain)@.len() as u64,
                timestamp,
                expected_prev_hash(old(chain)@),
                encode_batch(batch@),
            ));
        }
        match chain.add_block(candidate) {
            Ok(()) => Ok(()),
            Err(e) => {
                let ghost k: int = batch@.len() as int;
                handler.requeue_front(batch);
                proof {
                    assert(handler.queue() =~= old(handler).queue()) by {
                        assert(old(handler).queue().take(k) + old(handler).queue().skip(k)
                            =~= old(handler).queue());
                    }
                }
                Err(e)
            },
        }
    }
}

} // verus!
