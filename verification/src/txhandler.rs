//! Transaction intake: validation of incoming transactions against recorded
//! account balances, and the FIFO queue of accepted transactions waiting to
//! be committed into a block.

use std::collections::HashMap;
use vstd::prelude::*;

verus! {

broadcast use vstd::std_specs::hash::group_hash_axioms;

/// A transfer submitted from outside the core.
#[derive(Clone, Copy, Debug, PartialEq, Eq, Structural)]
pub struct Transaction {
    /// Account the amount is drawn from.
    pub sender: u64,
    /// Transferred amount; a submission with a non-positive amount is
    /// structurally invalid.
    pub amount: i64,
    /// Per-sender sequence value carried by the transaction.
    pub nonce: u64,
}

/// Structural well-formedness of a transaction: the amount is positive.
pub open spec fn tx_well_formed(t: Transaction) -> bool {
    t.amount > 0
}

/// Every transaction of the sequence is structurally well formed.
pub open spec fn all_well_formed(q: Seq<Transaction>) -> bool {
    forall|i: int| #![trigger q[i]] 0 <= i < q.len() ==> tx_well_formed(q[i])
}

/// Why a submitted transaction was refused. Both cases are recoverable: the
/// caller is informed, nothing is queued, and no state changes.
#[derive(Clone, Copy, Debug, PartialEq, Eq, Structural)]
pub enum TransactionError {
    /// The record is malformed (its amount is not positive).
    InvalidTransaction,
    /// The sender's recorded balance does not cover the amount.
    InsufficientFunds,
}

/// The intake path: validates submissions against the recorded account
/// balances and queues accepted ones, first in, first out.
pub struct TransactionHandler {
    balances: HashMap<u64, u64>,
    pending: Vec<Transaction>,
}

impl TransactionHandler {
    /// The accepted transactions not yet drained into a block, oldest first.
    pub closed spec fn queue(&self) -> Seq<Transaction> {
        self.pending@
    }

    /// The balance recorded for `account`; an unknown account holds nothing.
    pub closed spec fn balance_of(&self, account: u64) -> u64 {
        if self.balances@.contains_key(account) {
            self.balances@[account]
        } else {
            0
        }
    }

    /// Everything queued passed validation when it was submitted.
    pub closed spec fn wf(&self) -> bool {
        all_well_formed(self.pending@)
    }

    /// Create an intake path with an empty queue and no recorded balances.
    pub fn new() -> (r: TransactionHandler)
        ensures
            r.wf(),
            r.queue() =~= Seq::<Transaction>::empty(),
            forall|a: u64| r.balance_of(a) == 0,
    {
        TransactionHandler { balances: HashMap::new(), pending: Vec::new() }
    }

    /// Record the balance the account-state collaborator reports for
    /// `account`; the queue is untouched.
    pub fn set_balance(&mut self, account: u64, amount: u64)
        ensures
            final(self).wf() <==> old(self).wf(),
            final(self).queue() == old(self).queue(),
            final(self).balance_of(account) == amount,
            forall|a: u64| a != account ==> final(self).balance_of(a) == old(self).balance_of(a),
    {
        self.balances.insert(account, amount);
    }

    /// Number of transactions currently queued.
    pub fn queue_len(&self) -> (n: usize)
        ensures
            n == self.queue().len(),
    {
        self.pending.len()
    }

    /// Validate an incoming transaction and, on success, enqueue it for
    /// inclusion in the next block. A malformed record is refused as invalid;
    /// one whose sender's balance does not cover the amount is refused for
    /// insufficient funds. A refusal has no side effect at all.
    pub fn handle_transaction(&mut self, transaction: Transaction) -> (r: Result<
        (),
        TransactionError,
    >)
        requires
            old(self).wf(),
        ensures
            final(self).wf(),
            forall|a: u64| final(self).balance_of(a) == old(self).balance_of(a),
            !tx_well_formed(transaction) ==> r == Err::<(), TransactionError>(
                TransactionError::InvalidTransaction,
            ) && final(self).queue() == old(self).queue(),
            tx_well_formed(transaction) && (old(self).balance_of(transaction.sender) as int)
                < (transaction.amount as int) ==> r == Err::<(), TransactionError>(
                TransactionError::InsufficientFunds,
            ) && final(self).queue() == old(self).queue(),
            tx_well_formed(transaction) && (old(self).balance_of(transaction.sender) as int)
                >= (transaction.amount as int) ==> r == Ok::<(), TransactionError>(())
                && final(self).queue() == old(self).queue().push(transaction),
    {
        if transaction.amount <= 0 {
            return Err(TransactionError::InvalidTransaction);
        }
        let amount = transaction.amount as u64;
        let balance = match self.balances.get(&transaction.sender) {
            Some(b) => *b,
            None => 0,
        };
        if balance < amount {
            return Err(TransactionError::InsufficientFunds);
        }
        self.pending.push(transaction);
        Ok(())
    }

    /// Remove and return up to `max` queued transactions, oldest first; the
    /// rest stay queued in order.
    pub fn drain_batch(&mut self, max: usize) -> (batch: Vec<Transaction>)
        requires
            old(self).wf(),
        ensures
            final(self).wf(),
            forall|a: u64| final(self).balance_of(a) == old(self).balance_of(a),
            batch@.len() == if max <= old(self).queue().len() {
                max as int
            } else {
                old(self).queue().len() as int
            },
            batch@ == old(self).queue().take(batch@.len() as int),
            final(self).queue() == old(self).queue().skip(batch@.len() as int),
            all_well_formed(batch@),
    {
        let k = if max < self.pending.len() {
            max
        } else {
            self.pending.len()
        };
        let mut batch: Vec<Transaction> = Vec::new();
        let mut i: usize = 0;
        while i < k
            invariant
                i <= k,
                k <= self.pending.len(),
                batch@ == self.pending@.take(i as int),
            decreases k - i,
        {
            batch.push(self.pending[i]);
            proof {
                assert(self.pending@.take(i + 1) =~= self.pending@.take(i as int).push(
                    self.pending@[i as int],
                ));
            }
            i = i + 1;
        }
        let mut rest: Vec<Transaction> = Vec::new();
        let mut j: usize = k;
        while j < self.pending.len()
            invariant
                k <= j <= self.pending.len(),
                rest@ == self.pending@.subrange(k as int, j as int),
            decreases self.pending.len() - j,
        {
            rest.push(self.pending[j]);
            proof {
                assert(self.pending@.subrange(k as int, j + 1) =~= self.pending@.subrange(
                    k as int,
                    j as int,
                ).push(self.pending@[j as int]));
            }
            j = j + 1;
        }
        self.pending = rest;
        proof {
            assert(self.pending@ =~= old(self).queue().skip(k as int));
            assert(all_well_formed(batch@)) by {
                assert(forall|i: int| #![trigger batch@[i]]
                    0 <= i < batch@.len() ==> batch@[i] == old(self).queue()[i]);
            }
        }
        batch
    }

    /// Put a drained batch back unconsumed, ahead of everything queued since:
    /// a losing production cycle never drops its transactions.
    pub fn requeue_front(&mut self, batch: Vec<Transaction>)
        requires
            old(self).wf(),
            all_well_formed(batch@),
        ensures
            final(self).wf(),
            forall|a: u64| final(self).balance_of(a) == old(self).balance_of(a),
            final(self).queue() == batch@ + old(self).queue(),
    {
        let ghost batch_view = batch@;
        let mut combined = batch;
        combined.append(&mut self.pending);
        self.pending = combined;
        proof {
            assert(self.pending@ == batch_view + old(self).queue());
            assert forall|i: int|
                0 <= i < self.pending@.len() implies tx_well_formed(#[trigger] self.pending@[i]) by {
                if i < batch_view.len() {
                    assert(self.pending@[i] == batch_view[i]);
                } else {
                    assert(self.pending@[i] == old(self).queue()[i - batch_view.len()]);
                }
            }
        }
    }
}

/// A transaction that fails validation is never part of any drained batch:
/// the queue holds only validated transactions, and a batch is a prefix of
/// the queue.
pub proof fn lemma_invalid_not_in_batch(q: Seq<Transaction>, tx: Transaction, n: int)
    requires
        all_well_formed(q),
        !tx_well_formed(tx),
        0 <= n <= q.len(),
    ensures
        !q.take(n).contains(tx),
{
    if q.take(n).contains(tx) {
        let i = choose|i: int| 0 <= i < q.take(n).len() && q.take(n)[i] == tx;
        assert(q[i] == tx);
    }
}

} // verus!
