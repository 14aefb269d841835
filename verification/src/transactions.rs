//! Transaction records and the append-only log that keeps them.
//!
//! The log keeps every record in arrival order and never enforces unique
//! identifiers: a lookup by identifier always answers with the earliest record
//! that carries it.

use vstd::prelude::*;
use crate::errors::MyErrors;

verus! {

/// What a record asks the engine to do.
#[derive(Debug, Clone, Copy, PartialEq, Eq, Structural)]
pub enum TransactionType {
    Deposit,
    Withdraw,
    Dispute,
    Resolve,
    Chargeback,
}

/// One input record.
///
/// Amounts are signed counts of the smallest currency unit that the caller
/// works in. Deposits and withdrawals carry one; disputes, resolutions and
/// chargebacks carry none and reuse the amount of the record they refer to.
#[derive(Debug, Clone, Copy, PartialEq, Eq)]
pub struct Transaction {
    pub tx_type: TransactionType,
    pub client: u16,
    pub tx_id: u32,
    pub amount: Option<i64>,
    pub in_dispute: bool,
}

impl Transaction {
    /// The amount of the record, or `TransactionAmountIsNone` where it has none.
    pub fn read_amount(&self) -> (amount: Result<i64, MyErrors>)
        ensures
            amount == match self.amount {
                Some(a) => Ok::<i64, MyErrors>(a),
                None => Err::<i64, MyErrors>(MyErrors::TransactionAmountIsNone),
            },
    {
        match self.amount {
            Some(a) => Ok(a),
            None => Err(MyErrors::TransactionAmountIsNone),
        }
    }

    /// The same record with its dispute flag set to `flag`.
    pub open spec fn flagged(self, flag: bool) -> Transaction {
        Transaction { in_dispute: flag, ..self }
    }
}

/// Whether `i` is the position of the earliest record of `log` that carries `tx_id`.
pub open spec fn is_first_with_id(log: Seq<Transaction>, tx_id: u32, i: int) -> bool {
    &&& 0 <= i < log.len()
    &&& log[i].tx_id == tx_id
    &&& forall|j: int| 0 <= j < i ==> log[j].tx_id != tx_id
}

/// The position of the earliest record of `log` that carries `tx_id`, if there is one.
pub open spec fn first_with_id(log: Seq<Transaction>, tx_id: u32) -> Option<int> {
    if exists|i: int| is_first_with_id(log, tx_id, i) {
        Some(choose|i: int| is_first_with_id(log, tx_id, i))
    } else {
        None
    }
}

/// Among the first `n` records, either one carries `tx_id`, and then an
/// earliest one exists, or none does.
proof fn lemma_earliest_exists(log: Seq<Transaction>, tx_id: u32, n: int)
    requires
        0 <= n <= log.len(),
    ensures
        (exists|i: int| i < n && is_first_with_id(log, tx_id, i))
            || (forall|j: int| 0 <= j < n ==> log[j].tx_id != tx_id),
    decreases n,
{
    if n > 0 {
        lemma_earliest_exists(log, tx_id, n - 1);
        if forall|j: int| 0 <= j < n - 1 ==> log[j].tx_id != tx_id {
            if log[n - 1].tx_id == tx_id {
                assert(is_first_with_id(log, tx_id, n - 1));
            }
        }
    }
}

/// `first_with_id` answers `Some(i)` exactly for the earliest position that
/// carries the identifier, and `None` exactly when no record carries it.
pub proof fn lemma_first_with_id(log: Seq<Transaction>, tx_id: u32)
    ensures
        forall|i: int| is_first_with_id(log, tx_id, i) <==> first_with_id(log, tx_id) == Some(i),
        first_with_id(log, tx_id) is None <==> (forall|j: int|
            0 <= j < log.len() ==> log[j].tx_id != tx_id),
{
    lemma_earliest_exists(log, tx_id, log.len() as int);
}

/// The log of every record seen so far, in arrival order.
#[derive(Debug)]
pub struct Transactions {
    txns: Vec<Transaction>,
}

impl View for Transactions {
    type V = Seq<Transaction>;

    /// The records in arrival order.
    closed spec fn view(&self) -> Seq<Transaction> {
        self.txns@
    }
}

impl Transactions {
    /// An empty log.
    pub fn new() -> (log: Transactions)
        ensures
            log@ == Seq::<Transaction>::empty(),
    {
        Transactions { txns: Vec::new() }
    }

    /// Appends `txn`; identifiers already in the log are accepted again.
    pub fn remember(&mut self, txn: Transaction)
        ensures
            final(self)@ == old(self)@.push(txn),
    {
        self.txns.push(txn);
    }

    /// A handle on the earliest record that carries `txn_id`.
    ///
    /// Whatever the caller writes through the handle replaces that record and
    /// nothing else. Without such a record the log stays as it is and the
    /// answer is `DisputeTransactionDoesNotExist`.
    pub fn find(&mut self, txn_id: u32) -> (found: Result<&mut Transaction, MyErrors>)
        ensures
            match found {
                Ok(target) => {
                    &&& first_with_id(old(self)@, txn_id) matches Some(i)
                    &&& *target == old(self)@[i]
                    &&& final(self)@ == old(self)@.update(i, *final(target))
                },
                Err(e) => {
                    &&& first_with_id(old(self)@, txn_id) is None
                    &&& e == MyErrors::DisputeTransactionDoesNotExist
                    &&& final(self)@ == old(self)@
                },
            },
    {
        proof {
            lemma_first_with_id(self@, txn_id);
        }
        let mut i: usize = 0;
        while i < self.txns.len()
            invariant
                i <= self.txns.len(),
                self.txns@ == old(self).txns@,
                forall|j: int| 0 <= j < i ==> self.txns@[j].tx_id != txn_id,
            decreases self.txns.len() - i,
        {
            if self.txns[i].tx_id == txn_id {
                assert(is_first_with_id(old(self)@, txn_id, i as int));
                return Ok(&mut self.txns[i]);
            }
            i += 1;
        }
        Err(MyErrors::DisputeTransactionDoesNotExist)
    }

    /// The record that was remembered last.
    pub fn last(&self) -> (txn: &Transaction)
        requires
            self@.len() > 0,
        ensures
            *txn == self@.last(),
    {
        &self.txns[self.txns.len() - 1]
    }
}

} // verus!
