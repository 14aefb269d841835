//! The engine as a state machine over sequences.
//!
//! The state is a pair of sequences, the accounts in the order in which they
//! were opened and the records in arrival order. Each function here says what
//! one record does to that state, or which failure it ends in; a failure never
//! changes the state it was applied to. The executable functions of
//! `processor` are specified against these.

use vstd::prelude::*;
use crate::accounts::{Account, Movement, credited, first_for_client, first_in_dispute};
use crate::errors::MyErrors;
use crate::transactions::{Transaction, TransactionType, first_with_id};

verus! {

/// The state of the engine: the ledger and the log.
pub struct Books {
    pub accounts: Seq<Account>,
    pub log: Seq<Transaction>,
}

/// The three kinds of record that refer to an earlier record.
pub enum Claim {
    Dispute,
    Resolve,
    Chargeback,
}

/// A record that failed, with the failure.
#[derive(Debug, Clone, Copy, PartialEq, Eq)]
pub struct Failure {
    pub error: MyErrors,
    pub txn: Transaction,
}

/// What a whole run leaves behind: the final state and the failures in the
/// order in which they occurred.
pub struct Run {
    pub books: Books,
    pub failures: Seq<Failure>,
}

/// The ledger after the deposit `txn`.
pub open spec fn deposit_outcome(accounts: Seq<Account>, txn: Transaction) -> Result<
    Seq<Account>,
    MyErrors,
> {
    match txn.amount {
        None => Err(MyErrors::TransactionAmountIsNone),
        Some(amount) => credited(accounts, txn.client, amount),
    }
}

/// The ledger after the withdrawal `txn`: the earliest account of the client
/// shrinks in what is available and in total, unless it has less available
/// than the record asks for.
pub open spec fn withdraw_outcome(accounts: Seq<Account>, txn: Transaction) -> Result<
    Seq<Account>,
    MyErrors,
> {
    match txn.amount {
        None => Err(MyErrors::TransactionAmountIsNone),
        Some(amount) => match first_for_client(accounts, txn.client) {
            None => Err(MyErrors::AccountDoesNotExist),
            Some(a) => if amount > accounts[a].available {
                Err(MyErrors::CannotWithdrawMoreThanBalance)
            } else {
                match accounts[a].moved(
                    Movement { available: -amount, held: 0, total: -amount, locks: false },
                ) {
                    Some(account) => Ok(accounts.update(a, account)),
                    None => Err(MyErrors::BalanceOutOfRange),
                }
            },
        },
    }
}

/// Whether a claim of this kind needs its target to be under dispute.
pub open spec fn needs_disputed(kind: Claim) -> bool {
    !(kind is Dispute)
}

/// The failure of a claim whose target is in the wrong dispute state.
pub open spec fn wrong_state(kind: Claim) -> MyErrors {
    match kind {
        Claim::Dispute => MyErrors::TransactionIsAlreadyInDispute,
        Claim::Resolve => MyErrors::TransactionIsNotInDispute,
        Claim::Chargeback => MyErrors::TransactionIsNotInDispute,
    }
}

/// The failure of a claim whose target is neither a deposit nor a withdrawal.
pub open spec fn wrong_target(kind: Claim) -> MyErrors {
    match kind {
        Claim::Dispute => MyErrors::CannotDisputeThisTransactionType,
        Claim::Resolve => MyErrors::CannotResolveThisTransactionType,
        Claim::Chargeback => MyErrors::CannotChargebackThisTransactionType,
    }
}

/// Whether `target` is a deposit or a withdrawal, the two types of record
/// that move money by themselves and that a claim may refer to.
pub open spec fn is_payment(target: Transaction) -> bool {
    target.tx_type is Deposit || target.tx_type is Withdraw
}

/// How a claim moves the balances of the account that owns its target, by the
/// type of the target and the target's amount. `None` for a target that is
/// neither a deposit nor a withdrawal, or that carries no amount.
///
/// A dispute freezes the amount: out of what is available for a deposit, on
/// top of the total for a withdrawal. A resolution releases the frozen amount
/// into what is available. A chargeback removes the frozen amount from the
/// account and locks it.
pub open spec fn movement(kind: Claim, target: Transaction) -> Option<Movement> {
    match (kind, target.tx_type, target.amount) {
        (Claim::Dispute, TransactionType::Deposit, Some(amount)) => Some(
            Movement { available: -amount, held: amount as int, total: 0, locks: false },
        ),
        (Claim::Dispute, TransactionType::Withdraw, Some(amount)) => Some(
            Movement { available: 0, held: amount as int, total: amount as int, locks: false },
        ),
        (Claim::Resolve, TransactionType::Deposit, Some(amount)) | (
            Claim::Resolve,
            TransactionType::Withdraw,
            Some(amount),
        ) => Some(Movement { available: amount as int, held: -amount, total: 0, locks: false }),
        (Claim::Chargeback, TransactionType::Deposit, Some(amount)) | (
            Claim::Chargeback,
            TransactionType::Withdraw,
            Some(amount),
        ) => Some(Movement { available: 0, held: -amount, total: -amount, locks: true }),
        _ => None,
    }
}

/// The state after a claim of kind `kind` that the record `txn` makes.
///
/// The target is the earliest record of `log` with the identifier of `txn`.
/// The checks come in this order, and the first that fails decides:
/// the target exists; where it is a deposit or a withdrawal, it carries an
/// amount; it is in the dispute state that the claim needs; `txn` names the
/// target's client and that client has an account; the target is a deposit or
/// a withdrawal; the new balances are in range. The amount of a target of
/// any other type is never looked at. Then the account moves as `movement`
/// says and the target's dispute flag flips.
pub open spec fn claim_outcome(
    kind: Claim,
    accounts: Seq<Account>,
    log: Seq<Transaction>,
    txn: Transaction,
) -> Result<Books, MyErrors> {
    match first_with_id(log, txn.tx_id) {
        None => Err(MyErrors::DisputeTransactionDoesNotExist),
        Some(t) => if is_payment(log[t]) && log[t].amount is None {
            Err(MyErrors::TransactionAmountIsNone)
        } else if log[t].in_dispute != needs_disputed(kind) {
            Err(wrong_state(kind))
        } else {
            match first_in_dispute(accounts, txn.client, log[t].client) {
                None => Err(MyErrors::AccountDoesNotExist),
                Some(a) => match movement(kind, log[t]) {
                    None => Err(wrong_target(kind)),
                    Some(m) => match accounts[a].moved(m) {
                        None => Err(MyErrors::BalanceOutOfRange),
                        Some(account) => Ok(
                            Books {
                                accounts: accounts.update(a, account),
                                log: log.update(t, log[t].flagged(!needs_disputed(kind))),
                            },
                        ),
                    },
                },
            }
        },
    }
}

/// The state after `txn` is applied according to its type, where `log` holds
/// the records that came before it.
pub open spec fn dispatch_outcome(
    accounts: Seq<Account>,
    log: Seq<Transaction>,
    txn: Transaction,
) -> Result<Books, MyErrors> {
    match txn.tx_type {
        TransactionType::Deposit => match deposit_outcome(accounts, txn) {
            Ok(accounts) => Ok(Books { accounts, log }),
            Err(e) => Err(e),
        },
        TransactionType::Withdraw => match withdraw_outcome(accounts, txn) {
            Ok(accounts) => Ok(Books { accounts, log }),
            Err(e) => Err(e),
        },
        TransactionType::Dispute => claim_outcome(Claim::Dispute, accounts, log, txn),
        TransactionType::Resolve => claim_outcome(Claim::Resolve, accounts, log, txn),
        TransactionType::Chargeback => claim_outcome(Claim::Chargeback, accounts, log, txn),
    }
}

/// One step of the engine: `txn` is applied to the ledger and to the records
/// that came before it, and is in the log afterwards whether it applied or
/// not. A claim never finds itself as its target.
pub open spec fn record_outcome(books: Books, txn: Transaction) -> (Books, Option<MyErrors>) {
    match dispatch_outcome(books.accounts, books.log, txn) {
        Ok(after) => (Books { accounts: after.accounts, log: after.log.push(txn) }, None),
        Err(e) => (Books { accounts: books.accounts, log: books.log.push(txn) }, Some(e)),
    }
}

/// The run of the engine over `records`, from an empty ledger and an empty log.
pub open spec fn run(records: Seq<Transaction>) -> Run
    decreases records.len(),
{
    if records.len() == 0 {
        Run {
            books: Books { accounts: Seq::empty(), log: Seq::empty() },
            failures: Seq::empty(),
        }
    } else {
        let before = run(records.drop_last());
        let (books, error) = record_outcome(before.books, records.last());
        Run {
            books,
            failures: match error {
                Some(e) => before.failures.push(Failure { error: e, txn: records.last() }),
                None => before.failures,
            },
        }
    }
}

} // verus!
