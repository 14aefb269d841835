//! The executable engine: one handler per record type, the dispatch of a
//! single record, and the run over a whole sequence of records.
//!
//! The ledger and the log are handed in as two separate mutable values. A
//! handler either applies its record in full or reports a failure and leaves
//! both untouched. A dispute, resolution or chargeback refers to a record
//! that came before it: the run applies each record to the log as it stood
//! before the record and remembers the record afterwards.

use vstd::prelude::*;
use crate::accounts::{Accounts, all_balanced, first_for_client, one_account_per_client};
use crate::errors::MyErrors;
use crate::laws::lemma_step_keeps_clients_apart;
use crate::model::{
    Books, Claim, Failure, claim_outcome, deposit_outcome, is_payment, record_outcome, run,
    withdraw_outcome,
};
use crate::transactions::{Transaction, TransactionType, Transactions, first_with_id};

verus! {

/// What a run hands back: the final ledger, the log of every record, and the
/// failures in the order in which they occurred.
#[derive(Debug)]
pub struct Outcome {
    pub accounts: Accounts,
    pub txns: Transactions,
    pub failures: Vec<Failure>,
}

/// Runs the engine over `records`, in order, from an empty ledger and an empty
/// log. A record that fails is noted with its failure and the run goes on.
pub fn process_txns(records: &[Transaction]) -> (outcome: Outcome)
    ensures
        outcome.accounts@ == run(records@).books.accounts,
        outcome.txns@ == run(records@).books.log,
        outcome.failures@ == run(records@).failures,
        all_balanced(outcome.accounts@),
        one_account_per_client(outcome.accounts@),
{
    let mut txns = Transactions::new();
    let mut accounts = Accounts::new();
    let mut failures: Vec<Failure> = Vec::new();

    let mut i: usize = 0;
    while i < records.len()
        invariant
            i <= records.len(),
            accounts@ == run(records@.take(i as int)).books.accounts,
            txns@ == run(records@.take(i as int)).books.log,
            failures@ == run(records@.take(i as int)).failures,
            all_balanced(accounts@),
            one_account_per_client(accounts@),
        decreases records.len() - i,
    {
        let txn = records[i];
        proof {
            let upto = records@.take(i + 1);
            assert(upto.drop_last() == records@.take(i as int));
        }
        if let Err(err) = process_txn(&mut accounts, &mut txns, txn) {
            failures.push(Failure { error: err, txn: *txns.last() });
        }
        i += 1;
    }
    proof {
        assert(records@.take(records@.len() as int) == records@);
    }
    Outcome { accounts, txns, failures }
}

/// Applies `txn` according to its type and remembers it. A claim looks for
/// its target among the records that came before it, never at itself. The
/// record is in the log afterwards whether or not it could be applied.
///
/// A dispute, resolution or chargeback whose identifier no earlier record
/// carries is answered with `DisputeTransactionDoesNotExist` and leaves the
/// ledger as it was.
pub fn process_txn(accounts: &mut Accounts, txns: &mut Transactions, txn: Transaction) -> (res:
    Result<(), MyErrors>)
    ensures
        ({
            let (books, error) = record_outcome(
                Books { accounts: old(accounts)@, log: old(txns)@ },
                txn,
            );
            &&& final(accounts)@ == books.accounts
            &&& final(txns)@ == books.log
            &&& match error {
                None => res is Ok,
                Some(e) => res == Err::<(), MyErrors>(e),
            }
        }),
        (!is_payment(txn) && first_with_id(old(txns)@, txn.tx_id) is None) ==> (res == Err::<
            (),
            MyErrors,
        >(MyErrors::DisputeTransactionDoesNotExist) && final(accounts)@ == old(accounts)@
            && final(txns)@ == old(txns)@.push(txn)),
        all_balanced(old(accounts)@) ==> all_balanced(final(accounts)@),
        one_account_per_client(old(accounts)@) ==> one_account_per_client(final(accounts)@),
{
    proof {
        if one_account_per_client(accounts@) {
            lemma_step_keeps_clients_apart(Books { accounts: accounts@, log: txns@ }, txn);
        }
    }
    let res = match txn.tx_type {
        TransactionType::Deposit => deposit(accounts, txn),
        TransactionType::Withdraw => withdraw(accounts, txn),
        TransactionType::Dispute => dispute(accounts, txn, txns),
        TransactionType::Resolve => resolve(accounts, txn, txns),
        TransactionType::Chargeback => chargeback(accounts, txn, txns),
    };
    txns.remember(txn);

    res
}

/// Credits the amount of `txn` to the client's account, opening the account
/// where the client has none. A locked account is not refused: the lock is
/// recorded and has no effect on later deposits.
pub fn deposit(accounts: &mut Accounts, txn: Transaction) -> (res: Result<(), MyErrors>)
    ensures
        match deposit_outcome(old(accounts)@, txn) {
            Ok(after) => res is Ok && final(accounts)@ == after,
            Err(e) => res == Err::<(), MyErrors>(e) && final(accounts)@ == old(accounts)@,
        },
        all_balanced(old(accounts)@) ==> all_balanced(final(accounts)@),
{
    let amount = txn.read_amount()?;
    accounts.deposit(txn.client, amount)
}

/// Takes the amount of `txn` out of what the client has available, and out of
/// the total. An amount greater than what is available is refused with
/// `CannotWithdrawMoreThanBalance`, and the ledger stays as it was. A locked
/// account is not refused: the lock is recorded and has no effect on later
/// withdrawals.
pub fn withdraw(accounts: &mut Accounts, txn: Transaction) -> (res: Result<(), MyErrors>)
    ensures
        match withdraw_outcome(old(accounts)@, txn) {
            Ok(after) => res is Ok && final(accounts)@ == after,
            Err(e) => res == Err::<(), MyErrors>(e) && final(accounts)@ == old(accounts)@,
        },
        (txn.amount matches Some(amount) && first_for_client(old(accounts)@, txn.client) matches Some(
            a,
        ) && amount > old(accounts)@[a].available) ==> (res == Err::<(), MyErrors>(
            MyErrors::CannotWithdrawMoreThanBalance,
        ) && final(accounts)@ == old(accounts)@),
        all_balanced(old(accounts)@) ==> all_balanced(final(accounts)@),
{
    let amount = txn.read_amount()?;
    let account = accounts.find(txn.client)?;

    if amount > account.available {
        return Err(MyErrors::CannotWithdrawMoreThanBalance);
    }
    match (account.available.checked_sub(amount), account.total.checked_sub(amount)) {
        (Some(available), Some(total)) => {
            account.available = available;
            account.total = total;
            Ok(())
        },
        _ => Err(MyErrors::BalanceOutOfRange),
    }
}

/// Freezes the amount of the target, the earliest record with the identifier
/// of `txn`, and puts the target under dispute.
///
/// For a deposit the amount moves from what is available to what is held. For
/// a withdrawal it is added to what is held and to the total. Where no record
/// carries the identifier the answer is `DisputeTransactionDoesNotExist`, and
/// the ledger and the log stay as they were. The amount is read only from a
/// target that is a deposit or a withdrawal; a target of another type is
/// refused for its type, whether it carries an amount or not.
pub fn dispute(accounts: &mut Accounts, txn: Transaction, txns: &mut Transactions) -> (res: Result<
    (),
    MyErrors,
>)
    ensures
        match claim_outcome(Claim::Dispute, old(accounts)@, old(txns)@, txn) {
            Ok(books) => {
                &&& res is Ok
                &&& final(accounts)@ == books.accounts
                &&& final(txns)@ == books.log
            },
            Err(e) => {
                &&& res == Err::<(), MyErrors>(e)
                &&& final(accounts)@ == old(accounts)@
                &&& final(txns)@ == old(txns)@
            },
        },
        first_with_id(old(txns)@, txn.tx_id) is None ==> (res == Err::<(), MyErrors>(
            MyErrors::DisputeTransactionDoesNotExist,
        ) && final(accounts)@ == old(accounts)@ && final(txns)@ == old(txns)@),
        all_balanced(old(accounts)@) ==> all_balanced(final(accounts)@),
{
    let target = txns.find(txn.tx_id)?;
    let amount = match target.tx_type {
        TransactionType::Deposit | TransactionType::Withdraw => Some(target.read_amount()?),
        _ => None,
    };

    if target.in_dispute {
        return Err(MyErrors::TransactionIsAlreadyInDispute);
    }
    let account = accounts.find_in_dispute(txn.client, target.client)?;

    match (target.tx_type, amount) {
        (TransactionType::Deposit, Some(amount)) => {
            match (account.available.checked_sub(amount), account.held.checked_add(amount)) {
                (Some(available), Some(held)) => {
                    account.available = available;
                    account.held = held;
                },
                _ => return Err(MyErrors::BalanceOutOfRange),
            }
        },
        (TransactionType::Withdraw, Some(amount)) => {
            match (account.held.checked_add(amount), account.total.checked_add(amount)) {
                (Some(held), Some(total)) => {
                    account.held = held;
                    account.total = total;
                },
                _ => return Err(MyErrors::BalanceOutOfRange),
            }
        },
        _ => return Err(MyErrors::CannotDisputeThisTransactionType),
    }

    target.in_dispute = true;

    Ok(())
}

/// Releases the frozen amount of the target, the earliest record with the
/// identifier of `txn`, and ends the dispute.
///
/// The amount moves from what is held to what is available, for a deposit
/// and for a withdrawal alike. The amount is read only from a target that is
/// a deposit or a withdrawal.
pub fn resolve(accounts: &mut Accounts, txn: Transaction, txns: &mut Transactions) -> (res: Result<
    (),
    MyErrors,
>)
    ensures
        match claim_outcome(Claim::Resolve, old(accounts)@, old(txns)@, txn) {
            Ok(books) => {
                &&& res is Ok
                &&& final(accounts)@ == books.accounts
                &&& final(txns)@ == books.log
            },
            Err(e) => {
                &&& res == Err::<(), MyErrors>(e)
                &&& final(accounts)@ == old(accounts)@
                &&& final(txns)@ == old(txns)@
            },
        },
        all_balanced(old(accounts)@) ==> all_balanced(final(accounts)@),
{
    let target = txns.find(txn.tx_id)?;
    let amount = match target.tx_type {
        TransactionType::Deposit | TransactionType::Withdraw => Some(target.read_amount()?),
        _ => None,
    };

    if !target.in_dispute {
        return Err(MyErrors::TransactionIsNotInDispute);
    }
    let account = accounts.find_in_dispute(txn.client, target.client)?;

    match (target.tx_type, amount) {
        (TransactionType::Deposit, Some(amount)) | (TransactionType::Withdraw, Some(amount)) => {
            match (account.available.checked_add(amount), account.held.checked_sub(amount)) {
                (Some(available), Some(held)) => {
                    account.available = available;
                    account.held = held;
                },
                _ => return Err(MyErrors::BalanceOutOfRange),
            }
        },
        _ => return Err(MyErrors::CannotResolveThisTransactionType),
    }

    target.in_dispute = false;

    Ok(())
}

/// Takes the disputed amount back out of the account for good and locks the
/// account; the target leaves the dispute state.
///
/// The amount is that of the target, the earliest record with the identifier
/// of `txn`. It leaves both what is held and the total. The amount is read
/// only from a target that is a deposit or a withdrawal; a target that is not
/// under dispute is refused for that before its type is looked at.
pub fn chargeback(accounts: &mut Accounts, txn: Transaction, txns: &mut Transactions) -> (res:
    Result<(), MyErrors>)
    ensures
        match claim_outcome(Claim::Chargeback, old(accounts)@, old(txns)@, txn) {
            Ok(books) => {
                &&& res is Ok
                &&& final(accounts)@ == books.accounts
                &&& final(txns)@ == books.log
            },
            Err(e) => {
                &&& res == Err::<(), MyErrors>(e)
                &&& final(accounts)@ == old(accounts)@
                &&& final(txns)@ == old(txns)@
            },
        },
        all_balanced(old(accounts)@) ==> all_balanced(final(accounts)@),
{
    let target = txns.find(txn.tx_id)?;
    let amount = match target.tx_type {
        TransactionType::Deposit | TransactionType::Withdraw => Some(target.read_amount()?),
        _ => None,
    };

    if !target.in_dispute {
        return Err(MyErrors::TransactionIsNotInDispute);
    }
    let account = accounts.find_in_dispute(txn.client, target.client)?;

    match (target.tx_type, amount) {
        (TransactionType::Deposit, Some(amount)) | (TransactionType::Withdraw, Some(amount)) => {
            match (account.held.checked_sub(amount), account.total.checked_sub(amount)) {
                (Some(held), Some(total)) => {
                    account.held = held;
                    account.total = total;
                    account.locked = true;
                },
                _ => return Err(MyErrors::BalanceOutOfRange),
            }
        },
        _ => return Err(MyErrors::CannotChargebackThisTransactionType),
    }

    target.in_dispute = false;

    Ok(())
}

} // verus!
