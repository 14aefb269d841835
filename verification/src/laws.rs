//! What holds of the engine across several records.
//!
//! Each statement is over the state machine of `model`, which is what the
//! contracts of the executable handlers speak of.

use vstd::prelude::*;
use crate::accounts::{
    Account, all_balanced, first_for_client, first_in_dispute, in_range, is_first_for_client,
    lemma_first_for_client, one_account_per_client,
};
use crate::errors::MyErrors;
use crate::model::{
    Books, Claim, Failure, claim_outcome, deposit_outcome, is_payment, needs_disputed,
    record_outcome, run, withdraw_outcome, wrong_state, wrong_target,
};
use crate::transactions::{Transaction, first_with_id, is_first_with_id, lemma_first_with_id};

verus! {

/// One step of the engine keeps a ledger balanced: if the total of every
/// account was the sum of what it had available and held before the record,
/// it is so after it, whether the record was applied or refused.
pub proof fn lemma_step_keeps_balance(books: Books, txn: Transaction)
    requires
        all_balanced(books.accounts),
    ensures
        all_balanced(record_outcome(books, txn).0.accounts),
{
    lemma_first_for_client(books.accounts, txn.client);
}

/// After a run over any sequence of records, the total of every account is
/// the sum of what it has available and what it holds.
pub proof fn lemma_run_balanced(records: Seq<Transaction>)
    ensures
        all_balanced(run(records).books.accounts),
    decreases records.len(),
{
    if records.len() > 0 {
        lemma_run_balanced(records.drop_last());
        lemma_step_keeps_balance(run(records.drop_last()).books, records.last());
    }
}

/// One step of the engine never removes or reorders an account, never hands
/// an account to another client and never lifts a lock; it opens at most one
/// account.
pub proof fn lemma_step_keeps_accounts(books: Books, txn: Transaction)
    ensures
        ({
            let after = record_outcome(books, txn).0.accounts;
            &&& books.accounts.len() <= after.len() <= books.accounts.len() + 1
            &&& forall|i: int|
                0 <= i < books.accounts.len() ==> (#[trigger] after[i]).client
                    == books.accounts[i].client && (books.accounts[i].locked ==> after[i].locked)
        }),
{
}

/// One step of the engine adds its record at the end of the log, as it came
/// in. Every record that was there before keeps its place and all of its
/// fields but the dispute flag.
pub proof fn lemma_step_keeps_records(books: Books, txn: Transaction)
    ensures
        ({
            let after = record_outcome(books, txn).0.log;
            &&& after.len() == books.log.len() + 1
            &&& after.last() == txn
            &&& forall|i: int|
                0 <= i < books.log.len() ==> #[trigger] after[i] == books.log[i].flagged(
                    after[i].in_dispute,
                )
        }),
{
}

/// One step of the engine keeps the accounts apart: if no two accounts
/// belonged to the same client before the record, none do after it.
pub proof fn lemma_step_keeps_clients_apart(books: Books, txn: Transaction)
    requires
        one_account_per_client(books.accounts),
    ensures
        one_account_per_client(record_outcome(books, txn).0.accounts),
{
    lemma_step_keeps_accounts(books, txn);
    lemma_first_for_client(books.accounts, txn.client);
}

/// After a run over any sequence of records, every client has at most one
/// account.
pub proof fn lemma_run_one_account_per_client(records: Seq<Transaction>)
    ensures
        one_account_per_client(run(records).books.accounts),
    decreases records.len(),
{
    if records.len() > 0 {
        lemma_run_one_account_per_client(records.drop_last());
        lemma_step_keeps_clients_apart(run(records.drop_last()).books, records.last());
    }
}

/// A deposit for a client without an account, followed by a withdrawal of the
/// same amount by that client, leaves the client with an unlocked account
/// that has nothing available, nothing held and a total of nothing. The
/// accounts of other clients are as before.
pub proof fn lemma_deposit_then_withdraw(
    accounts: Seq<Account>,
    paid_in: Transaction,
    paid_out: Transaction,
)
    requires
        first_for_client(accounts, paid_in.client) is None,
        paid_in.amount is Some,
        paid_out.amount == paid_in.amount,
        paid_out.client == paid_in.client,
    ensures
        deposit_outcome(accounts, paid_in) matches Ok(opened) && withdraw_outcome(opened, paid_out)
            == Ok::<Seq<Account>, MyErrors>(
            accounts.push(
                Account { client: paid_in.client, available: 0, held: 0, total: 0, locked: false },
            ),
        ),
{
    let client = paid_in.client;
    let amount = paid_in.amount->0;
    let opened = accounts.push(Account::opened(client, amount));
    let at = accounts.len() as int;
    lemma_first_for_client(accounts, client);
    lemma_first_for_client(opened, client);
    assert(is_first_for_client(opened, client, at));
    assert(opened.update(
        at,
        Account { client, available: 0, held: 0, total: 0, locked: false },
    ) == accounts.push(Account { client, available: 0, held: 0, total: 0, locked: false }));
}

/// Disputing a deposit whose amount is all that its client has, and all of it
/// available, freezes it: nothing stays available, the amount is held, the
/// total is the amount, and the deposit is under dispute. Resolving the
/// dispute brings the ledger and the log back to what they were.
///
/// `t` is the position of the deposit in the log and `a` that of the account.
pub proof fn lemma_dispute_then_resolve(
    accounts: Seq<Account>,
    log: Seq<Transaction>,
    t: int,
    a: int,
    disputing: Transaction,
    resolving: Transaction,
)
    requires
        first_with_id(log, disputing.tx_id) == Some(t),
        log[t].tx_type is Deposit,
        log[t].amount is Some,
        !log[t].in_dispute,
        log[t].client == disputing.client,
        first_for_client(accounts, disputing.client) == Some(a),
        accounts[a].available == log[t].amount->0,
        accounts[a].held == 0,
        accounts[a].total == log[t].amount->0,
        resolving.tx_id == disputing.tx_id,
        resolving.client == disputing.client,
    ensures
        claim_outcome(Claim::Dispute, accounts, log, disputing) matches Ok(disputed) && ({
            &&& disputed.accounts == accounts.update(
                a,
                Account {
                    client: accounts[a].client,
                    available: 0,
                    held: log[t].amount->0,
                    total: log[t].amount->0,
                    locked: accounts[a].locked,
                },
            )
            &&& disputed.log == log.update(t, log[t].flagged(true))
            &&& claim_outcome(Claim::Resolve, disputed.accounts, disputed.log, resolving) == Ok::<
                Books,
                MyErrors,
            >(Books { accounts, log })
        }),
{
    lemma_first_with_id(log, disputing.tx_id);
    lemma_first_for_client(accounts, disputing.client);
    let disputed = claim_outcome(Claim::Dispute, accounts, log, disputing)->Ok_0;
    lemma_flag_keeps_position(log, t, true, disputing.tx_id);
    lemma_balances_keep_position(accounts, a, disputed.accounts[a], disputing.client);
    assert(disputed.accounts.update(a, accounts[a]) == accounts);
    assert(disputed.log.update(t, log[t]) == log);
}

/// Once a dispute has been applied, a second dispute that names the same
/// transaction is refused with `TransactionIsAlreadyInDispute`, whoever makes
/// it. A refused record changes nothing, so the balances stay as the first
/// dispute left them.
pub proof fn lemma_second_dispute_refused(
    accounts: Seq<Account>,
    log: Seq<Transaction>,
    first: Transaction,
    second: Transaction,
)
    requires
        claim_outcome(Claim::Dispute, accounts, log, first) is Ok,
        second.tx_id == first.tx_id,
    ensures
        claim_outcome(Claim::Dispute, accounts, log, first) matches Ok(disputed) && claim_outcome(
            Claim::Dispute,
            disputed.accounts,
            disputed.log,
            second,
        ) == Err::<Books, MyErrors>(MyErrors::TransactionIsAlreadyInDispute),
{
    lemma_first_with_id(log, first.tx_id);
    let t = first_with_id(log, first.tx_id)->0;
    lemma_flag_keeps_position(log, t, true, first.tx_id);
}

/// A dispute, resolution or chargeback whose identifier no earlier record
/// carries is refused with `DisputeTransactionDoesNotExist`: the ledger is as
/// it was, and the record is in the log all the same.
pub proof fn lemma_step_refuses_unseen_target(books: Books, txn: Transaction)
    requires
        !is_payment(txn),
        first_with_id(books.log, txn.tx_id) is None,
    ensures
        record_outcome(books, txn) == (
            Books { accounts: books.accounts, log: books.log.push(txn) },
            Some(MyErrors::DisputeTransactionDoesNotExist),
        ),
{
}

/// The log of a run holds the records of the run, in their order; a record in
/// the log differs from the record that came in by its dispute flag at most.
pub proof fn lemma_run_keeps_records(records: Seq<Transaction>)
    ensures
        run(records).books.log.len() == records.len(),
        forall|i: int|
            0 <= i < records.len() ==> #[trigger] run(records).books.log[i] == records[i].flagged(
                run(records).books.log[i].in_dispute,
            ),
    decreases records.len(),
{
    if records.len() > 0 {
        lemma_run_keeps_records(records.drop_last());
        lemma_step_keeps_records(run(records.drop_last()).books, records.last());
    }
}

/// In a run, a dispute, resolution or chargeback at position `i` whose
/// identifier no record before it carries fails with
/// `DisputeTransactionDoesNotExist`: the failure is noted with the record,
/// and the ledger after the record is the ledger before it. The run goes on
/// from there with the next record.
pub proof fn lemma_run_refuses_unseen_target(records: Seq<Transaction>, i: int)
    requires
        0 <= i < records.len(),
        !is_payment(records[i]),
        forall|j: int| 0 <= j < i ==> records[j].tx_id != records[i].tx_id,
    ensures
        run(records.take(i + 1)).books.accounts == run(records.take(i)).books.accounts,
        run(records.take(i + 1)).failures == run(records.take(i)).failures.push(
            Failure { error: MyErrors::DisputeTransactionDoesNotExist, txn: records[i] },
        ),
{
    let before = records.take(i);
    let upto = records.take(i + 1);
    assert(upto.drop_last() == before);
    lemma_run_keeps_records(before);
    let log = run(before).books.log;
    lemma_first_with_id(log, records[i].tx_id);
    assert forall|j: int| 0 <= j < log.len() implies log[j].tx_id != records[i].tx_id by {
        assert(log[j] == before[j].flagged(log[j].in_dispute));
    }
    lemma_step_refuses_unseen_target(run(before).books, records[i]);
}

/// A claim whose target is itself a dispute, a resolution or a chargeback is
/// never applied, and the amount of such a target plays no part: the claim
/// fails on the target's dispute state, else on the account, else on the
/// target's type.
///
/// `t` is the position of the target in the log.
pub proof fn lemma_claim_on_a_claim(
    kind: Claim,
    accounts: Seq<Account>,
    log: Seq<Transaction>,
    t: int,
    txn: Transaction,
)
    requires
        first_with_id(log, txn.tx_id) == Some(t),
        !is_payment(log[t]),
    ensures
        claim_outcome(kind, accounts, log, txn) == Err::<Books, MyErrors>(
            if log[t].in_dispute != needs_disputed(kind) {
                wrong_state(kind)
            } else if first_in_dispute(accounts, txn.client, log[t].client) is None {
                MyErrors::AccountDoesNotExist
            } else {
                wrong_target(kind)
            },
        ),
{
}

/// Once a step of the engine has applied a dispute, a later step with a
/// dispute of the same identifier is refused with
/// `TransactionIsAlreadyInDispute`, whoever makes it, and leaves the ledger
/// as the first dispute left it.
pub proof fn lemma_step_refuses_second_dispute(
    books: Books,
    first: Transaction,
    second: Transaction,
)
    requires
        first.tx_type is Dispute,
        second.tx_type is Dispute,
        second.tx_id == first.tx_id,
        record_outcome(books, first).1 is None,
    ensures
        record_outcome(record_outcome(books, first).0, second) == (
            Books {
                accounts: record_outcome(books, first).0.accounts,
                log: record_outcome(books, first).0.log.push(second),
            },
            Some(MyErrors::TransactionIsAlreadyInDispute),
        ),
{
    let id = first.tx_id;
    lemma_first_with_id(books.log, id);
    let t = first_with_id(books.log, id)->0;
    let flagged = books.log.update(t, books.log[t].flagged(true));
    lemma_flag_keeps_position(books.log, t, true, id);
    lemma_first_with_id(flagged, id);
    lemma_first_with_id(flagged.push(first), id);
    assert(is_first_with_id(flagged.push(first), id, t));
}

/// Charging back a deposit or withdrawal under dispute, by the client that
/// made it, takes its amount out of what is held and out of the total, locks
/// the account and ends the dispute. Nothing else changes: what was
/// available, every other account, and every field of every record but the
/// target's dispute flag are as before.
///
/// This is stated for the accounts whose new balances are in range; for the
/// others the chargeback is refused and nothing changes. `t` is the position
/// of the target in the log and `a` that of the account.
pub proof fn lemma_chargeback_of_disputed_payment(
    accounts: Seq<Account>,
    log: Seq<Transaction>,
    t: int,
    a: int,
    charging: Transaction,
)
    requires
        first_with_id(log, charging.tx_id) == Some(t),
        is_payment(log[t]),
        log[t].amount is Some,
        log[t].in_dispute,
        log[t].client == charging.client,
        first_for_client(accounts, charging.client) == Some(a),
        in_range(accounts[a].held - log[t].amount->0),
        in_range(accounts[a].total - log[t].amount->0),
    ensures
        claim_outcome(Claim::Chargeback, accounts, log, charging) == Ok::<Books, MyErrors>(
            Books {
                accounts: accounts.update(
                    a,
                    Account {
                        client: accounts[a].client,
                        available: accounts[a].available,
                        held: (accounts[a].held - log[t].amount->0) as i64,
                        total: (accounts[a].total - log[t].amount->0) as i64,
                        locked: true,
                    },
                ),
                log: log.update(t, log[t].flagged(false)),
            },
        ),
{
    lemma_first_with_id(log, charging.tx_id);
    lemma_first_for_client(accounts, charging.client);
}

/// Charging back a deposit under dispute whose amount is all that its client
/// has, all of it held, empties the account and locks it: nothing is held,
/// the total is nothing, what was available is untouched, and the deposit is
/// no longer under dispute. This is `lemma_chargeback_of_disputed_payment`
/// for one account, for which no balance can leave the range.
///
/// `t` is the position of the deposit in the log and `a` that of the account.
pub proof fn lemma_chargeback_of_disputed_deposit(
    accounts: Seq<Account>,
    log: Seq<Transaction>,
    t: int,
    a: int,
    charging: Transaction,
)
    requires
        first_with_id(log, charging.tx_id) == Some(t),
        log[t].tx_type is Deposit,
        log[t].amount is Some,
        log[t].in_dispute,
        log[t].client == charging.client,
        first_for_client(accounts, charging.client) == Some(a),
        accounts[a].held == log[t].amount->0,
        accounts[a].total == log[t].amount->0,
    ensures
        claim_outcome(Claim::Chargeback, accounts, log, charging) == Ok::<Books, MyErrors>(
            Books {
                accounts: accounts.update(
                    a,
                    Account {
                        client: accounts[a].client,
                        available: accounts[a].available,
                        held: 0,
                        total: 0,
                        locked: true,
                    },
                ),
                log: log.update(t, log[t].flagged(false)),
            },
        ),
{
    lemma_chargeback_of_disputed_payment(accounts, log, t, a, charging);
}

/// Setting the dispute flag of a record does not change which record an
/// identifier refers to.
proof fn lemma_flag_keeps_position(log: Seq<Transaction>, t: int, flag: bool, tx_id: u32)
    requires
        0 <= t < log.len(),
    ensures
        first_with_id(log.update(t, log[t].flagged(flag)), tx_id) == first_with_id(log, tx_id),
{
    let after = log.update(t, log[t].flagged(flag));
    lemma_first_with_id(log, tx_id);
    lemma_first_with_id(after, tx_id);
    match first_with_id(log, tx_id) {
        Some(i) => {
            assert(is_first_with_id(after, tx_id, i));
        },
        None => {},
    }
}

/// Replacing an account by one of the same client does not change which
/// account a client's name refers to.
proof fn lemma_balances_keep_position(
    accounts: Seq<Account>,
    a: int,
    account: Account,
    client: u16,
)
    requires
        0 <= a < accounts.len(),
        account.client == accounts[a].client,
    ensures
        first_for_client(accounts.update(a, account), client) == first_for_client(accounts, client),
{
    let after = accounts.update(a, account);
    lemma_first_for_client(accounts, client);
    lemma_first_for_client(after, client);
    match first_for_client(accounts, client) {
        Some(i) => {
            assert(is_first_for_client(after, client, i));
        },
        None => {},
    }
}

} // verus!
