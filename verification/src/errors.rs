//! The closed set of failures that the engine reports.

use vstd::prelude::*;

verus! {

/// Every way in which a run, a single record or the final rendering can fail.
#[derive(Debug, Clone, Copy, PartialEq, Eq, Structural)]
pub enum MyErrors {
    /// The invocation named no input source.
    NotEnoughArguments,
    /// No account is held for the client that the record names.
    AccountDoesNotExist,
    /// A record that needs an amount carries none.
    TransactionAmountIsNone,
    /// A withdrawal asks for more than the account has available.
    CannotWithdrawMoreThanBalance,
    /// The target of a dispute is already under dispute.
    TransactionIsAlreadyInDispute,
    /// No recorded transaction carries the identifier that the record refers to.
    DisputeTransactionDoesNotExist,
    /// The target of a dispute is neither a deposit nor a withdrawal.
    CannotDisputeThisTransactionType,
    /// The target of a resolution is neither a deposit nor a withdrawal.
    CannotResolveThisTransactionType,
    /// The target of a chargeback is neither a deposit nor a withdrawal.
    CannotChargebackThisTransactionType,
    /// The target of a resolution or chargeback is not under dispute.
    TransactionIsNotInDispute,
    /// A row of the final snapshot could not be encoded.
    CannotSerializeAccount,
    /// Applying the record would carry a balance out of the range of a
    /// signed 64-bit count of minor units.
    BalanceOutOfRange,
}

} // verus!
