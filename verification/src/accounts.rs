//! Per-client balances and the ledger that holds them.
//!
//! The ledger keeps its accounts in the order in which they were opened. It
//! never checks that a client has one account only: a lookup by client always
//! answers with the earliest account of that client.

use vstd::prelude::*;
use crate::errors::MyErrors;

verus! {

/// The balances of one client, in signed counts of the smallest currency unit.
///
/// `client` is set when the account is opened. The engine never writes it
/// again, and a caller that holds a handle on the account must not either:
/// the ledger finds accounts by it.
#[derive(Debug, Clone, Copy, PartialEq, Eq)]
pub struct Account {
    pub client: u16,
    pub available: i64,
    pub held: i64,
    pub total: i64,
    pub locked: bool,
}

/// Signed changes to the three balances of an account, and whether the change
/// locks the account.
pub struct Movement {
    pub available: int,
    pub held: int,
    pub total: int,
    pub locks: bool,
}

/// Whether `v` can be stored as a balance.
pub open spec fn in_range(v: int) -> bool {
    i64::MIN <= v <= i64::MAX
}

impl Account {
    /// The total is the sum of what is available and what is held.
    pub open spec fn balanced(self) -> bool {
        self.total == self.available + self.held
    }

    /// The account that a first deposit of `amount` opens for `client`.
    pub open spec fn opened(client: u16, amount: i64) -> Account {
        Account { client, available: amount, held: 0, total: amount, locked: false }
    }

    /// The account after `m`, or `None` where a balance would leave the range
    /// of `i64`. A lock, once set, stays.
    pub open spec fn moved(self, m: Movement) -> Option<Account> {
        if in_range(self.available + m.available) && in_range(self.held + m.held) && in_range(
            self.total + m.total,
        ) {
            Some(
                Account {
                    client: self.client,
                    available: (self.available + m.available) as i64,
                    held: (self.held + m.held) as i64,
                    total: (self.total + m.total) as i64,
                    locked: self.locked || m.locks,
                },
            )
        } else {
            None
        }
    }
}

/// Every account of the ledger is balanced.
pub open spec fn all_balanced(accounts: Seq<Account>) -> bool {
    forall|i: int| 0 <= i < accounts.len() ==> (#[trigger] accounts[i]).balanced()
}

/// No two accounts of the ledger belong to the same client.
pub open spec fn one_account_per_client(accounts: Seq<Account>) -> bool {
    forall|i: int, j: int|
        #![trigger accounts[i], accounts[j]]
        0 <= i < j < accounts.len() ==> accounts[i].client != accounts[j].client
}

/// Whether `i` is the position of the earliest account of `client`.
pub open spec fn is_first_for_client(accounts: Seq<Account>, client: u16, i: int) -> bool {
    &&& 0 <= i < accounts.len()
    &&& accounts[i].client == client
    &&& forall|j: int| 0 <= j < i ==> accounts[j].client != client
}

/// The position of the earliest account of `client`, if the client has one.
pub open spec fn first_for_client(accounts: Seq<Account>, client: u16) -> Option<int> {
    if exists|i: int| is_first_for_client(accounts, client, i) {
        Some(choose|i: int| is_first_for_client(accounts, client, i))
    } else {
        None
    }
}

/// The position of the account that a dispute may touch: the earliest account
/// of `client`, and only where `client` is also the client of the disputed
/// record.
pub open spec fn first_in_dispute(
    accounts: Seq<Account>,
    client: u16,
    disputed_client: u16,
) -> Option<int> {
    if client == disputed_client {
        first_for_client(accounts, client)
    } else {
        None
    }
}

/// The ledger after `amount` is deposited for `client`: the earliest account
/// of the client grows in what is available and in total, or, where the client
/// has none, a new account is opened at the end.
pub open spec fn credited(accounts: Seq<Account>, client: u16, amount: i64) -> Result<
    Seq<Account>,
    MyErrors,
> {
    match first_for_client(accounts, client) {
        None => Ok(accounts.push(Account::opened(client, amount))),
        Some(i) => match accounts[i].moved(
            Movement { available: amount as int, held: 0, total: amount as int, locks: false },
        ) {
            Some(account) => Ok(accounts.update(i, account)),
            None => Err(MyErrors::BalanceOutOfRange),
        },
    }
}

/// Among the first `n` accounts, either one belongs to `client`, and then an
/// earliest one exists, or none does.
proof fn lemma_earliest_exists(accounts: Seq<Account>, client: u16, n: int)
    requires
        0 <= n <= accounts.len(),
    ensures
        (exists|i: int| i < n && is_first_for_client(accounts, client, i))
            || (forall|j: int| 0 <= j < n ==> accounts[j].client != client),
    decreases n,
{
    if n > 0 {
        lemma_earliest_exists(accounts, client, n - 1);
        if forall|j: int| 0 <= j < n - 1 ==> accounts[j].client != client {
            if accounts[n - 1].client == client {
                assert(is_first_for_client(accounts, client, n - 1));
            }
        }
    }
}

/// `first_for_client` answers `Some(i)` exactly for the earliest position that
/// belongs to the client, and `None` exactly when the client has no account.
pub proof fn lemma_first_for_client(accounts: Seq<Account>, client: u16)
    ensures
        forall|i: int|
            is_first_for_client(accounts, client, i) <==> first_for_client(accounts, client)
                == Some(i),
        first_for_client(accounts, client) is None <==> (forall|j: int|
            0 <= j < accounts.len() ==> accounts[j].client != client),
{
    lemma_earliest_exists(accounts, client, accounts.len() as int);
}

/// The collection of all accounts, in the order in which they were opened.
#[derive(Debug)]
pub struct Accounts {
    accounts: Vec<Account>,
}

impl View for Accounts {
    type V = Seq<Account>;

    /// The accounts in the order in which they were opened.
    closed spec fn view(&self) -> Seq<Account> {
        self.accounts@
    }
}

impl Accounts {
    /// A ledger without accounts.
    pub fn new() -> (ledger: Accounts)
        ensures
            ledger@ == Seq::<Account>::empty(),
    {
        Accounts { accounts: Vec::new() }
    }

    /// Opens an account for `client_id` that holds `amount`, all of it
    /// available. Whether the client already has an account is not looked at.
    pub fn create(&mut self, client_id: u16, amount: i64)
        ensures
            final(self)@ == old(self)@.push(Account::opened(client_id, amount)),
            all_balanced(old(self)@) ==> all_balanced(final(self)@),
    {
        self.accounts.push(
            Account { client: client_id, available: amount, held: 0, total: amount, locked: false },
        );
    }

    /// A handle on the earliest account of `client_id`.
    ///
    /// Whatever the caller writes through the handle replaces that account and
    /// nothing else. Without such an account the ledger stays as it is and the
    /// answer is `AccountDoesNotExist`.
    pub fn find(&mut self, client_id: u16) -> (found: Result<&mut Account, MyErrors>)
        ensures
            match found {
                Ok(account) => {
                    &&& first_for_client(old(self)@, client_id) matches Some(i)
                    &&& *account == old(self)@[i]
                    &&& final(self)@ == old(self)@.update(i, *final(account))
                },
                Err(e) => {
                    &&& first_for_client(old(self)@, client_id) is None
                    &&& e == MyErrors::AccountDoesNotExist
                    &&& final(self)@ == old(self)@
                },
            },
    {
        proof {
            lemma_first_for_client(self@, client_id);
        }
        let mut i: usize = 0;
        while i < self.accounts.len()
            invariant
                i <= self.accounts.len(),
                self.accounts@ == old(self).accounts@,
                forall|j: int| 0 <= j < i ==> self.accounts@[j].client != client_id,
            decreases self.accounts.len() - i,
        {
            if self.accounts[i].client == client_id {
                assert(is_first_for_client(old(self)@, client_id, i as int));
                return Ok(&mut self.accounts[i]);
            }
            i += 1;
        }
        Err(MyErrors::AccountDoesNotExist)
    }

    /// A handle on the account that a dispute may touch: the earliest account
    /// of `client_id`, and only where the disputed record names the same
    /// client. Otherwise the answer is `AccountDoesNotExist`.
    pub fn find_in_dispute(&mut self, client_id: u16, client_id_in_dispute: u16) -> (found: Result<
        &mut Account,
        MyErrors,
    >)
        ensures
            match found {
                Ok(account) => {
                    &&& first_in_dispute(old(self)@, client_id, client_id_in_dispute) matches Some(
                        i,
                    )
                    &&& *account == old(self)@[i]
                    &&& final(self)@ == old(self)@.update(i, *final(account))
                },
                Err(e) => {
                    &&& first_in_dispute(old(self)@, client_id, client_id_in_dispute) is None
                    &&& e == MyErrors::AccountDoesNotExist
                    &&& final(self)@ == old(self)@
                },
            },
    {
        if client_id != client_id_in_dispute {
            return Err(MyErrors::AccountDoesNotExist);
        }
        self.find(client_id)
    }

    /// Adds `amount` to what the client has available and in total, and opens
    /// an account where the client has none. A deposit that would carry a
    /// balance out of range is refused and changes nothing.
    pub fn deposit(&mut self, client_id: u16, amount: i64) -> (res: Result<(), MyErrors>)
        ensures
            match credited(old(self)@, client_id, amount) {
                Ok(accounts) => res is Ok && final(self)@ == accounts,
                Err(e) => res == Err::<(), MyErrors>(e) && final(self)@ == old(self)@,
            },
            all_balanced(old(self)@) ==> all_balanced(final(self)@),
    {
        match self.find(client_id) {
            Ok(account) => {
                match (account.available.checked_add(amount), account.total.checked_add(amount)) {
                    (Some(available), Some(total)) => {
                        account.available = available;
                        account.total = total;
                        Ok(())
                    },
                    _ => Err(MyErrors::BalanceOutOfRange),
                }
            },
            Err(_) => {
                self.create(client_id, amount);
                Ok(())
            },
        }
    }

    /// One row per account, in the order in which the accounts were opened.
    pub fn rows(&self) -> (rows: &[Account])
        ensures
            rows@ == self@,
    {
        self.accounts.as_slice()
    }
}

} // verus!
