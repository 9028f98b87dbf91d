use std::collections::HashMap;
use vstd::prelude::*;

verus! {

broadcast use vstd::std_specs::hash::group_hash_axioms;

pub type AccountId = u64;

pub type Balance = u128;

/// A reservation that the ledger refused: the account's free balance is too small.
#[derive(Clone, Copy, Debug, PartialEq, Eq, Structural)]
pub struct InsufficientBalance;

/// What is left reserved after taking `amount` off `reserved`: never below zero.
pub open spec fn after_unreserve(reserved: nat, amount: nat) -> nat {
    if reserved >= amount {
        (reserved - amount) as nat
    } else {
        0
    }
}

/// An account ledger that can hold part of a balance in reserve.
pub trait Ledger: Sized {
    /// The ledger's own consistency condition.
    spec fn valid(&self) -> bool;

    /// The amount that `who` can spend.
    spec fn free(&self, who: AccountId) -> nat;

    /// The amount held in reserve for `who`.
    spec fn reserved(&self, who: AccountId) -> nat;

    /// Whether `reserve(who, amount)` succeeds in this state.
    spec fn can_reserve(&self, who: AccountId, amount: Balance) -> bool;

    /// Moves `amount` of `who`'s balance into reserve, or changes nothing and fails.
    fn reserve(&mut self, who: AccountId, amount: Balance) -> (r: Result<(), InsufficientBalance>)
        requires
            old(self).valid(),
        ensures
            final(self).valid(),
            r is Ok <==> old(self).can_reserve(who, amount),
            r is Ok ==> final(self).reserved(who) == old(self).reserved(who) + amount,
            r is Ok ==> final(self).free(who) + amount == old(self).free(who),
            r is Ok ==> forall|a: AccountId|
                a != who ==> #[trigger] final(self).reserved(a) == old(self).reserved(a),
            r is Ok ==> forall|a: AccountId|
                a != who ==> #[trigger] final(self).free(a) == old(self).free(a),
            r is Err ==> *final(self) == *old(self),
    ;

    /// Releases up to `amount` of `who`'s reserve; never fails.
    fn unreserve(&mut self, who: AccountId, amount: Balance)
        requires
            old(self).valid(),
        ensures
            final(self).valid(),
            final(self).reserved(who) == after_unreserve(old(self).reserved(who), amount as nat),
            final(self).free(who) + final(self).reserved(who) == old(self).free(who) + old(
                self,
            ).reserved(who),
            forall|a: AccountId|
                a != who ==> #[trigger] final(self).reserved(a) == old(self).reserved(a),
            forall|a: AccountId| a != who ==> #[trigger] final(self).free(a) == old(self).free(a),
    ;
}

/// The balances of one account: what it can spend, and what is held in reserve.
#[derive(Clone, Copy, Debug, PartialEq, Eq, Structural)]
pub struct AccountData {
    pub free: Balance,
    pub reserved: Balance,
}

/// A ledger held in memory.
pub struct MemoryLedger {
    accounts: HashMap<AccountId, AccountData>,
}

impl MemoryLedger {
    /// The account data of `who`; zero for an account never seen.
    pub closed spec fn account(&self, who: AccountId) -> AccountData {
        if self.accounts@.contains_key(who) {
            self.accounts@[who]
        } else {
            AccountData { free: 0, reserved: 0 }
        }
    }

    /// An empty ledger: every account has nothing.
    pub fn new() -> (r: MemoryLedger)
        ensures
            r.valid(),
            forall|a: AccountId| #[trigger] r.account(a) == (AccountData { free: 0, reserved: 0 }),
    {
        MemoryLedger { accounts: HashMap::new() }
    }

    fn get_account(&self, who: AccountId) -> (r: AccountData)
        ensures
            r == self.account(who),
    {
        match self.accounts.get(&who) {
            Some(data) => *data,
            None => AccountData { free: 0, reserved: 0 },
        }
    }

    /// Sets the free balance of `who`; fails, changing nothing, where free and reserved
    /// together would not fit in a `Balance`.
    pub fn set_free_balance(&mut self, who: AccountId, free: Balance) -> (r: bool)
        requires
            old(self).valid(),
        ensures
            final(self).valid(),
            r == (free as int + old(self).account(who).reserved <= Balance::MAX),
            r ==> final(self).account(who) == (AccountData {
                free,
                reserved: old(self).account(who).reserved,
            }),
            !r ==> final(self).account(who) == old(self).account(who),
            forall|a: AccountId| a != who ==> #[trigger] final(self).account(a) == old(self).account(a),
    {
        let data = self.get_account(who);
        if free > Balance::MAX - data.reserved {
            return false;
        }
        self.accounts.insert(who, AccountData { free, reserved: data.reserved });
        true
    }

    /// The free balance of `who`.
    pub fn free_balance(&self, who: AccountId) -> (r: Balance)
        ensures
            r == self.account(who).free,
            r == self.free(who),
    {
        self.get_account(who).free
    }

    /// The reserved balance of `who`.
    pub fn reserved_balance(&self, who: AccountId) -> (r: Balance)
        ensures
            r == self.account(who).reserved,
            r == self.reserved(who),
    {
        self.get_account(who).reserved
    }
}

impl Ledger for MemoryLedger {
    closed spec fn valid(&self) -> bool {
        forall|a: AccountId|
            #[trigger] self.accounts@.contains_key(a) ==> self.accounts@[a].free as int
                + self.accounts@[a].reserved as int <= Balance::MAX
    }

    open spec fn free(&self, who: AccountId) -> nat {
        self.account(who).free as nat
    }

    open spec fn reserved(&self, who: AccountId) -> nat {
        self.account(who).reserved as nat
    }

    open spec fn can_reserve(&self, who: AccountId, amount: Balance) -> bool {
        self.account(who).free >= amount
    }

    fn reserve(&mut self, who: AccountId, amount: Balance) -> (r: Result<(), InsufficientBalance>) {
        let data = self.get_account(who);
        if data.free < amount {
            return Err(InsufficientBalance);
        }
        self.accounts.insert(
            who,
            AccountData { free: data.free - amount, reserved: data.reserved + amount },
        );
        Ok(())
    }

    fn unreserve(&mut self, who: AccountId, amount: Balance) {
        let data = self.get_account(who);
        let actual = if data.reserved < amount {
            data.reserved
        } else {
            amount
        };
        self.accounts.insert(
            who,
            AccountData { free: data.free + actual, reserved: data.reserved - actual },
        );
    }
}

} // verus!
