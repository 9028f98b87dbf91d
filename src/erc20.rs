use std::collections::HashMap;
use vstd::prelude::*;

use crate::ledger::{AccountId, Balance};

verus! {

broadcast use vstd::std_specs::hash::group_hash_axioms;

/// Why a token operation was rejected. A rejected operation changes nothing.
#[derive(Clone, Copy, Debug, PartialEq, Eq, Structural)]
pub enum Error {
    /// The account holds fewer tokens than asked for.
    InsufficientBalance,
    /// The spender may move fewer tokens than asked for.
    InsufficientAllowance,
    /// Only the account that created the token may issue more.
    InvalidIssuer,
}

/// Tokens moved; `from` is `None` where they were minted, `to` is `None` where they were burnt.
#[derive(Clone, Copy, Debug, PartialEq, Eq, Structural)]
pub struct Transfer {
    pub from: Option<AccountId>,
    pub to: Option<AccountId>,
    pub value: Balance,
}

/// `owner` allowed `spender` to move up to `value` of its tokens.
#[derive(Clone, Copy, Debug, PartialEq, Eq, Structural)]
pub struct Approval {
    pub owner: AccountId,
    pub spender: AccountId,
    pub value: Balance,
}

/// What the token reports of each change.
#[derive(Clone, Copy, Debug, PartialEq, Eq, Structural)]
pub enum Erc20Event {
    Transfer(Transfer),
    Approval(Approval),
}

/// A fungible token: balances, allowances, and the account that may issue more.
pub struct Erc20 {
    total_supply: Balance,
    balances: HashMap<AccountId, Balance>,
    allowances: HashMap<AccountId, HashMap<AccountId, Balance>>,
    issuer: AccountId,
    events: Vec<Erc20Event>,
}

/// The balance recorded for `who` in `m`; zero where none is.
pub open spec fn balance_in(m: Map<AccountId, Balance>, who: AccountId) -> Balance {
    if m.contains_key(who) {
        m[who]
    } else {
        0
    }
}

/// The balances after `value` was taken from `from` and then added to `to`.
pub open spec fn moved(
    m: Map<AccountId, Balance>,
    from: AccountId,
    to: AccountId,
    value: Balance,
) -> Map<AccountId, Balance> {
    let debited = m.insert(from, (balance_in(m, from) - value) as Balance);
    debited.insert(to, (balance_in(debited, to) + value) as Balance)
}

/// The allowance recorded in `m` for `spender` over `owner`'s tokens; zero where none is.
spec fn allowance_in(
    m: Map<AccountId, HashMap<AccountId, Balance>>,
    owner: AccountId,
    spender: AccountId,
) -> Balance {
    if m.contains_key(owner) {
        balance_in(m[owner]@, spender)
    } else {
        0
    }
}

impl Erc20 {
    /// The total supply.
    pub closed spec fn supply(&self) -> Balance {
        self.total_supply
    }

    /// The recorded balances.
    pub closed spec fn balances_map(&self) -> Map<AccountId, Balance> {
        self.balances@
    }

    /// The amount `spender` may still move of `owner`'s tokens.
    pub closed spec fn allowance_of(&self, owner: AccountId, spender: AccountId) -> Balance {
        allowance_in(self.allowances@, owner, spender)
    }

    /// The account that may issue tokens.
    pub closed spec fn issuer_id(&self) -> AccountId {
        self.issuer
    }

    /// Everything reported so far, oldest first.
    pub closed spec fn event_log(&self) -> Seq<Erc20Event> {
        self.events@
    }

    /// A token whose whole supply `total_supply` belongs to `caller`, who becomes its issuer.
    pub fn new(caller: AccountId, total_supply: Balance) -> (r: Erc20)
        ensures
            r.supply() == total_supply,
            r.balances_map() == Map::<AccountId, Balance>::empty().insert(caller, total_supply),
            forall|o: AccountId, s: AccountId| #[trigger] r.allowance_of(o, s) == 0,
            r.issuer_id() == caller,
            r.event_log() == seq![
                Erc20Event::Transfer(Transfer { from: None, to: Some(caller), value: total_supply }),
            ],
    {
        let mut balances = HashMap::new();
        balances.insert(caller, total_supply);
        let mut events = Vec::new();
        events.push(Erc20Event::Transfer(Transfer { from: None, to: Some(caller), value: total_supply }));
        Erc20 { total_supply, balances, allowances: HashMap::new(), issuer: caller, events }
    }

    /// The total supply.
    pub fn total_supply(&self) -> (r: Balance)
        ensures
            r == self.supply(),
    {
        self.total_supply
    }

    /// The balance of `owner`; zero for an account never seen.
    pub fn balance_of(&self, owner: AccountId) -> (r: Balance)
        ensures
            r == balance_in(self.balances_map(), owner),
    {
        self.balance_of_or_zero(&owner)
    }

    /// Everything reported so far, oldest first.
    pub fn events(&self) -> (r: &Vec<Erc20Event>)
        ensures
            r@ == self.event_log(),
    {
        &self.events
    }

    /// The amount `spender` may still move of `owner`'s tokens.
    pub fn allowance(&self, owner: AccountId, spender: AccountId) -> (r: Balance)
        ensures
            r == self.allowance_of(owner, spender),
    {
        self.allowance_of_or_zero(&owner, &spender)
    }

    /// Moves `value` of `caller`'s tokens to `to`.
    pub fn transfer(&mut self, caller: AccountId, to: AccountId, value: Balance) -> (r: Result<
        (),
        Error,
    >)
        requires
            balance_in(old(self).balances_map(), caller) >= value && caller != to ==> balance_in(
                old(self).balances_map(),
                to,
            ) + value <= Balance::MAX,
        ensures
            balance_in(old(self).balances_map(), caller) < value ==> r == Err::<(), Error>(
                Error::InsufficientBalance,
            ) && *final(self) == *old(self),
            balance_in(old(self).balances_map(), caller) >= value ==> r is Ok && Self::moved_by(
                *old(self),
                *final(self),
                caller,
                to,
                value,
            ),
    {
        self.transfer_from_to(caller, to, value)
    }

    /// Allows `spender` to move up to `value` of `caller`'s tokens, in place of any earlier
    /// allowance.
    pub fn approve(&mut self, caller: AccountId, spender: AccountId, value: Balance) -> (r: Result<
        (),
        Error,
    >)
        ensures
            r is Ok,
            final(self).allowance_of(caller, spender) == value,
            forall|o: AccountId, s: AccountId|
                (o, s) != (caller, spender) ==> #[trigger] final(self).allowance_of(o, s) == old(self).allowance_of(o, s),
            final(self).supply() == old(self).supply(),
            final(self).balances_map() == old(self).balances_map(),
            final(self).issuer_id() == old(self).issuer_id(),
            final(self).event_log() == old(self).event_log().push(
                Erc20Event::Approval(Approval { owner: caller, spender, value }),
            ),
    {
        self.set_allowance(caller, spender, value);
        self.events.push(Erc20Event::Approval(Approval { owner: caller, spender, value }));
        Ok(())
    }

    /// Moves `value` of `from`'s tokens to `to` on behalf of `caller`, spending `caller`'s
    /// allowance.
    pub fn transfer_from(
        &mut self,
        caller: AccountId,
        from: AccountId,
        to: AccountId,
        value: Balance,
    ) -> (r: Result<(), Error>)
        requires
            balance_in(old(self).balances_map(), from) >= value && from != to ==> balance_in(
                old(self).balances_map(),
                to,
            ) + value <= Balance::MAX,
        ensures
            old(self).allowance_of(from, caller) < value ==> r == Err::<(), Error>(
                Error::InsufficientAllowance,
            ) && *final(self) == *old(self),
            old(self).allowance_of(from, caller) >= value && balance_in(
                old(self).balances_map(),
                from,
            ) < value ==> r == Err::<(), Error>(Error::InsufficientBalance) && *final(self) == *old(self),
            old(self).allowance_of(from, caller) >= value && balance_in(
                old(self).balances_map(),
                from,
            ) >= value ==> {
                &&& r is Ok
                &&& final(self).supply() == old(self).supply()
                &&& final(self).balances_map() == moved(old(self).balances_map(), from, to, value)
                &&& final(self).issuer_id() == old(self).issuer_id()
                &&& final(self).allowance_of(from, caller) == old(self).allowance_of(from, caller)
                    - value
                &&& forall|o: AccountId, s: AccountId|
                    (o, s) != (from, caller) ==> #[trigger] final(self).allowance_of(o, s) == old(self).allowance_of(o, s)
                &&& final(self).event_log() == old(self).event_log().push(
                    Erc20Event::Transfer(Transfer { from: Some(from), to: Some(to), value }),
                )
            },
    {
        let allowance = self.allowance_of_or_zero(&from, &caller);
        if allowance < value {
            return Err(Error::InsufficientAllowance);
        }
        match self.transfer_from_to(from, to, value) {
            Ok(()) => {},
            Err(e) => return Err(e),
        }
        let ghost mid = *self;
        self.set_allowance(from, caller, allowance - value);
        proof {
            assert forall|o: AccountId, s: AccountId|
                (o, s) != (from, caller) implies #[trigger] self.allowance_of(o, s) == old(
                self).allowance_of(o, s) by {
                assert(mid.allowance_of(o, s) == old(self).allowance_of(o, s));
            }
        }
        Ok(())
    }

    /// Creates `value` new tokens. The issuer's balance becomes the new total supply.
    pub fn issue(&mut self, caller: AccountId, value: Balance) -> (r: Result<(), Error>)
        requires
            caller == old(self).issuer_id() ==> old(self).supply() + value <= Balance::MAX,
        ensures
            caller != old(self).issuer_id() ==> r == Err::<(), Error>(Error::InvalidIssuer) && *final(self) == *old(self),
            caller == old(self).issuer_id() ==> {
                &&& r is Ok
                &&& final(self).supply() == old(self).supply() + value
                &&& final(self).balances_map() == old(self).balances_map().insert(
                    caller,
                    (old(self).supply() + value) as Balance,
                )
                &&& final(self).issuer_id() == old(self).issuer_id()
                &&& forall|o: AccountId, s: AccountId| #[trigger] final(self).allowance_of(o, s) == old(self).allowance_of(o, s)
                &&& final(self).event_log() == old(self).event_log().push(
                    Erc20Event::Transfer(Transfer { from: None, to: Some(caller), value }),
                )
            },
    {
        if caller != self.issuer {
            return Err(Error::InvalidIssuer);
        }
        let new_total_supply = self.total_supply + value;
        self.total_supply = new_total_supply;
        self.balances.insert(caller, new_total_supply);
        self.events.push(Erc20Event::Transfer(Transfer { from: None, to: Some(caller), value }));
        Ok(())
    }

    /// Destroys `value` of `caller`'s tokens. The caller's balance becomes the new total supply.
    pub fn burn(&mut self, caller: AccountId, value: Balance) -> (r: Result<(), Error>)
        requires
            balance_in(old(self).balances_map(), caller) >= value ==> value <= old(self).supply(),
        ensures
            balance_in(old(self).balances_map(), caller) < value ==> r == Err::<(), Error>(
                Error::InsufficientBalance,
            ) && *final(self) == *old(self),
            balance_in(old(self).balances_map(), caller) >= value ==> {
                &&& r is Ok
                &&& final(self).supply() == old(self).supply() - value
                &&& final(self).balances_map() == old(self).balances_map().insert(
                    caller,
                    (old(self).supply() - value) as Balance,
                )
                &&& final(self).issuer_id() == old(self).issuer_id()
                &&& forall|o: AccountId, s: AccountId| #[trigger] final(self).allowance_of(o, s) == old(self).allowance_of(o, s)
                &&& final(self).event_log() == old(self).event_log().push(
                    Erc20Event::Transfer(Transfer { from: Some(caller), to: None, value }),
                )
            },
    {
        let caller_balance = self.balance_of_or_zero(&caller);
        if caller_balance < value {
            return Err(Error::InsufficientBalance);
        }
        self.balances.insert(caller, caller_balance - value);
        let new_total_supply = self.total_supply - value;
        self.total_supply = new_total_supply;
        self.balances.insert(caller, new_total_supply);
        self.events.push(Erc20Event::Transfer(Transfer { from: Some(caller), to: None, value }));
        proof {
            assert(self.balances@ == old(self).balances@.insert(caller, new_total_supply));
        }
        Ok(())
    }

    /// The effect of moving `value` from `from` to `to`: balances moved, a transfer reported,
    /// nothing else changed.
    pub open spec fn moved_by(
        pre: Erc20,
        post: Erc20,
        from: AccountId,
        to: AccountId,
        value: Balance,
    ) -> bool {
        &&& post.supply() == pre.supply()
        &&& post.balances_map() == moved(pre.balances_map(), from, to, value)
        &&& post.issuer_id() == pre.issuer_id()
        &&& forall|o: AccountId, s: AccountId| #[trigger] post.allowance_of(o, s) == pre.allowance_of(o, s)
        &&& post.event_log() == pre.event_log().push(
            Erc20Event::Transfer(Transfer { from: Some(from), to: Some(to), value }),
        )
    }

    fn transfer_from_to(&mut self, from: AccountId, to: AccountId, value: Balance) -> (r: Result<
        (),
        Error,
    >)
        requires
            balance_in(old(self).balances_map(), from) >= value && from != to ==> balance_in(
                old(self).balances_map(),
                to,
            ) + value <= Balance::MAX,
        ensures
            balance_in(old(self).balances_map(), from) < value ==> r == Err::<(), Error>(
                Error::InsufficientBalance,
            ) && *final(self) == *old(self),
            balance_in(old(self).balances_map(), from) >= value ==> r is Ok && Self::moved_by(
                *old(self),
                *final(self),
                from,
                to,
                value,
            ),
    {
        let from_balance = self.balance_of_or_zero(&from);
        if from_balance < value {
            return Err(Error::InsufficientBalance);
        }
        self.balances.insert(from, from_balance - value);
        let to_balance = self.balance_of_or_zero(&to);
        self.balances.insert(to, to_balance + value);
        self.events.push(Erc20Event::Transfer(Transfer { from: Some(from), to: Some(to), value }));
        Ok(())
    }

    fn balance_of_or_zero(&self, owner: &AccountId) -> (r: Balance)
        ensures
            r == balance_in(self.balances@, *owner),
    {
        match self.balances.get(owner) {
            Some(b) => *b,
            None => 0,
        }
    }

    fn allowance_of_or_zero(&self, owner: &AccountId, spender: &AccountId) -> (r: Balance)
        ensures
            r == self.allowance_of(*owner, *spender),
    {
        match self.allowances.get(owner) {
            Some(inner) => match inner.get(spender) {
                Some(v) => *v,
                None => 0,
            },
            None => 0,
        }
    }

    fn set_allowance(&mut self, owner: AccountId, spender: AccountId, value: Balance)
        ensures
            final(self).allowance_of(owner, spender) == value,
            forall|o: AccountId, s: AccountId|
                (o, s) != (owner, spender) ==> #[trigger] allowance_in(final(self).allowances@, o, s)
                    == allowance_in(old(self).allowances@, o, s),
            final(self).total_supply == old(self).total_supply,
            final(self).balances == old(self).balances,
            final(self).issuer == old(self).issuer,
            final(self).events == old(self).events,
    {
        let mut inner = match self.allowances.remove(&owner) {
            Some(m) => m,
            None => HashMap::new(),
        };
        inner.insert(spender, value);
        self.allowances.insert(owner, inner);
    }
}

} // verus!
