use vstd::prelude::*;

use crate::account::AccountId;
use crate::account::null_account;
use crate::store::keys_unique;
use crate::store::keys_unique2;
use crate::store::lemma_lookup_le_sum;
use crate::store::lookup;
use crate::store::lookup2;
use crate::store::map2_get;
use crate::store::map2_set;
use crate::store::map_get;
use crate::store::map_set;
use crate::store::sum_values;

verus! {

/// One completed balance movement. Appended to the ledger's event outbox on
/// every successful transfer, delegated transfer, or burn; a notification for
/// the host's event sink, not ledger state.
#[derive(PartialEq, Eq, Structural, Clone, Copy, Debug)]
pub struct Transfer {
    pub from: AccountId,
    pub to: AccountId,
    pub value: u128,
}

/// Why a mutation was rejected. A rejected mutation leaves the ledger
/// byte-identical to before the call.
///
/// No overflow error exists: conservation bounds every balance by the total
/// supply, so every credit, debit and supply adjustment is proved to fit in
/// the amount type, and nothing can wrap silently.
#[derive(PartialEq, Eq, Structural, Clone, Copy, Debug)]
pub enum Error {
    /// The funding precondition failed: the debited balance, or the consumed
    /// allowance, is smaller than the requested value.
    InsufficientBalance,
}

/// A fungible-token ledger: total supply, sparse per-account balances, and
/// sparse per-(owner, spender) allowances, plus the outbox of events that
/// successful mutations emitted and the host has not yet drained.
///
/// Every operation takes the authenticated caller identity as an explicit
/// argument; authentication itself is the host's job.
pub struct Erc20 {
    total_supplys: u128,
    balances: Vec<(AccountId, u128)>,
    allowance: Vec<(AccountId, AccountId, u128)>,
    events: Vec<Transfer>,
}

impl Erc20 {
    /// The total supply still in circulation.
    pub closed spec fn spec_total_supply(self) -> u128 {
        self.total_supplys
    }

    /// The stored balance entries.
    pub closed spec fn spec_balances(self) -> Seq<(AccountId, u128)> {
        self.balances@
    }

    /// The stored allowance entries.
    pub closed spec fn spec_allowances(self) -> Seq<(AccountId, AccountId, u128)> {
        self.allowance@
    }

    /// The events emitted so far and not yet drained, oldest first.
    pub closed spec fn spec_events(self) -> Seq<Transfer> {
        self.events@
    }

    /// Balance of `owner`; an account without an entry holds 0.
    pub open spec fn spec_balance_of(self, owner: AccountId) -> u128 {
        lookup(self.spec_balances(), owner)
    }

    /// Allowance granted by `owner` to `spender`; a pair without an entry
    /// holds 0.
    pub open spec fn spec_allowance_of(self, owner: AccountId, spender: AccountId) -> u128 {
        lookup2(self.spec_allowances(), owner, spender)
    }

    /// Well-formedness, preserved by every operation: the stores carry
    /// pairwise distinct keys, and the total supply equals the sum of all
    /// stored balances — the conservation invariant.
    pub open spec fn wf(self) -> bool {
        &&& keys_unique(self.spec_balances())
        &&& keys_unique2(self.spec_allowances())
        &&& sum_values(self.spec_balances()) == self.spec_total_supply() as int
    }

    /// The balance movement a successful transfer performs: `value` leaves
    /// `from`, arrives at `to`, every other balance, the total supply and the
    /// allowances are untouched, and one event is appended.
    pub open spec fn transfer_effect(
        pre: Erc20,
        post: Erc20,
        from: AccountId,
        to: AccountId,
        value: u128,
    ) -> bool {
        &&& post.wf()
        &&& post.spec_total_supply() == pre.spec_total_supply()
        &&& (if from == to {
            post.spec_balance_of(from) == pre.spec_balance_of(from)
        } else {
            post.spec_balance_of(from) == pre.spec_balance_of(from) - value
                && post.spec_balance_of(to) == pre.spec_balance_of(to) + value
        })
        &&& (forall|a: AccountId|
            a != from && a != to ==> post.spec_balance_of(a) == pre.spec_balance_of(a))
        &&& Erc20::allowances_unchanged(pre, post)
        &&& post.spec_events() == pre.spec_events().push((Transfer { from, to, value }))
    }

    /// No allowance of any (owner, spender) pair changed.
    pub open spec fn allowances_unchanged(pre: Erc20, post: Erc20) -> bool {
        forall|o: AccountId, s: AccountId|
            post.spec_allowance_of(o, s) == pre.spec_allowance_of(o, s)
    }

    /// Create a ledger whose whole initial supply is credited to the caller.
    /// A zero supply is legal; creation has no failure path.
    pub fn new(total_supply: u128, caller: AccountId) -> (r: Erc20)
        ensures
            r.wf(),
            r.spec_total_supply() == total_supply,
            r.spec_balance_of(caller) == total_supply,
            forall|a: AccountId| a != caller ==> r.spec_balance_of(a) == 0,
            forall|o: AccountId, s: AccountId| r.spec_allowance_of(o, s) == 0,
            r.spec_events() == Seq::<Transfer>::empty(),
    {
        let mut balances: Vec<(AccountId, u128)> = Vec::new();
        map_set(&mut balances, caller, total_supply);
        let allowance: Vec<(AccountId, AccountId, u128)> = Vec::new();
        let events: Vec<Transfer> = Vec::new();
        let r = Erc20 { total_supplys: total_supply, balances, allowance, events };
        proof {
            assert forall|o: AccountId, s: AccountId| r.spec_allowance_of(o, s) == 0 by {
                assert(lookup2(r.spec_allowances(), o, s) == 0);
            }
        }
        r
    }

    /// The total supply still in circulation.
    pub fn total_supply(&self) -> (r: u128)
        ensures
            r == self.spec_total_supply(),
    {
        self.total_supplys
    }

    /// Balance of `owner`; 0 for an account the ledger has never seen.
    pub fn balance_of(&self, owner: AccountId) -> (r: u128)
        ensures
            r == self.spec_balance_of(owner),
    {
        map_get(&self.balances, owner)
    }

    /// Allowance granted by `owner` to `spender`; 0 for a pair the ledger
    /// has never seen.
    pub fn allowance_of(&self, owner: AccountId, spender: AccountId) -> (r: u128)
        ensures
            r == self.spec_allowance_of(owner, spender),
    {
        map2_get(&self.allowance, owner, spender)
    }

    /// The events emitted so far and not yet drained, oldest first.
    pub fn events(&self) -> (r: &Vec<Transfer>)
        ensures
            r@ == self.spec_events(),
    {
        &self.events
    }

    /// Move `value` from the caller's balance to `to`. Succeeds exactly when
    /// the caller's balance covers `value`; a self-transfer is legal, leaves
    /// every balance as it was, and still emits an event.
    pub fn transfer(&mut self, caller: AccountId, to: AccountId, value: u128) -> (r: Result<
        (),
        Error,
    >)
        requires
            old(self).wf(),
        ensures
            match r {
                Ok(_) => old(self).spec_balance_of(caller) >= value && Erc20::transfer_effect(
                    *old(self),
                    *final(self),
                    caller,
                    to,
                    value,
                ),
                Err(e) => e == Error::InsufficientBalance && old(self).spec_balance_of(caller)
                    < value && *final(self) == *old(self),
            },
    {
        self.transfer_help(caller, to, value)
    }

    /// Delegated transfer: the caller moves `value` out of `from`'s balance
    /// into `to`, consuming `value` from the allowance `(from, caller)`.
    /// Succeeds exactly when both that allowance and `from`'s balance cover
    /// `value`; every allowance pair other than `(from, caller)` is
    /// untouched.
    pub fn transfer_from(
        &mut self,
        caller: AccountId,
        from: AccountId,
        to: AccountId,
        value: u128,
    ) -> (r: Result<(), Error>)
        requires
            old(self).wf(),
        ensures
            match r {
                Ok(_) => {
                    &&& old(self).spec_allowance_of(from, caller) >= value
                    &&& old(self).spec_balance_of(from) >= value
                    &&& final(self).wf()
                    &&& final(self).spec_total_supply() == old(self).spec_total_supply()
                    &&& (if from == to {
                        final(self).spec_balance_of(from) == old(self).spec_balance_of(from)
                    } else {
                        final(self).spec_balance_of(from) == old(self).spec_balance_of(from)
                            - value && final(self).spec_balance_of(to) == old(
                            self,
                        ).spec_balance_of(to) + value
                    })
                    &&& (forall|a: AccountId|
                        a != from && a != to ==> final(self).spec_balance_of(a) == old(
                            self,
                        ).spec_balance_of(a))
                    &&& final(self).spec_allowance_of(from, caller) == old(
                        self,
                    ).spec_allowance_of(from, caller) - value
                    &&& (forall|o: AccountId, s: AccountId|
                        !(o == from && s == caller) ==> final(self).spec_allowance_of(o, s)
                            == old(self).spec_allowance_of(o, s))
                    &&& final(self).spec_events() == old(self).spec_events().push(
                        (Transfer { from, to, value }),
                    )
                },
                Err(e) => e == Error::InsufficientBalance && (old(self).spec_allowance_of(
                    from,
                    caller,
                ) < value || old(self).spec_balance_of(from) < value) && *final(self) == *old(
                    self,
                ),
            },
    {
        let allowance_balance = map2_get(&self.allowance, from, caller);
        if allowance_balance < value {
            return Err(Error::InsufficientBalance);
        }
        let from_balance = map_get(&self.balances, from);
        if from_balance < value {
            return Err(Error::InsufficientBalance);
        }
        map2_set(&mut self.allowance, from, caller, allowance_balance - value);
        // Both preconditions were checked before the allowance was consumed,
        // and consuming it leaves every balance as it was, so the balance
        // movement cannot fail here.
        let r = self.transfer_help(from, to, value);
        proof {
            if r is Err {
                assert(false);
            }
        }
        r
    }

    /// Set the allowance granted by the caller to `spender` to exactly
    /// `value`, replacing any earlier grant. Never fails.
    pub fn issue(&mut self, caller: AccountId, spender: AccountId, value: u128) -> (r: Result<
        (),
        Error,
    >)
        requires
            old(self).wf(),
        ensures
            r == Ok::<(), Error>(()),
            final(self).wf(),
            final(self).spec_allowance_of(caller, spender) == value,
            forall|o: AccountId, s: AccountId|
                !(o == caller && s == spender) ==> final(self).spec_allowance_of(o, s) == old(
                    self,
                ).spec_allowance_of(o, s),
            forall|a: AccountId| final(self).spec_balance_of(a) == old(self).spec_balance_of(a),
            final(self).spec_total_supply() == old(self).spec_total_supply(),
            final(self).spec_events() == old(self).spec_events(),
    {
        map2_set(&mut self.allowance, caller, spender, value);
        Ok(())
    }

    /// Destroy `value` from `owner`'s balance and reduce the total supply by
    /// the same amount, keeping conservation; emits a transfer to the null
    /// account. Succeeds exactly when `owner`'s balance covers `value`. No
    /// access control restricts who may burn whose balance here; the host
    /// decides that.
    pub fn burn(&mut self, owner: AccountId, value: u128) -> (r: Result<(), Error>)
        requires
            old(self).wf(),
        ensures
            match r {
                Ok(_) => {
                    &&& old(self).spec_balance_of(owner) >= value
                    &&& final(self).wf()
                    &&& final(self).spec_total_supply() == old(self).spec_total_supply() - value
                    &&& final(self).spec_balance_of(owner) == old(self).spec_balance_of(owner)
                        - value
                    &&& (forall|a: AccountId|
                        a != owner ==> final(self).spec_balance_of(a) == old(
                            self,
                        ).spec_balance_of(a))
                    &&& Erc20::allowances_unchanged(*old(self), *final(self))
                    &&& final(self).spec_events() == old(self).spec_events().push(
                        (Transfer { from: owner, to: null_account(), value }),
                    )
                },
                Err(e) => e == Error::InsufficientBalance && old(self).spec_balance_of(owner)
                    < value && *final(self) == *old(self),
            },
    {
        let balance = map_get(&self.balances, owner);
        if balance < value {
            return Err(Error::InsufficientBalance);
        }
        proof {
            lemma_lookup_le_sum(self.balances@, owner);
        }
        self.total_supplys = self.total_supplys - value;
        map_set(&mut self.balances, owner, balance - value);
        self.events.push(Transfer { from: owner, to: AccountId::null(), value });
        Ok(())
    }

    /// Shared balance movement of `transfer` and `transfer_from`: debit
    /// `from`, credit `to`, append the event. The credit cannot overflow:
    /// conservation bounds every balance by the total supply.
    fn transfer_help(&mut self, from: AccountId, to: AccountId, value: u128) -> (r: Result<
        (),
        Error,
    >)
        requires
            old(self).wf(),
        ensures
            match r {
                Ok(_) => old(self).spec_balance_of(from) >= value && Erc20::transfer_effect(
                    *old(self),
                    *final(self),
                    from,
                    to,
                    value,
                ),
                Err(e) => e == Error::InsufficientBalance && old(self).spec_balance_of(from)
                    < value && *final(self) == *old(self),
            },
    {
        let from_balance = map_get(&self.balances, from);
        if from_balance < value {
            return Err(Error::InsufficientBalance);
        }
        map_set(&mut self.balances, from, from_balance - value);
        let to_balance = map_get(&self.balances, to);
        proof {
            lemma_lookup_le_sum(self.balances@, to);
        }
        map_set(&mut self.balances, to, to_balance + value);
        self.events.push(Transfer { from, to, value });
        Ok(())
    }
}

/// Conservation's pointwise consequence: no single account ever holds more
/// than the total supply.
pub proof fn lemma_balance_le_total(l: Erc20, a: AccountId)
    requires
        l.wf(),
    ensures
        l.spec_balance_of(a) <= l.spec_total_supply(),
{
    lemma_lookup_le_sum(l.spec_balances(), a);
}

} // verus!
