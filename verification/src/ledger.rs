//! The token ledger: total supply, balance table, allowance table, and the
//! notifications recorded for the host to deliver.
//!
//! The hosting environment owns identity and persistence: it passes the
//! current caller into each operation and forwards the recorded events to
//! observers. The ledger itself is pure state plus arithmetic.

use vstd::prelude::*;
use vstd::pervasive::VecAdditionalExecFns;
use crate::table::lookup;
use crate::table::sum_values;
use crate::table::unique_keys;
use crate::table::lemma_entry_le_sum;
use crate::table::lemma_lookup_absent;
use crate::table::lemma_lookup_at_index;
use crate::table::lemma_lookup_push;
use crate::table::lemma_lookup_update;
use crate::table::lemma_sum_push;
use crate::table::lemma_sum_take_le;
use crate::table::lemma_sum_take_succ;
use crate::table::lemma_sum_update;
use crate::table::lemma_unique_push;
use crate::table::lemma_unique_update;

verus! {

/// Identity of an account, as the execution environment reports it.
/// Equality is structural; an (owner, spender) pair is order-sensitive.
pub type AccountId = u64;

/// A quantity of tokens.
pub type Balance = u128;

/// The two recoverable failures a mutating operation can report.
#[derive(Debug, Clone, Copy, PartialEq, Eq, Structural)]
pub enum Error {
    /// A debit was requested that exceeds the available balance.
    InsufficientBalance,
    /// A delegated transfer was requested that exceeds the remaining allowance.
    InsufficientAllowance,
}

/// Notification of a movement of tokens. Issuance at construction is recorded
/// with `from == None`.
#[derive(Debug, Clone, Copy, PartialEq, Eq)]
pub struct Transfer {
    pub from: Option<AccountId>,
    pub to: Option<AccountId>,
    pub value: Balance,
}

/// Notification that an owner granted a spender an allowance.
#[derive(Debug, Clone, Copy, PartialEq, Eq)]
pub struct Approval {
    pub owner: AccountId,
    pub spender: AccountId,
    pub value: Balance,
}

/// A notification recorded for the host to deliver to observers.
#[derive(Debug, Clone, Copy, PartialEq, Eq)]
pub enum Event {
    Transfer(Transfer),
    Approval(Approval),
}

pub open spec fn transfer_event(from: Option<AccountId>, to: Option<AccountId>, value: Balance) -> Event {
    Event::Transfer(Transfer { from, to, value })
}

pub open spec fn approval_event(owner: AccountId, spender: AccountId, value: Balance) -> Event {
    Event::Approval(Approval { owner, spender, value })
}

/// The balances of `post` are those of `pre` after moving `value` tokens from
/// `from` to `to`: `from` is debited, `to` is credited, every other account is
/// untouched, and a self-transfer nets out to no change.
pub open spec fn balances_shifted(pre: Erc20, post: Erc20, from: AccountId, to: AccountId, value: Balance) -> bool {
    forall|a: AccountId| #[trigger] post.spec_balance_of(a)
        == pre.spec_balance_of(a)
            - (if a == from { value as int } else { 0 })
            + (if a == to { value as int } else { 0 })
}

/// The allowances of `post` are those of `pre` with the ordered pair
/// (owner, spender) set to `value` and every other pair untouched.
pub open spec fn allowances_set(pre: Erc20, post: Erc20, owner: AccountId, spender: AccountId, value: Balance) -> bool {
    forall|o: AccountId, s: AccountId| #[trigger] post.spec_allowance(o, s)
        == if o == owner && s == spender { value } else { pre.spec_allowance(o, s) }
}

/// The fungible-token ledger.
///
/// Balances and allowances are sparse tables: an absent key reads as zero.
/// Successful mutating operations append the notifications they owe to
/// `events`; a failed operation changes nothing and records nothing.
pub struct Erc20 {
    pub total_supply: Balance,
    pub balances: Vec<(AccountId, Balance)>,
    pub allowances: Vec<((AccountId, AccountId), Balance)>,
    pub events: Vec<Event>,
}

impl Erc20 {
    /// The balance table read as a total function: absent accounts hold zero.
    pub open spec fn spec_balance_of(self, account: AccountId) -> Balance {
        lookup(self.balances@, account)
    }

    /// The allowance table read as a total function: absent pairs hold zero.
    pub open spec fn spec_allowance(self, owner: AccountId, spender: AccountId) -> Balance {
        lookup(self.allowances@, (owner, spender))
    }

    /// Conservation law: the stored balances sum exactly to the total supply.
    pub open spec fn conserves_supply(self) -> bool {
        sum_values(self.balances@) == self.total_supply as int
    }

    /// Validity of the representation: both tables have pairwise distinct
    /// keys, and the balances respect the conservation law. Established by
    /// construction and preserved by every operation.
    pub open spec fn well_formed(self) -> bool {
        &&& unique_keys(self.balances@)
        &&& unique_keys(self.allowances@)
        &&& self.conserves_supply()
    }

    fn find_balance(&self, account: AccountId) -> (r: Option<usize>)
        ensures
            match r {
                Some(i) => i < self.balances@.len() && self.balances@[i as int].0 == account,
                None => forall|j: int|
                    0 <= j < self.balances@.len() ==> (#[trigger] self.balances@[j]).0 != account,
            },
    {
        let mut i: usize = 0;
        while i < self.balances.len()
            invariant
                i <= self.balances@.len(),
                forall|j: int| 0 <= j < i ==> (#[trigger] self.balances@[j]).0 != account,
            decreases self.balances@.len() - i,
        {
            if self.balances[i].0 == account {
                return Some(i);
            }
            i = i + 1;
        }
        None
    }

    fn find_allowance(&self, owner: AccountId, spender: AccountId) -> (r: Option<usize>)
        ensures
            match r {
                Some(i) => i < self.allowances@.len() && self.allowances@[i as int].0 == (owner, spender),
                None => forall|j: int|
                    0 <= j < self.allowances@.len() ==> (#[trigger] self.allowances@[j]).0 != (owner, spender),
            },
    {
        let mut i: usize = 0;
        while i < self.allowances.len()
            invariant
                i <= self.allowances@.len(),
                forall|j: int| 0 <= j < i ==> (#[trigger] self.allowances@[j]).0 != (owner, spender),
            decreases self.allowances@.len() - i,
        {
            let entry = self.allowances[i];
            if entry.0.0 == owner && entry.0.1 == spender {
                return Some(i);
            }
            i = i + 1;
        }
        None
    }

    fn balance_of_impl(&self, owner: AccountId) -> (r: Balance)
        requires
            unique_keys(self.balances@),
        ensures
            r == self.spec_balance_of(owner),
    {
        match self.find_balance(owner) {
            Some(i) => {
                proof {
                    lemma_lookup_at_index(self.balances@, i as int);
                }
                self.balances[i].1
            }
            None => {
                proof {
                    lemma_lookup_absent(self.balances@, owner);
                }
                0
            }
        }
    }

    fn allowance_impl(&self, owner: AccountId, spender: AccountId) -> (r: Balance)
        requires
            unique_keys(self.allowances@),
        ensures
            r == self.spec_allowance(owner, spender),
    {
        match self.find_allowance(owner, spender) {
            Some(i) => {
                proof {
                    lemma_lookup_at_index(self.allowances@, i as int);
                }
                self.allowances[i].1
            }
            None => {
                proof {
                    lemma_lookup_absent(self.allowances@, (owner, spender));
                }
                0
            }
        }
    }

    /// The supply fixed at construction. Pure: reads report the stored value
    /// and change nothing.
    pub fn total_supply(&self) -> (r: Balance)
        ensures
            r == self.total_supply,
    {
        self.total_supply
    }

    /// The balance of `owner`, zero when no entry is stored. Pure.
    pub fn balance_of(&self, owner: AccountId) -> (r: Balance)
        requires
            self.well_formed(),
        ensures
            r == self.spec_balance_of(owner),
    {
        self.balance_of_impl(owner)
    }

    /// The allowance `owner` has granted `spender`, zero when no entry is
    /// stored. Pure.
    pub fn allowance(&self, owner: AccountId, spender: AccountId) -> (r: Balance)
        requires
            self.well_formed(),
        ensures
            r == self.spec_allowance(owner, spender),
    {
        self.allowance_impl(owner, spender)
    }

    fn balance_keys_unique(&self) -> (r: bool)
        ensures
            r == unique_keys(self.balances@),
    {
        let n = self.balances.len();
        let mut i: usize = 0;
        while i < n
            invariant
                n == self.balances@.len(),
                i <= n,
                forall|p: int, q: int| #![trigger self.balances@[p], self.balances@[q]]
                    0 <= p < i && p < q < n ==> self.balances@[p].0 != self.balances@[q].0,
            decreases n - i,
        {
            let mut j: usize = i + 1;
            while j < n
                invariant
                    n == self.balances@.len(),
                    i < j <= n,
                    forall|q: int| i < q < j
                        ==> self.balances@[i as int].0 != (#[trigger] self.balances@[q]).0,
                decreases n - j,
            {
                if self.balances[i].0 == self.balances[j].0 {
                    proof {
                        assert(self.balances@[i as int].0 == self.balances@[j as int].0);
                    }
                    return false;
                }
                j = j + 1;
            }
            i = i + 1;
        }
        proof {
            assert forall|p: int, q: int| #![trigger self.balances@[p], self.balances@[q]]
                0 <= p < n && 0 <= q < n && p != q implies self.balances@[p].0 != self.balances@[q].0 by {
            }
        }
        true
    }

    fn allowance_keys_unique(&self) -> (r: bool)
        ensures
            r == unique_keys(self.allowances@),
    {
        let n = self.allowances.len();
        let mut i: usize = 0;
        while i < n
            invariant
                n == self.allowances@.len(),
                i <= n,
                forall|p: int, q: int| #![trigger self.allowances@[p], self.allowances@[q]]
                    0 <= p < i && p < q < n ==> self.allowances@[p].0 != self.allowances@[q].0,
            decreases n - i,
        {
            let mut j: usize = i + 1;
            while j < n
                invariant
                    n == self.allowances@.len(),
                    i < j <= n,
                    forall|q: int| i < q < j
                        ==> self.allowances@[i as int].0 != (#[trigger] self.allowances@[q]).0,
                decreases n - j,
            {
                let left = self.allowances[i].0;
                let right = self.allowances[j].0;
                if left.0 == right.0 && left.1 == right.1 {
                    proof {
                        assert(self.allowances@[i as int].0 == self.allowances@[j as int].0);
                    }
                    return false;
                }
                j = j + 1;
            }
            i = i + 1;
        }
        proof {
            assert forall|p: int, q: int| #![trigger self.allowances@[p], self.allowances@[q]]
                0 <= p < n && 0 <= q < n && p != q implies self.allowances@[p].0 != self.allowances@[q].0 by {
            }
        }
        true
    }

    /// The sum of all stored balances, or nothing when it does not fit in a
    /// `Balance` (in which case it cannot equal any total supply).
    fn balances_total(&self) -> (r: Option<Balance>)
        ensures
            match r {
                Some(total) => total as int == sum_values(self.balances@),
                None => sum_values(self.balances@) > u128::MAX,
            },
    {
        let n = self.balances.len();
        let mut acc: Balance = 0;
        let mut i: usize = 0;
        proof {
            assert(self.balances@.take(0) =~= Seq::<(AccountId, Balance)>::empty());
        }
        while i < n
            invariant
                n == self.balances@.len(),
                i <= n,
                acc as int == sum_values(self.balances@.take(i as int)),
            decreases n - i,
        {
            let value = self.balances[i].1;
            proof {
                lemma_sum_take_succ(self.balances@, i as int);
            }
            if acc > u128::MAX - value {
                proof {
                    lemma_sum_take_le(self.balances@, i as int + 1);
                }
                return None;
            }
            acc = acc + value;
            i = i + 1;
        }
        proof {
            assert(self.balances@.take(n as int) =~= self.balances@);
        }
        Some(acc)
    }

    /// Decide at run time whether this ledger is well formed, for holders of
    /// a ledger of unknown provenance. A ledger made by `new` and touched
    /// only by the operations is always well formed.
    pub fn is_well_formed(&self) -> (r: bool)
        ensures
            r == self.well_formed(),
    {
        if !self.balance_keys_unique() {
            return false;
        }
        if !self.allowance_keys_unique() {
            return false;
        }
        match self.balances_total() {
            Some(total) => total == self.total_supply,
            None => false,
        }
    }

    /// Subtract `value` from `from`'s balance. Touches nothing else.
    fn debit(&mut self, from: AccountId, value: Balance)
        requires
            unique_keys(old(self).balances@),
            old(self).spec_balance_of(from) >= value,
        ensures
            unique_keys(final(self).balances@),
            forall|a: AccountId| #[trigger] final(self).spec_balance_of(a)
                == old(self).spec_balance_of(a) - (if a == from { value as int } else { 0 }),
            sum_values(final(self).balances@) == sum_values(old(self).balances@) - value,
            final(self).total_supply == old(self).total_supply,
            final(self).allowances == old(self).allowances,
            final(self).events == old(self).events,
    {
        match self.find_balance(from) {
            Some(i) => {
                let entry = self.balances[i];
                proof {
                    lemma_lookup_at_index(self.balances@, i as int);
                }
                let replacement = (from, entry.1 - value);
                self.balances.set(i, replacement);
                proof {
                    lemma_unique_update(old(self).balances@, i as int, replacement);
                    lemma_sum_update(old(self).balances@, i as int, replacement);
                    assert forall|a: AccountId| #[trigger] final(self).spec_balance_of(a)
                        == old(self).spec_balance_of(a) - (if a == from { value as int } else { 0 }) by {
                        lemma_lookup_update(old(self).balances@, i as int, replacement, a);
                    }
                }
            }
            None => {
                proof {
                    lemma_lookup_absent(self.balances@, from);
                    assert(value == 0);
                }
            }
        }
    }

    /// Add `value` to `to`'s balance. Touches nothing else. The caller owes
    /// room in the sum, which rules arithmetic overflow out.
    fn credit(&mut self, to: AccountId, value: Balance)
        requires
            unique_keys(old(self).balances@),
            sum_values(old(self).balances@) + value <= u128::MAX,
        ensures
            unique_keys(final(self).balances@),
            forall|a: AccountId| #[trigger] final(self).spec_balance_of(a)
                == old(self).spec_balance_of(a) + (if a == to { value as int } else { 0 }),
            sum_values(final(self).balances@) == sum_values(old(self).balances@) + value,
            final(self).total_supply == old(self).total_supply,
            final(self).allowances == old(self).allowances,
            final(self).events == old(self).events,
    {
        match self.find_balance(to) {
            Some(i) => {
                let entry = self.balances[i];
                proof {
                    lemma_lookup_at_index(self.balances@, i as int);
                    lemma_entry_le_sum(self.balances@, i as int);
                }
                let replacement = (to, entry.1 + value);
                self.balances.set(i, replacement);
                proof {
                    lemma_unique_update(old(self).balances@, i as int, replacement);
                    lemma_sum_update(old(self).balances@, i as int, replacement);
                    assert forall|a: AccountId| #[trigger] final(self).spec_balance_of(a)
                        == old(self).spec_balance_of(a) + (if a == to { value as int } else { 0 }) by {
                        lemma_lookup_update(old(self).balances@, i as int, replacement, a);
                    }
                }
            }
            None => {
                let entry = (to, value);
                proof {
                    lemma_lookup_absent(self.balances@, to);
                }
                self.balances.push(entry);
                proof {
                    lemma_unique_push(old(self).balances@, entry);
                    lemma_sum_push(old(self).balances@, entry);
                    assert forall|a: AccountId| #[trigger] final(self).spec_balance_of(a)
                        == old(self).spec_balance_of(a) + (if a == to { value as int } else { 0 }) by {
                        lemma_lookup_push(old(self).balances@, entry, a);
                    }
                }
            }
        }
    }

    /// Store `value` as the allowance of (owner, spender), overwriting any
    /// earlier entry. Touches nothing else.
    fn set_allowance(&mut self, owner: AccountId, spender: AccountId, value: Balance)
        requires
            unique_keys(old(self).allowances@),
        ensures
            unique_keys(final(self).allowances@),
            forall|o: AccountId, s: AccountId| #[trigger] final(self).spec_allowance(o, s)
                == if o == owner && s == spender { value } else { old(self).spec_allowance(o, s) },
            final(self).balances == old(self).balances,
            final(self).total_supply == old(self).total_supply,
            final(self).events == old(self).events,
    {
        match self.find_allowance(owner, spender) {
            Some(i) => {
                let replacement = ((owner, spender), value);
                self.allowances.set(i, replacement);
                proof {
                    lemma_unique_update(old(self).allowances@, i as int, replacement);
                    assert forall|o: AccountId, s: AccountId| #[trigger] final(self).spec_allowance(o, s)
                        == if o == owner && s == spender { value } else { old(self).spec_allowance(o, s) } by {
                        lemma_lookup_update(old(self).allowances@, i as int, replacement, (o, s));
                    }
                }
            }
            None => {
                let entry = ((owner, spender), value);
                self.allowances.push(entry);
                proof {
                    lemma_unique_push(old(self).allowances@, entry);
                    assert forall|o: AccountId, s: AccountId| #[trigger] final(self).spec_allowance(o, s)
                        == if o == owner && s == spender { value } else { old(self).spec_allowance(o, s) } by {
                        lemma_lookup_push(old(self).allowances@, entry, (o, s));
                    }
                }
            }
        }
    }

    /// Create a ledger holding `total_supply` tokens, all credited to
    /// `caller`, the identity the execution environment reports for the
    /// constructing call. Issuance is recorded as a transfer from a null
    /// source. Construction never fails.
    pub fn new(total_supply: Balance, caller: AccountId) -> (r: Erc20)
        ensures
            r.well_formed(),
            r.total_supply == total_supply,
            forall|a: AccountId| #[trigger] r.spec_balance_of(a)
                == if a == caller { total_supply } else { 0u128 },
            forall|o: AccountId, s: AccountId| #[trigger] r.spec_allowance(o, s) == 0u128,
            r.events@ == Seq::<Event>::empty().push(transfer_event(None, Some(caller), total_supply)),
    {
        let mut balances: Vec<(AccountId, Balance)> = Vec::new();
        balances.push((caller, total_supply));
        let mut events: Vec<Event> = Vec::new();
        events.push(Event::Transfer(Transfer { from: None, to: Some(caller), value: total_supply }));
        let r = Erc20 { total_supply, balances, allowances: Vec::new(), events };
        proof {
            let entry = (caller, total_supply);
            let empty = Seq::<(AccountId, Balance)>::empty();
            assert(r.balances@ =~= empty.push(entry));
            lemma_sum_push(empty, entry);
            assert(sum_values(empty) == 0);
            lemma_unique_push(empty, entry);
            assert forall|a: AccountId| #[trigger] r.spec_balance_of(a)
                == if a == caller { total_supply } else { 0u128 } by {
                lemma_lookup_push(empty, entry, a);
                assert(lookup(empty, a) == 0);
            }
            assert(r.allowances@ =~= Seq::<((AccountId, AccountId), Balance)>::empty());
            assert forall|o: AccountId, s: AccountId| #[trigger] r.spec_allowance(o, s) == 0u128 by {
                assert(lookup(r.allowances@, (o, s)) == 0);
            }
        }
        r
    }

    /// Move `value` tokens from `from` to `to`: the balance-checked transfer
    /// shared by `transfer` and `transfer_from`. The check comes before any
    /// mutation; on failure nothing changes and nothing is recorded.
    fn transfer_from_to(&mut self, from: AccountId, to: AccountId, value: Balance) -> (r: Result<(), Error>)
        requires
            old(self).well_formed(),
        ensures
            final(self).well_formed(),
            final(self).total_supply == old(self).total_supply,
            final(self).allowances == old(self).allowances,
            old(self).spec_balance_of(from) >= value ==> (
                r == Ok::<(), Error>(())
                && balances_shifted(*old(self), *final(self), from, to, value)
                && final(self).events@ == old(self).events@.push(transfer_event(Some(from), Some(to), value))
            ),
            old(self).spec_balance_of(from) < value ==> (
                r == Err::<(), Error>(Error::InsufficientBalance)
                && *final(self) == *old(self)
            ),
    {
        let from_balance = self.balance_of_impl(from);
        if from_balance < value {
            return Err(Error::InsufficientBalance);
        }
        self.debit(from, value);
        let ghost mid = *self;
        self.credit(to, value);
        let ghost credited = *self;
        self.events.push(Event::Transfer(Transfer { from: Some(from), to: Some(to), value }));
        proof {
            assert forall|a: AccountId| #[trigger] self.spec_balance_of(a)
                == old(self).spec_balance_of(a)
                    - (if a == from { value as int } else { 0 })
                    + (if a == to { value as int } else { 0 }) by {
                assert(mid.spec_balance_of(a)
                    == old(self).spec_balance_of(a) - (if a == from { value as int } else { 0 }));
                assert(credited.spec_balance_of(a)
                    == mid.spec_balance_of(a) + (if a == to { value as int } else { 0 }));
                assert(self.spec_balance_of(a) == credited.spec_balance_of(a));
            }
        }
        Ok(())
    }

    /// Move `value` tokens from the caller to `to`. Fails with
    /// `InsufficientBalance`, changing nothing, exactly when the caller's
    /// balance is below `value`; otherwise debits the caller, credits `to`,
    /// and records one Transfer notification. A self-transfer is permitted:
    /// it leaves every balance as it was but still records the notification.
    pub fn transfer(&mut self, caller: AccountId, to: AccountId, value: Balance) -> (r: Result<(), Error>)
        requires
            old(self).well_formed(),
        ensures
            final(self).well_formed(),
            final(self).total_supply == old(self).total_supply,
            final(self).allowances == old(self).allowances,
            old(self).spec_balance_of(caller) >= value ==> (
                r == Ok::<(), Error>(())
                && balances_shifted(*old(self), *final(self), caller, to, value)
                && final(self).events@ == old(self).events@.push(transfer_event(Some(caller), Some(to), value))
            ),
            old(self).spec_balance_of(caller) < value ==> (
                r == Err::<(), Error>(Error::InsufficientBalance)
                && *final(self) == *old(self)
            ),
    {
        self.transfer_from_to(caller, to, value)
    }

    /// Set the allowance the caller grants `spender` to `value`, overwriting
    /// (not adding to) any earlier allowance, and record one Approval
    /// notification. Always succeeds; setting zero revokes the grant.
    pub fn approve(&mut self, caller: AccountId, spender: AccountId, value: Balance) -> (r: Result<(), Error>)
        requires
            old(self).well_formed(),
        ensures
            final(self).well_formed(),
            r == Ok::<(), Error>(()),
            allowances_set(*old(self), *final(self), caller, spender, value),
            final(self).balances == old(self).balances,
            final(self).total_supply == old(self).total_supply,
            final(self).events@ == old(self).events@.push(approval_event(caller, spender, value)),
    {
        self.set_allowance(caller, spender, value);
        let ghost mid = *self;
        self.events.push(Event::Approval(Approval { owner: caller, spender, value }));
        proof {
            assert forall|o: AccountId, s: AccountId| #[trigger] self.spec_allowance(o, s)
                == if o == caller && s == spender { value } else { old(self).spec_allowance(o, s) } by {
                assert(mid.spec_allowance(o, s)
                    == if o == caller && s == spender { value } else { old(self).spec_allowance(o, s) });
                assert(self.spec_allowance(o, s) == mid.spec_allowance(o, s));
            }
        }
        Ok(())
    }

    /// Move `value` tokens from `from` to `to` on the authority of the
    /// caller's allowance. Fails with `InsufficientAllowance` when the
    /// allowance (from, caller) is below `value`; otherwise fails with
    /// `InsufficientBalance` when `from`'s balance is below `value`. Either
    /// failure changes nothing. On success the balances shift, the allowance
    /// is decremented by exactly `value`, and one Transfer notification is
    /// recorded (no Approval notification for the decrement).
    pub fn transfer_from(&mut self, caller: AccountId, from: AccountId, to: AccountId, value: Balance) -> (r: Result<(), Error>)
        requires
            old(self).well_formed(),
        ensures
            final(self).well_formed(),
            final(self).total_supply == old(self).total_supply,
            old(self).spec_allowance(from, caller) < value ==> (
                r == Err::<(), Error>(Error::InsufficientAllowance)
                && *final(self) == *old(self)
            ),
            old(self).spec_allowance(from, caller) >= value && old(self).spec_balance_of(from) < value ==> (
                r == Err::<(), Error>(Error::InsufficientBalance)
                && *final(self) == *old(self)
            ),
            old(self).spec_allowance(from, caller) >= value && old(self).spec_balance_of(from) >= value ==> (
                r == Ok::<(), Error>(())
                && balances_shifted(*old(self), *final(self), from, to, value)
                && allowances_set(*old(self), *final(self), from, caller,
                    (old(self).spec_allowance(from, caller) - value) as Balance)
                && final(self).events@ == old(self).events@.push(transfer_event(Some(from), Some(to), value))
            ),
    {
        let allowance = self.allowance_impl(from, caller);
        if allowance < value {
            return Err(Error::InsufficientAllowance);
        }
        let transferred = self.transfer_from_to(from, to, value);
        match transferred {
            Err(e) => Err(e),
            Ok(()) => {
                let ghost moved = *self;
                self.set_allowance(from, caller, allowance - value);
                proof {
                    assert forall|a: AccountId| #[trigger] self.spec_balance_of(a)
                        == old(self).spec_balance_of(a)
                            - (if a == from { value as int } else { 0 })
                            + (if a == to { value as int } else { 0 }) by {
                        assert(moved.spec_balance_of(a)
                            == old(self).spec_balance_of(a)
                                - (if a == from { value as int } else { 0 })
                                + (if a == to { value as int } else { 0 }));
                        assert(self.spec_balance_of(a) == moved.spec_balance_of(a));
                    }
                    assert forall|o: AccountId, s: AccountId| #[trigger] self.spec_allowance(o, s)
                        == if o == from && s == caller {
                            (old(self).spec_allowance(from, caller) - value) as Balance
                        } else {
                            old(self).spec_allowance(o, s)
                        } by {
                        assert(moved.spec_allowance(o, s) == old(self).spec_allowance(o, s));
                    }
                }
                Ok(())
            }
        }
    }
}

} // verus!
