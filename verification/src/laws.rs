//! Laws of the ledger that relate several operations, stated over the same
//! spec functions and effect predicates the operations' contracts use.

use vstd::prelude::*;
use crate::ledger::AccountId;
use crate::ledger::Balance;
use crate::ledger::Erc20;
use crate::ledger::allowances_set;
use crate::ledger::balances_shifted;
use crate::table::lemma_lookup_le_sum;
use crate::table::sum_values;

verus! {

/// Conservation: in every well-formed ledger the stored balances sum exactly
/// to the total supply, and so no single balance exceeds it. Construction
/// establishes well-formedness and every operation preserves it, so this
/// holds after any sequence of operations.
pub proof fn lemma_conservation(ledger: Erc20)
    requires
        ledger.well_formed(),
    ensures
        sum_values(ledger.balances@) == ledger.total_supply as int,
        forall|a: AccountId| #[trigger] ledger.spec_balance_of(a) <= ledger.total_supply,
{
    assert forall|a: AccountId| #[trigger] ledger.spec_balance_of(a) <= ledger.total_supply by {
        lemma_lookup_le_sum(ledger.balances@, a);
    }
}

/// A later approve for the same owner and spender replaces the earlier
/// allowance outright; it does not add to it. Every other pair keeps the
/// value it had before either approve.
pub proof fn lemma_approve_overwrites(
    pre: Erc20,
    mid: Erc20,
    post: Erc20,
    owner: AccountId,
    spender: AccountId,
    first: Balance,
    second: Balance,
)
    requires
        allowances_set(pre, mid, owner, spender, first),
        allowances_set(mid, post, owner, spender, second),
    ensures
        post.spec_allowance(owner, spender) == second,
        forall|o: AccountId, s: AccountId| !(o == owner && s == spender)
            ==> #[trigger] post.spec_allowance(o, s) == pre.spec_allowance(o, s),
{
    assert forall|o: AccountId, s: AccountId| !(o == owner && s == spender)
        implies #[trigger] post.spec_allowance(o, s) == pre.spec_allowance(o, s) by {
        assert(mid.spec_allowance(o, s) == pre.spec_allowance(o, s));
    }
}

/// A successful self-transfer leaves every balance exactly as it was: the
/// debit and the credit of the same account cancel out.
pub proof fn lemma_self_transfer_preserves_balances(
    pre: Erc20,
    post: Erc20,
    caller: AccountId,
    value: Balance,
)
    requires
        balances_shifted(pre, post, caller, caller, value),
    ensures
        forall|a: AccountId| #[trigger] post.spec_balance_of(a) == pre.spec_balance_of(a),
{
    assert forall|a: AccountId| #[trigger] post.spec_balance_of(a) == pre.spec_balance_of(a) by {
        assert(post.spec_balance_of(a)
            == pre.spec_balance_of(a)
                - (if a == caller { value as int } else { 0 })
                + (if a == caller { value as int } else { 0 }));
    }
}

} // verus!
