//! The disputed funds of a client.
//!
//! The central ledger invariant says that the held balance of each account
//! covers the amounts of that client's currently disputed transactions.
//! These functions sum those amounts over the transaction log and relate
//! pushes and in-place updates of the log to the sum.
use vstd::prelude::*;

use crate::transaction::{LoggedTransaction, State};

verus! {

/// What one log entry contributes to the disputed funds of client `c`:
/// its amount if it is under dispute and belongs to `c`, else nothing.
pub open spec fn disputed_contrib(e: (u32, LoggedTransaction), c: u16) -> int {
    if e.1.state == State::Disputed && e.1.transaction.spec_client_id() == c {
        e.1.transaction.spec_amount() as int
    } else {
        0
    }
}

/// The disputed funds of client `c`: the sum of the amounts of the log's
/// disputed entries that belong to `c`.
pub open spec fn disputed_sum(s: Seq<(u32, LoggedTransaction)>, c: u16) -> int
    decreases s.len(),
{
    if s.len() == 0 {
        0
    } else {
        disputed_sum(s.drop_last(), c) + disputed_contrib(s.last(), c)
    }
}

/// Only deposits can be under dispute, and every logged deposit carries a
/// positive amount; so no entry contributes a negative amount.
pub open spec fn entry_contribs_ok(e: (u32, LoggedTransaction)) -> bool {
    e.1.state == State::Disputed ==> e.1.transaction is Deposit && e.1.transaction.spec_amount() > 0
}

pub proof fn lemma_disputed_sum_push(s: Seq<(u32, LoggedTransaction)>, e: (u32, LoggedTransaction), c: u16)
    ensures
        disputed_sum(s.push(e), c) == disputed_sum(s, c) + disputed_contrib(e, c),
{
    assert(s.push(e).drop_last() =~= s);
    assert(s.push(e).last() == e);
}

pub proof fn lemma_disputed_sum_update(
    s: Seq<(u32, LoggedTransaction)>,
    i: int,
    e: (u32, LoggedTransaction),
    c: u16,
)
    requires
        0 <= i < s.len(),
    ensures
        disputed_sum(s.update(i, e), c)
            == disputed_sum(s, c) - disputed_contrib(s[i], c) + disputed_contrib(e, c),
    decreases s.len(),
{
    let t = s.update(i, e);
    if i == s.len() - 1 {
        assert(t.drop_last() =~= s.drop_last());
        assert(t.last() == e);
    } else {
        lemma_disputed_sum_update(s.drop_last(), i, e, c);
        assert(t.drop_last() =~= s.drop_last().update(i, e));
        assert(t.last() == s.last());
        assert(s.drop_last()[i] == s[i]);
    }
}

pub proof fn lemma_disputed_sum_nonneg(s: Seq<(u32, LoggedTransaction)>, c: u16)
    requires
        forall|i: int| 0 <= i < s.len() ==> entry_contribs_ok(#[trigger] s[i]),
    ensures
        disputed_sum(s, c) >= 0,
    decreases s.len(),
{
    if s.len() > 0 {
        assert(forall|i: int| 0 <= i < s.drop_last().len()
            ==> entry_contribs_ok(#[trigger] s.drop_last()[i]));
        lemma_disputed_sum_nonneg(s.drop_last(), c);
        assert(entry_contribs_ok(s[s.len() - 1]));
        assert(disputed_contrib(s.last(), c) >= 0);
    }
}

/// The disputed funds of `c` cover each single disputed entry of `c`.
pub proof fn lemma_disputed_sum_ge_contrib(s: Seq<(u32, LoggedTransaction)>, i: int, c: u16)
    requires
        forall|j: int| 0 <= j < s.len() ==> entry_contribs_ok(#[trigger] s[j]),
        0 <= i < s.len(),
    ensures
        disputed_sum(s, c) >= disputed_contrib(s[i], c),
    decreases s.len(),
{
    if i == s.len() - 1 {
        assert(s[i] == s.last());
        assert(forall|j: int| 0 <= j < s.drop_last().len()
            ==> entry_contribs_ok(#[trigger] s.drop_last()[j]));
        lemma_disputed_sum_nonneg(s.drop_last(), c);
    } else {
        assert(forall|j: int| 0 <= j < s.drop_last().len()
            ==> entry_contribs_ok(#[trigger] s.drop_last()[j]));
        lemma_disputed_sum_ge_contrib(s.drop_last(), i, c);
        assert(s.drop_last()[i] == s[i]);
        assert(entry_contribs_ok(s[s.len() - 1]));
        assert(disputed_contrib(s.last(), c) >= 0);
    }
}

/// A client none of whose entries contributes has no disputed funds.
pub proof fn lemma_disputed_sum_zero(s: Seq<(u32, LoggedTransaction)>, c: u16)
    requires
        forall|i: int| 0 <= i < s.len() ==> disputed_contrib(#[trigger] s[i], c) == 0,
    ensures
        disputed_sum(s, c) == 0,
    decreases s.len(),
{
    if s.len() > 0 {
        assert(forall|i: int| 0 <= i < s.drop_last().len()
            ==> disputed_contrib(#[trigger] s.drop_last()[i], c) == 0);
        lemma_disputed_sum_zero(s.drop_last(), c);
        assert(disputed_contrib(s[s.len() - 1], c) == 0);
    }
}

} // verus!
