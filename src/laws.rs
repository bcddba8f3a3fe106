//! Laws of the ledger, proved over the rules in `ledger`.
use vstd::prelude::*;

use crate::client::{ClientView, client_matches, client_position, is_first_client};
use crate::ledger::{
    after_chargeback, after_deposit, after_dispute, after_event, after_events, after_resolve,
    after_withdrawal, balanced, charges_back_withdrawal, ids_unique, ledger_wf,
    no_withdrawal_charged_back, referenced_disputed,
};
use crate::transaction::{Transaction, amount_of};

verus! {

/// Where some account matches, there is a first one that does.
proof fn lemma_first_client_exists(ls: Seq<ClientView>, client_id: u16, require_unlocked: bool, i: int)
    requires
        0 <= i < ls.len(),
        client_matches(ls[i], client_id, require_unlocked),
    ensures
        client_position(ls, client_id, require_unlocked) is Some,
    decreases i,
{
    if forall|j: int| 0 <= j < i ==> !client_matches(ls[j], client_id, require_unlocked) {
        assert(is_first_client(ls, client_id, require_unlocked, i));
    } else {
        let j = choose|j: int| 0 <= j < i && client_matches(ls[j], client_id, require_unlocked);
        lemma_first_client_exists(ls, client_id, require_unlocked, j);
    }
}

/// The account that `client_position` picks is in range and matches.
proof fn lemma_client_position(ls: Seq<ClientView>, client_id: u16, require_unlocked: bool)
    ensures
        client_position(ls, client_id, require_unlocked) matches Some(i) ==> is_first_client(
            ls,
            client_id,
            require_unlocked,
            i,
        ),
        client_position(ls, client_id, require_unlocked) is None ==> forall|i: int|
            0 <= i < ls.len() ==> !client_matches(ls[i], client_id, require_unlocked),
{
    if client_position(ls, client_id, require_unlocked) is None {
        assert forall|i: int| 0 <= i < ls.len() implies !client_matches(
            ls[i],
            client_id,
            require_unlocked,
        ) by {
            if client_matches(ls[i], client_id, require_unlocked) {
                lemma_first_client_exists(ls, client_id, require_unlocked, i);
            }
        }
    }
}

/// Any event keeps an account store well formed: client ids stay unique and
/// every unlocked account's balances add up. Balances add up in every account
/// after any event but a chargeback of a withdrawal.
pub proof fn lemma_event_keeps_wf(ls: Seq<ClientView>, t: Transaction)
    ensures
        ledger_wf(ls) ==> ledger_wf(after_event(ls, t)),
        balanced(ls) && !charges_back_withdrawal(ls, t) ==> balanced(after_event(ls, t)),
{
    lemma_client_position(ls, t.client_id, false);
    lemma_client_position(ls, t.client_id, true);
    let r = after_event(ls, t);
    assert(r.len() >= ls.len());
    if ledger_wf(ls) {
        assert forall|i: int| 0 <= i < r.len() && !r[i].locked implies #[trigger] r[i].total
            == r[i].available + r[i].held by {
            if i < ls.len() {
                assert(!ls[i].locked);
                assert(ls[i].total == ls[i].available + ls[i].held);
            }
        }
        assert forall|i: int, j: int|
            0 <= i < r.len() && 0 <= j < r.len() && i != j implies #[trigger] r[i].client_id
            != #[trigger] r[j].client_id by {
            if i < ls.len() && j < ls.len() {
                assert(ls[i].client_id != ls[j].client_id);
            }
        }
    }
    if balanced(ls) && !charges_back_withdrawal(ls, t) {
        assert forall|i: int| 0 <= i < r.len() implies #[trigger] r[i].total == r[i].available
            + r[i].held by {
            if i < ls.len() {
                assert(ls[i].total == ls[i].available + ls[i].held);
            }
        }
    }
}

/// Every account store reachable from an empty one by a sequence of events
/// is well formed: client ids are unique and each unlocked account's total is
/// its available plus its held funds.
pub proof fn lemma_reachable_wf(events: Seq<Transaction>)
    ensures
        ledger_wf(after_events(events)),
    decreases events.len(),
{
    if events.len() > 0 {
        lemma_reachable_wf(events.drop_last());
        lemma_event_keeps_wf(after_events(events.drop_last()), events.last());
    }
}

/// Where no withdrawal is charged back, every account of every reachable
/// store has a total equal to its available plus its held funds.
pub proof fn lemma_reachable_balanced(events: Seq<Transaction>)
    requires
        no_withdrawal_charged_back(events),
    ensures
        balanced(after_events(events)),
    decreases events.len(),
{
    if events.len() > 0 {
        let prefix = events.drop_last();
        assert forall|n: int| 0 <= n < prefix.len() implies !charges_back_withdrawal(
            after_events(#[trigger] prefix.take(n)),
            prefix[n],
        ) by {
            assert(prefix.take(n) =~= events.take(n));
            assert(!charges_back_withdrawal(after_events(events.take(n)), events[n]));
        }
        lemma_reachable_balanced(prefix);
        let last = events.len() - 1;
        assert(events.take(last) =~= prefix);
        assert(!charges_back_withdrawal(after_events(events.take(last)), events[last]));
        lemma_event_keeps_wf(after_events(prefix), events.last());
    }
}

/// `after` keeps every account of `before` at its place, under its client id,
/// and keeps every lock that `before` has.
pub open spec fn keeps_locks(before: Seq<ClientView>, after: Seq<ClientView>) -> bool {
    &&& before.len() <= after.len()
    &&& forall|i: int|
        #![trigger after[i]]
        0 <= i < before.len() ==> after[i].client_id == before[i].client_id && (before[i].locked
            ==> after[i].locked)
}

/// No event unlocks an account.
pub proof fn lemma_event_keeps_locks(ls: Seq<ClientView>, t: Transaction)
    ensures
        keeps_locks(ls, after_event(ls, t)),
{
    lemma_client_position(ls, t.client_id, false);
    lemma_client_position(ls, t.client_id, true);
}

/// Along a sequence of events, a lock once set stays set: the store after
/// the first `n` events is kept, locks included, by the store after the
/// first `m`.
pub proof fn lemma_locks_monotonic(events: Seq<Transaction>, n: int, m: int)
    requires
        0 <= n <= m <= events.len(),
    ensures
        keeps_locks(after_events(events.take(n)), after_events(events.take(m))),
    decreases m - n,
{
    if n < m {
        lemma_locks_monotonic(events, n, m - 1);
        let before = after_events(events.take(m - 1));
        assert(events.take(m).drop_last() =~= events.take(m - 1));
        lemma_event_keeps_locks(before, events[m - 1]);
        let first = after_events(events.take(n));
        let after = after_events(events.take(m));
        assert(after == after_event(before, events[m - 1]));
        assert forall|i: int| #![trigger after[i]]
            0 <= i < first.len() implies after[i].client_id == first[i].client_id && (
            first[i].locked ==> after[i].locked) by {
            assert(before[i].client_id == first[i].client_id);
            assert(first[i].locked ==> before[i].locked);
        }
    }
}

/// A dispute of an event that is already under dispute changes nothing, so
/// an event never has two disputes open at once.
pub proof fn lemma_no_second_dispute(ls: Seq<ClientView>, t: Transaction)
    requires
        referenced_disputed(ls, t),
    ensures
        after_dispute(ls, t) == ls,
{
}

/// An applied withdrawal of a non-negative amount leaves the available and
/// total funds of the account it debits non-negative; every other account
/// is untouched.
pub proof fn lemma_withdrawal_keeps_funds(ls: Seq<ClientView>, t: Transaction)
    requires
        amount_of(t) >= 0,
    ensures
        after_withdrawal(ls, t).len() == ls.len(),
        forall|i: int|
            0 <= i < ls.len() ==> #[trigger] after_withdrawal(ls, t)[i] == ls[i] || (
            after_withdrawal(ls, t)[i].available >= 0 && after_withdrawal(ls, t)[i].total >= 0),
{
    lemma_client_position(ls, t.client_id, true);
}

/// A resolve of an event that is not under dispute changes nothing.
pub proof fn lemma_resolve_undisputed(ls: Seq<ClientView>, t: Transaction)
    requires
        !referenced_disputed(ls, t),
    ensures
        after_resolve(ls, t) == ls,
{
}

/// A chargeback of an event that is not under dispute changes nothing.
pub proof fn lemma_chargeback_undisputed(ls: Seq<ClientView>, t: Transaction)
    requires
        !referenced_disputed(ls, t),
    ensures
        after_chargeback(ls, t) == ls,
{
}

/// Every event but a deposit changes nothing when no account has its client id.
pub proof fn lemma_unknown_client(ls: Seq<ClientView>, t: Transaction)
    requires
        forall|i: int| 0 <= i < ls.len() ==> ls[i].client_id != t.client_id,
    ensures
        after_withdrawal(ls, t) == ls,
        after_dispute(ls, t) == ls,
        after_resolve(ls, t) == ls,
        after_chargeback(ls, t) == ls,
{
    lemma_client_position(ls, t.client_id, true);
}

/// Deposits and withdrawals change nothing on a locked account.
pub proof fn lemma_locked_account(ls: Seq<ClientView>, t: Transaction, i: int)
    requires
        ids_unique(ls),
        0 <= i < ls.len(),
        ls[i].client_id == t.client_id,
        ls[i].locked,
    ensures
        after_deposit(ls, t) == ls,
        after_withdrawal(ls, t) == ls,
{
    lemma_client_position(ls, t.client_id, false);
    lemma_client_position(ls, t.client_id, true);
    lemma_first_client_exists(ls, t.client_id, false, i);
}

} // verus!
