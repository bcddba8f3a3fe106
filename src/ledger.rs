//! The ledger's rules, stated over account states: what each event does to
//! the account store, and what a whole sequence of events leaves behind.
//!
//! An event whose arithmetic would carry a balance out of the range of
//! `Amount` is refused like any other rejected event: it changes nothing.
use vstd::prelude::*;

use crate::amount::fits;
use crate::client::{ClientView, client_position};
use crate::transaction::{Transaction, TxType, amount_of, tx_position};

verus! {

/// The account that a first deposit opens.
pub open spec fn opened_account(t: Transaction) -> ClientView {
    ClientView {
        client_id: t.client_id,
        available: amount_of(t),
        held: 0,
        total: amount_of(t),
        locked: false,
        history: seq![t],
    }
}

/// A deposit opens the account of an unseen client, credits an unlocked one
/// and leaves a locked one alone.
pub open spec fn after_deposit(ls: Seq<ClientView>, t: Transaction) -> Seq<ClientView> {
    match client_position(ls, t.client_id, false) {
        None => ls.push(opened_account(t)),
        Some(i) => {
            let c = ls[i];
            let a = amount_of(t);
            if c.locked || !fits(c.available + a) || !fits(c.total + a) {
                ls
            } else {
                ls.update(
                    i,
                    ClientView { available: c.available + a, total: c.total + a, history: c.history.push(t), ..c },
                )
            }
        },
    }
}

/// A withdrawal debits an unlocked account that holds enough, and does
/// nothing otherwise.
pub open spec fn after_withdrawal(ls: Seq<ClientView>, t: Transaction) -> Seq<ClientView> {
    match client_position(ls, t.client_id, true) {
        None => ls,
        Some(i) => {
            let c = ls[i];
            let a = amount_of(t);
            if c.available >= a && c.total >= a && fits(c.available - a) && fits(c.total - a) {
                ls.update(
                    i,
                    ClientView { available: c.available - a, total: c.total - a, history: c.history.push(t), ..c },
                )
            } else {
                ls
            }
        },
    }
}

/// The positions of the unlocked account and of the past event that a
/// dispute, resolve or chargeback refers to.
pub open spec fn referenced(ls: Seq<ClientView>, t: Transaction) -> Option<(int, int)> {
    match client_position(ls, t.client_id, true) {
        None => None,
        Some(i) => match tx_position(ls[i].history, t.tx_id) {
            None => None,
            Some(k) => Some((i, k)),
        },
    }
}

/// Whether the event that `t` refers to is found and under dispute.
pub open spec fn referenced_disputed(ls: Seq<ClientView>, t: Transaction) -> bool {
    match referenced(ls, t) {
        Some((i, k)) => ls[i].history[k].disputed,
        None => false,
    }
}

/// `h` with the dispute flag of its `k`th event set to `d`.
pub open spec fn set_disputed(h: Seq<Transaction>, k: int, d: bool) -> Seq<Transaction> {
    h.update(k, Transaction { disputed: d, ..h[k] })
}

/// A dispute holds the amount of an undisputed past event and marks it disputed.
pub open spec fn after_dispute(ls: Seq<ClientView>, t: Transaction) -> Seq<ClientView> {
    match referenced(ls, t) {
        None => ls,
        Some((i, k)) => {
            let c = ls[i];
            let r = c.history[k];
            let a = amount_of(r);
            if r.disputed || !fits(c.available - a) || !fits(c.held + a) {
                ls
            } else {
                ls.update(
                    i,
                    ClientView {
                        available: c.available - a,
                        held: c.held + a,
                        history: set_disputed(c.history, k, true).push(t),
                        ..c
                    },
                )
            }
        },
    }
}

/// A resolve releases the hold on a disputed past event.
pub open spec fn after_resolve(ls: Seq<ClientView>, t: Transaction) -> Seq<ClientView> {
    match referenced(ls, t) {
        None => ls,
        Some((i, k)) => {
            let c = ls[i];
            let r = c.history[k];
            let a = amount_of(r);
            if !r.disputed || !fits(c.held - a) || !fits(c.available + a) {
                ls
            } else {
                ls.update(
                    i,
                    ClientView {
                        available: c.available + a,
                        held: c.held - a,
                        history: set_disputed(c.history, k, false).push(t),
                        ..c
                    },
                )
            }
        },
    }
}

/// The change a chargeback makes to the total: a deposit is taken back, any
/// other event is paid back.
pub open spec fn chargeback_delta(r: Transaction) -> int {
    if r.tx_type == TxType::Deposit {
        -amount_of(r)
    } else {
        amount_of(r)
    }
}

/// A chargeback settles a disputed past event against the client and locks
/// the account.
pub open spec fn after_chargeback(ls: Seq<ClientView>, t: Transaction) -> Seq<ClientView> {
    match referenced(ls, t) {
        None => ls,
        Some((i, k)) => {
            let c = ls[i];
            let r = c.history[k];
            let a = amount_of(r);
            let d = chargeback_delta(r);
            if !r.disputed || !fits(c.held - a) || !fits(c.total + d) {
                ls
            } else {
                ls.update(
                    i,
                    ClientView {
                        held: c.held - a,
                        total: c.total + d,
                        locked: true,
                        history: set_disputed(c.history, k, false).push(t),
                        ..c
                    },
                )
            }
        },
    }
}

/// What one event does to the account store.
pub open spec fn after_event(ls: Seq<ClientView>, t: Transaction) -> Seq<ClientView> {
    match t.tx_type {
        TxType::Deposit => after_deposit(ls, t),
        TxType::Withdrawal => after_withdrawal(ls, t),
        TxType::Dispute => after_dispute(ls, t),
        TxType::Resolve => after_resolve(ls, t),
        TxType::Chargeback => after_chargeback(ls, t),
    }
}

/// The account store left by applying `events` in order to an empty one.
pub open spec fn after_events(events: Seq<Transaction>) -> Seq<ClientView>
    decreases events.len(),
{
    if events.len() == 0 {
        Seq::empty()
    } else {
        after_event(after_events(events.drop_last()), events.last())
    }
}

} // verus!

verus! {

/// Every account's total is its available plus its held funds.
pub open spec fn balanced(ls: Seq<ClientView>) -> bool {
    forall|i: int| 0 <= i < ls.len() ==> #[trigger] ls[i].total == ls[i].available + ls[i].held
}

/// Every unlocked account's total is its available plus its held funds.
pub open spec fn balanced_unlocked(ls: Seq<ClientView>) -> bool {
    forall|i: int|
        0 <= i < ls.len() && !ls[i].locked ==> #[trigger] ls[i].total == ls[i].available
            + ls[i].held
}

/// Whether `t` is a chargeback that settles a disputed event other than a
/// deposit, of a nonzero amount: the one event that pays back into the total
/// without crediting the available or the held funds.
pub open spec fn charges_back_withdrawal(ls: Seq<ClientView>, t: Transaction) -> bool {
    t.tx_type == TxType::Chargeback && match referenced(ls, t) {
        Some((i, k)) => {
            let r = ls[i].history[k];
            r.tx_type != TxType::Deposit && amount_of(r) != 0 && after_chargeback(ls, t) != ls
        },
        None => false,
    }
}

/// Whether no event of `events`, applied in order from an empty store,
/// charges back a withdrawal.
pub open spec fn no_withdrawal_charged_back(events: Seq<Transaction>) -> bool {
    forall|n: int|
        0 <= n < events.len() ==> !charges_back_withdrawal(
            after_events(#[trigger] events.take(n)),
            events[n],
        )
}

/// No two accounts share a client id.
pub open spec fn ids_unique(ls: Seq<ClientView>) -> bool {
    forall|i: int, j: int|
        0 <= i < ls.len() && 0 <= j < ls.len() && i != j ==> #[trigger] ls[i].client_id
            != #[trigger] ls[j].client_id
}

/// The invariant of a reachable account store.
pub open spec fn ledger_wf(ls: Seq<ClientView>) -> bool {
    balanced_unlocked(ls) && ids_unique(ls)
}

} // verus!
