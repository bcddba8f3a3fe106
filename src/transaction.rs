use vstd::prelude::*;

use crate::amount::Amount;
use crate::client::{Client, accounts_view, find_client};
use crate::ledger::{
    after_chargeback, after_deposit, after_dispute, after_events, after_resolve, after_withdrawal,
    chargeback_delta, ledger_wf, opened_account, referenced, set_disputed,
};
use crate::laws::lemma_reachable_wf;

verus! {

/// The kind of a ledger event.
#[derive(Clone, Copy, Debug, PartialEq, Eq, Structural)]
pub enum TxType {
    Deposit,
    Withdrawal,
    Dispute,
    Resolve,
    Chargeback,
}

/// One ledger event, as it arrives and as it is kept in an account's history.
#[derive(Clone, Copy, Debug, PartialEq, Eq, Structural)]
pub struct Transaction {
    pub tx_type: TxType,
    pub client_id: u16,
    pub tx_id: u32,
    /// Present for deposits and withdrawals, absent for the dispute family.
    pub amount: Option<Amount>,
    /// True while a dispute on this transaction is open.
    pub disputed: bool,
}

/// The amount an event moves: its `amount`, or nothing where it has none.
pub open spec fn amount_of(t: Transaction) -> int {
    match t.amount {
        Some(a) => a.units as int,
        None => 0,
    }
}

/// Whether `k` is the first position of `history` that holds `tx_id`.
pub open spec fn is_first_tx(history: Seq<Transaction>, tx_id: u32, k: int) -> bool {
    &&& 0 <= k < history.len()
    &&& history[k].tx_id == tx_id
    &&& forall|j: int| 0 <= j < k ==> history[j].tx_id != tx_id
}

/// The first position of `history` that holds `tx_id`, if any does.
pub open spec fn tx_position(history: Seq<Transaction>, tx_id: u32) -> Option<int> {
    if exists|k: int| is_first_tx(history, tx_id, k) {
        Some(choose|k: int| is_first_tx(history, tx_id, k))
    } else {
        None
    }
}

/// Each handler below applies one event to the account store exactly as the
/// matching rule of `ledger` says; a rejected event, including one whose sums
/// would not fit in an `Amount`, leaves the store as it was.
impl Transaction {
    /// The amount this event moves; an absent amount counts as zero.
    pub fn amount(&self) -> (r: Amount)
        ensures
            r.units == amount_of(*self),
    {
        match self.amount {
            Some(a) => a,
            None => Amount::zero(),
        }
    }

    /// Applies `transactions` in order to an empty account store and returns
    /// the accounts it ends with, in the order they were opened.
    pub fn handle_transactions(transactions: Vec<Transaction>) -> (r: Vec<Client>)
        ensures
            accounts_view(r@) == after_events(transactions@),
            ledger_wf(accounts_view(r@)),
    {
        let mut clients: Vec<Client> = Vec::new();
        assert(accounts_view(clients@) =~= after_events(transactions@.take(0)));
        let mut i: usize = 0;
        while i < transactions.len()
            invariant
                i <= transactions@.len(),
                accounts_view(clients@) == after_events(transactions@.take(i as int)),
            decreases transactions@.len() - i,
        {
            let t = transactions[i];
            match t.tx_type {
                TxType::Deposit => t.deposit(&mut clients),
                TxType::Withdrawal => t.withdrawal(&mut clients),
                TxType::Dispute => t.dispute(&mut clients),
                TxType::Resolve => t.resolve(&mut clients),
                TxType::Chargeback => t.chargeback(&mut clients),
            }
            assert(transactions@.take(i + 1).drop_last() =~= transactions@.take(i as int));
            i += 1;
        }
        assert(transactions@.take(i as int) =~= transactions@);
        proof {
            lemma_reachable_wf(transactions@);
        }
        clients
    }

    /// Credits the client's account, opening it if the client is new.
    /// The only event that opens an account; a locked account ignores it.
    pub fn deposit(&self, clients: &mut Vec<Client>)
        ensures
            accounts_view(final(clients)@) == after_deposit(accounts_view(old(clients)@), *self),
    {
        let ghost ls = accounts_view(clients@);
        let amount = self.amount();
        match find_client(clients, self.client_id, false) {
            Some(i) => {
                if !clients[i].locked {
                    let available = clients[i].available_funds.checked_add(amount);
                    let total = clients[i].total_funds.checked_add(amount);
                    if let (Some(available), Some(total)) = (available, total) {
                        clients[i].available_funds = available;
                        clients[i].total_funds = total;
                        clients[i].transactions.push(*self);
                        assert(accounts_view(clients@) =~= after_deposit(ls, *self));
                    }
                }
            },
            None => {
                let client = Client {
                    client_id: self.client_id,
                    available_funds: amount,
                    held_funds: Amount::zero(),
                    total_funds: amount,
                    locked: false,
                    transactions: vec![*self],
                };
                assert(client.transactions@ =~= seq![*self]);
                assert(client@ == opened_account(*self));
                clients.push(client);
                assert(accounts_view(clients@) =~= after_deposit(ls, *self));
            },
        }
    }

    /// Debits an unlocked account when both its available and its total
    /// funds cover the amount; otherwise nothing happens.
    pub fn withdrawal(&self, clients: &mut Vec<Client>)
        ensures
            accounts_view(final(clients)@) == after_withdrawal(accounts_view(old(clients)@), *self),
    {
        let ghost ls = accounts_view(clients@);
        let amount = self.amount();
        if let Some(i) = find_client(clients, self.client_id, true) {
            if clients[i].available_funds.units >= amount.units && clients[i].total_funds.units
                >= amount.units {
                let available = clients[i].available_funds.checked_sub(amount);
                let total = clients[i].total_funds.checked_sub(amount);
                if let (Some(available), Some(total)) = (available, total) {
                    clients[i].available_funds = available;
                    clients[i].total_funds = total;
                    clients[i].transactions.push(*self);
                    assert(accounts_view(clients@) =~= after_withdrawal(ls, *self));
                }
            }
        }
    }

    /// Finds the unlocked account of this event's client and, in its history,
    /// the first event with this event's id.
    pub fn find_referenced(&self, clients: &Vec<Client>) -> (r: Option<(usize, usize)>)
        ensures
            match r {
                Some((i, k)) => referenced(accounts_view(clients@), *self) == Some(
                    (i as int, k as int),
                ),
                None => referenced(accounts_view(clients@), *self) is None,
            },
    {
        match find_client(clients, self.client_id, true) {
            None => None,
            Some(i) => {
                assert(accounts_view(clients@)[i as int].history == clients@[i as int].transactions@);
                match find_transaction(&clients[i].transactions, self.tx_id) {
                    None => None,
                    Some(k) => Some((i, k)),
                }
            },
        }
    }

    /// Holds the amount of the referenced past event, unless it is already
    /// under dispute, and marks it disputed.
    pub fn dispute(&self, clients: &mut Vec<Client>)
        ensures
            accounts_view(final(clients)@) == after_dispute(accounts_view(old(clients)@), *self),
    {
        let ghost ls = accounts_view(clients@);
        if let Some((i, k)) = self.find_referenced(clients) {
            let r = clients[i].transactions[k];
            if !r.disputed {
                let amount = r.amount();
                let available = clients[i].available_funds.checked_sub(amount);
                let held = clients[i].held_funds.checked_add(amount);
                if let (Some(available), Some(held)) = (available, held) {
                    clients[i].available_funds = available;
                    clients[i].held_funds = held;
                    clients[i].transactions.set(k, Transaction { disputed: true, ..r });
                    clients[i].transactions.push(*self);
                    assert(clients@[i as int].transactions@ =~= set_disputed(
                        ls[i as int].history,
                        k as int,
                        true,
                    ).push(*self));
                    assert(accounts_view(clients@) =~= after_dispute(ls, *self));
                }
            }
        }
    }

    /// Releases the hold on the referenced past event if it is under dispute.
    pub fn resolve(&self, clients: &mut Vec<Client>)
        ensures
            accounts_view(final(clients)@) == after_resolve(accounts_view(old(clients)@), *self),
    {
        let ghost ls = accounts_view(clients@);
        if let Some((i, k)) = self.find_referenced(clients) {
            let r = clients[i].transactions[k];
            if r.disputed {
                let amount = r.amount();
                let held = clients[i].held_funds.checked_sub(amount);
                let available = clients[i].available_funds.checked_add(amount);
                if let (Some(held), Some(available)) = (held, available) {
                    clients[i].held_funds = held;
                    clients[i].available_funds = available;
                    clients[i].transactions.set(k, Transaction { disputed: false, ..r });
                    clients[i].transactions.push(*self);
                    assert(clients@[i as int].transactions@ =~= set_disputed(
                        ls[i as int].history,
                        k as int,
                        false,
                    ).push(*self));
                    assert(accounts_view(clients@) =~= after_resolve(ls, *self));
                }
            }
        }
    }

    /// Settles the referenced past event if it is under dispute: a deposit is
    /// taken back from the held and total funds, a withdrawal is paid back into
    /// the total while its hold is released. The account is then locked.
    pub fn chargeback(&self, clients: &mut Vec<Client>)
        ensures
            accounts_view(final(clients)@) == after_chargeback(accounts_view(old(clients)@), *self),
    {
        let ghost ls = accounts_view(clients@);
        if let Some((i, k)) = self.find_referenced(clients) {
            let r = clients[i].transactions[k];
            if r.disputed {
                let amount = r.amount();
                let held = clients[i].held_funds.checked_sub(amount);
                let total = match r.tx_type {
                    TxType::Deposit => clients[i].total_funds.checked_sub(amount),
                    _ => clients[i].total_funds.checked_add(amount),
                };
                assert(total is Some ==> total->0.units == ls[i as int].total + chargeback_delta(r));
                if let (Some(held), Some(total)) = (held, total) {
                    clients[i].held_funds = held;
                    clients[i].total_funds = total;
                    clients[i].transactions.set(k, Transaction { disputed: false, ..r });
                    clients[i].transactions.push(*self);
                    clients[i].locked = true;
                    assert(clients@[i as int].transactions@ =~= set_disputed(
                        ls[i as int].history,
                        k as int,
                        false,
                    ).push(*self));
                    assert(accounts_view(clients@) =~= after_chargeback(ls, *self));
                }
            }
        }
    }
}

/// The first position of `history` whose event has id `tx_id`.
pub fn find_transaction(history: &Vec<Transaction>, tx_id: u32) -> (r: Option<usize>)
    ensures
        match r {
            Some(k) => tx_position(history@, tx_id) == Some(k as int),
            None => tx_position(history@, tx_id) is None,
        },
{
    let mut k: usize = 0;
    while k < history.len()
        invariant
            k <= history@.len(),
            forall|j: int| 0 <= j < k ==> history@[j].tx_id != tx_id,
        decreases history@.len() - k,
    {
        if history[k].tx_id == tx_id {
            proof {
                assert(is_first_tx(history@, tx_id, k as int));
                let c = choose|c: int| is_first_tx(history@, tx_id, c);
                assert(c == k as int);
            }
            return Some(k);
        }
        k += 1;
    }
    None
}

} // verus!
