use vstd::prelude::*;

use crate::amount::Amount;
use crate::transaction::Transaction;

verus! {

/// A client's account: its balances, lock status and the events applied to it.
pub struct Client {
    pub client_id: u16,
    pub available_funds: Amount,
    pub held_funds: Amount,
    pub total_funds: Amount,
    /// Once set, the account takes no further event.
    pub locked: bool,
    /// Every event applied to the account, in order.
    pub transactions: Vec<Transaction>,
}

/// The mathematical state of an account.
pub struct ClientView {
    pub client_id: u16,
    pub available: int,
    pub held: int,
    pub total: int,
    pub locked: bool,
    pub history: Seq<Transaction>,
}

impl View for Client {
    type V = ClientView;

    open spec fn view(&self) -> ClientView {
        ClientView {
            client_id: self.client_id,
            available: self.available_funds.units as int,
            held: self.held_funds.units as int,
            total: self.total_funds.units as int,
            locked: self.locked,
            history: self.transactions@,
        }
    }
}

/// The account store as a sequence of account states.
pub open spec fn accounts_view(clients: Seq<Client>) -> Seq<ClientView> {
    clients.map_values(|c: Client| c@)
}

/// Whether `c` is the account of `client_id`, and unlocked where that is asked for.
pub open spec fn client_matches(c: ClientView, client_id: u16, require_unlocked: bool) -> bool {
    c.client_id == client_id && (!require_unlocked || !c.locked)
}

/// Whether `i` is the first position of `ls` that matches.
pub open spec fn is_first_client(
    ls: Seq<ClientView>,
    client_id: u16,
    require_unlocked: bool,
    i: int,
) -> bool {
    &&& 0 <= i < ls.len()
    &&& client_matches(ls[i], client_id, require_unlocked)
    &&& forall|j: int| 0 <= j < i ==> !client_matches(ls[j], client_id, require_unlocked)
}

/// The first position of `ls` that matches, if any does.
pub open spec fn client_position(ls: Seq<ClientView>, client_id: u16, require_unlocked: bool) -> Option<int> {
    if exists|i: int| is_first_client(ls, client_id, require_unlocked, i) {
        Some(choose|i: int| is_first_client(ls, client_id, require_unlocked, i))
    } else {
        None
    }
}

/// Finds the account of `client_id`; with `require_unlocked`, a locked one is passed over.
pub fn find_client(clients: &Vec<Client>, client_id: u16, require_unlocked: bool) -> (r: Option<usize>)
    ensures
        match r {
            Some(i) => client_position(accounts_view(clients@), client_id, require_unlocked) == Some(
                i as int,
            ),
            None => client_position(accounts_view(clients@), client_id, require_unlocked) is None,
        },
{
    let ghost ls = accounts_view(clients@);
    let mut i: usize = 0;
    while i < clients.len()
        invariant
            i <= clients@.len(),
            ls == accounts_view(clients@),
            forall|j: int| 0 <= j < i ==> !client_matches(ls[j], client_id, require_unlocked),
        decreases clients@.len() - i,
    {
        let c = &clients[i];
        if c.client_id == client_id && (!require_unlocked || !c.locked) {
            proof {
                assert(is_first_client(ls, client_id, require_unlocked, i as int));
                let f = choose|f: int| is_first_client(ls, client_id, require_unlocked, f);
                assert(f == i as int);
            }
            return Some(i);
        }
        i += 1;
    }
    None
}

} // verus!
