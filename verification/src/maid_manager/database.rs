use crate::identity::Identity;
use crate::ledger::{accounts_of, names_distinct, Ledger};
use vstd::prelude::*;

verus! {

/// Allowance granted to a client the first time it is seen, in bytes: one
/// gibibyte. Every client gets the same, since nothing decides yet who may
/// open an account and with how much.
pub const DEFAULT_ALLOWANCE: u64 = 1073741824;

/// What a client account records, as mathematical integers.
pub struct ClientBalance {
    pub data_stored: nat,
    pub space_available: nat,
}

impl ClientBalance {
    /// The allowance this balance was granted: what is used plus what is left.
    pub open spec fn allowance(self) -> nat {
        self.data_stored + self.space_available
    }

    /// Whether a write of `size` bytes fits in what is left.
    pub open spec fn accepts(self, size: nat) -> bool {
        size <= self.space_available
    }

    /// The balance after a write of `size` bytes: unchanged where it does not fit.
    pub open spec fn put(self, size: nat) -> ClientBalance {
        if self.accepts(size) {
            ClientBalance {
                data_stored: self.data_stored + size,
                space_available: (self.space_available - size) as nat,
            }
        } else {
            self
        }
    }

    /// The balance after `size` bytes are given back. No more than what is
    /// recorded as stored is ever reclaimed.
    pub open spec fn delete(self, size: nat) -> ClientBalance {
        if self.data_stored < size {
            ClientBalance { data_stored: 0, space_available: self.space_available + self.data_stored }
        } else {
            ClientBalance {
                data_stored: (self.data_stored - size) as nat,
                space_available: self.space_available + size,
            }
        }
    }

    /// The balance of an account that was just opened.
    pub open spec fn initial() -> ClientBalance {
        ClientBalance { data_stored: 0, space_available: DEFAULT_ALLOWANCE as nat }
    }
}

/// A write that fits moves `size` bytes from what is available to what is
/// stored, so the allowance stays what it was.
pub proof fn lemma_put_conserves(balance: ClientBalance, size: nat)
    requires
        balance.accepts(size),
    ensures
        balance.put(size).data_stored == balance.data_stored + size,
        balance.put(size).allowance() == balance.allowance(),
{
}

/// A write is refused exactly when it asks for more than is available, and
/// a refused write leaves the balance as it was.
pub proof fn lemma_put_all_or_nothing(balance: ClientBalance, size: nat)
    ensures
        balance.accepts(size) <==> size <= balance.space_available,
        !balance.accepts(size) ==> balance.put(size) == balance,
        balance.accepts(size) ==> balance.put(size).space_available + size
            == balance.space_available,
{
}

/// Giving back at least what is stored empties the stored amount and
/// reclaims just that amount, whatever was asked for.
pub proof fn lemma_delete_stops_at_zero(balance: ClientBalance, size: nat)
    requires
        size >= balance.data_stored,
    ensures
        balance.delete(size).data_stored == 0,
        balance.delete(size).space_available == balance.space_available + balance.data_stored,
{
}

/// Giving bytes back never changes the allowance.
pub proof fn lemma_delete_conserves(balance: ClientBalance, size: nat)
    ensures
        balance.delete(size).allowance() == balance.allowance(),
{
}

/// One client's account: bytes stored and bytes still available.
#[derive(PartialEq, Eq, Debug)]
pub struct MaidManagerAccount {
    data_stored: u64,
    space_available: u64,
}

impl View for MaidManagerAccount {
    type V = ClientBalance;

    closed spec fn view(&self) -> ClientBalance {
        ClientBalance {
            data_stored: self.data_stored as nat,
            space_available: self.space_available as nat,
        }
    }
}

impl Clone for MaidManagerAccount {
    fn clone(&self) -> (copy: Self)
        ensures
            copy == *self,
    {
        proof {
            use_type_invariant(self);
        }
        MaidManagerAccount {
            data_stored: self.data_stored,
            space_available: self.space_available,
        }
    }
}

impl MaidManagerAccount {
    /// The two counters never add up to more than a `u64` holds.
    #[verifier::type_invariant]
    spec fn counters_fit(&self) -> bool {
        self.data_stored + self.space_available <= u64::MAX
    }

    /// Opens an account with nothing stored and the default allowance.
    pub fn new() -> (account: MaidManagerAccount)
        ensures
            account@ == ClientBalance::initial(),
    {
        MaidManagerAccount { data_stored: 0, space_available: DEFAULT_ALLOWANCE }
    }

    /// Records a write of `size` bytes if it fits in the space available, and
    /// says whether it did. A write that does not fit changes nothing.
    pub fn put_data(&mut self, size: u64) -> (accepted: bool)
        ensures
            accepted == (size <= old(self)@.space_available),
            final(self)@ == old(self)@.put(size as nat),
            accepted ==> final(self)@.data_stored == old(self)@.data_stored + size,
            !accepted ==> *final(self) == *old(self),
            final(self)@.allowance() == old(self)@.allowance(),
    {
        proof {
            use_type_invariant(&*self);
        }
        if size > self.space_available {
            return false;
        }
        *self = MaidManagerAccount {
            data_stored: self.data_stored + size,
            space_available: self.space_available - size,
        };
        true
    }

    /// Gives `size` bytes back. Where `size` exceeds what is stored, the
    /// stored amount drops to zero and only that amount is reclaimed.
    pub fn delete_data(&mut self, size: u64)
        ensures
            final(self)@ == old(self)@.delete(size as nat),
            size >= old(self)@.data_stored ==> final(self)@.data_stored == 0
                && final(self)@.space_available == old(self)@.space_available + old(self)@.data_stored,
            final(self)@.allowance() == old(self)@.allowance(),
    {
        proof {
            use_type_invariant(&*self);
        }
        if self.data_stored < size {
            *self = MaidManagerAccount {
                data_stored: 0,
                space_available: self.space_available + self.data_stored,
            };
        } else {
            *self = MaidManagerAccount {
                data_stored: self.data_stored - size,
                space_available: self.space_available + size,
            };
        }
    }

    /// Bytes still available to the client.
    pub fn get_available_space(&self) -> (space: u64)
        ensures
            space == self@.space_available,
    {
        self.space_available
    }

    /// Bytes the client has stored.
    pub fn get_data_stored(&self) -> (stored: u64)
        ensures
            stored == self@.data_stored,
    {
        self.data_stored
    }
}

/// The balance that a write or a delete for `name` starts from: the one kept
/// under `name`, or that of a newly opened account where there is none.
pub open spec fn balance_of(accounts: Map<Seq<u8>, ClientBalance>, name: Seq<u8>) -> ClientBalance {
    if accounts.contains_key(name) {
        accounts[name]
    } else {
        ClientBalance::initial()
    }
}

/// The accounts after a write of `size` bytes for `name`: `name` has an
/// account afterwards, whether the write fitted or not.
pub open spec fn after_put(accounts: Map<Seq<u8>, ClientBalance>, name: Seq<u8>, size: nat) -> Map<
    Seq<u8>,
    ClientBalance,
> {
    accounts.insert(name, balance_of(accounts, name).put(size))
}

/// The accounts after `size` bytes are given back for `name`: unchanged where
/// `name` has no account.
pub open spec fn after_delete(
    accounts: Map<Seq<u8>, ClientBalance>,
    name: Seq<u8>,
    size: nat,
) -> Map<Seq<u8>, ClientBalance> {
    if accounts.contains_key(name) {
        accounts.insert(name, accounts[name].delete(size))
    } else {
        accounts
    }
}

/// A write for an identity gives it an account, also where the write is
/// refused, and touches no other identity.
pub proof fn lemma_put_opens_account(accounts: Map<Seq<u8>, ClientBalance>, name: Seq<u8>, size: nat)
    ensures
        after_put(accounts, name, size).contains_key(name),
        !accounts.contains_key(name) ==> after_put(accounts, name, size)[name]
            == ClientBalance::initial().put(size),
        forall|other: Seq<u8>|
            other != name ==> (after_put(accounts, name, size).contains_key(other)
                <==> accounts.contains_key(other)),
{
}

/// A delete for an identity without an account changes nothing: the
/// identity still has no account afterwards.
pub proof fn lemma_delete_opens_no_account(
    accounts: Map<Seq<u8>, ClientBalance>,
    name: Seq<u8>,
    size: nat,
)
    requires
        !accounts.contains_key(name),
    ensures
        after_delete(accounts, name, size) == accounts,
        !after_delete(accounts, name, size).contains_key(name),
{
}

/// The accounts of all clients, each under its identity.
pub struct MaidManagerDatabase {
    storage: Ledger<MaidManagerAccount>,
}

impl View for MaidManagerDatabase {
    type V = Map<Seq<u8>, ClientBalance>;

    closed spec fn view(&self) -> Map<Seq<u8>, ClientBalance> {
        self.storage@
    }
}

impl MaidManagerDatabase {
    /// A database without accounts.
    pub fn new() -> (db: MaidManagerDatabase)
        ensures
            db@ == Map::<Seq<u8>, ClientBalance>::empty(),
    {
        MaidManagerDatabase { storage: Ledger::new() }
    }

    /// Whether `name` has an account. Nothing changes.
    pub fn exist(&mut self, name: &Identity) -> (found: bool)
        ensures
            found == old(self)@.contains_key(name@),
            final(self)@ == old(self)@,
    {
        self.storage.get(name).is_some()
    }

    /// Records a write of `size` bytes for `name` and says whether it fitted.
    /// An identity without an account is given one with the default
    /// allowance first, and keeps it also where the write is refused.
    pub fn put_data(&mut self, name: &Identity, size: u64) -> (accepted: bool)
        ensures
            accepted == balance_of(old(self)@, name@).accepts(size as nat),
            final(self)@ == after_put(old(self)@, name@, size as nat),
            final(self)@.contains_key(name@),
    {
        let mut account = match self.storage.get(name) {
            Some(kept) => kept.clone(),
            None => MaidManagerAccount::new(),
        };
        let accepted = account.put_data(size);
        self.storage.insert(*name, account);
        accepted
    }

    /// Empties the database and hands out every account it held, each once,
    /// with its identity.
    pub fn retrieve_all_and_reset(&mut self) -> (drained: Vec<(Identity, MaidManagerAccount)>)
        ensures
            final(self)@ == Map::<Seq<u8>, ClientBalance>::empty(),
            forall|name: Seq<u8>| !final(self)@.contains_key(name),
            names_distinct(drained@),
            accounts_of(drained@) == old(self)@,
    {
        self.storage.take_all()
    }

    /// Gives `size` bytes back to the account of `name`. An identity without
    /// an account gets none, and nothing changes.
    pub fn delete_data(&mut self, name: &Identity, size: u64)
        ensures
            final(self)@ == after_delete(old(self)@, name@, size as nat),
            !old(self)@.contains_key(name@) ==> final(self)@ == old(self)@,
    {
        match self.storage.get(name) {
            Some(kept) => {
                let mut account = kept.clone();
                account.delete_data(size);
                self.storage.insert(*name, account);
            },
            None => (),
        }
    }
}

} // verus!
