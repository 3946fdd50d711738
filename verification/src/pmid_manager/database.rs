use crate::identity::{group_names, in_group, is_in_group, Identity};
use crate::ledger::{accounts_of, has_name, lemma_entry_is_kept, names_distinct, place_of, Ledger};
use vstd::prelude::*;

verus! {

/// Space a storage node is taken to offer the first time it is seen, in
/// bytes: one gibibyte, until the node reports what it really offers.
pub const DEFAULT_OFFERED_SPACE: u64 = 1073741824;

/// What a storage node's account records, as mathematical integers.
pub struct NodeBalance {
    pub stored_total_size: nat,
    pub lost_total_size: nat,
    pub offered_space: nat,
}

impl NodeBalance {
    /// Whether `size` more bytes stay within the space the node offers.
    pub open spec fn accepts(self, size: nat) -> bool {
        self.stored_total_size + size <= self.offered_space
    }

    /// The balance after a write of `size` bytes: unchanged where the write
    /// would exceed the offered space, which is a ceiling and is never spent.
    pub open spec fn put(self, size: nat) -> NodeBalance {
        if self.accepts(size) {
            NodeBalance { stored_total_size: self.stored_total_size + size, ..self }
        } else {
            self
        }
    }

    /// The balance after `size` bytes leave the node, stopping at zero.
    pub open spec fn delete(self, size: nat) -> NodeBalance {
        if self.stored_total_size < size {
            NodeBalance { stored_total_size: 0, ..self }
        } else {
            NodeBalance { stored_total_size: (self.stored_total_size - size) as nat, ..self }
        }
    }

    /// The balance after `size` bytes are lost for good: they leave the
    /// stored total, stopping at zero, and all of `size` is recorded as lost.
    pub open spec fn lose(self, size: nat) -> NodeBalance {
        NodeBalance { lost_total_size: self.lost_total_size + size, ..self.delete(size) }
    }

    /// The balance of an account that was just opened.
    pub open spec fn initial() -> NodeBalance {
        NodeBalance {
            stored_total_size: 0,
            lost_total_size: 0,
            offered_space: DEFAULT_OFFERED_SPACE as nat,
        }
    }
}

/// Losing bytes and updating the account by the same amount come to the
/// same balance: the stored total drops, stopping at zero, the lost total
/// grows by the whole amount, and the offered space stays.
pub proof fn lemma_lose_is_delete_then_record(balance: NodeBalance, size: nat)
    ensures
        balance.lose(size).stored_total_size == balance.delete(size).stored_total_size,
        balance.lose(size).lost_total_size == balance.lost_total_size + size,
        balance.lose(size).offered_space == balance.offered_space,
        balance.delete(size).lost_total_size == balance.lost_total_size,
        balance.delete(size).offered_space == balance.offered_space,
{
}

/// An accepted write keeps the stored total within the offered space, which
/// it never spends; a refused write changes nothing.
pub proof fn lemma_put_within_offer(balance: NodeBalance, size: nat)
    ensures
        balance.accepts(size) ==> balance.put(size).stored_total_size == balance.stored_total_size
            + size && balance.put(size).stored_total_size <= balance.offered_space,
        !balance.accepts(size) ==> balance.put(size) == balance,
        balance.put(size).offered_space == balance.offered_space,
        balance.put(size).lost_total_size == balance.lost_total_size,
{
}

/// One storage node's account: bytes held, bytes lost, and space offered.
#[derive(PartialEq, Eq, Debug)]
pub struct PmidManagerAccount {
    stored_total_size: u64,
    lost_total_size: u64,
    offered_space: u64,
}

impl View for PmidManagerAccount {
    type V = NodeBalance;

    closed spec fn view(&self) -> NodeBalance {
        NodeBalance {
            stored_total_size: self.stored_total_size as nat,
            lost_total_size: self.lost_total_size as nat,
            offered_space: self.offered_space as nat,
        }
    }
}

impl Clone for PmidManagerAccount {
    fn clone(&self) -> (copy: Self)
        ensures
            copy == *self,
    {
        PmidManagerAccount {
            stored_total_size: self.stored_total_size,
            lost_total_size: self.lost_total_size,
            offered_space: self.offered_space,
        }
    }
}

impl PmidManagerAccount {
    /// Opens an account with nothing stored, nothing lost and the default
    /// offered space.
    pub fn new() -> (account: PmidManagerAccount)
        ensures
            account@ == NodeBalance::initial(),
    {
        PmidManagerAccount {
            stored_total_size: 0,
            lost_total_size: 0,
            offered_space: DEFAULT_OFFERED_SPACE,
        }
    }

    /// Records a write of `size` bytes if the stored total stays within the
    /// offered space, and says whether it did. A refused write changes nothing.
    pub fn put_data(&mut self, size: u64) -> (accepted: bool)
        ensures
            accepted == (old(self)@.stored_total_size + size <= old(self)@.offered_space),
            final(self)@ == old(self)@.put(size as nat),
            !accepted ==> *final(self) == *old(self),
    {
        if size > self.offered_space || self.stored_total_size > self.offered_space - size {
            return false;
        }
        self.stored_total_size += size;
        true
    }

    /// Takes `size` bytes off the stored total, stopping at zero.
    pub fn delete_data(&mut self, size: u64)
        ensures
            final(self)@ == old(self)@.delete(size as nat),
    {
        if self.stored_total_size < size {
            self.stored_total_size = 0;
        } else {
            self.stored_total_size -= size;
        }
    }

    /// Records `size` bytes as lost for good: they leave the stored total,
    /// which stops at zero, and all of them are added to the lost total,
    /// which has to stay within a `u64`.
    pub fn handle_lost_data(&mut self, size: u64)
        requires
            old(self)@.lost_total_size + size <= u64::MAX,
        ensures
            final(self)@ == old(self)@.lose(size as nat),
    {
        self.delete_data(size);
        self.lost_total_size += size;
    }

    /// Records a failure that cost `size` bytes: the same as losing them, so
    /// the lost total has to stay within a `u64` here too.
    pub fn handle_falure(&mut self, size: u64)
        requires
            old(self)@.lost_total_size + size <= u64::MAX,
        ensures
            final(self)@ == old(self)@.lose(size as nat),
    {
        self.handle_lost_data(size);
    }

    /// Replaces the offered space. The stored total is not held against the
    /// new value, so it may exceed it until enough is deleted.
    pub fn set_available_size(&mut self, available_size: u64)
        ensures
            final(self)@ == (NodeBalance { offered_space: available_size as nat, ..old(self)@ }),
    {
        self.offered_space = available_size;
    }

    /// Takes `diff_size` bytes off the stored total, stopping at zero, and
    /// adds all of them to the lost total, which has to stay within a `u64`.
    pub fn update_account(&mut self, diff_size: u64)
        requires
            old(self)@.lost_total_size + diff_size <= u64::MAX,
        ensures
            final(self)@ == old(self)@.lose(diff_size as nat),
    {
        if self.stored_total_size < diff_size {
            self.stored_total_size = 0;
        } else {
            self.stored_total_size -= diff_size;
        }
        self.lost_total_size += diff_size;
    }

    /// Space the node offers.
    pub fn get_offered_space(&self) -> (space: u64)
        ensures
            space == self@.offered_space,
    {
        self.offered_space
    }

    /// Bytes recorded as lost.
    pub fn get_lost_total_size(&self) -> (lost: u64)
        ensures
            lost == self@.lost_total_size,
    {
        self.lost_total_size
    }

    /// Bytes the node holds.
    pub fn get_stored_total_size(&self) -> (stored: u64)
        ensures
            stored == self@.stored_total_size,
    {
        self.stored_total_size
    }
}

/// The balance that a write for `name` starts from: the one kept under
/// `name`, or that of a newly opened account where there is none.
pub open spec fn balance_of(accounts: Map<Seq<u8>, NodeBalance>, name: Seq<u8>) -> NodeBalance {
    if accounts.contains_key(name) {
        accounts[name]
    } else {
        NodeBalance::initial()
    }
}

/// The accounts after a write of `size` bytes for `name`: `name` has an
/// account afterwards, whether the write was accepted or not.
pub open spec fn after_put(accounts: Map<Seq<u8>, NodeBalance>, name: Seq<u8>, size: nat) -> Map<
    Seq<u8>,
    NodeBalance,
> {
    accounts.insert(name, balance_of(accounts, name).put(size))
}

/// A write for an identity gives it an account, also where the write is
/// refused, and touches no other identity.
pub proof fn lemma_put_opens_account(accounts: Map<Seq<u8>, NodeBalance>, name: Seq<u8>, size: nat)
    ensures
        after_put(accounts, name, size).contains_key(name),
        !accounts.contains_key(name) ==> after_put(accounts, name, size)[name]
            == NodeBalance::initial().put(size),
        forall|other: Seq<u8>|
            other != name ==> (after_put(accounts, name, size).contains_key(other)
                <==> accounts.contains_key(other)),
{
}

/// What a drain hands out for `group` holds only identities of `group`, and
/// of each of them the account that was kept.
pub proof fn lemma_drained_within_group(
    accounts: Map<Seq<u8>, NodeBalance>,
    group: Seq<Identity>,
    name: Seq<u8>,
)
    ensures
        accounts.restrict(group_names(group)).contains_key(name) <==> accounts.contains_key(name)
            && in_group(group, name),
        accounts.restrict(group_names(group)).contains_key(name) ==> accounts.restrict(
            group_names(group),
        )[name] == accounts[name],
{
}

/// The accounts of all storage nodes, each under its identity.
pub struct PmidManagerDatabase {
    storage: Ledger<PmidManagerAccount>,
}

impl View for PmidManagerDatabase {
    type V = Map<Seq<u8>, NodeBalance>;

    closed spec fn view(&self) -> Map<Seq<u8>, NodeBalance> {
        self.storage@
    }
}

impl PmidManagerDatabase {
    /// A database without accounts.
    pub fn new() -> (db: PmidManagerDatabase)
        ensures
            db@ == Map::<Seq<u8>, NodeBalance>::empty(),
    {
        PmidManagerDatabase { storage: Ledger::new() }
    }

    /// Whether `name` has an account. Nothing changes.
    pub fn exist(&mut self, name: &Identity) -> (found: bool)
        ensures
            found == old(self)@.contains_key(name@),
            final(self)@ == old(self)@,
    {
        self.storage.get(name).is_some()
    }

    /// Records a write of `size` bytes for `name` and says whether it stayed
    /// within the offered space. An identity without an account is given one
    /// with the default offered space first, and keeps it also where the
    /// write is refused.
    pub fn put_data(&mut self, name: &Identity, size: u64) -> (accepted: bool)
        ensures
            accepted == balance_of(old(self)@, name@).accepts(size as nat),
            final(self)@ == after_put(old(self)@, name@, size as nat),
            final(self)@.contains_key(name@),
    {
        let mut account = match self.storage.get(name) {
            Some(kept) => kept.clone(),
            None => PmidManagerAccount::new(),
        };
        let accepted = account.put_data(size);
        self.storage.insert(*name, account);
        accepted
    }

    /// Empties the database and hands out the accounts of the identities in
    /// `close_group`, each once, with its identity. The accounts of all
    /// other identities are dropped.
    pub fn retrieve_all_and_reset(&mut self, close_group: &Vec<Identity>) -> (drained: Vec<
        (Identity, PmidManagerAccount),
    >)
        ensures
            final(self)@ == Map::<Seq<u8>, NodeBalance>::empty(),
            forall|name: Seq<u8>| !final(self)@.contains_key(name),
            forall|i: int| 0 <= i < drained@.len() ==> in_group(close_group@, (#[trigger] drained@[i]).0@),
            names_distinct(drained@),
            accounts_of(drained@) == old(self)@.restrict(group_names(close_group@)),
    {
        let data = self.storage.take_all();
        let mut drained: Vec<(Identity, PmidManagerAccount)> = Vec::with_capacity(data.len());
        let ghost mut from: Seq<int> = Seq::empty();
        let mut i: usize = 0;
        while i < data.len()
            invariant
                i <= data.len(),
                from.len() == drained@.len(),
                forall|j: int|
                    0 <= j < from.len() ==> 0 <= #[trigger] from[j] < i && drained@[j] == data@[from[j]]
                        && in_group(close_group@, drained@[j].0@),
                forall|j: int, k: int| 0 <= j < k < from.len() ==> from[j] < from[k],
                forall|k: int|
                    0 <= k < i && in_group(close_group@, (#[trigger] data@[k]).0@) ==> exists|j: int|
                        0 <= j < from.len() && from[j] == k,
            decreases data.len() - i,
        {
            if is_in_group(close_group, &data[i].0) {
                let ghost kept = from;
                drained.push((data[i].0, data[i].1.clone()));
                proof {
                    from = from.push(i as int);
                    assert forall|k: int|
                        0 <= k < i + 1 && in_group(close_group@, (#[trigger] data@[k]).0@) implies exists|
                        j: int,
                    | 0 <= j < from.len() && from[j] == k by {
                        if k < i {
                            let j = choose|j: int| 0 <= j < kept.len() && kept[j] == k;
                            assert(from[j] == k);
                        } else {
                            assert(from[kept.len() as int] == k);
                        }
                    }
                }
            }
            i += 1;
        }
        proof {
            lemma_kept_of_group(data@, drained@, from, close_group@);
            assert forall|j: int| 0 <= j < drained@.len() implies in_group(
                close_group@,
                (#[trigger] drained@[j]).0@,
            ) by {
                assert(0 <= from[j]);
            }
        }
        drained
    }
}

/// Where `drained` holds, in their order, just those of `data` whose identity
/// is in `group`, it holds no identity twice, and its accounts are those that
/// `data` keeps under the identities of `group`.
proof fn lemma_kept_of_group(
    data: Seq<(Identity, PmidManagerAccount)>,
    drained: Seq<(Identity, PmidManagerAccount)>,
    from: Seq<int>,
    group: Seq<Identity>,
)
    requires
        names_distinct(data),
        from.len() == drained.len(),
        forall|j: int|
            0 <= j < from.len() ==> 0 <= #[trigger] from[j] < data.len() && drained[j] == data[from[j]]
                && in_group(group, drained[j].0@),
        forall|j: int, k: int| 0 <= j < k < from.len() ==> from[j] < from[k],
        forall|k: int|
            0 <= k < data.len() && in_group(group, (#[trigger] data[k]).0@) ==> exists|j: int|
                0 <= j < from.len() && from[j] == k,
    ensures
        names_distinct(drained),
        accounts_of(drained) == accounts_of(data).restrict(group_names(group)),
{
    assert forall|a: int, b: int| 0 <= a < b < drained.len() implies (#[trigger] drained[a]).0@ != (
    #[trigger] drained[b]).0@ by {
        assert(from[a] < from[b]);
        assert(data[from[a]].0@ != data[from[b]].0@);
    }
    let wanted = accounts_of(data).restrict(group_names(group));
    assert forall|name: Seq<u8>| accounts_of(drained).contains_key(name) <==> wanted.contains_key(
        name,
    ) by {
        if has_name(drained, name) {
            let j = place_of(drained, name);
            assert(data[from[j]].0@ == name);
        }
        if has_name(data, name) && in_group(group, name) {
            let k = place_of(data, name);
            let j = choose|j: int| 0 <= j < from.len() && from[j] == k;
            assert(drained[j].0@ == name);
        }
    }
    assert forall|name: Seq<u8>| accounts_of(drained).contains_key(name) implies accounts_of(
        drained,
    )[name] == wanted[name] by {
        let j = place_of(drained, name);
        lemma_entry_is_kept(drained, j);
        lemma_entry_is_kept(data, from[j]);
    }
    assert(accounts_of(drained) =~= wanted);
}

} // verus!
