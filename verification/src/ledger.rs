use crate::identity::Identity;
use vstd::prelude::*;

verus! {

/// Whether no identity occurs twice among `entries`.
pub open spec fn names_distinct<A>(entries: Seq<(Identity, A)>) -> bool {
    forall|i: int, j: int|
        0 <= i < j < entries.len() ==> (#[trigger] entries[i]).0@ != (#[trigger] entries[j]).0@
}

/// Whether one of `entries` is kept under `name`.
pub open spec fn has_name<A>(entries: Seq<(Identity, A)>, name: Seq<u8>) -> bool {
    exists|i: int| 0 <= i < entries.len() && (#[trigger] entries[i]).0@ == name
}

/// The place of an entry kept under `name`.
pub open spec fn place_of<A>(entries: Seq<(Identity, A)>, name: Seq<u8>) -> int {
    choose|i: int| 0 <= i < entries.len() && (#[trigger] entries[i]).0@ == name
}

/// The accounts among `entries`, each under the bytes of its identity.
pub open spec fn accounts_of<A: View>(entries: Seq<(Identity, A)>) -> Map<Seq<u8>, A::V> {
    Map::new(
        |name: Seq<u8>| has_name(entries, name),
        |name: Seq<u8>| entries[place_of(entries, name)].1@,
    )
}

/// Where no identity occurs twice, each entry is the one that `accounts_of`
/// keeps under its identity.
pub proof fn lemma_entry_is_kept<A: View>(entries: Seq<(Identity, A)>, i: int)
    requires
        names_distinct(entries),
        0 <= i < entries.len(),
    ensures
        has_name(entries, entries[i].0@),
        place_of(entries, entries[i].0@) == i,
        accounts_of(entries).contains_key(entries[i].0@),
        accounts_of(entries)[entries[i].0@] == entries[i].1@,
{
    let name = entries[i].0@;
    let at = place_of(entries, name);
    assert(0 <= at < entries.len() && entries[at].0@ == name);
    if at < i {
        assert(entries[at].0@ != entries[i].0@);
    } else if i < at {
        assert(entries[i].0@ != entries[at].0@);
    }
}

/// Accounts kept under identities, at most one under each. An account is
/// found by going through the entries, so a lookup takes time in proportion
/// to their number.
pub(crate) struct Ledger<A> {
    entries: Vec<(Identity, A)>,
}

impl<A: View> View for Ledger<A> {
    type V = Map<Seq<u8>, A::V>;

    closed spec fn view(&self) -> Map<Seq<u8>, A::V> {
        accounts_of(self.entries@)
    }
}

impl<A> Ledger<A> {
    #[verifier::type_invariant]
    spec fn one_entry_per_name(&self) -> bool {
        names_distinct(self.entries@)
    }
}

impl<A: View> Ledger<A> {
    /// A ledger without accounts.
    pub(crate) fn new() -> (ledger: Ledger<A>)
        ensures
            ledger@ == Map::<Seq<u8>, A::V>::empty(),
    {
        let ledger = Ledger { entries: Vec::new() };
        assert(ledger@ =~= Map::<Seq<u8>, A::V>::empty());
        ledger
    }

    /// The place of the entry kept under `name`, if there is one.
    fn position(&self, name: &Identity) -> (found: Option<usize>)
        ensures
            match found {
                Some(i) => i < self.entries@.len() && self.entries@[i as int].0@ == name@,
                None => !has_name(self.entries@, name@),
            },
    {
        let mut i: usize = 0;
        while i < self.entries.len()
            invariant
                i <= self.entries.len(),
                forall|k: int| 0 <= k < i ==> (#[trigger] self.entries@[k]).0@ != name@,
            decreases self.entries.len() - i,
        {
            if self.entries[i].0.same_as(name) {
                return Some(i);
            }
            i += 1;
        }
        None
    }

    /// The account kept under `name`, if there is one.
    pub(crate) fn get(&self, name: &Identity) -> (found: Option<&A>)
        ensures
            match found {
                Some(account) => self@.contains_key(name@) && self@[name@] == account@,
                None => !self@.contains_key(name@),
            },
    {
        proof {
            use_type_invariant(self);
        }
        match self.position(name) {
            Some(i) => {
                proof {
                    lemma_entry_is_kept(self.entries@, i as int);
                }
                Some(&self.entries[i].1)
            },
            None => None,
        }
    }

    /// Keeps `account` under `name`, in place of the account that was there.
    pub(crate) fn insert(&mut self, name: Identity, account: A)
        ensures
            final(self)@ == old(self)@.insert(name@, account@),
    {
        proof {
            use_type_invariant(&*self);
        }
        let place = self.position(&name);
        let mut entries: Vec<(Identity, A)> = Vec::new();
        std::mem::swap(&mut self.entries, &mut entries);
        match place {
            Some(i) => {
                proof {
                    lemma_replaced(entries@, i as int, name, account);
                }
                entries.set(i, (name, account));
            },
            None => {
                proof {
                    lemma_added(entries@, name, account);
                }
                entries.push((name, account));
            },
        }
        std::mem::swap(&mut self.entries, &mut entries);
    }

    /// Empties the ledger and hands out what it held.
    pub(crate) fn take_all(&mut self) -> (entries: Vec<(Identity, A)>)
        ensures
            final(self)@ == Map::<Seq<u8>, A::V>::empty(),
            names_distinct(entries@),
            accounts_of(entries@) == old(self)@,
    {
        proof {
            use_type_invariant(&*self);
        }
        let mut entries: Vec<(Identity, A)> = Vec::new();
        assert(accounts_of(entries@) =~= Map::<Seq<u8>, A::V>::empty());
        std::mem::swap(&mut self.entries, &mut entries);
        entries
    }
}

/// Putting an account in the place of one with the same identity changes
/// that identity's account and nothing else.
proof fn lemma_replaced<A: View>(entries: Seq<(Identity, A)>, i: int, name: Identity, account: A)
    requires
        names_distinct(entries),
        0 <= i < entries.len(),
        entries[i].0@ == name@,
    ensures
        names_distinct(entries.update(i, (name, account))),
        accounts_of(entries.update(i, (name, account))) == accounts_of(entries).insert(
            name@,
            account@,
        ),
{
    let after = entries.update(i, (name, account));
    assert(names_distinct(after)) by {
        assert forall|a: int, b: int| 0 <= a < b < after.len() implies (#[trigger] after[a]).0@ != (
        #[trigger] after[b]).0@ by {
            assert(after[a].0@ == entries[a].0@);
            assert(after[b].0@ == entries[b].0@);
        }
    }
    let wanted = accounts_of(entries).insert(name@, account@);
    assert forall|k: Seq<u8>| accounts_of(after).contains_key(k) <==> wanted.contains_key(k) by {
        if has_name(after, k) {
            let at = place_of(after, k);
            assert(entries[at].0@ == k);
        }
        if has_name(entries, k) {
            let at = place_of(entries, k);
            assert(after[at].0@ == k);
        }
        if k == name@ {
            assert(after[i].0@ == k);
        }
    }
    assert forall|k: Seq<u8>| accounts_of(after).contains_key(k) implies accounts_of(after)[k]
        == wanted[k] by {
        let at = place_of(after, k);
        lemma_entry_is_kept(after, at);
        if at != i {
            lemma_entry_is_kept(entries, at);
        }
    }
    assert(accounts_of(after) =~= wanted);
}

/// Adding an account under an identity that has none adds that account and
/// changes nothing else.
proof fn lemma_added<A: View>(entries: Seq<(Identity, A)>, name: Identity, account: A)
    requires
        names_distinct(entries),
        !has_name(entries, name@),
    ensures
        names_distinct(entries.push((name, account))),
        accounts_of(entries.push((name, account))) == accounts_of(entries).insert(
            name@,
            account@,
        ),
{
    let after = entries.push((name, account));
    let last = entries.len() as int;
    assert(names_distinct(after)) by {
        assert forall|a: int, b: int| 0 <= a < b < after.len() implies (#[trigger] after[a]).0@ != (
        #[trigger] after[b]).0@ by {
            assert(after[a] == entries[a]);
            if b < last {
                assert(after[b] == entries[b]);
            }
        }
    }
    let wanted = accounts_of(entries).insert(name@, account@);
    assert forall|k: Seq<u8>| accounts_of(after).contains_key(k) <==> wanted.contains_key(k) by {
        if has_name(after, k) {
            let at = place_of(after, k);
            if at < last {
                assert(entries[at].0@ == k);
            }
        }
        if has_name(entries, k) {
            let at = place_of(entries, k);
            assert(after[at].0@ == k);
        }
        if k == name@ {
            assert(after[last].0@ == k);
        }
    }
    assert forall|k: Seq<u8>| accounts_of(after).contains_key(k) implies accounts_of(after)[k]
        == wanted[k] by {
        let at = place_of(after, k);
        lemma_entry_is_kept(after, at);
        if at != last {
            lemma_entry_is_kept(entries, at);
        }
    }
    assert(accounts_of(after) =~= wanted);
}

} // verus!
