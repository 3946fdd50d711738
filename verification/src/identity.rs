use vstd::prelude::*;

verus! {

/// Number of bytes in an identity.
pub const NAME_LEN: usize = 64;

/// The network address an account is kept under. It is only ever compared:
/// two identities are the same when their bytes are.
#[derive(Clone, Copy, Debug)]
pub struct Identity(pub [u8; 64]);

impl View for Identity {
    type V = Seq<u8>;

    open spec fn view(&self) -> Seq<u8> {
        self.0@
    }
}

impl PartialEq for Identity {
    fn eq(&self, other: &Identity) -> (same: bool) {
        self.same_as(other)
    }
}

impl vstd::std_specs::cmp::PartialEqSpecImpl for Identity {
    open spec fn obeys_eq_spec() -> bool {
        true
    }

    open spec fn eq_spec(&self, other: &Identity) -> bool {
        self@ == other@
    }
}

impl Eq for Identity {}

impl Identity {
    /// Makes an identity of the given bytes.
    pub fn new(id: [u8; 64]) -> (name: Identity)
        ensures
            name@ == id@,
    {
        Identity(id)
    }

    /// The bytes of the identity.
    pub fn get_id(&self) -> (id: [u8; 64])
        ensures
            id@ == self@,
    {
        self.0
    }

    /// Whether `self` and `other` are the same address.
    pub fn same_as(&self, other: &Identity) -> (same: bool)
        ensures
            same == (self@ == other@),
    {
        let mut i: usize = 0;
        while i < NAME_LEN
            invariant
                i <= NAME_LEN,
                forall|k: int| 0 <= k < i ==> self@[k] == other@[k],
            decreases NAME_LEN - i,
        {
            if self.0[i] != other.0[i] {
                return false;
            }
            i += 1;
        }
        assert(self@ =~= other@);
        true
    }
}

/// Whether `name` is one of `group`.
pub open spec fn in_group(group: Seq<Identity>, name: Seq<u8>) -> bool {
    exists|i: int| 0 <= i < group.len() && (#[trigger] group[i])@ == name
}

/// The identities of `group`, by their bytes.
pub open spec fn group_names(group: Seq<Identity>) -> Set<Seq<u8>> {
    Set::new(|name: Seq<u8>| in_group(group, name))
}

/// Whether `name` is one of `group`.
pub fn is_in_group(group: &Vec<Identity>, name: &Identity) -> (found: bool)
    ensures
        found == in_group(group@, name@),
{
    let mut i: usize = 0;
    while i < group.len()
        invariant
            i <= group.len(),
            forall|k: int| 0 <= k < i ==> (#[trigger] group@[k])@ != name@,
        decreases group.len() - i,
    {
        if group[i].same_as(name) {
            return true;
        }
        i += 1;
    }
    false
}

} // verus!
