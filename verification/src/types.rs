use vstd::prelude::*;

verus! {

/// An account or contract address, held as the bytes of its strkey text
/// (such as `G...` or `C...`). Two addresses are the same exactly when
/// their strkeys are.
#[derive(Debug)]
pub struct Address {
    pub strkey: Vec<u8>,
}

impl View for Address {
    type V = Seq<u8>;

    open spec fn view(&self) -> Seq<u8> {
        self.strkey@
    }
}

impl Address {
    /// Whether two addresses are the same.
    pub fn same_as(&self, other: &Address) -> (r: bool)
        ensures
            r == (self@ == other@),
    {
        let n = self.strkey.len();
        if n != other.strkey.len() {
            return false;
        }
        let mut i: usize = 0;
        while i < n
            invariant
                n == self.strkey@.len(),
                n == other.strkey@.len(),
                i <= n,
                forall|j: int| 0 <= j < i ==> self.strkey@[j] == other.strkey@[j],
            decreases n - i,
        {
            if self.strkey[i] != other.strkey[i] {
                return false;
            }
            i = i + 1;
        }
        assert(self@ =~= other@);
        true
    }

    /// A copy of this address.
    pub fn duplicate(&self) -> (r: Address)
        ensures
            r@ == self@,
    {
        let strkey = self.strkey.clone();
        assert(strkey@ =~= self.strkey@);
        Address { strkey }
    }
}

/// The 32-byte identifier of a payment group.
#[derive(Clone, Copy, Debug)]
pub struct GroupId {
    pub bytes: [u8; 32],
}

impl View for GroupId {
    type V = Seq<u8>;

    open spec fn view(&self) -> Seq<u8> {
        self.bytes@
    }
}

impl GroupId {
    /// Whether two identifiers are the same.
    pub fn same_as(&self, other: &GroupId) -> (r: bool)
        ensures
            r == (self@ == other@),
    {
        let mut i: usize = 0;
        while i < 32
            invariant
                self.bytes@.len() == 32,
                other.bytes@.len() == 32,
                i <= 32,
                forall|j: int| 0 <= j < i ==> self.bytes@[j] == other.bytes@[j],
            decreases 32 - i,
        {
            if self.bytes[i] != other.bytes[i] {
                return false;
            }
            i = i + 1;
        }
        assert(self@ =~= other@);
        true
    }
}

/// A member of a payment group.
#[derive(Debug)]
pub struct GroupMember {
    pub address: Address,
}

impl View for GroupMember {
    type V = Seq<u8>;

    open spec fn view(&self) -> Seq<u8> {
        self.address@
    }
}

impl DeepView for GroupMember {
    type V = Seq<u8>;

    open spec fn deep_view(&self) -> Seq<u8> {
        self.address@
    }
}

impl GroupMember {
    /// A copy of this member.
    pub fn duplicate(&self) -> (r: GroupMember)
        ensures
            r@ == self@,
    {
        GroupMember { address: self.address.duplicate() }
    }
}

/// What the ledger records of a payment group: its identifier, its name
/// (the bytes of the text it was given) and the address that created it.
#[derive(Debug)]
pub struct AutoShareDetails {
    pub id: GroupId,
    pub name: Vec<u8>,
    pub creator: Address,
}

/// The abstract value of an [`AutoShareDetails`].
pub struct DetailsView {
    pub id: Seq<u8>,
    pub name: Seq<u8>,
    pub creator: Seq<u8>,
}

impl View for AutoShareDetails {
    type V = DetailsView;

    open spec fn view(&self) -> DetailsView {
        DetailsView { id: self.id@, name: self.name@, creator: self.creator@ }
    }
}

impl DeepView for AutoShareDetails {
    type V = DetailsView;

    open spec fn deep_view(&self) -> DetailsView {
        self@
    }
}

impl AutoShareDetails {
    /// A copy of these details.
    pub fn duplicate(&self) -> (r: AutoShareDetails)
        ensures
            r@ == self@,
    {
        let name = self.name.clone();
        assert(name@ =~= self.name@);
        AutoShareDetails { id: self.id, name, creator: self.creator.duplicate() }
    }
}

/// The keys under which the contract keeps its entries in the ledger.
#[derive(Debug)]
pub enum DataKey {
    AutoShare(GroupId),
    GroupMembers(GroupId),
    AllGroups,
    Admin,
    IsPaused,
}

} // verus!

