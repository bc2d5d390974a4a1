use vstd::prelude::*;
use crate::errors::Error;
use crate::types::DetailsView;

verus! {

/// The abstract content of the contract's ledger entries. A field is `None`
/// (or a map lacks a key) where the ledger holds no entry under that key.
pub struct LedgerView {
    /// The entry under `Admin`.
    pub admin: Option<Seq<u8>>,
    /// The entry under `IsPaused`.
    pub is_paused: Option<bool>,
    /// The entry under `AllGroups`: group identifiers in the order in which
    /// the groups were created.
    pub all_groups: Option<Seq<Seq<u8>>>,
    /// The entries under `AutoShare(id)`, by identifier.
    pub autoshares: Map<Seq<u8>, DetailsView>,
    /// The entries under `GroupMembers(id)`, by identifier: member addresses
    /// in the order in which the members were added.
    pub members: Map<Seq<u8>, Seq<Seq<u8>>>,
}

impl LedgerView {
    /// A ledger with no entries.
    pub open spec fn empty() -> LedgerView {
        LedgerView {
            admin: None,
            is_paused: None,
            all_groups: None,
            autoshares: Map::empty(),
            members: Map::empty(),
        }
    }

    /// Whether the contract is paused; an absent flag counts as not paused.
    pub open spec fn paused(self) -> bool {
        self.is_paused == Some(true)
    }

    /// The list of group identifiers; an absent list counts as empty.
    pub open spec fn group_ids(self) -> Seq<Seq<u8>> {
        match self.all_groups {
            Some(ids) => ids,
            None => Seq::empty(),
        }
    }

    /// Whether a group with this identifier exists.
    pub open spec fn has_group(self, id: Seq<u8>) -> bool {
        self.autoshares.contains_key(id)
    }

    /// The member addresses of a group; an absent list counts as empty.
    pub open spec fn members_of(self, id: Seq<u8>) -> Seq<Seq<u8>> {
        if self.members.contains_key(id) {
            self.members[id]
        } else {
            Seq::empty()
        }
    }

    /// What holds of every ledger that the contract's operations build
    /// from an empty one: each group is listed once in `AllGroups`, every
    /// listed identifier has its details, the details of a group carry its
    /// identifier, every group has a member list, and no member list names
    /// an address twice.
    pub open spec fn consistent(self) -> bool {
        &&& self.group_ids().no_duplicates()
        &&& forall|i: int| 0 <= i < self.group_ids().len()
                ==> self.autoshares.contains_key(#[trigger] self.group_ids()[i])
        &&& forall|k: Seq<u8>| #[trigger] self.autoshares.contains_key(k) ==> {
                &&& self.group_ids().contains(k)
                &&& self.autoshares[k].id == k
                &&& self.members.contains_key(k)
            }
        &&& forall|k: Seq<u8>| #[trigger] self.members.contains_key(k) ==> self.members[k].no_duplicates()
    }
}

/// The details of the listed groups that have details, in list order.
pub open spec fn listed_details(ids: Seq<Seq<u8>>, shares: Map<Seq<u8>, DetailsView>) -> Seq<DetailsView>
    decreases ids.len(),
{
    if ids.len() == 0 {
        Seq::empty()
    } else {
        let rest = listed_details(ids.drop_last(), shares);
        if shares.contains_key(ids.last()) {
            rest.push(shares[ids.last()])
        } else {
            rest
        }
    }
}

/// The details in `ds` whose creator is `creator`, in order.
pub open spec fn created_by(ds: Seq<DetailsView>, creator: Seq<u8>) -> Seq<DetailsView>
    decreases ds.len(),
{
    if ds.len() == 0 {
        Seq::empty()
    } else {
        let rest = created_by(ds.drop_last(), creator);
        if ds.last().creator == creator {
            rest.push(ds.last())
        } else {
            rest
        }
    }
}

/// The ledger after `set_admin(admin)`, and its result.
pub open spec fn set_admin_outcome(l: LedgerView, admin: Seq<u8>) -> (LedgerView, Result<(), Error>) {
    if l.admin is Some {
        (l, Err(Error::AlreadyExists))
    } else {
        (LedgerView { admin: Some(admin), ..l }, Ok(()))
    }
}

/// The ledger after `pause(admin)`, and its result.
pub open spec fn pause_outcome(l: LedgerView, admin: Seq<u8>) -> (LedgerView, Result<(), Error>) {
    if l.admin != Some(admin) {
        (l, Err(Error::Unauthorized))
    } else if l.paused() {
        (l, Err(Error::AlreadyPaused))
    } else {
        (LedgerView { is_paused: Some(true), ..l }, Ok(()))
    }
}

/// The ledger after `unpause(admin)`, and its result.
pub open spec fn unpause_outcome(l: LedgerView, admin: Seq<u8>) -> (LedgerView, Result<(), Error>) {
    if l.admin != Some(admin) {
        (l, Err(Error::Unauthorized))
    } else if !l.paused() {
        (l, Err(Error::NotPaused))
    } else {
        (LedgerView { is_paused: Some(false), ..l }, Ok(()))
    }
}

/// The ledger after `create_autoshare(id, name, creator)`, and its result.
pub open spec fn create_outcome(l: LedgerView, id: Seq<u8>, name: Seq<u8>, creator: Seq<u8>) -> (
    LedgerView,
    Result<(), Error>,
) {
    if l.paused() {
        (l, Err(Error::ContractPaused))
    } else if l.has_group(id) {
        (l, Err(Error::AlreadyExists))
    } else {
        (
            LedgerView {
                autoshares: l.autoshares.insert(id, DetailsView { id, name, creator }),
                all_groups: Some(l.group_ids().push(id)),
                members: l.members.insert(id, Seq::empty()),
                ..l
            },
            Ok(()),
        )
    }
}

/// The ledger after `add_group_member(id, address)`, and its result.
pub open spec fn add_member_outcome(l: LedgerView, id: Seq<u8>, address: Seq<u8>) -> (
    LedgerView,
    Result<(), Error>,
) {
    if l.paused() {
        (l, Err(Error::ContractPaused))
    } else if !l.has_group(id) {
        (l, Err(Error::NotFound))
    } else if l.members_of(id).contains(address) {
        (l, Err(Error::AlreadyExists))
    } else {
        (LedgerView { members: l.members.insert(id, l.members_of(id).push(address)), ..l }, Ok(()))
    }
}

/// What `get_autoshare(id)` returns.
pub open spec fn autoshare_result(l: LedgerView, id: Seq<u8>) -> Result<DetailsView, Error> {
    if l.has_group(id) {
        Ok(l.autoshares[id])
    } else {
        Err(Error::NotFound)
    }
}

/// What `get_all_groups()` returns.
pub open spec fn all_groups_result(l: LedgerView) -> Seq<DetailsView> {
    listed_details(l.group_ids(), l.autoshares)
}

/// What `get_groups_by_creator(creator)` returns.
pub open spec fn groups_by_creator_result(l: LedgerView, creator: Seq<u8>) -> Seq<DetailsView> {
    created_by(all_groups_result(l), creator)
}

/// What `is_group_member(id, address)` returns.
pub open spec fn is_member_result(l: LedgerView, id: Seq<u8>, address: Seq<u8>) -> Result<bool, Error> {
    if l.has_group(id) {
        Ok(l.members_of(id).contains(address))
    } else {
        Err(Error::NotFound)
    }
}

/// What `get_group_members(id)` returns.
pub open spec fn members_result(l: LedgerView, id: Seq<u8>) -> Result<Seq<Seq<u8>>, Error> {
    if l.has_group(id) {
        Ok(l.members_of(id))
    } else {
        Err(Error::NotFound)
    }
}

} // verus!
