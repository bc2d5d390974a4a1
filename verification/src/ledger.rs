use vstd::prelude::*;
use crate::model::LedgerView;
use crate::table::Table;
use crate::types::{Address, AutoShareDetails, DataKey, GroupId, GroupMember};

verus! {

/// The contract's persistent ledger entries: the administrator, the pause
/// flag, the list of all group identifiers, and per group its details and
/// its member list. Each entry is either present or absent, as in the
/// host's persistent storage.
pub struct Ledger {
    admin: Option<Address>,
    is_paused: Option<bool>,
    all_groups: Option<Vec<GroupId>>,
    autoshares: Table<AutoShareDetails>,
    group_members: Table<Vec<GroupMember>>,
}

/// The abstract value of a list of group identifiers.
pub open spec fn ids_view(ids: Seq<GroupId>) -> Seq<Seq<u8>> {
    ids.map_values(|g: GroupId| g@)
}

impl View for Ledger {
    type V = LedgerView;

    closed spec fn view(&self) -> LedgerView {
        LedgerView {
            admin: match self.admin {
                Some(a) => Some(a@),
                None => None,
            },
            is_paused: self.is_paused,
            all_groups: match self.all_groups {
                Some(ids) => Some(ids_view(ids@)),
                None => None,
            },
            autoshares: self.autoshares.map(),
            members: self.group_members.map(),
        }
    }
}

impl Ledger {
    /// The entries are well formed: no group identifier has two entries of
    /// one kind.
    pub closed spec fn wf(&self) -> bool {
        self.autoshares.wf() && self.group_members.wf()
    }

    /// A ledger with no entries.
    pub fn new() -> (l: Ledger)
        ensures
            l.wf(),
            l@ == LedgerView::empty(),
    {
        let l = Ledger {
            admin: None,
            is_paused: None,
            all_groups: None,
            autoshares: Table::new(),
            group_members: Table::new(),
        };
        assert(l@.autoshares =~= LedgerView::empty().autoshares);
        l
    }

    /// Whether the ledger holds an entry under `key`.
    pub fn has(&self, key: &DataKey) -> (r: bool)
        requires
            self.wf(),
        ensures
            r == match key {
                DataKey::AutoShare(id) => self@.autoshares.contains_key(id@),
                DataKey::GroupMembers(id) => self@.members.contains_key(id@),
                DataKey::AllGroups => self@.all_groups is Some,
                DataKey::Admin => self@.admin is Some,
                DataKey::IsPaused => self@.is_paused is Some,
            },
    {
        match key {
            DataKey::AutoShare(id) => self.autoshares.contains(id),
            DataKey::GroupMembers(id) => self.group_members.contains(id),
            DataKey::AllGroups => self.all_groups.is_some(),
            DataKey::Admin => self.admin.is_some(),
            DataKey::IsPaused => self.is_paused.is_some(),
        }
    }

    /// The entry under `Admin`.
    pub fn stored_admin(&self) -> (r: Option<&Address>)
        ensures
            match r {
                Some(a) => self@.admin == Some(a@),
                None => self@.admin is None,
            },
    {
        match &self.admin {
            Some(a) => Some(a),
            None => None,
        }
    }

    /// The entry under `IsPaused`.
    pub fn stored_paused(&self) -> (r: Option<bool>)
        ensures
            r == self@.is_paused,
    {
        self.is_paused
    }

    /// The entry under `AllGroups`.
    pub fn stored_all_groups(&self) -> (r: Option<&Vec<GroupId>>)
        ensures
            match r {
                Some(ids) => self@.all_groups == Some(ids_view(ids@)),
                None => self@.all_groups is None,
            },
    {
        match &self.all_groups {
            Some(ids) => Some(ids),
            None => None,
        }
    }

    /// The entry under `AutoShare(id)`.
    pub fn stored_autoshare(&self, id: &GroupId) -> (r: Option<&AutoShareDetails>)
        requires
            self.wf(),
        ensures
            r.is_some() == self@.autoshares.contains_key(id@),
            r matches Some(d) ==> d@ == self@.autoshares[id@],
    {
        self.autoshares.get(id)
    }

    /// The entry under `GroupMembers(id)`.
    pub fn stored_members(&self, id: &GroupId) -> (r: Option<&Vec<GroupMember>>)
        requires
            self.wf(),
        ensures
            r.is_some() == self@.members.contains_key(id@),
            r matches Some(m) ==> m.deep_view() == self@.members[id@],
    {
        self.group_members.get(id)
    }

    /// Writes the entry under `Admin`.
    pub fn store_admin(&mut self, admin: Address)
        requires
            old(self).wf(),
        ensures
            final(self).wf(),
            final(self)@ == (LedgerView { admin: Some(admin@), ..old(self)@ }),
    {
        self.admin = Some(admin);
    }

    /// Writes the entry under `IsPaused`.
    pub fn store_paused(&mut self, paused: bool)
        requires
            old(self).wf(),
        ensures
            final(self).wf(),
            final(self)@ == (LedgerView { is_paused: Some(paused), ..old(self)@ }),
    {
        self.is_paused = Some(paused);
    }

    /// Writes the entry under `AllGroups`.
    pub fn store_all_groups(&mut self, ids: Vec<GroupId>)
        requires
            old(self).wf(),
        ensures
            final(self).wf(),
            final(self)@ == (LedgerView { all_groups: Some(ids_view(ids@)), ..old(self)@ }),
    {
        self.all_groups = Some(ids);
    }

    /// Writes the entry under `AutoShare(id)`.
    pub fn store_autoshare(&mut self, id: GroupId, details: AutoShareDetails)
        requires
            old(self).wf(),
        ensures
            final(self).wf(),
            final(self)@ == (LedgerView {
                autoshares: old(self)@.autoshares.insert(id@, details@),
                ..old(self)@
            }),
    {
        self.autoshares.set(id, details);
    }

    /// Writes the entry under `GroupMembers(id)`.
    pub fn store_members(&mut self, id: GroupId, members: Vec<GroupMember>)
        requires
            old(self).wf(),
        ensures
            final(self).wf(),
            final(self)@ == (LedgerView {
                members: old(self)@.members.insert(id@, members.deep_view()),
                ..old(self)@
            }),
    {
        self.group_members.set(id, members);
    }
}

} // verus!
