use vstd::prelude::*;
use crate::errors::Error;
use crate::ledger::{Ledger, ids_view};
use crate::model::{
    LedgerView, listed_details, created_by, set_admin_outcome, pause_outcome, unpause_outcome,
    create_outcome, add_member_outcome, autoshare_result, all_groups_result,
    groups_by_creator_result, is_member_result, members_result,
};
use crate::types::{Address, AutoShareDetails, DataKey, DetailsView, GroupId, GroupMember};
use crate::laws::lemma_created_by_is_filter;

verus! {

/// Records `admin` as the contract's administrator. Fails with
/// `AlreadyExists`, changing nothing, where an administrator is already
/// recorded.
pub fn set_admin(ledger: &mut Ledger, admin: Address) -> (r: Result<(), Error>)
    requires
        old(ledger).wf(),
    ensures
        final(ledger).wf(),
        (final(ledger)@, r) == set_admin_outcome(old(ledger)@, admin@),
{
    if ledger.has(&DataKey::Admin) {
        return Err(Error::AlreadyExists);
    }
    ledger.store_admin(admin);
    Ok(())
}

/// Whether `caller` is the recorded administrator (`None` where no
/// administrator is recorded).
fn is_admin(ledger: &Ledger, caller: &Address) -> (r: Option<bool>)
    ensures
        match r {
            Some(b) => ledger@.admin is Some && b == (ledger@.admin == Some(caller@)),
            None => ledger@.admin is None,
        },
{
    match ledger.stored_admin() {
        Some(stored) => Some(caller.same_as(stored)),
        None => None,
    }
}

/// Pauses the contract. Only the recorded administrator may do so
/// (`Unauthorized` otherwise, also where none is recorded), and only while
/// the contract is not paused (`AlreadyPaused` otherwise). The caller's
/// signature is checked by the host before this is reached.
pub fn pause(ledger: &mut Ledger, admin: Address) -> (r: Result<(), Error>)
    requires
        old(ledger).wf(),
    ensures
        final(ledger).wf(),
        (final(ledger)@, r) == pause_outcome(old(ledger)@, admin@),
{
    match is_admin(ledger, &admin) {
        None => return Err(Error::Unauthorized),
        Some(false) => return Err(Error::Unauthorized),
        Some(true) => {},
    }
    let is_paused = match ledger.stored_paused() {
        Some(p) => p,
        None => false,
    };
    if is_paused {
        return Err(Error::AlreadyPaused);
    }
    ledger.store_paused(true);
    Ok(())
}

/// Lifts a pause. Only the recorded administrator may do so
/// (`Unauthorized` otherwise, also where none is recorded), and only while
/// the contract is paused (`NotPaused` otherwise). The caller's signature is
/// checked by the host before this is reached.
pub fn unpause(ledger: &mut Ledger, admin: Address) -> (r: Result<(), Error>)
    requires
        old(ledger).wf(),
    ensures
        final(ledger).wf(),
        (final(ledger)@, r) == unpause_outcome(old(ledger)@, admin@),
{
    match is_admin(ledger, &admin) {
        None => return Err(Error::Unauthorized),
        Some(false) => return Err(Error::Unauthorized),
        Some(true) => {},
    }
    let is_paused = match ledger.stored_paused() {
        Some(p) => p,
        None => false,
    };
    if !is_paused {
        return Err(Error::NotPaused);
    }
    ledger.store_paused(false);
    Ok(())
}

/// Whether the contract is paused; `false` where no flag is recorded.
pub fn get_paused_status(ledger: &Ledger) -> (r: bool)
    ensures
        r == ledger@.paused(),
{
    match ledger.stored_paused() {
        Some(p) => p,
        None => false,
    }
}

/// Fails with `ContractPaused` while the contract is paused.
fn require_not_paused(ledger: &Ledger) -> (r: Result<(), Error>)
    ensures
        r == (if ledger@.paused() { Err(Error::ContractPaused) } else { Ok::<(), Error>(()) }),
{
    if get_paused_status(ledger) {
        return Err(Error::ContractPaused);
    }
    Ok(())
}

/// A copy of a list of group identifiers.
fn copy_ids(ids: &Vec<GroupId>) -> (r: Vec<GroupId>)
    ensures
        ids_view(r@) == ids_view(ids@),
{
    let mut out: Vec<GroupId> = Vec::new();
    let n = ids.len();
    let mut i: usize = 0;
    while i < n
        invariant
            n == ids@.len(),
            i <= n,
            out@ =~= ids@.take(i as int),
        decreases n - i,
    {
        out.push(ids[i]);
        i = i + 1;
    }
    assert(out@ =~= ids@);
    out
}

/// A copy of a member list.
fn copy_members(members: &Vec<GroupMember>) -> (r: Vec<GroupMember>)
    ensures
        r.deep_view() == members.deep_view(),
{
    let mut out: Vec<GroupMember> = Vec::new();
    let n = members.len();
    let mut i: usize = 0;
    while i < n
        invariant
            n == members@.len(),
            i <= n,
            out@.len() == i,
            forall|j: int| 0 <= j < i ==> (#[trigger] out@[j])@ == members@[j]@,
        decreases n - i,
    {
        out.push(members[i].duplicate());
        i = i + 1;
    }
    assert(out.deep_view() =~= members.deep_view());
    out
}

/// Creates a payment group with the given identifier, name and creator: its
/// details are recorded, its identifier is appended to the list of all
/// groups, and its member list is set to empty. Fails with `ContractPaused`
/// while paused and with `AlreadyExists` where a group with this identifier
/// exists, changing nothing in either case.
pub fn create_autoshare(ledger: &mut Ledger, id: GroupId, name: Vec<u8>, creator: Address) -> (r: Result<(), Error>)
    requires
        old(ledger).wf(),
    ensures
        final(ledger).wf(),
        (final(ledger)@, r) == create_outcome(old(ledger)@, id@, name@, creator@),
        r is Ok <==> (!old(ledger)@.paused() && !old(ledger)@.autoshares.contains_key(id@)),
        r == Err::<(), Error>(Error::ContractPaused) <==> old(ledger)@.paused(),
        r == Err::<(), Error>(Error::AlreadyExists)
            <==> (!old(ledger)@.paused() && old(ledger)@.autoshares.contains_key(id@)),
        r is Ok ==> final(ledger)@.autoshares == old(ledger)@.autoshares.insert(
            id@,
            DetailsView { id: id@, name: name@, creator: creator@ },
        ),
{
    match require_not_paused(ledger) {
        Err(e) => return Err(e),
        Ok(()) => {},
    }
    if ledger.has(&DataKey::AutoShare(id)) {
        return Err(Error::AlreadyExists);
    }
    let ghost l0 = ledger@;
    let details = AutoShareDetails { id, name, creator };
    ledger.store_autoshare(id, details);

    let mut all_groups: Vec<GroupId> = match ledger.stored_all_groups() {
        Some(ids) => copy_ids(ids),
        None => Vec::new(),
    };
    assert(ids_view(all_groups@) =~= l0.group_ids());
    all_groups.push(id);
    assert(ids_view(all_groups@) =~= l0.group_ids().push(id@));
    ledger.store_all_groups(all_groups);

    let empty_members: Vec<GroupMember> = Vec::new();
    assert(empty_members.deep_view() =~= Seq::<Seq<u8>>::empty());
    ledger.store_members(id, empty_members);
    Ok(())
}

/// The details of the group with this identifier; `NotFound` where there is
/// none.
pub fn get_autoshare(ledger: &Ledger, id: GroupId) -> (r: Result<AutoShareDetails, Error>)
    requires
        ledger.wf(),
    ensures
        match (r, autoshare_result(ledger@, id@)) {
            (Ok(d), Ok(v)) => d@ == v,
            (Err(e), Err(f)) => e == f,
            _ => false,
        },
        r is Ok <==> ledger@.autoshares.contains_key(id@),
        r matches Ok(d) ==> d@ == ledger@.autoshares[id@],
        r matches Err(e) ==> e == Error::NotFound,
{
    match ledger.stored_autoshare(&id) {
        Some(details) => Ok(details.duplicate()),
        None => Err(Error::NotFound),
    }
}

/// The details of every group listed in `AllGroups` that has details, in
/// the order of the list (the order of creation).
pub fn get_all_groups(ledger: &Ledger) -> (r: Vec<AutoShareDetails>)
    requires
        ledger.wf(),
    ensures
        r.deep_view() == all_groups_result(ledger@),
{
    let empty: Vec<GroupId> = Vec::new();
    let group_ids: &Vec<GroupId> = match ledger.stored_all_groups() {
        Some(ids) => ids,
        None => &empty,
    };
    let ghost ids = ids_view(group_ids@);
    assert(ids =~= ledger@.group_ids());
    let mut result: Vec<AutoShareDetails> = Vec::new();
    let n = group_ids.len();
    let mut i: usize = 0;
    while i < n
        invariant
            ledger.wf(),
            n == group_ids@.len(),
            ids == ids_view(group_ids@),
            i <= n,
            result.deep_view() =~= listed_details(ids.take(i as int), ledger@.autoshares),
        decreases n - i,
    {
        let id = group_ids[i];
        assert(ids.take(i + 1).drop_last() =~= ids.take(i as int));
        assert(ids.take(i + 1).last() == id@);
        match get_autoshare(ledger, id) {
            Ok(details) => {
                result.push(details);
            },
            Err(_) => {},
        }
        i = i + 1;
    }
    assert(ids.take(n as int) =~= ids);
    result
}

/// The details of every group whose creator is `creator`, in the order of
/// creation.
pub fn get_groups_by_creator(ledger: &Ledger, creator: Address) -> (r: Vec<AutoShareDetails>)
    requires
        ledger.wf(),
    ensures
        r.deep_view() == groups_by_creator_result(ledger@, creator@),
        r.deep_view() == all_groups_result(ledger@).filter(|d: DetailsView| d.creator == creator@),
{
    let all_groups = get_all_groups(ledger);
    let ghost all = all_groups.deep_view();
    let mut result: Vec<AutoShareDetails> = Vec::new();
    let n = all_groups.len();
    let mut i: usize = 0;
    while i < n
        invariant
            n == all_groups@.len(),
            all == all_groups.deep_view(),
            i <= n,
            result.deep_view() =~= created_by(all.take(i as int), creator@),
        decreases n - i,
    {
        assert(all.take(i + 1).drop_last() =~= all.take(i as int));
        assert(all.take(i + 1).last() == all_groups@[i as int]@);
        if all_groups[i].creator.same_as(&creator) {
            result.push(all_groups[i].duplicate());
        }
        i = i + 1;
    }
    assert(all.take(n as int) =~= all);
    proof {
        lemma_created_by_is_filter(all, creator@);
    }
    result
}

/// Whether `address` is a member of the group with this identifier;
/// `NotFound` where there is no such group.
pub fn is_group_member(ledger: &Ledger, id: GroupId, address: Address) -> (r: Result<bool, Error>)
    requires
        ledger.wf(),
    ensures
        r == is_member_result(ledger@, id@, address@),
        r is Ok <==> ledger@.autoshares.contains_key(id@),
        r matches Ok(b) ==> b == ledger@.members_of(id@).contains(address@),
        r matches Err(e) ==> e == Error::NotFound,
{
    if !ledger.has(&DataKey::AutoShare(id)) {
        return Err(Error::NotFound);
    }
    let empty: Vec<GroupMember> = Vec::new();
    let members: &Vec<GroupMember> = match ledger.stored_members(&id) {
        Some(m) => m,
        None => &empty,
    };
    let ghost ms = members.deep_view();
    assert(ms =~= ledger@.members_of(id@));
    let n = members.len();
    let mut i: usize = 0;
    while i < n
        invariant
            n == members@.len(),
            ms == members.deep_view(),
            i <= n,
            forall|j: int| 0 <= j < i ==> ms[j] != address@,
            ledger@.has_group(id@),
            ms == ledger@.members_of(id@),
        decreases n - i,
    {
        if members[i].address.same_as(&address) {
            assert(ms[i as int] == address@);
            assert(ms.contains(address@));
            return Ok(true);
        }
        i = i + 1;
    }
    Ok(false)
}

/// The members of the group with this identifier, in the order in which
/// they were added; `NotFound` where there is no such group.
pub fn get_group_members(ledger: &Ledger, id: GroupId) -> (r: Result<Vec<GroupMember>, Error>)
    requires
        ledger.wf(),
    ensures
        match (r, members_result(ledger@, id@)) {
            (Ok(m), Ok(v)) => m.deep_view() == v,
            (Err(e), Err(f)) => e == f,
            _ => false,
        },
        r is Ok <==> ledger@.autoshares.contains_key(id@),
        r matches Ok(m) ==> m.deep_view() == ledger@.members_of(id@),
        r matches Err(e) ==> e == Error::NotFound,
{
    if !ledger.has(&DataKey::AutoShare(id)) {
        return Err(Error::NotFound);
    }
    match ledger.stored_members(&id) {
        Some(m) => Ok(copy_members(m)),
        None => {
            let empty: Vec<GroupMember> = Vec::new();
            assert(empty.deep_view() =~= Seq::<Seq<u8>>::empty());
            Ok(empty)
        },
    }
}

/// Appends `address` to the member list of the group with this identifier.
/// Fails with `ContractPaused` while paused, with `NotFound` where there is
/// no such group and with `AlreadyExists` where `address` is already a
/// member, changing nothing in each case.
pub fn add_group_member(ledger: &mut Ledger, id: GroupId, address: Address) -> (r: Result<(), Error>)
    requires
        old(ledger).wf(),
    ensures
        final(ledger).wf(),
        (final(ledger)@, r) == add_member_outcome(old(ledger)@, id@, address@),
        r is Ok <==> (!old(ledger)@.paused() && old(ledger)@.autoshares.contains_key(id@)
            && !old(ledger)@.members_of(id@).contains(address@)),
        r == Err::<(), Error>(Error::ContractPaused) <==> old(ledger)@.paused(),
        r == Err::<(), Error>(Error::NotFound)
            <==> (!old(ledger)@.paused() && !old(ledger)@.autoshares.contains_key(id@)),
        r == Err::<(), Error>(Error::AlreadyExists) <==> (!old(ledger)@.paused()
            && old(ledger)@.autoshares.contains_key(id@) && old(ledger)@.members_of(id@).contains(address@)),
        r is Ok ==> final(ledger)@.members_of(id@) == old(ledger)@.members_of(id@).push(address@),
{
    match require_not_paused(ledger) {
        Err(e) => return Err(e),
        Ok(()) => {},
    }
    if !ledger.has(&DataKey::AutoShare(id)) {
        return Err(Error::NotFound);
    }
    let ghost l0 = ledger@;
    let mut members: Vec<GroupMember> = match ledger.stored_members(&id) {
        Some(m) => copy_members(m),
        None => Vec::new(),
    };
    let ghost ms = members.deep_view();
    assert(ms =~= l0.members_of(id@));
    let n = members.len();
    let mut i: usize = 0;
    while i < n
        invariant
            n == members@.len(),
            ms == members.deep_view(),
            i <= n,
            forall|j: int| 0 <= j < i ==> ms[j] != address@,
            ledger.wf(),
            ledger@ == l0,
            l0.has_group(id@),
            !l0.paused(),
            ms == l0.members_of(id@),
        decreases n - i,
    {
        if members[i].address.same_as(&address) {
            assert(ms[i as int] == address@);
            assert(ms.contains(address@));
            return Err(Error::AlreadyExists);
        }
        i = i + 1;
    }
    members.push(GroupMember { address });
    assert(members.deep_view() =~= l0.members_of(id@).push(address@));
    ledger.store_members(id, members);
    Ok(())
}

} // verus!
