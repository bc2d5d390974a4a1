use vstd::prelude::*;
use crate::errors::Error;
use crate::model::{
    LedgerView, listed_details, created_by, set_admin_outcome, pause_outcome, unpause_outcome,
    create_outcome, add_member_outcome, autoshare_result, all_groups_result,
    groups_by_creator_result, is_member_result, members_result,
};
use crate::types::DetailsView;

verus! {

/// Where every listed identifier has details, the listed details are those
/// of the identifiers, one each, in list order.
pub proof fn lemma_listed_details_all_present(ids: Seq<Seq<u8>>, shares: Map<Seq<u8>, DetailsView>)
    requires
        forall|i: int| 0 <= i < ids.len() ==> shares.contains_key(#[trigger] ids[i]),
    ensures
        listed_details(ids, shares).len() == ids.len(),
        forall|i: int| 0 <= i < ids.len() ==> #[trigger] listed_details(ids, shares)[i] == shares[ids[i]],
    decreases ids.len(),
{
    if ids.len() > 0 {
        let init = ids.drop_last();
        assert forall|i: int| 0 <= i < init.len() implies shares.contains_key(#[trigger] init[i]) by {
            assert(init[i] == ids[i]);
        }
        lemma_listed_details_all_present(init, shares);
        assert(shares.contains_key(ids[ids.len() - 1]));
    }
}

/// Adding details for an identifier that is not listed does not change the
/// listed details.
pub proof fn lemma_listed_details_unlisted_insert(
    ids: Seq<Seq<u8>>,
    shares: Map<Seq<u8>, DetailsView>,
    id: Seq<u8>,
    d: DetailsView,
)
    requires
        !ids.contains(id),
    ensures
        listed_details(ids, shares.insert(id, d)) == listed_details(ids, shares),
    decreases ids.len(),
{
    if ids.len() > 0 {
        let init = ids.drop_last();
        assert(!init.contains(id)) by {
            if init.contains(id) {
                let j = choose|j: int| 0 <= j < init.len() && init[j] == id;
                assert(ids[j] == id);
            }
        }
        lemma_listed_details_unlisted_insert(init, shares, id, d);
        assert(ids.last() != id) by {
            assert(ids[ids.len() - 1] == ids.last());
        }
    }
}

/// Every entry that `created_by` keeps has the creator asked for and is one
/// of the given details; every one of the given details with that creator
/// is kept.
pub proof fn lemma_created_by_filters(ds: Seq<DetailsView>, creator: Seq<u8>)
    ensures
        forall|i: int| 0 <= i < created_by(ds, creator).len() ==> {
            &&& (#[trigger] created_by(ds, creator)[i]).creator == creator
            &&& ds.contains(created_by(ds, creator)[i])
        },
        forall|j: int| 0 <= j < ds.len() && (#[trigger] ds[j]).creator == creator
            ==> created_by(ds, creator).contains(ds[j]),
    decreases ds.len(),
{
    if ds.len() > 0 {
        let init = ds.drop_last();
        lemma_created_by_filters(init, creator);
        let rest = created_by(init, creator);
        let out = created_by(ds, creator);
        assert forall|i: int| 0 <= i < out.len() implies {
            &&& (#[trigger] out[i]).creator == creator
            &&& ds.contains(out[i])
        } by {
            if i < rest.len() {
                assert(out[i] == rest[i]);
                assert(rest[i].creator == creator);
                let k = choose|k: int| 0 <= k < init.len() && init[k] == rest[i];
                assert(ds[k] == init[k]);
            } else {
                assert(out[i] == ds.last());
                assert(ds[ds.len() - 1] == ds.last());
            }
        }
        assert forall|j: int| 0 <= j < ds.len() && (#[trigger] ds[j]).creator == creator
            implies out.contains(ds[j]) by {
            if j < init.len() {
                assert(init[j] == ds[j]);
                assert(rest.contains(ds[j]));
                let k = choose|k: int| 0 <= k < rest.len() && rest[k] == ds[j];
                assert(out[k] == rest[k]);
            } else {
                assert(out[out.len() - 1] == ds[j]);
            }
        }
    }
}

/// Keeping the details with a given creator, in order, is filtering by that
/// creator.
pub proof fn lemma_created_by_is_filter(ds: Seq<DetailsView>, creator: Seq<u8>)
    ensures
        created_by(ds, creator) == ds.filter(|d: DetailsView| d.creator == creator),
    decreases ds.len(),
{
    reveal_with_fuel(Seq::filter, 1);
    if ds.len() > 0 {
        lemma_created_by_is_filter(ds.drop_last(), creator);
    }
}

/// The ledger with no entries is consistent.
pub proof fn law_empty_ledger_is_consistent()
    ensures
        LedgerView::empty().consistent(),
{
    assert(LedgerView::empty().group_ids() =~= Seq::<Seq<u8>>::empty());
}

/// Setting the administrator, pausing and unpausing keep a consistent
/// ledger consistent.
pub proof fn law_admin_operations_keep_consistency(l: LedgerView, caller: Seq<u8>)
    requires
        l.consistent(),
    ensures
        set_admin_outcome(l, caller).0.consistent(),
        pause_outcome(l, caller).0.consistent(),
        unpause_outcome(l, caller).0.consistent(),
{
}

/// Creating a group keeps a consistent ledger consistent.
pub proof fn law_create_keeps_consistency(l: LedgerView, id: Seq<u8>, name: Seq<u8>, creator: Seq<u8>)
    requires
        l.consistent(),
    ensures
        create_outcome(l, id, name, creator).0.consistent(),
{
    let l1 = create_outcome(l, id, name, creator).0;
    if create_outcome(l, id, name, creator).1 is Ok {
        let ids = l.group_ids();
        assert(!ids.contains(id)) by {
            if ids.contains(id) {
                let j = choose|j: int| 0 <= j < ids.len() && ids[j] == id;
                assert(l.autoshares.contains_key(ids[j]));
            }
        }
        let ids1 = l1.group_ids();
        assert(ids1 == ids.push(id));
        assert(ids1.no_duplicates()) by {
            assert forall|i: int, j: int| 0 <= i < ids1.len() && 0 <= j < ids1.len() && i != j
                implies ids1[i] != ids1[j] by {
                if i < ids.len() && j < ids.len() {
                    assert(ids1[i] == ids[i] && ids1[j] == ids[j]);
                } else if i < ids.len() {
                    assert(ids1[i] == ids[i]);
                    assert(ids.contains(ids[i]));
                } else if j < ids.len() {
                    assert(ids1[j] == ids[j]);
                    assert(ids.contains(ids[j]));
                }
            }
        }
        assert forall|i: int| 0 <= i < ids1.len() implies l1.autoshares.contains_key(#[trigger] ids1[i]) by {
            if i < ids.len() {
                assert(ids1[i] == ids[i]);
                assert(l.autoshares.contains_key(ids[i]));
            }
        }
        assert forall|k: Seq<u8>| #[trigger] l1.autoshares.contains_key(k) implies {
            &&& ids1.contains(k)
            &&& l1.autoshares[k].id == k
            &&& l1.members.contains_key(k)
        } by {
            if k == id {
                assert(ids1[ids.len() as int] == id);
            } else {
                assert(l.autoshares.contains_key(k));
                assert(ids.contains(k));
                let j = choose|j: int| 0 <= j < ids.len() && ids[j] == k;
                assert(ids1[j] == k);
            }
        }
        assert forall|k: Seq<u8>| #[trigger] l1.members.contains_key(k) implies l1.members[k].no_duplicates() by {
            if k != id {
                assert(l.members.contains_key(k));
            }
        }
    }
}

/// Adding a member keeps a consistent ledger consistent; in particular no
/// member list ever names an address twice.
pub proof fn law_add_member_keeps_consistency(l: LedgerView, id: Seq<u8>, address: Seq<u8>)
    requires
        l.consistent(),
    ensures
        add_member_outcome(l, id, address).0.consistent(),
{
    let l1 = add_member_outcome(l, id, address).0;
    if add_member_outcome(l, id, address).1 is Ok {
        let ms = l.members_of(id);
        assert(l.members.contains_key(id));
        assert forall|k: Seq<u8>| #[trigger] l1.members.contains_key(k) implies l1.members[k].no_duplicates() by {
            if k == id {
                let ms1 = ms.push(address);
                assert(ms.no_duplicates());
                assert forall|i: int, j: int| 0 <= i < ms1.len() && 0 <= j < ms1.len() && i != j
                    implies ms1[i] != ms1[j] by {
                    if i < ms.len() && j < ms.len() {
                        assert(ms1[i] == ms[i] && ms1[j] == ms[j]);
                    } else if i < ms.len() {
                        assert(ms1[i] == ms[i]);
                        assert(ms.contains(ms[i]));
                    } else if j < ms.len() {
                        assert(ms1[j] == ms[j]);
                        assert(ms.contains(ms[j]));
                    }
                }
            } else {
                assert(l.members.contains_key(k));
            }
        }
        assert forall|k: Seq<u8>| #[trigger] l1.autoshares.contains_key(k) implies {
            &&& l1.group_ids().contains(k)
            &&& l1.autoshares[k].id == k
            &&& l1.members.contains_key(k)
        } by {
            assert(l.autoshares.contains_key(k));
        }
    }
}

/// An operation that fails changes nothing.
pub proof fn law_failures_change_nothing(
    l: LedgerView,
    caller: Seq<u8>,
    id: Seq<u8>,
    name: Seq<u8>,
    address: Seq<u8>,
)
    ensures
        set_admin_outcome(l, caller).1 is Err ==> set_admin_outcome(l, caller).0 == l,
        pause_outcome(l, caller).1 is Err ==> pause_outcome(l, caller).0 == l,
        unpause_outcome(l, caller).1 is Err ==> unpause_outcome(l, caller).0 == l,
        create_outcome(l, id, name, caller).1 is Err ==> create_outcome(l, id, name, caller).0 == l,
        add_member_outcome(l, id, address).1 is Err ==> add_member_outcome(l, id, address).0 == l,
{
}

/// The administrator is set once: after a successful `set_admin(a)` the
/// administrator is `a`, and any later `set_admin` fails with
/// `AlreadyExists` and keeps `a`.
pub proof fn law_admin_is_set_once(l: LedgerView, a: Seq<u8>, b: Seq<u8>)
    requires
        set_admin_outcome(l, a).1 is Ok,
    ensures
        set_admin_outcome(l, a).0.admin == Some(a),
        set_admin_outcome(set_admin_outcome(l, a).0, b)
            == (set_admin_outcome(l, a).0, Err::<(), Error>(Error::AlreadyExists)),
{
}

/// Only the recorded administrator can pause or unpause: any other caller,
/// and any caller while no administrator is recorded, gets `Unauthorized`
/// and changes nothing.
pub proof fn law_only_admin_pauses(l: LedgerView, caller: Seq<u8>)
    requires
        l.admin != Some(caller),
    ensures
        pause_outcome(l, caller) == (l, Err::<(), Error>(Error::Unauthorized)),
        unpause_outcome(l, caller) == (l, Err::<(), Error>(Error::Unauthorized)),
{
}

/// A successful pause makes the status read paused, a second pause fails
/// with `AlreadyPaused`, and an unpause by the same administrator then
/// succeeds, makes the status read not paused and leaves every other entry
/// as it was before the pause.
pub proof fn law_pause_then_unpause(l: LedgerView, admin: Seq<u8>)
    requires
        pause_outcome(l, admin).1 is Ok,
    ensures
        pause_outcome(l, admin).0.paused(),
        pause_outcome(pause_outcome(l, admin).0, admin)
            == (pause_outcome(l, admin).0, Err::<(), Error>(Error::AlreadyPaused)),
        unpause_outcome(pause_outcome(l, admin).0, admin).1 is Ok,
        !unpause_outcome(pause_outcome(l, admin).0, admin).0.paused(),
        unpause_outcome(pause_outcome(l, admin).0, admin).0 == (LedgerView { is_paused: Some(false), ..l }),
{
}

/// An unpause while not paused fails with `NotPaused`, and after a
/// successful unpause a pause by the same administrator succeeds.
pub proof fn law_unpause_then_pause(l: LedgerView, admin: Seq<u8>)
    requires
        unpause_outcome(l, admin).1 is Ok,
    ensures
        !unpause_outcome(l, admin).0.paused(),
        unpause_outcome(unpause_outcome(l, admin).0, admin)
            == (unpause_outcome(l, admin).0, Err::<(), Error>(Error::NotPaused)),
        pause_outcome(unpause_outcome(l, admin).0, admin).1 is Ok,
        pause_outcome(unpause_outcome(l, admin).0, admin).0.paused(),
{
}

/// While the contract is paused, creating a group and adding a member fail
/// with `ContractPaused` and change nothing; reads still answer.
pub proof fn law_paused_blocks_writes(
    l: LedgerView,
    id: Seq<u8>,
    name: Seq<u8>,
    creator: Seq<u8>,
    address: Seq<u8>,
)
    requires
        l.paused(),
    ensures
        create_outcome(l, id, name, creator) == (l, Err::<(), Error>(Error::ContractPaused)),
        add_member_outcome(l, id, address) == (l, Err::<(), Error>(Error::ContractPaused)),
{
}

/// After a group is created, reading it gives back what was written: its
/// details, an empty member list, and no address as a member; creating it
/// again fails with `AlreadyExists`.
pub proof fn law_create_then_read(
    l: LedgerView,
    id: Seq<u8>,
    name: Seq<u8>,
    creator: Seq<u8>,
    address: Seq<u8>,
    name2: Seq<u8>,
    creator2: Seq<u8>,
)
    requires
        create_outcome(l, id, name, creator).1 is Ok,
    ensures
        autoshare_result(create_outcome(l, id, name, creator).0, id)
            == Ok::<DetailsView, Error>(DetailsView { id, name, creator }),
        members_result(create_outcome(l, id, name, creator).0, id)
            == Ok::<Seq<Seq<u8>>, Error>(Seq::empty()),
        is_member_result(create_outcome(l, id, name, creator).0, id, address) == Ok::<bool, Error>(false),
        create_outcome(create_outcome(l, id, name, creator).0, id, name2, creator2)
            == (create_outcome(l, id, name, creator).0, Err::<(), Error>(Error::AlreadyExists)),
{
    let l1 = create_outcome(l, id, name, creator).0;
    assert(l1.members_of(id) =~= Seq::<Seq<u8>>::empty());
}

/// On a consistent ledger, a created group is appended to the list of all
/// groups: the groups read afterwards are those read before, followed by
/// the new one.
pub proof fn law_create_appends_to_all_groups(l: LedgerView, id: Seq<u8>, name: Seq<u8>, creator: Seq<u8>)
    requires
        l.consistent(),
        create_outcome(l, id, name, creator).1 is Ok,
    ensures
        all_groups_result(create_outcome(l, id, name, creator).0)
            == all_groups_result(l).push(DetailsView { id, name, creator }),
{
    let ids = l.group_ids();
    let d = DetailsView { id, name, creator };
    let shares1 = l.autoshares.insert(id, d);
    assert(!ids.contains(id)) by {
        if ids.contains(id) {
            let j = choose|j: int| 0 <= j < ids.len() && ids[j] == id;
            assert(l.autoshares.contains_key(ids[j]));
        }
    }
    lemma_listed_details_unlisted_insert(ids, l.autoshares, id, d);
    let ids1 = ids.push(id);
    assert(ids1.drop_last() =~= ids);
    assert(ids1.last() == id);
    assert(listed_details(ids1, shares1) == listed_details(ids, shares1).push(d));
}

/// On a consistent ledger, the groups read are exactly the groups that
/// exist, each once, in the order of the list of all groups.
pub proof fn law_all_groups_lists_every_group(l: LedgerView)
    requires
        l.consistent(),
    ensures
        all_groups_result(l).len() == l.group_ids().len(),
        forall|i: int| 0 <= i < l.group_ids().len()
            ==> #[trigger] all_groups_result(l)[i] == l.autoshares[l.group_ids()[i]],
        forall|k: Seq<u8>| #[trigger] l.autoshares.contains_key(k) ==> all_groups_result(l).contains(l.autoshares[k]),
{
    let ids = l.group_ids();
    lemma_listed_details_all_present(ids, l.autoshares);
    assert forall|k: Seq<u8>| #[trigger] l.autoshares.contains_key(k)
        implies all_groups_result(l).contains(l.autoshares[k]) by {
        assert(ids.contains(k));
        let j = choose|j: int| 0 <= j < ids.len() && ids[j] == k;
        assert(all_groups_result(l)[j] == l.autoshares[ids[j]]);
    }
}

/// The groups read for a creator are those of all groups whose creator it
/// is, and only those.
pub proof fn law_groups_by_creator_selects_creator(l: LedgerView, creator: Seq<u8>)
    ensures
        forall|i: int| 0 <= i < groups_by_creator_result(l, creator).len() ==> {
            &&& (#[trigger] groups_by_creator_result(l, creator)[i]).creator == creator
            &&& all_groups_result(l).contains(groups_by_creator_result(l, creator)[i])
        },
        forall|j: int| 0 <= j < all_groups_result(l).len() && (#[trigger] all_groups_result(l)[j]).creator == creator
            ==> groups_by_creator_result(l, creator).contains(all_groups_result(l)[j]),
{
    lemma_created_by_filters(all_groups_result(l), creator);
}

/// After a member is added, the address is a member, the member list is the
/// former list followed by the address, adding it again fails with
/// `AlreadyExists`, and other groups' member lists are unchanged.
pub proof fn law_add_member_then_read(l: LedgerView, id: Seq<u8>, address: Seq<u8>, other: Seq<u8>)
    requires
        add_member_outcome(l, id, address).1 is Ok,
        other != id,
    ensures
        is_member_result(add_member_outcome(l, id, address).0, id, address) == Ok::<bool, Error>(true),
        members_result(add_member_outcome(l, id, address).0, id)
            == Ok::<Seq<Seq<u8>>, Error>(l.members_of(id).push(address)),
        add_member_outcome(add_member_outcome(l, id, address).0, id, address)
            == (add_member_outcome(l, id, address).0, Err::<(), Error>(Error::AlreadyExists)),
        members_result(add_member_outcome(l, id, address).0, other) == members_result(l, other),
{
    let l1 = add_member_outcome(l, id, address).0;
    let ms1 = l.members_of(id).push(address);
    assert(l1.members_of(id) == ms1);
    assert(ms1[ms1.len() - 1] == address);
    assert(ms1.contains(address));
}

/// Membership agrees with the member list: an address is a member of a
/// group exactly when the group's member list names it, and both reads
/// fail with `NotFound` for a group that does not exist.
pub proof fn law_membership_agrees_with_member_list(l: LedgerView, id: Seq<u8>, address: Seq<u8>)
    ensures
        match (is_member_result(l, id, address), members_result(l, id)) {
            (Ok(b), Ok(ms)) => b == ms.contains(address),
            (Err(e), Err(f)) => e == Error::NotFound && f == Error::NotFound,
            _ => false,
        },
{
}

/// Reading a group's details gives the details stored under that
/// identifier, whatever was created before or after it: on a consistent
/// ledger the details carry the identifier asked for, and the read succeeds
/// exactly when the group exists.
pub proof fn law_autoshare_read_gives_stored_details(l: LedgerView, id: Seq<u8>)
    ensures
        autoshare_result(l, id) is Ok <==> l.autoshares.contains_key(id),
        autoshare_result(l, id) matches Ok(d) ==> d == l.autoshares[id],
        l.consistent() ==> (autoshare_result(l, id) matches Ok(d) ==> d.id == id),
        autoshare_result(l, id) matches Err(e) ==> e == Error::NotFound,
{
}

/// The details read for a group do not change when another group is
/// created, when members are added, when the administrator is set, or when
/// the contract is paused or unpaused.
pub proof fn law_autoshare_read_unaffected_by_other_operations(
    l: LedgerView,
    id: Seq<u8>,
    other: Seq<u8>,
    name: Seq<u8>,
    creator: Seq<u8>,
    group: Seq<u8>,
    address: Seq<u8>,
    caller: Seq<u8>,
)
    requires
        other != id,
    ensures
        autoshare_result(create_outcome(l, other, name, creator).0, id) == autoshare_result(l, id),
        autoshare_result(add_member_outcome(l, group, address).0, id) == autoshare_result(l, id),
        autoshare_result(set_admin_outcome(l, caller).0, id) == autoshare_result(l, id),
        autoshare_result(pause_outcome(l, caller).0, id) == autoshare_result(l, id),
        autoshare_result(unpause_outcome(l, caller).0, id) == autoshare_result(l, id),
{
}

/// The groups read for a creator are exactly the groups read by
/// `get_all_groups` whose creator it is, each once, in the same order; so
/// there are as many as there are such groups, and never more than all
/// groups.
pub proof fn law_groups_by_creator_is_filter(l: LedgerView, creator: Seq<u8>)
    ensures
        groups_by_creator_result(l, creator) == all_groups_result(l).filter(|d: DetailsView| d.creator == creator),
        groups_by_creator_result(l, creator).len() <= all_groups_result(l).len(),
{
    lemma_created_by_is_filter(all_groups_result(l), creator);
    all_groups_result(l).lemma_filter_len(|d: DetailsView| d.creator == creator);
}

/// Reads ignore the pause flag: for an existing group the member read gives
/// the stored member list and membership is membership of that list, paused
/// or not; pausing and unpausing change no read.
pub proof fn law_reads_ignore_pause(l: LedgerView, id: Seq<u8>, address: Seq<u8>, admin: Seq<u8>)
    ensures
        l.has_group(id) ==> members_result(l, id) == Ok::<Seq<Seq<u8>>, Error>(l.members_of(id)),
        l.has_group(id) ==> is_member_result(l, id, address) == Ok::<bool, Error>(l.members_of(id).contains(address)),
        members_result(pause_outcome(l, admin).0, id) == members_result(l, id),
        is_member_result(pause_outcome(l, admin).0, id, address) == is_member_result(l, id, address),
        autoshare_result(pause_outcome(l, admin).0, id) == autoshare_result(l, id),
        all_groups_result(pause_outcome(l, admin).0) == all_groups_result(l),
        members_result(unpause_outcome(l, admin).0, id) == members_result(l, id),
        is_member_result(unpause_outcome(l, admin).0, id, address) == is_member_result(l, id, address),
        autoshare_result(unpause_outcome(l, admin).0, id) == autoshare_result(l, id),
        all_groups_result(unpause_outcome(l, admin).0) == all_groups_result(l),
{
}

/// Creating a group fails only while paused (`ContractPaused`) or when the
/// identifier is taken (`AlreadyExists`); otherwise it succeeds, however many
/// groups exist.
pub proof fn law_create_succeeds_unless_paused_or_taken(
    l: LedgerView,
    id: Seq<u8>,
    name: Seq<u8>,
    creator: Seq<u8>,
)
    ensures
        create_outcome(l, id, name, creator).1 is Ok <==> (!l.paused() && !l.has_group(id)),
        create_outcome(l, id, name, creator).1 matches Err(e) ==> {
            ||| (e == Error::ContractPaused && l.paused())
            ||| (e == Error::AlreadyExists && !l.paused() && l.has_group(id))
        },
{
}

/// Adding a member fails only while paused (`ContractPaused`), for a group
/// that does not exist (`NotFound`) or for an address already a member
/// (`AlreadyExists`); any other address, the administrator's included, is
/// added.
pub proof fn law_add_member_succeeds_unless_paused_missing_or_member(
    l: LedgerView,
    id: Seq<u8>,
    address: Seq<u8>,
)
    ensures
        add_member_outcome(l, id, address).1 is Ok
            <==> (!l.paused() && l.has_group(id) && !l.members_of(id).contains(address)),
        add_member_outcome(l, id, address).1 matches Err(e) ==> {
            ||| (e == Error::ContractPaused && l.paused())
            ||| (e == Error::NotFound && !l.paused() && !l.has_group(id))
            ||| (e == Error::AlreadyExists && !l.paused() && l.has_group(id)
                    && l.members_of(id).contains(address))
        },
        add_member_outcome(l, id, address).1 is Ok
            ==> add_member_outcome(l, id, address).0.members_of(id) == l.members_of(id).push(address),
{
    assert(add_member_outcome(l, id, address).1 is Ok
        ==> add_member_outcome(l, id, address).0.members_of(id) =~= l.members_of(id).push(address));
}

} // verus!
