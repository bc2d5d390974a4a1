use autoshare::autoshare_logic::{
    add_group_member, create_autoshare, get_all_groups, get_autoshare, get_group_members,
    get_groups_by_creator, get_paused_status, is_group_member, pause, set_admin, unpause,
};
use autoshare::{Address, DataKey, Error, GroupId, Ledger};

fn addr(n: u32) -> Address {
    Address { strkey: format!("G{:055}", n).into_bytes() }
}

fn gid(b: u8) -> GroupId {
    GroupId { bytes: [b; 32] }
}

fn admin_ledger(admin: &Address) -> Ledger {
    let mut ledger = Ledger::new();
    set_admin(&mut ledger, admin.duplicate()).unwrap();
    ledger
}

#[test]
fn second_set_admin_fails_and_keeps_first() {
    let mut ledger = admin_ledger(&addr(1));
    assert_eq!(set_admin(&mut ledger, addr(2)), Err(Error::AlreadyExists));
    assert!(ledger.stored_admin().unwrap().same_as(&addr(1)));
}

#[test]
fn pause_without_admin_is_unauthorized() {
    let mut ledger = Ledger::new();
    assert_eq!(pause(&mut ledger, addr(1)), Err(Error::Unauthorized));
    assert_eq!(unpause(&mut ledger, addr(1)), Err(Error::Unauthorized));
    assert!(!ledger.has(&DataKey::IsPaused));
}

#[test]
fn pause_by_non_admin_is_unauthorized() {
    let mut ledger = admin_ledger(&addr(1));
    assert_eq!(pause(&mut ledger, addr(2)), Err(Error::Unauthorized));
    assert!(!get_paused_status(&ledger));
    pause(&mut ledger, addr(1)).unwrap();
    assert_eq!(unpause(&mut ledger, addr(2)), Err(Error::Unauthorized));
    assert!(get_paused_status(&ledger));
}

#[test]
fn pause_twice_is_already_paused() {
    let mut ledger = admin_ledger(&addr(1));
    pause(&mut ledger, addr(1)).unwrap();
    assert_eq!(pause(&mut ledger, addr(1)), Err(Error::AlreadyPaused));
    assert!(get_paused_status(&ledger));
}

#[test]
fn unpause_when_not_paused_is_not_paused() {
    let mut ledger = admin_ledger(&addr(1));
    assert_eq!(unpause(&mut ledger, addr(1)), Err(Error::NotPaused));
    assert!(!ledger.has(&DataKey::IsPaused));
    pause(&mut ledger, addr(1)).unwrap();
    unpause(&mut ledger, addr(1)).unwrap();
    assert_eq!(unpause(&mut ledger, addr(1)), Err(Error::NotPaused));
    assert_eq!(ledger.stored_paused(), Some(false));
}

#[test]
fn pause_after_unpause_succeeds() {
    let mut ledger = admin_ledger(&addr(1));
    pause(&mut ledger, addr(1)).unwrap();
    unpause(&mut ledger, addr(1)).unwrap();
    pause(&mut ledger, addr(1)).unwrap();
    assert!(get_paused_status(&ledger));
}

#[test]
fn paused_contract_refuses_writes_but_answers_reads() {
    let mut ledger = admin_ledger(&addr(1));
    create_autoshare(&mut ledger, gid(1), b"G".to_vec(), addr(5)).unwrap();
    pause(&mut ledger, addr(1)).unwrap();
    assert_eq!(create_autoshare(&mut ledger, gid(2), b"H".to_vec(), addr(5)), Err(Error::ContractPaused));
    assert_eq!(add_group_member(&mut ledger, gid(1), addr(7)), Err(Error::ContractPaused));
    assert!(!ledger.has(&DataKey::AutoShare(gid(2))));
    assert_eq!(get_group_members(&ledger, gid(1)).unwrap().len(), 0);
    assert_eq!(get_all_groups(&ledger).len(), 1);
    unpause(&mut ledger, addr(1)).unwrap();
    add_group_member(&mut ledger, gid(1), addr(7)).unwrap();
    assert!(is_group_member(&ledger, gid(1), addr(7)).unwrap());
}

#[test]
fn create_writes_details_list_and_empty_members() {
    let mut ledger = Ledger::new();
    create_autoshare(&mut ledger, gid(3), b"Rent".to_vec(), addr(4)).unwrap();
    assert!(ledger.has(&DataKey::AutoShare(gid(3))));
    assert!(ledger.has(&DataKey::GroupMembers(gid(3))));
    assert!(ledger.has(&DataKey::AllGroups));
    let d = get_autoshare(&ledger, gid(3)).unwrap();
    assert_eq!(d.id.bytes, [3u8; 32]);
    assert_eq!(d.name, b"Rent".to_vec());
    assert!(d.creator.same_as(&addr(4)));
    assert_eq!(ledger.stored_all_groups().unwrap().len(), 1);
    assert_eq!(get_group_members(&ledger, gid(3)).unwrap().len(), 0);
    assert_eq!(is_group_member(&ledger, gid(3), addr(4)), Ok(false));
}

#[test]
fn create_twice_keeps_first_details() {
    let mut ledger = Ledger::new();
    create_autoshare(&mut ledger, gid(3), b"Rent".to_vec(), addr(4)).unwrap();
    assert_eq!(create_autoshare(&mut ledger, gid(3), b"Other".to_vec(), addr(5)), Err(Error::AlreadyExists));
    let d = get_autoshare(&ledger, gid(3)).unwrap();
    assert_eq!(d.name, b"Rent".to_vec());
    assert_eq!(get_all_groups(&ledger).len(), 1);
}

#[test]
fn add_member_errors() {
    let mut ledger = Ledger::new();
    assert_eq!(add_group_member(&mut ledger, gid(1), addr(2)), Err(Error::NotFound));
    create_autoshare(&mut ledger, gid(1), b"G".to_vec(), addr(1)).unwrap();
    add_group_member(&mut ledger, gid(1), addr(2)).unwrap();
    assert_eq!(add_group_member(&mut ledger, gid(1), addr(2)), Err(Error::AlreadyExists));
    assert_eq!(get_group_members(&ledger, gid(1)).unwrap().len(), 1);
}

#[test]
fn members_of_other_groups_are_untouched() {
    let mut ledger = Ledger::new();
    create_autoshare(&mut ledger, gid(1), b"A".to_vec(), addr(1)).unwrap();
    create_autoshare(&mut ledger, gid(2), b"B".to_vec(), addr(1)).unwrap();
    add_group_member(&mut ledger, gid(1), addr(9)).unwrap();
    assert_eq!(is_group_member(&ledger, gid(2), addr(9)), Ok(false));
    add_group_member(&mut ledger, gid(2), addr(9)).unwrap();
    assert_eq!(get_group_members(&ledger, gid(1)).unwrap().len(), 1);
    assert_eq!(get_group_members(&ledger, gid(2)).unwrap().len(), 1);
}

#[test]
fn queries_on_missing_group_are_not_found() {
    let ledger = Ledger::new();
    assert_eq!(is_group_member(&ledger, gid(1), addr(1)), Err(Error::NotFound));
    assert!(matches!(get_group_members(&ledger, gid(1)), Err(Error::NotFound)));
    assert!(matches!(get_autoshare(&ledger, gid(1)), Err(Error::NotFound)));
}

#[test]
fn group_listed_without_details_is_skipped() {
    let mut ledger = Ledger::new();
    ledger.store_all_groups(vec![gid(1), gid(2)]);
    let mut details_ledger = Ledger::new();
    create_autoshare(&mut details_ledger, gid(2), b"B".to_vec(), addr(3)).unwrap();
    let d = get_autoshare(&details_ledger, gid(2)).unwrap();
    ledger.store_autoshare(gid(2), d);
    let all = get_all_groups(&ledger);
    assert_eq!(all.len(), 1);
    assert_eq!(all[0].id.bytes, [2u8; 32]);
}

#[test]
fn group_without_member_entry_reads_as_empty() {
    let mut ledger = Ledger::new();
    let mut source = Ledger::new();
    create_autoshare(&mut source, gid(4), b"X".to_vec(), addr(3)).unwrap();
    ledger.store_autoshare(gid(4), get_autoshare(&source, gid(4)).unwrap());
    assert!(!ledger.has(&DataKey::GroupMembers(gid(4))));
    assert_eq!(get_group_members(&ledger, gid(4)).unwrap().len(), 0);
    assert_eq!(is_group_member(&ledger, gid(4), addr(3)), Ok(false));
    add_group_member(&mut ledger, gid(4), addr(3)).unwrap();
    assert_eq!(is_group_member(&ledger, gid(4), addr(3)), Ok(true));
}

#[test]
fn groups_by_creator_keeps_creation_order() {
    let mut ledger = Ledger::new();
    create_autoshare(&mut ledger, gid(5), b"A".to_vec(), addr(1)).unwrap();
    create_autoshare(&mut ledger, gid(6), b"B".to_vec(), addr(2)).unwrap();
    create_autoshare(&mut ledger, gid(7), b"C".to_vec(), addr(1)).unwrap();
    let mine = get_groups_by_creator(&ledger, addr(1));
    assert_eq!(mine.len(), 2);
    assert_eq!(mine[0].id.bytes, [5u8; 32]);
    assert_eq!(mine[1].id.bytes, [7u8; 32]);
    assert_eq!(get_groups_by_creator(&ledger, addr(3)).len(), 0);
}

#[test]
fn addresses_compare_by_strkey() {
    let a = Address { strkey: b"GABC".to_vec() };
    assert!(a.same_as(&Address { strkey: b"GABC".to_vec() }));
    assert!(!a.same_as(&Address { strkey: b"GABD".to_vec() }));
    assert!(!a.same_as(&Address { strkey: b"GAB".to_vec() }));
    assert!(gid(1).same_as(&gid(1)));
    assert!(!gid(1).same_as(&gid(2)));
}

#[test]
fn error_codes_round_trip() {
    let all = [
        Error::InvalidInput,
        Error::AlreadyExists,
        Error::NotFound,
        Error::ContractPaused,
        Error::AlreadyPaused,
        Error::NotPaused,
        Error::Unauthorized,
        Error::InsufficientBalance,
        Error::InvalidAmount,
    ];
    for (i, e) in all.iter().enumerate() {
        assert_eq!(e.code(), i as u32 + 1);
        assert_eq!(Error::from_code(i as u32 + 1), Some(*e));
    }
    assert_eq!(Error::from_code(0), None);
    assert_eq!(Error::from_code(10), None);
}
