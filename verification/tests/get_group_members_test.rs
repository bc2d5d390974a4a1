use autoshare::autoshare_logic::{add_group_member, create_autoshare, get_group_members};
use autoshare::{Address, GroupId, GroupMember, Ledger};

fn addr(n: u32) -> Address {
    Address { strkey: format!("G{:055}", n).into_bytes() }
}

/// Creates the group `[seed; 32]` named "Test Group" with `member_count`
/// fresh members.
fn make_group_with_members(ledger: &mut Ledger, creator: &Address, seed: u8, member_count: u32) -> GroupId {
    let id = GroupId { bytes: [seed; 32] };
    create_autoshare(ledger, id, b"Test Group".to_vec(), creator.duplicate()).unwrap();
    for i in 0..member_count {
        add_group_member(ledger, id, addr(1000 * seed as u32 + i)).unwrap();
    }
    id
}

fn same_members(a: &[GroupMember], b: &[GroupMember]) -> bool {
    a.len() == b.len() && a.iter().zip(b.iter()).all(|(x, y)| x.address.same_as(&y.address))
}

#[test]
fn test_get_group_members_returns_all_members() {
    let mut ledger = Ledger::new();
    let id = make_group_with_members(&mut ledger, &addr(1), 1, 10);
    let members = get_group_members(&ledger, id).unwrap();
    assert_eq!(members.len(), 10);
}

#[test]
fn test_get_group_members_empty_group() {
    let mut ledger = Ledger::new();
    let id = make_group_with_members(&mut ledger, &addr(1), 2, 0);
    let members = get_group_members(&ledger, id).unwrap();
    assert_eq!(members.len(), 0);
}

#[test]
fn test_get_group_members_single_member() {
    let mut ledger = Ledger::new();
    let id = make_group_with_members(&mut ledger, &addr(1), 4, 1);
    let members = get_group_members(&ledger, id).unwrap();
    assert_eq!(members.len(), 1);
}

#[test]
fn test_get_group_members_preserves_order() {
    let mut ledger = Ledger::new();
    let creator = addr(1);
    let id = GroupId { bytes: [5u8; 32] };
    create_autoshare(&mut ledger, id, b"Test Group".to_vec(), creator).unwrap();
    let addr1 = addr(11);
    let addr2 = addr(12);
    let addr3 = addr(13);
    add_group_member(&mut ledger, id, addr1.duplicate()).unwrap();
    add_group_member(&mut ledger, id, addr2.duplicate()).unwrap();
    add_group_member(&mut ledger, id, addr3.duplicate()).unwrap();

    let result = get_group_members(&ledger, id).unwrap();
    assert_eq!(result.len(), 3);
    assert!(result[0].address.same_as(&addr1));
    assert!(result[1].address.same_as(&addr2));
    assert!(result[2].address.same_as(&addr3));
}

#[test]
fn test_get_group_members_consistent_order() {
    let mut ledger = Ledger::new();
    let id = make_group_with_members(&mut ledger, &addr(1), 6, 10);
    let members1 = get_group_members(&ledger, id).unwrap();
    let members2 = get_group_members(&ledger, id).unwrap();
    let members3 = get_group_members(&ledger, id).unwrap();
    assert_eq!(members1.len(), members2.len());
    assert_eq!(members2.len(), members3.len());
    for i in 0..10 {
        assert!(members1[i].address.same_as(&members2[i].address));
        assert!(members2[i].address.same_as(&members3[i].address));
    }
}

#[test]
fn test_get_group_members_nonexistent_group() {
    let ledger = Ledger::new();
    let ghost_id = GroupId { bytes: [0xFFu8; 32] };
    let result = get_group_members(&ledger, ghost_id);
    assert!(result.is_err());
}

#[test]
fn test_get_group_members_does_not_mutate_state() {
    let mut ledger = Ledger::new();
    let id = make_group_with_members(&mut ledger, &addr(1), 20, 10);
    let members_before = get_group_members(&ledger, id).unwrap();
    get_group_members(&ledger, id).unwrap();
    get_group_members(&ledger, id).unwrap();
    let members_after = get_group_members(&ledger, id).unwrap();
    assert!(same_members(&members_before, &members_after));
}

#[test]
fn test_get_group_members_deterministic() {
    let mut ledger = Ledger::new();
    let id = make_group_with_members(&mut ledger, &addr(1), 25, 15);
    let result1 = get_group_members(&ledger, id).unwrap();
    let result2 = get_group_members(&ledger, id).unwrap();
    assert_eq!(result1.len(), 15);
    assert!(same_members(&result1, &result2));
}

#[test]
fn test_get_group_members_reflects_additions() {
    let mut ledger = Ledger::new();
    let id = make_group_with_members(&mut ledger, &addr(1), 27, 5);
    let members_before = get_group_members(&ledger, id).unwrap();
    assert_eq!(members_before.len(), 5);
    for i in 0..5 {
        add_group_member(&mut ledger, id, addr(90_000 + i)).unwrap();
    }
    let members_after = get_group_members(&ledger, id).unwrap();
    assert_eq!(members_after.len(), 10);
}

#[test]
fn test_get_group_members_isolated_per_group() {
    let mut ledger = Ledger::new();
    let creator = addr(1);
    let id_a = make_group_with_members(&mut ledger, &creator, 37, 5);
    let id_b = make_group_with_members(&mut ledger, &creator, 38, 10);
    assert_eq!(get_group_members(&ledger, id_a).unwrap().len(), 5);
    assert_eq!(get_group_members(&ledger, id_b).unwrap().len(), 10);
}

#[test]
fn test_get_group_members_max_capacity() {
    let mut ledger = Ledger::new();
    let id = make_group_with_members(&mut ledger, &addr(1), 30, 50);
    let members = get_group_members(&ledger, id).unwrap();
    assert_eq!(members.len(), 50);
}
