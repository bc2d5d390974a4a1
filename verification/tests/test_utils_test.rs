use autoshare::autoshare_logic::{add_group_member, create_autoshare, get_autoshare, set_admin};
use autoshare::{Address, GroupId, Ledger};

/// Hands out distinct addresses, as a test host hands out fresh accounts.
struct AddressSource {
    next: u32,
}

impl AddressSource {
    fn new() -> Self {
        AddressSource { next: 0 }
    }

    fn generate(&mut self) -> Address {
        self.next += 1;
        Address { strkey: format!("G{:055}", self.next).into_bytes() }
    }
}

struct TestEnv {
    ledger: Ledger,
    admin: Address,
    users: Vec<Address>,
    mock_tokens: Vec<Address>,
}

fn setup_test_env() -> TestEnv {
    let mut source = AddressSource::new();
    let admin = source.generate();
    let users: Vec<Address> = (0..3).map(|_| source.generate()).collect();
    let token = source.generate();
    let mut ledger = Ledger::new();
    set_admin(&mut ledger, admin.duplicate()).unwrap();
    TestEnv { ledger, admin, users, mock_tokens: vec![token] }
}

#[test]
fn test_setup_test_env() {
    let test_env = setup_test_env();
    assert_eq!(test_env.users.len(), 3);
    assert!(!test_env.mock_tokens.is_empty());
    // The admin is not one of the users.
    assert!(!test_env.admin.same_as(&test_env.users[0]));
    assert!(test_env.ledger.stored_admin().unwrap().same_as(&test_env.admin));
}

#[test]
fn test_autoshare_helpers() {
    let mut source = AddressSource::new();
    let mut ledger = Ledger::new();
    let creator = source.generate();
    let member = source.generate();

    let mut id_bytes = [0u8; 32];
    id_bytes[0..4].copy_from_slice(&1u32.to_be_bytes());
    let group_id = GroupId { bytes: id_bytes };
    create_autoshare(&mut ledger, group_id, b"Test Group".to_vec(), creator).unwrap();
    add_group_member(&mut ledger, group_id, member).unwrap();

    // The group exists: reading it succeeds.
    assert!(get_autoshare(&ledger, group_id).is_ok());
}
