use experience::{BigUint, Identity, MemberLedger};

fn id(n: u8) -> Identity {
    Identity::new([n; 32])
}

fn n(v: u64) -> BigUint {
    BigUint::from_u64(v)
}

fn balance(ledger: &MemberLedger, who: u8) -> u64 {
    ledger.get_balance(&id(who)).to_u64().unwrap()
}

fn listed(ledger: &MemberLedger) -> Vec<(u8, u64)> {
    ledger.list_entries().iter().map(|(i, b)| (i.bytes[0], b.to_u64().unwrap())).collect()
}

#[test]
fn balance_of_unknown_identity_is_zero() {
    let ledger = MemberLedger::new();
    assert_eq!(balance(&ledger, 1), 0);
    assert_eq!(listed(&ledger), vec![]);
}

#[test]
fn two_deposits_add_up() {
    let mut ledger = MemberLedger::new();
    ledger.add_points(id(1), n(3));
    ledger.add_points(id(1), n(4));
    assert_eq!(balance(&ledger, 1), 7);
    assert_eq!(listed(&ledger), vec![(1, 7)]);
}

#[test]
fn deposits_add_to_an_existing_balance() {
    let mut ledger = MemberLedger::new();
    ledger.add_points(id(1), n(5));
    ledger.add_points(id(1), n(1));
    ledger.add_points(id(1), n(2));
    assert_eq!(balance(&ledger, 1), 8);
}

#[test]
fn deposit_beyond_u64_has_no_ceiling() {
    let mut ledger = MemberLedger::new();
    ledger.add_points(id(1), n(u64::MAX));
    ledger.add_points(id(1), n(u64::MAX));
    let held = ledger.get_balance(&id(1));
    assert_eq!(held.to_u64(), None);
    assert_eq!(held.to_bytes_be(), vec![1, 0xff, 0xff, 0xff, 0xff, 0xff, 0xff, 0xff, 0xfe]);
    ledger.remove_points(&id(1), &n(u64::MAX));
    assert_eq!(balance(&ledger, 1), u64::MAX);
}

#[test]
fn withdrawal_within_the_balance_is_subtracted() {
    let mut ledger = MemberLedger::new();
    ledger.add_points(id(1), n(10));
    ledger.remove_points(&id(1), &n(4));
    assert_eq!(balance(&ledger, 1), 6);
    assert_eq!(listed(&ledger), vec![(1, 6)]);
    ledger.remove_points(&id(1), &n(0));
    assert_eq!(balance(&ledger, 1), 6);
}

#[test]
fn withdrawal_of_the_whole_balance_removes_the_entry() {
    let mut ledger = MemberLedger::new();
    ledger.add_points(id(1), n(5));
    ledger.remove_points(&id(1), &n(5));
    assert_eq!(balance(&ledger, 1), 0);
    assert_eq!(listed(&ledger), vec![]);
}

#[test]
fn overdraft_removes_the_entry() {
    let mut ledger = MemberLedger::new();
    ledger.add_points(id(1), n(3));
    ledger.remove_points(&id(1), &n(8));
    assert_eq!(balance(&ledger, 1), 0);
    assert_eq!(listed(&ledger), vec![]);
}

#[test]
fn withdrawal_from_unknown_identity_changes_nothing() {
    let mut ledger = MemberLedger::new();
    ledger.add_points(id(1), n(3));
    ledger.remove_points(&id(2), &n(1));
    assert_eq!(listed(&ledger), vec![(1, 3)]);
    assert_eq!(balance(&ledger, 2), 0);
}

#[test]
fn deposit_of_zero_creates_no_entry() {
    let mut ledger = MemberLedger::new();
    ledger.add_points(id(1), n(0));
    assert_eq!(balance(&ledger, 1), 0);
    assert_eq!(listed(&ledger), vec![]);
    ledger.add_points(id(2), n(9));
    ledger.add_points(id(2), n(0));
    assert_eq!(listed(&ledger), vec![(2, 9)]);
}

#[test]
fn other_balances_are_left_alone() {
    let mut ledger = MemberLedger::new();
    ledger.add_points(id(1), n(10));
    ledger.add_points(id(2), n(20));
    ledger.add_points(id(3), n(30));
    ledger.add_points(id(2), n(5));
    ledger.remove_points(&id(3), &n(1));
    assert_eq!(balance(&ledger, 1), 10);
    assert_eq!(balance(&ledger, 2), 25);
    assert_eq!(balance(&ledger, 3), 29);
}

#[test]
fn entries_are_listed_in_order_of_first_deposit() {
    let mut ledger = MemberLedger::new();
    ledger.add_points(id(3), n(30));
    ledger.add_points(id(1), n(10));
    ledger.add_points(id(2), n(20));
    ledger.add_points(id(3), n(1));
    assert_eq!(listed(&ledger), vec![(3, 31), (1, 10), (2, 20)]);
    ledger.remove_points(&id(1), &n(10));
    assert_eq!(listed(&ledger), vec![(3, 31), (2, 20)]);
    ledger.add_points(id(1), n(7));
    assert_eq!(listed(&ledger), vec![(3, 31), (2, 20), (1, 7)]);
    ledger.remove_points(&id(3), &n(100));
    assert_eq!(listed(&ledger), vec![(2, 20), (1, 7)]);
}

#[test]
fn from_entries_takes_valid_entries_as_they_are() {
    let ledger = MemberLedger::from_entries(vec![(id(2), n(5)), (id(1), n(7))]).unwrap();
    assert_eq!(listed(&ledger), vec![(2, 5), (1, 7)]);
    assert_eq!(balance(&ledger, 1), 7);
    let empty = MemberLedger::from_entries(Vec::new()).unwrap();
    assert_eq!(listed(&empty), vec![]);
}

#[test]
fn from_entries_refuses_a_zero_balance() {
    assert!(MemberLedger::from_entries(vec![(id(1), n(5)), (id(2), n(0))]).is_none());
    assert!(MemberLedger::from_entries(vec![(id(1), BigUint::from_bytes_be(&[0, 0]))]).is_none());
}

#[test]
fn from_entries_refuses_an_identity_twice() {
    assert!(MemberLedger::from_entries(vec![(id(1), n(5)), (id(2), n(1)), (id(1), n(6))]).is_none());
    assert!(MemberLedger::from_entries(vec![(id(1), n(5)), (id(1), n(5))]).is_none());
}
