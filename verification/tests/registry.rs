use experience::{AuthorizationError, AuthorizationRegistry, Identity};

fn id(n: u8) -> Identity {
    Identity::new([n; 32])
}

fn sorted(mut ids: Vec<Identity>) -> Vec<[u8; 32]> {
    let mut bytes: Vec<[u8; 32]> = ids.drain(..).map(|i| i.bytes).collect();
    bytes.sort();
    bytes
}

#[test]
fn identities_are_equal_when_their_bytes_are() {
    assert_eq!(id(1), id(1));
    assert_ne!(id(1), id(2));
    let mut bytes = [0u8; 32];
    bytes[31] = 1;
    assert_ne!(Identity::new(bytes), Identity::new([0u8; 32]));
    assert_eq!(Identity::new(bytes).bytes, bytes);
}

#[test]
fn initialize_makes_the_caller_the_only_manager() {
    let r = AuthorizationRegistry::initialize(id(1));
    assert!(r.is_manager(&id(1)));
    assert!(!r.is_manager(&id(2)));
    assert_eq!(r.list_managers(), vec![id(1)]);
}

#[test]
fn require_manager_refuses_others() {
    let r = AuthorizationRegistry::initialize(id(1));
    assert_eq!(r.require_manager(&id(1)), Ok(()));
    assert_eq!(r.require_manager(&id(2)), Err(AuthorizationError::NotManager));
}

#[test]
fn add_manager_is_idempotent() {
    let mut r = AuthorizationRegistry::initialize(id(1));
    r.add_manager(id(2));
    let once = sorted(r.list_managers());
    r.add_manager(id(2));
    assert_eq!(sorted(r.list_managers()), once);
    assert_eq!(once, vec![[1u8; 32], [2u8; 32]]);
}

#[test]
fn remove_manager_of_absent_identity_changes_nothing() {
    let mut r = AuthorizationRegistry::initialize(id(1));
    r.remove_manager(&id(9));
    assert_eq!(r.list_managers(), vec![id(1)]);
}

#[test]
fn remove_manager_takes_exactly_one_out() {
    let mut r = AuthorizationRegistry::initialize(id(1));
    r.add_manager(id(2));
    r.add_manager(id(3));
    r.add_manager(id(4));
    r.remove_manager(&id(2));
    assert!(!r.is_manager(&id(2)));
    assert_eq!(sorted(r.list_managers()), vec![[1u8; 32], [3u8; 32], [4u8; 32]]);
    r.remove_manager(&id(4));
    assert_eq!(sorted(r.list_managers()), vec![[1u8; 32], [3u8; 32]]);
    r.remove_manager(&id(1));
    r.remove_manager(&id(3));
    assert_eq!(r.list_managers(), Vec::<Identity>::new());
    assert!(!r.is_manager(&id(1)));
}

#[test]
fn from_list_drops_repeats() {
    let r = AuthorizationRegistry::from_list(&vec![id(3), id(1), id(3), id(2), id(1)]);
    assert_eq!(sorted(r.list_managers()), vec![[1u8; 32], [2u8; 32], [3u8; 32]]);
    let empty = AuthorizationRegistry::from_list(&Vec::new());
    assert_eq!(empty.list_managers(), Vec::<Identity>::new());
}

#[test]
fn error_messages() {
    assert_eq!(AuthorizationError::NotManager.message(), "caller must be manager");
    assert_eq!(AuthorizationError::NotOwner.message(), "Endpoint can only be called by owner");
}
