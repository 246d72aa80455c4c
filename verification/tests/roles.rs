//! The role registry: bootstrap, rotation, role grants and revocations,
//! the shared directory, and read gating.

use geode_reporting::account::AccountId;
use geode_reporting::storage::ContractStorage;
use geode_reporting::types::{Error, UserDetails};

fn acct(n: u32) -> AccountId {
    let mut b = [0u8; 32];
    b[0] = n as u8;
    b[1] = (n >> 8) as u8;
    b[2] = (n >> 16) as u8;
    b[3] = (n >> 24) as u8;
    AccountId::from_bytes(b)
}

fn bytes(s: &str) -> Vec<u8> {
    s.as_bytes().to_vec()
}

fn add_delegate(st: &mut ContractStorage, caller: AccountId, who: AccountId, name: &str) -> Result<(), Error> {
    st.add_geode_legal_delegate(caller, who, bytes(name), bytes("org"), bytes("p"), bytes("e"))
}

fn add_entity(st: &mut ContractStorage, caller: AccountId, who: AccountId, name: &str) -> Result<(), Error> {
    st.add_law_enforcement_access(caller, who, bytes(name), bytes("org"), bytes("p"), bytes("e"))
}

#[test]
fn root_rotation_rules() {
    let mut st = ContractStorage::new();
    let first = acct(1);
    let intruder = acct(2);
    let second = acct(3);

    // Before bootstrap, any caller may claim the root.
    assert_eq!(
        st.set_geode_legal_root(first, first, bytes("R"), bytes("o"), bytes("p"), bytes("e")),
        Ok(())
    );
    // Afterwards a non-root caller is refused, and the root stands.
    assert_eq!(
        st.set_geode_legal_root(intruder, intruder, bytes("X"), bytes("o"), bytes("p"), bytes("e")),
        Err(Error::GenericError)
    );
    assert_eq!(add_delegate(&mut st, intruder, acct(9), "no"), Err(Error::GenericError));
    assert_eq!(add_delegate(&mut st, first, acct(9), "yes"), Ok(()));
    // The current root may hand the role over.
    assert_eq!(
        st.set_geode_legal_root(first, second, bytes("S"), bytes("o"), bytes("p"), bytes("e")),
        Ok(())
    );
    // The old root kept only its delegate seat, not the root role.
    assert_eq!(
        st.set_geode_legal_root(first, first, bytes("R"), bytes("o"), bytes("p"), bytes("e")),
        Err(Error::GenericError)
    );
    assert_eq!(add_delegate(&mut st, second, acct(10), "ok"), Ok(()));
}

#[test]
fn unauthorized_writes_are_refused() {
    let mut st = ContractStorage::new();
    let root = acct(1);
    let outsider = acct(2);
    st.set_geode_legal_root(root, root, bytes("R"), bytes("o"), bytes("p"), bytes("e"))
        .unwrap();
    assert_eq!(add_delegate(&mut st, outsider, acct(3), "no"), Err(Error::GenericError));
    assert_eq!(st.remove_geode_legal_delegate(outsider, root), Err(Error::GenericError));
    assert_eq!(add_entity(&mut st, outsider, acct(3), "no"), Err(Error::GenericError));
    assert_eq!(st.remove_law_enforcement_access(outsider, acct(3)), Err(Error::GenericError));
    // A delegate may manage entities but not delegates.
    add_delegate(&mut st, root, acct(4), "D").unwrap();
    assert_eq!(add_entity(&mut st, acct(4), acct(5), "E"), Ok(()));
    assert_eq!(add_delegate(&mut st, acct(4), acct(6), "no"), Err(Error::GenericError));
}

#[test]
fn roster_is_gated_and_ordered() {
    let mut st = ContractStorage::new();
    let root = acct(1);
    st.set_geode_legal_root(root, root, bytes("Root"), bytes("o"), bytes("p"), bytes("e"))
        .unwrap();
    add_delegate(&mut st, root, acct(2), "DelegateTwo").unwrap();
    add_delegate(&mut st, root, acct(3), "DelegateThree").unwrap();
    add_entity(&mut st, acct(2), acct(4), "EntityFour").unwrap();

    let roster = st.view_allowed_delegates_and_entities(acct(2));
    assert_eq!(roster.delegates.len(), 3);
    assert_eq!(roster.delegates[0].user_acct.bytes, root.bytes);
    assert_eq!(roster.delegates[0].name, bytes("Root"));
    assert_eq!(roster.delegates[1].user_acct.bytes, acct(2).bytes);
    assert_eq!(roster.delegates[1].name, bytes("DelegateTwo"));
    assert_eq!(roster.delegates[2].user_acct.bytes, acct(3).bytes);
    assert_eq!(roster.entities.len(), 1);
    assert_eq!(roster.entities[0].user_acct.bytes, acct(4).bytes);
    assert_eq!(roster.entities[0].name, bytes("EntityFour"));

    // Neither an entity nor an outsider sees the roster.
    let for_entity = st.view_allowed_delegates_and_entities(acct(4));
    assert_eq!(for_entity.delegates.len(), 0);
    assert_eq!(for_entity.entities.len(), 0);
    let for_outsider = st.view_allowed_delegates_and_entities(acct(9));
    assert_eq!(for_outsider.delegates.len(), 0);
    assert_eq!(for_outsider.entities.len(), 0);
}

#[test]
fn re_adding_a_delegate_updates_profile_only() {
    let mut st = ContractStorage::new();
    let root = acct(1);
    st.set_geode_legal_root(root, root, bytes("R"), bytes("o"), bytes("p"), bytes("e"))
        .unwrap();
    add_delegate(&mut st, root, acct(2), "old name").unwrap();
    add_delegate(&mut st, root, acct(2), "new name").unwrap();
    let roster = st.view_allowed_delegates_and_entities(root);
    assert_eq!(roster.delegates.len(), 2);
    assert_eq!(roster.delegates[1].user_acct.bytes, acct(2).bytes);
    assert_eq!(roster.delegates[1].name, bytes("new name"));
}

#[test]
fn re_adding_an_entity_updates_profile_only() {
    let mut st = ContractStorage::new();
    let root = acct(1);
    st.set_geode_legal_root(root, root, bytes("R"), bytes("o"), bytes("p"), bytes("e"))
        .unwrap();
    add_entity(&mut st, root, acct(2), "old name").unwrap();
    add_entity(&mut st, root, acct(2), "new name").unwrap();
    let roster = st.view_allowed_delegates_and_entities(root);
    assert_eq!(roster.entities.len(), 1);
    assert_eq!(roster.entities[0].name, bytes("new name"));
}

#[test]
fn removing_roles() {
    let mut st = ContractStorage::new();
    let root = acct(1);
    st.set_geode_legal_root(root, root, bytes("R"), bytes("o"), bytes("p"), bytes("e"))
        .unwrap();
    add_delegate(&mut st, root, acct(2), "D").unwrap();
    add_entity(&mut st, root, acct(3), "E").unwrap();

    // Removing an absent account is a quiet no-op.
    assert_eq!(st.remove_geode_legal_delegate(root, acct(9)), Ok(()));
    assert_eq!(st.remove_law_enforcement_access(root, acct(9)), Ok(()));

    assert!(st.is_delegate(&acct(2)));
    assert!(st.is_entity(&acct(3)));
    assert!(!st.is_entity(&acct(2)));
    assert_eq!(st.remove_geode_legal_delegate(root, acct(2)), Ok(()));
    assert!(!st.is_delegate(&acct(2)));
    let roster = st.view_allowed_delegates_and_entities(root);
    assert_eq!(roster.delegates.len(), 1);
    assert_eq!(roster.delegates[0].user_acct.bytes, root.bytes);

    // The dismissed delegate lost its access.
    assert_eq!(add_entity(&mut st, acct(2), acct(8), "no"), Err(Error::GenericError));
    assert_eq!(st.view_all_reports(acct(2)).len(), 0);

    assert_eq!(st.remove_law_enforcement_access(root, acct(3)), Ok(()));
    let roster = st.view_allowed_delegates_and_entities(root);
    assert_eq!(roster.entities.len(), 0);
}

#[test]
fn root_keeps_its_delegate_seat() {
    let mut st = ContractStorage::new();
    let root = acct(1);
    st.set_geode_legal_root(root, root, bytes("R"), bytes("o"), bytes("p"), bytes("e"))
        .unwrap();
    assert_eq!(st.remove_geode_legal_delegate(root, root), Ok(()));
    let roster = st.view_allowed_delegates_and_entities(root);
    assert_eq!(roster.delegates.len(), 1);
    assert_eq!(roster.delegates[0].user_acct.bytes, root.bytes);
}

#[test]
fn shared_directory_entry_survives_losing_one_role() {
    let mut st = ContractStorage::new();
    let root = acct(1);
    let both = acct(2);
    st.set_geode_legal_root(root, root, bytes("R"), bytes("o"), bytes("p"), bytes("e"))
        .unwrap();
    add_delegate(&mut st, root, both, "both roles").unwrap();
    add_entity(&mut st, root, both, "both roles").unwrap();

    assert_eq!(st.remove_geode_legal_delegate(root, both), Ok(()));
    let roster = st.view_allowed_delegates_and_entities(root);
    assert_eq!(roster.delegates.len(), 1);
    assert_eq!(roster.entities.len(), 1);
    assert_eq!(roster.entities[0].user_acct.bytes, both.bytes);
    assert_eq!(roster.entities[0].name, bytes("both roles"));
}

#[test]
fn well_formedness_check() {
    let mut st = ContractStorage::new();
    assert!(st.is_well_formed());
    let root = acct(1);
    st.set_geode_legal_root(root, root, bytes("R"), bytes("o"), bytes("p"), bytes("e"))
        .unwrap();
    assert!(st.is_well_formed());

    // A hand-built state that lists a delegate twice is refused.
    let bad = ContractStorage {
        account_timer: Vec::new(),
        reports: Vec::new(),
        geode_legal: None,
        delegates: vec![acct(2), acct(2)],
        entities: Vec::new(),
        directory: vec![UserDetails {
            user_acct: acct(2),
            name: bytes("n"),
            organization: bytes("o"),
            phone: bytes("p"),
            email: bytes("e"),
        }],
    };
    assert!(!bad.is_well_formed());

    // One whose delegate lacks a directory entry is refused too.
    let uncovered = ContractStorage {
        account_timer: Vec::new(),
        reports: Vec::new(),
        geode_legal: None,
        delegates: vec![acct(3)],
        entities: Vec::new(),
        directory: Vec::new(),
    };
    assert!(!uncovered.is_well_formed());
}
