//! The report ledger: cooldown, identifiers, capacity and size limits.

use geode_reporting::account::AccountId;
use geode_reporting::storage::ContractStorage;
use geode_reporting::types::{Error, MAX_FIELD_BYTES, MAX_REPORTS};

fn acct(n: u32) -> AccountId {
    let mut b = [0u8; 32];
    b[0] = n as u8;
    b[1] = (n >> 8) as u8;
    b[2] = (n >> 16) as u8;
    b[3] = (n >> 24) as u8;
    AccountId::from_bytes(b)
}

fn bytes(s: &str) -> Vec<u8> {
    s.as_bytes().to_vec()
}

fn submit(st: &mut ContractStorage, who: AccountId, t: u64, accused: AccountId) -> Result<[u8; 32], Error> {
    st.make_a_report(
        who,
        t,
        bytes("name"),
        bytes("phone"),
        accused,
        bytes("app"),
        bytes("activity-1"),
        bytes("category"),
        bytes("description"),
        bytes("location"),
    )
    .map(|e| e.report_id)
}

#[test]
fn first_report_at_time_zero_succeeds() {
    let mut st = ContractStorage::new();
    assert!(submit(&mut st, acct(1), 0, acct(2)).is_ok());
}

#[test]
fn cooldown_boundary() {
    let mut st = ContractStorage::new();
    let s = acct(1);
    assert!(submit(&mut st, s, 0, acct(2)).is_ok());
    assert_eq!(
        submit(&mut st, s, 86399999, acct(2)),
        Err(Error::CannotReportAgainWithin24Hours)
    );
    assert!(submit(&mut st, s, 86400000, acct(2)).is_ok());
}

#[test]
fn rejected_report_changes_nothing() {
    let mut st = ContractStorage::new();
    let root = acct(1);
    let s = acct(2);
    st.set_geode_legal_root(root, root, bytes("R"), bytes("o"), bytes("p"), bytes("e"))
        .unwrap();
    let h0 = submit(&mut st, s, 100, acct(3)).unwrap();
    assert_eq!(
        submit(&mut st, s, 200, acct(3)),
        Err(Error::CannotReportAgainWithin24Hours)
    );
    let seen = st.view_all_reports(root);
    assert_eq!(seen.len(), 1);
    assert_eq!(seen[0].report_id, h0);
    // The refused call did not restart the cooldown either: a report a
    // full cooldown after the first accepted one goes through.
    assert!(submit(&mut st, s, 100 + 86400000, acct(3)).is_ok());
}

#[test]
fn backwards_timestamp_is_still_cooling() {
    // The environment's logical clock never decreases; a timestamp at
    // or before the last accepted one is within the cooldown window.
    let mut st = ContractStorage::new();
    let s = acct(1);
    assert!(submit(&mut st, s, 100, acct(2)).is_ok());
    assert_eq!(submit(&mut st, s, 100, acct(2)), Err(Error::CannotReportAgainWithin24Hours));
    assert_eq!(submit(&mut st, s, 50, acct(2)), Err(Error::CannotReportAgainWithin24Hours));
}

#[test]
fn report_id_is_deterministic() {
    let mut a = ContractStorage::new();
    let mut b = ContractStorage::new();
    let ha = submit(&mut a, acct(1), 42, acct(2)).unwrap();
    let hb = submit(&mut b, acct(1), 42, acct(2)).unwrap();
    assert_eq!(ha, hb);
}

#[test]
fn report_id_ignores_fields_outside_the_digest() {
    let mut a = ContractStorage::new();
    let mut b = ContractStorage::new();
    let ha = a
        .make_a_report(
            acct(1),
            42,
            bytes("one name"),
            bytes("one phone"),
            acct(2),
            bytes("one app"),
            bytes("same activity"),
            bytes("one category"),
            bytes("one description"),
            bytes("one location"),
        )
        .unwrap()
        .report_id;
    let hb = b
        .make_a_report(
            acct(1),
            42,
            bytes("another name"),
            bytes("another phone"),
            acct(2),
            bytes("another app"),
            bytes("same activity"),
            bytes("another category"),
            bytes("another description"),
            bytes("another location"),
        )
        .unwrap()
        .report_id;
    assert_eq!(ha, hb);
}

#[test]
fn report_id_matches_the_documented_digest() {
    // SHA-256 of the SCALE encoding of (submitter, accused, activity
    // ids, timestamp): 32 raw bytes per account, a compact length
    // prefix before the activity bytes, the timestamp little-endian.
    let mut st = ContractStorage::new();
    let h = submit(&mut st, acct(1), 42, acct(2)).unwrap();
    let expected: [u8; 32] = [
        172, 158, 3, 4, 13, 122, 238, 125, 90, 48, 176, 226, 228, 85, 123, 43, 175, 171, 196, 95,
        199, 164, 12, 25, 129, 178, 53, 79, 197, 223, 162, 209,
    ];
    assert_eq!(h, expected);
}

#[test]
fn report_id_is_not_an_input_echo() {
    let mut st = ContractStorage::new();
    let s = acct(0);
    let h = submit(&mut st, s, 0, acct(7)).unwrap();
    assert_ne!(h, s.bytes);
    assert_ne!(h, acct(7).bytes);
    assert_ne!(h, [0u8; 32]);
}

#[test]
fn ledger_capacity_evicts_oldest() {
    let mut st = ContractStorage::new();
    let root = acct(1000000);
    st.set_geode_legal_root(root, root, bytes("R"), bytes("o"), bytes("p"), bytes("e"))
        .unwrap();
    let accused = acct(2000000);
    let mut ids: Vec<[u8; 32]> = Vec::new();
    for n in 0..(MAX_REPORTS as u32 + 1) {
        ids.push(submit(&mut st, acct(n + 1), 0, accused).unwrap());
    }
    let seen = st.view_all_reports(root);
    assert_eq!(seen.len(), MAX_REPORTS);
    // The first submission fell out; the rest kept their order.
    assert_eq!(seen[0].report_id, ids[1]);
    assert_eq!(seen[0].reporter_account.bytes, acct(2).bytes);
    assert_eq!(seen[MAX_REPORTS - 1].report_id, ids[MAX_REPORTS]);
    assert_eq!(
        seen[MAX_REPORTS - 1].reporter_account.bytes,
        acct(MAX_REPORTS as u32 + 1).bytes
    );
}

#[test]
fn oversized_field_is_refused_without_a_trace() {
    let mut st = ContractStorage::new();
    let root = acct(1);
    st.set_geode_legal_root(root, root, bytes("R"), bytes("o"), bytes("p"), bytes("e"))
        .unwrap();
    let r = st.make_a_report(
        acct(2),
        0,
        vec![0u8; MAX_FIELD_BYTES + 1],
        bytes("phone"),
        acct(3),
        bytes("app"),
        bytes("activity"),
        bytes("category"),
        bytes("description"),
        bytes("location"),
    );
    assert_eq!(r.map(|e| e.report_id), Err(Error::DataTooLarge));
    assert_eq!(st.view_all_reports(root).len(), 0);
    // The refusal did not start a cooldown: the same submitter may file
    // a well-sized report at once.
    assert!(submit(&mut st, acct(2), 0, acct(3)).is_ok());
}

#[test]
fn field_at_the_size_bound_is_accepted() {
    let mut st = ContractStorage::new();
    let r = st.make_a_report(
        acct(2),
        0,
        vec![0u8; MAX_FIELD_BYTES],
        bytes("phone"),
        acct(3),
        bytes("app"),
        bytes("activity"),
        bytes("category"),
        bytes("description"),
        bytes("location"),
    );
    assert!(r.is_ok());
}

#[test]
fn oversized_profile_is_refused() {
    let mut st = ContractStorage::new();
    let root = acct(1);
    assert_eq!(
        st.set_geode_legal_root(root, root, vec![0u8; MAX_FIELD_BYTES + 1], bytes("o"), bytes("p"), bytes("e")),
        Err(Error::DataTooLarge)
    );
    // The refused bootstrap left no root behind: a later bootstrap by
    // another account still succeeds.
    let other = acct(2);
    assert_eq!(
        st.set_geode_legal_root(other, other, bytes("R"), bytes("o"), bytes("p"), bytes("e")),
        Ok(())
    );
}
