use certcycle::cert::CertificateRecord;
use certcycle::store::Store;
use certcycle::store::StoreError;

fn record(key_id: u64, expires_at: u64) -> CertificateRecord {
    CertificateRecord { key_id, chain: vec![1, 2], issued_at: 0, expires_at, authority_id: 9 }
}

fn domains() -> Vec<String> {
    vec![String::from("example.test")]
}

#[test]
fn interrupted_write_keeps_prior_record() {
    let mut store = Store::new();
    let saved = store.save(9, domains(), record(1, 1_000));
    assert!(saved.is_ok());

    // A second write begins but the process stops before the commit.
    store.stage(9, domains(), record(2, 2_000));
    store.interrupt();

    let loaded = store.load(9, &domains()).unwrap().expect("prior record intact");
    assert_eq!(loaded.key_id, 1);
    assert_eq!(loaded.expires_at, 1_000);
    assert_eq!(loaded.chain, vec![1, 2]);
}

#[test]
fn committed_write_replaces_record() {
    let mut store = Store::new();
    store.save(9, domains(), record(1, 1_000)).unwrap();
    store.stage(9, domains(), record(2, 2_000));
    store.commit();

    let loaded = store.load(9, &domains()).unwrap().expect("new record");
    assert_eq!(loaded.key_id, 2);
    assert_eq!(loaded.expires_at, 2_000);
}

#[test]
fn failed_save_keeps_prior_record() {
    let mut store = Store::new();
    store.save(9, domains(), record(1, 1_000)).unwrap();

    store.write_fault = true;
    let res = store.save(9, domains(), record(2, 2_000));
    assert_eq!(res, Err(StoreError::Unavailable));

    store.write_fault = false;
    let loaded = store.load(9, &domains()).unwrap().expect("prior record intact");
    assert_eq!(loaded.key_id, 1);
}

#[test]
fn read_fault_is_not_absence() {
    let mut store = Store::new();
    store.save(9, domains(), record(1, 1_000)).unwrap();
    store.read_fault = true;
    // An outage is surfaced as an error, never as "absent".
    assert_eq!(store.load(9, &domains()).unwrap_err(), StoreError::Unavailable);
    assert!(store.load_account().is_err());
}

#[test]
fn records_are_keyed_by_authority_and_domains() {
    let mut store = Store::new();
    store.save(9, domains(), record(1, 1_000)).unwrap();
    store.save(10, domains(), record(2, 2_000)).unwrap();
    store.save(9, vec![String::from("other.test")], record(3, 3_000)).unwrap();

    assert_eq!(store.load(9, &domains()).unwrap().unwrap().key_id, 1);
    assert_eq!(store.load(10, &domains()).unwrap().unwrap().key_id, 2);
    assert_eq!(store.load(9, &vec![String::from("other.test")]).unwrap().unwrap().key_id, 3);
    assert!(store.load(11, &domains()).unwrap().is_none());
}
