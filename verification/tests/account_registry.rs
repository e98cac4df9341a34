use certcycle::authority::AuthorityModel;

#[test]
fn registration_is_idempotent() {
    let mut authority = AuthorityModel::new(7, 1_000, 0);
    let contacts = vec![String::from("mailto:admin@example.test")];

    let first = authority.register_or_fetch(42, &contacts);
    let second = authority.register_or_fetch(42, &contacts);

    // The same key yields the same account identifier both times.
    assert_eq!(first.account_id, second.account_id);
    assert_eq!(first.key_id, 42);
    assert_eq!(authority.register_calls, 2);
    assert_eq!(authority.accounts.len(), 1);
}

#[test]
fn distinct_keys_get_distinct_accounts() {
    let mut authority = AuthorityModel::new(7, 1_000, 0);
    let contacts = vec![String::from("mailto:admin@example.test")];

    let a = authority.register_or_fetch(1, &contacts);
    let b = authority.register_or_fetch(2, &contacts);
    assert_ne!(a.account_id, b.account_id);
}
