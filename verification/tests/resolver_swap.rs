use certcycle::cert::CertificateRecord;
use certcycle::resolver::Resolver;

fn record(key_id: u64, chain: Vec<u64>, expires_at: u64) -> CertificateRecord {
    CertificateRecord { key_id, chain, issued_at: 0, expires_at, authority_id: 9 }
}

#[test]
fn lookup_before_first_publish_is_absent() {
    let resolver = Resolver::new();
    // The transport must reject the handshake in this case.
    assert!(resolver.current(&String::from("example.test")).is_none());
}

#[test]
fn publish_swaps_whole_record() {
    let mut resolver = Resolver::new();
    let d = String::from("example.test");

    resolver.publish(&d, record(1, vec![10, 11], 1_000));
    let first = resolver.current(&d).unwrap();
    // The chain and the key that were published together are seen together.
    assert_eq!(first.key_id, 1);
    assert_eq!(first.chain, vec![10, 11]);

    resolver.publish(&d, record(2, vec![20, 21], 2_000));
    let second = resolver.current(&d).unwrap();
    // Never the chain of one publish with the key of another.
    assert_eq!(second.key_id, 2);
    assert_eq!(second.chain, vec![20, 21]);
    assert_eq!(second.expires_at, 2_000);
}

#[test]
fn publish_leaves_other_domains_untouched() {
    let mut resolver = Resolver::new();
    let a = String::from("a.test");
    let b = String::from("b.test");

    resolver.publish(&a, record(1, vec![10], 1_000));
    resolver.publish(&b, record(2, vec![20], 2_000));
    resolver.publish(&a, record(3, vec![30], 3_000));

    assert_eq!(resolver.current(&a).unwrap().key_id, 3);
    assert_eq!(resolver.current(&b).unwrap().key_id, 2);
    assert_eq!(resolver.publish_count, 3);
}
