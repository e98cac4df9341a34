use certcycle::cert::CertificateRecord;

const DAY: u64 = 86_400;

fn record_expiring_in(now: u64, remaining: u64) -> CertificateRecord {
    CertificateRecord {
        key_id: 1,
        chain: vec![1],
        issued_at: 0,
        expires_at: now + remaining,
        authority_id: 9,
    }
}

#[test]
fn two_days_left_triggers_renewal() {
    let now: u64 = 1_000_000;
    // 2 days remaining out of a 90-day lifetime, threshold 30 days.
    let rec = record_expiring_in(now, 2 * DAY);
    assert!(rec.needs_renewal(now, 30 * DAY));
}

#[test]
fn sixty_days_left_does_not_trigger() {
    let now: u64 = 1_000_000;
    let rec = record_expiring_in(now, 60 * DAY);
    assert!(!rec.needs_renewal(now, 30 * DAY));
}

#[test]
fn expired_record_triggers_renewal() {
    let rec = CertificateRecord {
        key_id: 1,
        chain: vec![1],
        issued_at: 0,
        expires_at: 100,
        authority_id: 9,
    };
    assert!(rec.needs_renewal(200, 30 * DAY));
}

#[test]
fn exact_threshold_boundary() {
    let now: u64 = 1_000_000;
    // Remaining exactly the threshold: not yet due.
    let rec = record_expiring_in(now, 30 * DAY);
    assert!(!rec.needs_renewal(now, 30 * DAY));
    // One second under: due.
    let rec = record_expiring_in(now, 30 * DAY - 1);
    assert!(rec.needs_renewal(now, 30 * DAY));
}
