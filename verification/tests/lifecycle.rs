use certcycle::authority::AuthorityModel;
use certcycle::orchestrator::LifecycleState;
use certcycle::orchestrator::OrchConfig;
use certcycle::orchestrator::Orchestrator;
use certcycle::protocol::Account;
use certcycle::protocol::ChallengeKind;
use certcycle::protocol::FailureClass;
use certcycle::protocol::LifecycleEvent;
use certcycle::resolver::Resolver;
use certcycle::responder::Responder;
use certcycle::store::Store;

const DAY: u64 = 86_400;
const LIFETIME: u64 = 90 * DAY;
const THRESHOLD: u64 = 30 * DAY;
const BACKOFF: u64 = 3_600;
const DIRECTORY: u64 = 7;

fn config() -> OrchConfig {
    OrchConfig {
        domains: vec![String::from("example.test")],
        contacts: vec![String::from("mailto:admin@example.test")],
        account_key: 11,
        renewal_threshold: THRESHOLD,
        poll_base: 1,
        poll_cap: 8,
        poll_budget: 60,
        retry_backoff: BACKOFF,
        preferred_challenge: ChallengeKind::HttpToken,
    }
}

#[test]
fn fresh_store_full_cycle() {
    let mut authority = AuthorityModel::new(DIRECTORY, LIFETIME, 2);
    let mut store = Store::new();
    let mut responder = Responder::new();
    let mut resolver = Resolver::new();
    let mut orch = Orchestrator::new(config());

    let started = orch.periodic_check(&store, DIRECTORY, 1_000);
    assert!(started);
    let ev = orch.run_cycle(&mut authority, &mut store, &mut responder, &mut resolver, 1_000);

    assert_eq!(ev, LifecycleEvent::Success { expires_at: 1_000 + LIFETIME });
    assert_eq!(authority.register_calls, 1);
    assert_eq!(authority.orders_created, 1);
    assert_eq!(responder.expose_count, 1);
    assert_eq!(responder.withdraw_count, 1);
    assert_eq!(responder.exposures.len(), 0);
    assert_eq!(resolver.publish_count, 1);
    assert_eq!(orch.state, LifecycleState::Idle);

    let current = resolver.current(&String::from("example.test")).expect("published");
    assert_eq!(current.expires_at, 1_000 + LIFETIME);
    assert_eq!(current.issued_at, 1_000);
    assert_eq!(current.authority_id, DIRECTORY);
    assert!(current.chain.len() >= 1);
}

#[test]
fn renewal_raises_expiry() {
    let mut authority = AuthorityModel::new(DIRECTORY, LIFETIME, 2);
    let mut store = Store::new();
    let mut responder = Responder::new();
    let mut resolver = Resolver::new();
    let mut orch = Orchestrator::new(config());

    assert!(orch.periodic_check(&store, DIRECTORY, 1_000));
    let ev = orch.run_cycle(&mut authority, &mut store, &mut responder, &mut resolver, 1_000);
    assert!(matches!(ev, LifecycleEvent::Success { .. }));
    let first_expiry = resolver.current(&String::from("example.test")).unwrap().expires_at;

    // Two days of validity left: the periodic check triggers a renewal.
    let later = first_expiry - 2 * DAY;
    assert!(orch.periodic_check(&store, DIRECTORY, later));
    let ev2 = orch.run_cycle(&mut authority, &mut store, &mut responder, &mut resolver, later);
    assert!(matches!(ev2, LifecycleEvent::Success { .. }));

    let second_expiry = resolver.current(&String::from("example.test")).unwrap().expires_at;
    assert!(second_expiry > first_expiry);
}

#[test]
fn second_trigger_is_noop() {
    let mut authority = AuthorityModel::new(DIRECTORY, LIFETIME, 2);
    let mut store = Store::new();
    let mut responder = Responder::new();
    let mut resolver = Resolver::new();
    let mut orch = Orchestrator::new(config());

    assert!(orch.periodic_check(&store, DIRECTORY, 1_000));
    // Triggering again in quick succession while a cycle is in flight
    // changes nothing.
    assert!(!orch.periodic_check(&store, DIRECTORY, 1_001));
    assert_eq!(orch.state, LifecycleState::Issuing);

    let ev = orch.run_cycle(&mut authority, &mut store, &mut responder, &mut resolver, 1_002);
    assert!(matches!(ev, LifecycleEvent::Success { .. }));
    // Exactly one order sequence ran.
    assert_eq!(authority.orders_created, 1);
}

#[test]
fn poll_timeout_leaves_no_trace() {
    // The authority never answers "ready" within the poll budget.
    let mut authority = AuthorityModel::new(DIRECTORY, LIFETIME, 1_000_000);
    let mut store = Store::new();
    // The account is already on file, so a failed cycle writes nothing.
    store.save_account(Account {
        key_id: 11,
        account_id: 1,
        contacts: vec![String::from("mailto:admin@example.test")],
    });
    let mut responder = Responder::new();
    let mut resolver = Resolver::new();
    let mut orch = Orchestrator::new(config());

    assert!(orch.periodic_check(&store, DIRECTORY, 1_000));
    let ev = orch.run_cycle(&mut authority, &mut store, &mut responder, &mut resolver, 1_000);

    assert_eq!(
        ev,
        LifecycleEvent::Failure { class: FailureClass::Transient, retry_at: 1_000 + BACKOFF }
    );
    assert_eq!(resolver.publish_count, 0);
    assert!(resolver.current(&String::from("example.test")).is_none());
    assert_eq!(store.committed.len(), 0);
    assert_eq!(responder.exposures.len(), 0);
    assert_eq!(orch.state, LifecycleState::Failed { retry_at: 1_000 + BACKOFF });

    // The retry is honoured only once the backoff elapsed.
    assert!(!orch.periodic_check(&store, DIRECTORY, 1_000 + BACKOFF - 1));
    assert!(orch.periodic_check(&store, DIRECTORY, 1_000 + BACKOFF));
}

#[test]
fn failed_validation_aborts_cycle() {
    let mut authority = AuthorityModel::new(DIRECTORY, LIFETIME, 0);
    authority.validation_fails = true;
    let mut store = Store::new();
    let mut responder = Responder::new();
    let mut resolver = Resolver::new();
    let mut orch = Orchestrator::new(config());

    assert!(orch.periodic_check(&store, DIRECTORY, 50));
    let ev = orch.run_cycle(&mut authority, &mut store, &mut responder, &mut resolver, 50);

    assert_eq!(
        ev,
        LifecycleEvent::Failure { class: FailureClass::Validation, retry_at: 50 + BACKOFF }
    );
    // The proof was withdrawn even though validation failed.
    assert_eq!(responder.expose_count, 1);
    assert_eq!(responder.withdraw_count, 1);
    assert_eq!(responder.exposures.len(), 0);
    assert_eq!(resolver.publish_count, 0);
}

#[test]
fn storage_outage_suspends_issuance() {
    let mut store = Store::new();
    store.read_fault = true;
    let mut orch = Orchestrator::new(config());

    // A store outage is not mistaken for "no certificate": no cycle starts.
    assert!(!orch.periodic_check(&store, DIRECTORY, 10));
    assert_eq!(orch.state, LifecycleState::Idle);
}

#[test]
fn storage_read_fault_fails_cycle() {
    let mut authority = AuthorityModel::new(DIRECTORY, LIFETIME, 0);
    let mut store = Store::new();
    let mut responder = Responder::new();
    let mut resolver = Resolver::new();
    let mut orch = Orchestrator::new(config());

    assert!(orch.periodic_check(&store, DIRECTORY, 10));
    store.read_fault = true;
    let ev = orch.run_cycle(&mut authority, &mut store, &mut responder, &mut resolver, 10);

    assert_eq!(ev, LifecycleEvent::Failure { class: FailureClass::Storage, retry_at: 10 + BACKOFF });
    // The authority was never bothered.
    assert_eq!(authority.register_calls, 0);
    assert_eq!(authority.orders_created, 0);
}

#[test]
fn storage_write_fault_publishes_nothing() {
    let mut authority = AuthorityModel::new(DIRECTORY, LIFETIME, 0);
    let mut store = Store::new();
    store.write_fault = true;
    let mut responder = Responder::new();
    let mut resolver = Resolver::new();
    let mut orch = Orchestrator::new(config());

    assert!(orch.periodic_check(&store, DIRECTORY, 10));
    let ev = orch.run_cycle(&mut authority, &mut store, &mut responder, &mut resolver, 10);

    assert_eq!(ev, LifecycleEvent::Failure { class: FailureClass::Storage, retry_at: 10 + BACKOFF });
    assert_eq!(resolver.publish_count, 0);
    assert_eq!(store.committed.len(), 0);
}

#[test]
fn authority_rejection_is_its_own_failure() {
    let mut authority = AuthorityModel::new(DIRECTORY, LIFETIME, 0);
    authority.rejects_orders = true;
    let mut store = Store::new();
    let mut responder = Responder::new();
    let mut resolver = Resolver::new();
    let mut orch = Orchestrator::new(config());

    assert!(orch.periodic_check(&store, DIRECTORY, 10));
    let ev = orch.run_cycle(&mut authority, &mut store, &mut responder, &mut resolver, 10);

    assert_eq!(
        ev,
        LifecycleEvent::Failure { class: FailureClass::Rejected, retry_at: 10 + BACKOFF }
    );
    // No order came into being; a retry only after the backoff window.
    assert_eq!(authority.orders_created, 0);
    assert_eq!(resolver.publish_count, 0);
    assert_eq!(orch.state, LifecycleState::Failed { retry_at: 10 + BACKOFF });
}

#[test]
fn handshake_challenge_kind_also_succeeds() {
    let mut cfg = config();
    cfg.preferred_challenge = ChallengeKind::HandshakeToken;
    let mut authority = AuthorityModel::new(DIRECTORY, LIFETIME, 1);
    let mut store = Store::new();
    let mut responder = Responder::new();
    let mut resolver = Resolver::new();
    let mut orch = Orchestrator::new(cfg);

    assert!(orch.periodic_check(&store, DIRECTORY, 100));
    let ev = orch.run_cycle(&mut authority, &mut store, &mut responder, &mut resolver, 100);
    assert!(matches!(ev, LifecycleEvent::Success { .. }));
}

#[test]
fn no_renewal_while_certificate_is_fresh() {
    let mut authority = AuthorityModel::new(DIRECTORY, LIFETIME, 0);
    let mut store = Store::new();
    let mut responder = Responder::new();
    let mut resolver = Resolver::new();
    let mut orch = Orchestrator::new(config());

    assert!(orch.periodic_check(&store, DIRECTORY, 0));
    let ev = orch.run_cycle(&mut authority, &mut store, &mut responder, &mut resolver, 0);
    assert!(matches!(ev, LifecycleEvent::Success { .. }));

    // Sixty days of validity left: the periodic check stays idle.
    let later = LIFETIME - 60 * DAY;
    assert!(!orch.periodic_check(&store, DIRECTORY, later));
    assert_eq!(orch.state, LifecycleState::Idle);
    assert_eq!(authority.orders_created, 1);
}

#[test]
fn multi_domain_cycle_publishes_each() {
    let mut cfg = config();
    cfg.domains = vec![String::from("example.test"), String::from("www.example.test")];
    let mut authority = AuthorityModel::new(DIRECTORY, LIFETIME, 1);
    let mut store = Store::new();
    let mut responder = Responder::new();
    let mut resolver = Resolver::new();
    let mut orch = Orchestrator::new(cfg);

    assert!(orch.periodic_check(&store, DIRECTORY, 500));
    let ev = orch.run_cycle(&mut authority, &mut store, &mut responder, &mut resolver, 500);
    assert!(matches!(ev, LifecycleEvent::Success { .. }));

    assert_eq!(responder.expose_count, 2);
    assert_eq!(responder.withdraw_count, 2);
    assert_eq!(resolver.publish_count, 2);
    let a = resolver.current(&String::from("example.test")).unwrap();
    let b = resolver.current(&String::from("www.example.test")).unwrap();
    assert_eq!(a.expires_at, 500 + LIFETIME);
    assert_eq!(b.expires_at, 500 + LIFETIME);
    assert_eq!(a.key_id, b.key_id);
}
