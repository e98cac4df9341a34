use certcycle::handler::PathOutcome;
use certcycle::handler::request_path;
use certcycle::handler::response_status;
use certcycle::handler::type_label;
use certcycle::responder::Responder;
use certcycle::protocol::KeyAuth;

#[test]
fn status_codes_match_outcomes() {
    assert_eq!(response_status(PathOutcome::Exists { is_dir: false }), 200);
    assert_eq!(response_status(PathOutcome::Exists { is_dir: true }), 200);
    assert_eq!(response_status(PathOutcome::Missing), 404);
    assert_eq!(response_status(PathOutcome::AccessError), 403);
}

#[test]
fn labels_match_kind() {
    assert_eq!(type_label(true), "directory");
    assert_eq!(type_label(false), "file");
}

#[test]
fn request_paths_are_relative() {
    assert_eq!(request_path("foo/bar"), String::from("./foo/bar"));
    assert_eq!(request_path(""), String::from("./"));
}

#[test]
fn proof_route_serves_only_exposed_tokens() {
    let mut responder = Responder::new();
    assert!(responder.lookup(5).is_none());

    responder.expose(5, KeyAuth { token: 5, account_key: 77 });
    let served = responder.lookup(5).expect("exposed");
    assert_eq!(served.token, 5);
    assert_eq!(served.account_key, 77);
    assert!(responder.lookup(6).is_none());

    responder.withdraw(5);
    // Withdrawn: the proof route behaves as if it does not exist.
    assert!(responder.lookup(5).is_none());
    assert_eq!(responder.expose_count, 1);
    assert_eq!(responder.withdraw_count, 1);
}
