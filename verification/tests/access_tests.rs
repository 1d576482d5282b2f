use hourly_brief::api::{
    action, allowed_origin, gate, message_of, response_headers, status_of, token_accepted, Action,
    Gate, Refusal,
};
use hourly_brief::semaphore::{concurrency_limit, Semaphore};

#[test]
fn gate_decisions() {
    assert_eq!(gate("OPTIONS", ""), Gate::Preflight);
    assert_eq!(gate("GET", ""), Gate::Unauthorized);
    assert_eq!(gate("PUT", "secret"), Gate::Verify);
    assert!(token_accepted("secret", "secret"));
    assert!(!token_accepted("secret", "Secret"));
}

#[test]
fn actions() {
    assert_eq!(action("GET"), Action::Show);
    assert_eq!(action("PUT"), Action::Save);
    assert_eq!(action("DELETE"), Action::NotAllowed);
    assert_eq!(action("get"), Action::NotAllowed);
}

#[test]
fn refusals() {
    assert_eq!(status_of(&Refusal::InvalidToken), 401);
    assert_eq!(message_of(&Refusal::InvalidToken), "invalid token");
    assert_eq!(status_of(&Refusal::InvalidJson), 400);
    assert_eq!(message_of(&Refusal::InvalidJson), "invalid JSON body");
    assert_eq!(status_of(&Refusal::InvalidConfig("unknown pair: x".to_string())), 400);
    assert_eq!(message_of(&Refusal::InvalidConfig("unknown pair: x".to_string())), "unknown pair: x");
    assert_eq!(status_of(&Refusal::MethodNotAllowed), 405);
    assert_eq!(message_of(&Refusal::MethodNotAllowed), "method not allowed");
}

#[test]
fn semaphore_admits_its_capacity() {
    let mut s = Semaphore::new(2);
    assert!(s.has_free());
    assert!(!s.has_holders());
    assert!(s.acquire());
    assert!(s.acquire());
    assert!(!s.acquire());
    assert!(!s.has_free());
    assert!(s.has_holders());
    s.release();
    assert!(s.acquire());
    s.release();
    s.release();
    assert!(!s.has_holders());
}

#[test]
fn concurrency_settings() {
    assert_eq!(concurrency_limit(None), 16);
    assert_eq!(concurrency_limit(Some("4")), 4);
    assert_eq!(concurrency_limit(Some("0")), 16);
    assert_eq!(concurrency_limit(Some("four")), 16);
    assert_eq!(concurrency_limit(Some("+8")), 8);
}

#[test]
fn answer_headers() {
    assert_eq!(allowed_origin(None), "*");
    assert_eq!(allowed_origin(Some("https://example.org".to_string())), "https://example.org");
    let h = response_headers("*");
    let expected = vec![
        ("Content-Type", "application/json; charset=utf-8"),
        ("Access-Control-Allow-Origin", "*"),
        ("Access-Control-Allow-Methods", "GET, PUT, OPTIONS"),
        ("Access-Control-Allow-Headers", "Content-Type, X-Auth-Token"),
    ];
    let got: Vec<(&str, &str)> = h.iter().map(|(a, b)| (a.as_str(), b.as_str())).collect();
    assert_eq!(got, expected);
}
