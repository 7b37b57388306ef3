use hookrelay::routes::hooks::{deciding_attempt, delivery_step, parse_delay_millis, post_gitlab,
    valid_token, AttemptOutcome, DeliveryAction, IngressDecision};
use hookrelay::store::{HookConfig, HookId, HookRegistry};

const ID_A: &str = "550e8400-e29b-41d4-a716-446655440000";

fn registry_with_hook() -> HookRegistry {
    let mut reg = HookRegistry::new();
    reg.insert(HookConfig {
        id: HookId::try_from(ID_A).unwrap(),
        description: "d".to_string(),
        gitlab_token: "tok".to_string(),
        discord_url: "https://example.invalid/wh".to_string(),
        created_at: "2021-01-01T00:00:00+00:00".to_string(),
    });
    reg
}

fn response(status: u16, reset: Option<&str>) -> AttemptOutcome {
    AttemptOutcome::Response {
        status,
        ratelimit_reset: reset.map(|s| s.to_string()),
    }
}

#[test]
fn delay_header_parses_to_milliseconds() {
    assert_eq!(parse_delay_millis("2"), Some(2000));
    assert_eq!(parse_delay_millis("0"), Some(0));
    assert_eq!(parse_delay_millis("2.5"), Some(2500));
    assert_eq!(parse_delay_millis("0.75"), Some(750));
    assert_eq!(parse_delay_millis("1.2345"), Some(1234));
    assert_eq!(parse_delay_millis("2."), Some(2000));
    assert_eq!(parse_delay_millis("10.001"), Some(10001));
}

#[test]
fn bad_delay_headers_are_rejected() {
    assert_eq!(parse_delay_millis(""), None);
    assert_eq!(parse_delay_millis("a"), None);
    assert_eq!(parse_delay_millis(".5"), None);
    assert_eq!(parse_delay_millis("1.2.3"), None);
    assert_eq!(parse_delay_millis("-1"), None);
    assert_eq!(parse_delay_millis("2 "), None);
    assert_eq!(parse_delay_millis("2.x"), None);
    assert_eq!(parse_delay_millis("99999999999999999999"), None);
}

#[test]
fn only_a_readable_rate_limit_is_retried() {
    assert_eq!(
        delivery_step(&response(429, Some("2"))),
        DeliveryAction::Retry(2000)
    );
    assert_eq!(delivery_step(&response(429, None)), DeliveryAction::Stop);
    assert_eq!(
        delivery_step(&response(429, Some("soon"))),
        DeliveryAction::Stop
    );
    assert_eq!(delivery_step(&response(200, None)), DeliveryAction::Stop);
    assert_eq!(delivery_step(&response(404, None)), DeliveryAction::Stop);
    assert_eq!(delivery_step(&response(500, None)), DeliveryAction::Stop);
    assert_eq!(
        delivery_step(&AttemptOutcome::NetworkError),
        DeliveryAction::Stop
    );
}

#[test]
fn rate_limited_delivery_is_decided_by_the_second_attempt() {
    let attempts = vec![response(429, Some("2")), response(200, None)];
    assert_eq!(deciding_attempt(&attempts), Some(1));

    let attempts = vec![
        response(429, Some("2")),
        response(429, Some("1")),
        response(204, None),
    ];
    assert_eq!(deciding_attempt(&attempts), Some(2));

    let attempts = vec![response(500, None), response(200, None)];
    assert_eq!(deciding_attempt(&attempts), Some(0));

    let attempts = vec![response(429, Some("2"))];
    assert_eq!(deciding_attempt(&attempts), None);
}

#[test]
fn ingestion_checks_the_secret_first() {
    let reg = registry_with_hook();
    let tok = "tok".to_string();
    let wrong = "nope".to_string();
    let event = "Push Hook".to_string();

    assert!(valid_token(&reg, ID_A, Some(&tok)));
    assert!(!valid_token(&reg, ID_A, Some(&wrong)));
    assert!(!valid_token(&reg, ID_A, None));
    assert!(!valid_token(&reg, "junk", Some(&tok)));

    assert_eq!(
        post_gitlab(&reg, ID_A, Some(&tok), Some(&event)),
        IngressDecision::Accepted
    );
    assert_eq!(
        post_gitlab(&reg, ID_A, Some(&wrong), Some(&event)),
        IngressDecision::Forbidden
    );
    assert_eq!(
        post_gitlab(&reg, ID_A, Some(&tok), None),
        IngressDecision::BadRequest
    );
    assert_eq!(
        post_gitlab(&reg, "junk", Some(&tok), Some(&event)),
        IngressDecision::Forbidden
    );
}
