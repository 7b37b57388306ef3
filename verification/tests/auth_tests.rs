use base64::Engine;
use sha2::Digest;

use hookrelay::models::CreateHookConfig;
use hookrelay::routes::api::{delete_hook, get_hooks, http_status, is_authorized, post_hook,
    ApiError};
use hookrelay::store::HookRegistry;

fn digest_of(password: &str) -> String {
    hex::encode(sha2::Sha256::digest(password.as_bytes()))
}

fn users() -> Vec<(String, String)> {
    vec![("admin".to_string(), digest_of("secret"))]
}

fn basic_header(user: &str, password: &str) -> String {
    let cred = base64::engine::general_purpose::STANDARD
        .encode(format!("{}:{}", user, password));
    format!("Basic {}", cred)
}

#[test]
fn correct_credentials_authorize() {
    let h = basic_header("admin", "secret");
    assert!(is_authorized(Some(&h), &users()));
}

#[test]
fn wrong_password_is_rejected() {
    let h = basic_header("admin", "wrong");
    assert!(!is_authorized(Some(&h), &users()));
}

#[test]
fn unknown_user_is_rejected() {
    let h = basic_header("eve", "secret");
    assert!(!is_authorized(Some(&h), &users()));
}

#[test]
fn missing_or_malformed_headers_are_rejected() {
    let u = users();
    assert!(!is_authorized(None, &u));
    assert!(!is_authorized(Some(&"".to_string()), &u));
    assert!(!is_authorized(Some(&"Basic".to_string()), &u));
    assert!(!is_authorized(Some(&"Bearer abc".to_string()), &u));
    assert!(!is_authorized(Some(&"Basic !!!notbase64!!!".to_string()), &u));
    // decodes, but has no colon
    let no_colon = format!(
        "Basic {}",
        base64::engine::general_purpose::STANDARD.encode("adminsecret")
    );
    assert!(!is_authorized(Some(&no_colon), &u));
    // two colons make three parts, not a user and a password
    let h = basic_header("admin", "se:cret");
    assert!(!is_authorized(Some(&h), &u));
    // a second space splits too far
    let h2 = basic_header("admin", "secret") + " extra";
    assert!(!is_authorized(Some(&h2), &u));
}

#[test]
fn management_calls_require_authorization() {
    let mut reg = HookRegistry::new();
    let u = users();
    let bad = basic_header("admin", "wrong");
    assert_eq!(
        get_hooks(Some(&bad), &u, &reg).unwrap_err(),
        ApiError::Unauthorized
    );
    let create = CreateHookConfig {
        description: "d".to_string(),
        gitlab_token: "t".to_string(),
        discord_url: "https://example.invalid".to_string(),
    };
    assert_eq!(
        post_hook(Some(&bad), &u, &mut reg, create).unwrap_err(),
        ApiError::Unauthorized
    );
    assert_eq!(reg.all().len(), 0);
}

#[test]
fn management_flow_register_list_delete() {
    let mut reg = HookRegistry::new();
    let u = users();
    let good = basic_header("admin", "secret");
    let create = CreateHookConfig {
        description: "my hook".to_string(),
        gitlab_token: "tok".to_string(),
        discord_url: "https://example.invalid/wh".to_string(),
    };
    let stored = post_hook(Some(&good), &u, &mut reg, create).unwrap();
    assert_eq!(stored.description, "my hook");
    assert_eq!(stored.id.as_str().len(), 36);

    let listed = get_hooks(Some(&good), &u, &reg).unwrap();
    assert_eq!(listed.len(), 1);
    assert_eq!(listed[0], stored);

    delete_hook(Some(&good), &u, &mut reg, stored.id.as_str()).unwrap();
    assert_eq!(get_hooks(Some(&good), &u, &reg).unwrap().len(), 0);
}

#[test]
fn delete_hook_reports_each_failure() {
    let mut reg = HookRegistry::new();
    let u = users();
    let good = basic_header("admin", "secret");
    assert_eq!(
        delete_hook(Some(&good), &u, &mut reg, "junk").unwrap_err(),
        ApiError::InvalidId
    );
    assert_eq!(
        delete_hook(Some(&good), &u, &mut reg, "550e8400-e29b-41d4-a716-446655440000")
            .unwrap_err(),
        ApiError::NotFound
    );
    assert_eq!(
        delete_hook(None, &u, &mut reg, "junk").unwrap_err(),
        ApiError::Unauthorized
    );
}

#[test]
fn error_statuses_follow_the_taxonomy() {
    assert_eq!(http_status(&ApiError::Unauthorized), 401);
    assert_eq!(http_status(&ApiError::InvalidId), 400);
    assert_eq!(http_status(&ApiError::NotFound), 404);
}
