use hookrelay::models::CreateHookConfig;
use hookrelay::store::{HookConfig, HookId, HookRegistry, StoreError};

const ID_A: &str = "550e8400-e29b-41d4-a716-446655440000";
const ID_B: &str = "67e55044-10b1-426f-9247-bb680e5fe0c8";

fn config(id: &str, description: &str) -> HookConfig {
    HookConfig {
        id: HookId::try_from(id).unwrap(),
        description: description.to_string(),
        gitlab_token: "token".to_string(),
        discord_url: "https://example.invalid/webhook".to_string(),
        created_at: "2021-01-01T00:00:00+00:00".to_string(),
    }
}

#[test]
fn insert_get_round_trip() {
    let mut reg = HookRegistry::new();
    let c = config(ID_A, "first");
    reg.insert(c.duplicate());
    let got = reg.get(ID_A).unwrap();
    assert_eq!(got, c);
}

#[test]
fn delete_then_get_is_not_found() {
    let mut reg = HookRegistry::new();
    reg.insert(config(ID_A, "first"));
    reg.delete(ID_A).unwrap();
    assert_eq!(reg.get(ID_A), Err(StoreError::NotFound));
    assert_eq!(reg.all().len(), 0);
}

#[test]
fn malformed_id_is_its_own_error() {
    let mut reg = HookRegistry::new();
    reg.insert(config(ID_A, "first"));
    assert_eq!(reg.get("not-a-uuid"), Err(StoreError::InvalidId));
    assert_eq!(reg.delete("not-a-uuid"), Err(StoreError::InvalidId));
    assert_eq!(reg.delete(ID_B), Err(StoreError::NotFound));
    // the failed deletes left the entry alone
    assert_eq!(reg.all().len(), 1);
}

#[test]
fn insert_twice_overwrites() {
    let mut reg = HookRegistry::new();
    reg.insert(config(ID_A, "first"));
    reg.insert(config(ID_A, "second"));
    assert_eq!(reg.all().len(), 1);
    assert_eq!(reg.get(ID_A).unwrap().description, "second");
}

#[test]
fn ids_parse_in_any_accepted_form_to_one_key() {
    let mut reg = HookRegistry::new();
    reg.insert(config(ID_A, "first"));
    let upper = ID_A.to_uppercase();
    assert_eq!(reg.get(&upper).unwrap().description, "first");
    let id = HookId::try_from(&upper).unwrap();
    assert_eq!(id.as_str(), ID_A);
}

#[test]
fn generated_ids_are_well_formed() {
    let id = HookId::new();
    assert_eq!(id.as_str().len(), 36);
    let reparsed = HookId::try_from(id.as_str()).unwrap();
    assert_eq!(reparsed.as_str(), id.as_str());
}

#[test]
fn hundred_registrations_all_land() {
    let mut reg = HookRegistry::new();
    for i in 0..100 {
        let create = CreateHookConfig {
            description: format!("hook {}", i),
            gitlab_token: "t".to_string(),
            discord_url: "https://example.invalid".to_string(),
        };
        let config = create.into_config();
        reg.insert(config);
    }
    assert_eq!(reg.all().len(), 100);
}

#[test]
fn load_keeps_the_last_entry_per_id() {
    let configs = vec![
        config(ID_A, "first"),
        config(ID_B, "other"),
        config(ID_A, "second"),
    ];
    let reg = HookRegistry::load(configs);
    assert_eq!(reg.all().len(), 2);
    assert_eq!(reg.get(ID_A).unwrap().description, "second");
    assert_eq!(reg.get(ID_B).unwrap().description, "other");
}
