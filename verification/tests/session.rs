use opnsense_client::commands::{save_initial_config, InitialConfig};
use opnsense_client::db::Database;
use opnsense_client::error::StoreError;
use opnsense_client::pin_cache::{clear_pin, set_pin, verify_pin, PinCache};

#[test]
fn new_cache_is_empty() {
    assert_eq!(PinCache::new().get_pin(), None);
}

#[test]
fn set_pin_overwrites_and_clear_pin_empties() {
    let mut cache = PinCache::new();
    cache.set_pin("1234".to_string());
    assert_eq!(cache.get_pin(), Some("1234".to_string()));
    cache.set_pin("5678".to_string());
    assert_eq!(cache.get_pin(), Some("5678".to_string()));
    assert_eq!(cache.get_pin(), Some("5678".to_string()));
    cache.clear_pin();
    assert_eq!(cache.get_pin(), None);
}

#[test]
fn caches_are_independent() {
    let mut one = PinCache::new();
    let two = PinCache::new();
    one.set_pin("1".to_string());
    assert_eq!(two.get_pin(), None);
}

#[test]
fn session_commands_set_and_clear_the_store_s_session() {
    let mut db = Database::new();
    set_pin("4321".to_string(), &mut db);
    assert_eq!(db.get_cached_pin(), Ok("4321".to_string()));
    clear_pin(&mut db);
    assert_eq!(db.get_cached_pin(), Err(StoreError::AuthRequired));
}

#[test]
fn verify_pin_command_caches_only_an_accepted_pin() {
    let mut db = Database::new();
    let config = InitialConfig {
        profile_name: "main".to_string(),
        api_key: "k1".to_string(),
        api_secret: "s1".to_string(),
        api_url: "http://fw".to_string(),
        port: 443,
        pin: "1234".to_string(),
    };
    save_initial_config(config, &mut db).unwrap();
    assert_eq!(db.get_cached_pin(), Ok("1234".to_string()));
    clear_pin(&mut db);

    assert_eq!(verify_pin("0000".to_string(), &mut db), Ok(false));
    assert_eq!(db.get_cached_pin(), Err(StoreError::AuthRequired));
    assert_eq!(verify_pin("1234".to_string(), &mut db), Ok(true));
    assert_eq!(db.get_cached_pin(), Ok("1234".to_string()));
    assert_eq!(verify_pin("9999".to_string(), &mut db), Ok(false));
    assert_eq!(db.get_cached_pin(), Ok("1234".to_string()));
}
