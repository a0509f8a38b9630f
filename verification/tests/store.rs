use opnsense_client::commands::{
    add_api_profile, check_first_run, delete_api_profile, get_api_info, get_api_profiles,
    get_dashboard_preferences, save_dashboard_preferences, save_initial_config,
    set_default_profile, update_api_info, update_pin, InitialConfig, NewApiProfile,
};
use opnsense_client::db::{AppSettings, Database, PreferenceRow, StoreSnapshot};
use opnsense_client::error::StoreError;
use opnsense_client::model::{SchemaState, TableShape};
use opnsense_client::cipher::{decrypt_string, seal_with_nonce};
use opnsense_client::pin_cache::{clear_pin, set_pin};
use opnsense_client::profile::{ApiInfo, DashboardWidgetPref, Secret, StoredProfile};

fn profile(name: &str, key: &str, secret: &str, is_default: bool) -> ApiInfo {
    ApiInfo {
        id: 0,
        profile_name: name.to_string(),
        api_key: key.to_string(),
        api_secret: secret.to_string(),
        api_url: "http://fw".to_string(),
        port: 443,
        is_default,
    }
}

fn main_config(pin: &str) -> InitialConfig {
    InitialConfig {
        profile_name: "main".to_string(),
        api_key: "k1".to_string(),
        api_secret: "s1".to_string(),
        api_url: "http://fw".to_string(),
        port: 443,
        pin: pin.to_string(),
    }
}

/// A store set up with PIN "1234" and profile "main", unlocked and so encrypted.
fn encrypted_store() -> Database {
    let mut db = Database::new();
    save_initial_config(main_config("1234"), &mut db).unwrap();
    assert_eq!(db.verify_pin("1234"), Ok(true));
    assert_eq!(db.schema_state(), SchemaState::Encrypted);
    db
}

fn plain_row(id: i64, name: &str, is_default: bool) -> StoredProfile {
    StoredProfile {
        id,
        profile_name: name.to_string(),
        api_key: Secret::Plain(format!("key-{}", name)),
        api_secret: Secret::Plain(format!("secret-{}", name)),
        api_url: "http://fw".to_string(),
        port: 443,
        is_default,
    }
}

fn plain_snapshot(rows: Vec<StoredProfile>) -> StoreSnapshot {
    StoreSnapshot {
        first_run_done: true,
        settings: None,
        shape: TableShape::Unencrypted,
        rows,
        staging: None,
        preferences: Vec::new(),
    }
}

fn defaults(db: &Database) -> Vec<String> {
    db.list_api_profiles()
        .unwrap()
        .into_iter()
        .filter(|p| p.is_default)
        .map(|p| p.profile_name)
        .collect()
}

fn names(db: &Database) -> Vec<String> {
    db.list_api_profiles().unwrap().into_iter().map(|p| p.profile_name).collect()
}

#[test]
fn first_run_scenario() {
    let mut db = Database::new();
    assert_eq!(db.is_first_run(), Ok(true));
    db.save_initial_api_info(&profile("main", "k1", "s1", false)).unwrap();
    assert_eq!(db.is_first_run(), Ok(true));
    assert_eq!(check_first_run(&db), Ok(true));
    db.set_has_run().unwrap();
    assert_eq!(db.is_first_run(), Ok(false));
    let read = db.get_api_info(None).unwrap().unwrap();
    assert_eq!(
        read,
        ApiInfo {
            id: 1,
            profile_name: "main".to_string(),
            api_key: "k1".to_string(),
            api_secret: "s1".to_string(),
            api_url: "http://fw".to_string(),
            port: 443,
            is_default: true,
        }
    );
    assert_eq!(db.get_default_api_info().unwrap(), Some(read));
}

#[test]
fn pin_scenario() {
    let mut db = Database::new();
    save_initial_config(main_config("1234"), &mut db).unwrap();
    assert_eq!(db.is_first_run(), Ok(false));
    assert_eq!(db.get_cached_pin(), Ok("1234".to_string()));
    assert_eq!(db.schema_state(), SchemaState::Unencrypted);

    assert_eq!(db.verify_pin("1234"), Ok(true));
    assert_eq!(db.schema_state(), SchemaState::Encrypted);
    assert_eq!(db.get_cached_pin(), Ok("1234".to_string()));
    let read = db.get_api_info(None).unwrap().unwrap();
    assert_eq!(read.api_key, "k1");
    assert_eq!(read.api_secret, "s1");
    assert!(read.is_default);

    assert_eq!(db.verify_pin("0000"), Ok(false));
    assert_eq!(db.get_cached_pin(), Ok("1234".to_string()));
    assert_eq!(db.get_api_info(None).unwrap().unwrap().api_key, "k1");
}

#[test]
fn profile_saved_after_pin_exists_is_stored_encrypted() {
    let mut db = encrypted_store();
    db.save_api_info(&profile("backup", "k2", "s2", false)).unwrap();
    let snapshot = db.snapshot();
    assert_eq!(snapshot.shape, TableShape::Encrypted);
    assert_eq!(snapshot.rows.len(), 2);
    for row in &snapshot.rows {
        assert!(matches!(row.api_key, Secret::Sealed { .. }));
        assert!(matches!(row.api_secret, Secret::Sealed { .. }));
    }
    let read = db.get_api_info(Some("backup")).unwrap().unwrap();
    assert_eq!((read.api_key.as_str(), read.api_secret.as_str()), ("k2", "s2"));
    assert_eq!(read.id, 2);
    assert!(!read.is_default);
}

#[test]
fn deleting_the_default_promotes_the_other_profile() {
    let mut db = Database::new();
    db.save_api_info(&profile("main", "k1", "s1", true)).unwrap();
    db.save_api_info(&profile("backup", "k2", "s2", false)).unwrap();
    assert_eq!(defaults(&db), vec!["main".to_string()]);
    assert_eq!(db.delete_api_profile("main"), Ok(()));
    assert_eq!(names(&db), vec!["backup".to_string()]);
    assert!(db.get_api_info(Some("backup")).unwrap().unwrap().is_default);
    assert_eq!(db.get_api_info(None).unwrap().unwrap().profile_name, "backup");
}

#[test]
fn delete_command_promotes_the_other_profile() {
    let mut db = Database::new();
    db.save_api_info(&profile("main", "k1", "s1", true)).unwrap();
    db.save_api_info(&profile("backup", "k2", "s2", false)).unwrap();
    assert_eq!(delete_api_profile("main".to_string(), &mut db), Ok(()));
    assert_eq!(defaults(&db), vec!["backup".to_string()]);
    assert_eq!(names(&db), vec!["backup".to_string()]);
}

#[test]
fn update_pin_scenario() {
    let mut db = encrypted_store();
    db.save_api_info(&profile("backup", "k2", "s2", false)).unwrap();
    assert_eq!(
        update_pin("1234".to_string(), "5678".to_string(), "5678".to_string(), &mut db),
        Ok(())
    );
    assert_eq!(db.get_cached_pin(), Ok("5678".to_string()));

    let reopened = db.snapshot();
    let mut db = Database::open(reopened).unwrap();
    assert_eq!(db.get_api_info(Some("main")).unwrap().unwrap().api_key, "");
    assert_eq!(db.verify_pin("1234"), Ok(false));
    assert_eq!(db.verify_pin("5678"), Ok(true));
    let main = db.get_api_info(Some("main")).unwrap().unwrap();
    assert_eq!((main.api_key.as_str(), main.api_secret.as_str()), ("k1", "s1"));
    assert!(main.is_default);
    assert_eq!(main.id, 1);
    let backup = db.get_api_info(Some("backup")).unwrap().unwrap();
    assert_eq!((backup.api_key.as_str(), backup.api_secret.as_str()), ("k2", "s2"));
}

#[test]
fn update_pin_refuses_mismatch_and_wrong_current_pin() {
    let mut db = encrypted_store();
    let before = db.snapshot();
    assert_eq!(
        update_pin("1234".to_string(), "5678".to_string(), "5679".to_string(), &mut db),
        Err(StoreError::Mismatch)
    );
    assert_eq!(
        update_pin("0000".to_string(), "5678".to_string(), "5678".to_string(), &mut db),
        Err(StoreError::InvalidCredential)
    );
    assert_eq!(db.update_pin("0000", "5678"), Err(StoreError::InvalidCredential));
    assert_eq!(db.snapshot(), before);
    assert_eq!(db.get_cached_pin(), Ok("1234".to_string()));
    assert_eq!(db.verify_pin("1234"), Ok(true));
}

#[test]
fn exactly_one_default_after_any_sequence() {
    let mut db = Database::new();
    db.save_api_info(&profile("a", "ka", "sa", false)).unwrap();
    assert_eq!(defaults(&db), vec!["a".to_string()]);
    db.save_api_info(&profile("b", "kb", "sb", true)).unwrap();
    assert_eq!(defaults(&db), vec!["b".to_string()]);
    db.save_api_info(&profile("c", "kc", "sc", false)).unwrap();
    assert_eq!(defaults(&db), vec!["b".to_string()]);
    db.save_api_info(&profile("b", "kb2", "sb2", false)).unwrap();
    assert_eq!(defaults(&db), vec!["b".to_string()]);
    db.set_default_profile("c").unwrap();
    assert_eq!(defaults(&db), vec!["c".to_string()]);
    assert_eq!(db.set_default_profile("nobody"), Err(StoreError::NotFound));
    assert_eq!(defaults(&db), vec!["c".to_string()]);
    db.delete_api_profile("c").unwrap();
    assert_eq!(defaults(&db), vec!["a".to_string()]);
    db.delete_api_profile("a").unwrap();
    assert_eq!(defaults(&db), vec!["b".to_string()]);
    db.save_api_info(&profile("a", "ka", "sa", true)).unwrap();
    db.save_api_info(&profile("a", "ka", "sa", true)).unwrap();
    assert_eq!(defaults(&db), vec!["a".to_string()]);
    assert_eq!(names(&db), vec!["a".to_string(), "b".to_string()]);
}

#[test]
fn exactly_one_default_in_an_encrypted_store() {
    let mut db = encrypted_store();
    db.save_api_info(&profile("x", "kx", "sx", true)).unwrap();
    assert_eq!(defaults(&db), vec!["x".to_string()]);
    db.save_api_info(&profile("y", "ky", "sy", false)).unwrap();
    set_default_profile("main".to_string(), &mut db).unwrap();
    assert_eq!(defaults(&db), vec!["main".to_string()]);
    db.delete_api_profile("main").unwrap();
    assert_eq!(defaults(&db), vec!["x".to_string()]);
}

#[test]
fn last_profile_cannot_be_deleted() {
    let mut db = Database::new();
    db.save_api_info(&profile("main", "k1", "s1", true)).unwrap();
    let before = db.snapshot();
    assert_eq!(db.delete_api_profile("main"), Err(StoreError::LastProfile));
    assert_eq!(db.delete_api_profile("other"), Err(StoreError::LastProfile));
    assert_eq!(delete_api_profile("main".to_string(), &mut db), Err(StoreError::LastProfile));
    assert_eq!(db.snapshot(), before);
    assert_eq!(db.get_api_info(Some("main")).unwrap().unwrap().api_key, "k1");
    let mut empty = Database::new();
    assert_eq!(empty.delete_api_profile("main"), Err(StoreError::LastProfile));
}

#[test]
fn deleting_an_unknown_profile_is_not_found() {
    let mut db = Database::new();
    db.save_api_info(&profile("a", "ka", "sa", true)).unwrap();
    db.save_api_info(&profile("b", "kb", "sb", false)).unwrap();
    let before = db.snapshot();
    assert_eq!(db.delete_api_profile("c"), Err(StoreError::NotFound));
    assert_eq!(delete_api_profile("c".to_string(), &mut db), Err(StoreError::NotFound));
    assert_eq!(db.snapshot(), before);
}

#[test]
fn deleting_the_default_promotes_the_smallest_id() {
    let rows = vec![plain_row(7, "z", true), plain_row(5, "m", false), plain_row(3, "q", false)];
    let mut db = Database::open(plain_snapshot(rows)).unwrap();
    db.delete_api_profile("z").unwrap();
    assert_eq!(defaults(&db), vec!["q".to_string()]);
}

#[test]
fn delete_command_promotes_the_first_name() {
    let rows = vec![plain_row(7, "z", true), plain_row(5, "m", false), plain_row(3, "q", false)];
    let mut db = Database::open(plain_snapshot(rows)).unwrap();
    delete_api_profile("z".to_string(), &mut db).unwrap();
    assert_eq!(defaults(&db), vec!["m".to_string()]);
    let rows = vec![plain_row(7, "a", true), plain_row(5, "m", false), plain_row(3, "c", false)];
    let mut db = Database::open(plain_snapshot(rows)).unwrap();
    delete_api_profile("a".to_string(), &mut db).unwrap();
    assert_eq!(defaults(&db), vec!["c".to_string()]);
    delete_api_profile("m".to_string(), &mut db).unwrap();
    assert_eq!(defaults(&db), vec!["c".to_string()]);
}

#[test]
fn migration_twice_is_migration_once() {
    let rows = vec![plain_row(4, "main", true), plain_row(9, "backup", false)];
    let mut db = Database::open(plain_snapshot(rows)).unwrap();
    assert_eq!(db.schema_state(), SchemaState::Migrating);
    assert_eq!(db.complete_migration("1234"), Ok(()));
    assert_eq!(db.schema_state(), SchemaState::Encrypted);
    let once = db.snapshot();
    assert_eq!(once.staging, None);
    assert_eq!(once.rows.len(), 2);
    assert_eq!((once.rows[0].id, once.rows[0].profile_name.as_str(), once.rows[0].is_default), (4, "main", true));
    assert_eq!((once.rows[1].id, once.rows[1].profile_name.as_str(), once.rows[1].is_default), (9, "backup", false));
    assert_eq!(db.complete_migration("1234"), Ok(()));
    assert_eq!(db.snapshot(), once);
    assert_eq!(db.complete_migration("other pin"), Ok(()));
    assert_eq!(db.snapshot(), once);
}

#[test]
fn migration_keeps_secrets_and_seals_them_under_the_pin() {
    let rows = vec![plain_row(4, "main", true), plain_row(9, "backup", false)];
    let mut snapshot = plain_snapshot(rows);
    let hash = Database::hash_password("1234").unwrap();
    snapshot.settings = Some(AppSettings { password_hash: hash, pin_salt: String::new() });
    let mut db = Database::open(snapshot).unwrap();
    // the salt is missing when verification starts, so the key cannot be derived
    assert_eq!(db.verify_pin("1234"), Err(StoreError::HashingError));
    assert_eq!(db.get_cached_pin(), Ok("1234".to_string()));
    assert_eq!(db.schema_state(), SchemaState::Encrypted);
    assert_eq!(db.snapshot().settings.unwrap().pin_salt.len(), 22);
    assert_eq!(db.verify_pin("1234"), Ok(true));
    let read = db.get_api_info(Some("backup")).unwrap().unwrap();
    assert_eq!((read.id, read.api_key.as_str(), read.api_secret.as_str()), (9, "key-backup", "secret-backup"));
    let read = db.get_api_info(None).unwrap().unwrap();
    assert_eq!((read.id, read.api_key.as_str()), (4, "key-main"));
}

#[test]
fn migration_leaves_other_shapes_alone() {
    let mut db = Database::new();
    assert_eq!(db.complete_migration("1234"), Ok(()));
    assert_eq!(db.schema_state(), SchemaState::NoTable);
    assert_eq!(db.snapshot(), Database::new().snapshot());
}

#[test]
fn locked_store_discloses_nothing() {
    let mut db = encrypted_store();
    db.save_api_info(&profile("backup", "k2", "s2", false)).unwrap();
    let locked = Database::open(db.snapshot()).unwrap();
    assert_eq!(locked.get_cached_pin(), Err(StoreError::AuthRequired));
    let read = locked.get_api_info(None).unwrap().unwrap();
    assert_eq!(
        read,
        ApiInfo {
            id: 1,
            profile_name: "main".to_string(),
            api_key: String::new(),
            api_secret: String::new(),
            api_url: "http://fw".to_string(),
            port: 443,
            is_default: true,
        }
    );
    let read = locked.get_api_info(Some("backup")).unwrap().unwrap();
    assert_eq!((read.api_key.as_str(), read.api_secret.as_str()), ("", ""));
    assert_eq!(get_api_info(&locked).unwrap().unwrap().api_secret, "");
}

#[test]
fn secrets_under_another_pin_read_as_empty() {
    let mut db = encrypted_store();
    // settings replaced behind the rows' back: the cached PIN no longer opens them
    let other = Database::hash_password("9999").unwrap();
    db.update_password_hash(&other).unwrap();
    assert_eq!(db.verify_pin("9999"), Ok(true));
    let read = db.get_api_info(None).unwrap().unwrap();
    assert_eq!((read.api_key.as_str(), read.api_secret.as_str()), ("", ""));
    assert_eq!(read.profile_name, "main");
}

#[test]
fn encrypted_save_needs_a_cached_pin() {
    let db = encrypted_store();
    let mut locked = Database::open(db.snapshot()).unwrap();
    let before = locked.snapshot();
    assert_eq!(locked.save_api_info(&profile("backup", "k2", "s2", false)), Err(StoreError::AuthRequired));
    assert_eq!(
        add_api_profile(
            NewApiProfile {
                profile_name: "backup".to_string(),
                api_key: "k2".to_string(),
                api_secret: "s2".to_string(),
                api_url: "http://fw".to_string(),
                port: 443,
            },
            &mut locked,
        ),
        Err(StoreError::AuthRequired)
    );
    assert_eq!(locked.snapshot(), before);
}

#[test]
fn encrypted_save_needs_a_pin_to_have_been_set() {
    let db = encrypted_store();
    let mut snapshot = db.snapshot();
    snapshot.settings = None;
    let mut db = Database::open(snapshot).unwrap();
    assert_eq!(db.save_api_info(&profile("backup", "k2", "s2", false)), Err(StoreError::AuthRequired));
    assert_eq!(db.verify_pin("1234"), Ok(false));
}

#[test]
fn save_keeps_the_id_of_an_existing_profile() {
    let rows = vec![plain_row(4, "main", true), plain_row(9, "backup", false)];
    let mut db = Database::open(plain_snapshot(rows)).unwrap();
    db.save_api_info(&ApiInfo { id: 77, port: 8443, ..profile("main", "new-key", "new-secret", false) }).unwrap();
    let read = db.get_api_info(Some("main")).unwrap().unwrap();
    assert_eq!((read.id, read.api_key.as_str(), read.port, read.is_default), (4, "new-key", 8443, true));
    db.save_api_info(&profile("third", "k3", "s3", false)).unwrap();
    assert_eq!(db.get_api_info(Some("third")).unwrap().unwrap().id, 10);
    assert_eq!(db.snapshot().rows.iter().map(|r| r.id).collect::<Vec<_>>(), vec![4, 9, 10]);
}

#[test]
fn encrypted_save_keeps_the_id_of_an_existing_profile() {
    let mut db = encrypted_store();
    db.save_api_info(&profile("backup", "k2", "s2", false)).unwrap();
    db.save_api_info(&ApiInfo { id: 55, ..profile("main", "k1-new", "s1-new", false) }).unwrap();
    let read = db.get_api_info(Some("main")).unwrap().unwrap();
    assert_eq!((read.id, read.api_key.as_str(), read.api_secret.as_str()), (1, "k1-new", "s1-new"));
    assert_eq!(db.get_api_info(Some("backup")).unwrap().unwrap().id, 2);
}

#[test]
fn save_without_room_for_an_id_is_a_storage_error() {
    let rows = vec![plain_row(i64::MAX, "main", true)];
    let mut db = Database::open(plain_snapshot(rows)).unwrap();
    let before = db.snapshot();
    let refused = db.save_api_info(&profile("backup", "k2", "s2", false));
    assert_eq!(refused, Err(StoreError::StorageError("No profile id is left".to_string())));
    assert_eq!(db.snapshot(), before);
    assert_eq!(db.save_api_info(&profile("main", "k", "s", false)), Ok(()));
}

#[test]
fn save_into_a_missing_table_sets_up_an_unencrypted_one() {
    let mut db = Database::new();
    assert_eq!(db.schema_state(), SchemaState::NoTable);
    assert_eq!(db.get_api_info(None), Ok(None));
    assert_eq!(db.list_api_profiles(), Ok(Vec::new()));
    db.save_api_info(&profile("main", "k1", "s1", false)).unwrap();
    assert_eq!(db.schema_state(), SchemaState::Unencrypted);
    let read = db.get_api_info(None).unwrap().unwrap();
    assert_eq!((read.id, read.is_default, read.api_key.as_str()), (1, true, "k1"));
}

#[test]
fn save_into_an_unrecognized_table_starts_over() {
    let snapshot = StoreSnapshot {
        first_run_done: true,
        settings: None,
        shape: TableShape::Unrecognized,
        rows: Vec::new(),
        staging: None,
        preferences: Vec::new(),
    };
    let mut db = Database::open(snapshot).unwrap();
    assert_eq!(db.schema_state(), SchemaState::Unrecognized);
    db.save_api_info(&profile("main", "k1", "s1", false)).unwrap();
    assert_eq!(db.schema_state(), SchemaState::Unencrypted);
    assert_eq!(defaults(&db), vec!["main".to_string()]);
}

#[test]
fn initial_save_replaces_an_encrypted_table() {
    let mut db = encrypted_store();
    db.save_api_info(&profile("backup", "k2", "s2", false)).unwrap();
    db.save_initial_api_info(&profile("fresh", "kf", "sf", false)).unwrap();
    assert_eq!(db.schema_state(), SchemaState::Unencrypted);
    assert_eq!(names(&db), vec!["fresh".to_string()]);
    let once = db.snapshot();
    db.save_initial_api_info(&profile("fresh", "kf", "sf", false)).unwrap();
    assert_eq!(db.snapshot(), once);
    let read = db.get_api_info(None).unwrap().unwrap();
    assert_eq!((read.id, read.api_key.as_str(), read.is_default), (1, "kf", true));
}

#[test]
fn listing_is_ordered_by_name() {
    let mut db = Database::new();
    for name in ["delta", "alpha", "Charlie", "bravo", "alphabet", "é", "z"] {
        db.save_api_info(&profile(name, "k", "s", false)).unwrap();
    }
    assert_eq!(names(&db), vec!["Charlie", "alpha", "alphabet", "bravo", "delta", "z", "é"]);
    let listed = get_api_profiles(&db).unwrap();
    assert_eq!(listed[0].id, 3);
    assert_eq!(listed[1].id, 2);
    assert!(listed[4].is_default);
}

#[test]
fn listing_shows_plain_secrets_and_blanks_sealed_ones() {
    let mut db = Database::new();
    save_initial_config(main_config("1234"), &mut db).unwrap();
    let listed = db.list_api_profiles().unwrap();
    assert_eq!((listed[0].api_key.as_str(), listed[0].api_secret.as_str()), ("k1", "s1"));
    assert_eq!(db.verify_pin("1234"), Ok(true));
    let listed = db.list_api_profiles().unwrap();
    assert_eq!(listed.len(), 1);
    assert_eq!((listed[0].api_key.as_str(), listed[0].api_secret.as_str()), ("", ""));
    assert_eq!((listed[0].id, listed[0].profile_name.as_str(), listed[0].port), (1, "main", 443));
}

#[test]
fn update_command_keeps_the_id_and_reports_unknown_names() {
    let mut db = encrypted_store();
    db.save_api_info(&profile("backup", "k2", "s2", false)).unwrap();
    let unknown = update_api_info(
        "nobody".to_string(),
        "k".to_string(),
        "s".to_string(),
        "http://x".to_string(),
        1,
        true,
        &mut db,
    );
    assert_eq!(unknown, Err(StoreError::NotFound));
    update_api_info(
        "backup".to_string(),
        "k2b".to_string(),
        "s2b".to_string(),
        "https://fw2".to_string(),
        8443,
        true,
        &mut db,
    )
    .unwrap();
    let read = db.get_api_info(None).unwrap().unwrap();
    assert_eq!(
        read,
        ApiInfo {
            id: 2,
            profile_name: "backup".to_string(),
            api_key: "k2b".to_string(),
            api_secret: "s2b".to_string(),
            api_url: "https://fw2".to_string(),
            port: 8443,
            is_default: true,
        }
    );
    assert_eq!(defaults(&db), vec!["backup".to_string()]);
}

#[test]
fn add_command_does_not_take_the_default() {
    let mut db = Database::new();
    db.save_api_info(&profile("main", "k1", "s1", true)).unwrap();
    add_api_profile(
        NewApiProfile {
            profile_name: "backup".to_string(),
            api_key: "k2".to_string(),
            api_secret: "s2".to_string(),
            api_url: "http://fw2".to_string(),
            port: 444,
        },
        &mut db,
    )
    .unwrap();
    assert_eq!(defaults(&db), vec!["main".to_string()]);
    let read = db.get_api_info(Some("backup")).unwrap().unwrap();
    assert_eq!((read.api_url.as_str(), read.port, read.id), ("http://fw2", 444, 2));
}

#[test]
fn open_refuses_data_that_is_not_sound() {
    let inconsistent = StoreError::StorageError("Stored profiles are inconsistent".to_string());
    let twice = vec![plain_row(1, "main", true), plain_row(2, "main", false)];
    assert_eq!(Database::open(plain_snapshot(twice)).err(), Some(inconsistent));
    let same_id = vec![plain_row(1, "a", true), plain_row(1, "b", false)];
    assert!(Database::open(plain_snapshot(same_id)).is_err());
    let mut wrong_shape = plain_snapshot(vec![plain_row(1, "a", true)]);
    wrong_shape.shape = TableShape::Encrypted;
    assert!(Database::open(wrong_shape).is_err());
    let mut rows_without_table = plain_snapshot(vec![plain_row(1, "a", true)]);
    rows_without_table.shape = TableShape::Missing;
    assert!(Database::open(rows_without_table).is_err());
    let mut plain_staging = plain_snapshot(vec![plain_row(1, "a", true)]);
    plain_staging.staging = Some(vec![plain_row(1, "a", true)]);
    assert!(Database::open(plain_staging).is_err());
    assert!(Database::open(plain_snapshot(vec![plain_row(1, "a", true)])).is_ok());
    assert!(Database::open(plain_snapshot(Vec::new())).is_ok());
}

#[test]
fn open_puts_default_flags_right() {
    let two_defaults = vec![plain_row(5, "a", true), plain_row(2, "b", true), plain_row(9, "c", false)];
    let db = Database::open(plain_snapshot(two_defaults)).unwrap();
    assert_eq!(defaults(&db), vec!["b".to_string()]);
    let no_default = vec![plain_row(5, "a", false), plain_row(7, "b", false), plain_row(3, "c", false)];
    let db = Database::open(plain_snapshot(no_default)).unwrap();
    assert_eq!(defaults(&db), vec!["c".to_string()]);
    assert_eq!(db.snapshot().rows.iter().map(|r| r.id).collect::<Vec<_>>(), vec![5, 7, 3]);
    let one_default = vec![plain_row(5, "a", false), plain_row(7, "b", true), plain_row(3, "c", false)];
    let db = Database::open(plain_snapshot(one_default)).unwrap();
    assert_eq!(defaults(&db), vec!["b".to_string()]);
}

#[test]
fn clearing_the_session_locks_the_store() {
    let mut db = encrypted_store();
    assert_eq!(db.get_api_info(None).unwrap().unwrap().api_key, "k1");
    clear_pin(&mut db);
    assert_eq!(db.get_cached_pin(), Err(StoreError::AuthRequired));
    let read = db.get_api_info(None).unwrap().unwrap();
    assert_eq!((read.api_key.as_str(), read.api_secret.as_str()), ("", ""));
    assert_eq!(db.save_api_info(&profile("backup", "k2", "s2", false)), Err(StoreError::AuthRequired));
    assert_eq!(db.save_api_info(&profile("main", "k", "s", true)), Err(StoreError::AuthRequired));
    assert_eq!(db.verify_pin("0000"), Ok(false));
    assert_eq!(db.save_api_info(&profile("backup", "k2", "s2", false)), Err(StoreError::AuthRequired));
    assert_eq!(db.verify_pin("1234"), Ok(true));
    assert_eq!(db.get_api_info(None).unwrap().unwrap().api_key, "k1");
    assert_eq!(db.save_api_info(&profile("backup", "k2", "s2", false)), Ok(()));
    db.clear_session();
    assert_eq!(db.get_api_info(Some("backup")).unwrap().unwrap().api_secret, "");
}

#[test]
fn a_session_pin_that_was_not_verified_opens_nothing() {
    let mut db = encrypted_store();
    set_pin("0000".to_string(), &mut db);
    assert_eq!(db.get_cached_pin(), Ok("0000".to_string()));
    let read = db.get_api_info(None).unwrap().unwrap();
    assert_eq!((read.api_key.as_str(), read.api_secret.as_str()), ("", ""));
    db.set_session("1234".to_string());
    assert_eq!(db.get_api_info(None).unwrap().unwrap().api_key, "k1");
}

#[test]
fn hashing_under_a_given_salt_is_a_function_of_pin_and_salt() {
    let first = Database::hash_password_with("1234", "c2FsdHNhbHRzYWx0c2FsdA").unwrap();
    let second = Database::hash_password_with("1234", "c2FsdHNhbHRzYWx0c2FsdA").unwrap();
    assert_eq!(first, second);
    assert!(first.starts_with("$argon2id$v=19$m=19456,t=2,p=1$c2FsdHNhbHRzYWx0c2FsdA$"));
    assert_eq!(Database::verify_password(&first, "1234"), Ok(true));
    assert_ne!(Database::hash_password_with("1235", "c2FsdHNhbHRzYWx0c2FsdA").unwrap(), first);
    assert_ne!(Database::hash_password_with("1234", "b3RoZXJzYWx0b3RoZXJzYQ").unwrap(), first);
    assert_eq!(Database::hash_password_with("1234", ""), Err(StoreError::HashingError));
    assert_eq!(Database::hash_password_with("1234", "not a salt!"), Err(StoreError::HashingError));
    let drawn = Database::hash_password("1234").unwrap();
    let salt = drawn.split('$').nth(4).unwrap();
    assert_eq!(salt.len(), 22);
    assert_eq!(Database::hash_password_with("1234", salt), Ok(drawn.clone()));
}

#[test]
fn sealing_with_a_given_nonce_is_a_function_of_text_pin_and_nonce() {
    let nonce = [9u8; 12];
    let first = seal_with_nonce("s1", "1234", &nonce).unwrap();
    assert_eq!(seal_with_nonce("s1", "1234", &nonce), Ok(first.clone()));
    assert_eq!(first.len(), 2 + 16);
    assert_eq!(seal_with_nonce("schlüssel", "1234", &nonce).unwrap().len(), 10 + 16);
    assert_ne!(seal_with_nonce("s1", "1235", &nonce).unwrap(), first);
    assert_ne!(seal_with_nonce("s1", "1234", &[8u8; 12]).unwrap(), first);
    assert_eq!(decrypt_string(&first, &nonce, "1234"), Ok("s1".to_string()));
    let refused = Err(StoreError::StorageError("Encryption failed".to_string()));
    assert_eq!(seal_with_nonce("s1", "1234", &nonce[..11]), refused);
    assert_eq!(seal_with_nonce("s1", "1234", &[0u8; 13]), refused);
}

#[test]
fn resealing_takes_the_hash_it_is_given() {
    let mut db = encrypted_store();
    db.save_api_info(&profile("backup", "k2", "s2", false)).unwrap();
    let salt_before = db.snapshot().settings.unwrap().pin_salt;
    let hash = Database::hash_password_with("5678", "c2FsdHNhbHRzYWx0c2FsdA").unwrap();
    assert_eq!(db.reseal_under("5678", hash.clone()), Ok(()));
    let settings = db.snapshot().settings.unwrap();
    assert_eq!(settings.password_hash, hash);
    assert_eq!(settings.pin_salt, salt_before);
    assert_eq!(db.get_cached_pin(), Ok("5678".to_string()));
    assert_eq!(db.get_api_info(Some("backup")).unwrap().unwrap().api_key, "k2");
    db.set_session("1234".to_string());
    assert_eq!(db.get_api_info(Some("backup")).unwrap().unwrap().api_key, "");
    assert_eq!(db.get_api_info(Some("main")).unwrap().unwrap().api_secret, "");
    let mut empty = Database::new();
    assert_eq!(empty.reseal_under("5678", hash), Err(StoreError::AuthRequired));
}

#[test]
fn open_prepares_a_plaintext_table_for_migration() {
    let db = Database::open(plain_snapshot(vec![plain_row(1, "a", true)])).unwrap();
    assert_eq!(db.schema_state(), SchemaState::Migrating);
    assert_eq!(db.snapshot().staging, Some(Vec::new()));
    let mut db = Database::new();
    db.save_api_info(&profile("main", "k1", "s1", true)).unwrap();
    assert_eq!(db.schema_state(), SchemaState::Unencrypted);
    db.migrate_data();
    assert_eq!(db.schema_state(), SchemaState::Migrating);
    db.migrate_data();
    assert_eq!(db.snapshot().staging, Some(Vec::new()));
}

#[test]
fn hashes_verify_and_differ_from_call_to_call() {
    let first = Database::hash_password("1234").unwrap();
    let second = Database::hash_password("1234").unwrap();
    assert!(first.starts_with("$argon2id$"));
    assert_ne!(first, second);
    assert_eq!(Database::verify_password(&first, "1234"), Ok(true));
    assert_eq!(Database::verify_password(&second, "1234"), Ok(true));
    assert_eq!(Database::verify_password(&first, "1235"), Ok(false));
}

#[test]
fn malformed_hash_is_a_hashing_error() {
    assert_eq!(Database::verify_password("not a hash", "1234"), Err(StoreError::HashingError));
    assert_eq!(Database::verify_password("", "1234"), Err(StoreError::HashingError));
    let mut db = Database::new();
    db.update_password_hash("garbage").unwrap();
    assert_eq!(db.verify_pin("1234"), Err(StoreError::HashingError));
    assert_eq!(db.get_cached_pin(), Err(StoreError::AuthRequired));
    assert_eq!(db.update_pin("1234", "5678"), Err(StoreError::HashingError));
}

#[test]
fn verify_pin_without_a_pin_set_is_false() {
    let mut db = Database::new();
    assert_eq!(db.verify_pin("1234"), Ok(false));
    assert_eq!(db.get_cached_pin(), Err(StoreError::AuthRequired));
}

#[test]
fn update_password_hash_draws_a_salt_and_keeps_the_session() {
    let mut db = encrypted_store();
    let before = db.snapshot().settings.unwrap();
    assert_eq!(before.pin_salt.len(), 22);
    db.update_password_hash("$argon2id$whatever").unwrap();
    let after = db.snapshot().settings.unwrap();
    assert_eq!(after.password_hash, "$argon2id$whatever");
    assert_eq!(after.pin_salt.len(), 22);
    assert_ne!(after.pin_salt, before.pin_salt);
    assert_eq!(db.get_cached_pin(), Ok("1234".to_string()));
}

#[test]
fn dashboard_preferences_belong_to_a_profile() {
    let mut db = Database::new();
    db.save_api_info(&profile("main", "k1", "s1", true)).unwrap();
    db.save_api_info(&profile("backup", "k2", "s2", false)).unwrap();
    let widget = |key: &str, visible: bool, position: i32| DashboardWidgetPref {
        widget_key: key.to_string(),
        visible,
        position,
    };
    db.save_dashboard_preferences(1, &[widget("cpu", true, 0), widget("mem", false, 1)]).unwrap();
    db.save_dashboard_preferences(2, &[widget("disk", true, 5)]).unwrap();
    assert_eq!(db.get_dashboard_preferences(1).unwrap(), vec![widget("cpu", true, 0), widget("mem", false, 1)]);
    db.save_dashboard_preferences(1, &[widget("net", true, 2)]).unwrap();
    assert_eq!(db.get_dashboard_preferences(1).unwrap(), vec![widget("net", true, 2)]);
    assert_eq!(db.get_dashboard_preferences(2).unwrap(), vec![widget("disk", true, 5)]);
    assert_eq!(db.get_dashboard_preferences(3).unwrap(), Vec::new());
    assert_eq!(get_dashboard_preferences(&db).unwrap(), vec![widget("net", true, 2)]);
    save_dashboard_preferences(vec![widget("log", false, 9)], &mut db).unwrap();
    assert_eq!(db.get_dashboard_preferences(1).unwrap(), vec![widget("log", false, 9)]);

    db.delete_api_profile("main").unwrap();
    assert_eq!(db.get_dashboard_preferences(1).unwrap(), Vec::new());
    assert_eq!(db.get_dashboard_preferences(2).unwrap(), vec![widget("disk", true, 5)]);
    assert_eq!(
        db.snapshot().preferences,
        vec![PreferenceRow { profile_id: 2, pref: widget("disk", true, 5) }]
    );
}

#[test]
fn dashboard_commands_need_a_profile() {
    let mut db = Database::new();
    assert_eq!(get_dashboard_preferences(&db), Err(StoreError::NotFound));
    assert_eq!(save_dashboard_preferences(Vec::new(), &mut db), Err(StoreError::NotFound));
}

#[test]
fn snapshot_leaves_out_the_session() {
    let db = encrypted_store();
    let reopened = Database::open(db.snapshot()).unwrap();
    assert_eq!(reopened.get_cached_pin(), Err(StoreError::AuthRequired));
    assert_eq!(reopened.snapshot(), db.snapshot());
}

#[test]
fn failures_have_messages() {
    assert_eq!(StoreError::AuthRequired.message(), "PIN authentication required. Please login again.");
    assert_eq!(StoreError::InvalidCredential.message(), "Current PIN is incorrect");
    assert_eq!(StoreError::Mismatch.message(), "New PIN and confirmation do not match");
    assert_eq!(StoreError::DecryptionError.message(), "Decryption failed");
    assert_eq!(StoreError::NotFound.message(), "Profile not found");
    assert_eq!(StoreError::LastProfile.message(), "Cannot delete the last profile");
    assert_eq!(StoreError::HashingError.message(), "Failed to hash or verify the PIN");
    assert_eq!(StoreError::StorageError("disk full".to_string()).message(), "disk full");
}
