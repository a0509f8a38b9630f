//! The operations the rest of the application calls: first-run setup,
//! profile management and PIN change, each on a store and a session cache
//! handed in by the caller.

use vstd::prelude::*;
use vstd::string::StringExecFns;
use vstd::utf8::encode_utf8;

use crate::db::{infos_view, widgets_view, Database};
use crate::error::{outcome, Failure, StoreError};

use crate::model::{
    after_delete, has_name, index_of, lists, named_at, names_unique, pin_updated, prefs_for,
    prefs_of, prefs_without, save_failure, saved, selected, shown_in, sole_plain, taken_from,
    with_default, StoreView, TableShape,
};
use crate::crypto::{argon2_verify, fresh_hash, hash_refused, SALT_LEN};
use crate::profile::{listed, ApiInfo, ApiInfoView, DashboardWidgetPref, RowView};
use crate::text::{
    count_of, decimal, decimal_text, has_byte, lemma_bytes_lt_irreflexive,
    lemma_bytes_lt_transitive, name_lt, occurs_more_than, same_text,
};

verus! {

/// What first-run setup asks of the user.
#[derive(Debug, PartialEq, Eq)]
pub struct InitialConfig {
    pub profile_name: String,
    pub api_key: String,
    pub api_secret: String,
    pub api_url: String,
    pub port: u16,
    pub pin: String,
}

/// A profile to be added beside those that exist.
#[derive(Debug, PartialEq, Eq)]
pub struct NewApiProfile {
    pub profile_name: String,
    pub api_key: String,
    pub api_secret: String,
    pub api_url: String,
    pub port: u16,
}

/// The profile that first-run setup stores for `config`.
pub open spec fn initial_profile(config: InitialConfig) -> ApiInfoView {
    ApiInfoView {
        id: 0,
        profile_name: config.profile_name@,
        api_key: config.api_key@,
        api_secret: config.api_secret@,
        api_url: config.api_url@,
        port: config.port,
        is_default: true,
    }
}

/// The profile that is saved for `profile`: not a default by request.
pub open spec fn added_profile(profile: NewApiProfile) -> ApiInfoView {
    ApiInfoView {
        id: 0,
        profile_name: profile.profile_name@,
        api_key: profile.api_key@,
        api_secret: profile.api_secret@,
        api_url: profile.api_url@,
        port: profile.port,
        is_default: false,
    }
}

/// True until first-run setup has completed.
pub fn check_first_run(database: &Database) -> (res: Result<bool, StoreError>)
    ensures
        res matches Ok(first) && first == !database@.first_run_done,
{
    database.is_first_run()
}

/// First-run setup: the PIN is hashed and stored with a fresh salt, the
/// PIN becomes the session's, the profile becomes the store's only entry,
/// in the clear and as the default, and first run is marked complete. If
/// the hashing is refused nothing has changed.
pub fn save_initial_config(config: InitialConfig, database: &mut Database) -> (res: Result<
    (),
    StoreError,
>)
    requires
        old(database).wf(),
    ensures
        final(database).wf(),
        match res {
            Ok(_) => {
                &&& final(database)@.settings matches Some(settings) && fresh_hash(
                    config.pin@,
                    settings.password_hash,
                ) && argon2_verify(settings.password_hash, config.pin@) == Some(true)
                    && settings.pin_salt.len() == SALT_LEN
                &&& final(database)@ == (StoreView {
                    first_run_done: true,
                    settings: final(database)@.settings,
                    shape: TableShape::Unencrypted,
                    rows: sole_plain(initial_profile(config)),
                    session: Some(config.pin@),
                    pin_key: None,
                    ..old(database)@
                })
            },
            Err(e) => e@ == Failure::HashingError && hash_refused(config.pin@) && final(database)@
                == old(database)@,
        },
{
    let password_hash = match Database::hash_password(config.pin.as_str()) {
        Ok(hash) => hash,
        Err(e) => {
            return Err(e);
        },
    };
    let _ = database.update_password_hash(password_hash.as_str());
    database.set_session(config.pin.clone());
    let api_info = ApiInfo {
        id: 0,
        profile_name: config.profile_name,
        api_key: config.api_key,
        api_secret: config.api_secret,
        api_url: config.api_url,
        port: config.port,
        is_default: true,
    };
    let _ = database.save_initial_api_info(&api_info);
    let _ = database.set_has_run();
    Ok(())
}

/// Reads the default profile, the connection every request is made with.
pub fn get_api_info(database: &Database) -> (res: Result<Option<ApiInfo>, StoreError>)
    requires
        database.wf(),
    ensures
        res matches Ok(found) && match found {
            Some(profile) => selected(database@, None) == Some(profile@),
            None => selected(database@, None) is None,
        },
{
    database.get_default_api_info()
}

/// Lists every profile in ascending order of name.
pub fn get_api_profiles(database: &Database) -> (res: Result<Vec<ApiInfo>, StoreError>)
    requires
        database.wf(),
    ensures
        res matches Ok(list) && lists(database@.rows, infos_view(list@)),
{
    database.list_api_profiles()
}

/// The profile that an update of the profile at row `at` saves.
pub open spec fn updated_profile(
    store: StoreView,
    profile_name: Seq<char>,
    api_key: Seq<char>,
    api_secret: Seq<char>,
    api_url: Seq<char>,
    port: u16,
    is_default: bool,
) -> ApiInfoView {
    ApiInfoView {
        id: store.rows[index_of(store.rows, profile_name)].id,
        profile_name,
        api_key,
        api_secret,
        api_url,
        port,
        is_default,
    }
}

/// Updates the profile named `profile_name`, which keeps its id. A name
/// that no profile goes by is a `NotFound`; otherwise the outcome is that
/// of saving the profile with the new values.
pub fn update_api_info(
    profile_name: String,
    api_key: String,
    api_secret: String,
    api_url: String,
    port: u16,
    is_default: bool,
    database: &mut Database,
) -> (res: Result<(), StoreError>)
    requires
        old(database).wf(),
    ensures
        final(database).wf(),
        !has_name(old(database)@.rows, profile_name@) ==> final(database)@ == old(database)@ && (
        res matches Err(e) && e@ == Failure::NotFound),
        has_name(old(database)@.rows, profile_name@) ==> match save_failure(
            old(database)@,
            updated_profile(
                old(database)@,
                profile_name@,
                api_key@,
                api_secret@,
                api_url@,
                port,
                is_default,
            ),
        ) {
            Some(failure) => final(database)@ == old(database)@ && (res matches Err(e) && e@
                == failure),
            None => res is Ok && saved(
                old(database)@,
                final(database)@,
                updated_profile(
                    old(database)@,
                    profile_name@,
                    api_key@,
                    api_secret@,
                    api_url@,
                    port,
                    is_default,
                ),
            ),
        },
{
    let found = match database.get_api_info(Some(profile_name.as_str())) {
        Ok(found) => found,
        Err(e) => {
            return Err(e);
        },
    };
    let existing = match found {
        Some(profile) => profile,
        None => {
            return Err(StoreError::NotFound);
        },
    };
    let api_info = ApiInfo {
        id: existing.id,
        profile_name: existing.profile_name,
        api_key,
        api_secret,
        api_url,
        port,
        is_default,
    };
    database.save_api_info(&api_info)
}

/// Changes the PIN. A confirmation that differs from the new PIN is a
/// `Mismatch` and changes nothing. Otherwise the store changes its PIN, and
/// on success its session holds the new one.
pub fn update_pin(
    current_pin: String,
    new_pin: String,
    confirm_new_pin: String,
    database: &mut Database,
) -> (res: Result<(), StoreError>)
    requires
        old(database).wf(),
    ensures
        final(database).wf(),
        new_pin@ != confirm_new_pin@ ==> final(database)@ == old(database)@ && (
        res matches Err(e) && e@ == Failure::Mismatch),
        new_pin@ == confirm_new_pin@ ==> pin_updated(
            old(database)@,
            final(database)@,
            current_pin@,
            new_pin@,
            outcome(res),
        ),
{
    if !same_text(new_pin.as_str(), confirm_new_pin.as_str()) {
        return Err(StoreError::Mismatch);
    }
    database.update_pin(current_pin.as_str(), new_pin.as_str())
}

/// Adds a profile, or replaces the one that has its name. It does not ask
/// to become the default.
pub fn add_api_profile(profile: NewApiProfile, database: &mut Database) -> (res: Result<
    (),
    StoreError,
>)
    requires
        old(database).wf(),
    ensures
        final(database).wf(),
        match save_failure(old(database)@, added_profile(profile)) {
            Some(failure) => final(database)@ == old(database)@ && (res matches Err(e) && e@
                == failure),
            None => res is Ok && saved(old(database)@, final(database)@, added_profile(profile)),
        },
{
    let api_info = ApiInfo {
        id: 0,
        profile_name: profile.profile_name,
        api_key: profile.api_key,
        api_secret: profile.api_secret,
        api_url: profile.api_url,
        port: profile.port,
        is_default: false,
    };
    database.save_api_info(&api_info)
}

/// Whether row `k` has the name that is listed first.
pub open spec fn first_name_at(rows: Seq<RowView>, k: int) -> bool {
    &&& 0 <= k < rows.len()
    &&& forall|j: int|
        0 <= j < rows.len() && j != k ==> name_lt(
            rows[k].profile_name,
            (#[trigger] rows[j]).profile_name,
        )
}

/// The rows after the profile at row `i` is deleted on the user's behalf:
/// the others in their order, and, if the deleted profile was the default,
/// the one whose name is listed first as the new default.
pub open spec fn after_removal(rows: Seq<RowView>, i: int) -> Seq<RowView> {
    let rest = rows.remove(i);
    if rows[i].is_default {
        with_default(rest, rest[choose|k: int| first_name_at(rest, k)].profile_name)
    } else {
        rest
    }
}

/// At most one row has the name that is listed first.
proof fn lemma_first_name_unique(rows: Seq<RowView>, a: int, b: int)
    requires
        first_name_at(rows, a),
        first_name_at(rows, b),
    ensures
        a == b,
{
    if a != b {
        assert(name_lt(rows[a].profile_name, rows[b].profile_name));
        assert(name_lt(rows[b].profile_name, rows[a].profile_name));
        lemma_bytes_lt_transitive(
            vstd::utf8::encode_utf8(rows[a].profile_name),
            vstd::utf8::encode_utf8(rows[b].profile_name),
            vstd::utf8::encode_utf8(rows[a].profile_name),
        );
        lemma_bytes_lt_irreflexive(vstd::utf8::encode_utf8(rows[a].profile_name));
    }
}

/// In a listing of `rows`, the first entry that does not go by the name of
/// row `i` names the row that is listed first once row `i` is removed.
proof fn lemma_first_other(rows: Seq<RowView>, list: Seq<ApiInfoView>, i: int, c: int)
    requires
        names_unique(rows),
        lists(rows, list),
        0 <= i < rows.len(),
        0 <= c < list.len(),
        list[c].profile_name != rows[i].profile_name,
        forall|q: int| 0 <= q < c ==> (#[trigger] list[q]).profile_name == rows[i].profile_name,
    ensures
        exists|k: int| first_name_at(rows.remove(i), k),
        rows.remove(i)[choose|k: int| first_name_at(rows.remove(i), k)].profile_name
            == list[c].profile_name,
{
    let rest = rows.remove(i);
    assert(taken_from(rows, list[c]));
    let j0 = choose|j: int| 0 <= j < rows.len() && listed(#[trigger] rows[j]) == list[c];
    assert(j0 != i);
    let k0 = if j0 < i {
        j0
    } else {
        j0 - 1
    };
    assert(rest[k0] == rows[j0]);
    assert forall|j: int| 0 <= j < rest.len() && j != k0 implies name_lt(
        rest[k0].profile_name,
        (#[trigger] rest[j]).profile_name,
    ) by {
        let jj = if j < i {
            j
        } else {
            j + 1
        };
        assert(rest[j] == rows[jj]);
        assert(jj != i && jj != j0);
        if jj < i {
            assert(rows[jj].profile_name != rows[i].profile_name);
        } else {
            assert(rows[i].profile_name != rows[jj].profile_name);
        }
        if jj < j0 {
            assert(rows[jj].profile_name != rows[j0].profile_name);
        } else {
            assert(rows[j0].profile_name != rows[jj].profile_name);
        }
        assert(shown_in(list, rows[jj]));
        let m = choose|m: int| 0 <= m < list.len() && #[trigger] list[m] == listed(rows[jj]);
        assert(list[m].profile_name == rows[jj].profile_name);
        if m < c {
            assert(list[m].profile_name == rows[i].profile_name);
        }
        assert(m > c);
        assert(name_lt(list[c].profile_name, list[m].profile_name));
    }
    assert(first_name_at(rest, k0));
    let chosen = choose|k: int| first_name_at(rest, k);
    lemma_first_name_unique(rest, k0, chosen);
}

/// Deletes the profile named `profile_name` together with its dashboard
/// preferences. The last profile is never deleted (`LastProfile`), and a
/// name that no profile goes by is a `NotFound`; either way nothing
/// changes. If the deleted profile was the default, the remaining profile
/// whose name is listed first becomes the default.
pub fn delete_api_profile(profile_name: String, database: &mut Database) -> (res: Result<
    (),
    StoreError,
>)
    requires
        old(database).wf(),
    ensures
        final(database).wf(),
        old(database)@.rows.len() <= 1 ==> final(database)@ == old(database)@ && (
        res matches Err(e) && e@ == Failure::LastProfile),
        old(database)@.rows.len() > 1 && !has_name(old(database)@.rows, profile_name@)
            ==> final(database)@ == old(database)@ && (res matches Err(e) && e@
            == Failure::NotFound),
        old(database)@.rows.len() > 1 && has_name(old(database)@.rows, profile_name@) ==> res is Ok
            && final(database)@ == (StoreView {
            rows: after_removal(
                old(database)@.rows,
                index_of(old(database)@.rows, profile_name@),
            ),
            preferences: prefs_without(
                old(database)@.preferences,
                old(database)@.rows[index_of(old(database)@.rows, profile_name@)].id,
            ),
            ..old(database)@
        }),
{
    let ghost rows = database@.rows;
    let profiles = match database.list_api_profiles() {
        Ok(list) => list,
        Err(e) => {
            return Err(e);
        },
    };
    if profiles.len() <= 1 {
        return Err(StoreError::LastProfile);
    }
    let ghost list = infos_view(profiles@);
    let mut c: usize = 0;
    while c < profiles.len() && same_text(profiles[c].profile_name.as_str(), profile_name.as_str())
        invariant
            c <= profiles.len(),
            list == infos_view(profiles@),
            forall|q: int| 0 <= q < c ==> (#[trigger] list[q]).profile_name == profile_name@,
        decreases profiles.len() - c,
    {
        c = c + 1;
    }
    proof {
        if c == profiles.len() {
            // every entry would go by the same name, but names in a listing differ
            assert(name_lt(list[0].profile_name, list[1].profile_name));
            lemma_bytes_lt_irreflexive(vstd::utf8::encode_utf8(profile_name@));
        }
    }
    let was_default = match database.get_api_info(Some(profile_name.as_str())) {
        Ok(Some(profile)) => profile.is_default,
        _ => false,
    };
    match database.delete_api_profile(profile_name.as_str()) {
        Ok(_) => {},
        Err(e) => {
            return Err(e);
        },
    }
    if was_default {
        proof {
            let i = index_of(rows, profile_name@);
            assert(named_at(rows, profile_name@, i));
            lemma_first_other(rows, list, i, c as int);
            let rest = rows.remove(i);
            let removed = after_delete(rows, i);
            assert(removed.len() == rest.len());
            let k = choose|k: int| first_name_at(rest, k);
            assert(first_name_at(rest, k));
            assert(removed[k].profile_name == rest[k].profile_name);
            assert(named_at(removed, list[c as int].profile_name, k));
            assert(with_default(removed, list[c as int].profile_name) =~= with_default(
                rest,
                list[c as int].profile_name,
            ));
        }
        database.set_default_profile(profiles[c].profile_name.as_str())
    } else {
        Ok(())
    }
}

/// Makes the profile named `profile_name` the default and no other.
pub fn set_default_profile(profile_name: String, database: &mut Database) -> (res: Result<
    (),
    StoreError,
>)
    requires
        old(database).wf(),
    ensures
        final(database).wf(),
        has_name(old(database)@.rows, profile_name@) ==> res is Ok && final(database)@
            == (StoreView {
            rows: with_default(old(database)@.rows, profile_name@),
            ..old(database)@
        }),
        !has_name(old(database)@.rows, profile_name@) ==> final(database)@ == old(database)@ && (
        res matches Err(e) && e@ == Failure::NotFound),
{
    database.set_default_profile(profile_name.as_str())
}

/// The dashboard preferences of the default profile; `NotFound` when the
/// store has no profile.
pub fn get_dashboard_preferences(database: &Database) -> (res: Result<
    Vec<DashboardWidgetPref>,
    StoreError,
>)
    requires
        database.wf(),
    ensures
        match selected(database@, None) {
            Some(profile) => res matches Ok(list) && widgets_view(list@) == prefs_of(
                database@.preferences,
                profile.id,
            ),
            None => res matches Err(e) && e@ == Failure::NotFound,
        },
{
    match database.get_default_api_info() {
        Ok(Some(profile)) => database.get_dashboard_preferences(profile.id),
        _ => Err(StoreError::NotFound),
    }
}

/// Replaces the dashboard preferences of the default profile; `NotFound`,
/// with nothing changed, when the store has no profile.
pub fn save_dashboard_preferences(prefs: Vec<DashboardWidgetPref>, database: &mut Database) -> (res:
    Result<(), StoreError>)
    requires
        old(database).wf(),
    ensures
        final(database).wf(),
        match selected(old(database)@, None) {
            Some(profile) => res is Ok && final(database)@ == (StoreView {
                preferences: prefs_without(old(database)@.preferences, profile.id) + prefs_for(
                    widgets_view(prefs@),
                    profile.id,
                ),
                ..old(database)@
            }),
            None => final(database)@ == old(database)@ && (res matches Err(e) && e@
                == Failure::NotFound),
        },
{
    match database.get_default_api_info() {
        Ok(Some(profile)) => database.save_dashboard_preferences(profile.id, prefs.as_slice()),
        _ => Err(StoreError::NotFound),
    }
}

/// Why an address is refused for a connection test, if it is: it must not
/// end in a slash, and must be a base address, without a query and with no
/// more slashes than those of its scheme.
pub open spec fn address_fault(api_url: Seq<char>) -> Option<Seq<char>> {
    let bytes = encode_utf8(api_url);
    if bytes.len() > 0 && bytes.last() == 0x2Fu8 {
        Some("Invalid URL format: URL should not end with a trailing slash"@)
    } else if bytes.contains(0x3Fu8) || count_of(bytes, 0x2Fu8) > 2 {
        Some(
            "Invalid URL format: URL should be a base URL without paths or query parameters"@,
        )
    } else {
        None
    }
}

/// The address a connection test is made to.
pub open spec fn test_address(api_url: Seq<char>, port: u16) -> Seq<char> {
    api_url + ":"@ + decimal_text(port as nat) + "/api/diagnostics/system/systemTime"@
}

/// The address to request for a test of the connection to `api_url` and
/// `port`, or the reason why `api_url` is refused.
pub fn connection_test_url(api_url: &str, port: u16) -> (res: Result<String, String>)
    ensures
        match res {
            Ok(url) => address_fault(api_url@) is None && url@ == test_address(api_url@, port),
            Err(message) => address_fault(api_url@) == Some(message@),
        },
{
    let bytes = api_url.as_bytes();
    if bytes.len() > 0 && bytes[bytes.len() - 1] == 0x2F {
        return Err("Invalid URL format: URL should not end with a trailing slash".to_owned());
    }
    if has_byte(bytes, 0x3F) || occurs_more_than(bytes, 0x2F, 2) {
        return Err(
            "Invalid URL format: URL should be a base URL without paths or query parameters".to_owned(),
        );
    }
    let mut url = api_url.to_owned();
    url.append(":");
    url.append(decimal(port as u64).as_str());
    url.append("/api/diagnostics/system/systemTime");
    Ok(url)
}

} // verus!
