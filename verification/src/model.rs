//! The credential store as a mathematical value, and what each operation
//! makes of it. The store's contracts and laws are stated over these
//! definitions.

use vstd::prelude::*;
use vstd::utf8::encode_utf8;

use crate::cipher::seals;
use crate::crypto::{
    argon2_hash_of, argon2_verify, fresh_hash, hash_refused, sealable, SALT_LEN,
};
use crate::error::Failure;
use crate::profile::{
    disclosed, listed, revealed, ApiInfoView, RowView, SecretView, WidgetPrefView,
};
use crate::text::name_lt;

verus! {

/// The shape in which the profile table is found.
#[derive(Clone, Copy, Debug, PartialEq, Eq, Structural)]
pub enum TableShape {
    /// There is no profile table yet.
    Missing,
    /// Key and secret are kept in the clear: first-run and legacy stores.
    Unencrypted,
    /// Key and secret are kept as ciphertext and nonce.
    Encrypted,
    /// A table exists, but has the columns of neither known shape.
    Unrecognized,
}

/// Where the store stands between plaintext and encrypted storage.
#[derive(Clone, Copy, Debug, PartialEq, Eq, Structural)]
pub enum SchemaState {
    NoTable,
    Unencrypted,
    /// The plaintext table is still in place and the table that will
    /// replace it exists beside it.
    Migrating,
    Encrypted,
    Unrecognized,
}

/// The singleton settings row as a mathematical value.
pub struct SettingsView {
    pub password_hash: Seq<char>,
    pub pin_salt: Seq<char>,
}

/// One dashboard preference row as a mathematical value.
pub struct PreferenceView {
    pub profile_id: i64,
    pub pref: WidgetPrefView,
}

/// Everything the store holds, persisted and in memory.
pub struct StoreView {
    /// Whether first-run setup has been marked complete.
    pub first_run_done: bool,
    /// The PIN hash and key-derivation salt, once a PIN has been set.
    pub settings: Option<SettingsView>,
    pub shape: TableShape,
    /// The rows of the profile table, in stored order.
    pub rows: Seq<RowView>,
    /// The table that a migration in progress is filling, if there is one.
    pub staging: Option<Seq<RowView>>,
    pub preferences: Seq<PreferenceView>,
    /// The PIN cached for this session.
    pub session: Option<Seq<char>>,
    /// The key derived from PIN and salt at the last verification.
    pub pin_key: Option<Seq<u8>>,
}

pub open spec fn is_plain(row: RowView) -> bool {
    row.api_key is Plain && row.api_secret is Plain
}

pub open spec fn is_sealed(row: RowView) -> bool {
    row.api_key is Sealed && row.api_secret is Sealed
}

pub open spec fn all_plain(rows: Seq<RowView>) -> bool {
    forall|i: int| 0 <= i < rows.len() ==> is_plain(#[trigger] rows[i])
}

pub open spec fn all_sealed(rows: Seq<RowView>) -> bool {
    forall|i: int| 0 <= i < rows.len() ==> is_sealed(#[trigger] rows[i])
}

/// Whether row `i` goes by `name`.
pub open spec fn named_at(rows: Seq<RowView>, name: Seq<char>, i: int) -> bool {
    0 <= i < rows.len() && rows[i].profile_name == name
}

pub open spec fn has_name(rows: Seq<RowView>, name: Seq<char>) -> bool {
    exists|i: int| named_at(rows, name, i)
}

/// The index of the row that goes by `name`, where there is one.
pub open spec fn index_of(rows: Seq<RowView>, name: Seq<char>) -> int {
    choose|i: int| named_at(rows, name, i)
}

pub open spec fn names_unique(rows: Seq<RowView>) -> bool {
    forall|i: int, j: int|
        0 <= i < j < rows.len() ==> (#[trigger] rows[i]).profile_name != (
        #[trigger] rows[j]).profile_name
}

pub open spec fn ids_unique(rows: Seq<RowView>) -> bool {
    forall|i: int, j: int|
        0 <= i < j < rows.len() ==> (#[trigger] rows[i]).id != (#[trigger] rows[j]).id
}

/// Whether row `i` is flagged default and no other row is.
pub open spec fn sole_default(rows: Seq<RowView>, i: int) -> bool {
    &&& 0 <= i < rows.len()
    &&& forall|j: int| 0 <= j < rows.len() ==> ((#[trigger] rows[j]).is_default <==> j == i)
}

/// Whether exactly one row is flagged default.
pub open spec fn one_default(rows: Seq<RowView>) -> bool {
    exists|i: int| sole_default(rows, i)
}

/// The index of the default row, where exactly one row is flagged.
pub open spec fn default_index(rows: Seq<RowView>) -> int {
    choose|i: int| sole_default(rows, i)
}

/// The invariant of the profile table: rows fit the table's shape, names
/// and ids are unique, and a table that holds any profile has exactly one
/// default.
pub open spec fn table_wf(shape: TableShape, rows: Seq<RowView>) -> bool {
    &&& (shape is Missing || shape is Unrecognized) ==> rows.len() == 0
    &&& shape is Unencrypted ==> all_plain(rows)
    &&& shape is Encrypted ==> all_sealed(rows)
    &&& names_unique(rows)
    &&& ids_unique(rows)
    &&& rows.len() > 0 ==> one_default(rows)
}

/// What a table must meet whatever its default flags say: rows fit the
/// table's shape, and names and ids are unique.
pub open spec fn table_sound(shape: TableShape, rows: Seq<RowView>) -> bool {
    &&& (shape is Missing || shape is Unrecognized) ==> rows.len() == 0
    &&& shape is Unencrypted ==> all_plain(rows)
    &&& shape is Encrypted ==> all_sealed(rows)
    &&& names_unique(rows)
    &&& ids_unique(rows)
}

/// The rows with the default flag on row `k` and on no other.
pub open spec fn only_default(rows: Seq<RowView>, k: int) -> Seq<RowView> {
    Seq::new(rows.len(), |i: int| flagged(rows[i], i == k))
}

/// The rows with their default flags put right: rows that have exactly one
/// default, or none at all, stay as they are; among any others the row
/// with the smallest id becomes the one default.
pub open spec fn repaired(rows: Seq<RowView>) -> Seq<RowView> {
    if rows.len() == 0 || one_default(rows) {
        rows
    } else {
        only_default(rows, choose|k: int| min_id_at(rows, k))
    }
}

/// Whether what was read back can be taken into use: the table is sound
/// and a table in the making holds sealed rows only.
pub open spec fn usable(store: StoreView) -> bool {
    &&& table_sound(store.shape, store.rows)
    &&& store.staging matches Some(staged) ==> all_sealed(staged)
}

/// The invariant of the whole store.
pub open spec fn store_wf(store: StoreView) -> bool {
    &&& table_wf(store.shape, store.rows)
    &&& store.staging matches Some(staged) ==> all_sealed(staged)
}

pub open spec fn schema_state(store: StoreView) -> SchemaState {
    match store.shape {
        TableShape::Missing => SchemaState::NoTable,
        TableShape::Unencrypted => if store.staging is Some {
            SchemaState::Migrating
        } else {
            SchemaState::Unencrypted
        },
        TableShape::Encrypted => SchemaState::Encrypted,
        TableShape::Unrecognized => SchemaState::Unrecognized,
    }
}

/// Row `row` with its default flag set to `flag`.
pub open spec fn flagged(row: RowView, flag: bool) -> RowView {
    RowView { is_default: flag, ..row }
}

/// The rows with the default flag on the row named `name` and on no other.
pub open spec fn with_default(rows: Seq<RowView>, name: Seq<char>) -> Seq<RowView> {
    Seq::new(rows.len(), |i: int| flagged(rows[i], rows[i].profile_name == name))
}

/// Whether no row has a smaller id than row `k`.
pub open spec fn min_id_at(rows: Seq<RowView>, k: int) -> bool {
    &&& 0 <= k < rows.len()
    &&& forall|j: int| 0 <= j < rows.len() ==> rows[k].id <= (#[trigger] rows[j]).id
}

/// The rows with row `k` flagged default besides those that already are.
pub open spec fn promoted(rows: Seq<RowView>, k: int) -> Seq<RowView> {
    Seq::new(rows.len(), |i: int| flagged(rows[i], rows[i].is_default || i == k))
}

/// The rows after the row at `i` is deleted: the others in their order,
/// and, if the deleted row was the default, the one with the smallest id
/// promoted in its place.
pub open spec fn after_delete(rows: Seq<RowView>, i: int) -> Seq<RowView> {
    let rest = rows.remove(i);
    if rows[i].is_default {
        promoted(rest, choose|k: int| min_id_at(rest, k))
    } else {
        rest
    }
}

/// The largest id in use, or 0 in an empty table.
pub open spec fn max_id(rows: Seq<RowView>) -> int
    decreases rows.len(),
{
    if rows.len() == 0 {
        0
    } else {
        let rest = max_id(rows.drop_last());
        if rows.last().id > rest {
            rows.last().id as int
        } else {
            rest
        }
    }
}

/// The id a new row gets: one more than the largest in use.
pub open spec fn next_id(rows: Seq<RowView>) -> int {
    max_id(rows) + 1
}

/// What a caller asks to have saved, apart from the secrets.
pub open spec fn saved_row(
    profile: ApiInfoView,
    id: i64,
    api_key: SecretView,
    api_secret: SecretView,
    is_default: bool,
) -> RowView {
    RowView {
        id,
        profile_name: profile.profile_name,
        api_key,
        api_secret,
        api_url: profile.api_url,
        port: profile.port,
        is_default,
    }
}

/// The rows after `profile` is saved with the given stored secrets.
///
/// A row of that name is replaced in place and keeps its id; otherwise a
/// row with the next free id is appended. The saved row is the default if
/// the caller asks for it, if it already was, or if the table was empty;
/// whenever it is the default, no other row is.
pub open spec fn upserted(
    rows: Seq<RowView>,
    profile: ApiInfoView,
    api_key: SecretView,
    api_secret: SecretView,
) -> Seq<RowView> {
    if has_name(rows, profile.profile_name) {
        let at = index_of(rows, profile.profile_name);
        let flag = profile.is_default || rows[at].is_default;
        Seq::new(
            rows.len(),
            |i: int|
                if i == at {
                    saved_row(profile, rows[at].id, api_key, api_secret, flag)
                } else {
                    flagged(rows[i], rows[i].is_default && !flag)
                },
        )
    } else {
        let flag = profile.is_default || rows.len() == 0;
        Seq::new(
            rows.len() + 1,
            |i: int|
                if i == rows.len() {
                    saved_row(profile, next_id(rows) as i64, api_key, api_secret, flag)
                } else {
                    flagged(rows[i], rows[i].is_default && !flag)
                },
        )
    }
}

/// Whether saving `profile` finds room for it: a new row needs an id that
/// still fits.
pub open spec fn has_room(rows: Seq<RowView>, profile: ApiInfoView) -> bool {
    has_name(rows, profile.profile_name) || next_id(rows) <= i64::MAX
}

/// The table that holds `profile` alone, in the clear, as the default.
pub open spec fn sole_plain(profile: ApiInfoView) -> Seq<RowView> {
    seq![
        saved_row(
            profile,
            1,
            SecretView::Plain(profile.api_key),
            SecretView::Plain(profile.api_secret),
            true,
        ),
    ]
}

/// Where a saved profile stands in the table afterwards: at the row that
/// had its name, or at the end.
pub open spec fn saved_index(rows: Seq<RowView>, name: Seq<char>) -> int {
    if has_name(rows, name) {
        index_of(rows, name)
    } else {
        rows.len() as int
    }
}

/// The preference rows that do not belong to profile `profile_id`.
pub open spec fn prefs_without(prefs: Seq<PreferenceView>, profile_id: i64) -> Seq<PreferenceView> {
    prefs.filter(|p: PreferenceView| p.profile_id != profile_id)
}

/// The preferences of profile `profile_id`, in stored order.
pub open spec fn prefs_of(prefs: Seq<PreferenceView>, profile_id: i64) -> Seq<WidgetPrefView> {
    prefs.filter(|p: PreferenceView| p.profile_id == profile_id).map_values(
        |p: PreferenceView| p.pref,
    )
}

/// Preference rows for profile `profile_id` holding `prefs` in order.
pub open spec fn prefs_for(prefs: Seq<WidgetPrefView>, profile_id: i64) -> Seq<PreferenceView> {
    prefs.map_values(|pref: WidgetPrefView| PreferenceView { profile_id, pref })
}

/// The row a read selects: the one of the given name, or the default when
/// no name is given.
pub open spec fn selected_index(rows: Seq<RowView>, name: Option<Seq<char>>) -> Option<int> {
    match name {
        Some(n) => if has_name(rows, n) {
            Some(index_of(rows, n))
        } else {
            None
        },
        None => if one_default(rows) {
            Some(default_index(rows))
        } else {
            None
        },
    }
}

/// The profile a read returns: the selected row, its secrets disclosed as
/// far as the session allows.
pub open spec fn selected(store: StoreView, name: Option<Seq<char>>) -> Option<ApiInfoView> {
    match selected_index(store.rows, name) {
        Some(i) => Some(revealed(store.rows[i], store.session)),
        None => None,
    }
}

/// Whether `secret` is a sealing of `text` under `pin`.
pub open spec fn sealed_as(secret: SecretView, text: Seq<char>, pin: Seq<char>) -> bool {
    secret matches SecretView::Sealed { ciphertext, nonce } && seals(ciphertext, nonce, text, pin)
}

/// Why saving `profile` is refused, if it is: an encrypted store needs a PIN
/// that has been set and is cached, secrets short enough for the cipher,
/// and, like an unencrypted one, an id for a row that is new.
pub open spec fn save_failure(pre: StoreView, profile: ApiInfoView) -> Option<Failure> {
    match pre.shape {
        TableShape::Missing | TableShape::Unrecognized => None,
        TableShape::Unencrypted => if has_room(pre.rows, profile) {
            None
        } else {
            Some(Failure::StorageError("No profile id is left"@))
        },
        TableShape::Encrypted => if pre.settings is None || pre.session is None {
            Some(Failure::AuthRequired)
        } else if !sealable(encode_utf8(profile.api_key)) {
            Some(Failure::StorageError("Failed to encrypt API key"@))
        } else if !sealable(encode_utf8(profile.api_secret)) {
            Some(Failure::StorageError("Failed to encrypt API secret"@))
        } else if has_room(pre.rows, profile) {
            None
        } else {
            Some(Failure::StorageError("No profile id is left"@))
        },
    }
}

/// Whether `post` is what saving `profile` makes of `pre`.
///
/// Without a usable table the store is set up afresh, unencrypted, with
/// the profile as its one entry. Otherwise the profile is upserted by name:
/// in the clear into an unencrypted table, and into an encrypted one with
/// key and secret sealed under the cached PIN.
pub open spec fn saved(pre: StoreView, post: StoreView, profile: ApiInfoView) -> bool {
    match pre.shape {
        TableShape::Missing | TableShape::Unrecognized => post == (StoreView {
            shape: TableShape::Unencrypted,
            rows: sole_plain(profile),
            ..pre
        }),
        TableShape::Unencrypted => post == (StoreView {
            rows: upserted(
                pre.rows,
                profile,
                SecretView::Plain(profile.api_key),
                SecretView::Plain(profile.api_secret),
            ),
            ..pre
        }),
        TableShape::Encrypted => {
            let at = saved_index(pre.rows, profile.profile_name);
            &&& pre.session matches Some(pin)
            &&& 0 <= at < post.rows.len()
            &&& sealed_as(post.rows[at].api_key, profile.api_key, pin)
            &&& sealed_as(post.rows[at].api_secret, profile.api_secret, pin)
            &&& post == (StoreView {
                rows: upserted(
                    pre.rows,
                    profile,
                    post.rows[at].api_key,
                    post.rows[at].api_secret,
                ),
                ..pre
            })
        },
    }
}

/// Whether a listing is in ascending order of name.
pub open spec fn sorted_by_name(list: Seq<ApiInfoView>) -> bool {
    forall|i: int, j: int|
        0 <= i < j < list.len() ==> name_lt(
            (#[trigger] list[i]).profile_name,
            (#[trigger] list[j]).profile_name,
        )
}

/// Whether some entry of `list` shows `row`.
pub open spec fn shown_in(list: Seq<ApiInfoView>, row: RowView) -> bool {
    exists|i: int| 0 <= i < list.len() && #[trigger] list[i] == listed(row)
}

/// Whether `entry` shows some row of `rows`.
pub open spec fn taken_from(rows: Seq<RowView>, entry: ApiInfoView) -> bool {
    exists|j: int| 0 <= j < rows.len() && listed(#[trigger] rows[j]) == entry
}

/// Whether `list` is the listing of `rows`: every stored profile once, as
/// a listing shows it, in ascending order of name.
pub open spec fn lists(rows: Seq<RowView>, list: Seq<ApiInfoView>) -> bool {
    &&& list.len() == rows.len()
    &&& sorted_by_name(list)
    &&& forall|i: int| 0 <= i < list.len() ==> taken_from(rows, #[trigger] list[i])
    &&& forall|j: int| 0 <= j < rows.len() ==> shown_in(list, #[trigger] rows[j])
}

/// Whether `new` is `old` with key and secret sealed anew under `pin`: the
/// texts sealed are those that `old` discloses to `session`.
pub open spec fn resealed(old: RowView, new: RowView, session: Option<Seq<char>>, pin: Seq<char>) -> bool {
    &&& sealed_as(new.api_key, disclosed(old.api_key, session), pin)
    &&& sealed_as(new.api_secret, disclosed(old.api_secret, session), pin)
    &&& new == (RowView { api_key: new.api_key, api_secret: new.api_secret, ..old })
}

/// Whether `new` holds the rows of `old`, each sealed anew under `pin`.
pub open spec fn all_resealed(
    old: Seq<RowView>,
    new: Seq<RowView>,
    session: Option<Seq<char>>,
    pin: Seq<char>,
) -> bool {
    &&& new.len() == old.len()
    &&& forall|i: int| 0 <= i < old.len() ==> resealed(old[i], #[trigger] new[i], session, pin)
}

/// Whether the cipher can seal what `row` discloses to `session`.
pub open spec fn can_reseal(row: RowView, session: Option<Seq<char>>) -> bool {
    &&& sealable(encode_utf8(disclosed(row.api_key, session)))
    &&& sealable(encode_utf8(disclosed(row.api_secret, session)))
}

pub open spec fn all_can_reseal(rows: Seq<RowView>, session: Option<Seq<char>>) -> bool {
    forall|i: int| 0 <= i < rows.len() ==> can_reseal(#[trigger] rows[i], session)
}

/// Whether `staged` is what sealing stops with when a row cannot be
/// sealed: the rows before the first such row, sealed, and no more.
pub open spec fn reseal_stopped(
    old: Seq<RowView>,
    staged: Seq<RowView>,
    session: Option<Seq<char>>,
    pin: Seq<char>,
) -> bool {
    &&& staged.len() < old.len()
    &&& all_resealed(old.take(staged.len() as int), staged, session, pin)
    &&& !can_reseal(old[staged.len() as int], session)
}

/// Whether `post` has a salt wherever `pre` has settings: an empty salt is
/// replaced by a fresh one, anything else is left as it is.
pub open spec fn salt_ensured(pre: Option<SettingsView>, post: Option<SettingsView>) -> bool {
    match pre {
        None => post is None,
        Some(before) => if before.pin_salt.len() == 0 {
            post matches Some(after) && after.password_hash == before.password_hash
                && after.pin_salt.len() == SALT_LEN
        } else {
            post == pre
        },
    }
}

/// Whether `post` is what one run of the migration under `pin` makes of
/// `pre`, and `done` whether that run reports success.
///
/// A store without a plaintext table is left as it is. Otherwise a salt is
/// ensured; then, if every secret can be sealed, the table becomes the
/// encrypted one, holding every row under its id with key and secret
/// sealed under `pin`, and no table in the making remains. If some secret
/// cannot be sealed, the plaintext table stays untouched and the table in
/// the making holds the rows sealed before that one.
pub open spec fn migrated(pre: StoreView, post: StoreView, pin: Seq<char>, done: bool) -> bool {
    if !(pre.shape is Unencrypted) {
        done && post == pre
    } else if all_can_reseal(pre.rows, None) {
        &&& done
        &&& salt_ensured(pre.settings, post.settings)
        &&& all_resealed(pre.rows, post.rows, None, pin)
        &&& post == (StoreView {
            settings: post.settings,
            shape: TableShape::Encrypted,
            rows: post.rows,
            staging: None,
            ..pre
        })
    } else {
        &&& !done
        &&& salt_ensured(pre.settings, post.settings)
        &&& post.staging matches Some(staged) && reseal_stopped(pre.rows, staged, None, pin)
        &&& post == (StoreView { settings: post.settings, staging: post.staging, ..pre })
    }
}

/// Whether `post` and `res` are what verifying `pin` makes of `pre`.
///
/// Without a PIN hash, or with a PIN the hash does not accept, the answer
/// is `false` and nothing changes; a hash that is no PHC string is a
/// `HashingError`, and nothing changes. An accepted PIN is cached, one run
/// of the migration under it follows, whose failure is not reported, and
/// the key derived from the PIN and the salt found at the start is kept;
/// if that derivation fails, the call reports a `HashingError` although
/// the PIN is cached.
pub open spec fn verified(pre: StoreView, post: StoreView, pin: Seq<char>, res: Result<bool, Failure>) -> bool {
    match pre.settings {
        None => res == Ok::<bool, Failure>(false) && post == pre,
        Some(settings) => match argon2_verify(settings.password_hash, pin) {
            None => res == Err::<bool, Failure>(Failure::HashingError) && post == pre,
            Some(false) => res == Ok::<bool, Failure>(false) && post == pre,
            Some(true) => {
                let unlocked = StoreView { session: Some(pin), ..pre };
                let moved = StoreView { pin_key: pre.pin_key, ..post };
                &&& migrated(unlocked, moved, pin, true) || migrated(unlocked, moved, pin, false)
                &&& match argon2_hash_of(pin, settings.pin_salt) {
                    Some((_, Some(key))) => res == Ok::<bool, Failure>(true) && post.pin_key
                        == Some(key),
                    _ => res == Err::<bool, Failure>(Failure::HashingError) && post.pin_key
                        == pre.pin_key,
                }
            },
        },
    }
}

/// The text of the failure that names the profile whose secrets could not
/// be sealed again.
pub open spec fn reseal_failure_text(profile_name: Seq<char>) -> Seq<char> {
    "Failed to save API info for profile '"@ + profile_name + "'"@
}

/// Whether row `i` is the first whose secrets cannot be sealed again.
pub open spec fn stuck_at(rows: Seq<RowView>, session: Option<Seq<char>>, i: int) -> bool {
    &&& 0 <= i < rows.len()
    &&& !can_reseal(rows[i], session)
    &&& forall|j: int| 0 <= j < i ==> can_reseal(#[trigger] rows[j], session)
}

/// Whether `post` and `res` are what sealing the store again for `new_pin`
/// makes of `mid`, with `new_hash` as the new PIN's hash.
///
/// The change is all or nothing. A store without settings is refused with
/// `AuthRequired`. In an encrypted store every row is sealed under the new
/// PIN with what it discloses to the session; the first row whose secrets
/// the cipher cannot take stops the change with a `StorageError` that names
/// its profile. Otherwise the change succeeds: `new_hash` replaces the old
/// hash, the salt stays, the derived key is forgotten, and the new PIN is
/// the session's.
pub open spec fn rehashed(
    mid: StoreView,
    post: StoreView,
    new_pin: Seq<char>,
    new_hash: Seq<char>,
    res: Result<(), Failure>,
) -> bool {
    match mid.settings {
        None => post == mid && res == Err::<(), Failure>(Failure::AuthRequired),
        Some(before) => if mid.shape is Encrypted && !all_can_reseal(mid.rows, mid.session) {
            &&& post == mid
            &&& res matches Err(Failure::StorageError(text))
            &&& exists|i: int| #[trigger]
                stuck_at(mid.rows, mid.session, i) && text == reseal_failure_text(
                    mid.rows[i].profile_name,
                )
        } else {
            &&& res is Ok
            &&& post.settings == Some(
                SettingsView { password_hash: new_hash, pin_salt: before.pin_salt },
            )
            &&& if mid.shape is Encrypted {
                all_resealed(mid.rows, post.rows, mid.session, new_pin)
            } else {
                post.rows == mid.rows
            }
            &&& post == (StoreView {
                settings: post.settings,
                rows: post.rows,
                session: Some(new_pin),
                pin_key: None,
                ..mid
            })
        },
    }
}

/// Whether `hash` is a hash of `new_pin`, fresh and accepting it, with
/// which the store was sealed again.
pub open spec fn rehashed_with(
    mid: StoreView,
    post: StoreView,
    new_pin: Seq<char>,
    hash: Seq<char>,
    res: Result<(), Failure>,
) -> bool {
    &&& fresh_hash(new_pin, hash)
    &&& argon2_verify(hash, new_pin) == Some(true)
    &&& rehashed(mid, post, new_pin, hash, res)
}

/// Whether `post` and `res` are what changing the PIN to `new_pin` makes
/// of `mid`, the store as it stands once the current PIN has been verified.
///
/// The new PIN is hashed under a salt drawn for the purpose. If the hashing
/// is refused under that salt, nothing changes and the result is a
/// `HashingError`. Otherwise the store is sealed again with the hash that
/// came out, as [`rehashed`] says.
pub open spec fn repinned(
    mid: StoreView,
    post: StoreView,
    new_pin: Seq<char>,
    res: Result<(), Failure>,
) -> bool {
    ||| hash_refused(new_pin) && post == mid && res == Err::<(), Failure>(Failure::HashingError)
    ||| exists|hash: Seq<char>| #[trigger] rehashed_with(mid, post, new_pin, hash, res)
}

/// Whether `post` and `res` are what `update_pin` makes of `pre`: the
/// current PIN is verified as by `verify_pin`, with all that entails, and
/// only if it is accepted does the change of PIN follow.
pub open spec fn pin_updated(
    pre: StoreView,
    post: StoreView,
    current_pin: Seq<char>,
    new_pin: Seq<char>,
    res: Result<(), Failure>,
) -> bool {
    ||| verified(pre, post, current_pin, Err(Failure::HashingError)) && res == Err::<(), Failure>(
        Failure::HashingError,
    )
    ||| verified(pre, post, current_pin, Ok(false)) && res == Err::<(), Failure>(
        Failure::InvalidCredential,
    )
    ||| exists|mid: StoreView| #[trigger]
        verified(pre, mid, current_pin, Ok(true)) && store_wf(mid) && repinned(
            mid,
            post,
            new_pin,
            res,
        )
}

/// The store as it is taken into use: a plaintext table gets the table
/// that will replace it set up beside it, unless that exists already.
pub open spec fn prepared(store: StoreView) -> StoreView {
    StoreView {
        staging: if store.shape is Unencrypted && store.staging is None {
            Some(Seq::empty())
        } else {
            store.staging
        },
        ..store
    }
}

} // verus!
