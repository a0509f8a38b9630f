//! The credential store: named connection profiles with exactly one
//! default, kept in the clear during first-run setup and encrypted under the
//! PIN from the first successful verification on.

use vstd::prelude::*;
use vstd::string::StringExecFns;

use crate::cipher::{decrypt_string, encrypt_string};
use crate::crypto::{
    argon2_check, argon2_hash, argon2_verify, fresh_hash, generate_salt, hash_refused,
    hashes_to, refuses, SALT_LEN,
};
use crate::error::{outcome, Failure, StoreError};
use crate::invariants::{
    fits, lemma_after_delete_wf, lemma_default_index, lemma_index_of, lemma_sole_plain_wf,
    lemma_upserted_wf, lemma_with_default_wf,
};
use crate::model::{
    after_delete, all_can_reseal, all_plain, all_resealed, all_sealed, can_reseal, default_index,
    flagged, has_name, has_room, ids_unique, index_of, is_plain, is_sealed, lists, max_id, migrated,
    min_id_at, named_at, names_unique, one_default, pin_updated, prefs_for, prefs_of, prefs_without,
    only_default, prepared, rehashed, rehashed_with, repaired, repinned, stuck_at, table_sound, promoted, reseal_failure_text, reseal_stopped, resealed, save_failure, saved,
    saved_row, schema_state, selected, shown_in, sole_default, sole_plain, sorted_by_name, store_wf,
    table_wf, taken_from, upserted, usable, verified, with_default, PreferenceView, SchemaState,
    SettingsView, StoreView, TableShape,
};
use crate::pin_cache::PinCache;
pub use crate::profile::{ApiInfo, DashboardWidgetPref};
use crate::profile::{
    disclosed, listed, revealed, rows_view, ApiInfoView, RowView, Secret, StoredProfile,
    WidgetPrefView,
};
use crate::text::{
    copy_bytes, lemma_bytes_lt_transitive, lemma_name_lt_total, name_less, name_lt, same_text,
};

verus! {

/// The singleton settings row: the PIN's hash and the key-derivation salt.
#[derive(Debug, PartialEq, Eq)]
pub struct AppSettings {
    pub password_hash: String,
    pub pin_salt: String,
}

impl View for AppSettings {
    type V = SettingsView;

    open spec fn view(&self) -> SettingsView {
        SettingsView { password_hash: self.password_hash@, pin_salt: self.pin_salt@ }
    }
}

/// One row of the dashboard preference table.
#[derive(Debug, PartialEq, Eq)]
pub struct PreferenceRow {
    pub profile_id: i64,
    pub pref: DashboardWidgetPref,
}

impl View for PreferenceRow {
    type V = PreferenceView;

    open spec fn view(&self) -> PreferenceView {
        PreferenceView { profile_id: self.profile_id, pref: self.pref@ }
    }
}

/// The preference rows as mathematical values, in stored order.
pub open spec fn prefs_view(prefs: Seq<PreferenceRow>) -> Seq<PreferenceView> {
    prefs.map_values(|p: PreferenceRow| p@)
}

/// The profiles of a result as mathematical values.
pub open spec fn infos_view(infos: Seq<ApiInfo>) -> Seq<ApiInfoView> {
    infos.map_values(|p: ApiInfo| p@)
}

/// The widget preferences of a result as mathematical values.
pub open spec fn widgets_view(prefs: Seq<DashboardWidgetPref>) -> Seq<WidgetPrefView> {
    prefs.map_values(|p: DashboardWidgetPref| p@)
}

/// What is persisted of the store: the value that is written to and read
/// back from disk.
#[derive(Debug, PartialEq, Eq)]
pub struct StoreSnapshot {
    pub first_run_done: bool,
    pub settings: Option<AppSettings>,
    pub shape: TableShape,
    pub rows: Vec<StoredProfile>,
    pub staging: Option<Vec<StoredProfile>>,
    pub preferences: Vec<PreferenceRow>,
}

impl View for StoreSnapshot {
    type V = StoreView;

    open spec fn view(&self) -> StoreView {
        StoreView {
            first_run_done: self.first_run_done,
            settings: match self.settings {
                Some(s) => Some(s@),
                None => None,
            },
            shape: self.shape,
            rows: rows_view(self.rows@),
            staging: match self.staging {
                Some(staged) => Some(rows_view(staged@)),
                None => None,
            },
            preferences: prefs_view(self.preferences@),
            session: None,
            pin_key: None,
        }
    }
}

/// The credential store together with the session that unlocks it.
pub struct Database {
    store: StoreSnapshot,
    pin_cache: PinCache,
    current_pin_key: Option<Vec<u8>>,
}

impl View for Database {
    type V = StoreView;

    closed spec fn view(&self) -> StoreView {
        StoreView {
            session: self.pin_cache@,
            pin_key: match self.current_pin_key {
                Some(key) => Some(key@),
                None => None,
            },
            ..self.store@
        }
    }
}

/// The name a caller selects a profile by, as a mathematical value.
pub open spec fn name_view(name: Option<&str>) -> Option<Seq<char>> {
    match name {
        Some(n) => Some(n@),
        None => None,
    }
}

fn copy_secret(secret: &Secret) -> (copy: Secret)
    ensures
        copy@ == secret@,
{
    match secret {
        Secret::Plain(text) => Secret::Plain(text.clone()),
        Secret::Sealed { ciphertext, nonce } => Secret::Sealed {
            ciphertext: copy_bytes(ciphertext),
            nonce: copy_bytes(nonce),
        },
    }
}

fn copy_row(row: &StoredProfile, is_default: bool) -> (copy: StoredProfile)
    ensures
        copy@ == flagged(row@, is_default),
{
    StoredProfile {
        id: row.id,
        profile_name: row.profile_name.clone(),
        api_key: copy_secret(&row.api_key),
        api_secret: copy_secret(&row.api_secret),
        api_url: row.api_url.clone(),
        port: row.port,
        is_default,
    }
}

fn copy_rows(rows: &Vec<StoredProfile>) -> (copy: Vec<StoredProfile>)
    ensures
        rows_view(copy@) == rows_view(rows@),
{
    let mut copy: Vec<StoredProfile> = Vec::new();
    let mut i: usize = 0;
    while i < rows.len()
        invariant
            i <= rows.len(),
            copy.len() == i,
            forall|j: int| 0 <= j < i ==> (#[trigger] copy[j])@ == rows[j]@,
        decreases rows.len() - i,
    {
        copy.push(copy_row(&rows[i], rows[i].is_default));
        i = i + 1;
    }
    assert(rows_view(copy@) =~= rows_view(rows@));
    copy
}

fn find_name(rows: &Vec<StoredProfile>, name: &str) -> (found: Option<usize>)
    ensures
        match found {
            Some(i) => named_at(rows_view(rows@), name@, i as int),
            None => !has_name(rows_view(rows@), name@),
        },
{
    let mut i: usize = 0;
    while i < rows.len()
        invariant
            i <= rows.len(),
            forall|j: int| 0 <= j < i ==> !named_at(rows_view(rows@), name@, j),
        decreases rows.len() - i,
    {
        if same_text(rows[i].profile_name.as_str(), name) {
            return Some(i);
        }
        i = i + 1;
    }
    None
}

fn find_default(rows: &Vec<StoredProfile>) -> (found: Option<usize>)
    ensures
        match found {
            Some(i) => i < rows.len() && rows[i as int].is_default && forall|j: int|
                0 <= j < i ==> !(#[trigger] rows[j]).is_default,
            None => forall|j: int| 0 <= j < rows.len() ==> !(#[trigger] rows[j]).is_default,
        },
{
    let mut i: usize = 0;
    while i < rows.len()
        invariant
            i <= rows.len(),
            forall|j: int| 0 <= j < i ==> !(#[trigger] rows[j]).is_default,
        decreases rows.len() - i,
    {
        if rows[i].is_default {
            return Some(i);
        }
        i = i + 1;
    }
    None
}

fn rows_with_default(rows: &Vec<StoredProfile>, name: &str) -> (out: Vec<StoredProfile>)
    ensures
        rows_view(out@) == with_default(rows_view(rows@), name@),
{
    let mut out: Vec<StoredProfile> = Vec::new();
    let mut i: usize = 0;
    while i < rows.len()
        invariant
            i <= rows.len(),
            out.len() == i,
            forall|j: int|
                0 <= j < i ==> (#[trigger] out[j])@ == flagged(
                    rows[j]@,
                    rows[j]@.profile_name == name@,
                ),
        decreases rows.len() - i,
    {
        let flag = same_text(rows[i].profile_name.as_str(), name);
        out.push(copy_row(&rows[i], flag));
        i = i + 1;
    }
    assert(rows_view(out@) =~= with_default(rows_view(rows@), name@));
    out
}

fn rows_without(rows: &Vec<StoredProfile>, at: usize) -> (out: Vec<StoredProfile>)
    requires
        at < rows.len(),
    ensures
        rows_view(out@) == rows_view(rows@).remove(at as int),
{
    let mut out: Vec<StoredProfile> = Vec::new();
    let mut i: usize = 0;
    while i < rows.len()
        invariant
            i <= rows.len(),
            at < rows.len(),
            out.len() == if i <= at {
                i as int
            } else {
                i - 1
            },
            forall|j: int|
                0 <= j < out.len() ==> (#[trigger] out[j])@ == rows[if j < at {
                    j
                } else {
                    j + 1
                }]@,
        decreases rows.len() - i,
    {
        if i != at {
            out.push(copy_row(&rows[i], rows[i].is_default));
        }
        i = i + 1;
    }
    assert(rows_view(out@) =~= rows_view(rows@).remove(at as int));
    out
}

fn min_id_index(rows: &Vec<StoredProfile>) -> (k: usize)
    requires
        rows.len() > 0,
    ensures
        min_id_at(rows_view(rows@), k as int),
{
    let mut k: usize = 0;
    let mut i: usize = 1;
    while i < rows.len()
        invariant
            1 <= i <= rows.len(),
            k < i,
            forall|j: int| 0 <= j < i ==> rows[k as int].id <= (#[trigger] rows[j]).id,
        decreases rows.len() - i,
    {
        if rows[i].id < rows[k].id {
            k = i;
        }
        i = i + 1;
    }
    assert forall|j: int| 0 <= j < rows_view(rows@).len() implies rows_view(rows@)[k as int].id <= (
    #[trigger] rows_view(rows@)[j]).id by {
        assert(rows[k as int].id <= rows[j].id);
    }
    k
}

fn rows_promoted(rows: &Vec<StoredProfile>, k: usize) -> (out: Vec<StoredProfile>)
    ensures
        rows_view(out@) == promoted(rows_view(rows@), k as int),
{
    let mut out: Vec<StoredProfile> = Vec::new();
    let mut i: usize = 0;
    while i < rows.len()
        invariant
            i <= rows.len(),
            out.len() == i,
            forall|j: int|
                0 <= j < i ==> (#[trigger] out[j])@ == flagged(
                    rows[j]@,
                    rows[j].is_default || j == k,
                ),
        decreases rows.len() - i,
    {
        out.push(copy_row(&rows[i], rows[i].is_default || i == k));
        i = i + 1;
    }
    assert(rows_view(out@) =~= promoted(rows_view(rows@), k as int));
    out
}

proof fn lemma_min_id_unique(rows: Seq<RowView>, a: int, b: int)
    requires
        ids_unique(rows),
        min_id_at(rows, a),
        min_id_at(rows, b),
    ensures
        a == b,
{
    assert(rows[a].id <= rows[b].id);
    assert(rows[b].id <= rows[a].id);
    if a < b {
        assert(rows[a].id != rows[b].id);
    } else if b < a {
        assert(rows[b].id != rows[a].id);
    }
}

fn rows_after_delete(rows: &Vec<StoredProfile>, at: usize) -> (out: Vec<StoredProfile>)
    requires
        at < rows.len(),
        rows.len() > 1,
        ids_unique(rows_view(rows@)),
    ensures
        rows_view(out@) == after_delete(rows_view(rows@), at as int),
{
    let rest = rows_without(rows, at);
    assert(rows_view(rest@).len() == rows_view(rows@).len() - 1);
    if rows[at].is_default {
        let k = min_id_index(&rest);
        proof {
            let before = rows_view(rows@);
            let spec_rest = before.remove(at as int);
            assert forall|a: int, b: int| 0 <= a < b < spec_rest.len() implies (
            #[trigger] spec_rest[a]).id != (#[trigger] spec_rest[b]).id by {
                let sa = if a < at {
                    a
                } else {
                    a + 1
                };
                let sb = if b < at {
                    b
                } else {
                    b + 1
                };
                assert(spec_rest[a] == before[sa] && spec_rest[b] == before[sb]);
                assert(before[sa].id != before[sb].id);
            }
            let chosen = choose|k: int| min_id_at(spec_rest, k);
            lemma_min_id_unique(spec_rest, k as int, chosen);
        }
        rows_promoted(&rest, k)
    } else {
        rest
    }
}

fn prefs_excluding(prefs: &Vec<PreferenceRow>, profile_id: i64) -> (out: Vec<PreferenceRow>)
    ensures
        prefs_view(out@) == prefs_without(prefs_view(prefs@), profile_id),
{
    let mut out: Vec<PreferenceRow> = Vec::new();
    let mut i: usize = 0;
    proof {
        reveal(Seq::filter);
        assert(prefs_view(prefs@).take(0) =~= Seq::empty());
        assert(prefs_view(out@) =~= prefs_without(prefs_view(prefs@).take(0), profile_id));
    }
    while i < prefs.len()
        invariant
            i <= prefs.len(),
            prefs_view(out@) == prefs_without(prefs_view(prefs@).take(i as int), profile_id),
        decreases prefs.len() - i,
    {
        proof {
            reveal(Seq::filter);
            let all = prefs_view(prefs@);
            assert(all.take(i + 1).drop_last() =~= all.take(i as int));
            assert(all.take(i + 1).last() == all[i as int]);
        }
        let ghost before = prefs_view(out@);
        if prefs[i].profile_id != profile_id {
            out.push(PreferenceRow { profile_id: prefs[i].profile_id, pref: prefs[i].pref.clone() });
            assert(prefs_view(out@) =~= before.push(prefs_view(prefs@)[i as int]));
        }
        i = i + 1;
    }
    assert(prefs_view(prefs@).take(prefs.len() as int) =~= prefs_view(prefs@));
    out
}

/// The PIN as the optional text the disclosure rules speak of.
pub open spec fn pin_view(pin: Option<String>) -> Option<Seq<char>> {
    match pin {
        Some(p) => Some(p@),
        None => None,
    }
}

fn reveal_secret(secret: &Secret, pin: &Option<String>) -> (text: String)
    ensures
        text@ == disclosed(secret@, pin_view(*pin)),
{
    match secret {
        Secret::Plain(plain) => plain.clone(),
        Secret::Sealed { ciphertext, nonce } => match pin {
            Some(p) => match decrypt_string(ciphertext.as_slice(), nonce.as_slice(), p.as_str()) {
                Ok(plain) => plain,
                Err(_) => String::new(),
            },
            None => String::new(),
        },
    }
}

fn reveal_row(row: &StoredProfile, pin: &Option<String>) -> (profile: ApiInfo)
    ensures
        profile@ == revealed(row@, pin_view(*pin)),
{
    ApiInfo {
        id: row.id,
        profile_name: row.profile_name.clone(),
        api_key: reveal_secret(&row.api_key, pin),
        api_secret: reveal_secret(&row.api_secret, pin),
        api_url: row.api_url.clone(),
        port: row.port,
        is_default: row.is_default,
    }
}

fn max_id_of(rows: &Vec<StoredProfile>) -> (max: i64)
    ensures
        max == max_id(rows_view(rows@)),
{
    let mut max: i64 = 0;
    let mut i: usize = 0;
    assert(rows_view(rows@).take(0) =~= Seq::empty());
    while i < rows.len()
        invariant
            i <= rows.len(),
            max == max_id(rows_view(rows@).take(i as int)),
        decreases rows.len() - i,
    {
        proof {
            let all = rows_view(rows@);
            assert(all.take(i + 1).drop_last() =~= all.take(i as int));
            assert(all.take(i + 1).last() == all[i as int]);
        }
        if rows[i].id > max {
            max = rows[i].id;
        }
        i = i + 1;
    }
    assert(rows_view(rows@).take(rows.len() as int) =~= rows_view(rows@));
    max
}

fn new_row(profile: &ApiInfo, id: i64, api_key: &Secret, api_secret: &Secret, is_default: bool) -> (row:
    StoredProfile)
    ensures
        row@ == saved_row(profile@, id, api_key@, api_secret@, is_default),
{
    StoredProfile {
        id,
        profile_name: profile.profile_name.clone(),
        api_key: copy_secret(api_key),
        api_secret: copy_secret(api_secret),
        api_url: profile.api_url.clone(),
        port: profile.port,
        is_default,
    }
}

fn rows_upserted(rows: &Vec<StoredProfile>, profile: &ApiInfo, api_key: &Secret, api_secret: &Secret) -> (out:
    Option<Vec<StoredProfile>>)
    requires
        names_unique(rows_view(rows@)),
    ensures
        match out {
            Some(v) => has_room(rows_view(rows@), profile@) && rows_view(v@) == upserted(
                rows_view(rows@),
                profile@,
                api_key@,
                api_secret@,
            ),
            None => !has_room(rows_view(rows@), profile@),
        },
{
    let found = find_name(rows, profile.profile_name.as_str());
    let ghost before = rows_view(rows@);
    let mut out: Vec<StoredProfile> = Vec::new();
    match found {
        Some(at) => {
            proof {
                lemma_index_of(before, profile@.profile_name, at as int);
            }
            let flag = profile.is_default || rows[at].is_default;
            let mut i: usize = 0;
            while i < rows.len()
                invariant
                    i <= rows.len(),
                    at < rows.len(),
                    out.len() == i,
                    before == rows_view(rows@),
                    flag == (profile.is_default || rows[at as int].is_default),
                    forall|j: int|
                        0 <= j < i ==> (#[trigger] out[j])@ == if j == at {
                            saved_row(profile@, before[at as int].id, api_key@, api_secret@, flag)
                        } else {
                            flagged(before[j], before[j].is_default && !flag)
                        },
                decreases rows.len() - i,
            {
                if i == at {
                    out.push(new_row(profile, rows[at].id, api_key, api_secret, flag));
                } else {
                    out.push(copy_row(&rows[i], rows[i].is_default && !flag));
                }
                i = i + 1;
            }
            assert(rows_view(out@) =~= upserted(before, profile@, api_key@, api_secret@));
            Some(out)
        },
        None => {
            let max = max_id_of(rows);
            if max == i64::MAX {
                return None;
            }
            let id = max + 1;
            let flag = profile.is_default || rows.len() == 0;
            let mut i: usize = 0;
            while i < rows.len()
                invariant
                    i <= rows.len(),
                    out.len() == i,
                    before == rows_view(rows@),
                    forall|j: int|
                        0 <= j < i ==> (#[trigger] out[j])@ == flagged(
                            before[j],
                            before[j].is_default && !flag,
                        ),
                decreases rows.len() - i,
            {
                out.push(copy_row(&rows[i], rows[i].is_default && !flag));
                i = i + 1;
            }
            out.push(new_row(profile, id, api_key, api_secret, flag));
            assert(rows_view(out@) =~= upserted(before, profile@, api_key@, api_secret@));
            Some(out)
        },
    }
}

fn list_secret(secret: &Secret) -> (text: String)
    ensures
        text@ == crate::profile::listed_secret(secret@),
{
    match secret {
        Secret::Plain(plain) => plain.clone(),
        Secret::Sealed { .. } => String::new(),
    }
}

fn list_row(row: &StoredProfile) -> (profile: ApiInfo)
    ensures
        profile@ == listed(row@),
{
    ApiInfo {
        id: row.id,
        profile_name: row.profile_name.clone(),
        api_key: list_secret(&row.api_key),
        api_secret: list_secret(&row.api_secret),
        api_url: row.api_url.clone(),
        port: row.port,
        is_default: row.is_default,
    }
}

/// Inserting a profile where the names before it are smaller and the
/// name after it is larger keeps a listing in order.
proof fn lemma_sorted_insert(before: Seq<ApiInfoView>, p: int, item: ApiInfoView)
    requires
        sorted_by_name(before),
        0 <= p <= before.len(),
        forall|q: int| 0 <= q < p ==> name_lt((#[trigger] before[q]).profile_name, item.profile_name),
        p < before.len() ==> name_lt(item.profile_name, before[p].profile_name),
    ensures
        sorted_by_name(before.insert(p, item)),
{
    let after = before.insert(p, item);
    assert forall|i: int, j: int| 0 <= i < j < after.len() implies name_lt(
        (#[trigger] after[i]).profile_name,
        (#[trigger] after[j]).profile_name,
    ) by {
        if j < p {
            assert(after[i] == before[i] && after[j] == before[j]);
        } else if j == p {
            assert(after[i] == before[i]);
        } else {
            assert(after[j] == before[j - 1]);
            if j - 1 > p {
                assert(name_lt(before[p].profile_name, before[j - 1].profile_name));
                lemma_bytes_lt_transitive(
                    vstd::utf8::encode_utf8(item.profile_name),
                    vstd::utf8::encode_utf8(before[p].profile_name),
                    vstd::utf8::encode_utf8(before[j - 1].profile_name),
                );
            }
            assert(name_lt(item.profile_name, before[j - 1].profile_name));
            if i < p {
                assert(after[i] == before[i]);
                lemma_bytes_lt_transitive(
                    vstd::utf8::encode_utf8(before[i].profile_name),
                    vstd::utf8::encode_utf8(item.profile_name),
                    vstd::utf8::encode_utf8(before[j - 1].profile_name),
                );
            } else if i > p {
                assert(after[i] == before[i - 1]);
            }
        }
    }
}

/// Whether `src` and `dst` match the first `r` rows with the entries of
/// `list`, one to one: entry `i` shows row `src[i]`, and row `j` is shown
/// by entry `dst[j]`.
spec fn matched(rows: Seq<RowView>, list: Seq<ApiInfoView>, r: int, src: Seq<int>, dst: Seq<int>) -> bool {
    &&& list.len() == r
    &&& src.len() == r
    &&& dst.len() == r
    &&& forall|i: int| 0 <= i < r ==> 0 <= #[trigger] src[i] < r && list[i] == listed(rows[src[i]])
    &&& forall|j: int| 0 <= j < r ==> 0 <= #[trigger] dst[j] < r && list[dst[j]] == listed(rows[j])
}

/// A match of all rows is a listing apart from the order.
proof fn lemma_matched_lists(rows: Seq<RowView>, list: Seq<ApiInfoView>, src: Seq<int>, dst: Seq<int>)
    requires
        matched(rows, list, rows.len() as int, src, dst),
        sorted_by_name(list),
    ensures
        lists(rows, list),
{
    assert forall|i: int| 0 <= i < list.len() implies taken_from(rows, #[trigger] list[i]) by {
        let j = src[i];
        assert(0 <= j < rows.len() && listed(rows[j]) == list[i]);
    }
    assert forall|j: int| 0 <= j < rows.len() implies shown_in(list, #[trigger] rows[j]) by {
        let i = dst[j];
        assert(0 <= i < list.len() && list[i] == listed(rows[j]));
    }
}

/// Inserting the listing of row `r` at `p` extends a match of the first
/// `r` rows to one of the first `r + 1`.
proof fn lemma_matched_insert(
    rows: Seq<RowView>,
    list: Seq<ApiInfoView>,
    r: int,
    src: Seq<int>,
    dst: Seq<int>,
    p: int,
) -> (next: (Seq<int>, Seq<int>))
    requires
        matched(rows, list, r, src, dst),
        0 <= r < rows.len(),
        0 <= p <= r,
    ensures
        matched(rows, list.insert(p, listed(rows[r])), r + 1, next.0, next.1),
{
    let after = list.insert(p, listed(rows[r]));
    let src2 = src.insert(p, r);
    let dst2 = Seq::new(
        (r + 1) as nat,
        |j: int|
            if j == r {
                p
            } else if dst[j] >= p {
                dst[j] + 1
            } else {
                dst[j]
            },
    );
    assert forall|i: int| 0 <= i < r + 1 implies 0 <= #[trigger] src2[i] < r + 1 && after[i]
        == listed(rows[src2[i]]) by {
        if i < p {
            assert(src2[i] == src[i] && after[i] == list[i]);
        } else if i > p {
            assert(src2[i] == src[i - 1] && after[i] == list[i - 1]);
        }
    }
    assert forall|j: int| 0 <= j < r + 1 implies 0 <= #[trigger] dst2[j] < r + 1 && after[dst2[j]]
        == listed(rows[j]) by {
        if j < r {
            let d = dst[j];
            if d >= p {
                assert(after[d + 1] == list[d]);
            } else {
                assert(after[d] == list[d]);
            }
        }
    }
    (src2, dst2)
}

fn rows_listed(rows: &Vec<StoredProfile>) -> (list: Vec<ApiInfo>)
    requires
        names_unique(rows_view(rows@)),
    ensures
        lists(rows_view(rows@), infos_view(list@)),
{
    let ghost all = rows_view(rows@);
    let ghost mut src: Seq<int> = Seq::empty();
    let ghost mut dst: Seq<int> = Seq::empty();
    let mut list: Vec<ApiInfo> = Vec::new();
    let mut r: usize = 0;
    while r < rows.len()
        invariant
            r <= rows.len(),
            all == rows_view(rows@),
            names_unique(all),
            sorted_by_name(infos_view(list@)),
            matched(all, infos_view(list@), r as int, src, dst),
        decreases rows.len() - r,
    {
        let item = list_row(&rows[r]);
        let ghost before = infos_view(list@);
        let mut p: usize = 0;
        while p < list.len() && name_less(list[p].profile_name.as_str(), item.profile_name.as_str())
            invariant
                p <= list.len(),
                before == infos_view(list@),
                forall|q: int|
                    0 <= q < p ==> name_lt(
                        (#[trigger] before[q]).profile_name,
                        item@.profile_name,
                    ),
            decreases list.len() - p,
        {
            p = p + 1;
        }
        proof {
            if p < list.len() {
                let k = src[p as int];
                assert(before[p as int] == listed(all[k]));
                assert(all[k].profile_name != all[r as int].profile_name);
                lemma_name_lt_total(before[p as int].profile_name, item@.profile_name);
            }
            lemma_sorted_insert(before, p as int, item@);
            let next = lemma_matched_insert(all, before, r as int, src, dst, p as int);
            src = next.0;
            dst = next.1;
        }
        list.insert(p, item);
        assert(infos_view(list@) =~= before.insert(p as int, listed(all[r as int])));
        r = r + 1;
    }
    proof {
        lemma_matched_lists(all, infos_view(list@), src, dst);
    }
    list
}

/// Seals every row anew under `pin`, stopping at the first row whose
/// secrets the cipher cannot take.
fn reseal_rows(rows: &Vec<StoredProfile>, session: &Option<String>, pin: &str) -> (out: (
    Vec<StoredProfile>,
    bool,
))
    ensures
        all_sealed(rows_view(out.0@)),
        out.1 ==> all_can_reseal(rows_view(rows@), pin_view(*session)) && all_resealed(
            rows_view(rows@),
            rows_view(out.0@),
            pin_view(*session),
            pin@,
        ),
        !out.1 ==> reseal_stopped(rows_view(rows@), rows_view(out.0@), pin_view(*session), pin@),
        !out.1 ==> stuck_at(rows_view(rows@), pin_view(*session), out.0.len() as int),
{
    let ghost all = rows_view(rows@);
    let ghost who = pin_view(*session);
    let mut staged: Vec<StoredProfile> = Vec::new();
    let mut i: usize = 0;
    while i < rows.len()
        invariant
            i <= rows.len(),
            all == rows_view(rows@),
            who == pin_view(*session),
            staged.len() == i,
            all_sealed(rows_view(staged@)),
            forall|j: int| 0 <= j < i ==> can_reseal(#[trigger] all[j], who),
            forall|j: int|
                0 <= j < i ==> resealed(all[j], #[trigger] rows_view(staged@)[j], who, pin@),
        decreases rows.len() - i,
    {
        let row = &rows[i];
        let key_text = reveal_secret(&row.api_key, session);
        let secret_text = reveal_secret(&row.api_secret, session);
        let ghost before = rows_view(staged@);
        let key = match encrypt_string(key_text.as_str(), pin) {
            Ok((ciphertext, nonce)) => Secret::Sealed { ciphertext, nonce },
            Err(_) => {
                proof {
                    assert(all.take(i as int) =~= all.take(staged.len() as int));
                    assert forall|j: int| 0 <= j < i implies resealed(
                        all.take(i as int)[j],
                        #[trigger] before[j],
                        who,
                        pin@,
                    ) by {}
                }
                return (staged, false);
            },
        };
        let secret = match encrypt_string(secret_text.as_str(), pin) {
            Ok((ciphertext, nonce)) => Secret::Sealed { ciphertext, nonce },
            Err(_) => {
                proof {
                    assert forall|j: int| 0 <= j < i implies resealed(
                        all.take(i as int)[j],
                        #[trigger] before[j],
                        who,
                        pin@,
                    ) by {}
                }
                return (staged, false);
            },
        };
        staged.push(
            StoredProfile {
                id: row.id,
                profile_name: row.profile_name.clone(),
                api_key: key,
                api_secret: secret,
                api_url: row.api_url.clone(),
                port: row.port,
                is_default: row.is_default,
            },
        );
        proof {
            let after = rows_view(staged@);
            assert(after =~= before.push(staged[i as int]@));
            assert forall|j: int| 0 <= j < i + 1 implies resealed(
                all[j],
                #[trigger] after[j],
                who,
                pin@,
            ) by {
                if j < i {
                    assert(after[j] == before[j]);
                }
            }
            assert forall|j: int| 0 <= j < after.len() implies is_sealed(#[trigger] after[j]) by {
                if j < i {
                    assert(after[j] == before[j]);
                    assert(is_sealed(before[j]));
                }
            }
        }
        i = i + 1;
    }
    (staged, true)
}

/// Resealing keeps names, ids and default flags, and so the table's
/// invariant, now that of an encrypted table.
proof fn lemma_resealed_wf(
    shape: TableShape,
    old: Seq<RowView>,
    new: Seq<RowView>,
    session: Option<Seq<char>>,
    pin: Seq<char>,
)
    requires
        table_wf(shape, old),
        shape is Unencrypted || shape is Encrypted,
        all_resealed(old, new, session, pin),
    ensures
        table_wf(TableShape::Encrypted, new),
{
    assert forall|i: int| 0 <= i < new.len() implies is_sealed(#[trigger] new[i]) by {
        assert(resealed(old[i], new[i], session, pin));
    }
    assert forall|i: int, j: int| 0 <= i < j < new.len() implies (#[trigger] new[i]).profile_name
        != (#[trigger] new[j]).profile_name by {
        assert(resealed(old[i], new[i], session, pin));
        assert(resealed(old[j], new[j], session, pin));
        assert(old[i].profile_name != old[j].profile_name);
    }
    assert forall|i: int, j: int| 0 <= i < j < new.len() implies (#[trigger] new[i]).id != (
    #[trigger] new[j]).id by {
        assert(resealed(old[i], new[i], session, pin));
        assert(resealed(old[j], new[j], session, pin));
        assert(old[i].id != old[j].id);
    }
    if new.len() > 0 {
        let d = default_index(old);
        assert(sole_default(old, d));
        assert forall|j: int| 0 <= j < new.len() implies ((#[trigger] new[j]).is_default <==> j
            == d) by {
            assert(resealed(old[j], new[j], session, pin));
            assert(old[j].is_default <==> j == d);
        }
        assert(sole_default(new, d));
    }
}

fn prefs_selected(prefs: &Vec<PreferenceRow>, profile_id: i64) -> (out: Vec<DashboardWidgetPref>)
    ensures
        widgets_view(out@) == prefs_of(prefs_view(prefs@), profile_id),
{
    let mut out: Vec<DashboardWidgetPref> = Vec::new();
    let mut i: usize = 0;
    let ghost all = prefs_view(prefs@);
    let ghost keep = |p: PreferenceView| p.profile_id == profile_id;
    proof {
        reveal(Seq::filter);
        assert(all.take(0) =~= Seq::empty());
        assert(widgets_view(out@) =~= prefs_of(all.take(0), profile_id));
    }
    while i < prefs.len()
        invariant
            i <= prefs.len(),
            all == prefs_view(prefs@),
            keep == (|p: PreferenceView| p.profile_id == profile_id),
            widgets_view(out@) == prefs_of(all.take(i as int), profile_id),
        decreases prefs.len() - i,
    {
        proof {
            reveal(Seq::filter);
            assert(all.take(i + 1).drop_last() =~= all.take(i as int));
            assert(all.take(i + 1).last() == all[i as int]);
        }
        let ghost before = widgets_view(out@);
        let ghost kept = all.take(i as int).filter(keep);
        if prefs[i].profile_id == profile_id {
            out.push(prefs[i].pref.clone());
            proof {
                assert(all.take(i + 1).filter(keep) == kept.push(all[i as int]));
                assert(widgets_view(out@) =~= before.push(all[i as int].pref));
                assert(prefs_of(all.take(i + 1), profile_id) =~= before.push(all[i as int].pref));
            }
        } else {
            proof {
                assert(all.take(i + 1).filter(keep) == kept);
            }
        }
        i = i + 1;
    }
    assert(all.take(prefs.len() as int) =~= all);
    out
}

fn prefs_appended(kept: Vec<PreferenceRow>, profile_id: i64, prefs: &[DashboardWidgetPref]) -> (out:
    Vec<PreferenceRow>)
    ensures
        prefs_view(out@) == prefs_view(kept@) + prefs_for(widgets_view(prefs@), profile_id),
{
    let mut out = kept;
    let ghost start = prefs_view(out@);
    let ghost added = prefs_for(widgets_view(prefs@), profile_id);
    let mut i: usize = 0;
    assert(prefs_view(out@) =~= start + added.take(0));
    while i < prefs.len()
        invariant
            i <= prefs.len(),
            added == prefs_for(widgets_view(prefs@), profile_id),
            prefs_view(out@) == start + added.take(i as int),
        decreases prefs.len() - i,
    {
        let ghost before = prefs_view(out@);
        out.push(PreferenceRow { profile_id, pref: prefs[i].clone() });
        proof {
            assert(prefs_view(out@) =~= before.push(added[i as int]));
            assert(start + added.take(i + 1) =~= (start + added.take(i as int)).push(
                added[i as int],
            ));
        }
        i = i + 1;
    }
    assert(added.take(prefs.len() as int) =~= added);
    out
}

fn rows_all_plain(rows: &Vec<StoredProfile>) -> (yes: bool)
    ensures
        yes == all_plain(rows_view(rows@)),
{
    let mut i: usize = 0;
    while i < rows.len()
        invariant
            i <= rows.len(),
            forall|j: int| 0 <= j < i ==> is_plain(#[trigger] rows_view(rows@)[j]),
        decreases rows.len() - i,
    {
        let plain = match (&rows[i].api_key, &rows[i].api_secret) {
            (Secret::Plain(_), Secret::Plain(_)) => true,
            _ => false,
        };
        if !plain {
            assert(!is_plain(rows_view(rows@)[i as int]));
            return false;
        }
        i = i + 1;
    }
    true
}

fn rows_all_sealed(rows: &Vec<StoredProfile>) -> (yes: bool)
    ensures
        yes == all_sealed(rows_view(rows@)),
{
    let mut i: usize = 0;
    while i < rows.len()
        invariant
            i <= rows.len(),
            forall|j: int| 0 <= j < i ==> is_sealed(#[trigger] rows_view(rows@)[j]),
        decreases rows.len() - i,
    {
        let sealed = match (&rows[i].api_key, &rows[i].api_secret) {
            (Secret::Sealed { .. }, Secret::Sealed { .. }) => true,
            _ => false,
        };
        if !sealed {
            assert(!is_sealed(rows_view(rows@)[i as int]));
            return false;
        }
        i = i + 1;
    }
    true
}

fn rows_names_unique(rows: &Vec<StoredProfile>) -> (yes: bool)
    ensures
        yes == names_unique(rows_view(rows@)),
{
    let ghost all = rows_view(rows@);
    let mut i: usize = 0;
    while i < rows.len()
        invariant
            i <= rows.len(),
            all == rows_view(rows@),
            forall|a: int, b: int|
                0 <= a < i && a < b < all.len() ==> (#[trigger] all[a]).profile_name != (
                #[trigger] all[b]).profile_name,
        decreases rows.len() - i,
    {
        let mut j: usize = i + 1;
        while j < rows.len()
            invariant
                i < j <= rows.len(),
                all == rows_view(rows@),
                forall|b: int|
                    i < b < j ==> all[i as int].profile_name != (#[trigger] all[b]).profile_name,
            decreases rows.len() - j,
        {
            if same_text(rows[i].profile_name.as_str(), rows[j].profile_name.as_str()) {
                assert(all[i as int].profile_name == all[j as int].profile_name);
                return false;
            }
            j = j + 1;
        }
        i = i + 1;
    }
    true
}

fn rows_ids_unique(rows: &Vec<StoredProfile>) -> (yes: bool)
    ensures
        yes == ids_unique(rows_view(rows@)),
{
    let ghost all = rows_view(rows@);
    let mut i: usize = 0;
    while i < rows.len()
        invariant
            i <= rows.len(),
            all == rows_view(rows@),
            forall|a: int, b: int|
                0 <= a < i && a < b < all.len() ==> (#[trigger] all[a]).id != (#[trigger] all[b]).id,
        decreases rows.len() - i,
    {
        let mut j: usize = i + 1;
        while j < rows.len()
            invariant
                i < j <= rows.len(),
                all == rows_view(rows@),
                forall|b: int| i < b < j ==> all[i as int].id != (#[trigger] all[b]).id,
            decreases rows.len() - j,
        {
            if rows[i].id == rows[j].id {
                assert(all[i as int].id == all[j as int].id);
                return false;
            }
            j = j + 1;
        }
        i = i + 1;
    }
    true
}

fn rows_one_default(rows: &Vec<StoredProfile>) -> (yes: bool)
    ensures
        yes == one_default(rows_view(rows@)),
{
    let ghost all = rows_view(rows@);
    match find_default(rows) {
        None => {
            proof {
                if one_default(all) {
                    let d = default_index(all);
                    assert(sole_default(all, d));
                    assert(all[d].is_default);
                    assert(rows[d].is_default);
                }
            }
            false
        },
        Some(first) => {
            let mut j: usize = first + 1;
            while j < rows.len()
                invariant
                    first < j <= rows.len(),
                    all == rows_view(rows@),
                    rows[first as int].is_default,
                    forall|b: int| 0 <= b < first ==> !(#[trigger] rows[b]).is_default,
                    forall|b: int| first < b < j ==> !(#[trigger] rows[b]).is_default,
                decreases rows.len() - j,
            {
                if rows[j].is_default {
                    proof {
                        if one_default(all) {
                            let d = default_index(all);
                            assert(sole_default(all, d));
                            assert(all[first as int].is_default <==> first == d);
                            assert(all[j as int].is_default <==> j == d);
                        }
                    }
                    return false;
                }
                j = j + 1;
            }
            proof {
                assert forall|b: int| 0 <= b < all.len() implies ((#[trigger] all[b]).is_default
                    <==> b == first) by {
                    assert(all[b].is_default == rows[b].is_default);
                }
                assert(sole_default(all, first as int));
            }
            true
        },
    }
}

fn table_is_sound(shape: TableShape, rows: &Vec<StoredProfile>) -> (yes: bool)
    ensures
        yes == table_sound(shape, rows_view(rows@)),
{
    let fits_shape = match shape {
        TableShape::Missing | TableShape::Unrecognized => rows.len() == 0,
        TableShape::Unencrypted => rows_all_plain(rows),
        TableShape::Encrypted => rows_all_sealed(rows),
    };
    fits_shape && rows_names_unique(rows) && rows_ids_unique(rows)
}

fn rows_only_default(rows: &Vec<StoredProfile>, k: usize) -> (out: Vec<StoredProfile>)
    ensures
        rows_view(out@) == only_default(rows_view(rows@), k as int),
{
    let mut out: Vec<StoredProfile> = Vec::new();
    let mut i: usize = 0;
    while i < rows.len()
        invariant
            i <= rows.len(),
            out.len() == i,
            forall|j: int| 0 <= j < i ==> (#[trigger] out[j])@ == flagged(rows[j]@, j == k),
        decreases rows.len() - i,
    {
        out.push(copy_row(&rows[i], i == k));
        i = i + 1;
    }
    assert(rows_view(out@) =~= only_default(rows_view(rows@), k as int));
    out
}

/// Rows with the flag on one row only meet the table's invariant if they
/// are sound.
proof fn lemma_only_default_wf(shape: TableShape, rows: Seq<RowView>, k: int)
    requires
        table_sound(shape, rows),
        0 <= k < rows.len(),
    ensures
        table_wf(shape, only_default(rows, k)),
{
    let out = only_default(rows, k);
    assert(sole_default(out, k));
    assert forall|i: int, j: int| 0 <= i < j < out.len() implies (#[trigger] out[i]).profile_name
        != (#[trigger] out[j]).profile_name by {
        assert(rows[i].profile_name != rows[j].profile_name);
    }
    assert forall|i: int, j: int| 0 <= i < j < out.len() implies (#[trigger] out[i]).id != (
    #[trigger] out[j]).id by {
        assert(rows[i].id != rows[j].id);
    }
    if shape is Unencrypted {
        assert forall|i: int| 0 <= i < out.len() implies is_plain(#[trigger] out[i]) by {
            assert(is_plain(rows[i]));
        }
    }
    if shape is Encrypted {
        assert forall|i: int| 0 <= i < out.len() implies is_sealed(#[trigger] out[i]) by {
            assert(is_sealed(rows[i]));
        }
    }
}

fn rows_repaired(shape: TableShape, rows: Vec<StoredProfile>) -> (out: Vec<StoredProfile>)
    requires
        table_sound(shape, rows_view(rows@)),
    ensures
        rows_view(out@) == repaired(rows_view(rows@)),
        table_wf(shape, rows_view(out@)),
{
    if rows.len() == 0 || rows_one_default(&rows) {
        return rows;
    }
    let k = min_id_index(&rows);
    proof {
        let all = rows_view(rows@);
        let chosen = choose|c: int| min_id_at(all, c);
        lemma_min_id_unique(all, k as int, chosen);
        lemma_only_default_wf(shape, all, k as int);
    }
    rows_only_default(&rows, k)
}

fn copy_prefs(prefs: &Vec<PreferenceRow>) -> (copy: Vec<PreferenceRow>)
    ensures
        prefs_view(copy@) == prefs_view(prefs@),
{
    let mut copy: Vec<PreferenceRow> = Vec::new();
    let mut i: usize = 0;
    while i < prefs.len()
        invariant
            i <= prefs.len(),
            copy.len() == i,
            forall|j: int| 0 <= j < i ==> (#[trigger] copy[j])@ == prefs[j]@,
        decreases prefs.len() - i,
    {
        copy.push(PreferenceRow { profile_id: prefs[i].profile_id, pref: prefs[i].pref.clone() });
        i = i + 1;
    }
    assert(prefs_view(copy@) =~= prefs_view(prefs@));
    copy
}

impl Database {
    /// The store's invariant: the profile table fits its shape, names and
    /// ids are unique, any profiles have exactly one default among them, and
    /// a table in the making holds sealed rows only.
    pub open spec fn wf(&self) -> bool {
        store_wf(self@)
    }

    /// A store that holds nothing, with nobody authenticated.
    pub fn new() -> (db: Self)
        ensures
            db.wf(),
            db@ == (StoreView {
                first_run_done: false,
                settings: None,
                shape: TableShape::Missing,
                rows: Seq::empty(),
                staging: None,
                preferences: Seq::empty(),
                session: None,
                pin_key: None,
            }),
    {
        let db = Database {
            store: StoreSnapshot {
                first_run_done: false,
                settings: None,
                shape: TableShape::Missing,
                rows: Vec::new(),
                staging: None,
                preferences: Vec::new(),
            },
            pin_cache: PinCache::new(),
            current_pin_key: None,
        };
        assert(db@.rows =~= Seq::empty());
        assert(db@.preferences =~= Seq::empty());
        db
    }

    /// Takes into use what was read back from disk, with nobody
    /// authenticated. Data that is not sound (a name or an id twice, rows
    /// that do not fit the table's shape) is refused with a `StorageError`.
    /// Default flags are put right: profiles that do not have exactly one
    /// default among them get the one with the smallest id as theirs.
    pub fn open(snapshot: StoreSnapshot) -> (res: Result<Database, StoreError>)
        ensures
            match res {
                Ok(db) => usable(snapshot@) && db.wf() && db@ == prepared(
                    StoreView { rows: repaired(snapshot@.rows), ..snapshot@ },
                ),
                Err(e) => !usable(snapshot@) && e@ == Failure::StorageError(
                    "Stored profiles are inconsistent"@,
                ),
            },
    {
        let staging_ok = match &snapshot.staging {
            Some(staged) => rows_all_sealed(staged),
            None => true,
        };
        if !staging_ok || !table_is_sound(snapshot.shape, &snapshot.rows) {
            return Err(StoreError::StorageError("Stored profiles are inconsistent".to_owned()));
        }
        let StoreSnapshot { first_run_done, settings, shape, rows, staging, preferences } = snapshot;
        let rows = rows_repaired(shape, rows);
        let mut db = Database {
            store: StoreSnapshot { first_run_done, settings, shape, rows, staging, preferences },
            pin_cache: PinCache::new(),
            current_pin_key: None,
        };
        db.migrate_data();
        Ok(db)
    }

    /// Caches `pin` as the session's PIN, replacing whatever was cached.
    /// The PIN is not verified: a PIN that does not open the store's
    /// secrets makes reads return them empty.
    pub fn set_session(&mut self, pin: String)
        ensures
            final(self)@ == (StoreView { session: Some(pin@), ..old(self)@ }),
    {
        self.pin_cache.set_pin(pin);
    }

    /// Locks the store: the cached PIN and the key derived from it are
    /// forgotten. Until the next accepted verification an encrypted store
    /// reads its secrets as empty and refuses to save.
    pub fn clear_session(&mut self)
        ensures
            final(self)@ == (StoreView { session: None, pin_key: None, ..old(self)@ }),
    {
        self.pin_cache.clear_pin();
        self.current_pin_key = None;
    }

    /// A copy of what is to be persisted. The cached PIN and the derived
    /// key are not part of it.
    pub fn snapshot(&self) -> (copy: StoreSnapshot)
        ensures
            copy@ == (StoreView { session: None, pin_key: None, ..self@ }),
    {
        StoreSnapshot {
            first_run_done: self.store.first_run_done,
            settings: match &self.store.settings {
                Some(settings) => Some(
                    AppSettings {
                        password_hash: settings.password_hash.clone(),
                        pin_salt: settings.pin_salt.clone(),
                    },
                ),
                None => None,
            },
            shape: self.store.shape,
            rows: copy_rows(&self.store.rows),
            staging: match &self.store.staging {
                Some(staged) => Some(copy_rows(staged)),
                None => None,
            },
            preferences: copy_prefs(&self.store.preferences),
        }
    }

    /// True until first-run setup has been marked complete.
    pub fn is_first_run(&self) -> (res: Result<bool, StoreError>)
        ensures
            res matches Ok(first) && first == !self@.first_run_done,
    {
        Ok(!self.store.first_run_done)
    }

    /// Marks first-run setup complete.
    pub fn set_has_run(&mut self) -> (res: Result<(), StoreError>)
        ensures
            res is Ok,
            final(self)@ == (StoreView { first_run_done: true, ..old(self)@ }),
    {
        self.store.first_run_done = true;
        Ok(())
    }

    /// Makes the profile named `profile_name` the default and no other.
    /// Fails with `NotFound`, changing nothing, when no profile goes by
    /// that name.
    pub fn set_default_profile(&mut self, profile_name: &str) -> (res: Result<(), StoreError>)
        requires
            old(self).wf(),
        ensures
            final(self).wf(),
            has_name(old(self)@.rows, profile_name@) ==> res is Ok && final(self)@ == (StoreView {
                rows: with_default(old(self)@.rows, profile_name@),
                ..old(self)@
            }),
            !has_name(old(self)@.rows, profile_name@) ==> final(self)@ == old(self)@ && (
            res matches Err(e) && e@ == Failure::NotFound),
    {
        match find_name(&self.store.rows, profile_name) {
            None => Err(StoreError::NotFound),
            Some(_) => {
                proof {
                    lemma_with_default_wf(self@.shape, self@.rows, profile_name@);
                }
                let rows = rows_with_default(&self.store.rows, profile_name);
                self.store.rows = rows;
                Ok(())
            },
        }
    }

    /// Deletes the profile named `profile_name` together with its dashboard
    /// preferences. The last profile is never deleted: with one profile or
    /// none the call fails with `LastProfile`, and with `NotFound` when
    /// several exist but none by that name; either way nothing changes. If
    /// the deleted profile was the default, the remaining profile with the
    /// smallest id takes its place.
    pub fn delete_api_profile(&mut self, profile_name: &str) -> (res: Result<(), StoreError>)
        requires
            old(self).wf(),
        ensures
            final(self).wf(),
            old(self)@.rows.len() <= 1 ==> final(self)@ == old(self)@ && (res matches Err(e) && e@
                == Failure::LastProfile),
            old(self)@.rows.len() > 1 && !has_name(old(self)@.rows, profile_name@) ==> final(self)@
                == old(self)@ && (res matches Err(e) && e@ == Failure::NotFound),
            old(self)@.rows.len() > 1 && has_name(old(self)@.rows, profile_name@) ==> res is Ok
                && final(self)@ == (StoreView {
                rows: after_delete(old(self)@.rows, index_of(old(self)@.rows, profile_name@)),
                preferences: prefs_without(
                    old(self)@.preferences,
                    old(self)@.rows[index_of(old(self)@.rows, profile_name@)].id,
                ),
                ..old(self)@
            }),
    {
        if self.store.rows.len() <= 1 {
            return Err(StoreError::LastProfile);
        }
        match find_name(&self.store.rows, profile_name) {
            None => Err(StoreError::NotFound),
            Some(at) => {
                proof {
                    lemma_index_of(self@.rows, profile_name@, at as int);
                    lemma_after_delete_wf(self@.shape, self@.rows, at as int);
                }
                let profile_id = self.store.rows[at].id;
                let preferences = prefs_excluding(&self.store.preferences, profile_id);
                let rows = rows_after_delete(&self.store.rows, at);
                self.store.preferences = preferences;
                self.store.rows = rows;
                Ok(())
            },
        }
    }

    /// First-run setup: whatever profile table exists is replaced by an
    /// unencrypted one that holds `api_info` alone, as the default, under
    /// id 1. The default flag the caller sends is not consulted. Calling
    /// it again with the same profile changes nothing further.
    pub fn save_initial_api_info(&mut self, api_info: &ApiInfo) -> (res: Result<(), StoreError>)
        requires
            old(self).wf(),
        ensures
            final(self).wf(),
            res is Ok,
            final(self)@ == (StoreView {
                shape: TableShape::Unencrypted,
                rows: sole_plain(api_info@),
                ..old(self)@
            }),
    {
        let key = Secret::Plain(api_info.api_key.clone());
        let secret = Secret::Plain(api_info.api_secret.clone());
        let mut rows: Vec<StoredProfile> = Vec::new();
        rows.push(new_row(api_info, 1, &key, &secret, true));
        proof {
            lemma_sole_plain_wf(api_info@);
            assert(rows_view(rows@) =~= sole_plain(api_info@));
        }
        self.store.shape = TableShape::Unencrypted;
        self.store.rows = rows;
        Ok(())
    }

    /// Saves a profile under its name: an existing profile of that name is
    /// updated and keeps its id, a new one is added with the next free id.
    ///
    /// Where no usable table exists, an unencrypted one is set up with the
    /// profile as its only entry. In an encrypted store key and secret are
    /// sealed under the cached PIN, and the call fails with `AuthRequired`
    /// when no PIN has been set or none is cached. The saved profile
    /// becomes the default when the caller asks for it or the table was
    /// empty, and stays the default if it was; every other profile then
    /// ceases to be. A refused save changes nothing.
    pub fn save_api_info(&mut self, api_info: &ApiInfo) -> (res: Result<(), StoreError>)
        requires
            old(self).wf(),
        ensures
            final(self).wf(),
            match save_failure(old(self)@, api_info@) {
                Some(failure) => final(self)@ == old(self)@ && (res matches Err(e) && e@
                    == failure),
                None => res is Ok && saved(old(self)@, final(self)@, api_info@),
            },
    {
        match self.store.shape {
            TableShape::Missing | TableShape::Unrecognized => self.save_initial_api_info(api_info),
            TableShape::Unencrypted => {
                let key = Secret::Plain(api_info.api_key.clone());
                let secret = Secret::Plain(api_info.api_secret.clone());
                match rows_upserted(&self.store.rows, api_info, &key, &secret) {
                    Some(rows) => {
                        proof {
                            lemma_upserted_wf(
                                self@.shape,
                                self@.rows,
                                api_info@,
                                key@,
                                secret@,
                            );
                        }
                        self.store.rows = rows;
                        Ok(())
                    },
                    None => Err(StoreError::StorageError("No profile id is left".to_owned())),
                }
            },
            TableShape::Encrypted => {
                if self.store.settings.is_none() {
                    return Err(StoreError::AuthRequired);
                }
                let pin = match self.pin_cache.get_pin() {
                    Some(pin) => pin,
                    None => {
                        return Err(StoreError::AuthRequired);
                    },
                };
                let key = match encrypt_string(api_info.api_key.as_str(), pin.as_str()) {
                    Ok((ciphertext, nonce)) => Secret::Sealed { ciphertext, nonce },
                    Err(_) => {
                        return Err(
                            StoreError::StorageError("Failed to encrypt API key".to_owned()),
                        );
                    },
                };
                let secret = match encrypt_string(api_info.api_secret.as_str(), pin.as_str()) {
                    Ok((ciphertext, nonce)) => Secret::Sealed { ciphertext, nonce },
                    Err(_) => {
                        return Err(
                            StoreError::StorageError("Failed to encrypt API secret".to_owned()),
                        );
                    },
                };
                match rows_upserted(&self.store.rows, api_info, &key, &secret) {
                    Some(rows) => {
                        proof {
                            lemma_upserted_wf(
                                self@.shape,
                                self@.rows,
                                api_info@,
                                key@,
                                secret@,
                            );
                        }
                        self.store.rows = rows;
                        Ok(())
                    },
                    None => Err(StoreError::StorageError("No profile id is left".to_owned())),
                }
            },
        }
    }

    /// Lists every profile, in ascending order of name. An unencrypted
    /// store shows key and secret as stored; an encrypted one shows them
    /// blank, whether or not a PIN is cached: only a single read decrypts.
    pub fn list_api_profiles(&self) -> (res: Result<Vec<ApiInfo>, StoreError>)
        requires
            self.wf(),
        ensures
            res matches Ok(list) && lists(self@.rows, infos_view(list@)),
    {
        Ok(rows_listed(&self.store.rows))
    }

    /// Where the store stands between plaintext and encrypted storage.
    pub fn schema_state(&self) -> (state: SchemaState)
        ensures
            state == schema_state(self@),
    {
        match self.store.shape {
            TableShape::Missing => SchemaState::NoTable,
            TableShape::Unencrypted => if self.store.staging.is_some() {
                SchemaState::Migrating
            } else {
                SchemaState::Unencrypted
            },
            TableShape::Encrypted => SchemaState::Encrypted,
            TableShape::Unrecognized => SchemaState::Unrecognized,
        }
    }

    /// Hashes a PIN with Argon2 under the salt given: the hash is what
    /// Argon2 makes of PIN and salt, and accepts the PIN; where Argon2
    /// refuses PIN or salt the result is a `HashingError`.
    pub fn hash_password_with(password: &str, salt: &str) -> (res: Result<String, StoreError>)
        ensures
            match res {
                Ok(hash) => hashes_to(password@, salt@, hash@) && argon2_verify(hash@, password@)
                    == Some(true),
                Err(e) => refuses(password@, salt@) && e@ == Failure::HashingError,
            },
    {
        match argon2_hash(password, salt) {
            Ok((phc, _)) => Ok(phc),
            Err(_) => Err(StoreError::HashingError),
        }
    }

    /// Hashes a PIN with Argon2 under a salt drawn for this call: the
    /// result is what [`Self::hash_password_with`] makes of the PIN and
    /// some salt of twenty-two characters. A hash that comes back accepts
    /// the PIN it was made from.
    pub fn hash_password(password: &str) -> (res: Result<String, StoreError>)
        ensures
            match res {
                Ok(hash) => fresh_hash(password@, hash@) && argon2_verify(hash@, password@)
                    == Some(true),
                Err(e) => hash_refused(password@) && e@ == Failure::HashingError,
            },
    {
        let salt = generate_salt();
        match Self::hash_password_with(password, salt.as_str()) {
            Ok(hash) => {
                assert(hashes_to(password@, salt@, hash@));
                Ok(hash)
            },
            Err(e) => {
                assert(refuses(password@, salt@));
                Err(e)
            },
        }
    }

    /// Tells whether `hash` accepts `password`; a hash that is no PHC
    /// string is a `HashingError`.
    pub fn verify_password(hash: &str, password: &str) -> (res: Result<bool, StoreError>)
        ensures
            outcome(res) == match argon2_verify(hash@, password@) {
                Some(accepted) => Ok::<bool, Failure>(accepted),
                None => Err::<bool, Failure>(Failure::HashingError),
            },
    {
        match argon2_check(hash, password) {
            Ok(accepted) => Ok(accepted),
            Err(_) => Err(StoreError::HashingError),
        }
    }

    /// Replaces the PIN hash, draws a fresh key-derivation salt and forgets
    /// the derived key. The cached PIN is left as it is.
    pub fn update_password_hash(&mut self, new_hash: &str) -> (res: Result<(), StoreError>)
        ensures
            res is Ok,
            final(self)@.settings matches Some(settings) && settings.password_hash == new_hash@
                && settings.pin_salt.len() == SALT_LEN,
            final(self)@ == (StoreView {
                settings: final(self)@.settings,
                pin_key: None,
                ..old(self)@
            }),
    {
        let salt = generate_salt();
        self.store.settings = Some(AppSettings { password_hash: new_hash.to_owned(), pin_salt: salt });
        self.current_pin_key = None;
        Ok(())
    }

    /// Prepares a plaintext table for migration: the table that will
    /// replace it is created, empty, unless it exists already.
    pub fn migrate_data(&mut self)
        ensures
            final(self)@ == (StoreView {
                staging: if old(self)@.shape is Unencrypted && old(self)@.staging is None {
                    Some(Seq::empty())
                } else {
                    old(self)@.staging
                },
                ..old(self)@
            }),
            old(self).wf() ==> final(self).wf(),
    {
        if self.store.staging.is_none() {
            match self.store.shape {
                TableShape::Unencrypted => {
                    let staged: Vec<StoredProfile> = Vec::new();
                    assert(rows_view(staged@) =~= Seq::empty());
                    self.store.staging = Some(staged);
                },
                _ => {},
            }
        }
    }

    /// One run of the migration from plaintext to encrypted storage under
    /// `pin`. A store with no plaintext table is left alone. Otherwise a
    /// salt is ensured, every row is sealed into the table in the making,
    /// which is built afresh on every run, and that table then replaces the
    /// plaintext one. A secret the cipher cannot take stops the run with a
    /// `StorageError` before anything is replaced.
    pub fn complete_migration(&mut self, pin: &str) -> (res: Result<(), StoreError>)
        requires
            old(self).wf(),
        ensures
            final(self).wf(),
            migrated(old(self)@, final(self)@, pin@, res is Ok),
            res matches Err(e) ==> e@ == Failure::StorageError("Encryption failed"@),
    {
        match self.store.shape {
            TableShape::Unencrypted => {},
            _ => {
                return Ok(());
            },
        }
        let fresh = match &self.store.settings {
            Some(settings) => if settings.pin_salt.as_str().is_empty() {
                Some(
                    AppSettings {
                        password_hash: settings.password_hash.clone(),
                        pin_salt: generate_salt(),
                    },
                )
            } else {
                None
            },
            None => None,
        };
        if fresh.is_some() {
            self.store.settings = fresh;
        }
        let session: Option<String> = None;
        let (staged, done) = reseal_rows(&self.store.rows, &session, pin);
        if done {
            proof {
                lemma_resealed_wf(self@.shape, self@.rows, rows_view(staged@), None, pin@);
            }
            self.store.rows = staged;
            self.store.shape = TableShape::Encrypted;
            self.store.staging = None;
            Ok(())
        } else {
            proof {
                let at = staged.len() as int;
                assert(!can_reseal(self@.rows[at], None));
            }
            self.store.staging = Some(staged);
            Err(StoreError::StorageError("Encryption failed".to_owned()))
        }
    }

    /// Checks `pin` against the stored hash. An accepted PIN is cached for
    /// the session, the migration is run under it, and the key derived from
    /// PIN and salt is kept. A failed migration does not change the answer.
    /// A rejected PIN changes nothing, the cache included.
    pub fn verify_pin(&mut self, pin: &str) -> (res: Result<bool, StoreError>)
        requires
            old(self).wf(),
        ensures
            final(self).wf(),
            verified(old(self)@, final(self)@, pin@, outcome(res)),
    {
        let (hash, salt) = match &self.store.settings {
            None => {
                return Ok(false);
            },
            Some(settings) => (settings.password_hash.clone(), settings.pin_salt.clone()),
        };
        match argon2_check(hash.as_str(), pin) {
            Err(_) => Err(StoreError::HashingError),
            Ok(false) => Ok(false),
            Ok(true) => {
                self.pin_cache.set_pin(pin.to_owned());
                let _ = self.complete_migration(pin);
                match argon2_hash(pin, salt.as_str()) {
                    Ok((_, Some(key))) => {
                        self.current_pin_key = Some(key);
                        Ok(true)
                    },
                    _ => Err(StoreError::HashingError),
                }
            },
        }
    }

    /// Seals the store again for `new_pin`, whose hash is `new_hash`. In an
    /// encrypted store every profile is sealed under the new PIN with what
    /// it discloses to the session. Only when that has succeeded for every
    /// profile are hash, rows and session PIN replaced together; a profile
    /// whose secrets the cipher cannot take stops the change with a
    /// `StorageError` that names it, and nothing has changed.
    pub fn reseal_under(&mut self, new_pin: &str, new_hash: String) -> (res: Result<
        (),
        StoreError,
    >)
        requires
            old(self).wf(),
        ensures
            final(self).wf(),
            rehashed(old(self)@, final(self)@, new_pin@, new_hash@, outcome(res)),
    {
        let salt = match &self.store.settings {
            Some(settings) => settings.pin_salt.clone(),
            None => {
                return Err(StoreError::AuthRequired);
            },
        };
        match self.store.shape {
            TableShape::Encrypted => {
                let session = self.pin_cache.get_pin();
                let (staged, done) = reseal_rows(&self.store.rows, &session, new_pin);
                if !done {
                    let failed = &self.store.rows[staged.len()];
                    let mut text = "Failed to save API info for profile '".to_owned();
                    text.append(failed.profile_name.as_str());
                    text.append("'");
                    proof {
                        let at = staged.len() as int;
                        assert(stuck_at(self@.rows, self@.session, at));
                        assert(text@ == reseal_failure_text(self@.rows[at].profile_name));
                    }
                    return Err(StoreError::StorageError(text));
                }
                proof {
                    lemma_resealed_wf(
                        self@.shape,
                        self@.rows,
                        rows_view(staged@),
                        self@.session,
                        new_pin@,
                    );
                }
                self.store.rows = staged;
            },
            _ => {},
        }
        self.store.settings = Some(AppSettings { password_hash: new_hash, pin_salt: salt });
        self.current_pin_key = None;
        self.pin_cache.set_pin(new_pin.to_owned());
        Ok(())
    }

    /// Changes the PIN. The current PIN is verified first, as by
    /// `verify_pin`; a PIN that is not accepted is an `InvalidCredential`.
    /// Then the new PIN is hashed under a fresh salt, and the store is
    /// sealed again with that hash as [`Self::reseal_under`] says: all or
    /// nothing, so a failure leaves no profile under a key other than the
    /// one the stored hash belongs to.
    pub fn update_pin(&mut self, current_pin: &str, new_pin: &str) -> (res: Result<(), StoreError>)
        requires
            old(self).wf(),
        ensures
            final(self).wf(),
            pin_updated(old(self)@, final(self)@, current_pin@, new_pin@, outcome(res)),
    {
        match self.verify_pin(current_pin) {
            Err(e) => {
                return Err(e);
            },
            Ok(false) => {
                return Err(StoreError::InvalidCredential);
            },
            Ok(true) => {},
        }
        let ghost mid = self@;
        assert(verified(old(self)@, mid, current_pin@, Ok(true)));
        let new_hash = match Self::hash_password(new_pin) {
            Ok(hash) => hash,
            Err(e) => {
                assert(repinned(mid, self@, new_pin@, Err(Failure::HashingError)));
                return Err(e);
            },
        };
        let ghost hash = new_hash@;
        let res = self.reseal_under(new_pin, new_hash);
        assert(rehashed_with(mid, self@, new_pin@, hash, outcome(res)));
        res
    }

    /// The dashboard preferences saved for profile `profile_id`, in the
    /// order in which they were saved.
    pub fn get_dashboard_preferences(&self, profile_id: i64) -> (res: Result<
        Vec<DashboardWidgetPref>,
        StoreError,
    >)
        ensures
            res matches Ok(list) && widgets_view(list@) == prefs_of(self@.preferences, profile_id),
    {
        Ok(prefs_selected(&self.store.preferences, profile_id))
    }

    /// Replaces the dashboard preferences of profile `profile_id` by
    /// `preferences`; those of other profiles stay as they are.
    pub fn save_dashboard_preferences(&mut self, profile_id: i64, preferences: &[DashboardWidgetPref]) -> (res:
        Result<(), StoreError>)
        ensures
            res is Ok,
            final(self)@ == (StoreView {
                preferences: prefs_without(old(self)@.preferences, profile_id) + prefs_for(
                    widgets_view(preferences@),
                    profile_id,
                ),
                ..old(self)@
            }),
    {
        let kept = prefs_excluding(&self.store.preferences, profile_id);
        let all = prefs_appended(kept, profile_id, preferences);
        self.store.preferences = all;
        Ok(())
    }

    /// The PIN cached for this session, or `AuthRequired` when there is none.
    pub fn get_cached_pin(&self) -> (res: Result<String, StoreError>)
        ensures
            match res {
                Ok(pin) => self@.session == Some(pin@),
                Err(e) => self@.session is None && e@ == Failure::AuthRequired,
            },
    {
        match self.pin_cache.get_pin() {
            Some(pin) => Ok(pin),
            None => Err(StoreError::AuthRequired),
        }
    }

    /// Reads the profile named `profile_name`, or the default profile when
    /// no name is given; `None` when there is no such profile. In an
    /// encrypted store key and secret are decrypted under the cached PIN; a
    /// field that cannot be decrypted, and every field while no PIN is
    /// cached, comes back as the empty string, which callers must read as
    /// "authenticate again". The call itself never fails.
    pub fn get_api_info(&self, profile_name: Option<&str>) -> (res: Result<
        Option<ApiInfo>,
        StoreError,
    >)
        requires
            self.wf(),
        ensures
            res matches Ok(found) && match found {
                Some(profile) => selected(self@, name_view(profile_name)) == Some(profile@),
                None => selected(self@, name_view(profile_name)) is None,
            },
    {
        let at = match profile_name {
            Some(name) => {
                let found = find_name(&self.store.rows, name);
                proof {
                    if let Some(i) = found {
                        lemma_index_of(self@.rows, name@, i as int);
                    }
                }
                found
            },
            None => {
                let found = find_default(&self.store.rows);
                proof {
                    match found {
                        Some(i) => {
                            let d = default_index(self@.rows);
                            assert(self@.rows.len() > 0);
                            assert(sole_default(self@.rows, d));
                            assert(self@.rows[i as int].is_default);
                            lemma_default_index(self@.rows, i as int);
                        },
                        None => {
                            if one_default(self@.rows) {
                                let d = default_index(self@.rows);
                                assert(sole_default(self@.rows, d));
                                assert(self@.rows[d].is_default);
                                assert(self.store.rows[d].is_default);
                            }
                        },
                    }
                }
                found
            },
        };
        match at {
            None => Ok(None),
            Some(i) => {
                let pin = self.pin_cache.get_pin();
                let row = &self.store.rows[i];
                Ok(Some(reveal_row(row, &pin)))
            },
        }
    }

    /// Reads the default profile.
    pub fn get_default_api_info(&self) -> (res: Result<Option<ApiInfo>, StoreError>)
        requires
            self.wf(),
        ensures
            res matches Ok(found) && match found {
                Some(profile) => selected(self@, None) == Some(profile@),
                None => selected(self@, None) is None,
            },
    {
        self.get_api_info(None)
    }
}

} // verus!
