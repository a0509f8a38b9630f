//! Laws of the credential store, proved over the mathematical model that
//! the operations' contracts are stated in.

use vstd::prelude::*;

use crate::cipher::lemma_round_trip;
use crate::crypto::{argon2_verify, hash_refused};
use crate::error::Failure;
use crate::invariants::{
    lemma_after_delete_wf, lemma_index_of, lemma_sole_plain_wf, lemma_upserted_wf,
    lemma_with_default_wf,
};
use crate::model::{
    after_delete, all_can_reseal, has_name, index_of, is_plain, is_sealed, migrated, named_at,
    one_default, prefs_without, rehashed, rehashed_with, repinned, resealed, save_failure, saved,
    saved_index, selected, selected_index, sole_default, store_wf, with_default, StoreView,
    TableShape,
};
use crate::profile::{disclosed, revealed, ApiInfoView, SecretView};

verus! {

/// One call that changes which profiles exist or which is the default.
pub enum Step {
    Save(ApiInfoView),
    SetDefault(Seq<char>),
    Delete(Seq<char>),
}

/// Whether `post` is what the call `step` makes of `pre`, refused calls
/// included: those leave the store as it was.
pub open spec fn stepped(pre: StoreView, post: StoreView, step: Step) -> bool {
    match step {
        Step::Save(profile) => match save_failure(pre, profile) {
            Some(_) => post == pre,
            None => saved(pre, post, profile),
        },
        Step::SetDefault(name) => if has_name(pre.rows, name) {
            post == (StoreView { rows: with_default(pre.rows, name), ..pre })
        } else {
            post == pre
        },
        Step::Delete(name) => if pre.rows.len() > 1 && has_name(pre.rows, name) {
            post == (StoreView {
                rows: after_delete(pre.rows, index_of(pre.rows, name)),
                preferences: prefs_without(pre.preferences, pre.rows[index_of(pre.rows, name)].id),
                ..pre
            })
        } else {
            post == pre
        },
    }
}

/// Every save, change of default and deletion keeps the store's invariant.
pub proof fn lemma_step_keeps_invariant(pre: StoreView, post: StoreView, step: Step)
    requires
        store_wf(pre),
        stepped(pre, post, step),
    ensures
        store_wf(post),
{
    match step {
        Step::Save(profile) => {
            if save_failure(pre, profile) is None {
                match pre.shape {
                    TableShape::Missing | TableShape::Unrecognized => {
                        lemma_sole_plain_wf(profile);
                    },
                    TableShape::Unencrypted => {
                        lemma_upserted_wf(
                            pre.shape,
                            pre.rows,
                            profile,
                            SecretView::Plain(profile.api_key),
                            SecretView::Plain(profile.api_secret),
                        );
                    },
                    TableShape::Encrypted => {
                        let at = saved_index(pre.rows, profile.profile_name);
                        lemma_upserted_wf(
                            pre.shape,
                            pre.rows,
                            profile,
                            post.rows[at].api_key,
                            post.rows[at].api_secret,
                        );
                    },
                }
            }
        },
        Step::SetDefault(name) => {
            if has_name(pre.rows, name) {
                lemma_with_default_wf(pre.shape, pre.rows, name);
            }
        },
        Step::Delete(name) => {
            if pre.rows.len() > 1 && has_name(pre.rows, name) {
                let at = index_of(pre.rows, name);
                assert(named_at(pre.rows, name, at));
                lemma_after_delete_wf(pre.shape, pre.rows, at);
            }
        },
    }
}

/// Exactly one default: after any sequence of saves, changes of default
/// and deletions, starting from a store that meets its invariant, every
/// state on the way that holds a profile has exactly one default.
pub proof fn lemma_exactly_one_default(states: Seq<StoreView>, steps: Seq<Step>)
    requires
        states.len() == steps.len() + 1,
        store_wf(states[0]),
        forall|i: int| 0 <= i < steps.len() ==> stepped(states[i], states[i + 1], #[trigger] steps[i]),
    ensures
        forall|i: int|
            0 <= i < states.len() ==> store_wf(#[trigger] states[i]) && (states[i].rows.len() > 0
                ==> one_default(states[i].rows)),
    decreases steps.len(),
{
    if steps.len() > 0 {
        let front_states = states.drop_last();
        let front_steps = steps.drop_last();
        assert forall|i: int| 0 <= i < front_steps.len() implies stepped(
            front_states[i],
            front_states[i + 1],
            #[trigger] front_steps[i],
        ) by {
            assert(stepped(states[i], states[i + 1], steps[i]));
        }
        lemma_exactly_one_default(front_states, front_steps);
        let last = steps.len() - 1;
        assert(store_wf(front_states[last]));
        assert(stepped(states[last], states[last + 1], steps[last]));
        lemma_step_keeps_invariant(states[last], states[last + 1], steps[last]);
        assert forall|i: int| 0 <= i < states.len() implies store_wf(#[trigger] states[i]) by {
            if i < states.len() - 1 {
                assert(store_wf(front_states[i]));
            }
        }
    }
}

/// Last-profile guard: deleting from a store with exactly one profile
/// leaves that profile, and everything else, in place.
pub proof fn lemma_last_profile_stays(pre: StoreView, post: StoreView, name: Seq<char>)
    requires
        pre.rows.len() == 1,
        stepped(pre, post, Step::Delete(name)),
    ensures
        post == pre,
{
}

/// Migration is idempotent: a second run reports what the first reported
/// and leaves the profile table exactly as the first run left it; after a
/// successful first run it changes nothing at all.
pub proof fn lemma_migration_idempotent(
    start: StoreView,
    once: StoreView,
    twice: StoreView,
    pin: Seq<char>,
    other_pin: Seq<char>,
    first_done: bool,
    second_done: bool,
)
    requires
        migrated(start, once, pin, first_done),
        migrated(once, twice, other_pin, second_done),
    ensures
        second_done == first_done,
        twice.shape == once.shape,
        twice.rows == once.rows,
        first_done ==> twice == once,
{
}

/// PIN-gated secrecy: while no PIN is cached, a read from an encrypted
/// store yields a profile whose key and secret are empty.
pub proof fn lemma_locked_store_discloses_nothing(store: StoreView, name: Option<Seq<char>>)
    requires
        store_wf(store),
        store.shape is Encrypted,
        store.session is None,
    ensures
        selected(store, name) matches Some(profile) ==> profile.api_key == Seq::<char>::empty()
            && profile.api_secret == Seq::<char>::empty(),
{
    if let Some(i) = selected_index(store.rows, name) {
        match name {
            Some(n) => {
                assert(named_at(store.rows, n, i));
            },
            None => {
                assert(sole_default(store.rows, i));
            },
        }
        assert(is_sealed(store.rows[i]));
    }
}

/// A profile saved is the profile read: after a save that was not
/// refused, a read by name under the same session returns the key, the
/// secret, the address and the port that were saved.
pub proof fn lemma_saved_is_read(pre: StoreView, post: StoreView, profile: ApiInfoView)
    requires
        store_wf(pre),
        save_failure(pre, profile) is None,
        saved(pre, post, profile),
    ensures
        selected(post, Some(profile.profile_name)) matches Some(read) && read.api_key
            == profile.api_key && read.api_secret == profile.api_secret && read.api_url
            == profile.api_url && read.port == profile.port && read.profile_name
            == profile.profile_name,
{
    lemma_step_keeps_invariant(pre, post, Step::Save(profile));
    let name = profile.profile_name;
    match pre.shape {
        TableShape::Missing | TableShape::Unrecognized => {
            assert(named_at(post.rows, name, 0));
            lemma_index_of(post.rows, name, 0);
        },
        TableShape::Unencrypted => {
            let at = saved_index(pre.rows, name);
            if has_name(pre.rows, name) {
                assert(named_at(pre.rows, name, at));
            }
            assert(named_at(post.rows, name, at));
            lemma_index_of(post.rows, name, at);
        },
        TableShape::Encrypted => {
            let at = saved_index(pre.rows, name);
            if has_name(pre.rows, name) {
                assert(named_at(pre.rows, name, at));
            }
            assert(named_at(post.rows, name, at));
            lemma_index_of(post.rows, name, at);
            let pin = pre.session->0;
            match post.rows[at].api_key {
                SecretView::Sealed { ciphertext, nonce } => {
                    lemma_round_trip(ciphertext, nonce, profile.api_key, pin);
                },
                _ => {},
            }
            match post.rows[at].api_secret {
                SecretView::Sealed { ciphertext, nonce } => {
                    lemma_round_trip(ciphertext, nonce, profile.api_secret, pin);
                },
                _ => {},
            }
        },
    }
}

/// Sealing the store again keeps every secret: what a row disclosed to the
/// session before, it discloses under the new PIN.
pub proof fn lemma_reseal_keeps_secrets(
    mid: StoreView,
    post: StoreView,
    new_pin: Seq<char>,
    new_hash: Seq<char>,
    i: int,
)
    requires
        store_wf(mid),
        rehashed(mid, post, new_pin, new_hash, Ok(())),
        0 <= i < mid.rows.len(),
    ensures
        post.rows.len() == mid.rows.len(),
        revealed(post.rows[i], Some(new_pin)) == revealed(mid.rows[i], mid.session),
{
    if mid.shape is Encrypted {
        assert(resealed(mid.rows[i], post.rows[i], mid.session, new_pin));
        match post.rows[i].api_key {
            SecretView::Sealed { ciphertext, nonce } => {
                lemma_round_trip(
                    ciphertext,
                    nonce,
                    disclosed(mid.rows[i].api_key, mid.session),
                    new_pin,
                );
            },
            _ => {},
        }
        match post.rows[i].api_secret {
            SecretView::Sealed { ciphertext, nonce } => {
                lemma_round_trip(
                    ciphertext,
                    nonce,
                    disclosed(mid.rows[i].api_secret, mid.session),
                    new_pin,
                );
            },
            _ => {},
        }
    } else {
        assert(is_plain(mid.rows[i]));
    }
}

/// A change of PIN keeps every secret, and the stored hash accepts the new
/// PIN afterwards: what a row disclosed to the session that held the old
/// PIN, it discloses under the new one.
pub proof fn lemma_repin_keeps_secrets(mid: StoreView, post: StoreView, new_pin: Seq<char>, i: int)
    requires
        store_wf(mid),
        repinned(mid, post, new_pin, Ok(())),
        0 <= i < mid.rows.len(),
    ensures
        post.rows.len() == mid.rows.len(),
        revealed(post.rows[i], Some(new_pin)) == revealed(mid.rows[i], mid.session),
        post.settings matches Some(after) && argon2_verify(after.password_hash, new_pin) == Some(
            true,
        ),
        post.session == Some(new_pin),
{
    let hash = choose|hash: Seq<char>| rehashed_with(mid, post, new_pin, hash, Ok(()));
    assert(rehashed_with(mid, post, new_pin, hash, Ok(())));
    lemma_reseal_keeps_secrets(mid, post, new_pin, hash, i);
}

/// A change of PIN succeeds whenever the new PIN can be hashed and every
/// secret can be sealed again: no result but success meets the contract
/// then.
pub proof fn lemma_repin_succeeds(
    mid: StoreView,
    post: StoreView,
    new_pin: Seq<char>,
    res: Result<(), Failure>,
)
    requires
        repinned(mid, post, new_pin, res),
        mid.settings is Some,
        !hash_refused(new_pin),
        mid.shape is Encrypted ==> all_can_reseal(mid.rows, mid.session),
    ensures
        res is Ok,
{
    let hash = choose|hash: Seq<char>| rehashed_with(mid, post, new_pin, hash, res);
    assert(rehashed_with(mid, post, new_pin, hash, res));
}

/// A locked store refuses to save into an encrypted table: once the
/// session is cleared, saving is an `AuthRequired`, whatever was verified
/// before.
pub proof fn lemma_cleared_session_refuses_saves(store: StoreView, profile: ApiInfoView)
    requires
        store.shape is Encrypted,
        store.session is None,
    ensures
        save_failure(store, profile) == Some(Failure::AuthRequired),
{
}

/// Migration keeps every secret: once the store is encrypted under `pin`,
/// each row discloses to a session that holds `pin` what it held in the
/// clear before.
pub proof fn lemma_migration_keeps_secrets(pre: StoreView, post: StoreView, pin: Seq<char>, i: int)
    requires
        pre.shape is Unencrypted,
        migrated(pre, post, pin, true),
        0 <= i < pre.rows.len(),
    ensures
        post.rows.len() == pre.rows.len(),
        revealed(post.rows[i], Some(pin)) == revealed(pre.rows[i], None),
{
    assert(resealed(pre.rows[i], post.rows[i], None, pin));
    match post.rows[i].api_key {
        SecretView::Sealed { ciphertext, nonce } => {
            lemma_round_trip(ciphertext, nonce, disclosed(pre.rows[i].api_key, None), pin);
        },
        _ => {},
    }
    match post.rows[i].api_secret {
        SecretView::Sealed { ciphertext, nonce } => {
            lemma_round_trip(ciphertext, nonce, disclosed(pre.rows[i].api_secret, None), pin);
        },
        _ => {},
    }
}

} // verus!
