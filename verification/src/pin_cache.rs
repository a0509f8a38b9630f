//! The session key cache: the PIN that unlocked the store, held in memory
//! only, between a successful verification and a clear or a PIN change.
//! The store holds the one cache of a session and reads no other.

use vstd::prelude::*;

use crate::db::Database;
use crate::error::{outcome, StoreError};
use crate::model::{verified, StoreView};

verus! {

/// Holds the PIN of the current session, if one has been presented.
pub struct PinCache {
    pin: Option<String>,
}

impl View for PinCache {
    type V = Option<Seq<char>>;

    closed spec fn view(&self) -> Option<Seq<char>> {
        match self.pin {
            Some(p) => Some(p@),
            None => None,
        }
    }
}

impl PinCache {
    /// An empty cache: nobody has authenticated yet.
    pub fn new() -> (cache: Self)
        ensures
            cache@ is None,
    {
        PinCache { pin: None }
    }

    /// Stores `pin`, replacing whatever was cached before.
    pub fn set_pin(&mut self, pin: String)
        ensures
            final(self)@ == Some(pin@),
    {
        self.pin = Some(pin);
    }

    /// A copy of the cached PIN, or `None` when the session is locked.
    pub fn get_pin(&self) -> (pin: Option<String>)
        ensures
            match pin {
                Some(p) => self@ == Some(p@),
                None => self@ is None,
            },
    {
        match &self.pin {
            Some(p) => Some(p.clone()),
            None => None,
        }
    }

    /// Forgets the cached PIN.
    pub fn clear_pin(&mut self)
        ensures
            final(self)@ is None,
    {
        self.pin = None;
    }
}

/// Caches `pin` as the store's session PIN.
pub fn set_pin(pin: String, database: &mut Database)
    ensures
        final(database)@ == (StoreView { session: Some(pin@), ..old(database)@ }),
{
    database.set_session(pin);
}

/// Locks the store: its session PIN and derived key are forgotten.
pub fn clear_pin(database: &mut Database)
    ensures
        final(database)@ == (StoreView { session: None, pin_key: None, ..old(database)@ }),
{
    database.clear_session();
}

/// Verifies `pin` against the store, which caches it if it is accepted.
pub fn verify_pin(pin: String, database: &mut Database) -> (res: Result<bool, StoreError>)
    requires
        old(database).wf(),
    ensures
        final(database).wf(),
        verified(old(database)@, final(database)@, pin@, outcome(res)),
{
    database.verify_pin(pin.as_str())
}

} // verus!
