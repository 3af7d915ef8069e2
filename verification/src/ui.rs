use std::sync::atomic::AtomicBool;

use vstd::prelude::*;

use crate::login_item::{describes, LoginItemError};

verus! {

/// Shared state between the UI thread and the key-event thread.
pub struct AppShared {
    /// Read by the key-event thread on every key press.
    pub muted: AtomicBool,
}

/// The "start on login" setting and status message after an attempt to
/// install or uninstall the login item: on success the requested setting
/// stands and the status is cleared; on failure the setting goes back to
/// `previous` and the status shows the error.
pub fn toggle_outcome(previous: bool, requested: bool, outcome: Result<(), LoginItemError>) -> (res: (
    bool,
    Option<String>,
))
    ensures
        match outcome {
            Ok(()) => res.0 == requested && res.1 is None,
            Err(e) => res.0 == previous && (res.1 matches Some(t) && describes(e, t@)),
        },
{
    match outcome {
        Ok(()) => (requested, None),
        Err(e) => (previous, Some(e.message())),
    }
}

} // verus!
