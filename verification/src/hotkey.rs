use vstd::prelude::*;

verus! {

/// Errors that can occur while registering the global mute hotkey.
#[derive(Debug)]
pub enum HotkeyError {
    RegistrationFailed(String),
}

impl HotkeyError {
    /// The human-readable description of the error.
    pub fn message(&self) -> (text: String)
        ensures
            match self {
                HotkeyError::RegistrationFailed(s) => text@ == "hotkey registration failed: "@ + s@,
            },
    {
        match self {
            HotkeyError::RegistrationFailed(s) => {
                let mut text = String::from_str("hotkey registration failed: ");
                text.append(s.as_str());
                text
            },
        }
    }
}

} // verus!
