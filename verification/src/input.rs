use vstd::prelude::*;

use crate::press_tracker::{down_sounds, held_after_down, PressTracker};

verus! {

/// A raw, platform-native key transition. `u16` is the platform virtual key code.
#[derive(Debug, Clone, Copy, PartialEq, Eq, Structural)]
pub enum KeyEvent {
    Down(u16),
    Up(u16),
}

/// Errors that can occur while starting a platform key listener.
#[derive(Debug, Clone, Copy, PartialEq, Eq, Structural)]
pub enum InputError {
    /// macOS Accessibility permission has not been granted.
    PermissionDenied,
    /// The event tap could not be created.
    TapCreationFailed,
    /// This platform has no key listener.
    UnsupportedPlatform,
}

/// The text shown for each listener error.
pub open spec fn input_error_text(e: InputError) -> Seq<char> {
    match e {
        InputError::PermissionDenied => "accessibility permission not granted"@,
        InputError::TapCreationFailed => "failed to create event tap"@,
        InputError::UnsupportedPlatform => "this platform is not supported in v1"@,
    }
}

impl InputError {
    /// The human-readable description of the error.
    pub fn message(&self) -> (text: String)
        ensures
            text@ == input_error_text(*self),
    {
        match self {
            InputError::PermissionDenied => String::from_str("accessibility permission not granted"),
            InputError::TapCreationFailed => String::from_str("failed to create event tap"),
            InputError::UnsupportedPlatform => String::from_str(
                "this platform is not supported in v1",
            ),
        }
    }
}

#[verifier::external_type_specification]
#[verifier::external_body]
#[verifier::reject_recursive_types(T)]
pub struct ExSender<T>(crossbeam_channel::Sender<T>);

/// A background source of global key events.
pub trait KeyListener: Send {
    /// Spawn the listener. Returns once the listener is running. Events are
    /// pushed to `sink`. The listener runs until the process exits; there is
    /// no stop method.
    fn start(&mut self, sink: crossbeam_channel::Sender<KeyEvent>) -> Result<(), InputError>;
}

/// Listener for platforms that have no key listener: starting it always
/// fails with `UnsupportedPlatform`.
pub struct UnsupportedListener;

impl KeyListener for UnsupportedListener {
    fn start(&mut self, sink: crossbeam_channel::Sender<KeyEvent>) -> (result: Result<(), InputError>)
        ensures
            result == Err::<(), InputError>(InputError::UnsupportedPlatform),
    {
        Err(InputError::UnsupportedPlatform)
    }
}

/// Handles one key event on the dispatch path: a release clears the key, a
/// press is checked against the tracker (which is updated whether or not the
/// output is muted). Returns true when a click should be played: the event
/// is a press that sounds and the output is not muted.
pub fn dispatch_key_event(tracker: &mut PressTracker, event: KeyEvent, muted: bool) -> (play: bool)
    ensures
        match event {
            KeyEvent::Up(code) => !play && final(tracker)@ == old(tracker)@.remove(code),
            KeyEvent::Down(code) => exists|now: i64|
                {
                    &&& final(tracker)@ == held_after_down(old(tracker)@, code, now)
                    &&& play == (down_sounds(old(tracker)@, code, now) && !muted)
                },
        },
{
    match event {
        KeyEvent::Up(code) => {
            tracker.on_up(code);
            false
        },
        KeyEvent::Down(code) => {
            let sounds = tracker.on_down(code);
            sounds && !muted
        },
    }
}

/// The number of bits set in `n`.
pub open spec fn bits_set(n: nat) -> nat
    decreases n,
{
    if n == 0 {
        0
    } else {
        (n % 2) + bits_set(n / 2)
    }
}

/// A number has no more bits set than its value.
proof fn lemma_bits_set_bound(n: nat)
    ensures
        bits_set(n) <= n,
    decreases n,
{
    if n > 0 {
        lemma_bits_set_bound(n / 2);
    }
}

/// The number of bits set in `n` (what `u64::count_ones` counts).
pub fn count_set_bits(n: u64) -> (count: u64)
    ensures
        count == bits_set(n as nat),
{
    let mut x: u64 = n;
    let mut count: u64 = 0;
    proof {
        lemma_bits_set_bound(n as nat);
    }
    while x > 0
        invariant
            count + bits_set(x as nat) == bits_set(n as nat),
            bits_set(n as nat) <= n,
        decreases x,
    {
        count = count + x % 2;
        x = x / 2;
    }
    count
}

/// The key event for a change of the modifier flags from `prev_flags` to
/// `flags` reported for the key `code`: a press when more modifier bits are
/// set than before, a release otherwise.
pub fn modifier_event(prev_flags: u64, flags: u64, code: u16) -> (event: KeyEvent)
    ensures
        event == (if bits_set(flags as nat) > bits_set(prev_flags as nat) {
            KeyEvent::Down(code)
        } else {
            KeyEvent::Up(code)
        }),
{
    if count_set_bits(flags) > count_set_bits(prev_flags) {
        KeyEvent::Down(code)
    } else {
        KeyEvent::Up(code)
    }
}

} // verus!
