use std::collections::HashMap;
use std::time::Instant;

use vstd::prelude::*;
use vstd::std_specs::hash::spec_keys_iter;
use vstd::std_specs::iter::IteratorSpec;

verus! {

broadcast use vstd::std_specs::hash::group_hash_axioms;

/// Keys held longer than this many nanoseconds are assumed to have had their
/// key-up event lost (five seconds).
pub const STALE_AFTER_NANOS: i64 = 5_000_000_000;

/// True when a key pressed at `stamp` counts as still held at `now`: it has
/// been held for less than `STALE_AFTER_NANOS`. A stamp later than `now`
/// counts as held for no time at all.
pub open spec fn is_fresh(stamp: i64, now: i64) -> bool {
    now - stamp < STALE_AFTER_NANOS
}

/// The held keys that survive the sweep at time `now`.
pub open spec fn swept(held: Map<u16, i64>, now: i64) -> Map<u16, i64> {
    Map::new(|k: u16| held.contains_key(k) && is_fresh(held[k], now), |k: u16| held[k])
}

/// Whether a key-down of `code` at `now` should sound, given the keys held
/// before it: it sounds exactly when the key is not held once stale keys
/// have been swept.
pub open spec fn down_sounds(held: Map<u16, i64>, code: u16, now: i64) -> bool {
    !swept(held, now).contains_key(code)
}

/// The held keys after a key-down of `code` at `now`: stale keys are swept,
/// and a key that sounds is recorded as pressed at `now`.
pub open spec fn held_after_down(held: Map<u16, i64>, code: u16, now: i64) -> Map<u16, i64> {
    if down_sounds(held, code, now) {
        swept(held, now).insert(code, now)
    } else {
        swept(held, now)
    }
}

#[verifier::external_type_specification]
#[verifier::external_body]
pub struct ExInstant(Instant);

/// A nanosecond count, clamped to the range of `i64`.
pub open spec fn clamped_nanos(n: u64) -> int {
    if n > i64::MAX {
        i64::MAX as int
    } else {
        n as int
    }
}

/// Calls `std::time::Instant::now`. Nothing is promised of the reading.
#[verifier::external_body]
fn instant_now() -> Instant {
    Instant::now()
}

/// Calls `Instant::saturating_duration_since`: the time from `earlier` to
/// `later` in nanoseconds, zero when `later` is not after `earlier`. Nothing
/// is stated of the value: both instants are opaque here.
#[verifier::external_body]
fn nanos_between(earlier: &Instant, later: &Instant) -> u64 {
    later.saturating_duration_since(*earlier).as_nanos() as u64
}

/// Suppresses OS key-repeat so a held key sounds exactly once.
///
/// Times are kept as signed nanosecond offsets from the moment the tracker
/// was created.
pub struct PressTracker {
    origin: Instant,
    held: HashMap<u16, i64>,
}

impl View for PressTracker {
    type V = Map<u16, i64>;

    /// Each held key code with the time its press was recorded.
    closed spec fn view(&self) -> Map<u16, i64> {
        self.held@
    }
}

impl PressTracker {
    /// Creates an empty tracker with no keys held.
    pub fn new() -> (t: Self)
        ensures
            t@ == Map::<u16, i64>::empty(),
    {
        PressTracker { origin: instant_now(), held: HashMap::new() }
    }

    /// Records a key-down of `code` at time `now` (nanoseconds from the
    /// tracker's origin). Returns true if a sound should play, that is if the
    /// key was not already held; stale entries are swept before deciding.
    pub fn on_down_at(&mut self, code: u16, now: i64) -> (sounds: bool)
        ensures
            sounds == down_sounds(old(self)@, code, now),
            final(self)@ == held_after_down(old(self)@, code, now),
    {
        self.sweep(now);
        if self.held.contains_key(&code) {
            return false;
        }
        self.held.insert(code, now);
        true
    }

    /// Returns true if a sound should play (the key was not already held).
    /// Sweeps stale entries before deciding. The time of the press is read
    /// from the monotonic clock; whatever it reads, the outcome is that of
    /// `on_down_at` at that time.
    pub fn on_down(&mut self, code: u16) -> (sounds: bool)
        ensures
            exists|now: i64|
                {
                    &&& sounds == down_sounds(old(self)@, code, now)
                    &&& final(self)@ == held_after_down(old(self)@, code, now)
                },
    {
        let at = instant_now();
        let now = self.offset_of(&at);
        self.on_down_at(code, now)
    }

    /// Marks the key released. A code that was not held is ignored silently.
    pub fn on_up(&mut self, code: u16)
        ensures
            final(self)@ == old(self)@.remove(code),
    {
        self.held.remove(&code);
    }

    /// Number of currently held keys.
    pub fn held_count(&self) -> (n: usize)
        ensures
            n == self@.len(),
    {
        self.held.len()
    }

    /// Records `code` as held since the instant `at`, replacing any earlier
    /// record of it.
    pub fn insert_at(&mut self, code: u16, at: Instant)
        ensures
            exists|stamp: i64| final(self)@ == old(self)@.insert(code, stamp),
    {
        let stamp = self.offset_of(&at);
        self.held.insert(code, stamp);
        assert(self@ == old(self)@.insert(code, stamp));
    }

    /// The offset of `at` from this tracker's origin, in nanoseconds: the
    /// time from the origin to `at` less the time from `at` to the origin,
    /// each reading clamped to `i64::MAX`. The readings themselves come from
    /// instants that are opaque here and are not stated.
    fn offset_of(&self, at: &Instant) -> (offset: i64)
        ensures
            exists|after: u64, before: u64|
                offset == clamped_nanos(after) - clamped_nanos(before),
    {
        let after = nanos_between(&self.origin, at);
        let before = nanos_between(at, &self.origin);
        let after_ns = if after > i64::MAX as u64 { i64::MAX } else { after as i64 };
        let before_ns = if before > i64::MAX as u64 { i64::MAX } else { before as i64 };
        assert(after_ns - before_ns == clamped_nanos(after) - clamped_nanos(before));
        after_ns - before_ns
    }

    /// Removes every held key that has gone stale at `now`.
    fn sweep(&mut self, now: i64)
        ensures
            final(self)@ == swept(old(self)@, now),
    {
        let ghost old_held = self.held@;
        let mut stale: Vec<u16> = Vec::new();
        for k in it: self.held.keys()
            invariant
                self.held@ == old_held,
                it.seq() == spec_keys_iter(&self.held).remaining(),
                forall|i: int|
                    0 <= i < stale.len() ==> old_held.contains_key(#[trigger] stale@[i])
                        && !is_fresh(old_held[stale@[i]], now),
                forall|j: int|
                    0 <= j < it.index() ==> !is_fresh(old_held[*it.seq()[j]], now)
                        ==> stale@.contains(*#[trigger] it.seq()[j]),
        {
            proof {
                let ks = spec_keys_iter(&self.held).remaining();
                assert(ks.unref().to_set() == old_held.dom());
                assert(ks.unref()[it.index()] == *k);
                assert(ks.unref().to_set().contains(*k));
            }
            let ghost before = stale@;
            match self.held.get(k) {
                Some(t) => {
                    if !((now as i128) - (*t as i128) < STALE_AFTER_NANOS as i128) {
                        stale.push(*k);
                        assert(stale@[stale.len() - 1] == *k);
                    }
                },
                None => {},
            }
            assert forall|x: u16| before.contains(x) implies stale@.contains(x) by {
                let j = choose|j: int| 0 <= j < before.len() && before[j] == x;
                assert(stale@[j] == x);
            }
        }
        proof {
            let ks = spec_keys_iter(&self.held).remaining();
            assert(ks.unref().to_set() == old_held.dom());
            assert forall|x: u16| old_held.contains_key(x) && !is_fresh(old_held[x], now)
                implies stale@.contains(x) by {
                assert(ks.unref().to_set().contains(x));
                let j = choose|j: int| 0 <= j < ks.unref().len() && ks.unref()[j] == x;
                assert(*ks[j] == x);
            }
        }
        let n = stale.len();
        let mut i: usize = 0;
        while i < n
            invariant
                n == stale.len(),
                i <= n,
                self.held@ == old_held.remove_keys(stale@.take(i as int).to_set()),
            decreases n - i,
        {
            let k = stale[i];
            self.held.remove(&k);
            proof {
                assert(stale@.take(i + 1) =~= stale@.take(i as int).push(k));
                stale@.take(i as int).lemma_push_to_set_commute(k);
            }
            i = i + 1;
        }
        proof {
            assert(stale@.take(n as int) == stale@);
            assert forall|x: u16| stale@.to_set().contains(x) implies
                old_held.contains_key(x) && !is_fresh(old_held[x], now) by {
                let j = choose|j: int| 0 <= j < stale@.len() && stale@[j] == x;
            }
            assert(self.held@ =~= swept(old_held, now));
        }
    }
}

/// A key that is not held sounds when it is pressed.
pub proof fn lemma_first_press_sounds(held: Map<u16, i64>, code: u16, now: i64)
    requires
        !held.contains_key(code),
    ensures
        down_sounds(held, code, now),
        held_after_down(held, code, now).contains_key(code),
{
}

/// A key that sounded at `t1` is silent when pressed again at any `t2` less
/// than the stale window later: a held key sounds exactly once.
pub proof fn lemma_repeat_press_silent(held: Map<u16, i64>, code: u16, t1: i64, t2: i64)
    requires
        down_sounds(held, code, t1),
        is_fresh(t1, t2),
    ensures
        !down_sounds(held_after_down(held, code, t1), code, t2),
{
    assert(held_after_down(held, code, t1)[code] == t1);
}

/// Once a key is released, its next press sounds.
pub proof fn lemma_press_after_release_sounds(held: Map<u16, i64>, code: u16, now: i64)
    ensures
        down_sounds(held.remove(code), code, now),
{
}

/// Pressing one key never marks another key as held, so a key that was not
/// held still sounds after presses of other keys.
pub proof fn lemma_distinct_keys_independent(
    held: Map<u16, i64>,
    first: u16,
    second: u16,
    t1: i64,
    t2: i64,
)
    requires
        first != second,
        !held.contains_key(second),
    ensures
        !held_after_down(held, first, t1).contains_key(second),
        down_sounds(held_after_down(held, first, t1), second, t2),
{
}

/// Releasing a key that is not held leaves the tracker unchanged.
pub proof fn lemma_unmatched_release_ignored(held: Map<u16, i64>, code: u16)
    requires
        !held.contains_key(code),
    ensures
        held.remove(code) == held,
{
    assert(held.remove(code) =~= held);
}

/// A key held for the whole stale window is taken to have lost its release,
/// and its next press sounds again.
pub proof fn lemma_stale_key_sounds(held: Map<u16, i64>, code: u16, now: i64)
    requires
        held.contains_key(code),
        !is_fresh(held[code], now),
    ensures
        down_sounds(held, code, now),
{
}

/// A key-down never leaves a stale key behind, and keeps every fresh one.
pub proof fn lemma_down_keeps_exactly_fresh_keys(held: Map<u16, i64>, code: u16, now: i64)
    ensures
        forall|k: u16|
            k != code ==> (#[trigger] held_after_down(held, code, now).contains_key(k) <==> (
            held.contains_key(k) && is_fresh(held[k], now))),
{
}

/// While a key stays held and its press is still fresh, every further press
/// of it is silent and keeps the original press time, and presses of other
/// keys keep it held with that time too: over any run of presses without a
/// release, a held key sounds only once until its stale window runs out.
pub proof fn lemma_held_key_stays_silent(held: Map<u16, i64>, code: u16, other: u16, now: i64)
    requires
        held.contains_key(code),
        is_fresh(held[code], now),
    ensures
        !down_sounds(held, code, now),
        held_after_down(held, code, now).contains_key(code),
        held_after_down(held, code, now)[code] == held[code],
        held_after_down(held, other, now).contains_key(code),
        held_after_down(held, other, now)[code] == held[code],
{
}

} // verus!
