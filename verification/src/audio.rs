use vstd::prelude::*;

verus! {

/// Maximum simultaneously sounding key presses. Excess presses steal the
/// oldest voice.
pub const MAX_VOICES: usize = 16;

/// Output buffer size in frames. 256 @ 44.1 kHz ≈ 5.8 ms of latency.
pub const BUFFER_FRAMES: u32 = 256;

/// Errors that can occur while building or running the audio engine.
#[derive(Debug, PartialEq, Eq)]
pub enum AudioError {
    /// The audio host reported no default output device.
    NoOutputDevice,
    /// The device's default output config could not be queried.
    NoOutputConfig(String),
    /// Building or starting the stream failed.
    StreamFailed(String),
}

/// The text shown for each audio error.
pub open spec fn audio_error_text(e: AudioError) -> Seq<char> {
    match e {
        AudioError::NoOutputDevice => "no default audio output device"@,
        AudioError::NoOutputConfig(s) => "could not query output config: "@ + s@,
        AudioError::StreamFailed(s) => "failed to build/start audio stream: "@ + s@,
    }
}

impl AudioError {
    /// The human-readable description of the error.
    pub fn message(&self) -> (text: String)
        ensures
            text@ == audio_error_text(*self),
    {
        match self {
            AudioError::NoOutputDevice => String::from_str("no default audio output device"),
            AudioError::NoOutputConfig(s) => {
                let mut text = String::from_str("could not query output config: ");
                text.append(s.as_str());
                text
            },
            AudioError::StreamFailed(s) => {
                let mut text = String::from_str("failed to build/start audio stream: ");
                text.append(s.as_str());
                text
            },
        }
    }
}

/// Number of stereo frames that remain in an interleaved buffer of `len`
/// samples when playback stands at sample `pos`: a frame needs both its
/// left and its right sample.
pub open spec fn frames_left(pos: int, len: int) -> int {
    if pos < len {
        (len - pos) / 2
    } else {
        0
    }
}

/// Number of frames a voice contributes to an output buffer of `frames`
/// frames.
pub open spec fn frames_played(pos: int, len: int, frames: int) -> int {
    if frames_left(pos, len) < frames {
        frames_left(pos, len)
    } else {
        frames
    }
}

/// A voice ends during a buffer when it runs out of frames before the buffer
/// is full.
pub open spec fn voice_ends(pos: int, len: int, frames: int) -> bool {
    frames_left(pos, len) < frames
}

/// How many frames of a voice at `pos` in a buffer of `len` interleaved
/// samples are mixed into an output buffer of `frames` frames.
pub fn playable_frames(pos: usize, len: usize, frames: usize) -> (played: usize)
    ensures
        played == frames_played(pos as int, len as int, frames as int),
{
    let left = if pos < len {
        (len - pos) / 2
    } else {
        0
    };
    if left < frames {
        left
    } else {
        frames
    }
}

/// One sounding key press: the sample buffer it plays, the buffer's length
/// in interleaved samples, the index of the next sample to play, and the
/// press's start number (presses are numbered in the order they start).
pub struct Voice<S> {
    pub samples: S,
    pub len: usize,
    pub pos: usize,
    pub started: u64,
}

/// The length, play position and start number of each voice slot; `None`
/// for a free slot.
pub type SlotState = Option<(usize, usize, u64)>;

/// The start number of a busy slot.
pub open spec fn start_of(s: SlotState) -> u64 {
    s.unwrap().2
}

/// Index of the first free slot at or after `i`, or the number of slots if
/// there is none.
pub open spec fn first_free_from(slots: Seq<SlotState>, i: int) -> int
    decreases slots.len() - i,
{
    if i >= slots.len() || i < 0 {
        slots.len() as int
    } else if slots[i] is None {
        i
    } else {
        first_free_from(slots, i + 1)
    }
}

/// Index of the lowest free slot, or the number of slots if all are busy.
pub open spec fn first_free(slots: Seq<SlotState>) -> int {
    first_free_from(slots, 0)
}

/// Among the first `n` slots, the one whose voice started earliest (the
/// lowest such index when start numbers are equal).
pub open spec fn oldest_upto(slots: Seq<SlotState>, n: int) -> int
    decreases n,
{
    if n <= 1 {
        0
    } else {
        let best = oldest_upto(slots, n - 1);
        if start_of(slots[n - 1]) < start_of(slots[best]) {
            n - 1
        } else {
            best
        }
    }
}

/// The slot whose voice started earliest.
pub open spec fn oldest_slot(slots: Seq<SlotState>) -> int {
    oldest_upto(slots, slots.len() as int)
}

/// The slot that a key press fills: the lowest free slot, or, when every
/// slot is busy, the slot whose voice started earliest.
pub open spec fn slot_for_play(slots: Seq<SlotState>) -> int {
    if first_free(slots) < slots.len() {
        first_free(slots)
    } else {
        oldest_slot(slots)
    }
}

/// The slots after a key press starts a voice of `len` samples with start
/// number `stamp`. With an empty sample buffer nothing changes.
pub open spec fn slots_after_play(slots: Seq<SlotState>, stamp: u64, len: usize) -> Seq<SlotState> {
    if len == 0 {
        slots
    } else {
        slots.update(slot_for_play(slots), Some((len, 0usize, stamp)))
    }
}

/// The press counter after a key press: it counts every voice started, and
/// stays at its maximum once there.
pub open spec fn presses_after_play(presses: u64, len: usize) -> u64 {
    if len != 0 && presses < u64::MAX {
        (presses + 1) as u64
    } else {
        presses
    }
}

/// The state of a slot after mixing `frames` frames.
pub open spec fn slot_after_mix(s: SlotState, frames: int) -> SlotState {
    match s {
        None => None,
        Some((len, pos, started)) => if voice_ends(pos as int, len as int, frames) {
            None
        } else {
            Some((len, (pos + 2 * frames) as usize, started))
        },
    }
}

/// The voices that are sounding, the sample buffer that new voices will
/// play, and the number of voices started so far.
pub struct VoiceBank<S> {
    voices: Vec<Option<Voice<S>>>,
    presses: u64,
    current: S,
    current_len: usize,
}

impl<S> VoiceBank<S> {
    /// The bank holds `MAX_VOICES` slots; each voice's position is even and
    /// within its buffer, and its start number is below the press counter
    /// (unless the counter has reached its maximum).
    pub closed spec fn wf(&self) -> bool {
        &&& self.voices.len() == MAX_VOICES
        &&& forall|i: int|
            0 <= i < self.voices.len() ==> (#[trigger] self.voices@[i] matches Some(v) ==> v.pos
                <= v.len && v.pos % 2 == 0 && (v.started < self.presses || self.presses == u64::MAX))
    }

    /// Length, play position and start number of each slot.
    pub closed spec fn slots(&self) -> Seq<SlotState> {
        Seq::new(
            self.voices@.len(),
            |i: int|
                match self.voices@[i] {
                    Some(v) => Some((v.len, v.pos, v.started)),
                    None => None,
                },
        )
    }

    /// The sample buffer that the voice in slot `i` plays.
    pub closed spec fn samples_in(&self, i: int) -> S {
        self.voices@[i].unwrap().samples
    }

    /// The number of voices started so far (the start number of the next).
    pub closed spec fn presses(&self) -> u64 {
        self.presses
    }

    /// The sample buffer that new voices play.
    pub closed spec fn current(&self) -> S {
        self.current
    }

    /// Length of the sample buffer that new voices play.
    pub closed spec fn current_len(&self) -> usize {
        self.current_len
    }

    /// A bank with every slot free, whose new voices play `current`, a buffer
    /// of `current_len` interleaved samples.
    pub fn new(current: S, current_len: usize) -> (bank: Self)
        ensures
            bank.wf(),
            bank.slots() == Seq::new(MAX_VOICES as nat, |i: int| None::<(usize, usize, u64)>),
            bank.presses() == 0,
            bank.current() == current,
            bank.current_len() == current_len,
    {
        let mut voices: Vec<Option<Voice<S>>> = Vec::new();
        let mut i: usize = 0;
        while i < MAX_VOICES
            invariant
                i <= MAX_VOICES,
                voices.len() == i,
                forall|j: int| 0 <= j < i ==> voices@[j] is None,
            decreases MAX_VOICES - i,
        {
            voices.push(None);
            i = i + 1;
        }
        let bank = VoiceBank { voices, presses: 0, current, current_len };
        assert(bank.slots() =~= Seq::new(MAX_VOICES as nat, |i: int| None::<(usize, usize, u64)>));
        bank
    }

    /// Replaces the sample buffer used by future voices. Voices that are
    /// already playing keep their own buffer.
    pub fn set_pack(&mut self, samples: S, len: usize)
        requires
            old(self).wf(),
        ensures
            final(self).wf(),
            final(self).slots() == old(self).slots(),
            forall|i: int| 0 <= i < MAX_VOICES ==> #[trigger] final(self).samples_in(i) == old(self).samples_in(i),
            final(self).presses() == old(self).presses(),
            final(self).current() == samples,
            final(self).current_len() == len,
    {
        self.current = samples;
        self.current_len = len;
    }

    /// The start number of the voice in `slot`, or 0 for a free slot.
    fn started_at(&self, slot: usize) -> (started: u64)
        requires
            self.wf(),
            slot < MAX_VOICES,
        ensures
            self.slots()[slot as int] is Some ==> started == start_of(self.slots()[slot as int]),
    {
        match &self.voices[slot] {
            Some(v) => v.started,
            None => 0,
        }
    }

    /// Starts a new voice playing the current sample buffer from its first
    /// sample, unless that buffer is empty. The lowest free slot is used;
    /// when every slot is busy, the voice that started earliest is replaced.
    /// The new voice gets the next start number.
    pub fn play(&mut self)
        where S: Clone
        requires
            old(self).wf(),
        ensures
            final(self).wf(),
            final(self).slots() == slots_after_play(
                old(self).slots(),
                old(self).presses(),
                old(self).current_len(),
            ),
            final(self).presses() == presses_after_play(old(self).presses(), old(self).current_len()),
            final(self).current() == old(self).current(),
            final(self).current_len() == old(self).current_len(),
            forall|i: int|
                0 <= i < MAX_VOICES && (old(self).current_len() == 0 || i != slot_for_play(
                    old(self).slots(),
                )) ==> #[trigger] final(self).samples_in(i) == old(self).samples_in(i),
            old(self).current_len() != 0 ==> cloned(
                old(self).current(),
                final(self).samples_in(slot_for_play(old(self).slots())),
            ),
    {
        if self.current_len == 0 {
            return ;
        }
        let ghost old_slots = self.slots();
        let mut i: usize = 0;
        while i < MAX_VOICES
            invariant
                i <= MAX_VOICES,
                self.voices.len() == MAX_VOICES,
                old_slots == self.slots(),
                first_free(old_slots) == first_free_from(old_slots, i as int),
                forall|j: int| 0 <= j < i ==> #[trigger] self.voices@[j] is Some,
            ensures
                i < MAX_VOICES ==> self.voices@[i as int] is None,
                first_free(old_slots) == first_free_from(old_slots, i as int),
                i <= MAX_VOICES,
                forall|j: int| 0 <= j < i ==> #[trigger] self.voices@[j] is Some,
            decreases MAX_VOICES - i,
        {
            if self.voices[i].is_none() {
                break;
            }
            assert(old_slots[i as int] is Some);
            i = i + 1;
        }
        proof {
            if i < MAX_VOICES {
                assert(old_slots[i as int] is None);
                assert(first_free(old_slots) == i);
            } else {
                assert(first_free(old_slots) == MAX_VOICES);
            }
        }
        let slot = if i < MAX_VOICES {
            i
        } else {
            let mut best: usize = 0;
            let mut j: usize = 1;
            while j < MAX_VOICES
                invariant
                    1 <= j <= MAX_VOICES,
                    self.wf(),
                    old_slots == self.slots(),
                    forall|k: int| 0 <= k < MAX_VOICES ==> #[trigger] self.voices@[k] is Some,
                    best as int == oldest_upto(old_slots, j as int),
                    best < j,
                decreases MAX_VOICES - j,
            {
                proof {
                    lemma_oldest_upto_bounds(old_slots, j as int);
                }
                let candidate = self.started_at(j);
                let incumbent = self.started_at(best);
                if candidate < incumbent {
                    best = j;
                }
                j = j + 1;
            }
            best
        };
        assert(slot as int == slot_for_play(old_slots));
        let voice = Voice {
            samples: self.current.clone(),
            len: self.current_len,
            pos: 0,
            started: self.presses,
        };
        let stamp = self.presses;
        self.voices.set(slot, Some(voice));
        if self.presses < u64::MAX {
            self.presses = self.presses + 1;
        }
        proof {
            assert(self.slots() =~= slots_after_play(old_slots, stamp, old(self).current_len()));
        }
    }

    /// Accounts for mixing `frames` output frames from the voice in `slot`:
    /// the voice moves on by the frames it contributed, and a voice that runs
    /// out of frames before the buffer is full is cleared. Returns the number
    /// of frames the voice contributed; an empty slot contributes none.
    pub fn advance_slot(&mut self, slot: usize, frames: usize) -> (played: usize)
        requires
            old(self).wf(),
            slot < MAX_VOICES,
        ensures
            final(self).wf(),
            played == match old(self).slots()[slot as int] {
                Some((len, pos, _)) => frames_played(pos as int, len as int, frames as int),
                None => 0,
            },
            final(self).slots() == old(self).slots().update(
                slot as int,
                slot_after_mix(old(self).slots()[slot as int], frames as int),
            ),
            forall|i: int|
                0 <= i < MAX_VOICES && final(self).slots()[i] is Some ==> #[trigger] final(self).samples_in(i)
                    == old(self).samples_in(i),
            final(self).presses() == old(self).presses(),
            final(self).current() == old(self).current(),
            final(self).current_len() == old(self).current_len(),
    {
        let ghost old_slots = self.slots();
        let mut taken: Option<Voice<S>> = None;
        self.voices.set_and_swap(slot, &mut taken);
        match taken {
            None => {
                proof {
                    assert(self.slots() =~= old_slots.update(slot as int, slot_after_mix(old_slots[slot as int], frames as int)));
                }
                0
            },
            Some(voice) => {
                let played = playable_frames(voice.pos, voice.len, frames);
                if played < frames {
                    proof {
                        assert(self.slots() =~= old_slots.update(slot as int, slot_after_mix(old_slots[slot as int], frames as int)));
                    }
                } else {
                    let moved = Voice {
                        samples: voice.samples,
                        len: voice.len,
                        pos: voice.pos + 2 * played,
                        started: voice.started,
                    };
                    self.voices.set(slot, Some(moved));
                    proof {
                        assert(self.slots() =~= old_slots.update(slot as int, slot_after_mix(old_slots[slot as int], frames as int)));
                    }
                }
                played
            },
        }
    }

    /// Read access to the voice in `slot`.
    pub fn voice(&self, slot: usize) -> (v: Option<&Voice<S>>)
        requires
            self.wf(),
            slot < MAX_VOICES,
        ensures
            match v {
                Some(v) => self.slots()[slot as int] == Some((v.len, v.pos, v.started)) && v.samples
                    == self.samples_in(slot as int),
                None => self.slots()[slot as int] is None,
            },
    {
        match &self.voices[slot] {
            Some(v) => Some(v),
            None => None,
        }
    }

    /// A well-formed bank has `MAX_VOICES` slots, every voice's play position
    /// is even and within its buffer, and every voice's start number is
    /// below the press counter unless the counter has reached its maximum.
    pub proof fn lemma_wf_slots(&self)
        requires
            self.wf(),
        ensures
            self.slots().len() == MAX_VOICES,
            forall|i: int|
                0 <= i < MAX_VOICES ==> (#[trigger] self.slots()[i] matches Some((len, pos, started))
                    ==> pos <= len && pos % 2 == 0 && (started < self.presses() || self.presses()
                    == u64::MAX)),
    {
        assert forall|i: int| 0 <= i < MAX_VOICES implies (#[trigger] self.slots()[i] matches Some((
            len,
            pos,
            started,
        )) ==> pos <= len && pos % 2 == 0 && (started < self.presses() || self.presses()
            == u64::MAX)) by {
            assert(self.voices@[i] matches Some(v) ==> v.pos <= v.len && v.pos % 2 == 0 && (v.started
                < self.presses || self.presses == u64::MAX));
        }
    }
}

/// The earliest-started slot among the first `n` is one of them, its start
/// number is the smallest among them, and it is the lowest index with that
/// number.
pub proof fn lemma_oldest_upto_bounds(slots: Seq<SlotState>, n: int)
    requires
        1 <= n <= slots.len(),
    ensures
        0 <= oldest_upto(slots, n) < n,
        forall|j: int|
            0 <= j < n ==> start_of(slots[oldest_upto(slots, n)]) <= start_of(#[trigger] slots[j]),
        forall|j: int|
            0 <= j < n && start_of(#[trigger] slots[j]) == start_of(slots[oldest_upto(slots, n)])
                ==> oldest_upto(slots, n) <= j,
    decreases n,
{
    if n > 1 {
        lemma_oldest_upto_bounds(slots, n - 1);
    }
}

/// In a bank whose slots are all busy, there is no free slot.
proof fn lemma_full_has_no_free(slots: Seq<SlotState>, i: int)
    requires
        0 <= i,
        forall|j: int| 0 <= j < slots.len() ==> #[trigger] slots[j] is Some,
    ensures
        first_free_from(slots, i) == slots.len(),
    decreases slots.len() - i,
{
    if i < slots.len() {
        lemma_full_has_no_free(slots, i + 1);
    }
}

/// The lowest free slot is free and every slot below it is busy.
proof fn lemma_first_free_is_lowest(slots: Seq<SlotState>, i: int)
    requires
        0 <= i <= slots.len(),
    ensures
        i <= first_free_from(slots, i) <= slots.len(),
        first_free_from(slots, i) < slots.len() ==> slots[first_free_from(slots, i)] is None,
        forall|j: int| i <= j < first_free_from(slots, i) ==> #[trigger] slots[j] is Some,
    decreases slots.len() - i,
{
    if i < slots.len() && slots[i] is Some {
        lemma_first_free_is_lowest(slots, i + 1);
    }
}

/// A key press that finds a free slot takes the lowest one and leaves every
/// other slot, and so every sounding voice, untouched.
pub proof fn lemma_play_uses_lowest_free_slot(slots: Seq<SlotState>, stamp: u64, len: usize)
    requires
        len != 0,
        exists|i: int| 0 <= i < slots.len() && slots[i] is None,
    ensures
        first_free(slots) < slots.len(),
        slot_for_play(slots) == first_free(slots),
        slots[first_free(slots)] is None,
        forall|j: int| 0 <= j < first_free(slots) ==> #[trigger] slots[j] is Some,
        slots_after_play(slots, stamp, len)[first_free(slots)] == Some((len, 0usize, stamp)),
        forall|j: int|
            0 <= j < slots.len() && j != first_free(slots) ==> #[trigger] slots_after_play(
                slots,
                stamp,
                len,
            )[j] == slots[j],
{
    lemma_first_free_is_lowest(slots, 0);
    let i = choose|i: int| 0 <= i < slots.len() && slots[i] is None;
    if first_free(slots) >= slots.len() {
        assert(slots[i] is Some);
    }
}

/// When every slot is busy, a key press steals the voice that started
/// earliest (the lowest such slot if two started together): no sounding
/// voice has a smaller start number. Every other voice keeps playing, and
/// the new voice, numbered after all of them, is the newest.
pub proof fn lemma_play_steals_oldest(slots: Seq<SlotState>, stamp: u64, len: usize)
    requires
        len != 0,
        slots.len() > 0,
        forall|j: int| 0 <= j < slots.len() ==> #[trigger] slots[j] is Some,
        forall|j: int| 0 <= j < slots.len() ==> start_of(#[trigger] slots[j]) < stamp,
    ensures
        0 <= slot_for_play(slots) < slots.len(),
        slot_for_play(slots) == oldest_slot(slots),
        forall|j: int|
            0 <= j < slots.len() ==> start_of(slots[oldest_slot(slots)]) <= start_of(
                #[trigger] slots[j],
            ),
        forall|j: int|
            0 <= j < slots.len() && start_of(#[trigger] slots[j]) == start_of(slots[oldest_slot(slots)])
                ==> oldest_slot(slots) <= j,
        slots_after_play(slots, stamp, len)[oldest_slot(slots)] == Some((len, 0usize, stamp)),
        forall|j: int|
            0 <= j < slots.len() && j != oldest_slot(slots) ==> #[trigger] slots_after_play(
                slots,
                stamp,
                len,
            )[j] == slots[j] && start_of(slots[j]) < stamp,
{
    lemma_full_has_no_free(slots, 0);
    lemma_oldest_upto_bounds(slots, slots.len() as int);
}

/// Two key presses in a row on a full bank never steal the same slot: the
/// first one's voice is the newest, so the second steals another.
pub proof fn lemma_steal_spares_newest(slots: Seq<SlotState>, stamp: u64, len: usize)
    requires
        len != 0,
        slots.len() > 1,
        stamp < u64::MAX,
        forall|j: int| 0 <= j < slots.len() ==> #[trigger] slots[j] is Some,
        forall|j: int| 0 <= j < slots.len() ==> start_of(#[trigger] slots[j]) < stamp,
    ensures
        slot_for_play(slots_after_play(slots, stamp, len)) != slot_for_play(slots),
{
    lemma_play_steals_oldest(slots, stamp, len);
    let after = slots_after_play(slots, stamp, len);
    let first = oldest_slot(slots);
    assert forall|j: int| 0 <= j < after.len() implies #[trigger] after[j] is Some by {}
    assert forall|j: int| 0 <= j < after.len() implies start_of(#[trigger] after[j]) < (stamp + 1) as u64 by {}
    lemma_play_steals_oldest(after, (stamp + 1) as u64, len);
    let other = if first == 0 { 1int } else { 0int };
    assert(start_of(after[other]) < stamp);
    assert(start_of(after[first]) == stamp);
}

/// A voice plays the same frames whether the output is delivered in one
/// buffer of `f1 + f2` frames or in a buffer of `f1` frames followed by
/// one of `f2`; and it is cleared only once it has no frame left.
pub proof fn lemma_mix_split(len: usize, pos: usize, started: u64, f1: nat, f2: nat)
    requires
        pos <= len,
    ensures
        ({
            let first = frames_played(pos as int, len as int, f1 as int);
            let second = match slot_after_mix(Some((len, pos, started)), f1 as int) {
                Some((l, p, _)) => frames_played(p as int, l as int, f2 as int),
                None => 0,
            };
            first + second == frames_played(pos as int, len as int, (f1 + f2) as int)
        }),
        slot_after_mix(Some((len, pos, started)), f1 as int) is None ==> frames_played(
            pos as int,
            len as int,
            f1 as int,
        ) == frames_left(pos as int, len as int),
{
    if !voice_ends(pos as int, len as int, f1 as int) {
        let p = (pos + 2 * f1) as usize;
        assert(p as int == pos + 2 * f1);
        assert(frames_left(p as int, len as int) == frames_left(pos as int, len as int) - f1) by {
            assert((len - pos - 2 * f1) / 2 == (len - pos) / 2 - f1) by (nonlinear_arith)
                requires len - pos >= 2 * f1;
        }
    }
}

} // verus!
