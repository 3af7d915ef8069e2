use vstd::prelude::*;

use vstd::utf8::encode_utf8;

use crate::paths::{join_path, joined};

verus! {

/// A sound pack's manifest, as read from its pack.json.
#[derive(Debug, Clone)]
pub struct PackManifest {
    pub id: String,
    pub name: String,
    pub file: String,
}

/// A pack whose audio has been decoded and made ready for the mixer; `S` is
/// the sample buffer the mixer plays.
#[derive(Debug, Clone)]
pub struct Pack<S> {
    pub id: String,
    pub name: String,
    pub samples: S,
}

/// Errors that can occur while loading sound packs.
#[derive(Debug, PartialEq, Eq)]
pub enum PackError {
    /// The packs directory is missing or unreadable.
    PacksDirMissing(String),
    /// pack.json missing, unreadable, or malformed.
    BadManifest { dir: String, reason: String },
    /// The WAV referenced by the manifest is missing or not 16-bit PCM.
    BadWav { path: String, reason: String },
    /// Zero packs were found.
    NoPacksFound,
}

/// The text shown for each pack error.
pub open spec fn pack_error_text(e: PackError) -> Seq<char> {
    match e {
        PackError::PacksDirMissing(p) => "packs directory missing: "@ + p@,
        PackError::BadManifest { dir, reason } => "bad manifest in "@ + dir@ + ": "@ + reason@,
        PackError::BadWav { path, reason } => "bad wav file "@ + path@ + ": "@ + reason@,
        PackError::NoPacksFound => "no sound packs found"@,
    }
}

impl PackError {
    /// The human-readable description of the error.
    pub fn message(&self) -> (text: String)
        ensures
            text@ == pack_error_text(*self),
    {
        match self {
            PackError::PacksDirMissing(p) => {
                let mut text = String::from_str("packs directory missing: ");
                text.append(p.as_str());
                text
            },
            PackError::BadManifest { dir, reason } => {
                let mut text = String::from_str("bad manifest in ");
                text.append(dir.as_str());
                text.append(": ");
                text.append(reason.as_str());
                text
            },
            PackError::BadWav { path, reason } => {
                let mut text = String::from_str("bad wav file ");
                text.append(path.as_str());
                text.append(": ");
                text.append(reason.as_str());
                text
            },
            PackError::NoPacksFound => String::from_str("no sound packs found"),
        }
    }
}

/// The bundled packs directory: `assets/packs` under `manifest_dir`, the
/// directory the program was built from.
pub fn packs_dir(manifest_dir: &str) -> (dir: String)
    ensures
        dir@ == joined(manifest_dir@, "assets/packs"@),
{
    join_path(manifest_dir, "assets/packs")
}

/// Each mono sample duplicated into an interleaved left/right pair.
pub open spec fn interleaved_stereo<T>(mono: Seq<T>) -> Seq<T> {
    Seq::new(2 * mono.len(), |i: int| mono[i / 2])
}

/// Duplicate each mono sample into an interleaved L,R pair.
pub fn mono_to_interleaved_stereo<T: Copy>(mono: &[T]) -> (out: Vec<T>)
    ensures
        out@ == interleaved_stereo(mono@),
{
    let n = mono.len();
    let mut out: Vec<T> = Vec::new();
    let mut i: usize = 0;
    while i < n
        invariant
            n == mono@.len(),
            i <= n,
            out@ == interleaved_stereo(mono@.take(i as int)),
        decreases n - i,
    {
        let s = mono[i];
        out.push(s);
        out.push(s);
        proof {
            assert(out@ =~= interleaved_stereo(mono@.take(i + 1)));
        }
        i = i + 1;
    }
    assert(mono@.take(n as int) =~= mono@);
    out
}

/// Length of the longest common prefix of `a` and `b` from index `i` on
/// (the index where they first differ, or where the shorter one ends).
pub open spec fn common_from(a: Seq<u8>, b: Seq<u8>, i: int) -> int
    decreases a.len() - i,
{
    if 0 <= i < a.len() && i < b.len() && a[i] == b[i] {
        common_from(a, b, i + 1)
    } else {
        i
    }
}

/// Lexicographic order on byte strings, the order of `str` and `String`:
/// at the first difference the smaller byte wins, and a proper prefix comes
/// first.
pub open spec fn bytes_lt(a: Seq<u8>, b: Seq<u8>) -> bool {
    let i = common_from(a, b, 0);
    (i == a.len() && i < b.len()) || (i < a.len() && i < b.len() && a[i] < b[i])
}

/// What `common_from` is: `a` and `b` agree below it, and at it one of them
/// ends or they differ.
proof fn lemma_common_from(a: Seq<u8>, b: Seq<u8>, i: int)
    requires
        0 <= i <= a.len(),
        i <= b.len(),
    ensures
        i <= common_from(a, b, i) <= a.len(),
        common_from(a, b, i) <= b.len(),
        forall|j: int| i <= j < common_from(a, b, i) ==> a[j] == b[j],
        common_from(a, b, i) == a.len() || common_from(a, b, i) == b.len() || a[common_from(a, b, i)]
            != b[common_from(a, b, i)],
    decreases a.len() - i,
{
    if i < a.len() && i < b.len() && a[i] == b[i] {
        lemma_common_from(a, b, i + 1);
    }
}

/// The common prefix length is the first index where `a` and `b` end or
/// differ.
proof fn lemma_common_len(a: Seq<u8>, b: Seq<u8>, k: int)
    requires
        0 <= k <= a.len(),
        k <= b.len(),
        forall|j: int| 0 <= j < k ==> a[j] == b[j],
        k == a.len() || k == b.len() || a[k] != b[k],
    ensures
        common_from(a, b, 0) == k,
{
    lemma_common_from(a, b, 0);
    let c = common_from(a, b, 0);
    if c < k {
        assert(a[c] == b[c]);
    } else if c > k {
        assert(a[k] == b[k]);
    }
}

/// The order is irreflexive.
proof fn lemma_bytes_lt_irreflexive(a: Seq<u8>)
    ensures
        !bytes_lt(a, a),
{
    lemma_common_len(a, a, a.len() as int);
}

/// The order is transitive.
proof fn lemma_bytes_lt_transitive(a: Seq<u8>, b: Seq<u8>, c: Seq<u8>)
    requires
        bytes_lt(a, b),
        bytes_lt(b, c),
    ensures
        bytes_lt(a, c),
{
    lemma_common_from(a, b, 0);
    lemma_common_from(b, c, 0);
    let i = common_from(a, b, 0);
    let j = common_from(b, c, 0);
    if i < j {
        lemma_common_len(a, c, i);
    } else if j < i {
        lemma_common_len(a, c, j);
    } else {
        lemma_common_len(a, c, i);
    }
}

/// The order is total: of two different byte strings one is smaller.
proof fn lemma_bytes_lt_total(a: Seq<u8>, b: Seq<u8>)
    requires
        !bytes_lt(a, b),
        !bytes_lt(b, a),
    ensures
        a == b,
{
    lemma_common_from(a, b, 0);
    lemma_common_from(b, a, 0);
    let i = common_from(a, b, 0);
    lemma_common_len(b, a, i);
    assert(a =~= b);
}

/// The bytes of a pack's name, by which packs are ordered.
pub open spec fn name_key<S>(p: Pack<S>) -> Seq<u8> {
    encode_utf8(p.name@)
}

/// The packs are in order of name: no pack's name is smaller than that of a
/// pack before it.
pub open spec fn sorted_by_name<S>(packs: Seq<Pack<S>>) -> bool {
    forall|i: int, j: int|
        0 <= i < j < packs.len() ==> !bytes_lt(name_key(#[trigger] packs[j]), name_key(#[trigger] packs[i]))
}

/// Whether a pack's name has the bytes `key`.
pub open spec fn has_name_key<S>(key: Seq<u8>) -> spec_fn(Pack<S>) -> bool {
    |p: Pack<S>| name_key(p) == key
}

/// The packs whose name has the bytes `key`, in their order in `packs`.
pub open spec fn with_name_key<S>(packs: Seq<Pack<S>>, key: Seq<u8>) -> Seq<Pack<S>> {
    packs.filter(has_name_key(key))
}

/// Whether the byte string `a` sorts before `b`.
fn bytes_less(a: &[u8], b: &[u8]) -> (less: bool)
    ensures
        less == bytes_lt(a@, b@),
{
    let mut i: usize = 0;
    while i < a.len() && i < b.len() && a[i] == b[i]
        invariant
            i <= a@.len(),
            i <= b@.len(),
            forall|j: int| 0 <= j < i ==> a@[j] == b@[j],
        decreases a@.len() - i,
    {
        i = i + 1;
    }
    proof {
        lemma_common_len(a@, b@, i as int);
    }
    if i == a.len() {
        i < b.len()
    } else {
        i < b.len() && a[i] < b[i]
    }
}

/// Whether pack `a`'s name sorts before pack `b`'s.
fn name_less<S>(a: &Pack<S>, b: &Pack<S>) -> (less: bool)
    ensures
        less == bytes_lt(name_key(*a), name_key(*b)),
{
    bytes_less(a.name.as_str().as_bytes(), b.name.as_str().as_bytes())
}

/// Filtering a sequence none of whose elements passes gives nothing.
proof fn lemma_filter_none<A>(s: Seq<A>, pred: spec_fn(A) -> bool)
    requires
        forall|i: int| 0 <= i < s.len() ==> !pred(#[trigger] s[i]),
    ensures
        s.filter(pred) == Seq::<A>::empty(),
{
    assert(s.all(|x: A| !pred(x)));
    s.lemma_all_neg_filter_empty(pred);
    assert(s.filter(pred) =~= Seq::<A>::empty());
}

/// Inserts `p` into the name-ordered `sorted` after every pack whose name is
/// not larger than `p`'s, so that packs of equal names keep the order in
/// which they were inserted.
fn insert_by_name<S>(sorted: &mut Vec<Pack<S>>, p: Pack<S>)
    requires
        sorted_by_name(old(sorted)@),
    ensures
        sorted_by_name(final(sorted)@),
        final(sorted)@.len() == old(sorted)@.len() + 1,
        forall|k: Seq<u8>|
            #[trigger] with_name_key(final(sorted)@, k) == if name_key(p) == k {
                with_name_key(old(sorted)@, k).push(p)
            } else {
                with_name_key(old(sorted)@, k)
            },
{
    let ghost r = sorted@;
    let mut pos: usize = 0;
    while pos < sorted.len() && !name_less(&p, &sorted[pos])
        invariant
            sorted@ == r,
            pos <= r.len(),
            forall|j: int| 0 <= j < pos ==> !bytes_lt(name_key(p), name_key(#[trigger] r[j])),
        decreases r.len() - pos,
    {
        pos = pos + 1;
    }
    let ghost key = name_key(p);
    proof {
        // Every pack from `pos` on has a name larger than `p`'s.
        assert forall|j: int| pos <= j < r.len() implies bytes_lt(key, name_key(#[trigger] r[j])) by {
            if j > pos {
                assert(!bytes_lt(name_key(r[j]), name_key(r[pos as int])));
                if !bytes_lt(key, name_key(r[j])) {
                    if bytes_lt(name_key(r[j]), key) {
                        lemma_bytes_lt_transitive(name_key(r[j]), key, name_key(r[pos as int]));
                    } else {
                        lemma_bytes_lt_total(key, name_key(r[j]));
                    }
                }
            }
        }
    }
    sorted.insert(pos, p);
    proof {
        let r2 = sorted@;
        assert(r2 =~= r.take(pos as int) + seq![p] + r.skip(pos as int));
        assert forall|i: int, j: int| 0 <= i < j < r2.len() implies !bytes_lt(
            name_key(#[trigger] r2[j]),
            name_key(#[trigger] r2[i]),
        ) by {
            if j < pos {
            } else if j == pos {
            } else if i == pos {
                assert(r2[j] == r[j - 1]);
                assert(bytes_lt(key, name_key(r[j - 1])));
                if bytes_lt(name_key(r[j - 1]), key) {
                    lemma_bytes_lt_transitive(name_key(r[j - 1]), key, name_key(r[j - 1]));
                    lemma_bytes_lt_irreflexive(name_key(r[j - 1]));
                }
            } else if i < pos {
                assert(r2[j] == r[j - 1]);
            } else {
                assert(r2[j] == r[j - 1]);
                assert(r2[i] == r[i - 1]);
            }
        }
        assert forall|k: Seq<u8>| #[trigger] with_name_key(r2, k) == if key == k {
            with_name_key(r, k).push(p)
        } else {
            with_name_key(r, k)
        } by {
            let pred = has_name_key::<S>(k);
            let front = r.take(pos as int);
            let back = r.skip(pos as int);
            assert(r =~= front + back);
            Seq::filter_distributes_over_add(front, back, pred);
            Seq::filter_distributes_over_add(front + seq![p], back, pred);
            Seq::filter_distributes_over_add(front, seq![p], pred);
            Seq::<Pack<S>>::empty().lemma_filter_push(p, pred);
            assert(seq![p] =~= Seq::<Pack<S>>::empty().push(p));
            lemma_filter_none(Seq::<Pack<S>>::empty(), pred);
            if key == k {
                assert forall|j: int| 0 <= j < back.len() implies !pred(#[trigger] back[j]) by {
                    assert(back[j] == r[pos + j]);
                    assert(bytes_lt(key, name_key(r[pos + j])));
                    lemma_bytes_lt_irreflexive(key);
                }
                lemma_filter_none(back, pred);
                assert(front.filter(pred) + back.filter(pred) =~= front.filter(pred));
                assert(front.filter(pred) + seq![p] =~= front.filter(pred).push(p));
                assert((front.filter(pred) + seq![p]) + back.filter(pred) =~= front.filter(pred).push(p));
            } else {
                assert(front.filter(pred) + Seq::<Pack<S>>::empty() =~= front.filter(pred));
            }
        }
    }
}

/// The packs ordered by name, packs of equal names in their original
/// order: what a stable sort by name gives.
pub fn sort_by_name<S>(packs: Vec<Pack<S>>) -> (sorted: Vec<Pack<S>>)
    ensures
        sorted@.len() == packs@.len(),
        sorted_by_name(sorted@),
        forall|k: Seq<u8>| #[trigger] with_name_key(sorted@, k) == with_name_key(packs@, k),
{
    let ghost orig = packs@;
    let mut rest = packs;
    let mut sorted: Vec<Pack<S>> = Vec::new();
    let ghost mut count: int = 0;
    proof {
        assert forall|k: Seq<u8>| #[trigger] with_name_key(sorted@, k) == with_name_key(orig.take(0), k) by {
            lemma_filter_none(sorted@, has_name_key::<S>(k));
            lemma_filter_none(orig.take(0), has_name_key::<S>(k));
        }
    }
    while rest.len() > 0
        invariant
            0 <= count <= orig.len(),
            rest@ == orig.skip(count),
            sorted@.len() == count,
            sorted_by_name(sorted@),
            forall|k: Seq<u8>| #[trigger] with_name_key(sorted@, k) == with_name_key(orig.take(count), k),
        decreases rest@.len(),
    {
        let p = rest.remove(0);
        let ghost before = sorted@;
        insert_by_name(&mut sorted, p);
        proof {
            assert(p == orig[count]);
            assert(orig.take(count + 1) =~= orig.take(count).push(p));
            assert forall|k: Seq<u8>| #[trigger] with_name_key(sorted@, k) == with_name_key(
                orig.take(count + 1),
                k,
            ) by {
                orig.take(count).lemma_filter_push(p, has_name_key::<S>(k));
                assert(with_name_key(sorted@, k) == (if name_key(p) == k {
                    with_name_key(before, k).push(p)
                } else {
                    with_name_key(before, k)
                }));
            }
            count = count + 1;
            assert(rest@ =~= orig.skip(count));
        }
    }
    proof {
        assert(orig.take(count) =~= orig);
    }
    sorted
}

/// The packs that loaded, ordered by name; `NoPacksFound` when none did.
pub fn finish_loading<S>(packs: Vec<Pack<S>>) -> (result: Result<Vec<Pack<S>>, PackError>)
    ensures
        packs@.len() == 0 <==> result is Err,
        result matches Err(e) ==> e == PackError::NoPacksFound,
        result matches Ok(sorted) ==> {
            &&& sorted@.len() == packs@.len()
            &&& sorted_by_name(sorted@)
            &&& forall|k: Seq<u8>| #[trigger] with_name_key(sorted@, k) == with_name_key(packs@, k)
        },
{
    if packs.len() == 0 {
        return Err(PackError::NoPacksFound);
    }
    Ok(sort_by_name(packs))
}

/// The index of the first pack whose id is `id`, if any.
pub fn position_of_id<S>(packs: &Vec<Pack<S>>, id: &String) -> (found: Option<usize>)
    ensures
        match found {
            Some(i) => i < packs@.len() && packs@[i as int].id@ == id@ && forall|j: int|
                0 <= j < i ==> (#[trigger] packs@[j]).id@ != id@,
            None => forall|j: int| 0 <= j < packs@.len() ==> (#[trigger] packs@[j]).id@ != id@,
        },
{
    let mut i: usize = 0;
    while i < packs.len()
        invariant
            i <= packs@.len(),
            forall|j: int| 0 <= j < i ==> (#[trigger] packs@[j]).id@ != id@,
        decreases packs@.len() - i,
    {
        if packs[i].id == *id {
            return Some(i);
        }
        i = i + 1;
    }
    None
}

/// The parts of a WAV file's header that the loader reads: whether samples
/// are integers (else floating point), bits per sample, channel count and
/// sample rate.
#[derive(Debug, Clone, Copy, PartialEq, Eq, Structural)]
pub struct WavFormat {
    pub is_int: bool,
    pub bits_per_sample: u16,
    pub channels: u16,
    pub sample_rate: u32,
}

/// The header that `hound` reads from the WAV file `bytes`, or the text of
/// the error it reports.
pub uninterp spec fn wav_header(bytes: Seq<u8>) -> Result<WavFormat, Seq<char>>;

/// The 16-bit samples that `hound` reads from the WAV file `bytes`, all
/// channels interleaved, or the text of the error it reports.
pub uninterp spec fn wav_pcm16_samples(bytes: Seq<u8>) -> Result<Seq<i16>, Seq<char>>;

/// Calls `hound::WavReader::new` on the bytes of a WAV file and hands back
/// the header it read (`WavReader::spec`), or the error's text. Both depend
/// on the bytes alone; they are named `wav_header`.
#[verifier::external_body]
fn wav_format(bytes: &[u8]) -> (r: Result<WavFormat, String>)
    ensures
        match r {
            Ok(f) => wav_header(bytes@) == Ok::<WavFormat, Seq<char>>(f),
            Err(e) => wav_header(bytes@) == Err::<WavFormat, Seq<char>>(e@),
        },
{
    match hound::WavReader::new(std::io::Cursor::new(bytes)) {
        Ok(reader) => {
            let spec = reader.spec();
            let is_int = match spec.sample_format {
                hound::SampleFormat::Int => true,
                hound::SampleFormat::Float => false,
            };
            Ok(WavFormat { is_int, bits_per_sample: spec.bits_per_sample, channels: spec.channels, sample_rate: spec.sample_rate })
        },
        Err(e) => Err(e.to_string()),
    }
}

/// Calls `hound::WavReader::new` on the bytes of a WAV file and collects its
/// `samples::<i16>()`, or hands back the text of the first error. The result
/// depends on the bytes alone; it is named `wav_pcm16_samples`.
#[verifier::external_body]
fn wav_samples_i16(bytes: &[u8]) -> (r: Result<Vec<i16>, String>)
    ensures
        match r {
            Ok(v) => wav_pcm16_samples(bytes@) == Ok::<Seq<i16>, Seq<char>>(v@),
            Err(e) => wav_pcm16_samples(bytes@) == Err::<Seq<i16>, Seq<char>>(e@),
        },
{
    let mut reader = hound::WavReader::new(std::io::Cursor::new(bytes)).map_err(|e| e.to_string())?;
    reader.samples::<i16>().collect::<Result<Vec<i16>, hound::Error>>().map_err(|e| e.to_string())
}

/// What loading the 16-bit PCM WAV file at `path`, whose contents are
/// `bytes`, gives: its samples (channels interleaved), channel count and
/// sample rate; `BadWav` with the reader's error text when the file cannot
/// be read as WAV; `BadWav` with "expected 16-bit integer PCM" when it holds
/// another sample format.
pub open spec fn pcm16_outcome(path: Seq<char>, bytes: Seq<u8>) -> Result<
    (Seq<i16>, u16, u32),
    (Seq<char>, Seq<char>),
> {
    match wav_header(bytes) {
        Err(reason) => Err((path, reason)),
        Ok(f) => if !(f.is_int && f.bits_per_sample == 16) {
            Err((path, "expected 16-bit integer PCM"@))
        } else {
            match wav_pcm16_samples(bytes) {
                Err(reason) => Err((path, reason)),
                Ok(samples) => Ok((samples, f.channels, f.sample_rate)),
            }
        },
    }
}

/// Reads the 16-bit integer PCM samples of the WAV file at `path`, whose
/// contents are `bytes`: the samples with all channels interleaved, the
/// channel count and the sample rate (see `pcm16_outcome`).
pub fn decode_pcm16(path: &str, bytes: &[u8]) -> (r: Result<(Vec<i16>, u16, u32), PackError>)
    ensures
        match pcm16_outcome(path@, bytes@) {
            Ok((samples, channels, rate)) => r matches Ok((v, c, sr)) && v@ == samples && c
                == channels && sr == rate,
            Err((p, reason)) => r matches Err(PackError::BadWav { path: q, reason: e }) && q@ == p
                && e@ == reason,
        },
        r matches Ok((v, c, sr)) ==> (wav_header(bytes@) matches Ok(f) && f.is_int
            && f.bits_per_sample == 16 && c == f.channels && sr == f.sample_rate
            && wav_pcm16_samples(bytes@) == Ok::<Seq<i16>, Seq<char>>(v@)),
{
    let format = match wav_format(bytes) {
        Ok(f) => f,
        Err(reason) => {
            return Err(PackError::BadWav { path: String::from_str(path), reason });
        },
    };
    if !(format.is_int && format.bits_per_sample == 16) {
        return Err(
            PackError::BadWav {
                path: String::from_str(path),
                reason: String::from_str("expected 16-bit integer PCM"),
            },
        );
    }
    match wav_samples_i16(bytes) {
        Ok(samples) => Ok((samples, format.channels, format.sample_rate)),
        Err(reason) => Err(PackError::BadWav { path: String::from_str(path), reason }),
    }
}

/// A WAV file decodes exactly when its header reads as 16-bit integer PCM
/// and its samples read; the samples, channel count and sample rate that
/// come back are those of the file itself, whatever the sample width.
pub proof fn lemma_pcm16_comes_from_the_file(path: Seq<char>, bytes: Seq<u8>)
    ensures
        pcm16_outcome(path, bytes) matches Ok((samples, channels, rate)) ==> (wav_header(bytes)
            matches Ok(f) && f.is_int && f.bits_per_sample == 16 && channels == f.channels && rate
            == f.sample_rate && wav_pcm16_samples(bytes) == Ok::<Seq<i16>, Seq<char>>(samples)),
        forall|f: WavFormat, samples: Seq<i16>|
            wav_header(bytes) == Ok::<WavFormat, Seq<char>>(f) && f.is_int && f.bits_per_sample == 16
                && wav_pcm16_samples(bytes) == Ok::<Seq<i16>, Seq<char>>(samples) ==> pcm16_outcome(
                path,
                bytes,
            ) == Ok::<(Seq<i16>, u16, u32), (Seq<char>, Seq<char>)>((samples, f.channels, f.sample_rate)),
        pcm16_outcome(path, bytes) matches Err((p, _)) ==> p == path,
{
}

/// The name order is lexicographic: after a common prefix `a`, the string
/// whose next byte is smaller comes first, whatever follows.
pub proof fn lemma_bytes_lt_first_difference(a: Seq<u8>, x: u8, y: u8, s: Seq<u8>, t: Seq<u8>)
    requires
        x < y,
    ensures
        bytes_lt(a + seq![x] + s, a + seq![y] + t),
        !bytes_lt(a + seq![y] + t, a + seq![x] + s),
{
    let l = a + seq![x] + s;
    let r = a + seq![y] + t;
    assert(forall|j: int| 0 <= j < a.len() ==> l[j] == r[j]);
    assert(l[a.len() as int] == x && r[a.len() as int] == y);
    lemma_common_len(l, r, a.len() as int);
    lemma_common_len(r, l, a.len() as int);
}

/// A proper prefix comes before the longer string, and no string comes
/// before itself.
pub proof fn lemma_bytes_lt_prefix(a: Seq<u8>, x: u8, s: Seq<u8>)
    ensures
        bytes_lt(a, a + seq![x] + s),
        !bytes_lt(a + seq![x] + s, a),
        !bytes_lt(a, a),
{
    let r = a + seq![x] + s;
    assert(forall|j: int| 0 <= j < a.len() ==> a[j] == r[j]);
    lemma_common_len(a, r, a.len() as int);
    lemma_common_len(r, a, a.len() as int);
    lemma_bytes_lt_irreflexive(a);
}

} // verus!
