//! The logic of the optional shared-memory audio bridge for external
//! visualizers: stream names, stereo frame assembly, the control words an
//! external reader writes back, the generation counter that brackets
//! stream transitions, and the fixed-size metadata text fields. Mapping the
//! memory and the atomic loads and stores are the platform layer's.
use vstd::prelude::*;
use vstd::string::StringSliceAdditionalSpecFns;

use crate::library::{eq_ignore_ascii_case, eq_ignore_case};
use crate::text::{
    concat_chars, lower, string_from_chars, to_chars, trim, trim_chars, has_prefix,
    starts_with_str,
};

verus! {

broadcast use vstd::string::group_string_axioms;

// ---------------------------------------------------------------------------
// Stream names
// ---------------------------------------------------------------------------

/// A character that a stream name keeps; others become `_`.
pub open spec fn name_char_ok(c: char) -> bool {
    ('a' <= c && c <= 'z') || ('A' <= c && c <= 'Z') || ('0' <= c && c <= '9') || c == '_' || c
        == '-' || c == '.'
}

pub open spec fn sanitize(s: Seq<char>) -> Seq<char> {
    s.map_values(|c: char| if name_char_ok(c) { c } else { '_' })
}

pub open spec fn is_sep(c: char) -> bool {
    c == '\\' || c == '/' || c == ':'
}

/// The part of `s` after its last `\`, `/` or `:`.
pub open spec fn last_segment(s: Seq<char>) -> Seq<char>
    decreases s.len(),
{
    if s.len() == 0 {
        s
    } else if is_sep(s.last()) {
        Seq::empty()
    } else {
        last_segment(s.drop_last()).push(s.last())
    }
}

/// The name part of a requested stream name: the default name when blank,
/// the rest after a leading `/`, otherwise the last path segment.
pub open spec fn raw_name(trimmed: Seq<char>) -> Seq<char> {
    if trimmed.len() == 0 {
        "sparkplayer_audio"@
    } else if trimmed[0] == '/' {
        trimmed.drop_first()
    } else {
        last_segment(trimmed)
    }
}

/// The POSIX shared-memory object name for a requested stream name.
pub open spec fn posix_name_spec(name: Seq<char>) -> Seq<char> {
    let raw = raw_name(trim(name));
    if raw.len() == 0 {
        "/sparkplayer_audio"@
    } else {
        seq!['/'] + sanitize(raw)
    }
}

/// The Windows mapping name for a requested stream name.
pub open spec fn windows_name_spec(name: Seq<char>) -> Seq<char> {
    let t = trim(name);
    if eq_ignore_case(t, "Local\\SparkPlayerAudio"@) || eq_ignore_case(t, "Local\\sparkplayer_audio"@) {
        "Local\\SparkPlayerAudio"@
    } else if has_prefix(t, "Local\\"@) || has_prefix(t, "Global\\"@) {
        t
    } else {
        let raw = raw_name(t);
        if eq_ignore_case(raw, "SparkPlayerAudio"@) || eq_ignore_case(raw, "sparkplayer_audio"@) {
            "Local\\SparkPlayerAudio"@
        } else if raw.len() == 0 {
            "Local\\SparkPlayerAudio"@
        } else {
            "Local\\"@ + sanitize(raw)
        }
    }
}

fn sanitize_chars(v: &[char]) -> (r: Vec<char>)
    ensures
        r@ == sanitize(v@),
{
    let mut out: Vec<char> = Vec::new();
    let mut i: usize = 0;
    while i < v.len()
        invariant
            i <= v.len(),
            out@ == sanitize(v@.take(i as int)),
        decreases v.len() - i,
    {
        let c = v[i];
        let ok = ('a' <= c && c <= 'z') || ('A' <= c && c <= 'Z') || ('0' <= c && c <= '9') || c
            == '_' || c == '-' || c == '.';
        out.push(if ok { c } else { '_' });
        assert(sanitize(v@.take(i + 1)) =~= sanitize(v@.take(i as int)).push(
            if name_char_ok(v@[i as int]) { v@[i as int] } else { '_' },
        ));
        i += 1;
    }
    assert(v@.take(v.len() as int) == v@);
    out
}

fn last_segment_chars(v: &[char]) -> (r: Vec<char>)
    ensures
        r@ == last_segment(v@),
{
    let mut start = v.len();
    assert(v@.take(v.len() as int) == v@);
    assert(v@.skip(v.len() as int) =~= Seq::<char>::empty());
    assert(last_segment(v@) + Seq::<char>::empty() == last_segment(v@));
    while start > 0 && !(v[start - 1] == '\\' || v[start - 1] == '/' || v[start - 1] == ':')
        invariant
            start <= v.len(),
            last_segment(v@) == last_segment(v@.take(start as int)) + v@.skip(start as int),
        decreases start,
    {
        let ghost t = v@.take(start as int);
        assert(t.drop_last() == v@.take(start - 1));
        assert(t.last() == v@[start - 1]);
        assert(v@.skip(start - 1) =~= seq![v@[start - 1]] + v@.skip(start as int));
        assert(last_segment(t) == last_segment(t.drop_last()).push(t.last()));
        assert(last_segment(t.drop_last()).push(t.last()) + v@.skip(start as int) =~= last_segment(
            t.drop_last(),
        ) + v@.skip(start - 1));
        start -= 1;
    }
    assert(v@.take(v.len() as int) == v@);
    assert(v@.skip(v.len() as int) =~= Seq::<char>::empty());
    assert(last_segment(v@.take(start as int)) =~= Seq::<char>::empty()) by {
        if start > 0 {
            assert(v@.take(start as int).last() == v@[start - 1]);
        }
    }
    crate::text::sub_chars(v, start, v.len())
}

fn raw_name_chars(t: &[char]) -> (r: Vec<char>)
    ensures
        r@ == raw_name(t@),
{
    if t.len() == 0 {
        to_chars("sparkplayer_audio")
    } else if t[0] == '/' {
        crate::text::sub_chars(t, 1, t.len())
    } else {
        last_segment_chars(t)
    }
}

/// The POSIX shared-memory object name for a requested stream name: `/`
/// and the name part with every character other than ASCII letters,
/// digits, `_`, `-` and `.` replaced by `_`.
pub fn normalize_posix_name(name: &str) -> (r: String)
    ensures
        r@ == posix_name_spec(name@),
{
    let t = trim_chars(to_chars(name).as_slice());
    let raw = raw_name_chars(t.as_slice());
    if raw.len() == 0 {
        return "/sparkplayer_audio".to_owned();
    }
    let mut out: Vec<char> = Vec::new();
    out.push('/');
    let s = sanitize_chars(raw.as_slice());
    let out = concat_chars(out.as_slice(), s.as_slice());
    string_from_chars(out.as_slice())
}

/// The Windows mapping name for a requested stream name: the default name
/// for any spelling of it, names already in a `Local\` or `Global\`
/// namespace as they are, otherwise `Local\` and the sanitized name part.
pub fn normalize_windows_name(name: &str) -> (r: String)
    ensures
        r@ == windows_name_spec(name@),
{
    let t = trim_chars(to_chars(name).as_slice());
    if eq_ignore_ascii_case(t.as_slice(), to_chars("Local\\SparkPlayerAudio").as_slice())
        || eq_ignore_ascii_case(t.as_slice(), to_chars("Local\\sparkplayer_audio").as_slice()) {
        return "Local\\SparkPlayerAudio".to_owned();
    }
    if starts_with_str(t.as_slice(), "Local\\") || starts_with_str(t.as_slice(), "Global\\") {
        return string_from_chars(t.as_slice());
    }
    let raw = raw_name_chars(t.as_slice());
    if eq_ignore_ascii_case(raw.as_slice(), to_chars("SparkPlayerAudio").as_slice())
        || eq_ignore_ascii_case(raw.as_slice(), to_chars("sparkplayer_audio").as_slice()) {
        return "Local\\SparkPlayerAudio".to_owned();
    }
    if raw.len() == 0 {
        return "Local\\SparkPlayerAudio".to_owned();
    }
    let s = sanitize_chars(raw.as_slice());
    let out = concat_chars(to_chars("Local\\").as_slice(), s.as_slice());
    string_from_chars(out.as_slice())
}

/// Every stream name is a valid POSIX object name: a leading `/` and at
/// least one more character, none of them another `/`.
pub proof fn lemma_posix_name_shape(name: Seq<char>)
    ensures
        posix_name_spec(name).len() >= 2,
        posix_name_spec(name)[0] == '/',
        forall|i: int| 1 <= i < posix_name_spec(name).len() ==> #[trigger] posix_name_spec(name)[i] != '/',
{
    let raw = raw_name(trim(name));
    if raw.len() == 0 {
        reveal_strlit("/sparkplayer_audio");
    } else {
        let p = posix_name_spec(name);
        assert forall|i: int| 1 <= i < p.len() implies #[trigger] p[i] != '/' by {
            assert(p[i] == sanitize(raw)[i - 1]);
        }
    }
}

// ---------------------------------------------------------------------------
// Stereo frames
// ---------------------------------------------------------------------------

/// Assembles a source's interleaved samples into stereo frames: a mono
/// sample becomes both channels, and a frame of more channels keeps its
/// first two.
pub struct SharedAudioFramePacker<T> {
    source_channels: usize,
    pending: Vec<T>,
}

impl<T: Copy> SharedAudioFramePacker<T> {
    /// The channels per source frame (at least one).
    pub closed spec fn channels(&self) -> nat {
        self.source_channels as nat
    }

    /// The samples of the frame being assembled.
    pub closed spec fn pending_spec(&self) -> Seq<T> {
        self.pending@
    }

    pub closed spec fn wf(&self) -> bool {
        self.source_channels >= 1 && self.pending@.len() < self.source_channels
    }

    /// A packer for a source with `channels` channels (0 counts as 1).
    pub fn new(channels: u16) -> (r: Self)
        ensures
            r.wf(),
            r.channels() == if channels == 0 { 1 } else { channels as nat },
            r.pending_spec() == Seq::<T>::empty(),
    {
        let source_channels: usize = if channels == 0 {
            1
        } else {
            channels as usize
        };
        SharedAudioFramePacker { source_channels, pending: Vec::new() }
    }

    /// Takes one sample; gives the stereo frame once a whole source frame has
    /// arrived.
    pub fn push_sample(&mut self, sample: T) -> (r: Option<(T, T)>)
        requires
            old(self).wf(),
        ensures
            final(self).wf(),
            final(self).channels() == old(self).channels(),
            ({
                let p = old(self).pending_spec().push(sample);
                if p.len() < old(self).channels() {
                    r is None && final(self).pending_spec() == p
                } else {
                    &&& final(self).pending_spec() == Seq::<T>::empty()
                    &&& r == Some(
                        if old(self).channels() == 1 {
                            (p[0], p[0])
                        } else {
                            (p[0], p[1])
                        },
                    )
                }
            }),
    {
        self.pending.push(sample);
        if self.pending.len() < self.source_channels {
            return None;
        }
        let frame = if self.source_channels == 1 {
            (self.pending[0], self.pending[0])
        } else {
            (self.pending[0], self.pending[1])
        };
        self.pending.clear();
        Some(frame)
    }
}

// ---------------------------------------------------------------------------
// Control words
// ---------------------------------------------------------------------------

/// What an external reader asked of the player since the last poll.
#[derive(Debug, Clone, Copy, PartialEq, Eq, Structural)]
pub struct SharedAudioControl {
    /// `Some(true)` to play, `Some(false)` to pause.
    pub playback: Option<bool>,
    pub next_track: bool,
    pub previous_track: bool,
    /// Steps to move the visualizer mode by, within `-16..=16`.
    pub visualizer_delta: i32,
}

/// The control words as read from the shared header.
#[derive(Debug, Clone, Copy, PartialEq, Eq, Structural)]
pub struct ControlWords {
    pub transport_sequence: u32,
    pub transport_state: u32,
    pub visualizer_sequence: u32,
    pub visualizer_delta: i32,
    pub track_sequence: u32,
    pub track_action: u32,
}

/// The sequence numbers seen at the previous poll.
#[derive(Debug, Clone, Copy, PartialEq, Eq, Structural)]
pub struct ControlMarks {
    pub transport: u32,
    pub visualizer: u32,
    pub track: u32,
}

/// The requests the words carry: each kind counts only when its sequence
/// number moved since the marks.
pub open spec fn decode_control_spec(w: ControlWords, m: ControlMarks) -> SharedAudioControl {
    let track_changed = w.track_sequence != m.track;
    SharedAudioControl {
        playback: if w.transport_sequence != m.transport {
            if w.transport_state == 1 {
                Some(true)
            } else if w.transport_state == 2 {
                Some(false)
            } else {
                None
            }
        } else {
            None
        },
        next_track: track_changed && w.track_action == 1,
        previous_track: track_changed && w.track_action == 2,
        visualizer_delta: if w.visualizer_sequence != m.visualizer {
            if w.visualizer_delta < -16 {
                -16i32
            } else if w.visualizer_delta > 16 {
                16i32
            } else {
                w.visualizer_delta
            }
        } else {
            0
        },
    }
}

/// The marks after a poll: the sequence numbers just read.
pub open spec fn marks_after(w: ControlWords) -> ControlMarks {
    ControlMarks {
        transport: w.transport_sequence,
        visualizer: w.visualizer_sequence,
        track: w.track_sequence,
    }
}

/// Decodes the control words against the marks of the previous poll and
/// gives the marks for the next.
pub fn decode_control(w: ControlWords, m: ControlMarks) -> (r: (SharedAudioControl, ControlMarks))
    ensures
        r.0 == decode_control_spec(w, m),
        r.1 == marks_after(w),
{
    let playback = if w.transport_sequence != m.transport {
        if w.transport_state == 1 {
            Some(true)
        } else if w.transport_state == 2 {
            Some(false)
        } else {
            None
        }
    } else {
        None
    };
    let delta = if w.visualizer_sequence != m.visualizer {
        if w.visualizer_delta < -16 {
            -16
        } else if w.visualizer_delta > 16 {
            16
        } else {
            w.visualizer_delta
        }
    } else {
        0
    };
    let track_changed = w.track_sequence != m.track;
    (
        SharedAudioControl {
            playback,
            next_track: track_changed && w.track_action == 1,
            previous_track: track_changed && w.track_action == 2,
            visualizer_delta: delta,
        },
        ControlMarks {
            transport: w.transport_sequence,
            visualizer: w.visualizer_sequence,
            track: w.track_sequence,
        },
    )
}

/// A request is acted on once: polling the same words again asks nothing.
pub proof fn lemma_control_once(w: ControlWords, m: ControlMarks)
    ensures
        decode_control_spec(w, marks_after(w)) == (SharedAudioControl {
            playback: None,
            next_track: false,
            previous_track: false,
            visualizer_delta: 0,
        }),
        -16 <= decode_control_spec(w, m).visualizer_delta <= 16,
        !(decode_control_spec(w, m).next_track && decode_control_spec(w, m).previous_track),
{
}

// ---------------------------------------------------------------------------
// Generations
// ---------------------------------------------------------------------------

/// The generation a new writer session publishes: two past the stored one
/// (rounded down to even) when the header is valid, at least 2.
pub open spec fn session_generation_spec(header_valid: bool, stored: u64) -> u64 {
    let prev: u64 = if header_valid { (stored - stored % 2) as u64 } else { 0 };
    let next = vstd::wrapping::u64_specs::wrapping_add(prev, 2);
    if next < 2 { 2 } else { next }
}

pub fn session_generation(header_valid: bool, stored: u64) -> (r: u64)
    ensures
        r == session_generation_spec(header_valid, stored),
        r % 2 == 0,
        r >= 2,
{
    let prev: u64 = if header_valid {
        stored - stored % 2
    } else {
        0
    };
    let next = prev.wrapping_add(2);
    if next < 2 {
        2
    } else {
        next
    }
}

/// The generation a new stream publishes: two past the current one.
pub fn stream_generation(current: u64) -> (r: u64)
    requires
        current % 2 == 0,
    ensures
        r == vstd::wrapping::u64_specs::wrapping_add(current, 2),
        r % 2 == 0,
{
    current.wrapping_add(2)
}

/// The marker written while a header update is in progress: one below the
/// generation to publish, so that readers see an odd value meanwhile.
pub fn in_progress_marker(next: u64) -> (r: u64)
    requires
        next % 2 == 0,
        next >= 2,
    ensures
        r == next - 1,
        r % 2 == 1,
{
    next - 1
}

/// The ring slot and sample offset of frame `frame`.
pub fn ring_slot(frame: u64, capacity: u64) -> (r: (u64, u64))
    requires
        capacity > 0,
        capacity <= u64::MAX / 2,
    ensures
        r.0 == frame % capacity,
        r.1 == 2 * (frame % capacity),
        r.1 + 1 < 2 * capacity,
{
    let slot = frame % capacity;
    (slot, slot * 2)
}

// ---------------------------------------------------------------------------
// Metadata text
// ---------------------------------------------------------------------------

/// The size of a metadata text field, its terminating zero included.
pub const METADATA_LEN: usize = 128;

/// The largest character boundary of `bytes` not above `n`.
pub open spec fn boundary_at_most(bytes: Seq<u8>, n: int) -> int
    decreases n,
{
    if n <= 0 {
        0
    } else if vstd::utf8::is_char_boundary(bytes, n) {
        n
    } else {
        boundary_at_most(bytes, n - 1)
    }
}

/// How many bytes of the UTF-8 text a field keeps: as many as fit before the
/// terminating zero, cut back to a character boundary.
pub open spec fn kept_len(bytes: Seq<u8>) -> int {
    boundary_at_most(bytes, if bytes.len() < METADATA_LEN - 1 { bytes.len() as int } else { METADATA_LEN - 1 })
}

/// The field's bytes: the kept text, then zeros.
pub open spec fn metadata_field_spec(bytes: Seq<u8>) -> Seq<u8> {
    bytes.take(kept_len(bytes)) + Seq::new((METADATA_LEN - kept_len(bytes)) as nat, |i: int| 0u8)
}

proof fn lemma_boundary_at_most(bytes: Seq<u8>, n: int)
    requires
        vstd::utf8::valid_utf8(bytes),
    ensures
        0 <= boundary_at_most(bytes, n),
        n >= 0 ==> boundary_at_most(bytes, n) <= n,
        vstd::utf8::is_char_boundary(bytes, boundary_at_most(bytes, n)),
    decreases n,
{
    if n > 0 && !vstd::utf8::is_char_boundary(bytes, n) {
        lemma_boundary_at_most(bytes, n - 1);
    }
}

/// The metadata field for `value`: its UTF-8 bytes, cut to fit before the
/// terminating zero without splitting a character, then zeros.
pub fn metadata_field(value: &str) -> (r: Vec<u8>)
    ensures
        r@ == metadata_field_spec(value.spec_bytes()),
        r@.len() == METADATA_LEN,
{
    proof {
        vstd::utf8::encode_utf8_valid_utf8(value@);
    }
    let bytes = value.as_bytes();
    let ghost bv = value.spec_bytes();
    let mut count: usize = if bytes.len() < METADATA_LEN - 1 {
        bytes.len()
    } else {
        METADATA_LEN - 1
    };
    let ghost start = count as int;
    assert(boundary_at_most(bv, start) == boundary_at_most(bv, count as int));
    while count > 0 && !value.is_char_boundary(count)
        invariant
            count <= start <= bytes@.len(),
            bytes@ == bv,
            bv == value.spec_bytes(),
            vstd::utf8::valid_utf8(bv),
            boundary_at_most(bv, start) == boundary_at_most(bv, count as int),
        decreases count,
    {
        assert(boundary_at_most(bv, count as int) == boundary_at_most(bv, count - 1));
        count -= 1;
    }
    proof {
        vstd::utf8::is_char_boundary_start_end_of_seq(bv);
    }
    assert(count as int == boundary_at_most(bv, count as int));
    let mut out: Vec<u8> = Vec::new();
    let mut i: usize = 0;
    while i < METADATA_LEN
        invariant
            count <= bytes@.len(),
            count <= METADATA_LEN,
            i <= METADATA_LEN,
            out@.len() == i,
            forall|k: int| 0 <= k < i ==> #[trigger] out@[k] == if k < count { bytes@[k] } else { 0u8 },
        decreases METADATA_LEN - i,
    {
        out.push(if i < count { bytes[i] } else { 0u8 });
        i += 1;
    }
    assert(out@ =~= metadata_field_spec(bv));
    out
}

proof fn lemma_boundary_at_most_greatest(bytes: Seq<u8>, n: int, m: int)
    requires
        boundary_at_most(bytes, n) < m <= n,
    ensures
        !vstd::utf8::is_char_boundary(bytes, m),
    decreases n,
{
    if n > 0 && !vstd::utf8::is_char_boundary(bytes, n) && m < n {
        lemma_boundary_at_most_greatest(bytes, n - 1, m);
    }
}

/// The kept text is whole characters: it is valid UTF-8, a prefix of the
/// value's encoding, and leaves room for the terminating zero. It is the
/// longest such prefix: `k` is the largest character boundary at most
/// `min(len, 127)`, the field holds the value's first `k` bytes and zeros
/// everywhere after.
pub proof fn lemma_metadata_whole_chars(value: Seq<char>)
    ensures
        ({
            let b = vstd::utf8::encode_utf8(value);
            let k = kept_len(b);
            let n: int = if b.len() < METADATA_LEN - 1 { b.len() as int } else { METADATA_LEN - 1 };
            let out = metadata_field_spec(b);
            &&& 0 <= k < METADATA_LEN
            &&& k <= b.len()
            &&& vstd::utf8::valid_utf8(b.take(k))
            &&& metadata_field_spec(b)[k] == 0
            &&& vstd::utf8::is_char_boundary(b, k)
            &&& forall|m: int| k < m <= n ==> !vstd::utf8::is_char_boundary(b, m)
            &&& out.len() == METADATA_LEN
            &&& out.take(k) == b.take(k)
            &&& forall|i: int| k <= i < METADATA_LEN ==> #[trigger] out[i] == 0
        }),
{
    let b0 = vstd::utf8::encode_utf8(value);
    let n0: int = if b0.len() < METADATA_LEN - 1 { b0.len() as int } else { METADATA_LEN - 1 };
    assert forall|m: int| kept_len(b0) < m <= n0 implies !vstd::utf8::is_char_boundary(b0, m) by {
        lemma_boundary_at_most_greatest(b0, n0, m);
    }
    let out0 = metadata_field_spec(b0);
    vstd::utf8::encode_utf8_valid_utf8(value);
    lemma_boundary_at_most(b0, n0);
    assert(out0.take(kept_len(b0)) =~= b0.take(kept_len(b0)));

    let b = vstd::utf8::encode_utf8(value);
    vstd::utf8::encode_utf8_valid_utf8(value);
    let n: int = if b.len() < METADATA_LEN - 1 { b.len() as int } else { METADATA_LEN - 1 };
    lemma_boundary_at_most(b, n);
    let k = kept_len(b);
    vstd::utf8::valid_utf8_split(b, k);
    assert(b.take(k) == b.subrange(0, k));
}

} // verus!
