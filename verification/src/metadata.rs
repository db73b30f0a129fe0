//! Track metadata: the tags and stream facts the player shows.
use vstd::prelude::*;

use crate::app::{dec, decimal};
use crate::text::{concat_chars, string_from_chars, to_chars};

verus! {

broadcast use vstd::string::group_string_axioms;

/// Tags and stream facts of a track. The duration is in milliseconds.
#[derive(Debug)]
pub struct TrackMeta {
    pub title: Option<String>,
    pub artist: Option<String>,
    pub album: Option<String>,
    pub year: Option<u32>,
    pub track_no: Option<u32>,
    pub duration_ms: Option<u64>,
    pub sample_rate: Option<u32>,
    pub channels: Option<u8>,
    pub bitrate: Option<u32>,
    pub artwork: Option<Vec<u8>>,
    pub artwork_mime: Option<String>,
}

/// An optional text as plain values.
pub open spec fn opt_str(o: Option<String>) -> Option<Seq<char>> {
    match o {
        Some(s) => Some(s@),
        None => None,
    }
}

/// An optional byte buffer as plain values.
pub open spec fn opt_bytes(o: Option<Vec<u8>>) -> Option<Seq<u8>> {
    match o {
        Some(v) => Some(v@),
        None => None,
    }
}

impl TrackMeta {
    /// Whether two metadata records hold the same values.
    pub open spec fn same(&self, other: &TrackMeta) -> bool {
        &&& opt_str(self.title) == opt_str(other.title)
        &&& opt_str(self.artist) == opt_str(other.artist)
        &&& opt_str(self.album) == opt_str(other.album)
        &&& self.year == other.year
        &&& self.track_no == other.track_no
        &&& self.duration_ms == other.duration_ms
        &&& self.sample_rate == other.sample_rate
        &&& self.channels == other.channels
        &&& self.bitrate == other.bitrate
        &&& opt_bytes(self.artwork) == opt_bytes(other.artwork)
        &&& opt_str(self.artwork_mime) == opt_str(other.artwork_mime)
    }

    /// Metadata with nothing known.
    pub open spec fn is_empty(&self) -> bool {
        &&& self.title is None
        &&& self.artist is None
        &&& self.album is None
        &&& self.year is None
        &&& self.track_no is None
        &&& self.duration_ms is None
        &&& self.sample_rate is None
        &&& self.channels is None
        &&& self.bitrate is None
        &&& self.artwork is None
        &&& self.artwork_mime is None
    }

    /// A copy with the same values.
    pub fn duplicate(&self) -> (r: TrackMeta)
        ensures
            r.same(self),
    {
        TrackMeta {
            title: copy_str(&self.title),
            artist: copy_str(&self.artist),
            album: copy_str(&self.album),
            year: self.year,
            track_no: self.track_no,
            duration_ms: self.duration_ms,
            sample_rate: self.sample_rate,
            channels: self.channels,
            bitrate: self.bitrate,
            artwork: match &self.artwork {
                Some(v) => Some(copy_bytes(v)),
                None => None,
            },
            artwork_mime: copy_str(&self.artwork_mime),
        }
    }
}

fn copy_str(o: &Option<String>) -> (r: Option<String>)
    ensures
        opt_str(r) == opt_str(*o),
{
    match o {
        Some(s) => Some(s.clone()),
        None => None,
    }
}

fn copy_bytes(v: &Vec<u8>) -> (r: Vec<u8>)
    ensures
        r@ == v@,
{
    let mut out: Vec<u8> = Vec::new();
    let mut i: usize = 0;
    while i < v.len()
        invariant
            i <= v@.len(),
            out@ == v@.take(i as int),
        decreases v.len() - i,
    {
        out.push(v[i]);
        assert(out@ =~= v@.take(i + 1));
        i += 1;
    }
    assert(v@.take(v@.len() as int) == v@);
    out
}

impl Default for TrackMeta {
    fn default() -> (r: Self)
        ensures
            r.is_empty(),
    {
        TrackMeta {
            title: None,
            artist: None,
            album: None,
            year: None,
            track_no: None,
            duration_ms: None,
            sample_rate: None,
            channels: None,
            bitrate: None,
            artwork: None,
            artwork_mime: None,
        }
    }
}

/// The stream facts line of the "Now Playing" panel: sample rate,
/// channels, bitrate and year, those that are known, joined with ` • `;
/// a dash when none is.
pub open spec fn format_parts(m: &TrackMeta) -> Seq<Seq<char>> {
    let a: Seq<Seq<char>> = match m.sample_rate {
        Some(v) => seq![dec(v as nat) + " Hz"@],
        None => Seq::empty(),
    };
    let b: Seq<Seq<char>> = match m.channels {
        Some(v) => seq![dec(v as nat) + " ch"@],
        None => Seq::empty(),
    };
    let c: Seq<Seq<char>> = match m.bitrate {
        Some(v) => seq![dec(v as nat) + " kbps"@],
        None => Seq::empty(),
    };
    let d: Seq<Seq<char>> = match m.year {
        Some(v) => seq![dec(v as nat)],
        None => Seq::empty(),
    };
    a + b + c + d
}

/// The parts joined by `sep`.
pub open spec fn join_with(parts: Seq<Seq<char>>, sep: Seq<char>) -> Seq<char>
    decreases parts.len(),
{
    if parts.len() == 0 {
        Seq::empty()
    } else if parts.len() == 1 {
        parts[0]
    } else {
        join_with(parts.drop_last(), sep) + sep + parts.last()
    }
}

pub open spec fn format_line_spec(m: &TrackMeta) -> Seq<char> {
    if format_parts(m).len() == 0 {
        "\u{2014}"@
    } else {
        join_with(format_parts(m), "  \u{2022}  "@)
    }
}

fn suffixed(v: u64, suffix: &str) -> (r: Vec<char>)
    ensures
        r@ == dec(v as nat) + suffix@,
{
    concat_chars(decimal(v).as_slice(), to_chars(suffix).as_slice())
}

fn push_part(parts: &mut Vec<Vec<char>>, part: Vec<char>)
    ensures
        final(parts)@.len() == old(parts)@.len() + 1,
        forall|i: int| 0 <= i < old(parts)@.len() ==> #[trigger] final(parts)@[i]@ == old(parts)@[i]@,
        final(parts)@[old(parts)@.len() as int]@ == part@,
{
    parts.push(part);
}

impl TrackMeta {
    /// The stream facts line (see [`format_line_spec`]).
    pub fn format_line(&self) -> (r: String)
        ensures
            r@ == format_line_spec(self),
    {
        let ghost want = format_parts(self);
        let mut parts: Vec<Vec<char>> = Vec::new();
        if let Some(v) = self.sample_rate {
            push_part(&mut parts, suffixed(v as u64, " Hz"));
        }
        if let Some(v) = self.channels {
            push_part(&mut parts, suffixed(v as u64, " ch"));
        }
        if let Some(v) = self.bitrate {
            push_part(&mut parts, suffixed(v as u64, " kbps"));
        }
        if let Some(v) = self.year {
            push_part(&mut parts, decimal(v as u64));
        }
        assert(parts@.len() == want.len());
        assert forall|i: int| 0 <= i < want.len() implies #[trigger] parts@[i]@ == want[i] by {}
        if parts.len() == 0 {
            return "\u{2014}".to_owned();
        }
        let mut out: Vec<char> = Vec::new();
        let mut i: usize = 0;
        while i < parts.len()
            invariant
                i <= parts@.len() == want.len(),
                want.len() > 0,
                forall|k: int| 0 <= k < want.len() ==> #[trigger] parts@[k]@ == want[k],
                i > 0 ==> out@ == join_with(want.take(i as int), "  \u{2022}  "@),
                i == 0 ==> out@ == Seq::<char>::empty(),
            decreases parts.len() - i,
        {
            let ghost t = want.take(i + 1);
            assert(t.drop_last() == want.take(i as int));
            assert(t.last() == want[i as int]);
            if i == 0 {
                out = concat_chars(out.as_slice(), parts[i].as_slice());
                assert(out@ =~= t[0]);
            } else {
                let sep = to_chars("  \u{2022}  ");
                let a = concat_chars(out.as_slice(), sep.as_slice());
                out = concat_chars(a.as_slice(), parts[i].as_slice());
            }
            i += 1;
        }
        assert(want.take(want.len() as int) == want);
        string_from_chars(out.as_slice())
    }
}

/// The kinds of embedded picture the player tells apart.
#[derive(Debug, Clone, Copy, PartialEq, Eq, Structural)]
pub enum PictureKind {
    CoverFront,
    Other,
    Icon,
    /// Any other picture type.
    Rest,
}

pub open spec fn picture_score(k: PictureKind) -> int {
    match k {
        PictureKind::CoverFront => 100,
        PictureKind::Other => 60,
        PictureKind::Icon => 30,
        PictureKind::Rest => 20,
    }
}

/// Whether picture `i` is the artwork to show: not empty, scoring higher
/// than every non-empty picture before it and at least as high as every one
/// after it.
pub open spec fn is_best_picture(pics: Seq<(PictureKind, bool)>, i: int) -> bool {
    &&& 0 <= i < pics.len()
    &&& pics[i].1
    &&& forall|j: int| 0 <= j < i && pics[j].1 ==> picture_score(pics[j].0) < picture_score(pics[i].0)
    &&& forall|j: int|
        i < j < pics.len() && pics[j].1 ==> picture_score(pics[j].0) <= picture_score(pics[i].0)
}

/// The artwork shown follows the preference front cover, then "other"
/// pictures, then icons, then the rest: whenever a non-empty picture of a
/// kind exists, the chosen one is of that kind or a preferred one. Among
/// pictures of the chosen kind the first non-empty one wins.
pub proof fn lemma_best_picture_prefers(pics: Seq<(PictureKind, bool)>, i: int, j: int)
    requires
        is_best_picture(pics, i),
        0 <= j < pics.len(),
        pics[j].1,
    ensures
        pics[j].0 == PictureKind::CoverFront ==> pics[i].0 == PictureKind::CoverFront,
        pics[j].0 == PictureKind::Other ==> pics[i].0 == PictureKind::CoverFront || pics[i].0
            == PictureKind::Other,
        pics[j].0 == PictureKind::Icon ==> pics[i].0 != PictureKind::Rest,
        j < i ==> pics[j].0 != pics[i].0,
{
}

/// The embedded picture to show, given each picture's kind and whether it
/// has data: the best-scoring one (front cover over other over icons over
/// the rest), the first among equals; `None` when all are empty.
pub fn best_picture(pics: &[(PictureKind, bool)]) -> (r: Option<usize>)
    ensures
        match r {
            Some(i) => is_best_picture(pics@, i as int),
            None => forall|j: int| 0 <= j < pics@.len() ==> !pics@[j].1,
        },
{
    let mut best: Option<usize> = None;
    let mut best_score: i32 = -1;
    let mut i: usize = 0;
    while i < pics.len()
        invariant
            i <= pics@.len(),
            match best {
                Some(b) => b < i && pics@[b as int].1 && best_score == picture_score(pics@[b as int].0)
                    && (forall|j: int|
                    0 <= j < b && pics@[j].1 ==> picture_score(pics@[j].0) < best_score) && (forall|
                    j: int,
                |
                    b < j < i && pics@[j].1 ==> picture_score(pics@[j].0) <= best_score),
                None => best_score == -1 && forall|j: int| 0 <= j < i ==> !pics@[j].1,
            },
        decreases pics.len() - i,
    {
        let (kind, present) = pics[i];
        if present {
            let score: i32 = match kind {
                PictureKind::CoverFront => 100,
                PictureKind::Other => 60,
                PictureKind::Icon => 30,
                PictureKind::Rest => 20,
            };
            if score > best_score {
                best = Some(i);
                best_score = score;
            }
        }
        i += 1;
    }
    best
}

/// The image formats embedded artwork comes in.
#[derive(Debug, Clone, Copy, PartialEq, Eq, Structural)]
pub enum ImageMime {
    Png,
    Jpeg,
    Gif,
    Bmp,
    Tiff,
    Unknown,
}

/// The MIME type of embedded artwork.
pub fn mime_name(m: ImageMime) -> (r: &'static str)
    ensures
        r@ == match m {
            ImageMime::Png => "image/png"@,
            ImageMime::Jpeg => "image/jpeg"@,
            ImageMime::Gif => "image/gif"@,
            ImageMime::Bmp => "image/bmp"@,
            ImageMime::Tiff => "image/tiff"@,
            ImageMime::Unknown => "application/octet-stream"@,
        },
{
    match m {
        ImageMime::Png => "image/png",
        ImageMime::Jpeg => "image/jpeg",
        ImageMime::Gif => "image/gif",
        ImageMime::Bmp => "image/bmp",
        ImageMime::Tiff => "image/tiff",
        ImageMime::Unknown => "application/octet-stream",
    }
}

} // verus!
