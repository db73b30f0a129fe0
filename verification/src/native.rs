//! The decisions of the native front end: the album-art graphics choice,
//! the settings store and library around the filesystem, and the OS media
//! controls (which commands exist, and when to publish metadata and
//! playback state to the desktop).
use vstd::prelude::*;

use crate::config::{default_view, parse_spec, Config};
use crate::app::{dec, decimal, Rect};
use crate::library::{
    chars_less_pub, chars_lt, lemma_chars_lt_irreflexive, lemma_chars_lt_total,
    lemma_chars_lt_transitive, keys_sorted, sort_paths, string_views, audio_exts, eq_ignore_case, ext_matches, extension_of_path, is_audio_file, is_playlist_file,
    playlist_exts, video_exts,
};
use crate::subtitles::{language_display_name, language_display_name_spec};
use crate::metadata::join_with;
use crate::text::{
    concat_chars, contains_chars, contains_sub, lower, lower_chars, string_from_chars, to_chars, trim,
    trim_chars,
};

verus! {

broadcast use vstd::string::group_string_axioms;

/// The album-art graphics protocol: detected, or forced.
#[derive(Debug, Copy, Clone, Eq, PartialEq, Structural)]
pub enum GraphicsChoice {
    Auto,
    Halfblocks,
    Sixel,
    Kitty,
    Iterm,
}

impl GraphicsChoice {
    /// Whether the protocol is forced rather than detected.
    pub fn is_forced(self) -> (r: bool)
        ensures
            r == (self != GraphicsChoice::Auto),
    {
        !matches!(self, GraphicsChoice::Auto)
    }
}

/// The settings as a store holding their text gives them: parsed when there
/// is text, the defaults otherwise.
pub open spec fn stored_config(content: Option<Seq<char>>) -> crate::config::ConfigView {
    match content {
        Some(c) => parse_spec(c),
        None => default_view(),
    }
}

/// The settings store backed by a file under the OS config directory.
pub struct NativeConfigStore;

impl NativeConfigStore {
    /// The settings from the file's text (`None` when it is missing or
    /// unreadable).
    pub fn load_from(content: Option<&str>) -> (r: Config)
        ensures
            r@ == stored_config(
                match content {
                    Some(c) => Some(c@),
                    None => None,
                },
            ),
    {
        match content {
            Some(c) => Config::parse(c),
            None => Config::default(),
        }
    }

    /// The text to write to the file.
    pub fn text_to_save(cfg: &Config) -> (r: String)
        ensures
            r@ == crate::config::config_text(cfg@),
    {
        cfg.serialize()
    }
}

/// Whether the file browser lists an entry: not hidden, and a directory,
/// an audio or video file, or a playlist.
pub open spec fn browser_keeps_spec(name: Seq<char>, path: Seq<char>, is_dir: bool) -> bool {
    !(name.len() > 0 && name[0] == '.') && (is_dir || ext_matches(extension_of_path(path), audio_exts())
        || ext_matches(extension_of_path(path), video_exts()) || ext_matches(
        extension_of_path(path),
        playlist_exts(),
    ))
}

/// The media library backed by the filesystem.
pub struct NativeLibrary;

impl NativeLibrary {
    /// Whether the browser lists the entry `name` (at `path`).
    pub fn browser_keeps(name: &str, path: &str, is_dir: bool) -> (r: bool)
        ensures
            r == browser_keeps_spec(name@, path@, is_dir),
    {
        let n = crate::text::to_chars(name);
        if n.len() > 0 && n[0] == '.' {
            return false;
        }
        is_dir || is_audio_file(path) || is_playlist_file(path)
    }

    /// The file browser's listing of a directory from its entries
    /// `(name, path, is_dir)`: the parent directory first (when there is
    /// one), then the listed subdirectories, then the listed files, each
    /// group in ascending path order.
    pub fn browse_listing(parent: Option<String>, entries: &[(String, String, bool)]) -> (r: Vec<
        String,
    >)
        ensures
            ({
                let v = string_views(r@);
                let k: int = if parent is Some { 1 } else { 0 };
                let nd = listed_entries(entries@, true).len();
                &&& v.len() == k + nd + listed_entries(entries@, false).len()
                &&& (parent matches Some(p) ==> v[0] == p@)
                &&& keys_sorted(v.subrange(k, k + nd))
                &&& v.subrange(k, k + nd).to_multiset() == listed_entries(entries@, true).to_multiset()
                &&& keys_sorted(v.subrange(k + nd, v.len() as int))
                &&& v.subrange(k + nd, v.len() as int).to_multiset() == listed_entries(
                    entries@,
                    false,
                ).to_multiset()
            }),
    {
        let mut dirs: Vec<String> = Vec::new();
        let mut files: Vec<String> = Vec::new();
        let mut i: usize = 0;
        while i < entries.len()
            invariant
                i <= entries.len(),
                string_views(dirs@) == listed_entries(entries@.take(i as int), true),
                string_views(files@) == listed_entries(entries@.take(i as int), false),
            decreases entries.len() - i,
        {
            proof {
                assert(entries@.take(i + 1).drop_last() =~= entries@.take(i as int));
            }
            let (name, path, is_dir) = (&entries[i].0, &entries[i].1, entries[i].2);
            if Self::browser_keeps(name.as_str(), path.as_str(), is_dir) {
                if is_dir {
                    dirs.push(path.clone());
                    proof {
                        assert(string_views(dirs@) =~= listed_entries(entries@.take(i as int), true).push(
                            path@,
                        ));
                    }
                } else {
                    files.push(path.clone());
                    proof {
                        assert(string_views(files@) =~= listed_entries(entries@.take(i as int), false).push(
                            path@,
                        ));
                    }
                }
            }
            i += 1;
        }
        proof {
            assert(entries@.take(entries.len() as int) =~= entries@);
        }
        let sd = sort_paths(dirs.as_slice());
        let sf = sort_paths(files.as_slice());
        proof {
            vstd::seq_lib::to_multiset_len(string_views(dirs@));
            vstd::seq_lib::to_multiset_len(string_views(sd@));
            vstd::seq_lib::to_multiset_len(string_views(files@));
            vstd::seq_lib::to_multiset_len(string_views(sf@));
        }
        let mut out: Vec<String> = Vec::new();
        match parent {
            Some(p) => out.push(p),
            None => {},
        }
        let ghost k = out@.len() as int;
        let mut a = sd;
        let mut b = sf;
        out.append(&mut a);
        out.append(&mut b);
        proof {
            let v = string_views(out@);
            assert(v.subrange(k, k + sd@.len()) =~= string_views(sd@));
            assert(v.subrange(k + sd@.len(), v.len() as int) =~= string_views(sf@));
        }
        out
    }
}

/// The entries the browser lists, among the directories (`dirs`) or among
/// the files, in their order.
pub open spec fn listed_entries(es: Seq<(String, String, bool)>, dirs: bool) -> Seq<Seq<char>>
    decreases es.len(),
{
    if es.len() == 0 {
        Seq::empty()
    } else {
        let e = es.last();
        let prev = listed_entries(es.drop_last(), dirs);
        if browser_keeps_spec(e.0@, e.1@, e.2) && e.2 == dirs {
            prev.push(e.1@)
        } else {
            prev
        }
    }
}

// ---------------------------------------------------------------------------
// OS media controls
// ---------------------------------------------------------------------------

/// A control request from the OS (media key, desktop widget).
#[derive(Debug, Clone, Copy, PartialEq, Eq, Structural)]
pub enum MediaCommand {
    Toggle,
    Play,
    Pause,
    Next,
    Prev,
    Stop,
    SeekForward,
    SeekBack,
    /// Seek to this position, in milliseconds.
    SetPosition(u64),
    Quit,
}

/// What was last published to the OS.
pub struct MediaSync {
    /// The playing index, title and artist last published.
    pub last_meta: Option<(Option<usize>, String, String)>,
    /// The playback state last published: `None` stopped, `Some(paused)`.
    pub last_state: Option<Option<bool>>,
    /// When the playback state was last published, in milliseconds.
    pub last_push_ms: u64,
}

/// What to publish now.
#[derive(Debug, Clone, Copy, PartialEq, Eq, Structural)]
pub struct SyncPlan {
    /// Publish the track's metadata.
    pub metadata: bool,
    /// Publish this playback state (`None` stopped, `Some(paused)`), or
    /// nothing.
    pub playback: Option<Option<bool>>,
}

pub open spec fn meta_key_matches(
    last: Option<(Option<usize>, String, String)>,
    playing: Option<usize>,
    title: Seq<char>,
    artist: Seq<char>,
) -> bool {
    match last {
        Some(k) => k.0 == playing && k.1@ == title && k.2@ == artist,
        None => false,
    }
}

/// When to publish: metadata when a track plays and its identity changed;
/// the playback state when it changed, or about once a second while
/// playing.
pub open spec fn sync_plan_spec(
    s: MediaSync,
    playing: Option<usize>,
    title: Seq<char>,
    artist: Seq<char>,
    paused: bool,
    now_ms: u64,
) -> SyncPlan {
    let meta_changed = playing is Some && !meta_key_matches(s.last_meta, playing, title, artist);
    let state: Option<bool> = if playing is None { None } else { Some(paused) };
    let state_changed = s.last_state != Some(state);
    let periodic = state == Some(false) && now_ms >= s.last_push_ms + 1000;
    if !(meta_changed || state_changed || periodic) {
        SyncPlan { metadata: meta_changed, playback: None }
    } else {
        SyncPlan { metadata: meta_changed, playback: Some(state) }
    }
}

impl MediaSync {
    pub fn new() -> (r: Self)
        ensures
            r.last_meta is None,
            r.last_state is None,
            r.last_push_ms == 0,
    {
        MediaSync { last_meta: None, last_state: None, last_push_ms: 0 }
    }

    /// Decides what to publish and records it as published.
    pub fn plan(&mut self, playing: Option<usize>, title: &String, artist: &String, paused: bool, now_ms: u64) -> (r:
        SyncPlan)
        ensures
            r == sync_plan_spec(*old(self), playing, title@, artist@, paused, now_ms),
            r.metadata ==> meta_key_matches(final(self).last_meta, playing, title@, artist@),
            !r.metadata ==> final(self).last_meta == old(self).last_meta,
            r.playback matches Some(st) ==> final(self).last_state == Some(st) && final(self).last_push_ms
                == now_ms,
            r.playback is None ==> final(self).last_state == old(self).last_state
                && final(self).last_push_ms == old(self).last_push_ms,
    {
        let same = match &self.last_meta {
            Some(k) => k.0 == playing && k.1 == *title && k.2 == *artist,
            None => false,
        };
        let meta_changed = playing.is_some() && !same;
        let state: Option<bool> = if playing.is_none() {
            None
        } else {
            Some(paused)
        };
        let state_changed = match self.last_state {
            Some(st) => st != state,
            None => true,
        };
        let periodic = state == Some(false) && now_ms >= self.last_push_ms && now_ms - self.last_push_ms
            >= 1000;
        if meta_changed {
            self.last_meta = Some((playing, title.clone(), artist.clone()));
        }
        if !(meta_changed || state_changed || periodic) {
            return SyncPlan { metadata: meta_changed, playback: None };
        }
        self.last_state = Some(state);
        self.last_push_ms = now_ms;
        SyncPlan { metadata: meta_changed, playback: Some(state) }
    }
}

/// The title published for the playing track: its tag, else its display
/// name, else empty.
pub fn media_title(tag: Option<String>, display: Option<String>) -> (r: String)
    ensures
        r@ == match tag {
            Some(t) => t@,
            None => match display {
                Some(d) => d@,
                None => Seq::<char>::empty(),
            },
        },
{
    match tag {
        Some(t) => t,
        None => match display {
            Some(d) => d,
            None => String::new(),
        },
    }
}

/// Publishing twice with nothing changed (and within the second) publishes
/// nothing the second time.
pub proof fn lemma_sync_quiet(
    s: MediaSync,
    playing: Option<usize>,
    title: Seq<char>,
    artist: Seq<char>,
    paused: bool,
    now_ms: u64,
)
    requires
        s.last_state == Some(if playing is None { None::<bool> } else { Some(paused) }),
        playing is Some ==> meta_key_matches(s.last_meta, playing, title, artist),
        now_ms < s.last_push_ms + 1000,
    ensures
        sync_plan_spec(s, playing, title, artist, paused, now_ms) == (SyncPlan {
            metadata: false,
            playback: None,
        }),
{
}

// ---------------------------------------------------------------------------
// Audio track labels
// ---------------------------------------------------------------------------

/// The channel layout named by its channel count: `mono`, `stereo`, `5.1`,
/// `7.1`, else `<n>ch`; none for zero channels.
pub open spec fn channel_desc_spec(channels: u32) -> Option<Seq<char>> {
    if channels == 0 {
        None
    } else if channels == 1 {
        Some("mono"@)
    } else if channels == 2 {
        Some("stereo"@)
    } else if channels == 6 {
        Some("5.1"@)
    } else if channels == 8 {
        Some("7.1"@)
    } else {
        Some(dec(channels as nat) + "ch"@)
    }
}

pub fn channel_desc(channels: u32) -> (r: Option<String>)
    ensures
        match channel_desc_spec(channels) {
            Some(d) => r matches Some(x) && x@ == d,
            None => r is None,
        },
{
    match channels {
        0 => None,
        1 => Some("mono".to_owned()),
        2 => Some("stereo".to_owned()),
        6 => Some("5.1".to_owned()),
        8 => Some("7.1".to_owned()),
        c => {
            let v = concat_chars(decimal(c as u64).as_slice(), to_chars("ch").as_slice());
            Some(string_from_chars(v.as_slice()))
        },
    }
}

/// An audio stream's label: the language's name (an undetermined `und`
/// does not count), else the stream title, else `Track <n>`; with the
/// channel layout in brackets when it is known. Tags count only when they
/// are not blank after trimming.
pub open spec fn audio_track_label_spec(
    title: Option<Seq<char>>,
    language: Option<Seq<char>>,
    n: usize,
    channels: Option<u32>,
) -> Seq<char> {
    let lang: Option<Seq<char>> = match language {
        Some(l) => if trim(l).len() > 0 && trim(l) != "und"@ {
            Some(language_display_name_spec(trim(l)))
        } else {
            None
        },
        None => None,
    };
    let base = match lang {
        Some(name) => name,
        None => match title {
            Some(t) => if trim(t).len() > 0 {
                trim(t)
            } else {
                "Track "@ + dec(n as nat)
            },
            None => "Track "@ + dec(n as nat),
        },
    };
    match channels {
        Some(c) => match channel_desc_spec(c) {
            Some(d) => base + " ("@ + d + ")"@,
            None => base,
        },
        None => base,
    }
}

pub fn audio_track_label(title: Option<&str>, language: Option<&str>, n: usize, channels: Option<u32>) -> (r:
    String)
    ensures
        r@ == audio_track_label_spec(
            match title {
                Some(t) => Some(t@),
                None => None,
            },
            match language {
                Some(l) => Some(l@),
                None => None,
            },
            n,
            channels,
        ),
{
    proof {
        reveal_strlit("und");
    }
    let lang: Option<String> = match language {
        Some(l) => {
            let t = trim_chars(to_chars(l).as_slice());
            if t.len() > 0 && !crate::text::chars_eq_str(t.as_slice(), "und") {
                let ts = string_from_chars(t.as_slice());
                Some(language_display_name(ts.as_str()))
            } else {
                None
            }
        },
        None => None,
    };
    let fallback = concat_chars(to_chars("Track ").as_slice(), decimal(n as u64).as_slice());
    let base: Vec<char> = match lang {
        Some(name) => to_chars(name.as_str()),
        None => match title {
            Some(t) => {
                let tt = trim_chars(to_chars(t).as_slice());
                if tt.len() > 0 {
                    tt
                } else {
                    fallback
                }
            },
            None => fallback,
        },
    };
    let desc = match channels {
        Some(c) => channel_desc(c),
        None => None,
    };
    match desc {
        Some(d) => {
            let a = concat_chars(base.as_slice(), to_chars(" (").as_slice());
            let b = concat_chars(a.as_slice(), to_chars(d.as_str()).as_slice());
            let c = concat_chars(b.as_slice(), to_chars(")").as_slice());
            string_from_chars(c.as_slice())
        },
        None => string_from_chars(base.as_slice()),
    }
}

// ---------------------------------------------------------------------------
// Playlist entries and sidecar covers
// ---------------------------------------------------------------------------

/// A playlist entry resolved against the playlist's directory: an absolute
/// entry as it is, a relative one joined to the directory (as `Path::join`
/// does on Unix).
pub open spec fn resolve_entry_spec(dir: Seq<char>, entry: Seq<char>) -> Seq<char> {
    if entry.len() > 0 && entry[0] == '/' {
        entry
    } else if dir.len() == 0 {
        entry
    } else if dir.last() == '/' {
        dir + entry
    } else {
        dir + seq!['/'] + entry
    }
}

pub fn resolve_entry(dir: &str, entry: &str) -> (r: String)
    ensures
        r@ == resolve_entry_spec(dir@, entry@),
{
    let d = to_chars(dir);
    let e = to_chars(entry);
    if e.len() > 0 && e[0] == '/' {
        return entry.to_owned();
    }
    if d.len() == 0 {
        return entry.to_owned();
    }
    if d[d.len() - 1] == '/' {
        let v = concat_chars(d.as_slice(), e.as_slice());
        return string_from_chars(v.as_slice());
    }
    let mut v = d;
    v.push('/');
    let w = concat_chars(v.as_slice(), e.as_slice());
    string_from_chars(w.as_slice())
}

/// Whether a file of this stem and extension is a sidecar cover image
/// (`cover`, `folder`, `front`, `albumart`, `album`, `artwork` as JPEG,
/// PNG or WebP, in any case).
pub open spec fn is_cover_spec(stem: Seq<char>, ext: Seq<char>) -> bool {
    let s = lower(stem);
    let e = lower(ext);
    (s == "cover"@ || s == "folder"@ || s == "front"@ || s == "albumart"@ || s == "album"@ || s
        == "artwork"@) && (e == "jpg"@ || e == "jpeg"@ || e == "png"@ || e == "webp"@)
}

pub fn is_cover_file(stem: &str, ext: &str) -> (r: bool)
    ensures
        r == is_cover_spec(stem@, ext@),
{
    let s = lower_chars(to_chars(stem).as_slice());
    let e = lower_chars(to_chars(ext).as_slice());
    let st = s.as_slice();
    let et = e.as_slice();
    let stem_ok = crate::text::chars_eq_str(st, "cover") || crate::text::chars_eq_str(st, "folder")
        || crate::text::chars_eq_str(st, "front") || crate::text::chars_eq_str(st, "albumart")
        || crate::text::chars_eq_str(st, "album") || crate::text::chars_eq_str(st, "artwork");
    let ext_ok = crate::text::chars_eq_str(et, "jpg") || crate::text::chars_eq_str(et, "jpeg")
        || crate::text::chars_eq_str(et, "png") || crate::text::chars_eq_str(et, "webp");
    stem_ok && ext_ok
}


// ---------------------------------------------------------------------------
// Picture placement
// ---------------------------------------------------------------------------

/// `n / d` rounded half up, for `d > 0`.
pub open spec fn round_ratio(n: nat, d: nat) -> nat
    recommends
        d > 0,
{
    ((2 * n + d) / (2 * d)) as nat
}

pub proof fn lemma_round_ratio_le(n: nat, d: nat, bound: nat)
    requires
        d > 0,
        n <= bound * d,
    ensures
        round_ratio(n, d) <= bound,
{
    assert((2 * n + d) / (2 * d) <= bound) by (nonlinear_arith)
        requires
            d > 0,
            n <= bound * d,
    {
        assert(2 * n + d < (bound + 1) * (2 * d));
    }
}

/// `n / d` rounded up, for `d > 0`.
pub open spec fn ceil_ratio(n: nat, d: nat) -> nat
    recommends
        d > 0,
{
    ((n + d - 1) / (d as int)) as nat
}

pub open spec fn at_least_one(v: nat) -> nat {
    if v == 0 { 1 } else { v }
}

/// The picture's fitted size in pixels inside `area` cells of
/// `font_w` x `font_h` pixels: scaled by the smaller of the two ratios
/// available / picture size, each side rounded; zero sizes count as 1.
pub open spec fn fit_pixels(area: Rect, iw: nat, ih: nat, font_w: nat, font_h: nat) -> (nat, nat) {
    let iw1 = at_least_one(iw);
    let ih1 = at_least_one(ih);
    let aw: nat = (area.width * at_least_one(font_w)) as nat;
    let ah: nat = (area.height * at_least_one(font_h)) as nat;
    if aw * ih1 <= ah * iw1 {
        (aw, round_ratio(ih1 * aw, iw1))
    } else {
        (round_ratio(iw1 * ah, ih1), ah)
    }
}

/// Cells covered by `px` pixels at `font` pixels a cell, rounded up, at
/// least 1 and at most `avail`.
pub open spec fn cells_for(px: nat, font: nat, avail: nat) -> nat {
    let c = at_least_one(ceil_ratio(px, at_least_one(font)));
    if c > avail { avail } else { c }
}

pub open spec fn fit_cells_w(area: Rect, iw: nat, ih: nat, font_w: nat, font_h: nat) -> nat {
    cells_for(fit_pixels(area, iw, ih, font_w, font_h).0, font_w, area.width as nat)
}

pub open spec fn fit_cells_h(area: Rect, iw: nat, ih: nat, font_w: nat, font_h: nat) -> nat {
    cells_for(fit_pixels(area, iw, ih, font_w, font_h).1, font_h, area.height as nat)
}

/// The picture's cell rectangle, centred in `area`.
pub open spec fn fit_image_rect_spec(area: Rect, iw: nat, ih: nat, font_w: nat, font_h: nat) -> Rect {
    let cw = fit_cells_w(area, iw, ih, font_w, font_h);
    let ch = fit_cells_h(area, iw, ih, font_w, font_h);
    Rect {
        x: (area.x + (area.width - cw) / 2) as u16,
        y: (area.y + (area.height - ch) / 2) as u16,
        width: cw as u16,
        height: ch as u16,
    }
}

fn cells_exec(px: u128, font: u128, avail: u16) -> (r: u16)
    requires
        font >= 1,
        px <= 0x1_0000_0000_0000_0000,
        font <= u16::MAX,
    ensures
        r == cells_for(px as nat, font as nat, avail as nat),
{
    let c = (px + font - 1) / font;
    let c = if c == 0 { 1 } else { c };
    if c > avail as u128 { avail } else { c as u16 }
}

/// Where album art of `iw` x `ih` pixels is drawn inside `area`, given the
/// terminal's cell size in pixels: aspect kept, centred, at least one cell
/// a side when the area has room.
pub fn fit_image_rect(area: Rect, iw: u32, ih: u32, font_w: u16, font_h: u16) -> (r: Rect)
    requires
        area.x + (area.width - fit_cells_w(area, iw as nat, ih as nat, font_w as nat, font_h as nat)) / 2
            <= u16::MAX,
        area.y + (area.height - fit_cells_h(area, iw as nat, ih as nat, font_w as nat, font_h as nat)) / 2
            <= u16::MAX,
    ensures
        r == fit_image_rect_spec(area, iw as nat, ih as nat, font_w as nat, font_h as nat),
        r.width <= area.width,
        r.height <= area.height,
{
    let iw1: u128 = if iw == 0 { 1 } else { iw as u128 };
    let ih1: u128 = if ih == 0 { 1 } else { ih as u128 };
    let fw: u128 = if font_w == 0 { 1 } else { font_w as u128 };
    let fh: u128 = if font_h == 0 { 1 } else { font_h as u128 };
    let awide = area.width as u128;
    let ahigh = area.height as u128;
    assert(awide * fw <= u16::MAX * u16::MAX) by (nonlinear_arith)
        requires fw <= u16::MAX, awide <= u16::MAX;
    assert(ahigh * fh <= u16::MAX * u16::MAX) by (nonlinear_arith)
        requires fh <= u16::MAX, ahigh <= u16::MAX;
    let aw: u128 = awide * fw;
    let ah: u128 = ahigh * fh;
    assert(aw * ih1 <= u16::MAX * u16::MAX * u32::MAX) by (nonlinear_arith)
        requires aw <= u16::MAX * u16::MAX, ih1 <= u32::MAX;
    assert(ah * iw1 <= u16::MAX * u16::MAX * u32::MAX) by (nonlinear_arith)
        requires ah <= u16::MAX * u16::MAX, iw1 <= u32::MAX;
    assert(ih1 * aw == aw * ih1) by (nonlinear_arith);
    assert(iw1 * ah == ah * iw1) by (nonlinear_arith);
    let (pw, ph): (u128, u128) = if aw * ih1 <= ah * iw1 {
        let q = (2 * (ih1 * aw) + iw1) / (2 * iw1);
        proof {
            lemma_round_ratio_le((ih1 * aw) as nat, iw1 as nat, ah as nat);
        }
        (aw, q)
    } else {
        let q = (2 * (iw1 * ah) + ih1) / (2 * ih1);
        proof {
            lemma_round_ratio_le((iw1 * ah) as nat, ih1 as nat, aw as nat);
        }
        (q, ah)
    };
    let cw = cells_exec(pw, fw, area.width);
    let ch = cells_exec(ph, fh, area.height);
    Rect {
        x: area.x + (area.width - cw) / 2,
        y: area.y + (area.height - ch) / 2,
        width: cw,
        height: ch,
    }
}


// ---------------------------------------------------------------------------
// Subtitle tracks of a video
// ---------------------------------------------------------------------------

/// A stream's `language` tag as used: trimmed, and absent when blank or
/// `und`.
pub open spec fn stream_language_spec(raw: Option<Seq<char>>) -> Option<Seq<char>> {
    match raw {
        Some(l) => if trim(l).len() > 0 && trim(l) != "und"@ { Some(trim(l)) } else { None },
        None => None,
    }
}

/// A stream's `title` tag as used: trimmed, and absent when blank.
pub open spec fn stream_title_spec(raw: Option<Seq<char>>) -> Option<Seq<char>> {
    match raw {
        Some(t) => if trim(t).len() > 0 { Some(trim(t)) } else { None },
        None => None,
    }
}

pub fn stream_language(raw: Option<&str>) -> (r: Option<String>)
    ensures
        crate::player::opt_view(r) == stream_language_spec(
            match raw {
                Some(l) => Some(l@),
                None => None,
            },
        ),
{
    match raw {
        Some(l) => {
            let t = trim_chars(to_chars(l).as_slice());
            if t.len() > 0 && !crate::text::chars_eq_str(t.as_slice(), "und") {
                Some(string_from_chars(t.as_slice()))
            } else {
                None
            }
        },
        None => None,
    }
}

pub fn stream_title(raw: Option<&str>) -> (r: Option<String>)
    ensures
        crate::player::opt_view(r) == stream_title_spec(
            match raw {
                Some(t) => Some(t@),
                None => None,
            },
        ),
{
    match raw {
        Some(t) => {
            let v = trim_chars(to_chars(t).as_slice());
            if v.len() > 0 {
                Some(string_from_chars(v.as_slice()))
            } else {
                None
            }
        },
        None => None,
    }
}

/// The qualifiers of a subtitle track: from its disposition flags (forced,
/// hearing impaired, commentary), then from words in its title for the
/// ones the flags did not give.
pub open spec fn qualifier_list(forced: bool, sdh: bool, comment: bool, title: Option<Seq<char>>) -> Seq<
    Seq<char>,
> {
    let l = match title {
        Some(t) => lower(t),
        None => Seq::empty(),
    };
    let has_title = title is Some;
    let q1 = if forced { seq!["forced"@] } else { Seq::empty() };
    let q2 = if sdh { q1.push("SDH"@) } else { q1 };
    let q3 = if comment { q2.push("commentary"@) } else { q2 };
    let q4 = if has_title && !sdh && (contains_sub(l, "sdh"@) || contains_sub(l, "hearing"@)) {
        q3.push("SDH"@)
    } else {
        q3
    };
    let q5 = if has_title && !forced && contains_sub(l, "forced"@) { q4.push("forced"@) } else { q4 };
    if has_title && !comment && contains_sub(l, "comment"@) {
        q5.push("commentary"@)
    } else {
        q5
    }
}

/// `" (q1, q2, …)"`, or nothing without qualifiers.
pub open spec fn qualifier_suffix(q: Seq<Seq<char>>) -> Seq<char> {
    if q.len() == 0 {
        Seq::empty()
    } else {
        " ("@ + join_with(q, ", "@) + ")"@
    }
}

/// A title reads as a name (not a codec tag) when it has a space or a
/// lowercase ASCII letter.
pub open spec fn title_meaningful(t: Seq<char>) -> bool {
    exists|i: int| 0 <= i < t.len() && (t[i] == ' ' || ('a' <= t[i] && t[i] <= 'z'))
}

/// The label of the `n`-th embedded subtitle track: its language's name,
/// else its title when that reads as a name, else `Track n`; followed by
/// its qualifiers.
pub open spec fn subtitle_label_spec(
    language: Option<Seq<char>>,
    title: Option<Seq<char>>,
    forced: bool,
    sdh: bool,
    comment: bool,
    n: nat,
) -> Seq<char> {
    let suffix = qualifier_suffix(qualifier_list(forced, sdh, comment, title));
    match language {
        Some(l) => language_display_name_spec(l) + suffix,
        None => match title {
            Some(t) => if title_meaningful(t) { t + suffix } else { "Track "@ + dec(n) + suffix },
            None => "Track "@ + dec(n) + suffix,
        },
    }
}

fn has_word(lowered: &[char], word: &str) -> (r: bool)
    ensures
        r == contains_sub(lowered@, word@),
{
    contains_chars(lowered, to_chars(word).as_slice())
}

fn push_word(q: &mut Vec<Vec<char>>, word: &str)
    ensures
        final(q)@.len() == old(q)@.len() + 1,
        forall|i: int| 0 <= i < old(q)@.len() ==> #[trigger] final(q)@[i]@ == old(q)@[i]@,
        final(q)@[old(q)@.len() as int]@ == word@,
{
    q.push(to_chars(word));
}

pub open spec fn char_views(v: Seq<Vec<char>>) -> Seq<Seq<char>> {
    v.map_values(|x: Vec<char>| x@)
}

/// The qualifier suffix of a track (see [`qualifier_suffix`]).
fn qualifiers_text(forced: bool, sdh: bool, comment: bool, title: Option<&str>) -> (r: Vec<char>)
    ensures
        r@ == qualifier_suffix(
            qualifier_list(
                forced,
                sdh,
                comment,
                match title {
                    Some(t) => Some(t@),
                    None => None,
                },
            ),
        ),
{
    let ghost tv: Option<Seq<char>> = match title {
        Some(t) => Some(t@),
        None => None,
    };
    let ghost want = qualifier_list(forced, sdh, comment, tv);
    let l: Vec<char> = match title {
        Some(t) => lower_chars(to_chars(t).as_slice()),
        None => Vec::new(),
    };
    let has_title = title.is_some();
    let mut q: Vec<Vec<char>> = Vec::new();
    if forced {
        push_word(&mut q, "forced");
    }
    if sdh {
        push_word(&mut q, "SDH");
    }
    if comment {
        push_word(&mut q, "commentary");
    }
    if has_title && !sdh && (has_word(l.as_slice(), "sdh") || has_word(l.as_slice(), "hearing")) {
        push_word(&mut q, "SDH");
    }
    if has_title && !forced && has_word(l.as_slice(), "forced") {
        push_word(&mut q, "forced");
    }
    if has_title && !comment && has_word(l.as_slice(), "comment") {
        push_word(&mut q, "commentary");
    }
    assert(char_views(q@) =~= want);
    if q.len() == 0 {
        return Vec::new();
    }
    let mut out: Vec<char> = Vec::new();
    let mut i: usize = 0;
    while i < q.len()
        invariant
            i <= q@.len(),
            q@.len() > 0,
            char_views(q@) == want,
            i > 0 ==> out@ == join_with(want.take(i as int), ", "@),
        decreases q.len() - i,
    {
        if i == 0 {
            out = q[0].clone();
            proof {
                assert(want.take(1) =~= seq![want[0]]);
            }
        } else {
            let sep = to_chars(", ");
            let next = concat_chars(concat_chars(out.as_slice(), sep.as_slice()).as_slice(), q[i].as_slice());
            proof {
                assert(want.take(i + 1).drop_last() =~= want.take(i as int));
                assert(want.take(i + 1).last() == want[i as int]);
            }
            out = next;
        }
        i += 1;
    }
    proof {
        assert(want.take(q.len() as int) =~= want);
    }
    let head = concat_chars(to_chars(" (").as_slice(), out.as_slice());
    concat_chars(head.as_slice(), to_chars(")").as_slice())
}

/// Whether `t` has a space or a lowercase ASCII letter.
fn is_meaningful(t: &str) -> (r: bool)
    ensures
        r == title_meaningful(t@),
{
    let v = to_chars(t);
    let mut i: usize = 0;
    while i < v.len()
        invariant
            i <= v@.len(),
            v@ == t@,
            forall|k: int| 0 <= k < i ==> !(v@[k] == ' ' || ('a' <= v@[k] && v@[k] <= 'z')),
        decreases v.len() - i,
    {
        let c = v[i];
        if c == ' ' || ('a' <= c && c <= 'z') {
            return true;
        }
        i += 1;
    }
    false
}

/// The label of the `n`-th embedded subtitle track of a video, from its
/// `language` and `title` tags (as [`stream_language`] and
/// [`stream_title`] give them) and its disposition flags.
pub fn subtitle_track_label(
    language: Option<&str>,
    title: Option<&str>,
    forced: bool,
    sdh: bool,
    comment: bool,
    n: usize,
) -> (r: String)
    ensures
        r@ == subtitle_label_spec(
            match language {
                Some(l) => Some(l@),
                None => None,
            },
            match title {
                Some(t) => Some(t@),
                None => None,
            },
            forced,
            sdh,
            comment,
            n as nat,
        ),
{
    let suffix = qualifiers_text(forced, sdh, comment, title);
    let base: Vec<char> = match language {
        Some(l) => to_chars(language_display_name(l).as_str()),
        None => match title {
            Some(t) => if is_meaningful(t) {
                to_chars(t)
            } else {
                concat_chars(to_chars("Track ").as_slice(), decimal(n as u64).as_slice())
            },
            None => concat_chars(to_chars("Track ").as_slice(), decimal(n as u64).as_slice()),
        },
    };
    string_from_chars(concat_chars(base.as_slice(), suffix.as_slice()).as_slice())
}


// ---------------------------------------------------------------------------
// Sidecar subtitle files
// ---------------------------------------------------------------------------

/// How a file next to a video is taken as its subtitles: an `.srt` or
/// `.vtt` file (any case) whose stem is the video's stem, or the video's
/// stem, a dot and a language tag (stems compared ignoring ASCII case).
/// Gives the lowercased language tag ("" for none) and extension.
pub open spec fn sidecar_match_spec(video_stem: Seq<char>, stem: Seq<char>, ext: Seq<char>) -> Option<
    (Seq<char>, Seq<char>),
> {
    let e = lower(ext);
    let s = lower(stem);
    let v = lower(video_stem);
    if e != "srt"@ && e != "vtt"@ {
        None
    } else if s == v {
        Some((Seq::empty(), e))
    } else if crate::text::has_prefix(s, v.push('.')) {
        Some((s.skip(v.len() as int + 1), e))
    } else {
        None
    }
}

pub fn sidecar_match(video_stem: &str, stem: &str, ext: &str) -> (r: Option<(String, String)>)
    ensures
        match sidecar_match_spec(video_stem@, stem@, ext@) {
            Some((l, e)) => r matches Some(p) && p.0@ == l && p.1@ == e,
            None => r is None,
        },
{
    let e = lower_chars(to_chars(ext).as_slice());
    if !crate::text::chars_eq_str(e.as_slice(), "srt") && !crate::text::chars_eq_str(e.as_slice(), "vtt") {
        return None;
    }
    let sv = lower_chars(to_chars(stem).as_slice());
    let vv = lower_chars(to_chars(video_stem).as_slice());
    if crate::text::chars_eq(sv.as_slice(), vv.as_slice()) {
        return Some((String::new(), string_from_chars(e.as_slice())));
    }
    let mut prefix = vv.clone();
    prefix.push('.');
    if crate::text::starts_with(sv.as_slice(), prefix.as_slice()) {
        let rest = crate::text::sub_chars(sv.as_slice(), prefix.len(), sv.len());
        assert(rest@ =~= sv@.skip(vv@.len() as int + 1));
        return Some((string_from_chars(rest.as_slice()), string_from_chars(e.as_slice())));
    }
    None
}

/// A sidecar track's label: `sidecar (ext)` without a language tag,
/// `lang (sidecar)` with one.
pub open spec fn sidecar_label_spec(lang: Seq<char>, ext: Seq<char>) -> Seq<char> {
    if lang.len() == 0 {
        "sidecar ("@ + ext + ")"@
    } else {
        lang + " (sidecar)"@
    }
}

pub fn sidecar_label(lang: &str, ext: &str) -> (r: String)
    ensures
        r@ == sidecar_label_spec(lang@, ext@),
{
    let l = to_chars(lang);
    let v = if l.len() == 0 {
        concat_chars(concat_chars(to_chars("sidecar (").as_slice(), to_chars(ext).as_slice()).as_slice(), to_chars(")").as_slice())
    } else {
        concat_chars(l.as_slice(), to_chars(" (sidecar)").as_slice())
    };
    string_from_chars(v.as_slice())
}

/// Lexicographic order on (language tag, extension) pairs.
pub open spec fn pair_lt(a: (Seq<char>, Seq<char>), b: (Seq<char>, Seq<char>)) -> bool {
    chars_lt(a.0, b.0) || (a.0 == b.0 && chars_lt(a.1, b.1))
}

proof fn lemma_pair_lt_transitive(a: (Seq<char>, Seq<char>), b: (Seq<char>, Seq<char>), c: (Seq<char>, Seq<char>))
    requires
        pair_lt(a, b),
        pair_lt(b, c),
    ensures
        pair_lt(a, c),
{
    if chars_lt(a.0, b.0) && chars_lt(b.0, c.0) {
        lemma_chars_lt_transitive(a.0, b.0, c.0);
    } else if a.0 == b.0 && b.0 == c.0 {
        lemma_chars_lt_transitive(a.1, b.1, c.1);
    }
}

proof fn lemma_pair_lt_total(a: (Seq<char>, Seq<char>), b: (Seq<char>, Seq<char>))
    ensures
        a == b || pair_lt(a, b) || pair_lt(b, a),
{
    lemma_chars_lt_total(a.0, b.0);
    lemma_chars_lt_total(a.1, b.1);
}

proof fn lemma_pair_lt_irreflexive(a: (Seq<char>, Seq<char>))
    ensures
        !pair_lt(a, a),
{
    lemma_chars_lt_irreflexive(a.0);
    lemma_chars_lt_irreflexive(a.1);
}

pub open spec fn pair_views(v: Seq<(String, String)>) -> Seq<(Seq<char>, Seq<char>)> {
    v.map_values(|p: (String, String)| (p.0@, p.1@))
}

/// `order` lists each index of `keys` once, in ascending key order, equal
/// keys in the order they were listed.
pub open spec fn stable_order(keys: Seq<(Seq<char>, Seq<char>)>, order: Seq<usize>) -> bool {
    &&& order.len() == keys.len()
    &&& forall|i: int| 0 <= i < order.len() ==> #[trigger] order[i] < keys.len()
    &&& forall|i: int, j: int| 0 <= i < j < order.len() ==> #[trigger] order[i] != #[trigger] order[j]
    &&& forall|i: int, j: int|
        0 <= i < j < order.len() ==> !pair_lt(keys[#[trigger] order[j] as int], keys[#[trigger] order[i] as int])
    &&& forall|i: int, j: int|
        0 <= i < j < order.len() && keys[#[trigger] order[i] as int] == keys[#[trigger] order[j] as int]
            ==> order[i] < order[j]
}

fn pair_less(a: &(Vec<char>, Vec<char>), b: &(Vec<char>, Vec<char>)) -> (r: bool)
    ensures
        r == pair_lt((a.0@, a.1@), (b.0@, b.1@)),
{
    if chars_less_pub(a.0.as_slice(), b.0.as_slice()) {
        return true;
    }
    crate::text::chars_eq(a.0.as_slice(), b.0.as_slice()) && chars_less_pub(a.1.as_slice(), b.1.as_slice())
}

/// The order sidecar candidates are read in: by language tag, then by
/// extension, keeping their listing order on ties. Each candidate is its
/// `(language tag, extension)` pair.
pub fn sidecar_order(cands: &[(String, String)]) -> (r: Vec<usize>)
    ensures
        stable_order(pair_views(cands@), r@),
{
    let ghost keys = pair_views(cands@);
    let mut ks: Vec<(Vec<char>, Vec<char>)> = Vec::new();
    let mut i: usize = 0;
    while i < cands.len()
        invariant
            i <= cands@.len(),
            keys == pair_views(cands@),
            ks@.len() == i,
            forall|k: int| 0 <= k < i ==> (#[trigger] ks@[k]).0@ == keys[k].0 && ks@[k].1@ == keys[k].1,
        decreases cands.len() - i,
    {
        ks.push((to_chars(cands[i].0.as_str()), to_chars(cands[i].1.as_str())));
        i += 1;
    }
    let mut order: Vec<usize> = Vec::new();
    let mut m: usize = 0;
    while m < cands.len()
        invariant
            m <= cands@.len(),
            keys == pair_views(cands@),
            ks@.len() == cands@.len(),
            forall|k: int| 0 <= k < ks@.len() ==> (#[trigger] ks@[k]).0@ == keys[k].0 && ks@[k].1@ == keys[k].1,
            order@.len() == m,
            forall|a: int| 0 <= a < order@.len() ==> #[trigger] order@[a] < m,
            forall|a: int, b: int| 0 <= a < b < order@.len() ==> #[trigger] order@[a] != #[trigger] order@[b],
            forall|a: int, b: int|
                0 <= a < b < order@.len() ==> !pair_lt(keys[#[trigger] order@[b] as int], keys[#[trigger] order@[a] as int]),
            forall|a: int, b: int|
                0 <= a < b < order@.len() && keys[#[trigger] order@[a] as int] == keys[#[trigger] order@[b] as int]
                    ==> order@[a] < order@[b],
        decreases cands.len() - m,
    {
        let ghost x = keys[m as int];
        let mut p: usize = 0;
        while p < order.len() && !pair_less(&ks[m], &ks[order[p]])
            invariant
                p <= order@.len(),
                m < ks@.len(),
                ks@.len() == keys.len(),
                forall|k: int| 0 <= k < ks@.len() ==> (#[trigger] ks@[k]).0@ == keys[k].0 && ks@[k].1@ == keys[k].1,
                forall|a: int| 0 <= a < order@.len() ==> #[trigger] order@[a] < m,
                x == keys[m as int],
                forall|a: int| 0 <= a < p ==> !pair_lt(x, keys[#[trigger] order@[a] as int]),
            decreases order.len() - p,
        {
            p += 1;
        }
        let ghost s = order@;
        order.insert(p, m);
        proof {
            let t = order@;
            assert(t =~= s.insert(p as int, m));
            assert forall|a: int| 0 <= a < t.len() implies #[trigger] t[a] < m + 1 by {
                if a < p {
                    assert(t[a] == s[a]);
                } else if a > p {
                    assert(t[a] == s[a - 1]);
                }
            }
            assert forall|a: int, b: int| 0 <= a < b < t.len() implies #[trigger] t[a] != #[trigger] t[b] by {
                if a < p && b < p {
                    assert(t[a] == s[a] && t[b] == s[b]);
                } else if a < p && b == p {
                    assert(t[a] == s[a]);
                } else if a < p {
                    assert(t[a] == s[a] && t[b] == s[b - 1]);
                } else if a == p {
                    assert(t[b] == s[b - 1]);
                } else {
                    assert(t[a] == s[a - 1] && t[b] == s[b - 1]);
                }
            }
            assert forall|a: int, b: int| 0 <= a < b < t.len() implies !pair_lt(
                keys[#[trigger] t[b] as int],
                keys[#[trigger] t[a] as int],
            ) by {
                if b < p {
                    assert(t[a] == s[a] && t[b] == s[b]);
                } else if b == p {
                    assert(t[a] == s[a]);
                    lemma_pair_lt_total(x, keys[s[a] as int]);
                } else if a > p {
                    assert(t[a] == s[a - 1] && t[b] == s[b - 1]);
                } else if a == p {
                    assert(t[b] == s[b - 1]);
                    assert(pair_lt(x, keys[s[p as int] as int]));
                    if b - 1 > p {
                        assert(!pair_lt(keys[s[b - 1] as int], keys[s[p as int] as int]));
                    }
                    if pair_lt(keys[s[b - 1] as int], x) {
                        lemma_pair_lt_transitive(keys[s[b - 1] as int], x, keys[s[p as int] as int]);
                        if b - 1 == p {
                            lemma_pair_lt_irreflexive(keys[s[p as int] as int]);
                        }
                    }
                } else {
                    assert(t[a] == s[a] && t[b] == s[b - 1]);
                    assert(!pair_lt(x, keys[s[a] as int]));
                    assert(pair_lt(x, keys[s[p as int] as int]));
                    let kb = keys[s[b - 1] as int];
                    let kp = keys[s[p as int] as int];
                    let ka = keys[s[a] as int];
                    if b - 1 > p {
                        assert(!pair_lt(kb, kp));
                    }
                    // x < kp <= kb, and ka <= x
                    lemma_pair_lt_total(kp, kb);
                    if pair_lt(kp, kb) {
                        lemma_pair_lt_transitive(x, kp, kb);
                    }
                    lemma_pair_lt_total(ka, x);
                    if pair_lt(kb, ka) {
                        if pair_lt(ka, x) {
                            lemma_pair_lt_transitive(kb, ka, x);
                        }
                        lemma_pair_lt_transitive(kb, x, kb);
                        lemma_pair_lt_irreflexive(kb);
                    }
                }
            }
            assert forall|a: int, b: int|
                0 <= a < b < t.len() && keys[#[trigger] t[a] as int] == keys[#[trigger] t[b] as int]
                    implies t[a] < t[b] by {
                if b < p {
                    assert(t[a] == s[a] && t[b] == s[b]);
                } else if b == p {
                    assert(t[a] == s[a]);
                } else if a > p {
                    assert(t[a] == s[a - 1] && t[b] == s[b - 1]);
                } else if a == p {
                    assert(t[b] == s[b - 1]);
                    assert(pair_lt(x, keys[s[p as int] as int]));
                    if b - 1 > p {
                        assert(!pair_lt(keys[s[b - 1] as int], keys[s[p as int] as int]));
                        lemma_pair_lt_total(keys[s[p as int] as int], keys[s[b - 1] as int]);
                        if pair_lt(keys[s[p as int] as int], keys[s[b - 1] as int]) {
                            lemma_pair_lt_transitive(x, keys[s[p as int] as int], keys[s[b - 1] as int]);
                        }
                    }
                    lemma_pair_lt_irreflexive(x);
                } else {
                    assert(t[a] == s[a] && t[b] == s[b - 1]);
                }
            }
        }
        m += 1;
    }
    order
}

} // verus!
