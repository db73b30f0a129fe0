//! The decisions of the browser front end: metadata of picked local files,
//! the settings kept in `localStorage`, keyboard events, overlay placement
//! and the track manifest.
use vstd::prelude::*;

use crate::app::Rect;
use crate::backend::{CoreKey, CoreKeyEvent};
use crate::config::{Config, config_text};
use crate::library::{Track, TrackRef};
use crate::metadata::TrackMeta;
use crate::native::stored_config;

verus! {

broadcast use vstd::string::group_string_axioms;

/// The key the settings are stored under.
pub const STORAGE_KEY: &'static str = "sparkplayer";

/// The index of the last entry for `loc`, if any.
pub open spec fn last_entry(meta: Seq<(String, TrackMeta)>, loc: Seq<char>) -> Option<int>
    decreases meta.len(),
{
    if meta.len() == 0 {
        None
    } else if meta.last().0@ == loc {
        Some(meta.len() - 1)
    } else {
        last_entry(meta.drop_last(), loc)
    }
}

/// The media library of the browser build: tracks come from a manifest or
/// from picked files, whose tags were read when they were picked.
pub struct WebLibrary {
    meta: Vec<(String, TrackMeta)>,
}

impl WebLibrary {
    pub closed spec fn entries(&self) -> Seq<(String, TrackMeta)> {
        self.meta@
    }

    /// A library over the tags read from picked files, by locator (a later
    /// entry for a locator replacing an earlier one).
    pub fn new(meta: Vec<(String, TrackMeta)>) -> (r: Self)
        ensures
            r.entries() == meta@,
    {
        WebLibrary { meta }
    }

    /// The tags of `source`, or nothing known when it was not picked.
    pub fn read_metadata(&self, source: &TrackRef) -> (r: TrackMeta)
        ensures
            match last_entry(self.entries(), source.locator_spec()) {
                Some(i) => r.same(&self.entries()[i].1),
                None => r.is_empty(),
            },
    {
        let loc = source.locator();
        let mut i = self.meta.len();
        assert(self.meta@.take(i as int) == self.meta@);
        while i > 0
            invariant
                i <= self.meta@.len(),
                loc@ == source.locator_spec(),
                last_entry(self.meta@, loc@) == last_entry(self.meta@.take(i as int), loc@),
            decreases i,
        {
            let ghost t = self.meta@.take(i as int);
            assert(t.last() == self.meta@[i - 1]);
            assert(t.drop_last() == self.meta@.take(i - 1));
            if self.meta[i - 1].0 == loc {
                return self.meta[i - 1].1.duplicate();
            }
            i -= 1;
        }
        TrackMeta::default()
    }
}

/// The settings store of the browser build, in `localStorage`.
pub struct LocalStorageConfig;

impl LocalStorageConfig {
    /// The settings from the stored text (`None` when there is none).
    pub fn load_from(content: Option<&str>) -> (r: Config)
        ensures
            r@ == stored_config(
                match content {
                    Some(c) => Some(c@),
                    None => None,
                },
            ),
    {
        match content {
            Some(c) => Config::parse(c),
            None => Config::default(),
        }
    }

    /// The text to store.
    pub fn text_to_save(cfg: &Config) -> (r: String)
        ensures
            r@ == config_text(cfg@),
    {
        cfg.serialize()
    }
}


// ---------------------------------------------------------------------------
// Keyboard
// ---------------------------------------------------------------------------

/// The key a browser `KeyboardEvent.key` value names: the named navigation
/// keys, any single character as itself, anything else `Other`.
pub open spec fn key_name_code(k: Seq<char>) -> CoreKey {
    if k == "ArrowUp"@ {
        CoreKey::Up
    } else if k == "ArrowDown"@ {
        CoreKey::Down
    } else if k == "ArrowLeft"@ {
        CoreKey::Left
    } else if k == "ArrowRight"@ {
        CoreKey::Right
    } else if k == "Enter"@ {
        CoreKey::Enter
    } else if k == "Tab"@ {
        CoreKey::Tab
    } else if k == "Escape"@ {
        CoreKey::Esc
    } else if k == "Home"@ {
        CoreKey::Home
    } else if k == "End"@ {
        CoreKey::End
    } else if k == "PageUp"@ {
        CoreKey::PageUp
    } else if k == "PageDown"@ {
        CoreKey::PageDown
    } else if k.len() == 1 {
        CoreKey::Char(k[0])
    } else {
        CoreKey::Other
    }
}

/// The player's key event for a browser key press named `key`.
pub fn map_keyboard_event(key: &str, ctrl: bool) -> (r: CoreKeyEvent)
    ensures
        r.code == key_name_code(key@),
        r.ctrl == ctrl,
{
    let k = crate::text::to_chars(key);
    let ks = k.as_slice();
    let code = if crate::text::chars_eq_str(ks, "ArrowUp") {
        CoreKey::Up
    } else if crate::text::chars_eq_str(ks, "ArrowDown") {
        CoreKey::Down
    } else if crate::text::chars_eq_str(ks, "ArrowLeft") {
        CoreKey::Left
    } else if crate::text::chars_eq_str(ks, "ArrowRight") {
        CoreKey::Right
    } else if crate::text::chars_eq_str(ks, "Enter") {
        CoreKey::Enter
    } else if crate::text::chars_eq_str(ks, "Tab") {
        CoreKey::Tab
    } else if crate::text::chars_eq_str(ks, "Escape") {
        CoreKey::Esc
    } else if crate::text::chars_eq_str(ks, "Home") {
        CoreKey::Home
    } else if crate::text::chars_eq_str(ks, "End") {
        CoreKey::End
    } else if crate::text::chars_eq_str(ks, "PageUp") {
        CoreKey::PageUp
    } else if crate::text::chars_eq_str(ks, "PageDown") {
        CoreKey::PageDown
    } else if k.len() == 1 {
        CoreKey::Char(k[0])
    } else {
        CoreKey::Other
    };
    CoreKeyEvent::with_ctrl(code, ctrl)
}

/// Keys whose browser default (scrolling, focus cycling) the player
/// suppresses: Tab, the arrows, Page Up/Down, Home, End and Space.
pub open spec fn prevents_default(code: CoreKey) -> bool {
    match code {
        CoreKey::Tab | CoreKey::Up | CoreKey::Down | CoreKey::Left | CoreKey::Right | CoreKey::PageUp
        | CoreKey::PageDown | CoreKey::Home | CoreKey::End => true,
        CoreKey::Char(c) => c == ' ',
        _ => false,
    }
}

pub fn should_prevent_default(code: CoreKey) -> (r: bool)
    ensures
        r == prevents_default(code),
{
    match code {
        CoreKey::Tab | CoreKey::Up | CoreKey::Down | CoreKey::Left | CoreKey::Right | CoreKey::PageUp
        | CoreKey::PageDown | CoreKey::Home | CoreKey::End => true,
        CoreKey::Char(c) => c == ' ',
        _ => false,
    }
}

// ---------------------------------------------------------------------------
// Overlays
// ---------------------------------------------------------------------------

/// A cell rectangle shrunk by one cell on every side, saturating.
pub fn inset_one(r: Rect) -> (o: Rect)
    ensures
        o.x == if r.x == u16::MAX { u16::MAX as int } else { r.x + 1 },
        o.y == if r.y == u16::MAX { u16::MAX as int } else { r.y + 1 },
        o.width == if r.width < 2 { 0 } else { r.width - 2 },
        o.height == if r.height < 2 { 0 } else { r.height - 2 },
{
    Rect {
        x: r.x.saturating_add(1),
        y: r.y.saturating_add(1),
        width: r.width.saturating_sub(2),
        height: r.height.saturating_sub(2),
    }
}

// ---------------------------------------------------------------------------
// Track manifest
// ---------------------------------------------------------------------------

/// One entry of the track manifest, its string fields as found.
#[derive(Debug, Clone)]
pub struct ManifestEntry {
    pub url: Option<String>,
    pub title: Option<String>,
    pub artwork: Option<String>,
    pub subtitles: Option<String>,
}

/// The cover-image and subtitle URLs that load after a track starts.
#[derive(Debug, Clone)]
pub struct TrackExtra {
    pub artwork: Option<String>,
    pub subtitles: Option<String>,
}

pub open spec fn opt_str(o: Option<String>) -> Option<Seq<char>> {
    match o {
        Some(s) => Some(s@),
        None => None,
    }
}

/// The entries that have a URL, in order.
pub open spec fn with_url(es: Seq<ManifestEntry>) -> Seq<ManifestEntry>
    decreases es.len(),
{
    if es.len() == 0 {
        Seq::empty()
    } else if es.last().url is Some {
        with_url(es.drop_last()).push(es.last())
    } else {
        with_url(es.drop_last())
    }
}

/// The entries that have a URL and an artwork or subtitle URL, in order.
pub open spec fn with_extra(es: Seq<ManifestEntry>) -> Seq<ManifestEntry>
    decreases es.len(),
{
    if es.len() == 0 {
        Seq::empty()
    } else if es.last().url is Some && (es.last().artwork is Some || es.last().subtitles is Some) {
        with_extra(es.drop_last()).push(es.last())
    } else {
        with_extra(es.drop_last())
    }
}

/// The playlist and per-URL extras of a manifest: a URL track for each entry
/// with a URL, titled by its title or else its URL; and, for each such entry
/// with an artwork or subtitle URL, that URL's extras (a later entry for a
/// URL replacing an earlier one when looked up with [`extra_for`]).
pub fn manifest_tracks(entries: &[ManifestEntry]) -> (r: (Vec<Track>, Vec<(String, TrackExtra)>))
    ensures
        r.0@.len() == with_url(entries@).len(),
        forall|i: int|
            0 <= i < r.0@.len() ==> {
                let e = #[trigger] with_url(entries@)[i];
                &&& r.0@[i].source is Url
                &&& r.0@[i].source->Url_0@ == e.url->0@
                &&& r.0@[i].display@ == match e.title {
                    Some(t) => t@,
                    None => e.url->0@,
                }
                &&& r.0@[i].source->Url_1@ == r.0@[i].display@
            },
        r.1@.len() == with_extra(entries@).len(),
        forall|i: int|
            0 <= i < r.1@.len() ==> {
                let e = #[trigger] with_extra(entries@)[i];
                &&& r.1@[i].0@ == e.url->0@
                &&& opt_str(r.1@[i].1.artwork) == opt_str(e.artwork)
                &&& opt_str(r.1@[i].1.subtitles) == opt_str(e.subtitles)
            },
{
    let mut tracks: Vec<Track> = Vec::new();
    let mut extras: Vec<(String, TrackExtra)> = Vec::new();
    let mut i: usize = 0;
    while i < entries.len()
        invariant
            i <= entries.len(),
            tracks@.len() == with_url(entries@.take(i as int)).len(),
            forall|k: int|
                0 <= k < tracks@.len() ==> {
                    let e = #[trigger] with_url(entries@.take(i as int))[k];
                    &&& tracks@[k].source is Url
                    &&& tracks@[k].source->Url_0@ == e.url->0@
                    &&& tracks@[k].display@ == match e.title {
                        Some(t) => t@,
                        None => e.url->0@,
                    }
                    &&& tracks@[k].source->Url_1@ == tracks@[k].display@
                },
            extras@.len() == with_extra(entries@.take(i as int)).len(),
            forall|k: int|
                0 <= k < extras@.len() ==> {
                    let e = #[trigger] with_extra(entries@.take(i as int))[k];
                    &&& extras@[k].0@ == e.url->0@
                    &&& opt_str(extras@[k].1.artwork) == opt_str(e.artwork)
                    &&& opt_str(extras@[k].1.subtitles) == opt_str(e.subtitles)
                },
        decreases entries.len() - i,
    {
        proof {
            assert(entries@.take(i + 1).drop_last() =~= entries@.take(i as int));
            assert(entries@.take(i + 1).last() == entries@[i as int]);
        }
        let e = &entries[i];
        match &e.url {
            Some(url) => {
                let title = match &e.title {
                    Some(t) => t.clone(),
                    None => url.clone(),
                };
                if e.artwork.is_some() || e.subtitles.is_some() {
                    let extra = TrackExtra { artwork: e.artwork.clone(), subtitles: e.subtitles.clone() };
                    extras.push((url.clone(), extra));
                }
                tracks.push(Track::from_url(url.clone(), title));
            },
            None => {},
        }
        i += 1;
    }
    proof {
        assert(entries@.take(entries.len() as int) =~= entries@);
    }
    (tracks, extras)
}


/// The index of the last extras entry for `url`, if any.
pub open spec fn last_extra(extras: Seq<(String, TrackExtra)>, url: Seq<char>) -> Option<int>
    decreases extras.len(),
{
    if extras.len() == 0 {
        None
    } else if extras.last().0@ == url {
        Some(extras.len() - 1)
    } else {
        last_extra(extras.drop_last(), url)
    }
}

/// The extras recorded for `url`: those of its last entry.
pub fn extra_for(extras: &[(String, TrackExtra)], url: &str) -> (r: Option<TrackExtra>)
    ensures
        match last_extra(extras@, url@) {
            Some(k) => r matches Some(x) && opt_str(x.artwork) == opt_str(extras@[k].1.artwork)
                && opt_str(x.subtitles) == opt_str(extras@[k].1.subtitles),
            None => r is None,
        },
{
    let u = url.to_owned();
    let mut i: usize = extras.len();
    assert(extras@.take(extras.len() as int) =~= extras@);
    while i > 0
        invariant
            i <= extras.len(),
            u@ == url@,
            last_extra(extras@, url@) == last_extra(extras@.take(i as int), url@),
        decreases i,
    {
        proof {
            assert(extras@.take(i as int).drop_last() =~= extras@.take(i - 1));
            assert(extras@.take(i as int).last() == extras@[i - 1]);
        }
        if extras[i - 1].0 == u {
            let e = &extras[i - 1].1;
            return Some(TrackExtra { artwork: e.artwork.clone(), subtitles: e.subtitles.clone() });
        }
        i -= 1;
    }
    None
}

} // verus!
