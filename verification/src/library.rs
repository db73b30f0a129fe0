//! Track model and the platform-agnostic parts of library handling: the
//! `TrackRef` source abstraction, file-type classification by extension, the
//! path-name rules those rely on, and playlist parsing and writing.
use vstd::prelude::*;

use crate::text::{
    chars_eq, chars_eq_str, concat_chars, find_char, has_prefix, is_ws, strip_cr, trim_end, trim_start, lemma_split_on_nonempty, lines, lines_of, lower,
    lower_chars, parse_uint_spec, parse_unsigned, split_chars, split_on, starts_with_str,
    string_from_chars, sub_chars, to_chars, trim, trim_bounds, trim_chars,
};

verus! {

broadcast use vstd::string::group_string_axioms;

// ---------------------------------------------------------------------------
// Path names (Unix `/`-separated, as `std::path::Path` reads them)
// ---------------------------------------------------------------------------

/// The `".."` component.
pub open spec fn dot_dot() -> Seq<char> {
    seq!['.', '.']
}

/// Whether a `/`-separated piece is not a named component (empty or `"."`).
pub open spec fn is_skipped_piece(c: Seq<char>) -> bool {
    c.len() == 0 || c == seq!['.']
}

/// The last named component among `pieces` (ignoring empty and `"."` pieces).
pub open spec fn last_component(pieces: Seq<Seq<char>>) -> Option<Seq<char>>
    decreases pieces.len(),
{
    if pieces.len() == 0 {
        None
    } else if is_skipped_piece(pieces.last()) {
        last_component(pieces.drop_last())
    } else {
        Some(pieces.last())
    }
}

/// `Path::file_name`: the final component, unless it is `".."` or there is none.
pub open spec fn file_name_of(p: Seq<char>) -> Option<Seq<char>> {
    match last_component(split_on(p, '/')) {
        Some(c) => if c == dot_dot() {
            None
        } else {
            Some(c)
        },
        None => None,
    }
}

/// Whether `i` is the position of the last `'.'` in `f`.
pub open spec fn is_last_dot(f: Seq<char>, i: int) -> bool {
    0 <= i < f.len() && f[i] == '.' && forall|k: int| i < k < f.len() ==> f[k] != '.'
}

/// The extension of a file name: the text after its last `'.'`, provided
/// that dot is not the first character.
pub open spec fn extension_of_name(f: Seq<char>) -> Option<Seq<char>> {
    if exists|i: int| is_last_dot(f, i) {
        let i = choose|i: int| is_last_dot(f, i);
        if i == 0 {
            None
        } else {
            Some(f.subrange(i + 1, f.len() as int))
        }
    } else {
        None
    }
}

/// `Path::extension`.
pub open spec fn extension_of_path(p: Seq<char>) -> Option<Seq<char>> {
    match file_name_of(p) {
        Some(f) => extension_of_name(f),
        None => None,
    }
}

/// The name a path is shown and classified under: its file name, else the
/// whole path.
pub open spec fn display_name_of(p: Seq<char>) -> Seq<char> {
    match file_name_of(p) {
        Some(f) => f,
        None => p,
    }
}

proof fn lemma_last_dot_unique(f: Seq<char>, i: int, j: int)
    requires
        is_last_dot(f, i),
        is_last_dot(f, j),
    ensures
        i == j,
{
}

/// The final component of `path` (see [`file_name_of`]).
pub fn file_name(path: &str) -> (r: Option<String>)
    ensures
        r matches Some(s) ==> file_name_of(path@) == Some(s@),
        r is None ==> file_name_of(path@) is None,
{
    let v = to_chars(path);
    let pieces = split_chars(v.as_slice(), '/');
    proof {
        lemma_split_on_nonempty(v@, '/');
    }
    let ghost ps = split_on(v@, '/');
    let dots: Vec<char> = vec!['.'];
    let mut k = pieces.len();
    assert(ps.take(ps.len() as int) == ps);
    assert(ps == split_on(path@, '/'));
    while k > 0
        invariant
            k <= pieces@.len() == ps.len(),
            forall|m: int| 0 <= m < ps.len() ==> #[trigger] pieces@[m]@ == ps[m],
            dots@ == seq!['.'],
            ps == split_on(path@, '/'),
            last_component(ps.take(k as int)) == last_component(ps),
        decreases k,
    {
        let piece = &pieces[k - 1];
        assert(ps.take(k as int).last() == ps[k - 1]);
        assert(ps.take(k as int).drop_last() == ps.take(k - 1));
        if piece.len() == 0 || chars_eq(piece.as_slice(), dots.as_slice()) {
            k -= 1;
        } else {
            if piece.len() == 2 && piece[0] == '.' && piece[1] == '.' {
                assert(piece@ =~= dot_dot());
                assert(!is_skipped_piece(ps[k - 1]));
                assert(last_component(ps.take(k as int)) == Some(ps[k - 1]));
                return None;
            }
            assert(piece@ != dot_dot());
            assert(!is_skipped_piece(ps[k - 1]));
            assert(last_component(ps.take(k as int)) == Some(ps[k - 1]));
            assert(last_component(split_on(path@, '/')) == Some(piece@));
            assert(file_name_of(path@) == Some(piece@));
            return Some(string_from_chars(piece.as_slice()));
        }
    }
    assert(ps.take(0).len() == 0);
    None
}

/// The extension of a file name (see [`extension_of_name`]).
pub fn name_extension(name: &[char]) -> (r: Option<Vec<char>>)
    ensures
        r matches Some(e) ==> extension_of_name(name@) == Some(e@),
        r is None ==> extension_of_name(name@) is None,
{
    let mut i = name.len();
    while i > 0
        invariant
            i <= name.len(),
            forall|k: int| i <= k < name.len() ==> name@[k] != '.',
        decreases i,
    {
        if name[i - 1] == '.' {
            let d = i - 1;
            assert(is_last_dot(name@, d as int));
            proof {
                assert forall|j: int| is_last_dot(name@, j) implies j == d by {
                    lemma_last_dot_unique(name@, j, d as int);
                }
            }
            if d == 0 {
                return None;
            }
            return Some(sub_chars(name, d + 1, name.len()));
        }
        i -= 1;
    }
    assert(!exists|j: int| is_last_dot(name@, j));
    None
}

/// `Path::extension` of a path string.
pub fn path_extension(path: &str) -> (r: Option<String>)
    ensures
        r matches Some(s) ==> extension_of_path(path@) == Some(s@),
        r is None ==> extension_of_path(path@) is None,
{
    match file_name(path) {
        Some(f) => {
            let fv = to_chars(f.as_str());
            match name_extension(fv.as_slice()) {
                Some(e) => Some(string_from_chars(e.as_slice())),
                None => None,
            }
        },
        None => None,
    }
}

/// The name used to show a path: its file name, or the whole path when it
/// has none.
pub fn short_name(path: &str) -> (r: String)
    ensures
        r@ == display_name_of(path@),
{
    match file_name(path) {
        Some(f) => f,
        None => path.to_owned(),
    }
}

// ---------------------------------------------------------------------------
// Track sources
// ---------------------------------------------------------------------------

/// Where a track's media comes from: a filesystem path, or a URL together
/// with the file's own (display) name (object URLs carry no extension, so the
/// real name is what classifies audio vs. video).
#[derive(Debug, Clone, PartialEq, Eq)]
pub enum TrackRef {
    Path(String),
    Url(String, String),
}

impl TrackRef {
    /// The string the player loads: the path, or the URL.
    pub open spec fn locator_spec(&self) -> Seq<char> {
        match self {
            TrackRef::Path(p) => p@,
            TrackRef::Url(u, _) => u@,
        }
    }

    /// The name used for classification and display.
    pub open spec fn name_spec(&self) -> Seq<char> {
        match self {
            TrackRef::Path(p) => display_name_of(p@),
            TrackRef::Url(_, n) => n@,
        }
    }

    /// Lowercased extension of the name, if any.
    pub open spec fn extension_spec(&self) -> Option<Seq<char>> {
        match extension_of_path(self.name_spec()) {
            Some(e) => Some(lower(e)),
            None => None,
        }
    }

    pub fn from_path(path: String) -> (r: Self)
        ensures
            r == TrackRef::Path(path),
    {
        TrackRef::Path(path)
    }

    pub fn from_url(url: String, name: String) -> (r: Self)
        ensures
            r == TrackRef::Url(url, name),
    {
        TrackRef::Url(url, name)
    }

    /// The string the underlying player should load (a path string or a URL).
    pub fn locator(&self) -> (r: String)
        ensures
            r@ == self.locator_spec(),
    {
        match self {
            TrackRef::Path(p) => p.clone(),
            TrackRef::Url(u, _) => u.clone(),
        }
    }

    /// The name used for classification and display (filename or given name).
    pub fn name(&self) -> (r: String)
        ensures
            r@ == self.name_spec(),
    {
        match self {
            TrackRef::Path(p) => short_name(p.as_str()),
            TrackRef::Url(_, n) => n.clone(),
        }
    }

    /// Lowercased file extension derived from the name, if any.
    pub fn extension(&self) -> (r: Option<String>)
        ensures
            r matches Some(s) ==> self.extension_spec() == Some(s@),
            r is None ==> self.extension_spec() is None,
    {
        let name = self.name();
        match path_extension(name.as_str()) {
            Some(e) => {
                let ev = to_chars(e.as_str());
                let lv = lower_chars(ev.as_slice());
                Some(string_from_chars(lv.as_slice()))
            },
            None => None,
        }
    }
}

/// A playlist entry: its source and the text shown for it.
#[derive(Debug, Clone)]
pub struct Track {
    pub source: TrackRef,
    pub display: String,
}

impl Track {
    pub fn from_path(path: String) -> (r: Self)
        ensures
            r.source == TrackRef::Path(path),
            r.display@ == display_name_of(path@),
    {
        let display = short_name(path.as_str());
        Track { source: TrackRef::Path(path), display }
    }

    pub fn from_url(url: String, display: String) -> (r: Self)
        ensures
            r.source is Url,
            r.source->Url_0 == url,
            r.source->Url_1@ == display@,
            r.display == display,
    {
        let name = display.clone();
        Track { source: TrackRef::Url(url, name), display }
    }
}

// ---------------------------------------------------------------------------
// Classification by extension
// ---------------------------------------------------------------------------

/// ASCII case-insensitive equality (`str::eq_ignore_ascii_case`).
pub open spec fn eq_ignore_case(a: Seq<char>, b: Seq<char>) -> bool {
    lower(a) == lower(b)
}

/// Whether `ext` is present and matches one of `exts`, ignoring ASCII case.
pub open spec fn ext_matches(ext: Option<Seq<char>>, exts: Seq<Seq<char>>) -> bool {
    match ext {
        Some(e) => exists|i: int| 0 <= i < exts.len() && eq_ignore_case(exts[i], e),
        None => false,
    }
}

/// The audio extensions the player supports.
pub open spec fn audio_exts() -> Seq<Seq<char>> {
    seq!["mp3"@, "wav"@, "ogg"@, "flac"@, "m4a"@, "aac"@, "opus"@, "wma"@]
}

/// The video extensions the player supports.
pub open spec fn video_exts() -> Seq<Seq<char>> {
    seq!["mp4"@, "mkv"@, "avi"@, "mov"@, "webm"@, "m4v"@]
}

/// The playlist extensions the player reads.
pub open spec fn playlist_exts() -> Seq<Seq<char>> {
    seq!["m3u"@, "m3u8"@, "pls"@]
}

/// Whether `a` equals `b` ignoring ASCII case.
pub fn eq_ignore_ascii_case(a: &[char], b: &[char]) -> (r: bool)
    ensures
        r == eq_ignore_case(a@, b@),
{
    let la = lower_chars(a);
    let lb = lower_chars(b);
    chars_eq(la.as_slice(), lb.as_slice())
}

/// The character views of a sequence of strings.
pub open spec fn str_views(xs: Seq<&str>) -> Seq<Seq<char>> {
    xs.map_values(|x: &str| x@)
}

fn ext_in(ext: Option<&str>, exts: &[&str]) -> (r: bool)
    ensures
        r == ext_matches(
            match ext {
                Some(e) => Some(e@),
                None => None,
            },
            str_views(exts@),
        ),
{
    match ext {
        None => false,
        Some(e) => {
            let ev = to_chars(e);
            let ghost xs = str_views(exts@);
            let mut i: usize = 0;
            while i < exts.len()
                invariant
                    i <= exts.len(),
                    ev@ == e@,
                    ext == Some(e),
                    xs == str_views(exts@),
                    forall|k: int| 0 <= k < i ==> !eq_ignore_case(#[trigger] xs[k], e@),
                decreases exts.len() - i,
            {
                let xv = to_chars(exts[i]);
                if eq_ignore_ascii_case(xv.as_slice(), ev.as_slice()) {
                    assert(xs[i as int] == exts@[i as int]@);
                    assert(eq_ignore_case(xs[i as int], e@));
                    assert(ext_matches(Some(e@), xs));
                    return true;
                }
                i += 1;
            }
            false
        },
    }
}

/// `Some(e@)` for a present string, `None` otherwise.
pub open spec fn opt_view(ext: Option<&str>) -> Option<Seq<char>> {
    match ext {
        Some(e) => Some(e@),
        None => None,
    }
}

/// Whether the extension names playable media (audio, or video, whose
/// soundtrack plays too).
pub fn is_audio_ext(ext: Option<&str>) -> (r: bool)
    ensures
        r == (ext_matches(opt_view(ext), audio_exts()) || ext_matches(opt_view(ext), video_exts())),
{
    let a = ["mp3", "wav", "ogg", "flac", "m4a", "aac", "opus", "wma"];
    let v = ["mp4", "mkv", "avi", "mov", "webm", "m4v"];
    assert(str_views(a@) =~= audio_exts());
    assert(str_views(v@) =~= video_exts());
    ext_in(ext, &a) || ext_in(ext, &v)
}

/// Whether the extension names a video container.
pub fn is_video_ext(ext: Option<&str>) -> (r: bool)
    ensures
        r == ext_matches(opt_view(ext), video_exts()),
{
    let v = ["mp4", "mkv", "avi", "mov", "webm", "m4v"];
    assert(str_views(v@) =~= video_exts());
    ext_in(ext, &v)
}

/// Whether the extension names a playlist.
pub fn is_playlist_ext(ext: Option<&str>) -> (r: bool)
    ensures
        r == ext_matches(opt_view(ext), playlist_exts()),
{
    let p = ["m3u", "m3u8", "pls"];
    assert(str_views(p@) =~= playlist_exts());
    ext_in(ext, &p)
}

/// Lowercasing leaves a text without uppercase ASCII letters as it is.
proof fn lemma_lower_unchanged(s: Seq<char>)
    requires
        forall|k: int| 0 <= k < s.len() ==> !('A' <= #[trigger] s[k] && s[k] <= 'Z'),
    ensures
        lower(s) == s,
{
    assert(lower(s) =~= s);
}

proof fn lemma_ext_words()
    ensures
        forall|i: int| 0 <= i < playlist_exts().len() ==> lower(#[trigger] playlist_exts()[i])
            == playlist_exts()[i] && playlist_exts()[i].len() >= 3,
        forall|j: int| 0 <= j < audio_exts().len() ==> lower(#[trigger] audio_exts()[j])
            == audio_exts()[j] && audio_exts()[j].len() >= 3,
        forall|j: int| 0 <= j < video_exts().len() ==> lower(#[trigger] video_exts()[j])
            == video_exts()[j] && video_exts()[j].len() >= 3,
        forall|i: int, j: int|
            0 <= i < playlist_exts().len() && 0 <= j < audio_exts().len() ==> #[trigger] playlist_exts()[i]
                != #[trigger] audio_exts()[j],
        forall|i: int, j: int|
            0 <= i < playlist_exts().len() && 0 <= j < video_exts().len() ==> #[trigger] playlist_exts()[i]
                != #[trigger] video_exts()[j],
{
    reveal_strlit("m3u");
    reveal_strlit("m3u8");
    reveal_strlit("pls");
    reveal_strlit("mp3");
    reveal_strlit("wav");
    reveal_strlit("ogg");
    reveal_strlit("flac");
    reveal_strlit("m4a");
    reveal_strlit("aac");
    reveal_strlit("opus");
    reveal_strlit("wma");
    reveal_strlit("mp4");
    reveal_strlit("mkv");
    reveal_strlit("avi");
    reveal_strlit("mov");
    reveal_strlit("webm");
    reveal_strlit("m4v");
    let ps = playlist_exts();
    let aus = audio_exts();
    let vs = video_exts();
    assert forall|i: int| 0 <= i < ps.len() implies lower(#[trigger] ps[i]) == ps[i] && ps[i].len() >= 3 by {
        lemma_lower_unchanged(ps[i]);
    }
    assert forall|j: int| 0 <= j < aus.len() implies lower(#[trigger] aus[j]) == aus[j] && aus[j].len() >= 3 by {
        lemma_lower_unchanged(aus[j]);
    }
    assert forall|j: int| 0 <= j < vs.len() implies lower(#[trigger] vs[j]) == vs[j] && vs[j].len() >= 3 by {
        lemma_lower_unchanged(vs[j]);
    }
    assert forall|i: int, j: int| 0 <= i < ps.len() && 0 <= j < aus.len() implies #[trigger] ps[i]
        != #[trigger] aus[j] by {
        if ps[i] == aus[j] {
            assert(ps[i][0] == aus[j][0] && ps[i][1] == aus[j][1] && ps[i][2] == aus[j][2]);
        }
    }
    assert forall|i: int, j: int| 0 <= i < ps.len() && 0 <= j < vs.len() implies #[trigger] ps[i]
        != #[trigger] vs[j] by {
        if ps[i] == vs[j] {
            assert(ps[i][0] == vs[j][0] && ps[i][1] == vs[j][1] && ps[i][2] == vs[j][2]);
        }
    }
}

/// The extensions by name, in any ASCII case: audio is mp3, wav, ogg, flac,
/// m4a, aac, opus and wma; video is mp4, mkv, avi, mov, webm and m4v;
/// playlists are m3u, m3u8 and pls.
pub proof fn lemma_extension_names(e: Seq<char>)
    ensures
        ext_matches(Some(e), audio_exts()) <==> (lower(e) == "mp3"@ || lower(e) == "wav"@ || lower(e)
            == "ogg"@ || lower(e) == "flac"@ || lower(e) == "m4a"@ || lower(e) == "aac"@ || lower(e)
            == "opus"@ || lower(e) == "wma"@),
        ext_matches(Some(e), video_exts()) <==> (lower(e) == "mp4"@ || lower(e) == "mkv"@ || lower(e)
            == "avi"@ || lower(e) == "mov"@ || lower(e) == "webm"@ || lower(e) == "m4v"@),
        ext_matches(Some(e), playlist_exts()) <==> (lower(e) == "m3u"@ || lower(e) == "m3u8"@
            || lower(e) == "pls"@),
{
    lemma_ext_words();
    let a = audio_exts();
    let v = video_exts();
    let p = playlist_exts();
    assert forall|i: int| 0 <= i < a.len() implies eq_ignore_case(#[trigger] a[i], e) == (a[i]
        == lower(e)) by {
        assert(lower(a[i]) == a[i]);
    }
    assert forall|i: int| 0 <= i < v.len() implies eq_ignore_case(#[trigger] v[i], e) == (v[i]
        == lower(e)) by {
        assert(lower(v[i]) == v[i]);
    }
    assert forall|i: int| 0 <= i < p.len() implies eq_ignore_case(#[trigger] p[i], e) == (p[i]
        == lower(e)) by {
        assert(lower(p[i]) == p[i]);
    }
    if lower(e) == "mp3"@ { assert(eq_ignore_case(a[0], e)); }
    if lower(e) == "wav"@ { assert(eq_ignore_case(a[1], e)); }
    if lower(e) == "ogg"@ { assert(eq_ignore_case(a[2], e)); }
    if lower(e) == "flac"@ { assert(eq_ignore_case(a[3], e)); }
    if lower(e) == "m4a"@ { assert(eq_ignore_case(a[4], e)); }
    if lower(e) == "aac"@ { assert(eq_ignore_case(a[5], e)); }
    if lower(e) == "opus"@ { assert(eq_ignore_case(a[6], e)); }
    if lower(e) == "wma"@ { assert(eq_ignore_case(a[7], e)); }
    if lower(e) == "mp4"@ { assert(eq_ignore_case(v[0], e)); }
    if lower(e) == "mkv"@ { assert(eq_ignore_case(v[1], e)); }
    if lower(e) == "avi"@ { assert(eq_ignore_case(v[2], e)); }
    if lower(e) == "mov"@ { assert(eq_ignore_case(v[3], e)); }
    if lower(e) == "webm"@ { assert(eq_ignore_case(v[4], e)); }
    if lower(e) == "m4v"@ { assert(eq_ignore_case(v[5], e)); }
    if lower(e) == "m3u"@ { assert(eq_ignore_case(p[0], e)); }
    if lower(e) == "m3u8"@ { assert(eq_ignore_case(p[1], e)); }
    if lower(e) == "pls"@ { assert(eq_ignore_case(p[2], e)); }
}

/// Playlists and media are told apart by extension: no extension names
/// both a playlist and audio or video.
pub proof fn lemma_playlist_not_media(ext: Option<Seq<char>>)
    ensures
        ext_matches(ext, playlist_exts()) ==> !ext_matches(ext, audio_exts()) && !ext_matches(
            ext,
            video_exts(),
        ),
{
    lemma_ext_words();
    if let Some(e) = ext {
        if ext_matches(ext, playlist_exts()) {
            let i = choose|i: int| 0 <= i < playlist_exts().len() && eq_ignore_case(playlist_exts()[i], e);
            let p = playlist_exts()[i];
            assert(lower(p) == p);
            assert forall|j: int| 0 <= j < audio_exts().len() implies !eq_ignore_case(
                #[trigger] audio_exts()[j],
                e,
            ) by {
                assert(lower(audio_exts()[j]) == audio_exts()[j]);
                assert(p != audio_exts()[j]);
            }
            assert forall|j: int| 0 <= j < video_exts().len() implies !eq_ignore_case(
                #[trigger] video_exts()[j],
                e,
            ) by {
                assert(lower(video_exts()[j]) == video_exts()[j]);
                assert(p != video_exts()[j]);
            }
        }
    }
}

/// Whether `path` names playable media, by extension.
pub fn is_audio_file(path: &str) -> (r: bool)
    ensures
        r == (ext_matches(extension_of_path(path@), audio_exts()) || ext_matches(
            extension_of_path(path@),
            video_exts(),
        )),
{
    match path_extension(path) {
        Some(e) => is_audio_ext(Some(e.as_str())),
        None => is_audio_ext(None),
    }
}

/// Whether `path` names a video container, by extension.
pub fn is_video_file(path: &str) -> (r: bool)
    ensures
        r == ext_matches(extension_of_path(path@), video_exts()),
{
    match path_extension(path) {
        Some(e) => is_video_ext(Some(e.as_str())),
        None => is_video_ext(None),
    }
}

/// Whether `path` names a playlist, by extension.
pub fn is_playlist_file(path: &str) -> (r: bool)
    ensures
        r == ext_matches(extension_of_path(path@), playlist_exts()),
{
    match path_extension(path) {
        Some(e) => is_playlist_ext(Some(e.as_str())),
        None => is_playlist_ext(None),
    }
}

/// Classify a [`TrackRef`] as video by its extension.
pub fn is_video(source: &TrackRef) -> (r: bool)
    ensures
        r == ext_matches(source.extension_spec(), video_exts()),
{
    match source.extension() {
        Some(e) => is_video_ext(Some(e.as_str())),
        None => is_video_ext(None),
    }
}


// ---------------------------------------------------------------------------
// Playlists
// ---------------------------------------------------------------------------

/// The character views of a sequence of strings.
pub open spec fn string_views(v: Seq<String>) -> Seq<Seq<char>> {
    v.map_values(|s: String| s@)
}

/// Whether a trimmed M3U line names an entry (not blank, not a `#` directive).
pub open spec fn m3u_keep(l: Seq<char>) -> bool {
    l.len() > 0 && l[0] != '#'
}

/// The entries of an M3U/M3U8 playlist: every trimmed line that is neither
/// blank nor a `#` comment/directive, in order.
pub open spec fn m3u_entries(text: Seq<char>) -> Seq<Seq<char>> {
    lines_of(text).map_values(|l: Seq<char>| trim(l)).filter(|l: Seq<char>| m3u_keep(l))
}

/// Parse an M3U/M3U8 playlist into raw relative/absolute paths (one per line).
pub fn parse_m3u(text: &str) -> (r: Vec<String>)
    ensures
        string_views(r@) == m3u_entries(text@),
{
    let v = to_chars(text);
    let ls = lines(v.as_slice());
    let ghost lsv = lines_of(v@);
    let ghost tr = lsv.map_values(|l: Seq<char>| trim(l));
    let mut out: Vec<String> = Vec::new();
    let mut i: usize = 0;
    while i < ls.len()
        invariant
            i <= ls@.len() == lsv.len() == tr.len(),
            forall|k: int| 0 <= k < ls@.len() ==> #[trigger] ls@[k]@ == lsv[k],
            tr == lsv.map_values(|l: Seq<char>| trim(l)),
            string_views(out@) == tr.take(i as int).filter(|l: Seq<char>| m3u_keep(l)),
        decreases ls.len() - i,
    {
        let t = trim_chars(ls[i].as_slice());
        proof {
            assert(tr.take(i + 1) == tr.take(i as int).push(tr[i as int]));
            tr.take(i as int).lemma_filter_push(tr[i as int], |l: Seq<char>| m3u_keep(l));
        }
        if t.len() > 0 && t[0] != '#' {
            out.push(string_from_chars(t.as_slice()));
            assert(string_views(out@) == string_views(out@.drop_last()).push(t@));
        }
        i += 1;
    }
    assert(tr.take(tr.len() as int) == tr);
    out
}

/// Whether `i` is the position of the first `c` in `s`.
pub open spec fn is_first_index(s: Seq<char>, c: char, i: int) -> bool {
    0 <= i < s.len() && s[i] == c && forall|k: int| 0 <= k < i ==> s[k] != c
}

/// One `FileN=path` line of a PLS playlist: the index `N` (0 when it does not
/// read as a number) and the trimmed path, when the path is not blank.
pub open spec fn pls_entry(line: Seq<char>) -> Option<(usize, Seq<char>)> {
    let l = trim(line);
    if has_prefix(l, "File"@) {
        let rest = l.skip(4);
        if exists|e: int| is_first_index(rest, '=', e) {
            let e = choose|e: int| is_first_index(rest, '=', e);
            let n: usize = match parse_uint_spec(rest.take(e), usize::MAX as nat) {
                Some(n) => n as usize,
                None => 0,
            };
            let path = trim(rest.skip(e + 1));
            if path.len() > 0 {
                Some((n, path))
            } else {
                None
            }
        } else {
            None
        }
    } else {
        None
    }
}

/// The `FileN=` entries of a PLS playlist, in file order.
pub open spec fn pls_raw(ls: Seq<Seq<char>>) -> Seq<(usize, Seq<char>)>
    decreases ls.len(),
{
    if ls.len() == 0 {
        Seq::empty()
    } else {
        match pls_entry(ls.last()) {
            Some(e) => pls_raw(ls.drop_last()).push(e),
            None => pls_raw(ls.drop_last()),
        }
    }
}

/// Inserts `x` into `s` after every entry whose index is not larger than its own.
pub open spec fn pls_insert(s: Seq<(usize, Seq<char>)>, x: (usize, Seq<char>)) -> Seq<
    (usize, Seq<char>),
>
    decreases s.len(),
{
    if s.len() == 0 || s.last().0 <= x.0 {
        s.push(x)
    } else {
        pls_insert(s.drop_last(), x).push(s.last())
    }
}

/// The entries stably sorted by index (equal indices keep file order).
pub open spec fn pls_sort(s: Seq<(usize, Seq<char>)>) -> Seq<(usize, Seq<char>)>
    decreases s.len(),
{
    if s.len() == 0 {
        s
    } else {
        pls_insert(pls_sort(s.drop_last()), s.last())
    }
}

/// The paths of a PLS playlist, ordered by their `FileN=` index.
pub open spec fn pls_entries(text: Seq<char>) -> Seq<Seq<char>> {
    pls_sort(pls_raw(lines_of(text))).map_values(|e: (usize, Seq<char>)| e.1)
}

/// Whether the entries are ordered by index.
pub open spec fn pls_ordered(s: Seq<(usize, Seq<char>)>) -> bool {
    forall|i: int, j: int| 0 <= i < j < s.len() ==> s[i].0 <= s[j].0
}

proof fn lemma_pls_insert_at(s: Seq<(usize, Seq<char>)>, x: (usize, Seq<char>), j: int)
    requires
        0 <= j <= s.len(),
        forall|k: int| j <= k < s.len() ==> s[k].0 > x.0,
        j == 0 || s[j - 1].0 <= x.0,
    ensures
        pls_insert(s, x) == s.insert(j, x),
    decreases s.len(),
{
    if s.len() == j {
        assert(s.insert(j, x) =~= s.push(x));
    } else {
        lemma_pls_insert_at(s.drop_last(), x, j);
        assert(s.insert(j, x) =~= s.drop_last().insert(j, x).push(s.last()));
    }
}

proof fn lemma_pls_insert_ordered(s: Seq<(usize, Seq<char>)>, x: (usize, Seq<char>))
    requires
        pls_ordered(s),
    ensures
        pls_ordered(pls_insert(s, x)),
        pls_insert(s, x).len() == s.len() + 1,
    decreases s.len(),
{
    if s.len() == 0 || s.last().0 <= x.0 {
    } else {
        lemma_pls_insert_ordered(s.drop_last(), x);
        let t = pls_insert(s.drop_last(), x);
        lemma_pls_insert_members(s.drop_last(), x);
        let u = t.push(s.last());
        assert forall|i: int, j: int| 0 <= i < j < u.len() implies #[trigger] u[i].0 <= #[trigger] u[j].0 by {
            if j == t.len() {
                if i < t.len() {
                    let m = t[i];
                    if m == x {
                    } else {
                        let k = choose|k: int| 0 <= k < s.drop_last().len() && s.drop_last()[k] == m;
                        assert(s[k] == m);
                    }
                }
            }
        }
    }
}

proof fn lemma_pls_insert_members(s: Seq<(usize, Seq<char>)>, x: (usize, Seq<char>))
    ensures
        forall|i: int|
            0 <= i < pls_insert(s, x).len() ==> (#[trigger] pls_insert(s, x)[i] == x || exists|k: int|
                0 <= k < s.len() && s[k] == pls_insert(s, x)[i]),
        pls_insert(s, x).len() == s.len() + 1,
    decreases s.len(),
{
    if s.len() == 0 || s.last().0 <= x.0 {
        assert forall|i: int| 0 <= i < pls_insert(s, x).len() implies (#[trigger] pls_insert(
            s,
            x,
        )[i] == x || exists|k: int| 0 <= k < s.len() && s[k] == pls_insert(s, x)[i]) by {
            if i < s.len() {
                assert(s[i] == pls_insert(s, x)[i]);
            }
        }
    } else {
        lemma_pls_insert_members(s.drop_last(), x);
        let t = pls_insert(s.drop_last(), x);
        assert forall|i: int| 0 <= i < pls_insert(s, x).len() implies (#[trigger] pls_insert(
            s,
            x,
        )[i] == x || exists|k: int| 0 <= k < s.len() && s[k] == pls_insert(s, x)[i]) by {
            if i < t.len() {
                if t[i] != x {
                    let k = choose|k: int| 0 <= k < s.drop_last().len() && s.drop_last()[k] == t[i];
                    assert(s[k] == pls_insert(s, x)[i]);
                }
            } else {
                assert(s[s.len() - 1] == pls_insert(s, x)[i]);
            }
        }
    }
}

/// The stable sort orders the entries by index.
pub proof fn lemma_pls_sort_ordered(s: Seq<(usize, Seq<char>)>)
    ensures
        pls_ordered(pls_sort(s)),
        pls_sort(s).len() == s.len(),
    decreases s.len(),
{
    if s.len() > 0 {
        lemma_pls_sort_ordered(s.drop_last());
        lemma_pls_insert_ordered(pls_sort(s.drop_last()), s.last());
    }
}

/// The entries of `s` with index `n`, in their order in `s`.
pub open spec fn pls_with_index(s: Seq<(usize, Seq<char>)>, n: usize) -> Seq<(usize, Seq<char>)>
    decreases s.len(),
{
    if s.len() == 0 {
        Seq::empty()
    } else if s.last().0 == n {
        pls_with_index(s.drop_last(), n).push(s.last())
    } else {
        pls_with_index(s.drop_last(), n)
    }
}

proof fn lemma_pls_insert_with_index(s: Seq<(usize, Seq<char>)>, x: (usize, Seq<char>), n: usize)
    ensures
        pls_with_index(pls_insert(s, x), n) == pls_with_index(s, n) + (if x.0 == n {
            seq![x]
        } else {
            Seq::empty()
        }),
    decreases s.len(),
{
    let extra: Seq<(usize, Seq<char>)> = if x.0 == n {
        seq![x]
    } else {
        Seq::empty()
    };
    if s.len() == 0 || s.last().0 <= x.0 {
        let u = s.push(x);
        assert(u.drop_last() =~= s);
        assert(u.last() == x);
        if x.0 == n {
            assert(pls_with_index(s, n).push(x) =~= pls_with_index(s, n) + extra);
        } else {
            assert(pls_with_index(s, n) + extra =~= pls_with_index(s, n));
        }
    } else {
        lemma_pls_insert_with_index(s.drop_last(), x, n);
        let t = pls_insert(s.drop_last(), x);
        let u = t.push(s.last());
        assert(u.drop_last() =~= t);
        assert(u.last() == s.last());
        if s.last().0 == n {
            assert(x.0 != n);
            assert(extra =~= Seq::<(usize, Seq<char>)>::empty());
            assert(pls_with_index(s.drop_last(), n) + extra =~= pls_with_index(s.drop_last(), n));
            assert(pls_with_index(s.drop_last(), n).push(s.last()) + extra =~= pls_with_index(
                s.drop_last(),
                n,
            ).push(s.last()));
        }
    }
}

/// The PLS order is a stable sort: the entries come out ordered by index, as
/// many as went in, and the entries of each index in the order they had.
pub proof fn lemma_pls_sort_stable(s: Seq<(usize, Seq<char>)>, n: usize)
    ensures
        pls_ordered(pls_sort(s)),
        pls_sort(s).len() == s.len(),
        pls_with_index(pls_sort(s), n) == pls_with_index(s, n),
    decreases s.len(),
{
    lemma_pls_sort_ordered(s);
    if s.len() > 0 {
        lemma_pls_sort_stable(s.drop_last(), n);
        lemma_pls_insert_with_index(pls_sort(s.drop_last()), s.last(), n);
        if s.last().0 == n {
            assert(pls_with_index(s.drop_last(), n) + seq![s.last()] =~= pls_with_index(
                s.drop_last(),
                n,
            ).push(s.last()));
        } else {
            assert(pls_with_index(s.drop_last(), n) + Seq::<(usize, Seq<char>)>::empty()
                =~= pls_with_index(s.drop_last(), n));
        }
    }
}

/// Views of exec `(index, path)` pairs.
pub open spec fn pair_views(v: Seq<(usize, Vec<char>)>) -> Seq<(usize, Seq<char>)> {
    v.map_values(|e: (usize, Vec<char>)| (e.0, e.1@))
}

fn pls_line(line: &[char]) -> (r: Option<(usize, Vec<char>)>)
    ensures
        match pls_entry(line@) {
            Some(e) => r matches Some(x) && x.0 == e.0 && x.1@ == e.1,
            None => r is None,
        },
{
    let l = trim_chars(line);
    if !starts_with_str(l.as_slice(), "File") {
        return None;
    }
    proof {
        reveal_strlit("File");
    }
    let rest = sub_chars(l.as_slice(), 4, l.len());
    assert(rest@ == l@.skip(4));
    match find_char(rest.as_slice(), '=') {
        None => {
            assert(!exists|e: int| is_first_index(rest@, '=', e));
            None
        },
        Some(e) => {
            assert(is_first_index(rest@, '=', e as int));
            assert forall|f: int| is_first_index(rest@, '=', f) implies f == e by {
                if f < e {
                } else if f > e {
                }
            }
            let num = sub_chars(rest.as_slice(), 0, e);
            assert(num@ == rest@.take(e as int));
            let n: usize = match parse_unsigned(num.as_slice(), usize::MAX as u64) {
                Some(n) => n as usize,
                None => 0,
            };
            let (a, b) = trim_bounds(rest.as_slice(), e + 1, rest.len());
            assert(rest@.subrange(e + 1, rest@.len() as int) == rest@.skip(e + 1));
            if a < b {
                Some((n, sub_chars(rest.as_slice(), a, b)))
            } else {
                None
            }
        },
    }
}

/// Parse a PLS playlist into raw paths, ordered by their `FileN=` index.
pub fn parse_pls(text: &str) -> (r: Vec<String>)
    ensures
        string_views(r@) == pls_entries(text@),
{
    let v = to_chars(text);
    let ls = lines(v.as_slice());
    let ghost lsv = lines_of(v@);
    let mut sorted: Vec<(usize, Vec<char>)> = Vec::new();
    let mut i: usize = 0;
    while i < ls.len()
        invariant
            i <= ls@.len() == lsv.len(),
            forall|k: int| 0 <= k < ls@.len() ==> #[trigger] ls@[k]@ == lsv[k],
            pair_views(sorted@) == pls_sort(pls_raw(lsv.take(i as int))),
        decreases ls.len() - i,
    {
        proof {
            assert(lsv.take(i + 1).drop_last() == lsv.take(i as int));
            assert(lsv.take(i + 1).last() == lsv[i as int]);
        }
        match pls_line(ls[i].as_slice()) {
            None => {
                assert(pls_raw(lsv.take(i + 1)) == pls_raw(lsv.take(i as int)));
            },
            Some(entry) => {
                let ghost x = (entry.0, entry.1@);
                let mut j = sorted.len();
                while j > 0 && sorted[j - 1].0 > entry.0
                    invariant
                        j <= sorted@.len(),
                        x.0 == entry.0,
                        forall|k: int| j <= k < sorted@.len() ==> #[trigger] sorted@[k].0 > x.0,
                    decreases j,
                {
                    j -= 1;
                }
                proof {
                    let sv = pair_views(sorted@);
                    lemma_pls_insert_at(sv, x, j as int);
                    let raw = pls_raw(lsv.take(i as int));
                    assert(pls_raw(lsv.take(i + 1)) == raw.push(x));
                    assert(raw.push(x).drop_last() == raw);
                    assert(pls_sort(raw.push(x)) == pls_insert(pls_sort(raw), x));
                }
                let ghost before = sorted@;
                sorted.insert(j, entry);
                proof {
                    assert(pair_views(sorted@) =~= pair_views(before).insert(j as int, x));
                }
            },
        }
        i += 1;
    }
    assert(lsv.take(lsv.len() as int) == lsv);
    let mut out: Vec<String> = Vec::new();
    let mut k: usize = 0;
    let ghost sv = pair_views(sorted@);
    while k < sorted.len()
        invariant
            k <= sorted@.len() == sv.len(),
            sv == pair_views(sorted@),
            string_views(out@) == sv.take(k as int).map_values(|e: (usize, Seq<char>)| e.1),
        decreases sorted.len() - k,
    {
        out.push(string_from_chars(sorted[k].1.as_slice()));
        proof {
            assert(sv.take(k + 1) == sv.take(k as int).push(sv[k as int]));
            assert(string_views(out@) =~= string_views(out@.drop_last()).push(sorted@[k as int].1@));
            assert(sv.take(k + 1).map_values(|e: (usize, Seq<char>)| e.1) =~= sv.take(
                k as int,
            ).map_values(|e: (usize, Seq<char>)| e.1).push(sv[k as int].1));
        }
        k += 1;
    }
    assert(sv.take(sv.len() as int) == sv);
    out
}


/// The `#EXTM3U` header line.
pub open spec fn m3u_header() -> Seq<char> {
    seq!['#', 'E', 'X', 'T', 'M', '3', 'U']
}

/// One line per filesystem-backed track (its path and a newline); URL
/// tracks are skipped.
pub open spec fn m3u_body(ts: Seq<Track>) -> Seq<char>
    decreases ts.len(),
{
    if ts.len() == 0 {
        Seq::empty()
    } else {
        m3u_body(ts.drop_last()) + match ts.last().source {
            TrackRef::Path(p) => p@.push('\n'),
            TrackRef::Url(_, _) => Seq::empty(),
        }
    }
}

/// The M3U text written for `ts`: the header line, then one path per line.
pub open spec fn m3u_text(ts: Seq<Track>) -> Seq<char> {
    m3u_header().push('\n') + m3u_body(ts)
}

/// The paths of the filesystem-backed tracks, in order.
pub open spec fn path_list(ts: Seq<Track>) -> Seq<Seq<char>>
    decreases ts.len(),
{
    if ts.len() == 0 {
        Seq::empty()
    } else {
        match ts.last().source {
            TrackRef::Path(p) => path_list(ts.drop_last()).push(p@),
            TrackRef::Url(_, _) => path_list(ts.drop_last()),
        }
    }
}

/// The M3U text for `tracks`: an `#EXTM3U` header followed by one path per
/// filesystem-backed track (URL tracks are skipped).
pub fn playlist_m3u(tracks: &[Track]) -> (r: String)
    ensures
        r@ == m3u_text(tracks@),
{
    let mut out: Vec<char> = to_chars("#EXTM3U\n");
    proof {
        reveal_strlit("#EXTM3U\n");
        assert(out@ =~= m3u_header().push('\n'));
    }
    let mut i: usize = 0;
    while i < tracks.len()
        invariant
            i <= tracks@.len(),
            out@ == m3u_header().push('\n') + m3u_body(tracks@.take(i as int)),
        decreases tracks.len() - i,
    {
        proof {
            assert(tracks@.take(i + 1).drop_last() == tracks@.take(i as int));
            assert(tracks@.take(i + 1).last() == tracks@[i as int]);
        }
        match &tracks[i].source {
            TrackRef::Path(p) => {
                let pv = to_chars(p.as_str());
                let mut line = concat_chars(out.as_slice(), pv.as_slice());
                line.push('\n');
                out = line;
                assert(out@ =~= m3u_header().push('\n') + m3u_body(tracks@.take(i + 1)));
            },
            TrackRef::Url(_, _) => {
                assert(out@ =~= m3u_header().push('\n') + m3u_body(tracks@.take(i + 1)));
            },
        }
        i += 1;
    }
    assert(tracks@.take(tracks@.len() as int) == tracks@);
    string_from_chars(out.as_slice())
}

/// Whether `c` does not occur in `s`.
pub open spec fn free_of(s: Seq<char>, c: char) -> bool {
    forall|i: int| 0 <= i < s.len() ==> s[i] != c
}

/// A path that an M3U line carries back unchanged: one line, not blank,
/// no surrounding whitespace, not starting with `#`.
pub open spec fn m3u_safe(p: Seq<char>) -> bool {
    free_of(p, '\n') && trim(p) == p && m3u_keep(p)
}

/// A track whose path (if it has one) is [`m3u_safe`].
pub open spec fn m3u_safe_track(t: Track) -> bool {
    match t.source {
        TrackRef::Path(p) => m3u_safe(p@),
        TrackRef::Url(_, _) => true,
    }
}

/// A track whose path (if it has one) holds no newline.
pub open spec fn line_free_track(t: Track) -> bool {
    match t.source {
        TrackRef::Path(p) => free_of(p@, '\n'),
        TrackRef::Url(_, _) => true,
    }
}

pub proof fn lemma_split_append_free(x: Seq<char>, p: Seq<char>, sep: char)
    requires
        free_of(p, sep),
    ensures
        split_on(x + p, sep) == split_on(x, sep).update(
            split_on(x, sep).len() - 1,
            split_on(x, sep).last() + p,
        ),
    decreases p.len(),
{
    lemma_split_on_nonempty(x, sep);
    if p.len() == 0 {
        assert(x + p == x);
        assert(split_on(x, sep).last() + p == split_on(x, sep).last());
        assert(split_on(x, sep).update(split_on(x, sep).len() - 1, split_on(x, sep).last())
            =~= split_on(x, sep));
    } else {
        lemma_split_append_free(x, p.drop_last(), sep);
        assert((x + p).drop_last() == x + p.drop_last());
        assert((x + p).last() == p.last());
        lemma_split_on_nonempty(x + p.drop_last(), sep);
        let s0 = split_on(x, sep);
        let s1 = split_on(x + p.drop_last(), sep);
        assert(s1.last() == s0.last() + p.drop_last());
        assert(s1.last().push(p.last()) =~= s0.last() + p);
        assert(s1.update(s1.len() - 1, s1.last().push(p.last())) =~= s0.update(
            s0.len() - 1,
            s0.last() + p,
        ));
    }
}

proof fn lemma_split_m3u(ts: Seq<Track>)
    requires
        forall|i: int| 0 <= i < ts.len() ==> line_free_track(#[trigger] ts[i]),
    ensures
        split_on(m3u_text(ts), '\n') == seq![m3u_header()] + path_list(ts) + seq![Seq::<char>::empty()],
    decreases ts.len(),
{
    if ts.len() == 0 {
        let h = m3u_header();
        assert(m3u_text(ts) == h.push('\n'));
        lemma_split_append_free(Seq::<char>::empty(), h, '\n');
        assert(Seq::<char>::empty() + h == h);
        assert(split_on(h, '\n') =~= seq![h]);
        assert(h.push('\n').drop_last() == h);
        assert(split_on(h.push('\n'), '\n') =~= seq![h, Seq::<char>::empty()]);
        assert(path_list(ts) == Seq::<Seq<char>>::empty());
        assert(seq![h] + path_list(ts) + seq![Seq::<char>::empty()] =~= seq![h, Seq::<char>::empty()]);
    } else {
        let prev = ts.drop_last();
        assert forall|i: int| 0 <= i < prev.len() implies line_free_track(#[trigger] prev[i]) by {
            assert(prev[i] == ts[i]);
        }
        lemma_split_m3u(prev);
        let x = m3u_text(prev);
        assert(m3u_text(ts) == m3u_header().push('\n') + (m3u_body(prev) + match ts.last().source {
            TrackRef::Path(p) => p@.push('\n'),
            TrackRef::Url(_, _) => Seq::<char>::empty(),
        }));
        match ts.last().source {
            TrackRef::Path(p) => {
                assert(ts[ts.len() - 1] == ts.last());
                assert(free_of(p@, '\n'));
                assert(m3u_text(ts) =~= (x + p@).push('\n'));
                lemma_split_append_free(x, p@, '\n');
                let s0 = split_on(x, '\n');
                assert(s0.last() == Seq::<char>::empty());
                assert(Seq::<char>::empty() + p@ == p@);
                assert((x + p@).push('\n').drop_last() == x + p@);
                assert(path_list(ts) == path_list(prev).push(p@));
                assert(split_on(m3u_text(ts), '\n') =~= seq![m3u_header()] + path_list(ts) + seq![Seq::<char>::empty()]);
            },
            TrackRef::Url(_, _) => {
                assert(m3u_text(ts) =~= x);
                assert(path_list(ts) == path_list(prev));
            },
        }
    }
}

/// Writing a playlist and reading it back gives the paths written: every
/// filesystem-backed track's path comes back, in order, provided each path
/// fits on one M3U line unchanged (see [`m3u_safe`]).
pub proof fn lemma_m3u_round_trip(ts: Seq<Track>)
    requires
        forall|i: int| 0 <= i < ts.len() ==> m3u_safe_track(#[trigger] ts[i]),
    ensures
        m3u_entries(m3u_text(ts)) == path_list(ts),
{
    assert forall|i: int| 0 <= i < ts.len() implies line_free_track(#[trigger] ts[i]) by {}
    lemma_split_m3u(ts);
    lemma_path_list_safe(ts);
    let pl = path_list(ts);
    let h = m3u_header();
    let pieces = seq![h] + pl + seq![Seq::<char>::empty()];
    assert(pieces.last() == Seq::<char>::empty());
    assert(pieces.drop_last() =~= seq![h] + pl);
    let body = seq![h] + pl;
    assert(lines_of(m3u_text(ts)) == body.map_values(|l: Seq<char>| strip_cr(l)));
    assert(forall|k: int| 0 <= k < body.len() ==> strip_cr(#[trigger] body[k]) == body[k]) by {
        assert forall|k: int| 0 <= k < body.len() implies strip_cr(#[trigger] body[k]) == body[k] by {
            if k > 0 {
                assert(body[k] == pl[k - 1]);
                assert(m3u_safe(pl[k - 1]));
                lemma_trimmed_no_trailing_ws(pl[k - 1]);
            }
        }
    }
    assert(body.map_values(|l: Seq<char>| strip_cr(l)) =~= body);
    assert(forall|k: int| 0 <= k < body.len() ==> trim(#[trigger] body[k]) == body[k]) by {
        assert forall|k: int| 0 <= k < body.len() implies trim(#[trigger] body[k]) == body[k] by {
            if k > 0 {
                assert(body[k] == pl[k - 1]);
            } else {
                lemma_header_trimmed();
            }
        }
    }
    assert(body.map_values(|l: Seq<char>| trim(l)) =~= body);
    Seq::filter_distributes_over_add(seq![h], pl, |l: Seq<char>| m3u_keep(l));
    reveal(Seq::filter);
    assert(seq![h].drop_last() =~= Seq::<Seq<char>>::empty());
    assert(seq![h].last() == h);
    assert(!m3u_keep(h));
    assert(Seq::<Seq<char>>::empty().filter(|l: Seq<char>| m3u_keep(l)) =~= Seq::<Seq<char>>::empty());
    assert(seq![h].filter(|l: Seq<char>| m3u_keep(l)) =~= Seq::<Seq<char>>::empty());
    lemma_filter_all_kept(pl);
    assert(Seq::<Seq<char>>::empty() + pl == pl);
}

proof fn lemma_path_list_safe(ts: Seq<Track>)
    requires
        forall|i: int| 0 <= i < ts.len() ==> m3u_safe_track(#[trigger] ts[i]),
    ensures
        forall|k: int| 0 <= k < path_list(ts).len() ==> m3u_safe(#[trigger] path_list(ts)[k]),
    decreases ts.len(),
{
    if ts.len() > 0 {
        let prev = ts.drop_last();
        assert forall|i: int| 0 <= i < prev.len() implies m3u_safe_track(#[trigger] prev[i]) by {
            assert(prev[i] == ts[i]);
        }
        lemma_path_list_safe(prev);
        assert(ts[ts.len() - 1] == ts.last());
        assert(m3u_safe_track(ts.last()));
        match ts.last().source {
            TrackRef::Path(p) => {
                assert(path_list(ts) == path_list(prev).push(p@));
                assert(m3u_safe(p@));
            },
            TrackRef::Url(_, _) => {
                assert(path_list(ts) == path_list(prev));
            },
        }
    }
}

proof fn lemma_filter_all_kept(pl: Seq<Seq<char>>)
    requires
        forall|k: int| 0 <= k < pl.len() ==> m3u_safe(#[trigger] pl[k]),
    ensures
        pl.filter(|l: Seq<char>| m3u_keep(l)) == pl,
    decreases pl.len(),
{
    reveal(Seq::filter);
    if pl.len() > 0 {
        lemma_filter_all_kept(pl.drop_last());
        assert(m3u_safe(pl[pl.len() - 1]));
        assert(pl.drop_last().push(pl.last()) == pl);
    }
}

proof fn lemma_trimmed_no_trailing_ws(p: Seq<char>)
    requires
        trim(p) == p,
        p.len() > 0,
    ensures
        !is_ws(p.last()),
{
    lemma_trim_end_len(trim_start(p));
    lemma_trim_start_len(p);
    if is_ws(p.last()) {
        let q = trim_start(p);
        assert(q.len() <= p.len());
        assert(trim_end(q) == p);
        assert(q.len() == p.len()) by {
            lemma_trim_end_len(q);
        }
        lemma_trim_start_suffix(p);
        assert(q == p.skip(p.len() - q.len()));
        assert(q =~= p);
        assert(trim_end(p) == trim_end(p.drop_last()));
        lemma_trim_end_len(p.drop_last());
    }
}

proof fn lemma_trim_end_len(s: Seq<char>)
    ensures
        trim_end(s).len() <= s.len(),
    decreases s.len(),
{
    if s.len() > 0 && is_ws(s.last()) {
        lemma_trim_end_len(s.drop_last());
    }
}

proof fn lemma_trim_start_len(s: Seq<char>)
    ensures
        trim_start(s).len() <= s.len(),
    decreases s.len(),
{
    if s.len() > 0 && is_ws(s[0]) {
        lemma_trim_start_len(s.drop_first());
    }
}

proof fn lemma_trim_start_suffix(s: Seq<char>)
    ensures
        trim_start(s).len() <= s.len(),
        trim_start(s) == s.skip(s.len() - trim_start(s).len()),
    decreases s.len(),
{
    if s.len() > 0 && is_ws(s[0]) {
        lemma_trim_start_suffix(s.drop_first());
        let t = trim_start(s.drop_first());
        assert(s.drop_first().skip(s.drop_first().len() - t.len()) =~= s.skip(s.len() - t.len()));
    } else {
        assert(s.skip(0) == s);
    }
}

proof fn lemma_header_trimmed()
    ensures
        trim(m3u_header()) == m3u_header(),
{
    let h = m3u_header();
    assert(!is_ws(h[0]));
    assert(trim_start(h) == h);
    assert(!is_ws(h.last()));
    assert(trim_end(h) == h);
}


/// The entries of a playlist file, read with the parser its extension calls
/// for: PLS for `.pls` (any case), M3U otherwise.
pub open spec fn playlist_entries(path: Seq<char>, content: Seq<char>) -> Seq<Seq<char>> {
    let is_pls = match extension_of_path(path) {
        Some(e) => lower(e) == "pls"@,
        None => false,
    };
    if is_pls {
        pls_entries(content)
    } else {
        m3u_entries(content)
    }
}

/// Parse the text of the playlist file at `path` into its raw entries.
pub fn parse_playlist(path: &str, content: &str) -> (r: Vec<String>)
    ensures
        string_views(r@) == playlist_entries(path@, content@),
{
    let is_pls = match path_extension(path) {
        Some(e) => {
            let ev = to_chars(e.as_str());
            let lv = lower_chars(ev.as_slice());
            chars_eq_str(lv.as_slice(), "pls")
        },
        None => false,
    };
    if is_pls {
        parse_pls(content)
    } else {
        parse_m3u(content)
    }
}

/// Whether a path names playable media (audio or video), by extension.
pub open spec fn is_media_path(p: Seq<char>) -> bool {
    ext_matches(extension_of_path(p), audio_exts()) || ext_matches(extension_of_path(p), video_exts())
}

/// Whether a path names a playlist, by extension.
pub open spec fn is_playlist_path(p: Seq<char>) -> bool {
    ext_matches(extension_of_path(p), playlist_exts())
}

/// What a path on the command line turned out to be.
#[derive(Debug, Clone, Copy, PartialEq, Eq)]
pub enum PathKind {
    File,
    Directory,
    Missing,
}

/// Where the tracks for a startup path come from.
#[derive(Debug, Clone)]
pub enum TrackSource {
    /// Read the file as a playlist.
    Playlist,
    /// The file itself is the one track.
    Single(Track),
    /// Scan the directory recursively for audio files.
    ScanDirectory,
}

/// Why a startup path yields no tracks.
#[derive(Debug, Clone, PartialEq, Eq)]
pub enum LoadError {
    UnsupportedFileType(String),
    PathDoesNotExist(String),
}

impl LoadError {
    /// The message shown for the error.
    pub fn message(&self) -> (r: String)
        ensures
            r@ == match self {
                LoadError::UnsupportedFileType(p) => "unsupported file type: "@ + p@,
                LoadError::PathDoesNotExist(p) => "path does not exist: "@ + p@,
            },
    {
        let mut out: Vec<char> = match self {
            LoadError::UnsupportedFileType(_) => to_chars("unsupported file type: "),
            LoadError::PathDoesNotExist(_) => to_chars("path does not exist: "),
        };
        let p = match self {
            LoadError::UnsupportedFileType(p) => to_chars(p.as_str()),
            LoadError::PathDoesNotExist(p) => to_chars(p.as_str()),
        };
        out = concat_chars(out.as_slice(), p.as_slice());
        string_from_chars(out.as_slice())
    }
}

/// Decide how to load the tracks for `path`: a playlist file is read as a
/// playlist, a media file is a single track, a directory is scanned, and
/// anything else is an error naming the path.
pub fn load_tracks(path: &str, kind: PathKind) -> (r: Result<TrackSource, LoadError>)
    ensures
        (kind == PathKind::File && is_playlist_path(path@)) ==> (r matches Ok(
            TrackSource::Playlist,
        )),
        (kind == PathKind::File && !is_playlist_path(path@) && is_media_path(path@)) ==> (r matches Ok(
            TrackSource::Single(t),
        ) && t.source is Path && t.source->Path_0@ == path@ && t.display@ == display_name_of(
            path@,
        )),
        (kind == PathKind::File && !is_playlist_path(path@) && !is_media_path(path@)) ==> (r matches Err(
            LoadError::UnsupportedFileType(p),
        ) && p@ == path@),
        kind == PathKind::Directory ==> (r matches Ok(TrackSource::ScanDirectory)),
        kind == PathKind::Missing ==> (r matches Err(LoadError::PathDoesNotExist(p)) && p@
            == path@),
{
    match kind {
        PathKind::File => {
            if is_playlist_file(path) {
                Ok(TrackSource::Playlist)
            } else if is_audio_file(path) {
                Ok(TrackSource::Single(Track::from_path(path.to_owned())))
            } else {
                Err(LoadError::UnsupportedFileType(path.to_owned()))
            }
        },
        PathKind::Directory => Ok(TrackSource::ScanDirectory),
        PathKind::Missing => Err(LoadError::PathDoesNotExist(path.to_owned())),
    }
}


// ---------------------------------------------------------------------------
// Directory scans
// ---------------------------------------------------------------------------

/// Strict lexicographic order on strings by code point, the order of
/// `str`'s `Ord` (UTF-8 byte order agrees with code-point order).
pub open spec fn chars_lt(a: Seq<char>, b: Seq<char>) -> bool
    decreases a.len(),
{
    if a.len() == 0 {
        b.len() > 0
    } else if b.len() == 0 {
        false
    } else if a[0] != b[0] {
        a[0] < b[0]
    } else {
        chars_lt(a.drop_first(), b.drop_first())
    }
}

pub proof fn lemma_chars_lt_irreflexive(a: Seq<char>)
    ensures
        !chars_lt(a, a),
    decreases a.len(),
{
    if a.len() > 0 {
        lemma_chars_lt_irreflexive(a.drop_first());
    }
}

pub proof fn lemma_chars_lt_transitive(a: Seq<char>, b: Seq<char>, c: Seq<char>)
    requires
        chars_lt(a, b),
        chars_lt(b, c),
    ensures
        chars_lt(a, c),
    decreases a.len(),
{
    if a.len() > 0 && b.len() > 0 && c.len() > 0 && a[0] == b[0] && b[0] == c[0] {
        lemma_chars_lt_transitive(a.drop_first(), b.drop_first(), c.drop_first());
    }
}

pub proof fn lemma_chars_lt_total(a: Seq<char>, b: Seq<char>)
    ensures
        a == b || chars_lt(a, b) || chars_lt(b, a),
    decreases a.len(),
{
    if a.len() > 0 && b.len() > 0 && a[0] == b[0] {
        let a1 = a.drop_first();
        let b1 = b.drop_first();
        lemma_chars_lt_total(a1, b1);
        assert(a1.len() == a.len() - 1);
        assert(b1.len() == b.len() - 1);
        if a1 == b1 {
            assert forall|i: int| 0 <= i < a.len() implies a[i] == b[i] by {
                if i > 0 {
                    assert(a[i] == a1[i - 1]);
                    assert(b[i] == b1[i - 1]);
                }
            }
            assert(a =~= b);
        }
    } else if a.len() == 0 && b.len() == 0 {
        assert(a =~= b);
    }
}

/// Whether `a` orders strictly before `b`.
fn chars_less(a: &[char], b: &[char]) -> (r: bool)
    ensures
        r == chars_lt(a@, b@),
{
    let mut i: usize = 0;
    assert(a@.skip(0) =~= a@);
    assert(b@.skip(0) =~= b@);
    while i < a.len() && i < b.len()
        invariant
            i <= a.len(),
            i <= b.len(),
            chars_lt(a@, b@) == chars_lt(a@.skip(i as int), b@.skip(i as int)),
        decreases a.len() - i,
    {
        if a[i] != b[i] {
            return a[i] < b[i];
        }
        assert(a@.skip(i as int).drop_first() =~= a@.skip(i + 1));
        assert(b@.skip(i as int).drop_first() =~= b@.skip(i + 1));
        i += 1;
    }
    i == a.len() && i < b.len()
}

/// Whether `a` orders strictly before `b`.
pub fn chars_less_pub(a: &[char], b: &[char]) -> (r: bool)
    ensures
        r == chars_lt(a@, b@),
{
    chars_less(a, b)
}

/// Paths in ascending order.
pub open spec fn keys_sorted(s: Seq<Seq<char>>) -> bool {
    forall|i: int, j: int| 0 <= i < j < s.len() ==> !chars_lt(#[trigger] s[j], #[trigger] s[i])
}

/// The paths that name audio or video files, in their order.
pub open spec fn media_only(s: Seq<Seq<char>>) -> Seq<Seq<char>>
    decreases s.len(),
{
    if s.len() == 0 {
        Seq::empty()
    } else if is_media_path(s.last()) {
        media_only(s.drop_last()).push(s.last())
    } else {
        media_only(s.drop_last())
    }
}

/// The path of each track (a locator, for URL tracks).
pub open spec fn track_locators(ts: Seq<Track>) -> Seq<Seq<char>> {
    ts.map_values(|t: Track| t.source.locator_spec())
}

/// Places `x` after the entries that do not order after it.
fn insert_sorted(sorted: &mut Vec<String>, keys: &mut Vec<Vec<char>>, x: String)
    requires
        old(keys)@.len() == old(sorted)@.len(),
        forall|k: int| 0 <= k < old(keys)@.len() ==> (#[trigger] old(keys)@[k])@ == old(sorted)@[k]@,
        keys_sorted(string_views(old(sorted)@)),
    ensures
        final(keys)@.len() == final(sorted)@.len(),
        forall|k: int| 0 <= k < final(keys)@.len() ==> (#[trigger] final(keys)@[k])@ == final(sorted)@[k]@,
        keys_sorted(string_views(final(sorted)@)),
        string_views(final(sorted)@).to_multiset() == string_views(old(sorted)@).to_multiset().insert(x@),
{
    let xk = crate::text::to_chars(x.as_str());
    let mut p: usize = 0;
    while p < sorted.len() && !chars_less(xk.as_slice(), keys[p].as_slice())
        invariant
            p <= sorted.len(),
            keys@.len() == sorted@.len(),
            sorted@ == old(sorted)@,
            keys@ == old(keys)@,
            forall|k: int| 0 <= k < keys@.len() ==> (#[trigger] keys@[k])@ == sorted@[k]@,
            xk@ == x@,
            forall|k: int| 0 <= k < p ==> !chars_lt(x@, #[trigger] sorted@[k]@),
        decreases sorted.len() - p,
    {
        p += 1;
    }
    let ghost s = string_views(sorted@);
    sorted.insert(p, x);
    keys.insert(p, xk);
    let ghost t = string_views(sorted@);
    proof {
        assert(t =~= s.insert(p as int, x@));
        assert forall|i: int, j: int| 0 <= i < j < t.len() implies !chars_lt(#[trigger] t[j], #[trigger] t[i]) by {
            if j < p {
                assert(t[i] == s[i] && t[j] == s[j]);
            } else if j == p {
                assert(t[i] == s[i]);
            } else if i > p {
                assert(t[i] == s[i - 1] && t[j] == s[j - 1]);
            } else if i == p {
                assert(t[j] == s[j - 1]);
                assert(chars_lt(x@, s[p as int]));
                if p < j - 1 {
                    assert(!chars_lt(s[j - 1], s[p as int]));
                }
                if chars_lt(s[j - 1], x@) {
                    lemma_chars_lt_transitive(s[j - 1], x@, s[p as int]);
                    if p == j - 1 {
                        lemma_chars_lt_irreflexive(s[p as int]);
                    }
                }
            } else {
                assert(t[i] == s[i] && t[j] == s[j - 1]);
                assert(!chars_lt(x@, s[i]));
                if p < j - 1 {
                    assert(chars_lt(x@, s[p as int]));
                    assert(!chars_lt(s[j - 1], s[p as int]));
                    lemma_chars_lt_total(s[p as int], s[j - 1]);
                    if chars_lt(s[p as int], s[j - 1]) {
                        lemma_chars_lt_transitive(x@, s[p as int], s[j - 1]);
                    }
                }
                assert(!chars_lt(x@, s[j - 1]) ==> false) by {
                    if !chars_lt(x@, s[j - 1]) {
                        assert(j - 1 == p as int || chars_lt(x@, s[j - 1]));
                    }
                }
                lemma_chars_lt_total(s[i], x@);
                if chars_lt(s[j - 1], s[i]) {
                    if chars_lt(s[i], x@) {
                        lemma_chars_lt_transitive(s[j - 1], s[i], x@);
                    }
                    lemma_chars_lt_transitive(s[j - 1], x@, s[j - 1]);
                    lemma_chars_lt_irreflexive(s[j - 1]);
                }
            }
        }
        assert(t.remove(p as int) =~= s);
        vstd::seq_lib::to_multiset_remove(t, p as int);
        assert(t.to_multiset().count(x@) > 0) by {
            vstd::seq_lib::to_multiset_contains(t, x@);
            assert(t[p as int] == x@);
        }
        assert(t.to_multiset() =~= s.to_multiset().insert(x@)) by {
            broadcast use vstd::multiset::group_multiset_axioms;
        }
    }
}


/// The same paths in ascending order.
pub fn sort_paths(paths: &[String]) -> (r: Vec<String>)
    ensures
        keys_sorted(string_views(r@)),
        string_views(r@).to_multiset() == string_views(paths@).to_multiset(),
{
    let mut sorted: Vec<String> = Vec::new();
    let mut keys: Vec<Vec<char>> = Vec::new();
    let ghost all = string_views(paths@);
    let mut i: usize = 0;
    proof {
        assert(all.take(0) =~= Seq::<Seq<char>>::empty());
        assert(string_views(sorted@) =~= Seq::<Seq<char>>::empty());
    }
    while i < paths.len()
        invariant
            i <= paths.len(),
            all == string_views(paths@),
            keys@.len() == sorted@.len(),
            forall|k: int| 0 <= k < keys@.len() ==> (#[trigger] keys@[k])@ == sorted@[k]@,
            keys_sorted(string_views(sorted@)),
            string_views(sorted@).to_multiset() == all.take(i as int).to_multiset(),
        decreases paths.len() - i,
    {
        proof {
            assert(all.take(i + 1) =~= all.take(i as int).push(paths@[i as int]@));
            vstd::seq_lib::to_multiset_build(all.take(i as int), paths@[i as int]@);
        }
        let p = paths[i].clone();
        insert_sorted(&mut sorted, &mut keys, p);
        i += 1;
    }
    proof {
        assert(all.take(paths.len() as int) =~= all);
    }
    sorted
}

/// The paths that name audio or video files, in their order.
fn media_paths(paths: &[String]) -> (r: Vec<String>)
    ensures
        string_views(r@) == media_only(string_views(paths@)),
{
    let mut out: Vec<String> = Vec::new();
    let ghost all = string_views(paths@);
    let mut i: usize = 0;
    proof {
        assert(all.take(0) =~= Seq::<Seq<char>>::empty());
        assert(string_views(out@) =~= Seq::<Seq<char>>::empty());
    }
    while i < paths.len()
        invariant
            i <= paths.len(),
            all == string_views(paths@),
            string_views(out@) == media_only(all.take(i as int)),
        decreases paths.len() - i,
    {
        proof {
            assert(all.take(i + 1).drop_last() =~= all.take(i as int));
            assert(all.take(i + 1).last() == paths@[i as int]@);
        }
        if is_audio_file(paths[i].as_str()) {
            let p = paths[i].clone();
            out.push(p);
            proof {
                assert(string_views(out@) =~= media_only(all.take(i as int)).push(paths@[i as int]@));
            }
        }
        i += 1;
    }
    proof {
        assert(all.take(paths.len() as int) =~= all);
    }
    out
}

/// The tracks of a directory scan: the audio and video files among the
/// `paths` found, in ascending path order.
pub fn scan_order(paths: &[String]) -> (r: Vec<Track>)
    ensures
        keys_sorted(track_locators(r@)),
        track_locators(r@).to_multiset() == media_only(string_views(paths@)).to_multiset(),
        forall|i: int|
            0 <= i < r@.len() ==> (#[trigger] r@[i]).source is Path && r@[i].display@
                == display_name_of(r@[i].source->Path_0@),
{
    let kept = media_paths(paths);
    let sorted = sort_paths(kept.as_slice());
    let mut out: Vec<Track> = Vec::new();
    let mut j: usize = 0;
    while j < sorted.len()
        invariant
            j <= sorted.len(),
            out@.len() == j,
            forall|k: int|
                0 <= k < j ==> (#[trigger] out@[k]).source == TrackRef::Path(sorted@[k])
                    && out@[k].display@ == display_name_of(sorted@[k]@),
        decreases sorted.len() - j,
    {
        let t = Track::from_path(sorted[j].clone());
        out.push(t);
        j += 1;
    }
    proof {
        assert(track_locators(out@) =~= string_views(sorted@));
    }
    out
}

/// Paths in ascending order are determined by which paths there are: two
/// sorted sequences holding the same paths are the same sequence. So a scan
/// gives the same playlist whatever order the directory walk found the
/// files in.
pub proof fn lemma_sorted_unique(a: Seq<Seq<char>>, b: Seq<Seq<char>>)
    requires
        keys_sorted(a),
        keys_sorted(b),
        a.to_multiset() == b.to_multiset(),
    ensures
        a == b,
    decreases a.len(),
{
    broadcast use vstd::seq_lib::group_to_multiset_ensures;

    vstd::seq_lib::to_multiset_len(a);
    vstd::seq_lib::to_multiset_len(b);
    assert(a.len() == b.len());
    if a.len() == 0 {
        assert(a =~= b);
    } else {
        let n = a.len() - 1;
        let x = a[n];
        let y = b[n];
        assert(b.to_multiset().count(x) > 0);
        assert(b.contains(x));
        let kb = choose|k: int| 0 <= k < b.len() && b[k] == x;
        if kb < n {
            assert(!chars_lt(b[n], b[kb]));
        } else {
            lemma_chars_lt_irreflexive(x);
        }
        assert(a.to_multiset().count(y) > 0);
        assert(a.contains(y));
        let ka = choose|k: int| 0 <= k < a.len() && a[k] == y;
        if ka < n {
            assert(!chars_lt(a[n], a[ka]));
        } else {
            lemma_chars_lt_irreflexive(y);
        }
        lemma_chars_lt_total(x, y);
        assert(x == y);
        assert(a.remove(n) =~= a.drop_last());
        assert(b.remove(n) =~= b.drop_last());
        lemma_sorted_unique(a.drop_last(), b.drop_last());
        assert(a =~= b) by {
            assert forall|i: int| 0 <= i < a.len() implies a[i] == b[i] by {
                if i < n {
                    assert(a[i] == a.drop_last()[i]);
                    assert(b[i] == b.drop_last()[i]);
                }
            }
        }
    }
}

} // verus!
