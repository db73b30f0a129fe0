//! User settings and the resumable session (last directory, playlist,
//! playing track and position, repeat/shuffle, favorites, recently played,
//! play counts), and their `key = value` text form.
//!
//! The volume is held in thousandths (`1000` is full volume) and the playback
//! position in milliseconds; in the text they are written as decimals
//! (`volume = 0.65`, `position_secs = 42.5`).
use vstd::prelude::*;

use crate::app::{dec, RepeatMode};
use crate::library::{free_of, is_first_index, lemma_split_append_free};
pub use crate::decimal::{fixed_format, parse_fixed};
use crate::decimal::{
    special_number, special_value, fixed_text, fixed_value, frac_text, lemma_dec_digits, lemma_digit_char, lemma_fixed_round_trip,
};
use crate::text::{
    lemma_split_on_nonempty, concat_chars, digit_val, is_ws, split_on, strip_cr, trim_end, trim_start,
    all_digits, digits_value, find_char, is_digit, lines, lines_of, lower,
    lower_chars, parse_uint_spec, parse_unsigned, sub_chars, to_chars, trim, trim_chars,
    string_from_chars, chars_eq_str,
};

verus! {

broadcast use vstd::string::group_string_axioms;

/// How many entries the recently-played list keeps.
pub const RECENT_CAP: usize = 50;

/// The FFT window the spectrum views start with.
pub const FFT_DEFAULT_SIZE: usize = 1024;

/// The scroll speed (rows or columns per second) of the scrolling views at
/// first start.
pub const SCROLL_SPEED_DEFAULT: u32 = 30;

// ---------------------------------------------------------------------------
// The settings
// ---------------------------------------------------------------------------

/// Settings and session state.
#[derive(Debug, Clone, PartialEq)]
pub struct Config {
    pub theme: String,
    /// Volume in thousandths, `0..=1500`.
    pub volume: u32,
    pub visualizer: String,
    /// FFT window size of the spectrum views.
    pub fft_size: usize,
    /// Scroll speed (rows or columns per second) of the scrolling views.
    pub scroll_speed: u32,
    /// Last browser directory.
    pub last_dir: Option<String>,
    /// Repeat mode as a lowercase word: `off`, `all` or `one`.
    pub repeat: String,
    pub shuffle: bool,
    /// The playlist as file paths, in order.
    pub playlist: Vec<String>,
    /// Index into `playlist` of the track that was playing.
    pub playing_index: Option<usize>,
    /// Playback position of that track, in milliseconds.
    pub position_ms: u64,
    /// Favorited track paths (order is not significant).
    pub favorites: Vec<String>,
    /// Recently played track paths, most recent first.
    pub recent: Vec<String>,
    /// Per-track play counts as `(path, count)` pairs.
    pub play_counts: Vec<(String, u32)>,
}

/// [`Config`] as plain values.
pub ghost struct ConfigView {
    pub theme: Seq<char>,
    pub volume: u32,
    pub visualizer: Seq<char>,
    pub fft_size: usize,
    pub scroll_speed: u32,
    pub last_dir: Option<Seq<char>>,
    pub repeat: Seq<char>,
    pub shuffle: bool,
    pub playlist: Seq<Seq<char>>,
    pub playing_index: Option<usize>,
    pub position_ms: u64,
    pub favorites: Seq<Seq<char>>,
    pub recent: Seq<Seq<char>>,
    pub play_counts: Seq<(Seq<char>, u32)>,
}

pub open spec fn strs(v: Seq<String>) -> Seq<Seq<char>> {
    v.map_values(|s: String| s@)
}

pub open spec fn count_pairs(v: Seq<(String, u32)>) -> Seq<(Seq<char>, u32)> {
    v.map_values(|p: (String, u32)| (p.0@, p.1))
}

impl View for Config {
    type V = ConfigView;

    open spec fn view(&self) -> ConfigView {
        ConfigView {
            theme: self.theme@,
            volume: self.volume,
            visualizer: self.visualizer@,
            fft_size: self.fft_size,
            scroll_speed: self.scroll_speed,
            last_dir: match self.last_dir {
                Some(d) => Some(d@),
                None => None,
            },
            repeat: self.repeat@,
            shuffle: self.shuffle,
            playlist: strs(self.playlist@),
            playing_index: self.playing_index,
            position_ms: self.position_ms,
            favorites: strs(self.favorites@),
            recent: strs(self.recent@),
            play_counts: count_pairs(self.play_counts@),
        }
    }
}

/// The settings of a first start.
pub open spec fn default_view() -> ConfigView {
    ConfigView {
        theme: "default"@,
        volume: 800,
        visualizer: "spectrum"@,
        fft_size: FFT_DEFAULT_SIZE,
        scroll_speed: SCROLL_SPEED_DEFAULT,
        last_dir: None,
        repeat: "off"@,
        shuffle: false,
        playlist: Seq::empty(),
        playing_index: None,
        position_ms: 0,
        favorites: Seq::empty(),
        recent: Seq::empty(),
        play_counts: Seq::empty(),
    }
}

impl Default for Config {
    fn default() -> (r: Self)
        ensures
            r@ == default_view(),
    {
        let r = Config {
            theme: "default".to_owned(),
            volume: 800,
            visualizer: "spectrum".to_owned(),
            fft_size: FFT_DEFAULT_SIZE,
            scroll_speed: SCROLL_SPEED_DEFAULT,
            last_dir: None,
            repeat: "off".to_owned(),
            shuffle: false,
            playlist: Vec::new(),
            playing_index: None,
            position_ms: 0,
            favorites: Vec::new(),
            recent: Vec::new(),
            play_counts: Vec::new(),
        };
        assert(r@.playlist =~= Seq::<Seq<char>>::empty());
        assert(r@.favorites =~= Seq::<Seq<char>>::empty());
        assert(r@.recent =~= Seq::<Seq<char>>::empty());
        assert(r@.play_counts =~= Seq::<(Seq<char>, u32)>::empty());
        r
    }
}

// ---------------------------------------------------------------------------
// Reading
// ---------------------------------------------------------------------------

/// `s` without any leading `c`.
pub open spec fn strip_lead(s: Seq<char>, c: char) -> Seq<char>
    decreases s.len(),
{
    if s.len() > 0 && s[0] == c {
        strip_lead(s.drop_first(), c)
    } else {
        s
    }
}

/// `s` without any trailing `c`.
pub open spec fn strip_trail(s: Seq<char>, c: char) -> Seq<char>
    decreases s.len(),
{
    if s.len() > 0 && s.last() == c {
        strip_trail(s.drop_last(), c)
    } else {
        s
    }
}

/// `s` without surrounding double quotes (`str::trim_matches('"')`).
pub open spec fn unquote(s: Seq<char>) -> Seq<char> {
    strip_trail(strip_lead(s, '"'), '"')
}

/// The key and value of a setting line: the trimmed text before the first
/// `=` and the trimmed, unquoted text after it. Blank lines, `#` comments and
/// lines without `=` carry none.
pub open spec fn split_kv(line: Seq<char>) -> Option<(Seq<char>, Seq<char>)> {
    let t = trim(line);
    if t.len() == 0 || t[0] == '#' {
        None
    } else if exists|e: int| is_first_index(t, '=', e) {
        let e = choose|e: int| is_first_index(t, '=', e);
        Some((trim(t.take(e)), unquote(trim(t.skip(e + 1)))))
    } else {
        None
    }
}

/// Whether the word turns shuffle on.
pub open spec fn truthy(v: Seq<char>) -> bool {
    v == "true"@ || v == "1"@ || v == "on"@
}

/// Whether the word names a repeat mode.
pub open spec fn repeat_word(v: Seq<char>) -> bool {
    v == "off"@ || v == "all"@ || v == "one"@
}

/// The count and path of a `playcount` value `"<count>|<path>"`.
pub open spec fn play_count_entry(v: Seq<char>) -> Option<(Seq<char>, u32)> {
    if exists|p: int| is_first_index(v, '|', p) {
        let p = choose|p: int| is_first_index(v, '|', p);
        let path = trim(v.skip(p + 1));
        match parse_uint_spec(trim(v.take(p)), u32::MAX as nat) {
            Some(n) => if path.len() > 0 {
                Some((path, n as u32))
            } else {
                None
            },
            None => None,
        }
    } else {
        None
    }
}

/// One `key = value` setting applied to `c`. Unknown keys and values that do
/// not read are ignored; list keys append.
pub open spec fn apply_kv(c: ConfigView, k: Seq<char>, v: Seq<char>) -> ConfigView {
    if k == "theme"@ {
        ConfigView { theme: v, ..c }
    } else if k == "volume"@ {
        match fixed_value(v) {
            Some((neg, x)) => ConfigView {
                volume: if neg {
                    0
                } else if x > 1500 {
                    1500
                } else {
                    x as u32
                },
                ..c
            },
            None => match special_value(v) {
                Some((neg, false)) => ConfigView { volume: if neg { 0 } else { 1500 }, ..c },
                _ => c,
            },
        }
    } else if k == "visualizer"@ {
        ConfigView { visualizer: v, ..c }
    } else if k == "fft_size"@ {
        match parse_uint_spec(v, usize::MAX as nat) {
            Some(n) => ConfigView { fft_size: n as usize, ..c },
            None => c,
        }
    } else if k == "scroll_speed"@ {
        match parse_uint_spec(v, u32::MAX as nat) {
            Some(n) => ConfigView { scroll_speed: n as u32, ..c },
            None => c,
        }
    } else if k == "last_dir"@ && v.len() > 0 {
        ConfigView { last_dir: Some(v), ..c }
    } else if k == "repeat"@ {
        if repeat_word(lower(v)) {
            ConfigView { repeat: lower(v), ..c }
        } else {
            c
        }
    } else if k == "shuffle"@ {
        ConfigView { shuffle: truthy(v), ..c }
    } else if k == "playing_index"@ {
        ConfigView {
            playing_index: match parse_uint_spec(v, usize::MAX as nat) {
                Some(n) => Some(n as usize),
                None => None,
            },
            ..c
        }
    } else if k == "position_secs"@ {
        match fixed_value(v) {
            Some((neg, x)) => ConfigView {
                position_ms: if neg {
                    0
                } else if x > u64::MAX {
                    u64::MAX
                } else {
                    x as u64
                },
                ..c
            },
            None => match special_value(v) {
                Some((neg, nan)) => ConfigView {
                    position_ms: if neg || nan {
                        0
                    } else {
                        u64::MAX
                    },
                    ..c
                },
                None => c,
            },
        }
    } else if k == "track"@ && v.len() > 0 {
        ConfigView { playlist: c.playlist.push(v), ..c }
    } else if k == "favorite"@ && v.len() > 0 {
        ConfigView { favorites: c.favorites.push(v), ..c }
    } else if k == "recent"@ && v.len() > 0 {
        if c.recent.len() < RECENT_CAP {
            ConfigView { recent: c.recent.push(v), ..c }
        } else {
            c
        }
    } else if k == "playcount"@ {
        match play_count_entry(v) {
            Some(e) => ConfigView { play_counts: c.play_counts.push(e), ..c },
            None => c,
        }
    } else {
        c
    }
}

pub open spec fn apply_line(c: ConfigView, line: Seq<char>) -> ConfigView {
    match split_kv(line) {
        Some((k, v)) => apply_kv(c, k, v),
        None => c,
    }
}

/// The lines applied in order, starting from `c`.
pub open spec fn apply_lines(c: ConfigView, ls: Seq<Seq<char>>) -> ConfigView
    decreases ls.len(),
{
    if ls.len() == 0 {
        c
    } else {
        apply_lines(apply_line(c, ls[0]), ls.drop_first())
    }
}

/// The settings a text holds: its lines applied to the defaults.
pub open spec fn parse_spec(text: Seq<char>) -> ConfigView {
    apply_lines(default_view(), lines_of(text))
}

/// Bounds `(a, b)` with `v[a..b] == unquote(v[from..to])`.
fn unquote_bounds(v: &[char], from: usize, to: usize) -> (r: (usize, usize))
    requires
        from <= to <= v.len(),
    ensures
        from <= r.0 <= r.1 <= to,
        unquote(v@.subrange(from as int, to as int)) == v@.subrange(r.0 as int, r.1 as int),
{
    let mut a = from;
    while a < to && v[a] == '"'
        invariant
            from <= a <= to <= v.len(),
            strip_lead(v@.subrange(from as int, to as int), '"') == strip_lead(
                v@.subrange(a as int, to as int),
                '"',
            ),
        decreases to - a,
    {
        assert(v@.subrange(a as int, to as int).drop_first() == v@.subrange(a + 1, to as int));
        a += 1;
    }
    let mut b = to;
    while b > a && v[b - 1] == '"'
        invariant
            from <= a <= b <= to <= v.len(),
            strip_trail(v@.subrange(a as int, to as int), '"') == strip_trail(
                v@.subrange(a as int, b as int),
                '"',
            ),
        decreases b - a,
    {
        assert(v@.subrange(a as int, b as int).drop_last() == v@.subrange(a as int, b - 1));
        b -= 1;
    }
    (a, b)
}

/// The key and value of one line (see [`split_kv`]).
fn line_kv(line: &[char]) -> (r: Option<(Vec<char>, Vec<char>)>)
    ensures
        match split_kv(line@) {
            Some((k, v)) => r matches Some(x) && x.0@ == k && x.1@ == v,
            None => r is None,
        },
{
    let t = trim_chars(line);
    if t.len() == 0 || t[0] == '#' {
        return None;
    }
    match find_char(t.as_slice(), '=') {
        None => {
            assert(!exists|e: int| is_first_index(t@, '=', e));
            None
        },
        Some(e) => {
            assert(is_first_index(t@, '=', e as int));
            assert forall|f: int| is_first_index(t@, '=', f) implies f == e by {
                if f < e {
                } else if f > e {
                }
            }
            let key_raw = sub_chars(t.as_slice(), 0, e);
            assert(key_raw@ == t@.take(e as int));
            let key = trim_chars(key_raw.as_slice());
            let val_raw = sub_chars(t.as_slice(), e + 1, t.len());
            assert(val_raw@ == t@.skip(e + 1));
            let val_t = trim_chars(val_raw.as_slice());
            let (a, b) = unquote_bounds(val_t.as_slice(), 0, val_t.len());
            assert(val_t@.subrange(0, val_t@.len() as int) == val_t@);
            let val = sub_chars(val_t.as_slice(), a, b);
            Some((key, val))
        },
    }
}

/// The count and path of a `playcount` value (see [`play_count_entry`]).
fn play_count_of(v: &[char]) -> (r: Option<(String, u32)>)
    ensures
        match play_count_entry(v@) {
            Some(e) => r matches Some(x) && x.0@ == e.0 && x.1 == e.1,
            None => r is None,
        },
{
    match find_char(v, '|') {
        None => {
            assert(!exists|p: int| is_first_index(v@, '|', p));
            None
        },
        Some(p) => {
            assert(is_first_index(v@, '|', p as int));
            assert forall|f: int| is_first_index(v@, '|', f) implies f == p by {
                if f < p {
                } else if f > p {
                }
            }
            let n = v.len();
            assert(p < n);
            let count_raw = sub_chars(v, 0, p);
            assert(count_raw@ == v@.take(p as int));
            let count = trim_chars(count_raw.as_slice());
            let path_raw = sub_chars(v, p + 1, v.len());
            assert(path_raw@ == v@.skip(p + 1));
            let path = trim_chars(path_raw.as_slice());
            match parse_unsigned(count.as_slice(), u32::MAX as u64) {
                Some(n) => if path.len() > 0 {
                    Some((string_from_chars(path.as_slice()), n as u32))
                } else {
                    None
                },
                None => None,
            }
        },
    }
}

fn is_truthy(v: &[char]) -> (r: bool)
    ensures
        r == truthy(v@),
{
    chars_eq_str(v, "true") || chars_eq_str(v, "1") || chars_eq_str(v, "on")
}

fn is_repeat_word(v: &[char]) -> (r: bool)
    ensures
        r == repeat_word(v@),
{
    chars_eq_str(v, "off") || chars_eq_str(v, "all") || chars_eq_str(v, "one")
}

impl Config {
    /// Applies one setting (see [`apply_kv`]).
    fn apply(&mut self, k: &[char], v: &[char])
        ensures
            final(self)@ == apply_kv(old(self)@, k@, v@),
    {
        let ghost c = self@;
        if chars_eq_str(k, "theme") {
            self.theme = string_from_chars(v);
        } else if chars_eq_str(k, "volume") {
            if let Some((neg, x)) = parse_fixed(v, 1501) {
                self.volume = if neg {
                    0
                } else if x > 1500 {
                    1500
                } else {
                    x as u32
                };
            } else if let Some((neg, false)) = special_number(v) {
                self.volume = if neg {
                    0
                } else {
                    1500
                };
            }
        } else if chars_eq_str(k, "visualizer") {
            self.visualizer = string_from_chars(v);
        } else if chars_eq_str(k, "fft_size") {
            if let Some(n) = parse_unsigned(v, usize::MAX as u64) {
                self.fft_size = n as usize;
            }
        } else if chars_eq_str(k, "scroll_speed") {
            if let Some(n) = parse_unsigned(v, u32::MAX as u64) {
                self.scroll_speed = n as u32;
            }
        } else if chars_eq_str(k, "last_dir") && v.len() > 0 {
            self.last_dir = Some(string_from_chars(v));
        } else if chars_eq_str(k, "repeat") {
            let l = lower_chars(v);
            if is_repeat_word(l.as_slice()) {
                self.repeat = string_from_chars(l.as_slice());
            }
        } else if chars_eq_str(k, "shuffle") {
            self.shuffle = is_truthy(v);
        } else if chars_eq_str(k, "playing_index") {
            self.playing_index = match parse_unsigned(v, usize::MAX as u64) {
                Some(n) => Some(n as usize),
                None => None,
            };
        } else if chars_eq_str(k, "position_secs") {
            if let Some((neg, x)) = parse_fixed(v, u64::MAX) {
                self.position_ms = if neg {
                    0
                } else {
                    x
                };
            } else if let Some((neg, nan)) = special_number(v) {
                self.position_ms = if neg || nan {
                    0
                } else {
                    u64::MAX
                };
            }
        } else if chars_eq_str(k, "track") && v.len() > 0 {
            self.playlist.push(string_from_chars(v));
            assert(self@.playlist =~= c.playlist.push(v@));
        } else if chars_eq_str(k, "favorite") && v.len() > 0 {
            self.favorites.push(string_from_chars(v));
            assert(self@.favorites =~= c.favorites.push(v@));
        } else if chars_eq_str(k, "recent") && v.len() > 0 {
            if self.recent.len() < RECENT_CAP {
                self.recent.push(string_from_chars(v));
                assert(self@.recent =~= c.recent.push(v@));
            }
        } else if chars_eq_str(k, "playcount") {
            if let Some(e) = play_count_of(v) {
                self.play_counts.push(e);
                assert(self@.play_counts =~= c.play_counts.push((e.0@, e.1)));
            }
        }
    }

    /// Reads the `key = value` settings text. Unknown keys are ignored and
    /// missing keys keep their default; `track`, `favorite`, `recent` and
    /// `playcount` may repeat, once per entry, in order.
    pub fn parse(content: &str) -> (r: Config)
        ensures
            r@ == parse_spec(content@),
    {
        let text = to_chars(content);
        let ls = lines(text.as_slice());
        let ghost lv = lines_of(text@);
        let mut cfg = Config::default();
        let mut i: usize = 0;
        assert(lv.skip(0) == lv);
        while i < ls.len()
            invariant
                i <= ls@.len() == lv.len(),
                lv == lines_of(content@),
                forall|k: int| 0 <= k < ls@.len() ==> #[trigger] ls@[k]@ == lv[k],
                apply_lines(cfg@, lv.skip(i as int)) == parse_spec(content@),
            decreases ls.len() - i,
        {
            assert(lv.skip(i as int).drop_first() == lv.skip(i + 1));
            assert(lv.skip(i as int)[0] == lv[i as int]);
            match line_kv(ls[i].as_slice()) {
                Some((k, v)) => cfg.apply(k.as_slice(), v.as_slice()),
                None => {},
            }
            i += 1;
        }
        assert(lv.skip(i as int) =~= Seq::<Seq<char>>::empty());
        cfg
    }
}

// ---------------------------------------------------------------------------
// Writing
// ---------------------------------------------------------------------------

/// The comment line the settings text starts with.
pub open spec fn header_line() -> Seq<char> {
    "# SparkPlayer configuration \u{2014} managed by the app, edit while it's closed."@
}

/// `key = value`.
pub open spec fn plain_line(k: Seq<char>, w: Seq<char>) -> Seq<char> {
    k + " = "@ + w
}

/// `key = "value"`.
pub open spec fn quoted_line(k: Seq<char>, v: Seq<char>) -> Seq<char> {
    k + " = "@ + (seq!['"'] + v + seq!['"'])
}

pub open spec fn opt_lines(o: Option<Seq<char>>) -> Seq<Seq<char>> {
    match o {
        Some(l) => seq![l],
        None => Seq::empty(),
    }
}

/// The lines of the single-valued settings, in the order they are written.
pub open spec fn scalar_lines(c: ConfigView) -> Seq<Seq<char>> {
    seq![
        header_line(),
        quoted_line("theme"@, c.theme),
        plain_line("volume"@, fixed_text(c.volume as nat)),
        quoted_line("visualizer"@, c.visualizer),
        plain_line("fft_size"@, dec(c.fft_size as nat)),
        plain_line("scroll_speed"@, dec(c.scroll_speed as nat)),
        quoted_line("repeat"@, c.repeat),
        plain_line("shuffle"@, if c.shuffle { "true"@ } else { "false"@ }),
    ] + opt_lines(
        match c.last_dir {
            Some(d) => Some(quoted_line("last_dir"@, d)),
            None => None,
        },
    ) + opt_lines(
        match c.playing_index {
            Some(i) => Some(plain_line("playing_index"@, dec(i as nat))),
            None => None,
        },
    ) + seq![plain_line("position_secs"@, fixed_text(c.position_ms as nat))]
}

/// One `key = "value"` line per entry.
pub open spec fn list_lines(k: Seq<char>, vs: Seq<Seq<char>>) -> Seq<Seq<char>> {
    vs.map_values(|v: Seq<char>| quoted_line(k, v))
}

/// The value of a `playcount` line: `<count>|<path>`.
pub open spec fn count_value(e: (Seq<char>, u32)) -> Seq<char> {
    dec(e.1 as nat) + seq!['|'] + e.0
}

/// All lines of the settings text: the single values, then the playlist,
/// favorites, recently played (at most [`RECENT_CAP`]) and play counts.
pub open spec fn config_lines(c: ConfigView) -> Seq<Seq<char>> {
    scalar_lines(c) + list_lines("track"@, c.playlist) + list_lines("favorite"@, c.favorites)
        + list_lines(
        "recent"@,
        if c.recent.len() > RECENT_CAP {
            c.recent.take(RECENT_CAP as int)
        } else {
            c.recent
        },
    ) + c.play_counts.map_values(|e: (Seq<char>, u32)| quoted_line("playcount"@, count_value(e)))
}

/// Lines joined into text, each ended by a newline.
pub open spec fn join_lines(ls: Seq<Seq<char>>) -> Seq<char>
    decreases ls.len(),
{
    if ls.len() == 0 {
        Seq::empty()
    } else {
        join_lines(ls.drop_last()) + ls.last() + seq!['\n']
    }
}

/// The settings text of `c`.
pub open spec fn config_text(c: ConfigView) -> Seq<char> {
    join_lines(config_lines(c))
}

fn plain(k: &str, w: &[char]) -> (r: Vec<char>)
    ensures
        r@ == plain_line(k@, w@),
{
    let a = concat_chars(to_chars(k).as_slice(), to_chars(" = ").as_slice());
    concat_chars(a.as_slice(), w)
}

fn quoted(k: &str, v: &[char]) -> (r: Vec<char>)
    ensures
        r@ == quoted_line(k@, v@),
{
    let mut q: Vec<char> = Vec::new();
    q.push('"');
    let mut q = concat_chars(q.as_slice(), v);
    q.push('"');
    assert(q@ == seq!['"'] + v@ + seq!['"']);
    plain(k, q.as_slice())
}

impl Config {
    fn lines_out(&self) -> (r: Vec<Vec<char>>)
        ensures
            r@.len() == config_lines(self@).len(),
            forall|i: int| 0 <= i < r@.len() ==> #[trigger] r@[i]@ == config_lines(self@)[i],
    {
        let ghost c = self@;
        let ghost want = config_lines(c);
        let mut out: Vec<Vec<char>> = Vec::new();
        out.push(to_chars("# SparkPlayer configuration \u{2014} managed by the app, edit while it's closed."));
        out.push(quoted("theme", to_chars(self.theme.as_str()).as_slice()));
        out.push(plain("volume", fixed_format(self.volume as u64).as_slice()));
        out.push(quoted("visualizer", to_chars(self.visualizer.as_str()).as_slice()));
        out.push(plain("fft_size", crate::app::decimal(self.fft_size as u64).as_slice()));
        out.push(plain("scroll_speed", crate::app::decimal(self.scroll_speed as u64).as_slice()));
        out.push(quoted("repeat", to_chars(self.repeat.as_str()).as_slice()));
        out.push(plain("shuffle", to_chars(if self.shuffle { "true" } else { "false" }).as_slice()));
        if let Some(d) = &self.last_dir {
            out.push(quoted("last_dir", to_chars(d.as_str()).as_slice()));
        }
        if let Some(i) = self.playing_index {
            out.push(plain("playing_index", crate::app::decimal(i as u64).as_slice()));
        }
        out.push(plain("position_secs", fixed_format(self.position_ms).as_slice()));
        let ghost sl = scalar_lines(c);
        assert(out@.len() == sl.len());
        assert forall|i: int| 0 <= i < out@.len() implies #[trigger] out@[i]@ == sl[i] by {}
        let mut k: usize = 0;
        while k < self.playlist.len()
            invariant
                k <= self.playlist@.len(),
                c == self@,
                sl == scalar_lines(c),
                out@.len() == sl.len() + k,
                forall|i: int| 0 <= i < out@.len() ==> #[trigger] out@[i]@ == (sl + list_lines(
                    "track"@,
                    c.playlist,
                ))[i],
            decreases self.playlist.len() - k,
        {
            out.push(quoted("track", to_chars(self.playlist[k].as_str()).as_slice()));
            k += 1;
        }
        let ghost s2 = sl + list_lines("track"@, c.playlist);
        let mut k: usize = 0;
        while k < self.favorites.len()
            invariant
                k <= self.favorites@.len(),
                c == self@,
                s2 == sl + list_lines("track"@, c.playlist),
                out@.len() == s2.len() + k,
                forall|i: int| 0 <= i < out@.len() ==> #[trigger] out@[i]@ == (s2 + list_lines(
                    "favorite"@,
                    c.favorites,
                ))[i],
            decreases self.favorites.len() - k,
        {
            out.push(quoted("favorite", to_chars(self.favorites[k].as_str()).as_slice()));
            k += 1;
        }
        let ghost s3 = s2 + list_lines("favorite"@, c.favorites);
        let ghost rec = if c.recent.len() > RECENT_CAP {
            c.recent.take(RECENT_CAP as int)
        } else {
            c.recent
        };
        let nrec = if self.recent.len() > RECENT_CAP {
            RECENT_CAP
        } else {
            self.recent.len()
        };
        let mut k: usize = 0;
        while k < nrec
            invariant
                k <= nrec <= self.recent@.len(),
                nrec == rec.len(),
                c == self@,
                rec == (if c.recent.len() > RECENT_CAP {
                    c.recent.take(RECENT_CAP as int)
                } else {
                    c.recent
                }),
                s3 == s2 + list_lines("favorite"@, c.favorites),
                out@.len() == s3.len() + k,
                forall|i: int| 0 <= i < out@.len() ==> #[trigger] out@[i]@ == (s3 + list_lines(
                    "recent"@,
                    rec,
                ))[i],
            decreases nrec - k,
        {
            out.push(quoted("recent", to_chars(self.recent[k].as_str()).as_slice()));
            k += 1;
        }
        let ghost s4 = s3 + list_lines("recent"@, rec);
        let mut k: usize = 0;
        while k < self.play_counts.len()
            invariant
                k <= self.play_counts@.len(),
                c == self@,
                s4 == s3 + list_lines("recent"@, rec),
                out@.len() == s4.len() + k,
                forall|i: int| 0 <= i < out@.len() ==> #[trigger] out@[i]@ == (s4
                    + c.play_counts.map_values(
                    |e: (Seq<char>, u32)| quoted_line("playcount"@, count_value(e)),
                ))[i],
            decreases self.play_counts.len() - k,
        {
            let e = &self.play_counts[k];
            let mut v = crate::app::decimal(e.1 as u64);
            v.push('|');
            let v = concat_chars(v.as_slice(), to_chars(e.0.as_str()).as_slice());
            assert(v@ == count_value(c.play_counts[k as int]));
            out.push(quoted("playcount", v.as_slice()));
            k += 1;
        }
        out
    }

    /// The settings as text (see [`config_text`]).
    pub fn serialize(&self) -> (r: String)
        ensures
            r@ == config_text(self@),
    {
        let ls = self.lines_out();
        let ghost want = config_lines(self@);
        let mut out: Vec<char> = Vec::new();
        let mut i: usize = 0;
        while i < ls.len()
            invariant
                i <= ls@.len() == want.len(),
                forall|k: int| 0 <= k < ls@.len() ==> #[trigger] ls@[k]@ == want[k],
                out@ == join_lines(want.take(i as int)),
            decreases ls.len() - i,
        {
            assert(want.take(i + 1).drop_last() == want.take(i as int));
            let mut next = concat_chars(out.as_slice(), ls[i].as_slice());
            next.push('\n');
            out = next;
            i += 1;
        }
        assert(want.take(want.len() as int) == want);
        string_from_chars(out.as_slice())
    }
}

// ---------------------------------------------------------------------------
// Writing and reading back
// ---------------------------------------------------------------------------

/// A line that comes back unchanged from the line splitter: no newline, and
/// no carriage return at its end.
pub open spec fn line_safe(l: Seq<char>) -> bool {
    free_of(l, '\n') && !(l.len() > 0 && l.last() == '\r')
}

proof fn lemma_split_join(ls: Seq<Seq<char>>)
    requires
        forall|i: int| 0 <= i < ls.len() ==> line_safe(#[trigger] ls[i]),
    ensures
        split_on(join_lines(ls), '\n') == ls.push(Seq::<char>::empty()),
    decreases ls.len(),
{
    if ls.len() == 0 {
        assert(join_lines(ls) == Seq::<char>::empty());
        assert(split_on(Seq::<char>::empty(), '\n') =~= seq![Seq::<char>::empty()]);
        assert(ls.push(Seq::<char>::empty()) =~= seq![Seq::<char>::empty()]);
    } else {
        let prev = ls.drop_last();
        assert forall|i: int| 0 <= i < prev.len() implies line_safe(#[trigger] prev[i]) by {
            assert(prev[i] == ls[i]);
        }
        lemma_split_join(prev);
        let x = join_lines(prev);
        let l = ls.last();
        assert(line_safe(ls[ls.len() - 1]));
        lemma_split_append_free(x, l, '\n');
        let s0 = split_on(x, '\n');
        assert(s0.last() == Seq::<char>::empty());
        assert(Seq::<char>::empty() + l == l);
        assert(split_on(x + l, '\n') =~= ls);
        let y = (x + l).push('\n');
        assert(join_lines(ls) =~= y);
        assert(y.drop_last() == x + l);
        assert(y.last() == '\n');
    }
}

/// Lines joined with newlines split back into the same lines.
pub proof fn lemma_lines_of_join(ls: Seq<Seq<char>>)
    requires
        forall|i: int| 0 <= i < ls.len() ==> line_safe(#[trigger] ls[i]),
    ensures
        lines_of(join_lines(ls)) == ls,
{
    lemma_split_join(ls);
    let p = ls.push(Seq::<char>::empty());
    assert(p.drop_last() == ls);
    assert forall|i: int| 0 <= i < ls.len() implies strip_cr(#[trigger] ls[i]) == ls[i] by {
        assert(line_safe(ls[i]));
    }
    assert(ls.map_values(|l: Seq<char>| strip_cr(l)) =~= ls);
}

/// Applying lines one after the other.
pub proof fn lemma_apply_lines_append(c: ConfigView, a: Seq<Seq<char>>, b: Seq<Seq<char>>)
    ensures
        apply_lines(c, a + b) == apply_lines(apply_lines(c, a), b),
    decreases a.len(),
{
    if a.len() == 0 {
        assert(a + b =~= b);
    } else {
        assert((a + b)[0] == a[0]);
        assert((a + b).drop_first() =~= a.drop_first() + b);
        lemma_apply_lines_append(apply_line(c, a[0]), a.drop_first(), b);
    }
}

proof fn lemma_apply_lines_step(c: ConfigView, ls: Seq<Seq<char>>, i: int)
    requires
        0 <= i < ls.len(),
    ensures
        apply_lines(c, ls.skip(i)) == apply_lines(apply_line(c, ls[i]), ls.skip(i + 1)),
{
    assert(ls.skip(i)[0] == ls[i]);
    assert(ls.skip(i).drop_first() =~= ls.skip(i + 1));
}

/// The keys that a setting line can name.
pub open spec fn known_key(k: Seq<char>) -> bool {
    ||| k == "theme"@
    ||| k == "volume"@
    ||| k == "visualizer"@
    ||| k == "fft_size"@
    ||| k == "scroll_speed"@
    ||| k == "last_dir"@
    ||| k == "repeat"@
    ||| k == "shuffle"@
    ||| k == "playing_index"@
    ||| k == "position_secs"@
    ||| k == "track"@
    ||| k == "favorite"@
    ||| k == "recent"@
    ||| k == "playcount"@
}

/// A line the reader passes over: blank, a `#` comment, without `=`, or
/// naming a key that is not a setting.
pub open spec fn ignored_line(j: Seq<char>) -> bool {
    match split_kv(j) {
        None => true,
        Some((k, _)) => !known_key(k),
    }
}

/// A trailing whitespace character changes nothing of the trimmed text.
proof fn lemma_trim_drop_ws(s: Seq<char>)
    requires
        s.len() > 0,
        is_ws(s.last()),
    ensures
        trim(s) == trim(s.drop_last()),
    decreases s.len(),
{
    let e = s.drop_last();
    if is_ws(s[0]) {
        let d = s.drop_first();
        assert(trim_start(s) == trim_start(d));
        if s.len() == 1 {
            assert(d.len() == 0 && e.len() == 0);
            assert(trim_start(d) == d);
            assert(trim_start(e) == e);
            assert(trim_end(d) == d);
            assert(trim_end(e) == e);
        } else {
            assert(d.last() == s.last());
            lemma_trim_drop_ws(d);
            assert(e.drop_first() =~= d.drop_last());
            assert(e[0] == s[0]);
            assert(trim_start(e) == trim_start(e.drop_first()));
        }
    } else {
        assert(s.len() >= 2);
        assert(e[0] == s[0]);
        assert(trim_start(s) == s);
        assert(trim_start(e) == e);
        assert(trim_end(s) == trim_end(e));
    }
}

/// The line as the line splitter hands it over reads as the line itself.
proof fn lemma_split_kv_strip_cr(j: Seq<char>)
    ensures
        split_kv(strip_cr(j)) == split_kv(j),
{
    if j.len() > 0 && j.last() == '\r' {
        assert(is_ws('\r'));
        lemma_trim_drop_ws(j);
    }
}

/// Splitting a text after a first line that holds no newline.
proof fn lemma_split_first_line(j: Seq<char>, t: Seq<char>)
    requires
        free_of(j, '\n'),
    ensures
        split_on(j.push('\n') + t, '\n') == seq![j] + split_on(t, '\n'),
    decreases t.len(),
{
    let x = j.push('\n');
    if t.len() == 0 {
        assert(x + t =~= x);
        assert(x.drop_last() =~= Seq::<char>::empty() + j);
        lemma_split_append_free(Seq::<char>::empty(), j, '\n');
        assert(split_on(Seq::<char>::empty() + j, '\n') =~= seq![j]);
        assert(split_on(x, '\n') =~= seq![j].push(Seq::<char>::empty()));
        assert(seq![j].push(Seq::<char>::empty()) =~= seq![j] + split_on(t, '\n'));
    } else {
        lemma_split_first_line(j, t.drop_last());
        lemma_split_on_nonempty(t.drop_last(), '\n');
        assert((x + t).drop_last() =~= x + t.drop_last());
        assert((x + t).last() == t.last());
        let p = split_on(t.drop_last(), '\n');
        let q = seq![j] + p;
        assert(q.last() == p.last());
        if t.last() == '\n' {
            assert(q.push(Seq::<char>::empty()) =~= seq![j] + p.push(Seq::<char>::empty()));
        } else {
            assert(q.update(q.len() - 1, q.last().push(t.last())) =~= seq![j] + p.update(
                p.len() - 1,
                p.last().push(t.last()),
            ));
        }
    }
}

/// The lines of a text after a first line that holds no newline.
pub proof fn lemma_lines_of_first(j: Seq<char>, t: Seq<char>)
    requires
        free_of(j, '\n'),
    ensures
        lines_of(j.push('\n') + t) == seq![strip_cr(j)] + lines_of(t),
{
    lemma_split_first_line(j, t);
    lemma_split_on_nonempty(t, '\n');
    let p = split_on(t, '\n');
    let q = seq![j] + p;
    assert(q.last() == p.last());
    assert(q.drop_last() =~= seq![j] + p.drop_last());
    let f = |l: Seq<char>| strip_cr(l);
    assert(q.drop_last().map_values(f) =~= seq![strip_cr(j)] + p.drop_last().map_values(f));
    if p.last().len() != 0 {
        assert(q.drop_last().map_values(f).push(q.last()) =~= seq![strip_cr(j)] + p.drop_last(
        ).map_values(f).push(p.last()));
    }
}

/// A line the reader passes over leaves the settings as they were.
pub proof fn lemma_ignored_line(c: ConfigView, j: Seq<char>)
    requires
        ignored_line(j),
    ensures
        apply_line(c, j) == c,
        apply_line(c, strip_cr(j)) == c,
{
    lemma_split_kv_strip_cr(j);
}

/// Reading a text: the empty text gives the first-start settings, and a first
/// line that is blank, a comment, without `=` or with a key that is not a
/// setting changes nothing of what the rest of the text gives.
pub proof fn lemma_parse_ignores_lines(j: Seq<char>, t: Seq<char>)
    requires
        free_of(j, '\n'),
        ignored_line(j),
    ensures
        parse_spec(Seq::<char>::empty()) == default_view(),
        parse_spec(j.push('\n') + t) == parse_spec(t),
{
    assert(split_on(Seq::<char>::empty(), '\n') =~= seq![Seq::<char>::empty()]);
    assert(lines_of(Seq::<char>::empty()) =~= Seq::<Seq<char>>::empty());
    lemma_lines_of_first(j, t);
    let ls = seq![strip_cr(j)] + lines_of(t);
    assert(ls[0] == strip_cr(j));
    assert(ls.drop_first() =~= lines_of(t));
    lemma_ignored_line(default_view(), j);
}

/// The playlist entry a line adds: the value of a `track` line, when it is
/// not empty.
pub open spec fn track_value(l: Seq<char>) -> Seq<Seq<char>> {
    match split_kv(l) {
        Some((k, v)) => if k == "track"@ && v.len() > 0 {
            seq![v]
        } else {
            Seq::empty()
        },
        None => Seq::empty(),
    }
}

/// The values of the `track` lines, in line order.
pub open spec fn track_values(ls: Seq<Seq<char>>) -> Seq<Seq<char>>
    decreases ls.len(),
{
    if ls.len() == 0 {
        Seq::empty()
    } else {
        track_value(ls[0]) + track_values(ls.drop_first())
    }
}

proof fn lemma_apply_line_playlist(c: ConfigView, l: Seq<char>)
    ensures
        apply_line(c, l).playlist == c.playlist + track_value(l),
{
    lemma_words();
    match split_kv(l) {
        Some((k, v)) => {
            if k == "track"@ && v.len() > 0 {
                assert(c.playlist.push(v) =~= c.playlist + seq![v]);
            } else {
                assert(c.playlist + Seq::<Seq<char>>::empty() =~= c.playlist);
            }
        },
        None => {
            assert(c.playlist + Seq::<Seq<char>>::empty() =~= c.playlist);
        },
    }
}

proof fn lemma_apply_lines_playlist(c: ConfigView, ls: Seq<Seq<char>>)
    ensures
        apply_lines(c, ls).playlist == c.playlist + track_values(ls),
    decreases ls.len(),
{
    if ls.len() == 0 {
        assert(c.playlist + Seq::<Seq<char>>::empty() =~= c.playlist);
    } else {
        lemma_apply_line_playlist(c, ls[0]);
        lemma_apply_lines_playlist(apply_line(c, ls[0]), ls.drop_first());
        assert(c.playlist + track_value(ls[0]) + track_values(ls.drop_first()) =~= c.playlist + (
        track_value(ls[0]) + track_values(ls.drop_first())));
    }
}

/// The playlist a text gives is the values of its `track` lines (trimmed,
/// outer quotes taken off, empty ones skipped) in line order.
pub proof fn lemma_parse_playlist(t: Seq<char>)
    ensures
        parse_spec(t).playlist == track_values(lines_of(t)),
{
    lemma_apply_lines_playlist(default_view(), lines_of(t));
    assert(Seq::<Seq<char>>::empty() + track_values(lines_of(t)) =~= track_values(lines_of(t)));
}

proof fn lemma_trim_fixed(s: Seq<char>)
    requires
        s.len() > 0,
        !is_ws(s[0]),
        !is_ws(s.last()),
    ensures
        trim(s) == s,
{
    assert(trim_start(s) == s);
    assert(trim_end(s) == s);
}

/// A value written after `key = ` reads back as its unquoted form.
#[verifier::rlimit(30)]
proof fn lemma_kv_line(k: Seq<char>, w: Seq<char>)
    requires
        k.len() > 0,
        free_of(k, '='),
        !is_ws(k[0]),
        !is_ws(k.last()),
        k[0] != '#',
        w.len() > 0,
        !is_ws(w[0]),
        !is_ws(w.last()),
    ensures
        split_kv(k + " = "@ + w) == Some((k, unquote(w))),
{
    reveal_strlit(" = ");
    let line = k + " = "@ + w;
    assert(line[0] == k[0]);
    assert(line.last() == w.last());
    lemma_trim_fixed(line);
    let e = k.len() as int + 1;
    assert(is_first_index(line, '=', e)) by {
        assert forall|i: int| 0 <= i < e implies line[i] != '=' by {
            if i < k.len() {
                assert(line[i] == k[i]);
            }
        }
    }
    assert forall|f: int| is_first_index(line, '=', f) implies f == e by {
        if f < e {
        } else if f > e {
        }
    }
    let key = line.take(e);
    assert(key =~= k.push(' '));
    assert(trim_start(key) == key);
    assert(key.drop_last() == k);
    assert(trim_end(k) == k);
    let rest = line.skip(e + 1);
    assert(rest =~= seq![' '] + w);
    assert(rest.drop_first() == w);
    assert(trim_start(w) == w);
    assert(trim_end(w) == w);
}

/// Whether `v` can be written between quotes and read back unchanged.
pub open spec fn quote_safe(v: Seq<char>) -> bool {
    free_of(v, '\n') && (v.len() == 0 || (v[0] != '"' && v.last() != '"'))
}

proof fn lemma_unquote_plain(w: Seq<char>)
    requires
        w.len() > 0,
        w[0] != '"',
        w.last() != '"',
    ensures
        unquote(w) == w,
{
}

proof fn lemma_strip_lead_quoted(v: Seq<char>)
    requires
        v.len() == 0 || v[0] != '"',
    ensures
        strip_lead(seq!['"'] + v + seq!['"'], '"') == (if v.len() == 0 {
            Seq::<char>::empty()
        } else {
            v + seq!['"']
        }),
{
    let q = seq!['"'] + v + seq!['"'];
    assert(q[0] == '"');
    assert(q.drop_first() =~= v + seq!['"']);
    assert(strip_lead(q, '"') == strip_lead(q.drop_first(), '"'));
    let t = v + seq!['"'];
    if v.len() == 0 {
        assert(t =~= seq!['"']);
        assert(t[0] == '"');
        assert(t.drop_first() =~= Seq::<char>::empty());
        assert(strip_lead(t, '"') == strip_lead(t.drop_first(), '"'));
        assert(strip_lead(Seq::<char>::empty(), '"') == Seq::<char>::empty());
    } else {
        assert(t[0] == v[0]);
        assert(strip_lead(t, '"') == t);
    }
}

proof fn lemma_unquote_quoted(v: Seq<char>)
    requires
        quote_safe(v),
    ensures
        unquote(seq!['"'] + v + seq!['"']) == v,
{
    lemma_strip_lead_quoted(v);
    if v.len() > 0 {
        let t = v + seq!['"'];
        assert(t.last() == '"');
        assert(t.drop_last() =~= v);
        assert(strip_trail(t, '"') == strip_trail(v, '"'));
        assert(v.last() != '"');
        assert(strip_trail(v, '"') == v);
    } else {
        assert(strip_trail(Seq::<char>::empty(), '"') == Seq::<char>::empty());
        assert(v =~= Seq::<char>::empty());
    }
}

proof fn lemma_quoted_line(k: Seq<char>, v: Seq<char>)
    requires
        k.len() > 0,
        free_of(k, '='),
        !is_ws(k[0]),
        !is_ws(k.last()),
        k[0] != '#',
        quote_safe(v),
    ensures
        split_kv(quoted_line(k, v)) == Some((k, v)),
{
    let w = seq!['"'] + v + seq!['"'];
    assert(w[0] == '"');
    assert(w.last() == '"');
    lemma_kv_line(k, w);
    lemma_unquote_quoted(v);
}

proof fn lemma_plain_line(k: Seq<char>, w: Seq<char>)
    requires
        k.len() > 0,
        free_of(k, '='),
        !is_ws(k[0]),
        !is_ws(k.last()),
        k[0] != '#',
        w.len() > 0,
        !is_ws(w[0]),
        !is_ws(w.last()),
        w[0] != '"',
        w.last() != '"',
    ensures
        split_kv(plain_line(k, w)) == Some((k, w)),
{
    lemma_kv_line(k, w);
    lemma_unquote_plain(w);
}

/// The characters of the setting keys and words.
proof fn lemma_words()
    ensures
        "theme"@ == seq!['t', 'h', 'e', 'm', 'e'],
        "volume"@ == seq!['v', 'o', 'l', 'u', 'm', 'e'],
        "visualizer"@ == seq!['v', 'i', 's', 'u', 'a', 'l', 'i', 'z', 'e', 'r'],
        "fft_size"@ == seq!['f', 'f', 't', '_', 's', 'i', 'z', 'e'],
        "scroll_speed"@ == seq!['s', 'c', 'r', 'o', 'l', 'l', '_', 's', 'p', 'e', 'e', 'd'],
        "last_dir"@ == seq!['l', 'a', 's', 't', '_', 'd', 'i', 'r'],
        "repeat"@ == seq!['r', 'e', 'p', 'e', 'a', 't'],
        "shuffle"@ == seq!['s', 'h', 'u', 'f', 'f', 'l', 'e'],
        "playing_index"@ == seq!['p', 'l', 'a', 'y', 'i', 'n', 'g', '_', 'i', 'n', 'd', 'e', 'x'],
        "position_secs"@ == seq!['p', 'o', 's', 'i', 't', 'i', 'o', 'n', '_', 's', 'e', 'c', 's'],
        "track"@ == seq!['t', 'r', 'a', 'c', 'k'],
        "favorite"@ == seq!['f', 'a', 'v', 'o', 'r', 'i', 't', 'e'],
        "recent"@ == seq!['r', 'e', 'c', 'e', 'n', 't'],
        "playcount"@ == seq!['p', 'l', 'a', 'y', 'c', 'o', 'u', 'n', 't'],
        "true"@ == seq!['t', 'r', 'u', 'e'],
        "false"@ == seq!['f', 'a', 'l', 's', 'e'],
        "1"@ == seq!['1'],
        "on"@ == seq!['o', 'n'],
        "off"@ == seq!['o', 'f', 'f'],
        "all"@ == seq!['a', 'l', 'l'],
        "one"@ == seq!['o', 'n', 'e'],
{
    reveal_strlit("theme");
    reveal_strlit("volume");
    reveal_strlit("visualizer");
    reveal_strlit("fft_size");
    reveal_strlit("scroll_speed");
    reveal_strlit("last_dir");
    reveal_strlit("repeat");
    reveal_strlit("shuffle");
    reveal_strlit("playing_index");
    reveal_strlit("position_secs");
    reveal_strlit("track");
    reveal_strlit("favorite");
    reveal_strlit("recent");
    reveal_strlit("playcount");
    reveal_strlit("true");
    reveal_strlit("false");
    reveal_strlit("1");
    reveal_strlit("on");
    reveal_strlit("off");
    reveal_strlit("all");
    reveal_strlit("one");
}

/// A key as the reader finds it: not blank, no `=`, no surrounding
/// whitespace, not a comment.
pub open spec fn key_ok(k: Seq<char>) -> bool {
    k.len() > 0 && free_of(k, '=') && !is_ws(k[0]) && !is_ws(k.last()) && k[0] != '#'
}

proof fn lemma_keys_ok()
    ensures
        key_ok("theme"@),
        key_ok("volume"@),
        key_ok("visualizer"@),
        key_ok("fft_size"@),
        key_ok("scroll_speed"@),
        key_ok("last_dir"@),
        key_ok("repeat"@),
        key_ok("shuffle"@),
        key_ok("playing_index"@),
        key_ok("position_secs"@),
        key_ok("track"@),
        key_ok("favorite"@),
        key_ok("recent"@),
        key_ok("playcount"@),
{
    lemma_words();
    assert(key_ok("theme"@));
    assert(key_ok("volume"@));
    assert(key_ok("visualizer"@));
    assert(key_ok("fft_size"@));
    assert(key_ok("scroll_speed"@));
    assert(key_ok("last_dir"@));
    assert(key_ok("repeat"@));
    assert(key_ok("shuffle"@));
    assert(key_ok("playing_index"@));
    assert(key_ok("position_secs"@));
    assert(key_ok("track"@));
    assert(key_ok("favorite"@));
    assert(key_ok("recent"@));
    assert(key_ok("playcount"@));
}

proof fn lemma_number_word(w: Seq<char>)
    requires
        w.len() > 0,
        all_digits(w),
    ensures
        !is_ws(w[0]),
        !is_ws(w.last()),
        w[0] != '"',
        w.last() != '"',
        w[0] != '+',
        w[0] != '-',
{
    assert(is_digit(w[0]));
    assert(is_digit(w[w.len() - 1]));
}

proof fn lemma_parse_dec(n: nat, max: nat)
    requires
        n <= max,
    ensures
        parse_uint_spec(dec(n), max) == Some(n),
{
    lemma_dec_digits(n);
    lemma_number_word(dec(n));
}

proof fn lemma_fixed_word(v: nat)
    ensures
        fixed_text(v).len() > 0,
        !is_ws(fixed_text(v)[0]),
        !is_ws(fixed_text(v).last()),
        fixed_text(v)[0] != '"',
        fixed_text(v).last() != '"',
{
    let q = v / 1000;
    let r = v % 1000;
    lemma_dec_digits(q);
    lemma_number_word(dec(q));
    if r != 0 {
        let f = frac_text(r);
        lemma_digit_char(r / 100);
        lemma_digit_char((r / 10) % 10);
        lemma_digit_char(r % 10);
        if r % 100 == 0 {
            lemma_dec_digits(r / 100);
            lemma_number_word(dec(r / 100));
        }
        assert(is_digit(f.last()));
        assert(fixed_text(v).last() == f.last());
        assert(fixed_text(v)[0] == dec(q)[0]);
    }
}

proof fn lemma_apply_header(c: ConfigView)
    ensures
        apply_line(c, header_line()) == c,
{
    let h = header_line();
    reveal_strlit("# SparkPlayer configuration \u{2014} managed by the app, edit while it's closed.");
    lemma_trim_fixed(h);
}

proof fn lemma_apply_theme(c: ConfigView, t: Seq<char>)
    requires
        quote_safe(t),
    ensures
        apply_line(c, quoted_line("theme"@, t)) == (ConfigView { theme: t, ..c }),
{
    lemma_keys_ok();
    lemma_words();
    lemma_quoted_line("theme"@, t);
}

proof fn lemma_apply_visualizer(c: ConfigView, t: Seq<char>)
    requires
        quote_safe(t),
    ensures
        apply_line(c, quoted_line("visualizer"@, t)) == (ConfigView { visualizer: t, ..c }),
{
    lemma_keys_ok();
    lemma_words();
    lemma_quoted_line("visualizer"@, t);
}

proof fn lemma_apply_repeat(c: ConfigView, t: Seq<char>)
    requires
        repeat_word(t),
    ensures
        apply_line(c, quoted_line("repeat"@, t)) == (ConfigView { repeat: t, ..c }),
{
    lemma_keys_ok();
    lemma_words();
    assert(lower(t) =~= t);
    lemma_quoted_line("repeat"@, t);
}

proof fn lemma_apply_last_dir(c: ConfigView, d: Seq<char>)
    requires
        d.len() > 0,
        quote_safe(d),
    ensures
        apply_line(c, quoted_line("last_dir"@, d)) == (ConfigView { last_dir: Some(d), ..c }),
{
    lemma_keys_ok();
    lemma_words();
    lemma_quoted_line("last_dir"@, d);
}

proof fn lemma_apply_volume(c: ConfigView, v: u32)
    requires
        v <= 1500,
    ensures
        apply_line(c, plain_line("volume"@, fixed_text(v as nat))) == (ConfigView { volume: v, ..c }),
{
    lemma_keys_ok();
    lemma_words();
    lemma_fixed_word(v as nat);
    lemma_plain_line("volume"@, fixed_text(v as nat));
    lemma_fixed_round_trip(v as nat);
}

proof fn lemma_apply_position(c: ConfigView, v: u64)
    ensures
        apply_line(c, plain_line("position_secs"@, fixed_text(v as nat))) == (ConfigView {
            position_ms: v,
            ..c
        }),
{
    lemma_keys_ok();
    lemma_words();
    lemma_fixed_word(v as nat);
    lemma_plain_line("position_secs"@, fixed_text(v as nat));
    lemma_fixed_round_trip(v as nat);
}

proof fn lemma_apply_fft(c: ConfigView, n: usize)
    ensures
        apply_line(c, plain_line("fft_size"@, dec(n as nat))) == (ConfigView { fft_size: n, ..c }),
{
    lemma_keys_ok();
    lemma_words();
    lemma_dec_digits(n as nat);
    lemma_number_word(dec(n as nat));
    lemma_plain_line("fft_size"@, dec(n as nat));
    lemma_parse_dec(n as nat, usize::MAX as nat);
}

proof fn lemma_apply_scroll(c: ConfigView, n: u32)
    ensures
        apply_line(c, plain_line("scroll_speed"@, dec(n as nat))) == (ConfigView {
            scroll_speed: n,
            ..c
        }),
{
    lemma_keys_ok();
    lemma_words();
    lemma_dec_digits(n as nat);
    lemma_number_word(dec(n as nat));
    lemma_plain_line("scroll_speed"@, dec(n as nat));
    lemma_parse_dec(n as nat, u32::MAX as nat);
}

proof fn lemma_apply_playing(c: ConfigView, n: usize)
    ensures
        apply_line(c, plain_line("playing_index"@, dec(n as nat))) == (ConfigView {
            playing_index: Some(n),
            ..c
        }),
{
    lemma_keys_ok();
    lemma_words();
    lemma_dec_digits(n as nat);
    lemma_number_word(dec(n as nat));
    lemma_plain_line("playing_index"@, dec(n as nat));
    lemma_parse_dec(n as nat, usize::MAX as nat);
}

proof fn lemma_apply_shuffle(c: ConfigView, b: bool)
    ensures
        apply_line(c, plain_line("shuffle"@, if b { "true"@ } else { "false"@ })) == (ConfigView {
            shuffle: b,
            ..c
        }),
{
    lemma_keys_ok();
    lemma_words();
    let w: Seq<char> = if b { "true"@ } else { "false"@ };
    assert(w.len() > 0);
    lemma_plain_line("shuffle"@, w);
}

proof fn lemma_apply_tracks(c: ConfigView, vs: Seq<Seq<char>>)
    requires
        forall|i: int| 0 <= i < vs.len() ==> #[trigger] vs[i].len() > 0 && quote_safe(vs[i]),
    ensures
        apply_lines(c, list_lines("track"@, vs)) == (ConfigView { playlist: c.playlist + vs, ..c }),
    decreases vs.len(),
{
    let ls = list_lines("track"@, vs);
    if vs.len() == 0 {
        assert(c.playlist + vs =~= c.playlist);
    } else {
        lemma_keys_ok();
        lemma_words();
        assert(vs[0].len() > 0 && quote_safe(vs[0]));
        lemma_quoted_line("track"@, vs[0]);
        let c1 = apply_line(c, ls[0]);
        assert(c1 == (ConfigView { playlist: c.playlist.push(vs[0]), ..c }));
        assert(ls.drop_first() =~= list_lines("track"@, vs.drop_first()));
        assert forall|i: int| 0 <= i < vs.drop_first().len() implies #[trigger] vs.drop_first()[i].len() > 0
            && quote_safe(vs.drop_first()[i]) by {
            assert(vs.drop_first()[i] == vs[i + 1]);
        }
        lemma_apply_tracks(c1, vs.drop_first());
        assert(c.playlist.push(vs[0]) + vs.drop_first() =~= c.playlist + vs);
    }
}

proof fn lemma_apply_favorites(c: ConfigView, vs: Seq<Seq<char>>)
    requires
        forall|i: int| 0 <= i < vs.len() ==> #[trigger] vs[i].len() > 0 && quote_safe(vs[i]),
    ensures
        apply_lines(c, list_lines("favorite"@, vs)) == (ConfigView { favorites: c.favorites + vs, ..c }),
    decreases vs.len(),
{
    let ls = list_lines("favorite"@, vs);
    if vs.len() == 0 {
        assert(c.favorites + vs =~= c.favorites);
    } else {
        lemma_keys_ok();
        lemma_words();
        assert(vs[0].len() > 0 && quote_safe(vs[0]));
        lemma_quoted_line("favorite"@, vs[0]);
        let c1 = apply_line(c, ls[0]);
        assert(c1 == (ConfigView { favorites: c.favorites.push(vs[0]), ..c }));
        assert(ls.drop_first() =~= list_lines("favorite"@, vs.drop_first()));
        assert forall|i: int| 0 <= i < vs.drop_first().len() implies #[trigger] vs.drop_first()[i].len() > 0
            && quote_safe(vs.drop_first()[i]) by {
            assert(vs.drop_first()[i] == vs[i + 1]);
        }
        lemma_apply_favorites(c1, vs.drop_first());
        assert(c.favorites.push(vs[0]) + vs.drop_first() =~= c.favorites + vs);
    }
}

proof fn lemma_apply_recent(c: ConfigView, vs: Seq<Seq<char>>)
    requires
        c.recent.len() + vs.len() <= RECENT_CAP,
        forall|i: int| 0 <= i < vs.len() ==> #[trigger] vs[i].len() > 0 && quote_safe(vs[i]),
    ensures
        apply_lines(c, list_lines("recent"@, vs)) == (ConfigView { recent: c.recent + vs, ..c }),
    decreases vs.len(),
{
    let ls = list_lines("recent"@, vs);
    if vs.len() == 0 {
        assert(c.recent + vs =~= c.recent);
    } else {
        lemma_keys_ok();
        lemma_words();
        assert(vs[0].len() > 0 && quote_safe(vs[0]));
        lemma_quoted_line("recent"@, vs[0]);
        let c1 = apply_line(c, ls[0]);
        assert(c1 == (ConfigView { recent: c.recent.push(vs[0]), ..c }));
        assert(ls.drop_first() =~= list_lines("recent"@, vs.drop_first()));
        assert forall|i: int| 0 <= i < vs.drop_first().len() implies #[trigger] vs.drop_first()[i].len() > 0
            && quote_safe(vs.drop_first()[i]) by {
            assert(vs.drop_first()[i] == vs[i + 1]);
        }
        lemma_apply_recent(c1, vs.drop_first());
        assert(c.recent.push(vs[0]) + vs.drop_first() =~= c.recent + vs);
    }
}

/// A play-count entry that reads back unchanged: its path is not blank, has
/// no surrounding whitespace or newline, and does not end in a quote.
pub open spec fn count_safe(e: (Seq<char>, u32)) -> bool {
    e.0.len() > 0 && trim(e.0) == e.0 && free_of(e.0, '\n') && e.0.last() != '"'
}

proof fn lemma_count_value(e: (Seq<char>, u32))
    requires
        count_safe(e),
    ensures
        quote_safe(count_value(e)),
        play_count_entry(count_value(e)) == Some(e),
{
    let d = dec(e.1 as nat);
    lemma_dec_digits(e.1 as nat);
    lemma_number_word(d);
    let v = count_value(e);
    assert(v == d + seq!['|'] + e.0);
    assert(v[0] == d[0]);
    assert(v.last() == e.0.last());
    assert forall|i: int| 0 <= i < v.len() implies v[i] != '\n' by {
        if i < d.len() {
            assert(v[i] == d[i]);
            assert(is_digit(d[i]));
        } else if i > d.len() {
            assert(v[i] == e.0[i - d.len() - 1]);
        }
    }
    let p = d.len() as int;
    assert(is_first_index(v, '|', p)) by {
        assert forall|k: int| 0 <= k < p implies v[k] != '|' by {
            assert(v[k] == d[k]);
            assert(is_digit(d[k]));
        }
    }
    assert forall|f: int| is_first_index(v, '|', f) implies f == p by {
        if f < p {
        } else if f > p {
        }
    }
    assert(v.take(p) =~= d);
    assert(v.skip(p + 1) =~= e.0);
    lemma_trim_fixed(d);
    lemma_parse_dec(e.1 as nat, u32::MAX as nat);
}

proof fn lemma_apply_counts(c: ConfigView, es: Seq<(Seq<char>, u32)>)
    requires
        forall|i: int| 0 <= i < es.len() ==> count_safe(#[trigger] es[i]),
    ensures
        apply_lines(
            c,
            es.map_values(|e: (Seq<char>, u32)| quoted_line("playcount"@, count_value(e))),
        ) == (ConfigView { play_counts: c.play_counts + es, ..c }),
    decreases es.len(),
{
    let ls = es.map_values(|e: (Seq<char>, u32)| quoted_line("playcount"@, count_value(e)));
    if es.len() == 0 {
        assert(c.play_counts + es =~= c.play_counts);
    } else {
        lemma_keys_ok();
        lemma_words();
        assert(count_safe(es[0]));
        lemma_count_value(es[0]);
        lemma_quoted_line("playcount"@, count_value(es[0]));
        let c1 = apply_line(c, ls[0]);
        assert(c1 == (ConfigView { play_counts: c.play_counts.push(es[0]), ..c }));
        assert(ls.drop_first() =~= es.drop_first().map_values(
            |e: (Seq<char>, u32)| quoted_line("playcount"@, count_value(e)),
        ));
        assert forall|i: int| 0 <= i < es.drop_first().len() implies count_safe(
            #[trigger] es.drop_first()[i],
        ) by {
            assert(es.drop_first()[i] == es[i + 1]);
        }
        lemma_apply_counts(c1, es.drop_first());
        assert(c.play_counts.push(es[0]) + es.drop_first() =~= c.play_counts + es);
    }
}

/// Settings that come back unchanged from their text: quoted values fit on
/// their line between the quotes, list entries and the last directory are
/// not blank, the repeat mode is one of its words, the volume is in range,
/// and the recently-played list is within its cap.
pub open spec fn config_safe(c: ConfigView) -> bool {
    &&& quote_safe(c.theme)
    &&& c.volume <= 1500
    &&& quote_safe(c.visualizer)
    &&& repeat_word(c.repeat)
    &&& (c.last_dir matches Some(d) ==> d.len() > 0 && quote_safe(d))
    &&& (forall|i: int|
        0 <= i < c.playlist.len() ==> #[trigger] c.playlist[i].len() > 0 && quote_safe(c.playlist[i]))
    &&& (forall|i: int|
        0 <= i < c.favorites.len() ==> #[trigger] c.favorites[i].len() > 0 && quote_safe(
            c.favorites[i],
        ))
    &&& c.recent.len() <= RECENT_CAP
    &&& (forall|i: int|
        0 <= i < c.recent.len() ==> #[trigger] c.recent[i].len() > 0 && quote_safe(c.recent[i]))
    &&& (forall|i: int| 0 <= i < c.play_counts.len() ==> count_safe(#[trigger] c.play_counts[i]))
}

proof fn lemma_line_safe_kv(k: Seq<char>, w: Seq<char>)
    requires
        key_ok(k),
        free_of(k, '\n'),
        free_of(w, '\n'),
        w.len() > 0,
        w.last() != '\r',
    ensures
        line_safe(k + " = "@ + w),
{
    reveal_strlit(" = ");
    let l = k + " = "@ + w;
    assert(l.last() == w.last());
    assert forall|i: int| 0 <= i < l.len() implies l[i] != '\n' by {
        if i < k.len() {
            assert(l[i] == k[i]);
        } else if i >= k.len() + 3 {
            assert(l[i] == w[i - k.len() - 3]);
        }
    }
}

proof fn lemma_line_safe_quoted(k: Seq<char>, v: Seq<char>)
    requires
        key_ok(k),
        free_of(k, '\n'),
        quote_safe(v),
    ensures
        line_safe(quoted_line(k, v)),
{
    let w = seq!['"'] + v + seq!['"'];
    assert forall|i: int| 0 <= i < w.len() implies w[i] != '\n' by {
        if 0 < i < w.len() - 1 {
            assert(w[i] == v[i - 1]);
        }
    }
    assert(w.last() == '"');
    lemma_line_safe_kv(k, w);
}

proof fn lemma_line_safe_number(k: Seq<char>, w: Seq<char>)
    requires
        key_ok(k),
        free_of(k, '\n'),
        w.len() > 0,
        !is_ws(w.last()),
        forall|i: int| 0 <= i < w.len() ==> is_digit(#[trigger] w[i]) || w[i] == '.' || w[i]
            == 't' || w[i] == 'r' || w[i] == 'u' || w[i] == 'e' || w[i] == 'f' || w[i] == 'a' || w[i]
            == 'l' || w[i] == 's',
    ensures
        line_safe(plain_line(k, w)),
{
    assert forall|i: int| 0 <= i < w.len() implies w[i] != '\n' by {
        assert(is_digit(w[i]) || w[i] == '.' || w[i] == 't' || w[i] == 'r' || w[i] == 'u' || w[i]
            == 'e' || w[i] == 'f' || w[i] == 'a' || w[i] == 'l' || w[i] == 's');
    }
    lemma_line_safe_kv(k, w);
}

proof fn lemma_keys_line_free()
    ensures
        free_of("theme"@, '\n'),
        free_of("volume"@, '\n'),
        free_of("visualizer"@, '\n'),
        free_of("fft_size"@, '\n'),
        free_of("scroll_speed"@, '\n'),
        free_of("last_dir"@, '\n'),
        free_of("repeat"@, '\n'),
        free_of("shuffle"@, '\n'),
        free_of("playing_index"@, '\n'),
        free_of("position_secs"@, '\n'),
        free_of("track"@, '\n'),
        free_of("favorite"@, '\n'),
        free_of("recent"@, '\n'),
        free_of("playcount"@, '\n'),
{
    lemma_words();
}

proof fn lemma_fixed_chars(v: nat)
    ensures
        forall|i: int|
            0 <= i < fixed_text(v).len() ==> is_digit(#[trigger] fixed_text(v)[i]) || fixed_text(v)[i]
                == '.',
{
    let q = v / 1000;
    let r = v % 1000;
    lemma_dec_digits(q);
    if r != 0 {
        lemma_digit_char(r / 100);
        lemma_digit_char((r / 10) % 10);
        lemma_digit_char(r % 10);
        if r % 100 == 0 {
            lemma_dec_digits(r / 100);
        }
        let d = dec(q);
        let f = frac_text(r);
        assert(all_digits(f));
        assert forall|i: int| 0 <= i < fixed_text(v).len() implies is_digit(
            #[trigger] fixed_text(v)[i],
        ) || fixed_text(v)[i] == '.' by {
            if i < d.len() {
                assert(fixed_text(v)[i] == d[i]);
            } else if i > d.len() {
                assert(fixed_text(v)[i] == f[i - d.len() - 1]);
            }
        }
    }
}

proof fn lemma_config_lines_safe(c: ConfigView)
    requires
        config_safe(c),
    ensures
        forall|i: int|
            0 <= i < config_lines(c).len() ==> line_safe(#[trigger] config_lines(c)[i]),
{
    lemma_keys_ok();
    lemma_keys_line_free();
    lemma_words();
    let h = header_line();
    reveal_strlit("# SparkPlayer configuration \u{2014} managed by the app, edit while it's closed.");
    assert(line_safe(h));
    lemma_line_safe_quoted("theme"@, c.theme);
    lemma_fixed_word(c.volume as nat);
    lemma_fixed_chars(c.volume as nat);
    lemma_line_safe_number("volume"@, fixed_text(c.volume as nat));
    lemma_line_safe_quoted("visualizer"@, c.visualizer);
    lemma_dec_digits(c.fft_size as nat);
    lemma_number_word(dec(c.fft_size as nat));
    lemma_line_safe_number("fft_size"@, dec(c.fft_size as nat));
    lemma_dec_digits(c.scroll_speed as nat);
    lemma_number_word(dec(c.scroll_speed as nat));
    lemma_line_safe_number("scroll_speed"@, dec(c.scroll_speed as nat));
    assert(quote_safe(c.repeat));
    lemma_line_safe_quoted("repeat"@, c.repeat);
    let sw: Seq<char> = if c.shuffle { "true"@ } else { "false"@ };
    lemma_line_safe_number("shuffle"@, sw);
    if let Some(d) = c.last_dir {
        lemma_line_safe_quoted("last_dir"@, d);
    }
    if let Some(n) = c.playing_index {
        lemma_dec_digits(n as nat);
        lemma_number_word(dec(n as nat));
        lemma_line_safe_number("playing_index"@, dec(n as nat));
    }
    lemma_fixed_word(c.position_ms as nat);
    lemma_fixed_chars(c.position_ms as nat);
    lemma_line_safe_number("position_secs"@, fixed_text(c.position_ms as nat));
    let sl = scalar_lines(c);
    assert forall|i: int| 0 <= i < sl.len() implies line_safe(#[trigger] sl[i]) by {}
    let tl = list_lines("track"@, c.playlist);
    assert forall|i: int| 0 <= i < tl.len() implies line_safe(#[trigger] tl[i]) by {
        lemma_line_safe_quoted("track"@, c.playlist[i]);
    }
    let fl = list_lines("favorite"@, c.favorites);
    assert forall|i: int| 0 <= i < fl.len() implies line_safe(#[trigger] fl[i]) by {
        lemma_line_safe_quoted("favorite"@, c.favorites[i]);
    }
    let rec = if c.recent.len() > RECENT_CAP {
        c.recent.take(RECENT_CAP as int)
    } else {
        c.recent
    };
    assert(rec == c.recent);
    let rl = list_lines("recent"@, rec);
    assert forall|i: int| 0 <= i < rl.len() implies line_safe(#[trigger] rl[i]) by {
        lemma_line_safe_quoted("recent"@, c.recent[i]);
    }
    let pl = c.play_counts.map_values(
        |e: (Seq<char>, u32)| quoted_line("playcount"@, count_value(e)),
    );
    assert forall|i: int| 0 <= i < pl.len() implies line_safe(#[trigger] pl[i]) by {
        lemma_count_value(c.play_counts[i]);
        lemma_line_safe_quoted("playcount"@, count_value(c.play_counts[i]));
    }
    let all = config_lines(c);
    assert(all == sl + tl + fl + rl + pl);
    assert forall|i: int| 0 <= i < all.len() implies line_safe(#[trigger] all[i]) by {
        if i < sl.len() {
            assert(all[i] == sl[i]);
        } else if i < sl.len() + tl.len() {
            assert(all[i] == tl[i - sl.len()]);
        } else if i < sl.len() + tl.len() + fl.len() {
            assert(all[i] == fl[i - sl.len() - tl.len()]);
        } else if i < sl.len() + tl.len() + fl.len() + rl.len() {
            assert(all[i] == rl[i - sl.len() - tl.len() - fl.len()]);
        } else {
            assert(all[i] == pl[i - sl.len() - tl.len() - fl.len() - rl.len()]);
        }
    }
}

/// `c` with its lists emptied: what the single-valued lines restore.
pub open spec fn scalars_of(c: ConfigView) -> ConfigView {
    ConfigView {
        playlist: Seq::empty(),
        favorites: Seq::empty(),
        recent: Seq::empty(),
        play_counts: Seq::empty(),
        ..c
    }
}

proof fn lemma_apply_one(c: ConfigView, l: Seq<char>)
    ensures
        apply_lines(c, seq![l]) == apply_line(c, l),
{
    assert(seq![l][0] == l);
    assert(seq![l].drop_first() =~= Seq::<Seq<char>>::empty());
    assert(apply_lines(apply_line(c, l), Seq::<Seq<char>>::empty()) == apply_line(c, l));
}

proof fn lemma_apply_scalars(c: ConfigView)
    requires
        config_safe(c),
    ensures
        apply_lines(default_view(), scalar_lines(c)) == scalars_of(c),
{
    let a = seq![
        header_line(),
        quoted_line("theme"@, c.theme),
        plain_line("volume"@, fixed_text(c.volume as nat)),
        quoted_line("visualizer"@, c.visualizer),
        plain_line("fft_size"@, dec(c.fft_size as nat)),
        plain_line("scroll_speed"@, dec(c.scroll_speed as nat)),
        quoted_line("repeat"@, c.repeat),
        plain_line("shuffle"@, if c.shuffle { "true"@ } else { "false"@ }),
    ];
    let o1 = opt_lines(
        match c.last_dir {
            Some(d) => Some(quoted_line("last_dir"@, d)),
            None => None,
        },
    );
    let o2 = opt_lines(
        match c.playing_index {
            Some(i) => Some(plain_line("playing_index"@, dec(i as nat))),
            None => None,
        },
    );
    let z = seq![plain_line("position_secs"@, fixed_text(c.position_ms as nat))];
    assert(scalar_lines(c) == a + o1 + o2 + z);
    let c0 = default_view();
    lemma_apply_header(c0);
    let c2 = ConfigView { theme: c.theme, ..c0 };
    lemma_apply_theme(c0, c.theme);
    let c3 = ConfigView { volume: c.volume, ..c2 };
    lemma_apply_volume(c2, c.volume);
    let c4 = ConfigView { visualizer: c.visualizer, ..c3 };
    lemma_apply_visualizer(c3, c.visualizer);
    let c5 = ConfigView { fft_size: c.fft_size, ..c4 };
    lemma_apply_fft(c4, c.fft_size);
    let c6 = ConfigView { scroll_speed: c.scroll_speed, ..c5 };
    lemma_apply_scroll(c5, c.scroll_speed);
    let c7 = ConfigView { repeat: c.repeat, ..c6 };
    lemma_apply_repeat(c6, c.repeat);
    let c8 = ConfigView { shuffle: c.shuffle, ..c7 };
    lemma_apply_shuffle(c7, c.shuffle);
    lemma_apply_lines_step(c0, a, 0);
    lemma_apply_lines_step(c0, a, 1);
    lemma_apply_lines_step(c2, a, 2);
    lemma_apply_lines_step(c3, a, 3);
    lemma_apply_lines_step(c4, a, 4);
    lemma_apply_lines_step(c5, a, 5);
    lemma_apply_lines_step(c6, a, 6);
    lemma_apply_lines_step(c7, a, 7);
    assert(a.skip(0) == a);
    assert(a.skip(8) =~= Seq::<Seq<char>>::empty());
    assert(apply_lines(c0, a) == c8);
    let c9 = ConfigView { last_dir: c.last_dir, ..c8 };
    match c.last_dir {
        Some(d) => {
            lemma_apply_last_dir(c8, d);
            lemma_apply_one(c8, quoted_line("last_dir"@, d));
        },
        None => {},
    }
    assert(apply_lines(c8, o1) == c9);
    let c10 = ConfigView { playing_index: c.playing_index, ..c9 };
    match c.playing_index {
        Some(i) => {
            lemma_apply_playing(c9, i);
            lemma_apply_one(c9, plain_line("playing_index"@, dec(i as nat)));
        },
        None => {},
    }
    assert(apply_lines(c9, o2) == c10);
    lemma_apply_position(c10, c.position_ms);
    lemma_apply_one(c10, plain_line("position_secs"@, fixed_text(c.position_ms as nat)));
    lemma_apply_lines_append(c0, a, o1);
    lemma_apply_lines_append(c0, a + o1, o2);
    lemma_apply_lines_append(c0, a + o1 + o2, z);
    assert(apply_lines(c0, scalar_lines(c)) == ConfigView { position_ms: c.position_ms, ..c10 });
}

/// Writing settings and reading the text back gives the same settings,
/// whenever they can be written faithfully (see [`config_safe`]).
pub proof fn lemma_config_round_trip(c: ConfigView)
    requires
        config_safe(c),
    ensures
        parse_spec(config_text(c)) == c,
{
    lemma_config_lines_safe(c);
    lemma_lines_of_join(config_lines(c));
    let sl = scalar_lines(c);
    let tl = list_lines("track"@, c.playlist);
    let fl = list_lines("favorite"@, c.favorites);
    assert(c.recent.len() <= RECENT_CAP);
    let rl = list_lines("recent"@, c.recent);
    let pl = c.play_counts.map_values(
        |e: (Seq<char>, u32)| quoted_line("playcount"@, count_value(e)),
    );
    assert(config_lines(c) == sl + tl + fl + rl + pl);
    let d = default_view();
    lemma_apply_lines_append(d, sl, tl);
    lemma_apply_lines_append(d, sl + tl, fl);
    lemma_apply_lines_append(d, sl + tl + fl, rl);
    lemma_apply_lines_append(d, sl + tl + fl + rl, pl);
    lemma_apply_scalars(c);
    let s0 = scalars_of(c);
    lemma_apply_tracks(s0, c.playlist);
    let s1 = ConfigView { playlist: s0.playlist + c.playlist, ..s0 };
    assert(s0.playlist + c.playlist =~= c.playlist);
    lemma_apply_favorites(s1, c.favorites);
    let s2 = ConfigView { favorites: s1.favorites + c.favorites, ..s1 };
    assert(s1.favorites + c.favorites =~= c.favorites);
    lemma_apply_recent(s2, c.recent);
    let s3 = ConfigView { recent: s2.recent + c.recent, ..s2 };
    assert(s2.recent + c.recent =~= c.recent);
    lemma_apply_counts(s3, c.play_counts);
    assert(s3.play_counts + c.play_counts =~= c.play_counts);
}

/// A text value with nothing the line form could lose: no newline, carriage
/// return or double quote, and no whitespace at either end.
pub open spec fn plain_value(v: Seq<char>) -> bool {
    &&& free_of(v, '\n')
    &&& free_of(v, '\r')
    &&& free_of(v, '"')
    &&& (v.len() > 0 ==> !is_ws(v[0]) && !is_ws(v.last()))
}

/// A session in the terms a user sees: a repeat word, the volume within
/// 0..=1.5, at most [`RECENT_CAP`] recent entries, plain text values and no
/// empty path.
pub open spec fn plain_session(c: ConfigView) -> bool {
    &&& repeat_word(c.repeat)
    &&& c.volume <= 1500
    &&& c.recent.len() <= RECENT_CAP
    &&& plain_value(c.theme)
    &&& plain_value(c.visualizer)
    &&& (c.last_dir matches Some(d) ==> d.len() > 0 && plain_value(d))
    &&& (forall|i: int|
        0 <= i < c.playlist.len() ==> #[trigger] c.playlist[i].len() > 0 && plain_value(c.playlist[i]))
    &&& (forall|i: int|
        0 <= i < c.favorites.len() ==> #[trigger] c.favorites[i].len() > 0 && plain_value(
            c.favorites[i],
        ))
    &&& (forall|i: int|
        0 <= i < c.recent.len() ==> #[trigger] c.recent[i].len() > 0 && plain_value(c.recent[i]))
    &&& (forall|i: int|
        0 <= i < c.play_counts.len() ==> #[trigger] c.play_counts[i].0.len() > 0 && plain_value(
            c.play_counts[i].0,
        ))
}

proof fn lemma_plain_quote_safe(v: Seq<char>)
    requires
        plain_value(v),
    ensures
        quote_safe(v),
{
    if v.len() > 0 {
        assert(v[0] != '"');
        assert(v[v.len() - 1] != '"');
    }
}

proof fn lemma_plain_count_safe(e: (Seq<char>, u32))
    requires
        e.0.len() > 0,
        plain_value(e.0),
    ensures
        count_safe(e),
{
    let s = e.0;
    assert(trim_start(s) == s);
    assert(trim_end(s) == s);
    assert(s[s.len() - 1] != '"');
}

/// Settings in the terms a user sees are among those that come back
/// unchanged from their text, so writing and reading them back gives them
/// again.
pub proof fn lemma_plain_session_round_trip(c: ConfigView)
    requires
        plain_session(c),
    ensures
        config_safe(c),
        parse_spec(config_text(c)) == c,
{
    lemma_plain_quote_safe(c.theme);
    lemma_plain_quote_safe(c.visualizer);
    if let Some(d) = c.last_dir {
        lemma_plain_quote_safe(d);
    }
    assert forall|i: int| 0 <= i < c.playlist.len() implies #[trigger] c.playlist[i].len() > 0
        && quote_safe(c.playlist[i]) by {
        lemma_plain_quote_safe(c.playlist[i]);
    }
    assert forall|i: int| 0 <= i < c.favorites.len() implies #[trigger] c.favorites[i].len() > 0
        && quote_safe(c.favorites[i]) by {
        lemma_plain_quote_safe(c.favorites[i]);
    }
    assert forall|i: int| 0 <= i < c.recent.len() implies #[trigger] c.recent[i].len() > 0
        && quote_safe(c.recent[i]) by {
        lemma_plain_quote_safe(c.recent[i]);
    }
    assert forall|i: int| 0 <= i < c.play_counts.len() implies count_safe(
        #[trigger] c.play_counts[i],
    ) by {
        lemma_plain_count_safe(c.play_counts[i]);
    }
    lemma_config_round_trip(c);
}


/// Whether `c` can be written and read back unchanged (see [`config_safe`]).
pub fn round_trip_safe(c: &Config) -> (r: bool)
    ensures
        r == config_safe(c@),
{
    proof {
        lemma_words();
    }
    let theme = to_chars(c.theme.as_str());
    let vis = to_chars(c.visualizer.as_str());
    let rep = to_chars(c.repeat.as_str());
    if !quote_safe_exec(theme.as_slice()) || c.volume > 1500 || !quote_safe_exec(vis.as_slice())
        || !is_repeat_word(rep.as_slice()) {
        return false;
    }
    if let Some(d) = &c.last_dir {
        let dv = to_chars(d.as_str());
        if dv.len() == 0 || !quote_safe_exec(dv.as_slice()) {
            return false;
        }
    }
    if !entries_safe(&c.playlist) {
        assert(c@.playlist == strs(c.playlist@));
        return false;
    }
    if !entries_safe(&c.favorites) {
        assert(c@.favorites == strs(c.favorites@));
        return false;
    }
    if c.recent.len() > RECENT_CAP {
        return false;
    }
    if !entries_safe(&c.recent) {
        assert(c@.recent == strs(c.recent@));
        return false;
    }
    let mut i: usize = 0;
    while i < c.play_counts.len()
        invariant
            i <= c.play_counts@.len(),
            forall|k: int| 0 <= k < i ==> count_safe(#[trigger] c@.play_counts[k]),
        decreases c.play_counts.len() - i,
    {
        let pv = to_chars(c.play_counts[i].0.as_str());
        assert(c@.play_counts[i as int] == (pv@, c.play_counts[i as int].1));
        let t = trim_chars(pv.as_slice());
        if pv.len() == 0 || !crate::text::chars_eq(t.as_slice(), pv.as_slice()) || !line_free(
            pv.as_slice(),
        ) || pv[pv.len() - 1] == '"' {
            return false;
        }
        i += 1;
    }
    true
}

fn line_free(v: &[char]) -> (r: bool)
    ensures
        r == free_of(v@, '\n'),
{
    find_char(v, '\n').is_none()
}

fn quote_safe_exec(v: &[char]) -> (r: bool)
    ensures
        r == quote_safe(v@),
{
    line_free(v) && (v.len() == 0 || (v[0] != '"' && v[v.len() - 1] != '"'))
}

fn entries_safe(vs: &Vec<String>) -> (r: bool)
    ensures
        r == (forall|i: int| 0 <= i < vs@.len() ==> #[trigger] strs(vs@)[i].len() > 0 && quote_safe(
            strs(vs@)[i],
        )),
{
    let mut i: usize = 0;
    while i < vs.len()
        invariant
            i <= vs@.len(),
            forall|k: int| 0 <= k < i ==> #[trigger] strs(vs@)[k].len() > 0 && quote_safe(strs(vs@)[k]),
        decreases vs.len() - i,
    {
        let v = to_chars(vs[i].as_str());
        assert(strs(vs@)[i as int] == v@);
        if v.len() == 0 || !quote_safe_exec(v.as_slice()) {
            return false;
        }
        i += 1;
    }
    true
}

// ---------------------------------------------------------------------------
// Between the settings and the player
// ---------------------------------------------------------------------------

/// The repeat mode a settings word names (`all`, `one`, else off).
pub open spec fn repeat_of_spec(word: Seq<char>) -> RepeatMode {
    if word == "all"@ {
        RepeatMode::All
    } else if word == "one"@ {
        RepeatMode::One
    } else {
        RepeatMode::Off
    }
}

pub fn repeat_of(word: &str) -> (r: RepeatMode)
    ensures
        r == repeat_of_spec(word@),
{
    let v = to_chars(word);
    if chars_eq_str(v.as_slice(), "all") {
        RepeatMode::All
    } else if chars_eq_str(v.as_slice(), "one") {
        RepeatMode::One
    } else {
        RepeatMode::Off
    }
}

/// The settings word of a repeat mode (its label in lowercase).
pub open spec fn repeat_word_spec(m: RepeatMode) -> Seq<char> {
    match m {
        RepeatMode::Off => "off"@,
        RepeatMode::All => "all"@,
        RepeatMode::One => "one"@,
    }
}

pub fn repeat_word_of(m: RepeatMode) -> (r: String)
    ensures
        r@ == repeat_word_spec(m),
{
    let l = to_chars(m.label());
    let w = lower_chars(l.as_slice());
    proof {
        reveal_strlit("Off");
        reveal_strlit("All");
        reveal_strlit("One");
        reveal_strlit("off");
        reveal_strlit("all");
        reveal_strlit("one");
        assert(w@ =~= repeat_word_spec(m));
    }
    string_from_chars(w.as_slice())
}

/// A repeat mode survives being saved and read back.
pub proof fn lemma_repeat_word_round_trip(m: RepeatMode)
    ensures
        repeat_of_spec(repeat_word_spec(m)) == m,
        repeat_word(repeat_word_spec(m)),
{
    lemma_words();
}

/// The playlist as saved: the paths of the filesystem-backed tracks, in
/// order (URL tracks are not kept).
pub fn config_playlist(tracks: &[crate::library::Track]) -> (r: Vec<String>)
    ensures
        strs(r@) == crate::library::path_list(tracks@),
{
    let mut out: Vec<String> = Vec::new();
    let mut i: usize = 0;
    while i < tracks.len()
        invariant
            i <= tracks@.len(),
            strs(out@) == crate::library::path_list(tracks@.take(i as int)),
        decreases tracks.len() - i,
    {
        let ghost t = tracks@.take(i + 1);
        assert(t.drop_last() == tracks@.take(i as int));
        assert(t.last() == tracks@[i as int]);
        match &tracks[i].source {
            crate::library::TrackRef::Path(p) => {
                out.push(p.clone());
                assert(strs(out@) =~= strs(out@.drop_last()).push(p@));
            },
            crate::library::TrackRef::Url(_, _) => {},
        }
        i += 1;
    }
    assert(tracks@.take(tracks@.len() as int) == tracks@);
    out
}


/// The settings and session the player saves: its theme, volume, visualizer
/// and scroll settings, browser directory, repeat word, shuffle flag, the
/// playlist's file paths (URL tracks are not saved), the playing index and
/// position, and the favorites, recent list and play counts.
pub fn session_config(
    theme: &str,
    volume: u32,
    visualizer: crate::visualizer::VisMode,
    fft_size: usize,
    scroll_speed: u32,
    browser_dir: &str,
    repeat: RepeatMode,
    shuffle: bool,
    tracks: &[crate::library::Track],
    playing_index: Option<usize>,
    position_ms: u64,
    stats: &crate::stats::Stats,
) -> (r: Config)
    requires
        stats.wf(),
    ensures
        r@.theme == theme@,
        r@.volume == volume,
        r@.visualizer == visualizer.name_spec(),
        r@.fft_size == fft_size,
        r@.scroll_speed == scroll_speed,
        r@.last_dir == Some(browser_dir@),
        r@.repeat == repeat_word_spec(repeat),
        r@.shuffle == shuffle,
        r@.playlist == crate::library::path_list(tracks@),
        r@.playing_index == playing_index,
        r@.position_ms == position_ms,
        r@.favorites == stats.favorites_spec(),
        r@.recent == stats.recent_spec(),
        crate::stats::keys_unique(r@.play_counts),
        crate::stats::counts_of(r@.play_counts) == stats.counts_spec(),
{
    let favorites = stats.favorites_list();
    let recent = stats.recent_list();
    let play_counts = stats.count_list();
    proof {
        assert(strs(favorites@) =~= crate::stats::strs(favorites@));
        assert(strs(recent@) =~= crate::stats::strs(recent@));
        assert(count_pairs(play_counts@) =~= crate::stats::pair_strs(play_counts@));
    }
    Config {
        theme: theme.to_owned(),
        volume,
        visualizer: visualizer.name().to_owned(),
        fft_size,
        scroll_speed,
        last_dir: Some(browser_dir.to_owned()),
        repeat: repeat_word_of(repeat),
        shuffle,
        playlist: config_playlist(tracks),
        playing_index,
        position_ms,
        favorites,
        recent,
        play_counts,
    }
}

} // verus!
