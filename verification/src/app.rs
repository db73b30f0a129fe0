//! Player-state vocabulary and the pure helpers the application state machine
//! is built from: pane/mode enums and their cycles, list filtering, the fuzzy
//! matcher of the global search, and small formatting helpers.
use vstd::prelude::*;

use crate::text::{
    contains_chars, contains_sub, lower, lower_chars, string_from_chars, to_chars, trim,
    trim_chars,
};

pub use crate::library::short_name;

verus! {

broadcast use vstd::string::group_string_axioms;

#[derive(Debug, Copy, Clone, Eq, PartialEq, Structural)]
pub enum FocusPane {
    Playlist,
    Browser,
}

/// A clickable playback control in the "Now Playing" badge row.
#[derive(Debug, Copy, Clone, Eq, PartialEq, Structural)]
pub enum MouseControl {
    SeekBack,
    Stop,
    PlayPause,
    SeekForward,
    CycleRepeat,
    ToggleShuffle,
    ToggleFavorite,
    CycleSubtitle,
}

/// Whether the app is capturing typed text, and for what.
#[derive(Debug, Copy, Clone, Eq, PartialEq, Structural)]
pub enum InputMode {
    Normal,
    Filter,
    SavePlaylist,
}

/// The rows of the escape menu.
#[derive(Debug, Copy, Clone, Eq, PartialEq, Structural)]
pub enum EscapeMenuKind {
    Volume,
    AudioTrack,
    Subtitle,
    AvOffset,
    Visualizer,
    FftSize,
    Theme,
    Fullscreen,
    VideoWindow,
    Repeat,
    Shuffle,
    Help,
    Github,
    Separator,
    Quit,
}

/// One escape-menu row: what it adjusts, whether it can be selected, its
/// label and its current value.
pub struct EscapeMenuItem {
    pub kind: EscapeMenuKind,
    pub enabled: bool,
    pub label: &'static str,
    pub value: String,
}

/// Which slice of the library the global search overlay browses.
#[derive(Debug, Copy, Clone, Eq, PartialEq, Structural)]
pub enum SearchScope {
    All,
    Favorites,
    Recent,
    MostPlayed,
}

impl SearchScope {
    pub open spec fn next_spec(self) -> SearchScope {
        match self {
            SearchScope::All => SearchScope::Favorites,
            SearchScope::Favorites => SearchScope::Recent,
            SearchScope::Recent => SearchScope::MostPlayed,
            SearchScope::MostPlayed => SearchScope::All,
        }
    }

    pub fn cycle(self) -> (r: Self)
        ensures
            r == self.next_spec(),
    {
        match self {
            SearchScope::All => SearchScope::Favorites,
            SearchScope::Favorites => SearchScope::Recent,
            SearchScope::Recent => SearchScope::MostPlayed,
            SearchScope::MostPlayed => SearchScope::All,
        }
    }

    pub fn label(self) -> (r: &'static str)
        ensures
            r@ == match self {
                SearchScope::All => "All"@,
                SearchScope::Favorites => "Favorites"@,
                SearchScope::Recent => "Recent"@,
                SearchScope::MostPlayed => "Most Played"@,
            },
    {
        match self {
            SearchScope::All => "All",
            SearchScope::Favorites => "Favorites",
            SearchScope::Recent => "Recent",
            SearchScope::MostPlayed => "Most Played",
        }
    }
}

/// Cycling the search scope four times returns to where it started.
pub proof fn lemma_search_scope_cycle_period(s: SearchScope)
    ensures
        s.next_spec().next_spec().next_spec().next_spec() == s,
        s.next_spec() != s,
{
}

#[derive(Debug, Copy, Clone, Eq, PartialEq, Structural)]
pub enum RepeatMode {
    Off,
    All,
    One,
}

impl RepeatMode {
    pub open spec fn next_spec(self) -> RepeatMode {
        match self {
            RepeatMode::Off => RepeatMode::All,
            RepeatMode::All => RepeatMode::One,
            RepeatMode::One => RepeatMode::Off,
        }
    }

    pub fn cycle(self) -> (r: Self)
        ensures
            r == self.next_spec(),
    {
        match self {
            RepeatMode::Off => RepeatMode::All,
            RepeatMode::All => RepeatMode::One,
            RepeatMode::One => RepeatMode::Off,
        }
    }

    pub fn label(self) -> (r: &'static str)
        ensures
            r@ == match self {
                RepeatMode::Off => "Off"@,
                RepeatMode::All => "All"@,
                RepeatMode::One => "One"@,
            },
    {
        match self {
            RepeatMode::Off => "Off",
            RepeatMode::All => "All",
            RepeatMode::One => "One",
        }
    }
}

/// Cycling the repeat mode three times returns to where it started
/// (Off, All, One, Off, ...).
pub proof fn lemma_repeat_cycle_period(m: RepeatMode)
    ensures
        m.next_spec().next_spec().next_spec() == m,
        m.next_spec() != m,
{
}

/// The in-app fullscreen display modes.
#[derive(Debug, Copy, Clone, Eq, PartialEq, Structural)]
pub enum FullscreenMode {
    Off,
    Visualizer,
    AlbumArt,
    AlbumArtVis,
}

impl Default for FullscreenMode {
    fn default() -> (r: Self)
        ensures
            r == FullscreenMode::Off,
    {
        FullscreenMode::Off
    }
}

impl FullscreenMode {
    /// Whether any fullscreen mode is active.
    pub fn is_on(self) -> (r: bool)
        ensures
            r == (self != FullscreenMode::Off),
    {
        !matches!(self, FullscreenMode::Off)
    }

    /// Short label for the escape-menu "Fullscreen" row.
    pub fn label(self) -> (r: &'static str)
        ensures
            r@ == match self {
                FullscreenMode::Off => "Off"@,
                FullscreenMode::Visualizer => "Visualizer"@,
                FullscreenMode::AlbumArt => "Album Art"@,
                FullscreenMode::AlbumArtVis => "Art + Visualizer"@,
            },
    {
        match self {
            FullscreenMode::Off => "Off",
            FullscreenMode::Visualizer => "Visualizer",
            FullscreenMode::AlbumArt => "Album Art",
            FullscreenMode::AlbumArtVis => "Art + Visualizer",
        }
    }
}

// ---------------------------------------------------------------------------
// Decimal formatting
// ---------------------------------------------------------------------------

pub open spec fn digit_char(d: nat) -> char {
    ((d + 48) as u32) as char
}

/// The decimal digits of `n` (no leading zeros; `"0"` for zero).
pub open spec fn dec(n: nat) -> Seq<char>
    decreases n,
{
    if n < 10 {
        seq![digit_char(n)]
    } else {
        dec(n / 10).push(digit_char(n % 10))
    }
}

/// `n` in decimal, left-padded with zeros to at least two digits (`{:02}`).
pub open spec fn dec2(n: nat) -> Seq<char> {
    if n < 10 {
        seq!['0', digit_char(n)]
    } else {
        dec(n)
    }
}

/// Decimal digits of `n`.
pub fn decimal(n: u64) -> (r: Vec<char>)
    ensures
        r@ == dec(n as nat),
    decreases n,
{
    if n < 10 {
        let c = ((n as u8) + 48) as char;
        let mut v: Vec<char> = Vec::new();
        v.push(c);
        v
    } else {
        let mut v = decimal(n / 10);
        let c = (((n % 10) as u8) + 48) as char;
        v.push(c);
        v
    }
}

/// Decimal digits of `n`, zero-padded to two places.
pub fn decimal2(n: u64) -> (r: Vec<char>)
    ensures
        r@ == dec2(n as nat),
{
    if n < 10 {
        let mut v: Vec<char> = Vec::new();
        v.push('0');
        v.push(((n as u8) + 48) as char);
        v
    } else {
        decimal(n)
    }
}

/// `MM:SS` for a whole number of seconds (minutes are not wrapped into hours).
pub open spec fn fmt_short_spec(secs: nat) -> Seq<char> {
    dec2(secs / 60) + seq![':'] + dec2(secs % 60)
}

/// Format a position as `MM:SS`.
pub fn fmt_short(secs: u64) -> (r: String)
    ensures
        r@ == fmt_short_spec(secs as nat),
{
    let mut v = decimal2(secs / 60);
    v.push(':');
    let s = decimal2(secs % 60);
    let mut i: usize = 0;
    let ghost start = v@;
    while i < s.len()
        invariant
            i <= s.len(),
            v@ == start + s@.take(i as int),
        decreases s.len() - i,
    {
        v.push(s[i]);
        assert(s@.take(i + 1) == s@.take(i as int).push(s@[i as int]));
        i += 1;
    }
    assert(s@.take(s.len() as int) == s@);
    string_from_chars(v.as_slice())
}

/// `""` for exactly one, `"s"` otherwise.
pub fn plural_s(n: usize) -> (r: &'static str)
    ensures
        r@ == (if n == 1 {
            ""@
        } else {
            "s"@
        }),
{
    if n == 1 {
        ""
    } else {
        "s"
    }
}

// ---------------------------------------------------------------------------
// Hit testing
// ---------------------------------------------------------------------------

/// A screen rectangle in terminal cells.
#[derive(Debug, Copy, Clone, Eq, PartialEq, Structural)]
pub struct Rect {
    pub x: u16,
    pub y: u16,
    pub width: u16,
    pub height: u16,
}

pub open spec fn sat_add(a: u16, b: u16) -> int {
    if a + b > u16::MAX {
        u16::MAX as int
    } else {
        a + b
    }
}

/// Whether the cell `(col, row)` falls inside `rect` (if set). The far
/// edges saturate at the screen limit.
pub open spec fn rect_hit_spec(rect: Option<Rect>, col: u16, row: u16) -> bool {
    match rect {
        Some(r) => col >= r.x && col < sat_add(r.x, r.width) && row >= r.y && row < sat_add(
            r.y,
            r.height,
        ),
        None => false,
    }
}

pub fn rect_hit(rect: Option<Rect>, col: u16, row: u16) -> (r: bool)
    ensures
        r == rect_hit_spec(rect, col, row),
{
    match rect {
        Some(r) => col >= r.x && col < r.x.saturating_add(r.width) && row >= r.y && row
            < r.y.saturating_add(r.height),
        None => false,
    }
}

// ---------------------------------------------------------------------------
// List filtering and fuzzy search
// ---------------------------------------------------------------------------

/// Whether `item` passes the list filter with the lowered, trimmed query `q`.
pub open spec fn filter_pass(item: Seq<char>, q: Seq<char>) -> bool {
    q.len() == 0 || contains_sub(lower(item), q)
}

/// Indices (in order) of the items that pass the filter `query`.
pub open spec fn filtered_indices_spec(items: Seq<Seq<char>>, query: Seq<char>) -> Seq<usize>
    decreases items.len(),
{
    if items.len() == 0 {
        Seq::empty()
    } else {
        let prev = filtered_indices_spec(items.drop_last(), query);
        if filter_pass(items.last(), lower(trim(query))) {
            prev.push((items.len() - 1) as usize)
        } else {
            prev
        }
    }
}

/// The filter result lists, in increasing order and each once, exactly the
/// indices of the items whose ASCII-lowercased text contains the trimmed,
/// lowercased query; a blank query gives every index.
pub proof fn lemma_filtered_indices(items: Seq<Seq<char>>, query: Seq<char>)
    requires
        items.len() <= usize::MAX,
    ensures
        ({
            let r = filtered_indices_spec(items, query);
            let q = lower(trim(query));
            &&& forall|i: int, j: int| 0 <= i < j < r.len() ==> #[trigger] r[i] < #[trigger] r[j]
            &&& forall|k: int| 0 <= k < r.len() ==> #[trigger] r[k] < items.len()
            &&& forall|i: int|
                0 <= i < items.len() ==> (r.contains(i as usize) <==> filter_pass(
                    #[trigger] items[i],
                    q,
                ))
            &&& q.len() == 0 ==> r == Seq::new(items.len(), |i: int| i as usize)
        }),
    decreases items.len(),
{
    let q = lower(trim(query));
    if items.len() > 0 {
        let n = items.len() - 1;
        let pre = items.drop_last();
        lemma_filtered_indices(pre, query);
        let prev = filtered_indices_spec(pre, query);
        let r = filtered_indices_spec(items, query);
        let pass = filter_pass(items.last(), q);
        assert(r == if pass { prev.push(n as usize) } else { prev });
        assert forall|i: int| 0 <= i < items.len() implies (r.contains(i as usize) <==> filter_pass(
            #[trigger] items[i],
            q,
        )) by {
            if i < n {
                assert(items[i] == pre[i]);
                assert(prev.contains(i as usize) <==> filter_pass(pre[i], q));
                if r.contains(i as usize) {
                    let k = choose|k: int| 0 <= k < r.len() && r[k] == i as usize;
                    if pass {
                        assert(k != prev.len());
                        assert(prev[k] == r[k]);
                    }
                    assert(prev.contains(i as usize));
                }
                if prev.contains(i as usize) {
                    let k = choose|k: int| 0 <= k < prev.len() && prev[k] == i as usize;
                    assert(r[k] == prev[k]);
                    assert(r.contains(i as usize));
                }
            } else {
                assert(i == n);
                assert(items[i] == items.last());
                if pass {
                    assert(r[r.len() - 1] == n as usize);
                    assert(r.contains(i as usize));
                } else if r.contains(i as usize) {
                    let k = choose|k: int| 0 <= k < r.len() && r[k] == i as usize;
                    assert(prev[k] < pre.len());
                    assert(false);
                }
            }
        }
        assert forall|i: int, j: int| 0 <= i < j < r.len() implies #[trigger] r[i] < #[trigger] r[j] by {
            if pass && j == r.len() - 1 {
                assert(r[i] == prev[i]);
                assert(prev[i] < pre.len());
            } else {
                assert(r[i] == prev[i] && r[j] == prev[j]);
            }
        }
        assert forall|k: int| 0 <= k < r.len() implies #[trigger] r[k] < items.len() by {
            if !(pass && k == r.len() - 1) {
                assert(r[k] == prev[k]);
            }
        }
        if q.len() == 0 {
            assert(r =~= Seq::new(items.len(), |i: int| i as usize));
        }
    } else {
        assert(filtered_indices_spec(items, query) =~= Seq::new(items.len(), |i: int| i as usize));
    }
}

/// Indices of `items` whose text contains `query`, case-insensitively. A blank
/// query matches everything (all indices, in order).
pub fn filtered_indices(items: &[&str], query: &str) -> (r: Vec<usize>)
    ensures
        r@ == filtered_indices_spec(items@.map_values(|s: &str| s@), query@),
{
    let qv = to_chars(query);
    let qt = trim_chars(qv.as_slice());
    let q = lower_chars(qt.as_slice());
    let ghost views = items@.map_values(|s: &str| s@);
    let mut out: Vec<usize> = Vec::new();
    let mut i: usize = 0;
    while i < items.len()
        invariant
            i <= items@.len() == views.len(),
            views == items@.map_values(|s: &str| s@),
            q@ == lower(trim(query@)),
            out@ == filtered_indices_spec(views.take(i as int), query@),
        decreases items.len() - i,
    {
        let item = to_chars(items[i]);
        let li = lower_chars(item.as_slice());
        proof {
            assert(views.take(i + 1).drop_last() == views.take(i as int));
            assert(views.take(i + 1).last() == items@[i as int]@);
        }
        if q.len() == 0 || contains_chars(li.as_slice(), q.as_slice()) {
            out.push(i);
        }
        i += 1;
    }
    assert(views.take(views.len() as int) == views);
    out
}

/// The lowercase mapping of a character (possibly several characters), as
/// `char::to_lowercase` yields it.
pub uninterp spec fn char_lowercase(c: char) -> Seq<char>;

/// Trusted: calls `char::to_lowercase`. Its result is named
/// [`char_lowercase`]; for ASCII input std documents it as the single
/// ASCII-lowercased character. What it yields for other characters (the
/// Unicode lowercase mapping) is left to the name.
#[verifier::external_body]
fn to_lowercase_chars(c: char) -> (r: Vec<char>)
    ensures
        r@ == char_lowercase(c),
        (c as u32) < 128 ==> r@ == seq![crate::text::lower_char(c)],
{
    c.to_lowercase().collect()
}

/// The lowercase mapping of every character of `s`, concatenated.
pub open spec fn flat_lower(s: Seq<char>) -> Seq<char>
    decreases s.len(),
{
    if s.len() == 0 {
        Seq::empty()
    } else {
        flat_lower(s.drop_last()) + char_lowercase(s.last())
    }
}

/// The part of the needle `r` still unmatched after scanning `s` greedily.
pub open spec fn greedy(r: Seq<char>, s: Seq<char>) -> Seq<char>
    decreases s.len(),
{
    if s.len() == 0 {
        r
    } else {
        let before = greedy(r, s.drop_last());
        if before.len() > 0 && before[0] == s.last() {
            before.drop_first()
        } else {
            before
        }
    }
}

/// Case-insensitive subsequence match: every character of `needle_lower`
/// appears, in order, in the lowercased haystack.
pub open spec fn fuzzy_match_spec(haystack: Seq<char>, needle_lower: Seq<char>) -> bool {
    greedy(needle_lower, flat_lower(haystack)).len() == 0
}

proof fn lemma_greedy_append(r: Seq<char>, a: Seq<char>, b: Seq<char>)
    ensures
        greedy(r, a + b) == greedy(greedy(r, a), b),
    decreases b.len(),
{
    if b.len() == 0 {
        assert(a + b == a);
    } else {
        lemma_greedy_append(r, a, b.drop_last());
        assert((a + b).drop_last() == a + b.drop_last());
        assert((a + b).last() == b.last());
    }
}

proof fn lemma_greedy_suffix(r: Seq<char>, s: Seq<char>)
    ensures
        greedy(r, s).len() <= r.len(),
        greedy(r, s) == r.skip(r.len() - greedy(r, s).len()),
    decreases s.len(),
{
    if s.len() == 0 {
        assert(r.skip(0) == r);
    } else {
        lemma_greedy_suffix(r, s.drop_last());
        let b = greedy(r, s.drop_last());
        if b.len() > 0 && b[0] == s.last() {
            assert(b.drop_first() =~= r.skip(r.len() - (b.len() - 1)));
        }
    }
}

/// `f` places the characters of `r` in `s`: `s[f[k]] == r[k]`, at strictly
/// increasing positions.
pub open spec fn subseq_witness(r: Seq<char>, s: Seq<char>, f: Seq<int>) -> bool {
    &&& f.len() == r.len()
    &&& forall|k: int| 0 <= k < f.len() ==> 0 <= #[trigger] f[k] < s.len() && s[f[k]] == r[k]
    &&& forall|k: int, l: int| 0 <= k < l < f.len() ==> #[trigger] f[k] < #[trigger] f[l]
}

/// `r` is a subsequence of `s`: its characters appear in `s` in order, gaps
/// allowed.
pub open spec fn is_subsequence(r: Seq<char>, s: Seq<char>) -> bool {
    exists|f: Seq<int>| subseq_witness(r, s, f)
}

/// How many characters of `r` the greedy scan of `s` has matched.
pub open spec fn consumed(r: Seq<char>, s: Seq<char>) -> int {
    r.len() - greedy(r, s).len()
}

proof fn lemma_greedy_sound(r: Seq<char>, s: Seq<char>) -> (f: Seq<int>)
    ensures
        0 <= consumed(r, s) <= r.len(),
        subseq_witness(r.take(consumed(r, s)), s, f),
    decreases s.len(),
{
    lemma_greedy_suffix(r, s);
    if s.len() == 0 {
        let f = Seq::<int>::empty();
        assert(r.take(0) =~= Seq::<char>::empty());
        f
    } else {
        let s1 = s.drop_last();
        let f1 = lemma_greedy_sound(r, s1);
        lemma_greedy_suffix(r, s1);
        let c1 = consumed(r, s1);
        let b = greedy(r, s1);
        if b.len() > 0 && b[0] == s.last() {
            let f = f1.push(s.len() - 1);
            let rt = r.take(c1 + 1);
            assert(b[0] == r[c1]);
            assert forall|k: int| 0 <= k < f.len() implies 0 <= #[trigger] f[k] < s.len() && s[f[k]]
                == rt[k] by {
                if k < f1.len() {
                    assert(f[k] == f1[k]);
                    assert(s1[f1[k]] == r.take(c1)[k]);
                    assert(s[f1[k]] == s1[f1[k]]);
                }
            }
            assert forall|k: int, l: int| 0 <= k < l < f.len() implies #[trigger] f[k] < #[trigger] f[l] by {
                if l < f1.len() {
                    assert(f[k] == f1[k] && f[l] == f1[l]);
                } else {
                    assert(f[k] == f1[k]);
                }
            }
            f
        } else {
            assert forall|k: int| 0 <= k < f1.len() implies 0 <= #[trigger] f1[k] < s.len() && s[f1[k]]
                == r.take(consumed(r, s))[k] by {
                assert(s[f1[k]] == s1[f1[k]]);
            }
            f1
        }
    }
}

proof fn lemma_greedy_complete(r: Seq<char>, s: Seq<char>, f: Seq<int>, j: int)
    requires
        subseq_witness(r, s, f),
        0 <= j <= s.len(),
    ensures
        forall|k: int| 0 <= k < f.len() && #[trigger] f[k] < j ==> consumed(r, s.take(j)) > k,
    decreases j,
{
    if j > 0 {
        lemma_greedy_complete(r, s, f, j - 1);
        let t0 = s.take(j - 1);
        let t = s.take(j);
        assert(t.drop_last() =~= t0);
        assert(t.last() == s[j - 1]);
        lemma_greedy_suffix(r, t0);
        lemma_greedy_suffix(r, t);
        assert forall|k: int| 0 <= k < f.len() && #[trigger] f[k] < j implies consumed(r, t) > k by {
            if f[k] < j - 1 {
            } else {
                if consumed(r, t0) <= k {
                    if k > 0 {
                        assert(f[k - 1] < f[k]);
                    }
                    assert(consumed(r, t0) == k);
                    let b = greedy(r, t0);
                    assert(b == r.skip(k));
                    assert(b[0] == r[k]);
                    assert(s[f[k]] == r[k]);
                }
            }
        }
    }
}

/// The fuzzy match holds exactly when the needle is a subsequence of the
/// lowercased haystack (each haystack character lowercased as
/// `char::to_lowercase` maps it): an empty needle always matches, and a
/// match needs no more needle characters than lowercased haystack ones.
pub proof fn lemma_fuzzy_match_subsequence(haystack: Seq<char>, needle_lower: Seq<char>)
    ensures
        fuzzy_match_spec(haystack, needle_lower) <==> is_subsequence(needle_lower, flat_lower(haystack)),
        needle_lower.len() == 0 ==> fuzzy_match_spec(haystack, needle_lower),
        fuzzy_match_spec(haystack, needle_lower) ==> needle_lower.len() <= flat_lower(haystack).len(),
{
    let s = flat_lower(haystack);
    let r = needle_lower;
    lemma_greedy_suffix(r, s);
    if fuzzy_match_spec(haystack, r) {
        let f = lemma_greedy_sound(r, s);
        assert(r.take(consumed(r, s)) =~= r);
        assert(subseq_witness(r, s, f));
        if r.len() > s.len() {
            // strictly increasing positions inside s: f[k] >= k
            assert forall|k: int| 0 <= k < f.len() implies #[trigger] f[k] >= k by {
                lemma_increasing_at_least(f, k);
            }
            assert(f[r.len() - 1] >= r.len() - 1);
        }
    }
    if is_subsequence(r, s) {
        let f = choose|f: Seq<int>| subseq_witness(r, s, f);
        lemma_greedy_complete(r, s, f, s.len() as int);
        assert(s.take(s.len() as int) =~= s);
        if r.len() > 0 {
            assert(f[r.len() - 1] < s.len());
            assert(consumed(r, s) > r.len() - 1);
        }
    }
    if r.len() == 0 {
        assert(greedy(r, s).len() <= 0);
    }
}

proof fn lemma_increasing_at_least(f: Seq<int>, k: int)
    requires
        0 <= k < f.len(),
        forall|i: int| 0 <= i < f.len() ==> 0 <= #[trigger] f[i],
        forall|i: int, l: int| 0 <= i < l < f.len() ==> #[trigger] f[i] < #[trigger] f[l],
    ensures
        f[k] >= k,
    decreases k,
{
    if k > 0 {
        lemma_increasing_at_least(f, k - 1);
        assert(f[k - 1] < f[k]);
    }
}

/// Every character of `s` is ASCII.
pub open spec fn all_ascii(s: Seq<char>) -> bool {
    forall|i: int| 0 <= i < s.len() ==> (#[trigger] s[i] as u32) < 128
}

/// Case-insensitive *subsequence* match: every character of `needle_lower`
/// (which the caller has already lowercased) appears in `haystack` in order,
/// not necessarily contiguously. An empty needle matches everything. On an
/// ASCII haystack this is a subsequence test against the ASCII-lowercased
/// haystack.
pub fn fuzzy_match(haystack: &str, needle_lower: &str) -> (r: bool)
    ensures
        r == fuzzy_match_spec(haystack@, needle_lower@),
        all_ascii(haystack@) ==> (r <==> is_subsequence(needle_lower@, lower(haystack@))),
        all_ascii(haystack@) ==> flat_lower(haystack@) == lower(haystack@),
{
    let h = to_chars(haystack);
    let n = to_chars(needle_lower);
    let mut j: usize = 0;
    let mut i: usize = 0;
    while i < h.len()
        invariant
            i <= h@.len(),
            j <= n@.len(),
            n@.skip(j as int) == greedy(n@, flat_lower(h@.take(i as int))),
            h@ == haystack@,
            all_ascii(haystack@) ==> flat_lower(h@.take(i as int)) == lower(h@.take(i as int)),
        decreases h.len() - i,
    {
        let l = to_lowercase_chars(h[i]);
        let ghost before = flat_lower(h@.take(i as int));
        proof {
            assert(h@.take(i + 1).drop_last() == h@.take(i as int));
            assert(flat_lower(h@.take(i + 1)) == before + l@);
            lemma_greedy_append(n@, before, l@);
            if all_ascii(haystack@) {
                assert((h@[i as int] as u32) < 128);
                assert(lower(h@.take(i + 1)) =~= lower(h@.take(i as int)).push(
                    crate::text::lower_char(h@[i as int]),
                ));
                assert(before + l@ =~= lower(h@.take(i as int)).push(
                    crate::text::lower_char(h@[i as int]),
                ));
            }
        }
        let mut k: usize = 0;
        while k < l.len()
            invariant
                k <= l@.len(),
                j <= n@.len(),
                n@.skip(j as int) == greedy(greedy(n@, before), l@.take(k as int)),
            decreases l.len() - k,
        {
            proof {
                assert(l@.take(k + 1).drop_last() == l@.take(k as int));
                assert(l@.take(k + 1).last() == l@[k as int]);
            }
            if j < n.len() && n[j] == l[k] {
                assert(n@.skip(j as int).drop_first() == n@.skip(j + 1));
                j += 1;
            }
            k += 1;
        }
        assert(l@.take(l@.len() as int) == l@);
        i += 1;
    }
    assert(h@.take(h@.len() as int) == h@);
    proof {
        lemma_fuzzy_match_subsequence(haystack@, needle_lower@);
    }
    j == n.len()
}

} // verus!
