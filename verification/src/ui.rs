//! Text layout helpers used by the renderer: truncation with an ellipsis,
//! padding, time formatting, subtitle word-wrapping and the partial-block
//! glyphs of bar meters.
use vstd::prelude::*;

use crate::app::{dec, dec2, decimal, decimal2};
use crate::library::string_views;
use vstd::string::StringSliceAdditionalSpecFns;
use crate::text::{
    concat_chars, is_ws, is_whitespace, split_chars, split_on, string_from_chars, sub_chars,
    to_chars, trim, trim_chars,
};

verus! {

broadcast use vstd::string::group_string_axioms;

/// `s` cut to `max` characters, the last replaced by `…` when it was cut;
/// `"…"` alone when `max` is 0 or 1 and `s` is longer.
pub open spec fn truncate_chars_spec(s: Seq<char>, max: nat) -> Seq<char> {
    if s.len() <= max {
        s
    } else if max <= 1 {
        seq!['…']
    } else {
        s.take(max - 1).push('…')
    }
}

pub fn truncate_chars(s: &str, max: usize) -> (r: String)
    ensures
        r@ == truncate_chars_spec(s@, max as nat),
{
    let v = to_chars(s);
    if v.len() <= max {
        return s.to_owned();
    }
    if max <= 1 {
        proof {
            reveal_strlit("…");
        }
        return "…".to_owned();
    }
    let mut out = sub_chars(v.as_slice(), 0, max - 1);
    out.push('…');
    string_from_chars(out.as_slice())
}

/// `s` cut to `max` characters with a trailing `…` when it was cut; a `max`
/// of 0 leaves `s` alone.
pub open spec fn truncate_spec(s: Seq<char>, max: nat) -> Seq<char> {
    if s.len() <= max || max == 0 {
        s
    } else {
        s.take(max - 1).push('…')
    }
}

pub fn truncate(s: &str, max: usize) -> (r: String)
    ensures
        r@ == truncate_spec(s@, max as nat),
{
    let v = to_chars(s);
    if v.len() <= max || max == 0 {
        return s.to_owned();
    }
    let mut out = sub_chars(v.as_slice(), 0, max - 1);
    out.push('…');
    string_from_chars(out.as_slice())
}

/// `s` padded with spaces on the right to `width` characters.
pub open spec fn pad_right_spec(s: Seq<char>, width: nat) -> Seq<char> {
    if s.len() >= width {
        s
    } else {
        s + Seq::new((width - s.len()) as nat, |i: int| ' ')
    }
}

pub fn pad_right(s: &str, width: usize) -> (r: String)
    ensures
        r@ == pad_right_spec(s@, width as nat),
{
    let mut v = to_chars(s);
    let count = v.len();
    if count >= width {
        return s.to_owned();
    }
    let mut k: usize = 0;
    while k < width - count
        invariant
            count == s@.len(),
            count < width,
            k <= width - count,
            v@ == s@ + Seq::new(k as nat, |i: int| ' '),
        decreases width - count - k,
    {
        v.push(' ');
        assert(v@ =~= s@ + Seq::new((k + 1) as nat, |i: int| ' '));
        k += 1;
    }
    string_from_chars(v.as_slice())
}

/// The byte length a path shown in `max` columns may keep before it is
/// shortened: `max - 6`.
pub open spec fn path_budget(max: nat) -> nat {
    if max >= 6 {
        (max - 6) as nat
    } else {
        0
    }
}

/// Whether `truncate_path` keeps `p` whole.
pub open spec fn path_fits(p: &str, max: nat) -> bool {
    p.spec_bytes().len() <= path_budget(max) || path_budget(max) == 0
}

/// The byte offset where the kept tail of a shortened path starts.
pub open spec fn path_cut(p: &str, max: nat) -> int {
    p.spec_bytes().len() - path_budget(max) + 1
}

/// Shorten a path to its last `max - 7` bytes behind a leading `…`, when it
/// is longer than `max - 6` bytes. The cut must fall on a character
/// boundary (elsewhere the cut would split a character).
pub fn truncate_path(p: &str, max: usize) -> (r: String)
    requires
        path_fits(p, max as nat) || vstd::utf8::is_char_boundary(
            p.spec_bytes(),
            path_cut(p, max as nat),
        ),
    ensures
        path_fits(p, max as nat) ==> r@ == p@,
        !path_fits(p, max as nat) ==> exists|t: Seq<char>|
            vstd::utf8::encode_utf8(t) == p.spec_bytes().skip(path_cut(p, max as nat)) && r@
                == seq!['…'] + t,
{
    let budget = if max >= 6 {
        max - 6
    } else {
        0
    };
    let len = p.as_bytes().len();
    if len <= budget || budget == 0 {
        return p.to_owned();
    }
    let (_, tail) = p.split_at(len - budget + 1);
    let mut out = "…".to_owned();
    out.append(tail);
    proof {
        reveal_strlit("…");
        assert(tail.spec_bytes() =~= p.spec_bytes().skip(path_cut(p, max as nat)));
        assert(out@ == seq!['…'] + tail@);
        assert(vstd::utf8::encode_utf8(tail@) == tail.spec_bytes());
    }
    out
}

/// A duration in whole seconds as `MM:SS`, or `H:MM:SS` from one hour on.
pub open spec fn fmt_time_spec(secs: nat) -> Seq<char> {
    let m = secs / 60;
    let s = secs % 60;
    if m >= 60 {
        dec(m / 60) + seq![':'] + dec2(m % 60) + seq![':'] + dec2(s)
    } else {
        dec2(m) + seq![':'] + dec2(s)
    }
}

pub fn fmt_time(secs: u64) -> (r: String)
    ensures
        r@ == fmt_time_spec(secs as nat),
{
    let m = secs / 60;
    let s = secs % 60;
    let colon: Vec<char> = vec![':'];
    let out = if m >= 60 {
        let a = decimal(m / 60);
        let b = concat_chars(a.as_slice(), colon.as_slice());
        let c = concat_chars(b.as_slice(), decimal2(m % 60).as_slice());
        let d = concat_chars(c.as_slice(), colon.as_slice());
        concat_chars(d.as_slice(), decimal2(s).as_slice())
    } else {
        let a = decimal2(m);
        let b = concat_chars(a.as_slice(), colon.as_slice());
        concat_chars(b.as_slice(), decimal2(s).as_slice())
    };
    string_from_chars(out.as_slice())
}

proof fn lemma_dec2_digits(n: nat)
    requires
        n < 100,
    ensures
        dec2(n).len() == 2,
        crate::text::all_digits(dec2(n)),
        crate::text::digits_value(dec2(n)) == n,
{
    crate::decimal::lemma_dec_digits(n);
    if n < 10 {
        crate::decimal::lemma_digit_char(n);
        let d = dec2(n);
        assert(d.drop_last() =~= seq!['0']);
        assert(seq!['0'].drop_last() =~= Seq::<char>::empty());
        assert(seq!['0'].last() == '0');
        assert(crate::text::digit_val('0') == 0);
        assert(crate::text::digits_value(Seq::<char>::empty()) == 0);
        assert(crate::text::digits_value(seq!['0']) == 0);
        assert(d.last() == crate::app::digit_char(n));
    } else {
        assert(dec(n) == dec(n / 10).push(crate::app::digit_char(n % 10)));
        assert(n / 10 < 10);
        assert(dec(n / 10) == seq![crate::app::digit_char(n / 10)]);
    }
}

/// A duration shown as `MM:SS` (under an hour) or `H:MM:SS` reads back as
/// the same number of seconds: minutes and seconds are two digits below 60,
/// and hours take as many digits as they need.
pub proof fn lemma_fmt_time_reads_back(secs: nat)
    ensures
        ({
            let t = fmt_time_spec(secs);
            let n = t.len();
            if secs < 3600 {
                &&& n == 5
                &&& t[2] == ':'
                &&& crate::text::all_digits(t.take(2)) && crate::text::all_digits(t.skip(3))
                &&& crate::text::digits_value(t.take(2)) < 60
                &&& crate::text::digits_value(t.skip(3)) < 60
                &&& crate::text::digits_value(t.take(2)) * 60 + crate::text::digits_value(t.skip(3))
                    == secs
            } else {
                &&& n >= 7
                &&& t[n - 6] == ':' && t[n - 3] == ':'
                &&& crate::text::all_digits(t.take(n - 6))
                &&& crate::text::all_digits(t.subrange(n - 5, n - 3))
                &&& crate::text::all_digits(t.skip(n - 2))
                &&& crate::text::digits_value(t.subrange(n - 5, n - 3)) < 60
                &&& crate::text::digits_value(t.skip(n - 2)) < 60
                &&& crate::text::digits_value(t.take(n - 6)) * 3600 + crate::text::digits_value(
                    t.subrange(n - 5, n - 3),
                ) * 60 + crate::text::digits_value(t.skip(n - 2)) == secs
            }
        }),
{
    let t = fmt_time_spec(secs);
    let m = secs / 60;
    let s = secs % 60;
    lemma_dec2_digits(s);
    if m >= 60 {
        lemma_dec2_digits(m % 60);
        crate::decimal::lemma_dec_digits(m / 60);
        let h = dec(m / 60);
        let mm = dec2(m % 60);
        let ss = dec2(s);
        assert(t == h + seq![':'] + mm + seq![':'] + ss);
        let n = t.len();
        assert(t.take(n - 6) =~= h);
        assert(t.subrange(n - 5, n - 3) =~= mm);
        assert(t.skip(n - 2) =~= ss);
        assert(secs == (m / 60) * 3600 + (m % 60) * 60 + s);
    } else {
        lemma_dec2_digits(m);
        let mm = dec2(m);
        let ss = dec2(s);
        assert(t == mm + seq![':'] + ss);
        assert(t.take(2) =~= mm);
        assert(t.skip(3) =~= ss);
    }
}

/// Cutting text: the result is never longer than the limit (a limit of 0
/// leaves the text alone), text that fits is kept as it is, and cut text is
/// its own beginning followed by `…`.
pub proof fn lemma_truncate_fits(s: Seq<char>, max: nat)
    ensures
        max > 0 ==> truncate_spec(s, max).len() <= max,
        s.len() <= max ==> truncate_spec(s, max) == s,
        s.len() > max && max > 0 ==> truncate_spec(s, max).last() == '…' && truncate_spec(s, max).drop_last()
            == s.take(truncate_spec(s, max).len() - 1),
        truncate_chars_spec(s, max).len() <= if max == 0 { 1 } else { max },
        s.len() <= max ==> truncate_chars_spec(s, max) == s,
        s.len() > max ==> truncate_chars_spec(s, max).last() == '…' && truncate_chars_spec(
            s,
            max,
        ).drop_last() == s.take(truncate_chars_spec(s, max).len() - 1),
{
    if s.len() > max && max > 1 {
        assert(s.take(max - 1).push('…').drop_last() =~= s.take(max - 1));
    }
    if s.len() > max && max <= 1 {
        assert(seq!['…'].drop_last() =~= s.take(0));
    }
}

/// Lower eighth-block for a partial bar tip filled from the bottom (1..=7);
/// a full block otherwise.
pub open spec fn eighth_up_spec(frac: usize) -> char {
    if frac == 1 {
        '▁'
    } else if frac == 2 {
        '▂'
    } else if frac == 3 {
        '▃'
    } else if frac == 4 {
        '▄'
    } else if frac == 5 {
        '▅'
    } else if frac == 6 {
        '▆'
    } else if frac == 7 {
        '▇'
    } else {
        '█'
    }
}

pub fn eighth_up(frac: usize) -> (r: char)
    ensures
        r == eighth_up_spec(frac),
{
    match frac {
        1 => '▁',
        2 => '▂',
        3 => '▃',
        4 => '▄',
        5 => '▅',
        6 => '▆',
        7 => '▇',
        _ => '█',
    }
}

/// Left eighth-block for a partial meter tip filled from the left (1..=7);
/// a full block otherwise.
pub open spec fn eighth_left_spec(frac: usize) -> char {
    if frac == 1 {
        '▏'
    } else if frac == 2 {
        '▎'
    } else if frac == 3 {
        '▍'
    } else if frac == 4 {
        '▌'
    } else if frac == 5 {
        '▋'
    } else if frac == 6 {
        '▊'
    } else if frac == 7 {
        '▉'
    } else {
        '█'
    }
}

pub fn eighth_left(frac: usize) -> (r: char)
    ensures
        r == eighth_left_spec(frac),
{
    match frac {
        1 => '▏',
        2 => '▎',
        3 => '▍',
        4 => '▌',
        5 => '▋',
        6 => '▊',
        7 => '▉',
        _ => '█',
    }
}

// ---------------------------------------------------------------------------
// Subtitle wrapping
// ---------------------------------------------------------------------------

/// The character views of lines.
pub open spec fn lviews(v: Seq<Vec<char>>) -> Seq<Seq<char>> {
    v.map_values(|l: Vec<char>| l@)
}

/// The pieces of `s` between whitespace characters (empty pieces included).
pub open spec fn ws_pieces(s: Seq<char>) -> Seq<Seq<char>>
    decreases s.len(),
{
    if s.len() == 0 {
        seq![Seq::<char>::empty()]
    } else {
        let p = ws_pieces(s.drop_last());
        if is_ws(s.last()) {
            p.push(Seq::<char>::empty())
        } else {
            p.update(p.len() - 1, p.last().push(s.last()))
        }
    }
}

proof fn lemma_ws_pieces_nonempty(s: Seq<char>)
    ensures
        ws_pieces(s).len() >= 1,
    decreases s.len(),
{
    if s.len() > 0 {
        lemma_ws_pieces_nonempty(s.drop_last());
    }
}

/// The whitespace-separated words of `s` (`str::split_whitespace`).
pub open spec fn words_of(s: Seq<char>) -> Seq<Seq<char>> {
    ws_pieces(s).filter(|w: Seq<char>| w.len() > 0)
}

/// The words of `v` (see [`words_of`]).
pub fn words(v: &[char]) -> (r: Vec<Vec<char>>)
    ensures
        lviews(r@) == words_of(v@),
{
    let mut out: Vec<Vec<char>> = Vec::new();
    let mut cur: Vec<char> = Vec::new();
    let mut i: usize = 0;
    while i < v.len()
        invariant
            i <= v.len(),
            ws_pieces(v@.take(i as int)).len() >= 1,
            lviews(out@) == ws_pieces(v@.take(i as int)).drop_last().filter(
                |w: Seq<char>| w.len() > 0,
            ),
            cur@ == ws_pieces(v@.take(i as int)).last(),
        decreases v.len() - i,
    {
        let ghost p = ws_pieces(v@.take(i as int));
        proof {
            assert(v@.take(i + 1).drop_last() == v@.take(i as int));
            assert(v@.take(i + 1).last() == v@[i as int]);
            lemma_ws_pieces_nonempty(v@.take(i + 1));
        }
        if is_whitespace(v[i]) {
            proof {
                let q = p.push(Seq::<char>::empty());
                assert(q.drop_last() == p);
                assert(p == p.drop_last().push(p.last()));
                p.drop_last().lemma_filter_push(p.last(), |w: Seq<char>| w.len() > 0);
            }
            if cur.len() > 0 {
                let ghost before = out@;
                out.push(cur);
                assert(lviews(out@) =~= lviews(before).push(p.last()));
            }
            cur = Vec::new();
        } else {
            cur.push(v[i]);
            proof {
                let q = p.update(p.len() - 1, p.last().push(v@[i as int]));
                assert(q.drop_last() =~= p.drop_last());
            }
        }
        i += 1;
    }
    assert(v@.take(v.len() as int) == v@);
    let ghost p = ws_pieces(v@);
    proof {
        assert(p == p.drop_last().push(p.last()));
        p.drop_last().lemma_filter_push(p.last(), |w: Seq<char>| w.len() > 0);
    }
    if cur.len() > 0 {
        let ghost before = out@;
        out.push(cur);
        assert(lviews(out@) =~= lviews(before).push(p.last()));
    }
    out
}

/// `w` cut into consecutive chunks of `width` characters (the last may be
/// shorter).
pub open spec fn chunks(w: Seq<char>, width: nat) -> Seq<Seq<char>>
    decreases w.len(),
{
    if w.len() == 0 || width == 0 {
        Seq::empty()
    } else if w.len() <= width {
        seq![w]
    } else {
        seq![w.take(width as int)] + chunks(w.skip(width as int), width)
    }
}

/// Puts a word at the start of a line: whole when it fits in `width`
/// columns; otherwise cut into `width`-column chunks, each a line of its
/// own, after which the next word starts a fresh line.
pub open spec fn start_word(done: Seq<Seq<char>>, word: Seq<char>, width: nat) -> (Seq<Seq<char>>, Seq<char>) {
    if word.len() <= width {
        (done, word)
    } else {
        (done + chunks(word, width), Seq::empty())
    }
}

/// Places one word: it joins the line being filled after a space when that
/// still fits in `width` columns, else the line is finished and the word
/// starts the next one.
pub open spec fn place_word(st: (Seq<Seq<char>>, Seq<char>), word: Seq<char>, width: nat) -> (
    Seq<Seq<char>>,
    Seq<char>,
) {
    let (done, cur) = st;
    if cur.len() == 0 {
        start_word(done, word, width)
    } else if cur.len() + 1 + word.len() <= width {
        (done, cur.push(' ') + word)
    } else {
        start_word(done.push(cur), word, width)
    }
}

pub open spec fn place_words(st: (Seq<Seq<char>>, Seq<char>), ws: Seq<Seq<char>>, width: nat) -> (
    Seq<Seq<char>>,
    Seq<char>,
)
    decreases ws.len(),
{
    if ws.len() == 0 {
        st
    } else {
        place_word(place_words(st, ws.drop_last(), width), ws.last(), width)
    }
}

/// The lines after `done` wraps one `\n`-separated segment.
pub open spec fn wrap_segment_into(done: Seq<Seq<char>>, segment: Seq<char>, width: nat) -> Seq<Seq<char>> {
    let (d, c) = place_words((done, Seq::empty()), words_of(segment), width);
    if c.len() > 0 {
        d.push(c)
    } else {
        d
    }
}

/// All the wrapped lines of the segments, in order, with no line limit.
pub open spec fn all_lines(segs: Seq<Seq<char>>, width: nat) -> Seq<Seq<char>>
    decreases segs.len(),
{
    if segs.len() == 0 {
        Seq::empty()
    } else {
        wrap_segment_into(all_lines(segs.drop_last(), width), segs.last(), width)
    }
}

/// A line cut to leave room for a closing `…` within `width` columns.
pub open spec fn ellipsized(l: Seq<char>, width: nat) -> Seq<char> {
    l.take(if l.len() <= width - 1 { l.len() as int } else { width - 1 }).push('…')
}

/// Greedy word-wrap of `text` to `width` columns, honouring its line
/// breaks, capped at `max_lines` lines; when lines had to be left out, the
/// last kept line ends in `…` (still within `width` columns).
pub open spec fn wrap_subtitle_spec(text: Seq<char>, width: nat, max_lines: nat) -> Seq<Seq<char>> {
    if width == 0 || max_lines == 0 {
        Seq::empty()
    } else {
        let l = all_lines(split_on(text, '\n'), width);
        if l.len() <= max_lines {
            l
        } else {
            let o = l.take(max_lines as int);
            o.update(max_lines - 1, ellipsized(o[max_lines - 1], width))
        }
    }
}

/// A line as shown: not empty, at most `width` columns, no line break.
pub open spec fn line_ok(l: Seq<char>, width: nat) -> bool {
    &&& 0 < l.len() <= width
    &&& forall|i: int| 0 <= i < l.len() ==> #[trigger] l[i] != '\n'
}

pub open spec fn lines_ok(ls: Seq<Seq<char>>, width: nat) -> bool {
    forall|k: int| 0 <= k < ls.len() ==> line_ok(#[trigger] ls[k], width)
}

proof fn lemma_ws_pieces_no_ws(s: Seq<char>)
    ensures
        forall|k: int, i: int|
            0 <= k < ws_pieces(s).len() && 0 <= i < ws_pieces(s)[k].len() ==> !is_ws(
                #[trigger] ws_pieces(s)[k][i],
            ),
    decreases s.len(),
{
    if s.len() > 0 {
        lemma_ws_pieces_no_ws(s.drop_last());
        lemma_ws_pieces_nonempty(s.drop_last());
        let p = ws_pieces(s.drop_last());
        if !is_ws(s.last()) {
            let q = p.update(p.len() - 1, p.last().push(s.last()));
            assert forall|k: int, i: int| 0 <= k < q.len() && 0 <= i < q[k].len() implies !is_ws(
                #[trigger] q[k][i],
            ) by {
                if k == p.len() - 1 {
                    if i < p.last().len() {
                        assert(q[k][i] == p[k][i]);
                    }
                } else {
                    assert(q[k] == p[k]);
                }
            }
        } else {
            let q = p.push(Seq::<char>::empty());
            assert forall|k: int, i: int| 0 <= k < q.len() && 0 <= i < q[k].len() implies !is_ws(
                #[trigger] q[k][i],
            ) by {
                assert(q[k] == p[k]);
            }
        }
    }
}

/// Every word is non-empty and holds no whitespace (so no line break).
proof fn lemma_words_shape(s: Seq<char>)
    ensures
        forall|k: int|
            0 <= k < words_of(s).len() ==> (#[trigger] words_of(s)[k]).len() > 0 && forall|i: int|
                0 <= i < words_of(s)[k].len() ==> words_of(s)[k][i] != '\n',
{
    broadcast use vstd::seq_lib::group_filter_ensures;

    let pred = |w: Seq<char>| w.len() > 0;
    lemma_ws_pieces_no_ws(s);
    assert forall|k: int| 0 <= k < words_of(s).len() implies (#[trigger] words_of(s)[k]).len() > 0
        && forall|i: int| 0 <= i < words_of(s)[k].len() ==> words_of(s)[k][i] != '\n' by {
        let w = words_of(s)[k];
        assert(pred(w));
        assert(ws_pieces(s).filter(pred).contains(w));
        ws_pieces(s).lemma_filter_contains_rev(pred, w);
        let j = choose|j: int| 0 <= j < ws_pieces(s).len() && ws_pieces(s)[j] == w;
        assert forall|i: int| 0 <= i < w.len() implies w[i] != '\n' by {
            assert(!is_ws(ws_pieces(s)[j][i]));
        }
    }
}

proof fn lemma_chunks_ok(w: Seq<char>, width: nat)
    requires
        width > 0,
        forall|i: int| 0 <= i < w.len() ==> w[i] != '\n',
    ensures
        lines_ok(chunks(w, width), width),
    decreases w.len(),
{
    if w.len() > width {
        let rest = w.skip(width as int);
        assert forall|i: int| 0 <= i < rest.len() implies rest[i] != '\n' by {
            assert(rest[i] == w[i + width]);
        }
        lemma_chunks_ok(rest, width);
        let head = w.take(width as int);
        let cs = seq![head] + chunks(rest, width);
        assert forall|k: int| 0 <= k < cs.len() implies line_ok(#[trigger] cs[k], width) by {
            if k > 0 {
                assert(cs[k] == chunks(rest, width)[k - 1]);
            } else {
                assert(forall|i: int| 0 <= i < head.len() ==> head[i] == w[i]);
            }
        }
    }
}

proof fn lemma_place_words_ok(st: (Seq<Seq<char>>, Seq<char>), ws: Seq<Seq<char>>, width: nat)
    requires
        width > 0,
        lines_ok(st.0, width),
        st.1.len() == 0 || line_ok(st.1, width),
        forall|k: int|
            0 <= k < ws.len() ==> (#[trigger] ws[k]).len() > 0 && forall|i: int|
                0 <= i < ws[k].len() ==> ws[k][i] != '\n',
    ensures
        lines_ok(place_words(st, ws, width).0, width),
        place_words(st, ws, width).1.len() == 0 || line_ok(place_words(st, ws, width).1, width),
    decreases ws.len(),
{
    if ws.len() > 0 {
        lemma_place_words_ok(st, ws.drop_last(), width);
        let (done, cur) = place_words(st, ws.drop_last(), width);
        let w = ws.last();
        assert(w == ws[ws.len() - 1]);
        lemma_chunks_ok(w, width);
        let d2 = done.push(cur);
        if cur.len() > 0 && cur.len() + 1 + w.len() > width {
            assert forall|k: int| 0 <= k < d2.len() implies line_ok(#[trigger] d2[k], width) by {
                if k < done.len() {
                    assert(d2[k] == done[k]);
                }
            }
        }
        assert forall|k: int| 0 <= k < (done + chunks(w, width)).len() implies line_ok(
            #[trigger] (done + chunks(w, width))[k],
            width,
        ) by {
            if k >= done.len() {
                assert((done + chunks(w, width))[k] == chunks(w, width)[k - done.len()]);
            }
        }
        if cur.len() > 0 && cur.len() + 1 + w.len() > width {
            assert forall|k: int| 0 <= k < (d2 + chunks(w, width)).len() implies line_ok(
                #[trigger] (d2 + chunks(w, width))[k],
                width,
            ) by {
                if k >= d2.len() {
                    assert((d2 + chunks(w, width))[k] == chunks(w, width)[k - d2.len()]);
                } else if k < done.len() {
                    assert((d2 + chunks(w, width))[k] == done[k]);
                } else {
                    assert((d2 + chunks(w, width))[k] == cur);
                }
            }
        }
        if cur.len() > 0 && cur.len() + 1 + w.len() <= width {
            let j = cur.push(' ') + w;
            assert forall|i: int| 0 <= i < j.len() implies j[i] != '\n' by {
                if i < cur.len() {
                    assert(j[i] == cur[i]);
                } else if i > cur.len() {
                    assert(j[i] == w[i - cur.len() - 1]);
                }
            }
        }
    }
}

proof fn lemma_all_lines_ok(segs: Seq<Seq<char>>, width: nat)
    requires
        width > 0,
    ensures
        lines_ok(all_lines(segs, width), width),
    decreases segs.len(),
{
    if segs.len() > 0 {
        lemma_all_lines_ok(segs.drop_last(), width);
        let base = all_lines(segs.drop_last(), width);
        lemma_words_shape(segs.last());
        lemma_place_words_ok((base, Seq::empty()), words_of(segs.last()), width);
        let (d, c) = place_words((base, Seq::empty()), words_of(segs.last()), width);
        if c.len() > 0 {
            assert forall|k: int| 0 <= k < d.push(c).len() implies line_ok(#[trigger] d.push(c)[k], width) by {
                if k < d.len() {
                    assert(d.push(c)[k] == d[k]);
                }
            }
        }
    }
}

/// The wrapped lines fit: at most `max_lines` of them, none empty, none
/// wider than `width` columns, none holding a line break; nothing at all for
/// zero width or zero lines.
pub proof fn lemma_wrap_shape(text: Seq<char>, width: nat, max_lines: nat)
    ensures
        wrap_subtitle_spec(text, width, max_lines).len() <= max_lines,
        (width == 0 || max_lines == 0) ==> wrap_subtitle_spec(text, width, max_lines).len() == 0,
        lines_ok(wrap_subtitle_spec(text, width, max_lines), width),
{
    if width > 0 && max_lines > 0 {
        let l = all_lines(split_on(text, '\n'), width);
        lemma_all_lines_ok(split_on(text, '\n'), width);
        if l.len() > max_lines {
            let o = l.take(max_lines as int);
            let e = ellipsized(o[max_lines - 1], width);
            let last = o[max_lines - 1];
            assert(line_ok(l[max_lines - 1], width));
            assert forall|i: int| 0 <= i < e.len() implies e[i] != '\n' by {
                if i < e.len() - 1 {
                    assert(e[i] == last[i]);
                }
            }
            let r = o.update(max_lines - 1, e);
            assert forall|k: int| 0 <= k < r.len() implies line_ok(#[trigger] r[k], width) by {
                if k < max_lines - 1 {
                    assert(r[k] == l[k]);
                }
            }
        }
    }
}

/// Appends the `width`-column chunks of `word`, each as a line.
fn push_chunks(out: &mut Vec<Vec<char>>, word: &[char], width: usize)
    requires
        width > 0,
    ensures
        lviews(final(out)@) == lviews(old(out)@) + chunks(word@, width as nat),
{
    let n = word.len();
    let mut k: usize = 0;
    assert(word@.skip(0) == word@);
    while k < n
        invariant
            width > 0,
            n == word@.len(),
            k <= n,
            lviews(out@) + chunks(word@.skip(k as int), width as nat) == lviews(old(out)@) + chunks(
                word@,
                width as nat,
            ),
        decreases n - k,
    {
        let e = if n - k <= width {
            n
        } else {
            k + width
        };
        let chunk = sub_chars(word, k, e);
        let ghost rest = word@.skip(k as int);
        proof {
            if n - k <= width {
                assert(chunks(rest, width as nat) == seq![rest]);
                assert(chunk@ == rest);
                assert(word@.skip(e as int).len() == 0);
            } else {
                assert(chunk@ == rest.take(width as int));
                assert(rest.skip(width as int) == word@.skip(e as int));
            }
            let cs = chunks(rest, width as nat);
            assert(cs.len() > 0);
            assert(cs[0] == chunk@);
            assert(cs == seq![chunk@] + chunks(word@.skip(e as int), width as nat));
        }
        let ghost before = lviews(out@);
        out.push(chunk);
        proof {
            assert(lviews(out@) =~= before.push(chunk@));
            assert(before + chunks(rest, width as nat) =~= before.push(chunk@) + chunks(
                word@.skip(e as int),
                width as nat,
            ));
        }
        k = e;
    }
    assert(chunks(word@.skip(n as int), width as nat) == Seq::<Seq<char>>::empty());
    assert(lviews(out@) + Seq::<Seq<char>>::empty() =~= lviews(out@));
}

/// Greedy word-wrap a subtitle string to `width` columns, capped at
/// `max_lines`. Honors existing `\n` line breaks; a word wider than `width`
/// is split into `width`-column pieces. The last line is truncated with `…`
/// when content overflows `max_lines`.
pub fn wrap_subtitle(text: &str, width: usize, max_lines: usize) -> (r: Vec<String>)
    ensures
        string_views(r@) == wrap_subtitle_spec(text@, width as nat, max_lines as nat),
        r@.len() <= max_lines,
        forall|k: int|
            0 <= k < r@.len() ==> 0 < (#[trigger] r@[k])@.len() <= width && forall|i: int|
                0 <= i < r@[k]@.len() ==> r@[k]@[i] != '\n',
{
    proof {
        lemma_wrap_shape(text@, width as nat, max_lines as nat);
    }
    if width == 0 || max_lines == 0 {
        let r: Vec<String> = Vec::new();
        assert(string_views(r@) =~= Seq::<Seq<char>>::empty());
        return r;
    }
    let v = to_chars(text);
    let segs = split_chars(v.as_slice(), '\n');
    let ghost sv = split_on(v@, '\n');
    let mut lines: Vec<Vec<char>> = Vec::new();
    let mut si: usize = 0;
    while si < segs.len()
        invariant
            width > 0,
            si <= segs@.len() == sv.len(),
            forall|k: int| 0 <= k < sv.len() ==> #[trigger] segs@[k]@ == sv[k],
            lviews(lines@) == all_lines(sv.take(si as int), width as nat),
        decreases segs.len() - si,
    {
        proof {
            assert(sv.take(si + 1).drop_last() == sv.take(si as int));
            assert(sv.take(si + 1).last() == sv[si as int]);
        }
        let ws = words(segs[si].as_slice());
        let ghost wv = words_of(sv[si as int]);
        let ghost base = lviews(lines@);
        let mut cur: Vec<char> = Vec::new();
        let mut wi: usize = 0;
        while wi < ws.len()
            invariant
                width > 0,
                wi <= ws@.len() == wv.len(),
                forall|k: int| 0 <= k < wv.len() ==> #[trigger] ws@[k]@ == wv[k],
                (lviews(lines@), cur@) == place_words((base, Seq::empty()), wv.take(wi as int), width as nat),
            decreases ws.len() - wi,
        {
            proof {
                assert(wv.take(wi + 1).drop_last() == wv.take(wi as int));
                assert(wv.take(wi + 1).last() == wv[wi as int]);
            }
            let word = &ws[wi];
            if cur.len() > 0 && cur.len() < width && word.len() <= width - cur.len() - 1 {
                cur.push(' ');
                cur = concat_chars(cur.as_slice(), word.as_slice());
            } else {
                if cur.len() > 0 {
                    let ghost before = lviews(lines@);
                    let finished = cur;
                    lines.push(finished);
                    assert(lviews(lines@) =~= before.push(finished@));
                }
                if word.len() <= width {
                    cur = sub_chars(word.as_slice(), 0, word.len());
                    assert(word@.subrange(0, word@.len() as int) == word@);
                } else {
                    push_chunks(&mut lines, word.as_slice(), width);
                    cur = Vec::new();
                }
            }
            wi += 1;
        }
        assert(wv.take(wv.len() as int) == wv);
        if cur.len() > 0 {
            let ghost before = lviews(lines@);
            lines.push(cur);
            assert(lviews(lines@) =~= before.push(cur@));
        }
        si += 1;
    }
    assert(sv.take(sv.len() as int) == sv);
    let ghost l = lviews(lines@);
    if lines.len() > max_lines {
        lines.truncate(max_lines);
        let last_i = max_lines - 1;
        let keep = if lines[last_i].len() <= width - 1 {
            lines[last_i].len()
        } else {
            width - 1
        };
        let mut line = sub_chars(lines[last_i].as_slice(), 0, keep);
        line.push('…');
        let ghost before = lviews(lines@);
        assert(before =~= l.take(max_lines as int));
        lines.set(last_i, line);
        assert(lviews(lines@) =~= before.update(last_i as int, line@));
    }
    let ghost fin = lviews(lines@);
    assert(fin == wrap_subtitle_spec(text@, width as nat, max_lines as nat));
    let mut result: Vec<String> = Vec::new();
    let mut k: usize = 0;
    let n = lines.len();
    while k < n
        invariant
            n == lines@.len(),
            k <= n,
            fin == lviews(lines@),
            string_views(result@) == fin.take(k as int),
        decreases n - k,
    {
        let line = string_from_chars(lines[k].as_slice());
        let ghost before = result@;
        result.push(line);
        assert(fin[k as int] == lines@[k as int]@);
        assert(string_views(result@) =~= string_views(before).push(line@));
        assert(fin.take(k + 1) =~= fin.take(k as int).push(fin[k as int]));
        k += 1;
    }
    assert(fin.take(n as int) == fin);
    proof {
        assert forall|k: int| 0 <= k < result@.len() implies 0 < (#[trigger] result@[k])@.len() <= width
            && forall|i: int| 0 <= i < result@[k]@.len() ==> result@[k]@[i] != '\n' by {
            assert(result@[k]@ == fin[k]);
            assert(line_ok(fin[k], width as nat));
        }
    }
    result
}

// ---------------------------------------------------------------------------
// Badge rows
// ---------------------------------------------------------------------------

/// The state of the badge layout: finished rows, the row being filled and
/// its width.
pub ghost struct BadgeRows {
    pub rows: Seq<Seq<usize>>,
    pub current: Seq<usize>,
    pub width: int,
}

/// Badges `0..widths.len()` laid out left to right, two columns apart; a
/// badge that would overflow `max_width` starts a new row, with an empty row
/// between.
pub open spec fn badge_state(widths: Seq<usize>, max_width: nat) -> BadgeRows
    decreases widths.len(),
{
    if widths.len() == 0 {
        BadgeRows { rows: Seq::empty(), current: Seq::empty(), width: 0 }
    } else {
        let prev = badge_state(widths.drop_last(), max_width);
        let w = widths.last();
        let i = (widths.len() - 1) as usize;
        let needed = if prev.current.len() == 0 { w as int } else { prev.width + 2 + w };
        let broke = needed > max_width && prev.current.len() > 0;
        let rows = if broke { prev.rows.push(prev.current).push(Seq::empty()) } else { prev.rows };
        let cur0: Seq<usize> = if broke { Seq::empty() } else { prev.current };
        let w0: int = if broke { 0 } else { prev.width };
        let w1: int = if cur0.len() > 0 { w0 + 2 } else { w0 };
        BadgeRows { rows, current: cur0.push(i), width: w1 + w }
    }
}

/// The rows of badge indices (empty rows are the blank lines between).
pub open spec fn badge_rows(widths: Seq<usize>, max_width: nat) -> Seq<Seq<usize>> {
    let st = badge_state(widths, max_width);
    if st.current.len() > 0 {
        st.rows.push(st.current)
    } else {
        st.rows
    }
}

pub fn layout_badges(widths: &[usize], max_width: usize) -> (r: Vec<Vec<usize>>)
    ensures
        r@.len() == badge_rows(widths@, max_width as nat).len(),
        forall|k: int| 0 <= k < r@.len() ==> #[trigger] r@[k]@ == badge_rows(widths@, max_width as nat)[k],
{
    let mut rows: Vec<Vec<usize>> = Vec::new();
    let mut current: Vec<usize> = Vec::new();
    let mut width: u128 = 0;
    let mut i: usize = 0;
    while i < widths.len()
        invariant
            i <= widths@.len(),
            ({
                let st = badge_state(widths@.take(i as int), max_width as nat);
                &&& rows@.len() == st.rows.len()
                &&& (forall|k: int| 0 <= k < rows@.len() ==> #[trigger] rows@[k]@ == st.rows[k])
                &&& current@ == st.current
                &&& width == st.width
            }),
            width <= usize::MAX,
            current@.len() == 0 ==> width == 0,
        decreases widths.len() - i,
    {
        let ghost t = widths@.take(i + 1);
        assert(t.drop_last() == widths@.take(i as int));
        assert(t.last() == widths@[i as int]);
        let w = widths[i] as u128;
        let needed: u128 = if current.len() == 0 {
            w
        } else {
            width + 2 + w
        };
        if needed > max_width as u128 && current.len() > 0 {
            let done = current;
            rows.push(done);
            rows.push(Vec::new());
            current = Vec::new();
            width = 0;
        }
        if current.len() > 0 {
            width = width + 2;
        }
        width = width + w;
        current.push(i);
        i += 1;
    }
    assert(widths@.take(widths@.len() as int) == widths@);
    if current.len() > 0 {
        rows.push(current);
    }
    rows
}


// ---------------------------------------------------------------------------
// Volume meter
// ---------------------------------------------------------------------------

/// Cells of a `width`-cell volume meter lit at `volume` thousandths: the
/// volume clamped to 1500 (150 %) as a fraction of 1500, times the width,
/// rounded half up.
pub open spec fn volume_filled(volume: nat, width: nat) -> nat {
    let v: nat = if volume > 1500 { 1500 } else { volume };
    ((2 * v * width + 1500) / 3000) as nat
}

/// The meter: `[`, `width` cells of which the first `volume_filled` are `█`
/// and the rest `░`, then `]`; empty when `width` is 0.
pub open spec fn volume_bar_spec(volume: nat, width: nat) -> Seq<char> {
    if width == 0 {
        Seq::empty()
    } else {
        seq!['['] + Seq::new(
            width,
            |i: int| if i < volume_filled(volume, width) { '█' } else { '░' },
        ) + seq![']']
    }
}

/// The volume meter of the status overlay, for `volume` in thousandths.
pub fn volume_bar(volume: u32, width: usize) -> (r: String)
    ensures
        r@ == volume_bar_spec(volume as nat, width as nat),
{
    if width == 0 {
        return String::new();
    }
    let v: u128 = if volume > 1500 { 1500 } else { volume as u128 };
    assert(2 * v * (width as u128) <= 3000 * (width as u128)) by (nonlinear_arith)
        requires v <= 1500;
    let filled_wide: u128 = (2 * v * (width as u128) + 1500) / 3000;
    assert(filled_wide <= width) by (nonlinear_arith)
        requires filled_wide == (2 * v * (width as u128) + 1500) / 3000, v <= 1500;
    let filled = filled_wide as usize;
    let mut cells: Vec<char> = Vec::new();
    cells.push('[');
    let mut i: usize = 0;
    while i < width
        invariant
            i <= width,
            filled == volume_filled(volume as nat, width as nat),
            cells@ == seq!['['] + Seq::new(
                i as nat,
                |k: int| if k < volume_filled(volume as nat, width as nat) { '█' } else { '░' },
            ),
        decreases width - i,
    {
        let c = if i < filled { '█' } else { '░' };
        cells.push(c);
        i += 1;
        proof {
            assert(cells@ =~= seq!['['] + Seq::new(
                i as nat,
                |k: int| if k < volume_filled(volume as nat, width as nat) { '█' } else { '░' },
            ));
        }
    }
    cells.push(']');
    string_from_chars(&cells)
}


// ---------------------------------------------------------------------------
// Three-part status line
// ---------------------------------------------------------------------------

pub open spec fn sat_sub(a: int, b: int) -> int {
    if a >= b { a - b } else { 0 }
}

/// The spaces around the middle part of a three-part line `width` cells
/// wide, whose parts are `l0`, `l1` and `l2` characters long, so that the
/// middle part is centred: none when the parts do not fit (the line is then
/// drawn as it is).
pub open spec fn three_up_spec(l0: nat, l1: nat, l2: nat, width: nat) -> Option<(nat, nat)> {
    if l0 + l1 + l2 >= width {
        None
    } else {
        let center_start = sat_sub(width as int, l1 as int) / 2;
        let left = sat_sub(center_start, l0 as int);
        let right = sat_sub(width as int, l0 + left + l1 + l2);
        Some((left as nat, right as nat))
    }
}

pub fn three_up_padding(l0: usize, l1: usize, l2: usize, width: usize) -> (r: Option<(usize, usize)>)
    ensures
        match three_up_spec(l0 as nat, l1 as nat, l2 as nat, width as nat) {
            Some((a, b)) => r == Some((a as usize, b as usize)),
            None => r is None,
        },
{
    if (l0 as u128) + (l1 as u128) + (l2 as u128) >= width as u128 {
        return None;
    }
    let center_start = (width - l1) / 2;
    let left = if center_start >= l0 { center_start - l0 } else { 0 };
    let used: u128 = (l0 as u128) + (left as u128) + (l1 as u128) + (l2 as u128);
    let right: usize = if width as u128 >= used { (width as u128 - used) as usize } else { 0 };
    Some((left, right))
}

} // verus!
