//! Subtitle data model and the pure parsers (SRT/VTT/ASS, language-name
//! mapping). Cue times are whole milliseconds.
use vstd::prelude::*;

use crate::text::{
    chars_eq_str, concat_chars, contains_chars, contains_sub, find_sub, find_ws, first_ws,
    has_prefix, is_first_occ, lemma_first_occ_unique, lemma_first_ws_bounds, lower, lower_chars,
    parse_uint_spec, parse_unsigned, split_chars, split_on, starts_with_str, string_from_chars,
    sub_chars, to_chars, trim, trim_bounds, trim_chars, trim_start,
};

verus! {

broadcast use vstd::string::group_string_axioms;

// ---------------------------------------------------------------------------
// Markup stripping
// ---------------------------------------------------------------------------

/// The visible text of `s` with simple `<...>` tags removed, scanning from
/// the state `in_tag`: `<` opens a tag, `>` closes an open tag, and every
/// other character outside a tag is kept (a stray `>` outside a tag too).
pub open spec fn clean_html_from(s: Seq<char>, in_tag: bool) -> Seq<char>
    decreases s.len(),
{
    if s.len() == 0 {
        Seq::empty()
    } else {
        let c = s[0];
        let rest = s.drop_first();
        if c == '<' {
            clean_html_from(rest, true)
        } else if c == '>' && in_tag {
            clean_html_from(rest, false)
        } else if !in_tag {
            seq![c] + clean_html_from(rest, false)
        } else {
            clean_html_from(rest, true)
        }
    }
}

pub open spec fn clean_html_spec(s: Seq<char>) -> Seq<char> {
    clean_html_from(s, false)
}

fn clean_html_chars(v: &[char]) -> (r: Vec<char>)
    ensures
        r@ == clean_html_spec(v@),
{
    let mut out: Vec<char> = Vec::new();
    let mut in_tag = false;
    let mut i: usize = 0;
    assert(v@.skip(0) == v@);
    while i < v.len()
        invariant
            i <= v.len(),
            out@ + clean_html_from(v@.skip(i as int), in_tag) == clean_html_spec(v@),
        decreases v.len() - i,
    {
        let c = v[i];
        assert(v@.skip(i as int).drop_first() == v@.skip(i + 1));
        assert(v@.skip(i as int)[0] == c);
        if c == '<' {
            in_tag = true;
        } else if c == '>' && in_tag {
            in_tag = false;
        } else if !in_tag {
            out.push(c);
            assert(out@ == out@.drop_last() + seq![c]);
        }
        i += 1;
    }
    assert(v@.skip(v.len() as int).len() == 0);
    assert(out@ + Seq::<char>::empty() == out@);
    out
}

/// Strip simple `<...>` HTML tags. Used for SRT/VTT and for text subtitle
/// payloads which may contain `<i>` etc.
pub fn clean_html(s: &str) -> (r: String)
    ensures
        r@ == clean_html_spec(s@),
{
    let v = to_chars(s);
    let out = clean_html_chars(v.as_slice());
    string_from_chars(out.as_slice())
}

/// The visible text of an ASS payload scanned from the state `in_brace`:
/// `{...}` override blocks are dropped, `\N`/`\n` become a newline, `\h` a
/// space, and any other backslash is kept.
pub open spec fn strip_ass_from(s: Seq<char>, in_brace: bool) -> Seq<char>
    decreases s.len(),
{
    if s.len() == 0 {
        Seq::empty()
    } else {
        let c = s[0];
        let rest = s.drop_first();
        if c == '{' {
            strip_ass_from(rest, true)
        } else if c == '}' && in_brace {
            strip_ass_from(rest, false)
        } else if in_brace {
            strip_ass_from(rest, true)
        } else if c == '\\' && rest.len() > 0 && (rest[0] == 'N' || rest[0] == 'n') {
            seq!['\n'] + strip_ass_from(rest.drop_first(), false)
        } else if c == '\\' && rest.len() > 0 && rest[0] == 'h' {
            seq![' '] + strip_ass_from(rest.drop_first(), false)
        } else {
            seq![c] + strip_ass_from(rest, false)
        }
    }
}

pub open spec fn strip_ass_overrides_spec(s: Seq<char>) -> Seq<char> {
    strip_ass_from(s, false)
}

/// Text with no override braces and no backslash escapes.
pub open spec fn ass_plain(a: Seq<char>) -> bool {
    forall|i: int| 0 <= i < a.len() ==> #[trigger] a[i] != '{' && a[i] != '}' && a[i] != '\\'
}

proof fn lemma_strip_plain_prefix(a: Seq<char>, b: Seq<char>)
    requires
        ass_plain(a),
    ensures
        strip_ass_from(a + b, false) == a + strip_ass_from(b, false),
    decreases a.len(),
{
    if a.len() == 0 {
        assert(a + b =~= b);
        assert(a + strip_ass_from(b, false) =~= strip_ass_from(b, false));
    } else {
        let t = a + b;
        assert(t[0] == a[0]);
        assert(t.drop_first() =~= a.drop_first() + b);
        assert(a[0] != '{' && a[0] != '}' && a[0] != '\\');
        assert forall|i: int| 0 <= i < a.drop_first().len() implies #[trigger] a.drop_first()[i]
            != '{' && a.drop_first()[i] != '}' && a.drop_first()[i] != '\\' by {
            assert(a.drop_first()[i] == a[i + 1]);
        }
        lemma_strip_plain_prefix(a.drop_first(), b);
        assert(seq![a[0]] + (a.drop_first() + strip_ass_from(b, false)) =~= a + strip_ass_from(
            b,
            false,
        ));
    }
}

proof fn lemma_strip_in_brace(x: Seq<char>, b: Seq<char>)
    requires
        crate::library::free_of(x, '}'),
    ensures
        strip_ass_from(x + seq!['}'] + b, true) == strip_ass_from(b, false),
    decreases x.len(),
{
    let t = x + seq!['}'] + b;
    if x.len() == 0 {
        assert(t[0] == '}');
        assert(t.drop_first() =~= b);
    } else {
        assert(t[0] == x[0]);
        assert(x[0] != '}');
        assert(t.drop_first() =~= x.drop_first() + seq!['}'] + b);
        assert forall|i: int| 0 <= i < x.drop_first().len() implies x.drop_first()[i] != '}' by {
            assert(x.drop_first()[i] == x[i + 1]);
        }
        lemma_strip_in_brace(x.drop_first(), b);
    }
}

/// Stripping ASS overrides from visible text: plain text (no braces, no
/// backslashes) is kept as it is; after it, both `\n` and `\N` become a
/// line break and `\h` a space; and a `{...}` override block is dropped
/// whole, whatever it holds.
pub proof fn lemma_strip_ass_escapes(a: Seq<char>, x: Seq<char>, b: Seq<char>)
    requires
        ass_plain(a),
        crate::library::free_of(x, '}'),
    ensures
        strip_ass_overrides_spec(a) == a,
        strip_ass_overrides_spec(a + seq!['\\', 'n'] + b) == a + seq!['\n'] + strip_ass_overrides_spec(b),
        strip_ass_overrides_spec(a + seq!['\\', 'N'] + b) == a + seq!['\n'] + strip_ass_overrides_spec(b),
        strip_ass_overrides_spec(a + seq!['\\', 'h'] + b) == a + seq![' '] + strip_ass_overrides_spec(b),
        strip_ass_overrides_spec(a + seq!['{'] + x + seq!['}'] + b) == a + strip_ass_overrides_spec(b),
{
    lemma_strip_plain_prefix(a, Seq::<char>::empty());
    assert(a + Seq::<char>::empty() =~= a);
    assert(strip_ass_from(Seq::<char>::empty(), false) =~= Seq::<char>::empty());
    let e = Seq::<char>::empty();
    assert(a + e == a);
    let cs = seq!['n', 'N', 'h'];
    assert forall|k: int| 0 <= k < 3 implies {
        let c = #[trigger] cs[k];
        let t = seq!['\\', c] + b;
        &&& strip_ass_from(a + t, false) == a + strip_ass_from(t, false)
        &&& t[0] == '\\'
        &&& t.drop_first()[0] == c
        &&& t.drop_first().drop_first() == b
    } by {
        let c = cs[k];
        let t = seq!['\\', c] + b;
        lemma_strip_plain_prefix(a, t);
        assert(t.drop_first().drop_first() =~= b);
    }
    assert(cs[0] == 'n' && cs[1] == 'N' && cs[2] == 'h');
    assert(a + seq!['\\', 'n'] + b =~= a + (seq!['\\', 'n'] + b));
    assert(a + seq!['\\', 'N'] + b =~= a + (seq!['\\', 'N'] + b));
    assert(a + seq!['\\', 'h'] + b =~= a + (seq!['\\', 'h'] + b));
    assert(a + seq!['\n'] + strip_ass_from(b, false) =~= a + (seq!['\n'] + strip_ass_from(b, false)));
    assert(a + seq![' '] + strip_ass_from(b, false) =~= a + (seq![' '] + strip_ass_from(b, false)));
    let u = seq!['{'] + x + seq!['}'] + b;
    assert(a + seq!['{'] + x + seq!['}'] + b =~= a + u);
    lemma_strip_plain_prefix(a, u);
    assert(u[0] == '{');
    assert(u.drop_first() =~= x + seq!['}'] + b);
    lemma_strip_in_brace(x, b);
}

fn strip_ass_chars(v: &[char]) -> (r: Vec<char>)
    ensures
        r@ == strip_ass_overrides_spec(v@),
{
    let mut out: Vec<char> = Vec::new();
    let mut in_brace = false;
    let mut i: usize = 0;
    assert(v@.skip(0) == v@);
    while i < v.len()
        invariant
            i <= v.len(),
            out@ + strip_ass_from(v@.skip(i as int), in_brace) == strip_ass_overrides_spec(v@),
        decreases v.len() - i,
    {
        let c = v[i];
        let ghost rest = v@.skip(i + 1);
        assert(v@.skip(i as int).drop_first() == rest);
        assert(v@.skip(i as int)[0] == c);
        if c == '{' {
            in_brace = true;
            i += 1;
        } else if c == '}' && in_brace {
            in_brace = false;
            i += 1;
        } else if in_brace {
            i += 1;
        } else if c == '\\' && i + 1 < v.len() && (v[i + 1] == 'N' || v[i + 1] == 'n') {
            assert(rest[0] == v@[i + 1]);
            assert(rest.drop_first() == v@.skip(i + 2));
            out.push('\n');
            assert(out@ == out@.drop_last() + seq!['\n']);
            i += 2;
        } else if c == '\\' && i + 1 < v.len() && v[i + 1] == 'h' {
            assert(rest[0] == v@[i + 1]);
            assert(rest.drop_first() == v@.skip(i + 2));
            out.push(' ');
            assert(out@ == out@.drop_last() + seq![' ']);
            i += 2;
        } else {
            if i + 1 < v.len() {
                assert(rest[0] == v@[i + 1]);
            }
            out.push(c);
            assert(out@ == out@.drop_last() + seq![c]);
            i += 1;
        }
    }
    assert(v@.skip(v.len() as int).len() == 0);
    assert(out@ + Seq::<char>::empty() == out@);
    out
}

/// Remove ASS override blocks and turn its escapes into plain text.
pub fn strip_ass_overrides(s: &str) -> (r: String)
    ensures
        r@ == strip_ass_overrides_spec(s@),
{
    let v = to_chars(s);
    let out = strip_ass_chars(v.as_slice());
    string_from_chars(out.as_slice())
}

/// Whether `i` is the position of the `n`-th comma (counting from 1) of `s`.
pub open spec fn is_nth_comma(s: Seq<char>, n: nat, i: int) -> bool {
    0 <= i < s.len() && s[i] == ',' && count_commas(s.take(i + 1)) == n
}

/// The number of commas in `s`.
pub open spec fn count_commas(s: Seq<char>) -> nat
    decreases s.len(),
{
    if s.len() == 0 {
        0
    } else {
        count_commas(s.drop_last()) + if s.last() == ',' {
            1nat
        } else {
            0nat
        }
    }
}

/// The text after the `n`-th comma of `s`, if `s` has that many commas
/// (and `n > 0`).
pub open spec fn nth_comma_tail_spec(s: Seq<char>, n: nat) -> Option<Seq<char>> {
    if n > 0 && exists|i: int| is_nth_comma(s, n, i) {
        let i = choose|i: int| is_nth_comma(s, n, i);
        Some(s.skip(i + 1))
    } else {
        None
    }
}

proof fn lemma_count_commas_mono(s: Seq<char>, i: int, j: int)
    requires
        0 <= i <= j <= s.len(),
    ensures
        count_commas(s.take(i)) <= count_commas(s.take(j)),
    decreases j - i,
{
    if i < j {
        lemma_count_commas_mono(s, i, j - 1);
        assert(s.take(j).drop_last() == s.take(j - 1));
    }
}

proof fn lemma_nth_comma_unique(s: Seq<char>, n: nat, i: int, j: int)
    requires
        n > 0,
        is_nth_comma(s, n, i),
        is_nth_comma(s, n, j),
    ensures
        i == j,
{
    if i < j {
        lemma_count_commas_mono(s, i + 1, j);
        assert(s.take(j + 1).drop_last() == s.take(j));
    } else if j < i {
        lemma_count_commas_mono(s, j + 1, i);
        assert(s.take(i + 1).drop_last() == s.take(i));
    }
}

fn nth_comma_tail_chars(v: &[char], n: usize) -> (r: Option<Vec<char>>)
    ensures
        match nth_comma_tail_spec(v@, n as nat) {
            Some(t) => r matches Some(x) && x@ == t,
            None => r is None,
        },
{
    if n == 0 {
        return None;
    }
    let mut count: usize = 0;
    let mut i: usize = 0;
    while i < v.len()
        invariant
            i <= v.len(),
            count == count_commas(v@.take(i as int)),
            count < n,
            forall|k: int| 0 <= k < i ==> !is_nth_comma(v@, n as nat, k),
        decreases v.len() - i,
    {
        proof {
            assert(v@.take(i + 1).drop_last() == v@.take(i as int));
        }
        if v[i] == ',' {
            count += 1;
            if count == n {
                assert(is_nth_comma(v@, n as nat, i as int));
                proof {
                    assert forall|j: int| is_nth_comma(v@, n as nat, j) implies j == i by {
                        lemma_nth_comma_unique(v@, n as nat, i as int, j);
                    }
                }
                return Some(sub_chars(v, i + 1, v.len()));
            }
        }
        i += 1;
    }
    proof {
        assert forall|k: int| !is_nth_comma(v@, n as nat, k) by {
            if 0 <= k < v@.len() {
            }
        }
    }
    None
}

/// The text after the `n`-th comma of `s`.
pub fn nth_comma_tail(s: &str, n: usize) -> (r: Option<String>)
    ensures
        match nth_comma_tail_spec(s@, n as nat) {
            Some(t) => r matches Some(x) && x@ == t,
            None => r is None,
        },
{
    let v = to_chars(s);
    match nth_comma_tail_chars(v.as_slice(), n) {
        Some(t) => Some(string_from_chars(t.as_slice())),
        None => None,
    }
}


/// `s` without leading `'\r'` characters.
pub open spec fn trim_start_cr(s: Seq<char>) -> Seq<char>
    decreases s.len(),
{
    if s.len() > 0 && s[0] == '\r' {
        trim_start_cr(s.drop_first())
    } else {
        s
    }
}

/// The visible text of one line of an ASS dialogue payload: the text after
/// the 9th comma of a `Dialogue:` line, or after the 8th comma of a bare
/// (packet-format) line, with overrides stripped. Blank lines and lines
/// without enough commas give nothing.
pub open spec fn ass_line_text(raw: Seq<char>) -> Option<Seq<char>> {
    let line = trim_start_cr(trim(raw));
    if line.len() == 0 {
        None
    } else {
        let payload = if has_prefix(line, "Dialogue:"@) {
            nth_comma_tail_spec(trim_start(line.skip(9)), 9)
        } else {
            nth_comma_tail_spec(line, 8)
        };
        match payload {
            Some(t) => Some(strip_ass_overrides_spec(t)),
            None => None,
        }
    }
}

/// The texts of the lines that carry one, in order.
pub open spec fn ass_texts(lines: Seq<Seq<char>>) -> Seq<Seq<char>>
    decreases lines.len(),
{
    if lines.len() == 0 {
        Seq::empty()
    } else {
        match ass_line_text(lines.last()) {
            Some(t) => ass_texts(lines.drop_last()).push(t),
            None => ass_texts(lines.drop_last()),
        }
    }
}

/// The pieces joined with `sep` between consecutive pieces.
pub open spec fn join(pieces: Seq<Seq<char>>, sep: Seq<char>) -> Seq<char>
    decreases pieces.len(),
{
    if pieces.len() == 0 {
        Seq::empty()
    } else if pieces.len() == 1 {
        pieces[0]
    } else {
        join(pieces.drop_last(), sep) + sep + pieces.last()
    }
}

/// The plain visible text of an ASS dialogue payload, one output line per
/// dialogue line.
pub open spec fn parse_ass_dialogue_spec(s: Seq<char>) -> Seq<char> {
    join(ass_texts(crate::text::split_on(trim(s), '\n')), seq!['\n'])
}

fn ass_line(raw: &[char]) -> (r: Option<Vec<char>>)
    ensures
        match ass_line_text(raw@) {
            Some(t) => r matches Some(x) && x@ == t,
            None => r is None,
        },
{
    let t = trim_chars(raw);
    let mut a: usize = 0;
    assert(t@.skip(0) == t@);
    while a < t.len() && t[a] == '\r'
        invariant
            a <= t.len(),
            trim_start_cr(t@) == trim_start_cr(t@.skip(a as int)),
        decreases t.len() - a,
    {
        assert(t@.skip(a as int).drop_first() == t@.skip(a + 1));
        a += 1;
    }
    let line = sub_chars(t.as_slice(), a, t.len());
    assert(line@ == t@.skip(a as int));
    assert(trim_start_cr(line@) == line@);
    if line.len() == 0 {
        return None;
    }
    let payload = if crate::text::starts_with_str(line.as_slice(), "Dialogue:") {
        proof {
            reveal_strlit("Dialogue:");
        }
        let rest = sub_chars(line.as_slice(), 9, line.len());
        let b = crate::text::skip_ws_forward(rest.as_slice(), 0, rest.len());
        assert(rest@.subrange(0, rest@.len() as int) == rest@);
        let rest2 = sub_chars(rest.as_slice(), b, rest.len());
        nth_comma_tail_chars(rest2.as_slice(), 9)
    } else {
        nth_comma_tail_chars(line.as_slice(), 8)
    };
    match payload {
        Some(text) => Some(strip_ass_chars(text.as_slice())),
        None => None,
    }
}

/// Parse an ASS dialogue payload (as emitted in subtitle rects) and return
/// the plain visible text. Handles both the packet format
/// `ReadOrder,Layer,Style,Name,MarginL,MarginR,MarginV,Effect,Text`
/// (8 commas before the text) and the older "Dialogue: ..." line format.
pub fn parse_ass_dialogue(s: &str) -> (r: String)
    ensures
        r@ == parse_ass_dialogue_spec(s@),
{
    let v = to_chars(s);
    let t = trim_chars(v.as_slice());
    let pieces = crate::text::split_chars(t.as_slice(), '\n');
    let ghost ps = crate::text::split_on(t@, '\n');
    let mut out: Vec<char> = Vec::new();
    let mut count: usize = 0;
    let mut i: usize = 0;
    while i < pieces.len()
        invariant
            i <= pieces@.len() == ps.len(),
            forall|k: int| 0 <= k < ps.len() ==> #[trigger] pieces@[k]@ == ps[k],
            count == ass_texts(ps.take(i as int)).len(),
            count <= i,
            out@ == join(ass_texts(ps.take(i as int)), seq!['\n']),
        decreases pieces.len() - i,
    {
        proof {
            assert(ps.take(i + 1).drop_last() == ps.take(i as int));
            assert(ps.take(i + 1).last() == ps[i as int]);
        }
        match ass_line(pieces[i].as_slice()) {
            Some(text) => {
                let ghost prev = ass_texts(ps.take(i as int));
                if count > 0 {
                    out.push('\n');
                }
                out = concat_chars(out.as_slice(), text.as_slice());
                proof {
                    let now = prev.push(text@);
                    assert(now.drop_last() == prev);
                    if count == 0 {
                        assert(prev.len() == 0);
                        assert(join(prev, seq!['\n']) == Seq::<char>::empty());
                        assert(out@ =~= text@);
                    } else {
                        assert(out@ =~= join(prev, seq!['\n']) + seq!['\n'] + text@);
                    }
                }
                count += 1;
            },
            None => {},
        }
        i += 1;
    }
    assert(ps.take(ps.len() as int) == ps);
    string_from_chars(out.as_slice())
}

// ---------------------------------------------------------------------------
// Text decoding and language names
// ---------------------------------------------------------------------------

/// What `String::from_utf8_lossy` makes of some bytes.
pub uninterp spec fn utf8_lossy(bytes: Seq<u8>) -> Seq<char>;

/// Trusted: calls `String::from_utf8_lossy`. Its result is named
/// [`utf8_lossy`]; for valid UTF-8 std documents it as the decoded text
/// itself. How invalid sequences are replaced is left to the name.
#[verifier::external_body]
fn from_utf8_lossy(bytes: &[u8]) -> (r: String)
    ensures
        r@ == utf8_lossy(bytes@),
        vstd::utf8::valid_utf8(bytes@) ==> r@ == vstd::utf8::decode_utf8(bytes@),
{
    String::from_utf8_lossy(bytes).into_owned()
}

/// The UTF-8 byte-order mark.
pub open spec fn bom() -> Seq<u8> {
    seq![0xEFu8, 0xBBu8, 0xBFu8]
}

/// The bytes a subtitle file's text is decoded from: a leading UTF-8 BOM
/// is dropped.
pub open spec fn without_bom(bytes: Seq<u8>) -> Seq<u8> {
    if bytes.len() >= 3 && bytes.take(3) == bom() {
        bytes.skip(3)
    } else {
        bytes
    }
}

/// Decode subtitle bytes to text, stripping a UTF-8 BOM and tolerating
/// invalid sequences.
pub fn decode_text(bytes: &[u8]) -> (r: String)
    ensures
        r@ == utf8_lossy(without_bom(bytes@)),
        vstd::utf8::valid_utf8(without_bom(bytes@)) ==> r@ == vstd::utf8::decode_utf8(
            without_bom(bytes@),
        ),
{
    let start: usize = if bytes.len() >= 3 && bytes[0] == 0xEF && bytes[1] == 0xBB && bytes[2]
        == 0xBF {
        assert(bytes@.take(3) =~= bom());
        3
    } else {
        proof {
            if bytes@.len() >= 3 && bytes@.take(3) == bom() {
                assert(bytes@[0] == bytes@.take(3)[0]);
                assert(bytes@[1] == bytes@.take(3)[1]);
                assert(bytes@[2] == bytes@.take(3)[2]);
            }
        }
        0
    };
    let mut rest: Vec<u8> = Vec::new();
    let mut i = start;
    while i < bytes.len()
        invariant
            start <= i <= bytes.len(),
            rest@ == bytes@.subrange(start as int, i as int),
        decreases bytes.len() - i,
    {
        rest.push(bytes[i]);
        assert(bytes@.subrange(start as int, i + 1) == bytes@.subrange(start as int, i as int).push(
            bytes@[i as int],
        ));
        i += 1;
    }
    assert(rest@ == without_bom(bytes@));
    from_utf8_lossy(rest.as_slice())
}

/// The English name for an ISO 639-1/-2/-3 code (already trimmed and
/// lowercased), if the code is one the player knows.
pub open spec fn language_name(key: Seq<char>) -> Option<Seq<char>> {
    if key == "en"@ || key == "eng"@ {
        Some("English"@)
    } else if key == "de"@ || key == "ger"@ || key == "deu"@ {
        Some("German"@)
    } else if key == "fr"@ || key == "fre"@ || key == "fra"@ {
        Some("French"@)
    } else if key == "es"@ || key == "spa"@ {
        Some("Spanish"@)
    } else if key == "it"@ || key == "ita"@ {
        Some("Italian"@)
    } else if key == "pt"@ || key == "por"@ {
        Some("Portuguese"@)
    } else if key == "nl"@ || key == "dut"@ || key == "nld"@ {
        Some("Dutch"@)
    } else if key == "sv"@ || key == "swe"@ {
        Some("Swedish"@)
    } else if key == "no"@ || key == "nor"@ {
        Some("Norwegian"@)
    } else if key == "da"@ || key == "dan"@ {
        Some("Danish"@)
    } else if key == "fi"@ || key == "fin"@ {
        Some("Finnish"@)
    } else if key == "is"@ || key == "ice"@ || key == "isl"@ {
        Some("Icelandic"@)
    } else if key == "pl"@ || key == "pol"@ {
        Some("Polish"@)
    } else if key == "cs"@ || key == "cze"@ || key == "ces"@ {
        Some("Czech"@)
    } else if key == "sk"@ || key == "slo"@ || key == "slk"@ {
        Some("Slovak"@)
    } else if key == "hu"@ || key == "hun"@ {
        Some("Hungarian"@)
    } else if key == "ro"@ || key == "rum"@ || key == "ron"@ {
        Some("Romanian"@)
    } else if key == "ru"@ || key == "rus"@ {
        Some("Russian"@)
    } else if key == "uk"@ || key == "ukr"@ {
        Some("Ukrainian"@)
    } else if key == "bg"@ || key == "bul"@ {
        Some("Bulgarian"@)
    } else if key == "sr"@ || key == "srp"@ {
        Some("Serbian"@)
    } else if key == "hr"@ || key == "hrv"@ {
        Some("Croatian"@)
    } else if key == "sl"@ || key == "slv"@ {
        Some("Slovenian"@)
    } else if key == "el"@ || key == "gre"@ || key == "ell"@ {
        Some("Greek"@)
    } else if key == "tr"@ || key == "tur"@ {
        Some("Turkish"@)
    } else if key == "he"@ || key == "heb"@ {
        Some("Hebrew"@)
    } else if key == "ar"@ || key == "ara"@ {
        Some("Arabic"@)
    } else if key == "fa"@ || key == "per"@ || key == "fas"@ {
        Some("Persian"@)
    } else if key == "hi"@ || key == "hin"@ {
        Some("Hindi"@)
    } else if key == "bn"@ || key == "ben"@ {
        Some("Bengali"@)
    } else if key == "ur"@ || key == "urd"@ {
        Some("Urdu"@)
    } else if key == "ta"@ || key == "tam"@ {
        Some("Tamil"@)
    } else if key == "te"@ || key == "tel"@ {
        Some("Telugu"@)
    } else if key == "th"@ || key == "tha"@ {
        Some("Thai"@)
    } else if key == "vi"@ || key == "vie"@ {
        Some("Vietnamese"@)
    } else if key == "id"@ || key == "ind"@ {
        Some("Indonesian"@)
    } else if key == "ms"@ || key == "may"@ || key == "msa"@ {
        Some("Malay"@)
    } else if key == "fil"@ || key == "tgl"@ {
        Some("Filipino"@)
    } else if key == "zh"@ || key == "chi"@ || key == "zho"@ {
        Some("Chinese"@)
    } else if key == "ja"@ || key == "jpn"@ {
        Some("Japanese"@)
    } else if key == "ko"@ || key == "kor"@ {
        Some("Korean"@)
    } else if key == "lat"@ || key == "la"@ {
        Some("Latin"@)
    } else {
        None
    }
}

fn is_any(k: &[char], a: &str, b: &str, c: &str) -> (r: bool)
    ensures
        r == (k@ == a@ || k@ == b@ || k@ == c@),
{
    chars_eq_str(k, a) || chars_eq_str(k, b) || chars_eq_str(k, c)
}

fn lookup_language(k: &[char]) -> (r: Option<&'static str>)
    ensures
        match language_name(k@) {
            Some(n) => r matches Some(x) && x@ == n,
            None => r is None,
        },
{
    if is_any(k, "en", "eng", "eng") {
        Some("English")
    } else if is_any(k, "de", "ger", "deu") {
        Some("German")
    } else if is_any(k, "fr", "fre", "fra") {
        Some("French")
    } else if is_any(k, "es", "spa", "spa") {
        Some("Spanish")
    } else if is_any(k, "it", "ita", "ita") {
        Some("Italian")
    } else if is_any(k, "pt", "por", "por") {
        Some("Portuguese")
    } else if is_any(k, "nl", "dut", "nld") {
        Some("Dutch")
    } else if is_any(k, "sv", "swe", "swe") {
        Some("Swedish")
    } else if is_any(k, "no", "nor", "nor") {
        Some("Norwegian")
    } else if is_any(k, "da", "dan", "dan") {
        Some("Danish")
    } else if is_any(k, "fi", "fin", "fin") {
        Some("Finnish")
    } else if is_any(k, "is", "ice", "isl") {
        Some("Icelandic")
    } else if is_any(k, "pl", "pol", "pol") {
        Some("Polish")
    } else if is_any(k, "cs", "cze", "ces") {
        Some("Czech")
    } else if is_any(k, "sk", "slo", "slk") {
        Some("Slovak")
    } else if is_any(k, "hu", "hun", "hun") {
        Some("Hungarian")
    } else if is_any(k, "ro", "rum", "ron") {
        Some("Romanian")
    } else if is_any(k, "ru", "rus", "rus") {
        Some("Russian")
    } else if is_any(k, "uk", "ukr", "ukr") {
        Some("Ukrainian")
    } else if is_any(k, "bg", "bul", "bul") {
        Some("Bulgarian")
    } else if is_any(k, "sr", "srp", "srp") {
        Some("Serbian")
    } else if is_any(k, "hr", "hrv", "hrv") {
        Some("Croatian")
    } else if is_any(k, "sl", "slv", "slv") {
        Some("Slovenian")
    } else if is_any(k, "el", "gre", "ell") {
        Some("Greek")
    } else if is_any(k, "tr", "tur", "tur") {
        Some("Turkish")
    } else if is_any(k, "he", "heb", "heb") {
        Some("Hebrew")
    } else if is_any(k, "ar", "ara", "ara") {
        Some("Arabic")
    } else if is_any(k, "fa", "per", "fas") {
        Some("Persian")
    } else if is_any(k, "hi", "hin", "hin") {
        Some("Hindi")
    } else if is_any(k, "bn", "ben", "ben") {
        Some("Bengali")
    } else if is_any(k, "ur", "urd", "urd") {
        Some("Urdu")
    } else if is_any(k, "ta", "tam", "tam") {
        Some("Tamil")
    } else if is_any(k, "te", "tel", "tel") {
        Some("Telugu")
    } else if is_any(k, "th", "tha", "tha") {
        Some("Thai")
    } else if is_any(k, "vi", "vie", "vie") {
        Some("Vietnamese")
    } else if is_any(k, "id", "ind", "ind") {
        Some("Indonesian")
    } else if is_any(k, "ms", "may", "msa") {
        Some("Malay")
    } else if is_any(k, "fil", "tgl", "tgl") {
        Some("Filipino")
    } else if is_any(k, "zh", "chi", "zho") {
        Some("Chinese")
    } else if is_any(k, "ja", "jpn", "jpn") {
        Some("Japanese")
    } else if is_any(k, "ko", "kor", "kor") {
        Some("Korean")
    } else if is_any(k, "lat", "la", "la") {
        Some("Latin")
    } else {
        None
    }
}

/// The display name of a language code: the English name of a known ISO
/// 639-1/-2/-3 code (matched after trimming, ignoring ASCII case), else the
/// code exactly as given.
pub open spec fn language_display_name_spec(code: Seq<char>) -> Seq<char> {
    match language_name(lower(trim(code))) {
        Some(n) => n,
        None => code,
    }
}

/// Map ISO 639-1 / 639-2 / 639-3 codes to English language names. Falls back
/// to returning the code as-is for codes not in the table.
pub fn language_display_name(code: &str) -> (r: String)
    ensures
        r@ == language_display_name_spec(code@),
{
    let v = to_chars(code);
    let t = trim_chars(v.as_slice());
    let key = lower_chars(t.as_slice());
    match lookup_language(key.as_slice()) {
        Some(name) => name.to_owned(),
        None => code.to_owned(),
    }
}


// ---------------------------------------------------------------------------
// Cues, timestamps and SRT/VTT
// ---------------------------------------------------------------------------

/// One timed caption. Times are in milliseconds from the start of the media.
#[derive(Debug, Clone)]
pub struct SubtitleCue {
    pub start_ms: u64,
    pub end_ms: u64,
    pub text: String,
}

/// The largest value one timestamp field may hold.
pub open spec fn field_max() -> nat {
    1_000_000_000
}

/// Whether `i` is the last `,` or `.` of `s`.
pub open spec fn is_last_frac_sep(s: Seq<char>, i: int) -> bool {
    0 <= i < s.len() && (s[i] == ',' || s[i] == '.') && forall|k: int|
        i < k < s.len() ==> s[k] != ',' && s[k] != '.'
}

/// A subtitle timestamp `[HH:]MM:SS[,mmm|.mmm]` in milliseconds. Each field
/// is an unsigned decimal number of at most [`field_max`]; the fraction is a
/// count of milliseconds, and a missing fraction counts as 0.
pub open spec fn parse_timestamp_spec(raw: Seq<char>) -> Option<nat> {
    let s = trim(raw);
    let has_sep = exists|i: int| is_last_frac_sep(s, i);
    let i = choose|i: int| is_last_frac_sep(s, i);
    let main = if has_sep {
        s.take(i)
    } else {
        s
    };
    let ms = if has_sep {
        parse_uint_spec(s.skip(i + 1), field_max())
    } else {
        Some(0nat)
    };
    let parts = split_on(main, ':');
    match ms {
        None => None,
        Some(ms) => if parts.len() == 3 {
            match (
                parse_uint_spec(parts[0], field_max()),
                parse_uint_spec(parts[1], field_max()),
                parse_uint_spec(parts[2], field_max()),
            ) {
                (Some(h), Some(m), Some(sec)) => Some(h * 3_600_000 + m * 60_000 + sec * 1000 + ms),
                _ => None,
            }
        } else if parts.len() == 2 {
            match (parse_uint_spec(parts[0], field_max()), parse_uint_spec(parts[1], field_max())) {
                (Some(m), Some(sec)) => Some(m * 60_000 + sec * 1000 + ms),
                _ => None,
            }
        } else {
            None
        },
    }
}

/// A timestamp field as written: one or more decimal digits, not above
/// [`field_max`].
pub open spec fn ts_field(x: Seq<char>) -> bool {
    x.len() > 0 && crate::text::all_digits(x) && crate::text::digits_value(x) <= field_max()
}

proof fn lemma_field_reads(x: Seq<char>)
    requires
        ts_field(x),
    ensures
        parse_uint_spec(x, field_max()) == Some(crate::text::digits_value(x)),
{
    assert(crate::text::is_digit(x[0]));
    assert(crate::text::unsigned_digits(x) == x);
}

/// Splitting `a`, a separator, then a piece free of separators.
proof fn lemma_split_push_piece(a: Seq<char>, b: Seq<char>, sep: char)
    requires
        crate::library::free_of(b, sep),
    ensures
        split_on(a.push(sep) + b, sep) == split_on(a, sep).push(b),
{
    let x = a.push(sep);
    assert(x.drop_last() =~= a);
    assert(split_on(x, sep) == split_on(a, sep).push(Seq::<char>::empty()));
    crate::library::lemma_split_append_free(x, b, sep);
    crate::text::lemma_split_on_nonempty(x, sep);
    assert(Seq::<char>::empty() + b =~= b);
    assert(split_on(a, sep).push(Seq::<char>::empty()).update(
        split_on(a, sep).len() as int,
        b,
    ) =~= split_on(a, sep).push(b));
}

proof fn lemma_digits_free(x: Seq<char>, c: char)
    requires
        crate::text::all_digits(x),
        !crate::text::is_digit(c),
    ensures
        crate::library::free_of(x, c),
{
    assert forall|i: int| 0 <= i < x.len() implies x[i] != c by {
        assert(crate::text::is_digit(x[i]));
    }
}

/// The clock part `h:m:s` (or `m:s`) followed by a fraction separator and
/// the milliseconds `f`, read through the separator search and the split.
proof fn lemma_clock_text(main: Seq<char>, sep: char, f: Seq<char>)
    requires
        sep == ',' || sep == '.',
        main.len() > 0,
        crate::text::is_digit(main[0]),
        forall|k: int| 0 <= k < main.len() ==> crate::text::is_digit(#[trigger] main[k]) || main[k] == ':',
        ts_field(f),
    ensures
        ({
            let t = main.push(sep) + f;
            &&& trim(t) == t
            &&& is_last_frac_sep(t, main.len() as int)
            &&& t.take(main.len() as int) == main
            &&& t.skip((main.len() + 1) as int) == f
        }),
{
    let t = main.push(sep) + f;
    assert(t[0] == main[0]);
    assert(t.last() == f.last());
    assert(crate::text::is_digit(f[f.len() - 1]));
    assert(crate::text::trim_start(t) == t);
    assert(crate::text::trim_end(t) == t);
    assert forall|k: int| main.len() < k < t.len() implies t[k] != ',' && t[k] != '.' by {
        assert(t[k] == f[k - main.len() - 1]);
        assert(crate::text::is_digit(f[k - main.len() - 1]));
    }
    assert(t.take(main.len() as int) =~= main);
    assert(t.skip((main.len() + 1) as int) =~= f);
}

/// Reading a subtitle timestamp: `HH:MM:SS,mmm` (or with `.` before the
/// milliseconds) is `HH` hours, `MM` minutes, `SS` seconds and `mmm`
/// milliseconds, `MM:SS,mmm` is minutes, seconds and milliseconds, and a
/// missing fraction counts as no milliseconds; e.g. `01:00:00,000` is one
/// hour, 3 600 000 ms.
pub proof fn lemma_timestamp_fields(
    h: Seq<char>,
    m: Seq<char>,
    s: Seq<char>,
    f: Seq<char>,
    sep: char,
)
    requires
        ts_field(h),
        ts_field(m),
        ts_field(s),
        ts_field(f),
        sep == ',' || sep == '.',
    ensures
        parse_timestamp_spec(h.push(':') + m.push(':') + s.push(sep) + f) == Some(
            crate::text::digits_value(h) * 3_600_000 + crate::text::digits_value(m) * 60_000
                + crate::text::digits_value(s) * 1000 + crate::text::digits_value(f),
        ),
        parse_timestamp_spec(m.push(':') + s.push(sep) + f) == Some(
            crate::text::digits_value(m) * 60_000 + crate::text::digits_value(s) * 1000
                + crate::text::digits_value(f),
        ),
{
    lemma_field_reads(h);
    lemma_field_reads(m);
    lemma_field_reads(s);
    lemma_field_reads(f);
    lemma_digits_free(m, ':');
    lemma_digits_free(s, ':');
    lemma_digits_free(h, ':');
    // three fields
    let main3 = h.push(':') + m.push(':') + s;
    assert(h.push(':') + m.push(':') + s.push(sep) + f =~= main3.push(sep) + f);
    assert forall|k: int| 0 <= k < main3.len() implies crate::text::is_digit(#[trigger] main3[k])
        || main3[k] == ':' by {
        if k < h.len() {
            assert(main3[k] == h[k]);
        } else if k == h.len() {
        } else if k < h.len() + 1 + m.len() {
            assert(main3[k] == m[k - h.len() - 1]);
        } else if k == h.len() + 1 + m.len() {
        } else {
            assert(main3[k] == s[k - h.len() - 2 - m.len()]);
        }
    }
    assert(main3[0] == h[0]);
    lemma_clock_text(main3, sep, f);
    let t3 = main3.push(sep) + f;
    assert(exists|i: int| is_last_frac_sep(trim(t3), i));
    let i3 = choose|i: int| is_last_frac_sep(trim(t3), i);
    assert(i3 == main3.len()) by {
        if i3 < main3.len() {
            assert(t3[main3.len() as int] == sep);
        } else if i3 > main3.len() {
            assert(t3[i3] == f[i3 - main3.len() - 1]);
            assert(crate::text::is_digit(f[i3 - main3.len() - 1]));
        }
    }
    let hm = h.push(':') + m;
    assert(main3 =~= hm.push(':') + s);
    lemma_split_push_piece(hm, s, ':');
    lemma_split_push_piece(Seq::<char>::empty() + h, m, ':');
    assert(Seq::<char>::empty() + h =~= h);
    crate::library::lemma_split_append_free(Seq::<char>::empty(), h, ':');
    assert(split_on(Seq::<char>::empty(), ':') =~= seq![Seq::<char>::empty()]);
    assert(split_on(h, ':') =~= seq![h]);
    assert(split_on(main3, ':') =~= seq![h, m, s]);
    // two fields
    let main2 = m.push(':') + s;
    assert(m.push(':') + s.push(sep) + f =~= main2.push(sep) + f);
    assert forall|k: int| 0 <= k < main2.len() implies crate::text::is_digit(#[trigger] main2[k])
        || main2[k] == ':' by {
        if k < m.len() {
            assert(main2[k] == m[k]);
        } else if k > m.len() {
            assert(main2[k] == s[k - m.len() - 1]);
        }
    }
    assert(main2[0] == m[0]);
    lemma_clock_text(main2, sep, f);
    let t2 = main2.push(sep) + f;
    assert(exists|i: int| is_last_frac_sep(trim(t2), i));
    let i2 = choose|i: int| is_last_frac_sep(trim(t2), i);
    assert(i2 == main2.len()) by {
        if i2 < main2.len() {
            assert(t2[main2.len() as int] == sep);
        } else if i2 > main2.len() {
            assert(t2[i2] == f[i2 - main2.len() - 1]);
            assert(crate::text::is_digit(f[i2 - main2.len() - 1]));
        }
    }
    lemma_split_push_piece(m, s, ':');
    crate::library::lemma_split_append_free(Seq::<char>::empty(), m, ':');
    assert(Seq::<char>::empty() + m =~= m);
    assert(split_on(m, ':') =~= seq![m]);
    assert(split_on(main2, ':') =~= seq![m, s]);
}

/// Reads a timestamp (see [`parse_timestamp_spec`]).
pub fn parse_timestamp(raw: &[char]) -> (r: Option<u64>)
    ensures
        match parse_timestamp_spec(raw@) {
            Some(n) => r == Some(n as u64),
            None => r is None,
        },
{
    let s = trim_chars(raw);
    let mut k = s.len();
    while k > 0 && s[k - 1] != ',' && s[k - 1] != '.'
        invariant
            k <= s.len(),
            forall|m: int| k <= m < s.len() ==> s@[m] != ',' && s@[m] != '.',
        decreases k,
    {
        k -= 1;
    }
    let ghost has_sep = exists|i: int| is_last_frac_sep(s@, i);
    let ghost ci = choose|i: int| is_last_frac_sep(s@, i);
    let max: u64 = 1_000_000_000;
    let (main, ms) = if k > 0 {
        let i = k - 1;
        assert(is_last_frac_sep(s@, i as int));
        proof {
            assert(has_sep);
            let j = ci;
            assert(is_last_frac_sep(s@, j));
            if j < i {
                assert(s@[i as int] != ',' && s@[i as int] != '.');
            } else if j > i {
            }
            assert(j == i);
        }
        let frac = sub_chars(s.as_slice(), i + 1, s.len());
        assert(frac@ == s@.skip(i + 1));
        (sub_chars(s.as_slice(), 0, i), parse_unsigned(frac.as_slice(), max))
    } else {
        proof {
            assert(!has_sep) by {
                if has_sep {
                    let j = ci;
                    assert(is_last_frac_sep(s@, j));
                    assert(s@[j] != ',' && s@[j] != '.');
                }
            }
        }
        (sub_chars(s.as_slice(), 0, s.len()), Some(0u64))
    };
    assert(s@.subrange(0, s@.len() as int) == s@);
    let ms = match ms {
        Some(m) => m,
        None => {
            return None;
        },
    };
    let parts = split_chars(main.as_slice(), ':');
    if parts.len() == 3 {
        let h = parse_unsigned(parts[0].as_slice(), max);
        let m = parse_unsigned(parts[1].as_slice(), max);
        let sec = parse_unsigned(parts[2].as_slice(), max);
        match (h, m, sec) {
            (Some(h), Some(m), Some(sec)) => Some(h * 3_600_000 + m * 60_000 + sec * 1000 + ms),
            _ => None,
        }
    } else if parts.len() == 2 {
        let m = parse_unsigned(parts[0].as_slice(), max);
        let sec = parse_unsigned(parts[1].as_slice(), max);
        match (m, sec) {
            (Some(m), Some(sec)) => Some(m * 60_000 + sec * 1000 + ms),
            _ => None,
        }
    } else {
        None
    }
}

/// Line endings normalized to `'\n'`: a `"\r\n"` pair becomes `'\n'`, and
/// any other `'\r'` becomes `'\n'`.
pub open spec fn normalize_newlines(s: Seq<char>) -> Seq<char>
    decreases s.len(),
{
    if s.len() == 0 {
        Seq::empty()
    } else if s[0] == '\r' && s.len() > 1 && s[1] == '\n' {
        normalize_newlines(s.drop_first())
    } else if s[0] == '\r' {
        seq!['\n'] + normalize_newlines(s.drop_first())
    } else {
        seq![s[0]] + normalize_newlines(s.drop_first())
    }
}

fn normalize_chars(v: &[char]) -> (r: Vec<char>)
    ensures
        r@ == normalize_newlines(v@),
{
    let mut out: Vec<char> = Vec::new();
    let mut i: usize = 0;
    assert(v@.skip(0) == v@);
    while i < v.len()
        invariant
            i <= v.len(),
            out@ + normalize_newlines(v@.skip(i as int)) == normalize_newlines(v@),
        decreases v.len() - i,
    {
        let ghost rest = v@.skip(i as int);
        assert(rest.drop_first() == v@.skip(i + 1));
        assert(rest[0] == v@[i as int]);
        if i + 1 < v.len() {
            assert(rest[1] == v@[i + 1]);
        }
        if v[i] == '\r' && i + 1 < v.len() && v[i + 1] == '\n' {
        } else if v[i] == '\r' {
            out.push('\n');
            assert(out@ == out@.drop_last() + seq!['\n']);
        } else {
            out.push(v[i]);
            assert(out@ == out@.drop_last() + seq![v@[i as int]]);
        }
        i += 1;
    }
    assert(v@.skip(v.len() as int).len() == 0);
    assert(out@ + Seq::<char>::empty() == out@);
    out
}

/// Blank-line separated blocks: the finished blocks and the block still open.
pub open spec fn group_blocks(ls: Seq<Seq<char>>) -> (Seq<Seq<Seq<char>>>, Seq<Seq<char>>)
    decreases ls.len(),
{
    if ls.len() == 0 {
        (Seq::empty(), Seq::empty())
    } else {
        let (done, cur) = group_blocks(ls.drop_last());
        if ls.last().len() == 0 {
            if cur.len() > 0 {
                (done.push(cur), Seq::empty())
            } else {
                (done, Seq::empty())
            }
        } else {
            (done, cur.push(ls.last()))
        }
    }
}

/// The blocks of a subtitle file: runs of non-empty lines between blank lines.
pub open spec fn blocks_of(text: Seq<char>) -> Seq<Seq<Seq<char>>> {
    group_blocks(split_on(normalize_newlines(text), '\n').push(Seq::empty())).0
}

/// Whether a WebVTT block header marks a non-cue block.
pub open spec fn vtt_meta_header(h: Seq<char>) -> bool {
    has_prefix(h, "WEBVTT"@) || h == "NOTE"@ || has_prefix(h, "NOTE "@) || h == "STYLE"@ || h
        == "REGION"@
}

/// One cue block: an optional identifier line, a `start --> end` timing
/// line (the end is the first word after the arrow), then one or more text
/// lines joined with newlines, cleaned of tags and trimmed. WebVTT header,
/// note, style and region blocks, blocks without a timing line or text, and
/// unreadable times give nothing.
pub open spec fn parse_block_spec(block: Seq<Seq<char>>, is_vtt: bool) -> Option<(nat, nat, Seq<char>)> {
    let arrow = "-->"@;
    if block.len() == 0 || (is_vtt && vtt_meta_header(trim(block[0]))) {
        None
    } else {
        let i: int = if contains_sub(block[0], arrow) {
            0
        } else {
            1
        };
        if i >= block.len() || !contains_sub(block[i], arrow) {
            None
        } else {
            let tl = block[i];
            let a = choose|a: int| is_first_occ(tl, arrow, a);
            let start_s = tl.take(a);
            let rest = trim(tl.skip(a + 3));
            let end_s = rest.take(first_ws(rest));
            if rest.len() == 0 {
                None
            } else {
                match (parse_timestamp_spec(start_s), parse_timestamp_spec(end_s)) {
                    (Some(st), Some(en)) => if i + 1 >= block.len() {
                        None
                    } else {
                        let text = trim(clean_html_spec(join(block.skip(i + 1), seq!['\n'])));
                        if text.len() == 0 {
                            None
                        } else {
                            Some((st, en, text))
                        }
                    },
                    _ => None,
                }
            }
        }
    }
}

/// The cues of the blocks that parse, in order.
pub open spec fn cues_of(blocks: Seq<Seq<Seq<char>>>, is_vtt: bool) -> Seq<(nat, nat, Seq<char>)>
    decreases blocks.len(),
{
    if blocks.len() == 0 {
        Seq::empty()
    } else {
        match parse_block_spec(blocks.last(), is_vtt) {
            Some(c) => cues_of(blocks.drop_last(), is_vtt).push(c),
            None => cues_of(blocks.drop_last(), is_vtt),
        }
    }
}

/// The cues of an SRT (`is_vtt == false`) or WebVTT document.
pub open spec fn parse_cues_spec(text: Seq<char>, is_vtt: bool) -> Seq<(nat, nat, Seq<char>)> {
    cues_of(blocks_of(text), is_vtt)
}

/// The `(start, end, text)` view of cues.
pub open spec fn cue_views(v: Seq<SubtitleCue>) -> Seq<(nat, nat, Seq<char>)> {
    v.map_values(|c: SubtitleCue| (c.start_ms as nat, c.end_ms as nat, c.text@))
}

/// The character views of lines.
pub open spec fn line_views(v: Seq<Vec<char>>) -> Seq<Seq<char>> {
    v.map_values(|l: Vec<char>| l@)
}

fn join_lines(ls: &[Vec<char>], from: usize) -> (r: Vec<char>)
    requires
        from <= ls.len(),
    ensures
        r@ == join(line_views(ls@).skip(from as int), seq!['\n']),
{
    let ghost all = line_views(ls@).skip(from as int);
    let mut out: Vec<char> = Vec::new();
    let mut i = from;
    while i < ls.len()
        invariant
            from <= i <= ls.len(),
            all == line_views(ls@).skip(from as int),
            out@ == join(all.take(i - from), seq!['\n']),
        decreases ls.len() - i,
    {
        let ghost prev = all.take(i - from);
        proof {
            assert(all.take(i - from + 1) == prev.push(ls@[i as int]@));
            assert(prev.push(ls@[i as int]@).drop_last() == prev);
        }
        if i > from {
            out.push('\n');
        }
        out = concat_chars(out.as_slice(), ls[i].as_slice());
        proof {
            if i == from {
                assert(prev.len() == 0);
                assert(out@ =~= ls@[i as int]@);
            } else {
                assert(out@ =~= join(prev, seq!['\n']) + seq!['\n'] + ls@[i as int]@);
            }
        }
        i += 1;
    }
    assert(all.take(all.len() as int) == all);
    out
}

fn parse_block(block: &[Vec<char>], is_vtt: bool) -> (r: Option<SubtitleCue>)
    ensures
        match parse_block_spec(line_views(block@), is_vtt) {
            Some(c) => r matches Some(x) && x.start_ms == c.0 && x.end_ms == c.1 && x.text@ == c.2,
            None => r is None,
        },
{
    let ghost lv = line_views(block@);
    let arrow = to_chars("-->");
    proof {
        reveal_strlit("-->");
    }
    assert(arrow@.len() == 3);
    if block.len() == 0 {
        return None;
    }
    assert(lv[0] == block@[0]@);
    if is_vtt {
        let head = trim_chars(block[0].as_slice());
        if starts_with_str(head.as_slice(), "WEBVTT") || chars_eq_str(head.as_slice(), "NOTE")
            || starts_with_str(head.as_slice(), "NOTE ") || chars_eq_str(head.as_slice(), "STYLE")
            || chars_eq_str(head.as_slice(), "REGION") {
            return None;
        }
    }
    let mut i: usize = 0;
    if !contains_chars(block[0].as_slice(), arrow.as_slice()) {
        i = 1;
        if i >= block.len() {
            return None;
        }
    }
    assert(lv[i as int] == block@[i as int]@);
    let tl = &block[i];
    let a = match find_sub(tl.as_slice(), arrow.as_slice()) {
        Some(a) => a,
        None => {
            return None;
        },
    };
    proof {
        assert(contains_sub(tl@, arrow@));
        let b = choose|b: int| is_first_occ(tl@, arrow@, b);
        assert(is_first_occ(tl@, arrow@, b));
        lemma_first_occ_unique(tl@, arrow@, a as int, b);
    }
    assert(crate::text::occurs_at(tl@, arrow@, a as int));
    let tlen = tl.len();
    assert(a + 3 <= tlen);
    let start_s = sub_chars(tl.as_slice(), 0, a);
    assert(start_s@ == tl@.take(a as int));
    let (ra, rb) = trim_bounds(tl.as_slice(), a + 3, tlen);
    assert(tl@.subrange(a + 3, tl@.len() as int) == tl@.skip(a + 3));
    let rest = sub_chars(tl.as_slice(), ra, rb);
    if rest.len() == 0 {
        return None;
    }
    let w = find_ws(rest.as_slice());
    proof {
        lemma_first_ws_bounds(rest@);
    }
    let end_s = sub_chars(rest.as_slice(), 0, w);
    assert(end_s@ == rest@.take(w as int));
    let st = parse_timestamp(start_s.as_slice());
    let en = parse_timestamp(end_s.as_slice());
    match (st, en) {
        (Some(st), Some(en)) => {
            if i + 1 >= block.len() {
                return None;
            }
            let payload = join_lines(block, i + 1);
            let cleaned = clean_html_chars(payload.as_slice());
            let text = trim_chars(cleaned.as_slice());
            if text.len() == 0 {
                None
            } else {
                Some(SubtitleCue { start_ms: st, end_ms: en, text: string_from_chars(text.as_slice()) })
            }
        },
        _ => None,
    }
}

fn parse_srt_or_vtt(text: &str, is_vtt: bool) -> (r: Vec<SubtitleCue>)
    ensures
        cue_views(r@) == parse_cues_spec(text@, is_vtt),
{
    let v = to_chars(text);
    let normalized = normalize_chars(v.as_slice());
    let mut pieces = split_chars(normalized.as_slice(), '\n');
    pieces.push(Vec::new());
    let ghost ls = split_on(normalize_newlines(v@), '\n').push(Seq::<char>::empty());
    assert(line_views(pieces@) =~= ls);
    let mut out: Vec<SubtitleCue> = Vec::new();
    let mut block: Vec<Vec<char>> = Vec::new();
    let mut i: usize = 0;
    while i < pieces.len()
        invariant
            i <= pieces@.len() == ls.len(),
            line_views(pieces@) == ls,
            line_views(block@) == group_blocks(ls.take(i as int)).1,
            cue_views(out@) == cues_of(group_blocks(ls.take(i as int)).0, is_vtt),
        decreases pieces.len() - i,
    {
        proof {
            assert(ls.take(i + 1).drop_last() == ls.take(i as int));
            assert(ls.take(i + 1).last() == ls[i as int]);
            assert(ls[i as int] == pieces@[i as int]@);
        }
        if pieces[i].len() == 0 {
            if block.len() > 0 {
                let ghost done = group_blocks(ls.take(i as int)).0;
                let ghost bv = line_views(block@);
                match parse_block(block.as_slice(), is_vtt) {
                    Some(cue) => {
                        out.push(cue);
                        proof {
                            assert(done.push(bv).drop_last() == done);
                            assert(cue_views(out@) =~= cue_views(out@.drop_last()).push(
                                (cue.start_ms as nat, cue.end_ms as nat, cue.text@),
                            ));
                        }
                    },
                    None => {
                        assert(done.push(bv).drop_last() == done);
                    },
                }
                block = Vec::new();
                assert(line_views(block@) =~= Seq::<Seq<char>>::empty());
            }
        } else {
            let line = sub_chars(pieces[i].as_slice(), 0, pieces[i].len());
            proof {
                assert(pieces@[i as int]@.subrange(0, pieces@[i as int]@.len() as int)
                    == pieces@[i as int]@);
            }
            block.push(line);
            assert(line_views(block@) =~= line_views(block@.drop_last()).push(line@));
        }
        i += 1;
    }
    assert(ls.take(ls.len() as int) == ls);
    out
}

/// Parse SubRip (`.srt`) text into cues.
pub fn parse_srt(text: &str) -> (r: Vec<SubtitleCue>)
    ensures
        cue_views(r@) == parse_cues_spec(text@, false),
{
    parse_srt_or_vtt(text, false)
}

/// Parse WebVTT (`.vtt`) text into cues.
pub fn parse_vtt(text: &str) -> (r: Vec<SubtitleCue>)
    ensures
        cue_views(r@) == parse_cues_spec(text@, true),
{
    parse_srt_or_vtt(text, true)
}


// ---------------------------------------------------------------------------
// Tracks and the track set
// ---------------------------------------------------------------------------

/// One subtitle track: its label, its language tag (if known) and its cues.
#[derive(Debug, Clone)]
pub struct SubtitleTrack {
    pub label: String,
    pub language: Option<String>,
    pub cues: Vec<SubtitleCue>,
}

/// The subtitle tracks available for the current media, plus the flag that
/// tells a background loader to stop.
#[derive(Debug)]
pub struct SubtitleSet {
    tracks: Vec<SubtitleTrack>,
    cancelled: bool,
}

/// Whether a cue boundary sits at `b`: every cue before it starts at or
/// before `t`, as far as its neighbour shows, and the cue at it starts after
/// `t`.
pub open spec fn is_boundary(cues: Seq<SubtitleCue>, t: u64, b: int) -> bool {
    0 <= b <= cues.len() && (b == 0 || cues[b - 1].start_ms <= t) && (b == cues.len()
        || cues[b].start_ms > t)
}

/// Whether the cues are ordered by start time.
pub open spec fn cues_sorted(cues: Seq<SubtitleCue>) -> bool {
    forall|i: int, j: int| 0 <= i <= j < cues.len() ==> cues[i].start_ms <= cues[j].start_ms
}

/// Cues ordered by start time have exactly one boundary for any time.
pub proof fn lemma_boundary_unique(cues: Seq<SubtitleCue>, t: u64, a: int, b: int)
    requires
        cues_sorted(cues),
        is_boundary(cues, t, a),
        is_boundary(cues, t, b),
    ensures
        a == b,
{
    if a < b {
        assert(cues[a].start_ms > t);
        assert(cues[b - 1].start_ms <= t);
        assert(cues[a].start_ms <= cues[b - 1].start_ms);
    } else if b < a {
        assert(cues[b].start_ms > t);
        assert(cues[a - 1].start_ms <= t);
        assert(cues[b].start_ms <= cues[a - 1].start_ms);
    }
}

/// How a language hint can match a track: 0, its language tag equals the
/// hint; 1, its label equals the hint; 2, its label contains the hint (all
/// ignoring ASCII case).
pub open spec fn track_hit(t: SubtitleTrack, q: Seq<char>, how: int) -> bool {
    if how == 0 {
        match t.language {
            Some(l) => lower(l@) == q,
            None => false,
        }
    } else if how == 1 {
        lower(t.label@) == q
    } else {
        contains_sub(lower(t.label@), q)
    }
}

/// The first index whose track matches the hint in way `how`, if any.
pub open spec fn first_track(ts: Seq<SubtitleTrack>, q: Seq<char>, how: int) -> Option<int> {
    if exists|i: int| 0 <= i < ts.len() && track_hit(ts[i], q, how) {
        Some(
            choose|i: int|
                0 <= i < ts.len() && track_hit(ts[i], q, how) && forall|k: int|
                    0 <= k < i ==> !track_hit(ts[k], q, how),
        )
    } else {
        None
    }
}

/// The track a language hint selects: an exact (case-insensitive) language
/// tag first, then an exact label, then a label containing the hint. A blank
/// hint selects nothing.
pub open spec fn find_track_spec(ts: Seq<SubtitleTrack>, query: Seq<char>) -> Option<int> {
    let q = lower(trim(query));
    if q.len() == 0 {
        None
    } else if first_track(ts, q, 0) is Some {
        first_track(ts, q, 0)
    } else if first_track(ts, q, 1) is Some {
        first_track(ts, q, 1)
    } else {
        first_track(ts, q, 2)
    }
}

/// Whether some track matches the hint in way `how`.
pub open spec fn any_hit(ts: Seq<SubtitleTrack>, q: Seq<char>, how: int) -> bool {
    exists|i: int| 0 <= i < ts.len() && track_hit(ts[i], q, how)
}

/// `i` is the first track matching the hint in way `how`.
pub open spec fn first_hit_at(ts: Seq<SubtitleTrack>, q: Seq<char>, how: int, i: int) -> bool {
    &&& 0 <= i < ts.len()
    &&& track_hit(ts[i], q, how)
    &&& forall|k: int| 0 <= k < i ==> !track_hit(#[trigger] ts[k], q, how)
}

/// A language hint picks, with `q` the hint trimmed and lowercased: nothing
/// for a blank hint; else the first track whose language tag is `q`; else
/// the first whose label is `q`; else the first whose label contains `q`;
/// else nothing (tags and labels compared ignoring ASCII case).
pub proof fn lemma_find_track_tiers(ts: Seq<SubtitleTrack>, query: Seq<char>)
    ensures
        ({
            let q = lower(trim(query));
            let r = find_track_spec(ts, query);
            &&& q.len() == 0 ==> r is None
            &&& (q.len() > 0 && any_hit(ts, q, 0)) ==> (r matches Some(i) && first_hit_at(ts, q, 0, i))
            &&& (q.len() > 0 && !any_hit(ts, q, 0) && any_hit(ts, q, 1)) ==> (r matches Some(i)
                && first_hit_at(ts, q, 1, i))
            &&& (q.len() > 0 && !any_hit(ts, q, 0) && !any_hit(ts, q, 1) && any_hit(ts, q, 2)) ==> (
            r matches Some(i) && first_hit_at(ts, q, 2, i))
            &&& (q.len() > 0 && !any_hit(ts, q, 0) && !any_hit(ts, q, 1) && !any_hit(ts, q, 2))
                ==> r is None
        }),
{
    let q = lower(trim(query));
    assert forall|how: int| any_hit(ts, q, how) implies (first_track(ts, q, how) matches Some(i)
        && first_hit_at(ts, q, how, i)) by {
        let j = choose|j: int| 0 <= j < ts.len() && track_hit(ts[j], q, how);
        lemma_least_hit(ts, q, how, j);
    }
}

proof fn lemma_least_hit(ts: Seq<SubtitleTrack>, q: Seq<char>, how: int, j: int)
    requires
        0 <= j < ts.len(),
        track_hit(ts[j], q, how),
    ensures
        first_track(ts, q, how) matches Some(i) && first_hit_at(ts, q, how, i),
    decreases j,
{
    if exists|k: int| 0 <= k < j && track_hit(ts[k], q, how) {
        let k = choose|k: int| 0 <= k < j && track_hit(ts[k], q, how);
        lemma_least_hit(ts, q, how, k);
    } else {
        lemma_first_track(ts, q, how, j);
    }
}

proof fn lemma_first_track(ts: Seq<SubtitleTrack>, q: Seq<char>, how: int, i: int)
    requires
        0 <= i < ts.len(),
        track_hit(ts[i], q, how),
        forall|k: int| 0 <= k < i ==> !track_hit(#[trigger] ts[k], q, how),
    ensures
        first_track(ts, q, how) == Some(i),
{
    let j = choose|j: int|
        0 <= j < ts.len() && track_hit(ts[j], q, how) && forall|k: int|
            0 <= k < j ==> !track_hit(ts[k], q, how);
    assert(0 <= j < ts.len() && track_hit(ts[j], q, how) && forall|k: int|
        0 <= k < j ==> !track_hit(ts[k], q, how));
    if j < i {
    } else if i < j {
    }
}

proof fn lemma_first_track_none(ts: Seq<SubtitleTrack>, q: Seq<char>, how: int)
    requires
        forall|k: int| 0 <= k < ts.len() ==> !track_hit(#[trigger] ts[k], q, how),
    ensures
        first_track(ts, q, how) is None,
{
}

proof fn lemma_filter_prepend(x: SubtitleTrack, s: Seq<SubtitleTrack>)
    ensures
        (seq![x] + s).filter(|t: SubtitleTrack| t.cues@.len() > 0) == (if x.cues@.len() > 0 {
            seq![x]
        } else {
            Seq::<SubtitleTrack>::empty()
        }) + s.filter(|t: SubtitleTrack| t.cues@.len() > 0),
{
    Seq::filter_distributes_over_add(seq![x], s, |t: SubtitleTrack| t.cues@.len() > 0);
    reveal(Seq::filter);
    assert(seq![x].drop_last() =~= Seq::<SubtitleTrack>::empty());
    assert(seq![x].last() == x);
    assert(Seq::<SubtitleTrack>::empty().filter(|t: SubtitleTrack| t.cues@.len() > 0)
        =~= Seq::<SubtitleTrack>::empty());
    if x.cues@.len() > 0 {
        assert(Seq::<SubtitleTrack>::empty().push(x) =~= seq![x]);
    }
}

impl Default for SubtitleSet {
    fn default() -> (r: Self)
        ensures
            r.tracks_spec() == Seq::<SubtitleTrack>::empty(),
            !r.is_cancelled_spec(),
    {
        SubtitleSet { tracks: Vec::new(), cancelled: false }
    }
}

impl SubtitleSet {
    /// The tracks, in the order they were added.
    pub closed spec fn tracks_spec(&self) -> Seq<SubtitleTrack> {
        self.tracks@
    }

    pub closed spec fn is_cancelled_spec(&self) -> bool {
        self.cancelled
    }

    pub fn new() -> (r: Self)
        ensures
            r.tracks_spec() == Seq::<SubtitleTrack>::empty(),
            !r.is_cancelled_spec(),
    {
        SubtitleSet { tracks: Vec::new(), cancelled: false }
    }

    pub fn track_count(&self) -> (r: usize)
        ensures
            r == self.tracks_spec().len(),
    {
        self.tracks.len()
    }

    pub fn track_label(&self, idx: usize) -> (r: Option<String>)
        ensures
            idx < self.tracks_spec().len() ==> (r matches Some(l) && l@
                == self.tracks_spec()[idx as int].label@),
            idx >= self.tracks_spec().len() ==> r is None,
    {
        if idx < self.tracks.len() {
            Some(self.tracks[idx].label.clone())
        } else {
            None
        }
    }

    /// Append the tracks that have at least one cue, in order.
    pub fn extend(&mut self, tracks: Vec<SubtitleTrack>)
        ensures
            final(self).tracks_spec() == old(self).tracks_spec() + tracks@.filter(
                |t: SubtitleTrack| t.cues@.len() > 0,
            ),
            final(self).is_cancelled_spec() == old(self).is_cancelled_spec(),
    {
        let ghost base = self.tracks@;
        let mut tracks = tracks;
        let ghost all = tracks@;
        let mut taken: Vec<SubtitleTrack> = Vec::new();
        let n = tracks.len();
        let mut i: usize = 0;
        while i < n
            invariant
                n == all.len(),
                i <= n,
                tracks@ == all.take(n - i),
                taken@ == all.subrange(n - i, n as int).filter(|t: SubtitleTrack| t.cues@.len() > 0),
            decreases n - i,
        {
            let t = tracks.pop().unwrap();
            proof {
                assert(all.take(n - i).last() == all[n - 1 - i]);
                assert(all.take(n - i).drop_last() == all.take(n - 1 - i));
                assert(t == all[n - 1 - i]);
                assert(all.subrange(n - 1 - i, n as int) =~= seq![t] + all.subrange(
                    n - i,
                    n as int,
                ));
                lemma_filter_prepend(t, all.subrange(n - i, n as int));
            }
            let ghost before = taken@;
            if t.cues.len() > 0 {
                taken.insert(0, t);
                assert(taken@ =~= seq![t] + before);
            } else {
                assert(before =~= Seq::<SubtitleTrack>::empty() + before);
            }
            i += 1;
        }
        assert(all.subrange(0, n as int) == all);
        let mut j: usize = 0;
        let tn = taken.len();
        let ghost tk = taken@;
        while j < tn
            invariant
                tn == tk.len(),
                j <= tn,
                self.tracks@ == base + tk.take(j as int),
                taken@ == tk.skip(j as int),
                self.cancelled == old(self).cancelled,
            decreases tn - j,
        {
            let t = taken.remove(0);
            assert(t == tk[j as int]);
            self.tracks.push(t);
            assert(tk.take(j + 1) == tk.take(j as int).push(tk[j as int]));
            assert(tk.skip(j as int).remove(0) == tk.skip(j + 1));
            j += 1;
        }
        assert(tk.take(tn as int) == tk);
    }

    /// Locate a track by language hint, returning its index. Matches the
    /// requested string (case-insensitive) against the language tag first and
    /// the label second. Empty input returns None.
    pub fn find_track_by_language(&self, query: &str) -> (r: Option<usize>)
        ensures
            match find_track_spec(self.tracks_spec(), query@) {
                Some(i) => r == Some(i as usize),
                None => r is None,
            },
    {
        let qv = to_chars(query);
        let qt = trim_chars(qv.as_slice());
        let q = lower_chars(qt.as_slice());
        if q.len() == 0 {
            return None;
        }
        let mut how: usize = 0;
        while how < 3
            invariant
                how <= 3,
                q@ == lower(trim(query@)),
                q@.len() > 0,
                forall|h: int| 0 <= h < how ==> first_track(self.tracks@, q@, h) is None,
            decreases 3 - how,
        {
            let n = self.tracks.len();
            let mut i: usize = 0;
            while i < n
                invariant
                    n == self.tracks@.len(),
                    i <= n,
                    how < 3,
                    q@ == lower(trim(query@)),
                    q@.len() > 0,
                    forall|h: int| 0 <= h < how ==> first_track(self.tracks@, q@, h) is None,
                    forall|k: int| 0 <= k < i ==> !track_hit(#[trigger] self.tracks@[k], q@, how as int),
                decreases n - i,
            {
                let t = &self.tracks[i];
                let hit = if how == 0 {
                    match &t.language {
                        Some(l) => {
                            let lv = to_chars(l.as_str());
                            let ll = lower_chars(lv.as_slice());
                            crate::text::chars_eq(ll.as_slice(), q.as_slice())
                        },
                        None => false,
                    }
                } else {
                    let lv = to_chars(t.label.as_str());
                    let ll = lower_chars(lv.as_slice());
                    if how == 1 {
                        crate::text::chars_eq(ll.as_slice(), q.as_slice())
                    } else {
                        contains_chars(ll.as_slice(), q.as_slice())
                    }
                };
                if hit {
                    proof {
                        lemma_first_track(self.tracks@, q@, how as int, i as int);
                    }
                    return Some(i);
                }
                i += 1;
            }
            proof {
                lemma_first_track_none(self.tracks@, q@, how as int);
            }
            how += 1;
        }
        None
    }

    /// The text of the cue showing at `t_ms` on track `track_idx`: the last
    /// cue starting at or before `t_ms`, if it has not ended before `t_ms`.
    /// The cue is found by binary search over the start times; for cues in
    /// start order that is exactly the last cue started (see
    /// [`lemma_boundary_unique`]).
    pub fn cue_at(&self, track_idx: usize, t_ms: u64) -> (r: Option<String>)
        ensures
            track_idx >= self.tracks_spec().len() ==> r is None,
            track_idx < self.tracks_spec().len() ==> ({
                let cues = self.tracks_spec()[track_idx as int].cues@;
                exists|b: int|
                    is_boundary(cues, t_ms, b) && (if b > 0 && cues[b - 1].end_ms >= t_ms {
                        r matches Some(x) && x@ == cues[b - 1].text@
                    } else {
                        r is None
                    })
            }),
    {
        if track_idx >= self.tracks.len() {
            return None;
        }
        let cues = &self.tracks[track_idx].cues;
        let n = cues.len();
        let mut lo: usize = 0;
        let mut hi: usize = n;
        while lo < hi
            invariant
                n == cues@.len(),
                lo <= hi <= n,
                lo == 0 || cues@[lo - 1].start_ms <= t_ms,
                hi == n || cues@[hi as int].start_ms > t_ms,
            decreases hi - lo,
        {
            let mid = lo + (hi - lo) / 2;
            if cues[mid].start_ms <= t_ms {
                lo = mid + 1;
            } else {
                hi = mid;
            }
        }
        assert(is_boundary(cues@, t_ms, lo as int));
        if lo > 0 && cues[lo - 1].end_ms >= t_ms {
            Some(cues[lo - 1].text.clone())
        } else {
            None
        }
    }

    /// Signal any background loader to stop as soon as it can.
    pub fn cancel(&mut self)
        ensures
            final(self).is_cancelled_spec(),
            final(self).tracks_spec() == old(self).tracks_spec(),
    {
        self.cancelled = true;
    }

    pub fn is_cancelled(&self) -> (r: bool)
        ensures
            r == self.is_cancelled_spec(),
    {
        self.cancelled
    }
}

} // verus!
