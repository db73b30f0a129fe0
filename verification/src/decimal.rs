//! Decimal numbers in the settings text: reading a number (sign, digits,
//! point, exponent) as thousandths, and writing thousandths back as the
//! shortest decimal.
use vstd::prelude::*;

use crate::app::dec;
use crate::library::is_first_index;
use crate::text::{
    pow10, lemma_pow10_mul, lemma_pow10_big, lemma_digits_concat, lemma_digits_zeros,
    concat_chars, digit_val, all_digits, digits_value, find_char, is_digit, sub_chars, lower,
    lower_chars, chars_eq_str,
};

verus! {

/// `s` without one leading sign: whether it was `-`, and the rest.
pub open spec fn sign_split(s: Seq<char>) -> (bool, Seq<char>) {
    if s.len() > 0 && s[0] == '-' {
        (true, s.drop_first())
    } else if s.len() > 0 && s[0] == '+' {
        (false, s.drop_first())
    } else {
        (false, s)
    }
}

/// The whole and fractional digits of an unsigned decimal, split at the
/// first `.`.
pub open spec fn point_split(body: Seq<char>) -> (Seq<char>, Seq<char>) {
    if exists|d: int| is_first_index(body, '.', d) {
        let d = choose|d: int| is_first_index(body, '.', d);
        (body.take(d), body.skip(d + 1))
    } else {
        (body, Seq::empty())
    }
}

/// The first three fractional digits, padded with zeros.
pub open spec fn frac3(f: Seq<char>) -> Seq<char> {
    if f.len() >= 3 {
        f.take(3)
    } else {
        f + Seq::new((3 - f.len()) as nat, |i: int| '0')
    }
}

/// Whether `d` is the position of the first `e` or `E` in `s`.
pub open spec fn is_first_exp(s: Seq<char>, d: int) -> bool {
    &&& 0 <= d < s.len()
    &&& (s[d] == 'e' || s[d] == 'E')
    &&& forall|k: int| 0 <= k < d ==> s[k] != 'e' && s[k] != 'E'
}

/// The mantissa of a number, and the exponent text after the first `e` or
/// `E` when there is one.
pub open spec fn exp_split(body: Seq<char>) -> (Seq<char>, Option<Seq<char>>) {
    if exists|d: int| is_first_exp(body, d) {
        let d = choose|d: int| is_first_exp(body, d);
        (body.take(d), Some(body.skip(d + 1)))
    } else {
        (body, None)
    }
}

/// An exponent: an optional sign and at least one digit.
pub open spec fn exp_value(es: Seq<char>) -> Option<int> {
    let (neg, ds) = sign_split(es);
    if all_digits(ds) && ds.len() > 0 {
        Some(
            if neg {
                -(digits_value(ds) as int)
            } else {
                digits_value(ds) as int
            },
        )
    } else {
        None
    }
}

/// The whole number that the digits `ds` make with the decimal point after
/// the first `m` of them: `0` when `m <= 0`, zeros appended when `m` is past
/// the end, digits after the point dropped.
pub open spec fn shift_value(ds: Seq<char>, m: int) -> nat {
    if m <= 0 {
        0
    } else if m <= ds.len() {
        digits_value(ds.take(m))
    } else {
        digits_value(ds) * pow10((m - ds.len()) as nat)
    }
}

/// The exponent a number has: none counts as `0`.
pub open spec fn exp_of(ex: Option<Seq<char>>) -> Option<int> {
    match ex {
        None => Some(0int),
        Some(es) => exp_value(es),
    }
}

/// A decimal number as the settings read it: an optional sign, whole
/// digits, optionally a `.` and fractional digits (at least one digit in
/// all), and optionally an exponent (`e` or `E`, an optional sign, digits).
/// The result is the sign and the magnitude in thousandths (further digits
/// are dropped).
pub open spec fn fixed_value(s: Seq<char>) -> Option<(bool, nat)> {
    let (neg, body) = sign_split(s);
    let (mant, ex) = exp_split(body);
    let (w, f) = point_split(mant);
    match exp_of(ex) {
        Some(k) => if all_digits(w) && all_digits(f) && w.len() + f.len() > 0 {
            Some((neg, shift_value(w + f, w.len() + k + 3)))
        } else {
            None
        },
        None => None,
    }
}

/// The number words a float reading also takes, after an optional sign and
/// in any case: `inf` or `infinity` (`Some((neg, false))`) and `nan`
/// (`Some((neg, true))`).
pub open spec fn special_value(s: Seq<char>) -> Option<(bool, bool)> {
    let (neg, body) = sign_split(s);
    let l = lower(body);
    if l == "inf"@ || l == "infinity"@ {
        Some((neg, false))
    } else if l == "nan"@ {
        Some((neg, true))
    } else {
        None
    }
}

/// Reads the number words (see [`special_value`]).
pub fn special_number(v: &[char]) -> (r: Option<(bool, bool)>)
    ensures
        r == special_value(v@),
{
    let start: usize = if v.len() > 0 && (v[0] == '-' || v[0] == '+') {
        1
    } else {
        0
    };
    let neg = v.len() > 0 && v[0] == '-';
    let body = sub_chars(v, start, v.len());
    assert(sign_split(v@) == (neg, body@)) by {
        if start == 1 {
            assert(body@ == v@.drop_first());
        } else {
            assert(body@ == v@);
        }
    }
    let l = lower_chars(body.as_slice());
    if chars_eq_str(l.as_slice(), "inf") || chars_eq_str(l.as_slice(), "infinity") {
        Some((neg, false))
    } else if chars_eq_str(l.as_slice(), "nan") {
        Some((neg, true))
    } else {
        None
    }
}

/// The fractional digits of `f` thousandths (`0 < f < 1000`), without
/// trailing zeros.
pub open spec fn frac_text(f: nat) -> Seq<char> {
    if f % 100 == 0 {
        dec(f / 100)
    } else if f % 10 == 0 {
        seq![crate::app::digit_char(f / 100), crate::app::digit_char((f / 10) % 10)]
    } else {
        seq![
            crate::app::digit_char(f / 100),
            crate::app::digit_char((f / 10) % 10),
            crate::app::digit_char(f % 10),
        ]
    }
}

/// `v` thousandths as the shortest decimal: `0.65` for 650, `1` for 1000.
pub open spec fn fixed_text(v: nat) -> Seq<char> {
    if v % 1000 == 0 {
        dec(v / 1000)
    } else {
        dec(v / 1000) + seq!['.'] + frac_text(v % 1000)
    }
}

/// Without an exponent, the thousandths are the whole part times 1000 plus
/// the first three fractional digits.
proof fn lemma_shift_plain(w: Seq<char>, f: Seq<char>)
    ensures
        shift_value(w + f, (w.len() + 3) as int) == digits_value(w) * 1000 + digits_value(frac3(f)),
{
    let ds = w + f;
    reveal_with_fuel(pow10, 4);
    if f.len() >= 3 {
        assert(ds.take((w.len() + 3) as int) =~= w + f.take(3));
        lemma_digits_concat(w, f.take(3));
    } else {
        let k = (3 - f.len()) as nat;
        let z = Seq::new(k, |i: int| '0');
        lemma_digits_concat(w, f);
        lemma_digits_concat(f, z);
        lemma_digits_zeros(k);
        lemma_pow10_mul(f.len(), k);
        assert(f.len() + k == 3);
        let x = digits_value(w);
        let y = digits_value(f);
        assert((x * pow10(f.len()) + y) * pow10(k) == x * (pow10(f.len()) * pow10(k)) + y * pow10(k))
            by (nonlinear_arith);
    }
}

/// `min(min(x, cap) * 10, cap) == min(x * 10, cap)`.
proof fn lemma_sat_times10(x: nat, cap: nat)
    ensures
        (if (if x < cap { x } else { cap }) * 10 < cap {
            (if x < cap { x } else { cap }) * 10
        } else {
            cap
        }) == (if x * 10 < cap { x * 10 } else { cap }),
{
    if x >= cap {
        assert(cap * 10 >= cap);
        assert(x * 10 >= cap);
    }
}

proof fn lemma_sat_step(x: nat, d: nat, sat: nat)
    ensures
        (if x < sat { x } else { sat }) * 10 + d >= sat ==> x * 10 + d >= sat,
        (if x < sat { x } else { sat }) * 10 + d < sat ==> (if x < sat { x } else { sat }) == x,
{
    if x >= sat {
        assert(sat * 10 + d >= sat) by (nonlinear_arith);
    }
}

/// `min(digits_value(v[from..to]), sat)`, for digits only.
fn sat_digits(v: &[char], from: usize, to: usize, sat: u128) -> (r: u128)
    requires
        from <= to <= v.len(),
        all_digits(v@.subrange(from as int, to as int)),
        sat <= 0x2_0000_0000_0000_0000,
    ensures
        r == (if digits_value(v@.subrange(from as int, to as int)) < sat {
            digits_value(v@.subrange(from as int, to as int))
        } else {
            sat as nat
        }),
{
    let ghost s = v@.subrange(from as int, to as int);
    let mut acc: u128 = 0;
    let mut i = from;
    while i < to
        invariant
            from <= i <= to <= v.len(),
            s == v@.subrange(from as int, to as int),
            all_digits(s),
            sat <= 0x2_0000_0000_0000_0000,
            acc == (if digits_value(s.take(i - from)) < sat {
                digits_value(s.take(i - from))
            } else {
                sat as nat
            }),
        decreases to - i,
    {
        let ghost x = digits_value(s.take(i - from));
        assert(s.take(i - from + 1).drop_last() == s.take(i - from));
        assert(s[i - from] == v@[i as int]);
        assert(is_digit(s[i - from]));
        let d = (v[i] as u32 - '0' as u32) as u128;
        assert(digits_value(s.take(i - from + 1)) == x * 10 + d);
        proof {
            lemma_sat_step(x, d as nat, sat as nat);
        }
        let n = acc * 10 + d;
        acc = if n < sat {
            n
        } else {
            sat
        };
        i += 1;
    }
    assert(s.take(to - from) == s);
    acc
}

/// Whether `v[from..to]` is all decimal digits.
fn digits_only(v: &[char], from: usize, to: usize) -> (r: bool)
    requires
        from <= to <= v.len(),
    ensures
        r == all_digits(v@.subrange(from as int, to as int)),
{
    let ghost s = v@.subrange(from as int, to as int);
    let mut i = from;
    while i < to
        invariant
            from <= i <= to <= v.len(),
            s == v@.subrange(from as int, to as int),
            forall|k: int| 0 <= k < i - from ==> is_digit(#[trigger] s[k]),
        decreases to - i,
    {
        assert(s[i - from] == v@[i as int]);
        if !(v[i] >= '0' && v[i] <= '9') {
            assert(!is_digit(s[i - from]));
            return false;
        }
        i += 1;
    }
    true
}

/// Index of the first `e` or `E` in `v`, or its length.
fn find_exp(v: &[char]) -> (r: usize)
    ensures
        r <= v.len(),
        r < v.len() ==> is_first_exp(v@, r as int),
        r == v.len() ==> forall|k: int| 0 <= k < v.len() ==> v@[k] != 'e' && v@[k] != 'E',
{
    let mut i: usize = 0;
    while i < v.len()
        invariant
            i <= v.len(),
            forall|k: int| 0 <= k < i ==> v@[k] != 'e' && v@[k] != 'E',
        decreases v.len() - i,
    {
        if v[i] == 'e' || v[i] == 'E' {
            return i;
        }
        i += 1;
    }
    i
}

/// `min(shift_value(ds, m), cap)` for `0 < m`, computed without overflow.
fn shifted_capped(ds: &[char], m: u128, cap: u64) -> (r: u64)
    requires
        all_digits(ds@),
        0 < m,
    ensures
        r == (if shift_value(ds@, m as int) < cap {
            shift_value(ds@, m as int)
        } else {
            cap as nat
        }),
{
    let n = ds.len();
    if m <= n as u128 {
        let mu = m as usize;
        assert(ds@.subrange(0, mu as int) == ds@.take(mu as int));
        let z = sat_digits(ds, 0, mu, cap as u128);
        return z as u64;
    }
    assert(ds@.subrange(0, n as int) == ds@);
    let mut z = sat_digits(ds, 0, n, cap as u128);
    let extra: u128 = m - n as u128;
    let mut j: u128 = 0;
    let ghost x = digits_value(ds@);
    assert(pow10(0) == 1);
    assert(x * pow10(0) == x);
    while j < extra
        invariant
            j <= extra,
            z == (if x * pow10(j as nat) < cap {
                x * pow10(j as nat)
            } else {
                cap as nat
            }),
        decreases extra - j,
    {
        proof {
            lemma_sat_times10(x * pow10(j as nat), cap as nat);
            assert(x * pow10((j + 1) as nat) == (x * pow10(j as nat)) * 10) by (nonlinear_arith)
                requires
                    pow10((j + 1) as nat) == 10 * pow10(j as nat),
            ;
        }
        let t = z * 10;
        z = if t < cap as u128 {
            t
        } else {
            cap as u128
        };
        j += 1;
    }
    proof {
        assert(pow10(0) == 1);
    }
    z as u64
}

/// The digits of a mantissa (see [`point_split`]) with the count of whole
/// digits, when both parts are digits and there is at least one.
fn parse_mantissa(mant: &Vec<char>) -> (r: Option<(Vec<char>, usize)>)
    ensures
        ({
            let (w, f) = point_split(mant@);
            if all_digits(w) && all_digits(f) && w.len() + f.len() > 0 {
                r matches Some((ds, wl)) && ds@ == w + f && wl == w.len()
            } else {
                r is None
            }
        }),
{
    let (wb, fa) = match find_char(mant.as_slice(), '.') {
        Some(d) => {
            assert(d < mant.len());
            assert(is_first_index(mant@, '.', d as int));
            assert forall|e: int| is_first_index(mant@, '.', e) implies e == d by {
                if e < d {
                } else if e > d {
                }
            }
            (d, d + 1)
        },
        None => {
            assert(!exists|e: int| is_first_index(mant@, '.', e));
            (mant.len(), mant.len())
        },
    };
    let ghost w = mant@.subrange(0, wb as int);
    let ghost f = mant@.subrange(fa as int, mant@.len() as int);
    assert(point_split(mant@) == (w, f)) by {
        assert(mant@.take(wb as int) == mant@.subrange(0, wb as int));
        assert(mant@.skip(wb + 1) == mant@.subrange(wb + 1, mant@.len() as int));
        if wb == mant.len() {
            assert(mant@.subrange(0, wb as int) == mant@);
            assert(f =~= Seq::<char>::empty());
        }
    }
    if !digits_only(mant.as_slice(), 0, wb) || !digits_only(mant.as_slice(), fa, mant.len()) {
        return None;
    }
    if wb + (mant.len() - fa) == 0 {
        return None;
    }
    let wv = sub_chars(mant.as_slice(), 0, wb);
    let fv = sub_chars(mant.as_slice(), fa, mant.len());
    let ds = concat_chars(wv.as_slice(), fv.as_slice());
    Some((ds, wb))
}

/// An exponent text (see [`exp_value`]) as its sign and magnitude, the
/// magnitude capped at `bound`.
fn parse_exp(es: &[char], bound: u128) -> (r: Option<(bool, u128)>)
    requires
        bound <= 0x2_0000_0000_0000_0000,
    ensures
        match exp_value(es@) {
            None => r is None,
            Some(k) => r matches Some((neg, mag)) && mag <= bound && (mag < bound ==> k == (if neg {
                -(mag as int)
            } else {
                mag as int
            })) && (mag == bound ==> (if neg {
                k <= -(bound as int)
            } else {
                k >= bound
            })),
        },
{
    let start: usize = if es.len() > 0 && (es[0] == '-' || es[0] == '+') {
        1
    } else {
        0
    };
    let neg = es.len() > 0 && es[0] == '-';
    let ghost ds = es@.subrange(start as int, es@.len() as int);
    assert(sign_split(es@) == (neg, ds)) by {
        if start == 1 {
            assert(ds == es@.drop_first());
        } else {
            assert(ds == es@);
        }
    }
    if !digits_only(es, start, es.len()) || start == es.len() {
        return None;
    }
    let mag = sat_digits(es, start, es.len(), bound);
    Some((neg, mag))
}

proof fn lemma_fixed_value_parts(
    s: Seq<char>,
    neg: bool,
    body: Seq<char>,
    mant: Seq<char>,
    ex: Option<Seq<char>>,
    w: Seq<char>,
    f: Seq<char>,
)
    requires
        sign_split(s) == (neg, body),
        exp_split(body) == (mant, ex),
        point_split(mant) == (w, f),
    ensures
        fixed_value(s) == match exp_of(ex) {
            Some(k) => if all_digits(w) && all_digits(f) && w.len() + f.len() > 0 {
                Some((neg, shift_value(w + f, w.len() + k + 3)))
            } else {
                None
            },
            None => None,
        },
{
}

/// `min(shift_value(ds, wl + k + 3), cap)` for the exponent `k`, given as
/// its sign and its magnitude capped at `bound`.
fn capped_value(
    ds: &Vec<char>,
    wl: usize,
    eneg: bool,
    emag: u128,
    bound: u128,
    cap: u64,
    Ghost(k): Ghost<int>,
) -> (r: u64)
    requires
        all_digits(ds@),
        wl <= ds.len(),
        bound == ds.len() + 64,
        emag <= bound,
        emag < bound ==> k == (if eneg { -(emag as int) } else { emag as int }),
        emag == bound ==> (if eneg { k <= -(bound as int) } else { k >= bound }),
    ensures
        r == (if shift_value(ds@, wl + k + 3) < cap {
            shift_value(ds@, wl + k + 3)
        } else {
            cap as nat
        }),
{
    let n = ds.len();
    let ghost m = wl + k + 3;
    if emag == bound {
        if eneg {
            0
        } else {
            assert(ds@.subrange(0, n as int) == ds@);
            let z = sat_digits(ds.as_slice(), 0, n, cap as u128);
            proof {
                let dv = digits_value(ds@);
                let e = (m - n) as nat;
                lemma_pow10_big(e);
                if dv > 0 {
                    assert(dv * pow10(e) >= pow10(e)) by (nonlinear_arith)
                        requires
                            dv >= 1,
                    ;
                } else {
                    assert(dv * pow10(e) == 0) by (nonlinear_arith)
                        requires
                            dv == 0,
                    ;
                }
            }
            if z == 0 {
                0
            } else {
                cap
            }
        }
    } else {
        let mi: i128 = wl as i128 + if eneg {
            -(emag as i128)
        } else {
            emag as i128
        } + 3;
        assert(mi == m);
        if mi <= 0 {
            0
        } else {
            shifted_capped(ds.as_slice(), mi as u128, cap)
        }
    }
}

/// Reads a decimal (see [`fixed_value`]) as its sign and its magnitude in
/// thousandths, the magnitude capped at `cap`.
#[verifier::rlimit(40)]
pub fn parse_fixed(v: &[char], cap: u64) -> (r: Option<(bool, u64)>)
    ensures
        match fixed_value(v@) {
            Some((neg, x)) => r == Some(
                (
                    neg,
                    (if x < cap {
                        x
                    } else {
                        cap as nat
                    }) as u64,
                ),
            ),
            None => r is None,
        },
{
    let start: usize = if v.len() > 0 && (v[0] == '-' || v[0] == '+') {
        1
    } else {
        0
    };
    let neg = v.len() > 0 && v[0] == '-';
    let body = sub_chars(v, start, v.len());
    assert(sign_split(v@) == (neg, body@)) by {
        if start == 1 {
            assert(body@ == v@.drop_first());
        } else {
            assert(body@ == v@);
        }
    }
    let xe = find_exp(body.as_slice());
    let mant = sub_chars(body.as_slice(), 0, xe);
    let ghost ex: Option<Seq<char>> = if xe < body.len() {
        Some(body@.skip(xe + 1))
    } else {
        None
    };
    assert(exp_split(body@) == (mant@, ex)) by {
        if xe < body.len() {
            assert forall|e: int| is_first_exp(body@, e) implies e == xe by {
                if e < xe {
                } else if e > xe {
                }
            }
            assert(body@.take(xe as int) == mant@);
        } else {
            assert(!exists|e: int| is_first_exp(body@, e));
            assert(mant@ == body@);
        }
    }
    let ghost w = point_split(mant@).0;
    let ghost f = point_split(mant@).1;
    let (ds, wl) = match parse_mantissa(&mant) {
        Some(p) => p,
        None => {
            return None;
        },
    };
    let n = ds.len();
    let bound: u128 = n as u128 + 64;
    let (eneg, emag) = if xe < body.len() {
        let es = sub_chars(body.as_slice(), xe + 1, body.len());
        assert(es@ == body@.skip(xe + 1));
        match parse_exp(es.as_slice(), bound) {
            Some(p) => p,
            None => {
                return None;
            },
        }
    } else {
        (false, 0u128)
    };
    let ghost k: int = exp_of(ex)->0;
    proof {
        lemma_fixed_value_parts(v@, neg, body@, mant@, ex, w, f);
    }
    let x = capped_value(&ds, wl, eneg, emag, bound, cap, Ghost(k));
    Some((neg, x))
}

pub proof fn lemma_digit_char(d: nat)
    requires
        d < 10,
    ensures
        is_digit(crate::app::digit_char(d)),
        digit_val(crate::app::digit_char(d)) == d,
{
}

/// The decimal digits of `n` read back as `n`.
pub proof fn lemma_dec_digits(n: nat)
    ensures
        dec(n).len() > 0,
        all_digits(dec(n)),
        digits_value(dec(n)) == n,
    decreases n,
{
    if n < 10 {
        lemma_digit_char(n);
        assert(dec(n).drop_last() =~= Seq::<char>::empty());
        assert(digits_value(Seq::<char>::empty()) == 0);
        assert(dec(n).last() == crate::app::digit_char(n));
        assert(digits_value(dec(n)) == digits_value(dec(n).drop_last()) * 10 + digit_val(dec(n).last()));
    } else {
        lemma_dec_digits(n / 10);
        lemma_digit_char(n % 10);
        let p = dec(n / 10);
        assert(dec(n).drop_last() == p);
        assert(dec(n).last() == crate::app::digit_char(n % 10));
        assert(digits_value(dec(n)) == digits_value(p) * 10 + digit_val(dec(n).last()));
        assert(n == (n / 10) * 10 + n % 10);
        assert forall|i: int| 0 <= i < dec(n).len() implies is_digit(#[trigger] dec(n)[i]) by {
            if i < p.len() {
                assert(dec(n)[i] == p[i]);
            }
        }
    }
}

proof fn lemma_point_split_at(w: Seq<char>, f: Seq<char>)
    requires
        all_digits(w),
    ensures
        point_split(w + seq!['.'] + f) == (w, f),
{
    let s = w + seq!['.'] + f;
    assert(is_first_index(s, '.', w.len() as int)) by {
        assert forall|k: int| 0 <= k < w.len() implies s[k] != '.' by {
            assert(s[k] == w[k]);
            assert(is_digit(w[k]));
        }
    }
    assert forall|e: int| is_first_index(s, '.', e) implies e == w.len() by {
        if e < w.len() {
            assert(s[e] == w[e]);
            assert(is_digit(w[e]));
        }
    }
    assert(s.take(w.len() as int) =~= w);
    assert(s.skip(w.len() as int + 1) =~= f);
}

proof fn lemma_point_split_none(w: Seq<char>)
    requires
        all_digits(w),
    ensures
        point_split(w) == (w, Seq::<char>::empty()),
{
    assert forall|e: int| !is_first_index(w, '.', e) by {
        if 0 <= e < w.len() {
            assert(is_digit(w[e]));
        }
    }
}

/// Writing a non-negative amount of thousandths and reading it back gives
/// the same amount.
proof fn lemma_exp_split_none(s: Seq<char>)
    requires
        forall|k: int| 0 <= k < s.len() ==> #[trigger] s[k] != 'e' && s[k] != 'E',
    ensures
        exp_split(s) == (s, Option::<Seq<char>>::None),
{
    assert(!exists|d: int| is_first_exp(s, d));
}

/// The fractional digits written for `r` thousandths read back as `r`.
proof fn lemma_frac_text(r: nat)
    requires
        0 < r < 1000,
    ensures
        all_digits(frac_text(r)),
        frac_text(r).len() > 0,
        digits_value(frac3(frac_text(r))) == r,
{
    let f = frac_text(r);
    lemma_digit_char(r / 100);
    lemma_digit_char((r / 10) % 10);
    lemma_digit_char(r % 10);
    let t = frac3(f);
    reveal_with_fuel(digits_value, 4);
    if r % 100 == 0 {
        assert(r / 100 < 10);
        assert(f == seq![crate::app::digit_char(r / 100)]);
        assert(t =~= seq![crate::app::digit_char(r / 100), '0', '0']);
    } else if r % 10 == 0 {
        assert(t =~= f + seq!['0']);
    } else {
        assert(t =~= f);
    }
    assert(t.drop_last().drop_last().drop_last() =~= Seq::<char>::empty());
}

/// Writing a non-negative amount of thousandths and reading it back gives
/// the same amount.
pub proof fn lemma_fixed_round_trip(v: nat)
    ensures
        fixed_value(fixed_text(v)) == Some((false, v)),
{
    let q = v / 1000;
    let r = v % 1000;
    lemma_dec_digits(q);
    let w = dec(q);
    assert(is_digit(w[0]));
    if r == 0 {
        assert(fixed_text(v) == w);
        assert(sign_split(w) == (false, w));
        assert forall|k: int| 0 <= k < w.len() implies #[trigger] w[k] != 'e' && w[k] != 'E' by {
            assert(is_digit(w[k]));
        }
        lemma_exp_split_none(w);
        lemma_point_split_none(w);
        let e = Seq::<char>::empty();
        lemma_fixed_value_parts(w, false, w, w, None, w, e);
        lemma_shift_plain(w, e);
        assert(w + e == w);
        let z = frac3(e);
        assert(z =~= seq!['0', '0', '0']);
        reveal_with_fuel(digits_value, 4);
        assert(z.drop_last().drop_last().drop_last() =~= Seq::<char>::empty());
        assert(digits_value(z) == 0);
    } else {
        let f = frac_text(r);
        lemma_frac_text(r);
        let s = w + seq!['.'] + f;
        assert(fixed_text(v) == s);
        assert(s[0] == w[0]);
        assert(sign_split(s) == (false, s));
        assert forall|k: int| 0 <= k < s.len() implies #[trigger] s[k] != 'e' && s[k] != 'E' by {
            if k < w.len() {
                assert(s[k] == w[k] && is_digit(w[k]));
            } else if k > w.len() {
                assert(s[k] == f[k - w.len() - 1] && is_digit(f[k - w.len() - 1]));
            }
        }
        lemma_exp_split_none(s);
        lemma_point_split_at(w, f);
        lemma_fixed_value_parts(s, false, s, s, None, w, f);
        lemma_shift_plain(w, f);
    }
}

/// `v` thousandths as text (see [`fixed_text`]).
pub fn fixed_format(v: u64) -> (r: Vec<char>)
    ensures
        r@ == fixed_text(v as nat),
{
    let q = v / 1000;
    let r = v % 1000;
    let mut out = crate::app::decimal(q);
    if r == 0 {
        return out;
    }
    out.push('.');
    let a = ((r / 100) as u8 + 48) as char;
    let b = (((r / 10) % 10) as u8 + 48) as char;
    let c = ((r % 10) as u8 + 48) as char;
    out.push(a);
    if r % 100 == 0 {
        assert(out@ =~= fixed_text(v as nat));
        return out;
    }
    out.push(b);
    if r % 10 == 0 {
        assert(out@ =~= fixed_text(v as nat));
        return out;
    }
    out.push(c);
    assert(out@ =~= fixed_text(v as nat));
    out
}

} // verus!
