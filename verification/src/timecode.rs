//! The `HH:MM:SS,mmm` subtitle timestamp format: parsing to milliseconds and
//! rendering back.

use vstd::prelude::*;
use crate::text::{
    all_digits, dec_spec, digit_val, digits_val, find_char_from, is_digit, lemma_digits_val_nonneg,
    lemma_find_char_from, lemma_find_char_hit, lemma_find_char_miss, chars_string, find_char,
    parse_digits_capped, push_dec, str_chars,
};

verus! {

/// Largest number of milliseconds a timestamp may denote.
pub open spec fn max_ts_ms() -> int {
    0x7fff_ffff_ffff_ffff
}

/// The four fields of a timing string: hours, minutes, seconds, milliseconds,
/// as the raw text between the delimiters. `None` when a `:`- or
/// `,`-delimited field is missing. Text after a third `:` or a second `,`
/// is ignored.
pub open spec fn ts_fields(s: Seq<char>) -> Option<(Seq<char>, Seq<char>, Seq<char>, Seq<char>)> {
    let i1 = find_char_from(s, ':', 0);
    if i1 == s.len() {
        None
    } else {
        let i2 = find_char_from(s, ':', i1 + 1);
        if i2 == s.len() {
            None
        } else {
            let i3 = find_char_from(s, ':', i2 + 1);
            let sm = s.subrange(i2 + 1, i3);
            let j = find_char_from(sm, ',', 0);
            if j == sm.len() {
                None
            } else {
                let k = find_char_from(sm, ',', j + 1);
                Some(
                    (
                        s.subrange(0, i1),
                        s.subrange(i1 + 1, i2),
                        sm.subrange(0, j),
                        sm.subrange(j + 1, k),
                    ),
                )
            }
        }
    }
}

/// Milliseconds denoted by the four field values.
pub open spec fn ts_value(h: int, m: int, sec: int, mil: int) -> int {
    (h * 3600 + m * 60 + sec) * 1000 + mil
}

pub open spec fn digit_field(f: Seq<char>) -> bool {
    f.len() > 0 && all_digits(f)
}

/// What parsing a timing string yields: `Some` exactly when all four fields
/// are nonempty digit strings and the denoted value fits `max_ts_ms()`.
pub open spec fn parse_ts(s: Seq<char>) -> Option<int> {
    match ts_fields(s) {
        None => None,
        Some((h, m, sec, mil)) => {
            if digit_field(h) && digit_field(m) && digit_field(sec) && digit_field(mil) {
                let v = ts_value(digits_val(h), digits_val(m), digits_val(sec), digits_val(mil));
                if v <= max_ts_ms() {
                    Some(v)
                } else {
                    None
                }
            } else {
                None
            }
        },
    }
}

/// A number padded with leading zeros to at least two digits.
pub open spec fn pad2(n: int) -> Seq<char> {
    if n < 10 {
        seq!['0'] + dec_spec(n as nat)
    } else {
        dec_spec(n as nat)
    }
}

/// A number padded with leading zeros to at least three digits.
pub open spec fn pad3(n: int) -> Seq<char> {
    if n < 10 {
        seq!['0', '0'] + dec_spec(n as nat)
    } else if n < 100 {
        seq!['0'] + dec_spec(n as nat)
    } else {
        dec_spec(n as nat)
    }
}

/// What rendering a millisecond count yields: `HH:MM:SS,mmm` with each field
/// zero-padded to its width and hours growing beyond two digits as needed.
pub open spec fn render_ts(ms: int) -> Seq<char> {
    let h = ms / 3600000;
    let rem = ms % 3600000;
    let m = rem / 60000;
    let rem2 = rem % 60000;
    let sec = rem2 / 1000;
    let mil = rem2 % 1000;
    pad2(h) + seq![':'] + pad2(m) + seq![':'] + pad2(sec) + seq![','] + pad3(mil)
}

/// Parse a timing string, `HH:MM:SS,mmm` with any field widths, into
/// milliseconds. Errs exactly on the strings `parse_ts` rejects.
pub fn timestamp_to_ms(ts: &str) -> (r: Result<i64, String>)
    ensures
        match r {
            Ok(v) => parse_ts(ts@) == Some(v as int) && v >= 0,
            Err(e) => parse_ts(ts@) is None && e@ == "Invalid timestamp"@,
        },
{
    let err_msg = "Invalid timestamp";
    let s = str_chars(ts);
    let n = s.len();
    let i1 = find_char(&s, ':', 0);
    proof {
        lemma_find_char_from(s@, ':', 0);
    }
    if i1 == n {
        return Err(err_msg.to_owned());
    }
    let i2 = find_char(&s, ':', i1 + 1);
    proof {
        lemma_find_char_from(s@, ':', i1 + 1);
    }
    if i2 == n {
        return Err(err_msg.to_owned());
    }
    let i3 = find_char(&s, ':', i2 + 1);
    proof {
        lemma_find_char_from(s@, ':', i2 + 1);
    }
    let sm = crate::text::subrange_chars(&s, i2 + 1, i3);
    let j = find_char(&sm, ',', 0);
    proof {
        lemma_find_char_from(sm@, ',', 0);
    }
    if j == sm.len() {
        return Err(err_msg.to_owned());
    }
    let k = find_char(&sm, ',', j + 1);
    proof {
        lemma_find_char_from(sm@, ',', j + 1);
    }
    let cap: u64 = 0x7fff_ffff_ffff_ffff;
    let ghost fh = s@.subrange(0, i1 as int);
    let ghost fm = s@.subrange(i1 + 1, i2 as int);
    let ghost fsec = sm@.subrange(0, j as int);
    let ghost fmil = sm@.subrange(j + 1, k as int);
    proof {
        assert(ts_fields(s@) == Some((fh, fm, fsec, fmil)));
    }
    let h = parse_digits_capped(&s, 0, i1, cap);
    let m = parse_digits_capped(&s, i1 + 1, i2, cap);
    let sec = parse_digits_capped(&sm, 0, j, cap);
    let mil = parse_digits_capped(&sm, j + 1, k, cap);
    match (h, m, sec, mil) {
        (Some(h), Some(m), Some(sec), Some(mil)) => {
            let total: u128 = ((h as u128) * 3600 + (m as u128) * 60 + (sec as u128)) * 1000 + (
            mil as u128);
            assert(total == ts_value(h as int, m as int, sec as int, mil as int));
            if total <= cap as u128 {
                Ok(total as i64)
            } else {
                Err(err_msg.to_owned())
            }
        },
        _ => {
            proof {
                if digit_field(fh) && digit_field(fm) && digit_field(fsec) && digit_field(fmil) {
                    lemma_big_field_big_value(fh, fm, fsec, fmil, cap as int);
                }
            }
            Err(err_msg.to_owned())
        },
    }
}

/// If some field of a timing string is a digit string whose value exceeds the
/// cap, the denoted value exceeds the cap too.
proof fn lemma_big_field_big_value(fh: Seq<char>, fm: Seq<char>, fsec: Seq<char>, fmil: Seq<char>, cap: int)
    requires
        cap >= 0,
        digit_field(fh) && digit_field(fm) && digit_field(fsec) && digit_field(fmil),
        digits_val(fh) > cap || digits_val(fm) > cap || digits_val(fsec) > cap || digits_val(fmil)
            > cap,
    ensures
        ts_value(digits_val(fh), digits_val(fm), digits_val(fsec), digits_val(fmil)) > cap,
{
    let h = digits_val(fh);
    let m = digits_val(fm);
    let sec = digits_val(fsec);
    let mil = digits_val(fmil);
    lemma_digits_val_nonneg(fh);
    lemma_digits_val_nonneg(fm);
    lemma_digits_val_nonneg(fsec);
    lemma_digits_val_nonneg(fmil);
    assert(ts_value(h, m, sec, mil) > cap) by (nonlinear_arith)
        requires
            h >= 0 && m >= 0 && sec >= 0 && mil >= 0,
            cap >= 0,
            h > cap || m > cap || sec > cap || mil > cap,
    ;
}

proof fn lemma_dec_spec_one(n: nat)
    requires
        n < 10,
    ensures
        dec_spec(n) == seq![crate::text::dec_digit(n as int)],
{
}

proof fn lemma_dec_spec_two(a: int, b: int)
    requires
        1 <= a < 10,
        0 <= b < 10,
    ensures
        dec_spec((10 * a + b) as nat) == seq![
            crate::text::dec_digit(a),
            crate::text::dec_digit(b),
        ],
{
    let n = 10 * a + b;
    vstd::arithmetic::div_mod::lemma_fundamental_div_mod_converse(n, 10, a, b);
    lemma_dec_spec_one((n / 10) as nat);
    assert(dec_spec(n as nat) == dec_spec((n as nat) / 10).push(
        crate::text::dec_digit(((n as nat) % 10) as int),
    ));
    assert(dec_spec(n as nat) =~= seq![crate::text::dec_digit(a), crate::text::dec_digit(b)]);
}

/// `pad2` of the value of two digit characters is exactly those characters.
pub proof fn lemma_pad2_of_digits(a: char, b: char)
    requires
        is_digit(a),
        is_digit(b),
    ensures
        pad2(10 * digit_val(a) + digit_val(b)) == seq![a, b],
{
    let h = 10 * digit_val(a) + digit_val(b);
    crate::text::lemma_dec_digit_of_digit(a);
    crate::text::lemma_dec_digit_of_digit(b);
    if h < 10 {
        assert(digit_val(a) == 0);
        assert(a == '0');
        lemma_dec_spec_one(h as nat);
        assert(h == digit_val(b));
        assert(pad2(h) =~= seq![a, b]);
    } else {
        lemma_dec_spec_two(digit_val(a), digit_val(b));
        assert(pad2(h) =~= seq![a, b]);
    }
}

/// `pad3` of the value of three digit characters is exactly those characters.
pub proof fn lemma_pad3_of_digits(a: char, b: char, c: char)
    requires
        is_digit(a),
        is_digit(b),
        is_digit(c),
    ensures
        pad3(100 * digit_val(a) + 10 * digit_val(b) + digit_val(c)) == seq![a, b, c],
{
    let va = digit_val(a);
    let vb = digit_val(b);
    let vc = digit_val(c);
    let h = 100 * va + 10 * vb + vc;
    crate::text::lemma_dec_digit_of_digit(a);
    crate::text::lemma_dec_digit_of_digit(b);
    crate::text::lemma_dec_digit_of_digit(c);
    if h < 10 {
        assert(va == 0 && vb == 0);
        assert(a == '0' && b == '0');
        lemma_dec_spec_one(h as nat);
        assert(pad3(h) =~= seq![a, b, c]);
    } else if h < 100 {
        assert(va == 0);
        assert(a == '0');
        assert(vb >= 1);
        lemma_dec_spec_two(vb, vc);
        assert(pad3(h) =~= seq![a, b, c]);
    } else {
        assert(va >= 1);
        vstd::arithmetic::div_mod::lemma_fundamental_div_mod_converse(h, 10, 10 * va + vb, vc);
        lemma_dec_spec_two(va, vb);
        assert(dec_spec(h as nat) == dec_spec((h as nat) / 10).push(
            crate::text::dec_digit(((h as nat) % 10) as int),
        ));
        assert(pad3(h) =~= seq![a, b, c]);
    }
}

/// `pad2` yields at least two digit characters carrying the given value,
/// and exactly two below one hundred.
pub proof fn lemma_pad2_props(n: int)
    requires
        n >= 0,
    ensures
        all_digits(pad2(n)),
        pad2(n).len() >= 2,
        n < 100 ==> pad2(n).len() == 2,
        digits_val(pad2(n)) == n,
{
    crate::text::lemma_dec_spec_digits(n as nat);
    if n < 10 {
        crate::text::lemma_digits_val_leading_zero(dec_spec(n as nat));
        lemma_dec_spec_one(n as nat);
        assert(all_digits(pad2(n))) by {
            assert(forall|j: int| 0 <= j < pad2(n).len() ==> is_digit(#[trigger] pad2(n)[j]));
        }
    } else {
        assert(pad2(n) == dec_spec(n as nat));
        if n < 100 {
            let q = n / 10;
            let r = n % 10;
            vstd::arithmetic::div_mod::lemma_mod_pos_bound(n, 10);
            vstd::arithmetic::div_mod::lemma_fundamental_div_mod(n, 10);
            assert(1 <= q < 10);
            lemma_dec_spec_two(q, r);
            assert(n == 10 * q + r);
        } else {
            assert(dec_spec(n as nat).len() >= 2) by {
                crate::text::lemma_dec_spec_digits((n as nat) / 10);
                assert(dec_spec(n as nat) == dec_spec((n as nat) / 10).push(
                    crate::text::dec_digit(((n as nat) % 10) as int),
                ));
            }
        }
    }
}

/// `pad3` yields at least three digit characters carrying the given value,
/// and exactly three below one thousand.
pub proof fn lemma_pad3_props(n: int)
    requires
        n >= 0,
    ensures
        all_digits(pad3(n)),
        pad3(n).len() >= 3,
        n < 1000 ==> pad3(n).len() == 3,
        digits_val(pad3(n)) == n,
{
    crate::text::lemma_dec_spec_digits(n as nat);
    if n < 10 {
        lemma_dec_spec_one(n as nat);
        crate::text::lemma_digits_val_leading_zero(dec_spec(n as nat));
        crate::text::lemma_digits_val_leading_zero(seq!['0'] + dec_spec(n as nat));
        assert(seq!['0', '0'] + dec_spec(n as nat) =~= seq!['0'] + (seq!['0'] + dec_spec(
            n as nat,
        )));
        assert(all_digits(pad3(n))) by {
            assert(forall|j: int| 0 <= j < pad3(n).len() ==> is_digit(#[trigger] pad3(n)[j]));
        }
    } else if n < 100 {
        crate::text::lemma_digits_val_leading_zero(dec_spec(n as nat));
        let q = n / 10;
        let r = n % 10;
        vstd::arithmetic::div_mod::lemma_mod_pos_bound(n, 10);
        vstd::arithmetic::div_mod::lemma_fundamental_div_mod(n, 10);
        assert(1 <= q < 10);
        lemma_dec_spec_two(q, r);
        assert(n == 10 * q + r);
        assert(all_digits(pad3(n))) by {
            assert(forall|j: int| 0 <= j < pad3(n).len() ==> is_digit(#[trigger] pad3(n)[j]));
        }
    } else {
        assert(pad3(n) == dec_spec(n as nat));
        let q = n / 10;
        let r = n % 10;
        vstd::arithmetic::div_mod::lemma_mod_pos_bound(n, 10);
        vstd::arithmetic::div_mod::lemma_fundamental_div_mod(n, 10);
        crate::text::lemma_dec_spec_digits(q as nat);
        assert(dec_spec(n as nat) == dec_spec((n as nat) / 10).push(
            crate::text::dec_digit(((n as nat) % 10) as int),
        ));
        if n < 1000 {
            assert(10 <= q < 100);
            let q2 = q / 10;
            let r2 = q % 10;
            vstd::arithmetic::div_mod::lemma_mod_pos_bound(q, 10);
            vstd::arithmetic::div_mod::lemma_fundamental_div_mod(q, 10);
            assert(1 <= q2 < 10);
            lemma_dec_spec_two(q2, r2);
            assert(q == 10 * q2 + r2);
            assert(dec_spec(q as nat).len() == 2);
        } else {
            crate::text::lemma_dec_spec_digits((q as nat) / 10);
            assert(q >= 10);
            assert(dec_spec(q as nat) == dec_spec((q as nat) / 10).push(
                crate::text::dec_digit(((q as nat) % 10) as int),
            ));
            assert(dec_spec(q as nat).len() >= 2);
        }
    }
}

/// Render a millisecond count as `HH:MM:SS,mmm`.
pub fn ms_to_timestamp(ms: i64) -> (r: String)
    requires
        ms >= 0,
    ensures
        r@ == render_ts(ms as int),
{
    let total = ms as u64;
    let h = total / 3600000;
    let rem = total % 3600000;
    let m = rem / 60000;
    let rem2 = rem % 60000;
    let sec = rem2 / 1000;
    let mil = rem2 % 1000;
    let mut out: Vec<char> = Vec::new();
    if h < 10 {
        out.push('0');
    }
    push_dec(h, &mut out);
    out.push(':');
    if m < 10 {
        out.push('0');
    }
    push_dec(m, &mut out);
    out.push(':');
    if sec < 10 {
        out.push('0');
    }
    push_dec(sec, &mut out);
    out.push(',');
    if mil < 10 {
        out.push('0');
        out.push('0');
    } else if mil < 100 {
        out.push('0');
    }
    push_dec(mil, &mut out);
    assert(out@ =~= render_ts(ms as int));
    chars_string(&out)
}

/// A timing string of the exact `HH:MM:SS,mmm` shape: two digits, a colon,
/// two digits, a colon, two digits, a comma, three digits.
pub open spec fn exact_ts_format(s: Seq<char>) -> bool {
    &&& s.len() == 12
    &&& is_digit(s[0])
    &&& is_digit(s[1])
    &&& s[2] == ':'
    &&& is_digit(s[3])
    &&& is_digit(s[4])
    &&& s[5] == ':'
    &&& is_digit(s[6])
    &&& is_digit(s[7])
    &&& s[8] == ','
    &&& is_digit(s[9])
    &&& is_digit(s[10])
    &&& is_digit(s[11])
}

/// Parsing a timing string of the exact shape (with in-range minutes and
/// seconds) succeeds, and rendering the parsed value gives the string back.
pub proof fn lemma_ts_round_trip(s: Seq<char>)
    requires
        exact_ts_format(s),
        10 * digit_val(s[3]) + digit_val(s[4]) <= 59,
        10 * digit_val(s[6]) + digit_val(s[7]) <= 59,
    ensures
        parse_ts(s) matches Some(v) && render_ts(v) == s,
{
    assert(s[0] != ':' && s[1] != ':');
    lemma_find_char_hit(s, ':', 0, 2);
    assert(s[3] != ':' && s[4] != ':');
    lemma_find_char_hit(s, ':', 3, 5);
    assert(forall|j: int| 6 <= j < 12 ==> s[j] != ':');
    lemma_find_char_miss(s, ':', 6);
    let sm = s.subrange(6, 12);
    assert(sm[0] != ',' && sm[1] != ',' && sm[2] == ',');
    lemma_find_char_hit(sm, ',', 0, 2);
    assert(forall|j: int| 3 <= j < 6 ==> sm[j] != ',');
    lemma_find_char_miss(sm, ',', 3);
    let fh = s.subrange(0, 2);
    let fm = s.subrange(3, 5);
    let fsec = sm.subrange(0, 2);
    let fmil = sm.subrange(3, 6);
    assert(ts_fields(s) == Some((fh, fm, fsec, fmil)));
    assert(fh =~= seq![s[0], s[1]]);
    assert(fm =~= seq![s[3], s[4]]);
    assert(fsec =~= seq![s[6], s[7]]);
    assert(fmil =~= seq![s[9], s[10], s[11]]);
    crate::text::lemma_digits_val_pair(s[0], s[1]);
    crate::text::lemma_digits_val_pair(s[3], s[4]);
    crate::text::lemma_digits_val_pair(s[6], s[7]);
    crate::text::lemma_digits_val_triple(s[9], s[10], s[11]);
    let h = 10 * digit_val(s[0]) + digit_val(s[1]);
    let m = 10 * digit_val(s[3]) + digit_val(s[4]);
    let sec = 10 * digit_val(s[6]) + digit_val(s[7]);
    let mil = 100 * digit_val(s[9]) + 10 * digit_val(s[10]) + digit_val(s[11]);
    assert(digit_field(fh) && digit_field(fm) && digit_field(fsec) && digit_field(fmil));
    let v = ts_value(h, m, sec, mil);
    assert(h <= 99 && m <= 59 && sec <= 59 && mil <= 999);
    assert(v <= max_ts_ms());
    assert(parse_ts(s) == Some(v));
    assert(v == h * 3600000 + (m * 60000 + sec * 1000 + mil));
    vstd::arithmetic::div_mod::lemma_fundamental_div_mod_converse(
        v,
        3600000,
        h,
        m * 60000 + sec * 1000 + mil,
    );
    vstd::arithmetic::div_mod::lemma_fundamental_div_mod_converse(
        m * 60000 + sec * 1000 + mil,
        60000,
        m,
        sec * 1000 + mil,
    );
    vstd::arithmetic::div_mod::lemma_fundamental_div_mod_converse(
        sec * 1000 + mil,
        1000,
        sec,
        mil,
    );
    lemma_pad2_of_digits(s[0], s[1]);
    lemma_pad2_of_digits(s[3], s[4]);
    lemma_pad2_of_digits(s[6], s[7]);
    lemma_pad3_of_digits(s[9], s[10], s[11]);
    assert(render_ts(v) =~= s);
}

/// Every character of a rendered timestamp is a digit, a colon, or a comma,
/// and the first and last characters are digits.
pub open spec fn ts_chars_ok(s: Seq<char>) -> bool {
    &&& s.len() >= 12
    &&& forall|j: int| 0 <= j < s.len() ==> is_digit(s[j]) || s[j] == ':' || s[j] == ','
    &&& is_digit(s[0])
    &&& is_digit(s[s.len() - 1])
}

/// Rendering any representable millisecond count and parsing the result
/// gives the count back.
pub proof fn lemma_render_then_parse(v: int)
    requires
        0 <= v <= max_ts_ms(),
    ensures
        parse_ts(render_ts(v)) == Some(v),
        ts_chars_ok(render_ts(v)),
{
    let h = v / 3600000;
    let rem = v % 3600000;
    let m = rem / 60000;
    let rem2 = rem % 60000;
    let sec = rem2 / 1000;
    let mil = rem2 % 1000;
    vstd::arithmetic::div_mod::lemma_div_pos_is_pos(v, 3600000);
    vstd::arithmetic::div_mod::lemma_mod_pos_bound(v, 3600000);
    vstd::arithmetic::div_mod::lemma_div_pos_is_pos(rem, 60000);
    vstd::arithmetic::div_mod::lemma_mod_pos_bound(rem, 60000);
    vstd::arithmetic::div_mod::lemma_div_pos_is_pos(rem2, 1000);
    vstd::arithmetic::div_mod::lemma_mod_pos_bound(rem2, 1000);
    vstd::arithmetic::div_mod::lemma_fundamental_div_mod(v, 3600000);
    vstd::arithmetic::div_mod::lemma_fundamental_div_mod(rem, 60000);
    vstd::arithmetic::div_mod::lemma_fundamental_div_mod(rem2, 1000);
    assert(m <= 59) by {
        vstd::arithmetic::div_mod::lemma_div_is_ordered(rem, 3599999, 60000);
        vstd::arithmetic::div_mod::lemma_fundamental_div_mod_converse(3599999, 60000, 59, 59999);
    }
    assert(sec <= 59) by {
        vstd::arithmetic::div_mod::lemma_div_is_ordered(rem2, 59999, 1000);
        vstd::arithmetic::div_mod::lemma_fundamental_div_mod_converse(59999, 1000, 59, 999);
    }
    lemma_pad2_props(h);
    lemma_pad2_props(m);
    lemma_pad2_props(sec);
    lemma_pad3_props(mil);
    let hh = pad2(h);
    let mm = pad2(m);
    let ss = pad2(sec);
    let ll = pad3(mil);
    let s = render_ts(v);
    let hl = hh.len() as int;
    assert(s == hh + seq![':'] + mm + seq![':'] + ss + seq![','] + ll);
    assert(mm.len() == 2 && ss.len() == 2 && ll.len() == 3);
    assert(s.len() == hl + 10);
    assert(forall|j: int| 0 <= j < hl ==> s[j] == hh[j]);
    assert(s[hl] == ':');
    assert(forall|j: int| 0 <= j < 2 ==> s[hl + 1 + j] == mm[j]);
    assert(s[hl + 3] == ':');
    assert(forall|j: int| 0 <= j < 2 ==> s[hl + 4 + j] == ss[j]);
    assert(s[hl + 6] == ',');
    assert(forall|j: int| 0 <= j < 3 ==> s[hl + 7 + j] == ll[j]);
    assert(forall|j: int| 0 <= j < hl ==> s[j] != ':');
    lemma_find_char_hit(s, ':', 0, hl);
    assert(s[hl + 1] != ':' && s[hl + 2] != ':');
    lemma_find_char_hit(s, ':', hl + 1, hl + 3);
    assert(forall|j: int| hl + 4 <= j < s.len() ==> s[j] != ':');
    lemma_find_char_miss(s, ':', hl + 4);
    let sm = s.subrange(hl + 4, s.len() as int);
    assert(sm =~= ss + seq![','] + ll);
    assert(sm[0] != ',' && sm[1] != ',' && sm[2] == ',');
    lemma_find_char_hit(sm, ',', 0, 2);
    assert(forall|j: int| 3 <= j < 6 ==> sm[j] != ',');
    lemma_find_char_miss(sm, ',', 3);
    let fh = s.subrange(0, hl);
    let fm = s.subrange(hl + 1, hl + 3);
    let fsec = sm.subrange(0, 2);
    let fmil = sm.subrange(3, 6);
    assert(ts_fields(s) == Some((fh, fm, fsec, fmil)));
    assert(fh =~= hh);
    assert(fm =~= mm);
    assert(fsec =~= ss);
    assert(fmil =~= ll);
    assert(digit_field(fh) && digit_field(fm) && digit_field(fsec) && digit_field(fmil));
    assert(digits_val(fh) == h && digits_val(fm) == m && digits_val(fsec) == sec && digits_val(
        fmil,
    ) == mil);
    assert(ts_value(h, m, sec, mil) == v);
    assert(parse_ts(s) == Some(v));
    assert(is_digit(s[0]));
    assert(s[s.len() - 1] == ll[2]);
    assert(forall|j: int| 0 <= j < s.len() ==> is_digit(s[j]) || s[j] == ':' || s[j] == ',');
}

/// A parsed timestamp value lies between zero and the maximum.
pub proof fn lemma_parse_ts_range(s: Seq<char>)
    ensures
        parse_ts(s) matches Some(v) ==> 0 <= v <= max_ts_ms(),
{
    if parse_ts(s) is Some {
        let (h, m, sec, mil) = ts_fields(s)->Some_0;
        lemma_digits_val_nonneg(h);
        lemma_digits_val_nonneg(m);
        lemma_digits_val_nonneg(sec);
        lemma_digits_val_nonneg(mil);
        assert(ts_value(digits_val(h), digits_val(m), digits_val(sec), digits_val(mil)) >= 0)
            by (nonlinear_arith)
            requires
                digits_val(h) >= 0 && digits_val(m) >= 0 && digits_val(sec) >= 0 && digits_val(mil)
                    >= 0,
        ;
    }
}

/// A string with no `:`, only one `:`, or no `,` after the second `:` has a
/// missing field and fails to parse.
pub proof fn lemma_ts_missing_field_fails(s: Seq<char>)
    ensures
        ts_fields(s) is None ==> parse_ts(s) is None,
        (forall|j: int| 0 <= j < s.len() ==> s[j] != ':') ==> parse_ts(s) is None,
        (forall|j: int| 0 <= j < s.len() ==> s[j] != ',') ==> parse_ts(s) is None,
{
    if forall|j: int| 0 <= j < s.len() ==> s[j] != ':' {
        lemma_find_char_miss(s, ':', 0);
    }
    if forall|j: int| 0 <= j < s.len() ==> s[j] != ',' {
        let i1 = find_char_from(s, ':', 0);
        lemma_find_char_from(s, ':', 0);
        if i1 < s.len() {
            let i2 = find_char_from(s, ':', i1 + 1);
            lemma_find_char_from(s, ':', i1 + 1);
            if i2 < s.len() {
                let i3 = find_char_from(s, ':', i2 + 1);
                lemma_find_char_from(s, ':', i2 + 1);
                let sm = s.subrange(i2 + 1, i3);
                assert(forall|j: int| 0 <= j < sm.len() ==> sm[j] != ',');
                lemma_find_char_miss(sm, ',', 0);
            }
        }
    }
}

} // verus!
