//! Civil dates and date-times for the cell model: validity, ISO text in and
//! out, and conversion to days since the Unix epoch.

use vstd::prelude::*;
use crate::num::{all_digits, digits_val, dec_rep, is_digit};
use crate::text::spec_pad_left_zeros;

verus! {

/// A calendar date, kept as its civil components.
#[derive(Clone, Copy, PartialEq, Eq, Structural, Debug)]
pub struct CivilDate {
    pub year: i32,
    pub month: u8,
    pub day: u8,
}

/// A calendar date with a time of day, to the second.
#[derive(Clone, Copy, PartialEq, Eq, Structural, Debug)]
pub struct CivilDateTime {
    pub date: CivilDate,
    pub hour: u8,
    pub minute: u8,
    pub second: u8,
}

pub open spec fn is_leap_year(y: int) -> bool {
    y % 4 == 0 && (y % 100 != 0 || y % 400 == 0)
}

pub open spec fn days_in_month(y: int, m: int) -> int {
    if m == 2 {
        if is_leap_year(y) {
            29
        } else {
            28
        }
    } else if m == 4 || m == 6 || m == 9 || m == 11 {
        30
    } else {
        31
    }
}

/// A date the pipeline accepts: four-digit year, real month and day.
pub open spec fn date_valid(d: CivilDate) -> bool {
    &&& 0 <= d.year <= 9999
    &&& 1 <= d.month <= 12
    &&& 1 <= d.day <= days_in_month(d.year as int, d.month as int)
}

pub open spec fn datetime_valid(t: CivilDateTime) -> bool {
    &&& date_valid(t.date)
    &&& t.hour < 24
    &&& t.minute < 60
    &&& t.second < 60
}

fn is_leap_year_exec(y: i32) -> (r: bool)
    requires
        y >= 0,
    ensures
        r == is_leap_year(y as int),
{
    y % 4 == 0 && (y % 100 != 0 || y % 400 == 0)
}

fn days_in_month_exec(y: i32, m: u8) -> (r: u8)
    requires
        y >= 0,
    ensures
        r as int == days_in_month(y as int, m as int),
{
    if m == 2 {
        if is_leap_year_exec(y) {
            29
        } else {
            28
        }
    } else if m == 4 || m == 6 || m == 9 || m == 11 {
        30
    } else {
        31
    }
}

/// What ISO `YYYY-MM-DD` text denotes: the date when the text is exactly in
/// that shape and names a real date, and nothing otherwise.
pub open spec fn spec_parse_date(s: Seq<char>) -> Option<CivilDate> {
    if s.len() == 10 && s[4] == '-' && s[7] == '-' && all_digits(s.subrange(0, 4)) && all_digits(
        s.subrange(5, 7),
    ) && all_digits(s.subrange(8, 10)) {
        let d = CivilDate {
            year: digits_val(s.subrange(0, 4)) as i32,
            month: digits_val(s.subrange(5, 7)) as u8,
            day: digits_val(s.subrange(8, 10)) as u8,
        };
        if date_valid(d) {
            Some(d)
        } else {
            None
        }
    } else {
        None
    }
}

/// Value of a short digit span of `v`, when it holds digits alone.
fn digit_span_val(v: &Vec<char>, from: usize, to: usize) -> (r: Option<u32>)
    requires
        from <= to <= v@.len(),
        to - from <= 4,
    ensures
        r is Some <==> all_digits(v@.subrange(from as int, to as int)),
        r is Some ==> r->0 as int == digits_val(v@.subrange(from as int, to as int)) && r->0
            <= 9999,
{
    let mut acc: u32 = 0;
    let mut i: usize = from;
    while i < to
        invariant
            from <= i <= to <= v@.len(),
            to - from <= 4,
            all_digits(v@.subrange(from as int, i as int)),
            acc as int == digits_val(v@.subrange(from as int, i as int)),
            acc < 10000,
        decreases to - i,
    {
        let c = v[i];
        proof {
            assert(v@.subrange(from as int, i as int + 1).drop_last() =~= v@.subrange(
                from as int,
                i as int,
            ));
            assert(v@.subrange(from as int, i as int + 1).last() == v@[i as int]);
        }
        if '0' <= c && c <= '9' {
            let d: u32 = c as u32 - '0' as u32;
            proof {
                crate::num::lemma_digits_val_nonneg(v@.subrange(from as int, i as int));
                let pre = v@.subrange(from as int, i as int);
                crate::num::lemma_digits_val_bound(pre);
                crate::num::lemma_pow10_mono(pre.len() as int, 3);
                assert(crate::num::pow10(3) == 1000) by {
                    reveal_with_fuel(crate::num::pow10, 5);
                }
            }
            acc = acc * 10 + d;
        } else {
            proof {
                assert(!all_digits(v@.subrange(from as int, to as int))) by {
                    assert(v@.subrange(from as int, to as int)[i - from] == v@[i as int]);
                }
            }
            return None;
        }
        i = i + 1;
    }
    Some(acc)
}

/// Parses ISO `YYYY-MM-DD` text.
pub fn parse_date(s: &str) -> (r: Option<CivilDate>)
    ensures
        r == spec_parse_date(s@),
{
    let cs = crate::text::str_chars(s);
    if cs.len() != 10 {
        return None;
    }
    if !(cs[4] == '-' && cs[7] == '-') {
        return None;
    }
    let y = match digit_span_val(&cs, 0, 4) {
        Some(v) => v,
        None => {
            return None;
        },
    };
    let m = match digit_span_val(&cs, 5, 7) {
        Some(v) => v,
        None => {
            return None;
        },
    };
    let d = match digit_span_val(&cs, 8, 10) {
        Some(v) => v,
        None => {
            return None;
        },
    };
    proof {
        crate::num::lemma_digits_val_nonneg(cs@.subrange(0, 4));
        crate::num::lemma_digits_val_nonneg(cs@.subrange(5, 7));
        crate::num::lemma_digits_val_nonneg(cs@.subrange(8, 10));
        crate::num::lemma_digits_val_bound(cs@.subrange(5, 7));
        crate::num::lemma_digits_val_bound(cs@.subrange(8, 10));
        assert(crate::num::pow10(2) == 100) by {
            reveal_with_fuel(crate::num::pow10, 4);
        }
    }
    let date = CivilDate { year: y as i32, month: m as u8, day: d as u8 };
    if date.month < 1 || date.month > 12 {
        return None;
    }
    if date.day < 1 || date.day > days_in_month_exec(date.year, date.month) {
        return None;
    }
    Some(date)
}


/// A date format the engine accepts: literal characters, with `%`
/// introducing one of the directives `%Y %y %m %d %H %M %S %%`.
pub open spec fn fmt_wf(f: Seq<char>) -> bool
    decreases f.len(),
{
    if f.len() == 0 {
        true
    } else if f[0] == '%' {
        f.len() >= 2 && (f[1] == '%' || f[1] == 'Y' || f[1] == 'y' || f[1] == 'm' || f[1] == 'd'
            || f[1] == 'H' || f[1] == 'M' || f[1] == 'S') && fmt_wf(f.skip(2))
    } else {
        fmt_wf(f.skip(1))
    }
}

/// The length of the leading digit run, capped at `max`.
pub open spec fn digit_run(s: Seq<char>, max: int) -> int
    decreases max,
{
    if max <= 0 || s.len() == 0 || !is_digit(s[0]) {
        0
    } else {
        1 + digit_run(s.drop_first(), max - 1)
    }
}

/// A two-digit year, mapped as the common pivot maps it.
pub open spec fn expand_two_digit_year(v: int) -> int {
    if v <= 68 {
        2000 + v
    } else {
        1900 + v
    }
}

/// Format-directed matching of `s` against `f`, threading the date
/// components found so far. A numeric directive reads the leading digit
/// run up to its width (at least one digit); time directives consume and
/// discard; the whole of `s` must be consumed.
pub open spec fn strp(
    s: Seq<char>,
    f: Seq<char>,
    y: Option<int>,
    mo: Option<int>,
    d: Option<int>,
) -> Option<(Option<int>, Option<int>, Option<int>)>
    decreases f.len(),
{
    if f.len() == 0 {
        if s.len() == 0 {
            Some((y, mo, d))
        } else {
            None
        }
    } else if f[0] == '%' {
        if f.len() < 2 {
            None
        } else {
            let c = f[1];
            if c == '%' {
                if s.len() > 0 && s[0] == '%' {
                    strp(s.drop_first(), f.skip(2), y, mo, d)
                } else {
                    None
                }
            } else if c == 'Y' {
                let k = digit_run(s, 4);
                if k == 0 {
                    None
                } else {
                    strp(s.skip(k), f.skip(2), Some(digits_val(s.subrange(0, k))), mo, d)
                }
            } else if c == 'y' {
                let k = digit_run(s, 2);
                if k == 0 {
                    None
                } else {
                    strp(
                        s.skip(k),
                        f.skip(2),
                        Some(expand_two_digit_year(digits_val(s.subrange(0, k)))),
                        mo,
                        d,
                    )
                }
            } else if c == 'm' {
                let k = digit_run(s, 2);
                if k == 0 {
                    None
                } else {
                    strp(s.skip(k), f.skip(2), y, Some(digits_val(s.subrange(0, k))), d)
                }
            } else if c == 'd' {
                let k = digit_run(s, 2);
                if k == 0 {
                    None
                } else {
                    strp(s.skip(k), f.skip(2), y, mo, Some(digits_val(s.subrange(0, k))))
                }
            } else if c == 'H' || c == 'M' || c == 'S' {
                let k = digit_run(s, 2);
                if k == 0 {
                    None
                } else {
                    strp(s.skip(k), f.skip(2), y, mo, d)
                }
            } else {
                None
            }
        }
    } else {
        if s.len() > 0 && s[0] == f[0] {
            strp(s.drop_first(), f.skip(1), y, mo, d)
        } else {
            None
        }
    }
}

/// What format-directed date parsing yields: the date when the text
/// matches the format, all three date components appear, and they name a
/// real date; nothing otherwise.
pub open spec fn spec_parse_date_fmt(s: Seq<char>, f: Seq<char>) -> Option<CivilDate> {
    match strp(s, f, None, None, None) {
        Some(parts) => {
            if parts.0 is Some && parts.1 is Some && parts.2 is Some && 0 <= parts.0->0 <= 9999
                && 0 <= parts.1->0 <= 99 && 0 <= parts.2->0 <= 99 {
                let date = CivilDate {
                    year: parts.0->0 as i32,
                    month: parts.1->0 as u8,
                    day: parts.2->0 as u8,
                };
                if date_valid(date) {
                    Some(date)
                } else {
                    None
                }
            } else {
                None
            }
        },
        None => None,
    }
}

/// Checks a date format against the accepted directive set.
pub fn check_format(f: &str) -> (r: bool)
    ensures
        r == fmt_wf(f@),
{
    let cs = crate::text::str_chars(f);
    proof {
        assert(cs@.skip(0) =~= f@);
    }
    check_format_from(&cs, 0)
}

fn check_format_from(f: &Vec<char>, fi: usize) -> (r: bool)
    requires
        fi <= f@.len(),
    ensures
        r == fmt_wf(f@.skip(fi as int)),
    decreases f@.len() - fi,
{
    proof {
        if fi < f@.len() {
            assert(f@.skip(fi as int)[0] == f@[fi as int]);
            assert(f@.skip(fi as int).drop_first() =~= f@.skip(fi as int + 1));
            assert(f@.skip(fi as int).skip(1) =~= f@.skip(fi as int + 1));
            if fi + 1 < f@.len() {
                assert(f@.skip(fi as int)[1] == f@[fi as int + 1]);
                assert(f@.skip(fi as int).skip(2) =~= f@.skip(fi as int + 2));
            }
        }
        assert(f@.skip(fi as int).len() == f@.len() - fi);
    }
    if fi == f.len() {
        true
    } else if f[fi] == '%' {
        if fi + 1 >= f.len() {
            false
        } else {
            let c = f[fi + 1];
            let ok = c == '%' || c == 'Y' || c == 'y' || c == 'm' || c == 'd' || c == 'H'
                || c == 'M' || c == 'S';
            ok && check_format_from(f, fi + 2)
        }
    } else {
        check_format_from(f, fi + 1)
    }
}

fn digit_run_exec(s: &Vec<char>, si: usize, max: usize) -> (k: usize)
    requires
        si <= s@.len(),
    ensures
        k as int == digit_run(s@.skip(si as int), max as int),
        k <= max,
        si + k <= s@.len(),
        forall|i: int| si <= i < si + k ==> is_digit(#[trigger] s@[i]),
    decreases max,
{
    proof {
        if si < s@.len() {
            assert(s@.skip(si as int)[0] == s@[si as int]);
            assert(s@.skip(si as int).drop_first() =~= s@.skip(si as int + 1));
        }
        assert(s@.skip(si as int).len() == s@.len() - si);
    }
    if max == 0 || si == s.len() {
        0
    } else {
        let c = s[si];
        if '0' <= c && c <= '9' {
            let rest = digit_run_exec(s, si + 1, max - 1);
            1 + rest
        } else {
            0
        }
    }
}

pub open spec fn opt_int_of(v: Option<u32>) -> Option<int> {
    match v {
        Some(x) => Some(x as int),
        None => None,
    }
}

fn strp_exec(
    s: &Vec<char>,
    si: usize,
    f: &Vec<char>,
    fi: usize,
    y: Option<u32>,
    mo: Option<u32>,
    d: Option<u32>,
) -> (r: Option<(Option<u32>, Option<u32>, Option<u32>)>)
    requires
        si <= s@.len(),
        fi <= f@.len(),
        y is Some ==> y->0 <= 9999,
        mo is Some ==> mo->0 <= 99,
        d is Some ==> d->0 <= 99,
    ensures
        (match r {
            Some(parts) => strp(
                s@.skip(si as int),
                f@.skip(fi as int),
                opt_int_of(y),
                opt_int_of(mo),
                opt_int_of(d),
            ) == Some((opt_int_of(parts.0), opt_int_of(parts.1), opt_int_of(parts.2)))
                && (parts.0 is Some ==> parts.0->0 <= 9999) && (parts.1 is Some ==> parts.1->0
                <= 99) && (parts.2 is Some ==> parts.2->0 <= 99),
            None => strp(
                s@.skip(si as int),
                f@.skip(fi as int),
                opt_int_of(y),
                opt_int_of(mo),
                opt_int_of(d),
            ) is None,
        }),
    decreases f@.len() - fi,
{
    let ghost ss = s@.skip(si as int);
    let ghost ff = f@.skip(fi as int);
    let slen = s.len();
    proof {
        assert(s@.len() == slen);
        assert(ss.len() == s@.len() - si);
        assert(ff.len() == f@.len() - fi);
        if si < s@.len() {
            assert(ss[0] == s@[si as int]);
            assert(ss.drop_first() =~= s@.skip(si as int + 1));
        }
        if fi < f@.len() {
            assert(ff[0] == f@[fi as int]);
            assert(ff.skip(1) =~= f@.skip(fi as int + 1));
            if fi + 1 < f@.len() {
                assert(ff[1] == f@[fi as int + 1]);
                assert(ff.skip(2) =~= f@.skip(fi as int + 2));
            }
        }
    }
    if fi == f.len() {
        if si == s.len() {
            Some((y, mo, d))
        } else {
            None
        }
    } else if f[fi] == '%' {
        if fi + 1 >= f.len() {
            None
        } else {
            let c = f[fi + 1];
            if c == '%' {
                if si < s.len() && s[si] == '%' {
                    strp_exec(s, si + 1, f, fi + 2, y, mo, d)
                } else {
                    None
                }
            } else if c == 'Y' || c == 'y' || c == 'm' || c == 'd' || c == 'H' || c == 'M' || c
                == 'S' {
                let width: usize = if c == 'Y' {
                    4
                } else {
                    2
                };
                let k = digit_run_exec(s, si, width);
                proof {
                    assert(digit_run(ss, width as int) == k as int);
                    assert(ss.skip(k as int) =~= s@.skip(si as int + k as int));
                    assert(ss.subrange(0, k as int) =~= s@.subrange(si as int, si as int + k as int));
                }
                if k == 0 {
                    None
                } else {
                    let v = match digit_span_val(s, si, si + k) {
                        Some(v) => v,
                        None => {
                            proof {
                                assert(false);
                            }
                            0
                        },
                    };
                    proof {
                        assert(v as int == digits_val(ss.subrange(0, k as int)));
                    }
                    if c == 'Y' {
                        strp_exec(s, si + k, f, fi + 2, Some(v), mo, d)
                    } else if c == 'y' {
                        let yy: u32 = if v <= 68 {
                            2000 + v
                        } else {
                            1900 + v
                        };
                        proof {
                            crate::num::lemma_digits_val_bound(ss.subrange(0, k as int));
                            assert(crate::num::pow10(2) == 100) by {
                                reveal_with_fuel(crate::num::pow10, 4);
                            }
                        }
                        strp_exec(s, si + k, f, fi + 2, Some(yy), mo, d)
                    } else if c == 'm' {
                        proof {
                            crate::num::lemma_digits_val_bound(ss.subrange(0, k as int));
                            assert(crate::num::pow10(2) == 100) by {
                                reveal_with_fuel(crate::num::pow10, 4);
                            }
                        }
                        strp_exec(s, si + k, f, fi + 2, y, Some(v), d)
                    } else if c == 'd' {
                        proof {
                            crate::num::lemma_digits_val_bound(ss.subrange(0, k as int));
                            assert(crate::num::pow10(2) == 100) by {
                                reveal_with_fuel(crate::num::pow10, 4);
                            }
                        }
                        strp_exec(s, si + k, f, fi + 2, y, mo, Some(v))
                    } else {
                        strp_exec(s, si + k, f, fi + 2, y, mo, d)
                    }
                }
            } else {
                None
            }
        }
    } else {
        if si < s.len() && s[si] == f[fi] {
            strp_exec(s, si + 1, f, fi + 1, y, mo, d)
        } else {
            None
        }
    }
}

/// Parses date text against an accepted format; failures yield nothing.
pub fn parse_date_with_format(s: &str, f: &str) -> (r: Option<CivilDate>)
    ensures
        r == spec_parse_date_fmt(s@, f@),
{
    let cs = crate::text::str_chars(s);
    let fs = crate::text::str_chars(f);
    proof {
        assert(cs@.skip(0) =~= s@);
        assert(fs@.skip(0) =~= f@);
    }
    match strp_exec(&cs, 0, &fs, 0, None, None, None) {
        Some(parts) => {
            let (py, pm, pd) = parts;
            match (py, pm, pd) {
                (Some(yv), Some(mv), Some(dv)) => {
                    let date = CivilDate { year: yv as i32, month: mv as u8, day: dv as u8 };
                    if date.month < 1 || date.month > 12 {
                        return None;
                    }
                    if date.day < 1 || date.day > days_in_month_exec(date.year, date.month) {
                        return None;
                    }
                    Some(date)
                },
                _ => None,
            }
        },
        None => None,
    }
}

/// What ISO `YYYY-MM-DD HH:MM:SS` text (with a space or a `T` between date
/// and time) denotes.
pub open spec fn spec_parse_datetime(s: Seq<char>) -> Option<CivilDateTime> {
    if s.len() == 19 && (s[10] == ' ' || s[10] == 'T') && s[13] == ':' && s[16] == ':'
        && all_digits(s.subrange(11, 13)) && all_digits(s.subrange(14, 16)) && all_digits(
        s.subrange(17, 19),
    ) && spec_parse_date(s.subrange(0, 10)) is Some {
        let t = CivilDateTime {
            date: spec_parse_date(s.subrange(0, 10))->0,
            hour: digits_val(s.subrange(11, 13)) as u8,
            minute: digits_val(s.subrange(14, 16)) as u8,
            second: digits_val(s.subrange(17, 19)) as u8,
        };
        if t.hour < 24 && t.minute < 60 && t.second < 60 {
            Some(t)
        } else {
            None
        }
    } else {
        None
    }
}

/// Parses ISO `YYYY-MM-DD HH:MM:SS` (or `...T...`) text.
pub fn parse_datetime(s: &str) -> (r: Option<CivilDateTime>)
    ensures
        r == spec_parse_datetime(s@),
{
    let cs = crate::text::str_chars(s);
    if cs.len() != 19 {
        return None;
    }
    if !((cs[10] == ' ' || cs[10] == 'T') && cs[13] == ':' && cs[16] == ':') {
        return None;
    }
    let date_part = crate::num::copy_range(&cs, 0, 10);
    let date_str = crate::text::chars_to_string(&date_part);
    proof {
        assert(date_part@ =~= s@.subrange(0, 10));
    }
    let date = match parse_date(date_str.as_str()) {
        Some(d) => d,
        None => {
            return None;
        },
    };
    let h = match digit_span_val(&cs, 11, 13) {
        Some(v) => v,
        None => {
            return None;
        },
    };
    let mi = match digit_span_val(&cs, 14, 16) {
        Some(v) => v,
        None => {
            return None;
        },
    };
    let sec = match digit_span_val(&cs, 17, 19) {
        Some(v) => v,
        None => {
            return None;
        },
    };
    proof {
        crate::num::lemma_digits_val_nonneg(cs@.subrange(11, 13));
        crate::num::lemma_digits_val_nonneg(cs@.subrange(14, 16));
        crate::num::lemma_digits_val_nonneg(cs@.subrange(17, 19));
        crate::num::lemma_digits_val_bound(cs@.subrange(11, 13));
        crate::num::lemma_digits_val_bound(cs@.subrange(14, 16));
        crate::num::lemma_digits_val_bound(cs@.subrange(17, 19));
        assert(crate::num::pow10(2) == 100) by {
            reveal_with_fuel(crate::num::pow10, 4);
        }
    }
    let t = CivilDateTime { date, hour: h as u8, minute: mi as u8, second: sec as u8 };
    if t.hour < 24 && t.minute < 60 && t.second < 60 {
        Some(t)
    } else {
        None
    }
}

/// Digits of `n` left-padded with zeros to `w` characters.
pub open spec fn padded_num(n: nat, w: nat) -> Seq<char> {
    spec_pad_left_zeros(dec_rep(n), w)
}

/// Renders `n` as decimal digits, left-padded with zeros to width `w`.
pub fn render_padded(n: u64, w: usize) -> (r: Vec<char>)
    ensures
        r@ == padded_num(n as nat, w as nat),
{
    let digits = crate::num::render_u128(n as u128);
    let ds = crate::text::chars_to_string(&digits);
    let padded = crate::text::pad_left_zeros(ds.as_str(), w);
    crate::text::str_chars(padded.as_str())
}

/// ISO text of a date: `YYYY-MM-DD`.
pub open spec fn date_rep(d: CivilDate) -> Seq<char> {
    padded_num(d.year as nat, 4) + seq!['-'] + padded_num(d.month as nat, 2) + seq!['-']
        + padded_num(d.day as nat, 2)
}

/// Renders a date as `YYYY-MM-DD`.
pub fn render_date(d: &CivilDate) -> (r: Vec<char>)
    requires
        date_valid(*d),
    ensures
        r@ == date_rep(*d),
{
    let mut out = render_padded(d.year as u64, 4);
    out.push('-');
    let mm = render_padded(d.month as u64, 2);
    let mut i: usize = 0;
    while i < mm.len()
        invariant
            i <= mm@.len(),
            out@ =~= padded_num(d.year as nat, 4) + seq!['-'] + mm@.subrange(0, i as int),
        decreases mm@.len() - i,
    {
        out.push(mm[i]);
        i = i + 1;
    }
    out.push('-');
    let dd = render_padded(d.day as u64, 2);
    let mut j: usize = 0;
    while j < dd.len()
        invariant
            j <= dd@.len(),
            out@ =~= padded_num(d.year as nat, 4) + seq!['-'] + padded_num(d.month as nat, 2)
                + seq!['-'] + dd@.subrange(0, j as int),
        decreases dd@.len() - j,
    {
        out.push(dd[j]);
        j = j + 1;
    }
    proof {
        assert(mm@.subrange(0, mm@.len() as int) =~= mm@);
        assert(dd@.subrange(0, dd@.len() as int) =~= dd@);
        assert(out@ =~= date_rep(*d));
    }
    out
}

/// ISO text of a date-time: `YYYY-MM-DD HH:MM:SS`.
pub open spec fn datetime_rep(t: CivilDateTime) -> Seq<char> {
    date_rep(t.date) + seq![' '] + padded_num(t.hour as nat, 2) + seq![':'] + padded_num(
        t.minute as nat,
        2,
    ) + seq![':'] + padded_num(t.second as nat, 2)
}

/// Renders a date-time as `YYYY-MM-DD HH:MM:SS`.
pub fn render_datetime(t: &CivilDateTime) -> (r: Vec<char>)
    requires
        datetime_valid(*t),
    ensures
        r@ == datetime_rep(*t),
{
    let mut out = render_date(&t.date);
    out.push(' ');
    let hh = render_padded(t.hour as u64, 2);
    let mut i: usize = 0;
    while i < hh.len()
        invariant
            i <= hh@.len(),
            out@ =~= date_rep(t.date) + seq![' '] + hh@.subrange(0, i as int),
        decreases hh@.len() - i,
    {
        out.push(hh[i]);
        i = i + 1;
    }
    out.push(':');
    let mm = render_padded(t.minute as u64, 2);
    let mut j: usize = 0;
    while j < mm.len()
        invariant
            j <= mm@.len(),
            out@ =~= date_rep(t.date) + seq![' '] + padded_num(t.hour as nat, 2) + seq![':']
                + mm@.subrange(0, j as int),
        decreases mm@.len() - j,
    {
        out.push(mm[j]);
        j = j + 1;
    }
    out.push(':');
    let ss = render_padded(t.second as u64, 2);
    let mut k: usize = 0;
    while k < ss.len()
        invariant
            k <= ss@.len(),
            out@ =~= date_rep(t.date) + seq![' '] + padded_num(t.hour as nat, 2) + seq![':']
                + padded_num(t.minute as nat, 2) + seq![':'] + ss@.subrange(0, k as int),
        decreases ss@.len() - k,
    {
        out.push(ss[k]);
        k = k + 1;
    }
    proof {
        assert(hh@.subrange(0, hh@.len() as int) =~= hh@);
        assert(mm@.subrange(0, mm@.len() as int) =~= mm@);
        assert(ss@.subrange(0, ss@.len() as int) =~= ss@);
        assert(out@ =~= datetime_rep(*t));
    }
    out
}

/// Days from 1970-01-01 to the given date, by the standard civil-calendar
/// formula (months shifted so the year starts in March).
pub open spec fn spec_days_from_civil(y: int, m: int, d: int) -> int {
    let y2 = (if m <= 2 {
        y - 1
    } else {
        y
    }) + 2000;
    let era = y2 / 400;
    let yoe = y2 % 400;
    let mp = if m > 2 {
        m - 3
    } else {
        m + 9
    };
    let doy = (153 * mp + 2) / 5 + d - 1;
    let doe = yoe * 365 + yoe / 4 - yoe / 100 + doy;
    era * 146097 + doe - 719468 - 730485
}

/// Days since the Unix epoch of a valid date (negative before 1970).
pub fn days_from_civil(date: &CivilDate) -> (r: i32)
    requires
        date_valid(*date),
    ensures
        r as int == spec_days_from_civil(date.year as int, date.month as int, date.day as int),
{
    let y: i64 = date.year as i64;
    let m: i64 = date.month as i64;
    let d: i64 = date.day as i64;
    let y2: i64 = (if m <= 2 {
        y - 1
    } else {
        y
    }) + 2000;
    let era: i64 = y2 / 400;
    let yoe: i64 = y2 % 400;
    let mp: i64 = if m > 2 {
        m - 3
    } else {
        m + 9
    };
    let doy: i64 = (153 * mp + 2) / 5 + d - 1;
    let doe: i64 = yoe * 365 + yoe / 4 - yoe / 100 + doy;
    let days: i64 = era * 146097 + doe - 719468 - 730485;
    days as i32
}

} // verus!
