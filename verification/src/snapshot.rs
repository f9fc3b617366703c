//! Snapshot naming and table layout: timestamp ids, table roots under the
//! warehouse, and the file-URI form of local paths. Snapshot ids sort in
//! write order because later stamps format to lexicographically larger
//! ids.

use vstd::prelude::*;
use vstd::string::*;
use crate::dates::padded_num;
use crate::num::{DEC_MAX, all_digits, dec_rep, digit_val, digits_val, is_digit, pow10};
use crate::text::spec_pad_left_zeros;
use crate::value::lex_cmp_chars;

verus! {

/// One UTC instant, as the clock hands it out.
#[derive(Clone, Copy, PartialEq, Eq, Structural, Debug)]
pub struct UtcStamp {
    pub year: i32,
    pub month: u8,
    pub day: u8,
    pub hour: u8,
    pub minute: u8,
    pub second: u8,
    pub milli: u16,
}

/// A stamp the formatter accepts: a four-digit year and in-range fields.
pub open spec fn stamp_wf(t: UtcStamp) -> bool {
    &&& 0 <= t.year <= 9999
    &&& 1 <= t.month <= 12
    &&& 1 <= t.day <= 31
    &&& t.hour < 24
    &&& t.minute < 60
    &&& t.second < 60
    &&& t.milli < 1000
}

/// The instant as one number, for chronological comparison.
pub open spec fn stamp_key(t: UtcStamp) -> int {
    ((((((t.year * 100 + t.month) * 100 + t.day) * 100 + t.hour) * 100 + t.minute) * 100
        + t.second) * 1000 + t.milli) as int
}

/// The id text of a stamp: `YYYYMMDDTHHMMSSmmmZ`.
pub open spec fn snapshot_id_rep(t: UtcStamp) -> Seq<char> {
    padded_num(t.year as nat, 4) + padded_num(t.month as nat, 2) + padded_num(t.day as nat, 2)
        + seq!['T'] + padded_num(t.hour as nat, 2) + padded_num(t.minute as nat, 2) + padded_num(
        t.second as nat,
        2,
    ) + padded_num(t.milli as nat, 3) + seq!['Z']
}

/// Relies on `chrono::Utc::now` with the `Datelike`/`Timelike` accessors:
/// the field ranges are the ones their documentation states; the instant
/// itself depends on the clock.
#[verifier::external_body]
pub fn utc_now_stamp() -> (r: UtcStamp)
    ensures
        1 <= r.month <= 12,
        1 <= r.day <= 31,
        r.hour < 24,
        r.minute < 60,
        r.second < 60,
        r.milli < 2000,
{
    let now = chrono::Utc::now();
    UtcStamp {
        year: chrono::Datelike::year(&now),
        month: chrono::Datelike::month(&now) as u8,
        day: chrono::Datelike::day(&now) as u8,
        hour: chrono::Timelike::hour(&now) as u8,
        minute: chrono::Timelike::minute(&now) as u8,
        second: chrono::Timelike::second(&now) as u8,
        milli: chrono::DateTime::timestamp_subsec_millis(&now) as u16,
    }
}

/// Formats a stamp as a snapshot id; rejects stamps outside the
/// formatter's ranges.
pub fn format_snapshot_id(t: &UtcStamp) -> (r: Option<String>)
    ensures
        r is Some <==> stamp_wf(*t),
        r is Some ==> r->0@ == snapshot_id_rep(*t),
{
    if !(0 <= t.year && t.year <= 9999 && 1 <= t.month && t.month <= 12 && 1 <= t.day && t.day
        <= 31 && t.hour < 24 && t.minute < 60 && t.second < 60 && t.milli < 1000) {
        return None;
    }
    let mut out = crate::dates::render_padded(t.year as u64, 4);
    let mo = crate::dates::render_padded(t.month as u64, 2);
    append_chars(&mut out, &mo);
    let dd = crate::dates::render_padded(t.day as u64, 2);
    append_chars(&mut out, &dd);
    out.push('T');
    let hh = crate::dates::render_padded(t.hour as u64, 2);
    append_chars(&mut out, &hh);
    let mi = crate::dates::render_padded(t.minute as u64, 2);
    append_chars(&mut out, &mi);
    let ss = crate::dates::render_padded(t.second as u64, 2);
    append_chars(&mut out, &ss);
    let ms = crate::dates::render_padded(t.milli as u64, 3);
    append_chars(&mut out, &ms);
    out.push('Z');
    proof {
        assert(out@ =~= snapshot_id_rep(*t));
    }
    Some(crate::text::chars_to_string(&out))
}

fn append_chars(out: &mut Vec<char>, s: &Vec<char>)
    ensures
        final(out)@ == old(out)@ + s@,
{
    let mut i: usize = 0;
    while i < s.len()
        invariant
            i <= s@.len(),
            out@ == old(out)@ + s@.subrange(0, i as int),
        decreases s@.len() - i,
    {
        proof {
            assert(s@.subrange(0, i as int).push(s@[i as int]) =~= s@.subrange(0, i as int + 1));
        }
        out.push(s[i]);
        i = i + 1;
    }
    proof {
        assert(s@.subrange(0, s@.len() as int) =~= s@);
    }
}

/// The value of a rendered number is the number.
proof fn lemma_dec_rep_val(n: nat)
    ensures
        digits_val(dec_rep(n)) == n,
        all_digits(dec_rep(n)),
        dec_rep(n).len() >= 1,
    decreases n,
{
    if n < 10 {
        assert(dec_rep(n) == seq![crate::num::digit_char(n as int)]);
        assert(dec_rep(n).drop_last() =~= Seq::<char>::empty());
        assert(dec_rep(n).drop_last() == Seq::<char>::empty());
        assert(digits_val(Seq::<char>::empty()) == 0);
        assert(dec_rep(n).last() == crate::num::digit_char(n as int));
        lemma_digit_char_val(n as int);
        assert(digits_val(dec_rep(n)) == digits_val(dec_rep(n).drop_last()) * 10 + digit_val(
            dec_rep(n).last(),
        ));
        assert forall|i: int| 0 <= i < dec_rep(n).len() implies is_digit(
            #[trigger] dec_rep(n)[i],
        ) by {
            assert(dec_rep(n)[0] == crate::num::digit_char(n as int));
        }
    } else {
        lemma_dec_rep_val(n / 10);
        assert(dec_rep(n) == dec_rep(n / 10).push(crate::num::digit_char(n as int % 10)));
        assert(dec_rep(n).drop_last() =~= dec_rep(n / 10));
        assert(dec_rep(n).drop_last() == dec_rep(n / 10));
        assert(dec_rep(n).last() == crate::num::digit_char(n as int % 10));
        lemma_digit_char_val(n as int % 10);
        vstd::arithmetic::div_mod::lemma_fundamental_div_mod(n as int, 10);
        assert(digits_val(dec_rep(n)) == digits_val(dec_rep(n).drop_last()) * 10 + digit_val(
            dec_rep(n).last(),
        ));
        assert(digits_val(dec_rep(n)) == (n / 10) * 10 + (n % 10));
        assert forall|i: int| 0 <= i < dec_rep(n).len() implies is_digit(
            #[trigger] dec_rep(n)[i],
        ) by {
            if i < dec_rep(n).len() - 1 {
                assert(dec_rep(n)[i] == dec_rep(n / 10)[i]);
            } else {
                assert(dec_rep(n)[i] == crate::num::digit_char(n as int % 10));
            }
        }
    }
}

/// The rendered digit of a value reads back as that value.
proof fn lemma_digit_char_val(d: int)
    requires
        0 <= d < 10,
    ensures
        is_digit(crate::num::digit_char(d)),
        digit_val(crate::num::digit_char(d)) == d,
{
}

/// A number below `10^w` renders in at most `w` digits.
proof fn lemma_dec_rep_len(n: nat, w: int)
    requires
        w >= 1,
        n < pow10(w),
    ensures
        dec_rep(n).len() <= w,
    decreases w,
{
    if n < 10 {
    } else {
        assert(pow10(w) == 10 * pow10(w - 1));
        assert(n / 10 < pow10(w - 1)) by {
            if n / 10 >= pow10(w - 1) {
                vstd::arithmetic::div_mod::lemma_fundamental_div_mod(n as int, 10);
                assert(n as int == 10 * (n as int / 10) + n as int % 10);
                assert(10 * (n as int / 10) >= 10 * pow10(w - 1)) by (nonlinear_arith)
                    requires
                        n as int / 10 >= pow10(w - 1),
                ;
            }
        }
        assert(pow10(w - 1) >= 1) by {
            crate::num::lemma_pow10_pos(w - 1);
        }
        if pow10(w - 1) == 1 {
            assert(n / 10 == 0);
            assert(n < 10);
        } else {
            lemma_dec_rep_len(n / 10, w - 1);
        }
    }
}

/// Zero-padding keeps the value.
proof fn lemma_padded_val(s: Seq<char>, w: nat)
    requires
        all_digits(s),
    ensures
        digits_val(spec_pad_left_zeros(s, w)) == digits_val(s),
        all_digits(spec_pad_left_zeros(s, w)),
    decreases (if s.len() >= w {
        0int
    } else {
        w - s.len()
    }),
{
    if s.len() >= w {
    } else {
        let padded = spec_pad_left_zeros(s, w);
        let one = Seq::new(1, |i: int| '0') + s;
        assert(digits_val(one) == digits_val(s)) by {
            lemma_leading_zero_val(s);
        }
        assert(all_digits(one)) by {
            assert(forall|i: int| 0 <= i < one.len() ==> is_digit(#[trigger] one[i]));
        }
        lemma_padded_val(one, w);
        assert(spec_pad_left_zeros(one, w) =~= padded);
    }
}

/// One leading zero does not change a digit string's value.
proof fn lemma_leading_zero_val(s: Seq<char>)
    ensures
        digits_val(Seq::new(1, |i: int| '0') + s) == digits_val(s),
    decreases s.len(),
{
    let z = Seq::new(1, |i: int| '0');
    if s.len() == 0 {
        assert(z + s =~= z);
        assert(z + s == z);
        assert(z[0] == '0');
        assert((z + s).last() == '0');
        assert((z + s).drop_last() =~= Seq::<char>::empty());
        assert((z + s).drop_last() == Seq::<char>::empty());
        assert(digits_val(Seq::<char>::empty()) == 0);
        assert(digit_val('0') == 0);
        assert(digits_val(z + s) == digits_val((z + s).drop_last()) * 10 + digit_val(
            (z + s).last(),
        ));
    } else {
        assert((z + s).drop_last() =~= z + s.drop_last());
        assert((z + s).drop_last() == z + s.drop_last());
        assert((z + s).last() == s.last());
        lemma_leading_zero_val(s.drop_last());
        assert(digits_val(z + s) == digits_val((z + s).drop_last()) * 10 + digit_val(
            (z + s).last(),
        ));
        assert(digits_val(s) == digits_val(s.drop_last()) * 10 + digit_val(s.last()));
    }
}

/// The value read from the left: leading digit times its weight plus the
/// rest.
proof fn lemma_digits_val_split(s: Seq<char>)
    requires
        s.len() >= 1,
        all_digits(s),
    ensures
        digits_val(s) == digit_val(s[0]) * pow10(s.len() - 1) + digits_val(s.drop_first()),
    decreases s.len(),
{
    if s.len() == 1 {
        assert(s.drop_last() =~= Seq::<char>::empty());
        assert(s.drop_first() =~= Seq::<char>::empty());
        assert(s.last() == s[0]);
    } else {
        assert(all_digits(s.drop_last())) by {
            assert(forall|i: int| 0 <= i < s.len() - 1 ==> s.drop_last()[i] == #[trigger] s[i]);
        }
        lemma_digits_val_split(s.drop_last());
        assert(s.drop_last()[0] == s[0]);
        assert(s.drop_last().drop_first() =~= s.drop_first().drop_last());
        assert(s.drop_first().last() == s.last());
        assert(all_digits(s.drop_first())) by {
            assert(forall|i: int|
                0 <= i < s.len() - 1 ==> s.drop_first()[i] == #[trigger] s[i + 1]);
        }
        let d = digit_val(s[0]);
        let n = s.len() - 1;
        assert(digits_val(s) == digits_val(s.drop_last()) * 10 + digit_val(s.last()));
        assert(digits_val(s.drop_last()) == d * pow10(n - 1) + digits_val(
            s.drop_last().drop_first(),
        ));
        assert((d * pow10(n - 1) + digits_val(s.drop_last().drop_first())) * 10 == d * (pow10(
            n - 1,
        ) * 10) + digits_val(s.drop_last().drop_first()) * 10) by (nonlinear_arith);
        assert(pow10(n - 1) * 10 == pow10(n));
        assert(digits_val(s.drop_first()) == digits_val(s.drop_first().drop_last()) * 10
            + digit_val(s.drop_first().last()));
    }
}

/// Of two equal-length digit strings, the smaller value sorts first.
proof fn lemma_digit_str_order(a: Seq<char>, b: Seq<char>)
    requires
        a.len() == b.len(),
        all_digits(a),
        all_digits(b),
        digits_val(a) < digits_val(b),
    ensures
        lex_cmp_chars(a, b) < 0,
    decreases a.len(),
{
    if a.len() == 0 {
        assert(false);
    } else {
        lemma_digits_val_split(a);
        lemma_digits_val_split(b);
        crate::num::lemma_digits_val_bound(a.drop_first());
        crate::num::lemma_digits_val_bound(b.drop_first());
        crate::num::lemma_digits_val_nonneg(a.drop_first());
        crate::num::lemma_digits_val_nonneg(b.drop_first());
        assert(all_digits(a.drop_first())) by {
            assert(forall|i: int|
                0 <= i < a.len() - 1 ==> a.drop_first()[i] == #[trigger] a[i + 1]);
        }
        assert(all_digits(b.drop_first())) by {
            assert(forall|i: int|
                0 <= i < b.len() - 1 ==> b.drop_first()[i] == #[trigger] b[i + 1]);
        }
        if digit_val(a[0]) == digit_val(b[0]) {
            assert(a[0] == b[0]) by {
                assert(is_digit(a[0]) && is_digit(b[0]));
            }
            assert(digits_val(a.drop_first()) < digits_val(b.drop_first()));
            lemma_digit_str_order(a.drop_first(), b.drop_first());
        } else if digit_val(a[0]) < digit_val(b[0]) {
            assert(a[0] < b[0]) by {
                assert(is_digit(a[0]) && is_digit(b[0]));
            }
        } else {
            // impossible: the leading digit dominates
            let p = pow10(a.len() - 1);
            crate::num::lemma_pow10_pos(a.len() - 1);
            assert(digit_val(a[0]) >= digit_val(b[0]) + 1);
            assert(digit_val(a[0]) * p >= (digit_val(b[0]) + 1) * p) by (nonlinear_arith)
                requires
                    p >= 1,
                    digit_val(a[0]) >= digit_val(b[0]) + 1,
            ;
            assert((digit_val(b[0]) + 1) * p == digit_val(b[0]) * p + p) by (nonlinear_arith);
            assert(false);
        }
    }
}

/// A padded number below its range has exactly the pad width and its own
/// value.
proof fn lemma_padded_shape(n: nat, w: int)
    requires
        1 <= w,
        n < pow10(w),
    ensures
        padded_num(n, w as nat).len() == w,
        all_digits(padded_num(n, w as nat)),
        digits_val(padded_num(n, w as nat)) == n,
{
    lemma_dec_rep_val(n);
    lemma_dec_rep_len(n, w);
    lemma_padded_val(dec_rep(n), w as nat);
    if dec_rep(n).len() >= w {
        assert(padded_num(n, w as nat) == dec_rep(n));
    }
}

/// Concatenating with equal prefixes compares by the suffixes.
proof fn lemma_lex_prefix(p: Seq<char>, a: Seq<char>, b: Seq<char>)
    ensures
        lex_cmp_chars(p + a, p + b) == lex_cmp_chars(a, b),
    decreases p.len(),
{
    if p.len() == 0 {
        assert(p + a =~= a);
        assert(p + b =~= b);
    } else {
        assert((p + a)[0] == p[0]);
        assert((p + b)[0] == p[0]);
        assert((p + a).drop_first() =~= p.drop_first() + a);
        assert((p + b).drop_first() =~= p.drop_first() + b);
        lemma_lex_prefix(p.drop_first(), a, b);
    }
}

/// A strictly smaller equal-length prefix decides the comparison.
proof fn lemma_lex_prefix_lt(a1: Seq<char>, a2: Seq<char>, b1: Seq<char>, b2: Seq<char>)
    requires
        a1.len() == b1.len(),
        lex_cmp_chars(a1, b1) < 0,
        a1.len() > 0,
    ensures
        lex_cmp_chars(a1 + a2, b1 + b2) < 0,
    decreases a1.len(),
{
    assert((a1 + a2)[0] == a1[0]);
    assert((b1 + b2)[0] == b1[0]);
    if a1[0] < b1[0] {
    } else if a1[0] > b1[0] {
        assert(false);
    } else {
        assert((a1 + a2).drop_first() =~= a1.drop_first() + a2);
        assert((b1 + b2).drop_first() =~= b1.drop_first() + b2);
        if a1.len() == 1 {
            assert(lex_cmp_chars(a1.drop_first(), b1.drop_first()) < 0);
            assert(a1.drop_first().len() == 0 && b1.drop_first().len() == 0);
            assert(false);
        } else {
            lemma_lex_prefix_lt(a1.drop_first(), a2, b1.drop_first(), b2);
        }
    }
}

/// Equal-length digit strings with equal values are the same string.
proof fn lemma_equal_val_equal_str(a: Seq<char>, b: Seq<char>)
    requires
        a.len() == b.len(),
        all_digits(a),
        all_digits(b),
        digits_val(a) == digits_val(b),
    ensures
        a =~= b,
    decreases a.len(),
{
    if a.len() > 0 {
        lemma_digits_val_split(a);
        lemma_digits_val_split(b);
        assert(all_digits(a.drop_first())) by {
            assert(forall|i: int|
                0 <= i < a.len() - 1 ==> a.drop_first()[i] == #[trigger] a[i + 1]);
        }
        assert(all_digits(b.drop_first())) by {
            assert(forall|i: int|
                0 <= i < b.len() - 1 ==> b.drop_first()[i] == #[trigger] b[i + 1]);
        }
        crate::num::lemma_digits_val_bound(a.drop_first());
        crate::num::lemma_digits_val_bound(b.drop_first());
        crate::num::lemma_digits_val_nonneg(a.drop_first());
        crate::num::lemma_digits_val_nonneg(b.drop_first());
        let p = pow10(a.len() - 1);
        crate::num::lemma_pow10_pos(a.len() - 1);
        assert(digit_val(a[0]) == digit_val(b[0])) by {
            if digit_val(a[0]) < digit_val(b[0]) {
                assert(digit_val(a[0]) * p + p <= digit_val(b[0]) * p) by (nonlinear_arith)
                    requires
                        p >= 1,
                        digit_val(a[0]) + 1 <= digit_val(b[0]),
                ;
            }
            if digit_val(b[0]) < digit_val(a[0]) {
                assert(digit_val(b[0]) * p + p <= digit_val(a[0]) * p) by (nonlinear_arith)
                    requires
                        p >= 1,
                        digit_val(b[0]) + 1 <= digit_val(a[0]),
                ;
            }
        }
        assert(a[0] == b[0]);
        lemma_equal_val_equal_str(a.drop_first(), b.drop_first());
        assert forall|i: int| 0 <= i < a.len() implies a[i] == b[i] by {
            if i > 0 {
                assert(a.drop_first()[i - 1] == a[i]);
                assert(b.drop_first()[i - 1] == b[i]);
            }
        }
    }
}

/// A later instant formats to a lexicographically larger snapshot id:
/// timestamp ids sort in write order.
#[verifier::rlimit(100)]
#[verifier::spinoff_prover]
pub proof fn lemma_snapshot_id_monotone(a: UtcStamp, b: UtcStamp)
    requires
        stamp_wf(a),
        stamp_wf(b),
        stamp_key(a) < stamp_key(b),
    ensures
        lex_cmp_chars(snapshot_id_rep(a), snapshot_id_rep(b)) < 0,
{
    let da = stamp_digits(a);
    let db = stamp_digits(b);
    lemma_stamp_digits_val(a);
    lemma_stamp_digits_val(b);
    lemma_id_from_digits(a);
    lemma_id_from_digits(b);
    let da1 = da.subrange(0, 8);
    let db1 = db.subrange(0, 8);
    let sa = da.subrange(8, 17);
    let sb = db.subrange(8, 17);
    assert(all_digits(da1) && all_digits(sa) && all_digits(db1) && all_digits(sb)) by {
        assert(forall|i: int| 0 <= i < 8 ==> da1[i] == #[trigger] da[i]);
        assert(forall|i: int| 0 <= i < 9 ==> sa[i] == #[trigger] da[i + 8]);
        assert(forall|i: int| 0 <= i < 8 ==> db1[i] == #[trigger] db[i]);
        assert(forall|i: int| 0 <= i < 9 ==> sb[i] == #[trigger] db[i + 8]);
    }
    assert(da =~= da1 + sa);
    assert(db =~= db1 + sb);
    lemma_concat_val(da1, sa);
    lemma_concat_val(db1, sb);
    crate::num::lemma_digits_val_bound(sa);
    crate::num::lemma_digits_val_bound(sb);
    crate::num::lemma_digits_val_nonneg(sa);
    crate::num::lemma_digits_val_nonneg(sb);
    crate::num::lemma_digits_val_nonneg(da1);
    crate::num::lemma_digits_val_nonneg(db1);
    let p9 = pow10(9);
    crate::num::lemma_pow10_pos(9);
    let va1 = digits_val(da1);
    let vb1 = digits_val(db1);
    if va1 < vb1 {
        lemma_digit_str_order(da1, db1);
        lemma_lex_prefix_lt(
            da1,
            seq!['T'] + da.subrange(8, 14) + da.subrange(14, 17) + seq!['Z'],
            db1,
            seq!['T'] + db.subrange(8, 14) + db.subrange(14, 17) + seq!['Z'],
        );
        assert(snapshot_id_rep(a) =~= da1 + (seq!['T'] + da.subrange(8, 14) + da.subrange(14, 17)
            + seq!['Z']));
        assert(snapshot_id_rep(b) =~= db1 + (seq!['T'] + db.subrange(8, 14) + db.subrange(14, 17)
            + seq!['Z']));
    } else if va1 > vb1 {
        assert(vb1 * p9 + p9 <= va1 * p9) by (nonlinear_arith)
            requires
                p9 >= 1,
                vb1 + 1 <= va1,
        ;
        assert(false);
    } else {
        lemma_equal_val_equal_str(da1, db1);
        assert(digits_val(sa) < digits_val(sb)) by {
            assert(va1 * p9 == vb1 * p9);
        }
        lemma_digit_str_order(sa, sb);
        lemma_lex_prefix_lt(sa, seq!['Z'], sb, seq!['Z']);
        // compare through the common prefix up to position 8, then the tails
        assert(snapshot_id_rep(a) =~= (da1 + seq!['T']) + (sa + seq!['Z'])) by {
            assert(da.subrange(8, 14) + da.subrange(14, 17) =~= sa);
        }
        assert(snapshot_id_rep(b) =~= (db1 + seq!['T']) + (sb + seq!['Z'])) by {
            assert(db.subrange(8, 14) + db.subrange(14, 17) =~= sb);
        }
        assert(da1 + seq!['T'] =~= db1 + seq!['T']);
        lemma_lex_prefix(da1 + seq!['T'], sa + seq!['Z'], sb + seq!['Z']);
    }
}

/// The 17 digits of a stamp's combined key.
pub open spec fn stamp_digits(t: UtcStamp) -> Seq<char> {
    padded_num(t.year as nat, 4) + padded_num(t.month as nat, 2) + padded_num(t.day as nat, 2)
        + padded_num(t.hour as nat, 2) + padded_num(t.minute as nat, 2) + padded_num(
        t.second as nat,
        2,
    ) + padded_num(t.milli as nat, 3)
}

proof fn lemma_stamp_digits_val(t: UtcStamp)
    requires
        stamp_wf(t),
    ensures
        stamp_digits(t).len() == 17,
        all_digits(stamp_digits(t)),
        digits_val(stamp_digits(t)) == stamp_key(t),
{
    assert(pow10(4) == 10000 && pow10(2) == 100 && pow10(3) == 1000) by {
        reveal_with_fuel(pow10, 6);
    }
    lemma_padded_shape(t.year as nat, 4);
    lemma_padded_shape(t.month as nat, 2);
    lemma_padded_shape(t.day as nat, 2);
    lemma_padded_shape(t.hour as nat, 2);
    lemma_padded_shape(t.minute as nat, 2);
    lemma_padded_shape(t.second as nat, 2);
    lemma_padded_shape(t.milli as nat, 3);
    let parts = seq![
        padded_num(t.year as nat, 4),
        padded_num(t.month as nat, 2),
        padded_num(t.day as nat, 2),
        padded_num(t.hour as nat, 2),
        padded_num(t.minute as nat, 2),
        padded_num(t.second as nat, 2),
        padded_num(t.milli as nat, 3),
    ];
    lemma_concat_val(padded_num(t.year as nat, 4), padded_num(t.month as nat, 2));
    let s1 = padded_num(t.year as nat, 4) + padded_num(t.month as nat, 2);
    lemma_concat_val(s1, padded_num(t.day as nat, 2));
    let s2 = s1 + padded_num(t.day as nat, 2);
    lemma_concat_val(s2, padded_num(t.hour as nat, 2));
    let s3 = s2 + padded_num(t.hour as nat, 2);
    lemma_concat_val(s3, padded_num(t.minute as nat, 2));
    let s4 = s3 + padded_num(t.minute as nat, 2);
    lemma_concat_val(s4, padded_num(t.second as nat, 2));
    let s5 = s4 + padded_num(t.second as nat, 2);
    lemma_concat_val(s5, padded_num(t.milli as nat, 3));
}

/// The value of a concatenation: the left part shifted by the right
/// part's width.
proof fn lemma_concat_val(a: Seq<char>, b: Seq<char>)
    requires
        all_digits(a),
        all_digits(b),
    ensures
        digits_val(a + b) == digits_val(a) * pow10(b.len() as int) + digits_val(b),
        all_digits(a + b),
    decreases b.len(),
{
    if b.len() == 0 {
        assert(a + b =~= a);
        assert(a + b == a);
        assert(pow10(0) == 1);
        assert(digits_val(b) == 0);
        assert(digits_val(a) * 1 == digits_val(a));
    } else {
        assert(all_digits(b.drop_last())) by {
            assert(forall|i: int| 0 <= i < b.len() - 1 ==> b.drop_last()[i] == #[trigger] b[i]);
        }
        lemma_concat_val(a, b.drop_last());
        assert((a + b).drop_last() =~= a + b.drop_last());
        assert((a + b).last() == b.last());
        assert(digits_val(a + b) == digits_val(a + b.drop_last()) * 10 + digit_val(b.last()));
        assert(digits_val(b) == digits_val(b.drop_last()) * 10 + digit_val(b.last()));
        let va = digits_val(a);
        let p = pow10(b.len() - 1);
        assert((va * p + digits_val(b.drop_last())) * 10 == va * (p * 10) + digits_val(
            b.drop_last(),
        ) * 10) by (nonlinear_arith);
        assert(p * 10 == pow10(b.len() as int));
        assert(all_digits(a + b)) by {
            assert(forall|i: int|
                0 <= i < a.len() + b.len() ==> is_digit(#[trigger] (a + b)[i]));
        }
    }
}

proof fn lemma_id_from_digits(t: UtcStamp)
    requires
        stamp_wf(t),
    ensures
        snapshot_id_rep(t) =~= stamp_digits(t).subrange(0, 8) + seq!['T'] + stamp_digits(
            t,
        ).subrange(8, 14) + stamp_digits(t).subrange(14, 17) + seq!['Z'],
{
    lemma_stamp_digits_val(t);
    assert(pow10(4) == 10000 && pow10(2) == 100 && pow10(3) == 1000) by {
        reveal_with_fuel(pow10, 6);
    }
    lemma_padded_shape(t.year as nat, 4);
    lemma_padded_shape(t.month as nat, 2);
    lemma_padded_shape(t.day as nat, 2);
    lemma_padded_shape(t.hour as nat, 2);
    lemma_padded_shape(t.minute as nat, 2);
    lemma_padded_shape(t.second as nat, 2);
    lemma_padded_shape(t.milli as nat, 3);
}


/// When the leading eight digits agree and the values differ, the tail
/// values differ the same way.
proof fn lemma_tail_lt(da: Seq<char>, db: Seq<char>)
    requires
        da.len() == 17,
        db.len() == 17,
        all_digits(da),
        all_digits(db),
        digits_val(da) < digits_val(db),
        da.subrange(0, 8) =~= db.subrange(0, 8),
    ensures
        digits_val(da.subrange(8, 17)) < digits_val(db.subrange(8, 17)),
{
    let ha = da.subrange(0, 8);
    let ta = da.subrange(8, 17);
    let hb = db.subrange(0, 8);
    let tb = db.subrange(8, 17);
    assert(all_digits(ha) && all_digits(ta) && all_digits(hb) && all_digits(tb)) by {
        assert(forall|i: int| 0 <= i < 8 ==> ha[i] == #[trigger] da[i]);
        assert(forall|i: int| 0 <= i < 9 ==> ta[i] == #[trigger] da[i + 8]);
        assert(forall|i: int| 0 <= i < 8 ==> hb[i] == #[trigger] db[i]);
        assert(forall|i: int| 0 <= i < 9 ==> tb[i] == #[trigger] db[i + 8]);
    }
    assert(da =~= ha + ta);
    assert(db =~= hb + tb);
    lemma_concat_val(ha, ta);
    lemma_concat_val(hb, tb);
}

/// What `percent_encoding::percent_decode_str` decodes a byte string to:
/// every `%` followed by two hex digits becomes that byte; all else stays.
pub open spec fn pct_decoded(b: Seq<u8>) -> Seq<u8>
    decreases b.len(),
{
    if b.len() == 0 {
        Seq::empty()
    } else if b[0] == 37 && b.len() >= 3 && hex_val(b[1]) is Some && hex_val(b[2]) is Some {
        seq![(hex_val(b[1])->0 * 16 + hex_val(b[2])->0) as u8] + pct_decoded(b.skip(3))
    } else {
        seq![b[0]] + pct_decoded(b.skip(1))
    }
}

/// The value of one hexadecimal digit byte.
pub open spec fn hex_val(b: u8) -> Option<u8> {
    if 48 <= b <= 57 {
        Some((b - 48) as u8)
    } else if 97 <= b <= 102 {
        Some((b - 87) as u8)
    } else if 65 <= b <= 70 {
        Some((b - 55) as u8)
    } else {
        None
    }
}

/// Relies on `percent_encoding::percent_decode_str` and `decode_utf8`:
/// decodes every `%XX` escape to its byte and fails exactly when the
/// decoded bytes are not UTF-8.
#[verifier::external_body]
pub fn percent_decode_utf8(s: &str) -> (r: Option<String>)
    ensures
        r is Some ==> vstd::utf8::valid_utf8(pct_decoded(s.spec_bytes()))
            && vstd::utf8::encode_utf8(r->0@) == pct_decoded(s.spec_bytes()),
        r is None ==> !vstd::utf8::valid_utf8(pct_decoded(s.spec_bytes())),
{
    match percent_encoding::percent_decode_str(s).decode_utf8() {
        Ok(t) => Some(t.into_owned()),
        Err(_) => None,
    }
}

/// The local path a file URI names: any `file://` prefix removed, percent
/// escapes decoded.
pub open spec fn spec_local_path(s: Seq<char>) -> Seq<u8> {
    let stripped = if s.len() >= 7 && s.subrange(0, 7) == "file://"@ {
        s.skip(7)
    } else {
        s
    };
    pct_decoded(vstd::utf8::encode_utf8(stripped))
}

/// Resolves a `file://` URI (or a plain path) to its local path text;
/// fails only when the decoded bytes are not text.
pub fn local_path_from_file_uri(uri: &str) -> (r: Option<String>)
    ensures
        r is Some ==> vstd::utf8::encode_utf8(r->0@) == spec_local_path(uri@),
        r is None ==> !vstd::utf8::valid_utf8(spec_local_path(uri@)),
{
    let cs = crate::text::str_chars(uri);
    let prefix: &str = "file://";
    proof {
        reveal_strlit("file://");
    }
    let stripped: String = if cs.len() >= 7 {
        let head = crate::num::copy_range(&cs, 0, 7);
        let head_s = crate::text::chars_to_string(&head);
        if crate::text::str_eq(head_s.as_str(), prefix) {
            let tail = crate::num::copy_range(&cs, 7, cs.len());
            proof {
                assert(tail@ =~= uri@.skip(7));
            }
            crate::text::chars_to_string(&tail)
        } else {
            proof {
                assert(!(uri@.subrange(0, 7) == "file://"@));
            }
            uri.to_owned()
        }
    } else {
        uri.to_owned()
    };
    percent_decode_utf8(stripped.as_str())
}

/// `{warehouse}/{namespace}/{name}`: the root of a table on disk.
pub open spec fn spec_table_root(
    warehouse: Seq<char>,
    namespace: Seq<char>,
    name: Seq<char>,
) -> Seq<char> {
    warehouse + seq!['/'] + namespace + seq!['/'] + name
}

/// Joins the warehouse path, the namespace and the table name.
pub fn table_root(warehouse: &str, namespace: &str, name: &str) -> (r: String)
    ensures
        r@ == spec_table_root(warehouse@, namespace@, name@),
{
    let mut s: String = warehouse.to_owned();
    s.append("/");
    s.append(namespace);
    s.append("/");
    s.append(name);
    proof {
        reveal_strlit("/");
        assert(s@ =~= spec_table_root(warehouse@, namespace@, name@));
    }
    s
}

/// `{root}/data`: where a table's snapshots live.
pub fn table_data_dir(root: &str) -> (r: String)
    ensures
        r@ == root@ + "/data"@,
{
    let mut s: String = root.to_owned();
    s.append("/data");
    s
}

/// `{root}/keys_index`: where a table's key projection lives.
pub fn keys_index_root(root: &str) -> (r: String)
    ensures
        r@ == root@ + "/keys_index"@,
{
    let mut s: String = root.to_owned();
    s.append("/keys_index");
    s
}

/// `part-{id}.parquet`: the file name of one snapshot.
pub open spec fn spec_snapshot_file_name(id: Seq<char>) -> Seq<char> {
    "part-"@ + id + ".parquet"@
}

/// Builds the snapshot file name of an id.
pub fn snapshot_file_name(id: &str) -> (r: String)
    ensures
        r@ == spec_snapshot_file_name(id@),
{
    let mut s: String = "part-".to_owned();
    s.append(id);
    s.append(".parquet");
    s
}

} // verus!
