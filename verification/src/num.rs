//! Decimal text for the cell model: rendering integers, and parsing integers
//! and fixed-point decimals exactly, with the grammar the coercion engine
//! accepts.

use vstd::prelude::*;

verus! {

/// Largest magnitude (in micro-units) the decimal cell type holds.
pub const DEC_MAX: u128 = 100000000000000000000000000000000;

pub open spec fn is_digit(c: char) -> bool {
    '0' <= c && c <= '9'
}

pub open spec fn digit_val(c: char) -> int {
    c as u32 - '0' as u32
}

pub open spec fn all_digits(s: Seq<char>) -> bool {
    forall|i: int| 0 <= i < s.len() ==> is_digit(#[trigger] s[i])
}

/// Numeric value of a string of decimal digits (most significant first).
pub open spec fn digits_val(s: Seq<char>) -> int
    decreases s.len(),
{
    if s.len() == 0 {
        0
    } else {
        digits_val(s.drop_last()) * 10 + digit_val(s.last())
    }
}

pub proof fn lemma_digits_val_nonneg(s: Seq<char>)
    requires
        all_digits(s),
    ensures
        digits_val(s) >= 0,
    decreases s.len(),
{
    if s.len() > 0 {
        assert(all_digits(s.drop_last())) by {
            assert(forall|i: int| 0 <= i < s.len() - 1 ==> s.drop_last()[i] == #[trigger] s[i]);
        }
        lemma_digits_val_nonneg(s.drop_last());
    }
}

/// Extending a digit string on the right can only grow its value.
pub proof fn lemma_digits_val_prefix(s: Seq<char>, k: int)
    requires
        all_digits(s),
        0 <= k <= s.len(),
    ensures
        digits_val(s.subrange(0, k)) <= digits_val(s),
    decreases s.len() - k,
{
    if k == s.len() {
        assert(s.subrange(0, k) =~= s);
    } else {
        let p = s.subrange(0, k + 1);
        assert(p.drop_last() =~= s.subrange(0, k));
        assert(all_digits(p));
        lemma_digits_val_nonneg(p.drop_last());
        assert(digits_val(p) == digits_val(p.drop_last()) * 10 + digit_val(p.last()));
        assert(digits_val(p.drop_last()) <= digits_val(p.drop_last()) * 10);
        lemma_digits_val_prefix(s, k + 1);
    }
}

pub open spec fn pow10(n: int) -> int
    decreases n,
{
    if n <= 0 {
        1
    } else {
        10 * pow10(n - 1)
    }
}

pub proof fn lemma_pow10_pos(n: int)
    ensures
        pow10(n) >= 1,
    decreases n,
{
    if n > 0 {
        lemma_pow10_pos(n - 1);
    }
}

pub proof fn lemma_pow10_mono(a: int, b: int)
    requires
        a <= b,
    ensures
        pow10(a) <= pow10(b),
    decreases b - a,
{
    if a < b {
        lemma_pow10_mono(a, b - 1);
        lemma_pow10_pos(b - 1);
    }
}

/// A digit string of `n` characters values below `10^n`.
pub proof fn lemma_digits_val_bound(s: Seq<char>)
    requires
        all_digits(s),
    ensures
        digits_val(s) < pow10(s.len() as int),
    decreases s.len(),
{
    if s.len() == 0 {
    } else {
        assert(all_digits(s.drop_last())) by {
            assert(forall|i: int| 0 <= i < s.len() - 1 ==> s.drop_last()[i] == #[trigger] s[i]);
        }
        lemma_digits_val_bound(s.drop_last());
        assert(digit_val(s.last()) <= 9);
    }
}

pub open spec fn digit_char(d: int) -> char {
    if d == 0 {
        '0'
    } else if d == 1 {
        '1'
    } else if d == 2 {
        '2'
    } else if d == 3 {
        '3'
    } else if d == 4 {
        '4'
    } else if d == 5 {
        '5'
    } else if d == 6 {
        '6'
    } else if d == 7 {
        '7'
    } else if d == 8 {
        '8'
    } else {
        '9'
    }
}

fn digit_char_exec(d: u8) -> (c: char)
    requires
        d < 10,
    ensures
        c == digit_char(d as int),
{
    if d == 0 {
        '0'
    } else if d == 1 {
        '1'
    } else if d == 2 {
        '2'
    } else if d == 3 {
        '3'
    } else if d == 4 {
        '4'
    } else if d == 5 {
        '5'
    } else if d == 6 {
        '6'
    } else if d == 7 {
        '7'
    } else if d == 8 {
        '8'
    } else {
        '9'
    }
}

fn digit_of_char(c: char) -> (r: Option<u8>)
    ensures
        r is Some <==> is_digit(c),
        r is Some ==> r->0 < 10 && r->0 as int == digit_val(c),
{
    if '0' <= c && c <= '9' {
        let v: u32 = c as u32 - '0' as u32;
        Some(v as u8)
    } else {
        None
    }
}

/// The decimal digits of `n`, most significant first.
pub fn render_u128(n: u128) -> (r: Vec<char>)
    ensures
        r@ == dec_rep(n as nat),
    decreases n,
{
    if n < 10 {
        let mut r: Vec<char> = Vec::new();
        r.push(digit_char_exec(n as u8));
        proof {
            assert(r@ =~= dec_rep(n as nat));
        }
        r
    } else {
        let mut r = render_u128(n / 10);
        r.push(digit_char_exec((n % 10) as u8));
        r
    }
}

/// The canonical decimal digit string of a natural number.
pub open spec fn dec_rep(n: nat) -> Seq<char>
    decreases n,
{
    if n < 10 {
        seq![digit_char(n as int)]
    } else {
        dec_rep(n / 10).push(digit_char(n as int % 10))
    }
}

/// Rendering of a signed value: a minus sign for negatives, then digits.
pub open spec fn int_rep(v: int) -> Seq<char> {
    if v < 0 {
        seq!['-'] + dec_rep((-v) as nat)
    } else {
        dec_rep(v as nat)
    }
}

pub fn prepend_minus(digits: Vec<char>) -> (r: Vec<char>)
    ensures
        r@ == seq!['-'] + digits@,
{
    let mut r: Vec<char> = Vec::new();
    r.push('-');
    let mut i: usize = 0;
    while i < digits.len()
        invariant
            i <= digits@.len(),
            r@ =~= seq!['-'] + digits@.subrange(0, i as int),
        decreases digits@.len() - i,
    {
        r.push(digits[i]);
        i = i + 1;
    }
    proof {
        assert(digits@.subrange(0, digits@.len() as int) =~= digits@);
    }
    r
}

/// The decimal string of a 64-bit integer.
pub fn render_i64(n: i64) -> (r: Vec<char>)
    ensures
        r@ == int_rep(n as int),
{
    if n < 0 {
        let mag: u128 = (-(n as i128)) as u128;
        prepend_minus(render_u128(mag))
    } else {
        render_u128(n as u128)
    }
}

/// The decimal string of a 128-bit integer.
pub fn render_i128(n: i128) -> (r: Vec<char>)
    ensures
        n > i128::MIN ==> r@ == int_rep(n as int),
{
    if n < 0 && n > i128::MIN {
        let mag: u128 = (-n) as u128;
        prepend_minus(render_u128(mag))
    } else if n >= 0 {
        render_u128(n as u128)
    } else {
        render_u128(0)
    }
}

/// Valid integer text: an optional sign, then one or more digits.
pub open spec fn valid_int_str(s: Seq<char>) -> bool {
    if s.len() == 0 {
        false
    } else if s[0] == '-' || s[0] == '+' {
        s.len() > 1 && all_digits(s.drop_first())
    } else {
        all_digits(s)
    }
}

/// The value of valid integer text.
pub open spec fn int_str_val(s: Seq<char>) -> int {
    if s.len() > 0 && s[0] == '-' {
        -digits_val(s.drop_first())
    } else if s.len() > 0 && s[0] == '+' {
        digits_val(s.drop_first())
    } else {
        digits_val(s)
    }
}

/// What strict coercion of text to `i64` yields: the value when the text is
/// an optionally signed digit string whose value fits, and nothing otherwise.
pub open spec fn spec_parse_i64(s: Seq<char>) -> Option<i64> {
    if valid_int_str(s) && i64::MIN <= int_str_val(s) <= i64::MAX {
        Some(int_str_val(s) as i64)
    } else {
        None
    }
}

/// Value of a span of digit characters, accumulated left to right, bounded
/// by `cap`.
fn digits_to_u128(digits: &Vec<char>, from: usize, cap: u128) -> (r: Option<u128>)
    requires
        from <= digits@.len(),
        cap <= 0xffffffffffffffffffffffffffff,
    ensures
        r is Some ==> all_digits(digits@.skip(from as int)) && digits_val(
            digits@.skip(from as int),
        ) == r->0 as int && r->0 <= cap,
        r is None ==> !(all_digits(digits@.skip(from as int)) && digits_val(
            digits@.skip(from as int),
        ) <= cap),
{
    let ghost whole = digits@.skip(from as int);
    let mut acc: u128 = 0;
    let mut i: usize = from;
    while i < digits.len()
        invariant
            from <= i <= digits@.len(),
            whole == digits@.skip(from as int),
            cap <= 0xffffffffffffffffffffffffffff,
            all_digits(digits@.subrange(from as int, i as int)),
            acc as int == digits_val(digits@.subrange(from as int, i as int)),
            acc <= cap,
        decreases digits@.len() - i,
    {
        let c = digits[i];
        match digit_of_char(c) {
            Some(d) => {
                proof {
                    assert(digits@.subrange(from as int, i as int + 1).drop_last() =~= digits@
                        .subrange(from as int, i as int));
                    assert(digits@.subrange(from as int, i as int + 1).last() == digits@[i as int]);
                }
                let next = acc * 10 + (d as u128);
                if next > cap {
                    proof {
                        if all_digits(whole) {
                            lemma_digits_val_prefix(whole, i + 1 - from);
                            assert(whole.subrange(0, i + 1 - from) =~= digits@.subrange(
                                from as int,
                                i as int + 1,
                            ));
                        }
                    }
                    return None;
                }
                acc = next;
            },
            None => {
                proof {
                    assert(!all_digits(whole)) by {
                        assert(whole[i - from] == digits@[i as int]);
                    }
                }
                return None;
            },
        }
        i = i + 1;
    }
    proof {
        assert(digits@.subrange(from as int, digits@.len() as int) =~= whole);
    }
    Some(acc)
}

fn all_digits_check(v: &Vec<char>) -> (r: bool)
    ensures
        r == all_digits(v@),
{
    let mut i: usize = 0;
    while i < v.len()
        invariant
            i <= v@.len(),
            forall|j: int| 0 <= j < i ==> is_digit(#[trigger] v@[j]),
        decreases v@.len() - i,
    {
        let c = v[i];
        if !('0' <= c && c <= '9') {
            return false;
        }
        i = i + 1;
    }
    true
}

/// Strict text-to-integer coercion: accepts an optionally signed digit
/// string whose value fits in `i64`, and nothing else.
pub fn parse_i64(s: &str) -> (r: Option<i64>)
    ensures
        r == spec_parse_i64(s@),
{
    let cs = crate::text::str_chars(s);
    if cs.len() == 0 {
        return None;
    }
    let c0 = cs[0];
    let neg = c0 == '-';
    let signed = neg || c0 == '+';
    let from: usize = if signed {
        1
    } else {
        0
    };
    if signed && cs.len() == 1 {
        return None;
    }
    let ghost digits_part = if signed {
        s@.drop_first()
    } else {
        s@
    };
    proof {
        assert(cs@.skip(from as int) =~= digits_part);
    }
    // 2^63 bounds the magnitude of every i64 value
    let mag = digits_to_u128(&cs, from, 9223372036854775808);
    match mag {
        None => {
            proof {
                if all_digits(digits_part) {
                    lemma_digits_val_nonneg(digits_part);
                }
            }
            None
        },
        Some(m) => {
            proof {
                lemma_digits_val_nonneg(digits_part);
            }
            if neg {
                Some((-(m as i128)) as i64)
            } else if m <= 9223372036854775807 {
                Some(m as i64)
            } else {
                None
            }
        },
    }
}

/// The unsigned part of decimal text (the text after any sign).
pub open spec fn dec_body(s: Seq<char>) -> Seq<char> {
    if s.len() > 0 && (s[0] == '-' || s[0] == '+') {
        s.drop_first()
    } else {
        s
    }
}

/// Whether the body splits at `k` into digits, a point, and more digits,
/// with at least one digit in all.
pub open spec fn dec_split_ok(body: Seq<char>, k: int) -> bool {
    &&& 0 <= k <= body.len()
    &&& all_digits(body.subrange(0, k))
    &&& (k == body.len() || (body[k] == '.' && all_digits(body.subrange(k + 1, body.len() as int))))
    &&& (k > 0 || body.len() > k + 1)
}

/// Valid fixed-point decimal text: an optional sign, then digits with at
/// most one decimal point and at least one digit.
pub open spec fn valid_dec_str(s: Seq<char>) -> bool {
    exists|k: int| #[trigger] dec_split_ok(dec_body(s), k)
}

/// The fractional digits of the body split at `k`, cut or padded to six.
pub open spec fn dec_split_frac6(body: Seq<char>, k: int) -> Seq<char> {
    let frac = if k >= body.len() {
        Seq::<char>::empty()
    } else {
        body.subrange(k + 1, body.len() as int)
    };
    if frac.len() >= 6 {
        frac.subrange(0, 6)
    } else {
        frac + Seq::new((6 - frac.len()) as nat, |i: int| '0')
    }
}

/// Micro-unit value of the body split at `k`: the integer digits scaled by
/// one million plus the first six fractional digits scaled into place.
pub open spec fn dec_split_micros(body: Seq<char>, k: int) -> int {
    digits_val(body.subrange(0, k)) * 1000000 + digits_val(dec_split_frac6(body, k))
}

/// Micro-unit value of valid decimal text.
pub open spec fn dec_str_micros(s: Seq<char>) -> int {
    let body = dec_body(s);
    let k = choose|k: int| #[trigger] dec_split_ok(body, k);
    let mag = dec_split_micros(body, k);
    if s.len() > 0 && s[0] == '-' {
        -mag
    } else {
        mag
    }
}

/// What strict coercion of text to the fixed-point decimal type yields:
/// micro-units when the text is a plain decimal numeral (fractional digits
/// beyond the sixth ignored) within range, and nothing otherwise.
pub open spec fn spec_parse_dec(s: Seq<char>) -> Option<i128> {
    if valid_dec_str(s) && -(DEC_MAX as int) <= dec_str_micros(s) <= DEC_MAX as int {
        Some(dec_str_micros(s) as i128)
    } else {
        None
    }
}

/// At most one split position can satisfy the decimal grammar; it is the
/// first position holding a point, or the end.
proof fn lemma_split_at_first_dot(body: Seq<char>, kk: int)
    requires
        0 <= kk <= body.len(),
        forall|i: int| 0 <= i < kk ==> #[trigger] body[i] != '.',
        kk < body.len() ==> body[kk] == '.',
    ensures
        forall|j: int| #[trigger] dec_split_ok(body, j) ==> j == kk,
{
    assert forall|j: int| #[trigger] dec_split_ok(body, j) implies j == kk by {
        if j < kk {
            assert(j < body.len());
            assert(body[j] == '.');
        } else if j > kk {
            assert(kk < body.len());
            assert(body.subrange(0, j)[kk] == body[kk]);
            assert(is_digit(body[kk]));
        }
    }
}

/// Strict text-to-decimal coercion, yielding micro-units.
pub fn parse_dec_micros(s: &str) -> (r: Option<i128>)
    ensures
        r == spec_parse_dec(s@),
{
    let cs = crate::text::str_chars(s);
    let ghost body = dec_body(s@);
    if cs.len() == 0 {
        proof {
            lemma_split_at_first_dot(body, 0);
        }
        return None;
    }
    let c0 = cs[0];
    let neg = c0 == '-';
    let signed = neg || c0 == '+';
    let from: usize = if signed {
        1
    } else {
        0
    };
    proof {
        assert(cs@.skip(from as int) =~= body);
    }
    // find the decimal point, if any
    let mut k: usize = from;
    while k < cs.len() && cs[k] != '.'
        invariant
            from <= k <= cs@.len(),
            forall|i: int| from <= i < k ==> cs@[i] != '.',
        decreases cs@.len() - k,
    {
        k = k + 1;
    }
    let ghost kk = k - from;
    proof {
        assert(forall|i: int| 0 <= i < kk ==> #[trigger] body[i] != '.') by {
            assert(forall|i: int|
                0 <= i < kk ==> #[trigger] body[i] == cs@[i + from] && cs@[i + from] != '.');
        }
        if k < cs@.len() {
            assert(body[kk] == cs@[k as int]);
        }
        lemma_split_at_first_dot(body, kk);
    }
    let int_digits = copy_range(&cs, from, k);
    let frac_digits: Vec<char> = if k < cs.len() {
        copy_range(&cs, k + 1, cs.len())
    } else {
        Vec::new()
    };
    proof {
        assert(int_digits@ =~= body.subrange(0, kk));
        if k < cs@.len() {
            assert(frac_digits@ =~= body.subrange(kk + 1, body.len() as int));
        }
    }
    let int_ok = all_digits_check(&int_digits);
    let frac_ok = all_digits_check(&frac_digits);
    let valid = int_ok && frac_ok && (int_digits.len() > 0 || frac_digits.len() > 0);
    proof {
        assert(valid == dec_split_ok(body, kk));
        if valid {
            assert(valid_dec_str(s@));
        }
    }
    if !valid {
        proof {
            if valid_dec_str(s@) {
                let jw = choose|j: int| #[trigger] dec_split_ok(dec_body(s@), j);
                assert(dec_split_ok(body, jw));
                assert(jw == kk);
            }
        }
        return None;
    }
    // value of the split: uniqueness ties the chosen split to `kk`
    proof {
        let kc = choose|j: int| #[trigger] dec_split_ok(body, j);
        assert(dec_split_ok(body, kc));
        assert(kc == kk);
    }
    let mut frac6: Vec<char> = Vec::new();
    let mut j: usize = 0;
    while j < 6
        invariant
            j <= 6,
            frac6@.len() == j,
            forall|i: int|
                0 <= i < j ==> frac6@[i] == (if i < frac_digits@.len() {
                    frac_digits@[i]
                } else {
                    '0'
                }),
        decreases 6 - j,
    {
        if j < frac_digits.len() {
            frac6.push(frac_digits[j]);
        } else {
            frac6.push('0');
        }
        j = j + 1;
    }
    proof {
        assert(frac6@ =~= dec_split_frac6(body, kk));
        assert(all_digits(frac6@));
        lemma_digits_val_bound(frac6@);
        assert(pow10(6) == 1000000) by {
            reveal_with_fuel(pow10, 8);
        }
    }
    let fpart = digits_to_u128(&frac6, 0, DEC_MAX);
    let fp: u128 = match fpart {
        Some(v) => v,
        None => {
            proof {
                assert(frac6@.skip(0) =~= frac6@);
                assert(false);
            }
            0
        },
    };
    proof {
        lemma_digits_val_nonneg(int_digits@);
    }
    let ipart = digits_to_u128(&int_digits, 0, DEC_MAX);
    let ip: u128 = match ipart {
        Some(v) => v,
        None => {
            proof {
                assert(int_digits@.skip(0) =~= int_digits@);
                assert(digits_val(int_digits@) > DEC_MAX as int);
                lemma_digits_val_nonneg(frac6@);
                assert(digits_val(int_digits@) * 1000000 > DEC_MAX as int);
                assert(dec_split_micros(body, kk) > DEC_MAX as int);
                assert(dec_str_micros(s@) == if s@.len() > 0 && s@[0] == '-' {
                    -dec_split_micros(body, kk)
                } else {
                    dec_split_micros(body, kk)
                });
            }
            return None;
        },
    };
    proof {
        assert(int_digits@.skip(0) =~= int_digits@);
        assert(frac6@.skip(0) =~= frac6@);
    }
    let mag: u128 = ip * 1000000 + fp;
    proof {
        assert(mag as int == dec_split_micros(body, kk));
    }
    if mag > DEC_MAX {
        return None;
    }
    if neg {
        Some(-(mag as i128))
    } else {
        Some(mag as i128)
    }
}

pub fn copy_range(v: &Vec<char>, from: usize, to: usize) -> (r: Vec<char>)
    requires
        from <= to <= v@.len(),
    ensures
        r@ == v@.subrange(from as int, to as int),
{
    let mut r: Vec<char> = Vec::new();
    let mut i: usize = from;
    while i < to
        invariant
            from <= i <= to <= v@.len(),
            r@ == v@.subrange(from as int, i as int),
        decreases to - i,
    {
        r.push(v[i]);
        i = i + 1;
    }
    r
}

} // verus!
