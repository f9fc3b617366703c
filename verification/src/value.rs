//! The cell model: a tagged value with null, and the comparison, arithmetic
//! and text-rendering rules the expression engine gives cells.

use vstd::prelude::*;
use crate::dates::{
    CivilDate, CivilDateTime, date_rep, date_valid, datetime_rep, datetime_valid,
};
use crate::num::{DEC_MAX, dec_rep, int_rep};

verus! {

/// One cell of a frame. Fractional numbers are fixed-point micro-units.
#[derive(Debug)]
pub enum Value {
    Null,
    Bool(bool),
    Int(i64),
    Dec(i128),
    Str(String),
    Date(CivilDate),
    Datetime(CivilDateTime),
}

impl Clone for Value {
    fn clone(&self) -> (r: Value)
        ensures
            r == *self,
    {
        match self {
            Value::Null => Value::Null,
            Value::Bool(b) => Value::Bool(*b),
            Value::Int(i) => Value::Int(*i),
            Value::Dec(d) => Value::Dec(*d),
            Value::Str(s) => Value::Str(s.clone()),
            Value::Date(d) => Value::Date(*d),
            Value::Datetime(t) => Value::Datetime(*t),
        }
    }
}

/// The mathematical value of a cell: integers unbounded, text as its
/// character sequence.
pub enum VVal {
    Null,
    Bool(bool),
    Int(int),
    Dec(int),
    Str(Seq<char>),
    Date(CivilDate),
    Datetime(CivilDateTime),
}

impl View for Value {
    type V = VVal;

    open spec fn view(&self) -> VVal {
        match *self {
            Value::Null => VVal::Null,
            Value::Bool(b) => VVal::Bool(b),
            Value::Int(i) => VVal::Int(i as int),
            Value::Dec(d) => VVal::Dec(d as int),
            Value::Str(s) => VVal::Str(s@),
            Value::Date(d) => VVal::Date(d),
            Value::Datetime(t) => VVal::Datetime(t),
        }
    }
}

/// A well-formed cell: integers and decimals within machine range, dates
/// and times real.
pub open spec fn wf_value(v: VVal) -> bool {
    match v {
        VVal::Int(i) => i64::MIN <= i <= i64::MAX,
        VVal::Dec(d) => -(DEC_MAX as int) <= d <= DEC_MAX as int,
        VVal::Date(d) => date_valid(d),
        VVal::Datetime(t) => datetime_valid(t),
        _ => true,
    }
}

pub open spec fn is_null(v: VVal) -> bool {
    v is Null
}

/// Lexicographic order of two character sequences: negative, zero, or
/// positive as the first is below, equal to, or above the second.
pub open spec fn lex_cmp_chars(a: Seq<char>, b: Seq<char>) -> int
    decreases a.len(),
{
    if a.len() == 0 && b.len() == 0 {
        0
    } else if a.len() == 0 {
        -1
    } else if b.len() == 0 {
        1
    } else if a[0] < b[0] {
        -1
    } else if a[0] > b[0] {
        1
    } else {
        lex_cmp_chars(a.drop_first(), b.drop_first())
    }
}

fn lex_cmp_exec(a: &Vec<char>, b: &Vec<char>, i: usize) -> (r: i8)
    requires
        i <= a@.len(),
        i <= b@.len(),
    ensures
        r as int == lex_cmp_chars(a@.skip(i as int), b@.skip(i as int)),
    decreases a@.len() - i,
{
    proof {
        if a@.len() > i {
            assert(a@.skip(i as int)[0] == a@[i as int]);
            assert(a@.skip(i as int).drop_first() =~= a@.skip(i as int + 1));
        }
        if b@.len() > i {
            assert(b@.skip(i as int)[0] == b@[i as int]);
            assert(b@.skip(i as int).drop_first() =~= b@.skip(i as int + 1));
        }
        assert(a@.skip(i as int).len() == a@.len() - i);
        assert(b@.skip(i as int).len() == b@.len() - i);
    }
    if i == a.len() && i == b.len() {
        0
    } else if i == a.len() {
        -1
    } else if i == b.len() {
        1
    } else {
        let ca = a[i];
        let cb = b[i];
        if ca < cb {
            -1
        } else if ca > cb {
            1
        } else {
            lex_cmp_exec(a, b, i + 1)
        }
    }
}

/// Lexicographic comparison of two strings.
pub fn str_lex_cmp(a: &str, b: &str) -> (r: i8)
    ensures
        r as int == lex_cmp_chars(a@, b@),
{
    let va = crate::text::str_chars(a);
    let vb = crate::text::str_chars(b);
    proof {
        assert(va@.skip(0) =~= a@);
        assert(vb@.skip(0) =~= b@);
    }
    lex_cmp_exec(&va, &vb, 0)
}

pub open spec fn sign_of(n: int) -> int {
    if n < 0 {
        -1
    } else if n > 0 {
        1
    } else {
        0
    }
}

pub open spec fn date_key(d: CivilDate) -> int {
    d.year * 10000 + d.month * 100 + d.day
}

pub open spec fn datetime_key(t: CivilDateTime) -> int {
    date_key(t.date) * 1000000 + t.hour * 10000 + t.minute * 100 + t.second
}

/// Comparison of two cells: `None` when either is null or the kinds are not
/// comparable; otherwise the sign of the difference. Integers and decimals
/// compare numerically across the two kinds.
pub open spec fn spec_cmp(a: VVal, b: VVal) -> Option<int> {
    match (a, b) {
        (VVal::Int(x), VVal::Int(y)) => Some(sign_of(x - y)),
        (VVal::Int(x), VVal::Dec(y)) => Some(sign_of(x * 1000000 - y)),
        (VVal::Dec(x), VVal::Int(y)) => Some(sign_of(x - y * 1000000)),
        (VVal::Dec(x), VVal::Dec(y)) => Some(sign_of(x - y)),
        (VVal::Str(x), VVal::Str(y)) => Some(lex_cmp_chars(x, y)),
        (VVal::Bool(x), VVal::Bool(y)) => Some(
            sign_of((if x {
                1int
            } else {
                0int
            }) - (if y {
                1int
            } else {
                0int
            })),
        ),
        (VVal::Date(x), VVal::Date(y)) => Some(sign_of(date_key(x) - date_key(y))),
        (VVal::Datetime(x), VVal::Datetime(y)) => Some(
            sign_of(datetime_key(x) - datetime_key(y)),
        ),
        _ => None,
    }
}

/// Compares two cells; `None` for null or incomparable operands.
pub fn cmp_values(a: &Value, b: &Value) -> (r: Option<i8>)
    requires
        wf_value(a@),
        wf_value(b@),
    ensures
        match spec_cmp(a@, b@) {
            Some(s) => r is Some && r->0 as int == s,
            None => r is None,
        },
{
    match (a, b) {
        (Value::Int(x), Value::Int(y)) => Some(cmp_i128(*x as i128, *y as i128)),
        (Value::Int(x), Value::Dec(y)) => Some(cmp_i128((*x as i128) * 1000000, *y)),
        (Value::Dec(x), Value::Int(y)) => Some(cmp_i128(*x, (*y as i128) * 1000000)),
        (Value::Dec(x), Value::Dec(y)) => Some(cmp_i128(*x, *y)),
        (Value::Str(x), Value::Str(y)) => Some(str_lex_cmp(x.as_str(), y.as_str())),
        (Value::Bool(x), Value::Bool(y)) => {
            let xv: i128 = if *x {
                1
            } else {
                0
            };
            let yv: i128 = if *y {
                1
            } else {
                0
            };
            Some(cmp_i128(xv, yv))
        },
        (Value::Date(x), Value::Date(y)) => {
            let xk: i128 = (x.year as i128) * 10000 + (x.month as i128) * 100 + (x.day as i128);
            let yk: i128 = (y.year as i128) * 10000 + (y.month as i128) * 100 + (y.day as i128);
            Some(cmp_i128(xk, yk))
        },
        (Value::Datetime(x), Value::Datetime(y)) => {
            let xd: i128 = (x.date.year as i128) * 10000 + (x.date.month as i128) * 100
                + (x.date.day as i128);
            let yd: i128 = (y.date.year as i128) * 10000 + (y.date.month as i128) * 100
                + (y.date.day as i128);
            let xk: i128 = xd * 1000000 + (x.hour as i128) * 10000 + (x.minute as i128) * 100 + (
            x.second as i128);
            let yk: i128 = yd * 1000000 + (y.hour as i128) * 10000 + (y.minute as i128) * 100 + (
            y.second as i128);
            Some(cmp_i128(xk, yk))
        },
        _ => None,
    }
}

fn cmp_i128(x: i128, y: i128) -> (r: i8)
    requires
        -0x40000000000000000000000000000000 <= x <= 0x40000000000000000000000000000000,
        -0x40000000000000000000000000000000 <= y <= 0x40000000000000000000000000000000,
    ensures
        r as int == sign_of(x - y),
{
    if x < y {
        -1
    } else if x > y {
        1
    } else {
        0
    }
}

/// Magnitude division, the building block of truncating division.
pub open spec fn mag_div(a: int, b: int) -> int {
    (if a < 0 {
        -a
    } else {
        a
    }) / (if b < 0 {
        -b
    } else {
        b
    })
}

/// Division truncated toward zero, as the engine divides.
pub open spec fn trunc_div(a: int, b: int) -> int {
    if (a < 0) != (b < 0) {
        -mag_div(a, b)
    } else {
        mag_div(a, b)
    }
}

/// The arithmetic of the engine on two cells, by operator. Any null or
/// non-numeric operand, division by zero, or a result out of range yields
/// null.
pub open spec fn spec_arith(op: char, a: VVal, b: VVal) -> VVal {
    match (numeric_of(a), numeric_of(b)) {
        (Some(x), Some(y)) => {
            if op == '/' {
                if y == 0 {
                    VVal::Null
                } else {
                    dec_result(trunc_div(x * 1000000, y))
                }
            } else if both_int(a, b) {
                let r = if op == '+' {
                    int_val(a) + int_val(b)
                } else if op == '-' {
                    int_val(a) - int_val(b)
                } else {
                    int_val(a) * int_val(b)
                };
                if i64::MIN <= r <= i64::MAX {
                    VVal::Int(r)
                } else {
                    VVal::Null
                }
            } else {
                let r = if op == '+' {
                    x + y
                } else if op == '-' {
                    x - y
                } else {
                    trunc_div(x * y, 1000000)
                };
                dec_result(r)
            }
        },
        _ => VVal::Null,
    }
}

/// The micro-unit value of a numeric cell.
pub open spec fn numeric_of(v: VVal) -> Option<int> {
    match v {
        VVal::Int(i) => Some(i * 1000000),
        VVal::Dec(d) => Some(d),
        _ => None,
    }
}

pub open spec fn both_int(a: VVal, b: VVal) -> bool {
    a is Int && b is Int
}

pub open spec fn int_val(v: VVal) -> int {
    match v {
        VVal::Int(i) => i,
        _ => 0,
    }
}

pub open spec fn dec_result(r: int) -> VVal {
    if -(DEC_MAX as int) <= r <= DEC_MAX as int {
        VVal::Dec(r)
    } else {
        VVal::Null
    }
}

fn abs_u128(x: i128) -> (r: u128)
    ensures
        r as int == (if x < 0 {
            -(x as int)
        } else {
            x as int
        }),
{
    if x == i128::MIN {
        170141183460469231731687303715884105728
    } else if x < 0 {
        (-x) as u128
    } else {
        x as u128
    }
}

/// Truncating division on machine decimals.
fn trunc_div_exec(a: i128, b: i128) -> (r: i128)
    requires
        b != 0,
        !(a == i128::MIN && (b == 1 || b == -1)),
    ensures
        r as int == trunc_div(a as int, b as int),
{
    let ma = abs_u128(a);
    let mb = abs_u128(b);
    let mq = ma / mb;
    proof {
        vstd::arithmetic::div_mod::lemma_div_nonincreasing(ma as int, mb as int);
        if ma == 170141183460469231731687303715884105728 {
            vstd::arithmetic::div_mod::lemma_div_is_ordered_by_denominator(ma as int, 2, mb as int);
        }
    }
    if (a < 0) != (b < 0) {
        -(mq as i128)
    } else {
        mq as i128
    }
}

/// Performs `a op b` with the engine's numeric rules.
pub fn arith_values(op: char, a: &Value, b: &Value) -> (r: Value)
    requires
        op == '+' || op == '-' || op == '*' || op == '/',
        wf_value(a@),
        wf_value(b@),
    ensures
        r@ == spec_arith(op, a@, b@),
        wf_value(r@),
{
    let xo: Option<i128> = match a {
        Value::Int(i) => Some((*i as i128) * 1000000),
        Value::Dec(d) => Some(*d),
        _ => None,
    };
    let yo: Option<i128> = match b {
        Value::Int(i) => Some((*i as i128) * 1000000),
        Value::Dec(d) => Some(*d),
        _ => None,
    };
    let x = match xo {
        Some(v) => v,
        None => {
            return Value::Null;
        },
    };
    let y = match yo {
        Some(v) => v,
        None => {
            return Value::Null;
        },
    };
    if op == '/' {
        if y == 0 {
            return Value::Null;
        }
        // |x| * 1e6 stays within i128 because |x| is capped
        let scaled: i128 = x * 1000000;
        let q = trunc_div_exec(scaled, y);
        return dec_result_exec(q);
    }
    let a_int: Option<i64> = match a {
        Value::Int(i) => Some(*i),
        _ => None,
    };
    let b_int: Option<i64> = match b {
        Value::Int(i) => Some(*i),
        _ => None,
    };
    match (a_int, b_int) {
        (Some(ia), Some(ib)) => {
            let r: i128 = if op == '+' {
                (ia as i128) + (ib as i128)
            } else if op == '-' {
                (ia as i128) - (ib as i128)
            } else {
                proof {
                    let pa = ia as int;
                    let pb = ib as int;
                    let ma = if pa < 0 {
                        -pa
                    } else {
                        pa
                    };
                    let mb = if pb < 0 {
                        -pb
                    } else {
                        pb
                    };
                    vstd::arithmetic::mul::lemma_mul_upper_bound(
                        ma,
                        0x8000000000000000,
                        mb,
                        0x8000000000000000,
                    );
                    assert(pa * pb == ma * mb || pa * pb == -(ma * mb)) by (nonlinear_arith)
                        requires
                            ma == (if pa < 0 {
                                -pa
                            } else {
                                pa
                            }),
                            mb == (if pb < 0 {
                                -pb
                            } else {
                                pb
                            }),
                    ;
                }
                (ia as i128) * (ib as i128)
            };
            if -0x8000000000000000 <= r && r <= 0x7fffffffffffffff {
                Value::Int(r as i64)
            } else {
                Value::Null
            }
        },
        _ => {
            if op == '+' {
                dec_result_exec(x + y)
            } else if op == '-' {
                dec_result_exec(x - y)
            } else {
                match x.checked_mul(y) {
                    Some(p) => {
                        let q = trunc_div_exec(p, 1000000);
                        dec_result_exec(q)
                    },
                    None => {
                        proof {
                            lemma_big_product_out_of_range(x as int, y as int);
                        }
                        Value::Null
                    },
                }
            }
        },
    }
}

/// A product too large for the machine type is far outside the decimal
/// range even after rescaling.
proof fn lemma_big_product_out_of_range(x: int, y: int)
    requires
        -(DEC_MAX as int) <= x <= DEC_MAX as int,
        -(DEC_MAX as int) <= y <= DEC_MAX as int,
        x * y > i128::MAX || x * y < i128::MIN,
    ensures
        trunc_div(x * y, 1000000) > DEC_MAX as int || trunc_div(x * y, 1000000) < -(
        DEC_MAX as int),
{
    let p = x * y;
    let m = if p < 0 {
        -p
    } else {
        p
    };
    assert(m > i128::MAX);
    assert(mag_div(p, 1000000) == m / 1000000);
    vstd::arithmetic::div_mod::lemma_fundamental_div_mod(m, 1000000);
    assert(m / 1000000 * 1000000 + m % 1000000 == m);
    assert(m % 1000000 < 1000000);
    assert(m / 1000000 > DEC_MAX as int) by {
        if m / 1000000 <= DEC_MAX as int {
            assert(m / 1000000 * 1000000 <= DEC_MAX as int * 1000000) by (nonlinear_arith)
                requires
                    m / 1000000 <= DEC_MAX as int,
            ;
        }
    }
}

fn dec_result_exec(r: i128) -> (v: Value)
    ensures
        v@ == dec_result(r as int),
        wf_value(v@),
{
    if -100000000000000000000000000000000 <= r && r <= 100000000000000000000000000000000 {
        Value::Dec(r)
    } else {
        Value::Null
    }
}

/// The trailing zeros dropped from the right of a digit string.
pub open spec fn strip_zeros(s: Seq<char>) -> Seq<char>
    decreases s.len(),
{
    if s.len() > 0 && s[s.len() - 1] == '0' {
        strip_zeros(s.drop_last())
    } else {
        s
    }
}

fn strip_zeros_exec(v: Vec<char>) -> (r: Vec<char>)
    ensures
        r@ == strip_zeros(v@),
{
    let mut v = v;
    let ghost orig = v@;
    while v.len() > 0 && v[v.len() - 1] == '0'
        invariant
            strip_zeros(orig) == strip_zeros(v@),
        decreases v@.len(),
    {
        proof {
            assert(v@.drop_last() =~= v@.subrange(0, v@.len() - 1));
        }
        let _ = v.pop();
    }
    v
}

/// The canonical decimal text of a fixed-point value: integer digits, then
/// a point and the fraction with trailing zeros removed, when any.
pub open spec fn dec_text(d: int) -> Seq<char> {
    let m = if d < 0 {
        -d
    } else {
        d
    };
    let whole = m / 1000000;
    let frac = m % 1000000;
    if frac == 0 {
        int_rep(if d < 0 {
            -whole
        } else {
            whole
        })
    } else {
        let digits = dec_rep(whole as nat) + seq!['.'] + strip_zeros(
            crate::dates::padded_num(frac as nat, 6),
        );
        if d < 0 {
            seq!['-'] + digits
        } else {
            digits
        }
    }
}

/// Renders a fixed-point decimal value canonically.
pub fn render_dec(d: i128) -> (r: Vec<char>)
    requires
        -(DEC_MAX as int) <= d <= DEC_MAX as int,
    ensures
        r@ == dec_text(d as int),
{
    let m = abs_u128(d);
    let whole: u128 = m / 1000000;
    let frac: u128 = m % 1000000;
    if frac == 0 {
        if d < 0 {
            proof {
                vstd::arithmetic::div_mod::lemma_div_pos_is_pos(m as int, 1000000);
            }
            let digits = crate::num::render_u128(whole);
            let r = crate::num::prepend_minus(digits);
            proof {
                assert(whole > 0) by {
                    vstd::arithmetic::div_mod::lemma_fundamental_div_mod(m as int, 1000000);
                }
                assert(dec_text(d as int) == seq!['-'] + dec_rep(whole as nat));
            }
            r
        } else {
            crate::num::render_u128(whole)
        }
    } else {
        let mut out: Vec<char> = Vec::new();
        if d < 0 {
            out.push('-');
        }
        let wd = crate::num::render_u128(whole);
        let mut i: usize = 0;
        while i < wd.len()
            invariant
                i <= wd@.len(),
                out@ =~= (if d < 0 {
                    seq!['-']
                } else {
                    Seq::<char>::empty()
                }) + wd@.subrange(0, i as int),
            decreases wd@.len() - i,
        {
            out.push(wd[i]);
            i = i + 1;
        }
        out.push('.');
        let fd = crate::dates::render_padded(frac as u64, 6);
        let fs = strip_zeros_exec(fd);
        let mut j: usize = 0;
        while j < fs.len()
            invariant
                j <= fs@.len(),
                out@ =~= (if d < 0 {
                    seq!['-']
                } else {
                    Seq::<char>::empty()
                }) + wd@.subrange(0, wd@.len() as int) + seq!['.'] + fs@.subrange(0, j as int),
            decreases fs@.len() - j,
        {
            out.push(fs[j]);
            j = j + 1;
        }
        proof {
            assert(wd@.subrange(0, wd@.len() as int) =~= wd@);
            assert(fs@.subrange(0, fs@.len() as int) =~= fs@);
            assert(out@ =~= dec_text(d as int));
        }
        out
    }
}

/// The text a cell casts to: nothing for null, canonical text otherwise.
pub open spec fn value_text(v: VVal) -> Option<Seq<char>> {
    match v {
        VVal::Null => None,
        VVal::Bool(b) => Some(
            if b {
                "true"@
            } else {
                "false"@
            },
        ),
        VVal::Int(i) => Some(int_rep(i)),
        VVal::Dec(d) => Some(dec_text(d)),
        VVal::Str(s) => Some(s),
        VVal::Date(d) => Some(date_rep(d)),
        VVal::Datetime(t) => Some(datetime_rep(t)),
    }
}

/// Renders a cell as text; null stays null.
pub fn render_value(v: &Value) -> (r: Option<String>)
    requires
        wf_value(v@),
    ensures
        match value_text(v@) {
            Some(t) => r is Some && r->0@ == t,
            None => r is None,
        },
{
    match v {
        Value::Null => None,
        Value::Bool(b) => {
            if *b {
                let s: String = "true".to_owned();
                Some(s)
            } else {
                let s: String = "false".to_owned();
                Some(s)
            }
        },
        Value::Int(i) => {
            let cs = crate::num::render_i64(*i);
            Some(crate::text::chars_to_string(&cs))
        },
        Value::Dec(d) => {
            let cs = render_dec(*d);
            Some(crate::text::chars_to_string(&cs))
        },
        Value::Str(s) => Some(s.clone()),
        Value::Date(d) => {
            let cs = crate::dates::render_date(d);
            Some(crate::text::chars_to_string(&cs))
        },
        Value::Datetime(t) => {
            let cs = crate::dates::render_datetime(t);
            Some(crate::text::chars_to_string(&cs))
        },
    }
}

} // verus!
