//! Strict per-cell coercion: non-strict casts between cell kinds, the
//! empty-string-is-null cleaning rule, and projection of a frame onto a
//! declared schema.

use vstd::prelude::*;
use crate::dates::{CivilDateTime, spec_parse_date, spec_parse_datetime};
use crate::frame::{Frame, names_view, spec_col_index, wf_frame, wf_row};
use crate::num::{DEC_MAX, spec_parse_dec, spec_parse_i64};
use crate::report::EtlError;
use crate::schema::{
    ArrowLikeSchema, LogicalType, logical_type_from_str, schema_names, schema_type_at,
    schema_types_ok, spec_logical_type_from_str,
};
use crate::value::{VVal, Value, mag_div, trunc_div, value_text, wf_value};

verus! {

/// Truncation of a numeric cell's micro-units to a whole number.
pub open spec fn micros_to_whole(m: int) -> int {
    trunc_div(m, 1000000)
}

/// The non-strict cast of a cell to a logical type: `None`-like failures
/// become null, never errors.
pub open spec fn spec_cast(v: VVal, t: LogicalType) -> VVal {
    match v {
        VVal::Null => VVal::Null,
        _ => match t {
            LogicalType::I64 => cast_to_int(v, i64::MIN as int, i64::MAX as int),
            LogicalType::I32 => cast_to_int(v, i32::MIN as int, i32::MAX as int),
            LogicalType::F64 => cast_to_dec(v),
            LogicalType::F32 => cast_to_dec(v),
            LogicalType::Str => match value_text(v) {
                Some(t) => VVal::Str(t),
                None => VVal::Null,
            },
            LogicalType::Bool => cast_to_bool(v),
            LogicalType::Date => cast_to_date(v),
            LogicalType::Datetime => cast_to_datetime(v),
        },
    }
}

/// Whole-number cast with a range check; out of range or unparseable is
/// null.
pub open spec fn cast_to_int(v: VVal, lo: int, hi: int) -> VVal {
    let n: Option<int> = match v {
        VVal::Bool(b) => Some(
            if b {
                1int
            } else {
                0int
            },
        ),
        VVal::Int(i) => Some(i),
        VVal::Dec(d) => Some(micros_to_whole(d)),
        VVal::Str(s) => match spec_parse_i64(s) {
            Some(i) => Some(i as int),
            None => None,
        },
        VVal::Date(d) => Some(
            crate::dates::spec_days_from_civil(d.year as int, d.month as int, d.day as int),
        ),
        _ => None,
    };
    match n {
        Some(i) => if lo <= i <= hi {
            VVal::Int(i)
        } else {
            VVal::Null
        },
        None => VVal::Null,
    }
}

/// Fixed-point cast; unparseable or out-of-range text is null.
pub open spec fn cast_to_dec(v: VVal) -> VVal {
    match v {
        VVal::Bool(b) => VVal::Dec(
            if b {
                1000000int
            } else {
                0int
            },
        ),
        VVal::Int(i) => crate::value::dec_result(i * 1000000),
        VVal::Dec(d) => VVal::Dec(d),
        VVal::Str(s) => match spec_parse_dec(s) {
            Some(d) => VVal::Dec(d as int),
            None => VVal::Null,
        },
        _ => VVal::Null,
    }
}

pub open spec fn cast_to_bool(v: VVal) -> VVal {
    match v {
        VVal::Bool(b) => VVal::Bool(b),
        VVal::Int(i) => VVal::Bool(i != 0),
        VVal::Str(s) => if s == "true"@ {
            VVal::Bool(true)
        } else if s == "false"@ {
            VVal::Bool(false)
        } else {
            VVal::Null
        },
        _ => VVal::Null,
    }
}

/// Date cast: text parses in the canonical `YYYY-MM-DD` shape — the one
/// shape schema enforcement accepts, deliberately — a date-time keeps its
/// date, and anything else is null. Other text shapes go through the
/// expression layer's format-directed date parsing.
pub open spec fn cast_to_date(v: VVal) -> VVal {
    match v {
        VVal::Date(d) => VVal::Date(d),
        VVal::Datetime(t) => VVal::Date(t.date),
        VVal::Str(s) => match spec_parse_date(s) {
            Some(d) => VVal::Date(d),
            None => VVal::Null,
        },
        _ => VVal::Null,
    }
}

pub open spec fn cast_to_datetime(v: VVal) -> VVal {
    match v {
        VVal::Datetime(t) => VVal::Datetime(t),
        VVal::Date(d) => VVal::Datetime(CivilDateTime { date: d, hour: 0, minute: 0, second: 0 }),
        VVal::Str(s) => match spec_parse_datetime(s) {
            Some(t) => VVal::Datetime(t),
            None => VVal::Null,
        },
        _ => VVal::Null,
    }
}

fn micros_to_whole_exec(d: i128) -> (r: i128)
    requires
        -(DEC_MAX as int) <= d <= DEC_MAX as int,
    ensures
        r as int == micros_to_whole(d as int),
{
    let neg = d < 0;
    let m: u128 = if neg {
        (-d) as u128
    } else {
        d as u128
    };
    let q = m / 1000000;
    proof {
        vstd::arithmetic::div_mod::lemma_div_nonincreasing(m as int, 1000000);
        vstd::arithmetic::div_mod::lemma_div_pos_is_pos(m as int, 1000000);
        assert(mag_div(d as int, 1000000) == q as int);
    }
    if neg {
        -(q as i128)
    } else {
        q as i128
    }
}

/// Casts a cell to a logical type; failures yield null.
pub fn cast_value(v: &Value, t: &LogicalType) -> (r: Value)
    requires
        wf_value(v@),
    ensures
        r@ == spec_cast(v@, *t),
        wf_value(r@),
{
    if let Value::Null = v {
        return Value::Null;
    }
    match t {
        LogicalType::I64 => cast_int_exec(v, i64::MIN, i64::MAX),
        LogicalType::I32 => cast_int_exec(v, i32::MIN as i64, i32::MAX as i64),
        LogicalType::F64 => cast_dec_exec(v),
        LogicalType::F32 => cast_dec_exec(v),
        LogicalType::Str => match crate::value::render_value(v) {
            Some(s) => Value::Str(s),
            None => Value::Null,
        },
        LogicalType::Bool => match v {
            Value::Bool(b) => Value::Bool(*b),
            Value::Int(i) => Value::Bool(*i != 0),
            Value::Str(s) => {
                if crate::text::str_eq(s.as_str(), "true") {
                    Value::Bool(true)
                } else if crate::text::str_eq(s.as_str(), "false") {
                    Value::Bool(false)
                } else {
                    Value::Null
                }
            },
            _ => Value::Null,
        },
        LogicalType::Date => match v {
            Value::Date(d) => Value::Date(*d),
            Value::Datetime(t) => Value::Date(t.date),
            Value::Str(s) => match crate::dates::parse_date(s.as_str()) {
                Some(d) => Value::Date(d),
                None => Value::Null,
            },
            _ => Value::Null,
        },
        LogicalType::Datetime => match v {
            Value::Datetime(t) => Value::Datetime(*t),
            Value::Date(d) => Value::Datetime(
                CivilDateTime { date: *d, hour: 0, minute: 0, second: 0 },
            ),
            Value::Str(s) => match crate::dates::parse_datetime(s.as_str()) {
                Some(t) => Value::Datetime(t),
                None => Value::Null,
            },
            _ => Value::Null,
        },
    }
}

fn cast_int_exec(v: &Value, lo: i64, hi: i64) -> (r: Value)
    requires
        wf_value(v@),
        !(v@ is Null),
    ensures
        r@ == cast_to_int(v@, lo as int, hi as int),
        wf_value(r@),
{
    let n: Option<i64> = match v {
        Value::Bool(b) => Some(
            if *b {
                1
            } else {
                0
            },
        ),
        Value::Int(i) => Some(*i),
        Value::Dec(d) => {
            let w = micros_to_whole_exec(*d);
            proof {
                vstd::arithmetic::div_mod::lemma_div_nonincreasing(
                    (if *d < 0 {
                        -(*d as int)
                    } else {
                        *d as int
                    }),
                    1000000,
                );
            }
            if w < lo as i128 || w > hi as i128 {
                return Value::Null;
            }
            Some(w as i64)
        },
        Value::Str(s) => match crate::num::parse_i64(s.as_str()) {
            Some(i) => Some(i),
            None => {
                return Value::Null;
            },
        },
        Value::Date(d) => Some(crate::dates::days_from_civil(d) as i64),
        _ => {
            return Value::Null;
        },
    };
    match n {
        Some(i) => {
            if lo <= i && i <= hi {
                Value::Int(i)
            } else {
                Value::Null
            }
        },
        None => Value::Null,
    }
}

fn cast_dec_exec(v: &Value) -> (r: Value)
    requires
        wf_value(v@),
        !(v@ is Null),
    ensures
        r@ == cast_to_dec(v@),
        wf_value(r@),
{
    match v {
        Value::Bool(b) => Value::Dec(
            if *b {
                1000000
            } else {
                0
            },
        ),
        Value::Int(i) => Value::Dec((*i as i128) * 1000000),
        Value::Dec(d) => Value::Dec(*d),
        Value::Str(s) => match crate::num::parse_dec_micros(s.as_str()) {
            Some(d) => Value::Dec(d),
            None => Value::Null,
        },
        _ => Value::Null,
    }
}

/// The cleaning rule: an empty text cell counts as null.
pub open spec fn spec_clean(v: VVal) -> VVal {
    match v {
        VVal::Str(s) => if s.len() == 0 {
            VVal::Null
        } else {
            VVal::Str(s)
        },
        _ => v,
    }
}

/// Replaces an empty text cell by null; all else passes through.
pub fn clean_value(v: Value) -> (r: Value)
    ensures
        r@ == spec_clean(v@),
{
    match v {
        Value::Str(s) => {
            if s.as_str().unicode_len() == 0 {
                Value::Null
            } else {
                Value::Str(s)
            }
        },
        other => other,
    }
}

/// How schema enforcement coerces one cell: text targets cast directly;
/// every other target sees empty text as null first, then casts.
pub open spec fn spec_enforce_cell(v: VVal, t: LogicalType) -> VVal {
    if t is Str {
        spec_cast(v, t)
    } else {
        spec_cast(spec_clean(v), t)
    }
}

/// Coerces one cell for a declared target type.
pub fn enforce_cell(v: Value, t: &LogicalType) -> (r: Value)
    requires
        wf_value(v@),
    ensures
        r@ == spec_enforce_cell(v@, *t),
        wf_value(r@),
{
    match t {
        LogicalType::Str => cast_value(&v, t),
        _ => {
            let cleaned = clean_value(v);
            proof {
                assert(wf_value(cleaned@));
            }
            cast_value(&cleaned, t)
        },
    }
}

/// The cell of `row` under source column `n`, null when the source lacks
/// the column.
pub open spec fn spec_source_cell(
    names: Seq<Seq<char>>,
    row: Seq<VVal>,
    n: Seq<char>,
) -> VVal {
    match spec_col_index(names, n) {
        Some(k) => if 0 <= k < row.len() {
            row[k]
        } else {
            VVal::Null
        },
        None => VVal::Null,
    }
}

pub open spec fn row_view(row: Seq<Value>) -> Seq<VVal> {
    row.map(|i: int, v: Value| v@)
}

/// What schema enforcement puts in the cell of field `i`: the source
/// column of the same name (or null), cleaned and cast to the declared
/// type.
pub open spec fn spec_enforced_cell_at(
    schema: ArrowLikeSchema,
    names: Seq<Seq<char>>,
    row: Seq<VVal>,
    i: int,
) -> VVal {
    spec_enforce_cell(
        spec_source_cell(names, row, schema.fields@[i].name@),
        schema_type_at(schema, i),
    )
}

/// Projects one row onto the declared schema.
fn enforce_row(
    row: &Vec<Value>,
    names: &Vec<String>,
    schema: &ArrowLikeSchema,
) -> (r: Vec<Value>)
    requires
        wf_row(row@),
        schema_types_ok(*schema),
    ensures
        r@.len() == schema.fields@.len(),
        forall|i: int|
            0 <= i < r@.len() ==> (#[trigger] r@[i])@ == spec_enforced_cell_at(
                *schema,
                names_view(names@),
                row_view(row@),
                i,
            ),
        wf_row(r@),
{
    let mut out: Vec<Value> = Vec::new();
    let mut i: usize = 0;
    while i < schema.fields.len()
        invariant
            i <= schema.fields@.len(),
            wf_row(row@),
            schema_types_ok(*schema),
            out@.len() == i,
            forall|j: int|
                0 <= j < i ==> (#[trigger] out@[j])@ == spec_enforced_cell_at(
                    *schema,
                    names_view(names@),
                    row_view(row@),
                    j,
                ),
            wf_row(out@),
        decreases schema.fields@.len() - i,
    {
        let f = &schema.fields[i];
        let t = match logical_type_from_str(f.dtype.as_str()) {
            Some(t) => t,
            None => {
                proof {
                    assert(spec_logical_type_from_str(schema.fields@[i as int].dtype@) is Some);
                }
                // unreachable under the schema precondition
                LogicalType::Str
            },
        };
        let base: Value = match crate::frame::find_col(names, f.name.as_str()) {
            Some(k) => {
                if k < row.len() {
                    row[k].clone()
                } else {
                    Value::Null
                }
            },
            None => Value::Null,
        };
        proof {
            assert(base@ == spec_source_cell(
                names_view(names@),
                row_view(row@),
                schema.fields@[i as int].name@,
            ));
        }
        let cell = enforce_cell(base, &t);
        out.push(cell);
        i = i + 1;
    }
    out
}

/// Projects a frame onto a declared schema: columns in schema order,
/// missing source columns null, empty text null for non-text targets, and
/// every cell cast non-strictly to its declared type. Fails exactly when
/// the schema names an unknown type.
pub fn enforce_frame_to_schema(frame: &Frame, schema: &ArrowLikeSchema) -> (r: Result<
    Frame,
    EtlError,
>)
    requires
        wf_frame(*frame),
    ensures
        r is Ok <==> schema_types_ok(*schema),
        r is Err ==> r->Err_0 is UnknownTargetType,
        r is Ok ==> {
            let out = r->Ok_0;
            &&& wf_frame(out)
            &&& names_view(out.names@) =~= schema_names(*schema)
            &&& out.rows@.len() == frame.rows@.len()
            &&& forall|i: int, j: int|
                0 <= i < out.rows@.len() && 0 <= j < schema.fields@.len() ==> (#[trigger] out.rows@[i]@[j])@
                    == spec_enforced_cell_at(
                    *schema,
                    names_view(frame.names@),
                    row_view(frame.rows@[i]@),
                    j,
                )
        },
{
    // reject unknown declared types before any work
    let mut i: usize = 0;
    while i < schema.fields.len()
        invariant
            i <= schema.fields@.len(),
            forall|j: int|
                0 <= j < i ==> spec_logical_type_from_str(
                    #[trigger] schema.fields@[j].dtype@,
                ) is Some,
        decreases schema.fields@.len() - i,
    {
        if logical_type_from_str(schema.fields[i].dtype.as_str()).is_none() {
            return Err(EtlError::UnknownTargetType(schema.fields[i].dtype.clone()));
        }
        i = i + 1;
    }
    let mut names: Vec<String> = Vec::new();
    let mut k: usize = 0;
    while k < schema.fields.len()
        invariant
            k <= schema.fields@.len(),
            names@.len() == k,
            forall|j: int| 0 <= j < k ==> (#[trigger] names@[j])@ == schema.fields@[j].name@,
        decreases schema.fields@.len() - k,
    {
        names.push(schema.fields[k].name.clone());
        k = k + 1;
    }
    let mut rows: Vec<Vec<Value>> = Vec::new();
    let mut ri: usize = 0;
    while ri < frame.rows.len()
        invariant
            ri <= frame.rows@.len(),
            wf_frame(*frame),
            schema_types_ok(*schema),
            rows@.len() == ri,
            forall|i2: int|
                0 <= i2 < ri ==> (#[trigger] rows@[i2])@.len() == schema.fields@.len() && wf_row(
                    rows@[i2]@,
                ),
            forall|i2: int, j: int|
                0 <= i2 < ri && 0 <= j < schema.fields@.len() ==> (#[trigger] rows@[i2]@[j])@
                    == spec_enforced_cell_at(
                    *schema,
                    names_view(frame.names@),
                    row_view(frame.rows@[i2]@),
                    j,
                ),
        decreases frame.rows@.len() - ri,
    {
        let newrow = enforce_row(&frame.rows[ri], &frame.names, schema);
        rows.push(newrow);
        ri = ri + 1;
    }
    let out = Frame { names, rows };
    proof {
        assert(names_view(out.names@) =~= schema_names(*schema));
    }
    Ok(out)
}

} // verus!
