//! The expression IR and its evaluator: column references, literals, and
//! call nodes for arithmetic, comparison, casts, date parsing, zero
//! padding, conditionals and null tests.

use vstd::prelude::*;
use crate::frame::{has_name, names_view, spec_col_index};
use crate::num::DEC_MAX;
use crate::report::EtlError;
use crate::schema::LogicalType;
use crate::text::{spec_pad_left_zeros, str_eq};
use crate::value::{VVal, Value, spec_arith, spec_cmp, value_text, wf_value};
use crate::coerce::{row_view, spec_cast};

verus! {

/// A literal of the IR: null, a boolean, an integer, a fixed-point
/// decimal, or text.
#[derive(Debug)]
pub enum Literal {
    Null,
    Bool(bool),
    Int(i64),
    Dec(i128),
    Str(String),
}

impl Clone for Literal {
    fn clone(&self) -> (r: Literal)
        ensures
            r == *self,
    {
        match self {
            Literal::Null => Literal::Null,
            Literal::Bool(b) => Literal::Bool(*b),
            Literal::Int(i) => Literal::Int(*i),
            Literal::Dec(d) => Literal::Dec(*d),
            Literal::Str(s) => Literal::Str(s.clone()),
        }
    }
}

/// The cell a literal stands for.
pub open spec fn lit_val(l: Literal) -> VVal {
    match l {
        Literal::Null => VVal::Null,
        Literal::Bool(b) => VVal::Bool(b),
        Literal::Int(i) => VVal::Int(i as int),
        Literal::Dec(d) => VVal::Dec(d as int),
        Literal::Str(s) => VVal::Str(s@),
    }
}

/// The expression IR: a reference to an input column, a literal, or a
/// call node whose `fn_` selects the operation.
#[derive(Debug)]
pub enum ExprIR {
    Col { col: String },
    Lit { lit: Literal },
    Call {
        fn_: String,
        args: Vec<ExprIR>,
        to: Option<String>,
        fmt: Option<String>,
        len: Option<usize>,
        pred: Option<Box<ExprIR>>,
        then_br: Option<Box<ExprIR>>,
        else_br: Option<Box<ExprIR>>,
    },
}

/// Whether `f` names a binary arithmetic or comparison operator.
pub open spec fn is_binop_name(f: Seq<char>) -> bool {
    ||| f == "+"@
    ||| f == "-"@
    ||| f == "*"@
    ||| f == "/"@
    ||| f == "=="@
    ||| f == "!="@
    ||| f == ">"@
    ||| f == ">="@
    ||| f == "<"@
    ||| f == "<="@
}

/// The logical type a `cast` target name denotes; only these four targets
/// are supported.
pub open spec fn spec_cast_target(t: Seq<char>) -> Option<LogicalType> {
    if t == "i64"@ {
        Some(LogicalType::I64)
    } else if t == "f64"@ {
        Some(LogicalType::F64)
    } else if t == "utf8"@ || t == "str"@ {
        Some(LogicalType::Str)
    } else if t == "date32"@ || t == "date"@ {
        Some(LogicalType::Date)
    } else {
        None
    }
}

/// A `to_date` format the engine accepts: any format of the supported
/// directive set.
pub open spec fn fmt_ok(fmt: Option<String>) -> bool {
    match fmt {
        None => true,
        Some(f) => crate::dates::fmt_wf(f@),
    }
}

/// The format a `to_date` node parses with: its own, or the ISO default.
pub open spec fn fmt_seq(fmt: Option<String>) -> Seq<char> {
    match fmt {
        Some(f) => f@,
        None => "%Y-%m-%d"@,
    }
}

/// A well-formed expression over the given input columns: every column
/// reference resolves, every call node is complete and names a supported
/// operation, and literals lie within range.
pub open spec fn wf_expr(e: ExprIR, cols: Seq<Seq<char>>) -> bool
    decreases e,
{
    match e {
        ExprIR::Col { col } => has_name(cols, col@),
        ExprIR::Lit { lit } => match lit {
            Literal::Dec(d) => -(DEC_MAX as int) <= d <= DEC_MAX as int,
            _ => true,
        },
        ExprIR::Call { fn_, args, to, fmt, len, pred, then_br, else_br } => {
            if is_binop_name(fn_@) {
                args@.len() >= 2 && wf_expr_arg(args@, 0, cols) && wf_expr_arg(args@, 1, cols)
            } else if fn_@ == "cast"@ {
                args@.len() >= 1 && wf_expr_arg(args@, 0, cols) && (match to {
                    Some(t) => spec_cast_target(t@) is Some,
                    None => false,
                })
            } else if fn_@ == "to_date"@ {
                args@.len() >= 1 && wf_expr_arg(args@, 0, cols) && fmt_ok(fmt)
            } else if fn_@ == "zfill"@ {
                args@.len() >= 1 && wf_expr_arg(args@, 0, cols)
            } else if fn_@ == "when"@ {
                &&& pred is Some && wf_expr(*pred->0, cols)
                &&& then_br is Some && wf_expr(*then_br->0, cols)
                &&& (else_br is Some ==> wf_expr(*else_br->0, cols))
            } else if fn_@ == "is_null"@ || fn_@ == "is_not_null"@ {
                args@.len() >= 1 && wf_expr_arg(args@, 0, cols)
            } else {
                false
            }
        },
    }
}

pub open spec fn wf_expr_arg(args: Seq<ExprIR>, k: int, cols: Seq<Seq<char>>) -> bool
    decreases args,
{
    if 0 <= k < args.len() {
        wf_expr(args[k], cols)
    } else {
        false
    }
}

/// The cell an expression evaluates to on one row. Meaningful when the
/// expression is well-formed over `cols` and the row is as wide as `cols`.
pub open spec fn spec_eval(e: ExprIR, cols: Seq<Seq<char>>, row: Seq<VVal>) -> VVal
    decreases e,
{
    match e {
        ExprIR::Col { col } => match spec_col_index(cols, col@) {
            Some(k) => if 0 <= k < row.len() {
                row[k]
            } else {
                VVal::Null
            },
            None => VVal::Null,
        },
        ExprIR::Lit { lit } => lit_val(lit),
        ExprIR::Call { fn_, args, to, fmt, len, pred, then_br, else_br } => {
            if is_binop_name(fn_@) {
                let a = spec_eval_arg(args@, 0, cols, row);
                let b = spec_eval_arg(args@, 1, cols, row);
                spec_call_binop(fn_@, a, b)
            } else if fn_@ == "cast"@ {
                let a = spec_eval_arg(args@, 0, cols, row);
                match to {
                    Some(t) => match spec_cast_target(t@) {
                        Some(ty) => spec_cast(a, ty),
                        None => VVal::Null,
                    },
                    None => VVal::Null,
                }
            } else if fn_@ == "to_date"@ {
                let a = spec_eval_arg(args@, 0, cols, row);
                spec_to_date(a, fmt_seq(fmt))
            } else if fn_@ == "zfill"@ {
                let a = spec_eval_arg(args@, 0, cols, row);
                spec_zfill(a, zfill_len(len))
            } else if fn_@ == "when"@ {
                let p = match pred {
                    Some(pb) => spec_eval(*pb, cols, row),
                    None => VVal::Null,
                };
                if p == VVal::Bool(true) {
                    match then_br {
                        Some(tb) => spec_eval(*tb, cols, row),
                        None => VVal::Null,
                    }
                } else {
                    match else_br {
                        Some(eb) => spec_eval(*eb, cols, row),
                        None => VVal::Null,
                    }
                }
            } else if fn_@ == "is_null"@ {
                VVal::Bool(spec_eval_arg(args@, 0, cols, row) is Null)
            } else if fn_@ == "is_not_null"@ {
                VVal::Bool(!(spec_eval_arg(args@, 0, cols, row) is Null))
            } else {
                VVal::Null
            }
        },
    }
}

pub open spec fn spec_eval_arg(
    args: Seq<ExprIR>,
    k: int,
    cols: Seq<Seq<char>>,
    row: Seq<VVal>,
) -> VVal
    decreases args,
{
    if 0 <= k < args.len() {
        spec_eval(args[k], cols, row)
    } else {
        VVal::Null
    }
}

/// The padding width of a `zfill` node; two when absent.
pub open spec fn zfill_len(len: Option<usize>) -> nat {
    match len {
        Some(n) => n as nat,
        None => 2,
    }
}

/// A binary call: comparisons through the engine's tri-state order,
/// arithmetic through its numeric rules.
pub open spec fn spec_call_binop(f: Seq<char>, a: VVal, b: VVal) -> VVal {
    if f == "+"@ {
        spec_arith('+', a, b)
    } else if f == "-"@ {
        spec_arith('-', a, b)
    } else if f == "*"@ {
        spec_arith('*', a, b)
    } else if f == "/"@ {
        spec_arith('/', a, b)
    } else {
        match spec_cmp(a, b) {
            Some(s) => VVal::Bool(
                if f == "=="@ {
                    s == 0
                } else if f == "!="@ {
                    s != 0
                } else if f == ">"@ {
                    s > 0
                } else if f == ">="@ {
                    s >= 0
                } else if f == "<"@ {
                    s < 0
                } else {
                    s <= 0
                },
            ),
            None => VVal::Null,
        }
    }
}

/// `to_date` semantics: text parses against the format, anything else is
/// null, and a failed parse is null, never an error.
pub open spec fn spec_to_date(v: VVal, f: Seq<char>) -> VVal {
    match v {
        VVal::Str(s) => match crate::dates::spec_parse_date_fmt(s, f) {
            Some(d) => VVal::Date(d),
            None => VVal::Null,
        },
        _ => VVal::Null,
    }
}

/// `zfill` semantics: the cell's text, left-padded with zeros; null stays
/// null.
pub open spec fn spec_zfill(v: VVal, n: nat) -> VVal {
    match value_text(v) {
        Some(t) => VVal::Str(spec_pad_left_zeros(t, n)),
        None => VVal::Null,
    }
}


/// The error kinds expression checking hands out.
pub open spec fn expr_error(e: EtlError) -> bool {
    ||| e is MissingArgument
    ||| e is UnsupportedFunction
    ||| e is UnsupportedCast
    ||| e is UnknownColumn
    ||| e is OversizedLiteral
}

/// Checks an expression against the source columns, reporting the first
/// fault; accepts exactly the well-formed expressions.
pub fn check_expr(e: &ExprIR, names: &Vec<String>) -> (r: Result<(), EtlError>)
    ensures
        r is Ok <==> wf_expr(*e, names_view(names@)),
        r is Err ==> expr_error(r->Err_0),
    decreases *e,
{
    match e {
        ExprIR::Col { col } => match crate::frame::find_col(names, col.as_str()) {
            Some(_) => Ok(()),
            None => Err(EtlError::UnknownColumn(col.clone())),
        },
        ExprIR::Lit { lit } => match lit {
            Literal::Dec(d) => {
                if -100000000000000000000000000000000 <= *d && *d
                    <= 100000000000000000000000000000000 {
                    Ok(())
                } else {
                    Err(EtlError::OversizedLiteral)
                }
            },
            _ => Ok(()),
        },
        ExprIR::Call { fn_, args, to, fmt, len, pred, then_br, else_br } => {
            let f = fn_.as_str();
            if str_eq(f, "+") || str_eq(f, "-") || str_eq(f, "*") || str_eq(f, "/") || str_eq(
                f,
                "==",
            ) || str_eq(f, "!=") || str_eq(f, ">") || str_eq(f, ">=") || str_eq(f, "<") || str_eq(
                f,
                "<=",
            ) {
                if args.len() < 2 {
                    return Err(EtlError::MissingArgument);
                }
                let r0 = check_expr_arg(args, 0, names);
                if r0.is_err() {
                    return r0;
                }
                check_expr_arg(args, 1, names)
            } else if str_eq(f, "cast") {
                if args.len() < 1 {
                    return Err(EtlError::MissingArgument);
                }
                let r0 = check_expr_arg(args, 0, names);
                if r0.is_err() {
                    return r0;
                }
                match to {
                    Some(t) => {
                        if str_eq(t.as_str(), "i64") || str_eq(t.as_str(), "f64") || str_eq(
                            t.as_str(),
                            "utf8",
                        ) || str_eq(t.as_str(), "str") || str_eq(t.as_str(), "date32") || str_eq(
                            t.as_str(),
                            "date",
                        ) {
                            Ok(())
                        } else {
                            Err(EtlError::UnsupportedCast(t.clone()))
                        }
                    },
                    None => Err(EtlError::MissingArgument),
                }
            } else if str_eq(f, "to_date") {
                if args.len() < 1 {
                    return Err(EtlError::MissingArgument);
                }
                let r0 = check_expr_arg(args, 0, names);
                if r0.is_err() {
                    return r0;
                }
                match fmt {
                    None => Ok(()),
                    Some(ff) => {
                        if crate::dates::check_format(ff.as_str()) {
                            Ok(())
                        } else {
                            Err(EtlError::UnsupportedFunction(ff.clone()))
                        }
                    },
                }
            } else if str_eq(f, "zfill") {
                if args.len() < 1 {
                    return Err(EtlError::MissingArgument);
                }
                check_expr_arg(args, 0, names)
            } else if str_eq(f, "when") {
                let pb = match pred {
                    Some(pb) => pb,
                    None => {
                        return Err(EtlError::MissingArgument);
                    },
                };
                let rp = check_expr(pb, names);
                if rp.is_err() {
                    return rp;
                }
                let tb = match then_br {
                    Some(tb) => tb,
                    None => {
                        return Err(EtlError::MissingArgument);
                    },
                };
                let rt = check_expr(tb, names);
                if rt.is_err() {
                    return rt;
                }
                match else_br {
                    Some(eb) => check_expr(eb, names),
                    None => Ok(()),
                }
            } else if str_eq(f, "is_null") || str_eq(f, "is_not_null") {
                if args.len() < 1 {
                    return Err(EtlError::MissingArgument);
                }
                check_expr_arg(args, 0, names)
            } else {
                Err(EtlError::UnsupportedFunction(fn_.clone()))
            }
        },
    }
}

fn check_expr_arg(args: &Vec<ExprIR>, k: usize, names: &Vec<String>) -> (r: Result<(), EtlError>)
    requires
        k < args@.len(),
    ensures
        r is Ok <==> wf_expr_arg(args@, k as int, names_view(names@)),
        r is Err ==> expr_error(r->Err_0),
    decreases args@,
{
    check_expr(&args[k], names)
}

/// Evaluates a well-formed expression on one row.
pub fn eval_expr(e: &ExprIR, names: &Vec<String>, row: &Vec<Value>) -> (r: Value)
    requires
        wf_expr(*e, names_view(names@)),
        crate::frame::wf_row(row@),
    ensures
        r@ == spec_eval(*e, names_view(names@), row_view(row@)),
        wf_value(r@),
    decreases *e,
{
    match e {
        ExprIR::Col { col } => match crate::frame::find_col(names, col.as_str()) {
            Some(k) => {
                if k < row.len() {
                    row[k].clone()
                } else {
                    Value::Null
                }
            },
            None => Value::Null,
        },
        ExprIR::Lit { lit } => match lit {
            Literal::Null => Value::Null,
            Literal::Bool(b) => Value::Bool(*b),
            Literal::Int(i) => Value::Int(*i),
            Literal::Dec(d) => Value::Dec(*d),
            Literal::Str(s) => Value::Str(s.clone()),
        },
        ExprIR::Call { fn_, args, to, fmt, len, pred, then_br, else_br } => {
            let f = fn_.as_str();
            if str_eq(f, "+") || str_eq(f, "-") || str_eq(f, "*") || str_eq(f, "/") {
                let a = eval_expr_arg(args, 0, names, row);
                let b = eval_expr_arg(args, 1, names, row);
                let op: char = if str_eq(f, "+") {
                    '+'
                } else if str_eq(f, "-") {
                    '-'
                } else if str_eq(f, "*") {
                    '*'
                } else {
                    '/'
                };
                crate::value::arith_values(op, &a, &b)
            } else if str_eq(f, "==") || str_eq(f, "!=") || str_eq(f, ">") || str_eq(f, ">=")
                || str_eq(f, "<") || str_eq(f, "<=") {
                let a = eval_expr_arg(args, 0, names, row);
                let b = eval_expr_arg(args, 1, names, row);
                match crate::value::cmp_values(&a, &b) {
                    Some(s) => Value::Bool(
                        if str_eq(f, "==") {
                            s == 0
                        } else if str_eq(f, "!=") {
                            s != 0
                        } else if str_eq(f, ">") {
                            s > 0
                        } else if str_eq(f, ">=") {
                            s >= 0
                        } else if str_eq(f, "<") {
                            s < 0
                        } else {
                            s <= 0
                        },
                    ),
                    None => Value::Null,
                }
            } else if str_eq(f, "cast") {
                let a = eval_expr_arg(args, 0, names, row);
                match to {
                    Some(t) => {
                        let ty = if str_eq(t.as_str(), "i64") {
                            LogicalType::I64
                        } else if str_eq(t.as_str(), "f64") {
                            LogicalType::F64
                        } else if str_eq(t.as_str(), "utf8") || str_eq(t.as_str(), "str") {
                            LogicalType::Str
                        } else {
                            LogicalType::Date
                        };
                        crate::coerce::cast_value(&a, &ty)
                    },
                    None => Value::Null,
                }
            } else if str_eq(f, "to_date") {
                let a = eval_expr_arg(args, 0, names, row);
                match a {
                    Value::Str(s) => {
                        let parsed = match fmt {
                            Some(ff) => crate::dates::parse_date_with_format(
                                s.as_str(),
                                ff.as_str(),
                            ),
                            None => crate::dates::parse_date_with_format(s.as_str(), "%Y-%m-%d"),
                        };
                        match parsed {
                            Some(d) => Value::Date(d),
                            None => Value::Null,
                        }
                    },
                    _ => Value::Null,
                }
            } else if str_eq(f, "zfill") {
                let a = eval_expr_arg(args, 0, names, row);
                let w: usize = match len {
                    Some(n) => *n,
                    None => 2,
                };
                match crate::value::render_value(&a) {
                    Some(s) => Value::Str(crate::text::pad_left_zeros(s.as_str(), w)),
                    None => Value::Null,
                }
            } else if str_eq(f, "when") {
                let pv: Value = match pred {
                    Some(pb) => eval_expr(pb, names, row),
                    None => Value::Null,
                };
                let p_true = match pv {
                    Value::Bool(b) => b,
                    _ => false,
                };
                if p_true {
                    match then_br {
                        Some(tb) => eval_expr(tb, names, row),
                        None => Value::Null,
                    }
                } else {
                    match else_br {
                        Some(eb) => eval_expr(eb, names, row),
                        None => Value::Null,
                    }
                }
            } else if str_eq(f, "is_null") {
                let a = eval_expr_arg(args, 0, names, row);
                match a {
                    Value::Null => Value::Bool(true),
                    _ => Value::Bool(false),
                }
            } else if str_eq(f, "is_not_null") {
                let a = eval_expr_arg(args, 0, names, row);
                match a {
                    Value::Null => Value::Bool(false),
                    _ => Value::Bool(true),
                }
            } else {
                Value::Null
            }
        },
    }
}

fn eval_expr_arg(args: &Vec<ExprIR>, k: usize, names: &Vec<String>, row: &Vec<Value>) -> (r: Value)
    requires
        wf_expr_arg(args@, k as int, names_view(names@)),
        crate::frame::wf_row(row@),
    ensures
        r@ == spec_eval_arg(args@, k as int, names_view(names@), row_view(row@)),
        wf_value(r@),
    decreases args@,
{
    eval_expr(&args[k], names, row)
}

} // verus!
