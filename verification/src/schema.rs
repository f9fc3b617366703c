//! Declared target schemas: logical column types by name, fields, and the
//! schema as an ordered field list.

use vstd::prelude::*;
use crate::text::str_eq;

verus! {

/// Logical column types a declared schema may use.
#[derive(Clone, Copy, PartialEq, Eq, Structural, Debug)]
pub enum LogicalType {
    I32,
    I64,
    F32,
    F64,
    Str,
    Bool,
    Date,
    Datetime,
}

pub open spec fn spec_logical_type_from_str(s: Seq<char>) -> Option<LogicalType> {
    if s == "i32"@ {
        Some(LogicalType::I32)
    } else if s == "i64"@ {
        Some(LogicalType::I64)
    } else if s == "f32"@ {
        Some(LogicalType::F32)
    } else if s == "f64"@ {
        Some(LogicalType::F64)
    } else if s == "str"@ || s == "utf8"@ {
        Some(LogicalType::Str)
    } else if s == "bool"@ {
        Some(LogicalType::Bool)
    } else if s == "date"@ || s == "date32"@ {
        Some(LogicalType::Date)
    } else if s == "datetime"@ {
        Some(LogicalType::Datetime)
    } else {
        None
    }
}

/// Parses the textual name of a logical type as declared schemas write it.
/// Returns `None` for any name outside the supported set.
pub fn logical_type_from_str(s: &str) -> (r: Option<LogicalType>)
    ensures
        r == spec_logical_type_from_str(s@),
{
    if str_eq(s, "i32") {
        Some(LogicalType::I32)
    } else if str_eq(s, "i64") {
        Some(LogicalType::I64)
    } else if str_eq(s, "f32") {
        Some(LogicalType::F32)
    } else if str_eq(s, "f64") {
        Some(LogicalType::F64)
    } else if str_eq(s, "str") || str_eq(s, "utf8") {
        Some(LogicalType::Str)
    } else if str_eq(s, "bool") {
        Some(LogicalType::Bool)
    } else if str_eq(s, "date") || str_eq(s, "date32") {
        Some(LogicalType::Date)
    } else if str_eq(s, "datetime") {
        Some(LogicalType::Datetime)
    } else {
        None
    }
}

pub open spec fn spec_logical_dtype(t: LogicalType) -> Seq<char> {
    match t {
        LogicalType::I32 => "i32"@,
        LogicalType::I64 => "i64"@,
        LogicalType::F32 => "f32"@,
        LogicalType::F64 => "f64"@,
        LogicalType::Str => "str"@,
        LogicalType::Bool => "bool"@,
        LogicalType::Date => "date"@,
        LogicalType::Datetime => "datetime"@,
    }
}

/// The canonical name of a logical type, as schema inference reports it.
pub fn logical_dtype(t: &LogicalType) -> (r: String)
    ensures
        r@ == spec_logical_dtype(*t),
{
    match t {
        LogicalType::I32 => "i32".to_owned(),
        LogicalType::I64 => "i64".to_owned(),
        LogicalType::F32 => "f32".to_owned(),
        LogicalType::F64 => "f64".to_owned(),
        LogicalType::Str => "str".to_owned(),
        LogicalType::Bool => "bool".to_owned(),
        LogicalType::Date => "date".to_owned(),
        LogicalType::Datetime => "datetime".to_owned(),
    }
}

/// One declared column: name, type name, and nullability.
#[derive(Debug)]
pub struct Field {
    pub name: String,
    pub dtype: String,
    pub nullable: bool,
}

impl Clone for Field {
    fn clone(&self) -> (r: Field)
        ensures
            r == *self,
    {
        Field { name: self.name.clone(), dtype: self.dtype.clone(), nullable: self.nullable }
    }
}

/// An ordered list of declared columns; order defines column order in
/// outputs.
#[derive(Debug)]
pub struct ArrowLikeSchema {
    pub fields: Vec<Field>,
}

impl Clone for ArrowLikeSchema {
    fn clone(&self) -> (r: ArrowLikeSchema)
        ensures
            r.fields@ == self.fields@,
    {
        let mut fields: Vec<Field> = Vec::new();
        let mut i: usize = 0;
        while i < self.fields.len()
            invariant
                i <= self.fields@.len(),
                fields@ =~= self.fields@.subrange(0, i as int),
            decreases self.fields@.len() - i,
        {
            fields.push(self.fields[i].clone());
            i = i + 1;
        }
        proof {
            assert(self.fields@.subrange(0, self.fields@.len() as int) =~= self.fields@);
        }
        ArrowLikeSchema { fields }
    }
}

/// The declared field names, in order.
pub open spec fn schema_names(s: ArrowLikeSchema) -> Seq<Seq<char>> {
    s.fields@.map(|i: int, f: Field| f.name@)
}

/// Every declared type name is one the engine supports.
pub open spec fn schema_types_ok(s: ArrowLikeSchema) -> bool {
    forall|i: int|
        0 <= i < s.fields@.len() ==> spec_logical_type_from_str(
            #[trigger] s.fields@[i].dtype@,
        ) is Some
}

/// The declared logical type of field `i`.
pub open spec fn schema_type_at(s: ArrowLikeSchema, i: int) -> LogicalType {
    spec_logical_type_from_str(s.fields@[i].dtype@)->0
}

} // verus!
