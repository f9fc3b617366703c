//! Request types of the two endpoints: schema inference and pipeline
//! runs, with the datasets they name.

use vstd::prelude::*;
use crate::frame::Frame;
use crate::mapping::MappingCfg;
use crate::schema::{ArrowLikeSchema, Field, LogicalType};
use crate::value::Value;

verus! {

/// How a source is read.
#[derive(Debug)]
pub enum SourceCfg {
    Csv { delimiter: String, has_header: bool, encoding: String },
    Parquet,
}

/// A schema-inference request.
#[derive(Debug)]
pub struct InferSchemaReq {
    pub uri: String,
    pub source_config: SourceCfg,
    pub limit: usize,
}

/// The preview row cap when a request names none.
pub fn default_preview_limit() -> (r: usize)
    ensures
        r == 200,
{
    200
}

/// The CSV delimiter when a request names none.
pub fn default_delim() -> (r: String)
    ensures
        r@ == ","@,
{
    ",".to_owned()
}

/// Headers are assumed present when a request says nothing.
pub fn default_true() -> (r: bool)
    ensures
        r,
{
    true
}

/// The encoding when a request names none.
pub fn default_utf8() -> (r: String)
    ensures
        r@ == "utf-8"@,
{
    "utf-8".to_owned()
}

/// The warehouse a run writes under.
#[derive(Debug)]
pub struct ProjectCfg {
    pub namespace: String,
    pub warehouse_uri: String,
}

/// A table's descriptor: name, ordered key columns, declared schema.
#[derive(Debug)]
pub struct InnerDataset {
    pub name: String,
    pub primary_key: Vec<String>,
    pub schema: ArrowLikeSchema,
}

/// A dataset at one refinement layer.
#[derive(Debug)]
pub enum DataSet {
    Bronze { uri: String, source: SourceCfg, inner: InnerDataset },
    Silver(InnerDataset),
    Gold(InnerDataset),
}

/// The inner descriptor of a dataset, whatever its layer.
pub open spec fn dataset_inner(d: DataSet) -> InnerDataset {
    match d {
        DataSet::Bronze { uri, source, inner } => inner,
        DataSet::Silver(inner) => inner,
        DataSet::Gold(inner) => inner,
    }
}

impl DataSet {
    /// The table name.
    pub fn name(&self) -> (r: &String)
        ensures
            r == dataset_inner(*self).name,
    {
        match self {
            DataSet::Bronze { inner, .. } => &inner.name,
            DataSet::Silver(inner) => &inner.name,
            DataSet::Gold(inner) => &inner.name,
        }
    }

    /// The declared key columns.
    pub fn primary_key(&self) -> (r: &Vec<String>)
        ensures
            r == dataset_inner(*self).primary_key,
    {
        match self {
            DataSet::Bronze { inner, .. } => &inner.primary_key,
            DataSet::Silver(inner) => &inner.primary_key,
            DataSet::Gold(inner) => &inner.primary_key,
        }
    }

    /// The declared schema.
    pub fn schema(&self) -> (r: &ArrowLikeSchema)
        ensures
            r == dataset_inner(*self).schema,
    {
        match self {
            DataSet::Bronze { inner, .. } => &inner.schema,
            DataSet::Silver(inner) => &inner.schema,
            DataSet::Gold(inner) => &inner.schema,
        }
    }
}

/// A pipeline run request: project, source and destination, mapping.
#[derive(Debug)]
pub struct RunReq {
    pub project: ProjectCfg,
    pub datasets: (DataSet, DataSet),
    pub mapping: MappingCfg,
}

/// A schema-inference response.
#[derive(Debug)]
pub struct InferSchemaResp {
    pub schema: ArrowLikeSchema,
}

/// The logical type of a cell's kind.
pub open spec fn value_kind_type(v: crate::value::VVal) -> LogicalType {
    match v {
        crate::value::VVal::Bool(_) => LogicalType::Bool,
        crate::value::VVal::Int(_) => LogicalType::I64,
        crate::value::VVal::Dec(_) => LogicalType::F64,
        crate::value::VVal::Date(_) => LogicalType::Date,
        crate::value::VVal::Datetime(_) => LogicalType::Datetime,
        _ => LogicalType::Str,
    }
}

/// The inferred type of column `j` scanning from row `i`: the kind of
/// the first non-null cell, text when every cell is null.
pub open spec fn inferred_type_from(f: Frame, j: int, i: int) -> LogicalType
    decreases f.rows@.len() - i,
{
    if i < 0 || i >= f.rows@.len() {
        LogicalType::Str
    } else if !(f.rows@[i]@[j]@ is Null) {
        value_kind_type(f.rows@[i]@[j]@)
    } else {
        inferred_type_from(f, j, i + 1)
    }
}

pub open spec fn spec_inferred_type(f: Frame, j: int) -> LogicalType {
    inferred_type_from(f, j, 0)
}

/// Describes a materialized frame as a declared schema: one nullable
/// field per column, typed by the first non-null cell of the column.
pub fn infer_arrow_like_schema(f: &Frame) -> (r: ArrowLikeSchema)
    requires
        crate::frame::wf_frame(*f),
    ensures
        r.fields@.len() == f.names@.len(),
        forall|j: int|
            0 <= j < r.fields@.len() ==> (#[trigger] r.fields@[j]).name@ == f.names@[j]@
                && r.fields@[j].nullable && r.fields@[j].dtype@
                == crate::schema::spec_logical_dtype(spec_inferred_type(*f, j)),
{
    let mut fields: Vec<Field> = Vec::new();
    let mut j: usize = 0;
    while j < f.names.len()
        invariant
            j <= f.names@.len(),
            crate::frame::wf_frame(*f),
            fields@.len() == j,
            forall|j2: int|
                0 <= j2 < j ==> (#[trigger] fields@[j2]).name@ == f.names@[j2]@
                    && fields@[j2].nullable && fields@[j2].dtype@
                    == crate::schema::spec_logical_dtype(spec_inferred_type(*f, j2)),
        decreases f.names@.len() - j,
    {
        let mut ty = LogicalType::Str;
        let mut i: usize = 0;
        let mut found = false;
        while i < f.rows.len() && !found
            invariant
                i <= f.rows@.len(),
                j < f.names@.len(),
                crate::frame::wf_frame(*f),
                !found ==> ty == LogicalType::Str,
                !found ==> inferred_type_from(*f, j as int, 0) == inferred_type_from(
                    *f,
                    j as int,
                    i as int,
                ),
                found ==> ty == inferred_type_from(*f, j as int, 0),
            decreases f.rows@.len() - i,
        {
            let cell = &f.rows[i][j];
            let is_null = match cell {
                Value::Null => true,
                _ => false,
            };
            if !is_null {
                ty = match cell {
                    Value::Bool(_) => LogicalType::Bool,
                    Value::Int(_) => LogicalType::I64,
                    Value::Dec(_) => LogicalType::F64,
                    Value::Date(_) => LogicalType::Date,
                    Value::Datetime(_) => LogicalType::Datetime,
                    _ => LogicalType::Str,
                };
                found = true;
            }
            i = i + 1;
        }
        fields.push(
            Field {
                name: f.names[j].clone(),
                dtype: crate::schema::logical_dtype(&ty),
                nullable: true,
            },
        );
        j = j + 1;
    }
    ArrowLikeSchema { fields }
}

} // verus!
