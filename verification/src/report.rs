//! Request-level errors, data-quality summaries, invalid-row samples, and
//! the run report.

use vstd::prelude::*;
use crate::value::Value;

verus! {

/// Request-level failures. Row-level issues are never errors; they are
/// counted or sampled instead.
#[derive(Debug)]
pub enum EtlError {
    /// A call node lacks a required child.
    MissingArgument,
    /// A call node names a function the engine does not have.
    UnsupportedFunction(String),
    /// A cast names a target outside the supported set.
    UnsupportedCast(String),
    /// A declared schema field uses an unknown type name.
    UnknownTargetType(String),
    /// An expression references a column the source does not have.
    UnknownColumn(String),
    /// The mapping lacks a column the declared schema requires.
    MappingMissingTarget(String),
    /// The mapping defines a target the declared schema does not have.
    MappingExtraTarget(String),
    /// A data-quality rule references a column no transform produces.
    UnknownDqColumn(String),
    /// A data-quality rule uses an operator outside the supported set.
    UnsupportedDqOp(String),
    /// A literal lies outside the range the cell model holds.
    OversizedLiteral,
    /// The request asks for a path the engine deliberately lacks.
    NotImplemented(String),
}

/// One data-quality rule's outcome over the checked frame.
#[derive(Debug)]
pub struct DqSummaryItem {
    pub rule_code: String,
    pub violations: i64,
    pub checked_rows: i64,
}

impl Clone for DqSummaryItem {
    fn clone(&self) -> (r: DqSummaryItem)
        ensures
            r == *self,
    {
        DqSummaryItem {
            rule_code: self.rule_code.clone(),
            violations: self.violations,
            checked_rows: self.checked_rows,
        }
    }
}

/// One sampled invalid row: its source cells by column name.
#[derive(Debug)]
pub struct ErrorSample {
    pub reason_code: String,
    pub message: String,
    pub row_no: Option<i64>,
    pub source_values: Vec<(String, Value)>,
}

/// The outcome of one pipeline run.
#[derive(Debug)]
pub struct RunResp {
    pub snapshot: String,
    pub ori_rows: i64,
    pub dest_rows: i64,
    pub rejected_rows: i64,
    pub error_samples: Vec<ErrorSample>,
    pub dq_summary: Vec<DqSummaryItem>,
    pub logs: Vec<String>,
}

} // verus!
