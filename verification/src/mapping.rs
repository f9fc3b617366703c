//! Mapping configuration: target-column transforms, filters, data-quality
//! rules, and validation of the mapping against the declared target schema.

use vstd::prelude::*;
use crate::expr::{ExprIR, Literal};
use crate::report::EtlError;
use crate::schema::ArrowLikeSchema;

verus! {

/// One target column: its name and the expression producing it.
#[derive(Debug)]
pub struct TargetColumn {
    pub target: String,
    pub expr: ExprIR,
}

/// The transform half of a mapping: target definitions and filters, the
/// filters a conjunction.
#[derive(Debug)]
pub struct MappingIR {
    pub columns: Vec<TargetColumn>,
    pub filters: Vec<ExprIR>,
}

/// One declarative data-quality rule over a target column.
#[derive(Debug)]
pub struct DqRule {
    pub column: String,
    pub op: String,
    pub value: Option<Literal>,
}

/// A full mapping: transforms plus data-quality rules.
#[derive(Debug)]
pub struct MappingCfg {
    pub transforms: MappingIR,
    pub dq_rules: Vec<DqRule>,
}

/// The mapping's target names, in order.
pub open spec fn mapping_targets(m: MappingCfg) -> Seq<Seq<char>> {
    m.transforms.columns@.map(|i: int, c: TargetColumn| c.target@)
}

/// No two entries of `names` are the same.
pub open spec fn names_distinct(names: Seq<Seq<char>>) -> bool {
    forall|i: int, j: int| 0 <= i < j < names.len() ==> names[i] != names[j]
}

/// Every name of `a` occurs in `b`.
pub open spec fn names_covered(a: Seq<Seq<char>>, b: Seq<Seq<char>>) -> bool {
    forall|i: int| 0 <= i < a.len() ==> crate::frame::has_name(b, #[trigger] a[i])
}

/// The bijection the planner demands: mapping target names and declared
/// field names are the same set, each without repetition.
pub open spec fn mapping_matches_schema(m: MappingCfg, schema: ArrowLikeSchema) -> bool {
    &&& names_distinct(crate::schema::schema_names(schema))
    &&& names_distinct(mapping_targets(m))
    &&& names_covered(crate::schema::schema_names(schema), mapping_targets(m))
    &&& names_covered(mapping_targets(m), crate::schema::schema_names(schema))
}

pub fn names_of_fields(schema: &ArrowLikeSchema) -> (r: Vec<String>)
    ensures
        crate::frame::names_view(r@) =~= crate::schema::schema_names(*schema),
{
    let mut out: Vec<String> = Vec::new();
    let mut i: usize = 0;
    while i < schema.fields.len()
        invariant
            i <= schema.fields@.len(),
            out@.len() == i,
            forall|j: int| 0 <= j < i ==> (#[trigger] out@[j])@ == schema.fields@[j].name@,
        decreases schema.fields@.len() - i,
    {
        out.push(schema.fields[i].name.clone());
        i = i + 1;
    }
    out
}

pub fn targets_of_mapping(m: &MappingCfg) -> (r: Vec<String>)
    ensures
        crate::frame::names_view(r@) =~= mapping_targets(*m),
{
    let mut out: Vec<String> = Vec::new();
    let mut i: usize = 0;
    while i < m.transforms.columns.len()
        invariant
            i <= m.transforms.columns@.len(),
            out@.len() == i,
            forall|j: int|
                0 <= j < i ==> (#[trigger] out@[j])@ == m.transforms.columns@[j].target@,
        decreases m.transforms.columns@.len() - i,
    {
        out.push(m.transforms.columns[i].target.clone());
        i = i + 1;
    }
    out
}

/// Whether the names of `v` are pairwise distinct.
fn check_distinct(v: &Vec<String>) -> (r: bool)
    ensures
        r == names_distinct(crate::frame::names_view(v@)),
{
    let ghost nv = crate::frame::names_view(v@);
    let mut i: usize = 0;
    while i < v.len()
        invariant
            i <= v@.len(),
            nv == crate::frame::names_view(v@),
            forall|a: int, b: int|
                0 <= a < b < v@.len() && b < i ==> crate::frame::names_view(v@)[a]
                    != crate::frame::names_view(v@)[b],
        decreases v@.len() - i,
    {
        let mut j: usize = 0;
        while j < i
            invariant
                j <= i < v@.len(),
                nv == crate::frame::names_view(v@),
                forall|a: int| 0 <= a < j ==> crate::frame::names_view(v@)[a] != crate::frame::names_view(v@)[i as int],
            decreases i - j,
        {
            if crate::text::str_eq(v[j].as_str(), v[i].as_str()) {
                proof {
                    assert(crate::frame::names_view(v@)[j as int] == crate::frame::names_view(
                        v@,
                    )[i as int]);
                    assert(0 <= j < i < crate::frame::names_view(v@).len());
                }
                return false;
            }
            j = j + 1;
        }
        i = i + 1;
    }
    true
}

/// Whether every name of `a` occurs in `b`; reports a missing one.
fn check_covered(a: &Vec<String>, b: &Vec<String>) -> (r: Option<String>)
    ensures
        r is None <==> names_covered(
            crate::frame::names_view(a@),
            crate::frame::names_view(b@),
        ),
{
    let mut i: usize = 0;
    while i < a.len()
        invariant
            i <= a@.len(),
            forall|j: int|
                0 <= j < i ==> crate::frame::has_name(
                    crate::frame::names_view(b@),
                    #[trigger] crate::frame::names_view(a@)[j],
                ),
        decreases a@.len() - i,
    {
        if crate::frame::find_col(b, a[i].as_str()).is_none() {
            proof {
                assert(!crate::frame::has_name(
                    crate::frame::names_view(b@),
                    crate::frame::names_view(a@)[i as int],
                ));
            }
            return Some(a[i].clone());
        }
        i = i + 1;
    }
    None
}

/// Validates that the mapping's targets and the declared schema's fields
/// name exactly the same columns, each side without repetition. Accepts
/// exactly the matching pairs.
pub fn validate_mapping_against_schema(schema: &ArrowLikeSchema, m: &MappingCfg) -> (r: Result<
    (),
    EtlError,
>)
    ensures
        r is Ok <==> mapping_matches_schema(*m, *schema),
        r is Err ==> (r->Err_0 is MappingMissingTarget || r->Err_0 is MappingExtraTarget),
{
    let fnames = names_of_fields(schema);
    let tnames = targets_of_mapping(m);
    if !check_distinct(&fnames) {
        return Err(EtlError::MappingMissingTarget(String::new()));
    }
    if !check_distinct(&tnames) {
        return Err(EtlError::MappingExtraTarget(String::new()));
    }
    match check_covered(&fnames, &tnames) {
        Some(n) => {
            return Err(EtlError::MappingMissingTarget(n));
        },
        None => {},
    }
    match check_covered(&tnames, &fnames) {
        Some(n) => {
            return Err(EtlError::MappingExtraTarget(n));
        },
        None => {},
    }
    Ok(())
}

/// The code naming a data-quality rule in the summary: `DQ_{col}_{op}`.
pub open spec fn spec_dq_code(col: Seq<char>, op: Seq<char>) -> Seq<char> {
    "DQ_"@ + col + "_"@ + op
}

/// Builds the summary code of a rule.
pub fn dq_code(col: &str, op: &str) -> (r: String)
    ensures
        r@ == spec_dq_code(col@, op@),
{
    let mut s: String = "DQ_".to_owned();
    s.append(col);
    s.append("_");
    s.append(op);
    s
}

/// The code naming a parse-failure flag: `PARSE_FAIL_{target}`.
pub open spec fn spec_parse_fail_code(target: Seq<char>) -> Seq<char> {
    "PARSE_FAIL_"@ + target
}

/// Builds the code of a parse-failure flag.
pub fn parse_fail_code(target: &str) -> (r: String)
    ensures
        r@ == spec_parse_fail_code(target@),
{
    let mut s: String = "PARSE_FAIL_".to_owned();
    s.append(target);
    s
}

} // verus!
