//! The fused mapping plan: target columns derived from the source frame,
//! the acceptance predicate, data-quality violation flags, the summary,
//! and invalid-row samples.

use vstd::prelude::*;
use crate::coerce::{row_view, spec_cast, spec_clean};
use crate::expr::{ExprIR, Literal, lit_val, spec_eval, wf_expr};
use crate::frame::{
    Frame, has_name, lemma_col_index_from_props, names_view, spec_col_index, wf_frame, wf_row,
};
use crate::mapping::{
    DqRule, MappingCfg, mapping_matches_schema, mapping_targets, spec_dq_code,
    spec_parse_fail_code,
};
use crate::report::{DqSummaryItem, ErrorSample, EtlError};
use crate::schema::{
    ArrowLikeSchema, LogicalType, schema_names, schema_type_at, schema_types_ok,
};
use crate::value::{VVal, Value, spec_cmp, wf_value};

verus! {

/// The first `k` schema names that the source lacks, in schema order;
/// these are appended to the source columns.
pub open spec fn appended_upto(sn: Seq<Seq<char>>, sc: ArrowLikeSchema, k: int) -> Seq<Seq<char>>
    decreases k,
{
    if k <= 0 {
        Seq::empty()
    } else {
        appended_upto(sn, sc, k - 1) + (if has_name(sn, sc.fields@[k - 1].name@) {
            Seq::empty()
        } else {
            seq![sc.fields@[k - 1].name@]
        })
    }
}

/// The columns of the augmented frame: the source columns, then the new
/// target names.
pub open spec fn wt_names(sn: Seq<Seq<char>>, sc: ArrowLikeSchema) -> Seq<Seq<char>> {
    sn + appended_upto(sn, sc, sc.fields@.len() as int)
}

/// The position of target `j` in the augmented frame.
pub open spec fn target_pos(sn: Seq<Seq<char>>, sc: ArrowLikeSchema, j: int) -> int {
    spec_col_index(wt_names(sn, sc), sc.fields@[j].name@)->0
}

/// The expression of the mapping column that produces target `j`.
pub open spec fn target_expr(m: MappingCfg, sc: ArrowLikeSchema, j: int) -> ExprIR {
    let mi = spec_col_index(mapping_targets(m), sc.fields@[j].name@)->0;
    m.transforms.columns@[mi].expr
}

/// The raw cell of target `j` on a source row.
pub open spec fn spec_target_raw(
    m: MappingCfg,
    sc: ArrowLikeSchema,
    sn: Seq<Seq<char>>,
    srow: Seq<VVal>,
    j: int,
) -> VVal {
    spec_eval(target_expr(m, sc, j), sn, srow)
}

/// The finished cell of target `j`: the raw cell with empty text as null,
/// cast non-strictly to the declared type.
pub open spec fn spec_target_cell(
    m: MappingCfg,
    sc: ArrowLikeSchema,
    sn: Seq<Seq<char>>,
    srow: Seq<VVal>,
    j: int,
) -> VVal {
    spec_cast(spec_clean(spec_target_raw(m, sc, sn, srow, j)), schema_type_at(sc, j))
}

/// Target `j` failed to parse: its cleaned raw cell held something, the
/// declared type is not text, and the cast came out null.
pub open spec fn spec_parse_fail(
    m: MappingCfg,
    sc: ArrowLikeSchema,
    sn: Seq<Seq<char>>,
    srow: Seq<VVal>,
    j: int,
) -> bool {
    &&& !(schema_type_at(sc, j) is Str)
    &&& !(spec_clean(spec_target_raw(m, sc, sn, srow, j)) is Null)
    &&& spec_target_cell(m, sc, sn, srow, j) is Null
}

/// The augmented row: target cells at their positions, source cells
/// elsewhere.
pub open spec fn spec_wt_row(
    m: MappingCfg,
    sc: ArrowLikeSchema,
    sn: Seq<Seq<char>>,
    srow: Seq<VVal>,
) -> Seq<VVal> {
    Seq::new(
        wt_names(sn, sc).len(),
        |p: int|
            {
                if exists|j: int|
                    0 <= j < sc.fields@.len() && target_pos(sn, sc, j) == p {
                    let j = choose|j: int|
                        0 <= j < sc.fields@.len() && target_pos(sn, sc, j) == p;
                    spec_target_cell(m, sc, sn, srow, j)
                } else if 0 <= p < srow.len() {
                    srow[p]
                } else {
                    VVal::Null
                }
            },
    )
}

/// All filters hold on the augmented row.
pub open spec fn spec_filters_true(
    m: MappingCfg,
    sc: ArrowLikeSchema,
    sn: Seq<Seq<char>>,
    srow: Seq<VVal>,
) -> bool {
    forall|k: int|
        0 <= k < m.transforms.filters@.len() ==> spec_eval(
            #[trigger] m.transforms.filters@[k],
            wt_names(sn, sc),
            spec_wt_row(m, sc, sn, srow),
        ) == VVal::Bool(true)
}

/// Some filter evaluates to exactly false on the augmented row.
pub open spec fn spec_filters_any_false(
    m: MappingCfg,
    sc: ArrowLikeSchema,
    sn: Seq<Seq<char>>,
    srow: Seq<VVal>,
) -> bool {
    exists|k: int|
        0 <= k < m.transforms.filters@.len() && spec_eval(
            #[trigger] m.transforms.filters@[k],
            wt_names(sn, sc),
            spec_wt_row(m, sc, sn, srow),
        ) == VVal::Bool(false)
}

pub open spec fn spec_any_parse_fail(
    m: MappingCfg,
    sc: ArrowLikeSchema,
    sn: Seq<Seq<char>>,
    srow: Seq<VVal>,
) -> bool {
    exists|j: int| 0 <= j < sc.fields@.len() && spec_parse_fail(m, sc, sn, srow, j)
}

/// A row is kept exactly when every filter is true and nothing failed to
/// parse.
pub open spec fn spec_keep(
    m: MappingCfg,
    sc: ArrowLikeSchema,
    sn: Seq<Seq<char>>,
    srow: Seq<VVal>,
) -> bool {
    spec_filters_true(m, sc, sn, srow) && !spec_any_parse_fail(m, sc, sn, srow)
}

/// The comparison value of a rule: its literal, or the operator's default.
pub open spec fn spec_rule_lit(rule: DqRule) -> VVal {
    match rule.value {
        Some(l) => lit_val(l),
        None => if rule.op@ == "=="@ || rule.op@ == "!="@ {
            VVal::Null
        } else {
            VVal::Int(0)
        },
    }
}

/// Whether the rule's operator is one the engine supports.
pub open spec fn spec_rule_op_ok(op: Seq<char>) -> bool {
    ||| op == ">"@
    ||| op == ">="@
    ||| op == "<"@
    ||| op == "<="@
    ||| op == "=="@
    ||| op == "!="@
    ||| op == "is_null"@
    ||| op == "is_not_null"@
}

/// Whether a cell violates a rule: null where demanded present, present
/// where demanded null, or a comparison that comes out exactly false.
/// A null comparison never counts as a violation.
pub open spec fn spec_rule_violation(rule: DqRule, cell: VVal) -> bool {
    if rule.op@ == "is_not_null"@ {
        cell is Null
    } else if rule.op@ == "is_null"@ {
        !(cell is Null)
    } else {
        match spec_cmp(cell, spec_rule_lit(rule)) {
            Some(s) => {
                let cond = if rule.op@ == ">"@ {
                    s > 0
                } else if rule.op@ == ">="@ {
                    s >= 0
                } else if rule.op@ == "<"@ {
                    s < 0
                } else if rule.op@ == "<="@ {
                    s <= 0
                } else if rule.op@ == "=="@ {
                    s == 0
                } else {
                    s != 0
                };
                !cond
            },
            None => false,
        }
    }
}

/// The schema index of the target a rule checks.
pub open spec fn rule_target_index(rule: DqRule, sc: ArrowLikeSchema) -> Option<int> {
    spec_col_index(schema_names(sc), rule.column@)
}

/// A rule the planner accepts: a known target, a supported operator, a
/// literal within range.
pub open spec fn spec_rule_ok(rule: DqRule, sc: ArrowLikeSchema) -> bool {
    &&& rule_target_index(rule, sc) is Some
    &&& spec_rule_op_ok(rule.op@)
    &&& (match rule.value {
        Some(Literal::Dec(d)) => -(crate::num::DEC_MAX as int) <= d <= crate::num::DEC_MAX as int,
        _ => true,
    })
}

/// The schema indices of the non-text targets below `k`, in order: these
/// carry parse-failure flags.
pub open spec fn nonstr_upto(sc: ArrowLikeSchema, k: int) -> Seq<int>
    decreases k,
{
    if k <= 0 {
        Seq::empty()
    } else {
        nonstr_upto(sc, k - 1) + (if schema_type_at(sc, k - 1) is Str {
            Seq::empty()
        } else {
            seq![k - 1]
        })
    }
}

pub open spec fn nonstr_targets(sc: ArrowLikeSchema) -> Seq<int> {
    nonstr_upto(sc, sc.fields@.len() as int)
}

/// Everything the planner checks before any work: the mapping matches the
/// schema, the declared types are known, every expression is well-formed
/// over its columns, and every rule is acceptable.
pub open spec fn plan_ok(m: MappingCfg, sc: ArrowLikeSchema, sn: Seq<Seq<char>>) -> bool {
    &&& mapping_matches_schema(m, sc)
    &&& schema_types_ok(sc)
    &&& (forall|mi: int|
        0 <= mi < m.transforms.columns@.len() ==> wf_expr(
            (#[trigger] m.transforms.columns@[mi]).expr,
            sn,
        ))
    &&& (forall|k: int|
        0 <= k < m.transforms.filters@.len() ==> wf_expr(
            #[trigger] m.transforms.filters@[k],
            wt_names(sn, sc),
        ))
    &&& (forall|c: int|
        0 <= c < m.dq_rules@.len() ==> spec_rule_ok(#[trigger] m.dq_rules@[c], sc))
}

/// A row is sampled as invalid when a filter is exactly false, a rule is
/// violated, or a target failed to parse.
pub open spec fn spec_invalid(
    m: MappingCfg,
    sc: ArrowLikeSchema,
    sn: Seq<Seq<char>>,
    srow: Seq<VVal>,
) -> bool {
    ||| spec_filters_any_false(m, sc, sn, srow)
    ||| (exists|c: int|
        0 <= c < m.dq_rules@.len() && spec_rule_violation(
            #[trigger] m.dq_rules@[c],
            spec_target_cell(m, sc, sn, srow, rule_target_index(m.dq_rules@[c], sc)->0),
        ))
    ||| spec_any_parse_fail(m, sc, sn, srow)
}

/// The evaluated plan over a materialized frame.
pub struct PlanOutcome {
    /// The source frame with every target column in place.
    pub with_targets: Frame,
    /// The width of the original source frame.
    pub src_width: usize,
    /// Per row: whether the acceptance predicate holds.
    pub keep: Vec<bool>,
    /// Per row: whether the row is sampled as invalid.
    pub invalid: Vec<bool>,
    /// The violation codes: rules first, then parse-failure flags.
    pub violation_codes: Vec<String>,
    /// Per code, per row: whether the violation fires.
    pub violation_flags: Vec<Vec<bool>>,
}

/// The contract tying a finished outcome to the plan's semantics on the
/// given source frame.
pub open spec fn outcome_matches(
    out: PlanOutcome,
    frame: Frame,
    m: MappingCfg,
    sc: ArrowLikeSchema,
) -> bool {
    let sn = names_view(frame.names@);
    let n = frame.rows@.len() as int;
    let nrules = m.dq_rules@.len() as int;
    let flags = nonstr_targets(sc);
    &&& names_view(out.with_targets.names@) =~= wt_names(sn, sc)
    &&& out.with_targets.rows@.len() == n
    &&& wf_frame(out.with_targets)
    &&& (forall|i: int|
        0 <= i < n ==> row_view((#[trigger] out.with_targets.rows@[i])@) =~= spec_wt_row(
            m,
            sc,
            sn,
            row_view(frame.rows@[i]@),
        ))
    &&& out.src_width == frame.names@.len()
    &&& out.keep@.len() == n
    &&& (forall|i: int|
        0 <= i < n ==> #[trigger] out.keep@[i] == spec_keep(m, sc, sn, row_view(frame.rows@[i]@)))
    &&& out.invalid@.len() == n
    &&& (forall|i: int|
        0 <= i < n ==> #[trigger] out.invalid@[i] == spec_invalid(
            m,
            sc,
            sn,
            row_view(frame.rows@[i]@),
        ))
    &&& out.violation_codes@.len() == nrules + flags.len()
    &&& (forall|c: int|
        0 <= c < nrules ==> (#[trigger] out.violation_codes@[c])@ == spec_dq_code(
            m.dq_rules@[c].column@,
            m.dq_rules@[c].op@,
        ))
    &&& (forall|c: int|
        nrules <= c < nrules + flags.len() ==> (#[trigger] out.violation_codes@[c])@
            == spec_parse_fail_code(sc.fields@[flags[c - nrules]].name@))
    &&& out.violation_flags@.len() == nrules + flags.len()
    &&& (forall|c: int|
        0 <= c < nrules + flags.len() ==> (#[trigger] out.violation_flags@[c])@.len() == n)
    &&& (forall|c: int, i: int|
        0 <= c < nrules && 0 <= i < n ==> #[trigger] out.violation_flags@[c]@[i]
            == spec_rule_violation(
            m.dq_rules@[c],
            spec_target_cell(
                m,
                sc,
                sn,
                row_view(frame.rows@[i]@),
                rule_target_index(m.dq_rules@[c], sc)->0,
            ),
        ))
    &&& (forall|c: int, i: int|
        nrules <= c < nrules + flags.len() && 0 <= i < n ==> #[trigger] out.violation_flags@[c]@[i]
            == spec_parse_fail(m, sc, sn, row_view(frame.rows@[i]@), flags[c - nrules]))
}

/// Two distinct targets never share a position.
proof fn lemma_target_pos_injective(sn: Seq<Seq<char>>, sc: ArrowLikeSchema, j1: int, j2: int)
    requires
        crate::mapping::names_distinct(schema_names(sc)),
        0 <= j1 < sc.fields@.len(),
        0 <= j2 < sc.fields@.len(),
        j1 != j2,
        has_name(wt_names(sn, sc), sc.fields@[j1].name@),
        has_name(wt_names(sn, sc), sc.fields@[j2].name@),
    ensures
        target_pos(sn, sc, j1) != target_pos(sn, sc, j2),
{
    let wt = wt_names(sn, sc);
    lemma_col_index_from_props(wt, sc.fields@[j1].name@, 0);
    lemma_col_index_from_props(wt, sc.fields@[j2].name@, 0);
    assert(schema_names(sc)[j1] == sc.fields@[j1].name@);
    assert(schema_names(sc)[j2] == sc.fields@[j2].name@);
    if target_pos(sn, sc, j1) == target_pos(sn, sc, j2) {
        assert(wt[target_pos(sn, sc, j1)] == sc.fields@[j1].name@);
        assert(wt[target_pos(sn, sc, j2)] == sc.fields@[j2].name@);
    }
}

/// Every appended name comes from the schema, and every target name not
/// in the source occurs among the appended names.
proof fn lemma_appended_has(sn: Seq<Seq<char>>, sc: ArrowLikeSchema, k: int, j: int)
    requires
        0 <= j < k <= sc.fields@.len(),
    ensures
        has_name(sn, sc.fields@[j].name@) || has_name(
            appended_upto(sn, sc, k),
            sc.fields@[j].name@,
        ),
    decreases k,
{
    let app = appended_upto(sn, sc, k);
    let nm = sc.fields@[j].name@;
    if j == k - 1 {
        if !has_name(sn, nm) {
            let prev = appended_upto(sn, sc, k - 1);
            assert(app == prev + seq![nm]);
            assert(app[app.len() - 1] == nm);
            lemma_has_name_at(app, app.len() - 1);
        }
    } else {
        lemma_appended_has(sn, sc, k - 1, j);
        let prev = appended_upto(sn, sc, k - 1);
        if has_name(prev, nm) {
            lemma_col_index_from_props(prev, nm, 0);
            let q = spec_col_index(prev, nm)->0;
            assert(0 <= q < prev.len());
            assert(app[q] == prev[q]);
            lemma_has_name_at(app, q);
        }
    }
}

/// A sequence holding `n` at position `k` has `n`.
pub proof fn lemma_has_name_at(names: Seq<Seq<char>>, k: int)
    requires
        0 <= k < names.len(),
    ensures
        has_name(names, names[k]),
{
    lemma_col_index_from_props(names, names[k], 0);
    if spec_col_index(names, names[k]) is None {
        assert(names[k] != names[k]);
    }
}

/// Concatenating columns keeps every earlier name findable.
pub proof fn lemma_has_name_prefix(a: Seq<Seq<char>>, b: Seq<Seq<char>>, n: Seq<char>)
    requires
        has_name(a, n),
    ensures
        has_name(a + b, n),
        spec_col_index(a + b, n) == spec_col_index(a, n),
{
    lemma_col_index_from_props(a, n, 0);
    let k = spec_col_index(a, n)->0;
    assert((a + b)[k] == a[k]);
    lemma_has_name_at(a + b, k);
    lemma_col_index_from_props(a + b, n, 0);
    let k2 = spec_col_index(a + b, n)->0;
    assert(forall|j: int| 0 <= j < k ==> (a + b)[j] == a[j]);
    if k2 < k {
        assert(a[k2] == (a + b)[k2]);
    } else if k < k2 {
        assert((a + b)[k] == n);
    }
}

/// Every target has a position in the augmented columns.
pub proof fn lemma_target_has_pos(sn: Seq<Seq<char>>, sc: ArrowLikeSchema, j: int)
    requires
        0 <= j < sc.fields@.len(),
    ensures
        has_name(wt_names(sn, sc), sc.fields@[j].name@),
{
    let nm = sc.fields@[j].name@;
    lemma_appended_has(sn, sc, sc.fields@.len() as int, j);
    let app = appended_upto(sn, sc, sc.fields@.len() as int);
    if has_name(sn, nm) {
        lemma_has_name_prefix(sn, app, nm);
    } else {
        lemma_col_index_from_props(app, nm, 0);
        let k = spec_col_index(app, nm)->0;
        assert((sn + app)[sn.len() + k] == app[k]);
        lemma_has_name_at(sn + app, sn.len() + k);
    }
}

/// Every target has a mapping column, when the mapping matches the schema.
proof fn lemma_target_has_mapping(m: MappingCfg, sc: ArrowLikeSchema, j: int)
    requires
        mapping_matches_schema(m, sc),
        0 <= j < sc.fields@.len(),
    ensures
        spec_col_index(mapping_targets(m), sc.fields@[j].name@) is Some,
{
    assert(schema_names(sc)[j] == sc.fields@[j].name@);
    assert(has_name(mapping_targets(m), schema_names(sc)[j]));
}

fn is_null_exec(v: &Value) -> (r: bool)
    ensures
        r == (v@ is Null),
{
    match v {
        Value::Null => true,
        _ => false,
    }
}

/// The per-target type table matches the schema.
pub open spec fn tys_ok(sc: ArrowLikeSchema, tys: Seq<LogicalType>) -> bool {
    &&& tys.len() == sc.fields@.len()
    &&& forall|j: int| 0 <= j < tys.len() ==> #[trigger] tys[j] == schema_type_at(sc, j)
}

/// The target-to-mapping-column table is right.
pub open spec fn t2m_ok(m: MappingCfg, sc: ArrowLikeSchema, t2m: Seq<usize>) -> bool {
    &&& t2m.len() == sc.fields@.len()
    &&& forall|j: int|
        0 <= j < t2m.len() ==> spec_col_index(mapping_targets(m), sc.fields@[j].name@) is Some
            && (#[trigger] t2m[j]) as int == spec_col_index(
            mapping_targets(m),
            sc.fields@[j].name@,
        )->0
}

/// The target-position table is right.
pub open spec fn positions_ok(
    sn: Seq<Seq<char>>,
    sc: ArrowLikeSchema,
    positions: Seq<usize>,
    wt_len: int,
) -> bool {
    &&& positions.len() == sc.fields@.len()
    &&& forall|j: int|
        0 <= j < positions.len() ==> has_name(wt_names(sn, sc), sc.fields@[j].name@) && (
        #[trigger] positions[j]) as int == target_pos(sn, sc, j) && positions[j] < wt_len
}

/// The computed target cells of a row match the plan's semantics.
pub open spec fn tcells_ok(
    m: MappingCfg,
    sc: ArrowLikeSchema,
    sn: Seq<Seq<char>>,
    srow: Seq<VVal>,
    cells: Seq<Value>,
) -> bool {
    &&& cells.len() == sc.fields@.len()
    &&& forall|j: int|
        0 <= j < cells.len() ==> (#[trigger] cells[j])@ == spec_target_cell(m, sc, sn, srow, j)
            && wf_value(cells[j]@)
}

/// The computed parse-failure flags of a row match the plan's semantics.
pub open spec fn pflags_ok(
    m: MappingCfg,
    sc: ArrowLikeSchema,
    sn: Seq<Seq<char>>,
    srow: Seq<VVal>,
    flags: Seq<bool>,
) -> bool {
    &&& flags.len() == sc.fields@.len()
    &&& forall|j: int|
        0 <= j < flags.len() ==> #[trigger] flags[j] == spec_parse_fail(m, sc, sn, srow, j)
}

/// Every mapping expression is well-formed over the source columns.
pub open spec fn mapping_exprs_ok(m: MappingCfg, sn: Seq<Seq<char>>) -> bool {
    forall|mi: int|
        0 <= mi < m.transforms.columns@.len() ==> wf_expr(
            (#[trigger] m.transforms.columns@[mi]).expr,
            sn,
        )
}

/// The finished cells and parse-failure flags of every target on one row.
fn target_cells_for_row(
    m: &MappingCfg,
    Ghost(sc): Ghost<ArrowLikeSchema>,
    tys: &Vec<LogicalType>,
    t2m: &Vec<usize>,
    names: &Vec<String>,
    row: &Vec<Value>,
) -> (r: (Vec<Value>, Vec<bool>))
    requires
        tys_ok(sc, tys@),
        t2m_ok(*m, sc, t2m@),
        mapping_exprs_ok(*m, names_view(names@)),
        wf_row(row@),
    ensures
        tcells_ok(*m, sc, names_view(names@), row_view(row@), r.0@),
        pflags_ok(*m, sc, names_view(names@), row_view(row@), r.1@),
{
    let nfields = tys.len();
    let mut cells: Vec<Value> = Vec::new();
    let mut flags: Vec<bool> = Vec::new();
    let mut j: usize = 0;
    while j < nfields
        invariant
            j <= nfields,
            nfields == tys@.len(),
            tys_ok(sc, tys@),
            t2m_ok(*m, sc, t2m@),
            mapping_exprs_ok(*m, names_view(names@)),
            wf_row(row@),
            cells@.len() == j,
            flags@.len() == j,
            forall|j2: int|
                0 <= j2 < j ==> (#[trigger] cells@[j2])@ == spec_target_cell(
                    *m,
                    sc,
                    names_view(names@),
                    row_view(row@),
                    j2,
                ) && wf_value(cells@[j2]@),
            forall|j2: int|
                0 <= j2 < j ==> #[trigger] flags@[j2] == spec_parse_fail(
                    *m,
                    sc,
                    names_view(names@),
                    row_view(row@),
                    j2,
                ),
        decreases nfields - j,
    {
        let mi = t2m[j];
        proof {
            lemma_col_index_from_props(mapping_targets(*m), sc.fields@[j as int].name@, 0);
            assert((mi as int) < m.transforms.columns@.len());
        }
        let raw = crate::expr::eval_expr(&m.transforms.columns[mi].expr, names, row);
        let cleaned = crate::coerce::clean_value(raw);
        let cleaned_null = is_null_exec(&cleaned);
        let cell = crate::coerce::cast_value(&cleaned, &tys[j]);
        let cell_null = is_null_exec(&cell);
        let is_str_ty = match tys[j] {
            LogicalType::Str => true,
            _ => false,
        };
        let flag = !is_str_ty && !cleaned_null && cell_null;
        cells.push(cell);
        flags.push(flag);
        j = j + 1;
    }
    (cells, flags)
}

/// Lays the target cells over a copy of the source row.
fn build_wt_row(
    Ghost(m): Ghost<MappingCfg>,
    Ghost(sc): Ghost<ArrowLikeSchema>,
    Ghost(sn): Ghost<Seq<Seq<char>>>,
    row: &Vec<Value>,
    tcells: &Vec<Value>,
    positions: &Vec<usize>,
    wt_len: usize,
) -> (r: Vec<Value>)
    requires
        wt_len == wt_names(sn, sc).len(),
        row@.len() <= wt_len,
        crate::mapping::names_distinct(schema_names(sc)),
        positions_ok(sn, sc, positions@, wt_len as int),
        tcells_ok(m, sc, sn, row_view(row@), tcells@),
        wf_row(row@),
    ensures
        r@.len() == wt_len,
        row_view(r@) =~= spec_wt_row(m, sc, sn, row_view(row@)),
        wf_row(r@),
{
    let nfields = positions.len();
    let mut out: Vec<Value> = Vec::new();
    let mut p: usize = 0;
    while p < row.len()
        invariant
            p <= row@.len(),
            wf_row(row@),
            out@.len() == p,
            forall|q: int| 0 <= q < p ==> #[trigger] out@[q] == row@[q],
        decreases row@.len() - p,
    {
        out.push(row[p].clone());
        p = p + 1;
    }
    while out.len() < wt_len
        invariant
            row@.len() <= out@.len() <= wt_len || out@.len() == row@.len(),
            row@.len() <= wt_len,
            forall|q: int| 0 <= q < row@.len() ==> #[trigger] out@[q] == row@[q],
            forall|q: int| row@.len() <= q < out@.len() ==> (#[trigger] out@[q])@ is Null,
        decreases wt_len - out@.len(),
    {
        out.push(Value::Null);
    }
    let mut j: usize = 0;
    while j < nfields
        invariant
            j <= nfields,
            nfields == positions@.len(),
            out@.len() == wt_len,
            wt_len == wt_names(sn, sc).len(),
            row@.len() <= wt_len,
            crate::mapping::names_distinct(schema_names(sc)),
            wf_row(row@),
            positions_ok(sn, sc, positions@, wt_len as int),
            tcells_ok(m, sc, sn, row_view(row@), tcells@),
            forall|j2: int|
                0 <= j2 < j ==> #[trigger] out@[positions@[j2] as int] == tcells@[j2],
            forall|q: int|
                0 <= q < wt_len && (forall|j2: int|
                    0 <= j2 < j ==> (#[trigger] positions@[j2]) as int != q) ==> out@[q] == (if q
                    < row@.len() {
                    row@[q]
                } else {
                    Value::Null
                }),
        decreases nfields - j,
    {
        let pos = positions[j];
        let cell = tcells[j].clone();
        proof {
            assert forall|j2: int| 0 <= j2 < j implies (#[trigger] positions@[j2]) as int
                != pos as int by {
                assert(positions@[j2] as int == target_pos(sn, sc, j2));
                assert(positions@[j as int] as int == target_pos(sn, sc, j as int));
                lemma_target_pos_injective(sn, sc, j2, j as int);
            }
        }
        out[pos] = cell;
        j = j + 1;
    }
    proof {
        let srow = row_view(row@);
        let spec_row = spec_wt_row(m, sc, sn, srow);
        assert forall|q: int| 0 <= q < wt_len implies row_view(out@)[q] == spec_row[q] by {
            if exists|j2: int| 0 <= j2 < sc.fields@.len() && target_pos(sn, sc, j2) == q {
                let j2 = choose|j2: int|
                    0 <= j2 < sc.fields@.len() && target_pos(sn, sc, j2) == q;
                assert(positions@[j2] as int == q);
                assert(out@[q] == tcells@[j2]);
                assert(spec_row[q] == spec_target_cell(m, sc, sn, srow, j2)) by {
                    let jc = choose|jc: int|
                        0 <= jc < sc.fields@.len() && target_pos(sn, sc, jc) == q;
                    if jc != j2 {
                        lemma_target_pos_injective(sn, sc, jc, j2);
                    }
                }
            } else {
                assert forall|j2: int| 0 <= j2 < nfields implies (#[trigger] positions@[j2]) as int
                    != q by {
                    if positions@[j2] as int == q {
                        assert(target_pos(sn, sc, j2) == q);
                    }
                }
            }
        }
    }
    out
}

/// Compares a cell against a rule.
fn rule_violation_exec(rule: &DqRule, cell: &Value) -> (r: bool)
    requires
        wf_value(cell@),
        match rule.value {
            Some(Literal::Dec(d)) => -(crate::num::DEC_MAX as int) <= d <= crate::num::DEC_MAX
                as int,
            _ => true,
        },
    ensures
        r == spec_rule_violation(*rule, cell@),
{
    let op = rule.op.as_str();
    if crate::text::str_eq(op, "is_not_null") {
        is_null_exec(cell)
    } else if crate::text::str_eq(op, "is_null") {
        !is_null_exec(cell)
    } else {
        let lit: Value = match &rule.value {
            Some(l) => match l {
                Literal::Null => Value::Null,
                Literal::Bool(b) => Value::Bool(*b),
                Literal::Int(i) => Value::Int(*i),
                Literal::Dec(d) => Value::Dec(*d),
                Literal::Str(s) => Value::Str(s.clone()),
            },
            None => {
                if crate::text::str_eq(op, "==") || crate::text::str_eq(op, "!=") {
                    Value::Null
                } else {
                    Value::Int(0)
                }
            },
        };
        proof {
            assert(lit@ == spec_rule_lit(*rule));
        }
        match crate::value::cmp_values(cell, &lit) {
            Some(s) => {
                let cond = if crate::text::str_eq(op, ">") {
                    s > 0
                } else if crate::text::str_eq(op, ">=") {
                    s >= 0
                } else if crate::text::str_eq(op, "<") {
                    s < 0
                } else if crate::text::str_eq(op, "<=") {
                    s <= 0
                } else if crate::text::str_eq(op, "==") {
                    s == 0
                } else {
                    s != 0
                };
                !cond
            },
            None => false,
        }
    }
}

fn transpose_flags(rows: &Vec<Vec<bool>>, ncodes: usize) -> (r: Vec<Vec<bool>>)
    requires
        forall|i: int| 0 <= i < rows@.len() ==> (#[trigger] rows@[i])@.len() == ncodes,
    ensures
        r@.len() == ncodes,
        forall|c: int| 0 <= c < ncodes ==> (#[trigger] r@[c])@.len() == rows@.len(),
        forall|c: int, i: int|
            0 <= c < ncodes && 0 <= i < rows@.len() ==> #[trigger] r@[c]@[i] == rows@[i]@[c],
{
    let mut out: Vec<Vec<bool>> = Vec::new();
    let mut c: usize = 0;
    while c < ncodes
        invariant
            c <= ncodes,
            forall|i: int| 0 <= i < rows@.len() ==> (#[trigger] rows@[i])@.len() == ncodes,
            out@.len() == c,
            forall|c2: int| 0 <= c2 < c ==> (#[trigger] out@[c2])@.len() == rows@.len(),
            forall|c2: int, i: int|
                0 <= c2 < c && 0 <= i < rows@.len() ==> #[trigger] out@[c2]@[i] == rows@[i]@[c2],
        decreases ncodes - c,
    {
        let mut col: Vec<bool> = Vec::new();
        let mut i: usize = 0;
        while i < rows.len()
            invariant
                i <= rows@.len(),
                c < ncodes,
                forall|i2: int| 0 <= i2 < rows@.len() ==> (#[trigger] rows@[i2])@.len() == ncodes,
                col@.len() == i,
                forall|i2: int| 0 <= i2 < i ==> #[trigger] col@[i2] == rows@[i2]@[c as int],
            decreases rows@.len() - i,
        {
            col.push(rows[i][c]);
            i = i + 1;
        }
        out.push(col);
        c = c + 1;
    }
    out
}



/// Resolves each target's position in the augmented columns and its
/// mapping column.
fn build_position_tables(
    wtnames: &Vec<String>,
    tnames: &Vec<String>,
    sc: &ArrowLikeSchema,
    Ghost(m): Ghost<MappingCfg>,
    Ghost(sn): Ghost<Seq<Seq<char>>>,
) -> (r: (Vec<usize>, Vec<usize>))
    requires
        names_view(wtnames@) == wt_names(sn, *sc),
        names_view(tnames@) == mapping_targets(m),
        mapping_matches_schema(m, *sc),
    ensures
        positions_ok(sn, *sc, r.0@, wtnames@.len() as int),
        t2m_ok(m, *sc, r.1@),
{
    let nfields = sc.fields.len();
    let wt_len = wtnames.len();
    let mut positions: Vec<usize> = Vec::new();
    let mut t2m: Vec<usize> = Vec::new();
    let mut j2: usize = 0;
    while j2 < nfields
        invariant
            j2 <= nfields,
            nfields == sc.fields@.len(),
            wt_len == wtnames@.len(),
            names_view(wtnames@) == wt_names(sn, *sc),
            names_view(tnames@) == mapping_targets(m),
            mapping_matches_schema(m, *sc),
            positions@.len() == j2,
            t2m@.len() == j2,
            forall|j3: int|
                0 <= j3 < j2 ==> has_name(wt_names(sn, *sc), (#[trigger] sc.fields@[j3]).name@),
            forall|j3: int|
                0 <= j3 < j2 ==> (#[trigger] positions@[j3]) as int == target_pos(sn, *sc, j3),
            forall|j3: int| 0 <= j3 < j2 ==> #[trigger] positions@[j3] < wt_len,
            forall|j3: int|
                0 <= j3 < j2 ==> spec_col_index(
                    mapping_targets(m),
                    (#[trigger] sc.fields@[j3]).name@,
                ) is Some,
            forall|j3: int|
                0 <= j3 < j2 ==> (#[trigger] t2m@[j3]) as int == spec_col_index(
                    mapping_targets(m),
                    sc.fields@[j3].name@,
                )->0,
        decreases nfields - j2,
    {
        proof {
            lemma_target_has_pos(sn, *sc, j2 as int);
            lemma_target_has_mapping(m, *sc, j2 as int);
            lemma_col_index_from_props(wt_names(sn, *sc), sc.fields@[j2 as int].name@, 0);
        }
        let pos = match crate::frame::find_col(wtnames, sc.fields[j2].name.as_str()) {
            Some(pv) => pv,
            None => {
                proof {
                    assert(false);
                }
                0
            },
        };
        let tm = match crate::frame::find_col(tnames, sc.fields[j2].name.as_str()) {
            Some(tv) => tv,
            None => {
                proof {
                    assert(false);
                }
                0
            },
        };
        positions.push(pos);
        t2m.push(tm);
        proof {
            assert(positions@[j2 as int] == pos);
            assert(t2m@[j2 as int] == tm);
            assert(pos as int == target_pos(sn, *sc, j2 as int));
            assert(pos < wt_len);
            assert(tm as int == spec_col_index(mapping_targets(m), sc.fields@[j2 as int].name@)->0);
        }
        j2 = j2 + 1;
    }
    (positions, t2m)
}

/// Builds the augmented column list: the source names, then the schema
/// names the source lacks, in schema order.
fn build_wt_names(names: &Vec<String>, sc: &ArrowLikeSchema) -> (r: Vec<String>)
    ensures
        names_view(r@) == wt_names(names_view(names@), *sc),
        names_view(names@).len() <= r@.len(),
{
    let ghost sn = names_view(names@);
    let nfields = sc.fields.len();
    let mut wtnames: Vec<String> = Vec::new();
    let mut p: usize = 0;
    while p < names.len()
        invariant
            p <= names@.len(),
            wtnames@.len() == p,
            forall|q: int| 0 <= q < p ==> (#[trigger] wtnames@[q])@ == names@[q]@,
        decreases names@.len() - p,
    {
        wtnames.push(names[p].clone());
        p = p + 1;
    }
    proof {
        assert(wtnames@.len() == (sn + appended_upto(sn, *sc, 0)).len());
        assert forall|q: int| 0 <= q < wtnames@.len() implies (#[trigger] wtnames@[q])@ == (sn
            + appended_upto(sn, *sc, 0))[q] by {
            assert(wtnames@[q]@ == names@[q]@);
        }
    }
    let mut k: usize = 0;
    while k < nfields
        invariant
            k <= nfields,
            nfields == sc.fields@.len(),
            sn == names_view(names@),
            wtnames@.len() == (sn + appended_upto(sn, *sc, k as int)).len(),
            forall|q: int|
                0 <= q < wtnames@.len() ==> (#[trigger] wtnames@[q])@ == (sn + appended_upto(
                    sn,
                    *sc,
                    k as int,
                ))[q],
        decreases nfields - k,
    {
        let ghost app0 = appended_upto(sn, *sc, k as int);
        let ghost app1 = appended_upto(sn, *sc, k as int + 1);
        if crate::frame::find_col(names, sc.fields[k].name.as_str()).is_none() {
            let ghost prev = wtnames@;
            let ghost nm = sc.fields@[k as int].name@;
            wtnames.push(sc.fields[k].name.clone());
            proof {
                assert(!has_name(sn, nm));
                assert(app1 == app0 + seq![nm]);
                assert(wtnames@.len() == (sn + app1).len());
                assert forall|q: int| 0 <= q < wtnames@.len() implies (#[trigger] wtnames@[q])@
                    == (sn + app1)[q] by {
                    if q < prev.len() {
                        assert(wtnames@[q] == prev[q]);
                        assert(prev[q]@ == (sn + app0)[q]);
                        assert((sn + app1)[q] == (sn + app0)[q]);
                    } else {
                        assert(wtnames@[q] == sc.fields@[k as int].name);
                        assert((sn + app1)[q] == nm);
                    }
                }
            }
        } else {
            proof {
                assert(has_name(sn, sc.fields@[k as int].name@));
                assert(app1 == app0 + Seq::<Seq<char>>::empty());
                assert(app1 =~= app0);
                assert(wtnames@.len() == (sn + app1).len());
            }
        }
        k = k + 1;
    }
    proof {
        assert(names_view(wtnames@).len() == wt_names(sn, *sc).len());
        assert forall|q: int| 0 <= q < names_view(wtnames@).len() implies names_view(wtnames@)[q]
            == wt_names(sn, *sc)[q] by {
            assert(wtnames@[q]@ == (sn + appended_upto(sn, *sc, nfields as int))[q]);
        }
        assert(names_view(wtnames@) =~= wt_names(sn, *sc));
    }
    wtnames
}


/// The error kinds planning hands out: mapping mismatches, unknown
/// declared types, expression faults, and bad rules.
pub open spec fn plan_error(e: EtlError) -> bool {
    ||| e is MappingMissingTarget
    ||| e is MappingExtraTarget
    ||| e is UnknownTargetType
    ||| crate::expr::expr_error(e)
    ||| e is UnknownDqColumn
    ||| e is UnsupportedDqOp
}

/// Builds and evaluates the fused plan over a materialized source frame:
/// target columns in place, the acceptance predicate, violation flags, and
/// invalid markers, all per the plan's declared semantics. Accepts exactly
/// the configurations `plan_ok` allows.
#[verifier::rlimit(100)]
#[verifier::loop_isolation(false)]
pub fn build_plan(frame: &Frame, m: &MappingCfg, sc: &ArrowLikeSchema) -> (r: Result<
    PlanOutcome,
    EtlError,
>)
    requires
        wf_frame(*frame),
    ensures
        r is Ok <==> plan_ok(*m, *sc, names_view(frame.names@)),
        r is Err ==> plan_error(r->Err_0),
        r is Ok ==> outcome_matches(r->Ok_0, *frame, *m, *sc),
{
    let ghost sn = names_view(frame.names@);
    let nfields = sc.fields.len();
    // 1) mapping against schema
    match crate::mapping::validate_mapping_against_schema(sc, m) {
        Ok(_) => {},
        Err(e) => {
            return Err(e);
        },
    }
    // 2) declared types known; type table
    let mut tys: Vec<LogicalType> = Vec::new();
    let mut j: usize = 0;
    while j < nfields
        invariant
            j <= nfields,
            nfields == sc.fields@.len(),
            tys@.len() == j,
            forall|j2: int|
                0 <= j2 < j ==> crate::schema::spec_logical_type_from_str(
                    #[trigger] sc.fields@[j2].dtype@,
                ) is Some && tys@[j2] == schema_type_at(*sc, j2),
        decreases nfields - j,
    {
        match crate::schema::logical_type_from_str(sc.fields[j].dtype.as_str()) {
            Some(t) => {
                tys.push(t);
            },
            None => {
                return Err(EtlError::UnknownTargetType(sc.fields[j].dtype.clone()));
            },
        }
        j = j + 1;
    }
    proof {
        assert(schema_types_ok(*sc));
        assert(tys_ok(*sc, tys@));
    }
    // 3) every transform expression well-formed over the source columns
    let mut mi: usize = 0;
    while mi < m.transforms.columns.len()
        invariant
            mi <= m.transforms.columns@.len(),
            forall|k: int|
                0 <= k < mi ==> wf_expr(
                    (#[trigger] m.transforms.columns@[k]).expr,
                    names_view(frame.names@),
                ),
        decreases m.transforms.columns@.len() - mi,
    {
        match crate::expr::check_expr(&m.transforms.columns[mi].expr, &frame.names) {
            Ok(_) => {},
            Err(e) => {
                return Err(e);
            },
        }
        mi = mi + 1;
    }
    proof {
        assert(mapping_exprs_ok(*m, sn));
    }
    // 4) augmented column list
    let wtnames = build_wt_names(&frame.names, sc);
    let wt_len = wtnames.len();
    // 5) filters well-formed over the augmented columns
    let mut fi: usize = 0;
    while fi < m.transforms.filters.len()
        invariant
            fi <= m.transforms.filters@.len(),
            names_view(wtnames@) == wt_names(sn, *sc),
            forall|k2: int|
                0 <= k2 < fi ==> wf_expr(#[trigger] m.transforms.filters@[k2], wt_names(sn, *sc)),
        decreases m.transforms.filters@.len() - fi,
    {
        match crate::expr::check_expr(&m.transforms.filters[fi], &wtnames) {
            Ok(_) => {},
            Err(e) => {
                return Err(e);
            },
        }
        fi = fi + 1;
    }
    // 6) rules acceptable; rule target table
    let fnames = crate::mapping::names_of_fields(sc);
    proof {
        assert(crate::frame::names_view(fnames@) == schema_names(*sc));
    }
    let nrules = m.dq_rules.len();
    let mut jr: Vec<usize> = Vec::new();
    let mut c: usize = 0;
    while c < nrules
        invariant
            c <= nrules,
            nrules == m.dq_rules@.len(),
            crate::frame::names_view(fnames@) == schema_names(*sc),
            jr@.len() == c,
            forall|c2: int| 0 <= c2 < c ==> spec_rule_ok(#[trigger] m.dq_rules@[c2], *sc),
            forall|c2: int|
                0 <= c2 < c ==> rule_target_index(m.dq_rules@[c2], *sc) is Some && (
                #[trigger] jr@[c2]) as int == rule_target_index(m.dq_rules@[c2], *sc)->0,
        decreases nrules - c,
    {
        let rule = &m.dq_rules[c];
        let idx = match crate::frame::find_col(&fnames, rule.column.as_str()) {
            Some(i) => i,
            None => {
                return Err(EtlError::UnknownDqColumn(rule.column.clone()));
            },
        };
        let op = rule.op.as_str();
        let op_ok = crate::text::str_eq(op, ">") || crate::text::str_eq(op, ">=")
            || crate::text::str_eq(op, "<") || crate::text::str_eq(op, "<=")
            || crate::text::str_eq(op, "==") || crate::text::str_eq(op, "!=")
            || crate::text::str_eq(op, "is_null") || crate::text::str_eq(op, "is_not_null");
        if !op_ok {
            return Err(EtlError::UnsupportedDqOp(rule.op.clone()));
        }
        match &rule.value {
            Some(Literal::Dec(d)) => {
                if *d < -100000000000000000000000000000000 || *d
                    > 100000000000000000000000000000000 {
                    return Err(EtlError::OversizedLiteral);
                }
            },
            _ => {},
        }
        jr.push(idx);
        c = c + 1;
    }
    proof {
        assert(plan_ok(*m, *sc, sn));
    }
    // 7) target positions and mapping indices
    let tnames = crate::mapping::targets_of_mapping(m);
    proof {
        assert(crate::frame::names_view(tnames@) == mapping_targets(*m));
    }
    let (positions, t2m) = build_position_tables(&wtnames, &tnames, sc, Ghost(*m), Ghost(sn));
    // 8) non-text targets carry parse-failure flags
    let mut nonstr: Vec<usize> = Vec::new();
    let mut j4: usize = 0;
    while j4 < nfields
        invariant
            j4 <= nfields,
            nfields == sc.fields@.len(),
            tys_ok(*sc, tys@),
            nonstr@.len() == nonstr_upto(*sc, j4 as int).len(),
            forall|c2: int|
                0 <= c2 < nonstr@.len() ==> (#[trigger] nonstr@[c2]) as int == nonstr_upto(
                    *sc,
                    j4 as int,
                )[c2] && nonstr@[c2] < nfields,
        decreases nfields - j4,
    {
        let is_str_ty = match tys[j4] {
            LogicalType::Str => true,
            _ => false,
        };
        if !is_str_ty {
            nonstr.push(j4);
        }
        j4 = j4 + 1;
    }
    let ghost flags_idx = nonstr_targets(*sc);
    proof {
        assert(nonstr@.len() == flags_idx.len());
    }
    // 9) violation codes: rules first, then parse-failure flags
    let mut codes: Vec<String> = Vec::new();
    let mut c2: usize = 0;
    while c2 < nrules
        invariant
            c2 <= nrules,
            nrules == m.dq_rules@.len(),
            codes@.len() == c2,
            forall|c3: int|
                0 <= c3 < c2 ==> (#[trigger] codes@[c3])@ == spec_dq_code(
                    m.dq_rules@[c3].column@,
                    m.dq_rules@[c3].op@,
                ),
        decreases nrules - c2,
    {
        codes.push(crate::mapping::dq_code(m.dq_rules[c2].column.as_str(), m.dq_rules[c2].op.as_str()));
        c2 = c2 + 1;
    }
    let mut c3: usize = 0;
    while c3 < nonstr.len()
        invariant
            c3 <= nonstr@.len(),
            nrules == m.dq_rules@.len(),
            nfields == sc.fields@.len(),
            codes@.len() == nrules + c3,
            forall|c4: int|
                0 <= c4 < nrules ==> (#[trigger] codes@[c4])@ == spec_dq_code(
                    m.dq_rules@[c4].column@,
                    m.dq_rules@[c4].op@,
                ),
            forall|c4: int|
                0 <= c4 < nonstr@.len() ==> (#[trigger] nonstr@[c4]) as int == flags_idx[c4]
                    && nonstr@[c4] < nfields,
            forall|c4: int|
                nrules <= c4 < nrules + c3 ==> (#[trigger] codes@[c4])@ == spec_parse_fail_code(
                    sc.fields@[flags_idx[c4 - nrules]].name@,
                ),
        decreases nonstr@.len() - c3,
    {
        let idx = nonstr[c3];
        codes.push(crate::mapping::parse_fail_code(sc.fields[idx].name.as_str()));
        c3 = c3 + 1;
    }
    let ncodes = codes.len();
    // 10) evaluate every row
    let n = frame.rows.len();
    let mut wt_rows: Vec<Vec<Value>> = Vec::new();
    let mut keep: Vec<bool> = Vec::new();
    let mut invalid: Vec<bool> = Vec::new();
    let mut row_flags: Vec<Vec<bool>> = Vec::new();
    let mut i: usize = 0;
    while i < n
        invariant
            i <= n,
            n == frame.rows@.len(),
            nfields == sc.fields@.len(),
            nrules == m.dq_rules@.len(),
            ncodes == nrules + flags_idx.len(),
            ncodes == codes@.len(),
            wf_frame(*frame),
            plan_ok(*m, *sc, sn),
            sn == names_view(frame.names@),
            names_view(wtnames@) == wt_names(sn, *sc),
            wt_len == wtnames@.len(),
            frame.names@.len() <= wt_len,
            tys_ok(*sc, tys@),
            t2m_ok(*m, *sc, t2m@),
            positions_ok(sn, *sc, positions@, wt_len as int),
            jr@.len() == nrules,
            forall|c4: int|
                0 <= c4 < nrules ==> rule_target_index(m.dq_rules@[c4], *sc) is Some && (
                #[trigger] jr@[c4]) as int == rule_target_index(m.dq_rules@[c4], *sc)->0,
            forall|c4: int|
                0 <= c4 < flags_idx.len() ==> (#[trigger] nonstr@[c4]) as int == flags_idx[c4]
                    && nonstr@[c4] < nfields,
            nonstr@.len() == flags_idx.len(),
            wt_rows@.len() == i,
            keep@.len() == i,
            invalid@.len() == i,
            row_flags@.len() == i,
            forall|i2: int|
                0 <= i2 < i ==> (#[trigger] wt_rows@[i2])@.len() == wt_len && wf_row(
                    wt_rows@[i2]@,
                ) && row_view(wt_rows@[i2]@) =~= spec_wt_row(
                    *m,
                    *sc,
                    sn,
                    row_view(frame.rows@[i2]@),
                ),
            forall|i2: int|
                0 <= i2 < i ==> #[trigger] keep@[i2] == spec_keep(
                    *m,
                    *sc,
                    sn,
                    row_view(frame.rows@[i2]@),
                ),
            forall|i2: int|
                0 <= i2 < i ==> #[trigger] invalid@[i2] == spec_invalid(
                    *m,
                    *sc,
                    sn,
                    row_view(frame.rows@[i2]@),
                ),
            forall|i2: int| 0 <= i2 < i ==> (#[trigger] row_flags@[i2])@.len() == ncodes,
            forall|i2: int, c4: int|
                0 <= i2 < i && 0 <= c4 < nrules ==> #[trigger] row_flags@[i2]@[c4]
                    == spec_rule_violation(
                    m.dq_rules@[c4],
                    spec_target_cell(
                        *m,
                        *sc,
                        sn,
                        row_view(frame.rows@[i2]@),
                        rule_target_index(m.dq_rules@[c4], *sc)->0,
                    ),
                ),
            forall|i2: int, c4: int|
                0 <= i2 < i && nrules <= c4 < ncodes ==> #[trigger] row_flags@[i2]@[c4]
                    == spec_parse_fail(*m, *sc, sn, row_view(frame.rows@[i2]@), flags_idx[c4 - nrules]),
        decreases n - i,
    {
        let srow = &frame.rows[i];
        let ghost srowv = row_view(srow@);
        let (tcells, pflags) = target_cells_for_row(
            m,
            Ghost(*sc),
            &tys,
            &t2m,
            &frame.names,
            srow,
        );
        let wtrow = build_wt_row(
            Ghost(*m),
            Ghost(*sc),
            Ghost(sn),
            srow,
            &tcells,
            &positions,
            wt_len,
        );
        proof {
            assert(row_view(wtrow@) == spec_wt_row(*m, *sc, sn, srowv));
        }
        // filters
        let mut all_true = true;
        let mut any_false = false;
        let mut fk: usize = 0;
        while fk < m.transforms.filters.len()
            invariant
                fk <= m.transforms.filters@.len(),
                plan_ok(*m, *sc, sn),
                names_view(wtnames@) == wt_names(sn, *sc),
                wf_row(wtrow@),
                row_view(wtrow@) == spec_wt_row(*m, *sc, sn, srowv),
                all_true == (forall|k2: int|
                    0 <= k2 < fk ==> spec_eval(
                        #[trigger] m.transforms.filters@[k2],
                        wt_names(sn, *sc),
                        spec_wt_row(*m, *sc, sn, srowv),
                    ) == crate::value::VVal::Bool(true)),
                any_false == (exists|k2: int|
                    0 <= k2 < fk && spec_eval(
                        #[trigger] m.transforms.filters@[k2],
                        wt_names(sn, *sc),
                        spec_wt_row(*m, *sc, sn, srowv),
                    ) == crate::value::VVal::Bool(false)),
            decreases m.transforms.filters@.len() - fk,
        {
            let fv = crate::expr::eval_expr(&m.transforms.filters[fk], &wtnames, &wtrow);
            let is_true = match &fv {
                Value::Bool(b) => *b,
                _ => false,
            };
            let is_false = match &fv {
                Value::Bool(b) => !*b,
                _ => false,
            };
            all_true = all_true && is_true;
            any_false = any_false || is_false;
            fk = fk + 1;
        }
        // parse-failure flags
        let mut any_pf = false;
        let mut pj: usize = 0;
        while pj < nfields
            invariant
                pj <= nfields,
                nfields == sc.fields@.len(),
                pflags_ok(*m, *sc, sn, srowv, pflags@),
                any_pf == (exists|j5: int|
                    0 <= j5 < pj && spec_parse_fail(*m, *sc, sn, srowv, j5)),
            decreases nfields - pj,
        {
            if pflags[pj] {
                any_pf = true;
            }
            pj = pj + 1;
        }
        // rule violations
        let mut rowf: Vec<bool> = Vec::new();
        let mut rc: usize = 0;
        let mut any_viol = false;
        while rc < nrules
            invariant
                rc <= nrules,
                nrules == m.dq_rules@.len(),
                nfields == sc.fields@.len(),
                plan_ok(*m, *sc, sn),
                tcells_ok(*m, *sc, sn, srowv, tcells@),
                jr@.len() == nrules,
                forall|c4: int|
                    0 <= c4 < nrules ==> rule_target_index(m.dq_rules@[c4], *sc) is Some && (
                    #[trigger] jr@[c4]) as int == rule_target_index(m.dq_rules@[c4], *sc)->0,
                rowf@.len() == rc,
                forall|c4: int|
                    0 <= c4 < rc ==> #[trigger] rowf@[c4] == spec_rule_violation(
                        m.dq_rules@[c4],
                        spec_target_cell(
                            *m,
                            *sc,
                            sn,
                            srowv,
                            rule_target_index(m.dq_rules@[c4], *sc)->0,
                        ),
                    ),
                any_viol == (exists|c4: int|
                    0 <= c4 < rc && spec_rule_violation(
                        #[trigger] m.dq_rules@[c4],
                        spec_target_cell(
                            *m,
                            *sc,
                            sn,
                            srowv,
                            rule_target_index(m.dq_rules@[c4], *sc)->0,
                        ),
                    )),
            decreases nrules - rc,
        {
            proof {
                lemma_col_index_from_props(schema_names(*sc), m.dq_rules@[rc as int].column@, 0);
            }
            let cell = &tcells[jr[rc]];
            let v = rule_violation_exec(&m.dq_rules[rc], cell);
            if v {
                any_viol = true;
            }
            rowf.push(v);
            rc = rc + 1;
        }
        // parse-failure flag columns
        let mut fc: usize = 0;
        while fc < nonstr.len()
            invariant
                fc <= nonstr@.len(),
                nonstr@.len() == flags_idx.len(),
                nrules == m.dq_rules@.len(),
                nfields == sc.fields@.len(),
                pflags_ok(*m, *sc, sn, srowv, pflags@),
                forall|c4: int|
                    0 <= c4 < flags_idx.len() ==> (#[trigger] nonstr@[c4]) as int == flags_idx[c4]
                        && nonstr@[c4] < nfields,
                rowf@.len() == nrules + fc,
                forall|c4: int|
                    0 <= c4 < nrules ==> #[trigger] rowf@[c4] == spec_rule_violation(
                        m.dq_rules@[c4],
                        spec_target_cell(
                            *m,
                            *sc,
                            sn,
                            srowv,
                            rule_target_index(m.dq_rules@[c4], *sc)->0,
                        ),
                    ),
                forall|c4: int|
                    nrules <= c4 < nrules + fc ==> #[trigger] rowf@[c4] == spec_parse_fail(
                        *m,
                        *sc,
                        sn,
                        srowv,
                        flags_idx[c4 - nrules],
                    ),
            decreases nonstr@.len() - fc,
        {
            rowf.push(pflags[nonstr[fc]]);
            fc = fc + 1;
        }
        let keep_i = all_true && !any_pf;
        let invalid_i = any_false || any_viol || any_pf;
        proof {
            assert(keep_i == spec_keep(*m, *sc, sn, srowv));
            assert(invalid_i == spec_invalid(*m, *sc, sn, srowv));
        }
        wt_rows.push(wtrow);
        keep.push(keep_i);
        invalid.push(invalid_i);
        row_flags.push(rowf);
        i = i + 1;
    }
    let violation_flags = transpose_flags(&row_flags, ncodes);
    let out = PlanOutcome {
        with_targets: Frame { names: wtnames, rows: wt_rows },
        src_width: frame.names.len(),
        keep,
        invalid,
        violation_codes: codes,
        violation_flags,
    };
    proof {
        let flags = nonstr_targets(*sc);
        assert(names_view(out.with_targets.names@) =~= wt_names(sn, *sc));
        assert(out.with_targets.rows@.len() == frame.rows@.len());
        assert(wf_frame(out.with_targets));
        assert(forall|i2: int|
            0 <= i2 < frame.rows@.len() ==> row_view((#[trigger] out.with_targets.rows@[i2])@)
                =~= spec_wt_row(*m, *sc, sn, row_view(frame.rows@[i2]@)));
        assert(out.src_width == frame.names@.len());
        assert(forall|i2: int|
            0 <= i2 < frame.rows@.len() ==> #[trigger] out.keep@[i2] == spec_keep(
                *m,
                *sc,
                sn,
                row_view(frame.rows@[i2]@),
            ));
        assert(forall|i2: int|
            0 <= i2 < frame.rows@.len() ==> #[trigger] out.invalid@[i2] == spec_invalid(
                *m,
                *sc,
                sn,
                row_view(frame.rows@[i2]@),
            ));
        assert(out.violation_codes@.len() == nrules + flags.len());
        assert(forall|c4: int|
            0 <= c4 < nrules ==> (#[trigger] out.violation_codes@[c4])@ == spec_dq_code(
                m.dq_rules@[c4].column@,
                m.dq_rules@[c4].op@,
            ));
        assert(forall|c4: int|
            nrules <= c4 < nrules + flags.len() ==> (#[trigger] out.violation_codes@[c4])@
                == spec_parse_fail_code(sc.fields@[flags[c4 - nrules]].name@));
        assert(out.violation_flags@.len() == nrules + flags.len());
        assert(forall|c4: int|
            0 <= c4 < nrules + flags.len() ==> (#[trigger] out.violation_flags@[c4])@.len()
                == frame.rows@.len());
        assert(forall|c4: int, i2: int|
            0 <= c4 < nrules && 0 <= i2 < frame.rows@.len() ==> #[trigger] out.violation_flags@[c4]@[i2]
                == spec_rule_violation(
                m.dq_rules@[c4],
                spec_target_cell(
                    *m,
                    *sc,
                    sn,
                    row_view(frame.rows@[i2]@),
                    rule_target_index(m.dq_rules@[c4], *sc)->0,
                ),
            ));
        assert(forall|c4: int, i2: int|
            nrules <= c4 < nrules + flags.len() && 0 <= i2 < frame.rows@.len()
                ==> #[trigger] out.violation_flags@[c4]@[i2] == spec_parse_fail(
                *m,
                *sc,
                sn,
                row_view(frame.rows@[i2]@),
                flags[c4 - nrules],
            ));
        assert(outcome_matches(out, *frame, *m, *sc));
    }
    Ok(out)
}

/// How many entries of `s` are true.
pub open spec fn count_true(s: Seq<bool>) -> int
    decreases s.len(),
{
    if s.len() == 0 {
        0
    } else {
        count_true(s.drop_last()) + (if s.last() {
            1int
        } else {
            0int
        })
    }
}

pub proof fn lemma_count_true_bound(s: Seq<bool>)
    ensures
        0 <= count_true(s) <= s.len(),
    decreases s.len(),
{
    if s.len() > 0 {
        lemma_count_true_bound(s.drop_last());
    }
}

/// Counts the true entries of a flag column.
pub fn count_true_exec(s: &Vec<bool>) -> (r: usize)
    ensures
        r as int == count_true(s@),
{
    let mut r: usize = 0;
    let mut i: usize = 0;
    while i < s.len()
        invariant
            i <= s@.len(),
            r as int == count_true(s@.subrange(0, i as int)),
            r <= i,
        decreases s@.len() - i,
    {
        proof {
            assert(s@.subrange(0, i as int + 1).drop_last() =~= s@.subrange(0, i as int));
            assert(s@.subrange(0, i as int + 1).last() == s@[i as int]);
            lemma_count_true_bound(s@.subrange(0, i as int));
        }
        if s[i] {
            r = r + 1;
        }
        i = i + 1;
    }
    proof {
        assert(s@.subrange(0, s@.len() as int) =~= s@);
    }
    r
}

/// Sums each violation flag column into the data-quality summary: for
/// every code, `violations` is the exact count of rows whose flag is
/// true, and `checked_rows` is the height of the checked frame.
pub fn aggregate_dq_summary(out: &PlanOutcome) -> (r: Vec<DqSummaryItem>)
    requires
        out.with_targets.rows@.len() <= i64::MAX,
        forall|c: int|
            0 <= c < out.violation_flags@.len() ==> (#[trigger] out.violation_flags@[c])@.len()
                == out.with_targets.rows@.len(),
        out.violation_codes@.len() == out.violation_flags@.len(),
    ensures
        r@.len() == out.violation_codes@.len(),
        forall|c: int|
            0 <= c < r@.len() ==> (#[trigger] r@[c]).rule_code@ == out.violation_codes@[c]@
                && r@[c].violations as int == count_true(out.violation_flags@[c]@)
                && r@[c].checked_rows as int == out.with_targets.rows@.len(),
{
    let n = out.with_targets.rows.len();
    let mut items: Vec<DqSummaryItem> = Vec::new();
    let mut c: usize = 0;
    while c < out.violation_codes.len()
        invariant
            c <= out.violation_codes@.len(),
            n == out.with_targets.rows@.len(),
            n <= i64::MAX,
            out.violation_codes@.len() == out.violation_flags@.len(),
            forall|c2: int|
                0 <= c2 < out.violation_flags@.len() ==> (
                #[trigger] out.violation_flags@[c2])@.len() == n,
            items@.len() == c,
            forall|c2: int|
                0 <= c2 < c ==> (#[trigger] items@[c2]).rule_code@ == out.violation_codes@[c2]@
                    && items@[c2].violations as int == count_true(out.violation_flags@[c2]@)
                    && items@[c2].checked_rows as int == n,
        decreases out.violation_codes@.len() - c,
    {
        let cnt = count_true_exec(&out.violation_flags[c]);
        proof {
            lemma_count_true_bound(out.violation_flags@[c as int]@);
        }
        items.push(
            DqSummaryItem {
                rule_code: out.violation_codes[c].clone(),
                violations: cnt as i64,
                checked_rows: n as i64,
            },
        );
        c = c + 1;
    }
    items
}


/// The indices below `k` of the rows marked invalid, in frame order.
pub open spec fn invalid_indices_upto(inv: Seq<bool>, k: int) -> Seq<int>
    decreases k,
{
    if k <= 0 {
        Seq::empty()
    } else {
        invalid_indices_upto(inv, k - 1) + (if inv[k - 1] {
            seq![k - 1]
        } else {
            Seq::empty()
        })
    }
}

pub open spec fn invalid_indices(inv: Seq<bool>) -> Seq<int> {
    invalid_indices_upto(inv, inv.len() as int)
}

/// The invalid-index list enumerates exactly the invalid rows: as many
/// entries as there are true flags, strictly increasing, each marked.
pub proof fn lemma_invalid_indices(inv: Seq<bool>, k: int)
    requires
        0 <= k <= inv.len(),
    ensures
        invalid_indices_upto(inv, k).len() == count_true(inv.subrange(0, k)),
        forall|c: int|
            0 <= c < invalid_indices_upto(inv, k).len() ==> 0 <= #[trigger] invalid_indices_upto(
                inv,
                k,
            )[c] < k && inv[invalid_indices_upto(inv, k)[c]],
        forall|c1: int, c2: int|
            0 <= c1 < c2 < invalid_indices_upto(inv, k).len() ==> invalid_indices_upto(inv, k)[c1]
                < invalid_indices_upto(inv, k)[c2],
    decreases k,
{
    if k > 0 {
        lemma_invalid_indices(inv, k - 1);
        let prev = invalid_indices_upto(inv, k - 1);
        let cur = invalid_indices_upto(inv, k);
        assert(inv.subrange(0, k).drop_last() =~= inv.subrange(0, k - 1));
        assert(inv.subrange(0, k).last() == inv[k - 1]);
        if inv[k - 1] {
            assert(cur == prev + seq![k - 1]);
            assert forall|c: int| 0 <= c < cur.len() implies 0 <= #[trigger] cur[c] < k
                && inv[cur[c]] by {
                if c < prev.len() {
                    assert(cur[c] == prev[c]);
                } else {
                    assert(cur[c] == k - 1);
                }
            }
            assert forall|c1: int, c2: int| 0 <= c1 < c2 < cur.len() implies cur[c1]
                < cur[c2] by {
                if c2 < prev.len() {
                    assert(cur[c1] == prev[c1] && cur[c2] == prev[c2]);
                } else {
                    assert(cur[c2] == k - 1);
                    assert(cur[c1] == prev[c1]);
                }
            }
        } else {
            assert(cur == prev + Seq::<int>::empty());
            assert(cur =~= prev);
        }
    }
}

/// Growing the scan bound only appends to the invalid-index list.
proof fn lemma_invalid_indices_prefix(inv: Seq<bool>, k1: int, k2: int)
    requires
        0 <= k1 <= k2 <= inv.len(),
    ensures
        forall|c: int|
            0 <= c < invalid_indices_upto(inv, k1).len() ==> #[trigger] invalid_indices_upto(
                inv,
                k2,
            )[c] == invalid_indices_upto(inv, k1)[c],
        invalid_indices_upto(inv, k1).len() <= invalid_indices_upto(inv, k2).len(),
    decreases k2 - k1,
{
    if k1 < k2 {
        lemma_invalid_indices_prefix(inv, k1, k2 - 1);
        let prev = invalid_indices_upto(inv, k2 - 1);
        let cur = invalid_indices_upto(inv, k2);
        if inv[k2 - 1] {
            assert(cur == prev + seq![k2 - 1]);
            assert(forall|c: int| 0 <= c < prev.len() ==> #[trigger] cur[c] == prev[c]);
        } else {
            assert(cur == prev + Seq::<int>::empty());
            assert(cur =~= prev);
        }
    }
}

/// Collects up to `limit` invalid rows as samples, each carrying the
/// source columns of its row; at most `limit` samples come back, and
/// exactly as many as there are invalid rows when those are fewer.
pub fn collect_invalid_samples(out: &PlanOutcome, limit: usize) -> (r: Vec<ErrorSample>)
    requires
        out.invalid@.len() == out.with_targets.rows@.len(),
        out.src_width <= out.with_targets.names@.len(),
        wf_frame(out.with_targets),
        forall|i: int|
            0 <= i < out.with_targets.rows@.len() ==> (#[trigger] out.with_targets.rows@[i])@.len()
                == out.with_targets.names@.len(),
    ensures
        r@.len() <= limit,
        r@.len() == (if count_true(out.invalid@) <= limit as int {
            count_true(out.invalid@)
        } else {
            limit as int
        }),
        forall|s: int|
            0 <= s < r@.len() ==> ((#[trigger] r@[s]).reason_code@ == "INVALID"@ && r@[s].message@
                == "filters failed or DQ violation"@ && r@[s].row_no == Some(s as i64)
                && sample_values_match(
                r@[s],
                out.with_targets,
                out.src_width as int,
                invalid_indices(out.invalid@)[s],
            )),
{
    let n = out.with_targets.rows.len();
    let mut samples: Vec<ErrorSample> = Vec::new();
    let mut i: usize = 0;
    while i < n
        invariant
            i <= n,
            n == out.invalid@.len(),
            n == out.with_targets.rows@.len(),
            n <= i64::MAX || true,
            out.src_width <= out.with_targets.names@.len(),
            wf_frame(out.with_targets),
            samples@.len() <= limit,
            samples@.len() == (if count_true(out.invalid@.subrange(0, i as int)) <= limit as int {
                count_true(out.invalid@.subrange(0, i as int))
            } else {
                limit as int
            }),
            samples@.len() <= i,
            forall|s: int|
                0 <= s < samples@.len() ==> ((#[trigger] samples@[s]).reason_code@ == "INVALID"@
                    && samples@[s].message@ == "filters failed or DQ violation"@
                    && samples@[s].row_no == Some(s as i64) && sample_values_match(
                    samples@[s],
                    out.with_targets,
                    out.src_width as int,
                    invalid_indices_upto(out.invalid@, i as int)[s],
                )),
        decreases n - i,
    {
        proof {
            assert(out.invalid@.subrange(0, i as int + 1).drop_last() =~= out.invalid@.subrange(
                0,
                i as int,
            ));
            assert(out.invalid@.subrange(0, i as int + 1).last() == out.invalid@[i as int]);
            lemma_count_true_bound(out.invalid@.subrange(0, i as int));
            lemma_invalid_indices(out.invalid@, i as int);
            lemma_invalid_indices(out.invalid@, i as int + 1);
            lemma_invalid_indices_prefix(out.invalid@, i as int, i as int + 1);
        }
        if out.invalid[i] && samples.len() < limit {
            let row = &out.with_targets.rows[i];
            let mut vals: Vec<(String, Value)> = Vec::new();
            let mut cidx: usize = 0;
            while cidx < out.src_width
                invariant
                    cidx <= out.src_width,
                    out.src_width <= out.with_targets.names@.len(),
                    i < out.with_targets.rows@.len(),
                    row == &out.with_targets.rows@[i as int],
                    row@.len() == out.with_targets.names@.len(),
                    wf_frame(out.with_targets),
                    vals@.len() == cidx,
                    forall|c4: int|
                        0 <= c4 < cidx ==> (#[trigger] vals@[c4]).0@
                            == out.with_targets.names@[c4]@ && vals@[c4].1
                            == out.with_targets.rows@[i as int]@[c4],
                decreases out.src_width - cidx,
            {
                vals.push((out.with_targets.names[cidx].clone(), row[cidx].clone()));
                cidx = cidx + 1;
            }
            let sample = ErrorSample {
                reason_code: "INVALID".to_owned(),
                message: "filters failed or DQ violation".to_owned(),
                row_no: Some(samples.len() as i64),
                source_values: vals,
            };
            proof {
                assert(sample_values_match(
                    sample,
                    out.with_targets,
                    out.src_width as int,
                    i as int,
                ));
                // under the cap, the next sample slot names exactly this row
                assert(samples@.len() as int == count_true(out.invalid@.subrange(0, i as int)));
                assert(invalid_indices_upto(out.invalid@, i as int + 1) == invalid_indices_upto(
                    out.invalid@,
                    i as int,
                ) + seq![i as int]);
                assert(invalid_indices_upto(out.invalid@, i as int + 1)[samples@.len() as int]
                    == i as int);
            }
            samples.push(sample);
        }
        i = i + 1;
    }
    proof {
        assert(out.invalid@.subrange(0, n as int) =~= out.invalid@);
        assert(invalid_indices_upto(out.invalid@, n as int) == invalid_indices(out.invalid@));
    }
    samples
}

/// A sample's values are the first `w` cells of row `i`, named.
pub open spec fn sample_values_match(s: ErrorSample, wt: Frame, w: int, i: int) -> bool {
    &&& s.source_values@.len() == w
    &&& forall|c: int|
        0 <= c < w ==> (#[trigger] s.source_values@[c]).0@ == wt.names@[c]@
            && s.source_values@[c].1 == wt.rows@[i]@[c]
}



/// Empty text is null, not a parse failure: when a target's raw cell is
/// the empty string, the finished cell is null and the parse-failure
/// flag stays down, whatever the declared type.
pub proof fn lemma_empty_string_is_null(
    m: MappingCfg,
    sc: ArrowLikeSchema,
    sn: Seq<Seq<char>>,
    srow: Seq<VVal>,
    j: int,
)
    requires
        0 <= j < sc.fields@.len(),
        spec_target_raw(m, sc, sn, srow, j) matches crate::value::VVal::Str(s) && s.len() == 0,
    ensures
        spec_target_cell(m, sc, sn, srow, j) is Null,
        !spec_parse_fail(m, sc, sn, srow, j),
{
}

/// A non-empty text cell that fails its cast lands null and raises
/// exactly its parse-failure flag, for every non-text target.
pub proof fn lemma_parse_failure_flags(
    m: MappingCfg,
    sc: ArrowLikeSchema,
    sn: Seq<Seq<char>>,
    srow: Seq<VVal>,
    j: int,
)
    requires
        0 <= j < sc.fields@.len(),
        !(schema_type_at(sc, j) is Str),
        spec_target_raw(m, sc, sn, srow, j) matches crate::value::VVal::Str(s) && s.len() > 0,
        spec_cast(spec_target_raw(m, sc, sn, srow, j), schema_type_at(sc, j)) is Null,
    ensures
        spec_target_cell(m, sc, sn, srow, j) is Null,
        spec_parse_fail(m, sc, sn, srow, j),
{
    assert(spec_clean(spec_target_raw(m, sc, sn, srow, j)) == spec_target_raw(m, sc, sn, srow, j));
}

/// The augmented row holds target `j`'s cell at target `j`'s position.
pub proof fn lemma_wt_row_at_target(
    m: MappingCfg,
    sc: ArrowLikeSchema,
    sn: Seq<Seq<char>>,
    srow: Seq<VVal>,
    j: int,
)
    requires
        crate::mapping::names_distinct(schema_names(sc)),
        0 <= j < sc.fields@.len(),
    ensures
        0 <= target_pos(sn, sc, j) < wt_names(sn, sc).len(),
        spec_wt_row(m, sc, sn, srow)[target_pos(sn, sc, j)] == spec_target_cell(m, sc, sn, srow, j),
{
    lemma_target_has_pos(sn, sc, j);
    lemma_col_index_from_props(wt_names(sn, sc), sc.fields@[j].name@, 0);
    let p = target_pos(sn, sc, j);
    assert(exists|j2: int| 0 <= j2 < sc.fields@.len() && target_pos(sn, sc, j2) == p);
    let jc = choose|j2: int| 0 <= j2 < sc.fields@.len() && target_pos(sn, sc, j2) == p;
    if jc != j {
        lemma_target_has_pos(sn, sc, jc);
        lemma_target_pos_injective(sn, sc, jc, j);
    }
}

} // verus!
