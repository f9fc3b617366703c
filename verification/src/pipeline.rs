//! The run orchestrator's core: evaluate the plan, keep accepted rows,
//! drop rows with null key columns, deduplicate, anti-join against the
//! keys already committed, and assemble the run report.

use vstd::prelude::*;
use crate::frame::{Frame, has_name, names_view, spec_col_index, wf_frame, wf_row};
use crate::keys::{
    anti_indices, clone_row, is_first_occurrence, lemma_anti_indices_bounds,
    lemma_anti_indices_complete, lemma_uniq_indices_bounds, spec_row_key, uniq_indices,
};
use crate::mapping::MappingCfg;
use crate::plan::{
    PlanOutcome, build_plan, count_true, nonstr_targets, outcome_matches, plan_ok, spec_invalid,
    spec_keep, spec_parse_fail, spec_rule_violation, spec_target_cell, rule_target_index,
    target_pos, wt_names,
};
use crate::report::{EtlError, RunResp};
use crate::schema::{ArrowLikeSchema, schema_names};
use crate::value::{VVal, Value, value_text};

verus! {

/// The rows of a frame as mathematical cell rows.
pub open spec fn frame_srows(f: Frame) -> Seq<Seq<VVal>> {
    f.rows@.map(|i: int, r: Vec<Value>| crate::coerce::row_view(r@))
}

/// Every configured key column names a declared schema field.
pub open spec fn pk_ok(sc: ArrowLikeSchema, pk: Seq<Seq<char>>) -> bool {
    forall|p: int| 0 <= p < pk.len() ==> spec_col_index(schema_names(sc), #[trigger] pk[p]) is Some
}

/// The schema positions of the key columns.
pub open spec fn pk_schema_indices(sc: ArrowLikeSchema, pk: Seq<Seq<char>>) -> Seq<int> {
    Seq::new(pk.len(), |p: int| spec_col_index(schema_names(sc), pk[p])->0)
}

/// A row survives into the destination when it is kept by the plan and no
/// key column of it is null.
pub open spec fn row_passes(
    m: MappingCfg,
    sc: ArrowLikeSchema,
    sn: Seq<Seq<char>>,
    srow: Seq<VVal>,
    pkidx: Seq<int>,
) -> bool {
    &&& spec_keep(m, sc, sn, srow)
    &&& forall|p: int|
        0 <= p < pkidx.len() ==> !(spec_target_cell(m, sc, sn, srow, #[trigger] pkidx[p]) is Null)
}

/// The source row indices below `k` that survive.
pub open spec fn cand_indices_upto(
    m: MappingCfg,
    sc: ArrowLikeSchema,
    sn: Seq<Seq<char>>,
    rows: Seq<Seq<VVal>>,
    pkidx: Seq<int>,
    k: int,
) -> Seq<int>
    decreases k,
{
    if k <= 0 {
        Seq::empty()
    } else {
        cand_indices_upto(m, sc, sn, rows, pkidx, k - 1) + (if row_passes(
            m,
            sc,
            sn,
            rows[k - 1],
            pkidx,
        ) {
            seq![k - 1]
        } else {
            Seq::empty()
        })
    }
}

pub open spec fn cand_indices(
    m: MappingCfg,
    sc: ArrowLikeSchema,
    sn: Seq<Seq<char>>,
    rows: Seq<Seq<VVal>>,
    pkidx: Seq<int>,
) -> Seq<int> {
    cand_indices_upto(m, sc, sn, rows, pkidx, rows.len() as int)
}

/// The rendered key column texts of one row's finished target cells.
pub open spec fn key_vals(
    m: MappingCfg,
    sc: ArrowLikeSchema,
    sn: Seq<Seq<char>>,
    srow: Seq<VVal>,
    pkidx: Seq<int>,
) -> Seq<Option<Seq<char>>> {
    Seq::new(pkidx.len(), |p: int| value_text(spec_target_cell(m, sc, sn, srow, pkidx[p])))
}

/// The dedup key of one surviving row.
pub open spec fn row_key_spec(
    m: MappingCfg,
    sc: ArrowLikeSchema,
    sn: Seq<Seq<char>>,
    srow: Seq<VVal>,
    pkidx: Seq<int>,
) -> Seq<char> {
    spec_row_key(key_vals(m, sc, sn, srow, pkidx))
}

/// The keys of the surviving rows, in order.
pub open spec fn cand_keys(
    m: MappingCfg,
    sc: ArrowLikeSchema,
    sn: Seq<Seq<char>>,
    rows: Seq<Seq<VVal>>,
    pkidx: Seq<int>,
) -> Seq<Seq<char>> {
    let ci = cand_indices(m, sc, sn, rows, pkidx);
    Seq::new(ci.len(), |c: int| row_key_spec(m, sc, sn, rows[ci[c]], pkidx))
}

/// The keys picked by an index list.
pub open spec fn picked(keys: Seq<Seq<char>>, idx: Seq<int>) -> Seq<Seq<char>> {
    Seq::new(idx.len(), |c: int| keys[idx[c]])
}

/// The keys that a run against `existing` writes: the surviving rows'
/// keys, deduplicated keep-first, with the keys already present removed.
pub open spec fn written_keys_spec(
    m: MappingCfg,
    sc: ArrowLikeSchema,
    sn: Seq<Seq<char>>,
    rows: Seq<Seq<VVal>>,
    pkidx: Seq<int>,
    existing: Seq<Seq<char>>,
) -> Seq<Seq<char>> {
    let ck = cand_keys(m, sc, sn, rows, pkidx);
    let u = picked(ck, uniq_indices(ck));
    picked(u, anti_indices(u, existing))
}

/// The destination frame and report of one run.
pub struct RunOutcome {
    /// The frame to commit, absent when nothing new survived.
    pub to_write: Option<Frame>,
    /// The dedup keys of the committed rows, for the keys index.
    pub written_keys: Vec<String>,
    /// The run report, its snapshot id left for the writer to fill.
    pub report: RunResp,
}

/// The expected violation column `c` over the source rows.
pub open spec fn spec_flag_col(
    m: MappingCfg,
    sc: ArrowLikeSchema,
    sn: Seq<Seq<char>>,
    rows: Seq<Seq<VVal>>,
    c: int,
) -> Seq<bool> {
    let nrules = m.dq_rules@.len() as int;
    Seq::new(
        rows.len(),
        |i: int|
            if c < nrules {
                spec_rule_violation(
                    m.dq_rules@[c],
                    spec_target_cell(m, sc, sn, rows[i], rule_target_index(m.dq_rules@[c], sc)->0),
                )
            } else {
                spec_parse_fail(m, sc, sn, rows[i], nonstr_targets(sc)[c - nrules])
            },
    )
}

pub open spec fn spec_invalid_col(
    m: MappingCfg,
    sc: ArrowLikeSchema,
    sn: Seq<Seq<char>>,
    rows: Seq<Seq<VVal>>,
) -> Seq<bool> {
    Seq::new(rows.len(), |i: int| spec_invalid(m, sc, sn, rows[i]))
}



/// Reported flag positions are within range and carry failing counts.
proof fn lemma_reported_flags_bounds(
    m: MappingCfg,
    sc: ArrowLikeSchema,
    sn: Seq<Seq<char>>,
    rows: Seq<Seq<VVal>>,
    k: int,
)
    requires
        0 <= k <= nonstr_targets(sc).len(),
    ensures
        forall|c: int|
            0 <= c < reported_flags_upto(m, sc, sn, rows, k).len() ==> 0
                <= #[trigger] reported_flags_upto(m, sc, sn, rows, k)[c] < k && count_true(
                spec_flag_col(
                    m,
                    sc,
                    sn,
                    rows,
                    m.dq_rules@.len() + reported_flags_upto(m, sc, sn, rows, k)[c],
                ),
            ) > 0,
    decreases k,
{
    if k > 0 {
        lemma_reported_flags_bounds(m, sc, sn, rows, k - 1);
        let prev = reported_flags_upto(m, sc, sn, rows, k - 1);
        let cur = reported_flags_upto(m, sc, sn, rows, k);
        if count_true(spec_flag_col(m, sc, sn, rows, m.dq_rules@.len() as int + k - 1)) > 0 {
            assert(cur == prev + seq![k - 1]);
            assert forall|c: int| 0 <= c < cur.len() implies 0 <= #[trigger] cur[c] < k
                && count_true(spec_flag_col(m, sc, sn, rows, m.dq_rules@.len() + cur[c])) > 0 by {
                if c < prev.len() {
                    assert(cur[c] == prev[c]);
                } else {
                    assert(cur[c] == k - 1);
                }
            }
        } else {
            assert(cur == prev + Seq::<int>::empty());
            assert(cur =~= prev);
        }
    }
}

/// The parse-failure columns worth reporting: those with at least one
/// failing row, in schema order. Rule columns are always reported.
pub open spec fn reported_flags_upto(
    m: MappingCfg,
    sc: ArrowLikeSchema,
    sn: Seq<Seq<char>>,
    rows: Seq<Seq<VVal>>,
    k: int,
) -> Seq<int>
    decreases k,
{
    let nrules = m.dq_rules@.len() as int;
    if k <= 0 {
        Seq::empty()
    } else {
        reported_flags_upto(m, sc, sn, rows, k - 1) + (if count_true(
            spec_flag_col(m, sc, sn, rows, nrules + k - 1),
        ) > 0 {
            seq![k - 1]
        } else {
            Seq::empty()
        })
    }
}

pub open spec fn reported_flags(
    m: MappingCfg,
    sc: ArrowLikeSchema,
    sn: Seq<Seq<char>>,
    rows: Seq<Seq<VVal>>,
) -> Seq<int> {
    reported_flags_upto(m, sc, sn, rows, nonstr_targets(sc).len() as int)
}

/// What a successful run guarantees, beyond its error behaviour: exact
/// counts, the bijection of output columns with the schema, no null key
/// cells in committed rows, the exact data-quality summary, the sample
/// cap, and the committed keys being the deduplicated new keys.
pub open spec fn run_outcome_matches(
    out: RunOutcome,
    source: Frame,
    m: MappingCfg,
    sc: ArrowLikeSchema,
    pk: Seq<Seq<char>>,
    existing: Seq<Seq<char>>,
) -> bool {
    let sn = names_view(source.names@);
    let n = source.rows@.len() as int;
    let srows = frame_srows(source);
    let pkidx = pk_schema_indices(sc, pk);
    let wk = if pk.len() > 0 {
        written_keys_spec(m, sc, sn, srows, pkidx, existing)
    } else {
        Seq::<Seq<char>>::empty()
    };
    let dest = if pk.len() > 0 {
        wk.len() as int
    } else {
        cand_indices(m, sc, sn, srows, pkidx).len() as int
    };
    &&& out.report.ori_rows == n
    &&& out.report.dest_rows == dest
    &&& out.report.rejected_rows == n - dest
    &&& out.report.snapshot@.len() == 0
    &&& out.report.error_samples@.len() <= 1000
    &&& out.report.error_samples@.len() == (if count_true(spec_invalid_col(m, sc, sn, srows))
        <= 1000 {
        count_true(spec_invalid_col(m, sc, sn, srows))
    } else {
        1000
    })
    &&& out.report.dq_summary@.len() == m.dq_rules@.len() + reported_flags(m, sc, sn, srows).len()
    &&& (forall|c: int|
        0 <= c < m.dq_rules@.len() ==> (#[trigger] out.report.dq_summary@[c]).violations as int
            == count_true(spec_flag_col(m, sc, sn, srows, c)) && out.report.dq_summary@[c].rule_code@
            == crate::mapping::spec_dq_code(m.dq_rules@[c].column@, m.dq_rules@[c].op@)
            && out.report.dq_summary@[c].checked_rows == n)
    &&& (forall|c: int|
        m.dq_rules@.len() <= c < out.report.dq_summary@.len() ==> {
            let f = reported_flags(m, sc, sn, srows)[c - m.dq_rules@.len()];
            &&& (#[trigger] out.report.dq_summary@[c]).violations as int == count_true(
                spec_flag_col(m, sc, sn, srows, m.dq_rules@.len() + f),
            )
            &&& out.report.dq_summary@[c].violations > 0
            &&& out.report.dq_summary@[c].rule_code@ == crate::mapping::spec_parse_fail_code(
                sc.fields@[nonstr_targets(sc)[f]].name@,
            )
            &&& out.report.dq_summary@[c].checked_rows == n
        })
    &&& (out.to_write is Some <==> dest > 0)
    &&& (out.to_write is Some ==> {
        let f = out.to_write->0;
        &&& names_view(f.names@) =~= schema_names(sc)
        &&& wf_frame(f)
        &&& f.rows@.len() == dest
        &&& (forall|i: int, p: int|
            0 <= i < f.rows@.len() && 0 <= p < pkidx.len() ==> !((#[trigger] f.rows@[i]@[pkidx[p]])@
                is Null))
    })
    &&& (pk.len() > 0 ==> names_view(out.written_keys@) =~= wk)
    &&& (pk.len() == 0 ==> out.written_keys@.len() == 0)
}

/// Committed keys are new and pairwise distinct: the union of committed
/// snapshots keeps its keys unique.
pub proof fn lemma_written_keys_fresh_and_distinct(
    m: MappingCfg,
    sc: ArrowLikeSchema,
    sn: Seq<Seq<char>>,
    rows: Seq<Seq<VVal>>,
    pkidx: Seq<int>,
    existing: Seq<Seq<char>>,
)
    ensures
        (forall|c: int|
            0 <= c < written_keys_spec(m, sc, sn, rows, pkidx, existing).len() ==> !has_name(
                existing,
                #[trigger] written_keys_spec(m, sc, sn, rows, pkidx, existing)[c],
            )),
        crate::mapping::names_distinct(written_keys_spec(m, sc, sn, rows, pkidx, existing)),
{
    let ck = cand_keys(m, sc, sn, rows, pkidx);
    let ui = uniq_indices(ck);
    let u = picked(ck, ui);
    let ai = anti_indices(u, existing);
    let w = picked(u, ai);
    lemma_uniq_indices_bounds(ck, ck.len() as int);
    lemma_anti_indices_bounds(u, existing, u.len() as int);
    assert forall|c: int| 0 <= c < w.len() implies !has_name(existing, #[trigger] w[c]) by {
        assert(w[c] == u[ai[c]]);
    }
    assert forall|c1: int, c2: int| 0 <= c1 < c2 < w.len() implies w[c1] != w[c2] by {
        assert(w[c1] == u[ai[c1]]);
        assert(w[c2] == u[ai[c2]]);
        assert(ai[c1] < ai[c2]);
        assert(u[ai[c1]] == ck[ui[ai[c1]]]);
        assert(u[ai[c2]] == ck[ui[ai[c2]]]);
        assert(ui[ai[c1]] < ui[ai[c2]]);
        assert(is_first_occurrence(ck, ui[ai[c2]]));
    }
}

/// When the union of prior keys is duplicate-free, appending the
/// committed keys keeps it duplicate-free.
pub proof fn lemma_union_stays_unique(existing: Seq<Seq<char>>, written: Seq<Seq<char>>)
    requires
        crate::mapping::names_distinct(existing),
        crate::mapping::names_distinct(written),
        forall|c: int| 0 <= c < written.len() ==> !has_name(existing, #[trigger] written[c]),
    ensures
        crate::mapping::names_distinct(existing + written),
{
    let all = existing + written;
    assert forall|i: int, j: int| 0 <= i < j < all.len() implies all[i] != all[j] by {
        if i < existing.len() && j < existing.len() {
            assert(all[i] == existing[i] && all[j] == existing[j]);
        } else if i < existing.len() {
            assert(all[i] == existing[i] && all[j] == written[j - existing.len()]);
            if all[i] == all[j] {
                crate::plan::lemma_has_name_at(existing, i);
            }
        } else {
            assert(all[i] == written[i - existing.len()] && all[j] == written[j - existing.len()]);
        }
    }
}

/// Running the same plan again, once its keys are committed, finds
/// nothing new: every deduplicated key is either already in `existing` or
/// among the keys the first run wrote.
pub proof fn lemma_rerun_writes_nothing(
    m: MappingCfg,
    sc: ArrowLikeSchema,
    sn: Seq<Seq<char>>,
    rows: Seq<Seq<VVal>>,
    pkidx: Seq<int>,
    existing: Seq<Seq<char>>,
)
    ensures
        written_keys_spec(
            m,
            sc,
            sn,
            rows,
            pkidx,
            existing + written_keys_spec(m, sc, sn, rows, pkidx, existing),
        ).len() == 0,
{
    let ck = cand_keys(m, sc, sn, rows, pkidx);
    let ui = uniq_indices(ck);
    let u = picked(ck, ui);
    let w = picked(u, anti_indices(u, existing));
    let e2 = existing + w;
    lemma_uniq_indices_bounds(ck, ck.len() as int);
    lemma_anti_indices_bounds(u, existing, u.len() as int);
    assert forall|i: int| 0 <= i < u.len() implies has_name(e2, #[trigger] u[i]) by {
        if has_name(existing, u[i]) {
            crate::plan::lemma_has_name_prefix(existing, w, u[i]);
        } else {
            lemma_anti_indices_complete(u, existing, u.len() as int, i);
            let ai = anti_indices(u, existing);
            let c = choose|c: int| 0 <= c < ai.len() && ai[c] == i;
            assert(w[c] == u[i]);
            assert(e2[existing.len() + c] == w[c]);
            crate::plan::lemma_has_name_at(e2, existing.len() + c);
        }
    }
    lemma_anti_empty_when_all_present(u, e2, u.len() as int);
}

proof fn lemma_anti_empty_when_all_present(keys: Seq<Seq<char>>, existing: Seq<Seq<char>>, k: int)
    requires
        0 <= k <= keys.len(),
        forall|i: int| 0 <= i < keys.len() ==> has_name(existing, #[trigger] keys[i]),
    ensures
        anti_indices_upto_view(keys, existing, k).len() == 0,
    decreases k,
{
    if k > 0 {
        lemma_anti_empty_when_all_present(keys, existing, k - 1);
        assert(anti_indices_upto_view(keys, existing, k) =~= anti_indices_upto_view(
            keys,
            existing,
            k - 1,
        ));
    }
}

/// A name for the keys module's index list, for local induction.
pub open spec fn anti_indices_upto_view(
    keys: Seq<Seq<char>>,
    existing: Seq<Seq<char>>,
    k: int,
) -> Seq<int> {
    crate::keys::anti_indices_upto(keys, existing, k)
}

/// A strictly increasing list of indices below `k` is itself at least its
/// own position everywhere.
proof fn lemma_increasing_ge_position(idx: Seq<int>, c: int)
    requires
        0 <= c < idx.len(),
        forall|a: int, b: int| 0 <= a < b < idx.len() ==> idx[a] < idx[b],
        forall|a: int| 0 <= a < idx.len() ==> 0 <= #[trigger] idx[a],
    ensures
        idx[c] >= c,
    decreases c,
{
    if c > 0 {
        lemma_increasing_ge_position(idx, c - 1);
    }
}

/// A strictly increasing list of indices below `k` has at most `k`
/// entries.
proof fn lemma_increasing_len_le(idx: Seq<int>, k: int)
    requires
        k >= 0,
        forall|a: int, b: int| 0 <= a < b < idx.len() ==> idx[a] < idx[b],
        forall|a: int| 0 <= a < idx.len() ==> 0 <= #[trigger] idx[a] < k,
    ensures
        idx.len() <= k,
{
    if idx.len() > 0 {
        lemma_increasing_ge_position(idx, idx.len() - 1);
    }
}

/// Bounds of the surviving-row index list.
proof fn lemma_cand_indices_bounds(
    m: MappingCfg,
    sc: ArrowLikeSchema,
    sn: Seq<Seq<char>>,
    rows: Seq<Seq<VVal>>,
    pkidx: Seq<int>,
    k: int,
)
    requires
        0 <= k <= rows.len(),
    ensures
        forall|c: int|
            0 <= c < cand_indices_upto(m, sc, sn, rows, pkidx, k).len() ==> 0
                <= #[trigger] cand_indices_upto(m, sc, sn, rows, pkidx, k)[c] < k,
        forall|c1: int, c2: int|
            0 <= c1 < c2 < cand_indices_upto(m, sc, sn, rows, pkidx, k).len()
                ==> cand_indices_upto(m, sc, sn, rows, pkidx, k)[c1] < cand_indices_upto(
                m,
                sc,
                sn,
                rows,
                pkidx,
                k,
            )[c2],
        forall|c: int|
            0 <= c < cand_indices_upto(m, sc, sn, rows, pkidx, k).len() ==> row_passes(
                m,
                sc,
                sn,
                rows[#[trigger] cand_indices_upto(m, sc, sn, rows, pkidx, k)[c]],
                pkidx,
            ),
    decreases k,
{
    if k > 0 {
        lemma_cand_indices_bounds(m, sc, sn, rows, pkidx, k - 1);
        let prev = cand_indices_upto(m, sc, sn, rows, pkidx, k - 1);
        let cur = cand_indices_upto(m, sc, sn, rows, pkidx, k);
        if row_passes(m, sc, sn, rows[k - 1], pkidx) {
            assert(cur == prev + seq![k - 1]);
            assert forall|c: int| 0 <= c < cur.len() implies 0 <= #[trigger] cur[c] < k
                && row_passes(m, sc, sn, rows[cur[c]], pkidx) by {
                if c < prev.len() {
                    assert(cur[c] == prev[c]);
                } else {
                    assert(cur[c] == k - 1);
                }
            }
            assert forall|c1: int, c2: int| 0 <= c1 < c2 < cur.len() implies cur[c1]
                < cur[c2] by {
                if c2 < prev.len() {
                    assert(cur[c1] == prev[c1] && cur[c2] == prev[c2]);
                } else {
                    assert(cur[c2] == k - 1);
                    assert(cur[c1] == prev[c1]);
                }
            }
        } else {
            assert(cur == prev + Seq::<int>::empty());
            assert(cur =~= prev);
        }
    }
}

/// Every cell of a destination row is the matching target cell, and key
/// cells are non-null.
pub open spec fn dest_rows_ok(
    m: MappingCfg,
    sc: ArrowLikeSchema,
    sn: Seq<Seq<char>>,
    rows: Seq<Seq<VVal>>,
    idx: Seq<int>,
    out: Seq<Vec<Value>>,
) -> bool {
    &&& out.len() == idx.len()
    &&& forall|c: int, j: int|
        0 <= c < idx.len() && 0 <= j < sc.fields@.len() ==> ((#[trigger] out[c]@[j])@
            == spec_target_cell(m, sc, sn, rows[idx[c]], j))
    &&& forall|c: int|
        0 <= c < idx.len() ==> (#[trigger] out[c])@.len() == sc.fields@.len() && wf_row(out[c]@)
}


/// Projects one augmented row onto the schema: target cells in schema
/// order.
#[verifier::loop_isolation(false)]
#[verifier::spinoff_prover]
fn project_row(
    wtrow: &Vec<Value>,
    positions: &Vec<usize>,
    nfields: usize,
    Ghost(m): Ghost<MappingCfg>,
    Ghost(sc): Ghost<ArrowLikeSchema>,
    Ghost(sn): Ghost<Seq<Seq<char>>>,
    Ghost(srow): Ghost<Seq<VVal>>,
) -> (drow: Vec<Value>)
    requires
        nfields == sc.fields@.len(),
        crate::mapping::names_distinct(schema_names(sc)),
        crate::coerce::row_view(wtrow@) =~= crate::plan::spec_wt_row(m, sc, sn, srow),
        wtrow@.len() == wt_names(sn, sc).len(),
        wf_row(wtrow@),
        positions@.len() == nfields,
        forall|j2: int|
            0 <= j2 < positions@.len() ==> (#[trigger] positions@[j2]) as int == target_pos(
                sn,
                sc,
                j2,
            ) && positions@[j2] < wtrow@.len(),
    ensures
        drow@.len() == nfields,
        forall|j3: int|
            0 <= j3 < nfields ==> ((#[trigger] drow@[j3])@ == spec_target_cell(m, sc, sn, srow, j3)
                && crate::value::wf_value(drow@[j3]@)),
{
    let mut drow: Vec<Value> = Vec::new();
    let mut j2: usize = 0;
    while j2 < nfields
        invariant
            j2 <= nfields,
            drow@.len() == j2,
            forall|j3: int|
                0 <= j3 < j2 ==> ((#[trigger] drow@[j3])@ == spec_target_cell(m, sc, sn, srow, j3)
                    && crate::value::wf_value(drow@[j3]@)),
        decreases nfields - j2,
    {
        proof {
            crate::plan::lemma_wt_row_at_target(m, sc, sn, srow, j2 as int);
        }
        drow.push(wtrow[positions[j2]].clone());
        j2 = j2 + 1;
    }
    drow
}

/// Whether no key cell of a projected row is null.
#[verifier::loop_isolation(false)]
#[verifier::spinoff_prover]
fn pk_complete_check(
    drow: &Vec<Value>,
    pk_idx: &Vec<usize>,
    Ghost(m): Ghost<MappingCfg>,
    Ghost(sc): Ghost<ArrowLikeSchema>,
    Ghost(sn): Ghost<Seq<Seq<char>>>,
    Ghost(srow): Ghost<Seq<VVal>>,
    Ghost(pkidx): Ghost<Seq<int>>,
) -> (r: bool)
    requires
        drow@.len() == sc.fields@.len(),
        forall|j3: int|
            0 <= j3 < drow@.len() ==> ((#[trigger] drow@[j3])@ == spec_target_cell(
                m,
                sc,
                sn,
                srow,
                j3,
            )),
        pkidx.len() == pk_idx@.len(),
        forall|p2: int| 0 <= p2 < pkidx.len() ==> #[trigger] pkidx[p2] == pk_idx@[p2] as int,
        forall|p2: int| 0 <= p2 < pkidx.len() ==> 0 <= #[trigger] pkidx[p2] < sc.fields@.len(),
    ensures
        r == (forall|p3: int|
            0 <= p3 < pkidx.len() ==> !(spec_target_cell(m, sc, sn, srow, #[trigger] pkidx[p3])
                is Null)),
{
    let mut pk_complete = true;
    let mut p2: usize = 0;
    while p2 < pk_idx.len()
        invariant
            p2 <= pk_idx@.len(),
            pk_complete == (forall|p3: int|
                0 <= p3 < p2 ==> !(spec_target_cell(m, sc, sn, srow, #[trigger] pkidx[p3])
                    is Null)),
        decreases pk_idx@.len() - p2,
    {
        let cell_null = match &drow[pk_idx[p2]] {
            Value::Null => true,
            _ => false,
        };
        proof {
            assert(pkidx[p2 as int] == pk_idx@[p2 as int] as int);
            assert((drow@[pk_idx@[p2 as int] as int])@ == spec_target_cell(
                m,
                sc,
                sn,
                srow,
                pkidx[p2 as int],
            ));
        }
        if cell_null {
            pk_complete = false;
        }
        p2 = p2 + 1;
    }
    pk_complete
}

/// Renders the dedup key of a projected row.
#[verifier::loop_isolation(false)]
#[verifier::spinoff_prover]
fn render_key(
    drow: &Vec<Value>,
    pk_idx: &Vec<usize>,
    Ghost(m): Ghost<MappingCfg>,
    Ghost(sc): Ghost<ArrowLikeSchema>,
    Ghost(sn): Ghost<Seq<Seq<char>>>,
    Ghost(srow): Ghost<Seq<VVal>>,
    Ghost(pkidx): Ghost<Seq<int>>,
) -> (key: String)
    requires
        drow@.len() == sc.fields@.len(),
        forall|j3: int|
            0 <= j3 < drow@.len() ==> ((#[trigger] drow@[j3])@ == spec_target_cell(
                m,
                sc,
                sn,
                srow,
                j3,
            ) && crate::value::wf_value(drow@[j3]@)),
        pkidx.len() == pk_idx@.len(),
        forall|p2: int| 0 <= p2 < pkidx.len() ==> #[trigger] pkidx[p2] == pk_idx@[p2] as int,
        forall|p2: int| 0 <= p2 < pkidx.len() ==> 0 <= #[trigger] pkidx[p2] < sc.fields@.len(),
    ensures
        key@ == row_key_spec(m, sc, sn, srow, pkidx),
{
    let mut vals: Vec<Option<String>> = Vec::new();
    let mut p3: usize = 0;
    while p3 < pk_idx.len()
        invariant
            p3 <= pk_idx@.len(),
            vals@.len() == p3,
            forall|p4: int|
                0 <= p4 < p3 ==> crate::keys::opt_view(#[trigger] vals@[p4]) == value_text(
                    spec_target_cell(m, sc, sn, srow, pkidx[p4]),
                ),
        decreases pk_idx@.len() - p3,
    {
        proof {
            assert(0 <= pkidx[p3 as int] < sc.fields@.len());
        }
        let rv = crate::value::render_value(&drow[pk_idx[p3]]);
        vals.push(rv);
        p3 = p3 + 1;
    }
    let key = crate::keys::row_key(&vals);
    proof {
        assert(vals@.map(|i2: int, v: Option<String>| crate::keys::opt_view(v)) =~= key_vals(
            m,
            sc,
            sn,
            srow,
            pkidx,
        ));
    }
    key
}

/// Collects the surviving rows, projected onto the schema, with their
/// dedup keys.
#[verifier::rlimit(100)]
#[verifier::loop_isolation(false)]
#[verifier::spinoff_prover]
fn collect_candidates(
    source: &Frame,
    m: &MappingCfg,
    sc: &ArrowLikeSchema,
    out: &PlanOutcome,
    positions: &Vec<usize>,
    pk_idx: &Vec<usize>,
    Ghost(pkidx): Ghost<Seq<int>>,
) -> (r: (Vec<Vec<Value>>, Vec<String>))
    requires
        wf_frame(*source),
        outcome_matches(*out, *source, *m, *sc),
        plan_ok(*m, *sc, names_view(source.names@)),
        positions@.len() == sc.fields@.len(),
        forall|j2: int|
            0 <= j2 < positions@.len() ==> (#[trigger] positions@[j2]) as int == target_pos(
                names_view(source.names@),
                *sc,
                j2,
            ) && positions@[j2] < out.with_targets.names@.len(),
        pkidx.len() == pk_idx@.len(),
        forall|p2: int| 0 <= p2 < pkidx.len() ==> #[trigger] pkidx[p2] == pk_idx@[p2] as int,
        forall|p2: int| 0 <= p2 < pkidx.len() ==> 0 <= #[trigger] pkidx[p2] < sc.fields@.len(),
    ensures
        ({
            let sn = names_view(source.names@);
            let srows = frame_srows(*source);
            let ci = cand_indices(*m, *sc, sn, srows, pkidx);
            &&& r.0@.len() == ci.len()
            &&& r.1@.len() == ci.len()
            &&& dest_rows_ok(*m, *sc, sn, srows, ci, r.0@)
            &&& names_view(r.1@) =~= cand_keys(*m, *sc, sn, srows, pkidx)
        }),
{
    let ghost sn = names_view(source.names@);
    let ghost srows = frame_srows(*source);
    let n = source.rows.len();
    let nfields = sc.fields.len();
    proof {
        assert(names_view(out.with_targets.names@) == wt_names(sn, *sc));
    }
    let mut cand_rows: Vec<Vec<Value>> = Vec::new();
    let mut ckeys: Vec<String> = Vec::new();
    let mut i: usize = 0;
    while i < n
        invariant
            i <= n,
            cand_indices_upto(*m, *sc, sn, srows, pkidx, i as int).len() == cand_rows@.len(),
            ckeys@.len() == cand_rows@.len(),
            dest_rows_ok(
                *m,
                *sc,
                sn,
                srows,
                cand_indices_upto(*m, *sc, sn, srows, pkidx, i as int),
                cand_rows@,
            ),
            forall|c: int|
                0 <= c < ckeys@.len() ==> (#[trigger] names_view(ckeys@)[c]) == row_key_spec(
                    *m,
                    *sc,
                    sn,
                    srows[cand_indices_upto(*m, *sc, sn, srows, pkidx, i as int)[c]],
                    pkidx,
                ),
        decreases n - i,
    {
        let ghost pre = cand_indices_upto(*m, *sc, sn, srows, pkidx, i as int);
        let ghost srow = srows[i as int];
        proof {
            assert(srow == crate::coerce::row_view(source.rows@[i as int]@));
            assert(crate::coerce::row_view(out.with_targets.rows@[i as int]@)
                =~= crate::plan::spec_wt_row(*m, *sc, sn, srow));
        }
        if out.keep[i] {
            let wtrow = &out.with_targets.rows[i];
            let drow = project_row(
                wtrow,
                positions,
                nfields,
                Ghost(*m),
                Ghost(*sc),
                Ghost(sn),
                Ghost(srow),
            );
            let pk_complete = pk_complete_check(
                &drow,
                pk_idx,
                Ghost(*m),
                Ghost(*sc),
                Ghost(sn),
                Ghost(srow),
                Ghost(pkidx),
            );
            if pk_complete {
                proof {
                    assert(row_passes(*m, *sc, sn, srow, pkidx));
                    assert(cand_indices_upto(*m, *sc, sn, srows, pkidx, i as int + 1) == pre
                        + seq![i as int]);
                }
                let key = render_key(
                    &drow,
                    pk_idx,
                    Ghost(*m),
                    Ghost(*sc),
                    Ghost(sn),
                    Ghost(srow),
                    Ghost(pkidx),
                );
                let ghost prev_rows = cand_rows@;
                let ghost prev_kvec = ckeys@;
                let ghost prev_keys = names_view(ckeys@);
                cand_rows.push(drow);
                ckeys.push(key);
                proof {
                    let cur = cand_indices_upto(*m, *sc, sn, srows, pkidx, i as int + 1);
                    assert forall|c: int, j3: int|
                        0 <= c < cur.len() && 0 <= j3 < sc.fields@.len() implies ((
                    #[trigger] cand_rows@[c]@[j3])@ == spec_target_cell(
                        *m,
                        *sc,
                        sn,
                        srows[cur[c]],
                        j3,
                    )) by {
                        if c < pre.len() {
                            assert((pre + seq![i as int])[c] == pre[c]);
                            assert(cand_rows@[c] == prev_rows[c]);
                        } else {
                            assert((pre + seq![i as int])[c] == i as int);
                        }
                    }
                    assert forall|c: int| 0 <= c < cur.len() implies (
                    #[trigger] cand_rows@[c])@.len() == sc.fields@.len() && wf_row(
                        cand_rows@[c]@,
                    ) by {
                        if c < pre.len() {
                            assert(cand_rows@[c] == prev_rows[c]);
                        }
                    }
                    assert forall|c: int| 0 <= c < ckeys@.len() implies (#[trigger] names_view(
                        ckeys@,
                    )[c]) == row_key_spec(*m, *sc, sn, srows[cur[c]], pkidx) by {
                        if c < pre.len() {
                            assert((pre + seq![i as int])[c] == pre[c]);
                            assert(ckeys@[c] == prev_kvec[c]);
                            assert(names_view(ckeys@)[c] == prev_kvec[c]@);
                            assert(prev_keys[c] == prev_kvec[c]@);
                        } else {
                            assert((pre + seq![i as int])[c] == i as int);
                            assert(names_view(ckeys@)[c] == key@);
                        }
                    }
                }
            } else {
                proof {
                    assert(!row_passes(*m, *sc, sn, srow, pkidx)) by {
                        let pbad = choose|p3: int|
                            0 <= p3 < pkidx.len() && (spec_target_cell(
                                *m,
                                *sc,
                                sn,
                                srow,
                                pkidx[p3],
                            ) is Null);
                        assert(spec_target_cell(*m, *sc, sn, srow, pkidx[pbad]) is Null);
                    }
                    assert(cand_indices_upto(*m, *sc, sn, srows, pkidx, i as int + 1) =~= pre);
                }
            }
        } else {
            proof {
                assert(!spec_keep(*m, *sc, sn, srow));
                assert(!row_passes(*m, *sc, sn, srow, pkidx));
                assert(cand_indices_upto(*m, *sc, sn, srows, pkidx, i as int + 1) =~= pre);
            }
        }
        i = i + 1;
    }
    proof {
        let ci = cand_indices(*m, *sc, sn, srows, pkidx);
        assert(ci == cand_indices_upto(*m, *sc, sn, srows, pkidx, n as int));
        assert(names_view(ckeys@) =~= cand_keys(*m, *sc, sn, srows, pkidx));
    }
    (cand_rows, ckeys)
}

/// Runs the core of one pipeline request on a staged source frame: builds
/// and evaluates the plan, keeps accepted rows with complete keys,
/// deduplicates keep-first, removes rows whose key is already committed,
/// and assembles the report. Accepts exactly the requests whose plan is
/// well-formed and whose key columns exist in the declared schema.
#[verifier::rlimit(100)]
#[verifier::loop_isolation(false)]
#[verifier::spinoff_prover]
pub fn run_core(
    source: &Frame,
    m: &MappingCfg,
    sc: &ArrowLikeSchema,
    primary_key: &Vec<String>,
    existing_keys: &Vec<String>,
) -> (r: Result<RunOutcome, EtlError>)
    requires
        wf_frame(*source),
        source.rows@.len() <= 0x7fffffffffffffff,
    ensures
        r is Ok <==> (plan_ok(*m, *sc, names_view(source.names@)) && pk_ok(
            *sc,
            names_view(primary_key@),
        )),
        r is Err ==> (crate::plan::plan_error(r->Err_0) || r->Err_0 is UnknownColumn),
        (r is Err && plan_ok(*m, *sc, names_view(source.names@))) ==> r->Err_0 is UnknownColumn,
        r is Ok ==> run_outcome_matches(
            r->Ok_0,
            *source,
            *m,
            *sc,
            names_view(primary_key@),
            names_view(existing_keys@),
        ),
{
    let ghost sn = names_view(source.names@);
    let ghost srows = frame_srows(*source);
    let ghost pkv = names_view(primary_key@);
    let n = source.rows.len();
    let nfields = sc.fields.len();
    // 1) plan
    let out = match build_plan(source, m, sc) {
        Ok(o) => o,
        Err(e) => {
            return Err(e);
        },
    };
    proof {
        assert(outcome_matches(out, *source, *m, *sc));
    }
    // 2) schema names; key column positions in the schema
    let fnames = crate::mapping::names_of_fields(sc);
    proof {
        assert(names_view(fnames@) == schema_names(*sc));
    }
    let mut pk_idx: Vec<usize> = Vec::new();
    let mut p: usize = 0;
    while p < primary_key.len()
        invariant
            p <= primary_key@.len(),
            pk_idx@.len() == p,
            forall|p2: int|
                0 <= p2 < p ==> spec_col_index(schema_names(*sc), #[trigger] pkv[p2]) is Some,
            forall|p2: int|
                0 <= p2 < p ==> (#[trigger] pk_idx@[p2]) as int == spec_col_index(
                    schema_names(*sc),
                    pkv[p2],
                )->0 && pk_idx@[p2] < nfields,
        decreases primary_key@.len() - p,
    {
        match crate::frame::find_col(&fnames, primary_key[p].as_str()) {
            Some(k) => {
                proof {
                    crate::frame::lemma_col_index_from_props(schema_names(*sc), pkv[p as int], 0);
                }
                pk_idx.push(k);
            },
            None => {
                proof {
                    assert(names_view(primary_key@)[p as int] == primary_key@[p as int]@);
                    assert(spec_col_index(schema_names(*sc), pkv[p as int]) is None);
                }
                return Err(EtlError::UnknownColumn(primary_key[p].clone()));
            },
        }
        p = p + 1;
    }
    proof {
        assert(pk_ok(*sc, pkv));
    }
    let ghost pkidx = pk_schema_indices(*sc, pkv);
    proof {
        assert(pkidx.len() == pk_idx@.len());
        assert(forall|p2: int|
            0 <= p2 < pkidx.len() ==> #[trigger] pkidx[p2] == pk_idx@[p2] as int);
    }
    // 3) target positions in the augmented frame
    proof {
        assert(names_view(out.with_targets.names@) == wt_names(sn, *sc));
    }
    let mut positions: Vec<usize> = Vec::new();
    let mut j: usize = 0;
    while j < nfields
        invariant
            j <= nfields,
            positions@.len() == j,
            forall|j2: int|
                0 <= j2 < j ==> (#[trigger] positions@[j2]) as int == target_pos(sn, *sc, j2)
                    && positions@[j2] < out.with_targets.names@.len(),
        decreases nfields - j,
    {
        proof {
            crate::plan::lemma_target_has_pos(sn, *sc, j as int);
            crate::frame::lemma_col_index_from_props(
                wt_names(sn, *sc),
                sc.fields@[j as int].name@,
                0,
            );
        }
        match crate::frame::find_col(&out.with_targets.names, sc.fields[j].name.as_str()) {
            Some(k) => {
                positions.push(k);
            },
            None => {
                proof {
                    assert(false);
                }
            },
        }
        j = j + 1;
    }
    // 4) surviving rows and their keys
    let (cand_rows, ckeys) = collect_candidates(
        source,
        m,
        sc,
        &out,
        &positions,
        &pk_idx,
        Ghost(pkidx),
    );
    let ghost ci = cand_indices(*m, *sc, sn, srows, pkidx);
    let ghost ck = cand_keys(*m, *sc, sn, srows, pkidx);
    proof {
        lemma_cand_indices_bounds(*m, *sc, sn, srows, pkidx, n as int);
        lemma_increasing_len_le(ci, n as int);
    }
    // 5) dedup and anti-join when a key is configured
    let has_pk = primary_key.len() > 0;
    let (w_rows, w_keys): (Vec<Vec<Value>>, Vec<String>) = if has_pk {
        let (u_rows, u_keys) = crate::keys::unique_stable_by_key(&cand_rows, &ckeys);
        proof {
            assert(names_view(u_keys@) =~= picked(ck, uniq_indices(ck)));
        }
        let (a_rows, a_keys) = crate::keys::anti_join_by_key(&u_rows, &u_keys, existing_keys);
        (a_rows, a_keys)
    } else {
        (cand_rows, ckeys)
    };
    proof {
        if pkv.len() > 0 {
            let u = picked(ck, uniq_indices(ck));
            let ai = anti_indices(u, names_view(existing_keys@));
            lemma_uniq_indices_bounds(ck, ck.len() as int);
            lemma_anti_indices_bounds(u, names_view(existing_keys@), u.len() as int);
            assert(names_view(w_keys@) =~= written_keys_spec(
                *m,
                *sc,
                sn,
                srows,
                pkidx,
                names_view(existing_keys@),
            ));
            assert(w_rows@.len() == names_view(w_keys@).len());
        }
    }
    proof {
        lemma_uniq_indices_bounds(ck, ck.len() as int);
        lemma_increasing_len_le(uniq_indices(ck), ck.len() as int);
        if pkv.len() > 0 {
            let u = picked(ck, uniq_indices(ck));
            lemma_anti_indices_bounds(u, names_view(existing_keys@), u.len() as int);
            lemma_increasing_len_le(
                anti_indices(u, names_view(existing_keys@)),
                u.len() as int,
            );
        }
        assert(w_rows@.len() <= n);
    }
    let dest = w_rows.len();
    // 6) report pieces
    let dq_all = crate::plan::aggregate_dq_summary(&out);
    proof {
        assert forall|c: int| 0 <= c < out.violation_flags@.len() implies (
        #[trigger] out.violation_flags@[c])@ =~= spec_flag_col(*m, *sc, sn, srows, c) by {
            assert(out.violation_flags@[c]@.len() == n);
        }
    }
    let nrules = m.dq_rules.len();
    let mut dq: Vec<crate::report::DqSummaryItem> = Vec::new();
    let mut dc: usize = 0;
    while dc < nrules
        invariant
            dc <= nrules,
            dq@.len() == dc,
            forall|c: int| 0 <= c < dc ==> #[trigger] dq@[c] == dq_all@[c],
        decreases nrules - dc,
    {
        dq.push(dq_all[dc].clone());
        dc = dc + 1;
    }
    let nflags = dq_all.len() - nrules;
    let mut fc2: usize = 0;
    while fc2 < nflags
        invariant
            fc2 <= nflags,
            nrules == m.dq_rules@.len(),
            nflags == nonstr_targets(*sc).len(),
            dq_all@.len() == nrules + nflags,
            forall|c: int|
                0 <= c < dq_all@.len() ==> (#[trigger] dq_all@[c]).violations as int == count_true(
                    spec_flag_col(*m, *sc, sn, srows, c),
                ) && dq_all@[c].checked_rows as int == n && dq_all@[c].rule_code@
                    == out.violation_codes@[c]@,
            dq@.len() == nrules + reported_flags_upto(*m, *sc, sn, srows, fc2 as int).len(),
            forall|c: int| 0 <= c < nrules ==> #[trigger] dq@[c] == dq_all@[c],
            forall|c: int|
                nrules <= c < dq@.len() ==> #[trigger] dq@[c] == dq_all@[nrules
                    + reported_flags_upto(*m, *sc, sn, srows, fc2 as int)[c - nrules]],
        decreases nflags - fc2,
    {
        let ghost pre = reported_flags_upto(*m, *sc, sn, srows, fc2 as int);
        let item = &dq_all[nrules + fc2];
        proof {
            assert(dq_all@[nrules + fc2 as int].violations as int == count_true(
                spec_flag_col(*m, *sc, sn, srows, nrules + fc2 as int),
            ));
            assert(*item == dq_all@[nrules + fc2 as int]);
        }
        if item.violations > 0 {
            let ghost prev = dq@;
            dq.push(item.clone());
            proof {
                let cur = reported_flags_upto(*m, *sc, sn, srows, fc2 as int + 1);
                assert(cur == pre + seq![fc2 as int]);
                assert forall|c: int| nrules <= c < dq@.len() implies #[trigger] dq@[c]
                    == dq_all@[nrules + cur[c - nrules]] by {
                    if c < prev.len() {
                        assert(dq@[c] == prev[c]);
                        assert((pre + seq![fc2 as int])[c - nrules] == pre[c - nrules]);
                    } else {
                        assert((pre + seq![fc2 as int])[c - nrules] == fc2 as int);
                    }
                }
            }
        } else {
            proof {
                assert(reported_flags_upto(*m, *sc, sn, srows, fc2 as int + 1) =~= pre);
            }
        }
        fc2 = fc2 + 1;
    }
    let samples = crate::plan::collect_invalid_samples(&out, 1000);
    proof {
        assert(out.invalid@ =~= spec_invalid_col(*m, *sc, sn, srows));
    }
    let mut logs: Vec<String> = Vec::new();
    logs.push("stage: read source".to_owned());
    logs.push("stage: apply mapping".to_owned());
    logs.push("stage: apply dedup".to_owned());
    if dest == 0 {
        logs.push("stage: append unique (no new rows)".to_owned());
        logs.push("stage: compute DQ summary".to_owned());
    } else {
        logs.push("stage: append unique".to_owned());
        logs.push("stage: write dest".to_owned());
        logs.push("stage: write keys index".to_owned());
        logs.push("stage: compute DQ summary".to_owned());
    }
    let report = RunResp {
        snapshot: String::new(),
        ori_rows: n as i64,
        dest_rows: dest as i64,
        rejected_rows: (n as i64) - (dest as i64),
        error_samples: samples,
        dq_summary: dq,
        logs,
    };
    let to_write: Option<Frame> = if dest == 0 {
        None
    } else {
        Some(Frame { names: fnames, rows: w_rows })
    };
    let written_keys = if has_pk {
        w_keys
    } else {
        Vec::new()
    };
    let outcome = RunOutcome { to_write, written_keys, report };
    proof {
        let rep = reported_flags(*m, *sc, sn, srows);
        assert(rep == reported_flags_upto(*m, *sc, sn, srows, nonstr_targets(*sc).len() as int));
        assert(outcome.report.dq_summary@.len() == m.dq_rules@.len() + rep.len());
        assert forall|c: int|
            m.dq_rules@.len() <= c < outcome.report.dq_summary@.len() implies {
            let f = rep[c - m.dq_rules@.len()];
            &&& (#[trigger] outcome.report.dq_summary@[c]).violations as int == count_true(
                spec_flag_col(*m, *sc, sn, srows, m.dq_rules@.len() + f),
            )
            &&& outcome.report.dq_summary@[c].violations > 0
            &&& outcome.report.dq_summary@[c].rule_code@ == crate::mapping::spec_parse_fail_code(
                sc.fields@[nonstr_targets(*sc)[f]].name@,
            )
            &&& outcome.report.dq_summary@[c].checked_rows as int == n
        } by {
            let f = rep[c - m.dq_rules@.len()];
            lemma_reported_flags_bounds(*m, *sc, sn, srows, nonstr_targets(*sc).len() as int);
            assert(outcome.report.dq_summary@[c] == dq_all@[m.dq_rules@.len() + f]);
            assert(dq_all@[m.dq_rules@.len() + f].rule_code@ == out.violation_codes@[m.dq_rules@.len()
                + f]@);
        }
        assert(run_outcome_matches(outcome, *source, *m, *sc, pkv, names_view(existing_keys@)));
    }
    Ok(outcome)
}

} // verus!
