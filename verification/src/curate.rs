//! The Silver-to-Gold curation pass: partition keys by year and
//! department, the Gold directory layout, and the manifest text.

use vstd::prelude::*;
use crate::text::spec_trim;

verus! {

/// Counters of one curation run.
#[derive(Debug)]
pub struct CurateStats {
    pub files_written: u32,
    pub rows_written: u64,
    pub snapshot_dir: String,
    pub commit_path: String,
}

/// Configuration of one curation run.
#[derive(Debug)]
pub struct CurateConfig {
    pub slug: String,
    pub ingest_date: String,
    pub snapshot_date: String,
    pub storage_root: String,
    pub silver_dir: String,
    pub gold_dir: String,
    pub manifests_dir: String,
}

/// The department half of a partition key: the trimmed department, or
/// the unknown token for null or blank.
pub open spec fn spec_dept_key(dept: Option<Seq<char>>) -> Seq<char> {
    match dept {
        Some(s) => if spec_trim(s).len() == 0 {
            "UNK"@
        } else {
            spec_trim(s)
        },
        None => "UNK"@,
    }
}

/// Builds the department half of a row's partition key.
pub fn dept_key(dept: &Option<String>) -> (r: String)
    ensures
        r@ == spec_dept_key(crate::dvf::opt_str_view(*dept)),
{
    match dept {
        Some(s) => {
            let t = crate::text::trim_spaces(s.as_str());
            if t.as_str().unicode_len() == 0 {
                "UNK".to_owned()
            } else {
                t
            }
        },
        None => "UNK".to_owned(),
    }
}

/// The partition keys of every row, in row order.
pub fn partition_keys(years: &Vec<i16>, depts: &Vec<Option<String>>) -> (r: Vec<(i16, String)>)
    requires
        years@.len() == depts@.len(),
    ensures
        r@.len() == years@.len(),
        forall|i: int|
            0 <= i < r@.len() ==> (#[trigger] r@[i]).0 == years@[i] && r@[i].1@ == spec_dept_key(
                crate::dvf::opt_str_view(depts@[i]),
            ),
{
    let mut out: Vec<(i16, String)> = Vec::new();
    let mut i: usize = 0;
    while i < years.len()
        invariant
            i <= years@.len(),
            years@.len() == depts@.len(),
            out@.len() == i,
            forall|i2: int|
                0 <= i2 < i ==> (#[trigger] out@[i2]).0 == years@[i2] && out@[i2].1@
                    == spec_dept_key(crate::dvf::opt_str_view(depts@[i2])),
        decreases years@.len() - i,
    {
        out.push((years[i], dept_key(&depts[i])));
        i = i + 1;
    }
    out
}

/// `{root}/{gold_dir}/{slug}/snapshot_date={d}/year={y}/dept={c}`: one
/// Gold partition's directory.
pub fn gold_partition_dir(
    root: &str,
    gold_dir: &str,
    slug: &str,
    snapshot_date: &str,
    year: i16,
    dept: &str,
) -> (r: String)
    requires
        year >= 0,
    ensures
        r@ == root@ + "/"@ + gold_dir@ + "/"@ + slug@ + "/snapshot_date="@ + snapshot_date@
            + "/year="@ + crate::num::int_rep(year as int) + "/dept="@ + dept@,
{
    let mut s: String = root.to_owned();
    s.append("/");
    s.append(gold_dir);
    s.append("/");
    s.append(slug);
    s.append("/snapshot_date=");
    s.append(snapshot_date);
    s.append("/year=");
    let yd = crate::num::render_i64(year as i64);
    let ys = crate::text::chars_to_string(&yd);
    s.append(ys.as_str());
    s.append("/dept=");
    s.append(dept);
    proof {
        reveal_strlit("/");
        reveal_strlit("/snapshot_date=");
        reveal_strlit("/year=");
        reveal_strlit("/dept=");
        assert(s@ =~= root@ + "/"@ + gold_dir@ + "/"@ + slug@ + "/snapshot_date="@
            + snapshot_date@ + "/year="@ + crate::num::int_rep(year as int) + "/dept="@ + dept@);
    }
    s
}

/// The text of `latest.json`: the snapshot date alone.
pub open spec fn spec_latest_json(snapshot_date: Seq<char>) -> Seq<char> {
    "{\"snapshot_date\":\""@ + snapshot_date + "\"}"@
}

/// Builds the text of `latest.json`.
pub fn latest_json(snapshot_date: &str) -> (r: String)
    ensures
        r@ == spec_latest_json(snapshot_date@),
{
    let mut s: String = "{\"snapshot_date\":\"".to_owned();
    s.append(snapshot_date);
    s.append("\"}");
    s
}

} // verus!
