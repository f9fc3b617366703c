//! The analytical-catalog collaborators' verified half: dataset
//! descriptors and the view statement over a table's Parquet files. The
//! engine itself runs outside this crate.

use vstd::prelude::*;
use crate::text::{spec_escape_single_quotes, spec_sanitize_ident};

verus! {

/// Configuration of one catalog refresh.
#[derive(Debug)]
pub struct RefreshCfg {
    pub slug: String,
    pub storage_root: String,
    pub manifests_dir: String,
    pub gold_dir: String,
    pub snapshot_date: Option<String>,
    pub duckdb_path: String,
}

/// A dataset's descriptor.
#[derive(Debug)]
pub struct DatasetDescriptor {
    pub slug: String,
    pub schema_version: u32,
    pub format: String,
}

/// Loads the descriptor of a dataset; today one dataset is known.
pub fn load_descriptor(slug: &str) -> (r: Result<DatasetDescriptor, crate::report::EtlError>)
    ensures
        r is Ok,
        r is Ok ==> (r->Ok_0.slug@ == "dvf"@ && r->Ok_0.schema_version == 1 && r->Ok_0.format@
            == "csv"@),
{
    Ok(
        DatasetDescriptor {
            slug: "dvf".to_owned(),
            schema_version: 1,
            format: "csv".to_owned(),
        },
    )
}

/// `{base}/{schema}.duckdb`: the catalog file of a namespace, its name
/// sanitized.
pub fn duckdb_db_path(base_dir: &str, schema: &str) -> (r: String)
    ensures
        r@ == base_dir@ + "/"@ + spec_sanitize_ident(schema@) + ".duckdb"@,
{
    let ident = crate::text::sanitize_ident(schema);
    let mut s: String = base_dir.to_owned();
    s.append("/");
    s.append(ident.as_str());
    s.append(".duckdb");
    s
}

/// The statement registering a view over a table's Parquet files: create
/// the schema if absent, then replace the view.
pub open spec fn spec_view_sql(
    schema: Seq<char>,
    view: Seq<char>,
    glob: Seq<char>,
) -> Seq<char> {
    "CREATE SCHEMA IF NOT EXISTS \""@ + spec_sanitize_ident(schema) + "\"; CREATE OR REPLACE VIEW \""@
        + spec_sanitize_ident(schema) + "\".\""@ + spec_sanitize_ident(view)
        + "\" AS SELECT * FROM read_parquet('"@ + spec_escape_single_quotes(glob) + "');"@
}

/// Builds the view statement, its identifiers sanitized and the glob's
/// quotes escaped.
pub fn register_view_sql(schema: &str, view_name: &str, parquet_glob: &str) -> (r: String)
    ensures
        r@ == spec_view_sql(schema@, view_name@, parquet_glob@),
{
    let schema_ident = crate::text::sanitize_ident(schema);
    let view_ident = crate::text::sanitize_ident(view_name);
    let glob_sql = crate::text::escape_single_quotes(parquet_glob);
    let mut s: String = "CREATE SCHEMA IF NOT EXISTS \"".to_owned();
    s.append(schema_ident.as_str());
    s.append("\"; CREATE OR REPLACE VIEW \"");
    s.append(schema_ident.as_str());
    s.append("\".\"");
    s.append(view_ident.as_str());
    s.append("\" AS SELECT * FROM read_parquet('");
    s.append(glob_sql.as_str());
    s.append("');");
    s
}

} // verus!
