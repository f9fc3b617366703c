//! The CSV-to-Bronze landing pass: cell shaping (trimmed, empty as null)
//! and the Bronze directory layout.

use vstd::prelude::*;
use crate::text::spec_trim;

verus! {

/// Where a source file comes from.
#[derive(Debug)]
pub enum SourceKind {
    LocalFile,
}

/// Configuration of one ingest run.
#[derive(Debug)]
pub struct IngestConfig {
    pub slug: String,
    pub source: SourceKind,
    pub ingest_date: String,
    pub storage_root: String,
    pub bronze_dir: String,
}

/// Counters of one ingest run.
#[derive(Debug)]
pub struct IngestStats {
    pub rows_in: u64,
    pub bytes_in: u64,
    pub parts_written: u32,
    pub out_path: String,
}

/// What landing does to one source cell: trimmed text, with empty text
/// landed as null.
pub open spec fn spec_bronze_cell(v: Option<Seq<char>>) -> Option<Seq<char>> {
    match v {
        Some(s) => if spec_trim(s).len() == 0 {
            None
        } else {
            Some(spec_trim(s))
        },
        None => None,
    }
}

/// Shapes one record's cells for Bronze: each cell trimmed, empty cells
/// null; short records are padded with nulls to the header width.
pub fn bronze_cells(record: &Vec<String>, width: usize) -> (r: Vec<Option<String>>)
    ensures
        r@.len() == width,
        forall|i: int|
            0 <= i < width ==> crate::dvf::opt_str_view(#[trigger] r@[i]) == spec_bronze_cell(
                if i < record@.len() {
                    Some(record@[i]@)
                } else {
                    None
                },
            ),
{
    let mut out: Vec<Option<String>> = Vec::new();
    let mut i: usize = 0;
    while i < width
        invariant
            i <= width,
            out@.len() == i,
            forall|i2: int|
                0 <= i2 < i ==> crate::dvf::opt_str_view(#[trigger] out@[i2]) == spec_bronze_cell(
                    if i2 < record@.len() {
                        Some(record@[i2]@)
                    } else {
                        None
                    },
                ),
        decreases width - i,
    {
        if i < record.len() {
            let t = crate::text::trim_spaces(record[i].as_str());
            if t.as_str().unicode_len() == 0 {
                out.push(None);
            } else {
                out.push(Some(t));
            }
        } else {
            out.push(None);
        }
        i = i + 1;
    }
    out
}

/// `{root}/{bronze_dir}/{slug}/ingest_date={date}`: where one ingest's
/// Bronze part lands.
pub fn bronze_dir_path(root: &str, bronze_dir: &str, slug: &str, ingest_date: &str) -> (r: String)
    ensures
        r@ == root@ + "/"@ + bronze_dir@ + "/"@ + slug@ + "/ingest_date="@ + ingest_date@,
{
    let mut s: String = root.to_owned();
    s.append("/");
    s.append(bronze_dir);
    s.append("/");
    s.append(slug);
    s.append("/ingest_date=");
    s.append(ingest_date);
    proof {
        reveal_strlit("/");
        reveal_strlit("/ingest_date=");
        assert(s@ =~= root@ + "/"@ + bronze_dir@ + "/"@ + slug@ + "/ingest_date="@
            + ingest_date@);
    }
    s
}

} // verus!
