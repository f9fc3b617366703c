//! The in-memory frame: named columns over rows of cells.

use vstd::prelude::*;
use crate::value::{Value, wf_value};

verus! {

/// A materialized table: column names, and rows of cells, one cell per
/// column.
#[derive(Debug)]
pub struct Frame {
    pub names: Vec<String>,
    pub rows: Vec<Vec<Value>>,
}

/// The column names as character sequences, in order.
pub open spec fn names_view(names: Seq<String>) -> Seq<Seq<char>> {
    names.map(|i: int, s: String| s@)
}

/// A well-formed frame: every row as wide as the header, every cell
/// well-formed.
pub open spec fn wf_frame(f: Frame) -> bool {
    forall|i: int|
        0 <= i < f.rows@.len() ==> (#[trigger] f.rows@[i]).len() == f.names@.len() && wf_row(
            f.rows@[i]@,
        )
}

pub open spec fn wf_row(r: Seq<Value>) -> bool {
    forall|j: int| 0 <= j < r.len() ==> wf_value((#[trigger] r[j])@)
}

impl Frame {
    /// The number of rows.
    pub fn height(&self) -> (r: usize)
        ensures
            r == self.rows@.len(),
    {
        self.rows.len()
    }

    /// The number of columns.
    pub fn width(&self) -> (r: usize)
        ensures
            r == self.names@.len(),
    {
        self.names.len()
    }
}

/// The first position of name `n` in `names`, if any.
pub open spec fn spec_col_index(names: Seq<Seq<char>>, n: Seq<char>) -> Option<int> {
    spec_col_index_from(names, n, 0)
}

pub open spec fn spec_col_index_from(names: Seq<Seq<char>>, n: Seq<char>, i: int) -> Option<int>
    decreases names.len() - i,
{
    if i < 0 || i >= names.len() {
        None
    } else if names[i] == n {
        Some(i)
    } else {
        spec_col_index_from(names, n, i + 1)
    }
}

/// Whether `n` occurs in `names`.
pub open spec fn has_name(names: Seq<Seq<char>>, n: Seq<char>) -> bool {
    spec_col_index(names, n) is Some
}

pub proof fn lemma_col_index_from_props(names: Seq<Seq<char>>, n: Seq<char>, i: int)
    requires
        0 <= i <= names.len(),
    ensures
        match spec_col_index_from(names, n, i) {
            Some(k) => i <= k < names.len() && names[k] == n && forall|j: int|
                i <= j < k ==> names[j] != n,
            None => forall|j: int| i <= j < names.len() ==> names[j] != n,
        },
    decreases names.len() - i,
{
    if i < names.len() && names[i] != n {
        lemma_col_index_from_props(names, n, i + 1);
    }
}

/// Finds the position of column `n`.
pub fn find_col(names: &Vec<String>, n: &str) -> (r: Option<usize>)
    ensures
        match spec_col_index(names_view(names@), n@) {
            Some(k) => r is Some && r->0 as int == k,
            None => r is None,
        },
{
    let mut i: usize = 0;
    proof {
        lemma_col_index_from_props(names_view(names@), n@, 0);
    }
    while i < names.len()
        invariant
            i <= names@.len(),
            forall|j: int| 0 <= j < i ==> names_view(names@)[j] != n@,
        decreases names@.len() - i,
    {
        if crate::text::str_eq(names[i].as_str(), n) {
            proof {
                let nv = names_view(names@);
                lemma_col_index_from_props(nv, n@, 0);
                assert(nv[i as int] == n@);
                assert(spec_col_index(nv, n@) is Some);
            }
            return Some(i);
        }
        i = i + 1;
    }
    proof {
        let nv = names_view(names@);
        lemma_col_index_from_props(nv, n@, 0);
        if spec_col_index(nv, n@) is Some {
            let k = spec_col_index(nv, n@)->0;
            assert(nv[k] == n@);
        }
    }
    None
}

} // verus!
