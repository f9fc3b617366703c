//! Dedup keys: the length-prefixed null-safe composite key, stable
//! keep-first deduplication, and the anti-join against existing keys.

use vstd::prelude::*;
use crate::frame::{has_name, lemma_col_index_from_props, names_view, spec_col_index};
use crate::num::dec_rep;
use crate::value::Value;

verus! {

/// The text standing for one key column's value: the cell's text, or the
/// null token.
pub open spec fn key_part_text(v: Option<Seq<char>>) -> Seq<char> {
    match v {
        Some(t) => t,
        None => "<NULL>"@,
    }
}

/// One length-prefixed segment: `{len}:{value}|`.
pub open spec fn pk_hash_part(v: Option<Seq<char>>) -> Seq<char> {
    dec_rep(key_part_text(v).len()) + ":"@ + key_part_text(v) + "|"@
}

/// The composite key of a row: its key columns' segments, concatenated in
/// declared order. Length prefixes keep distinct column values from
/// colliding, and the null token keeps null apart from empty.
pub open spec fn spec_pk_hash(vals: Seq<Option<Seq<char>>>) -> Seq<char>
    decreases vals.len(),
{
    if vals.len() == 0 {
        Seq::empty()
    } else {
        spec_pk_hash(vals.drop_last()) + pk_hash_part(vals.last())
    }
}

/// The dedup key of a row: the composite hash for a multi-column key, the
/// single column's text otherwise.
pub open spec fn spec_row_key(vals: Seq<Option<Seq<char>>>) -> Seq<char> {
    if vals.len() == 1 {
        key_part_text(vals[0])
    } else {
        spec_pk_hash(vals)
    }
}

fn push_chars(out: &mut Vec<char>, s: &Vec<char>)
    ensures
        final(out)@ == old(out)@ + s@,
{
    let mut i: usize = 0;
    while i < s.len()
        invariant
            i <= s@.len(),
            out@ == old(out)@ + s@.subrange(0, i as int),
        decreases s@.len() - i,
    {
        proof {
            assert(s@.subrange(0, i as int).push(s@[i as int]) =~= s@.subrange(0, i as int + 1));
        }
        out.push(s[i]);
        i = i + 1;
    }
    proof {
        assert(s@.subrange(0, s@.len() as int) =~= s@);
    }
}

/// Builds the composite `_pk_hash` key from the rendered key column
/// values.
#[verifier::loop_isolation(false)]
pub fn pk_hash(vals: &Vec<Option<String>>) -> (r: String)
    ensures
        r@ == spec_pk_hash(vals@.map(|i: int, v: Option<String>| opt_view(v))),
{
    let ghost vv = vals@.map(|i: int, v: Option<String>| opt_view(v));
    proof {
        reveal_strlit(":");
        reveal_strlit("|");
    }
    let mut out: Vec<char> = Vec::new();
    let mut i: usize = 0;
    while i < vals.len()
        invariant
            i <= vals@.len(),
            out@ == spec_pk_hash(vv.subrange(0, i as int)),
        decreases vals@.len() - i,
    {
        let ghost pre = vv.subrange(0, i as int);
        let ghost post = vv.subrange(0, i as int + 1);
        proof {
            assert(post.drop_last() =~= pre);
            assert(post.last() == vv[i as int]);
        }
        let text: String = match &vals[i] {
            Some(s) => s.clone(),
            None => "<NULL>".to_owned(),
        };
        proof {
            assert(text@ == key_part_text(vv[i as int]));
        }
        let tchars = crate::text::str_chars(text.as_str());
        let len_digits = crate::num::render_u128(tchars.len() as u128);
        push_chars(&mut out, &len_digits);
        out.push(':');
        push_chars(&mut out, &tchars);
        out.push('|');
        proof {
            assert(out@ =~= spec_pk_hash(pre) + pk_hash_part(vv[i as int]));
        }
        i = i + 1;
    }
    proof {
        assert(vv.subrange(0, vv.len() as int) =~= vv);
    }
    crate::text::chars_to_string(&out)
}

/// The character view of an optional string.
pub open spec fn opt_view(v: Option<String>) -> Option<Seq<char>> {
    match v {
        Some(s) => Some(s@),
        None => None,
    }
}

/// The dedup key of one row's rendered key column values.
pub fn row_key(vals: &Vec<Option<String>>) -> (r: String)
    ensures
        r@ == spec_row_key(vals@.map(|i: int, v: Option<String>| opt_view(v))),
{
    if vals.len() == 1 {
        match &vals[0] {
            Some(s) => s.clone(),
            None => "<NULL>".to_owned(),
        }
    } else {
        pk_hash(vals)
    }
}

/// Row `i` holds the first occurrence of its key.
pub open spec fn is_first_occurrence(keys: Seq<Seq<char>>, i: int) -> bool {
    forall|j: int| 0 <= j < i ==> keys[j] != keys[i]
}

/// The indices below `k` that survive keep-first deduplication.
pub open spec fn uniq_indices_upto(keys: Seq<Seq<char>>, k: int) -> Seq<int>
    decreases k,
{
    if k <= 0 {
        Seq::empty()
    } else {
        uniq_indices_upto(keys, k - 1) + (if is_first_occurrence(keys, k - 1) {
            seq![k - 1]
        } else {
            Seq::empty()
        })
    }
}

pub open spec fn uniq_indices(keys: Seq<Seq<char>>) -> Seq<int> {
    uniq_indices_upto(keys, keys.len() as int)
}

/// The indices below `k` whose key is absent from `existing`.
pub open spec fn anti_indices_upto(
    keys: Seq<Seq<char>>,
    existing: Seq<Seq<char>>,
    k: int,
) -> Seq<int>
    decreases k,
{
    if k <= 0 {
        Seq::empty()
    } else {
        anti_indices_upto(keys, existing, k - 1) + (if !has_name(existing, keys[k - 1]) {
            seq![k - 1]
        } else {
            Seq::empty()
        })
    }
}

pub open spec fn anti_indices(keys: Seq<Seq<char>>, existing: Seq<Seq<char>>) -> Seq<int> {
    anti_indices_upto(keys, existing, keys.len() as int)
}

/// Rows and keys picked by the given index list.
pub open spec fn picked_rows(rows: Seq<Vec<Value>>, idx: Seq<int>, out: Seq<Vec<Value>>) -> bool {
    &&& out.len() == idx.len()
    &&& forall|c: int| 0 <= c < idx.len() ==> (#[trigger] out[c])@ == rows[idx[c]]@
}

pub open spec fn picked_keys(keys: Seq<Seq<char>>, idx: Seq<int>, out: Seq<Seq<char>>) -> bool {
    &&& out.len() == idx.len()
    &&& forall|c: int| 0 <= c < idx.len() ==> #[trigger] out[c] == keys[idx[c]]
}

/// Index lists built by the two spec functions are within bounds.
pub proof fn lemma_uniq_indices_bounds(keys: Seq<Seq<char>>, k: int)
    requires
        0 <= k <= keys.len(),
    ensures
        forall|c: int|
            0 <= c < uniq_indices_upto(keys, k).len() ==> 0 <= #[trigger] uniq_indices_upto(
                keys,
                k,
            )[c] < k,
        forall|c1: int, c2: int|
            0 <= c1 < c2 < uniq_indices_upto(keys, k).len() ==> uniq_indices_upto(keys, k)[c1]
                < uniq_indices_upto(keys, k)[c2],
        forall|c: int|
            0 <= c < uniq_indices_upto(keys, k).len() ==> is_first_occurrence(
                keys,
                uniq_indices_upto(keys, k)[c],
            ),
    decreases k,
{
    if k > 0 {
        lemma_uniq_indices_bounds(keys, k - 1);
        let prev = uniq_indices_upto(keys, k - 1);
        let cur = uniq_indices_upto(keys, k);
        if is_first_occurrence(keys, k - 1) {
            assert(cur == prev + seq![k - 1]);
            assert forall|c: int| 0 <= c < cur.len() implies 0 <= #[trigger] cur[c] < k
                && is_first_occurrence(keys, cur[c]) by {
                if c < prev.len() {
                    assert(cur[c] == prev[c]);
                } else {
                    assert(cur[c] == k - 1);
                }
            }
            assert forall|c1: int, c2: int| 0 <= c1 < c2 < cur.len() implies cur[c1]
                < cur[c2] by {
                if c2 < prev.len() {
                    assert(cur[c1] == prev[c1] && cur[c2] == prev[c2]);
                } else {
                    assert(cur[c2] == k - 1);
                    assert(cur[c1] == prev[c1]);
                }
            }
        } else {
            assert(cur == prev + Seq::<int>::empty());
            assert(cur =~= prev);
        }
    }
}

pub proof fn lemma_anti_indices_bounds(keys: Seq<Seq<char>>, existing: Seq<Seq<char>>, k: int)
    requires
        0 <= k <= keys.len(),
    ensures
        forall|c: int|
            0 <= c < anti_indices_upto(keys, existing, k).len() ==> 0
                <= #[trigger] anti_indices_upto(keys, existing, k)[c] < k,
        forall|c1: int, c2: int|
            0 <= c1 < c2 < anti_indices_upto(keys, existing, k).len() ==> anti_indices_upto(
                keys,
                existing,
                k,
            )[c1] < anti_indices_upto(keys, existing, k)[c2],
        forall|c: int|
            0 <= c < anti_indices_upto(keys, existing, k).len() ==> !has_name(
                existing,
                keys[#[trigger] anti_indices_upto(keys, existing, k)[c]],
            ),
    decreases k,
{
    if k > 0 {
        lemma_anti_indices_bounds(keys, existing, k - 1);
        let prev = anti_indices_upto(keys, existing, k - 1);
        let cur = anti_indices_upto(keys, existing, k);
        if !has_name(existing, keys[k - 1]) {
            assert(cur == prev + seq![k - 1]);
            assert forall|c: int| 0 <= c < cur.len() implies 0 <= #[trigger] cur[c] < k
                && !has_name(existing, keys[cur[c]]) by {
                if c < prev.len() {
                    assert(cur[c] == prev[c]);
                } else {
                    assert(cur[c] == k - 1);
                }
            }
            assert forall|c1: int, c2: int| 0 <= c1 < c2 < cur.len() implies cur[c1]
                < cur[c2] by {
                if c2 < prev.len() {
                    assert(cur[c1] == prev[c1] && cur[c2] == prev[c2]);
                } else {
                    assert(cur[c2] == k - 1);
                    assert(cur[c1] == prev[c1]);
                }
            }
        } else {
            assert(cur == prev + Seq::<int>::empty());
            assert(cur =~= prev);
        }
    }
}

/// Every index whose key is absent from `existing` stays in the
/// anti-join; every index in the anti-join was such.
pub proof fn lemma_anti_indices_complete(
    keys: Seq<Seq<char>>,
    existing: Seq<Seq<char>>,
    k: int,
    i: int,
)
    requires
        0 <= i < k <= keys.len(),
        !has_name(existing, keys[i]),
    ensures
        anti_indices_upto(keys, existing, k).contains(i),
    decreases k,
{
    if i == k - 1 {
        let a = anti_indices_upto(keys, existing, k);
        assert(a[a.len() - 1] == i);
    } else {
        lemma_anti_indices_complete(keys, existing, k - 1, i);
        let prev = anti_indices_upto(keys, existing, k - 1);
        let c = choose|c: int| 0 <= c < prev.len() && prev[c] == i;
        assert(anti_indices_upto(keys, existing, k)[c] == i);
    }
}

/// Keep-first deduplication of rows by their keys.
#[verifier::loop_isolation(false)]
pub fn unique_stable_by_key(rows: &Vec<Vec<Value>>, keys: &Vec<String>) -> (r: (
    Vec<Vec<Value>>,
    Vec<String>,
))
    requires
        rows@.len() == keys@.len(),
    ensures
        picked_rows(rows@, uniq_indices(names_view(keys@)), r.0@),
        picked_keys(names_view(keys@), uniq_indices(names_view(keys@)), names_view(r.1@)),
{
    let ghost kv = names_view(keys@);
    let mut out_rows: Vec<Vec<Value>> = Vec::new();
    let mut out_keys: Vec<String> = Vec::new();
    let mut i: usize = 0;
    while i < rows.len()
        invariant
            i <= rows@.len(),
            picked_rows(rows@, uniq_indices_upto(kv, i as int), out_rows@),
            picked_keys(kv, uniq_indices_upto(kv, i as int), names_view(out_keys@)),
            forall|j: int| 0 <= j < i ==> has_name(names_view(out_keys@), #[trigger] kv[j]),
            forall|c: int|
                0 <= c < out_keys@.len() ==> exists|j: int|
                    0 <= j < i && #[trigger] names_view(out_keys@)[c] == kv[j],
        decreases rows@.len() - i,
    {
        let ghost pre = uniq_indices_upto(kv, i as int);
        let seen = crate::frame::find_col(&out_keys, keys[i].as_str());
        if seen.is_none() {
            proof {
                assert(is_first_occurrence(kv, i as int)) by {
                    assert forall|j: int| 0 <= j < i implies kv[j] != kv[i as int] by {
                        assert(has_name(names_view(out_keys@), kv[j]));
                        if kv[j] == kv[i as int] {
                            lemma_col_index_from_props(names_view(out_keys@), kv[j], 0);
                        }
                    }
                }
            }
            let ghost prev_keys = names_view(out_keys@);
            let ghost prev_rows = out_rows@;
            out_rows.push(clone_row(&rows[i]));
            out_keys.push(keys[i].clone());
            proof {
                let ghost cur = uniq_indices_upto(kv, i as int + 1);
                assert(cur == pre + seq![i as int]);
                assert(names_view(out_keys@).len() == prev_keys.len() + 1);
                assert forall|c: int| 0 <= c < cur.len() implies (#[trigger] out_rows@[c])@
                    == rows@[cur[c]]@ by {
                    if c < pre.len() {
                        assert((pre + seq![i as int])[c] == pre[c]);
                        assert(out_rows@[c] == prev_rows[c]);
                    } else {
                        assert((pre + seq![i as int])[c] == i as int);
                    }
                }
                assert forall|c: int| 0 <= c < cur.len() implies #[trigger] names_view(
                    out_keys@,
                )[c] == kv[cur[c]] by {
                    if c < pre.len() {
                        assert((pre + seq![i as int])[c] == pre[c]);
                        assert(out_keys@[c] == old_of(out_keys@, prev_keys, c));
                        assert(names_view(out_keys@)[c] == prev_keys[c]);
                    } else {
                        assert((pre + seq![i as int])[c] == i as int);
                        assert(names_view(out_keys@)[c] == kv[i as int]);
                    }
                }
                assert forall|j: int| 0 <= j < i + 1 implies has_name(
                    names_view(out_keys@),
                    #[trigger] kv[j],
                ) by {
                    if j < i {
                        assert(has_name(prev_keys, kv[j]));
                        lemma_col_index_from_props(prev_keys, kv[j], 0);
                        let c0 = spec_col_index(prev_keys, kv[j])->0;
                        assert(out_keys@[c0] == old_of(out_keys@, prev_keys, c0));
                        assert(names_view(out_keys@)[c0] == prev_keys[c0]);
                        crate::plan::lemma_has_name_at(names_view(out_keys@), c0);
                    } else {
                        assert(names_view(out_keys@)[prev_keys.len() as int] == kv[i as int]);
                        crate::plan::lemma_has_name_at(
                            names_view(out_keys@),
                            prev_keys.len() as int,
                        );
                    }
                }
                assert forall|c: int| 0 <= c < out_keys@.len() implies exists|j: int|
                    0 <= j < i + 1 && #[trigger] names_view(out_keys@)[c] == kv[j] by {
                    if c < prev_keys.len() {
                        assert(out_keys@[c] == old_of(out_keys@, prev_keys, c));
                        assert(names_view(out_keys@)[c] == prev_keys[c]);
                        let j = choose|j: int| 0 <= j < i && prev_keys[c] == kv[j];
                        assert(names_view(out_keys@)[c] == kv[j]);
                    } else {
                        assert(names_view(out_keys@)[c] == kv[i as int]);
                    }
                }
                assert forall|j: int| 0 <= j < i + 1 implies has_name(
                    names_view(out_keys@),
                    kv[j],
                ) by {
                    if j < i {
                        lemma_col_index_from_props(prev_keys, kv[j], 0);
                        let c = spec_col_index(prev_keys, kv[j])->0;
                        assert(names_view(out_keys@)[c] == prev_keys[c]);
                        crate::plan::lemma_has_name_at(names_view(out_keys@), c);
                    } else {
                        assert(names_view(out_keys@)[prev_keys.len() as int] == kv[i as int]);
                        crate::plan::lemma_has_name_at(
                            names_view(out_keys@),
                            prev_keys.len() as int,
                        );
                    }
                }
            }
        } else {
            proof {
                assert(!is_first_occurrence(kv, i as int)) by {
                    lemma_col_index_from_props(names_view(out_keys@), kv[i as int], 0);
                    let c = spec_col_index(names_view(out_keys@), kv[i as int])->0;
                    let j = choose|j: int| 0 <= j < i && names_view(out_keys@)[c] == kv[j];
                    assert(kv[j] == kv[i as int]);
                }
                assert(uniq_indices_upto(kv, i as int + 1) == pre + Seq::<int>::empty());
                assert(uniq_indices_upto(kv, i as int + 1) =~= pre);
            }
        }
        i = i + 1;
    }
    proof {
        assert(uniq_indices_upto(kv, rows@.len() as int) == uniq_indices(kv));
    }
    (out_rows, out_keys)
}

/// A helper name for an element kept across a push.
pub open spec fn old_of(now: Seq<String>, prev: Seq<Seq<char>>, c: int) -> String {
    now[c]
}

/// The anti-join: rows whose key exists among `existing` are dropped.
#[verifier::loop_isolation(false)]
pub fn anti_join_by_key(
    rows: &Vec<Vec<Value>>,
    keys: &Vec<String>,
    existing: &Vec<String>,
) -> (r: (Vec<Vec<Value>>, Vec<String>))
    requires
        rows@.len() == keys@.len(),
    ensures
        picked_rows(rows@, anti_indices(names_view(keys@), names_view(existing@)), r.0@),
        picked_keys(
            names_view(keys@),
            anti_indices(names_view(keys@), names_view(existing@)),
            names_view(r.1@),
        ),
{
    let ghost kv = names_view(keys@);
    let ghost ev = names_view(existing@);
    let mut out_rows: Vec<Vec<Value>> = Vec::new();
    let mut out_keys: Vec<String> = Vec::new();
    let mut i: usize = 0;
    while i < rows.len()
        invariant
            i <= rows@.len(),
            picked_rows(rows@, anti_indices_upto(kv, ev, i as int), out_rows@),
            picked_keys(kv, anti_indices_upto(kv, ev, i as int), names_view(out_keys@)),
        decreases rows@.len() - i,
    {
        let ghost pre = anti_indices_upto(kv, ev, i as int);
        if crate::frame::find_col(existing, keys[i].as_str()).is_none() {
            let ghost prev_keys = names_view(out_keys@);
            let ghost prev_rows = out_rows@;
            out_rows.push(clone_row(&rows[i]));
            out_keys.push(keys[i].clone());
            proof {
                let ghost cur = anti_indices_upto(kv, ev, i as int + 1);
                assert(cur == pre + seq![i as int]);
                assert forall|c: int| 0 <= c < cur.len() implies (#[trigger] out_rows@[c])@
                    == rows@[cur[c]]@ by {
                    if c < pre.len() {
                        assert((pre + seq![i as int])[c] == pre[c]);
                        assert(out_rows@[c] == prev_rows[c]);
                    } else {
                        assert((pre + seq![i as int])[c] == i as int);
                    }
                }
                assert forall|c: int| 0 <= c < cur.len() implies #[trigger] names_view(
                    out_keys@,
                )[c] == kv[cur[c]] by {
                    if c < pre.len() {
                        assert((pre + seq![i as int])[c] == pre[c]);
                        assert(out_keys@[c] == old_of(out_keys@, prev_keys, c));
                        assert(names_view(out_keys@)[c] == prev_keys[c]);
                    } else {
                        assert((pre + seq![i as int])[c] == i as int);
                        assert(names_view(out_keys@)[c] == kv[i as int]);
                    }
                }
            }
        } else {
            proof {
                assert(anti_indices_upto(kv, ev, i as int + 1) == pre + Seq::<int>::empty());
                assert(anti_indices_upto(kv, ev, i as int + 1) =~= pre);
            }
        }
        i = i + 1;
    }
    (out_rows, out_keys)
}

/// Clones a row of cells, keeping every cell's value.
pub fn clone_row(r: &Vec<Value>) -> (out: Vec<Value>)
    ensures
        out@ == r@,
{
    let mut out: Vec<Value> = Vec::new();
    let mut i: usize = 0;
    while i < r.len()
        invariant
            i <= r@.len(),
            out@ =~= r@.subrange(0, i as int),
        decreases r@.len() - i,
    {
        out.push(r[i].clone());
        i = i + 1;
    }
    proof {
        assert(r@.subrange(0, r@.len() as int) =~= r@);
    }
    out
}

} // verus!
