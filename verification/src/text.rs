//! Character-level text helpers shared by the pipeline: equality, trimming,
//! padding, identifier sanitizing, and conversions between `String` and
//! `Vec<char>`.

use vstd::prelude::*;
use vstd::string::*;

verus! {

/// Character-for-character equality of two string slices.
pub fn str_eq(a: &str, b: &str) -> (r: bool)
    ensures
        r == (a@ == b@),
{
    let sa: String = a.to_owned();
    let sb: String = b.to_owned();
    sa == sb
}

/// The characters of `s`, in order.
pub fn str_chars(s: &str) -> (r: Vec<char>)
    ensures
        r@ == s@,
{
    let n = s.unicode_len();
    let mut r: Vec<char> = Vec::new();
    let mut i: usize = 0;
    while i < n
        invariant
            n == s@.len(),
            i <= n,
            r@ == s@.subrange(0, i as int),
        decreases n - i,
    {
        r.push(s.get_char(i));
        i = i + 1;
    }
    proof {
        assert(s@.subrange(0, n as int) =~= s@);
    }
    r
}

/// Relies on `String`'s `FromIterator<char>` implementation: collecting the
/// characters of a vector yields the string with exactly those characters.
#[verifier::external_body]
pub fn chars_to_string(v: &Vec<char>) -> (r: String)
    ensures
        r@ == v@,
{
    v.iter().collect()
}

/// ASCII whitespace recognized by the pipeline's trimming.
pub open spec fn is_space(c: char) -> bool {
    c == ' ' || c == '\t' || c == '\n' || c == '\r'
}

pub open spec fn trim_left(s: Seq<char>) -> Seq<char>
    decreases s.len(),
{
    if s.len() > 0 && is_space(s[0]) {
        trim_left(s.drop_first())
    } else {
        s
    }
}

pub open spec fn trim_right(s: Seq<char>) -> Seq<char>
    decreases s.len(),
{
    if s.len() > 0 && is_space(s[s.len() - 1]) {
        trim_right(s.drop_last())
    } else {
        s
    }
}

/// The string with ASCII whitespace removed from both ends.
pub open spec fn spec_trim(s: Seq<char>) -> Seq<char> {
    trim_right(trim_left(s))
}

proof fn lemma_trim_left_prefix(s: Seq<char>, k: int)
    requires
        0 <= k <= s.len(),
        forall|i: int| 0 <= i < k ==> is_space(#[trigger] s[i]),
        k == s.len() || !is_space(s[k]),
    ensures
        trim_left(s) =~= s.subrange(k, s.len() as int),
    decreases k,
{
    if k == 0 {
        if s.len() > 0 && is_space(s[0]) {
            assert(false);
        }
        assert(trim_left(s) =~= s.subrange(0, s.len() as int));
    } else {
        assert(is_space(s[0]));
        let t = s.drop_first();
        assert(forall|i: int| 0 <= i < k - 1 ==> is_space(#[trigger] t[i]));
        lemma_trim_left_prefix(t, k - 1);
        assert(t.subrange(k - 1, t.len() as int) =~= s.subrange(k, s.len() as int));
    }
}

proof fn lemma_trim_right_suffix(s: Seq<char>, k: int)
    requires
        0 <= k <= s.len(),
        forall|i: int| k <= i < s.len() ==> is_space(#[trigger] s[i]),
        k == 0 || !is_space(s[k - 1]),
    ensures
        trim_right(s) =~= s.subrange(0, k),
    decreases s.len() - k,
{
    if k == s.len() {
        if s.len() > 0 && is_space(s[s.len() - 1]) {
            assert(false);
        }
        assert(trim_right(s) =~= s.subrange(0, k));
    } else {
        assert(is_space(s[s.len() - 1]));
        let t = s.drop_last();
        lemma_trim_right_suffix(t, k);
    }
}

/// Removes ASCII whitespace from both ends of `s`.
pub fn trim_spaces(s: &str) -> (r: String)
    ensures
        r@ == spec_trim(s@),
{
    let cs = str_chars(s);
    let n = cs.len();
    let mut lo: usize = 0;
    while lo < n && is_space_exec(cs[lo])
        invariant
            n == cs@.len(),
            lo <= n,
            forall|i: int| 0 <= i < lo ==> is_space(#[trigger] cs@[i]),
        decreases n - lo,
    {
        lo = lo + 1;
    }
    let mut hi: usize = n;
    while hi > lo && is_space_exec(cs[hi - 1])
        invariant
            n == cs@.len(),
            lo <= hi <= n,
            forall|i: int| 0 <= i < lo ==> is_space(#[trigger] cs@[i]),
            forall|i: int| hi <= i < n ==> is_space(#[trigger] cs@[i]),
        decreases hi,
    {
        hi = hi - 1;
    }
    let mut out: Vec<char> = Vec::new();
    let mut i: usize = lo;
    while i < hi
        invariant
            lo <= i <= hi <= n,
            n == cs@.len(),
            out@ == cs@.subrange(lo as int, i as int),
        decreases hi - i,
    {
        out.push(cs[i]);
        i = i + 1;
    }
    proof {
        lemma_trim_left_prefix(cs@, lo as int);
        let t = cs@.subrange(lo as int, n as int);
        if hi == lo {
            lemma_trim_right_suffix(t, 0);
        } else {
            assert(!is_space(t[hi - lo - 1]));
            lemma_trim_right_suffix(t, hi - lo);
        }
        assert(t.subrange(0, (hi - lo) as int) =~= cs@.subrange(lo as int, hi as int));
        assert(out@ =~= cs@.subrange(lo as int, hi as int));
    }
    chars_to_string(&out)
}

fn is_space_exec(c: char) -> (r: bool)
    ensures
        r == is_space(c),
{
    c == ' ' || c == '\t' || c == '\n' || c == '\r'
}

/// Zeros prepended until the string is at least `n` characters long.
pub open spec fn spec_pad_left_zeros(s: Seq<char>, n: nat) -> Seq<char> {
    if s.len() >= n {
        s
    } else {
        Seq::new((n - s.len()) as nat, |i: int| '0') + s
    }
}

/// Left-pads `s` with `'0'` to at least `n` characters.
pub fn pad_left_zeros(s: &str, n: usize) -> (r: String)
    ensures
        r@ == spec_pad_left_zeros(s@, n as nat),
{
    let cs = str_chars(s);
    if cs.len() >= n {
        let r = s.to_owned();
        return r;
    }
    let pad = n - cs.len();
    let mut out: Vec<char> = Vec::new();
    let mut i: usize = 0;
    while i < pad
        invariant
            i <= pad,
            out@ =~= Seq::new(i as nat, |j: int| '0'),
        decreases pad - i,
    {
        out.push('0');
        i = i + 1;
    }
    let mut k: usize = 0;
    while k < cs.len()
        invariant
            k <= cs@.len(),
            cs@ == s@,
            out@ =~= Seq::new(pad as nat, |j: int| '0') + cs@.subrange(0, k as int),
        decreases cs@.len() - k,
    {
        out.push(cs[k]);
        k = k + 1;
    }
    proof {
        assert(cs@.subrange(0, cs@.len() as int) =~= cs@);
        assert(out@ =~= spec_pad_left_zeros(s@, n as nat));
    }
    chars_to_string(&out)
}

/// Whether `c` is an ASCII letter, an ASCII digit, or `'_'`.
pub open spec fn is_ident_char(c: char) -> bool {
    ('a' <= c && c <= 'z') || ('A' <= c && c <= 'Z') || ('0' <= c && c <= '9') || c == '_'
}

/// The identifier form of a string: every character outside
/// `[A-Za-z0-9_]` becomes `'_'`; the empty string becomes `"_"`.
pub open spec fn spec_sanitize_ident(s: Seq<char>) -> Seq<char> {
    if s.len() == 0 {
        seq!['_']
    } else {
        s.map(|i: int, c: char| if is_ident_char(c) { c } else { '_' })
    }
}

/// Reduces a string to a plain SQL identifier of ASCII alphanumerics and
/// underscores, substituting `'_'` for anything else.
pub fn sanitize_ident(s: &str) -> (r: String)
    ensures
        r@ == spec_sanitize_ident(s@),
{
    let cs = str_chars(s);
    if cs.len() == 0 {
        let mut out: Vec<char> = Vec::new();
        out.push('_');
        proof {
            assert(out@ =~= seq!['_']);
        }
        return chars_to_string(&out);
    }
    let mut out: Vec<char> = Vec::new();
    let mut i: usize = 0;
    while i < cs.len()
        invariant
            i <= cs@.len(),
            cs@ == s@,
            out@ =~= cs@.subrange(0, i as int).map(
                |j: int, c: char| if is_ident_char(c) { c } else { '_' },
            ),
        decreases cs@.len() - i,
    {
        let c = cs[i];
        if ('a' <= c && c <= 'z') || ('A' <= c && c <= 'Z') || ('0' <= c && c <= '9') || c == '_' {
            out.push(c);
        } else {
            out.push('_');
        }
        i = i + 1;
    }
    proof {
        assert(cs@.subrange(0, cs@.len() as int) =~= cs@);
        assert(out@ =~= spec_sanitize_ident(s@));
    }
    chars_to_string(&out)
}

/// The string with every single quote doubled, as SQL string syntax wants.
pub open spec fn spec_escape_single_quotes(s: Seq<char>) -> Seq<char>
    decreases s.len(),
{
    if s.len() == 0 {
        Seq::empty()
    } else if s[0] == '\'' {
        seq!['\'', '\''] + spec_escape_single_quotes(s.drop_first())
    } else {
        seq![s[0]] + spec_escape_single_quotes(s.drop_first())
    }
}

proof fn lemma_escape_append(s: Seq<char>, c: char)
    ensures
        spec_escape_single_quotes(s.push(c)) == spec_escape_single_quotes(s) + (if c == '\'' {
            seq!['\'', '\'']
        } else {
            seq![c]
        }),
    decreases s.len(),
{
    if s.len() == 0 {
        assert(s.push(c)[0] == c);
        assert(s.push(c).drop_first() =~= s);
        assert(spec_escape_single_quotes(s) =~= Seq::<char>::empty());
        if c == '\'' {
            assert(spec_escape_single_quotes(s.push(c)) =~= seq!['\'', '\'']);
        } else {
            assert(spec_escape_single_quotes(s.push(c)) =~= seq![c]);
        }
    } else {
        assert(s.push(c)[0] == s[0]);
        assert(s.push(c).drop_first() =~= s.drop_first().push(c));
        lemma_escape_append(s.drop_first(), c);
    }
}

/// Doubles every `'` in `s`.
pub fn escape_single_quotes(s: &str) -> (r: String)
    ensures
        r@ == spec_escape_single_quotes(s@),
{
    let cs = str_chars(s);
    let mut out: Vec<char> = Vec::new();
    let mut i: usize = 0;
    while i < cs.len()
        invariant
            i <= cs@.len(),
            cs@ == s@,
            out@ == spec_escape_single_quotes(cs@.subrange(0, i as int)),
        decreases cs@.len() - i,
    {
        let c = cs[i];
        proof {
            lemma_escape_append(cs@.subrange(0, i as int), cs@[i as int]);
            assert(cs@.subrange(0, i as int).push(cs@[i as int]) =~= cs@.subrange(
                0,
                i as int + 1,
            ));
        }
        if c == '\'' {
            out.push('\'');
            out.push('\'');
        } else {
            out.push(c);
        }
        i = i + 1;
    }
    proof {
        assert(cs@.subrange(0, cs@.len() as int) =~= cs@);
    }
    chars_to_string(&out)
}

/// The string with every backslash replaced by a forward slash.
pub open spec fn spec_normalize_slashes(s: Seq<char>) -> Seq<char> {
    s.map(|i: int, c: char| if c == '\\' { '/' } else { c })
}

/// Rewrites backslashes to forward slashes, the path form the analytical
/// engine accepts on every platform.
pub fn normalize_for_duckdb_path(s: &str) -> (r: String)
    ensures
        r@ == spec_normalize_slashes(s@),
{
    let cs = str_chars(s);
    let mut out: Vec<char> = Vec::new();
    let mut i: usize = 0;
    while i < cs.len()
        invariant
            i <= cs@.len(),
            cs@ == s@,
            out@ =~= cs@.subrange(0, i as int).map(
                |j: int, c: char| if c == '\\' { '/' } else { c },
            ),
        decreases cs@.len() - i,
    {
        let c = cs[i];
        if c == '\\' {
            out.push('/');
        } else {
            out.push(c);
        }
        i = i + 1;
    }
    proof {
        assert(cs@.subrange(0, cs@.len() as int) =~= cs@);
        assert(out@ =~= spec_normalize_slashes(s@));
    }
    chars_to_string(&out)
}

/// What `str::to_uppercase` returns; the result depends on the characters of
/// the argument alone.
pub uninterp spec fn upper_of(s: Seq<char>) -> Seq<char>;

/// Relies on `str::to_uppercase`: the Unicode uppercase form of the string,
/// a pure function of its characters; an empty string stays empty.
#[verifier::external_body]
pub fn to_upper(s: &str) -> (r: String)
    ensures
        r@ == upper_of(s@),
        s@.len() == 0 ==> r@.len() == 0,
{
    s.to_uppercase()
}

} // verus!
