//! Text helpers: case folding and the lexicographic order of strings.
use vstd::prelude::*;
use vstd::string::StrSliceExecFns;

verus! {

/// What `str::to_lowercase` gives for a string of these characters.
pub uninterp spec fn lower_of(s: Seq<char>) -> Seq<char>;

/// Lexicographic order on character sequences, by code point.
pub open spec fn lex_le(a: Seq<char>, b: Seq<char>) -> bool
    decreases a.len(),
{
    if a.len() == 0 {
        true
    } else if b.len() == 0 {
        false
    } else if (a[0] as u32) < (b[0] as u32) {
        true
    } else if (a[0] as u32) > (b[0] as u32) {
        false
    } else {
        lex_le(a.drop_first(), b.drop_first())
    }
}

/// Any two sequences are ordered one way or the other.
pub proof fn lemma_lex_total(a: Seq<char>, b: Seq<char>)
    ensures
        lex_le(a, b) || lex_le(b, a),
    decreases a.len(),
{
    if a.len() > 0 && b.len() > 0 && (a[0] as u32) == (b[0] as u32) {
        lemma_lex_total(a.drop_first(), b.drop_first());
    }
}

/// The order is transitive.
pub proof fn lemma_lex_trans(a: Seq<char>, b: Seq<char>, c: Seq<char>)
    requires
        lex_le(a, b),
        lex_le(b, c),
    ensures
        lex_le(a, c),
    decreases a.len(),
{
    if a.len() > 0 && b.len() > 0 && c.len() > 0 && (a[0] as u32) == (b[0] as u32) && (b[0] as u32)
        == (c[0] as u32) {
        lemma_lex_trans(a.drop_first(), b.drop_first(), c.drop_first());
    }
}

/// The order of two strings: equal where each comes no later than the
/// other, else less or greater.
pub open spec fn lex_order(a: Seq<char>, b: Seq<char>) -> std::cmp::Ordering {
    if lex_le(a, b) && lex_le(b, a) {
        std::cmp::Ordering::Equal
    } else if lex_le(a, b) {
        std::cmp::Ordering::Less
    } else {
        std::cmp::Ordering::Greater
    }
}

/// Compares two strings lexicographically, code point by code point.
pub fn str_order(a: &str, b: &str) -> (r: std::cmp::Ordering)
    ensures
        r == lex_order(a@, b@),
{
    let ab = str_le(a, b);
    let ba = str_le(b, a);
    if ab && ba {
        std::cmp::Ordering::Equal
    } else if ab {
        std::cmp::Ordering::Less
    } else {
        std::cmp::Ordering::Greater
    }
}

/// Relies on `str::to_lowercase`: the lower-case form depends on the
/// characters of the string alone.
#[verifier::external_body]
pub(crate) fn lowercase(s: &str) -> (r: String)
    ensures
        r@ == lower_of(s@),
{
    s.to_lowercase()
}

/// Relies on `<str as PartialOrd>::le`: strings are ordered lexicographically,
/// which orders code points by their position in the code charts.
#[verifier::external_body]
pub(crate) fn str_le(a: &str, b: &str) -> (r: bool)
    ensures
        r == lex_le(a@, b@),
{
    a <= b
}

/// Whether `a` comes no later than `b` once both are case-folded.
pub fn folded_le(a: &str, b: &str) -> (r: bool)
    ensures
        r == lex_le(lower_of(a@), lower_of(b@)),
{
    let la = lowercase(a);
    let lb = lowercase(b);
    str_le(la.as_str(), lb.as_str())
}

/// Whether the characters of `s` from `from` up to `to` are exactly `w`.
pub fn segment_is(s: &str, from: usize, to: usize, w: &str) -> (r: bool)
    requires
        from <= to <= s@.len(),
    ensures
        r == (s@.subrange(from as int, to as int) == w@),
{
    let n = w.unicode_len();
    if n != to - from {
        proof {
            assert(s@.subrange(from as int, to as int).len() != w@.len());
        }
        return false;
    }
    let mut k: usize = 0;
    while k < n
        invariant
            k <= n,
            n == to - from,
            n == w@.len(),
            from <= to <= s@.len(),
            forall|x: int| 0 <= x < k ==> s@[from + x] == w@[x],
        decreases n - k,
    {
        if s.get_char(from + k) != w.get_char(k) {
            proof {
                assert(s@.subrange(from as int, to as int)[k as int] != w@[k as int]);
            }
            return false;
        }
        k = k + 1;
    }
    assert(s@.subrange(from as int, to as int) =~= w@);
    true
}

/// The position of the last `c` in `s`, or -1 where there is none.
pub open spec fn last_index_of(s: Seq<char>, c: char) -> int
    decreases s.len(),
{
    if s.len() == 0 {
        -1
    } else if s.last() == c {
        s.len() - 1
    } else {
        last_index_of(s.drop_last(), c)
    }
}

pub proof fn lemma_last_index_of(s: Seq<char>, c: char, i: int)
    requires
        -1 <= i < s.len(),
        i >= 0 ==> s[i] == c,
        forall|j: int| i < j < s.len() ==> s[j] != c,
    ensures
        last_index_of(s, c) == i,
    decreases s.len(),
{
    if s.len() > 0 && i < s.len() - 1 {
        lemma_last_index_of(s.drop_last(), c, i);
    }
}

/// Finds the last `c` in `s` before position `end`.
pub fn find_last(s: &str, end: usize, c: char) -> (r: Option<usize>)
    requires
        end <= s@.len(),
    ensures
        match r {
            None => last_index_of(s@.subrange(0, end as int), c) == -1,
            Some(i) => last_index_of(s@.subrange(0, end as int), c) == i,
        },
{
    let mut k: usize = end;
    while k > 0
        invariant
            k <= end,
            end <= s@.len(),
            forall|j: int| k <= j < end ==> s@[j] != c,
        decreases k,
    {
        if s.get_char(k - 1) == c {
            proof {
                lemma_last_index_of(s@.subrange(0, end as int), c, k - 1);
            }
            return Some(k - 1);
        }
        k = k - 1;
    }
    proof {
        lemma_last_index_of(s@.subrange(0, end as int), c, -1);
    }
    None
}

} // verus!
