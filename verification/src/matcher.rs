//! Keyword matcher: classifies a line by literal, case-sensitive substring
//! search against an ordered set of keywords.
//!
//! A line "matches any" of the keywords when at least one keyword occurs in
//! it as a contiguous substring, and "matches none" when no keyword does.
//! The two predicates are exact logical complements, and both are vacuous on
//! an empty keyword set: `matches_any` is then false and `matches_none` true
//! for every line.

use vstd::prelude::*;
use vstd::slice::slice_index_get;
use vstd::string::{StrSliceExecFns, StringExecFns};

verus! {

/// `pat` occurs in `line` starting exactly at position `i`.
pub open spec fn is_match_at(line: Seq<char>, pat: Seq<char>, i: int) -> bool {
    &&& 0 <= i
    &&& i + pat.len() <= line.len()
    &&& line.subrange(i, i + pat.len() as int) == pat
}

/// `pat` occurs somewhere in `line` as a contiguous substring.
pub open spec fn contains_substring(line: Seq<char>, pat: Seq<char>) -> bool {
    exists|i: int| is_match_at(line, pat, i)
}

/// `line` contains at least one of `keywords` as a substring.
pub open spec fn matches_any(line: Seq<char>, keywords: Seq<Seq<char>>) -> bool {
    exists|k: int| 0 <= k < keywords.len() && contains_substring(line, keywords[k])
}

/// `line` contains none of `keywords` as a substring.
pub open spec fn matches_none(line: Seq<char>, keywords: Seq<Seq<char>>) -> bool {
    forall|k: int| 0 <= k < keywords.len() ==> !contains_substring(line, keywords[k])
}

/// A line matches none of the keywords exactly when it does not match any
/// of them: the two classification policies are logical complements, for
/// every line and every keyword set.
pub proof fn lemma_matches_none_is_complement(line: Seq<char>, keywords: Seq<Seq<char>>)
    ensures
        matches_none(line, keywords) == !matches_any(line, keywords),
{
}

/// On an empty keyword set, no line matches any keyword and every line
/// matches none of them.
pub proof fn lemma_empty_keywords(line: Seq<char>)
    ensures
        !matches_any(line, Seq::<Seq<char>>::empty()),
        matches_none(line, Seq::<Seq<char>>::empty()),
{
}

/// Does `pat` occur in `line` starting exactly at position `i`?
fn match_at(line: &str, pat: &str, i: usize) -> (b: bool)
    requires
        i + pat@.len() <= line@.len(),
        line@.len() <= usize::MAX,
    ensures
        b == is_match_at(line@, pat@, i as int),
{
    let plen = pat.unicode_len();
    let mut j: usize = 0;
    while j < plen
        invariant
            plen == pat@.len(),
            i + plen <= line@.len() <= usize::MAX,
            j <= plen,
            forall|m: int| 0 <= m < j ==> line@[i + m] == pat@[m],
        decreases plen - j,
    {
        if line.get_char(i + j) != pat.get_char(j) {
            proof {
                if is_match_at(line@, pat@, i as int) {
                    assert(line@.subrange(i as int, i + pat@.len() as int)[j as int]
                        == pat@[j as int]);
                }
            }
            return false;
        }
        j += 1;
    }
    proof {
        assert(line@.subrange(i as int, i + pat@.len() as int) =~= pat@);
    }
    true
}

/// Literal substring search: does `pat` occur anywhere in `line`?
pub fn contains_str(line: &str, pat: &str) -> (b: bool)
    ensures
        b == contains_substring(line@, pat@),
{
    let n = line.unicode_len();
    let plen = pat.unicode_len();
    if plen > n {
        proof {
            assert forall|i: int| !is_match_at(line@, pat@, i) by {}
        }
        return false;
    }
    if plen == 0 {
        proof {
            assert(line@.subrange(0, 0) =~= pat@);
            assert(is_match_at(line@, pat@, 0));
        }
        return true;
    }
    let last = n - plen;
    let mut i: usize = 0;
    while i <= last
        invariant
            n == line@.len(),
            plen == pat@.len(),
            1 <= plen <= n,
            last == n - plen,
            i <= last + 1,
            forall|m: int| 0 <= m < i ==> !is_match_at(line@, pat@, m),
        decreases last + 1 - i,
    {
        if match_at(line, pat, i) {
            return true;
        }
        i += 1;
    }
    proof {
        assert forall|m: int| !is_match_at(line@, pat@, m) by {}
    }
    false
}

/// The line carries at least one of the keywords: true exactly when some
/// element of `filters` occurs in `line` as a substring.
pub fn contains_keyword(line: &str, filters: &[String]) -> (b: bool)
    ensures
        b == matches_any(line@, filters.deep_view()),
{
    let n = filters.len();
    let mut k: usize = 0;
    while k < n
        invariant
            n == filters@.len(),
            k <= n,
            forall|m: int| 0 <= m < k ==> !contains_substring(line@, filters.deep_view()[m]),
        decreases n - k,
    {
        let pat = slice_index_get(filters, k);
        if contains_str(line, pat.as_str()) {
            proof {
                assert(filters.deep_view()[k as int] == filters@[k as int]@);
            }
            return true;
        }
        k += 1;
    }
    false
}

/// The default keyword set: the thread, process and cpu-usage report
/// lines of a log.
pub fn default_filters() -> (filters: Vec<String>)
    ensures
        filters.deep_view() == seq!["tid:"@, "pid:"@, "cpu usage"@],
{
    let mut filters: Vec<String> = Vec::new();
    filters.push(String::from_str("tid:"));
    filters.push(String::from_str("pid:"));
    filters.push(String::from_str("cpu usage"));
    proof {
        assert(filters.deep_view() =~= seq!["tid:"@, "pid:"@, "cpu usage"@]);
    }
    filters
}

/// The line is clean: true exactly when none of the keywords occurs in
/// `line` as a substring.  Always the negation of [`contains_keyword`] on
/// the same inputs.
pub fn filter_keyword(line: &str, filters: &[String]) -> (b: bool)
    ensures
        b == matches_none(line@, filters.deep_view()),
        b == !matches_any(line@, filters.deep_view()),
{
    !contains_keyword(line, filters)
}

} // verus!
