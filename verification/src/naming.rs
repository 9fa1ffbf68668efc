//! Output-file naming rule.
//!
//! A filtered file is written beside its input under the input's name with
//! a fixed marker inserted before the extension: `name.ext` becomes
//! `name_filtered.ext`, and a name without an extension gets the marker
//! appended.  A dot that starts the name does not begin an extension, and a
//! name that ends in a bare dot loses it.  The marker doubles as an
//! exclusion predicate: a file whose name already carries it is a product
//! of an earlier run and is skipped by directory traversal.

use vstd::prelude::*;
use vstd::string::{StrSliceExecFns, StringExecFns};
use crate::matcher::{contains_substring, is_match_at, contains_str};

verus! {

/// The marker inserted into the name of every generated output file.
pub open spec fn marker() -> Seq<char> {
    seq!['_', 'f', 'i', 'l', 't', 'e', 'r', 'e', 'd']
}

/// Index of the dot separating stem from extension: the last dot at a
/// position other than the first, or -1 when there is none (a dot that
/// starts the name marks a hidden file, not an extension).
pub open spec fn spec_last_dot(name: Seq<char>) -> int
    decreases name.len(),
{
    if name.len() <= 1 {
        -1
    } else if name[name.len() - 1] == '.' {
        name.len() - 1
    } else {
        spec_last_dot(name.drop_last())
    }
}

/// `spec_last_dot` points at a dot (when it is not -1) and nothing after
/// it is a dot.
pub proof fn lemma_last_dot(name: Seq<char>)
    ensures
        spec_last_dot(name) == -1 || 1 <= spec_last_dot(name) < name.len(),
        spec_last_dot(name) >= 1 ==> name[spec_last_dot(name)] == '.',
        forall|j: int| 1 <= j < name.len() && j > spec_last_dot(name) ==> name[j] != '.',
    decreases name.len(),
{
    if name.len() <= 1 {
    } else if name[name.len() - 1] == '.' {
    } else {
        lemma_last_dot(name.drop_last());
        assert forall|j: int|
            1 <= j < name.len() && j > spec_last_dot(name) implies name[j] != '.' by {
            if j < name.len() - 1 {
                assert(name.drop_last()[j] == name[j]);
            }
        }
        if spec_last_dot(name) >= 1 {
            assert(name.drop_last()[spec_last_dot(name)] == name[spec_last_dot(name)]);
        }
    }
}

/// A dot with no later dot after it is the separating dot.
pub proof fn lemma_last_dot_at(name: Seq<char>, m: int)
    requires
        1 <= m < name.len(),
        name[m] == '.',
        forall|j: int| m < j < name.len() ==> name[j] != '.',
    ensures
        spec_last_dot(name) == m,
    decreases name.len(),
{
    if name[name.len() - 1] == '.' {
        assert(m == name.len() - 1);
    } else {
        assert(m < name.len() - 1);
        assert(name.drop_last()[m] == name[m]);
        assert forall|j: int| m < j < name.drop_last().len() implies name.drop_last()[j] != '.' by {
            assert(name.drop_last()[j] == name[j]);
        }
        lemma_last_dot_at(name.drop_last(), m);
    }
}

/// A name with no dot after its first position has no separating dot.
pub proof fn lemma_no_dot(name: Seq<char>)
    requires
        forall|j: int| 1 <= j < name.len() ==> name[j] != '.',
    ensures
        spec_last_dot(name) == -1,
    decreases name.len(),
{
    if name.len() <= 1 {
    } else {
        assert(name[name.len() - 1] != '.');
        assert forall|j: int| 1 <= j < name.drop_last().len() implies name.drop_last()[j] != '.' by {
            assert(name.drop_last()[j] == name[j]);
        }
        lemma_no_dot(name.drop_last());
    }
}

/// The derived output-file name: the marker stands between stem and
/// extension; a name without an extension gets the marker appended, and a
/// trailing bare dot is dropped.
pub open spec fn spec_output_name(name: Seq<char>) -> Seq<char> {
    let d = spec_last_dot(name);
    if d < 0 {
        name + marker()
    } else if d == name.len() - 1 {
        name.take(d) + marker()
    } else {
        name.take(d) + marker() + name.skip(d)
    }
}

/// The naming rule is deterministic: the same input name always derives
/// the same output name.
pub proof fn lemma_output_name_deterministic(a: Seq<char>, b: Seq<char>)
    requires
        a == b,
    ensures
        spec_output_name(a) == spec_output_name(b),
{
}

/// Every derived output name carries the marker, so directory traversal
/// never selects a file produced by an earlier run.
pub proof fn lemma_output_name_carries_marker(name: Seq<char>)
    ensures
        contains_substring(spec_output_name(name), marker()),
{
    let out = spec_output_name(name);
    let d = spec_last_dot(name);
    lemma_last_dot(name);
    if d < 0 {
        assert(out.subrange(name.len() as int, name.len() + marker().len() as int) =~= marker());
        assert(is_match_at(out, marker(), name.len() as int));
    } else if d == name.len() - 1 {
        assert(out.subrange(d, d + marker().len()) =~= marker());
        assert(is_match_at(out, marker(), d));
    } else {
        assert(out.subrange(d, d + marker().len()) =~= marker());
        assert(is_match_at(out, marker(), d));
    }
}

/// Derives the sibling output-file name for an input file name.
pub fn output_file_name(name: &str) -> (out: String)
    ensures
        out@ == spec_output_name(name@),
{
    let n = name.unicode_len();
    let mut i: usize = n;
    while i > 1
        invariant
            n == name@.len() <= usize::MAX,
            i <= n,
            forall|j: int| i <= j < n ==> name@[j] != '.',
        decreases i,
    {
        if name.get_char(i - 1) == '.' {
            let d = i - 1;
            proof {
                lemma_last_dot_at(name@, d as int);
            }
            let stem = name.substring_char(0, d);
            let mut out = String::from_str(stem);
            out.append("_filtered");
            proof {
                reveal_strlit("_filtered");
                assert("_filtered"@ =~= marker());
                assert(stem@ =~= name@.take(d as int));
            }
            if d == n - 1 {
                return out;
            }
            let ext = name.substring_char(d, n);
            out.append(ext);
            proof {
                assert(ext@ =~= name@.skip(d as int));
            }
            return out;
        }
        i -= 1;
    }
    proof {
        lemma_no_dot(name@);
    }
    let mut out = String::from_str(name);
    out.append("_filtered");
    proof {
        reveal_strlit("_filtered");
        assert("_filtered"@ =~= marker());
    }
    out
}

/// Does this file name already carry the output marker?
pub fn is_output_name(name: &str) -> (b: bool)
    ensures
        b == contains_substring(name@, marker()),
{
    let b = contains_str(name, "_filtered");
    proof {
        reveal_strlit("_filtered");
        assert("_filtered"@ =~= marker());
    }
    b
}

/// Directory traversal selects a file only when its name does not carry
/// the output marker, so prior output is never reprocessed.
pub fn should_process(name: &str) -> (b: bool)
    ensures
        b == !contains_substring(name@, marker()),
{
    !is_output_name(name)
}

} // verus!
