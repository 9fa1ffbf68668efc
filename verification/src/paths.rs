//! Path resolution against the stored base directory.
//!
//! An absolute path is used as it is; a relative path is joined to the
//! base directory as a further segment.  Whether the path is absolute is
//! the platform's judgement and is passed in by the caller.

use vstd::prelude::*;
use vstd::string::{StrSliceExecFns, StringExecFns};

verus! {

/// The resolved target path: the path itself when absolute, otherwise the
/// base directory with the path appended as a segment (a separator is
/// inserted unless the base already ends with one or is empty).
pub open spec fn spec_resolved_path(path: Seq<char>, absolute: bool, base: Seq<char>) -> Seq<
    char,
> {
    if absolute {
        path
    } else if base.len() == 0 {
        path
    } else if base[base.len() - 1] == '/' {
        base + path
    } else {
        base + seq!['/'] + path
    }
}

/// Resolves a user-supplied path against the base directory.
pub fn resolve_path(path: &str, path_is_absolute: bool, base: &str) -> (resolved: String)
    ensures
        resolved@ == spec_resolved_path(path@, path_is_absolute, base@),
{
    if path_is_absolute {
        return String::from_str(path);
    }
    let blen = base.unicode_len();
    if blen == 0 {
        return String::from_str(path);
    }
    let mut out = String::from_str(base);
    if base.get_char(blen - 1) != '/' {
        out.append("/");
        proof {
            reveal_strlit("/");
            assert("/"@ =~= seq!['/']);
        }
    }
    out.append(path);
    out
}

} // verus!
