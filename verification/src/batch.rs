//! Batch model: a directory run processes every discovered file on its
//! own.  Each file's report is a function of that file's content alone, so
//! a file that could not be read is reported as failed and skipped while
//! every other file of the batch is still processed and reported exactly
//! as it would have been on its own.
//!
//! A file's content is carried as `Some(text)` when the read succeeded and
//! `None` when it failed; the report for a failed read is `None` in turn.

use vstd::prelude::*;
use crate::processor::{spec_match_count, spec_filtered_text, count_content, filter_content};

verus! {

/// Check-mode reports of a batch: one per file, in order; `None` reports
/// a file whose content could not be read.
pub open spec fn spec_batch_counts(
    contents: Seq<Option<Seq<char>>>,
    keywords: Seq<Seq<char>>,
) -> Seq<Option<nat>> {
    contents.map_values(
        |c: Option<Seq<char>>|
            match c {
                Some(t) => Some(spec_match_count(t, keywords)),
                None => None,
            },
    )
}

/// Filter-mode reports of a batch: one output text per file, in order;
/// `None` reports a file whose content could not be read.
pub open spec fn spec_batch_filtered(
    contents: Seq<Option<Seq<char>>>,
    keywords: Seq<Seq<char>>,
    keep: bool,
) -> Seq<Option<Seq<char>>> {
    contents.map_values(
        |c: Option<Seq<char>>|
            match c {
                Some(t) => Some(spec_filtered_text(t, keywords, keep)),
                None => None,
            },
    )
}

/// Batch isolation: the report for one file depends only on that file's
/// own content.  Whatever happens to the rest of the batch — other files
/// unreadable, added, removed or changed — the report at a position with
/// the same content is the same.
pub proof fn lemma_batch_isolation(
    a: Seq<Option<Seq<char>>>,
    b: Seq<Option<Seq<char>>>,
    keywords: Seq<Seq<char>>,
    keep: bool,
    i: int,
)
    requires
        0 <= i < a.len(),
        0 <= i < b.len(),
        a[i] == b[i],
    ensures
        spec_batch_counts(a, keywords)[i] == spec_batch_counts(b, keywords)[i],
        spec_batch_filtered(a, keywords, keep)[i] == spec_batch_filtered(b, keywords, keep)[i],
{
}

/// Check mode over a batch of file contents: one report per file, `None`
/// where the read had failed, the matching-line count everywhere else.
pub fn batch_counts(contents: &Vec<Option<String>>, filters: &[String]) -> (reports: Vec<
    Option<usize>,
>)
    ensures
        reports@.len() == contents.deep_view().len(),
        forall|i: int|
            0 <= i < reports@.len() ==> {
                &&& ((#[trigger] reports@[i]) is Some <==> spec_batch_counts(
                    contents.deep_view(),
                    filters.deep_view(),
                )[i] is Some)
                &&& (reports@[i] is Some ==> reports@[i]->0 == spec_batch_counts(
                    contents.deep_view(),
                    filters.deep_view(),
                )[i]->0)
            },
{
    let ghost dv = contents.deep_view();
    let ghost reportspec = spec_batch_counts(dv, filters.deep_view());
    let mut reports: Vec<Option<usize>> = Vec::new();
    let mut i: usize = 0;
    while i < contents.len()
        invariant
            i <= contents@.len(),
            dv == contents.deep_view(),
            reportspec == spec_batch_counts(dv, filters.deep_view()),
            reports@.len() == i,
            forall|j: int|
                0 <= j < i ==> {
                    &&& ((#[trigger] reports@[j]) is Some <==> reportspec[j] is Some)
                    &&& (reports@[j] is Some ==> reports@[j]->0 == reportspec[j]->0)
                },
        decreases contents@.len() - i,
    {
        match &contents[i] {
            Some(text) => {
                let count = count_content(text.as_str(), filters);
                reports.push(Some(count));
                proof {
                    assert(dv[i as int] == Some(text@));
                }
            },
            None => {
                reports.push(None);
                proof {
                    assert(dv[i as int] is None);
                }
            },
        }
        i += 1;
    }
    reports
}

/// Filter mode over a batch of file contents: one report per file, `None`
/// where the read had failed, the output text everywhere else.
pub fn batch_filtered(contents: &Vec<Option<String>>, filters: &[String], keep: bool) -> (reports:
    Vec<Option<String>>)
    ensures
        reports.deep_view() == spec_batch_filtered(
            contents.deep_view(),
            filters.deep_view(),
            keep,
        ),
{
    let ghost dv = contents.deep_view();
    let ghost reportspec = spec_batch_filtered(dv, filters.deep_view(), keep);
    let mut reports: Vec<Option<String>> = Vec::new();
    let mut i: usize = 0;
    while i < contents.len()
        invariant
            i <= contents@.len(),
            dv == contents.deep_view(),
            reportspec == spec_batch_filtered(dv, filters.deep_view(), keep),
            reports@.len() == i,
            forall|j: int| 0 <= j < i ==> reports.deep_view()[j] == reportspec[j],
        decreases contents@.len() - i,
    {
        match &contents[i] {
            Some(text) => {
                let out = filter_content(text.as_str(), filters, keep);
                reports.push(Some(out));
                proof {
                    assert(dv[i as int] == Some(text@));
                }
            },
            None => {
                reports.push(None);
                proof {
                    assert(dv[i as int] is None);
                }
            },
        }
        proof {
            assert forall|j: int| 0 <= j < i + 1 implies reports.deep_view()[j]
                == reportspec[j] by {
                assert(reports.deep_view()[j] == reports@[j].deep_view());
            }
        }
        i += 1;
    }
    proof {
        assert(reports.deep_view() =~= reportspec);
    }
    reports
}

} // verus!
