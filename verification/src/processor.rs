//! Per-file processing: check mode counts the lines that carry a keyword;
//! filter mode selects lines by the keep/remove policy and joins them back
//! into the text of the output file.
//!
//! With `keep` false (the default policy) the clean lines are selected and
//! matching lines are removed; with `keep` true only the matching lines
//! are selected.  The two selections of one file partition its lines.

use vstd::prelude::*;
use crate::matcher::{matches_any, matches_none, contains_keyword, filter_keyword};
use crate::lines::{spec_lines, spec_join_lines, clean_line, lemma_join_then_split,
    lemma_lines_have_no_newline, split_lines, join_lines};

verus! {

/// Whether a line is selected for the output: with `keep` true the lines
/// that carry a keyword are selected, otherwise the clean lines are.
pub open spec fn line_selected(line: Seq<char>, keywords: Seq<Seq<char>>, keep: bool) -> bool {
    if keep {
        matches_any(line, keywords)
    } else {
        matches_none(line, keywords)
    }
}

/// The subsequence of `lines` selected by the policy, in input order.
pub open spec fn spec_selected_lines(
    lines: Seq<Seq<char>>,
    keywords: Seq<Seq<char>>,
    keep: bool,
) -> Seq<Seq<char>> {
    lines.filter(|l: Seq<char>| line_selected(l, keywords, keep))
}

/// The number of lines of a text that carry a keyword (check mode).
pub open spec fn spec_match_count(content: Seq<char>, keywords: Seq<Seq<char>>) -> nat {
    spec_lines(content).filter(|l: Seq<char>| matches_any(l, keywords)).len()
}

/// The text of the filtered output file (filter mode): the selected lines,
/// each followed by a line feed.
pub open spec fn spec_filtered_text(
    content: Seq<char>,
    keywords: Seq<Seq<char>>,
    keep: bool,
) -> Seq<char> {
    spec_join_lines(spec_selected_lines(spec_lines(content), keywords, keep))
}

/// Complementary predicates split a sequence's length in two.
proof fn lemma_complement_filter_len<A>(s: Seq<A>, p: spec_fn(A) -> bool, q: spec_fn(A) -> bool)
    requires
        forall|x: A| #[trigger] q(x) == !p(x),
    ensures
        s.filter(p).len() + s.filter(q).len() == s.len(),
    decreases s.len(),
{
    reveal(Seq::filter);
    if s.len() > 0 {
        lemma_complement_filter_len(s.drop_last(), p, q);
    }
}

/// A filter with an always-true predicate keeps the sequence unchanged.
proof fn lemma_filter_all_true<A>(s: Seq<A>, p: spec_fn(A) -> bool)
    requires
        forall|x: A| #[trigger] p(x),
    ensures
        s.filter(p) == s,
    decreases s.len(),
{
    reveal(Seq::filter);
    if s.len() > 0 {
        lemma_filter_all_true(s.drop_last(), p);
        assert(s.filter(p) =~= s);
    } else {
        assert(s.filter(p) =~= s);
    }
}

/// An empty keyword set is no filter: the remove policy then keeps every
/// line, and the keep policy selects none.
pub proof fn lemma_empty_keyword_selection(lines: Seq<Seq<char>>)
    ensures
        spec_selected_lines(lines, Seq::<Seq<char>>::empty(), false) == lines,
        spec_selected_lines(lines, Seq::<Seq<char>>::empty(), true) == Seq::<Seq<char>>::empty(),
{
    let none = Seq::<Seq<char>>::empty();
    let p = |l: Seq<char>| line_selected(l, none, false);
    let q = |l: Seq<char>| line_selected(l, none, true);
    assert forall|x: Seq<char>| #[trigger] p(x) by {}
    lemma_filter_all_true(lines, p);
    assert forall|i: int| 0 <= i < lines.len() implies !q(lines[i]) by {}
    lines.lemma_all_neg_filter_empty(q);
    assert(lines.filter(q) =~= Seq::<Seq<char>>::empty());
}

/// Filter-mode round trip: the keep and remove selections of the same
/// lines under the same keywords partition those lines.  Their lengths add
/// up to the input's length, a line stands in the keep selection exactly
/// when it matches a keyword, in the remove selection exactly when it
/// matches none, and so in exactly one of the two.
pub proof fn lemma_selection_partition(lines: Seq<Seq<char>>, keywords: Seq<Seq<char>>)
    ensures
        spec_selected_lines(lines, keywords, true).len() + spec_selected_lines(
            lines,
            keywords,
            false,
        ).len() == lines.len(),
        forall|i: int|
            0 <= i < lines.len() ==> (spec_selected_lines(lines, keywords, true).contains(
                lines[i],
            ) <==> matches_any(lines[i], keywords)),
        forall|i: int|
            0 <= i < lines.len() ==> (spec_selected_lines(lines, keywords, false).contains(
                lines[i],
            ) <==> matches_none(lines[i], keywords)),
        forall|i: int|
            0 <= i < lines.len() ==> (spec_selected_lines(lines, keywords, true).contains(
                lines[i],
            ) <==> !spec_selected_lines(lines, keywords, false).contains(lines[i])),
{
    broadcast use Seq::lemma_filter_pred, Seq::lemma_filter_contains;

    let p = |l: Seq<char>| line_selected(l, keywords, true);
    let q = |l: Seq<char>| line_selected(l, keywords, false);
    lemma_complement_filter_len(lines, p, q);
    let t = lines.filter(p);
    let f = lines.filter(q);
    assert forall|i: int| 0 <= i < lines.len() implies (t.contains(lines[i]) <==> matches_any(
        lines[i],
        keywords,
    )) by {
        if t.contains(lines[i]) {
            let j = choose|j: int| 0 <= j < t.len() && t[j] == lines[i];
            assert(p(t[j]));
        }
        if matches_any(lines[i], keywords) {
            assert(p(lines[i]));
        }
    }
    assert forall|i: int| 0 <= i < lines.len() implies (f.contains(lines[i]) <==> matches_none(
        lines[i],
        keywords,
    )) by {
        if f.contains(lines[i]) {
            let j = choose|j: int| 0 <= j < f.len() && f[j] == lines[i];
            assert(q(f[j]));
        }
        if matches_none(lines[i], keywords) {
            assert(q(lines[i]));
        }
    }
}

/// Filter-mode round trip at the file level: splitting the filtered
/// output text gives back exactly the lines of the input that the policy
/// selected, in their original order.  This asks the input's lines not to
/// end in a bare carriage return, since joining puts a line feed behind
/// one and a later split would take the pair for a terminator.
pub proof fn lemma_filtered_text_lines(content: Seq<char>, keywords: Seq<Seq<char>>, keep: bool)
    requires
        forall|i: int|
            0 <= i < spec_lines(content).len() && (#[trigger] spec_lines(content)[i]).len() > 0
                ==> spec_lines(content)[i][spec_lines(content)[i].len() - 1] != '\r',
    ensures
        spec_lines(spec_filtered_text(content, keywords, keep)) == spec_selected_lines(
            spec_lines(content),
            keywords,
            keep,
        ),
{
    let all = spec_lines(content);
    lemma_lines_have_no_newline(content);
    assert forall|i: int| 0 <= i < all.len() implies clean_line(#[trigger] all[i]) by {
        assert forall|j: int| 0 <= j < all[i].len() implies all[i][j] != '\n' by {
            assert(spec_lines(content)[i][j] != '\n');
        }
    }
    let p = |l: Seq<char>| line_selected(l, keywords, keep);
    let sel = all.filter(p);
    assert forall|i: int| 0 <= i < sel.len() implies clean_line(#[trigger] sel[i]) by {
        assert(sel.contains(sel[i]));
        all.lemma_filter_contains_rev(p, sel[i]);
        let j = choose|j: int| 0 <= j < all.len() && all[j] == sel[i];
        assert(clean_line(all[j]));
    }
    lemma_join_then_split(sel);
}

/// Selects from `lines` the lines the policy keeps, in input order.
pub fn select_lines(lines: &Vec<String>, filters: &[String], keep: bool) -> (out: Vec<String>)
    ensures
        out.deep_view() == spec_selected_lines(lines.deep_view(), filters.deep_view(), keep),
{
    broadcast use Seq::lemma_filter_push, Seq::lemma_take_succ_push;

    let ghost dv = lines.deep_view();
    let ghost pred = |l: Seq<char>| line_selected(l, filters.deep_view(), keep);
    let mut out: Vec<String> = Vec::new();
    let mut i: usize = 0;
    proof {
        assert(dv.take(0) =~= Seq::<Seq<char>>::empty());
        reveal(Seq::filter);
        assert(out.deep_view() =~= dv.take(0).filter(pred));
    }
    while i < lines.len()
        invariant
            i <= lines@.len(),
            dv == lines.deep_view(),
            pred == (|l: Seq<char>| line_selected(l, filters.deep_view(), keep)),
            out.deep_view() == dv.take(i as int).filter(pred),
        decreases lines@.len() - i,
    {
        let line = &lines[i];
        let selected = if keep {
            contains_keyword(line.as_str(), filters)
        } else {
            filter_keyword(line.as_str(), filters)
        };
        let ghost old_out = out.deep_view();
        if selected {
            out.push(line.clone());
        }
        proof {
            assert(dv[i as int] == lines@[i as int]@);
            assert(dv.take(i + 1) == dv.take(i as int).push(dv[i as int]));
            dv.take(i as int).lemma_filter_push(dv[i as int], pred);
            assert(pred(dv[i as int]) == selected);
            if selected {
                assert(out.deep_view() =~= old_out.push(dv[i as int]));
            }
            assert(out.deep_view() == dv.take(i + 1).filter(pred));
        }
        i += 1;
    }
    proof {
        assert(dv.take(lines@.len() as int) =~= dv);
    }
    out
}

/// Counts the lines among `lines` that carry a keyword.
pub fn count_matching(lines: &Vec<String>, filters: &[String]) -> (count: usize)
    ensures
        count == lines.deep_view().filter(
            |l: Seq<char>| matches_any(l, filters.deep_view()),
        ).len(),
{
    broadcast use Seq::lemma_filter_len_push, Seq::lemma_take_succ_push;

    let ghost dv = lines.deep_view();
    let ghost pred = |l: Seq<char>| matches_any(l, filters.deep_view());
    let mut count: usize = 0;
    let mut i: usize = 0;
    proof {
        assert(dv.take(0) =~= Seq::<Seq<char>>::empty());
        reveal(Seq::filter);
    }
    while i < lines.len()
        invariant
            i <= lines@.len(),
            dv == lines.deep_view(),
            pred == (|l: Seq<char>| matches_any(l, filters.deep_view())),
            count <= i,
            count == dv.take(i as int).filter(pred).len(),
        decreases lines@.len() - i,
    {
        let line = &lines[i];
        if contains_keyword(line.as_str(), filters) {
            count += 1;
        }
        proof {
            assert(dv[i as int] == lines@[i as int]@);
            assert(dv.take(i + 1) == dv.take(i as int).push(dv[i as int]));
            dv.take(i as int).lemma_filter_len_push(pred, dv[i as int]);
        }
        i += 1;
    }
    proof {
        assert(dv.take(lines@.len() as int) =~= dv);
    }
    count
}

/// Check mode on one file's text: the number of its lines that carry a
/// keyword.
pub fn count_content(content: &str, filters: &[String]) -> (count: usize)
    ensures
        count == spec_match_count(content@, filters.deep_view()),
{
    let lines = split_lines(content);
    count_matching(&lines, filters)
}

/// Filter mode on one file's text: the text of the output file, holding
/// exactly the lines the policy keeps, each followed by a line feed.
pub fn filter_content(content: &str, filters: &[String], keep: bool) -> (out: String)
    ensures
        out@ == spec_filtered_text(content@, filters.deep_view(), keep),
{
    let lines = split_lines(content);
    let kept = select_lines(&lines, filters, keep);
    join_lines(&kept)
}

} // verus!
