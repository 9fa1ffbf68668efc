//! Splitting a file's text into lines and joining selected lines back into
//! a file's text.
//!
//! A line ends at a line feed; a carriage return immediately before a line
//! feed belongs to the terminator, not to the line.  Text after the last
//! line feed forms a final line of its own, so a trailing line feed does not
//! produce an empty last line, and an empty text has no lines at all.
//! Joining appends a line feed after every line, the last one included.

use vstd::prelude::*;
use vstd::string::{StrSliceExecFns, StringExecFns};

verus! {

/// Index of the first line feed in `s`, or `s.len()` when there is none.
pub open spec fn first_newline(s: Seq<char>) -> int
    decreases s.len(),
{
    if s.len() == 0 {
        0
    } else if s[0] == '\n' {
        0
    } else {
        1 + first_newline(s.drop_first())
    }
}

/// `first_newline` points at the first line feed: nothing before it is a
/// line feed, and it is a line feed unless it equals the length.
pub proof fn lemma_first_newline(s: Seq<char>)
    ensures
        0 <= first_newline(s) <= s.len(),
        forall|j: int| 0 <= j < first_newline(s) ==> s[j] != '\n',
        first_newline(s) < s.len() ==> s[first_newline(s)] == '\n',
    decreases s.len(),
{
    if s.len() == 0 {
    } else if s[0] == '\n' {
    } else {
        lemma_first_newline(s.drop_first());
        assert forall|j: int| 0 <= j < first_newline(s) implies s[j] != '\n' by {
            if j > 0 {
                assert(s.drop_first()[j - 1] == s[j]);
            }
        }
        if first_newline(s) < s.len() {
            assert(s.drop_first()[first_newline(s) - 1] == s[first_newline(s)]);
        }
    }
}

/// Any position with no line feed before it, and a line feed (or the end)
/// at it, is `first_newline`.
pub proof fn lemma_first_newline_at(s: Seq<char>, m: int)
    requires
        0 <= m <= s.len(),
        forall|j: int| 0 <= j < m ==> s[j] != '\n',
        m < s.len() ==> s[m] == '\n',
    ensures
        first_newline(s) == m,
    decreases s.len(),
{
    if s.len() == 0 {
    } else if s[0] == '\n' {
        assert(m == 0);
    } else {
        assert(m >= 1);
        assert forall|j: int| 0 <= j < m - 1 implies s.drop_first()[j] != '\n' by {
            assert(s.drop_first()[j] == s[j + 1]);
        }
        assert(m - 1 < s.drop_first().len() ==> s.drop_first()[m - 1] == s[m]);
        lemma_first_newline_at(s.drop_first(), m - 1);
    }
}

/// Drops a final carriage return, if the sequence ends with one.
pub open spec fn strip_cr(l: Seq<char>) -> Seq<char> {
    if l.len() > 0 && l[l.len() - 1] == '\r' {
        l.drop_last()
    } else {
        l
    }
}

/// The lines of a text: maximal line-feed-free runs, each stripped of a
/// carriage return that stood right before its line feed; text after the
/// last line feed is the final line, and an empty text has no lines.
pub open spec fn spec_lines(s: Seq<char>) -> Seq<Seq<char>>
    decreases s.len(),
{
    if s.len() == 0 {
        Seq::empty()
    } else {
        let i = first_newline(s);
        if 0 <= i < s.len() {
            seq![strip_cr(s.take(i))] + spec_lines(s.skip(i + 1))
        } else {
            seq![s]
        }
    }
}

/// The text joined back from `lines`, a line feed after every line.
pub open spec fn spec_join_lines(lines: Seq<Seq<char>>) -> Seq<char>
    decreases lines.len(),
{
    if lines.len() == 0 {
        Seq::empty()
    } else {
        lines[0] + seq!['\n'] + spec_join_lines(lines.drop_first())
    }
}

/// A sequence of characters that can stand as a line of a joined text
/// without being reshaped when the text is split again: it holds no line
/// feed and does not end in a carriage return.
pub open spec fn clean_line(l: Seq<char>) -> bool {
    &&& forall|j: int| 0 <= j < l.len() ==> l[j] != '\n'
    &&& l.len() > 0 ==> l[l.len() - 1] != '\r'
}

/// Every line produced by splitting is free of line feeds.
pub proof fn lemma_lines_have_no_newline(s: Seq<char>)
    ensures
        forall|i: int, j: int|
            0 <= i < spec_lines(s).len() && 0 <= j < spec_lines(s)[i].len()
                ==> #[trigger] spec_lines(s)[i][j] != '\n',
    decreases s.len(),
{
    if s.len() == 0 {
    } else {
        let n = first_newline(s);
        lemma_first_newline(s);
        if 0 <= n < s.len() {
            lemma_lines_have_no_newline(s.skip(n + 1));
            assert forall|i: int, j: int|
                0 <= i < spec_lines(s).len() && 0 <= j < spec_lines(s)[i].len()
                    implies #[trigger] spec_lines(s)[i][j] != '\n' by {
                if i == 0 {
                    assert(spec_lines(s)[0] == strip_cr(s.take(n)));
                    assert(s.take(n)[j] == s[j]);
                } else {
                    assert(spec_lines(s)[i] == spec_lines(s.skip(n + 1))[i - 1]);
                }
            }
        } else {
            assert forall|i: int, j: int|
                0 <= i < spec_lines(s).len() && 0 <= j < spec_lines(s)[i].len()
                    implies #[trigger] spec_lines(s)[i][j] != '\n' by {
                assert(spec_lines(s)[i] == s);
            }
        }
    }
}

/// Splitting undoes joining: a join of clean lines, split again, gives the
/// same lines back.
pub proof fn lemma_join_then_split(lines: Seq<Seq<char>>)
    requires
        forall|i: int| 0 <= i < lines.len() ==> clean_line(#[trigger] lines[i]),
    ensures
        spec_lines(spec_join_lines(lines)) == lines,
    decreases lines.len(),
{
    if lines.len() == 0 {
        assert(spec_lines(spec_join_lines(lines)) =~= lines);
    } else {
        let l0 = lines[0];
        let rest = spec_join_lines(lines.drop_first());
        let joined = spec_join_lines(lines);
        assert(joined == l0 + seq!['\n'] + rest);
        assert(joined.len() == l0.len() + 1 + rest.len());
        assert forall|k: int| 0 <= k < l0.len() implies joined[k] != '\n' by {
            assert(joined[k] == l0[k]);
        }
        assert(joined[l0.len() as int] == '\n');
        lemma_first_newline_at(joined, l0.len() as int);
        assert(joined.take(l0.len() as int) =~= l0);
        assert(strip_cr(l0) == l0);
        assert(joined.skip(l0.len() + 1 as int) =~= rest);
        assert forall|i: int| 0 <= i < lines.drop_first().len() implies clean_line(
            #[trigger] lines.drop_first()[i],
        ) by {
            assert(lines.drop_first()[i] == lines[i + 1]);
        }
        lemma_join_then_split(lines.drop_first());
        assert(spec_lines(joined) == seq![l0] + lines.drop_first());
        assert(seq![l0] + lines.drop_first() =~= lines);
    }
}

/// Joining one more line appends that line and a line feed.
pub proof fn lemma_join_push(lines: Seq<Seq<char>>, l: Seq<char>)
    ensures
        spec_join_lines(lines.push(l)) == spec_join_lines(lines) + l + seq!['\n'],
    decreases lines.len(),
{
    if lines.len() == 0 {
        assert(lines.push(l)[0] == l);
        assert(lines.push(l).drop_first() =~= lines);
        assert(spec_join_lines(lines.push(l)) =~= spec_join_lines(lines) + l + seq!['\n']);
    } else {
        assert(lines.push(l)[0] == lines[0]);
        assert(lines.push(l).drop_first() =~= lines.drop_first().push(l));
        lemma_join_push(lines.drop_first(), l);
        assert(spec_join_lines(lines.push(l)) =~= spec_join_lines(lines) + l + seq!['\n']);
    }
}

/// Splits `content` into its lines.
pub fn split_lines(content: &str) -> (lines: Vec<String>)
    ensures
        lines.deep_view() == spec_lines(content@),
{
    let ghost s: Seq<char> = content@;
    let n = content.unicode_len();
    let mut lines: Vec<String> = Vec::new();
    let mut start: usize = 0;
    let mut i: usize = 0;
    proof {
        assert(lines.deep_view() =~= Seq::<Seq<char>>::empty());
        assert(s.skip(0) =~= s);
        assert(lines.deep_view() + spec_lines(s.skip(0)) =~= spec_lines(s));
    }
    while i < n
        invariant
            n == s.len() <= usize::MAX,
            s == content@,
            start <= i <= n,
            forall|j: int| start <= j < i ==> s[j] != '\n',
            spec_lines(s) == lines.deep_view() + spec_lines(s.skip(start as int)),
        decreases n - i,
    {
        if content.get_char(i) == '\n' {
            let end = if i > start && content.get_char(i - 1) == '\r' {
                i - 1
            } else {
                i
            };
            let piece = content.substring_char(start, end);
            let ghost old_dv = lines.deep_view();
            lines.push(String::from_str(piece));
            proof {
                let t = s.skip(start as int);
                assert forall|j: int| 0 <= j < i - start implies t[j] != '\n' by {
                    assert(t[j] == s[start + j]);
                }
                assert(t[i - start] == s[i as int]);
                lemma_first_newline_at(t, i - start);
                assert(t.take(i - start) =~= s.subrange(start as int, i as int));
                assert(t.skip(i - start + 1) =~= s.skip(i + 1));
                assert(strip_cr(s.subrange(start as int, i as int))
                    =~= s.subrange(start as int, end as int));
                assert(spec_lines(t) == seq![s.subrange(start as int, end as int)]
                    + spec_lines(s.skip(i + 1)));
                assert(piece@ == s.subrange(start as int, end as int));
                assert(lines.deep_view() =~= old_dv.push(piece@));
                assert(old_dv + spec_lines(t)
                    =~= lines.deep_view() + spec_lines(s.skip(i + 1)));
            }
            start = i + 1;
        }
        i += 1;
    }
    if start < n {
        let piece = content.substring_char(start, n);
        let ghost old_dv = lines.deep_view();
        lines.push(String::from_str(piece));
        proof {
            let t = s.skip(start as int);
            assert forall|j: int| 0 <= j < t.len() implies t[j] != '\n' by {
                assert(t[j] == s[start + j]);
            }
            lemma_first_newline_at(t, t.len() as int);
            assert(piece@ =~= t);
            assert(spec_lines(t) == seq![t]);
            assert(lines.deep_view() =~= old_dv.push(t));
            assert(old_dv + spec_lines(t) =~= lines.deep_view());
        }
    } else {
        proof {
            assert(s.skip(start as int) =~= Seq::<char>::empty());
            assert(lines.deep_view() + spec_lines(s.skip(start as int))
                =~= lines.deep_view());
        }
    }
    lines
}

/// Joins `lines` into one text, appending a line feed after every line.
pub fn join_lines(lines: &Vec<String>) -> (out: String)
    ensures
        out@ == spec_join_lines(lines.deep_view()),
{
    let mut out = String::new();
    let mut i: usize = 0;
    proof {
        reveal_strlit("\n");
        assert(lines.deep_view().take(0) =~= Seq::<Seq<char>>::empty());
    }
    while i < lines.len()
        invariant
            i <= lines@.len(),
            out@ == spec_join_lines(lines.deep_view().take(i as int)),
        decreases lines@.len() - i,
    {
        out.append(lines[i].as_str());
        out.append("\n");
        proof {
            reveal_strlit("\n");
            let dv = lines.deep_view();
            assert("\n"@ =~= seq!['\n']);
            assert(dv.take(i + 1) =~= dv.take(i as int).push(dv[i as int]));
            lemma_join_push(dv.take(i as int), dv[i as int]);
            assert(dv[i as int] == lines@[i as int]@);
        }
        i += 1;
    }
    proof {
        assert(lines.deep_view().take(lines@.len() as int) =~= lines.deep_view());
    }
    out
}

} // verus!
