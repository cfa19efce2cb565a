//! Splitting a text into lines and joining lines into a text.

use crate::text::{chars_of, lemma_run_length, lemma_run_length_unique, run_length, substring};
use vstd::prelude::*;

verus! {

/// The predicate that holds of every character but the line feed.
pub open spec fn not_newline() -> spec_fn(char) -> bool {
    |c: char| c != '\n'
}

/// `s` without its last character, where that is a carriage return.
pub open spec fn strip_cr(s: Seq<char>) -> Seq<char> {
    if s.len() > 0 && s.last() == '\r' {
        s.drop_last()
    } else {
        s
    }
}

/// The lines of `s`. A line ends at a line feed, which is not part of it,
/// nor is a carriage return directly before that line feed. What follows
/// the last line feed is a line too, unless it is empty; it keeps a
/// carriage return at its end.
pub open spec fn lines_of(s: Seq<char>) -> Seq<Seq<char>>
    decreases s.len(),
    via lines_of_decreases
{
    let n = run_length(s, not_newline());
    if s.len() == 0 {
        Seq::empty()
    } else if n == s.len() {
        seq![s]
    } else {
        seq![strip_cr(s.take(n as int))] + lines_of(s.skip(n as int + 1))
    }
}

#[via_fn]
proof fn lines_of_decreases(s: Seq<char>) {
    lemma_run_length(s, not_newline());
}

/// The lines `ls` with one line feed between each two neighbours.
pub open spec fn joined(ls: Seq<Seq<char>>) -> Seq<char>
    decreases ls.len(),
{
    if ls.len() == 0 {
        Seq::empty()
    } else if ls.len() == 1 {
        ls[0]
    } else {
        joined(ls.drop_last()) + seq!['\n'] + ls.last()
    }
}

/// Splits `text` into its lines.
pub fn split_lines(text: &str) -> (out: Vec<String>)
    ensures
        out.deep_view() == lines_of(text@),
{
    let chars = chars_of(text);
    let mut out: Vec<String> = Vec::new();
    let mut i: usize = 0;
    assert(out.deep_view() + lines_of(chars@.skip(0)) =~= lines_of(chars@)) by {
        assert(chars@.skip(0) == chars@);
    }
    while i < chars.len()
        invariant
            i <= chars.len(),
            lines_of(chars@) == out.deep_view() + lines_of(chars@.skip(i as int)),
        decreases chars.len() - i,
    {
        let ghost rest = chars@.skip(i as int);
        let start: usize = i;
        while i < chars.len() && chars[i] != '\n'
            invariant
                start <= i <= chars.len(),
                forall|k: int| start <= k < i ==> #[trigger] chars@[k] != '\n',
            decreases chars.len() - i,
        {
            i += 1;
        }
        proof {
            assert forall|k: int| 0 <= k < i - start implies not_newline()(#[trigger] rest[k]) by {
                assert(rest[k] == chars@[start + k]);
            }
            lemma_run_length_unique(rest, not_newline(), (i - start) as nat);
        }
        let ghost before = out.deep_view();
        if i == chars.len() {
            let line = substring(chars.as_slice(), start, i);
            assert(line@ == rest);
            out.push(line);
            assert(out.deep_view() =~~= before.push(rest));
            assert(lines_of(chars@.skip(i as int)) =~= Seq::<Seq<char>>::empty());
        } else {
            let end: usize = if i > start && chars[i - 1] == '\r' {
                (i - 1) as usize
            } else {
                i
            };
            let line = substring(chars.as_slice(), start, end);
            assert(line@ == strip_cr(rest.take(i - start)));
            out.push(line);
            assert(out.deep_view() =~~= before.push(strip_cr(rest.take(i - start))));
            i += 1;
            assert(rest.skip(i - start) == chars@.skip(i as int));
        }
    }
    assert(lines_of(chars@.skip(i as int)) =~= Seq::<Seq<char>>::empty());
    out
}

/// Joins `lines` into one text, with a line feed between each two
/// neighbours.
pub fn join_lines(lines: &[String]) -> (text: String)
    ensures
        text@ == joined(lines.deep_view()),
{
    let mut text = String::new();
    let mut i: usize = 0;
    while i < lines.len()
        invariant
            i <= lines.len(),
            text@ == joined(lines.deep_view().take(i as int)),
        decreases lines.len() - i,
    {
        let ghost ls = lines.deep_view().take(i + 1);
        assert(ls.drop_last() == lines.deep_view().take(i as int));
        assert(ls.last() == lines@[i as int]@);
        if i > 0 {
            text.push('\n');
        }
        text.append(lines[i].as_str());
        i += 1;
    }
    assert(lines.deep_view().take(i as int) == lines.deep_view());
    text
}

/// Whether `line` holds no line feed.
pub open spec fn is_one_line(line: Seq<char>) -> bool {
    forall|i: int| 0 <= i < line.len() ==> #[trigger] line[i] != '\n'
}

/// No line of a text holds a line feed.
pub proof fn lemma_lines_are_lines(s: Seq<char>)
    ensures
        forall|i: int| 0 <= i < lines_of(s).len() ==> is_one_line(#[trigger] lines_of(s)[i]),
    decreases s.len(),
{
    let n = run_length(s, not_newline());
    lemma_run_length(s, not_newline());
    if s.len() == 0 {
    } else if n == s.len() {
        assert(is_one_line(s));
    } else {
        let rest = s.skip(n as int + 1);
        lemma_lines_are_lines(rest);
        assert(is_one_line(strip_cr(s.take(n as int))));
        assert forall|i: int| 0 <= i < lines_of(s).len() implies is_one_line(
            #[trigger] lines_of(s)[i],
        ) by {
            if i > 0 {
                assert(lines_of(s)[i] == lines_of(rest)[i - 1]);
            }
        }
    }
}

/// Joined lines are the first line alone, or the first line, a line feed and
/// the other lines joined.
pub proof fn lemma_joined_first(first: Seq<char>, others: Seq<Seq<char>>)
    ensures
        joined(seq![first] + others) == if others.len() == 0 {
            first
        } else {
            first + seq!['\n'] + joined(others)
        },
    decreases others.len(),
{
    let all = seq![first] + others;
    if others.len() == 0 {
        assert(all == seq![first]);
    } else if others.len() == 1 {
        assert(all.drop_last() == seq![first]);
        assert(joined(all.drop_last()) == first);
    } else {
        assert(all.drop_last() == seq![first] + others.drop_last());
        lemma_joined_first(first, others.drop_last());
        assert(joined(all) == first + seq!['\n'] + joined(others.drop_last()) + seq!['\n']
            + others.last());
        assert(joined(all) == first + seq!['\n'] + (joined(others.drop_last()) + seq!['\n']
            + others.last()));
    }
}

/// Splitting what was joined gives the lines back, where no line holds a line
/// feed, no line but the last ends in a carriage return, and the last line is
/// not empty.
pub proof fn lemma_lines_of_joined(ls: Seq<Seq<char>>)
    requires
        forall|i: int| 0 <= i < ls.len() ==> is_one_line(#[trigger] ls[i]),
        forall|i: int| 0 <= i < ls.len() - 1 ==> strip_cr(#[trigger] ls[i]) == ls[i],
        ls.len() > 0 ==> ls.last().len() > 0,
    ensures
        lines_of(joined(ls)) == ls,
    decreases ls.len(),
{
    if ls.len() == 0 {
    } else {
        let first = ls[0];
        let others = ls.skip(1);
        assert(ls == seq![first] + others);
        lemma_joined_first(first, others);
        let text = joined(ls);
        assert(is_one_line(first));
        if others.len() == 0 {
            assert forall|i: int| 0 <= i < text.len() implies not_newline()(#[trigger] text[i]) by {}
            lemma_run_length_unique(text, not_newline(), text.len());
            assert(ls == seq![text]);
        } else {
            assert forall|i: int| 0 <= i < first.len() implies not_newline()(#[trigger] text[i]) by {
                assert(text[i] == first[i]);
            }
            assert(text[first.len() as int] == '\n');
            lemma_run_length_unique(text, not_newline(), first.len());
            assert(text.take(first.len() as int) == first);
            assert(text.skip(first.len() as int + 1) == joined(others));
            assert forall|i: int| 0 <= i < others.len() implies is_one_line(
                #[trigger] others[i],
            ) by {
                assert(others[i] == ls[i + 1]);
            }
            assert forall|i: int| 0 <= i < others.len() - 1 implies strip_cr(#[trigger] others[i])
                == others[i] by {
                assert(others[i] == ls[i + 1]);
            }
            assert(others.last() == ls.last());
            lemma_lines_of_joined(others);
            assert(strip_cr(first) == first);
        }
    }
}

} // verus!
