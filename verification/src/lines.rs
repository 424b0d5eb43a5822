//! Text as a sequence of lines.
//!
//! A text is cut into lines at its line feeds, and lines are joined into a
//! text again with line feeds between them.

use crate::text::{lemma_first_index, lemma_no_index};
use vstd::prelude::*;

verus! {

/// A line without the carriage return in front of its line feed.
pub open spec fn without_cr(line: Seq<char>) -> Seq<char> {
    if line.len() > 0 && line.last() == '\r' {
        line.drop_last()
    } else {
        line
    }
}

/// The lines of a text.
///
/// A line ends with a line feed, or with a carriage return and a line feed,
/// and neither of the two is part of the line. The last line needs no line
/// ending: a text that ends with one has the same lines as the text without
/// it. A carriage return anywhere else stays where it is.
pub open spec fn lines(s: Seq<char>) -> Seq<Seq<char>>
    decreases s.len(),
    via lines_decreases
{
    if s.len() == 0 {
        Seq::empty()
    } else {
        match s.index_of_first('\n') {
            Some(at) => seq![without_cr(s.take(at))] + lines(s.skip(at + 1)),
            None => seq![s],
        }
    }
}

#[via_fn]
proof fn lines_decreases(s: Seq<char>) {
    s.index_of_first_ensures('\n');
}

/// The lines with a line feed between each two of them, and none at the end.
pub open spec fn join_lines(ls: Seq<Seq<char>>) -> Seq<char>
    decreases ls.len(),
{
    if ls.len() == 0 {
        Seq::empty()
    } else if ls.len() == 1 {
        ls[0]
    } else {
        join_lines(ls.drop_last()) + seq!['\n'] + ls.last()
    }
}

/// Whether a text holds no line feed.
pub open spec fn is_one_line(s: Seq<char>) -> bool {
    forall|i: int| 0 <= i < s.len() ==> #[trigger] s[i] != '\n'
}

/// Whether a text is made of whole lines: it is empty, or it ends with a
/// line feed.
pub open spec fn ends_lines(s: Seq<char>) -> bool {
    s.len() == 0 || s.last() == '\n'
}

/// A text without a line feed, and with no carriage return at its end, is
/// the one line of itself followed by a line feed.
pub proof fn lemma_lines_of_line(line: Seq<char>)
    requires
        is_one_line(line),
        line.len() == 0 || line.last() != '\r',
    ensures
        lines(line + seq!['\n']) == seq![line],
{
    let s = line + seq!['\n'];
    let at = line.len() as int;
    assert forall|j: int| 0 <= j < at implies #[trigger] s[j] != '\n' by {
        assert(s[j] == line[j]);
    }
    lemma_first_index(s, '\n', at);
    assert(s.take(at) =~= line);
    assert(s.skip(at + 1) =~= Seq::<char>::empty());
    assert(lines(s.skip(at + 1)) =~= Seq::<Seq<char>>::empty());
    assert(lines(s) =~= seq![line]);
}

/// A text without a line feed that is not empty is one line.
pub proof fn lemma_lines_of_last_line(line: Seq<char>)
    requires
        is_one_line(line),
        line.len() > 0,
    ensures
        lines(line) == seq![line],
{
    lemma_no_index(line, '\n');
}

/// Behind a text made of whole lines, the lines of what follows come after
/// its own.
pub proof fn lemma_lines_concat(a: Seq<char>, b: Seq<char>)
    requires
        ends_lines(a),
    ensures
        lines(a + b) == lines(a) + lines(b),
    decreases a.len(),
{
    if a.len() == 0 {
        assert(a + b =~= b);
        assert(lines(a) + lines(b) =~= lines(b));
    } else {
        let s = a + b;
        a.index_of_first_ensures('\n');
        assert(a[a.len() - 1] == '\n');
        assert(a.contains('\n'));
        let at = a.index_of_first('\n')->Some_0;
        assert forall|j: int| 0 <= j < at implies #[trigger] s[j] != '\n' by {
            assert(s[j] == a[j]);
        }
        assert(s[at] == a[at]);
        lemma_first_index(s, '\n', at);
        let rest = a.skip(at + 1);
        assert(s.take(at) =~= a.take(at));
        assert(s.skip(at + 1) =~= rest + b);
        if rest.len() > 0 {
            assert(rest.last() == a.last());
        }
        lemma_lines_concat(rest, b);
        assert(lines(s) =~= lines(a) + lines(b));
    }
}

/// No line of a text holds a line feed.
pub proof fn lemma_lines_are_one_line(s: Seq<char>)
    ensures
        forall|i: int| 0 <= i < lines(s).len() ==> is_one_line(#[trigger] lines(s)[i]),
    decreases s.len(),
{
    if s.len() > 0 {
        s.index_of_first_ensures('\n');
        match s.index_of_first('\n') {
            Some(at) => {
                let rest = s.skip(at + 1);
                lemma_lines_are_one_line(rest);
                let first = without_cr(s.take(at));
                assert forall|j: int| 0 <= j < first.len() implies #[trigger] first[j] != '\n' by {
                    assert(first[j] == s[j]);
                }
                assert forall|i: int| 0 <= i < lines(s).len() implies is_one_line(
                    #[trigger] lines(s)[i],
                ) by {
                    if i > 0 {
                        assert(lines(s)[i] == lines(rest)[i - 1]);
                    }
                }
            },
            None => {
                assert forall|j: int| 0 <= j < s.len() implies #[trigger] s[j] != '\n' by {
                    if s[j] == '\n' {
                        assert(s.contains('\n'));
                    }
                }
            },
        }
    }
}

/// Lines that are joined and closed with a line feed come out of the text
/// as they went in, where none of them holds a line feed or ends with a
/// carriage return.
pub proof fn lemma_lines_of_joined_line(ls: Seq<Seq<char>>)
    requires
        ls.len() > 0,
        forall|i: int| 0 <= i < ls.len() ==> is_one_line(#[trigger] ls[i]),
        forall|i: int| 0 <= i < ls.len() ==> (#[trigger] ls[i]).len() == 0 || ls[i].last() != '\r',
    ensures
        lines(join_lines(ls) + seq!['\n']) == ls,
    decreases ls.len(),
{
    if ls.len() == 1 {
        lemma_lines_of_line(ls[0]);
        assert(seq![ls[0]] =~= ls);
    } else {
        let init = ls.drop_last();
        let head = join_lines(init) + seq!['\n'];
        lemma_lines_of_joined_line(init);
        lemma_lines_concat(head, ls.last() + seq!['\n']);
        lemma_lines_of_line(ls.last());
        assert(join_lines(ls) + seq!['\n'] =~= head + (ls.last() + seq!['\n']));
        assert(init + seq![ls.last()] =~= ls);
    }
}

/// Lines that are joined come out of the text as they went in, where none of
/// them holds a line feed, none but the last ends with a carriage return,
/// and the last is not empty.
pub proof fn lemma_lines_of_joined(ls: Seq<Seq<char>>)
    requires
        forall|i: int| 0 <= i < ls.len() ==> is_one_line(#[trigger] ls[i]),
        forall|i: int|
            0 <= i < ls.len() - 1 ==> (#[trigger] ls[i]).len() == 0 || ls[i].last() != '\r',
        ls.len() == 0 || ls.last().len() > 0,
    ensures
        lines(join_lines(ls)) == ls,
{
    if ls.len() == 1 {
        lemma_lines_of_last_line(ls[0]);
        assert(seq![ls[0]] =~= ls);
    } else if ls.len() > 1 {
        let init = ls.drop_last();
        let head = join_lines(init) + seq!['\n'];
        lemma_lines_of_joined_line(init);
        lemma_lines_concat(head, ls.last());
        lemma_lines_of_last_line(ls.last());
        assert(join_lines(ls) =~= head + ls.last());
        assert(init + seq![ls.last()] =~= ls);
    }
}

} // verus!
