//! Notes on a flight: where they come from and how comments leave them.
//!
//! Notes given on the command line are taken as they are. Without them the
//! user writes the notes in an editor, below a template of lines that start
//! with `#`; such lines are comments and are taken out of what the editor
//! left behind.

use crate::lines::{
    is_one_line, join_lines, lemma_lines_are_one_line, lemma_lines_of_joined, lines, without_cr,
};
use crate::text::{chars_of, find_char, string_of};
use vstd::prelude::*;

verus! {

/// Where the notes of a record come from.
#[derive(Debug, PartialEq, Eq)]
pub enum NotesSource {
    /// They were given with the command and are taken as they stand.
    Inline(String),
    /// They are to be written in an editor and stripped of comments.
    Editor,
}

/// Decides where the notes come from. Notes given with the command, empty
/// ones too, are the notes: only without them is the editor opened.
pub fn notes_source(inline: Option<String>) -> (source: NotesSource)
    ensures
        source == match inline {
            Some(text) => NotesSource::Inline(text),
            None => NotesSource::Editor,
        },
{
    match inline {
        Some(text) => NotesSource::Inline(text),
        None => NotesSource::Editor,
    }
}

/// A comment is a line whose first character is `#`.
pub open spec fn is_comment(line: Seq<char>) -> bool {
    line.len() > 0 && line[0] == '#'
}

/// The test that a line passes when it is no comment.
pub open spec fn no_comment() -> spec_fn(Seq<char>) -> bool {
    |line: Seq<char>| !is_comment(line)
}

/// The lines with a line feed behind each of them.
pub open spec fn closed_lines(ls: Seq<Seq<char>>) -> Seq<char>
    decreases ls.len(),
{
    if ls.len() == 0 {
        Seq::empty()
    } else {
        closed_lines(ls.drop_last()) + ls.last() + seq!['\n']
    }
}

/// A text without the line feed at its end, if it has one there.
pub open spec fn without_last_line_feed(s: Seq<char>) -> Seq<char> {
    if s.len() > 0 && s.last() == '\n' {
        s.drop_last()
    } else {
        s
    }
}

/// A text without its comments: the lines that are no comments, in their
/// order, a line feed behind each, and the line feed at the very end
/// dropped.
pub open spec fn strip_comments_spec(s: Seq<char>) -> Seq<char> {
    without_last_line_feed(closed_lines(lines(s).filter(no_comment())))
}

/// Lines that are closed with a line feed each are the joined lines and one
/// line feed more.
pub proof fn lemma_closed_is_joined(ls: Seq<Seq<char>>)
    requires
        ls.len() > 0,
    ensures
        closed_lines(ls) == join_lines(ls) + seq!['\n'],
    decreases ls.len(),
{
    if ls.len() == 1 {
        assert(closed_lines(ls.drop_last()) =~= Seq::<char>::empty());
        assert(closed_lines(ls) =~= ls[0] + seq!['\n']);
    } else {
        lemma_closed_is_joined(ls.drop_last());
        assert(closed_lines(ls) =~= join_lines(ls) + seq!['\n']);
    }
}

/// What is left of a text are the lines that are no comments with a line
/// feed between each two of them: the one line feed that is dropped is the
/// one that closed the last of these lines.
pub proof fn lemma_strip_joins_kept(s: Seq<char>)
    ensures
        strip_comments_spec(s) == join_lines(lines(s).filter(no_comment())),
{
    let kept = lines(s).filter(no_comment());
    if kept.len() > 0 {
        lemma_closed_is_joined(kept);
        assert((join_lines(kept) + seq!['\n']).drop_last() =~= join_lines(kept));
    }
}

/// One more line at the end of the lines read so far: what it adds to the
/// lines that are kept.
proof fn lemma_keep_one_more(done: Seq<Seq<char>>, line: Seq<char>)
    ensures
        done.push(line).filter(no_comment()) == if is_comment(line) {
            done.filter(no_comment())
        } else {
            done.filter(no_comment()).push(line)
        },
{
    reveal(Seq::filter);
    assert(done.push(line).drop_last() =~= done);
}

/// Takes the comment lines out of `notes`.
pub fn strip_comments(notes: String) -> (stripped: String)
    ensures
        stripped@ == strip_comments_spec(notes@),
{
    let v = chars_of(notes.as_str());
    let n = v.len();
    let mut out: Vec<char> = Vec::new();
    let mut pos: usize = 0;
    let ghost mut done: Seq<Seq<char>> = Seq::empty();
    assert(v@.skip(0) =~= v@);
    assert(done + lines(v@) =~= lines(v@));
    assert(done.filter(no_comment()) =~= Seq::<Seq<char>>::empty()) by {
        reveal(Seq::filter);
    }
    while pos < n
        invariant
            pos <= n == v.len(),
            lines(v@) == done + lines(v@.skip(pos as int)),
            out@ == closed_lines(done.filter(no_comment())),
        decreases n - pos,
    {
        let ghost rest = v@.skip(pos as int);
        assert(rest =~= v@.subrange(pos as int, n as int));
        let found = find_char(&v, pos, n, '\n');
        let end: usize = match found {
            Some(at) => at,
            None => n,
        };
        let next: usize = if end < n {
            end + 1
        } else {
            n
        };
        let stop: usize = if end < n && pos < end && v[end - 1] == '\r' {
            end - 1
        } else {
            end
        };
        let ghost line = v@.subrange(pos as int, stop as int);
        proof {
            if found is Some {
                assert(rest.take(end - pos) =~= v@.subrange(pos as int, end as int));
                assert(without_cr(rest.take(end - pos)) =~= line);
                assert(rest.skip(end - pos + 1) =~= v@.skip(next as int));
            } else {
                assert(line =~= rest);
                assert(v@.skip(next as int) =~= Seq::<char>::empty());
            }
            assert(lines(rest) =~= seq![line] + lines(v@.skip(next as int)));
            assert(done + lines(rest) =~= done.push(line) + lines(v@.skip(next as int)));
            lemma_keep_one_more(done, line);
        }
        if !(pos < stop && v[pos] == '#') {
            let ghost before = out@;
            let mut i: usize = pos;
            while i < stop
                invariant
                    pos <= i <= stop <= v.len(),
                    out@ == before + v@.subrange(pos as int, i as int),
                decreases stop - i,
            {
                out.push(v[i]);
                i += 1;
                assert(v@.subrange(pos as int, i as int) =~= v@.subrange(pos as int, i - 1).push(
                    v@[i - 1],
                ));
            }
            out.push('\n');
            proof {
                let kept = done.filter(no_comment());
                assert(kept.push(line).drop_last() =~= kept);
                assert(out@ =~= closed_lines(kept.push(line)));
            }
        }
        proof {
            done = done.push(line);
        }
        pos = next;
    }
    proof {
        assert(lines(v@.skip(n as int)) =~= Seq::<Seq<char>>::empty());
        assert(done =~= lines(v@));
    }
    let total = out.len();
    let keep: usize = if total > 0 && out[total - 1] == '\n' {
        total - 1
    } else {
        total
    };
    assert(out@.subrange(0, keep as int) =~= strip_comments_spec(v@));
    string_of(&out, 0, keep)
}

/// What holds of every line of a text holds of every line that is kept.
proof fn lemma_kept_are_one_line(ls: Seq<Seq<char>>)
    requires
        forall|i: int| 0 <= i < ls.len() ==> is_one_line(#[trigger] ls[i]),
    ensures
        forall|i: int|
            0 <= i < ls.filter(no_comment()).len() ==> is_one_line(
                #[trigger] ls.filter(no_comment())[i],
            ) && !is_comment(ls.filter(no_comment())[i]),
    decreases ls.len(),
{
    reveal(Seq::filter);
    if ls.len() > 0 {
        let init = ls.drop_last();
        assert forall|i: int| 0 <= i < init.len() implies is_one_line(#[trigger] init[i]) by {
            assert(init[i] == ls[i]);
        }
        lemma_kept_are_one_line(init);
        let kept = ls.filter(no_comment());
        let before = init.filter(no_comment());
        assert forall|i: int| 0 <= i < kept.len() implies is_one_line(#[trigger] kept[i])
            && !is_comment(kept[i]) by {
            if i < before.len() {
                assert(kept[i] == before[i]);
            } else {
                assert(kept[i] == ls.last());
                assert(ls.last() == ls[ls.len() - 1]);
            }
        }
    }
}

/// Stripping takes out exactly the comment lines: the lines of the stripped
/// text are the lines of the text that are no comments, each as it was and
/// in the same order, and the stripped text does not end with a line feed.
///
/// This holds where the last line kept is not empty and no line kept but the
/// last ends with a carriage return: joined with the others, an empty last
/// line is no line of the result, and such a carriage return is read as part
/// of the line ending.
pub proof fn lemma_strip_keeps_lines(s: Seq<char>)
    requires
        ({
            let kept = lines(s).filter(no_comment());
            &&& kept.len() == 0 || kept.last().len() > 0
            &&& forall|i: int|
                0 <= i < kept.len() - 1 ==> (#[trigger] kept[i]).len() == 0 || kept[i].last()
                    != '\r'
        }),
    ensures
        lines(strip_comments_spec(s)) == lines(s).filter(no_comment()),
        forall|i: int|
            0 <= i < lines(strip_comments_spec(s)).len() ==> !is_comment(
                #[trigger] lines(strip_comments_spec(s))[i],
            ),
        strip_comments_spec(s).len() == 0 || strip_comments_spec(s).last() != '\n',
{
    let kept = lines(s).filter(no_comment());
    lemma_strip_joins_kept(s);
    lemma_lines_are_one_line(s);
    lemma_kept_are_one_line(lines(s));
    lemma_lines_of_joined(kept);
    if kept.len() > 0 {
        let last = kept.last();
        assert(is_one_line(last));
        assert(last[last.len() - 1] != '\n');
        assert(join_lines(kept).last() == last.last());
    }
}

} // verus!
