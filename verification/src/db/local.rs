//! The text of the local queue file: one URL per line.
use vstd::prelude::*;
use vstd::string::*;
use crate::text::{join, join_with, lacks, lemma_split_join, split_on, split_on_char, views};

verus! {

/// The text that saves `lines`: the lines separated by newlines.
pub fn lines_to_text(lines: &Vec<String>) -> (text: String)
    ensures
        text@ == join_with(views(lines@), seq!['\n']),
{
    proof {
        reveal_strlit("\n");
        assert("\n"@ =~= seq!['\n']);
    }
    join(lines, "\n")
}

/// The lines of a saved text: none for the empty text (an empty queue was
/// saved), otherwise the pieces between newlines.
pub open spec fn saved_lines(text: Seq<char>) -> Seq<Seq<char>> {
    if text.len() == 0 {
        Seq::empty()
    } else {
        split_on_char(text, '\n')
    }
}

/// The lines of a saved text: none for the empty text, otherwise the pieces
/// between newlines.
pub fn text_to_lines(text: &str) -> (lines: Vec<String>)
    ensures
        views(lines@) == saved_lines(text@),
{
    if text.unicode_len() == 0 {
        let lines: Vec<String> = Vec::new();
        assert(views(lines@) =~= Seq::<Seq<char>>::empty());
        return lines;
    }
    split_on(text, '\n')
}

/// Saving a list of lines, none holding a newline, and reading the text back
/// gives the same lines: the queue survives a restart, an empty one too. The
/// one list it does not hold for is a single empty line, which is saved as
/// the empty text.
pub proof fn lemma_lines_roundtrip(lines: Seq<Seq<char>>)
    requires
        !(lines.len() == 1 && lines[0].len() == 0),
        forall|i: int| 0 <= i < lines.len() ==> lacks(#[trigger] lines[i], '\n'),
    ensures
        saved_lines(join_with(lines, seq!['\n'])) == lines,
{
    if lines.len() == 0 {
        assert(saved_lines(join_with(lines, seq!['\n'])) =~= lines);
    } else {
        lemma_split_join(lines, '\n');
        if lines.len() >= 2 {
            assert(join_with(lines, seq!['\n']).len() >= 1);
        }
    }
}

} // verus!
