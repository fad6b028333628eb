//! Splitting a text into its lines.

use vstd::prelude::*;

verus! {

/// The place of the first line feed in `text`, or the length of `text` if
/// it holds none.
pub open spec fn first_line_feed(text: Seq<char>) -> int
    decreases text.len(),
{
    if text.len() == 0 {
        0
    } else if text[0] == '\n' {
        0
    } else {
        1 + first_line_feed(text.skip(1))
    }
}

/// `line` without the one carriage return that may stand at its end.
pub open spec fn without_carriage_return(line: Seq<char>) -> Seq<char> {
    if line.len() > 0 && line.last() == '\r' {
        line.drop_last()
    } else {
        line
    }
}

/// The lines of `text`. A line ends with a line feed, or with a carriage
/// return and a line feed; neither belongs to the line. What follows the
/// last line feed is a line of its own unless it is empty, and then keeps a
/// carriage return at its end.
pub open spec fn lines_of(text: Seq<char>) -> Seq<Seq<char>>
    decreases text.len(),
{
    if text.len() == 0 {
        Seq::empty()
    } else {
        let end = first_line_feed(text);
        if 0 <= end < text.len() {
            seq![without_carriage_return(text.take(end))] + lines_of(text.skip(end + 1))
        } else {
            seq![text]
        }
    }
}

/// The first line feed lies within the text, and nothing before it is one.
pub proof fn lemma_first_line_feed(text: Seq<char>)
    ensures
        0 <= first_line_feed(text) <= text.len(),
        first_line_feed(text) < text.len() ==> text[first_line_feed(text)] == '\n',
        forall|k: int| 0 <= k < first_line_feed(text) ==> text[k] != '\n',
    decreases text.len(),
{
    if text.len() > 0 && text[0] != '\n' {
        let rest = text.skip(1);
        lemma_first_line_feed(rest);
        assert forall|k: int| 0 <= k < first_line_feed(text) implies text[k] != '\n' by {
            if k > 0 {
                assert(rest[k - 1] == text[k]);
            }
        }
    }
}

/// A place that holds a line feed, with none before it, is the first one.
pub proof fn lemma_first_line_feed_at(text: Seq<char>, at: int)
    requires
        0 <= at <= text.len(),
        at < text.len() ==> text[at] == '\n',
        forall|k: int| 0 <= k < at ==> text[k] != '\n',
    ensures
        first_line_feed(text) == at,
{
    lemma_first_line_feed(text);
    let first = first_line_feed(text);
    if first < at {
        assert(text[first] != '\n');
    }
}

/// The characters in a vector, as a string.
///
/// Believed, not proved: collecting characters into a `String` with
/// `String::from_iter` keeps them all, in their order.
#[verifier::external_body]
fn string_of(characters: &Vec<char>) -> (text: String)
    ensures
        text@ == characters@,
{
    String::from_iter(characters.iter())
}

/// Splits `text` into its lines.
pub fn split_lines(text: &str) -> (lines: Vec<String>)
    ensures
        crate::views::view_each(lines@) == lines_of(text@),
{
    let mut lines: Vec<String> = Vec::new();
    let mut current: Vec<char> = Vec::new();
    let ghost whole = text@;
    proof {
        assert(current@ + whole.skip(0) == whole);
        assert(crate::views::view_each(lines@) + lines_of(whole) == lines_of(whole));
    }
    for character in iter: text.chars()
        invariant
            iter.seq() == whole,
            forall|k: int| 0 <= k < current.len() ==> current[k] != '\n',
            lines_of(whole) == crate::views::view_each(lines@) + lines_of(
                current@ + whole.skip(iter.index()),
            ),
    {
        let ghost before = current@ + whole.skip(iter.index());
        if character == '\n' {
            let n: usize = current.len();
            let ghost raw = current@;
            if n > 0 && current[n - 1] == '\r' {
                current.pop();
            }
            let line = string_of(&current);
            proof {
                lemma_first_line_feed_at(before, n as int);
                assert(before.take(n as int) == raw);
                assert(current@ == without_carriage_return(raw));
                assert(before.skip(n as int + 1) == whole.skip(iter.index() + 1));
                crate::views::lemma_view_each_push(lines@, line);
            }
            lines.push(line);
            current = Vec::new();
            assert(current@ + whole.skip(iter.index() + 1) == whole.skip(iter.index() + 1));
        } else {
            current.push(character);
            assert(current@ + whole.skip(iter.index() + 1) == before);
        }
    }
    proof {
        assert(current@ + whole.skip(whole.len() as int) == current@);
        lemma_first_line_feed_at(current@, current.len() as int);
    }
    if current.len() > 0 {
        let line = string_of(&current);
        proof {
            crate::views::lemma_view_each_push(lines@, line);
        }
        lines.push(line);
    }
    lines
}

} // verus!
