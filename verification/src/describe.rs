//! The description of a picture: the expressions of its three colour
//! channels, one on each line.

use vstd::prelude::*;
use vstd::string::*;
use crate::expr::{is_expression_text, lemma_rendered_is_expression_text, Node};

verus! {

/// The lines of a text: the runs between its line breaks.
pub open spec fn lines(text: Seq<char>) -> Seq<Seq<char>>
    decreases text.len(),
{
    if text.len() == 0 {
        seq![Seq::empty()]
    } else if text.last() == '\n' {
        lines(text.drop_last()).push(Seq::empty())
    } else {
        let front = lines(text.drop_last());
        front.drop_last().push(front.last().push(text.last()))
    }
}

/// A line of the description: the channel's letter, a colon, a blank, and
/// the channel's expression.
pub open spec fn channel_line(letter: char, tree: Node) -> Seq<char> {
    seq![letter, ':', ' '] + tree.rendered()
}

/// The description of the channels red, green and blue.
pub open spec fn description(r: Node, g: Node, b: Node) -> Seq<char> {
    channel_line('R', r) + seq!['\n'] + channel_line('G', g) + seq!['\n'] + channel_line('B', b)
}

/// A text has at least one line.
pub proof fn lemma_lines_nonempty(text: Seq<char>)
    ensures
        lines(text).len() >= 1,
    decreases text.len(),
{
    if text.len() > 0 {
        lemma_lines_nonempty(text.drop_last());
    }
}

/// Text without a line break, put behind a text, lengthens its last line.
pub proof fn lemma_lines_extend(text: Seq<char>, more: Seq<char>)
    requires
        forall|i: int| 0 <= i < more.len() ==> more[i] != '\n',
    ensures
        lines(text + more) == lines(text).drop_last().push(lines(text).last() + more),
    decreases more.len(),
{
    lemma_lines_nonempty(text);
    let before = lines(text);
    if more.len() == 0 {
        assert(text + more =~= text);
        assert(before.last() + more =~= before.last());
        assert(before.drop_last().push(before.last()) =~= before);
    } else {
        let whole = text + more;
        assert(whole.drop_last() =~= text + more.drop_last());
        assert(whole.last() == more.last());
        lemma_lines_extend(text, more.drop_last());
        let front = lines(whole.drop_last());
        assert(front.drop_last() =~= before.drop_last());
        assert(front.last().push(more.last()) =~= before.last() + more);
    }
}

/// A line break behind a text opens a new, empty line.
pub proof fn lemma_lines_break(text: Seq<char>)
    ensures
        lines(text + seq!['\n']) == lines(text).push(Seq::empty()),
{
    let whole = text + seq!['\n'];
    assert(whole.drop_last() =~= text);
}

/// The description of three trees whose constants are spelled by numerals
/// has exactly three lines: the one of red, which begins with `R: `, the one
/// of green, which begins with `G: `, and the one of blue, which begins with
/// `B: `; each goes on with the channel's expression.
pub proof fn lemma_description_lines(r: Node, g: Node, b: Node)
    requires
        r.wf(),
        g.wf(),
        b.wf(),
    ensures
        lines(description(r, g, b)) == seq![
            channel_line('R', r),
            channel_line('G', g),
            channel_line('B', b),
        ],
{
    lemma_rendered_is_expression_text(r);
    lemma_rendered_is_expression_text(g);
    lemma_rendered_is_expression_text(b);
    lemma_lines_of_three(r.rendered(), g.rendered(), b.rendered());
}

/// The lines of three expression texts, each behind its channel's letter
/// and separated by line breaks.
proof fn lemma_lines_of_three(r: Seq<char>, g: Seq<char>, b: Seq<char>)
    requires
        is_expression_text(r),
        is_expression_text(g),
        is_expression_text(b),
    ensures
        lines(
            seq!['R', ':', ' '] + r + seq!['\n'] + (seq!['G', ':', ' '] + g) + seq!['\n'] + (seq![
                'B',
                ':',
                ' ',
            ] + b),
        ) == seq![seq!['R', ':', ' '] + r, seq!['G', ':', ' '] + g, seq!['B', ':', ' '] + b],
{
    let empty = Seq::<char>::empty();
    let red = seq!['R', ':', ' '] + r;
    let green = seq!['G', ':', ' '] + g;
    let blue = seq!['B', ':', ' '] + b;
    assert(lines(empty) == seq![empty]);
    lemma_lines_extend(empty, red);
    assert(empty + red =~= red);
    assert(seq![empty].drop_last().push(empty + red) =~= seq![red]);
    lemma_lines_break(red);
    lemma_lines_extend(red + seq!['\n'], green);
    assert(seq![red].push(empty).drop_last().push(empty + green) =~= seq![red, green]);
    lemma_lines_break(red + seq!['\n'] + green);
    lemma_lines_extend(red + seq!['\n'] + green + seq!['\n'], blue);
    assert(seq![red, green].push(empty).drop_last().push(empty + blue) =~= seq![red, green, blue]);
}

/// Writes the description of the channels red, green and blue.
pub fn describe(r: &Node, g: &Node, b: &Node) -> (text: String)
    ensures
        text@ == description(*r, *g, *b),
        lines(text@) == seq![channel_line('R', *r), channel_line('G', *g), channel_line('B', *b)],
{
    proof {
        reveal_strlit("R: ");
        reveal_strlit("\nG: ");
        reveal_strlit("\nB: ");
    }
    let red: String = r.to_string();
    let green: String = g.to_string();
    let blue: String = b.to_string();
    let mut text: String = String::from_str("R: ");
    text.append(red.as_str());
    text.append("\nG: ");
    text.append(green.as_str());
    text.append("\nB: ");
    text.append(blue.as_str());
    proof {
        assert(text@ =~= description(*r, *g, *b));
        lemma_lines_of_three(r.rendered(), g.rendered(), b.rendered());
    }
    text
}

} // verus!
