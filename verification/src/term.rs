//! Status lines of the interactive commands.

use vstd::prelude::*;

use crate::text::{
    chars_of, copy_text, lemma_rendered_next, lemma_rendered_none, line_ranges, lines, rendered,
    text_of,
};

verus! {

/// A step that begins.
pub fn say(msg: &str) -> (line: String)
    ensures
        line@ == "\x1b[1;36m==>\x1b[0m "@ + msg@,
{
    let mut line = copy_text("\x1b[1;36m==>\x1b[0m ");
    line.push_str(msg);
    line
}

/// A step that went well.
pub fn ok(msg: &str) -> (line: String)
    ensures
        line@ == "\x1b[1;32m  ✓ \x1b[0m "@ + msg@,
{
    let mut line = copy_text("\x1b[1;32m  ✓ \x1b[0m ");
    line.push_str(msg);
    line
}

/// Something to look at.
pub fn warn(msg: &str) -> (line: String)
    ensures
        line@ == "\x1b[1;33m  ! \x1b[0m "@ + msg@,
{
    let mut line = copy_text("\x1b[1;33m  ! \x1b[0m ");
    line.push_str(msg);
    line
}

/// A line of a hint.
pub open spec fn hint_line() -> spec_fn(Seq<char>) -> Seq<char> {
    |line: Seq<char>| "      "@ + line + "\n"@
}

/// A hint below a status line, each of its lines indented.
pub fn print_hint(hint: &str) -> (text: String)
    ensures
        text@ == rendered(lines(hint@), hint_line()),
{
    let chars = chars_of(hint);
    let ranges = line_ranges(&chars);
    let mut text = String::new();
    let mut i: usize = 0;
    proof {
        lemma_rendered_none(lines(hint@), hint_line());
    }
    while i < ranges.len()
        invariant
            i <= ranges@.len(),
            chars@ == hint@,
            ranges@.len() == lines(hint@).len(),
            forall|k: int|
                0 <= k < ranges@.len() ==> (#[trigger] ranges@[k]).0 <= ranges@[k].1 <= chars@.len()
                    && chars@.subrange(ranges@[k].0 as int, ranges@[k].1 as int) == lines(hint@)[k],
            text@ == rendered(lines(hint@).take(i as int), hint_line()),
        decreases ranges@.len() - i,
    {
        let (from, to): (usize, usize) = ranges[i];
        let mut line = copy_text("      ");
        line.push_str(text_of(&chars, from, to).as_str());
        line.push_str("\n");
        text.push_str(line.as_str());
        proof {
            lemma_rendered_next(lines(hint@), hint_line(), i as int);
        }
        i = i + 1;
    }
    assert(lines(hint@).take(i as int) =~= lines(hint@));
    text
}

/// A hint is shown line by line, each with six spaces in front.
pub proof fn law_a_hint_is_shown_line_by_line(all: Seq<Seq<char>>)
    ensures
        rendered(all, hint_line()) == Seq::new(
            all.len(),
            |i: int| "      "@ + all[i] + "\n"@,
        ).flatten(),
{
    crate::text::lemma_rendered_is_a_row(all, hint_line());
    assert(Seq::new(all.len(), |i: int| hint_line()(all[i])) =~= Seq::new(
        all.len(),
        |i: int| "      "@ + all[i] + "\n"@,
    ));
}

} // verus!
