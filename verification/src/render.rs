//! Plain-text rendering of the todo list: one line per item, and a
//! distinct message for the empty list. Terminal coloring is left to the
//! binary around the library.

use vstd::prelude::*;
use crate::item::Todo;
use crate::text::{dec_digits, push_char, push_decimal};

verus! {

/// The checkbox of an item: ballot box with check for a complete item,
/// empty ballot box otherwise.
pub open spec fn checkbox(complete: bool) -> char {
    if complete {
        '\u{2611}'
    } else {
        '\u{2610}'
    }
}

/// The rendered line of the item `t` at 1-based position `pos`: its
/// checkbox, the position, and the label.
pub open spec fn render_line_spec(pos: nat, t: Todo) -> Seq<char> {
    seq![checkbox(t.complete), ' '] + dec_digits(pos) + seq![':', ' '] + t.label@
}

/// The message `list` prints instead of an empty table.
pub open spec fn empty_list_message() -> Seq<char> {
    "Nothing to do!\n\nRun `todo help` for help."@
}

/// Render the line of one item.
pub fn render_line(pos: u64, t: &Todo) -> (s: String)
    ensures
        s@ == render_line_spec(pos as nat, *t),
{
    let mut out = String::new();
    if t.complete {
        push_char(&mut out, '\u{2611}');
    } else {
        push_char(&mut out, '\u{2610}');
    }
    push_char(&mut out, ' ');
    push_decimal(&mut out, pos);
    push_char(&mut out, ':');
    push_char(&mut out, ' ');
    out.append(t.label.as_str());
    proof {
        assert(out@ =~= render_line_spec(pos as nat, *t));
    }
    out
}

/// Render the whole list: the empty-list message alone when there is
/// nothing to do, and otherwise one line per item, positions counted
/// from one.
pub fn render_list(data: &Vec<Todo>) -> (lines: Vec<String>)
    ensures
        data@.len() == 0 ==> lines@.len() == 1 && lines@[0]@ == empty_list_message(),
        data@.len() > 0 ==> lines@.len() == data@.len() && (forall|i: int|
            0 <= i < data@.len() ==> lines@[i]@ == render_line_spec((i + 1) as nat, data@[i])),
{
    let mut lines: Vec<String> = Vec::new();
    if data.len() == 0 {
        lines.push(String::from_str("Nothing to do!\n\nRun `todo help` for help."));
        return lines;
    }
    let mut i: usize = 0;
    while i < data.len()
        invariant
            i <= data@.len(),
            lines@.len() == i,
            forall|k: int| 0 <= k < i ==> lines@[k]@ == render_line_spec((k + 1) as nat, data@[k]),
        decreases data@.len() - i,
    {
        let line = render_line((i as u64) + 1, &data[i]);
        lines.push(line);
        i += 1;
    }
    lines
}

} // verus!
