//! The bordered box in which quoted passages are set.
use vstd::prelude::*;
use crate::backend::{fill, wrapped};
use crate::text::{lines, pad_right, padded, repeat, repeated, split_lines, views};

verus! {

/// The number of columns inside the box of a quoted passage.
pub const QUOTE_WIDTH: usize = 60;

/// The top and bottom line of a box with `width` columns inside: `width + 2` dashes between
/// two plus signs.
pub open spec fn border(width: nat) -> Seq<char> {
    "+"@ + repeated("-"@, width + 2) + "+"@
}

/// One line of content inside the box, with its line feed: the line filled with spaces up
/// to `width` characters, between `"| "` and `" |"`. A longer line is kept whole.
pub open spec fn row(line: Seq<char>, width: nat) -> Seq<char> {
    "| "@ + padded(line, width) + " |\n"@
}

/// The rows of the first `n` lines, one after another.
pub open spec fn rows(lines: Seq<Seq<char>>, n: nat, width: nat) -> Seq<char>
    decreases n,
{
    if n == 0 || n > lines.len() {
        Seq::empty()
    } else {
        rows(lines, (n - 1) as nat, width) + row(lines[n - 1], width)
    }
}

/// The box around `lines`: the border, a row for each line, and the border again.
pub open spec fn boxed(lines: Seq<Seq<char>>, width: nat) -> Seq<char> {
    border(width) + "\n"@ + rows(lines, lines.len(), width) + border(width)
}

/// The box around a quoted passage: `text` wrapped to `width` columns, line by line.
pub open spec fn quote_box(text: Seq<char>, width: nat) -> Seq<char> {
    boxed(split_lines(wrapped(text, width)), width)
}

/// The top and bottom line of a box.
fn border_line(width: usize) -> (out: String)
    ensures
        out@ == border(width as nat),
{
    let mut out = "+".to_owned();
    let dashes = repeat("-", width);
    out.append(dashes.as_str());
    out.append("-");
    out.append("-");
    out.append("+");
    proof {
        let unit = "-"@;
        assert(repeated(unit, (width + 2) as nat) == repeated(unit, (width + 1) as nat) + unit);
        assert(repeated(unit, (width + 1) as nat) == repeated(unit, width as nat) + unit);
        assert(out@ =~= border(width as nat));
    }
    out
}

/// Sets text that is already broken into lines in a box with `width` columns inside.
pub fn render_box(wrapped_text: &str, width: usize) -> (out: String)
    ensures
        out@ == boxed(split_lines(wrapped_text@), width as nat),
{
    let all = lines(wrapped_text);
    let edge = border_line(width);
    let mut out = edge.clone();
    out.append("\n");
    let n: usize = all.len();
    let mut i: usize = 0;
    while i < n
        invariant
            i <= n,
            n == all.len(),
            views(all@) == split_lines(wrapped_text@),
            edge@ == border(width as nat),
            out@ == border(width as nat) + "\n"@ + rows(views(all@), i as nat, width as nat),
        decreases n - i,
    {
        let ghost before = out@;
        let content = pad_right(all[i].as_str(), width);
        out.append("| ");
        out.append(content.as_str());
        out.append(" |\n");
        proof {
            assert(views(all@)[i as int] == all@[i as int]@);
            assert(out@ =~= before + row(all@[i as int]@, width as nat));
            assert(before + row(all@[i as int]@, width as nat) =~= border(width as nat) + "\n"@
                + (rows(views(all@), i as nat, width as nat) + row(all@[i as int]@, width as nat)));
        }
        i += 1;
    }
    out.append(edge.as_str());
    out
}

/// Wraps a quoted passage to sixty columns and sets it in a box.
pub fn format_blockquote(text: &str) -> (out: String)
    ensures
        out@ == quote_box(text@, QUOTE_WIDTH as nat),
{
    let wrapped_text = fill(text, QUOTE_WIDTH);
    render_box(wrapped_text.as_str(), QUOTE_WIDTH)
}

} // verus!
