//! A bitmap as text, for the eye: two marks for each pixel, one line for each
//! row, under a heading that names the character.

use vstd::prelude::*;
use vstd::string::StringExecFns;
use crate::bitmap::Bitmap;

verus! {

/// The mark of an ink pixel, a full block. Each pixel is marked twice, so
/// that it comes out about square.
pub const INK_MARK: char = '\u{2588}';

/// The mark of a pixel without ink.
pub const BLANK_MARK: char = ' ';

/// The mark of the pixel in column `x` of row `y`.
pub open spec fn mark_at(bitmap: Bitmap, x: int, y: int) -> char {
    if bitmap.pixel(x, y) {
        INK_MARK
    } else {
        BLANK_MARK
    }
}

/// The marks of the first `columns` pixels of row `y`, two for each pixel,
/// from the left.
pub open spec fn row_marks(bitmap: Bitmap, y: int, columns: int) -> Seq<char> {
    Seq::new((2 * columns) as nat, |k: int| mark_at(bitmap, k / 2, y))
}

/// The line of row `y`: 64 marks and a line feed.
pub open spec fn row_line(bitmap: Bitmap, y: int) -> Seq<char> {
    row_marks(bitmap, y, 32).push('\n')
}

/// The lines of the first `rows` rows, from the top.
pub open spec fn row_lines(bitmap: Bitmap, rows: int) -> Seq<char>
    decreases rows,
{
    if rows <= 0 {
        Seq::empty()
    } else {
        row_lines(bitmap, rows - 1) + row_line(bitmap, rows - 1)
    }
}

/// The heading over the lines of a character's bitmap.
pub open spec fn heading(character: char) -> Seq<char> {
    "Character '"@ + seq![character] + "' bitmap:\n"@
}

/// The whole picture: the heading and the 32 lines.
pub open spec fn picture_text(character: char, bitmap: Bitmap) -> Seq<char> {
    heading(character) + row_lines(bitmap, 32)
}

/// Where the first of the two marks of the pixel in column `x` of row `y`
/// stands among the lines.
pub open spec fn mark_position(x: int, y: int) -> int {
    65 * y + 2 * x
}

/// The lines by position: each row takes 65 characters, the two marks of
/// the pixel in column `x` stand side by side at `2 * x` within the row,
/// and a line feed ends the row.
pub proof fn lemma_row_lines_by_position(bitmap: Bitmap, rows: int)
    requires
        0 <= rows,
    ensures
        row_lines(bitmap, rows).len() == 65 * rows,
        forall|x: int, y: int|
            0 <= y < rows && 0 <= x < 32 ==> {
                &&& row_lines(bitmap, rows)[#[trigger] mark_position(x, y)] == mark_at(bitmap, x, y)
                &&& row_lines(bitmap, rows)[mark_position(x, y) + 1] == mark_at(bitmap, x, y)
            },
        forall|y: int|
            0 <= y < rows ==> row_lines(bitmap, rows)[#[trigger] mark_position(32, y)] == '\n',
    decreases rows,
{
    if rows > 0 {
        lemma_row_lines_by_position(bitmap, rows - 1);
        let above = row_lines(bitmap, rows - 1);
        let line = row_line(bitmap, rows - 1);
        let all = row_lines(bitmap, rows);
        assert(all == above + line);
        assert(line.len() == 65);
        assert forall|x: int, y: int| 0 <= y < rows && 0 <= x < 32 implies {
            &&& all[#[trigger] mark_position(x, y)] == mark_at(bitmap, x, y)
            &&& all[mark_position(x, y) + 1] == mark_at(bitmap, x, y)
        } by {
            let at = mark_position(x, y);
            if y < rows - 1 {
                assert(all[at] == above[at]);
                assert(all[at + 1] == above[at + 1]);
            } else {
                assert(all[at] == line[2 * x]);
                assert(all[at + 1] == line[2 * x + 1]);
                assert((2 * x) / 2 == x);
                assert((2 * x + 1) / 2 == x);
            }
        }
        assert forall|y: int| 0 <= y < rows implies all[#[trigger] mark_position(32, y)]
            == '\n' by {
            let at = mark_position(32, y);
            if y < rows - 1 {
                assert(all[at] == above[at]);
            } else {
                assert(all[at] == line[64]);
            }
        }
    }
}

/// `String::push` of std: appends `mark` to `text` and changes nothing else
/// of it.
#[verifier::external_body]
fn push_mark(text: &mut String, mark: char)
    ensures
        final(text)@ == old(text)@.push(mark),
{
    text.push(mark)
}

/// Writes `bitmap` out as text under a heading that names `character`.
pub fn picture(character: char, bitmap: &Bitmap) -> (text: String)
    ensures
        text@ == picture_text(character, *bitmap),
{
    let mut text = String::from_str("Character '");
    push_mark(&mut text, character);
    text.append("' bitmap:\n");
    let mut y: usize = 0;
    while y < 32
        invariant
            y <= 32,
            text@ == heading(character) + row_lines(*bitmap, y as int),
        decreases 32 - y,
    {
        let ghost above = text@;
        let mut x: usize = 0;
        assert(row_marks(*bitmap, y as int, 0) =~= Seq::<char>::empty());
        while x < 32
            invariant
                x <= 32,
                y < 32,
                text@ == above + row_marks(*bitmap, y as int, x as int),
            decreases 32 - x,
        {
            let mark = if bitmap.is_set(x, y) {
                INK_MARK
            } else {
                BLANK_MARK
            };
            push_mark(&mut text, mark);
            push_mark(&mut text, mark);
            assert(row_marks(*bitmap, y as int, x + 1) =~= row_marks(
                *bitmap,
                y as int,
                x as int,
            ).push(mark).push(mark));
            x = x + 1;
        }
        push_mark(&mut text, '\n');
        assert(text@ =~= heading(character) + row_lines(*bitmap, y + 1));
        y = y + 1;
    }
    text
}

} // verus!
