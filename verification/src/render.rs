//! Building the frame of a vector-image document.

use vstd::prelude::*;
use vstd::string::*;
use crate::grid::{Cell, Grid};
use crate::torus::{lemma_slot_in_range, lemma_slot_position};

verus! {

/// The character of a decimal digit.
pub open spec fn digit_char(d: int) -> char {
    if d == 0 {
        '0'
    } else if d == 1 {
        '1'
    } else if d == 2 {
        '2'
    } else if d == 3 {
        '3'
    } else if d == 4 {
        '4'
    } else if d == 5 {
        '5'
    } else if d == 6 {
        '6'
    } else if d == 7 {
        '7'
    } else if d == 8 {
        '8'
    } else {
        '9'
    }
}

/// The decimal numeral of `n`, without leading zeros.
pub open spec fn decimal(n: nat) -> Seq<char>
    decreases n,
{
    if n < 10 {
        seq![digit_char(n as int)]
    } else {
        decimal(n / 10).push(digit_char((n % 10) as int))
    }
}

/// The text of a document of the given size around `content`: the XML
/// declaration, the opening `svg` tag with size and view box, a dark
/// background rectangle, the content on a line of its own, the closing tag.
pub open spec fn document_text(width: nat, height: nat, content: Seq<char>) -> Seq<char> {
    "<?xml version=\"1.0\" encoding=\"UTF-8\"?>\n<svg xmlns=\"http://www.w3.org/2000/svg\" width=\""@
        + decimal(width) + "\" height=\""@ + decimal(height) + "\" viewBox=\"0 0 "@ + decimal(width)
        + " "@ + decimal(height) + "\">\n<rect width=\""@ + decimal(width) + "\" height=\""@
        + decimal(height) + "\" fill=\"#0a0a1a\"/>\n"@ + content + "\n</svg>"@
}

fn digit_str(d: u32) -> (s: &'static str)
    requires
        d < 10,
    ensures
        s@ == seq![digit_char(d as int)],
{
    proof {
        reveal_strlit("0");
        reveal_strlit("1");
        reveal_strlit("2");
        reveal_strlit("3");
        reveal_strlit("4");
        reveal_strlit("5");
        reveal_strlit("6");
        reveal_strlit("7");
        reveal_strlit("8");
        reveal_strlit("9");
    }
    let s = if d == 0 {
        "0"
    } else if d == 1 {
        "1"
    } else if d == 2 {
        "2"
    } else if d == 3 {
        "3"
    } else if d == 4 {
        "4"
    } else if d == 5 {
        "5"
    } else if d == 6 {
        "6"
    } else if d == 7 {
        "7"
    } else if d == 8 {
        "8"
    } else {
        "9"
    };
    assert(s@ =~= seq![digit_char(d as int)]);
    s
}

fn push_decimal(out: &mut String, n: u128)
    ensures
        final(out)@ == old(out)@ + decimal(n as nat),
    decreases n,
{
    if n >= 10 {
        push_decimal(out, n / 10);
    }
    out.append(digit_str((n % 10) as u32));
    assert(out@ =~= old(out)@ + decimal(n as nat));
}

/// Wraps `content` in a document of the given size.
pub fn svg_document(width: u32, height: u32, content: &str) -> (doc: String)
    ensures
        doc@ == document_text(width as nat, height as nat, content@),
{
    let mut doc = String::from_str(
        "<?xml version=\"1.0\" encoding=\"UTF-8\"?>\n<svg xmlns=\"http://www.w3.org/2000/svg\" width=\"",
    );
    push_decimal(&mut doc, width as u128);
    doc.append("\" height=\"");
    push_decimal(&mut doc, height as u128);
    doc.append("\" viewBox=\"0 0 ");
    push_decimal(&mut doc, width as u128);
    doc.append(" ");
    push_decimal(&mut doc, height as u128);
    doc.append("\">\n<rect width=\"");
    push_decimal(&mut doc, width as u128);
    doc.append("\" height=\"");
    push_decimal(&mut doc, height as u128);
    doc.append("\" fill=\"#0a0a1a\"/>\n");
    doc.append(content);
    doc.append("\n</svg>");
    doc
}

/// Side, in image units, of the square that shows one cell of a grid.
pub const CELL_SIDE: usize = 4;

/// Green component of the colour of a cell with the given inhibitor level:
/// six tenths of the level, rounded down.
pub open spec fn green_of(level: u8) -> nat {
    (level as nat) * 3 / 5
}

/// Blue component of the colour of a cell with the given inhibitor level.
pub open spec fn blue_of(level: u8) -> nat {
    50 + (level as nat) / 2
}

/// The opening tag of a heat map of a `width` by `height` grid.
pub open spec fn heatmap_header(width: nat, height: nat) -> Seq<char> {
    "<svg xmlns=\"http://www.w3.org/2000/svg\" width=\""@ + decimal(4 * width) + "\" height=\""@
        + decimal(4 * height) + "\" viewBox=\"0 0 "@ + decimal(4 * width) + " "@ + decimal(
        4 * height,
    ) + "\">\n"@
}

/// The square of the cell at `(x, y)`: its red component is the inhibitor
/// level itself.
pub open spec fn rect_text(x: nat, y: nat, level: u8) -> Seq<char> {
    "<rect x=\""@ + decimal(4 * x) + "\" y=\""@ + decimal(4 * y)
        + "\" width=\"4\" height=\"4\" fill=\"rgb("@ + decimal(level as nat) + ","@ + decimal(
        green_of(level),
    ) + ","@ + decimal(blue_of(level)) + ")\"/>\n"@
}

/// The squares of the first `count` cells of a row-major buffer.
pub open spec fn rects_text(width: nat, cells: Seq<Cell<u8>>, count: nat) -> Seq<char>
    decreases count,
{
    if count == 0 {
        Seq::empty()
    } else {
        let i = (count - 1) as nat;
        rects_text(width, cells, i) + rect_text(i % width, i / width, cells[i as int].b)
    }
}

/// The whole heat map: header, one square for each cell row by row, and the
/// closing tag.
pub open spec fn heatmap_text(width: nat, height: nat, cells: Seq<Cell<u8>>) -> Seq<char> {
    heatmap_header(width, height) + rects_text(width, cells, width * height) + "</svg>"@
}

fn push_rect(out: &mut String, x: usize, y: usize, level: u8)
    ensures
        final(out)@ == old(out)@ + rect_text(x as nat, y as nat, level),
{
    let green: u8 = ((level as u16) * 3 / 5) as u8;
    let blue: u8 = 50 + level / 2;
    out.append("<rect x=\"");
    push_decimal(out, 4 * (x as u128));
    out.append("\" y=\"");
    push_decimal(out, 4 * (y as u128));
    out.append("\" width=\"4\" height=\"4\" fill=\"rgb(");
    push_decimal(out, level as u128);
    out.append(",");
    push_decimal(out, green as u128);
    out.append(",");
    push_decimal(out, blue as u128);
    out.append(")\"/>\n");
    assert(out@ =~= old(out)@ + rect_text(x as nat, y as nat, level));
}

/// Draws a grid of inhibitor levels as a heat map, one square for each cell.
pub fn grid_to_svg(grid: &Grid<u8>) -> (doc: String)
    requires
        grid.wf(),
    ensures
        doc@ == heatmap_text(grid.width as nat, grid.height as nat, grid.cells@),
{
    let width: usize = grid.width;
    let height: usize = grid.height;
    let mut doc = String::from_str("<svg xmlns=\"http://www.w3.org/2000/svg\" width=\"");
    push_decimal(&mut doc, 4 * (width as u128));
    doc.append("\" height=\"");
    push_decimal(&mut doc, 4 * (height as u128));
    doc.append("\" viewBox=\"0 0 ");
    push_decimal(&mut doc, 4 * (width as u128));
    doc.append(" ");
    push_decimal(&mut doc, 4 * (height as u128));
    doc.append("\">\n");
    let ghost header = heatmap_header(width as nat, height as nat);
    assert(doc@ =~= header + rects_text(width as nat, grid.cells@, 0));
    let mut y: usize = 0;
    while y < height
        invariant
            grid.wf(),
            grid.width == width,
            grid.height == height,
            y <= height,
            doc@ == header + rects_text(width as nat, grid.cells@, (y * width) as nat),
        decreases height - y,
    {
        let mut x: usize = 0;
        while x < width
            invariant
                grid.wf(),
                grid.width == width,
                grid.height == height,
                y < height,
                x <= width,
                doc@ == header + rects_text(width as nat, grid.cells@, (y * width + x) as nat),
            decreases width - x,
        {
            proof {
                lemma_slot_in_range(width as int, height as int, x as int, y as int);
                lemma_slot_position(width as int, x as int, y as int);
            }
            let i: usize = y * width + x;
            push_rect(&mut doc, x, y, grid.cells[i].b);
            assert(doc@ =~= header + rects_text(width as nat, grid.cells@, (i + 1) as nat));
            x = x + 1;
        }
        assert(y * width + width == (y + 1) * width) by (nonlinear_arith);
        y = y + 1;
    }
    assert(height * width == width * height) by (nonlinear_arith);
    doc.append("</svg>");
    doc
}

} // verus!
