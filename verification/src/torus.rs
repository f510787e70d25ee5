//! Toroidal addressing: every integer coordinate names a position on a
//! finite axis, and a pair of them names one slot of a row-major buffer.

use vstd::prelude::*;
use vstd::arithmetic::div_mod::{
    lemma_fundamental_div_mod, lemma_fundamental_div_mod_converse, lemma_mod_multiples_vanish,
};

verus! {

/// The position on an axis of length `size` that the coordinate `coord`
/// names: its residue in `[0, size)`.
pub open spec fn wrap(coord: int, size: int) -> int {
    coord % size
}

/// The row-major slot of the position `(x, y)` on a grid `width` wide.
pub open spec fn slot(width: int, x: int, y: int) -> int {
    y * width + x
}

/// Executable form of [`wrap`], total over signed coordinates.
pub fn wrap_coord(coord: isize, size: usize) -> (pos: usize)
    requires
        size > 0,
    ensures
        pos == wrap(coord as int, size as int),
        pos < size,
{
    if coord >= 0 {
        (coord as usize) % size
    } else {
        // coord == -(k + 1) with k >= 0, so its residue is size - 1 - k % size.
        let k: usize = (-(coord + 1)) as usize;
        let m: usize = k % size;
        proof {
            lemma_wrap_negative(k as int, size as int);
        }
        size - 1 - m
    }
}

/// The residue of a negative coordinate, from that of its mirror image.
pub proof fn lemma_wrap_negative(k: int, size: int)
    requires
        k >= 0,
        size > 0,
    ensures
        wrap(-(k + 1), size) == size - 1 - k % size,
{
    lemma_fundamental_div_mod(k, size);
    let q = k / size;
    let r = k % size;
    assert(-(k + 1) == (-(q + 1)) * size + (size - 1 - r)) by (nonlinear_arith)
        requires
            k == size * q + r,
    ;
    lemma_fundamental_div_mod_converse(-(k + 1), size, -(q + 1), size - 1 - r);
}

/// Wrapping always lands on the axis.
pub proof fn lemma_wrap_range(coord: int, size: int)
    requires
        size > 0,
    ensures
        0 <= wrap(coord, size) < size,
{
}

/// A coordinate that already lies on the axis names itself.
pub proof fn lemma_wrap_identity(coord: int, size: int)
    requires
        0 <= coord < size,
    ensures
        wrap(coord, size) == coord,
{
    lemma_fundamental_div_mod_converse(coord, size, 0, coord);
}

/// Going round the axis any whole number of times, in either direction,
/// arrives at the same position.
pub proof fn lemma_wrap_periodic(coord: int, turns: int, size: int)
    requires
        size > 0,
    ensures
        wrap(coord + turns * size, size) == wrap(coord, size),
{
    lemma_mod_multiples_vanish(turns, coord, size);
    assert(size * turns + coord == coord + turns * size) by (nonlinear_arith);
}

/// Positions inside a `width` by `height` grid have slots inside its buffer.
pub proof fn lemma_slot_in_range(width: int, height: int, x: int, y: int)
    requires
        0 <= x < width,
        0 <= y < height,
    ensures
        0 <= slot(width, x, y) < width * height,
{
    assert(y * width + x < width * height) by (nonlinear_arith)
        requires
            0 <= x < width,
            0 <= y < height,
    ;
    assert(0 <= y * width) by (nonlinear_arith)
        requires
            0 <= y,
            0 < width,
    ;
}

/// A slot determines its position: column by remainder, row by quotient.
pub proof fn lemma_slot_position(width: int, x: int, y: int)
    requires
        0 <= x < width,
    ensures
        slot(width, x, y) % width == x,
        slot(width, x, y) / width == y,
{
    lemma_fundamental_div_mod_converse(y * width + x, width, y, x);
}

/// Every slot of the buffer is the slot of exactly the position that its
/// remainder and quotient give.
pub proof fn lemma_position_slot(width: int, height: int, i: int)
    requires
        width > 0,
        0 <= i < width * height,
    ensures
        0 <= i % width < width,
        0 <= i / width < height,
        slot(width, i % width, i / width) == i,
{
    lemma_fundamental_div_mod(i, width);
    let q = i / width;
    let r = i % width;
    assert(q < height) by (nonlinear_arith)
        requires
            i == width * q + r,
            0 <= r,
            i < width * height,
            width > 0,
    ;
    assert(0 <= q) by (nonlinear_arith)
        requires
            i == width * q + r,
            r < width,
            0 <= i,
            width > 0,
    ;
    assert(q * width + r == i) by (nonlinear_arith)
        requires
            i == width * q + r,
    ;
}

} // verus!
