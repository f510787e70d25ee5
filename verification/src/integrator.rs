//! The double-buffered time step: every cell of the next field is computed
//! by the update rule from the five-point stencil of the previous field.

use vstd::prelude::*;
use crate::grid::{cell_at, Cell, Grid};
use crate::seeding::{
    fresh_cells, lemma_seeding_two_valued, random_cells, seeded_cell, steady_cell,
};
use vstd::arithmetic::div_mod::lemma_fundamental_div_mod;
use crate::torus::{
    lemma_slot_in_range, lemma_slot_position, lemma_wrap_identity, lemma_wrap_negative,
    lemma_wrap_periodic, slot, wrap,
};

verus! {

/// What the update of one position reads: the cell itself and its four
/// orthogonal neighbours on the torus.
#[derive(Debug, Clone, Copy)]
pub struct Stencil<S> {
    /// The cell at `(x, y)`.
    pub center: Cell<S>,
    /// The cell at `(x - 1, y)`.
    pub left: Cell<S>,
    /// The cell at `(x + 1, y)`.
    pub right: Cell<S>,
    /// The cell at `(x, y - 1)`.
    pub up: Cell<S>,
    /// The cell at `(x, y + 1)`.
    pub down: Cell<S>,
}

/// The stencil of the position `(x, y)` in a row-major buffer.
pub open spec fn stencil_of<S>(cells: Seq<Cell<S>>, width: int, height: int, x: int, y: int) -> Stencil<
    S,
> {
    Stencil {
        center: cell_at(cells, width, height, x, y),
        left: cell_at(cells, width, height, x - 1, y),
        right: cell_at(cells, width, height, x + 1, y),
        up: cell_at(cells, width, height, x, y - 1),
        down: cell_at(cells, width, height, x, y + 1),
    }
}

/// Whether `after` is a field that one time step under `rule` can produce
/// from `before`: each of its cells is a result of the rule on the stencil
/// that the same position has in `before`.
pub open spec fn steps_to<S, F: Fn(Stencil<S>) -> Cell<S>>(
    rule: &F,
    width: int,
    height: int,
    before: Seq<Cell<S>>,
    after: Seq<Cell<S>>,
) -> bool {
    &&& after.len() == before.len()
    &&& forall|i: int|
        0 <= i < after.len() ==> rule.ensures(
            (stencil_of(before, width, height, i % width, i / width),),
            #[trigger] after[i],
        )
}

/// Whether `after` is a field that `steps` successive time steps under
/// `rule` can produce from `before`.
pub open spec fn reaches<S, F: Fn(Stencil<S>) -> Cell<S>>(
    rule: &F,
    width: int,
    height: int,
    before: Seq<Cell<S>>,
    after: Seq<Cell<S>>,
    steps: nat,
) -> bool
    decreases steps,
{
    if steps == 0 {
        after == before
    } else {
        exists|mid: Seq<Cell<S>>|
            reaches(rule, width, height, before, mid, (steps - 1) as nat) && #[trigger] steps_to(
                rule,
                width,
                height,
                mid,
                after,
            )
    }
}

/// Whether the cell `c` can occur in a field that evolves from `initial`
/// under `rule`: it is a cell of `initial` or a result of the rule.
pub open spec fn may_occur<S, F: Fn(Stencil<S>) -> Cell<S>>(
    rule: &F,
    initial: Seq<Cell<S>>,
    c: Cell<S>,
) -> bool {
    initial.contains(c) || exists|s: Stencil<S>| rule.ensures((s,), c)
}

/// Whether all five cells of the stencil `s` can occur in such a field.
pub open spec fn stencil_may_occur<S, F: Fn(Stencil<S>) -> Cell<S>>(
    rule: &F,
    initial: Seq<Cell<S>>,
    s: Stencil<S>,
) -> bool {
    &&& may_occur(rule, initial, s.center)
    &&& may_occur(rule, initial, s.left)
    &&& may_occur(rule, initial, s.right)
    &&& may_occur(rule, initial, s.up)
    &&& may_occur(rule, initial, s.down)
}

impl<S: Copy> Grid<S> {
    /// The stencil of the position `(x, y)`, for any integers.
    pub open spec fn stencil_at(&self, x: int, y: int) -> Stencil<S> {
        stencil_of(self.cells@, self.width as int, self.height as int, x, y)
    }

    /// Gathers the stencil of the position that `(x, y)` names. The
    /// neighbours across an edge are those on the opposite edge.
    pub fn stencil(&self, x: usize, y: usize) -> (gathered: Stencil<S>)
        requires
            self.wf(),
        ensures
            gathered == self.stencil_at(x as int, y as int),
    {
        let width: usize = self.width;
        let height: usize = self.height;
        let px: usize = x % width;
        let py: usize = y % height;
        let left: usize = if px == 0 { width - 1 } else { px - 1 };
        let right: usize = if px + 1 == width { 0 } else { px + 1 };
        let up: usize = if py == 0 { height - 1 } else { py - 1 };
        let down: usize = if py + 1 == height { 0 } else { py + 1 };
        proof {
            lemma_neighbor_wrap(x as int, width as int);
            lemma_neighbor_wrap(y as int, height as int);
            lemma_slot_in_range(width as int, height as int, px as int, py as int);
            lemma_slot_in_range(width as int, height as int, left as int, py as int);
            lemma_slot_in_range(width as int, height as int, right as int, py as int);
            lemma_slot_in_range(width as int, height as int, px as int, up as int);
            lemma_slot_in_range(width as int, height as int, px as int, down as int);
        }
        Stencil {
            center: self.cells[py * width + px],
            left: self.cells[py * width + left],
            right: self.cells[py * width + right],
            up: self.cells[up * width + px],
            down: self.cells[down * width + px],
        }
    }

    /// Advances the field by one time step. Every new cell is computed by
    /// `rule` from the field as it was before the call; the new cells are
    /// written to a buffer of their own, which then replaces the field.
    pub fn step<F: Fn(Stencil<S>) -> Cell<S>>(&mut self, rule: &F)
        requires
            old(self).wf(),
            forall|x: int, y: int|
                0 <= x < old(self).width && 0 <= y < old(self).height ==> rule.requires(
                    (#[trigger] old(self).stencil_at(x, y),),
                ),
        ensures
            final(self).wf(),
            final(self).width == old(self).width,
            final(self).height == old(self).height,
            steps_to(
                rule,
                old(self).width as int,
                old(self).height as int,
                old(self).cells@,
                final(self).cells@,
            ),
    {
        let width: usize = self.width;
        let height: usize = self.height;
        let mut next: Vec<Cell<S>> = Vec::with_capacity(self.cells.len());
        let mut y: usize = 0;
        while y < height
            invariant
                self.wf(),
                *self == *old(self),
                self.width == width,
                self.height == height,
                y <= height,
                next@.len() == y * width,
                forall|x: int, y: int|
                    0 <= x < self.width && 0 <= y < self.height ==> rule.requires(
                        (#[trigger] self.stencil_at(x, y),),
                    ),
                forall|i: int|
                    0 <= i < next@.len() ==> rule.ensures(
                        (stencil_of(
                            self.cells@,
                            width as int,
                            height as int,
                            i % (width as int),
                            i / (width as int),
                        ),),
                        #[trigger] next@[i],
                    ),
            decreases height - y,
        {
            let mut x: usize = 0;
            while x < width
                invariant
                    self.wf(),
                    *self == *old(self),
                    self.width == width,
                    self.height == height,
                    y < height,
                    x <= width,
                    next@.len() == y * width + x,
                    forall|x: int, y: int|
                        0 <= x < self.width && 0 <= y < self.height ==> rule.requires(
                            (#[trigger] self.stencil_at(x, y),),
                        ),
                    forall|i: int|
                        0 <= i < next@.len() ==> rule.ensures(
                            (stencil_of(
                                self.cells@,
                                width as int,
                                height as int,
                                i % (width as int),
                                i / (width as int),
                            ),),
                            #[trigger] next@[i],
                        ),
                decreases width - x,
            {
                let gathered = self.stencil(x, y);
                let cell = rule(gathered);
                proof {
                    lemma_slot_position(width as int, x as int, y as int);
                }
                next.push(cell);
                x = x + 1;
            }
            assert(y * width + width == (y + 1) * width) by (nonlinear_arith);
            y = y + 1;
        }
        assert(height * width == width * height) by (nonlinear_arith);
        self.cells = next;
    }

    /// Runs exactly `steps` time steps, one after the other. The rule has
    /// to accept every stencil made of cells of the field as it is now and
    /// of cells that the rule itself returns.
    pub fn simulate<F: Fn(Stencil<S>) -> Cell<S>>(&mut self, rule: &F, steps: usize)
        requires
            old(self).wf(),
            forall|s: Stencil<S>| #[trigger]
                stencil_may_occur(rule, old(self).cells@, s) ==> rule.requires((s,)),
        ensures
            final(self).wf(),
            final(self).width == old(self).width,
            final(self).height == old(self).height,
            reaches(
                rule,
                old(self).width as int,
                old(self).height as int,
                old(self).cells@,
                final(self).cells@,
                steps as nat,
            ),
            steps == 0 ==> final(self).cells@ == old(self).cells@,
    {
        let ghost width = self.width as int;
        let ghost height = self.height as int;
        let ghost initial = self.cells@;
        let mut done: usize = 0;
        while done < steps
            invariant
                self.wf(),
                self.width == width,
                self.height == height,
                initial == old(self).cells@,
                done <= steps,
                reaches(rule, width, height, initial, self.cells@, done as nat),
                forall|i: int|
                    0 <= i < self.cells@.len() ==> may_occur(rule, initial, #[trigger] self.cells@[i]),
                forall|s: Stencil<S>| #[trigger]
                    stencil_may_occur(rule, initial, s) ==> rule.requires((s,)),
            decreases steps - done,
        {
            let ghost prev = self.cells@;
            proof {
                assert forall|x: int, y: int| 0 <= x < width && 0 <= y < height implies rule.requires(
                    (#[trigger] self.stencil_at(x, y),),
                ) by {
                    lemma_stencil_cells(prev, width, height, x, y);
                    assert(stencil_may_occur(rule, initial, self.stencil_at(x, y)));
                }
            }
            self.step(rule);
            done = done + 1;
            proof {
                assert(steps_to(rule, width, height, prev, self.cells@));
                assert forall|i: int| 0 <= i < self.cells@.len() implies may_occur(
                    rule,
                    initial,
                    #[trigger] self.cells@[i],
                ) by {
                    let s = stencil_of(prev, width, height, i % width, i / width);
                    assert(rule.ensures((s,), self.cells@[i]));
                }
            }
        }
    }
}

/// The five cells of a stencil are cells of the buffer it was taken from.
pub proof fn lemma_stencil_cells<S>(cells: Seq<Cell<S>>, width: int, height: int, x: int, y: int)
    requires
        width > 0,
        height > 0,
        cells.len() == width * height,
    ensures
        cells.contains(stencil_of(cells, width, height, x, y).center),
        cells.contains(stencil_of(cells, width, height, x, y).left),
        cells.contains(stencil_of(cells, width, height, x, y).right),
        cells.contains(stencil_of(cells, width, height, x, y).up),
        cells.contains(stencil_of(cells, width, height, x, y).down),
{
    lemma_cell_at_member(cells, width, height, x, y);
    lemma_cell_at_member(cells, width, height, x - 1, y);
    lemma_cell_at_member(cells, width, height, x + 1, y);
    lemma_cell_at_member(cells, width, height, x, y - 1);
    lemma_cell_at_member(cells, width, height, x, y + 1);
}

/// Whatever the coordinates, addressing yields a cell of the buffer.
pub proof fn lemma_cell_at_member<S>(cells: Seq<Cell<S>>, width: int, height: int, x: int, y: int)
    requires
        width > 0,
        height > 0,
        cells.len() == width * height,
    ensures
        0 <= slot(width, wrap(x, width), wrap(y, height)) < cells.len(),
        cells.contains(cell_at(cells, width, height, x, y)),
{
    lemma_slot_in_range(width, height, wrap(x, width), wrap(y, height));
}

/// On an axis of length `size`, the neighbours of the position that `coord`
/// names are those of its residue, and wrap to the far end at either edge.
pub proof fn lemma_neighbor_wrap(coord: int, size: int)
    requires
        size > 0,
    ensures
        wrap(coord - 1, size) == if wrap(coord, size) == 0 {
            size - 1
        } else {
            wrap(coord, size) - 1
        },
        wrap(coord + 1, size) == if wrap(coord, size) + 1 == size {
            0
        } else {
            wrap(coord, size) + 1
        },
{
    let pos = wrap(coord, size);
    let turns = coord / size;
    lemma_fundamental_div_mod(coord, size);
    assert(coord == pos + turns * size) by (nonlinear_arith)
        requires
            coord == size * turns + pos,
    ;
    lemma_wrap_periodic(pos - 1, turns, size);
    lemma_wrap_periodic(pos + 1, turns, size);
    if pos == 0 {
        lemma_wrap_negative(0, size);
        lemma_wrap_identity(0, size);
    } else {
        lemma_wrap_identity(pos - 1, size);
    }
    if pos + 1 == size {
        lemma_wrap_periodic(0, 1, size);
        lemma_wrap_identity(0, size);
    } else {
        lemma_wrap_identity(pos + 1, size);
    }
}

/// Two runs in a row are one run of the summed length.
pub proof fn lemma_runs_compose<S, F: Fn(Stencil<S>) -> Cell<S>>(
    rule: &F,
    width: int,
    height: int,
    start: Seq<Cell<S>>,
    middle: Seq<Cell<S>>,
    end: Seq<Cell<S>>,
    first: nat,
    second: nat,
)
    requires
        reaches(rule, width, height, start, middle, first),
        reaches(rule, width, height, middle, end, second),
    ensures
        reaches(rule, width, height, start, end, first + second),
    decreases second,
{
    if second > 0 {
        let mid = choose|mid: Seq<Cell<S>>|
            reaches(rule, width, height, middle, mid, (second - 1) as nat) && #[trigger] steps_to(
                rule,
                width,
                height,
                mid,
                end,
            );
        lemma_runs_compose(rule, width, height, start, middle, mid, first, (second - 1) as nat);
        assert(reaches(rule, width, height, start, mid, (first + second - 1) as nat));
    }
}

/// A run of any length keeps the number of cells.
pub proof fn lemma_run_keeps_length<S, F: Fn(Stencil<S>) -> Cell<S>>(
    rule: &F,
    width: int,
    height: int,
    before: Seq<Cell<S>>,
    after: Seq<Cell<S>>,
    steps: nat,
)
    requires
        reaches(rule, width, height, before, after, steps),
    ensures
        after.len() == before.len(),
    decreases steps,
{
    if steps > 0 {
        let mid = choose|mid: Seq<Cell<S>>|
            reaches(rule, width, height, before, mid, (steps - 1) as nat) && #[trigger] steps_to(
                rule,
                width,
                height,
                mid,
                after,
            );
        lemma_run_keeps_length(rule, width, height, before, mid, (steps - 1) as nat);
    }
}

/// A property that holds of every cell of the starting field and of every
/// cell the rule can return holds of every cell after any number of steps.
/// With a rule that clamps both concentrations into a range, this is the
/// bound on all concentrations at all times.
pub proof fn lemma_run_keeps_invariant<S, F: Fn(Stencil<S>) -> Cell<S>>(
    rule: &F,
    width: int,
    height: int,
    before: Seq<Cell<S>>,
    after: Seq<Cell<S>>,
    steps: nat,
    holds: spec_fn(Cell<S>) -> bool,
)
    requires
        reaches(rule, width, height, before, after, steps),
        forall|i: int| 0 <= i < before.len() ==> holds(#[trigger] before[i]),
        forall|s: Stencil<S>, c: Cell<S>| #[trigger] rule.ensures((s,), c) ==> holds(c),
    ensures
        forall|i: int| 0 <= i < after.len() ==> holds(#[trigger] after[i]),
{
    if steps > 0 {
        let mid = choose|mid: Seq<Cell<S>>|
            reaches(rule, width, height, before, mid, (steps - 1) as nat) && #[trigger] steps_to(
                rule,
                width,
                height,
                mid,
                after,
            );
        assert forall|i: int| 0 <= i < after.len() implies holds(#[trigger] after[i]) by {
            assert(rule.ensures(
                (stencil_of(mid, width, height, i % width, i / width),),
                after[i],
            ));
        }
    }
}

/// Whether `rule` can return at most one cell for each stencil.
pub open spec fn deterministic<S, F: Fn(Stencil<S>) -> Cell<S>>(rule: &F) -> bool {
    forall|s: Stencil<S>, c1: Cell<S>, c2: Cell<S>|
        #[trigger] rule.ensures((s,), c1) && #[trigger] rule.ensures((s,), c2) ==> c1 == c2
}

/// Under a deterministic rule the field after one step is a function of
/// the field before it.
pub proof fn lemma_step_determined<S, F: Fn(Stencil<S>) -> Cell<S>>(
    rule: &F,
    width: int,
    height: int,
    before: Seq<Cell<S>>,
    one: Seq<Cell<S>>,
    other: Seq<Cell<S>>,
)
    requires
        deterministic(rule),
        steps_to(rule, width, height, before, one),
        steps_to(rule, width, height, before, other),
    ensures
        one == other,
{
    assert forall|i: int| 0 <= i < one.len() implies one[i] == other[i] by {
        let s = stencil_of(before, width, height, i % width, i / width);
        assert(rule.ensures((s,), one[i]));
        assert(rule.ensures((s,), other[i]));
    }
    assert(one =~= other);
}

/// Under a deterministic rule the field after any number of steps is a
/// function of the starting field and that number: two runs from equal
/// fields end in equal fields.
pub proof fn lemma_run_determined<S, F: Fn(Stencil<S>) -> Cell<S>>(
    rule: &F,
    width: int,
    height: int,
    before: Seq<Cell<S>>,
    one: Seq<Cell<S>>,
    other: Seq<Cell<S>>,
    steps: nat,
)
    requires
        deterministic(rule),
        reaches(rule, width, height, before, one, steps),
        reaches(rule, width, height, before, other, steps),
    ensures
        one == other,
    decreases steps,
{
    if steps > 0 {
        let mid_one = choose|mid: Seq<Cell<S>>|
            reaches(rule, width, height, before, mid, (steps - 1) as nat) && #[trigger] steps_to(
                rule,
                width,
                height,
                mid,
                one,
            );
        let mid_other = choose|mid: Seq<Cell<S>>|
            reaches(rule, width, height, before, mid, (steps - 1) as nat) && #[trigger] steps_to(
                rule,
                width,
                height,
                mid,
                other,
            );
        lemma_run_determined(rule, width, height, before, mid_one, mid_other, (steps - 1) as nat);
        lemma_step_determined(rule, width, height, mid_one, one, other);
    }
}

/// A property of cells that holds of the steady and of the seeded cell and
/// of every cell the rule can return holds of every cell of every field
/// that a run from a freshly seeded grid reaches, whatever the seed and the
/// number of steps.
pub proof fn lemma_seeded_run_keeps_invariant<S, F: Fn(Stencil<S>) -> Cell<S>>(
    rule: &F,
    width: int,
    height: int,
    seed: u64,
    zero: S,
    one: S,
    after: Seq<Cell<S>>,
    steps: nat,
    holds: spec_fn(Cell<S>) -> bool,
)
    requires
        width > 0,
        height > 0,
        holds(steady_cell(zero, one)),
        holds(seeded_cell(zero, one)),
        forall|s: Stencil<S>, c: Cell<S>| #[trigger] rule.ensures((s,), c) ==> holds(c),
        reaches(rule, width, height, fresh_cells(width, height, zero, one), after, steps)
            || reaches(rule, width, height, random_cells(width, height, seed, zero, one), after, steps),
    ensures
        forall|i: int| 0 <= i < after.len() ==> holds(#[trigger] after[i]),
{
    let fresh = fresh_cells(width, height, zero, one);
    let random = random_cells(width, height, seed, zero, one);
    assert(width * height >= 0) by (nonlinear_arith)
        requires
            width > 0,
            height > 0,
    ;
    assert forall|i: int| 0 <= i < fresh.len() implies holds(#[trigger] fresh[i]) by {
        lemma_seeding_two_valued(width, height, seed, zero, one, i);
    }
    assert forall|i: int| 0 <= i < random.len() implies holds(#[trigger] random[i]) by {
        lemma_seeding_two_valued(width, height, seed, zero, one, i);
    }
    if reaches(rule, width, height, fresh, after, steps) {
        lemma_run_keeps_invariant(rule, width, height, fresh, after, steps, holds);
    } else {
        lemma_run_keeps_invariant(rule, width, height, random, after, steps, holds);
    }
}

/// Under a deterministic rule, two runs of equal length from grids seeded
/// with equal dimensions, seed and scalars end in equal fields.
pub proof fn lemma_seeded_run_determined<S, F: Fn(Stencil<S>) -> Cell<S>>(
    rule: &F,
    width: int,
    height: int,
    seed: u64,
    zero: S,
    one: S,
    first: Seq<Cell<S>>,
    second: Seq<Cell<S>>,
    steps: nat,
)
    requires
        deterministic(rule),
        reaches(rule, width, height, random_cells(width, height, seed, zero, one), first, steps),
        reaches(rule, width, height, random_cells(width, height, seed, zero, one), second, steps),
    ensures
        first == second,
{
    lemma_run_determined(
        rule,
        width,
        height,
        random_cells(width, height, seed, zero, one),
        first,
        second,
        steps,
    );
}

} // verus!
