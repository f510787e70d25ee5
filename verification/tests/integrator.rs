use mathatura::grid::{Cell, Grid};
use mathatura::integrator::Stencil;
use mathatura::preset::{GrayScottParams, Preset, RATE_SCALE};

fn rate(thousandths: u32) -> f64 {
    thousandths as f64 / RATE_SCALE as f64
}

fn gray_scott(s: Stencil<f64>, p: &GrayScottParams) -> Cell<f64> {
    let cell = s.center;
    let la = s.left.a + s.right.a + s.up.a + s.down.a - 4.0 * cell.a;
    let lb = s.left.b + s.right.b + s.up.b + s.down.b - 4.0 * cell.b;
    let ab2 = cell.a * cell.b * cell.b;
    let new_a = cell.a + rate(p.dt) * (rate(p.da) * la - ab2 + rate(p.feed) * (1.0 - cell.a));
    let new_b = cell.b + rate(p.dt) * (rate(p.db) * lb + ab2 - (rate(p.kill) + rate(p.feed)) * cell.b);
    Cell { a: new_a.clamp(0.0, 1.0), b: new_b.clamp(0.0, 1.0) }
}

fn contrast(grid: &Grid<f64>) -> f64 {
    let n = grid.cells.len() as f64;
    let avg_b = grid.cells.iter().map(|c| c.b).sum::<f64>() / n;
    let variance = grid.cells.iter().map(|c| (c.b - avg_b).powi(2)).sum::<f64>() / n;
    variance.sqrt()
}

fn numbered(width: usize, height: usize) -> Grid<i64> {
    let mut grid = Grid::new(width, height, 0i64, 1i64).unwrap();
    for (i, cell) in grid.cells.iter_mut().enumerate() {
        cell.a = i as i64;
        cell.b = 1000 + i as i64;
    }
    grid
}

#[test]
fn test_simulation_step() {
    let mut grid = Grid::new(20, 20, 0.0, 1.0).unwrap();
    let params = Preset::Spots.params();
    let before = grid.cells.clone();
    grid.step(&|s| gray_scott(s, &params));
    // Grid should change after a step
    let changed = grid
        .cells
        .iter()
        .zip(before.iter())
        .any(|(a, b)| (a.a - b.a).abs() > 1e-10 || (a.b - b.b).abs() > 1e-10);
    assert!(changed, "Grid should change after simulation step");
}

#[test]
fn test_concentrations_bounded() {
    let mut grid = Grid::new(20, 20, 0.0, 1.0).unwrap();
    let params = Preset::Spots.params();
    grid.simulate(&|s| gray_scott(s, &params), 100);
    for cell in &grid.cells {
        assert!(cell.a >= 0.0 && cell.a <= 1.0, "A out of bounds: {}", cell.a);
        assert!(cell.b >= 0.0 && cell.b <= 1.0, "B out of bounds: {}", cell.b);
    }
}

#[test]
fn spots_scenario_on_50_by_50() {
    let mut grid = Grid::new(50, 50, 0.0, 1.0).unwrap();
    assert_eq!(grid.cells.len(), 2500);
    assert!(grid.get(25, 25).b > 0.0);
    assert_eq!(grid.get(0, 0).b, 0.0);
    let params = Preset::Spots.params();
    grid.simulate(&|s| gray_scott(s, &params), 100);
    assert_eq!(grid.cells.len(), 2500);
    for cell in &grid.cells {
        assert!(cell.a >= 0.0 && cell.a <= 1.0);
        assert!(cell.b >= 0.0 && cell.b <= 1.0);
    }
    assert!(contrast(&grid) > 0.0);
}

#[test]
fn every_preset_stays_in_range() {
    for preset in [Preset::Spots, Preset::Stripes, Preset::Coral, Preset::Mitosis, Preset::Worms] {
        let mut grid = Grid::new_random(24, 16, 11, 0.0, 1.0).unwrap();
        let params = preset.params();
        grid.simulate(&|s| gray_scott(s, &params), 60);
        for cell in &grid.cells {
            assert!(cell.a >= 0.0 && cell.a <= 1.0);
            assert!(cell.b >= 0.0 && cell.b <= 1.0);
        }
    }
}

#[test]
fn one_gray_scott_step_at_the_edge_of_the_seed() {
    // On a 10 by 10 grid the seed is the single cell (5, 5). Its left
    // neighbour (4, 5) is steady with one seeded neighbour:
    // laplacian a = 1 + 0 + 1 + 1 - 4 = -1, laplacian b = 0 + 1 + 0 + 0 - 0 = 1,
    // a' = 1 + (1 * -1 - 0 + 0.035 * 0) = 0, b' = 0 + (0.5 * 1 + 0 - 0.1 * 0) = 0.5.
    let mut grid = Grid::new(10, 10, 0.0, 1.0).unwrap();
    let params = Preset::Spots.params();
    grid.step(&|s| gray_scott(s, &params));
    let edge = grid.get(4, 5);
    assert_eq!(edge.a, 0.0);
    assert_eq!(edge.b, 0.5);
    // The seed itself: laplacian a = 4, laplacian b = -4,
    // a' = 0 + (4 - 0 + 0.035) clamped to 1, b' = 1 + (-2 + 0 - 0.1) clamped to 0.
    let seed = grid.get(5, 5);
    assert_eq!(seed.a, 1.0);
    assert_eq!(seed.b, 0.0);
    // A cell far from the seed stays at the steady state.
    let far = grid.get(0, 0);
    assert_eq!(far.a, 1.0);
    assert_eq!(far.b, 0.0);
}

#[test]
fn stencil_names_the_four_neighbours() {
    let grid = numbered(4, 3);
    let s = grid.stencil(1, 1);
    assert_eq!(s.center.a, 5);
    assert_eq!(s.left.a, 4);
    assert_eq!(s.right.a, 6);
    assert_eq!(s.up.a, 1);
    assert_eq!(s.down.a, 9);
    assert_eq!(s.center.b, 1005);
}

#[test]
fn stencil_wraps_at_every_edge() {
    let grid = numbered(4, 3);
    let s = grid.stencil(0, 0);
    assert_eq!((s.center.a, s.left.a, s.right.a, s.up.a, s.down.a), (0, 3, 1, 8, 4));
    let s = grid.stencil(3, 2);
    assert_eq!((s.center.a, s.left.a, s.right.a, s.up.a, s.down.a), (11, 10, 8, 7, 3));
    let one = numbered(1, 1);
    let s = one.stencil(0, 0);
    assert_eq!((s.center.a, s.left.a, s.right.a, s.up.a, s.down.a), (0, 0, 0, 0, 0));
}

#[test]
fn stencil_of_a_position_past_the_edge_is_that_of_its_residue() {
    let grid = numbered(4, 3);
    let s = grid.stencil(5, 7);
    let t = grid.stencil(1, 1);
    assert_eq!(
        (s.center.a, s.left.a, s.right.a, s.up.a, s.down.a),
        (t.center.a, t.left.a, t.right.a, t.up.a, t.down.a)
    );
    let s = grid.stencil(usize::MAX, usize::MAX);
    let t = grid.stencil(usize::MAX % 4, usize::MAX % 3);
    assert_eq!(
        (s.center.a, s.left.a, s.right.a, s.up.a, s.down.a),
        (t.center.a, t.left.a, t.right.a, t.up.a, t.down.a)
    );
}

#[test]
fn stencil_agrees_with_get() {
    let grid = numbered(5, 4);
    for y in 0..4usize {
        for x in 0..5usize {
            let s = grid.stencil(x, y);
            let (xi, yi) = (x as isize, y as isize);
            assert_eq!(s.center.a, grid.get(xi, yi).a);
            assert_eq!(s.left.a, grid.get(xi - 1, yi).a);
            assert_eq!(s.right.a, grid.get(xi + 1, yi).a);
            assert_eq!(s.up.a, grid.get(xi, yi - 1).a);
            assert_eq!(s.down.a, grid.get(xi, yi + 1).a);
        }
    }
}

#[test]
fn step_reads_only_the_previous_field() {
    // Each cell takes the value of its left neighbour: the whole field
    // moves one column to the right. An update in place would smear the
    // first value of each row over the row.
    let mut grid = numbered(4, 3);
    grid.step(&|s: Stencil<i64>| s.left);
    let a: Vec<i64> = grid.cells.iter().map(|c| c.a).collect();
    assert_eq!(a, vec![3, 0, 1, 2, 7, 4, 5, 6, 11, 8, 9, 10]);
    // The same with the neighbour above: one row down.
    let mut grid = numbered(4, 3);
    grid.step(&|s: Stencil<i64>| s.up);
    let a: Vec<i64> = grid.cells.iter().map(|c| c.a).collect();
    assert_eq!(a, vec![8, 9, 10, 11, 0, 1, 2, 3, 4, 5, 6, 7]);
}

#[test]
fn step_applies_the_rule_to_every_cell_once() {
    let mut grid = numbered(3, 3);
    grid.step(&|s: Stencil<i64>| Cell {
        a: s.left.a + s.right.a + s.up.a + s.down.a - 4 * s.center.a,
        b: s.center.b + 1,
    });
    let a: Vec<i64> = grid.cells.iter().map(|c| c.a).collect();
    assert_eq!(a, vec![12, 9, 6, 3, 0, -3, -6, -9, -12]);
    let b: Vec<i64> = grid.cells.iter().map(|c| c.b).collect();
    assert_eq!(b, vec![1001, 1002, 1003, 1004, 1005, 1006, 1007, 1008, 1009]);
    assert_eq!((grid.width, grid.height), (3, 3));
}

#[test]
fn simulate_zero_steps_changes_nothing() {
    let mut grid = numbered(4, 3);
    grid.simulate(&|s: Stencil<i64>| s.left, 0);
    let a: Vec<i64> = grid.cells.iter().map(|c| c.a).collect();
    assert_eq!(a, (0..12).collect::<Vec<i64>>());
}

#[test]
fn simulate_runs_exactly_the_given_number_of_steps() {
    let mut grid = numbered(4, 3);
    grid.simulate(&|s: Stencil<i64>| Cell { a: s.center.a + 1, b: s.left.b }, 7);
    let a: Vec<i64> = grid.cells.iter().map(|c| c.a).collect();
    assert_eq!(a, (7..19).collect::<Vec<i64>>());
    // Seven columns to the right on a width of four is three columns.
    let b: Vec<i64> = grid.cells.iter().map(|c| c.b - 1000).collect();
    assert_eq!(b, vec![1, 2, 3, 0, 5, 6, 7, 4, 9, 10, 11, 8]);
}

#[test]
fn simulate_equals_repeated_steps() {
    let params = Preset::Coral.params();
    let mut stepped = Grid::new_random(16, 12, 3, 0.0, 1.0).unwrap();
    let mut simulated = stepped.clone();
    for _ in 0..9 {
        stepped.step(&|s| gray_scott(s, &params));
    }
    simulated.simulate(&|s| gray_scott(s, &params), 9);
    for (p, q) in stepped.cells.iter().zip(simulated.cells.iter()) {
        assert_eq!(p.a.to_bits(), q.a.to_bits());
        assert_eq!(p.b.to_bits(), q.b.to_bits());
    }
}

#[test]
fn simulate_in_two_parts_equals_one_run() {
    let params = Preset::Worms.params();
    let mut whole = Grid::new_random(16, 12, 8, 0.0, 1.0).unwrap();
    let mut parts = whole.clone();
    whole.simulate(&|s| gray_scott(s, &params), 12);
    parts.simulate(&|s| gray_scott(s, &params), 5);
    parts.simulate(&|s| gray_scott(s, &params), 7);
    for (p, q) in whole.cells.iter().zip(parts.cells.iter()) {
        assert_eq!(p.a.to_bits(), q.a.to_bits());
        assert_eq!(p.b.to_bits(), q.b.to_bits());
    }
}

#[test]
fn seeded_runs_are_reproducible() {
    let params = Preset::Mitosis.params();
    let mut first = Grid::new_random(20, 20, 42, 0.0, 1.0).unwrap();
    let mut second = Grid::new_random(20, 20, 42, 0.0, 1.0).unwrap();
    first.simulate(&|s| gray_scott(s, &params), 50);
    second.simulate(&|s| gray_scott(s, &params), 50);
    for (p, q) in first.cells.iter().zip(second.cells.iter()) {
        assert_eq!(p.a.to_bits(), q.a.to_bits());
        assert_eq!(p.b.to_bits(), q.b.to_bits());
    }
}

#[test]
fn negative_rates_still_give_bounded_fields() {
    let mut grid = Grid::new(12, 12, 0.0, 1.0).unwrap();
    let rule = |s: Stencil<f64>| {
        let la = s.left.a + s.right.a + s.up.a + s.down.a - 4.0 * s.center.a;
        let lb = s.left.b + s.right.b + s.up.b + s.down.b - 4.0 * s.center.b;
        let ab2 = s.center.a * s.center.b * s.center.b;
        let a = s.center.a - 1.0 * (-2.0 * la - ab2 + 0.035 * (1.0 - s.center.a));
        let b = s.center.b - 1.0 * (-0.5 * lb + ab2 - 0.1 * s.center.b);
        Cell { a: a.clamp(0.0, 1.0), b: b.clamp(0.0, 1.0) }
    };
    grid.simulate(&rule, 40);
    for cell in &grid.cells {
        assert!(cell.a >= 0.0 && cell.a <= 1.0);
        assert!(cell.b >= 0.0 && cell.b <= 1.0);
    }
}
