use mapgen::grid::TerrainGrid;

/// A 1x1 grid with no mutations: statistics are all zero and the single
/// cell, at elevation 0 with beach level 0 and hills level 1, renders as
/// lowland.
#[test]
fn one_cell_zero_mutations() {
    let mut g = TerrainGrid::new(1, 1);
    assert_eq!(g.height, 1);
    assert_eq!(g.width, 1);
    assert_eq!(g.area, 1);
    assert_eq!(g.elevation(0, 0), 0);
    g.calc_min_avg_max();
    assert_eq!(g.min, 0);
    assert_eq!(g.avg, 0);
    assert_eq!(g.max, 0);
    let text = g.to_text(0, 1);
    assert_eq!(text, " -----\n| ## |\n -----\n");
}

/// A 2x2 grid after one fault through (0, 0) with slope 1 and side true:
/// exactly the cells on or above the line f(col) = col are raised.
#[test]
fn one_fault_two_by_two() {
    let mut g = TerrainGrid::new(2, 2);
    g.apply_fault(0, 0, 7, true);
    assert_eq!(g.elevation(0, 0), 1);
    assert_eq!(g.elevation(0, 1), 1);
    assert_eq!(g.elevation(1, 0), 0);
    assert_eq!(g.elevation(1, 1), 1);
}

/// The same fault applied with both sides raises every cell off the line
/// exactly once and every cell on the line twice.
#[test]
fn opposite_sides_cover_grid() {
    let mut g = TerrainGrid::new(2, 2);
    g.apply_fault(0, 0, 7, true);
    g.apply_fault(0, 0, 7, false);
    // (0, 0) and (1, 1) lie on the line f(col) = col; the other two do not.
    assert_eq!(g.elevation(0, 0), 2);
    assert_eq!(g.elevation(0, 1), 1);
    assert_eq!(g.elevation(1, 0), 1);
    assert_eq!(g.elevation(1, 1), 2);
}

/// Exact rendering of a 2x2 grid after one deterministic fault: the one
/// cell still at zero is water, the three raised cells are lowland.
#[test]
fn render_after_one_fault() {
    let mut g = TerrainGrid::new(2, 2);
    g.apply_fault(0, 0, 7, true);
    let text = g.to_text(1, 2);
    assert_eq!(text, " -------\n| #### |\n|   ## |\n -------\n");
}

/// Statistics after a few deterministic faults: min and max are the true
/// extremes, avg the floor of the mean.
#[test]
fn stats_true_extremes() {
    let mut g = TerrainGrid::new(1, 2);
    // Slope 4 through (0, 0): only the pivot cell lies on or below the line
    // when side is false.
    for _ in 0..5 {
        g.apply_fault(0, 0, 9, false);
    }
    assert_eq!(g.elevation(0, 0), 5);
    assert_eq!(g.elevation(0, 1), 0);
    g.calc_min_avg_max();
    assert_eq!(g.min, 0);
    assert_eq!(g.avg, 2);
    assert_eq!(g.max, 5);
}

/// Rendered output shape: `height + 2` lines, each `2 * width + 4`
/// characters before its newline.
#[test]
fn render_shape() {
    let mut g = TerrainGrid::new(3, 2);
    g.apply_fault(1, 1, 2, true);
    let text = g.to_text(1, 2);
    let lines: Vec<&str> = text.lines().collect();
    assert_eq!(lines.len(), 3 + 2);
    for line in lines {
        assert_eq!(line.chars().count(), 2 * 2 + 4);
    }
}

/// Rendering twice with the same thresholds and no mutation in between
/// gives identical text.
#[test]
fn render_idempotent() {
    let mut g = TerrainGrid::new(4, 3);
    g.mutate();
    g.mutate();
    let first = g.to_text(1, 2);
    let second = g.to_text(1, 2);
    assert_eq!(first, second);
}

/// A cell exactly at the beach level renders as lowland, not water; a cell
/// exactly at the hills level renders as hill, not lowland.
#[test]
fn threshold_boundaries() {
    let g = TerrainGrid::new(1, 1);
    // Elevation 0 equals the beach level: lowland.
    let at_beach = g.to_text(0, 1);
    let row: Vec<char> = at_beach.lines().nth(1).unwrap().chars().collect();
    assert_eq!(row[2], '#');
    assert_eq!(row[3], '#');
    // Elevation 0 equals the hills level: hill.
    let at_hills = g.to_text(0, 0);
    let row: Vec<char> = at_hills.lines().nth(1).unwrap().chars().collect();
    assert_eq!(row[2], '\u{245}');
    assert_eq!(row[3], '\u{245}');
    // Elevation 0 below the beach level: water.
    let below_beach = g.to_text(1, 2);
    let row: Vec<char> = below_beach.lines().nth(1).unwrap().chars().collect();
    assert_eq!(row[2], ' ');
    assert_eq!(row[3], ' ');
}

/// An inverted threshold order is permitted: the lowland band is empty and
/// every cell is water or hill.
#[test]
fn inverted_thresholds() {
    let mut g = TerrainGrid::new(1, 2);
    for _ in 0..3 {
        g.apply_fault(0, 0, 9, false);
    }
    // Elevations are [3, 0]; hills level 1 lies below beach level 2.
    let text = g.to_text(2, 1);
    let row: Vec<char> = text.lines().nth(1).unwrap().chars().collect();
    assert_eq!(row[2], '\u{245}');
    assert_eq!(row[3], '\u{245}');
    assert_eq!(row[4], ' ');
    assert_eq!(row[5], ' ');
}

/// Random mutations stay within bounds: after `k` mutations every cell is
/// at most `k`, at least one cell rose per mutation, and the recomputed
/// statistics are ordered.
#[test]
fn random_mutations_bounded() {
    let mut g = TerrainGrid::new(3, 3);
    let k: u16 = 10;
    for _ in 0..k {
        g.mutate();
    }
    let mut sum: u32 = 0;
    for r in 0..3 {
        for c in 0..3 {
            let e = g.elevation(r, c);
            assert!(e <= k);
            sum += u32::from(e);
        }
    }
    // Every fault raises at least its pivot cell.
    assert!(sum >= u32::from(k));
    g.calc_min_avg_max();
    assert!(g.min <= g.avg);
    assert!(g.avg <= g.max);
    assert!(u32::from(g.max) <= u32::from(k));
}

/// Each slope of the family partitions a 3x3 grid into complementary sets
/// over the two sides, pivoting at the center.
#[test]
fn slope_family_partitions() {
    for idx in 0..10 {
        let mut g = TerrainGrid::new(3, 3);
        g.apply_fault(1, 1, idx, true);
        g.apply_fault(1, 1, idx, false);
        // The pivot lies on every line, so it is raised twice; every cell is
        // raised at least once and at most twice.
        assert_eq!(g.elevation(1, 1), 2);
        for r in 0..3 {
            for c in 0..3 {
                let e = g.elevation(r, c);
                assert!((1..=2).contains(&e));
            }
        }
    }
}
