use particle_sim::grid::{CellRange, SpatialGrid};

fn range(min_col: i64, max_col: i64, min_row: i64, max_row: i64) -> CellRange {
    CellRange { min_col, max_col, min_row, max_row }
}

fn cell(col: i64, row: i64) -> CellRange {
    range(col, col, row, row)
}

#[test]
fn query_returns_inserted() {
    let mut g = SpatialGrid::new(4, 4);
    g.insert(7, cell(1, 1));
    let out = g.query(cell(1, 1));
    assert!(out.contains(&7));
}

#[test]
fn query_expands_one_ring() {
    let mut g = SpatialGrid::new(8, 8);
    g.insert(3, cell(2, 2));
    // A query one cell away still sees the body through the expansion ring.
    let out = g.query(cell(1, 1));
    assert!(out.contains(&3));
    // Two cells away is outside the ring.
    let out = g.query(cell(0, 0));
    assert!(!out.contains(&3));
}

#[test]
fn clear_empties_every_cell() {
    let mut g = SpatialGrid::new(4, 4);
    g.insert(1, range(0, 3, 0, 3));
    g.clear();
    let out = g.query(range(0, 3, 0, 3));
    assert!(out.is_empty());
}

#[test]
fn stale_contents_are_dropped_on_reuse() {
    let mut g = SpatialGrid::new(4, 4);
    g.insert(1, cell(0, 0));
    g.clear();
    g.insert(2, cell(0, 0));
    let out = g.query(cell(0, 0));
    assert_eq!(out, vec![2]);
}

#[test]
fn query_deduplicates_through_marks() {
    let mut g = SpatialGrid::new(6, 6);
    g.reserve_marks(16);
    // The body's square covers four cells, so it is registered four times.
    g.insert(5, range(1, 2, 1, 2));
    let out = g.query(range(0, 3, 0, 3));
    assert_eq!(out, vec![5]);
}

#[test]
fn query_deduplicates_through_fallback() {
    let mut g = SpatialGrid::new(6, 6);
    // No reserved marks: index 5000 exceeds the mark array's bound and the
    // hash-set fallback must de-duplicate it.
    g.insert(5000, range(1, 2, 1, 2));
    let out = g.query(range(0, 3, 0, 3));
    assert_eq!(out, vec![5000]);
}

#[test]
fn query_deduplicates_mixed_paths() {
    let mut g = SpatialGrid::new(6, 6);
    g.reserve_marks(4);
    g.insert(3, range(0, 1, 0, 1));
    g.insert(900, range(0, 1, 0, 1));
    g.insert(3, cell(1, 1));
    let mut out = g.query(range(0, 2, 0, 2));
    out.sort();
    assert_eq!(out, vec![3, 900]);
}

#[test]
fn out_of_bounds_ranges_clamp_to_the_edge() {
    let mut g = SpatialGrid::new(4, 4);
    g.insert(9, range(-100, -50, -7, -7));
    let out = g.query(cell(0, 0));
    assert!(out.contains(&9));
    g.insert(11, range(50, 60, 50, 60));
    let out = g.query(cell(3, 3));
    assert!(out.contains(&11));
}

#[test]
fn query_misses_far_cells() {
    let mut g = SpatialGrid::new(10, 10);
    g.insert(1, cell(0, 0));
    let out = g.query(cell(5, 5));
    assert!(!out.contains(&1));
}

#[test]
fn set_dims_reshapes_and_empties() {
    let mut g = SpatialGrid::new(4, 4);
    g.insert(1, cell(0, 0));
    g.set_dims(4, 4);
    assert!(g.query(cell(0, 0)).is_empty());
    g.insert(2, cell(0, 0));
    g.set_dims(8, 2);
    assert_eq!(g.cols(), 8);
    assert_eq!(g.rows(), 2);
    assert!(g.query(cell(0, 0)).is_empty());
}

#[test]
fn repeated_queries_are_consistent() {
    let mut g = SpatialGrid::new(4, 4);
    g.insert(1, cell(1, 1));
    g.insert(2, cell(1, 1));
    let mut first = g.query(cell(1, 1));
    let mut second = g.query(cell(1, 1));
    first.sort();
    second.sort();
    assert_eq!(first, vec![1, 2]);
    assert_eq!(second, vec![1, 2]);
}

#[test]
fn query_is_a_superset_over_many_bodies() {
    // Deterministically scatter bodies, then check that every body whose
    // covered cells fall inside the probe's one-ring expansion is reported.
    let mut g = SpatialGrid::new(16, 16);
    let mut rng = particle_sim::rng::Lcg::new(7);
    let mut footprints: Vec<(i64, i64)> = Vec::new();
    for i in 0..200 {
        let col = (rng.next_u32() % 16) as i64;
        let row = (rng.next_u32() % 16) as i64;
        g.insert(i, range(col, col, row, row));
        footprints.push((col, row));
    }
    for probe_col in 0..16i64 {
        for probe_row in 0..16i64 {
            let out = g.query(cell(probe_col, probe_row));
            for (i, &(col, row)) in footprints.iter().enumerate() {
                let near = (col - probe_col).abs() <= 1 && (row - probe_row).abs() <= 1;
                if near {
                    assert!(out.contains(&i), "missed body {i} at ({col},{row})");
                }
            }
        }
    }
}

#[test]
fn stamps_keep_frames_apart_over_many_clears() {
    let mut g = SpatialGrid::new(4, 4);
    for frame in 0..100usize {
        g.clear();
        g.insert(frame, cell(1, 1));
        let out = g.query(cell(1, 1));
        assert_eq!(out, vec![frame]);
    }
}
