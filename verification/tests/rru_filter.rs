use h263::rru_filter::{rru_default_tap, rru_filter_plane, RruEdgeCondition, RruFilterMode};

fn always(_: (usize, usize), _: (usize, usize)) -> RruEdgeCondition {
    RruEdgeCondition::Filter
}

fn never(_: (usize, usize), _: (usize, usize)) -> RruEdgeCondition {
    RruEdgeCondition::Skip
}

#[test]
fn default_tap_matches_spec_formula() {
    assert_eq!(rru_default_tap(100, 120), 105);
    assert_eq!(rru_default_tap(120, 100), 115);
    for k in [0u8, 1, 17, 128, 255] {
        assert_eq!(rru_default_tap(k, k), k, "equal-sample identity at {k}");
    }
}

#[test]
fn default_filter_constant_plane_unchanged() {
    let (w, h) = (32usize, 32usize);
    let mut plane = vec![73u8; w * h];
    let before = plane.clone();
    rru_filter_plane(&mut plane, w, h, w, RruFilterMode::Default, always);
    assert_eq!(plane, before, "constant plane must be unchanged");
}

#[test]
fn default_filter_smooths_only_boundary_columns() {
    let (w, h) = (32usize, 16usize);
    let mut plane = vec![0u8; w * h];
    for y in 0..h {
        for x in 0..w {
            plane[y * w + x] = if x < 16 { 40 } else { 80 };
        }
    }
    rru_filter_plane(&mut plane, w, h, w, RruFilterMode::Default, always);
    for y in 0..h {
        assert_eq!(plane[y * w + 15], rru_default_tap(40, 80));
        assert_eq!(plane[y * w + 16], rru_default_tap(80, 40));
        assert_eq!(plane[y * w + 14], 40);
        assert_eq!(plane[y * w + 17], 80);
        assert_eq!(plane[y * w], 40);
        assert_eq!(plane[y * w + 31], 80);
    }
}

#[test]
fn default_filter_smooths_only_boundary_rows() {
    let (w, h) = (16usize, 32usize);
    let mut plane = vec![0u8; w * h];
    for y in 0..h {
        for x in 0..w {
            plane[y * w + x] = if y < 16 { 30 } else { 90 };
        }
    }
    rru_filter_plane(&mut plane, w, h, w, RruFilterMode::Default, always);
    for x in 0..w {
        assert_eq!(plane[15 * w + x], rru_default_tap(30, 90));
        assert_eq!(plane[16 * w + x], rru_default_tap(90, 30));
        assert_eq!(plane[14 * w + x], 30);
        assert_eq!(plane[17 * w + x], 90);
    }
}

#[test]
fn skip_condition_leaves_plane_untouched() {
    let (w, h) = (32usize, 16usize);
    let mut plane = vec![0u8; w * h];
    for y in 0..h {
        for x in 0..w {
            plane[y * w + x] = if x < 16 { 40 } else { 80 };
        }
    }
    let before = plane.clone();
    rru_filter_plane(&mut plane, w, h, w, RruFilterMode::Default, never);
    assert_eq!(plane, before);
}

#[test]
fn single_block_plane_has_no_internal_edges() {
    let (w, h) = (16usize, 16usize);
    let mut plane: Vec<u8> = (0..(w * h) as u32).map(|v| (v % 256) as u8).collect();
    let before = plane.clone();
    rru_filter_plane(&mut plane, w, h, w, RruFilterMode::Default, always);
    assert_eq!(plane, before, "no internal 16×16 edge in a 16×16 plane");
}

#[test]
fn deblock_mode_constant_plane_unchanged() {
    let (w, h) = (32usize, 32usize);
    let mut plane = vec![128u8; w * h];
    let before = plane.clone();
    rru_filter_plane(&mut plane, w, h, w, RruFilterMode::Deblocking, always);
    assert_eq!(plane, before);
}

#[test]
fn deblock_mode_vertical_edge_worked_example() {
    let (w, h) = (32usize, 16usize);
    let mut plane = vec![0u8; w * h];
    for y in 0..h {
        for x in 0..w {
            plane[y * w + x] = if x < 16 { 100 } else { 120 };
        }
    }
    rru_filter_plane(&mut plane, w, h, w, RruFilterMode::Deblocking, always);
    for y in 0..h {
        assert_eq!(plane[y * w + 14], 103, "A1");
        assert_eq!(plane[y * w + 15], 107, "B1");
        assert_eq!(plane[y * w + 16], 113, "C1");
        assert_eq!(plane[y * w + 17], 117, "D1");
        assert_eq!(plane[y * w + 13], 100);
        assert_eq!(plane[y * w + 18], 120);
    }
}

#[test]
fn default_filter_runs_both_passes_on_2x2_grid() {
    let (w, h) = (32usize, 32usize);
    let mut plane = vec![0u8; w * h];
    for y in 0..h {
        for x in 0..w {
            let q = (if y < 16 { 0 } else { 2 }) + (if x < 16 { 0 } else { 1 });
            plane[y * w + x] = [20u8, 60, 100, 200][q];
        }
    }
    let before = plane.clone();
    rru_filter_plane(&mut plane, w, h, w, RruFilterMode::Default, always);
    assert_ne!(plane[15 * w + 15], before[15 * w + 15]);
    assert_eq!(plane[7 * w + 7], 20);
}

#[test]
fn overlapping_rows_are_filtered_in_turn() {
    let mut plane = vec![0u8; 32];
    plane[15] = 100;
    rru_filter_plane(&mut plane, 32, 16, 1, RruFilterMode::Default, always);
    assert_eq!(plane[14..21], [0, 75, 19, 5, 2, 1, 0]);
    let mut short = vec![7u8; 16];
    rru_filter_plane(&mut short, 32, 16, 1, RruFilterMode::Default, never);
    assert_eq!(short, vec![7u8; 16]);
}
