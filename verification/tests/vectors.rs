use h263::b_picture::{cbpb_block_present, pb_bquant};
use h263::macroblock::Mvd;
use h263::motion::{
    chroma_mv, chroma_mv_4mv, motion_compensate_block, obmc_predict_block, predict_mv_median,
    reconstruct_mv, reconstruct_mv_umv, select_4mv_candidates, LumaBlockIndex,
    Mb4MvNeighbourhood, MotionVector, RefPlane, RemoteMv,
};
use h263::picture::predictions::reconstruct_four_vectors;
use h263::picture::MbGridEntry;

fn mv(dx: i32, dy: i32) -> MotionVector {
    MotionVector::new(dx, dy)
}

/// Samples that grow to the right by 2 and down by 3.
fn ramp() -> Vec<u8> {
    (0..32usize * 32).map(|k| (2 * (k % 32) + 3 * (k / 32)) as u8).collect()
}

#[test]
fn the_median_is_taken_of_each_component() {
    assert_eq!(
        predict_mv_median(mv(5, -3), mv(1, 8), mv(9, 0)),
        mv(5, 0)
    );
    assert_eq!(predict_mv_median(mv(4, 4), mv(4, 4), mv(-9, 9)), mv(4, 4));
}

#[test]
fn vectors_wrap_around() {
    let d = |dx_half, dy_half| Mvd { dx_half, dy_half };
    assert_eq!(reconstruct_mv(mv(30, -30), d(5, -5)), mv(-29, 29));
    assert_eq!(reconstruct_mv(mv(0, 7), d(-32, 24)), mv(-32, 31));
    assert_eq!(reconstruct_mv_umv(mv(30, -30), d(5, -5)), mv(35, -35));
    assert_eq!(reconstruct_mv_umv(mv(40, -40), d(31, -31)), mv(7, -7));
}

#[test]
fn chroma_vectors_are_halved() {
    assert_eq!(chroma_mv(mv(2, -3)), mv(1, -1));
    assert_eq!(chroma_mv(mv(4, 5)), mv(2, 3));
    assert_eq!(
        chroma_mv_4mv(&[mv(1, 4), mv(1, 4), mv(0, 3), mv(0, 3)]),
        mv(0, 2)
    );
    assert_eq!(
        chroma_mv_4mv(&[mv(-1, 4), mv(-1, 4), mv(-1, 4), mv(0, 0)]),
        mv(-1, 1)
    );
}

#[test]
fn four_equal_vectors_count_as_one() {
    for v in -32..32 {
        let m = mv(v, -v);
        assert_eq!(chroma_mv_4mv(&[m; 4]), chroma_mv(m));
    }
}

#[test]
fn blocks_are_predicted_at_half_pixels() {
    let samples = ramp();
    let plane = RefPlane::new(&samples, 32, 32);
    let at = |m, rounding| motion_compensate_block(&plane, 8, 8, m, rounding);
    assert_eq!(at(mv(0, 0), 0)[0], 40);
    assert_eq!(at(mv(4, -2), 0)[9], 40 + 5 + 4 - 3);
    assert_eq!(at(mv(1, 0), 0)[0], 41);
    assert_eq!(at(mv(0, 1), 0)[0], 42);
    assert_eq!(at(mv(0, 1), 1)[0], 41);
    assert_eq!(at(mv(1, 1), 0)[0], 43);
    assert_eq!(at(mv(1, 1), 1)[0], 42);
}

#[test]
fn planes_go_on_beyond_their_edges() {
    let samples = ramp();
    let plane = RefPlane::new(&samples, 32, 32);
    let left = motion_compensate_block(&plane, 0, 0, mv(-40, -40), 0);
    assert!(left.iter().all(|&s| s == samples[0]));
    let right = motion_compensate_block(&plane, 24, 24, mv(64, 64), 0);
    assert!(right.iter().all(|&s| s == samples[32 * 32 - 1]));
}

#[test]
fn overlapping_equal_vectors_changes_nothing() {
    let samples = ramp();
    let plane = RefPlane::new(&samples, 32, 32);
    let own = mv(3, -1);
    let plain = motion_compensate_block(&plane, 8, 16, own, 0);
    let same = RemoteMv::Vector(own);
    assert_eq!(
        obmc_predict_block(
            &plane,
            8,
            16,
            own,
            same,
            RemoteMv::Current,
            same,
            RemoteMv::Current,
            0
        ),
        plain
    );
}

#[test]
fn overlapped_corners_mix_three_predictions() {
    let samples = ramp();
    let plane = RefPlane::new(&samples, 32, 32);
    let far = RemoteMv::Vector(mv(8, 0));
    let out = obmc_predict_block(
        &plane,
        8,
        8,
        mv(0, 0),
        far,
        RemoteMv::Zero,
        RemoteMv::Zero,
        RemoteMv::Zero,
        0,
    );
    assert_eq!(out[0], 40 + 2);
    assert_eq!(out[7 * 8], 40 + 21);
}

#[test]
fn candidates_come_from_the_nearest_blocks() {
    let four = |k| [mv(k, 1), mv(k, 2), mv(k, 3), mv(k, 4)];
    let n = Mb4MvNeighbourhood {
        current: four(0),
        left: Some(four(1)),
        above: Some(four(2)),
        above_right: None,
        right: Some(four(4)),
    };
    assert_eq!(
        select_4mv_candidates(LumaBlockIndex::B1, &n),
        (mv(1, 2), mv(2, 3), mv(0, 0))
    );
    assert_eq!(
        select_4mv_candidates(LumaBlockIndex::B3, &n),
        (mv(1, 4), mv(0, 1), mv(0, 2))
    );
}

#[test]
fn b_quantisers_are_coarser() {
    assert_eq!(pb_bquant(0, 8), 10);
    assert_eq!(pb_bquant(1, 8), 12);
    assert_eq!(pb_bquant(2, 9), 15);
    assert_eq!(pb_bquant(3, 31), 31);
}

#[test]
fn b_patterns_are_read_from_the_left() {
    assert!(cbpb_block_present(0b100000, 1));
    assert!(cbpb_block_present(0b000001, 6));
    assert!(!cbpb_block_present(0b011111, 1));
}

#[test]
fn four_vectors_are_predicted_from_other_macroblocks_only() {
    let difference = |dx_half: i8, dy_half: i8| Mvd { dx_half, dy_half };
    let mut grid = vec![MbGridEntry::outside(); 4];
    let mvds = [
        difference(2, 0),
        difference(0, 0),
        difference(0, 4),
        difference(1, 0),
    ];
    let alone = reconstruct_four_vectors(&grid, 2, 0, 0, true, false, &mvds);
    assert_eq!(alone, [mv(2, 0), mv(0, 0), mv(0, 4), mv(1, 0)]);
    grid[0].mv = mv(20, 6);
    grid[0].mvs4 = [mv(20, 6); 4];
    let behind = reconstruct_four_vectors(&grid, 2, 1, 0, true, false, &mvds);
    assert_eq!(behind, [mv(22, 6), mv(0, 0), mv(0, 4), mv(1, 0)]);
}
