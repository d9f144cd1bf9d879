use h263::deblock::{
    apply_edge_samples, blend, deblock_plane, strength_for_quant, EdgeCondition,
};
use h263::rru_upsample::upsample_prediction_error;
use h263::scal_upsample::{upsample_plane_2d, upsample_plane_1d_horizontal};
use h263::upsample::{interpolate_four, interpolate_two};

#[test]
fn strengths_follow_the_quantiser() {
    let want = [
        1, 1, 2, 2, 3, 3, 4, 4, 4, 5, 5, 6, 6, 7, 7, 7, 8, 8, 8, 9, 9, 9, 10, 10, 10, 11, 11, 11,
        12, 12, 12,
    ];
    for q in 1..=31u8 {
        assert_eq!(strength_for_quant(q), want[q as usize - 1], "quantiser {q}");
    }
}

#[test]
fn small_steps_are_smoothed_and_large_ones_kept() {
    let mut line = [10, 10, 20, 20];
    apply_edge_samples(&mut line, 4);
    assert_eq!(line, [11, 13, 17, 19]);
    let mut edge = [10, 10, 200, 200];
    apply_edge_samples(&mut edge, 4);
    assert_eq!(edge, [10, 10, 200, 200]);
}

#[test]
fn flat_lines_are_not_touched() {
    for s in [0u8, 77, 255] {
        let mut line = [s; 4];
        apply_edge_samples(&mut line, 12);
        assert_eq!(line, [s; 4]);
    }
}

#[test]
fn blending_takes_a_quarter() {
    assert_eq!(blend(10, 20), 13);
    assert_eq!(blend(20, 10), 18);
}

#[test]
fn only_samples_at_edges_move() {
    let mut plane = vec![0u8; 16 * 16];
    for (k, s) in plane.iter_mut().enumerate() {
        *s = if k % 16 < 8 { 50 } else { 58 };
    }
    let before = plane.clone();
    deblock_plane(&mut plane, 16, 16, 16, |_, _| EdgeCondition::Filter {
        strength: 4,
    });
    for (k, (&a, &b)) in before.iter().zip(plane.iter()).enumerate() {
        let column = k % 16;
        if !(6..10).contains(&column) {
            assert_eq!(a, b, "column {column}");
        }
    }
    assert_eq!(&plane[6..10], &[51, 53, 55, 57]);
}

#[test]
fn skipped_edges_stay() {
    let mut plane: Vec<u8> = (0..16 * 16).map(|k| (k % 251) as u8).collect();
    let before = plane.clone();
    deblock_plane(&mut plane, 16, 16, 16, |_, _| EdgeCondition::Skip);
    assert_eq!(plane, before);
}

#[test]
fn interpolation_rounds_to_the_nearest() {
    assert_eq!(interpolate_two(10, 11), 10);
    assert_eq!(interpolate_two(10, 12), 11);
    assert_eq!(interpolate_four(16, 16, 16, 16), 16);
    assert_eq!(interpolate_four(16, 0, 0, 0), 9);
}

#[test]
fn doubled_samples_stay_between_their_neighbours() {
    let plane: Vec<u8> = vec![7, 200, 31, 90, 90, 254];
    let both = upsample_plane_2d(&plane, 3, 2);
    assert_eq!(both.len(), 24);
    assert!(both.iter().all(|s| (7..=254).contains(s)));
    assert_eq!((both[0], both[5], both[18], both[23]), (7, 31, 90, 254));
    let wide = upsample_plane_1d_horizontal(&[10, 20, 90], 3, 1);
    assert_eq!(wide, vec![10, 13, 18, 38, 73, 90]);
}

#[test]
fn equal_errors_are_kept_unless_negative() {
    let up = upsample_prediction_error(&[9; 64]);
    assert!(up.iter().all(|&v| v == 9));
    let down = upsample_prediction_error(&[-9; 64]);
    for (k, &v) in down.iter().enumerate() {
        let corner = [0, 15].contains(&(k / 16)) && [0, 15].contains(&(k % 16));
        assert_eq!(v, if corner { -9 } else { -8 }, "at {k}");
    }
}
