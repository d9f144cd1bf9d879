use h263::rru_upsample::{upsample_prediction_error, RRU_IN_DIM, RRU_IN_LEN, RRU_OUT_DIM, RRU_OUT_LEN};

#[test]
fn nonnegative_constant_block_upsamples_to_constant() {
    for &k in &[0i16, 1, 7, 100, 255] {
        let input = [k; RRU_IN_LEN];
        let out = upsample_prediction_error(&input);
        assert!(
            out.iter().all(|&v| v == k),
            "constant {k} did not round-trip: {:?}",
            &out[..16]
        );
    }
}

#[test]
fn negative_constant_block_truncates_toward_zero() {
    let input = [-50i16; RRU_IN_LEN];
    let out = upsample_prediction_error(&input);
    let at = |y: usize, x: usize| out[y * RRU_OUT_DIM + x];
    assert_eq!(at(0, 0), -50);
    assert_eq!(at(1, 1), -49);
    assert_eq!(at(0, 1), -49);
    let input = [-16i16; RRU_IN_LEN];
    let out = upsample_prediction_error(&input);
    let at = |y: usize, x: usize| out[y * RRU_OUT_DIM + x];
    assert_eq!(at(0, 0), -16);
    assert_eq!(at(1, 1), -15);
}

#[test]
fn corners_copy_nearest_reduced_sample() {
    let mut input = [0i16; RRU_IN_LEN];
    input[0] = 11;
    input[RRU_IN_DIM - 1] = 22;
    input[(RRU_IN_DIM - 1) * RRU_IN_DIM] = 33;
    input[RRU_IN_LEN - 1] = 44;
    let out = upsample_prediction_error(&input);
    assert_eq!(out[0], 11);
    assert_eq!(out[RRU_OUT_DIM - 1], 22);
    assert_eq!(out[(RRU_OUT_DIM - 1) * RRU_OUT_DIM], 33);
    assert_eq!(out[RRU_OUT_LEN - 1], 44);
}

#[test]
fn interior_cell_matches_figure_q8_weights() {
    let mut input = [0i16; RRU_IN_LEN];
    input[0] = 16;
    let out = upsample_prediction_error(&input);
    let at = |y: usize, x: usize| out[y * RRU_OUT_DIM + x];
    assert_eq!(at(1, 1), (9 * 16 + 8) / 16);
    assert_eq!(at(1, 2), (3 * 16 + 8) / 16);
    assert_eq!(at(2, 1), (3 * 16 + 8) / 16);
    assert_eq!(at(2, 2), (16 + 8) / 16);
}

#[test]
fn interior_cell_full_weight_combination() {
    let (av, bv, cv, dv) = (40i32, 12, 8, 4);
    let mut input = [0i16; RRU_IN_LEN];
    input[0] = av as i16;
    input[1] = bv as i16;
    input[RRU_IN_DIM] = cv as i16;
    input[RRU_IN_DIM + 1] = dv as i16;
    let out = upsample_prediction_error(&input);
    let at = |y: usize, x: usize| out[y * RRU_OUT_DIM + x] as i32;
    assert_eq!(at(1, 1), (9 * av + 3 * bv + 3 * cv + dv + 8) / 16);
    assert_eq!(at(1, 2), (3 * av + 9 * bv + cv + 3 * dv + 8) / 16);
    assert_eq!(at(2, 1), (3 * av + bv + 9 * cv + 3 * dv + 8) / 16);
    assert_eq!(at(2, 2), (av + 3 * bv + 3 * cv + 9 * dv + 8) / 16);
}

#[test]
fn top_edge_matches_figure_q9_weights() {
    let (av, bv) = (20i32, 8);
    let mut input = [0i16; RRU_IN_LEN];
    input[0] = av as i16;
    input[1] = bv as i16;
    let out = upsample_prediction_error(&input);
    let at = |y: usize, x: usize| out[y * RRU_OUT_DIM + x] as i32;
    assert_eq!(at(0, 0), av);
    assert_eq!(at(0, 1), (3 * av + bv + 2) / 4);
    assert_eq!(at(0, 2), (av + 3 * bv + 2) / 4);
}

#[test]
fn left_edge_matches_figure_q9_weights() {
    let (av, cv) = (20i32, 8);
    let mut input = [0i16; RRU_IN_LEN];
    input[0] = av as i16;
    input[RRU_IN_DIM] = cv as i16;
    let out = upsample_prediction_error(&input);
    let at = |y: usize, x: usize| out[y * RRU_OUT_DIM + x] as i32;
    assert_eq!(at(0, 0), av);
    assert_eq!(at(1, 0), (3 * av + cv + 2) / 4);
    assert_eq!(at(2, 0), (av + 3 * cv + 2) / 4);
}

#[test]
fn every_output_position_is_written() {
    let input = [7i16; RRU_IN_LEN];
    let out = upsample_prediction_error(&input);
    assert!(
        out.iter().all(|&v| v == 7),
        "an unwritten (or mis-written) output position remained 0"
    );
}

#[test]
fn negative_samples_truncate_toward_zero() {
    let (av, bv) = (-4i32, -2);
    let mut input = [0i16; RRU_IN_LEN];
    input[0] = av as i16;
    input[1] = bv as i16;
    let out = upsample_prediction_error(&input);
    let at = |y: usize, x: usize| out[y * RRU_OUT_DIM + x] as i32;
    assert_eq!(at(0, 1), -3);
    assert_eq!(at(0, 2), -2);
}
