use h263::rate_control::{HrdModel, HrdParams, RateController};

#[test]
fn a_picture_completes_at_the_first_possible_tick() {
    let mut hrd = HrdModel::new(HrdParams {
        bits_per_tick: 100,
        b_max: 400,
    });
    assert_eq!(hrd.push_picture(100).ticks_waited, 1);
    assert_eq!(hrd.push_picture(101).ticks_waited, 2);
    assert_eq!(hrd.occupancy(), 99);
    assert_eq!(hrd.push_picture(99).ticks_waited, 1);
    assert_eq!(hrd.occupancy(), 100);
}

#[test]
fn the_peak_is_remembered() {
    let mut hrd = HrdModel::new(HrdParams {
        bits_per_tick: 100,
        b_max: 150,
    });
    assert!(hrd.push_picture(10).conformant);
    let out = hrd.push_picture(10);
    assert_eq!(out.occupancy_after_removal, 180);
    assert!(!out.conformant);
    hrd.push_picture(200);
    assert_eq!(hrd.max_occupancy_after_removal(), 180);
    assert_eq!(hrd.occupancy(), 80);
}

#[test]
fn a_clock_of_zero_counts_as_one() {
    let p = HrdParams::for_cbr(1000, 0);
    assert_eq!((p.bits_per_tick, p.b_max), (1000, 4000));
}

#[test]
fn the_quantiser_moves_in_small_steps() {
    let mut rc = RateController::new(1000, 10);
    let mut last = rc.next_quant() as i32;
    for bits in [5000u64, 0, 3000, 1000, 1000, 0, 0, 9000] {
        rc.update(bits);
        let q = rc.next_quant() as i32;
        assert!((q - last).abs() <= 4, "{last} to {q}");
        assert!(rc.fullness() >= -1000 && rc.fullness() <= 2000);
        last = q;
    }
}

#[test]
fn quantisers_start_inside_their_range() {
    assert_eq!(RateController::new(1000, 0).next_quant(), 1);
    assert_eq!(RateController::new(1000, 99).next_quant(), 31);
}

#[test]
fn a_huge_picture_fills_the_virtual_buffer() {
    for bits in [4_000u64, 1 << 40, i64::MAX as u64, i64::MAX as u64 + 1, u64::MAX] {
        let mut rc = RateController::new(1000, 10);
        rc.update(bits);
        assert_eq!(rc.fullness(), 2000, "{bits}");
        assert_eq!(rc.next_quant(), 14);
    }
}
