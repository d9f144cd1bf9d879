use h263::rate_control::{HrdModel, HrdParams, RateController};

#[test]
fn hrd_params_cbr_derivation() {
    let p = HrdParams::for_cbr(64_000, 25);
    assert_eq!(p.bits_per_tick, 2560);
    assert_eq!(p.b_max, 10240);
}

#[test]
fn hrd_on_budget_pictures_leave_buffer_empty() {
    let mut hrd = HrdModel::new(HrdParams::for_cbr(64_000, 25));
    for _ in 0..10 {
        let out = hrd.push_picture(2560);
        assert!(out.conformant);
        assert_eq!(out.occupancy_after_removal, 0);
        assert_eq!(out.ticks_waited, 1);
    }
}

#[test]
fn hrd_oversized_picture_waits_for_channel() {
    let mut hrd = HrdModel::new(HrdParams::for_cbr(64_000, 25));
    let out = hrd.push_picture(8960);
    assert_eq!(out.ticks_waited, 4);
    assert_eq!(out.occupancy_after_removal, 1280);
    assert!(out.conformant);
    let out = hrd.push_picture(640);
    assert!(out.conformant);
    assert_eq!(out.ticks_waited, 1);
}

#[test]
fn hrd_reports_overflow() {
    let params = HrdParams {
        bits_per_tick: 1000,
        b_max: 2000,
    };
    let mut hrd = HrdModel::new(params);
    let mut tripped = false;
    for _ in 0..8 {
        let out = hrd.push_picture(100);
        tripped |= !out.conformant;
    }
    assert!(
        tripped,
        "900-bit/tick surplus must cross B = 2000 within 8 pictures"
    );
}

#[test]
fn controller_tracks_budget() {
    let mut rc = RateController::new(10_000, 10);
    for _ in 0..6 {
        let q = rc.next_quant();
        rc.update(20_000);
        assert!(rc.next_quant() >= q);
    }
    assert!(rc.next_quant() > 10, "QUANT should have risen");
    for _ in 0..12 {
        rc.update(1_000);
    }
    assert!(rc.next_quant() < 31);
    let low = rc.next_quant();
    assert!(low < 10 + 4, "QUANT should be easing back, got {low}");
    let mut rc = RateController::new(100, 30);
    for _ in 0..20 {
        rc.update(1_000_000);
    }
    assert_eq!(rc.next_quant(), 31);
    let mut rc = RateController::new(1_000_000, 2);
    for _ in 0..20 {
        rc.update(10);
    }
    assert_eq!(rc.next_quant(), 1);
}
