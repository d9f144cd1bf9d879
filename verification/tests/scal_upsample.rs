use h263::scal_upsample::{
    upsample_plane_1d_horizontal, upsample_plane_1d_vertical, upsample_plane_2d,
};

#[test]
fn uniform_2d_is_preserved() {
    let w = 4;
    let h = 3;
    let plane = vec![137u8; w * h];
    let up = upsample_plane_2d(&plane, w, h);
    assert_eq!(up.len(), (2 * w) * (2 * h));
    assert!(up.iter().all(|&p| p == 137), "uniform 2-D upsample");
}

#[test]
fn upsample_2d_dimensions() {
    let up = upsample_plane_2d(&[0u8; 8 * 6], 8, 6);
    assert_eq!(up.len(), 16 * 12);
}

#[test]
fn horizontal_1d_two_sample_interpolation() {
    let up = upsample_plane_1d_horizontal(&[0, 100], 2, 1);
    assert_eq!(up, vec![0, 25, 75, 100]);
}

#[test]
fn vertical_1d_two_sample_interpolation() {
    let up = upsample_plane_1d_vertical(&[0, 100], 1, 2);
    assert_eq!(up, vec![0, 25, 75, 100]);
}

#[test]
fn horizontal_ramp_is_monotone() {
    let w = 4;
    let plane: Vec<u8> = (0..w).map(|j| (j * 60) as u8).collect();
    let up = upsample_plane_1d_horizontal(&plane, w, 1);
    for k in 0..up.len() - 1 {
        assert!(up[k] <= up[k + 1], "ramp must stay monotone at {k}");
    }
    assert_eq!(up[0], 0);
    assert_eq!(*up.last().unwrap(), 180);
}
