use h263::b_picture::{both_sources, predict_chroma_block, predict_luma_block};
use h263::block::COEFFS_PER_BLOCK;
use h263::error::Error;
use h263::gob_header::{GBSC_BITS, GBSC_VALUE, GFID_BITS, GN_BITS, GQUANT_BITS};
use h263::macroblock::Mvd;
use h263::motion::{
    motion_compensate_block, LumaBlockIndex, MotionVector, RefPlane, RemoteMv, RCONTROL_DEFAULT,
};
use h263::picture::{
    aic_luma_neighbour_above, aic_luma_neighbour_left, blit_block, build_4mv_neighbourhood,
    classify_remote_mvs, decode_improved_pb_picture, decode_pb_picture, decode_picture,
    decode_picture_layer, decode_picture_layer_with_inherited, luma_block_grid_pos,
    luma_block_origin, predict_mv, AicBlockMeta, AicState, DecodeOptions, MbGridEntry, Neighbour,
    PictureLayout, YuvFrame,
};
use h263::picture_header::{H263SourceFormat, PSC_BITS, PSC_VALUE};
use h263::plus_ptype::{InheritedExtendedState, Opptype, PlusSourceFormat};
use h263::slice_header::{SEPB_BITS, SQUANT_BITS, GFID_BITS as SLICE_GFID_BITS};
use h263::slice::{SSC_BITS, SSC_VALUE};
use oxideav_core::bits::BitWriter;

struct PbBReferencePlanes<'a> {
    prev_y: RefPlane<'a>,
    prev_cb: RefPlane<'a>,
    prev_cr: RefPlane<'a>,
    prec_y: RefPlane<'a>,
    prec_cb: RefPlane<'a>,
    prec_cr: RefPlane<'a>,
}

struct PbBMacroblockPrediction {
    luma: [[u8; 16]; 16],
    cb: [[u8; 8]; 8],
    cr: [[u8; 8]; 8],
}

fn rows_of(block: &[u8; 64]) -> [[u8; 8]; 8] {
    let mut rows = [[0u8; 8]; 8];
    for j in 0..8 {
        rows[j].copy_from_slice(&block[j * 8..j * 8 + 8]);
    }
    rows
}

fn pb_b_predict_macroblock(
    planes: &PbBReferencePlanes<'_>,
    mb_x: usize,
    mb_y: usize,
    mvs: &[MotionVector; 4],
    mvdb: Option<Mvd>,
    trb: i32,
    trd: i32,
    rcontrol: u8,
) -> PbBMacroblockPrediction {
    assert_eq!(rcontrol, 0);
    let diff = mvdb.unwrap_or(Mvd {
        dx_half: 0,
        dy_half: 0,
    });
    let source = both_sources(mvs, diff, trb, trd);
    let prec_y = planes.prec_y.samples.to_vec();
    let mut luma = [[0u8; 16]; 16];
    for blk in 0..4 {
        let block = predict_luma_block(&source, &planes.prev_y, mb_x, mb_y, &prec_y, blk);
        for j in 0..8 {
            for i in 0..8 {
                luma[8 * (blk / 2) + j][8 * (blk % 2) + i] = block[8 * j + i];
            }
        }
    }
    let prec_cb = planes.prec_cb.samples.to_vec();
    let prec_cr = planes.prec_cr.samples.to_vec();
    PbBMacroblockPrediction {
        luma,
        cb: rows_of(&predict_chroma_block(
            &source,
            &planes.prev_cb,
            mb_x / 2,
            mb_y / 2,
            &prec_cb,
        )),
        cr: rows_of(&predict_chroma_block(
            &source,
            &planes.prev_cr,
            mb_x / 2,
            mb_y / 2,
            &prec_cr,
        )),
    }
}


#[test]
fn qcif_layout_constants() {
    let f = H263SourceFormat::Qcif;
    assert_eq!(f.luma_dimensions(), Some((176, 144)));
    assert_eq!(f.num_gobs(), Some(9));
    assert_eq!(f.mb_rows_per_gob(), Some(1));
    assert_eq!(f.mbs_per_row(), Some(11));
    assert_eq!(f.total_macroblocks(), Some(99));
}

#[test]
fn cif_layout_constants() {
    let f = H263SourceFormat::Cif;
    assert_eq!(f.num_gobs(), Some(18));
    assert_eq!(f.mb_rows_per_gob(), Some(1));
    assert_eq!(f.mbs_per_row(), Some(22));
    assert_eq!(f.total_macroblocks(), Some(22 * 18));
}

#[test]
fn cif4_two_rows_per_gob() {
    let f = H263SourceFormat::Cif4;
    assert_eq!(f.num_gobs(), Some(18));
    assert_eq!(f.mb_rows_per_gob(), Some(2));
    assert_eq!(f.mbs_per_row(), Some(44));
    assert_eq!(f.total_macroblocks(), Some(44 * 36));
}

#[test]
fn grey_frame_dimensions() {
    let g = YuvFrame::grey(176, 144);
    assert_eq!(g.y.len(), 176 * 144);
    assert_eq!(g.cb.len(), 88 * 72);
    assert_eq!(g.cr.len(), 88 * 72);
    assert!(g.y.iter().all(|&p| p == 128));
    assert!(g.cb.iter().all(|&p| p == 128));
}

#[test]
fn luma_block_origins_figure5() {
    assert_eq!(luma_block_origin(16, 32, 0), (16, 32));
    assert_eq!(luma_block_origin(16, 32, 1), (24, 32));
    assert_eq!(luma_block_origin(16, 32, 2), (16, 40));
    assert_eq!(luma_block_origin(16, 32, 3), (24, 40));
}

#[test]
fn blit_block_places_8x8() {
    let mut plane = vec![0u8; 16 * 16];
    let mut block = [0u8; COEFFS_PER_BLOCK];
    for (i, b) in block.iter_mut().enumerate() {
        *b = i as u8;
    }
    blit_block(&mut plane, 16, 8, 8, &block);
    assert_eq!(plane[8 * 16 + 8], 0);
    assert_eq!(plane[9 * 16 + 8], 8);
    assert_eq!(plane[15 * 16 + 15], 63);
    assert_eq!(plane[0], 0);
    assert_eq!(plane[7 * 16 + 7], 0);
}

fn grid_with(cols: usize, rows: usize) -> Vec<MbGridEntry> {
    vec![MbGridEntry::outside(); cols * rows]
}

#[test]
fn predict_top_left_is_zero() {
    let grid = grid_with(11, 9);
    let p = predict_mv(&grid, 11, 0, 0, 0, true, false, 0);
    assert_eq!(p, MotionVector::new(0, 0));
}

#[test]
fn predict_uses_left_neighbour_at_top_row() {
    let mut grid = grid_with(11, 9);
    grid[0] = MbGridEntry {
        intra: false,
        not_coded: false,
        mv: MotionVector::new(6, -4),
        mvs4: [MotionVector::new(6, -4); 4],
        segment: 0,
    };
    let p = predict_mv(&grid, 11, 1, 0, 0, true, false, 0);
    assert_eq!(p, MotionVector::new(6, -4));
}

#[test]
fn predict_intra_neighbour_is_zero_candidate() {
    let mut grid = grid_with(11, 9);
    grid[0] = MbGridEntry {
        intra: true,
        not_coded: false,
        mv: MotionVector::new(10, 10),
        mvs4: [MotionVector::new(10, 10); 4],
        segment: 0,
    };
    let p = predict_mv(&grid, 11, 1, 0, 0, true, false, 0);
    assert_eq!(p, MotionVector::new(0, 0));
}

#[test]
fn predict_interior_median() {
    let mut grid = grid_with(11, 9);
    let set = |g: &mut [MbGridEntry], c: usize, r: usize, dx: i32, dy: i32| {
        g[r * 11 + c] = MbGridEntry {
            intra: false,
            not_coded: false,
            mv: MotionVector::new(dx, dy),
            mvs4: [MotionVector::new(dx, dy); 4],
            segment: 0,
        };
    };
    set(&mut grid, 1, 1, 2, 2);
    set(&mut grid, 2, 0, 8, -2);
    set(&mut grid, 3, 0, -4, 6);
    let p = predict_mv(&grid, 11, 2, 1, 0, false, false, 0);
    assert_eq!(p, MotionVector::new(2, 2));
}

#[test]
fn predict_right_edge_mv3_is_zero() {
    let mut grid = grid_with(11, 9);
    let set = |g: &mut [MbGridEntry], c: usize, r: usize, dx: i32, dy: i32| {
        g[r * 11 + c] = MbGridEntry {
            intra: false,
            not_coded: false,
            mv: MotionVector::new(dx, dy),
            mvs4: [MotionVector::new(dx, dy); 4],
            segment: 0,
        };
    };
    set(&mut grid, 9, 1, 10, 10);
    set(&mut grid, 10, 0, 20, 20);
    let p = predict_mv(&grid, 11, 10, 1, 0, false, false, 0);
    assert_eq!(p, MotionVector::new(10, 10));
}

fn build_qcif_intra_dc_picture(intradc_code: u8) -> Vec<u8> {
    let mut w = BitWriter::new();
    w.write_u32(PSC_VALUE, PSC_BITS);
    w.write_u32(0, 8);
    w.write_bit(true);
    w.write_bit(false);
    w.write_bit(false);
    w.write_bit(false);
    w.write_bit(false);
    w.write_u32(0b010, 3);
    w.write_bit(false);
    w.write_bit(false);
    w.write_bit(false);
    w.write_bit(false);
    w.write_bit(false);

    for _gob in 0..9 {
        w.write_u32(GBSC_VALUE, GBSC_BITS);
        w.write_u32(1, GN_BITS);
        w.write_u32(0, GFID_BITS);
        w.write_u32(8, GQUANT_BITS);
        for _mb in 0..11 {
            w.write_bit(true);
            w.write_bit(false);
            w.write_bit(false);
            w.write_bit(true);
            w.write_bit(true);
            for _blk in 0..6 {
                w.write_u32(intradc_code as u32, 8);
            }
        }
    }
    while !w.is_byte_aligned() {
        w.write_bit(false);
    }
    w.finish()
}

#[test]
fn decode_qcif_intra_dc_only_uniform_frame() {
    let data = build_qcif_intra_dc_picture(0x10);
    let frame = decode_picture(&data, None, DecodeOptions::default()).expect("decode");
    assert_eq!(frame.luma_width, 176);
    assert_eq!(frame.luma_height, 144);
    assert_eq!(frame.y.len(), 176 * 144);
    assert_eq!(frame.cb.len(), 88 * 72);
    assert!(frame.y.iter().all(|&p| p == 16), "luma not uniform 16");
    assert!(frame.cb.iter().all(|&p| p == 16), "cb not uniform 16");
    assert!(frame.cr.iter().all(|&p| p == 16), "cr not uniform 16");
}

#[test]
fn decode_qcif_intra_higher_dc() {
    let data = build_qcif_intra_dc_picture(0x40);
    let frame = decode_picture(&data, None, DecodeOptions::default()).expect("decode");
    assert!(frame.y.iter().all(|&p| p == 64));
    assert!(frame.cb.iter().all(|&p| p == 64));
}

#[test]
fn decode_intra_then_deblock_is_noop_on_flat_field() {
    let data = build_qcif_intra_dc_picture(0x10);
    let frame = decode_picture(
        &data,
        None,
        DecodeOptions {
            deblock: true,
            aic: false,
        },
    )
    .expect("decode");
    assert!(frame.y.iter().all(|&p| p == 16));
    assert!(frame.cb.iter().all(|&p| p == 16));
    assert!(frame.cr.iter().all(|&p| p == 16));
}

#[test]
fn decode_inter_all_skipped_copies_reference() {
    let mut reference = YuvFrame::grey(176, 144);
    for (i, p) in reference.y.iter_mut().enumerate() {
        *p = (i % 200) as u8;
    }
    for (i, p) in reference.cb.iter_mut().enumerate() {
        *p = (i % 100) as u8;
    }
    for (i, p) in reference.cr.iter_mut().enumerate() {
        *p = (i % 50) as u8;
    }

    let mut w = BitWriter::new();
    w.write_u32(PSC_VALUE, PSC_BITS);
    w.write_u32(0, 8);
    w.write_bit(true);
    w.write_bit(false);
    w.write_bit(false);
    w.write_bit(false);
    w.write_bit(false);
    w.write_u32(0b010, 3);
    w.write_bit(true);
    w.write_bit(false);
    w.write_bit(false);
    w.write_bit(false);
    w.write_bit(false);
    for _gob in 0..9 {
        w.write_u32(GBSC_VALUE, GBSC_BITS);
        w.write_u32(1, GN_BITS);
        w.write_u32(0, GFID_BITS);
        w.write_u32(8, GQUANT_BITS);
        for _mb in 0..11 {
            w.write_bit(true);
        }
    }
    while !w.is_byte_aligned() {
        w.write_bit(false);
    }
    let data = w.finish();

    let frame =
        decode_picture(&data, Some(&reference), DecodeOptions::default()).expect("decode");
    assert_eq!(frame.y, reference.y);
    assert_eq!(frame.cb, reference.cb);
    assert_eq!(frame.cr, reference.cr);
}

#[test]
fn decode_inter_picture_missing_reference_is_error() {
    let mut w = BitWriter::new();
    w.write_u32(PSC_VALUE, PSC_BITS);
    w.write_u32(0, 8);
    w.write_bit(true);
    w.write_bit(false);
    w.write_bit(false);
    w.write_bit(false);
    w.write_bit(false);
    w.write_u32(0b010, 3);
    w.write_bit(true);
    w.write_bit(false);
    w.write_bit(false);
    w.write_bit(false);
    w.write_bit(false);
    while !w.is_byte_aligned() {
        w.write_bit(false);
    }
    let data = w.finish();
    assert_eq!(
        decode_picture(&data, None, DecodeOptions::default()).unwrap_err(),
        Error::NotImplemented
    );
}

#[test]
fn decode_extended_ptype_is_refused() {
    let mut w = BitWriter::new();
    w.write_u32(PSC_VALUE, PSC_BITS);
    w.write_u32(0, 8);
    w.write_bit(true);
    w.write_bit(false);
    w.write_bit(false);
    w.write_bit(false);
    w.write_bit(false);
    w.write_u32(0b111, 3);
    w.write_bit(false);
    w.write_bit(false);
    w.write_bit(false);
    w.write_bit(false);
    w.write_bit(false);
    while !w.is_byte_aligned() {
        w.write_bit(false);
    }
    let data = w.finish();
    assert_eq!(
        decode_picture(&data, None, DecodeOptions::default()).unwrap_err(),
        Error::ExtendedPtypeNotSupported
    );
}

#[test]
fn decode_intra_cbpy_drives_per_block_ac() {
    let mut w = BitWriter::new();
    w.write_u32(PSC_VALUE, PSC_BITS);
    w.write_u32(0, 8);
    w.write_bit(true);
    w.write_bit(false);
    w.write_bit(false);
    w.write_bit(false);
    w.write_bit(false);
    w.write_u32(0b010, 3);
    w.write_bit(false);
    w.write_bit(false);
    w.write_bit(false);
    w.write_bit(false);
    w.write_bit(false);

    for gob in 0..9 {
        w.write_u32(GBSC_VALUE, GBSC_BITS);
        w.write_u32(1, GN_BITS);
        w.write_u32(0, GFID_BITS);
        w.write_u32(1, GQUANT_BITS);
        for mb in 0..11 {
            w.write_bit(true);
            if gob == 0 && mb == 0 {
                w.write_bit(true);
                w.write_bit(false);
                w.write_bit(false);
                w.write_bit(true);
                w.write_u32(0x10, 8);
                w.write_u32(0x10, 8);
                w.write_u32(0x10, 8);
                write_single_tcoef_last(&mut w);
                w.write_u32(0x10, 8);
                write_single_tcoef_last(&mut w);
                w.write_u32(0x10, 8);
                w.write_u32(0x10, 8);
            } else {
                w.write_bit(false);
                w.write_bit(false);
                w.write_bit(true);
                w.write_bit(true);
                for _blk in 0..6 {
                    w.write_u32(0x10, 8);
                }
            }
        }
    }
    while !w.is_byte_aligned() {
        w.write_bit(false);
    }
    let data = w.finish();
    let frame = decode_picture(&data, None, DecodeOptions::default()).expect("decode");

    let block1_flat = (0..8).all(|y| (0..8).all(|x| frame.y[y * 176 + x] == 16));
    assert!(block1_flat, "block 1 should be DC-only flat 16");

    let block3_has_variation =
        (8..16).any(|y| (0..8).any(|x| frame.y[y * 176 + x] != frame.y[8 * 176]));
    assert!(block3_has_variation, "block 3 should show AC variation");
}

fn write_single_tcoef_last(w: &mut BitWriter) {
    w.write_u32(0b0000_011, 7);
    w.write_bit(true);
    w.write_u32(0, 6);
    w.write_u32(1, 8);
}

#[test]
fn decode_inter_horizontal_mv_shifts_reference() {
    let mut reference = YuvFrame::grey(176, 144);
    for y in 0..144 {
        for x in 0..176 {
            reference.y[y * 176 + x] = (x % 256) as u8;
        }
    }
    for y in 0..72 {
        for x in 0..88 {
            reference.cb[y * 88 + x] = (x % 256) as u8;
            reference.cr[y * 88 + x] = (200 - (x % 200)) as u8;
        }
    }

    let mut w = BitWriter::new();
    w.write_u32(PSC_VALUE, PSC_BITS);
    w.write_u32(0, 8);
    w.write_bit(true);
    w.write_bit(false);
    w.write_bit(false);
    w.write_bit(false);
    w.write_bit(false);
    w.write_u32(0b010, 3);
    w.write_bit(true);
    w.write_bit(false);
    w.write_bit(false);
    w.write_bit(false);
    w.write_bit(false);

    for gob in 0..9 {
        w.write_u32(GBSC_VALUE, GBSC_BITS);
        w.write_u32(1, GN_BITS);
        w.write_u32(0, GFID_BITS);
        w.write_u32(8, GQUANT_BITS);
        for mb in 0..11 {
            if gob == 0 && mb == 0 {
                w.write_bit(false);
                w.write_bit(true);
                w.write_u32(0b11, 2);
                w.write_u32(0b0010, 4);
                w.write_bit(true);
            } else {
                w.write_bit(true);
            }
        }
    }
    while !w.is_byte_aligned() {
        w.write_bit(false);
    }
    let data = w.finish();

    let frame =
        decode_picture(&data, Some(&reference), DecodeOptions::default()).expect("decode");

    for y in 0..16 {
        for x in 0..16 {
            let src_x = (x + 1).min(175);
            assert_eq!(
                frame.y[y * 176 + x],
                reference.y[y * 176 + src_x],
                "luma ({x},{y}) shift mismatch"
            );
        }
    }
    for y in 0..16 {
        for x in 16..32 {
            assert_eq!(
                frame.y[y * 176 + x],
                reference.y[y * 176 + x],
                "skipped MB ({x},{y}) should be a verbatim copy"
            );
        }
    }
}

#[test]
fn decode_inter_umv_extends_mv_beyond_default_window() {
    let mut reference = YuvFrame::grey(176, 144);
    for y in 0..144 {
        for x in 0..176 {
            reference.y[y * 176 + x] = (x % 256) as u8;
        }
    }

    let mut w = BitWriter::new();
    w.write_u32(PSC_VALUE, PSC_BITS);
    w.write_u32(0, 8);
    w.write_bit(true);
    w.write_bit(false);
    w.write_bit(false);
    w.write_bit(false);
    w.write_bit(false);
    w.write_u32(0b010, 3);
    w.write_bit(true);
    w.write_bit(true);
    w.write_bit(false);
    w.write_bit(false);
    w.write_bit(false);

    for gob in 0..9 {
        w.write_u32(GBSC_VALUE, GBSC_BITS);
        w.write_u32(1, GN_BITS);
        w.write_u32(0, GFID_BITS);
        w.write_u32(8, GQUANT_BITS);
        for mb in 0..11 {
            if gob == 0 && (mb == 0 || mb == 1) {
                w.write_bit(false);
                w.write_bit(true);
                w.write_u32(0b11, 2);
                w.write_u32(0b0_0000_0000_0011_0, 13);
                w.write_bit(true);
            } else {
                w.write_bit(true);
            }
        }
    }
    while !w.is_byte_aligned() {
        w.write_bit(false);
    }
    let data = w.finish();

    let frame =
        decode_picture(&data, Some(&reference), DecodeOptions::default()).expect("decode");

    for y in 0..16 {
        assert_eq!(
            frame.y[y * 176 + 16],
            47,
            "UMV MB(1,0) pixel (16,{y}) should sample +31px to the right"
        );
    }
    assert_ne!(frame.y[16], 15, "UMV vector must not wrap like default");

    assert_eq!(frame.y[0], 16, "MB(0,0) +31 half-pel phase");
}

fn write_qcif_inter_ap_picture_header(w: &mut BitWriter, umv: bool) {
    w.write_u32(PSC_VALUE, PSC_BITS);
    w.write_u32(0, 8);
    w.write_bit(true);
    w.write_bit(false);
    w.write_bit(false);
    w.write_bit(false);
    w.write_bit(false);
    w.write_u32(0b010, 3);
    w.write_bit(true);
    w.write_bit(umv);
    w.write_bit(false);
    w.write_bit(true);
    w.write_bit(false);
}

fn write_skipped_mb(w: &mut BitWriter) {
    w.write_bit(true);
}

fn write_inter4v_mb_zero_mvds(w: &mut BitWriter) {
    w.write_bit(false);
    w.write_u32(0b010, 3);
    w.write_u32(0b11, 2);
    for _ in 0..4 {
        w.write_bit(true);
        w.write_bit(true);
    }
}

fn write_inter_single_mv_zero(w: &mut BitWriter) {
    w.write_bit(false);
    w.write_bit(true);
    w.write_u32(0b11, 2);
    w.write_bit(true);
    w.write_bit(true);
}

fn build_qcif_inter4v_zero_mv_first_mb_picture() -> Vec<u8> {
    let mut w = BitWriter::new();
    write_qcif_inter_ap_picture_header(&mut w, false);
    for gob in 0..9 {
        w.write_u32(GBSC_VALUE, GBSC_BITS);
        w.write_u32(1, GN_BITS);
        w.write_u32(0, GFID_BITS);
        w.write_u32(8, GQUANT_BITS);
        for mb in 0..11 {
            if gob == 0 && mb == 0 {
                write_inter4v_mb_zero_mvds(&mut w);
            } else {
                write_skipped_mb(&mut w);
            }
        }
    }
    while !w.is_byte_aligned() {
        w.write_bit(false);
    }
    w.finish()
}

fn build_qcif_inter1v_zero_mv_first_mb_picture() -> Vec<u8> {
    let mut w = BitWriter::new();
    write_qcif_inter_ap_picture_header(&mut w, false);
    for gob in 0..9 {
        w.write_u32(GBSC_VALUE, GBSC_BITS);
        w.write_u32(1, GN_BITS);
        w.write_u32(0, GFID_BITS);
        w.write_u32(8, GQUANT_BITS);
        for mb in 0..11 {
            if gob == 0 && mb == 0 {
                write_inter_single_mv_zero(&mut w);
            } else {
                write_skipped_mb(&mut w);
            }
        }
    }
    while !w.is_byte_aligned() {
        w.write_bit(false);
    }
    w.finish()
}

fn ramp_reference(luma_w: usize, luma_h: usize) -> YuvFrame {
    let mut r = YuvFrame::grey(luma_w, luma_h);
    for y in 0..luma_h {
        for x in 0..luma_w {
            r.y[y * luma_w + x] = ((x + y) % 256) as u8;
        }
    }
    let cw = luma_w / 2;
    let ch = luma_h / 2;
    for y in 0..ch {
        for x in 0..cw {
            r.cb[y * cw + x] = ((x * 2 + y) % 256) as u8;
            r.cr[y * cw + x] = ((x + y * 2) % 256) as u8;
        }
    }
    r
}

#[test]
fn decode_inter4v_zero_mvds_reproduces_reference_at_top_left() {
    let reference = ramp_reference(176, 144);
    let data = build_qcif_inter4v_zero_mv_first_mb_picture();
    let frame =
        decode_picture(&data, Some(&reference), DecodeOptions::default()).expect("decode");

    for y in 0..16 {
        for x in 0..16 {
            assert_eq!(
                frame.y[y * 176 + x],
                reference.y[y * 176 + x],
                "INTER4V zero-MV luma mismatch at ({x}, {y})"
            );
        }
    }
    for y in 0..8 {
        for x in 0..8 {
            assert_eq!(frame.cb[y * 88 + x], reference.cb[y * 88 + x]);
            assert_eq!(frame.cr[y * 88 + x], reference.cr[y * 88 + x]);
        }
    }
    assert_eq!(frame.y, reference.y);
    assert_eq!(frame.cb, reference.cb);
    assert_eq!(frame.cr, reference.cr);
}

#[test]
fn decode_inter4v_zero_equals_single_mv_zero() {
    let reference = ramp_reference(176, 144);
    let data_4v = build_qcif_inter4v_zero_mv_first_mb_picture();
    let data_1v = build_qcif_inter1v_zero_mv_first_mb_picture();
    let frame_4v =
        decode_picture(&data_4v, Some(&reference), DecodeOptions::default()).expect("4v");
    let frame_1v =
        decode_picture(&data_1v, Some(&reference), DecodeOptions::default()).expect("1v");
    assert_eq!(
        frame_4v.y, frame_1v.y,
        "INTER4V zero-MV luma must equal single-MV zero-MV luma"
    );
    assert_eq!(frame_4v.cb, frame_1v.cb);
    assert_eq!(frame_4v.cr, frame_1v.cr);
}

#[test]
fn decode_inter4v_uniform_reference_is_uniform_output() {
    let reference = YuvFrame::grey(176, 144);
    let data = build_qcif_inter4v_zero_mv_first_mb_picture();
    let frame =
        decode_picture(&data, Some(&reference), DecodeOptions::default()).expect("decode");
    assert!(
        frame.y.iter().all(|&p| p == 128),
        "flat-grey reference + INTER4V must give flat grey"
    );
    assert!(frame.cb.iter().all(|&p| p == 128));
    assert!(frame.cr.iter().all(|&p| p == 128));
}

#[test]
fn decode_inter4v_without_ap_is_not_implemented() {
    let reference = YuvFrame::grey(176, 144);
    let mut w = BitWriter::new();
    w.write_u32(PSC_VALUE, PSC_BITS);
    w.write_u32(0, 8);
    w.write_bit(true);
    w.write_bit(false);
    w.write_bit(false);
    w.write_bit(false);
    w.write_bit(false);
    w.write_u32(0b010, 3);
    w.write_bit(true);
    w.write_bit(false);
    w.write_bit(false);
    w.write_bit(false);
    w.write_bit(false);

    for gob in 0..9 {
        w.write_u32(GBSC_VALUE, GBSC_BITS);
        w.write_u32(1, GN_BITS);
        w.write_u32(0, GFID_BITS);
        w.write_u32(8, GQUANT_BITS);
        for mb in 0..11 {
            if gob == 0 && mb == 0 {
                w.write_bit(false);
                w.write_u32(0b010, 3);
                w.write_u32(0b11, 2);
                w.write_bit(true);
                w.write_bit(true);
            } else {
                w.write_bit(true);
            }
        }
    }
    while !w.is_byte_aligned() {
        w.write_bit(false);
    }
    let data = w.finish();
    let err = decode_picture(&data, Some(&reference), DecodeOptions::default()).unwrap_err();
    assert_eq!(err, Error::NotImplemented);
}

#[test]
fn decode_inter4v_after_intra_left_neighbour_runs_without_panic() {
    let reference = ramp_reference(176, 144);
    let mut w = BitWriter::new();
    write_qcif_inter_ap_picture_header(&mut w, false);
    for gob in 0..9 {
        w.write_u32(GBSC_VALUE, GBSC_BITS);
        w.write_u32(1, GN_BITS);
        w.write_u32(0, GFID_BITS);
        w.write_u32(8, GQUANT_BITS);
        for mb in 0..11 {
            if gob == 0 && mb == 0 {
                w.write_bit(false);
                w.write_u32(0b00011, 5);
                w.write_bit(false);
                w.write_bit(false);
                w.write_bit(true);
                w.write_bit(true);
                for _blk in 0..6 {
                    w.write_u32(0x10, 8);
                }
            } else if gob == 0 && mb == 1 {
                write_inter4v_mb_zero_mvds(&mut w);
            } else {
                write_skipped_mb(&mut w);
            }
        }
    }
    while !w.is_byte_aligned() {
        w.write_bit(false);
    }
    let data = w.finish();
    let frame =
        decode_picture(&data, Some(&reference), DecodeOptions::default()).expect("decode");
    for y in 0..16 {
        for x in 16..32 {
            assert_eq!(
                frame.y[y * 176 + x],
                reference.y[y * 176 + x],
                "INTER4V after INTRA neighbour at ({x}, {y})"
            );
        }
    }
    for y in 0..16 {
        for x in 0..16 {
            assert_eq!(frame.y[y * 176 + x], 16);
        }
    }
}

#[test]
fn classify_remote_mvs_b1_at_top_left_corner() {
    let current = [
        MotionVector::new(2, 0),
        MotionVector::new(4, 0),
        MotionVector::new(0, 2),
        MotionVector::new(0, 4),
    ];
    let (r_top, r_bot, s_left, s_right) = classify_remote_mvs(
        LumaBlockIndex::B1,
        &current,
        None,
        None,
        None,
        true,
        true,
        true,
        true,
    );
    assert_eq!(r_top, RemoteMv::Current);
    assert_eq!(s_left, RemoteMv::Current);
    assert_eq!(r_bot, RemoteMv::Vector(current[LumaBlockIndex::B3.index()]));
    assert_eq!(
        s_right,
        RemoteMv::Vector(current[LumaBlockIndex::B2.index()])
    );
}

#[test]
fn classify_remote_mvs_b3_bottom_remote_is_always_current() {
    let current = [
        MotionVector::new(2, 0),
        MotionVector::new(4, 0),
        MotionVector::new(0, 2),
        MotionVector::new(0, 4),
    ];
    let nb_above = Some(MbGridEntry {
        intra: false,
        not_coded: false,
        mv: MotionVector::new(8, 8),
        mvs4: [MotionVector::new(8, 8); 4],
        segment: 0,
    });
    let (r_top, r_bot, _s_left, _s_right) = classify_remote_mvs(
        LumaBlockIndex::B3,
        &current,
        nb_above,
        None,
        None,
        false,
        true,
        true,
        false,
    );
    assert_eq!(r_top, RemoteMv::Vector(current[LumaBlockIndex::B1.index()]));
    assert_eq!(r_bot, RemoteMv::Current);
}

#[test]
fn classify_remote_mvs_not_coded_neighbour_yields_zero() {
    let current = [MotionVector::new(1, 1); 4];
    let nb_left = Some(MbGridEntry {
        intra: false,
        not_coded: true,
        mv: MotionVector::new(0, 0),
        mvs4: [MotionVector::new(0, 0); 4],
        segment: 0,
    });
    let (_r_top, _r_bot, s_left, _s_right) = classify_remote_mvs(
        LumaBlockIndex::B1,
        &current,
        None,
        nb_left,
        None,
        true,
        false,
        true,
        true,
    );
    assert_eq!(s_left, RemoteMv::Zero);
}

#[test]
fn classify_remote_mvs_intra_neighbour_yields_current() {
    let current = [MotionVector::new(1, 1); 4];
    let nb_above = Some(MbGridEntry {
        intra: true,
        not_coded: false,
        mv: MotionVector::new(0, 0),
        mvs4: [MotionVector::new(0, 0); 4],
        segment: 0,
    });
    let (r_top, _r_bot, _s_left, _s_right) = classify_remote_mvs(
        LumaBlockIndex::B1,
        &current,
        nb_above,
        None,
        None,
        false,
        true,
        true,
        true,
    );
    assert_eq!(r_top, RemoteMv::Current);
}

#[test]
fn build_4mv_neighbourhood_intra_left_collapses_to_none() {
    let mb_cols = 11;
    let mut grid = vec![MbGridEntry::outside(); mb_cols * 9];
    grid[mb_cols] = MbGridEntry {
        intra: true,
        not_coded: false,
        mv: MotionVector::new(5, 5),
        mvs4: [MotionVector::new(5, 5); 4],
        segment: 0,
    };
    let n = build_4mv_neighbourhood(&grid, mb_cols, 1, 1);
    assert!(n.left.is_none());
}

#[test]
fn build_4mv_neighbourhood_coded_left_exposes_mvs() {
    let mb_cols = 11;
    let mut grid = vec![MbGridEntry::outside(); mb_cols * 9];
    let mvs = [
        MotionVector::new(1, 1),
        MotionVector::new(2, 2),
        MotionVector::new(3, 3),
        MotionVector::new(4, 4),
    ];
    grid[mb_cols] = MbGridEntry {
        intra: false,
        not_coded: false,
        mv: mvs[0],
        mvs4: mvs,
        segment: 0,
    };
    let n = build_4mv_neighbourhood(&grid, mb_cols, 1, 1);
    assert_eq!(n.left, Some(mvs));
    assert_eq!(n.above, Some([MotionVector::default(); 4]));
}

#[test]
fn luma_block_grid_pos_figure5() {
    assert_eq!(luma_block_grid_pos(3, 5, 0), (6, 10));
    assert_eq!(luma_block_grid_pos(3, 5, 1), (7, 10));
    assert_eq!(luma_block_grid_pos(3, 5, 2), (6, 11));
    assert_eq!(luma_block_grid_pos(3, 5, 3), (7, 11));
}

#[test]
fn aic_state_initially_outside_everywhere() {
    let state = AicState::new(4, 3);
    for m in state.luma_meta.iter() {
        assert_eq!(*m, AicBlockMeta::outside());
    }
    for m in state.cb_meta.iter().chain(state.cr_meta.iter()) {
        assert_eq!(*m, AicBlockMeta::outside());
    }
    assert_eq!(state.luma_block_cols, 8);
    assert_eq!(state.chroma_block_cols, 4);
}

#[test]
fn record_non_intra_macroblock_clears_intra_flag() {
    let mut state = AicState::new(4, 3);
    state.luma_meta[2 * 8 + 1] = AicBlockMeta {
        intra: true,
        segment: 0,
    };
    state.record_non_intra_macroblock(1, 1, 0);
    let positions = [(2, 2), (3, 2), (2, 3), (3, 3)];
    for (bx, by) in positions {
        let m = state.luma_meta[by * 8 + bx];
        assert!(
            !m.intra,
            "block ({}, {}) should be marked non-intra",
            bx, by
        );
        assert_eq!(m.segment, 0);
    }
    let chroma_idx = 4 + 1;
    assert!(!state.cb_meta[chroma_idx].intra);
    assert!(!state.cr_meta[chroma_idx].intra);
    assert!(state.luma_meta[2 * 8 + 1].intra);
}

#[test]
fn aic_neighbour_above_at_row0_is_none() {
    let state = AicState::new(4, 3);
    let n = aic_luma_neighbour_above(&state, 2, 0, 0);
    assert!(!n.is_available());
}

#[test]
fn aic_neighbour_left_at_col0_is_none() {
    let state = AicState::new(4, 3);
    let n = aic_luma_neighbour_left(&state, 0, 1, 0);
    assert!(!n.is_available());
}

#[test]
fn aic_neighbour_segment_mismatch_collapses_to_none() {
    let mut state = AicState::new(4, 3);
    state.luma_meta[2] = AicBlockMeta {
        intra: true,
        segment: 0,
    };
    state.luma_rec[2][0] = 900;
    let n = aic_luma_neighbour_above(&state, 2, 1, 1);
    assert!(
        !n.is_available(),
        "segment mismatch must collapse the candidate"
    );
}

#[test]
fn aic_neighbour_non_intra_collapses_to_none() {
    let mut state = AicState::new(4, 3);
    state.luma_meta[2] = AicBlockMeta {
        intra: false,
        segment: 0,
    };
    state.luma_rec[2][0] = 900;
    let n = aic_luma_neighbour_above(&state, 2, 1, 0);
    assert!(!n.is_available());
}

#[test]
fn aic_neighbour_intra_same_segment_is_available() {
    let mut state = AicState::new(4, 3);
    state.luma_meta[2] = AicBlockMeta {
        intra: true,
        segment: 0,
    };
    state.luma_rec[2][0] = 900;
    let n = aic_luma_neighbour_above(&state, 2, 1, 0);
    match n {
        Neighbour::Available(arr) => assert_eq!(arr[0], 900),
        Neighbour::Missing => panic!("expected Available, got None"),
    }
}

fn build_qcif_aic_intra_zero_picture() -> Vec<u8> {
    let mut w = BitWriter::new();
    w.write_u32(PSC_VALUE, PSC_BITS);
    w.write_u32(0, 8);
    w.write_bit(true);
    w.write_bit(false);
    w.write_bit(false);
    w.write_bit(false);
    w.write_bit(false);
    w.write_u32(0b010, 3);
    w.write_bit(false);
    w.write_bit(false);
    w.write_bit(false);
    w.write_bit(false);
    w.write_bit(false);

    for _gob in 0..9 {
        w.write_u32(GBSC_VALUE, GBSC_BITS);
        w.write_u32(1, GN_BITS);
        w.write_u32(0, GFID_BITS);
        w.write_u32(8, GQUANT_BITS);
        for _mb in 0..11 {
            w.write_bit(true);
            w.write_bit(false);
            w.write_bit(false);
            w.write_bit(false);
            w.write_bit(true);
            w.write_bit(true);
        }
    }
    while !w.is_byte_aligned() {
        w.write_bit(false);
    }
    w.finish()
}

#[test]
fn decode_qcif_aic_intra_dc_only_zero_residuals() {
    let data = build_qcif_aic_intra_zero_picture();
    let frame = decode_picture(
        &data,
        None,
        DecodeOptions {
            deblock: false,
            aic: true,
        },
    )
    .expect("AIC driver should decode the zero-residual picture");
    assert_eq!(frame.luma_width, 176);
    assert_eq!(frame.luma_height, 144);
    let bad_luma = frame.y.iter().filter(|&&p| p != 128).count();
    let bad_cb = frame.cb.iter().filter(|&&p| p != 128).count();
    let bad_cr = frame.cr.iter().filter(|&&p| p != 128).count();
    assert_eq!(bad_luma, 0, "luma is not uniform 128");
    assert_eq!(bad_cb, 0, "cb is not uniform 128");
    assert_eq!(bad_cr, 0, "cr is not uniform 128");
}

fn build_qcif_aic_intra_dc_plus1_picture() -> Vec<u8> {
    let mut w = BitWriter::new();
    w.write_u32(PSC_VALUE, PSC_BITS);
    w.write_u32(0, 8);
    w.write_bit(true);
    w.write_bit(false);
    w.write_bit(false);
    w.write_bit(false);
    w.write_bit(false);
    w.write_u32(0b010, 3);
    w.write_bit(false);
    w.write_bit(false);
    w.write_bit(false);
    w.write_bit(false);
    w.write_bit(false);

    for _gob in 0..9 {
        w.write_u32(GBSC_VALUE, GBSC_BITS);
        w.write_u32(1, GN_BITS);
        w.write_u32(0, GFID_BITS);
        w.write_u32(8, GQUANT_BITS);
        for _mb in 0..11 {
            w.write_u32(0b011, 3);
            w.write_bit(false);
            w.write_u32(0b11, 2);
            for _blk in 0..6 {
                w.write_u32(0b0111, 4);
                w.write_bit(false);
            }
        }
    }
    while !w.is_byte_aligned() {
        w.write_bit(false);
    }
    w.finish()
}

#[test]
fn decode_qcif_aic_intra_dc_plus1_predicts_across_blocks() {
    let data = build_qcif_aic_intra_dc_plus1_picture();
    let frame = decode_picture(
        &data,
        None,
        DecodeOptions {
            deblock: false,
            aic: true,
        },
    )
    .expect("AIC driver should decode the +1-DC picture");
    let luma_w = frame.luma_width;
    let top_left_block0_value = frame.y[0];
    assert_eq!(top_left_block0_value, 130, "top-left luma block pixel");
    for row in 0..8 {
        for col in 0..8 {
            assert_eq!(
                frame.y[row * luma_w + col],
                130,
                "top-left block ({}, {}) should be 130",
                col,
                row
            );
        }
    }
    let block1_value = frame.y[8];
    assert_eq!(
        block1_value, 132,
        "MB(0,0) block-1 should see block-B predictor → 132"
    );
    for row in 0..8 {
        for col in 8..16 {
            assert_eq!(
                frame.y[row * luma_w + col],
                132,
                "block 1 sample at ({}, {}) should be 132",
                col,
                row
            );
        }
    }
    let block2_value = frame.y[8 * luma_w];
    assert_eq!(block2_value, 132, "block 2 should mirror block 1's 132");
    let block3_value = frame.y[8 * luma_w + 8];
    assert_eq!(
        block3_value, 134,
        "block 3 should see averaged A+B predictor → 134"
    );
}

#[test]
fn decode_qcif_aic_intra_segment_isolates_gobs() {
    let data = build_qcif_aic_intra_dc_plus1_picture();
    let frame = decode_picture(
        &data,
        None,
        DecodeOptions {
            deblock: false,
            aic: true,
        },
    )
    .expect("decode");
    let luma_w = frame.luma_width;
    let across_gob_block0 = frame.y[16 * luma_w];
    assert_eq!(
        across_gob_block0, 130,
        "AIC INTRA top-left of GOB 1 must NOT pick up GOB 0's neighbour"
    );
}

fn write_plus_qcif_intra_header(
    w: &mut BitWriter,
    advanced_intra: bool,
    deblocking: bool,
    advanced_prediction: bool,
) {
    w.write_u32(PSC_VALUE, PSC_BITS);
    w.write_u32(0, 8);
    w.write_bit(true);
    w.write_bit(false);
    w.write_bit(false);
    w.write_bit(false);
    w.write_bit(false);
    w.write_u32(0b111, 3);
    w.write_u32(0b001, 3);
    w.write_u32(0b010, 3);
    w.write_bit(false);
    w.write_bit(false);
    w.write_bit(false);
    w.write_bit(advanced_prediction);
    w.write_bit(advanced_intra);
    w.write_bit(deblocking);
    w.write_bit(false);
    w.write_bit(false);
    w.write_bit(false);
    w.write_bit(false);
    w.write_bit(false);
    w.write_bit(true);
    w.write_u32(0b000, 3);
    w.write_u32(0b000, 3);
    w.write_bit(false);
    w.write_bit(false);
    w.write_bit(false);
    w.write_bit(false);
    w.write_bit(false);
    w.write_bit(true);
    w.write_bit(false);
}

fn build_qcif_plus_aic_intra_dc_plus1_picture(
    advanced_intra: bool,
    deblocking: bool,
) -> Vec<u8> {
    let mut w = BitWriter::new();
    write_plus_qcif_intra_header(&mut w, advanced_intra, deblocking, false);

    for _gob in 0..9 {
        w.write_u32(GBSC_VALUE, GBSC_BITS);
        w.write_u32(1, GN_BITS);
        w.write_u32(0, GFID_BITS);
        w.write_u32(8, GQUANT_BITS);
        for _mb in 0..11 {
            w.write_u32(0b011, 3);
            if advanced_intra {
                w.write_bit(false);
            }
            w.write_u32(0b11, 2);
            for _blk in 0..6 {
                w.write_u32(0b0111, 4);
                w.write_bit(false);
            }
        }
    }
    while !w.is_byte_aligned() {
        w.write_bit(false);
    }
    w.finish()
}

#[test]
fn decode_picture_layer_plus_auto_aic_from_opptype() {
    let data = build_qcif_plus_aic_intra_dc_plus1_picture(true, false);
    let frame = decode_picture_layer(&data, None, DecodeOptions::default())
        .expect("PLUSPTYPE AIC INTRA picture should decode");
    assert_eq!(frame.luma_width, 176);
    assert_eq!(frame.luma_height, 144);
    let luma_w = frame.luma_width;
    assert_eq!(frame.y[0], 130, "MB(0,0) block 0 with no neighbours");
    assert_eq!(frame.y[8], 132, "MB(0,0) block 1 sees block-B");
    assert_eq!(frame.y[8 * luma_w], 132, "MB(0,0) block 2 sees block-A");
    assert_eq!(frame.y[8 * luma_w + 8], 134, "MB(0,0) block 3 averages A+B");
}

#[test]
fn decode_picture_layer_plus_no_aic_when_opptype_bit_off() {
    let mut w = BitWriter::new();
    write_plus_qcif_intra_header(&mut w, false, false, false);
    for _gob in 0..9 {
        w.write_u32(GBSC_VALUE, GBSC_BITS);
        w.write_u32(1, GN_BITS);
        w.write_u32(0, GFID_BITS);
        w.write_u32(8, GQUANT_BITS);
        for _mb in 0..11 {
            w.write_bit(true);
            w.write_bit(false);
            w.write_bit(false);
            w.write_bit(true);
            w.write_bit(true);
            for _blk in 0..6 {
                w.write_u32(0x40, 8);
            }
        }
    }
    while !w.is_byte_aligned() {
        w.write_bit(false);
    }
    let data = w.finish();

    let frame = decode_picture_layer(&data, None, DecodeOptions::default())
        .expect("PLUSPTYPE non-AIC INTRA picture should decode");
    assert_eq!(frame.luma_width, 176);
    let p = frame.y[0];
    assert_ne!(p, 130, "AIC was incorrectly activated (no-neighbour path)");
    assert_ne!(p, 132, "AIC was incorrectly activated (block-B path)");
    assert_ne!(p, 134, "AIC was incorrectly activated (averaged path)");
}

#[test]
fn decode_picture_layer_baseline_passthrough_matches_decode_picture() {
    let data = build_qcif_intra_dc_picture(0x40);
    let via_layer = decode_picture_layer(&data, None, DecodeOptions::default())
        .expect("baseline path through decode_picture_layer");
    let via_baseline = decode_picture(&data, None, DecodeOptions::default()).expect("baseline");
    assert_eq!(via_layer, via_baseline);
}

#[test]
fn decode_picture_layer_caller_aic_overrides_wire_off() {
    let data = build_qcif_plus_aic_intra_dc_plus1_picture(true, false);
    let frame = decode_picture_layer(
        &data,
        None,
        DecodeOptions {
            aic: true,
            deblock: false,
        },
    )
    .expect("decode");
    let luma_w = frame.luma_width;
    assert_eq!(frame.y[0], 130);
    assert_eq!(frame.y[8 * luma_w + 8], 134);
}

#[test]
fn decode_picture_layer_plus_auto_deblock_from_opptype() {
    let data = build_qcif_plus_aic_intra_dc_plus1_picture(true, true);
    let frame = decode_picture_layer(&data, None, DecodeOptions::default())
        .expect("PLUSPTYPE AIC+DF picture should decode");
    assert_eq!(frame.y[0], 130);
}

#[test]
fn decode_picture_layer_plus_refuses_sac() {
    let mut w = BitWriter::new();
    w.write_u32(PSC_VALUE, PSC_BITS);
    w.write_u32(0, 8);
    w.write_bit(true);
    w.write_bit(false);
    w.write_bit(false);
    w.write_bit(false);
    w.write_bit(false);
    w.write_u32(0b111, 3);
    w.write_u32(0b001, 3);
    w.write_u32(0b010, 3);
    w.write_bit(false);
    w.write_bit(false);
    w.write_bit(true);
    w.write_bit(false);
    w.write_bit(false);
    w.write_bit(false);
    w.write_bit(false);
    w.write_bit(false);
    w.write_bit(false);
    w.write_bit(false);
    w.write_bit(false);
    w.write_bit(true);
    w.write_u32(0, 3);
    w.write_u32(0b000, 3);
    w.write_bit(false);
    w.write_bit(false);
    w.write_bit(false);
    w.write_bit(false);
    w.write_bit(false);
    w.write_bit(true);
    w.write_bit(false);
    let data = w.finish();
    let r = decode_picture_layer(&data, None, DecodeOptions::default());
    assert!(matches!(r, Err(Error::NotImplemented)));
}

#[test]
fn decode_picture_layer_plus_refuses_rectangular_slice() {
    let mut w = BitWriter::new();
    w.write_u32(PSC_VALUE, PSC_BITS);
    w.write_u32(0, 8);
    w.write_bit(true);
    w.write_bit(false);
    w.write_bit(false);
    w.write_bit(false);
    w.write_bit(false);
    w.write_u32(0b111, 3);
    w.write_u32(0b001, 3);
    w.write_u32(0b010, 3);
    w.write_bit(false);
    w.write_bit(false);
    w.write_bit(false);
    w.write_bit(false);
    w.write_bit(false);
    w.write_bit(false);
    w.write_bit(true);
    w.write_bit(false);
    w.write_bit(false);
    w.write_bit(false);
    w.write_bit(false);
    w.write_bit(true);
    w.write_u32(0, 3);
    w.write_u32(0b000, 3);
    w.write_bit(false);
    w.write_bit(false);
    w.write_bit(false);
    w.write_bit(false);
    w.write_bit(false);
    w.write_bit(true);
    w.write_bit(false);
    w.write_u32(0b10, 2);
    let data = w.finish();
    let r = decode_picture_layer(&data, None, DecodeOptions::default());
    assert!(matches!(r, Err(Error::NotImplemented)));
}

fn write_qcif_ss_intra_header(w: &mut BitWriter) {
    w.write_u32(PSC_VALUE, PSC_BITS);
    w.write_u32(0, 8);
    w.write_bit(true);
    w.write_bit(false);
    w.write_bit(false);
    w.write_bit(false);
    w.write_bit(false);
    w.write_u32(0b111, 3);
    w.write_u32(0b001, 3);
    w.write_u32(0b010, 3);
    for _ in 0..6 {
        w.write_bit(false);
    }
    w.write_bit(true);
    for _ in 0..4 {
        w.write_bit(false);
    }
    w.write_bit(true);
    w.write_u32(0b000, 3);
    w.write_u32(0b000, 3);
    w.write_bit(false);
    w.write_bit(false);
    w.write_bit(false);
    w.write_bit(false);
    w.write_bit(false);
    w.write_bit(true);
    w.write_bit(false);
    w.write_u32(0b00, 2);
}

fn write_intra_dc_mb(w: &mut BitWriter, dc_byte: u32) {
    w.write_bit(true);
    w.write_bit(false);
    w.write_bit(false);
    w.write_bit(true);
    w.write_bit(true);
    for _ in 0..6 {
        w.write_u32(dc_byte, 8);
    }
}

fn build_qcif_ss_single_slice_intra(dc_byte: u32) -> Vec<u8> {
    let mut w = BitWriter::new();
    write_qcif_ss_intra_header(&mut w);
    w.write_u32(8, SQUANT_BITS);
    w.write_u32(1, SEPB_BITS);
    w.write_u32(0, 7);
    w.write_u32(1, SEPB_BITS);
    for _ in 0..99 {
        write_intra_dc_mb(&mut w, dc_byte);
    }
    while !w.is_byte_aligned() {
        w.write_bit(false);
    }
    w.finish()
}

#[test]
fn decode_qcif_ss_single_slice_intra_uniform() {
    let data = build_qcif_ss_single_slice_intra(0x10);
    let frame = decode_picture_layer(&data, None, DecodeOptions::default())
        .expect("slice-structured decode");
    assert_eq!(frame.luma_width, 176);
    assert_eq!(frame.luma_height, 144);
    assert!(frame.y.iter().all(|&p| p == 16), "luma not uniform 16");
    assert!(frame.cb.iter().all(|&p| p == 16), "cb not uniform 16");
    assert!(frame.cr.iter().all(|&p| p == 16), "cr not uniform 16");
    let gob = decode_picture(
        &build_qcif_intra_dc_picture(0x10),
        None,
        DecodeOptions::default(),
    )
    .expect("gob decode");
    assert_eq!(frame.y, gob.y);
    assert_eq!(frame.cb, gob.cb);
    assert_eq!(frame.cr, gob.cr);
}

fn build_qcif_ss_two_slice_intra(dc_byte: u32, split: u32) -> Vec<u8> {
    assert!((1..99).contains(&split));
    let mut w = BitWriter::new();
    write_qcif_ss_intra_header(&mut w);
    w.write_u32(8, SQUANT_BITS);
    w.write_u32(1, SEPB_BITS);
    w.write_u32(0, 7);
    w.write_u32(1, SEPB_BITS);
    for _ in 0..split {
        write_intra_dc_mb(&mut w, dc_byte);
    }
    while !w.is_byte_aligned() {
        w.write_bit(false);
    }
    w.write_u32(SSC_VALUE, SSC_BITS);
    w.write_u32(1, SEPB_BITS);
    w.write_u32(split, 7);
    w.write_u32(8, SQUANT_BITS);
    w.write_u32(1, SEPB_BITS);
    w.write_u32(0, SLICE_GFID_BITS);
    for _ in split..99 {
        write_intra_dc_mb(&mut w, dc_byte);
    }
    while !w.is_byte_aligned() {
        w.write_bit(false);
    }
    w.finish()
}

#[test]
fn decode_qcif_ss_two_slice_intra_matches_single() {
    let two = build_qcif_ss_two_slice_intra(0x10, 40);
    let frame =
        decode_picture_layer(&two, None, DecodeOptions::default()).expect("two-slice decode");
    assert!(frame.y.iter().all(|&p| p == 16));
    assert!(frame.cb.iter().all(|&p| p == 16));
    let single = decode_picture_layer(
        &build_qcif_ss_single_slice_intra(0x10),
        None,
        DecodeOptions::default(),
    )
    .expect("single-slice decode");
    assert_eq!(frame.y, single.y);
    assert_eq!(frame.cb, single.cb);
    assert_eq!(frame.cr, single.cr);
}

#[test]
fn decode_qcif_ss_non_increasing_mba_rejected() {
    let mut w = BitWriter::new();
    write_qcif_ss_intra_header(&mut w);
    w.write_u32(8, SQUANT_BITS);
    w.write_u32(1, SEPB_BITS);
    w.write_u32(0, 7);
    w.write_u32(1, SEPB_BITS);
    write_intra_dc_mb(&mut w, 0x10);
    while !w.is_byte_aligned() {
        w.write_bit(false);
    }
    w.write_u32(SSC_VALUE, SSC_BITS);
    w.write_u32(1, SEPB_BITS);
    w.write_u32(0, 7);
    w.write_u32(8, SQUANT_BITS);
    w.write_u32(1, SEPB_BITS);
    w.write_u32(0, SLICE_GFID_BITS);
    write_intra_dc_mb(&mut w, 0x10);
    while !w.is_byte_aligned() {
        w.write_bit(false);
    }
    let data = w.finish();
    let r = decode_picture_layer(&data, None, DecodeOptions::default());
    assert!(matches!(r, Err(Error::BadSliceCoverage)));
}

#[test]
fn decode_qcif_ss_incomplete_coverage_rejected() {
    let mut w = BitWriter::new();
    write_qcif_ss_intra_header(&mut w);
    w.write_u32(8, SQUANT_BITS);
    w.write_u32(1, SEPB_BITS);
    w.write_u32(0, 7);
    w.write_u32(1, SEPB_BITS);
    for _ in 0..50 {
        write_intra_dc_mb(&mut w, 0x10);
    }
    while !w.is_byte_aligned() {
        w.write_bit(false);
    }
    let data = w.finish();
    let r = decode_picture_layer(&data, None, DecodeOptions::default());
    assert!(r.is_err());
    if let Err(e) = r {
        assert!(
            matches!(e, Error::BadSliceCoverage | Error::UnexpectedEof),
            "unexpected error {e:?}"
        );
    }
}

fn write_qcif_ss_inter_header(w: &mut BitWriter) {
    w.write_u32(PSC_VALUE, PSC_BITS);
    w.write_u32(0, 8);
    w.write_bit(true);
    w.write_bit(false);
    w.write_bit(false);
    w.write_bit(false);
    w.write_bit(false);
    w.write_u32(0b111, 3);
    w.write_u32(0b001, 3);
    w.write_u32(0b010, 3);
    for _ in 0..6 {
        w.write_bit(false);
    }
    w.write_bit(true);
    for _ in 0..4 {
        w.write_bit(false);
    }
    w.write_bit(true);
    w.write_u32(0b000, 3);
    w.write_u32(0b001, 3);
    w.write_bit(false);
    w.write_bit(false);
    w.write_bit(false);
    w.write_bit(false);
    w.write_bit(false);
    w.write_bit(true);
    w.write_bit(false);
    w.write_u32(0b00, 2);
}

#[test]
fn decode_qcif_ss_inter_all_skipped_copies_reference() {
    let reference = ramp_reference(176, 144);
    let mut w = BitWriter::new();
    write_qcif_ss_inter_header(&mut w);
    w.write_u32(8, SQUANT_BITS);
    w.write_u32(1, SEPB_BITS);
    w.write_u32(0, 7);
    w.write_u32(1, SEPB_BITS);
    for _ in 0..99 {
        write_skipped_mb(&mut w);
    }
    while !w.is_byte_aligned() {
        w.write_bit(false);
    }
    let data = w.finish();
    let frame = decode_picture_layer(&data, Some(&reference), DecodeOptions::default())
        .expect("ss inter decode");
    assert_eq!(frame.y, reference.y);
    assert_eq!(frame.cb, reference.cb);
    assert_eq!(frame.cr, reference.cr);
}

#[test]
fn decode_qcif_ss_inter_two_slice_coded_head_zero_mv() {
    let reference = ramp_reference(176, 144);
    let split = 40u32;
    let mut w = BitWriter::new();
    write_qcif_ss_inter_header(&mut w);
    w.write_u32(8, SQUANT_BITS);
    w.write_u32(1, SEPB_BITS);
    w.write_u32(0, 7);
    w.write_u32(1, SEPB_BITS);
    for _ in 0..split {
        write_skipped_mb(&mut w);
    }
    while !w.is_byte_aligned() {
        w.write_bit(false);
    }
    w.write_u32(SSC_VALUE, SSC_BITS);
    w.write_u32(1, SEPB_BITS);
    w.write_u32(split, 7);
    w.write_u32(8, SQUANT_BITS);
    w.write_u32(1, SEPB_BITS);
    w.write_u32(0, SLICE_GFID_BITS);
    write_inter_single_mv_zero(&mut w);
    for _ in (split + 1)..99 {
        write_skipped_mb(&mut w);
    }
    while !w.is_byte_aligned() {
        w.write_bit(false);
    }
    let data = w.finish();
    let frame = decode_picture_layer(&data, Some(&reference), DecodeOptions::default())
        .expect("ss inter two-slice decode");
    assert_eq!(frame.y, reference.y);
    assert_eq!(frame.cb, reference.cb);
    assert_eq!(frame.cr, reference.cr);
}

fn write_plus_custom_intra_header(w: &mut BitWriter, luma_width: u32, luma_height: u32) {
    assert!(luma_width % 4 == 0 && (4..=2048).contains(&luma_width));
    assert!(luma_height % 4 == 0 && (4..=1152).contains(&luma_height));
    w.write_u32(PSC_VALUE, PSC_BITS);
    w.write_u32(0, 8);
    w.write_bit(true);
    w.write_bit(false);
    w.write_bit(false);
    w.write_bit(false);
    w.write_bit(false);
    w.write_u32(0b111, 3);
    w.write_u32(0b001, 3);
    w.write_u32(0b110, 3);
    for _ in 0..11 {
        w.write_bit(false);
    }
    w.write_bit(true);
    w.write_u32(0b000, 3);
    w.write_u32(0b000, 3);
    w.write_bit(false);
    w.write_bit(false);
    w.write_bit(false);
    w.write_bit(false);
    w.write_bit(false);
    w.write_bit(true);
    w.write_bit(false);
    let pwi = (luma_width / 4) - 1;
    let phi = luma_height / 4;
    w.write_u32(0b0001, 4);
    w.write_u32(pwi, 9);
    w.write_bit(true);
    w.write_u32(phi, 9);
}

fn build_custom_176x144_intra_dc_picture(dc_byte: u32) -> Vec<u8> {
    let mut w = BitWriter::new();
    write_plus_custom_intra_header(&mut w, 176, 144);
    for _gob in 0..9 {
        w.write_u32(GBSC_VALUE, GBSC_BITS);
        w.write_u32(1, GN_BITS);
        w.write_u32(0, GFID_BITS);
        w.write_u32(8, GQUANT_BITS);
        for _mb in 0..11 {
            w.write_bit(true);
            w.write_bit(false);
            w.write_bit(false);
            w.write_bit(true);
            w.write_bit(true);
            for _blk in 0..6 {
                w.write_u32(dc_byte, 8);
            }
        }
    }
    while !w.is_byte_aligned() {
        w.write_bit(false);
    }
    w.finish()
}

#[test]
fn decode_picture_layer_plus_custom_176x144_matches_qcif() {
    let custom_data = build_custom_176x144_intra_dc_picture(0x10);
    let qcif_data = build_qcif_intra_dc_picture(0x10);
    let custom_frame = decode_picture_layer(&custom_data, None, DecodeOptions::default())
        .expect("custom 176x144 PLUSPTYPE picture should decode");
    let qcif_frame = decode_picture_layer(&qcif_data, None, DecodeOptions::default())
        .expect("baseline QCIF picture should decode");
    assert_eq!(custom_frame.luma_width, 176);
    assert_eq!(custom_frame.luma_height, 144);
    assert_eq!(custom_frame, qcif_frame);
}

#[test]
fn picture_layout_custom_dimensions_table4_boundaries() {
    let l = PictureLayout::for_custom_dimensions(176, 144).expect("176x144 legal");
    assert_eq!(l.num_gobs, 9);
    assert_eq!(l.mb_rows_per_gob, 1);
    let l = PictureLayout::for_custom_dimensions(176, 400).expect("176x400 legal");
    assert_eq!(l.mb_rows_per_gob, 1);
    assert_eq!(l.num_gobs, 25);
    let l = PictureLayout::for_custom_dimensions(176, 416).expect("176x416 legal");
    assert_eq!(l.mb_rows_per_gob, 2);
    assert_eq!(l.num_gobs, 13);
    let l = PictureLayout::for_custom_dimensions(176, 800).expect("176x800 legal");
    assert_eq!(l.mb_rows_per_gob, 2);
    assert_eq!(l.num_gobs, 25);
    let l = PictureLayout::for_custom_dimensions(176, 816).expect("176x816 legal");
    assert_eq!(l.mb_rows_per_gob, 4);
    assert_eq!(l.num_gobs, 13);
    let l = PictureLayout::for_custom_dimensions(176, 1152).expect("176x1152 legal");
    assert_eq!(l.mb_rows_per_gob, 4);
    assert_eq!(l.num_gobs, 18);
    let l = PictureLayout::for_custom_dimensions(176, 432).expect("176x432 legal");
    assert_eq!(l.mb_rows_per_gob, 2);
    assert_eq!(l.num_gobs, 14);
}

#[test]
fn picture_layout_custom_dimensions_rejects_out_of_range() {
    assert!(PictureLayout::for_custom_dimensions(0, 144).is_none());
    assert!(PictureLayout::for_custom_dimensions(176, 0).is_none());
    assert!(PictureLayout::for_custom_dimensions(2064, 144).is_none());
    assert!(PictureLayout::for_custom_dimensions(176, 1168).is_none());
    assert!(PictureLayout::for_custom_dimensions(180, 144).is_none());
    assert!(PictureLayout::for_custom_dimensions(176, 148).is_none());
    assert!(PictureLayout::for_custom_dimensions(177, 144).is_none());
    assert!(PictureLayout::for_custom_dimensions(176, 145).is_none());
}

#[test]
fn picture_layout_for_source_format_returns_baseline_grids() {
    let l = PictureLayout::for_source_format(H263SourceFormat::SubQcif).unwrap();
    assert_eq!((l.luma_width, l.luma_height), (128, 96));
    assert_eq!((l.num_gobs, l.mb_rows_per_gob), (6, 1));
    let l = PictureLayout::for_source_format(H263SourceFormat::Qcif).unwrap();
    assert_eq!((l.luma_width, l.luma_height), (176, 144));
    assert_eq!((l.num_gobs, l.mb_rows_per_gob), (9, 1));
    let l = PictureLayout::for_source_format(H263SourceFormat::Cif).unwrap();
    assert_eq!((l.luma_width, l.luma_height), (352, 288));
    assert_eq!((l.num_gobs, l.mb_rows_per_gob), (18, 1));
    let l = PictureLayout::for_source_format(H263SourceFormat::Cif4).unwrap();
    assert_eq!((l.luma_width, l.luma_height), (704, 576));
    assert_eq!((l.num_gobs, l.mb_rows_per_gob), (18, 2));
    let l = PictureLayout::for_source_format(H263SourceFormat::Cif16).unwrap();
    assert_eq!((l.luma_width, l.luma_height), (1408, 1152));
    assert_eq!((l.num_gobs, l.mb_rows_per_gob), (18, 4));
    assert!(PictureLayout::for_source_format(H263SourceFormat::Reserved110).is_none());
}

#[test]
fn decode_picture_layer_with_inherited_ufep1_custom_format_captures_dimensions() {
    let data = build_custom_176x144_intra_dc_picture(0x10);
    let outcome = decode_picture_layer_with_inherited(
        &data,
        None,
        DecodeOptions::default(),
        InheritedExtendedState::default(),
    )
    .expect("UFEP=001 custom-format picture should decode");
    assert_eq!(outcome.frame.luma_width, 176);
    assert_eq!(outcome.frame.luma_height, 144);
    assert_eq!(
        outcome.inherited.source_format,
        Some(PlusSourceFormat::Custom),
        "snapshot carries Custom source-format code"
    );
    assert_eq!(
        outcome.inherited.custom_dimensions,
        Some((176, 144)),
        "snapshot carries the CPFMT-derived luma dimensions"
    );
}

#[test]
fn decode_picture_layer_with_inherited_ufep0_custom_format_uses_inherited_dimensions() {
    let mut w = BitWriter::new();
    w.write_u32(PSC_VALUE, PSC_BITS);
    w.write_u32(0, 8);
    w.write_bit(true);
    w.write_bit(false);
    w.write_bit(false);
    w.write_bit(false);
    w.write_bit(false);
    w.write_u32(0b111, 3);
    w.write_u32(0b000, 3);
    w.write_u32(0b000, 3);
    w.write_bit(false);
    w.write_bit(false);
    w.write_bit(false);
    w.write_bit(false);
    w.write_bit(false);
    w.write_bit(true);
    w.write_bit(false);
    for _gob in 0..9 {
        w.write_u32(GBSC_VALUE, GBSC_BITS);
        w.write_u32(1, GN_BITS);
        w.write_u32(0, GFID_BITS);
        w.write_u32(8, GQUANT_BITS);
        for _mb in 0..11 {
            w.write_bit(true);
            w.write_bit(false);
            w.write_bit(false);
            w.write_bit(true);
            w.write_bit(true);
            for _blk in 0..6 {
                w.write_u32(0x10, 8);
            }
        }
    }
    while !w.is_byte_aligned() {
        w.write_bit(false);
    }
    let data = w.finish();
    let inherited = InheritedExtendedState {
        custom_pcf: false,
        source_format: Some(PlusSourceFormat::Custom),
        custom_dimensions: Some((176, 144)),
        umv: false,
        advanced_prediction: false,
        advanced_intra: false,
        deblocking: false,
    };
    let outcome =
        decode_picture_layer_with_inherited(&data, None, DecodeOptions::default(), inherited)
            .expect(
                "UFEP=000 PLUSPTYPE custom-format picture should decode with inherited dims",
            );
    assert_eq!(outcome.frame.luma_width, 176);
    assert_eq!(outcome.frame.luma_height, 144);
    let qcif_data = build_qcif_intra_dc_picture(0x10);
    let qcif_frame =
        decode_picture(&qcif_data, None, DecodeOptions::default()).expect("baseline QCIF");
    assert_eq!(outcome.frame, qcif_frame);
    assert_eq!(outcome.inherited, inherited);
}

#[test]
fn decode_picture_layer_with_inherited_ufep0_custom_format_no_dims_refused() {
    let data = build_qcif_plus_ufep0_intra_dc_plus1_picture(false);
    let inherited = InheritedExtendedState {
        custom_pcf: false,
        source_format: Some(PlusSourceFormat::Custom),
        custom_dimensions: None,
        umv: false,
        advanced_prediction: false,
        advanced_intra: false,
        deblocking: false,
    };
    let r =
        decode_picture_layer_with_inherited(&data, None, DecodeOptions::default(), inherited);
    assert!(matches!(r, Err(Error::NotImplemented)));
}

#[test]
fn decode_picture_layer_plus_refuses_mandatory_only_ufep() {
    let mut w = BitWriter::new();
    w.write_u32(PSC_VALUE, PSC_BITS);
    w.write_u32(0, 8);
    w.write_bit(true);
    w.write_bit(false);
    w.write_bit(false);
    w.write_bit(false);
    w.write_bit(false);
    w.write_u32(0b111, 3);
    w.write_u32(0b000, 3);
    w.write_u32(0b000, 3);
    w.write_bit(false);
    w.write_bit(false);
    w.write_bit(false);
    w.write_bit(false);
    w.write_bit(false);
    w.write_bit(true);
    w.write_bit(false);
    let data = w.finish();
    let r = decode_picture_layer(&data, None, DecodeOptions::default());
    assert!(matches!(r, Err(Error::NotImplemented)));
}

fn build_qcif_plus_ufep0_intra_dc_plus1_picture(aic_in_body: bool) -> Vec<u8> {
    let mut w = BitWriter::new();
    w.write_u32(PSC_VALUE, PSC_BITS);
    w.write_u32(0, 8);
    w.write_bit(true);
    w.write_bit(false);
    w.write_bit(false);
    w.write_bit(false);
    w.write_bit(false);
    w.write_u32(0b111, 3);
    w.write_u32(0b000, 3);
    w.write_u32(0b000, 3);
    w.write_bit(false);
    w.write_bit(false);
    w.write_bit(false);
    w.write_bit(false);
    w.write_bit(false);
    w.write_bit(true);
    w.write_bit(false);
    for _gob in 0..9 {
        w.write_u32(GBSC_VALUE, GBSC_BITS);
        w.write_u32(1, GN_BITS);
        w.write_u32(0, GFID_BITS);
        w.write_u32(8, GQUANT_BITS);
        for _mb in 0..11 {
            if aic_in_body {
                w.write_u32(0b011, 3);
                w.write_bit(false);
                w.write_u32(0b11, 2);
                for _blk in 0..6 {
                    w.write_u32(0b0111, 4);
                    w.write_bit(false);
                }
            } else {
                w.write_bit(true);
                w.write_bit(false);
                w.write_bit(false);
                w.write_bit(true);
                w.write_bit(true);
                for _blk in 0..6 {
                    w.write_u32(0x10, 8);
                }
            }
        }
    }
    while !w.is_byte_aligned() {
        w.write_bit(false);
    }
    w.finish()
}

#[test]
fn decode_picture_layer_with_inherited_ufep0_intra_aic_uses_inherited_state() {
    let data = build_qcif_plus_ufep0_intra_dc_plus1_picture(true);
    let inherited = InheritedExtendedState {
        custom_pcf: false,
        source_format: Some(PlusSourceFormat::Qcif),
        custom_dimensions: None,
        umv: false,
        advanced_prediction: false,
        advanced_intra: true,
        deblocking: false,
    };
    let outcome =
        decode_picture_layer_with_inherited(&data, None, DecodeOptions::default(), inherited)
            .expect("UFEP=000 PLUSPTYPE AIC picture with inherited state should decode");
    assert_eq!(outcome.frame.y[0], 130, "block 0 top-left luma sample");
    assert_eq!(outcome.frame.y[8], 132, "block 1 top-left luma sample");
    assert_eq!(
        outcome.frame.y[176 * 8],
        132,
        "block 2 top-left luma sample"
    );
    assert_eq!(
        outcome.frame.y[176 * 8 + 8],
        134,
        "block 3 top-left luma sample"
    );
    assert_eq!(
        outcome.inherited, inherited,
        "UFEP=000 passes the snapshot through unchanged"
    );
}

#[test]
fn decode_picture_layer_with_inherited_ufep0_no_prior_refused() {
    let data = build_qcif_plus_ufep0_intra_dc_plus1_picture(false);
    let r = decode_picture_layer_with_inherited(
        &data,
        None,
        DecodeOptions::default(),
        InheritedExtendedState::default(),
    );
    assert!(matches!(r, Err(Error::NotImplemented)));
}

#[test]
fn decode_picture_layer_with_inherited_ufep1_captures_snapshot_for_next_picture() {
    let data = build_qcif_plus_aic_intra_dc_plus1_picture(true, true);
    let outcome = decode_picture_layer_with_inherited(
        &data,
        None,
        DecodeOptions::default(),
        InheritedExtendedState::default(),
    )
    .expect("UFEP=001 picture decodes");
    assert_eq!(
        outcome.inherited,
        InheritedExtendedState {
            custom_pcf: false,
            source_format: Some(PlusSourceFormat::Qcif),
            custom_dimensions: None,
            umv: false,
            advanced_prediction: false,
            advanced_intra: true,
            deblocking: true,
        },
        "UFEP=001 OPPTYPE snapshot captured into outcome.inherited"
    );
}

#[test]
fn decode_picture_layer_with_inherited_baseline_clears_snapshot() {
    let data = build_qcif_intra_dc_picture(0x10);
    let primed = InheritedExtendedState {
        custom_pcf: true,
        source_format: Some(PlusSourceFormat::Cif),
        custom_dimensions: None,
        umv: true,
        advanced_prediction: true,
        advanced_intra: true,
        deblocking: true,
    };
    let outcome =
        decode_picture_layer_with_inherited(&data, None, DecodeOptions::default(), primed)
            .expect("baseline picture decodes regardless of inherited snapshot");
    assert_eq!(
        outcome.inherited,
        InheritedExtendedState::default(),
        "a plain picture type clears all inferred mode state"
    );
}

#[test]
fn decode_picture_layer_with_inherited_matches_legacy_entry_on_ufep1() {
    let data = build_qcif_plus_aic_intra_dc_plus1_picture(true, false);
    let legacy = decode_picture_layer(&data, None, DecodeOptions::default()).expect("legacy");
    let outcome = decode_picture_layer_with_inherited(
        &data,
        None,
        DecodeOptions::default(),
        InheritedExtendedState::default(),
    )
    .expect("new entry");
    assert_eq!(outcome.frame, legacy, "frames match");
}

#[test]
fn decode_picture_layer_with_inherited_ufep0_intra_overrides_inherited_umv() {
    let data = build_qcif_plus_ufep0_intra_dc_plus1_picture(true);
    let inherited = InheritedExtendedState {
        custom_pcf: false,
        source_format: Some(PlusSourceFormat::Qcif),
        custom_dimensions: None,
        umv: true,
        advanced_prediction: true,
        advanced_intra: true,
        deblocking: false,
    };
    let outcome =
        decode_picture_layer_with_inherited(&data, None, DecodeOptions::default(), inherited)
            .expect(
            "UFEP=000 INTRA picture inheriting UMV=on should still decode (rule 1 override)",
        );
    assert_eq!(outcome.frame.y[0], 130, "AIC prediction footprint intact");
    assert!(
        outcome.inherited.umv,
        "rule 1 override does not mutate the snapshot"
    );
    assert!(
        outcome.inherited.advanced_prediction,
        "rule 1 override does not mutate the snapshot"
    );
}

#[test]
fn inherited_extended_state_from_opptype_captures_only_staged_bits() {
    let snap = InheritedExtendedState::from_opptype(Opptype {
        source_format: PlusSourceFormat::Cif,
        custom_pcf: true,
        umv: true,
        sac: false,
        advanced_prediction: true,
        advanced_intra: true,
        deblocking: true,
        slice_structured: false,
        reference_picture_selection: false,
        independent_segment_decoding: false,
        alternative_inter_vlc: false,
        modified_quantization: false,
    });
    assert_eq!(
        snap,
        InheritedExtendedState {
            custom_pcf: true,
            source_format: Some(PlusSourceFormat::Cif),
            custom_dimensions: None,
            umv: true,
            advanced_prediction: true,
            advanced_intra: true,
            deblocking: true,
        }
    );
}

fn write_qcif_pb_picture_header(w: &mut BitWriter, tr: u8, trb: u32, dbquant: u32) {
    w.write_u32(PSC_VALUE, PSC_BITS);
    w.write_u32(tr as u32, 8);
    w.write_bit(true);
    w.write_bit(false);
    w.write_bit(false);
    w.write_bit(false);
    w.write_bit(false);
    w.write_u32(0b010, 3);
    w.write_bit(true);
    w.write_bit(false);
    w.write_bit(false);
    w.write_bit(false);
    w.write_bit(true);
    w.write_u32(trb, 3);
    w.write_u32(dbquant, 2);
}

fn build_qcif_pb_picture<F: FnMut(&mut BitWriter, usize, usize)>(
    tr: u8,
    trb: u32,
    dbquant: u32,
    mut write_mb: F,
) -> Vec<u8> {
    let mut w = BitWriter::new();
    write_qcif_pb_picture_header(&mut w, tr, trb, dbquant);
    for gob in 0..9 {
        w.write_u32(GBSC_VALUE, GBSC_BITS);
        w.write_u32(1, GN_BITS);
        w.write_u32(0, GFID_BITS);
        w.write_u32(8, GQUANT_BITS);
        for mb in 0..11 {
            write_mb(&mut w, gob, mb);
        }
    }
    while !w.is_byte_aligned() {
        w.write_bit(false);
    }
    w.finish()
}

fn extract_prec(frame: &YuvFrame, col: usize, row: usize) -> ([u8; 256], [u8; 64], [u8; 64]) {
    let mut prec_y = [0u8; 256];
    for j in 0..16 {
        let src = (row * 16 + j) * frame.luma_width + col * 16;
        prec_y[j * 16..j * 16 + 16].copy_from_slice(&frame.y[src..src + 16]);
    }
    let mut prec_cb = [0u8; 64];
    let mut prec_cr = [0u8; 64];
    for j in 0..8 {
        let src = (row * 8 + j) * frame.chroma_width() + col * 8;
        prec_cb[j * 8..j * 8 + 8].copy_from_slice(&frame.cb[src..src + 8]);
        prec_cr[j * 8..j * 8 + 8].copy_from_slice(&frame.cr[src..src + 8]);
    }
    (prec_y, prec_cb, prec_cr)
}

#[test]
fn decode_pb_picture_all_skipped_reproduces_reference_in_both_parts() {
    let reference = ramp_reference(176, 144);
    let data = build_qcif_pb_picture(2, 1, 0b00, |w, _, _| write_skipped_mb(w));
    let pair =
        decode_pb_picture(&data, &reference, 0, DecodeOptions::default()).expect("decode");
    assert_eq!(pair.p_frame, reference);
    assert_eq!(pair.b_frame, reference);
}

#[test]
fn decode_pb_picture_rejects_zero_trb() {
    let reference = YuvFrame::grey(176, 144);
    let data = build_qcif_pb_picture(2, 0, 0b00, |w, _, _| write_skipped_mb(w));
    assert_eq!(
        decode_pb_picture(&data, &reference, 0, DecodeOptions::default()).unwrap_err(),
        Error::BadPbTemporalReference
    );
}

#[test]
fn decode_pb_picture_rejects_zero_trd() {
    let reference = YuvFrame::grey(176, 144);
    let data = build_qcif_pb_picture(5, 1, 0b00, |w, _, _| write_skipped_mb(w));
    assert_eq!(
        decode_pb_picture(&data, &reference, 5, DecodeOptions::default()).unwrap_err(),
        Error::BadPbTemporalReference
    );
}

#[test]
fn decode_pb_picture_wraps_negative_trd() {
    let reference = ramp_reference(176, 144);
    let data = build_qcif_pb_picture(1, 1, 0b00, |w, _, _| write_skipped_mb(w));
    let pair =
        decode_pb_picture(&data, &reference, 255, DecodeOptions::default()).expect("decode");
    assert_eq!(pair.p_frame, reference);
    assert_eq!(pair.b_frame, reference);
}

#[test]
fn pb_entry_points_gate_on_ptype_bit_13() {
    let reference = ramp_reference(176, 144);
    let mut w = BitWriter::new();
    write_qcif_inter_ap_picture_header(&mut w, false);
    let non_pb = w.finish();
    assert_eq!(
        decode_pb_picture(&non_pb, &reference, 0, DecodeOptions::default()).unwrap_err(),
        Error::NotImplemented
    );
    let pb = build_qcif_pb_picture(2, 1, 0b00, |w, _, _| write_skipped_mb(w));
    assert_eq!(
        decode_picture(&pb, Some(&reference), DecodeOptions::default()).unwrap_err(),
        Error::NotImplemented
    );
}

#[test]
fn decode_pb_picture_mvdb_matches_direct_composition() {
    let reference = ramp_reference(176, 144);
    let data = build_qcif_pb_picture(2, 1, 0b00, |w, gob, mb| {
        if gob == 0 && mb == 0 {
            w.write_bit(false);
            w.write_bit(true);
            w.write_u32(0b10, 2);
            w.write_u32(0b11, 2);
            w.write_bit(true);
            w.write_bit(true);
            w.write_u32(0b0010, 4);
            w.write_bit(true);
        } else {
            write_skipped_mb(w);
        }
    });
    let pair =
        decode_pb_picture(&data, &reference, 0, DecodeOptions::default()).expect("decode");

    assert_eq!(pair.p_frame, reference);

    let (prec_y, prec_cb, prec_cr) = extract_prec(&pair.p_frame, 0, 0);
    let planes = PbBReferencePlanes {
        prev_y: RefPlane::new(&reference.y, 176, 144),
        prev_cb: RefPlane::new(&reference.cb, 88, 72),
        prev_cr: RefPlane::new(&reference.cr, 88, 72),
        prec_y: RefPlane::new(&prec_y, 16, 16),
        prec_cb: RefPlane::new(&prec_cb, 8, 8),
        prec_cr: RefPlane::new(&prec_cr, 8, 8),
    };
    let expected = pb_b_predict_macroblock(
        &planes,
        0,
        0,
        &[MotionVector::new(0, 0); 4],
        Some(Mvd {
            dx_half: 2,
            dy_half: 0,
        }),
        1,
        2,
        RCONTROL_DEFAULT,
    );
    for j in 0..16 {
        for i in 0..16 {
            assert_eq!(
                pair.b_frame.y[j * 176 + i],
                expected.luma[j][i],
                "B luma mismatch at ({i}, {j})"
            );
        }
    }
    for j in 0..8 {
        for i in 0..8 {
            assert_eq!(pair.b_frame.cb[j * 88 + i], expected.cb[j][i]);
            assert_eq!(pair.b_frame.cr[j * 88 + i], expected.cr[j][i]);
        }
    }
    assert_eq!(pair.b_frame.y[8 * 176], 9);
    assert_eq!(&pair.b_frame.y[16..32], &reference.y[16..32]);
}

#[test]
fn decode_pb_picture_adds_cbpb_residual_with_bquant() {
    let mut reference = YuvFrame::grey(176, 144);
    reference.y.fill(100);
    reference.cb.fill(100);
    reference.cr.fill(100);
    let data = build_qcif_pb_picture(2, 1, 0b11, |w, gob, mb| {
        if gob == 0 && mb == 0 {
            w.write_bit(false);
            w.write_bit(true);
            w.write_u32(0b11, 2);
            w.write_u32(0b100000, 6);
            w.write_u32(0b11, 2);
            w.write_bit(true);
            w.write_bit(true);
            w.write_bit(true);
            w.write_bit(true);
            w.write_u32(0b0111_0, 5);
        } else {
            write_skipped_mb(w);
        }
    });
    let pair =
        decode_pb_picture(&data, &reference, 0, DecodeOptions::default()).expect("decode");
    assert_eq!(pair.p_frame, reference);
    for y in 0..144 {
        for x in 0..176 {
            let expected = if x < 8 && y < 8 { 106 } else { 100 };
            assert_eq!(
                pair.b_frame.y[y * 176 + x],
                expected,
                "B luma mismatch at ({x}, {y})"
            );
        }
    }
    assert!(pair.b_frame.cb.iter().all(|&p| p == 100));
    assert!(pair.b_frame.cr.iter().all(|&p| p == 100));
}

#[test]
fn decode_pb_picture_intra_mb_vector_feeds_b_part_and_neighbour_predictor() {
    let reference = ramp_reference(176, 144);
    let data = build_qcif_pb_picture(2, 1, 0b00, |w, gob, mb| {
        if gob == 0 && mb == 0 {
            w.write_bit(false);
            w.write_u32(0b00011, 5);
            w.write_bit(false);
            w.write_u32(0b0011, 4);
            w.write_u32(0b0010, 4);
            w.write_bit(true);
            for _ in 0..6 {
                w.write_u32(0x40, 8);
            }
        } else if gob == 0 && mb == 1 {
            w.write_bit(false);
            w.write_bit(true);
            w.write_bit(false);
            w.write_u32(0b11, 2);
            w.write_bit(true);
            w.write_bit(true);
        } else {
            write_skipped_mb(w);
        }
    });
    let pair =
        decode_pb_picture(&data, &reference, 0, DecodeOptions::default()).expect("decode");

    for y in 0..16 {
        for x in 0..16 {
            assert_eq!(pair.p_frame.y[y * 176 + x], 64);
        }
    }
    for y in 0..16 {
        for x in 16..32 {
            assert_eq!(
                pair.p_frame.y[y * 176 + x],
                reference.y[y * 176 + x + 1],
                "P MB(1,0) not shifted at ({x}, {y})"
            );
        }
    }

    let (prec_y, prec_cb, prec_cr) = extract_prec(&pair.p_frame, 0, 0);
    let planes = PbBReferencePlanes {
        prev_y: RefPlane::new(&reference.y, 176, 144),
        prev_cb: RefPlane::new(&reference.cb, 88, 72),
        prev_cr: RefPlane::new(&reference.cr, 88, 72),
        prec_y: RefPlane::new(&prec_y, 16, 16),
        prec_cb: RefPlane::new(&prec_cb, 8, 8),
        prec_cr: RefPlane::new(&prec_cr, 8, 8),
    };
    let expected = pb_b_predict_macroblock(
        &planes,
        0,
        0,
        &[MotionVector::new(2, 0); 4],
        None,
        1,
        2,
        RCONTROL_DEFAULT,
    );
    for j in 0..16 {
        for i in 0..16 {
            assert_eq!(
                pair.b_frame.y[j * 176 + i],
                expected.luma[j][i],
                "INTRA B luma mismatch at ({i}, {j})"
            );
        }
    }
    for j in 0..8 {
        for i in 0..8 {
            assert_eq!(pair.b_frame.cb[j * 88 + i], expected.cb[j][i]);
            assert_eq!(pair.b_frame.cr[j * 88 + i], expected.cr[j][i]);
        }
    }
}

fn build_qcif_improved_pb_picture<F: FnMut(&mut BitWriter, usize, usize)>(
    tr: u8,
    trb: u32,
    dbquant: u32,
    mut write_mb: F,
) -> Vec<u8> {
    let mut w = BitWriter::new();
    w.write_u32(PSC_VALUE, PSC_BITS);
    w.write_u32(tr as u32, 8);
    w.write_bit(true);
    w.write_bit(false);
    w.write_bit(false);
    w.write_bit(false);
    w.write_bit(false);
    w.write_u32(0b111, 3);
    w.write_u32(0b001, 3);
    w.write_u32(0b010, 3);
    for _ in 0..11 {
        w.write_bit(false);
    }
    w.write_bit(true);
    w.write_u32(0b000, 3);
    w.write_u32(0b010, 3);
    w.write_bit(false);
    w.write_bit(false);
    w.write_bit(false);
    w.write_bit(false);
    w.write_bit(false);
    w.write_bit(true);
    w.write_bit(false);
    w.write_u32(8, 5);
    w.write_u32(trb, 3);
    w.write_u32(dbquant, 2);
    for gob in 0..9 {
        w.write_u32(GBSC_VALUE, GBSC_BITS);
        w.write_u32(1, GN_BITS);
        w.write_u32(0, GFID_BITS);
        w.write_u32(8, GQUANT_BITS);
        for mb in 0..11 {
            write_mb(&mut w, gob, mb);
        }
    }
    while !w.is_byte_aligned() {
        w.write_bit(false);
    }
    w.finish()
}

#[test]
fn decode_improved_pb_all_skipped_reproduces_reference() {
    let reference = ramp_reference(176, 144);
    let data = build_qcif_improved_pb_picture(2, 1, 0b00, |w, _, _| write_skipped_mb(w));
    let pair = decode_improved_pb_picture(&data, &reference, 0, DecodeOptions::default())
        .expect("decode");
    assert_eq!(pair.p_frame, reference);
    assert_eq!(pair.b_frame, reference);
}

#[test]
fn decode_improved_pb_backward_mode_copies_prec() {
    let reference = ramp_reference(176, 144);
    let data = build_qcif_improved_pb_picture(2, 1, 0b00, |w, gob, mb| {
        if gob == 0 && mb == 0 {
            w.write_bit(false);
            w.write_bit(true);
            w.write_u32(0b11110, 5);
            w.write_u32(0b11, 2);
            w.write_bit(true);
            w.write_bit(true);
        } else {
            write_skipped_mb(w);
        }
    });
    let pair = decode_improved_pb_picture(&data, &reference, 0, DecodeOptions::default())
        .expect("decode");
    assert_eq!(pair.p_frame, reference);
    for j in 0..16 {
        for i in 0..16 {
            assert_eq!(
                pair.b_frame.y[j * 176 + i],
                reference.y[j * 176 + i],
                "backward BPB luma must equal PREC at ({i}, {j})"
            );
        }
    }
    assert_eq!(pair.b_frame, reference);
}

#[test]
fn decode_improved_pb_forward_mode_shifts_by_mvdb() {
    let reference = ramp_reference(176, 144);
    let data = build_qcif_improved_pb_picture(2, 1, 0b00, |w, gob, mb| {
        if gob == 0 && mb == 0 {
            w.write_bit(false);
            w.write_bit(true);
            w.write_u32(0b110, 3);
            w.write_u32(0b11, 2);
            w.write_bit(true);
            w.write_bit(true);
            w.write_u32(0b0010, 4);
            w.write_bit(true);
        } else {
            write_skipped_mb(w);
        }
    });
    let pair = decode_improved_pb_picture(&data, &reference, 0, DecodeOptions::default())
        .expect("decode");
    assert_eq!(pair.p_frame, reference);
    let fwd_mv = MotionVector::new(2, 0);
    let y_ref = RefPlane::new(&reference.y, 176, 144);
    for j in 0..16 {
        for i in 0..16 {
            let block =
                motion_compensate_block(&y_ref, i & !7, j & !7, fwd_mv, RCONTROL_DEFAULT);
            let expected = block[(j % 8) * 8 + (i % 8)];
            assert_eq!(
                pair.b_frame.y[j * 176 + i],
                expected,
                "forward BPB luma at ({i}, {j})"
            );
        }
    }
    assert_eq!(pair.b_frame.y[8 * 176], 9);
    assert_eq!(&pair.b_frame.y[16..32], &reference.y[16..32]);
}

#[test]
fn decode_improved_pb_forward_predictor_chains_left_neighbour() {
    let reference = ramp_reference(176, 144);
    let data = build_qcif_improved_pb_picture(2, 1, 0b00, |w, gob, mb| {
        if gob == 0 && (mb == 0 || mb == 1) {
            w.write_bit(false);
            w.write_bit(true);
            w.write_u32(0b110, 3);
            w.write_u32(0b11, 2);
            w.write_bit(true);
            w.write_bit(true);
            if mb == 0 {
                w.write_u32(0b0010, 4);
                w.write_bit(true);
            } else {
                w.write_bit(true);
                w.write_bit(true);
            }
        } else {
            write_skipped_mb(w);
        }
    });
    let pair = decode_improved_pb_picture(&data, &reference, 0, DecodeOptions::default())
        .expect("decode");
    assert_eq!(pair.p_frame, reference);
    let fwd_mv = MotionVector::new(2, 0);
    let y_ref = RefPlane::new(&reference.y, 176, 144);
    for j in 0..16 {
        for i in 16..32 {
            let block =
                motion_compensate_block(&y_ref, i & !7, j & !7, fwd_mv, RCONTROL_DEFAULT);
            let expected = block[(j % 8) * 8 + (i % 8)];
            assert_eq!(
                pair.b_frame.y[j * 176 + i],
                expected,
                "MB(1,0) forward BPB luma at ({i}, {j}) must use the +2 predictor"
            );
        }
    }
}

#[test]
fn improved_pb_entry_points_gate_on_picture_type() {
    let reference = ramp_reference(176, 144);
    let improved = build_qcif_improved_pb_picture(2, 1, 0b00, |w, _, _| write_skipped_mb(w));
    assert_eq!(
        decode_picture_layer(&improved, Some(&reference), DecodeOptions::default())
            .unwrap_err(),
        Error::NotImplemented
    );
    let mut w = BitWriter::new();
    write_qcif_inter_ap_picture_header(&mut w, false);
    let inter = w.finish();
    assert_eq!(
        decode_improved_pb_picture(&inter, &reference, 0, DecodeOptions::default())
            .unwrap_err(),
        Error::NotImplemented
    );
}

#[test]
fn decode_improved_pb_rejects_zero_trb() {
    let reference = ramp_reference(176, 144);
    let data = build_qcif_improved_pb_picture(2, 0, 0b00, |w, _, _| write_skipped_mb(w));
    assert_eq!(
        decode_improved_pb_picture(&data, &reference, 0, DecodeOptions::default()).unwrap_err(),
        Error::BadPbTemporalReference
    );
}
