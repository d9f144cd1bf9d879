use h263::block::{tcoef_events, tcoef_table_index, tcoef_table_row, H263Block};
use h263::block_layer::{parse_block, parse_intra_block_aic};
use h263::error::Error;
use h263::gob_header::{parse_gob_layer, GobHeader};
use h263::macroblock::{requantise, IntraMode, MbContext, MbType, Mvd};
use h263::macroblock_layer::parse_macroblock;
use h263::picture::Neighbour;
use h263::picture_header::H263PictureCodingType;
use h263::residual::{
    aic_intra_reconstruct_coefficients, reconstruct_inter_block_with_prediction,
    reconstruct_intra_block,
};
use h263::slice_header::{
    at_slice_boundary, parse_first_slice_header, parse_slice_layer, skip_sstuf, SliceStart,
};
use oxideav_core::bits::{BitReader, BitWriter};

fn bits(s: &str) -> Vec<u8> {
    let mut w = BitWriter::new();
    for b in s.bytes() {
        if b == b'0' || b == b'1' {
            w.write_bit(b == b'1');
        }
    }
    w.finish()
}

fn context(kind: H263PictureCodingType) -> MbContext {
    MbContext {
        picture_coding_type: kind,
        advanced_prediction: false,
        aic_intra_mode: false,
        pb_frames: false,
        pb_annex_m: false,
        quantiser_before: 10,
        modified_quant: false,
        deblocking_filter: false,
    }
}

#[test]
fn group_headers_are_read() {
    let data = bits("00000000000000001 00101 10 01001");
    assert_eq!(
        parse_gob_layer(&mut BitReader::new(&data)),
        Ok(GobHeader {
            group_number: 5,
            frame_id: 2,
            quantiser: 9
        })
    );
    let bad = bits("00000000000000011 00101 10 01001");
    assert_eq!(
        parse_gob_layer(&mut BitReader::new(&bad)),
        Err(Error::BadGobStartCode)
    );
    let zero = bits("00000000000000001 00101 10 00000");
    assert_eq!(
        parse_gob_layer(&mut BitReader::new(&zero)),
        Err(Error::InvalidQuantiser)
    );
    assert_eq!(
        parse_gob_layer(&mut BitReader::new(&data[..3])),
        Err(Error::UnexpectedEof)
    );
}

#[test]
fn slice_starts_are_read() {
    let first = bits("1 0000000 1");
    assert_eq!(
        parse_first_slice_header(&mut BitReader::new(&first), 99),
        Ok(0)
    );
    let marker = bits("0 0000000 1");
    assert_eq!(
        parse_first_slice_header(&mut BitReader::new(&marker), 99),
        Err(Error::BadSliceHeader)
    );
    let later = bits("00000000000000001 1 0101000 01000 1 00");
    assert_eq!(
        parse_slice_layer(&mut BitReader::new(&later), 99),
        Ok(SliceStart { mba: 40, squant: 8 })
    );
    let zero = bits("00000000000000001 1 0101000 00000 1 00");
    assert_eq!(
        parse_slice_layer(&mut BitReader::new(&zero), 99),
        Err(Error::InvalidQuantiser)
    );
}

#[test]
fn stuffing_ends_at_a_whole_byte() {
    let data = bits("10100000 00000000 00000000 11111111");
    let mut r = BitReader::new(&data);
    assert_eq!(skip_sstuf(&mut r), Ok(()));
    assert_eq!(r.bit_position(), 0);
    r.skip(1).unwrap();
    assert_eq!(skip_sstuf(&mut r), Err(Error::BadSliceStuffing));
    assert_eq!(at_slice_boundary(&r), Ok(true));
    assert_eq!(skip_sstuf(&mut r), Ok(()));
    assert_eq!(r.bit_position(), 8);
}

#[test]
fn intra_headers_are_read() {
    let data = bits("0001 11 10");
    let mb = parse_macroblock(
        &mut BitReader::new(&data),
        context(H263PictureCodingType::Intra),
    )
    .unwrap();
    assert_eq!(mb.mb_type, Some(MbType::IntraQ));
    assert_eq!((mb.cbpc, mb.cbpy), (Some(0), Some(15)));
    assert_eq!((mb.dquant, mb.quantiser_after), (Some(1), 11));
}

#[test]
fn inter_headers_are_read() {
    let data = bits("0 0011 0011 0011 1");
    let mb = parse_macroblock(
        &mut BitReader::new(&data),
        context(H263PictureCodingType::Inter),
    )
    .unwrap();
    assert_eq!(mb.mb_type, Some(MbType::Inter));
    assert_eq!((mb.cbpc, mb.cbpy), (Some(1), Some(0)));
    assert_eq!(
        mb.mvd,
        Some(Mvd {
            dx_half: -2,
            dy_half: 0
        })
    );
}

#[test]
fn skipped_macroblocks_keep_the_quantiser() {
    let data = bits("1");
    let mb = parse_macroblock(
        &mut BitReader::new(&data),
        context(H263PictureCodingType::Inter),
    )
    .unwrap();
    assert!(!mb.coded);
    assert_eq!((mb.mb_type, mb.quantiser_after), (None, 10));
}

#[test]
fn unknown_codes_are_told_apart() {
    let intra = context(H263PictureCodingType::Intra);
    let inter = context(H263PictureCodingType::Inter);
    let parse = |s: &str, ctx: MbContext| {
        let data = bits(s);
        parse_macroblock(&mut BitReader::new(&data), ctx).unwrap_err()
    };
    let zeros = "0000000000000000";
    assert_eq!(parse(zeros, intra), Error::BadMcbpcCode);
    assert_eq!(parse(zeros, inter), Error::BadMcbpcCode);
    assert_eq!(parse(&format!("1 {zeros}"), intra), Error::BadCbpyCode);
    assert_eq!(parse(&format!("0 1 11 {zeros}"), inter), Error::BadMvdCode);
    assert_eq!(parse("0 1 11", inter), Error::UnexpectedEof);
    let q0 = MbContext {
        quantiser_before: 0,
        ..intra
    };
    assert_eq!(parse("1 11", q0), Error::InvalidQuantiser);
}

#[test]
fn quantisers_stay_in_range() {
    assert_eq!(requantise(10, -2), 8);
    assert_eq!(requantise(1, -2), 1);
    assert_eq!(requantise(31, 2), 31);
}

#[test]
fn levels_go_where_their_runs_lead() {
    let data = bits("10 0  110 1  0111 0");
    let b = parse_block(&mut BitReader::new(&data), false, true).unwrap();
    assert_eq!(&b.coefficients[..5], &[1, 0, -1, 1, 0]);
    assert_eq!((b.had_intradc, b.tcoef_event_count), (false, 3));
}

#[test]
fn intradc_has_two_forbidden_codes() {
    let parse = |v: u8| {
        let data = [v];
        parse_block(&mut BitReader::new(&data), true, false).map(|b| b.coefficients[0])
    };
    assert_eq!(parse(1), Ok(8));
    assert_eq!(parse(254), Ok(2032));
    assert_eq!(parse(255), Ok(1024));
    assert_eq!(parse(0), Err(Error::BadIntradcCode));
    assert_eq!(parse(128), Err(Error::BadIntradcCode));
}

#[test]
fn escapes_reach_what_the_table_lacks() {
    let data = bits("0000011 1 000101 10000001");
    let b = parse_block(&mut BitReader::new(&data), false, true).unwrap();
    assert_eq!(b.coefficients[5], -127);
    let zero_level = bits("0000011 1 000101 00000000");
    assert_eq!(
        parse_block(&mut BitReader::new(&zero_level), false, true),
        Err(Error::BadTcoefCode)
    );
    let past = bits("00000001 0000011 1 111111 00000001");
    assert_eq!(
        parse_block(&mut BitReader::new(&past), true, true),
        Err(Error::BadTcoefRunOverflow)
    );
    let unknown = bits("0000000000000");
    assert_eq!(
        parse_block(&mut BitReader::new(&unknown), false, true),
        Err(Error::BadTcoefCode)
    );
}

#[test]
fn advanced_blocks_have_no_intradc() {
    let data = bits("0111 1");
    let b = parse_intra_block_aic(&mut BitReader::new(&data), true).unwrap();
    assert_eq!(b.coefficients[0], -1);
    assert!(!b.had_intradc);
    let none = parse_intra_block_aic(&mut BitReader::new(&[]), false).unwrap();
    assert_eq!(none, H263Block::empty());
}

#[test]
fn no_two_events_share_an_entry() {
    let mut seen = Vec::new();
    for index in 0..102usize {
        let (last, run, level) = tcoef_table_row(index).unwrap();
        assert_eq!(tcoef_table_index(last, run, level), Some(index));
        assert!(!seen.contains(&(last, run, level)));
        seen.push((last, run, level));
    }
    assert_eq!(tcoef_table_row(102), None);
    assert_eq!(tcoef_table_index(false, 0, 13), None);
}

#[test]
fn events_count_the_zeros_before_them() {
    let mut scan = [0i16; 64];
    scan[0] = 9;
    scan[3] = -2;
    scan[63] = 1;
    let all = tcoef_events(&scan, false);
    let seen: Vec<(bool, u8, i16)> = all.iter().map(|e| (e.last, e.run, e.level)).collect();
    assert_eq!(seen, vec![(false, 0, 9), (false, 2, -2), (true, 59, 1)]);
    let ac = tcoef_events(&scan, true);
    assert_eq!((ac.len(), ac[0].run), (2, 2));
}

#[test]
fn flat_blocks_are_an_eighth_of_their_first_coefficient() {
    let mut b = H263Block::empty();
    b.coefficients[0] = 1024;
    b.had_intradc = true;
    assert_eq!(reconstruct_intra_block(&b, 5), [128u8; 64]);
}

#[test]
fn differences_are_added_and_kept_in_range() {
    let mut b = H263Block::empty();
    b.coefficients[0] = 1;
    assert_eq!(
        reconstruct_inter_block_with_prediction(&b, 8, &[100; 64]),
        [103; 64]
    );
    b.coefficients[0] = -1;
    assert_eq!(
        reconstruct_inter_block_with_prediction(&b, 8, &[100; 64]),
        [97; 64]
    );
    b.coefficients[0] = 2;
    assert_eq!(
        reconstruct_inter_block_with_prediction(&b, 9, &[253; 64]),
        [255; 64]
    );
}

#[test]
fn the_first_row_changes_from_left_to_right() {
    let mut b = H263Block::empty();
    b.coefficients[1] = 20;
    let out = reconstruct_inter_block_with_prediction(&b, 10, &[128; 64]);
    assert_eq!(&out[..8], &out[56..]);
    assert!(out[0] > out[3] && out[3] > 128 && out[4] < 128 && out[7] < out[4]);
    assert_eq!(out[0] as i32 - 128, 128 - out[7] as i32);
}

#[test]
fn advanced_prediction_of_coefficients() {
    let mut b = H263Block::empty();
    b.coefficients[0] = 1;
    let alone = aic_intra_reconstruct_coefficients(
        &b,
        IntraMode::DcOnly,
        8,
        Neighbour::Missing,
        Neighbour::Missing,
    );
    assert_eq!(alone[0], 1041);
    assert!(alone[1..].iter().all(|&v| v == 0));

    let mut above = [0i32; 64];
    above[0] = 301;
    above[5] = -40;
    above[8] = 7;
    let down = aic_intra_reconstruct_coefficients(
        &b,
        IntraMode::Vertical,
        8,
        Neighbour::Available(&above),
        Neighbour::Missing,
    );
    assert_eq!((down[0], down[5], down[8]), (317, -40, 0));
}
