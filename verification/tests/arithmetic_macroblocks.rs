use h263::block::{EncodedInterBlock, EncodedIntraBlock};
use h263::error::Error;
use h263::macroblock::{MbContext, MbType, Mvd};
use h263::pb_layer::ModbPresence;
use h263::picture_header::H263PictureCodingType;
use h263::sac::blocks::{parse_block_sac, write_block_sac};
use h263::sac::coder::{SacDecoder, SacEncoder};
use h263::sac::macroblocks::{
    encode_inter4v_macroblock_sac, encode_inter_macroblock_sac, encode_intra_macroblock_sac,
    encode_skipped_macroblock_sac, parse_macroblock_sac,
};
use h263::sac::syntax::{
    decode_cbpb_sac, decode_modb_sac, encode_cbpb_sac, encode_cbpy_sac, encode_dquant_sac,
    encode_mcbpc_i_sac, encode_modb_sac, encode_mvd_component_sac,
};
use oxideav_core::bits::{BitReader, BitWriter};

fn context(kind: H263PictureCodingType, advanced_prediction: bool) -> MbContext {
    MbContext {
        picture_coding_type: kind,
        advanced_prediction,
        aic_intra_mode: false,
        pb_frames: false,
        pb_annex_m: false,
        quantiser_before: 9,
        modified_quant: false,
        deblocking_filter: false,
    }
}

fn intra(dc_level: i16, ac: i16) -> EncodedIntraBlock {
    let mut scan = [0i16; 64];
    scan[5] = ac;
    EncodedIntraBlock {
        dc_level,
        scan,
        has_ac: ac != 0,
    }
}

fn inter(first: i16, last: i16) -> EncodedInterBlock {
    let mut scan = [0i16; 64];
    scan[0] = first;
    scan[63] = last;
    EncodedInterBlock {
        scan,
        has_coeffs: first != 0 || last != 0,
    }
}

#[test]
fn intra_macroblocks_come_back() {
    let luma = [intra(8, 0), intra(400, -3), intra(1016, 0), intra(1024, 100)];
    let (cb, cr) = (intra(1032, 1), intra(2032, 0));
    for inter_picture in [false, true] {
        let mut w = BitWriter::new();
        let mut enc = SacEncoder::new(&mut w);
        encode_intra_macroblock_sac(&mut enc, &luma, &cb, &cr, inter_picture, inter_picture)
            .unwrap();
        enc.flush();
        let bytes = w.finish();

        let mut r = BitReader::new(&bytes);
        let mut dec = SacDecoder::new(&mut r);
        let kind = if inter_picture {
            H263PictureCodingType::Inter
        } else {
            H263PictureCodingType::Intra
        };
        let mb = parse_macroblock_sac(&mut dec, context(kind, false)).unwrap();
        assert_eq!(mb.mb_type, Some(MbType::Intra));
        assert_eq!(mb.cbpy, Some(0b0101));
        assert_eq!(mb.cbpc, Some(0b10));
        assert_eq!(mb.quantiser_after, 9);
        for b in luma.iter().chain([&cb, &cr]) {
            let block = parse_block_sac(&mut dec, true, b.has_ac, true).unwrap();
            assert_eq!(block.coefficients[0], b.dc_level);
            assert_eq!(&block.coefficients[1..], &b.scan[1..]);
        }
    }
}

#[test]
fn inter_macroblocks_come_back() {
    let luma = [inter(0, 0), inter(7, 0), inter(0, -1), inter(-2, 40)];
    let (cb, cr) = (inter(0, 0), inter(1, 0));
    let mvd = Mvd {
        dx_half: -32,
        dy_half: 31,
    };
    let mut w = BitWriter::new();
    let mut enc = SacEncoder::new(&mut w);
    encode_skipped_macroblock_sac(&mut enc);
    encode_inter_macroblock_sac(&mut enc, &luma, &cb, &cr, mvd).unwrap();
    enc.flush();
    let bytes = w.finish();

    let mut r = BitReader::new(&bytes);
    let mut dec = SacDecoder::new(&mut r);
    let ctx = context(H263PictureCodingType::Inter, false);
    let skipped = parse_macroblock_sac(&mut dec, ctx).unwrap();
    assert!(!skipped.coded && skipped.mb_type.is_none());
    let mb = parse_macroblock_sac(&mut dec, ctx).unwrap();
    assert_eq!(mb.mb_type, Some(MbType::Inter));
    assert_eq!((mb.cbpy, mb.cbpc), (Some(0b1000), Some(0b01)));
    assert_eq!((mb.mvd, mb.mvd2), (Some(mvd), None));
    for b in luma.iter().chain([&cb, &cr]) {
        let block = parse_block_sac(&mut dec, false, b.has_coeffs, false).unwrap();
        assert_eq!(block.coefficients, b.scan);
    }
}

#[test]
fn four_vector_macroblocks_come_back() {
    let luma = [inter(0, 0), inter(0, 0), inter(0, 0), inter(3, 0)];
    let none = inter(0, 0);
    let mvds = [
        Mvd { dx_half: 0, dy_half: 1 },
        Mvd { dx_half: -1, dy_half: 2 },
        Mvd { dx_half: 30, dy_half: -30 },
        Mvd { dx_half: 5, dy_half: -5 },
    ];
    let mut w = BitWriter::new();
    let mut enc = SacEncoder::new(&mut w);
    encode_inter4v_macroblock_sac(&mut enc, &luma, &none, &none, &mvds).unwrap();
    enc.flush();
    let bytes = w.finish();

    let mut r = BitReader::new(&bytes);
    let mut dec = SacDecoder::new(&mut r);
    let mb =
        parse_macroblock_sac(&mut dec, context(H263PictureCodingType::Inter, true)).unwrap();
    assert_eq!(mb.mb_type, Some(MbType::Inter4V));
    assert_eq!(
        [mb.mvd, mb.mvd2, mb.mvd3, mb.mvd4],
        [Some(mvds[0]), Some(mvds[1]), Some(mvds[2]), Some(mvds[3])]
    );
}

#[test]
fn b_picture_patterns_come_back() {
    let modes = [
        ModbPresence::Neither,
        ModbPresence::MvdbOnly,
        ModbPresence::CbpbAndMvdb,
    ];
    let mut w = BitWriter::new();
    let mut enc = SacEncoder::new(&mut w);
    for m in modes {
        encode_modb_sac(&mut enc, m);
    }
    for p in 0..64u8 {
        encode_cbpb_sac(&mut enc, p);
    }
    enc.flush();
    let bytes = w.finish();
    let mut r = BitReader::new(&bytes);
    let mut dec = SacDecoder::new(&mut r);
    for m in modes {
        assert_eq!(decode_modb_sac(&mut dec), m);
    }
    for p in 0..64u8 {
        assert_eq!(decode_cbpb_sac(&mut dec), p);
    }
}

#[test]
fn what_has_no_symbol_is_refused() {
    let mut w = BitWriter::new();
    let mut enc = SacEncoder::new(&mut w);
    assert_eq!(
        encode_mcbpc_i_sac(&mut enc, MbType::Inter, 0),
        Err(Error::BadMcbpcCode)
    );
    assert_eq!(
        encode_cbpy_sac(&mut enc, 16, true),
        Err(Error::BadCbpyCode)
    );
    assert_eq!(encode_dquant_sac(&mut enc, 0), Err(Error::BadDquant));
    assert_eq!(
        encode_mvd_component_sac(&mut enc, 32),
        Err(Error::BadMvdCode)
    );
    let mut scan = [0i16; 64];
    scan[1] = 128;
    assert_eq!(
        write_block_sac(&mut enc, None, &scan, true, false),
        Err(Error::BadTcoefCode)
    );
}

#[test]
fn modes_that_do_not_combine_are_refused() {
    let data = [0u8; 8];
    let mut r = BitReader::new(&data);
    let mut dec = SacDecoder::new(&mut r);
    let ctx = context(H263PictureCodingType::Inter, false);
    let aic = MbContext {
        aic_intra_mode: true,
        ..ctx
    };
    assert_eq!(
        parse_macroblock_sac(&mut dec, aic),
        Err(Error::NotImplemented)
    );
    let zero = MbContext {
        quantiser_before: 0,
        ..ctx
    };
    assert_eq!(
        parse_macroblock_sac(&mut dec, zero),
        Err(Error::InvalidQuantiser)
    );
}

#[test]
fn what_stands_before_an_error_is_written() {
    let good = inter(5, 0);
    let mut bad = inter(0, 0);
    bad.scan[2] = 200;
    bad.has_coeffs = true;
    let mvd = Mvd {
        dx_half: 3,
        dy_half: -4,
    };
    let mut w = BitWriter::new();
    let mut enc = SacEncoder::new(&mut w);
    let none = inter(0, 0);
    assert_eq!(
        encode_inter_macroblock_sac(&mut enc, &[good, bad, none, none], &none, &none, mvd),
        Err(Error::BadTcoefCode)
    );
    enc.flush();
    let bytes = w.finish();

    let mut r = BitReader::new(&bytes);
    let mut dec = SacDecoder::new(&mut r);
    let ctx = context(H263PictureCodingType::Inter, false);
    let mb = parse_macroblock_sac(&mut dec, ctx).unwrap();
    assert_eq!((mb.cbpy, mb.mvd), (Some(0b0011), Some(mvd)));
    let block = parse_block_sac(&mut dec, false, true, false).unwrap();
    assert_eq!(block.coefficients, good.scan);
}

#[test]
fn blocks_count_their_coefficients() {
    let mut scan = [0i16; 64];
    scan[0] = 4;
    scan[7] = -1;
    scan[63] = 2;
    for (dc, has, events) in [
        (None, true, 3),
        (Some(8), true, 2),
        (Some(8), false, 0),
        (None, false, 0),
    ] {
        let mut w = BitWriter::new();
        let mut enc = SacEncoder::new(&mut w);
        write_block_sac(&mut enc, dc, &scan, has, true).unwrap();
        enc.flush();
        let bytes = w.finish();
        let mut r = BitReader::new(&bytes);
        let mut dec = SacDecoder::new(&mut r);
        let b = parse_block_sac(&mut dec, dc.is_some(), has, true).unwrap();
        assert_eq!(b.tcoef_event_count, events);
        assert_eq!(b.coefficients[63], if has { 2 } else { 0 });
    }
}
