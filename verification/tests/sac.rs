use h263::block::COEFFS_PER_BLOCK;
use h263::error::Error;
use h263::macroblock::MbType;
use h263::sac::blocks::{parse_block_sac, write_block_sac};
use h263::sac::coder::{SacDecoder, SacEncoder, TOP};
use h263::sac::models::{CUMF_CBPY, CUMF_CBPY_INTRA, CUMF_COD, CUMF_DQUANT, CUMF_INTRADC, CUMF_LAST, CUMF_LAST_INTRA, CUMF_LEVEL, CUMF_LEVEL_INTRA, CUMF_MCBPC_INTRA, CUMF_MCBPC_NO4MVQ, CUMF_MODB_G, CUMF_MVD, CUMF_RUN, CUMF_RUN_INTRA, CUMF_SIGN, CUMF_TCOEF1, CUMF_TCOEF1_INTRA, CUMF_TCOEF2, CUMF_TCOEF2_INTRA, CUMF_TCOEF3, CUMF_TCOEF3_INTRA, CUMF_TCOEFR, CUMF_TCOEFR_INTRA, CUMF_UVCBPB, CUMF_YCBPB};
use h263::sac::syntax::{
    decode_cbpy_sac, decode_cod, decode_dquant_sac, decode_intradc_sac, decode_mcbpc_i_sac,
    decode_mcbpc_p_sac, decode_mvd_component_sac, encode_cbpy_sac, encode_cod, encode_dquant_sac,
    encode_intradc_sac, encode_mcbpc_i_sac, encode_mcbpc_p_sac, encode_mvd_component_sac,
};
use oxideav_core::bits::{BitReader, BitWriter};

#[test]
fn models_are_well_formed() {
    let models: [(&str, &[i64], usize); 26] = [
        ("COD", &CUMF_COD, 3),
        ("MCBPC_no4MVQ", &CUMF_MCBPC_NO4MVQ, 22),
        ("MCBPC_intra", &CUMF_MCBPC_INTRA, 10),
        ("CBPY", &CUMF_CBPY, 17),
        ("CBPY_intra", &CUMF_CBPY_INTRA, 17),
        ("DQUANT", &CUMF_DQUANT, 5),
        ("MODB_G", &CUMF_MODB_G, 4),
        ("YCBPB", &CUMF_YCBPB, 3),
        ("UVCBPB", &CUMF_UVCBPB, 3),
        ("MVD", &CUMF_MVD, 65),
        ("INTRADC", &CUMF_INTRADC, 255),
        ("TCOEF1", &CUMF_TCOEF1, 104),
        ("TCOEF2", &CUMF_TCOEF2, 104),
        ("TCOEF3", &CUMF_TCOEF3, 104),
        ("TCOEFr", &CUMF_TCOEFR, 104),
        ("TCOEF1_intra", &CUMF_TCOEF1_INTRA, 104),
        ("TCOEF2_intra", &CUMF_TCOEF2_INTRA, 104),
        ("TCOEF3_intra", &CUMF_TCOEF3_INTRA, 104),
        ("TCOEFr_intra", &CUMF_TCOEFR_INTRA, 104),
        ("SIGN", &CUMF_SIGN, 3),
        ("LAST", &CUMF_LAST, 3),
        ("LAST_intra", &CUMF_LAST_INTRA, 3),
        ("RUN", &CUMF_RUN, 65),
        ("RUN_intra", &CUMF_RUN_INTRA, 65),
        ("LEVEL", &CUMF_LEVEL, 255),
        ("LEVEL_intra", &CUMF_LEVEL_INTRA, 255),
    ];
    for (name, model, len) in models {
        assert_eq!(model.len(), len, "{name}: length");
        assert_eq!(model[0], 16383, "{name}: total");
        assert_eq!(*model.last().unwrap(), 0, "{name}: terminator");
        for w in model.windows(2) {
            assert!(w[0] > w[1], "{name}: not strictly decreasing at {w:?}");
        }
    }
}

#[test]
fn coder_round_trips_mixed_symbols() {
    let script: Vec<(&[i64], usize)> = vec![
        (&CUMF_COD, 0),
        (&CUMF_MCBPC_INTRA, 3),
        (&CUMF_CBPY_INTRA, 15),
        (&CUMF_INTRADC, 119),
        (&CUMF_TCOEF1_INTRA, 0),
        (&CUMF_SIGN, 1),
        (&CUMF_TCOEF2_INTRA, 102),
        (&CUMF_LAST_INTRA, 1),
        (&CUMF_RUN_INTRA, 5),
        (&CUMF_LEVEL_INTRA, 250),
        (&CUMF_MVD, 32),
        (&CUMF_MVD, 0),
        (&CUMF_MVD, 63),
        (&CUMF_DQUANT, 2),
        (&CUMF_INTRADC, 0),
        (&CUMF_INTRADC, 253),
        (&CUMF_INTRADC, 127),
        (&CUMF_CBPY, 0),
        (&CUMF_TCOEFR, 45),
        (&CUMF_SIGN, 0),
    ];
    let mut w = BitWriter::new();
    {
        let mut enc = SacEncoder::new(&mut w);
        for &(model, index) in &script {
            enc.encode_symbol(index, model);
        }
        enc.flush();
    }
    let bytes = w.finish();
    let mut r = BitReader::new(&bytes);
    let mut dec = SacDecoder::new(&mut r);
    for (i, &(model, index)) in script.iter().enumerate() {
        assert_eq!(dec.decode_symbol(model), index, "symbol {i}");
    }
}

#[test]
fn coder_round_trips_stress_run() {
    let mut script: Vec<(&[i64], usize)> = Vec::new();
    for i in 0..600usize {
        script.push((&CUMF_INTRADC, (i * 37) % 254));
        script.push((&CUMF_SIGN, i % 2));
        if i % 3 == 0 {
            script.push((&CUMF_MVD, (i * 11) % 64));
        }
    }
    let mut w = BitWriter::new();
    {
        let mut enc = SacEncoder::new(&mut w);
        for &(model, index) in &script {
            enc.encode_symbol(index, model);
        }
        enc.flush();
    }
    let bytes = w.finish();
    let mut r = BitReader::new(&bytes);
    let mut dec = SacDecoder::new(&mut r);
    for (i, &(model, index)) in script.iter().enumerate() {
        assert_eq!(dec.decode_symbol(model), index, "symbol {i}");
    }
}

#[test]
fn coder_compresses_most_probable_symbols() {
    let n = 512usize;
    let mut w = BitWriter::new();
    {
        let mut enc = SacEncoder::new(&mut w);
        for _ in 0..n {
            enc.encode_symbol(32, &CUMF_MVD);
        }
        enc.flush();
    }
    let bits = w.bit_position();
    assert!(
        bits < (n as u64) * 2,
        "expected < {} bits, got {bits}",
        n * 2
    );
}

#[test]
fn stuffing_prevents_start_code_emulation() {
    let mut w = BitWriter::new();
    {
        let mut enc = SacEncoder::new(&mut w);
        for i in 0..2000usize {
            enc.encode_symbol(if i % 5 == 0 { 253 } else { 0 }, &CUMF_INTRADC);
        }
        enc.flush();
    }
    let bytes = w.finish();
    let mut run = 0u32;
    let mut max_run = 0u32;
    for byte in &bytes {
        for bit in (0..8).rev() {
            if byte & (1 << bit) == 0 {
                run += 1;
                max_run = max_run.max(run);
            } else {
                run = 0;
            }
        }
    }
    assert!(max_run <= 21, "zero run of {max_run} bits");
}

#[test]
fn syntax_codecs_round_trip() {
    let mut w = BitWriter::new();
    {
        let mut enc = SacEncoder::new(&mut w);
        encode_cod(&mut enc, true);
        encode_cod(&mut enc, false);
        encode_mcbpc_i_sac(&mut enc, MbType::Intra, 0b10).unwrap();
        encode_mcbpc_i_sac(&mut enc, MbType::IntraQ, 0b01).unwrap();
        encode_mcbpc_i_sac(&mut enc, MbType::Stuffing, 0).unwrap();
        encode_mcbpc_p_sac(&mut enc, MbType::Inter, 0b11).unwrap();
        encode_mcbpc_p_sac(&mut enc, MbType::IntraQ, 0b00).unwrap();
        encode_mcbpc_p_sac(&mut enc, MbType::Stuffing, 0).unwrap();
        encode_cbpy_sac(&mut enc, 0b1010, true).unwrap();
        encode_cbpy_sac(&mut enc, 0b0101, false).unwrap();
        encode_dquant_sac(&mut enc, -2).unwrap();
        encode_dquant_sac(&mut enc, 1).unwrap();
        encode_mvd_component_sac(&mut enc, -32).unwrap();
        encode_mvd_component_sac(&mut enc, 0).unwrap();
        encode_mvd_component_sac(&mut enc, 31).unwrap();
        encode_intradc_sac(&mut enc, 8).unwrap();
        encode_intradc_sac(&mut enc, 1024).unwrap();
        encode_intradc_sac(&mut enc, 2032).unwrap();
        encode_intradc_sac(&mut enc, 1032).unwrap();
        enc.flush();
    }
    let bytes = w.finish();
    let mut r = BitReader::new(&bytes);
    let mut dec = SacDecoder::new(&mut r);
    assert!(decode_cod(&mut dec));
    assert!(!decode_cod(&mut dec));
    assert_eq!(decode_mcbpc_i_sac(&mut dec).unwrap(), (MbType::Intra, 0b10));
    assert_eq!(
        decode_mcbpc_i_sac(&mut dec).unwrap(),
        (MbType::IntraQ, 0b01)
    );
    assert_eq!(decode_mcbpc_i_sac(&mut dec).unwrap().0, MbType::Stuffing);
    assert_eq!(decode_mcbpc_p_sac(&mut dec).unwrap(), (MbType::Inter, 0b11));
    assert_eq!(
        decode_mcbpc_p_sac(&mut dec).unwrap(),
        (MbType::IntraQ, 0b00)
    );
    assert_eq!(decode_mcbpc_p_sac(&mut dec).unwrap().0, MbType::Stuffing);
    assert_eq!(decode_cbpy_sac(&mut dec, true), 0b1010);
    assert_eq!(decode_cbpy_sac(&mut dec, false), 0b0101);
    assert_eq!(decode_dquant_sac(&mut dec), -2);
    assert_eq!(decode_dquant_sac(&mut dec), 1);
    assert_eq!(decode_mvd_component_sac(&mut dec), -32);
    assert_eq!(decode_mvd_component_sac(&mut dec), 0);
    assert_eq!(decode_mvd_component_sac(&mut dec), 31);
    assert_eq!(decode_intradc_sac(&mut dec), 8);
    assert_eq!(decode_intradc_sac(&mut dec), 1024);
    assert_eq!(decode_intradc_sac(&mut dec), 2032);
    assert_eq!(decode_intradc_sac(&mut dec), 1032);
}

#[test]
fn intradc_forbidden_levels_refused() {
    let mut w = BitWriter::new();
    let mut enc = SacEncoder::new(&mut w);
    assert_eq!(encode_intradc_sac(&mut enc, 0), Err(Error::BadIntradcCode));
    assert_eq!(
        encode_intradc_sac(&mut enc, 1028),
        Err(Error::BadIntradcCode)
    );
    assert_eq!(
        encode_intradc_sac(&mut enc, 2040),
        Err(Error::BadIntradcCode)
    );
}

#[test]
fn block_layer_round_trips() {
    let mut intra_scan = [0i16; COEFFS_PER_BLOCK];
    intra_scan[1] = 3;
    intra_scan[4] = -1;
    intra_scan[20] = 90;
    intra_scan[63] = 1;

    let mut inter_scan = [0i16; COEFFS_PER_BLOCK];
    inter_scan[0] = -5;
    inter_scan[7] = 2;
    inter_scan[8] = -120;
    inter_scan[33] = 1;

    let mut w = BitWriter::new();
    {
        let mut enc = SacEncoder::new(&mut w);
        write_block_sac(&mut enc, Some(960), &intra_scan, true, true).unwrap();
        write_block_sac(&mut enc, None, &inter_scan, true, false).unwrap();
        write_block_sac(&mut enc, Some(1024), &[0; COEFFS_PER_BLOCK], false, true).unwrap();
        enc.flush();
    }
    let bytes = w.finish();
    let mut r = BitReader::new(&bytes);
    let mut dec = SacDecoder::new(&mut r);

    let b1 = parse_block_sac(&mut dec, true, true, true).unwrap();
    assert_eq!(b1.coefficients[0], 960);
    assert_eq!(&b1.coefficients[1..], &intra_scan[1..]);

    let b2 = parse_block_sac(&mut dec, false, true, false).unwrap();
    assert_eq!(b2.coefficients, inter_scan);

    let b3 = parse_block_sac(&mut dec, true, false, true).unwrap();
    assert_eq!(b3.coefficients[0], 1024);
    assert_eq!(b3.tcoef_event_count, 0);
}

#[test]
fn stuffing_filter_is_invertible() {
    let mut pattern: Vec<bool> = Vec::new();
    for run in [3usize, 14, 15, 28, 1, 14, 5, 30] {
        pattern.extend(std::iter::repeat_n(false, run));
        pattern.push(true);
    }
    let mut w = BitWriter::new();
    {
        let mut enc = SacEncoder::new(&mut w);
        for &b in &pattern {
            enc.emit_bit(b);
        }
        for _ in 0..8 {
            enc.emit_bit(true);
        }
    }
    let bytes = w.finish();
    let mut r = BitReader::new(&bytes);
    let mut dec = SacDecoder {
        reader: &mut r,
        low: 0,
        high: TOP,
        code_value: 0,
        zero_run: 0,
    };
    for (i, &b) in pattern.iter().enumerate() {
        assert_eq!(dec.next_bit() == 1, b, "bit {i}");
    }
}

#[test]
fn the_reader_stays_where_decoding_stopped() {
    let bytes = [0xAA, 0x55, 0xAA, 0x55];
    let mut r = BitReader::new(&bytes);
    let first = SacDecoder::new(&mut r).decode_symbol(&CUMF_COD);
    let at = r.bit_position();
    assert!((16..=32).contains(&at));
    let mut again = BitReader::new(&bytes);
    assert_eq!(SacDecoder::new(&mut again).decode_symbol(&CUMF_COD), first);
    assert_eq!(again.bit_position(), at);
    let mut short = BitReader::new(&bytes[..1]);
    let mut dec = SacDecoder::new(&mut short);
    for _ in 0..20 {
        dec.decode_symbol(&CUMF_SIGN);
    }
    assert_eq!(short.bit_position(), 8);
}
