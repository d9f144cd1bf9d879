use h263::scalability::{
    cbpy_uses_intra_column, decode_cbpc, decode_mb_header_b_ep, decode_mb_header_ei,
    decode_mbtype_b, decode_mbtype_ep, decode_mcbpc_ei, ScalabilityPictureType, ScalabilityPredType,
};
use oxideav_core::bits::{BitReader, BitWriter};

fn reader_from_bits(bits: &[u8]) -> Vec<u8> {
    let mut w = BitWriter::new();
    for &bit in bits {
        w.write_bit(bit != 0);
    }
    w.finish()
}

fn bits(s: &str) -> Vec<u8> {
    let v: Vec<u8> = s
        .bytes()
        .filter(|b| *b == b'0' || *b == b'1')
        .map(|b| b - b'0')
        .collect();
    reader_from_bits(&v)
}

#[test]
fn cbpc_table_o4() {
    for (code, expect) in [("0", 0b00), ("10", 0b01), ("111", 0b10), ("110", 0b11)] {
        let buf = bits(code);
        let mut r = BitReader::new(&buf);
        assert_eq!(decode_cbpc(&mut r).unwrap(), expect, "code {code}");
    }
}

#[test]
fn b_mbtype_direct() {
    let buf = bits("11");
    let mut r = BitReader::new(&buf);
    let row = decode_mbtype_b(&mut r).unwrap();
    assert_eq!(row.pred_type, ScalabilityPredType::Direct);
    assert!(row.has_cbp);
    assert!(!row.has_dquant);
    assert!(!row.has_mvdfw && !row.has_mvdbw);
}

#[test]
fn b_mbtype_all_rows() {
    let cases = [
        ("11", ScalabilityPredType::Direct, false, false, true, false),
        (
            "0001",
            ScalabilityPredType::Direct,
            false,
            false,
            true,
            true,
        ),
        (
            "100",
            ScalabilityPredType::Forward,
            true,
            false,
            false,
            false,
        ),
        (
            "101",
            ScalabilityPredType::Forward,
            true,
            false,
            true,
            false,
        ),
        (
            "00110",
            ScalabilityPredType::Forward,
            true,
            false,
            true,
            true,
        ),
        (
            "010",
            ScalabilityPredType::Backward,
            false,
            true,
            false,
            false,
        ),
        (
            "011",
            ScalabilityPredType::Backward,
            false,
            true,
            true,
            false,
        ),
        (
            "00111",
            ScalabilityPredType::Backward,
            false,
            true,
            true,
            true,
        ),
        (
            "00100",
            ScalabilityPredType::Bidirectional,
            true,
            true,
            false,
            false,
        ),
        (
            "00101",
            ScalabilityPredType::Bidirectional,
            true,
            true,
            true,
            false,
        ),
        (
            "00001",
            ScalabilityPredType::Bidirectional,
            true,
            true,
            true,
            true,
        ),
        (
            "000001",
            ScalabilityPredType::Intra,
            false,
            false,
            true,
            false,
        ),
        (
            "0000001",
            ScalabilityPredType::Intra,
            false,
            false,
            true,
            true,
        ),
    ];
    for (code, pt, fw, bw, cbp, dq) in cases {
        let buf = bits(code);
        let mut r = BitReader::new(&buf);
        let row = decode_mbtype_b(&mut r).unwrap();
        assert_eq!(row.pred_type, pt, "code {code} type");
        assert_eq!(row.has_mvdfw, fw, "code {code} mvdfw");
        assert_eq!(row.has_mvdbw, bw, "code {code} mvdbw");
        assert_eq!(row.has_cbp, cbp, "code {code} cbp");
        assert_eq!(row.has_dquant, dq, "code {code} dquant");
    }
}

#[test]
fn ep_mbtype_all_rows() {
    let cases = [
        ("1", ScalabilityPredType::Forward, true, true, false),
        ("001", ScalabilityPredType::Forward, true, true, true),
        ("010", ScalabilityPredType::Upward, false, false, false),
        ("011", ScalabilityPredType::Upward, false, true, false),
        ("00001", ScalabilityPredType::Upward, false, true, true),
        (
            "00010",
            ScalabilityPredType::Bidirectional,
            false,
            false,
            false,
        ),
        (
            "00011",
            ScalabilityPredType::Bidirectional,
            true,
            true,
            false,
        ),
        (
            "000001",
            ScalabilityPredType::Bidirectional,
            true,
            true,
            true,
        ),
        ("0000001", ScalabilityPredType::Intra, false, true, false),
        ("00000001", ScalabilityPredType::Intra, false, true, true),
    ];
    for (code, pt, fw, cbp, dq) in cases {
        let buf = bits(code);
        let mut r = BitReader::new(&buf);
        let row = decode_mbtype_ep(&mut r).unwrap();
        assert_eq!(row.pred_type, pt, "code {code} type");
        assert_eq!(row.has_mvdfw, fw, "code {code} mvdfw");
        assert!(!row.has_mvdbw, "code {code} ep never backward");
        assert_eq!(row.has_cbp, cbp, "code {code} cbp");
        assert_eq!(row.has_dquant, dq, "code {code} dquant");
    }
}

#[test]
fn ei_mcbpc_upward_rows() {
    let cases = [
        ("1", ScalabilityPredType::Upward, 0b00, false),
        ("001", ScalabilityPredType::Upward, 0b01, false),
        ("010", ScalabilityPredType::Upward, 0b10, false),
        ("011", ScalabilityPredType::Upward, 0b11, false),
        ("0001", ScalabilityPredType::Upward, 0b00, true),
    ];
    for (code, pt, cbpc, dq) in cases {
        let buf = bits(code);
        let mut r = BitReader::new(&buf);
        let m = decode_mcbpc_ei(&mut r).unwrap();
        assert_eq!(m.pred_type, pt, "code {code}");
        assert_eq!(m.cbpc, cbpc, "code {code} cbpc");
        assert_eq!(m.has_dquant, dq, "code {code} dquant");
    }
}

#[test]
fn ei_mcbpc_intra_rows() {
    let cases = [
        ("00000001", ScalabilityPredType::Intra, 0b00, false),
        ("00001001", ScalabilityPredType::Intra, 0b01, false),
        ("00001010", ScalabilityPredType::Intra, 0b10, false),
        ("00001011", ScalabilityPredType::Intra, 0b11, false),
        ("00001100", ScalabilityPredType::Intra, 0b00, true),
        ("00001101", ScalabilityPredType::Intra, 0b01, true),
        ("00001110", ScalabilityPredType::Intra, 0b10, true),
        ("00001111", ScalabilityPredType::Intra, 0b11, true),
    ];
    for (code, pt, cbpc, dq) in cases {
        let buf = bits(code);
        let mut r = BitReader::new(&buf);
        let m = decode_mcbpc_ei(&mut r).unwrap();
        assert_eq!(m.pred_type, pt, "code {code}");
        assert_eq!(m.cbpc, cbpc, "code {code} cbpc");
        assert_eq!(m.has_dquant, dq, "code {code} dquant");
    }
}

#[test]
fn skipped_headers() {
    let buf = bits("1");
    let mut r = BitReader::new(&buf);
    let h = decode_mb_header_b_ep(&mut r, ScalabilityPictureType::BPicture).unwrap();
    assert!(!h.coded);
    assert_eq!(h.pred_type, ScalabilityPredType::Direct);

    let buf = bits("1");
    let mut r = BitReader::new(&buf);
    let h = decode_mb_header_b_ep(&mut r, ScalabilityPictureType::EpPicture).unwrap();
    assert!(!h.coded);
    assert_eq!(h.pred_type, ScalabilityPredType::Forward);

    let buf = bits("1");
    let mut r = BitReader::new(&buf);
    let h = decode_mb_header_ei(&mut r).unwrap();
    assert!(!h.coded);
    assert_eq!(h.pred_type, ScalabilityPredType::Upward);
}

#[test]
fn cbpy_column_selection() {
    assert!(cbpy_uses_intra_column(ScalabilityPictureType::BPicture, ScalabilityPredType::Intra));
    assert!(cbpy_uses_intra_column(
        ScalabilityPictureType::EiPicture,
        ScalabilityPredType::Upward
    ));
    assert!(cbpy_uses_intra_column(
        ScalabilityPictureType::EpPicture,
        ScalabilityPredType::Bidirectional
    ));
    assert!(!cbpy_uses_intra_column(
        ScalabilityPictureType::BPicture,
        ScalabilityPredType::Bidirectional
    ));
    assert!(!cbpy_uses_intra_column(
        ScalabilityPictureType::BPicture,
        ScalabilityPredType::Forward
    ));
}
