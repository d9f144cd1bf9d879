use h263::error::Error;
use h263::scalability::{
    decode_cbpc, decode_mb_header_b_ep, decode_mb_header_ei, decode_mbtype_b, decode_mbtype_ep,
    decode_mcbpc_ei, ScalabilityPictureType, ScalabilityPredType,
};
use oxideav_core::bits::{BitReader, BitWriter};

fn bits(s: &str) -> Vec<u8> {
    let mut w = BitWriter::new();
    for b in s.bytes() {
        if b == b'0' || b == b'1' {
            w.write_bit(b == b'1');
        }
    }
    w.finish()
}

#[test]
fn unknown_macroblock_types_are_refused() {
    let zeros = bits("0000 0000 0000 0000");
    assert_eq!(
        decode_mbtype_b(&mut BitReader::new(&zeros)),
        Err(Error::BadScalabilityMbType)
    );
    assert_eq!(
        decode_mbtype_ep(&mut BitReader::new(&zeros)),
        Err(Error::BadScalabilityMbType)
    );
    assert_eq!(
        decode_mcbpc_ei(&mut BitReader::new(&zeros)),
        Err(Error::BadScalabilityMbType)
    );
}

#[test]
fn codes_that_end_too_soon_are_refused() {
    assert_eq!(
        decode_cbpc(&mut BitReader::new(&[])),
        Err(Error::UnexpectedEof)
    );
    assert_eq!(
        decode_mb_header_ei(&mut BitReader::new(&[])),
        Err(Error::UnexpectedEof)
    );
}

#[test]
fn coded_headers_carry_their_patterns() {
    let data = bits("0 00101 111");
    let mut r = BitReader::new(&data);
    let h = decode_mb_header_b_ep(&mut r, ScalabilityPictureType::BPicture).unwrap();
    assert!(h.coded && h.has_cbp && h.has_mvdfw && h.has_mvdbw && !h.has_dquant);
    assert_eq!(h.pred_type, ScalabilityPredType::Bidirectional);
    assert_eq!(h.cbpc, 0b10);
    assert!(!h.cbpy_uses_intra_column);
    assert!(!h.is_intra());
}

#[test]
fn enhancement_intra_pictures_have_no_vectors() {
    for code in ["1", "001", "010", "011", "0001"] {
        let data = bits(&format!("0{code}"));
        let mut r = BitReader::new(&data);
        let h = decode_mb_header_ei(&mut r).unwrap();
        assert!(!h.has_mvdfw && !h.has_mvdbw, "code {code}");
        assert!(h.cbpy_uses_intra_column, "code {code}");
    }
}
