use h263::error::Error;
use h263::picture_header::{
    parse_picture_header, H263PictureCodingType, H263PictureHeader, H263SourceFormat, PSC_BITS,
    PSC_VALUE,
};
use oxideav_core::bits::{BitReader, BitWriter};

fn build_header(
    tr: u8,
    split_screen: bool,
    document_camera: bool,
    freeze_release: bool,
    source_format_bits: u32,
    coding_type_inter: bool,
    umv: bool,
    sac: bool,
    ap: bool,
    pb: bool,
) -> Vec<u8> {
    let mut w = BitWriter::new();
    w.write_u32(PSC_VALUE, PSC_BITS);
    w.write_u32(tr as u32, 8);
    w.write_bit(true);
    w.write_bit(false);
    w.write_bit(split_screen);
    w.write_bit(document_camera);
    w.write_bit(freeze_release);
    w.write_u32(source_format_bits, 3);
    w.write_bit(coding_type_inter);
    w.write_bit(umv);
    w.write_bit(sac);
    w.write_bit(ap);
    w.write_bit(pb);
    while !w.is_byte_aligned() {
        w.write_bit(false);
    }
    w.finish()
}

#[test]
fn parses_minimal_qcif_intra_picture() {
    let bytes = build_header(
        0, false, false, false, 0b010, false, false, false, false, false,
    );
    let hdr = parse_picture_header_from(&bytes).expect("parse");
    assert_eq!(hdr.temporal_reference, 0);
    assert!(!hdr.split_screen);
    assert!(!hdr.document_camera);
    assert!(!hdr.freeze_release);
    assert_eq!(hdr.source_format, H263SourceFormat::Qcif);
    assert_eq!(hdr.source_format.luma_dimensions(), Some((176, 144)));
    assert_eq!(hdr.coding_type, H263PictureCodingType::Intra);
    assert!(!hdr.umv_mode);
    assert!(!hdr.sac_mode);
    assert!(!hdr.advanced_prediction);
    assert!(!hdr.pb_frames);
}

#[test]
fn parses_cif_inter_picture_with_all_mode_flags_set() {
    let bytes = build_header(200, true, true, true, 0b011, true, true, true, true, true);
    let hdr = parse_picture_header_from(&bytes).expect("parse");
    assert_eq!(hdr.temporal_reference, 200);
    assert!(hdr.split_screen);
    assert!(hdr.document_camera);
    assert!(hdr.freeze_release);
    assert_eq!(hdr.source_format, H263SourceFormat::Cif);
    assert_eq!(hdr.source_format.luma_dimensions(), Some((352, 288)));
    assert_eq!(hdr.coding_type, H263PictureCodingType::Inter);
    assert!(hdr.umv_mode);
    assert!(hdr.sac_mode);
    assert!(hdr.advanced_prediction);
    assert!(hdr.pb_frames);
}

#[test]
fn each_source_format_round_trips_to_spec_dimensions() {
    let cases = [
        (0b001, H263SourceFormat::SubQcif, Some((128, 96))),
        (0b010, H263SourceFormat::Qcif, Some((176, 144))),
        (0b011, H263SourceFormat::Cif, Some((352, 288))),
        (0b100, H263SourceFormat::Cif4, Some((704, 576))),
        (0b101, H263SourceFormat::Cif16, Some((1408, 1152))),
        (0b110, H263SourceFormat::Reserved110, None),
    ];
    for (bits, expected_fmt, expected_dims) in cases {
        let bytes = build_header(
            1, false, false, false, bits, false, false, false, false, false,
        );
        let hdr = parse_picture_header_from(&bytes).expect("parse");
        assert_eq!(hdr.source_format, expected_fmt, "bits={:#05b}", bits);
        assert_eq!(hdr.source_format.luma_dimensions(), expected_dims);
    }
}

#[test]
fn forbidden_source_format_000_is_rejected() {
    let bytes = build_header(
        0, false, false, false, 0b000, false, false, false, false, false,
    );
    assert_eq!(
        parse_picture_header_from(&bytes).unwrap_err(),
        Error::ForbiddenSourceFormat
    );
}

#[test]
fn extended_ptype_111_returns_specific_error() {
    let bytes = build_header(
        0, false, false, false, 0b111, false, false, false, false, false,
    );
    assert_eq!(
        parse_picture_header_from(&bytes).unwrap_err(),
        Error::ExtendedPtypeNotSupported
    );
}

#[test]
fn bad_psc_is_detected() {
    let mut w = BitWriter::new();
    w.write_u32(PSC_VALUE ^ 0b1, PSC_BITS);
    w.write_u32(0, 8);
    w.write_u32(0, 16);
    while !w.is_byte_aligned() {
        w.write_bit(false);
    }
    let bytes = w.finish();
    assert_eq!(
        parse_picture_header_from(&bytes).unwrap_err(),
        Error::BadPictureStartCode
    );
}

#[test]
fn ptype_bit2_violation_is_rejected() {
    let mut w = BitWriter::new();
    w.write_u32(PSC_VALUE, PSC_BITS);
    w.write_u32(0, 8);
    w.write_bit(true);
    w.write_bit(true);
    w.write_bit(false);
    w.write_bit(false);
    w.write_bit(false);
    w.write_u32(0b010, 3);
    w.write_u32(0, 5);
    while !w.is_byte_aligned() {
        w.write_bit(false);
    }
    let bytes = w.finish();
    assert_eq!(
        parse_picture_header_from(&bytes).unwrap_err(),
        Error::BadPtypeFixedBits
    );
}

#[test]
fn short_buffer_yields_unexpected_eof() {
    let mut w = BitWriter::new();
    w.write_u32(PSC_VALUE, PSC_BITS);
    while !w.is_byte_aligned() {
        w.write_bit(false);
    }
    let bytes = w.finish();
    assert_eq!(
        parse_picture_header_from(&bytes).unwrap_err(),
        Error::UnexpectedEof
    );
}

fn parse_picture_header_from(data: &[u8]) -> Result<H263PictureHeader, Error> {
    let mut r = BitReader::new(data);
    parse_picture_header(&mut r)
}
