use h263::slice::{
    align_for_ssc, mba_field_width, parse_slice_header_body, swi_field_width, write_slice_header,
    SourceFormat, SssMode, SSC_BITS, SSC_VALUE,
};
use oxideav_core::bits::{BitReader, BitWriter};

#[test]
fn mba_widths_table_k2() {
    assert_eq!(mba_field_width(SourceFormat::SubQcif, false).unwrap(), 6);
    assert_eq!(mba_field_width(SourceFormat::Qcif, false).unwrap(), 7);
    assert_eq!(mba_field_width(SourceFormat::Cif, false).unwrap(), 9);
    assert_eq!(mba_field_width(SourceFormat::FourCif, false).unwrap(), 11);
    assert_eq!(
        mba_field_width(SourceFormat::SixteenCif, false).unwrap(),
        13
    );
}

#[test]
fn swi_widths_table_k3() {
    assert_eq!(swi_field_width(SourceFormat::SubQcif, false).unwrap(), 4);
    assert_eq!(swi_field_width(SourceFormat::Qcif, false).unwrap(), 4);
    assert_eq!(swi_field_width(SourceFormat::Cif, false).unwrap(), 5);
    assert_eq!(swi_field_width(SourceFormat::FourCif, false).unwrap(), 6);
    assert_eq!(swi_field_width(SourceFormat::SixteenCif, false).unwrap(), 7);
}

#[test]
fn sss_mode_bits_round_trip() {
    for bits in 0..4u8 {
        let m = SssMode::from_bits(bits);
        assert_eq!(m.to_bits() as u8, bits);
    }
}

#[test]
fn slice_header_round_trip_qcif_no_rs() {
    let sss = SssMode {
        rectangular_slice: false,
        arbitrary_order: false,
    };
    let mut bw = BitWriter::with_capacity(64);
    align_for_ssc(&mut bw);
    write_slice_header(
        &mut bw,
        SourceFormat::Qcif,
        sss,
        false,
        42,
        7,
        None,
        1,
        None,
    )
    .unwrap();
    let bytes = bw.finish();
    let mut br = BitReader::new(&bytes);
    let ssc = br.read_u32(SSC_BITS).unwrap();
    assert_eq!(ssc, SSC_VALUE);
    let hdr = parse_slice_header_body(&mut br, SourceFormat::Qcif, sss, false, false).unwrap();
    assert_eq!(hdr.mba, 42);
    assert_eq!(hdr.squant, 7);
    assert_eq!(hdr.swi, None);
    assert_eq!(hdr.gfid, 1);
    assert_eq!(hdr.ssbi, None);
}

#[test]
fn slice_header_round_trip_cif_with_rs() {
    let sss = SssMode {
        rectangular_slice: true,
        arbitrary_order: false,
    };
    let mut bw = BitWriter::with_capacity(64);
    align_for_ssc(&mut bw);
    write_slice_header(
        &mut bw,
        SourceFormat::Cif,
        sss,
        false,
        120,
        9,
        Some(10),
        2,
        None,
    )
    .unwrap();
    let bytes = bw.finish();
    let mut br = BitReader::new(&bytes);
    let _ssc = br.read_u32(SSC_BITS).unwrap();
    let hdr = parse_slice_header_body(&mut br, SourceFormat::Cif, sss, false, false).unwrap();
    assert_eq!(hdr.mba, 120);
    assert_eq!(hdr.squant, 9);
    assert_eq!(hdr.swi, Some(10));
    assert_eq!(hdr.gfid, 2);
}

#[test]
fn first_slice_no_squant_no_ssc() {
    let mut bw = BitWriter::with_capacity(8);
    bw.write_bits(1, 1);
    bw.write_bits(0, 7);
    bw.write_bits(1, 1);
    bw.write_bits(0, 2);
    let bytes = bw.finish();
    let mut br = BitReader::new(&bytes);
    let sss = SssMode::default();
    let hdr = parse_slice_header_body(&mut br, SourceFormat::Qcif, sss, false, true).unwrap();
    assert_eq!(hdr.mba, 0);
    assert_eq!(hdr.squant, 0);
    assert_eq!(hdr.swi, None);
    assert_eq!(hdr.gfid, 0);
}
