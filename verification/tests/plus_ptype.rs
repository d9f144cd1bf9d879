use h263::error::Error;
use h263::plus_ptype::{
    parse_plus_ptype, InheritedExtendedState, PlusPictureType, PlusPtypeHeader, PlusSourceFormat, Uui,
    OPPTYPE_SRCFMT_CUSTOM, PAR_CODE_EXTENDED, UFEP_FULL, UFEP_MANDATORY_ONLY,
};
use oxideav_core::bits::{BitReader, BitWriter};

fn write_opptype(
    w: &mut BitWriter,
    src_bits: u32,
    custom_pcf: bool,
    umv: bool,
    sac: bool,
    ap: bool,
    aic: bool,
    df: bool,
    ss: bool,
    rps: bool,
    isd: bool,
    aiv: bool,
    mq: bool,
) {
    w.write_u32(src_bits, 3);
    w.write_bit(custom_pcf);
    w.write_bit(umv);
    w.write_bit(sac);
    w.write_bit(ap);
    w.write_bit(aic);
    w.write_bit(df);
    w.write_bit(ss);
    w.write_bit(rps);
    w.write_bit(isd);
    w.write_bit(aiv);
    w.write_bit(mq);
    w.write_bit(true);
    w.write_bit(false);
    w.write_bit(false);
    w.write_bit(false);
}

fn write_mpptype(w: &mut BitWriter, ptype_bits: u32, rpr: bool, rru: bool, rtype: bool) {
    w.write_u32(ptype_bits, 3);
    w.write_bit(rpr);
    w.write_bit(rru);
    w.write_bit(rtype);
    w.write_bit(false);
    w.write_bit(false);
    w.write_bit(true);
}

fn parse(bytes: &[u8], inherited: InheritedExtendedState) -> Result<PlusPtypeHeader, Error> {
    let mut r = BitReader::new(bytes);
    parse_plus_ptype(&mut r, inherited)
}

#[test]
fn full_ufep_qcif_inter_minimal() {
    let mut w = BitWriter::new();
    w.write_u32(UFEP_FULL, 3);
    write_opptype(
        &mut w, 0b010, false, false, false, false, false, false, false, false, false, false,
        false,
    );
    write_mpptype(&mut w, 0b001, false, false, false);
    w.write_bit(false);
    while !w.is_byte_aligned() {
        w.write_bit(false);
    }
    let hdr = parse(&w.finish(), InheritedExtendedState::default()).expect("parse");
    assert_eq!(hdr.ufep, 0b001);
    let op = hdr.opptype.expect("opptype present");
    assert_eq!(op.source_format, PlusSourceFormat::Qcif);
    assert!(!op.umv && !op.advanced_prediction && !op.modified_quantization);
    assert_eq!(hdr.mpptype.picture_type, PlusPictureType::Inter);
    assert!(!hdr.cpm);
    assert!(hdr.psbi.is_none());
    assert!(hdr.cpfmt.is_none());
    assert!(hdr.etr.is_none());
    assert!(hdr.uui.is_none());
    assert_eq!(hdr.source_format(), Some(PlusSourceFormat::Qcif));
}

#[test]
fn full_ufep_all_optype_modes_on_intra() {
    let mut w = BitWriter::new();
    w.write_u32(UFEP_FULL, 3);
    write_opptype(
        &mut w, 0b011, false, false, false, true, true, true, false, false, false, true, true,
    );
    write_mpptype(&mut w, 0b000, false, false, false);
    w.write_bit(false);
    while !w.is_byte_aligned() {
        w.write_bit(false);
    }
    let hdr = parse(&w.finish(), InheritedExtendedState::default()).expect("parse");
    let op = hdr.opptype.unwrap();
    assert_eq!(op.source_format, PlusSourceFormat::Cif);
    assert!(op.advanced_prediction);
    assert!(op.advanced_intra);
    assert!(op.deblocking);
    assert!(op.alternative_inter_vlc);
    assert!(op.modified_quantization);
    assert!(!op.umv);
    assert_eq!(hdr.mpptype.picture_type, PlusPictureType::Intra);
}

#[test]
fn cpm_set_pulls_psbi() {
    let mut w = BitWriter::new();
    w.write_u32(UFEP_FULL, 3);
    write_opptype(
        &mut w, 0b010, false, false, false, false, false, false, false, false, false, false,
        false,
    );
    write_mpptype(&mut w, 0b001, false, false, false);
    w.write_bit(true);
    w.write_u32(0b10, 2);
    while !w.is_byte_aligned() {
        w.write_bit(false);
    }
    let hdr = parse(&w.finish(), InheritedExtendedState::default()).expect("parse");
    assert!(hdr.cpm);
    assert_eq!(hdr.psbi, Some(2));
}

#[test]
fn custom_format_pulls_cpfmt_and_epar() {
    let mut w = BitWriter::new();
    w.write_u32(UFEP_FULL, 3);
    write_opptype(
        &mut w,
        OPPTYPE_SRCFMT_CUSTOM,
        false,
        false,
        false,
        false,
        false,
        false,
        false,
        false,
        false,
        false,
        false,
    );
    write_mpptype(&mut w, 0b001, false, false, false);
    w.write_bit(false);
    w.write_u32(PAR_CODE_EXTENDED, 4);
    w.write_u32(87, 9);
    w.write_bit(true);
    w.write_u32(72, 9);
    w.write_u32(64, 8);
    w.write_u32(45, 8);
    while !w.is_byte_aligned() {
        w.write_bit(false);
    }
    let hdr = parse(&w.finish(), InheritedExtendedState::default()).expect("parse");
    let cp = hdr.cpfmt.expect("cpfmt");
    assert_eq!(cp.par_code, 0b1111);
    assert_eq!(cp.luma_width(), 352);
    assert_eq!(cp.luma_height(), 288);
    let ep = hdr.epar.expect("epar");
    assert_eq!(ep.width, 64);
    assert_eq!(ep.height, 45);
    assert_eq!(hdr.source_format(), Some(PlusSourceFormat::Custom));
}

#[test]
fn custom_pcf_pulls_cpcfc_and_etr() {
    let mut w = BitWriter::new();
    w.write_u32(UFEP_FULL, 3);
    write_opptype(
        &mut w, 0b010, true,
        false, false, false, false, false, false, false, false, false, false,
    );
    write_mpptype(&mut w, 0b001, false, false, false);
    w.write_bit(false);
    w.write_bit(true);
    w.write_u32(30, 7);
    w.write_u32(0b10, 2);
    while !w.is_byte_aligned() {
        w.write_bit(false);
    }
    let hdr = parse(&w.finish(), InheritedExtendedState::default()).expect("parse");
    let c = hdr.cpcfc.expect("cpcfc");
    assert!(c.conversion_1001);
    assert_eq!(c.divisor, 30);
    assert_eq!(hdr.etr, Some(0b10));
}

#[test]
fn umv_pulls_uui_limited_and_unlimited() {
    for (write_unlimited, expect) in [(false, Uui::Limited), (true, Uui::Unlimited)] {
        let mut w = BitWriter::new();
        w.write_u32(UFEP_FULL, 3);
        write_opptype(
            &mut w, 0b010, false, true,
            false, false, false, false, false, false, false, false, false,
        );
        write_mpptype(&mut w, 0b001, false, false, false);
        w.write_bit(false);
        if write_unlimited {
            w.write_bit(false);
            w.write_bit(true);
        } else {
            w.write_bit(true);
        }
        while !w.is_byte_aligned() {
            w.write_bit(false);
        }
        let hdr = parse(&w.finish(), InheritedExtendedState::default()).expect("parse");
        assert_eq!(hdr.uui, Some(expect));
    }
}

#[test]
fn ufep_zero_omits_opptype_and_uses_inherited_pcf() {
    let mut w = BitWriter::new();
    w.write_u32(UFEP_MANDATORY_ONLY, 3);
    write_mpptype(&mut w, 0b001, false, false, false);
    w.write_bit(false);
    w.write_u32(0b01, 2);
    while !w.is_byte_aligned() {
        w.write_bit(false);
    }
    let inherited = InheritedExtendedState { custom_pcf: true, ..Default::default() };
    let hdr = parse(&w.finish(), inherited).expect("parse");
    assert_eq!(hdr.ufep, 0b000);
    assert!(hdr.opptype.is_none());
    assert_eq!(hdr.etr, Some(0b01));
    assert!(hdr.source_format().is_none());
    assert!(hdr.custom_pcf(inherited));
}

#[test]
fn ufep_zero_no_inherited_pcf_omits_etr() {
    let mut w = BitWriter::new();
    w.write_u32(UFEP_MANDATORY_ONLY, 3);
    write_mpptype(&mut w, 0b001, false, false, false);
    w.write_bit(false);
    while !w.is_byte_aligned() {
        w.write_bit(false);
    }
    let hdr = parse(&w.finish(), InheritedExtendedState::default()).expect("parse");
    assert!(hdr.etr.is_none());
    assert!(!hdr.custom_pcf(InheritedExtendedState::default()));
}

#[test]
fn reserved_ufep_rejected() {
    let mut w = BitWriter::new();
    w.write_u32(0b010, 3);
    w.write_u32(0, 16);
    while !w.is_byte_aligned() {
        w.write_bit(false);
    }
    assert_eq!(
        parse(&w.finish(), InheritedExtendedState::default()).unwrap_err(),
        Error::PlusPtypeReservedField
    );
}

#[test]
fn opptype_missing_sce_guard_rejected() {
    let mut w = BitWriter::new();
    w.write_u32(UFEP_FULL, 3);
    w.write_u32(0b010, 3);
    for _ in 0..11 {
        w.write_bit(false);
    }
    w.write_bit(false);
    w.write_bit(false);
    w.write_bit(false);
    w.write_bit(false);
    w.write_u32(0, 16);
    while !w.is_byte_aligned() {
        w.write_bit(false);
    }
    assert_eq!(
        parse(&w.finish(), InheritedExtendedState::default()).unwrap_err(),
        Error::PlusPtypeReservedField
    );
}

#[test]
fn mpptype_reserved_picture_type_rejected() {
    let mut w = BitWriter::new();
    w.write_u32(UFEP_FULL, 3);
    write_opptype(
        &mut w, 0b010, false, false, false, false, false, false, false, false, false, false,
        false,
    );
    write_mpptype(&mut w, 0b110, false, false, false);
    w.write_bit(false);
    while !w.is_byte_aligned() {
        w.write_bit(false);
    }
    assert_eq!(
        parse(&w.finish(), InheritedExtendedState::default()).unwrap_err(),
        Error::PlusPtypeReservedField
    );
}

#[test]
fn rps_mode_is_unsupported() {
    let mut w = BitWriter::new();
    w.write_u32(UFEP_FULL, 3);
    write_opptype(
        &mut w, 0b010, false, false, false, false, false, false, false, true,
        false, false, false,
    );
    write_mpptype(&mut w, 0b001, false, false, false);
    w.write_bit(false);
    while !w.is_byte_aligned() {
        w.write_bit(false);
    }
    assert_eq!(
        parse(&w.finish(), InheritedExtendedState::default()).unwrap_err(),
        Error::PlusPtypeUnsupported
    );
}

#[test]
fn rpr_mode_is_unsupported() {
    let mut w = BitWriter::new();
    w.write_u32(UFEP_FULL, 3);
    write_opptype(
        &mut w, 0b010, false, false, false, false, false, false, false, false, false, false,
        false,
    );
    write_mpptype(&mut w, 0b001, true, false, false);
    w.write_bit(false);
    while !w.is_byte_aligned() {
        w.write_bit(false);
    }
    assert_eq!(
        parse(&w.finish(), InheritedExtendedState::default()).unwrap_err(),
        Error::PlusPtypeUnsupported
    );
}

#[test]
fn b_picture_type_is_unsupported() {
    let mut w = BitWriter::new();
    w.write_u32(UFEP_FULL, 3);
    write_opptype(
        &mut w, 0b010, false, false, false, false, false, false, false, false, false, false,
        false,
    );
    write_mpptype(&mut w, 0b011, false, false, false);
    w.write_bit(false);
    while !w.is_byte_aligned() {
        w.write_bit(false);
    }
    assert_eq!(
        parse(&w.finish(), InheritedExtendedState::default()).unwrap_err(),
        Error::PlusPtypeUnsupported
    );
}

#[test]
fn cpfmt_forbidden_par_code_rejected() {
    let mut w = BitWriter::new();
    w.write_u32(UFEP_FULL, 3);
    write_opptype(
        &mut w,
        OPPTYPE_SRCFMT_CUSTOM,
        false,
        false,
        false,
        false,
        false,
        false,
        false,
        false,
        false,
        false,
        false,
    );
    write_mpptype(&mut w, 0b001, false, false, false);
    w.write_bit(false);
    w.write_u32(0b0000, 4);
    w.write_u32(87, 9);
    w.write_bit(true);
    w.write_u32(72, 9);
    while !w.is_byte_aligned() {
        w.write_bit(false);
    }
    assert_eq!(
        parse(&w.finish(), InheritedExtendedState::default()).unwrap_err(),
        Error::PlusPtypeReservedField
    );
}

#[test]
fn short_buffer_is_unexpected_eof() {
    let mut w = BitWriter::new();
    w.write_u32(UFEP_FULL, 3);
    let bytes = w.finish();
    assert_eq!(
        parse(&bytes, InheritedExtendedState::default()).unwrap_err(),
        Error::UnexpectedEof
    );
}
