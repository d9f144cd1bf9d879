use h263::sei::{parse_psupp_stream, Sei, SeiError};
use h263::slice::{
    align_for_ssc, mba_field_width, parse_slice_header_body, swi_field_width, write_slice_header,
    SliceError, SourceFormat, SssMode,
};
use oxideav_core::bits::{BitReader, BitWriter};

#[test]
fn records_that_do_not_end_in_time_are_told_apart() {
    assert_eq!(
        parse_psupp_stream(&[0x34, 1]).unwrap_err(),
        SeiError::PastEnd {
            ftype: 3,
            dsize: 4,
            remaining: 1
        }
    );
    assert_eq!(
        parse_psupp_stream(&[0x21, 0]).unwrap_err(),
        SeiError::UnexpectedSize { ftype: 2, dsize: 1 }
    );
    assert_eq!(
        parse_psupp_stream(&[0xf0]).unwrap_err(),
        SeiError::ExtendedAtEnd
    );
    assert_eq!(
        parse_psupp_stream(&[0xf0, 0x23, 1]).unwrap_err(),
        SeiError::ExtendedPastEnd {
            ext_ftype: 2,
            ext_dsize: 3
        }
    );
    assert_eq!(
        parse_psupp_stream(&[0xc0]).unwrap_err(),
        SeiError::ChromaKeySize { dsize: 0 }
    );
}

#[test]
fn messages_name_what_is_wrong() {
    let e = parse_psupp_stream(&[0x34, 1]).unwrap_err();
    assert_eq!(
        e.message(),
        "h263 Annex L PSUPP: FTYPE=3 DSIZE=4 extends past stream end (1 bytes remaining)"
    );
}

#[test]
fn records_account_for_every_octet() {
    let stream = [0x10u8, 0x64, 0, 0, 0, 9, 0xd1, 7, 0x34, 1, 2, 3, 4];
    let recs = parse_psupp_stream(&stream).unwrap();
    assert_eq!(
        recs,
        vec![
            Sei::DoNothing,
            Sei::FullPictureSnapshotTag { id: 9 },
            Sei::Unknown {
                ftype: 13,
                payload: vec![7]
            },
            Sei::PartialPictureFreezeRequest {
                x: 1,
                y: 2,
                width: 3,
                height: 4
            },
        ]
    );
}

#[test]
fn reduced_resolution_narrows_the_fields() {
    assert_eq!(mba_field_width(SourceFormat::SubQcif, true), Ok(5));
    assert_eq!(swi_field_width(SourceFormat::SubQcif, true), Ok(3));
    assert_eq!(
        mba_field_width(SourceFormat::Reserved, false),
        Err(SliceError::UnsupportedFormat(SourceFormat::Reserved))
    );
}

fn write(
    sss: SssMode,
    cpm: bool,
    squant: u8,
    swi: Option<u32>,
    ssbi: Option<u8>,
) -> Result<Vec<u8>, SliceError> {
    let mut w = BitWriter::new();
    align_for_ssc(&mut w);
    write_slice_header(
        &mut w,
        SourceFormat::SixteenCif,
        sss,
        cpm,
        6000,
        squant,
        swi,
        3,
        ssbi,
    )?;
    Ok(w.finish())
}

#[test]
fn slice_headers_come_back() {
    let rect = SssMode {
        rectangular_slice: true,
        arbitrary_order: true,
    };
    let bytes = write(rect, true, 17, Some(80), Some(9)).unwrap();
    let mut r = BitReader::new(&bytes);
    assert_eq!(r.read_u32(17).unwrap(), 1);
    let h = parse_slice_header_body(&mut r, SourceFormat::SixteenCif, rect, true, false).unwrap();
    assert_eq!(
        (h.mba, h.squant, h.swi, h.gfid, h.ssbi),
        (6000, 17, Some(80), 3, Some(9))
    );
}

#[test]
fn slice_headers_that_lack_something_are_refused() {
    let plain = SssMode::default();
    let rect = SssMode {
        rectangular_slice: true,
        arbitrary_order: false,
    };
    assert_eq!(write(plain, true, 5, None, None), Err(SliceError::SsbiMissing));
    assert_eq!(write(rect, false, 5, None, None), Err(SliceError::SwiMissing));
    assert_eq!(write(plain, false, 0, None, None), Err(SliceError::BadSquant(0)));
    assert_eq!(
        write(plain, false, 32, None, None),
        Err(SliceError::BadSquant(32))
    );
}

#[test]
fn damaged_slice_headers_are_told_apart() {
    let plain = SssMode::default();
    let parse = |bits: &[(u32, u32)], format: SourceFormat| {
        let mut w = BitWriter::new();
        for &(v, n) in bits {
            w.write_u32(v, n);
        }
        let bytes = w.finish();
        let mut r = BitReader::new(&bytes);
        parse_slice_header_body(&mut r, format, plain, false, false).unwrap_err()
    };
    assert_eq!(
        parse(&[(0, 8)], SourceFormat::Qcif),
        SliceError::BadSepb1
    );
    assert_eq!(
        parse(&[(1, 1), (0, 13), (0, 8)], SourceFormat::SixteenCif),
        SliceError::BadSepb2
    );
    assert_eq!(
        parse(&[(1, 1), (0, 7), (4, 5), (0, 8)], SourceFormat::Qcif),
        SliceError::BadSepb3
    );
    assert_eq!(
        parse(&[(1, 1), (0, 7)], SourceFormat::Qcif),
        SliceError::OutOfBits
    );
}

#[test]
fn fields_of_other_modes_are_left_out() {
    let plain = SssMode::default();
    let rect = SssMode {
        rectangular_slice: true,
        arbitrary_order: false,
    };
    let bare = write(plain, false, 9, None, None).unwrap();
    assert_eq!(write(plain, false, 9, Some(5), Some(3)).unwrap(), bare);
    assert_eq!(
        write(rect, false, 9, Some(5), Some(3)).unwrap(),
        write(rect, false, 9, Some(5), None).unwrap()
    );
    assert_eq!(
        write(plain, true, 9, Some(5), Some(3)).unwrap(),
        write(plain, true, 9, None, Some(3)).unwrap()
    );
    let mut r = BitReader::new(&bare);
    r.skip(17).unwrap();
    let h = parse_slice_header_body(&mut r, SourceFormat::SixteenCif, plain, false, false).unwrap();
    assert_eq!((h.mba, h.squant, h.swi, h.ssbi), (6000, 9, None, None));
}
