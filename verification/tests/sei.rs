use h263::sei::{parse_psupp_stream, Sei};

#[test]
fn empty_psupp_stream_yields_no_records() {
    let recs = parse_psupp_stream(&[]).unwrap();
    assert!(recs.is_empty());
}

#[test]
fn do_nothing_round_trip() {
    let recs = parse_psupp_stream(&[0x10]).unwrap();
    assert_eq!(recs, vec![Sei::DoNothing]);
}

#[test]
fn full_picture_freeze_request_round_trip() {
    let recs = parse_psupp_stream(&[0x20]).unwrap();
    assert_eq!(recs, vec![Sei::FullPictureFreezeRequest]);
}

#[test]
fn partial_picture_freeze_request_with_rect() {
    let recs = parse_psupp_stream(&[0x34, 0, 0, 3, 2]).unwrap();
    assert_eq!(
        recs,
        vec![Sei::PartialPictureFreezeRequest {
            x: 0,
            y: 0,
            width: 3,
            height: 2,
        }]
    );
}

#[test]
fn full_picture_snapshot_tag_carries_id() {
    let recs = parse_psupp_stream(&[0x64, 0x12, 0x34, 0x56, 0x78]).unwrap();
    assert_eq!(recs, vec![Sei::FullPictureSnapshotTag { id: 0x1234_5678 }]);
}

#[test]
fn multiple_records_in_one_stream() {
    let recs = parse_psupp_stream(&[0x10, 0x20, 0x64, 0x00, 0x00, 0x00, 0x42]).unwrap();
    assert_eq!(
        recs,
        vec![
            Sei::DoNothing,
            Sei::FullPictureFreezeRequest,
            Sei::FullPictureSnapshotTag { id: 0x42 },
        ]
    );
}

#[test]
fn unknown_ftype_is_kept_as_blob() {
    let recs = parse_psupp_stream(&[0xD2, 0xAA, 0xBB]).unwrap();
    assert_eq!(
        recs,
        vec![Sei::Unknown {
            ftype: 13,
            payload: vec![0xAA, 0xBB],
        }]
    );
}

#[test]
fn truncated_payload_is_an_error() {
    let err = parse_psupp_stream(&[0x34, 0xAA, 0xBB]).unwrap_err();
    assert!(err.message().contains("Annex L PSUPP"), "{}", err.message());
}

#[test]
fn wrong_dsize_for_known_ftype_is_an_error() {
    let err = parse_psupp_stream(&[0x21, 0x00]).unwrap_err();
    assert!(
        err.message().contains("FTYPE=2"),
        "should mention FTYPE: {}",
        err.message()
    );
}

#[test]
fn extended_function_type_carries_payload() {
    let recs = parse_psupp_stream(&[0xF0, 0x32, 0xCA, 0xFE]).unwrap();
    assert_eq!(
        recs,
        vec![Sei::ExtendedFunctionType {
            ext_ftype: 3,
            ext_dsize: 2,
            payload: vec![0xCA, 0xFE],
        }]
    );
}

#[test]
fn ckif_with_dsize_one_is_accepted() {
    let recs = parse_psupp_stream(&[0xC1, 0x00]).unwrap();
    assert_eq!(
        recs,
        vec![Sei::ChromaKeyingInformation {
            payload: vec![0x00],
        }]
    );
}
