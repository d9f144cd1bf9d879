use h263::error::Error;
use h263::rtp::{
    depacketize_payloads, parse_payload_header, write_payload_header, H263PayloadHeader, VrcHeader,
};

#[test]
fn payload_header_round_trips() {
    for p in [false, true] {
        for vrc in [
            None,
            Some(VrcHeader {
                tid: 3,
                trun: 9,
                sync: true,
            }),
        ] {
            for (extra, pebit) in [
                (Vec::new(), 0u8),
                (vec![0x83, 0x00, 0x0F], 5),
                (vec![0x80; 63], 7),
            ] {
                let header = H263PayloadHeader {
                    p,
                    vrc,
                    extra_picture_header: extra,
                    pebit,
                };
                let mut bytes = Vec::new();
                write_payload_header(&mut bytes, &header).unwrap();
                bytes.extend_from_slice(&[0xAA, 0xBB]);
                let (parsed, offset) = parse_payload_header(&bytes).unwrap();
                assert_eq!(parsed, header);
                assert_eq!(&bytes[offset..], &[0xAA, 0xBB]);
            }
        }
    }
}

#[test]
fn payload_header_rejects_bad_fields() {
    let mut out = Vec::new();
    assert!(matches!(
        write_payload_header(
            &mut out,
            &H263PayloadHeader {
                p: true,
                vrc: None,
                extra_picture_header: vec![0u8; 64],
                pebit: 0,
            },
        ),
        Err(Error::RtpBadPayloadHeader)
    ));
    assert!(matches!(
        write_payload_header(
            &mut out,
            &H263PayloadHeader {
                p: true,
                vrc: None,
                extra_picture_header: Vec::new(),
                pebit: 3,
            },
        ),
        Err(Error::RtpBadPayloadHeader)
    ));
    assert!(matches!(
        parse_payload_header(&[0x04, 0x03, 0x12]),
        Err(Error::RtpBadPayloadHeader)
    ));
    assert!(matches!(
        parse_payload_header(&[0x04]),
        Err(Error::RtpTruncatedPacket)
    ));
    assert!(matches!(
        parse_payload_header(&[0x04, 0b0010_1000]),
        Err(Error::RtpTruncatedPacket)
    ));
}

#[test]
fn rr_bits_are_ignored_on_parse() {
    let (header, offset) = parse_payload_header(&[0xFC, 0x00, 0x55]).unwrap();
    assert!(header.p);
    assert_eq!(header.vrc, None);
    assert_eq!(offset, 2);
}

#[test]
fn depacketize_rejects_leading_follow_on() {
    let payload = [0x00u8, 0x00, 0x12, 0x34];
    assert!(matches!(
        depacketize_payloads(&[payload.to_vec()]),
        Err(Error::RtpBadPayloadHeader)
    ));
}
