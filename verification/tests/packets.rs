use h263::error::Error;
use h263::picture_header::parse_picture_layer;
use h263::plus_ptype::InheritedExtendedState;
use h263::rtp::{
    assemble_picture_header, depacketize_payloads, depacketize_payloads_rfc2190,
    packetize_stream, packetize_stream_rfc2190, parse_payload_header, parse_rfc2190_mode_a,
    redundant_picture_header, write_payload_header, write_rfc2190_mode_a, H263PayloadHeader,
    PacketizeConfig, Rfc2190ModeA, VrcHeader,
};
use oxideav_core::bits::{BitReader, BitWriter};

/// A QCIF picture header with its quantiser and no extra information.
fn header(w: &mut BitWriter, tr: u32, inter: bool) {
    w.write_u32(0x20, 22);
    w.write_u32(tr, 8);
    w.write_u32(0b10, 2);
    w.write_u32(0, 3);
    w.write_u32(0b010, 3);
    w.write_bit(inter);
    w.write_u32(0, 4);
    w.write_u32(8, 5);
    w.write_bit(false);
    w.write_bit(false);
}

/// A picture of two segments: the header with some data, and one group.
fn picture(tr: u32, filler: &[u8], group: &[u8]) -> Vec<u8> {
    let mut w = BitWriter::new();
    header(&mut w, tr, true);
    let mut bytes = w.finish();
    bytes.extend_from_slice(filler);
    bytes.extend_from_slice(&[0, 0, 0x86]);
    bytes.extend_from_slice(group);
    bytes
}

fn stream() -> Vec<u8> {
    let mut s = picture(1, &[0x5a; 30], &[0x3c; 20]);
    s.extend_from_slice(&picture(2, &[0x11; 5], &[0x77; 40]));
    s.extend_from_slice(&[0, 0, 0xfc]);
    s
}

fn config(max_payload: usize, attach_picture_header: bool) -> PacketizeConfig {
    PacketizeConfig {
        max_payload,
        attach_picture_header,
    }
}

#[test]
fn joining_gives_back_what_was_cut() {
    let s = stream();
    for max in [3usize, 4, 7, 16, 33, 1000] {
        for attach in [false, true] {
            let packets = packetize_stream(&s, config(max, attach)).unwrap();
            assert!(packets.iter().all(|p| p.len() <= max), "limit {max}");
            assert_eq!(depacketize_payloads(&packets).unwrap(), s, "limit {max}");
        }
    }
}

#[test]
fn every_picture_begins_a_packet() {
    let s = stream();
    let packets = packetize_stream(&s, config(1000, false)).unwrap();
    assert_eq!(packets.len(), 3);
    for p in &packets {
        let (h, at) = parse_payload_header(p).unwrap();
        assert!(h.p);
        assert!(p[at] >= 0x80);
    }
    let (_, at) = parse_payload_header(&packets[2]).unwrap();
    assert_eq!(&packets[2][at..], &[0xfc]);
}

#[test]
fn a_packet_ends_at_the_last_start_code_that_fits() {
    let s = picture(1, &[0x5a; 30], &[0x3c; 20]);
    let code = s.len() - 23;
    let packets = packetize_stream(&s, config(50, false)).unwrap();
    assert_eq!(packets.len(), 2);
    assert_eq!(packets[0].len(), 2 + code - 2);
    assert_eq!(packets[1].len(), 2 + 21);
}

#[test]
fn groups_carry_a_copy_of_the_picture_header() {
    let s = picture(7, &[0x5a; 30], &[0x3c; 20]);
    let packets = packetize_stream(&s, config(40, true)).unwrap();
    let (h, _) = parse_payload_header(&packets[0]).unwrap();
    assert!(h.extra_picture_header.is_empty());
    let (h, _) = parse_payload_header(&packets[1]).unwrap();
    let copy = assemble_picture_header(&h).unwrap();
    assert_eq!(copy, s[..copy.len()].to_vec());
    assert_eq!(copy.len() * 8 - h.pebit as usize, 50);
    let fresh = InheritedExtendedState::default();
    assert_eq!(
        parse_picture_layer(&mut BitReader::new(&copy), fresh),
        parse_picture_layer(&mut BitReader::new(&s), fresh)
    );
}

#[test]
fn the_redundant_header_is_cut_from_the_picture() {
    let s = picture(7, &[0x5a; 30], &[]);
    let (copy, unused) = redundant_picture_header(&s).unwrap().unwrap();
    assert_eq!(copy, s[2..7].to_vec());
    assert_eq!(unused, 6);
    assert_eq!(
        redundant_picture_header(&s[..5]),
        Err(Error::UnexpectedEof)
    );
}

#[test]
fn a_header_without_a_copy_assembles_to_nothing() {
    let h = H263PayloadHeader {
        p: true,
        vrc: None,
        extra_picture_header: Vec::new(),
        pebit: 0,
    };
    assert_eq!(assemble_picture_header(&h), None);
}

#[test]
fn payloads_that_cannot_hold_data_are_refused() {
    let s = stream();
    assert_eq!(
        packetize_stream(&s, config(2, false)),
        Err(Error::RtpPayloadTooSmall)
    );
    assert_eq!(
        packetize_stream_rfc2190(&s, config(4, false)),
        Err(Error::RtpPayloadTooSmall)
    );
}

#[test]
fn streams_begin_with_a_start_code() {
    assert_eq!(
        packetize_stream(&[1, 2, 3, 4], config(100, false)),
        Err(Error::BadPictureStartCode)
    );
    assert_eq!(
        packetize_stream_rfc2190(&[1, 2, 3, 4], config(100, false)),
        Err(Error::BadPictureStartCode)
    );
    assert_eq!(packetize_stream(&[], config(100, false)), Ok(Vec::new()));
}

#[test]
fn the_vrc_extension_has_its_limits() {
    let mut out = Vec::new();
    let h = H263PayloadHeader {
        p: false,
        vrc: Some(VrcHeader {
            tid: 8,
            trun: 0,
            sync: false,
        }),
        extra_picture_header: Vec::new(),
        pebit: 0,
    };
    assert_eq!(
        write_payload_header(&mut out, &h),
        Err(Error::RtpBadPayloadHeader)
    );
}

#[test]
fn the_older_format_joins_to_what_was_cut() {
    let s = stream();
    for max in [47usize, 60, 1000] {
        let packets = packetize_stream_rfc2190(&s, config(max, false)).unwrap();
        assert!(packets.iter().all(|p| p.len() <= max));
        assert_eq!(depacketize_payloads_rfc2190(&packets).unwrap(), s);
    }
    assert_eq!(
        depacketize_payloads_rfc2190(&[vec![0, 0]]),
        Err(Error::RtpTruncatedPacket)
    );
}

#[test]
fn mode_a_headers_come_back() {
    let h = Rfc2190ModeA {
        pb_frames: true,
        sbit: 3,
        ebit: 5,
        src: 2,
        inter: true,
        umv: false,
        sac: true,
        advanced_prediction: false,
        dbq: 2,
        trb: 6,
        tr: 200,
    };
    let mut out = Vec::new();
    write_rfc2190_mode_a(&mut out, &h).unwrap();
    out.push(0xaa);
    assert_eq!(parse_rfc2190_mode_a(&out), Ok((h, 4)));
    let bad = Rfc2190ModeA { trb: 8, ..h };
    assert!(write_rfc2190_mode_a(&mut out, &bad).is_err());
}
