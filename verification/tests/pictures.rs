use h263::error::Error;
use h263::picture::{
    decode_improved_pb_picture, decode_picture, decode_picture_layer,
    plus_ptype_to_baseline_shim, DecodeOptions, PbFramePair, YuvFrame,
};
use h263::picture_header::{parse_picture_layer, H263PictureLayer};
use h263::plus_ptype::InheritedExtendedState;
use oxideav_core::bits::{BitReader, BitWriter};

const PLAIN: DecodeOptions = DecodeOptions {
    deblock: false,
    aic: false,
};

const SMOOTHED: DecodeOptions = DecodeOptions {
    deblock: true,
    aic: false,
};

fn put(w: &mut BitWriter, s: &str) {
    for b in s.bytes() {
        if b == b'0' || b == b'1' {
            w.write_bit(b == b'1');
        }
    }
}

/// A QCIF picture header.
fn header(w: &mut BitWriter, inter: bool) {
    w.write_u32(0x20, 22);
    w.write_u32(3, 8);
    put(w, "10 000 010");
    w.write_bit(inter);
    put(w, "0000");
}

/// The header of a QCIF INTRA picture with an extended type.
fn extended_header(w: &mut BitWriter, modes: &str) {
    w.write_u32(0x20, 22);
    w.write_u32(3, 8);
    put(w, "10 000 111");
    put(w, "001 010");
    put(w, modes);
    put(w, "1000 000 000001 0");
}

fn group(w: &mut BitWriter, number: u32, quantiser: u32) {
    w.write_u32(1, 17);
    w.write_u32(number, 5);
    w.write_u32(0, 2);
    w.write_u32(quantiser, 5);
}

fn intra_macroblock(w: &mut BitWriter, dc: u32) {
    put(w, "1 0011");
    for _ in 0..6 {
        w.write_u32(dc, 8);
    }
}

fn groups(w: &mut BitWriter, quantiser: u32, mut write: impl FnMut(&mut BitWriter, usize)) {
    for g in 0..9 {
        group(w, g, quantiser);
        for m in 0..11 {
            write(w, g as usize * 11 + m);
        }
    }
}

fn finished(mut w: BitWriter) -> Vec<u8> {
    while !w.is_byte_aligned() {
        w.write_bit(false);
    }
    w.finish()
}

fn intra_picture(dc: impl Fn(usize) -> u32) -> Vec<u8> {
    let mut w = BitWriter::new();
    header(&mut w, false);
    groups(&mut w, 8, |w, m| intra_macroblock(w, dc(m)));
    finished(w)
}

fn inter_picture(mut write: impl FnMut(&mut BitWriter, usize)) -> Vec<u8> {
    let mut w = BitWriter::new();
    header(&mut w, true);
    groups(&mut w, 8, |w, m| write(w, m));
    finished(w)
}

fn reference() -> YuvFrame {
    let mut f = YuvFrame::grey(176, 144);
    for (k, s) in f.y.iter_mut().enumerate() {
        *s = (k * 7 % 241) as u8;
    }
    for (k, s) in f.cb.iter_mut().enumerate() {
        *s = (k * 5 % 199) as u8;
    }
    for (k, s) in f.cr.iter_mut().enumerate() {
        *s = (k * 3 % 251) as u8;
    }
    f
}

#[test]
fn frames_have_quarter_size_chroma() {
    let f = YuvFrame::grey(176, 144);
    assert_eq!((f.chroma_width(), f.chroma_height()), (88, 72));
    assert_eq!(f.y.len(), 4 * f.cb.len());
    assert!(f.y.iter().chain(&f.cb).chain(&f.cr).all(|&s| s == 128));
}

#[test]
fn intra_pictures_do_not_look_at_the_reference() {
    let data = intra_picture(|m| 20 + m as u32);
    let alone = decode_picture(&data, None, PLAIN).unwrap();
    let beside = decode_picture(&data, Some(&reference()), PLAIN).unwrap();
    assert_eq!(alone, beside);
    assert_eq!((alone.y[0], alone.y[16], alone.y[16 * 176]), (20, 21, 31));
}

#[test]
fn references_of_another_size_are_refused() {
    let data = inter_picture(|w, _| w.write_bit(true));
    let mut small = YuvFrame::grey(128, 96);
    assert_eq!(
        decode_picture(&data, Some(&small), PLAIN),
        Err(Error::NotImplemented)
    );
    small.y.truncate(3);
    small.cb.clear();
    assert_eq!(
        decode_picture(&data, Some(&small), PLAIN),
        Err(Error::NotImplemented)
    );
    assert_eq!(
        decode_picture_layer(&data, Some(&small), PLAIN),
        Err(Error::NotImplemented)
    );
}

#[test]
fn smoothing_leaves_skipped_and_flat_pictures() {
    let r = reference();
    let skipped = inter_picture(|w, _| w.write_bit(true));
    assert_eq!(decode_picture(&skipped, Some(&r), SMOOTHED), Ok(r));
    let flat = intra_picture(|_| 90);
    assert_eq!(
        decode_picture(&flat, None, SMOOTHED),
        decode_picture(&flat, None, PLAIN)
    );
}

#[test]
fn smoothing_reaches_two_samples_over_an_edge() {
    let data = intra_picture(|m| if m % 11 == 0 { 100 } else { 108 });
    let f = decode_picture(&data, None, SMOOTHED).unwrap();
    assert_eq!(&f.y[13..19], &[100, 101, 103, 105, 107, 108]);
    assert_eq!(&f.cb[5..11], &[100, 101, 103, 105, 107, 108]);
}

#[test]
fn a_coded_macroblock_changes_only_itself() {
    let r = reference();
    let chosen = 3 * 11 + 4;
    let data = inter_picture(|w, m| {
        if m == chosen {
            put(w, "0 1 11 0011 1");
        } else {
            put(w, "1");
        }
    });
    let f = decode_picture(&data, Some(&r), PLAIN).unwrap();
    let mut changed = 0;
    for (k, (a, b)) in r.y.iter().zip(&f.y).enumerate() {
        let (x, y) = (k % 176, k / 176);
        if x / 16 == 4 && y / 16 == 3 {
            assert_eq!(*b, r.y[k - 1]);
            changed += 1;
        } else {
            assert_eq!(a, b, "at ({x}, {y})");
        }
    }
    assert_eq!(changed, 256);
}

#[test]
fn stuffing_is_passed_over() {
    let r = reference();
    let data = inter_picture(|w, m| {
        if m == 12 {
            put(w, "0 000000001");
        }
        put(w, "1");
    });
    assert_eq!(decode_picture(&data, Some(&r), PLAIN), Ok(r));
}

#[test]
fn damaged_groups_are_refused() {
    let mut bad = intra_picture(|_| 50);
    bad[6] ^= 0x40;
    assert_eq!(
        decode_picture(&bad, None, PLAIN),
        Err(Error::BadGobStartCode)
    );
    let good = intra_picture(|_| 50);
    assert_eq!(
        decode_picture(&good[..40], None, PLAIN),
        Err(Error::UnexpectedEof)
    );
}

#[test]
fn plain_headers_go_the_same_way_through_both_doors() {
    let data = intra_picture(|m| 1 + m as u32);
    assert_eq!(
        decode_picture_layer(&data, None, PLAIN),
        decode_picture(&data, None, PLAIN)
    );
}

#[test]
fn options_of_the_caller_are_kept() {
    let mut w = BitWriter::new();
    extended_header(&mut w, "00000000000");
    let data = finished(w);
    let inherited = InheritedExtendedState::default();
    let layer = parse_picture_layer(&mut BitReader::new(&data), inherited).unwrap();
    let H263PictureLayer::Extended(picture) = layer else {
        panic!("not extended");
    };
    let shim = plus_ptype_to_baseline_shim(&picture, SMOOTHED, inherited).unwrap();
    assert!(shim.options.deblock && !shim.options.aic);
}

#[test]
fn slices_must_start_inside_the_picture() {
    let start = |address: u32| {
        let mut v = BitWriter::new();
        extended_header(&mut v, "00000010000");
        put(&mut v, "00");
        v.write_u32(8, 5);
        v.write_bit(true);
        v.write_u32(address, 7);
        v.write_bit(true);
        for _ in 0..99 {
            intra_macroblock(&mut v, 60);
        }
        finished(v)
    };
    assert!(decode_picture_layer(&start(0), None, PLAIN).is_ok());
    assert_eq!(
        decode_picture_layer(&start(100), None, PLAIN),
        Err(Error::SliceMbaOutOfRange)
    );
    assert_eq!(
        decode_picture_layer(&start(1), None, PLAIN),
        Err(Error::BadSliceCoverage)
    );
}

#[test]
fn forward_vectors_look_one_macroblock_to_the_left() {
    let r = reference();
    let picture = |between: &str| {
        let mut w = BitWriter::new();
        w.write_u32(0x20, 22);
        w.write_u32(2, 8);
        put(&mut w, "10 000 111 001 010 00000000000 1000 010 000001 0");
        put(&mut w, "01000 001 00");
        groups(&mut w, 8, |w, m| match m {
            0 => put(w, "0 1 110 11 1 1 0010 1"),
            1 => put(w, between),
            2 => put(w, "0 1 110 11 1 1 1 1"),
            _ => put(w, "1"),
        });
        decode_improved_pb_picture(&finished(w), &r, 0, PLAIN).unwrap()
    };
    let shifted = |pair: &PbFramePair, m: usize| {
        (0..16 * 16).all(|k| {
            let at = k / 16 * 176 + 16 * m + k % 16;
            pair.b_frame.y[at] == r.y[at + 1]
        })
    };
    let chained = picture("0 1 110 11 1 1 1 1");
    assert!(shifted(&chained, 0) && shifted(&chained, 1) && shifted(&chained, 2));
    for between in ["1", "0 1 0 11 1 1", "0 1 11110 11 1 1"] {
        let pair = picture(between);
        assert!(shifted(&pair, 0) && !shifted(&pair, 2), "{between}");
        assert_eq!(pair.b_frame.y[32..48], r.y[32..48]);
    }
}

#[test]
fn a_broken_reference_does_not_matter_to_an_intra_picture() {
    let data = intra_picture(|m| 20 + m as u32);
    let mut broken = reference();
    broken.y.truncate(7);
    broken.cr.clear();
    let alone = decode_picture(&data, None, PLAIN).unwrap();
    assert_eq!(decode_picture(&data, Some(&broken), PLAIN).unwrap(), alone);
    assert_eq!(
        decode_picture_layer(&data, Some(&broken), PLAIN).unwrap(),
        alone
    );
}

#[test]
fn slices_leave_no_gap_and_do_not_overlap() {
    let picture = |second: u32, rest: usize| {
        let mut v = BitWriter::new();
        extended_header(&mut v, "00000010000");
        put(&mut v, "00 01000 1 0000000 1");
        for _ in 0..40 {
            intra_macroblock(&mut v, 60);
        }
        while !v.is_byte_aligned() {
            v.write_bit(false);
        }
        put(&mut v, "00000000000000001 1");
        v.write_u32(second, 7);
        put(&mut v, "01000 1 00");
        for _ in 0..rest {
            intra_macroblock(&mut v, 60);
        }
        finished(v)
    };
    let decode = |data: Vec<u8>| decode_picture_layer(&data, None, PLAIN).map(|f| f.y[0]);
    assert_eq!(decode(picture(40, 59)), Ok(60));
    assert_eq!(decode(picture(41, 58)), Err(Error::BadSliceCoverage));
    assert_eq!(decode(picture(39, 60)), Err(Error::BadSliceCoverage));
}
