use prost::encoding::{decode_varint, encode_key, encode_varint, uint32, WireType};
use thumbor::pb::{Filter, SampleFilter, Spec};
use thumbor::varint::{put_varint, take_varint};
use thumbor::wire::{
    decode_record, encode_record, filter_from_code, filter_to_code, resize_mode_from_code,
    resize_mode_to_code, sample_filter_from_code, sample_filter_to_code,
};
use thumbor::pb::ResizeMode;

const SAMPLES: [u32; 12] =
    [0, 1, 127, 128, 300, 600, 16383, 16384, 2097151, 2097152, 268435456, u32::MAX];

#[test]
fn varint_bytes_are_those_of_protocol_buffers() {
    for v in SAMPLES {
        let mut ours = vec![0xEE];
        put_varint(&mut ours, v);
        let mut theirs = vec![0xEE];
        encode_varint(v as u64, &mut theirs);
        assert_eq!(ours, theirs);
    }
}

#[test]
fn varint_known_bytes() {
    let mut out = Vec::new();
    put_varint(&mut out, 600);
    assert_eq!(out, vec![0xD8, 0x04]);
    let mut out = Vec::new();
    put_varint(&mut out, 0);
    assert_eq!(out, vec![0x00]);
    let mut out = Vec::new();
    put_varint(&mut out, u32::MAX);
    assert_eq!(out, vec![0xFF, 0xFF, 0xFF, 0xFF, 0x0F]);
}

#[test]
fn varint_reads_back_what_protocol_buffers_wrote() {
    for v in SAMPLES {
        let mut bytes = vec![0x55, 0x66];
        encode_varint(v as u64, &mut bytes);
        let end = bytes.len();
        bytes.push(0x80);
        assert_eq!(take_varint(&bytes, 2), Some((v, end)));
        let mut tail = &bytes[2..];
        assert_eq!(decode_varint(&mut tail).unwrap(), v as u64);
    }
}

#[test]
fn varint_refuses_what_is_cut_short_too_long_or_too_large() {
    assert_eq!(take_varint(&[], 0), None);
    assert_eq!(take_varint(&[0x01], 1), None);
    assert_eq!(take_varint(&[0x80], 0), None);
    assert_eq!(take_varint(&[0x80, 0x80, 0x80], 0), None);
    // Longer than the value needs.
    assert_eq!(take_varint(&[0x81, 0x00], 0), None);
    assert_eq!(take_varint(&[0x80, 0x80, 0x00], 0), None);
    // 2^32 and 2^35.
    assert_eq!(take_varint(&[0x80, 0x80, 0x80, 0x80, 0x10], 0), None);
    assert_eq!(take_varint(&[0x80, 0x80, 0x80, 0x80, 0x80, 0x01], 0), None);
    assert_eq!(take_varint(&[0xFF, 0xFF, 0xFF, 0xFF, 0x0F], 0), Some((u32::MAX, 5)));
    assert_eq!(take_varint(&[0xFF, 0xFF, 0xFF, 0xFF, 0x1F], 0), None);
}

fn message(tag: u32, fields: &[(u32, u32)]) -> Vec<u8> {
    let mut body = Vec::new();
    for (number, value) in fields {
        if *value != 0 {
            uint32::encode(*number, value, &mut body);
        }
    }
    let mut inner = Vec::new();
    encode_key(tag, WireType::LengthDelimited, &mut inner);
    encode_varint(body.len() as u64, &mut inner);
    inner.extend_from_slice(&body);
    let mut out = Vec::new();
    encode_key(1, WireType::LengthDelimited, &mut out);
    encode_varint(inner.len() as u64, &mut out);
    out.extend_from_slice(&inner);
    out
}

#[test]
fn record_is_a_protocol_buffers_message() {
    let specs = vec![
        Spec::new_resize(600, 600, SampleFilter::CatmullRom),
        Spec::new_crop(1, 2, 300000, u32::MAX),
        Spec::new_filter(Filter::Marine),
        Spec::new_watermark(20, 0),
        Spec::new_resize_seam_carve(7, 9),
    ];
    let mut expected = Vec::new();
    expected.extend(message(1, &[(1, 600), (2, 600), (3, 0), (4, 3)]));
    expected.extend(message(2, &[(1, 1), (2, 2), (3, 300000), (4, u32::MAX)]));
    expected.extend(message(6, &[(1, 3)]));
    expected.extend(message(7, &[(1, 20), (2, 0)]));
    expected.extend(message(1, &[(1, 7), (2, 9), (3, 1), (4, 0)]));
    assert_eq!(encode_record(&specs), expected);
    assert_eq!(decode_record(&expected), Some(specs));
}

#[test]
fn record_known_bytes() {
    let specs =
        vec![Spec::new_resize(600, 600, SampleFilter::CatmullRom), Spec::new_filter(Filter::Marine)];
    let bytes: Vec<u8> = vec![
        0x0a, 0x0a, 0x0a, 0x08, 0x08, 0xd8, 0x04, 0x10, 0xd8, 0x04, 0x20, 0x03, 0x0a, 0x04, 0x32,
        0x02, 0x08, 0x03,
    ];
    assert_eq!(encode_record(&specs), bytes);
    assert_eq!(decode_record(&bytes), Some(specs));
    assert_eq!(encode_record(&vec![]), Vec::<u8>::new());
    assert_eq!(decode_record(&[]), Some(vec![]));
}

#[test]
fn record_with_anything_amiss_is_refused() {
    let good: Vec<u8> = vec![0x0a, 0x04, 0x32, 0x02, 0x08, 0x03];
    assert!(decode_record(&good).is_some());
    for cut in 1..good.len() {
        assert_eq!(decode_record(&good[..cut]), None);
    }
    for at in 0..good.len() {
        for bit in 0..8 {
            let mut bad = good.clone();
            bad[at] ^= 1 << bit;
            match decode_record(&bad) {
                // Whatever is still accepted is a record of the same length, and
                // what it stands for reads back from its own record.
                Some(specs) => {
                    let again = encode_record(&specs);
                    assert_eq!(again.len(), bad.len());
                    assert_eq!(decode_record(&again), Some(specs));
                }
                None => {}
            }
        }
    }
    // The same fields in another order, and a zero written out, are accepted.
    assert_eq!(
        decode_record(&[0x0a, 0x06, 0x3a, 0x04, 0x10, 0x02, 0x08, 0x01]),
        Some(vec![Spec::new_watermark(1, 2)])
    );
    assert_eq!(
        decode_record(&[0x0a, 0x06, 0x3a, 0x04, 0x08, 0x00, 0x10, 0x02]),
        Some(vec![Spec::new_watermark(0, 2)])
    );
    // A field given twice is not.
    assert_eq!(decode_record(&[0x0a, 0x06, 0x3a, 0x04, 0x08, 0x01, 0x08, 0x01]), None);
    let mut trailing = good.clone();
    trailing.push(0x00);
    assert_eq!(decode_record(&trailing), None);
    // A body longer than four fields can be.
    let mut long = vec![0x0a, 0x1b, 0x12, 0x19];
    long.extend(std::iter::repeat(0x00).take(0x19));
    assert_eq!(decode_record(&long), None);
}

#[test]
fn enum_codes() {
    assert_eq!(resize_mode_to_code(ResizeMode::Normal), 0);
    assert_eq!(resize_mode_to_code(ResizeMode::SeamCarve), 1);
    assert_eq!(resize_mode_from_code(1), Some(ResizeMode::SeamCarve));
    assert_eq!(resize_mode_from_code(2), None);
    assert_eq!(sample_filter_to_code(SampleFilter::Undefined), 0);
    assert_eq!(sample_filter_to_code(SampleFilter::Lanczos3), 5);
    assert_eq!(sample_filter_from_code(3), Some(SampleFilter::CatmullRom));
    assert_eq!(sample_filter_from_code(6), None);
    assert_eq!(filter_to_code(Filter::Marine), 3);
    assert_eq!(filter_from_code(0), Some(Filter::Unspecified));
    assert_eq!(filter_from_code(4), None);
    for code in 0..8 {
        if let Some(mode) = resize_mode_from_code(code) {
            assert_eq!(resize_mode_to_code(mode), code);
        }
        if let Some(filter) = sample_filter_from_code(code) {
            assert_eq!(sample_filter_to_code(filter), code);
        }
        if let Some(kind) = filter_from_code(code) {
            assert_eq!(filter_to_code(kind), code);
        }
    }
}
