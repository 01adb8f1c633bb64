use tumbor::codec::{decode, encode, DecodeError};
use tumbor::operation::{
    FilterKind, Operation, SampleFilter, SpecError, TransformSpec, MAX_OPERATIONS,
};
use tumbor::text::{from_text, to_text};
use tumbor::wire::{from_bytes, to_bytes};

fn sample() -> TransformSpec {
    TransformSpec::new(vec![
        Operation::new_resize(500, 800, SampleFilter::CatmullRom),
        Operation::new_watermark(20, 20),
        Operation::new_filter(FilterKind::Marine),
    ])
    .unwrap()
}

const SAMPLE_BYTES: [u8; 23] = [
    1, 3, // version, count
    1, 0, 0, 1, 0xf4, 0, 0, 3, 0x20, 3, // resize 500 x 800, Catmull-Rom
    2, 0, 0, 0, 20, 0, 0, 0, 20, // watermark at (20, 20)
    3, 3, // filter Marine
];

#[test]
fn encode_gives_the_expected_text() {
    assert_eq!(to_bytes(&sample()), SAMPLE_BYTES.to_vec());
    assert_eq!(encode(&sample()), "AQMBAAAB9AAAAyADAgAAABQAAAAUAwM");
}

#[test]
fn decode_gives_the_pipeline_back() {
    let spec = sample();
    assert_eq!(decode(&encode(&spec)), Ok(spec));
    assert_eq!(decode("AQMBAAAB9AAAAyADAgAAABQAAAAUAwM"), Ok(sample()));
    assert_eq!(from_bytes(&SAMPLE_BYTES), Ok(sample()));
}

#[test]
fn every_kind_of_operation_survives_the_round_trip() {
    let filters = [
        SampleFilter::Nearest,
        SampleFilter::Triangle,
        SampleFilter::CatmullRom,
        SampleFilter::Gaussian,
        SampleFilter::Lanczos3,
    ];
    let kinds = [FilterKind::Oceanic, FilterKind::Islands, FilterKind::Marine];
    let mut ops = Vec::new();
    for filter in filters {
        ops.push(Operation::new_resize(1, u32::MAX, filter));
        ops.push(Operation::new_resize(0x0102_0304, 0x0a0b_0c0d, filter));
    }
    for kind in kinds {
        ops.push(Operation::new_filter(kind));
    }
    for x in [i32::MIN, -1, 0, 1, 0x0102_0304, i32::MAX] {
        ops.push(Operation::new_watermark(x, -x.saturating_add(1)));
    }
    let spec = TransformSpec::new(ops.clone()).unwrap();
    assert_eq!(spec.operations(), &ops);
    assert_eq!(decode(&encode(&spec)), Ok(spec));
}

#[test]
fn pipelines_of_every_short_length_survive_the_round_trip() {
    for n in 0..40 {
        let ops: Vec<Operation> = (0..n)
            .map(|i| match i % 3 {
                0 => Operation::new_resize(i + 1, 2 * i + 1, SampleFilter::Lanczos3),
                1 => Operation::new_watermark(-(i as i32), i as i32),
                _ => Operation::new_filter(FilterKind::Oceanic),
            })
            .collect();
        let spec = TransformSpec::new(ops).unwrap();
        let text = encode(&spec);
        assert!(text.chars().all(|c| c.is_ascii_alphanumeric() || c == '-' || c == '_'));
        assert_eq!(decode(&text), Ok(spec));
    }
}

#[test]
fn the_empty_pipeline_has_a_text() {
    let spec = TransformSpec::new(vec![]).unwrap();
    assert_eq!(spec.len(), 0);
    assert_eq!(to_bytes(&spec), vec![1, 0]);
    assert_eq!(encode(&spec), "AQA");
    assert_eq!(decode("AQA"), Ok(spec));
}

#[test]
fn a_negative_watermark_position_is_written_in_twos_complement() {
    let spec = TransformSpec::new(vec![Operation::new_watermark(-2, i32::MIN)]).unwrap();
    assert_eq!(
        to_bytes(&spec),
        vec![1, 1, 2, 0xff, 0xff, 0xff, 0xfe, 0x80, 0, 0, 0]
    );
    assert_eq!(from_bytes(&to_bytes(&spec)), Ok(spec));
}

#[test]
fn a_pipeline_is_at_most_255_operations_long() {
    let op = Operation::new_filter(FilterKind::Marine);
    assert_eq!(MAX_OPERATIONS, 255);
    let longest = TransformSpec::new(vec![op; 255]).unwrap();
    assert_eq!(longest.len(), 255);
    assert_eq!(decode(&encode(&longest)), Ok(longest));
    assert_eq!(TransformSpec::new(vec![op; 256]), Err(SpecError::TooManyOperations));
}

#[test]
fn a_resize_to_nothing_is_no_operation_of_a_pipeline() {
    let good = Operation::new_resize(1, 1, SampleFilter::Nearest);
    let no_width = Operation::new_resize(0, 1, SampleFilter::Nearest);
    let no_height = Operation::new_resize(1, 0, SampleFilter::Nearest);
    assert!(good.is_valid());
    assert!(!no_width.is_valid());
    assert!(!no_height.is_valid());
    assert_eq!(
        TransformSpec::new(vec![good, no_height, no_width]),
        Err(SpecError::InvalidOperation { index: 1 })
    );
    assert_eq!(
        TransformSpec::new(vec![no_width]),
        Err(SpecError::InvalidOperation { index: 0 })
    );
}

#[test]
fn truncated_input_is_rejected() {
    for cut in 0..SAMPLE_BYTES.len() {
        assert_eq!(from_bytes(&SAMPLE_BYTES[..cut]), Err(DecodeError::Truncated));
        assert_eq!(decode(&to_text(&SAMPLE_BYTES[..cut])), Err(DecodeError::Truncated));
    }
    assert_eq!(decode(""), Err(DecodeError::Truncated));
    // a count of two with one record
    assert_eq!(from_bytes(&[1, 2, 3, 1]), Err(DecodeError::Truncated));
}

#[test]
fn truncated_text_is_rejected() {
    let text = encode(&sample());
    for cut in 0..text.len() {
        assert!(decode(&text[..cut]).is_err());
    }
}

#[test]
fn an_unknown_tag_is_rejected() {
    assert_eq!(from_bytes(&[1, 1, 0, 0]), Err(DecodeError::UnknownTag { tag: 0 }));
    assert_eq!(from_bytes(&[1, 1, 4, 3]), Err(DecodeError::UnknownTag { tag: 4 }));
    assert_eq!(from_bytes(&[1, 2, 3, 1, 255]), Err(DecodeError::UnknownTag { tag: 255 }));
    assert_eq!(
        decode(&to_text(&[1, 2, 3, 1, 7, 0, 0, 0, 0])),
        Err(DecodeError::UnknownTag { tag: 7 })
    );
}

#[test]
fn a_resize_to_nothing_is_rejected() {
    assert_eq!(
        from_bytes(&[1, 1, 1, 0, 0, 0, 0, 0, 0, 0, 9, 1]),
        Err(DecodeError::ZeroDimension)
    );
    assert_eq!(
        from_bytes(&[1, 1, 1, 0, 0, 0, 9, 0, 0, 0, 0, 1]),
        Err(DecodeError::ZeroDimension)
    );
    assert_eq!(
        decode(&to_text(&[1, 1, 1, 0, 0, 0, 0, 0, 0, 0, 0, 1])),
        Err(DecodeError::ZeroDimension)
    );
    // the record must be complete before its fields are judged
    assert_eq!(from_bytes(&[1, 1, 1, 0, 0, 0, 0, 0, 0, 0, 9]), Err(DecodeError::Truncated));
}

#[test]
fn an_unknown_filter_is_rejected() {
    assert_eq!(
        from_bytes(&[1, 1, 1, 0, 0, 0, 9, 0, 0, 0, 9, 0]),
        Err(DecodeError::UnknownFilter { code: 0 })
    );
    assert_eq!(
        from_bytes(&[1, 1, 1, 0, 0, 0, 9, 0, 0, 0, 9, 6]),
        Err(DecodeError::UnknownFilter { code: 6 })
    );
    assert_eq!(from_bytes(&[1, 1, 3, 0]), Err(DecodeError::UnknownFilter { code: 0 }));
    assert_eq!(from_bytes(&[1, 1, 3, 4]), Err(DecodeError::UnknownFilter { code: 4 }));
}

#[test]
fn another_version_is_rejected() {
    assert_eq!(from_bytes(&[0, 0]), Err(DecodeError::UnsupportedVersion { version: 0 }));
    assert_eq!(from_bytes(&[2]), Err(DecodeError::UnsupportedVersion { version: 2 }));
    assert_eq!(decode("AgA"), Err(DecodeError::UnsupportedVersion { version: 2 }));
}

#[test]
fn bytes_behind_the_last_record_are_rejected() {
    assert_eq!(from_bytes(&[1, 0, 0]), Err(DecodeError::TrailingBytes));
    assert_eq!(from_bytes(&[1, 1, 3, 1, 3, 1]), Err(DecodeError::TrailingBytes));
}

#[test]
fn text_outside_the_alphabet_is_rejected() {
    assert_eq!(decode("AQ+A"), Err(DecodeError::InvalidText));
    assert_eq!(decode("AQ/A"), Err(DecodeError::InvalidText));
    assert_eq!(decode("AQA="), Err(DecodeError::InvalidText));
    assert_eq!(decode("AQ A"), Err(DecodeError::InvalidText));
    assert_eq!(decode("é"), Err(DecodeError::InvalidText));
    assert_eq!(decode("AQA\u{212a}"), Err(DecodeError::InvalidText));
}

#[test]
fn text_that_is_not_canonical_is_rejected() {
    // one symbol alone stands for no byte
    assert_eq!(decode("A"), Err(DecodeError::InvalidText));
    assert_eq!(decode("AQAAA"), Err(DecodeError::InvalidText));
    // the bits of the last symbol that belong to no byte must be zero
    assert_eq!(decode("AQB"), Err(DecodeError::InvalidText));
    assert_eq!(decode("AR"), Err(DecodeError::InvalidText));
    assert_eq!(from_text("AQ"), Some(vec![1]));
    assert_eq!(from_text("AR"), None);
}

#[test]
fn the_text_layer_is_unpadded_url_safe_base64() {
    let vectors: [(&[u8], &str); 9] = [
        (b"", ""),
        (b"f", "Zg"),
        (b"fo", "Zm8"),
        (b"foo", "Zm9v"),
        (b"foob", "Zm9vYg"),
        (b"fooba", "Zm9vYmE"),
        (b"foobar", "Zm9vYmFy"),
        (&[0xfb, 0xff], "-_8"),
        (&[0xff, 0xff, 0xfe], "___-"),
    ];
    for (bytes, text) in vectors {
        assert_eq!(to_text(bytes), text);
        assert_eq!(from_text(text), Some(bytes.to_vec()));
    }
}

#[test]
fn every_byte_string_survives_the_text_layer() {
    let all: Vec<u8> = (0..=255).collect();
    for start in 0..4 {
        for end in [start, start + 1, start + 2, start + 3, 254, 255, 256] {
            let bytes = &all[start..end];
            assert_eq!(from_text(&to_text(bytes)), Some(bytes.to_vec()));
        }
    }
}

#[test]
fn codes_name_filters() {
    assert_eq!(SampleFilter::from_code(0), None);
    assert_eq!(SampleFilter::from_code(1), Some(SampleFilter::Nearest));
    assert_eq!(SampleFilter::from_code(5), Some(SampleFilter::Lanczos3));
    assert_eq!(SampleFilter::from_code(6), None);
    assert_eq!(SampleFilter::Gaussian.to_code(), 4);
    assert_eq!(FilterKind::from_code(0), None);
    assert_eq!(FilterKind::from_code(2), Some(FilterKind::Islands));
    assert_eq!(FilterKind::from_code(4), None);
    assert_eq!(FilterKind::Marine.to_code(), 3);
}

#[test]
fn a_pipeline_can_be_copied() {
    let spec = sample();
    assert_eq!(spec.clone(), spec);
}
