use vectordb::{
    decode_vector, decode_vectors, hex_dump, read_f32, read_f32_vec, read_f64, write_f32,
    write_f32_slice, write_f64,
    read_segment, read_segment_header, read_u32, read_u64, read_vector_at, read_vectors_range,
    write_segment, write_u32, write_u64, SegmentError, SegmentHeader, Vector, HEADER_SIZE, MAGIC,
    VERSION,
};

fn vector_of(values: &[f32]) -> Vector {
    Vector::new(values.iter().map(|x| x.to_bits()).collect())
}

fn floats(v: &Vector) -> Vec<f32> {
    v.data.iter().map(|b| f32::from_bits(*b)).collect()
}

fn three_by_three() -> Vec<Vector> {
    vec![
        vector_of(&[1.0, 2.0, 3.0]),
        vector_of(&[4.0, 5.0, 6.0]),
        vector_of(&[7.0, 8.0, 9.0]),
    ]
}

#[test]
fn concrete_scenario_three_vectors() {
    let bytes = write_segment(&three_by_three()).unwrap();
    assert_eq!(bytes.len(), 52);
    let one = read_vector_at(&bytes, 1).unwrap();
    assert_eq!(floats(&one), vec![4.0, 5.0, 6.0]);
    let range = read_vectors_range(&bytes, 1, 2).unwrap();
    assert_eq!(range.len(), 2);
    assert_eq!(floats(&range[0]), vec![4.0, 5.0, 6.0]);
    assert_eq!(floats(&range[1]), vec![7.0, 8.0, 9.0]);
}

#[test]
fn layout_is_little_endian_with_vect_tag() {
    let bytes = write_segment(&three_by_three()).unwrap();
    assert_eq!(&bytes[0..4], b"VECT");
    assert_eq!(&bytes[4..8], &[1, 0, 0, 0]);
    assert_eq!(&bytes[8..12], &[3, 0, 0, 0]);
    assert_eq!(&bytes[12..16], &[3, 0, 0, 0]);
    assert_eq!(&bytes[16..20], &1.0f32.to_le_bytes());
    assert_eq!(&bytes[48..52], &9.0f32.to_le_bytes());
    assert_eq!(MAGIC.to_le_bytes(), *b"VECT");
}

#[test]
fn round_trip_keeps_every_component() {
    let vectors = vec![
        vector_of(&[0.1, -2.5, f32::INFINITY, 0.0]),
        vector_of(&[-0.0, 1e-30, 3.25, f32::MAX]),
    ];
    let bytes = write_segment(&vectors).unwrap();
    let back = read_segment(&bytes).unwrap();
    assert_eq!(back.len(), 2);
    for (a, b) in vectors.iter().zip(back.iter()) {
        assert_eq!(a.data, b.data);
    }
}

#[test]
fn random_access_matches_read_all() {
    let bytes = write_segment(&three_by_three()).unwrap();
    let all = read_segment(&bytes).unwrap();
    for i in 0..3u32 {
        let one = read_vector_at(&bytes, i).unwrap();
        assert_eq!(one.data, all[i as usize].data);
    }
}

#[test]
fn range_matches_read_all() {
    let bytes = write_segment(&three_by_three()).unwrap();
    let all = read_segment(&bytes).unwrap();
    for start in 0..=3u32 {
        for len in 0..=(3 - start) {
            let part = read_vectors_range(&bytes, start, len).unwrap();
            assert_eq!(part.len(), len as usize);
            for k in 0..len as usize {
                assert_eq!(part[k].data, all[start as usize + k].data);
            }
        }
    }
}

#[test]
fn dimension_mismatch_is_reported() {
    let vectors = vec![vector_of(&[1.0, 2.0, 3.0]), vector_of(&[1.0, 2.0, 3.0, 4.0])];
    let err = write_segment(&vectors).unwrap_err();
    assert!(matches!(
        err,
        SegmentError::DimensionMismatch { expected: 3, got: 4, index: 1 }
    ));
}

#[test]
fn first_mismatch_is_the_one_reported() {
    let vectors = vec![
        vector_of(&[1.0, 2.0]),
        vector_of(&[1.0, 2.0]),
        vector_of(&[1.0]),
        vector_of(&[1.0, 2.0, 3.0]),
    ];
    let err = write_segment(&vectors).unwrap_err();
    assert!(matches!(
        err,
        SegmentError::DimensionMismatch { expected: 2, got: 1, index: 2 }
    ));
}

#[test]
fn wrong_magic_is_invalid_format() {
    let mut bytes = write_segment(&three_by_three()).unwrap();
    bytes[0] = b'X';
    assert!(matches!(
        SegmentHeader::read(&bytes),
        Err(SegmentError::InvalidFormat { .. })
    ));
    assert!(matches!(
        read_segment(&bytes),
        Err(SegmentError::InvalidFormat { .. })
    ));
}

#[test]
fn wrong_version_is_unsupported() {
    let mut bytes = write_segment(&three_by_three()).unwrap();
    bytes[4] = 2;
    assert!(matches!(
        SegmentHeader::read(&bytes),
        Err(SegmentError::UnsupportedVersion { version: 2 })
    ));
    assert!(matches!(
        read_vector_at(&bytes, 0),
        Err(SegmentError::UnsupportedVersion { version: 2 })
    ));
}

#[test]
fn short_header_is_truncated() {
    let bytes = write_segment(&three_by_three()).unwrap();
    for len in [0usize, 3, 4, 7, 8, 15] {
        assert!(matches!(
            SegmentHeader::read(&bytes[..len]),
            Err(SegmentError::TruncatedInput)
        ));
    }
    assert!(matches!(SegmentHeader::read(&bytes[..16]), Ok(_)));
}

#[test]
fn short_data_is_truncated() {
    let bytes = write_segment(&three_by_three()).unwrap();
    let cut = &bytes[..51];
    assert!(matches!(read_segment(cut), Err(SegmentError::TruncatedInput)));
    assert!(matches!(read_vector_at(cut, 2), Err(SegmentError::TruncatedInput)));
    assert!(matches!(
        read_vectors_range(cut, 1, 2),
        Err(SegmentError::TruncatedInput)
    ));
    assert_eq!(floats(&read_vector_at(cut, 1).unwrap()), vec![4.0, 5.0, 6.0]);
}

#[test]
fn trailing_bytes_are_ignored() {
    let mut bytes = write_segment(&three_by_three()).unwrap();
    bytes.extend_from_slice(&[0xAB; 7]);
    assert_eq!(read_segment(&bytes).unwrap().len(), 3);
}

#[test]
fn bounds_are_checked() {
    let bytes = write_segment(&three_by_three()).unwrap();
    assert!(matches!(
        read_vector_at(&bytes, 3),
        Err(SegmentError::IndexOutOfBounds { index: 3, count: 3 })
    ));
    assert!(matches!(
        read_vectors_range(&bytes, 0, 4),
        Err(SegmentError::RangeOutOfBounds { start: 0, len: 4, count: 3 })
    ));
    assert!(matches!(
        read_vectors_range(&bytes, u32::MAX, 2),
        Err(SegmentError::RangeOutOfBounds { .. })
    ));
}

#[test]
fn empty_segment_is_a_bare_header() {
    let bytes = write_segment(&[]).unwrap();
    assert_eq!(bytes.len() as u64, HEADER_SIZE);
    assert!(read_segment(&bytes).unwrap().is_empty());
    let header = read_segment_header(&bytes).unwrap();
    assert_eq!(header.count, 0);
    assert_eq!(header.dimension, 0);
}

#[test]
fn header_offsets() {
    let header = SegmentHeader { version: VERSION, count: 5, dimension: 3 };
    assert_eq!(header.data_offset(), 16);
    assert_eq!(header.vector_byte_size(), 12);
    assert_eq!(header.vector_offset(0), 16);
    assert_eq!(header.vector_offset(2), 40);
    assert_eq!(header.file_size(), 76);
    let big = SegmentHeader { version: VERSION, count: 4_000_000_000, dimension: 1536 };
    assert_eq!(big.file_size(), 16 + 4_000_000_000u64 * 1536 * 4);
}

#[test]
fn header_write_then_read() {
    let header = SegmentHeader { version: VERSION, count: 500, dimension: 768 };
    let mut out = Vec::new();
    header.write(&mut out);
    assert_eq!(out.len(), 16);
    assert_eq!(&out[8..12], &[0xF4, 0x01, 0, 0]);
    assert_eq!(SegmentHeader::read(&out).unwrap(), header);
}

#[test]
fn integers_are_little_endian() {
    let mut buf = Vec::new();
    write_u32(&mut buf, 500);
    write_u64(&mut buf, 9_999_999_999);
    assert_eq!(buf, vec![0xF4, 0x01, 0, 0, 0xFF, 0xE3, 0x0B, 0x54, 0x02, 0, 0, 0]);
    let mut pos = 0usize;
    assert_eq!(read_u32(&buf, &mut pos), Some(500));
    assert_eq!(pos, 4);
    assert_eq!(read_u64(&buf, &mut pos), Some(9_999_999_999));
    assert_eq!(pos, 12);
    assert_eq!(read_u32(&buf, &mut pos), None);
    assert_eq!(pos, 12);
    let mut at_ten = 10usize;
    assert_eq!(read_u64(&buf, &mut at_ten), None);
    assert_eq!(at_ten, 10);
}

#[test]
fn spans_locate_vectors() {
    let header = SegmentHeader { version: VERSION, count: 5, dimension: 3 };
    assert_eq!(header.vector_span(0).unwrap(), (16, 12));
    assert_eq!(header.vector_span(4).unwrap(), (64, 12));
    assert!(matches!(
        header.vector_span(5),
        Err(SegmentError::IndexOutOfBounds { index: 5, count: 5 })
    ));
    assert_eq!(header.range_span(1, 3).unwrap(), (28, 36));
    assert_eq!(header.range_span(5, 0).unwrap(), (76, 0));
    assert!(matches!(
        header.range_span(3, 3),
        Err(SegmentError::RangeOutOfBounds { start: 3, len: 3, count: 5 })
    ));
    let huge = SegmentHeader { version: VERSION, count: u32::MAX, dimension: u32::MAX };
    assert!(matches!(huge.range_span(0, u32::MAX), Err(SegmentError::TruncatedInput)));
}

#[test]
fn windows_decode_back_to_back_vectors() {
    let bytes = write_segment(&three_by_three()).unwrap();
    let one = decode_vector(&bytes[28..40], 3);
    assert_eq!(floats(&one), vec![4.0, 5.0, 6.0]);
    let two = decode_vectors(&bytes[28..52], 3, 2);
    assert_eq!(two.len(), 2);
    assert_eq!(floats(&two[1]), vec![7.0, 8.0, 9.0]);
    assert!(decode_vectors(&bytes[16..16], 0, 4).iter().all(|v| v.data.is_empty()));
}

#[test]
fn hex_dump_rows() {
    let mut data = write_segment(&[]).unwrap();
    data.extend_from_slice(b"A~\x7f");
    let text = String::from_utf8(hex_dump(&data)).unwrap();
    assert_eq!(
        text,
        "00000000  56 45 43 54  01 00 00 00  00 00 00 00  00 00 00 00   VECT............\n\
         00000010  41 7E 7F                                             A~.\n"
    );
    assert!(hex_dump(&[]).is_empty());
}

#[test]
fn floats_travel_as_bit_patterns() {
    let mut buf = Vec::new();
    write_f32(&mut buf, 3.14159f32.to_bits());
    write_f64(&mut buf, 2.5f64.to_bits());
    write_f32_slice(&mut buf, &[1.0f32.to_bits(), 2.0f32.to_bits(), 3.0f32.to_bits()]);
    assert_eq!(&buf[0..4], &3.14159f32.to_le_bytes());
    assert_eq!(&buf[4..12], &2.5f64.to_le_bytes());
    assert_eq!(&buf[20..24], &3.0f32.to_le_bytes());
    assert_eq!(buf.len(), 24);
    let mut pos = 0usize;
    assert_eq!(f32::from_bits(read_f32(&buf, &mut pos).unwrap()), 3.14159);
    assert_eq!(f64::from_bits(read_f64(&buf, &mut pos).unwrap()), 2.5);
    let v = read_f32_vec(&buf, &mut pos, 3).unwrap();
    let values: Vec<f32> = v.iter().map(|b| f32::from_bits(*b)).collect();
    assert_eq!(values, vec![1.0, 2.0, 3.0]);
    assert_eq!(pos, 24);
    let mut at = 16usize;
    assert_eq!(read_f32_vec(&buf, &mut at, 3), None);
    assert_eq!(at, 16);
    assert_eq!(read_f32(&buf, &mut at), Some(2.0f32.to_bits()));
    let mut end = 24usize;
    assert_eq!(read_f32_vec(&buf, &mut end, 0), Some(vec![]));
    assert_eq!(read_f64(&buf, &mut end), None);
}

#[test]
fn empty_range_reads_no_data() {
    let header = SegmentHeader { version: VERSION, count: 1, dimension: 1 };
    let mut bytes = Vec::new();
    header.write(&mut bytes);
    assert_eq!(bytes.len(), 16);
    assert!(read_vectors_range(&bytes, 1, 0).unwrap().is_empty());
    assert!(read_vectors_range(&bytes, 0, 0).unwrap().is_empty());
    assert!(matches!(
        read_vectors_range(&bytes, 0, 1),
        Err(SegmentError::TruncatedInput)
    ));
    assert!(matches!(
        read_vectors_range(&bytes, 2, 0),
        Err(SegmentError::RangeOutOfBounds { start: 2, len: 0, count: 1 })
    ));
}

#[test]
fn read_vectors_carry_no_tags() {
    let mut tagged = vector_of(&[1.0, 2.0, 3.0]);
    tagged.metadata.insert("title".to_string(), "Doc".to_string());
    let vectors = vec![tagged, vector_of(&[4.0, 5.0, 6.0])];
    let bytes = write_segment(&vectors).unwrap();
    assert!(read_segment(&bytes).unwrap().iter().all(|v| v.metadata.is_empty()));
    assert!(read_vector_at(&bytes, 0).unwrap().metadata.is_empty());
    assert!(read_vectors_range(&bytes, 0, 2).unwrap().iter().all(|v| v.metadata.is_empty()));
    assert!(decode_vector(&bytes[16..28], 3).metadata.is_empty());
}
