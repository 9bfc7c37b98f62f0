use wormhole::proto::{read_fields, read_varint, write_bytes_field, write_varint, write_varint_field, FieldValue};

#[test]
fn varint_encoding_of_small_and_large_values() {
    let mut out = Vec::new();
    write_varint(&mut out, 1);
    assert_eq!(out, vec![1]);
    let mut out = Vec::new();
    write_varint(&mut out, 300);
    assert_eq!(out, vec![0xac, 0x02]);
    let mut out = Vec::new();
    write_varint(&mut out, u64::MAX);
    assert_eq!(out, vec![0xff, 0xff, 0xff, 0xff, 0xff, 0xff, 0xff, 0xff, 0xff, 0x01]);
}

#[test]
fn varint_reads_back_what_was_written() {
    for v in [0u64, 1, 127, 128, 300, 1 << 35, u64::MAX].iter() {
        let mut out = vec![9u8];
        write_varint(&mut out, *v);
        out.push(7);
        let (value, end) = read_varint(&out, 1).expect("reads");
        assert_eq!(value, *v);
        assert_eq!(out[end], 7);
    }
}

#[test]
fn varint_refuses_unterminated_and_overlong_input() {
    assert!(read_varint(&[0x80, 0x80], 0).is_none());
    assert!(read_varint(&[], 0).is_none());
    assert!(read_varint(&[0xff; 11], 0).is_none());
}

#[test]
fn varint_tenth_byte_wraps_to_sixty_four_bits() {
    let bytes = [0xff, 0xff, 0xff, 0xff, 0xff, 0xff, 0xff, 0xff, 0xff, 0x7f];
    assert_eq!(read_varint(&bytes, 0), Some((u64::MAX, 10)));
}

#[test]
fn fields_read_in_order_with_unknown_fields() {
    let mut out = Vec::new();
    write_varint_field(&mut out, 1, 150);
    write_bytes_field(&mut out, 2, b"abc");
    // a fixed 32-bit field 5 and a fixed 64-bit field 6
    out.extend_from_slice(&[0x2d, 1, 2, 3, 4]);
    out.extend_from_slice(&[0x31, 1, 2, 3, 4, 5, 6, 7, 8]);
    assert_eq!(out[..5].to_vec(), vec![0x08, 0x96, 0x01, 0x12, 0x03]);
    let fields = read_fields(&out, 100).expect("well formed");
    assert_eq!(fields.len(), 4);
    assert_eq!(fields[0].tag, 1);
    assert!(matches!(fields[0].value, FieldValue::Varint(150)));
    assert_eq!(fields[1].tag, 2);
    match &fields[1].value {
        FieldValue::Bytes(b) => assert_eq!(b.as_slice(), b"abc"),
        _ => panic!("bytes expected"),
    }
    assert!(matches!(fields[2].value, FieldValue::Fixed32));
    assert!(matches!(fields[3].value, FieldValue::Fixed64));
}

#[test]
fn fields_refuse_bad_framing() {
    // length beyond the end
    assert!(read_fields(&[0x12, 0x05, 1, 2], 100).is_none());
    // field number zero
    assert!(read_fields(&[0x02, 0x00], 100).is_none());
    // wire type 6
    assert!(read_fields(&[0x0e, 0x00], 100).is_none());
    // truncated fixed field
    assert!(read_fields(&[0x0d, 1, 2], 100).is_none());
    assert_eq!(read_fields(&[], 100).map(|f| f.len()), Some(0));
}

#[test]
fn groups_are_skipped_with_their_fields() {
    // group 1 holding a varint field 2, then a varint field 3
    let bytes = [0x0b, 0x10, 0x05, 0x0c, 0x18, 0x07];
    let fields = read_fields(&bytes, 100).expect("well formed");
    assert_eq!(fields.len(), 2);
    assert_eq!(fields[0].tag, 1);
    assert!(matches!(fields[0].value, FieldValue::Group));
    assert!(matches!(fields[1].value, FieldValue::Varint(7)));
    // nested groups
    let nested = [0x0b, 0x13, 0x14, 0x0c];
    assert_eq!(read_fields(&nested, 100).map(|f| f.len()), Some(1));
}

#[test]
fn groups_must_end_with_their_own_field_and_within_the_nesting_limit() {
    // end-group key of field 2 closing a group of field 1
    assert!(read_fields(&[0x0b, 0x14], 100).is_none());
    // unterminated group
    assert!(read_fields(&[0x0b, 0x10, 0x05], 100).is_none());
    // a lone end-group key
    assert!(read_fields(&[0x0c], 100).is_none());
    // one level of nesting lets a group be skipped but not a field inside it
    assert!(read_fields(&[0x0b, 0x0c], 1).is_some());
    assert!(read_fields(&[0x0b, 0x10, 0x05, 0x0c], 1).is_none());
    assert!(read_fields(&[0x0b, 0x10, 0x05, 0x0c], 2).is_some());
    assert!(read_fields(&[0x0b, 0x0c], 0).is_none());
}
