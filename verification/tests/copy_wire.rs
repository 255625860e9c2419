use vchord_devtools::bulkcopy::begin_field;
use vchord_devtools::bulkcopy::copy_header;
use vchord_devtools::bulkcopy::encode_test_tuple;
use vchord_devtools::bulkcopy::encode_train_tuple;
use vchord_devtools::bulkcopy::end_field;
use vchord_devtools::vecs::F32Bits;

fn be32(b: &[u8], at: usize) -> u32 {
    u32::from_be_bytes([b[at], b[at + 1], b[at + 2], b[at + 3]])
}

fn be16(b: &[u8], at: usize) -> u16 {
    u16::from_be_bytes([b[at], b[at + 1]])
}

#[test]
fn header_is_signature_flags_extension() {
    let h = copy_header();
    let mut expected: Vec<u8> = vec![b'P', b'G', b'C', b'O', b'P', b'Y', b'\n', 255, b'\r', b'\n', 0];
    expected.extend([0u8; 4]);
    expected.extend([0u8; 4]);
    assert_eq!(h, expected);
}

#[test]
fn backpatch_writes_exact_content_length() {
    let mut buf: Vec<u8> = vec![0xaa];
    let mark = begin_field(&mut buf);
    buf.push(1);
    buf.push(2);
    buf.push(3);
    end_field(&mut buf, mark);
    assert_eq!(buf, vec![0xaa, 0, 0, 0, 3, 1, 2, 3]);
}

#[test]
fn backpatch_of_empty_content_is_zero() {
    let mut buf: Vec<u8> = Vec::new();
    let mark = begin_field(&mut buf);
    end_field(&mut buf, mark);
    assert_eq!(buf, vec![0, 0, 0, 0]);
}

#[test]
fn train_tuple_layout() {
    let e: Vec<F32Bits> = vec![1.0f32, 2.0, 3.0, 4.0].iter().map(|x| F32Bits(x.to_bits())).collect();
    let t = encode_train_tuple(7, e.as_slice());
    // Field count 2.
    assert_eq!(be16(&t, 0), 2);
    // Index field: declared length 4, then the index, big-endian.
    assert_eq!(be32(&t, 2), 4);
    assert_eq!(be32(&t, 6), 7);
    // Embedding field: declared length 2 + 2 + 4 * 4 = 20.
    assert_eq!(be32(&t, 10), 20);
    assert_eq!(be16(&t, 14), 4); // element count
    assert_eq!(be16(&t, 16), 0); // reserved
    for (j, x) in [1.0f32, 2.0, 3.0, 4.0].iter().enumerate() {
        assert_eq!(be32(&t, 18 + 4 * j), x.to_bits());
    }
    assert_eq!(t.len(), 2 + 4 + 4 + 4 + 20);
}

#[test]
fn test_tuple_layout() {
    let e: Vec<F32Bits> = vec![0.5f32, -0.5].iter().map(|x| F32Bits(x.to_bits())).collect();
    let a: Vec<i32> = vec![7, -8, 9];
    let t = encode_test_tuple(1, e.as_slice(), a.as_slice());
    // Field count 3.
    assert_eq!(be16(&t, 0), 3);
    // Index field.
    assert_eq!(be32(&t, 2), 4);
    assert_eq!(be32(&t, 6), 1);
    // Embedding field: 2 + 2 + 2 * 4 = 12 content bytes.
    assert_eq!(be32(&t, 10), 12);
    assert_eq!(be16(&t, 14), 2);
    assert_eq!(be16(&t, 16), 0);
    assert_eq!(be32(&t, 18), 0.5f32.to_bits());
    assert_eq!(be32(&t, 22), (-0.5f32).to_bits());
    // Array field: header 20 bytes plus (4 + 4) per element.
    let afield = 26;
    assert_eq!(be32(&t, afield), 20 + 8 * 3);
    assert_eq!(be32(&t, afield + 4), 1); // dimension count
    assert_eq!(be32(&t, afield + 8), 0); // has-null flag
    assert_eq!(be32(&t, afield + 12), 23); // element-type tag
    assert_eq!(be32(&t, afield + 16), 3); // element count
    assert_eq!(be32(&t, afield + 20), 1); // lower bound
    for (j, x) in [7i32, -8, 9].iter().enumerate() {
        assert_eq!(be32(&t, afield + 24 + 8 * j), 4);
        assert_eq!(be32(&t, afield + 28 + 8 * j) as i32, *x);
    }
    assert_eq!(t.len(), afield + 24 + 8 * 3);
}
