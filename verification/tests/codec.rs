use vchord_devtools::vecs::F32Bits;
use vchord_devtools::vecs::Reader;
use vchord_devtools::vecs::VecsError;
use vchord_devtools::vecs::Writer;
use vchord_devtools::vecs::encode_record_vec;
use vchord_devtools::vecs::parse_len_prefix;
use vchord_devtools::vecs::record_byte_count;

fn write_all_u8(records: &[Vec<u8>]) -> Vec<u8> {
    let mut w: Writer<u8> = Writer::new(Vec::new());
    for r in records {
        w.write(r.as_slice()).ok().unwrap();
    }
    w.into_inner()
}

#[test]
fn round_trip_u8() {
    let records: Vec<Vec<u8>> = vec![vec![], vec![1, 2, 3], vec![255, 0, 255, 0]];
    let bytes = write_all_u8(&records);
    let mut r: Reader<u8> = Reader::new(bytes);
    for rec in &records {
        let got = r.read().ok().unwrap().unwrap();
        assert_eq!(&got, rec);
    }
    assert!(r.read().ok().unwrap().is_none());
}

#[test]
fn round_trip_i32() {
    let records: Vec<Vec<i32>> = vec![vec![-1, 0, i32::MAX, i32::MIN], vec![], vec![42]];
    let mut w: Writer<i32> = Writer::new(Vec::new());
    for r in &records {
        w.write(r.as_slice()).ok().unwrap();
    }
    let mut r: Reader<i32> = Reader::new(w.into_inner());
    for rec in &records {
        let got = r.read().ok().unwrap().unwrap();
        assert_eq!(&got, rec);
    }
    assert!(r.read().ok().unwrap().is_none());
}

#[test]
fn round_trip_f32() {
    let records: Vec<Vec<f32>> = vec![vec![1.0, -2.5, 0.0], vec![3.25]];
    let mut w: Writer<F32Bits> = Writer::new(Vec::new());
    for r in &records {
        let bits: Vec<F32Bits> = r.iter().map(|x| F32Bits(x.to_bits())).collect();
        w.write(bits.as_slice()).ok().unwrap();
    }
    let mut r: Reader<F32Bits> = Reader::new(w.into_inner());
    for rec in &records {
        let got = r.read().ok().unwrap().unwrap();
        let floats: Vec<f32> = got.iter().map(|b| f32::from_bits(b.0)).collect();
        assert_eq!(&floats, rec);
    }
    assert!(r.read().ok().unwrap().is_none());
}

#[test]
fn empty_stream_yields_no_record() {
    let mut r: Reader<u8> = Reader::new(Vec::new());
    let first = r.read().ok().unwrap();
    assert!(first.is_none());
    let second = r.read().ok().unwrap();
    assert!(second.is_none());
}

#[test]
fn negative_length_prefix_is_corruption() {
    // -1 as a little-endian int32.
    let mut r: Reader<u8> = Reader::new(vec![0xff, 0xff, 0xff, 0xff]);
    let got = r.read();
    assert!(matches!(got, Err(VecsError::Corruption)));
}

#[test]
fn short_length_prefix_is_io_error() {
    let mut r: Reader<u8> = Reader::new(vec![0x01, 0x00]);
    let got = r.read();
    assert!(matches!(got, Err(VecsError::Io(_))));
}

#[test]
fn short_payload_is_io_error() {
    // Announces 4 elements but holds only 2 payload bytes.
    let mut r: Reader<u8> = Reader::new(vec![0x04, 0x00, 0x00, 0x00, 0xaa, 0xbb]);
    let got = r.read();
    assert!(matches!(got, Err(VecsError::Io(_))));
}

#[test]
fn container_bytes_are_length_then_le_payload() {
    let mut w: Writer<F32Bits> = Writer::new(Vec::new());
    let rec: Vec<F32Bits> = vec![1.0f32, 2.0, 3.0, 4.0].iter().map(|x| F32Bits(x.to_bits())).collect();
    w.write(rec.as_slice()).ok().unwrap();
    let bytes = w.into_inner();
    let mut expected: Vec<u8> = vec![0x04, 0x00, 0x00, 0x00];
    for x in [1.0f32, 2.0, 3.0, 4.0] {
        expected.extend(x.to_le_bytes());
    }
    assert_eq!(bytes, expected);
}

#[test]
fn writer_appends_to_existing_sink() {
    let mut w: Writer<u8> = Writer::new(vec![9]);
    w.write(&[7]).ok().unwrap();
    assert_eq!(w.into_inner(), vec![9, 0x01, 0x00, 0x00, 0x00, 7]);
}

#[test]
fn parse_len_prefix_reads_le_and_flags_negative() {
    assert_eq!(parse_len_prefix(&[0x02, 0x01, 0x00, 0x00]).ok().unwrap(), 0x0102);
    let bad = parse_len_prefix(&[0x00, 0x00, 0x00, 0x80]);
    assert!(matches!(bad, Err(VecsError::Corruption)));
}

#[test]
fn record_byte_count_scales_by_width() {
    assert_eq!(record_byte_count::<u8>(7), 7);
    assert_eq!(record_byte_count::<i32>(7), 28);
    assert_eq!(record_byte_count::<F32Bits>(3), 12);
}

#[test]
fn encode_record_vec_matches_writer() {
    let data: Vec<i32> = vec![1, -2, 3];
    let direct = encode_record_vec(data.as_slice()).ok().unwrap();
    let mut w: Writer<i32> = Writer::new(Vec::new());
    w.write(data.as_slice()).ok().unwrap();
    assert_eq!(direct, w.into_inner());
    let mut expected: Vec<u8> = vec![0x03, 0x00, 0x00, 0x00];
    for x in [1i32, -2, 3] {
        expected.extend(x.to_le_bytes());
    }
    assert_eq!(direct, expected);
}
