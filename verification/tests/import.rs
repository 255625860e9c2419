use vchord_devtools::dataset::Manifest;
use vchord_devtools::pipeline::check_trailing;
use vchord_devtools::pipeline::make_test_row;
use vchord_devtools::pipeline::make_train_row;
use vchord_devtools::pipeline::ImportError;
use vchord_devtools::pipeline::StreamKind;
use vchord_devtools::pipeline::run_test_import;
use vchord_devtools::pipeline::run_train_import;
use vchord_devtools::vecs::F32Bits;
use vchord_devtools::vecs::Reader;
use vchord_devtools::vecs::VecsError;
use vchord_devtools::vecs::Writer;

fn f32_stream(records: &[Vec<f32>]) -> Vec<u8> {
    let mut w: Writer<F32Bits> = Writer::new(Vec::new());
    for r in records {
        let bits: Vec<F32Bits> = r.iter().map(|x| F32Bits(x.to_bits())).collect();
        w.write(bits.as_slice()).ok().unwrap();
    }
    w.into_inner()
}

fn i32_stream(records: &[Vec<i32>]) -> Vec<u8> {
    let mut w: Writer<i32> = Writer::new(Vec::new());
    for r in records {
        w.write(r.as_slice()).ok().unwrap();
    }
    w.into_inner()
}

fn be32(b: &[u8], at: usize) -> u32 {
    u32::from_be_bytes([b[at], b[at + 1], b[at + 2], b[at + 3]])
}

fn be16(b: &[u8], at: usize) -> u16 {
    u16::from_be_bytes([b[at], b[at + 1]])
}

#[test]
fn train_import_scenario() {
    let manifest = Manifest { d: 4, n: 2, m: 1, k: 2 };
    let stream = f32_stream(&[vec![1.0, 2.0, 3.0, 4.0], vec![5.0, 6.0, 7.0, 8.0]]);
    // The container bytes themselves: two records of 4 little-endian floats.
    let mut expected_stream: Vec<u8> = vec![0x04, 0x00, 0x00, 0x00];
    for x in [1.0f32, 2.0, 3.0, 4.0] {
        expected_stream.extend(x.to_le_bytes());
    }
    expected_stream.extend([0x04, 0x00, 0x00, 0x00]);
    for x in [5.0f32, 6.0, 7.0, 8.0] {
        expected_stream.extend(x.to_le_bytes());
    }
    assert_eq!(stream, expected_stream);

    let mut reader: Reader<F32Bits> = Reader::new(stream);
    let out = run_train_import(&manifest, &mut reader).ok().unwrap();
    // 19-byte header, then two tuples of 34 bytes each.
    assert_eq!(out.len(), 19 + 2 * 34);
    for (row, base) in [(0u32, 19usize), (1u32, 19 + 34)] {
        assert_eq!(be16(&out, base), 2); // field count
        assert_eq!(be32(&out, base + 2), 4); // index field length
        assert_eq!(be32(&out, base + 6), row); // index derived from position
        assert_eq!(be32(&out, base + 10), 20); // embedding field length: 2 + 2 + 16
        assert_eq!(be16(&out, base + 14), 4); // element count
    }
    assert_eq!(be32(&out, 19 + 18), 1.0f32.to_bits());
    assert_eq!(be32(&out, 19 + 34 + 18), 5.0f32.to_bits());
}

#[test]
fn train_import_fails_on_short_stream() {
    let manifest = Manifest { d: 4, n: 3, m: 0, k: 0 };
    let stream = f32_stream(&[vec![1.0, 2.0, 3.0, 4.0], vec![5.0, 6.0, 7.0, 8.0]]);
    let mut reader: Reader<F32Bits> = Reader::new(stream);
    let got = run_train_import(&manifest, &mut reader);
    assert!(matches!(
        got,
        Err(ImportError::UnexpectedCount { stream: StreamKind::Embedding, row: 2 })
    ));
}

#[test]
fn train_import_fails_on_trailing_records() {
    let manifest = Manifest { d: 1, n: 3, m: 0, k: 0 };
    let stream = f32_stream(&[vec![1.0], vec![2.0], vec![3.0], vec![4.0]]);
    let mut reader: Reader<F32Bits> = Reader::new(stream);
    let got = run_train_import(&manifest, &mut reader);
    assert!(matches!(
        got,
        Err(ImportError::UnexpectedCount { stream: StreamKind::Embedding, row: 3 })
    ));
}

#[test]
fn train_import_fails_on_wrong_dimension() {
    let manifest = Manifest { d: 4, n: 2, m: 0, k: 0 };
    let stream = f32_stream(&[vec![1.0, 2.0, 3.0, 4.0], vec![5.0, 6.0]]);
    let mut reader: Reader<F32Bits> = Reader::new(stream);
    let got = run_train_import(&manifest, &mut reader);
    assert!(matches!(
        got,
        Err(ImportError::UnexpectedDimension { stream: StreamKind::Embedding, row: 1 })
    ));
}

#[test]
fn train_import_propagates_corruption() {
    let manifest = Manifest { d: 1, n: 1, m: 0, k: 0 };
    let mut reader: Reader<F32Bits> = Reader::new(vec![0xff, 0xff, 0xff, 0xff]);
    let got = run_train_import(&manifest, &mut reader);
    assert!(matches!(got, Err(ImportError::Vecs(VecsError::Corruption))));
}

#[test]
fn train_import_propagates_io_error() {
    let manifest = Manifest { d: 1, n: 1, m: 0, k: 0 };
    // Announces 3 elements but the source ends after one payload byte.
    let mut reader: Reader<F32Bits> = Reader::new(vec![0x03, 0x00, 0x00, 0x00, 0xaa]);
    let got = run_train_import(&manifest, &mut reader);
    assert!(matches!(got, Err(ImportError::Vecs(VecsError::Io(_)))));
}

#[test]
fn test_import_scenario() {
    let manifest = Manifest { d: 4, n: 0, m: 1, k: 2 };
    let emb = f32_stream(&[vec![1.0, 2.0, 3.0, 4.0]]);
    let ans = i32_stream(&[vec![10, 20]]);
    let mut emb_reader: Reader<F32Bits> = Reader::new(emb);
    let mut ans_reader: Reader<i32> = Reader::new(ans);
    let out = run_test_import(&manifest, &mut emb_reader, &mut ans_reader).ok().unwrap();
    let base = 19;
    assert_eq!(be16(&out, base), 3); // field count
    assert_eq!(be32(&out, base + 2), 4); // index field length
    assert_eq!(be32(&out, base + 6), 0); // first row index
    assert_eq!(be32(&out, base + 10), 20); // embedding field length
    let afield = base + 34;
    assert_eq!(be32(&out, afield), 20 + 8 * 2); // array field length
    assert_eq!(be32(&out, afield + 12), 23); // element-type tag
    assert_eq!(be32(&out, afield + 16), 2); // element count
    assert_eq!(be32(&out, afield + 28) as i32, 10);
    assert_eq!(be32(&out, afield + 36) as i32, 20);
    assert_eq!(out.len(), afield + 4 + 20 + 8 * 2);
}

#[test]
fn test_import_fails_on_missing_answer() {
    let manifest = Manifest { d: 2, n: 0, m: 1, k: 2 };
    let emb = f32_stream(&[vec![1.0, 2.0]]);
    let mut emb_reader: Reader<F32Bits> = Reader::new(emb);
    let mut ans_reader: Reader<i32> = Reader::new(Vec::new());
    let got = run_test_import(&manifest, &mut emb_reader, &mut ans_reader);
    assert!(matches!(
        got,
        Err(ImportError::UnexpectedCount { stream: StreamKind::Answer, row: 0 })
    ));
}

#[test]
fn test_import_fails_on_wrong_answer_width() {
    let manifest = Manifest { d: 2, n: 0, m: 1, k: 2 };
    let emb = f32_stream(&[vec![1.0, 2.0]]);
    let ans = i32_stream(&[vec![5]]);
    let mut emb_reader: Reader<F32Bits> = Reader::new(emb);
    let mut ans_reader: Reader<i32> = Reader::new(ans);
    let got = run_test_import(&manifest, &mut emb_reader, &mut ans_reader);
    assert!(matches!(
        got,
        Err(ImportError::UnexpectedDimension { stream: StreamKind::Answer, row: 0 })
    ));
}

#[test]
fn test_import_fails_on_trailing_answers() {
    let manifest = Manifest { d: 1, n: 0, m: 1, k: 1 };
    let emb = f32_stream(&[vec![1.0]]);
    let ans = i32_stream(&[vec![5], vec![6]]);
    let mut emb_reader: Reader<F32Bits> = Reader::new(emb);
    let mut ans_reader: Reader<i32> = Reader::new(ans);
    let got = run_test_import(&manifest, &mut emb_reader, &mut ans_reader);
    assert!(matches!(
        got,
        Err(ImportError::UnexpectedCount { stream: StreamKind::Answer, row: 1 })
    ));
}

#[test]
fn per_row_steps_match_batch_driver() {
    let rec: Vec<F32Bits> = vec![1.0f32, 2.0].iter().map(|x| F32Bits(x.to_bits())).collect();
    let tuple = make_train_row(5, Some(rec.clone()), 2).ok().unwrap();
    assert_eq!(be16(&tuple, 0), 2);
    assert_eq!(be32(&tuple, 6), 5);
    let missing = make_train_row(5, None, 2);
    assert!(matches!(
        missing,
        Err(ImportError::UnexpectedCount { stream: StreamKind::Embedding, row: 5 })
    ));
    let narrow = make_train_row(5, Some(rec.clone()), 3);
    assert!(matches!(
        narrow,
        Err(ImportError::UnexpectedDimension { stream: StreamKind::Embedding, row: 5 })
    ));
    let paired = make_test_row(0, Some(rec.clone()), Some(vec![1, 2, 3]), 2, 3).ok().unwrap();
    assert_eq!(be16(&paired, 0), 3);
    let no_answer = make_test_row(0, Some(rec), None, 2, 3);
    assert!(matches!(
        no_answer,
        Err(ImportError::UnexpectedCount { stream: StreamKind::Answer, row: 0 })
    ));
    assert!(check_trailing(StreamKind::Embedding, 4, false).is_ok());
    assert!(matches!(
        check_trailing(StreamKind::Answer, 4, true),
        Err(ImportError::UnexpectedCount { stream: StreamKind::Answer, row: 4 })
    ));
}

#[test]
fn import_of_empty_manifest_emits_header_only() {
    let manifest = Manifest { d: 4, n: 0, m: 0, k: 0 };
    let mut reader: Reader<F32Bits> = Reader::new(Vec::new());
    let out = run_train_import(&manifest, &mut reader).ok().unwrap();
    assert_eq!(out.len(), 19);
}
