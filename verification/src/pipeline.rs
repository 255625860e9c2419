//! The streaming import pipeline.
//!
//! Drives one or two record streams against a manifest-declared row count,
//! validating cardinality and dimension as it goes, and emits the bulk-copy
//! byte stream: the 19-byte header, then one encoded tuple per row, indexed
//! by iteration position. Every integrity violation aborts the run at the
//! row where it is found; no row is skipped, since index assignment is
//! derived purely from stream order.

use crate::bulkcopy::copy_header;
use crate::bulkcopy::encode_test_tuple;
use crate::bulkcopy::encode_train_tuple;
use crate::bulkcopy::spec_copy_header;
use crate::bulkcopy::spec_test_tuple;
use crate::bulkcopy::spec_train_tuple;
use crate::dataset::Manifest;
use crate::vecs::F32Bits;
use crate::vecs::ReadStep;
use crate::vecs::Reader;
use crate::vecs::VecsError;
use crate::vecs::encode_record;
use crate::vecs::encode_records;
use crate::vecs::read_step;
use vstd::prelude::*;

verus! {

/// Which record stream an integrity violation was found in.
#[derive(Clone, Copy, Debug, PartialEq, Eq, Structural)]
pub enum StreamKind {
    /// The embedding stream (train or test vectors).
    Embedding,
    /// The groundtruth answer-array stream.
    Answer,
}

/// Everything an import run can fail with. No error is downgraded: each
/// aborts the run at the row where it was found.
pub enum ImportError {
    /// The record codec failed underneath the pipeline.
    Vecs(VecsError),
    /// A stream held fewer or more records than the manifest declares.
    UnexpectedCount { stream: StreamKind, row: usize },
    /// A record's length differs from the dimension the manifest declares.
    UnexpectedDimension { stream: StreamKind, row: usize },
}

/// The outcome of driving one record stream against a declared row count
/// and dimension, mirroring the pipeline's per-row protocol: one read per
/// row, a dimension check, and after the last row one more read that must
/// find the source exhausted.
pub enum Drive<T> {
    /// Every declared row was read with the declared dimension and nothing
    /// followed; the payload is the records in stream order.
    Complete(Seq<Seq<T>>),
    /// The source ran short mid-record at this row: an I/O failure.
    FailShort(nat),
    /// A negative length prefix at this row: corruption.
    FailCorrupt(nat),
    /// The source was exhausted before this row: too few records.
    FailMissing(nat),
    /// A record was found beyond the declared count.
    FailExtra(nat),
    /// The record at this row does not have the declared dimension.
    FailDim(nat),
}

/// What the pipeline's single-stream loop yields on `b`, reading rows
/// `row .. total` and then checking that nothing is left.
pub open spec fn drive<T: crate::vecs::Scalar>(b: Seq<u8>, row: nat, total: nat, d: nat) -> Drive<
    T,
>
    decreases total - row,
{
    if row >= total {
        match read_step::<T>(b) {
            ReadStep::End => Drive::Complete(Seq::empty()),
            ReadStep::ShortLen => Drive::FailShort(row),
            ReadStep::ShortPayload => Drive::FailShort(row),
            ReadStep::Corrupt => Drive::FailCorrupt(row),
            ReadStep::Rec(_, _) => Drive::FailExtra(row),
        }
    } else {
        match read_step::<T>(b) {
            ReadStep::End => Drive::FailMissing(row),
            ReadStep::ShortLen => Drive::FailShort(row),
            ReadStep::ShortPayload => Drive::FailShort(row),
            ReadStep::Corrupt => Drive::FailCorrupt(row),
            ReadStep::Rec(rec, rest) => if rec.len() != d {
                Drive::FailDim(row)
            } else {
                match drive::<T>(rest, row + 1, total, d) {
                    Drive::Complete(rs) => Drive::Complete(seq![rec] + rs),
                    o => o,
                }
            },
        }
    }
}

proof fn lemma_drive_cardinality_from(rs: Seq<Seq<F32Bits>>, row: nat, total: nat, d: nat)
    requires
        forall|i: int| 0 <= i < rs.len() ==> #[trigger] rs[i].len() == d,
        d < 0x7fff_ffff,
        row <= total,
    ensures
        row + rs.len() == total ==> drive::<F32Bits>(encode_records(rs), row, total, d)
            == Drive::<F32Bits>::Complete(rs),
        row + rs.len() < total ==> drive::<F32Bits>(encode_records(rs), row, total, d)
            == Drive::<F32Bits>::FailMissing((row + rs.len()) as nat),
        row + rs.len() > total ==> drive::<F32Bits>(encode_records(rs), row, total, d)
            == Drive::<F32Bits>::FailExtra(total),
    decreases rs.len(),
{
    if rs.len() == 0 {
        assert(encode_records::<F32Bits>(rs).len() == 0);
        assert(read_step::<F32Bits>(encode_records(rs)) == ReadStep::<F32Bits>::End);
        assert(rs =~= Seq::<Seq<F32Bits>>::empty());
    } else {
        let b = encode_records(rs);
        let tail = encode_records(rs.skip(1));
        assert(b == encode_record(rs[0]) + tail);
        assert(rs[0].len() == d);
        crate::vecs::lemma_read_of_write::<F32Bits>(rs[0], tail);
        assert(read_step::<F32Bits>(b) == ReadStep::Rec(rs[0], tail));
        if row >= total {
        } else {
            lemma_drive_cardinality_from(rs.skip(1), row + 1, total, d);
            if row + rs.len() == total {
                assert(drive::<F32Bits>(tail, row + 1, total, d) == Drive::<F32Bits>::Complete(
                    rs.skip(1),
                ));
                assert(seq![rs[0]] + rs.skip(1) =~= rs);
            }
        }
    }
}

/// Cardinality enforcement: a stream holding exactly the records `rs`, each
/// of the declared dimension, driven against a declared count, completes
/// exactly when the count matches. A shorter stream fails with a missing
/// row at index `rs.len()` — before any further tuple is formed — and a
/// longer one fails right after the declared count, at row `total`.
pub proof fn lemma_drive_cardinality(rs: Seq<Seq<F32Bits>>, total: nat, d: nat)
    requires
        forall|i: int| 0 <= i < rs.len() ==> #[trigger] rs[i].len() == d,
        d < 0x7fff_ffff,
    ensures
        rs.len() == total ==> drive::<F32Bits>(encode_records(rs), 0, total, d)
            == Drive::<F32Bits>::Complete(rs),
        rs.len() < total ==> drive::<F32Bits>(encode_records(rs), 0, total, d)
            == Drive::<F32Bits>::FailMissing(rs.len()),
        rs.len() > total ==> drive::<F32Bits>(encode_records(rs), 0, total, d)
            == Drive::<F32Bits>::FailExtra(total),
{
    lemma_drive_cardinality_from(rs, 0, total, d);
}

/// The tuple bytes the embedding-only import emits for records `rs`, the
/// first carrying row index `first`.
pub open spec fn spec_train_tuples(rs: Seq<Seq<F32Bits>>, first: int) -> Seq<u8>
    decreases rs.len(),
{
    if rs.len() == 0 {
        Seq::empty()
    } else {
        spec_train_tuple(first as i32, rs[0]) + spec_train_tuples(rs.skip(1), first + 1)
    }
}

pub proof fn lemma_train_tuples_push(rs: Seq<Seq<F32Bits>>, x: Seq<F32Bits>, first: int)
    ensures
        spec_train_tuples(rs.push(x), first) == spec_train_tuples(rs, first) + spec_train_tuple(
            (first + rs.len()) as i32,
            x,
        ),
    decreases rs.len(),
{
    if rs.len() == 0 {
        assert(rs.push(x).skip(1) =~= Seq::<Seq<F32Bits>>::empty());
        assert(spec_train_tuples(Seq::<Seq<F32Bits>>::empty(), first + 1) == Seq::<u8>::empty());
        assert(rs.push(x)[0] == x);
        assert(spec_train_tuples(rs.push(x), first) == spec_train_tuple(first as i32, x)
            + Seq::<u8>::empty());
        assert(spec_train_tuples(rs.push(x), first) =~= spec_train_tuples(rs, first)
            + spec_train_tuple((first + rs.len()) as i32, x));
    } else {
        assert(rs.push(x).skip(1) =~= rs.skip(1).push(x));
        lemma_train_tuples_push(rs.skip(1), x, first + 1);
        assert(rs.push(x)[0] == rs[0]);
        assert(spec_train_tuples(rs.push(x), first) == spec_train_tuple(first as i32, rs[0]) + (
        spec_train_tuples(rs.skip(1), first + 1) + spec_train_tuple(
            (first + 1 + rs.skip(1).len()) as i32,
            x,
        )));
        assert((first + 1 + rs.skip(1).len()) as i32 == (first + rs.len()) as i32);
        assert(spec_train_tuples(rs.push(x), first) =~= spec_train_tuples(rs, first)
            + spec_train_tuple((first + rs.len()) as i32, x));
    }
}

/// One step of the per-row protocol for an embedding-only row, for a
/// streaming driver that reads record by record: the record read for this
/// row (or its absence), held against the declared dimension, becomes the
/// row's tuple bytes or the violation that aborts the run.
pub fn make_train_row(row: usize, rec: Option<Vec<F32Bits>>, d: usize) -> (r: Result<
    Vec<u8>,
    ImportError,
>)
    requires
        d <= 0x7fff,
    ensures
        match rec {
            None => r matches Err(e) && e == (ImportError::UnexpectedCount {
                stream: StreamKind::Embedding,
                row: row,
            }),
            Some(v) => if v@.len() == d {
                r matches Ok(out) && out@ == spec_train_tuple(row as i32, v@)
            } else {
                r matches Err(e) && e == (ImportError::UnexpectedDimension {
                    stream: StreamKind::Embedding,
                    row: row,
                })
            },
        },
{
    match rec {
        None => Err(ImportError::UnexpectedCount { stream: StreamKind::Embedding, row }),
        Some(v) => {
            if v.len() != d {
                Err(ImportError::UnexpectedDimension { stream: StreamKind::Embedding, row })
            } else {
                Ok(encode_train_tuple(row as i32, v.as_slice()))
            }
        },
    }
}

/// One step of the per-row protocol for a row with an answer array: both
/// records' absence is checked first (embedding stream first), then both
/// dimensions (embedding first), exactly as the batch driver does it.
pub fn make_test_row(
    row: usize,
    erec: Option<Vec<F32Bits>>,
    arec: Option<Vec<i32>>,
    d: usize,
    k: usize,
) -> (r: Result<Vec<u8>, ImportError>)
    requires
        d <= 0x7fff,
        k <= 0x0fff_fffd,
    ensures
        match (erec, arec) {
            (None, _) => r matches Err(e) && e == (ImportError::UnexpectedCount {
                stream: StreamKind::Embedding,
                row: row,
            }),
            (Some(_), None) => r matches Err(e) && e == (ImportError::UnexpectedCount {
                stream: StreamKind::Answer,
                row: row,
            }),
            (Some(ev), Some(av)) => if ev@.len() != d {
                r matches Err(e) && e == (ImportError::UnexpectedDimension {
                    stream: StreamKind::Embedding,
                    row: row,
                })
            } else if av@.len() != k {
                r matches Err(e) && e == (ImportError::UnexpectedDimension {
                    stream: StreamKind::Answer,
                    row: row,
                })
            } else {
                r matches Ok(out) && out@ == spec_test_tuple(row as i32, ev@, av@)
            },
        },
{
    match (erec, arec) {
        (None, _) => Err(ImportError::UnexpectedCount { stream: StreamKind::Embedding, row }),
        (Some(_), None) => Err(ImportError::UnexpectedCount { stream: StreamKind::Answer, row }),
        (Some(ev), Some(av)) => {
            if ev.len() != d {
                Err(ImportError::UnexpectedDimension { stream: StreamKind::Embedding, row })
            } else if av.len() != k {
                Err(ImportError::UnexpectedDimension { stream: StreamKind::Answer, row })
            } else {
                Ok(encode_test_tuple(row as i32, ev.as_slice(), av.as_slice()))
            }
        },
    }
}

/// The check after the last declared row: one more read was attempted, and
/// a record found there is trailing data beyond the declared count.
pub fn check_trailing(stream: StreamKind, row: usize, present: bool) -> (r: Result<
    (),
    ImportError,
>)
    ensures
        present ==> (r matches Err(e) && e == (ImportError::UnexpectedCount {
            stream: stream,
            row: row,
        })),
        !present ==> r matches Ok(_),
{
    if present {
        Err(ImportError::UnexpectedCount { stream, row })
    } else {
        Ok(())
    }
}

/// The outcome of driving the paired embedding and answer streams against
/// a declared row count, as the test-table import does: per row one read
/// from each stream (embedding first), then the dimension checks
/// (embedding first), and after the last row one more read from each
/// stream (embedding first) that must find it exhausted.
pub enum Drive2 {
    /// Every declared row was read from both streams with the declared
    /// dimensions and nothing followed in either.
    Complete(Seq<Seq<F32Bits>>, Seq<Seq<i32>>),
    /// A source ran short mid-record at this row: an I/O failure.
    FailShort(StreamKind, nat),
    /// A negative length prefix at this row: corruption.
    FailCorrupt(StreamKind, nat),
    /// A source was exhausted before this row: too few records.
    FailMissing(StreamKind, nat),
    /// A record was found beyond the declared count.
    FailExtra(StreamKind, nat),
    /// The record at this row does not have the declared dimension.
    FailDim(StreamKind, nat),
}

/// What the pipeline's two-stream loop yields on embedding bytes `eb` and
/// answer bytes `ab`, reading rows `row .. total` and then checking that
/// nothing is left in either stream.
pub open spec fn drive2(eb: Seq<u8>, ab: Seq<u8>, row: nat, total: nat, d: nat, k: nat) -> Drive2
    decreases total - row,
{
    if row >= total {
        match read_step::<F32Bits>(eb) {
            ReadStep::End => match read_step::<i32>(ab) {
                ReadStep::End => Drive2::Complete(Seq::empty(), Seq::empty()),
                ReadStep::ShortLen => Drive2::FailShort(StreamKind::Answer, row),
                ReadStep::ShortPayload => Drive2::FailShort(StreamKind::Answer, row),
                ReadStep::Corrupt => Drive2::FailCorrupt(StreamKind::Answer, row),
                ReadStep::Rec(_, _) => Drive2::FailExtra(StreamKind::Answer, row),
            },
            ReadStep::ShortLen => Drive2::FailShort(StreamKind::Embedding, row),
            ReadStep::ShortPayload => Drive2::FailShort(StreamKind::Embedding, row),
            ReadStep::Corrupt => Drive2::FailCorrupt(StreamKind::Embedding, row),
            ReadStep::Rec(_, _) => Drive2::FailExtra(StreamKind::Embedding, row),
        }
    } else {
        match read_step::<F32Bits>(eb) {
            ReadStep::End => Drive2::FailMissing(StreamKind::Embedding, row),
            ReadStep::ShortLen => Drive2::FailShort(StreamKind::Embedding, row),
            ReadStep::ShortPayload => Drive2::FailShort(StreamKind::Embedding, row),
            ReadStep::Corrupt => Drive2::FailCorrupt(StreamKind::Embedding, row),
            ReadStep::Rec(erec, erest) => match read_step::<i32>(ab) {
                ReadStep::End => Drive2::FailMissing(StreamKind::Answer, row),
                ReadStep::ShortLen => Drive2::FailShort(StreamKind::Answer, row),
                ReadStep::ShortPayload => Drive2::FailShort(StreamKind::Answer, row),
                ReadStep::Corrupt => Drive2::FailCorrupt(StreamKind::Answer, row),
                ReadStep::Rec(arec, arest) => if erec.len() != d {
                    Drive2::FailDim(StreamKind::Embedding, row)
                } else if arec.len() != k {
                    Drive2::FailDim(StreamKind::Answer, row)
                } else {
                    match drive2(erest, arest, row + 1, total, d, k) {
                        Drive2::Complete(es, aa) => Drive2::Complete(
                            seq![erec] + es,
                            seq![arec] + aa,
                        ),
                        o => o,
                    }
                },
            },
        }
    }
}

/// The tuple bytes the test-table import emits for paired records, the
/// first pair carrying row index `first`.
pub open spec fn spec_test_tuples(es: Seq<Seq<F32Bits>>, ans: Seq<Seq<i32>>, first: int) -> Seq<
    u8,
>
    decreases es.len(),
{
    if es.len() == 0 || ans.len() == 0 {
        Seq::empty()
    } else {
        spec_test_tuple(first as i32, es[0], ans[0]) + spec_test_tuples(
            es.skip(1),
            ans.skip(1),
            first + 1,
        )
    }
}

pub proof fn lemma_test_tuples_push(
    es: Seq<Seq<F32Bits>>,
    ans: Seq<Seq<i32>>,
    x: Seq<F32Bits>,
    y: Seq<i32>,
    first: int,
)
    requires
        es.len() == ans.len(),
    ensures
        spec_test_tuples(es.push(x), ans.push(y), first) == spec_test_tuples(es, ans, first)
            + spec_test_tuple((first + es.len()) as i32, x, y),
    decreases es.len(),
{
    if es.len() == 0 {
        assert(es.push(x).skip(1) =~= Seq::<Seq<F32Bits>>::empty());
        assert(ans.push(y).skip(1) =~= Seq::<Seq<i32>>::empty());
        assert(spec_test_tuples(
            Seq::<Seq<F32Bits>>::empty(),
            Seq::<Seq<i32>>::empty(),
            first + 1,
        ) == Seq::<u8>::empty());
        assert(es.push(x)[0] == x);
        assert(ans.push(y)[0] == y);
        assert(spec_test_tuples(es.push(x), ans.push(y), first) == spec_test_tuple(
            first as i32,
            x,
            y,
        ) + Seq::<u8>::empty());
        assert(spec_test_tuples(es.push(x), ans.push(y), first) =~= spec_test_tuples(
            es,
            ans,
            first,
        ) + spec_test_tuple((first + es.len()) as i32, x, y));
    } else {
        assert(es.push(x).skip(1) =~= es.skip(1).push(x));
        assert(ans.push(y).skip(1) =~= ans.skip(1).push(y));
        lemma_test_tuples_push(es.skip(1), ans.skip(1), x, y, first + 1);
        assert(es.push(x)[0] == es[0]);
        assert(ans.push(y)[0] == ans[0]);
        assert(spec_test_tuples(es.push(x), ans.push(y), first) == spec_test_tuple(
            first as i32,
            es[0],
            ans[0],
        ) + (spec_test_tuples(es.skip(1), ans.skip(1), first + 1) + spec_test_tuple(
            (first + 1 + es.skip(1).len()) as i32,
            x,
            y,
        )));
        assert((first + 1 + es.skip(1).len()) as i32 == (first + es.len()) as i32);
        assert(spec_test_tuples(es.push(x), ans.push(y), first) =~= spec_test_tuples(
            es,
            ans,
            first,
        ) + spec_test_tuple((first + es.len()) as i32, x, y));
    }
}

/// Runs the test-table import: reads exactly `manifest.m` paired records —
/// an embedding of dimension `manifest.d` and an answer array of width
/// `manifest.k` — from the two streams, checks that nothing follows in
/// either, and returns the full bulk-copy byte stream. The outcome is
/// exactly what [`drive2`] classifies, with the stream and row of every
/// violation surfaced.
pub fn run_test_import(
    manifest: &Manifest,
    emb: &mut Reader<F32Bits>,
    ans: &mut Reader<i32>,
) -> (r: Result<Vec<u8>, ImportError>)
    requires
        old(emb).wf(),
        old(ans).wf(),
        manifest.d <= 0x7fff,
        manifest.k <= 0x0fff_fffd,
        manifest.m <= 0x7fff_ffff,
    ensures
        final(emb).wf(),
        final(ans).wf(),
        match drive2(
            old(emb).remaining(),
            old(ans).remaining(),
            0,
            manifest.m as nat,
            manifest.d as nat,
            manifest.k as nat,
        ) {
            Drive2::Complete(es, aa) => (r matches Ok(out) && out@ == spec_copy_header()
                + spec_test_tuples(es, aa, 0)) && final(emb).remaining().len() == 0
                && final(ans).remaining().len() == 0,
            Drive2::FailShort(s, row) => r matches Err(e) && e matches ImportError::Vecs(v)
                && v matches VecsError::Io(_),
            Drive2::FailCorrupt(s, row) => r matches Err(e) && e matches ImportError::Vecs(v)
                && v matches VecsError::Corruption,
            Drive2::FailMissing(s, row) => r matches Err(e) && e == (ImportError::UnexpectedCount {
                stream: s,
                row: row as usize,
            }),
            Drive2::FailExtra(s, row) => r matches Err(e) && e == (ImportError::UnexpectedCount {
                stream: s,
                row: row as usize,
            }),
            Drive2::FailDim(s, row) => r matches Err(e) && e == (ImportError::UnexpectedDimension {
                stream: s,
                row: row as usize,
            }),
        },
{
    let ghost e0 = emb.remaining();
    let ghost a0 = ans.remaining();
    let m = manifest.m;
    let d = manifest.d;
    let k = manifest.k;
    let mut out = copy_header();
    let ghost mut ges: Seq<Seq<F32Bits>> = Seq::empty();
    let ghost mut gas: Seq<Seq<i32>> = Seq::empty();
    proof {
        assert(out@ =~= spec_copy_header() + spec_test_tuples(ges, gas, 0));
        match drive2(e0, a0, 0, m as nat, d as nat, k as nat) {
            Drive2::Complete(es, aa) => {
                assert(Seq::<Seq<F32Bits>>::empty() + es =~= es);
                assert(Seq::<Seq<i32>>::empty() + aa =~= aa);
            },
            _ => {},
        }
    }
    let mut i: usize = 0;
    while i < m
        invariant
            emb.wf(),
            ans.wf(),
            e0 == old(emb).remaining(),
            a0 == old(ans).remaining(),
            m == manifest.m,
            d == manifest.d,
            k == manifest.k,
            i <= m,
            m <= 0x7fff_ffff,
            d <= 0x7fff,
            k <= 0x0fff_fffd,
            ges.len() == i,
            gas.len() == i,
            out@ == spec_copy_header() + spec_test_tuples(ges, gas, 0),
            drive2(e0, a0, 0, m as nat, d as nat, k as nat) == (match drive2(
                emb.remaining(),
                ans.remaining(),
                i as nat,
                m as nat,
                d as nat,
                k as nat,
            ) {
                Drive2::Complete(es, aa) => Drive2::Complete(ges + es, gas + aa),
                o => o,
            }),
        decreases m - i,
    {
        let ghost ecur = emb.remaining();
        let ghost acur = ans.remaining();
        let erec = match emb.read() {
            Ok(Some(v)) => v,
            Ok(None) => {
                proof {
                    assert(read_step::<F32Bits>(ecur) matches ReadStep::End);
                    assert(drive2(ecur, acur, i as nat, m as nat, d as nat, k as nat)
                        == Drive2::FailMissing(StreamKind::Embedding, i as nat));
                }
                return Err(
                    ImportError::UnexpectedCount { stream: StreamKind::Embedding, row: i },
                );
            },
            Err(e) => {
                proof {
                    match read_step::<F32Bits>(ecur) {
                        ReadStep::ShortLen => {
                            assert(drive2(ecur, acur, i as nat, m as nat, d as nat, k as nat)
                                == Drive2::FailShort(StreamKind::Embedding, i as nat));
                        },
                        ReadStep::ShortPayload => {
                            assert(drive2(ecur, acur, i as nat, m as nat, d as nat, k as nat)
                                == Drive2::FailShort(StreamKind::Embedding, i as nat));
                        },
                        ReadStep::Corrupt => {
                            assert(drive2(ecur, acur, i as nat, m as nat, d as nat, k as nat)
                                == Drive2::FailCorrupt(StreamKind::Embedding, i as nat));
                        },
                        _ => {
                            assert(false);
                        },
                    }
                }
                return Err(ImportError::Vecs(e));
            },
        };
        let arec = match ans.read() {
            Ok(Some(v)) => v,
            Ok(None) => {
                proof {
                    assert(read_step::<F32Bits>(ecur) matches ReadStep::Rec(r0, rr) && r0
                        == erec@);
                    assert(read_step::<i32>(acur) matches ReadStep::End);
                    assert(drive2(ecur, acur, i as nat, m as nat, d as nat, k as nat)
                        == Drive2::FailMissing(StreamKind::Answer, i as nat));
                }
                return Err(ImportError::UnexpectedCount { stream: StreamKind::Answer, row: i });
            },
            Err(e) => {
                proof {
                    assert(read_step::<F32Bits>(ecur) matches ReadStep::Rec(r0, rr) && r0
                        == erec@);
                    match read_step::<i32>(acur) {
                        ReadStep::ShortLen => {
                            assert(drive2(ecur, acur, i as nat, m as nat, d as nat, k as nat)
                                == Drive2::FailShort(StreamKind::Answer, i as nat));
                        },
                        ReadStep::ShortPayload => {
                            assert(drive2(ecur, acur, i as nat, m as nat, d as nat, k as nat)
                                == Drive2::FailShort(StreamKind::Answer, i as nat));
                        },
                        ReadStep::Corrupt => {
                            assert(drive2(ecur, acur, i as nat, m as nat, d as nat, k as nat)
                                == Drive2::FailCorrupt(StreamKind::Answer, i as nat));
                        },
                        _ => {
                            assert(false);
                        },
                    }
                }
                return Err(ImportError::Vecs(e));
            },
        };
        if erec.len() != d {
            proof {
                assert(read_step::<F32Bits>(ecur) matches ReadStep::Rec(r0, rr) && r0 == erec@);
                assert(read_step::<i32>(acur) matches ReadStep::Rec(r1, rr1) && r1 == arec@);
                assert(drive2(ecur, acur, i as nat, m as nat, d as nat, k as nat)
                    == Drive2::FailDim(StreamKind::Embedding, i as nat));
            }
            return Err(
                ImportError::UnexpectedDimension { stream: StreamKind::Embedding, row: i },
            );
        }
        if arec.len() != k {
            proof {
                assert(read_step::<F32Bits>(ecur) matches ReadStep::Rec(r0, rr) && r0 == erec@);
                assert(read_step::<i32>(acur) matches ReadStep::Rec(r1, rr1) && r1 == arec@);
                assert(drive2(ecur, acur, i as nat, m as nat, d as nat, k as nat)
                    == Drive2::FailDim(StreamKind::Answer, i as nat));
            }
            return Err(ImportError::UnexpectedDimension { stream: StreamKind::Answer, row: i });
        }
        let mut tuple = encode_test_tuple(i as i32, erec.as_slice(), arec.as_slice());
        out.append(&mut tuple);
        proof {
            let ghost ges0 = ges;
            let ghost gas0 = gas;
            ges = ges.push(erec@);
            gas = gas.push(arec@);
            lemma_test_tuples_push(ges0, gas0, erec@, arec@, 0);
            assert((0 + ges0.len()) as i32 == i as i32);
            assert(out@ =~= spec_copy_header() + spec_test_tuples(ges, gas, 0));
            match drive2(
                emb.remaining(),
                ans.remaining(),
                i as nat + 1,
                m as nat,
                d as nat,
                k as nat,
            ) {
                Drive2::Complete(es, aa) => {
                    assert(ges0 + (seq![erec@] + es) =~= ges + es);
                    assert(gas0 + (seq![arec@] + aa) =~= gas + aa);
                },
                _ => {},
            }
        }
        i = i + 1;
    }
    let ghost ecur = emb.remaining();
    let ghost acur = ans.remaining();
    match emb.read() {
        Ok(None) => {},
        Ok(Some(_)) => {
            proof {
                assert(drive2(ecur, acur, m as nat, m as nat, d as nat, k as nat)
                    == Drive2::FailExtra(StreamKind::Embedding, m as nat));
            }
            return Err(ImportError::UnexpectedCount { stream: StreamKind::Embedding, row: m });
        },
        Err(e) => {
            proof {
                match read_step::<F32Bits>(ecur) {
                    ReadStep::ShortLen => {
                        assert(drive2(ecur, acur, m as nat, m as nat, d as nat, k as nat)
                            == Drive2::FailShort(StreamKind::Embedding, m as nat));
                    },
                    ReadStep::ShortPayload => {
                        assert(drive2(ecur, acur, m as nat, m as nat, d as nat, k as nat)
                            == Drive2::FailShort(StreamKind::Embedding, m as nat));
                    },
                    ReadStep::Corrupt => {
                        assert(drive2(ecur, acur, m as nat, m as nat, d as nat, k as nat)
                            == Drive2::FailCorrupt(StreamKind::Embedding, m as nat));
                    },
                    _ => {
                        assert(false);
                    },
                }
            }
            return Err(ImportError::Vecs(e));
        },
    }
    match ans.read() {
        Ok(None) => {
            proof {
                assert(ges + Seq::<Seq<F32Bits>>::empty() =~= ges);
                assert(gas + Seq::<Seq<i32>>::empty() =~= gas);
            }
            Ok(out)
        },
        Ok(Some(_)) => {
            proof {
                assert(read_step::<F32Bits>(ecur) matches ReadStep::End);
                assert(drive2(ecur, acur, m as nat, m as nat, d as nat, k as nat)
                    == Drive2::FailExtra(StreamKind::Answer, m as nat));
            }
            Err(ImportError::UnexpectedCount { stream: StreamKind::Answer, row: m })
        },
        Err(e) => {
            proof {
                assert(read_step::<F32Bits>(ecur) matches ReadStep::End);
                match read_step::<i32>(acur) {
                    ReadStep::ShortLen => {
                        assert(drive2(ecur, acur, m as nat, m as nat, d as nat, k as nat)
                            == Drive2::FailShort(StreamKind::Answer, m as nat));
                    },
                    ReadStep::ShortPayload => {
                        assert(drive2(ecur, acur, m as nat, m as nat, d as nat, k as nat)
                            == Drive2::FailShort(StreamKind::Answer, m as nat));
                    },
                    ReadStep::Corrupt => {
                        assert(drive2(ecur, acur, m as nat, m as nat, d as nat, k as nat)
                            == Drive2::FailCorrupt(StreamKind::Answer, m as nat));
                    },
                    _ => {
                        assert(false);
                    },
                }
            }
            Err(ImportError::Vecs(e))
        },
    }
}

/// Runs the embedding-only import: reads exactly `manifest.n` records of
/// dimension `manifest.d` from the stream, checks that nothing follows, and
/// returns the full bulk-copy byte stream — header, then one tuple per row,
/// indexed by position. The outcome is exactly what [`drive`] classifies:
/// success if and only if the stream holds the declared records.
pub fn run_train_import(manifest: &Manifest, reader: &mut Reader<F32Bits>) -> (r: Result<
    Vec<u8>,
    ImportError,
>)
    requires
        old(reader).wf(),
        manifest.d <= 0x7fff,
        manifest.n <= 0x7fff_ffff,
    ensures
        final(reader).wf(),
        match drive::<F32Bits>(old(reader).remaining(), 0, manifest.n as nat, manifest.d as nat) {
            Drive::Complete(rs) => (r matches Ok(out) && out@ == spec_copy_header()
                + spec_train_tuples(rs, 0)) && final(reader).remaining().len() == 0,
            Drive::FailShort(row) => r matches Err(e) && e matches ImportError::Vecs(v)
                && v matches VecsError::Io(_),
            Drive::FailCorrupt(row) => r matches Err(e) && e matches ImportError::Vecs(v)
                && v matches VecsError::Corruption,
            Drive::FailMissing(row) => r matches Err(e) && e == (ImportError::UnexpectedCount {
                stream: StreamKind::Embedding,
                row: row as usize,
            }),
            Drive::FailExtra(row) => r matches Err(e) && e == (ImportError::UnexpectedCount {
                stream: StreamKind::Embedding,
                row: row as usize,
            }),
            Drive::FailDim(row) => r matches Err(e) && e == (ImportError::UnexpectedDimension {
                stream: StreamKind::Embedding,
                row: row as usize,
            }),
        },
{
    let ghost rem0 = reader.remaining();
    let n = manifest.n;
    let d = manifest.d;
    let mut out = copy_header();
    let ghost mut gs: Seq<Seq<F32Bits>> = Seq::empty();
    proof {
        assert(out@ =~= spec_copy_header() + spec_train_tuples(gs, 0));
        match drive::<F32Bits>(rem0, 0, n as nat, d as nat) {
            Drive::Complete(rs) => {
                assert(Seq::<Seq<F32Bits>>::empty() + rs =~= rs);
            },
            _ => {},
        }
    }
    let mut i: usize = 0;
    while i < n
        invariant
            reader.wf(),
            rem0 == old(reader).remaining(),
            n == manifest.n,
            d == manifest.d,
            i <= n,
            n <= 0x7fff_ffff,
            d <= 0x7fff,
            gs.len() == i,
            out@ == spec_copy_header() + spec_train_tuples(gs, 0),
            drive::<F32Bits>(rem0, 0, n as nat, d as nat) == (match drive::<F32Bits>(
                reader.remaining(),
                i as nat,
                n as nat,
                d as nat,
            ) {
                Drive::Complete(rs) => Drive::Complete(gs + rs),
                o => o,
            }),
        decreases n - i,
    {
        let ghost cur = reader.remaining();
        let rec = match reader.read() {
            Ok(Some(v)) => v,
            Ok(None) => {
                proof {
                    assert(read_step::<F32Bits>(cur) matches ReadStep::End);
                    assert(drive::<F32Bits>(cur, i as nat, n as nat, d as nat)
                        == Drive::<F32Bits>::FailMissing(i as nat));
                }
                return Err(
                    ImportError::UnexpectedCount { stream: StreamKind::Embedding, row: i },
                );
            },
            Err(e) => {
                proof {
                    match read_step::<F32Bits>(cur) {
                        ReadStep::ShortLen => {
                            assert(drive::<F32Bits>(cur, i as nat, n as nat, d as nat)
                                == Drive::<F32Bits>::FailShort(i as nat));
                        },
                        ReadStep::ShortPayload => {
                            assert(drive::<F32Bits>(cur, i as nat, n as nat, d as nat)
                                == Drive::<F32Bits>::FailShort(i as nat));
                        },
                        ReadStep::Corrupt => {
                            assert(drive::<F32Bits>(cur, i as nat, n as nat, d as nat)
                                == Drive::<F32Bits>::FailCorrupt(i as nat));
                        },
                        _ => {
                            assert(false);
                        },
                    }
                }
                return Err(ImportError::Vecs(e));
            },
        };
        if rec.len() != d {
            proof {
                assert(read_step::<F32Bits>(cur) matches ReadStep::Rec(rec0, rest) && rec0
                    == rec@);
                assert(drive::<F32Bits>(cur, i as nat, n as nat, d as nat)
                    == Drive::<F32Bits>::FailDim(i as nat));
            }
            return Err(
                ImportError::UnexpectedDimension { stream: StreamKind::Embedding, row: i },
            );
        }
        let mut tuple = encode_train_tuple(i as i32, rec.as_slice());
        out.append(&mut tuple);
        proof {
            let ghost gs0 = gs;
            gs = gs.push(rec@);
            lemma_train_tuples_push(gs0, rec@, 0);
            assert((0 + gs0.len()) as i32 == i as i32);
            assert(out@ =~= spec_copy_header() + spec_train_tuples(gs, 0));
            match drive::<F32Bits>(reader.remaining(), i as nat + 1, n as nat, d as nat) {
                Drive::Complete(rs) => {
                    assert(gs0 + (seq![rec@] + rs) =~= gs + rs);
                },
                _ => {},
            }
        }
        i = i + 1;
    }
    match reader.read() {
        Ok(None) => {
            proof {
                assert(gs + Seq::<Seq<F32Bits>>::empty() =~= gs);
            }
            Ok(out)
        },
        Ok(Some(_)) => Err(ImportError::UnexpectedCount { stream: StreamKind::Embedding, row: n }),
        Err(e) => Err(ImportError::Vecs(e)),
    }
}

} // verus!
