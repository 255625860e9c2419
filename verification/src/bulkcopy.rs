//! The binary bulk-copy tuple encoder.
//!
//! Serializes bulk-load tuples into the destination database's binary copy
//! wire format: a 19-byte stream header, then per tuple a 2-byte big-endian
//! field count and, per field, a 4-byte big-endian length prefix followed by
//! exactly that many content bytes. Every length prefix precedes content it
//! depends on, so each field is written with 4 placeholder bytes that are
//! backpatched once the content's true length is known; that arithmetic
//! lives in exactly one place, [`begin_field`] and [`end_field`].

use crate::endian::push_u16_be;
use crate::endian::push_u32_be;
use crate::endian::spec_u16_from_be_bytes;
use crate::endian::spec_u16_to_be_bytes;
use crate::endian::spec_u32_from_be_bytes;
use crate::endian::spec_u32_to_be_bytes;
use crate::endian::lemma_u16_be_round_trip;
use crate::endian::lemma_u32_be_round_trip;
use crate::vecs::F32Bits;
use vstd::prelude::*;

verus! {

/// The bytes emitted once before any tuple: the 11-byte protocol signature,
/// a zero flags field, and a zero header-extension length.
pub open spec fn spec_copy_header() -> Seq<u8> {
    seq![
        0x50u8,
        0x47u8,
        0x43u8,
        0x4fu8,
        0x50u8,
        0x59u8,
        0x0au8,
        0xffu8,
        0x0du8,
        0x0au8,
        0x00u8,
    ] + spec_u32_to_be_bytes(0) + spec_u32_to_be_bytes(0)
}

/// One field on the wire: its content length as a 4-byte big-endian
/// integer, then the content. This core never emits NULL fields.
pub open spec fn spec_field(content: Seq<u8>) -> Seq<u8>
    recommends
        content.len() <= 0x7fff_ffff,
{
    spec_u32_to_be_bytes(content.len() as u32) + content
}

/// The content of a row-index field: 4 bytes, big-endian two's-complement.
pub open spec fn spec_int_field(x: i32) -> Seq<u8> {
    spec_u32_to_be_bytes(x as u32)
}

/// The embedding elements, each as 4 big-endian bytes of its IEEE-754
/// binary32 bit pattern, in record order.
pub open spec fn spec_vector_elems(e: Seq<F32Bits>) -> Seq<u8>
    decreases e.len(),
{
    if e.len() == 0 {
        Seq::empty()
    } else {
        spec_u32_to_be_bytes(e[0].0) + spec_vector_elems(e.skip(1))
    }
}

/// The content of an embedding field: 2-byte big-endian element count, 2
/// reserved zero bytes, then the elements.
pub open spec fn spec_vector_field(e: Seq<F32Bits>) -> Seq<u8>
    recommends
        e.len() <= 0x7fff,
{
    spec_u16_to_be_bytes(e.len() as u16) + seq![0u8, 0u8] + spec_vector_elems(e)
}

/// The answer-array elements: per element a 4-byte length prefix (always 4)
/// and the element's 4-byte big-endian two's-complement value.
pub open spec fn spec_array_elems(a: Seq<i32>) -> Seq<u8>
    decreases a.len(),
{
    if a.len() == 0 {
        Seq::empty()
    } else {
        spec_u32_to_be_bytes(4) + spec_u32_to_be_bytes(a[0] as u32) + spec_array_elems(a.skip(1))
    }
}

/// The content of a one-dimensional, non-nullable integer-array field: the
/// array header (dimension count 1, has-null flag 0, element-type tag 23
/// for the database's 4-byte integer, element count, lower bound 1), then
/// the elements.
pub open spec fn spec_array_field(a: Seq<i32>) -> Seq<u8>
    recommends
        a.len() <= 0x7fff_ffff,
{
    spec_u32_to_be_bytes(1) + spec_u32_to_be_bytes(0) + spec_u32_to_be_bytes(23)
        + spec_u32_to_be_bytes(a.len() as u32) + spec_u32_to_be_bytes(1) + spec_array_elems(a)
}

/// One embedding-only row on the wire: field count 2, then the row-index
/// field and the embedding field.
pub open spec fn spec_train_tuple(index: i32, e: Seq<F32Bits>) -> Seq<u8>
    recommends
        e.len() <= 0x7fff,
{
    spec_u16_to_be_bytes(2) + spec_field(spec_int_field(index)) + spec_field(spec_vector_field(e))
}

/// One row with an answer array on the wire: field count 3, then the
/// row-index field, the embedding field, and the integer-array field.
pub open spec fn spec_test_tuple(index: i32, e: Seq<F32Bits>, a: Seq<i32>) -> Seq<u8>
    recommends
        e.len() <= 0x7fff,
        a.len() <= 0x0fff_fffd,
{
    spec_u16_to_be_bytes(3) + spec_field(spec_int_field(index)) + spec_field(spec_vector_field(e))
        + spec_field(spec_array_field(a))
}

pub proof fn lemma_vector_elems_len(e: Seq<F32Bits>)
    ensures
        spec_vector_elems(e).len() == 4 * e.len(),
    decreases e.len(),
{
    if e.len() == 0 {
    } else {
        lemma_vector_elems_len(e.skip(1));
    }
}

pub proof fn lemma_vector_elems_push(e: Seq<F32Bits>, x: F32Bits)
    ensures
        spec_vector_elems(e.push(x)) == spec_vector_elems(e) + spec_u32_to_be_bytes(x.0),
    decreases e.len(),
{
    if e.len() == 0 {
        assert(e.push(x).skip(1) =~= Seq::<F32Bits>::empty());
        assert(e.push(x)[0] == x);
        assert(spec_vector_elems(Seq::<F32Bits>::empty()) == Seq::<u8>::empty());
        assert(spec_vector_elems(e.push(x)) == spec_u32_to_be_bytes(x.0) + Seq::<u8>::empty());
        assert(spec_vector_elems(e.push(x)) =~= spec_vector_elems(e) + spec_u32_to_be_bytes(x.0));
    } else {
        assert(e.push(x).skip(1) =~= e.skip(1).push(x));
        lemma_vector_elems_push(e.skip(1), x);
        assert(e.push(x)[0] == e[0]);
        assert(spec_vector_elems(e.push(x)) == spec_u32_to_be_bytes(e[0].0) + (spec_vector_elems(
            e.skip(1),
        ) + spec_u32_to_be_bytes(x.0)));
        assert(spec_vector_elems(e.push(x)) =~= spec_vector_elems(e) + spec_u32_to_be_bytes(x.0));
    }
}

pub proof fn lemma_array_elems_len(a: Seq<i32>)
    ensures
        spec_array_elems(a).len() == 8 * a.len(),
    decreases a.len(),
{
    if a.len() == 0 {
    } else {
        lemma_array_elems_len(a.skip(1));
    }
}

pub proof fn lemma_array_elems_push(a: Seq<i32>, x: i32)
    ensures
        spec_array_elems(a.push(x)) == spec_array_elems(a) + spec_u32_to_be_bytes(4)
            + spec_u32_to_be_bytes(x as u32),
    decreases a.len(),
{
    if a.len() == 0 {
        assert(a.push(x).skip(1) =~= Seq::<i32>::empty());
        assert(a.push(x)[0] == x);
        assert(spec_array_elems(Seq::<i32>::empty()) == Seq::<u8>::empty());
        assert(spec_array_elems(a.push(x)) == spec_u32_to_be_bytes(4) + spec_u32_to_be_bytes(
            x as u32,
        ) + Seq::<u8>::empty());
        assert(spec_array_elems(a.push(x)) =~= spec_array_elems(a) + spec_u32_to_be_bytes(4)
            + spec_u32_to_be_bytes(x as u32));
    } else {
        assert(a.push(x).skip(1) =~= a.skip(1).push(x));
        lemma_array_elems_push(a.skip(1), x);
        assert(a.push(x)[0] == a[0]);
        assert(spec_array_elems(a.push(x)) == spec_u32_to_be_bytes(4) + spec_u32_to_be_bytes(
            a[0] as u32,
        ) + (spec_array_elems(a.skip(1)) + spec_u32_to_be_bytes(4) + spec_u32_to_be_bytes(
            x as u32,
        )));
        assert(spec_array_elems(a.push(x)) =~= spec_array_elems(a) + spec_u32_to_be_bytes(4)
            + spec_u32_to_be_bytes(x as u32));
    }
}

/// A reference parse of a tuple's fields: per field a 4-byte big-endian
/// length prefix and exactly that many content bytes, with the whole input
/// consumed by exactly `n` fields.
pub open spec fn spec_parse_fields(b: Seq<u8>, n: nat) -> Option<Seq<Seq<u8>>>
    decreases n,
{
    if n == 0 {
        if b.len() == 0 {
            Some(Seq::empty())
        } else {
            None
        }
    } else if b.len() < 4 {
        None
    } else {
        let l = spec_u32_from_be_bytes(b.subrange(0, 4)) as int;
        if b.len() - 4 < l {
            None
        } else {
            match spec_parse_fields(b.skip(4 + l), (n - 1) as nat) {
                Some(fs) => Some(seq![b.subrange(4, 4 + l)] + fs),
                None => None,
            }
        }
    }
}

/// A reference parse of one whole tuple: the 2-byte big-endian field count,
/// then that many length-prefixed fields, nothing left over.
pub open spec fn spec_parse_tuple(b: Seq<u8>) -> Option<Seq<Seq<u8>>> {
    if b.len() < 2 {
        None
    } else {
        spec_parse_fields(b.skip(2), spec_u16_from_be_bytes(b.subrange(0, 2)) as nat)
    }
}

/// A reference decode of an embedding field's content: the declared element
/// count must account for every content byte, and each element is 4
/// big-endian bytes of an IEEE-754 binary32 bit pattern.
pub open spec fn spec_parse_vector_field(b: Seq<u8>) -> Option<Seq<F32Bits>> {
    if b.len() < 4 {
        None
    } else {
        let cnt = spec_u16_from_be_bytes(b.subrange(0, 2)) as int;
        if b.len() != 4 + 4 * cnt {
            None
        } else {
            Some(
                Seq::new(
                    cnt as nat,
                    |j: int| F32Bits(spec_u32_from_be_bytes(b.subrange(4 + 4 * j, 8 + 4 * j))),
                ),
            )
        }
    }
}

/// A reference decode of an integer-array field's content: the header must
/// declare one dimension, no nulls, element-type tag 23 and lower bound 1;
/// the declared element count must account for every content byte; and each
/// element must carry the length prefix 4 before its 4-byte value.
pub open spec fn spec_parse_array_field(b: Seq<u8>) -> Option<Seq<i32>> {
    if b.len() < 20 {
        None
    } else {
        let cnt = spec_u32_from_be_bytes(b.subrange(12, 16)) as int;
        if spec_u32_from_be_bytes(b.subrange(0, 4)) != 1 || spec_u32_from_be_bytes(
            b.subrange(4, 8),
        ) != 0 || spec_u32_from_be_bytes(b.subrange(8, 12)) != 23 || spec_u32_from_be_bytes(
            b.subrange(16, 20),
        ) != 1 {
            None
        } else if b.len() != 20 + 8 * cnt {
            None
        } else if !(forall|j: int|
            0 <= j < cnt ==> spec_u32_from_be_bytes(
                #[trigger] b.subrange(20 + 8 * j, 24 + 8 * j),
            ) == 4) {
            None
        } else {
            Some(
                Seq::new(
                    cnt as nat,
                    |j: int| spec_u32_from_be_bytes(b.subrange(24 + 8 * j, 28 + 8 * j)) as i32,
                ),
            )
        }
    }
}

/// At the head of a field sequence, a length-prefixed field parses back to
/// exactly its content.
pub proof fn lemma_parse_field_step(c: Seq<u8>, rest: Seq<u8>, n: nat)
    requires
        c.len() <= 0x7fff_ffff,
        n >= 1,
    ensures
        spec_parse_fields(spec_field(c) + rest, n) == match spec_parse_fields(
            rest,
            (n - 1) as nat,
        ) {
            Some(fs) => Some(seq![c] + fs),
            None => None::<Seq<Seq<u8>>>,
        },
{
    let b = spec_field(c) + rest;
    lemma_u32_be_round_trip(c.len() as u32);
    assert(b.subrange(0, 4) =~= spec_u32_to_be_bytes(c.len() as u32));
    assert(spec_u32_from_be_bytes(b.subrange(0, 4)) == c.len() as u32);
    assert(b.subrange(4, 4 + c.len() as int) =~= c);
    assert(b.skip(4 + c.len() as int) =~= rest);
}

/// Pointwise characterization of the embedding elements' bytes.
pub proof fn lemma_vector_elems_index(e: Seq<F32Bits>)
    ensures
        spec_vector_elems(e).len() == 4 * e.len(),
        forall|j: int|
            0 <= j < e.len() ==> #[trigger] spec_vector_elems(e).subrange(4 * j, 4 * j + 4)
                == spec_u32_to_be_bytes(e[j].0),
    decreases e.len(),
{
    lemma_vector_elems_len(e);
    if e.len() == 0 {
    } else {
        lemma_vector_elems_index(e.skip(1));
        let v = spec_vector_elems(e);
        assert(v == spec_u32_to_be_bytes(e[0].0) + spec_vector_elems(e.skip(1)));
        lemma_u32_be_round_trip(e[0].0);
        assert forall|j: int| 0 <= j < e.len() implies #[trigger] v.subrange(4 * j, 4 * j + 4)
            == spec_u32_to_be_bytes(e[j].0) by {
            if j == 0 {
                assert(v.subrange(0, 4) =~= spec_u32_to_be_bytes(e[0].0));
            } else {
                assert(spec_vector_elems(e.skip(1)).subrange(4 * (j - 1), 4 * (j - 1) + 4)
                    == spec_u32_to_be_bytes(e.skip(1)[j - 1].0));
                assert(v.subrange(4 * j, 4 * j + 4) =~= spec_vector_elems(e.skip(1)).subrange(
                    4 * (j - 1),
                    4 * (j - 1) + 4,
                ));
                assert(e.skip(1)[j - 1] == e[j]);
            }
        }
    }
}

/// Pointwise characterization of the answer-array elements' bytes.
pub proof fn lemma_array_elems_index(a: Seq<i32>)
    ensures
        spec_array_elems(a).len() == 8 * a.len(),
        forall|j: int|
            0 <= j < a.len() ==> #[trigger] spec_array_elems(a).subrange(8 * j, 8 * j + 4)
                == spec_u32_to_be_bytes(4) && spec_array_elems(a).subrange(8 * j + 4, 8 * j + 8)
                == spec_u32_to_be_bytes(a[j] as u32),
    decreases a.len(),
{
    lemma_array_elems_len(a);
    if a.len() == 0 {
    } else {
        lemma_array_elems_index(a.skip(1));
        let v = spec_array_elems(a);
        assert(v == spec_u32_to_be_bytes(4) + spec_u32_to_be_bytes(a[0] as u32)
            + spec_array_elems(a.skip(1)));
        lemma_u32_be_round_trip(4);
        lemma_u32_be_round_trip(a[0] as u32);
        assert forall|j: int| 0 <= j < a.len() implies #[trigger] v.subrange(8 * j, 8 * j + 4)
            == spec_u32_to_be_bytes(4) && v.subrange(8 * j + 4, 8 * j + 8) == spec_u32_to_be_bytes(
            a[j] as u32,
        ) by {
            if j == 0 {
                assert(v.subrange(0, 4) =~= spec_u32_to_be_bytes(4));
                assert(v.subrange(4, 8) =~= spec_u32_to_be_bytes(a[0] as u32));
            } else {
                assert(spec_array_elems(a.skip(1)).subrange(8 * (j - 1), 8 * (j - 1) + 4)
                    == spec_u32_to_be_bytes(4));
                assert(spec_array_elems(a.skip(1)).subrange(8 * (j - 1) + 4, 8 * (j - 1) + 8)
                    == spec_u32_to_be_bytes(a.skip(1)[j - 1] as u32));
                assert(v.subrange(8 * j, 8 * j + 4) =~= spec_array_elems(a.skip(1)).subrange(
                    8 * (j - 1),
                    8 * (j - 1) + 4,
                ));
                assert(v.subrange(8 * j + 4, 8 * j + 8) =~= spec_array_elems(a.skip(1)).subrange(
                    8 * (j - 1) + 4,
                    8 * (j - 1) + 8,
                ));
                assert(a.skip(1)[j - 1] == a[j]);
            }
        }
    }
}

/// Encoder length integrity, embedding field: the reference decode of the
/// field's content reconstructs exactly the encoded elements.
pub proof fn lemma_vector_field_parse(e: Seq<F32Bits>)
    requires
        e.len() <= 0x7fff,
    ensures
        spec_parse_vector_field(spec_vector_field(e)) == Some(e),
{
    let b = spec_vector_field(e);
    lemma_vector_elems_index(e);
    lemma_u16_be_round_trip(e.len() as u16);
    assert(b.subrange(0, 2) =~= spec_u16_to_be_bytes(e.len() as u16));
    let cnt = spec_u16_from_be_bytes(b.subrange(0, 2)) as int;
    assert(cnt == e.len());
    assert(b.len() == 4 + 4 * cnt);
    let parsed = Seq::new(
        cnt as nat,
        |j: int| F32Bits(spec_u32_from_be_bytes(b.subrange(4 + 4 * j, 8 + 4 * j))),
    );
    assert forall|j: int| 0 <= j < cnt implies parsed[j] == e[j] by {
        assert(b.subrange(4 + 4 * j, 8 + 4 * j) =~= spec_vector_elems(e).subrange(
            4 * j,
            4 * j + 4,
        ));
        lemma_u32_be_round_trip(e[j].0);
        assert(F32Bits(e[j].0) == e[j]);
    }
    assert(parsed =~= e);
}

/// Encoder length integrity, answer-array field: the reference decode of
/// the field's content reconstructs exactly the encoded elements.
pub proof fn lemma_array_field_parse(a: Seq<i32>)
    requires
        a.len() <= 0x0fff_fffd,
    ensures
        spec_parse_array_field(spec_array_field(a)) == Some(a),
{
    let b = spec_array_field(a);
    lemma_array_elems_index(a);
    lemma_u32_be_round_trip(1);
    lemma_u32_be_round_trip(0);
    lemma_u32_be_round_trip(23);
    lemma_u32_be_round_trip(4);
    lemma_u32_be_round_trip(a.len() as u32);
    assert(b.subrange(0, 4) =~= spec_u32_to_be_bytes(1));
    assert(b.subrange(4, 8) =~= spec_u32_to_be_bytes(0));
    assert(b.subrange(8, 12) =~= spec_u32_to_be_bytes(23));
    assert(b.subrange(12, 16) =~= spec_u32_to_be_bytes(a.len() as u32));
    assert(b.subrange(16, 20) =~= spec_u32_to_be_bytes(1));
    let cnt = spec_u32_from_be_bytes(b.subrange(12, 16)) as int;
    assert(cnt == a.len());
    assert(b.len() == 20 + 8 * cnt);
    assert forall|j: int| 0 <= j < cnt implies spec_u32_from_be_bytes(
        #[trigger] b.subrange(20 + 8 * j, 24 + 8 * j),
    ) == 4 by {
        assert(b.subrange(20 + 8 * j, 24 + 8 * j) =~= spec_array_elems(a).subrange(
            8 * j,
            8 * j + 4,
        ));
    }
    let parsed = Seq::new(
        cnt as nat,
        |j: int| spec_u32_from_be_bytes(b.subrange(24 + 8 * j, 28 + 8 * j)) as i32,
    );
    assert forall|j: int| 0 <= j < cnt implies parsed[j] == a[j] by {
        assert(spec_array_elems(a).subrange(8 * j, 8 * j + 4) == spec_u32_to_be_bytes(4));
        assert(b.subrange(24 + 8 * j, 28 + 8 * j) =~= spec_array_elems(a).subrange(
            8 * j + 4,
            8 * j + 8,
        ));
        lemma_u32_be_round_trip(a[j] as u32);
        let x = a[j];
        assert((x as u32) as i32 == x) by (bit_vector);
    }
    assert(parsed =~= a);
}

/// Encoder length integrity, embedding-only tuple: the reference parser
/// splits the encoder's bytes into exactly the declared field count, every
/// declared field length accounts for exactly its content bytes, and the
/// contents are the row-index and embedding encodings.
pub proof fn lemma_train_tuple_parse(index: i32, e: Seq<F32Bits>)
    requires
        e.len() <= 0x7fff,
    ensures
        spec_parse_tuple(spec_train_tuple(index, e)) == Some(
            seq![spec_int_field(index), spec_vector_field(e)],
        ),
{
    let b = spec_train_tuple(index, e);
    lemma_u16_be_round_trip(2);
    lemma_vector_elems_len(e);
    assert(b.subrange(0, 2) =~= spec_u16_to_be_bytes(2));
    let rest1 = spec_field(spec_vector_field(e));
    assert(b.skip(2) =~= spec_field(spec_int_field(index)) + rest1);
    lemma_parse_field_step(spec_int_field(index), rest1, 2);
    assert(rest1 =~= spec_field(spec_vector_field(e)) + Seq::<u8>::empty());
    lemma_parse_field_step(spec_vector_field(e), Seq::empty(), 1);
    assert(spec_parse_fields(Seq::<u8>::empty(), 0) == Some(Seq::<Seq<u8>>::empty()));
    assert(seq![spec_vector_field(e)] + Seq::<Seq<u8>>::empty() =~= seq![spec_vector_field(e)]);
    assert(seq![spec_int_field(index)] + seq![spec_vector_field(e)] =~= seq![
        spec_int_field(index),
        spec_vector_field(e),
    ]);
}

/// Encoder length integrity, tuple with an answer array: as for the
/// embedding-only tuple, with the integer-array field as third content.
pub proof fn lemma_test_tuple_parse(index: i32, e: Seq<F32Bits>, a: Seq<i32>)
    requires
        e.len() <= 0x7fff,
        a.len() <= 0x0fff_fffd,
    ensures
        spec_parse_tuple(spec_test_tuple(index, e, a)) == Some(
            seq![spec_int_field(index), spec_vector_field(e), spec_array_field(a)],
        ),
{
    let b = spec_test_tuple(index, e, a);
    lemma_u16_be_round_trip(3);
    lemma_vector_elems_len(e);
    lemma_array_elems_len(a);
    assert(b.subrange(0, 2) =~= spec_u16_to_be_bytes(3));
    let rest1 = spec_field(spec_vector_field(e)) + spec_field(spec_array_field(a));
    assert(b.skip(2) =~= spec_field(spec_int_field(index)) + rest1);
    lemma_parse_field_step(spec_int_field(index), rest1, 3);
    let rest2 = spec_field(spec_array_field(a));
    lemma_parse_field_step(spec_vector_field(e), rest2, 2);
    assert(rest2 =~= spec_field(spec_array_field(a)) + Seq::<u8>::empty());
    lemma_parse_field_step(spec_array_field(a), Seq::empty(), 1);
    assert(spec_parse_fields(Seq::<u8>::empty(), 0) == Some(Seq::<Seq<u8>>::empty()));
    assert(seq![spec_array_field(a)] + Seq::<Seq<u8>>::empty() =~= seq![spec_array_field(a)]);
    assert(seq![spec_vector_field(e)] + seq![spec_array_field(a)] =~= seq![
        spec_vector_field(e),
        spec_array_field(a),
    ]);
    assert(seq![spec_int_field(index)] + seq![spec_vector_field(e), spec_array_field(a)] =~= seq![
        spec_int_field(index),
        spec_vector_field(e),
        spec_array_field(a),
    ]);
}

/// Emits the 19-byte stream header.
pub fn copy_header() -> (out: Vec<u8>)
    ensures
        out@ == spec_copy_header(),
{
    let mut out: Vec<u8> = Vec::new();
    out.push(0x50);
    out.push(0x47);
    out.push(0x43);
    out.push(0x4f);
    out.push(0x50);
    out.push(0x59);
    out.push(0x0a);
    out.push(0xff);
    out.push(0x0d);
    out.push(0x0a);
    out.push(0x00);
    push_u32_be(&mut out, 0);
    push_u32_be(&mut out, 0);
    proof {
        assert(out@ =~= spec_copy_header());
    }
    out
}

/// Reserves the 4 placeholder bytes of a field's length prefix and returns
/// the offset where the field's content begins.
pub fn begin_field(buf: &mut Vec<u8>) -> (mark: usize)
    ensures
        final(buf)@ == old(buf)@ + seq![0u8, 0u8, 0u8, 0u8],
        mark == old(buf)@.len() + 4,
{
    buf.push(0);
    buf.push(0);
    buf.push(0);
    buf.push(0);
    proof {
        assert(buf@ =~= old(buf)@ + seq![0u8, 0u8, 0u8, 0u8]);
    }
    buf.len()
}

/// Backpatches a field's length prefix: everything appended since the
/// matching [`begin_field`] is the content, and the 4 bytes just before the
/// mark become its length, big-endian.
pub fn end_field(buf: &mut Vec<u8>, mark: usize)
    requires
        4 <= mark <= old(buf)@.len(),
        old(buf)@.len() - mark <= 0x7fff_ffff,
    ensures
        final(buf)@ == old(buf)@.subrange(0, mark - 4) + spec_field(
            old(buf)@.skip(mark as int),
        ),
{
    let field_len: u32 = (buf.len() - mark) as u32;
    buf.set(mark - 4, #[verifier::truncate] (((field_len >> 24) & 0xff) as u8));
    buf.set(mark - 3, #[verifier::truncate] (((field_len >> 16) & 0xff) as u8));
    buf.set(mark - 2, #[verifier::truncate] (((field_len >> 8) & 0xff) as u8));
    buf.set(mark - 1, #[verifier::truncate] ((field_len & 0xff) as u8));
    proof {
        assert(buf@ =~= old(buf)@.subrange(0, mark - 4) + spec_field(
            old(buf)@.skip(mark as int),
        ));
    }
}

/// Appends a row-index field, length prefix included.
pub fn append_int_field(buf: &mut Vec<u8>, x: i32)
    ensures
        final(buf)@ == old(buf)@ + spec_field(spec_int_field(x)),
{
    let mark = begin_field(buf);
    push_u32_be(buf, x as u32);
    proof {
        assert(buf@.len() - mark == 4);
        assert(buf@.subrange(0, mark - 4) =~= old(buf)@);
        assert(buf@.skip(mark as int) =~= spec_int_field(x));
    }
    end_field(buf, mark);
    proof {
        assert(buf@ =~= old(buf)@ + spec_field(spec_int_field(x)));
    }
}

/// Appends an embedding field, length prefix included.
pub fn append_vector_field(buf: &mut Vec<u8>, e: &[F32Bits])
    requires
        e@.len() <= 0x7fff,
    ensures
        final(buf)@ == old(buf)@ + spec_field(spec_vector_field(e@)),
{
    let mark = begin_field(buf);
    push_u16_be(buf, e.len() as u16);
    buf.push(0);
    buf.push(0);
    let ghost prefix = buf@;
    proof {
        assert(prefix =~= old(buf)@ + seq![0u8, 0u8, 0u8, 0u8] + spec_u16_to_be_bytes(
            e@.len() as u16,
        ) + seq![0u8, 0u8]);
        assert(buf@ =~= prefix + spec_vector_elems(e@.take(0)));
    }
    let mut i: usize = 0;
    while i < e.len()
        invariant
            i <= e@.len(),
            e@.len() <= 0x7fff,
            buf@ == prefix + spec_vector_elems(e@.take(i as int)),
            prefix == old(buf)@ + seq![0u8, 0u8, 0u8, 0u8] + spec_u16_to_be_bytes(
                e@.len() as u16,
            ) + seq![0u8, 0u8],
            mark == old(buf)@.len() + 4,
        decreases e@.len() - i,
    {
        let x = *vstd::slice::slice_index_get(e, i);
        push_u32_be(buf, x.0);
        proof {
            lemma_vector_elems_push(e@.take(i as int), e@[i as int]);
            assert(e@.take(i as int + 1) =~= e@.take(i as int).push(e@[i as int]));
            assert(buf@ =~= prefix + spec_vector_elems(e@.take(i as int + 1)));
        }
        i = i + 1;
    }
    proof {
        assert(e@.take(e@.len() as int) =~= e@);
        lemma_vector_elems_len(e@);
        assert(buf@.len() - mark == 4 + 4 * e@.len());
        assert(buf@.subrange(0, mark - 4) =~= old(buf)@);
        assert(buf@.skip(mark as int) =~= spec_vector_field(e@));
    }
    end_field(buf, mark);
    proof {
        assert(buf@ =~= old(buf)@ + spec_field(spec_vector_field(e@)));
    }
}

/// Appends a one-dimensional integer-array field, length prefix included.
pub fn append_array_field(buf: &mut Vec<u8>, a: &[i32])
    requires
        a@.len() <= 0x0fff_fffd,
    ensures
        final(buf)@ == old(buf)@ + spec_field(spec_array_field(a@)),
{
    let mark = begin_field(buf);
    push_u32_be(buf, 1);
    push_u32_be(buf, 0);
    push_u32_be(buf, 23);
    push_u32_be(buf, a.len() as u32);
    push_u32_be(buf, 1);
    let ghost prefix = buf@;
    proof {
        assert(prefix =~= old(buf)@ + seq![0u8, 0u8, 0u8, 0u8] + spec_u32_to_be_bytes(1)
            + spec_u32_to_be_bytes(0) + spec_u32_to_be_bytes(23) + spec_u32_to_be_bytes(
            a@.len() as u32,
        ) + spec_u32_to_be_bytes(1));
        assert(buf@ =~= prefix + spec_array_elems(a@.take(0)));
    }
    let mut i: usize = 0;
    while i < a.len()
        invariant
            i <= a@.len(),
            a@.len() <= 0x0fff_fffd,
            buf@ == prefix + spec_array_elems(a@.take(i as int)),
            prefix == old(buf)@ + seq![0u8, 0u8, 0u8, 0u8] + spec_u32_to_be_bytes(1)
                + spec_u32_to_be_bytes(0) + spec_u32_to_be_bytes(23) + spec_u32_to_be_bytes(
                a@.len() as u32,
            ) + spec_u32_to_be_bytes(1),
            mark == old(buf)@.len() + 4,
        decreases a@.len() - i,
    {
        let x = *vstd::slice::slice_index_get(a, i);
        push_u32_be(buf, 4);
        push_u32_be(buf, #[verifier::truncate] (x as u32));
        proof {
            lemma_array_elems_push(a@.take(i as int), a@[i as int]);
            assert(a@.take(i as int + 1) =~= a@.take(i as int).push(a@[i as int]));
            assert(buf@ =~= prefix + spec_array_elems(a@.take(i as int + 1)));
        }
        i = i + 1;
    }
    proof {
        assert(a@.take(a@.len() as int) =~= a@);
        lemma_array_elems_len(a@);
        assert(buf@.len() - mark == 20 + 8 * a@.len());
        assert(buf@.subrange(0, mark - 4) =~= old(buf)@);
        assert(buf@.skip(mark as int) =~= spec_array_field(a@));
    }
    end_field(buf, mark);
    proof {
        assert(buf@ =~= old(buf)@ + spec_field(spec_array_field(a@)));
    }
}

/// Encodes one embedding-only row: field count 2, the row-index field, the
/// embedding field.
pub fn encode_train_tuple(index: i32, embedding: &[F32Bits]) -> (out: Vec<u8>)
    requires
        embedding@.len() <= 0x7fff,
    ensures
        out@ == spec_train_tuple(index, embedding@),
{
    let mut out: Vec<u8> = Vec::new();
    push_u16_be(&mut out, 2);
    append_int_field(&mut out, index);
    append_vector_field(&mut out, embedding);
    proof {
        assert(out@ =~= spec_train_tuple(index, embedding@));
    }
    out
}

/// Encodes one row with an answer array: field count 3, the row-index
/// field, the embedding field, the integer-array field.
pub fn encode_test_tuple(index: i32, embedding: &[F32Bits], answer: &[i32]) -> (out: Vec<u8>)
    requires
        embedding@.len() <= 0x7fff,
        answer@.len() <= 0x0fff_fffd,
    ensures
        out@ == spec_test_tuple(index, embedding@, answer@),
{
    let mut out: Vec<u8> = Vec::new();
    push_u16_be(&mut out, 3);
    append_int_field(&mut out, index);
    append_vector_field(&mut out, embedding);
    append_array_field(&mut out, answer);
    proof {
        assert(out@ =~= spec_test_tuple(index, embedding@, answer@));
    }
    out
}

} // verus!
