//! The length-prefixed vector record codec.
//!
//! A record stream is a flat byte sequence of records, each a 4-byte
//! little-endian signed element count followed by the elements' raw bytes in
//! little-endian layout, repeated until the byte source is exhausted. The
//! codec here reads and writes that format over an in-memory byte source;
//! the blocking and cooperatively-suspending adapters over files live
//! outside the verified core and delegate the wire format to it.

use core::marker::PhantomData;
use vstd::bytes::lemma_auto_spec_u32_to_from_le_bytes;
use vstd::bytes::spec_u32_from_le_bytes;
use vstd::bytes::spec_u32_to_le_bytes;
use vstd::bytes::u32_from_le_bytes;
use vstd::bytes::u32_to_le_bytes;
use vstd::prelude::*;
use vstd::slice::slice_index_get;
use vstd::slice::slice_subrange;

verus! {

/// Declared for the I/O failure payload carried by [`VecsError::Io`].
#[verifier::external_type_specification]
#[verifier::external_body]
pub struct ExIoError(std::io::Error);

/// Relies on `std::io::Error::new`: builds the error a byte source reports
/// when it is exhausted before a full record could be read.
#[verifier::external_body]
fn eof_error() -> std::io::Error {
    std::io::Error::new(std::io::ErrorKind::UnexpectedEof, "failed to fill whole buffer")
}

/// Everything a record codec can fail with.
pub enum VecsError {
    /// The underlying byte source or sink failed; propagated verbatim.
    Io(std::io::Error),
    /// A record's length prefix is negative: the stream is not well-formed.
    Corruption,
    /// A record's length cannot be represented in the 4-byte length prefix.
    TooBig,
}

/// Marker restricting [`Scalar`] to the element types declared here.
pub trait Sealed {}

impl Sealed for u8 {}

impl Sealed for i32 {}

impl Sealed for F32Bits {}

/// A 32-bit IEEE-754 binary32 value, held as its bit pattern so that the
/// codec's byte-exact contracts can speak of it.
#[derive(Clone, Copy, Debug, PartialEq, Eq, Structural)]
pub struct F32Bits(pub u32);

/// The closed set of permissible record element types: byte, 32-bit signed
/// integer, and 32-bit float (by bit pattern). Each has a fixed byte width
/// and a declared little-endian byte layout.
pub trait Scalar: Sealed + Copy + Sized {
    /// The element's fixed byte width.
    spec fn width() -> nat;

    /// The element's byte layout: `width()` bytes, little-endian.
    spec fn to_bytes(self) -> Seq<u8>;

    /// The element a `width()`-byte layout denotes.
    spec fn of_bytes(s: Seq<u8>) -> Self;

    proof fn lemma_width()
        ensures
            1 <= Self::width() <= 4,
    ;

    proof fn lemma_to_bytes_len(self)
        ensures
            self.to_bytes().len() == Self::width(),
    ;

    proof fn lemma_of_to_bytes(self)
        ensures
            Self::of_bytes(self.to_bytes()) == self,
    ;

    proof fn lemma_to_of_bytes(s: Seq<u8>)
        requires
            s.len() == Self::width(),
        ensures
            Self::of_bytes(s).to_bytes() == s,
    ;

    fn byte_width() -> (w: usize)
        ensures
            w == Self::width(),
    ;

    fn append_bytes(self, out: &mut Vec<u8>)
        ensures
            final(out)@ == old(out)@ + self.to_bytes(),
    ;

    fn read_bytes(b: &[u8]) -> (x: Self)
        requires
            b@.len() == Self::width(),
        ensures
            x == Self::of_bytes(b@),
    ;
}

impl Scalar for u8 {
    open spec fn width() -> nat {
        1
    }

    open spec fn to_bytes(self) -> Seq<u8> {
        seq![self]
    }

    open spec fn of_bytes(s: Seq<u8>) -> u8 {
        s[0]
    }

    proof fn lemma_width() {
    }

    proof fn lemma_to_bytes_len(self) {
    }

    proof fn lemma_of_to_bytes(self) {
    }

    proof fn lemma_to_of_bytes(s: Seq<u8>) {
        assert(Self::of_bytes(s).to_bytes() =~= s);
    }

    fn byte_width() -> (w: usize) {
        1
    }

    fn append_bytes(self, out: &mut Vec<u8>) {
        out.push(self);
        assert(out@ =~= old(out)@ + self.to_bytes());
    }

    fn read_bytes(b: &[u8]) -> (x: u8) {
        *slice_index_get(b, 0)
    }
}

impl Scalar for i32 {
    open spec fn width() -> nat {
        4
    }

    open spec fn to_bytes(self) -> Seq<u8> {
        spec_u32_to_le_bytes(self as u32)
    }

    open spec fn of_bytes(s: Seq<u8>) -> i32 {
        spec_u32_from_le_bytes(s) as i32
    }

    proof fn lemma_width() {
    }

    proof fn lemma_to_bytes_len(self) {
        lemma_auto_spec_u32_to_from_le_bytes();
    }

    proof fn lemma_of_to_bytes(self) {
        lemma_auto_spec_u32_to_from_le_bytes();
        assert(spec_u32_to_le_bytes(self as u32).len() == 4);
        let x = self;
        assert((x as u32) as i32 == x) by (bit_vector);
    }

    proof fn lemma_to_of_bytes(s: Seq<u8>) {
        lemma_auto_spec_u32_to_from_le_bytes();
        let x = spec_u32_from_le_bytes(s);
        assert((x as i32) as u32 == x) by (bit_vector);
    }

    fn byte_width() -> (w: usize) {
        4
    }

    fn append_bytes(self, out: &mut Vec<u8>) {
        let mut b = u32_to_le_bytes(self as u32);
        out.append(&mut b);
    }

    fn read_bytes(b: &[u8]) -> (x: i32) {
        #[verifier::truncate] (u32_from_le_bytes(b) as i32)
    }
}

impl Scalar for F32Bits {
    open spec fn width() -> nat {
        4
    }

    open spec fn to_bytes(self) -> Seq<u8> {
        spec_u32_to_le_bytes(self.0)
    }

    open spec fn of_bytes(s: Seq<u8>) -> F32Bits {
        F32Bits(spec_u32_from_le_bytes(s))
    }

    proof fn lemma_width() {
    }

    proof fn lemma_to_bytes_len(self) {
        lemma_auto_spec_u32_to_from_le_bytes();
    }

    proof fn lemma_of_to_bytes(self) {
        lemma_auto_spec_u32_to_from_le_bytes();
        assert(spec_u32_to_le_bytes(self.0).len() == 4);
        assert(spec_u32_from_le_bytes(spec_u32_to_le_bytes(self.0)) == self.0);
        assert(F32Bits(self.0) == self);
    }

    proof fn lemma_to_of_bytes(s: Seq<u8>) {
        lemma_auto_spec_u32_to_from_le_bytes();
    }

    fn byte_width() -> (w: usize) {
        4
    }

    fn append_bytes(self, out: &mut Vec<u8>) {
        let mut b = u32_to_le_bytes(self.0);
        out.append(&mut b);
    }

    fn read_bytes(b: &[u8]) -> (x: F32Bits) {
        F32Bits(u32_from_le_bytes(b))
    }
}

/// The byte encoding of a sequence of elements, in order, no padding.
pub open spec fn encode_elems<T: Scalar>(s: Seq<T>) -> Seq<u8>
    decreases s.len(),
{
    if s.len() == 0 {
        Seq::empty()
    } else {
        s[0].to_bytes() + encode_elems(s.skip(1))
    }
}

/// The elements denoted by a byte sequence whose length is a multiple of the
/// element width.
pub open spec fn decode_elems<T: Scalar>(b: Seq<u8>) -> Seq<T>
    decreases b.len(),
{
    if T::width() == 0 || b.len() < T::width() {
        Seq::empty()
    } else {
        seq![T::of_bytes(b.subrange(0, T::width() as int))] + decode_elems(
            b.skip(T::width() as int),
        )
    }
}

/// One record on the wire: the element count as a 4-byte little-endian
/// signed integer, then the elements' bytes.
pub open spec fn encode_record<T: Scalar>(s: Seq<T>) -> Seq<u8>
    recommends
        s.len() < 0x7fff_ffff,
{
    spec_u32_to_le_bytes(s.len() as u32) + encode_elems(s)
}

pub proof fn lemma_encode_elems_len<T: Scalar>(s: Seq<T>)
    ensures
        encode_elems(s).len() == s.len() * T::width(),
    decreases s.len(),
{
    if s.len() == 0 {
    } else {
        s[0].lemma_to_bytes_len();
        lemma_encode_elems_len::<T>(s.skip(1));
        let n = s.len() as int;
        let w = T::width() as int;
        assert(w + (n - 1) * w == n * w) by (nonlinear_arith);
    }
}

pub proof fn lemma_encode_elems_push<T: Scalar>(s: Seq<T>, x: T)
    ensures
        encode_elems(s.push(x)) == encode_elems(s) + x.to_bytes(),
    decreases s.len(),
{
    if s.len() == 0 {
        assert(s.push(x).skip(1) =~= Seq::<T>::empty());
        assert(encode_elems(Seq::<T>::empty()) == Seq::<u8>::empty());
        assert(s.push(x)[0] == x);
        assert(encode_elems(s.push(x)) == x.to_bytes() + Seq::<u8>::empty());
        assert(encode_elems(s.push(x)) =~= encode_elems(s) + x.to_bytes());
    } else {
        assert(s.push(x).skip(1) =~= s.skip(1).push(x));
        lemma_encode_elems_push::<T>(s.skip(1), x);
        assert(s.push(x).len() == s.len() + 1);
        assert(s.push(x)[0] == s[0]);
        assert(encode_elems(s.push(x)) == s.push(x)[0].to_bytes() + encode_elems(
            s.push(x).skip(1),
        ));
        assert(encode_elems(s.push(x)) == s[0].to_bytes() + (encode_elems(s.skip(1))
            + x.to_bytes()));
        assert(encode_elems(s) == s[0].to_bytes() + encode_elems(s.skip(1)));
        assert(s[0].to_bytes() + (encode_elems(s.skip(1)) + x.to_bytes()) =~= (s[0].to_bytes()
            + encode_elems(s.skip(1))) + x.to_bytes());
    }
}

/// Pointwise characterization of `decode_elems` on an `n * width()`-byte
/// sequence: `n` elements, the `j`th decoded from the `j`th width-sized
/// chunk.
pub proof fn lemma_decode_elems_index<T: Scalar>(b: Seq<u8>, n: nat)
    requires
        b.len() == n * T::width(),
    ensures
        decode_elems::<T>(b).len() == n,
        forall|j: int|
            0 <= j < n ==> decode_elems::<T>(b)[j] == T::of_bytes(
                b.subrange(j * T::width(), j * T::width() + T::width()),
            ),
    decreases n,
{
    T::lemma_width();
    let w = T::width() as int;
    if n == 0 {
        assert((n as int) * w == 0) by (nonlinear_arith)
            requires
                n == 0,
        ;
        assert(b.len() == 0);
    } else {
        assert(w <= n * w) by (nonlinear_arith)
            requires
                n >= 1,
                w >= 1,
        ;
        assert(b.len() >= w);
        let rest = b.skip(w);
        assert((n - 1) * w == n * w - w) by (nonlinear_arith);
        lemma_decode_elems_index::<T>(rest, (n - 1) as nat);
        let d = decode_elems::<T>(b);
        assert(d == seq![T::of_bytes(b.subrange(0, w))] + decode_elems::<T>(rest));
        assert forall|j: int| 0 <= j < n implies d[j] == T::of_bytes(
            b.subrange(j * w, j * w + w),
        ) by {
            if j == 0 {
                assert(j * w == 0) by (nonlinear_arith)
                    requires
                        j == 0,
                ;
                assert(d[0] == (seq![T::of_bytes(b.subrange(0, w))])[0]);
            } else {
                assert(d[j] == decode_elems::<T>(rest)[j - 1]);
                assert((j - 1) * w == j * w - w) by (nonlinear_arith);
                assert((j + 1) * w == j * w + w) by (nonlinear_arith);
                vstd::arithmetic::mul::lemma_mul_inequality(j + 1, n as int, w);
                vstd::arithmetic::mul::lemma_mul_nonnegative(j - 1, w);
                assert(rest.subrange((j - 1) * w, (j - 1) * w + w) =~= b.subrange(
                    j * w,
                    j * w + w,
                ));
            }
        }
    }
}

/// Decoding inverts encoding: the codec's element-level round trip.
pub proof fn lemma_decode_of_encode<T: Scalar>(s: Seq<T>)
    ensures
        decode_elems::<T>(encode_elems(s)) == s,
    decreases s.len(),
{
    T::lemma_width();
    let w = T::width() as int;
    if s.len() == 0 {
        assert(decode_elems::<T>(encode_elems(s)) =~= s);
    } else {
        s[0].lemma_to_bytes_len();
        s[0].lemma_of_to_bytes();
        lemma_encode_elems_len::<T>(s.skip(1));
        let e = encode_elems(s);
        assert(e == s[0].to_bytes() + encode_elems(s.skip(1)));
        assert(e.subrange(0, w) =~= s[0].to_bytes());
        assert(e.skip(w) =~= encode_elems(s.skip(1)));
        lemma_decode_of_encode::<T>(s.skip(1));
        assert(decode_elems::<T>(e) =~= s);
    }
}

/// What one attempted read sees at the head of a byte stream.
pub enum ReadStep<T> {
    /// The source is exhausted: no record, not an error.
    End,
    /// Fewer than 4 bytes remain: the length prefix itself is cut short.
    ShortLen,
    /// The length prefix is negative.
    Corrupt,
    /// Fewer payload bytes remain than the length prefix announces.
    ShortPayload,
    /// One whole record, and the bytes that follow it.
    Rec(Seq<T>, Seq<u8>),
}

/// The record, if any, at the head of `b`, as the codec's read contract
/// classifies it. The length prefix is read as a little-endian signed
/// 32-bit integer; a negative one (top bit set) is corruption.
pub open spec fn read_step<T: Scalar>(b: Seq<u8>) -> ReadStep<T> {
    if b.len() == 0 {
        ReadStep::End
    } else if b.len() < 4 {
        ReadStep::ShortLen
    } else {
        let l = spec_u32_from_le_bytes(b.subrange(0, 4)) as int;
        if l >= 0x8000_0000 {
            ReadStep::Corrupt
        } else if b.len() - 4 < l * T::width() {
            ReadStep::ShortPayload
        } else {
            ReadStep::Rec(
                decode_elems::<T>(b.subrange(4, 4 + l * T::width())),
                b.skip(4 + l * T::width()),
            )
        }
    }
}

/// The byte encoding of a sequence of records, back to back, with no
/// separator and no trailer: exactly the container file format.
pub open spec fn encode_records<T: Scalar>(rs: Seq<Seq<T>>) -> Seq<u8>
    decreases rs.len(),
{
    if rs.len() == 0 {
        Seq::empty()
    } else {
        encode_record(rs[0]) + encode_records(rs.skip(1))
    }
}

/// The unique full parse of a byte stream as records: `Some` exactly when
/// the stream is a whole number of well-formed records.
pub open spec fn parse_records<T: Scalar>(b: Seq<u8>) -> Option<Seq<Seq<T>>>
    decreases b.len(),
{
    match read_step::<T>(b) {
        ReadStep::End => Some(Seq::empty()),
        ReadStep::Rec(rec, rest) => if rest.len() < b.len() {
            match parse_records::<T>(rest) {
                Some(rs) => Some(seq![rec] + rs),
                None => None,
            }
        } else {
            None
        },
        _ => None,
    }
}

/// An encoded record at the head of a stream reads back as itself, leaving
/// exactly the bytes that followed it.
pub proof fn lemma_read_of_write<T: Scalar>(rec: Seq<T>, rest: Seq<u8>)
    requires
        rec.len() < 0x7fff_ffff,
    ensures
        read_step::<T>(encode_record(rec) + rest) == ReadStep::Rec(rec, rest),
        encode_record(rec).len() == 4 + rec.len() * T::width(),
{
    T::lemma_width();
    lemma_auto_spec_u32_to_from_le_bytes();
    lemma_encode_elems_len::<T>(rec);
    let w = T::width() as int;
    let n = rec.len() as int;
    vstd::arithmetic::mul::lemma_mul_nonnegative(n, w);
    let b = encode_record(rec) + rest;
    assert(spec_u32_to_le_bytes(n as u32).len() == 4);
    assert(b.subrange(0, 4) =~= spec_u32_to_le_bytes(n as u32));
    let l = spec_u32_from_le_bytes(b.subrange(0, 4)) as int;
    assert(l == n);
    assert(b.len() - 4 >= l * w);
    assert(b.subrange(4, 4 + l * w) =~= encode_elems(rec));
    lemma_decode_of_encode::<T>(rec);
    assert(b.skip(4 + l * w) =~= rest);
}

/// Round trip: any sequence of records whose lengths the signed 32-bit
/// prefix can represent, written back to back, parses back to exactly those
/// records.
pub proof fn lemma_stream_round_trip<T: Scalar>(rs: Seq<Seq<T>>)
    requires
        forall|i: int| 0 <= i < rs.len() ==> #[trigger] rs[i].len() < 0x7fff_ffff,
    ensures
        parse_records::<T>(encode_records(rs)) == Some(rs),
    decreases rs.len(),
{
    if rs.len() == 0 {
        assert(encode_records::<T>(rs).len() == 0);
        assert(parse_records::<T>(encode_records(rs)) == Some(Seq::<Seq<T>>::empty()));
        assert(rs =~= Seq::<Seq<T>>::empty());
    } else {
        let b = encode_records(rs);
        let tail = encode_records(rs.skip(1));
        assert(b == encode_record(rs[0]) + tail);
        assert(rs[0].len() < 0x7fff_ffff);
        lemma_read_of_write::<T>(rs[0], tail);
        assert(read_step::<T>(b) == ReadStep::Rec(rs[0], tail));
        assert(tail.len() < b.len());
        lemma_stream_round_trip::<T>(rs.skip(1));
        assert(seq![rs[0]] + rs.skip(1) =~= rs);
    }
}

/// Reads a record's 4-byte little-endian signed length prefix. A negative
/// length is corruption; a non-negative one is returned as is.
pub fn parse_len_prefix(b: &[u8]) -> (r: Result<u32, VecsError>)
    requires
        b@.len() == 4,
    ensures
        match r {
            Ok(l) => l == spec_u32_from_le_bytes(b@) && l < 0x8000_0000,
            Err(e) => (e matches VecsError::Corruption) && spec_u32_from_le_bytes(b@)
                >= 0x8000_0000,
        },
{
    let lu = u32_from_le_bytes(b);
    if lu >= 0x8000_0000 {
        Err(VecsError::Corruption)
    } else {
        Ok(lu)
    }
}

/// The payload byte count a length prefix announces: the element count
/// times the element width.
pub fn record_byte_count<T: Scalar>(l: u32) -> (n: u64)
    requires
        l < 0x8000_0000,
    ensures
        n == l * T::width(),
{
    let w = T::byte_width();
    proof {
        T::lemma_width();
        assert((l as u64) * (w as u64) < 0x10_0000_0000u64) by (nonlinear_arith)
            requires
                l < 0x8000_0000u32,
                w <= 4,
        ;
    }
    (l as u64) * (w as u64)
}

/// Decodes a record's payload: exactly `count` elements from `count` times
/// the element width bytes.
pub fn decode_record_payload<T: Scalar>(payload: &[u8], count: usize) -> (v: Vec<T>)
    requires
        payload@.len() == count * T::width(),
    ensures
        v@ == decode_elems::<T>(payload@),
        v@.len() == count,
{
    let w = T::byte_width();
    let payload_len = payload.len();
    proof {
        T::lemma_width();
        assert(count * w == payload_len);
        assert(count * w <= usize::MAX);
    }
    let mut v: Vec<T> = Vec::new();
    let mut i: usize = 0;
    while i < count
        invariant
            w == T::width(),
            count * w == payload@.len(),
            count * w <= usize::MAX,
            i <= count,
            v@.len() == i,
            forall|j: int|
                0 <= j < i ==> v@[j] == T::of_bytes(
                    payload@.subrange(j * T::width(), j * T::width() + T::width()),
                ),
        decreases count - i,
    {
        proof {
            vstd::arithmetic::mul::lemma_mul_inequality(i as int + 1, count as int, w as int);
            vstd::arithmetic::mul::lemma_mul_is_distributive_add_other_way(w as int, i as int, 1);
            assert((i as int) * (w as int) + w == (i as int + 1) * (w as int));
            assert((i as int) * (w as int) + w <= usize::MAX);
        }
        let e = T::read_bytes(slice_subrange(payload, i * w, i * w + w));
        v.push(e);
        i = i + 1;
    }
    proof {
        lemma_decode_elems_index::<T>(payload@, count as nat);
        assert(v@ =~= decode_elems::<T>(payload@));
    }
    v
}

/// Encodes one record into a fresh buffer: the little-endian length prefix
/// and the elements' bytes, or a `TooBig` rejection.
pub fn encode_record_vec<T: Scalar>(data: &[T]) -> (r: Result<Vec<u8>, VecsError>)
    ensures
        match r {
            Ok(out) => data@.len() < 0x7fff_ffff && out@ == encode_record(data@),
            Err(e) => (e matches VecsError::TooBig) && data@.len() >= 0x7fff_ffff,
        },
{
    let mut w: Writer<T> = Writer::new(Vec::new());
    match w.write(data) {
        Ok(_) => {
            proof {
                assert(Seq::<u8>::empty() + encode_record(data@) =~= encode_record(data@));
            }
            Ok(w.into_inner())
        },
        Err(e) => Err(e),
    }
}

/// Reads length-prefixed records from the front of an in-memory byte source.
pub struct Reader<T: Scalar> {
    bytes: Vec<u8>,
    pos: usize,
    _marker: PhantomData<T>,
}

impl<T: Scalar> Reader<T> {
    /// The read position never passes the end of the source.
    pub closed spec fn wf(&self) -> bool {
        self.pos <= self.bytes@.len()
    }

    /// The bytes not yet consumed.
    pub closed spec fn remaining(&self) -> Seq<u8> {
        self.bytes@.skip(self.pos as int)
    }

    pub fn new(bytes: Vec<u8>) -> (r: Reader<T>)
        ensures
            r.wf(),
            r.remaining() == bytes@,
    {
        let r = Reader { bytes, pos: 0, _marker: PhantomData };
        proof {
            assert(r.remaining() =~= r.bytes@);
        }
        r
    }

    /// Attempts to read one record.
    ///
    /// An exhausted source yields no record (not an error); a negative
    /// length prefix is corruption; a source that runs short mid-record is
    /// an I/O failure. Success consumes exactly the record's bytes and
    /// decodes exactly the announced number of elements.
    pub fn read(&mut self) -> (r: Result<Option<Vec<T>>, VecsError>)
        requires
            old(self).wf(),
        ensures
            final(self).wf(),
            match read_step::<T>(old(self).remaining()) {
                ReadStep::End => (r matches Ok(o) && o matches None) && final(self).remaining()
                    == old(self).remaining(),
                ReadStep::ShortLen => (r matches Err(e) && e matches VecsError::Io(_))
                    && final(self).remaining().len() == 0,
                ReadStep::Corrupt => (r matches Err(e) && e matches VecsError::Corruption)
                    && final(self).remaining() == old(self).remaining().skip(4),
                ReadStep::ShortPayload => (r matches Err(e) && e matches VecsError::Io(_))
                    && final(self).remaining().len() == 0,
                ReadStep::Rec(rec, rest) => (r matches Ok(o) && o matches Some(v) && v@ == rec)
                    && final(self).remaining() == rest,
            },
    {
        let ghost rem0 = self.remaining();
        let rem_len = self.bytes.len() - self.pos;
        if rem_len == 0 {
            assert(rem0.len() == 0);
            return Ok(None);
        }
        if rem_len < 4 {
            self.pos = self.bytes.len();
            assert(self.remaining().len() == 0);
            return Err(VecsError::Io(eof_error()));
        }
        let len_bytes = slice_subrange(self.bytes.as_slice(), self.pos, self.pos + 4);
        proof {
            assert(len_bytes@ =~= rem0.subrange(0, 4));
        }
        let lu = u32_from_le_bytes(len_bytes);
        if lu >= 0x8000_0000 {
            self.pos = self.pos + 4;
            proof {
                assert(self.remaining() =~= rem0.skip(4));
            }
            return Err(VecsError::Corruption);
        }
        let w = T::byte_width();
        proof {
            T::lemma_width();
            assert((lu as u64) * (w as u64) < 0x10_0000_0000u64) by (nonlinear_arith)
                requires
                    lu < 0x8000_0000u32,
                    w <= 4,
            ;
        }
        let need64: u64 = (lu as u64) * (w as u64);
        if need64 > (rem_len - 4) as u64 {
            self.pos = self.bytes.len();
            assert(self.remaining().len() == 0);
            return Err(VecsError::Io(eof_error()));
        }
        let need: usize = need64 as usize;
        proof {
            assert(need == (lu as int) * (T::width() as int));
        }
        let payload = slice_subrange(
            self.bytes.as_slice(),
            self.pos + 4,
            self.pos + 4 + need,
        );
        proof {
            assert(payload@ =~= rem0.subrange(4, 4 + (lu as int) * (T::width() as int)));
            assert(payload@.len() == (lu as int) * (T::width() as int));
        }
        let count: usize = lu as usize;
        let v = decode_record_payload::<T>(payload, count);
        self.pos = self.pos + 4 + need;
        proof {
            assert(self.remaining() =~= rem0.skip(4 + (lu as int) * (T::width() as int)));
        }
        Ok(Some(v))
    }
}

/// Writes length-prefixed records onto an in-memory byte sink.
pub struct Writer<T: Scalar> {
    out: Vec<u8>,
    _marker: PhantomData<T>,
}

impl<T: Scalar> Writer<T> {
    /// Everything written to the sink so far, earlier bytes included.
    pub closed spec fn sink(&self) -> Seq<u8> {
        self.out@
    }

    pub fn new(out: Vec<u8>) -> (w: Writer<T>)
        ensures
            w.sink() == out@,
    {
        Writer { out, _marker: PhantomData }
    }

    /// Writes one record: the element count as a 4-byte little-endian
    /// integer, then the elements' bytes in the order given. A record whose
    /// length cannot be represented in the signed 32-bit prefix is rejected
    /// whole, with the sink untouched.
    pub fn write(&mut self, data: &[T]) -> (r: Result<(), VecsError>)
        ensures
            match r {
                Ok(_) => data@.len() < 0x7fff_ffff && final(self).sink() == old(self).sink()
                    + encode_record(data@),
                Err(e) => (e matches VecsError::TooBig) && data@.len() >= 0x7fff_ffff
                    && final(self).sink() == old(self).sink(),
            },
    {
        let d = data.len();
        if d >= 0x7fff_ffff {
            return Err(VecsError::TooBig);
        }
        let ghost sink0 = self.out@;
        let mut prefix = u32_to_le_bytes(d as u32);
        self.out.append(&mut prefix);
        let mut i: usize = 0;
        while i < d
            invariant
                d == data@.len(),
                i <= d,
                self.out@ == sink0 + spec_u32_to_le_bytes(d as u32) + encode_elems(
                    data@.take(i as int),
                ),
            decreases d - i,
        {
            let e = *slice_index_get(data, i);
            e.append_bytes(&mut self.out);
            proof {
                lemma_encode_elems_push::<T>(data@.take(i as int), data@[i as int]);
                assert(data@.take(i as int + 1) =~= data@.take(i as int).push(data@[i as int]));
                assert(self.out@ =~= sink0 + spec_u32_to_le_bytes(d as u32) + encode_elems(
                    data@.take(i as int + 1),
                ));
            }
            i = i + 1;
        }
        proof {
            assert(data@.take(d as int) =~= data@);
            assert(self.out@ =~= sink0 + encode_record(data@));
        }
        Ok(())
    }

    /// Hands the sink back.
    pub fn into_inner(self) -> (out: Vec<u8>)
        ensures
            out@ == self.sink(),
    {
        self.out
    }
}

} // verus!
