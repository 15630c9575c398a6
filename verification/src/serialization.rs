//! Byte-level encoding and decoding primitives for the wire format.
//!
//! Every decoder takes the whole buffer together with a position and returns
//! the decoded value with the position after it, so that a caller can chain
//! fields. Each executable function is pinned to a specification twin
//! (`spec_varint`, `spec_decode_varint`, ...) that the message-level codec
//! and its round-trip proof are stated over.

use vstd::prelude::*;

use crate::error::TxAsmError;

verus! {

/// Largest value the variable-length integer scheme can carry.
pub open spec fn varint_max() -> int {
    0xFFFF
}

/// Addition capped at `usize::MAX`, for the `needed` field of a
/// `TruncatedInput` error near the top of the address space.
pub open spec fn spec_sat_add(a: int, b: int) -> usize {
    if a + b <= usize::MAX as int {
        (a + b) as usize
    } else {
        usize::MAX
    }
}

fn sat_add(a: usize, b: usize) -> (r: usize)
    ensures
        r == spec_sat_add(a as int, b as int),
{
    if a <= usize::MAX - b {
        a + b
    } else {
        usize::MAX
    }
}

/// The 1-3 byte encoding of `v`: seven payload bits per byte, high bit set
/// when another byte follows; the third byte carries the remaining high bits
/// without a continuation flag.
pub open spec fn spec_varint(v: u16) -> Seq<u8> {
    if v < 0x80 {
        seq![v as u8]
    } else if v < 0x4000 {
        seq![(v % 0x80 + 0x80) as u8, (v / 0x80) as u8]
    } else {
        seq![
            (v % 0x80 + 0x80) as u8,
            ((v / 0x80) % 0x80 + 0x80) as u8,
            (v / 0x4000) as u8,
        ]
    }
}

/// Decoding a variable-length integer at `pos`: the value and the position
/// after it, `TruncatedInput` when the buffer ends inside the field, and
/// `MalformedVarint` when the continuation bit is still set after three
/// bytes.
pub open spec fn spec_decode_varint(s: Seq<u8>, pos: int) -> Result<(u16, int), TxAsmError> {
    let n = s.len() as int;
    if pos < n && s[pos] < 0x80 {
        Ok((s[pos] as u16, pos + 1))
    } else if pos >= n {
        Err(TxAsmError::TruncatedInput { needed: spec_sat_add(pos, 1), available: s.len() as usize })
    } else if pos + 1 < n && s[pos + 1] < 0x80 {
        let lo = (s[pos] as int) - 0x80;
        let hi = s[pos + 1] as int;
        Ok(((lo + hi * 0x80) as u16, pos + 2))
    } else if pos + 1 >= n {
        Err(TxAsmError::TruncatedInput { needed: spec_sat_add(pos, 2), available: s.len() as usize })
    } else if pos + 2 < n && s[pos + 2] < 0x80 {
        let lo = (s[pos] as int) - 0x80;
        let mid = (s[pos + 1] as int) - 0x80;
        let top = (s[pos + 2] as int) % 4;
        Ok(((lo + mid * 0x80 + top * 0x4000) as u16, pos + 3))
    } else if pos + 2 >= n {
        Err(TxAsmError::TruncatedInput { needed: spec_sat_add(pos, 3), available: s.len() as usize })
    } else {
        Err(TxAsmError::MalformedVarint)
    }
}

/// Decoding `count` contiguous bytes at `pos`.
pub open spec fn spec_decode_fixed(s: Seq<u8>, pos: int, count: int) -> Result<
    (Seq<u8>, int),
    TxAsmError,
> {
    if pos + count <= s.len() {
        Ok((s.subrange(pos, pos + count), pos + count))
    } else {
        Err(TxAsmError::TruncatedInput { needed: spec_sat_add(pos, count), available: s.len() as usize })
    }
}

/// A varint length followed by that many bytes.
pub open spec fn spec_decode_len_prefixed(s: Seq<u8>, pos: int) -> Result<
    (Seq<u8>, int),
    TxAsmError,
> {
    match spec_decode_varint(s, pos) {
        Ok((len, p)) => spec_decode_fixed(s, p, len as int),
        Err(e) => Err(e),
    }
}

/// The buffer `s` holds exactly `bytes` starting at `pos`.
pub open spec fn begins_with(s: Seq<u8>, pos: int, bytes: Seq<u8>) -> bool {
    &&& 0 <= pos
    &&& pos + bytes.len() <= s.len()
    &&& s.subrange(pos, pos + bytes.len()) == bytes
}

/// Little-endian bytes of a 64-bit integer.
pub open spec fn spec_u64_le(v: u64) -> Seq<u8> {
    seq![
        (v % 0x100) as u8,
        ((v / 0x100) % 0x100) as u8,
        ((v / 0x1_0000) % 0x100) as u8,
        ((v / 0x100_0000) % 0x100) as u8,
        ((v / 0x1_0000_0000) % 0x100) as u8,
        ((v / 0x100_0000_0000) % 0x100) as u8,
        ((v / 0x1_0000_0000_0000) % 0x100) as u8,
        (v / 0x100_0000_0000_0000) as u8,
    ]
}

/// Little-endian bytes of a 32-bit integer.
pub open spec fn spec_u32_le(v: u32) -> Seq<u8> {
    seq![
        (v % 0x100) as u8,
        ((v / 0x100) % 0x100) as u8,
        ((v / 0x1_0000) % 0x100) as u8,
        (v / 0x100_0000) as u8,
    ]
}

/// The 64-bit integer read little-endian from 8 bytes.
pub open spec fn spec_u64_from_le(b: Seq<u8>) -> u64
    recommends
        b.len() == 8,
{
    ((b[0] as int) + (b[1] as int) * 0x100 + (b[2] as int) * 0x1_0000 + (b[3] as int) * 0x100_0000
        + (b[4] as int) * 0x1_0000_0000 + (b[5] as int) * 0x100_0000_0000 + (b[6] as int)
        * 0x1_0000_0000_0000 + (b[7] as int) * 0x100_0000_0000_0000) as u64
}

/// Types that serialize themselves into the wire layout.
///
/// `spec_bytes` is the exact byte image; `representable` says whether every
/// length field fits the variable-length integer scheme. `serialize_bytes`
/// appends exactly `spec_bytes` on success and reports `Unrepresentable`,
/// leaving the buffer untouched, otherwise.
pub trait ByteSerialize {
    /// The exact bytes this value serializes to.
    spec fn spec_bytes(&self) -> Seq<u8>;

    /// Every count and length field is within the wire format's range.
    spec fn representable(&self) -> bool;

    /// Append the wire image of `self` to `writer`.
    fn serialize_bytes(&self, writer: &mut Vec<u8>) -> (r: Result<(), TxAsmError>)
        ensures
            self.representable() ==> r == Ok::<(), TxAsmError>(()),
            self.representable() ==> final(writer)@ == old(writer)@ + self.spec_bytes(),
            !self.representable() ==> r == Err::<(), TxAsmError>(TxAsmError::Unrepresentable),
            !self.representable() ==> final(writer)@ == old(writer)@,
    ;

    /// The exact length of the wire image, computed without serializing.
    fn byte_size(&self) -> (r: usize)
        requires
            self.representable(),
            self.spec_bytes().len() <= usize::MAX,
        ensures
            r == self.spec_bytes().len(),
    ;
}

/// Types that decode themselves from a buffer and a position, returning the
/// value together with the position after it.
pub trait ByteDeserialize: Sized {
    /// Decode one value of `Self` from `data` starting at `pos`.
    fn deserialize_bytes(data: &[u8], pos: usize) -> Result<(Self, usize), TxAsmError>;
}

/// Encode `value` with the variable-length integer scheme. Never fails.
pub fn encode_compact_u16(value: u16, writer: &mut Vec<u8>) -> (r: Result<(), TxAsmError>)
    ensures
        r is Ok,
        final(writer)@ == old(writer)@ + spec_varint(value),
{
    if value < 0x80 {
        writer.push(value as u8);
    } else if value < 0x4000 {
        writer.push((value % 0x80 + 0x80) as u8);
        writer.push((value / 0x80) as u8);
    } else {
        writer.push((value % 0x80 + 0x80) as u8);
        writer.push(((value / 0x80) % 0x80 + 0x80) as u8);
        writer.push((value / 0x4000) as u8);
    }
    proof {
        assert(final(writer)@ =~= old(writer)@ + spec_varint(value));
    }
    Ok(())
}

/// Decode a variable-length integer from `data` at `pos`.
pub fn decode_compact_u16(data: &[u8], pos: usize) -> (r: Result<(u16, usize), TxAsmError>)
    requires
        pos <= data@.len(),
    ensures
        match spec_decode_varint(data@, pos as int) {
            Ok((v, p)) => r == Ok::<(u16, usize), TxAsmError>((v, p as usize)),
            Err(e) => r == Err::<(u16, usize), TxAsmError>(e),
        },
        r is Ok ==> pos <= r->Ok_0.1 <= data@.len(),
{
    if pos >= data.len() {
        return Err(TxAsmError::TruncatedInput { needed: sat_add(pos, 1), available: data.len() });
    }
    let b0: u8 = data[pos];
    if b0 < 0x80 {
        return Ok((b0 as u16, pos + 1));
    }
    if pos + 1 >= data.len() {
        return Err(TxAsmError::TruncatedInput { needed: sat_add(pos, 2), available: data.len() });
    }
    let b1: u8 = data[pos + 1];
    if b1 < 0x80 {
        return Ok(((b0 as u16 - 0x80) + (b1 as u16) * 0x80, pos + 2));
    }
    if pos + 2 >= data.len() {
        return Err(TxAsmError::TruncatedInput { needed: sat_add(pos, 3), available: data.len() });
    }
    let b2: u8 = data[pos + 2];
    if b2 < 0x80 {
        return Ok((
            (b0 as u16 - 0x80) + (b1 as u16 - 0x80) * 0x80 + (b2 as u16 % 4) * 0x4000,
            pos + 3,
        ));
    }
    Err(TxAsmError::MalformedVarint)
}

/// Encode a length prefix followed by the bytes themselves.
pub fn encode_length_prefixed(data: &[u8], writer: &mut Vec<u8>) -> (r: Result<(), TxAsmError>)
    requires
        data@.len() <= varint_max(),
    ensures
        r is Ok,
        final(writer)@ == old(writer)@ + spec_varint(data@.len() as u16) + data@,
{
    let res = encode_compact_u16(data.len() as u16, writer);
    writer.extend_from_slice(data);
    res
}

/// Decode `count` contiguous bytes at `pos` into a vector.
pub fn decode_bytes(data: &[u8], pos: usize, count: usize) -> (r: Result<
    (Vec<u8>, usize),
    TxAsmError,
>)
    requires
        pos <= data@.len(),
    ensures
        match spec_decode_fixed(data@, pos as int, count as int) {
            Ok((b, p)) => {
                &&& r is Ok
                &&& r->Ok_0.0@ == b
                &&& r->Ok_0.1 == p
            },
            Err(e) => r == Err::<(Vec<u8>, usize), TxAsmError>(e),
        },
        r is Ok ==> pos <= r->Ok_0.1 <= data@.len(),
{
    if count > data.len() - pos {
        return Err(TxAsmError::TruncatedInput { needed: sat_add(pos, count), available: data.len() });
    }
    let mut out: Vec<u8> = Vec::new();
    let mut i: usize = 0;
    while i < count
        invariant
            data@.len() <= usize::MAX,
            pos + count <= data@.len(),
            i <= count,
            out@ == data@.subrange(pos as int, pos + i),
        decreases count - i,
    {
        out.push(data[pos + i]);
        proof {
            assert(out@ =~= data@.subrange(pos as int, pos + i + 1));
        }
        i = i + 1;
    }
    Ok((out, pos + count))
}

/// Decode a length-prefixed byte array.
pub fn decode_length_prefixed(data: &[u8], pos: usize) -> (r: Result<(Vec<u8>, usize), TxAsmError>)
    requires
        pos <= data@.len(),
    ensures
        match spec_decode_len_prefixed(data@, pos as int) {
            Ok((b, p)) => {
                &&& r is Ok
                &&& r->Ok_0.0@ == b
                &&& r->Ok_0.1 == p
            },
            Err(e) => r == Err::<(Vec<u8>, usize), TxAsmError>(e),
        },
        r is Ok ==> pos <= r->Ok_0.1 <= data@.len(),
{
    let (len, at) = match decode_compact_u16(data, pos) {
        Ok(v) => v,
        Err(e) => {
            return Err(e);
        },
    };
    let n: usize = data.len();
    proof {
        let sp = spec_decode_varint(data@, pos as int);
        assert(sp is Ok);
        assert(0 <= sp->Ok_0.1 <= n);
        assert(sp->Ok_0.1 == at as int);
        assert(at <= data@.len());
    }
    decode_bytes(data, at, len as usize)
}

/// Encode a 32-byte public key.
pub fn encode_pubkey(pubkey: &[u8; 32], writer: &mut Vec<u8>) -> (r: Result<(), TxAsmError>)
    ensures
        r is Ok,
        final(writer)@ == old(writer)@ + pubkey@,
{
    writer.extend_from_slice(pubkey.as_slice());
    Ok(())
}

/// Decode `N` contiguous bytes into a fixed-size array.
pub fn decode_array<const N: usize>(data: &[u8], pos: usize) -> (r: Result<
    ([u8; N], usize),
    TxAsmError,
>)
    requires
        pos <= data@.len(),
    ensures
        match spec_decode_fixed(data@, pos as int, N as int) {
            Ok((b, p)) => {
                &&& r is Ok
                &&& r->Ok_0.0@ == b
                &&& r->Ok_0.1 == p
            },
            Err(e) => r == Err::<([u8; N], usize), TxAsmError>(e),
        },
        r is Ok ==> pos <= r->Ok_0.1 <= data@.len(),
{
    if N > data.len() - pos {
        return Err(TxAsmError::TruncatedInput { needed: sat_add(pos, N), available: data.len() });
    }
    let mut out: [u8; N] = [0u8; N];
    let mut i: usize = 0;
    while i < N
        invariant
            data@.len() <= usize::MAX,
            pos + N <= data@.len(),
            i <= N,
            out@.len() == N,
            forall|j: int| 0 <= j < i ==> out@[j] == data@[pos + j],
        decreases N - i,
    {
        out[i] = data[pos + i];
        i = i + 1;
    }
    proof {
        assert(out@ =~= data@.subrange(pos as int, pos + N));
    }
    Ok((out, pos + N))
}

/// Decode a 32-byte public key.
pub fn decode_pubkey(data: &[u8], pos: usize) -> (r: Result<([u8; 32], usize), TxAsmError>)
    requires
        pos <= data@.len(),
    ensures
        match spec_decode_fixed(data@, pos as int, 32) {
            Ok((b, p)) => {
                &&& r is Ok
                &&& r->Ok_0.0@ == b
                &&& r->Ok_0.1 == p
            },
            Err(e) => r == Err::<([u8; 32], usize), TxAsmError>(e),
        },
{
    decode_array::<32>(data, pos)
}

/// Encode a 64-bit integer little-endian.
pub fn encode_u64(value: u64, writer: &mut Vec<u8>) -> (r: Result<(), TxAsmError>)
    ensures
        r is Ok,
        final(writer)@ == old(writer)@ + spec_u64_le(value),
{
    writer.push((value % 0x100) as u8);
    writer.push(((value / 0x100) % 0x100) as u8);
    writer.push(((value / 0x1_0000) % 0x100) as u8);
    writer.push(((value / 0x100_0000) % 0x100) as u8);
    writer.push(((value / 0x1_0000_0000) % 0x100) as u8);
    writer.push(((value / 0x100_0000_0000) % 0x100) as u8);
    writer.push(((value / 0x1_0000_0000_0000) % 0x100) as u8);
    writer.push((value / 0x100_0000_0000_0000) as u8);
    proof {
        assert(final(writer)@ =~= old(writer)@ + spec_u64_le(value));
    }
    Ok(())
}

/// Decode a little-endian 64-bit integer.
pub fn decode_u64(data: &[u8], pos: usize) -> (r: Result<(u64, usize), TxAsmError>)
    requires
        pos <= data@.len(),
    ensures
        match spec_decode_fixed(data@, pos as int, 8) {
            Ok((b, p)) => r == Ok::<(u64, usize), TxAsmError>((spec_u64_from_le(b), p as usize)),
            Err(e) => r == Err::<(u64, usize), TxAsmError>(e),
        },
{
    if 8 > data.len() - pos {
        return Err(TxAsmError::TruncatedInput { needed: sat_add(pos, 8), available: data.len() });
    }
    let value: u64 = (data[pos] as u64) + (data[pos + 1] as u64) * 0x100 + (data[pos + 2] as u64)
        * 0x1_0000 + (data[pos + 3] as u64) * 0x100_0000 + (data[pos + 4] as u64) * 0x1_0000_0000
        + (data[pos + 5] as u64) * 0x100_0000_0000 + (data[pos + 6] as u64) * 0x1_0000_0000_0000 + (
    data[pos + 7] as u64) * 0x100_0000_0000_0000;
    proof {
        let b = data@.subrange(pos as int, pos + 8);
        assert(b[0] == data@[pos as int]);
        assert(b[1] == data@[pos + 1]);
        assert(b[2] == data@[pos + 2]);
        assert(b[3] == data@[pos + 3]);
        assert(b[4] == data@[pos + 4]);
        assert(b[5] == data@[pos + 5]);
        assert(b[6] == data@[pos + 6]);
        assert(b[7] == data@[pos + 7]);
    }
    Ok((value, pos + 8))
}

/// The 32-bit integer read little-endian from 4 bytes.
pub open spec fn spec_u32_from_le(b: Seq<u8>) -> u32
    recommends
        b.len() == 4,
{
    ((b[0] as int) + (b[1] as int) * 0x100 + (b[2] as int) * 0x1_0000 + (b[3] as int)
        * 0x100_0000) as u32
}

/// Encode a 32-bit integer little-endian.
pub fn encode_u32(value: u32, writer: &mut Vec<u8>) -> (r: Result<(), TxAsmError>)
    ensures
        r is Ok,
        final(writer)@ == old(writer)@ + spec_u32_le(value),
{
    writer.push((value % 0x100) as u8);
    writer.push(((value / 0x100) % 0x100) as u8);
    writer.push(((value / 0x1_0000) % 0x100) as u8);
    writer.push((value / 0x100_0000) as u8);
    proof {
        assert(final(writer)@ =~= old(writer)@ + spec_u32_le(value));
    }
    Ok(())
}

/// Decode a little-endian 32-bit integer.
pub fn decode_u32(data: &[u8], pos: usize) -> (r: Result<(u32, usize), TxAsmError>)
    requires
        pos <= data@.len(),
    ensures
        match spec_decode_fixed(data@, pos as int, 4) {
            Ok((b, p)) => r == Ok::<(u32, usize), TxAsmError>((spec_u32_from_le(b), p as usize)),
            Err(e) => r == Err::<(u32, usize), TxAsmError>(e),
        },
{
    if 4 > data.len() - pos {
        return Err(TxAsmError::TruncatedInput { needed: sat_add(pos, 4), available: data.len() });
    }
    let value: u32 = (data[pos] as u32) + (data[pos + 1] as u32) * 0x100 + (data[pos + 2] as u32)
        * 0x1_0000 + (data[pos + 3] as u32) * 0x100_0000;
    proof {
        let b = data@.subrange(pos as int, pos + 4);
        assert(b[0] == data@[pos as int]);
        assert(b[1] == data@[pos + 1]);
        assert(b[2] == data@[pos + 2]);
        assert(b[3] == data@[pos + 3]);
    }
    Ok((value, pos + 4))
}

/// Encode a single byte.
pub fn encode_u8(value: u8, writer: &mut Vec<u8>) -> (r: Result<(), TxAsmError>)
    ensures
        r is Ok,
        final(writer)@ == old(writer)@ + seq![value],
{
    writer.push(value);
    proof {
        assert(final(writer)@ =~= old(writer)@ + seq![value]);
    }
    Ok(())
}

/// Decode a single byte.
pub fn decode_u8(data: &[u8], pos: usize) -> (r: Result<(u8, usize), TxAsmError>)
    requires
        pos <= data@.len(),
    ensures
        pos < data@.len() ==> r == Ok::<(u8, usize), TxAsmError>((data@[pos as int], (pos + 1) as usize)),
        pos >= data@.len() ==> r == Err::<(u8, usize), TxAsmError>(
            TxAsmError::TruncatedInput { needed: spec_sat_add(pos as int, 1), available: data@.len() as usize },
        ),
        r is Ok ==> pos < data@.len() && r->Ok_0.1 == pos + 1,
{
    if pos >= data.len() {
        return Err(TxAsmError::TruncatedInput { needed: sat_add(pos, 1), available: data.len() });
    }
    Ok((data[pos], pos + 1))
}

/// The wire image of a counted list: a varint count followed by each item's
/// bytes in order.
pub open spec fn spec_ser_items<T: ByteSerialize>(items: Seq<T>) -> Seq<u8>
    decreases items.len(),
{
    if items.len() == 0 {
        Seq::empty()
    } else {
        items[0].spec_bytes() + spec_ser_items(items.drop_first())
    }
}

/// Every item in the list is representable and the count fits the length
/// prefix.
pub open spec fn spec_items_representable<T: ByteSerialize>(items: Seq<T>) -> bool {
    &&& items.len() <= varint_max()
    &&& forall|i: int| 0 <= i < items.len() ==> #[trigger] items[i].representable()
}

/// Serialize a list with its length prefix.
pub fn serialize_vec<T: ByteSerialize>(items: &[T], writer: &mut Vec<u8>) -> (r: Result<
    (),
    TxAsmError,
>)
    requires
        spec_items_representable(items@),
    ensures
        r is Ok,
        final(writer)@ == old(writer)@ + spec_varint(items@.len() as u16) + spec_ser_items(items@),
{
    let res = encode_compact_u16(items.len() as u16, writer);
    let ghost base = writer@;
    let mut i: usize = 0;
    while i < items.len()
        invariant
            spec_items_representable(items@),
            i <= items@.len(),
            writer@ == base + spec_ser_items(items@.take(i as int)),
        decreases items@.len() - i,
    {
        proof {
            lemma_ser_items_take_succ(items@, i as int);
        }
        let sres = items[i].serialize_bytes(writer);
        i = i + 1;
    }
    proof {
        assert(items@.take(items@.len() as int) =~= items@);
    }
    res
}

/// Total wire size of a counted list, without serializing it.
pub fn vec_byte_size<T: ByteSerialize>(items: &[T]) -> (r: usize)
    requires
        spec_items_representable(items@),
        spec_varint(items@.len() as u16).len() + spec_ser_items(items@).len() <= usize::MAX,
    ensures
        r == spec_varint(items@.len() as u16).len() + spec_ser_items(items@).len(),
{
    let len: usize = items.len();
    let len_size: usize = if len <= 0x7f {
        1
    } else if len <= 0x3fff {
        2
    } else {
        3
    };
    let mut total: u64 = len_size as u64;
    let mut i: usize = 0;
    while i < items.len()
        invariant
            spec_items_representable(items@),
            spec_varint(items@.len() as u16).len() + spec_ser_items(items@).len() <= usize::MAX,
            len_size == spec_varint(items@.len() as u16).len(),
            i <= items@.len(),
            total == len_size + spec_ser_items(items@.take(i as int)).len(),
        decreases items@.len() - i,
    {
        proof {
            lemma_ser_items_take_succ(items@, i as int);
            lemma_ser_items_prefix_len(items@, i + 1);
            assert(items@[i as int].spec_bytes().len() <= usize::MAX);
        }
        let sz: usize = items[i].byte_size();
        total = total + sz as u64;
        i = i + 1;
    }
    proof {
        assert(items@.take(items@.len() as int) =~= items@);
    }
    total as usize
}

/// Serializing one more item appends its bytes to the image of the prefix.
pub proof fn lemma_ser_items_take_succ<T: ByteSerialize>(items: Seq<T>, i: int)
    requires
        0 <= i < items.len(),
    ensures
        spec_ser_items(items.take(i + 1)) == spec_ser_items(items.take(i)) + items[i].spec_bytes(),
    decreases i,
{
    if i == 0 {
        let t1 = items.take(1);
        assert(t1.len() == 1);
        assert(spec_ser_items(t1) == t1[0].spec_bytes() + spec_ser_items(t1.drop_first()));
        assert(t1.drop_first().len() == 0);
        assert(spec_ser_items(t1.drop_first()) == Seq::<u8>::empty());
        assert(t1[0] == items[0]);
        assert(items.take(0).len() == 0);
        assert(spec_ser_items(items.take(0)) == Seq::<u8>::empty());
        assert(spec_ser_items(t1) =~= spec_ser_items(items.take(0)) + items[0].spec_bytes());
    } else {
        let t1 = items.take(i + 1);
        let t0 = items.take(i);
        assert(t1.drop_first() =~= items.drop_first().take(i));
        assert(t0.drop_first() =~= items.drop_first().take(i - 1));
        lemma_ser_items_take_succ(items.drop_first(), i - 1);
        assert(items.drop_first()[i - 1] == items[i]);
        assert(t1[0] == items[0]);
        assert(t0[0] == items[0]);
        assert(spec_ser_items(t1) == items[0].spec_bytes() + spec_ser_items(
            items.drop_first().take(i),
        ));
        assert(spec_ser_items(t1) =~= spec_ser_items(t0) + items[i].spec_bytes());
    }
}

/// The image of a prefix is no longer than the image of the whole list.
pub proof fn lemma_ser_items_prefix_len<T: ByteSerialize>(items: Seq<T>, i: int)
    requires
        0 <= i <= items.len(),
    ensures
        spec_ser_items(items.take(i)).len() <= spec_ser_items(items).len(),
    decreases items.len() - i,
{
    if i == items.len() {
        assert(items.take(i) =~= items);
    } else {
        lemma_ser_items_take_succ(items, i);
        lemma_ser_items_prefix_len(items, i + 1);
    }
}

/// Decoding reads back exactly what encoding wrote: the variable-length
/// integer scheme round-trips at any position of any buffer.
pub proof fn lemma_varint_round_trip(s: Seq<u8>, pos: int, v: u16)
    requires
        begins_with(s, pos, spec_varint(v)),
    ensures
        spec_decode_varint(s, pos) == Ok::<(u16, int), TxAsmError>((
            v,
            pos + spec_varint(v).len(),
        )),
{
    let e = spec_varint(v);
    if v < 0x80 {
        assert(s[pos] == e[0]);
    } else if v < 0x4000 {
        assert(s[pos] == e[0]);
        assert(s[pos + 1] == e[1]);
        assert(s[pos] >= 0x80);
        assert(s[pos + 1] < 0x80);
        assert((s[pos] as int - 0x80) + (s[pos + 1] as int) * 0x80 == (v % 0x80) + (v / 0x80)
            * 0x80);
        assert((v % 0x80) + (v / 0x80) * 0x80 == v) by {
            vstd::arithmetic::div_mod::lemma_fundamental_div_mod(v as int, 0x80);
        }
    } else {
        assert(s[pos] == e[0]);
        assert(s[pos + 1] == e[1]);
        assert(s[pos + 2] == e[2]);
        assert(s[pos] >= 0x80);
        assert(s[pos + 1] >= 0x80);
        assert(s[pos + 2] < 0x80);
        let b2 = v / 0x4000;
        assert(b2 <= 3);
        assert((s[pos + 2] as int) % 4 == b2 as int);
        assert((s[pos] as int - 0x80) + (s[pos + 1] as int - 0x80) * 0x80 + ((s[pos + 2] as int)
            % 4) * 0x4000 == (v % 0x80) + ((v / 0x80) % 0x80) * 0x80 + (v / 0x4000) * 0x4000);
        assert((v % 0x80) + ((v / 0x80) % 0x80) * 0x80 + (v / 0x4000) * 0x4000 == v) by {
            vstd::arithmetic::div_mod::lemma_fundamental_div_mod(v as int, 0x80);
            vstd::arithmetic::div_mod::lemma_fundamental_div_mod(v as int / 0x80, 0x80);
            assert((v as int / 0x80) / 0x80 == v as int / 0x4000) by {
                vstd::arithmetic::div_mod::lemma_div_denominator(v as int, 0x80, 0x80);
            }
        }
    }
}

/// Reading back the little-endian bytes of a 64-bit integer yields the
/// integer.
pub proof fn lemma_u64_le_round_trip(v: u64)
    ensures
        spec_u64_from_le(spec_u64_le(v)) == v,
{
    let x = v as int;
    vstd::arithmetic::div_mod::lemma_fundamental_div_mod(x, 0x100);
    vstd::arithmetic::div_mod::lemma_div_denominator(x, 0x100, 0x100);
    vstd::arithmetic::div_mod::lemma_fundamental_div_mod(x / 0x100, 0x100);
    vstd::arithmetic::div_mod::lemma_div_denominator(x, 0x1_0000, 0x100);
    vstd::arithmetic::div_mod::lemma_fundamental_div_mod(x / 0x1_0000, 0x100);
    vstd::arithmetic::div_mod::lemma_div_denominator(x, 0x100_0000, 0x100);
    vstd::arithmetic::div_mod::lemma_fundamental_div_mod(x / 0x100_0000, 0x100);
    vstd::arithmetic::div_mod::lemma_div_denominator(x, 0x1_0000_0000, 0x100);
    vstd::arithmetic::div_mod::lemma_fundamental_div_mod(x / 0x1_0000_0000, 0x100);
    vstd::arithmetic::div_mod::lemma_div_denominator(x, 0x100_0000_0000, 0x100);
    vstd::arithmetic::div_mod::lemma_fundamental_div_mod(x / 0x100_0000_0000, 0x100);
    vstd::arithmetic::div_mod::lemma_div_denominator(x, 0x1_0000_0000_0000, 0x100);
    vstd::arithmetic::div_mod::lemma_fundamental_div_mod(x / 0x1_0000_0000_0000, 0x100);
    assert(x / 0x100_0000_0000_0000 < 0x100) by {
        vstd::arithmetic::div_mod::lemma_div_denominator(x, 0x100_0000_0000_0000, 0x100);
    }
}

/// Reading back the little-endian bytes of a 32-bit integer yields the
/// integer.
pub proof fn lemma_u32_le_round_trip(v: u32)
    ensures
        spec_u32_from_le(spec_u32_le(v)) == v,
{
    let x = v as int;
    vstd::arithmetic::div_mod::lemma_fundamental_div_mod(x, 0x100);
    vstd::arithmetic::div_mod::lemma_div_denominator(x, 0x100, 0x100);
    vstd::arithmetic::div_mod::lemma_fundamental_div_mod(x / 0x100, 0x100);
    vstd::arithmetic::div_mod::lemma_div_denominator(x, 0x1_0000, 0x100);
    vstd::arithmetic::div_mod::lemma_fundamental_div_mod(x / 0x1_0000, 0x100);
    assert(x / 0x100_0000 < 0x100) by {
        vstd::arithmetic::div_mod::lemma_div_denominator(x, 0x100_0000, 0x100);
    }
}

/// Decoding a fixed-size field reads back exactly the bytes that were
/// appended for it.
pub proof fn lemma_fixed_round_trip(s: Seq<u8>, pos: int, bytes: Seq<u8>)
    requires
        begins_with(s, pos, bytes),
    ensures
        spec_decode_fixed(s, pos, bytes.len() as int) == Ok::<(Seq<u8>, int), TxAsmError>((
            bytes,
            pos + bytes.len(),
        )),
{
    assert(s.subrange(pos, pos + bytes.len()) =~= bytes);
}

/// A buffer that ends inside a concatenation either ends inside the first
/// part, or holds the first part whole and ends inside the second.
pub proof fn lemma_prefix_parts(s: Seq<u8>, pos: int, a: Seq<u8>, b: Seq<u8>)
    requires
        0 <= pos <= s.len(),
        s.len() <= pos + a.len() + b.len(),
        s.subrange(pos, s.len() as int) == (a + b).take(s.len() - pos),
    ensures
        pos + a.len() <= s.len() ==> begins_with(s, pos, a) && s.subrange(
            pos + a.len(),
            s.len() as int,
        ) == b.take(s.len() - pos - a.len()),
        s.len() < pos + a.len() ==> s.subrange(pos, s.len() as int) == a.take(s.len() - pos),
{
    let k = s.len() - pos;
    let kept = s.subrange(pos, s.len() as int);
    if pos + a.len() <= s.len() {
        assert(s.subrange(pos, pos + a.len()) =~= a) by {
            assert forall|j: int| 0 <= j < a.len() implies s.subrange(pos, pos + a.len())[j]
                == a[j] by {
                assert(s[pos + j] == kept[j]);
                assert(kept[j] == (a + b).take(k)[j]);
                assert((a + b)[j] == a[j]);
            }
        }
        assert(s.subrange(pos + a.len(), s.len() as int) =~= b.take(k - a.len())) by {
            assert forall|j: int| 0 <= j < k - a.len() implies #[trigger] s.subrange(
                pos + a.len(),
                s.len() as int,
            )[j] == b.take(k - a.len())[j] by {
                assert(s[pos + a.len() + j] == kept[a.len() + j]);
                assert(kept[a.len() + j] == (a + b).take(k)[a.len() + j]);
                assert((a + b)[a.len() + j] == b[j]);
            }
        }
    } else {
        assert(kept =~= a.take(k)) by {
            assert forall|j: int| 0 <= j < k implies kept[j] == a.take(k)[j] by {
                assert(kept[j] == (a + b).take(k)[j]);
                assert((a + b)[j] == a[j]);
            }
        }
    }
}

/// A buffer that ends inside an encoded variable-length integer makes the
/// decoder report truncated input, never a malformed field or a short
/// value.
pub proof fn lemma_varint_truncated(s: Seq<u8>, pos: int, v: u16)
    requires
        0 <= pos <= s.len(),
        s.len() < pos + spec_varint(v).len(),
        s.subrange(pos, s.len() as int) == spec_varint(v).take(s.len() - pos),
    ensures
        spec_decode_varint(s, pos) is Err,
        spec_decode_varint(s, pos)->Err_0 is TruncatedInput,
{
    let e = spec_varint(v);
    let k = s.len() - pos;
    let kept = s.subrange(pos, s.len() as int);
    if k >= 1 {
        assert(s[pos] == kept[0]);
        assert(kept[0] == e.take(k)[0]);
        assert(s[pos] == e[0]);
        assert(e.len() >= 2);
        assert(e[0] >= 0x80);
    }
    if k >= 2 {
        assert(s[pos + 1] == kept[1]);
        assert(kept[1] == e.take(k)[1]);
        assert(s[pos + 1] == e[1]);
        assert(e.len() == 3);
        assert(e[1] >= 0x80);
    }
}

/// A buffer that begins with a concatenation begins with its first part, and
/// with its second part right after the first.
pub proof fn lemma_begins_with_split(s: Seq<u8>, pos: int, a: Seq<u8>, b: Seq<u8>)
    requires
        begins_with(s, pos, a + b),
    ensures
        begins_with(s, pos, a),
        begins_with(s, pos + a.len(), b),
{
    let ab = a + b;
    assert(s.subrange(pos, pos + a.len()) =~= a) by {
        assert forall|i: int| 0 <= i < a.len() implies s.subrange(pos, pos + a.len())[i] == a[i] by {
            assert(s[pos + i] == s.subrange(pos, pos + ab.len())[i]);
            assert(ab[i] == a[i]);
        }
    }
    assert(s.subrange(pos + a.len(), pos + a.len() + b.len()) =~= b) by {
        assert forall|i: int| 0 <= i < b.len() implies s.subrange(
            pos + a.len(),
            pos + a.len() + b.len(),
        )[i] == b[i] by {
            assert(s[pos + a.len() + i] == s.subrange(pos, pos + ab.len())[a.len() + i]);
            assert(ab[a.len() + i] == b[i]);
        }
    }
}

} // verus!
