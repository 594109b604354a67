//! Wire-level primitives: the error type, safe narrowing of sizes into
//! fixed-width wire integers, big-endian byte layouts, the C-string writer,
//! and the length-prefixed frame writer.

use vstd::prelude::*;
use vstd::string::StringSliceAdditionalSpecFns;

verus! {

/// Why an encode call failed.
#[derive(Clone, Copy, Debug, PartialEq, Eq, Structural)]
pub enum EncodeError {
    /// A textual field's byte representation contains a zero byte.
    EmbeddedNull,
    /// A count or length exceeds the capacity of its wire-format integer width.
    ValueTooLarge,
}

/// Narrows a size to a 16-bit unsigned wire count, failing on overflow
/// instead of truncating.
pub fn u16_from_usize(x: usize) -> (r: Result<u16, EncodeError>)
    ensures
        x <= u16::MAX ==> r == Ok::<u16, EncodeError>(x as u16),
        x > u16::MAX ==> r == Err::<u16, EncodeError>(EncodeError::ValueTooLarge),
{
    if x > 0xffff {
        Err(EncodeError::ValueTooLarge)
    } else {
        Ok(x as u16)
    }
}

/// Narrows a size to a 32-bit signed wire length, failing on overflow
/// instead of truncating.
pub fn i32_from_usize(x: usize) -> (r: Result<i32, EncodeError>)
    ensures
        x <= i32::MAX ==> r == Ok::<i32, EncodeError>(x as i32),
        x > i32::MAX ==> r == Err::<i32, EncodeError>(EncodeError::ValueTooLarge),
{
    if x > 0x7fff_ffff {
        Err(EncodeError::ValueTooLarge)
    } else {
        Ok(x as i32)
    }
}

/// True when the byte sequence contains a zero byte anywhere.
pub open spec fn has_zero(s: Seq<u8>) -> bool {
    exists|i: int| 0 <= i < s.len() && s[i] == 0u8
}

/// The wire form of a textual field: its bytes followed by one zero byte.
pub open spec fn spec_cstr(s: Seq<u8>) -> Seq<u8> {
    s + seq![0u8]
}

/// Big-endian byte layout of a 16-bit unsigned integer.
pub open spec fn spec_u16_be(x: u16) -> Seq<u8> {
    seq![((x >> 8) & 0xff) as u8, (x & 0xff) as u8]
}

/// Big-endian byte layout of a 32-bit unsigned integer.
pub open spec fn spec_u32_be(x: u32) -> Seq<u8> {
    seq![
        ((x >> 24) & 0xff) as u8,
        ((x >> 16) & 0xff) as u8,
        ((x >> 8) & 0xff) as u8,
        (x & 0xff) as u8,
    ]
}

/// The two's-complement 16-bit representation of a signed value.
pub open spec fn u16_of_i16(x: i16) -> u16 {
    if x >= 0 {
        x as u16
    } else {
        (x + 0x1_0000) as u16
    }
}

/// The two's-complement 32-bit representation of a signed value.
pub open spec fn u32_of_i32(x: i32) -> u32 {
    if x >= 0 {
        x as u32
    } else {
        (x + 0x1_0000_0000) as u32
    }
}

/// Big-endian byte layout of a 16-bit signed integer (two's complement).
pub open spec fn spec_i16_be(x: i16) -> Seq<u8> {
    spec_u16_be(u16_of_i16(x))
}

/// Big-endian byte layout of a 32-bit signed integer (two's complement).
pub open spec fn spec_i32_be(x: i32) -> Seq<u8> {
    spec_u32_be(u32_of_i32(x))
}

/// The 32-bit unsigned value that a 4-byte sequence denotes when read
/// big-endian.
pub open spec fn spec_u32_from_be(s: Seq<u8>) -> u32
    recommends
        s.len() == 4,
{
    ((s[0] as u32) << 24) | ((s[1] as u32) << 16) | ((s[2] as u32) << 8) | (s[3] as u32)
}

/// Reading a big-endian 32-bit layout back gives the value written.
pub proof fn lemma_u32_be_roundtrip(x: u32)
    ensures
        spec_u32_from_be(spec_u32_be(x)) == x,
{
    let s = spec_u32_be(x);
    assert({
        &&& (x >> 24) & 0xff < 256
        &&& (x >> 16) & 0xff < 256
        &&& (x >> 8) & 0xff < 256
        &&& x & 0xff < 256
    }) by (bit_vector);
    let b0 = ((x >> 24) & 0xff) as u8;
    let b1 = ((x >> 16) & 0xff) as u8;
    let b2 = ((x >> 8) & 0xff) as u8;
    let b3 = (x & 0xff) as u8;
    assert(((((x >> 24) & 0xff) as u8 as u32) << 24) | ((((x >> 16) & 0xff) as u8 as u32) << 16)
        | ((((x >> 8) & 0xff) as u8 as u32) << 8) | ((x & 0xff) as u8 as u32) == x)
        by (bit_vector);
    assert(spec_u32_from_be(s) == (((b0 as u32) << 24) | ((b1 as u32) << 16) | ((b2 as u32) << 8)
        | (b3 as u32)));
}

/// Appends the bytes of a slice, leaving everything before them in place.
pub fn push_bytes(buf: &mut Vec<u8>, s: &[u8])
    ensures
        final(buf)@ == old(buf)@ + s@,
{
    let ghost buf0 = buf@;
    let mut i: usize = 0;
    while i < s.len()
        invariant
            i <= s@.len(),
            buf@ == buf0 + s@.subrange(0, i as int),
        decreases s@.len() - i,
    {
        let b = s[i];
        buf.push(b);
        i = i + 1;
        proof {
            assert(buf@ =~= buf0 + s@.subrange(0, i as int));
        }
    }
    proof {
        assert(buf@ =~= buf0 + s@);
    }
}

/// Appends a 16-bit unsigned integer, big-endian.
pub fn put_u16_be(buf: &mut Vec<u8>, x: u16)
    ensures
        final(buf)@ == old(buf)@ + spec_u16_be(x),
{
    proof {
        assert((x >> 8) & 0xff < 256 && x & 0xff < 256) by (bit_vector);
    }
    buf.push(((x >> 8) & 0xff) as u8);
    buf.push((x & 0xff) as u8);
    proof {
        assert(buf@ =~= old(buf)@ + spec_u16_be(x));
    }
}

/// Appends a 32-bit unsigned integer, big-endian.
pub fn put_u32_be(buf: &mut Vec<u8>, x: u32)
    ensures
        final(buf)@ == old(buf)@ + spec_u32_be(x),
{
    proof {
        assert({
            &&& (x >> 24) & 0xff < 256
            &&& (x >> 16) & 0xff < 256
            &&& (x >> 8) & 0xff < 256
            &&& x & 0xff < 256
        }) by (bit_vector);
    }
    buf.push(((x >> 24) & 0xff) as u8);
    buf.push(((x >> 16) & 0xff) as u8);
    buf.push(((x >> 8) & 0xff) as u8);
    buf.push((x & 0xff) as u8);
    proof {
        assert(buf@ =~= old(buf)@ + spec_u32_be(x));
    }
}

/// Appends a 16-bit signed integer, big-endian two's complement.
pub fn put_i16_be(buf: &mut Vec<u8>, x: i16)
    ensures
        final(buf)@ == old(buf)@ + spec_i16_be(x),
{
    let u: u16 = if x >= 0 {
        x as u16
    } else {
        ((x as i32) + 0x1_0000) as u16
    };
    put_u16_be(buf, u);
}

/// Appends a 32-bit signed integer, big-endian two's complement.
pub fn put_i32_be(buf: &mut Vec<u8>, x: i32)
    ensures
        final(buf)@ == old(buf)@ + spec_i32_be(x),
{
    let u: u32 = if x >= 0 {
        x as u32
    } else {
        ((x as i64) + 0x1_0000_0000i64) as u32
    };
    put_u32_be(buf, u);
}

/// True when the slice holds a zero byte.
pub fn contains_zero(s: &[u8]) -> (r: bool)
    ensures
        r == has_zero(s@),
{
    let mut i: usize = 0;
    while i < s.len()
        invariant
            i <= s@.len(),
            forall|j: int| 0 <= j < i ==> s@[j] != 0u8,
        decreases s@.len() - i,
    {
        if s[i] == 0 {
            return true;
        }
        i = i + 1;
    }
    false
}

/// Appends a textual field as its bytes plus one terminating zero byte.
/// Fails, leaving the buffer unmodified, when the text already contains a
/// zero byte: such a field would be ambiguous on the wire.
pub fn write_cstr(buf: &mut Vec<u8>, s: &str) -> (r: Result<(), EncodeError>)
    ensures
        !has_zero(s.spec_bytes()) ==> r == Ok::<(), EncodeError>(()) && final(buf)@ == old(buf)@
            + spec_cstr(s.spec_bytes()),
        has_zero(s.spec_bytes()) ==> r == Err::<(), EncodeError>(EncodeError::EmbeddedNull)
            && final(buf)@ == old(buf)@,
{
    let bytes = s.as_bytes();
    if contains_zero(bytes) {
        return Err(EncodeError::EmbeddedNull);
    }
    push_bytes(buf, bytes);
    buf.push(0);
    proof {
        assert(buf@ =~= old(buf)@ + spec_cstr(s.spec_bytes()));
    }
    Ok(())
}

/// One complete frame: the tag (empty for the one untagged message kind),
/// then the length field counting itself plus the payload, then the payload.
pub open spec fn spec_frame(tag: Seq<u8>, payload: Seq<u8>) -> Seq<u8>
    recommends
        payload.len() + 4 <= i32::MAX,
{
    tag + spec_u32_be((payload.len() + 4) as u32) + payload
}

/// The length field of every frame, read big-endian, equals the byte count
/// from the start of the length field to the end of the frame — the tag
/// byte, when present, is not counted.
pub proof fn lemma_frame_length(tag: Seq<u8>, payload: Seq<u8>)
    requires
        tag.len() <= 1,
        payload.len() + 4 <= i32::MAX,
    ensures
        spec_frame(tag, payload).len() == tag.len() + 4 + payload.len(),
        spec_u32_from_be(spec_frame(tag, payload).subrange(tag.len() as int, tag.len() as int + 4))
            == spec_frame(tag, payload).len() - tag.len(),
{
    let n = (payload.len() + 4) as u32;
    assert(spec_frame(tag, payload).subrange(tag.len() as int, tag.len() as int + 4)
        =~= spec_u32_be(n));
    lemma_u32_be_roundtrip(n);
}

/// Reserves the 4-byte length field of a new frame, returning its position.
pub fn begin_frame(buf: &mut Vec<u8>) -> (base: usize)
    ensures
        base == old(buf)@.len(),
        final(buf)@ == old(buf)@ + seq![0u8, 0u8, 0u8, 0u8],
{
    let base = buf.len();
    buf.push(0);
    buf.push(0);
    buf.push(0);
    buf.push(0);
    proof {
        assert(buf@ =~= old(buf)@ + seq![0u8, 0u8, 0u8, 0u8]);
    }
    base
}

/// Fills a frame's reserved length field with the big-endian count of the
/// bytes written since `begin_frame`, the 4-byte field itself included.
/// Fails, leaving the buffer unmodified, when that count does not fit a
/// 32-bit signed integer.
pub fn end_frame(buf: &mut Vec<u8>, base: usize) -> (r: Result<(), EncodeError>)
    requires
        base + 4 <= old(buf)@.len(),
    ensures
        old(buf)@.len() - base <= i32::MAX ==> r == Ok::<(), EncodeError>(()) && final(buf)@
            == old(buf)@.subrange(0, base as int)
            + spec_u32_be((old(buf)@.len() - base) as u32)
            + old(buf)@.subrange(base + 4, old(buf)@.len() as int),
        old(buf)@.len() - base > i32::MAX ==> r == Err::<(), EncodeError>(
            EncodeError::ValueTooLarge,
        ) && final(buf)@ == old(buf)@,
{
    let size = match i32_from_usize(buf.len() - base) {
        Ok(size) => size,
        Err(e) => {
            return Err(e);
        },
    };
    let u: u32 = size as u32;
    proof {
        assert({
            &&& (u >> 24) & 0xff < 256
            &&& (u >> 16) & 0xff < 256
            &&& (u >> 8) & 0xff < 256
            &&& u & 0xff < 256
        }) by (bit_vector);
    }
    buf[base] = ((u >> 24) & 0xff) as u8;
    buf[base + 1] = ((u >> 16) & 0xff) as u8;
    buf[base + 2] = ((u >> 8) & 0xff) as u8;
    buf[base + 3] = (u & 0xff) as u8;
    proof {
        assert(buf@ =~= old(buf)@.subrange(0, base as int)
            + spec_u32_be((old(buf)@.len() - base) as u32)
            + old(buf)@.subrange(base + 4, old(buf)@.len() as int));
    }
    Ok(())
}

/// Splits the buffer shape every encoder reaches just before `end_frame`
/// back into its parts: what stood before the frame, the reserved length
/// field, and the payload written after it.
pub proof fn lemma_frame_shape(prefix: Seq<u8>, payload: Seq<u8>)
    ensures
        (prefix + seq![0u8, 0u8, 0u8, 0u8] + payload).len() == prefix.len() + 4 + payload.len(),
        (prefix + seq![0u8, 0u8, 0u8, 0u8] + payload).subrange(0, prefix.len() as int) == prefix,
        (prefix + seq![0u8, 0u8, 0u8, 0u8] + payload).subrange(
            prefix.len() as int,
            prefix.len() as int + 4,
        ) == seq![0u8, 0u8, 0u8, 0u8],
        (prefix + seq![0u8, 0u8, 0u8, 0u8] + payload).subrange(
            prefix.len() as int + 4,
            prefix.len() as int + 4 + payload.len(),
        ) == payload,
{
    let whole = prefix + seq![0u8, 0u8, 0u8, 0u8] + payload;
    assert(whole.subrange(0, prefix.len() as int) =~= prefix);
    assert(whole.subrange(prefix.len() as int, prefix.len() as int + 4) =~= seq![0u8, 0u8, 0u8, 0u8]);
    assert(whole.subrange(prefix.len() as int + 4, prefix.len() as int + 4 + payload.len()) =~= payload);
}

} // verus!
