//! The variable-length integer encoding used for state value lengths: seven
//! bits per byte, least significant group first, with the high bit of a byte
//! marking that another byte follows. At most three bytes are used, so values
//! up to `0x1FFFFF` can be encoded.
use vstd::prelude::*;

verus! {

/// The largest value that `write_int` accepts.
pub const MAX_COMPACT_INT: u64 = 0x1FFFFF;

/// Why encoding or decoding a compact integer failed.
#[derive(Debug, Clone, Copy, PartialEq, Eq, Structural)]
pub enum IntCodecError {
    /// The value is above `MAX_COMPACT_INT` ("too many entries").
    TooLarge,
    /// The input ended before the encoding did.
    UnexpectedEof,
    /// The third byte had its continuation bit set: a reserved range.
    ReservedRange,
}

/// The bytes that encode `x`, for `x <= MAX_COMPACT_INT`.
pub open spec fn encode_int(x: u64) -> Seq<u8> {
    if x <= 0x7F {
        seq![x as u8]
    } else if x <= 0x3FFF {
        seq![(0x80 + x % 0x80) as u8, (x / 0x80) as u8]
    } else {
        seq![(0x80 + x % 0x80) as u8, (0x80 + (x / 0x80) % 0x80) as u8, (x / 0x4000) as u8]
    }
}

/// The number of bytes `int_size` reports for `x` (four for values that
/// cannot be encoded).
pub open spec fn spec_int_size(x: u64) -> nat {
    if x <= 0x7F {
        1
    } else if x <= 0x3FFF {
        2
    } else if x <= 0x1FFFFF {
        3
    } else {
        4
    }
}

/// What reading a compact integer from the front of `s` gives: the value and
/// the number of bytes consumed, or the error.
pub open spec fn decode_int(s: Seq<u8>) -> Result<(u64, nat), IntCodecError> {
    if s.len() < 1 {
        Err(IntCodecError::UnexpectedEof)
    } else if s[0] < 0x80 {
        Ok((s[0] as u64, 1))
    } else if s.len() < 2 {
        Err(IntCodecError::UnexpectedEof)
    } else if s[1] < 0x80 {
        Ok((((s[0] - 0x80) + s[1] * 0x80) as u64, 2))
    } else if s.len() < 3 {
        Err(IntCodecError::UnexpectedEof)
    } else if s[2] < 0x80 {
        Ok((((s[0] - 0x80) + (s[1] - 0x80) * 0x80 + s[2] * 0x4000) as u64, 3))
    } else {
        Err(IntCodecError::ReservedRange)
    }
}

/// Appends the encoding of `value` to `writer`; fails, leaving `writer`
/// unchanged, when `value` is above `MAX_COMPACT_INT`.
pub fn write_int(writer: &mut Vec<u8>, value: u64) -> (res: Result<(), IntCodecError>)
    ensures
        value <= MAX_COMPACT_INT ==> res is Ok && final(writer)@ == old(writer)@ + encode_int(value),
        value > MAX_COMPACT_INT ==> res == Err::<(), IntCodecError>(IntCodecError::TooLarge)
            && final(writer)@ == old(writer)@,
{
    if value <= 0x7F {
        writer.push(value as u8);
        Ok(())
    } else if value <= 0x3FFF {
        writer.push((0x80 + value % 0x80) as u8);
        writer.push((value / 0x80) as u8);
        Ok(())
    } else if value <= 0x1FFFFF {
        writer.push((0x80 + value % 0x80) as u8);
        writer.push((0x80 + (value / 0x80) % 0x80) as u8);
        writer.push((value / 0x4000) as u8);
        Ok(())
    } else {
        Err(IntCodecError::TooLarge)
    }
}

/// The number of bytes the encoding of `value` takes.
pub fn int_size(value: u64) -> (res: usize)
    ensures
        res == spec_int_size(value),
        value <= MAX_COMPACT_INT ==> res == encode_int(value).len(),
{
    if value <= 0x7F {
        1
    } else if value <= 0x3FFF {
        2
    } else if value <= 0x1FFFFF {
        3
    } else {
        4
    }
}

/// Reads a compact integer from the front of `bytes`, returning the value and
/// the number of bytes it took.
pub fn read_int(bytes: &[u8]) -> (res: Result<(u64, usize), IntCodecError>)
    ensures
        match (res, decode_int(bytes@)) {
            (Ok((v, n)), Ok((sv, sn))) => v == sv && n == sn,
            (Err(e), Err(se)) => e == se,
            _ => false,
        },
{
    if bytes.len() < 1 {
        return Err(IntCodecError::UnexpectedEof);
    }
    let b0 = bytes[0];
    if b0 < 0x80 {
        return Ok((b0 as u64, 1));
    }
    if bytes.len() < 2 {
        return Err(IntCodecError::UnexpectedEof);
    }
    let b1 = bytes[1];
    if b1 < 0x80 {
        return Ok(((b0 - 0x80) as u64 + (b1 as u64) * 0x80, 2));
    }
    if bytes.len() < 3 {
        return Err(IntCodecError::UnexpectedEof);
    }
    let b2 = bytes[2];
    if b2 < 0x80 {
        Ok(((b0 - 0x80) as u64 + ((b1 - 0x80) as u64) * 0x80 + (b2 as u64) * 0x4000, 3))
    } else {
        Err(IntCodecError::ReservedRange)
    }
}

/// Reading back what `write_int` wrote gives the value and consumes exactly
/// its encoding, whatever bytes follow.
pub proof fn lemma_int_roundtrip(x: u64, rest: Seq<u8>)
    requires
        x <= MAX_COMPACT_INT,
    ensures
        decode_int(encode_int(x) + rest) == Ok::<(u64, nat), IntCodecError>((x, spec_int_size(x))),
        encode_int(x).len() == spec_int_size(x),
{
    let s = encode_int(x) + rest;
    if x <= 0x7F {
        assert(s[0] == x as u8);
    } else if x <= 0x3FFF {
        assert(s[0] == (0x80 + x % 0x80) as u8);
        assert(s[1] == (x / 0x80) as u8);
    } else {
        assert(s[0] == (0x80 + x % 0x80) as u8);
        assert(s[1] == (0x80 + (x / 0x80) % 0x80) as u8);
        assert(s[2] == (x / 0x4000) as u8);
        assert((x / 0x80) % 0x80 + (x / 0x4000) * 0x80 == x / 0x80) by (nonlinear_arith)
            requires x <= 0x1FFFFF;
    }
}

/// The encoding is one-to-one: distinct encodable values have distinct
/// encodings.
pub proof fn lemma_encode_injective(x: u64, y: u64)
    requires
        x <= MAX_COMPACT_INT,
        y <= MAX_COMPACT_INT,
        encode_int(x) == encode_int(y),
    ensures
        x == y,
{
    lemma_int_roundtrip(x, Seq::empty());
    lemma_int_roundtrip(y, Seq::empty());
    assert(encode_int(x) + Seq::<u8>::empty() == encode_int(x));
    assert(encode_int(y) + Seq::<u8>::empty() == encode_int(y));
}

} // verus!
