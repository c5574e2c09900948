//! The compact integer encoding used for lengths and indices in state values and programs.
use vstd::prelude::*;
use crate::versioned::CodecError;

verus! {

/// The largest integer the compact encoding holds.
pub const MAX_COMPACT_INT: u64 = 0x1FFFFF;

/// The compact encoding of `v`: seven bits per byte, low bits first, the high bit
/// of each byte but the last set; one to three bytes.
pub open spec fn compact_bytes(v: u64) -> Seq<u8> {
    if v < 0x80 {
        seq![v as u8]
    } else if v < 0x4000 {
        seq![(0x80 + v % 0x80) as u8, (v / 0x80) as u8]
    } else {
        seq![(0x80 + v % 0x80) as u8, (0x80 + (v / 0x80) % 0x80) as u8, (v / 0x4000) as u8]
    }
}

/// What reading a compact integer from the front of `data` gives: the integer and the bytes used.
pub open spec fn spec_read_int(data: Seq<u8>) -> Option<(u64, nat)> {
    if data.len() < 1 {
        None
    } else if data[0] < 0x80 {
        Some((data[0] as u64, 1))
    } else if data.len() < 2 {
        None
    } else if data[1] < 0x80 {
        Some((((data[0] % 0x80) as u64 + (data[1] as u64) * 0x80) as u64, 2))
    } else if data.len() < 3 {
        None
    } else if data[2] < 0x80 {
        Some(
            (
                ((data[0] % 0x80) as u64 + ((data[1] % 0x80) as u64) * 0x80 + (data[2] as u64)
                    * 0x4000) as u64,
                3,
            ),
        )
    } else {
        None
    }
}

/// Why reading a compact integer from `data` fails: a third byte with its high
/// bit set is invalid data; otherwise the bytes ran out.
pub open spec fn read_int_error(data: Seq<u8>) -> CodecError {
    if data.len() >= 3 && data[0] >= 0x80 && data[1] >= 0x80 && data[2] >= 0x80 {
        CodecError::InvalidData
    } else {
        CodecError::UnexpectedEndOfInput
    }
}

/// The number of bytes of the compact encoding of `v`; 4 past the largest encodable integer.
pub open spec fn spec_int_size(v: u64) -> nat {
    if v <= 0x7F {
        1
    } else if v <= 0x3FFF {
        2
    } else if v <= 0x1FFFFF {
        3
    } else {
        4
    }
}

/// Appends the compact encoding of `int` to `writer`; integers above `0x1FFFFF` are refused.
pub fn write_int(writer: &mut Vec<u8>, x: u64) -> (r: Result<(), CodecError>)
    ensures
        (r is Ok) == (x <= MAX_COMPACT_INT),
        r is Ok ==> final(writer)@ == old(writer)@ + compact_bytes(x),
        r is Err ==> r == Err::<(), CodecError>(CodecError::InvalidData) && final(writer)@ == old(
            writer,
        )@,
{
    if x <= 0x7F {
        writer.push(x as u8);
        Ok(())
    } else if x <= 0x3FFF {
        writer.push(0x80u8 + (x % 0x80) as u8);
        writer.push((x / 0x80) as u8);
        Ok(())
    } else if x <= 0x1FFFFF {
        writer.push(0x80u8 + (x % 0x80) as u8);
        writer.push(0x80u8 + ((x / 0x80) % 0x80) as u8);
        writer.push((x / 0x4000) as u8);
        Ok(())
    } else {
        Err(CodecError::InvalidData)
    }
}

/// The number of bytes `write_int` writes for `x` (4 for integers it refuses).
pub fn int_size(x: u64) -> (n: usize)
    ensures
        n == spec_int_size(x),
{
    if x <= 0x7F {
        1
    } else if x <= 0x3FFF {
        2
    } else if x <= 0x1FFFFF {
        3
    } else {
        4
    }
}

/// Reads a compact integer from `data` at `pos`: bytes with the high bit set are
/// followed by more; a third byte with its high bit set is reserved.
pub fn read_int(data: &[u8], pos: &mut usize) -> (r: Result<u64, CodecError>)
    requires
        *old(pos) <= data@.len(),
    ensures
        *final(pos) <= data@.len(),
        match spec_read_int(data@.skip(*old(pos) as int)) {
            Some((v, n)) => r == Ok::<u64, CodecError>(v) && *final(pos) == *old(pos) + n,
            None => r == Err::<u64, CodecError>(read_int_error(data@.skip(*old(pos) as int))),
        },
{
    if data.len() - *pos < 1 {
        return Err(CodecError::UnexpectedEndOfInput);
    }
    let b0 = data[*pos];
    if b0 < 0x80 {
        *pos = *pos + 1;
        return Ok(b0 as u64);
    }
    if data.len() - *pos < 2 {
        return Err(CodecError::UnexpectedEndOfInput);
    }
    let b1 = data[*pos + 1];
    if b1 < 0x80 {
        let v: u64 = (b0 % 0x80) as u64 + (b1 as u64) * 0x80;
        *pos = *pos + 2;
        return Ok(v);
    }
    if data.len() - *pos < 3 {
        return Err(CodecError::UnexpectedEndOfInput);
    }
    let b2 = data[*pos + 2];
    if b2 < 0x80 {
        let v: u64 = (b0 % 0x80) as u64 + ((b1 % 0x80) as u64) * 0x80 + (b2 as u64) * 0x4000;
        *pos = *pos + 3;
        Ok(v)
    } else {
        Err(CodecError::InvalidData)
    }
}

/// Reading back the compact encoding of an encodable integer gives the integer,
/// whatever follows, and uses exactly the bytes written.
pub proof fn law_int_roundtrip(v: u64, rest: Seq<u8>)
    requires
        v <= MAX_COMPACT_INT,
    ensures
        spec_read_int(compact_bytes(v) + rest) == Some((v, compact_bytes(v).len())),
{
    let s = compact_bytes(v) + rest;
    if v < 0x80 {
    } else if v < 0x4000 {
        assert(v == v % 0x80 + (v / 0x80) * 0x80);
        assert((0x80 + v % 0x80) as u8 % 0x80 == v % 0x80);
    } else {
        assert(v == v % 0x80 + ((v / 0x80) % 0x80) * 0x80 + (v / 0x4000) * 0x4000);
        assert((0x80 + v % 0x80) as u8 % 0x80 == v % 0x80);
        assert((0x80 + (v / 0x80) % 0x80) as u8 % 0x80 == (v / 0x80) % 0x80);
    }
}

/// `int_size` is the length of the compact encoding, for every encodable integer.
pub proof fn law_int_size(v: u64)
    requires
        v <= MAX_COMPACT_INT,
    ensures
        spec_int_size(v) == compact_bytes(v).len(),
{
}

} // verus!
