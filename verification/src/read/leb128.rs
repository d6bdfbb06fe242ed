//! Variable-length integers (LEB128).
//!
//! Each byte carries seven payload bits, least significant group first. The
//! high bit of a byte says that another byte follows. A 64-bit integer takes
//! at most ten bytes.

use crate::error::{ErrorKind, Needed, TracklibError};
use vstd::prelude::*;

verus! {

/// The largest number of bytes that a 64-bit integer may take.
pub const MAX_BYTES: usize = 10;

/// Number of leading bytes of `bytes` that have the continuation bit set.
pub open spec fn continuation_run(bytes: Seq<u8>) -> nat
    decreases bytes.len(),
{
    if bytes.len() == 0 || bytes[0] < 0x80 {
        0
    } else {
        1 + continuation_run(bytes.skip(1))
    }
}

/// `128^n`: the weight of the `n`-th seven-bit group.
pub open spec fn weight(n: nat) -> nat
    decreases n,
{
    if n == 0 {
        1
    } else {
        128 * weight((n - 1) as nat)
    }
}

/// The number whose base-128 digits, least significant first, are the low
/// seven bits of the first `n` bytes.
pub open spec fn base128(bytes: Seq<u8>, n: nat) -> nat
    recommends
        n <= bytes.len(),
    decreases n,
{
    if n == 0 {
        0
    } else {
        (bytes[0] % 128) as nat + 128 * base128(bytes.skip(1), (n - 1) as nat)
    }
}

/// Why no integer can be read from the front of `bytes`, if none can: the
/// first ten bytes all ask for more, or the input ends before a last byte.
pub open spec fn varint_error(bytes: Seq<u8>) -> Option<TracklibError> {
    let run = continuation_run(bytes);
    if run >= MAX_BYTES {
        Some(TracklibError::ParseError { error_kind: ErrorKind::TooLarge })
    } else if run >= bytes.len() {
        Some(TracklibError::ParseIncompleteError { needed: Needed::Size(1) })
    } else {
        None
    }
}

/// Number of bytes that the integer at the front of `bytes` takes.
pub open spec fn varint_len(bytes: Seq<u8>) -> int {
    (continuation_run(bytes) + 1) as int
}

/// The integer in `[-2^63, 2^63)` that is congruent to `x` modulo `2^64`.
pub open spec fn wrap_i64(x: int) -> i64 {
    let m = x % 0x1_0000_0000_0000_0000;
    if m >= 0x8000_0000_0000_0000 {
        (m - 0x1_0000_0000_0000_0000) as i64
    } else {
        m as i64
    }
}

/// The unsigned integer at the front of `bytes`. Bits beyond the 64th, which
/// only a tenth byte can hold, are dropped.
pub open spec fn unsigned_value(bytes: Seq<u8>) -> u64
    recommends
        varint_error(bytes) is None,
{
    (base128(bytes, varint_len(bytes) as nat) % 0x1_0000_0000_0000_0000) as u64
}

/// The signed integer at the front of `bytes`. With fewer than ten bytes the
/// second highest bit of the last byte is the sign and is extended upwards.
/// With ten bytes the lowest bit of the tenth byte is the 64th bit, and the
/// bits above it are dropped.
pub open spec fn signed_value(bytes: Seq<u8>) -> i64
    recommends
        varint_error(bytes) is None,
{
    let n = varint_len(bytes);
    let raw = base128(bytes, n as nat);
    if n < MAX_BYTES && bytes[n - 1] >= 0x40 {
        wrap_i64(raw - weight(n as nat))
    } else {
        wrap_i64(raw as int)
    }
}

/// Reads one unsigned LEB128 integer from the front of `data` with
/// `nom_leb128::leb128_u64` and returns it with the bytes that follow it.
///
/// Trusted: the result is as `varint_error`, `varint_len` and
/// `unsigned_value` say. The parser stops at the first byte without the
/// continuation bit, reports `TooLarge` when the tenth byte still has it,
/// and asks for one more byte when the input ends first.
#[verifier::external_body]
pub(crate) fn leb128_u64<'a>(data: &'a [u8]) -> (r: Result<(&'a [u8], u64), TracklibError>)
    ensures
        match varint_error(data@) {
            Some(e) => r == Err::<(&[u8], u64), TracklibError>(e),
            None => r matches Ok((rest, value)) && rest@ == data@.skip(varint_len(data@))
                && value == unsigned_value(data@),
        },
{
    match nom_leb128::leb128_u64::<&[u8], nom::error::Error<&[u8]>>(data) {
        Ok(parsed) => Ok(parsed),
        Err(nom::Err::Incomplete(nom::Needed::Size(n))) => Err(TracklibError::ParseIncompleteError { needed: Needed::Size(n.get()) }),
        Err(nom::Err::Incomplete(nom::Needed::Unknown)) => Err(TracklibError::ParseIncompleteError { needed: Needed::Unknown }),
        Err(nom::Err::Error(e)) | Err(nom::Err::Failure(e)) => Err(TracklibError::ParseError {
            error_kind: match e.code {
                nom::error::ErrorKind::Eof => ErrorKind::Eof,
                nom::error::ErrorKind::TooLarge => ErrorKind::TooLarge,
                _ => ErrorKind::Other,
            },
        }),
    }
}

/// Reads one signed LEB128 integer from the front of `data` with
/// `nom_leb128::leb128_i64` and returns it with the bytes that follow it.
///
/// Trusted: the result is as `varint_error`, `varint_len` and `signed_value`
/// say. Errors arise exactly as for the unsigned parser.
#[verifier::external_body]
pub(crate) fn leb128_i64<'a>(data: &'a [u8]) -> (r: Result<(&'a [u8], i64), TracklibError>)
    ensures
        match varint_error(data@) {
            Some(e) => r == Err::<(&[u8], i64), TracklibError>(e),
            None => r matches Ok((rest, value)) && rest@ == data@.skip(varint_len(data@))
                && value == signed_value(data@),
        },
{
    match nom_leb128::leb128_i64::<&[u8], nom::error::Error<&[u8]>>(data) {
        Ok(parsed) => Ok(parsed),
        Err(nom::Err::Incomplete(nom::Needed::Size(n))) => Err(TracklibError::ParseIncompleteError { needed: Needed::Size(n.get()) }),
        Err(nom::Err::Incomplete(nom::Needed::Unknown)) => Err(TracklibError::ParseIncompleteError { needed: Needed::Unknown }),
        Err(nom::Err::Error(e)) | Err(nom::Err::Failure(e)) => Err(TracklibError::ParseError {
            error_kind: match e.code {
                nom::error::ErrorKind::Eof => ErrorKind::Eof,
                nom::error::ErrorKind::TooLarge => ErrorKind::TooLarge,
                _ => ErrorKind::Other,
            },
        }),
    }
}

/// The shortest unsigned encoding of `v`: seven bits per byte, least
/// significant first, every byte but the last flagged.
pub open spec fn encode_unsigned(v: nat) -> Seq<u8>
    decreases v,
{
    if v < 128 {
        seq![v as u8]
    } else {
        seq![(v % 128 + 128) as u8] + encode_unsigned(v / 128)
    }
}

/// The shortest signed encoding of `v`: as the unsigned one, in two's
/// complement, ending with the first byte whose second highest bit is the
/// sign of all that is left.
pub open spec fn encode_signed(v: int) -> Seq<u8>
    decreases (if v >= 0 { v } else { -v }),
{
    let low = v % 128;
    let high = v / 128;
    if (high == 0 && low < 64) || (high == -1 && low >= 64) {
        seq![low as u8]
    } else {
        seq![(low + 128) as u8] + encode_signed(high)
    }
}

/// Whether `v` can be written in `7 * k` bits of two's complement.
pub open spec fn fits_signed(v: int, k: nat) -> bool {
    k >= 1 && -64 * weight((k - 1) as nat) <= v < 64 * weight((k - 1) as nat)
}

proof fn lemma_unsigned_bounded(v: nat, k: nat, tail: Seq<u8>)
    requires
        k >= 1,
        v < weight(k),
    ensures
        ({
            let code = encode_unsigned(v);
            &&& 1 <= code.len() <= k
            &&& continuation_run(code + tail) == code.len() - 1
            &&& base128(code + tail, code.len()) == v
        }),
    decreases k,
{
    let code = encode_unsigned(v);
    let s = code + tail;
    reveal_with_fuel(weight, 2);
    reveal_with_fuel(base128, 2);
    if v < 128 {
        assert(s[0] == v);
    } else {
        let rest = encode_unsigned(v / 128);
        assert(k >= 2);
        assert(weight(k) == 128 * weight((k - 1) as nat));
        lemma_unsigned_bounded(v / 128, (k - 1) as nat, tail);
        assert(s.skip(1) =~= rest + tail);
        assert(s[0] == v % 128 + 128);
        assert(code.len() == 1 + rest.len());
    }
}

/// Reading back the shortest encoding of an unsigned 64-bit integer, whatever
/// follows it, yields the integer and takes exactly the encoding's bytes.
pub proof fn lemma_unsigned_round_trip(v: u64, tail: Seq<u8>)
    ensures
        varint_error(encode_unsigned(v as nat) + tail) is None,
        varint_len(encode_unsigned(v as nat) + tail) == encode_unsigned(v as nat).len(),
        unsigned_value(encode_unsigned(v as nat) + tail) == v,
{
    reveal_with_fuel(weight, 11);
    assert(weight(10) == 0x40_0000_0000_0000_0000);
    lemma_unsigned_bounded(v as nat, 10, tail);
}

proof fn lemma_signed_bounded(v: int, k: nat, tail: Seq<u8>)
    requires
        fits_signed(v, k),
    ensures
        ({
            let code = encode_signed(v);
            let s = code + tail;
            let n = code.len() as int;
            &&& 1 <= n <= k
            &&& continuation_run(s) == n - 1
            &&& s[n - 1] < 0x80
            &&& base128(s, n as nat) - (if s[n - 1] >= 0x40 {
                weight(n as nat)
            } else {
                0
            }) == v
        }),
    decreases k,
{
    let code = encode_signed(v);
    let s = code + tail;
    let low = v % 128;
    let high = v / 128;
    reveal_with_fuel(weight, 2);
    reveal_with_fuel(base128, 2);
    if (high == 0 && low < 64) || (high == -1 && low >= 64) {
        assert(s[0] == low);
    } else {
        let rest = encode_signed(high);
        assert(k >= 2);
        assert(weight((k - 1) as nat) == 128 * weight((k - 2) as nat));
        lemma_signed_bounded(high, (k - 1) as nat, tail);
        let m = rest.len() as int;
        assert(s.skip(1) =~= rest + tail);
        assert(s[0] == low + 128);
        assert(code.len() == 1 + m);
        assert(s[m] == (rest + tail)[m - 1]);
        assert(weight((m + 1) as nat) == 128 * weight(m as nat));
    }
}

/// Reading back the shortest encoding of a signed 64-bit integer, whatever
/// follows it, yields the integer and takes exactly the encoding's bytes.
pub proof fn lemma_signed_round_trip(v: i64, tail: Seq<u8>)
    ensures
        varint_error(encode_signed(v as int) + tail) is None,
        varint_len(encode_signed(v as int) + tail) == encode_signed(v as int).len(),
        signed_value(encode_signed(v as int) + tail) == v,
{
    reveal_with_fuel(weight, 11);
    assert(weight(9) == 0x8000_0000_0000_0000);
    assert(weight(10) == 0x40_0000_0000_0000_0000);
    lemma_signed_bounded(v as int, 10, tail);
    let s = encode_signed(v as int) + tail;
    let n = varint_len(s);
    if n == 10 && s[n - 1] >= 0x40 {
        assert((v + 0x40_0000_0000_0000_0000) % 0x1_0000_0000_0000_0000 == (v as int)
            % 0x1_0000_0000_0000_0000);
    }
}

} // verus!
