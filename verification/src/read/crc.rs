//! CRC-32 as used to seal every section: polynomial `0x04C11DB7`, processed
//! most significant bit first, with the register starting at all ones and
//! inverted at the end.

use crate::error::{ErrorKind, TracklibError};
use vstd::prelude::*;

verus! {

/// Number of bytes that a stored checksum occupies.
pub const CRC_BYTES: usize = 4;

/// One step of the shift register: shift left by one bit and reduce by the
/// polynomial when a one falls out.
pub open spec fn crc32_shift(reg: u32) -> u32 {
    if reg & 0x8000_0000u32 != 0 {
        (reg << 1u32) ^ 0x04C1_1DB7u32
    } else {
        reg << 1u32
    }
}

/// `n` steps of the shift register.
pub open spec fn crc32_shifts(reg: u32, n: nat) -> u32
    decreases n,
{
    if n == 0 {
        reg
    } else {
        crc32_shift(crc32_shifts(reg, (n - 1) as nat))
    }
}

/// The register after one more byte of input has been fed into it.
pub open spec fn crc32_feed(reg: u32, byte: u8) -> u32 {
    crc32_shifts(reg ^ ((byte as u32) << 24u32), 8)
}

/// The register after all of `bytes` has been fed, starting from all ones.
pub open spec fn crc32_register(bytes: Seq<u8>) -> u32
    decreases bytes.len(),
{
    if bytes.len() == 0 {
        0xFFFF_FFFFu32
    } else {
        crc32_feed(crc32_register(bytes.drop_last()), bytes.last())
    }
}

/// The CRC-32 of `bytes`.
pub open spec fn crc32(bytes: Seq<u8>) -> u32 {
    crc32_register(bytes) ^ 0xFFFF_FFFFu32
}

/// Computes the CRC-32 of `data`.
pub fn checksum(data: &[u8]) -> (sum: u32)
    ensures
        sum == crc32(data@),
{
    let mut reg: u32 = 0xFFFF_FFFF;
    let mut i: usize = 0;
    while i < data.len()
        invariant
            i <= data.len(),
            reg == crc32_register(data@.take(i as int)),
        decreases data.len() - i,
    {
        let ghost before = reg;
        reg = reg ^ ((data[i] as u32) << 24);
        let mut bit: u8 = 0;
        while bit < 8
            invariant
                bit <= 8,
                reg == crc32_shifts(before ^ ((data@[i as int] as u32) << 24u32), bit as nat),
            decreases 8 - bit,
        {
            if reg & 0x8000_0000 != 0 {
                reg = (reg << 1) ^ 0x04C1_1DB7;
            } else {
                reg = reg << 1;
            }
            bit += 1;
        }
        proof {
            assert(data@.take(i + 1).drop_last() =~= data@.take(i as int));
        }
        i += 1;
    }
    proof {
        assert(data@.take(data.len() as int) =~= data@);
    }
    reg ^ 0xFFFF_FFFF
}

/// The part of a section that its checksum covers: all but the last four
/// bytes.
pub open spec fn section_payload(section: Seq<u8>) -> Seq<u8>
    recommends
        section.len() >= CRC_BYTES,
{
    section.take(section.len() - CRC_BYTES)
}

/// The checksum stored in the last four bytes of a section, least
/// significant byte first.
pub open spec fn stored_checksum(section: Seq<u8>) -> u32
    recommends
        section.len() >= CRC_BYTES,
{
    let n = section.len() as int;
    (section[n - 4] as int + 0x100 * (section[n - 3] as int) + 0x1_0000 * (section[n - 2] as int)
        + 0x100_0000 * (section[n - 1] as int)) as u32
}

/// What validating a section yields: its payload if the stored checksum is
/// the CRC-32 of the payload, and otherwise the reason for rejecting it. A
/// buffer too short to hold a checksum is reported as ending early; a
/// mismatch carries both the stored and the computed checksum.
pub open spec fn validated(section: Seq<u8>) -> Result<Seq<u8>, TracklibError> {
    if section.len() < CRC_BYTES {
        Err(TracklibError::ParseError { error_kind: ErrorKind::Eof })
    } else if stored_checksum(section) == crc32(section_payload(section)) {
        Ok(section_payload(section))
    } else {
        Err(
            TracklibError::CRC32Error {
                expected: stored_checksum(section),
                computed: crc32(section_payload(section)),
            },
        )
    }
}

/// The four bytes that store `sum`, least significant byte first.
pub open spec fn checksum_bytes(sum: u32) -> Seq<u8> {
    seq![
        (sum % 0x100) as u8,
        (sum / 0x100 % 0x100) as u8,
        (sum / 0x1_0000 % 0x100) as u8,
        (sum / 0x100_0000) as u8,
    ]
}

/// A payload followed by its checksum.
pub open spec fn sealed(payload: Seq<u8>) -> Seq<u8> {
    payload + checksum_bytes(crc32(payload))
}

/// Validating a payload followed by its own checksum yields that payload.
pub proof fn lemma_sealed_section_validates(payload: Seq<u8>)
    ensures
        validated(sealed(payload)) == Ok::<Seq<u8>, TracklibError>(payload),
{
    let section = sealed(payload);
    assert(section_payload(section) =~= payload);
    assert(stored_checksum(section) == crc32(payload));
}

/// The shift register loses nothing: different registers stay different
/// after a step.
proof fn lemma_shift_injective(a: u32, b: u32)
    by (bit_vector)
    requires
        a != b,
    ensures
        crc32_shift(a) != crc32_shift(b),
{
}

proof fn lemma_shifts_injective(a: u32, b: u32, n: nat)
    requires
        a != b,
    ensures
        crc32_shifts(a, n) != crc32_shifts(b, n),
    decreases n,
{
    if n > 0 {
        lemma_shifts_injective(a, b, (n - 1) as nat);
        lemma_shift_injective(crc32_shifts(a, (n - 1) as nat), crc32_shifts(b, (n - 1) as nat));
    }
}

/// Feeding a byte keeps different registers different, and feeding
/// different bytes makes equal registers different.
proof fn lemma_feed_injective(a: u32, x: u8, b: u32, y: u8)
    requires
        (a != b && x == y) || (a == b && x != y),
    ensures
        crc32_feed(a, x) != crc32_feed(b, y),
{
    assert(a ^ ((x as u32) << 24u32) != b ^ ((y as u32) << 24u32)) by (bit_vector)
        requires
            (a != b && x == y) || (a == b && x != y),
    ;
    lemma_shifts_injective(a ^ ((x as u32) << 24u32), b ^ ((y as u32) << 24u32), 8);
}

/// Two byte strings of one length that differ in exactly one byte have
/// different checksums.
pub proof fn lemma_changed_byte_changes_checksum(bytes: Seq<u8>, changed: Seq<u8>, at: int)
    requires
        changed.len() == bytes.len(),
        0 <= at < bytes.len(),
        changed[at] != bytes[at],
        forall|i: int| 0 <= i < bytes.len() && i != at ==> changed[i] == bytes[i],
    ensures
        crc32_register(changed) != crc32_register(bytes),
        crc32(changed) != crc32(bytes),
    decreases bytes.len(),
{
    if at == bytes.len() - 1 {
        assert(changed.drop_last() =~= bytes.drop_last());
        lemma_feed_injective(
            crc32_register(bytes.drop_last()),
            changed.last(),
            crc32_register(bytes.drop_last()),
            bytes.last(),
        );
    } else {
        lemma_changed_byte_changes_checksum(bytes.drop_last(), changed.drop_last(), at);
        lemma_feed_injective(
            crc32_register(changed.drop_last()),
            changed.last(),
            crc32_register(bytes.drop_last()),
            bytes.last(),
        );
    }
    let a = crc32_register(changed);
    let b = crc32_register(bytes);
    assert(a ^ 0xFFFF_FFFFu32 != b ^ 0xFFFF_FFFFu32) by (bit_vector)
        requires
            a != b,
    ;
}

/// Integrity: damage to any one byte of a valid section, be it a single
/// flipped bit or more, in the payload or in the stored checksum, is caught.
/// Validating the damaged section fails with a checksum mismatch.
pub proof fn lemma_damaged_byte_is_caught(section: Seq<u8>, damaged: Seq<u8>, at: int)
    requires
        validated(section) is Ok,
        damaged.len() == section.len(),
        0 <= at < section.len(),
        damaged[at] != section[at],
        forall|i: int| 0 <= i < section.len() && i != at ==> damaged[i] == section[i],
    ensures
        validated(damaged) is Err,
        validated(damaged)->Err_0 is CRC32Error,
{
    let n = section.len() as int;
    if at < n - CRC_BYTES {
        lemma_changed_byte_changes_checksum(section_payload(section), section_payload(damaged), at);
        assert(stored_checksum(damaged) == stored_checksum(section));
    } else {
        assert(section_payload(damaged) =~= section_payload(section));
        assert(stored_checksum(damaged) != stored_checksum(section));
    }
}

/// Reads the checksum stored in four bytes.
fn read_checksum(bytes: &[u8]) -> (sum: u32)
    requires
        bytes@.len() == CRC_BYTES,
    ensures
        sum == stored_checksum(bytes@),
{
    let b0: u32 = bytes[0] as u32;
    let b1: u32 = bytes[1] as u32;
    let b2: u32 = bytes[2] as u32;
    let b3: u32 = bytes[3] as u32;
    b0 + 0x100 * b1 + 0x1_0000 * b2 + 0x100_0000 * b3
}

/// The outcome of checking a payload against a stored checksum.
#[derive(Clone, Copy, Debug, PartialEq, Eq, Structural)]
pub enum CRC {
    /// The stored checksum is the payload's.
    Valid(u32),
    /// The stored checksum (`expected`) is not the payload's (`computed`).
    Invalid { expected: u32, computed: u32 },
}

impl CRC {
    /// What checking `payload` against the checksum in `stored` yields.
    pub open spec fn of(payload: Seq<u8>, stored: Seq<u8>) -> CRC
        recommends
            stored.len() == CRC_BYTES,
    {
        if stored_checksum(stored) == crc32(payload) {
            CRC::Valid(crc32(payload))
        } else {
            CRC::Invalid { expected: stored_checksum(stored), computed: crc32(payload) }
        }
    }

    /// Checks `data_to_check` against the checksum stored in `stored`.
    pub fn check(data_to_check: &[u8], stored: &[u8]) -> (crc: CRC)
        requires
            stored@.len() == CRC_BYTES,
        ensures
            crc == CRC::of(data_to_check@, stored@),
    {
        let expected = read_checksum(stored);
        let computed = checksum(data_to_check);
        if expected == computed {
            CRC::Valid(computed)
        } else {
            CRC::Invalid { expected, computed }
        }
    }
}

} // verus!
