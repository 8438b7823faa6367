//! Big-endian 32-bit integers as they appear on the wire.

use vstd::prelude::*;

verus! {

/// The value of four bytes read as a big-endian unsigned integer.
pub open spec fn be_u32(bytes: Seq<u8>) -> nat
    recommends
        bytes.len() == 4,
{
    (bytes[0] as nat) * 0x100_0000 + (bytes[1] as nat) * 0x1_0000 + (bytes[2] as nat) * 0x100
        + (bytes[3] as nat)
}

/// The four bytes that spell `value` in big-endian order.
pub open spec fn be_u32_bytes(value: nat) -> Seq<u8>
    recommends
        value <= u32::MAX,
{
    seq![
        ((value / 0x100_0000) % 0x100) as u8,
        ((value / 0x1_0000) % 0x100) as u8,
        ((value / 0x100) % 0x100) as u8,
        (value % 0x100) as u8,
    ]
}

/// Four base-256 digits, most significant first, are recovered from the
/// value they spell by division and remainder.
proof fn lemma_digits_of_value(d0: int, d1: int, d2: int, d3: int)
    requires
        0 <= d0 < 0x100,
        0 <= d1 < 0x100,
        0 <= d2 < 0x100,
        0 <= d3 < 0x100,
    ensures
        ({
            let value = d0 * 0x100_0000 + d1 * 0x1_0000 + d2 * 0x100 + d3;
            &&& 0 <= value <= u32::MAX
            &&& (value / 0x100_0000) % 0x100 == d0
            &&& (value / 0x1_0000) % 0x100 == d1
            &&& (value / 0x100) % 0x100 == d2
            &&& value % 0x100 == d3
        }),
{
    let value = d0 * 0x100_0000 + d1 * 0x1_0000 + d2 * 0x100 + d3;
    assert(value / 0x100_0000 == d0);
    assert(value / 0x1_0000 == d0 * 0x100 + d1);
    assert(value / 0x100 == d0 * 0x1_0000 + d1 * 0x100 + d2);
}

/// A value below 2^32 is spelled by its four base-256 digits.
proof fn lemma_value_of_digits(value: int)
    requires
        0 <= value <= u32::MAX,
    ensures
        value == ((value / 0x100_0000) % 0x100) * 0x100_0000 + ((value / 0x1_0000) % 0x100)
            * 0x1_0000 + ((value / 0x100) % 0x100) * 0x100 + value % 0x100,
        0 <= (value / 0x100_0000) % 0x100 < 0x100,
        0 <= (value / 0x1_0000) % 0x100 < 0x100,
        0 <= (value / 0x100) % 0x100 < 0x100,
        0 <= value % 0x100 < 0x100,
{
    let high = value / 0x100_0000;
    let upper = value / 0x1_0000;
    let lower = value / 0x100;
    assert(high < 0x100);
    assert(high == upper / 0x100);
    assert(upper == lower / 0x100);
}

/// Spelling a 32-bit value and reading it back gives the value.
pub proof fn lemma_be_u32_of_bytes(value: nat)
    requires
        value <= u32::MAX,
    ensures
        be_u32_bytes(value).len() == 4,
        be_u32(be_u32_bytes(value)) == value,
{
    lemma_value_of_digits(value as int);
}

/// Reading four bytes and spelling the value gives the bytes back.
pub proof fn lemma_be_u32_bytes_of_value(bytes: Seq<u8>)
    requires
        bytes.len() == 4,
    ensures
        be_u32(bytes) <= u32::MAX,
        be_u32_bytes(be_u32(bytes)) == bytes,
{
    lemma_digits_of_value(bytes[0] as int, bytes[1] as int, bytes[2] as int, bytes[3] as int);
    let spelled = be_u32_bytes(be_u32(bytes));
    assert(spelled[0] == bytes[0]);
    assert(spelled[1] == bytes[1]);
    assert(spelled[2] == bytes[2]);
    assert(spelled[3] == bytes[3]);
    assert(spelled =~= bytes);
}

/// Reads the big-endian 32-bit integer that starts at `at`.
pub fn read_be_u32(bytes: &[u8], at: usize) -> (value: u32)
    requires
        at + 4 <= bytes@.len(),
    ensures
        value == be_u32(bytes@.subrange(at as int, at + 4)),
{
    let b0: u32 = bytes[at] as u32;
    let b1: u32 = bytes[at + 1] as u32;
    let b2: u32 = bytes[at + 2] as u32;
    let b3: u32 = bytes[at + 3] as u32;
    b0 * 0x100_0000 + b1 * 0x1_0000 + b2 * 0x100 + b3
}

} // verus!
