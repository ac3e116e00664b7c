//! Wire format of a public value: eight bytes, most significant first.

use vstd::prelude::*;

verus! {

/// Number of bytes that one public value occupies on the wire.
pub const PUBLIC_VALUE_LEN: usize = 8;

/// The number that eight bytes spell when read most significant byte first.
pub open spec fn spec_be_value(bytes: Seq<u8>) -> int
    recommends
        bytes.len() == 8,
{
    bytes[0] * 0x0100_0000_0000_0000 + bytes[1] * 0x0001_0000_0000_0000 + bytes[2]
        * 0x0000_0100_0000_0000 + bytes[3] * 0x0000_0001_0000_0000 + bytes[4] * 0x0100_0000
        + bytes[5] * 0x0001_0000 + bytes[6] * 0x0100 + bytes[7]
}

/// The eight base-256 digits of `x`, most significant first.
pub open spec fn spec_be_bytes(x: u64) -> Seq<u8> {
    seq![
        (x / 0x0100_0000_0000_0000) as u8,
        (x / 0x0001_0000_0000_0000 % 256) as u8,
        (x / 0x0000_0100_0000_0000 % 256) as u8,
        (x / 0x0000_0001_0000_0000 % 256) as u8,
        (x / 0x0100_0000 % 256) as u8,
        (x / 0x0001_0000 % 256) as u8,
        (x / 0x0100 % 256) as u8,
        (x % 256) as u8,
    ]
}

/// Reading back the digits of `x` gives `x`.
pub proof fn lemma_value_of_bytes(x: u64)
    ensures
        spec_be_bytes(x).len() == 8,
        spec_be_value(spec_be_bytes(x)) == x,
{
    assert((x / 0x0100_0000_0000_0000) as u8 * 0x0100_0000_0000_0000 + (x
        / 0x0001_0000_0000_0000 % 256) as u8 * 0x0001_0000_0000_0000 + (x / 0x0000_0100_0000_0000
        % 256) as u8 * 0x0000_0100_0000_0000 + (x / 0x0000_0001_0000_0000 % 256) as u8
        * 0x0000_0001_0000_0000 + (x / 0x0100_0000 % 256) as u8 * 0x0100_0000 + (x / 0x0001_0000
        % 256) as u8 * 0x0001_0000 + (x / 0x0100 % 256) as u8 * 0x0100 + (x % 256) as u8 == x)
        by (bit_vector);
}

/// Eight bytes are the digits of the number they spell: the wire format
/// loses nothing and no two byte strings stand for the same value.
pub proof fn lemma_bytes_of_value(bytes: Seq<u8>)
    requires
        bytes.len() == 8,
    ensures
        0 <= spec_be_value(bytes) <= u64::MAX,
        spec_be_bytes(spec_be_value(bytes) as u64) == bytes,
{
    let b0 = bytes[0];
    let b1 = bytes[1];
    let b2 = bytes[2];
    let b3 = bytes[3];
    let b4 = bytes[4];
    let b5 = bytes[5];
    let b6 = bytes[6];
    let b7 = bytes[7];
    let x = spec_be_value(bytes) as u64;
    assert(x == spec_be_value(bytes));
    assert((x / 0x0100_0000_0000_0000) as u8 == b0 && (x / 0x0001_0000_0000_0000 % 256) as u8
        == b1 && (x / 0x0000_0100_0000_0000 % 256) as u8 == b2 && (x / 0x0000_0001_0000_0000
        % 256) as u8 == b3 && (x / 0x0100_0000 % 256) as u8 == b4 && (x / 0x0001_0000 % 256) as u8
        == b5 && (x / 0x0100 % 256) as u8 == b6 && (x % 256) as u8 == b7) by (bit_vector)
        requires
            x == b0 * 0x0100_0000_0000_0000 + b1 * 0x0001_0000_0000_0000 + b2
                * 0x0000_0100_0000_0000 + b3 * 0x0000_0001_0000_0000 + b4 * 0x0100_0000 + b5
                * 0x0001_0000 + b6 * 0x0100 + b7,
    ;
    assert(spec_be_bytes(x) =~= bytes);
}

/// Writes `x` as eight bytes, most significant first.
pub fn encode_public_value(x: u64) -> (bytes: [u8; 8])
    ensures
        bytes@ == spec_be_bytes(x),
        spec_be_value(bytes@) == x,
{
    let bytes: [u8; 8] = [
        (x / 0x0100_0000_0000_0000) as u8,
        (x / 0x0001_0000_0000_0000 % 256) as u8,
        (x / 0x0000_0100_0000_0000 % 256) as u8,
        (x / 0x0000_0001_0000_0000 % 256) as u8,
        (x / 0x0100_0000 % 256) as u8,
        (x / 0x0001_0000 % 256) as u8,
        (x / 0x0100 % 256) as u8,
        (x % 256) as u8,
    ];
    proof {
        assert(bytes@ =~= spec_be_bytes(x));
        lemma_value_of_bytes(x);
    }
    bytes
}

/// Reads a public value from the wire: `Some` exactly when `bytes` holds the
/// eight bytes of one value, and then the number they spell.
pub fn decode_public_value(bytes: &[u8]) -> (value: Option<u64>)
    ensures
        value is Some <==> bytes@.len() == 8,
        value matches Some(x) ==> x == spec_be_value(bytes@) && spec_be_bytes(x) == bytes@,
{
    if bytes.len() != PUBLIC_VALUE_LEN {
        return None;
    }
    proof {
        lemma_bytes_of_value(bytes@);
    }
    let x: u64 = (bytes[0] as u64) * 0x0100_0000_0000_0000 + (bytes[1] as u64)
        * 0x0001_0000_0000_0000 + (bytes[2] as u64) * 0x0000_0100_0000_0000 + (bytes[3] as u64)
        * 0x0000_0001_0000_0000 + (bytes[4] as u64) * 0x0100_0000 + (bytes[5] as u64)
        * 0x0001_0000 + (bytes[6] as u64) * 0x0100 + (bytes[7] as u64);
    Some(x)
}

} // verus!
