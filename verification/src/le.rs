//! Little-endian integers of the `.sld` format.
use vstd::prelude::*;

verus! {

/// The `width` low-order bytes of `value`, least significant first.
pub open spec fn le_bytes(value: nat, width: nat) -> Seq<u8>
    decreases width,
{
    if width == 0 {
        seq![]
    } else {
        seq![(value % 256) as u8] + le_bytes(value / 256, (width - 1) as nat)
    }
}

/// The integer that `bytes` spells, least significant byte first.
pub open spec fn le_value(bytes: Seq<u8>) -> nat
    decreases bytes.len(),
{
    if bytes.len() == 0 {
        0
    } else {
        bytes[0] as nat + 256 * le_value(bytes.skip(1))
    }
}

/// 256 to the power of `width`: how many values `width` bytes can spell.
pub open spec fn le_limit(width: nat) -> nat
    decreases width,
{
    if width == 0 {
        1
    } else {
        256 * le_limit((width - 1) as nat)
    }
}

/// An encoding is exactly as wide as asked for.
pub proof fn lemma_le_len(value: nat, width: nat)
    ensures
        le_bytes(value, width).len() == width,
    decreases width,
{
    if width > 0 {
        lemma_le_len(value / 256, (width - 1) as nat);
    }
}

/// Decoding undoes encoding, for every value that fits the width.
pub proof fn law_le_value_of_bytes(value: nat, width: nat)
    requires
        value < le_limit(width),
    ensures
        le_value(le_bytes(value, width)) == value,
    decreases width,
{
    if width > 0 {
        let rest = le_bytes(value / 256, (width - 1) as nat);
        assert(value / 256 < le_limit((width - 1) as nat));
        law_le_value_of_bytes(value / 256, (width - 1) as nat);
        assert(le_bytes(value, width).skip(1) =~= rest);
    }
}

/// Encoding undoes decoding, for every byte string.
pub proof fn law_le_bytes_of_value(bytes: Seq<u8>)
    ensures
        le_bytes(le_value(bytes), bytes.len()) == bytes,
        le_value(bytes) < le_limit(bytes.len()),
    decreases bytes.len(),
{
    if bytes.len() > 0 {
        let rest = bytes.skip(1);
        law_le_bytes_of_value(rest);
        let value = le_value(bytes);
        assert(value % 256 == bytes[0] as nat);
        assert(value / 256 == le_value(rest));
        assert(le_bytes(value, bytes.len()) =~= bytes);
    } else {
        assert(le_bytes(le_value(bytes), bytes.len()) =~= bytes);
    }
}

/// The limits of the two widths that the format uses.
pub proof fn lemma_le_limits()
    ensures
        le_limit(4) == 0x1_0000_0000,
        le_limit(8) == 0x1_0000_0000_0000_0000,
{
    assert(le_limit(4) == 0x1_0000_0000) by {
        reveal_with_fuel(le_limit, 5);
    }
    assert(le_limit(8) == 0x1_0000_0000_0000_0000) by {
        reveal_with_fuel(le_limit, 9);
    }
}

/// The `width` low-order bytes of `value`, least significant first.
fn to_le(value: u64, width: usize) -> (bytes: Vec<u8>)
    ensures
        bytes@ == le_bytes(value as nat, width as nat),
{
    let mut bytes: Vec<u8> = Vec::with_capacity(width);
    let mut left: u64 = value;
    let mut i: usize = 0;
    while i < width
        invariant
            i <= width,
            bytes@ + le_bytes(left as nat, (width - i) as nat) == le_bytes(
                value as nat,
                width as nat,
            ),
        decreases width - i,
    {
        let ghost before = bytes@;
        let ghost rest = le_bytes(left as nat / 256, (width - i - 1) as nat);
        bytes.push((left % 256) as u8);
        assert(bytes@ + rest =~= before + le_bytes(left as nat, (width - i) as nat));
        left = left / 256;
        i = i + 1;
    }
    assert(bytes@ + le_bytes(left as nat, 0) =~= bytes@);
    bytes
}

/// The four bytes of `value`.
pub fn u32_to_le(value: u32) -> (bytes: Vec<u8>)
    ensures
        bytes@ == le_bytes(value as nat, 4),
        bytes@.len() == 4,
{
    proof {
        lemma_le_len(value as nat, 4);
    }
    to_le(value as u64, 4)
}

/// The eight bytes of `value`.
pub fn u64_to_le(value: u64) -> (bytes: Vec<u8>)
    ensures
        bytes@ == le_bytes(value as nat, 8),
        bytes@.len() == 8,
{
    proof {
        lemma_le_len(value as nat, 8);
    }
    to_le(value, 8)
}

/// The integer that `bytes`, at most eight of them, spell.
pub fn from_le(bytes: &[u8]) -> (value: u64)
    requires
        bytes@.len() <= 8,
    ensures
        value == le_value(bytes@),
{
    let mut value: u64 = 0;
    let mut i: usize = bytes.len();
    assert(bytes@.skip(i as int).len() == 0);
    while i > 0
        invariant
            i <= bytes@.len() <= 8,
            value == le_value(bytes@.skip(i as int)),
        decreases i,
    {
        i = i - 1;
        proof {
            assert(bytes@.skip(i as int).skip(1) =~= bytes@.skip(i + 1));
            let tail = bytes@.skip(i as int);
            law_le_bytes_of_value(tail);
            reveal_with_fuel(le_limit, 9);
        }
        value = value * 256 + bytes[i] as u64;
    }
    assert(bytes@.skip(0) =~= bytes@);
    value
}

/// The four bytes of a number, one by one.
pub proof fn law_four_bytes(value: u32)
    ensures
        ({
            let v1: nat = value as nat / 256;
            let v2: nat = v1 / 256;
            let v3: nat = v2 / 256;
            le_bytes(value as nat, 4) == seq![
                (value % 256) as u8,
                (v1 % 256) as u8,
                (v2 % 256) as u8,
                (v3 % 256) as u8,
            ]
        }),
{
    let v1: nat = value as nat / 256;
    let v2: nat = v1 / 256;
    let v3: nat = v2 / 256;
    reveal_with_fuel(le_bytes, 2);
    assert(le_bytes(v3, 1) =~= seq![(v3 % 256) as u8]);
    assert(le_bytes(v2, 2) =~= seq![(v2 % 256) as u8, (v3 % 256) as u8]);
    assert(le_bytes(v1, 3) =~= seq![(v1 % 256) as u8, (v2 % 256) as u8, (v3 % 256) as u8]);
    assert(le_bytes(value as nat, 4) =~= seq![
        (value % 256) as u8,
        (v1 % 256) as u8,
        (v2 % 256) as u8,
        (v3 % 256) as u8,
    ]);
}

/// The eight bytes of a number, one by one.
pub proof fn law_eight_bytes(value: u64)
    ensures
        ({
            let low: nat = value as nat % 0x1_0000_0000;
            let high: nat = value as nat / 0x1_0000_0000;
            le_bytes(value as nat, 8) == le_bytes(low, 4) + le_bytes(high, 4)
        }),
{
    lemma_le_limits();
    let low: nat = value as nat % 0x1_0000_0000;
    let high: nat = value as nat / 0x1_0000_0000;
    let bytes = le_bytes(low, 4) + le_bytes(high, 4);
    lemma_le_len(low, 4);
    lemma_le_len(high, 4);
    law_le_value_of_bytes(low, 4);
    law_le_value_of_bytes(high, 4);
    law_value_of_eight(bytes);
    assert(bytes.take(4) =~= le_bytes(low, 4));
    assert(bytes.skip(4) =~= le_bytes(high, 4));
    law_le_bytes_of_value(bytes);
}

/// The number that four bytes spell, one by one.
pub proof fn law_value_of_four(bytes: Seq<u8>)
    requires
        bytes.len() == 4,
    ensures
        le_value(bytes) == bytes[0] + 256 * bytes[1] + 65_536 * bytes[2] + 16_777_216 * bytes[3],
{
    let b1 = bytes.skip(1);
    let b2 = b1.skip(1);
    let b3 = b2.skip(1);
    assert(le_value(b3.skip(1)) == 0);
    assert(le_value(b3) == bytes[3]);
    assert(le_value(b2) == bytes[2] + 256 * bytes[3]);
    assert(le_value(b1) == bytes[1] + 256 * bytes[2] + 65_536 * bytes[3]);
}

/// The number that eight bytes spell is that of the first four and 2^32 times that of the
/// last four.
pub proof fn law_value_of_eight(bytes: Seq<u8>)
    requires
        bytes.len() == 8,
    ensures
        le_value(bytes) == le_value(bytes.take(4)) + 0x1_0000_0000 * le_value(bytes.skip(4)),
{
    let b1 = bytes.skip(1);
    let b2 = b1.skip(1);
    let b3 = b2.skip(1);
    let b4 = b3.skip(1);
    assert(b4 =~= bytes.skip(4));
    let high = le_value(b4);
    assert(le_value(b3) == bytes[3] + 256 * high);
    assert(le_value(b2) == bytes[2] + 256 * bytes[3] + 65_536 * high);
    assert(le_value(b1) == bytes[1] + 256 * bytes[2] + 65_536 * bytes[3] + 16_777_216 * high);
    law_value_of_four(bytes.take(4));
}

} // verus!
