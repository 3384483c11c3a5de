//! Unsigned integers in either byte order.

use vstd::prelude::*;

verus! {

/// The number that bytes stand for when the first byte weighs most.
pub open spec fn big_endian(bytes: Seq<u8>) -> nat
    decreases bytes.len(),
{
    if bytes.len() == 0 {
        0
    } else {
        256 * big_endian(bytes.drop_last()) + bytes.last() as nat
    }
}

/// The number that bytes stand for in a byte order.
pub open spec fn unsigned(bytes: Seq<u8>, little_endian: bool) -> nat {
    if little_endian {
        big_endian(bytes.reverse())
    } else {
        big_endian(bytes)
    }
}

/// The number at an offset.
pub open spec fn field(bytes: Seq<u8>, offset: int, width: int, little_endian: bool) -> nat {
    unsigned(bytes.subrange(offset, offset + width), little_endian)
}

/// The number of values that a count of bytes can stand for.
pub open spec fn values(width: nat) -> nat
    decreases width,
{
    if width == 0 {
        1
    } else {
        256 * values((width - 1) as nat)
    }
}

proof fn lemma_values()
    ensures
        values(0) == 1,
        values(1) == 0x100,
        values(2) == 0x1_0000,
        values(3) == 0x100_0000,
        values(4) == 0x1_0000_0000,
        values(5) == 0x100_0000_0000,
        values(6) == 0x1_0000_0000_0000,
        values(7) == 0x100_0000_0000_0000,
        values(8) == 0x1_0000_0000_0000_0000,
{
    reveal_with_fuel(values, 9);
}

/// A number stays below the number of values of its width.
pub proof fn numbers_fit_their_width(bytes: Seq<u8>)
    ensures
        big_endian(bytes) < values(bytes.len()),
    decreases bytes.len(),
{
    if bytes.len() > 0 {
        numbers_fit_their_width(bytes.drop_last());
    }
}

/// Read a number of at most eight bytes.
pub fn read_unsigned(bytes: &[u8], offset: usize, width: usize, little_endian: bool) -> (result: u64)
    requires
        width <= 8,
        offset + width <= bytes@.len(),
    ensures
        result == field(bytes@, offset as int, width as int, little_endian),
        result < values(width as nat),
{
    let ghost part = bytes@.subrange(offset as int, offset + width);
    let ghost ordered = if little_endian {
        part.reverse()
    } else {
        part
    };
    let length: usize = bytes.len();
    let mut value: u64 = 0;
    for index in 0..width
        invariant
            width <= 8,
            length == bytes@.len(),
            offset + width <= length,
            part == bytes@.subrange(offset as int, offset + width),
            ordered == if little_endian {
                part.reverse()
            } else {
                part
            },
            value == big_endian(ordered.take(index as int)),
    {
        let byte = if little_endian {
            bytes[offset + (width - 1 - index)]
        } else {
            bytes[offset + index]
        };
        proof {
            lemma_values();
            numbers_fit_their_width(ordered.take(index as int));
            assert(values(index as nat) <= values(7)) by {
                assert(index == 0 || index == 1 || index == 2 || index == 3 || index == 4 || index
                    == 5 || index == 6 || index == 7);
            }
            assert(ordered[index as int] == byte);
            assert(ordered.take(index + 1).drop_last() == ordered.take(index as int));
        }
        value = value * 256 + byte as u64;
    }
    proof {
        assert(ordered.take(width as int) =~= ordered);
        numbers_fit_their_width(ordered);
    }
    value
}

/// Read a number of two bytes.
pub fn read_u16(bytes: &[u8], offset: usize, little_endian: bool) -> (result: u16)
    requires
        offset + 2 <= bytes@.len(),
    ensures
        result == field(bytes@, offset as int, 2, little_endian),
{
    proof {
        lemma_values();
    }
    read_unsigned(bytes, offset, 2, little_endian) as u16
}

/// Read a number of four bytes.
pub fn read_u32(bytes: &[u8], offset: usize, little_endian: bool) -> (result: u32)
    requires
        offset + 4 <= bytes@.len(),
    ensures
        result == field(bytes@, offset as int, 4, little_endian),
{
    proof {
        lemma_values();
    }
    read_unsigned(bytes, offset, 4, little_endian) as u32
}

/// Read a number of eight bytes.
pub fn read_u64(bytes: &[u8], offset: usize, little_endian: bool) -> (result: u64)
    requires
        offset + 8 <= bytes@.len(),
    ensures
        result == field(bytes@, offset as int, 8, little_endian),
{
    read_unsigned(bytes, offset, 8, little_endian)
}

} // verus!
