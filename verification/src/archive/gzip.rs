//! Stored gzip streams.

use vstd::prelude::*;
use vstd::slice::slice_subrange;

use crate::bytes::extend;

verus! {

// ---------------------------------------------------------------------------
// Checksum
// ---------------------------------------------------------------------------
/// The checksum register after one bit.
pub open spec fn crc_bit(crc: u32) -> u32 {
    if crc & 1 == 1 {
        (crc >> 1) ^ 0xedb8_8320
    } else {
        crc >> 1
    }
}

/// The checksum register after a number of bits.
pub open spec fn crc_bits(crc: u32, count: nat) -> u32
    decreases count,
{
    if count == 0 {
        crc
    } else {
        crc_bit(crc_bits(crc, (count - 1) as nat))
    }
}

/// The checksum register after bytes.
pub open spec fn crc_after(crc: u32, bytes: Seq<u8>) -> u32
    decreases bytes.len(),
{
    if bytes.len() == 0 {
        crc
    } else {
        crc_bits(crc_after(crc, bytes.drop_last()) ^ bytes.last() as u32, 8)
    }
}

/// The CRC-32 checksum of bytes.
pub open spec fn crc32(bytes: Seq<u8>) -> u32 {
    !crc_after(0xffff_ffff, bytes)
}

/// Move the checksum register over bytes.
pub fn crc32_update(crc: u32, bytes: &[u8]) -> (result: u32)
    ensures
        result == crc_after(crc, bytes@),
{
    let ghost start = crc;
    let mut crc = crc;
    for index in 0..bytes.len()
        invariant
            crc == crc_after(start, bytes@.take(index as int)),
    {
        proof {
            assert(bytes@.take(index + 1).drop_last() == bytes@.take(index as int));
            assert(bytes@.take(index + 1).last() == bytes@[index as int]);
        }
        crc = crc ^ bytes[index] as u32;
        let ghost mixed = crc;
        for bit in 0..8u32
            invariant
                crc == crc_bits(mixed, bit as nat),
        {
            let ghost before = crc;
            let odd = crc & 1 == 1;
            crc = crc >> 1;
            if odd {
                crc = crc ^ 0xedb8_8320;
            }
            assert(crc == crc_bit(before));
        }
    }
    assert(bytes@.take(bytes@.len() as int) == bytes@);
    crc
}

// ---------------------------------------------------------------------------
// Stream
// ---------------------------------------------------------------------------
/// The bytes of a 16-bit number, the lowest one first.
pub open spec fn little_16(value: u16) -> Seq<u8> {
    seq![(value & 0xff) as u8, (value >> 8) as u8]
}

/// The bytes of a 32-bit number, the lowest one first.
pub open spec fn little_32(value: u32) -> Seq<u8> {
    seq![
        (value & 0xff) as u8,
        ((value >> 8) & 0xff) as u8,
        ((value >> 16) & 0xff) as u8,
        ((value >> 24) & 0xff) as u8,
    ]
}

/// The largest stored block.
pub const MAX_BLOCK: usize = 65_535;

/// A stored block that is not the last one.
pub open spec fn stored_block(bytes: Seq<u8>) -> Seq<u8> {
    let length = bytes.len() as u16;
    seq![0u8] + little_16(length) + little_16(!length) + bytes
}

/// The stored blocks of bytes.
pub open spec fn stored_blocks(bytes: Seq<u8>) -> Seq<u8>
    decreases bytes.len(),
{
    if bytes.len() == 0 {
        seq![]
    } else if bytes.len() <= MAX_BLOCK {
        stored_block(bytes)
    } else {
        stored_block(bytes.take(MAX_BLOCK as int)) + stored_blocks(bytes.skip(MAX_BLOCK as int))
    }
}

/// The header of a stream: deflate, no optional fields, no time, Unix.
pub open spec fn gzip_header() -> Seq<u8> {
    seq![0x1f, 0x8b, 8, 0, 0, 0, 0, 0, 0, 3]
}

/// The empty last block of a stream.
pub open spec fn last_block() -> Seq<u8> {
    seq![1, 0, 0, 0xff, 0xff]
}

/// A gzip stream that holds bytes without compression.
pub open spec fn gzip_stream(bytes: Seq<u8>) -> Seq<u8> {
    gzip_header() + stored_blocks(bytes) + last_block() + little_32(crc32(bytes)) + little_32(
        (bytes.len() % 0x1_0000_0000) as u32,
    )
}

fn push_16(output: &mut Vec<u8>, value: u16)
    ensures
        final(output)@ == old(output)@ + little_16(value),
{
    let ghost before = output@;
    assert(value & 0xff <= 0xff) by (bit_vector);
    assert(value >> 8 <= 0xff) by (bit_vector);
    output.push((value & 0xff) as u8);
    output.push((value >> 8) as u8);
    assert(output@ =~= before + little_16(value));
}

fn push_32(output: &mut Vec<u8>, value: u32)
    ensures
        final(output)@ == old(output)@ + little_32(value),
{
    let ghost before = output@;
    output.push((value & 0xff) as u8);
    output.push(((value >> 8) & 0xff) as u8);
    output.push(((value >> 16) & 0xff) as u8);
    output.push(((value >> 24) & 0xff) as u8);
    assert(output@ =~= before + little_32(value));
}

/// Write a gzip stream that holds bytes without compression.
pub fn write_gzip_stored(input: &[u8]) -> (result: Vec<u8>)
    ensures
        result@ == gzip_stream(input@),
{
    // RFC 1952 header: deflate, no optional fields, timestamp zero, Unix OS.
    let mut output: Vec<u8> = vec![0x1f, 0x8b, 8, 0, 0, 0, 0, 0, 0, 3];
    assert(output@ =~= gzip_header());
    let mut at: usize = 0;
    assert(input@.skip(0) == input@);
    while at < input.len()
        invariant
            at <= input@.len(),
            output@ + stored_blocks(input@.skip(at as int)) == gzip_header() + stored_blocks(
                input@,
            ),
        decreases input@.len() - at,
    {
        let left: usize = input.len() - at;
        let count: usize = if left > MAX_BLOCK {
            MAX_BLOCK
        } else {
            left
        };
        let block = slice_subrange(input, at, at + count);
        let ghost before = output@;
        let ghost rest = input@.skip(at as int);
        // A zero BFINAL bit and BTYPE=00 form one uncompressed DEFLATE block.
        let length: u16 = count as u16;
        output.push(0);
        push_16(&mut output, length);
        push_16(&mut output, !length);
        extend(&mut output, block);
        proof {
            assert(block@ =~= rest.take(count as int));
            assert(output@ =~= before + stored_block(block@));
            if rest.len() <= MAX_BLOCK {
                assert(block@ =~= rest);
                assert(input@.skip(at + count) =~= seq![]);
                assert(stored_blocks(input@.skip(at + count)) =~= seq![]);
            } else {
                assert(rest.skip(MAX_BLOCK as int) =~= input@.skip(at + count));
            }
            assert(output@ + stored_blocks(input@.skip(at + count)) =~= before + stored_blocks(
                rest,
            ));
        }
        at += count;
    }
    assert(input@.skip(at as int) =~= seq![]);
    assert(output@ =~= gzip_header() + stored_blocks(input@));
    let crc = crc32_update(0xffff_ffff, input);
    // Finish with an empty final uncompressed block.
    let end: Vec<u8> = vec![1, 0, 0, 0xff, 0xff];
    assert(end@ =~= last_block());
    extend(&mut output, end.as_slice());
    push_32(&mut output, !crc);
    push_32(&mut output, (input.len() as u64 % 0x1_0000_0000) as u32);
    output
}

// ---------------------------------------------------------------------------
// Laws
// ---------------------------------------------------------------------------
/// The bytes that stored blocks hold, up to the last block, and what follows
/// the last block.
pub open spec fn unstored(stream: Seq<u8>) -> Option<(Seq<u8>, Seq<u8>)>
    decreases stream.len(),
{
    if stream.len() < 5 || stream[0] > 1 {
        None
    } else {
        let length = stream[1] as int + 256 * (stream[2] as int);
        let check = stream[3] as int + 256 * (stream[4] as int);
        if length + check != 0xffff || stream.len() < 5 + length {
            None
        } else {
            let bytes = stream.subrange(5, 5 + length);
            let rest = stream.skip(5 + length);
            if stream[0] == 1 {
                Some((bytes, rest))
            } else {
                match unstored(rest) {
                    Some((more, end)) => Some((bytes + more, end)),
                    None => None,
                }
            }
        }
    }
}

proof fn lemma_little_16(value: u16)
    ensures
        little_16(value)[0] as int + 256 * (little_16(value)[1] as int) == value,
        little_16(!value)[0] as int + 256 * (little_16(!value)[1] as int) == 0xffff - value,
{
    assert((value & 0xff) as u8 + 256 * ((value >> 8) as u8) == value) by (bit_vector);
    assert((!value & 0xff) as u8 + 256 * ((!value >> 8) as u8) == 0xffff - value) by (bit_vector);
}

proof fn lemma_first_block(block: Seq<u8>, tail: Seq<u8>, more: Seq<u8>, end: Seq<u8>)
    requires
        block.len() <= MAX_BLOCK,
        unstored(tail) == Some((more, end)),
    ensures
        unstored(stored_block(block) + tail) == Some((block + more, end)),
{
    let stream = stored_block(block) + tail;
    let count = block.len() as int;
    let length = count as u16;
    lemma_little_16(length);
    assert(stream[0] == 0);
    assert(stream[1] == little_16(length)[0]);
    assert(stream[2] == little_16(length)[1]);
    assert(stream[3] == little_16(!length)[0]);
    assert(stream[4] == little_16(!length)[1]);
    assert(stream.subrange(5, 5 + count) =~= block);
    assert(stream.skip(5 + count) =~= tail);
}

/// A reader of stored blocks gets back the bytes that were written, and then
/// finds the rest of the stream.
#[verifier::spinoff_prover]
pub proof fn stored_blocks_give_back_the_bytes(bytes: Seq<u8>, end: Seq<u8>)
    ensures
        unstored(stored_blocks(bytes) + last_block() + end) == Some((bytes, end)),
    decreases bytes.len(),
{
    let stream = stored_blocks(bytes) + last_block() + end;
    if bytes.len() == 0 {
        assert(stream =~= last_block() + end);
        assert(stream.subrange(5, 5) =~= bytes);
        assert(stream.skip(5) =~= end);
    } else {
        let count = if bytes.len() <= MAX_BLOCK {
            bytes.len() as int
        } else {
            MAX_BLOCK as int
        };
        let block = bytes.take(count);
        let rest = bytes.skip(count);
        let tail = stored_blocks(rest) + last_block() + end;
        stored_blocks_give_back_the_bytes(rest, end);
        if bytes.len() <= MAX_BLOCK {
            assert(block =~= bytes);
            assert(rest =~= seq![]);
            assert(stored_blocks(rest) =~= seq![]);
        }
        assert(stream =~= stored_block(block) + tail);
        lemma_first_block(block, tail, rest, end);
        assert(block + rest =~= bytes);
    }
}

} // verus!
