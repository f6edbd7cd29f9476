//! Audio samples and their fixed on-disk encoding.
//!
//! A sample is carried as the bit pattern of its IEEE-754 single-precision
//! amplitude, so that "the same sample" means "the same 32 bits". A segment
//! file is the samples' bit patterns in big-endian byte order, four bytes
//! each, with nothing before, between or after them.

use byteorder::{BigEndian, ByteOrder};
use vstd::prelude::*;
use vstd::slice::slice_subrange;

verus! {

/// Width in bytes of one encoded sample.
pub const SAMPLE_BYTES: usize = 4;

/// One amplitude value, held as the bit pattern of a single-precision number.
#[derive(Clone, Copy, Debug, PartialEq, Eq, Structural)]
pub struct Sample {
    pub bits: u32,
}

impl Sample {
    /// The sample with amplitude zero: all bits clear.
    pub open spec fn silence_spec() -> Sample {
        Sample { bits: 0 }
    }

    /// The sample with amplitude zero.
    #[verifier::when_used_as_spec(silence_spec)]
    pub fn silence() -> (s: Sample)
        ensures
            s == Sample::silence_spec(),
    {
        Sample { bits: 0 }
    }

    /// The sample with the given bit pattern.
    pub fn from_bits(bits: u32) -> (s: Sample)
        ensures
            s.bits == bits,
    {
        Sample { bits }
    }

    /// The bit pattern of this sample.
    pub fn to_bits(self) -> (bits: u32)
        ensures
            bits == self.bits,
    {
        self.bits
    }
}

/// The four bytes of `bits`, most significant first.
pub open spec fn be_bytes(bits: u32) -> Seq<u8> {
    seq![
        (bits / 0x100 / 0x100 / 0x100) as u8,
        (bits / 0x100 / 0x100 % 0x100) as u8,
        (bits / 0x100 % 0x100) as u8,
        (bits % 0x100) as u8,
    ]
}

/// The number whose big-endian bytes are the first four of `bytes`.
pub open spec fn be_value(bytes: Seq<u8>) -> u32
    recommends
        bytes.len() >= 4,
{
    (((bytes[0] * 0x100 + bytes[1]) * 0x100 + bytes[2]) * 0x100 + bytes[3]) as u32
}

/// The file image of `samples`: byte `i` is byte `i % 4` of sample `i / 4`.
pub open spec fn encode_samples(samples: Seq<Sample>) -> Seq<u8> {
    Seq::new(4 * samples.len(), |i: int| be_bytes(samples[i / 4].bits)[i % 4])
}

/// The samples held by `bytes`: one per whole group of four bytes; a
/// trailing group of fewer than four bytes holds no sample.
pub open spec fn decode_samples(bytes: Seq<u8>) -> Seq<Sample> {
    Seq::new(
        (bytes.len() / 4) as nat,
        |i: int| Sample { bits: be_value(bytes.subrange(4 * i, 4 * i + 4)) },
    )
}

/// `byteorder::BigEndian::write_u32` on a fresh four-byte buffer: the
/// buffer then holds the big-endian bytes of `bits`.
#[verifier::external_body]
fn write_be_u32(bits: u32) -> (out: [u8; 4])
    ensures
        out@ == be_bytes(bits),
{
    let mut out: [u8; 4] = [0u8; 4];
    BigEndian::write_u32(&mut out, bits);
    out
}

/// `byteorder::BigEndian::read_u32`: the number whose big-endian bytes are
/// the first four bytes of `buf`. The outside function panics on a shorter
/// buffer, which the precondition excludes.
#[verifier::external_body]
fn read_be_u32(buf: &[u8]) -> (bits: u32)
    requires
        buf@.len() >= 4,
    ensures
        bits == be_value(buf@),
{
    BigEndian::read_u32(buf)
}

/// Four bytes decode to the number they were encoded from.
pub proof fn lemma_be_value_of_bytes(bits: u32)
    ensures
        be_bytes(bits).len() == 4,
        be_value(be_bytes(bits)) == bits,
{
    let v0 = bits as int;
    let v1 = v0 / 0x100;
    let v2 = v1 / 0x100;
    let v3 = v2 / 0x100;
    assert(v0 == v1 * 0x100 + v0 % 0x100);
    assert(v1 == v2 * 0x100 + v1 % 0x100);
    assert(v2 == v3 * 0x100 + v2 % 0x100);
    assert(0 <= v3 < 0x100);
}

/// A number encodes to the four bytes it was decoded from.
pub proof fn lemma_be_bytes_of_value(bytes: Seq<u8>)
    requires
        bytes.len() == 4,
    ensures
        be_bytes(be_value(bytes)) == bytes,
{
    let v3 = bytes[0] as int;
    let v2 = v3 * 0x100 + bytes[1];
    let v1 = v2 * 0x100 + bytes[2];
    let v0 = v1 * 0x100 + bytes[3];
    assert(v0 / 0x100 == v1 && v0 % 0x100 == bytes[3]);
    assert(v1 / 0x100 == v2 && v1 % 0x100 == bytes[2]);
    assert(v2 / 0x100 == v3 && v2 % 0x100 == bytes[1]);
    assert(be_value(bytes) == v0);
    assert(be_bytes(be_value(bytes)) =~= bytes);
}

/// Encodes one sample.
pub fn encode_sample(sample: Sample) -> (out: [u8; 4])
    ensures
        out@ == be_bytes(sample.bits),
{
    write_be_u32(sample.bits)
}

/// Encodes a block of samples into its file image.
pub fn encode_block(block: &Vec<Sample>) -> (out: Vec<u8>)
    ensures
        out@ == encode_samples(block@),
{
    let mut out: Vec<u8> = Vec::new();
    let mut i: usize = 0;
    while i < block.len()
        invariant
            i <= block.len(),
            out@ == encode_samples(block@.subrange(0, i as int)),
        decreases block.len() - i,
    {
        let word = write_be_u32(block[i].bits);
        out.push(word[0]);
        out.push(word[1]);
        out.push(word[2]);
        out.push(word[3]);
        proof {
            let before = block@.subrange(0, i as int);
            let after = block@.subrange(0, i + 1);
            assert(after =~= before.push(block@[i as int]));
            lemma_encode_push(before, block@[i as int]);
            assert(out@ =~= encode_samples(before) + be_bytes(block@[i as int].bits));
        }
        i += 1;
    }
    proof {
        assert(block@.subrange(0, i as int) =~= block@);
    }
    out
}

/// The number of whole samples that a file image holds.
pub fn sample_count(bytes: &[u8]) -> (count: usize)
    ensures
        count == decode_samples(bytes@).len(),
{
    bytes.len() / SAMPLE_BYTES
}

/// The sample at position `index` of a file image.
pub fn sample_at(bytes: &[u8], index: usize) -> (sample: Sample)
    requires
        index < decode_samples(bytes@).len(),
    ensures
        sample == decode_samples(bytes@)[index as int],
{
    let end = bytes.len();
    let group = slice_subrange(bytes, SAMPLE_BYTES * index, end);
    proof {
        let whole = bytes@.subrange(4 * index, 4 * index + 4);
        assert(be_value(group@) == be_value(whole));
    }
    Sample { bits: read_be_u32(group) }
}

/// Decodes the samples held by `bytes`, ignoring a trailing partial group.
pub fn decode_block(bytes: &[u8]) -> (out: Vec<Sample>)
    ensures
        out@ == decode_samples(bytes@),
{
    let count = sample_count(bytes);
    let mut out: Vec<Sample> = Vec::new();
    let mut i: usize = 0;
    while i < count
        invariant
            count == decode_samples(bytes@).len(),
            i <= count,
            out@.len() == i,
            forall|k: int| 0 <= k < i ==> out@[k] == decode_samples(bytes@)[k],
        decreases count - i,
    {
        out.push(sample_at(bytes, i));
        i += 1;
    }
    proof {
        assert(out@ =~= decode_samples(bytes@));
    }
    out
}

/// Appending one sample appends its four bytes to the file image.
pub proof fn lemma_encode_push(samples: Seq<Sample>, sample: Sample)
    ensures
        encode_samples(samples.push(sample)) == encode_samples(samples) + be_bytes(sample.bits),
{
    assert(encode_samples(samples.push(sample)) =~= encode_samples(samples) + be_bytes(
        sample.bits,
    ));
}

/// The file image of a concatenation is the concatenation of the images.
pub proof fn lemma_encode_concat(first: Seq<Sample>, second: Seq<Sample>)
    ensures
        encode_samples(first + second) == encode_samples(first) + encode_samples(second),
{
    assert(encode_samples(first + second) =~= encode_samples(first) + encode_samples(second));
}

/// Reading a file image back yields the very samples that were written,
/// bit for bit.
pub proof fn lemma_decode_encode(samples: Seq<Sample>)
    ensures
        encode_samples(samples).len() == 4 * samples.len(),
        decode_samples(encode_samples(samples)) == samples,
{
    let bytes = encode_samples(samples);
    assert forall|i: int| 0 <= i < samples.len() implies decode_samples(bytes)[i] == samples[i] by {
        assert(bytes.subrange(4 * i, 4 * i + 4) =~= be_bytes(samples[i].bits));
        lemma_be_value_of_bytes(samples[i].bits);
    }
    assert(decode_samples(bytes) =~= samples);
}

/// A file of whole samples is the image of the samples read from it: no
/// two such files read back alike.
pub proof fn lemma_encode_decode(bytes: Seq<u8>)
    requires
        bytes.len() % 4 == 0,
    ensures
        encode_samples(decode_samples(bytes)) == bytes,
{
    let samples = decode_samples(bytes);
    assert forall|i: int| 0 <= i < bytes.len() implies encode_samples(samples)[i] == bytes[i] by {
        let group = bytes.subrange(4 * (i / 4), 4 * (i / 4) + 4);
        lemma_be_bytes_of_value(group);
        assert(group[i % 4] == bytes[i]);
    }
    assert(encode_samples(samples) =~= bytes);
}

/// Bytes after the last whole group of four change nothing of what is read.
pub proof fn lemma_decode_ignores_partial_tail(bytes: Seq<u8>, tail: Seq<u8>)
    requires
        bytes.len() % 4 == 0,
        tail.len() < 4,
    ensures
        decode_samples(bytes + tail) == decode_samples(bytes),
{
    assert forall|i: int| 0 <= i < bytes.len() / 4 implies decode_samples(bytes + tail)[i]
        == decode_samples(bytes)[i] by {
        assert((bytes + tail).subrange(4 * i, 4 * i + 4) =~= bytes.subrange(4 * i, 4 * i + 4));
    }
    assert(decode_samples(bytes + tail) =~= decode_samples(bytes));
}

} // verus!
