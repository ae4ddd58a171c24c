//! Laying out a WAV file in memory: header, data chunk identifier, data size,
//! sample bytes.
use vstd::prelude::*;

verus! {

/// The bytes of the text "data", which open a WAV data chunk.
pub open spec fn data_chunk_tag() -> Seq<u8> {
    seq![0x64u8, 0x61u8, 0x74u8, 0x61u8]
}

/// The four bytes of `x`, least significant first.
pub open spec fn u32_le_bytes(x: u32) -> Seq<u8> {
    seq![
        (x % 256) as u8,
        ((x / 256) % 256) as u8,
        ((x / 65536) % 256) as u8,
        ((x / 16777216) % 256) as u8,
    ]
}

/// The four bytes of `x`, most significant first.
pub open spec fn u32_be_bytes(x: u32) -> Seq<u8> {
    seq![
        ((x / 16777216) % 256) as u8,
        ((x / 65536) % 256) as u8,
        ((x / 256) % 256) as u8,
        (x % 256) as u8,
    ]
}

/// `b` holds `x` in one of the two byte orders a machine can have.
pub open spec fn is_u32_native_bytes(b: Seq<u8>, x: u32) -> bool {
    b == u32_le_bytes(x) || b == u32_be_bytes(x)
}

/// Read back, least significant byte first, the bytes `u32_le_bytes(x)` give
/// `x`; read most significant first, so do the bytes `u32_be_bytes(x)`.
pub proof fn lemma_u32_bytes_value(x: u32)
    ensures
        u32_le_bytes(x)[0] + 256 * u32_le_bytes(x)[1] + 65536 * u32_le_bytes(x)[2] + 16777216
            * u32_le_bytes(x)[3] == x,
        u32_be_bytes(x)[3] + 256 * u32_be_bytes(x)[2] + 65536 * u32_be_bytes(x)[1] + 16777216
            * u32_be_bytes(x)[0] == x,
{
    assert((x % 256) + 256 * ((x / 256) % 256) + 65536 * ((x / 65536) % 256) + 16777216 * ((x
        / 16777216) % 256) == x) by (bit_vector);
    assert(u32_le_bytes(x)[0] == x % 256 && u32_le_bytes(x)[1] == (x / 256) % 256);
    assert(u32_le_bytes(x)[2] == (x / 65536) % 256 && u32_le_bytes(x)[3] == (x / 16777216) % 256);
    assert(u32_be_bytes(x)[3] == x % 256 && u32_be_bytes(x)[2] == (x / 256) % 256);
    assert(u32_be_bytes(x)[1] == (x / 65536) % 256 && u32_be_bytes(x)[0] == (x / 16777216) % 256);
}

/// Reads `wavers::DATA`, the chunk identifier that the `wavers` crate writes
/// before WAV sample data: the bytes of "data".
#[verifier::external_body]
fn data_chunk_id() -> (id: [u8; 4])
    ensures
        id@ == data_chunk_tag(),
{
    wavers::DATA
}

/// Calls `u32::to_ne_bytes`: the bytes of `x` in the machine's byte order.
/// Which of the two orders that is depends on the machine and is left open.
#[verifier::external_body]
fn u32_to_ne_bytes(x: u32) -> (b: [u8; 4])
    ensures
        is_u32_native_bytes(b@, x),
{
    x.to_ne_bytes()
}

/// Appends the bytes of `src` to `out`.
fn append_bytes(out: &mut Vec<u8>, src: &[u8])
    ensures
        final(out)@ == old(out)@ + src@,
{
    let mut i: usize = 0;
    while i < src.len()
        invariant
            i <= src@.len(),
            out@ == old(out)@ + src@.take(i as int),
        decreases src@.len() - i,
    {
        out.push(src[i]);
        assert(src@.take(i + 1) =~= src@.take(i as int).push(src@[i as int]));
        i = i + 1;
    }
    assert(src@.take(i as int) =~= src@);
}

/// A WAV file in memory: the `header` bytes, the data chunk identifier, the
/// number of sample bytes (truncated to 32 bits, in the machine's byte order),
/// and the sample bytes.
pub fn frame_wav(header: &[u8], samples: &[u8]) -> (out: Vec<u8>)
    ensures
        out@.len() == header@.len() + 8 + samples@.len(),
        out@.subrange(0, header@.len() as int) == header@,
        out@.subrange(header@.len() as int, header@.len() + 4int) == data_chunk_tag(),
        is_u32_native_bytes(
            out@.subrange(header@.len() + 4int, header@.len() + 8int),
            samples@.len() as u32,
        ),
        out@.subrange(header@.len() + 8int, out@.len() as int) == samples@,
{
    let mut out: Vec<u8> = Vec::new();
    append_bytes(&mut out, header);
    let tag = data_chunk_id();
    append_bytes(&mut out, tag.as_slice());
    let size: u32 = samples.len() as u32;
    let size_bytes = u32_to_ne_bytes(size);
    append_bytes(&mut out, size_bytes.as_slice());
    append_bytes(&mut out, samples);
    let ghost h = header@.len() as int;
    assert(out@.subrange(0, h) =~= header@);
    assert(out@.subrange(h, h + 4) =~= tag@);
    assert(out@.subrange(h + 4, h + 8) =~= size_bytes@);
    assert(out@.subrange(h + 8, out@.len() as int) =~= samples@);
    out
}

} // verus!
