//! The WAV container for 16 kHz mono 16-bit PCM recordings.
//!
//! A recording starts with a 44-byte canonical header whose RIFF and `data`
//! size fields carry [`PLACEHOLDER_SIZE`]; PCM is appended as it arrives, and
//! finalizing back-patches both size fields. A file still carrying the
//! placeholder in its `data` field was never finalized, and [`repair`]
//! recomputes its sizes from the file length.
//!
//! Nothing here touches a file: the writer produces the bytes to append and
//! the size patches to apply, and the caller performs the writes. The
//! in-memory helpers ([`apply_patch`], [`repair`]) work on a byte buffer that
//! stands for the whole file.
use vstd::prelude::*;

use super::{TARGET_CHANNELS, TARGET_SAMPLE_RATE};

verus! {

/// Sentinel written into the RIFF and `data` size fields on start.
pub const PLACEHOLDER_SIZE: u32 = 0xFFFF_FFFF;

/// Bits per PCM sample.
pub const BITS_PER_SAMPLE: u16 = 16;

/// Length of the canonical header in bytes.
pub const HEADER_LEN: u32 = 44;

/// Byte offset of the RIFF chunk-size field.
pub const RIFF_SIZE_OFFSET: u64 = 4;

/// Byte offset of the `data` chunk-size field.
pub const DATA_SIZE_OFFSET: u64 = 40;

// ---------------------------------------------------------------------------
// Byte-level model
// ---------------------------------------------------------------------------

/// Little-endian encoding of a `u16`.
pub open spec fn le16(v: u16) -> Seq<u8> {
    seq![(v % 256) as u8, (v / 256) as u8]
}

/// Little-endian encoding of a `u32`.
pub open spec fn le32(v: u32) -> Seq<u8> {
    seq![(v % 256) as u8, (v / 256 % 256) as u8, (v / 65536 % 256) as u8, (v / 16777216) as u8]
}

/// The value of four little-endian bytes.
pub open spec fn le32_value(b: Seq<u8>) -> int {
    b[0] as int + 256 * (b[1] as int) + 65536 * (b[2] as int) + 16777216 * (b[3] as int)
}

/// Four ASCII bytes.
pub open spec fn tag4(a: u8, b: u8, c: u8, d: u8) -> Seq<u8> {
    seq![a, b, c, d]
}

/// The canonical 44-byte header of a 16 kHz mono 16-bit PCM WAV file with the
/// given RIFF and `data` size fields.
pub open spec fn header_spec(riff_size: u32, data_size: u32) -> Seq<u8> {
    tag4(0x52, 0x49, 0x46, 0x46)  // "RIFF"
    + le32(riff_size)
    + tag4(0x57, 0x41, 0x56, 0x45)  // "WAVE"
    + tag4(0x66, 0x6d, 0x74, 0x20)  // "fmt "
    + le32(16)  // PCM fmt chunk size
    + le16(1)  // audio format = PCM
    + le16(TARGET_CHANNELS)
    + le32(TARGET_SAMPLE_RATE)
    + le32(32000)  // byte rate = rate * block align
    + le16(2)  // block align = channels * 16 bit
    + le16(BITS_PER_SAMPLE)
    + tag4(0x64, 0x61, 0x74, 0x61)  // "data"
    + le32(data_size)
}

/// The two's-complement bit pattern of a sample.
pub open spec fn sample_bits(s: i16) -> int {
    if s < 0 {
        s + 65536
    } else {
        s as int
    }
}

/// Byte `k` (0 = low, 1 = high) of a sample in little-endian order.
pub open spec fn sample_byte(s: i16, k: int) -> u8 {
    if k == 0 {
        (sample_bits(s) % 256) as u8
    } else {
        (sample_bits(s) / 256) as u8
    }
}

/// Little-endian 16-bit PCM encoding of a run of samples.
pub open spec fn pcm_spec(samples: Seq<i16>) -> Seq<u8> {
    Seq::new(2 * samples.len(), |j: int| sample_byte(samples[j / 2], j % 2))
}

/// `f` with the bytes `b` written over it from offset `off` on.
pub open spec fn splice(f: Seq<u8>, off: int, b: Seq<u8>) -> Seq<u8> {
    Seq::new(f.len(), |i: int| if off <= i < off + b.len() { b[i - off] } else { f[i] })
}

/// `f` with its RIFF field set to `36 + data` and its `data` field set to `data`.
pub open spec fn with_sizes(f: Seq<u8>, data: u32) -> Seq<u8> {
    splice(
        splice(f, RIFF_SIZE_OFFSET as int, le32((36 + data) as u32)),
        DATA_SIZE_OFFSET as int,
        le32(data),
    )
}

/// The complete, finalized WAV file holding `samples`.
pub open spec fn wav_spec(samples: Seq<i16>) -> Seq<u8> {
    header_spec((36 + 2 * samples.len()) as u32, (2 * samples.len()) as u32) + pcm_spec(samples)
}

/// Whether a file was never finalized: it is at least a header long and its
/// `data` size field still holds the placeholder.
pub open spec fn is_unfinalized(f: Seq<u8>) -> bool {
    f.len() >= HEADER_LEN && le32_value(f.subrange(40, 44)) == PLACEHOLDER_SIZE
}

/// The `data` size a repair records for a file of `total` bytes: the payload
/// after the header rounded down to a whole sample frame, kept to 32 bits.
pub open spec fn recovered_data_size(total: int) -> u32 {
    (((total - HEADER_LEN) - (total - HEADER_LEN) % 2) % 4294967296) as u32
}

// ---------------------------------------------------------------------------
// Encoding
// ---------------------------------------------------------------------------

/// Bytes per sample frame (one channel, 16 bits).
pub fn block_align() -> (r: u16)
    ensures
        r == 2,
{
    TARGET_CHANNELS * (BITS_PER_SAMPLE / 8)
}

fn push_le16(out: &mut Vec<u8>, v: u16)
    ensures
        final(out)@ == old(out)@ + le16(v),
{
    out.push((v % 256) as u8);
    out.push((v / 256) as u8);
    assert(final(out)@ =~= old(out)@ + le16(v));
}

fn push_le32(out: &mut Vec<u8>, v: u32)
    ensures
        final(out)@ == old(out)@ + le32(v),
{
    out.push((v % 256) as u8);
    out.push((v / 256 % 256) as u8);
    out.push((v / 65536 % 256) as u8);
    out.push((v / 16777216) as u8);
    assert(final(out)@ =~= old(out)@ + le32(v));
}

fn push_tag(out: &mut Vec<u8>, a: u8, b: u8, c: u8, d: u8)
    ensures
        final(out)@ == old(out)@ + tag4(a, b, c, d),
{
    out.push(a);
    out.push(b);
    out.push(c);
    out.push(d);
    assert(final(out)@ =~= old(out)@ + tag4(a, b, c, d));
}

/// The four little-endian bytes of `v`.
pub fn le32_bytes(v: u32) -> (r: [u8; 4])
    ensures
        r@ == le32(v),
{
    let r = [(v % 256) as u8, (v / 256 % 256) as u8, (v / 65536 % 256) as u8, (v / 16777216) as u8];
    assert(r@ =~= le32(v));
    r
}

/// Append the canonical header with the given size fields to `out`.
pub fn write_header(out: &mut Vec<u8>, riff_size: u32, data_size: u32)
    ensures
        final(out)@ == old(out)@ + header_spec(riff_size, data_size),
{
    let byte_rate: u32 = TARGET_SAMPLE_RATE * block_align() as u32;
    let ghost start = out@;
    push_tag(out, 0x52, 0x49, 0x46, 0x46);
    push_le32(out, riff_size);
    push_tag(out, 0x57, 0x41, 0x56, 0x45);
    push_tag(out, 0x66, 0x6d, 0x74, 0x20);
    push_le32(out, 16);
    push_le16(out, 1);
    push_le16(out, TARGET_CHANNELS);
    push_le32(out, TARGET_SAMPLE_RATE);
    push_le32(out, byte_rate);
    push_le16(out, block_align());
    push_le16(out, BITS_PER_SAMPLE);
    push_tag(out, 0x64, 0x61, 0x74, 0x61);
    push_le32(out, data_size);
    assert(out@ =~= start + header_spec(riff_size, data_size));
}

proof fn lemma_pcm_take_step(samples: Seq<i16>, i: int)
    requires
        0 <= i < samples.len(),
    ensures
        pcm_spec(samples.take(i + 1)) == pcm_spec(samples.take(i)) + seq![
            sample_byte(samples[i], 0),
            sample_byte(samples[i], 1),
        ],
{
    let a = pcm_spec(samples.take(i + 1));
    let b = pcm_spec(samples.take(i)) + seq![sample_byte(samples[i], 0), sample_byte(samples[i], 1)];
    assert forall|j: int| 0 <= j < a.len() implies a[j] == b[j] by {
        if j < 2 * i {
            assert(j / 2 < i);
        } else {
            assert(j / 2 == i);
        }
    }
    assert(a =~= b);
}

/// Append the little-endian PCM encoding of `samples` to `out`: two bytes
/// per sample, low byte first, forming its 16-bit two's-complement value.
pub fn encode_samples(out: &mut Vec<u8>, samples: &[i16])
    ensures
        final(out)@ == old(out)@ + pcm_spec(samples@),
        final(out)@.len() == old(out)@.len() + 2 * samples@.len(),
        final(out)@.subrange(0, old(out)@.len() as int) == old(out)@,
        forall|i: int|
            0 <= i < samples@.len() ==> final(out)@[old(out)@.len() + 2 * i] as int
                + 256 * (final(out)@[old(out)@.len() + 2 * i + 1] as int)
                == (samples@[i] as int + 65536) % 65536,
{
    let ghost start = out@;
    let mut i: usize = 0;
    assert(pcm_spec(samples@.take(0)) =~= Seq::<u8>::empty());
    while i < samples.len()
        invariant
            i <= samples.len(),
            out@ == start + pcm_spec(samples@.take(i as int)),
        decreases samples.len() - i,
    {
        let s = samples[i];
        let bits: u16 = if s < 0 {
            (s as i32 + 65536) as u16
        } else {
            s as u16
        };
        let lo: u8 = (bits % 256) as u8;
        let hi: u8 = (bits / 256) as u8;
        out.push(lo);
        out.push(hi);
        proof {
            lemma_pcm_take_step(samples@, i as int);
            assert(lo == sample_byte(s, 0));
            assert(hi == sample_byte(s, 1));
            assert(out@ =~= start + pcm_spec(samples@.take(i + 1)));
        }
        i += 1;
    }
    assert(samples@.take(samples@.len() as int) =~= samples@);
    proof {
        assert(out@.subrange(0, start.len() as int) =~= start);
        assert forall|i: int| 0 <= i < samples@.len() implies out@[start.len() + 2 * i] as int + 256
            * (out@[start.len() + 2 * i + 1] as int) == (samples@[i] as int + 65536) % 65536 by {
            lemma_pcm_bytes_are_twos_complement(samples@, i);
        }
    }
}

// ---------------------------------------------------------------------------
// Writer state
// ---------------------------------------------------------------------------

/// A four-byte write at a fixed offset of the file.
#[derive(Debug, Clone, Copy)]
pub struct SizePatch {
    pub offset: u64,
    pub bytes: [u8; 4],
}

/// Streaming WAV writer state: how many PCM bytes have been appended after
/// the header. The caller owns the sink and writes what the writer produces.
#[derive(Debug, Clone, Copy)]
pub struct WavWriter {
    data_bytes: u32,
}

impl WavWriter {
    /// Number of PCM bytes appended so far.
    pub closed spec fn written(&self) -> u32 {
        self.data_bytes
    }

    /// Start a recording: append the header with placeholder sizes to `out`.
    pub fn new(out: &mut Vec<u8>) -> (w: WavWriter)
        ensures
            final(out)@ == old(out)@ + header_spec(PLACEHOLDER_SIZE, PLACEHOLDER_SIZE),
            w.written() == 0,
    {
        write_header(out, PLACEHOLDER_SIZE, PLACEHOLDER_SIZE);
        WavWriter { data_bytes: 0 }
    }

    /// Number of PCM bytes appended so far.
    pub fn data_bytes(&self) -> (r: u32)
        ensures
            r == self.written(),
    {
        self.data_bytes
    }

    /// Whether appending `n` samples keeps the byte count within 32 bits.
    pub fn can_append(&self, n: usize) -> (r: bool)
        ensures
            r == (self.written() + (2 * n) % 4294967296 <= u32::MAX),
    {
        let added: u64 = (2 * (n as u128) % 4294967296) as u64;
        self.data_bytes as u64 + added <= u32::MAX as u64
    }

    /// Whether the RIFF size `36 + data` fits in its 32-bit field.
    pub fn can_finalize(&self) -> (r: bool)
        ensures
            r == (self.written() <= u32::MAX - 36),
    {
        self.data_bytes <= u32::MAX - 36
    }

    /// Append mono 16-bit PCM samples: their encoding goes to `out` and the
    /// byte count grows by the encoded length, kept to 32 bits.
    pub fn append(&mut self, out: &mut Vec<u8>, samples: &[i16])
        requires
            old(self).written() + (2 * samples@.len()) % 4294967296 <= u32::MAX,
        ensures
            final(out)@ == old(out)@ + pcm_spec(samples@),
            final(self).written() == old(self).written() + (2 * samples@.len()) % 4294967296,
            forall|i: int|
                0 <= i < samples@.len() ==> final(out)@[old(out)@.len() + 2 * i] as int
                    + 256 * (final(out)@[old(out)@.len() + 2 * i + 1] as int)
                    == (samples@[i] as int + 65536) % 65536,
    {
        let mut buf: Vec<u8> = Vec::new();
        encode_samples(&mut buf, samples);
        let added: u32 = (buf.len() as u64 % 4294967296) as u32;
        self.data_bytes = self.data_bytes + added;
        let mut i: usize = 0;
        let ghost start = out@;
        while i < buf.len()
            invariant
                i <= buf.len(),
                out@ == start + buf@.take(i as int),
            decreases buf.len() - i,
        {
            out.push(buf[i]);
            assert(buf@.take(i + 1) =~= buf@.take(i as int).push(buf@[i as int]));
            i += 1;
        }
        assert(buf@.take(buf.len() as int) =~= buf@);
        proof {
            assert forall|i: int| 0 <= i < samples@.len() implies out@[start.len() + 2 * i] as int
                + 256 * (out@[start.len() + 2 * i + 1] as int) == (samples@[i] as int + 65536)
                % 65536 by {
                lemma_pcm_bytes_are_twos_complement(samples@, i);
            }
        }
    }

    /// The two size patches that finalize the file: the RIFF field becomes
    /// `36 + data` and the `data` field the PCM byte count.
    pub fn finalize(&self) -> (p: [SizePatch; 2])
        requires
            self.written() <= u32::MAX - 36,
        ensures
            p@[0].offset == RIFF_SIZE_OFFSET,
            p@[0].bytes@ == le32((36 + self.written()) as u32),
            p@[1].offset == DATA_SIZE_OFFSET,
            p@[1].bytes@ == le32(self.written()),
    {
        size_patches(self.data_bytes)
    }
}

fn size_patches(data: u32) -> (p: [SizePatch; 2])
    requires
        data <= u32::MAX - 36,
    ensures
        p@[0].offset == RIFF_SIZE_OFFSET,
        p@[0].bytes@ == le32((36 + data) as u32),
        p@[1].offset == DATA_SIZE_OFFSET,
        p@[1].bytes@ == le32(data),
{
    [
        SizePatch { offset: RIFF_SIZE_OFFSET, bytes: le32_bytes(36 + data) },
        SizePatch { offset: DATA_SIZE_OFFSET, bytes: le32_bytes(data) },
    ]
}

// ---------------------------------------------------------------------------
// Repair
// ---------------------------------------------------------------------------

/// Whether a size field still holds the placeholder.
pub fn is_placeholder(field: [u8; 4]) -> (r: bool)
    ensures
        r == (le32_value(field@) == PLACEHOLDER_SIZE),
{
    let value: u32 = field[0] as u32 + 256 * (field[1] as u32) + 65536 * (field[2] as u32)
        + 16777216 * (field[3] as u32);
    value == PLACEHOLDER_SIZE
}

/// Whether the sizes a repair would record for a file of `total_len` bytes
/// fit their 32-bit fields.
pub fn repair_fits(total_len: u64) -> (r: bool)
    ensures
        r == (total_len >= HEADER_LEN ==> recovered_data_size(total_len as int) <= u32::MAX - 36),
{
    if total_len < HEADER_LEN as u64 {
        return true;
    }
    let payload: u64 = total_len - HEADER_LEN as u64;
    let data_bytes: u64 = (payload - payload % 2) % 4294967296;
    data_bytes <= (u32::MAX - 36) as u64
}

/// Decide how to repair a file of `total_len` bytes whose `data` size field
/// holds `data_size_field`: `None` when the file is shorter than a header or
/// was finalized, otherwise the size patches for the payload rounded down to
/// a whole sample frame.
pub fn repair_plan(total_len: u64, data_size_field: [u8; 4]) -> (r: Option<[SizePatch; 2]>)
    requires
        total_len >= HEADER_LEN && le32_value(data_size_field@) == PLACEHOLDER_SIZE
            ==> recovered_data_size(total_len as int) <= u32::MAX - 36,
    ensures
        r is Some <==> (total_len >= HEADER_LEN && le32_value(data_size_field@)
            == PLACEHOLDER_SIZE),
        r matches Some(p) ==> {
            &&& p@[0].offset == RIFF_SIZE_OFFSET
            &&& p@[0].bytes@ == le32((36 + recovered_data_size(total_len as int)) as u32)
            &&& p@[1].offset == DATA_SIZE_OFFSET
            &&& p@[1].bytes@ == le32(recovered_data_size(total_len as int))
        },
{
    if total_len < HEADER_LEN as u64 {
        return None;
    }
    if !is_placeholder(data_size_field) {
        return None;
    }
    let payload: u64 = total_len - HEADER_LEN as u64;
    let align: u64 = block_align() as u64;
    let data_bytes: u32 = ((payload - payload % align) % 4294967296) as u32;
    Some(size_patches(data_bytes))
}

/// Write a size patch into an in-memory file.
pub fn apply_patch(file: &mut Vec<u8>, patch: &SizePatch)
    requires
        patch.offset + 4 <= old(file)@.len(),
    ensures
        final(file)@ == splice(old(file)@, patch.offset as int, patch.bytes@),
{
    let n: usize = file.len();
    assert(patch.offset < n);
    let off = patch.offset as usize;
    let mut k: usize = 0;
    let ghost start = file@;
    while k < 4
        invariant
            k <= 4,
            off + 4 <= start.len(),
            n == start.len(),
            off == patch.offset,
            file@.len() == start.len(),
            forall|i: int|
                0 <= i < start.len() ==> #[trigger] file@[i] == if off <= i < off + k {
                    patch.bytes@[i - off]
                } else {
                    start[i]
                },
        decreases 4 - k,
    {
        file.set(off + k, patch.bytes[k]);
        k += 1;
    }
    assert(file@ =~= splice(start, patch.offset as int, patch.bytes@));
}

/// Repair an unfinalized in-memory WAV file in place. Returns `true` if it
/// repaired, `false` if the file is shorter than a header or already
/// finalized (the bytes are then unchanged).
pub fn repair(file: &mut Vec<u8>) -> (r: bool)
    requires
        is_unfinalized(old(file)@) ==> recovered_data_size(old(file)@.len() as int) <= u32::MAX
            - 36,
    ensures
        r == is_unfinalized(old(file)@),
        r ==> final(file)@ == with_sizes(
            old(file)@,
            recovered_data_size(old(file)@.len() as int),
        ),
        !r ==> final(file)@ == old(file)@,
{
    let total: u64 = file.len() as u64;
    if total < HEADER_LEN as u64 {
        return false;
    }
    let field: [u8; 4] = [file[40], file[41], file[42], file[43]];
    assert(field@ =~= file@.subrange(40, 44));
    match repair_plan(total, field) {
        None => false,
        Some(p) => {
            apply_patch(file, &p[0]);
            apply_patch(file, &p[1]);
            true
        },
    }
}

// ---------------------------------------------------------------------------
// Laws
// ---------------------------------------------------------------------------

/// A size field decodes back to the size written into it.
pub proof fn lemma_le32_value(v: u32)
    ensures
        le32(v).len() == 4,
        le32_value(le32(v)) == v,
{
    let b = le32(v);
    assert(b[0] as int == v % 256);
    assert(b[1] as int == v / 256 % 256);
    assert(b[2] as int == v / 65536 % 256);
    assert(b[3] as int == v / 16777216) by {
        assert(v / 16777216 < 256);
    }
    assert((v % 256) + 256 * (v / 256 % 256) + 65536 * (v / 65536 % 256) + 16777216 * (v
        / 16777216) == v) by (nonlinear_arith);
}

/// The two bytes written for a sample are its 16-bit two's-complement value,
/// low byte first.
pub proof fn lemma_sample_bytes_are_twos_complement(s: i16)
    ensures
        sample_byte(s, 0) as int + 256 * (sample_byte(s, 1) as int) == (s as int + 65536) % 65536,
{
    let b = sample_bits(s);
    assert(0 <= b < 65536);
    assert(b == (s as int + 65536) % 65536);
    assert((b % 256) + 256 * (b / 256) == b) by (nonlinear_arith);
}

/// Sample `i` of a run is encoded at bytes `2i` and `2i + 1` of its PCM, as
/// its 16-bit two's-complement value, low byte first.
pub proof fn lemma_pcm_bytes_are_twos_complement(samples: Seq<i16>, i: int)
    requires
        0 <= i < samples.len(),
    ensures
        pcm_spec(samples).len() == 2 * samples.len(),
        pcm_spec(samples)[2 * i] as int + 256 * (pcm_spec(samples)[2 * i + 1] as int) == (
        samples[i] as int + 65536) % 65536,
{
    assert((2 * i) / 2 == i && (2 * i) % 2 == 0);
    assert((2 * i + 1) / 2 == i && (2 * i + 1) % 2 == 1);
    lemma_sample_bytes_are_twos_complement(samples[i]);
}

/// Encoding samples in several runs gives the same bytes as encoding them at
/// once: appending chunk after chunk builds the same payload.
pub proof fn lemma_pcm_concat(a: Seq<i16>, b: Seq<i16>)
    ensures
        pcm_spec(a + b) == pcm_spec(a) + pcm_spec(b),
{
    let l = pcm_spec(a + b);
    let r = pcm_spec(a) + pcm_spec(b);
    assert forall|j: int| 0 <= j < l.len() implies l[j] == r[j] by {
        if j < 2 * a.len() {
            assert(j / 2 < a.len());
        } else {
            assert((j - 2 * a.len()) / 2 == j / 2 - a.len());
            assert((j - 2 * a.len()) % 2 == j % 2);
        }
    }
    assert(l =~= r);
}

/// Setting the size fields of a file that starts with a header yields the
/// header with those sizes, the rest unchanged.
proof fn lemma_with_sizes_on_header(r0: u32, d0: u32, rest: Seq<u8>, data: u32)
    requires
        data <= u32::MAX - 36,
    ensures
        with_sizes(header_spec(r0, d0) + rest, data) == header_spec((36 + data) as u32, data)
            + rest,
{
    let f = header_spec(r0, d0) + rest;
    let g = header_spec((36 + data) as u32, data) + rest;
    assert(header_spec(r0, d0).len() == 44);
    assert(header_spec((36 + data) as u32, data).len() == 44);
    let w = with_sizes(f, data);
    assert forall|i: int| 0 <= i < g.len() implies w[i] == g[i] by {
        if i < 44 {
            assert(header_spec(r0, d0)[i] == f[i]);
            assert(header_spec((36 + data) as u32, data)[i] == g[i]);
        } else {
            assert(f[i] == rest[i - 44]);
            assert(g[i] == rest[i - 44]);
        }
    }
    assert(w =~= g);
}

/// A writer's output, finalized, is the canonical WAV file of the samples it
/// was given: the header with placeholder sizes followed by their PCM, once
/// the finalize patches are applied, equals the finalized file.
pub proof fn lemma_finalize_yields_canonical_file(samples: Seq<i16>)
    requires
        2 * samples.len() <= u32::MAX - 36,
    ensures
        with_sizes(
            header_spec(PLACEHOLDER_SIZE, PLACEHOLDER_SIZE) + pcm_spec(samples),
            (2 * samples.len()) as u32,
        ) == wav_spec(samples),
{
    lemma_with_sizes_on_header(
        PLACEHOLDER_SIZE,
        PLACEHOLDER_SIZE,
        pcm_spec(samples),
        (2 * samples.len()) as u32,
    );
}

/// A file left unfinalized by a forced kill (placeholder header, the PCM of
/// the samples written so far, and possibly one stray byte of a torn frame)
/// is detected as unfinalized, and repairing it gives exactly the finalized
/// file of those samples, the stray byte kept after it.
pub proof fn lemma_repair_recovers_partial(samples: Seq<i16>, stray: Seq<u8>)
    requires
        2 * samples.len() <= u32::MAX - 36,
        stray.len() < 2,
    ensures
        is_unfinalized(header_spec(PLACEHOLDER_SIZE, PLACEHOLDER_SIZE) + pcm_spec(samples) + stray),
        recovered_data_size(
            (header_spec(PLACEHOLDER_SIZE, PLACEHOLDER_SIZE) + pcm_spec(samples) + stray).len() as int,
        ) == 2 * samples.len(),
        with_sizes(
            header_spec(PLACEHOLDER_SIZE, PLACEHOLDER_SIZE) + pcm_spec(samples) + stray,
            recovered_data_size(
                (header_spec(PLACEHOLDER_SIZE, PLACEHOLDER_SIZE) + pcm_spec(samples) + stray).len() as int,
            ),
        ) == wav_spec(samples) + stray,
{
    let h = header_spec(PLACEHOLDER_SIZE, PLACEHOLDER_SIZE);
    let f = h + pcm_spec(samples) + stray;
    assert(h.len() == 44);
    let n = 2 * samples.len();
    assert(f.len() == 44 + n + stray.len());
    assert((n + stray.len()) % 2 == stray.len()) by {
        assert(n % 2 == 0);
    }
    assert(recovered_data_size(f.len() as int) == n);
    assert(f.subrange(40, 44) =~= le32(PLACEHOLDER_SIZE)) by {
        assert forall|i: int| 0 <= i < 4 implies f.subrange(40, 44)[i] == le32(PLACEHOLDER_SIZE)[i] by {
            assert(f[40 + i] == h[40 + i]);
        }
    }
    lemma_le32_value(PLACEHOLDER_SIZE);
    assert(f =~= h + (pcm_spec(samples) + stray));
    lemma_with_sizes_on_header(PLACEHOLDER_SIZE, PLACEHOLDER_SIZE, pcm_spec(samples) + stray, n as u32);
    assert(wav_spec(samples) + stray =~= header_spec((36 + n) as u32, n as u32) + (pcm_spec(samples)
        + stray));
}

/// A finalized file is never taken for an unfinalized one, so repair leaves
/// it untouched.
pub proof fn lemma_finalized_file_is_not_repaired(samples: Seq<i16>)
    requires
        2 * samples.len() <= u32::MAX - 36,
    ensures
        !is_unfinalized(wav_spec(samples)),
{
    let n = (2 * samples.len()) as u32;
    let f = wav_spec(samples);
    let h = header_spec((36 + n) as u32, n);
    assert(h.len() == 44);
    assert(f.subrange(40, 44) =~= le32(n)) by {
        assert forall|i: int| 0 <= i < 4 implies f.subrange(40, 44)[i] == le32(n)[i] by {
            assert(f[40 + i] == h[40 + i]);
        }
    }
    lemma_le32_value(n);
}

proof fn lemma_recovered_size_is_even(total: int)
    requires
        total >= HEADER_LEN,
    ensures
        recovered_data_size(total) % 2 == 0,
{
    let p = (total - 44) - (total - 44) % 2;
    assert(p % 2 == 0);
    let q = p / 4294967296;
    let m = p % 4294967296;
    assert(p == 4294967296 * q + m) by (nonlinear_arith)
        requires
            q == p / 4294967296,
            m == p % 4294967296,
    ;
    assert(m % 2 == 0) by (nonlinear_arith)
        requires
            p == 4294967296 * q + m,
            p % 2 == 0,
    ;
}

/// A repair counts whole sample frames only: for a file whose payload after
/// the header fits in 32 bits, the recorded size is even, at most the
/// payload, and less than two bytes short of it.
pub proof fn lemma_recovered_size_counts_whole_frames(total: int)
    requires
        HEADER_LEN <= total,
        total - HEADER_LEN < 4294967296,
    ensures
        recovered_data_size(total) % 2 == 0,
        recovered_data_size(total) <= total - HEADER_LEN < recovered_data_size(total) + 2,
{
    lemma_recovered_size_is_even(total);
}

/// Repair is idempotent: a repaired file is no longer unfinalized.
pub proof fn lemma_repair_is_idempotent(f: Seq<u8>)
    requires
        is_unfinalized(f),
        recovered_data_size(f.len() as int) <= u32::MAX - 36,
    ensures
        !is_unfinalized(with_sizes(f, recovered_data_size(f.len() as int))),
{
    let d = recovered_data_size(f.len() as int);
    let g = with_sizes(f, d);
    assert(g.subrange(40, 44) =~= le32(d));
    lemma_le32_value(d);
    lemma_recovered_size_is_even(f.len() as int);
}

} // verus!
