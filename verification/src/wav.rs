//! The 44-byte header of the recorder's PCM WAV files (mono, 16 kHz,
//! 16-bit little-endian) and how a header found on disk is judged.

use vstd::prelude::*;

verus! {

/// Bytes in the canonical PCM WAV header.
pub const WAV_HEADER_BYTES: u64 = 44;
/// Bytes per 16-bit mono sample.
pub const PCM16_BYTES_PER_SAMPLE: u64 = 2;
/// The recorder's sample rate.
pub const WAV_SAMPLE_RATE_HZ: u32 = 16_000;
/// Bytes per second at that rate.
pub const WAV_BYTE_RATE: u32 = 32_000;

/// Low byte first.
pub open spec fn le16(v: u16) -> Seq<u8> {
    seq![(v & 0xff) as u8, (v >> 8) as u8]
}

/// Low byte first.
pub open spec fn le32(v: u32) -> Seq<u8> {
    seq![(v & 0xff) as u8, ((v >> 8) & 0xff) as u8, ((v >> 16) & 0xff) as u8, (v >> 24) as u8]
}

pub open spec fn read_le16(h: Seq<u8>, at: int) -> u16 {
    (h[at] as u16) | ((h[at + 1] as u16) << 8)
}

pub open spec fn read_le32(h: Seq<u8>, at: int) -> u32 {
    (h[at] as u32) | ((h[at + 1] as u32) << 8) | ((h[at + 2] as u32) << 16) | ((h[at + 3] as u32) << 24)
}

/// The four ASCII bytes of a chunk tag.
pub open spec fn tag(a: char, b: char, c: char, d: char) -> Seq<u8> {
    seq![a as u8, b as u8, c as u8, d as u8]
}

/// The header for `data_bytes` bytes of samples.
pub open spec fn wav_header(data_bytes: u32) -> Seq<u8>
    recommends
        36 + data_bytes <= u32::MAX,
{
    tag('R', 'I', 'F', 'F') + le32((36 + data_bytes) as u32) + tag('W', 'A', 'V', 'E') + tag('f', 'm', 't', ' ')
        + le32(16) + le16(1) + le16(1) + le32(WAV_SAMPLE_RATE_HZ) + le32(WAV_BYTE_RATE)
        + le16(2) + le16(16) + tag('d', 'a', 't', 'a') + le32(data_bytes)
}

fn push_le16(out: &mut Vec<u8>, v: u16)
    ensures
        final(out)@ == old(out)@ + le16(v),
{
    out.push((v & 0xff) as u8);
    out.push((v >> 8) as u8);
    proof {
        assert(final(out)@ =~= old(out)@ + le16(v));
    }
}

fn push_le32(out: &mut Vec<u8>, v: u32)
    ensures
        final(out)@ == old(out)@ + le32(v),
{
    out.push((v & 0xff) as u8);
    out.push(((v >> 8) & 0xff) as u8);
    out.push(((v >> 16) & 0xff) as u8);
    out.push((v >> 24) as u8);
    proof {
        assert(final(out)@ =~= old(out)@ + le32(v));
    }
}

fn push_tag(out: &mut Vec<u8>, a: char, b: char, c: char, d: char)
    requires
        (a as u32) < 128 && (b as u32) < 128 && (c as u32) < 128 && (d as u32) < 128,
    ensures
        final(out)@ == old(out)@ + tag(a, b, c, d),
{
    out.push(a as u8);
    out.push(b as u8);
    out.push(c as u8);
    out.push(d as u8);
    proof {
        assert(final(out)@ =~= old(out)@ + tag(a, b, c, d));
    }
}

/// The header bytes for `data_bytes` bytes of samples; refused when the
/// lengths do not fit the format's 32-bit fields.
pub fn wav_header_bytes(data_bytes: u64) -> (r: Result<Vec<u8>, String>)
    ensures
        r is Ok <==> 36 + data_bytes <= u32::MAX,
        r matches Ok(h) ==> h@ == wav_header(data_bytes as u32) && h@.len() == WAV_HEADER_BYTES,
        r matches Err(e) ==> e@ == "Live recording exceeds the WAV 32-bit data-length limit"@,
{
    if data_bytes > 0xffff_ffff || data_bytes > 0xffff_ffff - 36 {
        return Err(String::from_str("Live recording exceeds the WAV 32-bit data-length limit"));
    }
    let data = data_bytes as u32;
    let mut out: Vec<u8> = Vec::new();
    push_tag(&mut out, 'R', 'I', 'F', 'F');
    push_le32(&mut out, 36 + data);
    push_tag(&mut out, 'W', 'A', 'V', 'E');
    push_tag(&mut out, 'f', 'm', 't', ' ');
    push_le32(&mut out, 16);
    push_le16(&mut out, 1);
    push_le16(&mut out, 1);
    push_le32(&mut out, WAV_SAMPLE_RATE_HZ);
    push_le32(&mut out, WAV_BYTE_RATE);
    push_le16(&mut out, 2);
    push_le16(&mut out, 16);
    push_tag(&mut out, 'd', 'a', 't', 'a');
    push_le32(&mut out, data);
    Ok(out)
}

/// The fixed fields of the recorder's header: chunk tags, PCM format, one
/// channel, 16 kHz, 32000 bytes per second, 2-byte blocks, 16 bits.
pub open spec fn header_shape_ok(h: Seq<u8>) -> bool {
    &&& h.subrange(0, 4) == tag('R', 'I', 'F', 'F')
    &&& h.subrange(8, 12) == tag('W', 'A', 'V', 'E')
    &&& h.subrange(12, 16) == tag('f', 'm', 't', ' ')
    &&& read_le32(h, 16) == 16
    &&& read_le16(h, 20) == 1
    &&& read_le16(h, 22) == 1
    &&& read_le32(h, 24) == WAV_SAMPLE_RATE_HZ
    &&& read_le32(h, 28) == WAV_BYTE_RATE
    &&& read_le16(h, 32) == 2
    &&& read_le16(h, 34) == 16
    &&& h.subrange(36, 40) == tag('d', 'a', 't', 'a')
}

/// Why a file found on disk is not recoverable audio.
#[derive(Debug, Clone, Copy, PartialEq, Eq, Structural)]
pub enum WavRejection {
    ShorterThanHeader,
    NotRecorderPcm,
    UnalignedData,
    LengthMismatch,
}

/// How a file of `length` bytes whose first 44 bytes are `header` is judged:
/// its sample byte count, and whether the header still holds the placeholder
/// lengths written when recording started.
pub open spec fn recoverable_wav(length: u64, header: Seq<u8>) -> Result<(u64, bool), WavRejection> {
    if length < WAV_HEADER_BYTES {
        Err(WavRejection::ShorterThanHeader)
    } else if !header_shape_ok(header) {
        Err(WavRejection::NotRecorderPcm)
    } else if (length - WAV_HEADER_BYTES) % (PCM16_BYTES_PER_SAMPLE as int) != 0 {
        Err(WavRejection::UnalignedData)
    } else {
        let data = (length - WAV_HEADER_BYTES) as u64;
        let riff = read_le32(header, 4);
        let declared = read_le32(header, 40);
        let placeholder = riff == 36 && declared == 0;
        let finalized = riff == 36 + data && declared == data;
        if !placeholder && !finalized {
            Err(WavRejection::LengthMismatch)
        } else {
            Ok((data, placeholder))
        }
    }
}

fn get_le16(h: &Vec<u8>, at: usize) -> (v: u16)
    requires
        at + 2 <= h.len(),
    ensures
        v == read_le16(h@, at as int),
{
    (h[at] as u16) | ((h[at + 1] as u16) << 8)
}

fn get_le32(h: &Vec<u8>, at: usize) -> (v: u32)
    requires
        at + 4 <= h.len(),
    ensures
        v == read_le32(h@, at as int),
{
    (h[at] as u32) | ((h[at + 1] as u32) << 8) | ((h[at + 2] as u32) << 16) | ((h[at + 3] as u32) << 24)
}

fn has_tag(h: &Vec<u8>, at: usize, a: char, b: char, c: char, d: char) -> (r: bool)
    requires
        at + 4 <= h.len(),
        (a as u32) < 128 && (b as u32) < 128 && (c as u32) < 128 && (d as u32) < 128,
    ensures
        r == (h@.subrange(at as int, at + 4) == tag(a, b, c, d)),
{
    let r = h[at] == a as u8 && h[at + 1] == b as u8 && h[at + 2] == c as u8 && h[at + 3] == d as u8;
    proof {
        if r {
            assert(h@.subrange(at as int, at + 4) =~= tag(a, b, c, d));
        } else {
            if h@.subrange(at as int, at + 4) == tag(a, b, c, d) {
                assert(h@.subrange(at as int, at + 4)[0] == tag(a, b, c, d)[0]);
                assert(h@.subrange(at as int, at + 4)[1] == tag(a, b, c, d)[1]);
                assert(h@.subrange(at as int, at + 4)[2] == tag(a, b, c, d)[2]);
                assert(h@.subrange(at as int, at + 4)[3] == tag(a, b, c, d)[3]);
            }
        }
    }
    r
}

/// Judges a file of `length` bytes by its header (which the caller read only
/// when the file is at least a header long).
pub fn judge_recoverable_wav(length: u64, header: &Vec<u8>) -> (r: Result<(u64, bool), WavRejection>)
    requires
        length >= WAV_HEADER_BYTES ==> header.len() == WAV_HEADER_BYTES,
    ensures
        r == recoverable_wav(length, header@),
{
    if length < WAV_HEADER_BYTES {
        return Err(WavRejection::ShorterThanHeader);
    }
    let shape_ok = has_tag(header, 0, 'R', 'I', 'F', 'F')
        && has_tag(header, 8, 'W', 'A', 'V', 'E')
        && has_tag(header, 12, 'f', 'm', 't', ' ')
        && get_le32(header, 16) == 16
        && get_le16(header, 20) == 1
        && get_le16(header, 22) == 1
        && get_le32(header, 24) == WAV_SAMPLE_RATE_HZ
        && get_le32(header, 28) == WAV_BYTE_RATE
        && get_le16(header, 32) == 2
        && get_le16(header, 34) == 16
        && has_tag(header, 36, 'd', 'a', 't', 'a');
    if !shape_ok {
        return Err(WavRejection::NotRecorderPcm);
    }
    let data_bytes = length - WAV_HEADER_BYTES;
    if data_bytes % PCM16_BYTES_PER_SAMPLE != 0 {
        return Err(WavRejection::UnalignedData);
    }
    let riff_bytes = get_le32(header, 4) as u64;
    let declared_data_bytes = get_le32(header, 40) as u64;
    let placeholder = riff_bytes == 36 && declared_data_bytes == 0;
    let finalized = data_bytes <= u64::MAX - 36 && riff_bytes == 36 + data_bytes && declared_data_bytes == data_bytes;
    if !placeholder && !finalized {
        return Err(WavRejection::LengthMismatch);
    }
    Ok((data_bytes, placeholder))
}

/// The text that explains a rejection, after the artifact's label.
pub open spec fn rejection_text(rejection: WavRejection) -> Seq<char> {
    match rejection {
        WavRejection::ShorterThanHeader => " is shorter than a WAV header"@,
        WavRejection::NotRecorderPcm => " is not Yap PCM mono 16 kHz 16-bit WAV audio"@,
        WavRejection::UnalignedData => " has an unaligned PCM data length"@,
        WavRejection::LengthMismatch => " header lengths do not match its opened file length"@,
    }
}

/// `<label> <explanation>`.
pub fn rejection_message(label: &str, rejection: WavRejection) -> (s: String)
    ensures
        s@ == label@ + rejection_text(rejection),
{
    let mut s = String::from_str(label);
    let text = match rejection {
        WavRejection::ShorterThanHeader => " is shorter than a WAV header",
        WavRejection::NotRecorderPcm => " is not Yap PCM mono 16 kHz 16-bit WAV audio",
        WavRejection::UnalignedData => " has an unaligned PCM data length",
        WavRejection::LengthMismatch => " header lengths do not match its opened file length",
    };
    s.append(text);
    s
}

proof fn lemma_le32_round_trip(v: u32)
    ensures
        read_le32(le32(v), 0) == v,
{
    let b = le32(v);
    assert(b[0] == (v & 0xff) as u8);
    assert(b[1] == ((v >> 8) & 0xff) as u8);
    assert(b[2] == ((v >> 16) & 0xff) as u8);
    assert(b[3] == (v >> 24) as u8);
    assert((((v & 0xff) as u8) as u32) | ((((v >> 8) & 0xff) as u8) as u32) << 8
        | ((((v >> 16) & 0xff) as u8) as u32) << 16 | (((v >> 24) as u8) as u32) << 24 == v) by (bit_vector);
}

proof fn lemma_le16_round_trip(v: u16)
    ensures
        read_le16(le16(v), 0) == v,
{
    let b = le16(v);
    assert(b[0] == (v & 0xff) as u8);
    assert(b[1] == (v >> 8) as u8);
    assert((((v & 0xff) as u8) as u16) | ((((v >> 8) as u8) as u16) << 8) == v) by (bit_vector);
}

proof fn lemma_read_shifted32(a: Seq<u8>, b: Seq<u8>, at: int)
    requires
        0 <= at,
        at + 4 <= a.len(),
        a.subrange(at, at + 4) == b,
        b.len() == 4,
    ensures
        read_le32(a, at) == read_le32(b, 0),
{
    assert(a[at] == b[0]);
    assert(a[at + 1] == b[1]);
    assert(a[at + 2] == b[2]);
    assert(a[at + 3] == b[3]);
}

proof fn lemma_read_shifted16(a: Seq<u8>, b: Seq<u8>, at: int)
    requires
        0 <= at,
        at + 2 <= a.len(),
        a.subrange(at, at + 2) == b,
        b.len() == 2,
    ensures
        read_le16(a, at) == read_le16(b, 0),
{
    assert(a[at] == b[0]);
    assert(a[at + 1] == b[1]);
}

/// A header written for `data_bytes` bytes of samples reads back, on a file of
/// exactly that many sample bytes, as finalized audio of that length; the
/// placeholder header written at start (zero data bytes) reads back as a
/// placeholder over any aligned amount of samples appended after it.
pub proof fn law_written_header_reads_back(data_bytes: u32, appended: u64)
    requires
        36 + data_bytes <= u32::MAX,
        data_bytes % 2 == 0,
        appended % 2 == 0,
        appended + WAV_HEADER_BYTES <= u64::MAX,
    ensures
        recoverable_wav((WAV_HEADER_BYTES + data_bytes) as u64, wav_header(data_bytes)) == Ok::<(u64, bool), WavRejection>((data_bytes as u64, data_bytes == 0)),
        recoverable_wav((WAV_HEADER_BYTES + appended) as u64, wav_header(0)) == Ok::<(u64, bool), WavRejection>((appended, true)),
{
    lemma_header_fields(data_bytes);
    lemma_header_fields(0);
}

proof fn lemma_header_fields(data_bytes: u32)
    requires
        36 + data_bytes <= u32::MAX,
    ensures
        header_shape_ok(wav_header(data_bytes)),
        read_le32(wav_header(data_bytes), 4) == 36 + data_bytes,
        read_le32(wav_header(data_bytes), 40) == data_bytes,
{
    let h = wav_header(data_bytes);
    let riff = (36 + data_bytes) as u32;
    assert(h.len() == 44);
    assert(h.subrange(0, 4) =~= tag('R', 'I', 'F', 'F'));
    assert(h.subrange(4, 8) =~= le32(riff));
    assert(h.subrange(8, 12) =~= tag('W', 'A', 'V', 'E'));
    assert(h.subrange(12, 16) =~= tag('f', 'm', 't', ' '));
    assert(h.subrange(16, 20) =~= le32(16));
    assert(h.subrange(20, 22) =~= le16(1));
    assert(h.subrange(22, 24) =~= le16(1));
    assert(h.subrange(24, 28) =~= le32(WAV_SAMPLE_RATE_HZ));
    assert(h.subrange(28, 32) =~= le32(WAV_BYTE_RATE));
    assert(h.subrange(32, 34) =~= le16(2));
    assert(h.subrange(34, 36) =~= le16(16));
    assert(h.subrange(36, 40) =~= tag('d', 'a', 't', 'a'));
    assert(h.subrange(40, 44) =~= le32(data_bytes));
    lemma_le32_round_trip(riff);
    lemma_read_shifted32(h, le32(riff), 4);
    lemma_le32_round_trip(16);
    lemma_read_shifted32(h, le32(16), 16);
    lemma_le16_round_trip(1);
    lemma_read_shifted16(h, le16(1), 20);
    lemma_read_shifted16(h, le16(1), 22);
    lemma_le32_round_trip(WAV_SAMPLE_RATE_HZ);
    lemma_read_shifted32(h, le32(WAV_SAMPLE_RATE_HZ), 24);
    lemma_le32_round_trip(WAV_BYTE_RATE);
    lemma_read_shifted32(h, le32(WAV_BYTE_RATE), 28);
    lemma_le16_round_trip(2);
    lemma_read_shifted16(h, le16(2), 32);
    lemma_le16_round_trip(16);
    lemma_read_shifted16(h, le16(16), 34);
    lemma_le32_round_trip(data_bytes);
    lemma_read_shifted32(h, le32(data_bytes), 40);
}

} // verus!
