//! Byte-level audio plumbing: WAV framing of PCM samples, and payload
//! extraction from media packets.
//!
//! The playback side turns synthesised samples into a WAV container the
//! media driver accepts; the synthesis side reads the WAV a provider
//! returns. Both directions use the canonical 44-byte PCM header, and
//! decoding inverts encoding exactly.

use vstd::prelude::*;

use crate::stt::spec_s16le;

verus! {

/// A 16-bit value as little-endian bytes.
pub open spec fn le16(v: u16) -> Seq<u8> {
    seq![(v & 0xff) as u8, ((v >> 8) & 0xff) as u8]
}

/// A 32-bit value as little-endian bytes.
pub open spec fn le32(v: u32) -> Seq<u8> {
    seq![
        (v & 0xff) as u8,
        ((v >> 8) & 0xff) as u8,
        ((v >> 16) & 0xff) as u8,
        ((v >> 24) & 0xff) as u8,
    ]
}

/// The canonical WAV bytes for 16-bit mono PCM at this rate.
pub open spec fn spec_wav_bytes(samples: Seq<i16>, sample_rate: u32) -> Seq<u8> {
    "RIFF"@.map_values(|c: char| c as u8) + le32((36 + 2 * samples.len()) as u32) + "WAVE"@
        .map_values(|c: char| c as u8) + "fmt "@.map_values(|c: char| c as u8) + le32(16)
        + le16(1) + le16(1) + le32(sample_rate) + le32((sample_rate * 2) as u32) + le16(2)
        + le16(16) + "data"@.map_values(|c: char| c as u8) + le32((2 * samples.len()) as u32)
        + spec_s16le(samples)
}

fn push_le16(out: &mut Vec<u8>, v: u16)
    ensures
        final(out)@ == old(out)@ + le16(v),
{
    out.push((v & 0xff) as u8);
    out.push(((v >> 8) & 0xff) as u8);
    proof {
        assert(out@ =~= old(out)@ + le16(v));
    }
}

fn push_le32(out: &mut Vec<u8>, v: u32)
    ensures
        final(out)@ == old(out)@ + le32(v),
{
    out.push((v & 0xff) as u8);
    out.push(((v >> 8) & 0xff) as u8);
    out.push(((v >> 16) & 0xff) as u8);
    out.push(((v >> 24) & 0xff) as u8);
    proof {
        assert(out@ =~= old(out)@ + le32(v));
    }
}

/// Frame 16-bit mono PCM as a canonical WAV file.
pub fn pcm_i16_to_wav_bytes(samples: &[i16], sample_rate: u32) -> (r: Vec<u8>)
    requires
        2 * samples@.len() + 36 <= u32::MAX,
        2 * sample_rate <= u32::MAX,
    ensures
        r@ == spec_wav_bytes(samples@, sample_rate),
        r@.len() == 44 + 2 * samples@.len(),
{
    proof {
        reveal_strlit("RIFF");
        reveal_strlit("WAVE");
        reveal_strlit("fmt ");
        reveal_strlit("data");
    }
    let data_len = 2 * (samples.len() as u32);
    let mut out: Vec<u8> = Vec::new();
    out.push(0x52);
    out.push(0x49);
    out.push(0x46);
    out.push(0x46);
    proof {
        assert(out@ =~= "RIFF"@.map_values(|c: char| c as u8));
    }
    push_le32(&mut out, 36 + data_len);
    out.push(0x57);
    out.push(0x41);
    out.push(0x56);
    out.push(0x45);
    out.push(0x66);
    out.push(0x6d);
    out.push(0x74);
    out.push(0x20);
    push_le32(&mut out, 16);
    push_le16(&mut out, 1);
    push_le16(&mut out, 1);
    push_le32(&mut out, sample_rate);
    push_le32(&mut out, sample_rate * 2);
    push_le16(&mut out, 2);
    push_le16(&mut out, 16);
    out.push(0x64);
    out.push(0x61);
    out.push(0x74);
    out.push(0x61);
    push_le32(&mut out, data_len);
    let ghost header = out@;
    let n = samples.len();
    let mut i: usize = 0;
    proof {
        assert(samples@.take(0) =~= Seq::<i16>::empty());
    }
    while i < n
        invariant
            n == samples@.len(),
            i <= n,
            out@ == header + spec_s16le(samples@.take(i as int)),
        decreases n - i,
    {
        let s = samples[i];
        out.push((s as u16 & 0xff) as u8);
        out.push(((s as u16 >> 8) & 0xff) as u8);
        proof {
            assert(samples@.take(i + 1).drop_last() =~= samples@.take(i as int));
            assert(out@ =~= header + spec_s16le(samples@.take(i + 1)));
        }
        i = i + 1;
    }
    proof {
        assert(samples@.take(n as int) =~= samples@);
        assert(header + spec_s16le(samples@) =~= spec_wav_bytes(samples@, sample_rate));
        crate::stt::lemma_s16le_len(samples@);
    }
    out
}

/// One signed 16-bit sample from two little-endian bytes.
pub open spec fn sample_of_bytes(lo: u8, hi: u8) -> i16 {
    (lo + hi * 0x100) as u16 as i16
}

/// The samples carried by little-endian PCM bytes, pairwise.
pub open spec fn spec_decode_s16le(bytes: Seq<u8>) -> Seq<i16>
    decreases bytes.len(),
{
    if bytes.len() < 2 {
        Seq::empty()
    } else {
        seq![sample_of_bytes(bytes[0], bytes[1])] + spec_decode_s16le(bytes.skip(2))
    }
}

/// Decoding inverts encoding sample by sample.
pub proof fn lemma_s16le_round_trip(samples: Seq<i16>)
    ensures
        spec_decode_s16le(spec_s16le(samples)) == samples,
    decreases samples.len(),
{
    crate::stt::lemma_s16le_len(samples);
    if samples.len() > 0 {
        let first = seq![samples[0]];
        let rest = samples.drop_first();
        assert(samples =~= first + rest);
        crate::stt::lemma_s16le_add(first, rest);
        let b = spec_s16le(samples);
        crate::stt::lemma_s16le_len(first);
        assert(spec_s16le(first) =~= seq![
            (samples[0] as u16 & 0xff) as u8,
            ((samples[0] as u16 >> 8) & 0xff) as u8,
        ]) by {
            assert(first.drop_last() =~= Seq::<i16>::empty());
        }
        assert(b.skip(2) =~= spec_s16le(rest));
        lemma_s16le_round_trip(rest);
        let s0 = samples[0];
        let v = s0 as u16;
        assert(sample_of_bytes((s0 as u16 & 0xff) as u8, ((s0 as u16 >> 8) & 0xff) as u8) == (
        s0 as u16) as i16) by (bit_vector);
        assert((s0 as u16) as i16 == s0) by (bit_vector);
        assert(spec_decode_s16le(b) =~= samples);
    } else {
        assert(spec_s16le(samples) =~= Seq::<u8>::empty());
    }
}

/// What a canonical WAV parse yields: the sample rate and the samples.
pub open spec fn spec_parse_wav(bytes: Seq<u8>) -> Option<(u32, Seq<i16>)> {
    if bytes.len() >= 44 && wav_header_ok(bytes) {
        Some((wav_rate(bytes), spec_decode_s16le(bytes.skip(44))))
    } else {
        None
    }
}

/// The sample rate named in the header.
pub open spec fn wav_rate(bytes: Seq<u8>) -> u32 {
    (bytes[24] + bytes[25] * 0x100 + bytes[26] * 0x10000 + bytes[27] * 0x1000000) as u32
}

/// A canonical 16-bit mono PCM header: the four tags, PCM format, one
/// channel, 16 bits, and a data length that covers the rest.
pub open spec fn wav_header_ok(bytes: Seq<u8>) -> bool {
    &&& bytes.len() >= 44
    &&& bytes.take(4) == "RIFF"@.map_values(|c: char| c as u8)
    &&& bytes.subrange(8, 12) == "WAVE"@.map_values(|c: char| c as u8)
    &&& bytes.subrange(12, 16) == "fmt "@.map_values(|c: char| c as u8)
    &&& bytes.subrange(36, 40) == "data"@.map_values(|c: char| c as u8)
    &&& bytes[20] == 1 && bytes[21] == 0
    &&& bytes[22] == 1 && bytes[23] == 0
    &&& bytes[34] == 16 && bytes[35] == 0
    &&& bytes[40] + bytes[41] * 0x100 + bytes[42] * 0x10000 + bytes[43] * 0x1000000 == bytes.len()
        - 44
}

/// Parse a canonical 16-bit mono PCM WAV into its rate and samples.
pub fn parse_wav(bytes: &[u8]) -> (r: Option<(u32, Vec<i16>)>)
    ensures
        r is Some <==> spec_parse_wav(bytes@) is Some,
        r matches Some(p) ==> spec_parse_wav(bytes@) == Some((p.0, p.1@)),
{
    proof {
        reveal_strlit("RIFF");
        reveal_strlit("WAVE");
        reveal_strlit("fmt ");
        reveal_strlit("data");
    }
    let n = bytes.len();
    if n < 44 {
        return None;
    }
    let tags_ok = bytes[0] == 0x52 && bytes[1] == 0x49 && bytes[2] == 0x46 && bytes[3] == 0x46
        && bytes[8] == 0x57 && bytes[9] == 0x41 && bytes[10] == 0x56 && bytes[11] == 0x45
        && bytes[12] == 0x66 && bytes[13] == 0x6d && bytes[14] == 0x74 && bytes[15] == 0x20
        && bytes[36] == 0x64 && bytes[37] == 0x61 && bytes[38] == 0x74 && bytes[39] == 0x61;
    let fmt_ok = bytes[20] == 1 && bytes[21] == 0 && bytes[22] == 1 && bytes[23] == 0 && bytes[34]
        == 16 && bytes[35] == 0;
    let data_len: u64 = bytes[40] as u64 + bytes[41] as u64 * 0x100 + bytes[42] as u64 * 0x10000
        + bytes[43] as u64 * 0x1000000;
    let len_ok = data_len == (n - 44) as u64;
    proof {
        assert(bytes@.take(4) == "RIFF"@.map_values(|c: char| c as u8) <==> (bytes@[0] == 0x52
            && bytes@[1] == 0x49 && bytes@[2] == 0x46 && bytes@[3] == 0x46)) by {
            if bytes@[0] == 0x52 && bytes@[1] == 0x49 && bytes@[2] == 0x46 && bytes@[3] == 0x46 {
                assert(bytes@.take(4) =~= "RIFF"@.map_values(|c: char| c as u8));
            } else {
                if bytes@.take(4) == "RIFF"@.map_values(|c: char| c as u8) {
                    assert(bytes@[0] == "RIFF"@.map_values(|c: char| c as u8)[0]);
                    assert(bytes@[1] == "RIFF"@.map_values(|c: char| c as u8)[1]);
                    assert(bytes@[2] == "RIFF"@.map_values(|c: char| c as u8)[2]);
                    assert(bytes@[3] == "RIFF"@.map_values(|c: char| c as u8)[3]);
                }
            }
        }
        assert(bytes@.subrange(8, 12) == "WAVE"@.map_values(|c: char| c as u8) <==> (bytes@[8]
            == 0x57 && bytes@[9] == 0x41 && bytes@[10] == 0x56 && bytes@[11] == 0x45)) by {
            if bytes@[8] == 0x57 && bytes@[9] == 0x41 && bytes@[10] == 0x56 && bytes@[11] == 0x45 {
                assert(bytes@.subrange(8, 12) =~= "WAVE"@.map_values(|c: char| c as u8));
            } else {
                if bytes@.subrange(8, 12) == "WAVE"@.map_values(|c: char| c as u8) {
                    assert(bytes@[8] == "WAVE"@.map_values(|c: char| c as u8)[0]);
                    assert(bytes@[9] == "WAVE"@.map_values(|c: char| c as u8)[1]);
                    assert(bytes@[10] == "WAVE"@.map_values(|c: char| c as u8)[2]);
                    assert(bytes@[11] == "WAVE"@.map_values(|c: char| c as u8)[3]);
                }
            }
        }
        assert(bytes@.subrange(12, 16) == "fmt "@.map_values(|c: char| c as u8) <==> (bytes@[12]
            == 0x66 && bytes@[13] == 0x6d && bytes@[14] == 0x74 && bytes@[15] == 0x20)) by {
            if bytes@[12] == 0x66 && bytes@[13] == 0x6d && bytes@[14] == 0x74 && bytes@[15]
                == 0x20 {
                assert(bytes@.subrange(12, 16) =~= "fmt "@.map_values(|c: char| c as u8));
            } else {
                if bytes@.subrange(12, 16) == "fmt "@.map_values(|c: char| c as u8) {
                    assert(bytes@[12] == "fmt "@.map_values(|c: char| c as u8)[0]);
                    assert(bytes@[13] == "fmt "@.map_values(|c: char| c as u8)[1]);
                    assert(bytes@[14] == "fmt "@.map_values(|c: char| c as u8)[2]);
                    assert(bytes@[15] == "fmt "@.map_values(|c: char| c as u8)[3]);
                }
            }
        }
        assert(bytes@.subrange(36, 40) == "data"@.map_values(|c: char| c as u8) <==> (bytes@[36]
            == 0x64 && bytes@[37] == 0x61 && bytes@[38] == 0x74 && bytes@[39] == 0x61)) by {
            if bytes@[36] == 0x64 && bytes@[37] == 0x61 && bytes@[38] == 0x74 && bytes@[39]
                == 0x61 {
                assert(bytes@.subrange(36, 40) =~= "data"@.map_values(|c: char| c as u8));
            } else {
                if bytes@.subrange(36, 40) == "data"@.map_values(|c: char| c as u8) {
                    assert(bytes@[36] == "data"@.map_values(|c: char| c as u8)[0]);
                    assert(bytes@[37] == "data"@.map_values(|c: char| c as u8)[1]);
                    assert(bytes@[38] == "data"@.map_values(|c: char| c as u8)[2]);
                    assert(bytes@[39] == "data"@.map_values(|c: char| c as u8)[3]);
                }
            }
        }
    }
    if !(tags_ok && fmt_ok && len_ok) {
        return None;
    }
    let rate64: u64 = bytes[24] as u64 + bytes[25] as u64 * 0x100 + bytes[26] as u64 * 0x10000
        + bytes[27] as u64 * 0x1000000;
    let rate: u32 = rate64 as u32;
    proof {
        assert(rate == wav_rate(bytes@));
    }
    let mut samples: Vec<i16> = Vec::new();
    let mut i: usize = 44;
    proof {
        assert(samples@ + spec_decode_s16le(bytes@.skip(44)) =~= spec_decode_s16le(
            bytes@.skip(44),
        ));
    }
    while i < n - 1
        invariant
            n == bytes@.len(),
            44 <= i <= n,
            samples@ + spec_decode_s16le(bytes@.skip(i as int)) == spec_decode_s16le(
                bytes@.skip(44),
            ),
        decreases n - i,
    {
        let lo = bytes[i];
        let hi = bytes[i + 1];
        let v: u16 = lo as u16 + (hi as u16) * 0x100;
        let ghost prev = samples@;
        samples.push(v as i16);
        proof {
            let rest = bytes@.skip(i as int);
            assert(rest[0] == bytes@[i as int] && rest[1] == bytes@[i + 1]);
            assert(rest.skip(2) =~= bytes@.skip(i + 2));
            assert(v as i16 == sample_of_bytes(bytes@[i as int], bytes@[i + 1]));
            assert(prev + spec_decode_s16le(rest) =~= samples@ + spec_decode_s16le(
                bytes@.skip(i + 2),
            ));
        }
        i = i + 2;
    }
    proof {
        assert(spec_decode_s16le(bytes@.skip(i as int)) =~= Seq::<i16>::empty());
        assert(samples@ =~= spec_decode_s16le(bytes@.skip(44)));
    }
    Some((rate, samples))
}

/// The media payload inside a packet, between the header offset and the
/// trailing padding; nothing when the bounds do not fit.
pub open spec fn spec_payload(packet: Seq<u8>, offset: int, end_pad: int) -> Option<Seq<u8>> {
    let end = packet.len() - end_pad;
    if 0 <= offset < end <= packet.len() {
        Some(packet.subrange(offset, end))
    } else {
        None
    }
}

/// Cut the encoded payload out of a raw media packet.
pub fn extract_payload(packet: &[u8], payload_offset: usize, payload_end_pad: usize) -> (r: Option<
    Vec<u8>,
>)
    ensures
        r is Some <==> spec_payload(packet@, payload_offset as int, payload_end_pad as int)
            is Some,
        r matches Some(p) ==> spec_payload(
            packet@,
            payload_offset as int,
            payload_end_pad as int,
        ) == Some(p@),
{
    let n = packet.len();
    if payload_end_pad >= n {
        return None;
    }
    let end = n - payload_end_pad;
    if payload_offset >= end {
        return None;
    }
    let mut out: Vec<u8> = Vec::new();
    let mut i: usize = payload_offset;
    while i < end
        invariant
            n == packet@.len(),
            payload_offset <= i <= end <= n,
            out@ == packet@.subrange(payload_offset as int, i as int),
        decreases end - i,
    {
        out.push(packet[i]);
        proof {
            assert(out@ =~= packet@.subrange(payload_offset as int, i + 1));
        }
        i = i + 1;
    }
    Some(out)
}

} // verus!
