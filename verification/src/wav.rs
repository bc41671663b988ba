//! WAV files of 32-bit float samples, one channel, 16000 samples a second.
use crate::bytes::{four_bytes_read_back, le_bytes, le_bytes_length, le_value, push_bytes, push_le};
use vstd::prelude::*;

verus! {

/// The length of the header before the samples.
pub const WAV_HEADER_LEN: usize = 44;

/// What opens the file: `RIFF`, the length of all that follows, `WAVE`.
pub open spec fn riff_head(data_len: nat) -> Seq<u8> {
    seq![82u8, 73, 70, 70] + le_bytes(36 + data_len, 4) + seq![87u8, 65, 86, 69]
}

/// How the samples are to be read.
pub open spec fn format_chunk() -> Seq<u8> {
    seq![102u8, 109, 116, 32]  // "fmt "
     + le_bytes(16, 4) + le_bytes(3, 2)  // IEEE float
     + le_bytes(1, 2)  // channels
     + le_bytes(16000, 4)  // samples a second
     + le_bytes(64000, 4)  // bytes a second
     + le_bytes(4, 2)  // bytes a sample
     + le_bytes(32, 2)  // bits a sample
}

/// What stands before the samples: `data` and their length.
pub open spec fn data_head(data_len: nat) -> Seq<u8> {
    seq![100u8, 97, 116, 97] + le_bytes(data_len, 4)
}

/// The header for samples of the given length in bytes. The two lengths in it hold
/// the low 32 bits of theirs.
pub open spec fn wav_header(data_len: nat) -> Seq<u8> {
    riff_head(data_len) + format_chunk() + data_head(data_len)
}

fn push_riff_head(w: &mut Vec<u8>, data_len: usize)
    ensures
        final(w)@ == old(w)@ + riff_head(data_len as nat),
{
    let low: u64 = (36 + data_len as u64 % 0x1_0000_0000) % 0x1_0000_0000;
    proof {
        four_bytes_read_back(36 + data_len as nat);
    }
    push_bytes(w, &[82u8, 73, 70, 70]);
    push_le(w, low, 4);
    push_bytes(w, &[87u8, 65, 86, 69]);
    assert(w@ =~= old(w)@ + riff_head(data_len as nat));
}

fn push_format_chunk(w: &mut Vec<u8>)
    ensures
        final(w)@ == old(w)@ + format_chunk(),
{
    push_bytes(w, &[102u8, 109, 116, 32]);
    push_le(w, 16, 4);
    push_le(w, 3, 2);
    push_le(w, 1, 2);
    push_le(w, 16000, 4);
    push_le(w, 64000, 4);
    push_le(w, 4, 2);
    push_le(w, 32, 2);
    assert(w@ =~= old(w)@ + format_chunk());
}

fn push_data_head(w: &mut Vec<u8>, data_len: usize)
    ensures
        final(w)@ == old(w)@ + data_head(data_len as nat),
{
    push_bytes(w, &[100u8, 97, 116, 97]);
    push_le(w, data_len as u64, 4);
    assert(w@ =~= old(w)@ + data_head(data_len as nat));
}

/// A WAV file that holds the samples.
pub fn make_wav_f32_mono_16k(samples_bytes: &[u8]) -> (w: Vec<u8>)
    ensures
        w@ == wav_header(samples_bytes@.len()) + samples_bytes@,
{
    let mut w: Vec<u8> = Vec::new();
    push_riff_head(&mut w, samples_bytes.len());
    push_format_chunk(&mut w);
    push_data_head(&mut w, samples_bytes.len());
    push_bytes(&mut w, samples_bytes);
    assert(w@ =~= wav_header(samples_bytes@.len()) + samples_bytes@);
    w
}

/// The samples stand behind a header of 44 bytes, whose two lengths are those of
/// the samples and of all that follows the first length, where 32 bits can hold them.
pub proof fn wav_holds_samples(samples: Seq<u8>)
    requires
        36 + samples.len() <= u32::MAX,
    ensures
        wav_header(samples.len()).len() == WAV_HEADER_LEN,
        ({
            let w = wav_header(samples.len()) + samples;
            &&& le_value(w.subrange(4, 8)) == w.len() - 8
            &&& le_value(w.subrange(40, 44)) == samples.len()
            &&& w.skip(WAV_HEADER_LEN as int) == samples
        }),
{
    let n = samples.len();
    four_bytes_read_back(n);
    four_bytes_read_back(36 + n);
    le_bytes_length(16, 4);
    le_bytes_length(3, 2);
    le_bytes_length(1, 2);
    le_bytes_length(16000, 4);
    le_bytes_length(64000, 4);
    le_bytes_length(4, 2);
    le_bytes_length(32, 2);
    let w = wav_header(n) + samples;
    assert(w.subrange(4, 8) =~= le_bytes(36 + n, 4));
    assert(w.subrange(40, 44) =~= le_bytes(n, 4));
    assert(w.skip(44) =~= samples);
}

} // verus!
