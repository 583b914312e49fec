//! The three transcoders that turn a source file into artifact bytes.
use vstd::prelude::*;

verus! {

/// Why an asset could not be transcoded.
#[derive(Debug, Clone, Copy, PartialEq, Eq, Structural)]
pub enum AssetError {
    /// The source is no image or WAV stream that can be decoded.
    DecodeFailed,
    /// The audio is not encoded as 32-bit floating-point samples.
    UnsupportedFormat,
}

/// What a WAV source holds: its sample encoding, and each sample's 32 bits in stream order.
#[derive(Debug)]
pub struct WavContent {
    pub bits_per_sample: u16,
    pub float_samples: bool,
    pub sample_bits: Vec<u32>,
}

/// The pixels of an encoded image as row-major 8-bit RGBA, or `None` when it cannot be decoded.
pub uninterp spec fn rgba8_of(data: Seq<u8>) -> Option<Seq<u8>>;

/// Relies on image's `load_from_memory` and `DynamicImage::to_rgba8`: the decoded pixels,
/// expanded to RGBA with 8 bits per channel.
#[verifier::external_body]
fn decode_rgba8(data: &[u8]) -> (r: Option<Vec<u8>>)
    ensures
        match r {
            Some(v) => rgba8_of(data@) == Some(v@),
            None => rgba8_of(data@) is None,
        },
{
    image::load_from_memory(data).ok().map(|img| img.to_rgba8().into_raw())
}

/// The four bytes of a 32-bit value, least significant first.
pub open spec fn le_bytes(n: u32) -> Seq<u8> {
    seq![(n % 256) as u8, ((n / 256) % 256) as u8, ((n / 65536) % 256) as u8, (n / 16777216) as u8]
}

/// Each value's little-endian bytes, one value after another.
pub open spec fn le_stream(s: Seq<u32>) -> Seq<u8>
    decreases s.len(),
{
    if s.len() == 0 {
        Seq::empty()
    } else {
        le_stream(s.drop_last()) + le_bytes(s.last())
    }
}

pub proof fn lemma_le_stream_len(s: Seq<u32>)
    ensures
        le_stream(s).len() == 4 * s.len(),
    decreases s.len(),
{
    if s.len() > 0 {
        lemma_le_stream_len(s.drop_last());
    }
}

/// The bytes of `n`, least significant first.
fn write_le_u32(n: u32) -> (r: [u8; 4])
    ensures
        r@ == le_bytes(n),
{
    let r = [(n % 256) as u8, ((n / 256) % 256) as u8, ((n / 65536) % 256) as u8, (n / 16777216) as u8];
    assert(r@ =~= le_bytes(n));
    r
}

/// Whether audio in this encoding can be packed: only 32-bit floating-point samples can.
pub open spec fn audio_supported(bits_per_sample: u16, float_samples: bool) -> bool {
    bits_per_sample == 32 && float_samples
}

/// Decodes an image into row-major RGBA bytes, 8 bits per channel.
pub fn process_texture(data: &[u8]) -> (r: Result<Vec<u8>, AssetError>)
    ensures
        match r {
            Ok(v) => rgba8_of(data@) == Some(v@),
            Err(e) => rgba8_of(data@) is None && e == AssetError::DecodeFailed,
        },
{
    match decode_rgba8(data) {
        Some(v) => Ok(v),
        None => Err(AssetError::DecodeFailed),
    }
}

/// Packs 32-bit float audio as interleaved little-endian samples; rejects any other encoding.
pub fn process_audio(wav: &WavContent) -> (r: Result<Vec<u8>, AssetError>)
    ensures
        audio_supported(wav.bits_per_sample, wav.float_samples) ==> (r matches Ok(v) && v@ == le_stream(wav.sample_bits@)),
        !audio_supported(wav.bits_per_sample, wav.float_samples) ==> r == Err::<Vec<u8>, AssetError>(AssetError::UnsupportedFormat),
{
    if wav.bits_per_sample != 32 || !wav.float_samples {
        return Err(AssetError::UnsupportedFormat);
    }
    let samples = &wav.sample_bits;
    let mut out: Vec<u8> = Vec::new();
    let mut i: usize = 0;
    while i < samples.len()
        invariant
            i <= samples.len(),
            out@ == le_stream(samples@.take(i as int)),
        decreases samples.len() - i,
    {
        let b = write_le_u32(samples[i]);
        out.push(b[0]);
        out.push(b[1]);
        out.push(b[2]);
        out.push(b[3]);
        assert(samples@.take(i as int + 1).drop_last() =~= samples@.take(i as int));
        assert(out@ =~= le_stream(samples@.take(i as int + 1)));
        i = i + 1;
    }
    assert(samples@.take(i as int) =~= samples@);
    Ok(out)
}

/// Opaque data passes through unchanged.
pub fn process_data(data: &[u8]) -> (r: Vec<u8>)
    ensures
        r@ == data@,
{
    vstd::slice::slice_to_vec(data)
}

/// A supported stream of `n` samples packs into `4 * n` bytes.
pub proof fn lemma_audio_size(wav: WavContent)
    requires
        audio_supported(wav.bits_per_sample, wav.float_samples),
    ensures
        le_stream(wav.sample_bits@).len() == 4 * wav.sample_bits@.len(),
{
    lemma_le_stream_len(wav.sample_bits@);
}

} // verus!
