//! Bounded PNG decoding into RGBA8 images. Asset paths and transport remain
//! game and host concerns.
//!
//! The byte-level preflight, every limit, and the expansion of decoded samples
//! into RGBA8 are this module's own; the PNG stream itself is decoded by the
//! `png` crate.
use vstd::prelude::*;

use std::io::Cursor;

use super::image::{byte_len, Image};

verus! {

#[verifier::external_type_specification]
#[verifier::external_body]
pub struct ExPngDecodingError(png::DecodingError);

#[verifier::external_type_specification]
#[verifier::external_body]
pub struct ExPngOutputInfo(png::OutputInfo);

/// A `png::Decoder` over borrowed bytes. Verus refuses to declare the
/// decoder type itself, whose reader parameter is bounded by `std::io`
/// traits, so it is held opaquely here.
#[verifier::external_body]
pub struct PngDecoder<'a> {
    decoder: png::Decoder<Cursor<&'a [u8]>>,
}

/// A `png::Reader` over borrowed bytes, held opaquely for the same reason.
#[verifier::external_body]
pub struct PngReader<'a> {
    reader: png::Reader<Cursor<&'a [u8]>>,
}

/// Limits checked before allocating image buffers. The allocation budget
/// covers the two worst-case RGBA buffers plus the PNG decoder's own
/// allocation accounting; it is not a process-wide memory limit.
#[derive(Clone, Copy, Debug, PartialEq, Eq, Structural)]
pub struct ImageDecodeLimits {
    pub max_encoded_bytes: usize,
    pub max_width: u32,
    pub max_height: u32,
    pub max_decoded_bytes: usize,
    pub max_allocation_bytes: usize,
}

impl ImageDecodeLimits {
    /// 8 MiB of input, 4096 by 4096 pixels, 64 MiB decoded, 160 MiB allocated.
    pub fn standard() -> (r: Self)
        ensures
            r == (ImageDecodeLimits {
                max_encoded_bytes: 8388608,
                max_width: 4096,
                max_height: 4096,
                max_decoded_bytes: 67108864,
                max_allocation_bytes: 167772160,
            }),
    {
        ImageDecodeLimits {
            max_encoded_bytes: 8 * 1024 * 1024,
            max_width: 4096,
            max_height: 4096,
            max_decoded_bytes: 64 * 1024 * 1024,
            max_allocation_bytes: 160 * 1024 * 1024,
        }
    }
}

impl Default for ImageDecodeLimits {
    fn default() -> (r: Self)
        ensures
            r == (ImageDecodeLimits {
                max_encoded_bytes: 8388608,
                max_width: 4096,
                max_height: 4096,
                max_decoded_bytes: 67108864,
                max_allocation_bytes: 167772160,
            }),
    {
        Self::standard()
    }
}

#[derive(Debug)]
pub enum ImageDecodeError {
    EncodedLimit { actual: usize, maximum: usize },
    InvalidHeader,
    DimensionLimit { width: u32, height: u32 },
    DecodedLimit,
    AllocationLimit,
    Animated,
    UnsupportedColor,
    Png(png::DecodingError),
}

/// The color layout of decoded samples.
#[derive(Clone, Copy, Debug, PartialEq, Eq, Structural)]
pub enum PngColor {
    Grayscale,
    Rgb,
    Indexed,
    GrayscaleAlpha,
    Rgba,
}

/// Bits per decoded sample.
#[derive(Clone, Copy, Debug, PartialEq, Eq, Structural)]
pub enum PngBitDepth {
    One,
    Two,
    Four,
    Eight,
    Sixteen,
}

/// What the decoder reports of a decoded frame.
#[derive(Clone, Copy, Debug, PartialEq, Eq, Structural)]
pub struct PngFrame {
    pub color: PngColor,
    pub bit_depth: PngBitDepth,
    pub line_size: usize,
    pub height: u32,
}

/// Where a decoder reads from and how it is set up: the encoded bytes, the
/// allocation budget, and whether palette expansion with sixteen-bit
/// stripping, skipping text chunks, and skipping the ICC profile were
/// switched on (in that order).
pub uninterp spec fn decoder_setup(decoder: PngDecoder) -> (Seq<u8>, usize, (bool, bool, bool));

/// The setup of the decoder a reader was made from.
pub uninterp spec fn reader_setup(reader: PngReader) -> (Seq<u8>, usize, (bool, bool, bool));

/// How many times `next_frame` has been called on a reader.
pub uninterp spec fn frames_requested(reader: PngReader) -> nat;

/// How many of those calls decoded a frame.
pub uninterp spec fn frames_decoded(reader: PngReader) -> nat;

/// How a `png` call failed: by exceeding the allocation budget, or otherwise.
#[derive(Clone, Copy, Debug, PartialEq, Eq, Structural)]
pub enum PngFailure {
    Limits,
    Other,
}

/// Which kind of failure a `png::DecodingError` is.
pub uninterp spec fn png_error_kind(error: png::DecodingError) -> PngFailure;

/// How reading the header chunks under a setup fails, if it does.
pub uninterp spec fn png_info(setup: (Seq<u8>, usize, (bool, bool, bool))) -> Option<PngFailure>;

/// Whether the header chunks of a setup hold animation control (an APNG).
pub uninterp spec fn png_animated(setup: (Seq<u8>, usize, (bool, bool, bool))) -> bool;

/// The byte length of a decoded frame under a setup, if it fits.
pub uninterp spec fn png_output_size(setup: (Seq<u8>, usize, (bool, bool, bool))) -> Option<usize>;

/// The first frame that `png` decodes under a setup, into a zeroed buffer
/// large enough for it: its layout and its rows, packed, `line_size *
/// height` bytes; or how decoding it fails.
pub uninterp spec fn png_frame(setup: (Seq<u8>, usize, (bool, bool, bool))) -> Result<(PngFrame, Seq<u8>), PngFailure>;

/// How reading the chunks after the first frame fails, if it does.
pub uninterp spec fn png_finish(setup: (Seq<u8>, usize, (bool, bool, bool))) -> Option<PngFailure>;

/// `png::Decoder::new_with_limits` over the borrowed bytes with an allocation
/// budget: a decoder of those bytes under that budget, none of the three
/// settings switched on yet.
#[verifier::external_body]
fn png_decoder<'a>(bytes: &'a [u8], budget: usize) -> (r: PngDecoder<'a>)
    ensures
        decoder_setup(r) == (bytes@, budget, (false, false, false)),
{
    PngDecoder { decoder: png::Decoder::new_with_limits(Cursor::new(bytes), png::Limits { bytes: budget }) }
}

/// `png::Decoder::set_transformations` with palette expansion and sixteen-bit
/// stripping: switches that setting on, the rest of the setup kept.
#[verifier::external_body]
fn expand_and_strip(decoder: &mut PngDecoder)
    ensures
        decoder_setup(*final(decoder)) == (decoder_setup(*old(decoder)).0, decoder_setup(*old(decoder)).1, (
            true,
            decoder_setup(*old(decoder)).2.1,
            decoder_setup(*old(decoder)).2.2,
        )),
{
    decoder.decoder.set_transformations(png::Transformations::EXPAND | png::Transformations::STRIP_16);
}

/// `png::Decoder::set_ignore_text_chunk(true)`: switches skipping text
/// chunks on, the rest of the setup kept.
#[verifier::external_body]
fn ignore_text_chunks(decoder: &mut PngDecoder)
    ensures
        decoder_setup(*final(decoder)) == (decoder_setup(*old(decoder)).0, decoder_setup(*old(decoder)).1, (
            decoder_setup(*old(decoder)).2.0,
            true,
            decoder_setup(*old(decoder)).2.2,
        )),
{
    decoder.decoder.set_ignore_text_chunk(true);
}

/// `png::Decoder::set_ignore_iccp_chunk(true)`: switches skipping the ICC
/// profile on, the rest of the setup kept.
#[verifier::external_body]
fn ignore_color_profile(decoder: &mut PngDecoder)
    ensures
        decoder_setup(*final(decoder)) == (decoder_setup(*old(decoder)).0, decoder_setup(*old(decoder)).1, (
            decoder_setup(*old(decoder)).2.0,
            decoder_setup(*old(decoder)).2.1,
            true,
        )),
{
    decoder.decoder.set_ignore_iccp_chunk(true);
}

/// `png::Decoder::read_info`: reads the header chunks, which depends on the
/// decoder's setup alone. A reader it gives keeps that setup and has decoded
/// no frame yet.
#[verifier::external_body]
fn read_png_info<'a>(decoder: PngDecoder<'a>) -> (r: Result<PngReader<'a>, png::DecodingError>)
    ensures
        r matches Ok(reader) ==> png_info(decoder_setup(decoder)) is None && reader_setup(reader) == decoder_setup(decoder)
            && frames_requested(reader) == 0 && frames_decoded(reader) == 0,
        r matches Err(e) ==> png_info(decoder_setup(decoder)) == Some(png_error_kind(e)),
{
    match decoder.decoder.read_info() {
        Ok(reader) => Ok(PngReader { reader }),
        Err(error) => Err(error),
    }
}

/// Whether `png::Reader::info` holds animation control, that is, whether the
/// stream is an APNG. `png` accepts that chunk only before the image data,
/// so the answer is fixed once the header chunks are read.
#[verifier::external_body]
fn is_animated(reader: &PngReader) -> (r: bool)
    ensures
        r == png_animated(reader_setup(*reader)),
{
    reader.reader.info().animation_control.is_some()
}

/// `png::Reader::output_buffer_size`: the byte length of a decoded frame,
/// which its documentation bounds by `isize::MAX`.
#[verifier::external_body]
fn output_buffer_size(reader: &PngReader) -> (r: Option<usize>)
    ensures
        r == png_output_size(reader_setup(*reader)),
        r matches Some(length) ==> length <= isize::MAX,
{
    reader.reader.output_buffer_size()
}

/// `png::Reader::next_frame`: decodes the next frame into `buffer`, which
/// keeps its length, writing its rows packed from the start. On the first
/// call, into a zeroed buffer at least as long as the output size, the
/// outcome is the first frame of the reader's setup: a success reports its
/// layout and writes its rows, a failure is that frame's failure.
#[verifier::external_body]
fn next_png_frame(reader: &mut PngReader, buffer: &mut Vec<u8>) -> (r: Result<png::OutputInfo, png::DecodingError>)
    ensures
        final(buffer)@.len() == old(buffer)@.len(),
        reader_setup(*final(reader)) == reader_setup(*old(reader)),
        frames_requested(*final(reader)) == frames_requested(*old(reader)) + 1,
        frames_decoded(*final(reader)) == frames_decoded(*old(reader)) + if r is Ok {
            1nat
        } else {
            0nat
        },
        first_frame_call(reader_setup(*old(reader)), frames_requested(*old(reader)), old(buffer)@) ==> (
        r matches Ok(info) ==> png_frame(reader_setup(*old(reader))) is Ok && decoded_first_frame(
            reader_setup(*old(reader)),
            info,
            final(buffer)@,
        )),
        first_frame_call(reader_setup(*old(reader)), frames_requested(*old(reader)), old(buffer)@) ==> (
        r matches Err(e) ==> png_frame(reader_setup(*old(reader))) == Err::<(PngFrame, Seq<u8>), PngFailure>(
            png_error_kind(e),
        )),
{
    reader.reader.next_frame(buffer.as_mut_slice())
}

/// The color type that a `png::OutputInfo` holds (its `color_type` field).
pub uninterp spec fn reported_color(info: png::OutputInfo) -> PngColor;

/// The bit depth that a `png::OutputInfo` holds (its `bit_depth` field).
pub uninterp spec fn reported_depth(info: png::OutputInfo) -> PngBitDepth;

/// The row length in bytes that a `png::OutputInfo` holds (its `line_size` field).
pub uninterp spec fn reported_line_size(info: png::OutputInfo) -> usize;

/// The row count that a `png::OutputInfo` holds (its `height` field).
pub uninterp spec fn reported_height(info: png::OutputInfo) -> u32;

/// The color type of a decoded frame, variant for variant: reads the
/// `color_type` field, so equal infos give equal answers.
#[verifier::external_body]
fn frame_color(info: &png::OutputInfo) -> (r: PngColor)
    ensures
        r == reported_color(*info),
{
    match info.color_type {
        png::ColorType::Grayscale => PngColor::Grayscale,
        png::ColorType::Rgb => PngColor::Rgb,
        png::ColorType::Indexed => PngColor::Indexed,
        png::ColorType::GrayscaleAlpha => PngColor::GrayscaleAlpha,
        png::ColorType::Rgba => PngColor::Rgba,
    }
}

/// The sample depth of a decoded frame, variant for variant: reads the
/// `bit_depth` field.
#[verifier::external_body]
fn frame_depth(info: &png::OutputInfo) -> (r: PngBitDepth)
    ensures
        r == reported_depth(*info),
{
    match info.bit_depth {
        png::BitDepth::One => PngBitDepth::One,
        png::BitDepth::Two => PngBitDepth::Two,
        png::BitDepth::Four => PngBitDepth::Four,
        png::BitDepth::Eight => PngBitDepth::Eight,
        png::BitDepth::Sixteen => PngBitDepth::Sixteen,
    }
}

/// The byte length of one decoded row of a frame: the `line_size` field.
#[verifier::external_body]
fn frame_line_size(info: &png::OutputInfo) -> (r: usize)
    ensures
        r == reported_line_size(*info),
{
    info.line_size
}

/// The row count of a decoded frame: the `height` field.
#[verifier::external_body]
fn frame_height(info: &png::OutputInfo) -> (r: u32)
    ensures
        r == reported_height(*info),
{
    info.height
}

/// What a first decode into a zeroed buffer that succeeded with `info`, leaving
/// `written` in the buffer, tells of the setup's frame: there is one, its
/// layout is the one reported, and its rows are the start of the buffer
/// when the buffer holds them.
pub open spec fn decoded_first_frame(
    setup: (Seq<u8>, usize, (bool, bool, bool)),
    info: png::OutputInfo,
    written: Seq<u8>,
) -> bool {
    &&& png_frame(setup) is Ok
    &&& png_frame(setup)->Ok_0.0 == layout_of(info)
    &&& reported_line_size(info) * reported_height(info) <= written.len() ==> png_frame(setup)->Ok_0.1
        == written.take(reported_line_size(info) * reported_height(info))
}

/// A first call for a frame, into a zeroed buffer that holds the output.
pub open spec fn first_frame_call(setup: (Seq<u8>, usize, (bool, bool, bool)), requested: nat, buffer: Seq<u8>) -> bool {
    &&& requested == 0
    &&& buffer == Seq::new(buffer.len(), |i: int| 0u8)
    &&& png_output_size(setup) matches Some(size) && size <= buffer.len()
}

/// The layout an `OutputInfo` reports.
pub open spec fn layout_of(info: png::OutputInfo) -> PngFrame {
    PngFrame {
        color: reported_color(info),
        bit_depth: reported_depth(info),
        line_size: reported_line_size(info),
        height: reported_height(info),
    }
}

/// The layout the decoder reports for a frame.
fn frame_layout(info: &png::OutputInfo) -> (r: PngFrame)
    ensures
        r == (PngFrame {
            color: reported_color(*info),
            bit_depth: reported_depth(*info),
            line_size: reported_line_size(*info),
            height: reported_height(*info),
        }),
{
    PngFrame {
        color: frame_color(info),
        bit_depth: frame_depth(info),
        line_size: frame_line_size(info),
        height: frame_height(info),
    }
}

/// `png::Reader::finish`: reads and checks the chunks after the image data.
/// After exactly one call for a frame, which decoded it, the outcome is the
/// setup's.
#[verifier::external_body]
fn finish_png(reader: &mut PngReader) -> (r: Result<(), png::DecodingError>)
    ensures
        reader_setup(*final(reader)) == reader_setup(*old(reader)),
        frames_requested(*old(reader)) == 1 && frames_decoded(*old(reader)) == 1 ==> (r is Ok ==> png_finish(
            reader_setup(*old(reader)),
        ) is None),
        frames_requested(*old(reader)) == 1 && frames_decoded(*old(reader)) == 1 ==> (r matches Err(e) ==> png_finish(
            reader_setup(*old(reader)),
        ) == Some(png_error_kind(e))),
{
    reader.reader.finish()
}

/// Whether a decoding error is `png::DecodingError::LimitsExceeded`.
#[verifier::external_body]
fn is_limits_exceeded(error: &png::DecodingError) -> (r: bool)
    ensures
        r == (png_error_kind(*error) == PngFailure::Limits),
{
    match error {
        png::DecodingError::LimitsExceeded => true,
        _ => false,
    }
}

/// `Vec::try_reserve_exact`: asks the allocator for room; the contents stay.
/// Whether the allocator grants it is not claimed.
#[verifier::external_body]
fn try_reserve_exact(bytes: &mut Vec<u8>, additional: usize) -> (r: bool)
    ensures
        final(bytes)@ == old(bytes)@,
{
    bytes.try_reserve_exact(additional).is_ok()
}

/// Maps a decoder failure: exceeding the allocation budget is reported as
/// such, anything else is passed on.
pub fn decoding_failure(error: png::DecodingError) -> (r: ImageDecodeError)
    ensures
        png_error_kind(error) == PngFailure::Limits ==> r is AllocationLimit,
        png_error_kind(error) != PngFailure::Limits ==> r == ImageDecodeError::Png(error),
{
    if is_limits_exceeded(&error) {
        ImageDecodeError::AllocationLimit
    } else {
        ImageDecodeError::Png(error)
    }
}

/// A zeroed buffer whose memory is reserved up front, failing instead of
/// aborting when the allocator refuses.
fn zeroed(length: usize) -> (r: Result<Vec<u8>, ImageDecodeError>)
    ensures
        r matches Ok(bytes) ==> bytes@ == Seq::new(length as nat, |i: int| 0u8),
        r matches Err(e) ==> e is AllocationLimit,
{
    let mut bytes: Vec<u8> = Vec::new();
    if !try_reserve_exact(&mut bytes, length) {
        return Err(ImageDecodeError::AllocationLimit);
    }
    let mut i: usize = 0;
    while i < length
        invariant
            i <= length,
            bytes@ == Seq::new(i as nat, |k: int| 0u8),
        decreases length - i,
    {
        bytes.push(0);
        proof {
            assert(bytes@ =~= Seq::new((i + 1) as nat, |k: int| 0u8));
        }
        i += 1;
    }
    Ok(bytes)
}

/// The PNG signature, then an IHDR chunk of length 13.
pub open spec fn png_header_ok(b: Seq<u8>) -> bool {
    &&& b.len() >= 33
    &&& b[0] == 0x89u8 && b[1] == 0x50u8 && b[2] == 0x4Eu8 && b[3] == 0x47u8
    &&& b[4] == 0x0Du8 && b[5] == 0x0Au8 && b[6] == 0x1Au8 && b[7] == 0x0Au8
    &&& b[8] == 0u8 && b[9] == 0u8 && b[10] == 0u8 && b[11] == 13u8
    &&& b[12] == 0x49u8 && b[13] == 0x48u8 && b[14] == 0x44u8 && b[15] == 0x52u8
}

/// The big-endian `u32` at byte `i`.
pub open spec fn be_u32(b: Seq<u8>, i: int) -> int {
    b[i] * 0x1000000 + b[i + 1] * 0x10000 + b[i + 2] * 0x100 + b[i + 3]
}

fn read_be_u32(bytes: &[u8], i: usize) -> (r: u32)
    requires
        i + 4 <= bytes@.len(),
    ensures
        r == be_u32(bytes@, i as int),
{
    bytes[i] as u32 * 0x1000000 + bytes[i + 1] as u32 * 0x10000 + bytes[i + 2] as u32 * 0x100
        + bytes[i + 3] as u32
}

fn header_ok(bytes: &[u8]) -> (r: bool)
    ensures
        r == png_header_ok(bytes@),
{
    bytes.len() >= 33 && bytes[0] == 0x89 && bytes[1] == 0x50 && bytes[2] == 0x4E && bytes[3] == 0x47
        && bytes[4] == 0x0D && bytes[5] == 0x0A && bytes[6] == 0x1A && bytes[7] == 0x0A && bytes[8]
        == 0 && bytes[9] == 0 && bytes[10] == 0 && bytes[11] == 13 && bytes[12] == 0x49 && bytes[13]
        == 0x48 && bytes[14] == 0x44 && bytes[15] == 0x52
}

/// The outcome of the checks made before any decoding: an error, or the
/// dimensions, RGBA byte length and decoder budget.
pub open spec fn preflight(bytes: Seq<u8>, limits: ImageDecodeLimits) -> Result<(u32, u32, usize, usize), ImageDecodeError> {
    let width = be_u32(bytes, 16);
    let height = be_u32(bytes, 20);
    let rgba = width * height * 4;
    if bytes.len() > limits.max_encoded_bytes {
        Err(ImageDecodeError::EncodedLimit { actual: bytes.len() as usize, maximum: limits.max_encoded_bytes })
    } else if !png_header_ok(bytes) {
        Err(ImageDecodeError::InvalidHeader)
    } else if width == 0 || height == 0 || width > limits.max_width || height > limits.max_height {
        Err(ImageDecodeError::DimensionLimit { width: width as u32, height: height as u32 })
    } else if rgba > usize::MAX || rgba > limits.max_decoded_bytes {
        Err(ImageDecodeError::DecodedLimit)
    } else if rgba * 2 > usize::MAX || rgba * 2 > limits.max_allocation_bytes {
        Err(ImageDecodeError::AllocationLimit)
    } else {
        Ok((width as u32, height as u32, rgba as usize, (limits.max_allocation_bytes - rgba * 2) as usize))
    }
}

/// Checks the input size, the signature and header, the dimensions and the
/// decoded and allocation limits, before any decoder storage is allocated.
pub fn check_png_preflight(bytes: &[u8], limits: ImageDecodeLimits) -> (r: Result<(u32, u32, usize, usize), ImageDecodeError>)
    ensures
        match (r, preflight(bytes@, limits)) {
            (Ok(a), Ok(b)) => a == b,
            (Err(ImageDecodeError::EncodedLimit { actual, maximum }), Err(ImageDecodeError::EncodedLimit { actual: a2, maximum: m2 })) => actual == a2 && maximum == m2,
            (Err(ImageDecodeError::InvalidHeader), Err(ImageDecodeError::InvalidHeader)) => true,
            (Err(ImageDecodeError::DimensionLimit { width, height }), Err(ImageDecodeError::DimensionLimit { width: w2, height: h2 })) => width == w2 && height == h2,
            (Err(ImageDecodeError::DecodedLimit), Err(ImageDecodeError::DecodedLimit)) => true,
            (Err(ImageDecodeError::AllocationLimit), Err(ImageDecodeError::AllocationLimit)) => true,
            _ => false,
        },
{
    if bytes.len() > limits.max_encoded_bytes {
        return Err(ImageDecodeError::EncodedLimit { actual: bytes.len(), maximum: limits.max_encoded_bytes });
    }
    if !header_ok(bytes) {
        return Err(ImageDecodeError::InvalidHeader);
    }
    let width = read_be_u32(bytes, 16);
    let height = read_be_u32(bytes, 20);
    if width == 0 || height == 0 || width > limits.max_width || height > limits.max_height {
        return Err(ImageDecodeError::DimensionLimit { width, height });
    }
    assert(width as int * height as int <= u64::MAX) by (nonlinear_arith)
        requires
            width <= u32::MAX,
            height <= u32::MAX,
    ;
    let count = width as u64 * height as u64;
    let rgba_len: usize = match count.checked_mul(4) {
        Some(bytes_needed) => {
            if bytes_needed > usize::MAX as u64 || bytes_needed as usize > limits.max_decoded_bytes {
                return Err(ImageDecodeError::DecodedLimit);
            }
            bytes_needed as usize
        },
        None => {
            return Err(ImageDecodeError::DecodedLimit);
        },
    };
    let buffers = match rgba_len.checked_mul(2) {
        Some(buffers) => buffers,
        None => {
            return Err(ImageDecodeError::AllocationLimit);
        },
    };
    let budget = match limits.max_allocation_bytes.checked_sub(buffers) {
        Some(budget) => budget,
        None => {
            return Err(ImageDecodeError::AllocationLimit);
        },
    };
    Ok((width, height, rgba_len, budget))
}

/// Byte `i` of the RGBA8 expansion of decoded eight-bit samples, pixel by
/// pixel, while both the samples and the output last; the rest stays zero.
pub open spec fn expanded_byte(color: PngColor, samples: Seq<u8>, i: int) -> u8 {
    let k = i / 4;
    let c = i % 4;
    match color {
        PngColor::Rgba => samples[i],
        PngColor::Rgb => if k < samples.len() / 3 {
            if c < 3 { samples[3 * k + c] } else { 255u8 }
        } else {
            0u8
        },
        PngColor::Grayscale => if k < samples.len() {
            if c < 3 { samples[k] } else { 255u8 }
        } else {
            0u8
        },
        PngColor::GrayscaleAlpha => if k < samples.len() / 2 {
            if c < 3 { samples[2 * k] } else { samples[2 * k + 1] }
        } else {
            0u8
        },
        PngColor::Indexed => 0u8,
    }
}

/// Expands decoded eight-bit samples into straight-alpha RGBA8: gray is
/// replicated, a missing alpha is opaque. Palette indices are refused.
pub fn rgba_from_samples(color: PngColor, samples: &[u8], rgba_len: usize) -> (r: Result<Vec<u8>, ImageDecodeError>)
    requires
        rgba_len % 4 == 0,
        color is Rgba ==> samples@.len() == rgba_len,
    ensures
        color is Indexed ==> (r matches Err(e) && e is UnsupportedColor),
        !(color is Indexed) ==> match r {
            Ok(rgba) => rgba@ == Seq::new(rgba_len as nat, |i: int| expanded_byte(color, samples@, i)),
            Err(e) => e is AllocationLimit,
        },
{
    let mut rgba = match zeroed(rgba_len) {
        Ok(rgba) => rgba,
        Err(e) => {
            if let PngColor::Indexed = color {
                return Err(ImageDecodeError::UnsupportedColor);
            }
            return Err(e);
        },
    };
    let (width, pixels): (usize, usize) = match color {
        PngColor::Rgba => (4, rgba_len / 4),
        PngColor::Rgb => (3, samples.len() / 3),
        PngColor::Grayscale => (1, samples.len()),
        PngColor::GrayscaleAlpha => (2, samples.len() / 2),
        PngColor::Indexed => {
            return Err(ImageDecodeError::UnsupportedColor);
        },
    };
    let count = if pixels < rgba_len / 4 { pixels } else { rgba_len / 4 };
    let ghost target = Seq::new(rgba_len as nat, |i: int| expanded_byte(color, samples@, i));
    let mut k: usize = 0;
    while k < count
        invariant
            k <= count,
            count <= rgba_len / 4,
            count <= pixels,
            rgba_len % 4 == 0,
            rgba@.len() == rgba_len,
            color is Rgba ==> samples@.len() == rgba_len && width == 4 && pixels == rgba_len / 4,
            color is Rgb ==> width == 3 && pixels == samples@.len() / 3,
            color is Grayscale ==> width == 1 && pixels == samples@.len(),
            color is GrayscaleAlpha ==> width == 2 && pixels == samples@.len() / 2,
            !(color is Indexed),
            target == Seq::new(rgba_len as nat, |i: int| expanded_byte(color, samples@, i)),
            forall|i: int| 0 <= i < k * 4 ==> rgba@[i] == #[trigger] target[i],
            forall|i: int| k * 4 <= i < rgba_len ==> #[trigger] rgba@[i] == 0u8,
        decreases count - k,
    {
        proof {
            assert(k < rgba_len / 4);
            assert((k + 1) * 4 <= rgba_len) by (nonlinear_arith)
                requires
                    k < rgba_len / 4,
                    rgba_len % 4 == 0,
            ;
            assert(k * width + width <= samples@.len()) by (nonlinear_arith)
                requires
                    k < pixels,
                    width == 4 ==> pixels == rgba_len / 4 && samples@.len() == rgba_len,
                    width == 3 ==> pixels == samples@.len() / 3,
                    width == 1 ==> pixels == samples@.len(),
                    width == 2 ==> pixels == samples@.len() / 2,
                    width == 1 || width == 2 || width == 3 || width == 4,
            ;
        }
        let base = k * width;
        let (red, green, blue, alpha) = match color {
            PngColor::Rgba => (samples[base], samples[base + 1], samples[base + 2], samples[base + 3]),
            PngColor::Rgb => (samples[base], samples[base + 1], samples[base + 2], 255u8),
            PngColor::Grayscale => (samples[base], samples[base], samples[base], 255u8),
            _ => (samples[base], samples[base], samples[base], samples[base + 1]),
        };
        let out = k * 4;
        let ghost before = rgba@;
        rgba.set(out, red);
        rgba.set(out + 1, green);
        rgba.set(out + 2, blue);
        rgba.set(out + 3, alpha);
        proof {
            assert forall|i: int| 0 <= i < (k + 1) * 4 implies rgba@[i] == #[trigger] target[i] by {
                if i >= k * 4 {
                    let c = i - k * 4;
                    assert(i / 4 == k && i % 4 == c) by (nonlinear_arith)
                        requires
                            k * 4 <= i < k * 4 + 4,
                            c == i - k * 4,
                    ;
                    assert(target[i] == expanded_byte(color, samples@, i));
                    assert(rgba@[i] == if c == 0 {
                        red
                    } else if c == 1 {
                        green
                    } else if c == 2 {
                        blue
                    } else {
                        alpha
                    });
                    if color is Rgba {
                        assert(base == 4 * k);
                    } else if color is Rgb {
                        assert(base == 3 * k);
                        assert(k < samples@.len() / 3);
                    } else if color is Grayscale {
                        assert(base == k);
                    } else {
                        assert(base == 2 * k);
                        assert(k < samples@.len() / 2);
                    }
                } else {
                    assert(rgba@[i] == before[i]);
                }
            }
            assert forall|i: int| (k + 1) * 4 <= i < rgba_len implies #[trigger] rgba@[i] == 0u8 by {
                assert(rgba@[i] == before[i]);
            }
        }
        k += 1;
    }
    proof {
        assert forall|i: int| 0 <= i < rgba_len implies rgba@[i] == #[trigger] target[i] by {
            if i >= count * 4 {
                assert(i / 4 >= count);
                if color is Rgba {
                    assert(count == rgba_len / 4);
                }
            }
        }
        assert(rgba@ =~= target);
    }
    Ok(rgba)
}

/// What a decoded frame gives: a bit depth other than eight is refused as
/// an unsupported color; rows (`line_size * height` bytes) that overflow,
/// do not fit in the decoded bytes, or that for RGBA are not exactly the
/// image's bytes exceed the decoded limit; palette indices are refused;
/// otherwise the rows expand into `rgba_len` RGBA8 bytes.
pub open spec fn frame_rgba(frame: PngFrame, decoded: Seq<u8>, rgba_len: usize) -> Result<Seq<u8>, ImageDecodeError> {
    let rows = frame.line_size * frame.height;
    if frame.bit_depth != PngBitDepth::Eight {
        Err(ImageDecodeError::UnsupportedColor)
    } else if rows > usize::MAX || rows > decoded.len() || (frame.color == PngColor::Rgba && rows != rgba_len) {
        Err(ImageDecodeError::DecodedLimit)
    } else if frame.color == PngColor::Indexed {
        Err(ImageDecodeError::UnsupportedColor)
    } else {
        Ok(Seq::new(rgba_len as nat, |i: int| expanded_byte(frame.color, decoded.take(rows), i)))
    }
}

/// Checks a decoded frame against the image and expands its rows into
/// RGBA8, as `frame_rgba` says; the output buffer may fail to allocate.
pub fn rgba_from_frame(frame: PngFrame, decoded: &[u8], rgba_len: usize) -> (r: Result<Vec<u8>, ImageDecodeError>)
    requires
        rgba_len % 4 == 0,
    ensures
        match frame_rgba(frame, decoded@, rgba_len) {
            Ok(rgba) => match r {
                Ok(v) => v@ == rgba,
                Err(e) => e is AllocationLimit,
            },
            Err(e) => r == Err::<Vec<u8>, ImageDecodeError>(e),
        },
{
    if frame.bit_depth != PngBitDepth::Eight {
        return Err(ImageDecodeError::UnsupportedColor);
    }
    let rows = match frame.line_size.checked_mul(frame.height as usize) {
        Some(length) => length,
        None => {
            return Err(ImageDecodeError::DecodedLimit);
        },
    };
    if rows > decoded.len() || (frame.color == PngColor::Rgba && rows != rgba_len) {
        return Err(ImageDecodeError::DecodedLimit);
    }
    let samples = vstd::slice::slice_subrange(decoded, 0, rows);
    assert(samples@ == decoded@.take(rows as int));
    rgba_from_samples(frame.color, samples, rgba_len)
}

/// The kind of a decoding failure, as plain values: `Png` for any other
/// failure of the `png` crate.
#[derive(Clone, Copy, Debug, PartialEq, Eq, Structural)]
pub enum DecodeFailure {
    EncodedLimit { actual: usize, maximum: usize },
    InvalidHeader,
    DimensionLimit { width: u32, height: u32 },
    DecodedLimit,
    AllocationLimit,
    Animated,
    UnsupportedColor,
    Png,
}

/// The kind of an error.
pub open spec fn failure_of(e: ImageDecodeError) -> DecodeFailure {
    match e {
        ImageDecodeError::EncodedLimit { actual, maximum } => DecodeFailure::EncodedLimit { actual, maximum },
        ImageDecodeError::InvalidHeader => DecodeFailure::InvalidHeader,
        ImageDecodeError::DimensionLimit { width, height } => DecodeFailure::DimensionLimit { width, height },
        ImageDecodeError::DecodedLimit => DecodeFailure::DecodedLimit,
        ImageDecodeError::AllocationLimit => DecodeFailure::AllocationLimit,
        ImageDecodeError::Animated => DecodeFailure::Animated,
        ImageDecodeError::UnsupportedColor => DecodeFailure::UnsupportedColor,
        ImageDecodeError::Png(_) => DecodeFailure::Png,
    }
}

/// How a failure of the `png` crate is reported.
pub open spec fn png_failure_of(f: PngFailure) -> DecodeFailure {
    match f {
        PngFailure::Limits => DecodeFailure::AllocationLimit,
        PngFailure::Other => DecodeFailure::Png,
    }
}

/// The setup `from_png` gives its decoder.
pub open spec fn png_setup(bytes: Seq<u8>, budget: usize) -> (Seq<u8>, usize, (bool, bool, bool)) {
    (bytes, budget, (true, true, true))
}

/// What a decoded frame gives in a buffer of `size` bytes, as
/// `frame_rgba` says, for its rows `rows`.
pub open spec fn frame_pixels(frame: PngFrame, rows: Seq<u8>, size: nat, rgba_len: usize) -> Result<Seq<u8>, DecodeFailure> {
    let length = frame.line_size * frame.height;
    if frame.bit_depth != PngBitDepth::Eight {
        Err(DecodeFailure::UnsupportedColor)
    } else if length > usize::MAX || length > size || (frame.color == PngColor::Rgba && length != rgba_len) {
        Err(DecodeFailure::DecodedLimit)
    } else if frame.color == PngColor::Indexed {
        Err(DecodeFailure::UnsupportedColor)
    } else {
        Ok(Seq::new(rgba_len as nat, |i: int| expanded_byte(frame.color, rows, i)))
    }
}

/// Whether decoding gets as far as allocating: the preflight passes, the
/// header chunks read, the image is not animated and its output size is
/// within the decoded limit.
pub open spec fn png_allocates(bytes: Seq<u8>, limits: ImageDecodeLimits) -> bool {
    match preflight(bytes, limits) {
        Ok((width, height, rgba_len, budget)) => {
            let setup = png_setup(bytes, budget);
            &&& png_info(setup) is None
            &&& !png_animated(setup)
            &&& png_output_size(setup) matches Some(size) && size <= rgba_len
        },
        Err(_) => false,
    }
}

/// What decoding a PNG gives, its allocations granted: the dimensions and
/// the RGBA8 bytes, or the first failure in the order checked: the
/// preflight, the header chunks, animation, the output size against the
/// decoded limit, the frame, the chunks after it, then the frame's layout.
pub open spec fn png_decode(bytes: Seq<u8>, limits: ImageDecodeLimits) -> Result<(u32, u32, Seq<u8>), DecodeFailure> {
    match preflight(bytes, limits) {
        Err(e) => Err(failure_of(e)),
        Ok((width, height, rgba_len, budget)) => {
            let setup = png_setup(bytes, budget);
            if png_info(setup) is Some {
                Err(png_failure_of(png_info(setup)->0))
            } else if png_animated(setup) {
                Err(DecodeFailure::Animated)
            } else if png_output_size(setup) is None || png_output_size(setup)->0 > rgba_len {
                Err(DecodeFailure::DecodedLimit)
            } else {
                match png_frame(setup) {
                    Err(f) => Err(png_failure_of(f)),
                    Ok((frame, rows)) => if png_finish(setup) is Some {
                        Err(png_failure_of(png_finish(setup)->0))
                    } else {
                        match frame_pixels(frame, rows, png_output_size(setup)->0 as nat, rgba_len) {
                            Ok(pixels) => Ok((width, height, pixels)),
                            Err(f) => Err(f),
                        }
                    },
                }
            }
        },
    }
}

impl Image {
    /// Decodes a static PNG into straight-alpha RGBA8, without filesystem or
    /// network access. Palette/transparency and grayscale are expanded;
    /// sixteen-bit samples keep their high byte. No gamma or color-profile
    /// conversion is applied. Invalid checksums, truncated streams and APNG
    /// are rejected. A decoded frame whose size disagrees with the header is
    /// reported as exceeding the decoded limit.
    pub fn from_png(bytes: &[u8], limits: ImageDecodeLimits) -> (r: Result<Image, ImageDecodeError>)
        ensures
            r matches Ok(image) ==> png_decode(bytes@, limits) == Ok::<(u32, u32, Seq<u8>), DecodeFailure>(
                (image.spec_width(), image.spec_height(), image.spec_pixels()),
            ),
            r matches Err(e) ==> png_decode(bytes@, limits) == Err::<(u32, u32, Seq<u8>), DecodeFailure>(
                failure_of(e),
            ) || (e is AllocationLimit && png_allocates(bytes@, limits)),
            png_decode(bytes@, limits) is Ok ==> r is Ok || r matches Err(ImageDecodeError::AllocationLimit),
    {
        let (width, height, rgba_len, budget) = match check_png_preflight(bytes, limits) {
            Ok(checked) => checked,
            Err(e) => {
                return Err(e);
            },
        };
        let mut decoder = png_decoder(bytes, budget);
        expand_and_strip(&mut decoder);
        ignore_text_chunks(&mut decoder);
        ignore_color_profile(&mut decoder);
        let mut reader = match read_png_info(decoder) {
            Ok(reader) => reader,
            Err(error) => {
                return Err(decoding_failure(error));
            },
        };
        if is_animated(&reader) {
            return Err(ImageDecodeError::Animated);
        }
        let output_len = match output_buffer_size(&reader) {
            Some(length) => {
                if length > rgba_len {
                    return Err(ImageDecodeError::DecodedLimit);
                }
                length
            },
            None => {
                return Err(ImageDecodeError::DecodedLimit);
            },
        };
        let mut decoded = match zeroed(output_len) {
            Ok(decoded) => decoded,
            Err(e) => {
                return Err(e);
            },
        };
        let ghost setup = reader_setup(reader);
        proof {
            assert(decoded@ =~= Seq::new(decoded@.len(), |i: int| 0u8));
            assert(first_frame_call(setup, frames_requested(reader), decoded@));
        }
        let frame = match next_png_frame(&mut reader, &mut decoded) {
            Ok(info) => {
                proof {
                    assert(decoded_first_frame(setup, info, decoded@));
                }
                frame_layout(&info)
            },
            Err(error) => {
                return Err(decoding_failure(error));
            },
        };
        let ghost written = decoded@;
        match finish_png(&mut reader) {
            Ok(()) => {},
            Err(error) => {
                return Err(decoding_failure(error));
            },
        }
        if is_animated(&reader) {
            return Err(ImageDecodeError::Animated);
        }
        let rgba = match rgba_from_frame(frame, decoded.as_slice(), rgba_len) {
            Ok(rgba) => rgba,
            Err(e) => {
                return Err(e);
            },
        };
        proof {
            let rows = (frame.line_size * frame.height) as int;
            let named = png_frame(setup)->Ok_0.1;
            assert(named == written.take(rows));
            assert(frame_rgba(frame, written, rgba_len) is Ok);
            assert(Seq::new(rgba_len as nat, |i: int| expanded_byte(frame.color, written.take(rows), i)) =~= Seq::new(
                rgba_len as nat,
                |i: int| expanded_byte(frame.color, named, i),
            ));
            assert(rgba_len as int == byte_len(width, height));
        }
        match Image::new(width, height, rgba) {
            Ok(image) => Ok(image),
            Err(_) => Err(ImageDecodeError::DecodedLimit),
        }
    }
}

} // verus!
