//! Calls into the `image` and `base64` crates: resampling, PNG encoding,
//! colour conversion, GIF decoding, and Base64. Each function here is
//! trusted: its contract is what the crate's source shows, and the pixel
//! values it computes are named rather than stated.
use vstd::prelude::*;
use crate::imaging::{Raster, PixelLayout, channels_of, is_uniform, GifFrameData, FrameModel, frame_model, rgba_to_rgb};
use image::{ImageError, AnimationDecoder};
use image::codecs::gif::GifDecoder;
use base64::Engine;

verus! {

#[verifier::external_type_specification]
#[verifier::external_body]
pub struct ExImageError(ImageError);

/// Resampling filters used by the uploads.
#[derive(Debug, Clone, Copy, PartialEq, Eq, Structural)]
pub enum ResizeFilter {
    Nearest,
    Lanczos3,
}

/// The pixels `image::imageops::resize` computes when resampling an image to
/// `nwidth` x `nheight` with the nearest-neighbour filter (exact integer and
/// float arithmetic, the same on every machine).
pub uninterp spec fn resampled_nearest(
    width: u32,
    height: u32,
    layout: PixelLayout,
    data: Seq<u8>,
    nwidth: u32,
    nheight: u32,
) -> Seq<u8>;

/// Resamples an image with `image::imageops::resize` (what
/// `DynamicImage::resize_exact` does). Trusted: the result has the new size
/// and the same layout; at the same size the source copies the image
/// unchanged; with the nearest-neighbour filter the pixels are the named
/// resampling of the input. A non-empty image whose pixels are all one
/// colour keeps that colour at every output pixel, whatever the filter: each
/// output channel is a sum of input values times kernel weights divided by
/// the weights' sum (positive: the main lobe of the kernel outweighs its
/// negative lobes), clamped and rounded to nearest, so the float error, far
/// below one half, rounds back to the input value.
/// Beyond that the Lanczos kernel calls `f32::sin`, whose precision std
/// leaves to the platform, so its pixels are not stated.
#[verifier::external_body]
pub(crate) fn resize_exact(img: &Raster, nwidth: u32, nheight: u32, filter: ResizeFilter) -> (out: Raster)
    requires
        img.wf(),
        nwidth * nheight * channels_of(img.layout) <= usize::MAX,
    ensures
        out.width == nwidth,
        out.height == nheight,
        out.layout == img.layout,
        out.wf(),
        filter == ResizeFilter::Nearest ==> out.data@ == resampled_nearest(
            img.width,
            img.height,
            img.layout,
            img.data@,
            nwidth,
            nheight,
        ),
        nwidth == img.width && nheight == img.height ==> out.data@ == img.data@,
        img.width > 0 && img.height > 0 && is_uniform(img.data@, channels_of(img.layout) as int)
            ==> forall|i: int|
            0 <= i < out.data@.len() ==> #[trigger] out.data@[i] == img.data@[i % channels_of(
                img.layout,
            ) as int],
{
    let f = match filter {
        ResizeFilter::Nearest => image::imageops::FilterType::Nearest,
        ResizeFilter::Lanczos3 => image::imageops::FilterType::Lanczos3,
    };
    let data = match img.layout {
        PixelLayout::Rgb => image::imageops::resize(&image::RgbImage::from_raw(img.width, img.height, img.data.clone()).unwrap(), nwidth, nheight, f).into_raw(),
        PixelLayout::Rgba => image::imageops::resize(&image::RgbaImage::from_raw(img.width, img.height, img.data.clone()).unwrap(), nwidth, nheight, f).into_raw(),
    };
    Raster { width: nwidth, height: nheight, layout: img.layout, data }
}

/// The bytes `DynamicImage::write_to` produces for an image in PNG format.
pub uninterp spec fn png_encoding(width: u32, height: u32, layout: PixelLayout, data: Seq<u8>) -> Seq<u8>;

/// Encodes an image as PNG with `DynamicImage::write_to` into memory.
/// Trusted: on success the bytes are the named PNG encoding of the image;
/// an image of positive size up to 128 x 128 always encodes (the `png`
/// encoder fails only on a zero dimension or on a chunk over `i32::MAX`
/// bytes, and writing to memory does not fail). When larger images fail is
/// not stated.
#[verifier::external_body]
pub(crate) fn encode_png(img: &Raster) -> (out: Result<Vec<u8>, ImageError>)
    requires
        img.wf(),
    ensures
        out matches Ok(bytes) ==> bytes@ == png_encoding(img.width, img.height, img.layout, img.data@),
        0 < img.width <= 128 && 0 < img.height <= 128 ==> out is Ok,
{
    let dynamic = match img.layout {
        PixelLayout::Rgb => image::DynamicImage::ImageRgb8(image::RgbImage::from_raw(img.width, img.height, img.data.clone()).unwrap()),
        PixelLayout::Rgba => image::DynamicImage::ImageRgba8(image::RgbaImage::from_raw(img.width, img.height, img.data.clone()).unwrap()),
    };
    let mut buf: Vec<u8> = Vec::new();
    dynamic.write_to(&mut std::io::Cursor::new(&mut buf), image::ImageFormat::Png)?;
    Ok(buf)
}

/// What the `image` crate decodes from `bytes` given the file extension
/// `ext` (as `image::open` picks the format from the path), converted to
/// 8-bit RGB: width, height and pixels, or `None` where it fails.
pub uninterp spec fn rgb8_decoding(bytes: Seq<u8>, ext: Seq<char>) -> Option<(u32, u32, Seq<u8>)>;

/// Decodes a still image held in memory with `ImageReader::decode`, the
/// format taken from the extension as `image::open` does, and converts it
/// with `DynamicImage::to_rgb8`. Trusted: success and the result are the named
/// decoding of the bytes and extension; the result is a well-formed RGB
/// raster.
#[verifier::external_body]
pub(crate) fn decode_rgb8(bytes: &[u8], ext: &str) -> (out: Result<Raster, ImageError>)
    ensures
        out is Ok <==> rgb8_decoding(bytes@, ext@) is Some,
        out matches Ok(r) ==> r.layout == PixelLayout::Rgb && r.wf() && rgb8_decoding(bytes@, ext@)
            == Some((r.width, r.height, r.data@)),
{
    let cursor = std::io::Cursor::new(bytes);
    let reader = match image::ImageFormat::from_extension(ext) {
        Some(format) => image::ImageReader::with_format(cursor, format),
        None => image::ImageReader::new(cursor),
    };
    let rgb = reader.decode()?.to_rgb8();
    let (width, height) = rgb.dimensions();
    Ok(Raster { width, height, layout: PixelLayout::Rgb, data: rgb.into_raw() })
}

/// Converts an RGBA image to RGB with `DynamicImage::to_rgb8`. Trusted: the
/// result has the same size and RGB layout, and each pixel keeps its red,
/// green and blue bytes and drops alpha (the source casts channel by channel
/// within one colour space, an identity on bytes).
#[verifier::external_body]
pub(crate) fn to_rgb8(img: &Raster) -> (out: Raster)
    requires
        img.wf(),
        img.layout == PixelLayout::Rgba,
    ensures
        out.width == img.width,
        out.height == img.height,
        out.layout == PixelLayout::Rgb,
        out.wf(),
        out.data@ == rgba_to_rgb(img.data@),
{
    let rgba = image::RgbaImage::from_raw(img.width, img.height, img.data.clone()).unwrap();
    let data = image::DynamicImage::ImageRgba8(rgba).to_rgb8().into_raw();
    Raster { width: img.width, height: img.height, layout: PixelLayout::Rgb, data }
}

/// Why a GIF could not be read.
#[derive(Debug)]
pub enum GifReadError {
    /// The decoder rejected the stream's header.
    Decode(ImageError),
    /// A frame failed to decode.
    Frames(ImageError),
}

/// The step at which reading a GIF stops.
#[derive(Debug, Clone, Copy, PartialEq, Eq, Structural)]
pub enum GifStage {
    /// `GifDecoder::new` rejects the stream.
    Header,
    /// Collecting the frames fails.
    Frames,
}

/// What the `image` crate's GIF decoder makes of `bytes`: the frames, or
/// the step that rejects them.
pub uninterp spec fn gif_decoding(bytes: Seq<u8>) -> Result<Seq<FrameModel>, GifStage>;

/// Decodes every frame of a GIF held in memory: `GifDecoder::new`, then
/// `AnimationDecoder::into_frames` and `Frames::collect_frames`, each frame
/// taken apart with `Frame::delay`, `Delay::numer_denom_ms` and
/// `Frame::into_buffer` (one wrapper: the decoder type, bounded by
/// `std::io::Read`, cannot be declared here). Trusted: success and the frames
/// are the named decoding of the bytes, and each canvas fits in memory and its
/// buffer covers it, as every `ImageBuffer` guarantees; a stream rejected by
/// `GifDecoder::new` gives the decode error, one rejected while the frames
/// are collected gives the frames error.
#[verifier::external_body]
pub(crate) fn decode_gif(bytes: Vec<u8>) -> (out: Result<Vec<GifFrameData>, GifReadError>)
    ensures
        match gif_decoding(bytes@) {
            Ok(ms) => out matches Ok(frames) && ms == frames@.map_values(
                |f: GifFrameData| frame_model(f),
            ),
            Err(GifStage::Header) => out matches Err(GifReadError::Decode(_)),
            Err(GifStage::Frames) => out matches Err(GifReadError::Frames(_)),
        },
        out matches Ok(frames) ==> forall|i: int| 0 <= i < frames@.len() ==> {
            &&& #[trigger] frames@[i].width * frames@[i].height * 4 <= usize::MAX
            &&& frames@[i].rgba@.len() >= frames@[i].width * frames@[i].height * 4
        },
{
    let decoder = GifDecoder::new(std::io::Cursor::new(bytes)).map_err(GifReadError::Decode)?;
    let frames = decoder.into_frames().collect_frames().map_err(GifReadError::Frames)?;
    let mut out = Vec::new();
    for frame in frames {
        let (delay_numer, delay_denom) = frame.delay().numer_denom_ms();
        let buffer = frame.into_buffer();
        let (width, height) = buffer.dimensions();
        out.push(GifFrameData { delay_numer, delay_denom, width, height, rgba: buffer.into_raw() });
    }
    Ok(out)
}

/// The standard Base64 alphabet.
pub open spec fn base64_digit(v: int) -> char {
    seq![
        'A', 'B', 'C', 'D', 'E', 'F', 'G', 'H', 'I', 'J', 'K', 'L', 'M', 'N', 'O', 'P',
        'Q', 'R', 'S', 'T', 'U', 'V', 'W', 'X', 'Y', 'Z', 'a', 'b', 'c', 'd', 'e', 'f',
        'g', 'h', 'i', 'j', 'k', 'l', 'm', 'n', 'o', 'p', 'q', 'r', 's', 't', 'u', 'v',
        'w', 'x', 'y', 'z', '0', '1', '2', '3', '4', '5', '6', '7', '8', '9', '+', '/',
    ][v]
}

/// Standard, padded Base64 (RFC 4648): each group of three bytes gives four
/// digits of six bits; a last group of one or two bytes is padded with `=`.
pub open spec fn base64_standard(d: Seq<u8>) -> Seq<char>
    decreases d.len(),
{
    if d.len() == 0 {
        Seq::empty()
    } else {
        let b0 = d[0] as int;
        let b1 = if d.len() > 1 { d[1] as int } else { 0 };
        let b2 = if d.len() > 2 { d[2] as int } else { 0 };
        let c0 = base64_digit(b0 / 4);
        let c1 = base64_digit((b0 % 4) * 16 + b1 / 16);
        let c2 = base64_digit((b1 % 16) * 4 + b2 / 64);
        let c3 = base64_digit(b2 % 64);
        if d.len() == 1 {
            seq![c0, c1, '=', '=']
        } else if d.len() == 2 {
            seq![c0, c1, c2, '=']
        } else {
            seq![c0, c1, c2, c3] + base64_standard(d.skip(3))
        }
    }
}

/// Encodes bytes as standard, padded Base64 with
/// `base64::engine::general_purpose::STANDARD.encode`. Trusted: the result is
/// the standard encoding stated above.
#[verifier::external_body]
pub(crate) fn encode_base64(data: &[u8]) -> (out: String)
    ensures
        out@ == base64_standard(data@),
{
    base64::engine::general_purpose::STANDARD.encode(data)
}

} // verus!
