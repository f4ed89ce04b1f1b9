//! Turning a still image or an animated GIF into LED-grid frames and a small
//! PNG preview.
use vstd::prelude::*;
use crate::imaging::{
    Raster, PixelLayout, GifFrameData, agree_on_center_square, lemma_center_square_agree, FrameModel, frame_model, square_side, center_square, center_square_of, led_grid,
    flip_rows, crop_center_square, bin_average, flip_vertical, lemma_center_square_unique,
    lemma_led_grid_unique, lemma_vertical_flip_unique, rgba_to_rgb, is_uniform, uniform_on_center_square,
    lemma_uniform_center_square, lemma_flipped_rgb_of_uniform,
};
use crate::codec::{
    ResizeFilter, resampled_nearest, png_encoding, base64_standard, resize_exact, encode_png,
    to_rgb8, encode_base64, decode_gif, gif_decoding, decode_rgb8, rgb8_decoding, GifReadError, GifStage,
};
use image::ImageError;
use vstd::string::to_string_from_display_ensures;

verus! {

/// Side of the square PNG preview.
pub const PREVIEW_SIDE: u32 = 128;
/// Delay given to a GIF frame whose delay is zero or undefined.
pub const DEFAULT_DELAY_MS: u32 = 100;

/// A still image ready for the grid.
pub struct ProcessedImage {
    /// Raw RGB pixel data, LED row-major, grid_width * grid_height * 3 bytes.
    pub pixels: Vec<u8>,
    /// Base64 of a PNG preview of the grid in screen orientation.
    pub preview_png_base64: String,
}

/// One frame of an animation ready for the grid.
pub struct GifFrame {
    pub pixels: Vec<u8>,
    pub delay_ms: u32,
}

/// An animation ready for the grid.
pub struct ProcessedGif {
    pub frames: Vec<GifFrame>,
    /// Base64 of a PNG preview of the first frame.
    pub preview_png_base64: String,
}

/// Why an upload could not be prepared.
#[derive(Debug)]
pub enum UploadError {
    OpenImage(ImageError),
    ImageTooLarge,
    EncodePreview(ImageError),
    DecodeGif(ImageError),
    ReadGifFrames(ImageError),
    NoFrames,
}

impl UploadError {
    /// The message that reports this error: a fixed prefix, then the image
    /// crate's description of the cause (its `Display` text).
    pub fn message(&self) -> (out: String)
        ensures
            match *self {
                UploadError::OpenImage(e) => exists|d: String|
                    to_string_from_display_ensures::<ImageError>(&e, d) && out@
                        == "Failed to open image: "@ + d@,
                UploadError::ImageTooLarge => out@ == "Image too large for the grid"@,
                UploadError::EncodePreview(e) => exists|d: String|
                    to_string_from_display_ensures::<ImageError>(&e, d) && out@
                        == "Failed to encode preview: "@ + d@,
                UploadError::DecodeGif(e) => exists|d: String|
                    to_string_from_display_ensures::<ImageError>(&e, d) && out@
                        == "Failed to decode GIF: "@ + d@,
                UploadError::ReadGifFrames(e) => exists|d: String|
                    to_string_from_display_ensures::<ImageError>(&e, d) && out@
                        == "Failed to read GIF frames: "@ + d@,
                UploadError::NoFrames => out@ == "GIF contains no frames"@,
            },
    {
        let (mut s, cause) = match self {
            UploadError::OpenImage(e) => (String::from_str("Failed to open image: "), e.to_string()),
            UploadError::ImageTooLarge => return String::from_str("Image too large for the grid"),
            UploadError::EncodePreview(e) => (String::from_str("Failed to encode preview: "), e.to_string()),
            UploadError::DecodeGif(e) => (String::from_str("Failed to decode GIF: "), e.to_string()),
            UploadError::ReadGifFrames(e) => (String::from_str("Failed to read GIF frames: "), e.to_string()),
            UploadError::NoFrames => return String::from_str("GIF contains no frames"),
        };
        s.append(cause.as_str());
        s
    }
}

/// What a prepared still image holds for a `width` x `height` RGB image:
/// the LED grid of its centred square, and the preview of that grid.
pub open spec fn still_image_result(
    p: ProcessedImage,
    width: u32,
    height: u32,
    data: Seq<u8>,
    grid_width: u8,
    grid_height: u8,
) -> bool {
    &&& p.pixels@.len() == grid_width * grid_height * 3
    &&& p.pixels@ == led_grid(
        center_square_of(width, height, PixelLayout::Rgb, data),
        square_side(width as int, height as int),
        grid_width as int,
        grid_height as int,
    )
    &&& p.preview_png_base64@ == grid_preview(p.pixels@, grid_width as u32, grid_height as u32)
}

/// Base64 of the PNG preview of an RGB grid: flipped back to screen rows and
/// scaled up to 128 x 128 with nearest-neighbour sampling.
pub open spec fn grid_preview(pixels: Seq<u8>, gw: u32, gh: u32) -> Seq<char> {
    let screen = flip_rows(pixels, gw * 3);
    base64_standard(
        png_encoding(
            PREVIEW_SIDE,
            PREVIEW_SIDE,
            PixelLayout::Rgb,
            resampled_nearest(gw, gh, PixelLayout::Rgb, screen, PREVIEW_SIDE, PREVIEW_SIDE),
        ),
    )
}

/// Prepares a still RGB image: crops it to its centered square, bin-averages
/// the square down to the grid (LED row 0 at the bottom), and renders the
/// preview.
pub fn process_image(img: &Raster, grid_width: u8, grid_height: u8) -> (out: Result<ProcessedImage, UploadError>)
    requires
        img.wf(),
        img.layout == PixelLayout::Rgb,
        grid_width * square_side(img.width as int, img.height as int) <= u32::MAX,
        grid_height * square_side(img.width as int, img.height as int) <= u32::MAX,
        255 * (square_side(img.width as int, img.height as int) * square_side(
            img.width as int,
            img.height as int,
        )) <= u64::MAX,
    ensures
        out matches Ok(p) && still_image_result(
            p,
            img.width,
            img.height,
            img.data@,
            grid_width,
            grid_height,
        ),
{
    let square = crop_center_square(img);
    proof {
        lemma_center_square_unique(*img, square);
    }
    let pixels = bin_average(&square, grid_width, grid_height);
    proof {
        lemma_led_grid_unique(square.data@, square.width as int, grid_width as int, grid_height as int, pixels@);
    }
    let gw: u32 = grid_width as u32;
    let gh: u32 = grid_height as u32;
    let grid = Raster { width: gw, height: gh, layout: PixelLayout::Rgb, data: pixels.clone() };
    assert(grid.wf());
    let screen = flip_vertical(&grid);
    proof {
        lemma_vertical_flip_unique(grid, screen);
    }
    let preview = resize_exact(&screen, PREVIEW_SIDE, PREVIEW_SIDE, ResizeFilter::Nearest);
    let png = match encode_png(&preview) {
        Ok(bytes) => bytes,
        Err(e) => return Err(UploadError::EncodePreview(e)),
    };
    let preview_png_base64 = encode_base64(png.as_slice());
    let p = ProcessedImage { pixels, preview_png_base64 };
    assert(center_square(*img) == center_square_of(img.width, img.height, PixelLayout::Rgb, img.data@));
    Ok(p)
}

/// Whether the grid limits of [`process_image`] hold for an image of
/// `width` x `height`: the 32-bit bin bounds and the 64-bit channel sums stay
/// in range.
pub open spec fn grid_limits_hold(width: u32, height: u32, grid_width: u8, grid_height: u8) -> bool {
    let side = square_side(width as int, height as int);
    &&& grid_width * side <= u32::MAX
    &&& grid_height * side <= u32::MAX
    &&& 255 * (side * side) <= u64::MAX
}

/// What preparing a still image file gives, from what decoding it gave
/// (width, height and RGB pixels, or `None`): an undecodable file is an
/// open error, an image beyond the grid limits is too large, any other gives
/// the LED grid of its centred square and its preview.
pub open spec fn image_file_result(
    decoded: Option<(u32, u32, Seq<u8>)>,
    grid_width: u8,
    grid_height: u8,
    out: Result<ProcessedImage, UploadError>,
) -> bool {
    match decoded {
        None => out matches Err(UploadError::OpenImage(_)),
        Some((w, h, d)) => if grid_limits_hold(w, h, grid_width, grid_height) {
            out matches Ok(p) && still_image_result(p, w, h, d, grid_width, grid_height)
        } else {
            out matches Err(UploadError::ImageTooLarge)
        },
    }
}

/// Only the centred square of a still image matters: two RGB images of one
/// size that agree on their centred square give the same LED pixels and the
/// same preview.
pub proof fn lemma_still_image_reads_center_square(
    width: u32,
    height: u32,
    d1: Seq<u8>,
    d2: Seq<u8>,
    grid_width: u8,
    grid_height: u8,
    p1: ProcessedImage,
    p2: ProcessedImage,
)
    requires
        agree_on_center_square(width, height, PixelLayout::Rgb, d1, d2),
        still_image_result(p1, width, height, d1, grid_width, grid_height),
        still_image_result(p2, width, height, d2, grid_width, grid_height),
    ensures
        p1.pixels@ == p2.pixels@,
        p1.preview_png_base64@ == p2.preview_png_base64@,
{
    lemma_center_square_agree(width, height, PixelLayout::Rgb, d1, d2);
}

/// Only the centred square of an image file matters: two files that decode
/// to images of one size agreeing on their centred square are both prepared,
/// with the same LED pixels and the same preview, or both refused as too
/// large.
pub proof fn lemma_image_file_reads_center_square(
    width: u32,
    height: u32,
    d1: Seq<u8>,
    d2: Seq<u8>,
    grid_width: u8,
    grid_height: u8,
    out1: Result<ProcessedImage, UploadError>,
    out2: Result<ProcessedImage, UploadError>,
)
    requires
        agree_on_center_square(width, height, PixelLayout::Rgb, d1, d2),
        image_file_result(Some((width, height, d1)), grid_width, grid_height, out1),
        image_file_result(Some((width, height, d2)), grid_width, grid_height, out2),
    ensures
        (out1 matches Ok(p1) && out2 matches Ok(p2) && p1.pixels@ == p2.pixels@
            && p1.preview_png_base64@ == p2.preview_png_base64@) || (out1 matches Err(
            UploadError::ImageTooLarge,
        ) && out2 matches Err(UploadError::ImageTooLarge)),
{
    if grid_limits_hold(width, height, grid_width, grid_height) {
        let p1 = out1->Ok_0;
        let p2 = out2->Ok_0;
        lemma_still_image_reads_center_square(width, height, d1, d2, grid_width, grid_height, p1, p2);
    }
}

/// An image file is refused as too large only where the arithmetic of its
/// preparation would not fit: a decoded image whose bin bounds fit 32 bits
/// and whose channel sums fit 64 bits is always prepared.
pub proof fn lemma_image_file_refused_only_beyond_arithmetic(
    width: u32,
    height: u32,
    d: Seq<u8>,
    grid_width: u8,
    grid_height: u8,
    out: Result<ProcessedImage, UploadError>,
)
    requires
        image_file_result(Some((width, height, d)), grid_width, grid_height, out),
    ensures
        (grid_width * (if width <= height {
            width as int
        } else {
            height as int
        }) <= 0xffff_ffff && grid_height * (if width <= height {
            width as int
        } else {
            height as int
        }) <= 0xffff_ffff && 255 * (if width <= height {
            width as int
        } else {
            height as int
        }) * (if width <= height {
            width as int
        } else {
            height as int
        }) <= 0xffff_ffff_ffff_ffff) ==> (out matches Ok(p) && still_image_result(
            p,
            width,
            height,
            d,
            grid_width,
            grid_height,
        )),
        out matches Err(UploadError::ImageTooLarge) ==> !(grid_width * (if width <= height {
            width as int
        } else {
            height as int
        }) <= 0xffff_ffff && grid_height * (if width <= height {
            width as int
        } else {
            height as int
        }) <= 0xffff_ffff && 255 * (if width <= height {
            width as int
        } else {
            height as int
        }) * (if width <= height {
            width as int
        } else {
            height as int
        }) <= 0xffff_ffff_ffff_ffff),
{
    let side = square_side(width as int, height as int);
    assert(255 * side * side == 255 * (side * side)) by (nonlinear_arith);
}

/// Prepares a still image file held in memory: decodes it by its extension
/// (as opening it by path does), then proceeds as [`process_image`]. An image
/// beyond the grid limits is refused.
pub fn process_image_bytes(bytes: &[u8], ext: &str, grid_width: u8, grid_height: u8) -> (out: Result<ProcessedImage, UploadError>)
    ensures
        image_file_result(rgb8_decoding(bytes@, ext@), grid_width, grid_height, out),
        match rgb8_decoding(bytes@, ext@) {
            Some((w, h, d)) => (grid_width * (if w <= h {
            w as int
        } else {
            h as int
        }) <= 0xffff_ffff && grid_height * (if w <= h {
            w as int
        } else {
            h as int
        }) <= 0xffff_ffff && 255 * (if w <= h {
            w as int
        } else {
            h as int
        }) * (if w <= h {
            w as int
        } else {
            h as int
        }) <= 0xffff_ffff_ffff_ffff) ==> (out matches Ok(p) && still_image_result(
                p,
                w,
                h,
                d,
                grid_width,
                grid_height,
            )),
            None => true,
        },
{
    let img = match decode_rgb8(bytes, ext) {
        Ok(r) => r,
        Err(e) => return Err(UploadError::OpenImage(e)),
    };
    let side: u32 = if img.width <= img.height { img.width } else { img.height };
    let s64: u64 = side as u64;
    assert(grid_width as u64 * s64 <= 255 * 0xffff_ffffu64 && grid_height as u64 * s64 <= 255
        * 0xffff_ffffu64) by (nonlinear_arith)
        requires
            s64 <= 0xffff_ffffu64,
            grid_width <= 255,
            grid_height <= 255,
    ;
    if grid_width as u64 * s64 > 0xffff_ffff || grid_height as u64 * s64 > 0xffff_ffff {
        return Err(UploadError::ImageTooLarge);
    }
    if s64 > 0 && s64 > 0xffff_ffff_ffff_ffff / 255 / s64 {
        proof {
            assert(255 * (s64 * s64) > u64::MAX) by (nonlinear_arith)
                requires
                    s64 > 0,
                    s64 > 0xffff_ffff_ffff_ffffu64 / 255 / s64,
            ;
            assert(255 * s64 * s64 == 255 * (s64 * s64)) by (nonlinear_arith);
        }
        return Err(UploadError::ImageTooLarge);
    }
    proof {
        assert(255 * (s64 * s64) <= u64::MAX) by (nonlinear_arith)
            requires
                s64 == 0 || s64 <= 0xffff_ffff_ffff_ffffu64 / 255 / s64,
        ;
    }
    process_image(&img, grid_width, grid_height)
}


/// Delay of a GIF frame in milliseconds: the ratio rounded down, with 100 in
/// place of a zero or undefined delay.
pub open spec fn frame_delay_ms(numer: u32, denom: u32) -> u32 {
    let d = if denom == 0 {
        DEFAULT_DELAY_MS
    } else {
        (numer / denom) as u32
    };
    if d == 0 {
        DEFAULT_DELAY_MS
    } else {
        d
    }
}

/// Computes a frame's delay in milliseconds.
pub fn frame_delay(numer: u32, denom: u32) -> (out: u32)
    ensures
        out == frame_delay_ms(numer, denom),
        out > 0,
        denom != 0 && numer / denom != 0 ==> out == numer / denom,
        denom == 0 || numer / denom == 0 ==> out == 100,
{
    let d = if denom == 0 {
        DEFAULT_DELAY_MS
    } else {
        numer / denom
    };
    if d == 0 {
        DEFAULT_DELAY_MS
    } else {
        d
    }
}

/// A frame's delay is the decoded ratio of milliseconds rounded down, kept
/// however long; only a zero or undefined delay becomes 100 ms.
pub proof fn lemma_frame_delay_is_ratio(numer: u32, denom: u32)
    ensures
        denom != 0 && numer / denom != 0 ==> frame_delay_ms(numer, denom) == numer / denom,
        denom == 0 || numer / denom == 0 ==> frame_delay_ms(numer, denom) == 100,
{
}

/// The canvas of a decoded frame: its first `width * height * 4` bytes.
pub open spec fn canvas_of(f: FrameModel) -> Seq<u8> {
    f.4.take(f.2 * f.3 * 4)
}

/// Frames as the decoder delivers them: each canvas fits in memory and its
/// buffer covers it.
pub open spec fn frames_ok(frames: Seq<FrameModel>) -> bool {
    forall|i: int|
        0 <= i < frames.len() ==> {
            &&& (#[trigger] frames[i]).2 * frames[i].3 * 4 <= usize::MAX
            &&& frames[i].4.len() >= frames[i].2 * frames[i].3 * 4
        }
}

/// The LED pixels of a frame scaled to a grid `gw` cells wide (RGBA, screen
/// rows): its rows flipped to LED order and the alpha bytes dropped.
pub open spec fn led_pixels(scaled: Seq<u8>, gw: u32) -> Seq<u8> {
    rgba_to_rgb(flip_rows(scaled, gw * 4))
}

/// Base64 of the PNG preview of a frame scaled to the grid: scaled to
/// 128 x 128 with nearest-neighbour sampling, in screen rows.
pub open spec fn frame_preview(scaled: Seq<u8>, gw: u32, gh: u32) -> Seq<char> {
    base64_standard(
        png_encoding(
            PREVIEW_SIDE,
            PREVIEW_SIDE,
            PixelLayout::Rgba,
            resampled_nearest(gw, gh, PixelLayout::Rgba, scaled, PREVIEW_SIDE, PREVIEW_SIDE),
        ),
    )
}

/// Turns a frame scaled to the grid (RGBA, screen rows) into an LED frame:
/// rows flipped to LED order, alpha dropped, and the delay of the decoded
/// frame.
pub fn led_frame(scaled: &Raster, delay_numer: u32, delay_denom: u32) -> (out: GifFrame)
    requires
        scaled.wf(),
        scaled.layout == PixelLayout::Rgba,
    ensures
        out.delay_ms == frame_delay_ms(delay_numer, delay_denom),
        out.pixels@ == led_pixels(scaled.data@, scaled.width),
        out.pixels@.len() == scaled.width * scaled.height * 3,
{
    let delay_ms = frame_delay(delay_numer, delay_denom);
    let flipped = flip_vertical(scaled);
    proof {
        lemma_vertical_flip_unique(*scaled, flipped);
    }
    let rgb = to_rgb8(&flipped);
    proof {
        assert(rgb.data@.len() == rgb.width * rgb.height * 3);
    }
    GifFrame { pixels: rgb.data, delay_ms }
}

/// Renders the preview of a frame scaled to the grid.
pub fn scaled_frame_preview(scaled: &Raster) -> (out: String)
    requires
        scaled.wf(),
        scaled.layout == PixelLayout::Rgba,
    ensures
        out@ == frame_preview(scaled.data@, scaled.width, scaled.height),
{
    let preview = resize_exact(scaled, PREVIEW_SIDE, PREVIEW_SIDE, ResizeFilter::Nearest);
    match encode_png(&preview) {
        Ok(png) => encode_base64(png.as_slice()),
        Err(_) => String::new(),
    }
}

/// Frame `m`'s centred square already has the grid's size `gw` x `gh`.
pub open spec fn square_fits_grid(m: FrameModel, gw: u32, gh: u32) -> bool {
    square_side(m.2 as int, m.3 as int) == gw && square_side(m.2 as int, m.3 as int) == gh
}

/// Where frame `m`'s centred square is non-empty and one colour, the
/// resampled frame `s` has that colour at every pixel.
pub open spec fn keeps_uniform_square(m: FrameModel, s: Seq<u8>) -> bool {
    let sq = center_square_of(m.2, m.3, PixelLayout::Rgba, canvas_of(m));
    square_side(m.2 as int, m.3 as int) > 0 && is_uniform(sq, 4) ==> forall|j: int|
        0 <= j < s.len() ==> #[trigger] s[j] == sq[j % 4]
}

/// `g` is what preparing the decoded frames `ms` gives when `scaled[i]` is
/// frame `i`'s centred square resampled to `gw` x `gh` (RGBA): one LED frame
/// per decoded frame, in order, and the preview of the first. Where the
/// centred square already has the grid's size, resampling copies it, so
/// `scaled[i]` is that square itself; where the square is one colour,
/// `scaled[i]` is that colour throughout.
pub open spec fn gif_from_scaled(g: ProcessedGif, ms: Seq<FrameModel>, scaled: Seq<Seq<u8>>, gw: u32, gh: u32) -> bool {
    &&& g.frames@.len() == ms.len()
    &&& scaled.len() == ms.len()
    &&& forall|i: int| 0 <= i < ms.len() ==> (#[trigger] scaled[i]).len() == gw * gh * 4
    &&& forall|i: int|
        0 <= i < ms.len() && square_fits_grid(ms[i], gw, gh) ==> #[trigger] scaled[i]
            == center_square_of(ms[i].2, ms[i].3, PixelLayout::Rgba, canvas_of(ms[i]))
    &&& forall|i: int| 0 <= i < ms.len() ==> #[trigger] keeps_uniform_square(ms[i], scaled[i])
    &&& forall|i: int|
        0 <= i < ms.len() ==> {
            &&& (#[trigger] g.frames@[i]).delay_ms == frame_delay_ms(ms[i].0, ms[i].1)
            &&& g.frames@[i].pixels@ == led_pixels(scaled[i], gw)
            &&& g.frames@[i].pixels@.len() == gw * gh * 3
        }
    &&& ms.len() > 0 ==> g.preview_png_base64@ == frame_preview(scaled[0], gw, gh)
}

/// What preparing the decoded frames `ms` gives, whatever the Lanczos
/// resampling (whose `sin` is platform-dependent) produced: some frames of the
/// grid's size stand in for the resampled ones.
pub open spec fn gif_result(g: ProcessedGif, ms: Seq<FrameModel>, gw: u32, gh: u32) -> bool {
    exists|scaled: Seq<Seq<u8>>| gif_from_scaled(g, ms, scaled, gw, gh)
}

/// First byte of the top-left pixel of the centred square of a `width` x
/// `height` image with `ch` bytes per pixel.
pub open spec fn center_origin(width: u32, height: u32, ch: int) -> int {
    let side = square_side(width as int, height as int);
    (((height - side) / 2) * width + (width - side) / 2) * ch
}

/// Each GIF frame keeps its decoded delay: the ratio of milliseconds rounded
/// down, however long, with 100 ms only for a zero or undefined delay.
pub proof fn lemma_gif_frame_delays(g: ProcessedGif, ms: Seq<FrameModel>, gw: u32, gh: u32, i: int)
    requires
        gif_result(g, ms, gw, gh),
        0 <= i < ms.len(),
    ensures
        ms[i].1 != 0 && ms[i].0 / ms[i].1 != 0 ==> g.frames@[i].delay_ms == ms[i].0 / ms[i].1,
        ms[i].1 == 0 || ms[i].0 / ms[i].1 == 0 ==> g.frames@[i].delay_ms == 100,
{
    let scaled = choose|sc: Seq<Seq<u8>>| gif_from_scaled(g, ms, sc, gw, gh);
    assert(g.frames@[i].delay_ms == frame_delay_ms(ms[i].0, ms[i].1));
}

/// Only the centred square of a GIF frame is shown: a frame whose centred
/// square is one colour becomes an LED frame of that colour throughout (its
/// alpha dropped), whatever lies outside the square, and if it is the first
/// frame the preview is that of a grid of that colour.
pub proof fn lemma_gif_uniform_square(g: ProcessedGif, ms: Seq<FrameModel>, gw: u32, gh: u32, i: int)
    requires
        gif_result(g, ms, gw, gh),
        0 <= i < ms.len(),
        ms[i].2 > 0,
        ms[i].3 > 0,
        uniform_on_center_square(ms[i].2, ms[i].3, PixelLayout::Rgba, canvas_of(ms[i])),
    ensures
        g.frames@[i].pixels@.len() == gw * gh * 3,
        forall|j: int|
            0 <= j < gw * gh * 3 ==> #[trigger] g.frames@[i].pixels@[j] == canvas_of(ms[i])[center_origin(
                ms[i].2,
                ms[i].3,
                4,
            ) + j % 3],
        i == 0 ==> g.preview_png_base64@ == frame_preview(
            Seq::new(
                (gw * gh * 4) as nat,
                |j: int| canvas_of(ms[0])[center_origin(ms[0].2, ms[0].3, 4) + j % 4],
            ),
            gw,
            gh,
        ),
{
    let scaled = choose|sc: Seq<Seq<u8>>| gif_from_scaled(g, ms, sc, gw, gh);
    let m = ms[i];
    let canvas = canvas_of(m);
    let o = center_origin(m.2, m.3, 4);
    let sq = center_square_of(m.2, m.3, PixelLayout::Rgba, canvas);
    lemma_uniform_center_square(m.2, m.3, PixelLayout::Rgba, canvas);
    assert(square_side(m.2 as int, m.3 as int) > 0);
    assert(keeps_uniform_square(ms[i], scaled[i]));
    let q = Seq::new(4, |c: int| canvas[o + c]);
    let s = scaled[i];
    assert(s.len() == gw * gh * 4);
    assert forall|k: int| 0 <= k < s.len() implies #[trigger] s[k] == q[k % 4] by {
        assert(s[k] == sq[k % 4]);
        assert(sq[k % 4] == canvas[o + k % 4]);
    }
    lemma_flipped_rgb_of_uniform(s, gw as int, gh as int, q);
    assert(g.frames@[i].pixels@ == led_pixels(s, gw));
    assert forall|j: int| 0 <= j < gw * gh * 3 implies #[trigger] g.frames@[i].pixels@[j]
        == canvas[o + j % 3] by {
        assert(g.frames@[i].pixels@[j] == q[j % 3]);
    }
    if i == 0 {
        assert(s =~= Seq::new((gw * gh * 4) as nat, |j: int| canvas[o + j % 4]));
    }
}

/// Prepares decoded GIF frames: each is cropped to its centered square,
/// resampled to the grid with the Lanczos filter, flipped to LED rows and
/// converted to RGB; the first also gives the preview. No frames is an error.
pub fn process_gif_frames(frames: Vec<GifFrameData>, grid_width: u8, grid_height: u8) -> (out: Result<ProcessedGif, UploadError>)
    requires
        frames_ok(frames@.map_values(|f: GifFrameData| frame_model(f))),
    ensures
        frames@.len() == 0 ==> out matches Err(UploadError::NoFrames),
        frames@.len() > 0 ==> (out matches Ok(g) && gif_result(
            g,
            frames@.map_values(|f: GifFrameData| frame_model(f)),
            grid_width as u32,
            grid_height as u32,
        )),
{
    let ghost ms = frames@.map_values(|f: GifFrameData| frame_model(f));
    let gw: u32 = grid_width as u32;
    let gh: u32 = grid_height as u32;
    assert(gw * gh * 4 <= 255 * 255 * 4) by (nonlinear_arith)
        requires
            gw <= 255,
            gh <= 255,
    ;
    let n = frames.len();
    let mut out: Vec<GifFrame> = Vec::new();
    let mut preview_png_base64 = String::new();
    let ghost mut scaled_all: Seq<Seq<u8>> = Seq::empty();
    let mut i: usize = 0;
    while i < n
        invariant
            n == frames@.len(),
            ms == frames@.map_values(|f: GifFrameData| frame_model(f)),
            frames_ok(ms),
            gw == grid_width,
            gh == grid_height,
            gw * gh * 4 <= 255 * 255 * 4,
            i <= n,
            out@.len() == i,
            scaled_all.len() == i,
            forall|k: int| 0 <= k < i ==> (#[trigger] scaled_all[k]).len() == gw * gh * 4,
            forall|k: int|
                0 <= k < i && square_fits_grid(ms[k], gw, gh) ==> #[trigger] scaled_all[k]
                    == center_square_of(ms[k].2, ms[k].3, PixelLayout::Rgba, canvas_of(ms[k])),
            forall|k: int| 0 <= k < i ==> #[trigger] keeps_uniform_square(ms[k], scaled_all[k]),
            forall|k: int|
                0 <= k < i ==> {
                    &&& (#[trigger] out@[k]).delay_ms == frame_delay_ms(ms[k].0, ms[k].1)
                    &&& out@[k].pixels@ == led_pixels(scaled_all[k], gw)
                    &&& out@[k].pixels@.len() == gw * gh * 3
                },
            i > 0 ==> preview_png_base64@ == frame_preview(scaled_all[0], gw, gh),
        decreases n - i,
    {
        let f = &frames[i];
        assert(frame_model(*f) == ms[i as int]);
        assert(f.width * f.height * 4 <= usize::MAX);
        let need: usize = f.width as usize * f.height as usize * 4;
        let mut data: Vec<u8> = Vec::new();
        let mut k: usize = 0;
        while k < need
            invariant
                need <= f.rgba@.len(),
                k <= need,
                data@ =~= f.rgba@.take(k as int),
            decreases need - k,
        {
            data.push(f.rgba[k]);
            k = k + 1;
        }
        let canvas = Raster { width: f.width, height: f.height, layout: PixelLayout::Rgba, data };
        assert(canvas.wf());
        let square = crop_center_square(&canvas);
        proof {
            lemma_center_square_unique(canvas, square);
            assert(canvas.data@ == canvas_of(ms[i as int]));
        }
        let scaled = resize_exact(&square, gw, gh, ResizeFilter::Lanczos3);
        if i == 0 {
            preview_png_base64 = scaled_frame_preview(&scaled);
        }
        let frame = led_frame(&scaled, f.delay_numer, f.delay_denom);
        let ghost old_out = out@;
        out.push(frame);
        proof {
            let old_scaled = scaled_all;
            scaled_all = scaled_all.push(scaled.data@);
            assert(scaled.data@.len() == gw * gh * 4) by (nonlinear_arith)
                requires
                    scaled.data@.len() == scaled.width * scaled.height * 4,
                    scaled.width == gw,
                    scaled.height == gh,
            ;
            assert(frame.pixels@.len() == gw * gh * 3) by (nonlinear_arith)
                requires
                    frame.pixels@.len() == scaled.width * scaled.height * 3,
                    scaled.width == gw,
                    scaled.height == gh,
            ;
            assert(scaled_all[i as int] == scaled.data@);
            assert forall|k: int| 0 <= k < i + 1 implies (#[trigger] scaled_all[k]).len() == gw * gh * 4 by {
                if k < i {
                    assert(scaled_all[k] == old_scaled[k]);
                }
            }
            assert(keeps_uniform_square(ms[i as int], scaled.data@));
            assert forall|k: int| 0 <= k < i + 1 implies #[trigger] keeps_uniform_square(
                ms[k],
                scaled_all[k],
            ) by {
                if k < i {
                    assert(scaled_all[k] == old_scaled[k]);
                }
            }
            assert forall|k: int|
                0 <= k < i + 1 && square_fits_grid(ms[k], gw, gh) implies #[trigger] scaled_all[k]
                == center_square_of(ms[k].2, ms[k].3, PixelLayout::Rgba, canvas_of(ms[k])) by {
                if k < i {
                    assert(scaled_all[k] == old_scaled[k]);
                }
            }
            assert forall|k: int| 0 <= k < i + 1 implies {
                &&& (#[trigger] out@[k]).delay_ms == frame_delay_ms(ms[k].0, ms[k].1)
                &&& out@[k].pixels@ == led_pixels(scaled_all[k], gw)
                &&& out@[k].pixels@.len() == gw * gh * 3
            } by {
                if k < i {
                    assert(out@[k] == old_out[k]);
                    assert(scaled_all[k] == old_scaled[k]);
                }
            }
        }
        i = i + 1;
    }
    if n == 0 {
        return Err(UploadError::NoFrames);
    }
    let g = ProcessedGif { frames: out, preview_png_base64 };
    assert(ms.len() == n);
    assert(gif_from_scaled(g, ms, scaled_all, gw, gh));
    Ok(g)
}

/// Prepares an animated GIF held in memory: decodes its frames, then
/// processes them as [`process_gif_frames`] does.
pub fn process_gif(bytes: Vec<u8>, grid_width: u8, grid_height: u8) -> (out: Result<ProcessedGif, UploadError>)
    ensures
        match gif_decoding(bytes@) {
            Err(GifStage::Header) => out matches Err(UploadError::DecodeGif(_)),
            Err(GifStage::Frames) => out matches Err(UploadError::ReadGifFrames(_)),
            Ok(ms) => if ms.len() == 0 {
                out matches Err(UploadError::NoFrames)
            } else {
                out matches Ok(g) && gif_result(g, ms, grid_width as u32, grid_height as u32)
            },
        },
{
    let frames = match decode_gif(bytes) {
        Ok(frames) => frames,
        Err(GifReadError::Decode(e)) => return Err(UploadError::DecodeGif(e)),
        Err(GifReadError::Frames(e)) => return Err(UploadError::ReadGifFrames(e)),
    };
    let ghost ms = frames@.map_values(|f: GifFrameData| frame_model(f));
    assert(frames_ok(ms));
    process_gif_frames(frames, grid_width, grid_height)
}

} // verus!
