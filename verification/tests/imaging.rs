use base64::Engine;
use image::codecs::gif::GifEncoder;
use image::{Delay, Frame, Rgba, RgbaImage};
use pulsebox::imaging::{bin_average, crop_center_square, flip_vertical, PixelLayout, Raster};
use pulsebox::imaging::GifFrameData;
use pulsebox::upload::{frame_delay, process_gif, process_gif_frames, process_image, process_image_bytes, UploadError};

fn rgb(width: u32, height: u32, f: impl Fn(u32, u32) -> [u8; 3]) -> Raster {
    let mut data = Vec::new();
    for y in 0..height {
        for x in 0..width {
            data.extend_from_slice(&f(x, y));
        }
    }
    Raster { width, height, layout: PixelLayout::Rgb, data }
}

#[test]
fn crop_takes_the_centered_square() {
    let img = rgb(4, 2, |x, y| [x as u8, y as u8, 0]);
    let sq = crop_center_square(&img);
    assert_eq!((sq.width, sq.height), (2, 2));
    assert_eq!(sq.data, vec![1, 0, 0, 2, 0, 0, 1, 1, 0, 2, 1, 0]);
    let tall = rgb(1, 3, |_, y| [y as u8, 0, 0]);
    let sq = crop_center_square(&tall);
    assert_eq!(sq.data, vec![1, 0, 0]);
    let empty = rgb(0, 5, |_, _| [0, 0, 0]);
    assert_eq!(crop_center_square(&empty).data, Vec::<u8>::new());
}

#[test]
fn flip_reverses_rows_and_undoes_itself() {
    let img = rgb(2, 3, |x, y| [x as u8, y as u8, 9]);
    let once = flip_vertical(&img);
    assert_eq!(&once.data[0..6], &[0, 2, 9, 1, 2, 9]);
    assert_eq!(&once.data[12..18], &[0, 0, 9, 1, 0, 9]);
    let twice = flip_vertical(&once);
    assert_eq!(twice.data, img.data);
}

#[test]
fn bin_average_means_and_bottom_row_first() {
    // 2x2 square: top row red values 10, 30; bottom row 50, 70.
    let img = rgb(2, 2, |x, y| [10 + 20 * x as u8 + 40 * y as u8, 1, 2]);
    assert_eq!(bin_average(&img, 1, 1), vec![40, 1, 2]);
    // LED row 0 comes from the bottom of the image.
    assert_eq!(bin_average(&img, 2, 2), vec![50, 1, 2, 70, 1, 2, 10, 1, 2, 30, 1, 2]);
    // More cells than pixels: empty bins stay black.
    let one = rgb(1, 1, |_, _| [200, 100, 50]);
    assert_eq!(bin_average(&one, 2, 1), vec![0, 0, 0, 200, 100, 50]);
    assert_eq!(bin_average(&one, 0, 3), Vec::<u8>::new());
}

#[test]
fn rounding_of_means_is_down() {
    let img = rgb(2, 1, |x, _| [x as u8, 0, 255]);
    let sq = crop_center_square(&img);
    assert_eq!(bin_average(&sq, 1, 1), vec![0, 0, 255]);
}

#[test]
fn image_upload_pixels_and_preview() {
    let img = rgb(6, 4, |x, y| [(x * 40) as u8, (y * 60) as u8, 7]);
    let out = process_image(&img, 2, 2).unwrap();
    // Centered square is columns 1..5; bins are 2x2 pixels.
    assert_eq!(out.pixels, vec![60, 150, 7, 140, 150, 7, 60, 30, 7, 140, 30, 7]);
    let png = base64::engine::general_purpose::STANDARD.decode(&out.preview_png_base64).unwrap();
    assert_eq!(&png[..8], b"\x89PNG\r\n\x1a\n");
    let decoded = image::load_from_memory(&png).unwrap().to_rgb8();
    assert_eq!(decoded.dimensions(), (128, 128));
    // Screen orientation: top-left of the preview is the image's top-left bin.
    assert_eq!(decoded.get_pixel(0, 0).0, [60, 30, 7]);
    assert_eq!(decoded.get_pixel(127, 127).0, [140, 150, 7]);
}

#[test]
fn gif_delays() {
    assert_eq!(frame_delay(0, 0), 100);
    assert_eq!(frame_delay(50, 0), 100);
    assert_eq!(frame_delay(0, 1), 100);
    assert_eq!(frame_delay(50, 1), 50);
    assert_eq!(frame_delay(7, 2), 3);
}

#[test]
fn gif_without_frames_is_rejected() {
    let e = process_gif_frames(Vec::new(), 4, 4).err().unwrap();
    assert!(matches!(e, UploadError::NoFrames));
    assert_eq!(e.message(), "GIF contains no frames");
}

#[test]
fn gif_garbage_is_rejected() {
    let e = process_gif(b"not a gif".to_vec(), 4, 4).err().unwrap();
    assert!(matches!(e, UploadError::DecodeGif(_)));
    assert!(e.message().starts_with("Failed to decode GIF: "));
}

fn encode_gif(frames: Vec<(u8, u32)>) -> Vec<u8> {
    let mut bytes = Vec::new();
    {
        let mut enc = GifEncoder::new(&mut bytes);
        for (shade, ms) in frames {
            let buf = RgbaImage::from_fn(6, 4, |_, y| {
                if y < 2 {
                    Rgba([shade, 0, 0, 255])
                } else {
                    Rgba([0, 0, shade, 255])
                }
            });
            enc.encode_frame(Frame::from_parts(buf, 0, 0, Delay::from_numer_denom_ms(ms, 1)))
                .unwrap();
        }
    }
    bytes
}

#[test]
fn gif_upload_frames() {
    let bytes = encode_gif(vec![(255, 50), (128, 0)]);
    let g = process_gif(bytes, 2, 2).unwrap();
    assert_eq!(g.frames.len(), 2);
    assert_eq!(g.frames[0].delay_ms, 50);
    assert_eq!(g.frames[1].delay_ms, 100);
    for f in &g.frames {
        assert_eq!(f.pixels.len(), 2 * 2 * 3);
    }
    // LED row 0 is the bottom of the frame: the blue half.
    let p = &g.frames[0].pixels;
    assert!(p[2] > p[0]);
    assert!(p[6] > p[8]);
    let png = base64::engine::general_purpose::STANDARD.decode(&g.preview_png_base64).unwrap();
    assert_eq!(&png[..8], b"\x89PNG\r\n\x1a\n");
}

#[test]
fn gif_with_broken_frames_is_rejected() {
    let bytes = encode_gif(vec![(255, 50), (128, 20)]);
    let cut = bytes[..bytes.len() - 10].to_vec();
    let e = process_gif(cut, 4, 4).err().unwrap();
    assert!(matches!(e, UploadError::ReadGifFrames(_)));
    assert!(e.message().starts_with("Failed to read GIF frames: "));
}

fn png_bytes(width: u32, height: u32, pixels: Vec<u8>) -> Vec<u8> {
    let img = image::RgbImage::from_raw(width, height, pixels).unwrap();
    let mut out = Vec::new();
    image::DynamicImage::ImageRgb8(img)
        .write_to(&mut std::io::Cursor::new(&mut out), image::ImageFormat::Png)
        .unwrap();
    out
}

#[test]
fn image_file_bottom_row_goes_first() {
    let png = png_bytes(2, 2, vec![255, 0, 0, 255, 0, 0, 0, 0, 255, 0, 0, 255]);
    let out = process_image_bytes(&png, "png", 1, 2).unwrap();
    assert_eq!(out.pixels, vec![0, 0, 255, 255, 0, 0]);
}

#[test]
fn image_file_smaller_than_grid() {
    let png = png_bytes(1, 1, vec![10, 20, 30]);
    let out = process_image_bytes(&png, "png", 2, 2).unwrap();
    assert_eq!(out.pixels, vec![0, 0, 0, 10, 20, 30, 0, 0, 0, 0, 0, 0]);
}

#[test]
fn image_file_outside_the_square_is_ignored() {
    let a = png_bytes(3, 1, vec![1, 1, 1, 50, 60, 70, 2, 2, 2]);
    let b = png_bytes(3, 1, vec![9, 9, 9, 50, 60, 70, 8, 8, 8]);
    let ra = process_image_bytes(&a, "png", 1, 1).unwrap();
    let rb = process_image_bytes(&b, "png", 1, 1).unwrap();
    assert_eq!(ra.pixels, vec![50, 60, 70]);
    assert_eq!(ra.pixels, rb.pixels);
    assert_eq!(ra.preview_png_base64, rb.preview_png_base64);
}

#[test]
fn image_file_that_does_not_decode() {
    let e = process_image_bytes(b"not an image", "png", 4, 4).err().unwrap();
    assert!(matches!(e, UploadError::OpenImage(_)));
    assert!(e.message().starts_with("Failed to open image: "));
    let png = png_bytes(1, 1, vec![1, 2, 3]);
    assert!(matches!(process_image_bytes(&png, "", 4, 4).err().unwrap(), UploadError::OpenImage(_)));
}

#[test]
fn preview_is_standard_base64() {
    let img = rgb(1, 1, |_, _| [1, 2, 3]);
    let out = process_image(&img, 1, 1).unwrap();
    let png = base64::engine::general_purpose::STANDARD.decode(&out.preview_png_base64).unwrap();
    assert_eq!(base64::engine::general_purpose::STANDARD.encode(&png), out.preview_png_base64);
    assert_eq!(out.preview_png_base64.len() % 4, 0);
    assert_eq!(UploadError::ImageTooLarge.message(), "Image too large for the grid");
}

#[test]
fn gif_frames_keep_rgb_and_drop_alpha() {
    let frame = GifFrameData { delay_numer: 30, delay_denom: 1, width: 2, height: 2, rgba: vec![7; 16] };
    let g = process_gif_frames(vec![frame], 2, 2).ok().unwrap();
    assert_eq!(g.frames.len(), 1);
    assert_eq!(g.frames[0].delay_ms, 30);
    assert_eq!(g.frames[0].pixels, vec![7; 12]);
}

#[test]
fn gif_frame_square_of_grid_size_is_copied() {
    let mut rgba = Vec::new();
    for y in 0..2u8 {
        for x in 0..4u8 {
            rgba.extend_from_slice(&[x * 10, y * 10 + 1, 5, 255]);
        }
    }
    let frame = GifFrameData { delay_numer: 0, delay_denom: 0, width: 4, height: 2, rgba };
    let g = process_gif_frames(vec![frame], 2, 2).ok().unwrap();
    assert_eq!(g.frames[0].delay_ms, 100);
    assert_eq!(g.frames[0].pixels, vec![10, 11, 5, 20, 11, 5, 10, 1, 5, 20, 1, 5]);
}

#[test]
fn image_agreeing_on_center_square_gives_same_upload() {
    let a = rgb(5, 3, |x, y| if (1..4).contains(&x) { [x as u8 * 30, y as u8 * 40, 9] } else { [0, 0, 0] });
    let b = rgb(5, 3, |x, y| if (1..4).contains(&x) { [x as u8 * 30, y as u8 * 40, 9] } else { [255, 1, 2] });
    let ra = process_image(&a, 3, 3).unwrap();
    let rb = process_image(&b, 3, 3).unwrap();
    assert_eq!(ra.pixels, rb.pixels);
    assert_eq!(ra.preview_png_base64, rb.preview_png_base64);
    assert_eq!(&ra.pixels[0..3], &[30, 80, 9]);
}
