//! Pixel work for uploads to the LED grid: center-cropping to a square,
//! bin-averaging down to the grid, and flipping between screen rows (row 0 at
//! the top) and LED rows (row 0 at the bottom).
use vstd::prelude::*;

verus! {

/// How the channels of a pixel are laid out.
#[derive(Debug, Clone, Copy, PartialEq, Eq, Structural)]
pub enum PixelLayout {
    Rgb,
    Rgba,
}

/// Bytes per pixel of a layout.
pub open spec fn channels_of(layout: PixelLayout) -> nat {
    match layout {
        PixelLayout::Rgb => 3,
        PixelLayout::Rgba => 4,
    }
}

/// Bytes per pixel of a layout.
pub fn channel_count(layout: PixelLayout) -> (out: usize)
    ensures
        out == channels_of(layout),
{
    match layout {
        PixelLayout::Rgb => 3,
        PixelLayout::Rgba => 4,
    }
}

/// An 8-bit image, row-major, each row `width` pixels of the layout's
/// channels.
#[derive(Debug, Clone)]
pub struct Raster {
    pub width: u32,
    pub height: u32,
    pub layout: PixelLayout,
    pub data: Vec<u8>,
}

/// Bytes in one row of a raster.
pub open spec fn row_len(r: Raster) -> int {
    r.width * channels_of(r.layout)
}

impl Raster {
    /// Well-formed: the data holds exactly `height` rows.
    pub open spec fn wf(&self) -> bool {
        self.data@.len() == self.width * self.height * channels_of(self.layout)
    }
}

proof fn lemma_row_bounds(y: int, h: int, l: int, j: int)
    requires
        0 <= y < h,
        0 <= j < l,
    ensures
        0 <= y * l + j < h * l,
        y * l + l <= h * l,
        0 <= y * l,
{
    assert(0 <= y * l + j < h * l) by (nonlinear_arith)
        requires
            0 <= y < h,
            0 <= j < l,
    ;
    assert(y * l + l <= h * l) by (nonlinear_arith)
        requires
            0 <= y < h,
            0 <= j < l,
    ;
    assert(0 <= y * l) by (nonlinear_arith)
        requires
            0 <= y,
            0 <= l,
    ;
}

proof fn lemma_earlier_row(y1: int, y: int, l: int, j: int)
    requires
        0 <= y1 < y,
        0 <= j < l,
    ensures
        y1 * l + j < y * l,
        0 <= y1 * l + j,
{
    assert(y1 * l + j < y * l) by (nonlinear_arith)
        requires
            0 <= y1 < y,
            0 <= j < l,
    ;
    assert(0 <= y1 * l) by (nonlinear_arith)
        requires
            0 <= y1,
            0 <= l,
    ;
}

proof fn lemma_mul3(a: int, b: int, c: int)
    ensures
        a * b * c == a * (b * c),
        a * b * c == b * (a * c),
{
    assert(a * b * c == a * (b * c)) by (nonlinear_arith);
    assert(a * b * c == b * (a * c)) by (nonlinear_arith);
}

/// Appends `len` bytes of `data` starting at `from`.
fn append_range(out: &mut Vec<u8>, data: &[u8], from: usize, len: usize)
    requires
        from + len <= data@.len(),
    ensures
        final(out)@ == old(out)@ + data@.subrange(from as int, from + len),
{
    let mut i: usize = 0;
    while i < len
        invariant
            from + len <= data.len(),
            i <= len,
            out@ == old(out)@ + data@.subrange(from as int, from + i),
        decreases len - i,
    {
        out.push(data[from + i]);
        i = i + 1;
        assert(out@ =~= old(out)@ + data@.subrange(from as int, from + i));
    }
}

/// Side of the largest centered square.
pub open spec fn square_side(w: int, h: int) -> int {
    if w <= h {
        w
    } else {
        h
    }
}

/// The centered square of an image: its side is the smaller dimension, and
/// its row `y` is row `(h - side) / 2 + y` of the image from column
/// `(w - side) / 2` on.
pub open spec fn is_center_square(img: Raster, out: Raster) -> bool {
    let side = square_side(img.width as int, img.height as int);
    let x0 = (img.width - side) / 2;
    let y0 = (img.height - side) / 2;
    let ch = channels_of(img.layout) as int;
    &&& out.width == side
    &&& out.height == side
    &&& out.layout == img.layout
    &&& out.wf()
    &&& forall|y: int, j: int|
        0 <= y < side && 0 <= j < side * ch ==> #[trigger] out.data@[y * (side * ch) + j]
            == img.data@[(y0 + y) * (img.width * ch) + x0 * ch + j]
}

/// Crops an image to its centered square.
pub fn crop_center_square(img: &Raster) -> (out: Raster)
    requires
        img.wf(),
    ensures
        is_center_square(*img, out),
{
    let w = img.width;
    let h = img.height;
    let side: u32 = if w <= h { w } else { h };
    let x0: u32 = (w - side) / 2;
    let y0: u32 = (h - side) / 2;
    let ch = channel_count(img.layout);
    if side == 0 {
        let out = Raster { width: 0, height: 0, layout: img.layout, data: Vec::new() };
        assert(out.data@.len() == 0 * 0 * channels_of(img.layout));
        return out;
    }
    let ghost chi = ch as int;
    let ghost wi = w as int;
    let ghost hi = h as int;
    let ghost si = side as int;
    proof {
        lemma_mul3(wi, hi, chi);
        assert(si * chi <= wi * chi) by (nonlinear_arith)
            requires
                0 <= si <= wi,
                0 <= chi,
        ;
        assert(wi * chi <= img.data@.len()) by (nonlinear_arith)
            requires
                img.data@.len() == hi * (wi * chi),
                hi >= 1,
                0 <= wi,
                0 <= chi,
        ;
    }
    let dlen = img.data.len();
    assert(wi * chi <= dlen);
    assert(si * chi <= dlen);
    let out_row: usize = side as usize * ch;
    let src_row: usize = w as usize * ch;
    let mut data: Vec<u8> = Vec::new();
    let mut y: u32 = 0;
    while y < side
        invariant
            img.wf(),
            w == img.width,
            h == img.height,
            ch == channels_of(img.layout),
            side == square_side(w as int, h as int),
            x0 == (w - side) / 2,
            y0 == (h - side) / 2,
            out_row == side * ch,
            src_row == w * ch,
            img.data@.len() == h * src_row,
            y <= side,
            data@.len() == y * out_row,
            forall|yy: int, j: int|
                0 <= yy < y && 0 <= j < out_row ==> #[trigger] data@[yy * out_row + j]
                    == img.data@[(y0 + yy) * src_row + x0 * ch + j],
        decreases side - y,
    {
        let sy: usize = (y0 + y) as usize;
        proof {
            assert(0 <= x0 * ch + out_row <= src_row) by (nonlinear_arith)
                requires
                    out_row == side * ch,
                    src_row == w * ch,
                    2 * x0 <= w - side,
                    0 <= x0,
                    0 <= side <= w,
                    0 <= ch,
            ;
            lemma_row_bounds(sy as int, h as int, src_row as int, 0);
            lemma_row_bounds(y as int, side as int, out_row as int, 0);
            assert(sy * src_row + x0 * ch + out_row <= img.data@.len());
            assert(img.data@.len() == img.data.len());
        }
        let from: usize = sy * src_row + x0 as usize * ch;
        let ghost before = data@;
        append_range(&mut data, img.data.as_slice(), from, out_row);
        proof {
            assert forall|yy: int, j: int|
                0 <= yy < y + 1 && 0 <= j < out_row implies #[trigger] data@[yy * out_row + j]
                == img.data@[(y0 + yy) * src_row + x0 * ch + j] by {
                if yy < y {
                    lemma_earlier_row(yy, y as int, out_row as int, j);
                } else {
                    assert(data@[yy * out_row + j] == data@[before.len() + j]);
                }
            }
            assert((y + 1) * out_row == y * out_row + out_row) by (nonlinear_arith);
        }
        y = y + 1;
    }
    proof {
        assert(data@.len() == si * si * chi) by (nonlinear_arith)
            requires
                data@.len() == si * (si * chi),
        ;
    }
    Raster { width: side, height: side, layout: img.layout, data }
}

/// `out` is `img` upside down: same size and layout, its row `y` is row
/// `height - 1 - y` of `img`.
pub open spec fn is_vertical_flip(img: Raster, out: Raster) -> bool {
    let l = row_len(img);
    &&& out.width == img.width
    &&& out.height == img.height
    &&& out.layout == img.layout
    &&& out.wf()
    &&& forall|y: int, j: int|
        0 <= y < img.height && 0 <= j < l ==> #[trigger] out.data@[y * l + j]
            == img.data@[(img.height - 1 - y) * l + j]
}

/// Flips an image upside down, turning screen rows (row 0 at the top) into
/// LED rows (row 0 at the bottom) and back.
pub fn flip_vertical(img: &Raster) -> (out: Raster)
    requires
        img.wf(),
    ensures
        is_vertical_flip(*img, out),
{
    let w = img.width;
    let h = img.height;
    let ch = channel_count(img.layout);
    if w == 0 || h == 0 {
        let out = Raster { width: w, height: h, layout: img.layout, data: Vec::new() };
        proof {
            assert(w * h * ch == 0) by (nonlinear_arith)
                requires
                    w == 0 || h == 0,
            ;
        }
        return out;
    }
    let ghost chi = ch as int;
    let ghost wi = w as int;
    let ghost hi = h as int;
    let dlen = img.data.len();
    proof {
        lemma_mul3(wi, hi, chi);
        assert(wi * chi <= dlen) by (nonlinear_arith)
            requires
                dlen == hi * (wi * chi),
                hi >= 1,
                0 <= wi,
                0 <= chi,
        ;
    }
    let l: usize = w as usize * ch;
    assert(l > 0) by (nonlinear_arith)
        requires
            l == wi * chi,
            wi >= 1,
            chi >= 3,
    ;
    let mut data: Vec<u8> = Vec::new();
    let mut y: u32 = 0;
    while y < h
        invariant
            l > 0,
            img.wf(),
            w == img.width,
            h == img.height,
            h >= 1,
            ch == channels_of(img.layout),
            l == w * ch,
            l == row_len(*img),
            img.data@.len() == h * l,
            dlen == img.data@.len(),
            y <= h,
            data@.len() == y * l,
            forall|yy: int, j: int|
                0 <= yy < y && 0 <= j < l ==> #[trigger] data@[yy * l + j] == img.data@[(h - 1
                    - yy) * l + j],
        decreases h - y,
    {
        let sy: usize = (h - 1 - y) as usize;
        proof {
            lemma_row_bounds(sy as int, h as int, l as int, 0);
            lemma_row_bounds(y as int, h as int, l as int, 0);
        }
        let from: usize = sy * l;
        let ghost before = data@;
        append_range(&mut data, img.data.as_slice(), from, l);
        proof {
            assert forall|yy: int, j: int|
                0 <= yy < y + 1 && 0 <= j < l implies #[trigger] data@[yy * l + j]
                == img.data@[(h - 1 - yy) * l + j] by {
                if yy < y {
                    lemma_earlier_row(yy, y as int, l as int, j);
                } else {
                    assert(data@[yy * l + j] == data@[before.len() + j]);
                }
            }
            assert((y + 1) * l == y * l + l) by (nonlinear_arith);
        }
        y = y + 1;
    }
    proof {
        assert(data@.len() == wi * hi * chi) by (nonlinear_arith)
            requires
                data@.len() == hi * (wi * chi),
        ;
    }
    Raster { width: w, height: h, layout: img.layout, data }
}

/// Flipping twice gives back the image: the LED grid's rows turned back into
/// screen rows are the rows the image started with.
pub proof fn lemma_flip_involution(img: Raster, once: Raster, twice: Raster)
    requires
        img.wf(),
        is_vertical_flip(img, once),
        is_vertical_flip(once, twice),
    ensures
        twice.width == img.width,
        twice.height == img.height,
        twice.layout == img.layout,
        twice.data@ == img.data@,
{
    let l = row_len(img);
    let h = img.height as int;
    assert(l >= 0);
    assert(row_len(once) == l);
    assert(twice.data@.len() == img.data@.len());
    assert forall|i: int| 0 <= i < img.data@.len() implies twice.data@[i] == img.data@[i] by {
        lemma_mul3(img.width as int, h, channels_of(img.layout) as int);
        let y = i / l;
        let j = i % l;
        assert(l > 0) by (nonlinear_arith)
            requires
                0 <= i < h * l,
                l >= 0,
        ;
        assert(i == y * l + j && 0 <= j < l) by (nonlinear_arith)
            requires
                l > 0,
                y == i / l,
                j == i % l,
        ;
        assert(0 <= y < h) by (nonlinear_arith)
            requires
                l > 0,
                0 <= i < h * l,
                i == y * l + j,
                0 <= j < l,
        ;
        assert(twice.data@[y * l + j] == once.data@[(h - 1 - y) * l + j]);
        assert(once.data@[(h - 1 - y) * l + j] == img.data@[(h - 1 - (h - 1 - y)) * l + j]);
    }
    assert(twice.data@ =~= img.data@);
}

/// Channel `c` of pixel (x, y) of square RGB data of side `s`.
pub open spec fn px(d: Seq<u8>, s: int, x: int, y: int, c: int) -> int {
    d[(y * s + x) * 3 + c] as int
}

/// Sum of channel `c` over columns `x0 .. x1` of row `y`.
pub open spec fn row_sum(d: Seq<u8>, s: int, y: int, x0: int, x1: int, c: int) -> int
    decreases x1 - x0,
{
    if x1 <= x0 {
        0
    } else {
        row_sum(d, s, y, x0, x1 - 1, c) + px(d, s, x1 - 1, y, c)
    }
}

/// Sum of channel `c` over columns `x0 .. x1` of rows `y0 .. y1`.
pub open spec fn rect_sum(d: Seq<u8>, s: int, x0: int, x1: int, y0: int, y1: int, c: int) -> int
    decreases y1 - y0,
{
    if y1 <= y0 {
        0
    } else {
        rect_sum(d, s, x0, x1, y0, y1 - 1, c) + row_sum(d, s, y1 - 1, x0, x1, c)
    }
}

/// First source index of bin `i` when `n` samples are split into `g` bins.
pub open spec fn bin_start(i: int, n: int, g: int) -> int {
    i * n / g
}

/// End (exclusive) of bin `i` when `n` samples are split into `g` bins.
pub open spec fn bin_end(i: int, n: int, g: int) -> int {
    let e = (i + 1) * n / g;
    if e <= n {
        e
    } else {
        n
    }
}

/// Mean of channel `c` over a rectangle, rounded down; 0 for an empty one.
pub open spec fn rect_mean(d: Seq<u8>, s: int, x0: int, x1: int, y0: int, y1: int, c: int) -> u8 {
    let n = (x1 - x0) * (y1 - y0);
    if n <= 0 {
        0
    } else {
        (rect_sum(d, s, x0, x1, y0, y1, c) / n) as u8
    }
}

/// Channel `c` of LED cell (gx, gy) of a `gw` x `gh` grid taken from square
/// RGB data of side `s`: the mean of the source bin, with LED row 0 taken
/// from the bottom of the image.
pub open spec fn cell_value(d: Seq<u8>, s: int, gw: int, gh: int, gx: int, gy: int, c: int) -> u8 {
    let sy = gh - 1 - gy;
    rect_mean(d, s, bin_start(gx, s, gw), bin_end(gx, s, gw), bin_start(sy, s, gh), bin_end(sy, s, gh), c)
}

proof fn lemma_row_sum_bound(d: Seq<u8>, s: int, y: int, x0: int, x1: int, c: int)
    requires
        x0 <= x1,
    ensures
        0 <= row_sum(d, s, y, x0, x1, c) <= 255 * (x1 - x0),
    decreases x1 - x0,
{
    if x1 > x0 {
        lemma_row_sum_bound(d, s, y, x0, x1 - 1, c);
    }
}

proof fn lemma_rect_sum_bound(d: Seq<u8>, s: int, x0: int, x1: int, y0: int, y1: int, c: int)
    requires
        x0 <= x1,
        y0 <= y1,
    ensures
        0 <= rect_sum(d, s, x0, x1, y0, y1, c) <= 255 * ((x1 - x0) * (y1 - y0)),
    decreases y1 - y0,
{
    if y1 > y0 {
        lemma_rect_sum_bound(d, s, x0, x1, y0, y1 - 1, c);
        lemma_row_sum_bound(d, s, y1 - 1, x0, x1, c);
        assert((x1 - x0) * (y1 - y0) == (x1 - x0) * (y1 - 1 - y0) + (x1 - x0)) by (nonlinear_arith);
    }
}

proof fn lemma_pixel_index(s: int, x: int, y: int, c: int)
    requires
        0 <= x < s,
        0 <= y < s,
        0 <= c < 3,
    ensures
        0 <= (y * s + x) * 3 + c < s * s * 3,
{
    assert(0 <= (y * s + x) * 3 + c < s * s * 3) by (nonlinear_arith)
        requires
            0 <= x < s,
            0 <= y < s,
            0 <= c < 3,
    ;
}

/// Per-channel means of a rectangle of square RGB data.
fn rect_means(d: &[u8], s: usize, x0: usize, x1: usize, y0: usize, y1: usize) -> (out: (u8, u8, u8))
    requires
        x0 <= x1 <= s,
        y0 <= y1 <= s,
        d@.len() == s * s * 3,
        255 * (s * s) <= u64::MAX,
    ensures
        out.0 == rect_mean(d@, s as int, x0 as int, x1 as int, y0 as int, y1 as int, 0),
        out.1 == rect_mean(d@, s as int, x0 as int, x1 as int, y0 as int, y1 as int, 1),
        out.2 == rect_mean(d@, s as int, x0 as int, x1 as int, y0 as int, y1 as int, 2),
{
    let ghost dd = d@;
    let ghost si = s as int;
    let ghost w = (x1 - x0) as int;
    proof {
        assert(w * ((y1 - y0) as int) <= si * si) by (nonlinear_arith)
            requires
                0 <= w <= si,
                0 <= y1 - y0 <= si,
        ;
    }
    let dlen = d.len();
    let mut r: u64 = 0;
    let mut g: u64 = 0;
    let mut b: u64 = 0;
    let mut count: u64 = 0;
    let mut sy: usize = y0;
    while sy < y1
        invariant
            x0 <= x1 <= s,
            y0 <= sy <= y1 <= s,
            dd == d@,
            si == s,
            w == x1 - x0,
            d@.len() == s * s * 3,
            255 * (s * s) <= u64::MAX,
            w * (y1 - y0) <= si * si,
            dlen == d@.len(),
            count == w * (sy - y0),
            r == rect_sum(dd, si, x0 as int, x1 as int, y0 as int, sy as int, 0),
            g == rect_sum(dd, si, x0 as int, x1 as int, y0 as int, sy as int, 1),
            b == rect_sum(dd, si, x0 as int, x1 as int, y0 as int, sy as int, 2),
        decreases y1 - sy,
    {
        proof {
            assert(w * (sy + 1 - y0) <= w * (y1 - y0)) by (nonlinear_arith)
                requires
                    0 <= w,
                    sy + 1 <= y1,
            ;
            assert(w * (sy + 1 - y0) == w * (sy - y0) + w) by (nonlinear_arith);
            lemma_rect_sum_bound(dd, si, x0 as int, x1 as int, y0 as int, sy + 1, 0);
            lemma_rect_sum_bound(dd, si, x0 as int, x1 as int, y0 as int, sy + 1, 1);
            lemma_rect_sum_bound(dd, si, x0 as int, x1 as int, y0 as int, sy + 1, 2);
        }
        let ghost r0 = r;
        let ghost g0 = g;
        let ghost b0 = b;
        let ghost c0 = count;
        let mut sx: usize = x0;
        while sx < x1
            invariant
                x0 <= sx <= x1 <= s,
                y0 <= sy < y1 <= s,
                dd == d@,
                si == s,
                d@.len() == s * s * 3,
                255 * (s * s) <= u64::MAX,
                c0 + w <= si * si,
                dlen == d@.len(),
                count == c0 + (sx - x0),
                r == r0 + row_sum(dd, si, sy as int, x0 as int, sx as int, 0),
                g == g0 + row_sum(dd, si, sy as int, x0 as int, sx as int, 1),
                b == b0 + row_sum(dd, si, sy as int, x0 as int, sx as int, 2),
                r0 + row_sum(dd, si, sy as int, x0 as int, x1 as int, 0) <= 255 * (si * si),
                g0 + row_sum(dd, si, sy as int, x0 as int, x1 as int, 1) <= 255 * (si * si),
                b0 + row_sum(dd, si, sy as int, x0 as int, x1 as int, 2) <= 255 * (si * si),
                w == x1 - x0,
            decreases x1 - sx,
        {
            proof {
                lemma_pixel_index(si, sx as int, sy as int, 0);
                lemma_pixel_index(si, sx as int, sy as int, 2);
                lemma_row_sum_bound(dd, si, sy as int, sx + 1, x1 as int, 0);
                lemma_row_sum_bound(dd, si, sy as int, sx + 1, x1 as int, 1);
                lemma_row_sum_bound(dd, si, sy as int, sx + 1, x1 as int, 2);
                lemma_row_sum_split(dd, si, sy as int, x0 as int, sx + 1, x1 as int, 0);
                lemma_row_sum_split(dd, si, sy as int, x0 as int, sx + 1, x1 as int, 1);
                lemma_row_sum_split(dd, si, sy as int, x0 as int, sx + 1, x1 as int, 2);
            }
            assert(sy * s <= (sy * s + sx) * 3 < dlen) by (nonlinear_arith)
                requires
                    0 <= sx,
                    0 <= sy,
                    0 <= s,
                    (sy * s + sx) * 3 < dlen,
            ;
            let base: usize = (sy * s + sx) * 3;
            r = r + d[base] as u64;
            g = g + d[base + 1] as u64;
            b = b + d[base + 2] as u64;
            count = count + 1;
            sx = sx + 1;
        }
        sy = sy + 1;
    }
    proof {
        lemma_rect_sum_bound(dd, si, x0 as int, x1 as int, y0 as int, y1 as int, 0);
        lemma_rect_sum_bound(dd, si, x0 as int, x1 as int, y0 as int, y1 as int, 1);
        lemma_rect_sum_bound(dd, si, x0 as int, x1 as int, y0 as int, y1 as int, 2);
    }
    if count > 0 {
        proof {
            lemma_mean_fits(r as int, count as int);
            lemma_mean_fits(g as int, count as int);
            lemma_mean_fits(b as int, count as int);
        }
        ((r / count) as u8, (g / count) as u8, (b / count) as u8)
    } else {
        (0, 0, 0)
    }
}

proof fn lemma_row_sum_split(d: Seq<u8>, s: int, y: int, x0: int, m: int, x1: int, c: int)
    requires
        x0 <= m <= x1,
    ensures
        row_sum(d, s, y, x0, x1, c) == row_sum(d, s, y, x0, m, c) + row_sum(d, s, y, m, x1, c),
    decreases x1 - m,
{
    if x1 > m {
        lemma_row_sum_split(d, s, y, x0, m, x1 - 1, c);
    }
}

proof fn lemma_mean_fits(sum: int, n: int)
    requires
        n > 0,
        0 <= sum <= 255 * n,
    ensures
        0 <= sum / n <= 255,
{
    assert(0 <= sum / n <= 255) by (nonlinear_arith)
        requires
            n > 0,
            0 <= sum <= 255 * n,
    ;
}

proof fn lemma_cell_index(gy1: int, gx1: int, gy: int, gx: int, gw: int, c: int)
    requires
        0 <= gx1 < gw,
        0 <= gx <= gw,
        0 <= gy1,
        0 <= c < 3,
        gy1 < gy || (gy1 == gy && gx1 < gx),
    ensures
        0 <= gy1 * (gw * 3) + gx1 * 3 + c < (gy * gw + gx) * 3,
{
    assert(0 <= gy1 * (gw * 3) + gx1 * 3 + c < (gy * gw + gx) * 3) by (nonlinear_arith)
        requires
            0 <= gx1 < gw,
            0 <= gx <= gw,
            0 <= gy1,
            0 <= c < 3,
            gy1 < gy || (gy1 == gy && gx1 < gx),
    ;
}

proof fn lemma_bin_bounds(i: int, n: int, g: int)
    requires
        0 <= i < g,
        0 <= n,
    ensures
        0 <= bin_start(i, n, g) <= bin_end(i, n, g) <= n,
        i * n <= g * n,
        (i + 1) * n <= g * n,
{
    assert(i * n <= g * n && (i + 1) * n <= g * n) by (nonlinear_arith)
        requires
            0 <= i < g,
            0 <= n,
    ;
    assert(0 <= i * n / g <= (i + 1) * n / g) by (nonlinear_arith)
        requires
            0 <= i < g,
            0 <= n,
    ;
    assert(i * n / g <= n) by (nonlinear_arith)
        requires
            0 <= i < g,
            0 <= n,
    ;
}

/// `out` is the LED grid of `gw` x `gh` cells taken from square RGB data of
/// side `s`: three bytes per cell, LED rows in order, each cell the mean of
/// its bin of the image.
pub open spec fn is_led_grid(d: Seq<u8>, s: int, gw: int, gh: int, out: Seq<u8>) -> bool {
    &&& out.len() == gw * gh * 3
    &&& forall|gx: int, gy: int, c: int|
        0 <= gx < gw && 0 <= gy < gh && 0 <= c < 3 ==> #[trigger] out[gy * (gw * 3) + gx * 3 + c]
            == cell_value(d, s, gw, gh, gx, gy, c)
}

/// Bin-averages a square RGB image down to a `grid_width` x `grid_height`
/// LED grid. The image is cut into `grid_width` columns and `grid_height`
/// rows of bins at `i * side / cells`; LED row 0 is the bottom row of bins.
pub fn bin_average(img: &Raster, grid_width: u8, grid_height: u8) -> (out: Vec<u8>)
    requires
        img.wf(),
        img.layout == PixelLayout::Rgb,
        img.width == img.height,
        grid_width * img.width <= u32::MAX,
        grid_height * img.width <= u32::MAX,
        255 * (img.width * img.width) <= u64::MAX,
    ensures
        is_led_grid(img.data@, img.width as int, grid_width as int, grid_height as int, out@),
{
    let side: u32 = img.width;
    let gw: u32 = grid_width as u32;
    let gh: u32 = grid_height as u32;
    let ghost d = img.data@;
    let ghost si = side as int;
    proof {
        lemma_mul3(si, si, 3);
    }
    let mut out: Vec<u8> = Vec::new();
    let mut gy: u32 = 0;
    while gy < gh
        invariant
            img.wf(),
            d == img.data@,
            si == side,
            side == img.width,
            img.width == img.height,
            img.layout == PixelLayout::Rgb,
            d.len() == si * si * 3,
            gw == grid_width,
            gh == grid_height,
            gw * side <= u32::MAX,
            gh * side <= u32::MAX,
            255 * (si * si) <= u64::MAX,
            gy <= gh,
            out@.len() == (gy * gw) * 3,
            forall|gx1: int, gy1: int, c: int|
                0 <= gx1 < gw && 0 <= gy1 < gy && 0 <= c < 3 ==> #[trigger] out@[gy1 * (gw * 3) + gx1
                    * 3 + c] == cell_value(d, si, gw as int, gh as int, gx1, gy1, c),
        decreases gh - gy,
    {
        let mut gx: u32 = 0;
        while gx < gw
            invariant
                img.wf(),
                d == img.data@,
                si == side,
                side == img.width,
                img.width == img.height,
                img.layout == PixelLayout::Rgb,
                d.len() == si * si * 3,
                gw == grid_width,
                gh == grid_height,
                gw * side <= u32::MAX,
                gh * side <= u32::MAX,
                255 * (si * si) <= u64::MAX,
                gy < gh,
                gx <= gw,
                out@.len() == (gy * gw + gx) * 3,
                forall|gx1: int, gy1: int, c: int|
                    0 <= gx1 < gw && 0 <= gy1 < gh && 0 <= c < 3 && (gy1 < gy || (gy1 == gy && gx1
                        < gx)) ==> #[trigger] out@[gy1 * (gw * 3) + gx1 * 3 + c] == cell_value(
                        d,
                        si,
                        gw as int,
                        gh as int,
                        gx1,
                        gy1,
                        c,
                    ),
            decreases gw - gx,
        {
            let row: u32 = gh - 1 - gy;
            proof {
                lemma_bin_bounds(gx as int, side as int, gw as int);
                lemma_bin_bounds(row as int, side as int, gh as int);
            }
            let x0: u32 = gx * side / gw;
            let x1e: u32 = (gx + 1) * side / gw;
            let x1: u32 = if x1e <= side { x1e } else { side };
            let y0: u32 = row * side / gh;
            let y1e: u32 = (row + 1) * side / gh;
            let y1: u32 = if y1e <= side { y1e } else { side };
            let (r, g, b) = rect_means(
                img.data.as_slice(),
                side as usize,
                x0 as usize,
                x1 as usize,
                y0 as usize,
                y1 as usize,
            );
            let ghost before = out@;
            out.push(r);
            out.push(g);
            out.push(b);
            proof {
                assert(gy * (gw * 3) + gx * 3 == (gy * gw + gx) * 3) by (nonlinear_arith);
                assert forall|gx1: int, gy1: int, c: int|
                    0 <= gx1 < gw && 0 <= gy1 < gh && 0 <= c < 3 && (gy1 < gy || (gy1 == gy && gx1
                        < gx + 1)) implies #[trigger] out@[gy1 * (gw * 3) + gx1 * 3 + c]
                    == cell_value(d, si, gw as int, gh as int, gx1, gy1, c) by {
                    if gy1 < gy || gx1 < gx {
                        lemma_cell_index(gy1, gx1, gy as int, gx as int, gw as int, c);
                    }
                }
            }
            gx = gx + 1;
        }
        proof {
            assert((gy + 1) * gw == gy * gw + gw) by (nonlinear_arith);
        }
        gy = gy + 1;
    }
    proof {
        assert(out@.len() == (gw as int) * (gh as int) * 3) by (nonlinear_arith)
            requires
                out@.len() == (gh * gw) * 3,
        ;
    }
    out
}

/// One decoded GIF frame: its delay as a ratio of milliseconds, and its
/// RGBA canvas.
pub struct GifFrameData {
    pub delay_numer: u32,
    pub delay_denom: u32,
    pub width: u32,
    pub height: u32,
    pub rgba: Vec<u8>,
}

/// Model of a decoded frame: delay numerator and denominator (ms), width,
/// height, RGBA bytes.
pub type FrameModel = (u32, u32, u32, u32, Seq<u8>);

/// The model of a [`GifFrameData`].
pub open spec fn frame_model(f: GifFrameData) -> FrameModel {
    (f.delay_numer, f.delay_denom, f.width, f.height, f.rgba@)
}

/// Row `i / l`, column `i % l` of a row-major sequence with rows of `l`.
proof fn lemma_row_col(i: int, l: int)
    requires
        l > 0,
        i >= 0,
    ensures
        i == (i / l) * l + i % l,
        0 <= i % l < l,
        i / l >= 0,
{
    assert(i == (i / l) * l + i % l && 0 <= i % l < l && i / l >= 0) by (nonlinear_arith)
        requires
            l > 0,
            i >= 0,
    ;
}

proof fn lemma_row_of_bound(i: int, l: int, h: int)
    requires
        l > 0,
        0 <= i < h * l,
    ensures
        i / l < h,
{
    assert(i / l < h) by (nonlinear_arith)
        requires
            l > 0,
            0 <= i < h * l,
    ;
}

/// The bytes of the centered square of a `width` x `height` image with
/// `layout` pixels, row by row.
pub open spec fn center_square_of(width: u32, height: u32, layout: PixelLayout, data: Seq<u8>) -> Seq<u8> {
    let side = square_side(width as int, height as int);
    let x0 = (width - side) / 2;
    let y0 = (height - side) / 2;
    let ch = channels_of(layout) as int;
    let l = side * ch;
    Seq::new((side * l) as nat, |i: int| data[(y0 + i / l) * (width * ch) + x0 * ch + i % l])
}

/// The bytes of the centered square of an image, row by row.
pub open spec fn center_square(img: Raster) -> Seq<u8> {
    center_square_of(img.width, img.height, img.layout, img.data@)
}

/// Every pixel of `data` (pixels of `ch` bytes) repeats the first one.
pub open spec fn is_uniform(data: Seq<u8>, ch: int) -> bool {
    forall|i: int| 0 <= i < data.len() ==> #[trigger] data[i] == data[i % ch]
}

/// Every pixel (x, y) of the centered square of a `width` x `height` image
/// with `layout` pixels has the bytes of the square's top-left pixel.
pub open spec fn uniform_on_center_square(width: u32, height: u32, layout: PixelLayout, d: Seq<u8>) -> bool {
    let side = square_side(width as int, height as int);
    let x0 = (width - side) / 2;
    let y0 = (height - side) / 2;
    let ch = channels_of(layout) as int;
    forall|x: int, y: int, c: int|
        x0 <= x < x0 + side && y0 <= y < y0 + side && 0 <= c < ch ==> #[trigger] d[(y * width + x)
            * ch + c] == d[(y0 * width + x0) * ch + c]
}

/// A centered square that is one colour gives a uniform crop whose first
/// pixel is the square's top-left pixel.
pub proof fn lemma_uniform_center_square(width: u32, height: u32, layout: PixelLayout, d: Seq<u8>)
    requires
        uniform_on_center_square(width, height, layout, d),
    ensures
        is_uniform(center_square_of(width, height, layout, d), channels_of(layout) as int),
        forall|c: int|
            0 <= c < channels_of(layout) && square_side(width as int, height as int) > 0
                ==> #[trigger] center_square_of(width, height, layout, d)[c] == d[(((height
                - square_side(width as int, height as int)) / 2) * width + (width - square_side(
                width as int,
                height as int,
            )) / 2) * channels_of(layout) + c],
{
    let side = square_side(width as int, height as int);
    let x0 = (width - side) / 2;
    let y0 = (height - side) / 2;
    let ch = channels_of(layout) as int;
    let l = side * ch;
    let sq = center_square_of(width, height, layout, d);
    assert forall|i: int| 0 <= i < sq.len() implies #[trigger] sq[i] == d[(y0 * width + x0) * ch
        + i % ch] by {
        assert(l > 0) by (nonlinear_arith)
            requires
                0 <= i < side * l,
                side >= 0,
        ;
        lemma_row_col(i, l);
        lemma_row_of_bound(i, l, side);
        let y = i / l;
        let j = i % l;
        lemma_row_col(j, ch);
        let x = j / ch;
        let c = j % ch;
        assert(x < side) by (nonlinear_arith)
            requires
                x == j / ch,
                0 <= j < side * ch,
                ch > 0,
        ;
        assert((y0 + y) * (width * ch) + x0 * ch + j == ((y0 + y) * width + (x0 + x)) * ch + c)
            by (nonlinear_arith)
            requires
                j == x * ch + c,
        ;
        assert(i == (y * side + x) * ch + c) by (nonlinear_arith)
            requires
                i == y * l + j,
                l == side * ch,
                j == x * ch + c,
        ;
        vstd::arithmetic::div_mod::lemma_fundamental_div_mod_converse(i, ch, y * side + x, c);
        assert(d[(((y0 + y) * width + (x0 + x)) * ch + c)] == d[(y0 * width + x0) * ch + c]);
    }
    assert forall|i: int| 0 <= i < sq.len() implies #[trigger] sq[i] == sq[i % ch] by {
        lemma_row_col(i, ch);
        assert(i % ch <= i);
        vstd::arithmetic::div_mod::lemma_fundamental_div_mod_converse(i % ch, ch, 0, i % ch);
        assert(sq[i % ch] == d[(y0 * width + x0) * ch + (i % ch) % ch]);
    }
    assert forall|c: int| 0 <= c < ch && side > 0 implies #[trigger] sq[c] == d[(y0 * width + x0)
        * ch + c] by {
        assert(c < side * ch) by (nonlinear_arith)
            requires
                0 <= c < ch,
                side >= 1,
        ;
        assert(side * l >= l) by (nonlinear_arith)
            requires
                side >= 1,
                l >= 0,
        ;
        vstd::arithmetic::div_mod::lemma_fundamental_div_mod_converse(c, ch, 0, c);
        assert(sq[c] == d[(y0 * width + x0) * ch + c % ch]);
    }
}

/// Two `width` x `height` images with `layout` pixels have the same bytes
/// at every pixel (x, y) of the centered square, `x0 <= x < x0 + side` and
/// `y0 <= y < y0 + side`.
pub open spec fn agree_on_center_square(
    width: u32,
    height: u32,
    layout: PixelLayout,
    d1: Seq<u8>,
    d2: Seq<u8>,
) -> bool {
    let side = square_side(width as int, height as int);
    let x0 = (width - side) / 2;
    let y0 = (height - side) / 2;
    let ch = channels_of(layout) as int;
    forall|x: int, y: int, c: int|
        x0 <= x < x0 + side && y0 <= y < y0 + side && 0 <= c < ch ==> #[trigger] d1[(y * width
            + x) * ch + c] == d2[(y * width + x) * ch + c]
}

/// The centered square of an image reads nothing outside it: two images of
/// one size and layout that agree on it have the same centered square.
pub proof fn lemma_center_square_agree(
    width: u32,
    height: u32,
    layout: PixelLayout,
    d1: Seq<u8>,
    d2: Seq<u8>,
)
    requires
        agree_on_center_square(width, height, layout, d1, d2),
    ensures
        center_square_of(width, height, layout, d1) == center_square_of(width, height, layout, d2),
{
    let side = square_side(width as int, height as int);
    let x0 = (width - side) / 2;
    let y0 = (height - side) / 2;
    let ch = channels_of(layout) as int;
    let l = side * ch;
    let s1 = center_square_of(width, height, layout, d1);
    let s2 = center_square_of(width, height, layout, d2);
    assert forall|i: int| 0 <= i < s1.len() implies s1[i] == s2[i] by {
        lemma_row_col(i, l);
        assert(0 <= i < side * l);
        lemma_row_of_bound(i, l, side);
        let y = i / l;
        let j = i % l;
        lemma_row_col(j, ch);
        let x = j / ch;
        let c = j % ch;
        assert(x < side) by (nonlinear_arith)
            requires
                x == j / ch,
                0 <= j < side * ch,
                ch > 0,
        ;
        assert((y0 + y) * (width * ch) + x0 * ch + j == ((y0 + y) * width + (x0 + x)) * ch + c)
            by (nonlinear_arith)
            requires
                j == x * ch + c,
        ;
        assert(d1[(((y0 + y) * width + (x0 + x)) * ch + c)] == d2[(((y0 + y) * width + (x0 + x))
            * ch + c)]);
    }
    assert(s1 =~= s2);
}

/// The rows of a row-major sequence with rows of `l` bytes, in reverse order.
pub open spec fn flip_rows(d: Seq<u8>, l: int) -> Seq<u8> {
    let h = d.len() as int / l;
    Seq::new(d.len(), |i: int| d[(h - 1 - i / l) * l + i % l])
}

/// The LED grid of `gw` x `gh` cells taken from square RGB data of side `s`.
pub open spec fn led_grid(d: Seq<u8>, s: int, gw: int, gh: int) -> Seq<u8> {
    Seq::new(
        (gw * gh * 3) as nat,
        |i: int| cell_value(d, s, gw, gh, (i % (gw * 3)) / 3, i / (gw * 3), (i % (gw * 3)) % 3),
    )
}

/// The centered-square property pins the crop down.
pub proof fn lemma_center_square_unique(img: Raster, out: Raster)
    requires
        img.wf(),
        is_center_square(img, out),
    ensures
        out.data@ == center_square(img),
{
    let side = square_side(img.width as int, img.height as int);
    let ch = channels_of(img.layout) as int;
    let l = side * ch;
    let c = center_square(img);
    lemma_mul3(side, side, ch);
    if l > 0 {
        assert forall|i: int| 0 <= i < c.len() implies out.data@[i] == c[i] by {
            lemma_row_col(i, l);
            lemma_row_of_bound(i, l, side);
            let y = i / l;
            let j = i % l;
            assert(out.data@[y * l + j] == c[i]);
        }
        assert(out.data@ =~= c);
    } else {
        assert(side * l == 0) by (nonlinear_arith)
            requires
                l == 0,
        ;
        assert(out.data@ =~= c);
    }
}

/// The vertical-flip property pins the flipped image down.
pub proof fn lemma_vertical_flip_unique(img: Raster, out: Raster)
    requires
        img.wf(),
        is_vertical_flip(img, out),
    ensures
        out.data@ == flip_rows(img.data@, row_len(img)),
{
    let l = row_len(img);
    let h = img.height as int;
    let f = flip_rows(img.data@, l);
    lemma_mul3(img.width as int, h, channels_of(img.layout) as int);
    if l > 0 {
        assert(img.data@.len() as int / l == h) by (nonlinear_arith)
            requires
                l > 0,
                img.data@.len() == h * l,
        ;
        assert forall|i: int| 0 <= i < f.len() implies out.data@[i] == f[i] by {
            lemma_row_col(i, l);
            lemma_row_of_bound(i, l, h);
            let y = i / l;
            let j = i % l;
            assert(out.data@[y * l + j] == img.data@[(h - 1 - y) * l + j]);
        }
        assert(out.data@ =~= f);
    } else {
        assert(h * l == 0) by (nonlinear_arith)
            requires
                l == 0,
        ;
        assert(out.data@ =~= f);
    }
}

/// The LED-grid property pins the grid down.
pub proof fn lemma_led_grid_unique(d: Seq<u8>, s: int, gw: int, gh: int, out: Seq<u8>)
    requires
        gw >= 0,
        gh >= 0,
        is_led_grid(d, s, gw, gh, out),
    ensures
        out == led_grid(d, s, gw, gh),
{
    let g = led_grid(d, s, gw, gh);
    let l = gw * 3;
    if gw > 0 {
        assert forall|i: int| 0 <= i < g.len() implies out[i] == g[i] by {
            lemma_row_col(i, l);
            assert(gw * gh * 3 == gh * l) by (nonlinear_arith)
                requires
                    l == gw * 3,
            ;
            lemma_row_of_bound(i, l, gh);
            let gy = i / l;
            let j = i % l;
            lemma_row_col(j, 3);
            let gx = j / 3;
            let c = j % 3;
            assert(gx < gw) by (nonlinear_arith)
                requires
                    gx == j / 3,
                    0 <= j < gw * 3,
            ;
            assert(i == gy * (gw * 3) + gx * 3 + c);
            assert(out[gy * (gw * 3) + gx * 3 + c] == cell_value(d, s, gw, gh, gx, gy, c));
        }
        assert(out =~= g);
    } else {
        assert(gw * gh * 3 == 0) by (nonlinear_arith)
            requires
                gw == 0,
        ;
        assert(out =~= g);
    }
}

/// RGBA bytes with the alpha byte of each pixel dropped.
pub open spec fn rgba_to_rgb(data: Seq<u8>) -> Seq<u8> {
    Seq::new(((data.len() / 4) * 3) as nat, |i: int| data[(i / 3) * 4 + i % 3])
}

/// Flipping the rows of a uniform RGBA grid and dropping alpha gives a
/// uniform RGB grid of the same colour.
pub proof fn lemma_flipped_rgb_of_uniform(s: Seq<u8>, gw: int, gh: int, q: Seq<u8>)
    requires
        gw >= 0,
        gh >= 0,
        s.len() == gw * gh * 4,
        forall|m: int| 0 <= m < s.len() ==> #[trigger] s[m] == q[m % 4],
    ensures
        rgba_to_rgb(flip_rows(s, gw * 4)).len() == gw * gh * 3,
        forall|j: int|
            0 <= j < rgba_to_rgb(flip_rows(s, gw * 4)).len() ==> #[trigger] rgba_to_rgb(
                flip_rows(s, gw * 4),
            )[j] == q[j % 3],
{
    let l = gw * 4;
    let f = flip_rows(s, l);
    let r = rgba_to_rgb(f);
    let n = gw * gh;
    assert(s.len() == n * 4) by (nonlinear_arith)
        requires
            s.len() == gw * gh * 4,
            n == gw * gh,
    ;
    vstd::arithmetic::div_mod::lemma_fundamental_div_mod_converse(s.len() as int, 4, n, 0);
    assert(r.len() == n * 3);
    assert(n * 3 == gw * gh * 3) by (nonlinear_arith)
        requires
            n == gw * gh,
    ;
    if n > 0 {
        assert(l > 0) by (nonlinear_arith)
            requires
                n == gw * gh,
                n > 0,
                gw >= 0,
                gh >= 0,
                l == gw * 4,
        ;
        assert(s.len() == gh * l) by (nonlinear_arith)
            requires
                s.len() == gw * gh * 4,
                l == gw * 4,
        ;
        vstd::arithmetic::div_mod::lemma_fundamental_div_mod_converse(s.len() as int, l, gh, 0);
        assert forall|j: int| 0 <= j < r.len() implies #[trigger] r[j] == q[j % 3] by {
            lemma_row_col(j, 3);
            let k = (j / 3) * 4 + j % 3;
            assert(k < n * 4) by (nonlinear_arith)
                requires
                    0 <= j < n * 3,
                    j == (j / 3) * 3 + j % 3,
                    0 <= j % 3 < 3,
                    k == (j / 3) * 4 + j % 3,
            ;
            assert(k >= 0) by (nonlinear_arith)
                requires
                    j / 3 >= 0,
                    0 <= j % 3,
                    k == (j / 3) * 4 + j % 3,
            ;
            vstd::arithmetic::div_mod::lemma_fundamental_div_mod_converse(k, 4, j / 3, j % 3);
            lemma_row_col(k, l);
            lemma_row_of_bound(k, l, gh);
            let qq = k / l;
            let rr = k % l;
            let m = (gh - 1 - qq) * l + rr;
            assert(f[k] == s[m]);
            lemma_row_col(rr, 4);
            assert(k == (qq * gw + rr / 4) * 4 + rr % 4) by (nonlinear_arith)
                requires
                    k == qq * l + rr,
                    l == gw * 4,
                    rr == (rr / 4) * 4 + rr % 4,
            ;
            vstd::arithmetic::div_mod::lemma_fundamental_div_mod_converse(k, 4, qq * gw + rr / 4, rr % 4);
            assert(m == ((gh - 1 - qq) * gw + rr / 4) * 4 + rr % 4) by (nonlinear_arith)
                requires
                    m == (gh - 1 - qq) * l + rr,
                    l == gw * 4,
                    rr == (rr / 4) * 4 + rr % 4,
            ;
            vstd::arithmetic::div_mod::lemma_fundamental_div_mod_converse(
                m,
                4,
                (gh - 1 - qq) * gw + rr / 4,
                rr % 4,
            );
            assert(0 <= m < s.len()) by (nonlinear_arith)
                requires
                    0 <= qq < gh,
                    0 <= rr < l,
                    m == (gh - 1 - qq) * l + rr,
                    s.len() == gh * l,
            ;
            assert(s[m] == q[m % 4]);
        }
    }
}

} // verus!
