//! The RGBA8 pixel buffer a plot is drawn on, and the two direct pixel
//! operations of the renderer: glyph blitting and translucent cell filling.
use vstd::prelude::*;
use vstd::arithmetic::div_mod::lemma_fundamental_div_mod_converse;
use crate::blend::{
    accumulate, accumulate_alpha, coverage_alpha, glyph_pixel_alpha, law_accumulate_monotone,
    law_coverage_alpha, law_mix_between, law_mix_extremes, mix, mix_channel,
};

verus! {

/// Byte offset of channel `c` of pixel (`x`, `y`) in a row-major RGBA8 buffer
/// whose rows are `width` pixels long.
pub open spec fn pixel_index(width: int, x: int, y: int, c: int) -> int {
    (y * width + x) * 4 + c
}

/// Sizes for which tiny-skia hands out a pixmap: both sides non-zero, a row's
/// byte length fits an `i32`, and the whole buffer's byte length fits a `usize`.
pub open spec fn pixmap_size_ok(width: int, height: int) -> bool {
    &&& 0 < width
    &&& 0 < height
    &&& width * 4 <= i32::MAX
    &&& width * height * 4 <= usize::MAX
}

/// Coverage of glyph cell (`col`, `row`) of a `w` x `h` bitmap; 0 outside the bitmap.
pub open spec fn glyph_coverage(bitmap: Seq<u8>, w: int, h: int, col: int, row: int) -> u8 {
    if 0 <= col < w && 0 <= row < h {
        bitmap[row * w + col]
    } else {
        0
    }
}

/// Channel `c` of a destination pixel after compositing `color` over it with opacity `alpha`:
/// colour channels are mixed, the alpha channel accumulates.
pub open spec fn composite_channel(dst: u8, c: int, color: [u8; 4], alpha: int) -> u8 {
    if c < 3 {
        mix_channel(color[c], dst, alpha) as u8
    } else {
        accumulate_alpha(dst, alpha) as u8
    }
}

/// Channel `c` of a pixel under a glyph cell of the given coverage; zero coverage leaves it alone.
pub open spec fn blit_channel(dst: u8, coverage: u8, c: int, color: [u8; 4]) -> u8 {
    if coverage == 0 {
        dst
    } else {
        composite_channel(dst, c, color, coverage_alpha(coverage, color[3]))
    }
}

/// Channel `c` of a pixel inside a translucent cell: colour channels are mixed with
/// the cell's alpha (`color[3]`), the alpha channel becomes opaque.
pub open spec fn cell_channel(dst: u8, c: int, color: [u8; 4]) -> u8 {
    if c < 3 {
        mix_channel(color[c], dst, color[3] as int) as u8
    } else {
        255
    }
}

/// Whether (`x`, `y`) lies in the rectangle with corner (`rx`, `ry`) and size `rw` x `rh`.
pub open spec fn in_rect(x: int, y: int, rx: int, ry: int, rw: int, rh: int) -> bool {
    rx <= x < rx + rw && ry <= y < ry + rh
}

proof fn lemma_pixel_index_bounds(width: int, height: int, x: int, y: int, c: int)
    requires
        0 <= x < width,
        0 <= y < height,
        0 <= c < 4,
    ensures
        0 <= y * width + x < width * height,
        0 <= pixel_index(width, x, y, c) < width * height * 4,
{
    assert(0 <= y * width + x < width * height) by (nonlinear_arith)
        requires 0 <= x < width, 0 <= y < height;
    assert(width * height * 4 == (width * height) * 4) by (nonlinear_arith);
}

proof fn lemma_pixel_index_injective(width: int, x1: int, y1: int, c1: int, x2: int, y2: int, c2: int)
    requires
        0 <= x1 < width,
        0 <= x2 < width,
        0 <= y1,
        0 <= y2,
        0 <= c1 < 4,
        0 <= c2 < 4,
        pixel_index(width, x1, y1, c1) == pixel_index(width, x2, y2, c2),
    ensures
        x1 == x2,
        y1 == y2,
        c1 == c2,
{
    let p1 = y1 * width + x1;
    let p2 = y2 * width + x2;
    assert(p1 == p2 && c1 == c2) by (nonlinear_arith)
        requires p1 * 4 + c1 == p2 * 4 + c2, 0 <= c1 < 4, 0 <= c2 < 4;
    assert(y1 == y2) by (nonlinear_arith)
        requires
            y1 * width + x1 == y2 * width + x2,
            0 <= x1 < width,
            0 <= x2 < width,
            0 <= y1,
            0 <= y2,
    {
        if y1 < y2 {
            assert(y1 * width + width <= y2 * width);
        } else if y2 < y1 {
            assert(y2 * width + width <= y1 * width);
        }
    }
}

/// Whether glyph cell (`cx`, `cy`) of a `w`-wide bitmap comes before cell (`col`, `row`)
/// in row-major order.
pub open spec fn blit_done(cx: int, cy: int, w: int, row: int, col: int) -> bool {
    (0 <= cy < row && 0 <= cx < w) || (cy == row && 0 <= cx < col)
}

/// Blitting in a fully transparent colour leaves every channel as it was.
pub proof fn law_blit_transparent_keeps_pixel(dst: u8, coverage: u8, c: int, color: [u8; 4])
    requires
        color[3] == 0,
        0 <= c < 4,
    ensures
        blit_channel(dst, coverage, c, color) == dst,
{
    law_coverage_alpha(coverage, 0);
    if c < 3 {
        law_mix_extremes(color[c], dst);
    } else {
        law_accumulate_monotone(dst, 0);
    }
}

/// A blit touches no pixel outside the bitmap's footprint on the canvas.
pub proof fn law_blit_outside_footprint(
    bitmap: Seq<u8>,
    w: int,
    h: int,
    px: int,
    py: int,
    x: int,
    y: int,
    dst: u8,
    c: int,
    color: [u8; 4],
)
    requires
        !in_rect(x, y, px, py, w, h),
    ensures
        blit_channel(dst, glyph_coverage(bitmap, w, h, x - px, y - py), c, color) == dst,
{
}

/// A fully covered cell in an opaque colour replaces the pixel by that colour, fully opaque.
pub proof fn law_blit_opaque_full_coverage(dst: u8, c: int, color: [u8; 4])
    requires
        color[3] == 255,
        0 <= c < 4,
    ensures
        blit_channel(dst, 255, c, color) == if c < 3 {
            color[c]
        } else {
            255u8
        },
{
    law_coverage_alpha(255, 255);
    if c < 3 {
        law_mix_extremes(color[c], dst);
    } else {
        law_accumulate_monotone(dst, 255);
    }
}

/// A cell's pixels always end fully opaque; an opaque cell shows its colour exactly and
/// a fully transparent one keeps the colour channels underneath.
pub proof fn law_cell_result(dst: u8, c: int, color: [u8; 4])
    requires
        0 <= c < 4,
    ensures
        c == 3 ==> cell_channel(dst, c, color) == 255,
        c < 3 && color[3] == 255 ==> cell_channel(dst, c, color) == color[c],
        c < 3 && color[3] == 0 ==> cell_channel(dst, c, color) == dst,
{
    if c < 3 {
        law_mix_extremes(color[c], dst);
    }
}

/// What a glyph cell does to the pixel under it, in plain arithmetic: with opacity
/// a = coverage * color[3] / 255, each colour channel becomes the alpha mix
/// (color[c] * a + dst * (255 - a)) / 255 of the colour and the old value, whatever the
/// old value is, and the alpha channel becomes dst + a - dst * a / 255; a cell of zero
/// coverage leaves the pixel as it was.
pub proof fn law_blit_channel_formula(dst: u8, coverage: u8, c: int, color: [u8; 4])
    requires
        0 <= c < 4,
    ensures
        ({
            let a = (coverage as int * color[3] as int) / 255;
            &&& coverage == 0 ==> blit_channel(dst, coverage, c, color) == dst
            &&& coverage != 0 && c < 3 ==> blit_channel(dst, coverage, c, color) as int == (color[c] as int * a
                + dst as int * (255 - a)) / 255
            &&& coverage != 0 && c == 3 ==> blit_channel(dst, coverage, c, color) as int == dst as int + a - (
            dst as int * a) / 255
        }),
{
    let a = coverage_alpha(coverage, color[3]);
    law_coverage_alpha(coverage, color[3]);
    if c < 3 {
        law_mix_between(color[c], dst, a);
    } else {
        law_accumulate_monotone(dst, a);
    }
}

/// What a translucent cell does to the pixel under it, in plain arithmetic: each colour
/// channel becomes (color[c] * color[3] + dst * (255 - color[3])) / 255, mixing the colour
/// once with the old value whatever the old value is, and the alpha channel becomes 255.
pub proof fn law_cell_channel_formula(dst: u8, c: int, color: [u8; 4])
    requires
        0 <= c < 4,
    ensures
        c < 3 ==> cell_channel(dst, c, color) as int == (color[c] as int * color[3] as int + dst as int * (255
            - color[3] as int)) / 255,
        c == 3 ==> cell_channel(dst, c, color) == 255,
{
    if c < 3 {
        law_mix_between(color[c], dst, color[3] as int);
    }
}

/// A tiny-skia sized, row-major RGBA8 pixel buffer.
pub struct Canvas {
    width: u32,
    height: u32,
    data: Vec<u8>,
}

/// Errors of canvas construction.
#[derive(Debug)]
pub enum CanvasError {
    /// The width or height is 0, or the buffer would be too large.
    InvalidDimensions,
    /// The size is refused, or the pixel buffer does not hold width * height * 4 bytes.
    InvalidBuffer,
}

#[verifier::external_type_specification]
#[verifier::external_body]
pub struct ExEncodingError(png::EncodingError);

/// The PNG file that tiny-skia's encoder writes for an RGBA8 buffer of the given size.
pub uninterp spec fn png_encoding(data: Seq<u8>, width: u32, height: u32) -> Seq<u8>;

/// `tiny_skia::PixmapRef::from_bytes(data, width, height)` followed by `encode_png`.
/// For a size `Pixmap::new` accepts and exactly `width * height * 4` bytes, `from_bytes`
/// accepts the slice and the encoder succeeds: png's writer refuses only a zero side, a
/// colour type and bit depth that do not go together (RGBA8 does), a buffer of the wrong
/// length, and chunks longer than `i32::MAX` (IDAT data is split below that), and writing
/// into a `Vec` does not fail. What the encoder writes is named `png_encoding`.
#[verifier::external_body]
fn encode_png_bytes(data: &Vec<u8>, width: u32, height: u32) -> (r: Option<Result<Vec<u8>, png::EncodingError>>)
    requires
        pixmap_size_ok(width as int, height as int),
        data@.len() == width * height * 4,
    ensures
        r matches Some(Ok(_)),
        r matches Some(Ok(v)) ==> v@ == png_encoding(data@, width, height),
{
    match tiny_skia::PixmapRef::from_bytes(data.as_slice(), width, height) {
        Some(p) => Some(p.encode_png()),
        None => None,
    }
}

/// `tiny_skia::Pixmap::new(width, height)`, taken apart into its byte buffer.
/// Its source gives a pixmap exactly when both sides are non-zero, `width * 4`
/// fits an `i32` and `width * height * 4` fits a `usize`; the buffer then holds
/// that many zero bytes (`vec![0; len]`).
#[verifier::external_body]
fn new_pixmap_buffer(width: u32, height: u32) -> (r: Option<Vec<u8>>)
    ensures
        r is Some <==> pixmap_size_ok(width as int, height as int),
        r matches Some(v) ==> v@ == Seq::new((width * height * 4) as nat, |i: int| 0u8),
{
    match tiny_skia::Pixmap::new(width, height) {
        Some(p) => Some(p.take()),
        None => None,
    }
}

/// `tiny_skia::Pixmap::from_vec(data, IntSize::from_wh(width, height)?)`, taken apart
/// into its byte buffer. Its source accepts the bytes exactly when the size is one
/// `Pixmap::new` accepts and `data` holds `width * height * 4` bytes, and then keeps
/// them as they are.
#[verifier::external_body]
fn pixmap_buffer_from_vec(width: u32, height: u32, data: Vec<u8>) -> (r: Option<Vec<u8>>)
    ensures
        r is Some <==> (pixmap_size_ok(width as int, height as int) && data@.len() == width * height * 4),
        r matches Some(v) ==> v@ == data@,
{
    match tiny_skia::IntSize::from_wh(width, height) {
        Some(size) => match tiny_skia::Pixmap::from_vec(data, size) {
            Some(p) => Some(p.take()),
            None => None,
        },
        None => None,
    }
}

/// `tiny_skia::PixmapMut::from_bytes(data, width, height)` followed by
/// `fill(Color::from_rgba8(r, g, b, 255))`. For an opaque colour its source writes the
/// colour's four bytes into every pixel: premultiplying by an alpha of one keeps the
/// channels and each channel converts back to the byte it came from.
#[verifier::external_body]
fn fill_pixels(data: &mut Vec<u8>, width: u32, height: u32, color: [u8; 4])
    requires
        pixmap_size_ok(width as int, height as int),
        old(data)@.len() == width * height * 4,
        color[3] == 255,
    ensures
        final(data)@.len() == old(data)@.len(),
        forall|i: int| 0 <= i < final(data)@.len() ==> #[trigger] final(data)@[i] == color[i % 4],
{
    if let Some(mut p) = tiny_skia::PixmapMut::from_bytes(data.as_mut_slice(), width, height) {
        p.fill(tiny_skia::Color::from_rgba8(color[0], color[1], color[2], color[3]));
    }
}

impl Canvas {
    /// Internal consistency: the buffer holds exactly one RGBA quadruple per pixel
    /// and the size is one tiny-skia accepts.
    pub closed spec fn wf(&self) -> bool {
        &&& pixmap_size_ok(self.width as int, self.height as int)
        &&& self.data@.len() == self.width * self.height * 4
    }

    /// Width in pixels.
    pub closed spec fn spec_width(&self) -> int {
        self.width as int
    }

    /// Height in pixels.
    pub closed spec fn spec_height(&self) -> int {
        self.height as int
    }

    /// The raw RGBA8 bytes, row-major.
    pub closed spec fn bytes(&self) -> Seq<u8> {
        self.data@
    }

    /// Channel `c` of pixel (`x`, `y`).
    pub open spec fn channel(&self, x: int, y: int, c: int) -> u8 {
        self.bytes()[pixel_index(self.spec_width(), x, y, c)]
    }

    /// Whether (`x`, `y`, `c`) names a channel of a pixel of this canvas.
    pub open spec fn in_bounds(&self, x: int, y: int, c: int) -> bool {
        0 <= x < self.spec_width() && 0 <= y < self.spec_height() && 0 <= c < 4
    }

    /// A new, fully transparent black canvas of the given size, as `tiny_skia::Pixmap::new`
    /// gives it; refused with `InvalidDimensions` for sizes tiny-skia refuses.
    pub fn new(width: u32, height: u32) -> (r: Result<Canvas, CanvasError>)
        ensures
            r is Ok <==> pixmap_size_ok(width as int, height as int),
            r is Err ==> r == Err::<Canvas, CanvasError>(CanvasError::InvalidDimensions),
            r matches Ok(cv) ==> {
                &&& cv.wf()
                &&& cv.spec_width() == width
                &&& cv.spec_height() == height
                &&& forall|x: int, y: int, c: int| cv.in_bounds(x, y, c) ==> cv.channel(x, y, c) == 0
            },
    {
        match new_pixmap_buffer(width, height) {
            Some(data) => {
                let cv = Canvas { width, height, data };
                assert forall|x: int, y: int, c: int| cv.in_bounds(x, y, c) implies cv.channel(x, y, c) == 0 by {
                    lemma_pixel_index_bounds(width as int, height as int, x, y, c);
                }
                Ok(cv)
            },
            None => Err(CanvasError::InvalidDimensions),
        }
    }

    /// Wraps existing RGBA8 bytes (such as a pixmap's) as a canvas; refused with
    /// `InvalidBuffer` where `tiny_skia::Pixmap::from_vec` refuses them.
    pub fn from_rgba(width: u32, height: u32, data: Vec<u8>) -> (r: Result<Canvas, CanvasError>)
        ensures
            r is Ok <==> pixmap_size_ok(width as int, height as int) && data@.len() == width * height
                * 4,
            r is Err ==> r == Err::<Canvas, CanvasError>(CanvasError::InvalidBuffer),
            r matches Ok(cv) ==> {
                &&& cv.wf()
                &&& cv.spec_width() == width
                &&& cv.spec_height() == height
                &&& cv.bytes() == data@
            },
    {
        match pixmap_buffer_from_vec(width, height, data) {
            Some(data) => Ok(Canvas { width, height, data }),
            None => Err(CanvasError::InvalidBuffer),
        }
    }

    /// Composites a `w` x `h` coverage bitmap (row-major, one byte per cell) in `color`
    /// onto the canvas with its top-left cell at pixel (`px`, `py`). A cell is laid
    /// over the pixel it lands on with opacity `coverage * color[3] / 255`; cells of
    /// zero coverage and cells that land off the canvas are skipped.
    pub fn blit_coverage(&mut self, bitmap: &[u8], w: usize, h: usize, px: i32, py: i32, color: [u8; 4])
        requires
            old(self).wf(),
            w * h <= bitmap@.len(),
        ensures
            final(self).wf(),
            final(self).spec_width() == old(self).spec_width(),
            final(self).spec_height() == old(self).spec_height(),
            forall|x: int, y: int, c: int|
                old(self).in_bounds(x, y, c) ==> #[trigger] final(self).channel(x, y, c) == blit_channel(
                    old(self).channel(x, y, c),
                    glyph_coverage(bitmap@, w as int, h as int, x - px, y - py),
                    c,
                    color,
                ),
            forall|x: int, y: int, c: int|
                old(self).in_bounds(x, y, c) && px <= x < px + w && py <= y < py + h ==> #[trigger] final(self).channel(x, y, c) == blit_channel(
                    old(self).channel(x, y, c),
                    bitmap@[(y - py) * w + (x - px)],
                    c,
                    color,
                ),
            forall|x: int, y: int, c: int|
                old(self).in_bounds(x, y, c) && !(px <= x < px + w && py <= y < py + h) ==> #[trigger] final(self).channel(x, y, c) == old(self).channel(x, y, c),
    {
        let ghost s0 = self.data@;
        let wd = self.width;
        let ht = self.height;
        let blen = bitmap.len();
        let mut row: usize = 0;
        while row < h
            invariant
                self.wf(),
                self.width == wd,
                self.height == ht,
                row <= h,
                w * h <= bitmap@.len(),
                blen == bitmap@.len(),
                forall|x: int, y: int, c: int|
                    0 <= x < wd && 0 <= y < ht && 0 <= c < 4 ==> #[trigger] self.data@[pixel_index(
                        wd as int,
                        x,
                        y,
                        c,
                    )] == if blit_done(x - px, y - py, w as int, row as int, 0) {
                        blit_channel(
                            s0[pixel_index(wd as int, x, y, c)],
                            glyph_coverage(bitmap@, w as int, h as int, x - px, y - py),
                            c,
                            color,
                        )
                    } else {
                        s0[pixel_index(wd as int, x, y, c)]
                    },
            decreases h - row,
        {
            let mut col: usize = 0;
            while col < w
                invariant
                    self.wf(),
                    self.width == wd,
                    self.height == ht,
                    row < h,
                    col <= w,
                    w * h <= bitmap@.len(),
                    blen == bitmap@.len(),
                    forall|x: int, y: int, c: int|
                        0 <= x < wd && 0 <= y < ht && 0 <= c < 4 ==> #[trigger] self.data@[pixel_index(
                            wd as int,
                            x,
                            y,
                            c,
                        )] == if blit_done(x - px, y - py, w as int, row as int, col as int) {
                            blit_channel(
                                s0[pixel_index(wd as int, x, y, c)],
                                glyph_coverage(bitmap@, w as int, h as int, x - px, y - py),
                                c,
                                color,
                            )
                        } else {
                            s0[pixel_index(wd as int, x, y, c)]
                        },
                decreases w - col,
            {
                assert(row * w + col < w * h) by (nonlinear_arith)
                    requires row < h, col < w;
                let coverage = bitmap[row * w + col];
                let ghost pre = self.data@;
                if coverage != 0 {
                    let dx: i128 = px as i128 + col as i128;
                    let dy: i128 = py as i128 + row as i128;
                    if dx >= 0 && dy >= 0 && dx < wd as i128 && dy < ht as i128 {
                        let x = dx as usize;
                        let y = dy as usize;
                        proof {
                            lemma_pixel_index_bounds(wd as int, ht as int, x as int, y as int, 3);
                        }
                        let base: usize = (y * (wd as usize) + x) * 4;
                        let a = glyph_pixel_alpha(coverage, color[3]);
                        let r = mix(color[0], self.data[base], a);
                        let g = mix(color[1], self.data[base + 1], a);
                        let b = mix(color[2], self.data[base + 2], a);
                        let al = accumulate(self.data[base + 3], a);
                        self.data.set(base, r);
                        self.data.set(base + 1, g);
                        self.data.set(base + 2, b);
                        self.data.set(base + 3, al);
                        assert forall|x2: int, y2: int, c2: int|
                            0 <= x2 < wd && 0 <= y2 < ht && 0 <= c2 < 4 implies #[trigger] self.data@[pixel_index(
                                wd as int,
                                x2,
                                y2,
                                c2,
                            )] == if blit_done(x2 - px, y2 - py, w as int, row as int, col + 1) {
                                blit_channel(
                                    s0[pixel_index(wd as int, x2, y2, c2)],
                                    glyph_coverage(bitmap@, w as int, h as int, x2 - px, y2 - py),
                                    c2,
                                    color,
                                )
                            } else {
                                s0[pixel_index(wd as int, x2, y2, c2)]
                            } by {
                            lemma_pixel_index_bounds(wd as int, ht as int, x2, y2, c2);
                            let i2 = pixel_index(wd as int, x2, y2, c2);
                            assert(pre[i2] == s0[i2] || blit_done(x2 - px, y2 - py, w as int, row as int, col as int));
                            if x2 == x && y2 == y {
                                assert(i2 == base + c2);
                            } else {
                                if i2 == base || i2 == base + 1 || i2 == base + 2 || i2 == base + 3 {
                                    let cc = i2 - base;
                                    lemma_pixel_index_injective(wd as int, x2, y2, c2, x as int, y as int, cc);
                                }
                                assert(self.data@[i2] == pre[i2]);
                            }
                        }
                    }
                }
                col += 1;
            }
            row += 1;
        }
        assert forall|x: int, y: int, c: int|
            old(self).in_bounds(x, y, c) implies #[trigger] self.channel(x, y, c) == blit_channel(
                old(self).channel(x, y, c),
                glyph_coverage(bitmap@, w as int, h as int, x - px, y - py),
                c,
                color,
            ) by {
            assert(self.data@[pixel_index(wd as int, x, y, c)] == self.channel(x, y, c));
        }
    }

    /// Lays a translucent `w` x `h` cell of `color` over the canvas with its top-left
    /// corner at pixel (`x`, `y`): colour channels are mixed with opacity `color[3]`,
    /// the alpha channel becomes opaque. The parts of the cell off the canvas are skipped;
    /// a cell with a non-positive side covers nothing.
    pub fn fill_cell(&mut self, x: i32, y: i32, w: i32, h: i32, color: [u8; 4])
        requires
            old(self).wf(),
        ensures
            final(self).wf(),
            final(self).spec_width() == old(self).spec_width(),
            final(self).spec_height() == old(self).spec_height(),
            forall|px: int, py: int, c: int|
                old(self).in_bounds(px, py, c) ==> #[trigger] final(self).channel(px, py, c) == if in_rect(
                    px,
                    py,
                    x as int,
                    y as int,
                    w as int,
                    h as int,
                ) {
                    cell_channel(old(self).channel(px, py, c), c, color)
                } else {
                    old(self).channel(px, py, c)
                },
            forall|px: int, py: int, c: int|
                old(self).in_bounds(px, py, c) && x <= px < x + w && y <= py < y + h ==> #[trigger] final(self).channel(px, py, c) == cell_channel(old(self).channel(px, py, c), c, color),
            forall|px: int, py: int, c: int|
                old(self).in_bounds(px, py, c) && !(x <= px < x + w && y <= py < y + h) ==> #[trigger] final(self).channel(px, py, c) == old(self).channel(px, py, c),
    {
        let ghost s0 = self.data@;
        let wd = self.width;
        let ht = self.height;
        let mut row: i32 = 0;
        while row < h
            invariant
                self.wf(),
                self.width == wd,
                self.height == ht,
                0 <= row,
                h >= 0 ==> row <= h,
                h < 0 ==> row == 0,
                forall|px: int, py: int, c: int|
                    0 <= px < wd && 0 <= py < ht && 0 <= c < 4 ==> #[trigger] self.data@[pixel_index(
                        wd as int,
                        px,
                        py,
                        c,
                    )] == if blit_done(px - x, py - y, w as int, row as int, 0) {
                        cell_channel(s0[pixel_index(wd as int, px, py, c)], c, color)
                    } else {
                        s0[pixel_index(wd as int, px, py, c)]
                    },
            decreases h - row,
        {
            let mut col: i32 = 0;
            while col < w
                invariant
                    self.wf(),
                    self.width == wd,
                    self.height == ht,
                    0 <= row < h,
                    0 <= col,
                    w >= 0 ==> col <= w,
                    w < 0 ==> col == 0,
                    forall|px: int, py: int, c: int|
                        0 <= px < wd && 0 <= py < ht && 0 <= c < 4 ==> #[trigger] self.data@[pixel_index(
                            wd as int,
                            px,
                            py,
                            c,
                        )] == if blit_done(px - x, py - y, w as int, row as int, col as int) {
                            cell_channel(s0[pixel_index(wd as int, px, py, c)], c, color)
                        } else {
                            s0[pixel_index(wd as int, px, py, c)]
                        },
                decreases w - col,
            {
                let ghost pre = self.data@;
                let fx: i64 = x as i64 + col as i64;
                let fy: i64 = y as i64 + row as i64;
                if fx >= 0 && fy >= 0 && fx < wd as i64 && fy < ht as i64 {
                    let tx = fx as usize;
                    let ty = fy as usize;
                    proof {
                        lemma_pixel_index_bounds(wd as int, ht as int, tx as int, ty as int, 3);
                    }
                    let base: usize = (ty * (wd as usize) + tx) * 4;
                    let r = mix(color[0], self.data[base], color[3] as u16);
                    let g = mix(color[1], self.data[base + 1], color[3] as u16);
                    let b = mix(color[2], self.data[base + 2], color[3] as u16);
                    self.data.set(base, r);
                    self.data.set(base + 1, g);
                    self.data.set(base + 2, b);
                    self.data.set(base + 3, 255);
                    assert forall|px: int, py: int, c: int|
                        0 <= px < wd && 0 <= py < ht && 0 <= c < 4 implies #[trigger] self.data@[pixel_index(
                            wd as int,
                            px,
                            py,
                            c,
                        )] == if blit_done(px - x, py - y, w as int, row as int, col + 1) {
                            cell_channel(s0[pixel_index(wd as int, px, py, c)], c, color)
                        } else {
                            s0[pixel_index(wd as int, px, py, c)]
                        } by {
                        lemma_pixel_index_bounds(wd as int, ht as int, px, py, c);
                        let i2 = pixel_index(wd as int, px, py, c);
                        if px == tx && py == ty {
                            assert(i2 == base + c);
                        } else {
                            if i2 == base || i2 == base + 1 || i2 == base + 2 || i2 == base + 3 {
                                let cc = i2 - base;
                                lemma_pixel_index_injective(wd as int, px, py, c, tx as int, ty as int, cc);
                            }
                            assert(self.data@[i2] == pre[i2]);
                        }
                    }
                }
                col += 1;
            }
            row += 1;
        }
        assert forall|px: int, py: int, c: int|
            old(self).in_bounds(px, py, c) implies #[trigger] self.channel(px, py, c) == if in_rect(
                px,
                py,
                x as int,
                y as int,
                w as int,
                h as int,
            ) {
                cell_channel(old(self).channel(px, py, c), c, color)
            } else {
                old(self).channel(px, py, c)
            } by {
            assert(self.data@[pixel_index(wd as int, px, py, c)] == self.channel(px, py, c));
        }
    }

    /// Fills the whole canvas with the opaque colour `color` using tiny-skia; the colour
    /// ends up in every pixel as it is.
    pub fn fill(&mut self, color: [u8; 4])
        requires
            old(self).wf(),
            color[3] == 255,
        ensures
            final(self).wf(),
            final(self).spec_width() == old(self).spec_width(),
            final(self).spec_height() == old(self).spec_height(),
            forall|x: int, y: int, c: int|
                final(self).in_bounds(x, y, c) ==> #[trigger] final(self).channel(x, y, c) == color[c],
    {
        fill_pixels(&mut self.data, self.width, self.height, color);
        proof {
            assert forall|x: int, y: int, c: int| self.in_bounds(x, y, c) implies #[trigger] self.channel(x, y, c) == color[c] by {
                lemma_pixel_index_bounds(self.width as int, self.height as int, x, y, c);
                let i = pixel_index(self.width as int, x, y, c);
                lemma_fundamental_div_mod_converse(i, 4, y * self.width + x, c);
            }
        }
    }

    /// Encodes the canvas as a PNG file with tiny-skia's encoder, which always succeeds
    /// for a canvas.
    pub fn encode_png(&self) -> (r: Vec<u8>)
        requires
            self.wf(),
        ensures
            r@ == png_encoding(self.bytes(), self.spec_width() as u32, self.spec_height() as u32),
    {
        match encode_png_bytes(&self.data, self.width, self.height) {
            Some(Ok(bytes)) => bytes,
            _ => Vec::new(),
        }
    }

    /// A well-formed canvas holds four bytes per pixel, and its size is one tiny-skia accepts.
    pub proof fn lemma_size(&self)
        requires
            self.wf(),
        ensures
            self.bytes().len() == self.spec_width() * self.spec_height() * 4,
            pixmap_size_ok(self.spec_width(), self.spec_height()),
    {
    }

    /// Width in pixels.
    pub fn width(&self) -> (r: u32)
        ensures
            r == self.spec_width(),
    {
        self.width
    }

    /// Height in pixels.
    pub fn height(&self) -> (r: u32)
        ensures
            r == self.spec_height(),
    {
        self.height
    }

    /// The raw RGBA8 bytes.
    pub fn data(&self) -> (r: &Vec<u8>)
        requires
            self.wf(),
        ensures
            r@ == self.bytes(),
            r@.len() == self.spec_width() * self.spec_height() * 4,
            forall|x: int, y: int, c: int|
                self.in_bounds(x, y, c) ==> r@[(y * self.spec_width() + x) * 4 + c] == #[trigger] self.channel(x, y, c),
    {
        &self.data
    }

    /// Gives up the canvas and returns its RGBA8 bytes.
    pub fn into_data(self) -> (r: Vec<u8>)
        requires
            self.wf(),
        ensures
            r@ == self.bytes(),
            r@.len() == self.spec_width() * self.spec_height() * 4,
    {
        self.data
    }
}

} // verus!
