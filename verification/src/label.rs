//! Assembly of a vertical text label: glyph coverage bitmaps are stamped into
//! a single-channel buffer along a common baseline and the buffer is turned a
//! quarter turn counter-clockwise.
use vstd::prelude::*;
use vstd::arithmetic::div_mod::{lemma_fundamental_div_mod, lemma_fundamental_div_mod_converse, lemma_mod_pos_bound};
use crate::canvas::{blit_done, glyph_coverage};

verus! {

/// One rasterized character, placed horizontally.
pub struct Glyph {
    /// Column of the bitmap's left edge in the label buffer.
    pub left: i32,
    /// Distance from the baseline to the bitmap's bottom row (positive = above).
    pub ymin: i32,
    /// Bitmap width in cells.
    pub width: usize,
    /// Bitmap height in cells.
    pub height: usize,
    /// Row-major coverage, one byte per cell; empty for glyphs without ink.
    pub coverage: Vec<u8>,
}

/// A rendered label: a single-channel coverage bitmap of `width` x `height` cells.
pub struct CoverageBitmap {
    pub width: usize,
    pub height: usize,
    pub coverage: Vec<u8>,
}

/// Height of a glyph's top row above the baseline.
pub open spec fn glyph_top(g: Glyph) -> int {
    g.ymin as int + g.height as int
}

/// Highest glyph top among the first `n` glyphs, and never below the baseline.
pub open spec fn ascent_of(gs: Seq<Glyph>, n: int) -> int
    decreases n,
{
    if n <= 0 {
        0
    } else {
        let a = ascent_of(gs, n - 1);
        let t = glyph_top(gs[n - 1]);
        if t > a {
            t
        } else {
            a
        }
    }
}

/// Lowest glyph bottom among the first `n` glyphs, and never above the baseline.
pub open spec fn descent_of(gs: Seq<Glyph>, n: int) -> int
    decreases n,
{
    if n <= 0 {
        0
    } else {
        let d = descent_of(gs, n - 1);
        let b = gs[n - 1].ymin as int;
        if b < d {
            b
        } else {
            d
        }
    }
}

/// Width of the label buffer before the turn: the advance plus a one-cell margin each side.
pub open spec fn label_buffer_width(advance: u32) -> int {
    advance + 2
}

/// Height of the label buffer before the turn: ascent plus descent plus a one-cell margin each side.
pub open spec fn label_buffer_height(gs: Seq<Glyph>) -> int {
    ascent_of(gs, gs.len() as int) - descent_of(gs, gs.len() as int) + 2
}

/// Whether each glyph's coverage is either empty or holds its whole bitmap.
pub open spec fn glyphs_well_formed(gs: Seq<Glyph>) -> bool {
    forall|i: int|
        0 <= i < gs.len() ==> (#[trigger] gs[i]).coverage@.len() == 0 || gs[i].width * gs[i].height
            <= gs[i].coverage@.len()
}

/// Row of the label buffer at which glyph `g`'s bitmap starts, for a buffer whose
/// baseline sits one row below `ascent`.
pub open spec fn glyph_row(g: Glyph, ascent: int) -> int {
    ascent + 1 - glyph_top(g)
}

/// Coverage that glyph `g` lays on buffer cell (`x`, `y`); glyphs without ink lay none.
pub open spec fn glyph_cell(g: Glyph, ascent: int, x: int, y: int) -> u8 {
    if g.coverage@.len() == 0 {
        0
    } else {
        glyph_coverage(g.coverage@, g.width as int, g.height as int, x - g.left, y - glyph_row(g, ascent))
    }
}

pub open spec fn max_u8(a: u8, b: u8) -> u8 {
    if a >= b {
        a
    } else {
        b
    }
}

/// Buffer cell (`x`, `y`) after stamping the first `n` glyphs: overlapping glyphs
/// combine by taking the larger coverage.
pub open spec fn stamped(gs: Seq<Glyph>, n: int, ascent: int, x: int, y: int) -> u8
    decreases n,
{
    if n <= 0 {
        0
    } else {
        max_u8(stamped(gs, n - 1, ascent, x, y), glyph_cell(gs[n - 1], ascent, x, y))
    }
}

/// A `w` x `h` row-major buffer turned a quarter turn counter-clockwise: the result is
/// `h` wide and `w` high, and its cell (`rx`, `ry`) is the source cell (`w - 1 - ry`, `rx`).
pub open spec fn rotate_ccw(s: Seq<u8>, w: int, h: int) -> Seq<u8> {
    Seq::new((w * h) as nat, |i: int| s[(i % h) * w + (w - 1 - i / h)])
}

/// The coverage buffer of a label before the turn, `w` cells wide and `h` high.
pub open spec fn label_buffer(gs: Seq<Glyph>, w: int, h: int) -> Seq<u8> {
    Seq::new(
        (w * h) as nat,
        |i: int| stamped(gs, gs.len() as int, ascent_of(gs, gs.len() as int), i % w, i / w),
    )
}

/// Row-major position (`i % w`, `i / w`) of index `i` in a buffer `w` wide, and back.
proof fn lemma_index_split(i: int, w: int, h: int)
    requires
        0 < w,
        0 <= i < w * h,
    ensures
        0 <= i % w < w,
        0 <= i / w < h,
        (i / w) * w + i % w == i,
{
    lemma_fundamental_div_mod(i, w);
    lemma_mod_pos_bound(i, w);
    assert(0 <= i / w) by (nonlinear_arith)
        requires 0 <= i, 0 < w, i == w * (i / w) + i % w, 0 <= i % w < w;
    assert(i / w < h) by (nonlinear_arith)
        requires i < w * h, 0 < w, i == w * (i / w) + i % w, 0 <= i % w < w;
    assert((i / w) * w == w * (i / w)) by (nonlinear_arith);
}

proof fn lemma_index_join(x: int, y: int, w: int, h: int)
    requires
        0 <= x < w,
        0 <= y < h,
    ensures
        0 <= y * w + x < w * h,
        (y * w + x) % w == x,
        (y * w + x) / w == y,
{
    assert(0 <= y * w + x < w * h) by (nonlinear_arith)
        requires 0 <= x < w, 0 <= y < h;
    lemma_fundamental_div_mod_converse(y * w + x, w, y, x);
}

/// Stamps glyph `g` into `buf` (`bw` x `bh`), cell-wise maximum, with its rows starting at `gy`.
fn stamp_glyph(buf: &mut Vec<u8>, bw: usize, bh: usize, g: &Glyph, gy: i128, Ghost(asc): Ghost<int>, Ghost(gs): Ghost<Seq<Glyph>>, Ghost(k): Ghost<int>)
    requires
        0 < bw,
        0 < bh,
        old(buf)@.len() == bw * bh,
        bw * bh <= usize::MAX,
        -0x1_0000_0000_0000_0000_0000 <= gy <= 0x1_0000_0000_0000_0000_0000,
        0 <= k < gs.len(),
        gs[k] == *g,
        gy == glyph_row(*g, asc),
        g.coverage@.len() == 0 || g.width * g.height <= g.coverage@.len(),
        forall|x: int, y: int|
            0 <= x < bw && 0 <= y < bh ==> #[trigger] old(buf)@[y * bw + x] == stamped(gs, k, asc, x, y),
    ensures
        final(buf)@.len() == bw * bh,
        forall|x: int, y: int|
            0 <= x < bw && 0 <= y < bh ==> #[trigger] final(buf)@[y * bw + x] == stamped(gs, k + 1, asc, x, y),
{
    if g.coverage.len() == 0 {
        assert forall|x: int, y: int| 0 <= x < bw && 0 <= y < bh implies #[trigger] buf@[y * bw + x] == stamped(gs, k + 1, asc, x, y) by {
            assert(glyph_cell(gs[k], asc, x, y) == 0);
        }
        return;
    }
    let clen = g.coverage.len();
    let mut row: usize = 0;
    while row < g.height
        invariant
            0 < bw,
            0 < bh,
            buf@.len() == bw * bh,
            bw * bh <= usize::MAX,
            -0x1_0000_0000_0000_0000_0000 <= gy <= 0x1_0000_0000_0000_0000_0000,
            0 <= k < gs.len(),
            gs[k] == *g,
            gy == glyph_row(*g, asc),
            g.coverage@.len() > 0,
            g.width * g.height <= g.coverage@.len(),
            clen == g.coverage@.len(),
            row <= g.height,
            forall|x: int, y: int|
                0 <= x < bw && 0 <= y < bh ==> #[trigger] buf@[y * bw + x] == max_u8(
                    stamped(gs, k, asc, x, y),
                    if blit_done(x - g.left, y - gy, g.width as int, row as int, 0) {
                        glyph_cell(*g, asc, x, y)
                    } else {
                        0
                    },
                ),
        decreases g.height - row,
    {
        let mut col: usize = 0;
        while col < g.width
            invariant
                0 < bw,
                0 < bh,
                buf@.len() == bw * bh,
                bw * bh <= usize::MAX,
                -0x1_0000_0000_0000_0000_0000 <= gy <= 0x1_0000_0000_0000_0000_0000,
                0 <= k < gs.len(),
                gs[k] == *g,
                gy == glyph_row(*g, asc),
                g.coverage@.len() > 0,
                g.width * g.height <= g.coverage@.len(),
                clen == g.coverage@.len(),
                row < g.height,
                col <= g.width,
                forall|x: int, y: int|
                    0 <= x < bw && 0 <= y < bh ==> #[trigger] buf@[y * bw + x] == max_u8(
                        stamped(gs, k, asc, x, y),
                        if blit_done(x - g.left, y - gy, g.width as int, row as int, col as int) {
                            glyph_cell(*g, asc, x, y)
                        } else {
                            0
                        },
                    ),
            decreases g.width - col,
        {
            assert(row * g.width + col < g.width * g.height) by (nonlinear_arith)
                requires row < g.height, col < g.width;
            let src = g.coverage[row * g.width + col];
            let dx: i128 = g.left as i128 + col as i128;
            let dy: i128 = gy + row as i128;
            let ghost pre = buf@;
            if dx >= 0 && dy >= 0 && dx < bw as i128 && dy < bh as i128 {
                let tx = dx as usize;
                let ty = dy as usize;
                proof {
                    lemma_index_join(tx as int, ty as int, bw as int, bh as int);
                }
                let idx = ty * bw + tx;
                let cur = buf[idx];
                let v = if cur >= src { cur } else { src };
                buf.set(idx, v);
                assert forall|x: int, y: int|
                    0 <= x < bw && 0 <= y < bh implies #[trigger] buf@[y * bw + x] == max_u8(
                        stamped(gs, k, asc, x, y),
                        if blit_done(x - g.left, y - gy, g.width as int, row as int, col + 1) {
                            glyph_cell(*g, asc, x, y)
                        } else {
                            0
                        },
                    ) by {
                    lemma_index_join(x, y, bw as int, bh as int);
                    if x == tx && y == ty {
                        assert(glyph_cell(*g, asc, x, y) == src);
                    } else {
                        assert(y * bw + x != idx) by {
                            lemma_index_join(x, y, bw as int, bh as int);
                            lemma_index_join(tx as int, ty as int, bw as int, bh as int);
                        }
                        assert(buf@[y * bw + x] == pre[y * bw + x]);
                    }
                }
            } else {
                assert forall|x: int, y: int|
                    0 <= x < bw && 0 <= y < bh implies #[trigger] buf@[y * bw + x] == max_u8(
                        stamped(gs, k, asc, x, y),
                        if blit_done(x - g.left, y - gy, g.width as int, row as int, col + 1) {
                            glyph_cell(*g, asc, x, y)
                        } else {
                            0
                        },
                    ) by {
                    assert(!(x - g.left == col && y - gy == row));
                }
            }
            col += 1;
        }
        row += 1;
    }
    assert forall|x: int, y: int| 0 <= x < bw && 0 <= y < bh implies #[trigger] buf@[y * bw + x] == stamped(gs, k + 1, asc, x, y) by {
        if !blit_done(x - g.left, y - gy, g.width as int, g.height as int, 0) {
            assert(glyph_cell(*g, asc, x, y) == 0);
        }
    }
}

/// Two quarter turns make a half turn: the buffer read back to front.
pub proof fn law_rotate_twice_reverses(s: Seq<u8>, w: int, h: int)
    requires
        0 < w,
        0 < h,
        s.len() == w * h,
    ensures
        rotate_ccw(rotate_ccw(s, w, h), h, w) == s.reverse(),
{
    let t = rotate_ccw(s, w, h);
    let u = rotate_ccw(t, h, w);
    assert(h * w == w * h) by (nonlinear_arith);
    assert forall|j: int| 0 <= j < w * h implies u[j] == s[s.len() - 1 - j] by {
        lemma_index_split(j, w, h);
        let a = j % w;
        let b = j / w;
        let k = a * h + (h - 1 - b);
        lemma_index_join(h - 1 - b, a, h, w);
        assert(k % h == h - 1 - b && k / h == a);
        lemma_index_join(w - 1 - a, h - 1 - b, w, h);
        assert((h - 1 - b) * w + (w - 1 - a) == w * h - 1 - (b * w + a)) by (nonlinear_arith);
    }
    assert(u =~= s.reverse());
}

/// Four quarter turns give the buffer back unchanged.
pub proof fn law_rotate_four_times_identity(s: Seq<u8>, w: int, h: int)
    requires
        0 < w,
        0 < h,
        s.len() == w * h,
    ensures
        rotate_ccw(rotate_ccw(rotate_ccw(rotate_ccw(s, w, h), h, w), w, h), h, w) == s,
{
    law_rotate_twice_reverses(s, w, h);
    let r = s.reverse();
    assert(r.len() == w * h);
    law_rotate_twice_reverses(r, w, h);
    assert(r.reverse() =~= s);
}

/// A quarter turn keeps every cell: cell (`x`, `y`) of the source is cell
/// (`y`, `w - 1 - x`) of the result.
pub proof fn law_rotate_moves_cells(s: Seq<u8>, w: int, h: int, x: int, y: int)
    requires
        0 < w,
        0 < h,
        s.len() == w * h,
        0 <= x < w,
        0 <= y < h,
    ensures
        rotate_ccw(s, w, h).len() == s.len(),
        rotate_ccw(s, w, h)[(w - 1 - x) * h + y] == s[y * w + x],
{
    lemma_index_join(y, w - 1 - x, h, w);
    assert(h * w == w * h) by (nonlinear_arith);
}

/// Overlapping glyphs combine by maximum, so the order in which two glyphs are
/// stamped does not matter.
pub proof fn law_stamp_order_irrelevant(gs: Seq<Glyph>, a: Glyph, b: Glyph, ascent: int, x: int, y: int)
    ensures
        stamped(gs.push(a).push(b), gs.len() + 2int, ascent, x, y) == stamped(
            gs.push(b).push(a),
            gs.len() + 2int,
            ascent,
            x,
            y,
        ),
{
    let n = gs.len() as int;
    let g1 = gs.push(a).push(b);
    let g2 = gs.push(b).push(a);
    lemma_stamped_prefix(g1, gs, n, ascent, x, y);
    lemma_stamped_prefix(g2, gs, n, ascent, x, y);
    assert(g1[n] == a && g1[n + 1] == b);
    assert(g2[n] == b && g2[n + 1] == a);
    assert(stamped(g1, n + 1, ascent, x, y) == max_u8(stamped(g1, n, ascent, x, y), glyph_cell(a, ascent, x, y)));
    assert(stamped(g1, n + 2, ascent, x, y) == max_u8(stamped(g1, n + 1, ascent, x, y), glyph_cell(b, ascent, x, y)));
    assert(stamped(g2, n + 1, ascent, x, y) == max_u8(stamped(g2, n, ascent, x, y), glyph_cell(b, ascent, x, y)));
    assert(stamped(g2, n + 2, ascent, x, y) == max_u8(stamped(g2, n + 1, ascent, x, y), glyph_cell(a, ascent, x, y)));
}

/// Stamping the same glyph twice in a row leaves the buffer as stamping it once.
pub proof fn law_stamp_idempotent(gs: Seq<Glyph>, a: Glyph, ascent: int, x: int, y: int)
    ensures
        stamped(gs.push(a).push(a), gs.len() + 2int, ascent, x, y) == stamped(
            gs.push(a),
            gs.len() + 1int,
            ascent,
            x,
            y,
        ),
{
    let n = gs.len() as int;
    let g1 = gs.push(a).push(a);
    let g2 = gs.push(a);
    lemma_stamped_prefix(g1, gs, n, ascent, x, y);
    lemma_stamped_prefix(g2, gs, n, ascent, x, y);
    assert(g1[n] == a && g1[n + 1] == a && g2[n] == a);
    assert(stamped(g1, n + 1, ascent, x, y) == max_u8(stamped(g1, n, ascent, x, y), glyph_cell(a, ascent, x, y)));
    assert(stamped(g1, n + 2, ascent, x, y) == max_u8(stamped(g1, n + 1, ascent, x, y), glyph_cell(a, ascent, x, y)));
    assert(stamped(g2, n + 1, ascent, x, y) == max_u8(stamped(g2, n, ascent, x, y), glyph_cell(a, ascent, x, y)));
}

proof fn lemma_stamped_prefix(big: Seq<Glyph>, small: Seq<Glyph>, n: int, ascent: int, x: int, y: int)
    requires
        0 <= n <= small.len(),
        small.len() <= big.len(),
        forall|i: int| 0 <= i < small.len() ==> big[i] == small[i],
    ensures
        stamped(big, n, ascent, x, y) == stamped(small, n, ascent, x, y),
    decreases n,
{
    if n > 0 {
        lemma_stamped_prefix(big, small, n - 1, ascent, x, y);
    }
}

proof fn lemma_extent_covers(gs: Seq<Glyph>, n: int, k: int)
    requires
        0 <= k < n <= gs.len(),
    ensures
        glyph_top(gs[k]) <= ascent_of(gs, n),
        descent_of(gs, n) <= gs[k].ymin,
        ascent_of(gs, n) >= 0,
        descent_of(gs, n) <= 0,
    decreases n,
{
    if k < n - 1 {
        lemma_extent_covers(gs, n - 1, k);
    } else {
        if n - 1 > 0 {
            lemma_extent_signs(gs, n - 1);
        }
    }
}

proof fn lemma_extent_signs(gs: Seq<Glyph>, n: int)
    requires
        0 <= n <= gs.len(),
    ensures
        ascent_of(gs, n) >= 0,
        descent_of(gs, n) <= 0,
    decreases n,
{
    if n > 0 {
        lemma_extent_signs(gs, n - 1);
    }
}

proof fn lemma_stamped_at_least(gs: Seq<Glyph>, n: int, k: int, ascent: int, x: int, y: int)
    requires
        0 <= k < n,
    ensures
        stamped(gs, n, ascent, x, y) >= glyph_cell(gs[k], ascent, x, y),
    decreases n,
{
    if k < n - 1 {
        lemma_stamped_at_least(gs, n - 1, k, ascent, x, y);
    }
}

/// A label keeps every inked glyph cell that falls inside it: the unturned buffer is
/// `advance + 2` cells wide and `ascent - descent + 2` high, the bitmap of glyph `k` starts
/// at column `left` and at row `ascent + 1 - top`, and its cell (`col`, `row`), landing at
/// buffer cell (x, y), shows up in the turned bitmap at index `(advance + 1 - x) * height + y`
/// with at least its own coverage, for every column x in `[0, advance + 2)`.
pub proof fn law_label_keeps_glyph_cells(gs: Seq<Glyph>, advance: u32, k: int, col: int, row: int)
    requires
        glyphs_well_formed(gs),
        0 <= k < gs.len(),
        gs[k].coverage@.len() > 0,
        0 <= col < gs[k].width,
        0 <= row < gs[k].height,
        0 <= gs[k].left + col < advance + 2,
    ensures
        ({
            let n = gs.len() as int;
            let h = ascent_of(gs, n) - descent_of(gs, n) + 2;
            let out = rotate_ccw(
                label_buffer(gs, label_buffer_width(advance), label_buffer_height(gs)),
                label_buffer_width(advance),
                label_buffer_height(gs),
            );
            let x = gs[k].left + col;
            let y = ascent_of(gs, n) + 1 - (gs[k].ymin + gs[k].height) + row;
            &&& 0 <= y < h
            &&& out.len() == (advance + 2) * h
            &&& out[(advance + 1 - x) * h + y] >= gs[k].coverage@[row * gs[k].width + col]
        }),
{
    let n = gs.len() as int;
    let g = gs[k];
    lemma_extent_covers(gs, n, k);
    let asc = ascent_of(gs, n);
    let h = asc - descent_of(gs, n) + 2;
    let w = advance + 2;
    let x = g.left + col;
    let y = asc + 1 - (g.ymin + g.height) + row;
    assert(0 <= y < h);
    assert(label_buffer_width(advance) == w);
    assert(label_buffer_height(gs) == h);
    let buf = label_buffer(gs, w, h);
    assert(buf.len() == w * h);
    lemma_index_join(x, y, w, h);
    assert(buf[y * w + x] == stamped(gs, n, asc, x, y));
    law_rotate_moves_cells(buf, w, h, x, y);
    assert(h * w == w * h) by (nonlinear_arith);
    lemma_stamped_at_least(gs, n, k, asc, x, y);
    assert(x - g.left == col && y - glyph_row(g, asc) == row);
    assert(glyph_cell(g, asc, x, y) == g.coverage@[row * g.width + col]);
}

/// The label's extent is the tightest one around its glyphs and the baseline: the ascent is
/// at least every glyph's top and at least 0, and is 0 or some glyph's top; the descent is
/// at most every glyph's bottom and at most 0, and is 0 or some glyph's bottom.
pub proof fn law_label_extent_is_tight(gs: Seq<Glyph>)
    ensures
        ({
            let n = gs.len() as int;
            &&& ascent_of(gs, n) >= 0
            &&& descent_of(gs, n) <= 0
            &&& forall|k: int| 0 <= k < n ==> gs[k].ymin + gs[k].height <= ascent_of(gs, n)
            &&& forall|k: int| 0 <= k < n ==> descent_of(gs, n) <= gs[k].ymin
            &&& ascent_of(gs, n) == 0 || exists|k: int| 0 <= k < n && ascent_of(gs, n) == gs[k].ymin + gs[k].height
            &&& descent_of(gs, n) == 0 || exists|k: int| 0 <= k < n && descent_of(gs, n) == gs[k].ymin
        }),
{
    lemma_extent_tight(gs, gs.len() as int);
}

proof fn lemma_extent_tight(gs: Seq<Glyph>, n: int)
    requires
        0 <= n <= gs.len(),
    ensures
        ascent_of(gs, n) >= 0,
        descent_of(gs, n) <= 0,
        forall|k: int| 0 <= k < n ==> gs[k].ymin + gs[k].height <= ascent_of(gs, n),
        forall|k: int| 0 <= k < n ==> descent_of(gs, n) <= gs[k].ymin,
        ascent_of(gs, n) == 0 || exists|k: int| 0 <= k < n && ascent_of(gs, n) == gs[k].ymin + gs[k].height,
        descent_of(gs, n) == 0 || exists|k: int| 0 <= k < n && descent_of(gs, n) == gs[k].ymin,
    decreases n,
{
    if n > 0 {
        lemma_extent_tight(gs, n - 1);
        if ascent_of(gs, n - 1) != 0 && ascent_of(gs, n) == ascent_of(gs, n - 1) {
            let k = choose|k: int| 0 <= k < n - 1 && ascent_of(gs, n - 1) == gs[k].ymin + gs[k].height;
            assert(0 <= k < n && ascent_of(gs, n) == gs[k].ymin + gs[k].height);
        }
        if ascent_of(gs, n) != ascent_of(gs, n - 1) {
            assert(ascent_of(gs, n) == gs[n - 1].ymin + gs[n - 1].height);
        }
        if descent_of(gs, n - 1) != 0 && descent_of(gs, n) == descent_of(gs, n - 1) {
            let k = choose|k: int| 0 <= k < n - 1 && descent_of(gs, n - 1) == gs[k].ymin;
            assert(0 <= k < n && descent_of(gs, n) == gs[k].ymin);
        }
        if descent_of(gs, n) != descent_of(gs, n - 1) {
            assert(descent_of(gs, n) == gs[n - 1].ymin);
        }
    }
}

/// Every label cell comes from the glyphs: it is 0, or it is the coverage some glyph lays on
/// it, and no glyph lays more on it (overlaps keep the strongest coverage).
pub proof fn law_label_cell_is_strongest_glyph(gs: Seq<Glyph>, ascent: int, x: int, y: int)
    ensures
        ({
            let n = gs.len() as int;
            let v = stamped(gs, n, ascent, x, y);
            &&& forall|k: int| 0 <= k < n ==> glyph_cell(#[trigger] gs[k], ascent, x, y) <= v
            &&& v == 0 || exists|k: int| 0 <= k < n && v == glyph_cell(#[trigger] gs[k], ascent, x, y)
        }),
{
    lemma_stamped_strongest(gs, gs.len() as int, ascent, x, y);
}

proof fn lemma_stamped_strongest(gs: Seq<Glyph>, n: int, ascent: int, x: int, y: int)
    requires
        0 <= n <= gs.len(),
    ensures
        forall|k: int| 0 <= k < n ==> glyph_cell(#[trigger] gs[k], ascent, x, y) <= stamped(gs, n, ascent, x, y),
        stamped(gs, n, ascent, x, y) == 0 || exists|k: int| 0 <= k < n && stamped(gs, n, ascent, x, y) == glyph_cell(#[trigger] gs[k], ascent, x, y),
    decreases n,
{
    if n > 0 {
        lemma_stamped_strongest(gs, n - 1, ascent, x, y);
        let prev = stamped(gs, n - 1, ascent, x, y);
        let cur = glyph_cell(gs[n - 1], ascent, x, y);
        if prev >= cur {
            if prev != 0 {
                let k = choose|k: int| 0 <= k < n - 1 && prev == glyph_cell(#[trigger] gs[k], ascent, x, y);
                assert(0 <= k < n && stamped(gs, n, ascent, x, y) == glyph_cell(gs[k], ascent, x, y));
            }
        } else {
            assert(stamped(gs, n, ascent, x, y) == glyph_cell(gs[n - 1], ascent, x, y));
        }
    }
}

fn zeroed(n: usize) -> (r: Vec<u8>)
    ensures
        r@ == Seq::new(n as nat, |i: int| 0u8),
{
    let mut v: Vec<u8> = Vec::new();
    let mut i: usize = 0;
    while i < n
        invariant
            i <= n,
            v@ == Seq::new(i as nat, |j: int| 0u8),
        decreases n - i,
    {
        v.push(0);
        i += 1;
    }
    v
}

/// Turns a `w` x `h` row-major buffer a quarter turn counter-clockwise; the result
/// is `h` wide and `w` high.
pub fn rotate_quarter_ccw(buf: &Vec<u8>, w: usize, h: usize) -> (r: Vec<u8>)
    requires
        0 < w,
        0 < h,
        buf@.len() == w * h,
    ensures
        r@ == rotate_ccw(buf@, w as int, h as int),
{
    let n = buf.len();
    let mut out: Vec<u8> = Vec::new();
    let mut i: usize = 0;
    while i < n
        invariant
            0 < w,
            0 < h,
            n == w * h,
            buf@.len() == w * h,
            i <= n,
            out@ == rotate_ccw(buf@, w as int, h as int).take(i as int),
        decreases n - i,
    {
        proof {
            assert(n == h * w) by (nonlinear_arith)
                requires n == w * h;
            lemma_index_split(i as int, h as int, w as int);
            lemma_index_join((w - 1 - i / h) as int, (i % h) as int, w as int, h as int);
        }
        let src = (i % h) * w + (w - 1 - i / h);
        out.push(buf[src]);
        i += 1;
        assert(out@ =~= rotate_ccw(buf@, w as int, h as int).take(i as int));
    }
    assert(out@ =~= rotate_ccw(buf@, w as int, h as int));
    out
}

/// Renders a vertical label: the glyphs are stamped (cell-wise maximum) into a buffer
/// `advance + 2` cells wide and `ascent - descent + 2` high whose baseline is one row
/// below the ascent, and the buffer is turned a quarter turn counter-clockwise.
/// `None` when that buffer's cell count does not fit a `usize`.
pub fn render_rotated_label(glyphs: &Vec<Glyph>, advance: u32) -> (r: Option<CoverageBitmap>)
    requires
        glyphs_well_formed(glyphs@),
    ensures
        r is None <==> label_buffer_width(advance) * label_buffer_height(glyphs@) > usize::MAX,
        r is None <==> (advance + 2) * (ascent_of(glyphs@, glyphs@.len() as int) - descent_of(
            glyphs@,
            glyphs@.len() as int,
        ) + 2) > usize::MAX,
        r matches Some(b) ==> {
            &&& b.width == label_buffer_height(glyphs@)
            &&& b.height == label_buffer_width(advance)
            &&& b.height == advance + 2
            &&& b.coverage@.len() == (advance + 2) * b.width
            &&& b.coverage@ == rotate_ccw(
                label_buffer(glyphs@, label_buffer_width(advance), label_buffer_height(glyphs@)),
                label_buffer_width(advance),
                label_buffer_height(glyphs@),
            )
        },
{
    let ghost gs = glyphs@;
    let n = glyphs.len();
    let mut ascent: i128 = 0;
    let mut descent: i128 = 0;
    let mut i: usize = 0;
    while i < n
        invariant
            n == gs.len(),
            gs == glyphs@,
            i <= n,
            ascent == ascent_of(gs, i as int),
            descent == descent_of(gs, i as int),
            0 <= ascent <= 0x1_0000_0001_0000_0000,
            i32::MIN <= descent <= 0,
        decreases n - i,
    {
        let top: i128 = glyphs[i].ymin as i128 + glyphs[i].height as i128;
        if top > ascent {
            ascent = top;
        }
        let bottom: i128 = glyphs[i].ymin as i128;
        if bottom < descent {
            descent = bottom;
        }
        i += 1;
    }
    let bh128: i128 = ascent - descent + 2;
    let bw128: i128 = advance as i128 + 2;
    assert(bw128 * bh128 <= 0x10_0000_0000_0000_0000_0000_0000) by (nonlinear_arith)
        requires 0 < bw128 <= 0x1_0000_0002, 0 < bh128 <= 0x2_0000_0002_0000_0000;
    if bw128 * bh128 > usize::MAX as i128 {
        return None;
    }
    assert(bh128 <= bw128 * bh128 && bw128 <= bw128 * bh128) by (nonlinear_arith)
        requires 0 < bw128, 0 < bh128;
    let bw = bw128 as usize;
    let bh = bh128 as usize;
    let mut buf = zeroed(bw * bh);
    let ghost asc = ascent as int;
    assert forall|x: int, y: int| 0 <= x < bw && 0 <= y < bh implies #[trigger] buf@[y * bw + x] == stamped(gs, 0, asc, x, y) by {
        lemma_index_join(x, y, bw as int, bh as int);
    }
    let mut k: usize = 0;
    while k < n
        invariant
            n == gs.len(),
            gs == glyphs@,
            glyphs_well_formed(gs),
            0 <= ascent <= 0x1_0000_0001_0000_0000,
            asc == ascent,
            asc == ascent_of(gs, n as int),
            0 < bw,
            0 < bh,
            bw * bh <= usize::MAX,
            buf@.len() == bw * bh,
            k <= n,
            forall|x: int, y: int|
                0 <= x < bw && 0 <= y < bh ==> #[trigger] buf@[y * bw + x] == stamped(gs, k as int, asc, x, y),
        decreases n - k,
    {
        let g = &glyphs[k];
        assert(gs[k as int] == *g);
        let top: i128 = g.ymin as i128 + g.height as i128;
        let gy: i128 = ascent + 1 - top;
        stamp_glyph(&mut buf, bw, bh, g, gy, Ghost(asc), Ghost(gs), Ghost(k as int));
        k += 1;
    }
    assert(buf@ =~= label_buffer(gs, bw as int, bh as int)) by {
        assert forall|i: int| 0 <= i < bw * bh implies buf@[i] == label_buffer(gs, bw as int, bh as int)[i] by {
            lemma_index_split(i, bw as int, bh as int);
            let x = i % (bw as int);
            let y = i / (bw as int);
            assert(buf@[y * bw + x] == stamped(gs, n as int, asc, x, y));
        }
    }
    let coverage = rotate_quarter_ccw(&buf, bw, bh);
    Some(CoverageBitmap { width: bh, height: bw, coverage })
}

} // verus!
