//! Grayscale height maps that regions are generated from, and their
//! smoothing.
use vstd::prelude::*;

verus! {

/// A grayscale image of `width` × `height` pixels, stored row by row: the
/// pixel at (x, y) is at `y * width + x`.
pub struct GrayImage {
    pub width: u32,
    pub height: u32,
    pub pixels: Vec<u8>,
}

/// The position of pixel (x, y) in an image `w` pixels wide.
pub open spec fn at(w: int, x: int, y: int) -> int {
    y * w + x
}

/// The sum of the eight pixels around (x, y).
pub open spec fn sum8(px: Seq<u8>, w: int, x: int, y: int) -> int {
    px[at(w, x + 1, y)] + px[at(w, x, y + 1)] + px[at(w, x + 1, y + 1)] + px[at(w, x - 1, y)]
        + px[at(w, x, y - 1)] + px[at(w, x - 1, y - 1)] + px[at(w, x + 1, y - 1)] + px[at(w, x - 1, y + 1)]
}

/// The pixels after pixel (x, y) takes the mean of the eight around it.
pub open spec fn smooth_cell(px: Seq<u8>, w: int, x: int, y: int) -> Seq<u8> {
    px.update(at(w, x, y), (sum8(px, w, x, y) / 8) as u8)
}

/// The pixels after the pixels (x, 1) to (x, y_end - 1) are smoothed in turn.
pub open spec fn smooth_column(px: Seq<u8>, w: int, x: int, y_end: int) -> Seq<u8>
    decreases y_end,
{
    if y_end <= 1 {
        px
    } else {
        smooth_cell(smooth_column(px, w, x, y_end - 1), w, x, y_end - 1)
    }
}

/// The pixels after the columns 1 to x_end - 1 are smoothed in turn, each
/// from row 1 to row h - 2.
pub open spec fn smooth_columns(px: Seq<u8>, w: int, h: int, x_end: int) -> Seq<u8>
    decreases x_end,
{
    if x_end <= 1 {
        px
    } else {
        smooth_column(smooth_columns(px, w, h, x_end - 1), w, x_end - 1, h - 1)
    }
}

/// The pixels of an image `w` × `h` once smoothed: every pixel off the
/// border, column by column, takes the mean of its eight neighbors as they
/// are at that moment.
pub open spec fn smoothed(px: Seq<u8>, w: int, h: int) -> Seq<u8> {
    smooth_columns(px, w, h, w - 1)
}

/// A pixel off the border and its neighbors lie in the image.
proof fn lemma_around_in(w: int, h: int, x: int, y: int)
    requires
        1 <= x < w - 1,
        1 <= y < h - 1,
    ensures
        0 <= at(w, x - 1, y - 1),
        at(w, x + 1, y + 1) < w * h,
        at(w, x - 1, y - 1) <= at(w, x, y - 1) <= at(w, x + 1, y - 1) <= at(w, x - 1, y) <= at(w, x, y)
            <= at(w, x + 1, y) <= at(w, x - 1, y + 1) <= at(w, x, y + 1) <= at(w, x + 1, y + 1),
{
    assert(0 <= (y - 1) * w) by (nonlinear_arith)
        requires y >= 1, w >= 0;
    assert((y + 1) * w + x + 1 < w * h) by (nonlinear_arith)
        requires y + 1 < h, x + 1 < w, w > 0;
    assert((y - 1) * w + w == y * w) by (nonlinear_arith);
    assert(y * w + w == (y + 1) * w) by (nonlinear_arith);
}

impl GrayImage {
    /// The pixels are those of a `width` × `height` image.
    pub open spec fn wf(&self) -> bool {
        self.pixels@.len() == self.width * self.height
    }
}

/// Smooths the image in place: every pixel off the border, column by
/// column and top to bottom, takes the mean of its eight neighbors, read
/// after the pixels before it were smoothed.
pub fn smooth(heightmap: &mut GrayImage)
    requires
        old(heightmap).wf(),
        old(heightmap).width >= 1,
        old(heightmap).height >= 1,
    ensures
        final(heightmap).wf(),
        final(heightmap).width == old(heightmap).width,
        final(heightmap).height == old(heightmap).height,
        final(heightmap).pixels@ == smoothed(old(heightmap).pixels@, old(heightmap).width as int,
            old(heightmap).height as int),
{
    let w = heightmap.width;
    let h = heightmap.height;
    let ghost px0 = heightmap.pixels@;
    let ghost wi = w as int;
    let ghost hi = h as int;
    let n = heightmap.pixels.len();
    let mut x: u32 = 1;
    while x < w - 1
        invariant
            w == heightmap.width,
            h == heightmap.height,
            wi == w,
            hi == h,
            w >= 1,
            h >= 1,
            1 <= x,
            x <= w - 1 || w - 1 < 1,
            w - 1 < 1 ==> x == 1,
            heightmap.pixels@.len() == wi * hi,
            n == wi * hi,
            heightmap.pixels@ == smooth_columns(px0, wi, hi, x as int),
        decreases w - x,
    {
        let ghost start = heightmap.pixels@;
        let mut y: u32 = 1;
        while y < h - 1
            invariant
                w == heightmap.width,
                h == heightmap.height,
                wi == w,
                hi == h,
                1 <= x < w - 1,
                1 <= y,
                w >= 1,
                h >= 1,
                y <= h - 1 || h - 1 < 1,
                h - 1 < 1 ==> y == 1,
                heightmap.pixels@.len() == wi * hi,
                n == wi * hi,
                heightmap.pixels@ == smooth_column(start, wi, x as int, y as int),
            decreases h - y,
        {
            proof {
                lemma_around_in(wi, hi, x as int, y as int);
            }
            let xs = x as usize;
            let ys = y as usize;
            let ws = w as usize;
            let ghost p = heightmap.pixels@;
            let sum = heightmap.pixels[(ys * ws + xs + 1) as usize] as u32
                + heightmap.pixels[((ys + 1) * ws + xs) as usize] as u32
                + heightmap.pixels[((ys + 1) * ws + xs + 1) as usize] as u32
                + heightmap.pixels[(ys * ws + xs - 1) as usize] as u32
                + heightmap.pixels[((ys - 1) * ws + xs) as usize] as u32
                + heightmap.pixels[((ys - 1) * ws + xs - 1) as usize] as u32
                + heightmap.pixels[((ys - 1) * ws + xs + 1) as usize] as u32
                + heightmap.pixels[((ys + 1) * ws + xs - 1) as usize] as u32;
            proof {
                assert(sum == sum8(p, wi, x as int, y as int));
            }
            heightmap.pixels.set(ys * ws + xs, (sum / 8) as u8);
            proof {
                assert(heightmap.pixels@ == smooth_cell(p, wi, x as int, y as int));
            }
            y = y + 1;
        }
        proof {
            if hi - 1 < 1 {
                assert(smooth_column(start, wi, x as int, y as int) == start);
                assert(smooth_column(start, wi, x as int, hi - 1) == start);
            }
            assert(smooth_columns(px0, wi, hi, x + 1) == smooth_column(smooth_columns(px0, wi, hi, x as int), wi, x as int, hi - 1));
        }
        x = x + 1;
    }
    proof {
        if wi - 1 < 1 {
            assert(smooth_columns(px0, wi, hi, x as int) == px0);
            assert(smooth_columns(px0, wi, hi, wi - 1) == px0);
        }
    }
}

} // verus!

verus! {

/// The pixels with each one below `min` raised to `min`.
pub open spec fn raised(px: Seq<u8>, min: u8) -> Seq<u8> {
    Seq::new(px.len(), |i: int| if px[i] < min { min } else { px[i] })
}

/// Raises every pixel below `min` to `min`.
pub fn raise_to(heightmap: &mut GrayImage, min: u8)
    ensures
        final(heightmap).width == old(heightmap).width,
        final(heightmap).height == old(heightmap).height,
        final(heightmap).pixels@ == raised(old(heightmap).pixels@, min),
{
    let mut i: usize = 0;
    while i < heightmap.pixels.len()
        invariant
            i <= heightmap.pixels@.len(),
            heightmap.pixels@.len() == old(heightmap).pixels@.len(),
            heightmap.width == old(heightmap).width,
            heightmap.height == old(heightmap).height,
            forall|k: int| 0 <= k < i ==> #[trigger] heightmap.pixels@[k] == raised(old(heightmap).pixels@, min)[k],
            forall|k: int| i <= k < heightmap.pixels@.len() ==> #[trigger] heightmap.pixels@[k] == old(heightmap).pixels@[k],
        decreases heightmap.pixels@.len() - i,
    {
        if heightmap.pixels[i] < min {
            heightmap.pixels.set(i, min);
        }
        i = i + 1;
    }
    proof {
        assert(heightmap.pixels@ =~= raised(old(heightmap).pixels@, min));
    }
}

} // verus!
