use vstd::arithmetic::div_mod::{
    lemma_div_by_multiple, lemma_div_is_ordered, lemma_fundamental_div_mod,
    lemma_fundamental_div_mod_converse,
};
use vstd::prelude::*;

verus! {

/// Luminance of white in the fixed-point unit used by `BlockSample::lum`.
pub const LUM_MAX: u32 = 2550000;

/// An RGB raster: `width * height` pixels, three bytes each, row-major.
pub struct RgbImage {
    width: u32,
    height: u32,
    data: Vec<u8>,
}

/// The ratio `num / den` of character height to width; block sizing needs
/// both parts positive.
#[derive(Clone, Copy, Debug, PartialEq, Eq)]
pub struct AspectRatio {
    pub num: u32,
    pub den: u32,
}

/// The average colour of a block and its luminance.
///
/// `lum` is in units of 1/10000: white is `LUM_MAX`, i.e. 255.0.
#[derive(Clone, Copy, Debug, PartialEq, Eq)]
pub struct BlockSample {
    pub r: u8,
    pub g: u8,
    pub b: u8,
    pub lum: u32,
}

impl AspectRatio {
    pub open spec fn is_positive_spec(&self) -> bool {
        self.num > 0 && self.den > 0
    }

    /// Whether the ratio is a positive number.
    pub fn is_positive(&self) -> (r: bool)
        ensures
            r == self.is_positive_spec(),
    {
        self.num > 0 && self.den > 0
    }
}

/// BT.709 luminance of a colour, scaled by 10000.
pub open spec fn luminance(r: int, g: int, b: int) -> int {
    2126 * r + 7152 * g + 722 * b
}

/// `n / d` rounded to the nearest integer, halves rounded up.
pub open spec fn round_div(n: int, d: int) -> int {
    (2 * n + d) / (2 * d)
}

/// `n / d` rounded up.
pub open spec fn ceil_div(n: int, d: int) -> int {
    (n + d - 1) / d
}

/// `x`, but at least 1.
pub open spec fn max1(x: int) -> int {
    if x < 1 { 1 } else { x }
}

/// Block width: `max(1, image_width / char_width)`, rounded.
pub open spec fn block_width_spec(image_width: int, char_width: int) -> int {
    max1(round_div(image_width, char_width))
}

/// Block height: `max(1, block_w / aspect)`, rounded, saturated at `u32::MAX`.
pub open spec fn block_height_spec(block_w: int, aspect: AspectRatio) -> int {
    let h = max1(round_div(block_w * aspect.den, aspect.num as int));
    if h > u32::MAX { u32::MAX as int } else { h }
}

/// The sample for an averaged colour: its luminance, or `255 - luminance`
/// when `invert` is set.
pub open spec fn sample_of(r: u8, g: u8, b: u8, invert: bool) -> BlockSample {
    let lum = luminance(r as int, g as int, b as int);
    BlockSample { r, g, b, lum: (if invert { LUM_MAX - lum } else { lum }) as u32 }
}

/// The rows of a block grid, as sequences.
pub open spec fn grid_view(blocks: Seq<Vec<BlockSample>>) -> Seq<Seq<BlockSample>> {
    blocks.map_values(|row: Vec<BlockSample>| row@)
}

/// The grid of blocks of `bw` by `bh` pixels that covers the top-left `w` by
/// `h` pixels of `img`, row-major; the last row and column may be partial.
pub open spec fn sample_grid(img: RgbImage, bw: int, bh: int, w: int, h: int, invert: bool) -> Seq<
    Seq<BlockSample>,
> {
    Seq::new(
        ceil_div(h, bh) as nat,
        |i: int|
            Seq::new(
                ceil_div(w, bw) as nat,
                |j: int| img.block_spec(j * bw, i * bh, bw, bh, invert),
            ),
    )
}

proof fn lemma_grid_shape(img: RgbImage, bw: int, bh: int, w: int, h: int, invert: bool, i: int)
    requires
        0 < bw,
        0 < bh,
        0 <= w,
        0 <= h,
        0 <= i < ceil_div(h, bh),
    ensures
        sample_grid(img, bw, bh, w, h, invert).len() == ceil_div(h, bh),
        sample_grid(img, bw, bh, w, h, invert)[i].len() == ceil_div(w, bw),
        forall|j: int|
            0 <= j < ceil_div(w, bw) ==> #[trigger] sample_grid(img, bw, bh, w, h, invert)[i][j]
                == img.block_spec(j * bw, i * bh, bw, bh, invert),
{
    assert(0 <= ceil_div(w, bw)) by (nonlinear_arith)
        requires
            0 < bw,
            0 <= w,
            ceil_div(w, bw) == (w + bw - 1) / bw,
    ;
}

/// Every sample of a grid has a luminance within `0..=LUM_MAX`.
pub proof fn lemma_grid_lum_bounded(img: RgbImage, bw: int, bh: int, w: int, h: int, invert: bool)
    requires
        0 < bw,
        0 < bh,
        0 <= w,
        0 <= h,
    ensures
        forall|i: int, j: int|
            0 <= i < sample_grid(img, bw, bh, w, h, invert).len() && 0 <= j < sample_grid(
                img,
                bw,
                bh,
                w,
                h,
                invert,
            )[i].len() ==> #[trigger] sample_grid(img, bw, bh, w, h, invert)[i][j].lum <= LUM_MAX,
{
    assert forall|i: int, j: int|
        0 <= i < sample_grid(img, bw, bh, w, h, invert).len() && 0 <= j < sample_grid(
            img,
            bw,
            bh,
            w,
            h,
            invert,
        )[i].len() implies #[trigger] sample_grid(img, bw, bh, w, h, invert)[i][j].lum
        <= LUM_MAX by {
        lemma_grid_shape(img, bw, bh, w, h, invert, i);
    }
}

/// `k` strides of `b` are the fewest that reach `n`.
proof fn lemma_ceil_steps(n: int, b: int, k: int)
    requires
        0 <= n,
        0 < b,
        0 <= k,
        k * b >= n,
        k == 0 || (k - 1) * b < n,
    ensures
        k == ceil_div(n, b),
{
    let q = (n + b - 1) / b;
    let r = (n + b - 1) % b;
    lemma_fundamental_div_mod(n + b - 1, b);
    assert(k == q) by (nonlinear_arith)
        requires
            n + b - 1 == b * q + r,
            0 <= r < b,
            k * b >= n,
            k == 0 || (k - 1) * b < n,
            0 <= n,
            0 < b,
            0 <= k,
    ;
}

impl RgbImage {
    pub closed spec fn wf(&self) -> bool {
        self.data@.len() == 3 * self.width * self.height
    }

    pub closed spec fn width_spec(&self) -> nat {
        self.width as nat
    }

    pub closed spec fn height_spec(&self) -> nat {
        self.height as nat
    }

    /// Channel `c` (0 red, 1 green, 2 blue) of the pixel at column `x`, row `y`.
    pub closed spec fn channel(&self, x: int, y: int, c: int) -> u8 {
        self.data@[3 * (y * self.width + x) + c]
    }

    /// Sum of channel `c` over columns `x0..x1` of row `y`.
    pub closed spec fn row_sum(&self, c: int, y: int, x0: int, x1: int) -> int
        decreases x1 - x0,
    {
        if x1 <= x0 {
            0
        } else {
            self.row_sum(c, y, x0, x1 - 1) + self.channel(x1 - 1, y, c)
        }
    }

    /// Sum of channel `c` over columns `x0..x1` of rows `y0..y1`.
    pub closed spec fn rect_sum(&self, c: int, x0: int, x1: int, y0: int, y1: int) -> int
        decreases y1 - y0,
    {
        if y1 <= y0 {
            0
        } else {
            self.rect_sum(c, x0, x1, y0, y1 - 1) + self.row_sum(c, y1 - 1, x0, x1)
        }
    }

    /// The block at `(x0, y0)` of `w` by `h` pixels, cut at the image's edges.
    pub closed spec fn block_spec(&self, x0: int, y0: int, w: int, h: int, invert: bool) -> BlockSample {
        let x1 = if x0 + w < self.width { x0 + w } else { self.width as int };
        let y1 = if y0 + h < self.height { y0 + h } else { self.height as int };
        let n = (x1 - x0) * (y1 - y0);
        sample_of(
            (self.rect_sum(0, x0, x1, y0, y1) / n) as u8,
            (self.rect_sum(1, x0, x1, y0, y1) / n) as u8,
            (self.rect_sum(2, x0, x1, y0, y1) / n) as u8,
            invert,
        )
    }

    /// Wraps raw row-major RGB bytes; `None` unless there are exactly
    /// three bytes per pixel.
    pub fn from_raw(width: u32, height: u32, data: Vec<u8>) -> (r: Option<RgbImage>)
        ensures
            r is Some <==> data@.len() == 3 * width * height,
            r matches Some(img) ==> img.wf() && img.width_spec() == width && img.height_spec()
                == height && forall|x: int, y: int, c: int|
                0 <= x < width && 0 <= y < height && 0 <= c < 3 ==> #[trigger] img.channel(x, y, c)
                    == data@[3 * (y * width + x) + c],
    {
        proof {
            let (w, h) = (width as int, height as int);
            assert(3 * w * h <= 3 * 0xffff_ffff * 0xffff_ffff) by (nonlinear_arith)
                requires
                    0 <= w <= 0xffff_ffff,
                    0 <= h <= 0xffff_ffff,
            ;
        }
        let n: u128 = 3u128 * (width as u128) * (height as u128);
        if data.len() as u128 == n {
            Some(RgbImage { width, height, data })
        } else {
            None
        }
    }

    pub fn width(&self) -> (r: u32)
        ensures
            r == self.width_spec(),
    {
        self.width
    }

    pub fn height(&self) -> (r: u32)
        ensures
            r == self.height_spec(),
    {
        self.height
    }

    /// The red, green and blue bytes of one pixel.
    pub fn get_pixel(&self, x: u32, y: u32) -> (r: (u8, u8, u8))
        requires
            self.wf(),
            x < self.width_spec(),
            y < self.height_spec(),
        ensures
            r == (self.channel(x as int, y as int, 0), self.channel(x as int, y as int, 1),
                self.channel(x as int, y as int, 2)),
    {
        let len = self.data.len();
        proof {
            let w = self.width as int;
            let h = self.height as int;
            assert(y * w + x < w * h) by (nonlinear_arith)
                requires
                    0 <= x < w,
                    0 <= y < h,
            ;
            assert(3 * (y * w + x) + 2 < 3 * w * h) by (nonlinear_arith)
                requires
                    y * w + x < w * h,
            ;
            assert(y * w <= y * w + x);
        }
        let i: usize = 3 * ((y as usize) * (self.width as usize) + x as usize);
        (self.data[i], self.data[i + 1], self.data[i + 2])
    }
}

/// Averages one block: integer channel sums divided, truncating, by the
/// number of pixels that lie inside the image.
pub fn block_color(img: &RgbImage, x0: u32, y0: u32, w: u32, h: u32, is_invert: bool) -> (s:
    BlockSample)
    requires
        img.wf(),
        x0 < img.width_spec(),
        y0 < img.height_spec(),
        w > 0,
        h > 0,
    ensures
        s == img.block_spec(x0 as int, y0 as int, w as int, h as int, is_invert),
{
    let x_end: u64 = x0 as u64 + w as u64;
    let x1: u32 = if x_end < img.width() as u64 { x_end as u32 } else { img.width() };
    let y_end: u64 = y0 as u64 + h as u64;
    let y1: u32 = if y_end < img.height() as u64 { y_end as u32 } else { img.height() };
    let ghost cols = x1 - x0;
    let mut r_sum: u128 = 0;
    let mut g_sum: u128 = 0;
    let mut b_sum: u128 = 0;
    let mut y: u32 = y0;
    while y < y1
        invariant
            img.wf(),
            x0 < x1 <= img.width_spec(),
            y0 <= y <= y1 <= img.height_spec(),
            cols == x1 - x0,
            r_sum == img.rect_sum(0, x0 as int, x1 as int, y0 as int, y as int),
            g_sum == img.rect_sum(1, x0 as int, x1 as int, y0 as int, y as int),
            b_sum == img.rect_sum(2, x0 as int, x1 as int, y0 as int, y as int),
            r_sum <= 255 * cols * (y - y0),
            g_sum <= 255 * cols * (y - y0),
            b_sum <= 255 * cols * (y - y0),
        decreases y1 - y,
    {
        let ghost done = 255 * cols * (y - y0);
        proof {
            assert(255 * cols * (y - y0) + 255 * cols == 255 * cols * (y + 1 - y0))
                by (nonlinear_arith);
            assert(255 * cols * (y + 1 - y0) <= 255 * 0xffff_ffffu64 * 0xffff_ffffu64)
                by (nonlinear_arith)
                requires
                    cols <= 0xffff_ffff,
                    y + 1 - y0 <= 0xffff_ffff,
                    0 <= y + 1 - y0,
            ;
        }
        let mut x: u32 = x0;
        while x < x1
            invariant
                img.wf(),
                x0 <= x <= x1 <= img.width_spec(),
                y0 <= y < y1 <= img.height_spec(),
                cols == x1 - x0,
                done == 255 * cols * (y - y0),
                done + 255 * cols <= 255 * 0xffff_ffffu64 * 0xffff_ffffu64,
                r_sum == img.rect_sum(0, x0 as int, x1 as int, y0 as int, y as int) + img.row_sum(
                    0,
                    y as int,
                    x0 as int,
                    x as int,
                ),
                g_sum == img.rect_sum(1, x0 as int, x1 as int, y0 as int, y as int) + img.row_sum(
                    1,
                    y as int,
                    x0 as int,
                    x as int,
                ),
                b_sum == img.rect_sum(2, x0 as int, x1 as int, y0 as int, y as int) + img.row_sum(
                    2,
                    y as int,
                    x0 as int,
                    x as int,
                ),
                r_sum <= done + 255 * (x - x0),
                g_sum <= done + 255 * (x - x0),
                b_sum <= done + 255 * (x - x0),
            decreases x1 - x,
        {
            let (pr, pg, pb) = img.get_pixel(x, y);
            r_sum = r_sum + pr as u128;
            g_sum = g_sum + pg as u128;
            b_sum = b_sum + pb as u128;
            x = x + 1;
        }
        y = y + 1;
    }
    proof {
        assert((x1 - x0) * (y1 - y0) <= 0xffff_ffffu64 * 0xffff_ffffu64) by (nonlinear_arith)
            requires
                0 <= x1 - x0 <= 0xffff_ffff,
                0 <= y1 - y0 <= 0xffff_ffff,
        ;
    }
    let n: u128 = (x1 - x0) as u128 * (y1 - y0) as u128;
    proof {
        let ni = n as int;
        assert(0 < ni) by (nonlinear_arith)
            requires
                ni == (x1 - x0) * (y1 - y0),
                x0 < x1,
                y0 < y1,
        ;
        assert(255 * cols * (y1 - y0) == 255 * ni) by (nonlinear_arith)
            requires
                ni == cols * (y1 - y0),
        ;
        lemma_div_is_ordered(r_sum as int, 255 * ni, ni);
        lemma_div_is_ordered(g_sum as int, 255 * ni, ni);
        lemma_div_is_ordered(b_sum as int, 255 * ni, ni);
        lemma_div_by_multiple(255, ni);
    }
    let r = (r_sum / n) as u8;
    let g = (g_sum / n) as u8;
    let b = (b_sum / n) as u8;
    let lum: u32 = 2126 * r as u32 + 7152 * g as u32 + 722 * b as u32;
    let lum = if is_invert { LUM_MAX - lum } else { lum };
    BlockSample { r, g, b, lum }
}

/// Pixel size of the blocks for a rendering `ascii_width` characters wide:
/// `block_w = round(max(1, img_width / ascii_width))` and
/// `block_h = round(max(1, block_w / aspect))`, halves rounded up; `block_h`
/// saturates at `u32::MAX`.
pub fn compute_block_size(img_width: u32, _img_height: u32, ascii_width: u32, aspect: AspectRatio) -> (r: (
    u32,
    u32,
))
    requires
        ascii_width > 0,
        aspect.is_positive_spec(),
    ensures
        r.0 == block_width_spec(img_width as int, ascii_width as int),
        r.1 == block_height_spec(r.0 as int, aspect),
{
    proof {
        let (wi, ti) = (img_width as int, ascii_width as int);
        assert(round_div(wi, ti) <= (if wi < 1 { 1 } else { wi })) by (nonlinear_arith)
            requires
                0 <= wi,
                1 <= ti,
                round_div(wi, ti) == (2 * wi + ti) / (2 * ti),
        ;
    }
    let q: u64 = (2 * img_width as u64 + ascii_width as u64) / (2 * ascii_width as u64);
    let block_w: u32 = if q < 1 { 1 } else { q as u32 };
    proof {
        assert(2 * block_w * aspect.den <= 2 * 0xffff_ffffu64 * 0xffff_ffffu64) by (nonlinear_arith)
            requires
                block_w <= 0xffff_ffff,
                aspect.den <= 0xffff_ffff,
        ;
        assert(2 * block_w * aspect.den == 2 * (block_w * aspect.den)) by (nonlinear_arith);
    }
    let hq: u128 = (2 * block_w as u128 * aspect.den as u128 + aspect.num as u128) / (2
        * aspect.num as u128);
    let block_h: u32 = if hq < 1 {
        1
    } else if hq > u32::MAX as u128 {
        u32::MAX
    } else {
        hq as u32
    };
    (block_w, block_h)
}

/// Samples every block of the `image_w` by `image_h` region at the top left
/// of `img`, striding `block_w` across and `block_h` down from `(0, 0)`.
pub fn sample_image_blocks(
    img: &RgbImage,
    block_w: u32,
    block_h: u32,
    image_w: u32,
    image_h: u32,
    is_invert: bool,
) -> (blocks: Vec<Vec<BlockSample>>)
    requires
        img.wf(),
        block_w > 0,
        block_h > 0,
        image_w <= img.width_spec(),
        image_h <= img.height_spec(),
    ensures
        grid_view(blocks@) == sample_grid(
            *img,
            block_w as int,
            block_h as int,
            image_w as int,
            image_h as int,
            is_invert,
        ),
{
    let ghost grid = sample_grid(
        *img,
        block_w as int,
        block_h as int,
        image_w as int,
        image_h as int,
        is_invert,
    );
    let mut blocks: Vec<Vec<BlockSample>> = Vec::new();
    let mut y: u64 = 0;
    proof {
        assert(blocks@.len() == 0);
        assert(0 * block_h == 0);
    }
    while y < image_h as u64
        invariant
            img.wf(),
            block_w > 0,
            block_h > 0,
            image_w <= img.width_spec(),
            image_h <= img.height_spec(),
            grid == sample_grid(
                *img,
                block_w as int,
                block_h as int,
                image_w as int,
                image_h as int,
                is_invert,
            ),
            y == blocks.len() * block_h,
            y < image_h + block_h,
            blocks.len() == 0 || (blocks.len() - 1) * block_h < image_h,
            blocks.len() <= image_h,
            forall|i: int| 0 <= i < blocks.len() ==> #[trigger] blocks@[i]@ == grid[i],
        decreases image_h + block_h - y,
    {
        let ghost i = blocks.len() as int;
        proof {
            assert(i * block_h < image_h);
            assert(i < ceil_div(image_h as int, block_h as int)) by (nonlinear_arith)
                requires
                    i * block_h < image_h,
                    0 <= i,
                    block_h > 0,
                    ceil_div(image_h as int, block_h as int) == (image_h + block_h - 1) / (block_h as int),
            ;
            assert(i <= i * block_h) by (nonlinear_arith)
                requires
                    0 <= i,
                    block_h > 0,
            ;
            lemma_grid_shape(
                *img,
                block_w as int,
                block_h as int,
                image_w as int,
                image_h as int,
                is_invert,
                i,
            );
            assert(0 * block_w == 0);
        }
        let mut row: Vec<BlockSample> = Vec::new();
        let mut x: u64 = 0;
        while x < image_w as u64
            invariant
                img.wf(),
                block_w > 0,
                block_h > 0,
                image_w <= img.width_spec(),
                y < image_h <= img.height_spec(),
                grid == sample_grid(
                    *img,
                    block_w as int,
                    block_h as int,
                    image_w as int,
                    image_h as int,
                    is_invert,
                ),
                y == i * block_h,
                0 <= i < grid.len(),
                grid[i].len() == ceil_div(image_w as int, block_w as int),
                forall|j: int|
                    0 <= j < ceil_div(image_w as int, block_w as int) ==> #[trigger] grid[i][j]
                        == img.block_spec(j * block_w, i * block_h, block_w as int, block_h as int, is_invert),
                x == row.len() * block_w,
                x < image_w + block_w,
                row.len() == 0 || (row.len() - 1) * block_w < image_w,
                row.len() <= image_w,
                forall|j: int| 0 <= j < row.len() ==> #[trigger] row@[j] == grid[i][j],
            decreases image_w + block_w - x,
        {
            let ghost j = row.len() as int;
            proof {
                assert(j < ceil_div(image_w as int, block_w as int)) by (nonlinear_arith)
                    requires
                        j * block_w < image_w,
                        0 <= j,
                        block_w > 0,
                        ceil_div(image_w as int, block_w as int) == (image_w + block_w - 1)
                            / (block_w as int),
                ;
                assert(j <= j * block_w) by (nonlinear_arith)
                    requires
                        0 <= j,
                        block_w > 0,
                ;
            }
            let block = block_color(img, x as u32, y as u32, block_w, block_h, is_invert);
            proof {
                assert((j + 1) * block_w == j * block_w + block_w) by (nonlinear_arith);
            }
            row.push(block);
            x = x + block_w as u64;
        }
        proof {
            lemma_ceil_steps(image_w as int, block_w as int, row.len() as int);
            assert(row@ =~= grid[i]);
        }
        blocks.push(row);
        proof {
            assert((i + 1) * block_h == i * block_h + block_h) by (nonlinear_arith);
        }
        y = y + block_h as u64;
    }
    proof {
        lemma_ceil_steps(image_h as int, block_h as int, blocks.len() as int);
        assert(grid_view(blocks@) =~= grid);
    }
    blocks
}

/// Rounding `n / d` (halves up) gives the `k` with
/// `k - 1/2 <= n / d < k + 1/2`.
proof fn lemma_round_div_bounds(n: int, d: int)
    requires
        0 <= n,
        0 < d,
    ensures
        2 * round_div(n, d) * d - d <= 2 * n < 2 * round_div(n, d) * d + d,
{
    let k = round_div(n, d);
    lemma_fundamental_div_mod(2 * n + d, 2 * d);
    let r = (2 * n + d) % (2 * d);
    assert(2 * k * d - d <= 2 * n < 2 * k * d + d) by (nonlinear_arith)
        requires
            2 * n + d == (2 * d) * k + r,
            0 <= r < 2 * d,
    ;
}

/// Block sizes are rounded ratios clamped below at one: `block_w` is
/// `image_width / char_width` rounded to the nearest integer (halves up), or
/// 1 when that ratio is below one; `block_h` is `block_w / aspect` rounded the
/// same way, or 1 when that ratio is below one, wherever it fits in a `u32`.
/// Both are at least 1.
pub proof fn lemma_block_size_rounding(image_width: u32, char_width: u32, aspect: AspectRatio)
    requires
        char_width > 0,
        aspect.is_positive_spec(),
    ensures
        ({
            let (w, t) = (image_width as int, char_width as int);
            let bw = block_width_spec(w, t);
            &&& bw >= 1
            &&& w < t ==> bw == 1
            &&& w >= t ==> 2 * bw * t - t <= 2 * w < 2 * bw * t + t
        }),
        ({
            let bw = block_width_spec(image_width as int, char_width as int);
            let (num, den) = (aspect.num as int, aspect.den as int);
            let bh = block_height_spec(bw, aspect);
            &&& bh >= 1
            &&& bw * den < num ==> bh == 1
            &&& bw * den >= num && max1(round_div(bw * den, num)) <= u32::MAX ==> 2 * bh * num
                - num <= 2 * bw * den < 2 * bh * num + num
        }),
{
    let (w, t) = (image_width as int, char_width as int);
    lemma_round_div_bounds(w, t);
    let k = round_div(w, t);
    if w < t {
        assert(k <= 1) by (nonlinear_arith)
            requires
                2 * k * t - t <= 2 * w,
                w < t,
                0 < t,
        ;
    } else {
        assert(k >= 1) by (nonlinear_arith)
            requires
                2 * w < 2 * k * t + t,
                w >= t,
                0 < t,
        ;
    }
    let bw = block_width_spec(w, t);
    let (num, den) = (aspect.num as int, aspect.den as int);
    assert(0 <= bw * den) by (nonlinear_arith)
        requires
            bw >= 1,
            den > 0,
    ;
    lemma_round_div_bounds(bw * den, num);
    assert(2 * (bw * den) == 2 * bw * den) by (nonlinear_arith);
    let q = round_div(bw * den, num);
    if bw * den < num {
        assert(q <= 1) by (nonlinear_arith)
            requires
                2 * q * num - num <= 2 * (bw * den),
                bw * den < num,
                0 < num,
        ;
    } else {
        assert(q >= 1) by (nonlinear_arith)
            requires
                2 * (bw * den) < 2 * q * num + num,
                bw * den >= num,
                0 < num,
        ;
    }
}

/// A grid has one row per `bh` stride down the height, the last one
/// possibly partial, and one column per `bw` stride across the width:
/// `ceil(h / bh)` rows of `ceil(w / bw)` blocks.
pub proof fn lemma_grid_dimensions(img: RgbImage, bw: int, bh: int, w: int, h: int, invert: bool)
    requires
        0 < bw,
        0 < bh,
        0 <= w,
        0 <= h,
    ensures
        sample_grid(img, bw, bh, w, h, invert).len() == ceil_div(h, bh),
        (ceil_div(h, bh) - 1) * bh < h <= ceil_div(h, bh) * bh,
        forall|i: int|
            0 <= i < ceil_div(h, bh) ==> #[trigger] sample_grid(img, bw, bh, w, h, invert)[i].len()
                == ceil_div(w, bw),
        (ceil_div(w, bw) - 1) * bw < w <= ceil_div(w, bw) * bw,
{
    lemma_ceil_bounds(h, bh);
    lemma_ceil_bounds(w, bw);
    assert forall|i: int| 0 <= i < ceil_div(h, bh) implies #[trigger] sample_grid(
        img,
        bw,
        bh,
        w,
        h,
        invert,
    )[i].len() == ceil_div(w, bw) by {
        lemma_grid_shape(img, bw, bh, w, h, invert, i);
    }
}

proof fn lemma_ceil_bounds(n: int, d: int)
    requires
        0 <= n,
        0 < d,
    ensures
        0 <= ceil_div(n, d),
        (ceil_div(n, d) - 1) * d < n <= ceil_div(n, d) * d,
{
    lemma_fundamental_div_mod(n + d - 1, d);
    let q = (n + d - 1) / d;
    let r = (n + d - 1) % d;
    assert(0 <= q && (q - 1) * d < n <= q * d) by (nonlinear_arith)
        requires
            n + d - 1 == d * q + r,
            0 <= r < d,
            0 <= n,
            0 < d,
    ;
}

proof fn lemma_row_uniform(img: RgbImage, c: int, y: int, x0: int, x1: int, v: int)
    requires
        x0 <= x1,
        forall|x: int| x0 <= x < x1 ==> #[trigger] img.channel(x, y, c) == v,
    ensures
        img.row_sum(c, y, x0, x1) == v * (x1 - x0),
    decreases x1 - x0,
{
    if x1 > x0 {
        lemma_row_uniform(img, c, y, x0, x1 - 1, v);
        assert(v * (x1 - 1 - x0) + v == v * (x1 - x0)) by (nonlinear_arith);
    } else {
        assert(v * (x1 - x0) == 0) by (nonlinear_arith)
            requires
                x1 == x0,
        ;
    }
}

proof fn lemma_rect_uniform(img: RgbImage, c: int, x0: int, x1: int, y0: int, y1: int, v: int)
    requires
        x0 <= x1,
        y0 <= y1,
        forall|x: int, y: int|
            x0 <= x < x1 && y0 <= y < y1 ==> #[trigger] img.channel(x, y, c) == v,
    ensures
        img.rect_sum(c, x0, x1, y0, y1) == v * ((x1 - x0) * (y1 - y0)),
    decreases y1 - y0,
{
    if y1 > y0 {
        lemma_rect_uniform(img, c, x0, x1, y0, y1 - 1, v);
        lemma_row_uniform(img, c, y1 - 1, x0, x1, v);
        assert(v * ((x1 - x0) * (y1 - 1 - y0)) + v * (x1 - x0) == v * ((x1 - x0) * (y1 - y0)))
            by (nonlinear_arith);
    } else {
        assert(v * ((x1 - x0) * (y1 - y0)) == 0) by (nonlinear_arith)
            requires
                y1 == y0,
        ;
    }
}

/// A block whose pixels are all one colour `(r, g, b)` averages to that
/// colour, so its luminance is `0.2126 r + 0.7152 g + 0.0722 b` (scaled by
/// 10000), and `255` less that when inverted.
pub proof fn lemma_uniform_block(
    img: RgbImage,
    x0: u32,
    y0: u32,
    w: u32,
    h: u32,
    r: u8,
    g: u8,
    b: u8,
)
    requires
        img.wf(),
        x0 < img.width_spec(),
        y0 < img.height_spec(),
        w > 0,
        h > 0,
        forall|x: int, y: int|
            x0 <= x < x0 + w && x < img.width_spec() && y0 <= y < y0 + h && y < img.height_spec()
                ==> #[trigger] img.channel(x, y, 0) == r && img.channel(x, y, 1) == g
                && img.channel(x, y, 2) == b,
    ensures
        img.block_spec(x0 as int, y0 as int, w as int, h as int, false) == (BlockSample {
            r,
            g,
            b,
            lum: luminance(r as int, g as int, b as int) as u32,
        }),
        img.block_spec(x0 as int, y0 as int, w as int, h as int, true).lum == LUM_MAX
            - luminance(r as int, g as int, b as int),
{
    let x1 = if x0 + w < img.width { x0 + w } else { img.width as int };
    let y1 = if y0 + h < img.height { y0 + h } else { img.height as int };
    let n = (x1 - x0) * (y1 - y0);
    assert(n > 0) by (nonlinear_arith)
        requires
            n == (x1 - x0) * (y1 - y0),
            x0 < x1,
            y0 < y1,
    ;
    assert forall|x: int, y: int| x0 <= x < x1 && y0 <= y < y1 implies #[trigger] img.channel(
        x,
        y,
        1,
    ) == g by {
        assert(img.channel(x, y, 0) == r);
    }
    assert forall|x: int, y: int| x0 <= x < x1 && y0 <= y < y1 implies #[trigger] img.channel(
        x,
        y,
        2,
    ) == b by {
        assert(img.channel(x, y, 0) == r);
    }
    lemma_rect_uniform(img, 0, x0 as int, x1, y0 as int, y1, r as int);
    lemma_rect_uniform(img, 1, x0 as int, x1, y0 as int, y1, g as int);
    lemma_rect_uniform(img, 2, x0 as int, x1, y0 as int, y1, b as int);
    lemma_fundamental_div_mod_converse(r * n, n, r as int, 0);
    lemma_fundamental_div_mod_converse(g * n, n, g as int, 0);
    lemma_fundamental_div_mod_converse(b * n, n, b as int, 0);
}

} // verus!
