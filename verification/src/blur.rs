use vstd::prelude::*;
use crate::frame::MAX_BUFFER_BYTES;
use crate::pixels::{
    col_of, lemma_byte_split, lemma_pixel_coords, lemma_pixel_in_frame, lemma_pixel_split,
    pixel_at, row_of,
};

verus! {

/// Parameters of the box blur.
#[derive(Debug, Clone, Copy, PartialEq, Eq, Structural)]
pub struct BlurParams {
    pub radius: usize,
    pub iterations: usize,
}

impl Default for BlurParams {
    /// The parameters used when none are given or they cannot be read.
    fn default() -> (params: Self)
        ensures
            params.radius == 3,
            params.iterations == 1,
    {
        BlurParams { radius: 3, iterations: 1 }
    }
}

/// Upper end of the documented range of `iterations` (1 to 5).
pub const DOCUMENTED_MAX_PASSES: usize = 5;

/// Number of passes made when more than `DOCUMENTED_MAX_PASSES` are asked for.
pub const PASSES_ABOVE_RANGE: usize = 3;

/// Upper end of the documented range of `radius` (1 to 20).
pub const DOCUMENTED_MAX_RADIUS: usize = 20;

/// Radius actually used on a `width` by `height` frame.  A radius in the
/// documented range 1 to 20 is used as given (the window is clipped at the
/// edges of the frame, so any radius fits); a radius of zero counts as one; a
/// larger radius is cut to a fifth of the shorter side, but not below one.
pub open spec fn radius_used(radius: int, width: int, height: int) -> int {
    if radius == 0 {
        1
    } else if radius <= DOCUMENTED_MAX_RADIUS {
        radius
    } else {
        let short_side = if width <= height {
            width
        } else {
            height
        };
        let capped = if radius <= short_side / 5 {
            radius
        } else {
            short_side / 5
        };
        if capped < 1 {
            1
        } else {
            capped
        }
    }
}

/// Number of passes actually made: a number up to 5 (the documented range is
/// 1 to 5) is used as given; a larger one gives three passes.
pub open spec fn passes_used(iterations: int) -> int {
    if iterations <= DOCUMENTED_MAX_PASSES {
        iterations
    } else {
        PASSES_ABOVE_RANGE as int
    }
}

/// First coordinate of the window of radius `r` around `c` (never below zero).
pub open spec fn window_start(c: int, r: int) -> int {
    if c >= r {
        c - r
    } else {
        0
    }
}

/// Last coordinate of the window of radius `r` around `c` along a side of `n`.
pub open spec fn window_last(c: int, r: int, n: int) -> int {
    if c + r <= n - 1 {
        c + r
    } else {
        n - 1
    }
}

/// Sum of channel `c` over the pixels of row `row` in columns `x0 .. x_end`.
pub open spec fn row_sum(s: Seq<u8>, width: int, row: int, x0: int, x_end: int, c: int) -> int
    decreases x_end - x0,
{
    if x_end <= x0 {
        0
    } else {
        row_sum(s, width, row, x0, x_end - 1, c) + s[pixel_at(width, row, x_end - 1) * 4 + c]
    }
}

/// Sum of channel `c` over the pixels of rows `y0 .. y_end` and columns
/// `x0 .. x_end`.
pub open spec fn rect_sum(
    s: Seq<u8>,
    width: int,
    y0: int,
    y_end: int,
    x0: int,
    x_end: int,
    c: int,
) -> int
    decreases y_end - y0,
{
    if y_end <= y0 {
        0
    } else {
        rect_sum(s, width, y0, y_end - 1, x0, x_end, c) + row_sum(s, width, y_end - 1, x0, x_end, c)
    }
}

/// Mean of channel `c` over the window of radius `r` around pixel (`x`, `y`),
/// rounded down.
pub open spec fn window_mean(s: Seq<u8>, width: int, height: int, r: int, x: int, y: int, c: int) -> int {
    let x0 = window_start(x, r);
    let x1 = window_last(x, r, width);
    let y0 = window_start(y, r);
    let y1 = window_last(y, r, height);
    rect_sum(s, width, y0, y1 + 1, x0, x1 + 1, c) / ((y1 - y0 + 1) * (x1 - x0 + 1))
}

/// One pass of the box blur of radius `r`: every byte becomes the mean of its
/// channel over the window around its pixel.
pub open spec fn blur_once(s: Seq<u8>, width: int, height: int, r: int) -> Seq<u8> {
    Seq::new(
        s.len(),
        |i: int|
            window_mean(s, width, height, r, col_of(width, i / 4), row_of(width, i / 4), i % 4) as u8,
    )
}

/// `n` passes of the box blur of radius `r`.
pub open spec fn blur_passes(s: Seq<u8>, width: int, height: int, r: int, n: nat) -> Seq<u8>
    decreases n,
{
    if n == 0 {
        s
    } else {
        blur_once(blur_passes(s, width, height, r, (n - 1) as nat), width, height, r)
    }
}

/// What the blur plugin makes of a `width` by `height` frame: frames narrower
/// or lower than three pixels are left alone.
pub open spec fn blurred(s: Seq<u8>, width: int, height: int, params: BlurParams) -> Seq<u8> {
    if width < 3 || height < 3 {
        s
    } else {
        blur_passes(
            s,
            width,
            height,
            radius_used(params.radius as int, width, height),
            passes_used(params.iterations as int) as nat,
        )
    }
}

/// The radius that the blur uses on a `width` by `height` frame.
pub fn effective_radius(radius: usize, width: usize, height: usize) -> (r: usize)
    ensures
        r == radius_used(radius as int, width as int, height as int),
        r >= 1,
        r <= DOCUMENTED_MAX_RADIUS || (r <= width && r <= height),
{
    if radius == 0 {
        1
    } else if radius <= DOCUMENTED_MAX_RADIUS {
        radius
    } else {
        let short_side = if width <= height {
            width
        } else {
            height
        };
        let capped = if radius <= short_side / 5 {
            radius
        } else {
            short_side / 5
        };
        if capped < 1 {
            1
        } else {
            capped
        }
    }
}

/// The number of passes that the blur makes.
pub fn effective_iterations(iterations: usize) -> (n: usize)
    ensures
        n == passes_used(iterations as int),
{
    if iterations <= DOCUMENTED_MAX_PASSES {
        iterations
    } else {
        PASSES_ABOVE_RANGE
    }
}

proof fn lemma_count_bound(k: int, rows: int, cols: int, width: int, height: int)
    requires
        0 <= rows <= height,
        0 <= cols <= width,
        0 <= k <= cols,
    ensures
        rows * cols + k <= width * height + cols,
        rows * cols + k <= (rows + 1) * cols,
        (rows + 1) * cols == rows * cols + cols,
{
    assert(rows * cols <= height * cols && height * cols <= height * width && (rows + 1) * cols
        == rows * cols + cols) by (nonlinear_arith)
        requires
            0 <= rows <= height,
            0 <= cols <= width,
    ;
}

/// Channel sums and pixel count over rows `y0 ..= y1` and columns `x0 ..= x1`.
fn window_sums(
    src: &[u8],
    width: usize,
    height: usize,
    x0: usize,
    x1: usize,
    y0: usize,
    y1: usize,
) -> (res: (u64, u64, u64, u64, u64))
    requires
        src@.len() == width * height * 4,
        width * height * 4 <= MAX_BUFFER_BYTES,
        x0 <= x1 < width,
        y0 <= y1 < height,
    ensures
        res.0 == rect_sum(src@, width as int, y0 as int, y1 + 1, x0 as int, x1 + 1, 0),
        res.1 == rect_sum(src@, width as int, y0 as int, y1 + 1, x0 as int, x1 + 1, 1),
        res.2 == rect_sum(src@, width as int, y0 as int, y1 + 1, x0 as int, x1 + 1, 2),
        res.3 == rect_sum(src@, width as int, y0 as int, y1 + 1, x0 as int, x1 + 1, 3),
        res.4 == (y1 - y0 + 1) * (x1 - x0 + 1),
{
    let ghost s = src@;
    let ghost w = width as int;
    let ghost cols = x1 - x0 + 1;
    let mut r: u64 = 0;
    let mut g: u64 = 0;
    let mut b: u64 = 0;
    let mut a: u64 = 0;
    let mut cnt: u64 = 0;
    assert(0 * cols == 0);
    for ny in y0..y1 + 1
        invariant
            s == src@,
            w == width,
            cols == x1 - x0 + 1,
            src@.len() == width * height * 4,
            width * height * 4 <= MAX_BUFFER_BYTES,
            x0 <= x1 < width,
            y0 <= y1 < height,
            cnt == (ny - y0) * cols,
            cnt <= width * height,
            r <= 255 * cnt,
            g <= 255 * cnt,
            b <= 255 * cnt,
            a <= 255 * cnt,
            r == rect_sum(s, w, y0 as int, ny as int, x0 as int, x1 + 1, 0),
            g == rect_sum(s, w, y0 as int, ny as int, x0 as int, x1 + 1, 1),
            b == rect_sum(s, w, y0 as int, ny as int, x0 as int, x1 + 1, 2),
            a == rect_sum(s, w, y0 as int, ny as int, x0 as int, x1 + 1, 3),
    {
        let ghost rows = ny - y0;
        for nx in x0..x1 + 1
            invariant
                s == src@,
                w == width,
                cols == x1 - x0 + 1,
                rows == ny - y0,
                src@.len() == width * height * 4,
                width * height * 4 <= MAX_BUFFER_BYTES,
                x0 <= x1 < width,
                y0 <= ny <= y1 < height,
                cnt == rows * cols + (nx - x0),
                cnt <= width * height,
                r <= 255 * cnt,
                g <= 255 * cnt,
                b <= 255 * cnt,
                a <= 255 * cnt,
                r == rect_sum(s, w, y0 as int, ny as int, x0 as int, x1 + 1, 0) + row_sum(
                    s,
                    w,
                    ny as int,
                    x0 as int,
                    nx as int,
                    0,
                ),
                g == rect_sum(s, w, y0 as int, ny as int, x0 as int, x1 + 1, 1) + row_sum(
                    s,
                    w,
                    ny as int,
                    x0 as int,
                    nx as int,
                    1,
                ),
                b == rect_sum(s, w, y0 as int, ny as int, x0 as int, x1 + 1, 2) + row_sum(
                    s,
                    w,
                    ny as int,
                    x0 as int,
                    nx as int,
                    2,
                ),
                a == rect_sum(s, w, y0 as int, ny as int, x0 as int, x1 + 1, 3) + row_sum(
                    s,
                    w,
                    ny as int,
                    x0 as int,
                    nx as int,
                    3,
                ),
        {
            proof {
                lemma_pixel_in_frame(w, height as int, ny as int, nx as int);
                lemma_count_bound(nx - x0, rows, cols, w, height as int);
                assert(rows * cols + cols <= width * height) by (nonlinear_arith)
                    requires
                        0 <= rows,
                        rows + 1 <= height,
                        0 <= cols <= width,
                ;
            }
            let idx = (ny * width + nx) * 4;
            r = r + src[idx] as u64;
            g = g + src[idx + 1] as u64;
            b = b + src[idx + 2] as u64;
            a = a + src[idx + 3] as u64;
            cnt = cnt + 1;
        }
        proof {
            lemma_count_bound(cols, rows, cols, w, height as int);
        }
    }
    (r, g, b, a, cnt)
}

/// One pass of the box blur of radius `radius` over a `width` by `height` frame.
fn blur_pass(src: &[u8], width: usize, height: usize, radius: usize) -> (out: Vec<u8>)
    requires
        src@.len() == width * height * 4,
        width * height * 4 <= MAX_BUFFER_BYTES,
        radius <= DOCUMENTED_MAX_RADIUS || (radius <= width && radius <= height),
    ensures
        out@ == blur_once(src@, width as int, height as int, radius as int),
{
    let ghost s = src@;
    let ghost w = width as int;
    let ghost h = height as int;
    let ghost target = blur_once(s, w, h, radius as int);
    let mut out: Vec<u8> = Vec::new();
    assert(pixel_at(w, 0, 0) == 0);
    for y in 0..height
        invariant
            s == src@,
            w == width,
            h == height,
            target == blur_once(s, w, h, radius as int),
            src@.len() == width * height * 4,
            width * height * 4 <= MAX_BUFFER_BYTES,
            radius <= DOCUMENTED_MAX_RADIUS || (radius <= width && radius <= height),
            out@.len() == pixel_at(w, y as int, 0) * 4,
            forall|k: int| 0 <= k < out@.len() ==> #[trigger] out@[k] == target[k],
    {
        for x in 0..width
            invariant
                s == src@,
                w == width,
                h == height,
                target == blur_once(s, w, h, radius as int),
                src@.len() == width * height * 4,
                width * height * 4 <= MAX_BUFFER_BYTES,
                radius <= DOCUMENTED_MAX_RADIUS || (radius <= width && radius <= height),
                0 <= y < height,
                out@.len() == pixel_at(w, y as int, x as int) * 4,
                forall|k: int| 0 <= k < out@.len() ==> #[trigger] out@[k] == target[k],
        {
            assert(width <= MAX_BUFFER_BYTES && height <= MAX_BUFFER_BYTES) by (nonlinear_arith)
                requires
                    width * height * 4 <= MAX_BUFFER_BYTES,
                    y < height,
                    x < width,
            ;
            let y0 = y.saturating_sub(radius);
            let y1 = if y + radius <= height - 1 {
                y + radius
            } else {
                height - 1
            };
            let x0 = x.saturating_sub(radius);
            let x1 = if x + radius <= width - 1 {
                x + radius
            } else {
                width - 1
            };
            let (r, g, b, a, cnt) = window_sums(src, width, height, x0, x1, y0, y1);
            assert(cnt > 0) by (nonlinear_arith)
                requires
                    cnt == (y1 - y0 + 1) * (x1 - x0 + 1),
                    y0 <= y1,
                    x0 <= x1,
            ;
            let ghost p = pixel_at(w, y as int, x as int);
            proof {
                lemma_pixel_coords(w, y as int, x as int);
                lemma_pixel_in_frame(w, h, y as int, x as int);
                lemma_byte_split(p, 0);
                lemma_byte_split(p, 1);
                lemma_byte_split(p, 2);
                lemma_byte_split(p, 3);
            }
            out.push((r / cnt) as u8);
            out.push((g / cnt) as u8);
            out.push((b / cnt) as u8);
            out.push((a / cnt) as u8);
            assert(out@[p * 4] == target[p * 4]);
            assert(out@[p * 4 + 1] == target[p * 4 + 1]);
            assert(out@[p * 4 + 2] == target[p * 4 + 2]);
            assert(out@[p * 4 + 3] == target[p * 4 + 3]);
        }
        assert(pixel_at(w, y as int, w) == pixel_at(w, y + 1, 0)) by (nonlinear_arith);
    }
    assert(pixel_at(w, h, 0) * 4 == src@.len()) by (nonlinear_arith)
        requires
            src@.len() == w * h * 4,
    ;
    assert(out@ =~= target);
    out
}

/// Blurs a `width` by `height` frame of RGBA pixels in place with the box
/// blur that `params` describes.  Frames narrower or lower than three pixels
/// are left alone.
pub fn blur_image(data: &mut [u8], width: usize, height: usize, params: &BlurParams)
    requires
        old(data)@.len() == width * height * 4,
        width * height * 4 <= MAX_BUFFER_BYTES,
    ensures
        final(data)@ == blurred(old(data)@, width as int, height as int, *params),
{
    if width < 3 || height < 3 {
        return;
    }
    let radius = effective_radius(params.radius, width, height);
    let iterations = effective_iterations(params.iterations);
    let ghost orig = data@;
    let n = data.len();
    for pass in 0..iterations
        invariant
            data@.len() == n,
            n == width * height * 4,
            width * height * 4 <= MAX_BUFFER_BYTES,
            radius == radius_used(params.radius as int, width as int, height as int),
            radius <= DOCUMENTED_MAX_RADIUS || (radius <= width && radius <= height),
            data@ == blur_passes(orig, width as int, height as int, radius as int, pass as nat),
    {
        let temp = blur_pass(data, width, height, radius);
        for k in 0..n
            invariant
                data@.len() == n,
                temp@.len() == n,
                forall|j: int| 0 <= j < k ==> #[trigger] data@[j] == temp@[j],
        {
            data[k] = temp[k];
        }
        assert(data@ =~= temp@);
    }
}

// ---------------------------------------------------------------------------
// Laws
// ---------------------------------------------------------------------------

/// Every pixel of the buffer has the same four channel values.
pub open spec fn single_colour(s: Seq<u8>) -> bool {
    forall|i: int| 0 <= i < s.len() ==> #[trigger] s[i] == s[i % 4]
}

proof fn lemma_row_sum_single_colour(
    s: Seq<u8>,
    width: int,
    height: int,
    row: int,
    x0: int,
    x_end: int,
    c: int,
)
    requires
        s.len() == width * height * 4,
        single_colour(s),
        0 <= row < height,
        0 <= x0 <= x_end <= width,
        0 <= c < 4,
    ensures
        row_sum(s, width, row, x0, x_end, c) == (x_end - x0) * s[c],
    decreases x_end - x0,
{
    if x_end > x0 {
        lemma_row_sum_single_colour(s, width, height, row, x0, x_end - 1, c);
        let p = pixel_at(width, row, x_end - 1);
        lemma_pixel_in_frame(width, height, row, x_end - 1);
        lemma_byte_split(p, c);
        assert(s[p * 4 + c] == s[c]);
        assert((x_end - 1 - x0) * s[c] + s[c] == (x_end - x0) * s[c]) by (nonlinear_arith);
    } else {
        assert((x_end - x0) * s[c] == 0) by (nonlinear_arith)
            requires
                x_end == x0,
        ;
    }
}

proof fn lemma_rect_sum_single_colour(
    s: Seq<u8>,
    width: int,
    height: int,
    y0: int,
    y_end: int,
    x0: int,
    x_end: int,
    c: int,
)
    requires
        s.len() == width * height * 4,
        single_colour(s),
        0 <= y0 <= y_end <= height,
        0 <= x0 <= x_end <= width,
        0 <= c < 4,
    ensures
        rect_sum(s, width, y0, y_end, x0, x_end, c) == (y_end - y0) * (x_end - x0) * s[c],
    decreases y_end - y0,
{
    if y_end > y0 {
        lemma_rect_sum_single_colour(s, width, height, y0, y_end - 1, x0, x_end, c);
        lemma_row_sum_single_colour(s, width, height, y_end - 1, x0, x_end, c);
        assert((y_end - 1 - y0) * (x_end - x0) * s[c] + (x_end - x0) * s[c] == (y_end - y0) * (
        x_end - x0) * s[c]) by (nonlinear_arith);
    } else {
        assert((y_end - y0) * (x_end - x0) * s[c] == 0) by (nonlinear_arith)
            requires
                y_end == y0,
        ;
    }
}

proof fn lemma_blur_once_single_colour(s: Seq<u8>, width: int, height: int, r: int)
    requires
        s.len() == width * height * 4,
        single_colour(s),
        width >= 0,
        height >= 0,
        r >= 0,
    ensures
        blur_once(s, width, height, r) == s,
{
    assert forall|i: int| 0 <= i < s.len() implies #[trigger] blur_once(s, width, height, r)[i]
        == s[i] by {
        let p = i / 4;
        let c = i % 4;
        if width == 0 {
            assert(width * height * 4 == 0) by (nonlinear_arith)
                requires
                    width == 0,
            ;
        }
        lemma_pixel_split(width, p);
        let x = col_of(width, p);
        let y = row_of(width, p);
        assert(y < height) by (nonlinear_arith)
            requires
                p == y * width + x,
                0 <= x,
                p * 4 < width * height * 4,
                width > 0,
        ;
        let x0 = window_start(x, r);
        let x1 = window_last(x, r, width);
        let y0 = window_start(y, r);
        let y1 = window_last(y, r, height);
        lemma_rect_sum_single_colour(s, width, height, y0, y1 + 1, x0, x1 + 1, c);
        let count = (y1 - y0 + 1) * (x1 - x0 + 1);
        let v = s[c] as int;
        assert(count > 0) by (nonlinear_arith)
            requires
                count == (y1 - y0 + 1) * (x1 - x0 + 1),
                y0 <= y1,
                x0 <= x1,
        ;
        assert((y1 + 1 - y0) * (x1 + 1 - x0) * v == count * v) by (nonlinear_arith)
            requires
                count == (y1 - y0 + 1) * (x1 - x0 + 1),
        ;
        assert((count * v) / count == v) by (nonlinear_arith)
            requires
                count > 0,
        ;
        assert(s[i] == s[c]);
    }
    assert(blur_once(s, width, height, r) =~= s);
}

proof fn lemma_blur_passes_single_colour(s: Seq<u8>, width: int, height: int, r: int, n: nat)
    requires
        s.len() == width * height * 4,
        single_colour(s),
        width >= 0,
        height >= 0,
        r >= 0,
    ensures
        blur_passes(s, width, height, r, n) == s,
    decreases n,
{
    if n > 0 {
        lemma_blur_passes_single_colour(s, width, height, r, (n - 1) as nat);
        lemma_blur_once_single_colour(s, width, height, r);
    }
}

/// Blurring a frame in which every pixel has the same colour changes nothing.
pub proof fn lemma_blur_single_colour(s: Seq<u8>, width: int, height: int, params: BlurParams)
    requires
        width >= 0,
        height >= 0,
        s.len() == width * height * 4,
        single_colour(s),
    ensures
        blurred(s, width, height, params) == s,
{
    if width >= 3 && height >= 3 {
        lemma_blur_passes_single_colour(
            s,
            width,
            height,
            radius_used(params.radius as int, width, height),
            passes_used(params.iterations as int) as nat,
        );
    }
}

/// A radius of zero blurs exactly as a radius of one.
pub proof fn lemma_zero_radius_acts_as_one(s: Seq<u8>, width: int, height: int, iterations: usize)
    ensures
        blurred(s, width, height, BlurParams { radius: 0, iterations }) == blurred(
            s,
            width,
            height,
            BlurParams { radius: 1, iterations },
        ),
{
}

/// The buffer whose channel `c` of every pixel is channel `f(c)` of the same
/// pixel of `s`.
pub open spec fn remap_channels(s: Seq<u8>, f: spec_fn(int) -> int) -> Seq<u8> {
    Seq::new(s.len(), |i: int| s[(i / 4) * 4 + f(i % 4)])
}

proof fn lemma_row_sum_remap(
    s: Seq<u8>,
    f: spec_fn(int) -> int,
    width: int,
    height: int,
    row: int,
    x0: int,
    x_end: int,
    c: int,
)
    requires
        s.len() == width * height * 4,
        forall|k: int| 0 <= k < 4 ==> 0 <= #[trigger] f(k) < 4,
        0 <= row < height,
        0 <= x0 <= x_end <= width,
        0 <= c < 4,
    ensures
        row_sum(remap_channels(s, f), width, row, x0, x_end, c) == row_sum(s, width, row, x0, x_end, f(c)),
    decreases x_end - x0,
{
    if x_end > x0 {
        lemma_row_sum_remap(s, f, width, height, row, x0, x_end - 1, c);
        let p = pixel_at(width, row, x_end - 1);
        lemma_pixel_in_frame(width, height, row, x_end - 1);
        lemma_byte_split(p, c);
        assert(f(c) < 4);
        assert(remap_channels(s, f)[p * 4 + c] == s[p * 4 + f(c)]);
    }
}

proof fn lemma_rect_sum_remap(
    s: Seq<u8>,
    f: spec_fn(int) -> int,
    width: int,
    height: int,
    y0: int,
    y_end: int,
    x0: int,
    x_end: int,
    c: int,
)
    requires
        s.len() == width * height * 4,
        forall|k: int| 0 <= k < 4 ==> 0 <= #[trigger] f(k) < 4,
        0 <= y0 <= y_end <= height,
        0 <= x0 <= x_end <= width,
        0 <= c < 4,
    ensures
        rect_sum(remap_channels(s, f), width, y0, y_end, x0, x_end, c) == rect_sum(
            s,
            width,
            y0,
            y_end,
            x0,
            x_end,
            f(c),
        ),
    decreases y_end - y0,
{
    if y_end > y0 {
        lemma_rect_sum_remap(s, f, width, height, y0, y_end - 1, x0, x_end, c);
        lemma_row_sum_remap(s, f, width, height, y_end - 1, x0, x_end, c);
    }
}

/// One pass of the blur treats every channel alike: moving channels around
/// within each pixel, before or after the pass, gives the same buffer.  In
/// particular the alpha channel is blurred exactly as the red one is.
pub proof fn lemma_blur_once_channels_alike(
    s: Seq<u8>,
    f: spec_fn(int) -> int,
    width: int,
    height: int,
    r: int,
)
    requires
        width >= 0,
        height >= 0,
        r >= 0,
        s.len() == width * height * 4,
        forall|k: int| 0 <= k < 4 ==> 0 <= #[trigger] f(k) < 4,
    ensures
        blur_once(remap_channels(s, f), width, height, r) == remap_channels(
            blur_once(s, width, height, r),
            f,
        ),
{
    let t = remap_channels(s, f);
    assert forall|i: int| 0 <= i < s.len() implies #[trigger] blur_once(t, width, height, r)[i]
        == remap_channels(blur_once(s, width, height, r), f)[i] by {
        let p = i / 4;
        let c = i % 4;
        if width == 0 {
            assert(width * height * 4 == 0) by (nonlinear_arith)
                requires
                    width == 0,
            ;
        }
        lemma_pixel_split(width, p);
        let x = col_of(width, p);
        let y = row_of(width, p);
        assert(y < height) by (nonlinear_arith)
            requires
                p == y * width + x,
                0 <= x,
                p * 4 < width * height * 4,
                width > 0,
        ;
        assert(f(c) < 4);
        lemma_byte_split(p, f(c));
        lemma_pixel_in_frame(width, height, y, x);
        let x0 = window_start(x, r);
        let x1 = window_last(x, r, width);
        let y0 = window_start(y, r);
        let y1 = window_last(y, r, height);
        lemma_rect_sum_remap(s, f, width, height, y0, y1 + 1, x0, x1 + 1, c);
    }
    assert(blur_once(t, width, height, r) =~= remap_channels(blur_once(s, width, height, r), f));
}

proof fn lemma_blur_passes_channels_alike(
    s: Seq<u8>,
    f: spec_fn(int) -> int,
    width: int,
    height: int,
    r: int,
    n: nat,
)
    requires
        width >= 0,
        height >= 0,
        r >= 0,
        s.len() == width * height * 4,
        forall|k: int| 0 <= k < 4 ==> 0 <= #[trigger] f(k) < 4,
    ensures
        blur_passes(remap_channels(s, f), width, height, r, n) == remap_channels(
            blur_passes(s, width, height, r, n),
            f,
        ),
        blur_passes(s, width, height, r, n).len() == s.len(),
    decreases n,
{
    if n > 0 {
        let m = (n - 1) as nat;
        lemma_blur_passes_channels_alike(s, f, width, height, r, m);
        lemma_blur_once_channels_alike(blur_passes(s, width, height, r, m), f, width, height, r);
    }
}

/// The whole blur treats every channel alike, alpha included: moving channels
/// around within each pixel commutes with it.
pub proof fn lemma_blur_channels_alike(
    s: Seq<u8>,
    f: spec_fn(int) -> int,
    width: int,
    height: int,
    params: BlurParams,
)
    requires
        width >= 0,
        height >= 0,
        s.len() == width * height * 4,
        forall|k: int| 0 <= k < 4 ==> 0 <= #[trigger] f(k) < 4,
    ensures
        blurred(remap_channels(s, f), width, height, params) == remap_channels(
            blurred(s, width, height, params),
            f,
        ),
{
    if width >= 3 && height >= 3 {
        lemma_blur_passes_channels_alike(
            s,
            f,
            width,
            height,
            radius_used(params.radius as int, width, height),
            passes_used(params.iterations as int) as nat,
        );
    }
}

/// A frame that is black and transparent everywhere but at pixel
/// (`px`, `py`), whose four channels all hold `v`.
pub open spec fn single_pixel_frame(width: int, height: int, px: int, py: int, v: u8) -> Seq<u8> {
    Seq::new(
        (width * height * 4) as nat,
        |i: int|
            if i / 4 == py * width + px {
                v
            } else {
                0u8
            },
    )
}

proof fn lemma_row_sum_single_pixel(
    width: int,
    height: int,
    px: int,
    py: int,
    v: u8,
    row: int,
    x0: int,
    x_end: int,
    c: int,
)
    requires
        width >= 0,
        height >= 0,
        0 <= px < width,
        0 <= py < height,
        0 <= row < height,
        0 <= x0 <= x_end <= width,
        0 <= c < 4,
    ensures
        row_sum(single_pixel_frame(width, height, px, py, v), width, row, x0, x_end, c) == (if row
            == py && x0 <= px < x_end {
            v as int
        } else {
            0
        }),
    decreases x_end - x0,
{
    let s = single_pixel_frame(width, height, px, py, v);
    if x_end > x0 {
        lemma_row_sum_single_pixel(width, height, px, py, v, row, x0, x_end - 1, c);
        let col = x_end - 1;
        let q = pixel_at(width, row, col);
        lemma_pixel_in_frame(width, height, row, col);
        assert(0 <= width * height * 4) by (nonlinear_arith)
            requires
                width >= 0,
                height >= 0,
        ;
        assert(0 <= row * width) by (nonlinear_arith)
            requires
                row >= 0,
                width >= 0,
        ;
        lemma_byte_split(q, c);
        lemma_pixel_coords(width, row, col);
        lemma_pixel_coords(width, py, px);
        if q == py * width + px {
            assert(row == py && col == px);
        }
        assert(s[q * 4 + c] == (if row == py && col == px {
            v
        } else {
            0u8
        }));
    }
}

proof fn lemma_rect_sum_single_pixel(
    width: int,
    height: int,
    px: int,
    py: int,
    v: u8,
    y0: int,
    y_end: int,
    x0: int,
    x_end: int,
    c: int,
)
    requires
        width >= 0,
        height >= 0,
        0 <= px < width,
        0 <= py < height,
        0 <= y0 <= y_end <= height,
        0 <= x0 <= x_end <= width,
        0 <= c < 4,
    ensures
        rect_sum(single_pixel_frame(width, height, px, py, v), width, y0, y_end, x0, x_end, c) == (
        if y0 <= py < y_end && x0 <= px < x_end {
            v as int
        } else {
            0
        }),
    decreases y_end - y0,
{
    if y_end > y0 {
        lemma_rect_sum_single_pixel(width, height, px, py, v, y0, y_end - 1, x0, x_end, c);
        lemma_row_sum_single_pixel(width, height, px, py, v, y_end - 1, x0, x_end, c);
    }
}

/// One pass of the box blur of radius `r` on a frame that is zero everywhere
/// but at one pixel, whose four channels hold `v`: every channel of pixel
/// (`x`, `y`) becomes `v` divided, rounding down, by the number of pixels of
/// the frame within `r` rows and `r` columns of (`x`, `y`) when the bright
/// pixel is among them, and zero otherwise.
pub proof fn lemma_blur_once_single_pixel(
    width: int,
    height: int,
    r: int,
    px: int,
    py: int,
    v: u8,
    x: int,
    y: int,
    c: int,
)
    requires
        r >= 0,
        0 <= px < width,
        0 <= py < height,
        0 <= x < width,
        0 <= y < height,
        0 <= c < 4,
    ensures
        ({
            let first_row = if y >= r {
                y - r
            } else {
                0
            };
            let last_row = if y + r < height {
                y + r
            } else {
                height - 1
            };
            let first_col = if x >= r {
                x - r
            } else {
                0
            };
            let last_col = if x + r < width {
                x + r
            } else {
                width - 1
            };
            let count = (last_row - first_row + 1) * (last_col - first_col + 1);
            let seen = -r <= px - x <= r && -r <= py - y <= r;
            blur_once(single_pixel_frame(width, height, px, py, v), width, height, r)[(y * width
                + x) * 4 + c] == (if seen {
                v as int
            } else {
                0
            }) / count
        }),
{
    let s = single_pixel_frame(width, height, px, py, v);
    let i = (y * width + x) * 4 + c;
    lemma_pixel_in_frame(width, height, y, x);
    assert(0 <= y * width) by (nonlinear_arith)
        requires
            y >= 0,
            width >= 0,
    ;
    lemma_byte_split(y * width + x, c);
    lemma_pixel_coords(width, y, x);
    let x0 = window_start(x, r);
    let x1 = window_last(x, r, width);
    let y0 = window_start(y, r);
    let y1 = window_last(y, r, height);
    lemma_rect_sum_single_pixel(width, height, px, py, v, y0, y1 + 1, x0, x1 + 1, c);
    let count = (y1 - y0 + 1) * (x1 - x0 + 1);
    assert(count >= 1) by (nonlinear_arith)
        requires
            count == (y1 - y0 + 1) * (x1 - x0 + 1),
            y0 <= y1,
            x0 <= x1,
    ;
    let sum = rect_sum(s, width, y0, y1 + 1, x0, x1 + 1, c);
    assert(0 <= sum / count <= 255) by (nonlinear_arith)
        requires
            0 <= sum <= 255,
            count >= 1,
    ;
}

/// How the parameters choose the blur: a frame narrower or lower than three
/// pixels is left alone; otherwise the blur makes `iterations` passes when
/// that is at most 5 and 3 passes otherwise, with radius `radius` when that is
/// between 1 and 20, radius 1 for 0, and above 20 the radius cut to a fifth
/// of the shorter side but at least 1.
pub proof fn lemma_blur_parameters(s: Seq<u8>, width: int, height: int, radius: usize, iterations: usize)
    ensures
        ({
            let short_side = if width <= height {
                width
            } else {
                height
            };
            let r = if radius == 0 {
                1
            } else if radius <= 20 {
                radius as int
            } else if radius <= short_side / 5 {
                radius as int
            } else if short_side / 5 >= 1 {
                short_side / 5
            } else {
                1
            };
            let k = if iterations <= 5 {
                iterations as nat
            } else {
                3
            };
            blurred(s, width, height, BlurParams { radius, iterations }) == if width < 3 || height
                < 3 {
                s
            } else {
                blur_passes(s, width, height, r, k)
            }
        }),
{
}

} // verus!
