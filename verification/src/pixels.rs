use vstd::prelude::*;
use vstd::arithmetic::div_mod::lemma_fundamental_div_mod_converse;

verus! {

/// Index of the pixel in row `row` and column `col` of a frame `width` pixels wide.
pub open spec fn pixel_at(width: int, row: int, col: int) -> int {
    row * width + col
}

/// Row of pixel `p` in a frame `width` pixels wide.
pub open spec fn row_of(width: int, p: int) -> int {
    p / width
}

/// Column of pixel `p` in a frame `width` pixels wide.
pub open spec fn col_of(width: int, p: int) -> int {
    p % width
}

/// The position that `i` takes when `0..n` is read backwards.
pub open spec fn reflect(n: int, i: int) -> int {
    n - 1 - i
}

pub open spec fn min_int(a: int, b: int) -> int {
    if a <= b {
        a
    } else {
        b
    }
}

pub open spec fn max_int(a: int, b: int) -> int {
    if a <= b {
        b
    } else {
        a
    }
}

/// Where byte `i` comes from when the 4-byte pixels starting at `a` and at `b`
/// are exchanged.
pub open spec fn pair_swap_source(a: int, b: int, i: int) -> int {
    if a <= i < a + 4 {
        b + (i - a)
    } else if b <= i < b + 4 {
        a + (i - b)
    } else {
        i
    }
}

/// A pixel index built from a row and a column gives them back.
pub proof fn lemma_pixel_coords(width: int, row: int, col: int)
    requires
        width > 0,
        0 <= col < width,
    ensures
        row_of(width, pixel_at(width, row, col)) == row,
        col_of(width, pixel_at(width, row, col)) == col,
{
    lemma_fundamental_div_mod_converse(row * width + col, width, row, col);
}

/// Every pixel index splits into its row and its column.
pub proof fn lemma_pixel_split(width: int, p: int)
    requires
        width > 0,
        p >= 0,
    ensures
        p == pixel_at(width, row_of(width, p), col_of(width, p)),
        0 <= col_of(width, p) < width,
        row_of(width, p) >= 0,
{
    assert(p == (p / width) * width + p % width && 0 <= p % width < width && p / width >= 0)
        by (nonlinear_arith)
        requires
            width > 0,
            p >= 0,
    ;
}

/// A byte index splits into its pixel and its channel.
pub proof fn lemma_byte_split(p: int, c: int)
    requires
        0 <= c < 4,
    ensures
        (p * 4 + c) / 4 == p,
        (p * 4 + c) % 4 == c,
{
    lemma_fundamental_div_mod_converse(p * 4 + c, 4, p, c);
}

/// A pixel inside a `width` by `height` frame has all its bytes inside the
/// frame's buffer.
pub proof fn lemma_pixel_in_frame(width: int, height: int, row: int, col: int)
    requires
        0 <= row < height,
        0 <= col < width,
    ensures
        pixel_at(width, row, col) * 4 + 4 <= width * height * 4,
{
    assert(row * width + col + 1 <= width * height) by (nonlinear_arith)
        requires
            0 <= row < height,
            0 <= col < width,
    ;
}

/// Exchanges the 4-byte pixels that start at byte offsets `a` and `b`.
pub fn swap_pixels(data: &mut [u8], a: usize, b: usize)
    requires
        a + 4 <= b,
        b + 4 <= old(data)@.len(),
    ensures
        final(data)@.len() == old(data)@.len(),
        forall|i: int|
            0 <= i < old(data)@.len() ==> #[trigger] final(data)@[i] == old(data)@[pair_swap_source(
                a as int,
                b as int,
                i,
            )],
{
    let ghost orig = data@;
    for k in 0..4usize
        invariant
            a + 4 <= b,
            b + 4 <= orig.len(),
            data@.len() == orig.len(),
            forall|i: int|
                0 <= i < orig.len() ==> #[trigger] data@[i] == orig[if a <= i < a + k {
                    b + (i - a)
                } else if b <= i < b + k {
                    a + (i - b)
                } else {
                    i
                }],
    {
        let t = data[a + k];
        let u = data[b + k];
        data[a + k] = u;
        data[b + k] = t;
    }
}

} // verus!
