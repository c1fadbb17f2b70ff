use vstd::prelude::*;
use crate::pixels::{
    col_of, lemma_byte_split, lemma_pixel_coords, lemma_pixel_split, max_int, min_int, pair_swap_source,
    pixel_at, reflect, row_of, swap_pixels, lemma_pixel_in_frame,
};

verus! {

// ---------------------------------------------------------------------------
// Horizontal flip
// ---------------------------------------------------------------------------

/// The horizontal flip exchanges pixel `p` with its mirror image in the same
/// row: `p` lies in one of the `height` rows, is not the middle column, and the
/// right-hand pixel of the pair ends inside a buffer of `len` bytes.
pub open spec fn h_exchanges(len: int, width: int, height: int, p: int) -> bool {
    let row = row_of(width, p);
    let col = col_of(width, p);
    &&& width > 0
    &&& p >= 0
    &&& row < height
    &&& col != reflect(width, col)
    &&& pixel_at(width, row, max_int(col, reflect(width, col))) * 4 + 4 <= len
}

/// The pixel that the horizontal flip exchanges with `p`.
pub open spec fn h_mate(width: int, p: int) -> int {
    pixel_at(width, row_of(width, p), reflect(width, col_of(width, p)))
}

/// Where byte `i` of the horizontally flipped buffer comes from.
pub open spec fn h_source(len: int, width: int, height: int, i: int) -> int {
    if h_exchanges(len, width, height, i / 4) {
        h_mate(width, i / 4) * 4 + i % 4
    } else {
        i
    }
}

/// The buffer `s`, laid out as rows of `width` RGBA pixels, flipped left to
/// right in its first `height` rows; pixels whose mirror image lies
/// past the end of the buffer stay where they are.
pub open spec fn flip_h(s: Seq<u8>, width: int, height: int) -> Seq<u8> {
    Seq::new(s.len(), |i: int| s[h_source(s.len() as int, width, height, i)])
}

/// The pairs of the rows before `row`, and those of row `row` whose left pixel
/// is in a column before `col`, have been exchanged.
spec fn h_done(len: int, width: int, height: int, row: int, col: int, p: int) -> bool {
    &&& h_exchanges(len, width, height, p)
    &&& (row_of(width, p) < row || (row_of(width, p) == row && min_int(
        col_of(width, p),
        reflect(width, col_of(width, p)),
    ) < col))
}

spec fn h_source_upto(len: int, width: int, height: int, row: int, col: int, i: int) -> int {
    if h_done(len, width, height, row, col, i / 4) {
        h_mate(width, i / 4) * 4 + i % 4
    } else {
        i
    }
}

spec fn flip_h_upto(s: Seq<u8>, width: int, height: int, row: int, col: int) -> Seq<u8> {
    Seq::new(s.len(), |i: int| s[h_source_upto(s.len() as int, width, height, row, col, i)])
}

proof fn lemma_h_exchange_byte(len: int, width: int, height: int, y: int, x: int, i: int)
    requires
        width > 0,
        0 <= y < height,
        0 <= x < width / 2,
        pixel_at(width, y, reflect(width, x)) * 4 + 4 <= len,
        0 <= i < len,
    ensures
        h_source_upto(len, width, height, y, x + 1, i) == h_source_upto(
            len,
            width,
            height,
            y,
            x,
            pair_swap_source(pixel_at(width, y, x) * 4, pixel_at(width, y, reflect(width, x)) * 4, i),
        ),
{
    let pl = pixel_at(width, y, x);
    let pr = pixel_at(width, y, reflect(width, x));
    lemma_pixel_coords(width, y, x);
    lemma_pixel_coords(width, y, reflect(width, x));
    let p = i / 4;
    lemma_pixel_split(width, p);
    lemma_byte_split(p, i % 4);
    if pl * 4 <= i < pl * 4 + 4 {
        lemma_byte_split(pl, i - pl * 4);
        lemma_byte_split(pr, i - pl * 4);
        assert(h_exchanges(len, width, height, pl));
    } else if pr * 4 <= i < pr * 4 + 4 {
        lemma_byte_split(pl, i - pr * 4);
        lemma_byte_split(pr, i - pr * 4);
        assert(h_exchanges(len, width, height, pr));
    } else {
        assert(p != pl && p != pr);
        if row_of(width, p) == y {
            assert(col_of(width, p) != x);
            assert(col_of(width, p) != reflect(width, x));
        }
    }
}

proof fn lemma_h_skip_byte(len: int, width: int, height: int, y: int, x: int, i: int)
    requires
        width > 0,
        0 <= y < height,
        0 <= x < width / 2,
        pixel_at(width, y, reflect(width, x)) * 4 + 4 > len,
        0 <= i < len,
    ensures
        h_source_upto(len, width, height, y, x + 1, i) == h_source_upto(
            len,
            width,
            height,
            y,
            x,
            i,
        ),
{
    let p = i / 4;
    lemma_pixel_split(width, p);
    lemma_pixel_coords(width, y, x);
    lemma_pixel_coords(width, y, reflect(width, x));
    if row_of(width, p) == y && min_int(col_of(width, p), reflect(width, col_of(width, p))) == x {
        assert(!h_exchanges(len, width, height, p));
    }
}

proof fn lemma_h_row_end(len: int, width: int, height: int, y: int, i: int)
    requires
        width >= 0,
        0 <= y,
        0 <= i < len,
    ensures
        h_source_upto(len, width, height, y, width / 2, i) == h_source_upto(
            len,
            width,
            height,
            y + 1,
            0,
            i,
        ),
{
    if width > 0 {
        lemma_pixel_split(width, i / 4);
    }
}

proof fn lemma_h_all_rows(len: int, width: int, height: int, i: int)
    requires
        width > 0,
        0 <= height,
        0 <= i < len,
    ensures
        h_source_upto(len, width, height, height, 0, i) == h_source(len, width, height, i),
{
}

/// Flips the first `height` rows of an RGBA buffer of rows `width` pixels
/// wide from left to right.  A pair of pixels whose right-hand pixel does not
/// fit in the buffer is left as it is.
pub fn mirror_horizontal(data: &mut [u8], width: usize, height: usize)
    requires
        width < 2 || width * height <= usize::MAX + 1,
    ensures
        final(data)@ == flip_h(old(data)@, width as int, height as int),
{
    let ghost orig = data@;
    let ghost len = orig.len() as int;
    let half = width / 2;
    assert(data@ =~= flip_h_upto(orig, width as int, height as int, 0, 0));
    for y in 0..height
        invariant
            len == orig.len(),
            data@.len() == len,
            half == width / 2,
            width < 2 || width * height <= usize::MAX + 1,
            data@ == flip_h_upto(orig, width as int, height as int, y as int, 0),
    {
        for x in 0..half
            invariant
                len == orig.len(),
                data@.len() == len,
                half == width / 2,
                0 <= y < height,
                width < 2 || width * height <= usize::MAX + 1,
                data@ == flip_h_upto(orig, width as int, height as int, y as int, x as int),
        {
            assert(y * width + reflect(width as int, x as int) <= width * height - 1) by (nonlinear_arith)
                requires
                    0 <= y < height,
                    0 <= x < width / 2,
            ;
            let n = data.len();
            let left = (y * width + x).checked_mul(4);
            let right = (y * width + (width - 1 - x)).checked_mul(4);
            let mut exchanged = false;
            if let Some(left_idx) = left {
                if let Some(right_idx) = right {
                    if left_idx + 3 < n && right_idx + 3 < n {
                        swap_pixels(data, left_idx, right_idx);
                        exchanged = true;
                    }
                }
            }
            if exchanged {
                assert forall|i: int| 0 <= i < len implies #[trigger] data@[i] == orig[h_source_upto(
                    len,
                    width as int,
                    height as int,
                    y as int,
                    x + 1,
                    i,
                )] by {
                    lemma_h_exchange_byte(len, width as int, height as int, y as int, x as int, i);
                }
            } else {
                assert(pixel_at(width as int, y as int, reflect(width as int, x as int)) * 4 + 4 > len);
                assert forall|i: int| 0 <= i < len implies #[trigger] h_source_upto(
                    len,
                    width as int,
                    height as int,
                    y as int,
                    x + 1,
                    i,
                ) == h_source_upto(len, width as int, height as int, y as int, x as int, i) by {
                    lemma_h_skip_byte(len, width as int, height as int, y as int, x as int, i);
                }
            }
            assert(data@ =~= flip_h_upto(orig, width as int, height as int, y as int, x + 1));
        }
        assert forall|i: int| 0 <= i < len implies #[trigger] h_source_upto(
            len,
            width as int,
            height as int,
            y as int,
            width as int / 2,
            i,
        ) == h_source_upto(len, width as int, height as int, y + 1, 0, i) by {
            lemma_h_row_end(len, width as int, height as int, y as int, i);
        }
        assert(data@ =~= flip_h_upto(orig, width as int, height as int, y + 1, 0));
    }
    if width > 0 {
        assert forall|i: int| 0 <= i < len implies #[trigger] h_source_upto(
            len,
            width as int,
            height as int,
            height as int,
            0,
            i,
        ) == h_source(len, width as int, height as int, i) by {
            lemma_h_all_rows(len, width as int, height as int, i);
        }
    }
    assert(data@ =~= flip_h(orig, width as int, height as int));
}

// ---------------------------------------------------------------------------
// Vertical flip
// ---------------------------------------------------------------------------

/// The vertical flip exchanges pixel `p` with its mirror image in the same
/// column: `p` lies in one of the `height` rows, not in the middle row, and the
/// lower pixel of the pair ends inside a buffer of `len` bytes.
pub open spec fn v_exchanges(len: int, width: int, height: int, p: int) -> bool {
    let row = row_of(width, p);
    let col = col_of(width, p);
    &&& width > 0
    &&& p >= 0
    &&& row < height
    &&& row != reflect(height, row)
    &&& pixel_at(width, max_int(row, reflect(height, row)), col) * 4 + 4 <= len
}

/// The pixel that the vertical flip exchanges with `p`.
pub open spec fn v_mate(width: int, height: int, p: int) -> int {
    pixel_at(width, reflect(height, row_of(width, p)), col_of(width, p))
}

/// Where byte `i` of the vertically flipped buffer comes from.
pub open spec fn v_source(len: int, width: int, height: int, i: int) -> int {
    if v_exchanges(len, width, height, i / 4) {
        v_mate(width, height, i / 4) * 4 + i % 4
    } else {
        i
    }
}

/// The buffer `s`, laid out as rows of `width` RGBA pixels, with its first
/// `height` rows put in reverse order; pixels whose mirror image lies
/// past the end of the buffer stay where they are.
pub open spec fn flip_v(s: Seq<u8>, width: int, height: int) -> Seq<u8> {
    Seq::new(s.len(), |i: int| s[v_source(s.len() as int, width, height, i)])
}

spec fn v_done(len: int, width: int, height: int, row: int, col: int, p: int) -> bool {
    let top = min_int(row_of(width, p), reflect(height, row_of(width, p)));
    &&& v_exchanges(len, width, height, p)
    &&& (top < row || (top == row && col_of(width, p) < col))
}

spec fn v_source_upto(len: int, width: int, height: int, row: int, col: int, i: int) -> int {
    if v_done(len, width, height, row, col, i / 4) {
        v_mate(width, height, i / 4) * 4 + i % 4
    } else {
        i
    }
}

spec fn flip_v_upto(s: Seq<u8>, width: int, height: int, row: int, col: int) -> Seq<u8> {
    Seq::new(s.len(), |i: int| s[v_source_upto(s.len() as int, width, height, row, col, i)])
}

proof fn lemma_v_exchange_byte(len: int, width: int, height: int, y: int, x: int, i: int)
    requires
        0 <= x < width,
        0 <= y < height / 2,
        pixel_at(width, reflect(height, y), x) * 4 + 4 <= len,
        0 <= i < len,
    ensures
        v_source_upto(len, width, height, y, x + 1, i) == v_source_upto(
            len,
            width,
            height,
            y,
            x,
            pair_swap_source(pixel_at(width, y, x) * 4, pixel_at(width, reflect(height, y), x) * 4, i),
        ),
{
    let pt = pixel_at(width, y, x);
    let pb = pixel_at(width, reflect(height, y), x);
    lemma_pixel_coords(width, y, x);
    lemma_pixel_coords(width, reflect(height, y), x);
    let p = i / 4;
    lemma_pixel_split(width, p);
    lemma_byte_split(p, i % 4);
    if pt * 4 <= i < pt * 4 + 4 {
        lemma_byte_split(pt, i - pt * 4);
        lemma_byte_split(pb, i - pt * 4);
        assert(v_exchanges(len, width, height, pt));
    } else if pb * 4 <= i < pb * 4 + 4 {
        lemma_byte_split(pt, i - pb * 4);
        lemma_byte_split(pb, i - pb * 4);
        assert(v_exchanges(len, width, height, pb));
    } else {
        assert(p != pt && p != pb);
        if col_of(width, p) == x {
            assert(row_of(width, p) != y);
            assert(row_of(width, p) != reflect(height, y));
        }
    }
}

proof fn lemma_v_skip_byte(len: int, width: int, height: int, y: int, x: int, i: int)
    requires
        0 <= x < width,
        0 <= y < height / 2,
        pixel_at(width, reflect(height, y), x) * 4 + 4 > len,
        0 <= i < len,
    ensures
        v_source_upto(len, width, height, y, x + 1, i) == v_source_upto(
            len,
            width,
            height,
            y,
            x,
            i,
        ),
{
    let p = i / 4;
    lemma_pixel_split(width, p);
    lemma_pixel_coords(width, y, x);
    lemma_pixel_coords(width, reflect(height, y), x);
    if col_of(width, p) == x && min_int(row_of(width, p), reflect(height, row_of(width, p))) == y {
        assert(!v_exchanges(len, width, height, p));
    }
}

proof fn lemma_v_row_end(len: int, width: int, height: int, y: int, i: int)
    requires
        width >= 0,
        0 <= y,
        0 <= i < len,
    ensures
        v_source_upto(len, width, height, y, width, i) == v_source_upto(
            len,
            width,
            height,
            y + 1,
            0,
            i,
        ),
{
    if width > 0 {
        lemma_pixel_split(width, i / 4);
    }
}

proof fn lemma_v_all_rows(len: int, width: int, height: int, i: int)
    requires
        0 <= height,
        0 <= i < len,
    ensures
        v_source_upto(len, width, height, height / 2, 0, i) == v_source(len, width, height, i),
{
}

/// Puts the first `height` rows of an RGBA buffer of rows `width` pixels wide
/// in reverse order.  A pair of pixels whose lower pixel does not fit in the
/// buffer is left as it is.
pub fn mirror_vertical(data: &mut [u8], width: usize, height: usize)
    requires
        height < 2 || width * height <= usize::MAX + 1,
    ensures
        final(data)@ == flip_v(old(data)@, width as int, height as int),
{
    let ghost orig = data@;
    let ghost len = orig.len() as int;
    let half = height / 2;
    assert(data@ =~= flip_v_upto(orig, width as int, height as int, 0, 0));
    for y in 0..half
        invariant
            len == orig.len(),
            data@.len() == len,
            half == height / 2,
            height < 2 || width * height <= usize::MAX + 1,
            data@ == flip_v_upto(orig, width as int, height as int, y as int, 0),
    {
        for x in 0..width
            invariant
                len == orig.len(),
                data@.len() == len,
                half == height / 2,
                0 <= y < height / 2,
                height < 2 || width * height <= usize::MAX + 1,
                data@ == flip_v_upto(orig, width as int, height as int, y as int, x as int),
        {
            assert(reflect(height as int, y as int) * width + x <= width * height - 1) by (nonlinear_arith)
                requires
                    0 <= y < height / 2,
                    0 <= x < width,
            ;
            assert(y * width + x + 1 <= reflect(height as int, y as int) * width + x) by (nonlinear_arith)
                requires
                    0 <= y < height / 2,
                    0 <= x < width,
            ;
            let n = data.len();
            let top = (y * width + x).checked_mul(4);
            let bottom = ((height - 1 - y) * width + x).checked_mul(4);
            let mut exchanged = false;
            if let Some(top_idx) = top {
                if let Some(bottom_idx) = bottom {
                    if top_idx + 3 < n && bottom_idx + 3 < n {
                        swap_pixels(data, top_idx, bottom_idx);
                        exchanged = true;
                    }
                }
            }
            if exchanged {
                assert forall|i: int| 0 <= i < len implies #[trigger] data@[i] == orig[v_source_upto(
                    len,
                    width as int,
                    height as int,
                    y as int,
                    x + 1,
                    i,
                )] by {
                    lemma_v_exchange_byte(len, width as int, height as int, y as int, x as int, i);
                }
            } else {
                assert(pixel_at(width as int, reflect(height as int, y as int), x as int) * 4 + 4 > len);
                assert forall|i: int| 0 <= i < len implies #[trigger] v_source_upto(
                    len,
                    width as int,
                    height as int,
                    y as int,
                    x + 1,
                    i,
                ) == v_source_upto(len, width as int, height as int, y as int, x as int, i) by {
                    lemma_v_skip_byte(len, width as int, height as int, y as int, x as int, i);
                }
            }
            assert(data@ =~= flip_v_upto(orig, width as int, height as int, y as int, x + 1));
        }
        assert forall|i: int| 0 <= i < len implies #[trigger] v_source_upto(
            len,
            width as int,
            height as int,
            y as int,
            width as int,
            i,
        ) == v_source_upto(len, width as int, height as int, y + 1, 0, i) by {
            lemma_v_row_end(len, width as int, height as int, y as int, i);
        }
        assert(data@ =~= flip_v_upto(orig, width as int, height as int, y + 1, 0));
    }
    assert forall|i: int| 0 <= i < len implies #[trigger] v_source_upto(
        len,
        width as int,
        height as int,
        height as int / 2,
        0,
        i,
    ) == v_source(len, width as int, height as int, i) by {
        lemma_v_all_rows(len, width as int, height as int, i);
    }
    assert(data@ =~= flip_v(orig, width as int, height as int));
}

// ---------------------------------------------------------------------------
// Both flips, as the mirror plugin applies them
// ---------------------------------------------------------------------------

/// Which flips the mirror plugin applies.
#[derive(Debug, Clone, Copy, PartialEq, Eq, Structural)]
pub struct MirrorParams {
    pub horizontal: bool,
    pub vertical: bool,
}

impl Default for MirrorParams {
    /// A missing flag means that flip is not applied.
    fn default() -> (params: Self)
        ensures
            !params.horizontal,
            !params.vertical,
    {
        MirrorParams { horizontal: false, vertical: false }
    }
}

/// The buffer after the horizontal flip, if asked for, then the vertical one.
pub open spec fn mirrored(s: Seq<u8>, width: int, height: int, params: MirrorParams) -> Seq<u8> {
    let after_h = if params.horizontal {
        flip_h(s, width, height)
    } else {
        s
    };
    if params.vertical {
        flip_v(after_h, width, height)
    } else {
        after_h
    }
}

/// Applies the flips that `params` asks for to a frame of `width` by `height`
/// RGBA pixels: first the horizontal one, then the vertical one.
pub fn mirror_image(data: &mut [u8], width: usize, height: usize, params: &MirrorParams)
    requires
        old(data)@.len() == width * height * 4,
    ensures
        final(data)@ == mirrored(old(data)@, width as int, height as int, *params),
{
    let n = data.len();
    assert(width * height <= usize::MAX) by (nonlinear_arith)
        requires
            width * height * 4 == n,
            n <= usize::MAX,
    ;
    if params.horizontal {
        mirror_horizontal(data, width, height);
    }
    if params.vertical {
        mirror_vertical(data, width, height);
    }
}

// ---------------------------------------------------------------------------
// Laws
// ---------------------------------------------------------------------------

proof fn lemma_h_source_twice(len: int, width: int, height: int, i: int)
    requires
        width >= 0,
        0 <= i < len,
    ensures
        0 <= h_source(len, width, height, i) < len,
        h_source(len, width, height, h_source(len, width, height, i)) == i,
{
    let p = i / 4;
    if h_exchanges(len, width, height, p) {
        lemma_pixel_split(width, p);
        let row = row_of(width, p);
        let col = col_of(width, p);
        let q = h_mate(width, p);
        lemma_pixel_coords(width, row, reflect(width, col));
        lemma_byte_split(q, i % 4);
        assert(h_exchanges(len, width, height, q));
        assert(h_mate(width, q) == p);
    }
}

/// Flipping left to right twice gives the buffer back, whatever its length.
pub proof fn lemma_flip_h_twice(s: Seq<u8>, width: int, height: int)
    requires
        width >= 0,
    ensures
        flip_h(flip_h(s, width, height), width, height) == s,
{
    assert forall|i: int| 0 <= i < s.len() implies #[trigger] flip_h(
        flip_h(s, width, height),
        width,
        height,
    )[i] == s[i] by {
        lemma_h_source_twice(s.len() as int, width, height, i);
    }
    assert(flip_h(flip_h(s, width, height), width, height) =~= s);
}

proof fn lemma_v_source_twice(len: int, width: int, height: int, i: int)
    requires
        width >= 0,
        0 <= i < len,
    ensures
        0 <= v_source(len, width, height, i) < len,
        v_source(len, width, height, v_source(len, width, height, i)) == i,
{
    let p = i / 4;
    if v_exchanges(len, width, height, p) {
        lemma_pixel_split(width, p);
        let row = row_of(width, p);
        let col = col_of(width, p);
        let q = v_mate(width, height, p);
        let lo = min_int(row, reflect(height, row));
        let hi = max_int(row, reflect(height, row));
        assert(0 <= lo * width + col <= hi * width + col) by (nonlinear_arith)
            requires
                0 <= lo <= hi,
                width > 0,
                col >= 0,
        ;
        lemma_pixel_coords(width, reflect(height, row), col);
        lemma_byte_split(q, i % 4);
        assert(v_exchanges(len, width, height, q));
        assert(v_mate(width, height, q) == p);
    }
}

/// Putting the rows in reverse order twice gives the buffer back, whatever its
/// length.
pub proof fn lemma_flip_v_twice(s: Seq<u8>, width: int, height: int)
    requires
        width >= 0,
    ensures
        flip_v(flip_v(s, width, height), width, height) == s,
{
    assert forall|i: int| 0 <= i < s.len() implies #[trigger] flip_v(
        flip_v(s, width, height),
        width,
        height,
    )[i] == s[i] by {
        lemma_v_source_twice(s.len() as int, width, height, i);
    }
    assert(flip_v(flip_v(s, width, height), width, height) =~= s);
}

proof fn lemma_frame_row(width: int, height: int, p: int)
    requires
        width > 0,
        0 <= p < width * height,
    ensures
        row_of(width, p) < height,
{
    lemma_pixel_split(width, p);
    let row = row_of(width, p);
    assert(row < height) by (nonlinear_arith)
        requires
            width > 0,
            p == row * width + col_of(width, p),
            col_of(width, p) >= 0,
            p < width * height,
    ;
}

/// In a buffer that holds exactly the frame, the horizontal flip takes every
/// byte from the mirrored column of the same row.
proof fn lemma_h_source_exact(width: int, height: int, i: int)
    requires
        width >= 0,
        height >= 0,
        0 <= i < width * height * 4,
    ensures
        width > 0,
        h_source(width * height * 4, width, height, i) == pixel_at(
            width,
            row_of(width, i / 4),
            reflect(width, col_of(width, i / 4)),
        ) * 4 + i % 4,
{
    let p = i / 4;
    if width == 0 {
        assert(width * height * 4 == 0) by (nonlinear_arith)
            requires
                width == 0,
        ;
    }
    lemma_frame_row(width, height, p);
    lemma_pixel_split(width, p);
    let row = row_of(width, p);
    let col = col_of(width, p);
    lemma_pixel_in_frame(width, height, row, max_int(col, reflect(width, col)));
}

/// In a buffer that holds exactly the frame, the vertical flip takes every
/// byte from the mirrored row of the same column.
proof fn lemma_v_source_exact(width: int, height: int, i: int)
    requires
        width >= 0,
        height >= 0,
        0 <= i < width * height * 4,
    ensures
        width > 0,
        row_of(width, i / 4) < height,
        v_source(width * height * 4, width, height, i) == pixel_at(
            width,
            reflect(height, row_of(width, i / 4)),
            col_of(width, i / 4),
        ) * 4 + i % 4,
{
    let p = i / 4;
    if width == 0 {
        assert(width * height * 4 == 0) by (nonlinear_arith)
            requires
                width == 0,
        ;
    }
    lemma_frame_row(width, height, p);
    lemma_pixel_split(width, p);
    let row = row_of(width, p);
    let col = col_of(width, p);
    lemma_pixel_in_frame(width, height, max_int(row, reflect(height, row)), col);
}

/// On a buffer that holds exactly a `width` by `height` frame, the two flips
/// can be applied in either order.
pub proof fn lemma_flips_commute(s: Seq<u8>, width: int, height: int)
    requires
        width >= 0,
        height >= 0,
        s.len() == width * height * 4,
    ensures
        flip_v(flip_h(s, width, height), width, height) == flip_h(
            flip_v(s, width, height),
            width,
            height,
        ),
{
    let len = s.len() as int;
    assert forall|i: int| 0 <= i < len implies #[trigger] flip_v(
        flip_h(s, width, height),
        width,
        height,
    )[i] == flip_h(flip_v(s, width, height), width, height)[i] by {
        let p = i / 4;
        let c = i % 4;
        lemma_v_source_exact(width, height, i);
        lemma_h_source_exact(width, height, i);
        lemma_pixel_split(width, p);
        let row = row_of(width, p);
        let col = col_of(width, p);
        let vp = pixel_at(width, reflect(height, row), col);
        let hp = pixel_at(width, row, reflect(width, col));
        lemma_pixel_coords(width, reflect(height, row), col);
        lemma_pixel_coords(width, row, reflect(width, col));
        lemma_byte_split(vp, c);
        lemma_byte_split(hp, c);
        lemma_pixel_in_frame(width, height, reflect(height, row), col);
        lemma_pixel_in_frame(width, height, row, reflect(width, col));
        lemma_v_source_exact(width, height, vp * 4 + c);
        lemma_h_source_exact(width, height, vp * 4 + c);
        lemma_v_source_exact(width, height, hp * 4 + c);
        lemma_h_source_exact(width, height, hp * 4 + c);
    }
    assert(flip_v(flip_h(s, width, height), width, height) =~= flip_h(
        flip_v(s, width, height),
        width,
        height,
    ));
}

/// Mirroring a frame twice with the same parameters gives it back: the
/// buffer holds exactly the frame, as the plugin's caller guarantees.
pub proof fn lemma_mirror_twice(s: Seq<u8>, width: int, height: int, params: MirrorParams)
    requires
        width >= 0,
        height >= 0,
        s.len() == width * height * 4,
    ensures
        mirrored(mirrored(s, width, height, params), width, height, params) == s,
{
    lemma_flip_h_twice(s, width, height);
    lemma_flip_v_twice(s, width, height);
    if params.horizontal && params.vertical {
        let hs = flip_h(s, width, height);
        let t = flip_v(hs, width, height);
        assert(hs.len() == s.len());
        assert(t.len() == s.len());
        lemma_flips_commute(t, width, height);
        lemma_flip_v_twice(hs, width, height);
        lemma_flip_h_twice(s, width, height);
    }
}

/// Byte `c` of pixel (`x`, `y`) of a frame that fills its buffer exactly, as
/// the left-to-right flip leaves it: the byte of pixel (`width - 1 - x`, `y`).
pub proof fn lemma_flip_h_pixel(s: Seq<u8>, width: int, height: int, x: int, y: int, c: int)
    requires
        width >= 0,
        height >= 0,
        s.len() == width * height * 4,
        0 <= x < width,
        0 <= y < height,
        0 <= c < 4,
    ensures
        0 <= (y * width + x) * 4 + c < s.len(),
        0 <= (y * width + (width - 1 - x)) * 4 + c < s.len(),
        flip_h(s, width, height)[(y * width + x) * 4 + c] == s[(y * width + (width - 1 - x)) * 4
            + c],
{
    lemma_pixel_in_frame(width, height, y, x);
    lemma_pixel_in_frame(width, height, y, width - 1 - x);
    assert(0 <= y * width) by (nonlinear_arith)
        requires
            0 <= y,
            0 <= width,
    ;
    let i = (y * width + x) * 4 + c;
    lemma_byte_split(y * width + x, c);
    lemma_pixel_coords(width, y, x);
    lemma_h_source_exact(width, height, i);
}

/// Byte `c` of pixel (`x`, `y`) of a frame that fills its buffer exactly, as
/// reversing the rows leaves it: the byte of pixel (`x`, `height - 1 - y`).
pub proof fn lemma_flip_v_pixel(s: Seq<u8>, width: int, height: int, x: int, y: int, c: int)
    requires
        width >= 0,
        height >= 0,
        s.len() == width * height * 4,
        0 <= x < width,
        0 <= y < height,
        0 <= c < 4,
    ensures
        0 <= (y * width + x) * 4 + c < s.len(),
        0 <= ((height - 1 - y) * width + x) * 4 + c < s.len(),
        flip_v(s, width, height)[(y * width + x) * 4 + c] == s[((height - 1 - y) * width + x) * 4
            + c],
{
    lemma_pixel_in_frame(width, height, y, x);
    lemma_pixel_in_frame(width, height, height - 1 - y, x);
    assert(0 <= y * width && 0 <= (height - 1 - y) * width) by (nonlinear_arith)
        requires
            0 <= y < height,
            0 <= width,
    ;
    let i = (y * width + x) * 4 + c;
    lemma_byte_split(y * width + x, c);
    lemma_pixel_coords(width, y, x);
    lemma_v_source_exact(width, height, i);
}

/// What the mirror plugin does to a frame that fills its buffer exactly, for
/// any width and height: byte `c` of pixel (`x`, `y`) ends up holding byte `c`
/// of pixel (`width - 1 - x`, `y`) when only the horizontal flip is asked for,
/// of pixel (`x`, `height - 1 - y`) when only the vertical one is, of pixel
/// (`width - 1 - x`, `height - 1 - y`) when both are, and of pixel (`x`, `y`)
/// when neither is.
pub proof fn lemma_mirror_image_moves_pixels(
    s: Seq<u8>,
    width: int,
    height: int,
    params: MirrorParams,
    x: int,
    y: int,
    c: int,
)
    requires
        width >= 0,
        height >= 0,
        s.len() == width * height * 4,
        0 <= x < width,
        0 <= y < height,
        0 <= c < 4,
    ensures
        ({
            let src_x = if params.horizontal {
                width - 1 - x
            } else {
                x
            };
            let src_y = if params.vertical {
                height - 1 - y
            } else {
                y
            };
            mirrored(s, width, height, params)[(y * width + x) * 4 + c] == s[(src_y * width
                + src_x) * 4 + c]
        }),
{
    let hs = flip_h(s, width, height);
    let after_h = if params.horizontal {
        hs
    } else {
        s
    };
    assert(hs.len() == s.len());
    if params.vertical {
        lemma_flip_v_pixel(after_h, width, height, x, y, c);
        if params.horizontal {
            lemma_flip_h_pixel(s, width, height, x, height - 1 - y, c);
        }
    } else {
        if params.horizontal {
            lemma_flip_h_pixel(s, width, height, x, y, c);
        }
    }
}

} // verus!
