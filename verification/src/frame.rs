use vstd::prelude::*;

verus! {

/// Largest RGBA buffer, in bytes, that the plugins agree to touch.
pub const MAX_BUFFER_BYTES: usize = 1073741824;

/// Why a frame of the given dimensions cannot be processed.
#[derive(Debug, Clone, Copy, PartialEq, Eq, Structural)]
pub enum FrameError {
    /// The width or the height is zero.
    ZeroDimension,
    /// `width * height` does not fit in a `usize`.
    PixelCountOverflow,
    /// `width * height * 4` does not fit in a `usize`.
    ByteCountOverflow,
    /// The buffer would take the given number of bytes, more than
    /// `MAX_BUFFER_BYTES`.
    TooLarge(usize),
}

/// Number of bytes of an RGBA frame of `width` by `height` pixels.
pub open spec fn frame_bytes(width: int, height: int) -> int {
    width * height * 4
}

/// What `rgba_buffer_len` answers for the given dimensions.
pub open spec fn buffer_len_result(width: u32, height: u32) -> Result<usize, FrameError> {
    if width == 0 || height == 0 {
        Err(FrameError::ZeroDimension)
    } else if width * height > usize::MAX {
        Err(FrameError::PixelCountOverflow)
    } else if frame_bytes(width as int, height as int) > usize::MAX {
        Err(FrameError::ByteCountOverflow)
    } else if frame_bytes(width as int, height as int) > MAX_BUFFER_BYTES {
        Err(FrameError::TooLarge(frame_bytes(width as int, height as int) as usize))
    } else {
        Ok(frame_bytes(width as int, height as int) as usize)
    }
}

/// Checks the dimensions of an RGBA frame and returns its size in bytes.
pub fn rgba_buffer_len(width: u32, height: u32) -> (res: Result<usize, FrameError>)
    ensures
        res == buffer_len_result(width, height),
{
    if width == 0 || height == 0 {
        return Err(FrameError::ZeroDimension);
    }
    let w = width as usize;
    let h = height as usize;
    let total_pixels = match w.checked_mul(h) {
        Some(p) => p,
        None => return Err(FrameError::PixelCountOverflow),
    };
    let size = match total_pixels.checked_mul(4) {
        Some(s) => s,
        None => return Err(FrameError::ByteCountOverflow),
    };
    if size > MAX_BUFFER_BYTES {
        return Err(FrameError::TooLarge(size));
    }
    Ok(size)
}

/// What the frame check answers, in terms of the sides alone: a frame with
/// both sides positive whose RGBA buffer takes at most `MAX_BUFFER_BYTES`
/// bytes is accepted with `width * height * 4` bytes; a frame is refused for a
/// zero side exactly when it has one, for an overflow only when the product
/// does not fit in a `usize`, and as too large only when its buffer would
/// exceed `MAX_BUFFER_BYTES`; and the answer is the same with the sides
/// swapped.
pub proof fn lemma_frame_check(width: u32, height: u32)
    ensures
        width > 0 && height > 0 && width * height * 4 <= MAX_BUFFER_BYTES ==> buffer_len_result(
            width,
            height,
        ) == Ok::<usize, FrameError>((width * height * 4) as usize),
        buffer_len_result(width, height) matches Ok(n) ==> width > 0 && height > 0 && n == width
            * height * 4 && n <= MAX_BUFFER_BYTES,
        (buffer_len_result(width, height) == Err::<usize, FrameError>(FrameError::ZeroDimension))
            <==> (width == 0 || height == 0),
        buffer_len_result(width, height) == Err::<usize, FrameError>(
            FrameError::PixelCountOverflow,
        ) ==> width * height > usize::MAX,
        buffer_len_result(width, height) == Err::<usize, FrameError>(FrameError::ByteCountOverflow)
            ==> width * height * 4 > usize::MAX,
        buffer_len_result(width, height) matches Err(FrameError::TooLarge(n)) ==> n == width
            * height * 4 && n > MAX_BUFFER_BYTES,
        buffer_len_result(width, height) == buffer_len_result(height, width),
{
    assert(width * height == height * width && width * height * 4 == height * width * 4)
        by (nonlinear_arith);
}

} // verus!
