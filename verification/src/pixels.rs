//! The RGBA8 buffer model: row-major pixels of four bytes each, and the
//! arithmetic that relates a byte's position to its column, row and channel.

use vstd::arithmetic::div_mod::lemma_fundamental_div_mod;
use vstd::arithmetic::div_mod::lemma_fundamental_div_mod_converse;
use vstd::arithmetic::div_mod::lemma_mod_bound;
use vstd::prelude::*;

verus! {

/// Bytes per pixel: red, green, blue, alpha.
pub const CHANNELS: usize = 4;

/// The length of the buffer of a `width` by `height` image.
pub open spec fn buffer_len(width: int, height: int) -> int {
    width * height * 4
}

/// Whether a buffer of `len` bytes is the buffer of a `width` by `height`
/// image, as far as such a buffer can exist: where the image's size is beyond
/// `usize`, nothing is asked of the buffer.
pub open spec fn buffer_fits(len: int, width: int, height: int) -> bool {
    buffer_len(width, height) <= usize::MAX ==> len == buffer_len(width, height)
}

/// The position of channel `c` of the pixel in column `x` of row `y`.
pub open spec fn byte_index(width: int, x: int, y: int, c: int) -> int {
    (y * width + x) * 4 + c
}

/// The channel that byte `i` holds.
pub open spec fn channel_of(i: int) -> int {
    i % 4
}

/// The column of the pixel that byte `i` belongs to.
pub open spec fn column_of(width: int, i: int) -> int {
    (i / 4) % width
}

/// The row of the pixel that byte `i` belongs to.
pub open spec fn row_of(width: int, i: int) -> int {
    (i / 4) / width
}

/// Whether `x`, `y`, `c` name a channel of a pixel inside the image.
pub open spec fn in_image(width: int, height: int, x: int, y: int, c: int) -> bool {
    0 <= x < width && 0 <= y < height && 0 <= c < 4
}

/// An image without columns or without rows has an empty buffer.
pub proof fn lemma_empty_image(width: int, height: int)
    requires
        width == 0 || height == 0,
    ensures
        buffer_len(width, height) == 0,
{
    assert(width * height * 4 == 0) by (nonlinear_arith)
        requires
            width == 0 || height == 0,
    ;
}

/// The number of pixels before the end of a row, or of rows before the end of
/// the image, is bounded by the product.
pub proof fn lemma_pixel_count(width: int, height: int, x: int, y: int)
    requires
        0 <= x < width,
        0 <= y < height,
    ensures
        0 <= y * width,
        y * width + x < width * height,
        y * width + width <= width * height,
{
    assert(0 <= y * width) by (nonlinear_arith)
        requires
            0 <= y,
            0 < width,
    ;
    assert(y * width + width <= width * height) by (nonlinear_arith)
        requires
            0 <= y < height,
            0 < width,
    ;
}

/// A byte of a pixel inside the image lies inside the buffer.
pub proof fn lemma_byte_index_bounds(width: int, height: int, x: int, y: int, c: int)
    requires
        in_image(width, height, x, y, c),
    ensures
        0 <= byte_index(width, x, y, c) < buffer_len(width, height),
{
    lemma_pixel_count(width, height, x, y);
}

/// `byte_index` is undone by `column_of`, `row_of` and `channel_of`.
pub proof fn lemma_byte_index_parts(width: int, x: int, y: int, c: int)
    requires
        0 <= x < width,
        0 <= y,
        0 <= c < 4,
    ensures
        channel_of(byte_index(width, x, y, c)) == c,
        column_of(width, byte_index(width, x, y, c)) == x,
        row_of(width, byte_index(width, x, y, c)) == y,
        byte_index(width, x, y, c) / 4 == y * width + x,
{
    let p: int = y * width + x;
    let i: int = byte_index(width, x, y, c);
    lemma_fundamental_div_mod_converse(i, 4, p, c);
    lemma_fundamental_div_mod_converse(p, width, y, x);
}

/// Every byte of the buffer is a channel of a pixel inside the image, and
/// `byte_index` of its column, row and channel gives the byte back.
pub proof fn lemma_index_parts(width: int, height: int, i: int)
    requires
        0 <= i < buffer_len(width, height),
        0 <= width,
        0 <= height,
    ensures
        in_image(width, height, column_of(width, i), row_of(width, i), channel_of(i)),
        byte_index(width, column_of(width, i), row_of(width, i), channel_of(i)) == i,
{
    assert(width > 0 && height > 0) by (nonlinear_arith)
        requires
            0 <= i < width * height * 4,
            0 <= width,
            0 <= height,
    ;
    let p: int = i / 4;
    lemma_fundamental_div_mod(i, 4);
    lemma_fundamental_div_mod(p, width);
    lemma_mod_bound(p, width);
    let y: int = p / width;
    let x: int = p % width;
    assert(width * y == y * width) by (nonlinear_arith);
    assert(0 <= p < width * height);
    assert(0 <= y < height) by (nonlinear_arith)
        requires
            p == y * width + x,
            0 <= x < width,
            0 <= p < width * height,
            0 < height,
    ;
}

/// The four bytes that start at `byte_index(width, x, y, 0)` are exactly the
/// bytes whose column is `x` and whose row is `y`.
pub proof fn lemma_pixel_block(width: int, x: int, y: int, i: int)
    requires
        0 <= x < width,
        0 <= y,
        0 <= i,
    ensures
        (byte_index(width, x, y, 0) <= i < byte_index(width, x, y, 0) + 4) <==> (column_of(
            width,
            i,
        ) == x && row_of(width, i) == y),
        (byte_index(width, x, y, 0) <= i < byte_index(width, x, y, 0) + 4) ==> i == byte_index(
            width,
            x,
            y,
            channel_of(i),
        ),
{
    let p: int = y * width + x;
    lemma_fundamental_div_mod(i, 4);
    lemma_fundamental_div_mod(i / 4, width);
    lemma_mod_bound(i / 4, width);
    assert(width * ((i / 4) / width) == ((i / 4) / width) * width) by (nonlinear_arith);
    if p * 4 <= i < p * 4 + 4 {
        lemma_fundamental_div_mod_converse(i, 4, p, i - p * 4);
        lemma_fundamental_div_mod_converse(p, width, y, x);
    }
}

/// The bytes from `y * width * 4` up to `(y + 1) * width * 4` are exactly the
/// bytes whose row is `y`; inside a row, a byte keeps its offset.
pub proof fn lemma_row_block(width: int, y: int, i: int)
    requires
        0 < width,
        0 <= y,
        0 <= i,
    ensures
        (y * (width * 4) <= i < y * (width * 4) + width * 4) <==> row_of(width, i) == y,
        i - row_of(width, i) * (width * 4) == column_of(width, i) * 4 + channel_of(i),
{
    lemma_fundamental_div_mod(i, 4);
    lemma_fundamental_div_mod(i / 4, width);
    lemma_mod_bound(i / 4, width);
    let r: int = (i / 4) / width;
    let x: int = (i / 4) % width;
    assert(width * r == r * width) by (nonlinear_arith);
    assert(r * (width * 4) == (r * width) * 4) by (nonlinear_arith);
    assert(y * (width * 4) == (y * width) * 4) by (nonlinear_arith);
    if r < y {
        assert((r + 1) * width <= y * width) by (nonlinear_arith)
            requires
                r + 1 <= y,
                0 < width,
        ;
        assert((r + 1) * width == r * width + width) by (nonlinear_arith);
    }
    if r > y {
        assert((y + 1) * width <= r * width) by (nonlinear_arith)
            requires
                y + 1 <= r,
                0 < width,
        ;
        assert((y + 1) * width == y * width + width) by (nonlinear_arith);
    }
}

/// Whether a buffer of `len` bytes is exactly the buffer of a `width` by
/// `height` image.
pub fn buffer_matches(len: usize, width: u32, height: u32) -> (r: bool)
    ensures
        r == (len == buffer_len(width as int, height as int)),
        r ==> buffer_fits(len as int, width as int, height as int),
{
    match checked_buffer_len(width, height) {
        Some(expected) => len == expected,
        None => false,
    }
}

/// The buffer length of a `width` by `height` image, or `None` where it is
/// beyond `usize`.
pub fn checked_buffer_len(width: u32, height: u32) -> (r: Option<usize>)
    ensures
        match r {
            Some(n) => n == buffer_len(width as int, height as int),
            None => buffer_len(width as int, height as int) > usize::MAX,
        },
{
    let w: usize = width as usize;
    let h: usize = height as usize;
    match w.checked_mul(h) {
        Some(pixels) => pixels.checked_mul(CHANNELS),
        None => {
            assert(w * h * 4 >= w * h) by (nonlinear_arith)
                requires
                    w * h >= 0,
            ;
            None
        },
    }
}

} // verus!
