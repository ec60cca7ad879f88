//! The flip transform: mirrors an RGBA8 image left to right, top to bottom,
//! or both, in place.

use crate::json::boolean_member;
use crate::json::object_of;
use crate::json::parse_object;
use crate::json::read_boolean;
use crate::pixels::buffer_fits;
use crate::pixels::buffer_len;
use crate::pixels::byte_index;
use crate::pixels::channel_of;
use crate::pixels::checked_buffer_len;
use crate::pixels::column_of;
use crate::pixels::lemma_byte_index_bounds;
use crate::pixels::lemma_byte_index_parts;
use crate::pixels::lemma_empty_image;
use crate::pixels::lemma_index_parts;
use crate::pixels::lemma_pixel_block;
use crate::pixels::lemma_pixel_count;
use crate::pixels::lemma_row_block;
use crate::pixels::row_of;
use vstd::prelude::*;

verus! {

/// What a call of the flip transform reports.
#[derive(Clone, Copy, Debug, PartialEq, Eq, Structural)]
pub enum MirrorError {
    /// The transform was applied, or none was asked for.
    Success,
    /// The parameter text could not be read.
    ParseError,
    /// The image's size cannot be held in `usize`.
    SizeOverflow,
}

impl MirrorError {
    /// The status code that crosses the plugin boundary.
    pub open spec fn spec_code(self) -> int {
        match self {
            MirrorError::Success => 0,
            MirrorError::ParseError => -1,
            MirrorError::SizeOverflow => -2,
        }
    }

    /// The status code that crosses the plugin boundary.
    pub fn code(&self) -> (r: i32)
        ensures
            r == self.spec_code(),
    {
        match self {
            MirrorError::Success => 0,
            MirrorError::ParseError => -1,
            MirrorError::SizeOverflow => -2,
        }
    }

    /// The status that a code stands for; `None` for a code that is not in
    /// use.
    pub fn from_code(code: i32) -> (r: Option<MirrorError>)
        ensures
            match r {
                Some(e) => e.spec_code() == code,
                None => code > 0 || code < -2,
            },
    {
        if code == 0 {
            Some(MirrorError::Success)
        } else if code == -1 {
            Some(MirrorError::ParseError)
        } else if code == -2 {
            Some(MirrorError::SizeOverflow)
        } else {
            None
        }
    }
}

/// Which flips to apply. Both default to `false`.
#[derive(Clone, Copy, Debug, PartialEq, Eq, Structural)]
pub struct Params {
    /// Mirror each row left to right.
    pub horizontal: bool,
    /// Mirror each column top to bottom.
    pub vertical: bool,
}

impl Default for Params {
    fn default() -> (r: Params)
        ensures
            r == (Params { horizontal: false, vertical: false }),
    {
        Params { horizontal: false, vertical: false }
    }
}

/// The parameters that a text holds: a JSON object whose members
/// `horizontal` and `vertical`, where present, are booleans. `None` for any
/// other text.
pub open spec fn params_of(text: Seq<char>) -> Option<Params> {
    match object_of(text) {
        None => None,
        Some(doc) => match (
            boolean_member(doc, "horizontal"@).spec_or(false),
            boolean_member(doc, "vertical"@).spec_or(false),
        ) {
            (Some(h), Some(v)) => Some(Params { horizontal: h, vertical: v }),
            _ => None,
        },
    }
}

/// Reads the flip parameters from their JSON text.
pub fn parse_params(text: &str) -> (r: Option<Params>)
    ensures
        r == params_of(text@),
{
    let doc = match parse_object(text) {
        Some(doc) => doc,
        None => {
            return None;
        },
    };
    let horizontal = read_boolean(&doc, "horizontal").or(false);
    let vertical = read_boolean(&doc, "vertical").or(false);
    match (horizontal, vertical) {
        (Some(h), Some(v)) => Some(Params { horizontal: h, vertical: v }),
        _ => None,
    }
}

/// The byte of the source image that lands on byte `i` of the flipped one.
pub open spec fn flip_source(width: int, height: int, params: Params, i: int) -> int {
    byte_index(
        width,
        if params.horizontal {
            width - 1 - column_of(width, i)
        } else {
            column_of(width, i)
        },
        if params.vertical {
            height - 1 - row_of(width, i)
        } else {
            row_of(width, i)
        },
        channel_of(i),
    )
}

/// The image `s` with the flips of `params` applied.
pub open spec fn flipped(s: Seq<u8>, width: int, height: int, params: Params) -> Seq<u8> {
    Seq::new(s.len(), |i: int| s[flip_source(width, height, params, i)])
}

/// Whether a size that the transform needs is beyond `usize`: the buffer's
/// length, or for a vertical flip the length of a row.
pub open spec fn size_overflows(width: int, height: int, params: Params) -> bool {
    buffer_len(width, height) > usize::MAX || (params.vertical && width * 4 > usize::MAX)
}

/// What `flip` reports.
pub open spec fn flip_status(width: int, height: int, params: Params) -> MirrorError {
    if (params.horizontal || params.vertical) && size_overflows(width, height, params) {
        MirrorError::SizeOverflow
    } else {
        MirrorError::Success
    }
}

/// What `flip` leaves in the buffer: the flipped image, or the buffer as it
/// was where no flip is asked for or a size is beyond `usize`.
pub open spec fn flip_result(s: Seq<u8>, width: int, height: int, params: Params) -> Seq<u8> {
    if (params.horizontal || params.vertical) && !size_overflows(width, height, params) {
        flipped(s, width, height, params)
    } else {
        s
    }
}

/// The source of a byte lies in the buffer, in the mirrored column and row
/// and in the same channel.
pub proof fn lemma_flip_source(width: int, height: int, params: Params, i: int)
    requires
        0 <= width,
        0 <= height,
        0 <= i < buffer_len(width, height),
    ensures
        0 <= flip_source(width, height, params, i) < buffer_len(width, height),
        channel_of(flip_source(width, height, params, i)) == channel_of(i),
        column_of(width, flip_source(width, height, params, i)) == if params.horizontal {
            width - 1 - column_of(width, i)
        } else {
            column_of(width, i)
        },
        row_of(width, flip_source(width, height, params, i)) == if params.vertical {
            height - 1 - row_of(width, i)
        } else {
            row_of(width, i)
        },
{
    lemma_index_parts(width, height, i);
    let x: int = if params.horizontal {
        width - 1 - column_of(width, i)
    } else {
        column_of(width, i)
    };
    let y: int = if params.vertical {
        height - 1 - row_of(width, i)
    } else {
        row_of(width, i)
    };
    lemma_byte_index_bounds(width, height, x, y, channel_of(i));
    lemma_byte_index_parts(width, x, y, channel_of(i));
}

/// A flip keeps the length of the buffer.
pub proof fn lemma_flip_keeps_length(s: Seq<u8>, width: int, height: int, params: Params)
    ensures
        flip_result(s, width, height, params).len() == s.len(),
        flipped(s, width, height, params).len() == s.len(),
{
}

/// Flipping in neither direction leaves every byte where it was.
pub proof fn lemma_flip_nothing(s: Seq<u8>, width: int, height: int)
    requires
        0 <= width,
        0 <= height,
        s.len() == buffer_len(width, height),
    ensures
        flipped(s, width, height, Params { horizontal: false, vertical: false }) == s,
{
    let none = Params { horizontal: false, vertical: false };
    assert forall|i: int| 0 <= i < s.len() implies flipped(s, width, height, none)[i] == s[i] by {
        lemma_index_parts(width, height, i);
    }
    assert(flipped(s, width, height, none) =~= s);
}

/// Flipping twice with the same flags gives the image back.
pub proof fn lemma_flip_twice(s: Seq<u8>, width: int, height: int, params: Params)
    requires
        0 <= width,
        0 <= height,
        s.len() == buffer_len(width, height),
    ensures
        flipped(flipped(s, width, height, params), width, height, params) == s,
{
    let once = flipped(s, width, height, params);
    assert forall|i: int| 0 <= i < s.len() implies flipped(once, width, height, params)[i]
        == s[i] by {
        let j: int = flip_source(width, height, params, i);
        lemma_flip_source(width, height, params, i);
        lemma_flip_source(width, height, params, j);
        lemma_index_parts(width, height, i);
    }
    assert(flipped(once, width, height, params) =~= s);
}

/// What `flip` does twice with the same flags, it undoes: the buffer is as
/// it was, whatever the image's size.
pub proof fn lemma_flip_result_twice(s: Seq<u8>, width: int, height: int, params: Params)
    requires
        0 <= width,
        0 <= height,
        buffer_fits(s.len() as int, width, height),
    ensures
        flip_result(flip_result(s, width, height, params), width, height, params) == s,
{
    if (params.horizontal || params.vertical) && !size_overflows(width, height, params) {
        lemma_flip_twice(s, width, height, params);
    }
}

/// With both flags `false`, `flip` leaves the buffer as it was and reports
/// success.
pub proof fn lemma_flip_result_nothing(s: Seq<u8>, width: int, height: int)
    ensures
        flip_result(s, width, height, Params { horizontal: false, vertical: false }) == s,
        flip_status(width, height, Params { horizontal: false, vertical: false })
            == MirrorError::Success,
{
}

/// A horizontal flip followed by a vertical flip is the flip in both
/// directions: a rotation by half a turn.
pub proof fn lemma_flip_both(s: Seq<u8>, width: int, height: int)
    requires
        0 <= width,
        0 <= height,
        s.len() == buffer_len(width, height),
    ensures
        flipped(
            flipped(s, width, height, Params { horizontal: true, vertical: false }),
            width,
            height,
            Params { horizontal: false, vertical: true },
        ) == flipped(s, width, height, Params { horizontal: true, vertical: true }),
{
    let h = Params { horizontal: true, vertical: false };
    let v = Params { horizontal: false, vertical: true };
    let both = Params { horizontal: true, vertical: true };
    let once = flipped(s, width, height, h);
    assert forall|i: int| 0 <= i < s.len() implies flipped(once, width, height, v)[i] == flipped(
        s,
        width,
        height,
        both,
    )[i] by {
        let j: int = flip_source(width, height, v, i);
        lemma_flip_source(width, height, v, i);
        lemma_flip_source(width, height, h, j);
        lemma_index_parts(width, height, i);
    }
    assert(flipped(once, width, height, v) =~= flipped(s, width, height, both));
}

/// In an image of odd width a horizontal flip leaves the middle column as it
/// was.
pub proof fn lemma_middle_column_stays(s: Seq<u8>, width: int, height: int, y: int, c: int)
    requires
        0 <= width,
        width % 2 == 1,
        0 <= y < height,
        0 <= c < 4,
        s.len() == buffer_len(width, height),
    ensures
        flipped(s, width, height, Params { horizontal: true, vertical: false })[byte_index(
            width,
            width / 2,
            y,
            c,
        )] == s[byte_index(width, width / 2, y, c)],
{
    let x: int = width / 2;
    lemma_byte_index_bounds(width, height, x, y, c);
    lemma_byte_index_parts(width, x, y, c);
}

/// In an image of odd height a vertical flip leaves the middle row as it was.
pub proof fn lemma_middle_row_stays(s: Seq<u8>, width: int, height: int, x: int, c: int)
    requires
        height % 2 == 1,
        0 <= x < width,
        0 <= height,
        0 <= c < 4,
        s.len() == buffer_len(width, height),
    ensures
        flipped(s, width, height, Params { horizontal: false, vertical: true })[byte_index(
            width,
            x,
            height / 2,
            c,
        )] == s[byte_index(width, x, height / 2, c)],
{
    let y: int = height / 2;
    lemma_byte_index_bounds(width, height, x, y, c);
    lemma_byte_index_parts(width, x, y, c);
}

/// Exchanges the `n` bytes from `a` with the `n` bytes from `b`.
fn swap_blocks(data: &mut Vec<u8>, a: usize, b: usize, n: usize)
    requires
        a + n <= b,
        b + n <= old(data)@.len(),
    ensures
        final(data)@.len() == old(data)@.len(),
        forall|i: int|
            0 <= i < old(data)@.len() ==> #[trigger] final(data)@[i] == if a <= i < a + n {
                old(data)@[i - a + b]
            } else if b <= i < b + n {
                old(data)@[i - b + a]
            } else {
                old(data)@[i]
            },
{
    let len: usize = data.len();
    let mut k: usize = 0;
    while k < n
        invariant
            k <= n,
            a + n <= b,
            b + n <= len,
            data@.len() == len,
            data@.len() == old(data)@.len(),
            forall|i: int|
                0 <= i < data@.len() ==> #[trigger] data@[i] == if a <= i < a + k {
                    old(data)@[i - a + b]
                } else if b <= i < b + k {
                    old(data)@[i - b + a]
                } else {
                    old(data)@[i]
                },
        decreases n - k,
    {
        let first: u8 = data[a + k];
        let second: u8 = data[b + k];
        data[a + k] = second;
        data[b + k] = first;
        k = k + 1;
    }
}

/// The image while rows are being mirrored: rows above `y` are done, and of
/// row `y` the `x` pixels at either end.
spec fn columns_swapped(s: Seq<u8>, width: int, height: int, y: int, x: int) -> Seq<u8> {
    Seq::new(
        s.len(),
        |i: int|
            if row_of(width, i) < y || (row_of(width, i) == y && (column_of(width, i) < x
                || column_of(width, i) >= width - x)) {
                s[flip_source(width, height, Params { horizontal: true, vertical: false }, i)]
            } else {
                s[i]
            },
    )
}

/// The image while rows are being exchanged: the `y` rows at either end are
/// done.
spec fn rows_swapped(s: Seq<u8>, width: int, height: int, y: int) -> Seq<u8> {
    Seq::new(
        s.len(),
        |i: int|
            if row_of(width, i) < y || row_of(width, i) >= height - y {
                s[flip_source(width, height, Params { horizontal: false, vertical: true }, i)]
            } else {
                s[i]
            },
    )
}

/// Mirrors each row left to right by exchanging pixels from both ends.
fn flip_horizontal(data: &mut Vec<u8>, width: usize, height: usize)
    requires
        old(data)@.len() == buffer_len(width as int, height as int),
    ensures
        final(data)@ == flipped(
            old(data)@,
            width as int,
            height as int,
            Params { horizontal: true, vertical: false },
        ),
{
    let ghost orig = data@;
    let ghost w = width as int;
    let ghost h = height as int;
    let ghost hp = Params { horizontal: true, vertical: false };
    let len: usize = data.len();
    if width == 0 {
        proof {
            lemma_empty_image(w, h);
            assert(data@ =~= flipped(orig, w, h, hp));
        }
        return ;
    }
    proof {
        assert forall|i: int| 0 <= i < orig.len() implies columns_swapped(orig, w, h, 0, 0)[i]
            == orig[i] by {
            lemma_index_parts(w, h, i);
        }
        assert(data@ =~= columns_swapped(orig, w, h, 0, 0));
    }
    let mut y: usize = 0;
    while y < height
        invariant
            y <= height,
            0 < width,
            w == width,
            h == height,
            orig.len() == len,
            orig.len() == buffer_len(w, h),
            data@ == columns_swapped(orig, w, h, y as int, 0),
        decreases height - y,
    {
        proof {
            lemma_pixel_count(w, h, 0, y as int);
        }
        let row: usize = y * width;
        let half: usize = width / 2;
        let mut x: usize = 0;
        while x < half
            invariant
                x <= half,
                half == width / 2,
                y < height,
                row == y * width,
                0 < width,
                w == width,
                h == height,
                orig.len() == len,
                orig.len() == buffer_len(w, h),
                data@ == columns_swapped(orig, w, h, y as int, x as int),
            decreases half - x,
        {
            proof {
                lemma_pixel_count(w, h, x as int, y as int);
                lemma_pixel_count(w, h, w - 1 - x, y as int);
            }
            let left: usize = (row + x) * 4;
            let right: usize = (row + (width - 1 - x)) * 4;
            let ghost before = data@;
            swap_blocks(data, left, right, 4);
            proof {
                let after = columns_swapped(orig, w, h, y as int, x + 1);
                assert forall|i: int| 0 <= i < orig.len() implies data@[i] == after[i] by {
                    lemma_index_parts(w, h, i);
                    lemma_pixel_block(w, x as int, y as int, i);
                    lemma_pixel_block(w, w - 1 - x, y as int, i);
                    if left <= i < left + 4 {
                        let j: int = i - left + right;
                        lemma_pixel_block(w, w - 1 - x, y as int, j);
                        assert(before[j] == orig[j]);
                        assert(j == byte_index(w, w - 1 - x, y as int, channel_of(i)));
                    } else if right <= i < right + 4 {
                        let j: int = i - right + left;
                        lemma_pixel_block(w, x as int, y as int, j);
                        assert(before[j] == orig[j]);
                        assert(j == byte_index(w, x as int, y as int, channel_of(i)));
                    } else {
                        assert(before[i] == after[i]);
                    }
                }
                assert(data@ =~= after);
            }
            x = x + 1;
        }
        proof {
            let done = columns_swapped(orig, w, h, y + 1, 0);
            assert forall|i: int| 0 <= i < orig.len() implies data@[i] == done[i] by {
                lemma_index_parts(w, h, i);
            }
            assert(data@ =~= done);
        }
        y = y + 1;
    }
    proof {
        assert forall|i: int| 0 <= i < orig.len() implies data@[i] == flipped(orig, w, h, hp)[i] by {
            lemma_index_parts(w, h, i);
        }
        assert(data@ =~= flipped(orig, w, h, hp));
    }
}

/// Mirrors the image top to bottom by exchanging rows from both ends.
fn flip_vertical(data: &mut Vec<u8>, width: usize, height: usize, row_bytes: usize)
    requires
        old(data)@.len() == buffer_len(width as int, height as int),
        row_bytes == width * 4,
    ensures
        final(data)@ == flipped(
            old(data)@,
            width as int,
            height as int,
            Params { horizontal: false, vertical: true },
        ),
{
    let ghost orig = data@;
    let ghost w = width as int;
    let ghost h = height as int;
    let ghost vp = Params { horizontal: false, vertical: true };
    let len: usize = data.len();
    if width == 0 {
        proof {
            lemma_empty_image(w, h);
            assert(data@ =~= flipped(orig, w, h, vp));
        }
        return ;
    }
    proof {
        assert forall|i: int| 0 <= i < orig.len() implies rows_swapped(orig, w, h, 0)[i]
            == orig[i] by {
            lemma_index_parts(w, h, i);
        }
        assert(data@ =~= rows_swapped(orig, w, h, 0));
    }
    let half: usize = height / 2;
    let mut y: usize = 0;
    while y < half
        invariant
            y <= half,
            half == height / 2,
            vp == (Params { horizontal: false, vertical: true }),
            0 < width,
            w == width,
            h == height,
            row_bytes == width * 4,
            orig.len() == len,
            orig.len() == buffer_len(w, h),
            data@ == rows_swapped(orig, w, h, y as int),
        decreases half - y,
    {
        proof {
            lemma_pixel_count(w, h, 0, y as int);
            lemma_pixel_count(w, h, 0, h - 1 - y);
            assert(y * (w * 4) == (y * w) * 4) by (nonlinear_arith);
            assert((h - 1 - y) * (w * 4) == ((h - 1 - y) * w) * 4) by (nonlinear_arith);
            assert(y * (w * 4) + w * 4 <= (h - 1 - y) * (w * 4)) by (nonlinear_arith)
                requires
                    y + 1 <= h - 1 - y,
                    0 < w,
            ;
        }
        let top: usize = y * row_bytes;
        let bottom: usize = (height - 1 - y) * row_bytes;
        let ghost before = data@;
        swap_blocks(data, top, bottom, row_bytes);
        proof {
            let after = rows_swapped(orig, w, h, y + 1);
            assert forall|i: int| 0 <= i < orig.len() implies data@[i] == after[i] by {
                lemma_index_parts(w, h, i);
                lemma_row_block(w, y as int, i);
                lemma_row_block(w, h - 1 - y, i);
                if top <= i < top + row_bytes {
                    let j: int = i - top + bottom;
                    lemma_row_block(w, h - 1 - y, j);
                    lemma_index_parts(w, h, j);
                    assert(before[j] == orig[j]);
                    assert(j == flip_source(w, h, vp, i));
                } else if bottom <= i < bottom + row_bytes {
                    let j: int = i - bottom + top;
                    lemma_row_block(w, y as int, j);
                    lemma_index_parts(w, h, j);
                    assert(before[j] == orig[j]);
                    assert(j == flip_source(w, h, vp, i));
                } else {
                    assert(before[i] == after[i]);
                }
            }
            assert(data@ =~= after);
        }
        y = y + 1;
    }
    proof {
        assert forall|i: int| 0 <= i < orig.len() implies data@[i] == flipped(orig, w, h, vp)[i] by {
            lemma_index_parts(w, h, i);
        }
        assert(data@ =~= flipped(orig, w, h, vp));
    }
}

/// Applies the flips of `params` to the image in `data`, in place.
///
/// Reports `SizeOverflow`, and leaves the buffer as it was, where a flip is
/// asked for and a size it needs is beyond `usize`; `Success` otherwise.
pub fn flip(width: u32, height: u32, data: &mut Vec<u8>, params: Params) -> (status: MirrorError)
    requires
        buffer_fits(old(data)@.len() as int, width as int, height as int),
    ensures
        status == flip_status(width as int, height as int, params),
        final(data)@ == flip_result(old(data)@, width as int, height as int, params),
        final(data)@.len() == old(data)@.len(),
{
    if !params.horizontal && !params.vertical {
        return MirrorError::Success;
    }
    let len: usize = match checked_buffer_len(width, height) {
        Some(len) => len,
        None => {
            return MirrorError::SizeOverflow;
        },
    };
    let w: usize = width as usize;
    let h: usize = height as usize;
    if params.horizontal {
        flip_horizontal(data, w, h);
    }
    if params.vertical {
        let row_bytes: usize = match w.checked_mul(4) {
            Some(row_bytes) => row_bytes,
            None => {
                proof {
                    assert(height == 0) by (nonlinear_arith)
                        requires
                            width * height * 4 <= usize::MAX,
                            width * 4 > usize::MAX,
                            0 <= height,
                    ;
                    let n: int = old(data)@.len() as int;
                    assert(n == 0) by (nonlinear_arith)
                        requires
                            n == width * height * 4,
                            height == 0,
                    ;
                    assert(data@ =~= old(data)@);
                }
                return MirrorError::SizeOverflow;
            },
        };
        flip_vertical(data, w, h, row_bytes);
    }
    proof {
        if params.horizontal && params.vertical {
            lemma_flip_both(old(data)@, width as int, height as int);
        }
    }
    MirrorError::Success
}

/// The plugin's entry point: reads the parameters from `params`, applies the
/// flips to the image in `data`, and returns the status code.
///
/// Where the text cannot be read the code is that of `ParseError` and the
/// buffer is left as it was.
pub fn process_image(width: u32, height: u32, data: &mut Vec<u8>, params: &str) -> (status: i32)
    requires
        buffer_fits(old(data)@.len() as int, width as int, height as int),
    ensures
        final(data)@.len() == old(data)@.len(),
        match params_of(params@) {
            None => status == MirrorError::ParseError.spec_code() && final(data)@ == old(data)@,
            Some(p) => status == flip_status(width as int, height as int, p).spec_code()
                && final(data)@ == flip_result(old(data)@, width as int, height as int, p),
        },
{
    match parse_params(params) {
        None => MirrorError::ParseError.code(),
        Some(p) => flip(width, height, data, p).code(),
    }
}

} // verus!
