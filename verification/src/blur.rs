//! The blur transform: every pixel becomes the weighted average of its
//! neighbours within a square window, a neighbour at distance `d` weighing
//! `1 / (d + 1)`. Each pass reads the image as it was before the pass.

use crate::json::object_of;
use crate::json::parse_object;
use crate::json::read_unsigned;
use crate::json::unsigned_member;
use crate::json::Member;
use crate::pixels::buffer_fits;
use crate::pixels::buffer_len;
use crate::pixels::byte_index;
use crate::pixels::channel_of;
use crate::pixels::checked_buffer_len;
use crate::pixels::column_of;
use crate::pixels::lemma_byte_index_parts;
use crate::pixels::lemma_empty_image;
use crate::pixels::lemma_index_parts;
use crate::pixels::lemma_pixel_count;
use crate::pixels::row_of;
use crate::weights::distance_squared;
use crate::weights::lemma_weight_exists;
use crate::weights::weight_of;
use crate::weights::WeightTable;
use crate::weights::WEIGHT_ONE;
use vstd::arithmetic::div_mod::lemma_fundamental_div_mod_converse;
use vstd::arithmetic::div_mod::lemma_multiply_divide_lt;
use vstd::arithmetic::mul::lemma_mul_inequality;
use vstd::arithmetic::mul::lemma_mul_upper_bound;
use vstd::prelude::*;

verus! {

/// What a call of the blur transform reports.
#[derive(Clone, Copy, Debug, PartialEq, Eq, Structural)]
pub enum BlurError {
    /// The transform was applied, or none was asked for.
    Success,
    /// The parameter text could not be read.
    ParseError,
    /// The image's size cannot be held in `usize`.
    SizeOverflow,
}

impl BlurError {
    /// The status code that crosses the plugin boundary.
    pub open spec fn spec_code(self) -> int {
        match self {
            BlurError::Success => 0,
            BlurError::ParseError => -1,
            BlurError::SizeOverflow => -2,
        }
    }

    /// The status code that crosses the plugin boundary.
    pub fn code(&self) -> (r: i32)
        ensures
            r == self.spec_code(),
    {
        match self {
            BlurError::Success => 0,
            BlurError::ParseError => -1,
            BlurError::SizeOverflow => -2,
        }
    }
}

/// How far the window reaches and how many passes to make. Both default
/// to 1.
#[derive(Clone, Copy, Debug, PartialEq, Eq, Structural)]
pub struct Params {
    /// The window reaches `radius` pixels to each side.
    pub radius: u32,
    /// The number of passes.
    pub iterations: u32,
}

/// The radius used where the parameters name none.
pub fn default_radius() -> (r: u32)
    ensures
        r == 1,
{
    1
}

/// The number of passes made where the parameters name none.
pub fn default_iterations() -> (r: u32)
    ensures
        r == 1,
{
    1
}

impl Default for Params {
    fn default() -> (r: Params)
        ensures
            r == (Params { radius: 1, iterations: 1 }),
    {
        Params { radius: default_radius(), iterations: default_iterations() }
    }
}

/// The count that a member stands for: `default` where it is absent, its
/// value where that is below 2^32, `None` otherwise.
pub open spec fn count_of(member: Member<u64>, default: u32) -> Option<u32> {
    match member {
        Member::Absent => Some(default),
        Member::Holds(n) => if n <= u32::MAX {
            Some(n as u32)
        } else {
            None
        },
        Member::Mistyped => None,
    }
}

/// The parameters that a text holds: a JSON object whose members `radius`
/// and `iterations`, where present, are integers from 0 to 2^32 - 1. `None`
/// for any other text.
pub open spec fn params_of(text: Seq<char>) -> Option<Params> {
    match object_of(text) {
        None => None,
        Some(doc) => match (
            count_of(unsigned_member(doc, "radius"@), 1),
            count_of(unsigned_member(doc, "iterations"@), 1),
        ) {
            (Some(r), Some(n)) => Some(Params { radius: r, iterations: n }),
            _ => None,
        },
    }
}

/// Reads a member as a count.
fn read_count(doc: &serde_json::Value, key: &str, default: u32) -> (r: Option<u32>)
    ensures
        r == count_of(unsigned_member(*doc, key@), default),
{
    match read_unsigned(doc, key) {
        Member::Absent => Some(default),
        Member::Holds(n) => if n <= u32::MAX as u64 {
            Some(n as u32)
        } else {
            None
        },
        Member::Mistyped => None,
    }
}

/// Reads the blur parameters from their JSON text.
pub fn parse_params(text: &str) -> (r: Option<Params>)
    ensures
        r == params_of(text@),
{
    let doc = match parse_object(text) {
        Some(doc) => doc,
        None => {
            return None;
        },
    };
    let radius = read_count(&doc, "radius", default_radius());
    let iterations = read_count(&doc, "iterations", default_iterations());
    match (radius, iterations) {
        (Some(r), Some(n)) => Some(Params { radius: r, iterations: n }),
        _ => None,
    }
}

/// The first column, or row, of the window around `center`.
pub open spec fn window_start(center: int, radius: int) -> int {
    if center >= radius {
        center - radius
    } else {
        0
    }
}

/// The column, or row, after the last of the window around `center`, in an
/// image of `size` columns, or rows.
pub open spec fn window_end(center: int, radius: int, size: int) -> int {
    if center + radius + 1 <= size {
        center + radius + 1
    } else {
        size
    }
}

/// The weight that the pixel at `x`, `y` has in the average around `cx`,
/// `cy`.
pub open spec fn weight_at(cx: int, cy: int, x: int, y: int) -> int {
    weight_of(distance_squared(x - cx, y - cy))
}

/// The sum of the weights of the pixels of row `y` from column `x0` up to
/// `x1`.
pub open spec fn row_weight(cx: int, cy: int, y: int, x0: int, x1: int) -> int
    decreases x1 - x0,
{
    if x1 <= x0 {
        0
    } else {
        row_weight(cx, cy, y, x0, x1 - 1) + weight_at(cx, cy, x1 - 1, y)
    }
}

/// The weighted sum of channel `c` over the pixels of row `y` from column
/// `x0` up to `x1`.
pub open spec fn row_color(
    s: Seq<u8>,
    width: int,
    cx: int,
    cy: int,
    y: int,
    x0: int,
    x1: int,
    c: int,
) -> int
    decreases x1 - x0,
{
    if x1 <= x0 {
        0
    } else {
        row_color(s, width, cx, cy, y, x0, x1 - 1, c) + weight_at(cx, cy, x1 - 1, y) * s[byte_index(
            width,
            x1 - 1,
            y,
            c,
        )]
    }
}

/// The sum of the weights over the rows from `y0` up to `y1`.
pub open spec fn window_weight(cx: int, cy: int, x0: int, x1: int, y0: int, y1: int) -> int
    decreases y1 - y0,
{
    if y1 <= y0 {
        0
    } else {
        window_weight(cx, cy, x0, x1, y0, y1 - 1) + row_weight(cx, cy, y1 - 1, x0, x1)
    }
}

/// The weighted sum of channel `c` over the rows from `y0` up to `y1`.
pub open spec fn window_color(
    s: Seq<u8>,
    width: int,
    cx: int,
    cy: int,
    x0: int,
    x1: int,
    y0: int,
    y1: int,
    c: int,
) -> int
    decreases y1 - y0,
{
    if y1 <= y0 {
        0
    } else {
        window_color(s, width, cx, cy, x0, x1, y0, y1 - 1, c) + row_color(
            s,
            width,
            cx,
            cy,
            y1 - 1,
            x0,
            x1,
            c,
        )
    }
}

/// `sum / total`, rounded to the nearest integer, a half upwards.
pub open spec fn rounded(sum: int, total: int) -> int {
    (2 * sum + total) / (2 * total)
}

/// Channel `c` of the pixel at `cx`, `cy` after one pass over `s`.
pub open spec fn blurred_channel(
    s: Seq<u8>,
    width: int,
    height: int,
    radius: int,
    cx: int,
    cy: int,
    c: int,
) -> int {
    let x0 = window_start(cx, radius);
    let x1 = window_end(cx, radius, width);
    let y0 = window_start(cy, radius);
    let y1 = window_end(cy, radius, height);
    rounded(
        window_color(s, width, cx, cy, x0, x1, y0, y1, c),
        window_weight(cx, cy, x0, x1, y0, y1),
    )
}

/// The image after one pass over `s`.
pub open spec fn blur_pass_of(s: Seq<u8>, width: int, height: int, radius: int) -> Seq<u8> {
    Seq::new(
        s.len(),
        |i: int|
            blurred_channel(
                s,
                width,
                height,
                radius,
                column_of(width, i),
                row_of(width, i),
                channel_of(i),
            ) as u8,
    )
}

/// The image after `passes` passes over `s`.
pub open spec fn blurred(s: Seq<u8>, width: int, height: int, radius: int, passes: nat) -> Seq<u8>
    decreases passes,
{
    if passes == 0 {
        s
    } else {
        blur_pass_of(blurred(s, width, height, radius, (passes - 1) as nat), width, height, radius)
    }
}

/// Whether the parameters ask for no change.
pub open spec fn asks_nothing(params: Params) -> bool {
    params.radius == 0 || params.iterations == 0
}

/// What `blur` reports.
pub open spec fn blur_status(width: int, height: int, params: Params) -> BlurError {
    if !asks_nothing(params) && buffer_len(width, height) > usize::MAX {
        BlurError::SizeOverflow
    } else {
        BlurError::Success
    }
}

/// What `blur` leaves in the buffer: the blurred image, or the buffer as it
/// was where no change is asked for or the image's size is beyond `usize`.
pub open spec fn blur_result(s: Seq<u8>, width: int, height: int, params: Params) -> Seq<u8> {
    if !asks_nothing(params) && buffer_len(width, height) <= usize::MAX {
        blurred(s, width, height, params.radius as int, params.iterations as nat)
    } else {
        s
    }
}

/// A blur keeps the length of the buffer.
pub proof fn lemma_blur_keeps_length(s: Seq<u8>, width: int, height: int, radius: int, passes: nat)
    ensures
        blurred(s, width, height, radius, passes).len() == s.len(),
    decreases passes,
{
    if passes > 0 {
        lemma_blur_keeps_length(s, width, height, radius, (passes - 1) as nat);
    }
}

/// Passes follow one another: `first + then` passes give what `then` passes
/// give of the result of `first` passes.
pub proof fn lemma_passes_compose(
    s: Seq<u8>,
    width: int,
    height: int,
    radius: int,
    first: nat,
    then: nat,
)
    ensures
        blurred(s, width, height, radius, first + then) == blurred(
            blurred(s, width, height, radius, first),
            width,
            height,
            radius,
            then,
        ),
    decreases then,
{
    if then > 0 {
        lemma_passes_compose(s, width, height, radius, first, (then - 1) as nat);
        assert((first + then - 1) as nat == first + (then - 1) as nat);
    }
}

/// With a radius of 0 or no passes, `blur` leaves the buffer as it was and
/// reports success.
pub proof fn lemma_blur_result_nothing(s: Seq<u8>, width: int, height: int, params: Params)
    requires
        params.radius == 0 || params.iterations == 0,
    ensures
        blur_result(s, width, height, params) == s,
        blur_status(width, height, params) == BlurError::Success,
{
}

/// A pass with a radius of 0 leaves every byte as it is: the window of a
/// pixel is the pixel alone.
pub proof fn lemma_pass_with_radius_zero(s: Seq<u8>, width: int, height: int)
    requires
        0 <= width,
        0 <= height,
        s.len() == buffer_len(width, height),
    ensures
        blur_pass_of(s, width, height, 0) == s,
{
    assert forall|i: int| 0 <= i < s.len() implies blur_pass_of(s, width, height, 0)[i]
        == s[i] by {
        lemma_index_parts(width, height, i);
        let x: int = column_of(width, i);
        let y: int = row_of(width, i);
        let c: int = channel_of(i);
        let one: int = WEIGHT_ONE as int;
        let v: int = s[i] as int;
        lemma_weight_exists(0);
        assert(distance_squared(0, 0) == 0) by (nonlinear_arith);
        assert(weight_at(x, y, x, y) == one);
        reveal_with_fuel(row_weight, 2);
        reveal_with_fuel(row_color, 2);
        reveal_with_fuel(window_weight, 2);
        reveal_with_fuel(window_color, 2);
        assert(row_weight(x, y, y, x, x + 1) == one);
        assert(row_color(s, width, x, y, y, x, x + 1, c) == one * v);
        assert(window_weight(x, y, x, x + 1, y, y + 1) == one);
        assert(window_color(s, width, x, y, x, x + 1, y, y + 1, c) == one * v);
        assert(2 * (one * v) + one == v * (2 * one) + one) by (nonlinear_arith);
        lemma_fundamental_div_mod_converse(2 * (one * v) + one, 2 * one, v, one);
        assert(blurred_channel(s, width, height, 0, x, y, c) == v);
    }
    assert(blur_pass_of(s, width, height, 0) =~= s);
}

/// How many offsets the window covers to one side of its centre, the centre
/// included, in an image of `size` columns, or rows.
spec fn reach(radius: int, size: int) -> int {
    if radius < size {
        radius + 1
    } else {
        size
    }
}

/// The sums of one window, or of one row of it: of the weights, and of each
/// channel weighted.
struct Sums {
    weight: u128,
    red: u128,
    green: u128,
    blue: u128,
    alpha: u128,
}

impl Sums {
    spec fn channel(self, c: int) -> int {
        if c == 0 {
            self.red as int
        } else if c == 1 {
            self.green as int
        } else if c == 2 {
            self.blue as int
        } else {
            self.alpha as int
        }
    }

    spec fn bounded(self) -> bool {
        self.red <= 255 * self.weight && self.green <= 255 * self.weight && self.blue <= 255
            * self.weight && self.alpha <= 255 * self.weight
    }
}

/// The four channels of one pixel.
struct Pixel {
    red: u8,
    green: u8,
    blue: u8,
    alpha: u8,
}

impl Pixel {
    spec fn channel(self, c: int) -> int {
        if c == 0 {
            self.red as int
        } else if c == 1 {
            self.green as int
        } else if c == 2 {
            self.blue as int
        } else {
            self.alpha as int
        }
    }
}

/// The squares of two offsets below 2^32 add up to the squared distance.
proof fn lemma_offsets(a: int, b: int, dx: int, dy: int)
    requires
        dx == if a >= 0 {
            a
        } else {
            -a
        },
        dy == if b >= 0 {
            b
        } else {
            -b
        },
        dx <= u32::MAX,
        dy <= u32::MAX,
    ensures
        dx * dx + dy * dy == distance_squared(a, b),
        0 <= dx * dx <= u64::MAX,
        0 <= dy * dy <= u64::MAX,
{
    assert(dx * dx == a * a) by (nonlinear_arith)
        requires
            dx == a || dx == -a,
    ;
    assert(dy * dy == b * b) by (nonlinear_arith)
        requires
            dy == b || dy == -b,
    ;
    lemma_mul_upper_bound(dx, u32::MAX as int, dx, u32::MAX as int);
    lemma_mul_upper_bound(dy, u32::MAX as int, dy, u32::MAX as int);
    assert(0 <= dx * dx) by (nonlinear_arith);
    assert(0 <= dy * dy) by (nonlinear_arith);
}

/// Sums the weights and the weighted channels over the pixels of row `y`
/// from column `x0` up to `x1`, as seen from the pixel at `cx`, `cy`.
fn row_sums(
    data: &Vec<u8>,
    table: &WeightTable,
    width: u64,
    height: u64,
    cx: u64,
    cy: u64,
    y: u64,
    x0: u64,
    x1: u64,
) -> (r: Sums)
    requires
        width <= u32::MAX,
        height <= u32::MAX,
        data@.len() == buffer_len(width as int, height as int),
        cx < width,
        cy < height,
        y < height,
        x0 <= x1 <= width,
        table.wf(),
        cx - x0 < table.columns(),
        x1 - cx <= table.columns(),
        y - cy < table.rows(),
        cy - y < table.rows(),
    ensures
        r.weight == row_weight(cx as int, cy as int, y as int, x0 as int, x1 as int),
        forall|c: int|
            0 <= c < 4 ==> r.channel(c) == #[trigger] row_color(
                data@,
                width as int,
                cx as int,
                cy as int,
                y as int,
                x0 as int,
                x1 as int,
                c,
            ),
        r.weight <= WEIGHT_ONE * (x1 - x0),
        r.bounded(),
        y == cy && x0 <= cx < x1 ==> r.weight >= WEIGHT_ONE,
{
    let len: usize = data.len();
    let dy: u64 = if y >= cy {
        y - cy
    } else {
        cy - y
    };
    let mut acc = Sums { weight: 0, red: 0, green: 0, blue: 0, alpha: 0 };
    let mut x: u64 = x0;
    while x < x1
        invariant
            x0 <= x <= x1,
            x1 <= width,
            width <= u32::MAX,
            height <= u32::MAX,
            cx < width,
            cy < height,
            y < height,
            table.wf(),
            cx - x0 < table.columns(),
            x1 - cx <= table.columns(),
            dy < table.rows(),
            dy == if y >= cy {
                y - cy
            } else {
                cy - y
            },
            data@.len() == len,
            data@.len() == buffer_len(width as int, height as int),
            acc.weight == row_weight(cx as int, cy as int, y as int, x0 as int, x as int),
            forall|c: int|
                0 <= c < 4 ==> acc.channel(c) == #[trigger] row_color(
                    data@,
                    width as int,
                    cx as int,
                    cy as int,
                    y as int,
                    x0 as int,
                    x as int,
                    c,
                ),
            acc.weight <= WEIGHT_ONE * (x - x0),
            acc.bounded(),
            y == cy && x0 <= cx < x ==> acc.weight >= WEIGHT_ONE,
        decreases x1 - x,
    {
        let dx: u64 = if x >= cx {
            x - cx
        } else {
            cx - x
        };
        proof {
            lemma_offsets(x - cx, y - cy, dx as int, dy as int);
            lemma_pixel_count(width as int, height as int, x as int, y as int);
        }
        let wt: u128 = table.get(dx as usize, dy as usize) as u128;
        let at: usize = ((y * width + x) * 4) as usize;
        let red: u128 = data[at] as u128;
        let green: u128 = data[at + 1] as u128;
        let blue: u128 = data[at + 2] as u128;
        let alpha: u128 = data[at + 3] as u128;
        proof {
            lemma_mul_inequality(red as int, 255, wt as int);
            lemma_mul_inequality(green as int, 255, wt as int);
            lemma_mul_inequality(blue as int, 255, wt as int);
            lemma_mul_inequality(alpha as int, 255, wt as int);
            assert(wt * red == red * wt && wt * green == green * wt && wt * blue == blue * wt && wt
                * alpha == alpha * wt) by (nonlinear_arith);
            assert(wt == weight_at(cx as int, cy as int, x as int, y as int));
            assert(at == byte_index(width as int, x as int, y as int, 0));
            assert forall|c: int| 0 <= c < 4 implies #[trigger] row_color(
                data@,
                width as int,
                cx as int,
                cy as int,
                y as int,
                x0 as int,
                x + 1,
                c,
            ) == acc.channel(c) + wt * data@[at + c] by {
                let s = data@;
                let w: int = width as int;
                assert(row_color(s, w, cx as int, cy as int, y as int, x0 as int, x + 1, c)
                    == row_color(s, w, cx as int, cy as int, y as int, x0 as int, x as int, c)
                    + weight_at(cx as int, cy as int, x as int, y as int) * s[byte_index(
                    w,
                    x as int,
                    y as int,
                    c,
                )]);
                assert(byte_index(w, x as int, y as int, c) == at + c);
                assert(acc.channel(c) == row_color(
                    s,
                    w,
                    cx as int,
                    cy as int,
                    y as int,
                    x0 as int,
                    x as int,
                    c,
                ));
            }
        }
        acc =
        Sums {
            weight: acc.weight + wt,
            red: acc.red + wt * red,
            green: acc.green + wt * green,
            blue: acc.blue + wt * blue,
            alpha: acc.alpha + wt * alpha,
        };
        x = x + 1;
    }
    acc
}

/// `sum / total`, rounded to the nearest integer, a half upwards.
fn round_average(sum: u128, total: u128) -> (r: u8)
    requires
        0 < total,
        sum <= 255 * total,
        512 * total <= u128::MAX,
    ensures
        r == rounded(sum as int, total as int),
{
    proof {
        lemma_multiply_divide_lt(2 * sum + total, 2 * total, 256);
    }
    ((2 * sum + total) / (2 * total)) as u8
}

/// The pixel at `cx`, `cy` after one pass: the weighted average over its
/// window.
fn blurred_pixel(
    data: &Vec<u8>,
    table: &WeightTable,
    width: u64,
    height: u64,
    radius: u64,
    cx: u64,
    cy: u64,
) -> (r: Pixel)
    requires
        table.wf(),
        table.columns() == reach(radius as int, width as int),
        table.rows() == reach(radius as int, height as int),
        width <= u32::MAX,
        height <= u32::MAX,
        radius <= u32::MAX,
        data@.len() == buffer_len(width as int, height as int),
        cx < width,
        cy < height,
    ensures
        forall|c: int|
            0 <= c < 4 ==> r.channel(c) == #[trigger] blurred_channel(
                data@,
                width as int,
                height as int,
                radius as int,
                cx as int,
                cy as int,
                c,
            ),
{
    let x0: u64 = if cx >= radius {
        cx - radius
    } else {
        0
    };
    let x1: u64 = if cx + radius + 1 <= width {
        cx + radius + 1
    } else {
        width
    };
    let y0: u64 = if cy >= radius {
        cy - radius
    } else {
        0
    };
    let y1: u64 = if cy + radius + 1 <= height {
        cy + radius + 1
    } else {
        height
    };
    let mut acc = Sums { weight: 0, red: 0, green: 0, blue: 0, alpha: 0 };
    let mut y: u64 = y0;
    while y < y1
        invariant
            y0 <= y <= y1,
            y0 <= cy < y1,
            x0 <= cx < x1,
            table.wf(),
            cx - x0 < table.columns(),
            x1 - cx <= table.columns(),
            cy - y0 < table.rows(),
            y1 - cy <= table.rows(),
            x1 <= width,
            y1 <= height,
            width <= u32::MAX,
            height <= u32::MAX,
            cx < width,
            cy < height,
            data@.len() == buffer_len(width as int, height as int),
            acc.weight == window_weight(
                cx as int,
                cy as int,
                x0 as int,
                x1 as int,
                y0 as int,
                y as int,
            ),
            forall|c: int|
                0 <= c < 4 ==> acc.channel(c) == #[trigger] window_color(
                    data@,
                    width as int,
                    cx as int,
                    cy as int,
                    x0 as int,
                    x1 as int,
                    y0 as int,
                    y as int,
                    c,
                ),
            acc.weight <= 0x40_0000_0000_0000_0000_0000 * (y - y0),
            acc.bounded(),
            y > cy ==> acc.weight >= WEIGHT_ONE,
        decreases y1 - y,
    {
        let row = row_sums(data, table, width, height, cx, cy, y, x0, x1);
        proof {
            assert forall|c: int| 0 <= c < 4 implies #[trigger] window_color(
                data@,
                width as int,
                cx as int,
                cy as int,
                x0 as int,
                x1 as int,
                y0 as int,
                y + 1,
                c,
            ) == acc.channel(c) + row.channel(c) by {
                assert(window_color(
                    data@,
                    width as int,
                    cx as int,
                    cy as int,
                    x0 as int,
                    x1 as int,
                    y0 as int,
                    y + 1,
                    c,
                ) == window_color(
                    data@,
                    width as int,
                    cx as int,
                    cy as int,
                    x0 as int,
                    x1 as int,
                    y0 as int,
                    y as int,
                    c,
                ) + row_color(
                    data@,
                    width as int,
                    cx as int,
                    cy as int,
                    y as int,
                    x0 as int,
                    x1 as int,
                    c,
                ));
                assert(row.channel(c) == row_color(
                    data@,
                    width as int,
                    cx as int,
                    cy as int,
                    y as int,
                    x0 as int,
                    x1 as int,
                    c,
                ));
            }
        }
        acc =
        Sums {
            weight: acc.weight + row.weight,
            red: acc.red + row.red,
            green: acc.green + row.green,
            blue: acc.blue + row.blue,
            alpha: acc.alpha + row.alpha,
        };
        y = y + 1;
    }
    Pixel {
        red: round_average(acc.red, acc.weight),
        green: round_average(acc.green, acc.weight),
        blue: round_average(acc.blue, acc.weight),
        alpha: round_average(acc.alpha, acc.weight),
    }
}

/// Makes one pass: writes to `temp` the blurred image of `data`.
fn blur_pass(
    data: &Vec<u8>,
    temp: &mut Vec<u8>,
    table: &WeightTable,
    width: u64,
    height: u64,
    radius: u64,
)
    requires
        table.wf(),
        table.columns() == reach(radius as int, width as int),
        table.rows() == reach(radius as int, height as int),
        width <= u32::MAX,
        height <= u32::MAX,
        radius <= u32::MAX,
        data@.len() == buffer_len(width as int, height as int),
        old(temp)@.len() == data@.len(),
    ensures
        final(temp)@ == blur_pass_of(data@, width as int, height as int, radius as int),
{
    let len: usize = data.len();
    let ghost pass = blur_pass_of(data@, width as int, height as int, radius as int);
    let mut cy: u64 = 0;
    while cy < height
        invariant
            cy <= height,
            table.wf(),
            table.columns() == reach(radius as int, width as int),
            table.rows() == reach(radius as int, height as int),
            width <= u32::MAX,
            height <= u32::MAX,
            radius <= u32::MAX,
            data@.len() == len,
            data@.len() == buffer_len(width as int, height as int),
            temp@.len() == data@.len(),
            pass == blur_pass_of(data@, width as int, height as int, radius as int),
            forall|i: int| 0 <= i < cy * width * 4 ==> temp@[i] == pass[i],
        decreases height - cy,
    {
        let mut cx: u64 = 0;
        while cx < width
            invariant
                cx <= width,
                cy < height,
                table.wf(),
                table.columns() == reach(radius as int, width as int),
                table.rows() == reach(radius as int, height as int),
                width <= u32::MAX,
                height <= u32::MAX,
                radius <= u32::MAX,
                data@.len() == len,
                data@.len() == buffer_len(width as int, height as int),
                temp@.len() == data@.len(),
                pass == blur_pass_of(data@, width as int, height as int, radius as int),
                forall|i: int| 0 <= i < (cy * width + cx) * 4 ==> temp@[i] == pass[i],
            decreases width - cx,
        {
            let pixel = blurred_pixel(data, table, width, height, radius, cx, cy);
            proof {
                lemma_pixel_count(width as int, height as int, cx as int, cy as int);
            }
            let at: usize = ((cy * width + cx) * 4) as usize;
            temp[at] = pixel.red;
            temp[at + 1] = pixel.green;
            temp[at + 2] = pixel.blue;
            temp[at + 3] = pixel.alpha;
            proof {
                assert forall|i: int| at <= i < at + 4 implies temp@[i] == pass[i] by {
                    lemma_byte_index_parts(width as int, cx as int, cy as int, i - at);
                    assert(i == byte_index(width as int, cx as int, cy as int, i - at));
                    assert(temp@[i] == pixel.channel(i - at));
                }
            }
            cx = cx + 1;
        }
        proof {
            assert((cy + 1) * width * 4 == (cy * width + width) * 4) by (nonlinear_arith);
        }
        cy = cy + 1;
    }
    proof {
        assert(height * width * 4 == width * height * 4) by (nonlinear_arith);
        assert(temp@ =~= pass);
    }
}

/// Copies `source` over `data`.
fn copy_back(data: &mut Vec<u8>, source: &Vec<u8>)
    requires
        old(data)@.len() == source@.len(),
    ensures
        final(data)@ == source@,
{
    let len: usize = source.len();
    let mut i: usize = 0;
    while i < len
        invariant
            i <= len,
            len == source@.len(),
            data@.len() == len,
            forall|j: int| 0 <= j < i ==> data@[j] == source@[j],
        decreases len - i,
    {
        data[i] = source[i];
        i = i + 1;
    }
    proof {
        assert(data@ =~= source@);
    }
}

/// Blurs the image in `data`, in place: `params.iterations` passes with a
/// window that reaches `params.radius` pixels to each side.
///
/// A radius of 0 or no passes leave the buffer as it was. Reports
/// `SizeOverflow`, and leaves the buffer as it was, where a change is asked
/// for and the image's size is beyond `usize`; `Success` otherwise.
pub fn blur(width: u32, height: u32, data: &mut Vec<u8>, params: Params) -> (status: BlurError)
    requires
        buffer_fits(old(data)@.len() as int, width as int, height as int),
    ensures
        status == blur_status(width as int, height as int, params),
        final(data)@ == blur_result(old(data)@, width as int, height as int, params),
        final(data)@.len() == old(data)@.len(),
{
    if params.radius == 0 || params.iterations == 0 {
        return BlurError::Success;
    }
    let len: usize = match checked_buffer_len(width, height) {
        Some(len) => len,
        None => {
            return BlurError::SizeOverflow;
        },
    };
    if width == 0 || height == 0 {
        proof {
            lemma_empty_image(width as int, height as int);
            lemma_blur_keeps_length(
                old(data)@,
                width as int,
                height as int,
                params.radius as int,
                params.iterations as nat,
            );
            assert(data@ =~= blurred(
                old(data)@,
                width as int,
                height as int,
                params.radius as int,
                params.iterations as nat,
            ));
        }
        return BlurError::Success;
    }
    let columns: usize = if params.radius < width {
        params.radius as usize + 1
    } else {
        width as usize
    };
    let rows: usize = if params.radius < height {
        params.radius as usize + 1
    } else {
        height as usize
    };
    proof {
        lemma_mul_upper_bound(columns as int, width as int, rows as int, height as int);
    }
    let table = WeightTable::new(columns, rows);
    let mut temp: Vec<u8> = vec![0u8; len];
    let mut pass: u32 = 0;
    while pass < params.iterations
        invariant
            pass <= params.iterations,
            table.wf(),
            table.columns() == reach(params.radius as int, width as int),
            table.rows() == reach(params.radius as int, height as int),
            len == buffer_len(width as int, height as int),
            data@.len() == len,
            temp@.len() == len,
            data@ == blurred(
                old(data)@,
                width as int,
                height as int,
                params.radius as int,
                pass as nat,
            ),
        decreases params.iterations - pass,
    {
        blur_pass(data, &mut temp, &table, width as u64, height as u64, params.radius as u64);
        copy_back(data, &temp);
        pass = pass + 1;
    }
    BlurError::Success
}

/// The plugin's entry point: reads the parameters from `params`, blurs the
/// image in `data`, and returns the status code.
///
/// Where the text cannot be read the code is that of `ParseError` and the
/// buffer is left as it was.
pub fn process_image(width: u32, height: u32, data: &mut Vec<u8>, params: &str) -> (status: i32)
    requires
        buffer_fits(old(data)@.len() as int, width as int, height as int),
    ensures
        final(data)@.len() == old(data)@.len(),
        match params_of(params@) {
            None => status == BlurError::ParseError.spec_code() && final(data)@ == old(data)@,
            Some(p) => status == blur_status(width as int, height as int, p).spec_code()
                && final(data)@ == blur_result(old(data)@, width as int, height as int, p),
        },
{
    match parse_params(params) {
        None => BlurError::ParseError.code(),
        Some(p) => blur(width, height, data, p).code(),
    }
}

} // verus!
