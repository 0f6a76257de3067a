//! Drawing strokes into a frame.
//!
//! A segment is a run of stamped discs, which gives round ends and round joins
//! for free. A stroke marks what it covers first and reaches the frame after,
//! once a pixel, so a translucent one does not build up where its discs
//! overlap. Positions and widths are in 256ths of a pixel.
use vstd::prelude::*;

use crate::backend::blend::{self, over, Pixel};
use crate::scene::{Point, Stroke};

verus! {

/// The width a stroke is drawn with: never less than a pixel.
pub open spec fn diameter(stroke: Stroke) -> int {
    if stroke.width < 256 {
        256
    } else {
        stroke.width as int
    }
}

/// Whether a pixel's centre is inside a disc. Everything is doubled, so that
/// the centre and the radius are whole.
pub open spec fn inside(x: int, y: int, diameter: int, column: int, row: int) -> bool {
    let dx = 512 * column + 256 - 2 * x;
    let dy = 512 * row + 256 - 2 * y;
    dx * dx + dy * dy <= diameter * diameter
}

/// Whether a number of steps takes a segment in strides of no more than half a
/// radius.
pub open spec fn strides(a: Point, b: Point, diameter: int, steps: int) -> bool {
    let dx = b.x - a.x;
    let dy = b.y - a.y;
    16 * (dx * dx + dy * dy) <= (steps * diameter) * (steps * diameter)
}

/// Whether this is the number of steps a segment is taken in: the fewest that
/// will do, and at least one.
pub open spec fn is_steps(a: Point, b: Point, diameter: int, steps: int) -> bool {
    &&& steps >= 1
    &&& strides(a, b, diameter, steps)
    &&& steps > 1 ==> !strides(a, b, diameter, steps - 1)
}

/// Where a number of steps along a segment comes to, on one axis.
pub open spec fn along(from: int, to: int, steps: int, step: int) -> int {
    from + ((to - from) * step) / steps
}

/// Whether a disc of one segment covers a pixel.
pub open spec fn segment_covers(
    a: Point,
    b: Point,
    diameter: int,
    steps: int,
    column: int,
    row: int,
) -> bool {
    exists|step: int|
        0 <= step <= steps && #[trigger] inside(
            along(a.x as int, b.x as int, steps, step),
            along(a.y as int, b.y as int, steps, step),
            diameter,
            column,
            row,
        )
}

/// The number of steps a segment is taken in.
pub open spec fn steps_of(a: Point, b: Point, diameter: int) -> int {
    choose|steps: int| is_steps(a, b, diameter, steps)
}

/// Whether one of the first `n` segments of a stroke covers a pixel.
pub open spec fn segments_cover(
    points: Seq<Point>,
    diameter: int,
    n: int,
    column: int,
    row: int,
) -> bool {
    exists|i: int|
        0 <= i < n && #[trigger] segment_covers(
            points[i],
            points[i + 1],
            diameter,
            steps_of(points[i], points[i + 1], diameter),
            column,
            row,
        )
}

/// Whether a stroke covers a pixel: a press with no movement is a dot, and
/// anything longer is its segments.
pub open spec fn covers(stroke: Stroke, column: int, row: int) -> bool {
    if stroke.points@.len() == 1 {
        inside(
            stroke.points@[0].x as int,
            stroke.points@[0].y as int,
            diameter(stroke),
            column,
            row,
        )
    } else {
        segments_cover(
            stroke.points@,
            diameter(stroke),
            stroke.points@.len() - 1,
            column,
            row,
        )
    }
}

/// What a pixel shows once the first `n` strokes are drawn: each that covers
/// it is put over it, once.
pub open spec fn drawn(strokes: Seq<Stroke>, n: int, column: int, row: int) -> Pixel
    decreases n,
{
    if n <= 0 {
        blend::clear()
    } else {
        let before = drawn(strokes, n - 1, column, row);
        if covers(strokes[n - 1], column, row) {
            blend::blended(before, strokes[n - 1].rgba)
        } else {
            before
        }
    }
}

/// A picture, row after row.
pub struct Frame {
    pub width: u32,
    pub height: u32,
    pub pixels: Vec<Pixel>,
}

impl Frame {
    /// Every row has every pixel.
    pub open spec fn wf(&self) -> bool {
        self.pixels@.len() == self.width * self.height
    }

    /// The pixel at a place.
    pub open spec fn at(&self, column: int, row: int) -> Pixel {
        self.pixels@[row * self.width + column]
    }

    /// The pixel at a place.
    pub fn pixel_at(&self, column: u32, row: u32) -> (r: Pixel)
        requires
            self.wf(),
            column < self.width,
            row < self.height,
        ensures
            r == self.at(column as int, row as int),
            r == self.pixels@[row * self.width + column],
    {
        let len: usize = self.pixels.len();
        proof {
            lemma_place(column as int, row as int, self.width as int, self.height as int);
            assert(row as int * self.width as int >= 0) by (nonlinear_arith);
        }
        self.pixels[row as usize * self.width as usize + column as usize]
    }
}

/// A place in the frame is an index, and the index tells the place.
proof fn lemma_place(column: int, row: int, width: int, height: int)
    requires
        0 <= column < width,
        0 <= row < height,
    ensures
        0 <= row * width + column < width * height,
        (row * width + column) / width == row,
        (row * width + column) % width == column,
{
    assert(0 <= row * width + column < width * height) by (nonlinear_arith)
        requires
            0 <= column < width,
            0 <= row < height,
    ;
    vstd::arithmetic::div_mod::lemma_fundamental_div_mod_converse(
        row * width + column,
        width,
        row,
        column,
    );
}

/// An index of the frame tells its place.
proof fn lemma_index(k: int, width: int, height: int)
    requires
        0 <= k < width * height,
        0 <= width,
        0 <= height,
    ensures
        width > 0,
        0 <= k % width < width,
        0 <= k / width < height,
        (k / width) * width + k % width == k,
{
    assert(width > 0) by (nonlinear_arith)
        requires
            0 <= k < width * height,
            0 <= width,
            0 <= height,
    ;
    vstd::arithmetic::div_mod::lemma_fundamental_div_mod(k, width);
    assert(0 <= k / width < height) by (nonlinear_arith)
        requires
            0 <= k < width * height,
            width > 0,
    ;
    assert((k / width) * width == width * (k / width)) by (nonlinear_arith);
}

/// The smallest root whose square reaches a number.
fn ceil_root(q: u128) -> (r: u64)
    requires
        q <= 0x40_0000_0000_0000_0000,
    ensures
        q <= r * r,
        r > 0 ==> (r - 1) * (r - 1) < q,
        r <= 0x8_0000_0000,
{
    let mut low: u64 = 0;
    let mut high: u64 = 0x8_0000_0000;
    proof {
        assert(0x8_0000_0000int * 0x8_0000_0000int == 0x40_0000_0000_0000_0000int)
            by (nonlinear_arith);
    }
    while low < high
        invariant
            low <= high <= 0x8_0000_0000,
            q <= high * high,
            low > 0 ==> (low - 1) * (low - 1) < q,
        decreases high - low,
    {
        let middle: u64 = low + (high - low) / 2;
        proof {
            assert(middle * middle <= 0x8_0000_0000int * 0x8_0000_0000int) by (nonlinear_arith)
                requires
                    0 <= middle <= 0x8_0000_0000,
            ;
        }
        if (middle as u128) * (middle as u128) >= q {
            high = middle;
        } else {
            low = middle + 1;
        }
    }
    low
}

/// There is one fewest number of steps.
proof fn lemma_steps_unique(a: Point, b: Point, diameter: int, m: int, n: int)
    requires
        diameter > 0,
        is_steps(a, b, diameter, m),
        is_steps(a, b, diameter, n),
    ensures
        m == n,
{
    lemma_steps_no_fewer(a, b, diameter, m, n);
    lemma_steps_no_fewer(a, b, diameter, n, m);
}

proof fn lemma_steps_no_fewer(a: Point, b: Point, diameter: int, m: int, n: int)
    requires
        diameter > 0,
        is_steps(a, b, diameter, m),
        is_steps(a, b, diameter, n),
    ensures
        m >= n,
{
    if m < n {
        assert(0 <= m * diameter <= (n - 1) * diameter) by (nonlinear_arith)
            requires
                1 <= m <= n - 1,
                diameter > 0,
        ;
        assert((m * diameter) * (m * diameter) <= ((n - 1) * diameter) * ((n - 1) * diameter))
            by (nonlinear_arith)
            requires
                0 <= m * diameter <= (n - 1) * diameter,
        ;
    }
}

/// The number of steps a segment is taken in.
fn steps(a: Point, b: Point, diameter: u32) -> (r: u32)
    requires
        diameter >= 256,
    ensures
        is_steps(a, b, diameter as int, r as int),
        r == steps_of(a, b, diameter as int),
{
    let dx: i128 = b.x as i128 - a.x as i128;
    let dy: i128 = b.y as i128 - a.y as i128;
    let ghost d = diameter as int;
    proof {
        assert(0 <= dx * dx <= 0x1_0000_0000int * 0x1_0000_0000int) by (nonlinear_arith)
            requires
                -0x1_0000_0000 <= dx <= 0x1_0000_0000,
        ;
        assert(0 <= dy * dy <= 0x1_0000_0000int * 0x1_0000_0000int) by (nonlinear_arith)
            requires
                -0x1_0000_0000 <= dy <= 0x1_0000_0000,
        ;
        assert(0x1_0000_0000int * 0x1_0000_0000int == 0x1_0000_0000_0000_0000int)
            by (nonlinear_arith);
    }
    let q: u128 = (16 * (dx * dx + dy * dy)) as u128;
    let span: u64 = ceil_root(q);
    let whole: u64 = (span + (diameter as u64 - 1)) / diameter as u64;
    let r: u32 = if whole == 0 { 1 } else { whole as u32 };
    proof {
        let n = r as int;
        let s = span as int;
        assert(whole <= 0x800_0000) by (nonlinear_arith)
            requires
                whole as int == (s + (d - 1)) / d,
                0 <= s <= 0x8_0000_0000,
                d >= 256,
        ;
        // The steps reach the span, and one fewer does not.
        assert(s <= n * d) by (nonlinear_arith)
            requires
                whole as int == (s + (d - 1)) / d,
                n >= whole,
                d >= 256,
                s >= 0,
        ;
        assert(s * s <= (n * d) * (n * d)) by (nonlinear_arith)
            requires
                0 <= s <= n * d,
        ;
        assert(strides(a, b, d, n));
        if n > 1 {
            assert((n - 1) * d <= s - 1) by (nonlinear_arith)
                requires
                    n == (s + (d - 1)) / d,
                    d >= 256,
            ;
            assert(0 <= (n - 1) * d) by (nonlinear_arith)
                requires
                    n > 1,
                    d >= 256,
            ;
            assert(((n - 1) * d) * ((n - 1) * d) <= (s - 1) * (s - 1)) by (nonlinear_arith)
                requires
                    0 <= (n - 1) * d <= s - 1,
            ;
            assert(!strides(a, b, d, n - 1));
        }
        assert(is_steps(a, b, d, n));
        let chosen = steps_of(a, b, d);
        lemma_steps_unique(a, b, d, chosen, n);
    }
    r
}

/// Where a number of steps along a segment comes to, on one axis.
fn stamp_at(from: i32, to: i32, steps: u32, step: u32) -> (r: i64)
    requires
        steps > 0,
        step <= steps,
    ensures
        r == along(from as int, to as int, steps as int, step as int),
        -0x8000_0000 <= r <= 0x7fff_ffff,
{
    let reach: i128 = to as i128 - from as i128;
    proof {
        assert(-0x1_0000_0000_0000_0000 <= reach * step <= 0x1_0000_0000_0000_0000)
            by (nonlinear_arith)
            requires
                -0x1_0000_0000 < reach < 0x1_0000_0000,
                0 <= step <= 0xffff_ffff,
        ;
    }
    let product: i128 = reach * step as i128;
    let over: i128 = steps as i128;
    let moved: i128 = if product >= 0 {
        product / over
    } else {
        -((-product + (over - 1)) / over)
    };
    proof {
        assert(moved as int == (reach * step) / (steps as int)) by {
            if product < 0 {
                assert(-((-(product as int) + (over - 1)) / (over as int)) == product as int
                    / over as int) by (nonlinear_arith)
                    requires
                        over > 0,
                        product < 0,
                ;
            }
        }
        // A step along the way lies between the ends.
        if reach >= 0 {
            assert(0 <= (reach * step) / (steps as int) <= reach) by (nonlinear_arith)
                requires
                    reach >= 0,
                    0 <= step <= steps,
                    steps > 0,
            ;
        } else {
            assert(reach <= (reach * step) / (steps as int) <= 0) by (nonlinear_arith)
                requires
                    reach < 0,
                    0 <= step <= steps,
                    steps > 0,
            ;
        }
    }
    (from as i128 + moved) as i64
}

/// A disc never reaches past the box round it.
proof fn lemma_inside_is_near(x: int, y: int, diameter: int, column: int, row: int)
    requires
        inside(x, y, diameter, column, row),
        diameter >= 0,
    ensures
        -diameter <= 512 * column + 256 - 2 * x <= diameter,
        -diameter <= 512 * row + 256 - 2 * y <= diameter,
{
    let dx = 512 * column + 256 - 2 * x;
    let dy = 512 * row + 256 - 2 * y;
    assert(-diameter <= dx <= diameter && -diameter <= dy <= diameter) by (nonlinear_arith)
        requires
            dx * dx + dy * dy <= diameter * diameter,
            diameter >= 0,
    ;
}

/// The pixel that holds the near edge of a disc on one axis, or the first there
/// is where the edge lies before it.
spec fn pixel_at_near_edge(centre: int, diameter: int) -> int {
    let edge = 2 * centre - diameter;
    if edge <= 0 {
        0
    } else {
        edge / 512
    }
}

/// The first pixel a disc can cover on one axis.
fn first_pixel(centre: i64, diameter: u32) -> (r: usize)
    requires
        -0x8000_0000 <= centre <= 0x7fff_ffff,
    ensures
        r == pixel_at_near_edge(centre as int, diameter as int),
{
    // Half a disc back from the centre, in doubled units of a pixel.
    let edge: i64 = 2 * centre - diameter as i64;
    if edge <= 0 {
        0
    } else {
        (edge / 512) as usize
    }
}

/// The first pixel that begins at or past a disc's far edge, and no more than
/// the last there is.
spec fn pixel_past_far_edge(centre: int, diameter: int, limit: int) -> int {
    let past = (2 * centre + diameter + 511) / 512;
    if past <= 0 {
        0
    } else if past >= limit {
        limit
    } else {
        past
    }
}

/// The pixel past the last a disc can cover on one axis.
fn last_pixel(centre: i64, diameter: u32, limit: u32) -> (r: usize)
    requires
        -0x8000_0000 <= centre <= 0x7fff_ffff,
    ensures
        r == pixel_past_far_edge(centre as int, diameter as int, limit as int),
{
    let edge: i64 = 2 * centre + diameter as i64;
    if edge <= 0 {
        0
    } else {
        let past: i64 = (edge + 511) / 512;
        if past >= limit as i64 {
            limit as usize
        } else {
            past as usize
        }
    }
}

fn is_inside(x: i64, y: i64, diameter: u32, column: usize, row: usize) -> (r: bool)
    requires
        -0x8000_0000 <= x <= 0x7fff_ffff,
        -0x8000_0000 <= y <= 0x7fff_ffff,
        column <= 0xffff_ffff,
        row <= 0xffff_ffff,
    ensures
        r == inside(x as int, y as int, diameter as int, column as int, row as int),
{
    let dx: i128 = 512 * column as i128 + 256 - 2 * x as i128;
    let dy: i128 = 512 * row as i128 + 256 - 2 * y as i128;
    proof {
        assert(0 <= dx * dx <= 0x400_0000_0000int * 0x400_0000_0000int) by (nonlinear_arith)
            requires
                -0x400_0000_0000 <= dx <= 0x400_0000_0000,
        ;
        assert(0 <= dy * dy <= 0x400_0000_0000int * 0x400_0000_0000int) by (nonlinear_arith)
            requires
                -0x400_0000_0000 <= dy <= 0x400_0000_0000,
        ;
        assert(0x400_0000_0000int * 0x400_0000_0000int == 0x10_0000_0000_0000_0000_0000int)
            by (nonlinear_arith);
        assert(0 <= diameter as int * diameter as int <= 0x1_0000_0000int * 0x1_0000_0000int)
            by (nonlinear_arith)
            requires
                0 <= diameter as int <= 0x1_0000_0000,
        ;
        assert(0x1_0000_0000int * 0x1_0000_0000int == 0x1_0000_0000_0000_0000int)
            by (nonlinear_arith);
    }
    dx * dx + dy * dy <= diameter as i128 * diameter as i128
}

/// The part of the canvas a stroke has touched: columns and rows, the far ends
/// not included.
#[derive(Clone, Copy, Debug, PartialEq, Eq, Structural)]
struct Marked {
    left: usize,
    top: usize,
    right: usize,
    bottom: usize,
}

impl Marked {
    spec fn holds(&self, column: int, row: int) -> bool {
        self.left <= column < self.right && self.top <= row < self.bottom
    }

    spec fn fits(&self, width: u32, height: u32) -> bool {
        self.right <= width && self.bottom <= height
    }

    fn nothing() -> (r: Self)
        ensures
            forall|column: int, row: int| !r.holds(column, row),
            forall|width: u32, height: u32| r.fits(width, height),
    {
        Marked { left: 0, top: 0, right: 0, bottom: 0 }
    }

    fn with(self, left: usize, top: usize, right: usize, bottom: usize) -> (r: Self)
        ensures
            forall|column: int, row: int| self.holds(column, row) ==> r.holds(column, row),
            forall|column: int, row: int|
                left <= column < right && top <= row < bottom ==> r.holds(column, row),
            forall|width: u32, height: u32|
                self.fits(width, height) && right <= width && bottom <= height ==> r.fits(
                    width,
                    height,
                ),
    {
        if left >= right || top >= bottom {
            self
        } else if self.left >= self.right || self.top >= self.bottom {
            Marked { left, top, right, bottom }
        } else {
            Marked {
                left: if left < self.left { left } else { self.left },
                top: if top < self.top { top } else { self.top },
                right: if right > self.right { right } else { self.right },
                bottom: if bottom > self.bottom { bottom } else { self.bottom },
            }
        }
    }
}

/// What a stroke has marked of the canvas so far.
struct Coverage {
    width: u32,
    height: u32,
    marks: Vec<bool>,
    marked: Marked,
}

impl Coverage {
    spec fn wf(&self) -> bool {
        &&& self.marks@.len() == self.width * self.height
        &&& self.marked.fits(self.width, self.height)
        &&& forall|k: int|
            0 <= k < self.marks@.len() && #[trigger] self.marks@[k] ==> self.marked.holds(
                k % (self.width as int),
                k / (self.width as int),
            )
    }

    spec fn blank(&self) -> bool {
        forall|k: int| 0 <= k < self.marks@.len() ==> !#[trigger] self.marks@[k]
    }

    spec fn same_size(&self, other: &Coverage) -> bool {
        self.width == other.width && self.height == other.height
    }

    fn new(width: u32, height: u32) -> (r: Self)
        requires
            width * height <= usize::MAX,
        ensures
            r.wf(),
            r.blank(),
            r.width == width,
            r.height == height,
    {
        proof {
            assert(width as int * height as int >= 0) by (nonlinear_arith);
        }
        let len: usize = width as usize * height as usize;
        let mut marks: Vec<bool> = Vec::new();
        let mut i: usize = 0;
        while i < len
            invariant
                i <= len,
                marks@.len() == i,
                forall|k: int| 0 <= k < i ==> !#[trigger] marks@[k],
            decreases len - i,
        {
            marks.push(false);
            i = i + 1;
        }
        Coverage { width, height, marks, marked: Marked::nothing() }
    }

    /// Marks the pixels of one row that a disc covers.
    fn stamp_row(&mut self, x: i64, y: i64, diameter: u32, row: usize, left: usize, right: usize)
        requires
            old(self).marks@.len() == old(self).width * old(self).height,
            row < old(self).height,
            right <= old(self).width,
            -0x8000_0000 <= x <= 0x7fff_ffff,
            -0x8000_0000 <= y <= 0x7fff_ffff,
            forall|column: int|
                0 <= column < old(self).width && !(left <= column < right) ==> !#[trigger] inside(
                    x as int,
                    y as int,
                    diameter as int,
                    column,
                    row as int,
                ),
        ensures
            final(self).same_size(old(self)),
            final(self).marked == old(self).marked,
            final(self).marks@.len() == old(self).marks@.len(),
            forall|k: int|
                0 <= k < final(self).marks@.len() ==> #[trigger] final(self).marks@[k] == (old(
                    self,
                ).marks@[k] || (k / (old(self).width as int) == row && inside(
                    x as int,
                    y as int,
                    diameter as int,
                    k % (old(self).width as int),
                    k / (old(self).width as int),
                ))),
    {
        let ghost width = self.width as int;
        let ghost height = self.height as int;
        let mut column: usize = left;
        let len: usize = self.marks.len();
        proof {
            assert forall|k: int| 0 <= k < self.marks@.len() implies #[trigger] self.marks@[k] == (
            old(self).marks@[k] || (k / width == row && k % width < left && inside(
                x as int,
                y as int,
                diameter as int,
                k % width,
                k / width,
            ))) by {
                lemma_index(k, width, height);
            }
        }
        while column < right
            invariant
                self.same_size(old(self)),
                self.marked == old(self).marked,
                self.marks@.len() == old(self).marks@.len() == width * height == len,
                width == self.width,
                height == self.height,
                row < height,
                left <= column,
                right <= width,
                -0x8000_0000 <= x <= 0x7fff_ffff,
                -0x8000_0000 <= y <= 0x7fff_ffff,
                forall|k: int|
                    0 <= k < self.marks@.len() ==> #[trigger] self.marks@[k] == (old(
                        self,
                    ).marks@[k] || (k / width == row && k % width < column && inside(
                        x as int,
                        y as int,
                        diameter as int,
                        k % width,
                        k / width,
                    ))),
            decreases right - column,
        {
            proof {
                lemma_place(column as int, row as int, width, height);
                assert(row as int * width >= 0) by (nonlinear_arith)
                    requires
                        row as int >= 0,
                        width >= 0,
                ;
            }
            let covered: bool = is_inside(x, y, diameter, column, row);
            let at: usize = row * self.width as usize + column;
            let ghost before = self.marks@;
            if covered {
                self.marks[at] = true;
            }
            proof {
                assert forall|k: int| 0 <= k < self.marks@.len() implies #[trigger] self.marks@[k]
                    == (old(self).marks@[k] || (k / width == row && k % width < column + 1
                    && inside(x as int, y as int, diameter as int, k % width, k / width))) by {
                    lemma_index(k, width, height);
                    assert(before[k] == before[k]);
                    if k / width == row && k % width == column {
                        assert(k == at);
                    }
                    if k == at {
                        assert(k / width == row && k % width == column);
                    }
                }
            }
            column = column + 1;
        }
        proof {
            assert forall|k: int| 0 <= k < self.marks@.len() implies #[trigger] self.marks@[k] == (
            old(self).marks@[k] || (k / width == row && inside(
                x as int,
                y as int,
                diameter as int,
                k % width,
                k / width,
            ))) by {
                lemma_index(k, width, height);
            }
        }
    }

    /// Marks the pixels a disc covers.
    fn stamp(&mut self, x: i64, y: i64, diameter: u32)
        requires
            old(self).wf(),
            -0x8000_0000 <= x <= 0x7fff_ffff,
            -0x8000_0000 <= y <= 0x7fff_ffff,
        ensures
            final(self).wf(),
            final(self).same_size(old(self)),
            forall|k: int|
                0 <= k < final(self).marks@.len() ==> #[trigger] final(self).marks@[k] == (old(
                    self,
                ).marks@[k] || inside(
                    x as int,
                    y as int,
                    diameter as int,
                    k % (old(self).width as int),
                    k / (old(self).width as int),
                )),
    {
        let left: usize = first_pixel(x, diameter);
        let top: usize = first_pixel(y, diameter);
        let right: usize = last_pixel(x, diameter, self.width);
        let bottom: usize = last_pixel(y, diameter, self.height);
        let ghost width = self.width as int;
        let ghost height = self.height as int;
        proof {
            assert forall|column: int, row: int|
                0 <= column < width && 0 <= row < height && #[trigger] inside(
                    x as int,
                    y as int,
                    diameter as int,
                    column,
                    row,
                ) implies left <= column < right && top <= row < bottom by {
                lemma_inside_is_near(x as int, y as int, diameter as int, column, row);
            }
            assert forall|k: int| 0 <= k < self.marks@.len() implies !(k / width < top && inside(
                x as int,
                y as int,
                diameter as int,
                #[trigger] (k % width),
                k / width,
            )) by {
                lemma_index(k, width, height);
            }
        }
        let mut row: usize = top;
        while row < bottom
            invariant
                self.same_size(old(self)),
                self.marked == old(self).marked,
                self.marks@.len() == old(self).marks@.len() == width * height,
                width == self.width,
                height == self.height,
                top <= row,
                bottom <= height,
                right <= width,
                -0x8000_0000 <= x <= 0x7fff_ffff,
                -0x8000_0000 <= y <= 0x7fff_ffff,
                forall|column: int, r: int|
                    0 <= column < width && 0 <= r < height && #[trigger] inside(
                        x as int,
                        y as int,
                        diameter as int,
                        column,
                        r,
                    ) ==> left <= column < right && top <= r < bottom,
                forall|k: int|
                    0 <= k < self.marks@.len() ==> #[trigger] self.marks@[k] == (old(
                        self,
                    ).marks@[k] || (k / width < row && inside(
                        x as int,
                        y as int,
                        diameter as int,
                        k % width,
                        k / width,
                    ))),
            decreases bottom - row,
        {
            self.stamp_row(x, y, diameter, row, left, right);
            row = row + 1;
        }
        self.marked = self.marked.with(left, top, right, bottom);
        proof {
            assert forall|k: int| 0 <= k < self.marks@.len() implies #[trigger] self.marks@[k] == (
            old(self).marks@[k] || inside(
                x as int,
                y as int,
                diameter as int,
                k % width,
                k / width,
            )) by {
                lemma_index(k, width, height);
            }
            assert forall|k: int| 0 <= k < self.marks@.len() && #[trigger] self.marks@[k] implies
                self.marked.holds(k % width, k / width) by {
                lemma_index(k, width, height);
                if old(self).marks@[k] {
                    assert(old(self).marked.holds(k % width, k / width));
                }
            }
        }
    }
}

impl Coverage {
    /// Marks the pixels one segment covers.
    fn segment(&mut self, a: Point, b: Point, diameter: u32)
        requires
            old(self).wf(),
            diameter >= 256,
        ensures
            final(self).wf(),
            final(self).same_size(old(self)),
            forall|k: int|
                0 <= k < final(self).marks@.len() ==> #[trigger] final(self).marks@[k] == (old(
                    self,
                ).marks@[k] || segment_covers(
                    a,
                    b,
                    diameter as int,
                    steps_of(a, b, diameter as int),
                    k % (old(self).width as int),
                    k / (old(self).width as int),
                )),
    {
        let count: u32 = steps(a, b, diameter);
        let ghost width = self.width as int;
        let mut step: u32 = 0;
        while step < count
            invariant
                self.wf(),
                self.same_size(old(self)),
                width == self.width,
                step <= count,
                count >= 1,
                self.marks@.len() == old(self).marks@.len(),
                forall|k: int|
                    0 <= k < self.marks@.len() ==> #[trigger] self.marks@[k] == (old(
                        self,
                    ).marks@[k] || exists|s: int|
                        0 <= s < step && #[trigger] inside(
                            along(a.x as int, b.x as int, count as int, s),
                            along(a.y as int, b.y as int, count as int, s),
                            diameter as int,
                            k % width,
                            k / width,
                        )),
            decreases count - step,
        {
            let x: i64 = stamp_at(a.x, b.x, count, step);
            let y: i64 = stamp_at(a.y, b.y, count, step);
            let ghost before = self.marks@;
            self.stamp(x, y, diameter);
            proof {
                assert forall|k: int| 0 <= k < self.marks@.len() implies #[trigger] self.marks@[k]
                    == (old(self).marks@[k] || exists|s: int|
                    0 <= s < step + 1 && #[trigger] inside(
                        along(a.x as int, b.x as int, count as int, s),
                        along(a.y as int, b.y as int, count as int, s),
                        diameter as int,
                        k % width,
                        k / width,
                    )) by {
                    assert(before[k] == before[k]);
                    if inside(x as int, y as int, diameter as int, k % width, k / width) {
                        assert(inside(
                            along(a.x as int, b.x as int, count as int, step as int),
                            along(a.y as int, b.y as int, count as int, step as int),
                            diameter as int,
                            k % width,
                            k / width,
                        ));
                    }
                }
            }
            step = step + 1;
        }
        let x: i64 = stamp_at(a.x, b.x, count, count);
        let y: i64 = stamp_at(a.y, b.y, count, count);
        let ghost before = self.marks@;
        self.stamp(x, y, diameter);
        proof {
            assert forall|k: int| 0 <= k < self.marks@.len() implies #[trigger] self.marks@[k] == (
            old(self).marks@[k] || segment_covers(
                a,
                b,
                diameter as int,
                count as int,
                k % width,
                k / width,
            )) by {
                assert(before[k] == before[k]);
                if inside(x as int, y as int, diameter as int, k % width, k / width) {
                    assert(inside(
                        along(a.x as int, b.x as int, count as int, count as int),
                        along(a.y as int, b.y as int, count as int, count as int),
                        diameter as int,
                        k % width,
                        k / width,
                    ));
                }
            }
        }
    }

    /// Marks the pixels one stroke covers.
    fn stroke(&mut self, stroke: &Stroke)
        requires
            old(self).wf(),
            old(self).blank(),
        ensures
            final(self).wf(),
            final(self).same_size(old(self)),
            forall|k: int|
                0 <= k < final(self).marks@.len() ==> #[trigger] final(self).marks@[k] == covers(
                    *stroke,
                    k % (old(self).width as int),
                    k / (old(self).width as int),
                ),
    {
        let diameter: u32 = if stroke.width < 256 { 256 } else { stroke.width };
        let ghost width = self.width as int;
        if stroke.points.len() == 0 {
            return;
        }
        if stroke.points.len() == 1 {
            let point: Point = stroke.points[0];
            self.stamp(point.x as i64, point.y as i64, diameter);
            return;
        }
        let mut i: usize = 0;
        while i < stroke.points.len() - 1
            invariant
                self.wf(),
                self.same_size(old(self)),
                old(self).blank(),
                width == self.width,
                self.marks@.len() == old(self).marks@.len(),
                i <= stroke.points@.len() - 1,
                stroke.points@.len() > 1,
                diameter >= 256,
                forall|k: int|
                    0 <= k < self.marks@.len() ==> #[trigger] self.marks@[k] == segments_cover(
                        stroke.points@,
                        diameter as int,
                        i as int,
                        k % width,
                        k / width,
                    ),
            decreases stroke.points@.len() - i,
        {
            let a: Point = stroke.points[i];
            let b: Point = stroke.points[i + 1];
            let ghost before = self.marks@;
            self.segment(a, b, diameter);
            proof {
                assert forall|k: int| 0 <= k < self.marks@.len() implies #[trigger] self.marks@[k]
                    == segments_cover(
                    stroke.points@,
                    diameter as int,
                    i + 1,
                    k % width,
                    k / width,
                ) by {
                    assert(before[k] == before[k]);
                    let d = diameter as int;
                    let here = segment_covers(
                        stroke.points@[i as int],
                        stroke.points@[i + 1],
                        d,
                        steps_of(stroke.points@[i as int], stroke.points@[i + 1], d),
                        k % width,
                        k / width,
                    );
                    assert(self.marks@[k] == (before[k] || here));
                    if before[k] {
                        let j = choose|j: int|
                            0 <= j < i && #[trigger] segment_covers(
                                stroke.points@[j],
                                stroke.points@[j + 1],
                                d,
                                steps_of(stroke.points@[j], stroke.points@[j + 1], d),
                                k % width,
                                k / width,
                            );
                        assert(segment_covers(
                            stroke.points@[j],
                            stroke.points@[j + 1],
                            d,
                            steps_of(stroke.points@[j], stroke.points@[j + 1], d),
                            k % width,
                            k / width,
                        ));
                    }
                }
            }
            i = i + 1;
        }
    }

    /// Puts a colour over every pixel that is marked, once, and leaves the
    /// marks blank again.
    fn compose(&mut self, pixels: &mut Vec<Pixel>, rgba: [u8; 4])
        requires
            old(self).wf(),
            old(pixels)@.len() == old(self).marks@.len(),
        ensures
            final(self).wf(),
            final(self).blank(),
            final(self).same_size(old(self)),
            final(pixels)@.len() == old(pixels)@.len(),
            forall|k: int|
                0 <= k < final(pixels)@.len() ==> #[trigger] final(pixels)@[k] == (if old(
                    self,
                ).marks@[k] {
                    blend::blended(old(pixels)@[k], rgba)
                } else {
                    old(pixels)@[k]
                }),
    {
        let Marked { left, top, right, bottom } = self.marked;
        let ghost width = self.width as int;
        let ghost height = self.height as int;
        let mut row: usize = top;
        while row < bottom
            invariant
                self.same_size(old(self)),
                self.marked == old(self).marked,
                self.marked == (Marked { left, top, right, bottom }),
                old(self).wf(),
                width == self.width,
                height == self.height,
                self.marks@.len() == old(self).marks@.len() == width * height,
                pixels@.len() == old(pixels)@.len() == width * height,
                top <= row,
                forall|k: int|
                    0 <= k < self.marks@.len() ==> #[trigger] self.marks@[k] == (old(
                        self,
                    ).marks@[k] && k / width >= row),
                forall|k: int|
                    0 <= k < pixels@.len() ==> #[trigger] pixels@[k] == (if old(self).marks@[k]
                        && k / width < row {
                        blend::blended(old(pixels)@[k], rgba)
                    } else {
                        old(pixels)@[k]
                    }),
            decreases bottom - row,
        {
            let mut column: usize = left;
            proof {
                assert forall|k: int| 0 <= k < self.marks@.len() implies (#[trigger] self.marks@[k]
                    == (old(self).marks@[k] && (k / width > row || k / width == row && k % width
                    >= column))) by {
                    lemma_index(k, width, height);
                    if old(self).marks@[k] {
                        assert(old(self).marked.holds(k % width, k / width));
                    }
                }
                assert forall|k: int| 0 <= k < pixels@.len() implies (#[trigger] pixels@[k] == (
                if old(self).marks@[k] && (k / width < row || k / width == row && k % width
                    < column) {
                    blend::blended(old(pixels)@[k], rgba)
                } else {
                    old(pixels)@[k]
                })) by {
                    lemma_index(k, width, height);
                    if old(self).marks@[k] {
                        assert(old(self).marked.holds(k % width, k / width));
                    }
                }
            }
            while column < right
                invariant
                    self.same_size(old(self)),
                    self.marked == old(self).marked,
                    self.marked == (Marked { left, top, right, bottom }),
                    old(self).wf(),
                    width == self.width,
                    height == self.height,
                    self.marks@.len() == old(self).marks@.len() == width * height,
                    pixels@.len() == old(pixels)@.len() == width * height,
                    top <= row < bottom,
                    left <= column,
                    forall|k: int|
                        0 <= k < self.marks@.len() ==> #[trigger] self.marks@[k] == (old(
                            self,
                        ).marks@[k] && (k / width > row || k / width == row && k % width
                            >= column)),
                    forall|k: int|
                        0 <= k < pixels@.len() ==> #[trigger] pixels@[k] == (if old(
                            self,
                        ).marks@[k] && (k / width < row || k / width == row && k % width
                            < column) {
                            blend::blended(old(pixels)@[k], rgba)
                        } else {
                            old(pixels)@[k]
                        }),
                decreases right - column,
            {
                let len: usize = self.marks.len();
                proof {
                    lemma_place(column as int, row as int, width, height);
                    assert(row as int * width >= 0) by (nonlinear_arith)
                        requires
                            row as int >= 0,
                            width >= 0,
                    ;
                }
                let at: usize = row * self.width as usize + column;
                let ghost marks = self.marks@;
                let ghost shown = pixels@;
                if self.marks[at] {
                    self.marks[at] = false;
                    let under: Pixel = pixels[at];
                    pixels[at] = over(under, rgba);
                }
                proof {
                    assert forall|k: int| 0 <= k < self.marks@.len() implies (
                    #[trigger] self.marks@[k] == (old(self).marks@[k] && (k / width > row || k
                        / width == row && k % width >= column + 1))) by {
                        lemma_index(k, width, height);
                        assert(marks[k] == marks[k]);
                        if k / width == row && k % width == column {
                            assert(k == at);
                        }
                    }
                    assert forall|k: int| 0 <= k < pixels@.len() implies (#[trigger] pixels@[k]
                        == (if old(self).marks@[k] && (k / width < row || k / width == row && k
                        % width < column + 1) {
                        blend::blended(old(pixels)@[k], rgba)
                    } else {
                        old(pixels)@[k]
                    })) by {
                        lemma_index(k, width, height);
                        assert(shown[k] == shown[k]);
                        assert(marks[at as int] == old(self).marks@[at as int]);
                        if k / width == row && k % width == column {
                            assert(k == at);
                        }
                    }
                }
                column = column + 1;
            }
            proof {
                assert forall|k: int| 0 <= k < self.marks@.len() implies (#[trigger] self.marks@[k]
                    == (old(self).marks@[k] && k / width >= row + 1)) by {
                    lemma_index(k, width, height);
                    if old(self).marks@[k] {
                        assert(old(self).marked.holds(k % width, k / width));
                    }
                }
                assert forall|k: int| 0 <= k < pixels@.len() implies (#[trigger] pixels@[k] == (
                if old(self).marks@[k] && k / width < row + 1 {
                    blend::blended(old(pixels)@[k], rgba)
                } else {
                    old(pixels)@[k]
                })) by {
                    lemma_index(k, width, height);
                    if old(self).marks@[k] {
                        assert(old(self).marked.holds(k % width, k / width));
                    }
                }
            }
            row = row + 1;
        }
        self.marked = Marked::nothing();
        proof {
            assert forall|k: int| 0 <= k < self.marks@.len() implies !#[trigger] self.marks@[k] by {
                if old(self).marks@[k] {
                    assert(old(self).marked.holds(k % width, k / width));
                }
            }
            assert forall|k: int| 0 <= k < pixels@.len() implies (#[trigger] pixels@[k] == (if old(
                self,
            ).marks@[k] {
                blend::blended(old(pixels)@[k], rgba)
            } else {
                old(pixels)@[k]
            })) by {
                if old(self).marks@[k] {
                    assert(old(self).marked.holds(k % width, k / width));
                }
            }
        }
    }
}

fn filled(len: usize, pixel: Pixel) -> (r: Vec<Pixel>)
    ensures
        r@.len() == len,
        forall|k: int| 0 <= k < len ==> #[trigger] r@[k] == pixel,
{
    let mut r: Vec<Pixel> = Vec::new();
    let mut i: usize = 0;
    while i < len
        invariant
            i <= len,
            r@.len() == i,
            forall|k: int| 0 <= k < i ==> #[trigger] r@[k] == pixel,
        decreases len - i,
    {
        r.push(pixel);
        i = i + 1;
    }
    r
}

/// Draws strokes into a frame that is clear where nothing was drawn.
pub fn drawing_bgra(width: u32, height: u32, strokes: &Vec<Stroke>) -> (r: Frame)
    requires
        width * height <= usize::MAX,
    ensures
        r.wf(),
        r.width == width,
        r.height == height,
        forall|column: int, row: int|
            0 <= column < width && 0 <= row < height ==> #[trigger] r.at(column, row) == drawn(
                strokes@,
                strokes@.len() as int,
                column,
                row,
            ),
{
    proof {
        assert(width as int * height as int >= 0) by (nonlinear_arith);
    }
    let len: usize = width as usize * height as usize;
    let mut coverage = Coverage::new(width, height);
    let mut pixels = filled(len, Pixel { blue: 0, green: 0, red: 0, alpha: 0 });
    let ghost w = width as int;
    let mut i: usize = 0;
    while i < strokes.len()
        invariant
            i <= strokes@.len(),
            coverage.wf(),
            coverage.blank(),
            coverage.width == width,
            coverage.height == height,
            w == width,
            pixels@.len() == width * height,
            forall|k: int|
                0 <= k < pixels@.len() ==> #[trigger] pixels@[k] == drawn(
                    strokes@,
                    i as int,
                    k % w,
                    k / w,
                ),
        decreases strokes@.len() - i,
    {
        let ghost before = pixels@;
        coverage.stroke(&strokes[i]);
        let ghost marks = coverage.marks@;
        coverage.compose(&mut pixels, strokes[i].rgba);
        proof {
            assert forall|k: int| 0 <= k < pixels@.len() implies #[trigger] pixels@[k] == drawn(
                strokes@,
                i + 1,
                k % w,
                k / w,
            ) by {
                assert(before[k] == drawn(strokes@, i as int, k % w, k / w));
                assert(marks[k] == covers(strokes@[i as int], k % w, k / w));
            }
        }
        i = i + 1;
    }
    let frame = Frame { width, height, pixels };
    proof {
        assert forall|column: int, row: int|
            0 <= column < width && 0 <= row < height implies #[trigger] frame.at(column, row)
            == drawn(strokes@, strokes@.len() as int, column, row) by {
            lemma_place(column, row, width as int, height as int);
        }
    }
    frame
}

/// A frame filled with one colour. It is opaque: an item's own alpha is its
/// layer's, and applying it twice would darken the colour.
pub fn flat_bgra(width: u32, height: u32, rgba: [u8; 4]) -> (r: Frame)
    requires
        width * height <= usize::MAX,
    ensures
        r.wf(),
        r.width == width,
        r.height == height,
        forall|k: int|
            0 <= k < r.pixels@.len() ==> #[trigger] r.pixels@[k] == (Pixel {
                blue: rgba[2],
                green: rgba[1],
                red: rgba[0],
                alpha: 255,
            }),
{
    proof {
        assert(width as int * height as int >= 0) by (nonlinear_arith);
    }
    let pixel = Pixel { blue: rgba[2], green: rgba[1], red: rgba[0], alpha: 255 };
    Frame { width, height, pixels: filled(width as usize * height as usize, pixel) }
}

/// What no stroke covers stays clear.
pub proof fn law_what_is_not_drawn_on_is_clear(
    strokes: Seq<Stroke>,
    n: int,
    column: int,
    row: int,
)
    requires
        0 <= n <= strokes.len(),
        forall|i: int| 0 <= i < n ==> !covers(#[trigger] strokes[i], column, row),
    ensures
        drawn(strokes, n, column, row) == blend::clear(),
    decreases n,
{
    if n > 0 {
        law_what_is_not_drawn_on_is_clear(strokes, n - 1, column, row);
    }
}

/// However often a stroke crosses itself, a pixel takes its colour once: where
/// nothing else is drawn, it shows the stroke's own colour and alpha.
pub proof fn law_a_stroke_does_not_build_up(stroke: Stroke, column: int, row: int)
    requires
        covers(stroke, column, row),
        stroke.rgba[3] > 0,
    ensures
        drawn(seq![stroke], 1, column, row) == (Pixel {
            blue: stroke.rgba[2],
            green: stroke.rgba[1],
            red: stroke.rgba[0],
            alpha: stroke.rgba[3],
        }),
{
    blend::law_a_colour_over_nothing_is_itself(stroke.rgba);
    reveal_with_fuel(drawn, 2);
    assert(seq![stroke][0] == stroke);
}

/// A stroke added to a drawing lays its colour once over what was drawn there,
/// and leaves every other pixel alone: where it reaches is where the same
/// stroke, drawn in white by itself, leaves a mark. A drawing without strokes
/// is clear.
pub proof fn law_a_stroke_added_is_laid_once(
    strokes: Seq<Stroke>,
    stroke: Stroke,
    white: Stroke,
    column: int,
    row: int,
)
    requires
        white.points@ == stroke.points@,
        white.width == stroke.width,
        forall|i: int| 0 <= i < 4 ==> #[trigger] white.rgba[i] == 255,
    ensures
        drawn(Seq::empty(), 0, column, row) == blend::clear(),
        drawn(strokes.push(stroke), strokes.len() as int + 1, column, row) == (if drawn(
            seq![white],
            1,
            column,
            row,
        ) != blend::clear() {
            blend::blended(drawn(strokes, strokes.len() as int, column, row), stroke.rgba)
        } else {
            drawn(strokes, strokes.len() as int, column, row)
        }),
{
    let added = strokes.push(stroke);
    let n = strokes.len() as int;
    lemma_drawn_so_far(strokes, added, n, column, row);
    assert(added[n] == stroke);
    assert(covers(white, column, row) == covers(stroke, column, row));
    assert(seq![white][0] == white);
    assert(white.rgba[3] == 255);
    if covers(stroke, column, row) {
        law_a_stroke_does_not_build_up(white, column, row);
    } else {
        reveal_with_fuel(drawn, 2);
    }
}

/// What the first strokes draw is theirs alone.
proof fn lemma_drawn_so_far(some: Seq<Stroke>, all: Seq<Stroke>, n: int, column: int, row: int)
    requires
        n <= some.len() <= all.len(),
        forall|i: int| 0 <= i < n ==> #[trigger] all[i] == some[i],
    ensures
        drawn(some, n, column, row) == drawn(all, n, column, row),
    decreases n,
{
    if n > 0 {
        lemma_drawn_so_far(some, all, n - 1, column, row);
        assert(all[n - 1] == some[n - 1]);
    }
}

/// A segment has no gaps: it begins and ends at its points, and one stamp is
/// no further from the next than half a radius, but for the rounding of each
/// to a 256th of a pixel.
pub proof fn law_a_segment_has_no_gaps(a: Point, b: Point, diameter: int, steps: int, step: int)
    requires
        is_steps(a, b, diameter, steps),
        0 <= step < steps,
    ensures
        along(a.x as int, b.x as int, steps, 0) == a.x,
        along(a.y as int, b.y as int, steps, 0) == a.y,
        along(a.x as int, b.x as int, steps, steps) == b.x,
        along(a.y as int, b.y as int, steps, steps) == b.y,
        ({
            let dx = b.x - a.x;
            let dy = b.y - a.y;
            16 * (dx * dx + dy * dy) <= (steps * diameter) * (steps * diameter)
        }),
        ({
            let next = along(a.x as int, b.x as int, steps, step + 1);
            let here = along(a.x as int, b.x as int, steps, step);
            -steps < (next - here) * steps - (b.x - a.x) < steps
        }),
        ({
            let next = along(a.y as int, b.y as int, steps, step + 1);
            let here = along(a.y as int, b.y as int, steps, step);
            -steps < (next - here) * steps - (b.y - a.y) < steps
        }),
{
    let dx = b.x - a.x;
    let dy = b.y - a.y;
    assert((dx * 0) / steps == 0 && (dy * 0) / steps == 0) by (nonlinear_arith)
        requires
            steps >= 1,
    ;
    assert((dx * steps) / steps == dx) by (nonlinear_arith)
        requires
            steps >= 1,
    ;
    assert((dy * steps) / steps == dy) by (nonlinear_arith)
        requires
            steps >= 1,
    ;
    lemma_stride(dx, steps, step);
    lemma_stride(dy, steps, step);
}

/// One stride on one axis is the segment's share of it, but for the rounding.
proof fn lemma_stride(reach: int, steps: int, step: int)
    requires
        steps >= 1,
    ensures
        -steps < ((reach * (step + 1)) / steps - (reach * step) / steps) * steps - reach < steps,
{
    let p = reach * step;
    let q = reach * (step + 1);
    assert(q == p + reach) by (nonlinear_arith)
        requires
            p == reach * step,
            q == reach * (step + 1),
    ;
    assert(-steps < (q / steps - p / steps) * steps - reach < steps) by (nonlinear_arith)
        requires
            q == p + reach,
            steps >= 1,
    ;
}

/// A press with no movement is a dot of the stroke's own width, and never less
/// than a pixel's: it covers exactly the pixels whose centre is no further from
/// it than half of that, in 256ths of a pixel.
pub proof fn law_a_dot_is_as_wide_as_its_stroke(stroke: Stroke, column: int, row: int)
    requires
        stroke.points@.len() == 1,
    ensures
        ({
            let dx = 256 * column + 128 - stroke.points@[0].x;
            let dy = 256 * row + 128 - stroke.points@[0].y;
            let width = if stroke.width < 256 {
                256int
            } else {
                stroke.width as int
            };
            covers(stroke, column, row) <==> 4 * (dx * dx + dy * dy) <= width * width
        }),
{
    let dx = 256 * column + 128 - stroke.points@[0].x;
    let dy = 256 * row + 128 - stroke.points@[0].y;
    lemma_doubled(dx, dy);
}

/// A stroke covers every pixel whose centre is no further than half its width
/// from where one of its steps stands. The steps of a segment are the fewest
/// that take it in strides of no more than a quarter of the width, and each
/// stands its share of the way along.
pub proof fn law_a_stroke_is_as_wide_all_along(
    stroke: Stroke,
    i: int,
    steps: int,
    step: int,
    column: int,
    row: int,
)
    requires
        0 <= i < stroke.points@.len() - 1,
        0 <= step <= steps,
        ({
            let a = stroke.points@[i];
            let b = stroke.points@[i + 1];
            let width = if stroke.width < 256 {
                256int
            } else {
                stroke.width as int
            };
            let long = 16 * ((b.x - a.x) * (b.x - a.x) + (b.y - a.y) * (b.y - a.y));
            let dx = 256 * column + 128 - (a.x + ((b.x - a.x) * step) / steps);
            let dy = 256 * row + 128 - (a.y + ((b.y - a.y) * step) / steps);
            &&& steps >= 1
            &&& long <= (steps * width) * (steps * width)
            &&& steps > 1 ==> long > ((steps - 1) * width) * ((steps - 1) * width)
            &&& 4 * (dx * dx + dy * dy) <= width * width
        }),
    ensures
        covers(stroke, column, row),
{
    let a = stroke.points@[i];
    let b = stroke.points@[i + 1];
    let d = diameter(stroke);
    assert(is_steps(a, b, d, steps));
    let n = steps_of(a, b, d);
    lemma_steps_unique(a, b, d, n, steps);
    let x = along(a.x as int, b.x as int, steps, step);
    let y = along(a.y as int, b.y as int, steps, step);
    lemma_doubled(256 * column + 128 - x, 256 * row + 128 - y);
    assert(inside(x, y, d, column, row));
    assert(segment_covers(a, b, d, n, column, row));
}

/// A stroke covers every pixel whose centre is no further than half its width
/// from one of its points.
pub proof fn law_a_stroke_covers_its_points(stroke: Stroke, k: int, column: int, row: int)
    requires
        0 <= k < stroke.points@.len(),
        ({
            let dx = 256 * column + 128 - stroke.points@[k].x;
            let dy = 256 * row + 128 - stroke.points@[k].y;
            let width = if stroke.width < 256 {
                256int
            } else {
                stroke.width as int
            };
            4 * (dx * dx + dy * dy) <= width * width
        }),
    ensures
        covers(stroke, column, row),
{
    if stroke.points@.len() == 1 {
        law_a_dot_is_as_wide_as_its_stroke(stroke, column, row);
    } else {
        let i = if k == 0 {
            0
        } else {
            k - 1
        };
        let a = stroke.points@[i];
        let b = stroke.points@[i + 1];
        let d = diameter(stroke);
        lemma_some_steps(a, b, d);
        let steps = steps_of(a, b, d);
        law_a_segment_has_no_gaps(a, b, d, steps, 0);
        let step = if k == 0 {
            0
        } else {
            steps
        };
        law_a_stroke_is_as_wide_all_along(stroke, i, steps, step, column, row);
    }
}

/// A stroke covers no pixel whose centre is further than half its width from
/// every point of its segments: wherever it covers one, some point of a segment
/// is that near, but for the rounding of a step to a 256th of a pixel.
pub proof fn law_a_stroke_is_no_wider(stroke: Stroke, column: int, row: int) -> (at: (
    int,
    int,
    int,
    int,
    int,
))
    requires
        covers(stroke, column, row),
        stroke.points@.len() != 1,
    ensures
        ({
            let (i, steps, step, x, y) = at;
            let a = stroke.points@[i];
            let b = stroke.points@[i + 1];
            let dx = 256 * column + 128 - x;
            let dy = 256 * row + 128 - y;
            let width = if stroke.width < 256 {
                256int
            } else {
                stroke.width as int
            };
            &&& 0 <= i < stroke.points@.len() - 1
            &&& steps >= 1
            &&& 0 <= step <= steps
            &&& -steps < (x - a.x) * steps - (b.x - a.x) * step <= 0
            &&& -steps < (y - a.y) * steps - (b.y - a.y) * step <= 0
            &&& 4 * (dx * dx + dy * dy) <= width * width
        }),
{
    let d = diameter(stroke);
    let n = stroke.points@.len() - 1;
    let i = choose|i: int|
        0 <= i < n && #[trigger] segment_covers(
            stroke.points@[i],
            stroke.points@[i + 1],
            d,
            steps_of(stroke.points@[i], stroke.points@[i + 1], d),
            column,
            row,
        );
    let a = stroke.points@[i];
    let b = stroke.points@[i + 1];
    let steps = steps_of(a, b, d);
    lemma_some_steps(a, b, d);
    let step = choose|step: int|
        0 <= step <= steps && #[trigger] inside(
            along(a.x as int, b.x as int, steps, step),
            along(a.y as int, b.y as int, steps, step),
            d,
            column,
            row,
        );
    let x = along(a.x as int, b.x as int, steps, step);
    let y = along(a.y as int, b.y as int, steps, step);
    lemma_doubled(256 * column + 128 - x, 256 * row + 128 - y);
    let (p, q) = ((b.x - a.x) * step, (b.y - a.y) * step);
    assert(-steps < (p / steps) * steps - p <= 0) by (nonlinear_arith)
        requires
            steps >= 1,
    ;
    assert(-steps < (q / steps) * steps - q <= 0) by (nonlinear_arith)
        requires
            steps >= 1,
    ;
    (i, steps, step, x, y)
}

/// A stroke with no points covers nothing.
pub proof fn law_no_points_cover_nothing(stroke: Stroke, column: int, row: int)
    requires
        stroke.points@.len() == 0,
    ensures
        !covers(stroke, column, row),
{
}

proof fn lemma_doubled(dx: int, dy: int)
    ensures
        (2 * dx) * (2 * dx) + (2 * dy) * (2 * dy) == 4 * (dx * dx + dy * dy),
{
    assert((2 * dx) * (2 * dx) == 4 * (dx * dx)) by (nonlinear_arith);
    assert((2 * dy) * (2 * dy) == 4 * (dy * dy)) by (nonlinear_arith);
}

/// Every segment is taken in some number of steps.
proof fn lemma_some_steps(a: Point, b: Point, diameter: int)
    requires
        diameter >= 256,
    ensures
        is_steps(a, b, diameter, steps_of(a, b, diameter)),
{
    let dx = b.x - a.x;
    let dy = b.y - a.y;
    let m = if dx < 0 {
        -dx
    } else {
        dx
    };
    let n = if dy < 0 {
        -dy
    } else {
        dy
    };
    let many = m + n + 1;
    assert(16 * (dx * dx + dy * dy) <= (many * diameter) * (many * diameter)) by (nonlinear_arith)
        requires
            many == m + n + 1,
            m >= 0,
            n >= 0,
            m == dx || m == -dx,
            n == dy || n == -dy,
            diameter >= 256,
    {
        assert(dx * dx == m * m && dy * dy == n * n);
        assert(m * m + n * n <= many * many);
        assert(16 * (many * many) <= (many * many) * (diameter * diameter));
        assert((many * diameter) * (many * diameter) == (many * many) * (diameter * diameter));
    }
    lemma_fewest_steps(a, b, diameter, many);
}

proof fn lemma_fewest_steps(a: Point, b: Point, diameter: int, steps: int)
    requires
        steps >= 1,
        strides(a, b, diameter, steps),
    ensures
        is_steps(a, b, diameter, steps_of(a, b, diameter)),
    decreases steps,
{
    if steps > 1 && strides(a, b, diameter, steps - 1) {
        lemma_fewest_steps(a, b, diameter, steps - 1);
    } else {
        assert(is_steps(a, b, diameter, steps));
    }
}

} // verus!
