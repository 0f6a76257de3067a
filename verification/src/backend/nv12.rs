//! How a composited frame lies in the memory the preview reads it from.
//!
//! A frame is two planes: a byte of brightness for each pixel, and below it a
//! pair of bytes of colour for every two by two of them.
use vstd::prelude::*;

verus! {

/// `wgpu::COPY_BYTES_PER_ROW_ALIGNMENT`, of the crate `wgpu`: what the length
/// of a row has to be a multiple of, in a copy from a buffer to a texture.
#[verifier::external_body]
fn row_alignment() -> (r: u32)
    ensures
        r == 256,
{
    wgpu::COPY_BYTES_PER_ROW_ALIGNMENT
}

/// The bytes from one row to the next: the row itself, up to a multiple of
/// what a copy asks for.
pub open spec fn pitch_of(width: int) -> int {
    (width + 255) / 256 * 256
}

/// Where each plane sits in the shared memory.
#[derive(Clone, Copy, Debug, PartialEq, Eq, Structural)]
pub struct Nv12Layout {
    pub width: u32,
    pub height: u32,
    pub pitch: u32,
    pub chroma_offset: u64,
    pub size: u64,
}

/// Whether a frame of this size can be laid out: its rows and the whole of it
/// have to be counted.
pub open spec fn can_lie(width: u32, height: u32) -> bool {
    &&& pitch_of(width as int) <= u32::MAX
    &&& pitch_of(width as int) * height + pitch_of(width as int) * (height / 2) <= u64::MAX
}

impl Nv12Layout {
    /// Whether this is how a frame of its size lies.
    pub open spec fn wf(&self) -> bool {
        &&& self.pitch == pitch_of(self.width as int)
        &&& self.chroma_offset == self.pitch * self.height
        &&& self.size == self.pitch * self.height + self.pitch * (self.height / 2)
    }

    /// How a frame of this size lies.
    pub fn new(width: u32, height: u32) -> (r: Self)
        requires
            can_lie(width, height),
        ensures
            r.wf(),
            r.width == width,
            r.height == height,
            r.pitch % 256 == 0,
            width <= r.pitch < width + 256,
            r.chroma_offset == r.pitch * height,
            r.size == r.chroma_offset + r.pitch * (height / 2),
    {
        let unit: u32 = row_alignment();
        let whole: u32 = width / unit;
        let rows: u32 = if width % unit == 0 {
            whole
        } else {
            whole + 1
        };
        proof {
            assert(rows == (width + 255) / 256);
        }
        let pitch: u32 = rows * unit;
        proof {
            assert(0 <= pitch as int * height as int) by (nonlinear_arith);
            assert(0 <= pitch as int * (height / 2) as int) by (nonlinear_arith);
        }
        let chroma_offset: u64 = pitch as u64 * height as u64;
        let size: u64 = chroma_offset + pitch as u64 * (height / 2) as u64;
        Nv12Layout { width, height, pitch, chroma_offset, size }
    }

    /// Whether a picture of this size can be resolved from it: one of another
    /// would be torn.
    pub fn is_for(&self, width: u32, height: u32) -> (r: bool)
        ensures
            r == (self.width == width && self.height == height),
    {
        self.width == width && self.height == height
    }

    /// Where the brightness of one pixel is.
    pub open spec fn luma_at(&self, row: int, column: int) -> int {
        row * self.pitch + column
    }

    /// Where the colour of the two by two pixels at a position is, the first
    /// byte of it.
    pub open spec fn chroma_at(&self, row: int, column: int) -> int {
        self.chroma_offset + row * self.pitch + column * 2
    }
}

/// A row of the shared memory holds a row of the picture, and begins where a
/// copy may begin.
pub proof fn law_rows_fit_and_are_aligned(layout: Nv12Layout, row: int)
    requires
        layout.wf(),
        0 <= row,
    ensures
        layout.width <= layout.pitch < layout.width + 256,
        (row * layout.pitch) % 256 == 0,
        layout.chroma_offset as int % 256 == 0,
{
    let rows = (layout.width + 255) / 256;
    assert(layout.pitch == rows * 256);
    let down = row * rows;
    let all = rows * layout.height;
    assert(row * (rows * 256) == down * 256) by (nonlinear_arith)
        requires
            down == row * rows,
    ;
    assert(rows * 256 * layout.height == all * 256) by (nonlinear_arith)
        requires
            all == rows * layout.height,
    ;
}

/// The two planes share no byte, and neither leaves the memory: each pixel's
/// brightness lies below where the colour begins, and all of the colour after.
pub proof fn law_planes_do_not_overlap(
    layout: Nv12Layout,
    row: int,
    column: int,
    chroma_row: int,
    chroma_column: int,
)
    requires
        layout.wf(),
        0 <= row < layout.height,
        0 <= column < layout.width,
        0 <= chroma_row < layout.height / 2,
        0 <= chroma_column < layout.width / 2,
    ensures
        0 <= layout.luma_at(row, column) < layout.chroma_offset,
        layout.chroma_offset <= layout.chroma_at(chroma_row, chroma_column),
        layout.chroma_at(chroma_row, chroma_column) + 1 < layout.size,
{
    law_rows_fit_and_are_aligned(layout, 0);
    let pitch = layout.pitch as int;
    let height = layout.height as int;
    let half = (layout.height / 2) as int;
    assert(row * pitch + pitch <= height * pitch) by (nonlinear_arith)
        requires
            0 <= row < height,
            0 <= pitch,
    ;
    assert(0 <= row * pitch) by (nonlinear_arith)
        requires
            0 <= row,
            0 <= pitch,
    ;
    assert(chroma_row * pitch + pitch <= half * pitch) by (nonlinear_arith)
        requires
            0 <= chroma_row < half,
            0 <= pitch,
    ;
    assert(0 <= chroma_row * pitch) by (nonlinear_arith)
        requires
            0 <= chroma_row,
            0 <= pitch,
    ;
    assert(height * pitch == pitch * height) by (nonlinear_arith);
    assert(half * pitch == pitch * half) by (nonlinear_arith);
}

/// A copy of one plane out of the shared memory and into its texture.
#[derive(Clone, Copy, Debug, PartialEq, Eq, Structural)]
pub struct PlaneCopy {
    pub offset: u64,
    pub bytes_per_row: u32,
    pub width: u32,
    pub height: u32,
}

/// The copies a picture of this size is resolved from, brightness first: the
/// colour is half as wide and half as high. `None` where the memory is laid
/// out for another size.
pub fn draw(layout: &Nv12Layout, width: u32, height: u32) -> (r: Option<(PlaneCopy, PlaneCopy)>)
    ensures
        r == (if layout.width == width && layout.height == height {
            Some(
                (
                    PlaneCopy { offset: 0, bytes_per_row: layout.pitch, width, height },
                    PlaneCopy {
                        offset: layout.chroma_offset,
                        bytes_per_row: layout.pitch,
                        width: width / 2,
                        height: height / 2,
                    },
                ),
            )
        } else {
            None
        }),
{
    if !layout.is_for(width, height) {
        return None;
    }
    let luma = PlaneCopy { offset: 0, bytes_per_row: layout.pitch, width, height };
    let chroma = PlaneCopy {
        offset: layout.chroma_offset,
        bytes_per_row: layout.pitch,
        width: width / 2,
        height: height / 2,
    };
    Some((luma, chroma))
}

/// Where a copy writes to.
#[derive(Clone, Copy, Debug, PartialEq, Eq, Structural)]
pub enum Place {
    /// An address on the device.
    Device(u64),
    /// A place in the bytes that come back to this side.
    Host(usize),
}

/// A copy of rows.
#[derive(Clone, Copy, Debug, PartialEq, Eq, Structural)]
pub struct RowsCopy {
    pub source: u64,
    pub source_pitch: usize,
    pub to: Place,
    pub to_pitch: usize,
    pub width_in_bytes: usize,
    pub height: usize,
}

/// A frame on the device: where each of its planes begins, and how far apart
/// their rows are.
#[derive(Clone, Copy, Debug, PartialEq, Eq, Structural)]
pub struct FramePlanes {
    pub y: u64,
    pub y_pitch: usize,
    pub uv: u64,
    pub uv_pitch: usize,
    pub width: u32,
    pub height: u32,
}

impl FramePlanes {
    /// Whether the frame has a row of colour, and every byte of it has an
    /// address.
    pub open spec fn addressed(&self) -> bool {
        &&& self.height >= 2
        &&& self.height * self.y_pitch <= usize::MAX
        &&& self.height * self.uv_pitch <= usize::MAX
        &&& self.y + self.height * self.y_pitch <= u64::MAX
        &&& self.uv + self.height * self.uv_pitch <= u64::MAX
    }
}

/// The four copies that take a frame into the shared memory at `pointer`: both
/// planes, and the last two rows of brightness and the last of colour, which
/// come back to this side.
pub open spec fn copies(layout: Nv12Layout, pointer: u64, frame: FramePlanes) -> Seq<RowsCopy> {
    let width = frame.width as usize;
    seq![
        RowsCopy {
            source: frame.y,
            source_pitch: frame.y_pitch,
            to: Place::Device(pointer),
            to_pitch: layout.pitch as usize,
            width_in_bytes: width,
            height: frame.height as usize,
        },
        RowsCopy {
            source: frame.uv,
            source_pitch: frame.uv_pitch,
            to: Place::Device((pointer + layout.chroma_offset) as u64),
            to_pitch: layout.pitch as usize,
            width_in_bytes: width,
            height: (frame.height / 2) as usize,
        },
        RowsCopy {
            source: (frame.y + (frame.height - 2) * frame.y_pitch) as u64,
            source_pitch: frame.y_pitch,
            to: Place::Host(0),
            to_pitch: width,
            width_in_bytes: width,
            height: 2,
        },
        RowsCopy {
            source: (frame.uv + (frame.height / 2 - 1) * frame.uv_pitch) as u64,
            source_pitch: frame.uv_pitch,
            to: Place::Host((2 * frame.width) as usize),
            to_pitch: width,
            width_in_bytes: width,
            height: 1,
        },
    ]
}

/// The copies that take a frame into the shared memory, or `None` for a frame
/// of another size.
pub fn write_frame(layout: &Nv12Layout, pointer: u64, frame: &FramePlanes) -> (r: Option<
    Vec<RowsCopy>,
>)
    requires
        frame.addressed(),
        pointer + layout.chroma_offset <= u64::MAX,
        frame.width * 3 <= usize::MAX,
    ensures
        match r {
            Some(made) => {
                &&& layout.width == frame.width && layout.height == frame.height
                &&& made@ == copies(*layout, pointer, *frame)
            },
            None => layout.width != frame.width || layout.height != frame.height,
        },
{
    if !layout.is_for(frame.width, frame.height) {
        return None;
    }
    let width: usize = frame.width as usize;
    let height: usize = frame.height as usize;
    proof {
        assert(0 <= (height - 2) * frame.y_pitch <= height * frame.y_pitch) by (nonlinear_arith)
            requires
                height >= 2,
                frame.y_pitch >= 0,
        ;
        assert(0 <= (height / 2 - 1) * frame.uv_pitch <= height * frame.uv_pitch)
            by (nonlinear_arith)
            requires
                height >= 2,
                frame.uv_pitch >= 0,
        ;
    }
    let luma_skip: usize = (height - 2) * frame.y_pitch;
    let chroma_skip: usize = (height / 2 - 1) * frame.uv_pitch;
    let mut made: Vec<RowsCopy> = Vec::new();
    made.push(
        RowsCopy {
            source: frame.y,
            source_pitch: frame.y_pitch,
            to: Place::Device(pointer),
            to_pitch: layout.pitch as usize,
            width_in_bytes: width,
            height,
        },
    );
    made.push(
        RowsCopy {
            source: frame.uv,
            source_pitch: frame.uv_pitch,
            to: Place::Device(pointer + layout.chroma_offset),
            to_pitch: layout.pitch as usize,
            width_in_bytes: width,
            height: height / 2,
        },
    );
    made.push(
        RowsCopy {
            source: frame.y + luma_skip as u64,
            source_pitch: frame.y_pitch,
            to: Place::Host(0),
            to_pitch: width,
            width_in_bytes: width,
            height: 2,
        },
    );
    made.push(
        RowsCopy {
            source: frame.uv + chroma_skip as u64,
            source_pitch: frame.uv_pitch,
            to: Place::Host(2 * width),
            to_pitch: width,
            width_in_bytes: width,
            height: 1,
        },
    );
    proof {
        assert(made@ =~= copies(*layout, pointer, *frame));
    }
    Some(made)
}

/// The end of what a copy writes, counted from where its rows begin.
pub open spec fn reach(copy: RowsCopy) -> int {
    if copy.height == 0 {
        0
    } else {
        (copy.height - 1) * copy.to_pitch + copy.width_in_bytes
    }
}

/// No copy writes past its plane, and none past the memory or the bytes that
/// come back, which are three rows.
pub proof fn law_copies_stay_inside(layout: Nv12Layout, pointer: u64, frame: FramePlanes)
    requires
        layout.wf(),
        layout.width == frame.width,
        layout.height == frame.height,
        frame.height >= 2,
        frame.width * 3 <= usize::MAX,
    ensures
        ({
            let made = copies(layout, pointer, frame);
            &&& reach(made[0]) <= layout.chroma_offset
            &&& layout.chroma_offset + reach(made[1]) <= layout.size
            &&& reach(made[2]) <= 2 * frame.width
            &&& 2 * frame.width + reach(made[3]) <= 3 * frame.width
        }),
{
    law_rows_fit_and_are_aligned(layout, 0);
    let pitch = layout.pitch as int;
    let height = layout.height as int;
    let half = (layout.height / 2) as int;
    assert((height - 1) * pitch + pitch == pitch * height) by (nonlinear_arith);
    assert((half - 1) * pitch + pitch == pitch * half) by (nonlinear_arith);
}

/// Whether nothing wrote one pixel of the last rows: its brightness and both
/// bytes of its colour are zero, which is no colour a frame has.
pub open spec fn zero_at(tail: Seq<u8>, width: int, row: int, column: int) -> bool {
    let chroma = 2 * width + column / 2 * 2;
    tail[row * width + column] == 0 && tail[chroma] == 0 && tail[chroma + 1] == 0
}

/// The columns that are looked at: eight, spread over the width.
pub open spec fn looked_at(width: int, step: int) -> int {
    (width - 2) * step / 8
}

/// Whether a frame's last rows were never written, as far as they are looked
/// at.
pub open spec fn unwritten(tail: Seq<u8>, width: int) -> bool {
    exists|step: int, row: int|
        #![trigger zero_at(tail, width, row, looked_at(width, step))]
        0 <= step < 8 && 0 <= row < 2 && zero_at(tail, width, row, looked_at(width, step))
}

/// Whether the frame just copied has a tail that was never written, given the
/// bytes that came back: two rows of brightness and one of colour.
pub fn tail_is_unwritten(width: u32, height: u32, tail: &Vec<u8>) -> (r: bool)
    requires
        tail@.len() == 3 * width,
    ensures
        r == (width >= 2 && height >= 2 && unwritten(tail@, width as int)),
{
    if height < 2 || width < 2 {
        return false;
    }
    let total: usize = tail.len();
    let across: usize = width as usize;
    let mut step: u64 = 0;
    while step < 8
        invariant
            step <= 8,
            width >= 2,
            height >= 2,
            across == width,
            tail@.len() == 3 * width,
            total == tail@.len(),
            forall|earlier: int, row: int|
                #![trigger zero_at(tail@, width as int, row, looked_at(width as int, earlier))]
                0 <= earlier < step && 0 <= row < 2 ==> !zero_at(
                    tail@,
                    width as int,
                    row,
                    looked_at(width as int, earlier),
                ),
        decreases 8 - step,
    {
        proof {
            assert(0 <= (width - 2) * step / 8 <= width - 2) by (nonlinear_arith)
                requires
                    width >= 2,
                    0 <= step < 8,
            ;
            assert(0 <= (width - 2) * step < 0x8_0000_0000) by (nonlinear_arith)
                requires
                    2 <= width <= 0xffff_ffff,
                    0 <= step < 8,
            ;
        }
        let column: usize = ((width as u64 - 2) * step / 8) as usize;
        let chroma: usize = 2 * across + column / 2 * 2;
        let colourless: bool = tail[chroma] == 0 && tail[chroma + 1] == 0;
        if tail[column] == 0 && colourless {
            proof {
                assert(zero_at(tail@, width as int, 0, looked_at(width as int, step as int)));
            }
            return true;
        }
        if tail[across + column] == 0 && colourless {
            proof {
                assert(zero_at(tail@, width as int, 1, looked_at(width as int, step as int)));
            }
            return true;
        }
        proof {
            assert(!zero_at(tail@, width as int, 0, looked_at(width as int, step as int)));
            assert(!zero_at(tail@, width as int, 1, looked_at(width as int, step as int)));
        }
        step = step + 1;
    }
    false
}

/// A frame with any brightness or colour wherever it is looked at is shown:
/// only zeros are taken for unwritten.
pub proof fn law_a_written_frame_is_shown(tail: Seq<u8>, width: int)
    requires
        width >= 2,
        tail.len() == 3 * width,
        forall|i: int| 0 <= i < 2 * width ==> tail[i] != 0,
    ensures
        !unwritten(tail, width),
{
    assert forall|step: int, row: int|
        #![trigger zero_at(tail, width, row, looked_at(width, step))]
        0 <= step < 8 && 0 <= row < 2 implies !zero_at(
        tail,
        width,
        row,
        looked_at(width, step),
    ) by {
        assert(0 <= (width - 2) * step / 8 <= width - 2) by (nonlinear_arith)
            requires
                width >= 2,
                0 <= step < 8,
        ;
        assert(0 <= row * width <= width) by (nonlinear_arith)
            requires
                width >= 2,
                0 <= row < 2,
        ;
        assert(tail[row * width + looked_at(width, step)] != 0);
    }
}

/// The whole of both planes goes to the device, row by row, brightness first
/// and colour behind it; and the last two rows of brightness and the last of
/// colour come back to this side, one after another.
pub proof fn law_both_planes_are_copied_whole(
    layout: Nv12Layout,
    pointer: u64,
    frame: FramePlanes,
)
    requires
        frame.addressed(),
        pointer + layout.chroma_offset <= u64::MAX,
        frame.width * 3 <= usize::MAX,
    ensures
        ({
            let made = copies(layout, pointer, frame);
            &&& made.len() == 4
            &&& made[0].source == frame.y && made[0].source_pitch == frame.y_pitch
            &&& made[0].to == Place::Device(pointer) && made[0].to_pitch == layout.pitch
            &&& made[0].width_in_bytes == frame.width && made[0].height == frame.height
            &&& made[1].source == frame.uv && made[1].source_pitch == frame.uv_pitch
            &&& made[1].to matches Place::Device(at) && at == pointer + layout.chroma_offset
            &&& made[1].to_pitch == layout.pitch
            &&& made[1].width_in_bytes == frame.width && made[1].height == frame.height / 2
            &&& made[2].source == frame.y + (frame.height - 2) * frame.y_pitch
            &&& made[2].source_pitch == frame.y_pitch && made[2].to == Place::Host(0)
            &&& made[2].to_pitch == frame.width && made[2].width_in_bytes == frame.width
            &&& made[2].height == 2
            &&& made[3].source == frame.uv + (frame.height / 2 - 1) * frame.uv_pitch
            &&& made[3].source_pitch == frame.uv_pitch
            &&& made[3].to matches Place::Host(at) && at == 2 * frame.width
            &&& made[3].to_pitch == frame.width && made[3].width_in_bytes == frame.width
            &&& made[3].height == 1
        }),
{
    let rows = frame.height as int;
    let y = frame.y_pitch as int;
    let uv = frame.uv_pitch as int;
    assert(0 <= (rows - 2) * y <= rows * y) by (nonlinear_arith)
        requires
            rows >= 2,
            y >= 0,
    ;
    assert(0 <= (rows / 2 - 1) * uv <= rows * uv) by (nonlinear_arith)
        requires
            rows >= 2,
            uv >= 0,
    ;
}

/// A frame counts as unwritten exactly where one of the eight places looked at
/// across its last two rows is black in brightness and colour alike.
pub proof fn law_an_unwritten_frame_is_black_somewhere(
    tail: Seq<u8>,
    width: int,
    step: int,
    row: int,
)
    requires
        width >= 2,
        tail.len() == 3 * width,
        0 <= step < 8,
        0 <= row < 2,
    ensures
        ({
            let column = (width - 2) * step / 8;
            let chroma = 2 * width + column / 2 * 2;
            tail[row * width + column] == 0 && tail[chroma] == 0 && tail[chroma + 1] == 0
                ==> unwritten(tail, width)
        }),
        (forall|i: int| 0 <= i < tail.len() ==> tail[i] == 0) ==> unwritten(tail, width),
        (forall|i: int| 2 * width <= i < tail.len() ==> tail[i] != 0) ==> !unwritten(tail, width),
{
    let column = looked_at(width, step);
    let chroma = 2 * width + column / 2 * 2;
    if tail[row * width + column] == 0 && tail[chroma] == 0 && tail[chroma + 1] == 0 {
        assert(zero_at(tail, width, row, looked_at(width, step)));
    }
    assert(0 <= looked_at(width, 0) <= width - 2);
    if forall|i: int| 0 <= i < tail.len() ==> tail[i] == 0 {
        assert(zero_at(tail, width, 0, looked_at(width, 0)));
    }
    if forall|i: int| 2 * width <= i < tail.len() ==> tail[i] != 0 {
        assert forall|s: int, r: int|
            #![trigger zero_at(tail, width, r, looked_at(width, s))]
            0 <= s < 8 && 0 <= r < 2 implies !zero_at(tail, width, r, looked_at(width, s)) by {
            let at = looked_at(width, s);
            assert(0 <= at <= width - 2) by (nonlinear_arith)
                requires
                    at == (width - 2) * s / 8,
                    0 <= s < 8,
                    width >= 2,
            ;
            assert(tail[2 * width + at / 2 * 2] != 0);
        }
    }
}

/// A copy reaches as far as the end of its last row, and nowhere where it has
/// none.
pub proof fn law_a_copy_reaches_its_last_row(copy: RowsCopy)
    ensures
        copy.height == 0 ==> reach(copy) == 0,
        copy.height == 1 ==> reach(copy) == copy.width_in_bytes,
        copy.height > 0 ==> reach(copy) == (copy.height - 1) * copy.to_pitch
            + copy.width_in_bytes,
{
    if copy.height == 1 {
        assert(0 * copy.to_pitch == 0);
    }
}

} // verus!
