//! What a scene is made of, and where each of its items is drawn.
use vstd::prelude::*;

use crate::fixed::{self, ceil, floor, round, saturate_i32, saturate_u32};

verus! {

/// Names one item of a scene.
#[derive(Clone, Copy, Debug, PartialEq, Eq, Hash, Structural)]
pub struct SceneItemId(pub i64);

/// The kinds of source an item can show.
#[derive(Clone, Copy, Debug, PartialEq, Eq, Structural)]
pub enum SourceKind {
    DisplayCapture,
    WindowCapture,
    Color,
    Image,
    Text,
    Drawing,
    MediaFile,
    Rtsp,
}

/// A picture size in whole pixels.
#[derive(Clone, Copy, Debug, PartialEq, Eq, Structural)]
pub struct Size {
    pub width: u32,
    pub height: u32,
}

/// How a window that is captured is found again.
#[derive(Clone, Debug)]
pub enum WindowCaptureTarget {
    /// Picked through the desktop portal, which alone can find it again.
    Portal { restore_token: Option<String> },
    /// Known by what it is, so it can be looked for.
    Window { process: String, title: String },
}

impl WindowCaptureTarget {
    /// Whether the window can be found without a picker on the screen.
    pub open spec fn silent(&self) -> bool {
        self is Window
    }

    /// Whether the window can be found without a picker on the screen.
    pub fn can_be_reopened_silently(&self) -> (r: bool)
        ensures
            r == self.silent(),
            r == (self is Window),
    {
        match self {
            WindowCaptureTarget::Portal { .. } => false,
            WindowCaptureTarget::Window { .. } => true,
        }
    }
}

/// A window capture, as it is stored.
#[derive(Clone, Debug)]
pub struct WindowCaptureSettings {
    pub target: WindowCaptureTarget,
    pub size_hint: Option<Size>,
}

/// A network stream, as it is stored.
#[derive(Clone, Debug)]
pub struct RtspSourceSettings {
    pub url: String,
    /// How long to leave the stream alone before it is tried again, in
    /// nanoseconds; `None` where it may not be tried again unasked.
    pub reconnect: Option<u64>,
    pub size_hint: Option<Size>,
    pub has_audio: bool,
    pub muted: bool,
}

/// A flat colour, as it is stored.
#[derive(Clone, Debug)]
pub struct ColorSourceSettings {
    pub size: Size,
    pub rgba: [u8; 4],
}

/// What an item shows.
#[derive(Clone, Debug)]
pub enum SourceSettings {
    WindowCapture(WindowCaptureSettings),
    Rtsp(RtspSourceSettings),
    Color(ColorSourceSettings),
    /// Everything of which only the size it was last known to have matters
    /// here.
    Plain { size_hint: Option<Size> },
}

impl SourceSettings {
    /// The size the source was last known to have.
    pub open spec fn hint(&self) -> Option<Size> {
        match self {
            SourceSettings::WindowCapture(settings) => settings.size_hint,
            SourceSettings::Rtsp(settings) => settings.size_hint,
            SourceSettings::Color(settings) => Some(settings.size),
            SourceSettings::Plain { size_hint } => *size_hint,
        }
    }

    /// The size the source was last known to have.
    pub fn size_hint(&self) -> (r: Option<Size>)
        ensures
            r == self.hint(),
            *self matches SourceSettings::WindowCapture(settings) ==> r == settings.size_hint,
            *self matches SourceSettings::Rtsp(settings) ==> r == settings.size_hint,
            *self matches SourceSettings::Color(settings) ==> r == Some(settings.size),
            *self matches SourceSettings::Plain { size_hint } ==> r == size_hint,
    {
        match self {
            SourceSettings::WindowCapture(settings) => settings.size_hint,
            SourceSettings::Rtsp(settings) => settings.size_hint,
            SourceSettings::Color(settings) => Some(settings.size),
            SourceSettings::Plain { size_hint } => *size_hint,
        }
    }
}

/// How much of a source is cut off at each edge, in 256ths of its own pixels.
#[derive(Clone, Copy, Debug, PartialEq, Eq, Structural)]
pub struct Crop {
    pub left: i64,
    pub top: i64,
    pub right: i64,
    pub bottom: i64,
}

impl Crop {
    /// Nothing cut off.
    pub open spec fn whole(&self) -> bool {
        self.left == 0 && self.top == 0 && self.right == 0 && self.bottom == 0
    }
}

impl Default for Crop {
    fn default() -> (r: Self)
        ensures
            r.whole(),
    {
        Crop { left: 0, top: 0, right: 0, bottom: 0 }
    }
}

/// Where an item stands on the canvas, in 256ths of a pixel, and what part of
/// its source it shows there.
#[derive(Clone, Copy, Debug, PartialEq, Eq, Structural)]
pub struct Placement {
    pub x: i64,
    pub y: i64,
    pub width: i64,
    pub height: i64,
    pub crop: Crop,
}

/// A point of a drawing, in 256ths of a pixel.
#[derive(Clone, Copy, Debug, PartialEq, Eq, Structural)]
pub struct Point {
    pub x: i32,
    pub y: i32,
}

/// One stroke of a drawing: where it goes, how wide it is in 256ths of a
/// pixel, and its colour as red, green, blue and alpha.
#[derive(Clone, Debug)]
pub struct Stroke {
    pub points: Vec<Point>,
    pub width: u32,
    pub rgba: [u8; 4],
}

/// One filter of an item: which it is, and of what kind.
#[derive(Clone, Copy, Debug, PartialEq, Eq, Structural)]
pub struct FilterSlot {
    pub id: i64,
    pub kind: u32,
}

/// How long an item takes to come up and to go, in milliseconds.
#[derive(Clone, Copy, Debug, PartialEq, Eq, Structural)]
pub struct VisibilityFades {
    pub show_ms: u32,
    pub hide_ms: u32,
}

/// One item of a scene, as the project holds it.
#[derive(Clone, Debug)]
pub struct SceneItem {
    pub id: SceneItemId,
    pub name: String,
    pub kind: SourceKind,
    pub settings: SourceSettings,
    /// The source's own size, in 256ths of a pixel.
    pub source_width: i64,
    pub source_height: i64,
    pub placement: Placement,
    pub visible: bool,
    pub fades: VisibilityFades,
    /// Whether a media file is held where it is.
    pub paused: bool,
    /// Whether the picture follows the clock rather than an edit.
    pub follows_clock: bool,
    /// The item's filters, in the order they are applied.
    pub filters: Vec<FilterSlot>,
}

/// The scene that is selected, front-most item first, and every item the
/// project holds anywhere.
pub struct Scene {
    pub items: Vec<SceneItem>,
    pub live_items: Vec<i64>,
}

/// A rectangle of the canvas, in whole pixels.
#[derive(Clone, Copy, Debug, PartialEq, Eq, Structural)]
pub struct VideoRect {
    pub x: i32,
    pub y: i32,
    pub width: u32,
    pub height: u32,
}

/// A part of a source, in its own whole pixels.
#[derive(Clone, Copy, Debug, PartialEq, Eq, Structural)]
pub struct VideoSourceRect {
    pub x: u32,
    pub y: u32,
    pub width: u32,
    pub height: u32,
}

/// One layer the compositor draws. It is stretched over its rectangle.
#[derive(Clone, Copy, Debug, PartialEq, Eq, Structural)]
pub struct VideoLayer {
    pub rect: VideoRect,
    /// Layers with a larger one are drawn later, and so in front.
    pub z_index: i32,
    pub visible: bool,
    /// The part of the source that is drawn; all of it where there is none.
    pub source: Option<VideoSourceRect>,
    /// How solid the layer is, of 255.
    pub opacity: u8,
}

/// What is left of one side of a source between two cuts: the whole pixels
/// from where the near cut leaves it beginning to where the far cut leaves it
/// ending, each of the two rounded inwards.
pub open spec fn side_left(size: int, near: int, far: int) -> u32 {
    let left = fixed::pixels_down(size - far) - fixed::pixels_up(near);
    fixed::to_u32(if left < 0 {
        0
    } else {
        left
    })
}

/// Where a cut leaves a side beginning, rounded inwards.
pub open spec fn side_start(near: int) -> u32 {
    fixed::to_u32(fixed::pixels_up(if near < 0 {
        0
    } else {
        near
    }))
}

/// The part of a source of this size that a crop leaves: nothing to name
/// where nothing is cut off, and nothing where nothing is left.
pub open spec fn cropped(width: int, height: int, crop: Crop) -> Option<VideoSourceRect> {
    let across = side_left(width, crop.left as int, crop.right as int);
    let down = side_left(height, crop.top as int, crop.bottom as int);
    if crop.whole() || across == 0 || down == 0 {
        None
    } else {
        Some(
            VideoSourceRect {
                x: side_start(crop.left as int),
                y: side_start(crop.top as int),
                width: across,
                height: down,
            },
        )
    }
}

fn keep_side(size: i64, near: i64, far: i64) -> (r: u32)
    ensures
        r == side_left(size as int, near as int, far as int),
{
    let left: i128 = floor(size as i128 - far as i128) - ceil(near as i128);
    saturate_u32(if left < 0 { 0 } else { left })
}

fn start_side(near: i64) -> (r: u32)
    ensures
        r == side_start(near as int),
{
    let cut: i128 = if near < 0 { 0 } else { near as i128 };
    saturate_u32(ceil(cut))
}

/// The part of the source this item shows, or `None` for all of it.
pub fn source_rect(item: &SceneItem, crop: Crop) -> (r: Option<VideoSourceRect>)
    ensures
        r == cropped(item.source_width as int, item.source_height as int, crop),
{
    if crop.left == 0 && crop.top == 0 && crop.right == 0 && crop.bottom == 0 {
        return None;
    }
    let width: u32 = keep_side(item.source_width, crop.left, crop.right);
    let height: u32 = keep_side(item.source_height, crop.top, crop.bottom);
    if width > 0 && height > 0 {
        Some(VideoSourceRect { x: start_side(crop.left), y: start_side(crop.top), width, height })
    } else {
        None
    }
}

/// A length rounded to whole pixels, and never none at all.
pub open spec fn at_least_one(units: int) -> u32 {
    let near = fixed::to_u32(fixed::pixels_near(units));
    if near == 0 {
        1
    } else {
        near
    }
}

/// Where an item's layer sits on the canvas, and in what order.
pub open spec fn placed(item: SceneItem, at: Placement, z_index: i32) -> VideoLayer {
    VideoLayer {
        rect: VideoRect {
            x: fixed::to_i32(fixed::pixels_near(at.x as int)),
            y: fixed::to_i32(fixed::pixels_near(at.y as int)),
            width: at_least_one(at.width as int),
            height: at_least_one(at.height as int),
        },
        z_index,
        visible: item.visible,
        source: cropped(item.source_width as int, item.source_height as int, at.crop),
        opacity: match item.settings {
            SourceSettings::Color(settings) => settings.rgba[3],
            _ => 255,
        },
    }
}

/// Where an item's layer sits on the canvas, and in what order.
pub fn layer_for(item: &SceneItem, at: Placement, z_index: i32) -> (r: VideoLayer)
    ensures
        r == placed(*item, at, z_index),
        r.z_index == z_index,
        r.visible == item.visible,
        r.source == cropped(item.source_width as int, item.source_height as int, at.crop),
        item.settings matches SourceSettings::Color(settings) ==> r.opacity == settings.rgba[3],
        !(item.settings is Color) ==> r.opacity == 255,
{
    let width: u32 = saturate_u32(round(at.width as i128));
    let height: u32 = saturate_u32(round(at.height as i128));
    let opacity: u8 = match &item.settings {
        SourceSettings::Color(settings) => settings.rgba[3],
        _ => 255,
    };
    VideoLayer {
        rect: VideoRect {
            x: saturate_i32(round(at.x as i128)),
            y: saturate_i32(round(at.y as i128)),
            width: if width == 0 { 1 } else { width },
            height: if height == 0 { 1 } else { height },
        },
        z_index,
        visible: item.visible,
        source: source_rect(item, at.crop),
        opacity,
    }
}

/// A crop is rounded inwards at every edge: nothing that was cut off is put
/// back, and what is drawn is something.
pub proof fn law_a_crop_is_rounded_inwards(width: int, height: int, crop: Crop)
    requires
        0 <= width <= u32::MAX * 256,
        0 <= height <= u32::MAX * 256,
        crop.left >= 0,
        crop.top >= 0,
        crop.right >= 0,
        crop.bottom >= 0,
    ensures
        cropped(width, height, crop) matches Some(rect) ==> {
            &&& rect.width > 0
            &&& rect.height > 0
            &&& rect.x * 256 >= crop.left
            &&& rect.y * 256 >= crop.top
            &&& (rect.x + rect.width) * 256 <= width - crop.right
            &&& (rect.y + rect.height) * 256 <= height - crop.bottom
        },
{
}

/// No whole pixel that the cuts leave is lost: one more at any edge would put
/// back some of what was cut off there.
pub proof fn law_a_crop_loses_no_whole_pixel(width: int, height: int, crop: Crop)
    requires
        0 <= width <= u32::MAX * 256,
        0 <= height <= u32::MAX * 256,
        crop.left >= 0,
        crop.top >= 0,
        crop.right >= 0,
        crop.bottom >= 0,
    ensures
        cropped(width, height, crop) matches Some(rect) ==> {
            &&& (rect.x - 1) * 256 < crop.left
            &&& (rect.y - 1) * 256 < crop.top
            &&& (rect.x + rect.width + 1) * 256 > width - crop.right
            &&& (rect.y + rect.height + 1) * 256 > height - crop.bottom
        },
{
}

/// A region is named wherever anything is cut off and a whole pixel is left on
/// each axis: here the one whose near corner is `column` and `row`.
pub proof fn law_a_crop_that_leaves_a_pixel_names_it(
    width: int,
    height: int,
    crop: Crop,
    column: int,
    row: int,
)
    requires
        0 <= width <= 0xffff_ffff * 256,
        0 <= height <= 0xffff_ffff * 256,
        crop.left >= 0,
        crop.top >= 0,
        crop.right >= 0,
        crop.bottom >= 0,
        crop.left > 0 || crop.top > 0 || crop.right > 0 || crop.bottom > 0,
        crop.left <= 256 * column,
        256 * column + 256 <= width - crop.right,
        crop.top <= 256 * row,
        256 * row + 256 <= height - crop.bottom,
    ensures
        cropped(width, height, crop) matches Some(rect) && rect.x <= column < rect.x + rect.width
            && rect.y <= row < rect.y + rect.height,
{
}

/// Nothing is named where nothing is cut off, whatever the size.
pub proof fn law_nothing_cut_off_names_nothing(width: int, height: int, crop: Crop)
    requires
        crop.left == 0,
        crop.top == 0,
        crop.right == 0,
        crop.bottom == 0,
    ensures
        cropped(width, height, crop) is None,
{
}

/// What is left of a side, whatever the cuts: from the first whole pixel at or
/// past the near cut to the last that ends at or before the far one; and a
/// source's own beginning is where a negative cut leaves it.
pub proof fn law_a_side_is_what_lies_between_its_cuts(
    width: int,
    height: int,
    crop: Crop,
    left: int,
    right: int,
    top: int,
    bottom: int,
)
    requires
        crop.left <= 256 * left < crop.left + 256,
        crop.top <= 256 * top < crop.top + 256,
        width - crop.right - 256 < 256 * right <= width - crop.right,
        height - crop.bottom - 256 < 256 * bottom <= height - crop.bottom,
        left < right <= left + 0xffff_ffff,
        top < bottom <= top + 0xffff_ffff,
        left <= 0xffff_ffff,
        top <= 0xffff_ffff,
        crop.left != 0 || crop.top != 0 || crop.right != 0 || crop.bottom != 0,
    ensures
        cropped(width, height, crop) matches Some(rect) && {
            &&& rect.width == right - left
            &&& rect.height == bottom - top
            &&& rect.x == (if left > 0 {
                left
            } else {
                0
            })
            &&& rect.y == (if top > 0 {
                top
            } else {
                0
            })
        },
{
}

/// A layer stands where its item was put, to within half a pixel, and is as
/// large, but never less than a pixel; it keeps its place in the order, and a
/// flat colour's own alpha is how solid it is.
pub proof fn law_a_layer_stands_where_its_item_does(item: SceneItem, at: Placement, z_index: i32)
    requires
        -0x7fff_ffff * 256 <= at.x <= 0x7fff_ffff * 256,
        -0x7fff_ffff * 256 <= at.y <= 0x7fff_ffff * 256,
        at.width <= 0xffff_ffff * 256,
        at.height <= 0xffff_ffff * 256,
    ensures
        ({
            let layer = placed(item, at, z_index);
            &&& -128 <= layer.rect.x * 256 - at.x <= 128
            &&& -128 <= layer.rect.y * 256 - at.y <= 128
            &&& at.width >= 256 ==> -128 <= layer.rect.width * 256 - at.width <= 128
            &&& at.height >= 256 ==> -128 <= layer.rect.height * 256 - at.height <= 128
            &&& at.width < 256 ==> layer.rect.width == 1
            &&& at.height < 256 ==> layer.rect.height == 1
            &&& layer.z_index == z_index
            &&& layer.visible == item.visible
            &&& item.settings matches SourceSettings::Color(settings) ==> layer.opacity
                == settings.rgba[3]
            &&& !(item.settings is Color) ==> layer.opacity == 255
        }),
{
}

/// Moving an item by whole pixels moves its layer by as many, and changes
/// nothing else of it.
pub proof fn law_moving_an_item_moves_its_layer(
    item: SceneItem,
    at: Placement,
    to: Placement,
    z_index: i32,
    across: int,
    down: int,
)
    requires
        0 <= at.x <= 0x3fff_ffff * 256,
        0 <= at.y <= 0x3fff_ffff * 256,
        0 <= across <= 0x3fff_ffff,
        0 <= down <= 0x3fff_ffff,
        to.x == at.x + 256 * across,
        to.y == at.y + 256 * down,
        to.width == at.width,
        to.height == at.height,
        to.crop == at.crop,
    ensures
        ({
            let (before, after) = (placed(item, at, z_index), placed(item, to, z_index));
            &&& after.rect.x == before.rect.x + across
            &&& after.rect.y == before.rect.y + down
            &&& after.rect.width == before.rect.width
            &&& after.rect.height == before.rect.height
            &&& after.source == before.source
            &&& after.opacity == before.opacity
            &&& after.z_index == before.z_index
            &&& after.visible == before.visible
        }),
{
}

/// A source's size is known from its own settings, and a colour's always is.
pub proof fn law_a_size_is_known_from_the_settings(settings: SourceSettings)
    ensures
        settings matches SourceSettings::WindowCapture(window) ==> settings.hint()
            == window.size_hint,
        settings matches SourceSettings::Rtsp(stream) ==> settings.hint() == stream.size_hint,
        settings matches SourceSettings::Color(colour) ==> settings.hint() == Some(colour.size),
        settings matches SourceSettings::Plain { size_hint } ==> settings.hint() == size_hint,
{
}

} // verus!
