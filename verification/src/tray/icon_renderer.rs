//! The tray icon's pixels: two battery bars, left and right, on a dark square.
use vstd::prelude::*;

use crate::models::battery_status::BatteryStatus;

verus! {

/// Width and height of the icon in pixels.
pub const ICON_SIZE: u32 = 64;

/// Bytes in the RGBA buffer of the icon.
pub const ICON_BYTES: usize = 16384;

/// Column at which the left bar's frame starts.
pub const LEFT_BAR_X: u32 = 10;

/// Column at which the right bar's frame starts.
pub const RIGHT_BAR_X: u32 = 38;

pub open spec fn bg() -> Seq<u8> {
    seq![24u8, 28, 33, 230]
}

pub open spec fn track() -> Seq<u8> {
    seq![52u8, 58, 66, 255]
}

pub open spec fn border() -> Seq<u8> {
    seq![132u8, 142, 156, 255]
}

pub open spec fn green() -> Seq<u8> {
    seq![70u8, 190, 80, 255]
}

pub open spec fn red() -> Seq<u8> {
    seq![255u8, 68, 68, 255]
}

pub open spec fn unknown_marker() -> Seq<u8> {
    seq![150u8, 150, 150, 255]
}

/// Column of the pixel that byte `i` of the buffer belongs to.
pub open spec fn pixel_x(i: int) -> int {
    (i / 4) % 64
}

/// Row of the pixel that byte `i` of the buffer belongs to.
pub open spec fn pixel_y(i: int) -> int {
    (i / 4) / 64
}

pub open spec fn in_rect(px: int, py: int, x: int, y: int, w: int, h: int) -> bool {
    x <= px < x + w && y <= py < y + h
}

/// Red at 20% or below, green above.
pub open spec fn level_color_spec(value: u8) -> Seq<u8> {
    if value <= 20 {
        red()
    } else {
        green()
    }
}

/// Rows of the 48-row track that a level fills: none at 0, otherwise
/// `value * 48 / 100` but at least one.
pub open spec fn filled_rows(value: u8) -> int {
    if value == 0 {
        0
    } else if value * 48 / 100 >= 1 {
        value * 48 / 100
    } else {
        1
    }
}

/// The color that the bar whose frame starts at column `x` gives pixel
/// (`px`, `py`), or `None` where the bar leaves it alone. The bar is a 16x52
/// frame from row 6 and a 12x48 track inside it; over the track, a known
/// level fills its bottom rows and an unknown one gets a 4-row marker
/// across the middle.
pub open spec fn bar_layer(x: int, level: Option<u8>, px: int, py: int) -> Option<Seq<u8>> {
    let top: Option<Seq<u8>> = match level {
        Some(v) => {
            let f = filled_rows(v);
            if f > 0 && in_rect(px, py, x + 2, 8 + 48 - f, 12, f) {
                Some(level_color_spec(v))
            } else {
                None
            }
        },
        None => if in_rect(px, py, x + 2, 30, 12, 4) {
            Some(unknown_marker())
        } else {
            None
        },
    };
    if top is Some {
        top
    } else if in_rect(px, py, x + 2, 8, 12, 48) {
        Some(track())
    } else if in_rect(px, py, x, 6, 16, 52) {
        Some(border())
    } else {
        None
    }
}

/// `layer` drawn over `below`.
pub open spec fn over(layer: Option<Seq<u8>>, below: Seq<u8>) -> Seq<u8> {
    match layer {
        Some(c) => c,
        None => below,
    }
}

/// The color of pixel (`px`, `py`) of the icon for `status`: the right bar
/// over the left bar over the background.
pub open spec fn icon_pixel(status: BatteryStatus, px: int, py: int) -> Seq<u8> {
    over(
        bar_layer(RIGHT_BAR_X as int, status.right, px, py),
        over(bar_layer(LEFT_BAR_X as int, status.left, px, py), bg()),
    )
}

/// The RGBA bytes of the icon for `status`, row by row.
pub open spec fn icon_rgba(status: BatteryStatus) -> Seq<u8> {
    Seq::new(ICON_BYTES as nat, |i: int| icon_pixel(status, pixel_x(i), pixel_y(i))[i % 4])
}

/// Levels the bars can show: above 102 the fill would be taller than the track.
pub open spec fn drawable_level(level: Option<u8>) -> bool {
    level matches Some(v) ==> v <= 102
}

/// The RGBA bytes of the tray icon for `status`.
pub fn render_status_icon(status: &BatteryStatus) -> (rgba: Vec<u8>)
    requires
        drawable_level(status.left),
        drawable_level(status.right),
    ensures
        rgba@ == icon_rgba(*status),
{
    let mut rgba: Vec<u8> = Vec::new();
    while rgba.len() < ICON_BYTES
        invariant
            rgba@.len() <= ICON_BYTES,
        decreases ICON_BYTES - rgba.len(),
    {
        rgba.push(0);
    }
    fill_background(&mut rgba);
    let ghost after_bg = rgba@;
    draw_battery_bar(&mut rgba, LEFT_BAR_X, status.left);
    let ghost after_left = rgba@;
    draw_battery_bar(&mut rgba, RIGHT_BAR_X, status.right);
    assert(rgba@ =~= icon_rgba(*status)) by {
        assert forall|i: int| 0 <= i < ICON_BYTES implies rgba@[i] == icon_rgba(*status)[i] by {
            assert(after_bg[i] == bg()[i % 4]);
            assert(after_left[i] == over(
                bar_layer(LEFT_BAR_X as int, status.left, pixel_x(i), pixel_y(i)),
                bg(),
            )[i % 4]);
        }
    }
    rgba
}

/// Whether the bars can show `level`.
pub fn is_drawable_level(level: Option<u8>) -> (b: bool)
    ensures
        b == drawable_level(level),
{
    match level {
        Some(v) => v <= 102,
        None => true,
    }
}

/// The RGBA bytes of the tray icon for `status`, or `None` when a level is
/// too high for the bars to show.
pub fn checked_status_icon(status: &BatteryStatus) -> (rgba: Option<Vec<u8>>)
    ensures
        drawable_level(status.left) && drawable_level(status.right) ==> (rgba matches Some(v)
            && v@ == icon_rgba(*status)),
        !(drawable_level(status.left) && drawable_level(status.right)) ==> rgba is None,
{
    if is_drawable_level(status.left) && is_drawable_level(status.right) {
        Some(render_status_icon(status))
    } else {
        None
    }
}

fn fill_background(buffer: &mut Vec<u8>)
    requires
        old(buffer)@.len() == ICON_BYTES,
    ensures
        final(buffer)@.len() == ICON_BYTES,
        forall|i: int| 0 <= i < ICON_BYTES ==> #[trigger] final(buffer)@[i] == bg()[i % 4],
{
    fill_rect(buffer, 0, 0, ICON_SIZE, ICON_SIZE, [24, 28, 33, 230]);
    assert forall|i: int| 0 <= i < ICON_BYTES implies #[trigger] buffer@[i] == bg()[i % 4] by {
        lemma_pixel_in_icon(i);
    }
}

proof fn lemma_pixel_in_icon(i: int)
    requires
        0 <= i < ICON_BYTES,
    ensures
        0 <= pixel_x(i) < 64,
        0 <= pixel_y(i) < 64,
{
}

/// Draws the bar whose frame starts at column `x`.
fn draw_battery_bar(buffer: &mut Vec<u8>, x: u32, level: Option<u8>)
    requires
        old(buffer)@.len() == ICON_BYTES,
        x <= 48,
        drawable_level(level),
    ensures
        final(buffer)@.len() == ICON_BYTES,
        forall|i: int|
            0 <= i < ICON_BYTES ==> #[trigger] final(buffer)@[i] == over(
                bar_layer(x as int, level, pixel_x(i), pixel_y(i)),
                seq![old(buffer)@[i], old(buffer)@[i], old(buffer)@[i], old(buffer)@[i]],
            )[i % 4],
{
    let ghost start = buffer@;
    let outer_x = x;
    let outer_y: u32 = 6;
    let outer_width: u32 = 16;
    let outer_height: u32 = 52;
    fill_rect(buffer, outer_x, outer_y, outer_width, outer_height, [132, 142, 156, 255]);
    let ghost framed = buffer@;
    let inner_x = outer_x + 2;
    let inner_y = outer_y + 2;
    let inner_width = outer_width - 4;
    let inner_height = outer_height - 4;
    fill_rect(buffer, inner_x, inner_y, inner_width, inner_height, [52, 58, 66, 255]);
    let ghost with_track = buffer@;
    match level {
        Some(value) => {
            let filled_height: u32 = if value == 0 {
                0
            } else {
                let h: u32 = (value as u32 * inner_height) / 100;
                if h >= 1 {
                    h
                } else {
                    1
                }
            };
            assert(filled_height == filled_rows(value));
            if filled_height > 0 {
                let fill_y = inner_y + (inner_height - filled_height);
                fill_rect(buffer, inner_x, fill_y, inner_width, filled_height, level_color(value));
            }
        },
        None => {
            let marker_y = inner_y + (inner_height / 2) - 2;
            fill_rect(buffer, inner_x, marker_y, inner_width, 4, [150, 150, 150, 255]);
        },
    }
    assert forall|i: int| 0 <= i < ICON_BYTES implies #[trigger] buffer@[i] == over(
        bar_layer(x as int, level, pixel_x(i), pixel_y(i)),
        seq![start[i], start[i], start[i], start[i]],
    )[i % 4] by {
        assert(framed[i] == if in_rect(pixel_x(i), pixel_y(i), x as int, 6, 16, 52) {
            border()[i % 4]
        } else {
            start[i]
        });
        assert(with_track[i] == if in_rect(pixel_x(i), pixel_y(i), x + 2, 8, 12, 48) {
            track()[i % 4]
        } else {
            framed[i]
        });
    }
}

fn level_color(value: u8) -> (c: [u8; 4])
    ensures
        c@ == level_color_spec(value),
{
    if value <= 20 {
        let c = [255, 68, 68, 255];
        assert(c@ =~= red());
        c
    } else {
        let c = [70, 190, 80, 255];
        assert(c@ =~= green());
        c
    }
}

/// Paints the pixels of the `rect_width` x `rect_height` rectangle at (`x`, `y`)
/// that lie on the icon.
fn fill_rect(buffer: &mut Vec<u8>, x: u32, y: u32, rect_width: u32, rect_height: u32, color: [u8; 4])
    requires
        old(buffer)@.len() == ICON_BYTES,
        x + rect_width <= u32::MAX,
        y + rect_height <= u32::MAX,
    ensures
        final(buffer)@.len() == ICON_BYTES,
        forall|i: int|
            0 <= i < ICON_BYTES ==> #[trigger] final(buffer)@[i] == if in_rect(
                pixel_x(i),
                pixel_y(i),
                x as int,
                y as int,
                rect_width as int,
                rect_height as int,
            ) {
                color@[i % 4]
            } else {
                old(buffer)@[i]
            },
{
    let ghost start = buffer@;
    let mut py = y;
    while py < y + rect_height
        invariant
            y <= py <= y + rect_height,
            y + rect_height <= u32::MAX,
            x + rect_width <= u32::MAX,
            buffer@.len() == ICON_BYTES,
            forall|i: int|
                0 <= i < ICON_BYTES ==> #[trigger] buffer@[i] == if in_rect(
                    pixel_x(i),
                    pixel_y(i),
                    x as int,
                    y as int,
                    rect_width as int,
                    py - y,
                ) {
                    color@[i % 4]
                } else {
                    start[i]
                },
        decreases y + rect_height - py,
    {
        let mut px = x;
        while px < x + rect_width
            invariant
                y <= py < y + rect_height,
                x <= px <= x + rect_width,
                x + rect_width <= u32::MAX,
                buffer@.len() == ICON_BYTES,
                forall|i: int|
                    0 <= i < ICON_BYTES ==> #[trigger] buffer@[i] == if in_rect(
                        pixel_x(i),
                        pixel_y(i),
                        x as int,
                        y as int,
                        rect_width as int,
                        py - y,
                    ) || in_rect(pixel_x(i), pixel_y(i), x as int, py as int, px - x, 1) {
                        color@[i % 4]
                    } else {
                        start[i]
                    },
            decreases x + rect_width - px,
        {
            if px < ICON_SIZE && py < ICON_SIZE {
                paint_pixel(buffer, px, py, color);
            }
            proof {
                assert forall|i: int| 0 <= i < ICON_BYTES implies !(pixel_x(i) == px && pixel_y(i)
                    == py) || (px < ICON_SIZE && py < ICON_SIZE) by {
                    lemma_pixel_in_icon(i);
                }
            }
            px = px + 1;
        }
        py = py + 1;
    }
}

/// Sets the four bytes of pixel (`x`, `y`).
fn paint_pixel(buffer: &mut Vec<u8>, x: u32, y: u32, color: [u8; 4])
    requires
        old(buffer)@.len() == ICON_BYTES,
        x < ICON_SIZE,
        y < ICON_SIZE,
    ensures
        final(buffer)@.len() == ICON_BYTES,
        forall|i: int|
            0 <= i < ICON_BYTES ==> #[trigger] final(buffer)@[i] == if pixel_x(i) == x && pixel_y(
                i,
            ) == y {
                color@[i % 4]
            } else {
                old(buffer)@[i]
            },
{
    let offset: usize = ((y * ICON_SIZE + x) * 4) as usize;
    buffer.set(offset, color[0]);
    buffer.set(offset + 1, color[1]);
    buffer.set(offset + 2, color[2]);
    buffer.set(offset + 3, color[3]);
    proof {
        assert forall|i: int| 0 <= i < ICON_BYTES implies (pixel_x(i) == x && pixel_y(i) == y) <==> (
        offset <= i < offset + 4) by {
            lemma_pixel_offset(i, x as int, y as int);
        }
    }
}

proof fn lemma_pixel_offset(i: int, x: int, y: int)
    requires
        0 <= i < ICON_BYTES,
        0 <= x < 64,
        0 <= y < 64,
    ensures
        (pixel_x(i) == x && pixel_y(i) == y) <==> ((y * 64 + x) * 4 <= i < (y * 64 + x) * 4 + 4),
        ((y * 64 + x) * 4 <= i < (y * 64 + x) * 4 + 4) ==> i % 4 == i - (y * 64 + x) * 4,
{
}

/// The track of a battery bar (columns 12..24 for the left earbud, 40..52 for
/// the right, rows 8..56): a known level fills it from the bottom, red
/// (255, 68, 68) at 20% or below and green (70, 190, 80) above, over
/// `level * 48 / 100` rows but at least one, none at 0%; the rest of the
/// track is dark grey (52, 58, 66). An unknown level leaves the track dark
/// grey but for a light grey (150, 150, 150) band over rows 30..34.
pub proof fn lemma_bar_track_pixels(status: BatteryStatus, px: int, py: int)
    requires
        8 <= py < 56,
        (12 <= px < 24) || (40 <= px < 52),
    ensures
        ({
            let level = if px < 24 {
                status.left
            } else {
                status.right
            };
            icon_pixel(status, px, py) == match level {
                Some(v) => if v > 0 && py >= 56 - (if v * 48 / 100 >= 1 {
                    v * 48 / 100
                } else {
                    1
                }) {
                    if v <= 20 {
                        seq![255u8, 68, 68, 255]
                    } else {
                        seq![70u8, 190, 80, 255]
                    }
                } else {
                    seq![52u8, 58, 66, 255]
                },
                None => if 30 <= py < 34 {
                    seq![150u8, 150, 150, 255]
                } else {
                    seq![52u8, 58, 66, 255]
                },
            }
        }),
{
}

/// Around the tracks: each bar has a 16x52 frame from row 6 (columns 10..26
/// and 38..54) drawn in (132, 142, 156), and every pixel outside both frames
/// is the background (24, 28, 33) at alpha 230, for any levels the bars can
/// show.
pub proof fn lemma_icon_frame_and_background(status: BatteryStatus, px: int, py: int)
    requires
        drawable_level(status.left),
        drawable_level(status.right),
        0 <= px < 64,
        0 <= py < 64,
    ensures
        !((10 <= px < 26 || 38 <= px < 54) && 6 <= py < 58) ==> icon_pixel(status, px, py)
            == seq![24u8, 28, 33, 230],
        (10 <= px < 26 || 38 <= px < 54) && 6 <= py < 58 && !((12 <= px < 24 || 40 <= px < 52)
            && 8 <= py < 56) ==> icon_pixel(status, px, py) == seq![132u8, 142, 156, 255],
{
}

} // verus!
