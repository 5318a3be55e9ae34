//! Presentation-side crop state: the per-side crop amounts that user
//! input accumulates, kept clamped so a request never consumes a whole
//! axis of the image. The windowing and rendering machinery around it
//! lives outside the library; it hands plain events in and applies the
//! resulting state.

use crate::image::{crop_len, crop_shift, Image};
use crate::pixel::RGBA;
use vstd::arithmetic::div_mod::{lemma_div_is_ordered, lemma_div_multiples_vanish};
use vstd::prelude::*;

verus! {

/// Accumulated crop amounts for the four sides of an image.
#[derive(Clone, Copy, Debug, PartialEq, Eq, Structural)]
pub struct Crop {
    pub left: u32,
    pub right: u32,
    pub top: u32,
    pub bottom: u32,
}

impl Default for Crop {
    /// No cropping on any side.
    fn default() -> (c: Crop)
        ensures
            c == (Crop { left: 0, right: 0, top: 0, bottom: 0 }),
    {
        Crop { left: 0, right: 0, top: 0, bottom: 0 }
    }
}

/// The crop amounts leave at least one pixel on each axis of a
/// `width` by `height` image.
pub open spec fn crop_fits(c: Crop, width: u32, height: u32) -> bool {
    &&& c.left + c.right < width
    &&& c.top + c.bottom < height
}

/// One side of the image.
#[derive(Clone, Copy, Debug, PartialEq, Eq, Structural)]
pub enum Side {
    Left,
    Right,
    Top,
    Bottom,
}

/// Crop step per key event: ten pixels while the accelerating modifier
/// is held, one otherwise.
pub fn calculate_delta(accelerated: bool) -> (d: u32)
    ensures
        d == if accelerated {
            10int
        } else {
            1int
        },
{
    if accelerated {
        10
    } else {
        1
    }
}

/// `amount` grown by `delta`, clamped so that `amount + opposite`
/// stays below `axis`.
pub open spec fn grown(amount: u32, opposite: u32, axis: u32, delta: u32) -> int {
    if delta < axis - amount - opposite {
        amount + delta
    } else {
        axis - opposite - 1
    }
}

/// Grows the crop amount of one side by `delta`, clamped so at least
/// one pixel of the image survives on that axis.
pub fn grow_crop(c: Crop, side: Side, delta: u32, width: u32, height: u32) -> (r: Crop)
    requires
        crop_fits(c, width, height),
    ensures
        crop_fits(r, width, height),
        r.left == if side is Left {
            grown(c.left, c.right, width, delta)
        } else {
            c.left as int
        },
        r.right == if side is Right {
            grown(c.right, c.left, width, delta)
        } else {
            c.right as int
        },
        r.top == if side is Top {
            grown(c.top, c.bottom, height, delta)
        } else {
            c.top as int
        },
        r.bottom == if side is Bottom {
            grown(c.bottom, c.top, height, delta)
        } else {
            c.bottom as int
        },
{
    match side {
        Side::Left => {
            let room = width - c.left - c.right - 1;
            let step = if delta < room {
                delta
            } else {
                room
            };
            Crop { left: c.left + step, right: c.right, top: c.top, bottom: c.bottom }
        },
        Side::Right => {
            let room = width - c.left - c.right - 1;
            let step = if delta < room {
                delta
            } else {
                room
            };
            Crop { left: c.left, right: c.right + step, top: c.top, bottom: c.bottom }
        },
        Side::Top => {
            let room = height - c.top - c.bottom - 1;
            let step = if delta < room {
                delta
            } else {
                room
            };
            Crop { left: c.left, right: c.right, top: c.top + step, bottom: c.bottom }
        },
        Side::Bottom => {
            let room = height - c.top - c.bottom - 1;
            let step = if delta < room {
                delta
            } else {
                room
            };
            Crop { left: c.left, right: c.right, top: c.top, bottom: c.bottom + step }
        },
    }
}

/// `amount` shrunk by `delta`, clamped at zero.
pub open spec fn shrunk(amount: u32, delta: u32) -> int {
    if delta <= amount {
        amount - delta
    } else {
        0
    }
}

/// Shrinks the crop amount of one side by `delta`, clamped at zero;
/// the other sides are untouched, so a fitting crop keeps fitting.
pub fn shrink_crop(c: Crop, side: Side, delta: u32) -> (r: Crop)
    ensures
        r.left == if side is Left {
            shrunk(c.left, delta)
        } else {
            c.left as int
        },
        r.right == if side is Right {
            shrunk(c.right, delta)
        } else {
            c.right as int
        },
        r.top == if side is Top {
            shrunk(c.top, delta)
        } else {
            c.top as int
        },
        r.bottom == if side is Bottom {
            shrunk(c.bottom, delta)
        } else {
            c.bottom as int
        },
        forall|w: u32, h: u32| crop_fits(c, w, h) ==> #[trigger] crop_fits(r, w, h),
{
    match side {
        Side::Left => {
            let step = if delta < c.left {
                delta
            } else {
                c.left
            };
            Crop { left: c.left - step, right: c.right, top: c.top, bottom: c.bottom }
        },
        Side::Right => {
            let step = if delta < c.right {
                delta
            } else {
                c.right
            };
            Crop { left: c.left, right: c.right - step, top: c.top, bottom: c.bottom }
        },
        Side::Top => {
            let step = if delta < c.top {
                delta
            } else {
                c.top
            };
            Crop { left: c.left, right: c.right, top: c.top - step, bottom: c.bottom }
        },
        Side::Bottom => {
            let step = if delta < c.bottom {
                delta
            } else {
                c.bottom
            };
            Crop { left: c.left, right: c.right, top: c.top, bottom: c.bottom - step }
        },
    }
}

/// An arrow key pressed in the viewer.
#[derive(Clone, Copy, Debug, PartialEq, Eq, Structural)]
pub enum ArrowKey {
    Up,
    Down,
    Left,
    Right,
}

/// One key press turned into a crop change. An arrow key crops from
/// the side the image is pushed towards: up crops rows off the bottom,
/// down off the top, left crops columns off the right, right off the
/// left. With the reversing modifier held the same key instead undoes
/// cropping on the opposite side, and the accelerating modifier takes
/// ten-pixel steps.
pub fn arrow_crop(
    c: Crop,
    key: ArrowKey,
    reverse: bool,
    accelerate: bool,
    width: u32,
    height: u32,
) -> (r: Crop)
    requires
        crop_fits(c, width, height),
    ensures
        crop_fits(r, width, height),
        ({
            let delta: u32 = if accelerate { 10 } else { 1 };
            match key {
                ArrowKey::Up => {
                    &&& if reverse {
                        r.top == shrunk(c.top, delta) && r.bottom == c.bottom
                    } else {
                        r.bottom == grown(c.bottom, c.top, height, delta) && r.top == c.top
                    }
                    &&& r.left == c.left
                    &&& r.right == c.right
                },
                ArrowKey::Down => {
                    &&& if reverse {
                        r.bottom == shrunk(c.bottom, delta) && r.top == c.top
                    } else {
                        r.top == grown(c.top, c.bottom, height, delta) && r.bottom == c.bottom
                    }
                    &&& r.left == c.left
                    &&& r.right == c.right
                },
                ArrowKey::Left => {
                    &&& if reverse {
                        r.left == shrunk(c.left, delta) && r.right == c.right
                    } else {
                        r.right == grown(c.right, c.left, width, delta) && r.left == c.left
                    }
                    &&& r.top == c.top
                    &&& r.bottom == c.bottom
                },
                ArrowKey::Right => {
                    &&& if reverse {
                        r.right == shrunk(c.right, delta) && r.left == c.left
                    } else {
                        r.left == grown(c.left, c.right, width, delta) && r.right == c.right
                    }
                    &&& r.top == c.top
                    &&& r.bottom == c.bottom
                },
            }
        }),
{
    let delta = calculate_delta(accelerate);
    match key {
        ArrowKey::Up => if reverse {
            shrink_crop(c, Side::Top, delta)
        } else {
            grow_crop(c, Side::Bottom, delta, width, height)
        },
        ArrowKey::Down => if reverse {
            shrink_crop(c, Side::Bottom, delta)
        } else {
            grow_crop(c, Side::Top, delta, width, height)
        },
        ArrowKey::Left => if reverse {
            shrink_crop(c, Side::Left, delta)
        } else {
            grow_crop(c, Side::Right, delta, width, height)
        },
        ArrowKey::Right => if reverse {
            shrink_crop(c, Side::Right, delta)
        } else {
            grow_crop(c, Side::Left, delta, width, height)
        },
    }
}

/// The crop selected by two clicks in the window. The displayed image
/// sits centered in the window, clipped to it; a click outside the
/// displayed image selects nothing, and a pair of clicks inside it
/// selects the bounding rectangle of the two, scaled back to image
/// coordinates on any axis where the image overflows the window. The
/// selected rectangle is what remains: each side's crop amount grows
/// by the distance from that side to the rectangle.
pub open spec fn spec_click_selection(
    c: Crop,
    first: (u32, u32),
    second: (u32, u32),
    win_w: u32,
    win_h: u32,
    width: u32,
    height: u32,
) -> Option<Crop> {
    let im_w = width - c.left - c.right;
    let im_h = height - c.top - c.bottom;
    let dw = if im_w < win_w { im_w as int } else { win_w as int };
    let dh = if im_h < win_h { im_h as int } else { win_h as int };
    let x1 = first.0 - (win_w as int) / 2 + dw / 2;
    let y1 = first.1 - (win_h as int) / 2 + dh / 2;
    let x2 = second.0 - (win_w as int) / 2 + dw / 2;
    let y2 = second.1 - (win_h as int) / 2 + dh / 2;
    if x1 < 0 || x2 < 0 || y1 < 0 || y2 < 0 || x1 > dw || x2 > dw || y1 > dh || y2 > dh {
        None
    } else {
        let xs1 = if win_w < im_w { x1 * im_w / (win_w as int) } else { x1 };
        let xs2 = if win_w < im_w { x2 * im_w / (win_w as int) } else { x2 };
        let ys1 = if win_h < im_h { y1 * im_h / (win_h as int) } else { y1 };
        let ys2 = if win_h < im_h { y2 * im_h / (win_h as int) } else { y2 };
        let lo_x = if xs1 < xs2 { xs1 } else { xs2 };
        let hi_x = if xs1 < xs2 { xs2 } else { xs1 };
        let lo_y = if ys1 < ys2 { ys1 } else { ys2 };
        let hi_y = if ys1 < ys2 { ys2 } else { ys1 };
        Some(
            Crop {
                left: (c.left + lo_x) as u32,
                right: (c.right + (im_w - hi_x)) as u32,
                top: (c.top + lo_y) as u32,
                bottom: (c.bottom + (im_h - hi_y)) as u32,
            },
        )
    }
}

/// Turns a pair of clicks into grown crop amounts, exactly as
/// `spec_click_selection` describes.
pub fn click_selection(
    c: Crop,
    first: (u32, u32),
    second: (u32, u32),
    win_w: u32,
    win_h: u32,
    width: u32,
    height: u32,
) -> (r: Option<Crop>)
    requires
        crop_fits(c, width, height),
        1 <= win_w,
        1 <= win_h,
    ensures
        r == spec_click_selection(c, first, second, win_w, win_h, width, height),
{
    let im_w = width - c.left - c.right;
    let im_h = height - c.top - c.bottom;
    let dw = if im_w < win_w { im_w } else { win_w };
    let dh = if im_h < win_h { im_h } else { win_h };
    let half_w = (win_w / 2) as u64;
    let half_h = (win_h / 2) as u64;
    let cx1 = first.0 as u64 + (dw / 2) as u64;
    let cy1 = first.1 as u64 + (dh / 2) as u64;
    let cx2 = second.0 as u64 + (dw / 2) as u64;
    let cy2 = second.1 as u64 + (dh / 2) as u64;
    if cx1 < half_w || cx2 < half_w || cy1 < half_h || cy2 < half_h {
        return None;
    }
    let x1 = cx1 - half_w;
    let y1 = cy1 - half_h;
    let x2 = cx2 - half_w;
    let y2 = cy2 - half_h;
    if x1 > dw as u64 || x2 > dw as u64 || y1 > dh as u64 || y2 > dh as u64 {
        return None;
    }
    let xs1 = scale_to_image(x1, im_w, win_w);
    let xs2 = scale_to_image(x2, im_w, win_w);
    let ys1 = scale_to_image(y1, im_h, win_h);
    let ys2 = scale_to_image(y2, im_h, win_h);
    let lo_x = if xs1 < xs2 { xs1 } else { xs2 };
    let hi_x = if xs1 < xs2 { xs2 } else { xs1 };
    let lo_y = if ys1 < ys2 { ys1 } else { ys2 };
    let hi_y = if ys1 < ys2 { ys2 } else { ys1 };
    Some(
        Crop {
            left: c.left + lo_x as u32,
            right: c.right + (im_w - hi_x as u32),
            top: c.top + lo_y as u32,
            bottom: c.bottom + (im_h - hi_y as u32),
        },
    )
}

/// A window coordinate mapped to image coordinates where the image
/// overflows the window; the result never exceeds the image size.
fn scale_to_image(v: u64, im: u32, win: u32) -> (r: u64)
    requires
        1 <= win,
        v <= win,
        v <= im,
    ensures
        r == if win < im {
            v * im / (win as int)
        } else {
            v as int
        },
        r <= im,
{
    if win < im {
        proof {
            assert((v as int) * (im as int) <= 0xffff_ffff * 0xffff_ffff) by (nonlinear_arith)
                requires
                    0 <= v <= 0xffff_ffff,
                    0 <= im <= 0xffff_ffff,
            ;
        }
        let prod = v * (im as u64);
        let q = prod / (win as u64);
        proof {
            assert(prod <= (win as int) * (im as int)) by (nonlinear_arith)
                requires
                    prod == (v as int) * (im as int),
                    v <= win,
                    0 <= im,
            ;
            lemma_div_is_ordered(prod as int, (win as int) * (im as int), win as int);
            lemma_div_multiples_vanish(im as int, win as int);
        }
        q
    } else {
        v
    }
}

/// Applies the accumulated crop amounts to a buffer.
pub fn crop_image(image: &Image<RGBA>, c: Crop) -> (img: Image<RGBA>)
    requires
        image.wf(),
    ensures
        img.wf(),
        img.spec_height() == crop_len(image.spec_height(), c.top as int, c.bottom as int),
        img.spec_width() == crop_len(image.spec_width(), c.left as int, c.right as int),
        forall|y: int, x: int|
            0 <= y < img.spec_height() && 0 <= x < img.spec_width() ==> #[trigger] img.pixel_at(
                x,
                y,
            ) == image.pixel_at(
                x + crop_shift(image.spec_width(), c.left as int, c.right as int),
                y + crop_shift(image.spec_height(), c.top as int, c.bottom as int),
            ),
{
    image.crop(c.left as usize, c.right as usize, c.top as usize, c.bottom as usize)
}

} // verus!
