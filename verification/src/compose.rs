//! The compositor's parameterization: the fixed card geometry, the text
//! placement arithmetic and the description color, computed and validated up
//! front so the raster pipeline can be driven with plain numbers.

use vstd::prelude::*;
use crate::ProcessError;

verus! {

/// Width of a finished card, in pixels.
pub const TARGET_WIDTH: u32 = 2251;

/// Height of a finished card, in pixels.
pub const TARGET_HEIGHT: u32 = 432;

/// Brightness delta applied to the resized photo before blurring.
pub const BRIGHTEN_DELTA: i32 = -85;

/// The headline's color level, equal in all three color channels: pure white.
pub const HEADLINE_CHANNEL: u8 = 255;

/// Vertical gap between the headline and the description, in pixels.
pub const DESCRIPTION_GAP: i32 = 30;

/// Truncating division — the semantics of machine signed division: it rounds
/// toward zero.
pub open spec fn tdiv(a: int, b: int) -> int {
    if a >= 0 {
        a / b
    } else {
        -((-a) / b)
    }
}

/// Where the headline goes: centered vertically, and horizontally centered
/// then biased leftward by a factor of 7.
pub fn headline_position(image_w: u32, image_h: u32, text_w: i32, text_h: i32) -> (p: (i32, i32))
    requires
        0 <= text_w,
        0 <= text_h,
    ensures
        p.0 as int == tdiv(tdiv(image_w as int - text_w as int, 2), 7),
        p.1 as int == tdiv(image_h as int - text_h as int, 2),
{
    let dx: i64 = image_w as i64 - text_w as i64;
    let dy: i64 = image_h as i64 - text_h as i64;
    let x: i64 = if dx >= 0 {
        (((dx as u64) / 2) / 7) as i64
    } else {
        -(((((-dx) as u64) / 2) / 7) as i64)
    };
    let y: i64 = if dy >= 0 {
        ((dy as u64) / 2) as i64
    } else {
        -((((-dy) as u64) / 2) as i64)
    };
    (x as i32, y as i32)
}

/// Where the description goes: the headline's horizontal position, one
/// description text height plus a fixed gap below the headline's vertical
/// position.
pub fn description_position(headline_x: i32, headline_y: i32, description_text_h: i32) -> (p: (
    i32,
    i32,
))
    requires
        0 <= description_text_h,
        headline_y as int + description_text_h as int + DESCRIPTION_GAP as int <= i32::MAX as int,
    ensures
        p.0 == headline_x,
        p.1 as int == headline_y as int + description_text_h as int + DESCRIPTION_GAP as int,
{
    (headline_x, headline_y + description_text_h + DESCRIPTION_GAP)
}

/// The description's gray level: `255 - offset`, clamped to a byte. An
/// offset of 0 gives pure white; 255 — or anything above, which is clamped
/// rather than rejected — gives black.
pub fn description_color_channel(offset: u32) -> (v: u8)
    ensures
        v as int == (if offset as int >= 255 {
            0int
        } else {
            255 - offset as int
        }),
{
    if offset >= 255 {
        0
    } else {
        (255 - offset) as u8
    }
}

/// Everything the per-image pipeline needs, computed once from the card's
/// parameters and the measured text sizes.
pub struct CompositionPlan {
    /// Fixed width the photo is resized to.
    pub target_width: u32,
    /// Fixed height the photo is resized to.
    pub target_height: u32,
    /// Brightness delta applied before blurring.
    pub brighten_delta: i32,
    /// Horizontal position of the headline.
    pub headline_x: i32,
    /// Vertical position of the headline.
    pub headline_y: i32,
    /// Horizontal position of the description.
    pub description_x: i32,
    /// Vertical position of the description.
    pub description_y: i32,
    /// The description's font size: half the headline's.
    pub description_font_size: u32,
    /// The description's gray level, equal in all three color channels.
    pub description_channel: u8,
    /// The corner radius, already validated against the card dimensions.
    pub radius: u32,
}

/// Computes the card's composition plan. Succeeds exactly when twice the
/// border radius fits in both card dimensions; a larger radius would make
/// opposite corner blocks overlap and is rejected.
pub fn build_plan(
    font_size: u32,
    border_radius: u32,
    color_offset: u32,
    headline_w: i32,
    headline_h: i32,
    description_h: i32,
) -> (res: Result<CompositionPlan, ProcessError>)
    requires
        0 <= headline_w,
        0 <= headline_h,
        0 <= description_h,
        description_h as int + 246 <= i32::MAX as int,
    ensures
        match res {
            Ok(p) => {
                &&& 2 * (border_radius as int) <= TARGET_WIDTH as int
                &&& 2 * (border_radius as int) <= TARGET_HEIGHT as int
                &&& p.target_width == TARGET_WIDTH
                &&& p.target_height == TARGET_HEIGHT
                &&& p.brighten_delta == BRIGHTEN_DELTA
                &&& p.headline_x as int == tdiv(tdiv(TARGET_WIDTH as int - headline_w as int, 2), 7)
                &&& p.headline_y as int == tdiv(TARGET_HEIGHT as int - headline_h as int, 2)
                &&& p.description_x == p.headline_x
                &&& p.description_y as int == p.headline_y as int + description_h as int
                    + DESCRIPTION_GAP as int
                &&& p.description_font_size == font_size / 2
                &&& p.description_channel as int == (if color_offset as int >= 255 {
                    0int
                } else {
                    255 - color_offset as int
                })
                &&& p.radius == border_radius
            },
            Err(e) => {
                &&& e == ProcessError::PreconditionViolation
                &&& !(2 * (border_radius as int) <= TARGET_WIDTH as int && 2 * (
                border_radius as int) <= TARGET_HEIGHT as int)
            },
        },
{
    if 2 * (border_radius as u64) <= TARGET_WIDTH as u64 && 2 * (border_radius as u64)
        <= TARGET_HEIGHT as u64 {
        let (hx, hy) = headline_position(TARGET_WIDTH, TARGET_HEIGHT, headline_w, headline_h);
        let (dx, dy) = description_position(hx, hy, description_h);
        let channel = description_color_channel(color_offset);
        Ok(
            CompositionPlan {
                target_width: TARGET_WIDTH,
                target_height: TARGET_HEIGHT,
                brighten_delta: BRIGHTEN_DELTA,
                headline_x: hx,
                headline_y: hy,
                description_x: dx,
                description_y: dy,
                description_font_size: font_size / 2,
                description_channel: channel,
                radius: border_radius,
            },
        )
    } else {
        Err(ProcessError::PreconditionViolation)
    }
}

} // verus!
