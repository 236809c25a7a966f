//! Screen geometry for the emergency stop, and console events.
use vstd::prelude::*;

verus! {

/// A point on the screen, in pixels.
#[derive(Debug, Clone, Copy, Default)]
pub struct POINT {
    pub x: i32,
    pub y: i32,
}

/// `a` lies within `tolerance` of `b`.
pub open spec fn near(a: int, b: int, tolerance: int) -> bool {
    -tolerance <= a - b <= tolerance
}

/// The point is within `tolerance` pixels, on both axes, of one of the four
/// corner pixels of a `width` by `height` screen; never on a screen without
/// pixels.
pub open spec fn in_screen_corner(p: POINT, width: int, height: int, tolerance: int) -> bool {
    &&& width > 0
    &&& height > 0
    &&& {
        ||| near(p.x as int, 0, tolerance) && near(p.y as int, 0, tolerance)
        ||| near(p.x as int, width - 1, tolerance) && near(p.y as int, 0, tolerance)
        ||| near(p.x as int, 0, tolerance) && near(p.y as int, height - 1, tolerance)
        ||| near(p.x as int, width - 1, tolerance) && near(p.y as int, height - 1, tolerance)
    }
}

fn near_exec(a: i64, b: i64, tolerance: i64) -> (r: bool)
    requires
        -0x1_0000_0000 <= a <= 0x1_0000_0000,
        -0x1_0000_0000 <= b <= 0x1_0000_0000,
        -0x1_0000_0000 <= tolerance <= 0x1_0000_0000,
    ensures
        r == near(a as int, b as int, tolerance as int),
{
    let d = a - b;
    -tolerance <= d && d <= tolerance
}

/// Whether the cursor at `p` triggers the emergency stop on a screen of
/// `width` by `height` pixels.
pub fn point_at_screen_corner(p: POINT, width: i32, height: i32, tolerance: i32) -> (r: bool)
    ensures
        r == in_screen_corner(p, width as int, height as int, tolerance as int),
{
    if width <= 0 || height <= 0 {
        return false;
    }
    let x = p.x as i64;
    let y = p.y as i64;
    let t = tolerance as i64;
    let right = width as i64 - 1;
    let bottom = height as i64 - 1;
    (near_exec(x, 0, t) && near_exec(y, 0, t)) || (near_exec(x, right, t) && near_exec(y, 0, t))
        || (near_exec(x, 0, t) && near_exec(y, bottom, t)) || (near_exec(x, right, t) && near_exec(
        y,
        bottom,
        t,
    ))
}

/// The console control event of Ctrl+C.
pub const CTRL_C_EVENT: u32 = 0;

/// The console handler takes Ctrl+C for itself (the run then stops
/// cooperatively) and leaves every other console event to the system.
pub fn handles_console_event(ctrl_type: u32) -> (r: bool)
    ensures
        r == (ctrl_type == CTRL_C_EVENT),
{
    ctrl_type == CTRL_C_EVENT
}


/// The emergency stop fires exactly when the cursor lies within the
/// tolerance of the left or the right edge and within the tolerance of the
/// top or the bottom edge of a screen that has pixels: all four corners
/// alike.
pub proof fn law_corner_near_an_edge_on_both_axes(p: POINT, width: int, height: int, tolerance: int)
    ensures
        in_screen_corner(p, width, height, tolerance) == (width > 0 && height > 0 && (-tolerance
            <= p.x <= tolerance || width - 1 - tolerance <= p.x <= width - 1 + tolerance) && (
        -tolerance <= p.y <= tolerance || height - 1 - tolerance <= p.y <= height - 1
            + tolerance)),
{
}

} // verus!
