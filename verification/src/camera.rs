//! The orthographic camera: screen-to-world projection, scroll zoom anchored
//! on the cursor, and drag panning with keyboard speed modifiers.

use vstd::prelude::*;
use crate::errors::TickError;
use crate::geom::{
    clamp_i64, clamp_spec, div_trunc, lemma_div_trunc_le, mul3_div_trunc, Vec2i, TICK_MILLIS_LIMIT,
    WORLD_LIMIT,
};

verus! {

/// Zoom speed: how much of the current scale one scroll line removes, in
/// thousandths.
pub const ZOOM_SPEED_MILLI: i64 = 500;

/// Base pan speed in thousandths of a world unit per dragged pixel at unit
/// scale.
pub const PAN_SPEED_MILLI: i64 = 540;

/// Added to the pan speed while the speed-up key is held.
pub const PAN_FAST_MODIFIER_MILLI: i64 = 800;

/// Added to the pan speed while the slow-down key is held.
pub const PAN_SLOW_MODIFIER_MILLI: i64 = -300;

/// The smallest camera scale, in thousandths.
pub const MIN_ZOOM_MILLI: i64 = 1_000;

/// The largest camera scale, in thousandths.
pub const MAX_ZOOM_MILLI: i64 = 100_000;

/// How far from the origin the camera may travel.
pub const CAMERA_LIMIT: i64 = 900_000_000;

/// Largest window dimension and projection half-extent, in pixels and world
/// units.
pub const VIEW_LIMIT: i64 = 100_000;

/// Largest scroll amount accepted in one tick, in thousandths of a line.
pub const SCROLL_LIMIT: i64 = 1_000_000;

/// Largest drag accepted in one tick, in pixels per axis.
pub const DRAG_LIMIT: i64 = 1_000_000;

/// Keyboard camera movement speed, world units per second at unit scale.
pub const CAMERA_MOVE_SPEED: i64 = 1_500;

/// The primary window's drawable size in pixels.
#[derive(Clone, Copy, Debug, PartialEq, Eq, Structural)]
pub struct WindowSize {
    pub width: i64,
    pub height: i64,
}

impl WindowSize {
    /// A drawable window: positive, bounded dimensions.
    pub open spec fn valid(self) -> bool {
        &&& 0 < self.width <= VIEW_LIMIT
        &&& 0 < self.height <= VIEW_LIMIT
    }
}

/// The orthographic camera: a world translation, a zoom scale in
/// thousandths, and the projection half-extents at unit scale.
#[derive(Clone, Copy, Debug, PartialEq, Eq, Structural)]
pub struct CameraState {
    pub translation: Vec2i,
    pub scale_milli: i64,
    pub half_extents: Vec2i,
}

impl CameraState {
    /// The invariant every camera operation preserves: translation inside
    /// the camera's travel box, scale inside the zoom range, positive
    /// bounded half-extents.
    pub open spec fn well_formed(self) -> bool {
        &&& self.translation.in_bounds(CAMERA_LIMIT as int)
        &&& MIN_ZOOM_MILLI <= self.scale_milli <= MAX_ZOOM_MILLI
        &&& 0 < self.half_extents.x <= VIEW_LIMIT
        &&& 0 < self.half_extents.y <= VIEW_LIMIT
    }
}

/// A cursor coordinate mapped to device coordinates in thousandths: 0 at the
/// window's low edge becomes -1000, the high edge becomes 1000.
pub open spec fn ndc_milli(cursor: int, extent: int) -> int {
    div_trunc((2 * cursor - extent) * 1000, extent)
}

/// How far, in world units, a device coordinate sits from the camera center:
/// the half-extent scaled by the device coordinate and the camera scale.
pub open spec fn view_offset(ndc_m: int, half_extent: int, scale_milli: int) -> int {
    div_trunc(ndc_m * half_extent * scale_milli, 1_000_000)
}

/// The world point under a device coordinate for a given camera.
pub open spec fn world_at(cam: CameraState, ndc_x: int, ndc_y: int) -> (int, int) {
    (
        cam.translation.x + view_offset(ndc_x, cam.half_extents.x as int, cam.scale_milli as int),
        cam.translation.y + view_offset(ndc_y, cam.half_extents.y as int, cam.scale_milli as int),
    )
}

/// The world point a cursor position projects to, as a point value.
pub open spec fn projected_point(cam: CameraState, window: WindowSize, c: Vec2i) -> Vec2i {
    let nx = ndc_milli(c.x as int, window.width as int);
    let ny = ndc_milli(c.y as int, window.height as int);
    Vec2i { x: world_at(cam, nx, ny).0 as i64, y: world_at(cam, nx, ny).1 as i64 }
}

/// The scale after one scroll: the scroll removes `ZOOM_SPEED_MILLI`
/// thousandths of the current scale per line, clamped to the zoom range.
pub open spec fn zoomed_scale(scale_milli: int, scroll_milli: int) -> int {
    clamp_spec(
        scale_milli - div_trunc(ZOOM_SPEED_MILLI * scroll_milli * scale_milli, 1_000_000),
        MIN_ZOOM_MILLI as int,
        MAX_ZOOM_MILLI as int,
    )
}

/// The pan speed for the tick; the speed-up key wins when both modifier keys
/// are held.
pub open spec fn pan_factor_milli(fast: bool, slow: bool) -> int {
    PAN_SPEED_MILLI + if fast {
        PAN_FAST_MODIFIER_MILLI as int
    } else if slow {
        PAN_SLOW_MODIFIER_MILLI as int
    } else {
        0
    }
}

/// Device coordinate of a cursor position, in thousandths.
fn ndc_of(cursor: i64, extent: i64) -> (r: i64)
    requires
        0 < extent <= VIEW_LIMIT,
        0 <= cursor <= extent,
    ensures
        r == ndc_milli(cursor as int, extent as int),
        -1000 <= r <= 1000,
{
    let num: i64 = 2 * cursor - extent;
    proof {
        assert(-(1000 * extent) <= num * 1000 <= 1000 * extent) by (nonlinear_arith)
            requires -extent <= num <= extent, 0 < extent;
        lemma_div_trunc_le(num * 1000, extent as int, 1000);
        assert(num * 1000 * 1 == num * 1000);
    }
    mul3_div_trunc(num, 1000, 1, extent)
}

/// World-unit offset of a device coordinate from the camera center.
fn view_offset_of(ndc_m: i64, half_extent: i64, scale_milli: i64) -> (r: i64)
    requires
        -1000 <= ndc_m <= 1000,
        0 < half_extent <= VIEW_LIMIT,
        0 < scale_milli <= MAX_ZOOM_MILLI,
    ensures
        r == view_offset(ndc_m as int, half_extent as int, scale_milli as int),
        -10_000_000 <= r <= 10_000_000,
{
    proof {
        assert(-100_000_000 <= ndc_m * half_extent <= 100_000_000) by (nonlinear_arith)
            requires -1000 <= ndc_m <= 1000, 0 < half_extent <= 100_000;
        assert(-10_000_000_000_000 <= ndc_m * half_extent * scale_milli <= 10_000_000_000_000)
            by (nonlinear_arith)
            requires
                -100_000_000 <= ndc_m * half_extent <= 100_000_000,
                0 < scale_milli <= 100_000;
        lemma_div_trunc_le(ndc_m * half_extent * scale_milli, 1_000_000, 10_000_000);
    }
    mul3_div_trunc(ndc_m, half_extent, scale_milli, 1_000_000)
}

/// Project a cursor position in window pixels to the world point under it.
/// The cursor must actually be inside the window; anything else is the
/// cursor-outside failure the caller skips the tick on.
pub fn screen_to_world(cam: &CameraState, window: WindowSize, cursor: Option<Vec2i>) -> (r:
    Result<Vec2i, TickError>)
    requires
        cam.well_formed(),
        window.valid(),
    ensures
        r is Ok <==> cursor is Some && 0 <= cursor.unwrap().x <= window.width && 0
            <= cursor.unwrap().y <= window.height,
        r is Err ==> r->Err_0 == TickError::CursorOutsideWindow,
        r is Ok ==> {
            let c = cursor.unwrap();
            let p = world_at(
                *cam,
                ndc_milli(c.x as int, window.width as int),
                ndc_milli(c.y as int, window.height as int),
            );
            r.unwrap().x == p.0 && r.unwrap().y == p.1
        },
        r is Ok ==> r.unwrap() == projected_point(*cam, window, cursor.unwrap()),
        r is Ok ==> r.unwrap().in_bounds(WORLD_LIMIT as int),
{
    let c = match cursor {
        None => {
            return Err(TickError::CursorOutsideWindow);
        },
        Some(c) => c,
    };
    if !(0 <= c.x && c.x <= window.width && 0 <= c.y && c.y <= window.height) {
        return Err(TickError::CursorOutsideWindow);
    }
    let nx = ndc_of(c.x, window.width);
    let ny = ndc_of(c.y, window.height);
    let ox = view_offset_of(nx, cam.half_extents.x, cam.scale_milli);
    let oy = view_offset_of(ny, cam.half_extents.y, cam.scale_milli);
    Ok(Vec2i { x: cam.translation.x + ox, y: cam.translation.y + oy })
}

/// The camera after one zoom-and-pan tick: scale scrolled and clamped, the
/// translation corrected so the world point under the cursor stays put, then
/// shifted by the drag and forced back into the camera's travel box.
pub open spec fn zoom_pan_result(
    cam: CameraState,
    window: WindowSize,
    cursor: Vec2i,
    scroll_milli: int,
    drag: Vec2i,
    fast: bool,
    slow: bool,
) -> CameraState {
    let nx = ndc_milli(cursor.x as int, window.width as int);
    let ny = ndc_milli(cursor.y as int, window.height as int);
    let s1 = zoomed_scale(cam.scale_milli as int, scroll_milli);
    let ax = cam.translation.x + view_offset(nx, cam.half_extents.x as int, cam.scale_milli as int);
    let ay = cam.translation.y + view_offset(ny, cam.half_extents.y as int, cam.scale_milli as int);
    let tx = ax - view_offset(nx, cam.half_extents.x as int, s1);
    let ty = ay - view_offset(ny, cam.half_extents.y as int, s1);
    let f = pan_factor_milli(fast, slow);
    let px = div_trunc(drag.x * s1 * f, 1_000_000);
    let py = div_trunc(drag.y * s1 * f, 1_000_000);
    CameraState {
        translation: Vec2i {
            x: clamp_spec(tx - px, -CAMERA_LIMIT as int, CAMERA_LIMIT as int) as i64,
            y: clamp_spec(ty + py, -CAMERA_LIMIT as int, CAMERA_LIMIT as int) as i64,
        },
        scale_milli: s1 as i64,
        half_extents: cam.half_extents,
    }
}

/// One zoom-and-pan tick.  With neither scroll nor drag the tick is a no-op;
/// any actual input needs the cursor, whose world point anchors the zoom.
/// The drag moves the view against the drag direction on the horizontal axis
/// and with it on the vertical one.
pub fn zoom_and_pan(
    cam: &mut CameraState,
    window: WindowSize,
    cursor: Option<Vec2i>,
    scroll_milli: i64,
    drag: Vec2i,
    fast: bool,
    slow: bool,
) -> (r: Result<(), TickError>)
    requires
        old(cam).well_formed(),
        window.valid(),
        -SCROLL_LIMIT <= scroll_milli <= SCROLL_LIMIT,
        drag.in_bounds(DRAG_LIMIT as int),
    ensures
        final(cam).well_formed(),
        scroll_milli == 0 && drag.x == 0 && drag.y == 0 ==> r is Ok && *final(cam) == *old(cam),
        !(scroll_milli == 0 && drag.x == 0 && drag.y == 0) ==> {
            if cursor is Some && 0 <= cursor.unwrap().x <= window.width && 0 <= cursor.unwrap().y
                <= window.height {
                r is Ok && *final(cam) == zoom_pan_result(
                    *old(cam),
                    window,
                    cursor.unwrap(),
                    scroll_milli as int,
                    drag,
                    fast,
                    slow,
                )
            } else {
                r == Err::<(), TickError>(TickError::CursorOutsideWindow) && *final(cam) == *old(
                    cam,
                )
            }
        },
{
    if scroll_milli == 0 && drag.x == 0 && drag.y == 0 {
        return Ok(());
    }
    let c = match cursor {
        None => {
            return Err(TickError::CursorOutsideWindow);
        },
        Some(c) => c,
    };
    if !(0 <= c.x && c.x <= window.width && 0 <= c.y && c.y <= window.height) {
        return Err(TickError::CursorOutsideWindow);
    }
    let nx = ndc_of(c.x, window.width);
    let ny = ndc_of(c.y, window.height);
    let ax = view_offset_of(nx, cam.half_extents.x, cam.scale_milli);
    let ay = view_offset_of(ny, cam.half_extents.y, cam.scale_milli);
    proof {
        assert(-500_000_000 <= ZOOM_SPEED_MILLI * scroll_milli <= 500_000_000)
            by (nonlinear_arith)
            requires -1_000_000 <= scroll_milli <= 1_000_000;
        assert(-50_000_000_000_000 <= ZOOM_SPEED_MILLI * scroll_milli * cam.scale_milli
            <= 50_000_000_000_000) by (nonlinear_arith)
            requires
                -500_000_000 <= ZOOM_SPEED_MILLI * scroll_milli <= 500_000_000,
                0 < cam.scale_milli <= 100_000;
        lemma_div_trunc_le(
            ZOOM_SPEED_MILLI * scroll_milli * cam.scale_milli as int,
            1_000_000,
            50_000_000,
        );
    }
    let dec: i64 = mul3_div_trunc(ZOOM_SPEED_MILLI, scroll_milli, cam.scale_milli, 1_000_000);
    let s1: i64 = clamp_i64(cam.scale_milli - dec, MIN_ZOOM_MILLI, MAX_ZOOM_MILLI);
    let bx = view_offset_of(nx, cam.half_extents.x, s1);
    let by = view_offset_of(ny, cam.half_extents.y, s1);
    let tx: i64 = cam.translation.x + ax - bx;
    let ty: i64 = cam.translation.y + ay - by;
    let f: i64 = if fast {
        PAN_SPEED_MILLI + PAN_FAST_MODIFIER_MILLI
    } else if slow {
        PAN_SPEED_MILLI + PAN_SLOW_MODIFIER_MILLI
    } else {
        PAN_SPEED_MILLI
    };
    proof {
        assert(-100_000_000_000 <= drag.x * s1 <= 100_000_000_000) by (nonlinear_arith)
            requires -1_000_000 <= drag.x <= 1_000_000, 0 < s1 <= 100_000;
        assert(-100_000_000_000 <= drag.y * s1 <= 100_000_000_000) by (nonlinear_arith)
            requires -1_000_000 <= drag.y <= 1_000_000, 0 < s1 <= 100_000;
        assert(-134_000_000_000_000 <= drag.x * s1 * f <= 134_000_000_000_000)
            by (nonlinear_arith)
            requires -100_000_000_000 <= drag.x * s1 <= 100_000_000_000, 0 < f <= 1_340;
        assert(-134_000_000_000_000 <= drag.y * s1 * f <= 134_000_000_000_000)
            by (nonlinear_arith)
            requires -100_000_000_000 <= drag.y * s1 <= 100_000_000_000, 0 < f <= 1_340;
        lemma_div_trunc_le(drag.x * s1 * f as int, 1_000_000, 134_000_000);
        lemma_div_trunc_le(drag.y * s1 * f as int, 1_000_000, 134_000_000);
    }
    let px: i64 = mul3_div_trunc(drag.x, s1, f, 1_000_000);
    let py: i64 = mul3_div_trunc(drag.y, s1, f, 1_000_000);
    cam.scale_milli = s1;
    cam.translation = Vec2i {
        x: clamp_i64(tx - px, -CAMERA_LIMIT, CAMERA_LIMIT),
        y: clamp_i64(ty + py, -CAMERA_LIMIT, CAMERA_LIMIT),
    };
    Ok(())
}

/// The camera after one keyboard-move tick: the direction, scaled by the
/// move speed and the tick duration, added to the translation, which stays
/// in the camera's travel box.
pub open spec fn moved_translation(cam: CameraState, dir_milli: Vec2i, dt_millis: int) -> Vec2i {
    Vec2i {
        x: clamp_spec(
            cam.translation.x + div_trunc(dir_milli.x * CAMERA_MOVE_SPEED * dt_millis, 1_000_000),
            -CAMERA_LIMIT as int,
            CAMERA_LIMIT as int,
        ) as i64,
        y: clamp_spec(
            cam.translation.y + div_trunc(dir_milli.y * CAMERA_MOVE_SPEED * dt_millis, 1_000_000),
            -CAMERA_LIMIT as int,
            CAMERA_LIMIT as int,
        ) as i64,
    }
}

/// One keyboard-move tick: no direction, no movement; otherwise the camera
/// translates along the direction by the move speed over the tick.
pub fn translate_camera(cam: &mut CameraState, dir_milli: Option<Vec2i>, dt_millis: i64)
    requires
        old(cam).well_formed(),
        dir_milli is Some ==> dir_milli.unwrap().in_bounds(1_000),
        0 <= dt_millis <= TICK_MILLIS_LIMIT,
    ensures
        final(cam).well_formed(),
        dir_milli is None ==> *final(cam) == *old(cam),
        dir_milli is Some ==> *final(cam) == (CameraState {
            translation: moved_translation(*old(cam), dir_milli.unwrap(), dt_millis as int),
            ..*old(cam)
        }),
{
    let dir = match dir_milli {
        None => {
            return ;
        },
        Some(d) => d,
    };
    proof {
        assert(-1_500_000 <= dir.x * CAMERA_MOVE_SPEED <= 1_500_000) by (nonlinear_arith)
            requires -1_000 <= dir.x <= 1_000;
        assert(-1_500_000 <= dir.y * CAMERA_MOVE_SPEED <= 1_500_000) by (nonlinear_arith)
            requires -1_000 <= dir.y <= 1_000;
        assert(-90_000_000_000 <= dir.x * CAMERA_MOVE_SPEED * dt_millis <= 90_000_000_000)
            by (nonlinear_arith)
            requires
                -1_500_000 <= dir.x * CAMERA_MOVE_SPEED <= 1_500_000,
                0 <= dt_millis <= 60_000;
        assert(-90_000_000_000 <= dir.y * CAMERA_MOVE_SPEED * dt_millis <= 90_000_000_000)
            by (nonlinear_arith)
            requires
                -1_500_000 <= dir.y * CAMERA_MOVE_SPEED <= 1_500_000,
                0 <= dt_millis <= 60_000;
        lemma_div_trunc_le(dir.x * CAMERA_MOVE_SPEED * dt_millis as int, 1_000_000, 90_000);
        lemma_div_trunc_le(dir.y * CAMERA_MOVE_SPEED * dt_millis as int, 1_000_000, 90_000);
    }
    let mx: i64 = mul3_div_trunc(dir.x, CAMERA_MOVE_SPEED, dt_millis, 1_000_000);
    let my: i64 = mul3_div_trunc(dir.y, CAMERA_MOVE_SPEED, dt_millis, 1_000_000);
    cam.translation = Vec2i {
        x: clamp_i64(cam.translation.x + mx, -CAMERA_LIMIT, CAMERA_LIMIT),
        y: clamp_i64(cam.translation.y + my, -CAMERA_LIMIT, CAMERA_LIMIT),
    };
}

/// Zooming never moves the world point under the cursor, as long as the
/// corrected translation needs no clamping to stay in the camera's travel
/// box: the anchor property of the zoom.
pub proof fn lemma_zoom_keeps_cursor_point(
    cam: CameraState,
    window: WindowSize,
    cursor: Vec2i,
    scroll_milli: int,
)
    requires
        cam.well_formed(),
        window.valid(),
        ({
            let c1 = zoom_pan_result(cam, window, cursor, scroll_milli, Vec2i { x: 0, y: 0 },
                false, false);
            let nx = ndc_milli(cursor.x as int, window.width as int);
            let ny = ndc_milli(cursor.y as int, window.height as int);
            let ax = cam.translation.x + view_offset(nx, cam.half_extents.x as int,
                cam.scale_milli as int);
            let ay = cam.translation.y + view_offset(ny, cam.half_extents.y as int,
                cam.scale_milli as int);
            &&& -CAMERA_LIMIT <= ax - view_offset(nx, cam.half_extents.x as int,
                c1.scale_milli as int) <= CAMERA_LIMIT
            &&& -CAMERA_LIMIT <= ay - view_offset(ny, cam.half_extents.y as int,
                c1.scale_milli as int) <= CAMERA_LIMIT
        }),
    ensures
        ({
            let c1 = zoom_pan_result(cam, window, cursor, scroll_milli, Vec2i { x: 0, y: 0 },
                false, false);
            let nx = ndc_milli(cursor.x as int, window.width as int);
            let ny = ndc_milli(cursor.y as int, window.height as int);
            world_at(c1, nx, ny) == world_at(cam, nx, ny)
        }),
{
    vstd::arithmetic::div_mod::lemma_div_of0(1_000_000);
}

/// Zooming in and then back out by a scroll that restores the scale restores
/// the whole camera, translation included, as long as neither step's
/// corrected translation needs clamping: the zoom round-trip law.
pub proof fn lemma_zoom_round_trip(
    cam: CameraState,
    window: WindowSize,
    cursor: Vec2i,
    scroll_in: int,
    scroll_out: int,
)
    requires
        cam.well_formed(),
        window.valid(),
        ({
            let zero = Vec2i { x: 0, y: 0 };
            let c1 = zoom_pan_result(cam, window, cursor, scroll_in, zero, false, false);
            let c2 = zoom_pan_result(c1, window, cursor, scroll_out, zero, false, false);
            let nx = ndc_milli(cursor.x as int, window.width as int);
            let ny = ndc_milli(cursor.y as int, window.height as int);
            &&& c2.scale_milli == cam.scale_milli
            &&& -CAMERA_LIMIT <= cam.translation.x + view_offset(nx, cam.half_extents.x as int,
                cam.scale_milli as int) - view_offset(nx, cam.half_extents.x as int,
                c1.scale_milli as int) <= CAMERA_LIMIT
            &&& -CAMERA_LIMIT <= cam.translation.y + view_offset(ny, cam.half_extents.y as int,
                cam.scale_milli as int) - view_offset(ny, cam.half_extents.y as int,
                c1.scale_milli as int) <= CAMERA_LIMIT
            &&& -CAMERA_LIMIT <= c1.translation.x + view_offset(nx, cam.half_extents.x as int,
                c1.scale_milli as int) - view_offset(nx, cam.half_extents.x as int,
                c2.scale_milli as int) <= CAMERA_LIMIT
            &&& -CAMERA_LIMIT <= c1.translation.y + view_offset(ny, cam.half_extents.y as int,
                c1.scale_milli as int) - view_offset(ny, cam.half_extents.y as int,
                c2.scale_milli as int) <= CAMERA_LIMIT
        }),
    ensures
        ({
            let zero = Vec2i { x: 0, y: 0 };
            let c1 = zoom_pan_result(cam, window, cursor, scroll_in, zero, false, false);
            let c2 = zoom_pan_result(c1, window, cursor, scroll_out, zero, false, false);
            c2 == cam
        }),
{
    vstd::arithmetic::div_mod::lemma_div_of0(1_000_000);
}

} // verus!
