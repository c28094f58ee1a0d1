use agent_world::camera::{
    screen_to_world, translate_camera, zoom_and_pan, CameraState, WindowSize, CAMERA_LIMIT,
    MAX_ZOOM_MILLI, MIN_ZOOM_MILLI,
};
use agent_world::errors::TickError;
use agent_world::geom::Vec2i;

fn cam(tx: i64, ty: i64, scale_milli: i64) -> CameraState {
    CameraState {
        translation: Vec2i::new(tx, ty),
        scale_milli,
        half_extents: Vec2i::new(400, 300),
    }
}

const WIN: WindowSize = WindowSize { width: 800, height: 600 };

#[test]
fn center_cursor_projects_to_camera_translation() {
    let c = cam(25, -40, 1000);
    let p = screen_to_world(&c, WIN, Some(Vec2i::new(400, 300))).unwrap();
    assert_eq!(p, Vec2i::new(25, -40));
}

#[test]
fn off_center_cursor_projects_through_extents_and_scale() {
    let c = cam(0, 0, 1000);
    // cursor at (600, 300): a quarter of the way right of center, so the
    // world point sits at half of the right half-extent: 200 units
    let p = screen_to_world(&c, WIN, Some(Vec2i::new(600, 300))).unwrap();
    assert_eq!(p, Vec2i::new(200, 0));
    // doubling the scale doubles the offset
    let c2 = cam(0, 0, 2000);
    let p2 = screen_to_world(&c2, WIN, Some(Vec2i::new(600, 300))).unwrap();
    assert_eq!(p2, Vec2i::new(400, 0));
}

#[test]
fn cursor_outside_window_is_reported() {
    let c = cam(0, 0, 1000);
    assert_eq!(
        screen_to_world(&c, WIN, Some(Vec2i::new(801, 300))),
        Err(TickError::CursorOutsideWindow)
    );
    assert_eq!(
        screen_to_world(&c, WIN, Some(Vec2i::new(400, -1))),
        Err(TickError::CursorOutsideWindow)
    );
    assert_eq!(screen_to_world(&c, WIN, None), Err(TickError::CursorOutsideWindow));
}

#[test]
fn zoom_scale_follows_the_formula() {
    let mut c = cam(0, 0, 4000);
    // scroll of -0.5 lines: the scale grows by 500 * 500 * 4000 / 1e6 = 1000
    zoom_and_pan(&mut c, WIN, Some(Vec2i::new(400, 300)), -500, Vec2i::new(0, 0), false, false)
        .unwrap();
    assert_eq!(c.scale_milli, 5000);
}

#[test]
fn zoom_scale_clamps_at_both_ends() {
    let mut c = cam(0, 0, MIN_ZOOM_MILLI);
    zoom_and_pan(&mut c, WIN, Some(Vec2i::new(400, 300)), 1_000_000, Vec2i::new(0, 0), false,
        false)
        .unwrap();
    assert_eq!(c.scale_milli, MIN_ZOOM_MILLI);
    let mut c = cam(0, 0, 99_000);
    zoom_and_pan(&mut c, WIN, Some(Vec2i::new(400, 300)), -1_000_000, Vec2i::new(0, 0), false,
        false)
        .unwrap();
    assert_eq!(c.scale_milli, MAX_ZOOM_MILLI);
}

#[test]
fn zoom_round_trip_restores_scale_and_translation() {
    let original = cam(100, 50, 4000);
    let mut c = original;
    let cursor = Some(Vec2i::new(600, 300));
    // zoom out: scale 4000 -> 5000
    zoom_and_pan(&mut c, WIN, cursor, -500, Vec2i::new(0, 0), false, false).unwrap();
    assert_eq!(c.scale_milli, 5000);
    assert_ne!(c.translation, original.translation);
    // the reciprocal scroll: scale 5000 -> 4000, translation restored
    zoom_and_pan(&mut c, WIN, cursor, 400, Vec2i::new(0, 0), false, false).unwrap();
    assert_eq!(c, original);
}

#[test]
fn zoom_keeps_world_point_under_cursor() {
    let mut c = cam(100, 50, 4000);
    let cursor = Vec2i::new(600, 300);
    let before = screen_to_world(&c, WIN, Some(cursor)).unwrap();
    zoom_and_pan(&mut c, WIN, Some(cursor), -500, Vec2i::new(0, 0), false, false).unwrap();
    let after = screen_to_world(&c, WIN, Some(cursor)).unwrap();
    assert_eq!(before, after);
}

#[test]
fn pan_moves_against_drag_on_x_and_with_it_on_y() {
    let mut c = cam(0, 0, 2000);
    // drag (10, 20) at scale 2.0 and base speed 0.54:
    // x offset trunc(10.8) = 10, y offset trunc(21.6) = 21
    zoom_and_pan(&mut c, WIN, Some(Vec2i::new(400, 300)), 0, Vec2i::new(10, 20), false, false)
        .unwrap();
    assert_eq!(c.translation, Vec2i::new(-10, 21));
}

#[test]
fn pan_modifiers_speed_up_and_slow_down() {
    let mut fast = cam(0, 0, 2000);
    zoom_and_pan(&mut fast, WIN, Some(Vec2i::new(400, 300)), 0, Vec2i::new(10, 20), true, false)
        .unwrap();
    // factor 0.54 + 0.8 = 1.34: offsets trunc(26.8), trunc(53.6)
    assert_eq!(fast.translation, Vec2i::new(-26, 53));
    let mut slow = cam(0, 0, 2000);
    zoom_and_pan(&mut slow, WIN, Some(Vec2i::new(400, 300)), 0, Vec2i::new(10, 20), false, true)
        .unwrap();
    // factor 0.54 - 0.3 = 0.24: offsets trunc(4.8), trunc(9.6)
    assert_eq!(slow.translation, Vec2i::new(-4, 9));
    // the speed-up key wins when both are held
    let mut both = cam(0, 0, 2000);
    zoom_and_pan(&mut both, WIN, Some(Vec2i::new(400, 300)), 0, Vec2i::new(10, 20), true, true)
        .unwrap();
    assert_eq!(both.translation, fast.translation);
}

#[test]
fn zoom_without_input_is_a_no_op_and_needs_no_cursor() {
    let original = cam(3, 4, 2000);
    let mut c = original;
    zoom_and_pan(&mut c, WIN, None, 0, Vec2i::new(0, 0), false, false).unwrap();
    assert_eq!(c, original);
}

#[test]
fn zoom_with_input_but_no_cursor_skips_the_tick() {
    let original = cam(3, 4, 2000);
    let mut c = original;
    let r = zoom_and_pan(&mut c, WIN, None, 500, Vec2i::new(0, 0), false, false);
    assert_eq!(r, Err(TickError::CursorOutsideWindow));
    assert_eq!(c, original);
}

#[test]
fn camera_translation_stops_at_the_travel_box() {
    let mut c = cam(CAMERA_LIMIT - 10, 0, 2000);
    translate_camera(&mut c, Some(Vec2i::new(1000, 0)), 100);
    assert_eq!(c.translation, Vec2i::new(CAMERA_LIMIT, 0));
}

#[test]
fn keyboard_move_scales_direction_by_speed_and_time() {
    let mut c = cam(0, 0, 2000);
    // full-right, half-down direction for 100 ms at 1500 units/s
    translate_camera(&mut c, Some(Vec2i::new(1000, -500)), 100);
    assert_eq!(c.translation, Vec2i::new(150, -75));
    // no direction: no movement
    translate_camera(&mut c, None, 100);
    assert_eq!(c.translation, Vec2i::new(150, -75));
}
