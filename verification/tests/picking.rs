use agent_world::camera::{CameraState, WindowSize};
use agent_world::errors::TickError;
use agent_world::geom::Vec2i;
use agent_world::ui::{agent_panels, reset_agent_position, set_agent_destination,
    set_agent_position};
use agent_world::world::World;

fn center_click_setup() -> (CameraState, WindowSize, Vec2i) {
    let cam = CameraState {
        translation: Vec2i::new(0, 0),
        scale_milli: 1000,
        half_extents: Vec2i::new(400, 300),
    };
    let win = WindowSize { width: 800, height: 600 };
    // the window center projects to the camera translation, here the origin
    (cam, win, Vec2i::new(400, 300))
}

#[test]
fn click_selects_every_agent_whose_box_contains_the_point() {
    let (cam, win, cursor) = center_click_setup();
    let mut w = World::new();
    let on_edge = w.spawn_agent("edge".to_string(), Vec2i::new(150, 0));
    let outside = w.spawn_agent("out".to_string(), Vec2i::new(151, 0));
    let below = w.spawn_agent("below".to_string(), Vec2i::new(0, -150));
    let r = w.handle_click(Some(&cam), Some(win), Some(cursor), true, false);
    assert_eq!(r, Ok(Some(Vec2i::new(0, 0))));
    // the 300-unit click box is inclusive at its edges
    assert_eq!(w.selection.agents, vec![on_edge, below]);
    assert_eq!(w.agents[on_edge].as_ref().unwrap().destination, Some(Vec2i::new(0, 0)));
    assert_eq!(w.agents[below].as_ref().unwrap().destination, Some(Vec2i::new(0, 0)));
    assert_eq!(w.agents[outside].as_ref().unwrap().destination, None);
}

#[test]
fn repeated_click_does_not_duplicate_selection() {
    let (cam, win, cursor) = center_click_setup();
    let mut w = World::new();
    let a = w.spawn_agent("a".to_string(), Vec2i::new(0, 0));
    w.handle_click(Some(&cam), Some(win), Some(cursor), true, false).unwrap();
    w.handle_click(Some(&cam), Some(win), Some(cursor), true, false).unwrap();
    assert_eq!(w.selection.agents, vec![a]);
}

#[test]
fn overlay_claim_blocks_destinations_but_not_selection() {
    let (cam, win, cursor) = center_click_setup();
    let mut w = World::new();
    let a = w.spawn_agent("a".to_string(), Vec2i::new(0, 0));
    w.handle_click(Some(&cam), Some(win), Some(cursor), true, true).unwrap();
    assert_eq!(w.agents[a].as_ref().unwrap().destination, None);
    assert_eq!(w.selection.agents, vec![a]);
}

#[test]
fn click_error_kinds_follow_the_missing_piece() {
    let (cam, win, cursor) = center_click_setup();
    let mut w = World::new();
    w.spawn_agent("a".to_string(), Vec2i::new(0, 0));
    assert_eq!(
        w.handle_click(Some(&cam), None, Some(cursor), true, false),
        Err(TickError::NoActiveWindow)
    );
    assert_eq!(w.handle_click(Some(&cam), Some(win), Some(cursor), false, false), Ok(None));
    assert_eq!(
        w.handle_click(None, Some(win), Some(cursor), true, false),
        Err(TickError::NoCameraFound)
    );
    assert_eq!(
        w.handle_click(Some(&cam), Some(win), None, true, false),
        Err(TickError::CursorOutsideWindow)
    );
    assert_eq!(
        w.handle_click(Some(&cam), Some(win), Some(Vec2i::new(900, 300)), true, false),
        Err(TickError::CursorOutsideWindow)
    );
    // none of the failing calls changed anything
    assert!(w.selection.agents.is_empty());
}

#[test]
fn panels_snapshot_selected_agents() {
    let (cam, win, cursor) = center_click_setup();
    let mut w = World::new();
    let a = w.spawn_agent("john".to_string(), Vec2i::new(10, 20));
    set_agent_position(&mut w, a, Vec2i::new(10, 20)).unwrap();
    w.handle_click(Some(&cam), Some(win), Some(cursor), true, true).unwrap();
    let panels = agent_panels(&w).unwrap();
    assert_eq!(panels.len(), 1);
    assert_eq!(panels[0].handle, a);
    assert_eq!(panels[0].name, "john");
    assert_eq!(panels[0].position, Vec2i::new(10, 20));
    assert_eq!(panels[0].destination, None);
}

#[test]
fn stale_selected_handle_fails_the_snapshot() {
    let (cam, win, cursor) = center_click_setup();
    let mut w = World::new();
    let a = w.spawn_agent("john".to_string(), Vec2i::new(0, 0));
    w.handle_click(Some(&cam), Some(win), Some(cursor), true, true).unwrap();
    w.despawn(a);
    assert!(matches!(agent_panels(&w), Err(TickError::StaleHandle)));
}

#[test]
fn edits_through_stale_handles_are_rejected() {
    let mut w = World::new();
    let a = w.spawn_agent("john".to_string(), Vec2i::new(0, 0));
    w.despawn(a);
    assert_eq!(set_agent_position(&mut w, a, Vec2i::new(5, 5)), Err(TickError::StaleHandle));
    assert_eq!(
        set_agent_destination(&mut w, a, Some(Vec2i::new(5, 5))),
        Err(TickError::StaleHandle)
    );
    assert_eq!(reset_agent_position(&mut w, a), Err(TickError::StaleHandle));
    // an out-of-range handle is stale too
    assert_eq!(set_agent_position(&mut w, 99, Vec2i::new(5, 5)), Err(TickError::StaleHandle));
}

#[test]
fn position_edits_apply_and_reset_returns_to_spawn_point() {
    let mut w = World::new();
    let a = w.spawn_agent("john".to_string(), Vec2i::new(0, 0));
    set_agent_position(&mut w, a, Vec2i::new(77, -8)).unwrap();
    assert_eq!(w.transforms[a].unwrap().translation, Vec2i::new(77, -8));
    reset_agent_position(&mut w, a).unwrap();
    assert_eq!(w.transforms[a].unwrap().translation, Vec2i::new(1, 1));
}

#[test]
fn destination_edit_toggles_navigation() {
    let mut w = World::new();
    let a = w.spawn_agent("john".to_string(), Vec2i::new(0, 0));
    set_agent_destination(&mut w, a, Some(Vec2i::new(10, 10))).unwrap();
    assert_eq!(w.agents[a].as_ref().unwrap().destination, Some(Vec2i::new(10, 10)));
    set_agent_destination(&mut w, a, None).unwrap();
    assert_eq!(w.agents[a].as_ref().unwrap().destination, None);
}
