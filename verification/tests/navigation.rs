use agent_world::geom::Vec2i;
use agent_world::ui::set_agent_destination;
use agent_world::world::World;

#[test]
fn heading_faces_destination_from_pre_step_position() {
    let mut w = World::new();
    let h = w.spawn_agent("john".to_string(), Vec2i::new(0, 0));
    set_agent_destination(&mut w, h, Some(Vec2i::new(100, 0))).unwrap();
    w.update_agents(10);
    let t = w.transforms[h].unwrap();
    assert_eq!(t.heading, Vec2i::new(100, 0));
    assert_eq!(t.translation, Vec2i::new(10, 0));
}

#[test]
fn heading_matches_atan2_of_pre_step_difference() {
    let mut w = World::new();
    let h = w.spawn_agent("ada".to_string(), Vec2i::new(0, 0));
    set_agent_destination(&mut w, h, Some(Vec2i::new(30, 40))).unwrap();
    w.update_agents(10);
    let t = w.transforms[h].unwrap();
    assert_eq!(t.heading, Vec2i::new(30, 40));
    let expected = (40f32).atan2(30f32);
    let got = (t.heading.y as f32).atan2(t.heading.x as f32);
    assert!((expected - got).abs() < 1e-6);
}

#[test]
fn diagonal_step_scales_displacement_by_distance() {
    let mut w = World::new();
    let h = w.spawn_agent("ada".to_string(), Vec2i::new(0, 0));
    set_agent_destination(&mut w, h, Some(Vec2i::new(30, 40))).unwrap();
    w.update_agents(10);
    // distance is 50, so a step of 10 covers (10*30/50, 10*40/50).
    assert_eq!(w.transforms[h].unwrap().translation, Vec2i::new(6, 8));
}

#[test]
fn agent_in_tolerance_box_arrives_in_one_tick() {
    let mut w = World::new();
    let h = w.spawn_agent("john".to_string(), Vec2i::new(100, 5));
    set_agent_destination(&mut w, h, Some(Vec2i::new(100, 0))).unwrap();
    // distance 5, step 5: no overshoot, and the agent started inside the
    // 10-unit tolerance box, so the destination is cleared.
    w.update_agents(5);
    assert_eq!(w.agents[h].as_ref().unwrap().destination, None);
    assert_eq!(w.transforms[h].unwrap().translation, Vec2i::new(100, 0));
}

#[test]
fn idle_agent_does_not_move() {
    let mut w = World::new();
    let h = w.spawn_agent("idle".to_string(), Vec2i::new(7, -3));
    w.update_agents(1000);
    assert_eq!(w.transforms[h].unwrap().translation, Vec2i::new(7, -3));
    assert!(w.agents[h].as_ref().unwrap().destination.is_none());
}

#[test]
fn marker_count_equals_distinct_destinations() {
    let mut w = World::new();
    let a1 = w.spawn_agent("a1".to_string(), Vec2i::new(0, 0));
    let a2 = w.spawn_agent("a2".to_string(), Vec2i::new(10, 0));
    let a3 = w.spawn_agent("a3".to_string(), Vec2i::new(20, 0));
    set_agent_destination(&mut w, a1, Some(Vec2i::new(1000, 0))).unwrap();
    set_agent_destination(&mut w, a2, Some(Vec2i::new(1000, 0))).unwrap();
    set_agent_destination(&mut w, a3, Some(Vec2i::new(2000, 0))).unwrap();
    w.update_agents(1);
    // two distinct destination coordinates, so exactly two markers
    assert_eq!(w.markers.len(), 2);
    let positions: Vec<Vec2i> = w.markers.iter().map(|m| m.position).collect();
    assert!(positions.contains(&Vec2i::new(1000, 0)));
    assert!(positions.contains(&Vec2i::new(2000, 0)));
}

#[test]
fn nearby_destinations_are_not_merged() {
    let mut w = World::new();
    let a1 = w.spawn_agent("a1".to_string(), Vec2i::new(0, 0));
    let a2 = w.spawn_agent("a2".to_string(), Vec2i::new(10, 0));
    set_agent_destination(&mut w, a1, Some(Vec2i::new(1000, 0))).unwrap();
    set_agent_destination(&mut w, a2, Some(Vec2i::new(1000, 1))).unwrap();
    w.update_agents(1);
    // dedup is by exact coordinate equality, so these stay two markers
    assert_eq!(w.markers.len(), 2);
}

#[test]
fn arrival_scenario_marker_despawns_next_tick() {
    let mut w = World::new();
    let h = w.spawn_agent("john".to_string(), Vec2i::new(0, 0));
    set_agent_destination(&mut w, h, Some(Vec2i::new(100, 0))).unwrap();
    // a step long enough to cover the whole distance along x
    w.update_agents(100);
    assert_eq!(w.transforms[h].unwrap().translation, Vec2i::new(100, 0));
    assert_eq!(w.agents[h].as_ref().unwrap().destination, None);
    // the marker survives the arrival tick ...
    assert_eq!(w.markers.len(), 1);
    assert_eq!(w.markers[0].position, Vec2i::new(100, 0));
    // ... and is despawned on the next tick, when no agent holds it
    w.update_agents(100);
    assert_eq!(w.markers.len(), 0);
}

#[test]
fn overshooting_keeps_the_destination_and_turns_back() {
    let mut w = World::new();
    let h = w.spawn_agent("john".to_string(), Vec2i::new(0, 0));
    set_agent_destination(&mut w, h, Some(Vec2i::new(100, 0))).unwrap();
    // a 150-unit step shoots 50 units past the 10-unit tolerance box
    w.update_agents(150);
    assert_eq!(w.transforms[h].unwrap().translation, Vec2i::new(150, 0));
    assert_eq!(w.agents[h].as_ref().unwrap().destination, Some(Vec2i::new(100, 0)));
    // the next tick faces back toward the destination
    w.update_agents(10);
    assert_eq!(w.transforms[h].unwrap().heading, Vec2i::new(-50, 0));
    assert_eq!(w.transforms[h].unwrap().translation, Vec2i::new(140, 0));
}

#[test]
fn zero_distance_destination_clears_without_moving() {
    let mut w = World::new();
    let h = w.spawn_agent("john".to_string(), Vec2i::new(42, 7));
    set_agent_destination(&mut w, h, Some(Vec2i::new(42, 7))).unwrap();
    w.update_agents(1000);
    assert_eq!(w.transforms[h].unwrap().translation, Vec2i::new(42, 7));
    assert_eq!(w.agents[h].as_ref().unwrap().destination, None);
}

#[test]
fn despawned_slots_are_skipped_by_the_tick() {
    let mut w = World::new();
    let gone = w.spawn_agent("gone".to_string(), Vec2i::new(0, 0));
    let kept = w.spawn_agent("kept".to_string(), Vec2i::new(0, 0));
    set_agent_destination(&mut w, gone, Some(Vec2i::new(100, 0))).unwrap();
    set_agent_destination(&mut w, kept, Some(Vec2i::new(200, 0))).unwrap();
    w.despawn(gone);
    w.update_agents(10);
    assert!(w.agents[gone].is_none());
    assert!(w.transforms[gone].is_none());
    assert_eq!(w.transforms[kept].unwrap().translation, Vec2i::new(10, 0));
    // only the live agent's destination got a marker
    assert_eq!(w.markers.len(), 1);
    assert_eq!(w.markers[0].position, Vec2i::new(200, 0));
}

#[test]
fn step_length_scales_with_tick_duration() {
    // 1000 world units per second: a 16 ms tick covers 16 units
    assert_eq!(agent_world::agent::step_length_for_millis(16), 16);
    assert_eq!(agent_world::agent::step_length_for_millis(0), 0);
    // a very long tick is capped at the per-tick step limit
    assert_eq!(
        agent_world::agent::step_length_for_millis(60_000),
        agent_world::geom::STEP_LIMIT.min(60_000)
    );
}
