use agent_world::geom::Vec2i;
use agent_world::world::World;

#[test]
fn agent_is_member_of_surrounding_zone_only() {
    let mut w = World::new();
    let big = w.spawn_zone("big".to_string(), 1000, 1000, Vec2i::new(0, 0));
    let far = w.spawn_zone("far".to_string(), 10, 10, Vec2i::new(5000, 5000));
    let a = w.spawn_agent("john".to_string(), Vec2i::new(5, 5));
    w.update_zones();
    assert_eq!(w.membership.get(big).unwrap(), &vec![a]);
    assert_eq!(w.membership.get(far).unwrap(), &Vec::<usize>::new());
}

#[test]
fn recompute_is_idempotent_within_a_tick() {
    let mut w = World::new();
    let z1 = w.spawn_zone("one".to_string(), 1000, 1000, Vec2i::new(0, 0));
    let z2 = w.spawn_zone("two".to_string(), 200, 100, Vec2i::new(400, 0));
    w.spawn_agent("a".to_string(), Vec2i::new(5, 5));
    w.spawn_agent("b".to_string(), Vec2i::new(450, 10));
    w.spawn_agent("c".to_string(), Vec2i::new(9000, 9000));
    w.update_zones();
    let first: Vec<(usize, Vec<usize>)> = snapshot(&w);
    w.update_zones();
    let second: Vec<(usize, Vec<usize>)> = snapshot(&w);
    assert_eq!(first, second);
    assert_eq!(first.len(), 2);
    assert_eq!(first[0].0, z1);
    assert_eq!(first[1].0, z2);
}

fn snapshot(w: &World) -> Vec<(usize, Vec<usize>)> {
    let mut out = Vec::new();
    let n = w.membership.len();
    for j in 0..n {
        out.push((w.membership.zone_at(j), w.membership.agents_at(j).clone()));
    }
    out
}

#[test]
fn zone_edges_are_inclusive() {
    let mut w = World::new();
    let on_edge = w.spawn_zone("edge".to_string(), 1000, 1000, Vec2i::new(505, 5));
    let past_edge = w.spawn_zone("past".to_string(), 1000, 1000, Vec2i::new(506, 5));
    let a = w.spawn_agent("john".to_string(), Vec2i::new(5, 5));
    w.update_zones();
    assert_eq!(w.membership.get(on_edge).unwrap(), &vec![a]);
    assert!(w.membership.get(past_edge).unwrap().is_empty());
}

#[test]
fn horizontal_test_uses_height_and_vertical_uses_width() {
    let mut w = World::new();
    // tall-but-narrow numbers: height 1000 bounds the horizontal test,
    // width 10 bounds the vertical one
    let beside = w.spawn_zone("beside".to_string(), 10, 1000, Vec2i::new(505, 5));
    let above = w.spawn_zone("above".to_string(), 10, 1000, Vec2i::new(5, 505));
    let a = w.spawn_agent("john".to_string(), Vec2i::new(5, 5));
    w.update_zones();
    assert_eq!(w.membership.get(beside).unwrap(), &vec![a]);
    assert!(w.membership.get(above).unwrap().is_empty());
}

#[test]
fn spawned_zone_gets_an_empty_entry_at_once() {
    let mut w = World::new();
    let z = w.spawn_zone("fresh".to_string(), 100, 100, Vec2i::new(0, 0));
    assert_eq!(w.membership.get(z).unwrap(), &Vec::<usize>::new());
}

#[test]
fn despawned_zone_is_pruned_on_recompute() {
    let mut w = World::new();
    let z = w.spawn_zone("gone".to_string(), 100, 100, Vec2i::new(0, 0));
    assert!(w.membership.get(z).is_some());
    w.despawn(z);
    w.update_zones();
    assert!(w.membership.get(z).is_none());
    assert_eq!(w.membership.len(), 0);
}

#[test]
fn membership_lists_agents_in_handle_order_without_duplicates() {
    let mut w = World::new();
    let a1 = w.spawn_agent("a1".to_string(), Vec2i::new(0, 0));
    let z = w.spawn_zone("zone".to_string(), 1000, 1000, Vec2i::new(0, 0));
    let a2 = w.spawn_agent("a2".to_string(), Vec2i::new(10, 10));
    w.update_zones();
    w.update_zones();
    // a full recompute never accumulates: each agent appears once
    assert_eq!(w.membership.get(z).unwrap(), &vec![a1, a2]);
}
