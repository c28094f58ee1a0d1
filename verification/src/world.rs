//! The world arena: one handle space for agents, zones and their spatial
//! records, plus the per-tick systems that steer agents, keep destination
//! markers, rebuild zone membership and route clicks.

use vstd::prelude::*;
use crate::agent::{
    arrives, dist_sq, lemma_tolerance_step_arrives, step_agent, step_displacement, Agent,
    DestinationMarker, Transform, ARRIVE_HALF_EXTENT,
};
use crate::camera::{projected_point, screen_to_world, CameraState, WindowSize};
use crate::errors::TickError;
use crate::geom::{box_contains, box_contains_point, insert_new_point, Vec2i, STEP_LIMIT,
    WORLD_LIMIT};
use crate::ui::UiStates;
use crate::zone::{zone_contains, zone_contains_point, AgentZoneMapping, Zone, ZONE_LIMIT};

verus! {

/// Half-extent of the generous click box around an agent, used both to hand
/// out a destination and to select for detail view; edges count as hits.
pub const SELECT_HALF_EXTENT: i64 = 150;

/// All mutable state of a session: spatial records and entities keyed by one
/// handle space (a despawned slot stays as a hole), the destination markers,
/// the detail-view selection and the zone membership mapping.
#[derive(Debug)]
pub struct World {
    pub transforms: Vec<Option<Transform>>,
    pub agents: Vec<Option<Agent>>,
    pub zones: Vec<Option<Zone>>,
    pub markers: Vec<DestinationMarker>,
    pub selection: UiStates,
    pub membership: AgentZoneMapping,
}

/// Handle `i` names a live agent.
pub open spec fn live_agent(w: World, i: int) -> bool {
    0 <= i < w.agents@.len() && w.agents@[i] is Some
}

/// Handle `i` names a live zone.
pub open spec fn live_zone(w: World, i: int) -> bool {
    0 <= i < w.zones@.len() && w.zones@[i] is Some
}

/// The spatial record of handle `i`.
pub open spec fn transform_at(w: World, i: int) -> Transform {
    w.transforms@[i].unwrap()
}

/// The positions of the markers, in marker order.
pub open spec fn marker_positions(w: World) -> Seq<Vec2i> {
    w.markers@.map_values(|m: DestinationMarker| m.position)
}

/// Some live agent with a handle below `n` is navigating to exactly `p`.
pub open spec fn active_destination_below(w: World, p: Vec2i, n: int) -> bool {
    exists|i: int|
        0 <= i < n && live_agent(w, i) && #[trigger] w.agents@[i].unwrap().destination == Some(p)
}

/// Some live agent is navigating to exactly the point `p`.
pub open spec fn active_destination(w: World, p: Vec2i) -> bool {
    active_destination_below(w, p, w.agents@.len() as int)
}

/// The distinct destination points the live agents hold.
pub open spec fn active_destination_set(w: World) -> Set<Vec2i> {
    Set::new(|p: Vec2i| active_destination(w, p))
}

/// What one navigation tick leaves in a slot that held a live agent: an
/// idle agent is untouched; a navigating one faces its destination, moves
/// one step's displacement, and keeps the destination exactly unless the
/// step arrives.
pub open spec fn agent_stepped(
    a0: Agent,
    t0: Transform,
    a1: Option<Agent>,
    t1: Option<Transform>,
    step: int,
) -> bool {
    match a0.destination {
        None => a1 == Some(a0) && t1 == Some(t0),
        Some(d) => {
            let disp = step_displacement(t0.translation, d, step);
            &&& a1 is Some
            &&& t1 is Some
            &&& t1.unwrap().heading.x == d.x - t0.translation.x
            &&& t1.unwrap().heading.y == d.y - t0.translation.y
            &&& t1.unwrap().translation.x == t0.translation.x + disp.0
            &&& t1.unwrap().translation.y == t0.translation.y + disp.1
            &&& a1.unwrap().name == a0.name
            &&& a1.unwrap().destination == (if arrives(t0.translation, d, step) {
                None::<Vec2i>
            } else {
                Some(d)
            })
        },
    }
}

/// An agent already inside the arrival tolerance box of its destination,
/// stepping no further than its remaining distance, comes out of the
/// navigation tick with its destination cleared.
pub proof fn lemma_arrival_clears_destination(
    a0: Agent,
    t0: Transform,
    a1: Option<Agent>,
    t1: Option<Transform>,
    step: int,
)
    requires
        agent_stepped(a0, t0, a1, t1, step),
        a0.destination is Some,
        t0.translation.in_bounds(WORLD_LIMIT + STEP_LIMIT),
        a0.destination.unwrap().in_bounds(WORLD_LIMIT as int),
        0 <= step <= STEP_LIMIT,
        a0.destination.unwrap().x - ARRIVE_HALF_EXTENT <= t0.translation.x
            <= a0.destination.unwrap().x + ARRIVE_HALF_EXTENT,
        a0.destination.unwrap().y - ARRIVE_HALF_EXTENT <= t0.translation.y
            <= a0.destination.unwrap().y + ARRIVE_HALF_EXTENT,
        dist_sq(t0.translation, a0.destination.unwrap()) == 0 || step <= crate::geom::sqrt_floor(
            dist_sq(t0.translation, a0.destination.unwrap()),
        ),
    ensures
        a1.unwrap().destination is None,
{
    lemma_tolerance_step_arrives(t0.translation, a0.destination.unwrap(), step);
}

/// The members the recompute gives zone `z`, considering only agents with
/// handles below `n`: each live agent whose position passes the containment
/// test against the zone, in ascending handle order.
pub open spec fn zone_members_upto(
    zones: Seq<Option<Zone>>,
    transforms: Seq<Option<Transform>>,
    agents: Seq<Option<Agent>>,
    z: int,
    n: int,
) -> Seq<usize>
    decreases n,
{
    if n <= 0 {
        Seq::empty()
    } else {
        let prev = zone_members_upto(zones, transforms, agents, z, n - 1);
        let a = n - 1;
        if agents[a] is Some && zone_contains(
            zones[z].unwrap(),
            transforms[z].unwrap().translation,
            transforms[a].unwrap().translation,
        ) {
            prev.push(a as usize)
        } else {
            prev
        }
    }
}

/// The members the recompute gives zone `z`.
pub open spec fn zone_members(
    zones: Seq<Option<Zone>>,
    transforms: Seq<Option<Transform>>,
    agents: Seq<Option<Agent>>,
    z: int,
) -> Seq<usize> {
    zone_members_upto(zones, transforms, agents, z, agents.len() as int)
}

/// The rebuilt mapping, considering only zones with handles below `n`: one
/// entry per live zone, in ascending handle order, each carrying the zone's
/// members.
pub open spec fn mapping_upto(
    zones: Seq<Option<Zone>>,
    transforms: Seq<Option<Transform>>,
    agents: Seq<Option<Agent>>,
    n: int,
) -> Seq<(usize, Seq<usize>)>
    decreases n,
{
    if n <= 0 {
        Seq::empty()
    } else {
        let prev = mapping_upto(zones, transforms, agents, n - 1);
        let z = n - 1;
        if zones[z] is Some {
            prev.push((z as usize, zone_members(zones, transforms, agents, z)))
        } else {
            prev
        }
    }
}

/// The zone membership mapping rebuilt from scratch: every live zone gets an
/// entry, stale entries vanish, and each entry lists exactly the live agents
/// inside the zone.
pub open spec fn recomputed_mapping(
    zones: Seq<Option<Zone>>,
    transforms: Seq<Option<Transform>>,
    agents: Seq<Option<Agent>>,
) -> Seq<(usize, Seq<usize>)> {
    mapping_upto(zones, transforms, agents, zones.len() as int)
}

/// The mapping holds an entry for zone handle `z`.
pub open spec fn has_entry(m: Seq<(usize, Seq<usize>)>, z: usize) -> bool {
    exists|j: int| 0 <= j < m.len() && (#[trigger] m[j]).0 == z
}

/// A zone's rebuilt member list holds a handle if and only if the handle
/// names a live agent whose position passes the zone's containment test.
pub proof fn lemma_members_exactly_the_agents_inside(
    zones: Seq<Option<Zone>>,
    transforms: Seq<Option<Transform>>,
    agents: Seq<Option<Agent>>,
    z: int,
    n: int,
)
    requires
        0 <= n <= agents.len(),
        n <= usize::MAX,
    ensures
        forall|h: usize|
            #[trigger] zone_members_upto(zones, transforms, agents, z, n).contains(h) <==> ((
            h as int) < n && agents[h as int] is Some && zone_contains(
                zones[z].unwrap(),
                transforms[z].unwrap().translation,
                transforms[h as int].unwrap().translation,
            )),
    decreases n,
{
    if n > 0 {
        lemma_members_exactly_the_agents_inside(zones, transforms, agents, z, n - 1);
        let prev = zone_members_upto(zones, transforms, agents, z, n - 1);
        let a = n - 1;
        if agents[a] is Some && zone_contains(
            zones[z].unwrap(),
            transforms[z].unwrap().translation,
            transforms[a].unwrap().translation,
        ) {
            assert forall|h: usize| #[trigger]
                zone_members_upto(zones, transforms, agents, z, n).contains(h) <==> (prev.contains(
                h,
            ) || h == a as usize) by {
                vstd::seq_lib::lemma_seq_contains_after_push(prev, a as usize, h);
            }
        }
    }
}

/// The rebuilt mapping has an entry exactly for every live zone: a fresh
/// zone gets one, a despawned zone's entry is pruned.
pub proof fn lemma_mapping_covers_exactly_the_live_zones(
    zones: Seq<Option<Zone>>,
    transforms: Seq<Option<Transform>>,
    agents: Seq<Option<Agent>>,
    n: int,
)
    requires
        0 <= n <= zones.len(),
        n <= usize::MAX,
    ensures
        forall|z: usize|
            #[trigger] has_entry(mapping_upto(zones, transforms, agents, n), z) <==> ((z as int)
                < n && zones[z as int] is Some),
    decreases n,
{
    if n > 0 {
        lemma_mapping_covers_exactly_the_live_zones(zones, transforms, agents, n - 1);
        let prev = mapping_upto(zones, transforms, agents, n - 1);
        let m = mapping_upto(zones, transforms, agents, n);
        let i = n - 1;
        if zones[i] is Some {
            let e = (i as usize, zone_members(zones, transforms, agents, i));
            assert forall|z: usize| #[trigger] has_entry(m, z) implies (has_entry(prev, z) || z
                == i as usize) by {
                let j = choose|j: int| 0 <= j < m.len() && (#[trigger] m[j]).0 == z;
                if j < prev.len() {
                    assert(prev[j].0 == z);
                }
            }
            assert forall|z: usize| has_entry(prev, z) || z == i as usize implies #[trigger]
                has_entry(m, z) by {
                if has_entry(prev, z) {
                    let j = choose|j: int| 0 <= j < prev.len() && (#[trigger] prev[j]).0 == z;
                    assert(m[j].0 == z);
                } else {
                    assert(m[prev.len() as int].0 == z);
                }
            }
        } else {
            assert forall|z: usize| #[trigger] has_entry(m, z) implies has_entry(prev, z) by {
                let j = choose|j: int| 0 <= j < m.len() && (#[trigger] m[j]).0 == z;
                assert(prev[j].0 == z);
            }
            assert forall|z: usize| has_entry(prev, z) implies #[trigger] has_entry(m, z) by {
                let j = choose|j: int| 0 <= j < prev.len() && (#[trigger] prev[j]).0 == z;
                assert(m[j].0 == z);
            }
        }
    }
}

/// Recomputing zone membership twice within a tick yields the identical
/// mapping: the recompute reads only the zones, the spatial records and the
/// agents, and it changes none of them.
pub proof fn lemma_zone_recompute_idempotent(w0: World, w1: World)
    requires
        w1.zones@ == w0.zones@,
        w1.transforms@ == w0.transforms@,
        w1.agents@ == w0.agents@,
        w1.membership@ == recomputed_mapping(w0.zones@, w0.transforms@, w0.agents@),
    ensures
        recomputed_mapping(w1.zones@, w1.transforms@, w1.agents@) == w1.membership@,
{
}

/// The selection list after a click at world point `p`, considering agents
/// with handles below `n`: the previous list with every live agent whose
/// selection box contains `p`, and who is not yet listed, appended in
/// ascending handle order.
pub open spec fn selection_after_click(w: World, p: Vec2i, n: int) -> Seq<usize>
    decreases n,
{
    if n <= 0 {
        w.selection.agents@
    } else {
        let prev = selection_after_click(w, p, n - 1);
        let i = n - 1;
        if live_agent(w, i) && box_contains(
            transform_at(w, i).translation,
            SELECT_HALF_EXTENT as int,
            SELECT_HALF_EXTENT as int,
            p,
        ) && !prev.contains(i as usize) {
            prev.push(i as usize)
        } else {
            prev
        }
    }
}

/// A click at `p` selects exactly the right agents: afterwards the
/// selection holds a handle if and only if it was already selected, or it
/// names a live agent whose selection box contains `p`.
pub proof fn lemma_click_selects_exactly_the_hits(w: World, p: Vec2i, n: int)
    requires
        0 <= n <= w.agents@.len(),
        n <= usize::MAX,
    ensures
        forall|h: usize|
            #[trigger] selection_after_click(w, p, n).contains(h) <==> (w.selection.agents@.contains(
                h,
            ) || ((h as int) < n && live_agent(w, h as int) && box_contains(
                transform_at(w, h as int).translation,
                SELECT_HALF_EXTENT as int,
                SELECT_HALF_EXTENT as int,
                p,
            ))),
    decreases n,
{
    if n > 0 {
        lemma_click_selects_exactly_the_hits(w, p, n - 1);
        let prev = selection_after_click(w, p, n - 1);
        let i = n - 1;
        if live_agent(w, i) && box_contains(
            transform_at(w, i).translation,
            SELECT_HALF_EXTENT as int,
            SELECT_HALF_EXTENT as int,
            p,
        ) && !prev.contains(i as usize) {
            assert forall|h: usize| #[trigger]
                selection_after_click(w, p, n).contains(h) <==> (prev.contains(h) || h == i as usize)
            by {
                vstd::seq_lib::lemma_seq_contains_after_push(prev, i as usize, h);
            }
        }
    }
}

/// Whether a handle occurs in a list of handles.
fn contains_handle(v: &Vec<usize>, x: usize) -> (r: bool)
    ensures
        r == v@.contains(x),
{
    let n = v.len();
    let mut i: usize = 0;
    while i < n
        invariant
            i <= n,
            n == v@.len(),
            forall|j: int| 0 <= j < i ==> v@[j] != x,
        decreases n - i,
    {
        if v[i] == x {
            proof {
                assert(v@[i as int] == x);
            }
            return true;
        }
        i = i + 1;
    }
    false
}

/// One navigation tick for the pair of slots under one handle: steps the
/// agent and its spatial record exactly as `agent_stepped` states.
fn step_slots(t_slot: &mut Option<Transform>, a_slot: &mut Option<Agent>, step: i64)
    requires
        (*old(a_slot)) is Some ==> (*old(t_slot)) is Some,
        (*old(t_slot)) is Some ==> old(t_slot).unwrap().translation.in_bounds(
            WORLD_LIMIT + STEP_LIMIT,
        ),
        (*old(a_slot)) is Some && old(a_slot).unwrap().destination is Some
            ==> old(a_slot).unwrap().destination.unwrap().in_bounds(WORLD_LIMIT as int),
        0 <= step <= STEP_LIMIT,
    ensures
        (*old(a_slot)) is None ==> *final(a_slot) == *old(a_slot) && *final(t_slot) == *old(t_slot),
        (*old(a_slot)) is Some ==> agent_stepped(
            old(a_slot).unwrap(),
            old(t_slot).unwrap(),
            *final(a_slot),
            *final(t_slot),
            step as int,
        ),
        (*final(t_slot)) is Some <==> (*old(t_slot)) is Some,
        (*final(t_slot)) is Some ==> final(t_slot).unwrap().translation.in_bounds(
            WORLD_LIMIT + STEP_LIMIT,
        ),
{
    match a_slot {
        None => {},
        Some(a) => {
            match t_slot {
                None => {},
                Some(t) => {
                    step_agent(a, t, step);
                },
            }
        },
    }
}

impl World {
    /// The invariant every operation preserves: one slot per handle across
    /// the three arenas, live entities have spatial records, coordinates
    /// stay inside the world box, markers are duplicate-free, and the
    /// selection holds in-range, duplicate-free handles.
    pub open spec fn well_formed(self) -> bool {
        &&& self.transforms@.len() == self.agents@.len()
        &&& self.zones@.len() == self.agents@.len()
        &&& forall|i: int|
            0 <= i < self.agents@.len() && (#[trigger] self.agents@[i]) is Some
                ==> self.transforms@[i] is Some && self.zones@[i] is None
        &&& forall|i: int|
            0 <= i < self.zones@.len() && (#[trigger] self.zones@[i]) is Some
                ==> self.transforms@[i] is Some
        &&& forall|i: int|
            0 <= i < self.transforms@.len() && (#[trigger] self.transforms@[i]) is Some
                ==> self.transforms@[i].unwrap().translation.in_bounds(WORLD_LIMIT + STEP_LIMIT)
        &&& forall|i: int|
            0 <= i < self.zones@.len() && (#[trigger] self.zones@[i]) is Some
                ==> self.transforms@[i].unwrap().translation.in_bounds(WORLD_LIMIT as int)
        &&& forall|i: int|
            0 <= i < self.agents@.len() && (#[trigger] self.agents@[i]) is Some && self.agents@[
                i].unwrap().destination is Some ==> self.agents@[
                i].unwrap().destination.unwrap().in_bounds(WORLD_LIMIT as int)
        &&& forall|i: int|
            0 <= i < self.zones@.len() && (#[trigger] self.zones@[i]) is Some ==> self.zones@[
                i].unwrap().valid_dims()
        &&& marker_positions(self).no_duplicates()
        &&& forall|i: int|
            0 <= i < self.markers@.len() ==> (#[trigger] self.markers@[i]).position.in_bounds(
                WORLD_LIMIT as int,
            )
        &&& self.selection.agents@.no_duplicates()
        &&& forall|i: int|
            0 <= i < self.selection.agents@.len() ==> #[trigger] self.selection.agents@[i]
                < self.agents@.len()
    }

    /// An empty world.
    pub fn new() -> (r: World)
        ensures
            r.well_formed(),
            r.transforms@ =~= Seq::<Option<Transform>>::empty(),
            r.agents@ =~= Seq::<Option<Agent>>::empty(),
            r.zones@ =~= Seq::<Option<Zone>>::empty(),
            r.markers@ =~= Seq::<DestinationMarker>::empty(),
            r.selection.agents@ =~= Seq::<usize>::empty(),
            r.membership@ =~= Seq::<(usize, Seq<usize>)>::empty(),
    {
        World {
            transforms: Vec::new(),
            agents: Vec::new(),
            zones: Vec::new(),
            markers: Vec::new(),
            selection: UiStates::new(),
            membership: AgentZoneMapping::new(),
        }
    }

    /// Spawn an idle agent at a position, facing along the positive
    /// horizontal axis, and hand back its fresh handle.
    pub fn spawn_agent(&mut self, name: String, position: Vec2i) -> (h: usize)
        requires
            old(self).well_formed(),
            position.in_bounds(WORLD_LIMIT as int),
            old(self).agents@.len() < usize::MAX,
        ensures
            final(self).well_formed(),
            h == old(self).agents@.len(),
            final(self).agents@ =~= old(self).agents@.push(
                Some(Agent { name: name, destination: None }),
            ),
            final(self).transforms@ =~= old(self).transforms@.push(
                Some(Transform { translation: position, heading: Vec2i { x: 1, y: 0 } }),
            ),
            final(self).zones@ =~= old(self).zones@.push(None),
            final(self).markers@ == old(self).markers@,
            final(self).selection.agents@ == old(self).selection.agents@,
            final(self).membership@ == old(self).membership@,
    {
        let h = self.agents.len();
        self.transforms.push(Some(Transform { translation: position, heading: Vec2i { x: 1, y: 0 } }));
        self.agents.push(Some(Agent { name, destination: None }));
        self.zones.push(None);
        h
    }

    /// Spawn a zone centered at a position and hand back its fresh handle;
    /// the membership mapping gets an empty entry for it at once.
    pub fn spawn_zone(&mut self, name: String, width: i64, height: i64, position: Vec2i) -> (h:
        usize)
        requires
            old(self).well_formed(),
            0 <= width <= ZONE_LIMIT,
            0 <= height <= ZONE_LIMIT,
            position.in_bounds(WORLD_LIMIT as int),
            old(self).agents@.len() < usize::MAX,
        ensures
            final(self).well_formed(),
            h == old(self).agents@.len(),
            final(self).zones@ =~= old(self).zones@.push(
                Some(Zone { name: name, height: height, width: width }),
            ),
            final(self).transforms@ =~= old(self).transforms@.push(
                Some(Transform { translation: position, heading: Vec2i { x: 1, y: 0 } }),
            ),
            final(self).agents@ =~= old(self).agents@.push(None),
            final(self).markers@ == old(self).markers@,
            final(self).selection.agents@ == old(self).selection.agents@,
            final(self).membership@ =~= old(self).membership@.push((h, Seq::<usize>::empty())),
    {
        let h = self.agents.len();
        self.transforms.push(Some(Transform { translation: position, heading: Vec2i { x: 1, y: 0 } }));
        self.agents.push(None);
        self.zones.push(Some(Zone { name, height, width }));
        self.membership.push_entry(h, Vec::new());
        h
    }

    /// Despawn whatever lives under a handle; the slot stays as a hole, so
    /// other handles keep their meaning.  Anything still referring to the
    /// handle (the selection, a membership entry) now finds it stale.
    pub fn despawn(&mut self, h: usize)
        requires
            old(self).well_formed(),
            h < old(self).agents@.len(),
        ensures
            final(self).well_formed(),
            final(self).transforms@ =~= old(self).transforms@.update(h as int, None),
            final(self).agents@ =~= old(self).agents@.update(h as int, None),
            final(self).zones@ =~= old(self).zones@.update(h as int, None),
            final(self).markers@ == old(self).markers@,
            final(self).selection.agents@ == old(self).selection.agents@,
            final(self).membership@ == old(self).membership@,
    {
        self.transforms[h] = None;
        self.agents[h] = None;
        self.zones[h] = None;
    }

    /// One navigation tick over every agent, then the marker bookkeeping:
    /// afterwards the markers stand exactly at the distinct destinations the
    /// agents held when the tick began, so a destination dropped by an
    /// arrival keeps its marker until the next tick.
    pub fn update_agents(&mut self, step: i64)
        requires
            old(self).well_formed(),
            0 <= step <= STEP_LIMIT,
        ensures
            final(self).well_formed(),
            final(self).agents@.len() == old(self).agents@.len(),
            final(self).transforms@.len() == old(self).transforms@.len(),
            final(self).zones@ == old(self).zones@,
            final(self).selection.agents@ == old(self).selection.agents@,
            final(self).membership@ == old(self).membership@,
            forall|i: int|
                0 <= i < old(self).agents@.len() && old(self).agents@[i] is None
                    ==> final(self).agents@[i] is None && #[trigger] final(self).transforms@[i]
                    == old(self).transforms@[i],
            forall|i: int|
                live_agent(*old(self), i) ==> agent_stepped(
                    (#[trigger] old(self).agents@[i]).unwrap(),
                    old(self).transforms@[i].unwrap(),
                    final(self).agents@[i],
                    final(self).transforms@[i],
                    step as int,
                ),
            marker_positions(*final(self)).no_duplicates(),
            forall|p: Vec2i|
                #[trigger] marker_positions(*final(self)).contains(p) <==> active_destination(
                    *old(self),
                    p,
                ),
            final(self).markers@.len() == active_destination_set(*old(self)).len(),
    {
        let n = self.agents.len();
        let mut dests: Vec<Vec2i> = Vec::new();
        let mut i: usize = 0;
        while i < n
            invariant
                i <= n,
                0 <= step <= STEP_LIMIT,
                old(self).well_formed(),
                n == old(self).agents@.len(),
                self.agents@.len() == n,
                self.transforms@.len() == n,
                self.zones@ == old(self).zones@,
                self.selection.agents@ == old(self).selection.agents@,
                self.membership@ == old(self).membership@,
                self.markers@ == old(self).markers@,
                forall|j: int| i <= j < n ==> #[trigger] self.agents@[j] == old(self).agents@[j],
                forall|j: int|
                    i <= j < n ==> #[trigger] self.transforms@[j] == old(self).transforms@[j],
                forall|j: int|
                    0 <= j < i && old(self).agents@[j] is None ==> self.agents@[j] is None
                        && #[trigger] self.transforms@[j] == old(self).transforms@[j],
                forall|j: int|
                    0 <= j < i && live_agent(*old(self), j) ==> agent_stepped(
                        (#[trigger] old(self).agents@[j]).unwrap(),
                        old(self).transforms@[j].unwrap(),
                        self.agents@[j],
                        self.transforms@[j],
                        step as int,
                    ),
                forall|j: int|
                    0 <= j < n && (#[trigger] self.transforms@[j]) is Some ==> self.transforms@[
                        j].unwrap().translation.in_bounds(WORLD_LIMIT + STEP_LIMIT),
                forall|j: int|
                    0 <= j < n ==> ((#[trigger] self.transforms@[j]) is Some
                        <==> old(self).transforms@[j] is Some),
                forall|j: int|
                    0 <= j < n ==> ((#[trigger] self.agents@[j]) is Some <==> old(self).agents@[
                        j] is Some),
                dests@.no_duplicates(),
                forall|p: Vec2i|
                    #[trigger] dests@.contains(p) <==> active_destination_below(
                        *old(self),
                        p,
                        i as int,
                    ),
            decreases n - i,
        {
            let dest_opt: Option<Vec2i> = match &self.agents[i] {
                None => None,
                Some(a) => a.destination,
            };
            if let Some(d) = dest_opt {
                insert_new_point(&mut dests, d);
            }
            step_slots(&mut self.transforms[i], &mut self.agents[i], step);
            proof {
                let w0 = *old(self);
                if dest_opt is Some {
                    assert(live_agent(w0, i as int));
                    assert(w0.agents@[i as int].unwrap().destination == Some(dest_opt.unwrap()));
                    assert(active_destination_below(w0, dest_opt.unwrap(), i + 1));
                }
                assert forall|p: Vec2i| #[trigger] dests@.contains(p) implies
                    active_destination_below(w0, p, i + 1) by {
                    if !(dest_opt is Some && p == dest_opt.unwrap()) {
                        let j = choose|j: int|
                            0 <= j < i && live_agent(w0, j) && #[trigger] w0.agents@[
                                j].unwrap().destination == Some(p);
                        assert(active_destination_below(w0, p, i + 1));
                    }
                }
                assert forall|p: Vec2i| active_destination_below(w0, p, i + 1) implies #[trigger]
                    dests@.contains(p) by {
                    let j = choose|j: int|
                        0 <= j < i + 1 && live_agent(w0, j) && #[trigger] w0.agents@[
                            j].unwrap().destination == Some(p);
                    if j == i {
                        assert(dest_opt == Some(p));
                    } else {
                        assert(active_destination_below(w0, p, i as int));
                    }
                }
            }
            i = i + 1;
        }
        let mut ms: Vec<DestinationMarker> = Vec::new();
        let nd = dests.len();
        let mut k: usize = 0;
        while k < nd
            invariant
                k <= nd,
                nd == dests@.len(),
                ms@.len() == k,
                forall|j: int| 0 <= j < k ==> (#[trigger] ms@[j]).position == dests@[j],
            decreases nd - k,
        {
            let p = dests[k];
            ms.push(DestinationMarker { position: p });
            k = k + 1;
        }
        self.markers = ms;
        proof {
            let w0 = *old(self);
            assert(marker_positions(*self) =~= dests@);
            dests@.unique_seq_to_set();
            assert(active_destination_set(w0) =~= marker_positions(*self).to_set());
            assert forall|i: int|
                0 <= i < self.agents@.len() && (#[trigger] self.agents@[i]) is Some implies
                self.transforms@[i] is Some && self.zones@[i] is None by {
                assert(w0.agents@[i] is Some);
            }
            assert forall|i: int|
                0 <= i < self.zones@.len() && (#[trigger] self.zones@[i]) is Some implies
                self.transforms@[i] is Some && self.transforms@[
                    i].unwrap().translation.in_bounds(WORLD_LIMIT as int) by {
                assert(w0.zones@[i] is Some);
                assert(w0.agents@[i] is None);
                assert(self.transforms@[i] == w0.transforms@[i]);
            }
            assert forall|i: int|
                0 <= i < self.agents@.len() && (#[trigger] self.agents@[i]) is Some
                    && self.agents@[i].unwrap().destination is Some implies self.agents@[
                i].unwrap().destination.unwrap().in_bounds(WORLD_LIMIT as int) by {
                assert(w0.agents@[i] is Some);
                assert(agent_stepped(
                    w0.agents@[i].unwrap(),
                    w0.transforms@[i].unwrap(),
                    self.agents@[i],
                    self.transforms@[i],
                    step as int,
                ));
            }
            assert forall|i: int| 0 <= i < self.markers@.len() implies (#[trigger] self.markers@[
                i]).position.in_bounds(WORLD_LIMIT as int) by {
                let p = self.markers@[i].position;
                assert(marker_positions(*self)[i] == p);
                assert(marker_positions(*self).contains(p));
                assert(active_destination(w0, p));
                let j = choose|j: int|
                    0 <= j < w0.agents@.len() && live_agent(w0, j) && #[trigger] w0.agents@[
                        j].unwrap().destination == Some(p);
            }
        }
    }

    /// Rebuild the zone membership mapping from scratch: one entry per live
    /// zone in handle order, stale entries pruned, each entry listing
    /// exactly the live agents whose position passes the zone's containment
    /// test, in handle order.
    pub fn update_zones(&mut self)
        requires
            old(self).well_formed(),
        ensures
            final(self).well_formed(),
            final(self).transforms@ == old(self).transforms@,
            final(self).agents@ == old(self).agents@,
            final(self).zones@ == old(self).zones@,
            final(self).markers@ == old(self).markers@,
            final(self).selection.agents@ == old(self).selection.agents@,
            final(self).membership@ == recomputed_mapping(
                old(self).zones@,
                old(self).transforms@,
                old(self).agents@,
            ),
    {
        let mut m = AgentZoneMapping::new();
        let nz = self.zones.len();
        let mut z: usize = 0;
        while z < nz
            invariant
                z <= nz,
                old(self).well_formed(),
                nz == self.zones@.len(),
                self.zones@ == old(self).zones@,
                self.transforms@ == old(self).transforms@,
                self.agents@ == old(self).agents@,
                self.markers@ == old(self).markers@,
                self.selection.agents@ == old(self).selection.agents@,
                self.membership@ == old(self).membership@,
                m@ == mapping_upto(self.zones@, self.transforms@, self.agents@, z as int),
            decreases nz - z,
        {
            let has_zone = match &self.zones[z] {
                None => false,
                Some(_) => true,
            };
            if has_zone {
                let zpos = match &self.transforms[z] {
                    None => {
                        proof {
                            assert(false);
                        }
                        Vec2i { x: 0, y: 0 }
                    },
                    Some(t) => t.translation,
                };
                let mut members: Vec<usize> = Vec::new();
                let na = self.agents.len();
                let mut a: usize = 0;
                while a < na
                    invariant
                        a <= na,
                        z < nz,
                        old(self).well_formed(),
                        nz == self.zones@.len(),
                        na == self.agents@.len(),
                        self.zones@ == old(self).zones@,
                        self.transforms@ == old(self).transforms@,
                        self.agents@ == old(self).agents@,
                        self.zones@[z as int] is Some,
                        self.transforms@[z as int] is Some,
                        zpos == self.transforms@[z as int].unwrap().translation,
                        members@ == zone_members_upto(
                            self.zones@,
                            self.transforms@,
                            self.agents@,
                            z as int,
                            a as int,
                        ),
                    decreases na - a,
                {
                    let live = match &self.agents[a] {
                        None => false,
                        Some(_) => true,
                    };
                    if live {
                        let apos = match &self.transforms[a] {
                            None => {
                                proof {
                                    assert(false);
                                }
                                Vec2i { x: 0, y: 0 }
                            },
                            Some(t) => t.translation,
                        };
                        let inside = match &self.zones[z] {
                            None => {
                                proof {
                                    assert(false);
                                }
                                false
                            },
                            Some(zz) => zone_contains_point(zz, zpos, apos),
                        };
                        if inside {
                            members.push(a);
                        }
                    }
                    a = a + 1;
                }
                m.push_entry(z, members);
            }
            z = z + 1;
        }
        self.membership = m;
    }

    /// Route one primary-button press.  The window is needed before
    /// anything else; without a press nothing happens; then the camera and
    /// an in-window cursor are needed to project the click into the world.
    /// Every live agent whose click box contains the world point is ordered
    /// there, unless the overlay claimed the input, and is appended to the
    /// detail-view selection if not yet listed.
    pub fn handle_click(
        &mut self,
        camera: Option<&CameraState>,
        window: Option<WindowSize>,
        cursor: Option<Vec2i>,
        just_pressed: bool,
        overlay_claims_input: bool,
    ) -> (r: Result<Option<Vec2i>, TickError>)
        requires
            old(self).well_formed(),
            camera is Some ==> camera.unwrap().well_formed(),
            window is Some ==> window.unwrap().valid(),
        ensures
            final(self).well_formed(),
            window is None ==> r == Err::<Option<Vec2i>, TickError>(TickError::NoActiveWindow)
                && *final(self) == *old(self),
            window is Some && !just_pressed ==> r == Ok::<Option<Vec2i>, TickError>(None)
                && *final(self) == *old(self),
            window is Some && just_pressed && camera is None ==> r == Err::<
                Option<Vec2i>,
                TickError,
            >(TickError::NoCameraFound) && *final(self) == *old(self),
            window is Some && just_pressed && camera is Some && !(cursor is Some && 0
                <= cursor.unwrap().x <= window.unwrap().width && 0 <= cursor.unwrap().y
                <= window.unwrap().height) ==> r == Err::<Option<Vec2i>, TickError>(
                TickError::CursorOutsideWindow,
            ) && *final(self) == *old(self),
            window is Some && just_pressed && camera is Some && cursor is Some && 0
                <= cursor.unwrap().x <= window.unwrap().width && 0 <= cursor.unwrap().y
                <= window.unwrap().height ==> {
                let p = projected_point(*camera.unwrap(), window.unwrap(), cursor.unwrap());
                &&& r == Ok::<Option<Vec2i>, TickError>(Some(p))
                &&& final(self).transforms@ == old(self).transforms@
                &&& final(self).zones@ == old(self).zones@
                &&& final(self).markers@ == old(self).markers@
                &&& final(self).membership@ == old(self).membership@
                &&& final(self).agents@.len() == old(self).agents@.len()
                &&& (forall|i: int|
                    0 <= i < old(self).agents@.len() && old(self).agents@[i] is None
                        ==> final(self).agents@[i] is None)
                &&& (forall|i: int|
                    live_agent(*old(self), i) ==> final(self).agents@[i] is Some && (
                    #[trigger] final(self).agents@[i]).unwrap().name == old(self).agents@[
                        i].unwrap().name && final(self).agents@[i].unwrap().destination == (
                    if !overlay_claims_input && box_contains(
                        transform_at(*old(self), i).translation,
                        SELECT_HALF_EXTENT as int,
                        SELECT_HALF_EXTENT as int,
                        p,
                    ) {
                        Some(p)
                    } else {
                        old(self).agents@[i].unwrap().destination
                    }))
                &&& final(self).selection.agents@ == selection_after_click(
                    *old(self),
                    p,
                    old(self).agents@.len() as int,
                )
            },
    {
        let win = match window {
            None => {
                return Err(TickError::NoActiveWindow);
            },
            Some(w) => w,
        };
        if !just_pressed {
            return Ok(None);
        }
        let cam = match camera {
            None => {
                return Err(TickError::NoCameraFound);
            },
            Some(c) => c,
        };
        let p = match screen_to_world(cam, win, cursor) {
            Err(e) => {
                return Err(e);
            },
            Ok(p) => p,
        };
        let n = self.agents.len();
        let mut i: usize = 0;
        while i < n
            invariant
                i <= n,
                old(self).well_formed(),
                n == old(self).agents@.len(),
                p.in_bounds(WORLD_LIMIT as int),
                self.agents@.len() == n,
                self.transforms@ == old(self).transforms@,
                self.zones@ == old(self).zones@,
                self.markers@ == old(self).markers@,
                self.membership@ == old(self).membership@,
                forall|j: int| i <= j < n ==> #[trigger] self.agents@[j] == old(self).agents@[j],
                forall|j: int|
                    0 <= j < i && old(self).agents@[j] is None ==> (#[trigger] self.agents@[
                        j]) is None,
                forall|j: int|
                    0 <= j < i && live_agent(*old(self), j) ==> self.agents@[j] is Some && (
                    #[trigger] self.agents@[j]).unwrap().name == old(self).agents@[
                        j].unwrap().name && self.agents@[j].unwrap().destination == (
                    if !overlay_claims_input && box_contains(
                        transform_at(*old(self), j).translation,
                        SELECT_HALF_EXTENT as int,
                        SELECT_HALF_EXTENT as int,
                        p,
                    ) {
                        Some(p)
                    } else {
                        old(self).agents@[j].unwrap().destination
                    }),
                self.selection.agents@ == selection_after_click(*old(self), p, i as int),
                self.selection.agents@.no_duplicates(),
                forall|j: int|
                    0 <= j < self.selection.agents@.len() ==> #[trigger] self.selection.agents@[j]
                        < n,
            decreases n - i,
        {
            let live = match &self.agents[i] {
                None => false,
                Some(_) => true,
            };
            if live {
                let apos = match &self.transforms[i] {
                    None => {
                        proof {
                            assert(false);
                        }
                        Vec2i { x: 0, y: 0 }
                    },
                    Some(t) => t.translation,
                };
                let hit = box_contains_point(apos, SELECT_HALF_EXTENT, SELECT_HALF_EXTENT, p);
                if hit {
                    if !overlay_claims_input {
                        match &mut self.agents[i] {
                            None => {},
                            Some(a) => {
                                a.destination = Some(p);
                            },
                        }
                    }
                    if !contains_handle(&self.selection.agents, i) {
                        self.selection.agents.push(i);
                    }
                }
            }
            i = i + 1;
        }
        proof {
            let w0 = *old(self);
            assert forall|j: int|
                0 <= j < self.agents@.len() && (#[trigger] self.agents@[j]) is Some
                    && self.agents@[j].unwrap().destination is Some implies self.agents@[
                j].unwrap().destination.unwrap().in_bounds(WORLD_LIMIT as int) by {
                assert(live_agent(w0, j));
            }
            assert forall|j: int|
                0 <= j < self.agents@.len() && (#[trigger] self.agents@[j]) is Some implies
                self.transforms@[j] is Some && self.zones@[j] is None by {
                assert(live_agent(w0, j));
            }
        }
        Ok(Some(p))
    }
}

} // verus!

