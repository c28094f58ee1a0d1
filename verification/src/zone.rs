//! Rectangular zones and the per-tick mapping from each zone to the agents
//! inside it.

use vstd::prelude::*;
use crate::geom::{box_contains, box_contains_point, Vec2i, STEP_LIMIT, WORLD_LIMIT};

verus! {

/// Largest zone extent accepted, in world units.
pub const ZONE_LIMIT: i64 = 1_000_000_000;

/// A named rectangle; its center is the position of the transform record
/// kept under the zone's handle.
#[derive(Clone, Debug, PartialEq)]
pub struct Zone {
    pub name: String,
    pub height: i64,
    pub width: i64,
}

impl Zone {
    /// Non-negative, bounded extents.
    pub open spec fn valid_dims(self) -> bool {
        &&& 0 <= self.height <= ZONE_LIMIT
        &&& 0 <= self.width <= ZONE_LIMIT
    }
}

/// The membership test: a zone-sized box is centered on the agent and the
/// zone's reference point must fall inside it, edges included.  The
/// horizontal half-extent is taken from the zone's height and the vertical
/// one from its width, and both are rounded down; this is the behaviour the
/// mapping has always had, kept as it is.
pub open spec fn zone_contains(zone: Zone, zone_pos: Vec2i, agent_pos: Vec2i) -> bool {
    box_contains(agent_pos, zone.height as int / 2, zone.width as int / 2, zone_pos)
}

/// Inclusive membership test of one agent position against one zone.
pub fn zone_contains_point(zone: &Zone, zone_pos: Vec2i, agent_pos: Vec2i) -> (r: bool)
    requires
        zone.valid_dims(),
        zone_pos.in_bounds(WORLD_LIMIT as int),
        agent_pos.in_bounds(WORLD_LIMIT + STEP_LIMIT),
    ensures
        r == zone_contains(*zone, zone_pos, agent_pos),
{
    let hx: i64 = (zone.height as u64 / 2) as i64;
    let hy: i64 = (zone.width as u64 / 2) as i64;
    box_contains_point(agent_pos, hx, hy, zone_pos)
}

/// The mapping from zone handle to the handles of the agents inside the
/// zone, rebuilt from scratch every tick.
#[derive(Clone, Debug)]
pub struct AgentZoneMapping {
    entries: Vec<(usize, Vec<usize>)>,
}

impl View for AgentZoneMapping {
    type V = Seq<(usize, Seq<usize>)>;

    closed spec fn view(&self) -> Seq<(usize, Seq<usize>)> {
        self.entries@.map_values(|e: (usize, Vec<usize>)| (e.0, e.1@))
    }
}

impl AgentZoneMapping {
    /// The empty mapping.
    pub fn new() -> (r: AgentZoneMapping)
        ensures
            r@ =~= Seq::<(usize, Seq<usize>)>::empty(),
    {
        AgentZoneMapping { entries: Vec::new() }
    }

    /// How many zones hold an entry.
    pub fn len(&self) -> (r: usize)
        ensures
            r == self@.len(),
    {
        self.entries.len()
    }

    /// The zone handle of the entry at `j`.
    pub fn zone_at(&self, j: usize) -> (r: usize)
        requires
            j < self@.len(),
        ensures
            r == self@[j as int].0,
    {
        self.entries[j].0
    }

    /// The member list of the entry at `j`.
    pub fn agents_at(&self, j: usize) -> (r: &Vec<usize>)
        requires
            j < self@.len(),
        ensures
            r@ == self@[j as int].1,
    {
        &self.entries[j].1
    }

    /// The member list recorded for a zone handle, if the zone has an entry;
    /// the first entry wins if a stale duplicate is still around.
    pub fn get(&self, zone: usize) -> (r: Option<&Vec<usize>>)
        ensures
            r is Some <==> exists|j: int| 0 <= j < self@.len() && self@[j].0 == zone,
            r is Some ==> exists|j: int|
                0 <= j < self@.len() && self@[j].0 == zone && r.unwrap()@ == self@[j].1 && (forall|
                    k: int,
                |
                    0 <= k < j ==> self@[k].0 != zone),
    {
        let n = self.entries.len();
        let mut i: usize = 0;
        while i < n
            invariant
                i <= n,
                n == self@.len(),
                forall|k: int| 0 <= k < i ==> self@[k].0 != zone,
            decreases n - i,
        {
            if self.entries[i].0 == zone {
                proof {
                    assert(self@[i as int] == (self.entries@[i as int].0, self.entries@[
                        i as int].1@));
                    assert(self@[i as int].0 == zone);
                }
                return Some(&self.entries[i].1);
            }
            i = i + 1;
        }
        None
    }

    /// Append an entry for a zone.
    pub fn push_entry(&mut self, zone: usize, members: Vec<usize>)
        ensures
            final(self)@ =~= old(self)@.push((zone, members@)),
    {
        self.entries.push((zone, members));
    }
}

impl Default for AgentZoneMapping {
    /// The empty mapping.
    fn default() -> (r: AgentZoneMapping)
        ensures
            r@ =~= Seq::<(usize, Seq<usize>)>::empty(),
    {
        AgentZoneMapping { entries: Vec::new() }
    }
}

} // verus!
