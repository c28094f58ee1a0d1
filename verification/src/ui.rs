//! The selection set and the detail-view boundary: a read phase that
//! snapshots the selected agents for display, and a write phase that applies
//! edits coming back from the display.

use vstd::prelude::*;
use crate::agent::{Agent, Transform};
use crate::errors::TickError;
use crate::geom::{Vec2i, WORLD_LIMIT};
use crate::world::{live_agent, transform_at, World};

verus! {

/// The agents chosen for detail view: an ordered, duplicate-free list of
/// handles, appended to by picking and never shrunk here.
#[derive(Debug)]
pub struct UiStates {
    pub agents: Vec<usize>,
}

impl UiStates {
    /// An empty selection.
    pub fn new() -> (r: UiStates)
        ensures
            r.agents@ =~= Seq::<usize>::empty(),
    {
        UiStates { agents: Vec::new() }
    }
}

impl Default for UiStates {
    /// An empty selection.
    fn default() -> (r: UiStates)
        ensures
            r.agents@ =~= Seq::<usize>::empty(),
    {
        UiStates { agents: Vec::new() }
    }
}

/// Everything a detail window shows about one selected agent, snapshotted
/// during the read phase.
#[derive(Debug)]
pub struct AgentPanel {
    pub handle: usize,
    pub name: String,
    pub position: Vec2i,
    pub destination: Option<Vec2i>,
}

/// The read phase of the detail view: a snapshot of every selected agent, in
/// selection order.  A selected handle whose agent is gone makes the whole
/// snapshot fail as stale, and the display skips the tick.
pub fn agent_panels(w: &World) -> (r: Result<Vec<AgentPanel>, TickError>)
    requires
        w.well_formed(),
    ensures
        r is Ok <==> (forall|j: int|
            0 <= j < w.selection.agents@.len() ==> live_agent(
                *w,
                #[trigger] w.selection.agents@[j] as int,
            )),
        r is Err ==> r->Err_0 == TickError::StaleHandle,
        r is Ok ==> {
            let sel = w.selection.agents@;
            &&& r.unwrap()@.len() == sel.len()
            &&& forall|j: int|
                0 <= j < sel.len() ==> {
                    let h = sel[j] as int;
                    &&& (#[trigger] r.unwrap()@[j]).handle == sel[j]
                    &&& r.unwrap()@[j].name == w.agents@[h].unwrap().name
                    &&& r.unwrap()@[j].position == transform_at(*w, h).translation
                    &&& r.unwrap()@[j].destination == w.agents@[h].unwrap().destination
                }
        },
{
    let mut out: Vec<AgentPanel> = Vec::new();
    let k = w.selection.agents.len();
    let mut j: usize = 0;
    while j < k
        invariant
            j <= k,
            w.well_formed(),
            k == w.selection.agents@.len(),
            out@.len() == j,
            forall|jj: int|
                0 <= jj < j ==> live_agent(*w, #[trigger] w.selection.agents@[jj] as int),
            forall|jj: int|
                0 <= jj < j ==> {
                    let h = w.selection.agents@[jj] as int;
                    &&& (#[trigger] out@[jj]).handle == w.selection.agents@[jj]
                    &&& out@[jj].name == w.agents@[h].unwrap().name
                    &&& out@[jj].position == transform_at(*w, h).translation
                    &&& out@[jj].destination == w.agents@[h].unwrap().destination
                },
        decreases k - j,
    {
        let h = w.selection.agents[j];
        match &w.agents[h] {
            None => {
                proof {
                    assert(!live_agent(*w, w.selection.agents@[j as int] as int));
                }
                return Err(TickError::StaleHandle);
            },
            Some(a) => {
                let pos = match &w.transforms[h] {
                    None => {
                        proof {
                            assert(false);
                        }
                        Vec2i { x: 0, y: 0 }
                    },
                    Some(t) => t.translation,
                };
                out.push(
                    AgentPanel {
                        handle: h,
                        name: a.name.clone(),
                        position: pos,
                        destination: a.destination,
                    },
                );
            },
        }
        j = j + 1;
    }
    Ok(out)
}

/// The write phase of the detail view: move one agent to an edited position.
/// A stale handle changes nothing and reports itself.
pub fn set_agent_position(w: &mut World, h: usize, position: Vec2i) -> (r: Result<(), TickError>)
    requires
        old(w).well_formed(),
        position.in_bounds(WORLD_LIMIT as int),
    ensures
        final(w).well_formed(),
        !live_agent(*old(w), h as int) ==> r == Err::<(), TickError>(TickError::StaleHandle)
            && *final(w) == *old(w),
        live_agent(*old(w), h as int) ==> r == Ok::<(), TickError>(()) && final(w).transforms@
            =~= old(w).transforms@.update(
            h as int,
            Some(
                Transform {
                    translation: position,
                    heading: transform_at(*old(w), h as int).heading,
                },
            ),
        ) && final(w).agents@ == old(w).agents@ && final(w).zones@ == old(w).zones@
            && final(w).markers@ == old(w).markers@ && final(w).selection.agents@ == old(w).selection.agents@
            && final(w).membership@ == old(w).membership@,
{
    if h >= w.agents.len() {
        return Err(TickError::StaleHandle);
    }
    let live = match &w.agents[h] {
        None => false,
        Some(_) => true,
    };
    if !live {
        return Err(TickError::StaleHandle);
    }
    match &mut w.transforms[h] {
        None => {
            proof {
                assert(false);
            }
            Err(TickError::StaleHandle)
        },
        Some(t) => {
            t.translation = position;
            Ok(())
        },
    }
}

/// The reset button of the detail view: put the agent back at the spawn
/// point.
pub fn reset_agent_position(w: &mut World, h: usize) -> (r: Result<(), TickError>)
    requires
        old(w).well_formed(),
    ensures
        final(w).well_formed(),
        !live_agent(*old(w), h as int) ==> r == Err::<(), TickError>(TickError::StaleHandle)
            && *final(w) == *old(w),
        live_agent(*old(w), h as int) ==> r == Ok::<(), TickError>(()) && transform_at(
            *final(w),
            h as int,
        ).translation == (Vec2i { x: 1, y: 1 }),
{
    set_agent_position(w, h, Vec2i { x: 1, y: 1 })
}

/// The write phase of the detail view: hand one agent a destination, or
/// clear it.  A stale handle changes nothing and reports itself.
pub fn set_agent_destination(w: &mut World, h: usize, destination: Option<Vec2i>) -> (r: Result<
    (),
    TickError,
>)
    requires
        old(w).well_formed(),
        destination is Some ==> destination.unwrap().in_bounds(WORLD_LIMIT as int),
    ensures
        final(w).well_formed(),
        !live_agent(*old(w), h as int) ==> r == Err::<(), TickError>(TickError::StaleHandle)
            && *final(w) == *old(w),
        live_agent(*old(w), h as int) ==> r == Ok::<(), TickError>(()) && final(w).agents@
            =~= old(w).agents@.update(
            h as int,
            Some(
                Agent {
                    name: old(w).agents@[h as int].unwrap().name,
                    destination: destination,
                },
            ),
        ) && final(w).transforms@ == old(w).transforms@ && final(w).zones@ == old(w).zones@
            && final(w).markers@ == old(w).markers@ && final(w).selection.agents@ == old(w).selection.agents@
            && final(w).membership@ == old(w).membership@,
{
    if h >= w.agents.len() {
        return Err(TickError::StaleHandle);
    }
    let live = match &w.agents[h] {
        None => false,
        Some(_) => true,
    };
    if !live {
        return Err(TickError::StaleHandle);
    }
    match &mut w.agents[h] {
        None => {
            proof {
                assert(false);
            }
            Err(TickError::StaleHandle)
        },
        Some(a) => {
            a.destination = destination;
            Ok(())
        },
    }
}

} // verus!
