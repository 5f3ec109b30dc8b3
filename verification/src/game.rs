//! The per-tick simulation pipeline over a set of agents.
//!
//! Each fixed tick runs, in this order: steering (path followers set their
//! velocity toward the current waypoint), collision checking (each velocity
//! is corrected against the walkability map), and velocity application
//! (each corrected velocity moves its entity). The order is load-bearing:
//! a corrected velocity, not the raw requested one, is what moves an
//! entity, and every correction reads the settled positions of this tick's
//! start, never a half-updated state — so the phases run as separate passes
//! over all agents, not fused.

use vstd::prelude::*;

use crate::map::WalkabilityMap;
use crate::path::{Path, move_along_path};
use crate::position::{
    ARRIVAL_D2, GridPosition, Position, SCALE, Speed, Velocity, apply_velocity,
    check_velocity_collisions, dist2, in_pos_range, pos_plus, random_below, resolve_velocity,
    steer_velocity, walkable_at,
};

verus! {

use vstd::math::abs;

/// One movable entity of the simulation: its continuous position, the
/// velocity requested for the coming tick, its travel speed, and the path
/// it is following, if any.
#[derive(Debug)]
pub struct Agent {
    pub position: Position,
    pub velocity: Velocity,
    pub speed: Speed,
    pub path: Option<Path>,
}

impl Agent {
    /// The agent's pieces are all well-formed and its velocity never asks
    /// for more than one cell of movement per tick.
    pub open spec fn wf(&self) -> bool {
        &&& self.position.wf()
        &&& self.speed.wf()
        &&& -SCALE <= self.velocity.x <= SCALE
        &&& -SCALE <= self.velocity.y <= SCALE
        &&& match self.path {
            Some(p) => p.wf(),
            None => true,
        }
    }

    /// The agent stands at least one cell away from the edge of the
    /// continuous band, so one tick of movement cannot leave it.
    pub open spec fn has_move_margin(&self) -> bool {
        &&& in_pos_range(self.position.x - SCALE)
        &&& in_pos_range(self.position.x + SCALE)
        &&& in_pos_range(self.position.y - SCALE)
        &&& in_pos_range(self.position.y + SCALE)
    }
}

/// The velocity an agent requests after the steering phase: an agent
/// without a path, or one already within the arrival threshold of its
/// waypoint, keeps its previous velocity; any other path follower steers
/// toward its waypoint at its own speed.
pub open spec fn steered_velocity(a: Agent) -> Velocity {
    match a.path {
        None => a.velocity,
        Some(p) => {
            let target = p.spec_target().spec_to_position();
            if dist2(a.position, target) < ARRIVAL_D2 {
                a.velocity
            } else {
                steer_velocity(
                    target.x - a.position.x,
                    target.y - a.position.y,
                    a.speed.0 as int,
                )
            }
        },
    }
}

/// How the steering phase leaves an agent's path. A path whose current
/// waypoint has been reached advances its cursor; a path reached at its
/// last waypoint is complete and is removed; any other path is untouched.
pub open spec fn steered_path(a: Agent, b: Agent) -> bool {
    match a.path {
        None => b.path is None,
        Some(p) => {
            let target = p.spec_target().spec_to_position();
            if dist2(a.position, target) < ARRIVAL_D2 {
                if p.cursor() == p.cells().len() - 1 {
                    b.path is None
                } else {
                    b.path matches Some(q) && q.wf() && q.cells() == p.cells() && q.cursor()
                        == p.cursor() + 1
                }
            } else {
                b.path matches Some(q) && q.wf() && q.cells() == p.cells() && q.cursor()
                    == p.cursor()
            }
        },
    }
}

/// The velocity that actually moves an agent this tick: the steered
/// request, corrected against the map.
pub open spec fn tick_velocity(m: WalkabilityMap, a: Agent) -> Velocity {
    resolve_velocity(m, a.position, steered_velocity(a))
}

/// How one whole tick leaves an agent: its speed is untouched, its path
/// fares as the steering phase says, and it moves by exactly its steered,
/// collision-corrected velocity.
pub open spec fn tick_rel(m: WalkabilityMap, a: Agent, b: Agent) -> bool {
    &&& b.speed == a.speed
    &&& b.velocity == tick_velocity(m, a)
    &&& b.position == pos_plus(a.position, tick_velocity(m, a))
    &&& steered_path(a, b)
}

/// The relation after the steering phase alone: only velocity and path
/// have been touched.
spec fn steer_rel(a: Agent, b: Agent) -> bool {
    &&& b.position == a.position
    &&& b.speed == a.speed
    &&& b.velocity == steered_velocity(a)
    &&& steered_path(a, b)
    &&& -SCALE <= b.velocity.x <= SCALE
    &&& -SCALE <= b.velocity.y <= SCALE
}

/// The relation after the steering and collision phases.
spec fn collide_rel(m: WalkabilityMap, a: Agent, b: Agent) -> bool {
    &&& b.position == a.position
    &&& b.speed == a.speed
    &&& b.velocity == tick_velocity(m, a)
    &&& steered_path(a, b)
    &&& -SCALE <= b.velocity.x <= SCALE
    &&& -SCALE <= b.velocity.y <= SCALE
}

/// Advances the whole simulation by one fixed tick: steering, then
/// collision checking, then velocity application, each as its own pass
/// over all agents.
pub fn tick(map: &WalkabilityMap, agents: &mut Vec<Agent>)
    requires
        forall|i: int|
            0 <= i < old(agents)@.len() ==> (#[trigger] old(agents)@[i]).wf() && old(
                agents
            )@[i].has_move_margin(),
    ensures
        final(agents)@.len() == old(agents)@.len(),
        forall|i: int|
            0 <= i < old(agents)@.len() ==> tick_rel(*map, old(agents)@[i], #[trigger] final(
                agents
            )@[i]) && final(agents)@[i].wf(),
{
    let ghost orig = agents@;
    let n = agents.len();

    // Steering pass: path followers aim at their current waypoint.
    let mut i: usize = 0;
    while i < n
        invariant
            agents@.len() == n == orig.len(),
            forall|j: int| 0 <= j < n ==> (#[trigger] orig[j]).wf() && orig[j].has_move_margin(),
            forall|j: int| i <= j < n ==> #[trigger] agents@[j] == orig[j],
            forall|j: int| 0 <= j < i ==> steer_rel(orig[j], #[trigger] agents@[j]),
        decreases n - i,
    {
        let a = &mut agents[i];
        let pos = a.position;
        let sp = a.speed;
        match a.path.take() {
            None => {},
            Some(mut p) => {
                let mut v = a.velocity;
                let done = move_along_path(&pos, &sp, &mut p, &mut v);
                a.velocity = v;
                if !done {
                    a.path = Some(p);
                }
            },
        }
        i = i + 1;
    }

    // Collision pass: each requested velocity is corrected against the map,
    // reading only this tick's settled positions.
    let ghost steered = agents@;
    let mut i: usize = 0;
    while i < n
        invariant
            agents@.len() == n == orig.len() == steered.len(),
            forall|j: int| 0 <= j < n ==> (#[trigger] orig[j]).wf() && orig[j].has_move_margin(),
            forall|j: int| 0 <= j < n ==> steer_rel(orig[j], #[trigger] steered[j]),
            forall|j: int| i <= j < n ==> #[trigger] agents@[j] == steered[j],
            forall|j: int| 0 <= j < i ==> collide_rel(*map, orig[j], #[trigger] agents@[j]),
        decreases n - i,
    {
        let a = &mut agents[i];
        let pos = a.position;
        check_velocity_collisions(map, &pos, &mut a.velocity);
        i = i + 1;
    }

    // Application pass: the corrected velocities move their entities.
    let ghost collided = agents@;
    let mut i: usize = 0;
    while i < n
        invariant
            agents@.len() == n == orig.len() == collided.len(),
            forall|j: int| 0 <= j < n ==> (#[trigger] orig[j]).wf() && orig[j].has_move_margin(),
            forall|j: int| 0 <= j < n ==> collide_rel(*map, orig[j], #[trigger] collided[j]),
            forall|j: int| i <= j < n ==> #[trigger] agents@[j] == collided[j],
            forall|j: int|
                0 <= j < i ==> tick_rel(*map, orig[j], #[trigger] agents@[j]) && agents@[j].wf(),
        decreases n - i,
    {
        let a = &mut agents[i];
        let v = a.velocity;
        apply_velocity(&mut a.position, &v);
        i = i + 1;
    }
}

/// Offers every agent that is not already travelling a route to one exit,
/// chosen at random among `exits`. An agent gets a fresh path exactly when
/// a walkable route from its current cell to that exit exists; the others
/// are left alone, to retry when the map has changed. With no exits at
/// all, nothing happens.
pub fn request_escape_paths(
    map: &WalkabilityMap,
    agents: &mut Vec<Agent>,
    exits: &Vec<GridPosition>,
)
    requires
        forall|i: int| 0 <= i < old(agents)@.len() ==> (#[trigger] old(agents)@[i]).position.wf(),
    ensures
        final(agents)@.len() == old(agents)@.len(),
        exits@.len() == 0 ==> final(agents)@ == old(agents)@,
        exits@.len() > 0 ==> exists|k: int|
            #![trigger exits@[k]]
            0 <= k < exits@.len() && forall|i: int|
                0 <= i < old(agents)@.len() ==> #[trigger] route_rel(
                    *map,
                    old(agents)@[i],
                    final(agents)@[i],
                    exits@[k],
                ),
{
    let n_exits = exits.len();
    if n_exits == 0 {
        proof {
            assert(agents@ =~= old(agents)@);
        }
        return ;
    }
    let pick = random_below(n_exits as u64);
    let exit_cell = exits[pick as usize];
    let ghost k = pick as int;
    let ghost orig = agents@;
    let n = agents.len();
    let mut i: usize = 0;
    while i < n
        invariant
            agents@.len() == n == orig.len(),
            exit_cell == exits@[k],
            0 <= k < exits@.len(),
            forall|j: int| 0 <= j < n ==> (#[trigger] orig[j]).position.wf(),
            forall|j: int| i <= j < n ==> #[trigger] agents@[j] == orig[j],
            forall|j: int| 0 <= j < i ==> route_rel(*map, orig[j], #[trigger] agents@[j], exit_cell),
        decreases n - i,
    {
        let a = &mut agents[i];
        if a.path.is_none() {
            let src = a.position.nearest_cell();
            match map.find_path(&src, &exit_cell) {
                Some((steps, _cost)) => {
                    a.path = Some(Path::new(steps));
                },
                None => {},
            }
        }
        i = i + 1;
    }
}

/// The per-tick progress behind the corridor scenario: an agent whose
/// current waypoint lies straight along the vertical axis, who is still
/// outside the arrival threshold, whose straight move lands on a walkable
/// cell, and whose speed stays below the threshold radius, ends the tick on
/// the same axis and exactly `speed` units closer to the waypoint. Applied
/// tick after tick, the agent's distance to the waypoint falls
/// monotonically until the threshold is reached.
pub proof fn lemma_corridor_tick_progress(m: WalkabilityMap, a: Agent, b: Agent, p: Path)
    requires
        tick_rel(m, a, b),
        a.path == Some(p),
        p.wf(),
        a.position.wf(),
        ({
            let t = p.spec_target().spec_to_position();
            &&& t.x == a.position.x
            &&& dist2(a.position, t) >= ARRIVAL_D2
        }),
        0 < a.speed.0 <= 300,
        walkable_at(m, pos_plus(a.position, steered_velocity(a))),
    ensures
        ({
            let t = p.spec_target().spec_to_position();
            &&& b.position.x == a.position.x
            &&& abs(t.y - b.position.y) == abs(t.y - a.position.y) - a.speed.0
            &&& abs(t.y - b.position.y) < abs(t.y - a.position.y)
        }),
{
    let t = p.spec_target().spec_to_position();
    let dy = t.y - a.position.y;
    let s = a.speed.0 as int;
    assert(dy * dy >= ARRIVAL_D2) by (nonlinear_arith)
        requires
            dist2(a.position, t) == (a.position.x - t.x) * (a.position.x - t.x) + (a.position.y
                - t.y) * (a.position.y - t.y),
            a.position.x == t.x,
            a.position.y - t.y == -dy,
            dist2(a.position, t) >= ARRIVAL_D2,
    ;
    crate::position::lemma_steer_along_axis(dy, s);
    assert(steered_velocity(a) == steer_velocity(0, dy, s));
    assert(tick_velocity(m, a) == steered_velocity(a));
}
/// round: an agent already travelling is untouched; otherwise it receives
/// a shortest path from its current cell to the exit when one exists, and
/// stays path-less exactly when none does.
pub open spec fn route_rel(m: WalkabilityMap, a: Agent, b: Agent, e: GridPosition) -> bool {
    &&& b.position == a.position
    &&& b.velocity == a.velocity
    &&& b.speed == a.speed
    &&& match a.path {
        Some(_) => b.path == a.path,
        None => {
            let src = a.position.spec_nearest_cell();
            match b.path {
                None => forall|q: Seq<GridPosition>| !m.is_path(q, src, e),
                Some(p) => {
                    &&& p.wf()
                    &&& p.cursor() == 0
                    &&& m.is_path(p.cells(), src, e)
                    &&& forall|q: Seq<GridPosition>|
                        m.is_path(q, src, e) ==> p.cells().len() <= q.len()
                },
            }
        },
    }
}

} // verus!
