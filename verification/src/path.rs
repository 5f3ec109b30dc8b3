//! Path following: a computed route and the steering that walks an agent
//! along it, waypoint by waypoint.

use vstd::prelude::*;

use crate::position::{
    ARRIVAL_D2, GridPosition, Position, Speed, Velocity, dist2, steer_toward, steer_velocity,
};

verus! {

/// An ordered list of waypoint cells together with a cursor marking the one
/// currently travelled toward. A path always holds at least one waypoint,
/// and the cursor always points inside the list; the cursor only ever moves
/// through [`Path::next`].
#[derive(Debug)]
pub struct Path {
    cells: Vec<GridPosition>,
    current: usize,
}

impl Path {
    /// The waypoints, in travel order.
    pub closed spec fn cells(&self) -> Seq<GridPosition> {
        self.cells@
    }

    /// The index of the waypoint currently travelled toward.
    pub closed spec fn cursor(&self) -> int {
        self.current as int
    }

    /// The list is non-empty and the cursor points at one of its entries.
    pub open spec fn wf(&self) -> bool {
        self.cells().len() >= 1 && 0 <= self.cursor() < self.cells().len()
    }

    /// The waypoint currently travelled toward.
    pub open spec fn spec_target(&self) -> GridPosition {
        self.cells()[self.cursor()]
    }

    /// A fresh path over `cells`, aimed at the first waypoint. An empty
    /// path cannot be constructed.
    pub fn new(cells: Vec<GridPosition>) -> (r: Self)
        requires
            cells@.len() >= 1,
        ensures
            r.cells() == cells@,
            r.cursor() == 0,
            r.wf(),
    {
        Self { cells, current: 0 }
    }

    /// The waypoint currently travelled toward.
    pub fn target(&self) -> (r: GridPosition)
        requires
            self.wf(),
        ensures
            r == self.spec_target(),
    {
        self.cells[self.current]
    }

    /// Advances the cursor to the following waypoint and returns it, or
    /// returns `None`, leaving the path unchanged, when the cursor already
    /// stands on the last waypoint: the path is complete and the caller is
    /// expected to discard it.
    pub fn next(&mut self) -> (r: Option<GridPosition>)
        requires
            old(self).wf(),
        ensures
            final(self).cells() == old(self).cells(),
            final(self).wf(),
            old(self).cursor() == old(self).cells().len() - 1 ==> r is None && final(self).cursor()
                == old(self).cursor(),
            old(self).cursor() < old(self).cells().len() - 1 ==> final(self).cursor() == old(
                self,
            ).cursor() + 1 && r == Some(final(self).spec_target()),
    {
        let len = self.cells.len();
        if self.current == len - 1 {
            None
        } else {
            self.current = self.current + 1;
            Some(self.target())
        }
    }
}

/// One steering tick for a path-following agent. While the agent is not yet
/// within the arrival threshold of the current waypoint's cell centre, its
/// velocity is set to head there at `speed` and the path is left alone.
/// Once within the threshold, the cursor advances instead (the velocity is
/// left as it was); if no waypoint follows, the function returns true — the
/// path is exhausted and the caller should remove it.
pub fn move_along_path(pos: &Position, speed: &Speed, path: &mut Path, vel: &mut Velocity) -> (done:
    bool)
    requires
        pos.wf(),
        speed.wf(),
        old(path).wf(),
    ensures
        final(path).cells() == old(path).cells(),
        final(path).wf(),
        ({
            let target = old(path).spec_target().spec_to_position();
            let remaining = dist2(*pos, target);
            &&& remaining < ARRIVAL_D2 ==> {
                &&& *final(vel) == *old(vel)
                &&& old(path).cursor() == old(path).cells().len() - 1 ==> done
                    && final(path).cursor() == old(path).cursor()
                &&& old(path).cursor() < old(path).cells().len() - 1 ==> !done
                    && final(path).cursor() == old(path).cursor() + 1
            }
            &&& remaining >= ARRIVAL_D2 ==> {
                &&& !done
                &&& final(path).cursor() == old(path).cursor()
                &&& *final(vel) == steer_velocity(
                    target.x - pos.x,
                    target.y - pos.y,
                    speed.0 as int,
                )
                &&& -speed.0 <= final(vel).x <= speed.0
                &&& -speed.0 <= final(vel).y <= speed.0
            }
        }),
{
    let target = path.target().to_position();
    let remaining = pos.distance_squared(&target);
    if remaining < ARRIVAL_D2 {
        let next_target = path.next();
        next_target.is_none()
    } else {
        proof {
            if pos.x == target.x && pos.y == target.y {
                assert((pos.x - target.x) * (pos.x - target.x) + (pos.y - target.y) * (pos.y
                    - target.y) == 0) by (nonlinear_arith)
                    requires
                        pos.x == target.x,
                        pos.y == target.y,
                ;
            }
        }
        let diff = target.sub(pos);
        *vel = steer_toward(diff.x, diff.y, speed.0);
        false
    }
}

} // verus!
