//! The walkability map: the single source of truth for which grid cells an
//! agent may enter, and the shortest-path search over it.
//!
//! The map is sparse and fail-closed: a cell that was never written is not
//! walkable, so terrain never becomes passable by omission. Each write fully
//! overwrites one cell's flag; the last write wins.

use vstd::prelude::*;

use crate::position::{GridPosition, Position};

verus! {

broadcast use vstd::std_specs::hash::group_hash_axioms;

use vstd::math::abs;

/// Packs a cell into one 64-bit key: the x coordinate's bits in the upper
/// half, the y coordinate's bits in the lower half. Injective, so distinct
/// cells never share a key.
pub closed spec fn encode_cell(c: GridPosition) -> u64 {
    ((c.x as u32 as u64) << 32u64) | (c.y as u32 as u64)
}

/// Distinct cells get distinct keys.
proof fn lemma_encode_cell_injective()
    ensures
        forall|a: GridPosition, b: GridPosition|
            #![trigger encode_cell(a), encode_cell(b)]
            encode_cell(a) == encode_cell(b) ==> a == b,
{
    assert forall|a: GridPosition, b: GridPosition|
        #![trigger encode_cell(a), encode_cell(b)]
        encode_cell(a) == encode_cell(b) implies a == b by {
        let (ax, ay, bx, by) = (a.x, a.y, b.x, b.y);
        assert(((ax as u32 as u64) << 32u64) | (ay as u32 as u64) == ((bx as u32 as u64)
            << 32u64) | (by as u32 as u64) ==> ax == bx && ay == by) by (bit_vector);
    }
}

/// Sparse map from grid cell to a traversability flag. Cells never written
/// are treated as not walkable.
#[derive(Debug)]
pub struct WalkabilityMap {
    cells: std::collections::HashMap<u64, bool>,
}

impl WalkabilityMap {
    /// The stored entries, as a mathematical map keyed by cell.
    pub closed spec fn view(&self) -> Map<GridPosition, bool> {
        Map::new(
            |c: GridPosition| self.cells@.contains_key(encode_cell(c)),
            |c: GridPosition| self.cells@[encode_cell(c)],
        )
    }

    /// Whether `c` may be entered: its stored flag, or false when unset.
    pub open spec fn walkable(&self, c: GridPosition) -> bool {
        self@.contains_key(c) && self@[c]
    }

    /// A freshly constructed map holds no cells, so nothing is walkable.
    pub fn new() -> (r: Self)
        ensures
            r@ == Map::<GridPosition, bool>::empty(),
            forall|c: GridPosition| !r.walkable(c),
    {
        let r = WalkabilityMap { cells: std::collections::HashMap::new() };
        proof {
            assert(r@ =~= Map::<GridPosition, bool>::empty());
        }
        r
    }

    /// Unconditionally overwrites one cell's flag; every other cell keeps
    /// its state. Subsequent queries for `cell` see `walkable` at once,
    /// whatever was stored before.
    pub fn set_walkable(&mut self, cell: GridPosition, walkable: bool)
        ensures
            final(self)@ == old(self)@.insert(cell, walkable),
            final(self).walkable(cell) == walkable,
            forall|c: GridPosition| c != cell ==> #[trigger] final(self).walkable(c) == old(
                self,
            ).walkable(c),
    {
        let key = encode_key(&cell);
        self.cells.insert(key, walkable);
        proof {
            lemma_encode_cell_injective();
            assert(self@ =~= old(self)@.insert(cell, walkable));
        }
    }

    /// Whether `cell` may be entered; false for any cell never written.
    pub fn is_walkable(&self, cell: &GridPosition) -> (r: bool)
        ensures
            r == self.walkable(*cell),
    {
        let key = encode_key(cell);
        match self.cells.get(&key) {
            Some(v) => *v,
            None => false,
        }
    }

    /// Whether the cell nearest to the continuous position `pos` may be
    /// entered.
    pub fn is_walkable_pos(&self, pos: &Position) -> (r: bool)
        requires
            pos.wf(),
        ensures
            r == self.walkable(pos.spec_nearest_cell()),
    {
        self.is_walkable(&pos.nearest_cell())
    }

    /// The walkable cells among `c`'s four axis-aligned neighbours, in the
    /// fixed order north, south, east, west. A neighbour whose coordinate
    /// would leave the representable grid does not exist.
    pub open spec fn spec_walkable_neighbours(&self, c: GridPosition) -> Seq<GridPosition> {
        (if c.y < i32::MAX && self.walkable(GridPosition { x: c.x, y: (c.y + 1) as i32 }) {
            seq![GridPosition { x: c.x, y: (c.y + 1) as i32 }]
        } else {
            Seq::empty()
        }) + (if c.y > i32::MIN && self.walkable(GridPosition { x: c.x, y: (c.y - 1) as i32 }) {
            seq![GridPosition { x: c.x, y: (c.y - 1) as i32 }]
        } else {
            Seq::empty()
        }) + (if c.x < i32::MAX && self.walkable(GridPosition { x: (c.x + 1) as i32, y: c.y }) {
            seq![GridPosition { x: (c.x + 1) as i32, y: c.y }]
        } else {
            Seq::empty()
        }) + (if c.x > i32::MIN && self.walkable(GridPosition { x: (c.x - 1) as i32, y: c.y }) {
            seq![GridPosition { x: (c.x - 1) as i32, y: c.y }]
        } else {
            Seq::empty()
        })
    }

    /// The walkable cells among the four axis-aligned neighbours of `cell`
    /// (no diagonals), in the fixed order north, south, east, west, so that
    /// search output is deterministic for identical map state.
    pub fn walkable_neighbours(&self, cell: &GridPosition) -> (r: Vec<GridPosition>)
        ensures
            r@ == self.spec_walkable_neighbours(*cell),
            forall|g: GridPosition| r@.contains(g) <==> adjacent(*cell, g) && self.walkable(g),
    {
        let mut r: Vec<GridPosition> = Vec::new();
        if cell.y < i32::MAX {
            let north = GridPosition { x: cell.x, y: cell.y + 1 };
            if self.is_walkable(&north) {
                r.push(north);
            }
        }
        if cell.y > i32::MIN {
            let south = GridPosition { x: cell.x, y: cell.y - 1 };
            if self.is_walkable(&south) {
                r.push(south);
            }
        }
        if cell.x < i32::MAX {
            let east = GridPosition { x: cell.x + 1, y: cell.y };
            if self.is_walkable(&east) {
                r.push(east);
            }
        }
        if cell.x > i32::MIN {
            let west = GridPosition { x: cell.x - 1, y: cell.y };
            if self.is_walkable(&west) {
                r.push(west);
            }
        }
        proof {
            assert(r@ =~= self.spec_walkable_neighbours(*cell));
            self.lemma_neighbours_contains(*cell);
        }
        r
    }

    /// A cell stands in the neighbour list exactly when it is adjacent and
    /// walkable.
    pub proof fn lemma_neighbours_contains(&self, c: GridPosition)
        ensures
            forall|g: GridPosition| #[trigger] self.spec_walkable_neighbours(c).contains(g)
                <==> adjacent(c, g) && self.walkable(g),
    {
        let s = self.spec_walkable_neighbours(c);
        assert forall|g: GridPosition| #[trigger] s.contains(g) implies adjacent(c, g)
            && self.walkable(g) by {
            let i = choose|i: int| 0 <= i < s.len() && s[i] == g;
        }
        assert forall|g: GridPosition| adjacent(c, g) && self.walkable(g) implies s.contains(
            g,
        ) by {
            let head_count = (if c.y < i32::MAX && self.walkable(
                GridPosition { x: c.x, y: (c.y + 1) as i32 },
            ) {
                1int
            } else {
                0int
            });
            let head_count2 = head_count + (if c.y > i32::MIN && self.walkable(
                GridPosition { x: c.x, y: (c.y - 1) as i32 },
            ) {
                1int
            } else {
                0int
            });
            let head_count3 = head_count2 + (if c.x < i32::MAX && self.walkable(
                GridPosition { x: (c.x + 1) as i32, y: c.y },
            ) {
                1int
            } else {
                0int
            });
            if g.x == c.x && g.y == c.y + 1 {
                assert(c.y < i32::MAX);
                assert(g == (GridPosition { x: c.x, y: (c.y + 1) as i32 }));
                assert(s[0] == g);
            } else if g.x == c.x && g.y == c.y - 1 {
                assert(c.y > i32::MIN);
                assert(g == (GridPosition { x: c.x, y: (c.y - 1) as i32 }));
                assert(s[head_count] == g);
            } else if g.x == c.x + 1 && g.y == c.y {
                assert(c.x < i32::MAX);
                assert(g == (GridPosition { x: (c.x + 1) as i32, y: c.y }));
                assert(s[head_count2] == g);
            } else {
                assert(g.x == c.x - 1 && g.y == c.y);
                assert(c.x > i32::MIN);
                assert(g == (GridPosition { x: (c.x - 1) as i32, y: c.y }));
                assert(s[head_count3] == g);
            }
        }
    }
}

impl WalkabilityMap {
    /// Whether an agent standing on `a` may move onto `b` in one step: the
    /// cells are adjacent and the target is walkable.
    pub open spec fn path_step(&self, a: GridPosition, b: GridPosition) -> bool {
        adjacent(a, b) && self.walkable(b)
    }

    /// Whether the move at index `i` of `p` is legal: it goes from `p[i]`
    /// to the adjacent, walkable cell `p[i + 1]`.
    pub open spec fn step_ok(&self, p: Seq<GridPosition>, i: int) -> bool {
        self.path_step(p[i], p[i + 1])
    }

    /// Whether `p` is a route an agent could take through this map: it
    /// starts at `src`, ends at `dst`, and every move steps to an adjacent,
    /// walkable cell. The start cell itself need not be walkable, since a
    /// search is seeded there directly.
    pub open spec fn is_path(&self, p: Seq<GridPosition>, src: GridPosition, dst: GridPosition) -> bool {
        &&& p.len() >= 1
        &&& p[0] == src
        &&& p[p.len() - 1] == dst
        &&& forall|i: int| 0 <= i < p.len() - 1 ==> #[trigger] self.step_ok(p, i)
    }

    /// Minimum-step four-directional route from `src` to `dst`, or `None`
    /// when no walkable route connects them. A returned route includes both
    /// endpoints; the cost counts its moves, one per step, saturated at the
    /// largest representable cost. The result is a function of the map
    /// contents and the two endpoints alone (see [`astar_route`]), so two
    /// calls on equal map state are answered identically. The non-existence
    /// of a route is an expected outcome, not an error: the caller retries
    /// later, once the map has changed.
    pub fn find_path(&self, src: &GridPosition, dst: &GridPosition) -> (r: Option<
        (Vec<GridPosition>, i32),
    >)
        ensures
            match r {
                Some(pc) => {
                    &&& self.is_path(pc.0@, *src, *dst)
                    &&& forall|q: Seq<GridPosition>|
                        self.is_path(q, *src, *dst) ==> pc.0@.len() <= q.len()
                    &&& pc.1 == if pc.0@.len() - 1 <= i32::MAX {
                        pc.0@.len() - 1
                    } else {
                        i32::MAX as int
                    }
                    &&& astar_route(self@, *src, *dst) == Some((pc.0@, pc.0@.len() - 1))
                },
                None => {
                    &&& forall|q: Seq<GridPosition>| !self.is_path(q, *src, *dst)
                    &&& astar_route(self@, *src, *dst) is None
                },
            },
    {
        match astar_search(self, src, dst) {
            None => None,
            Some((steps, cost)) => {
                let capped: i32 = if cost <= 2147483647 {
                    cost as i32
                } else {
                    2147483647
                };
                Some((steps, capped))
            },
        }
    }
}

/// The route that the search of [`WalkabilityMap::find_path`] picks for the
/// given map entries and endpoints, with its move count, or `None` when the
/// goal is unreachable. The search is a function of these three values
/// alone: its successor order is the fixed neighbour order above, and the
/// frontier and parent bookkeeping of the underlying crate iterate in
/// deterministic heap and insertion order, with no per-process hash seed
/// involved — so naming the result is sound, and it states that equal map
/// states are answered identically.
pub uninterp spec fn astar_route(
    entries: Map<GridPosition, bool>,
    src: GridPosition,
    dst: GridPosition,
) -> Option<(Seq<GridPosition>, int)>;

/// Relies on pathfinding::directed::astar::astar: seeded at `src`, with the
/// successors of a cell taken to be its walkable neighbours at cost `1i64`
/// each and the goal test an exact match on `dst`, the call returns a path
/// comprising both endpoints together with its total cost, and `None`
/// exactly when the goal is unreachable. The cost-1 edges make the total
/// cost the number of moves, and the Manhattan-distance heuristic never
/// exceeds the true number of moves remaining (each move changes it by at
/// most one), so the crate's admissibility condition holds and the returned
/// path is one of minimal cost. The search's `i64` cost sums stay far from
/// overflow: a path cost is below the number of stored nodes, each node
/// costs tens of bytes of memory, and the heuristic adds at most 2^33, so
/// every intermediate total is far below `i64::MAX` for any search that
/// fits in an address space. The crate's tie-breaking is deterministic
/// (binary-heap and insertion order, a fixed hasher), which grounds the
/// [`astar_route`] clause.
#[verifier::external_body]
fn astar_search(map: &WalkabilityMap, src: &GridPosition, dst: &GridPosition) -> (r: Option<
    (Vec<GridPosition>, i64),
>)
    ensures
        match r {
            Some(pc) => {
                &&& map.is_path(pc.0@, *src, *dst)
                &&& forall|q: Seq<GridPosition>|
                    map.is_path(q, *src, *dst) ==> pc.0@.len() <= q.len()
                &&& pc.1 == pc.0@.len() - 1
                &&& astar_route(map@, *src, *dst) == Some((pc.0@, pc.1 as int))
            },
            None => {
                &&& forall|q: Seq<GridPosition>| !map.is_path(q, *src, *dst)
                &&& astar_route(map@, *src, *dst) is None
            },
        },
{
    pathfinding::prelude::astar(
        src,
        |c: &GridPosition| {
            map.walkable_neighbours(c).into_iter().map(|n| (n, 1i64)).collect::<Vec<_>>()
        },
        |c: &GridPosition| manhattan_dist(c, dst),
        |c: &GridPosition| c == dst,
    )
}

/// Number of four-directional moves needed between two cells on an
/// obstacle-free grid: the sum of the coordinate differences' magnitudes.
pub open spec fn manhattan(a: GridPosition, b: GridPosition) -> int {
    abs(a.x - b.x) + abs(a.y - b.y) as int
}

/// The exact Manhattan distance between two cells; any two cell coordinates
/// are at most 2^32 apart on each axis, so the sum always fits.
fn manhattan_dist(a: &GridPosition, b: &GridPosition) -> (r: i64)
    ensures
        r == manhattan(*a, *b),
{
    let dx: i64 = a.x as i64 - b.x as i64;
    let adx: i64 = if dx < 0 {
        -dx
    } else {
        dx
    };
    let dy: i64 = a.y as i64 - b.y as i64;
    let ady: i64 = if dy < 0 {
        -dy
    } else {
        dy
    };
    adx + ady
}

/// The map entries after a batch of cell writes has been applied in order.
pub open spec fn apply_cell_updates(
    entries: Map<GridPosition, bool>,
    updates: Seq<(GridPosition, bool)>,
) -> Map<GridPosition, bool>
    decreases updates.len(),
{
    if updates.len() == 0 {
        entries
    } else {
        apply_cell_updates(entries.insert(updates[0].0, updates[0].1), updates.drop_first())
    }
}

/// Applies a batch of traversability changes to the map, cell by cell and
/// in order, as the surrounding application reports entities whose
/// footprint cells became walkable or blocked.
pub fn update_map_with_walkables(map: &mut WalkabilityMap, updates: &Vec<(GridPosition, bool)>)
    ensures
        final(map)@ == apply_cell_updates(old(map)@, updates@),
{
    let n = updates.len();
    proof {
        assert(updates@.skip(0) =~= updates@);
    }
    let mut i: usize = 0;
    while i < n
        invariant
            i <= n,
            n == updates@.len(),
            apply_cell_updates(old(map)@, updates@) == apply_cell_updates(
                map@,
                updates@.skip(i as int),
            ),
        decreases n - i,
    {
        let ghost pre = map@;
        let (cell, walkable) = updates[i];
        map.set_walkable(cell, walkable);
        proof {
            let rest = updates@.skip(i as int);
            assert(rest[0] == updates@[i as int]);
            assert(rest.drop_first() =~= updates@.skip(i as int + 1));
            assert(apply_cell_updates(pre, rest) == apply_cell_updates(
                map@,
                updates@.skip(i as int + 1),
            ));
        }
        i = i + 1;
    }
    proof {
        assert(updates@.skip(n as int).len() == 0);
        assert(apply_cell_updates(map@, updates@.skip(n as int)) == map@);
    }
}

/// Whether `c` lies under a footprint: it is `anchor` shifted by one of the
/// offsets.
pub open spec fn footprint_covers(
    anchor: GridPosition,
    offsets: Seq<GridPosition>,
    c: GridPosition,
) -> bool {
    exists|j: int|
        0 <= j < offsets.len() && c.x == anchor.x + (#[trigger] offsets[j]).x && c.y == anchor.y
            + offsets[j].y
}

/// Writes one flag across a whole footprint: every cell of `anchor` shifted
/// by an offset gets `walkable`, and no other cell changes. This is how a
/// door or wall segment toggles the traversability of the cells it spans.
pub fn set_walkable_footprint(
    map: &mut WalkabilityMap,
    anchor: &GridPosition,
    offsets: &Vec<GridPosition>,
    walkable: bool,
)
    requires
        forall|j: int|
            0 <= j < offsets@.len() ==> i32::MIN <= anchor.x + (#[trigger] offsets@[j]).x
                <= i32::MAX && i32::MIN <= anchor.y + offsets@[j].y <= i32::MAX,
    ensures
        forall|c: GridPosition|
            #[trigger] final(map).walkable(c) == if footprint_covers(*anchor, offsets@, c) {
                walkable
            } else {
                old(map).walkable(c)
            },
{
    let n = offsets.len();
    let mut i: usize = 0;
    while i < n
        invariant
            i <= n,
            n == offsets@.len(),
            forall|j: int|
                0 <= j < offsets@.len() ==> i32::MIN <= anchor.x + (#[trigger] offsets@[j]).x
                    <= i32::MAX && i32::MIN <= anchor.y + offsets@[j].y <= i32::MAX,
            forall|c: GridPosition|
                #[trigger] map.walkable(c) == if footprint_covers(
                    *anchor,
                    offsets@.take(i as int),
                    c,
                ) {
                    walkable
                } else {
                    old(map).walkable(c)
                },
        decreases n - i,
    {
        let ghost pre = *map;
        let d = offsets[i];
        let cell = anchor.add(&d);
        map.set_walkable(cell, walkable);
        proof {
            let taken = offsets@.take(i as int);
            let taken2 = offsets@.take(i as int + 1);
            assert forall|c: GridPosition| #[trigger] map.walkable(c) == if footprint_covers(
                *anchor,
                taken2,
                c,
            ) {
                walkable
            } else {
                old(map).walkable(c)
            } by {
                if c == cell {
                    assert(taken2[i as int] == d);
                    assert(footprint_covers(*anchor, taken2, c));
                } else {
                    assert(map.walkable(c) == pre.walkable(c));
                    assert(footprint_covers(*anchor, taken2, c) == footprint_covers(
                        *anchor,
                        taken,
                        c,
                    )) by {
                        if footprint_covers(*anchor, taken2, c) {
                            let j = choose|j: int|
                                0 <= j < taken2.len() && c.x == anchor.x + (#[trigger] taken2[j]).x
                                    && c.y == anchor.y + taken2[j].y;
                            assert(j != i as int);
                            assert(taken[j] == taken2[j]);
                        } else {
                            if footprint_covers(*anchor, taken, c) {
                                let j = choose|j: int|
                                    0 <= j < taken.len() && c.x == anchor.x + (#[trigger] taken[j]).x
                                        && c.y == anchor.y + taken[j].y;
                                assert(taken2[j] == taken[j]);
                            }
                        }
                    }
                }
            }
        }
        i = i + 1;
    }
    proof {
        assert(offsets@.take(n as int) =~= offsets@);
    }
}

/// Whether `b` is one of the four axis-aligned neighbours of `a`.
pub open spec fn adjacent(a: GridPosition, b: GridPosition) -> bool {
    ||| (b.x == a.x && b.y == a.y + 1)
    ||| (b.x == a.x && b.y == a.y - 1)
    ||| (b.x == a.x + 1 && b.y == a.y)
    ||| (b.x == a.x - 1 && b.y == a.y)
}

/// Neighbourhood is symmetric: when two adjacent cells are both walkable,
/// each appears in the other's walkable-neighbour list.
pub proof fn lemma_neighbour_symmetry(m: &WalkabilityMap, a: GridPosition, b: GridPosition)
    requires
        adjacent(a, b),
        m.walkable(a),
        m.walkable(b),
    ensures
        m.spec_walkable_neighbours(a).contains(b),
        m.spec_walkable_neighbours(b).contains(a),
{
    m.lemma_neighbours_contains(a);
    m.lemma_neighbours_contains(b);
}

/// Overwrite semantics: after any sequence of writes, only the most recent
/// write for a cell decides its flag. Writing `first` and then `last` to the
/// same cell leaves the map exactly as if `last` had been written alone.
pub proof fn lemma_set_overwrites(
    entries: Map<GridPosition, bool>,
    cell: GridPosition,
    first: bool,
    last: bool,
)
    ensures
        entries.insert(cell, first).insert(cell, last) == entries.insert(cell, last),
        entries.insert(cell, first).insert(cell, last)[cell] == last,
{
    assert(entries.insert(cell, first).insert(cell, last) =~= entries.insert(cell, last));
}

/// No route can beat the Manhattan distance: every path from `src` to `dst`
/// has at least `manhattan(src, dst)` moves, since each four-directional
/// move changes the distance to `dst` by at most one.
pub proof fn lemma_path_at_least_manhattan(
    m: &WalkabilityMap,
    q: Seq<GridPosition>,
    src: GridPosition,
    dst: GridPosition,
)
    requires
        m.is_path(q, src, dst),
    ensures
        q.len() >= manhattan(src, dst) + 1,
    decreases q.len(),
{
    if q.len() == 1 {
        assert(src == dst);
    } else {
        let q2 = q.subrange(1, q.len() as int);
        assert(m.step_ok(q, 0));
        assert(m.is_path(q2, q[1], dst)) by {
            assert(q2[q2.len() - 1] == q[q.len() - 1]);
            assert forall|i: int| 0 <= i < q2.len() - 1 implies #[trigger] m.step_ok(
                q2,
                i,
            ) by {
                assert(q2[i] == q[i + 1]);
                assert(q2[i + 1] == q[i + 2]);
                assert(m.step_ok(q, i + 1));
            }
        }
        lemma_path_at_least_manhattan(m, q2, q[1], dst);
        assert(manhattan(src, dst) <= manhattan(q[1], dst) + 1);
    }
}

/// On a map whose rectangle from `(0, 0)` to `(3, 4)` is fully walkable,
/// the shortest route from corner to corner takes exactly 8 cells: one
/// exists, and none can be shorter than Manhattan distance plus one.
pub proof fn lemma_open_grid_shortest(m: &WalkabilityMap)
    requires
        forall|g: GridPosition| 0 <= g.x <= 3 && 0 <= g.y <= 4 ==> #[trigger] m.walkable(g),
    ensures
        exists|p: Seq<GridPosition>|
            m.is_path(p, GridPosition { x: 0i32, y: 0i32 }, GridPosition { x: 3i32, y: 4i32 })
                && p.len() == 8,
        forall|q: Seq<GridPosition>|
            m.is_path(q, GridPosition { x: 0i32, y: 0i32 }, GridPosition { x: 3i32, y: 4i32 })
                ==> q.len() >= 8,
{
    let src = GridPosition { x: 0i32, y: 0i32 };
    let dst = GridPosition { x: 3i32, y: 4i32 };
    let p = seq![
        GridPosition { x: 0i32, y: 0i32 },
        GridPosition { x: 1i32, y: 0i32 },
        GridPosition { x: 2i32, y: 0i32 },
        GridPosition { x: 3i32, y: 0i32 },
        GridPosition { x: 3i32, y: 1i32 },
        GridPosition { x: 3i32, y: 2i32 },
        GridPosition { x: 3i32, y: 3i32 },
        GridPosition { x: 3i32, y: 4i32 },
    ];
    assert(m.is_path(p, src, dst)) by {
        assert forall|i: int| 0 <= i < p.len() - 1 implies #[trigger] m.step_ok(p, i) by {
            assert(m.walkable(p[i + 1]));
        }
    }
    assert(m.is_path(p, src, dst) && p.len() == 8);
    assert forall|q: Seq<GridPosition>| m.is_path(q, src, dst) implies q.len() >= 8 by {
        lemma_path_at_least_manhattan(m, q, src, dst);
        assert(manhattan(src, dst) == 7);
    }
}

/// A goal walled off on all four sides cannot be reached from anywhere
/// else: when every neighbour of `dst` is non-walkable and `src` is neither
/// `dst` nor beside it, no path connects them.
pub proof fn lemma_no_path_when_surrounded(
    m: &WalkabilityMap,
    src: GridPosition,
    dst: GridPosition,
)
    requires
        src != dst,
        !adjacent(src, dst),
        forall|g: GridPosition| adjacent(dst, g) ==> !(#[trigger] m.walkable(g)),
    ensures
        forall|q: Seq<GridPosition>| !m.is_path(q, src, dst),
{
    assert forall|q: Seq<GridPosition>| !m.is_path(q, src, dst) by {
        lemma_surrounded_path_impossible(m, q, src, dst);
    }
}

/// One instance of `lemma_no_path_when_surrounded`: a route into a
/// walled-off goal would have to step through one of the goal's
/// non-walkable neighbours, so no sequence is such a route.
proof fn lemma_surrounded_path_impossible(
    m: &WalkabilityMap,
    q: Seq<GridPosition>,
    src: GridPosition,
    dst: GridPosition,
)
    requires
        src != dst,
        !adjacent(src, dst),
        forall|g: GridPosition| adjacent(dst, g) ==> !(#[trigger] m.walkable(g)),
    ensures
        !m.is_path(q, src, dst),
{
    if m.is_path(q, src, dst) {
        let n = q.len() as int;
        if n == 1 {
            assert(src == dst);
        } else {
            assert(m.step_ok(q, n - 2));
            assert(adjacent(dst, q[n - 2]));
            assert(!m.walkable(q[n - 2]));
            if n == 2 {
                assert(adjacent(src, dst));
            } else {
                assert(m.step_ok(q, n - 3));
            }
        }
    }
}

/// Packs a cell into its 64-bit hash key.
fn encode_key(c: &GridPosition) -> (k: u64)
    ensures
        k == encode_cell(*c),
{
    ((c.x as u32 as u64) << 32) | (c.y as u32 as u64)
}

} // verus!
