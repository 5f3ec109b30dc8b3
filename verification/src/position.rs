//! Discrete and continuous coordinates.
//!
//! A [`GridPosition`] addresses one cell of the walkability grid. A
//! [`Position`] is a continuous location measured in fixed-point cell units:
//! [`SCALE`] units make one cell, so the continuous point over the centre of
//! cell `(x, y)` is `(x * SCALE, y * SCALE)`. Keeping the continuous world in
//! integers lets every movement computation be stated and proved exactly.

use vstd::prelude::*;

verus! {

use vstd::math::abs;

use crate::map::WalkabilityMap;

/// Fixed-point units per grid cell.
pub const SCALE: i64 = 1000;

/// Half a cell, used when rounding a continuous coordinate to its nearest cell.
pub const HALF_CELL: i64 = 500;

/// Squared distance below which a path follower counts as having arrived at
/// a waypoint: a tenth of a squared cell, since continuous motion overshoots
/// and undershoots exact cell centres.
pub const ARRIVAL_D2: i128 = 100000;

/// Largest continuous coordinate, in fixed-point units: the centre of the
/// easternmost representable cell, `i32::MAX * SCALE`.
pub const POS_MAX: i64 = 2147483647000;

/// Smallest continuous coordinate, in fixed-point units: the centre of the
/// westernmost representable cell, `i32::MIN * SCALE`.
pub const POS_MIN: i64 = -2147483648000;

/// One discrete cell of the grid, addressed by exact integer coordinates.
#[derive(Clone, Copy, Debug, PartialEq, Eq, Hash, Structural)]
pub struct GridPosition {
    pub x: i32,
    pub y: i32,
}

/// The four axis-aligned unit offsets, in the fixed order used everywhere:
/// north, south, east, west.
pub open spec fn four_direction_seq() -> Seq<GridPosition> {
    seq![
        GridPosition { x: 0i32, y: 1i32 },
        GridPosition { x: 0i32, y: -1i32 },
        GridPosition { x: 1i32, y: 0i32 },
        GridPosition { x: -1i32, y: 0i32 },
    ]
}

impl GridPosition {
    pub fn new(x: i32, y: i32) -> (r: Self)
        ensures
            r == (GridPosition { x, y }),
    {
        GridPosition { x, y }
    }

    pub fn zero() -> (r: Self)
        ensures
            r == (GridPosition { x: 0i32, y: 0i32 }),
    {
        GridPosition { x: 0, y: 0 }
    }

    /// The four axis-aligned neighbour offsets (no diagonals), in the fixed
    /// order north, south, east, west.
    pub fn four_directions() -> (r: Vec<GridPosition>)
        ensures
            r@ == four_direction_seq(),
    {
        let mut dirs: Vec<GridPosition> = Vec::new();
        dirs.push(GridPosition { x: 0, y: 1 });
        dirs.push(GridPosition { x: 0, y: -1 });
        dirs.push(GridPosition { x: 1, y: 0 });
        dirs.push(GridPosition { x: -1, y: 0 });
        proof {
            assert(dirs@ =~= four_direction_seq());
        }
        dirs
    }

    /// Component-wise sum of a cell and an offset, as used for neighbour
    /// offsets and direction deltas.
    pub fn add(&self, rhs: &GridPosition) -> (r: GridPosition)
        requires
            i32::MIN <= self.x + rhs.x <= i32::MAX,
            i32::MIN <= self.y + rhs.y <= i32::MAX,
        ensures
            r.x == self.x + rhs.x,
            r.y == self.y + rhs.y,
    {
        GridPosition { x: self.x + rhs.x, y: self.y + rhs.y }
    }

    /// Component-wise difference of two cells.
    pub fn sub(&self, rhs: &GridPosition) -> (r: GridPosition)
        requires
            i32::MIN <= self.x - rhs.x <= i32::MAX,
            i32::MIN <= self.y - rhs.y <= i32::MAX,
        ensures
            r.x == self.x - rhs.x,
            r.y == self.y - rhs.y,
    {
        GridPosition { x: self.x - rhs.x, y: self.y - rhs.y }
    }

    /// The continuous point at this cell's centre.
    pub open spec fn spec_to_position(self) -> Position {
        Position { x: (self.x * SCALE) as i64, y: (self.y * SCALE) as i64 }
    }

    pub fn to_position(&self) -> (r: Position)
        ensures
            r == self.spec_to_position(),
            r.wf(),
            r.x == self.x * SCALE,
            r.y == self.y * SCALE,
    {
        Position { x: self.x as i64 * SCALE, y: self.y as i64 * SCALE }
    }
}

/// A coordinate that a [`Position`] may hold: the continuous band covered by
/// the representable cells.
pub open spec fn in_pos_range(v: int) -> bool {
    POS_MIN <= v <= POS_MAX
}

/// Continuous location of a movable entity, in fixed-point cell units.
#[derive(Clone, Copy, Debug, PartialEq, Eq, Structural)]
pub struct Position {
    pub x: i64,
    pub y: i64,
}

/// Rounding of one fixed-point coordinate to its nearest cell index,
/// half-cells rounding away from zero.
pub open spec fn round_units(u: int) -> int {
    if u >= 0 {
        (u + HALF_CELL) / (SCALE as int)
    } else {
        -(((HALF_CELL as int) - u) / (SCALE as int))
    }
}

/// Squared Euclidean distance between two positions, in squared fixed-point
/// units.
pub open spec fn dist2(a: Position, b: Position) -> int {
    (a.x - b.x) * (a.x - b.x) + (a.y - b.y) * (a.y - b.y)
}

impl Position {
    /// Both coordinates lie in the band covered by the representable cells.
    pub open spec fn wf(self) -> bool {
        in_pos_range(self.x as int) && in_pos_range(self.y as int)
    }

    pub fn new(x: i64, y: i64) -> (r: Self)
        ensures
            r == (Position { x, y }),
    {
        Position { x, y }
    }

    /// The cell whose centre is nearest to this position, each coordinate
    /// rounded separately, half-cells away from zero.
    pub open spec fn spec_nearest_cell(self) -> GridPosition {
        GridPosition { x: round_units(self.x as int) as i32, y: round_units(self.y as int) as i32 }
    }

    pub fn nearest_cell(&self) -> (r: GridPosition)
        requires
            self.wf(),
        ensures
            r == self.spec_nearest_cell(),
            r.x as int == round_units(self.x as int),
            r.y as int == round_units(self.y as int),
    {
        GridPosition { x: round_coord(self.x), y: round_coord(self.y) }
    }

    /// Squared Euclidean distance to `other`, exact in fixed-point units.
    pub fn distance_squared(&self, other: &Position) -> (r: i128)
        requires
            self.wf(),
            other.wf(),
        ensures
            r == dist2(*self, *other),
            0 <= r <= 50000000000000000000000000,
    {
        let dx: i128 = self.x as i128 - other.x as i128;
        let dy: i128 = self.y as i128 - other.y as i128;
        proof {
            lemma_square_bound(dx as int, 5000000000000);
            lemma_square_bound(dy as int, 5000000000000);
        }
        dx * dx + dy * dy
    }

    /// Component-wise difference of two continuous positions, the
    /// displacement from `rhs` to `self`.
    pub fn sub(&self, rhs: &Position) -> (r: Position)
        requires
            self.wf(),
            rhs.wf(),
        ensures
            r.x == self.x - rhs.x,
            r.y == self.y - rhs.y,
    {
        Position { x: self.x - rhs.x, y: self.y - rhs.y }
    }

    /// Euclidean distance to `other` in fixed-point units, rounded down to
    /// an integer amount of units.
    pub fn distance_to(&self, other: &Position) -> (r: i64)
        requires
            self.wf(),
            other.wf(),
        ensures
            r == sqrt_floor(dist2(*self, *other) as nat),
    {
        let d2 = self.distance_squared(other);
        let root = isqrt(d2 as u128);
        proof {
            lemma_sqrt_floor_at_most(d2 as nat, 10000000000000);
        }
        root as i64
    }
}

/// Rounds one fixed-point coordinate to its nearest cell index.
fn round_coord(u: i64) -> (r: i32)
    requires
        in_pos_range(u as int),
    ensures
        r as int == round_units(u as int),
{
    if u >= 0 {
        let q: i64 = (u + HALF_CELL) / SCALE;
        q as i32
    } else {
        let q: i64 = (HALF_CELL - u) / SCALE;
        -q as i32
    }
}

/// Converting a cell to the continuous point at its centre and rounding
/// back yields the same cell.
pub proof fn lemma_to_position_round_trip(c: GridPosition)
    ensures
        c.spec_to_position().spec_nearest_cell() == c,
{
    let x = c.x as int;
    let y = c.y as int;
    assert(round_units(x * (SCALE as int)) == x) by (nonlinear_arith)
        requires
            -2147483648 <= x <= 2147483647,
    ;
    assert(round_units(y * (SCALE as int)) == y) by (nonlinear_arith)
        requires
            -2147483648 <= y <= 2147483647,
    ;
}

/// The integer square root: the largest `r` with `r * r <= n`.
pub open spec fn sqrt_floor(n: nat) -> nat
    decreases n,
{
    if n == 0 {
        0
    } else {
        let r = sqrt_floor((n - 1) as nat);
        if (r + 1) * (r + 1) <= n {
            r + 1
        } else {
            r
        }
    }
}

/// `sqrt_floor(n)` squares to at most `n`, and is the largest such number.
pub proof fn lemma_sqrt_floor(n: nat)
    ensures
        sqrt_floor(n) * sqrt_floor(n) <= n,
        n < (sqrt_floor(n) + 1) * (sqrt_floor(n) + 1),
    decreases n,
{
    if n == 0 {
        assert(sqrt_floor(0) == 0);
        assert(n < (sqrt_floor(n) + 1) * (sqrt_floor(n) + 1)) by (nonlinear_arith)
            requires
                n == 0,
                sqrt_floor(n) == 0,
            ;
    } else {
        let r = sqrt_floor((n - 1) as nat);
        lemma_sqrt_floor((n - 1) as nat);
        assert(sqrt_floor(n) == if (r + 1) * (r + 1) <= n {
            r + 1
        } else {
            r
        });
        if (r + 1) * (r + 1) <= n {
            assert(sqrt_floor(n) == r + 1);
            assert(n < (r + 1 + 1) * (r + 1 + 1)) by (nonlinear_arith)
                requires
                    n - 1 < (r + 1) * (r + 1),
                ;
            assert(n < (sqrt_floor(n) + 1) * (sqrt_floor(n) + 1));
        } else {
            assert(sqrt_floor(n) == r);
            assert(n < (sqrt_floor(n) + 1) * (sqrt_floor(n) + 1));
        }
    }
}

/// Any two numbers whose squares bracket `n` the same way are equal.
proof fn lemma_sqrt_unique(n: nat, a: nat, b: nat)
    requires
        a * a <= n < (a + 1) * (a + 1),
        b * b <= n < (b + 1) * (b + 1),
    ensures
        a == b,
{
    assert(a == b) by (nonlinear_arith)
        requires
            a * a <= n < (a + 1) * (a + 1),
            b * b <= n < (b + 1) * (b + 1),
    ;
}

/// The integer square root of `n`: the largest `r` with `r * r <= n`,
/// computed by bisection.
pub fn isqrt(n: u128) -> (r: u128)
    ensures
        r == sqrt_floor(n as nat),
{
    let mut lo: u128 = 0;
    let mut hi: u128 = 18446744073709551616;
    proof {
        assert(n < hi * hi) by (nonlinear_arith)
            requires
                hi == 18446744073709551616u128,
                n <= 340282366920938463463374607431768211455u128,
            ;
    }
    while lo + 1 < hi
        invariant
            lo < hi <= 18446744073709551616,
            lo * lo <= n,
            n < hi * hi,
        decreases hi - lo,
    {
        let mid: u128 = lo + (hi - lo) / 2;
        proof {
            assert(mid * mid < 340282366920938463463374607431768211455) by (nonlinear_arith)
                requires
                    mid < 18446744073709551616,
                ;
        }
        if mid * mid <= n {
            lo = mid;
        } else {
            hi = mid;
        }
    }
    proof {
        lemma_sqrt_floor(n as nat);
        lemma_sqrt_unique(n as nat, lo as nat, sqrt_floor(n as nat));
    }
    lo
}

/// For `a * a <= n`, the integer square root of `n` is at least `a`.
pub proof fn lemma_sqrt_floor_at_least(a: nat, n: nat)
    requires
        a * a <= n,
    ensures
        a <= sqrt_floor(n),
{
    lemma_sqrt_floor(n);
    let r = sqrt_floor(n);
    assert(a <= r) by (nonlinear_arith)
        requires
            a * a <= n,
            n < (r + 1) * (r + 1),
    ;
}

/// For `n <= b * b`, the integer square root of `n` is at most `b`.
pub proof fn lemma_sqrt_floor_at_most(n: nat, b: nat)
    requires
        n <= b * b,
    ensures
        sqrt_floor(n) <= b,
{
    lemma_sqrt_floor(n);
    let r = sqrt_floor(n);
    assert(r <= b) by (nonlinear_arith)
        requires
            r * r <= n,
            n <= b * b,
    ;
}

/// For `|v| <= b`, the square of `v` is at most the square of `b`.
proof fn lemma_square_bound(v: int, b: int)
    requires
        -b <= v <= b,
        0 <= b,
    ensures
        0 <= v * v <= b * b,
{
    assert(0 <= v * v <= b * b) by (nonlinear_arith)
        requires
            -b <= v <= b,
            0 <= b,
    ;
}

/// A per-tick displacement in fixed-point cell units, added directly to a
/// [`Position`] when the tick's movement is applied.
#[derive(Clone, Copy, Debug, PartialEq, Eq, Structural)]
pub struct Velocity {
    pub x: i64,
    pub y: i64,
}

impl Velocity {
    pub fn new(x: i64, y: i64) -> (r: Self)
        ensures
            r == (Velocity { x, y }),
    {
        Velocity { x, y }
    }

    pub fn zero() -> (r: Self)
        ensures
            r == (Velocity { x: 0i64, y: 0i64 }),
    {
        Velocity { x: 0, y: 0 }
    }
}

/// One signed component of a speed-scaled unit vector: `d * s / m` computed
/// on the magnitude of `d` with the sign put back, so that exec truncating
/// division and spec Euclidean division agree.
pub open spec fn steer_component(d: int, m: int, s: int) -> int {
    if d >= 0 {
        (d * s) / m
    } else {
        -(((-d) * s) / m)
    }
}

/// The velocity that steers along `(dx, dy)` at speed `s`: the vector scaled
/// by `s` over its own Euclidean length, rounded toward zero.
pub open spec fn steer_velocity(dx: int, dy: int, s: int) -> Velocity {
    let m = sqrt_floor((dx * dx + dy * dy) as nat) as int;
    Velocity { x: steer_component(dx, m, s) as i64, y: steer_component(dy, m, s) as i64 }
}

/// Largest component magnitude `steer_toward` accepts: the width of the whole
/// continuous band, so any difference of two well-formed coordinates fits.
pub const STEER_MAX: i64 = 4294967295000;

/// Scales the direction `(dx, dy)` to length `s` (rounded toward zero),
/// giving the per-tick velocity of an agent that moves toward that offset at
/// speed `s`.
pub fn steer_toward(dx: i64, dy: i64, s: i64) -> (v: Velocity)
    requires
        -STEER_MAX <= dx <= STEER_MAX,
        -STEER_MAX <= dy <= STEER_MAX,
        0 <= s <= SCALE,
        dx != 0 || dy != 0,
    ensures
        v == steer_velocity(dx as int, dy as int, s as int),
        -s <= v.x <= s,
        -s <= v.y <= s,
{
    let dxl: i128 = dx as i128;
    let dyl: i128 = dy as i128;
    proof {
        lemma_square_bound(dxl as int, STEER_MAX as int);
        lemma_square_bound(dyl as int, STEER_MAX as int);
    }
    let n: u128 = (dxl * dxl + dyl * dyl) as u128;
    proof {
        assert(n >= 1) by (nonlinear_arith)
            requires
                n == dx * dx + dy * dy,
                dx != 0 || dy != 0,
        ;
        lemma_sqrt_floor_at_least(1, n as nat);
        lemma_sqrt_floor_at_most(n as nat, 10000000000000);
        let adx = abs(dx as int);
        let ady = abs(dy as int);
        assert(adx * adx <= n && ady * ady <= n) by (nonlinear_arith)
            requires
                n == dx * dx + dy * dy,
                (adx == dx || adx == -dx) && (ady == dy || ady == -dy),
        ;
        lemma_sqrt_floor_at_least(adx, n as nat);
        lemma_sqrt_floor_at_least(ady, n as nat);
    }
    let m: u128 = isqrt(n);
    let mi: i128 = m as i128;
    let vx: i64 = steer_scaled(dx, mi, s);
    let vy: i64 = steer_scaled(dy, mi, s);
    Velocity { x: vx, y: vy }
}

/// One component of `steer_toward`: `d * s / m` with truncation toward zero.
fn steer_scaled(d: i64, m: i128, s: i64) -> (r: i64)
    requires
        -STEER_MAX <= d <= STEER_MAX,
        0 < m <= 10000000000000,
        0 <= s <= SCALE,
    ensures
        r == steer_component(d as int, m as int, s as int),
        abs(d as int) <= m ==> -s <= r <= s,
{
    let a: i128 = if d >= 0 {
        d as i128
    } else {
        -(d as i128)
    };
    proof {
        lemma_square_bound(a as int, STEER_MAX as int);
        assert(a * (s as i128) <= STEER_MAX * (SCALE as i128)) by (nonlinear_arith)
            requires
                0 <= a <= STEER_MAX,
                0 <= s <= SCALE,
        ;
        lemma_div_scaled(a as int, m as int, s as int);
    }
    let q: i128 = (a * s as i128) / m;
    if d >= 0 {
        q as i64
    } else {
        -(q as i64)
    }
}

/// For `0 <= a`, `0 < m`, `0 <= s`: `a * s / m` lies between 0 and `a * s`,
/// and is at most `s` whenever `a <= m`.
proof fn lemma_div_scaled(a: int, m: int, s: int)
    requires
        0 <= a,
        0 < m,
        0 <= s,
    ensures
        0 <= (a * s) / m <= a * s,
        a <= m ==> (a * s) / m <= s,
{
    assert(0 <= (a * s) / m <= a * s && (a <= m ==> (a * s) / m <= s)) by (nonlinear_arith)
        requires
            0 <= a,
            0 < m,
            0 <= s,
    ;
}

/// One direction of the corridor-following behaviour: a follower whose
/// waypoint lies straight along the vertical axis, and who is far enough
/// out to be beyond the arrival threshold, steers at exactly its speed
/// toward the waypoint, so each travelling tick shrinks the remaining
/// distance by exactly that speed — monotonically, as long as the speed
/// stays below the threshold radius.
pub proof fn lemma_steer_along_axis(dy: int, s: int)
    requires
        dy * dy >= ARRIVAL_D2,
        0 < s <= 300,
    ensures
        steer_velocity(0, dy, s).x == 0,
        steer_velocity(0, dy, s).y == if dy > 0 {
            s
        } else {
            -s
        },
        abs(dy - steer_velocity(0, dy, s).y) == abs(dy) - s,
{
    let a = abs(dy) as int;
    assert(a >= 317 && 0 * 0 + dy * dy == a * a && a * a < (a + 1) * (a + 1)) by (nonlinear_arith)
        requires
            dy * dy >= 100000,
            a == dy || a == -dy,
            a >= 0,
    ;
    lemma_sqrt_floor((a * a) as nat);
    lemma_sqrt_unique((a * a) as nat, a as nat, sqrt_floor((a * a) as nat));
    let m = sqrt_floor((0 * 0 + dy * dy) as nat) as int;
    assert(m == a);
    assert((0 * s) / m == 0 && (a * s) / m == s) by (nonlinear_arith)
        requires
            m == a,
            a >= 317,
            0 < s <= 300,
    ;
    assert(steer_component(0, m, s) == 0);
    assert(steer_component(dy, m, s) == if dy > 0 {
        s
    } else {
        -s
    });
}

/// An agent's travel speed in fixed-point units per tick (at most one cell
/// per tick).
#[derive(Clone, Copy, Debug, PartialEq, Eq, Structural)]
pub struct Speed(pub i64);

impl Speed {
    /// A speed fits in a single tick's movement: at most one cell.
    pub open spec fn wf(self) -> bool {
        0 <= self.0 <= SCALE
    }

    /// The player-side walking speed: a tenth of a cell per tick.
    pub fn good_guy() -> (r: Self)
        ensures
            r.0 == 100,
            r.wf(),
    {
        Speed(100)
    }

    /// An escaping agent's walking speed, drawn fresh for each agent:
    /// between 0.04 and 0.06 cells per tick.
    pub fn bad_guy() -> (r: Self)
        ensures
            40 <= r.0 < 60,
            r.wf(),
    {
        let jitter: u64 = random_below(20);
        Speed(40 + jitter as i64)
    }
}

/// Relies on rand::random_range over `0..n`: a uniform draw from a non-empty
/// integer range lies within it (the call panics only on an empty range,
/// which the precondition excludes).
#[verifier::external_body]
pub(crate) fn random_below(n: u64) -> (r: u64)
    requires
        n > 0,
    ensures
        r < n,
{
    rand::random_range(0..n)
}

/// A discrete movement intent with each axis pulled left/down, centred, or
/// right/up, as produced by directional input.
#[derive(Clone, Copy, Debug, PartialEq, Eq, Structural)]
pub struct Direction {
    x: i8,
    y: i8,
}

impl Direction {
    /// Each component is -1, 0 or 1.
    pub open spec fn wf(self) -> bool {
        -1 <= self.dx() <= 1 && -1 <= self.dy() <= 1
    }

    /// The horizontal pull, as a mathematical integer.
    pub closed spec fn dx(self) -> int {
        self.x as int
    }

    /// The vertical pull, as a mathematical integer.
    pub closed spec fn dy(self) -> int {
        self.y as int
    }

    pub fn new() -> (r: Self)
        ensures
            r.dx() == 0 && r.dy() == 0,
            r.wf(),
    {
        Direction { x: 0, y: 0 }
    }

    pub fn left(&mut self)
        ensures
            final(self).dx() == -1,
            final(self).dy() == old(self).dy(),
            old(self).wf() ==> final(self).wf(),
    {
        self.x = -1;
    }

    pub fn right(&mut self)
        ensures
            final(self).dx() == 1,
            final(self).dy() == old(self).dy(),
            old(self).wf() ==> final(self).wf(),
    {
        self.x = 1;
    }

    pub fn up(&mut self)
        ensures
            final(self).dy() == 1,
            final(self).dx() == old(self).dx(),
            old(self).wf() ==> final(self).wf(),
    {
        self.y = 1;
    }

    pub fn down(&mut self)
        ensures
            final(self).dy() == -1,
            final(self).dx() == old(self).dx(),
            old(self).wf() ==> final(self).wf(),
    {
        self.y = -1;
    }

    /// The cell offset this direction points at.
    pub fn to_grid_pos(&self) -> (r: GridPosition)
        ensures
            r.x as int == self.dx(),
            r.y as int == self.dy(),
    {
        GridPosition { x: self.x as i32, y: self.y as i32 }
    }

    /// The velocity of an entity that moves along this direction at `speed`:
    /// the unit vector for the direction, scaled to the speed; zero when the
    /// direction is centred on both axes.
    pub fn normalized_velocity(&self, speed: &Speed) -> (v: Velocity)
        requires
            self.wf(),
            speed.wf(),
        ensures
            self.dx() == 0 && self.dy() == 0 ==> v == (Velocity { x: 0i64, y: 0i64 }),
            self.dx() != 0 || self.dy() != 0 ==> v == steer_velocity(
                self.dx() * SCALE,
                self.dy() * SCALE,
                speed.0 as int,
            ),
            -speed.0 <= v.x <= speed.0,
            -speed.0 <= v.y <= speed.0,
    {
        if self.x == 0 && self.y == 0 {
            Velocity::zero()
        } else {
            steer_toward(self.x as i64 * SCALE, self.y as i64 * SCALE, speed.0)
        }
    }
}

impl Default for Direction {
    fn default() -> (r: Self)
        ensures
            r.dx() == 0 && r.dy() == 0,
            r.wf(),
    {
        Direction { x: 0, y: 0 }
    }
}

/// The position reached from `p` after one tick of movement at velocity `v`.
pub open spec fn pos_plus(p: Position, v: Velocity) -> Position {
    Position { x: (p.x + v.x) as i64, y: (p.y + v.y) as i64 }
}

/// `v` with its vertical component cancelled: the horizontal slide along a
/// wall above or below.
pub open spec fn horizontal_only(v: Velocity) -> Velocity {
    Velocity { x: v.x, y: 0i64 }
}

/// `v` with its horizontal component cancelled: the vertical slide along a
/// wall to the side.
pub open spec fn vertical_only(v: Velocity) -> Velocity {
    Velocity { x: 0i64, y: v.y }
}

/// Whether the cell under the continuous point `p` may be entered.
pub open spec fn walkable_at(m: WalkabilityMap, p: Position) -> bool {
    m.walkable(p.spec_nearest_cell())
}

/// The velocity an entity at `p` actually moves with this tick: the
/// requested `v` where its destination is walkable; otherwise the first
/// walkable fallback, trying the horizontal-only slide before the
/// vertical-only slide; zero when every fallback is blocked.
pub open spec fn resolve_velocity(m: WalkabilityMap, p: Position, v: Velocity) -> Velocity {
    if walkable_at(m, pos_plus(p, v)) {
        v
    } else if walkable_at(m, pos_plus(p, horizontal_only(v))) {
        horizontal_only(v)
    } else if walkable_at(m, pos_plus(p, vertical_only(v))) {
        vertical_only(v)
    } else {
        Velocity { x: 0i64, y: 0i64 }
    }
}

/// Corner deadlock stops the entity outright: when neither the requested
/// move nor either axis-only slide lands on a walkable cell, the resolved
/// velocity is zero, and applying it leaves the position unchanged — the
/// entity simply does not move that tick, whatever its position or
/// requested velocity were.
pub proof fn lemma_corner_stops_motion(m: WalkabilityMap, p: Position, v: Velocity)
    requires
        !walkable_at(m, pos_plus(p, v)),
        !walkable_at(m, pos_plus(p, horizontal_only(v))),
        !walkable_at(m, pos_plus(p, vertical_only(v))),
    ensures
        resolve_velocity(m, p, v) == (Velocity { x: 0i64, y: 0i64 }),
        pos_plus(p, resolve_velocity(m, p, v)) == p,
{
}

/// Collision check for one entity: replaces its requested velocity for this
/// tick by the resolved one, sliding along walls where the straight move is
/// blocked and stopping entirely in a blocked corner. Runs after steering
/// has set the tick's velocity and before that velocity is applied.
pub fn check_velocity_collisions(map: &WalkabilityMap, pos: &Position, vel: &mut Velocity)
    requires
        pos.wf(),
        in_pos_range(pos.x + old(vel).x),
        in_pos_range(pos.y + old(vel).y),
    ensures
        *final(vel) == resolve_velocity(*map, *pos, *old(vel)),
{
    let tentative = Position { x: pos.x + vel.x, y: pos.y + vel.y };
    if !map.is_walkable_pos(&tentative) {
        // Allow "sliding" on the wall: horizontal first, then vertical.
        let h_vel = Velocity { x: vel.x, y: 0 };
        let h_tentative = Position { x: pos.x + h_vel.x, y: pos.y };
        let v_vel = Velocity { x: 0, y: vel.y };
        let v_tentative = Position { x: pos.x, y: pos.y + v_vel.y };
        if map.is_walkable_pos(&h_tentative) {
            *vel = h_vel;
        } else if map.is_walkable_pos(&v_tentative) {
            *vel = v_vel;
        } else {
            // Can't slide at all: stopped in a corner for this tick.
            *vel = Velocity::zero();
        }
    }
}

/// Applies a (previously resolved) velocity to a position: the entity moves
/// by exactly its velocity this tick.
pub fn apply_velocity(pos: &mut Position, vel: &Velocity)
    requires
        in_pos_range(old(pos).x + vel.x),
        in_pos_range(old(pos).y + vel.y),
    ensures
        *final(pos) == pos_plus(*old(pos), *vel),
        final(pos).wf(),
{
    pos.x = pos.x + vel.x;
    pos.y = pos.y + vel.y;
}

} // verus!
