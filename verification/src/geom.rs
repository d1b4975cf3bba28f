//! Tile coordinates and the eight compass directions.
use vstd::prelude::*;

verus! {

/// A tile position on the map (same layout as the terminal library's point).
#[derive(Clone, Copy, PartialEq, Eq, Structural, Debug)]
pub struct Point {
    pub x: i32,
    pub y: i32,
}

impl Point {
    pub fn new(x: i32, y: i32) -> (p: Point)
        ensures
            p.x == x,
            p.y == y,
    {
        Point { x, y }
    }
}

/// The eight directions an actor can face, in clockwise order starting north.
#[derive(Clone, Copy, PartialEq, Eq, Structural, Debug)]
pub enum Direction {
    Up,
    UpRight,
    Right,
    DownRight,
    Down,
    DownLeft,
    Left,
    UpLeft,
}

/// Position of a direction in the clockwise order (Up = 0).
pub open spec fn dir_index(d: Direction) -> int {
    match d {
        Direction::Up => 0,
        Direction::UpRight => 1,
        Direction::Right => 2,
        Direction::DownRight => 3,
        Direction::Down => 4,
        Direction::DownLeft => 5,
        Direction::Left => 6,
        Direction::UpLeft => 7,
    }
}

/// The direction at a position of the clockwise order (taken modulo 8).
pub open spec fn dir_at(i: int) -> Direction {
    let k = i % 8;
    if k == 0 {
        Direction::Up
    } else if k == 1 {
        Direction::UpRight
    } else if k == 2 {
        Direction::Right
    } else if k == 3 {
        Direction::DownRight
    } else if k == 4 {
        Direction::Down
    } else if k == 5 {
        Direction::DownLeft
    } else if k == 6 {
        Direction::Left
    } else {
        Direction::UpLeft
    }
}

/// Unit step (dx, dy) of a direction; y grows downward.
pub open spec fn spec_delta(d: Direction) -> (int, int) {
    match d {
        Direction::Up => (0, -1),
        Direction::UpRight => (1, -1),
        Direction::Right => (1, 0),
        Direction::DownRight => (1, 1),
        Direction::Down => (0, 1),
        Direction::DownLeft => (-1, 1),
        Direction::Left => (-1, 0),
        Direction::UpLeft => (-1, -1),
    }
}

/// The direction whose step is exactly (dx, dy), if any.
pub open spec fn dir_of_delta(dx: int, dy: int) -> Option<Direction> {
    if dx == 0 && dy == -1 {
        Some(Direction::Up)
    } else if dx == 1 && dy == -1 {
        Some(Direction::UpRight)
    } else if dx == 1 && dy == 0 {
        Some(Direction::Right)
    } else if dx == 1 && dy == 1 {
        Some(Direction::DownRight)
    } else if dx == 0 && dy == 1 {
        Some(Direction::Down)
    } else if dx == -1 && dy == 1 {
        Some(Direction::DownLeft)
    } else if dx == -1 && dy == 0 {
        Some(Direction::Left)
    } else if dx == -1 && dy == -1 {
        Some(Direction::UpLeft)
    } else {
        None
    }
}

pub open spec fn sign(v: int) -> int {
    if v > 0 {
        1
    } else if v < 0 {
        -1
    } else {
        0
    }
}

/// Half of `v`, rounded toward zero (Rust's integer division by two).
pub open spec fn trunc_half(v: int) -> int {
    if v >= 0 {
        v / 2
    } else {
        -((-v) / 2)
    }
}

pub open spec fn abs_int(v: int) -> int {
    if v < 0 {
        -v
    } else {
        v
    }
}

/// Chebyshev (king-move) distance.
pub open spec fn spec_chebyshev(a: Point, b: Point) -> int {
    let dx = abs_int(a.x - b.x);
    let dy = abs_int(a.y - b.y);
    if dx >= dy {
        dx
    } else {
        dy
    }
}

/// Squared Euclidean distance.
pub open spec fn spec_sq_dist(a: Point, b: Point) -> int {
    (a.x - b.x) * (a.x - b.x) + (a.y - b.y) * (a.y - b.y)
}

/// The value fits in an i32.
pub open spec fn fits_i32(v: int) -> bool {
    i32::MIN <= v <= i32::MAX
}

/// The coordinate differences between two tiles fit in an i32.
pub open spec fn diff_fits(a: Point, b: Point) -> bool {
    fits_i32(a.x - b.x) && fits_i32(a.y - b.y)
}

impl Direction {
    /// Unit step of this direction.
    pub fn delta_pos(&self) -> (r: (i32, i32))
        ensures
            r.0 == spec_delta(*self).0,
            r.1 == spec_delta(*self).1,
    {
        match self {
            Direction::Up => (0, -1),
            Direction::UpRight => (1, -1),
            Direction::Right => (1, 0),
            Direction::DownRight => (1, 1),
            Direction::Down => (0, 1),
            Direction::DownLeft => (-1, 1),
            Direction::Left => (-1, 0),
            Direction::UpLeft => (-1, -1),
        }
    }

    /// The next direction clockwise (45 degrees).
    pub fn clockwise(&self) -> (r: Direction)
        ensures
            r == dir_at(dir_index(*self) + 1),
    {
        match self {
            Direction::Up => Direction::UpRight,
            Direction::UpRight => Direction::Right,
            Direction::Right => Direction::DownRight,
            Direction::DownRight => Direction::Down,
            Direction::Down => Direction::DownLeft,
            Direction::DownLeft => Direction::Left,
            Direction::Left => Direction::UpLeft,
            Direction::UpLeft => Direction::Up,
        }
    }

    /// The next direction counter-clockwise (45 degrees).
    pub fn counter_clockwise(&self) -> (r: Direction)
        ensures
            r == dir_at(dir_index(*self) + 7),
    {
        match self {
            Direction::Up => Direction::UpLeft,
            Direction::UpRight => Direction::Up,
            Direction::Right => Direction::UpRight,
            Direction::DownRight => Direction::Right,
            Direction::Down => Direction::DownRight,
            Direction::DownLeft => Direction::Down,
            Direction::Left => Direction::DownLeft,
            Direction::UpLeft => Direction::Left,
        }
    }

    /// The direction at position `i` of the clockwise order starting north.
    pub fn from_index(i: usize) -> (r: Direction)
        requires
            i < 8,
        ensures
            r == dir_at(i as int),
            dir_index(r) == i,
    {
        if i == 0 {
            Direction::Up
        } else if i == 1 {
            Direction::UpRight
        } else if i == 2 {
            Direction::Right
        } else if i == 3 {
            Direction::DownRight
        } else if i == 4 {
            Direction::Down
        } else if i == 5 {
            Direction::DownLeft
        } else if i == 6 {
            Direction::Left
        } else {
            Direction::UpLeft
        }
    }
}

/// Turning clockwise undoes turning counter-clockwise, and the reverse.
pub proof fn law_turns_cancel(d: Direction)
    ensures
        dir_at(dir_index(dir_at(dir_index(d) + 1)) + 7) == d,
        dir_at(dir_index(dir_at(dir_index(d) + 7)) + 1) == d,
{
}

/// Eight clockwise turns bring a direction back to itself, and each turn moves
/// exactly one place round the compass.
pub proof fn law_clockwise_cycle(d: Direction, k: int)
    requires
        0 <= k,
    ensures
        dir_at(dir_index(d) + 8 * k) == d,
        dir_index(dir_at(dir_index(d) + 1)) == (dir_index(d) + 1) % 8,
{
    assert((dir_index(d) + 8 * k) % 8 == dir_index(d)) by (nonlinear_arith)
        requires
            0 <= dir_index(d) < 8,
            0 <= k,
    ;
}

/// True if the two tiles are the same or touch, diagonals included.
pub fn adjacent(p1: Point, p2: Point) -> (r: bool)
    requires
        diff_fits(p1, p2),
    ensures
        r == (abs_int(p1.x - p2.x) <= 1 && abs_int(p1.y - p2.y) <= 1),
{
    let dx = p1.x - p2.x;
    let dy = p1.y - p2.y;
    (-1 <= dx && dx <= 1) && (-1 <= dy && dy <= 1)
}

/// Direction of a step from `from` to the adjacent tile `to`; None when `to`
/// is not one step away.
pub fn direction_to(from: Point, to: Point) -> (r: Option<Direction>)
    ensures
        r == dir_of_delta(to.x - from.x, to.y - from.y),
{
    let dx = to.x as i64 - from.x as i64;
    let dy = to.y as i64 - from.y as i64;
    if dx == 0 && dy == -1 {
        Some(Direction::Up)
    } else if dx == 1 && dy == -1 {
        Some(Direction::UpRight)
    } else if dx == 1 && dy == 0 {
        Some(Direction::Right)
    } else if dx == 1 && dy == 1 {
        Some(Direction::DownRight)
    } else if dx == 0 && dy == 1 {
        Some(Direction::Down)
    } else if dx == -1 && dy == 1 {
        Some(Direction::DownLeft)
    } else if dx == -1 && dy == 0 {
        Some(Direction::Left)
    } else if dx == -1 && dy == -1 {
        Some(Direction::UpLeft)
    } else {
        None
    }
}

/// The sign of `b - a`.
fn sign_of_diff(a: i32, b: i32) -> (r: i32)
    ensures
        r == sign(b - a),
{
    if b > a {
        1
    } else if b < a {
        -1
    } else {
        0
    }
}

/// Nearest of the eight directions pointing from `from` toward `to`; None when
/// the two tiles coincide.
pub fn direction_toward(from: Point, to: Point) -> (r: Option<Direction>)
    ensures
        r == dir_of_delta(sign(to.x - from.x), sign(to.y - from.y)),
        r.is_none() <==> from == to,
{
    let sx = sign_of_diff(from.x, to.x);
    let sy = sign_of_diff(from.y, to.y);
    direction_to(Point { x: 0, y: 0 }, Point { x: sx, y: sy })
}

/// Like [`direction_toward`], but facing north when the tiles coincide.
pub fn dir_toward(from: Point, to: Point) -> (r: Direction)
    ensures
        from != to ==> Some(r) == dir_of_delta(sign(to.x - from.x), sign(to.y - from.y)),
        from == to ==> r == Direction::Up,
{
    match direction_toward(from, to) {
        Some(d) => d,
        None => Direction::Up,
    }
}

/// The tile one step ahead of `pos` when facing `dir`.
pub fn forward_tile(pos: Point, dir: Direction) -> (r: Point)
    requires
        fits_i32(pos.x + spec_delta(dir).0),
        fits_i32(pos.y + spec_delta(dir).1),
    ensures
        r.x == pos.x + spec_delta(dir).0,
        r.y == pos.y + spec_delta(dir).1,
{
    let (dx, dy) = dir.delta_pos();
    Point { x: pos.x + dx, y: pos.y + dy }
}

/// Integer midpoint between two tiles (division rounds toward zero).
pub fn halfway(a: Point, b: Point) -> (r: Point)
    requires
        fits_i32(a.x + b.x),
        fits_i32(a.y + b.y),
    ensures
        r.x == trunc_half(a.x + b.x),
        r.y == trunc_half(a.y + b.y),
{
    Point { x: (a.x + b.x) / 2, y: (a.y + b.y) / 2 }
}

/// Squared Euclidean distance between two tiles.
pub fn sq_dist(a: Point, b: Point) -> (r: i32)
    requires
        diff_fits(a, b),
        spec_sq_dist(a, b) <= i32::MAX,
    ensures
        r == spec_sq_dist(a, b),
{
    let dx = a.x - b.x;
    let dy = a.y - b.y;
    assert(0 <= dx * dx && 0 <= dy * dy) by (nonlinear_arith);
    dx * dx + dy * dy
}

/// Squared Euclidean distance between two tiles, computed wide enough for
/// any two tiles.
pub fn sq_dist_wide(a: Point, b: Point) -> (r: i128)
    ensures
        r == spec_sq_dist(a, b),
        0 <= r <= 2 * (0x1_0000_0000 * 0x1_0000_0000),
{
    let dx = a.x as i128 - b.x as i128;
    let dy = a.y as i128 - b.y as i128;
    assert(0 <= dx * dx <= 0x1_0000_0000 * 0x1_0000_0000 && 0 <= dy * dy <= 0x1_0000_0000 * 0x1_0000_0000) by (nonlinear_arith)
        requires
            -0x1_0000_0000 <= dx <= 0x1_0000_0000,
            -0x1_0000_0000 <= dy <= 0x1_0000_0000,
    ;
    dx * dx + dy * dy
}

/// The absolute coordinate differences between two tiles fit in an i32.
pub open spec fn cheb_fits(a: Point, b: Point) -> bool {
    -i32::MAX <= a.x - b.x <= i32::MAX && -i32::MAX <= a.y - b.y <= i32::MAX
}

/// Chebyshev (king-move) distance between two tiles.
pub fn chebyshev(a: Point, b: Point) -> (r: i32)
    requires
        cheb_fits(a, b),
    ensures
        r == spec_chebyshev(a, b),
{
    let dx = if a.x >= b.x {
        a.x - b.x
    } else {
        b.x - a.x
    };
    let dy = if a.y >= b.y {
        a.y - b.y
    } else {
        b.y - a.y
    };
    if dx >= dy {
        dx
    } else {
        dy
    }
}

/// True if `pos` lies closer than `min_dist` (Chebyshev) to any already placed tile.
pub fn guard_too_close(pos: Point, placed: &Vec<Point>, min_dist: i32) -> (r: bool)
    requires
        forall|i: int| 0 <= i < placed@.len() ==> cheb_fits(pos, #[trigger] placed@[i]),
    ensures
        r == exists|i: int| 0 <= i < placed@.len() && spec_chebyshev(pos, #[trigger] placed@[i]) < min_dist,
{
    let mut i: usize = 0;
    while i < placed.len()
        invariant
            i <= placed@.len(),
            forall|k: int| 0 <= k < placed@.len() ==> cheb_fits(pos, #[trigger] placed@[k]),
            forall|k: int| 0 <= k < i ==> spec_chebyshev(pos, #[trigger] placed@[k]) >= min_dist,
        decreases placed@.len() - i,
    {
        if chebyshev(pos, placed[i]) < min_dist {
            return true;
        }
        i = i + 1;
    }
    false
}

} // verus!
