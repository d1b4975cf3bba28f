//! Block generator: draws the canonical road, building, mega-structure and
//! path blocks on a 32 by 32 grid and writes each as a block file. Each file
//! later yields sixteen variants at load time (four rotations, four mirrors).
use vstd::prelude::*;
use crate::block::{parsed_tiles, spec_loaded_tiles, tile_of_byte};
use crate::tile::TileType;

verus! {

// ─── Tile ────────────────────────────────────────────────────────────────────

#[derive(Clone, Copy, PartialEq, Eq, Structural, Debug)]
pub enum T {
    Ground,
    Road,
    Floor,
    Wall,
    Doorway,
    Window,
    Fence,
}

pub open spec fn spec_ch(t: T) -> char {
    match t {
        T::Ground => '.',
        T::Road => '_',
        T::Floor => '-',
        T::Wall => 'W',
        T::Doorway => 'D',
        T::Window => 'x',
        T::Fence => '#',
    }
}

/// Byte of the character a tile is written as.
pub open spec fn spec_ch_byte(t: T) -> u8 {
    match t {
        T::Ground => 46,
        T::Road => 95,
        T::Floor => 45,
        T::Wall => 87,
        T::Doorway => 68,
        T::Window => 120,
        T::Fence => 35,
    }
}

impl T {
    /// The character a tile is written as in a block file.
    pub fn ch(self) -> (c: char)
        ensures
            c == spec_ch(self),
    {
        match self {
            T::Ground => '.',
            T::Road => '_',
            T::Floor => '-',
            T::Wall => 'W',
            T::Doorway => 'D',
            T::Window => 'x',
            T::Fence => '#',
        }
    }

    fn ch_byte(self) -> (b: u8)
        ensures
            b == spec_ch_byte(self),
    {
        match self {
            T::Ground => 46,
            T::Road => 95,
            T::Floor => 45,
            T::Wall => 87,
            T::Doorway => 68,
            T::Window => 120,
            T::Fence => 35,
        }
    }
}

// ─── Grid ────────────────────────────────────────────────────────────────────

pub const N: usize = 32;

/// A 32 by 32 block being drawn, row-major: tile (x, y) is `cells[y * 32 + x]`.
pub struct Grid {
    pub cells: Vec<T>,
}

impl Grid {
    pub open spec fn wf(&self) -> bool {
        self.cells@.len() == 1024
    }
}

pub open spec fn col(i: int) -> int {
    i % 32
}

pub open spec fn row(i: int) -> int {
    i / 32
}

pub open spec fn min_int(a: int, b: int) -> int {
    if a <= b {
        a
    } else {
        b
    }
}

/// `a - b`, or 0 when that would be negative.
pub open spec fn sat_sub(a: int, b: int) -> int {
    if a >= b {
        a - b
    } else {
        0
    }
}

pub open spec fn spec_empty() -> Seq<T> {
    Seq::new(1024, |i: int| T::Ground)
}

pub open spec fn spec_gs(s: Seq<T>, x: int, y: int, t: T) -> Seq<T> {
    if 0 <= x < 32 && 0 <= y < 32 {
        s.update(y * 32 + x, t)
    } else {
        s
    }
}

pub open spec fn spec_gg(s: Seq<T>, x: int, y: int) -> T {
    if 0 <= x < 32 && 0 <= y < 32 {
        s[y * 32 + x]
    } else {
        T::Ground
    }
}

/// Tiles with `x0 <= x < x1` and `y0 <= y < y1` set to `t`.
pub open spec fn spec_fill(s: Seq<T>, x0: int, x1: int, y0: int, y1: int, t: T) -> Seq<T> {
    Seq::new(1024, |i: int| if x0 <= col(i) < x1 && y0 <= row(i) < y1 { t } else { s[i] })
}

pub open spec fn spec_v_road_seg(s: Seq<T>, cx: int, w: int, y0: int, y1: int) -> Seq<T> {
    let lo = sat_sub(cx, w / 2);
    spec_fill(s, lo, min_int(lo + w, 32), y0, min_int(y1, 32), T::Road)
}

pub open spec fn spec_h_road_seg(s: Seq<T>, cy: int, w: int, x0: int, x1: int) -> Seq<T> {
    let lo = sat_sub(cy, w / 2);
    spec_fill(s, x0, min_int(x1, 32), lo, min_int(lo + w, 32), T::Road)
}

pub open spec fn spec_v_road(s: Seq<T>, cx: int, w: int) -> Seq<T> {
    spec_v_road_seg(s, cx, w, 0, 32)
}

pub open spec fn spec_h_road(s: Seq<T>, cy: int, w: int) -> Seq<T> {
    spec_h_road_seg(s, cy, w, 0, 32)
}

/// Rectangle `x1..x2` by `y1..y2` (clipped to the grid): Wall on its perimeter,
/// Floor inside.
pub open spec fn spec_bld(s: Seq<T>, x1: int, y1: int, x2: int, y2: int) -> Seq<T> {
    Seq::new(
        1024,
        |i: int|
            if x1 <= col(i) < min_int(x2, 32) && y1 <= row(i) < min_int(y2, 32) {
                if col(i) == x1 || col(i) + 1 == x2 || row(i) == y1 || row(i) + 1 == y2 {
                    T::Wall
                } else {
                    T::Floor
                }
            } else {
                s[i]
            },
    )
}

pub open spec fn spec_door(s: Seq<T>, x: int, y: int) -> Seq<T> {
    spec_gs(s, x, y, T::Doorway)
}

/// Wall tiles of column `x` at rows `ya + 1, ya + 4, ...` (while the row plus
/// one is below `yb`) become Windows.
pub open spec fn spec_win_v(s: Seq<T>, x: int, ya: int, yb: int) -> Seq<T> {
    Seq::new(
        1024,
        |i: int|
            if col(i) == x && ya + 1 <= row(i) && row(i) + 1 < yb && (row(i) - ya - 1) % 3 == 0 && s[i]
                == T::Wall {
                T::Window
            } else {
                s[i]
            },
    )
}

/// Wall tiles of row `y` at columns `xa + 1, xa + 4, ...` (while the column
/// plus one is below `xb`) become Windows.
pub open spec fn spec_win_h(s: Seq<T>, y: int, xa: int, xb: int) -> Seq<T> {
    Seq::new(
        1024,
        |i: int|
            if row(i) == y && xa + 1 <= col(i) && col(i) + 1 < xb && (col(i) - xa - 1) % 3 == 0 && s[i]
                == T::Wall {
                T::Window
            } else {
                s[i]
            },
    )
}

pub open spec fn spec_partition_h(s: Seq<T>, y: int, x1: int, x2: int, door_x: int) -> Seq<T> {
    spec_door(spec_fill(s, x1, x2, y, y + 1, T::Wall), door_x, y)
}

pub open spec fn spec_west_bld(s: Seq<T>, x1: int, x2: int, y1: int, y2: int) -> Seq<T> {
    let g1 = spec_bld(s, x1, y1, x2, y2);
    let g2 = spec_door(g1, x2 - 1, (y1 + y2) / 2);
    let g3 = spec_win_v(g2, x1, y1, y2);
    let g4 = spec_win_h(g3, y1, x1, x2);
    spec_win_h(g4, y2 - 1, x1, x2)
}

pub open spec fn spec_east_bld(s: Seq<T>, x1: int, x2: int, y1: int, y2: int) -> Seq<T> {
    let g1 = spec_bld(s, x1, y1, x2, y2);
    let g2 = spec_door(g1, x1, (y1 + y2) / 2);
    let g3 = spec_win_v(g2, x2 - 1, y1, y2);
    let g4 = spec_win_h(g3, y1, x1, x2);
    spec_win_h(g4, y2 - 1, x1, x2)
}

/// An all-Ground grid.
pub fn empty() -> (g: Grid)
    ensures
        g.wf(),
        g.cells@ == spec_empty(),
{
    let mut cells: Vec<T> = Vec::new();
    let mut i: usize = 0;
    while i < N * N
        invariant
            i <= 1024,
            cells@ == Seq::new(i as nat, |j: int| T::Ground),
        decreases 1024 - i,
    {
        cells.push(T::Ground);
        i = i + 1;
        assert(cells@ =~= Seq::new(i as nat, |j: int| T::Ground));
    }
    assert(cells@ =~= spec_empty());
    Grid { cells }
}

/// Sets tile (x, y) when it lies on the grid.
pub fn gs(g: &mut Grid, x: usize, y: usize, t: T)
    requires
        old(g).wf(),
    ensures
        final(g).wf(),
        final(g).cells@ == spec_gs(old(g).cells@, x as int, y as int, t),
{
    if x < N && y < N {
        g.cells.set(y * N + x, t);
    }
}

/// Tile (x, y), or Ground off the grid.
pub fn gg(g: &Grid, x: usize, y: usize) -> (t: T)
    requires
        g.wf(),
    ensures
        t == spec_gg(g.cells@, x as int, y as int),
{
    if x < N && y < N {
        g.cells[y * N + x]
    } else {
        T::Ground
    }
}

/// The block file text of a grid: one line of 32 tile characters per row, each
/// ended by a line break, as bytes.
pub open spec fn spec_txt(s: Seq<T>) -> Seq<u8> {
    Seq::new(1056, |i: int| if i % 33 == 32 { 10u8 } else { spec_ch_byte(s[(i / 33) * 32 + i % 33]) })
}

/// The grid as block file text (bytes of the characters of [`T::ch`], one row
/// per line).
pub fn to_txt(g: &Grid) -> (r: Vec<u8>)
    requires
        g.wf(),
    ensures
        r@ == spec_txt(g.cells@),
{
    let mut out: Vec<u8> = Vec::new();
    let mut y: usize = 0;
    while y < N
        invariant
            y <= 32,
            g.wf(),
            out@.len() == y * 33,
            forall|i: int| 0 <= i < out@.len() ==> #[trigger] out@[i] == spec_txt(g.cells@)[i],
        decreases 32 - y,
    {
        let mut x: usize = 0;
        while x < N
            invariant
                y < 32,
                x <= 32,
                g.wf(),
                out@.len() == y * 33 + x,
                forall|i: int| 0 <= i < out@.len() ==> #[trigger] out@[i] == spec_txt(g.cells@)[i],
            decreases 32 - x,
        {
            let b = g.cells[y * N + x].ch_byte();
            out.push(b);
            x = x + 1;
        }
        out.push(10u8);
        y = y + 1;
    }
    assert(out@ =~= spec_txt(g.cells@));
    out
}

/// Fills `x0..x1` by `y0..y1` with `t`; both ranges lie within the grid.
fn fill(g: &mut Grid, x0: usize, x1: usize, y0: usize, y1: usize, t: T)
    requires
        old(g).wf(),
        x1 <= 32,
        y1 <= 32,
    ensures
        final(g).wf(),
        final(g).cells@ == spec_fill(old(g).cells@, x0 as int, x1 as int, y0 as int, y1 as int, t),
{
    let ghost s = g.cells@;
    let mut y = y0;
    while y < y1
        invariant
            g.wf(),
            s.len() == 1024,
            x1 <= 32,
            y1 <= 32,
            y0 <= y,
            y0 < y1 ==> y <= y1,
            y0 >= y1 ==> y == y0,
            g.cells@ == spec_fill(s, x0 as int, x1 as int, y0 as int, y as int, t),
        decreases y1 - y,
    {
        let mut x = x0;
        while x < x1
            invariant
                g.wf(),
                s.len() == 1024,
                x1 <= 32,
                y < y1 <= 32,
                x0 <= x,
                x0 < x1 ==> x <= x1,
                x0 >= x1 ==> x == x0,
                g.cells@ == Seq::new(
                    1024,
                    |i: int|
                        if (x0 <= col(i) < x1 && y0 <= row(i) < y) || (row(i) == y && x0 <= col(i) < x) {
                            t
                        } else {
                            s[i]
                        },
                ),
            decreases x1 - x,
        {
            g.cells.set(y * N + x, t);
            x = x + 1;
            assert(g.cells@ =~= Seq::new(
                1024,
                |i: int|
                    if (x0 <= col(i) < x1 && y0 <= row(i) < y) || (row(i) == y && x0 <= col(i) < x) {
                        t
                    } else {
                        s[i]
                    },
            ));
        }
        y = y + 1;
        assert(g.cells@ =~= spec_fill(s, x0 as int, x1 as int, y0 as int, y as int, t));
    }
    assert(g.cells@ =~= spec_fill(s, x0 as int, x1 as int, y0 as int, y1 as int, t));
}

fn min_usize(a: usize, b: usize) -> (r: usize)
    ensures
        r == min_int(a as int, b as int),
{
    if a <= b {
        a
    } else {
        b
    }
}

/// Full vertical (N-S) road strip.
pub fn v_road(g: &mut Grid, cx: usize, w: usize)
    requires
        old(g).wf(),
        cx + w <= usize::MAX,
    ensures
        final(g).wf(),
        final(g).cells@ == spec_v_road(old(g).cells@, cx as int, w as int),
{
    v_road_seg(g, cx, w, 0, N);
}

/// Full horizontal (E-W) road strip.
pub fn h_road(g: &mut Grid, cy: usize, w: usize)
    requires
        old(g).wf(),
        cy + w <= usize::MAX,
    ensures
        final(g).wf(),
        final(g).cells@ == spec_h_road(old(g).cells@, cy as int, w as int),
{
    h_road_seg(g, cy, w, 0, N);
}

/// Vertical road segment `w` wide around column `cx`, spanning rows `y0..y1`.
pub fn v_road_seg(g: &mut Grid, cx: usize, w: usize, y0: usize, y1: usize)
    requires
        old(g).wf(),
        cx + w <= usize::MAX,
    ensures
        final(g).wf(),
        final(g).cells@ == spec_v_road_seg(old(g).cells@, cx as int, w as int, y0 as int, y1 as int),
{
    let lo = cx.saturating_sub(w / 2);
    let hi = min_usize(lo + w, N);
    fill(g, lo, hi, y0, min_usize(y1, N), T::Road);
}

/// Horizontal road segment `w` wide around row `cy`, spanning columns `x0..x1`.
pub fn h_road_seg(g: &mut Grid, cy: usize, w: usize, x0: usize, x1: usize)
    requires
        old(g).wf(),
        cy + w <= usize::MAX,
    ensures
        final(g).wf(),
        final(g).cells@ == spec_h_road_seg(old(g).cells@, cy as int, w as int, x0 as int, x1 as int),
{
    let lo = cy.saturating_sub(w / 2);
    let hi = min_usize(lo + w, N);
    fill(g, x0, min_usize(x1, N), lo, hi, T::Road);
}

/// Rectangular building: Wall perimeter, Floor interior.
pub fn bld(g: &mut Grid, x1: usize, y1: usize, x2: usize, y2: usize)
    requires
        old(g).wf(),
    ensures
        final(g).wf(),
        final(g).cells@ == spec_bld(old(g).cells@, x1 as int, y1 as int, x2 as int, y2 as int),
{
    let ghost s = g.cells@;
    let xe = min_usize(x2, N);
    let ye = min_usize(y2, N);
    let mut y = y1;
    while y < ye
        invariant
            g.wf(),
            s.len() == 1024,
            xe == min_int(x2 as int, 32),
            ye == min_int(y2 as int, 32),
            y1 <= y,
            y1 < ye ==> y <= ye,
            y1 >= ye ==> y == y1,
            g.cells@ == Seq::new(
                1024,
                |i: int|
                    if x1 <= col(i) < xe && y1 <= row(i) < y {
                        if col(i) == x1 || col(i) + 1 == x2 || row(i) == y1 || row(i) + 1 == y2 {
                            T::Wall
                        } else {
                            T::Floor
                        }
                    } else {
                        s[i]
                    },
            ),
        decreases ye - y,
    {
        let mut x = x1;
        while x < xe
            invariant
                g.wf(),
                s.len() == 1024,
                xe == min_int(x2 as int, 32),
                ye == min_int(y2 as int, 32),
                y1 <= y < ye,
                x1 <= x,
                x1 < xe ==> x <= xe,
                x1 >= xe ==> x == x1,
                g.cells@ == Seq::new(
                    1024,
                    |i: int|
                        if (x1 <= col(i) < xe && y1 <= row(i) < y) || (row(i) == y && x1 <= col(i) < x) {
                            if col(i) == x1 || col(i) + 1 == x2 || row(i) == y1 || row(i) + 1 == y2 {
                                T::Wall
                            } else {
                                T::Floor
                            }
                        } else {
                            s[i]
                        },
                ),
            decreases xe - x,
        {
            let on_wall = x == x1 || x + 1 == x2 || y == y1 || y + 1 == y2;
            g.cells.set(y * N + x, if on_wall { T::Wall } else { T::Floor });
            x = x + 1;
            assert(g.cells@ =~= Seq::new(
                1024,
                |i: int|
                    if (x1 <= col(i) < xe && y1 <= row(i) < y) || (row(i) == y && x1 <= col(i) < x) {
                        if col(i) == x1 || col(i) + 1 == x2 || row(i) == y1 || row(i) + 1 == y2 {
                            T::Wall
                        } else {
                            T::Floor
                        }
                    } else {
                        s[i]
                    },
            ));
        }
        y = y + 1;
        assert(g.cells@ =~= Seq::new(
            1024,
            |i: int|
                if x1 <= col(i) < xe && y1 <= row(i) < y {
                    if col(i) == x1 || col(i) + 1 == x2 || row(i) == y1 || row(i) + 1 == y2 {
                        T::Wall
                    } else {
                        T::Floor
                    }
                } else {
                    s[i]
                },
        ));
    }
    assert(g.cells@ =~= spec_bld(s, x1 as int, y1 as int, x2 as int, y2 as int));
}

/// Doorway at (x, y); overwrites any existing tile.
pub fn door(g: &mut Grid, x: usize, y: usize)
    requires
        old(g).wf(),
    ensures
        final(g).wf(),
        final(g).cells@ == spec_door(old(g).cells@, x as int, y as int),
{
    gs(g, x, y, T::Doorway);
}

/// Windows along a vertical wall (column `x`) from `ya..yb`, every 3 tiles.
pub fn win_v(g: &mut Grid, x: usize, ya: usize, yb: usize)
    requires
        old(g).wf(),
        ya <= usize::MAX - 2,
        yb <= usize::MAX - 3,
    ensures
        final(g).wf(),
        final(g).cells@ == spec_win_v(old(g).cells@, x as int, ya as int, yb as int),
{
    let ghost s = g.cells@;
    let mut y = ya + 1;
    while y + 1 < yb
        invariant
            g.wf(),
            s.len() == 1024,
            yb <= usize::MAX - 3,
            ya <= usize::MAX - 2,
            ya + 1 <= y,
            (y - ya - 1) % 3 == 0,
            y <= ya + 1 || y <= yb + 2,
            g.cells@ == Seq::new(
                1024,
                |i: int|
                    if col(i) == x && ya + 1 <= row(i) < y && row(i) + 1 < yb && (row(i) - ya - 1) % 3 == 0
                        && s[i] == T::Wall {
                        T::Window
                    } else {
                        s[i]
                    },
            ),
        decreases yb + 3 - y,
    {
        if gg(g, x, y) == T::Wall {
            gs(g, x, y, T::Window);
        }
        y = y + 3;
        assert(g.cells@ =~= Seq::new(
            1024,
            |i: int|
                if col(i) == x && ya + 1 <= row(i) < y && row(i) + 1 < yb && (row(i) - ya - 1) % 3 == 0 && s[i]
                    == T::Wall {
                    T::Window
                } else {
                    s[i]
                },
        ));
    }
    assert(g.cells@ =~= spec_win_v(s, x as int, ya as int, yb as int));
}

/// Windows along a horizontal wall (row `y`) from `xa..xb`, every 3 tiles.
pub fn win_h(g: &mut Grid, y: usize, xa: usize, xb: usize)
    requires
        old(g).wf(),
        xa <= usize::MAX - 2,
        xb <= usize::MAX - 3,
    ensures
        final(g).wf(),
        final(g).cells@ == spec_win_h(old(g).cells@, y as int, xa as int, xb as int),
{
    let ghost s = g.cells@;
    let mut x = xa + 1;
    while x + 1 < xb
        invariant
            g.wf(),
            s.len() == 1024,
            xb <= usize::MAX - 3,
            xa <= usize::MAX - 2,
            xa + 1 <= x,
            (x - xa - 1) % 3 == 0,
            x <= xa + 1 || x <= xb + 2,
            g.cells@ == Seq::new(
                1024,
                |i: int|
                    if row(i) == y && xa + 1 <= col(i) < x && col(i) + 1 < xb && (col(i) - xa - 1) % 3 == 0
                        && s[i] == T::Wall {
                        T::Window
                    } else {
                        s[i]
                    },
            ),
        decreases xb + 3 - x,
    {
        if gg(g, x, y) == T::Wall {
            gs(g, x, y, T::Window);
        }
        x = x + 3;
        assert(g.cells@ =~= Seq::new(
            1024,
            |i: int|
                if row(i) == y && xa + 1 <= col(i) < x && col(i) + 1 < xb && (col(i) - xa - 1) % 3 == 0 && s[i]
                    == T::Wall {
                    T::Window
                } else {
                    s[i]
                },
        ));
    }
    assert(g.cells@ =~= spec_win_h(s, y as int, xa as int, xb as int));
}

/// Horizontal wall partition inside a building (a row of Wall, door at `door_x`).
pub fn partition_h(g: &mut Grid, y: usize, x1: usize, x2: usize, door_x: usize)
    requires
        old(g).wf(),
    ensures
        final(g).wf(),
        final(g).cells@ == spec_partition_h(old(g).cells@, y as int, x1 as int, x2 as int, door_x as int),
{
    let ghost s = g.cells@;
    let mut x = x1;
    while x < x2
        invariant
            g.wf(),
            s.len() == 1024,
            x1 <= x,
            x1 < x2 ==> x <= x2,
            x1 >= x2 ==> x == x1,
            g.cells@ == spec_fill(s, x1 as int, x as int, y as int, y + 1, T::Wall),
        decreases x2 - x,
    {
        gs(g, x, y, T::Wall);
        x = x + 1;
        assert(g.cells@ =~= spec_fill(s, x1 as int, x as int, y as int, y + 1, T::Wall));
    }
    assert(g.cells@ =~= spec_fill(s, x1 as int, x2 as int, y as int, y + 1, T::Wall));
    door(g, door_x, y);
}

/// Standard west-side building with its door facing the road (east wall) and
/// windows on the other walls.
pub fn west_bld(g: &mut Grid, x1: usize, x2: usize, y1: usize, y2: usize)
    requires
        old(g).wf(),
        1 <= x1 <= 1000,
        1 <= x2 <= 1000,
        1 <= y1 <= 1000,
        1 <= y2 <= 1000,
    ensures
        final(g).wf(),
        final(g).cells@ == spec_west_bld(old(g).cells@, x1 as int, x2 as int, y1 as int, y2 as int),
{
    bld(g, x1, y1, x2, y2);
    door(g, x2 - 1, (y1 + y2) / 2);
    win_v(g, x1, y1, y2);
    win_h(g, y1, x1, x2);
    win_h(g, y2 - 1, x1, x2);
}

/// Standard east-side building with its door facing the road (west wall) and
/// windows on the other walls.
pub fn east_bld(g: &mut Grid, x1: usize, x2: usize, y1: usize, y2: usize)
    requires
        old(g).wf(),
        1 <= x1 <= 1000,
        1 <= x2 <= 1000,
        1 <= y1 <= 1000,
        1 <= y2 <= 1000,
    ensures
        final(g).wf(),
        final(g).cells@ == spec_east_bld(old(g).cells@, x1 as int, x2 as int, y1 as int, y2 as int),
{
    bld(g, x1, y1, x2, y2);
    door(g, x1, (y1 + y2) / 2);
    win_v(g, x2 - 1, y1, y2);
    win_h(g, y1, x1, x2);
    win_h(g, y2 - 1, x1, x2);
}

/// Rectangle `x1..x2` by `y1..y2` (within the grid) with Wall on its two
/// sides, Wall on its top and bottom rows only when asked, Floor elsewhere.
pub open spec fn spec_walled(s: Seq<T>, x1: int, x2: int, y1: int, y2: int, top: bool, bottom: bool) -> Seq<T> {
    Seq::new(
        1024,
        |i: int|
            if x1 <= col(i) < x2 && y1 <= row(i) < y2 {
                if col(i) == x1 || col(i) + 1 == x2 || (top && row(i) == y1) || (bottom && row(i) + 1 == y2) {
                    T::Wall
                } else {
                    T::Floor
                }
            } else {
                s[i]
            },
    )
}

fn walled(g: &mut Grid, x1: usize, x2: usize, y1: usize, y2: usize, top: bool, bottom: bool)
    requires
        old(g).wf(),
        x2 <= 32,
        y2 <= 32,
    ensures
        final(g).wf(),
        final(g).cells@ == spec_walled(old(g).cells@, x1 as int, x2 as int, y1 as int, y2 as int, top, bottom),
{
    let ghost s = g.cells@;
    let mut y = y1;
    while y < y2
        invariant
            g.wf(),
            s.len() == 1024,
            x2 <= 32,
            y2 <= 32,
            y1 <= y,
            y1 < y2 ==> y <= y2,
            y1 >= y2 ==> y == y1,
            g.cells@ == Seq::new(
                1024,
                |i: int|
                    if x1 <= col(i) < x2 && y1 <= row(i) < y {
                        if col(i) == x1 || col(i) + 1 == x2 || (top && row(i) == y1) || (bottom && row(i) + 1 == y2) {
                            T::Wall
                        } else {
                            T::Floor
                        }
                    } else {
                        s[i]
                    },
            ),
        decreases y2 - y,
    {
        let mut x = x1;
        while x < x2
            invariant
                g.wf(),
                s.len() == 1024,
                x2 <= 32,
                y1 <= y < y2 <= 32,
                x1 <= x,
                x1 < x2 ==> x <= x2,
                x1 >= x2 ==> x == x1,
                g.cells@ == Seq::new(
                    1024,
                    |i: int|
                        if (x1 <= col(i) < x2 && y1 <= row(i) < y) || (row(i) == y && x1 <= col(i) < x) {
                            if col(i) == x1 || col(i) + 1 == x2 || (top && row(i) == y1) || (bottom && row(i) + 1
                                == y2) {
                                T::Wall
                            } else {
                                T::Floor
                            }
                        } else {
                            s[i]
                        },
                ),
            decreases x2 - x,
        {
            let on_wall = x == x1 || x + 1 == x2 || (top && y == y1) || (bottom && y + 1 == y2);
            g.cells.set(y * N + x, if on_wall { T::Wall } else { T::Floor });
            x = x + 1;
            assert(g.cells@ =~= Seq::new(
                1024,
                |i: int|
                    if (x1 <= col(i) < x2 && y1 <= row(i) < y) || (row(i) == y && x1 <= col(i) < x) {
                        if col(i) == x1 || col(i) + 1 == x2 || (top && row(i) == y1) || (bottom && row(i) + 1 == y2) {
                            T::Wall
                        } else {
                            T::Floor
                        }
                    } else {
                        s[i]
                    },
            ));
        }
        y = y + 1;
        assert(g.cells@ =~= Seq::new(
            1024,
            |i: int|
                if x1 <= col(i) < x2 && y1 <= row(i) < y {
                    if col(i) == x1 || col(i) + 1 == x2 || (top && row(i) == y1) || (bottom && row(i) + 1 == y2) {
                        T::Wall
                    } else {
                        T::Floor
                    }
                } else {
                    s[i]
                },
        ));
    }
    assert(g.cells@ =~= spec_walled(s, x1 as int, x2 as int, y1 as int, y2 as int, top, bottom));
}



// ─── Loading a written block back ────────────────────────────────────────────

/// The map tile a drawn tile becomes when its block file is loaded.
pub open spec fn spec_tile_type(t: T) -> TileType {
    match t {
        T::Ground => TileType::Ground,
        T::Road => TileType::Road,
        T::Floor => TileType::Floor,
        T::Wall => TileType::Wall,
        T::Doorway => TileType::Doorway,
        T::Window => TileType::Window,
        T::Fence => TileType::Fence,
    }
}

pub open spec fn spec_grid_tiles(s: Seq<T>) -> Seq<TileType> {
    Seq::new(s.len(), |i: int| spec_tile_type(s[i]))
}

/// Number of tiles written within the first `k` bytes of a block file.
spec fn tiles_before(k: int) -> int {
    (k / 33) * 32 + min_int(k % 33, 32)
}

proof fn lemma_char_loads_back(t: T)
    ensures
        tile_of_byte(spec_ch_byte(t)) == Some(spec_tile_type(t)),
{
}

proof fn lemma_txt_prefix(s: Seq<T>, k: int)
    requires
        s.len() == 1024,
        0 <= k <= 1056,
    ensures
        0 <= tiles_before(k) <= 1024,
        parsed_tiles(spec_txt(s).take(k)) == spec_grid_tiles(s).take(tiles_before(k)),
    decreases k,
{
    let txt = spec_txt(s);
    let m = spec_grid_tiles(s);
    if k == 0 {
        assert(txt.take(0) =~= Seq::<u8>::empty());
        assert(m.take(0) =~= Seq::<TileType>::empty());
    } else {
        lemma_txt_prefix(s, k - 1);
        assert(txt.take(k).drop_last() =~= txt.take(k - 1));
        let q = (k - 1) / 33;
        let r = (k - 1) % 33;
        assert(k - 1 == 33 * q + r && 0 <= r < 33);
        assert(0 <= q <= 31);
        if r == 32 {
            assert(k == 33 * (q + 1));
            assert(k / 33 == q + 1 && k % 33 == 0);
            assert(txt[k - 1] == 10u8);
        } else {
            assert(k == 33 * q + (r + 1));
            assert(k / 33 == q && k % 33 == r + 1);
            let j = q * 32 + r;
            assert(tiles_before(k - 1) == j);
            assert(tiles_before(k) == j + 1);
            assert(0 <= j < 1024);
            assert(txt[k - 1] == spec_ch_byte(s[j]));
            lemma_char_loads_back(s[j]);
            assert(m.take(j).push(m[j]) =~= m.take(j + 1));
        }
    }
}

/// Writing a block and loading the file back gives the same block: the file
/// names exactly one block's worth of tiles, each the tile that was drawn.
pub proof fn law_block_file_loads_back(s: Seq<T>)
    requires
        s.len() == 1024,
    ensures
        parsed_tiles(spec_txt(s)).len() == 1024,
        spec_loaded_tiles(spec_txt(s)) == spec_grid_tiles(s),
{
    lemma_txt_prefix(s, 1056);
    assert(spec_txt(s).take(1056) =~= spec_txt(s));
    assert(tiles_before(1056) == 1024);
    assert(spec_grid_tiles(s).take(1024) =~= spec_grid_tiles(s));
    assert(spec_loaded_tiles(spec_txt(s)) =~= spec_grid_tiles(s));
}

// ─── Layout constants ────────────────────────────────────────────────────────

/// Road left edge (inclusive).
pub const RL: usize = 13;
/// Road width in tiles.
pub const RW: usize = 6;
/// Road right edge (exclusive).
pub const RH: usize = RL + RW;
/// West building left edge (one tile of margin from the block edge).
pub const WX1: usize = 1;
/// West building right edge (exclusive); two tiles of gap before the road.
pub const WX2: usize = RL - 2;
/// East building left edge; two tiles of gap after the road.
pub const EX1: usize = RH + 2;
/// East building right edge (exclusive).
pub const EX2: usize = N - 1;
/// Top row of the standard roadside buildings.
pub const BY1: usize = 5;
/// Bottom row (exclusive) of the standard roadside buildings.
pub const BY2: usize = 27;
/// Row of the doors of the standard roadside buildings.
pub const BDY: usize = (BY1 + BY2) / 2;
/// Left edge of the wide road.
pub const WRL: usize = 11;
/// Width of the wide road.
pub const WRW: usize = 10;
/// Right edge (exclusive) of the wide road.
pub const WRH: usize = WRL + WRW;
/// Left edge of a thin path.
pub const PL: usize = 8;
/// Width of a thin path.
pub const PW: usize = 2;
/// Right edge (exclusive) of a thin path.
pub const PH: usize = PL + PW;
/// Centre column of a thin path.
pub const PCX: usize = PL + PW / 2;
/// Left wall column of a mega-structure strip.
pub const ML: usize = 8;
/// Width of a mega-structure strip.
pub const MW: usize = 16;
/// Right edge (exclusive) of a mega-structure strip.
pub const MH: usize = ML + MW;
/// Centre column of a mega-structure strip.
pub const MCX: usize = ML + MW / 2;

// ─── The blocks ──────────────────────────────────────────────────────────────

pub open spec fn spec_road_straight_v1() -> Seq<T> {
    let g0 = spec_v_road(spec_empty(), (RL + RW / 2) as int, (RW) as int);
    g0
}

/// Open street, no buildings.
pub fn road_straight_v1() -> (g: Grid)
    ensures
        g.wf(),
        g.cells@ == spec_road_straight_v1(),
{
    let mut g = empty();
    v_road(&mut g, RL + RW / 2, RW);
    g
}

pub open spec fn spec_road_straight_v2() -> Seq<T> {
    let g0 = spec_west_bld(spec_road_straight_v1(), (WX1) as int, (WX2) as int, (BY1) as int, (BY2) as int);
    g0
}

/// Standard building on the west side.
pub fn road_straight_v2() -> (g: Grid)
    ensures
        g.wf(),
        g.cells@ == spec_road_straight_v2(),
{
    let mut g = road_straight_v1();
    west_bld(&mut g, WX1, WX2, BY1, BY2);
    g
}

pub open spec fn spec_road_straight_v3() -> Seq<T> {
    let g0 = spec_west_bld(spec_road_straight_v1(), (WX1) as int, (WX2) as int, (BY1) as int, (BY2) as int);
    let g1 = spec_east_bld(g0, (EX1) as int, (EX2) as int, (BY1) as int, (BY2) as int);
    g1
}

/// Buildings on both sides.
pub fn road_straight_v3() -> (g: Grid)
    ensures
        g.wf(),
        g.cells@ == spec_road_straight_v3(),
{
    let mut g = road_straight_v1();
    west_bld(&mut g, WX1, WX2, BY1, BY2);
    east_bld(&mut g, EX1, EX2, BY1, BY2);
    g
}

pub open spec fn spec_road_straight_v4() -> Seq<T> {
    let g0 = spec_west_bld(spec_road_straight_v1(), (WX1) as int, (WX2) as int, (10) as int, (22) as int);
    g0
}

/// Shorter building on the west, open east side.
pub fn road_straight_v4() -> (g: Grid)
    ensures
        g.wf(),
        g.cells@ == spec_road_straight_v4(),
{
    let mut g = road_straight_v1();
    west_bld(&mut g, WX1, WX2, 10, 22);
    g
}

pub open spec fn spec_road_straight_v5() -> Seq<T> {
    let g0 = spec_west_bld(spec_road_straight_v1(), (WX1) as int, (WX2) as int, (BY1) as int, (BY2) as int);
    let g1 = spec_partition_h(g0, ((BY1 + BY2) / 2) as int, (WX1 + 1) as int, (WX2 - 1) as int, ((WX1 + WX2) / 2) as int);
    let g2 = spec_east_bld(g1, (EX1) as int, (EX2) as int, (BY1) as int, (BY2) as int);
    let g3 = spec_partition_h(g2, ((BY1 + BY2) / 2) as int, (EX1 + 1) as int, (EX2 - 1) as int, ((EX1 + EX2) / 2) as int);
    g3
}

/// Buildings on both sides with an internal partition (two-room buildings).
pub fn road_straight_v5() -> (g: Grid)
    ensures
        g.wf(),
        g.cells@ == spec_road_straight_v5(),
{
    let mut g = road_straight_v1();
    west_bld(&mut g, WX1, WX2, BY1, BY2);
    partition_h(&mut g, (BY1 + BY2) / 2, WX1 + 1, WX2 - 1, (WX1 + WX2) / 2);
    east_bld(&mut g, EX1, EX2, BY1, BY2);
    partition_h(&mut g, (BY1 + BY2) / 2, EX1 + 1, EX2 - 1, (EX1 + EX2) / 2);
    g
}

pub open spec fn spec_road_straight_wide_v1() -> Seq<T> {
    let g0 = spec_v_road(spec_empty(), (WRL + WRW / 2) as int, (WRW) as int);
    let g1 = spec_bld(g0, (1) as int, (BY1) as int, (WRL - 1) as int, (BY2) as int);
    let g2 = spec_door(g1, (WRL - 2) as int, (BDY) as int);
    let g3 = spec_win_v(g2, (1) as int, (BY1) as int, (BY2) as int);
    let g4 = spec_win_h(g3, (BY1) as int, (1) as int, (WRL - 1) as int);
    let g5 = spec_win_h(g4, (BY2 - 1) as int, (1) as int, (WRL - 1) as int);
    let g6 = spec_bld(g5, (WRH + 1) as int, (BY1) as int, (N - 1) as int, (BY2) as int);
    let g7 = spec_door(g6, (WRH + 1) as int, (BDY) as int);
    let g8 = spec_win_v(g7, (N - 2) as int, (BY1) as int, (BY2) as int);
    let g9 = spec_win_h(g8, (BY1) as int, (WRH + 1) as int, (N - 1) as int);
    let g10 = spec_win_h(g9, (BY2 - 1) as int, (WRH + 1) as int, (N - 1) as int);
    g10
}

/// Ten-tile-wide road; buildings on both sides are narrower because the road takes more space.
pub fn road_straight_wide_v1() -> (g: Grid)
    ensures
        g.wf(),
        g.cells@ == spec_road_straight_wide_v1(),
{
    let mut g = empty();
    v_road(&mut g, WRL + WRW / 2, WRW);
    bld(&mut g, 1, BY1, WRL - 1, BY2);
    door(&mut g, WRL - 2, BDY);
    win_v(&mut g, 1, BY1, BY2);
    win_h(&mut g, BY1, 1, WRL - 1);
    win_h(&mut g, BY2 - 1, 1, WRL - 1);
    bld(&mut g, WRH + 1, BY1, N - 1, BY2);
    door(&mut g, WRH + 1, BDY);
    win_v(&mut g, N - 2, BY1, BY2);
    win_h(&mut g, BY1, WRH + 1, N - 1);
    win_h(&mut g, BY2 - 1, WRH + 1, N - 1);
    g
}

pub open spec fn spec_road_turn_v1() -> Seq<T> {
    let g0 = spec_v_road_seg(spec_empty(), (RL + RW / 2) as int, (RW) as int, (0) as int, (RH) as int);
    let g1 = spec_h_road_seg(g0, (RL + RW / 2) as int, (RW) as int, (RL) as int, (N) as int);
    g1
}

/// Turn N to E, no buildings.
pub fn road_turn_v1() -> (g: Grid)
    ensures
        g.wf(),
        g.cells@ == spec_road_turn_v1(),
{
    let mut g = empty();
    v_road_seg(&mut g, RL + RW / 2, RW, 0, RH);
    h_road_seg(&mut g, RL + RW / 2, RW, RL, N);
    g
}

pub open spec fn spec_road_turn_v2() -> Seq<T> {
    let g0 = spec_bld(spec_road_turn_v1(), (EX1) as int, (RH + 2) as int, (N - 1) as int, (N - 1) as int);
    let g1 = spec_door(g0, (EX1) as int, ((RH + 2 + N - 1) / 2) as int);
    let g2 = spec_win_v(g1, (N - 2) as int, (RH + 2) as int, (N - 1) as int);
    let g3 = spec_win_h(g2, (RH + 2) as int, (EX1) as int, (N - 1) as int);
    let g4 = spec_win_h(g3, (N - 2) as int, (EX1) as int, (N - 1) as int);
    g4
}

/// Turn N to E, building in the SE open area.
pub fn road_turn_v2() -> (g: Grid)
    ensures
        g.wf(),
        g.cells@ == spec_road_turn_v2(),
{
    let mut g = road_turn_v1();
    bld(&mut g, EX1, RH + 2, N - 1, N - 1);
    door(&mut g, EX1, (RH + 2 + N - 1) / 2);
    win_v(&mut g, N - 2, RH + 2, N - 1);
    win_h(&mut g, RH + 2, EX1, N - 1);
    win_h(&mut g, N - 2, EX1, N - 1);
    g
}

pub open spec fn spec_road_turn_v3() -> Seq<T> {
    let g0 = spec_bld(spec_road_turn_v1(), (EX1) as int, (RH + 2) as int, (N - 1) as int, (N - 1) as int);
    let g1 = spec_door(g0, (EX1) as int, ((RH + 2 + N - 1) / 2) as int);
    let g2 = spec_win_v(g1, (N - 2) as int, (RH + 2) as int, (N - 1) as int);
    let g3 = spec_win_h(g2, (RH + 2) as int, (EX1) as int, (N - 1) as int);
    let g4 = spec_win_h(g3, (N - 2) as int, (EX1) as int, (N - 1) as int);
    let g5 = spec_bld(g4, (1) as int, (1) as int, (RL - 1) as int, (RL - 1) as int);
    let g6 = spec_door(g5, (RL - 2) as int, (RL / 2) as int);
    let g7 = spec_win_v(g6, (1) as int, (1) as int, (RL - 1) as int);
    let g8 = spec_win_h(g7, (1) as int, (1) as int, (RL - 1) as int);
    let g9 = spec_win_h(g8, (RL - 2) as int, (1) as int, (RL - 1) as int);
    g9
}

/// Turn N to E, buildings in the SE and NW open areas.
pub fn road_turn_v3() -> (g: Grid)
    ensures
        g.wf(),
        g.cells@ == spec_road_turn_v3(),
{
    let mut g = road_turn_v1();
    bld(&mut g, EX1, RH + 2, N - 1, N - 1);
    door(&mut g, EX1, (RH + 2 + N - 1) / 2);
    win_v(&mut g, N - 2, RH + 2, N - 1);
    win_h(&mut g, RH + 2, EX1, N - 1);
    win_h(&mut g, N - 2, EX1, N - 1);
    bld(&mut g, 1, 1, RL - 1, RL - 1);
    door(&mut g, RL - 2, RL / 2);
    win_v(&mut g, 1, 1, RL - 1);
    win_h(&mut g, 1, 1, RL - 1);
    win_h(&mut g, RL - 2, 1, RL - 1);
    g
}

pub open spec fn spec_road_t_v1() -> Seq<T> {
    let g0 = spec_v_road(spec_empty(), (RL + RW / 2) as int, (RW) as int);
    let g1 = spec_h_road_seg(g0, (RL + RW / 2) as int, (RW) as int, (RH - 1) as int, (N) as int);
    g1
}

/// T-junction, no buildings.
pub fn road_t_v1() -> (g: Grid)
    ensures
        g.wf(),
        g.cells@ == spec_road_t_v1(),
{
    let mut g = empty();
    v_road(&mut g, RL + RW / 2, RW);
    h_road_seg(&mut g, RL + RW / 2, RW, RH - 1, N);
    g
}

pub open spec fn spec_road_t_v2() -> Seq<T> {
    let g0 = spec_bld(spec_road_t_v1(), (1) as int, (1) as int, (RL - 1) as int, (RL - 1) as int);
    let g1 = spec_door(g0, (RL / 2) as int, (RL - 2) as int);
    let g2 = spec_win_v(g1, (1) as int, (1) as int, (RL - 1) as int);
    let g3 = spec_win_v(g2, (RL - 2) as int, (1) as int, (RL - 1) as int);
    let g4 = spec_win_h(g3, (1) as int, (1) as int, (RL - 1) as int);
    g4
}

/// T-junction, building in the NW pocket.
pub fn road_t_v2() -> (g: Grid)
    ensures
        g.wf(),
        g.cells@ == spec_road_t_v2(),
{
    let mut g = road_t_v1();
    bld(&mut g, 1, 1, RL - 1, RL - 1);
    door(&mut g, RL / 2, RL - 2);
    win_v(&mut g, 1, 1, RL - 1);
    win_v(&mut g, RL - 2, 1, RL - 1);
    win_h(&mut g, 1, 1, RL - 1);
    g
}

pub open spec fn spec_road_t_v3() -> Seq<T> {
    let g0 = spec_bld(spec_road_t_v1(), (1) as int, (1) as int, (RL - 1) as int, (RL - 1) as int);
    let g1 = spec_door(g0, (RL / 2) as int, (RL - 2) as int);
    let g2 = spec_win_v(g1, (1) as int, (1) as int, (RL - 1) as int);
    let g3 = spec_win_v(g2, (RL - 2) as int, (1) as int, (RL - 1) as int);
    let g4 = spec_win_h(g3, (1) as int, (1) as int, (RL - 1) as int);
    let g5 = spec_bld(g4, (1) as int, (RH + 1) as int, (RL - 1) as int, (N - 1) as int);
    let g6 = spec_door(g5, (RL / 2) as int, (RH + 1) as int);
    let g7 = spec_win_v(g6, (1) as int, (RH + 1) as int, (N - 1) as int);
    let g8 = spec_win_v(g7, (RL - 2) as int, (RH + 1) as int, (N - 1) as int);
    let g9 = spec_win_h(g8, (N - 2) as int, (1) as int, (RL - 1) as int);
    g9
}

/// T-junction, buildings in both west pockets (NW and SW).
pub fn road_t_v3() -> (g: Grid)
    ensures
        g.wf(),
        g.cells@ == spec_road_t_v3(),
{
    let mut g = road_t_v1();
    bld(&mut g, 1, 1, RL - 1, RL - 1);
    door(&mut g, RL / 2, RL - 2);
    win_v(&mut g, 1, 1, RL - 1);
    win_v(&mut g, RL - 2, 1, RL - 1);
    win_h(&mut g, 1, 1, RL - 1);
    bld(&mut g, 1, RH + 1, RL - 1, N - 1);
    door(&mut g, RL / 2, RH + 1);
    win_v(&mut g, 1, RH + 1, N - 1);
    win_v(&mut g, RL - 2, RH + 1, N - 1);
    win_h(&mut g, N - 2, 1, RL - 1);
    g
}

pub open spec fn spec_road_cross_v1() -> Seq<T> {
    let g0 = spec_v_road(spec_empty(), (RL + RW / 2) as int, (RW) as int);
    let g1 = spec_h_road(g0, (RL + RW / 2) as int, (RW) as int);
    g1
}

/// Pure four-way crossing.
pub fn road_cross_v1() -> (g: Grid)
    ensures
        g.wf(),
        g.cells@ == spec_road_cross_v1(),
{
    let mut g = empty();
    v_road(&mut g, RL + RW / 2, RW);
    h_road(&mut g, RL + RW / 2, RW);
    g
}

pub open spec fn spec_road_cross_v2() -> Seq<T> {
    let g0 = spec_bld(spec_road_cross_v1(), (1) as int, (1) as int, (RL - 1) as int, (RL - 1) as int);
    let g1 = spec_door(g0, (RL - 2) as int, (RL / 2) as int);
    let g2 = spec_win_h(g1, (1) as int, (1) as int, (RL - 1) as int);
    let g3 = spec_win_h(g2, (RL - 1 - 1) as int, (1) as int, (RL - 1) as int);
    let g4 = spec_bld(g3, (RH + 1) as int, (1) as int, (N - 1) as int, (RL - 1) as int);
    let g5 = spec_door(g4, (RH + 1) as int, (RL / 2) as int);
    let g6 = spec_win_h(g5, (1) as int, (RH + 1) as int, (N - 1) as int);
    let g7 = spec_win_h(g6, (RL - 1 - 1) as int, (RH + 1) as int, (N - 1) as int);
    let g8 = spec_bld(g7, (1) as int, (RH + 1) as int, (RL - 1) as int, (N - 1) as int);
    let g9 = spec_door(g8, (RL - 2) as int, ((RH + N) / 2) as int);
    let g10 = spec_win_h(g9, (RH + 1) as int, (1) as int, (RL - 1) as int);
    let g11 = spec_win_h(g10, (N - 1 - 1) as int, (1) as int, (RL - 1) as int);
    let g12 = spec_bld(g11, (RH + 1) as int, (RH + 1) as int, (N - 1) as int, (N - 1) as int);
    let g13 = spec_door(g12, (RH + 1) as int, ((RH + N) / 2) as int);
    let g14 = spec_win_h(g13, (RH + 1) as int, (RH + 1) as int, (N - 1) as int);
    let g15 = spec_win_h(g14, (N - 1 - 1) as int, (RH + 1) as int, (N - 1) as int);
    g15
}

/// Crossing with buildings in all four corners, each with its door on the wall closest to the road.
pub fn road_cross_v2() -> (g: Grid)
    ensures
        g.wf(),
        g.cells@ == spec_road_cross_v2(),
{
    let mut g = road_cross_v1();
    bld(&mut g, 1, 1, RL - 1, RL - 1);
    door(&mut g, RL - 2, RL / 2);
    win_h(&mut g, 1, 1, RL - 1);
    win_h(&mut g, RL - 1 - 1, 1, RL - 1);
    bld(&mut g, RH + 1, 1, N - 1, RL - 1);
    door(&mut g, RH + 1, RL / 2);
    win_h(&mut g, 1, RH + 1, N - 1);
    win_h(&mut g, RL - 1 - 1, RH + 1, N - 1);
    bld(&mut g, 1, RH + 1, RL - 1, N - 1);
    door(&mut g, RL - 2, (RH + N) / 2);
    win_h(&mut g, RH + 1, 1, RL - 1);
    win_h(&mut g, N - 1 - 1, 1, RL - 1);
    bld(&mut g, RH + 1, RH + 1, N - 1, N - 1);
    door(&mut g, RH + 1, (RH + N) / 2);
    win_h(&mut g, RH + 1, RH + 1, N - 1);
    win_h(&mut g, N - 1 - 1, RH + 1, N - 1);
    g
}

pub open spec fn spec_road_dead_v1() -> Seq<T> {
    let g0 = spec_v_road_seg(spec_empty(), (RL + RW / 2) as int, (RW) as int, (0) as int, (20) as int);
    let g1 = spec_fill(g0, (RL - 4) as int, (RH + 4) as int, (17) as int, (21) as int, T::Road);
    g1
}

/// Cul-de-sac bulge.
pub fn road_dead_v1() -> (g: Grid)
    ensures
        g.wf(),
        g.cells@ == spec_road_dead_v1(),
{
    let mut g = empty();
    v_road_seg(&mut g, RL + RW / 2, RW, 0, 20);
    fill(&mut g, RL - 4, RH + 4, 17, 21, T::Road);
    g
}

pub open spec fn spec_road_dead_v2() -> Seq<T> {
    let g0 = spec_v_road_seg(spec_empty(), (RL + RW / 2) as int, (RW) as int, (0) as int, (20) as int);
    let g1 = spec_bld(g0, (2) as int, (20) as int, (N - 2) as int, (30) as int);
    let g2 = spec_fill(g1, (RL) as int, (RH) as int, (20) as int, (21) as int, T::Doorway);
    let g3 = spec_win_v(g2, (2) as int, (21) as int, (29) as int);
    let g4 = spec_win_v(g3, (N - 3) as int, (21) as int, (29) as int);
    let g5 = spec_win_h(g4, (29) as int, (3) as int, (N - 3) as int);
    g5
}

/// Road terminates at a building entrance.
pub fn road_dead_v2() -> (g: Grid)
    ensures
        g.wf(),
        g.cells@ == spec_road_dead_v2(),
{
    let mut g = empty();
    v_road_seg(&mut g, RL + RW / 2, RW, 0, 20);
    bld(&mut g, 2, 20, N - 2, 30);
    fill(&mut g, RL, RH, 20, 21, T::Doorway);
    win_v(&mut g, 2, 21, 29);
    win_v(&mut g, N - 3, 21, 29);
    win_h(&mut g, 29, 3, N - 3);
    g
}

pub open spec fn spec_road_dead_v3() -> Seq<T> {
    let g0 = spec_v_road_seg(spec_empty(), (RL + RW / 2) as int, (RW) as int, (0) as int, (15) as int);
    let g1 = spec_fill(g0, (4) as int, (N - 4) as int, (15) as int, (28) as int, T::Road);
    g1
}

/// Road fans out into an open parking area.
pub fn road_dead_v3() -> (g: Grid)
    ensures
        g.wf(),
        g.cells@ == spec_road_dead_v3(),
{
    let mut g = empty();
    v_road_seg(&mut g, RL + RW / 2, RW, 0, 15);
    fill(&mut g, 4, N - 4, 15, 28, T::Road);
    g
}

pub open spec fn spec_road_hangar_v1() -> Seq<T> {
    let g0 = spec_v_road_seg(spec_empty(), (RL + RW / 2) as int, (RW) as int, (0) as int, (14) as int);
    let g1 = spec_bld(g0, (3) as int, (14) as int, (N - 3) as int, (N - 2) as int);
    let g2 = spec_fill(g1, (RL + RW / 2 - 4) as int, (RL + RW / 2 + 4) as int, (14) as int, (15) as int, T::Doorway);
    let g3 = spec_win_v(g2, (3) as int, (15) as int, (N - 3) as int);
    let g4 = spec_win_v(g3, (N - 4) as int, (15) as int, (N - 3) as int);
    let g5 = spec_win_h(g4, (N - 3) as int, (4) as int, (N - 4) as int);
    g5
}

/// Standard hangar with road approach from the north.
pub fn road_hangar_v1() -> (g: Grid)
    ensures
        g.wf(),
        g.cells@ == spec_road_hangar_v1(),
{
    let mut g = empty();
    v_road_seg(&mut g, RL + RW / 2, RW, 0, 14);
    bld(&mut g, 3, 14, N - 3, N - 2);
    fill(&mut g, RL + RW / 2 - 4, RL + RW / 2 + 4, 14, 15, T::Doorway);
    win_v(&mut g, 3, 15, N - 3);
    win_v(&mut g, N - 4, 15, N - 3);
    win_h(&mut g, N - 3, 4, N - 4);
    g
}

pub open spec fn spec_road_hangar_v2() -> Seq<T> {
    let g0 = spec_v_road_seg(spec_empty(), (RL + RW / 2) as int, (RW) as int, (0) as int, (12) as int);
    let g1 = spec_bld(g0, (1) as int, (12) as int, (N - 1) as int, (N - 1) as int);
    let g2 = spec_fill(g1, (RL + RW / 2 - 5) as int, (RL + RW / 2 + 5) as int, (12) as int, (13) as int, T::Doorway);
    let g3 = spec_win_v(g2, (1) as int, (13) as int, (N - 2) as int);
    let g4 = spec_win_v(g3, (N - 2) as int, (13) as int, (N - 2) as int);
    let g5 = spec_win_h(g4, (N - 2) as int, (2) as int, (N - 2) as int);
    g5
}

/// Wider hangar filling more of the block.
pub fn road_hangar_v2() -> (g: Grid)
    ensures
        g.wf(),
        g.cells@ == spec_road_hangar_v2(),
{
    let mut g = empty();
    v_road_seg(&mut g, RL + RW / 2, RW, 0, 12);
    bld(&mut g, 1, 12, N - 1, N - 1);
    fill(&mut g, RL + RW / 2 - 5, RL + RW / 2 + 5, 12, 13, T::Doorway);
    win_v(&mut g, 1, 13, N - 2);
    win_v(&mut g, N - 2, 13, N - 2);
    win_h(&mut g, N - 2, 2, N - 2);
    g
}

pub open spec fn spec_road_hangar_v3() -> Seq<T> {
    let g0 = spec_v_road_seg(spec_empty(), (RL + RW / 2) as int, (RW) as int, (0) as int, (14) as int);
    let g1 = spec_bld(g0, (EX1 - 2) as int, (14) as int, (N - 2) as int, (N - 2) as int);
    let g2 = spec_fill(g1, (EX1 - 2) as int, (EX1 + 6) as int, (14) as int, (15) as int, T::Doorway);
    let g3 = spec_win_v(g2, (N - 3) as int, (15) as int, (N - 3) as int);
    let g4 = spec_win_h(g3, (N - 3) as int, (EX1 - 1) as int, (N - 3) as int);
    let g5 = spec_bld(g4, (2) as int, (16) as int, (RL - 1) as int, (N - 2) as int);
    let g6 = spec_door(g5, (RL - 2) as int, ((16 + N - 2) / 2) as int);
    let g7 = spec_win_v(g6, (2) as int, (17) as int, (N - 3) as int);
    let g8 = spec_win_h(g7, (N - 3) as int, (3) as int, (RL - 2) as int);
    g8
}

/// Hangar with a small attached office on the side.
pub fn road_hangar_v3() -> (g: Grid)
    ensures
        g.wf(),
        g.cells@ == spec_road_hangar_v3(),
{
    let mut g = empty();
    v_road_seg(&mut g, RL + RW / 2, RW, 0, 14);
    bld(&mut g, EX1 - 2, 14, N - 2, N - 2);
    fill(&mut g, EX1 - 2, EX1 + 6, 14, 15, T::Doorway);
    win_v(&mut g, N - 3, 15, N - 3);
    win_h(&mut g, N - 3, EX1 - 1, N - 3);
    bld(&mut g, 2, 16, RL - 1, N - 2);
    door(&mut g, RL - 2, (16 + N - 2) / 2);
    win_v(&mut g, 2, 17, N - 3);
    win_h(&mut g, N - 3, 3, RL - 2);
    g
}

pub open spec fn spec_building_v1() -> Seq<T> {
    let g0 = spec_bld(spec_empty(), (2) as int, (2) as int, (N - 2) as int, (N - 2) as int);
    let g1 = spec_door(g0, (RL + RW / 2) as int, (N - 3) as int);
    let g2 = spec_win_v(g1, (2) as int, (3) as int, (N - 3) as int);
    let g3 = spec_win_v(g2, (N - 3) as int, (3) as int, (N - 3) as int);
    let g4 = spec_win_h(g3, (2) as int, (3) as int, (N - 3) as int);
    let g5 = spec_win_h(g4, (N - 3) as int, (3) as int, (N - 3) as int);
    g5
}

/// Large single building filling most of the block.
pub fn building_v1() -> (g: Grid)
    ensures
        g.wf(),
        g.cells@ == spec_building_v1(),
{
    let mut g = empty();
    bld(&mut g, 2, 2, N - 2, N - 2);
    door(&mut g, RL + RW / 2, N - 3);
    win_v(&mut g, 2, 3, N - 3);
    win_v(&mut g, N - 3, 3, N - 3);
    win_h(&mut g, 2, 3, N - 3);
    win_h(&mut g, N - 3, 3, N - 3);
    g
}

pub open spec fn spec_building_v2() -> Seq<T> {
    let g0 = spec_bld(spec_empty(), (6) as int, (6) as int, (N - 6) as int, (N - 6) as int);
    let g1 = spec_door(g0, (RL + RW / 2) as int, (N - 7) as int);
    let g2 = spec_win_v(g1, (6) as int, (7) as int, (N - 7) as int);
    let g3 = spec_win_v(g2, (N - 7) as int, (7) as int, (N - 7) as int);
    let g4 = spec_win_h(g3, (6) as int, (7) as int, (N - 7) as int);
    let g5 = spec_win_h(g4, (N - 7) as int, (7) as int, (N - 7) as int);
    g5
}

/// Medium building centred in the block.
pub fn building_v2() -> (g: Grid)
    ensures
        g.wf(),
        g.cells@ == spec_building_v2(),
{
    let mut g = empty();
    bld(&mut g, 6, 6, N - 6, N - 6);
    door(&mut g, RL + RW / 2, N - 7);
    win_v(&mut g, 6, 7, N - 7);
    win_v(&mut g, N - 7, 7, N - 7);
    win_h(&mut g, 6, 7, N - 7);
    win_h(&mut g, N - 7, 7, N - 7);
    g
}

pub open spec fn spec_building_v3() -> Seq<T> {
    let g0 = spec_bld(spec_empty(), (1) as int, (3) as int, (15) as int, (N - 3) as int);
    let g1 = spec_door(g0, (8) as int, (N - 4) as int);
    let g2 = spec_win_v(g1, (1) as int, (4) as int, (N - 4) as int);
    let g3 = spec_win_h(g2, (3) as int, (2) as int, (14) as int);
    let g4 = spec_win_h(g3, (N - 4) as int, (2) as int, (14) as int);
    let g5 = spec_bld(g4, (17) as int, (3) as int, (N - 1) as int, (N - 3) as int);
    let g6 = spec_door(g5, (24) as int, (N - 4) as int);
    let g7 = spec_win_v(g6, (N - 2) as int, (4) as int, (N - 4) as int);
    let g8 = spec_win_h(g7, (3) as int, (18) as int, (N - 2) as int);
    let g9 = spec_win_h(g8, (N - 4) as int, (18) as int, (N - 2) as int);
    g9
}

/// Two buildings side by side.
pub fn building_v3() -> (g: Grid)
    ensures
        g.wf(),
        g.cells@ == spec_building_v3(),
{
    let mut g = empty();
    bld(&mut g, 1, 3, 15, N - 3);
    door(&mut g, 8, N - 4);
    win_v(&mut g, 1, 4, N - 4);
    win_h(&mut g, 3, 2, 14);
    win_h(&mut g, N - 4, 2, 14);
    bld(&mut g, 17, 3, N - 1, N - 3);
    door(&mut g, 24, N - 4);
    win_v(&mut g, N - 2, 4, N - 4);
    win_h(&mut g, 3, 18, N - 2);
    win_h(&mut g, N - 4, 18, N - 2);
    g
}

pub open spec fn spec_building_v4() -> Seq<T> {
    let g0 = spec_bld(spec_empty(), (2) as int, (2) as int, (N - 2) as int, (18) as int);
    let g1 = spec_door(g0, (RL + RW / 2) as int, (17) as int);
    let g2 = spec_win_v(g1, (2) as int, (3) as int, (17) as int);
    let g3 = spec_win_v(g2, (N - 3) as int, (3) as int, (17) as int);
    let g4 = spec_win_h(g3, (2) as int, (3) as int, (N - 3) as int);
    let g5 = spec_fill(g4, (2) as int, (N - 2) as int, (28) as int, (29) as int, T::Fence);
    let g6 = spec_fill(g5, (2) as int, (3) as int, (18) as int, (28) as int, T::Fence);
    let g7 = spec_fill(g6, (N - 3) as int, (N - 2) as int, (18) as int, (28) as int, T::Fence);
    let g8 = spec_door(g7, (RL + RW / 2) as int, (28) as int);
    g8
}

/// Building with an enclosed outdoor yard on the south side.
pub fn building_v4() -> (g: Grid)
    ensures
        g.wf(),
        g.cells@ == spec_building_v4(),
{
    let mut g = empty();
    bld(&mut g, 2, 2, N - 2, 18);
    door(&mut g, RL + RW / 2, 17);
    win_v(&mut g, 2, 3, 17);
    win_v(&mut g, N - 3, 3, 17);
    win_h(&mut g, 2, 3, N - 3);
    fill(&mut g, 2, N - 2, 28, 29, T::Fence);
    fill(&mut g, 2, 3, 18, 28, T::Fence);
    fill(&mut g, N - 3, N - 2, 18, 28, T::Fence);
    door(&mut g, RL + RW / 2, 28);
    g
}

pub open spec fn spec_building_v5() -> Seq<T> {
    let g0 = spec_bld(spec_empty(), (2) as int, (2) as int, (N - 2) as int, (N - 2) as int);
    let g1 = spec_partition_h(g0, (N / 2) as int, (3) as int, (N - 3) as int, (RL + RW / 2) as int);
    let g2 = spec_door(g1, (RL + RW / 2) as int, (N - 3) as int);
    let g3 = spec_win_v(g2, (2) as int, (3) as int, (N - 3) as int);
    let g4 = spec_win_v(g3, (N - 3) as int, (3) as int, (N - 3) as int);
    let g5 = spec_win_h(g4, (2) as int, (3) as int, (N - 3) as int);
    let g6 = spec_win_h(g5, (N - 3) as int, (3) as int, (N - 3) as int);
    g6
}

/// Two-room building with an internal partition.
pub fn building_v5() -> (g: Grid)
    ensures
        g.wf(),
        g.cells@ == spec_building_v5(),
{
    let mut g = empty();
    bld(&mut g, 2, 2, N - 2, N - 2);
    partition_h(&mut g, N / 2, 3, N - 3, RL + RW / 2);
    door(&mut g, RL + RW / 2, N - 3);
    win_v(&mut g, 2, 3, N - 3);
    win_v(&mut g, N - 3, 3, N - 3);
    win_h(&mut g, 2, 3, N - 3);
    win_h(&mut g, N - 3, 3, N - 3);
    g
}

pub open spec fn spec_building_v6() -> Seq<T> {
    let g0 = spec_bld(spec_empty(), (2) as int, (2) as int, (N - 2) as int, (18) as int);
    let g1 = spec_door(g0, (RL + RW / 2) as int, (17) as int);
    let g2 = spec_win_v(g1, (2) as int, (3) as int, (17) as int);
    let g3 = spec_win_v(g2, (N - 3) as int, (3) as int, (17) as int);
    let g4 = spec_win_h(g3, (2) as int, (3) as int, (N - 3) as int);
    let g5 = spec_bld(g4, (8) as int, (21) as int, (N - 8) as int, (N - 2) as int);
    let g6 = spec_door(g5, (RL + RW / 2) as int, (21) as int);
    let g7 = spec_win_v(g6, (8) as int, (22) as int, (N - 3) as int);
    let g8 = spec_win_v(g7, (N - 9) as int, (22) as int, (N - 3) as int);
    let g9 = spec_win_h(g8, (N - 3) as int, (9) as int, (N - 9) as int);
    g9
}

/// Main building (north) with a detached annex (south).
pub fn building_v6() -> (g: Grid)
    ensures
        g.wf(),
        g.cells@ == spec_building_v6(),
{
    let mut g = empty();
    bld(&mut g, 2, 2, N - 2, 18);
    door(&mut g, RL + RW / 2, 17);
    win_v(&mut g, 2, 3, 17);
    win_v(&mut g, N - 3, 3, 17);
    win_h(&mut g, 2, 3, N - 3);
    bld(&mut g, 8, 21, N - 8, N - 2);
    door(&mut g, RL + RW / 2, 21);
    win_v(&mut g, 8, 22, N - 3);
    win_v(&mut g, N - 9, 22, N - 3);
    win_h(&mut g, N - 3, 9, N - 9);
    g
}

pub open spec fn spec_building_v7() -> Seq<T> {
    let g0 = spec_fill(spec_empty(), (2) as int, (N - 2) as int, (2) as int, (3) as int, T::Fence);
    let g1 = spec_fill(g0, (2) as int, (N - 2) as int, (N - 3) as int, (N - 2) as int, T::Fence);
    let g2 = spec_fill(g1, (2) as int, (3) as int, (2) as int, (N - 2) as int, T::Fence);
    let g3 = spec_fill(g2, (N - 3) as int, (N - 2) as int, (2) as int, (N - 2) as int, T::Fence);
    let g4 = spec_door(g3, (RL + RW / 2) as int, (N - 3) as int);
    let g5 = spec_bld(g4, (10) as int, (8) as int, (N - 10) as int, (20) as int);
    let g6 = spec_door(g5, (RL + RW / 2) as int, (19) as int);
    let g7 = spec_win_h(g6, (8) as int, (11) as int, (N - 11) as int);
    let g8 = spec_win_v(g7, (10) as int, (9) as int, (19) as int);
    let g9 = spec_win_v(g8, (N - 11) as int, (9) as int, (19) as int);
    g9
}

/// Open field with a fence perimeter and a central building.
pub fn building_v7() -> (g: Grid)
    ensures
        g.wf(),
        g.cells@ == spec_building_v7(),
{
    let mut g = empty();
    fill(&mut g, 2, N - 2, 2, 3, T::Fence);
    fill(&mut g, 2, N - 2, N - 3, N - 2, T::Fence);
    fill(&mut g, 2, 3, 2, N - 2, T::Fence);
    fill(&mut g, N - 3, N - 2, 2, N - 2, T::Fence);
    door(&mut g, RL + RW / 2, N - 3);
    bld(&mut g, 10, 8, N - 10, 20);
    door(&mut g, RL + RW / 2, 19);
    win_h(&mut g, 8, 11, N - 11);
    win_v(&mut g, 10, 9, 19);
    win_v(&mut g, N - 11, 9, 19);
    g
}

pub open spec fn spec_building_v8() -> Seq<T> {
    let g0 = spec_bld(spec_empty(), (1) as int, (1) as int, (13) as int, (13) as int);
    let g1 = spec_door(g0, (7) as int, (12) as int);
    let g2 = spec_win_h(g1, (1) as int, (2) as int, (12) as int);
    let g3 = spec_win_v(g2, (1) as int, (2) as int, (12) as int);
    let g4 = spec_win_v(g3, (12) as int, (2) as int, (12) as int);
    let g5 = spec_bld(g4, (15) as int, (1) as int, (N - 1) as int, (13) as int);
    let g6 = spec_door(g5, (23) as int, (12) as int);
    let g7 = spec_win_h(g6, (1) as int, (16) as int, (N - 2) as int);
    let g8 = spec_win_v(g7, (N - 2) as int, (2) as int, (12) as int);
    let g9 = spec_bld(g8, (4) as int, (16) as int, (N - 4) as int, (N - 1) as int);
    let g10 = spec_door(g9, (RL + RW / 2) as int, (16) as int);
    let g11 = spec_win_v(g10, (4) as int, (17) as int, (N - 2) as int);
    let g12 = spec_win_v(g11, (N - 5) as int, (17) as int, (N - 2) as int);
    let g13 = spec_win_h(g12, (N - 2) as int, (5) as int, (N - 5) as int);
    g13
}

/// Dense layout: three small buildings.
pub fn building_v8() -> (g: Grid)
    ensures
        g.wf(),
        g.cells@ == spec_building_v8(),
{
    let mut g = empty();
    bld(&mut g, 1, 1, 13, 13);
    door(&mut g, 7, 12);
    win_h(&mut g, 1, 2, 12);
    win_v(&mut g, 1, 2, 12);
    win_v(&mut g, 12, 2, 12);
    bld(&mut g, 15, 1, N - 1, 13);
    door(&mut g, 23, 12);
    win_h(&mut g, 1, 16, N - 2);
    win_v(&mut g, N - 2, 2, 12);
    bld(&mut g, 4, 16, N - 4, N - 1);
    door(&mut g, RL + RW / 2, 16);
    win_v(&mut g, 4, 17, N - 2);
    win_v(&mut g, N - 5, 17, N - 2);
    win_h(&mut g, N - 2, 5, N - 5);
    g
}

pub open spec fn spec_mega_straight_v1() -> Seq<T> {
    let g0 = spec_walled(spec_empty(), (ML) as int, (MH) as int, (0) as int, (N) as int, false, false);
    let g1 = spec_win_v(g0, (ML) as int, (0) as int, (N) as int);
    let g2 = spec_win_v(g1, (MH - 1) as int, (0) as int, (N) as int);
    g2
}

/// North-south building corridor, exits at both ends.
pub fn mega_straight_v1() -> (g: Grid)
    ensures
        g.wf(),
        g.cells@ == spec_mega_straight_v1(),
{
    let mut g = empty();
    walled(&mut g, ML, MH, 0, N, false, false);
    win_v(&mut g, ML, 0, N);
    win_v(&mut g, MH - 1, 0, N);
    g
}

pub open spec fn spec_mega_straight_v2() -> Seq<T> {
    let g0 = spec_fill(spec_mega_straight_v1(), (ML) as int, (MH) as int, (MCX) as int, (MCX + 1) as int, T::Wall);
    let g1 = spec_gs(g0, (MCX) as int, (MCX) as int, T::Doorway);
    g1
}

/// North-south corridor partitioned into two rooms.
pub fn mega_straight_v2() -> (g: Grid)
    ensures
        g.wf(),
        g.cells@ == spec_mega_straight_v2(),
{
    let mut g = mega_straight_v1();
    fill(&mut g, ML, MH, MCX, MCX + 1, T::Wall);
    gs(&mut g, MCX, MCX, T::Doorway);
    g
}

pub open spec fn spec_mega_turn_v1() -> Seq<T> {
    let g0 = spec_fill(spec_empty(), (ML) as int, (MH) as int, (0) as int, (MH) as int, T::Floor);
    let g1 = spec_fill(g0, (MH) as int, (N) as int, (ML) as int, (MH) as int, T::Floor);
    let g2 = spec_fill(g1, (ML) as int, (ML + 1) as int, (0) as int, (MH) as int, T::Wall);
    let g3 = spec_fill(g2, (ML) as int, (N) as int, (MH - 1) as int, (MH) as int, T::Wall);
    let g4 = spec_fill(g3, (MH - 1) as int, (MH) as int, (0) as int, (ML + 1) as int, T::Wall);
    let g5 = spec_fill(g4, (MH) as int, (N) as int, (ML) as int, (ML + 1) as int, T::Wall);
    let g6 = spec_win_v(g5, (ML) as int, (0) as int, (MH) as int);
    let g7 = spec_win_h(g6, (MH - 1) as int, (ML) as int, (N) as int);
    let g8 = spec_win_v(g7, (MH - 1) as int, (0) as int, (ML + 1) as int);
    let g9 = spec_win_h(g8, (ML) as int, (MH) as int, (N) as int);
    g9
}

/// L-shaped building: exits north and east.
pub fn mega_turn_v1() -> (g: Grid)
    ensures
        g.wf(),
        g.cells@ == spec_mega_turn_v1(),
{
    let mut g = empty();
    fill(&mut g, ML, MH, 0, MH, T::Floor);
    fill(&mut g, MH, N, ML, MH, T::Floor);
    fill(&mut g, ML, ML + 1, 0, MH, T::Wall);
    fill(&mut g, ML, N, MH - 1, MH, T::Wall);
    fill(&mut g, MH - 1, MH, 0, ML + 1, T::Wall);
    fill(&mut g, MH, N, ML, ML + 1, T::Wall);
    win_v(&mut g, ML, 0, MH);
    win_h(&mut g, MH - 1, ML, N);
    win_v(&mut g, MH - 1, 0, ML + 1);
    win_h(&mut g, ML, MH, N);
    g
}

pub open spec fn spec_mega_t_v1() -> Seq<T> {
    let g0 = spec_fill(spec_empty(), (ML) as int, (MH) as int, (0) as int, (N) as int, T::Floor);
    let g1 = spec_fill(g0, (MH) as int, (N) as int, (ML) as int, (MH) as int, T::Floor);
    let g2 = spec_fill(g1, (ML) as int, (ML + 1) as int, (0) as int, (N) as int, T::Wall);
    let g3 = spec_fill(g2, (MH - 1) as int, (MH) as int, (0) as int, (ML) as int, T::Wall);
    let g4 = spec_fill(g3, (MH - 1) as int, (MH) as int, (MH) as int, (N) as int, T::Wall);
    let g5 = spec_fill(g4, (MH) as int, (N) as int, (ML) as int, (ML + 1) as int, T::Wall);
    let g6 = spec_fill(g5, (MH) as int, (N) as int, (MH - 1) as int, (MH) as int, T::Wall);
    let g7 = spec_win_v(g6, (ML) as int, (0) as int, (N) as int);
    let g8 = spec_win_v(g7, (MH - 1) as int, (0) as int, (ML) as int);
    let g9 = spec_win_v(g8, (MH - 1) as int, (MH) as int, (N) as int);
    let g10 = spec_win_h(g9, (ML) as int, (MH) as int, (N) as int);
    let g11 = spec_win_h(g10, (MH - 1) as int, (MH) as int, (N) as int);
    g11
}

/// T-shaped building: exits north, south and east.
pub fn mega_t_v1() -> (g: Grid)
    ensures
        g.wf(),
        g.cells@ == spec_mega_t_v1(),
{
    let mut g = empty();
    fill(&mut g, ML, MH, 0, N, T::Floor);
    fill(&mut g, MH, N, ML, MH, T::Floor);
    fill(&mut g, ML, ML + 1, 0, N, T::Wall);
    fill(&mut g, MH - 1, MH, 0, ML, T::Wall);
    fill(&mut g, MH - 1, MH, MH, N, T::Wall);
    fill(&mut g, MH, N, ML, ML + 1, T::Wall);
    fill(&mut g, MH, N, MH - 1, MH, T::Wall);
    win_v(&mut g, ML, 0, N);
    win_v(&mut g, MH - 1, 0, ML);
    win_v(&mut g, MH - 1, MH, N);
    win_h(&mut g, ML, MH, N);
    win_h(&mut g, MH - 1, MH, N);
    g
}

pub open spec fn spec_mega_cross_v1() -> Seq<T> {
    let g0 = spec_fill(spec_empty(), (ML) as int, (MH) as int, (0) as int, (N) as int, T::Floor);
    let g1 = spec_fill(g0, (0) as int, (N) as int, (ML) as int, (MH) as int, T::Floor);
    let g2 = spec_fill(g1, (ML) as int, (ML + 1) as int, (0) as int, (ML) as int, T::Wall);
    let g3 = spec_fill(g2, (MH - 1) as int, (MH) as int, (0) as int, (ML) as int, T::Wall);
    let g4 = spec_fill(g3, (ML) as int, (ML + 1) as int, (MH) as int, (N) as int, T::Wall);
    let g5 = spec_fill(g4, (MH - 1) as int, (MH) as int, (MH) as int, (N) as int, T::Wall);
    let g6 = spec_fill(g5, (0) as int, (ML) as int, (ML) as int, (ML + 1) as int, T::Wall);
    let g7 = spec_fill(g6, (0) as int, (ML) as int, (MH - 1) as int, (MH) as int, T::Wall);
    let g8 = spec_fill(g7, (MH) as int, (N) as int, (ML) as int, (ML + 1) as int, T::Wall);
    let g9 = spec_fill(g8, (MH) as int, (N) as int, (MH - 1) as int, (MH) as int, T::Wall);
    let g10 = spec_win_v(g9, (ML) as int, (0) as int, (ML) as int);
    let g11 = spec_win_v(g10, (MH - 1) as int, (0) as int, (ML) as int);
    let g12 = spec_win_v(g11, (ML) as int, (MH) as int, (N) as int);
    let g13 = spec_win_v(g12, (MH - 1) as int, (MH) as int, (N) as int);
    let g14 = spec_win_h(g13, (ML) as int, (0) as int, (ML) as int);
    let g15 = spec_win_h(g14, (MH - 1) as int, (0) as int, (ML) as int);
    let g16 = spec_win_h(g15, (ML) as int, (MH) as int, (N) as int);
    let g17 = spec_win_h(g16, (MH - 1) as int, (MH) as int, (N) as int);
    g17
}

/// Plus-shaped building: exits on all four faces.
pub fn mega_cross_v1() -> (g: Grid)
    ensures
        g.wf(),
        g.cells@ == spec_mega_cross_v1(),
{
    let mut g = empty();
    fill(&mut g, ML, MH, 0, N, T::Floor);
    fill(&mut g, 0, N, ML, MH, T::Floor);
    fill(&mut g, ML, ML + 1, 0, ML, T::Wall);
    fill(&mut g, MH - 1, MH, 0, ML, T::Wall);
    fill(&mut g, ML, ML + 1, MH, N, T::Wall);
    fill(&mut g, MH - 1, MH, MH, N, T::Wall);
    fill(&mut g, 0, ML, ML, ML + 1, T::Wall);
    fill(&mut g, 0, ML, MH - 1, MH, T::Wall);
    fill(&mut g, MH, N, ML, ML + 1, T::Wall);
    fill(&mut g, MH, N, MH - 1, MH, T::Wall);
    win_v(&mut g, ML, 0, ML);
    win_v(&mut g, MH - 1, 0, ML);
    win_v(&mut g, ML, MH, N);
    win_v(&mut g, MH - 1, MH, N);
    win_h(&mut g, ML, 0, ML);
    win_h(&mut g, MH - 1, 0, ML);
    win_h(&mut g, ML, MH, N);
    win_h(&mut g, MH - 1, MH, N);
    g
}

pub open spec fn spec_mega_dead_v1() -> Seq<T> {
    let g0 = spec_walled(spec_empty(), (ML) as int, (MH) as int, (0) as int, (MH) as int, false, true);
    let g1 = spec_gs(g0, (MCX) as int, (MH - 1) as int, T::Doorway);
    let g2 = spec_win_v(g1, (ML) as int, (0) as int, (MH) as int);
    let g3 = spec_win_v(g2, (MH - 1) as int, (0) as int, (MH) as int);
    let g4 = spec_win_h(g3, (MH - 1) as int, (ML) as int, (MH) as int);
    g4
}

/// Dead end: exits only at the north face; the building terminates inside.
pub fn mega_dead_v1() -> (g: Grid)
    ensures
        g.wf(),
        g.cells@ == spec_mega_dead_v1(),
{
    let mut g = empty();
    walled(&mut g, ML, MH, 0, MH, false, true);
    gs(&mut g, MCX, MH - 1, T::Doorway);
    win_v(&mut g, ML, 0, MH);
    win_v(&mut g, MH - 1, 0, MH);
    win_h(&mut g, MH - 1, ML, MH);
    g
}

pub open spec fn spec_path_straight_v1() -> Seq<T> {
    let g0 = spec_v_road(spec_empty(), (PCX) as int, (PW) as int);
    g0
}

/// Bare alley through open ground.
pub fn path_straight_v1() -> (g: Grid)
    ensures
        g.wf(),
        g.cells@ == spec_path_straight_v1(),
{
    let mut g = empty();
    v_road(&mut g, PCX, PW);
    g
}

pub open spec fn spec_path_straight_v2() -> Seq<T> {
    let g0 = spec_bld(spec_path_straight_v1(), (PH + 1) as int, (2) as int, (N - 1) as int, (29) as int);
    let g1 = spec_door(g0, (PH + 1) as int, ((2 + 29) / 2) as int);
    let g2 = spec_win_v(g1, (N - 2) as int, (3) as int, (28) as int);
    let g3 = spec_win_h(g2, (2) as int, (PH + 1) as int, (N - 1) as int);
    let g4 = spec_win_h(g3, (28) as int, (PH + 1) as int, (N - 1) as int);
    g4
}

/// Alley running alongside a large building on the wide side.
pub fn path_straight_v2() -> (g: Grid)
    ensures
        g.wf(),
        g.cells@ == spec_path_straight_v2(),
{
    let mut g = path_straight_v1();
    bld(&mut g, PH + 1, 2, N - 1, 29);
    door(&mut g, PH + 1, (2 + 29) / 2);
    win_v(&mut g, N - 2, 3, 28);
    win_h(&mut g, 2, PH + 1, N - 1);
    win_h(&mut g, 28, PH + 1, N - 1);
    g
}

pub open spec fn spec_path_straight_v3() -> Seq<T> {
    let g0 = spec_bld(spec_path_straight_v1(), (1) as int, (2) as int, (PL) as int, (29) as int);
    let g1 = spec_door(g0, (PL - 1) as int, ((2 + 29) / 2) as int);
    let g2 = spec_win_v(g1, (1) as int, (3) as int, (28) as int);
    let g3 = spec_win_h(g2, (2) as int, (1) as int, (PL) as int);
    let g4 = spec_win_h(g3, (28) as int, (1) as int, (PL) as int);
    let g5 = spec_bld(g4, (PH + 1) as int, (2) as int, (N - 1) as int, (29) as int);
    let g6 = spec_door(g5, (PH + 1) as int, ((2 + 29) / 2) as int);
    let g7 = spec_win_v(g6, (N - 2) as int, (3) as int, (28) as int);
    let g8 = spec_win_h(g7, (2) as int, (PH + 1) as int, (N - 1) as int);
    let g9 = spec_win_h(g8, (28) as int, (PH + 1) as int, (N - 1) as int);
    g9
}

/// Alley squeezed between a narrow left building and a wide right building.
pub fn path_straight_v3() -> (g: Grid)
    ensures
        g.wf(),
        g.cells@ == spec_path_straight_v3(),
{
    let mut g = path_straight_v1();
    bld(&mut g, 1, 2, PL, 29);
    door(&mut g, PL - 1, (2 + 29) / 2);
    win_v(&mut g, 1, 3, 28);
    win_h(&mut g, 2, 1, PL);
    win_h(&mut g, 28, 1, PL);
    bld(&mut g, PH + 1, 2, N - 1, 29);
    door(&mut g, PH + 1, (2 + 29) / 2);
    win_v(&mut g, N - 2, 3, 28);
    win_h(&mut g, 2, PH + 1, N - 1);
    win_h(&mut g, 28, PH + 1, N - 1);
    g
}

pub open spec fn spec_path_turn_v1() -> Seq<T> {
    let g0 = spec_v_road_seg(spec_empty(), (PCX) as int, (PW) as int, (0) as int, (PCX + 1) as int);
    let g1 = spec_h_road_seg(g0, (PCX) as int, (PW) as int, (PL) as int, (N) as int);
    g1
}

/// L-shaped path: north exit and east exit.
pub fn path_turn_v1() -> (g: Grid)
    ensures
        g.wf(),
        g.cells@ == spec_path_turn_v1(),
{
    let mut g = empty();
    v_road_seg(&mut g, PCX, PW, 0, PCX + 1);
    h_road_seg(&mut g, PCX, PW, PL, N);
    g
}

pub open spec fn spec_path_t_v1() -> Seq<T> {
    let g0 = spec_v_road(spec_empty(), (PCX) as int, (PW) as int);
    let g1 = spec_h_road_seg(g0, (PCX) as int, (PW) as int, (PH) as int, (N) as int);
    g1
}

/// T-junction: straight north-south path with an east branch.
pub fn path_t_v1() -> (g: Grid)
    ensures
        g.wf(),
        g.cells@ == spec_path_t_v1(),
{
    let mut g = empty();
    v_road(&mut g, PCX, PW);
    h_road_seg(&mut g, PCX, PW, PH, N);
    g
}

pub open spec fn spec_path_cross_v1() -> Seq<T> {
    let g0 = spec_v_road(spec_empty(), (PCX) as int, (PW) as int);
    let g1 = spec_h_road(g0, (PCX) as int, (PW) as int);
    g1
}

/// Four-way crossing of two thin paths.
pub fn path_cross_v1() -> (g: Grid)
    ensures
        g.wf(),
        g.cells@ == spec_path_cross_v1(),
{
    let mut g = empty();
    v_road(&mut g, PCX, PW);
    h_road(&mut g, PCX, PW);
    g
}

pub open spec fn spec_path_dead_v1() -> Seq<T> {
    let g0 = spec_v_road_seg(spec_empty(), (PCX) as int, (PW) as int, (0) as int, (N / 2 + 1) as int);
    g0
}

/// Path enters from the north and terminates mid-block.
pub fn path_dead_v1() -> (g: Grid)
    ensures
        g.wf(),
        g.cells@ == spec_path_dead_v1(),
{
    let mut g = empty();
    v_road_seg(&mut g, PCX, PW, 0, N / 2 + 1);
    g
}

/// The drawing of the `i`-th generated block, in catalogue order.
pub open spec fn spec_catalogue_grid(i: int) -> Seq<T> {
    if i == 0 {
        spec_road_straight_v1()
    } else if i == 1 {
        spec_road_straight_v2()
    } else if i == 2 {
        spec_road_straight_v3()
    } else if i == 3 {
        spec_road_straight_v4()
    } else if i == 4 {
        spec_road_straight_v5()
    } else if i == 5 {
        spec_road_straight_wide_v1()
    } else if i == 6 {
        spec_road_turn_v1()
    } else if i == 7 {
        spec_road_turn_v2()
    } else if i == 8 {
        spec_road_turn_v3()
    } else if i == 9 {
        spec_road_t_v1()
    } else if i == 10 {
        spec_road_t_v2()
    } else if i == 11 {
        spec_road_t_v3()
    } else if i == 12 {
        spec_road_cross_v1()
    } else if i == 13 {
        spec_road_cross_v2()
    } else if i == 14 {
        spec_road_dead_v1()
    } else if i == 15 {
        spec_road_dead_v2()
    } else if i == 16 {
        spec_road_dead_v3()
    } else if i == 17 {
        spec_road_hangar_v1()
    } else if i == 18 {
        spec_road_hangar_v2()
    } else if i == 19 {
        spec_road_hangar_v3()
    } else if i == 20 {
        spec_mega_straight_v1()
    } else if i == 21 {
        spec_mega_straight_v2()
    } else if i == 22 {
        spec_mega_turn_v1()
    } else if i == 23 {
        spec_mega_t_v1()
    } else if i == 24 {
        spec_mega_cross_v1()
    } else if i == 25 {
        spec_mega_dead_v1()
    } else if i == 26 {
        spec_path_straight_v1()
    } else if i == 27 {
        spec_path_straight_v2()
    } else if i == 28 {
        spec_path_straight_v3()
    } else if i == 29 {
        spec_path_turn_v1()
    } else if i == 30 {
        spec_path_t_v1()
    } else if i == 31 {
        spec_path_cross_v1()
    } else if i == 32 {
        spec_path_dead_v1()
    } else if i == 33 {
        spec_building_v1()
    } else if i == 34 {
        spec_building_v2()
    } else if i == 35 {
        spec_building_v3()
    } else if i == 36 {
        spec_building_v4()
    } else if i == 37 {
        spec_building_v5()
    } else if i == 38 {
        spec_building_v6()
    } else if i == 39 {
        spec_building_v7()
    } else {
        spec_building_v8()
    }
}

/// The file name (without extension) of the `i`-th generated block.
pub open spec fn spec_catalogue_name(i: int) -> Seq<char> {
    if i == 0 {
        "roadblock_gen_straight_v1"@
    } else if i == 1 {
        "roadblock_gen_straight_v2"@
    } else if i == 2 {
        "roadblock_gen_straight_v3"@
    } else if i == 3 {
        "roadblock_gen_straight_v4"@
    } else if i == 4 {
        "roadblock_gen_straight_v5"@
    } else if i == 5 {
        "roadblock_gen_straight_wide_v1"@
    } else if i == 6 {
        "roadblock_gen_turn_v1"@
    } else if i == 7 {
        "roadblock_gen_turn_v2"@
    } else if i == 8 {
        "roadblock_gen_turn_v3"@
    } else if i == 9 {
        "roadblock_gen_t_v1"@
    } else if i == 10 {
        "roadblock_gen_t_v2"@
    } else if i == 11 {
        "roadblock_gen_t_v3"@
    } else if i == 12 {
        "roadblock_gen_cross_v1"@
    } else if i == 13 {
        "roadblock_gen_cross_v2"@
    } else if i == 14 {
        "roadblock_gen_dead_v1"@
    } else if i == 15 {
        "roadblock_gen_dead_v2"@
    } else if i == 16 {
        "roadblock_gen_dead_v3"@
    } else if i == 17 {
        "roadblock_gen_hangar_v1"@
    } else if i == 18 {
        "roadblock_gen_hangar_v2"@
    } else if i == 19 {
        "roadblock_gen_hangar_v3"@
    } else if i == 20 {
        "buildingblock_gen_mega_straight_v1"@
    } else if i == 21 {
        "buildingblock_gen_mega_straight_v2"@
    } else if i == 22 {
        "buildingblock_gen_mega_turn_v1"@
    } else if i == 23 {
        "buildingblock_gen_mega_t_v1"@
    } else if i == 24 {
        "buildingblock_gen_mega_cross_v1"@
    } else if i == 25 {
        "buildingblock_gen_mega_dead_v1"@
    } else if i == 26 {
        "roadblock_gen_path_straight_v1"@
    } else if i == 27 {
        "roadblock_gen_path_straight_v2"@
    } else if i == 28 {
        "roadblock_gen_path_straight_v3"@
    } else if i == 29 {
        "roadblock_gen_path_turn_v1"@
    } else if i == 30 {
        "roadblock_gen_path_t_v1"@
    } else if i == 31 {
        "roadblock_gen_path_cross_v1"@
    } else if i == 32 {
        "roadblock_gen_path_dead_v1"@
    } else if i == 33 {
        "buildingblock_gen_v1"@
    } else if i == 34 {
        "buildingblock_gen_v2"@
    } else if i == 35 {
        "buildingblock_gen_v3"@
    } else if i == 36 {
        "buildingblock_gen_v4"@
    } else if i == 37 {
        "buildingblock_gen_v5"@
    } else if i == 38 {
        "buildingblock_gen_v6"@
    } else if i == 39 {
        "buildingblock_gen_v7"@
    } else {
        "buildingblock_gen_v8"@
    }
}

/// Every generated block in catalogue order: its file name (without the
/// `.txt` extension) and the text of its block file.
pub fn catalogue() -> (r: Vec<(&'static str, Vec<u8>)>)
    ensures
        r@.len() == 41,
        forall|i: int| 0 <= i < 41 ==> #[trigger] r@[i].0@ == spec_catalogue_name(i) && r@[i].1@ == spec_txt(spec_catalogue_grid(i)) && spec_catalogue_grid(i).len() == 1024,
{
    let mut r: Vec<(&'static str, Vec<u8>)> = Vec::new();
    r.push(("roadblock_gen_straight_v1", to_txt(&road_straight_v1())));
    r.push(("roadblock_gen_straight_v2", to_txt(&road_straight_v2())));
    r.push(("roadblock_gen_straight_v3", to_txt(&road_straight_v3())));
    r.push(("roadblock_gen_straight_v4", to_txt(&road_straight_v4())));
    r.push(("roadblock_gen_straight_v5", to_txt(&road_straight_v5())));
    r.push(("roadblock_gen_straight_wide_v1", to_txt(&road_straight_wide_v1())));
    r.push(("roadblock_gen_turn_v1", to_txt(&road_turn_v1())));
    r.push(("roadblock_gen_turn_v2", to_txt(&road_turn_v2())));
    r.push(("roadblock_gen_turn_v3", to_txt(&road_turn_v3())));
    r.push(("roadblock_gen_t_v1", to_txt(&road_t_v1())));
    r.push(("roadblock_gen_t_v2", to_txt(&road_t_v2())));
    r.push(("roadblock_gen_t_v3", to_txt(&road_t_v3())));
    r.push(("roadblock_gen_cross_v1", to_txt(&road_cross_v1())));
    r.push(("roadblock_gen_cross_v2", to_txt(&road_cross_v2())));
    r.push(("roadblock_gen_dead_v1", to_txt(&road_dead_v1())));
    r.push(("roadblock_gen_dead_v2", to_txt(&road_dead_v2())));
    r.push(("roadblock_gen_dead_v3", to_txt(&road_dead_v3())));
    r.push(("roadblock_gen_hangar_v1", to_txt(&road_hangar_v1())));
    r.push(("roadblock_gen_hangar_v2", to_txt(&road_hangar_v2())));
    r.push(("roadblock_gen_hangar_v3", to_txt(&road_hangar_v3())));
    r.push(("buildingblock_gen_mega_straight_v1", to_txt(&mega_straight_v1())));
    r.push(("buildingblock_gen_mega_straight_v2", to_txt(&mega_straight_v2())));
    r.push(("buildingblock_gen_mega_turn_v1", to_txt(&mega_turn_v1())));
    r.push(("buildingblock_gen_mega_t_v1", to_txt(&mega_t_v1())));
    r.push(("buildingblock_gen_mega_cross_v1", to_txt(&mega_cross_v1())));
    r.push(("buildingblock_gen_mega_dead_v1", to_txt(&mega_dead_v1())));
    r.push(("roadblock_gen_path_straight_v1", to_txt(&path_straight_v1())));
    r.push(("roadblock_gen_path_straight_v2", to_txt(&path_straight_v2())));
    r.push(("roadblock_gen_path_straight_v3", to_txt(&path_straight_v3())));
    r.push(("roadblock_gen_path_turn_v1", to_txt(&path_turn_v1())));
    r.push(("roadblock_gen_path_t_v1", to_txt(&path_t_v1())));
    r.push(("roadblock_gen_path_cross_v1", to_txt(&path_cross_v1())));
    r.push(("roadblock_gen_path_dead_v1", to_txt(&path_dead_v1())));
    r.push(("buildingblock_gen_v1", to_txt(&building_v1())));
    r.push(("buildingblock_gen_v2", to_txt(&building_v2())));
    r.push(("buildingblock_gen_v3", to_txt(&building_v3())));
    r.push(("buildingblock_gen_v4", to_txt(&building_v4())));
    r.push(("buildingblock_gen_v5", to_txt(&building_v5())));
    r.push(("buildingblock_gen_v6", to_txt(&building_v6())));
    r.push(("buildingblock_gen_v7", to_txt(&building_v7())));
    r.push(("buildingblock_gen_v8", to_txt(&building_v8())));
    r
}

} // verus!
