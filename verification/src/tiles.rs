//! The dungeon's tile grid and the primitive edits that carve it.
use vstd::prelude::*;

verus! {

/// Width of the dungeon in cells.
pub const W: usize = 60;

/// Height of the dungeon in cells.
pub const H: usize = 30;

/// Solid rock, shown as a space.
pub const TILE_ROCK: u8 = 0x20;

/// A room wall, `#`.
pub const TILE_WALL: u8 = 0x23;

/// Room floor, `.`.
pub const TILE_ROOM: u8 = 0x2e;

/// Corridor floor, `,`.
pub const TILE_CORRIDOR: u8 = 0x2c;

/// A door in a room wall, `+`.
pub const TILE_DOOR: u8 = 0x2b;

/// Index of cell `(x, y)` in the row-major grid.
pub open spec fn cell(x: int, y: int) -> int {
    y * 60 + x
}

/// `(x, y)` lies on the grid.
pub open spec fn in_grid(x: int, y: int) -> bool {
    0 <= x < W as int && 0 <= y < H as int
}

/// `(x, y)` lies on the grid but not on its border.
pub open spec fn in_interior(x: int, y: int) -> bool {
    0 < x < W as int - 1 && 0 < y < H as int - 1
}

/// The tile at `(x, y)`.
pub open spec fn tile_at(t: Seq<u8>, x: int, y: int) -> u8 {
    t[cell(x, y)]
}

/// `t` is a full grid.
pub open spec fn grid_ok(t: Seq<u8>) -> bool {
    t.len() == W * H
}

/// Every room floor of `before` is still a room floor in `after`.
pub open spec fn floors_kept(before: Seq<u8>, after: Seq<u8>) -> bool {
    &&& after.len() == before.len()
    &&& forall|x: int, y: int|
        in_grid(x, y) && tile_at(before, x, y) == TILE_ROOM ==> #[trigger] tile_at(after, x, y)
            == TILE_ROOM
}

/// Cells of the grid have distinct indices inside the grid.
pub proof fn lemma_cell(x: int, y: int, a: int, b: int)
    requires
        in_grid(x, y),
        in_grid(a, b),
    ensures
        0 <= cell(x, y) < W * H,
        cell(x, y) == cell(a, b) <==> (x == a && y == b),
{
}

/// Every index of the grid is a cell.
pub proof fn lemma_index_cell(i: int)
    requires
        0 <= i < W * H,
    ensures
        in_grid(i % 60, i / 60),
        cell(i % 60, i / 60) == i,
{
}

/// Writes `value` at `(x, y)` when `keep` says the old tile may be replaced.
pub open spec fn put_if(t: Seq<u8>, x: int, y: int, value: u8, replace: bool) -> Seq<u8> {
    if in_interior(x, y) && replace {
        t.update(cell(x, y), value)
    } else {
        t
    }
}

/// Makes `(x, y)` room floor, unless it is on the border or off the grid.
pub fn set_room_floor(tiles: &mut Vec<u8>, x: i32, y: i32)
    requires
        grid_ok(old(tiles)@),
    ensures
        final(tiles)@ == put_if(old(tiles)@, x as int, y as int, TILE_ROOM, true),
{
    if x <= 0 || y <= 0 || x >= (W as i32 - 1) || y >= (H as i32 - 1) {
        return ;
    }
    tiles.set((y as usize) * W + (x as usize), TILE_ROOM);
}

/// Turns rock at `(x, y)` into corridor, unless it is on the border or off
/// the grid.
pub fn set_corridor_floor(tiles: &mut Vec<u8>, x: i32, y: i32)
    requires
        grid_ok(old(tiles)@),
    ensures
        final(tiles)@ == put_if(
            old(tiles)@,
            x as int,
            y as int,
            TILE_CORRIDOR,
            in_interior(x as int, y as int) && tile_at(old(tiles)@, x as int, y as int) == TILE_ROCK,
        ),
{
    if x <= 0 || y <= 0 || x >= (W as i32 - 1) || y >= (H as i32 - 1) {
        return ;
    }
    let index = (y as usize) * W + (x as usize);
    if tiles[index] == TILE_ROCK {
        tiles.set(index, TILE_CORRIDOR);
    }
}

/// Turns rock or wall at `(x, y)` into a door, unless it is on the border
/// or off the grid.
pub fn set_door_tile(tiles: &mut Vec<u8>, x: i32, y: i32)
    requires
        grid_ok(old(tiles)@),
    ensures
        final(tiles)@ == put_if(
            old(tiles)@,
            x as int,
            y as int,
            TILE_DOOR,
            in_interior(x as int, y as int) && (tile_at(old(tiles)@, x as int, y as int)
                == TILE_ROCK || tile_at(old(tiles)@, x as int, y as int) == TILE_WALL),
        ),
{
    if x <= 0 || y <= 0 || x >= (W as i32 - 1) || y >= (H as i32 - 1) {
        return ;
    }
    let index = (y as usize) * W + (x as usize);
    if tiles[index] == TILE_ROCK || tiles[index] == TILE_WALL {
        tiles.set(index, TILE_DOOR);
    }
}

/// The rectangle strictly inside the walls `x1, x2, y1, y2`.
pub open spec fn inside_walls(x1: int, y1: int, x2: int, y2: int, x: int, y: int) -> bool {
    x1 < x < x2 && y1 < y < y2
}

/// The cells of the horizontal run from `x1` to `x2` (either order) on row `y`.
pub open spec fn on_h_run(x1: int, x2: int, y: int, a: int, b: int) -> bool {
    b == y && ((x1 <= a <= x2) || (x2 <= a <= x1))
}

/// The cells of the vertical run from `y1` to `y2` (either order) on column `x`.
pub open spec fn on_v_run(y1: int, y2: int, x: int, a: int, b: int) -> bool {
    a == x && ((y1 <= b <= y2) || (y2 <= b <= y1))
}

/// The grid after turning the rock of the run's interior cells into corridor.
pub open spec fn corridor_tile(t: Seq<u8>, on_run: bool, a: int, b: int) -> u8 {
    if on_run && in_interior(a, b) && tile_at(t, a, b) == TILE_ROCK {
        TILE_CORRIDOR
    } else {
        tile_at(t, a, b)
    }
}

/// Digs a horizontal corridor through rock from `x1` to `x2` on row `y`.
pub fn carve_h_tunnel(tiles: &mut Vec<u8>, x1: i32, x2: i32, y: i32)
    requires
        grid_ok(old(tiles)@),
    ensures
        grid_ok(final(tiles)@),
        forall|a: int, b: int|
            in_grid(a, b) ==> #[trigger] tile_at(final(tiles)@, a, b) == corridor_tile(
                old(tiles)@,
                on_h_run(x1 as int, x2 as int, y as int, a, b),
                a,
                b,
            ),
{
    let ghost orig = tiles@;
    let min_x = if x1 < x2 {
        x1
    } else {
        x2
    };
    let max_x = if x1 > x2 {
        x1
    } else {
        x2
    };
    let mut x = min_x;
    loop
        invariant_except_break
            min_x <= x <= max_x,
            min_x == (if x1 < x2 {
                x1
            } else {
                x2
            }),
            max_x == (if x1 > x2 {
                x1
            } else {
                x2
            }),
            grid_ok(tiles@),
            forall|a: int, b: int|
                in_grid(a, b) ==> #[trigger] tile_at(tiles@, a, b) == corridor_tile(
                    orig,
                    b == y && min_x <= a < x,
                    a,
                    b,
                ),
        ensures
            grid_ok(tiles@),
            forall|a: int, b: int|
                in_grid(a, b) ==> #[trigger] tile_at(tiles@, a, b) == corridor_tile(
                    orig,
                    b == y && min_x <= a <= max_x,
                    a,
                    b,
                ),
        decreases max_x - x,
    {
        let ghost before = tiles@;
        set_corridor_floor(tiles, x, y);
        assert forall|a: int, b: int| in_grid(a, b) implies #[trigger] tile_at(tiles@, a, b)
            == corridor_tile(orig, b == y && min_x <= a <= x, a, b) by {
            assert(tile_at(before, a, b) == corridor_tile(orig, b == y && min_x <= a < x, a, b));
            if in_interior(x as int, y as int) {
                lemma_cell(a, b, x as int, y as int);
            }
        }
        if x == max_x {
            break;
        }
        x = x + 1;
    }
}

/// Digs a vertical corridor through rock from `y1` to `y2` on column `x`.
pub fn carve_v_tunnel(tiles: &mut Vec<u8>, y1: i32, y2: i32, x: i32)
    requires
        grid_ok(old(tiles)@),
    ensures
        grid_ok(final(tiles)@),
        forall|a: int, b: int|
            in_grid(a, b) ==> #[trigger] tile_at(final(tiles)@, a, b) == corridor_tile(
                old(tiles)@,
                on_v_run(y1 as int, y2 as int, x as int, a, b),
                a,
                b,
            ),
{
    let ghost orig = tiles@;
    let min_y = if y1 < y2 {
        y1
    } else {
        y2
    };
    let max_y = if y1 > y2 {
        y1
    } else {
        y2
    };
    let mut y = min_y;
    loop
        invariant_except_break
            min_y <= y <= max_y,
            min_y == (if y1 < y2 {
                y1
            } else {
                y2
            }),
            max_y == (if y1 > y2 {
                y1
            } else {
                y2
            }),
            grid_ok(tiles@),
            forall|a: int, b: int|
                in_grid(a, b) ==> #[trigger] tile_at(tiles@, a, b) == corridor_tile(
                    orig,
                    a == x && min_y <= b < y,
                    a,
                    b,
                ),
        ensures
            grid_ok(tiles@),
            forall|a: int, b: int|
                in_grid(a, b) ==> #[trigger] tile_at(tiles@, a, b) == corridor_tile(
                    orig,
                    a == x && min_y <= b <= max_y,
                    a,
                    b,
                ),
        decreases max_y - y,
    {
        let ghost before = tiles@;
        set_corridor_floor(tiles, x, y);
        assert forall|a: int, b: int| in_grid(a, b) implies #[trigger] tile_at(tiles@, a, b)
            == corridor_tile(orig, a == x && min_y <= b <= y, a, b) by {
            assert(tile_at(before, a, b) == corridor_tile(orig, a == x && min_y <= b < y, a, b));
            if in_interior(x as int, y as int) {
                lemma_cell(a, b, x as int, y as int);
            }
        }
        if y == max_y {
            break;
        }
        y = y + 1;
    }
}

/// `(cx, cy)` is room floor away from the border: a cell that gets walls.
pub open spec fn room_center(t: Seq<u8>, cx: int, cy: int) -> bool {
    in_interior(cx, cy) && tile_at(t, cx, cy) == TILE_ROOM
}

/// `(cx, cy)` is such a cell and comes before `(x, y)` in row-major order.
pub open spec fn center_before(t: Seq<u8>, cx: int, cy: int, y: int, x: int) -> bool {
    room_center(t, cx, cy) && (cy < y || (cy == y && cx < x))
}

/// One of the eight neighbours of `(a, b)`, or `(a, b)` itself, is room
/// floor away from the border that comes before `(x, y)` in row-major order.
pub open spec fn near_room_before(t: Seq<u8>, a: int, b: int, y: int, x: int) -> bool {
    ||| center_before(t, a - 1, b - 1, y, x)
    ||| center_before(t, a, b - 1, y, x)
    ||| center_before(t, a + 1, b - 1, y, x)
    ||| center_before(t, a - 1, b, y, x)
    ||| center_before(t, a, b, y, x)
    ||| center_before(t, a + 1, b, y, x)
    ||| center_before(t, a - 1, b + 1, y, x)
    ||| center_before(t, a, b + 1, y, x)
    ||| center_before(t, a + 1, b + 1, y, x)
}

/// `(a, b)` touches (diagonals included) room floor away from the border.
pub open spec fn near_room(t: Seq<u8>, a: int, b: int) -> bool {
    near_room_before(t, a, b, H as int, 0)
}

/// The whole grid once rock touching room floor has become wall.
pub open spec fn walled_grid(t: Seq<u8>) -> Seq<u8> {
    Seq::new(t.len(), |i: int| walled_tile(t, i % (W as int), i / (W as int)))
}

/// The tile at `(a, b)` once rock touching room floor has become wall.
pub open spec fn walled_tile(t: Seq<u8>, a: int, b: int) -> u8 {
    if tile_at(t, a, b) == TILE_ROCK && near_room(t, a, b) {
        TILE_WALL
    } else {
        tile_at(t, a, b)
    }
}

/// `(a, b)` is rock within one step (diagonals included) of `(x, y)`.
pub open spec fn rock_next_to(t: Seq<u8>, a: int, b: int, x: int, y: int) -> bool {
    in_grid(a, b) && x - 1 <= a <= x + 1 && y - 1 <= b <= y + 1 && tile_at(t, a, b) == TILE_ROCK
}

/// Appends the indices of the rock cells around `(x, y)`.
fn collect_rock_neighbors(tiles: &Vec<u8>, x: usize, y: usize, to_wall: &mut Vec<usize>)
    requires
        grid_ok(tiles@),
        1 <= x < W - 1,
        1 <= y < H - 1,
        forall|k: int| 0 <= k < old(to_wall)@.len() ==> #[trigger] old(to_wall)@[k] < W * H,
    ensures
        forall|k: int| 0 <= k < final(to_wall)@.len() ==> #[trigger] final(to_wall)@[k] < W * H,
        forall|a: int, b: int|
            in_grid(a, b) ==> (#[trigger] final(to_wall)@.contains(cell(a, b) as usize) <==> (old(
                to_wall,
            )@.contains(cell(a, b) as usize) || rock_next_to(tiles@, a, b, x as int, y as int))),
{
    let ghost start = to_wall@;
    let mut ny = y - 1;
    while ny <= y + 1
        invariant
            y - 1 <= ny <= y + 2,
            1 <= x < W - 1,
            1 <= y < H - 1,
            grid_ok(tiles@),
            forall|k: int| 0 <= k < to_wall@.len() ==> #[trigger] to_wall@[k] < W * H,
            forall|a: int, b: int|
                in_grid(a, b) ==> (#[trigger] to_wall@.contains(cell(a, b) as usize) <==> (
                start.contains(cell(a, b) as usize) || (rock_next_to(
                    tiles@,
                    a,
                    b,
                    x as int,
                    y as int,
                ) && b < ny))),
        decreases y + 2 - ny,
    {
        let mut nx = x - 1;
        while nx <= x + 1
            invariant
                y - 1 <= ny <= y + 1,
                x - 1 <= nx <= x + 2,
                1 <= x < W - 1,
                1 <= y < H - 1,
                grid_ok(tiles@),
                forall|k: int| 0 <= k < to_wall@.len() ==> #[trigger] to_wall@[k] < W * H,
                forall|a: int, b: int|
                    in_grid(a, b) ==> (#[trigger] to_wall@.contains(cell(a, b) as usize) <==> (
                    start.contains(cell(a, b) as usize) || (rock_next_to(
                        tiles@,
                        a,
                        b,
                        x as int,
                        y as int,
                    ) && (b < ny || (b == ny && a < nx))))),
            decreases x + 2 - nx,
        {
            let nindex = ny * W + nx;
            if tiles[nindex] == TILE_ROCK {
                let ghost before = to_wall@;
                to_wall.push(nindex);
                assert forall|a: int, b: int| in_grid(a, b) implies (#[trigger] to_wall@.contains(
                    cell(a, b) as usize,
                ) <==> (before.contains(cell(a, b) as usize) || (a == nx && b == ny))) by {
                    lemma_cell(a, b, nx as int, ny as int);
                    if before.contains(cell(a, b) as usize) {
                        let k = choose|k: int| 0 <= k < before.len() && before[k] == cell(a, b) as usize;
                        assert(to_wall@[k] == before[k]);
                    }
                    if to_wall@.contains(cell(a, b) as usize) {
                        let k = choose|k: int| 0 <= k < to_wall@.len() && to_wall@[k] == cell(a, b) as usize;
                        if k < before.len() {
                            assert(before[k] == to_wall@[k]);
                        }
                    }
                    assert(to_wall@[before.len() as int] == nindex);
                }
            }
            nx = nx + 1;
        }
        ny = ny + 1;
    }
}

/// Turns every rock cell that touches room floor (diagonals included) into
/// wall.
pub fn add_walls_around_open_tiles(tiles: &mut Vec<u8>)
    requires
        grid_ok(old(tiles)@),
    ensures
        final(tiles)@ == walled_grid(old(tiles)@),
        grid_ok(final(tiles)@),
        forall|a: int, b: int|
            in_grid(a, b) ==> #[trigger] tile_at(final(tiles)@, a, b) == walled_tile(old(tiles)@, a, b),
{
    let ghost orig = tiles@;
    let mut to_wall: Vec<usize> = Vec::new();

    let mut y: usize = 1;
    while y < H - 1
        invariant
            1 <= y <= H - 1,
            tiles@ == orig,
            grid_ok(orig),
            forall|k: int| 0 <= k < to_wall@.len() ==> #[trigger] to_wall@[k] < W * H,
            forall|a: int, b: int|
                in_grid(a, b) ==> (#[trigger] to_wall@.contains(cell(a, b) as usize) <==> (
                tile_at(orig, a, b) == TILE_ROCK && near_room_before(orig, a, b, y as int, 0))),
        decreases H - 1 - y,
    {
        let mut x: usize = 1;
        while x < W - 1
            invariant
                1 <= y < H - 1,
                1 <= x <= W - 1,
                tiles@ == orig,
                grid_ok(orig),
                forall|k: int| 0 <= k < to_wall@.len() ==> #[trigger] to_wall@[k] < W * H,
                forall|a: int, b: int|
                    in_grid(a, b) ==> (#[trigger] to_wall@.contains(cell(a, b) as usize) <==> (
                    tile_at(orig, a, b) == TILE_ROCK && near_room_before(
                        orig,
                        a,
                        b,
                        y as int,
                        x as int,
                    ))),
            decreases W - 1 - x,
        {
            let index = y * W + x;
            if tiles[index] == TILE_ROOM {
                collect_rock_neighbors(tiles, x, y, &mut to_wall);
            }
            x = x + 1;
        }
        y = y + 1;
    }

    let mut k: usize = 0;
    while k < to_wall.len()
        invariant
            k <= to_wall@.len(),
            grid_ok(tiles@),
            grid_ok(orig),
            forall|j: int| 0 <= j < to_wall@.len() ==> #[trigger] to_wall@[j] < W * H,
            forall|a: int, b: int|
                in_grid(a, b) ==> #[trigger] tile_at(tiles@, a, b) == (if to_wall@.subrange(
                    0,
                    k as int,
                ).contains(cell(a, b) as usize) {
                    TILE_WALL
                } else {
                    tile_at(orig, a, b)
                }),
        decreases to_wall@.len() - k,
    {
        let index = to_wall[k];
        let ghost before = tiles@;
        tiles.set(index, TILE_WALL);
        assert forall|a: int, b: int| in_grid(a, b) implies #[trigger] tile_at(tiles@, a, b) == (
        if to_wall@.subrange(0, k + 1).contains(cell(a, b) as usize) {
            TILE_WALL
        } else {
            tile_at(orig, a, b)
        }) by {
            lemma_cell(a, b, 0, 0);
            lemma_index_cell(index as int);
            lemma_cell(a, b, (index as int) % 60, (index as int) / 60);
            assert(tile_at(before, a, b) == (if to_wall@.subrange(0, k as int).contains(
                cell(a, b) as usize,
            ) {
                TILE_WALL
            } else {
                tile_at(orig, a, b)
            }));
            let sub = to_wall@.subrange(0, k as int);
            let sub1 = to_wall@.subrange(0, k + 1);
            assert(sub1 == sub.push(index));
            if sub.contains(cell(a, b) as usize) {
                let j = choose|j: int| 0 <= j < sub.len() && sub[j] == cell(a, b) as usize;
                assert(sub1[j] == sub[j]);
            }
            if sub1.contains(cell(a, b) as usize) && cell(a, b) != index {
                let j = choose|j: int| 0 <= j < sub1.len() && sub1[j] == cell(a, b) as usize;
                assert(j < sub.len());
                assert(sub[j] == sub1[j]);
            }
            if cell(a, b) == index {
                assert(sub1[k as int] == index);
            }
        }
        k = k + 1;
    }
    assert(to_wall@.subrange(0, to_wall@.len() as int) == to_wall@);
    assert forall|i: int| 0 <= i < tiles@.len() implies tiles@[i] == #[trigger] walled_grid(orig)[i] by {
        lemma_index_cell(i);
        assert(tile_at(tiles@, i % 60, i / 60) == tiles@[i]);
    }
    assert(tiles@ =~= walled_grid(orig));
}

/// Room floor `.` away from the border lies within one step (diagonals
/// included) of `(a, b)`, or at `(a, b)` itself.
pub open spec fn room_floor_around(t: Seq<u8>, a: int, b: int) -> bool {
    exists|c: int, d: int|
        a - 1 <= c <= a + 1 && b - 1 <= d <= b + 1 && in_interior(c, d) && #[trigger] tile_at(t, c, d)
            == 46
}

/// `near_room` says the same as `room_floor_around`.
proof fn lemma_near_room_is_room_floor_around(t: Seq<u8>, a: int, b: int)
    requires
        in_grid(a, b),
    ensures
        near_room(t, a, b) <==> room_floor_around(t, a, b),
{
    if room_floor_around(t, a, b) {
        let (c, d) = choose|c: int, d: int|
            a - 1 <= c <= a + 1 && b - 1 <= d <= b + 1 && in_interior(c, d) && #[trigger] tile_at(
                t,
                c,
                d,
            ) == 46;
        assert(room_center(t, c, d));
        assert(center_before(t, c, d, H as int, 0));
    }
    if near_room(t, a, b) {
        if center_before(t, a - 1, b - 1, H as int, 0) {
            assert(tile_at(t, a - 1, b - 1) == 46);
        } else if center_before(t, a, b - 1, H as int, 0) {
            assert(tile_at(t, a, b - 1) == 46);
        } else if center_before(t, a + 1, b - 1, H as int, 0) {
            assert(tile_at(t, a + 1, b - 1) == 46);
        } else if center_before(t, a - 1, b, H as int, 0) {
            assert(tile_at(t, a - 1, b) == 46);
        } else if center_before(t, a, b, H as int, 0) {
            assert(tile_at(t, a, b) == 46);
        } else if center_before(t, a + 1, b, H as int, 0) {
            assert(tile_at(t, a + 1, b) == 46);
        } else if center_before(t, a - 1, b + 1, H as int, 0) {
            assert(tile_at(t, a - 1, b + 1) == 46);
        } else if center_before(t, a, b + 1, H as int, 0) {
            assert(tile_at(t, a, b + 1) == 46);
        } else {
            assert(tile_at(t, a + 1, b + 1) == 46);
        }
    }
}

/// Walls are raised only next to room floor: after the walls are added, a
/// cell is a wall `#` exactly when it was a wall before, or it was solid
/// rock ` ` with room floor `.` (not a corridor or a door) among its eight
/// neighbours. Rock with no room floor around it stays rock, and every cell
/// that was not rock keeps its tile.
pub proof fn lemma_walls_only_around_room_floor(t: Seq<u8>, a: int, b: int)
    requires
        grid_ok(t),
        in_grid(a, b),
    ensures
        (tile_at(walled_grid(t), a, b) == 35) <==> (tile_at(t, a, b) == 35 || (tile_at(t, a, b) == 32
            && room_floor_around(t, a, b))),
        tile_at(t, a, b) == 32 && !room_floor_around(t, a, b) ==> tile_at(walled_grid(t), a, b)
            == 32,
        tile_at(t, a, b) != 32 ==> tile_at(walled_grid(t), a, b) == tile_at(t, a, b),
{
    lemma_index_cell(cell(a, b));
    assert(cell(a, b) % 60 == a && cell(a, b) / 60 == b);
    assert(tile_at(walled_grid(t), a, b) == walled_tile(t, a, b));
    lemma_near_room_is_room_floor_around(t, a, b);
}

} // verus!
