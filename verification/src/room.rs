//! Rectangular rooms: their geometry, their doors, and carving them out.
use vstd::prelude::*;
use crate::rng::{DungeonRng, next_draw, advanced, range_pick, range_from_u32};
use crate::tiles::{W, H, TILE_ROOM, grid_ok, in_grid, in_interior, tile_at, inside_walls, lemma_cell, lemma_index_cell, set_room_floor};

verus! {

/// A room given by its wall coordinates; the floor lies strictly inside.
#[derive(Clone, Copy)]
pub struct Room {
    pub x1: i32,
    pub y1: i32,
    pub x2: i32,
    pub y2: i32,
}

/// Where a corridor leaves a room: the door cell in the wall and the
/// direction pointing away from the room.
#[derive(Clone, Copy)]
pub struct DoorEndpoint {
    pub wall_x: i32,
    pub wall_y: i32,
    pub out_dx: i32,
    pub out_dy: i32,
}

/// Integer halving that rounds towards zero, as Rust's `/` does.
pub open spec fn half(v: int) -> int {
    if v >= 0 {
        v / 2
    } else {
        -((-v) / 2)
    }
}

/// Coordinates small enough for all room arithmetic.
pub open spec fn small(v: int) -> bool {
    -0x1000_0000 <= v <= 0x1000_0000
}

/// A room whose coordinates are small enough for all room arithmetic.
pub open spec fn room_small(r: Room) -> bool {
    small(r.x1 as int) && small(r.y1 as int) && small(r.x2 as int) && small(r.y2 as int)
}

/// A room that fits the dungeon: its walls may touch the border, its floor
/// is at least one cell wide and one cell high.
pub open spec fn room_ok(r: Room) -> bool {
    &&& 0 <= r.x1
    &&& r.x1 + 2 <= r.x2 <= W as int - 1
    &&& 0 <= r.y1
    &&& r.y1 + 2 <= r.y2 <= H as int - 1
}

/// `(x, y)` is floor of room `r`.
pub open spec fn in_room(r: Room, x: int, y: int) -> bool {
    inside_walls(r.x1 as int, r.y1 as int, r.x2 as int, r.y2 as int, x, y)
}

pub open spec fn center_of(r: Room) -> (int, int) {
    (half(r.x1 + r.x2), half(r.y1 + r.y2))
}

/// The two rooms, each grown by `gap` cells, overlap.
pub open spec fn overlap_with_gap(a: Room, b: Room, gap: int) -> bool {
    &&& a.x1 <= b.x2 + gap
    &&& a.x2 >= b.x1 - gap
    &&& a.y1 <= b.y2 + gap
    &&& a.y2 >= b.y1 - gap
}

/// The door that `r` gets towards `target` when the random value is `v`:
/// on the wall facing the target along the axis where it lies further away.
pub open spec fn door_towards(r: Room, target: Room, v: u32) -> DoorEndpoint {
    let (sx, sy) = center_of(r);
    let (tx, ty) = center_of(target);
    let dx = tx - sx;
    let dy = ty - sy;
    if abs_i(dx) >= abs_i(dy) {
        let y = range_pick(v, r.y1 + 1, r.y2 as int) as i32;
        if dx >= 0 {
            DoorEndpoint { wall_x: r.x2, wall_y: y, out_dx: 1, out_dy: 0 }
        } else {
            DoorEndpoint { wall_x: r.x1, wall_y: y, out_dx: -1i32, out_dy: 0 }
        }
    } else {
        let x = range_pick(v, r.x1 + 1, r.x2 as int) as i32;
        if dy >= 0 {
            DoorEndpoint { wall_x: x, wall_y: r.y2, out_dx: 0, out_dy: 1 }
        } else {
            DoorEndpoint { wall_x: x, wall_y: r.y1, out_dx: 0, out_dy: -1i32 }
        }
    }
}

pub open spec fn abs_i(v: int) -> int {
    if v < 0 {
        -v
    } else {
        v
    }
}

/// Manhattan distance between the centres of two rooms.
pub open spec fn center_distance(a: Room, b: Room) -> int {
    abs_i(center_of(a).0 - center_of(b).0) + abs_i(center_of(a).1 - center_of(b).1)
}

/// Absolute value (`i32::abs`).
pub fn abs_i32(v: i32) -> (r: i32)
    requires
        v > i32::MIN,
    ensures
        r == abs_i(v as int),
{
    if v < 0 {
        -v
    } else {
        v
    }
}

impl Room {
    /// The room whose top-left wall corner is `(x, y)` and which spans `w`
    /// by `h` cells to its far walls.
    pub fn new(x: i32, y: i32, w: i32, h: i32) -> (r: Self)
        requires
            i32::MIN <= x + w <= i32::MAX,
            i32::MIN <= y + h <= i32::MAX,
        ensures
            r.x1 == x,
            r.y1 == y,
            r.x2 == x + w,
            r.y2 == y + h,
    {
        Self { x1: x, y1: y, x2: x + w, y2: y + h }
    }

    pub fn center(&self) -> (c: (i32, i32))
        requires
            room_small(*self),
        ensures
            (c.0 as int, c.1 as int) == center_of(*self),
    {
        ((self.x1 + self.x2) / 2, (self.y1 + self.y2) / 2)
    }

    /// Whether the two rooms come closer than `gap` cells to each other.
    pub fn intersects_with_gap(&self, other: &Room, gap: i32) -> (b: bool)
        requires
            room_small(*self),
            room_small(*other),
            small(gap as int),
        ensures
            b == overlap_with_gap(*self, *other, gap as int),
    {
        self.x1 <= (other.x2 + gap) && self.x2 >= (other.x1 - gap) && self.y1 <= (other.y2 + gap)
            && self.y2 >= (other.y1 - gap)
    }

    /// Picks a random door of this room on the wall that faces `target`.
    pub fn random_door_towards(&self, target: &Room, rng: &mut DungeonRng) -> (d: DoorEndpoint)
        requires
            room_small(*self),
            room_small(*target),
            door_span_ok(*self, *target),
        ensures
            d == door_towards(*self, *target, next_draw(old(rng)@)),
            final(rng)@ == advanced(old(rng)@, 1),
    {
        let v = rng.next_u32();
        door_for(self, target, v)
    }
}

/// The wall of `r` that faces `target` has a cell between its corners for
/// a door: along the axis on which the target lies further away, the room
/// spans at least two cells.
pub open spec fn door_span_ok(r: Room, target: Room) -> bool {
    let (sx, sy) = center_of(r);
    let (tx, ty) = center_of(target);
    if abs_i(tx - sx) >= abs_i(ty - sy) {
        r.y1 + 1 < r.y2
    } else {
        r.x1 + 1 < r.x2
    }
}

/// The door of `r` towards `target` that the random value `v` selects.
pub fn door_for(r: &Room, target: &Room, v: u32) -> (d: DoorEndpoint)
    requires
        room_small(*r),
        room_small(*target),
        door_span_ok(*r, *target),
    ensures
        d == door_towards(*r, *target, v),
{
    let (sx, sy) = r.center();
    let (tx, ty) = target.center();
    let dx = tx - sx;
    let dy = ty - sy;

    if abs_i32(dx) >= abs_i32(dy) {
        let y = range_from_u32(v, r.y1 + 1, r.y2);
        if dx >= 0 {
            DoorEndpoint { wall_x: r.x2, wall_y: y, out_dx: 1, out_dy: 0 }
        } else {
            DoorEndpoint { wall_x: r.x1, wall_y: y, out_dx: -1i32, out_dy: 0 }
        }
    } else {
        let x = range_from_u32(v, r.x1 + 1, r.x2);
        if dy >= 0 {
            DoorEndpoint { wall_x: x, wall_y: r.y2, out_dx: 0, out_dy: 1 }
        } else {
            DoorEndpoint { wall_x: x, wall_y: r.y1, out_dx: 0, out_dy: -1i32 }
        }
    }
}

/// Manhattan distance between the centres of two rooms.
pub fn room_center_distance(a: &Room, b: &Room) -> (d: i32)
    requires
        room_small(*a),
        room_small(*b),
    ensures
        d == center_distance(*a, *b),
{
    let (ax, ay) = a.center();
    let (bx, by) = b.center();
    abs_i32(ax - bx) + abs_i32(ay - by)
}

/// The grid `t` with the floor of `room` made room tiles, cells on the map
/// border excepted.
pub open spec fn room_grid(t: Seq<u8>, room: Room) -> Seq<u8> {
    Seq::new(
        t.len(),
        |i: int|
            if in_room(room, i % (W as int), i / (W as int)) && in_interior(
                i % (W as int),
                i / (W as int),
            ) {
                TILE_ROOM
            } else {
                t[i]
            },
    )
}

/// Makes the floor of `room` room tiles (cells on the map border excepted).
pub fn carve_room(tiles: &mut Vec<u8>, room: &Room)
    requires
        grid_ok(old(tiles)@),
        room.x1 < i32::MAX,
        room.y1 < i32::MAX,
    ensures
        final(tiles)@ == room_grid(old(tiles)@, *room),
        grid_ok(final(tiles)@),
        forall|x: int, y: int|
            in_grid(x, y) ==> #[trigger] tile_at(final(tiles)@, x, y) == (if in_room(*room, x, y)
                && in_interior(x, y) {
                TILE_ROOM
            } else {
                tile_at(old(tiles)@, x, y)
            }),
{
    let ghost orig = tiles@;
    let x1 = room.x1;
    let y1 = room.y1;
    let x2 = room.x2;
    let y2 = room.y2;
    let mut y = y1 + 1;
    while y < y2
        invariant
            y1 < y,
            y <= y2 || y == y1 + 1,
            x1 < i32::MAX,
            x1 == room.x1,
            y1 == room.y1,
            x2 == room.x2,
            y2 == room.y2,
            grid_ok(tiles@),
            forall|a: int, b: int|
                in_grid(a, b) ==> #[trigger] tile_at(tiles@, a, b) == (if inside_walls(
                    x1 as int,
                    y1 as int,
                    x2 as int,
                    y as int,
                    a,
                    b,
                ) && in_interior(a, b) {
                    TILE_ROOM
                } else {
                    tile_at(orig, a, b)
                }),
        decreases y2 - y,
    {
        let mut x = x1 + 1;
        while x < x2
            invariant
                y1 < y < y2,
                x1 < x,
                x <= x2 || x == x1 + 1,
                grid_ok(tiles@),
                forall|a: int, b: int|
                    in_grid(a, b) ==> #[trigger] tile_at(tiles@, a, b) == (if (inside_walls(
                        x1 as int,
                        y1 as int,
                        x2 as int,
                        y as int,
                        a,
                        b,
                    ) || (b == y && x1 < a < x)) && in_interior(a, b) {
                        TILE_ROOM
                    } else {
                        tile_at(orig, a, b)
                    }),
            decreases x2 - x,
        {
            let ghost before = tiles@;
            set_room_floor(tiles, x, y);
            assert forall|a: int, b: int| in_grid(a, b) implies #[trigger] tile_at(tiles@, a, b) == (
            if (inside_walls(x1 as int, y1 as int, x2 as int, y as int, a, b) || (b == y && x1 < a
                < x + 1)) && in_interior(a, b) {
                TILE_ROOM
            } else {
                tile_at(orig, a, b)
            }) by {
                assert(tile_at(before, a, b) == (if (inside_walls(
                    x1 as int,
                    y1 as int,
                    x2 as int,
                    y as int,
                    a,
                    b,
                ) || (b == y && x1 < a < x)) && in_interior(a, b) {
                    TILE_ROOM
                } else {
                    tile_at(orig, a, b)
                }));
                if in_interior(x as int, y as int) {
                    lemma_cell(a, b, x as int, y as int);
                }
            }
            x = x + 1;
        }
        y = y + 1;
    }
    assert forall|i: int| 0 <= i < tiles@.len() implies tiles@[i] == #[trigger] room_grid(
        orig,
        *room,
    )[i] by {
        lemma_index_cell(i);
        assert(tile_at(tiles@, i % (W as int), i / (W as int)) == tiles@[i]);
    }
    assert(tiles@ =~= room_grid(orig, *room));
}

} // verus!
