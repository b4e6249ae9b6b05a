//! NetHack-like dungeon layout: up to nine rooms on a three-by-three grid,
//! linked by corridors.
use vstd::prelude::*;
use crate::links::{GRID_W, GRID_H, plan_room_links, planned_links, all_joined, joined, links_in_range};
use crate::rng::{DungeonRng, next_draw, advanced};
use crate::room::{
    Room,
    DoorEndpoint,
    room_ok,
    room_small,
    in_room,
    overlap_with_gap,
    door_towards,
    carve_room,
    room_grid,
};
use crate::rng::{rand_range_i32, range_pick};
use crate::tiles::{
    W,
    H,
    TILE_ROCK,
    TILE_WALL,
    TILE_ROOM,
    TILE_CORRIDOR,
    TILE_DOOR,
    grid_ok,
    in_grid,
    in_interior,
    tile_at,
    floors_kept,
    put_if,
    lemma_cell,
    lemma_index_cell,
    on_h_run,
    on_v_run,
    set_door_tile,
    set_corridor_floor,
    carve_h_tunnel,
    carve_v_tunnel,
    corridor_tile,
};

verus! {

/// Smallest distance between a room's walls along x.
pub const MIN_ROOM_W: i32 = 4;

/// Smallest distance between a room's walls along y.
pub const MIN_ROOM_H: i32 = 3;

/// A tile after a door is put at `(a, b)` when `here` holds.
pub open spec fn door_put(v: u8, here: bool) -> u8 {
    if here && (v == TILE_ROCK || v == TILE_WALL) {
        TILE_DOOR
    } else {
        v
    }
}

/// A tile after corridor is dug at `(a, b)` when `here` holds.
pub open spec fn corridor_put(v: u8, here: bool) -> u8 {
    if here && v == TILE_ROCK {
        TILE_CORRIDOR
    } else {
        v
    }
}

/// The tile at `(a, b)`, formerly `v`, after the doors `da` and `db` and the
/// two cells straight out of each were carved.
#[verifier::opaque]
pub open spec fn link_ends_tile(v: u8, a: int, b: int, da: DoorEndpoint, db: DoorEndpoint) -> u8 {
    let inner = in_interior(a, b);
    let ax1 = da.wall_x + da.out_dx;
    let ay1 = da.wall_y + da.out_dy;
    let bx1 = db.wall_x + db.out_dx;
    let by1 = db.wall_y + db.out_dy;
    let ax2 = da.wall_x + 2 * da.out_dx;
    let ay2 = da.wall_y + 2 * da.out_dy;
    let bx2 = db.wall_x + 2 * db.out_dx;
    let by2 = db.wall_y + 2 * db.out_dy;
    let v1 = door_put(v, inner && a == da.wall_x && b == da.wall_y);
    let v2 = door_put(v1, inner && a == db.wall_x && b == db.wall_y);
    let v3 = corridor_put(v2, inner && a == ax1 && b == ay1);
    let v4 = corridor_put(v3, inner && a == bx1 && b == by1);
    let v5 = corridor_put(v4, inner && a == ax2 && b == ay2);
    corridor_put(v5, inner && a == bx2 && b == by2)
}

/// The tile at `(a, b)`, formerly `v`, after a corridor link between the
/// doors `da` and `db` was carved: both doors, two cells straight out of
/// each door, then an L-shaped run between the far cells, horizontal first
/// when `horizontal_first`, vertical first otherwise. Nothing changes on the
/// border of the map.
#[verifier::opaque]
pub open spec fn link_tile(
    v: u8,
    a: int,
    b: int,
    da: DoorEndpoint,
    db: DoorEndpoint,
    horizontal_first: bool,
) -> u8 {
    let inner = in_interior(a, b);
    let ax2 = da.wall_x + 2 * da.out_dx;
    let ay2 = da.wall_y + 2 * da.out_dy;
    let bx2 = db.wall_x + 2 * db.out_dx;
    let by2 = db.wall_y + 2 * db.out_dy;
    let v6 = link_ends_tile(v, a, b, da, db);
    if horizontal_first {
        let v7 = corridor_put(v6, inner && on_h_run(ax2, bx2, ay2, a, b));
        corridor_put(v7, inner && on_v_run(ay2, by2, bx2, a, b))
    } else {
        let v7 = corridor_put(v6, inner && on_v_run(ay2, by2, ax2, a, b));
        corridor_put(v7, inner && on_h_run(ax2, bx2, by2, a, b))
    }
}

/// Room floor is never touched by carving a link.
pub proof fn lemma_link_tile_keeps_floor(
    a: int,
    b: int,
    da: DoorEndpoint,
    db: DoorEndpoint,
    horizontal_first: bool,
)
    ensures
        link_tile(TILE_ROOM, a, b, da, db, horizontal_first) == TILE_ROOM,
{
    reveal(link_tile);
    reveal(link_ends_tile);
}

/// The whole grid `t` after a corridor link between rooms `a` and `b`,
/// with the doors and the turn taken from the draws of `r`.
pub open spec fn link_grid(t: Seq<u8>, a: Room, b: Room, r: (u64, nat)) -> Seq<u8> {
    Seq::new(
        t.len(),
        |i: int|
            link_tile(
                t[i],
                i % (W as int),
                i / (W as int),
                door_towards(a, b, next_draw(r)),
                door_towards(b, a, next_draw(advanced(r, 1))),
                next_draw(advanced(r, 2)) & 1 == 0,
            ),
    )
}

/// The grid after the links `links[0..k]` were carved one after the other,
/// each taking three draws; with the generator after.
pub open spec fn carved_links(
    t: Seq<u8>,
    rooms: Seq<Room>,
    links: Seq<(usize, usize)>,
    r: (u64, nat),
    k: nat,
) -> (Seq<u8>, (u64, nat))
    decreases k,
{
    if k == 0 {
        (t, r)
    } else {
        let before = carved_links(t, rooms, links, r, (k - 1) as nat);
        let e = links[k - 1];
        (link_grid(before.0, rooms[e.0 as int], rooms[e.1 as int], before.1), advanced(before.1, 3))
    }
}

/// The grid after the rooms were linked as `connect_room_grid` links them;
/// with the generator after.
pub open spec fn connected_grid(
    t: Seq<u8>,
    rooms: Seq<Room>,
    slots: Seq<Option<usize>>,
    r: (u64, nat),
) -> (Seq<u8>, (u64, nat)) {
    let plan = planned_links(rooms, slots, r);
    carved_links(t, rooms, plan.0, plan.1, plan.0.len())
}

/// A grid given cell by cell by `link_tile` is `link_grid`.
proof fn lemma_link_grid(t: Seq<u8>, t2: Seq<u8>, a: Room, b: Room, r: (u64, nat))
    requires
        grid_ok(t),
        grid_ok(t2),
        forall|x: int, y: int|
            in_grid(x, y) ==> #[trigger] tile_at(t2, x, y) == link_tile(
                tile_at(t, x, y),
                x,
                y,
                door_towards(a, b, next_draw(r)),
                door_towards(b, a, next_draw(advanced(r, 1))),
                next_draw(advanced(r, 2)) & 1 == 0,
            ),
    ensures
        t2 == link_grid(t, a, b, r),
{
    assert forall|i: int| 0 <= i < t2.len() implies t2[i] == #[trigger] link_grid(t, a, b, r)[i] by {
        lemma_index_cell(i);
        assert(tile_at(t2, i % (W as int), i / (W as int)) == t2[i]);
    }
    assert(t2 =~= link_grid(t, a, b, r));
}

proof fn lemma_put_cell(t: Seq<u8>, x: int, y: int, value: u8, replace: bool, a: int, b: int)
    requires
        grid_ok(t),
        in_grid(a, b),
    ensures
        tile_at(put_if(t, x, y, value, replace), a, b) == (if in_interior(x, y) && replace && a == x
            && b == y {
            value
        } else {
            tile_at(t, a, b)
        }),
{
    if in_interior(x, y) {
        lemma_cell(a, b, x, y);
    }
}

/// A room that corridors can leave from: small coordinates, and at least
/// one cell between its walls along each axis for a door.
pub open spec fn room_linkable(r: Room) -> bool {
    &&& room_small(r)
    &&& r.x1 + 1 < r.x2
    &&& r.y1 + 1 < r.y2
}

/// Cuts doors into rooms `a` and `b` on their facing walls and digs a
/// corridor between them.
#[verifier::spinoff_prover]
#[verifier::rlimit(80)]
pub fn carve_room_link(tiles: &mut Vec<u8>, a: &Room, b: &Room, rng: &mut DungeonRng)
    requires
        grid_ok(old(tiles)@),
        room_linkable(*a),
        room_linkable(*b),
    ensures
        grid_ok(final(tiles)@),
        forall|x: int, y: int|
            in_grid(x, y) ==> #[trigger] tile_at(final(tiles)@, x, y) == link_tile(
                tile_at(old(tiles)@, x, y),
                x,
                y,
                door_towards(*a, *b, next_draw(old(rng)@)),
                door_towards(*b, *a, next_draw(advanced(old(rng)@, 1))),
                next_draw(advanced(old(rng)@, 2)) & 1 == 0,
            ),
        final(tiles)@ == link_grid(old(tiles)@, *a, *b, old(rng)@),
        final(rng)@ == advanced(old(rng)@, 3),
{
    let ghost t0 = tiles@;
    let ghost r0 = rng@;
    let a_door = a.random_door_towards(b, rng);
    let b_door = b.random_door_towards(a, rng);

    set_door_tile(tiles, a_door.wall_x, a_door.wall_y);
    let ghost t1 = tiles@;
    set_door_tile(tiles, b_door.wall_x, b_door.wall_y);
    let ghost t2 = tiles@;

    // Corridor starts just outside each room wall, then moves outward
    // before turning.
    let mut x1 = a_door.wall_x + a_door.out_dx;
    let mut y1 = a_door.wall_y + a_door.out_dy;
    let mut x2 = b_door.wall_x + b_door.out_dx;
    let mut y2 = b_door.wall_y + b_door.out_dy;

    set_corridor_floor(tiles, x1, y1);
    let ghost t3 = tiles@;
    set_corridor_floor(tiles, x2, y2);
    let ghost t4 = tiles@;

    x1 = x1 + a_door.out_dx;
    y1 = y1 + a_door.out_dy;
    x2 = x2 + b_door.out_dx;
    y2 = y2 + b_door.out_dy;

    set_corridor_floor(tiles, x1, y1);
    let ghost t5 = tiles@;
    set_corridor_floor(tiles, x2, y2);
    let ghost t6 = tiles@;

    proof {
        lemma_link_ends(t0, t1, t2, t3, t4, t5, t6, a_door, b_door);
    }
    let pick = rng.next_u32();
    if (pick & 1) == 0 {
        carve_h_tunnel(tiles, x1, x2, y1);
        let ghost t7 = tiles@;
        carve_v_tunnel(tiles, y1, y2, x2);
        proof {
            lemma_link_runs(t0, t6, t7, tiles@, a_door, b_door, true);
            lemma_link_grid(t0, tiles@, *a, *b, r0);
        }
    } else {
        carve_v_tunnel(tiles, y1, y2, x1);
        let ghost t7 = tiles@;
        carve_h_tunnel(tiles, x1, x2, y2);
        proof {
            lemma_link_runs(t0, t6, t7, tiles@, a_door, b_door, false);
            lemma_link_grid(t0, tiles@, *a, *b, r0);
        }
    }
}

/// The two corridor runs of a link, cell by cell.
proof fn lemma_link_runs(
    t0: Seq<u8>,
    t6: Seq<u8>,
    t7: Seq<u8>,
    t8: Seq<u8>,
    da: DoorEndpoint,
    db: DoorEndpoint,
    horizontal_first: bool,
)
    requires
        grid_ok(t6),
        forall|x: int, y: int| in_grid(x, y) ==> #[trigger] tile_at(t6, x, y) == link_ends_tile(tile_at(t0, x, y), x, y, da, db),
        horizontal_first ==> forall|x: int, y: int| in_grid(x, y) ==> #[trigger] tile_at(t7, x, y) == corridor_tile(t6, on_h_run(da.wall_x + 2 * da.out_dx, db.wall_x + 2 * db.out_dx, da.wall_y + 2 * da.out_dy, x, y), x, y),
        horizontal_first ==> forall|x: int, y: int| in_grid(x, y) ==> #[trigger] tile_at(t8, x, y) == corridor_tile(t7, on_v_run(da.wall_y + 2 * da.out_dy, db.wall_y + 2 * db.out_dy, db.wall_x + 2 * db.out_dx, x, y), x, y),
        !horizontal_first ==> forall|x: int, y: int| in_grid(x, y) ==> #[trigger] tile_at(t7, x, y) == corridor_tile(t6, on_v_run(da.wall_y + 2 * da.out_dy, db.wall_y + 2 * db.out_dy, da.wall_x + 2 * da.out_dx, x, y), x, y),
        !horizontal_first ==> forall|x: int, y: int| in_grid(x, y) ==> #[trigger] tile_at(t8, x, y) == corridor_tile(t7, on_h_run(da.wall_x + 2 * da.out_dx, db.wall_x + 2 * db.out_dx, db.wall_y + 2 * db.out_dy, x, y), x, y),
    ensures
        forall|x: int, y: int| in_grid(x, y) ==> #[trigger] tile_at(t8, x, y) == link_tile(tile_at(t0, x, y), x, y, da, db, horizontal_first),
{
    reveal(link_tile);
    assert forall|x: int, y: int| in_grid(x, y) implies #[trigger] tile_at(t8, x, y) == link_tile(tile_at(t0, x, y), x, y, da, db, horizontal_first) by {
        assert(tile_at(t6, x, y) == link_ends_tile(tile_at(t0, x, y), x, y, da, db));
    }
}

/// The six single-cell edits at the ends of a link, cell by cell.
#[verifier::spinoff_prover]
#[verifier::rlimit(40)]
proof fn lemma_link_ends(
    t0: Seq<u8>,
    t1: Seq<u8>,
    t2: Seq<u8>,
    t3: Seq<u8>,
    t4: Seq<u8>,
    t5: Seq<u8>,
    t6: Seq<u8>,
    da: DoorEndpoint,
    db: DoorEndpoint,
)
    requires
        grid_ok(t0),
        t1 == put_if(t0, da.wall_x as int, da.wall_y as int, TILE_DOOR, in_interior(da.wall_x as int, da.wall_y as int) && (tile_at(t0, da.wall_x as int, da.wall_y as int) == TILE_ROCK || tile_at(t0, da.wall_x as int, da.wall_y as int) == TILE_WALL)),
        t2 == put_if(t1, db.wall_x as int, db.wall_y as int, TILE_DOOR, in_interior(db.wall_x as int, db.wall_y as int) && (tile_at(t1, db.wall_x as int, db.wall_y as int) == TILE_ROCK || tile_at(t1, db.wall_x as int, db.wall_y as int) == TILE_WALL)),
        t3 == put_if(t2, da.wall_x + da.out_dx, da.wall_y + da.out_dy, TILE_CORRIDOR, in_interior(da.wall_x + da.out_dx, da.wall_y + da.out_dy) && tile_at(t2, da.wall_x + da.out_dx, da.wall_y + da.out_dy) == TILE_ROCK),
        t4 == put_if(t3, db.wall_x + db.out_dx, db.wall_y + db.out_dy, TILE_CORRIDOR, in_interior(db.wall_x + db.out_dx, db.wall_y + db.out_dy) && tile_at(t3, db.wall_x + db.out_dx, db.wall_y + db.out_dy) == TILE_ROCK),
        t5 == put_if(t4, da.wall_x + 2 * da.out_dx, da.wall_y + 2 * da.out_dy, TILE_CORRIDOR, in_interior(da.wall_x + 2 * da.out_dx, da.wall_y + 2 * da.out_dy) && tile_at(t4, da.wall_x + 2 * da.out_dx, da.wall_y + 2 * da.out_dy) == TILE_ROCK),
        t6 == put_if(t5, db.wall_x + 2 * db.out_dx, db.wall_y + 2 * db.out_dy, TILE_CORRIDOR, in_interior(db.wall_x + 2 * db.out_dx, db.wall_y + 2 * db.out_dy) && tile_at(t5, db.wall_x + 2 * db.out_dx, db.wall_y + 2 * db.out_dy) == TILE_ROCK),
    ensures
        grid_ok(t6),
        forall|x: int, y: int| in_grid(x, y) ==> #[trigger] tile_at(t6, x, y) == link_ends_tile(tile_at(t0, x, y), x, y, da, db),
{
    lemma_door_step(t0, t1, da.wall_x as int, da.wall_y as int);
    lemma_door_step(t1, t2, db.wall_x as int, db.wall_y as int);
    lemma_corridor_step(t2, t3, da.wall_x + da.out_dx, da.wall_y + da.out_dy);
    lemma_corridor_step(t3, t4, db.wall_x + db.out_dx, db.wall_y + db.out_dy);
    lemma_corridor_step(t4, t5, da.wall_x + 2 * da.out_dx, da.wall_y + 2 * da.out_dy);
    lemma_corridor_step(t5, t6, db.wall_x + 2 * db.out_dx, db.wall_y + 2 * db.out_dy);
    assert forall|x: int, y: int| in_grid(x, y) implies #[trigger] tile_at(t6, x, y) == link_ends_tile(tile_at(t0, x, y), x, y, da, db) by {
        reveal(link_ends_tile);
        assert(tile_at(t1, x, y) == door_put(tile_at(t0, x, y), in_interior(x, y) && x == da.wall_x && y == da.wall_y));
        assert(tile_at(t2, x, y) == door_put(tile_at(t1, x, y), in_interior(x, y) && x == db.wall_x && y == db.wall_y));
        assert(tile_at(t3, x, y) == corridor_put(tile_at(t2, x, y), in_interior(x, y) && x == da.wall_x + da.out_dx && y == da.wall_y + da.out_dy));
        assert(tile_at(t4, x, y) == corridor_put(tile_at(t3, x, y), in_interior(x, y) && x == db.wall_x + db.out_dx && y == db.wall_y + db.out_dy));
        assert(tile_at(t5, x, y) == corridor_put(tile_at(t4, x, y), in_interior(x, y) && x == da.wall_x + 2 * da.out_dx && y == da.wall_y + 2 * da.out_dy));
        assert(tile_at(t6, x, y) == corridor_put(tile_at(t5, x, y), in_interior(x, y) && x == db.wall_x + 2 * db.out_dx && y == db.wall_y + 2 * db.out_dy));
    }
}

proof fn lemma_door_step(t: Seq<u8>, t2: Seq<u8>, x0: int, y0: int)
    requires
        grid_ok(t),
        t2 == put_if(t, x0, y0, TILE_DOOR, in_interior(x0, y0) && (tile_at(t, x0, y0) == TILE_ROCK || tile_at(t, x0, y0) == TILE_WALL)),
    ensures
        grid_ok(t2),
        forall|x: int, y: int| in_grid(x, y) ==> #[trigger] tile_at(t2, x, y) == door_put(tile_at(t, x, y), in_interior(x, y) && x == x0 && y == y0),
{
    assert forall|x: int, y: int| in_grid(x, y) implies #[trigger] tile_at(t2, x, y) == door_put(tile_at(t, x, y), in_interior(x, y) && x == x0 && y == y0) by {
        lemma_put_cell(t, x0, y0, TILE_DOOR, in_interior(x0, y0) && (tile_at(t, x0, y0) == TILE_ROCK || tile_at(t, x0, y0) == TILE_WALL), x, y);
    }
}

proof fn lemma_corridor_step(t: Seq<u8>, t2: Seq<u8>, x0: int, y0: int)
    requires
        grid_ok(t),
        t2 == put_if(t, x0, y0, TILE_CORRIDOR, in_interior(x0, y0) && tile_at(t, x0, y0) == TILE_ROCK),
    ensures
        grid_ok(t2),
        forall|x: int, y: int| in_grid(x, y) ==> #[trigger] tile_at(t2, x, y) == corridor_put(tile_at(t, x, y), in_interior(x, y) && x == x0 && y == y0),
{
    assert forall|x: int, y: int| in_grid(x, y) implies #[trigger] tile_at(t2, x, y) == corridor_put(tile_at(t, x, y), in_interior(x, y) && x == x0 && y == y0) by {
        lemma_put_cell(t, x0, y0, TILE_CORRIDOR, in_interior(x0, y0) && tile_at(t, x0, y0) == TILE_ROCK, x, y);
    }
}

/// Corridors that link the rooms: every room can be reached from every
/// other through them (see `plan_room_links`).
pub fn connect_room_grid(
    tiles: &mut Vec<u8>,
    rooms: &Vec<Room>,
    grid_slots: &Vec<Option<usize>>,
    rng: &mut DungeonRng,
)
    requires
        grid_ok(old(tiles)@),
        forall|k: int| 0 <= k < rooms@.len() ==> room_linkable(#[trigger] rooms@[k]),
        grid_slots@.len() == GRID_W * GRID_H,
        forall|k: int|
            0 <= k < grid_slots@.len() ==> (#[trigger] grid_slots@[k] matches Some(i) ==> i
                < rooms@.len()),
    ensures
        (final(tiles)@, final(rng)@) == connected_grid(old(tiles)@, rooms@, grid_slots@, old(rng)@),
        all_joined(planned_links(rooms@, grid_slots@, old(rng)@).0, rooms@.len() as int),
        grid_ok(final(tiles)@),
        floors_kept(old(tiles)@, final(tiles)@),
        final(rng)@.0 == old(rng)@.0,
{
    let used = plan_room_links(rooms, grid_slots, rng);
    let ghost t0 = tiles@;
    let ghost r_plan = rng@;
    let mut k: usize = 0;
    while k < used.len()
        invariant
            k <= used@.len(),
            links_in_range(used@, rooms@.len() as int),
            forall|r: int| 0 <= r < rooms@.len() ==> room_linkable(#[trigger] rooms@[r]),
            grid_ok(tiles@),
            grid_ok(t0),
            floors_kept(t0, tiles@),
            (tiles@, rng@) == carved_links(t0, rooms@, used@, r_plan, k as nat),
            rng@.0 == old(rng)@.0,
        decreases used@.len() - k,
    {
        let (a, b) = used[k];
        assert(used@[k as int].0 < rooms@.len() && used@[k as int].1 < rooms@.len());
        let ghost before = tiles@;
        let ghost r0 = rng@;
        carve_room_link(tiles, &rooms[a], &rooms[b], rng);
        assert forall|x: int, y: int|
            in_grid(x, y) && tile_at(t0, x, y) == TILE_ROOM implies #[trigger] tile_at(tiles@, x, y)
            == TILE_ROOM by {
            assert(tile_at(before, x, y) == TILE_ROOM);
            lemma_link_tile_keeps_floor(
                x,
                y,
                door_towards(rooms@[a as int], rooms@[b as int], next_draw(r0)),
                door_towards(rooms@[b as int], rooms@[a as int], next_draw(advanced(r0, 1))),
                next_draw(advanced(r0, 2)) & 1 == 0,
            );
        }
        k = k + 1;
    }
}

/// Whether `room` comes within one cell of any room in `rooms`.
pub fn overlaps_any(rooms: &Vec<Room>, room: &Room) -> (found: bool)
    requires
        room_small(*room),
        forall|k: int| 0 <= k < rooms@.len() ==> room_small(#[trigger] rooms@[k]),
    ensures
        found == exists|k: int| 0 <= k < rooms@.len() && overlap_with_gap(*room, #[trigger] rooms@[k], 1),
{
    let mut k: usize = 0;
    while k < rooms.len()
        invariant
            k <= rooms@.len(),
            room_small(*room),
            forall|j: int| 0 <= j < rooms@.len() ==> room_small(#[trigger] rooms@[j]),
            forall|j: int| 0 <= j < k ==> !overlap_with_gap(*room, #[trigger] rooms@[j], 1),
        decreases rooms@.len() - k,
    {
        if room.intersects_with_gap(&rooms[k], 1) {
            return true;
        }
        k = k + 1;
    }
    false
}

/// A room's walls start at column and row 1 or later, and it spans at
/// least `MIN_ROOM_W` by `MIN_ROOM_H` cells between its walls.
pub open spec fn room_sized(r: Room) -> bool {
    &&& 1 <= r.x1
    &&& 1 <= r.y1
    &&& r.x1 + MIN_ROOM_W <= r.x2
    &&& r.y1 + MIN_ROOM_H <= r.y2
}

/// No two rooms come within one cell of each other.
pub open spec fn rooms_apart(rooms: Seq<Room>) -> bool {
    forall|i: int, j: int|
        0 <= i < rooms.len() && 0 <= j < rooms.len() && i != j ==> !overlap_with_gap(
            #[trigger] rooms[i],
            #[trigger] rooms[j],
            1,
        )
}

/// Every room's floor consists of room tiles.
pub open spec fn floors_laid(t: Seq<u8>, rooms: Seq<Room>) -> bool {
    forall|k: int, x: int, y: int|
        0 <= k < rooms.len() && in_grid(x, y) && in_room(#[trigger] rooms[k], x, y) ==> #[trigger] tile_at(
            t,
            x,
            y,
        ) == TILE_ROOM
}

/// Room floors survive edits that keep floors.
pub proof fn lemma_floors_laid_kept(t: Seq<u8>, t2: Seq<u8>, rooms: Seq<Room>)
    requires
        floors_laid(t, rooms),
        floors_kept(t, t2),
    ensures
        floors_laid(t2, rooms),
{
    assert forall|k: int, x: int, y: int|
        0 <= k < rooms.len() && in_grid(x, y) && in_room(#[trigger] rooms[k], x, y) implies #[trigger] tile_at(
        t2,
        x,
        y,
    ) == TILE_ROOM by {
        assert(tile_at(t, x, y) == TILE_ROOM);
    }
}

/// The far corner of the region of grid slot `(gx, gy)` that a room's walls
/// may take, and its near corner; rooms of the last column and row may
/// reach one cell further.
pub open spec fn slot_region(gx: int, gy: int) -> (int, int, int, int) {
    let cell_w = (W / GRID_W) as int;
    let cell_h = (H / GRID_H) as int;
    let x0 = gx * cell_w + 1;
    let y0 = gy * cell_h + 1;
    let x1 = if gx == GRID_W - 1 {
        W as int - 2
    } else {
        (gx + 1) * cell_w - 2
    };
    let y1 = if gy == GRID_H - 1 {
        H as int - 2
    } else {
        (gy + 1) * cell_h - 2
    };
    (x0, y0, x1, y1)
}

/// The room that slot `s` proposes from the draws after `r`: width, height,
/// column and row, each drawn in turn within the slot's region.
pub open spec fn slot_room(s: int, r: (u64, nat)) -> Room {
    let (x0, y0, x1, y1) = slot_region(s % (GRID_W as int), s / (GRID_W as int));
    let max_w = if x1 - x0 - 1 > MIN_ROOM_W {
        x1 - x0 - 1
    } else {
        MIN_ROOM_W as int
    };
    let max_h = if y1 - y0 - 1 > MIN_ROOM_H {
        y1 - y0 - 1
    } else {
        MIN_ROOM_H as int
    };
    let w = range_pick(next_draw(advanced(r, 1)), MIN_ROOM_W as int, max_w + 1);
    let h = range_pick(next_draw(advanced(r, 2)), MIN_ROOM_H as int, max_h + 1);
    let x = range_pick(next_draw(advanced(r, 3)), x0, x1 - w + 2);
    let y = range_pick(next_draw(advanced(r, 4)), y0, y1 - h + 2);
    Room { x1: x as i32, y1: y as i32, x2: (x + w) as i32, y2: (y + h) as i32 }
}

/// Rooms, grid slots, grid and generator after the first `k` slots of the
/// room grid had their turn: a slot stays empty when its first draw is below
/// 28 in 100, or when its room comes within one cell of an earlier room;
/// otherwise its room is carved and recorded.
pub open spec fn laid_out(t: Seq<u8>, r: (u64, nat), k: nat) -> (
    Seq<Room>,
    Seq<Option<usize>>,
    Seq<u8>,
    (u64, nat),
)
    decreases k,
{
    if k == 0 {
        (Seq::empty(), Seq::new((GRID_W * GRID_H) as nat, |i: int| None::<usize>), t, r)
    } else {
        let (rooms, slots, t1, r1) = laid_out(t, r, (k - 1) as nat);
        if next_draw(r1) % 100 < 28 {
            (rooms, slots, t1, advanced(r1, 1))
        } else {
            let room = slot_room(k - 1, r1);
            if exists|j: int| 0 <= j < rooms.len() && overlap_with_gap(room, #[trigger] rooms[j], 1) {
                (rooms, slots, t1, advanced(r1, 5))
            } else {
                (
                    rooms.push(room),
                    slots.update(k - 1, Some(rooms.len() as usize)),
                    room_grid(t1, room),
                    advanced(r1, 5),
                )
            }
        }
    }
}

/// The room carved when no slot received one.
pub open spec fn fallback_room() -> Room {
    Room { x1: 26, y1: 12, x2: 34, y2: 18 }
}

/// The links between rooms along which `generate_nethackish_rooms` on grid
/// `t` with generator `r` digs corridors.
pub open spec fn generated_links(t: Seq<u8>, r: (u64, nat)) -> Seq<(usize, usize)> {
    let (rooms, slots, t1, r1) = laid_out(t, r, (GRID_W * GRID_H) as nat);
    if rooms.len() == 0 {
        Seq::empty()
    } else {
        planned_links(rooms, slots, r1).0
    }
}

/// Rooms, grid and generator after `generate_nethackish_rooms` on grid `t`
/// with generator `r`.
pub open spec fn generated(t: Seq<u8>, r: (u64, nat)) -> (Seq<Room>, Seq<u8>, (u64, nat)) {
    let (rooms, slots, t1, r1) = laid_out(t, r, (GRID_W * GRID_H) as nat);
    if rooms.len() == 0 {
        (seq![fallback_room()], room_grid(t1, fallback_room()), r1)
    } else {
        let (t2, r2) = connected_grid(t1, rooms, slots, r1);
        (rooms, t2, r2)
    }
}

/// Lays out the rooms of a dungeon on a three-by-three grid of slots,
/// each slot left empty with probability 28 in 100, and links them.
/// At least one room is made, all rooms fit the map, no two rooms come
/// within one cell of each other, and every room's floor ends up as room
/// tiles.
#[verifier::spinoff_prover]
#[verifier::rlimit(60)]
pub fn generate_nethackish_rooms(tiles: &mut Vec<u8>, rng: &mut DungeonRng) -> (rooms: Vec<Room>)
    requires
        grid_ok(old(tiles)@),
    ensures
        (rooms@, final(tiles)@, final(rng)@) == generated(old(tiles)@, old(rng)@),
        all_joined(generated_links(old(tiles)@, old(rng)@), rooms@.len() as int),
        grid_ok(final(tiles)@),
        floors_kept(old(tiles)@, final(tiles)@),
        1 <= rooms@.len() <= GRID_W * GRID_H,
        forall|k: int| 0 <= k < rooms@.len() ==> room_ok(#[trigger] rooms@[k]),
        forall|k: int| 0 <= k < rooms@.len() ==> room_sized(#[trigger] rooms@[k]),
        rooms_apart(rooms@),
        floors_laid(final(tiles)@, rooms@),
        final(rng)@.0 == old(rng)@.0,
{
    let ghost t0 = tiles@;
    let ghost r0 = rng@;
    let mut rooms: Vec<Room> = Vec::new();
    let mut grid_slots: Vec<Option<usize>> = Vec::new();
    let mut s: usize = 0;
    while s < GRID_W * GRID_H
        invariant
            s <= GRID_W * GRID_H,
            grid_slots@.len() == s,
            forall|k: int| 0 <= k < s ==> #[trigger] grid_slots@[k] == None::<usize>,
        decreases GRID_W * GRID_H - s,
    {
        grid_slots.push(None);
        s = s + 1;
    }
    assert(grid_slots@ =~= laid_out(t0, r0, 0).1);

    let cell_w = W as i32 / GRID_W as i32;
    let cell_h = H as i32 / GRID_H as i32;

    let mut gy: usize = 0;
    while gy < GRID_H
        invariant
            gy <= GRID_H,
            cell_w == 20,
            cell_h == 10,
            grid_ok(tiles@),
            grid_ok(t0),
            floors_kept(t0, tiles@),
            rooms@.len() <= gy * GRID_W,
            forall|k: int| 0 <= k < rooms@.len() ==> room_ok(#[trigger] rooms@[k]),
            forall|k: int| 0 <= k < rooms@.len() ==> room_sized(#[trigger] rooms@[k]),
            rooms_apart(rooms@),
            floors_laid(tiles@, rooms@),
            grid_slots@.len() == GRID_W * GRID_H,
            forall|k: int|
                0 <= k < grid_slots@.len() ==> (#[trigger] grid_slots@[k] matches Some(i) ==> i
                    < rooms@.len()),
            rng@.0 == old(rng)@.0,
            (rooms@, grid_slots@, tiles@, rng@) == laid_out(t0, r0, (gy * GRID_W) as nat),
        decreases GRID_H - gy,
    {
        let mut gx: usize = 0;
        while gx < GRID_W
            invariant
                gy < GRID_H,
                gx <= GRID_W,
                cell_w == 20,
                cell_h == 10,
                grid_ok(tiles@),
                grid_ok(t0),
                floors_kept(t0, tiles@),
                rooms@.len() <= gy * GRID_W + gx,
                forall|k: int| 0 <= k < rooms@.len() ==> room_ok(#[trigger] rooms@[k]),
                forall|k: int| 0 <= k < rooms@.len() ==> room_sized(#[trigger] rooms@[k]),
                rooms_apart(rooms@),
                floors_laid(tiles@, rooms@),
                grid_slots@.len() == GRID_W * GRID_H,
                forall|k: int|
                    0 <= k < grid_slots@.len() ==> (#[trigger] grid_slots@[k] matches Some(i) ==> i
                        < rooms@.len()),
                rng@.0 == old(rng)@.0,
                (rooms@, grid_slots@, tiles@, rng@) == laid_out(t0, r0, (gy * GRID_W + gx) as nat),
            decreases GRID_W - gx,
        {
            let ghost slot = (gy * GRID_W + gx) as int;
            let ghost r1 = rng@;
            assert(slot % (GRID_W as int) == gx as int);
            assert(slot / (GRID_W as int) == gy as int);
            // Like NetHack, leave some slots without a room.
            if (rng.next_u32() % 100) < 28 {
                assert(laid_out(t0, r0, (slot + 1) as nat) == (rooms@, grid_slots@, tiles@, rng@));
                gx = gx + 1;
                continue;
            }

            let region_x0 = gx as i32 * cell_w + 1;
            let region_y0 = gy as i32 * cell_h + 1;
            let region_x1 = if gx == GRID_W - 1 {
                W as i32 - 2
            } else {
                (gx as i32 + 1) * cell_w - 2
            };
            let region_y1 = if gy == GRID_H - 1 {
                H as i32 - 2
            } else {
                (gy as i32 + 1) * cell_h - 2
            };
            assert((region_x0 as int, region_y0 as int, region_x1 as int, region_y1 as int)
                == slot_region(gx as int, gy as int));

            let span_w = region_x1 - region_x0 - 1;
            let span_h = region_y1 - region_y0 - 1;
            let max_w = if span_w > MIN_ROOM_W {
                span_w
            } else {
                MIN_ROOM_W
            };
            let max_h = if span_h > MIN_ROOM_H {
                span_h
            } else {
                MIN_ROOM_H
            };
            if max_w < MIN_ROOM_W || max_h < MIN_ROOM_H {
                gx = gx + 1;
                continue;
            }

            let room_w = rand_range_i32(rng, MIN_ROOM_W, max_w + 1);
            let room_h = rand_range_i32(rng, MIN_ROOM_H, max_h + 1);
            let room_x = rand_range_i32(rng, region_x0, region_x1 - room_w + 2);
            let room_y = rand_range_i32(rng, region_y0, region_y1 - room_h + 2);

            let room = Room::new(room_x, room_y, room_w, room_h);
            assert(room_ok(room));
            assert(room_sized(room));
            assert(room == slot_room(slot, r1));

            // Rooms are never adjacent: at least one tile lies between them.
            if overlaps_any(&rooms, &room) {
                assert(laid_out(t0, r0, (slot + 1) as nat) == (rooms@, grid_slots@, tiles@, rng@));
                gx = gx + 1;
                continue;
            }

            let ghost before = tiles@;
            carve_room(tiles, &room);
            let room_index = rooms.len();
            let ghost old_rooms = rooms@;
            let ghost old_slots = grid_slots@;
            rooms.push(room);
            grid_slots.set(gy * GRID_W + gx, Some(room_index));
            proof {
                assert(laid_out(t0, r0, (slot + 1) as nat) == (rooms@, grid_slots@, tiles@, rng@));
                assert forall|x: int, y: int|
                    in_grid(x, y) && tile_at(t0, x, y) == TILE_ROOM implies #[trigger] tile_at(
                    tiles@,
                    x,
                    y,
                ) == TILE_ROOM by {
                    assert(tile_at(before, x, y) == TILE_ROOM);
                }
                assert forall|k: int, x: int, y: int|
                    0 <= k < rooms@.len() && in_grid(x, y) && in_room(
                        #[trigger] rooms@[k],
                        x,
                        y,
                    ) implies #[trigger] tile_at(tiles@, x, y) == TILE_ROOM by {
                    if k < old_rooms.len() {
                        assert(rooms@[k] == old_rooms[k]);
                        assert(tile_at(before, x, y) == TILE_ROOM);
                    }
                }
                assert forall|i: int, j: int|
                    0 <= i < rooms@.len() && 0 <= j < rooms@.len() && i != j implies !overlap_with_gap(
                    #[trigger] rooms@[i],
                    #[trigger] rooms@[j],
                    1,
                ) by {
                    if i < old_rooms.len() && j < old_rooms.len() {
                        assert(rooms@[i] == old_rooms[i]);
                        assert(rooms@[j] == old_rooms[j]);
                    } else if i < old_rooms.len() {
                        assert(rooms@[i] == old_rooms[i]);
                        assert(!overlap_with_gap(room, old_rooms[i], 1));
                    } else {
                        assert(rooms@[j] == old_rooms[j]);
                        assert(!overlap_with_gap(room, old_rooms[j], 1));
                    }
                }
                assert forall|k: int|
                    0 <= k < grid_slots@.len() implies (#[trigger] grid_slots@[k] matches Some(i)
                    ==> i < rooms@.len()) by {
                    if k != gy * GRID_W + gx {
                        assert(grid_slots@[k] == old_slots[k]);
                    }
                }
            }
            gx = gx + 1;
        }
        gy = gy + 1;
    }

    // Make sure at least one room exists.
    if rooms.len() == 0 {
        let fallback = Room::new((W as i32 / 2) - 4, (H as i32 / 2) - 3, 8, 6);
        assert(fallback == fallback_room());
        carve_room(tiles, &fallback);
        rooms.push(fallback);
        assert(floors_laid(tiles@, rooms@));
        assert(joined(Seq::<(usize, usize)>::empty(), 0, 0));
        assert(rooms@ == seq![fallback_room()]);
        return rooms;
    }

    let ghost before = tiles@;
    connect_room_grid(tiles, &rooms, &grid_slots, rng);
    proof {
        lemma_floors_laid_kept(before, tiles@, rooms@);
    }
    rooms
}

} // verus!
