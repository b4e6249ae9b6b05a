//! The procedural dungeon sample game: a player exploring rooms and
//! corridors, fighting monsters, with field-of-view and an options menu.
use vstd::prelude::*;
use crate::generate::{generate_nethackish_rooms, generated, floors_laid, room_linkable};
use crate::line::{
    bresenham_line,
    line_points,
    is_line,
    line_link,
    point_int,
    abs_int,
    straight_run,
    lemma_straight_run_is_line,
};
use crate::engine::{BTerm, GameState, TickResult, sgr_bytes, font_bytes, cls_bytes};
use crate::input::{GameKey, key_of};
use crate::io::{Console, decimal, write_decimal};
use vstd::string::StringSliceAdditionalSpecFns;
use crate::rng::{DungeonRng, rand_range_i32, next_draw, advanced, range_pick};
use crate::room::{Room, room_ok, in_room, center_of};
use crate::tiles::{
    W,
    H,
    TILE_ROCK,
    TILE_WALL,
    TILE_ROOM,
    TILE_CORRIDOR,
    TILE_DOOR,
    cell,
    in_grid,
    in_interior,
    tile_at,
    grid_ok,
    walled_tile,
    walled_grid,
    add_walls_around_open_tiles,
};

verus! {

/// Hit points a monster starts with.
pub const MONSTER_HP: i32 = 5;

/// Damage a monster deals when it strikes back.
pub const MONSTER_ATTACK: i32 = 2;

/// Hit points the player starts with.
pub const PLAYER_HP: i32 = 20;

/// The player's strength.
pub const PLAYER_STRENGTH: i32 = 10;

/// Seed of `DungeonState::new`.
pub const DEFAULT_SEED: u64 = 0x00C0_FFEE_F00D_BAAD;

#[derive(Clone, Copy)]
pub struct Monster {
    x: usize,
    y: usize,
    hp: i32,
    attack: i32,
}

impl Monster {
    pub closed spec fn pos_x(self) -> int {
        self.x as int
    }

    pub closed spec fn pos_y(self) -> int {
        self.y as int
    }

    pub closed spec fn health(self) -> int {
        self.hp as int
    }

    pub closed spec fn strength(self) -> int {
        self.attack as int
    }

    pub open spec fn alive(self) -> bool {
        self.health() > 0
    }

    fn new(x: usize, y: usize) -> (m: Self)
        ensures
            m == fresh_monster(x as int, y as int),
    {
        Self { x, y, hp: MONSTER_HP, attack: MONSTER_ATTACK }
    }

    fn is_alive(&self) -> (b: bool)
        ensures
            b == self.alive(),
    {
        self.hp > 0
    }
}

/// A monster at full strength standing at `(x, y)`.
pub closed spec fn fresh_monster(x: int, y: int) -> Monster {
    Monster { x: x as usize, y: y as usize, hp: MONSTER_HP, attack: MONSTER_ATTACK }
}

/// What a fresh monster is made of.
pub proof fn lemma_fresh_monster(x: int, y: int)
    requires
        0 <= x <= usize::MAX,
        0 <= y <= usize::MAX,
    ensures
        fresh_monster(x, y).pos_x() == x,
        fresh_monster(x, y).pos_y() == y,
        fresh_monster(x, y).health() == MONSTER_HP,
        fresh_monster(x, y).strength() == MONSTER_ATTACK,
{
}

/// One room's turn at spawning: with probability 60 in 100 a monster on a
/// random floor cell (column drawn first, then row).
pub open spec fn spawn_step(ms: Seq<Monster>, room: Room, r: (u64, nat)) -> (Seq<Monster>, (u64, nat)) {
    if next_draw(r) % 100 < 60 {
        let x = range_pick(next_draw(advanced(r, 1)), room.x1 + 1, room.x2 as int);
        let y = range_pick(next_draw(advanced(r, 2)), room.y1 + 1, room.y2 as int);
        (ms.push(fresh_monster(x, y)), advanced(r, 3))
    } else {
        (ms, advanced(r, 1))
    }
}

/// The monsters spawned in the first `k` rooms, and the generator after.
pub open spec fn spawned(rooms: Seq<Room>, r: (u64, nat), k: nat) -> (Seq<Monster>, (u64, nat))
    decreases k,
{
    if k == 0 {
        (Seq::empty(), r)
    } else {
        let before = spawned(rooms, r, (k - 1) as nat);
        spawn_step(before.0, rooms[k - 1], before.1)
    }
}

/// Spawning keeps monsters on room floor, at full strength.
pub proof fn lemma_spawned_in_rooms(rooms: Seq<Room>, r: (u64, nat), k: nat)
    requires
        k <= rooms.len(),
        forall|j: int| 0 <= j < rooms.len() ==> room_ok(#[trigger] rooms[j]),
    ensures
        spawned(rooms, r, k).0.len() <= k,
        spawned(rooms, r, k).1.0 == r.0,
        forall|i: int|
            0 <= i < spawned(rooms, r, k).0.len() ==> {
                &&& (#[trigger] spawned(rooms, r, k).0[i]).health() == MONSTER_HP
                &&& spawned(rooms, r, k).0[i].strength() == MONSTER_ATTACK
                &&& exists|j: int|
                    0 <= j < rooms.len() && in_room(
                        #[trigger] rooms[j],
                        spawned(rooms, r, k).0[i].pos_x(),
                        spawned(rooms, r, k).0[i].pos_y(),
                    )
            },
    decreases k,
{
    if k > 0 {
        lemma_spawned_in_rooms(rooms, r, (k - 1) as nat);
        let before = spawned(rooms, r, (k - 1) as nat);
        let room = rooms[k - 1];
        if next_draw(before.1) % 100 < 60 {
            let x = range_pick(next_draw(advanced(before.1, 1)), room.x1 + 1, room.x2 as int);
            let y = range_pick(next_draw(advanced(before.1, 2)), room.y1 + 1, room.y2 as int);
            lemma_fresh_monster(x, y);
            assert(in_room(rooms[k - 1], x, y));
            let ms = spawned(rooms, r, k).0;
            assert forall|i: int| 0 <= i < ms.len() implies {
                &&& (#[trigger] ms[i]).health() == MONSTER_HP
                &&& ms[i].strength() == MONSTER_ATTACK
                &&& exists|j: int|
                    0 <= j < rooms.len() && in_room(#[trigger] rooms[j], ms[i].pos_x(), ms[i].pos_y())
            } by {
                if i < before.0.len() {
                    assert(ms[i] == before.0[i]);
                } else {
                    assert(ms[i] == fresh_monster(x, y));
                    assert(in_room(rooms[k - 1], ms[i].pos_x(), ms[i].pos_y()));
                }
            }
        }
    }
}

/// Places a monster, with probability 60 in 100, on a random floor cell of
/// each room, room by room.
pub fn spawn_monsters(rooms: &Vec<Room>, rng: &mut DungeonRng) -> (monsters: Vec<Monster>)
    requires
        forall|k: int| 0 <= k < rooms@.len() ==> room_linkable(#[trigger] rooms@[k]),
    ensures
        (monsters@, final(rng)@) == spawned(rooms@, old(rng)@, rooms@.len()),
{
    let mut monsters: Vec<Monster> = Vec::new();
    let mut k: usize = 0;
    while k < rooms.len()
        invariant
            k <= rooms@.len(),
            forall|j: int| 0 <= j < rooms@.len() ==> room_linkable(#[trigger] rooms@[j]),
            (monsters@, rng@) == spawned(rooms@, old(rng)@, k as nat),
        decreases rooms@.len() - k,
    {
        let room = rooms[k];
        let ghost r = rng@;
        let ghost before = monsters@;
        if (rng.next_u32() % 100) < 60 {
            let x = rand_range_i32(rng, room.x1 + 1, room.x2) as usize;
            let y = rand_range_i32(rng, room.y1 + 1, room.y2) as usize;
            let m = Monster::new(x, y);
            assert(m == fresh_monster(x as int, y as int));
            monsters.push(m);
        }
        assert(spawned(rooms@, old(rng)@, (k + 1) as nat) == spawn_step(before, rooms@[k as int], r));
        k = k + 1;
    }
    monsters
}

/// Fonts of the kernel's framebuffer console.
#[derive(Clone, Copy, PartialEq, Eq, Structural)]
pub enum FontChoice {
    Regular8x8,
    Bold8x8,
    Regular9x14,
}

pub open spec fn next_font(f: FontChoice) -> FontChoice {
    match f {
        FontChoice::Regular8x8 => FontChoice::Bold8x8,
        FontChoice::Bold8x8 => FontChoice::Regular9x14,
        FontChoice::Regular9x14 => FontChoice::Regular8x8,
    }
}

pub open spec fn font_label(f: FontChoice) -> &'static str {
    match f {
        FontChoice::Regular8x8 => "IBM437 8x8 regular",
        FontChoice::Bold8x8 => "IBM437 8x8 bold",
        FontChoice::Regular9x14 => "IBM437 9x14 regular",
    }
}

pub open spec fn font_index(f: FontChoice) -> u8 {
    match f {
        FontChoice::Regular8x8 => 0,
        FontChoice::Bold8x8 => 1,
        FontChoice::Regular9x14 => 2,
    }
}

impl FontChoice {
    /// The font after this one, cycling.
    pub fn next(self) -> (f: Self)
        ensures
            f == next_font(self),
    {
        match self {
            FontChoice::Regular8x8 => FontChoice::Bold8x8,
            FontChoice::Bold8x8 => FontChoice::Regular9x14,
            FontChoice::Regular9x14 => FontChoice::Regular8x8,
        }
    }

    /// The name shown in the options menu.
    pub fn label(self) -> (s: &'static str)
        ensures
            s == font_label(self),
    {
        match self {
            FontChoice::Regular8x8 => "IBM437 8x8 regular",
            FontChoice::Bold8x8 => "IBM437 8x8 bold",
            FontChoice::Regular9x14 => "IBM437 9x14 regular",
        }
    }

    /// The number the kernel's font-select escape uses for this font.
    pub fn kernel_index(self) -> (i: u8)
        ensures
            i == font_index(self),
    {
        match self {
            FontChoice::Regular8x8 => 0,
            FontChoice::Bold8x8 => 1,
            FontChoice::Regular9x14 => 2,
        }
    }
}

/// How the dungeon is drawn.
#[derive(Clone, Copy)]
pub struct DisplayOptions {
    pub font: FontChoice,
    pub graphical_tiles: bool,
    pub color: bool,
    pub menu_open: bool,
}

/// The options a new game starts with.
pub open spec fn default_options() -> DisplayOptions {
    DisplayOptions {
        font: FontChoice::Regular8x8,
        graphical_tiles: true,
        color: true,
        menu_open: false,
    }
}

impl Default for DisplayOptions {
    fn default() -> (o: Self)
        ensures
            o == default_options(),
    {
        Self { font: FontChoice::Regular8x8, graphical_tiles: true, color: true, menu_open: false }
    }
}

/// The state of a dungeon game, seen as plain values.
pub struct DungeonView {
    pub tiles: Seq<u8>,
    pub explored: Seq<bool>,
    pub px: int,
    pub py: int,
    pub hit_points: int,
    pub strength: int,
    pub xp: int,
    pub monsters: Seq<Monster>,
    pub options: DisplayOptions,
    pub font_dirty: bool,
}

/// Number of monsters in `ms` that have been killed.
pub open spec fn dead_count(ms: Seq<Monster>) -> nat
    decreases ms.len(),
{
    if ms.len() == 0 {
        0
    } else {
        dead_count(ms.drop_last()) + (if ms.last().alive() {
            0nat
        } else {
            1nat
        })
    }
}

/// `tile` can be walked on.
pub open spec fn walkable_tile(tile: u8) -> bool {
    tile == TILE_ROOM || tile == TILE_CORRIDOR || tile == TILE_DOOR
}

/// `(x, y)` is on the map and can be walked on.
pub open spec fn walkable_at(t: Seq<u8>, x: int, y: int) -> bool {
    in_grid(x, y) && walkable_tile(tile_at(t, x, y))
}

impl DungeonView {
    /// The player stands on a tile that can be walked on.
    pub open spec fn player_on_floor(self) -> bool {
        walkable_at(self.tiles, self.px, self.py)
    }

    /// The player has been killed.
    pub open spec fn dead(self) -> bool {
        self.hit_points <= 0
    }

    /// Experience is ten points per monster killed.
    pub open spec fn xp_counts_kills(self) -> bool {
        self.xp == 10 * dead_count(self.monsters)
    }
}

/// The dungeon generated from `seed`: rooms laid out and linked on solid
/// rock, walls raised around the floors, the player at the centre of the
/// first room, then the monsters spawned, with the same generator.
pub open spec fn seeded_view(seed: u64) -> DungeonView {
    let rock = Seq::new((W * H) as nat, |i: int| TILE_ROCK);
    let (rooms, carved, r) = generated(rock, (seed, 0nat));
    let (px, py) = center_of(rooms[0]);
    DungeonView {
        tiles: walled_grid(carved),
        explored: Seq::new((W * H) as nat, |i: int| false),
        px,
        py,
        hit_points: PLAYER_HP as int,
        strength: PLAYER_STRENGTH as int,
        xp: 0,
        monsters: spawned(rooms, r, rooms.len()).0,
        options: default_options(),
        font_dirty: true,
    }
}

pub struct DungeonState {
    tiles: Vec<u8>,
    explored: Vec<bool>,
    px: usize,
    py: usize,
    hit_points: i32,
    strength: i32,
    xp: i32,
    monsters: Vec<Monster>,
    options: DisplayOptions,
    font_dirty: bool,
}

impl View for DungeonState {
    type V = DungeonView;

    closed spec fn view(&self) -> DungeonView {
        DungeonView {
            tiles: self.tiles@,
            explored: self.explored@,
            px: self.px as int,
            py: self.py as int,
            hit_points: self.hit_points as int,
            strength: self.strength as int,
            xp: self.xp as int,
            monsters: self.monsters@,
            options: self.options,
            font_dirty: self.font_dirty,
        }
    }
}

/// What every dungeon state satisfies: a full map, the player on it, hit
/// points between zero and the starting value, strength between 1 and 10,
/// at most nine monsters on the map with bounded health and attack, and
/// experience no more than ten points per kill.
pub open spec fn state_ok(v: DungeonView) -> bool {
    &&& grid_ok(v.tiles)
    &&& v.explored.len() == W * H
    &&& in_grid(v.px, v.py)
    &&& 0 <= v.hit_points <= PLAYER_HP
    &&& 1 <= v.strength <= PLAYER_STRENGTH
    &&& v.monsters.len() <= 9
    &&& forall|i: int|
        0 <= i < v.monsters.len() ==> {
            &&& in_grid((#[trigger] v.monsters[i]).pos_x(), v.monsters[i].pos_y())
            &&& -PLAYER_STRENGTH / 2 < v.monsters[i].health() <= MONSTER_HP
            &&& 0 <= v.monsters[i].strength() <= PLAYER_HP
        }
    &&& 0 <= v.xp <= 10 * dead_count(v.monsters)
}

impl DungeonState {
    #[verifier::type_invariant]
    closed spec fn inv(&self) -> bool {
        state_ok(self@)
    }

    /// A dungeon generated from the default seed.
    pub fn new() -> (s: Self)
        ensures
            s@ == seeded_view(DEFAULT_SEED),
            s@.player_on_floor(),
            s@.xp_counts_kills(),
            s@.hit_points == PLAYER_HP,
    {
        Self::new_with_seed(DEFAULT_SEED)
    }

    /// A dungeon generated from `seed`: the player starts on the floor at
    /// the centre of the first room, with full health and no experience,
    /// nothing explored yet, and every monster alive on room floor.
    pub fn new_with_seed(seed: u64) -> (s: Self)
        ensures
            s@ == seeded_view(seed),
            s@.player_on_floor(),
            s@.tiles[cell(s@.px, s@.py)] == TILE_ROOM,
            s@.hit_points == PLAYER_HP,
            s@.strength == PLAYER_STRENGTH,
            s@.xp == 0,
            s@.xp_counts_kills(),
            forall|i: int| 0 <= i < W * H ==> !#[trigger] s@.explored[i],
            forall|i: int|
                0 <= i < s@.monsters.len() ==> (#[trigger] s@.monsters[i]).health() == MONSTER_HP
                    && s@.monsters[i].strength() == MONSTER_ATTACK && tile_at(
                    s@.tiles,
                    s@.monsters[i].pos_x(),
                    s@.monsters[i].pos_y(),
                ) == TILE_ROOM,
            s@.options == default_options(),
            s@.font_dirty,
    {
        let mut tiles = vec![TILE_ROCK; W * H];
        assert(tiles@ =~= Seq::new((W * H) as nat, |i: int| TILE_ROCK));
        let mut rng = DungeonRng::seed_from_u64(seed);
        let rooms = generate_nethackish_rooms(&mut tiles, &mut rng);
        let ghost carved = tiles@;

        add_walls_around_open_tiles(&mut tiles);
        proof {
            assert forall|k: int, x: int, y: int|
                0 <= k < rooms@.len() && in_grid(x, y) && in_room(
                    #[trigger] rooms@[k],
                    x,
                    y,
                ) implies #[trigger] tile_at(tiles@, x, y) == TILE_ROOM by {
                assert(tile_at(carved, x, y) == TILE_ROOM);
                assert(tile_at(tiles@, x, y) == walled_tile(carved, x, y));
            }
        }

        let (px, py) = if rooms.len() > 0 {
            rooms[0].center()
        } else {
            (2, 2)
        };
        assert(in_room(rooms@[0], px as int, py as int));

        assert(tile_at(tiles@, px as int, py as int) == TILE_ROOM);
        let ghost r_spawn = rng@;
        let monsters = spawn_monsters(&rooms, &mut rng);
        proof {
            lemma_spawned_in_rooms(rooms@, r_spawn, rooms@.len());
            assert forall|i: int| 0 <= i < monsters@.len() implies tile_at(
                tiles@,
                (#[trigger] monsters@[i]).pos_x(),
                monsters@[i].pos_y(),
            ) == TILE_ROOM by {
                let k = choose|k: int|
                    0 <= k < rooms@.len() && in_room(
                        #[trigger] rooms@[k],
                        monsters@[i].pos_x(),
                        monsters@[i].pos_y(),
                    );
                assert(room_ok(rooms@[k]));
            }
            lemma_dead_count_zero(monsters@);
        }
        let explored = vec![false; W * H];
        assert(explored@ =~= Seq::new((W * H) as nat, |i: int| false));

        Self {
            tiles,
            explored,
            px: px as usize,
            py: py as usize,
            hit_points: PLAYER_HP,
            strength: PLAYER_STRENGTH,
            xp: 0,
            monsters,
            options: DisplayOptions::default(),
            font_dirty: true,
        }
    }
}

/// With every monster alive, none has been killed.
pub proof fn lemma_dead_count_zero(ms: Seq<Monster>)
    requires
        forall|i: int| 0 <= i < ms.len() ==> (#[trigger] ms[i]).alive(),
    ensures
        dead_count(ms) == 0,
    decreases ms.len(),
{
    if ms.len() > 0 {
        assert(ms.last().alive());
        lemma_dead_count_zero(ms.drop_last());
    }
}

/// Walls and solid rock block the view.
pub open spec fn opaque_tile(tile: u8) -> bool {
    tile == TILE_WALL || tile == TILE_ROCK
}

/// Along the line `pts` ending at `(x1, y1)`, every cell after the first
/// is on the map, and only the last may block the view.
pub open spec fn sight_clear(t: Seq<u8>, pts: Seq<(i32, i32)>) -> bool {
    forall|i: int|
        1 <= i < pts.len() ==> in_grid(point_int(#[trigger] pts[i]).0, point_int(pts[i]).1) && (
        opaque_tile(tile_at(t, pts[i].0 as int, pts[i].1 as int)) ==> i == pts.len() - 1)
}

/// How far the player can see, in cells.
pub const LOS_RADIUS: i32 = 10;

/// The player at `(v.px, v.py)` sees `(x, y)`: it is the player's own cell,
/// or it lies within the sight radius and the line to it is clear up to it.
pub open spec fn sees(v: DungeonView, x: int, y: int) -> bool {
    ||| (x == v.px && y == v.py)
    ||| ((x - v.px) * (x - v.px) + (y - v.py) * (y - v.py) <= LOS_RADIUS * LOS_RADIUS
        && sight_clear(v.tiles, line_points(v.px, v.py, x, y)))
}

/// The visibility of every cell, in row-major order.
pub open spec fn visibility_ok(v: DungeonView, vis: Seq<bool>) -> bool {
    &&& vis.len() == W * H
    &&& forall|x: int, y: int| in_grid(x, y) ==> #[trigger] vis[cell(x, y)] == sees(v, x, y)
}

impl DungeonState {
    fn tile(&self, x: usize, y: usize) -> (t: u8)
        requires
            in_grid(x as int, y as int),
        ensures
            t == tile_at(self@.tiles, x as int, y as int),
    {
        proof {
            use_type_invariant(self);
        }
        self.tiles[y * W + x]
    }

    /// Whether the line of sight from `(x0, y0)` to `(x1, y1)` is clear: no
    /// wall or rock before the target (the target itself may be one) and no
    /// step off the map.
    fn has_line_of_sight(&self, x0: i32, y0: i32, x1: i32, y1: i32) -> (clear: bool)
        requires
            abs_int(x1 - x0) < 0x2000_0000,
            abs_int(y1 - y0) < 0x2000_0000,
        ensures
            clear == sight_clear(self@.tiles, line_points(x0 as int, y0 as int, x1 as int, y1 as int)),
    {
        proof {
            use_type_invariant(self);
        }
        let points = bresenham_line(x0, y0, x1, y1);
        let mut index: usize = 1;
        while index < points.len()
            invariant
                1 <= index <= points@.len(),
                is_line(points@, x0 as int, y0 as int, x1 as int, y1 as int),
                points@ == line_points(x0 as int, y0 as int, x1 as int, y1 as int),
                grid_ok(self@.tiles),
                forall|i: int|
                    1 <= i < index ==> in_grid(point_int(#[trigger] points@[i]).0, point_int(points@[i]).1)
                        && !opaque_tile(tile_at(self@.tiles, points@[i].0 as int, points@[i].1 as int)),
            decreases points@.len() - index,
        {
            let (x, y) = points[index];
            if x < 0 || y < 0 || x >= W as i32 || y >= H as i32 {
                assert(!in_grid(point_int(points@[index as int]).0, point_int(points@[index as int]).1));
                assert(!sight_clear(self@.tiles, points@));
                return false;
            }
            let tile = self.tiles[(y as usize) * W + (x as usize)];
            if is_opaque(tile) {
                // The opaque target itself is visible; what lies beyond is not.
                proof {
                    if index < points@.len() - 1 {
                        assert(line_link(points@, index as int, x0 as int, y0 as int, x1 as int, y1 as int));
                        assert(opaque_tile(tile_at(self@.tiles, points@[index as int].0 as int, points@[index as int].1 as int)));
                        assert(!sight_clear(self@.tiles, points@));
                    } else {
                        assert forall|i: int|
                            1 <= i < points@.len() implies in_grid(point_int(#[trigger] points@[i]).0, point_int(points@[i]).1) && (
                            opaque_tile(tile_at(self@.tiles, points@[i].0 as int, points@[i].1 as int)) ==> i == points@.len() - 1) by {
                        }
                        assert(sight_clear(self@.tiles, points@));
                    }
                }
                return x == x1 && y == y1;
            }
            index = index + 1;
        }
        true
    }

    /// Which cells the player sees.
    fn compute_visibility(&self) -> (visible: Vec<bool>)
        ensures
            visibility_ok(self@, visible@),
    {
        proof {
            use_type_invariant(self);
        }
        let mut visible = vec![false; W * H];
        let px = self.px as i32;
        let py = self.py as i32;

        let mut y: i32 = 0;
        while y < H as i32
            invariant
                0 <= y <= H,
                px == self@.px,
                py == self@.py,
                in_grid(px as int, py as int),
                visible@.len() == W * H,
                forall|a: int, b: int|
                    in_grid(a, b) ==> #[trigger] visible@[cell(a, b)] == (b < y && (a != px || b
                        != py) && sees(self@, a, b)),
            decreases H - y,
        {
            let mut x: i32 = 0;
            while x < W as i32
                invariant
                    0 <= y < H,
                    0 <= x <= W,
                    px == self@.px,
                    py == self@.py,
                    in_grid(px as int, py as int),
                    visible@.len() == W * H,
                    forall|a: int, b: int|
                        in_grid(a, b) ==> #[trigger] visible@[cell(a, b)] == ((b < y || (b == y && a
                            < x)) && (a != px || b != py) && sees(self@, a, b)),
                decreases W - x,
            {
                let dx = x - px;
                let dy = y - py;
                assert(0 <= dx * dx < 3600 && 0 <= dy * dy < 3600) by (nonlinear_arith)
                    requires
                        -60 < dx < 60,
                        -60 < dy < 60,
                ;
                if dx * dx + dy * dy > LOS_RADIUS * LOS_RADIUS {
                    x = x + 1;
                    continue;
                }
                let clear = self.has_line_of_sight(px, py, x, y);
                if clear && (x != px || y != py) {
                    let ghost before = visible@;
                    visible.set((y as usize) * W + (x as usize), true);
                    assert forall|a: int, b: int| in_grid(a, b) implies #[trigger] visible@[cell(a, b)]
                        == ((b < y || (b == y && a < x + 1)) && (a != px || b != py) && sees(
                        self@,
                        a,
                        b,
                    )) by {
                        crate::tiles::lemma_cell(a, b, x as int, y as int);
                        assert(before[cell(a, b)] == ((b < y || (b == y && a < x)) && (a != px || b
                            != py) && sees(self@, a, b)));
                    }
                } else {
                    assert forall|a: int, b: int| in_grid(a, b) implies #[trigger] visible@[cell(a, b)]
                        == ((b < y || (b == y && a < x + 1)) && (a != px || b != py) && sees(
                        self@,
                        a,
                        b,
                    )) by {
                        if a == x && b == y {
                            assert(visible@[cell(a, b)] == false);
                        }
                    }
                }
                x = x + 1;
            }
            y = y + 1;
        }

        let ghost before = visible@;
        visible.set(self.py * W + self.px, true);
        assert forall|a: int, b: int| in_grid(a, b) implies #[trigger] visible@[cell(a, b)] == sees(self@, a, b) by {
            crate::tiles::lemma_cell(a, b, px as int, py as int);
            assert(before[cell(a, b)] == ((b < H) && (a != px || b != py) && sees(self@, a, b)));
        }
        visible
    }

    /// Marks every visible cell as explored.
    fn update_explored(&mut self, visibility: &Vec<bool>)
        requires
            visibility@.len() == W * H,
        ensures
            final(self)@ == (DungeonView {
                explored: Seq::new((W * H) as nat, |i: int| old(self)@.explored[i] || visibility@[i]),
                ..old(self)@
            }),
        no_unwind
    {
        proof {
            use_type_invariant(&*self);
        }
        let mut index: usize = 0;
        while index < visibility.len()
            invariant
                index <= visibility@.len(),
                visibility@.len() == W * H,
                self@.explored.len() == W * H,
                forall|i: int| 0 <= i < index ==> #[trigger] self@.explored[i] == (old(self)@.explored[i] || visibility@[i]),
                forall|i: int| index <= i < W * H ==> #[trigger] self@.explored[i] == old(self)@.explored[i],
                self@ == (DungeonView { explored: self@.explored, ..old(self)@ }),
                state_ok(self@),
            decreases visibility@.len() - index,
        {
            if visibility[index] {
                self.explored[index] = true;
            }
            index = index + 1;
        }
        assert(self@.explored =~= Seq::new((W * H) as nat, |i: int| old(self)@.explored[i] || visibility@[i]));
    }
}

/// Whether `tile` blocks the view.
pub fn is_opaque(tile: u8) -> (b: bool)
    ensures
        b == opaque_tile(tile),
{
    tile == TILE_WALL || tile == TILE_ROCK
}

/// A floor byte: room floor `.`, corridor `,` or door `+`.
pub open spec fn floor_byte(tile: u8) -> bool {
    tile == 46 || tile == 44 || tile == 43
}

/// Only walls `#` and solid rock ` ` block the view: room floor, corridor
/// and door cells never do, and every cell the player can walk on is seen
/// through.
pub proof fn lemma_what_blocks_sight(tile: u8)
    ensures
        opaque_tile(tile) <==> (tile == 35 || tile == 32),
        floor_byte(tile) ==> !opaque_tile(tile),
        walkable_tile(tile) ==> !opaque_tile(tile),
{
}

/// Cell `i` of the run from `(x0, y0)` in direction `(dx, dy)` is on the map
/// and holds floor, corridor or a door.
pub open spec fn run_floor(t: Seq<u8>, x0: int, y0: int, dx: int, dy: int, i: int) -> bool {
    in_grid(x0 + i * dx, y0 + i * dy) && floor_byte(tile_at(t, x0 + i * dx, y0 + i * dy))
}

/// Corridors, room floors and doors never block the view: a straight
/// horizontal or vertical run of such cells leading away from the player
/// shows every cell along it, up to the sight radius, and the first cell
/// past its end too, whatever that cell holds.
pub proof fn lemma_straight_run_visible(v: DungeonView, dx: int, dy: int, k: int)
    requires
        (dx == 1 && dy == 0) || (dx == -1 && dy == 0) || (dx == 0 && dy == 1) || (dx == 0 && dy
            == -1),
        1 <= k <= 10,
        in_grid(v.px, v.py),
        in_grid(v.px + k * dx, v.py + k * dy),
        forall|i: int| 1 <= i < k ==> #[trigger] run_floor(v.tiles, v.px, v.py, dx, dy, i),
    ensures
        sees(v, v.px + k * dx, v.py + k * dy),
{
    let x0 = v.px;
    let y0 = v.py;
    let x1 = x0 + k * dx;
    let y1 = y0 + k * dy;
    lemma_straight_run_is_line(x0, y0, dx, dy, k);
    let pts = straight_run(x0, y0, dx, dy, k);
    crate::line::lemma_line_unique(line_points(x0, y0, x1, y1), pts, x0, y0, x1, y1);
    assert(line_points(x0, y0, x1, y1) == pts);
    assert forall|i: int| 1 <= i < pts.len() implies in_grid(point_int(#[trigger] pts[i]).0, point_int(pts[i]).1) && (
        opaque_tile(tile_at(v.tiles, pts[i].0 as int, pts[i].1 as int)) ==> i == pts.len() - 1) by {
        assert(pts[i] == ((x0 + i * dx) as i32, (y0 + i * dy) as i32));
        if i < k {
            assert(run_floor(v.tiles, x0, y0, dx, dy, i));
        } else {
            assert(i * dx == k * dx && i * dy == k * dy);
        }
    }
    assert(sight_clear(v.tiles, pts));
    assert((x1 - x0) * (x1 - x0) + (y1 - y0) * (y1 - y0) <= 100) by {
        assert(k * k <= 100) by (nonlinear_arith)
            requires
                1 <= k <= 10,
        ;
        if dx == 1 || dx == -1 {
            assert(k * dy == 0);
            assert((k * dx) * (k * dx) == k * k) by (nonlinear_arith)
                requires
                    dx == 1 || dx == -1,
            ;
        } else {
            assert(k * dx == 0);
            assert((k * dy) * (k * dy) == k * k) by (nonlinear_arith)
                requires
                    dy == 1 || dy == -1,
            ;
        }
    }
}

/// The cell `(x, y)` shows a wall: off the map, a wall, or a door.
pub open spec fn wall_or_edge(t: Seq<u8>, x: int, y: int) -> bool {
    !in_grid(x, y) || tile_at(t, x, y) == TILE_WALL || tile_at(t, x, y) == TILE_DOOR
}

/// The box-drawing glyph (code page 437) joining the walls on the given
/// sides of a wall cell.
pub open spec fn junction_glyph(north: bool, south: bool, west: bool, east: bool) -> u8 {
    if north && south && west && east {
        0xC5
    } else if north && south && west {
        0xB4
    } else if north && south && east {
        0xC3
    } else if north && west && east {
        0xC1
    } else if south && west && east {
        0xC2
    } else if north && south {
        0xB3
    } else if west && east {
        0xC4
    } else if north && east {
        0xC0
    } else if north && west {
        0xD9
    } else if south && east {
        0xDA
    } else if south && west {
        0xBF
    } else if north || south {
        0xB3
    } else if west || east {
        0xC4
    } else {
        0xB1
    }
}

/// The cell `(x, y)` is on the map and holds a wall or a door.
pub open spec fn wall_at(t: Seq<u8>, x: int, y: int) -> bool {
    in_grid(x, y) && (tile_at(t, x, y) == TILE_WALL || tile_at(t, x, y) == TILE_DOOR)
}

/// The glyph of the wall cell `(x, y)`, joining the walls and doors next to
/// it on the map. On the map's border genuine corners are kept, and the
/// T-junctions that a wall running along the border would form are drawn
/// as straight lines; nothing off the map counts as a wall.
pub open spec fn wall_glyph_of(t: Seq<u8>, x: int, y: int) -> u8 {
    let north = wall_at(t, x, y - 1);
    let south = wall_at(t, x, y + 1);
    let west = wall_at(t, x - 1, y);
    let east = wall_at(t, x + 1, y);
    if y == 0 && south && east && west {
        0xC4
    } else if y == 0 && south && east {
        0xDA
    } else if y == 0 && south && west {
        0xBF
    } else if y == H - 1 && north && east && west {
        0xC4
    } else if y == H - 1 && north && east {
        0xC0
    } else if y == H - 1 && north && west {
        0xD9
    } else if x == 0 && north && south && east {
        0xB3
    } else if x == 0 && south && east {
        0xDA
    } else if x == 0 && north && east {
        0xC0
    } else if x == W - 1 && north && south && west {
        0xB3
    } else if x == W - 1 && south && west {
        0xBF
    } else if x == W - 1 && north && west {
        0xD9
    } else {
        junction_glyph(north, south, west, east)
    }
}

/// Away from the border a wall cell's glyph joins exactly its walled
/// neighbours.
pub proof fn lemma_wall_glyph_inside(t: Seq<u8>, x: int, y: int)
    requires
        in_interior(x, y),
    ensures
        wall_glyph_of(t, x, y) == junction_glyph(
            wall_at(t, x, y - 1),
            wall_at(t, x, y + 1),
            wall_at(t, x - 1, y),
            wall_at(t, x + 1, y),
        ),
{
}

/// Anywhere on the map, border included, a wall cell joined to walls on
/// two sides at a right angle is drawn as that corner, and one joined on
/// two opposite sides only is drawn as a straight line.
pub proof fn lemma_wall_glyph_corners_and_lines(t: Seq<u8>, x: int, y: int)
    requires
        in_grid(x, y),
    ensures
        ({
            let n = wall_at(t, x, y - 1);
            let s = wall_at(t, x, y + 1);
            let w = wall_at(t, x - 1, y);
            let e = wall_at(t, x + 1, y);
            &&& (n && w && !s && !e ==> wall_glyph_of(t, x, y) == 0xD9)
            &&& (n && e && !s && !w ==> wall_glyph_of(t, x, y) == 0xC0)
            &&& (s && e && !n && !w ==> wall_glyph_of(t, x, y) == 0xDA)
            &&& (s && w && !n && !e ==> wall_glyph_of(t, x, y) == 0xBF)
            &&& (n && s && !w && !e ==> wall_glyph_of(t, x, y) == 0xB3)
            &&& (w && e && !n && !s ==> wall_glyph_of(t, x, y) == 0xC4)
        }),
{
}

/// One drawn glyph: with colour on, wrapped in a colour escape and a reset.
pub open spec fn glyph_bytes(opts: DisplayOptions, byte: u8, color: u8) -> Seq<u8> {
    if opts.color {
        sgr_bytes(color).push(byte) + sgr_bytes(0)
    } else {
        seq![byte]
    }
}

/// With graphical tiles and colour off, a map tile is drawn as its own
/// byte.
pub proof fn lemma_plain_map_tile(v: DungeonView, x: int, y: int, tile: u8, visible: bool)
    requires
        !v.options.graphical_tiles,
        !v.options.color,
    ensures
        map_tile_bytes(v, x, y, tile, visible) == seq![tile],
{
}

/// The bytes drawn for the explored map tile `tile` at `(x, y)`.
pub open spec fn map_tile_bytes(v: DungeonView, x: int, y: int, tile: u8, visible: bool) -> Seq<u8> {
    let o = v.options;
    let floor_color: u8 = if o.color && !visible {
        32
    } else {
        92
    };
    if o.graphical_tiles {
        if tile == TILE_WALL {
            glyph_bytes(o, wall_glyph_of(v.tiles, x, y), 37)
        } else if tile == TILE_ROOM {
            glyph_bytes(o, 0xFA, floor_color)
        } else if tile == TILE_DOOR {
            glyph_bytes(o, 0xFE, 93)
        } else if tile == TILE_CORRIDOR {
            glyph_bytes(o, if visible { 0xB1u8 } else { 0xB0u8 }, 96)
        } else if tile == TILE_ROCK {
            glyph_bytes(o, 32, 37)
        } else {
            glyph_bytes(o, tile, 37)
        }
    } else {
        if tile == TILE_WALL {
            glyph_bytes(o, 35, 37)
        } else if tile == TILE_ROOM {
            glyph_bytes(o, 46, floor_color)
        } else if tile == TILE_DOOR {
            glyph_bytes(o, 43, 93)
        } else if tile == TILE_CORRIDOR {
            glyph_bytes(o, 44, 96)
        } else if tile == TILE_ROCK {
            glyph_bytes(o, 32, 37)
        } else {
            glyph_bytes(o, tile, 37)
        }
    }
}

/// Monster `m` is alive at `(x, y)`.
pub open spec fn monster_here(m: Monster, x: int, y: int) -> bool {
    m.pos_x() == x && m.pos_y() == y && m.alive()
}

/// The first of the first `n` monsters that is alive at `(x, y)`.
pub open spec fn monster_slot(ms: Seq<Monster>, x: int, y: int, n: int) -> Option<int>
    decreases n,
{
    if n <= 0 {
        None
    } else {
        match monster_slot(ms, x, y, n - 1) {
            Some(i) => Some(i),
            None => if monster_here(ms[n - 1], x, y) {
                Some(n - 1)
            } else {
                None
            },
        }
    }
}

/// Once a monster is found, looking further does not change the answer.
pub proof fn lemma_slot_stable(ms: Seq<Monster>, x: int, y: int, k: int, n: int)
    requires
        k <= n,
    ensures
        monster_slot(ms, x, y, k) is Some ==> monster_slot(ms, x, y, n) == monster_slot(ms, x, y, k),
    decreases n - k,
{
    if k < n {
        lemma_slot_stable(ms, x, y, k, n - 1);
    }
}

/// The first monster alive at `(x, y)`, if any.
pub open spec fn monster_at(v: DungeonView, x: int, y: int) -> Option<int> {
    monster_slot(v.monsters, x, y, v.monsters.len() as int)
}

/// The bytes drawn for the cell `(x, y)`: unexplored cells are blank,
/// then the player, a live monster, or the map tile.
pub open spec fn cell_bytes(v: DungeonView, vis: Seq<bool>, x: int, y: int) -> Seq<u8> {
    if !v.explored[cell(x, y)] {
        glyph_bytes(v.options, 32, 37)
    } else if x == v.px && y == v.py {
        glyph_bytes(v.options, 64, 93)
    } else if monster_at(v, x, y) is Some {
        glyph_bytes(v.options, 77, 91)
    } else {
        map_tile_bytes(v, x, y, tile_at(v.tiles, x, y), vis[cell(x, y)])
    }
}

/// The first `n` cells of row `y`.
pub open spec fn row_bytes(v: DungeonView, vis: Seq<bool>, y: int, n: int) -> Seq<u8>
    decreases n,
{
    if n <= 0 {
        Seq::empty()
    } else {
        row_bytes(v, vis, y, n - 1) + cell_bytes(v, vis, n - 1, y)
    }
}

/// The first `m` rows of the map, each ended by a newline.
pub open spec fn grid_bytes(v: DungeonView, vis: Seq<bool>, m: int) -> Seq<u8>
    decreases m,
{
    if m <= 0 {
        Seq::empty()
    } else {
        grid_bytes(v, vis, m - 1) + row_bytes(v, vis, m - 1, W as int).push(10)
    }
}

pub open spec fn on_off(b: bool) -> Seq<u8> {
    if b {
        "on".spec_bytes()
    } else {
        "off".spec_bytes()
    }
}

/// The options menu, when it is open.
pub open spec fn menu_bytes(o: DisplayOptions) -> Seq<u8> {
    if o.menu_open {
        "\n=== Options ===\n".spec_bytes() + "F: font       ".spec_bytes() + font_label(o.font).spec_bytes()
            + seq![10u8] + "G: graphics   ".spec_bytes() + on_off(o.graphical_tiles) + seq![10u8]
            + "C: color      ".spec_bytes() + on_off(o.color) + seq![10u8]
            + "O: close options\n".spec_bytes()
    } else {
        Seq::empty()
    }
}

/// The lines below the map: help, the player's stats, the options hint and
/// the options menu.
pub open spec fn status_bytes(v: DungeonView) -> Seq<u8> {
    "\nMove: h/j/k/l, arrows, keypad 1-9   Quit: q\n".spec_bytes() + "HP: ".spec_bytes() + decimal(
        v.hit_points,
    ) + "  STR: ".spec_bytes() + decimal(v.strength) + "  XP: ".spec_bytes() + decimal(v.xp)
        + "\n".spec_bytes() + "Press O for options".spec_bytes() + menu_bytes(v.options)
}

/// The whole screen of a living player.
pub open spec fn screen_bytes(v: DungeonView, vis: Seq<bool>) -> Seq<u8> {
    cls_bytes() + "riscvrogue -- dungeon sample state\n\n".spec_bytes() + grid_bytes(v, vis, H as int)
        + status_bytes(v)
}

/// The screen shown once the player is dead.
pub open spec fn dead_screen_bytes(v: DungeonView) -> Seq<u8> {
    cls_bytes() + "You are dead.\n\n".spec_bytes() + "Final stats -> HP: ".spec_bytes() + decimal(
        v.hit_points,
    ) + "  STR: ".spec_bytes() + decimal(v.strength) + "\n\n".spec_bytes()
        + "Press SPACE to leave the game.\n".spec_bytes()
}

impl DungeonState {
    /// Whether `(x, y)` is a wall for the purpose of joining wall glyphs:
    /// walls, doors, and everything off the map.
    fn is_wall(&self, x: i32, y: i32) -> (b: bool)
        ensures
            b == wall_or_edge(self@.tiles, x as int, y as int),
    {
        proof {
            use_type_invariant(self);
        }
        if x < 0 || y < 0 || x >= W as i32 || y >= H as i32 {
            return true;
        }
        let tile = self.tiles[(y as usize) * W + (x as usize)];
        tile == TILE_WALL || tile == TILE_DOOR
    }

    /// The box-drawing glyph for the wall cell `(x, y)`.
    fn wall_glyph(&self, x: usize, y: usize) -> (g: u8)
        requires
            in_grid(x as int, y as int),
        ensures
            g == wall_glyph_of(self@.tiles, x as int, y as int),
    {
        // Only cells on the map can join: an edge of the map is no wall.
        let north = y > 0 && self.is_wall(x as i32, y as i32 - 1);
        let south = y + 1 < H && self.is_wall(x as i32, y as i32 + 1);
        let west = x > 0 && self.is_wall(x as i32 - 1, y as i32);
        let east = x + 1 < W && self.is_wall(x as i32 + 1, y as i32);

        // Edge-aware overrides: keep genuine corners on the boundary, but
        // collapse the T-junctions along the boundary to straight lines.
        if y == 0 {
            if south && east && west {
                return 0xC4;
            }
            if south && east {
                return 0xDA;
            }
            if south && west {
                return 0xBF;
            }
        }
        if y == (H - 1) {
            if north && east && west {
                return 0xC4;
            }
            if north && east {
                return 0xC0;
            }
            if north && west {
                return 0xD9;
            }
        }
        if x == 0 {
            if north && south && east {
                return 0xB3;
            }
            if south && east {
                return 0xDA;
            }
            if north && east {
                return 0xC0;
            }
        }
        if x == (W - 1) {
            if north && south && west {
                return 0xB3;
            }
            if south && west {
                return 0xBF;
            }
            if north && west {
                return 0xD9;
            }
        }

        match (north, south, west, east) {
            (true, true, true, true) => 0xC5,
            (true, true, true, false) => 0xB4,
            (true, true, false, true) => 0xC3,
            (true, false, true, true) => 0xC1,
            (false, true, true, true) => 0xC2,
            (true, true, false, false) => 0xB3,
            (false, false, true, true) => 0xC4,
            (true, false, false, true) => 0xC0,
            (true, false, true, false) => 0xD9,
            (false, true, false, true) => 0xDA,
            (false, true, true, false) => 0xBF,
            (true, false, false, false) | (false, true, false, false) => 0xB3,
            (false, false, true, false) | (false, false, false, true) => 0xC4,
            _ => 0xB1,
        }
    }

    /// Draws one glyph, coloured when colour is on.
    fn draw_tile<C: Console + ?Sized>(&self, ctx: &mut BTerm<'_, C>, byte: u8, color_code: u8)
        ensures
            final(ctx).output() == old(ctx).output() + glyph_bytes(self@.options, byte, color_code),
    {
        if self.options.color {
            ctx.set_sgr(color_code);
            ctx.put_char(byte);
            ctx.reset_style();
        } else {
            ctx.put_char(byte);
            assert(old(ctx).output().push(byte) =~= old(ctx).output() + seq![byte]);
        }
    }

    /// Draws an explored map tile.
    fn draw_map_tile<C: Console + ?Sized>(
        &self,
        ctx: &mut BTerm<'_, C>,
        x: usize,
        y: usize,
        tile: u8,
        visible: bool,
    )
        requires
            self@.options.graphical_tiles && tile == TILE_WALL ==> in_grid(x as int, y as int),
        ensures
            final(ctx).output() == old(ctx).output() + map_tile_bytes(self@, x as int, y as int, tile, visible),
    {
        if self.options.graphical_tiles {
            if tile == TILE_WALL {
                let glyph = self.wall_glyph(x, y);
                self.draw_tile(ctx, glyph, 37);
            } else if tile == TILE_ROOM {
                let color = if self.options.color && !visible {
                    32
                } else {
                    92
                };
                self.draw_tile(ctx, 0xFA, color);
            } else if tile == TILE_DOOR {
                self.draw_tile(ctx, 0xFE, 93);
            } else if tile == TILE_CORRIDOR {
                let glyph = if visible {
                    0xB1
                } else {
                    0xB0
                };
                self.draw_tile(ctx, glyph, 96);
            } else if tile == TILE_ROCK {
                self.draw_tile(ctx, 32, 37);
            } else {
                self.draw_tile(ctx, tile, 37);
            }
        } else {
            if tile == TILE_WALL {
                self.draw_tile(ctx, 35, 37);
            } else if tile == TILE_ROOM {
                let color = if self.options.color && !visible {
                    32
                } else {
                    92
                };
                self.draw_tile(ctx, 46, color);
            } else if tile == TILE_DOOR {
                self.draw_tile(ctx, 43, 93);
            } else if tile == TILE_CORRIDOR {
                self.draw_tile(ctx, 44, 96);
            } else if tile == TILE_ROCK {
                self.draw_tile(ctx, 32, 37);
            } else {
                self.draw_tile(ctx, tile, 37);
            }
        }
    }

    /// The first monster alive at `(x, y)`.
    fn find_monster_at(&self, x: usize, y: usize) -> (found: Option<usize>)
        ensures
            match found {
                Some(i) => monster_at(self@, x as int, y as int) == Some(i as int),
                None => monster_at(self@, x as int, y as int) is None,
            },
    {
        let mut k: usize = 0;
        while k < self.monsters.len()
            invariant
                k <= self@.monsters.len(),
                monster_slot(self@.monsters, x as int, y as int, k as int) is None,
            decreases self@.monsters.len() - k,
        {
            let m = self.monsters[k];
            if m.x == x && m.y == y && m.is_alive() {
                proof {
                    lemma_slot_stable(self@.monsters, x as int, y as int, k + 1, self@.monsters.len() as int);
                }
                return Some(k);
            }
            k = k + 1;
        }
        None
    }

    /// Draws the cell `(x, y)` of the map.
    fn draw_cell<C: Console + ?Sized>(&self, ctx: &mut BTerm<'_, C>, visibility: &Vec<bool>, x: usize, y: usize)
        requires
            in_grid(x as int, y as int),
            visibility@.len() >= W * H,
        ensures
            final(ctx).output() == old(ctx).output() + cell_bytes(self@, visibility@, x as int, y as int),
    {
        proof {
            use_type_invariant(self);
        }
        let index = y * W + x;
        let explored = self.explored[index];
        let visible = visibility[index];

        if !explored {
            self.draw_tile(ctx, 32, 37);
            return ;
        }
        if x == self.px && y == self.py {
            self.draw_tile(ctx, 64, 93);
        } else if self.find_monster_at(x, y).is_some() {
            self.draw_tile(ctx, 77, 91);
        } else {
            let tile = self.tile(x, y);
            self.draw_map_tile(ctx, x, y, tile, visible);
        }
    }
}

impl DungeonState {
    /// Draws the map and the status lines.
    fn render<C: Console + ?Sized>(&self, ctx: &mut BTerm<'_, C>, visibility: &Vec<bool>)
        requires
            visibility@.len() >= W * H,
        ensures
            final(ctx).output() == old(ctx).output() + screen_bytes(self@, visibility@),
    {
        let ghost v = self@;
        let ghost vis = visibility@;
        let ghost o0 = ctx.output();
        ctx.cls();
        ctx.print("riscvrogue -- dungeon sample state\n\n");
        let ghost head = o0 + cls_bytes() + "riscvrogue -- dungeon sample state\n\n".spec_bytes();
        assert(ctx.output() == head + grid_bytes(v, vis, 0));

        let mut y: usize = 0;
        while y < H
            invariant
                y <= H,
                v == self@,
                vis == visibility@,
                vis.len() >= W * H,
                ctx.output() == head + grid_bytes(v, vis, y as int),
            decreases H - y,
        {
            let ghost row_start = ctx.output();
            let mut x: usize = 0;
            while x < W
                invariant
                    y < H,
                    x <= W,
                    v == self@,
                    vis == visibility@,
                    vis.len() >= W * H,
                    ctx.output() == row_start + row_bytes(v, vis, y as int, x as int),
                decreases W - x,
            {
                self.draw_cell(ctx, visibility, x, y);
                assert(row_start + row_bytes(v, vis, y as int, x + 1) =~= row_start + row_bytes(
                    v,
                    vis,
                    y as int,
                    x as int,
                ) + cell_bytes(v, vis, x as int, y as int));
                x = x + 1;
            }
            ctx.put_char(10);
            assert(head + grid_bytes(v, vis, y + 1) =~= head + grid_bytes(v, vis, y as int) + row_bytes(
                v,
                vis,
                y as int,
                W as int,
            ).push(10));
            y = y + 1;
        }
        let ghost after_grid = ctx.output();
        self.render_status(ctx);
        assert(o0 + screen_bytes(v, vis) =~= head + grid_bytes(v, vis, H as int) + status_bytes(v));
    }

    /// Draws the help line, the player's stats and the options menu.
    fn render_status<C: Console + ?Sized>(&self, ctx: &mut BTerm<'_, C>)
        ensures
            final(ctx).output() == old(ctx).output() + status_bytes(self@),
    {
        let ghost v = self@;
        let ghost o0 = ctx.output();
        ctx.print("\nMove: h/j/k/l, arrows, keypad 1-9   Quit: q\n");
        ctx.print("HP: ");
        write_decimal(ctx.console_mut(), self.hit_points);
        ctx.print("  STR: ");
        write_decimal(ctx.console_mut(), self.strength);
        ctx.print("  XP: ");
        write_decimal(ctx.console_mut(), self.xp);
        ctx.print("\n");
        ctx.print("Press O for options");
        self.render_menu(ctx);
        assert(ctx.output() =~= o0 + status_bytes(v));
    }

    /// Draws the options menu when it is open.
    fn render_menu<C: Console + ?Sized>(&self, ctx: &mut BTerm<'_, C>)
        ensures
            final(ctx).output() == old(ctx).output() + menu_bytes(self@.options),
    {
        let ghost before_menu = ctx.output();
        if self.options.menu_open {
            ctx.print("\n=== Options ===\n");
            ctx.print("F: font       ");
            ctx.print(self.options.font.label());
            ctx.put_char(10);
            ctx.print("G: graphics   ");
            ctx.print(
                if self.options.graphical_tiles {
                    "on"
                } else {
                    "off"
                },
            );
            ctx.put_char(10);
            ctx.print("C: color      ");
            ctx.print(
                if self.options.color {
                    "on"
                } else {
                    "off"
                },
            );
            ctx.put_char(10);
            ctx.print("O: close options\n");
            assert(ctx.output() =~= before_menu + menu_bytes(self@.options));
        } else {
            assert(ctx.output() =~= before_menu + menu_bytes(self@.options));
        }
    }

    /// Draws the screen of a dead player.
    fn render_dead<C: Console + ?Sized>(&self, ctx: &mut BTerm<'_, C>)
        ensures
            final(ctx).output() == old(ctx).output() + dead_screen_bytes(self@),
    {
        let ghost o0 = ctx.output();
        ctx.cls();
        ctx.print("You are dead.\n\n");
        ctx.print("Final stats -> HP: ");
        write_decimal(ctx.console_mut(), self.hit_points);
        ctx.print("  STR: ");
        write_decimal(ctx.console_mut(), self.strength);
        ctx.print("\n\n");
        ctx.print("Press SPACE to leave the game.\n");
        assert(ctx.output() =~= o0 + dead_screen_bytes(self@));
    }
}

/// The state after a pending font change was sent to the console.
pub open spec fn after_font(v: DungeonView) -> DungeonView {
    DungeonView { font_dirty: false, ..v }
}

/// The font-select escape sent when the font changed since the last tick.
pub open spec fn font_out(v: DungeonView) -> Seq<u8> {
    if v.font_dirty {
        font_bytes(font_index(v.options.font))
    } else {
        Seq::empty()
    }
}

/// Which cells the player sees, in row-major order.
pub open spec fn visibility_of(v: DungeonView) -> Seq<bool> {
    Seq::new((W * H) as nat, |i: int| sees(v, i % 60, i / 60))
}

/// The state after everything the player sees has been marked explored.
pub open spec fn explored_after(v: DungeonView) -> DungeonView {
    DungeonView {
        explored: Seq::new((W * H) as nat, |i: int| v.explored[i] || visibility_of(v)[i]),
        ..v
    }
}

/// The reaction to a key while the options menu is open: `q` leaves, `o`
/// closes the menu, `f` cycles the font, `g` toggles graphical tiles and
/// `c` toggles colour (either case).
pub open spec fn options_key(v: DungeonView, key: GameKey) -> (DungeonView, TickResult) {
    let o = v.options;
    match key {
        GameKey::Quit => (v, TickResult::Quit),
        GameKey::Options => (DungeonView { options: DisplayOptions { menu_open: false, ..o }, ..v }, TickResult::Continue),
        GameKey::Char(ch) => {
            if ch == 102 || ch == 70 {
                (DungeonView { options: DisplayOptions { font: next_font(o.font), ..o }, font_dirty: true, ..v }, TickResult::Continue)
            } else if ch == 103 || ch == 71 {
                (DungeonView { options: DisplayOptions { graphical_tiles: !o.graphical_tiles, ..o }, ..v }, TickResult::Continue)
            } else if ch == 99 || ch == 67 {
                (DungeonView { options: DisplayOptions { color: !o.color, ..o }, ..v }, TickResult::Continue)
            } else {
                (v, TickResult::Continue)
            }
        },
        _ => (v, TickResult::Continue),
    }
}

/// The damage the player deals: half the strength, at least one.
pub open spec fn player_damage(v: DungeonView) -> int {
    if v.strength / 2 > 1 {
        v.strength / 2
    } else {
        1
    }
}

/// Monster `m` with `hp` hit points left.
pub closed spec fn with_health(m: Monster, hp: int) -> Monster {
    Monster { hp: hp as i32, ..m }
}

/// The player strikes monster `i`: a killed monster gives ten experience
/// points, one that survives strikes back.
pub open spec fn strike(v: DungeonView, i: int) -> DungeonView {
    let m = v.monsters[i];
    let hp = m.health() - player_damage(v);
    let monsters = v.monsters.update(i, with_health(m, hp));
    if hp <= 0 {
        DungeonView { monsters, xp: v.xp + 10, ..v }
    } else {
        DungeonView {
            monsters,
            hit_points: if v.hit_points - m.strength() > 0 {
                v.hit_points - m.strength()
            } else {
                0
            },
            ..v
        }
    }
}

/// The reaction to a key during play: `q` leaves, `o` opens the options,
/// a move attacks a live monster in the target cell or else walks there
/// when the cell can be walked on.
pub open spec fn play_key(v: DungeonView, key: GameKey) -> (DungeonView, TickResult) {
    match key {
        GameKey::Quit => (v, TickResult::Quit),
        GameKey::Options => (DungeonView { options: DisplayOptions { menu_open: true, ..v.options }, ..v }, TickResult::Continue),
        GameKey::Move { dx, dy } => {
            let nx = v.px + dx;
            let ny = v.py + dy;
            if !in_grid(nx, ny) {
                (v, TickResult::Continue)
            } else {
                match monster_at(v, nx, ny) {
                    Some(i) => (strike(v, i), TickResult::Continue),
                    None => if walkable_at(v.tiles, nx, ny) {
                        (DungeonView { px: nx, py: ny, ..v }, TickResult::Continue)
                    } else {
                        (v, TickResult::Continue)
                    },
                }
            }
        },
        _ => (v, TickResult::Continue),
    }
}

/// The state shown at the start of a tick, before its key is read: the
/// pending font has been sent, and a living player has explored what they
/// see.
pub open spec fn shown(v: DungeonView) -> DungeonView {
    let f = after_font(v);
    if v.dead() {
        f
    } else {
        explored_after(f)
    }
}

/// What the start of a tick writes: the pending font escape, then the
/// death screen or the map with its status lines.
pub open spec fn screen_out(v: DungeonView) -> Seq<u8> {
    let f = after_font(v);
    font_out(v) + if v.dead() {
        dead_screen_bytes(f)
    } else {
        screen_bytes(explored_after(f), visibility_of(f))
    }
}

/// The reaction to key `key`: a dead player can only leave (with space);
/// otherwise the key is handled by the options menu when it is open, else
/// by play.
pub open spec fn key_step(v: DungeonView, key: GameKey) -> (DungeonView, TickResult) {
    if v.dead() {
        (v, if key == GameKey::Char(32) {
            TickResult::Quit
        } else {
            TickResult::Continue
        })
    } else if v.options.menu_open {
        options_key(v, key)
    } else {
        play_key(v, key)
    }
}

/// The message shown when the player leaves.
pub open spec fn leave_bytes(key: GameKey) -> Seq<u8> {
    if key == GameKey::Quit {
        "\nLeaving dungeon...\n".spec_bytes()
    } else {
        Seq::empty()
    }
}

/// What the reaction to key `key` writes.
pub open spec fn key_output(v: DungeonView, key: GameKey) -> Seq<u8> {
    if v.dead() {
        Seq::empty()
    } else {
        leave_bytes(key)
    }
}

/// One tick with key `key`: the screen is shown, then the key handled.
pub open spec fn tick_step(v: DungeonView, key: GameKey) -> (DungeonView, TickResult) {
    key_step(shown(v), key)
}

/// What one tick with key `key` writes.
pub open spec fn tick_output(v: DungeonView, key: GameKey) -> Seq<u8> {
    screen_out(v) + key_output(shown(v), key)
}

/// A key of a move small enough to add to the player's position.
pub open spec fn move_fits(v: DungeonView, key: GameKey) -> bool {
    key matches GameKey::Move { dx, dy } ==> i32::MIN <= v.px + dx <= i32::MAX && i32::MIN <= v.py
        + dy <= i32::MAX
}

/// A monster keeps its place and attack when its health changes.
pub proof fn lemma_with_health(m: Monster, hp: int)
    requires
        i32::MIN <= hp <= i32::MAX,
    ensures
        with_health(m, hp).pos_x() == m.pos_x(),
        with_health(m, hp).pos_y() == m.pos_y(),
        with_health(m, hp).strength() == m.strength(),
        with_health(m, hp).health() == hp,
{
}

/// No more monsters are killed than there are.
pub proof fn lemma_dead_count_bound(ms: Seq<Monster>)
    ensures
        dead_count(ms) <= ms.len(),
    decreases ms.len(),
{
    if ms.len() > 0 {
        lemma_dead_count_bound(ms.drop_last());
    }
}

/// Changing one monster changes the number of kills by what changed for it.
pub proof fn lemma_dead_count_update(ms: Seq<Monster>, i: int, m: Monster)
    requires
        0 <= i < ms.len(),
    ensures
        dead_count(ms.update(i, m)) + (if ms[i].alive() {
            0nat
        } else {
            1nat
        }) == dead_count(ms) + (if m.alive() {
            0nat
        } else {
            1nat
        }),
    decreases ms.len(),
{
    let u = ms.update(i, m);
    if i == ms.len() - 1 {
        assert(u.drop_last() =~= ms.drop_last());
    } else {
        lemma_dead_count_update(ms.drop_last(), i, m);
        assert(u.drop_last() =~= ms.drop_last().update(i, m));
    }
}

impl DungeonState {
    /// Sends the font-select escape when the font changed.
    fn apply_options<C: Console + ?Sized>(&mut self, ctx: &mut BTerm<'_, C>)
        ensures
            final(self)@ == after_font(old(self)@),
            final(ctx).output() == old(ctx).output() + font_out(old(self)@),
    {
        proof {
            use_type_invariant(&*self);
        }
        if self.font_dirty {
            ctx.set_font(self.options.font.kernel_index());
            self.font_dirty = false;
        } else {
            assert(ctx.output() =~= old(ctx).output() + font_out(old(self)@));
        }
    }

    fn is_dead(&self) -> (b: bool)
        ensures
            b == self@.dead(),
    {
        self.hit_points <= 0
    }

    /// Loses `amount` hit points, never going below zero.
    fn apply_damage(&mut self, amount: i32)
        requires
            0 <= amount,
        ensures
            final(self)@ == (DungeonView {
                hit_points: if old(self)@.hit_points - amount > 0 {
                    old(self)@.hit_points - amount
                } else {
                    0
                },
                ..old(self)@
            }),
    {
        proof {
            use_type_invariant(&*self);
        }
        let left = self.hit_points - amount;
        self.hit_points = if left > 0 {
            left
        } else {
            0
        };
    }

    /// Strikes monster `monster_index` (nothing happens for an index past
    /// the end).
    /// Strikes monster `monster_index`, when there is one. Only live
    /// monsters are struck: striking a killed one again would count its kill
    /// twice, which no dungeon state allows (`lemma_restrike_counts_twice`).
    fn attack_monster(&mut self, monster_index: usize)
        requires
            monster_index < old(self)@.monsters.len() ==> old(self)@.monsters[monster_index as int].alive(),
        ensures
            final(self)@ == (if monster_index < old(self)@.monsters.len() {
                strike(old(self)@, monster_index as int)
            } else {
                old(self)@
            }),
    {
        proof {
            use_type_invariant(&*self);
        }
        if monster_index >= self.monsters.len() {
            return ;
        }
        let half = self.strength / 2;
        let damage = if half > 1 {
            half
        } else {
            1
        };
        let mut m = self.monsters[monster_index];
        m.hp = m.hp - damage;
        proof {
            lemma_dead_count_update(self@.monsters, monster_index as int, m);
        }
        self.replace_monster(monster_index, m);

        if self.monsters[monster_index].hp <= 0 {
            proof {
                lemma_dead_count_bound(self@.monsters);
            }
            self.xp = self.xp + 10;
        } else {
            let counter_damage = self.monsters[monster_index].attack;
            self.apply_damage(counter_damage);
        }
    }

    /// Puts `m` in place of monster `i`.
    fn replace_monster(&mut self, i: usize, m: Monster)
        requires
            i < old(self)@.monsters.len(),
            state_ok(DungeonView { monsters: old(self)@.monsters.update(i as int, m), ..old(self)@ }),
        ensures
            final(self)@ == (DungeonView { monsters: old(self)@.monsters.update(i as int, m), ..old(self)@ }),
    {
        let mut monsters = self.monsters.clone();
        assert(monsters@ =~= self.monsters@);
        monsters.set(i, m);
        self.monsters = monsters;
    }

    /// Handles a key while the options menu is open.
    fn on_options_key<C: Console + ?Sized>(&mut self, key: GameKey, ctx: &mut BTerm<'_, C>) -> (r: TickResult)
        ensures
            (final(self)@, r) == options_key(old(self)@, key),
            final(ctx).output() == old(ctx).output() + leave_bytes(key),
    {
        proof {
            use_type_invariant(&*self);
        }
        match key {
            GameKey::Quit => {
                ctx.print("\nLeaving dungeon...\n");
                TickResult::Quit
            },
            GameKey::Options => {
                self.options.menu_open = false;
                assert(ctx.output() =~= old(ctx).output() + leave_bytes(key));
                TickResult::Continue
            },
            GameKey::Char(ch) => {
                if ch == 102 || ch == 70 {
                    self.options.font = self.options.font.next();
                    self.font_dirty = true;
                } else if ch == 103 || ch == 71 {
                    self.options.graphical_tiles = !self.options.graphical_tiles;
                } else if ch == 99 || ch == 67 {
                    self.options.color = !self.options.color;
                }
                assert(ctx.output() =~= old(ctx).output() + leave_bytes(key));
                TickResult::Continue
            },
            _ => {
                assert(ctx.output() =~= old(ctx).output() + leave_bytes(key));
                TickResult::Continue
            },
        }
    }
}

/// Striking a monster that was already killed gives ten more experience
/// points for no new kill: when experience counted the kills before, the
/// struck state has more experience than ten points per killed monster,
/// which `state_ok` rules out.
pub proof fn lemma_restrike_counts_twice(v: DungeonView, i: int)
    requires
        state_ok(v),
        v.xp_counts_kills(),
        0 <= i < v.monsters.len(),
        !v.monsters[i].alive(),
    ensures
        strike(v, i).xp == v.xp + 10,
        dead_count(strike(v, i).monsters) == dead_count(v.monsters),
        !state_ok(strike(v, i)),
{
    let m = v.monsters[i];
    let hp = m.health() - player_damage(v);
    lemma_with_health(m, hp);
    lemma_dead_count_update(v.monsters, i, with_health(m, hp));
}

/// The monster found at a cell is alive there.
pub proof fn lemma_slot_found(ms: Seq<Monster>, x: int, y: int, n: int)
    requires
        0 <= n <= ms.len(),
    ensures
        monster_slot(ms, x, y, n) matches Some(i) ==> 0 <= i < n && monster_here(ms[i], x, y),
    decreases n,
{
    if n > 0 {
        lemma_slot_found(ms, x, y, n - 1);
    }
}

/// The visibility of every cell, given cell by cell, is `visibility_of`.
proof fn lemma_visibility_seq(v: DungeonView, vis: Seq<bool>)
    requires
        visibility_ok(v, vis),
    ensures
        vis == visibility_of(v),
{
    assert forall|i: int| 0 <= i < W * H implies #[trigger] vis[i] == visibility_of(v)[i] by {
        crate::tiles::lemma_index_cell(i);
        assert(vis[cell(i % 60, i / 60)] == sees(v, i % 60, i / 60));
    }
    assert(vis =~= visibility_of(v));
}

impl DungeonState {
    /// Whether `(x, y)` is on the map and can be walked on.
    fn is_walkable(&self, x: i32, y: i32) -> (b: bool)
        ensures
            b == walkable_at(self@.tiles, x as int, y as int),
    {
        proof {
            use_type_invariant(self);
        }
        if x < 0 || y < 0 || x >= W as i32 || y >= H as i32 {
            return false;
        }
        let tile = self.tiles[(y as usize) * W + (x as usize)];
        tile == TILE_ROOM || tile == TILE_CORRIDOR || tile == TILE_DOOR
    }
}

impl DungeonState {
    /// The start of a tick: sends a pending font change, then draws the
    /// death screen, or explores what the player sees and draws the map.
    pub fn show<C: Console + ?Sized>(&mut self, ctx: &mut BTerm<'_, C>)
        ensures
            final(self)@ == shown(old(self)@),
            final(ctx).output() == old(ctx).output() + screen_out(old(self)@),
    {
        let ghost v0 = self@;
        let ghost o0 = ctx.output();
        self.apply_options(ctx);
        let ghost f = self@;
        if self.is_dead() {
            self.render_dead(ctx);
            assert(ctx.output() =~= o0 + screen_out(v0));
            return ;
        }
        let visibility = self.compute_visibility();
        proof {
            lemma_visibility_seq(f, visibility@);
        }
        self.update_explored(&visibility);
        assert(self@ == explored_after(f));
        self.render(ctx, &visibility);
        assert(ctx.output() =~= o0 + screen_out(v0));
    }

    /// Reacts to the key `key` after the screen was shown: a dead player
    /// leaves on space; otherwise the options menu, when open, takes the
    /// key, else it moves, attacks, opens the menu or leaves.
    #[verifier::spinoff_prover]
    #[verifier::rlimit(40)]
    pub fn handle_key<C: Console + ?Sized>(&mut self, key: GameKey, ctx: &mut BTerm<'_, C>) -> (r: TickResult)
        requires
            move_fits(old(self)@, key),
        ensures
            (final(self)@, r) == key_step(old(self)@, key),
            final(ctx).output() == old(ctx).output() + key_output(old(self)@, key),
    {
        let ghost p = self@;
        let ghost o0 = ctx.output();
        if self.is_dead() {
            let r = match key {
                GameKey::Char(32) => TickResult::Quit,
                _ => TickResult::Continue,
            };
            assert(ctx.output() =~= o0 + key_output(p, key));
            return r;
        }
        if self.options.menu_open {
            return self.on_options_key(key, ctx);
        }

        let r = match key {
            GameKey::Quit => {
                ctx.print("\nLeaving dungeon...\n");
                TickResult::Quit
            },
            GameKey::Options => {
                proof {
                    use_type_invariant(&*self);
                }
                self.options.menu_open = true;
                TickResult::Continue
            },
            GameKey::Move { dx, dy } => {
                proof {
                    use_type_invariant(&*self);
                }
                let nx = self.px as i32 + dx;
                let ny = self.py as i32 + dy;
                if nx < 0 || ny < 0 || nx >= W as i32 || ny >= H as i32 {
                    TickResult::Continue
                } else {
                    let nx_usize = nx as usize;
                    let ny_usize = ny as usize;

                    match self.find_monster_at(nx_usize, ny_usize) {
                        Some(monster_index) => {
                            proof {
                                lemma_slot_found(p.monsters, nx as int, ny as int, p.monsters.len() as int);
                            }
                            self.attack_monster(monster_index);
                        },
                        None => {
                            if self.is_walkable(nx, ny) {
                                self.px = nx_usize;
                                self.py = ny_usize;
                            }
                        },
                    }
                    TickResult::Continue
                }
            },
            GameKey::Char(_) => TickResult::Continue,
            GameKey::Unknown => TickResult::Continue,
        };
        assert(ctx.output() =~= o0 + key_output(p, key));
        r
    }
}

impl GameState for DungeonState {
    /// Shows the dungeon (or the death screen), waits for a key and
    /// handles it. Whatever key arrives, the new state and the bytes written
    /// are those `tick_step` and `tick_output` give for it.
    fn tick<C: Console + ?Sized>(&mut self, ctx: &mut BTerm<'_, C>) -> (r: TickResult)
        ensures
            exists|key: GameKey|
                {
                    &&& exists|byte: u8| key == key_of(byte)
                    &&& (final(self)@, r) == #[trigger] tick_step(old(self)@, key)
                    &&& final(ctx).output() == old(ctx).output() + tick_output(old(self)@, key)
                },
    {
        let ghost v0 = self@;
        let ghost o0 = ctx.output();
        self.show(ctx);
        let key = ctx.key();
        let ghost kb = choose|byte: u8| key == key_of(byte);
        proof {
            use_type_invariant(&*self);
            crate::input::lemma_moves_are_single_steps(kb);
        }
        let r = self.handle_key(key, ctx);
        assert(key == key_of(kb));
        assert((self@, r) == tick_step(v0, key));
        assert(ctx.output() =~= o0 + tick_output(v0, key));
        r
    }
}

/// The player always stands on a tile that can be walked on: a tick keeps
/// that so.
pub proof fn lemma_tick_keeps_player_on_floor(v: DungeonView, key: GameKey)
    requires
        state_ok(v),
        v.player_on_floor(),
    ensures
        tick_step(v, key).0.player_on_floor(),
{
    let p = explored_after(after_font(v));
    if !v.dead() && !p.options.menu_open {
        if let GameKey::Move { dx, dy } = key {
            let nx = p.px + dx;
            let ny = p.py + dy;
            if in_grid(nx, ny) {
                if let Some(i) = monster_at(p, nx, ny) {
                    assert(strike(p, i).px == p.px);
                }
            }
        }
    }
}

/// Experience is always ten points per monster killed: a tick keeps that so.
pub proof fn lemma_tick_keeps_kill_count(v: DungeonView, key: GameKey)
    requires
        state_ok(v),
        v.xp_counts_kills(),
    ensures
        tick_step(v, key).0.xp_counts_kills(),
{
    let p = explored_after(after_font(v));
    if !v.dead() && !p.options.menu_open {
        if let GameKey::Move { dx, dy } = key {
            let nx = p.px + dx;
            let ny = p.py + dy;
            if in_grid(nx, ny) {
                if let Some(i) = monster_at(p, nx, ny) {
                    lemma_slot_found(p.monsters, nx, ny, p.monsters.len() as int);
                    let m = p.monsters[i];
                    let hp = m.health() - player_damage(p);
                    lemma_with_health(m, hp);
                    lemma_dead_count_update(p.monsters, i, with_health(m, hp));
                }
            }
        }
    }
}

/// The map never changes during play.
pub proof fn lemma_tick_keeps_map(v: DungeonView, key: GameKey)
    ensures
        tick_step(v, key).0.tiles == v.tiles,
{
}

/// The player's hit points never rise.
pub proof fn lemma_tick_health_never_rises(v: DungeonView, key: GameKey)
    requires
        state_ok(v),
    ensures
        tick_step(v, key).0.hit_points <= v.hit_points,
{
    let p = explored_after(after_font(v));
    if !v.dead() && !p.options.menu_open {
        if let GameKey::Move { dx, dy } = key {
            let nx = p.px + dx;
            let ny = p.py + dy;
            if in_grid(nx, ny) {
                if let Some(i) = monster_at(p, nx, ny) {
                    lemma_slot_found(p.monsters, nx, ny, p.monsters.len() as int);
                }
            }
        }
    }
}

/// Explored cells stay explored, and after a tick of a living player every
/// cell the player sees is explored.
pub proof fn lemma_tick_explores(v: DungeonView, key: GameKey)
    requires
        state_ok(v),
    ensures
        forall|i: int| 0 <= i < W * H && v.explored[i] ==> #[trigger] tick_step(v, key).0.explored[i],
        !v.dead() ==> forall|x: int, y: int|
            in_grid(x, y) && sees(v, x, y) ==> #[trigger] tick_step(v, key).0.explored[cell(x, y)],
{
    let f = after_font(v);
    assert forall|x: int, y: int| in_grid(x, y) implies sees(f, x, y) == sees(v, x, y) by {}
    assert forall|x: int, y: int| in_grid(x, y) implies #[trigger] cell(x, y) % 60 == x && cell(x, y) / 60 == y by {}
}

/// The player walks on room floor `.`, corridors `,` and doors `+`, and on
/// nothing else.
pub proof fn lemma_walkable_tiles(tile: u8)
    ensures
        walkable_tile(tile) <==> (tile == 46 || tile == 44 || tile == 43),
        walkable_tile(tile) <==> floor_byte(tile),
{
}

/// A living player outside the options menu who steps towards a cell on the
/// map that holds no live monster moves onto it when it is room floor, a
/// corridor or a door (so a door next to a room leads out of it), and stays
/// put when it is a wall or solid rock.
pub proof fn lemma_tick_step_onto(v: DungeonView, dx: i32, dy: i32)
    requires
        !v.dead(),
        !v.options.menu_open,
        in_grid(v.px + dx, v.py + dy),
        monster_at(v, v.px + dx, v.py + dy) is None,
    ensures
        floor_byte(tile_at(v.tiles, v.px + dx, v.py + dy)) ==> {
            &&& tick_step(v, GameKey::Move { dx, dy }).0.px == v.px + dx
            &&& tick_step(v, GameKey::Move { dx, dy }).0.py == v.py + dy
        },
        tile_at(v.tiles, v.px + dx, v.py + dy) == 35 || tile_at(v.tiles, v.px + dx, v.py + dy) == 32
            ==> {
            &&& tick_step(v, GameKey::Move { dx, dy }).0.px == v.px
            &&& tick_step(v, GameKey::Move { dx, dy }).0.py == v.py
        },
        tick_step(v, GameKey::Move { dx, dy }).1 == TickResult::Continue,
{
}

/// The game ends exactly when a living player presses `q` (or Ctrl-C,
/// Ctrl-D), or a dead player presses space.
pub proof fn lemma_tick_quits(v: DungeonView, key: GameKey)
    ensures
        (tick_step(v, key).1 == TickResult::Quit) == ((!v.dead() && key == GameKey::Quit) || (v.dead()
            && key == GameKey::Char(32))),
{
}

/// A key press moves the player by at most one cell along each axis, and
/// only a living player moves.
pub proof fn lemma_tick_single_step(v: DungeonView, byte: u8)
    requires
        state_ok(v),
    ensures
        abs_int(tick_step(v, key_of(byte)).0.px - v.px) <= 1,
        abs_int(tick_step(v, key_of(byte)).0.py - v.py) <= 1,
        v.dead() ==> tick_step(v, key_of(byte)).0.px == v.px && tick_step(v, key_of(byte)).0.py == v.py,
{
    crate::input::lemma_moves_are_single_steps(byte);
    let key = key_of(byte);
    let p = explored_after(after_font(v));
    if !v.dead() && !p.options.menu_open {
        if let GameKey::Move { dx, dy } = key {
            let nx = p.px + dx;
            let ny = p.py + dy;
            if in_grid(nx, ny) {
                if let Some(i) = monster_at(p, nx, ny) {
                    assert(strike(p, i).px == p.px);
                    assert(strike(p, i).py == p.py);
                }
            }
        }
    }
}

/// Pressing `f` three times in the options menu brings back the font it
/// started with.
pub proof fn lemma_font_cycle(f: FontChoice)
    ensures
        next_font(next_font(next_font(f))) == f,
        next_font(f) != f,
{
}

/// In the options menu, the graphics, colour and font keys change only the
/// display options (and the pending font), and pressing `g` twice, or `c`
/// twice, gives back the options the menu was opened with.
pub proof fn lemma_options_toggle_twice(v: DungeonView, ch: u8)
    requires
        !v.dead(),
        v.options.menu_open,
        ch == 103 || ch == 71 || ch == 99 || ch == 67,
    ensures
        tick_step(tick_step(v, GameKey::Char(ch)).0, GameKey::Char(ch)).0.options == v.options,
        tick_step(v, GameKey::Char(ch)).0.options != v.options,
        tick_step(v, GameKey::Char(ch)).1 == TickResult::Continue,
{
}

/// Opening the options menu and closing it again leaves the display
/// options as they were.
pub proof fn lemma_options_open_close(v: DungeonView)
    requires
        !v.dead(),
        !v.options.menu_open,
    ensures
        tick_step(v, GameKey::Options).0.options.menu_open,
        tick_step(tick_step(v, GameKey::Options).0, GameKey::Options).0.options == v.options,
{
}

} // verus!
