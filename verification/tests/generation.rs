use riscvrogue::dungeon::spawn_monsters;
use riscvrogue::generate::{carve_room_link, generate_nethackish_rooms, overlaps_any};
use riscvrogue::line::bresenham_line;
use riscvrogue::links::{
    all_rooms_connected, grid_edges, has_link, nearest_apart_pair, plan_room_links, shuffle_edges,
};
use riscvrogue::rng::{range_from_u32, rand_range_i32, DungeonRng};
use riscvrogue::room::{abs_i32, carve_room, door_for, room_center_distance, Room};
use riscvrogue::tiles::{
    add_walls_around_open_tiles, carve_h_tunnel, carve_v_tunnel, set_corridor_floor,
    set_door_tile, set_room_floor, H, TILE_CORRIDOR, TILE_DOOR, TILE_ROCK, TILE_ROOM, TILE_WALL, W,
};
use riscvrogue::union_find::UnionFind;

fn at(t: &[u8], x: usize, y: usize) -> u8 {
    t[y * W + x]
}

fn rock() -> Vec<u8> {
    vec![TILE_ROCK; W * H]
}

fn in_room(r: &Room, x: i32, y: i32) -> bool {
    r.x1 < x && x < r.x2 && r.y1 < y && y < r.y2
}

fn connected(links: &[(usize, usize)], n: usize) -> bool {
    let mut seen = vec![false; n];
    let mut stack = vec![0usize];
    seen[0] = true;
    while let Some(a) = stack.pop() {
        for &(x, y) in links {
            for (from, to) in [(x, y), (y, x)] {
                if from == a && !seen[to] {
                    seen[to] = true;
                    stack.push(to);
                }
            }
        }
    }
    seen.iter().all(|&s| s)
}

#[test]
fn bresenham_examples() {
    assert_eq!(bresenham_line(0, 0, 3, 1), vec![(0, 0), (1, 0), (2, 1), (3, 1)]);
    assert_eq!(bresenham_line(2, 2, -1, 5), vec![(2, 2), (1, 3), (0, 4), (-1, 5)]);
    assert_eq!(bresenham_line(5, 5, 5, 5), vec![(5, 5)]);
    assert_eq!(bresenham_line(0, 0, 1, 4), vec![(0, 0), (0, 1), (1, 2), (1, 3), (1, 4)]);
}

#[test]
fn bresenham_lines_are_connected_steps() {
    for (x0, y0, x1, y1) in [(0, 0, 7, 3), (9, 1, -4, 6), (3, 8, 3, -2), (-5, -5, 5, 5)] {
        let pts = bresenham_line(x0, y0, x1, y1);
        assert_eq!(pts[0], (x0, y0));
        assert_eq!(*pts.last().unwrap(), (x1, y1));
        assert_eq!(pts.len() as i32, (x1 - x0).abs().max((y1 - y0).abs()) + 1);
        for w in pts.windows(2) {
            assert!((w[1].0 - w[0].0).abs() <= 1 && (w[1].1 - w[0].1).abs() <= 1);
            assert_ne!(w[0], w[1]);
        }
    }
}

#[test]
fn union_find_merges_sets() {
    let mut uf = UnionFind::new(5);
    assert!(uf.union(0, 1));
    assert!(uf.union(3, 4));
    assert!(!uf.union(1, 0));
    assert_eq!(uf.find(0), uf.find(1));
    assert_ne!(uf.find(0), uf.find(3));
    assert!(!all_rooms_connected(&mut uf, 5));
    assert!(all_rooms_connected(&mut uf, 2));
    assert!(uf.union(1, 4));
    assert!(uf.union(2, 3));
    assert!(!uf.union(0, 2));
    assert!(all_rooms_connected(&mut uf, 5));
    let root = uf.find(4);
    for i in 0..5 {
        assert_eq!(uf.find(i), root);
    }
}

#[test]
fn random_ranges() {
    assert_eq!(range_from_u32(7, 3, 5), 4);
    assert_eq!(range_from_u32(u32::MAX, -10, 10), -10 + (u32::MAX % 20) as i32);
    let mut a = DungeonRng::seed_from_u64(42);
    let mut b = DungeonRng::seed_from_u64(42);
    for _ in 0..100 {
        let v = rand_range_i32(&mut a, -3, 4);
        assert!((-3..4).contains(&v));
        assert_eq!(v, rand_range_i32(&mut b, -3, 4));
    }
    // xoshiro256++ seeded through SplitMix64, upper 32 bits of each output.
    let mut c = DungeonRng::seed_from_u64(42);
    let picks: Vec<i32> = (0..5).map(|_| rand_range_i32(&mut c, 0, 1000)).collect();
    assert_eq!(picks, vec![967, 940, 275, 464, 832]);
    let mut d = DungeonRng::seed_from_u64(42);
    let small: Vec<i32> = (0..5).map(|_| rand_range_i32(&mut d, -3, 4)).collect();
    assert_eq!(small, vec![2, 0, 1, 3, -3]);
    assert_eq!(abs_i32(-5), 5);
    assert_eq!(abs_i32(6), 6);
}

#[test]
fn room_geometry() {
    let a = Room::new(2, 3, 6, 4);
    assert_eq!((a.x1, a.y1, a.x2, a.y2), (2, 3, 8, 7));
    assert_eq!(a.center(), (5, 5));
    let b = Room::new(9, 3, 4, 4);
    assert!(a.intersects_with_gap(&b, 1));
    assert!(!a.intersects_with_gap(&b, 0));
    let c = Room::new(10, 3, 4, 4);
    assert!(!a.intersects_with_gap(&c, 1));
    assert_eq!(room_center_distance(&a, &c), 7);
    let rooms = vec![a, c];
    assert!(overlaps_any(&rooms, &b));
    assert!(!overlaps_any(&rooms, &Room::new(20, 20, 4, 4)));
}

#[test]
fn tile_edits_respect_the_border() {
    let mut t = rock();
    set_room_floor(&mut t, 0, 5);
    set_room_floor(&mut t, 5, (H - 1) as i32);
    set_corridor_floor(&mut t, -1, 3);
    assert_eq!(t, rock());
    set_room_floor(&mut t, 1, 1);
    assert_eq!(at(&t, 1, 1), TILE_ROOM);
    // Corridor only replaces rock; doors replace rock and wall.
    set_corridor_floor(&mut t, 1, 1);
    assert_eq!(at(&t, 1, 1), TILE_ROOM);
    set_door_tile(&mut t, 1, 1);
    assert_eq!(at(&t, 1, 1), TILE_ROOM);
    set_door_tile(&mut t, 2, 1);
    assert_eq!(at(&t, 2, 1), TILE_DOOR);
    carve_h_tunnel(&mut t, 6, 3, 4);
    for x in 3..=6 {
        assert_eq!(at(&t, x, 4), TILE_CORRIDOR);
    }
    assert_eq!(at(&t, 7, 4), TILE_ROCK);
    carve_v_tunnel(&mut t, 27, 40, 10);
    for y in 27..=28 {
        assert_eq!(at(&t, 10, y), TILE_CORRIDOR);
    }
    assert_eq!(at(&t, 10, 29), TILE_ROCK);
}

#[test]
fn rooms_get_walls() {
    let mut t = rock();
    let room = Room::new(3, 3, 4, 3);
    carve_room(&mut t, &room);
    for y in 0..H {
        for x in 0..W {
            let inside = in_room(&room, x as i32, y as i32);
            assert_eq!(at(&t, x, y) == TILE_ROOM, inside);
        }
    }
    add_walls_around_open_tiles(&mut t);
    for y in 0..H {
        for x in 0..W {
            let inside = in_room(&room, x as i32, y as i32);
            let ring = (3..=7).contains(&x) && (3..=6).contains(&y) && !inside;
            let want = if inside {
                TILE_ROOM
            } else if ring {
                TILE_WALL
            } else {
                TILE_ROCK
            };
            assert_eq!(at(&t, x, y), want, "at {x},{y}");
        }
    }
}

#[test]
fn room_link_has_two_doors() {
    let a = Room::new(3, 3, 5, 4);
    let b = Room::new(30, 15, 6, 5);
    let mut t = rock();
    carve_room(&mut t, &a);
    carve_room(&mut t, &b);
    let mut rng = DungeonRng::seed_from_u64(9);
    carve_room_link(&mut t, &a, &b, &mut rng);
    let doors = t.iter().filter(|&&c| c == TILE_DOOR).count();
    assert_eq!(doors, 2);
    assert!(t.iter().any(|&c| c == TILE_CORRIDOR));
    // Room floor is untouched.
    for y in 0..H {
        for x in 0..W {
            if in_room(&a, x as i32, y as i32) || in_room(&b, x as i32, y as i32) {
                assert_eq!(at(&t, x, y), TILE_ROOM);
            }
        }
    }
}

#[test]
fn shuffle_keeps_the_edges() {
    let mut edges = vec![(0, 1), (1, 2), (2, 3), (3, 4), (4, 5), (0, 2)];
    let mut rng = DungeonRng::seed_from_u64(3);
    shuffle_edges(&mut edges, &mut rng);
    let mut sorted = edges.clone();
    sorted.sort();
    assert_eq!(sorted, vec![(0, 1), (0, 2), (1, 2), (2, 3), (3, 4), (4, 5)]);
    let mut again = vec![(0, 1), (1, 2), (2, 3), (3, 4), (4, 5), (0, 2)];
    let mut rng2 = DungeonRng::seed_from_u64(3);
    shuffle_edges(&mut again, &mut rng2);
    assert_eq!(again, edges);
    let mut empty: Vec<(usize, usize)> = Vec::new();
    shuffle_edges(&mut empty, &mut rng);
    assert!(empty.is_empty());
}

#[test]
fn grid_neighbours() {
    let slots = vec![Some(0), Some(1), None, None, Some(2), Some(3), Some(4), None, Some(5)];
    let edges = grid_edges(&slots, 6);
    assert_eq!(edges, vec![(0, 1), (1, 2), (2, 3), (3, 5)]);
    assert!(has_link(&edges, 5, 3));
    assert!(!has_link(&edges, 0, 2));
}

#[test]
fn nearest_pair_between_groups() {
    let rooms = vec![
        Room::new(1, 1, 4, 4),
        Room::new(10, 1, 4, 4),
        Room::new(40, 20, 4, 4),
        Room::new(50, 20, 4, 4),
    ];
    let mut uf = UnionFind::new(4);
    uf.union(0, 1);
    uf.union(2, 3);
    let best = nearest_apart_pair(&mut uf, &rooms);
    assert_eq!(best, Some((1, 2, room_center_distance(&rooms[1], &rooms[2]))));
    uf.union(1, 2);
    assert_eq!(nearest_apart_pair(&mut uf, &rooms), None);
}

#[test]
fn planned_links_connect_every_room() {
    // Rooms in the corners only: the grid gives no neighbours at all, so
    // every link comes from bridging the nearest rooms.
    let rooms = vec![
        Room::new(2, 2, 5, 4),
        Room::new(45, 2, 5, 4),
        Room::new(2, 22, 5, 4),
        Room::new(45, 22, 5, 4),
    ];
    let slots = vec![Some(0), None, Some(1), None, None, None, Some(2), None, Some(3)];
    for seed in 0..20u64 {
        let mut rng = DungeonRng::seed_from_u64(seed);
        let used = plan_room_links(&rooms, &slots, &mut rng);
        assert_eq!(used.len(), 3);
        assert!(connected(&used, rooms.len()));
    }
}

#[test]
fn generated_dungeons_keep_their_promises() {
    for seed in 0..60u64 {
        let mut t = rock();
        let mut rng = DungeonRng::seed_from_u64(seed);
        let rooms = generate_nethackish_rooms(&mut t, &mut rng);
        assert!(!rooms.is_empty() && rooms.len() <= 9);
        for (i, a) in rooms.iter().enumerate() {
            assert!(a.x1 >= 0 && a.x1 + 2 <= a.x2 && a.x2 <= (W - 1) as i32);
            assert!(a.y1 >= 0 && a.y1 + 2 <= a.y2 && a.y2 <= (H - 1) as i32);
            for (j, b) in rooms.iter().enumerate() {
                if i != j {
                    assert!(!a.intersects_with_gap(b, 1), "seed {seed}: rooms {i} and {j} touch");
                }
            }
            for y in (a.y1 + 1)..a.y2 {
                for x in (a.x1 + 1)..a.x2 {
                    assert_eq!(at(&t, x as usize, y as usize), TILE_ROOM);
                }
            }
        }
        // Same seed, same dungeon.
        let mut t2 = rock();
        let mut rng2 = DungeonRng::seed_from_u64(seed);
        let rooms2 = generate_nethackish_rooms(&mut t2, &mut rng2);
        assert_eq!(t, t2);
        assert_eq!(rooms.len(), rooms2.len());
    }
}

#[test]
fn monsters_spawn_at_most_one_per_room() {
    let rooms = vec![Room::new(2, 2, 5, 4), Room::new(20, 10, 6, 6), Room::new(40, 3, 4, 3)];
    for seed in 0..30u64 {
        let mut rng = DungeonRng::seed_from_u64(seed);
        let monsters = spawn_monsters(&rooms, &mut rng);
        assert!(monsters.len() <= rooms.len());
        let mut rng2 = DungeonRng::seed_from_u64(seed);
        assert_eq!(spawn_monsters(&rooms, &mut rng2).len(), monsters.len());
    }
}

#[test]
fn doors_face_the_target() {
    let a = Room::new(2, 2, 6, 4);
    // Target to the right: a door on the east wall, row picked by the value.
    let right = Room::new(30, 3, 4, 4);
    let d = door_for(&a, &right, 7);
    assert_eq!((d.wall_x, d.wall_y, d.out_dx, d.out_dy), (8, 3 + 7 % 3, 1, 0));
    // Target below: a door on the south wall, column picked by the value.
    let below = Room::new(3, 20, 4, 4);
    let d = door_for(&a, &below, 11);
    assert_eq!((d.wall_x, d.wall_y, d.out_dx, d.out_dy), (3 + 11 % 5, 6, 0, 1));
    // Target to the left: the west wall.
    let left = Room::new(-30, 2, 4, 4);
    let d = door_for(&a, &left, 0);
    assert_eq!((d.wall_x, d.wall_y, d.out_dx, d.out_dy), (2, 3, -1, 0));
}

/// Which rooms of the dungeon made from `seed` can be walked to (in eight
/// directions, over floor, corridor and doors) from the centre of the first.
fn reachable_rooms(seed: u64) -> Vec<bool> {
    let mut t = rock();
    let mut rng = DungeonRng::seed_from_u64(seed);
    let rooms = generate_nethackish_rooms(&mut t, &mut rng);
    add_walls_around_open_tiles(&mut t);
    let (sx, sy) = rooms[0].center();
    let mut seen = vec![false; W * H];
    let mut stack = vec![(sx as usize, sy as usize)];
    seen[sy as usize * W + sx as usize] = true;
    while let Some((x, y)) = stack.pop() {
        for dy in -1i32..=1 {
            for dx in -1i32..=1 {
                let nx = x as i32 + dx;
                let ny = y as i32 + dy;
                if nx < 0 || ny < 0 || nx >= W as i32 || ny >= H as i32 {
                    continue;
                }
                let i = ny as usize * W + nx as usize;
                if !seen[i] && matches!(t[i], TILE_ROOM | TILE_CORRIDOR | TILE_DOOR) {
                    seen[i] = true;
                    stack.push((nx as usize, ny as usize));
                }
            }
        }
    }
    rooms
        .iter()
        .map(|r| {
            let (cx, cy) = r.center();
            seen[cy as usize * W + cx as usize]
        })
        .collect()
}

#[test]
fn carved_corridors_usually_reach_every_room() {
    for seed in 0..300u64 {
        assert!(reachable_rooms(seed).iter().all(|&r| r), "seed {seed}");
    }
}

#[test]
fn carved_corridors_can_miss_a_room() {
    // The link plan joins every room, yet the corridors carved along it
    // leave one room of this dungeon cut off from the first.
    let reach = reachable_rooms(4277);
    assert!(!reach[5]);
    assert!(reach[0]);
}
