//! Choosing which rooms get corridors between them, so that every room can
//! be reached from every other.
use vstd::prelude::*;
use crate::rng::{DungeonRng, next_draw, advanced};
use crate::room::{Room, room_small, center_distance, room_center_distance};
use crate::union_find::UnionFind;

verus! {

broadcast use vstd::seq_lib::group_to_multiset_ensures;

/// Width of the grid of room slots.
pub const GRID_W: usize = 3;

/// Height of the grid of room slots.
pub const GRID_H: usize = 3;

/// Rooms `i` and `j` are connected through the undirected links `links`:
/// the equivalence that the links generate, built up one link at a time.
pub open spec fn joined(links: Seq<(usize, usize)>, i: int, j: int) -> bool
    decreases links.len(),
{
    if links.len() == 0 {
        i == j
    } else {
        let rest = links.drop_last();
        let a = links.last().0 as int;
        let b = links.last().1 as int;
        ||| joined(rest, i, j)
        ||| (joined(rest, i, a) && joined(rest, j, b))
        ||| (joined(rest, i, b) && joined(rest, j, a))
    }
}

/// Every two of the rooms `0..n` are connected through `links`.
pub open spec fn all_joined(links: Seq<(usize, usize)>, n: int) -> bool {
    forall|i: int, j: int| 0 <= i < n && 0 <= j < n ==> #[trigger] joined(links, i, j)
}

/// Every link joins two of the rooms `0..n`.
pub open spec fn links_in_range(links: Seq<(usize, usize)>, n: int) -> bool {
    forall|k: int| 0 <= k < links.len() ==> (#[trigger] links[k]).0 < n && links[k].1 < n
}

/// Adding a link never disconnects rooms.
pub proof fn lemma_joined_push(links: Seq<(usize, usize)>, e: (usize, usize), i: int, j: int)
    requires
        joined(links, i, j),
    ensures
        joined(links.push(e), i, j),
{
    assert(links.push(e).drop_last() == links);
}

/// Once all rooms are connected, extra links keep them connected.
pub proof fn lemma_all_joined_push(links: Seq<(usize, usize)>, e: (usize, usize), n: int)
    requires
        all_joined(links, n),
    ensures
        all_joined(links.push(e), n),
{
    assert forall|i: int, j: int| 0 <= i < n && 0 <= j < n implies #[trigger] joined(
        links.push(e),
        i,
        j,
    ) by {
        lemma_joined_push(links, e, i, j);
    }
}

/// The union-find structure groups rooms exactly as `links` connects them.
pub open spec fn tracks(uf: UnionFind, links: Seq<(usize, usize)>, n: int) -> bool {
    &&& uf.wf()
    &&& uf.len() == n
    &&& forall|i: int, j: int| 0 <= i < n && 0 <= j < n ==> (#[trigger] uf.same(i, j) <==> joined(links, i, j))
}

/// Whether all rooms `0..room_count` are in one set.
pub fn all_rooms_connected(uf: &mut UnionFind, room_count: usize) -> (connected: bool)
    requires
        old(uf).wf(),
        room_count <= old(uf).len(),
    ensures
        final(uf).wf(),
        final(uf).len() == old(uf).len(),
        forall|i: int| 0 <= i < old(uf).len() ==> #[trigger] final(uf).root(i) == old(uf).root(i),
        final(uf).num_sets() == old(uf).num_sets(),
        connected == (forall|i: int| 0 <= i < room_count ==> #[trigger] old(uf).same(i, 0)),
{
    let ghost orig = *uf;
    if room_count <= 1 {
        assert forall|i: int| 0 <= i < room_count implies #[trigger] orig.same(i, 0) by {
            assert(i == 0);
        }
        return true;
    }
    let root0 = uf.find(0);
    let mut index: usize = 1;
    while index < room_count
        invariant
            1 <= index <= room_count,
            room_count <= orig.len(),
            orig == *old(uf),
            uf.wf(),
            uf.len() == orig.len(),
            forall|i: int| 0 <= i < orig.len() ==> #[trigger] uf.root(i) == orig.root(i),
            uf.num_sets() == orig.num_sets(),
            root0 == orig.root(0),
            forall|i: int| 0 <= i < index ==> #[trigger] orig.same(i, 0),
        decreases room_count - index,
    {
        if uf.find(index) != root0 {
            assert(!orig.same(index as int, 0));
            return false;
        }
        index = index + 1;
    }
    true
}

/// Fisher-Yates from position `i` down to position 1: position `i` swaps
/// with the position that the next draw picks among `0..=i`.
pub open spec fn shuffled_from(s: Seq<(usize, usize)>, i: int, r: (u64, nat)) -> Seq<(usize, usize)>
    decreases i,
{
    if i < 1 {
        s
    } else {
        let j = (next_draw(r) as int) % (i + 1);
        shuffled_from(s.update(i, s[j]).update(j, s[i]), i - 1, advanced(r, 1))
    }
}

/// `s` shuffled with the draws of `r`.
pub open spec fn shuffled(s: Seq<(usize, usize)>, r: (u64, nat)) -> Seq<(usize, usize)> {
    shuffled_from(s, s.len() - 1, r)
}

/// The number of draws a shuffle of `len` items takes.
pub open spec fn shuffle_draws(len: nat) -> nat {
    if len > 0 {
        (len - 1) as nat
    } else {
        0
    }
}

/// Puts `edges` in a random order (Fisher-Yates, one draw per position).
pub fn shuffle_edges(edges: &mut Vec<(usize, usize)>, rng: &mut DungeonRng)
    ensures
        final(edges)@ == shuffled(old(edges)@, old(rng)@),
        final(edges)@.to_multiset() == old(edges)@.to_multiset(),
        final(edges)@.len() == old(edges)@.len(),
        final(rng)@ == advanced(old(rng)@, shuffle_draws(old(edges)@.len())),
{
    let len = edges.len();
    if len == 0 {
        return ;
    }
    let mut i = len - 1;
    while i >= 1
        invariant
            i < len,
            edges@.len() == len,
            edges@.to_multiset() == old(edges)@.to_multiset(),
            rng@ == advanced(old(rng)@, (len - 1 - i) as nat),
            shuffled_from(edges@, i as int, rng@) == shuffled(old(edges)@, old(rng)@),
        decreases i,
    {
        let ghost r = rng@;
        let j = (rng.next_u32() as usize) % (i + 1);
        assert(j as int == (next_draw(r) as int) % (i + 1));
        let a = edges[i];
        let b = edges[j];
        let ghost s = edges@;
        edges.set(i, b);
        edges.set(j, a);
        proof {
            let s1 = s.update(i as int, b);
            assert(s1.to_multiset() == s.to_multiset().insert(b).remove(a));
            assert(edges@ == s1.update(j as int, a));
            assert(edges@.to_multiset() == s1.to_multiset().insert(a).remove(s1[j as int]));
            assert(s1[j as int] == b);
            assert(s.to_multiset().insert(b).remove(a).insert(a).remove(b) =~= s.to_multiset()) by {
                broadcast use vstd::multiset::group_multiset_axioms;
                assert(s.to_multiset().count(a) > 0);
                assert(s.to_multiset().count(b) > 0);
            }
        }
        i = i - 1;
    }
}

/// A pair of rooms `a < b` that lie in different sets, with the distance of
/// their centres.
pub open spec fn apart_pair(uf: UnionFind, n: int, a: int, b: int) -> bool {
    0 <= a < b < n && !uf.same(a, b)
}

/// `(a, b)` comes before `(c, d)` in the order in which pairs are searched.
pub open spec fn pair_before(a: int, b: int, c: int, d: int) -> bool {
    a < c || (a == c && b < d)
}

/// The pair of rooms from different sets whose centres are closest, the
/// first such pair in search order among equally close ones; `None` when
/// all rooms are in one set.
pub fn nearest_apart_pair(uf: &mut UnionFind, rooms: &Vec<Room>) -> (best: Option<(usize, usize, i32)>)
    requires
        old(uf).wf(),
        old(uf).len() == rooms@.len(),
        forall|k: int| 0 <= k < rooms@.len() ==> room_small(#[trigger] rooms@[k]),
    ensures
        final(uf).wf(),
        final(uf).len() == old(uf).len(),
        forall|i: int| 0 <= i < old(uf).len() ==> #[trigger] final(uf).root(i) == old(uf).root(i),
        final(uf).num_sets() == old(uf).num_sets(),
        match best {
            None => forall|a: int, b: int| !#[trigger] apart_pair(*old(uf), rooms@.len() as int, a, b),
            Some((a, b, d)) => {
                &&& apart_pair(*old(uf), rooms@.len() as int, a as int, b as int)
                &&& d == center_distance(rooms@[a as int], rooms@[b as int])
                &&& forall|c: int, e: int|
                    #[trigger] apart_pair(*old(uf), rooms@.len() as int, c, e) ==> d
                        <= center_distance(rooms@[c], rooms@[e])
                &&& forall|c: int, e: int|
                    #[trigger] apart_pair(*old(uf), rooms@.len() as int, c, e) && pair_before(
                        c,
                        e,
                        a as int,
                        b as int,
                    ) ==> d < center_distance(rooms@[c], rooms@[e])
            },
        },
{
    let ghost orig = *uf;
    let n = rooms.len();
    let mut best_pair: Option<(usize, usize, i32)> = None;
    let mut a: usize = 0;
    while a < n
        invariant
            a <= n,
            n == rooms@.len(),
            orig.len() == n,
            forall|k: int| 0 <= k < n ==> room_small(#[trigger] rooms@[k]),
            uf.wf(),
            uf.len() == orig.len(),
            forall|i: int| 0 <= i < orig.len() ==> #[trigger] uf.root(i) == orig.root(i),
            uf.num_sets() == orig.num_sets(),
            match best_pair {
                None => forall|c: int, e: int|
                    #[trigger] apart_pair(orig, n as int, c, e) ==> !pair_before(c, e, a as int, 0),
                Some((pa, pb, d)) => {
                    &&& apart_pair(orig, n as int, pa as int, pb as int)
                    &&& pair_before(pa as int, pb as int, a as int, 0)
                    &&& d == center_distance(rooms@[pa as int], rooms@[pb as int])
                    &&& forall|c: int, e: int|
                        #[trigger] apart_pair(orig, n as int, c, e) && pair_before(c, e, a as int, 0)
                            ==> d <= center_distance(rooms@[c], rooms@[e])
                    &&& forall|c: int, e: int|
                        #[trigger] apart_pair(orig, n as int, c, e) && pair_before(
                            c,
                            e,
                            pa as int,
                            pb as int,
                        ) ==> d < center_distance(rooms@[c], rooms@[e])
                },
            },
        decreases n - a,
    {
        let mut b: usize = a + 1;
        while b < n
            invariant
                a < n,
                a + 1 <= b <= n,
                n == rooms@.len(),
                orig.len() == n,
                forall|k: int| 0 <= k < n ==> room_small(#[trigger] rooms@[k]),
                uf.wf(),
                uf.len() == orig.len(),
                forall|i: int| 0 <= i < orig.len() ==> #[trigger] uf.root(i) == orig.root(i),
                uf.num_sets() == orig.num_sets(),
                match best_pair {
                    None => forall|c: int, e: int|
                        #[trigger] apart_pair(orig, n as int, c, e) ==> !pair_before(
                            c,
                            e,
                            a as int,
                            b as int,
                        ),
                    Some((pa, pb, d)) => {
                        &&& apart_pair(orig, n as int, pa as int, pb as int)
                        &&& pair_before(pa as int, pb as int, a as int, b as int)
                        &&& d == center_distance(rooms@[pa as int], rooms@[pb as int])
                        &&& forall|c: int, e: int|
                            #[trigger] apart_pair(orig, n as int, c, e) && pair_before(
                                c,
                                e,
                                a as int,
                                b as int,
                            ) ==> d <= center_distance(rooms@[c], rooms@[e])
                        &&& forall|c: int, e: int|
                            #[trigger] apart_pair(orig, n as int, c, e) && pair_before(
                                c,
                                e,
                                pa as int,
                                pb as int,
                            ) ==> d < center_distance(rooms@[c], rooms@[e])
                    },
                },
            decreases n - b,
        {
            let ra = uf.find(a);
            let rb = uf.find(b);
            if ra == rb {
                b = b + 1;
                continue;
            }
            let distance = room_center_distance(&rooms[a], &rooms[b]);
            match best_pair {
                Some((_, _, best_distance)) if distance >= best_distance => {},
                _ => best_pair = Some((a, b, distance)),
            }
            b = b + 1;
        }
        a = a + 1;
    }
    best_pair
}

/// Whether `used` already holds the link between `a` and `b`, in either
/// direction.
pub fn has_link(used: &Vec<(usize, usize)>, a: usize, b: usize) -> (found: bool)
    ensures
        found == exists|k: int|
            0 <= k < used@.len() && ((#[trigger] used@[k] == (a, b)) || used@[k] == (b, a)),
{
    let mut k: usize = 0;
    while k < used.len()
        invariant
            k <= used@.len(),
            forall|j: int| 0 <= j < k ==> !((#[trigger] used@[j] == (a, b)) || used@[j] == (b, a)),
        decreases used@.len() - k,
    {
        let (x, y) = used[k];
        if (x == a && y == b) || (x == b && y == a) {
            assert(used@[k as int] == (a, b) || used@[k as int] == (b, a));
            return true;
        }
        k = k + 1;
    }
    false
}

/// The links that slot `idx` of the room grid contributes: to the slot on
/// its right, then to the slot below, where both slots hold rooms.
pub open spec fn slot_edges(slots: Seq<Option<usize>>, idx: int) -> Seq<(usize, usize)> {
    let gx = idx % (GRID_W as int);
    let gy = idx / (GRID_W as int);
    match slots[idx] {
        None => Seq::empty(),
        Some(a) => {
            let right = if gx + 1 < GRID_W {
                match slots[idx + 1] {
                    Some(b) => seq![(a, b)],
                    None => Seq::empty(),
                }
            } else {
                Seq::empty()
            };
            let down = if gy + 1 < GRID_H {
                match slots[idx + GRID_W as int] {
                    Some(b) => seq![(a, b)],
                    None => Seq::empty(),
                }
            } else {
                Seq::empty()
            };
            right + down
        },
    }
}

/// The links of the first `k` slots of the room grid, slot by slot.
pub open spec fn grid_edge_list(slots: Seq<Option<usize>>, k: nat) -> Seq<(usize, usize)>
    decreases k,
{
    if k == 0 {
        Seq::empty()
    } else {
        grid_edge_list(slots, (k - 1) as nat) + slot_edges(slots, k - 1)
    }
}

/// The links between rooms in neighbouring slots of the room grid: each
/// occupied slot with the slot to its right and the slot below it.
pub fn grid_edges(grid_slots: &Vec<Option<usize>>, room_count: usize) -> (edges: Vec<(usize, usize)>)
    requires
        grid_slots@.len() == GRID_W * GRID_H,
        forall|k: int|
            0 <= k < grid_slots@.len() ==> (#[trigger] grid_slots@[k] matches Some(i) ==> i
                < room_count),
    ensures
        edges@ == grid_edge_list(grid_slots@, (GRID_W * GRID_H) as nat),
        links_in_range(edges@, room_count as int),
{
    let mut edges: Vec<(usize, usize)> = Vec::new();
    let mut gy: usize = 0;
    while gy < GRID_H
        invariant
            gy <= GRID_H,
            grid_slots@.len() == GRID_W * GRID_H,
            forall|k: int|
                0 <= k < grid_slots@.len() ==> (#[trigger] grid_slots@[k] matches Some(i) ==> i
                    < room_count),
            links_in_range(edges@, room_count as int),
            edges@ == grid_edge_list(grid_slots@, (gy * GRID_W) as nat),
        decreases GRID_H - gy,
    {
        let mut gx: usize = 0;
        while gx < GRID_W
            invariant
                gy < GRID_H,
                gx <= GRID_W,
                grid_slots@.len() == GRID_W * GRID_H,
                forall|k: int|
                    0 <= k < grid_slots@.len() ==> (#[trigger] grid_slots@[k] matches Some(i) ==> i
                        < room_count),
                links_in_range(edges@, room_count as int),
                edges@ == grid_edge_list(grid_slots@, (gy * GRID_W + gx) as nat),
            decreases GRID_W - gx,
        {
            let idx = gy * GRID_W + gx;
            let ghost before = edges@;
            assert(idx as int % (GRID_W as int) == gx as int);
            assert(idx as int / (GRID_W as int) == gy as int);
            if let Some(a) = grid_slots[idx] {
                assert(grid_slots@[idx as int] matches Some(i) ==> i < room_count);
                if gx + 1 < GRID_W {
                    if let Some(b) = grid_slots[gy * GRID_W + (gx + 1)] {
                        assert(grid_slots@[(gy * GRID_W + (gx + 1)) as int] matches Some(i) ==> i
                            < room_count);
                        edges.push((a, b));
                    }
                }
                let ghost mid = edges@;
                if gy + 1 < GRID_H {
                    if let Some(b) = grid_slots[(gy + 1) * GRID_W + gx] {
                        assert(grid_slots@[((gy + 1) * GRID_W + gx) as int] matches Some(i) ==> i
                            < room_count);
                        edges.push((a, b));
                    }
                }
                assert(mid == before + (if gx + 1 < GRID_W {
                    match grid_slots@[idx + 1] {
                        Some(b) => seq![(a, b)],
                        None => Seq::empty(),
                    }
                } else {
                    Seq::empty()
                }));
            }
            assert(edges@ == before + slot_edges(grid_slots@, idx as int));
            gx = gx + 1;
        }
        gy = gy + 1;
    }
    edges
}

/// A union of the sets of `a` and `b` keeps the structure in step with the
/// links, extended by `(a, b)` exactly when it merged two sets.
proof fn lemma_track_union(
    before: UnionFind,
    after: UnionFind,
    links: Seq<(usize, usize)>,
    n: int,
    a: usize,
    b: usize,
    merged: bool,
)
    requires
        tracks(before, links, n),
        a < n,
        b < n,
        after.wf(),
        after.len() == n,
        merged == !before.same(a as int, b as int),
        forall|i: int, j: int|
            0 <= i < n && 0 <= j < n ==> (#[trigger] after.same(i, j) <==> before.joined_by(
                a as int,
                b as int,
                i,
                j,
            )),
    ensures
        tracks(after, if merged {
            links.push((a, b))
        } else {
            links
        }, n),
{
    let l2 = links.push((a, b));
    assert(l2.drop_last() == links);
    assert forall|i: int, j: int| 0 <= i < n && 0 <= j < n implies (#[trigger] after.same(i, j)
        <==> joined(if merged {
        l2
    } else {
        links
    }, i, j)) by {
        assert(before.same(i, a as int) <==> joined(links, i, a as int));
        assert(before.same(j, b as int) <==> joined(links, j, b as int));
        assert(before.same(i, b as int) <==> joined(links, i, b as int));
        assert(before.same(j, a as int) <==> joined(links, j, a as int));
        assert(before.same(i, j) <==> joined(links, i, j));
    }
}

/// The links kept from `edges[0..k]` when each is kept exactly if it joins
/// two rooms that the links kept before it do not connect yet.
pub open spec fn spanned(edges: Seq<(usize, usize)>, k: nat) -> Seq<(usize, usize)>
    decreases k,
{
    if k == 0 {
        Seq::empty()
    } else {
        let used = spanned(edges, (k - 1) as nat);
        let e = edges[k - 1];
        if joined(used, e.0 as int, e.1 as int) {
            used
        } else {
            used.push(e)
        }
    }
}

/// Rooms `a < b` among `0..n` that `links` does not connect.
pub open spec fn apart_in(links: Seq<(usize, usize)>, n: int, a: int, b: int) -> bool {
    0 <= a < b < n && !joined(links, a, b)
}

/// `(a, b)` is the pair of unconnected rooms whose centres are closest,
/// the first in search order among equally close pairs.
pub open spec fn best_apart(rooms: Seq<Room>, links: Seq<(usize, usize)>, a: int, b: int) -> bool {
    let n = rooms.len() as int;
    &&& apart_in(links, n, a, b)
    &&& forall|c: int, e: int|
        #[trigger] apart_in(links, n, c, e) ==> center_distance(rooms[a], rooms[b]) <= center_distance(
            rooms[c],
            rooms[e],
        )
    &&& forall|c: int, e: int|
        #[trigger] apart_in(links, n, c, e) && pair_before(c, e, a, b) ==> center_distance(
            rooms[a],
            rooms[b],
        ) < center_distance(rooms[c], rooms[e])
}

/// There is at most one closest pair.
pub proof fn lemma_best_apart_unique(rooms: Seq<Room>, links: Seq<(usize, usize)>, a: int, b: int, c: int, e: int)
    requires
        best_apart(rooms, links, a, b),
        best_apart(rooms, links, c, e),
    ensures
        a == c && b == e,
{
    let n = rooms.len() as int;
    assert(apart_in(links, n, a, b));
    assert(apart_in(links, n, c, e));
    if pair_before(c, e, a, b) {
        assert(false);
    } else if pair_before(a, b, c, e) {
        assert(false);
    }
}

/// The closest pair of rooms that `links` leaves unconnected, if any.
pub open spec fn nearest_link(rooms: Seq<Room>, links: Seq<(usize, usize)>) -> Option<(usize, usize)> {
    if exists|a: int, b: int| best_apart(rooms, links, a, b) {
        let (a, b) = choose|a: int, b: int| best_apart(rooms, links, a, b);
        Some((a as usize, b as usize))
    } else {
        None
    }
}

/// `links` extended by closest unconnected pairs, at most `fuel` of them,
/// until every room is connected.
pub open spec fn bridged(rooms: Seq<Room>, links: Seq<(usize, usize)>, fuel: nat) -> Seq<(usize, usize)>
    decreases fuel,
{
    if fuel == 0 {
        links
    } else {
        match nearest_link(rooms, links) {
            None => links,
            Some(p) => bridged(rooms, links.push(p), (fuel - 1) as nat),
        }
    }
}

/// `links` holds the link between `a` and `b`, in either direction.
pub open spec fn link_present(links: Seq<(usize, usize)>, a: usize, b: usize) -> bool {
    exists|k: int| 0 <= k < links.len() && ((#[trigger] links[k] == (a, b)) || links[k] == (b, a))
}

/// The links after `edges[0..k]` were offered as extra links to `used`:
/// each one not present yet is added when its draw, taken from `r`, is below
/// 30 in 100; with the generator after.
pub open spec fn extra_links(
    edges: Seq<(usize, usize)>,
    used: Seq<(usize, usize)>,
    r: (u64, nat),
    k: nat,
) -> (Seq<(usize, usize)>, (u64, nat))
    decreases k,
{
    if k == 0 {
        (used, r)
    } else {
        let before = extra_links(edges, used, r, (k - 1) as nat);
        let e = edges[k - 1];
        if link_present(before.0, e.0, e.1) {
            before
        } else if next_draw(before.1) % 100 < 30 {
            (before.0.push(e), advanced(before.1, 1))
        } else {
            (before.0, advanced(before.1, 1))
        }
    }
}

/// The links that `plan_room_links` chooses for `rooms` placed in the grid
/// slots `slots`, drawing from `r`; with the generator after.
pub open spec fn planned_links(rooms: Seq<Room>, slots: Seq<Option<usize>>, r: (u64, nat)) -> (
    Seq<(usize, usize)>,
    (u64, nat),
) {
    let grid = grid_edge_list(slots, (GRID_W * GRID_H) as nat);
    let edges = shuffled(grid, r);
    let after_shuffle = advanced(r, shuffle_draws(grid.len()));
    let tree = bridged(rooms, spanned(edges, edges.len()), rooms.len());
    extra_links(edges, tree, after_shuffle, edges.len())
}

/// What `nearest_apart_pair` finds, seen through the links that the
/// union-find structure tracks.
proof fn lemma_nearest_is_best(
    uf: UnionFind,
    links: Seq<(usize, usize)>,
    rooms: Seq<Room>,
    a: int,
    b: int,
)
    requires
        tracks(uf, links, rooms.len() as int),
        apart_pair(uf, rooms.len() as int, a, b),
        forall|c: int, e: int|
            #[trigger] apart_pair(uf, rooms.len() as int, c, e) ==> center_distance(rooms[a], rooms[b])
                <= center_distance(rooms[c], rooms[e]),
        forall|c: int, e: int|
            #[trigger] apart_pair(uf, rooms.len() as int, c, e) && pair_before(c, e, a, b)
                ==> center_distance(rooms[a], rooms[b]) < center_distance(rooms[c], rooms[e]),
    ensures
        best_apart(rooms, links, a, b),
        nearest_link(rooms, links) == Some((a as usize, b as usize)),
{
    let n = rooms.len() as int;
    assert forall|c: int, e: int| #[trigger] apart_in(links, n, c, e) implies apart_pair(uf, n, c, e) by {
    }
    assert(best_apart(rooms, links, a, b));
    let (c, e) = choose|c: int, e: int| best_apart(rooms, links, c, e);
    lemma_best_apart_unique(rooms, links, a, b, c, e);
}

/// When every room is connected, no pair is left to bridge.
proof fn lemma_bridged_done(rooms: Seq<Room>, links: Seq<(usize, usize)>, fuel: nat)
    requires
        all_joined(links, rooms.len() as int),
    ensures
        bridged(rooms, links, fuel) == links,
{
    if exists|a: int, b: int| best_apart(rooms, links, a, b) {
        let (a, b) = choose|a: int, b: int| best_apart(rooms, links, a, b);
        assert(joined(links, a, b));
    }
}

/// Chooses the pairs of rooms to link by corridors: neighbours on the room
/// grid in random order while they join separate groups, then the closest
/// pair from separate groups until one group remains, then a random part
/// (each with probability 30 in 100) of the remaining grid neighbours.
pub fn plan_room_links(
    rooms: &Vec<Room>,
    grid_slots: &Vec<Option<usize>>,
    rng: &mut DungeonRng,
) -> (used: Vec<(usize, usize)>)
    requires
        forall|k: int| 0 <= k < rooms@.len() ==> room_small(#[trigger] rooms@[k]),
        grid_slots@.len() == GRID_W * GRID_H,
        forall|k: int|
            0 <= k < grid_slots@.len() ==> (#[trigger] grid_slots@[k] matches Some(i) ==> i
                < rooms@.len()),
    ensures
        (used@, final(rng)@) == planned_links(rooms@, grid_slots@, old(rng)@),
        all_joined(used@, rooms@.len() as int),
        links_in_range(used@, rooms@.len() as int),
        final(rng)@.0 == old(rng)@.0,
{
    let n = rooms.len();
    let mut edges = grid_edges(grid_slots, n);
    let ghost unshuffled = edges@;
    shuffle_edges(&mut edges, rng);
    let ghost after_shuffle = rng@;
    assert(links_in_range(edges@, n as int)) by {
        assert forall|k: int| 0 <= k < edges@.len() implies (#[trigger] edges@[k]).0 < n
            && edges@[k].1 < n by {
            assert(edges@.to_multiset().count(edges@[k]) > 0);
            assert(unshuffled.contains(edges@[k]));
        }
    }

    // Spanning connectivity first.
    let mut uf = UnionFind::new(n);
    let mut used: Vec<(usize, usize)> = Vec::new();
    assert(tracks(uf, used@, n as int)) by {
        assert forall|i: int, j: int| 0 <= i < n && 0 <= j < n implies (#[trigger] uf.same(i, j)
            <==> joined(used@, i, j)) by {
            assert(uf.root(i) == i);
            assert(uf.root(j) == j);
        }
    }
    let mut k: usize = 0;
    while k < edges.len()
        invariant
            k <= edges@.len(),
            links_in_range(edges@, n as int),
            tracks(uf, used@, n as int),
            links_in_range(used@, n as int),
            n == rooms@.len(),
            rng@ == after_shuffle,
            used@ == spanned(edges@, k as nat),
            uf.num_sets() <= n,
        decreases edges@.len() - k,
    {
        let (a, b) = edges[k];
        assert(edges@[k as int].0 < n && edges@[k as int].1 < n);
        let ghost before = uf;
        let merged = uf.union(a, b);
        proof {
            lemma_track_union(before, uf, used@, n as int, a, b, merged);
        }
        if merged {
            used.push((a, b));
        }
        k = k + 1;
    }

    // Bridge whatever components remain by linking nearest room pairs.
    let ghost tree = used@;
    let ghost mut fuel: nat = n as nat;
    loop
        invariant_except_break
            tracks(uf, used@, n as int),
            links_in_range(used@, n as int),
            n == rooms@.len(),
            forall|r: int| 0 <= r < rooms@.len() ==> room_small(#[trigger] rooms@[r]),
            rng@ == after_shuffle,
            bridged(rooms@, used@, fuel) == bridged(rooms@, tree, n as nat),
            uf.num_sets() <= fuel,
        ensures
            all_joined(used@, n as int),
            links_in_range(used@, n as int),
            rng@ == after_shuffle,
            used@ == bridged(rooms@, tree, n as nat),
        decreases uf.num_sets(),
    {
        let ghost before = uf;
        if all_rooms_connected(&mut uf, n) {
            assert forall|i: int, j: int| 0 <= i < n && 0 <= j < n implies #[trigger] joined(
                used@,
                i,
                j,
            ) by {
                assert(before.same(i, 0));
                assert(before.same(j, 0));
                assert(before.same(i, j));
            }
            proof {
                lemma_bridged_done(rooms@, used@, fuel);
            }
            break;
        }
        let ghost mid = uf;
        let best = nearest_apart_pair(&mut uf, rooms);
        match best {
            None => {
                assert forall|i: int, j: int| 0 <= i < n && 0 <= j < n implies #[trigger] joined(
                    used@,
                    i,
                    j,
                ) by {
                    if i < j {
                        assert(!apart_pair(mid, n as int, i, j));
                    } else if j < i {
                        assert(!apart_pair(mid, n as int, j, i));
                    }
                    assert(before.same(i, j));
                }
                proof {
                    lemma_bridged_done(rooms@, used@, fuel);
                }
                break;
            },
            Some((a, b, _)) => {
                let ghost before_union = uf;
                assert(apart_pair(mid, n as int, a as int, b as int));
                assert(!before_union.same(a as int, b as int));
                assert forall|i: int, j: int| 0 <= i < n && 0 <= j < n implies (
                #[trigger] before_union.same(i, j) <==> joined(used@, i, j)) by {
                    assert(before_union.root(i) == mid.root(i));
                    assert(before_union.root(j) == mid.root(j));
                    assert(mid.root(i) == before.root(i));
                    assert(mid.root(j) == before.root(j));
                    assert(before.same(i, j) <==> joined(used@, i, j));
                }
                assert forall|c: int, e: int| apart_pair(mid, n as int, c, e) <==> #[trigger] apart_pair(
                    before_union,
                    n as int,
                    c,
                    e,
                ) by {
                    if 0 <= c < n && 0 <= e < n {
                        assert(before_union.root(c) == mid.root(c));
                        assert(before_union.root(e) == mid.root(e));
                    }
                }
                proof {
                    lemma_nearest_is_best(before_union, used@, rooms@, a as int, b as int);
                }
                let merged = uf.union(a, b);
                proof {
                    lemma_track_union(before_union, uf, used@, n as int, a, b, merged);
                    assert(fuel >= 1);
                    assert(bridged(rooms@, used@, fuel) == bridged(
                        rooms@,
                        used@.push((a, b)),
                        (fuel - 1) as nat,
                    ));
                    fuel = (fuel - 1) as nat;
                }
                if merged {
                    used.push((a, b));
                }
            },
        }
    }

    // Add a few extra links for loops.
    let ghost bridged_links = used@;
    let mut k: usize = 0;
    while k < edges.len()
        invariant
            k <= edges@.len(),
            links_in_range(edges@, n as int),
            all_joined(used@, n as int),
            links_in_range(used@, n as int),
            (used@, rng@) == extra_links(edges@, bridged_links, after_shuffle, k as nat),
            rng@.0 == old(rng)@.0,
        decreases edges@.len() - k,
    {
        let (a, b) = edges[k];
        if has_link(&used, a, b) {
            k = k + 1;
            continue;
        }
        if (rng.next_u32() % 100) < 30 {
            proof {
                lemma_all_joined_push(used@, (a, b), n as int);
            }
            assert(edges@[k as int].0 < n && edges@[k as int].1 < n);
            used.push((a, b));
        }
        k = k + 1;
    }
    used
}

} // verus!
