//! Disjoint-set forest with union by rank and path compression, used to
//! decide which rooms of a dungeon are already linked by corridors.
use vstd::prelude::*;

verus! {

/// A parent array is a forest when every parent pointer stays in range and
/// leads strictly upwards in `height`, a ghost measure bounded by `bound`.
pub open spec fn forest_ok(parent: Seq<usize>, height: Seq<nat>, bound: nat) -> bool {
    &&& height.len() == parent.len()
    &&& forall|i: int| 0 <= i < parent.len() ==> (#[trigger] parent[i] as int) < parent.len()
    &&& forall|i: int| 0 <= i < parent.len() ==> #[trigger] height[i] < bound
    &&& forall|i: int|
        0 <= i < parent.len() && #[trigger] parent[i] as int != i ==> height[i] < height[
            parent[i] as int
        ]
}

/// The representative reached from `i` by following parent pointers.
pub open spec fn root_of(parent: Seq<usize>, height: Seq<nat>, bound: nat, i: int) -> int
    decreases bound - height[i],
    when forest_ok(parent, height, bound) && 0 <= i < parent.len()
{
    if parent[i] as int == i {
        i
    } else {
        root_of(parent, height, bound, parent[i] as int)
    }
}

/// Basic facts about representatives: they are in range, point to
/// themselves, are at least as high as the node, and are shared with the
/// node's parent.
pub proof fn lemma_root_of(parent: Seq<usize>, height: Seq<nat>, bound: nat, i: int)
    requires
        forest_ok(parent, height, bound),
        0 <= i < parent.len(),
    ensures
        0 <= root_of(parent, height, bound, i) < parent.len(),
        parent[root_of(parent, height, bound, i)] as int == root_of(parent, height, bound, i),
        height[i] <= height[root_of(parent, height, bound, i)],
        parent[i] as int != i ==> height[i] < height[root_of(parent, height, bound, i)],
        root_of(parent, height, bound, parent[i] as int) == root_of(parent, height, bound, i),
        parent[i] as int == i ==> root_of(parent, height, bound, i) == i,
    decreases bound - height[i],
{
    assert((parent[i] as int) < parent.len());
    assert(height[i] < bound);
    if parent[i] as int != i {
        let p = parent[i] as int;
        assert(height[i] < height[p]);
        assert(height[p] < bound);
        lemma_root_of(parent, height, bound, p);
    }
}

/// Pointing a node straight at its representative keeps the forest shape
/// and every node's representative.
proof fn lemma_compress(parent: Seq<usize>, height: Seq<nat>, bound: nat, x: int, i: int)
    requires
        forest_ok(parent, height, bound),
        0 <= x < parent.len(),
        0 <= i < parent.len(),
    ensures
        forest_ok(
            parent.update(x, root_of(parent, height, bound, x) as usize),
            height,
            bound,
        ),
        root_of(
            parent.update(x, root_of(parent, height, bound, x) as usize),
            height,
            bound,
            i,
        ) == root_of(parent, height, bound, i),
    decreases bound - height[i],
{
    let r = root_of(parent, height, bound, x);
    let p2 = parent.update(x, r as usize);
    lemma_root_of(parent, height, bound, x);
    assert(forest_ok(p2, height, bound)) by {
        assert forall|j: int| 0 <= j < p2.len() && #[trigger] p2[j] as int != j implies height[j]
            < height[p2[j] as int] by {
            if j == x {
            } else {
                assert(p2[j] == parent[j]);
            }
        }
        assert forall|j: int| 0 <= j < p2.len() implies (#[trigger] p2[j] as int) < p2.len() by {
            if j != x {
                assert(p2[j] == parent[j]);
            }
        }
    }
    assert(height[i] < bound);
    lemma_root_of(parent, height, bound, i);
    if i == x {
        if r != x {
            assert(p2[r] == parent[r]);
            assert(root_of(p2, height, bound, r) == r);
            assert(root_of(p2, height, bound, x) == root_of(p2, height, bound, r));
        }
    } else {
        assert(p2[i] == parent[i]);
        if parent[i] as int != i {
            let p = parent[i] as int;
            assert(height[i] < height[p]);
            lemma_compress(parent, height, bound, x, p);
        }
    }
}

/// Hanging root `c` below root `r` (raising `r`'s height when needed) keeps
/// the forest shape and sends every member of `c`'s set to `r`.
proof fn lemma_link(parent: Seq<usize>, height: Seq<nat>, bound: nat, c: int, r: int, i: int)
    requires
        forest_ok(parent, height, bound),
        0 <= c < parent.len(),
        0 <= r < parent.len(),
        c != r,
        parent[c] as int == c,
        parent[r] as int == r,
        0 <= i < parent.len(),
    ensures
        ({
            let p2 = parent.update(c, r as usize);
            let h2 = height.update(r, link_height(height, c, r));
            let b2 = link_bound(height, bound, c, r);
            &&& forest_ok(p2, h2, b2)
            &&& root_of(p2, h2, b2, i) == (if root_of(parent, height, bound, i) == c {
                r
            } else {
                root_of(parent, height, bound, i)
            })
        }),
    decreases bound - height[i],
{
    let p2 = parent.update(c, r as usize);
    let h2 = height.update(r, link_height(height, c, r));
    let b2 = link_bound(height, bound, c, r);
    assert(forest_ok(p2, h2, b2)) by {
        assert forall|j: int| 0 <= j < p2.len() && #[trigger] p2[j] as int != j implies h2[j]
            < h2[p2[j] as int] by {
            if j == c {
            } else {
                assert(p2[j] == parent[j]);
                if j == r {
                } else {
                    assert(h2[j] == height[j]);
                }
            }
        }
        assert forall|j: int| 0 <= j < p2.len() implies (#[trigger] p2[j] as int) < p2.len() by {
            if j != c {
                assert(p2[j] == parent[j]);
            }
        }
        assert forall|j: int| 0 <= j < p2.len() implies #[trigger] h2[j] < b2 by {
            if j != r {
                assert(h2[j] == height[j]);
            }
        }
    }
    assert(height[i] < bound);
    lemma_root_of(parent, height, bound, i);
    assert(p2[r] == parent[r]);
    assert(root_of(p2, h2, b2, r) == r);
    if i == c {
        assert(root_of(p2, h2, b2, c) == root_of(p2, h2, b2, r));
    } else {
        assert(p2[i] == parent[i]);
        if parent[i] as int != i {
            let p = parent[i] as int;
            assert(height[i] < height[p]);
            lemma_link(parent, height, bound, c, r, p);
        }
    }
}

/// Height given to root `r` when root `c` is hung below it.
pub open spec fn link_height(height: Seq<nat>, c: int, r: int) -> nat {
    if height[r] > height[c] {
        height[r]
    } else {
        height[c] + 1
    }
}

/// Bound on heights after root `c` is hung below root `r`.
pub open spec fn link_bound(height: Seq<nat>, bound: nat, c: int, r: int) -> nat {
    if link_height(height, c, r) < bound {
        bound
    } else {
        link_height(height, c, r) + 1
    }
}

/// Number of representatives among the first `k` elements.
pub open spec fn count_roots(parent: Seq<usize>, height: Seq<nat>, bound: nat, k: int) -> nat
    decreases k,
{
    if k <= 0 {
        0
    } else {
        count_roots(parent, height, bound, k - 1) + (if root_of(parent, height, bound, k - 1)
            == k - 1 {
            1nat
        } else {
            0nat
        })
    }
}

/// A disjoint-set forest over the elements `0..len`.
pub struct UnionFind {
    parent: Vec<usize>,
    rank: Vec<u8>,
    height: Ghost<Seq<nat>>,
    bound: Ghost<nat>,
}

impl UnionFind {
    /// The structure is a valid forest.
    pub closed spec fn wf(&self) -> bool {
        &&& forest_ok(self.parent@, self.height@, self.bound@)
        &&& self.rank@.len() == self.parent@.len()
    }

    /// Number of elements.
    pub closed spec fn len(&self) -> nat {
        self.parent@.len()
    }

    /// The representative of the set holding `i`.
    pub closed spec fn root(&self, i: int) -> int {
        root_of(self.parent@, self.height@, self.bound@, i)
    }

    /// Elements `i` and `j` are in the same set.
    pub open spec fn same(&self, i: int, j: int) -> bool {
        self.root(i) == self.root(j)
    }

    /// After merging the sets of `a` and `b`, `i` and `j` share a set exactly
    /// when they already did, or one lay with `a` and the other with `b`.
    pub open spec fn joined_by(&self, a: int, b: int, i: int, j: int) -> bool {
        ||| self.same(i, j)
        ||| (self.same(i, a) && self.same(j, b))
        ||| (self.same(i, b) && self.same(j, a))
    }

    /// The element that `i` points to.
    pub closed spec fn parent_of(&self, i: int) -> int {
        self.parent@[i] as int
    }

    /// The number of distinct sets.
    pub closed spec fn num_sets(&self) -> nat {
        count_roots(self.parent@, self.height@, self.bound@, self.parent@.len() as int)
    }

    /// Representatives are elements, and are their own representatives.
    pub proof fn lemma_root_is_element(&self, i: int)
        requires
            self.wf(),
            0 <= i < self.len(),
        ensures
            0 <= self.root(i) < self.len(),
            self.root(self.root(i)) == self.root(i),
    {
        lemma_root_of(self.parent@, self.height@, self.bound@, i);
        let r = self.root(i);
        lemma_root_of(self.parent@, self.height@, self.bound@, r);
    }

    /// Creates `size` singleton sets.
    pub fn new(size: usize) -> (uf: Self)
        ensures
            uf.wf(),
            uf.len() == size,
            forall|i: int| 0 <= i < size ==> #[trigger] uf.root(i) == i,
            uf.num_sets() == size,
    {
        let mut parent: Vec<usize> = Vec::with_capacity(size);
        let mut index: usize = 0;
        while index < size
            invariant
                index <= size,
                parent@.len() == index,
                forall|j: int| 0 <= j < index ==> #[trigger] parent@[j] == j,
            decreases size - index,
        {
            parent.push(index);
            index = index + 1;
        }
        let mut rank: Vec<u8> = Vec::new();
        let mut k: usize = 0;
        while k < size
            invariant
                k <= size,
                rank@.len() == k,
            decreases size - k,
        {
            rank.push(0);
            k = k + 1;
        }
        let ghost height = Seq::new(size as nat, |i: int| 0nat);
        let uf = UnionFind { parent, rank, height: Ghost(height), bound: Ghost(1) };
        assert(forest_ok(uf.parent@, uf.height@, uf.bound@));
        assert forall|i: int| 0 <= i < size implies #[trigger] uf.root(i) == i by {
            lemma_root_of(uf.parent@, uf.height@, uf.bound@, i);
        }
        assert forall|k: int| 0 <= k <= size implies #[trigger] count_roots(
            uf.parent@,
            uf.height@,
            uf.bound@,
            k,
        ) == k by {
            uf.lemma_count_all_roots(k);
        }
        uf
    }

    proof fn lemma_count_all_roots(&self, k: int)
        requires
            self.wf(),
            0 <= k <= self.len(),
            forall|i: int| 0 <= i < self.len() ==> #[trigger] self.root(i) == i,
        ensures
            count_roots(self.parent@, self.height@, self.bound@, k) == k,
        decreases k,
    {
        if k > 0 {
            self.lemma_count_all_roots(k - 1);
            assert(self.root(k - 1) == k - 1);
        }
    }

    /// Returns the representative of `x`, pointing `x` (and the nodes on
    /// its path) straight at it; no element changes set.
    pub fn find(&mut self, x: usize) -> (r: usize)
        requires
            old(self).wf(),
            x < old(self).len(),
        ensures
            final(self).wf(),
            final(self).len() == old(self).len(),
            r as int == old(self).root(x as int),
            final(self).parent_of(x as int) == r,
            final(self).parent_of(r as int) == r,
            forall|i: int| 0 <= i < old(self).len() ==> #[trigger] final(self).root(i) == old(self).root(i),
            final(self).num_sets() == old(self).num_sets(),
    {
        self.find_rec(x)
    }

    fn find_rec(&mut self, x: usize) -> (r: usize)
        requires
            old(self).wf(),
            x < old(self).len(),
        ensures
            final(self).wf(),
            final(self).len() == old(self).len(),
            r as int == old(self).root(x as int),
            final(self).parent_of(x as int) == r,
            final(self).parent_of(r as int) == r,
            forall|i: int| 0 <= i < old(self).len() ==> #[trigger] final(self).root(i) == old(self).root(i),
            final(self).num_sets() == old(self).num_sets(),
            final(self).height@ == old(self).height@,
            final(self).bound@ == old(self).bound@,
            forall|j: int|
                0 <= j < old(self).len() && old(self).height@[j] < old(self).height@[x as int]
                    ==> #[trigger] final(self).parent@[j] == old(self).parent@[j],
        decreases old(self).bound@ - old(self).height@[x as int],
    {
        let ghost p0 = self.parent@;
        let ghost h = self.height@;
        let ghost b = self.bound@;
        proof {
            lemma_root_of(p0, h, b, x as int);
        }
        let p = self.parent[x];
        if p != x {
            assert(h[x as int] < h[p as int]);
            assert(h[p as int] < b);
            let ghost before = *self;
            let root = self.find_rec(p);
            let ghost mid = *self;
            let ghost p1 = self.parent@;
            assert(p1[x as int] == p0[x as int]);
            proof {
                lemma_root_of(p1, h, b, x as int);
                assert(mid.root(p as int) == before.root(p as int));
                assert(root_of(p1, h, b, p as int) == root_of(p1, h, b, x as int));
            }
            assert(root_of(p1, h, b, x as int) == root as int);
            self.parent.set(x, root);
            proof {
                assert(self.parent@ == p1.update(x as int, root_of(p1, h, b, x as int) as usize));
                assert forall|i: int| 0 <= i < p0.len() implies #[trigger] self.root(i) == root_of(
                    p0,
                    h,
                    b,
                    i,
                ) by {
                    lemma_compress(p1, h, b, x as int, i);
                    assert(mid.root(i) == before.root(i));
                }
                lemma_compress(p1, h, b, x as int, 0);
                self.lemma_count_same(p0, h, b, p0.len() as int);
                lemma_root_of(self.parent@, h, b, x as int);
            }
        }
        self.parent[x]
    }

    proof fn lemma_count_same(&self, p0: Seq<usize>, h: Seq<nat>, b: nat, k: int)
        requires
            self.wf(),
            forest_ok(p0, h, b),
            p0.len() == self.len(),
            0 <= k <= self.len(),
            forall|i: int| 0 <= i < p0.len() ==> #[trigger] self.root(i) == root_of(p0, h, b, i),
        ensures
            count_roots(self.parent@, self.height@, self.bound@, k) == count_roots(p0, h, b, k),
        decreases k,
    {
        if k > 0 {
            self.lemma_count_same(p0, h, b, k - 1);
            assert(self.root(k - 1) == root_of(p0, h, b, k - 1));
        }
    }

    /// Merges the sets of `a` and `b`; returns whether they were apart.
    pub fn union(&mut self, a: usize, b: usize) -> (merged: bool)
        requires
            old(self).wf(),
            a < old(self).len(),
            b < old(self).len(),
        ensures
            final(self).wf(),
            final(self).len() == old(self).len(),
            merged == !old(self).same(a as int, b as int),
            forall|i: int, j: int|
                0 <= i < old(self).len() && 0 <= j < old(self).len() ==> (#[trigger] final(self).same(i, j)
                    <==> old(self).joined_by(a as int, b as int, i, j)),
            final(self).num_sets() + (if merged {
                1nat
            } else {
                0nat
            }) == old(self).num_sets(),
    {
        let ghost old_uf = *self;
        let ra = self.find(a);
        let rb = self.find(b);
        let ghost mid = *self;
        proof {
            old_uf.lemma_root_is_element(a as int);
            old_uf.lemma_root_is_element(b as int);
        }
        if ra == rb {
            assert forall|i: int, j: int|
                0 <= i < old_uf.len() && 0 <= j < old_uf.len() implies (#[trigger] self.same(i, j)
                <==> old_uf.joined_by(a as int, b as int, i, j)) by {
                assert(self.root(i) == old_uf.root(i));
                assert(self.root(j) == old_uf.root(j));
            }
            return false;
        }
        let ghost p = self.parent@;
        let ghost h = self.height@;
        let ghost bd = self.bound@;
        proof {
            lemma_root_of(p, h, bd, ra as int);
            lemma_root_of(p, h, bd, rb as int);
            assert(self.root(ra as int) == old_uf.root(ra as int));
            assert(self.root(rb as int) == old_uf.root(rb as int));
            old_uf.lemma_root_is_element(ra as int);
            old_uf.lemma_root_is_element(rb as int);
        }
        let child: usize;
        let top: usize;
        if self.rank[ra] < self.rank[rb] {
            child = ra;
            top = rb;
            self.parent.set(ra, rb);
        } else if self.rank[ra] > self.rank[rb] {
            child = rb;
            top = ra;
            self.parent.set(rb, ra);
        } else {
            child = rb;
            top = ra;
            self.parent.set(rb, ra);
            let bumped = self.rank[ra].saturating_add(1);
            self.rank.set(ra, bumped);
        }
        self.height = Ghost(h.update(top as int, link_height(h, child as int, top as int)));
        self.bound = Ghost(link_bound(h, bd, child as int, top as int));
        proof {
            assert(self.parent@ == p.update(child as int, top));
            assert forall|i: int| 0 <= i < p.len() implies #[trigger] self.root(i) == (if root_of(
                p,
                h,
                bd,
                i,
            ) == child as int {
                top as int
            } else {
                root_of(p, h, bd, i)
            }) by {
                lemma_link(p, h, bd, child as int, top as int, i);
            }
            lemma_link(p, h, bd, child as int, top as int, 0);
            assert forall|i: int, j: int|
                0 <= i < old_uf.len() && 0 <= j < old_uf.len() implies (#[trigger] self.same(i, j)
                <==> old_uf.joined_by(a as int, b as int, i, j)) by {
                assert(mid.root(i) == old_uf.root(i));
                assert(mid.root(j) == old_uf.root(j));
            }
            self.lemma_count_link(p, h, bd, child as int, top as int, p.len() as int);
        }
        true
    }

    proof fn lemma_count_link(
        &self,
        p: Seq<usize>,
        h: Seq<nat>,
        bd: nat,
        c: int,
        r: int,
        k: int,
    )
        requires
            self.wf(),
            forest_ok(p, h, bd),
            p.len() == self.len(),
            0 <= c < p.len(),
            0 <= r < p.len(),
            c != r,
            root_of(p, h, bd, c) == c,
            root_of(p, h, bd, r) == r,
            0 <= k <= self.len(),
            forall|i: int|
                0 <= i < p.len() ==> #[trigger] self.root(i) == (if root_of(p, h, bd, i) == c {
                    r
                } else {
                    root_of(p, h, bd, i)
                }),
        ensures
            count_roots(self.parent@, self.height@, self.bound@, k) + (if c < k {
                1nat
            } else {
                0nat
            }) == count_roots(p, h, bd, k),
        decreases k,
    {
        if k > 0 {
            self.lemma_count_link(p, h, bd, c, r, k - 1);
            let i = k - 1;
            assert(self.root(i) == (if root_of(p, h, bd, i) == c {
                r
            } else {
                root_of(p, h, bd, i)
            }));
        }
    }
}

} // verus!
