//! Bresenham lines between grid cells.
use vstd::prelude::*;

verus! {

pub open spec fn abs_int(v: int) -> int {
    if v < 0 {
        -v
    } else {
        v
    }
}

/// Direction of travel along one axis: `1` towards a larger target, else `-1`.
pub open spec fn step_dir(from: int, to: int) -> int {
    if from < to {
        1
    } else {
        -1
    }
}

/// How many steps along one axis have been taken from `from` to reach `at`.
pub open spec fn steps_taken(from: int, to: int, at: int) -> int {
    if from < to {
        at - from
    } else {
        from - at
    }
}

/// The error term after `sx` horizontal and `sy` vertical steps on a line
/// whose extents are `dx` and `dy`.
#[verifier::opaque]
pub open spec fn line_error(dx: int, dy: int, sx: int, sy: int) -> int {
    dx * (1 + sy) - dy * (1 + sx)
}

/// The error term at the point `(x, y)` of the line from `(x0, y0)` to `(x1, y1)`.
pub open spec fn error_at(x0: int, y0: int, x1: int, y1: int, x: int, y: int) -> int {
    line_error(
        abs_int(x1 - x0),
        abs_int(y1 - y0),
        steps_taken(x0, x1, x),
        steps_taken(y0, y1, y),
    )
}

/// The point that follows `(x, y)` on the line from `(x0, y0)` to `(x1, y1)`.
pub open spec fn line_next(x0: int, y0: int, x1: int, y1: int, x: int, y: int) -> (int, int) {
    let e2 = 2 * error_at(x0, y0, x1, y1, x, y);
    let nx = if e2 >= -abs_int(y1 - y0) {
        x + step_dir(x0, x1)
    } else {
        x
    };
    let ny = if e2 <= abs_int(x1 - x0) {
        y + step_dir(y0, y1)
    } else {
        y
    };
    (nx, ny)
}

/// Converts a point of machine integers to mathematical integers.
pub open spec fn point_int(p: (i32, i32)) -> (int, int) {
    (p.0 as int, p.1 as int)
}

/// Point `i` of `pts` is not the end point and point `i + 1` is its
/// successor on the line from `(x0, y0)` to `(x1, y1)`.
pub open spec fn line_link(pts: Seq<(i32, i32)>, i: int, x0: int, y0: int, x1: int, y1: int) -> bool {
    &&& point_int(pts[i]) != (x1, y1)
    &&& point_int(pts[i + 1]) == line_next(x0, y0, x1, y1, pts[i].0 as int, pts[i].1 as int)
}

/// `pts` is the Bresenham line from `(x0, y0)` to `(x1, y1)`: it starts at
/// the first point, each point is followed by its successor until the last
/// point is reached, and the sequence ends there.
pub open spec fn is_line(pts: Seq<(i32, i32)>, x0: int, y0: int, x1: int, y1: int) -> bool {
    &&& pts.len() >= 1
    &&& point_int(pts[0]) == (x0, y0)
    &&& point_int(pts[pts.len() - 1]) == (x1, y1)
    &&& forall|i: int| 0 <= i < pts.len() - 1 ==> #[trigger] line_link(pts, i, x0, y0, x1, y1)
}

proof fn lemma_error_steps(dx: int, dy: int, sx: int, sy: int)
    ensures
        line_error(dx, dy, sx + 1, sy) == line_error(dx, dy, sx, sy) - dy,
        line_error(dx, dy, sx, sy + 1) == line_error(dx, dy, sx, sy) + dx,
        line_error(dx, dy, sx + 1, sy + 1) == line_error(dx, dy, sx, sy) + dx - dy,
        line_error(dx, dy, 0, 0) == dx - dy,
{
    reveal(line_error);
    assert(dx * (1 + (sy + 1)) == dx * (1 + sy) + dx) by (nonlinear_arith);
    assert(dy * (1 + (sx + 1)) == dy * (1 + sx) + dy) by (nonlinear_arith);
}

/// Once one axis is exhausted the error term forbids another step on it.
proof fn lemma_no_overshoot(dx: int, dy: int, sx: int, sy: int)
    requires
        0 <= sx <= dx,
        0 <= sy <= dy,
    ensures
        sx == dx && sy < dy ==> 2 * line_error(dx, dy, sx, sy) < -dy,
        sy == dy && sx < dx ==> 2 * line_error(dx, dy, sx, sy) > dx,
{
    reveal(line_error);
    if sx == dx && sy < dy {
        assert(2 * (dx * (1 + sy) - dy * (1 + dx)) < -dy) by (nonlinear_arith)
            requires
                dx >= 0,
                0 <= sy,
                sy < dy,
        ;
    }
    if sy == dy && sx < dx {
        assert(2 * (dx * (1 + dy) - dy * (1 + sx)) > dx) by (nonlinear_arith)
            requires
                dy >= 0,
                0 <= sx,
                sx < dx,
        ;
    }
}

/// One step along the line: the successor stays between the end points,
/// its error term follows the update rule, and stays within its range.
proof fn lemma_line_step(x0: int, y0: int, x1: int, y1: int, x: int, y: int)
    requires
        0 <= steps_taken(x0, x1, x) <= abs_int(x1 - x0),
        0 <= steps_taken(y0, y1, y) <= abs_int(y1 - y0),
        (x, y) != (x1, y1),
        -2 * abs_int(y1 - y0) <= error_at(x0, y0, x1, y1, x, y) <= 2 * abs_int(x1 - x0),
    ensures
        ({
            let e = error_at(x0, y0, x1, y1, x, y);
            let dx = abs_int(x1 - x0);
            let dy = abs_int(y1 - y0);
            let n = line_next(x0, y0, x1, y1, x, y);
            &&& 0 <= steps_taken(x0, x1, n.0) <= dx
            &&& 0 <= steps_taken(y0, y1, n.1) <= dy
            &&& error_at(x0, y0, x1, y1, n.0, n.1) == e + (if 2 * e >= -dy {
                -dy
            } else {
                0
            }) + (if 2 * e <= dx {
                dx
            } else {
                0
            })
            &&& -2 * dy <= error_at(x0, y0, x1, y1, n.0, n.1) <= 2 * dx
            &&& (dx - steps_taken(x0, x1, n.0)) + (dy - steps_taken(y0, y1, n.1)) < (dx
                - steps_taken(x0, x1, x)) + (dy - steps_taken(y0, y1, y))
        }),
{
    let dx = abs_int(x1 - x0);
    let dy = abs_int(y1 - y0);
    let px = steps_taken(x0, x1, x);
    let py = steps_taken(y0, y1, y);
    lemma_error_steps(dx, dy, px, py);
    lemma_no_overshoot(dx, dy, px, py);
    if px == dx {
        assert(x == x1);
    }
    if py == dy {
        assert(y == y1);
    }
}

/// Advances one cell along the line from `(x0, y0)` to `(x1, y1)`.
fn line_step(x0: i32, y0: i32, x1: i32, y1: i32, x: i32, y: i32, err: i32) -> (next: (i32, i32, i32))
    requires
        abs_int(x1 - x0) < 0x2000_0000,
        abs_int(y1 - y0) < 0x2000_0000,
        0 <= steps_taken(x0 as int, x1 as int, x as int) <= abs_int(x1 - x0),
        0 <= steps_taken(y0 as int, y1 as int, y as int) <= abs_int(y1 - y0),
        (x, y) != (x1, y1),
        err == error_at(x0 as int, y0 as int, x1 as int, y1 as int, x as int, y as int),
        -2 * abs_int(y1 - y0) <= err <= 2 * abs_int(x1 - x0),
    ensures
        (next.0 as int, next.1 as int) == line_next(
            x0 as int,
            y0 as int,
            x1 as int,
            y1 as int,
            x as int,
            y as int,
        ),
        next.2 == error_at(x0 as int, y0 as int, x1 as int, y1 as int, next.0 as int, next.1 as int),
        0 <= steps_taken(x0 as int, x1 as int, next.0 as int) <= abs_int(x1 - x0),
        0 <= steps_taken(y0 as int, y1 as int, next.1 as int) <= abs_int(y1 - y0),
        -2 * abs_int(y1 - y0) <= next.2 <= 2 * abs_int(x1 - x0),
        (abs_int(x1 - x0) - steps_taken(x0 as int, x1 as int, next.0 as int)) + (abs_int(y1 - y0)
            - steps_taken(y0 as int, y1 as int, next.1 as int)) < (abs_int(x1 - x0) - steps_taken(
            x0 as int,
            x1 as int,
            x as int,
        )) + (abs_int(y1 - y0) - steps_taken(y0 as int, y1 as int, y as int)),
{
    proof {
        lemma_line_step(x0 as int, y0 as int, x1 as int, y1 as int, x as int, y as int);
    }
    let dx = if x1 >= x0 {
        x1 - x0
    } else {
        x0 - x1
    };
    let dy = if y1 >= y0 {
        y0 - y1
    } else {
        y1 - y0
    };
    let sx: i32 = if x0 < x1 {
        1
    } else {
        -1
    };
    let sy: i32 = if y0 < y1 {
        1
    } else {
        -1
    };
    let mut nx = x;
    let mut ny = y;
    let mut e = err;
    let e2 = err * 2;
    if e2 >= dy {
        e = e + dy;
        nx = nx + sx;
    }
    if e2 <= dx {
        e = e + dx;
        ny = ny + sy;
    }
    (nx, ny, e)
}

/// All cells of the Bresenham line from `(x0, y0)` to `(x1, y1)`, both ends
/// included.
pub fn bresenham_line(x0: i32, y0: i32, x1: i32, y1: i32) -> (points: Vec<(i32, i32)>)
    requires
        abs_int(x1 - x0) < 0x2000_0000,
        abs_int(y1 - y0) < 0x2000_0000,
    ensures
        is_line(points@, x0 as int, y0 as int, x1 as int, y1 as int),
        points@ == line_points(x0 as int, y0 as int, x1 as int, y1 as int),
        points@.len() == (if abs_int(x1 - x0) >= abs_int(y1 - y0) {
            abs_int(x1 - x0)
        } else {
            abs_int(y1 - y0)
        }) + 1,
{
    let mut points: Vec<(i32, i32)> = Vec::new();

    let mut x = x0;
    let mut y = y0;

    let dx = if x1 >= x0 {
        x1 - x0
    } else {
        x0 - x1
    };
    let sx: i32 = if x0 < x1 {
        1
    } else {
        -1
    };
    let dy = if y1 >= y0 {
        -(y1 - y0)
    } else {
        -(y0 - y1)
    };
    let sy: i32 = if y0 < y1 {
        1
    } else {
        -1
    };
    let mut err = dx + dy;
    let ghost ddx = dx as int;
    let ghost ddy = -dy as int;
    proof {
        lemma_error_steps(ddx, ddy, 0, 0);
    }

    loop
        invariant_except_break
            ddx == abs_int(x1 - x0),
            ddy == abs_int(y1 - y0),
            ddx < 0x2000_0000,
            ddy < 0x2000_0000,
            0 <= steps_taken(x0 as int, x1 as int, x as int) <= ddx,
            0 <= steps_taken(y0 as int, y1 as int, y as int) <= ddy,
            err == error_at(x0 as int, y0 as int, x1 as int, y1 as int, x as int, y as int),
            -2 * ddy <= err <= 2 * ddx,
            points@.len() >= 1 ==> point_int(points@[0]) == (x0 as int, y0 as int),
            points@.len() == 0 ==> x == x0 && y == y0,
            points@.len() >= 1 ==> line_link(
                points@.push((x, y)),
                points@.len() - 1,
                x0 as int,
                y0 as int,
                x1 as int,
                y1 as int,
            ),
            forall|i: int|
                0 <= i < points@.len() - 1 ==> #[trigger] line_link(
                    points@,
                    i,
                    x0 as int,
                    y0 as int,
                    x1 as int,
                    y1 as int,
                ),
            points@.len() + (ddx - steps_taken(x0 as int, x1 as int, x as int)) + (ddy
                - steps_taken(y0 as int, y1 as int, y as int)) <= ddx + ddy,
        ensures
            is_line(points@, x0 as int, y0 as int, x1 as int, y1 as int),
            points@.len() <= ddx + ddy + 1,
        decreases (ddx - steps_taken(x0 as int, x1 as int, x as int)) + (ddy - steps_taken(
            y0 as int,
            y1 as int,
            y as int,
        )) + 1,
    {
        let ghost before = points@;
        points.push((x, y));
        proof {
            assert forall|i: int| 0 <= i < points@.len() - 1 implies #[trigger] line_link(
                points@,
                i,
                x0 as int,
                y0 as int,
                x1 as int,
                y1 as int,
            ) by {
                if i < before.len() - 1 {
                    assert(line_link(before, i, x0 as int, y0 as int, x1 as int, y1 as int));
                    assert(points@[i] == before[i]);
                    assert(points@[i + 1] == before[i + 1]);
                } else {
                    assert(points@ == before.push((x, y)));
                }
            }
        }
        if x == x1 && y == y1 {
            break;
        }
        let next = line_step(x0, y0, x1, y1, x, y, err);
        x = next.0;
        y = next.1;
        err = next.2;
    }
    proof {
        lemma_line_length(points@, x0 as int, y0 as int, x1 as int, y1 as int);
        lemma_line_unique(
            points@,
            line_points(x0 as int, y0 as int, x1 as int, y1 as int),
            x0 as int,
            y0 as int,
            x1 as int,
            y1 as int,
        );
    }
    points
}

/// The Bresenham line from `(x0, y0)` to `(x1, y1)`.
pub open spec fn line_points(x0: int, y0: int, x1: int, y1: int) -> Seq<(i32, i32)> {
    choose|pts: Seq<(i32, i32)>| is_line(pts, x0, y0, x1, y1)
}

/// There is only one Bresenham line between two points.
pub proof fn lemma_line_unique(p: Seq<(i32, i32)>, q: Seq<(i32, i32)>, x0: int, y0: int, x1: int, y1: int)
    requires
        is_line(p, x0, y0, x1, y1),
        is_line(q, x0, y0, x1, y1),
    ensures
        p == q,
{
    assert forall|i: int| 0 <= i < p.len() && i < q.len() implies p[i] == q[i] by {
        lemma_line_prefix(p, q, x0, y0, x1, y1, i);
    }
    if p.len() < q.len() {
        let k = p.len() - 1;
        assert(p[k] == q[k]);
        assert(line_link(q, k, x0, y0, x1, y1));
    } else if q.len() < p.len() {
        let k = q.len() - 1;
        assert(p[k] == q[k]);
        assert(line_link(p, k, x0, y0, x1, y1));
    }
    assert(p =~= q);
}

proof fn lemma_line_prefix(p: Seq<(i32, i32)>, q: Seq<(i32, i32)>, x0: int, y0: int, x1: int, y1: int, i: int)
    requires
        is_line(p, x0, y0, x1, y1),
        is_line(q, x0, y0, x1, y1),
        0 <= i < p.len(),
        i < q.len(),
    ensures
        p[i] == q[i],
    decreases i,
{
    if i > 0 {
        lemma_line_prefix(p, q, x0, y0, x1, y1, i - 1);
        assert(line_link(p, i - 1, x0, y0, x1, y1));
        assert(line_link(q, i - 1, x0, y0, x1, y1));
    }
}

/// How far a point has come along the line from `(x0, y0)` to `(x1, y1)`:
/// the steps taken along both axes.
pub open spec fn progress(x0: int, y0: int, x1: int, y1: int, p: (i32, i32)) -> int {
    steps_taken(x0, x1, p.0 as int) + steps_taken(y0, y1, p.1 as int)
}

/// Each step of a line moves to one of the eight neighbouring cells and
/// makes progress.
proof fn lemma_line_one_step(pts: Seq<(i32, i32)>, x0: int, y0: int, x1: int, y1: int, i: int)
    requires
        is_line(pts, x0, y0, x1, y1),
        0 <= i < pts.len() - 1,
    ensures
        abs_int(pts[i + 1].0 - pts[i].0) <= 1,
        abs_int(pts[i + 1].1 - pts[i].1) <= 1,
        pts[i + 1] != pts[i],
        progress(x0, y0, x1, y1, pts[i + 1]) >= progress(x0, y0, x1, y1, pts[i]) + 1,
{
    assert(line_link(pts, i, x0, y0, x1, y1));
    let dx = abs_int(x1 - x0);
    let dy = abs_int(y1 - y0);
    let e = error_at(x0, y0, x1, y1, pts[i].0 as int, pts[i].1 as int);
    if !(2 * e >= -dy) && !(2 * e <= dx) {
        assert(false);
    }
}

/// Progress grows by at least one per point.
proof fn lemma_line_progress(pts: Seq<(i32, i32)>, x0: int, y0: int, x1: int, y1: int, i: int, j: int)
    requires
        is_line(pts, x0, y0, x1, y1),
        0 <= i <= j < pts.len(),
    ensures
        progress(x0, y0, x1, y1, pts[j]) >= progress(x0, y0, x1, y1, pts[i]) + (j - i),
    decreases j - i,
{
    if i < j {
        lemma_line_progress(pts, x0, y0, x1, y1, i, j - 1);
        lemma_line_one_step(pts, x0, y0, x1, y1, j - 1);
    }
}

/// A Bresenham line goes from cell to neighbouring cell (diagonals
/// included) and never visits a cell twice.
pub proof fn lemma_line_shape(pts: Seq<(i32, i32)>, x0: int, y0: int, x1: int, y1: int)
    requires
        is_line(pts, x0, y0, x1, y1),
    ensures
        forall|i: int|
            0 <= i < pts.len() - 1 ==> abs_int(#[trigger] pts[i + 1].0 - pts[i].0) <= 1 && abs_int(
                pts[i + 1].1 - pts[i].1,
            ) <= 1 && pts[i + 1] != pts[i],
        forall|i: int, j: int| 0 <= i < j < pts.len() ==> #[trigger] pts[i] != #[trigger] pts[j],
{
    assert forall|i: int| 0 <= i < pts.len() - 1 implies abs_int(#[trigger] pts[i + 1].0 - pts[i].0)
        <= 1 && abs_int(pts[i + 1].1 - pts[i].1) <= 1 && pts[i + 1] != pts[i] by {
        lemma_line_one_step(pts, x0, y0, x1, y1, i);
    }
    assert forall|i: int, j: int| 0 <= i < j < pts.len() implies #[trigger] pts[i] != #[trigger] pts[j] by {
        lemma_line_progress(pts, x0, y0, x1, y1, i, j);
    }
}

/// Along a line whose extent along x is at least that along y, every step
/// moves along x and the error term stays within a band; symmetrically when
/// the extent along y is larger.
proof fn lemma_line_major_axis(pts: Seq<(i32, i32)>, x0: int, y0: int, x1: int, y1: int, i: int)
    requires
        is_line(pts, x0, y0, x1, y1),
        0 <= i < pts.len(),
    ensures
        ({
            let dx = abs_int(x1 - x0);
            let dy = abs_int(y1 - y0);
            let e = error_at(x0, y0, x1, y1, pts[i].0 as int, pts[i].1 as int);
            &&& dx >= dy ==> steps_taken(x0, x1, pts[i].0 as int) == i && dx - 2 * dy <= 2 * e
                <= 3 * dx - 2 * dy
            &&& dy > dx ==> steps_taken(y0, y1, pts[i].1 as int) == i && 2 * dx - 3 * dy <= 2 * e
                <= 2 * dx - dy
        }),
    decreases i,
{
    let dx = abs_int(x1 - x0);
    let dy = abs_int(y1 - y0);
    if i == 0 {
        lemma_error_steps(dx, dy, 0, 0);
    } else {
        lemma_line_major_axis(pts, x0, y0, x1, y1, i - 1);
        assert(line_link(pts, i - 1, x0, y0, x1, y1));
        let a = steps_taken(x0, x1, pts[i - 1].0 as int);
        let b = steps_taken(y0, y1, pts[i - 1].1 as int);
        lemma_error_steps(dx, dy, a, b);
    }
}

/// A Bresenham line has one point per step along its longer axis, plus
/// the start.
pub proof fn lemma_line_length(pts: Seq<(i32, i32)>, x0: int, y0: int, x1: int, y1: int)
    requires
        is_line(pts, x0, y0, x1, y1),
    ensures
        pts.len() == (if abs_int(x1 - x0) >= abs_int(y1 - y0) {
            abs_int(x1 - x0)
        } else {
            abs_int(y1 - y0)
        }) + 1,
{
    lemma_line_major_axis(pts, x0, y0, x1, y1, pts.len() - 1);
}

/// The straight run of `k` steps from `(x0, y0)` in direction `(dx, dy)`.
pub open spec fn straight_run(x0: int, y0: int, dx: int, dy: int, k: int) -> Seq<(i32, i32)> {
    Seq::new((k + 1) as nat, |i: int| ((x0 + i * dx) as i32, (y0 + i * dy) as i32))
}

/// A straight horizontal or vertical run is the Bresenham line between its
/// ends.
pub proof fn lemma_straight_run_is_line(x0: int, y0: int, dx: int, dy: int, k: int)
    requires
        (dx == 1 && dy == 0) || (dx == -1 && dy == 0) || (dx == 0 && dy == 1) || (dx == 0 && dy
            == -1),
        1 <= k,
        i32::MIN <= x0 <= i32::MAX,
        i32::MIN <= y0 <= i32::MAX,
        i32::MIN <= x0 + k * dx <= i32::MAX,
        i32::MIN <= y0 + k * dy <= i32::MAX,
    ensures
        is_line(straight_run(x0, y0, dx, dy, k), x0, y0, x0 + k * dx, y0 + k * dy),
{
    reveal(line_error);
    let pts = straight_run(x0, y0, dx, dy, k);
    let x1 = x0 + k * dx;
    let y1 = y0 + k * dy;
    assert(point_int(pts[0]) == (x0, y0)) by {
        assert(0 * dx == 0 && 0 * dy == 0);
    }
    assert(point_int(pts[pts.len() - 1]) == (x1, y1));
    assert forall|i: int| 0 <= i < pts.len() - 1 implies #[trigger] line_link(pts, i, x0, y0, x1, y1) by {
        if dx == 1 {
            assert(i * dx == i && (i + 1) * dx == i + 1 && k * dx == k);
            assert(i * dy == 0 && (i + 1) * dy == 0 && k * dy == 0);
            assert(point_int(pts[i]) == (x0 + i, y0));
            assert(point_int(pts[i + 1]) == (x0 + i + 1, y0));
            assert(abs_int(x1 - x0) == k && abs_int(y1 - y0) == 0);
            assert(steps_taken(x0, x1, x0 + i) == i && steps_taken(y0, y1, y0) == 0);
            assert(line_error(k, 0, i, 0) == k * 1 - 0 * (1 + i));
            assert(error_at(x0, y0, x1, y1, x0 + i, y0) == k);
        } else if dx == -1 {
            assert(i * dx == -i && (i + 1) * dx == -(i + 1) && k * dx == -k);
            assert(i * dy == 0 && (i + 1) * dy == 0 && k * dy == 0);
            assert(point_int(pts[i]) == (x0 - i, y0));
            assert(point_int(pts[i + 1]) == (x0 - i - 1, y0));
            assert(abs_int(x1 - x0) == k && abs_int(y1 - y0) == 0);
            assert(steps_taken(x0, x1, x0 - i) == i && steps_taken(y0, y1, y0) == 0);
            assert(line_error(k, 0, i, 0) == k * 1 - 0 * (1 + i));
            assert(error_at(x0, y0, x1, y1, x0 - i, y0) == k);
        } else if dy == 1 {
            assert(i * dx == 0 && (i + 1) * dx == 0 && k * dx == 0);
            assert(i * dy == i && (i + 1) * dy == i + 1 && k * dy == k);
            assert(point_int(pts[i]) == (x0, y0 + i));
            assert(point_int(pts[i + 1]) == (x0, y0 + i + 1));
            assert(error_at(x0, y0, x1, y1, x0, y0 + i) == -k);
        } else {
            assert(i * dx == 0 && (i + 1) * dx == 0 && k * dx == 0);
            assert(i * dy == -i && (i + 1) * dy == -(i + 1) && k * dy == -k);
            assert(point_int(pts[i]) == (x0, y0 - i));
            assert(point_int(pts[i + 1]) == (x0, y0 - i - 1));
            assert(error_at(x0, y0, x1, y1, x0, y0 - i) == -k);
        }
    }
}

} // verus!
