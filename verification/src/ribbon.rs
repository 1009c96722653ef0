//! The topology of the ribbon a polyline is drawn with.
//!
//! Each point of a line becomes two vertices, one either side of it, and
//! each vertex carries the indices of its point's neighbours so that the
//! shader can miter the joints. Two triangles bridge every pair of adjacent
//! points. Everything here is index arithmetic; the coordinates themselves
//! are looked up by the renderer.

use vstd::prelude::*;

verus! {

/// The vertex layout and triangle list of a ribbon through `point_count`
/// points.
pub struct Ribbon {
    /// The point each vertex sits on; vertices come in pairs, one pair per point.
    pub points: Vec<usize>,
    /// The point before each vertex's point, or that point itself at the start.
    pub previous: Vec<usize>,
    /// The point after each vertex's point, or that point itself at the end.
    pub next: Vec<usize>,
    /// Which side of the line each vertex sits on: `-1` or `+1`.
    pub sides: Vec<i8>,
    /// Three vertex indices per triangle, two triangles per segment.
    pub indices: Vec<u32>,
}

/// The neighbour before point `p`; the first point is its own.
pub open spec fn previous_point(p: int) -> int {
    if p == 0 {
        0
    } else {
        p - 1
    }
}

/// The neighbour after point `p` of `n`; the last point is its own.
pub open spec fn next_point(p: int, n: int) -> int {
    if p + 1 < n {
        p + 1
    } else {
        n - 1
    }
}

/// The offset, from a segment's first vertex, of the `k`th corner of its two
/// triangles: (0, 1, 2) and (1, 3, 2).
pub open spec fn corner(k: int) -> int {
    if k == 0 {
        0
    } else if k == 1 {
        1
    } else if k == 2 {
        2
    } else if k == 3 {
        1
    } else if k == 4 {
        3
    } else {
        2
    }
}

/// The vertex at position `i` of the triangle list.
pub open spec fn ribbon_index(i: int) -> int {
    2 * (i / 6) + corner(i % 6)
}

impl Ribbon {
    /// Whether this is the ribbon through `n` points.
    pub open spec fn is_ribbon_of(&self, n: int) -> bool {
        &&& self.points@.len() == 2 * n
        &&& self.previous@.len() == 2 * n
        &&& self.next@.len() == 2 * n
        &&& self.sides@.len() == 2 * n
        &&& self.indices@.len() == 6 * (n - 1)
        &&& forall|v: int| 0 <= v < 2 * n ==> #[trigger] self.points@[v] == v / 2
        &&& forall|v: int| 0 <= v < 2 * n ==> #[trigger] self.previous@[v] == previous_point(v / 2)
        &&& forall|v: int| 0 <= v < 2 * n ==> #[trigger] self.next@[v] == next_point(v / 2, n)
        &&& forall|v: int|
            0 <= v < 2 * n ==> #[trigger] self.sides@[v] == (if v % 2 == 0 {
                -1int
            } else {
                1int
            })
        &&& forall|i: int| 0 <= i < 6 * (n - 1) ==> #[trigger] self.indices@[i] == ribbon_index(i)
    }
}

/// The `i`th corner of the triangle list through `n` points lies on the
/// segment's first point or on the next.
proof fn lemma_corner_on_segment(n: int, i: int)
    requires
        n >= 2,
        0 <= i < 6 * (n - 1),
    ensures
        0 <= ribbon_index(i) < 2 * n,
        ribbon_index(i) / 2 == i / 6 || ribbon_index(i) / 2 == i / 6 + 1,
{
}

/// Every triangle of a ribbon joins the two vertices of one point to those of
/// the next, so every index names a vertex that exists; and the ends of the
/// line are their own neighbours.
pub proof fn lemma_ribbon_joins_neighbours(r: Ribbon, n: int)
    requires
        n >= 2,
        r.is_ribbon_of(n),
    ensures
        forall|i: int|
            0 <= i < r.indices@.len() ==> #[trigger] r.indices@[i] < 2 * n && (r.points@[r.indices@[i] as int] == i / 6
                || r.points@[r.indices@[i] as int] == i / 6 + 1),
        r.previous@[0] == 0 && r.previous@[1] == 0,
        r.next@[2 * n - 2] == n - 1 && r.next@[2 * n - 1] == n - 1,
{
    assert forall|i: int| 0 <= i < r.indices@.len() implies #[trigger] r.indices@[i] < 2 * n && (
    r.points@[r.indices@[i] as int] == i / 6 || r.points@[r.indices@[i] as int] == i / 6 + 1) by {
        lemma_corner_on_segment(n, i);
    }
    assert(r.points@[0] == 0);
    assert(r.points@[1] == 0);
    assert(r.points@[2 * n - 2] == n - 1);
    assert(r.points@[2 * n - 1] == n - 1);
}

/// What each vertex of a ribbon through `n` points carries, in plain
/// arithmetic: vertices `2p` and `2p + 1` sit on point `p`, on sides `-1` and
/// `+1`; their previous point is `p - 1` and their next point `p + 1`, except
/// that the first point looks back at itself and the last looks ahead at
/// itself. Segment `s` is bridged by the triangles `(2s, 2s+1, 2s+2)` and
/// `(2s+1, 2s+3, 2s+2)`.
pub proof fn lemma_ribbon_layout(r: Ribbon, n: int)
    requires
        n >= 2,
        r.is_ribbon_of(n),
    ensures
        forall|p: int|
            0 <= p < n ==> #[trigger] r.points@[2 * p] == p && r.points@[2 * p + 1] == p
                && r.sides@[2 * p] == -1 && r.sides@[2 * p + 1] == 1,
        forall|p: int|
            0 < p < n ==> #[trigger] r.previous@[2 * p] == p - 1 && r.previous@[2 * p + 1] == p - 1,
        r.previous@[0] == 0 && r.previous@[1] == 0,
        forall|p: int|
            0 <= p < n - 1 ==> #[trigger] r.next@[2 * p] == p + 1 && r.next@[2 * p + 1] == p + 1,
        r.next@[2 * n - 2] == n - 1 && r.next@[2 * n - 1] == n - 1,
        forall|s: int|
            0 <= s < n - 1 ==> {
                &&& #[trigger] r.indices@[6 * s] == 2 * s
                &&& r.indices@[6 * s + 1] == 2 * s + 1
                &&& r.indices@[6 * s + 2] == 2 * s + 2
                &&& r.indices@[6 * s + 3] == 2 * s + 1
                &&& r.indices@[6 * s + 4] == 2 * s + 3
                &&& r.indices@[6 * s + 5] == 2 * s + 2
            },
{
    assert forall|p: int| 0 <= p < n implies #[trigger] r.points@[2 * p] == p && r.points@[2 * p
        + 1] == p && r.sides@[2 * p] == -1 && r.sides@[2 * p + 1] == 1 by {
        assert((2 * p) / 2 == p && (2 * p + 1) / 2 == p);
        assert((2 * p) % 2 == 0 && (2 * p + 1) % 2 == 1);
    }
    assert forall|p: int| 0 < p < n implies #[trigger] r.previous@[2 * p] == p - 1 && r.previous@[2
        * p + 1] == p - 1 by {
        assert((2 * p) / 2 == p && (2 * p + 1) / 2 == p);
    }
    assert forall|p: int| 0 <= p < n - 1 implies #[trigger] r.next@[2 * p] == p + 1 && r.next@[2 * p
        + 1] == p + 1 by {
        assert((2 * p) / 2 == p && (2 * p + 1) / 2 == p);
    }
    assert(r.previous@[0] == previous_point(0));
    assert(r.previous@[1] == previous_point(1int / 2));
    assert(r.next@[2 * n - 2] == next_point((2 * n - 2) / 2, n));
    assert(r.next@[2 * n - 1] == next_point((2 * n - 1) / 2, n));
    assert forall|s: int| 0 <= s < n - 1 implies {
        &&& #[trigger] r.indices@[6 * s] == 2 * s
        &&& r.indices@[6 * s + 1] == 2 * s + 1
        &&& r.indices@[6 * s + 2] == 2 * s + 2
        &&& r.indices@[6 * s + 3] == 2 * s + 1
        &&& r.indices@[6 * s + 4] == 2 * s + 3
        &&& r.indices@[6 * s + 5] == 2 * s + 2
    } by {
        assert((6 * s + 0) / 6 == s && (6 * s + 0) % 6 == 0);
        assert((6 * s + 1) / 6 == s && (6 * s + 1) % 6 == 1);
        assert((6 * s + 2) / 6 == s && (6 * s + 2) % 6 == 2);
        assert((6 * s + 3) / 6 == s && (6 * s + 3) % 6 == 3);
        assert((6 * s + 4) / 6 == s && (6 * s + 4) % 6 == 4);
        assert((6 * s + 5) / 6 == s && (6 * s + 5) % 6 == 5);
        assert(r.indices@[6 * s] == ribbon_index(6 * s));
        assert(r.indices@[6 * s + 1] == ribbon_index(6 * s + 1));
        assert(r.indices@[6 * s + 2] == ribbon_index(6 * s + 2));
        assert(r.indices@[6 * s + 3] == ribbon_index(6 * s + 3));
        assert(r.indices@[6 * s + 4] == ribbon_index(6 * s + 4));
        assert(r.indices@[6 * s + 5] == ribbon_index(6 * s + 5));
    }
}

/// Lays out the ribbon through `point_count` points, or `None` when there are
/// too few points to make a line.
pub fn ribbon(point_count: usize) -> (result: Option<Ribbon>)
    requires
        point_count <= 0x8000_0000,
    ensures
        result is None <==> point_count < 2,
        result matches Some(r) ==> r.is_ribbon_of(point_count as int),
{
    if point_count < 2 {
        return None;
    }
    let n = point_count;
    let mut points: Vec<usize> = Vec::new();
    let mut previous: Vec<usize> = Vec::new();
    let mut next: Vec<usize> = Vec::new();
    let mut sides: Vec<i8> = Vec::new();

    let mut p: usize = 0;
    while p < n
        invariant
            2 <= n <= 0x8000_0000,
            p <= n,
            points@.len() == 2 * p,
            previous@.len() == 2 * p,
            next@.len() == 2 * p,
            sides@.len() == 2 * p,
            forall|v: int| 0 <= v < 2 * p ==> #[trigger] points@[v] == v / 2,
            forall|v: int| 0 <= v < 2 * p ==> #[trigger] previous@[v] == previous_point(v / 2),
            forall|v: int| 0 <= v < 2 * p ==> #[trigger] next@[v] == next_point(v / 2, n as int),
            forall|v: int|
                0 <= v < 2 * p ==> #[trigger] sides@[v] == (if v % 2 == 0 {
                    -1int
                } else {
                    1int
                }),
        decreases n - p,
    {
        let before = if p == 0 {
            0
        } else {
            p - 1
        };
        let after = if p + 1 < n {
            p + 1
        } else {
            n - 1
        };
        let ghost (p0, b0, a0, s0) = (points@, previous@, next@, sides@);
        points.push(p);
        previous.push(before);
        next.push(after);
        sides.push(-1);
        points.push(p);
        previous.push(before);
        next.push(after);
        sides.push(1);
        proof {
            assert forall|v: int| 0 <= v < 2 * (p + 1) implies {
                &&& points@[v] == v / 2
                &&& previous@[v] == previous_point(v / 2)
                &&& next@[v] == next_point(v / 2, n as int)
                &&& sides@[v] == (if v % 2 == 0 {
                    -1int
                } else {
                    1int
                })
            } by {
                if v >= 2 * p {
                    assert(v / 2 == p);
                    assert(v % 2 == v - 2 * p);
                } else {
                    assert(points@[v] == p0[v]);
                    assert(previous@[v] == b0[v]);
                    assert(next@[v] == a0[v]);
                    assert(sides@[v] == s0[v]);
                }
            }
        }
        p = p + 1;
    }

    let mut indices: Vec<u32> = Vec::new();
    let mut segment: usize = 0;
    while segment < n - 1
        invariant
            2 <= n <= 0x8000_0000,
            segment <= n - 1,
            indices@.len() == 6 * segment,
            forall|i: int| 0 <= i < 6 * segment ==> #[trigger] indices@[i] == ribbon_index(i),
        decreases n - 1 - segment,
    {
        let base: u32 = (2 * segment) as u32;
        let ghost start = indices@.len() as int;
        indices.push(base);
        indices.push(base + 1);
        indices.push(base + 2);
        indices.push(base + 1);
        indices.push(base + 3);
        indices.push(base + 2);
        proof {
            assert forall|i: int| 0 <= i < 6 * (segment + 1) implies #[trigger] indices@[i]
                == ribbon_index(i) by {
                if i >= start {
                    assert(i / 6 == segment);
                    assert(i % 6 == i - start);
                }
            }
        }
        segment = segment + 1;
    }
    Some(Ribbon { points, previous, next, sides, indices })
}

} // verus!
