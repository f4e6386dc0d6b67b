//! Topology of Dual Contouring: which cells of the sampling grid hold a
//! surface vertex, how those vertices are numbered, and the quads that
//! connect the four cells around every sign-changing grid edge.
//!
//! The grid has `dims` cells per axis and `dims + 1` sample points per
//! axis; `inside[i]` tells whether sample `i` (flat index
//! `x + y * vx + z * vx * vy`) lies inside the surface.
use vstd::prelude::*;
use crate::mesh::grid::{spec_grid_index, edge_endpoints, grid_index};

verus! {

/// Whether grid point `p` is inside.
pub open spec fn inside_at(inside: Seq<bool>, vx: int, vy: int, p: (int, int, int)) -> bool {
    inside[spec_grid_index(p.0, p.1, p.2, vx, vy)]
}

/// Whether some edge of cell `c` joins an inside point to an outside one.
pub open spec fn cell_crosses(inside: Seq<bool>, vx: int, vy: int, c: (int, int, int)) -> bool {
    exists|e: int|
        0 <= e < 12 && #[trigger] inside_at(inside, vx, vy, edge_endpoints(c, e).0) != inside_at(
            inside,
            vx,
            vy,
            edge_endpoints(c, e).1,
        )
}

/// Flat index of cell `c` in a grid of `d0 * d1` cells per z-layer.
pub open spec fn cell_index(c: (int, int, int), d0: int, d1: int) -> int {
    c.0 + d0 * (c.1 + d1 * c.2)
}

/// Whether `c` is a cell of a grid of `d` cells per axis.
pub open spec fn in_cells(c: (int, int, int), d: (u32, u32, u32)) -> bool {
    0 <= c.0 < d.0 && 0 <= c.1 < d.1 && 0 <= c.2 < d.2
}

/// Total number of cells.
pub open spec fn cell_total(d: (u32, u32, u32)) -> int {
    d.0 * (d.1 * d.2)
}

/// Total number of sample points.
pub open spec fn point_total(d: (u32, u32, u32)) -> int {
    (d.0 + 1) * (d.1 + 1) * (d.2 + 1)
}

/// The vertex numbering of a grid: the cells that hold a vertex are
/// numbered `0, 1, 2, ...` in flat cell order.
pub open spec fn numbered_in_order(cv: Seq<Option<u32>>, count: int) -> bool {
    &&& forall|i: int, j: int|
        0 <= i < j < cv.len() && (#[trigger] cv[i]) is Some && (#[trigger] cv[j]) is Some ==> cv[i]->0
            < cv[j]->0
    &&& forall|i: int| 0 <= i < cv.len() && (#[trigger] cv[i]) is Some ==> cv[i]->0 < count
    &&& forall|k: int| 0 <= k < count ==> #[trigger] has_number(cv, k)
}

/// Whether some cell carries vertex number `k`.
pub open spec fn has_number(cv: Seq<Option<u32>>, k: int) -> bool {
    exists|i: int| 0 <= i < cv.len() && #[trigger] cv[i] == Some(k as u32)
}

proof fn lemma_mixed_radix(a: int, b: int, c: int, a2: int, b2: int, c2: int, d0: int, d1: int)
    requires
        d0 > 0,
        d1 > 0,
        0 <= a < d0,
        0 <= a2 < d0,
        0 <= b < d1,
        0 <= b2 < d1,
        0 <= c,
        0 <= c2,
        a + d0 * (b + d1 * c) == a2 + d0 * (b2 + d1 * c2),
    ensures
        a == a2 && b == b2 && c == c2,
{
    let x = a + d0 * (b + d1 * c);
    assert(x == (b + d1 * c) * d0 + a && x == (b2 + d1 * c2) * d0 + a2) by (nonlinear_arith)
        requires
            x == a + d0 * (b + d1 * c),
            x == a2 + d0 * (b2 + d1 * c2),
    ;
    assert(b + d1 * c == c * d1 + b && b2 + d1 * c2 == c2 * d1 + b2) by (nonlinear_arith);
    vstd::arithmetic::div_mod::lemma_fundamental_div_mod_converse(x, d0, b + d1 * c, a);
    vstd::arithmetic::div_mod::lemma_fundamental_div_mod_converse(x, d0, b2 + d1 * c2, a2);
    let q = b + d1 * c;
    assert(q == b2 + d1 * c2);
    vstd::arithmetic::div_mod::lemma_fundamental_div_mod_converse(q, d1, c, b);
    vstd::arithmetic::div_mod::lemma_fundamental_div_mod_converse(q, d1, c2, b2);
}

proof fn lemma_cell_index_bound(c: (int, int, int), d: (u32, u32, u32))
    requires
        in_cells(c, d),
    ensures
        0 <= cell_index(c, d.0 as int, d.1 as int) < cell_total(d),
{
    let (d0, d1, d2) = (d.0 as int, d.1 as int, d.2 as int);
    assert(0 <= c.1 + d1 * c.2 <= d1 * d2 - 1) by (nonlinear_arith)
        requires
            0 <= c.1 < d1,
            0 <= c.2 < d2,
    ;
    assert(0 <= c.0 + d0 * (c.1 + d1 * c.2) < d0 * (d1 * d2)) by (nonlinear_arith)
        requires
            0 <= c.0 < d0,
            0 <= c.1 + d1 * c.2 <= d1 * d2 - 1,
    ;
}

proof fn lemma_point_index_bound(p: (int, int, int), d: (u32, u32, u32))
    requires
        0 <= p.0 <= d.0,
        0 <= p.1 <= d.1,
        0 <= p.2 <= d.2,
        point_total(d) <= u32::MAX,
    ensures
        d.0 + 1 <= u32::MAX,
        d.1 + 1 <= u32::MAX,
        0 <= spec_grid_index(p.0, p.1, p.2, d.0 + 1, d.1 + 1) < point_total(d),
        p.2 * (d.0 + 1) <= point_total(d),
{
    let (vx, vy, vz) = (d.0 + 1, d.1 + 1, d.2 + 1);
    assert(vx <= vx * vy * vz && vy <= vx * vy * vz) by (nonlinear_arith)
        requires
            vx >= 1,
            vy >= 1,
            vz >= 1,
    ;
    assert(0 <= p.0 + p.1 * vx <= vx * vy - 1) by (nonlinear_arith)
        requires
            0 <= p.0 < vx,
            0 <= p.1 < vy,
    ;
    assert(0 <= p.0 + p.1 * vx + p.2 * vx * vy < vx * vy * vz) by (nonlinear_arith)
        requires
            0 <= p.0 + p.1 * vx <= vx * vy - 1,
            0 <= p.2 < vz,
    ;
    assert(p.2 * vx <= vx * vy * vz) by (nonlinear_arith)
        requires
            0 <= p.2 < vz,
            vx >= 1,
            vy >= 1,
    ;
}

/// Whether sample point `(x, y, z)` is inside.
fn point_inside(inside: &Vec<bool>, d: (u32, u32, u32), x: u32, y: u32, z: u32) -> (r: bool)
    requires
        x <= d.0,
        y <= d.1,
        z <= d.2,
        point_total(d) <= u32::MAX,
        inside.len() >= point_total(d),
    ensures
        r == inside_at(inside@, d.0 + 1, d.1 + 1, (x as int, y as int, z as int)),
{
    proof {
        lemma_point_index_bound((x as int, y as int, z as int), d);
    }
    let i = grid_index(x, y, z, d.0 + 1, d.1 + 1);
    inside[i]
}

/// Grid point at corner `k` (0..8) of cell `(cx, cy, cz)`.
fn corner_point(cx: u32, cy: u32, cz: u32, k: usize) -> (p: (u32, u32, u32))
    requires
        k < 8,
        cx < u32::MAX,
        cy < u32::MAX,
        cz < u32::MAX,
    ensures
        (p.0 as int, p.1 as int, p.2 as int) == (
            cx + crate::mesh::grid::corner_offset(k as int).0,
            cy + crate::mesh::grid::corner_offset(k as int).1,
            cz + crate::mesh::grid::corner_offset(k as int).2,
        ),
{
    match k {
        0 => (cx, cy, cz),
        1 => (cx + 1, cy, cz),
        2 => (cx + 1, cy + 1, cz),
        3 => (cx, cy + 1, cz),
        4 => (cx, cy, cz + 1),
        5 => (cx + 1, cy, cz + 1),
        6 => (cx + 1, cy + 1, cz + 1),
        _ => (cx, cy + 1, cz + 1),
    }
}

/// The corners joined by cell edge `e` (0..12).
fn edge_corner_pair(e: usize) -> (r: (usize, usize))
    requires
        e < 12,
    ensures
        (r.0 as int, r.1 as int) == crate::mesh::grid::edge_corners(e as int),
        r.0 < 8,
        r.1 < 8,
{
    match e {
        0 => (0, 1),
        1 => (1, 2),
        2 => (3, 2),
        3 => (0, 3),
        4 => (4, 5),
        5 => (5, 6),
        6 => (7, 6),
        7 => (4, 7),
        8 => (0, 4),
        9 => (1, 5),
        10 => (2, 6),
        _ => (3, 7),
    }
}

/// Whether cell `(cx, cy, cz)` has an edge with a sign change.
pub fn cell_has_crossing(inside: &Vec<bool>, d: (u32, u32, u32), cx: u32, cy: u32, cz: u32) -> (r: bool)
    requires
        cx < d.0,
        cy < d.1,
        cz < d.2,
        point_total(d) <= u32::MAX,
        inside.len() >= point_total(d),
    ensures
        r == cell_crosses(inside@, d.0 + 1, d.1 + 1, (cx as int, cy as int, cz as int)),
{
    let ghost c = (cx as int, cy as int, cz as int);
    let ghost (vx, vy) = (d.0 + 1, d.1 + 1);
    let mut e: usize = 0;
    while e < 12
        invariant
            e <= 12,
            cx < d.0,
            cy < d.1,
            cz < d.2,
            c == (cx as int, cy as int, cz as int),
            vx == d.0 + 1,
            vy == d.1 + 1,
            point_total(d) <= u32::MAX,
            inside.len() >= point_total(d),
            forall|k: int|
                0 <= k < e ==> #[trigger] inside_at(inside@, vx, vy, edge_endpoints(c, k).0) == inside_at(
                    inside@,
                    vx,
                    vy,
                    edge_endpoints(c, k).1,
                ),
        decreases 12 - e,
    {
        let (a, b) = edge_corner_pair(e);
        let p = corner_point(cx, cy, cz, a);
        let q = corner_point(cx, cy, cz, b);
        let ia = point_inside(inside, d, p.0, p.1, p.2);
        let ib = point_inside(inside, d, q.0, q.1, q.2);
        if ia != ib {
            assert(inside_at(inside@, vx, vy, edge_endpoints(c, e as int).0) != inside_at(
                inside@,
                vx,
                vy,
                edge_endpoints(c, e as int).1,
            ));
            return true;
        }
        e = e + 1;
    }
    false
}

/// Numbers the cells that hold a surface vertex: `cv[cell]` is
/// `Some(n)` for the `n`-th such cell in flat cell order (x fastest, then
/// y, then z) and `None` for the others; `count` such cells in all.
pub fn number_crossing_cells(inside: &Vec<bool>, d: (u32, u32, u32)) -> (r: (Vec<Option<u32>>, u32))
    requires
        point_total(d) <= u32::MAX,
        inside.len() >= point_total(d),
    ensures
        r.0.len() == cell_total(d),
        forall|c: (int, int, int)| #[trigger] in_cells(c, d) ==>
            (r.0@[cell_index(c, d.0 as int, d.1 as int)] is Some <==> cell_crosses(inside@, d.0 + 1, d.1 + 1, c)),
        numbered_in_order(r.0@, r.1 as int),
{
    let ghost (d0, d1, d2) = (d.0 as int, d.1 as int, d.2 as int);
    proof {
        assert(cell_total(d) <= point_total(d)) by (nonlinear_arith)
            requires
                d0 >= 0,
                d1 >= 0,
                d2 >= 0,
        ;
    }
    let mut cv: Vec<Option<u32>> = Vec::new();
    let mut count: u32 = 0;
    if d.0 == 0 || d.1 == 0 || d.2 == 0 {
        proof {
            assert(d.0 * (d.1 * d.2) == 0) by (nonlinear_arith)
                requires
                    d.0 == 0 || d.1 == 0 || d.2 == 0,
            ;
        }
        return (cv, count);
    }
    let mut cz: u32 = 0;
    assert(d0 * (d1 * 0) == 0) by (nonlinear_arith);
    while cz < d.2
        invariant
            d0 == d.0,
            d1 == d.1,
            d2 == d.2,
            d.0 > 0 && d.1 > 0,
            cz <= d.2,
            cell_total(d) <= point_total(d) <= u32::MAX,
            inside.len() >= point_total(d),
            cv.len() == d0 * (d1 * cz),
            count <= cv.len(),
            forall|c: (int, int, int)| #[trigger] in_cells(c, d) && c.2 < cz ==>
                (cv@[cell_index(c, d0, d1)] is Some <==> cell_crosses(inside@, d0 + 1, d1 + 1, c)),
            numbered_in_order(cv@, count as int),
        decreases d.2 - cz,
    {
        let mut cy: u32 = 0;
        while cy < d.1
            invariant
                d0 == d.0,
                d1 == d.1,
                d2 == d.2,
                d.0 > 0 && d.1 > 0,
                cz < d.2,
                cy <= d.1,
                cell_total(d) <= point_total(d) <= u32::MAX,
                inside.len() >= point_total(d),
                cv.len() == d0 * (cy + d1 * cz),
                count <= cv.len(),
                forall|c: (int, int, int)| #[trigger] in_cells(c, d) && (c.2 < cz || (c.2 == cz && c.1 < cy)) ==>
                    (cv@[cell_index(c, d0, d1)] is Some <==> cell_crosses(inside@, d0 + 1, d1 + 1, c)),
                numbered_in_order(cv@, count as int),
            decreases d.1 - cy,
        {
            let mut cx: u32 = 0;
            while cx < d.0
                invariant
                    d0 == d.0,
                    d1 == d.1,
                    d2 == d.2,
                    d.0 > 0 && d.1 > 0,
                    cz < d.2,
                    cy < d.1,
                    cx <= d.0,
                    cell_total(d) <= point_total(d) <= u32::MAX,
                    inside.len() >= point_total(d),
                    cv.len() == cx + d0 * (cy + d1 * cz),
                    count <= cv.len(),
                    forall|c: (int, int, int)|
                        #[trigger] in_cells(c, d) && (c.2 < cz || (c.2 == cz && c.1 < cy) || (c.2 == cz && c.1
                            == cy && c.0 < cx)) ==> (cv@[cell_index(c, d0, d1)] is Some <==> cell_crosses(
                            inside@,
                            d0 + 1,
                            d1 + 1,
                            c,
                        )),
                    numbered_in_order(cv@, count as int),
                decreases d.0 - cx,
            {
                let ghost here = (cx as int, cy as int, cz as int);
                proof {
                    lemma_cell_index_bound(here, d);
                }
                let ghost old_cv = cv@;
                let crosses = cell_has_crossing(inside, d, cx, cy, cz);
                if crosses {
                    cv.push(Some(count));
                    proof {
                        assert forall|k: int| 0 <= k < count + 1 implies #[trigger] has_number(cv@, k) by {
                            if k == count {
                                assert(cv@[cv@.len() - 1] == Some(k as u32));
                            } else {
                                assert(has_number(old_cv, k));
                                let i = choose|i: int| 0 <= i < old_cv.len() && #[trigger] old_cv[i] == Some(k as u32);
                                assert(cv@[i] == Some(k as u32));
                            }
                        }
                    }
                    count = count + 1;
                } else {
                    cv.push(None);
                    proof {
                        assert forall|k: int| 0 <= k < count implies #[trigger] has_number(cv@, k) by {
                            assert(has_number(old_cv, k));
                            let i = choose|i: int| 0 <= i < old_cv.len() && #[trigger] old_cv[i] == Some(k as u32);
                            assert(cv@[i] == Some(k as u32));
                        }
                    }
                }
                proof {
                    assert forall|c: (int, int, int)|
                        #[trigger] in_cells(c, d) && (c.2 < cz || (c.2 == cz && c.1 < cy) || (c.2 == cz && c.1
                            == cy && c.0 < cx + 1)) implies (cv@[cell_index(c, d0, d1)] is Some
                        <==> cell_crosses(inside@, d0 + 1, d1 + 1, c)) by {
                        lemma_cell_index_bound(c, d);
                        if c == here {
                        } else {
                            if cell_index(c, d0, d1) == cell_index(here, d0, d1) {
                                lemma_mixed_radix(c.0, c.1, c.2, here.0, here.1, here.2, d0, d1);
                            }
                            assert(cell_index(c, d0, d1) < cell_index(here, d0, d1)) by {
                                lemma_lex_index_order(c, here, d);
                            }
                        }
                    }
                }
                cx = cx + 1;
            }
            proof {
                assert(d0 + d0 * (cy + d1 * cz) == d0 * ((cy + 1) + d1 * cz)) by (nonlinear_arith);
            }
            cy = cy + 1;
        }
        proof {
            assert(d0 * (d1 + d1 * cz) == d0 * (d1 * (cz + 1))) by (nonlinear_arith);
        }
        cz = cz + 1;
    }
    proof {
        assert(d0 * (d1 * d2) == cell_total(d));
    }
    (cv, count)
}

proof fn lemma_lex_index_order(c: (int, int, int), h: (int, int, int), d: (u32, u32, u32))
    requires
        in_cells(c, d),
        in_cells(h, d),
        c.2 < h.2 || (c.2 == h.2 && c.1 < h.1) || (c.2 == h.2 && c.1 == h.1 && c.0 < h.0),
    ensures
        cell_index(c, d.0 as int, d.1 as int) < cell_index(h, d.0 as int, d.1 as int),
{
    let (d0, d1) = (d.0 as int, d.1 as int);
    if c.2 < h.2 {
        assert(c.1 + d1 * c.2 < h.1 + d1 * h.2) by (nonlinear_arith)
            requires
                0 <= c.1 < d1,
                0 <= h.1,
                c.2 < h.2,
        ;
    }
    if c.2 < h.2 || c.1 < h.1 {
        assert(c.1 + d1 * c.2 < h.1 + d1 * h.2);
        assert(c.0 + d0 * (c.1 + d1 * c.2) < h.0 + d0 * (h.1 + d1 * h.2)) by (nonlinear_arith)
            requires
                0 <= c.0 < d0,
                0 <= h.0,
                c.1 + d1 * c.2 < h.1 + d1 * h.2,
        ;
    }
}

/// Loop extents `(outer, middle, inner)` of the edges along `axis`: the
/// coordinate along the axis runs over `0..extent`, the other two over
/// `1..extent` (interior edges only).
pub open spec fn axis_extents(axis: int, d: (u32, u32, u32)) -> (int, int, int) {
    if axis == 0 {
        (d.0 as int, d.1 as int, d.2 as int)
    } else if axis == 1 {
        (d.1 as int, d.0 as int, d.2 as int)
    } else {
        (d.2 as int, d.0 as int, d.1 as int)
    }
}

/// The grid point visited at loop position `(a, b, c)` for `axis`.
pub open spec fn axis_point(axis: int, a: int, b: int, c: int) -> (int, int, int) {
    if axis == 0 {
        (a, b, c)
    } else if axis == 1 {
        (b, a, c)
    } else {
        (b, c, a)
    }
}

/// Whether `(a, b, c)` is a loop position of the edges along `axis`.
pub open spec fn in_edge_range(axis: int, d: (u32, u32, u32), a: int, b: int, c: int) -> bool {
    let (na, nb, nc) = axis_extents(axis, d);
    0 <= a < na && 1 <= b < nb && 1 <= c < nc
}

/// The grid point one step from `p` along `axis`.
pub open spec fn step(axis: int, p: (int, int, int)) -> (int, int, int) {
    if axis == 0 {
        (p.0 + 1, p.1, p.2)
    } else if axis == 1 {
        (p.0, p.1 + 1, p.2)
    } else {
        (p.0, p.1, p.2 + 1)
    }
}

/// The four cells around the edge from `p` along `axis`, in quad order.
pub open spec fn quad_cells(axis: int, p: (int, int, int)) -> ((int, int, int), (int, int, int), (int, int, int), (int, int, int)) {
    if axis == 0 {
        (p, (p.0, p.1 - 1, p.2), (p.0, p.1 - 1, p.2 - 1), (p.0, p.1, p.2 - 1))
    } else if axis == 1 {
        (p, (p.0, p.1, p.2 - 1), (p.0 - 1, p.1, p.2 - 1), (p.0 - 1, p.1, p.2))
    } else {
        (p, (p.0 - 1, p.1, p.2), (p.0 - 1, p.1 - 1, p.2), (p.0, p.1 - 1, p.2))
    }
}

/// The quad emitted for the edge from `p` along `axis`: present when the
/// edge changes sign and all four cells hold a vertex, wound so that its
/// normal points from inside to outside.
pub open spec fn edge_quad(
    inside: Seq<bool>,
    cv: Seq<Option<u32>>,
    d: (u32, u32, u32),
    axis: int,
    p: (int, int, int),
) -> Option<[u32; 4]> {
    let (vx, vy) = (d.0 + 1, d.1 + 1);
    let (c0, c1, c2, c3) = quad_cells(axis, p);
    let (d0, d1) = (d.0 as int, d.1 as int);
    let v0 = cv[cell_index(c0, d0, d1)];
    let v1 = cv[cell_index(c1, d0, d1)];
    let v2 = cv[cell_index(c2, d0, d1)];
    let v3 = cv[cell_index(c3, d0, d1)];
    if inside_at(inside, vx, vy, p) != inside_at(inside, vx, vy, step(axis, p)) && v0 is Some
        && v1 is Some && v2 is Some && v3 is Some {
        if inside_at(inside, vx, vy, p) {
            Some([v0->0, v1->0, v2->0, v3->0])
        } else {
            Some([v0->0, v3->0, v2->0, v1->0])
        }
    } else {
        None
    }
}

/// Number of values of the outer, middle and inner loop coordinate of the
/// edges along `axis` (the middle and inner ones start at 1).
pub open spec fn axis_loop_counts(axis: int, d: (u32, u32, u32)) -> (int, int, int) {
    let (na, nb, nc) = axis_extents(axis, d);
    (na, if nb > 0 { nb - 1 } else { 0 }, if nc > 0 { nc - 1 } else { 0 })
}

/// Loop position of the `e`-th edge visited along `axis`.
pub open spec fn edge_at(axis: int, d: (u32, u32, u32), e: int) -> (int, int, int) {
    let (na, m, k) = axis_loop_counts(axis, d);
    ((e / k) / m, 1 + (e / k) % m, 1 + e % k)
}

/// The quads of the first `e` edges visited along `axis`, in visiting order.
pub open spec fn axis_quads(
    inside: Seq<bool>,
    cv: Seq<Option<u32>>,
    d: (u32, u32, u32),
    axis: int,
    e: nat,
) -> Seq<[u32; 4]>
    decreases e,
{
    if e == 0 {
        Seq::empty()
    } else {
        let (a, b, c) = edge_at(axis, d, e - 1);
        axis_quads(inside, cv, d, axis, (e - 1) as nat) + match edge_quad(inside, cv, d, axis, axis_point(axis, a, b, c)) {
            Some(q) => seq![q],
            None => Seq::empty(),
        }
    }
}

/// Number of interior edges along `axis`.
pub open spec fn axis_edge_count(axis: int, d: (u32, u32, u32)) -> int {
    let (na, m, k) = axis_loop_counts(axis, d);
    (na * m) * k
}

proof fn lemma_edge_at(axis: int, d: (u32, u32, u32), a: int, b: int, c: int)
    requires
        0 <= axis < 3,
        in_edge_range(axis, d, a, b, c),
    ensures
        edge_at(axis, d, (a * axis_loop_counts(axis, d).1 + (b - 1)) * axis_loop_counts(axis, d).2 + (c - 1))
            == (a, b, c),
{
    let (na, m, k) = axis_loop_counts(axis, d);
    let q = a * m + (b - 1);
    let e = q * k + (c - 1);
    vstd::arithmetic::div_mod::lemma_fundamental_div_mod_converse(e, k, q, c - 1);
    assert(q == a * m + (b - 1) && q == a * m + (b - 1));
    assert(a * m == m * a) by (nonlinear_arith);
    vstd::arithmetic::div_mod::lemma_fundamental_div_mod_converse(q, m, a, b - 1);
}

/// Whether `q` occurs in `quads`.
pub open spec fn listed(quads: Seq<[u32; 4]>, q: [u32; 4]) -> bool {
    exists|k: int| 0 <= k < quads.len() && #[trigger] quads[k] == q
}

/// Whether `q` is the quad of some interior grid edge.
pub open spec fn quad_of_grid(inside: Seq<bool>, cv: Seq<Option<u32>>, d: (u32, u32, u32), q: [u32; 4]) -> bool {
    exists|axis: int| 0 <= axis < 3 && #[trigger] quad_of_axis(inside, cv, d, axis, q)
}

/// Whether `q` is the quad of some edge along `axis`.
pub open spec fn quad_of_axis(inside: Seq<bool>, cv: Seq<Option<u32>>, d: (u32, u32, u32), axis: int, q: [u32; 4]) -> bool {
    exists|a: int, b: int, c: int|
        #[trigger] in_edge_range(axis, d, a, b, c) && edge_quad(inside, cv, d, axis, axis_point(axis, a, b, c))
            == Some(q)
}

proof fn lemma_axis_point_bounds(axis: int, d: (u32, u32, u32), a: int, b: int, c: int)
    requires
        0 <= axis < 3,
        in_edge_range(axis, d, a, b, c),
    ensures
        ({
            let p = axis_point(axis, a, b, c);
            let q = step(axis, p);
            let (c0, c1, c2, c3) = quad_cells(axis, p);
            &&& 0 <= p.0 <= d.0 && 0 <= p.1 <= d.1 && 0 <= p.2 <= d.2
            &&& 0 <= q.0 <= d.0 && 0 <= q.1 <= d.1 && 0 <= q.2 <= d.2
            &&& in_cells(c0, d) && in_cells(c1, d) && in_cells(c2, d) && in_cells(c3, d)
        }),
{
}

/// The vertex number of cell `c`.
fn cell_vertex(cv: &Vec<Option<u32>>, d: (u32, u32, u32), c: (u32, u32, u32)) -> (r: Option<u32>)
    requires
        in_cells((c.0 as int, c.1 as int, c.2 as int), d),
        cv.len() == cell_total(d),
        cell_total(d) <= u32::MAX,
    ensures
        r == cv@[cell_index((c.0 as int, c.1 as int, c.2 as int), d.0 as int, d.1 as int)],
{
    let ghost (d0, d1, d2) = (d.0 as int, d.1 as int, d.2 as int);
    proof {
        lemma_cell_index_bound((c.0 as int, c.1 as int, c.2 as int), d);
        assert(d1 * c.2 <= d1 * c.2 + c.1 <= d0 * (c.1 + d1 * c.2)) by (nonlinear_arith)
            requires
                d0 >= 1,
                c.1 >= 0,
                c.2 >= 0,
                d1 >= 0,
        ;
    }
    let inner: usize = (d.1 as usize) * (c.2 as usize);
    let mid: usize = (c.1 as usize) + inner;
    let outer: usize = (d.0 as usize) * mid;
    cv[c.0 as usize + outer]
}

/// Appends the quads of the interior edges along `axis` (0 = X, 1 = Y,
/// 2 = Z) to `quads`, visiting the edges in the extraction order.
fn push_axis_quads(
    quads: &mut Vec<[u32; 4]>,
    inside: &Vec<bool>,
    d: (u32, u32, u32),
    cv: &Vec<Option<u32>>,
    axis: u8,
)
    requires
        axis < 3,
        point_total(d) <= u32::MAX,
        inside.len() >= point_total(d),
        cv.len() == cell_total(d),
        cell_total(d) <= u32::MAX,
    ensures
        final(quads)@.len() >= old(quads)@.len(),
        final(quads)@.subrange(0, old(quads)@.len() as int) == old(quads)@,
        final(quads)@ == old(quads)@ + axis_quads(inside@, cv@, d, axis as int, axis_edge_count(axis as int, d) as nat),
        forall|k: int| old(quads)@.len() <= k < final(quads)@.len() ==>
            quad_of_axis(inside@, cv@, d, axis as int, #[trigger] final(quads)@[k]),
        forall|a: int, b: int, c: int|
            #[trigger] in_edge_range(axis as int, d, a, b, c) && edge_quad(inside@, cv@, d, axis as int, axis_point(axis as int, a, b, c)) is Some
            ==> listed(final(quads)@, edge_quad(inside@, cv@, d, axis as int, axis_point(axis as int, a, b, c))->0),
{
    let ghost ax = axis as int;
    let ghost start = quads@;
    let (na, nb, nc) = if axis == 0 {
        (d.0, d.1, d.2)
    } else if axis == 1 {
        (d.1, d.0, d.2)
    } else {
        (d.2, d.0, d.1)
    };
    assert((na as int, nb as int, nc as int) == axis_extents(ax, d));
    let ghost m: int = if nb > 0 { nb - 1 } else { 0 };
    let ghost k: int = if nc > 0 { nc - 1 } else { 0 };
    assert(quads@ =~= start + axis_quads(inside@, cv@, d, ax, ((0 * m) * k) as nat)) by {
        assert((0 * m) * k == 0) by (nonlinear_arith);
    }
    let mut a: u32 = 0;
    while a < na
        invariant
            ax == axis as int,
            axis < 3,
            (na as int, nb as int, nc as int) == axis_extents(ax, d),
            point_total(d) <= u32::MAX,
            inside.len() >= point_total(d),
            cv.len() == cell_total(d),
            cell_total(d) <= u32::MAX,
            a <= na,
            (na as int, m as int, k as int) == axis_loop_counts(ax, d),
            quads@ == start + axis_quads(inside@, cv@, d, ax, ((a * m) * k) as nat),
            quads@.len() >= start.len(),
            quads@.subrange(0, start.len() as int) == start,
            forall|k: int| start.len() <= k < quads@.len() ==> quad_of_axis(inside@, cv@, d, ax, #[trigger] quads@[k]),
            forall|a1: int, b1: int, c1: int|
                #[trigger] in_edge_range(ax, d, a1, b1, c1) && a1 < a && edge_quad(inside@, cv@, d, ax, axis_point(ax, a1, b1, c1)) is Some
                ==> listed(quads@, edge_quad(inside@, cv@, d, ax, axis_point(ax, a1, b1, c1))->0),
        decreases na - a,
    {
        let mut b: u32 = 1;
        while b < nb
            invariant
                ax == axis as int,
                axis < 3,
                (na as int, nb as int, nc as int) == axis_extents(ax, d),
                point_total(d) <= u32::MAX,
                inside.len() >= point_total(d),
                cv.len() == cell_total(d),
                cell_total(d) <= u32::MAX,
                a < na,
                1 <= b,
                b <= nb || nb == 0,
                nb == 0 ==> b == 1,
                (na as int, m as int, k as int) == axis_loop_counts(ax, d),
                nb == 0 ==> m == 0,
                nb > 0 ==> m == nb - 1,
                quads@ == start + axis_quads(inside@, cv@, d, ax, ((a * m + (b - 1)) * k) as nat),
                quads@.len() >= start.len(),
                quads@.subrange(0, start.len() as int) == start,
                forall|k: int| start.len() <= k < quads@.len() ==> quad_of_axis(inside@, cv@, d, ax, #[trigger] quads@[k]),
                forall|a1: int, b1: int, c1: int|
                    #[trigger] in_edge_range(ax, d, a1, b1, c1) && (a1 < a || (a1 == a && b1 < b)) && edge_quad(inside@, cv@, d, ax, axis_point(ax, a1, b1, c1)) is Some
                    ==> listed(quads@, edge_quad(inside@, cv@, d, ax, axis_point(ax, a1, b1, c1))->0),
            decreases nb - b,
        {
            let mut c: u32 = 1;
            while c < nc
                invariant
                    ax == axis as int,
                    axis < 3,
                    (na as int, nb as int, nc as int) == axis_extents(ax, d),
                    point_total(d) <= u32::MAX,
                    inside.len() >= point_total(d),
                    cv.len() == cell_total(d),
                    cell_total(d) <= u32::MAX,
                    a < na,
                    1 <= b < nb,
                    1 <= c,
                    c <= nc || nc == 0,
                    nc == 0 ==> c == 1,
                    (na as int, m as int, k as int) == axis_loop_counts(ax, d),
                    m == nb - 1,
                    nc == 0 ==> k == 0,
                    nc > 0 ==> k == nc - 1,
                    quads@ == start + axis_quads(inside@, cv@, d, ax, ((a * m + (b - 1)) * k + (c - 1)) as nat),
                    quads@.len() >= start.len(),
                    quads@.subrange(0, start.len() as int) == start,
                    forall|k: int| start.len() <= k < quads@.len() ==> quad_of_axis(inside@, cv@, d, ax, #[trigger] quads@[k]),
                    forall|a1: int, b1: int, c1: int|
                        #[trigger] in_edge_range(ax, d, a1, b1, c1) && (a1 < a || (a1 == a && b1 < b) || (a1 == a && b1 == b && c1 < c))
                            && edge_quad(inside@, cv@, d, ax, axis_point(ax, a1, b1, c1)) is Some
                        ==> listed(quads@, edge_quad(inside@, cv@, d, ax, axis_point(ax, a1, b1, c1))->0),
                decreases nc - c,
            {
                let ghost gp = axis_point(ax, a as int, b as int, c as int);
                proof {
                    lemma_axis_point_bounds(ax, d, a as int, b as int, c as int);
                }
                let p: (u32, u32, u32) = if axis == 0 {
                    (a, b, c)
                } else if axis == 1 {
                    (b, a, c)
                } else {
                    (b, c, a)
                };
                let q: (u32, u32, u32) = if axis == 0 {
                    (p.0 + 1, p.1, p.2)
                } else if axis == 1 {
                    (p.0, p.1 + 1, p.2)
                } else {
                    (p.0, p.1, p.2 + 1)
                };
                let ip = point_inside(inside, d, p.0, p.1, p.2);
                let iq = point_inside(inside, d, q.0, q.1, q.2);
                let ghost old_quads = quads@;
                if ip != iq {
                    let (c0, c1, c2, c3) = if axis == 0 {
                        (p, (p.0, p.1 - 1, p.2), (p.0, p.1 - 1, p.2 - 1), (p.0, p.1, p.2 - 1))
                    } else if axis == 1 {
                        (p, (p.0, p.1, p.2 - 1), (p.0 - 1, p.1, p.2 - 1), (p.0 - 1, p.1, p.2))
                    } else {
                        (p, (p.0 - 1, p.1, p.2), (p.0 - 1, p.1 - 1, p.2), (p.0, p.1 - 1, p.2))
                    };
                    let v0 = cell_vertex(cv, d, c0);
                    let v1 = cell_vertex(cv, d, c1);
                    let v2 = cell_vertex(cv, d, c2);
                    let v3 = cell_vertex(cv, d, c3);
                    match (v0, v1, v2, v3) {
                        (Some(w0), Some(w1), Some(w2), Some(w3)) => {
                            let quad = if ip { [w0, w1, w2, w3] } else { [w0, w3, w2, w1] };
                            quads.push(quad);
                            proof {
                                assert(edge_quad(inside@, cv@, d, ax, gp) == Some(quad));
                                assert(in_edge_range(ax, d, a as int, b as int, c as int));
                                assert(quad_of_axis(inside@, cv@, d, ax, quad));
                                assert(quads@[quads@.len() - 1] == quad);
                            }
                        },
                        _ => {
                            assert(edge_quad(inside@, cv@, d, ax, gp) is None);
                        },
                    }
                } else {
                    assert(edge_quad(inside@, cv@, d, ax, gp) is None);
                }
                proof {
                    let e = (a * m + (b - 1)) * k + (c - 1);
                    lemma_edge_at(ax, d, a as int, b as int, c as int);
                    assert(edge_at(ax, d, e) == (a as int, b as int, c as int));
                    assert(((e + 1) as nat - 1) as nat == e as nat);
                    assert(quads@ =~= start + axis_quads(inside@, cv@, d, ax, (e + 1) as nat));
                    assert((a * m + (b - 1)) * k + (c + 1 - 1) == e + 1);
                    assert(quads@.subrange(0, old_quads.len() as int) == old_quads);
                    assert forall|k: int| 0 <= k < old_quads.len() implies quads@[k] == old_quads[k] by {
                        assert(quads@.subrange(0, old_quads.len() as int)[k] == quads@[k]);
                    }
                    assert(quads@.subrange(0, start.len() as int) =~= start) by {
                        assert forall|k: int| 0 <= k < start.len() implies quads@[k] == start[k] by {
                            assert(old_quads.subrange(0, start.len() as int)[k] == old_quads[k]);
                        }
                    }
                    assert forall|a1: int, b1: int, c1: int|
                        #[trigger] in_edge_range(ax, d, a1, b1, c1) && (a1 < a || (a1 == a && b1 < b) || (a1 == a && b1 == b && c1 < c + 1))
                            && edge_quad(inside@, cv@, d, ax, axis_point(ax, a1, b1, c1)) is Some
                        implies listed(quads@, edge_quad(inside@, cv@, d, ax, axis_point(ax, a1, b1, c1))->0) by {
                        let eq = edge_quad(inside@, cv@, d, ax, axis_point(ax, a1, b1, c1))->0;
                        if a1 == a && b1 == b && c1 == c {
                            assert(quads@[quads@.len() - 1] == eq);
                        } else {
                            assert(listed(old_quads, eq));
                            let k = choose|k: int| 0 <= k < old_quads.len() && #[trigger] old_quads[k] == eq;
                            assert(quads@[k] == eq);
                        }
                    }
                }
                c = c + 1;
            }
            proof {
                assert((a * m + (b - 1)) * k + (c - 1) == (a * m + (b + 1 - 1)) * k) by (nonlinear_arith)
                    requires
                        (nc == 0 && k == 0 && c == 1) || (nc > 0 && k == nc - 1 && c == nc),
                ;
            }
            b = b + 1;
        }
        proof {
            assert((a * m + (b - 1)) * k == ((a + 1) * m) * k) by (nonlinear_arith)
                requires
                    (nb == 0 && m == 0 && b == 1) || (nb > 0 && m == nb - 1 && b == nb),
            ;
        }
        a = a + 1;
    }
    proof {
        assert(axis_edge_count(ax, d) == (na * m) * k);
    }
}

/// The quads of Dual Contouring: for every interior grid edge that joins
/// an inside sample to an outside one, the four cells around it are joined
/// into a quad, wound from inside to outside. Edges along X come first,
/// then Y, then Z.
pub fn dual_contour_quads(inside: &Vec<bool>, d: (u32, u32, u32), cv: &Vec<Option<u32>>) -> (quads: Vec<[u32; 4]>)
    requires
        point_total(d) <= u32::MAX,
        inside.len() >= point_total(d),
        cv.len() == cell_total(d),
    ensures
        quads@ == axis_quads(inside@, cv@, d, 0, axis_edge_count(0, d) as nat) + axis_quads(
            inside@,
            cv@,
            d,
            1,
            axis_edge_count(1, d) as nat,
        ) + axis_quads(inside@, cv@, d, 2, axis_edge_count(2, d) as nat),
        forall|k: int| 0 <= k < quads.len() ==> quad_of_grid(inside@, cv@, d, #[trigger] quads@[k]),
        forall|axis: int, a: int, b: int, c: int|
            0 <= axis < 3 && #[trigger] in_edge_range(axis, d, a, b, c) && edge_quad(inside@, cv@, d, axis, axis_point(axis, a, b, c)) is Some
            ==> listed(quads@, edge_quad(inside@, cv@, d, axis, axis_point(axis, a, b, c))->0),
{
    proof {
        assert(cell_total(d) <= point_total(d)) by (nonlinear_arith)
            requires
                d.0 >= 0,
                d.1 >= 0,
                d.2 >= 0,
        ;
    }
    let mut quads: Vec<[u32; 4]> = Vec::new();
    push_axis_quads(&mut quads, inside, d, cv, 0);
    let ghost q0 = quads@;
    push_axis_quads(&mut quads, inside, d, cv, 1);
    let ghost q1 = quads@;
    push_axis_quads(&mut quads, inside, d, cv, 2);
    proof {
        assert(quads@ =~= axis_quads(inside@, cv@, d, 0, axis_edge_count(0, d) as nat) + axis_quads(
            inside@,
            cv@,
            d,
            1,
            axis_edge_count(1, d) as nat,
        ) + axis_quads(inside@, cv@, d, 2, axis_edge_count(2, d) as nat));
        assert forall|k: int| 0 <= k < quads.len() implies quad_of_grid(inside@, cv@, d, #[trigger] quads@[k]) by {
            if k < q0.len() {
                assert(q1.subrange(0, q0.len() as int)[k] == q1[k]);
                assert(quads@.subrange(0, q1.len() as int)[k] == quads@[k]);
                assert(quad_of_axis(inside@, cv@, d, 0, quads@[k]));
            } else if k < q1.len() {
                assert(quads@.subrange(0, q1.len() as int)[k] == quads@[k]);
                assert(quad_of_axis(inside@, cv@, d, 1, quads@[k]));
            } else {
                assert(quad_of_axis(inside@, cv@, d, 2, quads@[k]));
            }
        }
        assert forall|axis: int, a: int, b: int, c: int|
            0 <= axis < 3 && #[trigger] in_edge_range(axis, d, a, b, c) && edge_quad(inside@, cv@, d, axis, axis_point(axis, a, b, c)) is Some
            implies listed(quads@, edge_quad(inside@, cv@, d, axis, axis_point(axis, a, b, c))->0) by {
            let eq = edge_quad(inside@, cv@, d, axis, axis_point(axis, a, b, c))->0;
            if axis == 0 {
                assert(listed(q0, eq));
                let k = choose|k: int| 0 <= k < q0.len() && #[trigger] q0[k] == eq;
                assert(q1.subrange(0, q0.len() as int)[k] == q1[k]);
                assert(quads@.subrange(0, q1.len() as int)[k] == quads@[k]);
                assert(quads@[k] == eq);
            } else if axis == 1 {
                assert(listed(q1, eq));
                let k = choose|k: int| 0 <= k < q1.len() && #[trigger] q1[k] == eq;
                assert(quads@.subrange(0, q1.len() as int)[k] == quads@[k]);
                assert(quads@[k] == eq);
            }
        }
    }
    quads
}

/// Law: with the cells numbered by `number_crossing_cells`, every interior
/// grid edge that joins an inside sample to an outside one gets its quad
/// (the four cells around it all hold vertices, so the surface has no
/// hole there), and every corner of such a quad is a vertex number below
/// the vertex count.
pub proof fn lemma_sign_change_closes_surface(
    inside: Seq<bool>,
    d: (u32, u32, u32),
    cv: Seq<Option<u32>>,
    count: int,
    axis: int,
    a: int,
    b: int,
    c: int,
)
    requires
        0 <= axis < 3,
        cv.len() == cell_total(d),
        forall|cell: (int, int, int)| #[trigger] in_cells(cell, d) ==>
            (cv[cell_index(cell, d.0 as int, d.1 as int)] is Some <==> cell_crosses(inside, d.0 + 1, d.1 + 1, cell)),
        numbered_in_order(cv, count),
        in_edge_range(axis, d, a, b, c),
    ensures
        ({
            let p = axis_point(axis, a, b, c);
            inside_at(inside, d.0 + 1, d.1 + 1, p) != inside_at(inside, d.0 + 1, d.1 + 1, step(axis, p))
                ==> edge_quad(inside, cv, d, axis, p) is Some
        }),
        ({
            let q = edge_quad(inside, cv, d, axis, axis_point(axis, a, b, c));
            q is Some ==> q->0[0] < count && q->0[1] < count && q->0[2] < count && q->0[3] < count
        }),
{
    let p = axis_point(axis, a, b, c);
    let (vx, vy) = (d.0 + 1, d.1 + 1);
    let (c0, c1, c2, c3) = quad_cells(axis, p);
    lemma_axis_point_bounds(axis, d, a, b, c);
    let (d0, d1) = (d.0 as int, d.1 as int);
    lemma_cell_index_bound(c0, d);
    lemma_cell_index_bound(c1, d);
    lemma_cell_index_bound(c2, d);
    lemma_cell_index_bound(c3, d);
    if inside_at(inside, vx, vy, p) != inside_at(inside, vx, vy, step(axis, p)) {
        let (e0, e1, e2, e3) = if axis == 0 { (0int, 2int, 6int, 4int) }
            else if axis == 1 { (3int, 7int, 5int, 1int) }
            else { (8int, 9int, 10int, 11int) };
        assert(edge_endpoints(c0, e0) == (p, step(axis, p)));
        assert(edge_endpoints(c1, e1) == (p, step(axis, p)));
        assert(edge_endpoints(c2, e2) == (p, step(axis, p)));
        assert(edge_endpoints(c3, e3) == (p, step(axis, p)));
        assert(inside_at(inside, vx, vy, edge_endpoints(c0, e0).0) != inside_at(inside, vx, vy, edge_endpoints(c0, e0).1));
        assert(cell_crosses(inside, vx, vy, c0));
        assert(inside_at(inside, vx, vy, edge_endpoints(c1, e1).0) != inside_at(inside, vx, vy, edge_endpoints(c1, e1).1));
        assert(cell_crosses(inside, vx, vy, c1));
        assert(inside_at(inside, vx, vy, edge_endpoints(c2, e2).0) != inside_at(inside, vx, vy, edge_endpoints(c2, e2).1));
        assert(cell_crosses(inside, vx, vy, c2));
        assert(inside_at(inside, vx, vy, edge_endpoints(c3, e3).0) != inside_at(inside, vx, vy, edge_endpoints(c3, e3).1));
        assert(cell_crosses(inside, vx, vy, c3));
        assert(in_cells(c0, d) && in_cells(c1, d) && in_cells(c2, d) && in_cells(c3, d));
    }
    let i0 = cell_index(c0, d0, d1);
    let i1 = cell_index(c1, d0, d1);
    let i2 = cell_index(c2, d0, d1);
    let i3 = cell_index(c3, d0, d1);
    if cv[i0] is Some { assert(cv[i0]->0 < count); }
    if cv[i1] is Some { assert(cv[i1]->0 < count); }
    if cv[i2] is Some { assert(cv[i2]->0 < count); }
    if cv[i3] is Some { assert(cv[i3]->0 < count); }
}

/// Law: every corner of every quad that Dual Contouring emits over a
/// numbered grid is a vertex number below the vertex count.
pub proof fn lemma_quads_index_vertices(
    inside: Seq<bool>,
    d: (u32, u32, u32),
    cv: Seq<Option<u32>>,
    count: int,
    quads: Seq<[u32; 4]>,
)
    requires
        cv.len() == cell_total(d),
        numbered_in_order(cv, count),
        forall|k: int| 0 <= k < quads.len() ==> quad_of_grid(inside, cv, d, #[trigger] quads[k]),
    ensures
        forall|k: int, m: int| 0 <= k < quads.len() && 0 <= m < 4 ==> (#[trigger] quads[k][m]) < count,
{
    assert forall|k: int, m: int| 0 <= k < quads.len() && 0 <= m < 4 implies (#[trigger] quads[k][m]) < count by {
        let q = quads[k];
        assert(quad_of_grid(inside, cv, d, q));
        let axis = choose|axis: int| 0 <= axis < 3 && #[trigger] quad_of_axis(inside, cv, d, axis, q);
        let (a, b, c) = choose|a: int, b: int, c: int|
            #[trigger] in_edge_range(axis, d, a, b, c) && edge_quad(inside, cv, d, axis, axis_point(axis, a, b, c)) == Some(q);
        let p = axis_point(axis, a, b, c);
        let (c0, c1, c2, c3) = quad_cells(axis, p);
        lemma_axis_point_bounds(axis, d, a, b, c);
        lemma_cell_index_bound(c0, d);
        lemma_cell_index_bound(c1, d);
        lemma_cell_index_bound(c2, d);
        lemma_cell_index_bound(c3, d);
        let (d0, d1) = (d.0 as int, d.1 as int);
        let i0 = cell_index(c0, d0, d1);
        let i1 = cell_index(c1, d0, d1);
        let i2 = cell_index(c2, d0, d1);
        let i3 = cell_index(c3, d0, d1);
        if cv[i0] is Some { assert(cv[i0]->0 < count); }
        if cv[i1] is Some { assert(cv[i1]->0 < count); }
        if cv[i2] is Some { assert(cv[i2]->0 < count); }
        if cv[i3] is Some { assert(cv[i3]->0 < count); }
    }
}

/// The two triangles of quad `q`: split along the `q[0]`–`q[2]` diagonal
/// when `split02`, otherwise along `q[1]`–`q[3]`, keeping the quad's
/// winding.
pub open spec fn quad_split(q: [u32; 4], split02: bool) -> Seq<u32> {
    if split02 {
        seq![q[0], q[1], q[2], q[0], q[2], q[3]]
    } else {
        seq![q[0], q[1], q[3], q[1], q[2], q[3]]
    }
}

/// Whether `x` is one of the corners of quad `q`.
pub open spec fn quad_corner(q: [u32; 4], x: u32) -> bool {
    x == q[0] || x == q[1] || x == q[2] || x == q[3]
}

/// The triangle indices of the quads: two triangles (six indices) per quad,
/// in quad order, each quad split along the diagonal `split02` picks.
pub fn quad_triangles(quads: &Vec<[u32; 4]>, split02: &Vec<bool>) -> (indices: Vec<u32>)
    requires
        split02.len() == quads.len(),
        6 * quads.len() <= usize::MAX,
    ensures
        indices.len() == 6 * quads.len(),
        forall|k: int, j: int| 0 <= k < quads.len() && 0 <= j < 6 ==> #[trigger] indices@[6 * k + j]
            == quad_split(quads@[k], split02@[k])[j],
        forall|i: int| 0 <= i < indices.len() ==> quad_corner(quads@[i / 6], #[trigger] indices@[i]),
{
    let mut out: Vec<u32> = Vec::new();
    let mut k: usize = 0;
    while k < quads.len()
        invariant
            split02.len() == quads.len(),
            6 * quads.len() <= usize::MAX,
            k <= quads.len(),
            out.len() == 6 * k,
            forall|m: int, j: int| 0 <= m < k && 0 <= j < 6 ==> #[trigger] out@[6 * m + j]
                == quad_split(quads@[m], split02@[m])[j],
        decreases quads.len() - k,
    {
        let q = quads[k];
        if split02[k] {
            out.push(q[0]);
            out.push(q[1]);
            out.push(q[2]);
            out.push(q[0]);
            out.push(q[2]);
            out.push(q[3]);
        } else {
            out.push(q[0]);
            out.push(q[1]);
            out.push(q[3]);
            out.push(q[1]);
            out.push(q[2]);
            out.push(q[3]);
        }
        proof {
            assert forall|m: int, j: int| 0 <= m < k + 1 && 0 <= j < 6 implies #[trigger] out@[6 * m + j]
                == quad_split(quads@[m], split02@[m])[j] by {
                if m == k {
                    assert(out@[6 * m + j] == quad_split(q, split02@[m])[j]);
                }
            }
        }
        k = k + 1;
    }
    assert forall|i: int| 0 <= i < out.len() implies quad_corner(quads@[i / 6], #[trigger] out@[i]) by {
        let m = i / 6;
        let j = i % 6;
        assert(i == 6 * m + j);
        assert(out@[6 * m + j] == quad_split(quads@[m], split02@[m])[j]);
    }
    out
}

/// Law: the triangles of a Dual Contouring mesh are well formed. Splitting
/// the quads emitted over a numbered grid gives six indices per quad, each
/// a vertex number below the vertex count.
pub proof fn lemma_triangles_index_vertices(
    inside: Seq<bool>,
    d: (u32, u32, u32),
    cv: Seq<Option<u32>>,
    count: int,
    quads: Seq<[u32; 4]>,
    indices: Seq<u32>,
)
    requires
        cv.len() == cell_total(d),
        numbered_in_order(cv, count),
        forall|k: int| 0 <= k < quads.len() ==> quad_of_grid(inside, cv, d, #[trigger] quads[k]),
        indices.len() == 6 * quads.len(),
        forall|i: int| 0 <= i < indices.len() ==> quad_corner(quads[i / 6], #[trigger] indices[i]),
    ensures
        indices.len() % 6 == 0,
        forall|i: int| 0 <= i < indices.len() ==> (#[trigger] indices[i]) < count,
{
    lemma_quads_index_vertices(inside, d, cv, count, quads);
    assert forall|i: int| 0 <= i < indices.len() implies (#[trigger] indices[i]) < count by {
        let k = i / 6;
        assert(quad_corner(quads[k], indices[i]));
        assert(quads[k][0] < count && quads[k][1] < count && quads[k][2] < count && quads[k][3] < count);
    }
}

/// Coordinate `i` (0 = x, 1 = y, 2 = z) of a grid point or cell.
pub open spec fn coord(c: (int, int, int), i: int) -> int {
    if i == 0 { c.0 } else if i == 1 { c.1 } else { c.2 }
}

/// Whether cell `k` touches the edge from `p` along `axis`: it lies at the
/// same position along the axis, and at or just below `p` along each of the
/// two other axes.
pub open spec fn beside_edge(axis: int, p: (int, int, int), k: (int, int, int)) -> bool {
    let u = (axis + 1) % 3;
    let v = (axis + 2) % 3;
    &&& coord(k, axis) == coord(p, axis)
    &&& (coord(k, u) == coord(p, u) || coord(k, u) == coord(p, u) - 1)
    &&& (coord(k, v) == coord(p, v) || coord(k, v) == coord(p, v) - 1)
}

/// Twice the signed area swept from `a` to `b` around `p`, seen from the
/// positive end of `axis` (positive when turning counterclockwise).
pub open spec fn turn(axis: int, p: (int, int, int), a: (int, int, int), b: (int, int, int)) -> int {
    let u = (axis + 1) % 3;
    let v = (axis + 2) % 3;
    (coord(a, u) - coord(p, u)) * (coord(b, v) - coord(p, v)) - (coord(b, u) - coord(p, u)) * (coord(a, v) - coord(p, v))
}

/// Twice the signed area of the polygon `k0 k1 k2 k3` seen from the
/// positive end of `axis`: `2` for the four cells around an edge taken
/// counterclockwise (the polygon's normal points along `+axis`), `-2`
/// clockwise.
pub open spec fn winding(axis: int, p: (int, int, int), k0: (int, int, int), k1: (int, int, int), k2: (int, int, int), k3: (int, int, int)) -> int {
    turn(axis, p, k0, k1) + turn(axis, p, k1, k2) + turn(axis, p, k2, k3) + turn(axis, p, k3, k0)
}

/// Whether `q` joins the vertices of the cells `k0 k1 k2 k3`, four cells
/// around the edge from `p` along `axis`, in an order whose normal points
/// from the inside sample of the edge to the outside one.
pub open spec fn faces_outward(
    inside: Seq<bool>,
    cv: Seq<Option<u32>>,
    d: (u32, u32, u32),
    axis: int,
    p: (int, int, int),
    q: [u32; 4],
    k0: (int, int, int),
    k1: (int, int, int),
    k2: (int, int, int),
    k3: (int, int, int),
) -> bool {
    let (d0, d1) = (d.0 as int, d.1 as int);
    &&& beside_edge(axis, p, k0) && beside_edge(axis, p, k1) && beside_edge(axis, p, k2) && beside_edge(axis, p, k3)
    &&& winding(axis, p, k0, k1, k2, k3) == (if inside_at(inside, d.0 + 1, d.1 + 1, p) { 2int } else { -2int })
    &&& cv[cell_index(k0, d0, d1)] == Some(q[0])
    &&& cv[cell_index(k1, d0, d1)] == Some(q[1])
    &&& cv[cell_index(k2, d0, d1)] == Some(q[2])
    &&& cv[cell_index(k3, d0, d1)] == Some(q[3])
}

/// Law: every quad faces from inside to outside. For each interior edge
/// whose samples differ, the emitted quad joins the vertices of the four
/// cells around the edge, in the order that turns counterclockwise seen
/// from the outside sample: its normal points from the inside sample to
/// the outside one, whichever end of the edge is inside.
pub proof fn lemma_quads_face_outward(
    inside: Seq<bool>,
    d: (u32, u32, u32),
    cv: Seq<Option<u32>>,
    count: int,
    axis: int,
    a: int,
    b: int,
    c: int,
)
    requires
        0 <= axis < 3,
        cv.len() == cell_total(d),
        forall|cell: (int, int, int)| #[trigger] in_cells(cell, d) ==>
            (cv[cell_index(cell, d.0 as int, d.1 as int)] is Some <==> cell_crosses(inside, d.0 + 1, d.1 + 1, cell)),
        numbered_in_order(cv, count),
        in_edge_range(axis, d, a, b, c),
        inside_at(inside, d.0 + 1, d.1 + 1, axis_point(axis, a, b, c))
            != inside_at(inside, d.0 + 1, d.1 + 1, step(axis, axis_point(axis, a, b, c))),
    ensures
        ({
            let p = axis_point(axis, a, b, c);
            let q = edge_quad(inside, cv, d, axis, p);
            &&& q is Some
            &&& exists|k0: (int, int, int), k1: (int, int, int), k2: (int, int, int), k3: (int, int, int)|
                #[trigger] faces_outward(inside, cv, d, axis, p, q->0, k0, k1, k2, k3)
        }),
{
    let p = axis_point(axis, a, b, c);
    lemma_sign_change_closes_surface(inside, d, cv, count, axis, a, b, c);
    let q = edge_quad(inside, cv, d, axis, p)->0;
    let (c0, c1, c2, c3) = quad_cells(axis, p);
    let u = (axis + 1) % 3;
    let v = (axis + 2) % 3;
    if axis == 0 {
        assert(u == 1 && v == 2);
    } else if axis == 1 {
        assert(u == 2 && v == 0);
    } else {
        assert(u == 0 && v == 1);
    }
    assert(beside_edge(axis, p, c0) && beside_edge(axis, p, c1) && beside_edge(axis, p, c2) && beside_edge(axis, p, c3));
    assert(turn(axis, p, c0, c1) == 0);
    let (a1u, a1v) = (coord(c1, u) - coord(p, u), coord(c1, v) - coord(p, v));
    let (a2u, a2v) = (coord(c2, u) - coord(p, u), coord(c2, v) - coord(p, v));
    let (a3u, a3v) = (coord(c3, u) - coord(p, u), coord(c3, v) - coord(p, v));
    assert(a1u == -1 && a1v == 0 && a2u == -1 && a2v == -1 && a3u == 0 && a3v == -1);
    assert(a1u * a2v - a2u * a1v == 1) by (nonlinear_arith)
        requires
            a1u == -1 && a1v == 0 && a2u == -1 && a2v == -1,
    ;
    assert(a2u * a3v - a3u * a2v == 1) by (nonlinear_arith)
        requires
            a2u == -1 && a2v == -1 && a3u == 0 && a3v == -1,
    ;
    assert(a3u * a2v - a2u * a3v == -1) by (nonlinear_arith)
        requires
            a2u == -1 && a2v == -1 && a3u == 0 && a3v == -1,
    ;
    assert(a2u * a1v - a1u * a2v == -1) by (nonlinear_arith)
        requires
            a1u == -1 && a1v == 0 && a2u == -1 && a2v == -1,
    ;
    assert(turn(axis, p, c1, c2) == 1);
    assert(turn(axis, p, c2, c3) == 1);
    assert(turn(axis, p, c3, c0) == 0);
    assert(turn(axis, p, c0, c3) == 0);
    assert(turn(axis, p, c3, c2) == -1);
    assert(turn(axis, p, c2, c1) == -1);
    assert(turn(axis, p, c1, c0) == 0);
    if inside_at(inside, d.0 + 1, d.1 + 1, p) {
        assert(faces_outward(inside, cv, d, axis, p, q, c0, c1, c2, c3));
    } else {
        assert(faces_outward(inside, cv, d, axis, p, q, c0, c3, c2, c1));
    }
}

} // verus!
