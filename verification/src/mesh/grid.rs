//! Sampling-grid addressing shared by the mesh extractors: flat indices of
//! grid vertices, the corners and edges of a cell, and canonical edge keys.
use vstd::prelude::*;

verus! {

/// Flat index of grid vertex `(x, y, z)` in a grid with `vx * vy` vertices
/// per z-layer: `x + y * vx + z * vx * vy` (the GPU compute shader layout).
pub open spec fn spec_grid_index(x: int, y: int, z: int, vx: int, vy: int) -> int {
    x + y * vx + z * vx * vy
}

/// Flat grid index of vertex `(x, y, z)`; the index (and `z * vx`) must
/// fit in 32 bits.
pub fn grid_index(x: u32, y: u32, z: u32, vx: u32, vy: u32) -> (i: usize)
    requires
        z * vx <= u32::MAX,
        spec_grid_index(x as int, y as int, z as int, vx as int, vy as int) <= u32::MAX,
    ensures
        i as int == spec_grid_index(x as int, y as int, z as int, vx as int, vy as int),
{
    proof {
        assert(0 <= y * vx) by (nonlinear_arith);
        assert(0 <= z * vx * vy) by (nonlinear_arith);
        assert(0 <= vx * vy) by (nonlinear_arith);
    }
    let a = y * vx;
    let b = z * vx;
    let c = b * vy;
    (x + a + c) as usize
}

/// Offset of corner `i` (0..8) of a cell from the cell's lower grid vertex.
pub open spec fn corner_offset(i: int) -> (int, int, int) {
    if i == 0 { (0, 0, 0) }
    else if i == 1 { (1, 0, 0) }
    else if i == 2 { (1, 1, 0) }
    else if i == 3 { (0, 1, 0) }
    else if i == 4 { (0, 0, 1) }
    else if i == 5 { (1, 0, 1) }
    else if i == 6 { (1, 1, 1) }
    else { (0, 1, 1) }
}

/// The two corners joined by cell edge `e` (0..12).
pub open spec fn edge_corners(e: int) -> (int, int) {
    if e == 0 { (0, 1) }
    else if e == 1 { (1, 2) }
    else if e == 2 { (3, 2) }
    else if e == 3 { (0, 3) }
    else if e == 4 { (4, 5) }
    else if e == 5 { (5, 6) }
    else if e == 6 { (7, 6) }
    else if e == 7 { (4, 7) }
    else if e == 8 { (0, 4) }
    else if e == 9 { (1, 5) }
    else if e == 10 { (2, 6) }
    else { (3, 7) }
}

/// Endpoints of edge `e` of cell `c`, as grid vertices.
pub open spec fn edge_endpoints(c: (int, int, int), e: int) -> ((int, int, int), (int, int, int)) {
    let (a, b) = edge_corners(e);
    (
        (c.0 + corner_offset(a).0, c.1 + corner_offset(a).1, c.2 + corner_offset(a).2),
        (c.0 + corner_offset(b).0, c.1 + corner_offset(b).1, c.2 + corner_offset(b).2),
    )
}

/// The grid edge from vertex `p` to vertex `q`, as (lower vertex, axis),
/// when `q` is `p`'s neighbour one step up along an axis.
pub open spec fn grid_edge(p: (int, int, int), q: (int, int, int)) -> Option<(int, int, int, int)> {
    if q == (p.0 + 1, p.1, p.2) { Some((p.0, p.1, p.2, 0)) }
    else if q == (p.0, p.1 + 1, p.2) { Some((p.0, p.1, p.2, 1)) }
    else if q == (p.0, p.1, p.2 + 1) { Some((p.0, p.1, p.2, 2)) }
    else { None }
}

/// Map a local edge index (0–11) within cell `(cx, cy, cz)` to a canonical
/// key `(grid_vertex_x, grid_vertex_y, grid_vertex_z, axis)`: the lower grid
/// vertex the edge starts from and the axis it runs along (0=X, 1=Y, 2=Z).
pub fn edge_canonical(cx: u32, cy: u32, cz: u32, edge: usize) -> (key: (u32, u32, u32, u8))
    requires
        edge < 12,
        cx < u32::MAX,
        cy < u32::MAX,
        cz < u32::MAX,
    ensures
        ({
            let (p, q) = edge_endpoints((cx as int, cy as int, cz as int), edge as int);
            grid_edge(p, q) == Some((key.0 as int, key.1 as int, key.2 as int, key.3 as int))
        }),
{
    match edge {
        0 => (cx, cy, cz, 0),
        1 => (cx + 1, cy, cz, 1),
        2 => (cx, cy + 1, cz, 0),
        3 => (cx, cy, cz, 1),
        4 => (cx, cy, cz + 1, 0),
        5 => (cx + 1, cy, cz + 1, 1),
        6 => (cx, cy + 1, cz + 1, 0),
        7 => (cx, cy, cz + 1, 1),
        8 => (cx, cy, cz, 2),
        9 => (cx + 1, cy, cz, 2),
        10 => (cx + 1, cy + 1, cz, 2),
        _ => (cx, cy + 1, cz, 2),
    }
}

/// Law: every cell edge joins a grid vertex to its upper neighbour along
/// one axis, and cells that share an edge (same endpoints) get the same key.
pub proof fn lemma_edge_key_shared(c1: (int, int, int), e1: int, c2: (int, int, int), e2: int)
    requires
        0 <= e1 < 12,
        0 <= e2 < 12,
        edge_endpoints(c1, e1) == edge_endpoints(c2, e2),
    ensures
        grid_edge(edge_endpoints(c1, e1).0, edge_endpoints(c1, e1).1) is Some,
        grid_edge(edge_endpoints(c1, e1).0, edge_endpoints(c1, e1).1)
            == grid_edge(edge_endpoints(c2, e2).0, edge_endpoints(c2, e2).1),
{
}

} // verus!
