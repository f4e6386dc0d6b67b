use fractal_viewer::mesh::adjacency::{build_adjacency, unique_edges};
use fractal_viewer::mesh::decimation::{carry_over, FaceTopology};
use fractal_viewer::mesh::dual_contour::{cell_has_crossing, dual_contour_quads, number_crossing_cells, quad_triangles};
use fractal_viewer::mesh::grid::{edge_canonical, grid_index};

#[test]
fn adjacency_of_two_triangles() {
    let adj = build_adjacency(4, &vec![0, 1, 2, 2, 1, 3]);
    assert_eq!(adj[0], vec![1, 2]);
    assert_eq!(adj[1], vec![0, 2, 3]);
    assert_eq!(adj[2], vec![1, 0, 3]);
    assert_eq!(adj[3], vec![1, 2]);
    assert_eq!(build_adjacency(2, &Vec::new()), vec![Vec::<usize>::new(); 2]);
}

#[test]
fn unique_edges_of_two_triangles() {
    let mut edges = unique_edges(4, &vec![0, 1, 2, 2, 1, 3]);
    edges.sort();
    assert_eq!(edges, vec![(0, 1), (0, 2), (1, 2), (1, 3), (2, 3)]);
    assert!(unique_edges(3, &Vec::new()).is_empty());
    let mut degenerate = unique_edges(2, &vec![0, 0, 1]);
    degenerate.sort();
    assert_eq!(degenerate, vec![(0, 0), (0, 1)]);
}

#[test]
fn grid_addressing() {
    assert_eq!(grid_index(1, 2, 3, 4, 5), 1 + 2 * 4 + 3 * 20);
    assert_eq!(edge_canonical(0, 0, 0, 0), (0, 0, 0, 0));
    assert_eq!(edge_canonical(2, 3, 4, 10), (3, 4, 4, 2));
    // The edge shared by neighbouring cells gets one key.
    assert_eq!(edge_canonical(0, 0, 0, 1), edge_canonical(1, 0, 0, 3));
}

fn single_inside_point() -> Vec<bool> {
    // 2x2x2 cells, 3x3x3 samples, only the centre sample is inside.
    let mut inside = vec![false; 27];
    inside[1 + 3 + 9] = true;
    inside
}

#[test]
fn dual_contour_closes_around_a_point() {
    let inside = single_inside_point();
    let d = (2, 2, 2);
    assert!(cell_has_crossing(&inside, d, 0, 0, 0));
    let (cv, count) = number_crossing_cells(&inside, d);
    assert_eq!(count, 8);
    assert_eq!(cv, (0..8).map(Some).collect::<Vec<_>>());
    let quads = dual_contour_quads(&inside, d, &cv);
    assert_eq!(quads.len(), 6);
    // X edge from (0,1,1) to the inside centre: outside first, so wound backwards.
    assert_eq!(quads[0], [6, 2, 0, 4]);
    for q in &quads {
        for &v in q {
            assert!(v < count);
        }
        let mut s = q.to_vec();
        s.sort();
        s.dedup();
        assert_eq!(s.len(), 4);
    }
}

#[test]
fn dual_contour_uniform_grids_are_empty() {
    let d = (2, 2, 2);
    for value in [false, true] {
        let inside = vec![value; 27];
        let (cv, count) = number_crossing_cells(&inside, d);
        assert_eq!(count, 0);
        assert!(cv.iter().all(|c| c.is_none()));
        assert!(dual_contour_quads(&inside, d, &cv).is_empty());
    }
    let (cv, count) = number_crossing_cells(&Vec::new(), (0, 0, 0));
    assert!(cv.is_empty());
    assert_eq!(count, 0);
}

fn octahedron_indices() -> Vec<u32> {
    vec![0, 1, 2, 0, 2, 3, 0, 3, 4, 0, 4, 1, 5, 2, 1, 5, 3, 2, 5, 4, 3, 5, 1, 4]
}

#[test]
fn collapse_keeps_valid_non_degenerate_triangles() {
    let mut t = FaceTopology::new(6, &octahedron_indices());
    assert_eq!(t.live_faces, 8);
    t.collapse(0, 1);
    assert_eq!(t.live_faces, 6);
    assert_eq!(t.resolve(1), 0);
    assert_eq!(t.resolve(2), 2);
    let mut nb = t.neighbors(0);
    nb.sort();
    assert_eq!(nb, vec![2, 3, 4, 5]);
    let (kept, tris) = t.compact();
    assert_eq!(kept, vec![0, 2, 3, 4, 5]);
    assert_eq!(tris.len(), 6);
    for tri in &tris {
        assert!(tri.iter().all(|&i| (i as usize) < kept.len()));
        assert!(tri[0] != tri[1] && tri[1] != tri[2] && tri[0] != tri[2]);
    }
}

#[test]
fn collapse_chain_resolves_to_last_target() {
    let mut t = FaceTopology::new(6, &octahedron_indices());
    t.collapse(0, 1);
    t.collapse(5, 0);
    assert_eq!(t.resolve(1), 5);
    assert_eq!(t.resolve(0), 5);
    let (kept, tris) = t.compact();
    assert_eq!(kept, vec![2, 3, 4, 5]);
    assert_eq!(tris.len() as usize, t.live_faces);
    for tri in &tris {
        assert!(tri.iter().all(|&i| (i as usize) < kept.len()));
    }
}

#[test]
fn topology_of_empty_mesh() {
    let t = FaceTopology::new(0, &Vec::new());
    let (kept, tris) = t.compact();
    assert!(kept.is_empty());
    assert!(tris.is_empty());
}

#[test]
fn quads_split_into_two_triangles() {
    let quads = vec![[0, 1, 2, 3], [4, 5, 6, 7]];
    assert_eq!(quad_triangles(&quads, &vec![true, false]), vec![0, 1, 2, 0, 2, 3, 4, 5, 7, 5, 6, 7]);
    assert!(quad_triangles(&Vec::new(), &Vec::new()).is_empty());
}

#[test]
fn attributes_follow_kept_vertices() {
    assert_eq!(carry_over(&vec![10, 11, 12, 13], &vec![0, 2, 3]), vec![10, 12, 13]);
    assert_eq!(carry_over(&vec![10, 11], &vec![0, 3, 1]), vec![10, 11]);
}
