//! Vertex adjacency of a triangle mesh, as used by the smoothing passes.
use vstd::prelude::*;

verus! {

/// `adj` with `j` appended to row `i` unless already there.
pub open spec fn add_neighbor(adj: Seq<Seq<usize>>, i: usize, j: usize) -> Seq<Seq<usize>> {
    if adj[i as int].contains(j) { adj } else { adj.update(i as int, adj[i as int].push(j)) }
}

/// `adj` after recording the edge `{i, j}` in both rows.
pub open spec fn add_edge(adj: Seq<Seq<usize>>, i: usize, j: usize) -> Seq<Seq<usize>> {
    add_neighbor(add_neighbor(adj, i, j), j, i)
}

/// Adjacency lists of `n` vertices after the first `k` triangles, each
/// triangle `(a, b, c)` contributing its edges `(a, b)`, `(b, c)`, `(c, a)`
/// in that order.
pub open spec fn adjacency(n: nat, indices: Seq<u32>, k: nat) -> Seq<Seq<usize>>
    decreases k,
{
    if k == 0 {
        Seq::new(n, |i: int| Seq::<usize>::empty())
    } else {
        let a = indices[3 * k - 3] as usize;
        let b = indices[3 * k - 2] as usize;
        let c = indices[3 * k - 1] as usize;
        add_edge(add_edge(add_edge(adjacency(n, indices, (k - 1) as nat), a, b), b, c), c, a)
    }
}

/// Whether triangle `t` has an edge between `i` and `j` (in either direction).
pub open spec fn triangle_joins(indices: Seq<u32>, t: int, i: usize, j: usize) -> bool {
    let a = indices[3 * t] as usize;
    let b = indices[3 * t + 1] as usize;
    let c = indices[3 * t + 2] as usize;
    ||| (a == i && b == j) || (a == j && b == i)
    ||| (b == i && c == j) || (b == j && c == i)
    ||| (c == i && a == j) || (c == j && a == i)
}

/// Every index of the first `k` triangles names one of `n` vertices.
pub open spec fn indices_in_range(n: nat, indices: Seq<u32>, k: nat) -> bool {
    3 * k <= indices.len() && forall|t: int| 0 <= t < 3 * k ==> (#[trigger] indices[t] as int) < n
}

/// The rows of an adjacency list as sequences.
pub open spec fn rows(adj: Seq<Vec<usize>>) -> Seq<Seq<usize>> {
    Seq::new(adj.len(), |i: int| adj[i]@)
}

fn contains_index(row: &Vec<usize>, x: usize) -> (r: bool)
    ensures
        r == row@.contains(x),
{
    let mut i: usize = 0;
    while i < row.len()
        invariant
            i <= row.len(),
            forall|k: int| 0 <= k < i ==> row@[k] != x,
        decreases row.len() - i,
    {
        if row[i] == x {
            assert(row@[i as int] == x);
            return true;
        }
        i = i + 1;
    }
    false
}

fn push_neighbor(adj: &mut Vec<Vec<usize>>, i: usize, j: usize)
    requires
        i < old(adj).len(),
    ensures
        final(adj).len() == old(adj).len(),
        rows(final(adj)@) == add_neighbor(rows(old(adj)@), i, j),
{
    let ghost before = rows(adj@);
    if !contains_index(&adj[i], j) {
        let mut row: Vec<usize> = Vec::new();
        adj.set_and_swap(i, &mut row);
        row.push(j);
        adj.set(i, row);
        assert(rows(adj@) =~= add_neighbor(before, i, j));
    }
}

/// Builds a vertex adjacency list from triangle indices: `adj[i]` lists the
/// vertices that share an edge with vertex `i`, each once, in order of first
/// appearance.
pub fn build_adjacency(vertex_count: usize, indices: &Vec<u32>) -> (adj: Vec<Vec<usize>>)
    requires
        indices_in_range(vertex_count as nat, indices@, (indices.len() / 3) as nat),
    ensures
        rows(adj@) == adjacency(vertex_count as nat, indices@, (indices.len() / 3) as nat),
{
    let mut adj: Vec<Vec<usize>> = Vec::new();
    let mut v: usize = 0;
    while v < vertex_count
        invariant
            v <= vertex_count,
            adj.len() == v,
            forall|i: int| 0 <= i < v ==> (#[trigger] adj@[i])@.len() == 0,
        decreases vertex_count - v,
    {
        adj.push(Vec::new());
        v = v + 1;
    }
    assert forall|i: int| 0 <= i < vertex_count implies #[trigger] rows(adj@)[i] =~= Seq::<usize>::empty() by {
        assert(adj@[i]@.len() == 0);
    }
    assert(rows(adj@) =~= adjacency(vertex_count as nat, indices@, 0));
    let face_count = indices.len() / 3;
    let mut t: usize = 0;
    while t < face_count
        invariant
            t <= face_count == indices.len() / 3,
            indices_in_range(vertex_count as nat, indices@, face_count as nat),
            adj.len() == vertex_count,
            rows(adj@) == adjacency(vertex_count as nat, indices@, t as nat),
        decreases face_count - t,
    {
        assert(indices@[3 * t as int] < vertex_count);
        assert(indices@[3 * t + 1] < vertex_count);
        assert(indices@[3 * t + 2] < vertex_count);
        let a = indices[3 * t] as usize;
        let b = indices[3 * t + 1] as usize;
        let c = indices[3 * t + 2] as usize;
        push_neighbor(&mut adj, a, b);
        push_neighbor(&mut adj, b, a);
        push_neighbor(&mut adj, b, c);
        push_neighbor(&mut adj, c, b);
        push_neighbor(&mut adj, c, a);
        push_neighbor(&mut adj, a, c);
        assert(3 * ((t + 1) as nat) - 3 == 3 * t);
        t = t + 1;
    }
    adj
}

proof fn lemma_add_neighbor(adj: Seq<Seq<usize>>, i: usize, j: usize)
    requires
        (i as int) < adj.len(),
    ensures
        add_neighbor(adj, i, j).len() == adj.len(),
        forall|x: int, y: usize| 0 <= x < adj.len() ==>
            (#[trigger] add_neighbor(adj, i, j)[x].contains(y) <==> (adj[x].contains(y) || (x == i && y == j))),
        forall|x: int| 0 <= x < adj.len() && adj[x].no_duplicates() ==> #[trigger] add_neighbor(adj, i, j)[x].no_duplicates(),
{
    if !adj[i as int].contains(j) {
        let row = adj[i as int].push(j);
        assert forall|y: usize| #[trigger] row.contains(y) <==> (adj[i as int].contains(y) || y == j) by {
            if row.contains(y) {
                let k = choose|k: int| 0 <= k < row.len() && row[k] == y;
                if k < adj[i as int].len() {
                    assert(adj[i as int][k] == y);
                }
            }
            if y == j {
                assert(row[row.len() - 1] == j);
            }
            if adj[i as int].contains(y) {
                let k = choose|k: int| 0 <= k < adj[i as int].len() && adj[i as int][k] == y;
                assert(row[k] == y);
            }
        }
        if adj[i as int].no_duplicates() {
            assert forall|p: int, q: int| 0 <= p < row.len() && 0 <= q < row.len() && p != q implies row[p] != row[q] by {
                if p == row.len() - 1 || q == row.len() - 1 {
                    if p < adj[i as int].len() {
                        assert(adj[i as int].contains(row[p]));
                    }
                    if q < adj[i as int].len() {
                        assert(adj[i as int].contains(row[q]));
                    }
                }
            }
        }
    }
}

/// Law: after any number of triangles, row `i` lists vertex `j` exactly when
/// some processed triangle has an edge between `i` and `j`, and no row lists
/// a vertex twice (so adjacency is symmetric).
pub proof fn lemma_adjacency_is_edge_relation(n: nat, indices: Seq<u32>, k: nat)
    requires
        indices_in_range(n, indices, k),
    ensures
        adjacency(n, indices, k).len() == n,
        forall|i: int| 0 <= i < n ==> (#[trigger] adjacency(n, indices, k)[i]).no_duplicates(),
        forall|i: usize, j: usize| (i as int) < n ==> (#[trigger] adjacency(n, indices, k)[i as int].contains(j)
            <==> exists|t: int| 0 <= t < k && #[trigger] triangle_joins(indices, t, i, j)),
    decreases k,
{
    if k > 0 {
        let k1 = (k - 1) as nat;
        assert(indices_in_range(n, indices, k1));
        lemma_adjacency_is_edge_relation(n, indices, k1);
        let a = indices[3 * k - 3] as usize;
        let b = indices[3 * k - 2] as usize;
        let c = indices[3 * k - 1] as usize;
        assert(indices[3 * k - 3] < n);
        assert(indices[3 * k - 2] < n);
        assert(indices[3 * k - 1] < n);
        let s0 = adjacency(n, indices, k1);
        let s1 = add_neighbor(s0, a, b);
        lemma_add_neighbor(s0, a, b);
        let s2 = add_neighbor(s1, b, a);
        lemma_add_neighbor(s1, b, a);
        let s3 = add_neighbor(s2, b, c);
        lemma_add_neighbor(s2, b, c);
        let s4 = add_neighbor(s3, c, b);
        lemma_add_neighbor(s3, c, b);
        let s5 = add_neighbor(s4, c, a);
        lemma_add_neighbor(s4, c, a);
        let s6 = add_neighbor(s5, a, c);
        lemma_add_neighbor(s5, a, c);
        assert(adjacency(n, indices, k) == s6);
        assert forall|i: usize, j: usize| (i as int) < n implies (#[trigger] s6[i as int].contains(j)
            <==> exists|t: int| 0 <= t < k && #[trigger] triangle_joins(indices, t, i, j)) by {
            if s6[i as int].contains(j) {
                if s0[i as int].contains(j) {
                    let t = choose|t: int| 0 <= t < k1 && #[trigger] triangle_joins(indices, t, i, j);
                    assert(triangle_joins(indices, t, i, j));
                } else {
                    assert(triangle_joins(indices, k - 1, i, j));
                }
            }
            if exists|t: int| 0 <= t < k && #[trigger] triangle_joins(indices, t, i, j) {
                let t = choose|t: int| 0 <= t < k && #[trigger] triangle_joins(indices, t, i, j);
                if t < k1 {
                    assert(s0[i as int].contains(j));
                }
            }
        }
    }
}

/// The undirected edges of the first `k` triangles, each once as a pair
/// `(i, j)` with `i <= j`, listed by their smaller end and then in the
/// order `j` first joined `i` (a triangle that repeats a vertex gives the
/// pair `(i, i)`).
pub fn unique_edges(vertex_count: usize, indices: &Vec<u32>) -> (edges: Vec<(usize, usize)>)
    requires
        indices_in_range(vertex_count as nat, indices@, (indices.len() / 3) as nat),
    ensures
        edges@.no_duplicates(),
        forall|i: usize, j: usize| #[trigger] edges@.contains((i, j)) <==> (i <= j && (i as int) < vertex_count
            && exists|t: int| 0 <= t < indices.len() / 3 && #[trigger] triangle_joins(indices@, t, i, j)),
{
    let adj = build_adjacency(vertex_count, indices);
    let ghost k = (indices.len() / 3) as nat;
    proof {
        lemma_adjacency_is_edge_relation(vertex_count as nat, indices@, k);
    }
    let ghost rs = rows(adj@);
    let mut edges: Vec<(usize, usize)> = Vec::new();
    let mut i: usize = 0;
    while i < adj.len()
        invariant
            adj.len() == vertex_count,
            rs == rows(adj@),
            rs == adjacency(vertex_count as nat, indices@, k),
            forall|x: int| 0 <= x < vertex_count ==> (#[trigger] rs[x]).no_duplicates(),
            i <= adj.len(),
            edges@.no_duplicates(),
            forall|a: usize, b: usize| #[trigger] edges@.contains((a, b)) <==> (a < i && a <= b && rs[a as int].contains(b)),
        decreases adj.len() - i,
    {
        let row = &adj[i];
        assert(row@ == rs[i as int]);
        let ghost before = edges@;
        let mut p: usize = 0;
        while p < row.len()
            invariant
                row@ == rs[i as int],
                row@.no_duplicates(),
                i < adj.len(),
                p <= row.len(),
                edges@.no_duplicates(),
                forall|a: usize, b: usize| #[trigger] edges@.contains((a, b)) <==> (before.contains((a, b)) || (
                    a == i && a <= b && exists|q: int| 0 <= q < p && row@[q] == b)),
                forall|a: usize, b: usize| #[trigger] before.contains((a, b)) ==> a < i,
            decreases row.len() - p,
        {
            let j = row[p];
            let ghost old_edges = edges@;
            if i <= j {
                proof {
                    assert(!old_edges.contains((i, j))) by {
                        if old_edges.contains((i, j)) {
                            if !before.contains((i, j)) {
                                let q = choose|q: int| 0 <= q < p && row@[q] == j;
                                assert(row@[q] == row@[p as int]);
                            }
                        }
                    }
                }
                edges.push((i, j));
                proof {
                    assert forall|x: int, y: int| 0 <= x < y < edges@.len() implies edges@[x] != edges@[y] by {
                        if y == edges@.len() - 1 {
                            assert(old_edges[x] == edges@[x]);
                            assert(old_edges.contains(old_edges[x]));
                        } else {
                            assert(old_edges[x] == edges@[x] && old_edges[y] == edges@[y]);
                        }
                    }
                }
            }
            proof {
                assert forall|a: usize, b: usize| #[trigger] edges@.contains((a, b)) <==> (before.contains((a, b)) || (
                    a == i && a <= b && exists|q: int| 0 <= q < p + 1 && row@[q] == b)) by {
                    if edges@.contains((a, b)) && !old_edges.contains((a, b)) {
                        assert(a == i && b == j);
                        assert(row@[p as int] == b);
                    }
                    if old_edges.contains((a, b)) {
                        let x = choose|x: int| 0 <= x < old_edges.len() && old_edges[x] == (a, b);
                        assert(edges@[x] == (a, b));
                    }
                    if a == i && a <= b && exists|q: int| 0 <= q < p + 1 && row@[q] == b {
                        let q = choose|q: int| 0 <= q < p + 1 && row@[q] == b;
                        if q == p {
                            assert(b == j);
                            assert(edges@[edges@.len() - 1] == (a, b));
                        }
                    }
                }
            }
            p = p + 1;
        }
        proof {
            assert forall|a: usize, b: usize| #[trigger] edges@.contains((a, b)) <==> (a < i + 1 && a <= b && rs[a as int].contains(b)) by {
                if a == i && a <= b && rs[a as int].contains(b) {
                    let q = choose|q: int| 0 <= q < row@.len() && row@[q] == b;
                }
                if edges@.contains((a, b)) && !before.contains((a, b)) {
                    let q = choose|q: int| 0 <= q < row@.len() && row@[q] == b;
                    assert(rs[a as int][q] == b);
                }
            }
        }
        i = i + 1;
    }
    edges
}

} // verus!
