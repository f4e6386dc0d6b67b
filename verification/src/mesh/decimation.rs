//! Bookkeeping of edge-collapse mesh decimation: which faces are still
//! alive, which faces each vertex belongs to, which vertices were merged
//! into which, and the compaction of what is left into a fresh index list.
//! The choice of the edge to collapse (quadric error costs) is made by the
//! caller; this module keeps the triangle topology consistent under the
//! collapses it is told to perform.
use vstd::prelude::*;

verus! {

/// Whether triangle `f` uses vertex `v`.
pub open spec fn face_has(f: [usize; 3], v: usize) -> bool {
    f[0] == v || f[1] == v || f[2] == v
}

/// Whether every vertex of triangle `f` is one of `n` vertices.
pub open spec fn face_in_range(f: [usize; 3], n: int) -> bool {
    f[0] < n && f[1] < n && f[2] < n
}

/// Whether triangle `f` repeats a vertex.
pub open spec fn degenerate(f: [usize; 3]) -> bool {
    f[0] == f[1] || f[1] == f[2] || f[0] == f[2]
}

/// Whether every alive face of `t` uses three different vertices.
pub open spec fn faces_proper(t: &FaceTopology) -> bool {
    forall|f: int| 0 <= f < t.faces.len() && #[trigger] t.alive@[f] ==> !degenerate(t.faces@[f])
}

/// Triangle `f` with vertex `from` replaced by `to`.
pub open spec fn replaced(f: [usize; 3], from: usize, to: usize) -> [usize; 3] {
    [
        if f[0] == from { to } else { f[0] },
        if f[1] == from { to } else { f[1] },
        if f[2] == from { to } else { f[2] },
    ]
}

/// Number of `true` entries.
pub open spec fn count_true(s: Seq<bool>) -> nat
    decreases s.len(),
{
    if s.len() == 0 {
        0
    } else {
        count_true(s.drop_last()) + if s.last() { 1nat } else { 0nat }
    }
}

proof fn lemma_count_true_clear(s: Seq<bool>, i: int)
    requires
        0 <= i < s.len(),
        s[i],
    ensures
        count_true(s.update(i, false)) + 1 == count_true(s),
    decreases s.len(),
{
    let t = s.update(i, false);
    if i == s.len() - 1 {
        assert(t.drop_last() =~= s.drop_last());
    } else {
        assert(t.drop_last() =~= s.drop_last().update(i, false));
        lemma_count_true_clear(s.drop_last(), i);
    }
}

proof fn lemma_count_true_all(n: nat)
    ensures
        count_true(Seq::new(n, |i: int| true)) == n,
    decreases n,
{
    if n > 0 {
        assert(Seq::new(n, |i: int| true).drop_last() =~= Seq::new((n - 1) as nat, |i: int| true));
        lemma_count_true_all((n - 1) as nat);
    }
}

/// Following the merge links from `v` for `k` steps (stopping at a vertex
/// that was not merged).
pub open spec fn follow(links: Seq<Option<usize>>, v: int, k: nat) -> int
    decreases k,
{
    if k == 0 {
        v
    } else {
        match links[v] {
            Some(w) => follow(links, w as int, (k - 1) as nat),
            None => v,
        }
    }
}

/// Triangle topology under edge collapses.
pub struct FaceTopology {
    /// Triangles as vertex triples; a face keeps its slot when it dies.
    pub faces: Vec<[usize; 3]>,
    /// Whether each face is still part of the mesh.
    pub alive: Vec<bool>,
    /// For each vertex, the alive faces that use it (each once).
    pub vertex_faces: Vec<Vec<usize>>,
    /// For each vertex, the vertex it was merged into, if any.
    pub collapsed_into: Vec<Option<usize>>,
    /// Number of alive faces.
    pub live_faces: usize,
    /// Merge order: a vertex is merged only into one of higher rank.
    pub rank: Ghost<Seq<nat>>,
    /// Upper bound of the ranks.
    pub top: Ghost<nat>,
}

impl FaceTopology {
    /// Consistency of the bookkeeping.
    pub open spec fn wf(&self) -> bool {
        let n = self.collapsed_into.len();
        let nf = self.faces.len();
        &&& self.vertex_faces.len() == n
        &&& self.alive.len() == nf
        &&& self.rank@.len() == n
        &&& forall|f: int| 0 <= f < nf ==> face_in_range(#[trigger] self.faces@[f], n as int)
        &&& forall|v: int, f: usize| 0 <= v < n ==> (#[trigger] self.vertex_faces@[v]@.contains(f)
            <==> (f < nf && self.alive@[f as int] && face_has(self.faces@[f as int], v as usize)))
        &&& forall|v: int| 0 <= v < n ==> (#[trigger] self.vertex_faces@[v]@).no_duplicates()
        &&& forall|v: int, i: int| 0 <= v < n && 0 <= i < self.vertex_faces@[v]@.len() ==> (
            #[trigger] self.vertex_faces@[v]@[i]) < nf
        &&& forall|f: int, k: int| 0 <= f < nf && self.alive@[f] && 0 <= k < 3 ==>
            (#[trigger] self.collapsed_into@[self.faces@[f][k] as int]) is None
        &&& self.live_faces == count_true(self.alive@)
        &&& forall|f: int| 0 <= f < nf && !(#[trigger] self.alive@[f]) ==> degenerate(self.faces@[f])
        &&& forall|v: int| 0 <= v < n && (#[trigger] self.collapsed_into@[v]) is Some ==> {
            let w = self.collapsed_into@[v]->0 as int;
            &&& 0 <= w < n
            &&& self.rank@[w] > self.rank@[v]
        }
        &&& forall|v: int| 0 <= v < n ==> #[trigger] self.rank@[v] <= self.top@
    }

    /// The vertex that `v` ended up merged into (`v` itself if it was
    /// never merged), following the chain of merges.
    pub fn resolve(&self, v: usize) -> (r: usize)
        requires
            self.wf(),
            v < self.collapsed_into.len(),
        ensures
            r < self.collapsed_into.len(),
            self.collapsed_into@[r as int] is None,
            exists|k: nat| follow(self.collapsed_into@, v as int, k) == r,
    {
        let mut cur = v;
        let ghost mut steps: nat = 0;
        while self.collapsed_into[cur].is_some()
            invariant
                self.wf(),
                cur < self.collapsed_into.len(),
                follow(self.collapsed_into@, v as int, steps) == cur,
            decreases self.top@ - self.rank@[cur as int],
        {
            let next = self.collapsed_into[cur].unwrap();
            proof {
                lemma_follow_step(self.collapsed_into@, v as int, steps);
                steps = steps + 1;
            }
            cur = next;
        }
        cur
    }

    /// Faces alive and vertex lists built from triangle indices; every
    /// index must name one of `vertex_count` vertices.
    pub fn new(vertex_count: usize, indices: &Vec<u32>) -> (t: FaceTopology)
        requires
            forall|i: int| 0 <= i < indices.len() ==> (#[trigger] indices@[i] as int) < vertex_count,
        ensures
            t.wf(),
            t.collapsed_into.len() == vertex_count,
            t.faces.len() == indices.len() / 3,
            forall|f: int| 0 <= f < t.faces.len() ==> #[trigger] t.faces@[f] == [
                indices@[3 * f] as usize,
                indices@[3 * f + 1] as usize,
                indices@[3 * f + 2] as usize,
            ],
            forall|f: int| 0 <= f < t.faces.len() ==> #[trigger] t.alive@[f],
            forall|v: int| 0 <= v < vertex_count ==> (#[trigger] t.collapsed_into@[v]) is None,
            t.live_faces == indices.len() / 3,
    {
        let nf = indices.len() / 3;
        let mut faces: Vec<[usize; 3]> = Vec::new();
        let mut alive: Vec<bool> = Vec::new();
        let mut t: usize = 0;
        while t < nf
            invariant
                nf == indices.len() / 3,
                t <= nf,
                faces.len() == t,
                alive@ == Seq::new(t as nat, |i: int| true),
                forall|i: int| 0 <= i < indices.len() ==> (#[trigger] indices@[i] as int) < vertex_count,
                forall|f: int| 0 <= f < t ==> face_in_range(#[trigger] faces@[f], vertex_count as int),
                forall|f: int| 0 <= f < t ==> #[trigger] faces@[f] == [
                    indices@[3 * f] as usize,
                    indices@[3 * f + 1] as usize,
                    indices@[3 * f + 2] as usize,
                ],
            decreases nf - t,
        {
            faces.push([indices[3 * t] as usize, indices[3 * t + 1] as usize, indices[3 * t + 2] as usize]);
            alive.push(true);
            t = t + 1;
            assert(alive@ =~= Seq::new(t as nat, |i: int| true));
        }
        let mut vertex_faces: Vec<Vec<usize>> = Vec::new();
        let mut collapsed_into: Vec<Option<usize>> = Vec::new();
        let mut v: usize = 0;
        while v < vertex_count
            invariant
                v <= vertex_count,
                vertex_faces.len() == v,
                collapsed_into.len() == v,
                forall|u: int| 0 <= u < v ==> (#[trigger] vertex_faces@[u]@).len() == 0,
                forall|u: int| 0 <= u < v ==> (#[trigger] collapsed_into@[u]) is None,
            decreases vertex_count - v,
        {
            vertex_faces.push(Vec::new());
            collapsed_into.push(None);
            v = v + 1;
        }
        assert forall|u: int, g: usize| 0 <= u < vertex_count implies (#[trigger] vertex_faces@[u]@.contains(g)
            <==> (g < 0 && face_has(faces@[g as int], u as usize))) by {
            assert(vertex_faces@[u]@.len() == 0);
        }
        let mut f: usize = 0;
        while f < nf
            invariant
                f <= nf,
                vertex_faces.len() == vertex_count,
                faces.len() == nf,
                forall|g: int| 0 <= g < nf ==> face_in_range(#[trigger] faces@[g], vertex_count as int),
                forall|u: int, g: usize| 0 <= u < vertex_count ==> (#[trigger] vertex_faces@[u]@.contains(g)
                    <==> (g < f && face_has(faces@[g as int], u as usize))),
                forall|u: int| 0 <= u < vertex_count ==> (#[trigger] vertex_faces@[u]@).no_duplicates(),
                forall|u: int, i: int| 0 <= u < vertex_count && 0 <= i < vertex_faces@[u]@.len() ==> (
                    #[trigger] vertex_faces@[u]@[i]) < nf,
            decreases nf - f,
        {
            let face = faces[f];
            assert(face_in_range(faces@[f as int], vertex_count as int));
            let mut k: usize = 0;
            while k < 3
                invariant
                    f < nf,
                    k <= 3,
                    face == faces@[f as int],
                    vertex_faces.len() == vertex_count,
                    faces.len() == nf,
                    forall|g: int| 0 <= g < nf ==> face_in_range(#[trigger] faces@[g], vertex_count as int),
                    forall|u: int, g: usize| 0 <= u < vertex_count ==> (#[trigger] vertex_faces@[u]@.contains(g)
                        <==> ((g < f && face_has(faces@[g as int], u as usize)) || (g == f && exists|j: int|
                            0 <= j < k && #[trigger] face[j] == u as usize))),
                    forall|u: int| 0 <= u < vertex_count ==> (#[trigger] vertex_faces@[u]@).no_duplicates(),
                    forall|u: int, i: int| 0 <= u < vertex_count && 0 <= i < vertex_faces@[u]@.len() ==> (
                        #[trigger] vertex_faces@[u]@[i]) < nf,
                decreases 3 - k,
            {
                let u = face[k];
                assert(u < vertex_count);
                let ghost old_vf = vertex_faces@;
                let present = contains_face(&vertex_faces[u], f);
                if !present {
                    push_face(&mut vertex_faces, u, f);
                }
                proof {
                    assert forall|w: int, g: usize| 0 <= w < vertex_count implies (#[trigger] vertex_faces@[w]@.contains(g)
                        <==> ((g < f && face_has(faces@[g as int], w as usize)) || (g == f && exists|j: int|
                            0 <= j < k + 1 && #[trigger] face[j] == w as usize))) by {
                        if w == u as int {
                            if g == f {
                                assert(face[k as int] == w as usize);
                                if !present {
                                    assert(vertex_faces@[w]@[vertex_faces@[w]@.len() - 1] == f);
                                }
                            } else if !present {
                                assert(vertex_faces@[w]@ == old_vf[w]@.push(f));
                                if vertex_faces@[w]@.contains(g) {
                                    let i = choose|i: int| 0 <= i < vertex_faces@[w]@.len() && vertex_faces@[w]@[i] == g;
                                    assert(old_vf[w]@[i] == g);
                                }
                                if old_vf[w]@.contains(g) {
                                    let i = choose|i: int| 0 <= i < old_vf[w]@.len() && old_vf[w]@[i] == g;
                                    assert(vertex_faces@[w]@[i] == g);
                                }
                            }
                        } else {
                            assert(vertex_faces@[w] == old_vf[w]);
                            if g == f {
                                if exists|j: int| 0 <= j < k + 1 && #[trigger] face[j] == w as usize {
                                    let j = choose|j: int| 0 <= j < k + 1 && #[trigger] face[j] == w as usize;
                                    assert(j != k);
                                    assert(exists|j2: int| 0 <= j2 < k && #[trigger] face[j2] == w as usize);
                                }
                            }
                        }
                    }
                    assert forall|w: int| 0 <= w < vertex_count implies (#[trigger] vertex_faces@[w]@).no_duplicates() by {
                        if w != u as int {
                            assert(vertex_faces@[w] == old_vf[w]);
                        }
                    }
                    assert forall|w: int, i: int| 0 <= w < vertex_count && 0 <= i < vertex_faces@[w]@.len() implies (
                        #[trigger] vertex_faces@[w]@[i]) < nf by {
                        if w != u as int {
                            assert(vertex_faces@[w] == old_vf[w]);
                        } else if !present && i == vertex_faces@[w]@.len() - 1 {
                        } else if !present {
                            assert(vertex_faces@[w]@[i] == old_vf[w]@[i]);
                        }
                    }
                }
                k = k + 1;
            }
            proof {
                assert forall|w: int, g: usize| 0 <= w < vertex_count implies (#[trigger] vertex_faces@[w]@.contains(g)
                    <==> (g < f + 1 && face_has(faces@[g as int], w as usize))) by {
                    if g == f && face_has(faces@[g as int], w as usize) {
                        if face[0] == w as usize { assert(face[0int] == w as usize); }
                        else if face[1] == w as usize { assert(face[1int] == w as usize); }
                        else { assert(face[2int] == w as usize); }
                    }
                }
            }
            f = f + 1;
        }
        proof {
            lemma_count_true_all(nf as nat);
        }
        let ghost rank = Seq::new(vertex_count as nat, |i: int| 0nat);
        FaceTopology {
            faces,
            alive,
            vertex_faces,
            collapsed_into,
            live_faces: nf,
            rank: Ghost(rank),
            top: Ghost(0),
        }
    }
}

proof fn lemma_follow_step(links: Seq<Option<usize>>, v: int, k: nat)
    requires
        links[follow(links, v, k)] is Some,
    ensures
        follow(links, v, k + 1) == links[follow(links, v, k)]->0 as int,
    decreases k,
{
    match links[v] {
        Some(w) => {
            assert(follow(links, v, k + 1) == follow(links, w as int, k));
            if k > 0 {
                lemma_follow_step(links, w as int, (k - 1) as nat);
            }
        },
        None => {
            assert(k == 0 || follow(links, v, k) == v);
        },
    }
}

fn contains_face(row: &Vec<usize>, f: usize) -> (r: bool)
    ensures
        r == row@.contains(f),
{
    let mut i: usize = 0;
    while i < row.len()
        invariant
            i <= row.len(),
            forall|k: int| 0 <= k < i ==> row@[k] != f,
        decreases row.len() - i,
    {
        if row[i] == f {
            assert(row@[i as int] == f);
            return true;
        }
        i = i + 1;
    }
    false
}

fn push_face(rows: &mut Vec<Vec<usize>>, u: usize, f: usize)
    requires
        u < old(rows).len(),
        !old(rows)@[u as int]@.contains(f),
    ensures
        final(rows).len() == old(rows).len(),
        final(rows)@[u as int]@ == old(rows)@[u as int]@.push(f),
        forall|w: int| 0 <= w < old(rows).len() && w != u ==> #[trigger] final(rows)@[w] == old(rows)@[w],
        final(rows)@[u as int]@.no_duplicates() == old(rows)@[u as int]@.no_duplicates(),
{
    let mut row: Vec<usize> = Vec::new();
    rows.set_and_swap(u, &mut row);
    let ghost before = row@;
    row.push(f);
    proof {
        if before.no_duplicates() {
            assert forall|i: int, j: int| 0 <= i < j < row@.len() implies row@[i] != row@[j] by {
                if j == row@.len() - 1 {
                    assert(before.contains(row@[i]) ==> before[i] == row@[i]);
                    assert(row@[i] == before[i]);
                }
            }
        }
        if row@.no_duplicates() {
            assert forall|i: int, j: int| 0 <= i < j < before.len() implies before[i] != before[j] by {
                assert(row@[i] == before[i] && row@[j] == before[j]);
            }
        }
    }
    rows.set(u, row);
}

fn position_of(row: &Vec<usize>, f: usize) -> (r: Option<usize>)
    ensures
        match r {
            Some(i) => i < row.len() && row@[i as int] == f,
            None => !row@.contains(f),
        },
{
    let mut i: usize = 0;
    while i < row.len()
        invariant
            i <= row.len(),
            forall|k: int| 0 <= k < i ==> row@[k] != f,
        decreases row.len() - i,
    {
        if row[i] == f {
            return Some(i);
        }
        i = i + 1;
    }
    None
}

fn remove_face(rows: &mut Vec<Vec<usize>>, u: usize, f: usize)
    requires
        u < old(rows).len(),
        old(rows)@[u as int]@.no_duplicates(),
    ensures
        final(rows).len() == old(rows).len(),
        forall|g: usize| #[trigger] final(rows)@[u as int]@.contains(g) <==> (old(rows)@[u as int]@.contains(g) && g != f),
        final(rows)@[u as int]@.no_duplicates(),
        forall|i: int| 0 <= i < final(rows)@[u as int]@.len() ==> old(rows)@[u as int]@.contains(
            #[trigger] final(rows)@[u as int]@[i],
        ),
        forall|w: int| 0 <= w < old(rows).len() && w != u ==> #[trigger] final(rows)@[w] == old(rows)@[w],
{
    let mut row: Vec<usize> = Vec::new();
    rows.set_and_swap(u, &mut row);
    let ghost before = row@;
    let found = position_of(&row, f);
    let i: usize = match found { Some(k) => k, None => row.len() };
    if i < row.len() {
        assert(row@[i as int] == f);
        row.remove(i);
        proof {
            let r = row@;
            assert(r =~= before.subrange(0, i as int) + before.subrange(i + 1, before.len() as int));
            assert forall|g: usize| #[trigger] r.contains(g) <==> (before.contains(g) && g != f) by {
                if r.contains(g) {
                    let k = choose|k: int| 0 <= k < r.len() && r[k] == g;
                    if k < i {
                        assert(before[k] == g);
                        assert(k != i);
                    } else {
                        assert(before[k + 1] == g);
                    }
                }
                if before.contains(g) && g != f {
                    let k = choose|k: int| 0 <= k < before.len() && before[k] == g;
                    assert(k != i);
                    if k < i {
                        assert(r[k] == g);
                    } else {
                        assert(r[k - 1] == g);
                    }
                }
            }
            assert forall|a: int, b: int| 0 <= a < b < r.len() implies r[a] != r[b] by {
                let a2 = if a < i { a } else { a + 1 };
                let b2 = if b < i { b } else { b + 1 };
                assert(r[a] == before[a2] && r[b] == before[b2]);
            }
            assert forall|k: int| 0 <= k < r.len() implies before.contains(#[trigger] r[k]) by {
                let k2 = if k < i { k } else { k + 1 };
                assert(r[k] == before[k2]);
            }
        }
    } else {
        proof {
            assert forall|g: usize| #[trigger] row@.contains(g) <==> (before.contains(g) && g != f) by {
            }
            assert forall|k: int| 0 <= k < row@.len() implies before.contains(#[trigger] row@[k]) by {
                assert(before[k] == row@[k]);
            }
        }
    }
    rows.set(u, row);
}

impl FaceTopology {
    /// Merges vertex `v1` into `v0` (both unmerged and distinct): every
    /// alive face using `v1` now uses `v0` instead, and those that thereby
    /// repeat a vertex die.
    pub fn collapse(&mut self, v0: usize, v1: usize)
        requires
            old(self).wf(),
            v0 < old(self).collapsed_into.len(),
            v1 < old(self).collapsed_into.len(),
            v0 != v1,
            old(self).collapsed_into@[v0 as int] is None,
            old(self).collapsed_into@[v1 as int] is None,
        ensures
            final(self).wf(),
            final(self).faces.len() == old(self).faces.len(),
            final(self).collapsed_into@ == old(self).collapsed_into@.update(v1 as int, Some(v0)),
            forall|f: int| 0 <= f < old(self).faces.len() ==> #[trigger] final(self).faces@[f] == (if old(
                self,
            ).alive@[f] && face_has(old(self).faces@[f], v1) {
                replaced(old(self).faces@[f], v1, v0)
            } else {
                old(self).faces@[f]
            }),
            forall|f: int| 0 <= f < old(self).faces.len() ==> #[trigger] final(self).alive@[f] == (old(
                self,
            ).alive@[f] && !(face_has(old(self).faces@[f], v1) && degenerate(
                replaced(old(self).faces@[f], v1, v0),
            ))),
            faces_proper(&*old(self)) ==> faces_proper(&*final(self)),
    {
        let ghost n = self.collapsed_into.len() as int;
        let ghost nf = self.faces.len() as int;
        let ghost of_faces = self.faces@;
        let ghost of_alive = self.alive@;
        let ghost of_vf = self.vertex_faces@;
        let mut list: Vec<usize> = Vec::new();
        self.vertex_faces.set_and_swap(v1, &mut list);
        let ghost l = list@;
        assert(l == of_vf[v1 as int]@);
        assert(l.take(0) =~= Seq::<usize>::empty());
        let mut i: usize = 0;
        while i < list.len()
            invariant
                n == self.collapsed_into.len(),
                nf == self.faces.len(),
                self.vertex_faces.len() == n,
                self.alive.len() == nf,
                self.rank@.len() == n,
                self.collapsed_into@ == old(self).collapsed_into@,
                self.rank@ == old(self).rank@,
                self.top@ == old(self).top@,
                old(self).wf(),
                of_faces.len() == nf,
                of_alive.len() == nf,
                v0 < n,
                v1 < n,
                v0 != v1,
                self.collapsed_into@[v0 as int] is None,
                self.collapsed_into@[v1 as int] is None,
                list@ == l,
                i <= l.len(),
                l.no_duplicates(),
                forall|j: int| 0 <= j < l.len() ==> #[trigger] l[j] < nf,
                forall|g: usize| #[trigger] l.contains(g) <==> (g < nf && of_alive[g as int] && face_has(
                    of_faces[g as int],
                    v1,
                )),
                forall|f: int| 0 <= f < nf ==> face_in_range(#[trigger] of_faces[f], n),
                forall|f: int| 0 <= f < nf ==> face_in_range(#[trigger] self.faces@[f], n),
                forall|f: int| 0 <= f < nf ==> #[trigger] self.faces@[f] == (if l.take(i as int).contains(
                    f as usize,
                ) {
                    replaced(of_faces[f], v1, v0)
                } else {
                    of_faces[f]
                }),
                forall|f: int| 0 <= f < nf ==> #[trigger] self.alive@[f] == (of_alive[f] && !(l.take(
                    i as int,
                ).contains(f as usize) && degenerate(replaced(of_faces[f], v1, v0)))),
                self.vertex_faces@[v1 as int]@.len() == 0,
                forall|v: int, g: usize| 0 <= v < n && v != v1 ==> (#[trigger] self.vertex_faces@[v]@.contains(g)
                    <==> (g < nf && self.alive@[g as int] && face_has(self.faces@[g as int], v as usize))),
                forall|v: int| 0 <= v < n ==> (#[trigger] self.vertex_faces@[v]@).no_duplicates(),
                forall|v: int, j: int| 0 <= v < n && 0 <= j < self.vertex_faces@[v]@.len() ==> (
                    #[trigger] self.vertex_faces@[v]@[j]) < nf,
                forall|f: int, k: int| 0 <= f < nf && self.alive@[f] && 0 <= k < 3 ==>
                    (#[trigger] self.collapsed_into@[self.faces@[f][k] as int]) is None,
                self.live_faces == count_true(self.alive@),
                forall|f: int| 0 <= f < nf && !(#[trigger] self.alive@[f]) ==> degenerate(self.faces@[f]),
            decreases l.len() - i,
        {
            let fi = list[i];
            let ghost pre_vf = self.vertex_faces@;
            let ghost pre_alive = self.alive@;
            let ghost pre_faces = self.faces@;
            proof {
                assert(l.contains(fi));
                assert(!l.take(i as int).contains(fi)) by {
                    if l.take(i as int).contains(fi) {
                        let j = choose|j: int| 0 <= j < i && l.take(i as int)[j] == fi;
                        assert(l[j] == l[i as int]);
                    }
                }
                assert(l.take(i + 1) =~= l.take(i as int).push(fi));
                assert(l.take(i + 1)[i as int] == fi);
                assert forall|g: usize| g != fi implies (#[trigger] l.take(i + 1).contains(g) == l.take(i as int).contains(g)) by {
                    if l.take(i + 1).contains(g) {
                        let j = choose|j: int| 0 <= j < i + 1 && #[trigger] l.take(i + 1)[j] == g;
                        assert(j < i);
                        assert(l.take(i as int)[j] == g);
                    }
                    if l.take(i as int).contains(g) {
                        let j = choose|j: int| 0 <= j < i && #[trigger] l.take(i as int)[j] == g;
                        assert(l.take(i + 1)[j] == g);
                    }
                }
            }
            let face = self.faces[fi];
            assert(face == of_faces[fi as int]);
            let nface: [usize; 3] = [
                if face[0] == v1 { v0 } else { face[0] },
                if face[1] == v1 { v0 } else { face[1] },
                if face[2] == v1 { v0 } else { face[2] },
            ];
            assert(nface == replaced(of_faces[fi as int], v1, v0));
            self.faces.set(fi, nface);
            if nface[0] == nface[1] || nface[1] == nface[2] || nface[0] == nface[2] {
                assert(face_in_range(of_faces[fi as int], n));
                remove_face(&mut self.vertex_faces, nface[0], fi);
                remove_face(&mut self.vertex_faces, nface[1], fi);
                remove_face(&mut self.vertex_faces, nface[2], fi);
                proof {
                    assert(pre_alive[fi as int]);
                    lemma_count_true_clear(pre_alive, fi as int);
                }
                self.alive.set(fi, false);
                self.live_faces = self.live_faces - 1;
                proof {
                    assert forall|v: int, g: usize| 0 <= v < n && v != v1 implies (#[trigger] self.vertex_faces@[v]@.contains(g)
                        <==> (g < nf && self.alive@[g as int] && face_has(self.faces@[g as int], v as usize))) by {
                        if g != fi {
                            if v == nface[0] as int || v == nface[1] as int || v == nface[2] as int {
                                assert(pre_vf[v]@.contains(g) == self.vertex_faces@[v]@.contains(g));
                            } else {
                                assert(self.vertex_faces@[v] == pre_vf[v]);
                            }
                        } else if !(v == nface[0] as int || v == nface[1] as int || v == nface[2] as int) {
                            assert(self.vertex_faces@[v] == pre_vf[v]);
                            assert(!face_has(of_faces[fi as int], v as usize));
                        }
                    }
                    assert forall|v: int| 0 <= v < n implies (#[trigger] self.vertex_faces@[v]@).no_duplicates() by {
                        if !(v == nface[0] as int || v == nface[1] as int || v == nface[2] as int) {
                            assert(self.vertex_faces@[v] == pre_vf[v]);
                        }
                    }
                    assert forall|v: int, j: int| 0 <= v < n && 0 <= j < self.vertex_faces@[v]@.len() implies (
                        #[trigger] self.vertex_faces@[v]@[j]) < nf by {
                        if !(v == nface[0] as int || v == nface[1] as int || v == nface[2] as int) {
                            assert(self.vertex_faces@[v] == pre_vf[v]);
                        } else {
                            let x = self.vertex_faces@[v]@[j];
                            assert(self.vertex_faces@[v]@.contains(x));
                        }
                    }
                    assert(self.vertex_faces@[v1 as int] == pre_vf[v1 as int]);
                }
            } else {
                proof {
                    assert(!face_has(of_faces[fi as int], v0));
                    assert(!pre_vf[v0 as int]@.contains(fi));
                }
                push_face(&mut self.vertex_faces, v0, fi);
                proof {
                    assert forall|v: int, g: usize| 0 <= v < n && v != v1 implies (#[trigger] self.vertex_faces@[v]@.contains(g)
                        <==> (g < nf && self.alive@[g as int] && face_has(self.faces@[g as int], v as usize))) by {
                        if v == v0 as int {
                            if self.vertex_faces@[v]@.contains(g) && g != fi {
                                let j = choose|j: int| 0 <= j < self.vertex_faces@[v]@.len() && self.vertex_faces@[v]@[j] == g;
                                assert(pre_vf[v]@[j] == g);
                            }
                            if pre_vf[v]@.contains(g) {
                                let j = choose|j: int| 0 <= j < pre_vf[v]@.len() && pre_vf[v]@[j] == g;
                                assert(self.vertex_faces@[v]@[j] == g);
                            }
                            if g == fi {
                                assert(self.vertex_faces@[v]@[self.vertex_faces@[v]@.len() - 1] == fi);
                            }
                        } else {
                            assert(self.vertex_faces@[v] == pre_vf[v]);
                        }
                    }
                    assert forall|v: int| 0 <= v < n implies (#[trigger] self.vertex_faces@[v]@).no_duplicates() by {
                        if v != v0 as int {
                            assert(self.vertex_faces@[v] == pre_vf[v]);
                        }
                    }
                    assert forall|v: int, j: int| 0 <= v < n && 0 <= j < self.vertex_faces@[v]@.len() implies (
                        #[trigger] self.vertex_faces@[v]@[j]) < nf by {
                        if v != v0 as int {
                            assert(self.vertex_faces@[v] == pre_vf[v]);
                        } else if j < pre_vf[v]@.len() {
                            assert(self.vertex_faces@[v]@[j] == pre_vf[v]@[j]);
                        }
                    }
                    assert(self.vertex_faces@[v1 as int] == pre_vf[v1 as int]);
                }
            }
            proof {
                assert forall|f: int| 0 <= f < nf implies #[trigger] self.faces@[f] == (if l.take(i + 1).contains(
                    f as usize,
                ) {
                    replaced(of_faces[f], v1, v0)
                } else {
                    of_faces[f]
                }) by {
                    if f != fi as int {
                        assert(l.take(i + 1).contains(f as usize) == l.take(i as int).contains(f as usize));
                    } else {
                        assert(l.take(i + 1).contains(fi));
                    }
                }
                assert forall|f: int| 0 <= f < nf implies #[trigger] self.alive@[f] == (of_alive[f] && !(l.take(
                    i + 1,
                ).contains(f as usize) && degenerate(replaced(of_faces[f], v1, v0)))) by {
                    if f != fi as int {
                        assert(l.take(i + 1).contains(f as usize) == l.take(i as int).contains(f as usize));
                    } else {
                        assert(l.take(i + 1)[i as int] == fi);
                        assert(l.take(i + 1).contains(fi));
                    }
                }
                assert forall|f: int| 0 <= f < nf && !(#[trigger] self.alive@[f]) implies degenerate(self.faces@[f]) by {
                    if f != fi as int {
                        assert(pre_faces[f] == self.faces@[f]);
                        assert(!pre_alive[f]);
                    }
                }
                assert forall|f: int| 0 <= f < nf implies face_in_range(#[trigger] self.faces@[f], n) by {
                    assert(face_in_range(of_faces[f], n));
                }
                assert forall|f: int, k: int| 0 <= f < nf && self.alive@[f] && 0 <= k < 3 implies
                    (#[trigger] self.collapsed_into@[self.faces@[f][k] as int]) is None by {
                    if f != fi as int {
                        assert(pre_faces[f] == self.faces@[f]);
                        assert(pre_alive[f]);
                    } else {
                        assert(pre_alive[f]);
                        if self.faces@[f][k] != v0 {
                            assert(self.faces@[f][k] == pre_faces[f][k]);
                        }
                    }
                }
            }
            i = i + 1;
        }
        proof {
            assert(l.take(l.len() as int) =~= l);
        }
        self.collapsed_into.set(v1, Some(v0));
        let ghost old_rank = self.rank@;
        let ghost old_top = self.top@;
        proof {
            assert forall|f: int, k: int| 0 <= f < nf && self.alive@[f] && 0 <= k < 3 implies
                (#[trigger] self.collapsed_into@[self.faces@[f][k] as int]) is None by {
                if l.contains(f as usize) {
                    assert(self.faces@[f] == replaced(of_faces[f], v1, v0));
                } else {
                    assert(!face_has(of_faces[f], v1));
                }
                assert(self.faces@[f][k] != v1);
            }
            assert forall|v: int, g: usize| 0 <= v < n implies (#[trigger] self.vertex_faces@[v]@.contains(g)
                <==> (g < nf && self.alive@[g as int] && face_has(self.faces@[g as int], v as usize))) by {
                if v == v1 as int && g < nf && self.alive@[g as int] {
                    if l.contains(g) {
                        assert(self.faces@[g as int] == replaced(of_faces[g as int], v1, v0));
                    } else {
                        assert(!face_has(of_faces[g as int], v1));
                    }
                }
            }
        }
        self.rank = Ghost(old_rank.update(v0 as int, old_rank[v0 as int] + old_rank[v1 as int] + 1));
        self.top = Ghost(2 * old_top + 1);
        proof {
            assert forall|v: int| 0 <= v < n && (#[trigger] self.collapsed_into@[v]) is Some implies {
                let w = self.collapsed_into@[v]->0 as int;
                &&& 0 <= w < n
                &&& self.rank@[w] > self.rank@[v]
            } by {
                if v != v1 as int {
                    assert(v != v0 as int);
                }
            }
        }
    }
}

/// Whether vertex `v` survives compaction: not merged away and still used
/// by some alive face.
pub open spec fn vertex_kept(t: &FaceTopology, v: int) -> bool {
    t.collapsed_into@[v] is None && t.vertex_faces@[v]@.len() > 0
}

/// The surviving vertices among `0..k`, in order.
pub open spec fn kept_prefix(t: &FaceTopology, k: nat) -> Seq<usize>
    decreases k,
{
    if k == 0 {
        Seq::empty()
    } else {
        kept_prefix(t, (k - 1) as nat) + if vertex_kept(t, k - 1) {
            seq![(k - 1) as usize]
        } else {
            Seq::empty()
        }
    }
}

/// New index of vertex `v` after compaction, if it survives.
pub open spec fn remap_of(t: &FaceTopology, v: int) -> Option<u32> {
    if vertex_kept(t, v) {
        Some(kept_prefix(t, v as nat).len() as u32)
    } else {
        None
    }
}

/// The triangle that face `f` becomes after compaction: present when the
/// face repeats no vertex, all three vertices survive and their new
/// indices differ.
pub open spec fn compact_face(t: &FaceTopology, f: int) -> Option<[u32; 3]> {
    let face = t.faces@[f];
    let (a, b, c) = (remap_of(t, face[0] as int), remap_of(t, face[1] as int), remap_of(t, face[2] as int));
    if !degenerate(face) && a is Some && b is Some && c is Some && a->0 != b->0 && b->0 != c->0 && a->0
        != c->0 {
        Some([a->0, b->0, c->0])
    } else {
        None
    }
}

/// Whether a triangle's three indices differ.
pub open spec fn distinct3(t: [u32; 3]) -> bool {
    t[0] != t[1] && t[1] != t[2] && t[0] != t[2]
}

/// The triangles of the first `k` faces after compaction, in face order.
pub open spec fn compact_prefix(t: &FaceTopology, k: nat) -> Seq<[u32; 3]>
    decreases k,
{
    if k == 0 {
        Seq::empty()
    } else {
        compact_prefix(t, (k - 1) as nat) + match compact_face(t, k - 1) {
            Some(tri) => seq![tri],
            None => Seq::empty(),
        }
    }
}

proof fn lemma_kept_prefix_props(t: &FaceTopology, k: nat)
    requires
        k <= t.collapsed_into.len(),
        t.vertex_faces.len() == t.collapsed_into.len(),
    ensures
        kept_prefix(t, k).len() <= k,
        forall|i: int| 0 <= i < kept_prefix(t, k).len() ==> (#[trigger] kept_prefix(t, k)[i]) < k,
        forall|i: int, j: int| 0 <= i < j < kept_prefix(t, k).len() ==> kept_prefix(t, k)[i] < kept_prefix(t, k)[j],
        forall|v: int| 0 <= v < k && #[trigger] vertex_kept(t, v) ==> kept_prefix(t, k)[kept_prefix(t, v as nat).len() as int]
            == v,
        forall|v: int| 0 <= v < k && #[trigger] vertex_kept(t, v) ==> kept_prefix(t, v as nat).len() < kept_prefix(t, k).len(),
        forall|v: int, w: int| 0 <= v < w <= k ==> (#[trigger] kept_prefix(t, v as nat)).len() <= (#[trigger] kept_prefix(t, w as nat)).len(),
    decreases k,
{
    if k > 0 {
        lemma_kept_prefix_props(t, (k - 1) as nat);
        let p = kept_prefix(t, (k - 1) as nat);
        let q = kept_prefix(t, k);
        assert forall|v: int| 0 <= v < k && #[trigger] vertex_kept(t, v) implies q[kept_prefix(t, v as nat).len() as int] == v by {
            if v < k - 1 {
                assert(q[kept_prefix(t, v as nat).len() as int] == p[kept_prefix(t, v as nat).len() as int]);
            }
        }
        assert forall|v: int, w: int| 0 <= v < w <= k implies (#[trigger] kept_prefix(t, v as nat)).len() <= (#[trigger] kept_prefix(t, w as nat)).len() by {
            if w < k {
            } else if v < k - 1 {
                assert(kept_prefix(t, v as nat).len() <= p.len());
            }
        }
    }
}

impl FaceTopology {
    /// Compaction after decimation: the surviving vertices in order (the
    /// new vertex `i` is old vertex `kept[i]`) and the triangles of the
    /// faces that survive, re-indexed, in face order.
    pub fn compact(&self) -> (r: (Vec<usize>, Vec<[u32; 3]>))
        requires
            self.wf(),
            self.collapsed_into.len() <= u32::MAX,
        ensures
            r.0@ == kept_prefix(self, self.collapsed_into.len() as nat),
            r.1@ == compact_prefix(self, self.faces.len() as nat),
            forall|i: int, k: int| 0 <= i < r.1.len() && 0 <= k < 3 ==> (#[trigger] r.1@[i][k] as int) < r.0.len(),
            forall|i: int| 0 <= i < r.1.len() ==> distinct3(#[trigger] r.1@[i]),
    {
        let n = self.collapsed_into.len();
        let mut kept: Vec<usize> = Vec::new();
        let mut remap: Vec<Option<u32>> = Vec::new();
        let mut v: usize = 0;
        while v < n
            invariant
                self.wf(),
                n == self.collapsed_into.len() <= u32::MAX,
                v <= n,
                kept@ == kept_prefix(self, v as nat),
                remap.len() == v,
                forall|u: int| 0 <= u < v ==> #[trigger] remap@[u] == remap_of(self, u),
            decreases n - v,
        {
            proof {
                lemma_kept_prefix_props(self, v as nat);
            }
            if self.collapsed_into[v].is_none() && self.vertex_faces[v].len() > 0 {
                remap.push(Some(kept.len() as u32));
                kept.push(v);
            } else {
                remap.push(None);
            }
            v = v + 1;
        }
        proof {
            lemma_kept_prefix_props(self, n as nat);
        }
        let mut tris: Vec<[u32; 3]> = Vec::new();
        let nf = self.faces.len();
        let mut f: usize = 0;
        while f < nf
            invariant
                self.wf(),
                n == self.collapsed_into.len() <= u32::MAX,
                nf == self.faces.len(),
                f <= nf,
                remap.len() == n,
                kept@ == kept_prefix(self, n as nat),
                forall|u: int| 0 <= u < n ==> #[trigger] remap@[u] == remap_of(self, u),
                tris@ == compact_prefix(self, f as nat),
            decreases nf - f,
        {
            let face = self.faces[f];
            assert(face_in_range(self.faces@[f as int], n as int));
            if !(face[0] == face[1] || face[1] == face[2] || face[0] == face[2]) {
                let i0 = remap[face[0]];
                let i1 = remap[face[1]];
                let i2 = remap[face[2]];
                match (i0, i1, i2) {
                    (Some(a), Some(b), Some(c)) => {
                        if a != b && b != c && a != c {
                            tris.push([a, b, c]);
                        }
                    },
                    _ => {},
                }
            }
            f = f + 1;
        }
        proof {
            lemma_compact_prefix_bounds(self, nf as nat);
        }
        (kept, tris)
    }
}

proof fn lemma_compact_prefix_bounds(t: &FaceTopology, k: nat)
    requires
        t.wf(),
        k <= t.faces.len(),
        t.collapsed_into.len() <= u32::MAX,
    ensures
        forall|i: int, j: int| 0 <= i < compact_prefix(t, k).len() && 0 <= j < 3 ==> (
            #[trigger] compact_prefix(t, k)[i][j] as int) < kept_prefix(t, t.collapsed_into.len() as nat).len(),
        forall|i: int| 0 <= i < compact_prefix(t, k).len() ==> distinct3(#[trigger] compact_prefix(t, k)[i]),
    decreases k,
{
    let n = t.collapsed_into.len() as nat;
    lemma_kept_prefix_props(t, n);
    if k > 0 {
        lemma_compact_prefix_bounds(t, (k - 1) as nat);
        let f = k - 1;
        assert(face_in_range(t.faces@[f], n as int));
        let p = compact_prefix(t, (k - 1) as nat);
        let q = compact_prefix(t, k);
        assert forall|i: int, j: int| 0 <= i < q.len() && 0 <= j < 3 implies (#[trigger] q[i][j] as int) < kept_prefix(t, n).len() by {
            if i < p.len() {
                assert(q[i] == p[i]);
            } else {
                let face = t.faces@[f];
                assert(vertex_kept(t, face[0] as int) && vertex_kept(t, face[1] as int) && vertex_kept(t, face[2] as int));
            }
        }
        assert forall|i: int| 0 <= i < q.len() implies distinct3(#[trigger] q[i]) by {
            if i < p.len() {
                assert(q[i] == p[i]);
            } else {
                assert(q[i] == compact_face(t, f)->0);
            }
        }
    }
}

/// Law: compaction keeps exactly the faces that are alive and repeat no
/// vertex (so decimation drops only the faces its collapses destroyed and
/// those that were degenerate from the start).
pub proof fn lemma_compact_keeps_alive_faces(t: &FaceTopology, f: int)
    requires
        t.wf(),
        t.collapsed_into.len() <= u32::MAX,
        0 <= f < t.faces.len(),
    ensures
        compact_face(t, f) is Some <==> (t.alive@[f] && !degenerate(t.faces@[f])),
{
    let n = t.collapsed_into.len() as int;
    let face = t.faces@[f];
    assert(face_in_range(face, n));
    lemma_kept_prefix_props(t, n as nat);
    if t.alive@[f] && !degenerate(face) {
        assert forall|k: int| 0 <= k < 3 implies #[trigger] vertex_kept(t, face[k] as int) by {
            assert(t.collapsed_into@[t.faces@[f][k] as int] is None);
            assert(t.vertex_faces@[face[k] as int]@.contains(f as usize));
        }
        assert(vertex_kept(t, face[0] as int) && vertex_kept(t, face[1] as int) && vertex_kept(t, face[2] as int));
        lemma_remap_injective(t, face[0] as int, face[1] as int);
        lemma_remap_injective(t, face[1] as int, face[2] as int);
        lemma_remap_injective(t, face[0] as int, face[2] as int);
    }
    if compact_face(t, f) is Some && !t.alive@[f] {
        assert(degenerate(t.faces@[f]));
    }
}

proof fn lemma_remap_injective(t: &FaceTopology, v: int, w: int)
    requires
        t.wf(),
        0 <= v < t.collapsed_into.len(),
        0 <= w < t.collapsed_into.len(),
        v != w,
        vertex_kept(t, v),
        vertex_kept(t, w),
    ensures
        kept_prefix(t, v as nat).len() != kept_prefix(t, w as nat).len(),
{
    let n = t.collapsed_into.len() as nat;
    lemma_kept_prefix_props(t, n);
    let (a, b) = if v < w { (v, w) } else { (w, v) };
    assert(kept_prefix(t, (a + 1) as nat).len() == kept_prefix(t, a as nat).len() + 1);
    if a + 1 < b {
        assert(kept_prefix(t, (a + 1) as nat).len() <= kept_prefix(t, b as nat).len());
    }
}

impl FaceTopology {
    /// The unmerged vertices other than `v` that share an alive face with
    /// `v`, each once, in order of first appearance along `v`'s face list.
    pub fn neighbors(&self, v: usize) -> (out: Vec<usize>)
        requires
            self.wf(),
            v < self.collapsed_into.len(),
        ensures
            out@.no_duplicates(),
            forall|u: usize| #[trigger] out@.contains(u) <==> (u != v && u < self.collapsed_into.len()
                && self.collapsed_into@[u as int] is None && exists|f: int|
                0 <= f < self.faces.len() && self.alive@[f] && face_has(self.faces@[f], v) && #[trigger] face_has(
                    self.faces@[f],
                    u,
                )),
    {
        let n = self.collapsed_into.len();
        let list = &self.vertex_faces[v];
        let ghost l = list@;
        let mut out: Vec<usize> = Vec::new();
        let mut i: usize = 0;
        while i < list.len()
            invariant
                self.wf(),
                n == self.collapsed_into.len(),
                v < n,
                list@ == l,
                l == self.vertex_faces@[v as int]@,
                i <= l.len(),
                out@.no_duplicates(),
                forall|u: usize| #[trigger] out@.contains(u) <==> (u != v && u < n && self.collapsed_into@[u as int]
                    is None && exists|j: int| 0 <= j < i && #[trigger] face_has(self.faces@[l[j] as int], u)),
            decreases l.len() - i,
        {
            let fi = list[i];
            assert(fi < self.faces.len());
            let face = self.faces[fi];
            assert(face_in_range(self.faces@[fi as int], n as int));
            let ghost before = out@;
            let mut k: usize = 0;
            while k < 3
                invariant
                    self.wf(),
                    n == self.collapsed_into.len(),
                    v < n,
                    i < l.len(),
                    fi == l[i as int],
                    face == self.faces@[fi as int],
                    face_in_range(face, n as int),
                    k <= 3,
                    out@.no_duplicates(),
                    forall|u: usize| #[trigger] out@.contains(u) <==> (before.contains(u) || (u != v && self.collapsed_into@[u as int]
                        is None && exists|m: int| 0 <= m < k && #[trigger] face[m] == u)),
                decreases 3 - k,
            {
                let u = face[k];
                let ghost old_out = out@;
                let pushed = u != v && self.collapsed_into[u].is_none() && !contains_face(&out, u);
                if pushed {
                    out.push(u);
                }
                proof {
                    if pushed {
                        assert forall|a: int, b: int| 0 <= a < b < out@.len() implies out@[a] != out@[b] by {
                            if b == out@.len() - 1 {
                                assert(old_out.contains(out@[a]) ==> old_out[a] == out@[a]);
                                assert(out@[a] == old_out[a]);
                            } else {
                                assert(out@[a] == old_out[a] && out@[b] == old_out[b]);
                            }
                        }
                    }
                    assert forall|x: usize| #[trigger] out@.contains(x) <==> (before.contains(x) || (x != v && self.collapsed_into@[x as int]
                        is None && exists|m: int| 0 <= m < k + 1 && #[trigger] face[m] == x)) by {
                        if pushed {
                            if x == u {
                                assert(out@[out@.len() - 1] == x);
                                assert(face[k as int] == x);
                            } else {
                                if out@.contains(x) {
                                    let j = choose|j: int| 0 <= j < out@.len() && out@[j] == x;
                                    assert(old_out[j] == x);
                                }
                                if old_out.contains(x) {
                                    let j = choose|j: int| 0 <= j < old_out.len() && old_out[j] == x;
                                    assert(out@[j] == x);
                                }
                            }
                        } else {
                            assert(out@ == old_out);
                            if x == u {
                                assert(face[k as int] == x);
                            }
                        }
                        if x != u && exists|m: int| 0 <= m < k + 1 && #[trigger] face[m] == x {
                            let m = choose|m: int| 0 <= m < k + 1 && #[trigger] face[m] == x;
                            assert(m != k);
                        }
                    }
                }
                k = k + 1;
            }
            proof {
                assert forall|u: usize| #[trigger] out@.contains(u) <==> (u != v && u < n && self.collapsed_into@[u as int]
                    is None && exists|j: int| 0 <= j < i + 1 && #[trigger] face_has(self.faces@[l[j] as int], u)) by {
                    if out@.contains(u) && !before.contains(u) {
                        let m = choose|m: int| 0 <= m < 3 && #[trigger] face[m] == u;
                        assert(face_has(self.faces@[l[i as int] as int], u));
                        assert(u < n);
                    }
                    if u != v && u < n && self.collapsed_into@[u as int] is None && exists|j: int| 0 <= j < i + 1 && #[trigger] face_has(self.faces@[l[j] as int], u) {
                        let j = choose|j: int| 0 <= j < i + 1 && #[trigger] face_has(self.faces@[l[j] as int], u);
                        if j == i {
                            if face[0] == u { assert(face[0int] == u); }
                            else if face[1] == u { assert(face[1int] == u); }
                            else { assert(face[2int] == u); }
                        }
                    }
                }
            }
            i = i + 1;
        }
        proof {
            assert forall|u: usize| #[trigger] out@.contains(u) <==> (u != v && u < n
                && self.collapsed_into@[u as int] is None && exists|f: int|
                0 <= f < self.faces.len() && self.alive@[f] && face_has(self.faces@[f], v) && #[trigger] face_has(
                    self.faces@[f],
                    u,
                )) by {
                if out@.contains(u) {
                    let j = choose|j: int| 0 <= j < l.len() && #[trigger] face_has(self.faces@[l[j] as int], u);
                    assert(l.contains(l[j]));
                    let f = l[j] as int;
                    assert(self.vertex_faces@[v as int]@.contains(l[j]));
                    assert(face_has(self.faces@[f], u));
                }
                if u != v && u < n && self.collapsed_into@[u as int] is None && exists|f: int|
                    0 <= f < self.faces.len() && self.alive@[f] && face_has(self.faces@[f], v) && #[trigger] face_has(self.faces@[f], u) {
                    let f = choose|f: int| 0 <= f < self.faces.len() && self.alive@[f] && face_has(self.faces@[f], v) && #[trigger] face_has(self.faces@[f], u);
                    assert(self.vertex_faces@[v as int]@.contains(f as usize));
                    let j = choose|j: int| 0 <= j < l.len() && l[j] == f as usize;
                    assert(face_has(self.faces@[l[j] as int], u));
                }
            }
        }
        out
    }
}

/// Whether vertex `i` is a corner of one of the triangles.
pub open spec fn uses_vertex(tris: Seq<[u32; 3]>, i: int) -> bool {
    exists|j: int, m: int| 0 <= j < tris.len() && 0 <= m < 3 && #[trigger] tris[j][m] == i
}

proof fn lemma_kept_are_kept(t: &FaceTopology, k: nat)
    requires
        k <= t.collapsed_into.len(),
        t.vertex_faces.len() == t.collapsed_into.len(),
    ensures
        forall|i: int| 0 <= i < kept_prefix(t, k).len() ==> vertex_kept(t, #[trigger] kept_prefix(t, k)[i] as int),
    decreases k,
{
    if k > 0 {
        lemma_kept_are_kept(t, (k - 1) as nat);
        let p = kept_prefix(t, (k - 1) as nat);
        let q = kept_prefix(t, k);
        assert forall|i: int| 0 <= i < q.len() implies vertex_kept(t, #[trigger] q[i] as int) by {
            if i < p.len() {
                assert(q[i] == p[i]);
            } else {
                assert(q[i] == (k - 1) as usize);
            }
        }
    }
}

proof fn lemma_compact_prefix_props(t: &FaceTopology, k: nat, f: int)
    requires
        k <= t.faces.len(),
    ensures
        compact_prefix(t, k).len() <= k,
        0 <= f < k && compact_face(t, f) is Some ==> compact_prefix(t, k).contains(compact_face(t, f)->0),
    decreases k,
{
    if k > 0 {
        lemma_compact_prefix_props(t, (k - 1) as nat, f);
        let p = compact_prefix(t, (k - 1) as nat);
        let q = compact_prefix(t, k);
        if 0 <= f < k - 1 && compact_face(t, f) is Some {
            let j = choose|j: int| 0 <= j < p.len() && p[j] == compact_face(t, f)->0;
            assert(q[j] == p[j]);
        }
        if f == k - 1 && compact_face(t, f) is Some {
            assert(q[p.len() as int] == compact_face(t, f)->0);
        }
    }
}

/// Law: decimation's compaction shrinks the mesh and leaves no vertex
/// unused. When every alive face uses three different vertices (as after
/// `new` on triangles that repeat no vertex, and after every `collapse`),
/// the compacted mesh has no more vertices and triangles than before, and
/// every kept vertex is a corner of some kept triangle.
pub proof fn lemma_compaction_shrinks_and_uses_every_vertex(t: &FaceTopology)
    requires
        t.wf(),
        t.collapsed_into.len() <= u32::MAX,
        faces_proper(t),
    ensures
        ({
            let kept = kept_prefix(t, t.collapsed_into.len() as nat);
            let tris = compact_prefix(t, t.faces.len() as nat);
            &&& kept.len() <= t.collapsed_into.len()
            &&& tris.len() <= t.faces.len()
            &&& forall|i: int| 0 <= i < kept.len() ==> #[trigger] uses_vertex(tris, i)
        }),
{
    let n = t.collapsed_into.len() as nat;
    let nf = t.faces.len() as nat;
    let kept = kept_prefix(t, n);
    let tris = compact_prefix(t, nf);
    lemma_kept_prefix_props(t, n);
    lemma_kept_are_kept(t, n);
    lemma_compact_prefix_props(t, nf, 0);
    assert forall|i: int| 0 <= i < kept.len() implies #[trigger] uses_vertex(tris, i) by {
        let v = kept[i] as int;
        assert(vertex_kept(t, v));
        let pos = kept_prefix(t, v as nat).len() as int;
        assert(kept[pos] == v);
        if pos < i {
            assert(kept[pos] < kept[i]);
        } else if i < pos {
            assert(kept[i] < kept[pos]);
        }
        assert(pos == i);
        let f = t.vertex_faces@[v]@[0];
        assert(t.vertex_faces@[v]@.contains(f));
        assert(f < nf && t.alive@[f as int] && face_has(t.faces@[f as int], v as usize));
        lemma_compact_keeps_alive_faces(t, f as int);
        let tri = compact_face(t, f as int)->0;
        lemma_compact_prefix_props(t, nf, f as int);
        let j = choose|j: int| 0 <= j < tris.len() && tris[j] == tri;
        let face = t.faces@[f as int];
        let m: int = if face[0] == v as usize { 0 } else if face[1] == v as usize { 1 } else { 2 };
        assert(tri[m] == remap_of(t, v)->0);
        assert(tris[j][m] == i);
    }
}

/// A per-vertex attribute after compaction: the entries of `values` at the
/// kept vertices, in order, skipping kept vertices the attribute has no
/// entry for.
pub open spec fn carried<T>(values: Seq<T>, kept: Seq<usize>) -> Seq<T>
    decreases kept.len(),
{
    if kept.len() == 0 {
        Seq::empty()
    } else {
        let v = kept.last();
        carried(values, kept.drop_last()) + if (v as int) < values.len() { seq![values[v as int]] } else { Seq::empty() }
    }
}

proof fn lemma_carried_full<T>(values: Seq<T>, kept: Seq<usize>)
    requires
        forall|i: int| 0 <= i < kept.len() ==> (#[trigger] kept[i] as int) < values.len(),
    ensures
        carried(values, kept).len() == kept.len(),
        forall|i: int| 0 <= i < kept.len() ==> #[trigger] carried(values, kept)[i] == values[kept[i] as int],
    decreases kept.len(),
{
    if kept.len() > 0 {
        let rest = kept.drop_last();
        assert forall|i: int| 0 <= i < rest.len() implies (#[trigger] rest[i] as int) < values.len() by {
            assert(rest[i] == kept[i]);
        }
        lemma_carried_full(values, rest);
        assert forall|i: int| 0 <= i < kept.len() implies #[trigger] carried(values, kept)[i] == values[kept[i] as int] by {
            if i < rest.len() {
                assert(carried(values, kept)[i] == carried(values, rest)[i]);
            }
        }
    }
}

/// Carries a per-vertex attribute (position, normal, color) over to the
/// compacted mesh: entry `i` of the result belongs to new vertex `i`, that
/// is old vertex `kept[i]`, when the attribute has an entry for every
/// vertex.
pub fn carry_over<T: Copy>(values: &Vec<T>, kept: &Vec<usize>) -> (out: Vec<T>)
    ensures
        out@ == carried(values@, kept@),
        (forall|i: int| 0 <= i < kept.len() ==> (#[trigger] kept@[i] as int) < values.len()) ==> {
            &&& out.len() == kept.len()
            &&& forall|i: int| 0 <= i < kept.len() ==> #[trigger] out@[i] == values@[kept@[i] as int]
        },
{
    let mut out: Vec<T> = Vec::new();
    let mut i: usize = 0;
    while i < kept.len()
        invariant
            i <= kept.len(),
            out@ == carried(values@, kept@.take(i as int)),
        decreases kept.len() - i,
    {
        let v = kept[i];
        assert(kept@.take(i + 1).drop_last() =~= kept@.take(i as int));
        if v < values.len() {
            out.push(values[v]);
        }
        i = i + 1;
    }
    assert(kept@.take(kept.len() as int) =~= kept@);
    proof {
        if forall|i: int| 0 <= i < kept.len() ==> (#[trigger] kept@[i] as int) < values.len() {
            lemma_carried_full(values@, kept@);
        }
    }
    out
}

/// Law: decimation leaves a valid mesh. With every alive face using three
/// different vertices, and every attribute holding one entry per vertex,
/// the compacted mesh has one attribute entry per kept vertex (the old
/// entry of that vertex), at most as many vertices and triangles as before,
/// every triangle index below the new vertex count, and every kept vertex
/// used by some triangle.
pub proof fn lemma_decimated_mesh_is_valid<T>(t: &FaceTopology, values: Seq<T>)
    requires
        t.wf(),
        t.collapsed_into.len() <= u32::MAX,
        faces_proper(t),
        values.len() == t.collapsed_into.len(),
    ensures
        ({
            let kept = kept_prefix(t, t.collapsed_into.len() as nat);
            let tris = compact_prefix(t, t.faces.len() as nat);
            &&& carried(values, kept).len() == kept.len()
            &&& forall|i: int| 0 <= i < kept.len() ==> #[trigger] carried(values, kept)[i] == values[kept[i] as int]
            &&& kept.len() <= t.collapsed_into.len()
            &&& tris.len() <= t.faces.len()
            &&& forall|j: int, m: int| 0 <= j < tris.len() && 0 <= m < 3 ==> (#[trigger] tris[j][m] as int) < kept.len()
            &&& forall|i: int| 0 <= i < kept.len() ==> #[trigger] uses_vertex(tris, i)
        }),
{
    let n = t.collapsed_into.len() as nat;
    lemma_kept_prefix_props(t, n);
    lemma_carried_full(values, kept_prefix(t, n));
    lemma_compaction_shrinks_and_uses_every_vertex(t);
    lemma_compact_prefix_bounds(t, t.faces.len() as nat);
}

} // verus!
