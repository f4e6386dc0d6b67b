//! Stanford PLY encoding (binary little-endian).
//!
//! Vertex properties: `x y z [nx ny nz] [red green blue alpha]` (float and
//! uchar). Face property: `vertex_indices` as a list of 3 `int` values.
//! Coordinates are passed as the bit patterns of their `f32` values, which
//! is what the file stores; colors are passed already quantised to bytes.
use vstd::prelude::*;
use crate::bytes::{ascii_bytes, byte_of, le32, lemma_le32_bytes, push_ascii, push_decimal_ascii, push_u32_le};
use crate::text::decimal;

verus! {

/// Errors that can occur during PLY export.
pub enum PlyExportError {
    /// The mesh contains no geometry.
    EmptyMesh,
    /// An I/O error occurred while writing.
    Io(std::io::Error),
}

/// Header lines up to the vertex coordinate properties.
pub open spec fn ply_header_start(vertex_count: nat) -> Seq<u8> {
    ascii_bytes("ply\n"@) + ascii_bytes("format binary_little_endian 1.0\n"@)
        + ascii_bytes("comment ModernFractalViewer mesh export\n"@)
        + ascii_bytes("element vertex "@) + ascii_bytes(decimal(vertex_count)) + ascii_bytes("\n"@)
        + ascii_bytes("property float x\n"@) + ascii_bytes("property float y\n"@)
        + ascii_bytes("property float z\n"@)
}

/// Normal properties, when present.
pub open spec fn ply_header_normals(has_normals: bool) -> Seq<u8> {
    if has_normals {
        ascii_bytes("property float nx\n"@) + ascii_bytes("property float ny\n"@)
            + ascii_bytes("property float nz\n"@)
    } else {
        Seq::empty()
    }
}

/// Color properties, when present.
pub open spec fn ply_header_colors(has_colors: bool) -> Seq<u8> {
    if has_colors {
        ascii_bytes("property uchar red\n"@) + ascii_bytes("property uchar green\n"@)
            + ascii_bytes("property uchar blue\n"@) + ascii_bytes("property uchar alpha\n"@)
    } else {
        Seq::empty()
    }
}

/// Face element and end of header.
pub open spec fn ply_header_end(face_count: nat) -> Seq<u8> {
    ascii_bytes("element face "@) + ascii_bytes(decimal(face_count)) + ascii_bytes("\n"@)
        + ascii_bytes("property list uchar int vertex_indices\n"@) + ascii_bytes("end_header\n"@)
}

/// The ASCII header.
pub open spec fn ply_header(vertex_count: nat, face_count: nat, has_normals: bool, has_colors: bool) -> Seq<u8> {
    ply_header_start(vertex_count) + ply_header_normals(has_normals) + ply_header_colors(has_colors)
        + ply_header_end(face_count)
}

/// Binary record of one vertex.
pub open spec fn ply_vertex(p: [u32; 3], n: [u32; 3], c: [u8; 4], has_normals: bool, has_colors: bool) -> Seq<u8> {
    le32(p[0]) + le32(p[1]) + le32(p[2])
        + (if has_normals { le32(n[0]) + le32(n[1]) + le32(n[2]) } else { Seq::empty() })
        + (if has_colors { seq![c[0], c[1], c[2], c[3]] } else { Seq::empty() })
}

/// Records of the first `k` vertices.
pub open spec fn ply_vertices(
    positions: Seq<[u32; 3]>,
    normals: Seq<[u32; 3]>,
    colors: Seq<[u8; 4]>,
    has_normals: bool,
    has_colors: bool,
    k: nat,
) -> Seq<u8>
    decreases k,
{
    if k == 0 {
        Seq::empty()
    } else {
        ply_vertices(positions, normals, colors, has_normals, has_colors, (k - 1) as nat)
            + ply_vertex(positions[k - 1], normals[k - 1], colors[k - 1], has_normals, has_colors)
    }
}

/// Records of the first `k` triangles: a count byte (3) and three indices.
pub open spec fn ply_faces(indices: Seq<u32>, k: nat) -> Seq<u8>
    decreases k,
{
    if k == 0 {
        Seq::empty()
    } else {
        ply_faces(indices, (k - 1) as nat) + seq![3u8] + le32(indices[3 * k - 3]) + le32(indices[3 * k - 2])
            + le32(indices[3 * k - 1])
    }
}

/// The complete file. Normals are written when there is one per vertex,
/// colors likewise; trailing indices that do not fill a triangle are dropped.
pub open spec fn ply_bytes(
    positions: Seq<[u32; 3]>,
    normals: Seq<[u32; 3]>,
    colors: Seq<[u8; 4]>,
    indices: Seq<u32>,
) -> Seq<u8> {
    let vc = positions.len();
    let has_normals = normals.len() == vc;
    let has_colors = colors.len() == vc;
    ply_header(vc, indices.len() / 3, has_normals, has_colors)
        + ply_vertices(positions, normals, colors, has_normals, has_colors, vc)
        + ply_faces(indices, indices.len() / 3)
}

fn push_header_start(v: &mut Vec<u8>, vertex_count: usize)
    ensures
        final(v)@ == old(v)@ + ply_header_start(vertex_count as nat),
{
    push_ascii(v, "ply\n");
    push_ascii(v, "format binary_little_endian 1.0\n");
    push_ascii(v, "comment ModernFractalViewer mesh export\n");
    push_ascii(v, "element vertex ");
    push_decimal_ascii(v, vertex_count as u64);
    push_ascii(v, "\n");
    push_ascii(v, "property float x\n");
    push_ascii(v, "property float y\n");
    push_ascii(v, "property float z\n");
    assert(v@ =~= old(v)@ + ply_header_start(vertex_count as nat));
}

fn push_header_optional(v: &mut Vec<u8>, has_normals: bool, has_colors: bool)
    ensures
        final(v)@ == old(v)@ + ply_header_normals(has_normals) + ply_header_colors(has_colors),
{
    if has_normals {
        push_ascii(v, "property float nx\n");
        push_ascii(v, "property float ny\n");
        push_ascii(v, "property float nz\n");
    }
    let ghost mid = v@;
    assert(mid =~= old(v)@ + ply_header_normals(has_normals));
    if has_colors {
        push_ascii(v, "property uchar red\n");
        push_ascii(v, "property uchar green\n");
        push_ascii(v, "property uchar blue\n");
        push_ascii(v, "property uchar alpha\n");
    }
    assert(v@ =~= mid + ply_header_colors(has_colors));
    assert(v@ =~= old(v)@ + ply_header_normals(has_normals) + ply_header_colors(has_colors));
}

fn push_header_end(v: &mut Vec<u8>, face_count: usize)
    ensures
        final(v)@ == old(v)@ + ply_header_end(face_count as nat),
{
    push_ascii(v, "element face ");
    push_decimal_ascii(v, face_count as u64);
    push_ascii(v, "\n");
    push_ascii(v, "property list uchar int vertex_indices\n");
    push_ascii(v, "end_header\n");
    assert(v@ =~= old(v)@ + ply_header_end(face_count as nat));
}

fn push_header(v: &mut Vec<u8>, vertex_count: usize, face_count: usize, has_normals: bool, has_colors: bool)
    ensures
        final(v)@ == old(v)@ + ply_header(vertex_count as nat, face_count as nat, has_normals, has_colors),
{
    push_header_start(v, vertex_count);
    push_header_optional(v, has_normals, has_colors);
    push_header_end(v, face_count);
    assert(v@ =~= old(v)@ + ply_header(vertex_count as nat, face_count as nat, has_normals, has_colors));
}

fn push_vertex(v: &mut Vec<u8>, p: [u32; 3], n: [u32; 3], c: [u8; 4], has_normals: bool, has_colors: bool)
    ensures
        final(v)@ == old(v)@ + ply_vertex(p, n, c, has_normals, has_colors),
{
    push_u32_le(v, p[0]);
    push_u32_le(v, p[1]);
    push_u32_le(v, p[2]);
    let ghost a = v@;
    if has_normals {
        push_u32_le(v, n[0]);
        push_u32_le(v, n[1]);
        push_u32_le(v, n[2]);
    }
    let ghost b = v@;
    if has_colors {
        v.push(c[0]);
        v.push(c[1]);
        v.push(c[2]);
        v.push(c[3]);
    }
    assert(v@ =~= old(v)@ + ply_vertex(p, n, c, has_normals, has_colors));
}

/// Encodes a mesh as a binary little-endian PLY file.
///
/// Fails with `EmptyMesh` when there are no vertices or no indices.
pub fn build_ply(
    positions: &Vec<[u32; 3]>,
    normals: &Vec<[u32; 3]>,
    colors: &Vec<[u8; 4]>,
    indices: &Vec<u32>,
) -> (r: Result<Vec<u8>, PlyExportError>)
    ensures
        positions.len() == 0 || indices.len() == 0 ==> r matches Err(PlyExportError::EmptyMesh),
        positions.len() > 0 && indices.len() > 0 ==> (r matches Ok(bytes)
            && bytes@ == ply_bytes(positions@, normals@, colors@, indices@)),
        r matches Ok(bytes) ==> ply_records_layout(
            bytes@,
            ply_header(
                positions.len() as nat,
                (indices.len() / 3) as nat,
                normals.len() == positions.len(),
                colors.len() == positions.len(),
            ).len() as int,
            positions@,
            normals@,
            colors@,
            normals.len() == positions.len(),
            colors.len() == positions.len(),
        ),
{
    if positions.len() == 0 || indices.len() == 0 {
        return Err(PlyExportError::EmptyMesh);
    }
    let vertex_count = positions.len();
    let face_count = indices.len() / 3;
    let has_normals = normals.len() == vertex_count;
    let has_colors = colors.len() == vertex_count;
    let mut out: Vec<u8> = Vec::new();
    push_header(&mut out, vertex_count, face_count, has_normals, has_colors);
    let ghost header = out@;
    let mut i: usize = 0;
    while i < vertex_count
        invariant
            i <= vertex_count == positions.len(),
            has_normals == (normals.len() == vertex_count),
            has_colors == (colors.len() == vertex_count),
            out@ == header + ply_vertices(positions@, normals@, colors@, has_normals, has_colors, i as nat),
        decreases vertex_count - i,
    {
        let p = positions[i];
        let n = if has_normals { normals[i] } else { [0u32; 3] };
        let c = if has_colors { colors[i] } else { [0u8; 4] };
        push_vertex(&mut out, p, n, c, has_normals, has_colors);
        assert(ply_vertex(p, n, c, has_normals, has_colors)
            =~= ply_vertex(positions@[i as int], normals@[i as int], colors@[i as int], has_normals, has_colors));
        i = i + 1;
        assert(out@ =~= header + ply_vertices(positions@, normals@, colors@, has_normals, has_colors, i as nat));
    }
    let ghost body = out@;
    let mut t: usize = 0;
    while t < face_count
        invariant
            t <= face_count == indices.len() / 3,
            out@ == body + ply_faces(indices@, t as nat),
        decreases face_count - t,
    {
        out.push(3u8);
        push_u32_le(&mut out, indices[3 * t]);
        push_u32_le(&mut out, indices[3 * t + 1]);
        push_u32_le(&mut out, indices[3 * t + 2]);
        t = t + 1;
        assert(out@ =~= body + ply_faces(indices@, t as nat));
    }
    assert(out@ =~= ply_bytes(positions@, normals@, colors@, indices@));
    proof {
        lemma_ply_vertex_records(positions@, normals@, colors@, indices@);
    }
    Ok(out)
}

/// Bytes per vertex record: 12 for the position, 12 for the normal and 4
/// for the color when present.
pub open spec fn ply_record_size(has_normals: bool, has_colors: bool) -> int {
    12 + (if has_normals { 12int } else { 0int }) + (if has_colors { 4int } else { 0int })
}

/// Where the vertex records starting at byte `start` hold each value: the
/// position components of vertex `k` as little-endian bytes at the start of
/// its record, then its normal components, then its color bytes red,
/// green, blue, alpha, in the order the header declares them.
pub open spec fn ply_records_layout(
    bytes: Seq<u8>,
    start: int,
    positions: Seq<[u32; 3]>,
    normals: Seq<[u32; 3]>,
    colors: Seq<[u8; 4]>,
    has_normals: bool,
    has_colors: bool,
) -> bool {
    let r = ply_record_size(has_normals, has_colors);
    let col = if has_normals { 24int } else { 12int };
    &&& forall|k: int, m: int, b: int| 0 <= k < positions.len() && 0 <= m < 3 && 0 <= b < 4 ==>
        bytes[start + r * k + 4 * m + b] as int == #[trigger] byte_of(positions[k][m], b)
    &&& has_normals ==> forall|k: int, m: int, b: int| 0 <= k < positions.len() && 0 <= m < 3 && 0 <= b < 4 ==>
        bytes[start + r * k + 12 + 4 * m + b] as int == #[trigger] byte_of(normals[k][m], b)
    &&& has_colors ==> forall|k: int, j: int| 0 <= k < positions.len() && 0 <= j < 4 ==>
        bytes[start + r * k + col + j] == #[trigger] colors[k][j]
}

proof fn lemma_record_index(r: int, k: int, n: int, o: int)
    requires
        0 <= k < n,
        0 <= o < r,
    ensures
        0 <= r * k + o < r * n,
        k < n - 1 ==> r * k + o < r * (n - 1),
        r * n == r * (n - 1) + r,
{
    assert(0 <= r * k) by (nonlinear_arith)
        requires
            0 <= k,
            0 < r,
    ;
    assert(r * k + r <= r * n) by (nonlinear_arith)
        requires
            k + 1 <= n,
            0 < r,
    ;
    if k < n - 1 {
        assert(r * k + r <= r * (n - 1)) by (nonlinear_arith)
            requires
                k + 1 <= n - 1,
                0 < r,
        ;
    }
    assert(r * n == r * (n - 1) + r) by (nonlinear_arith);
}

proof fn lemma_ply_vertices_len(
    positions: Seq<[u32; 3]>,
    normals: Seq<[u32; 3]>,
    colors: Seq<[u8; 4]>,
    has_normals: bool,
    has_colors: bool,
    n: nat,
)
    ensures
        ply_vertices(positions, normals, colors, has_normals, has_colors, n).len() == ply_record_size(has_normals, has_colors) * n,
    decreases n,
{
    if n > 0 {
        lemma_ply_vertices_len(positions, normals, colors, has_normals, has_colors, (n - 1) as nat);
        lemma_ply_vertex_fields(positions[n - 1], normals[n - 1], colors[n - 1], has_normals, has_colors);
        let r = ply_record_size(has_normals, has_colors);
        let prev = ply_vertices(positions, normals, colors, has_normals, has_colors, (n - 1) as nat);
        let last = ply_vertex(positions[n - 1], normals[n - 1], colors[n - 1], has_normals, has_colors);
        assert(ply_vertices(positions, normals, colors, has_normals, has_colors, n) == prev + last);
        assert(last.len() == r);
        assert(prev.len() == r * (n - 1));
        assert(r * n == r * (n - 1) + r) by (nonlinear_arith);
    } else {
        let r = ply_record_size(has_normals, has_colors);
        assert(r * n == 0) by (nonlinear_arith)
            requires
                n == 0,
        ;
    }
}

proof fn lemma_ply_vertices_at(
    positions: Seq<[u32; 3]>,
    normals: Seq<[u32; 3]>,
    colors: Seq<[u8; 4]>,
    has_normals: bool,
    has_colors: bool,
    n: nat,
    k: int,
    o: int,
)
    requires
        0 <= k < n,
        0 <= o < ply_record_size(has_normals, has_colors),
    ensures
        ply_vertices(positions, normals, colors, has_normals, has_colors, n)[ply_record_size(has_normals, has_colors) * k + o]
            == ply_vertex(positions[k], normals[k], colors[k], has_normals, has_colors)[o],
    decreases n,
{
    let r = ply_record_size(has_normals, has_colors);
    let prev = ply_vertices(positions, normals, colors, has_normals, has_colors, (n - 1) as nat);
    lemma_ply_vertices_len(positions, normals, colors, has_normals, has_colors, (n - 1) as nat);
    lemma_record_index(r, k, n as int, o);
    let last = ply_vertex(positions[n - 1], normals[n - 1], colors[n - 1], has_normals, has_colors);
    lemma_ply_vertex_fields(positions[n - 1], normals[n - 1], colors[n - 1], has_normals, has_colors);
    assert(ply_vertices(positions, normals, colors, has_normals, has_colors, n) == prev + last);
    if k < n - 1 {
        lemma_ply_vertices_at(positions, normals, colors, has_normals, has_colors, (n - 1) as nat, k, o);
    } else {
        assert(r * k == r * (n - 1));
        assert((prev + last)[r * k + o] == last[o]);
    }
}

proof fn lemma_ply_vertex_fields(p: [u32; 3], nrm: [u32; 3], c: [u8; 4], has_normals: bool, has_colors: bool)
    ensures
        ({
            let v = ply_vertex(p, nrm, c, has_normals, has_colors);
            let col = if has_normals { 24int } else { 12int };
            &&& v.len() == ply_record_size(has_normals, has_colors)
            &&& forall|m: int, b: int| 0 <= m < 3 && 0 <= b < 4 ==> v[4 * m + b] as int == #[trigger] byte_of(p[m], b)
            &&& has_normals ==> forall|m: int, b: int| 0 <= m < 3 && 0 <= b < 4 ==> v[12 + 4 * m + b] as int == #[trigger] byte_of(nrm[m], b)
            &&& has_colors ==> forall|j: int| 0 <= j < 4 ==> v[col + j] == #[trigger] c[j]
        }),
{
    lemma_le32_bytes(p[0]);
    lemma_le32_bytes(p[1]);
    lemma_le32_bytes(p[2]);
    lemma_le32_bytes(nrm[0]);
    lemma_le32_bytes(nrm[1]);
    lemma_le32_bytes(nrm[2]);
    let v = ply_vertex(p, nrm, c, has_normals, has_colors);
    assert forall|m: int, b: int| 0 <= m < 3 && 0 <= b < 4 implies v[4 * m + b] as int == #[trigger] byte_of(p[m], b) by {
        if m == 0 { assert(v[4 * m + b] == le32(p[0])[b]); }
        else if m == 1 { assert(v[4 * m + b] == le32(p[1])[b]); }
        else { assert(v[4 * m + b] == le32(p[2])[b]); }
    }
    if has_normals {
        assert forall|m: int, b: int| 0 <= m < 3 && 0 <= b < 4 implies v[12 + 4 * m + b] as int == #[trigger] byte_of(nrm[m], b) by {
            if m == 0 { assert(v[12 + 4 * m + b] == le32(nrm[0])[b]); }
            else if m == 1 { assert(v[12 + 4 * m + b] == le32(nrm[1])[b]); }
            else { assert(v[12 + 4 * m + b] == le32(nrm[2])[b]); }
        }
    }
}

/// Law: a PLY file holds each vertex of the mesh in its record, right
/// after the header: the position and normal components as little-endian
/// bytes and the color bytes in the order red, green, blue, alpha that the
/// header declares, each record as long as its properties.
pub proof fn lemma_ply_vertex_records(positions: Seq<[u32; 3]>, normals: Seq<[u32; 3]>, colors: Seq<[u8; 4]>, indices: Seq<u32>)
    ensures
        ({
            let hn = normals.len() == positions.len();
            let hc = colors.len() == positions.len();
            let header = ply_header(positions.len(), indices.len() / 3, hn, hc);
            &&& ply_bytes(positions, normals, colors, indices).subrange(0, header.len() as int) == header
            &&& ply_records_layout(ply_bytes(positions, normals, colors, indices), header.len() as int, positions, normals, colors, hn, hc)
        }),
{
    let hn = normals.len() == positions.len();
    let hc = colors.len() == positions.len();
    let n = positions.len();
    let header = ply_header(n, indices.len() / 3, hn, hc);
    let verts = ply_vertices(positions, normals, colors, hn, hc, n);
    let bytes = ply_bytes(positions, normals, colors, indices);
    let h = header.len() as int;
    let r = ply_record_size(hn, hc);
    let col = if hn { 24int } else { 12int };
    assert(bytes == header + verts + ply_faces(indices, indices.len() / 3));
    assert(bytes.subrange(0, h) =~= header);
    lemma_ply_vertices_len(positions, normals, colors, hn, hc, n);
    assert forall|k: int, m: int, b: int| 0 <= k < positions.len() && 0 <= m < 3 && 0 <= b < 4 implies
        bytes[h + r * k + 4 * m + b] as int == #[trigger] byte_of(positions[k][m], b) by {
        lemma_ply_vertices_at(positions, normals, colors, hn, hc, n, k, 4 * m + b);
        lemma_record_index(r, k, n as int, 4 * m + b);
        lemma_ply_vertex_fields(positions[k], normals[k], colors[k], hn, hc);
        assert(bytes[h + r * k + 4 * m + b] == verts[r * k + 4 * m + b]);
    }
    if hn {
        assert forall|k: int, m: int, b: int| 0 <= k < positions.len() && 0 <= m < 3 && 0 <= b < 4 implies
            bytes[h + r * k + 12 + 4 * m + b] as int == #[trigger] byte_of(normals[k][m], b) by {
            lemma_ply_vertices_at(positions, normals, colors, hn, hc, n, k, 12 + 4 * m + b);
            lemma_record_index(r, k, n as int, 12 + 4 * m + b);
            lemma_ply_vertex_fields(positions[k], normals[k], colors[k], hn, hc);
            assert(bytes[h + r * k + 12 + 4 * m + b] == verts[r * k + 12 + 4 * m + b]);
        }
    }
    if hc {
        assert forall|k: int, j: int| 0 <= k < positions.len() && 0 <= j < 4 implies
            bytes[h + r * k + col + j] == #[trigger] colors[k][j] by {
            lemma_ply_vertices_at(positions, normals, colors, hn, hc, n, k, col + j);
            lemma_record_index(r, k, n as int, col + j);
            lemma_ply_vertex_fields(positions[k], normals[k], colors[k], hn, hc);
            assert(bytes[h + r * k + col + j] == verts[r * k + col + j]);
        }
    }
}

} // verus!
