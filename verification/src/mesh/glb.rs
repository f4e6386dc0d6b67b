//! Binary glTF 2.0 (`.glb`) container encoding: the binary buffer of a mesh
//! (positions, normals, optional colors, `u32` indices), its buffer-view
//! layout, and the GLB framing around a JSON chunk and a BIN chunk.
//! Float components are passed as the bit patterns of their `f32` values.
use vstd::prelude::*;
use crate::bytes::{byte_of, le32, lemma_le32_bytes, push_u32_le};

verus! {

broadcast use crate::bytes::lemma_le32_len;

/// Byte sizes and offsets of the sections of the binary buffer.
#[derive(Debug, Clone, Copy, PartialEq, Eq, Structural)]
pub struct GlbLayout {
    pub positions_bytes: usize,
    pub normals_bytes: usize,
    pub colors_bytes: usize,
    pub indices_bytes: usize,
    pub positions_offset: usize,
    pub normals_offset: usize,
    pub colors_offset: usize,
    pub indices_offset: usize,
    pub total_bin: usize,
}

/// Section sizes for `vertex_count` vertices (12 bytes of position, 12 of
/// normal, 16 of color when present) and `index_count` 4-byte indices.
pub fn glb_layout(vertex_count: usize, index_count: usize, has_colors: bool) -> (l: GlbLayout)
    requires
        40 * vertex_count + 4 * index_count <= usize::MAX,
    ensures
        l.positions_bytes == 12 * vertex_count,
        l.normals_bytes == 12 * vertex_count,
        l.colors_bytes == (if has_colors { 16 * vertex_count } else { 0 }),
        l.indices_bytes == 4 * index_count,
        l.positions_offset == 0,
        l.normals_offset == l.positions_bytes,
        l.colors_offset == l.normals_offset + l.normals_bytes,
        l.indices_offset == l.colors_offset + l.colors_bytes,
        l.total_bin == l.positions_bytes + l.normals_bytes + l.colors_bytes + l.indices_bytes,
{
    let positions_bytes = vertex_count * 12;
    let normals_bytes = vertex_count * 12;
    let colors_bytes = if has_colors { vertex_count * 16 } else { 0 };
    let indices_bytes = index_count * 4;
    let normals_offset = positions_bytes;
    let colors_offset = normals_offset + normals_bytes;
    let indices_offset = if has_colors { colors_offset + colors_bytes } else { normals_offset + normals_bytes };
    GlbLayout {
        positions_bytes,
        normals_bytes,
        colors_bytes,
        indices_bytes,
        positions_offset: 0,
        normals_offset,
        colors_offset,
        indices_offset,
        total_bin: positions_bytes + normals_bytes + colors_bytes + indices_bytes,
    }
}

/// Little-endian bytes of a sequence of 3-component values.
pub open spec fn vec3_bytes(s: Seq<[u32; 3]>) -> Seq<u8>
    decreases s.len(),
{
    if s.len() == 0 {
        Seq::empty()
    } else {
        vec3_bytes(s.drop_last()) + le32(s.last()[0]) + le32(s.last()[1]) + le32(s.last()[2])
    }
}

/// Little-endian bytes of a sequence of 4-component values.
pub open spec fn vec4_bytes(s: Seq<[u32; 4]>) -> Seq<u8>
    decreases s.len(),
{
    if s.len() == 0 {
        Seq::empty()
    } else {
        vec4_bytes(s.drop_last()) + le32(s.last()[0]) + le32(s.last()[1]) + le32(s.last()[2])
            + le32(s.last()[3])
    }
}

/// Little-endian bytes of a sequence of 32-bit values.
pub open spec fn u32_bytes(s: Seq<u32>) -> Seq<u8>
    decreases s.len(),
{
    if s.len() == 0 { Seq::empty() } else { u32_bytes(s.drop_last()) + le32(s.last()) }
}

/// The binary buffer: positions, normals, colors (only when there are any),
/// then indices.
pub open spec fn glb_bin(
    positions: Seq<[u32; 3]>,
    normals: Seq<[u32; 3]>,
    colors: Seq<[u32; 4]>,
    indices: Seq<u32>,
) -> Seq<u8> {
    vec3_bytes(positions) + vec3_bytes(normals) + (if colors.len() > 0 { vec4_bytes(colors) } else { Seq::empty() })
        + u32_bytes(indices)
}

proof fn lemma_vec3_bytes_len(s: Seq<[u32; 3]>)
    ensures
        vec3_bytes(s).len() == 12 * s.len(),
    decreases s.len(),
{
    if s.len() > 0 {
        lemma_vec3_bytes_len(s.drop_last());
    }
}

proof fn lemma_vec4_bytes_len(s: Seq<[u32; 4]>)
    ensures
        vec4_bytes(s).len() == 16 * s.len(),
    decreases s.len(),
{
    if s.len() > 0 {
        lemma_vec4_bytes_len(s.drop_last());
    }
}

proof fn lemma_u32_bytes_len(s: Seq<u32>)
    ensures
        u32_bytes(s).len() == 4 * s.len(),
    decreases s.len(),
{
    if s.len() > 0 {
        lemma_u32_bytes_len(s.drop_last());
    }
}

fn push_vec3s(out: &mut Vec<u8>, s: &Vec<[u32; 3]>)
    ensures
        final(out)@ == old(out)@ + vec3_bytes(s@),
{
    let mut i: usize = 0;
    while i < s.len()
        invariant
            i <= s.len(),
            out@ == old(out)@ + vec3_bytes(s@.take(i as int)),
        decreases s.len() - i,
    {
        let v = s[i];
        push_u32_le(out, v[0]);
        push_u32_le(out, v[1]);
        push_u32_le(out, v[2]);
        assert(s@.take(i + 1).drop_last() =~= s@.take(i as int));
        i = i + 1;
        assert(out@ =~= old(out)@ + vec3_bytes(s@.take(i as int)));
    }
    assert(s@.take(s.len() as int) =~= s@);
}

fn push_vec4s(out: &mut Vec<u8>, s: &Vec<[u32; 4]>)
    ensures
        final(out)@ == old(out)@ + vec4_bytes(s@),
{
    let mut i: usize = 0;
    while i < s.len()
        invariant
            i <= s.len(),
            out@ == old(out)@ + vec4_bytes(s@.take(i as int)),
        decreases s.len() - i,
    {
        let v = s[i];
        push_u32_le(out, v[0]);
        push_u32_le(out, v[1]);
        push_u32_le(out, v[2]);
        push_u32_le(out, v[3]);
        assert(s@.take(i + 1).drop_last() =~= s@.take(i as int));
        i = i + 1;
        assert(out@ =~= old(out)@ + vec4_bytes(s@.take(i as int)));
    }
    assert(s@.take(s.len() as int) =~= s@);
}

fn push_u32s(out: &mut Vec<u8>, s: &Vec<u32>)
    ensures
        final(out)@ == old(out)@ + u32_bytes(s@),
{
    let mut i: usize = 0;
    while i < s.len()
        invariant
            i <= s.len(),
            out@ == old(out)@ + u32_bytes(s@.take(i as int)),
        decreases s.len() - i,
    {
        push_u32_le(out, s[i]);
        assert(s@.take(i + 1).drop_last() =~= s@.take(i as int));
        i = i + 1;
        assert(out@ =~= old(out)@ + u32_bytes(s@.take(i as int)));
    }
    assert(s@.take(s.len() as int) =~= s@);
}

/// Builds the binary buffer of a mesh.
pub fn encode_glb_bin(
    positions: &Vec<[u32; 3]>,
    normals: &Vec<[u32; 3]>,
    colors: &Vec<[u32; 4]>,
    indices: &Vec<u32>,
) -> (bin: Vec<u8>)
    ensures
        bin@ == glb_bin(positions@, normals@, colors@, indices@),
        bin@.len() == 12 * positions.len() + 12 * normals.len() + (if colors.len() > 0 { 16 * colors.len() } else { 0 })
            + 4 * indices.len(),
        bin_layout(bin@, positions@, normals@, colors@, indices@),
{
    let mut bin: Vec<u8> = Vec::new();
    push_vec3s(&mut bin, positions);
    push_vec3s(&mut bin, normals);
    if colors.len() > 0 {
        push_vec4s(&mut bin, colors);
    }
    push_u32s(&mut bin, indices);
    proof {
        lemma_vec3_bytes_len(positions@);
        lemma_vec3_bytes_len(normals@);
        lemma_vec4_bytes_len(colors@);
        lemma_u32_bytes_len(indices@);
    }
    assert(bin@ =~= glb_bin(positions@, normals@, colors@, indices@));
    proof {
        lemma_glb_bin_layout(positions@, normals@, colors@, indices@);
    }
    bin
}

/// `count` copies of `b`.
pub open spec fn repeat_byte(b: u8, count: nat) -> Seq<u8> {
    Seq::new(count, |i: int| b)
}

/// `s` padded with `fill` to a multiple of four bytes.
pub open spec fn pad4(s: Seq<u8>, fill: u8) -> Seq<u8> {
    s + repeat_byte(fill, ((4 - s.len() % 4) % 4) as nat)
}

/// A complete GLB file: 12-byte header (magic `glTF`, version 2, total
/// length), the JSON chunk padded with spaces and the BIN chunk padded with
/// zeros, each chunk preceded by its length and type.
pub open spec fn glb_bytes(json: Seq<u8>, bin: Seq<u8>) -> Seq<u8> {
    let j = pad4(json, 0x20);
    let b = pad4(bin, 0);
    let total = 28 + j.len() + b.len();
    le32(0x46546C67) + le32(2) + le32(total as u32) + le32(j.len() as u32) + le32(0x4E4F534A) + j
        + le32(b.len() as u32) + le32(0x004E4942) + b
}

#[verifier::spinoff_prover]
proof fn lemma_pad4_len(s: Seq<u8>, fill: u8)
    ensures
        pad4(s, fill).len() % 4 == 0,
        s.len() <= pad4(s, fill).len() <= s.len() + 3,
{
    let n = s.len() as int;
    let extra = (4 - n % 4) % 4;
    assert(repeat_byte(fill, extra as nat).len() == extra);
    assert(pad4(s, fill).len() == n + extra);
    assert(0 <= extra <= 3);
    assert((n + extra) % 4 == 0) by (nonlinear_arith)
        requires
            n >= 0,
            extra == (4 - n % 4) % 4,
    ;
}

fn pad_to_4(v: &mut Vec<u8>, fill: u8)
    ensures
        final(v)@ == pad4(old(v)@, fill),
{
    let ghost start = old(v)@;
    let ghost need = ((4 - start.len() % 4) % 4) as nat;
    while v.len() % 4 != 0
        invariant
            start.len() <= v@.len() <= start.len() + need,
            v@ == start + repeat_byte(fill, (v@.len() - start.len()) as nat),
            need == ((4 - start.len() % 4) % 4) as nat,
        decreases start.len() + need - v@.len(),
    {
        v.push(fill);
        assert(v@ =~= start + repeat_byte(fill, (v@.len() - start.len()) as nat));
    }
    assert(v@.len() == start.len() + need);
    assert(v@ =~= pad4(start, fill));
}

proof fn lemma_glb_frame(json: Seq<u8>, bin: Seq<u8>, j: Seq<u8>, b: Seq<u8>, h: Seq<u8>, out: Seq<u8>, total: u32)
    requires
        j == pad4(json, 0x20),
        b == pad4(bin, 0),
        j.len() % 4 == 0,
        b.len() % 4 == 0,
        total == 28 + j.len() + b.len(),
        h == le32(0x46546C67) + le32(2) + le32(total),
        out == h + le32(j.len() as u32) + le32(0x4E4F534A) + j + le32(b.len() as u32) + le32(0x004E4942) + b,
    ensures
        out == glb_bytes(json, bin),
        out.len() % 4 == 0,
        out.subrange(8, 12) == le32(out.len() as u32),
{
    assert(out.len() == total);
    assert(out.subrange(8, 12) =~= le32(total));
}

fn push_bytes(out: &mut Vec<u8>, src: &Vec<u8>)
    ensures
        final(out)@ == old(out)@ + src@,
{
    let mut k: usize = 0;
    while k < src.len()
        invariant
            k <= src.len(),
            out@ == old(out)@ + src@.take(k as int),
        decreases src.len() - k,
    {
        out.push(src[k]);
        k = k + 1;
        assert(out@ =~= old(out)@ + src@.take(k as int));
    }
    assert(src@.take(src.len() as int) =~= src@);
}

/// Frames a JSON chunk and a BIN chunk into a GLB file.
pub fn encode_glb(json: &Vec<u8>, bin: &Vec<u8>) -> (glb: Vec<u8>)
    requires
        json.len() + bin.len() + 34 <= u32::MAX,
    ensures
        glb@ == glb_bytes(json@, bin@),
        glb@.len() % 4 == 0,
        glb@.subrange(8, 12) == le32(glb@.len() as u32),
{
    let mut j: Vec<u8> = json.clone();
    pad_to_4(&mut j, 0x20);
    let mut b: Vec<u8> = bin.clone();
    pad_to_4(&mut b, 0);
    proof {
        lemma_pad4_len(json@, 0x20);
        lemma_pad4_len(bin@, 0);
    }
    let json_chunk_len = j.len() as u32;
    let bin_chunk_len = b.len() as u32;
    let total_length: u32 = 12 + 8 + json_chunk_len + 8 + bin_chunk_len;
    let mut glb: Vec<u8> = Vec::new();
    push_u32_le(&mut glb, 0x46546C67);
    push_u32_le(&mut glb, 2);
    push_u32_le(&mut glb, total_length);
    let ghost h = glb@;
    push_u32_le(&mut glb, json_chunk_len);
    push_u32_le(&mut glb, 0x4E4F534A);
    push_bytes(&mut glb, &j);
    push_u32_le(&mut glb, bin_chunk_len);
    push_u32_le(&mut glb, 0x004E4942);
    push_bytes(&mut glb, &b);
    proof {
        lemma_glb_frame(json@, bin@, j@, b@, h, glb@, total_length);
    }
    glb
}

/// Law: the chunks of a GLB file are aligned. The file length is a
/// multiple of four and stands in the header; the JSON chunk holds the JSON
/// text followed by at most three spaces and has a length that is a
/// multiple of four, and so does the BIN chunk that follows it.
pub proof fn lemma_glb_chunks_aligned(json: Seq<u8>, bin: Seq<u8>)
    requires
        json.len() + bin.len() + 34 <= u32::MAX,
    ensures
        ({
            let g = glb_bytes(json, bin);
            let n: int = json.len() as int;
            let m: int = bin.len() as int;
            let jl: int = pad4(json, 0x20).len() as int;
            let bl: int = pad4(bin, 0).len() as int;
            &&& g.len() % 4 == 0
            &&& g.subrange(8, 12) == le32(g.len() as u32)
            &&& jl % 4 == 0
            &&& n <= jl <= n + 3
            &&& g.subrange(12, 16) == le32(jl as u32)
            &&& g.subrange(20, 20 + n) == json
            &&& forall|k: int| 20 + n <= k < 20 + jl ==> g[k] == 0x20
            &&& bl % 4 == 0
            &&& g.subrange(20 + jl, 24 + jl) == le32(bl as u32)
            &&& g.subrange(28 + jl, 28 + jl + m) == bin
            &&& g.len() == 28 + jl + bl
        }),
{
    let g = glb_bytes(json, bin);
    let j = pad4(json, 0x20);
    let b = pad4(bin, 0);
    let n: int = json.len() as int;
    let m: int = bin.len() as int;
    let jl: int = j.len() as int;
    let bl: int = b.len() as int;
    lemma_pad4_len(json, 0x20);
    lemma_pad4_len(bin, 0);
    let total = 28 + jl + bl;
    assert(g.len() == total);
    assert(g.subrange(8, 12) =~= le32(total as u32));
    assert(g.subrange(12, 16) =~= le32(jl as u32));
    assert(g.subrange(20, 20 + n) =~= json);
    assert forall|k: int| 20 + n <= k < 20 + jl implies g[k] == 0x20 by {
        assert(g[k] == j[k - 20]);
    }
    assert(g.subrange(20 + jl, 24 + jl) =~= le32(bl as u32));
    assert(g.subrange(28 + jl, 28 + jl + m) =~= bin);
}

/// Why a GLB file could not be built.
pub enum GlbError {
    /// The file would outgrow the 32-bit lengths of the format.
    TooLarge,
}

proof fn lemma_vec3_bytes_at(s: Seq<[u32; 3]>, k: int, m: int, b: int)
    requires
        0 <= k < s.len(),
        0 <= m < 3,
        0 <= b < 4,
    ensures
        vec3_bytes(s).len() == 12 * s.len(),
        vec3_bytes(s)[12 * k + 4 * m + b] as int == byte_of(s[k][m], b),
    decreases s.len(),
{
    lemma_vec3_bytes_len(s);
    let rest = s.drop_last();
    lemma_vec3_bytes_len(rest);
    let l = s.last();
    lemma_le32_bytes(l[0]);
    lemma_le32_bytes(l[1]);
    lemma_le32_bytes(l[2]);
    let tail = le32(l[0]) + le32(l[1]) + le32(l[2]);
    assert(vec3_bytes(s) == vec3_bytes(rest) + tail);
    if k < s.len() - 1 {
        lemma_vec3_bytes_at(rest, k, m, b);
        assert(rest[k] == s[k]);
    } else {
        let o = 4 * m + b;
        assert(vec3_bytes(s)[12 * k + o] == tail[o]);
        if m == 0 {
            assert(tail[o] == le32(l[0])[b]);
        } else if m == 1 {
            assert(tail[o] == le32(l[1])[b]);
        } else {
            assert(tail[o] == le32(l[2])[b]);
        }
    }
}

proof fn lemma_vec4_bytes_at(s: Seq<[u32; 4]>, k: int, m: int, b: int)
    requires
        0 <= k < s.len(),
        0 <= m < 4,
        0 <= b < 4,
    ensures
        vec4_bytes(s).len() == 16 * s.len(),
        vec4_bytes(s)[16 * k + 4 * m + b] as int == byte_of(s[k][m], b),
    decreases s.len(),
{
    lemma_vec4_bytes_len(s);
    let rest = s.drop_last();
    lemma_vec4_bytes_len(rest);
    let l = s.last();
    lemma_le32_bytes(l[0]);
    lemma_le32_bytes(l[1]);
    lemma_le32_bytes(l[2]);
    lemma_le32_bytes(l[3]);
    let tail = le32(l[0]) + le32(l[1]) + le32(l[2]) + le32(l[3]);
    assert(vec4_bytes(s) == vec4_bytes(rest) + tail);
    if k < s.len() - 1 {
        lemma_vec4_bytes_at(rest, k, m, b);
        assert(rest[k] == s[k]);
    } else {
        let o = 4 * m + b;
        assert(vec4_bytes(s)[16 * k + o] == tail[o]);
        if m == 0 {
            assert(tail[o] == le32(l[0])[b]);
        } else if m == 1 {
            assert(tail[o] == le32(l[1])[b]);
        } else if m == 2 {
            assert(tail[o] == le32(l[2])[b]);
        } else {
            assert(tail[o] == le32(l[3])[b]);
        }
    }
}

proof fn lemma_u32_bytes_at(s: Seq<u32>, k: int, b: int)
    requires
        0 <= k < s.len(),
        0 <= b < 4,
    ensures
        u32_bytes(s).len() == 4 * s.len(),
        u32_bytes(s)[4 * k + b] as int == byte_of(s[k], b),
    decreases s.len(),
{
    lemma_u32_bytes_len(s);
    let rest = s.drop_last();
    lemma_u32_bytes_len(rest);
    lemma_le32_bytes(s.last());
    assert(u32_bytes(s) == u32_bytes(rest) + le32(s.last()));
    if k < s.len() - 1 {
        lemma_u32_bytes_at(rest, k, b);
        assert(rest[k] == s[k]);
    } else {
        assert(u32_bytes(s)[4 * k + b] == le32(s.last())[b]);
    }
}

/// Where a binary buffer holds each value of a mesh, as little-endian
/// bytes: component `m` of position `k` at byte `12k + 4m`, then all
/// normals, then all colors (when there are any, 16 bytes each), then the
/// indices; nothing else.
pub open spec fn bin_layout(bin: Seq<u8>, positions: Seq<[u32; 3]>, normals: Seq<[u32; 3]>, colors: Seq<[u32; 4]>, indices: Seq<u32>) -> bool {
    let pe = 12 * positions.len();
    let ne = pe + 12 * normals.len();
    let ce = ne + (if colors.len() > 0 { 16 * colors.len() } else { 0 });
    &&& bin.len() == ce + 4 * indices.len()
    &&& forall|k: int, m: int, b: int| 0 <= k < positions.len() && 0 <= m < 3 && 0 <= b < 4 ==>
        bin[12 * k + 4 * m + b] as int == #[trigger] byte_of(positions[k][m], b)
    &&& forall|k: int, m: int, b: int| 0 <= k < normals.len() && 0 <= m < 3 && 0 <= b < 4 ==>
        bin[pe + 12 * k + 4 * m + b] as int == #[trigger] byte_of(normals[k][m], b)
    &&& forall|k: int, m: int, b: int| 0 <= k < colors.len() && 0 <= m < 4 && 0 <= b < 4 ==>
        bin[ne + 16 * k + 4 * m + b] as int == #[trigger] byte_of(colors[k][m], b)
    &&& forall|k: int, b: int| 0 <= k < indices.len() && 0 <= b < 4 ==>
        bin[ce + 4 * k + b] as int == #[trigger] byte_of(indices[k], b)
}

/// Law: the binary buffer holds each value of the mesh at its place, as
/// its little-endian bytes: component `m` of position `k` at byte
/// `12k + 4m`, of normal `k` after all positions, of color `k` (when there
/// are colors) after all normals, and index `k` after those; nothing else.
pub proof fn lemma_glb_bin_layout(positions: Seq<[u32; 3]>, normals: Seq<[u32; 3]>, colors: Seq<[u32; 4]>, indices: Seq<u32>)
    ensures
        bin_layout(glb_bin(positions, normals, colors, indices), positions, normals, colors, indices),
{
    let pb = vec3_bytes(positions);
    let nb = vec3_bytes(normals);
    let cb = if colors.len() > 0 { vec4_bytes(colors) } else { Seq::empty() };
    let ib = u32_bytes(indices);
    lemma_vec3_bytes_len(positions);
    lemma_vec3_bytes_len(normals);
    lemma_vec4_bytes_len(colors);
    lemma_u32_bytes_len(indices);
    let bin = glb_bin(positions, normals, colors, indices);
    assert(bin == pb + nb + cb + ib);
    let pe = 12 * positions.len();
    let ne = pe + 12 * normals.len();
    let ce = ne + cb.len();
    assert forall|k: int, m: int, b: int| 0 <= k < positions.len() && 0 <= m < 3 && 0 <= b < 4 implies
        bin[12 * k + 4 * m + b] as int == #[trigger] byte_of(positions[k][m], b) by {
        lemma_vec3_bytes_at(positions, k, m, b);
        assert(bin[12 * k + 4 * m + b] == pb[12 * k + 4 * m + b]);
    }
    assert forall|k: int, m: int, b: int| 0 <= k < normals.len() && 0 <= m < 3 && 0 <= b < 4 implies
        bin[pe + 12 * k + 4 * m + b] as int == #[trigger] byte_of(normals[k][m], b) by {
        lemma_vec3_bytes_at(normals, k, m, b);
        assert(bin[pe + 12 * k + 4 * m + b] == nb[12 * k + 4 * m + b]);
    }
    assert forall|k: int, m: int, b: int| 0 <= k < colors.len() && 0 <= m < 4 && 0 <= b < 4 implies
        bin[ne + 16 * k + 4 * m + b] as int == #[trigger] byte_of(colors[k][m], b) by {
        lemma_vec4_bytes_at(colors, k, m, b);
        assert(bin[ne + 16 * k + 4 * m + b] == cb[16 * k + 4 * m + b]);
    }
    assert forall|k: int, b: int| 0 <= k < indices.len() && 0 <= b < 4 implies
        bin[ce + 4 * k + b] as int == #[trigger] byte_of(indices[k], b) by {
        lemma_u32_bytes_at(indices, k, b);
        assert(bin[ce + 4 * k + b] == ib[4 * k + b]);
    }
}

} // verus!
