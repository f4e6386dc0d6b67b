//! Wavefront OBJ encoding.
//!
//! Writes vertex positions (`v`), vertex normals (`vn`) and triangular faces
//! (`f`) with `v//vn` indexing; OBJ indices are 1-based. Coordinates arrive
//! already formatted as `"x y z"` text.
use vstd::prelude::*;
use vstd::string::*;
use crate::text::{decimal, push_decimal};

verus! {

/// Errors that can occur during OBJ export.
pub enum ObjExportError {
    /// The mesh contains no geometry.
    EmptyMesh,
    /// An I/O error occurred while writing.
    Io(std::io::Error),
}

/// One line per coordinate triple: `<prefix><coords>\n`.
pub open spec fn obj_lines(prefix: Seq<char>, coords: Seq<Seq<char>>) -> Seq<char>
    decreases coords.len(),
{
    if coords.len() == 0 {
        Seq::empty()
    } else {
        obj_lines(prefix, coords.drop_last()) + prefix + coords.last() + "\n"@
    }
}

/// A face line for 0-based vertex indices `a`, `b`, `c`.
pub open spec fn obj_face(a: u32, b: u32, c: u32, with_normals: bool) -> Seq<char> {
    let da = decimal(a as nat + 1);
    let db = decimal(b as nat + 1);
    let dc = decimal(c as nat + 1);
    if with_normals {
        "f "@ + da + "//"@ + da + " "@ + db + "//"@ + db + " "@ + dc + "//"@ + dc + "\n"@
    } else {
        "f "@ + da + " "@ + db + " "@ + dc + "\n"@
    }
}

/// Face lines of the first `k` triangles.
pub open spec fn obj_faces(indices: Seq<u32>, with_normals: bool, k: nat) -> Seq<char>
    decreases k,
{
    if k == 0 {
        Seq::empty()
    } else {
        obj_faces(indices, with_normals, (k - 1) as nat)
            + obj_face(indices[3 * k - 3], indices[3 * k - 2], indices[3 * k - 1], with_normals)
    }
}

/// The complete file text.
pub open spec fn obj_text(positions: Seq<Seq<char>>, normals: Seq<Seq<char>>, indices: Seq<u32>) -> Seq<char> {
    let with_normals = normals.len() > 0;
    "# ModernFractalViewer mesh export\n"@ + "# Vertices: "@ + decimal(positions.len()) + "\n"@
        + "# Triangles: "@ + decimal(indices.len() / 3) + "\n"@ + "\n"@
        + obj_lines("v "@, positions) + "\n"@
        + (if with_normals { obj_lines("vn "@, normals) + "\n"@ } else { Seq::empty() })
        + obj_faces(indices, with_normals, indices.len() / 3)
}

fn push_lines(s: &mut String, prefix: &str, coords: &Vec<String>)
    ensures
        final(s)@ == old(s)@ + obj_lines(prefix@, coords@.map_values(|c: String| c@)),
{
    let ghost cv = coords@.map_values(|c: String| c@);
    let mut i: usize = 0;
    while i < coords.len()
        invariant
            i <= coords.len(),
            cv == coords@.map_values(|c: String| c@),
            s@ == old(s)@ + obj_lines(prefix@, cv.take(i as int)),
        decreases coords.len() - i,
    {
        s.append(prefix);
        s.append(coords[i].as_str());
        s.append("\n");
        assert(cv.take(i + 1).drop_last() =~= cv.take(i as int));
        i = i + 1;
        assert(s@ =~= old(s)@ + obj_lines(prefix@, cv.take(i as int)));
    }
    assert(cv.take(coords.len() as int) =~= cv);
}

fn push_face(s: &mut String, a: u32, b: u32, c: u32, with_normals: bool)
    requires
        a < u32::MAX,
        b < u32::MAX,
        c < u32::MAX,
    ensures
        final(s)@ == old(s)@ + obj_face(a, b, c, with_normals),
{
    let a1 = a as u64 + 1;
    let b1 = b as u64 + 1;
    let c1 = c as u64 + 1;
    s.append("f ");
    push_decimal(s, a1);
    if with_normals {
        s.append("//");
        push_decimal(s, a1);
    }
    s.append(" ");
    push_decimal(s, b1);
    if with_normals {
        s.append("//");
        push_decimal(s, b1);
    }
    s.append(" ");
    push_decimal(s, c1);
    if with_normals {
        s.append("//");
        push_decimal(s, c1);
    }
    s.append("\n");
    assert(s@ =~= old(s)@ + obj_face(a, b, c, with_normals));
}

/// Encodes a mesh as Wavefront OBJ text. `positions` and `normals` hold one
/// formatted `"x y z"` triple per vertex; normals are written when present.
///
/// Fails with `EmptyMesh` when there are no vertices or no indices.
pub fn build_obj(positions: &Vec<String>, normals: &Vec<String>, indices: &Vec<u32>) -> (r: Result<String, ObjExportError>)
    requires
        forall|k: int| 0 <= k < indices.len() ==> indices@[k] < u32::MAX,
    ensures
        positions.len() == 0 || indices.len() == 0 ==> r matches Err(ObjExportError::EmptyMesh),
        positions.len() > 0 && indices.len() > 0 ==> (r matches Ok(text) && text@ == obj_text(
            positions@.map_values(|c: String| c@),
            normals@.map_values(|c: String| c@),
            indices@,
        )),
{
    if positions.len() == 0 || indices.len() == 0 {
        return Err(ObjExportError::EmptyMesh);
    }
    let ghost pv = positions@.map_values(|c: String| c@);
    let ghost nv = normals@.map_values(|c: String| c@);
    let mut s = String::from_str("# ModernFractalViewer mesh export\n");
    s.append("# Vertices: ");
    push_decimal(&mut s, positions.len() as u64);
    s.append("\n");
    s.append("# Triangles: ");
    push_decimal(&mut s, (indices.len() / 3) as u64);
    s.append("\n");
    s.append("\n");
    push_lines(&mut s, "v ", positions);
    s.append("\n");
    let with_normals = normals.len() > 0;
    if with_normals {
        push_lines(&mut s, "vn ", normals);
        s.append("\n");
    }
    let ghost head = s@;
    assert(head =~= "# ModernFractalViewer mesh export\n"@ + "# Vertices: "@ + decimal(pv.len()) + "\n"@
        + "# Triangles: "@ + decimal(indices@.len() / 3) + "\n"@ + "\n"@
        + obj_lines("v "@, pv) + "\n"@
        + (if with_normals { obj_lines("vn "@, nv) + "\n"@ } else { Seq::empty() }));
    let face_count = indices.len() / 3;
    let mut t: usize = 0;
    while t < face_count
        invariant
            t <= face_count == indices.len() / 3,
            forall|k: int| 0 <= k < indices.len() ==> indices@[k] < u32::MAX,
            s@ == head + obj_faces(indices@, with_normals, t as nat),
        decreases face_count - t,
    {
        push_face(&mut s, indices[3 * t], indices[3 * t + 1], indices[3 * t + 2], with_normals);
        t = t + 1;
        assert(s@ =~= head + obj_faces(indices@, with_normals, t as nat));
    }
    assert(s@ =~= obj_text(pv, nv, indices@));
    Ok(s)
}

} // verus!
