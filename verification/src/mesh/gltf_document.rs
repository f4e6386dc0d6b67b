//! The glTF 2.0 document of an exported mesh: one buffer, its buffer views
//! (positions, normals, colors when present, indices), the accessors that
//! read them, the primitive's attributes and the optional PBR material.
//! Float values (bounding box, material factors) are carried as the bit
//! patterns of their `f32` values.
use vstd::prelude::*;
use crate::mesh::glb::{encode_glb, encode_glb_bin, glb_bin, glb_bytes, glb_layout, GlbError};

verus! {

/// What a buffer view holds: vertex attributes or indices.
#[derive(Debug, Clone, Copy, PartialEq, Eq, Structural)]
pub enum BufferTarget {
    ArrayBuffer,
    ElementArrayBuffer,
}

/// Component type of accessor elements.
#[derive(Debug, Clone, Copy, PartialEq, Eq, Structural)]
pub enum ComponentType {
    F32,
    U32,
}

/// Shape of the elements an accessor reads.
#[derive(Debug, Clone, Copy, PartialEq, Eq, Structural)]
pub enum AccessorType {
    Scalar,
    Vec3,
    Vec4,
}

/// A window onto the buffer.
#[derive(Debug, Clone, Copy, PartialEq, Eq, Structural)]
pub struct GltfBufferView {
    pub byte_offset: u64,
    pub byte_length: u64,
    pub byte_stride: Option<u32>,
    pub target: BufferTarget,
}

/// Typed elements read from a buffer view; `min` and `max` are the
/// componentwise bounds (bit patterns) where the document gives them.
#[derive(Debug, Clone, Copy)]
pub struct GltfAccessor {
    pub buffer_view: u32,
    pub count: u64,
    pub component_type: ComponentType,
    pub accessor_type: AccessorType,
    pub min: Option<[u32; 3]>,
    pub max: Option<[u32; 3]>,
}

/// PBR metallic-roughness material (factors as bit patterns), alpha mode
/// opaque.
#[derive(Debug, Clone, Copy)]
pub struct GltfMaterial {
    pub base_color_factor: [u32; 4],
    pub metallic_factor: u32,
    pub roughness_factor: u32,
    pub emissive_factor: [u32; 3],
    pub double_sided: bool,
}

/// The document of a single-mesh scene: one buffer of `buffer_byte_length`
/// bytes, its views and accessors, the accessors the triangle primitive uses
/// for `POSITION`, `NORMAL`, `COLOR_0` (when present) and its indices, and
/// the material the primitive refers to (material 0, when present).
#[derive(Debug, Clone)]
pub struct GltfDocument {
    pub buffer_byte_length: u64,
    pub buffer_views: Vec<GltfBufferView>,
    pub accessors: Vec<GltfAccessor>,
    pub position_accessor: u32,
    pub normal_accessor: u32,
    pub color_accessor: Option<u32>,
    pub index_accessor: u32,
    pub material: Option<GltfMaterial>,
}

/// The document as plain values.
pub struct GltfDocumentView {
    pub buffer_byte_length: u64,
    pub buffer_views: Seq<GltfBufferView>,
    pub accessors: Seq<GltfAccessor>,
    pub position_accessor: u32,
    pub normal_accessor: u32,
    pub color_accessor: Option<u32>,
    pub index_accessor: u32,
    pub material: Option<GltfMaterial>,
}

impl View for GltfDocument {
    type V = GltfDocumentView;

    open spec fn view(&self) -> GltfDocumentView {
        GltfDocumentView {
            buffer_byte_length: self.buffer_byte_length,
            buffer_views: self.buffer_views@,
            accessors: self.accessors@,
            position_accessor: self.position_accessor,
            normal_accessor: self.normal_accessor,
            color_accessor: self.color_accessor,
            index_accessor: self.index_accessor,
            material: self.material,
        }
    }
}

/// The buffer views of a mesh of `v` vertices and `i` indices: positions
/// and normals (12-byte stride), colors (16-byte stride) when present, then
/// the indices, laid out back to back from offset 0.
pub open spec fn gltf_views(v: nat, i: nat, has_colors: bool) -> Seq<GltfBufferView> {
    let positions = GltfBufferView {
        byte_offset: 0,
        byte_length: (12 * v) as u64,
        byte_stride: Some(12u32),
        target: BufferTarget::ArrayBuffer,
    };
    let normals = GltfBufferView {
        byte_offset: (12 * v) as u64,
        byte_length: (12 * v) as u64,
        byte_stride: Some(12u32),
        target: BufferTarget::ArrayBuffer,
    };
    let colors = GltfBufferView {
        byte_offset: (24 * v) as u64,
        byte_length: (16 * v) as u64,
        byte_stride: Some(16u32),
        target: BufferTarget::ArrayBuffer,
    };
    let indices = GltfBufferView {
        byte_offset: (if has_colors { 40 * v } else { 24 * v }) as u64,
        byte_length: (4 * i) as u64,
        byte_stride: None,
        target: BufferTarget::ElementArrayBuffer,
    };
    if has_colors { seq![positions, normals, colors, indices] } else { seq![positions, normals, indices] }
}

/// The accessors of the mesh: positions (with the bounding box) and normals
/// as float `VEC3`, colors as float `VEC4` when present, indices as `u32`
/// scalars, each reading the buffer view of the same position.
pub open spec fn gltf_accessors(v: nat, i: nat, has_colors: bool, pos_min: [u32; 3], pos_max: [u32; 3]) -> Seq<GltfAccessor> {
    let positions = GltfAccessor {
        buffer_view: 0,
        count: v as u64,
        component_type: ComponentType::F32,
        accessor_type: AccessorType::Vec3,
        min: Some(pos_min),
        max: Some(pos_max),
    };
    let normals = GltfAccessor {
        buffer_view: 1,
        count: v as u64,
        component_type: ComponentType::F32,
        accessor_type: AccessorType::Vec3,
        min: None,
        max: None,
    };
    let colors = GltfAccessor {
        buffer_view: 2,
        count: v as u64,
        component_type: ComponentType::F32,
        accessor_type: AccessorType::Vec4,
        min: None,
        max: None,
    };
    let indices = GltfAccessor {
        buffer_view: if has_colors { 3u32 } else { 2u32 },
        count: i as u64,
        component_type: ComponentType::U32,
        accessor_type: AccessorType::Scalar,
        min: None,
        max: None,
    };
    if has_colors { seq![positions, normals, colors, indices] } else { seq![positions, normals, indices] }
}

/// The document of a mesh of `v` vertices and `i` indices: one buffer
/// holding positions, normals, colors when `has_colors`, then indices; the
/// views and accessors above; `POSITION` and `NORMAL` read accessors 0 and
/// 1, `COLOR_0` accessor 2 exactly when there are colors, and the indices
/// the accessor after them; the material as given.
pub open spec fn gltf_document_of(
    v: nat,
    i: nat,
    has_colors: bool,
    pos_min: [u32; 3],
    pos_max: [u32; 3],
    material: Option<GltfMaterial>,
) -> GltfDocumentView {
    GltfDocumentView {
        buffer_byte_length: (24 * v + (if has_colors { 16 * v } else { 0 }) + 4 * i) as u64,
        buffer_views: gltf_views(v, i, has_colors),
        accessors: gltf_accessors(v, i, has_colors, pos_min, pos_max),
        position_accessor: 0,
        normal_accessor: 1,
        color_accessor: if has_colors { Some(2u32) } else { None },
        index_accessor: if has_colors { 3u32 } else { 2u32 },
        material,
    }
}

/// The glTF document of a mesh of `vertex_count` vertices and `index_count`
/// indices, with colors when `has_colors`, the given position bounds and
/// the optional material.
pub fn gltf_document(
    vertex_count: usize,
    index_count: usize,
    has_colors: bool,
    pos_min: [u32; 3],
    pos_max: [u32; 3],
    material: Option<GltfMaterial>,
) -> (d: GltfDocument)
    requires
        40 * vertex_count + 4 * index_count <= usize::MAX,
    ensures
        d.buffer_byte_length == 12 * vertex_count + 12 * vertex_count + (if has_colors { 16 * vertex_count } else { 0 })
            + 4 * index_count,
        d.buffer_views@ == gltf_views(vertex_count as nat, index_count as nat, has_colors),
        d.accessors@ == gltf_accessors(vertex_count as nat, index_count as nat, has_colors, pos_min, pos_max),
        d.position_accessor == 0,
        d.normal_accessor == 1,
        d.color_accessor == (if has_colors { Some(2u32) } else { None }),
        d.index_accessor == (if has_colors { 3u32 } else { 2u32 }),
        d.material == material,
        d@ == gltf_document_of(vertex_count as nat, index_count as nat, has_colors, pos_min, pos_max, material),
{
    let l = glb_layout(vertex_count, index_count, has_colors);
    let mut views: Vec<GltfBufferView> = Vec::new();
    views.push(GltfBufferView {
        byte_offset: l.positions_offset as u64,
        byte_length: l.positions_bytes as u64,
        byte_stride: Some(12),
        target: BufferTarget::ArrayBuffer,
    });
    views.push(GltfBufferView {
        byte_offset: l.normals_offset as u64,
        byte_length: l.normals_bytes as u64,
        byte_stride: Some(12),
        target: BufferTarget::ArrayBuffer,
    });
    if has_colors {
        views.push(GltfBufferView {
            byte_offset: l.colors_offset as u64,
            byte_length: l.colors_bytes as u64,
            byte_stride: Some(16),
            target: BufferTarget::ArrayBuffer,
        });
    }
    let index_view: u32 = if has_colors { 3 } else { 2 };
    views.push(GltfBufferView {
        byte_offset: l.indices_offset as u64,
        byte_length: l.indices_bytes as u64,
        byte_stride: None,
        target: BufferTarget::ElementArrayBuffer,
    });
    let mut accessors: Vec<GltfAccessor> = Vec::new();
    accessors.push(GltfAccessor {
        buffer_view: 0,
        count: vertex_count as u64,
        component_type: ComponentType::F32,
        accessor_type: AccessorType::Vec3,
        min: Some(pos_min),
        max: Some(pos_max),
    });
    accessors.push(GltfAccessor {
        buffer_view: 1,
        count: vertex_count as u64,
        component_type: ComponentType::F32,
        accessor_type: AccessorType::Vec3,
        min: None,
        max: None,
    });
    let color_accessor = if has_colors {
        accessors.push(GltfAccessor {
            buffer_view: 2,
            count: vertex_count as u64,
            component_type: ComponentType::F32,
            accessor_type: AccessorType::Vec4,
            min: None,
            max: None,
        });
        Some(2u32)
    } else {
        None
    };
    accessors.push(GltfAccessor {
        buffer_view: index_view,
        count: index_count as u64,
        component_type: ComponentType::U32,
        accessor_type: AccessorType::Scalar,
        min: None,
        max: None,
    });
    assert(views@ =~= gltf_views(vertex_count as nat, index_count as nat, has_colors));
    assert(accessors@ =~= gltf_accessors(vertex_count as nat, index_count as nat, has_colors, pos_min, pos_max));
    GltfDocument {
        buffer_byte_length: l.total_bin as u64,
        buffer_views: views,
        accessors,
        position_accessor: 0,
        normal_accessor: 1,
        color_accessor,
        index_accessor: index_view,
        material,
    }
}

/// The glTF document and the binary buffer of a mesh, made to match: the
/// document describes exactly the buffer's sections (its buffer length is
/// the buffer's length, and it has a `COLOR_0` attribute exactly when the
/// mesh has colors). Normals go with the positions one for one, and so do
/// colors when there are any. Serialising the document and framing it with
/// the buffer ([`frame_glb`]) gives the GLB file.
pub fn mesh_document_and_buffer(
    positions: &Vec<[u32; 3]>,
    normals: &Vec<[u32; 3]>,
    colors: &Vec<[u32; 4]>,
    indices: &Vec<u32>,
    pos_min: [u32; 3],
    pos_max: [u32; 3],
    material: Option<GltfMaterial>,
) -> (r: (GltfDocument, Vec<u8>))
    requires
        normals.len() == positions.len(),
        colors.len() == 0 || colors.len() == positions.len(),
        40 * positions.len() + 4 * indices.len() <= usize::MAX,
    ensures
        r.0@ == gltf_document_of(positions.len() as nat, indices.len() as nat, colors.len() > 0, pos_min, pos_max, material),
        r.1@ == glb_bin(positions@, normals@, colors@, indices@),
        r.0.buffer_byte_length == r.1.len(),
        r.0.color_accessor is Some <==> colors.len() > 0,
        forall|k: int| 0 <= k < r.0.accessors.len() - 1 ==> #[trigger] r.0.accessors@[k].count == positions.len(),
        r.0.accessors@[r.0.index_accessor as int].count == indices.len(),
{
    let doc = gltf_document(positions.len(), indices.len(), colors.len() > 0, pos_min, pos_max, material);
    let bin = encode_glb_bin(positions, normals, colors, indices);
    (doc, bin)
}

/// Frames a serialised glTF document `json` and the binary buffer `bin`
/// into a GLB file. Fails exactly when the file would outgrow the 32-bit
/// lengths of the format.
pub fn frame_glb(json: &Vec<u8>, bin: &Vec<u8>) -> (r: Result<Vec<u8>, GlbError>)
    ensures
        r is Ok <==> json.len() + bin.len() + 34 <= u32::MAX,
        r matches Ok(g) ==> g@ == glb_bytes(json@, bin@),
        r is Err ==> r matches Err(GlbError::TooLarge),
{
    let limit: usize = 0xFFFF_FFFF;
    if json.len() <= limit && bin.len() <= limit - json.len() && 34 <= limit - json.len() - bin.len() {
        Ok(encode_glb(json, bin))
    } else {
        Err(GlbError::TooLarge)
    }
}

} // verus!
