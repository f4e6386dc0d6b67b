use fractal_viewer::mesh::glb::{encode_glb, encode_glb_bin, glb_layout};
use fractal_viewer::mesh::gltf_document::{
    frame_glb, gltf_document, mesh_document_and_buffer, AccessorType, BufferTarget, ComponentType, GltfMaterial,
};
use fractal_viewer::mesh::obj::{build_obj, ObjExportError};
use fractal_viewer::mesh::ply::{build_ply, PlyExportError};

fn bits(v: [f32; 3]) -> [u32; 3] {
    [v[0].to_bits(), v[1].to_bits(), v[2].to_bits()]
}

#[test]
fn ply_bytes_of_one_triangle() {
    let positions = vec![bits([0.0, 0.0, 0.0]), bits([1.0, 0.0, 0.0]), bits([0.0, 1.0, 0.0])];
    let normals = vec![bits([0.0, 0.0, 1.0]); 3];
    let colors = vec![[255u8, 0, 0, 255]; 3];
    let bytes = match build_ply(&positions, &normals, &colors, &vec![0, 1, 2]) {
        Ok(b) => b,
        Err(_) => panic!("export failed"),
    };
    let header = "ply\nformat binary_little_endian 1.0\ncomment ModernFractalViewer mesh export\n\
element vertex 3\nproperty float x\nproperty float y\nproperty float z\n\
property float nx\nproperty float ny\nproperty float nz\n\
property uchar red\nproperty uchar green\nproperty uchar blue\nproperty uchar alpha\n\
element face 1\nproperty list uchar int vertex_indices\nend_header\n";
    assert!(bytes.starts_with(header.as_bytes()));
    assert_eq!(bytes.len(), header.len() + 3 * (12 + 12 + 4) + 13);
    let first = header.len();
    assert_eq!(&bytes[first + 12..first + 16], &0.0f32.to_le_bytes());
    assert_eq!(&bytes[first + 28..first + 32], &1.0f32.to_le_bytes());
    assert_eq!(&bytes[bytes.len() - 13..], &[3, 0, 0, 0, 0, 1, 0, 0, 0, 2, 0, 0, 0]);
}

#[test]
fn ply_without_normals_or_colors() {
    let positions = vec![bits([0.0, 0.0, 0.0]); 3];
    let bytes = match build_ply(&positions, &Vec::new(), &Vec::new(), &vec![0, 1, 2]) {
        Ok(b) => b,
        Err(_) => panic!("export failed"),
    };
    let text = String::from_utf8_lossy(&bytes);
    assert!(!text.contains("property float nx"));
    assert!(!text.contains("property uchar red"));
}

#[test]
fn ply_empty_mesh_is_refused() {
    assert!(matches!(build_ply(&Vec::new(), &Vec::new(), &Vec::new(), &vec![0, 1, 2]), Err(PlyExportError::EmptyMesh)));
    assert!(matches!(build_ply(&vec![[0; 3]], &Vec::new(), &Vec::new(), &Vec::new()), Err(PlyExportError::EmptyMesh)));
}

#[test]
fn obj_text_of_one_triangle() {
    let positions = vec!["0 0 0".to_string(), "1 0 0".to_string(), "0 1 0".to_string()];
    let normals = vec!["0 0 1".to_string(); 3];
    let text = match build_obj(&positions, &normals, &vec![0, 1, 2]) {
        Ok(t) => t,
        Err(_) => panic!("export failed"),
    };
    assert_eq!(
        text,
        "# ModernFractalViewer mesh export\n# Vertices: 3\n# Triangles: 1\n\n\
v 0 0 0\nv 1 0 0\nv 0 1 0\n\nvn 0 0 1\nvn 0 0 1\nvn 0 0 1\n\nf 1//1 2//2 3//3\n"
    );
    let plain = match build_obj(&positions, &Vec::new(), &vec![2, 1, 0]) {
        Ok(t) => t,
        Err(_) => panic!("export failed"),
    };
    assert!(plain.ends_with("v 0 1 0\n\nf 3 2 1\n"));
}

#[test]
fn obj_empty_mesh_is_refused() {
    assert!(matches!(build_obj(&Vec::new(), &Vec::new(), &vec![0, 1, 2]), Err(ObjExportError::EmptyMesh)));
}

#[test]
fn glb_layout_offsets() {
    let l = glb_layout(3, 3, true);
    assert_eq!((l.positions_bytes, l.normals_bytes, l.colors_bytes, l.indices_bytes), (36, 36, 48, 12));
    assert_eq!((l.normals_offset, l.colors_offset, l.indices_offset, l.total_bin), (36, 72, 120, 132));
    let n = glb_layout(3, 3, false);
    assert_eq!((n.colors_bytes, n.indices_offset, n.total_bin), (0, 72, 84));
}

#[test]
fn glb_container_framing() {
    let positions = vec![bits([0.0, 0.0, 0.0]), bits([1.0, 0.0, 0.0]), bits([0.0, 1.0, 0.0])];
    let normals = vec![bits([0.0, 0.0, 1.0]); 3];
    let bin = encode_glb_bin(&positions, &normals, &Vec::new(), &vec![0, 1, 2]);
    assert_eq!(bin.len(), 84);
    assert_eq!(&bin[12..16], &1.0f32.to_le_bytes());
    assert_eq!(&bin[72..84], &[0, 0, 0, 0, 1, 0, 0, 0, 2, 0, 0, 0]);
    let json = b"{\"asset\":{\"version\":\"2.0\"}}".to_vec();
    let glb = encode_glb(&json, &bin);
    assert_eq!(&glb[0..4], b"glTF");
    assert_eq!(u32::from_le_bytes([glb[4], glb[5], glb[6], glb[7]]), 2);
    assert_eq!(u32::from_le_bytes([glb[8], glb[9], glb[10], glb[11]]) as usize, glb.len());
    assert_eq!(glb.len() % 4, 0);
    let json_len = u32::from_le_bytes([glb[12], glb[13], glb[14], glb[15]]) as usize;
    assert_eq!(json_len, 28);
    assert_eq!(&glb[16..20], b"JSON");
    assert_eq!(glb[20 + json.len()], b' ');
    let bin_at = 20 + json_len;
    assert_eq!(u32::from_le_bytes([glb[bin_at], glb[bin_at + 1], glb[bin_at + 2], glb[bin_at + 3]]), 84);
    assert_eq!(&glb[bin_at + 4..bin_at + 8], b"BIN\0");
    assert_eq!(glb.len(), 12 + 8 + 28 + 8 + 84);
}

#[test]
fn gltf_document_lays_out_views_and_accessors() {
    let d = gltf_document(3, 6, true, [1, 2, 3], [4, 5, 6], None);
    assert_eq!(d.buffer_byte_length, 36 + 36 + 48 + 24);
    let views: Vec<(u64, u64, Option<u32>, BufferTarget)> = d.buffer_views.iter().map(|v| (v.byte_offset, v.byte_length, v.byte_stride, v.target)).collect();
    assert_eq!(views, vec![(0, 36, Some(12), BufferTarget::ArrayBuffer), (36, 36, Some(12), BufferTarget::ArrayBuffer), (72, 48, Some(16), BufferTarget::ArrayBuffer), (120, 24, None, BufferTarget::ElementArrayBuffer)]);
    assert_eq!(d.accessors.len(), 4);
    assert_eq!(d.accessors[0].min, Some([1, 2, 3]));
    assert_eq!(d.accessors[0].max, Some([4, 5, 6]));
    assert_eq!(d.accessors[2].accessor_type, AccessorType::Vec4);
    assert_eq!(d.accessors[3].component_type, ComponentType::U32);
    assert_eq!(d.accessors[3].count, 6);
    assert_eq!(d.accessors[1].component_type, ComponentType::F32);
    assert_eq!((d.color_accessor, d.index_accessor), (Some(2), 3));
    let plain = gltf_document(3, 6, false, [0; 3], [0; 3], None);
    assert_eq!(plain.buffer_views.len(), 3);
    assert_eq!(plain.buffer_views[2].byte_offset, 72);
    assert_eq!((plain.color_accessor, plain.index_accessor), (None, 2));
    assert_eq!(plain.accessors[2].buffer_view, 2);
}

#[test]
fn mesh_document_matches_buffer_and_frames() {
    let material = GltfMaterial { base_color_factor: [1; 4], metallic_factor: 2, roughness_factor: 3, emissive_factor: [4; 3], double_sided: true };
    let (doc, bin) = mesh_document_and_buffer(&vec![[0, 0, 0]; 3], &vec![[0, 0, 0]; 3], &vec![[0, 0, 0, 0]; 3], &vec![0, 1, 2], [0; 3], [1; 3], Some(material));
    assert_eq!(doc.buffer_byte_length as usize, bin.len());
    assert_eq!(bin.len(), 36 + 36 + 48 + 12);
    assert_eq!(doc.color_accessor, Some(2));
    assert!(doc.material.is_some());
    let (plain, _) = mesh_document_and_buffer(&vec![[0, 0, 0]; 3], &vec![[0, 0, 0]; 3], &vec![], &vec![0, 1, 2], [0; 3], [1; 3], None);
    assert_eq!(plain.color_accessor, None);
    assert!(plain.material.is_none());

    let json = b"{\"asset\":{}}".to_vec();
    let bytes = match frame_glb(&json, &bin) {
        Ok(b) => b,
        Err(_) => panic!("small mesh must fit"),
    };
    assert_eq!(bytes.len() % 4, 0);
    assert_eq!(u32::from_le_bytes([bytes[8], bytes[9], bytes[10], bytes[11]]) as usize, bytes.len());
    let j = u32::from_le_bytes([bytes[12], bytes[13], bytes[14], bytes[15]]) as usize;
    assert_eq!(j % 4, 0);
    assert_eq!(&bytes[20..20 + json.len()], &json[..]);
    assert!(bytes[20 + json.len()..20 + j].iter().all(|&b| b == b' '));
    let b = u32::from_le_bytes([bytes[20 + j], bytes[21 + j], bytes[22 + j], bytes[23 + j]]) as usize;
    assert_eq!(b, bin.len());
    assert_eq!(&bytes[28 + j..28 + j + bin.len()], &bin[..]);
}
