use base64::Engine;
use fractal_viewer::export_gate::ExportGate;
use fractal_viewer::export_names::{choose_resolution, clamp_custom_resolution, sanitise_export_filename, set_extension, trim};
use fractal_viewer::thumbnail::{decode_thumbnail, encode_thumbnail_png, padded_bytes_per_row, unpack_pixels};
use fractal_viewer::volume_slabs::{plan_slabs, plan_volume_dispatch, workgroup_counts, SlabInfo};

#[test]
fn padded_rows() {
    assert_eq!(padded_bytes_per_row(0), 0);
    assert_eq!(padded_bytes_per_row(1), 256);
    assert_eq!(padded_bytes_per_row(64), 256);
    assert_eq!(padded_bytes_per_row(65), 512);
    assert_eq!(padded_bytes_per_row(256), 1024);
}

#[test]
fn unpack_strips_padding_and_swaps_channels() {
    // 2x2 image, rows padded to 12 bytes.
    let mut data = vec![0u8; 24];
    for row in 0..2 {
        for px in 0..2 {
            let base = row * 12 + px * 4;
            data[base] = 10 + (row * 2 + px) as u8; // B
            data[base + 1] = 20; // G
            data[base + 2] = 30 + (row * 2 + px) as u8; // R
            data[base + 3] = 255; // A
        }
        data[row * 12 + 8] = 99; // padding
    }
    let rgba = unpack_pixels(&data, 2, 2, 12, true);
    assert_eq!(rgba, vec![30, 20, 10, 255, 31, 20, 11, 255, 32, 20, 12, 255, 33, 20, 13, 255]);
    let raw = unpack_pixels(&data, 2, 2, 12, false);
    assert_eq!(&raw[0..4], &[10, 20, 30, 255]);
    assert_eq!(raw.len(), 16);
}

#[test]
fn thumbnail_is_base64_png() {
    let pixels = vec![255u8, 0, 0, 255, 0, 255, 0, 255];
    let text = encode_thumbnail_png(&pixels, 2, 1);
    let png = base64::engine::general_purpose::STANDARD.decode(text.as_bytes()).unwrap();
    assert_eq!(&png[0..8], &[0x89, b'P', b'N', b'G', 0x0D, 0x0A, 0x1A, 0x0A]);
    let img = image::load_from_memory_with_format(&png, image::ImageFormat::Png).unwrap().into_rgba8();
    assert_eq!((img.width(), img.height()), (2, 1));
    assert_eq!(img.into_raw(), pixels);
    // A short buffer gives a blank image of the requested size.
    let blank = encode_thumbnail_png(&vec![1, 2, 3], 1, 1);
    let png = base64::engine::general_purpose::STANDARD.decode(blank.as_bytes()).unwrap();
    let img = image::load_from_memory_with_format(&png, image::ImageFormat::Png).unwrap().into_rgba8();
    assert_eq!(img.into_raw(), vec![0, 0, 0, 0]);
}

#[test]
fn export_filenames_are_cleaned() {
    assert_eq!(sanitise_export_filename("  my/mesh\\name  ", "glb"), "mymeshname.glb");
    assert_eq!(sanitise_export_filename("model.GLB", "glb"), "model.GLB");
    assert_eq!(sanitise_export_filename("model.obj", "ply"), "model.ply");
    assert_eq!(sanitise_export_filename("a.b.c", "obj"), "a.b.obj");
    assert_eq!(sanitise_export_filename(" / \\ ", "obj"), "");
    assert_eq!(sanitise_export_filename("", "obj"), "");
    assert_eq!(sanitise_export_filename("\u{3000}x\t", "ply"), "x.ply");
    assert_eq!(set_extension("fractal", "glb"), "fractal.glb");
    assert_eq!(set_extension("fractal.Ply", "ply"), "fractal.Ply");
    assert_eq!(trim(&vec![' ', 'a', ' ', 'b', '\n']), vec!['a', ' ', 'b']);
}

#[test]
fn resolution_menu_choices() {
    let presets = vec![64, 128, 256, 512];
    assert_eq!(choose_resolution(128, 256, &presets), 256);
    assert_eq!(choose_resolution(128, 0, &presets), 129);
    assert_eq!(choose_resolution(63, 0, &vec![63, 64]), 65);
    assert_eq!(choose_resolution(100, 0, &presets), 100);
    assert_eq!(clamp_custom_resolution(5000, 16, 2048), 2048);
    assert_eq!(clamp_custom_resolution(8, 16, 2048), 16);
    assert_eq!(clamp_custom_resolution(300, 16, 2048), 300);
    assert_eq!(clamp_custom_resolution(-1, 16, 2048), 2048);
}

#[test]
fn volume_dispatch_plans() {
    // 64 cells -> 65^3 samples of 8 bytes = 2 197 000 bytes.
    assert!(matches!(plan_volume_dispatch(64, 128 << 20), Ok(274_625)));
    match plan_volume_dispatch(64, 65 * 65 * 8 * 10) {
        Err(SlabInfo { total_z, max_z_per_slab }) => assert_eq!((total_z, max_z_per_slab), (65, 10)),
        Ok(_) => panic!("expected slabs"),
    }
    match plan_volume_dispatch(64, 8) {
        Err(info) => assert_eq!(info, SlabInfo { total_z: 65, max_z_per_slab: 1 }),
        Ok(_) => panic!("expected slabs"),
    }
    assert_eq!(plan_slabs(65, 10).len(), 7);
    assert_eq!(plan_slabs(65, 10)[6], (60, 5));
    assert_eq!(plan_slabs(20, 10), vec![(0, 10), (10, 10)]);
    assert!(plan_slabs(0, 3).is_empty());
    assert_eq!(workgroup_counts(64, 65), (17, 17, 17));
    assert_eq!(workgroup_counts(3, 1), (1, 1, 1));
}

#[test]
fn thumbnail_round_trip() {
    let pixels = vec![1u8, 2, 3, 4, 5, 6, 7, 8, 9, 10, 11, 12];
    let text = encode_thumbnail_png(&pixels, 3, 1);
    assert_eq!(decode_thumbnail(&text), Some((3, 1, pixels)));
    assert_eq!(decode_thumbnail(""), None);
    assert_eq!(decode_thumbnail("not base64!"), None);
    assert_eq!(decode_thumbnail("AAAA"), None);
}

#[test]
fn export_requests_are_gated() {
    let mut gate = ExportGate { pending: false, in_progress: true };
    assert!(!gate.can_export());
    gate.press();
    assert!(!gate.pending);
    gate.in_progress = false;
    assert!(gate.can_export());
    gate.press();
    assert!(gate.pending);
    assert!(!gate.take_request(true));
    assert!(!gate.pending);
    gate.press();
    assert!(gate.take_request(false));
    assert!(!gate.take_request(false));
}

#[test]
fn sanitised_names_are_settled() {
    for raw in ["  my/mesh.GLB  ", "a\\b.obj", " . ", "plain", "\t", "x.y.z"] {
        let once = sanitise_export_filename(raw, "glb");
        assert_eq!(once, once.trim());
        assert_eq!(sanitise_export_filename(&once, "glb"), once);
    }
    assert_eq!(sanitise_export_filename(" / \\ ", "glb"), "");
}
