use fractal_viewer::control_ranges::{ApollonianRanges, IntRange, MengerRanges};
use fractal_viewer::fractals::{default_bounds, FractalType, MeshMethod, TimingMethod};
use fractal_viewer::palette_presets::palette_presets;
use fractal_viewer::palette_stops::{PaletteEdit, PaletteStops, CUSTOM_PRESET};

#[test]
fn test_timing_method_display() {
    assert_eq!(TimingMethod::GpuTimestamp.to_string(), "GPU Timestamp");
    assert_eq!(TimingMethod::CpuPollWait.to_string(), "CPU Poll+Wait");
}

#[test]
fn test_palette_presets_count() {
    assert_eq!(palette_presets().len(), 8);
}

#[test]
fn test_palette_presets_have_names() {
    for preset in palette_presets() {
        assert!(!preset.name.is_empty());
    }
}

#[test]
fn test_palette_presets_colors_in_range() {
    for preset in palette_presets() {
        for color in &preset.colors {
            for &channel in color {
                let value = channel as f32 / 100.0;
                assert!(
                    (0.0..=1.0).contains(&value),
                    "Preset '{}' has out-of-range color value: {}",
                    preset.name,
                    value
                );
            }
        }
    }
}

#[test]
fn test_palette_presets_min_colors() {
    for preset in palette_presets() {
        assert!(preset.colors.len() >= 2, "Preset '{}' has fewer than 2 colors", preset.name);
    }
}

#[test]
fn test_palette_presets_max_colors() {
    for preset in palette_presets() {
        assert!(preset.colors.len() <= 8, "Preset '{}' has more than 8 colors", preset.name);
    }
}

#[test]
fn palette_preset_names_and_first_colors() {
    let presets = palette_presets();
    let names: Vec<&str> = presets.iter().map(|p| p.name).collect();
    assert_eq!(names, vec!["Inferno", "Ocean", "Sunset", "Magma", "Viridis", "Classic", "Fire", "Ice"]);
    assert_eq!(presets[0].colors[0], [0, 0, 4]);
    assert_eq!(presets[5].colors, vec![[80, 30, 10], [10, 40, 80]]);
    assert_eq!(presets[6].colors.len(), 6);
}

#[test]
fn fractal_types_listed_in_menu_order() {
    let all = FractalType::all();
    assert_eq!(all.len(), 6);
    let names: Vec<&str> = all.iter().map(|t| t.name()).collect();
    assert_eq!(names, vec!["Mandelbulb", "Menger Sponge", "Julia 3D", "Mandelbox", "Sierpinski", "Apollonian"]);
    for (i, t) in all.iter().enumerate() {
        assert_eq!(t.code() as usize, i);
    }
    assert_eq!(FractalType::default(), FractalType::Mandelbulb);
}

#[test]
fn mesh_method_labels_and_default() {
    assert_eq!(MeshMethod::MarchingCubes.to_string(), "Marching Cubes");
    assert_eq!(MeshMethod::DualContouring.to_string(), "Dual Contouring");
    assert_eq!(MeshMethod::SurfaceNets.to_string(), "Surface Nets");
    assert_eq!(MeshMethod::default(), MeshMethod::DualContouring);
}

#[test]
fn int_range_defaults() {
    let r = IntRange::new(-3, 7);
    assert_eq!((r.min, r.max), (-3, 7));
    let d = IntRange::default();
    assert_eq!((d.min, d.max), (0, 100));
    assert_eq!(MengerRanges::default().iterations, IntRange::new(1, 8));
    assert_eq!(ApollonianRanges::default().iterations, IntRange::new(1, 12));
}

#[test]
fn default_export_bounds() {
    assert_eq!(default_bounds(FractalType::Mandelbulb), ([-150; 3], [150; 3]));
    assert_eq!(default_bounds(FractalType::Mandelbox), ([-300; 3], [300; 3]));
    assert_eq!(default_bounds(FractalType::Julia3D), ([-200; 3], [200; 3]));
}

#[test]
fn palette_stops_edit_steps() {
    let c = |v: u32| [v, v, v];
    let mut stops = PaletteStops { colors: vec![c(1), c(2), c(3), c(4), [0; 3], [0; 3], [0; 3], [0; 3]], count: 4, preset: 2, base_color: c(1), secondary_color: c(4) };
    stops.remove_stop(1);
    assert_eq!(stops.count, 3);
    assert_eq!(stops.colors, vec![c(1), c(3), c(4), [0; 3], [0; 3], [0; 3], [0; 3], [0; 3]]);
    assert_eq!(stops.preset, CUSTOM_PRESET);
    stops.add_stop();
    assert_eq!(stops.count, 4);
    assert_eq!(stops.colors[3], c(4));
    stops.set_stop(0, c(9));
    assert_eq!(stops.colors[0], c(9));
    stops.apply_preset(5, &vec![c(7), c(8)]);
    assert_eq!(stops.count, 2);
    assert_eq!(stops.colors, vec![c(7), c(8), [0; 3], [0; 3], [0; 3], [0; 3], [0; 3], [0; 3]]);
    assert_eq!((stops.preset, stops.base_color, stops.secondary_color), (5, c(7), c(8)));
}

#[test]
fn palette_edits_are_offered_within_two_to_eight_stops() {
    let c = |v: u32| [v, v, v];
    let mut stops = PaletteStops { colors: vec![c(1), c(2), [0; 3], [0; 3], [0; 3], [0; 3], [0; 3], [0; 3]], count: 2, preset: 5, base_color: c(1), secondary_color: c(2) };
    assert!(!stops.apply_edit(PaletteEdit::Remove(0)));
    assert_eq!(stops.count, 2);
    assert!(stops.apply_edit(PaletteEdit::Add));
    assert_eq!(stops.colors[2], c(2));
    assert!(!stops.apply_edit(PaletteEdit::Recolor(5, c(9))));
    assert!(stops.apply_edit(PaletteEdit::Recolor(2, c(9))));
    assert!(stops.apply_edit(PaletteEdit::Remove(0)));
    assert_eq!(stops.colors, vec![c(2), c(9), [0; 3], [0; 3], [0; 3], [0; 3], [0; 3], [0; 3]]);
    assert!(!stops.apply_edit(PaletteEdit::Preset(1, vec![c(4)])));
    assert!(stops.apply_edit(PaletteEdit::Preset(1, vec![c(4); 8])));
    assert!(!stops.apply_edit(PaletteEdit::Add));
    assert_eq!((stops.count, stops.preset), (8, 1));
}
