use fractal_viewer::fractals::FractalType;
use fractal_viewer::scenarios::{
    contains_substring, default_scenarios, filter_scenarios, make_scenario_name, parse_resolution,
    replace_all_str,
};

#[test]
fn test_default_scenarios_count() {
    let scenarios = default_scenarios();
    // 6 fractals x 4 resolutions x 4 color modes x 2 lighting = 192
    assert_eq!(scenarios.len(), 192);
}

#[test]
fn test_filter_by_fractal() {
    let scenarios = default_scenarios();
    let filtered = filter_scenarios(scenarios, Some("mandelbulb"), None, None, None);
    // 1 fractal x 4 res x 4 color x 2 lighting = 32
    assert_eq!(filtered.len(), 32);
}

#[test]
fn test_filter_by_default_resolution() {
    let scenarios = default_scenarios();
    let filtered = filter_scenarios(scenarios, None, Some((512, 512)), None, None);
    // 6 fractals x 1 res x 4 color x 2 lighting = 48
    assert_eq!(filtered.len(), 48);
    for s in &filtered {
        assert_eq!(s.width, 512);
        assert_eq!(s.height, 512);
    }
}

#[test]
fn test_filter_by_custom_resolution() {
    let scenarios = default_scenarios();
    let filtered = filter_scenarios(scenarios, None, Some((3840, 2160)), None, None);
    assert_eq!(filtered.len(), 48);
    for s in &filtered {
        assert_eq!(s.width, 3840);
        assert_eq!(s.height, 2160);
        assert!(s.name.contains("3840x2160"));
    }
}

#[test]
fn default_scenario_order_and_names() {
    let s = default_scenarios();
    assert_eq!(s[0].name, "Mandelbulb @ 256x256 / orbit-trap / Blinn-Phong");
    assert_eq!(s[1].name, "Mandelbulb @ 256x256 / orbit-trap / PBR");
    assert_eq!(s[7].name, "Mandelbulb @ 256x256 / combined / PBR");
    assert_eq!(s[8].name, "Mandelbulb @ 512x512 / orbit-trap / Blinn-Phong");
    assert_eq!(s[191].name, "Apollonian @ 1920x1080 / combined / PBR");
    assert_eq!(s[32].fractal, FractalType::Menger);
    assert_eq!((s[191].width, s[191].height, s[191].color_mode, s[191].lighting_model), (1920, 1080, 4, 1));
}

#[test]
fn filter_by_color_and_lighting() {
    let filtered = filter_scenarios(default_scenarios(), None, None, Some(3), Some(1));
    assert_eq!(filtered.len(), 24);
    for s in &filtered {
        assert_eq!((s.color_mode, s.lighting_model), (3, 1));
    }
    let none = filter_scenarios(default_scenarios(), Some("nothing"), None, None, None);
    assert!(none.is_empty());
}

#[test]
fn filter_fractal_is_case_insensitive_substring() {
    let menger = filter_scenarios(default_scenarios(), Some("SPONGE"), None, None, None);
    assert_eq!(menger.len(), 32);
    assert!(menger.iter().all(|s| s.fractal == FractalType::Menger));
    let mandel = filter_scenarios(default_scenarios(), Some("mandel"), None, None, None);
    assert_eq!(mandel.len(), 64);
}

#[test]
fn filter_resolution_renames_and_combines() {
    let f = filter_scenarios(default_scenarios(), Some("julia"), Some((800, 600)), Some(2), Some(0));
    assert_eq!(f.len(), 1);
    assert_eq!(f[0].name, "Julia 3D @ 800x600 / iteration / Blinn-Phong");
    let empty = filter_scenarios(Vec::new(), None, Some((1, 1)), None, None);
    assert!(empty.is_empty());
}

#[test]
fn substring_and_replace_helpers() {
    assert!(contains_substring("mandelbulb", "delb"));
    assert!(contains_substring("abc", ""));
    assert!(!contains_substring("ab", "abc"));
    assert_eq!(replace_all_str("aXbXc", "X", "--"), "a--b--c");
    assert_eq!(replace_all_str("aaaa", "aa", "b"), "bb");
    assert_eq!(replace_all_str("256x256 at 256x256", "256x256", "1x2"), "1x2 at 1x2");
    assert_eq!(make_scenario_name(FractalType::Sierpinski, 7, 9, 5, 3), "Sierpinski @ 7x9 / solid / PBR");
}

#[test]
fn resolution_arguments() {
    assert_eq!(parse_resolution("1920x1080"), Some((1920, 1080)));
    assert_eq!(parse_resolution("+512x+256"), Some((512, 256)));
    assert_eq!(parse_resolution("512"), None);
    assert_eq!(parse_resolution("1x2x3"), None);
    assert_eq!(parse_resolution("x512"), None);
    assert_eq!(parse_resolution("512x"), None);
    assert_eq!(parse_resolution("-1x5"), None);
    assert_eq!(parse_resolution("4294967295x1"), Some((4294967295, 1)));
    assert_eq!(parse_resolution("4294967296x1"), None);
    assert_eq!(parse_resolution("12ax3"), None);
}
