use fractal_viewer::bench_run::{in_app_scenarios, BenchRun, BenchStep, IN_APP_FRAMES, IN_APP_WARMUP};
use fractal_viewer::fractals::FractalType;
use fractal_viewer::session::quick_save_name_of;

#[test]
fn in_app_matrix_for_current_fractal() {
    let s = in_app_scenarios(FractalType::Mandelbox);
    assert_eq!(s.len(), 8);
    assert_eq!(s[0].name, "Mandelbox @ 512x512 / orbit-trap / Blinn-Phong");
    assert_eq!(s[7].name, "Mandelbox @ 512x512 / combined / PBR");
    assert!(s.iter().all(|x| x.width == 512 && x.height == 512 && x.fractal == FractalType::Mandelbox));
}

#[test]
fn run_counts_warmup_and_measured_frames() {
    let mut run = BenchRun::new(2, 3, 2);
    let mut steps = Vec::new();
    loop {
        let s = run.step();
        steps.push(s);
        if s == BenchStep::Finished {
            break;
        }
    }
    assert_eq!(
        steps,
        vec![
            BenchStep::WarmupFrame,
            BenchStep::WarmupFrame,
            BenchStep::Recorded,
            BenchStep::Recorded,
            BenchStep::ScenarioDone { finished: 0, next: Some(1) },
            BenchStep::WarmupFrame,
            BenchStep::WarmupFrame,
            BenchStep::Recorded,
            BenchStep::Recorded,
            BenchStep::ScenarioDone { finished: 1, next: None },
            BenchStep::Finished,
        ]
    );
    assert_eq!(run.step(), BenchStep::Finished);
}

#[test]
fn in_app_run_length() {
    let mut run = BenchRun::new(8, IN_APP_FRAMES, IN_APP_WARMUP);
    let mut frames = 0;
    while run.step() != BenchStep::Finished {
        frames += 1;
    }
    assert_eq!(frames, 8 * (IN_APP_FRAMES + IN_APP_WARMUP));
}

#[test]
fn quick_save_names() {
    assert_eq!(quick_save_name_of(FractalType::Julia3D, "2024-01-31T12:00:00Z"), "Julia 3D 2024-01-31");
}
