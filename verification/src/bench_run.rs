//! The in-app benchmark: a short matrix for the current fractal type, and
//! the per-frame progression through it (warm-up frames, measured frames,
//! moving on to the next scenario, finishing).
use vstd::prelude::*;
use crate::fractals::FractalType;
use crate::scenarios::{make_scenario_name, scenario_name, scenario_view, ScenarioSpec};

verus! {

/// Measured frames per scenario of the in-app benchmark.
pub const IN_APP_FRAMES: u32 = 30;

/// Warm-up frames before each scenario's measurement.
pub const IN_APP_WARMUP: u32 = 5;

/// Scenario `i` of the in-app matrix: the current fractal type at 512x512,
/// color modes 1..=4 outermost, lighting models 0..=1 innermost.
pub open spec fn in_app_scenario(t: FractalType, i: int) -> (Seq<char>, FractalType, u32, u32, u32, u32) {
    let cm = (1 + i / 2) as u32;
    let lm = (i % 2) as u32;
    (scenario_name(t, 512, 512, cm, lm), t, 512, 512, cm, lm)
}

/// The in-app benchmark matrix: 4 color modes x 2 lighting models of the
/// current fractal type at 512x512.
pub fn in_app_scenarios(t: FractalType) -> (v: Vec<ScenarioSpec>)
    ensures
        v.len() == 8,
        forall|i: int| 0 <= i < 8 ==> #[trigger] scenario_view(v@[i]) == in_app_scenario(t, i),
{
    let mut v: Vec<ScenarioSpec> = Vec::new();
    let mut cm: u32 = 1;
    while cm <= 4
        invariant
            1 <= cm <= 5,
            v.len() == 2 * (cm - 1),
            forall|i: int| 0 <= i < v.len() ==> #[trigger] scenario_view(v@[i]) == in_app_scenario(t, i),
        decreases 5 - cm,
    {
        let mut lm: u32 = 0;
        while lm < 2
            invariant
                1 <= cm <= 4,
                lm <= 2,
                v.len() == 2 * (cm - 1) + lm,
                forall|i: int| 0 <= i < v.len() ==> #[trigger] scenario_view(v@[i]) == in_app_scenario(t, i),
            decreases 2 - lm,
        {
            let name = make_scenario_name(t, 512, 512, cm, lm);
            let ghost k = v.len() as int;
            v.push(ScenarioSpec { name, fractal: t, width: 512, height: 512, color_mode: cm, lighting_model: lm });
            assert(scenario_view(v@[k]) == in_app_scenario(t, k));
            lm = lm + 1;
        }
        cm = cm + 1;
    }
    v
}

/// What a frame of a running benchmark does.
#[derive(Debug, Clone, Copy, PartialEq, Eq, Structural)]
pub enum BenchStep {
    /// Every scenario has been measured: restore the user's settings.
    Finished,
    /// A warm-up frame: nothing is recorded.
    WarmupFrame,
    /// The frame's time is recorded for the current scenario.
    Recorded,
    /// The frame's time is recorded and completes scenario `finished`;
    /// `next` is the scenario to apply, if any is left.
    ScenarioDone { finished: usize, next: Option<usize> },
}

/// Progress through the benchmark matrix.
#[derive(Debug, Clone, Copy, PartialEq, Eq, Structural)]
pub struct BenchRun {
    pub scenario_count: usize,
    pub current_scenario: usize,
    pub frames_done: u32,
    pub frames_per_scenario: u32,
    pub warmup_remaining: u32,
    pub warmup_per_scenario: u32,
}

impl BenchRun {
    /// A run over `scenario_count` scenarios, starting with the first one's
    /// warm-up.
    pub fn new(scenario_count: usize, frames_per_scenario: u32, warmup_per_scenario: u32) -> (r: BenchRun)
        ensures
            r == (BenchRun {
                scenario_count,
                current_scenario: 0,
                frames_done: 0,
                frames_per_scenario,
                warmup_remaining: warmup_per_scenario,
                warmup_per_scenario,
            }),
    {
        BenchRun {
            scenario_count,
            current_scenario: 0,
            frames_done: 0,
            frames_per_scenario,
            warmup_remaining: warmup_per_scenario,
            warmup_per_scenario,
        }
    }

    /// Bounds the counters keep.
    pub open spec fn wf(self) -> bool {
        &&& self.current_scenario <= self.scenario_count
        &&& self.frames_done < self.frames_per_scenario || self.frames_per_scenario == 0 && self.frames_done == 0
    }

    /// The run after one frame, and what the frame does.
    pub open spec fn next(self) -> (BenchRun, BenchStep) {
        if self.current_scenario >= self.scenario_count {
            (self, BenchStep::Finished)
        } else if self.warmup_remaining > 0 {
            (BenchRun { warmup_remaining: (self.warmup_remaining - 1) as u32, ..self }, BenchStep::WarmupFrame)
        } else if self.frames_done + 1 >= self.frames_per_scenario {
            let done = self.current_scenario + 1;
            (
                BenchRun {
                    current_scenario: done as usize,
                    frames_done: 0,
                    warmup_remaining: self.warmup_per_scenario,
                    ..self
                },
                BenchStep::ScenarioDone {
                    finished: self.current_scenario,
                    next: if done < self.scenario_count { Some(done as usize) } else { None },
                },
            )
        } else {
            (BenchRun { frames_done: (self.frames_done + 1) as u32, ..self }, BenchStep::Recorded)
        }
    }

    /// Advances the run by one frame (see `next`).
    pub fn step(&mut self) -> (s: BenchStep)
        requires
            old(self).wf(),
        ensures
            (*final(self), s) == old(self).next(),
            final(self).wf(),
    {
        if self.current_scenario >= self.scenario_count {
            return BenchStep::Finished;
        }
        if self.warmup_remaining > 0 {
            self.warmup_remaining = self.warmup_remaining - 1;
            return BenchStep::WarmupFrame;
        }
        if self.frames_done + 1 >= self.frames_per_scenario {
            let finished = self.current_scenario;
            self.current_scenario = self.current_scenario + 1;
            self.frames_done = 0;
            self.warmup_remaining = self.warmup_per_scenario;
            let next = if self.current_scenario < self.scenario_count { Some(self.current_scenario) } else { None };
            BenchStep::ScenarioDone { finished, next }
        } else {
            self.frames_done = self.frames_done + 1;
            BenchStep::Recorded
        }
    }
}

/// The run after `k` frames.
pub open spec fn run_after(r: BenchRun, k: nat) -> BenchRun
    decreases k,
{
    if k == 0 { r } else { run_after(r.next().0, (k - 1) as nat) }
}

proof fn lemma_measured_frames(r: BenchRun, k: nat)
    requires
        r.wf(),
        r.current_scenario < r.scenario_count,
        r.warmup_remaining == 0,
        r.frames_per_scenario >= 1,
        r.frames_done + k == r.frames_per_scenario,
    ensures
        run_after(r, k) == (BenchRun {
            current_scenario: (r.current_scenario + 1) as usize,
            frames_done: 0,
            warmup_remaining: r.warmup_per_scenario,
            ..r
        }),
    decreases k,
{
    if k > 1 {
        let r1 = r.next().0;
        assert(r1 == BenchRun { frames_done: (r.frames_done + 1) as u32, ..r });
        lemma_measured_frames(r1, (k - 1) as nat);
    } else {
        assert(run_after(r.next().0, 0) == r.next().0);
    }
}

proof fn lemma_warmup_frames(r: BenchRun, k: nat)
    requires
        r.wf(),
        r.current_scenario < r.scenario_count,
        k <= r.warmup_remaining,
    ensures
        run_after(r, k) == (BenchRun { warmup_remaining: (r.warmup_remaining - k) as u32, ..r }),
    decreases k,
{
    if k > 0 {
        let r1 = r.next().0;
        lemma_warmup_frames(r1, (k - 1) as nat);
    }
}

proof fn lemma_run_after_add(r: BenchRun, a: nat, b: nat)
    ensures
        run_after(r, a + b) == run_after(run_after(r, a), b),
    decreases a,
{
    if a > 0 {
        lemma_run_after_add(r.next().0, (a - 1) as nat, b);
        assert((a + b - 1) as nat == ((a - 1) as nat + b) as nat);
    }
}

/// Law: every scenario gets its warm-up frames and then its measured
/// frames: starting a scenario with a full warm-up, after `warmup + frames`
/// frames the run has moved to the next scenario, again with a full
/// warm-up and no frames recorded.
pub proof fn lemma_scenario_takes_warmup_plus_frames(r: BenchRun)
    requires
        r.wf(),
        r.current_scenario < r.scenario_count,
        r.frames_done == 0,
        r.warmup_remaining == r.warmup_per_scenario,
        r.frames_per_scenario >= 1,
    ensures
        run_after(r, (r.warmup_per_scenario + r.frames_per_scenario) as nat) == (BenchRun {
            current_scenario: (r.current_scenario + 1) as usize,
            ..r
        }),
{
    let w = r.warmup_per_scenario as nat;
    let f = r.frames_per_scenario as nat;
    lemma_warmup_frames(r, w);
    let rw = run_after(r, w);
    assert(rw == BenchRun { warmup_remaining: 0, ..r });
    lemma_measured_frames(rw, f);
    lemma_run_after_add(r, w, f);
    assert((r.warmup_per_scenario + r.frames_per_scenario) as nat == w + f);
}

/// Law: once every scenario is done the run stays finished.
pub proof fn lemma_finished_is_final(r: BenchRun)
    requires
        r.current_scenario >= r.scenario_count,
    ensures
        r.next() == (r, BenchStep::Finished),
{
}

} // verus!
