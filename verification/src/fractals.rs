//! The fractal families the viewer renders, the mesh extraction methods and
//! the benchmark timing methods, with their display names.
use vstd::prelude::*;

verus! {

/// Enumeration of supported fractal types.
#[derive(Debug, Clone, Copy, PartialEq, Eq, Structural)]
pub enum FractalType {
    Mandelbulb,
    Menger,
    Julia3D,
    Mandelbox,
    Sierpinski,
    Apollonian,
}

/// All fractal types, in menu order.
pub open spec fn all_fractal_types() -> Seq<FractalType> {
    seq![
        FractalType::Mandelbulb,
        FractalType::Menger,
        FractalType::Julia3D,
        FractalType::Mandelbox,
        FractalType::Sierpinski,
        FractalType::Apollonian,
    ]
}

/// Display name of a fractal type.
pub open spec fn fractal_name(t: FractalType) -> Seq<char> {
    match t {
        FractalType::Mandelbulb => "Mandelbulb"@,
        FractalType::Menger => "Menger Sponge"@,
        FractalType::Julia3D => "Julia 3D"@,
        FractalType::Mandelbox => "Mandelbox"@,
        FractalType::Sierpinski => "Sierpinski"@,
        FractalType::Apollonian => "Apollonian"@,
    }
}

/// Position of a fractal type in the GPU's numbering (its `u32` tag).
pub open spec fn fractal_code(t: FractalType) -> u32 {
    match t {
        FractalType::Mandelbulb => 0,
        FractalType::Menger => 1,
        FractalType::Julia3D => 2,
        FractalType::Mandelbox => 3,
        FractalType::Sierpinski => 4,
        FractalType::Apollonian => 5,
    }
}

impl FractalType {
    /// All available fractal types, each once, in menu order.
    pub fn all() -> (v: Vec<FractalType>)
        ensures
            v@ == all_fractal_types(),
    {
        let v = vec![
            FractalType::Mandelbulb,
            FractalType::Menger,
            FractalType::Julia3D,
            FractalType::Mandelbox,
            FractalType::Sierpinski,
            FractalType::Apollonian,
        ];
        assert(v@ =~= all_fractal_types());
        v
    }

    /// The display name of this fractal type.
    pub fn name(&self) -> (s: &'static str)
        ensures
            s@ == fractal_name(*self),
    {
        match self {
            FractalType::Mandelbulb => "Mandelbulb",
            FractalType::Menger => "Menger Sponge",
            FractalType::Julia3D => "Julia 3D",
            FractalType::Mandelbox => "Mandelbox",
            FractalType::Sierpinski => "Sierpinski",
            FractalType::Apollonian => "Apollonian",
        }
    }

    /// The `u32` tag the GPU uniforms carry for this fractal type.
    pub fn code(&self) -> (c: u32)
        ensures
            c == fractal_code(*self),
    {
        match self {
            FractalType::Mandelbulb => 0,
            FractalType::Menger => 1,
            FractalType::Julia3D => 2,
            FractalType::Mandelbox => 3,
            FractalType::Sierpinski => 4,
            FractalType::Apollonian => 5,
        }
    }
}

impl Default for FractalType {
    fn default() -> (t: Self)
        ensures
            t == FractalType::Mandelbulb,
    {
        FractalType::Mandelbulb
    }
}

/// Law: the menu lists every fractal type exactly once, at the position of
/// its GPU tag.
pub proof fn lemma_all_fractal_types_complete(t: FractalType)
    ensures
        all_fractal_types().len() == 6,
        all_fractal_types()[fractal_code(t) as int] == t,
        all_fractal_types().no_duplicates(),
{
    let s = all_fractal_types();
    assert(s[0] == FractalType::Mandelbulb);
    assert(s[1] == FractalType::Menger);
    assert(s[2] == FractalType::Julia3D);
    assert(s[3] == FractalType::Mandelbox);
    assert(s[4] == FractalType::Sierpinski);
    assert(s[5] == FractalType::Apollonian);
}

/// Mesh extraction algorithm.
#[derive(Debug, Clone, Copy, PartialEq, Eq, Structural)]
pub enum MeshMethod {
    /// Classic Marching Cubes: fast, but not watertight and no sharp features.
    /// Settings can name it; this crate has no extractor for it.
    MarchingCubes,
    /// Dual Contouring: watertight quads, sharp features through the QEF.
    DualContouring,
    /// Surface Nets: smooth, averaged vertex placement.
    SurfaceNets,
}

/// Display label of a mesh method.
pub open spec fn mesh_method_label(m: MeshMethod) -> Seq<char> {
    match m {
        MeshMethod::MarchingCubes => "Marching Cubes"@,
        MeshMethod::DualContouring => "Dual Contouring"@,
        MeshMethod::SurfaceNets => "Surface Nets"@,
    }
}

impl MeshMethod {
    /// The display label (`Marching Cubes`, `Dual Contouring`, `Surface Nets`).
    pub fn to_string(&self) -> (s: String)
        ensures
            s@ == mesh_method_label(*self),
    {
        match self {
            MeshMethod::MarchingCubes => String::from_str("Marching Cubes"),
            MeshMethod::DualContouring => String::from_str("Dual Contouring"),
            MeshMethod::SurfaceNets => String::from_str("Surface Nets"),
        }
    }
}

impl Default for MeshMethod {
    fn default() -> (m: Self)
        ensures
            m == MeshMethod::DualContouring,
    {
        MeshMethod::DualContouring
    }
}

/// Which timing method a benchmark measurement used.
#[derive(Debug, Clone, Copy, PartialEq, Eq, Structural)]
pub enum TimingMethod {
    /// GPU-side timestamp queries (most accurate).
    GpuTimestamp,
    /// CPU-side timing around a blocking device poll.
    CpuPollWait,
}

/// Display label of a timing method.
pub open spec fn timing_method_label(m: TimingMethod) -> Seq<char> {
    match m {
        TimingMethod::GpuTimestamp => "GPU Timestamp"@,
        TimingMethod::CpuPollWait => "CPU Poll+Wait"@,
    }
}

impl TimingMethod {
    /// The display label (`GPU Timestamp` or `CPU Poll+Wait`).
    pub fn to_string(&self) -> (s: String)
        ensures
            s@ == timing_method_label(*self),
    {
        match self {
            TimingMethod::GpuTimestamp => String::from_str("GPU Timestamp"),
            TimingMethod::CpuPollWait => String::from_str("CPU Poll+Wait"),
        }
    }
}

/// Half the edge of the default export box of a fractal type, in
/// centimetres.
pub open spec fn default_half_extent_cm(t: FractalType) -> i32 {
    match t {
        FractalType::Mandelbulb => 150,
        FractalType::Menger => 150,
        FractalType::Julia3D => 200,
        FractalType::Mandelbox => 300,
        FractalType::Sierpinski => 200,
        FractalType::Apollonian => 200,
    }
}

/// The default export bounding box (minimum and maximum corner, in whole
/// centimetres) for a fractal type: a cube centred on the origin.
pub fn default_bounds(t: FractalType) -> (b: ([i32; 3], [i32; 3]))
    ensures
        forall|k: int| 0 <= k < 3 ==> b.0[k] == -default_half_extent_cm(t) && b.1[k] == default_half_extent_cm(t),
{
    let h: i32 = match t {
        FractalType::Mandelbulb => 150,
        FractalType::Menger => 150,
        FractalType::Julia3D => 200,
        FractalType::Mandelbox => 300,
        FractalType::Sierpinski => 200,
        FractalType::Apollonian => 200,
    };
    ([-h, -h, -h], [h, h, h])
}

} // verus!
