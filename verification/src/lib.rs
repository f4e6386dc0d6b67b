//! Verified core of the fractal viewer: calendar arithmetic for save ids and
//! report timestamps, session bookkeeping, log capture, hot-reload decisions,
//! the benchmark matrix and its progress, GPU readback planning, thumbnail
//! encoding, export file names, mesh export encoders and mesh topology
//! (adjacency, Dual Contouring, decimation).
pub mod bench_run;
pub mod bench_time;
pub mod bytes;
pub mod calendar;
pub mod control_ranges;
pub mod export_gate;
pub mod export_names;
pub mod fractals;
pub mod hot_reload;
pub mod log_capture;
pub mod mesh;
pub mod palette_presets;
pub mod palette_stops;
pub mod scenarios;
pub mod session;
pub mod strings;
pub mod text;
pub mod thumbnail;
pub mod timestamp;
pub mod volume_slabs;
