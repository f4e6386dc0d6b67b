use fractal_viewer::hot_reload::{combined_shader_source, FileStamp, HotReloadEvent, HotReloader, WatchedStamps, CHECK_INTERVAL_MS};
use fractal_viewer::log_capture::{level_enabled, LogEntry, LogLevel, LogLevelFilter, LogRing, MAX_ENTRIES};

fn entry(level: LogLevel, msg: &str) -> LogEntry {
    LogEntry { level, target: "app".to_string(), message: msg.to_string() }
}

#[test]
fn log_entry_formatting() {
    assert_eq!(entry(LogLevel::Warn, "low memory").formatted(), "[WARN] app - low memory");
    assert_eq!(LogLevel::Trace.as_str(), "TRACE");
}

#[test]
fn log_ring_keeps_most_recent() {
    let mut ring = LogRing::new();
    assert_eq!(ring.len(), 0);
    for i in 0..(MAX_ENTRIES + 5) {
        ring.push(entry(LogLevel::Info, &i.to_string()));
    }
    assert_eq!(ring.len(), MAX_ENTRIES);
    assert_eq!(ring.get(0).message, "5");
    assert_eq!(ring.get(MAX_ENTRIES - 1).message, (MAX_ENTRIES + 4).to_string());
}

#[test]
fn log_level_filtering() {
    assert!(level_enabled(LogLevel::Error, LogLevelFilter::Error));
    assert!(!level_enabled(LogLevel::Info, LogLevelFilter::Warn));
    assert!(!level_enabled(LogLevel::Error, LogLevelFilter::Off));
    let mut ring = LogRing::new();
    assert!(!ring.capture(LogLevelFilter::Info, entry(LogLevel::Debug, "hidden")));
    assert!(ring.capture(LogLevelFilter::Info, entry(LogLevel::Info, "shown")));
    assert_eq!(ring.len(), 1);
    assert!(!ring.capture(LogLevelFilter::Trace, entry(LogLevel::Debug, "debug is never kept")));
    assert!(!ring.capture(LogLevelFilter::Trace, entry(LogLevel::Trace, "trace is never kept")));
    assert!(ring.capture(LogLevelFilter::Trace, entry(LogLevel::Warn, "warn")));
    assert_eq!(ring.len(), 2);
}

fn stamp(secs: i64) -> Option<FileStamp> {
    Some(FileStamp { secs, nanos: 0 })
}

fn seen(common: Option<FileStamp>, render: Option<FileStamp>, config: Option<FileStamp>) -> WatchedStamps {
    WatchedStamps { shader_common: common, shader_render: render, config }
}

#[test]
fn hot_reload_reports_changes_once() {
    let paths = Some(("common.wgsl".to_string(), "render.wgsl".to_string()));
    let mut r = HotReloader::new(paths, Some("cfg.toml".to_string()), seen(stamp(1), stamp(1), stamp(1)), 0);
    assert_eq!(r.check_interval_ms, CHECK_INTERVAL_MS);
    // Not due yet.
    assert!(!r.is_due(100));
    assert_eq!(r.poll(100, seen(stamp(2), stamp(1), stamp(1))), HotReloadEvent::Unchanged);
    // Due: shader change first.
    assert_eq!(r.poll(600, seen(stamp(2), stamp(1), stamp(2))), HotReloadEvent::ShaderChanged);
    // Then the config change.
    assert_eq!(r.poll(1200, seen(stamp(2), stamp(1), stamp(2))), HotReloadEvent::ConfigChanged);
    assert_eq!(r.poll(1800, seen(stamp(2), stamp(1), stamp(2))), HotReloadEvent::Unchanged);
    // A file that disappeared is not a change.
    assert_eq!(r.poll(2400, seen(None, stamp(1), stamp(2))), HotReloadEvent::Unchanged);
}

#[test]
fn hot_reload_without_watched_files() {
    let mut r = HotReloader::new(None, None, seen(stamp(1), stamp(1), stamp(1)), 0);
    assert_eq!(r.last_shader_common_modified, None);
    assert_eq!(r.poll(1000, seen(stamp(5), stamp(5), stamp(5))), HotReloadEvent::Unchanged);
}

#[test]
fn shader_sources_are_joined_by_a_newline() {
    assert_eq!(combined_shader_source("fn a() {}", "fn b() {}"), "fn a() {}\nfn b() {}");
}
