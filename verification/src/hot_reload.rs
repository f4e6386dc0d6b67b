//! Hot-reload decisions for shader and config files.
//!
//! The watcher keeps the last seen modification stamp of each watched file
//! and, at most once per check interval, compares them with freshly read
//! stamps. Reading the stamps from disk and the clock is the caller's part.
use vstd::prelude::*;

verus! {

/// Default minimum time between two checks, in milliseconds.
pub const CHECK_INTERVAL_MS: u64 = 500;

/// Events returned by the hot-reloader.
#[derive(Debug, Clone, Copy, PartialEq, Eq, Structural)]
pub enum HotReloadEvent {
    Unchanged,
    ShaderChanged,
    ConfigChanged,
}

/// A file modification time: whole seconds relative to the Unix epoch and
/// the nanosecond part.
#[derive(Debug, Clone, Copy, PartialEq, Eq, Structural)]
pub struct FileStamp {
    pub secs: i64,
    pub nanos: u32,
}

/// Modification stamps of the watched files as read now (`None` when a file
/// is missing or unreadable, or not watched).
#[derive(Debug, Clone, Copy, PartialEq, Eq, Structural)]
pub struct WatchedStamps {
    pub shader_common: Option<FileStamp>,
    pub shader_render: Option<FileStamp>,
    pub config: Option<FileStamp>,
}

/// File-polling hot-reload watcher.
pub struct HotReloader {
    /// Shader file paths: (sdf_common.wgsl, raymarcher.wgsl).
    pub shader_paths: Option<(String, String)>,
    pub config_path: Option<String>,
    pub last_shader_common_modified: Option<FileStamp>,
    pub last_shader_render_modified: Option<FileStamp>,
    pub last_config_modified: Option<FileStamp>,
    /// Time of the last check, in milliseconds of a monotonic clock.
    pub last_check_ms: u64,
    pub check_interval_ms: u64,
    /// Last shader compile error (shown in debug overlay).
    pub shader_error: Option<String>,
}

/// Whether a freshly read stamp reports a change: the file exists and its
/// stamp differs from the remembered one.
pub open spec fn stamp_changed(now: Option<FileStamp>, last: Option<FileStamp>) -> bool {
    now != last && now is Some
}

impl HotReloader {
    /// Whether enough time has passed since the last check.
    pub open spec fn spec_due(&self, now_ms: u64) -> bool {
        now_ms >= self.last_check_ms && now_ms - self.last_check_ms >= self.check_interval_ms
    }

    /// The watcher after a poll at `now_ms` with the stamps `seen`, and the
    /// event reported. Shader changes are reported before config changes.
    pub open spec fn step(self, now_ms: u64, seen: WatchedStamps) -> (HotReloader, HotReloadEvent) {
        if !self.spec_due(now_ms) {
            (self, HotReloadEvent::Unchanged)
        } else {
            let checked = HotReloader { last_check_ms: now_ms, ..self };
            if self.shader_paths is Some && (stamp_changed(seen.shader_common, self.last_shader_common_modified)
                || stamp_changed(seen.shader_render, self.last_shader_render_modified)) {
                (
                    HotReloader {
                        last_shader_common_modified: seen.shader_common,
                        last_shader_render_modified: seen.shader_render,
                        ..checked
                    },
                    HotReloadEvent::ShaderChanged,
                )
            } else if self.config_path is Some && stamp_changed(seen.config, self.last_config_modified) {
                (HotReloader { last_config_modified: seen.config, ..checked }, HotReloadEvent::ConfigChanged)
            } else {
                (checked, HotReloadEvent::Unchanged)
            }
        }
    }

    /// Starts watching: remembers the stamps the files have now (stamps of
    /// files that are not watched are ignored) and checks every 500 ms.
    pub fn new(
        shader_paths: Option<(String, String)>,
        config_path: Option<String>,
        initial: WatchedStamps,
        now_ms: u64,
    ) -> (r: HotReloader)
        ensures
            r.shader_paths == shader_paths,
            r.config_path == config_path,
            r.last_shader_common_modified == (if shader_paths is Some { initial.shader_common } else { None }),
            r.last_shader_render_modified == (if shader_paths is Some { initial.shader_render } else { None }),
            r.last_config_modified == (if config_path is Some { initial.config } else { None }),
            r.last_check_ms == now_ms,
            r.check_interval_ms == CHECK_INTERVAL_MS,
            r.shader_error is None,
    {
        let watch_shaders = shader_paths.is_some();
        let watch_config = config_path.is_some();
        HotReloader {
            shader_paths,
            config_path,
            last_shader_common_modified: if watch_shaders { initial.shader_common } else { None },
            last_shader_render_modified: if watch_shaders { initial.shader_render } else { None },
            last_config_modified: if watch_config { initial.config } else { None },
            last_check_ms: now_ms,
            check_interval_ms: CHECK_INTERVAL_MS,
            shader_error: None,
        }
    }

    /// Whether a poll at `now_ms` would look at the files at all; callers
    /// read the stamps only then.
    pub fn is_due(&self, now_ms: u64) -> (r: bool)
        ensures
            r == self.spec_due(now_ms),
    {
        now_ms >= self.last_check_ms && now_ms - self.last_check_ms >= self.check_interval_ms
    }

    /// Call once per frame with the current time and the stamps read from
    /// disk (only needed when [`Self::is_due`]). Returns what changed.
    pub fn poll(&mut self, now_ms: u64, seen: WatchedStamps) -> (ev: HotReloadEvent)
        ensures
            (*final(self), ev) == old(self).step(now_ms, seen),
            old(self).spec_due(now_ms) && old(self).shader_paths is Some && ((seen.shader_common is Some
                && seen.shader_common != old(self).last_shader_common_modified) || (seen.shader_render is Some
                && seen.shader_render != old(self).last_shader_render_modified)) ==> ev == HotReloadEvent::ShaderChanged,
    {
        if !self.is_due(now_ms) {
            return HotReloadEvent::Unchanged;
        }
        self.last_check_ms = now_ms;
        if self.shader_paths.is_some() {
            let common_changed = seen.shader_common != self.last_shader_common_modified
                && seen.shader_common.is_some();
            let render_changed = seen.shader_render != self.last_shader_render_modified
                && seen.shader_render.is_some();
            if common_changed || render_changed {
                self.last_shader_common_modified = seen.shader_common;
                self.last_shader_render_modified = seen.shader_render;
                return HotReloadEvent::ShaderChanged;
            }
        }
        if self.config_path.is_some() {
            if seen.config != self.last_config_modified && seen.config.is_some() {
                self.last_config_modified = seen.config;
                return HotReloadEvent::ConfigChanged;
            }
        }
        HotReloadEvent::Unchanged
    }
}

/// Law: a change is reported once. Polling again with the same stamps after
/// a reported shader change reports no shader change; after a reported
/// config change it reports nothing.
pub proof fn lemma_change_reported_once(r: HotReloader, t1: u64, t2: u64, seen: WatchedStamps)
    ensures
        ({
            let (r1, ev1) = r.step(t1, seen);
            let (_r2, ev2) = r1.step(t2, seen);
            &&& ev1 == HotReloadEvent::ShaderChanged ==> ev2 != HotReloadEvent::ShaderChanged
            &&& ev1 == HotReloadEvent::ConfigChanged ==> ev2 == HotReloadEvent::Unchanged
        }),
{
}

/// Law: polling before the check interval has passed changes nothing.
pub proof fn lemma_not_due_is_quiet(r: HotReloader, t: u64, seen: WatchedStamps)
    requires
        !r.spec_due(t),
    ensures
        r.step(t, seen) == (r, HotReloadEvent::Unchanged),
{
}

/// Law: a watcher reports nothing while no watched file has a new stamp.
/// In particular one that watches no file never reports anything, and one
/// just made by `new` stays quiet until a watched file changes.
pub proof fn lemma_unchanged_files_are_quiet(r: HotReloader, t: u64, seen: WatchedStamps)
    requires
        r.shader_paths is Some ==> seen.shader_common == r.last_shader_common_modified
            && seen.shader_render == r.last_shader_render_modified,
        r.config_path is Some ==> seen.config == r.last_config_modified,
    ensures
        r.step(t, seen).1 == HotReloadEvent::Unchanged,
        r.step(t, seen).0.shader_paths == r.shader_paths,
        r.step(t, seen).0.config_path == r.config_path,
{
}

/// Law: an edit of either shader file is reported. When a poll is due and
/// the shaders are watched, a fresh stamp of the common shader or of the
/// render shader that differs from the remembered one makes the poll
/// report a shader change and remember both fresh shader stamps, whatever
/// the other shader's stamp is.
pub proof fn lemma_either_shader_edit_is_reported(r: HotReloader, t: u64, seen: WatchedStamps)
    requires
        t >= r.last_check_ms,
        t - r.last_check_ms >= r.check_interval_ms,
        r.shader_paths is Some,
        (seen.shader_common is Some && seen.shader_common != r.last_shader_common_modified)
            || (seen.shader_render is Some && seen.shader_render != r.last_shader_render_modified),
    ensures
        r.step(t, seen).1 == HotReloadEvent::ShaderChanged,
        r.step(t, seen).0.last_shader_common_modified == seen.shader_common,
        r.step(t, seen).0.last_shader_render_modified == seen.shader_render,
        r.step(t, seen).0.last_check_ms == t,
{
}

/// Law: a config edit is reported when no shader edit is. When a poll is
/// due, the config is watched, its fresh stamp is present and differs from
/// the remembered one, and no watched shader has a new stamp, the poll
/// reports a config change and remembers the fresh config stamp.
pub proof fn lemma_config_edit_is_reported(r: HotReloader, t: u64, seen: WatchedStamps)
    requires
        t >= r.last_check_ms,
        t - r.last_check_ms >= r.check_interval_ms,
        r.config_path is Some,
        seen.config is Some,
        seen.config != r.last_config_modified,
        r.shader_paths is Some ==> (seen.shader_common is None || seen.shader_common == r.last_shader_common_modified)
            && (seen.shader_render is None || seen.shader_render == r.last_shader_render_modified),
    ensures
        r.step(t, seen).1 == HotReloadEvent::ConfigChanged,
        r.step(t, seen).0.last_config_modified == seen.config,
{
}

/// The shader source compiled after a reload: the shared SDF code, a line
/// break, then the ray marcher.
pub fn combined_shader_source(common: &str, render: &str) -> (s: String)
    ensures
        s@ == common@ + seq!['\n'] + render@,
{
    let mut s = String::from_str(common);
    s.append("\n");
    s.append(render);
    proof {
        reveal_strlit("\n");
    }
    assert(s@ =~= common@ + seq!['\n'] + render@);
    s
}

} // verus!
