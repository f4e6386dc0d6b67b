//! In-app log capture: which records are kept, how an entry is displayed,
//! and the bounded buffer that keeps the most recent entries for the log
//! window.
use std::collections::VecDeque;
use vstd::prelude::*;
use vstd::string::*;

verus! {

/// Maximum number of log entries kept in memory.
pub const MAX_ENTRIES: usize = 1000;

/// Severity of a log record, most severe first.
#[derive(Clone, Copy, Debug, PartialEq, Eq, Structural)]
pub enum LogLevel {
    Error,
    Warn,
    Info,
    Debug,
    Trace,
}

/// Most verbose level that is let through; `Off` lets nothing through.
#[derive(Clone, Copy, Debug, PartialEq, Eq, Structural)]
pub enum LogLevelFilter {
    Off,
    Error,
    Warn,
    Info,
    Debug,
    Trace,
}

impl LogLevel {
    /// Verbosity rank: 1 for errors up to 5 for trace messages.
    pub open spec fn rank(self) -> int {
        match self {
            LogLevel::Error => 1,
            LogLevel::Warn => 2,
            LogLevel::Info => 3,
            LogLevel::Debug => 4,
            LogLevel::Trace => 5,
        }
    }

    /// Display name of the level.
    pub open spec fn label(self) -> Seq<char> {
        match self {
            LogLevel::Error => "ERROR"@,
            LogLevel::Warn => "WARN"@,
            LogLevel::Info => "INFO"@,
            LogLevel::Debug => "DEBUG"@,
            LogLevel::Trace => "TRACE"@,
        }
    }

    /// Display name of the level (`ERROR`, `WARN`, `INFO`, `DEBUG`, `TRACE`).
    pub fn as_str(&self) -> (s: &'static str)
        ensures
            s@ == self.label(),
    {
        match self {
            LogLevel::Error => "ERROR",
            LogLevel::Warn => "WARN",
            LogLevel::Info => "INFO",
            LogLevel::Debug => "DEBUG",
            LogLevel::Trace => "TRACE",
        }
    }
}

impl LogLevelFilter {
    /// Verbosity rank of the filter: 0 for `Off` up to 5 for `Trace`.
    pub open spec fn rank(self) -> int {
        match self {
            LogLevelFilter::Off => 0,
            LogLevelFilter::Error => 1,
            LogLevelFilter::Warn => 2,
            LogLevelFilter::Info => 3,
            LogLevelFilter::Debug => 4,
            LogLevelFilter::Trace => 5,
        }
    }
}

fn level_rank(level: LogLevel) -> (r: u8)
    ensures
        r as int == level.rank(),
{
    match level {
        LogLevel::Error => 1,
        LogLevel::Warn => 2,
        LogLevel::Info => 3,
        LogLevel::Debug => 4,
        LogLevel::Trace => 5,
    }
}

fn filter_rank(filter: LogLevelFilter) -> (r: u8)
    ensures
        r as int == filter.rank(),
{
    match filter {
        LogLevelFilter::Off => 0,
        LogLevelFilter::Error => 1,
        LogLevelFilter::Warn => 2,
        LogLevelFilter::Info => 3,
        LogLevelFilter::Debug => 4,
        LogLevelFilter::Trace => 5,
    }
}

/// Whether a record of `level` passes `filter`.
pub fn level_enabled(level: LogLevel, filter: LogLevelFilter) -> (r: bool)
    ensures
        r == (level.rank() <= filter.rank()),
{
    level_rank(level) <= filter_rank(filter)
}

/// A captured log entry.
#[derive(Clone)]
pub struct LogEntry {
    pub level: LogLevel,
    pub target: String,
    pub message: String,
}

/// `[LEVEL] target - message`.
pub open spec fn formatted_text(level: LogLevel, target: Seq<char>, message: Seq<char>) -> Seq<char> {
    "["@ + level.label() + "] "@ + target + " - "@ + message
}

impl LogEntry {
    /// Formatted display string: `[LEVEL] target - message`.
    pub fn formatted(&self) -> (s: String)
        ensures
            s@ == formatted_text(self.level, self.target@, self.message@),
    {
        let mut s = String::from_str("[");
        s.append(self.level.as_str());
        s.append("] ");
        s.append(self.target.as_str());
        s.append(" - ");
        s.append(self.message.as_str());
        s
    }
}

/// The most recent `MAX_ENTRIES` items of `s`.
pub open spec fn most_recent(s: Seq<LogEntry>) -> Seq<LogEntry> {
    if s.len() <= MAX_ENTRIES { s } else { s.skip(s.len() - MAX_ENTRIES) }
}

/// Ring buffer of captured entries, oldest first, holding at most
/// [`MAX_ENTRIES`] entries.
pub struct LogRing {
    entries: VecDeque<LogEntry>,
}

impl LogRing {
    #[verifier::type_invariant]
    spec fn bounded(self) -> bool {
        self.entries@.len() <= MAX_ENTRIES
    }

    /// The kept entries, oldest first.
    pub closed spec fn view(&self) -> Seq<LogEntry> {
        self.entries@
    }

    /// An empty buffer.
    pub fn new() -> (r: LogRing)
        ensures
            r.view() == Seq::<LogEntry>::empty(),
    {
        LogRing { entries: VecDeque::with_capacity(MAX_ENTRIES) }
    }

    /// Number of kept entries.
    pub fn len(&self) -> (n: usize)
        ensures
            n == self.view().len(),
            n <= MAX_ENTRIES,
    {
        proof {
            use_type_invariant(self);
        }
        self.entries.len()
    }

    /// The `i`-th kept entry, oldest first.
    pub fn get(&self, i: usize) -> (e: &LogEntry)
        requires
            i < self.view().len(),
        ensures
            *e == self.view()[i as int],
    {
        &self.entries[i]
    }

    /// Appends an entry, dropping the oldest one when the buffer is full.
    pub fn push(&mut self, entry: LogEntry)
        ensures
            final(self).view() == most_recent(old(self).view().push(entry)),
    {
        proof {
            use_type_invariant(&*self);
        }
        let ghost before = self.entries@;
        let mut entries = VecDeque::new();
        std::mem::swap(&mut entries, &mut self.entries);
        if entries.len() >= MAX_ENTRIES {
            entries.pop_front();
        }
        entries.push_back(entry);
        assert(entries@ =~= most_recent(before.push(entry)));
        self.entries = entries;
    }

    /// Records `entry` when its level passes `filter` and is INFO, WARN or
    /// ERROR (debug and trace records are never captured); returns whether
    /// it was recorded.
    pub fn capture(&mut self, filter: LogLevelFilter, entry: LogEntry) -> (kept: bool)
        ensures
            kept == (entry.level.rank() <= filter.rank() && entry.level.rank() <= LogLevel::Info.rank()),
            kept ==> final(self).view() == most_recent(old(self).view().push(entry)),
            !kept ==> final(self).view() == old(self).view(),
    {
        if level_enabled(entry.level, filter) && level_rank(entry.level) <= 3 {
            self.push(entry);
            true
        } else {
            false
        }
    }
}

/// Law: the buffer always holds the most recent entries of everything pushed,
/// so keeping the most recent ones step by step equals keeping them once.
pub proof fn lemma_most_recent_push(s: Seq<LogEntry>, e: LogEntry)
    ensures
        most_recent(most_recent(s).push(e)) == most_recent(s.push(e)),
{
    assert(most_recent(most_recent(s).push(e)) =~= most_recent(s.push(e)));
}

} // verus!
