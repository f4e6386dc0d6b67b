//! Gating of export requests: the Export button is disabled while an export
//! runs, and a pending request starts an export only when no export thread
//! or GPU readback is still busy.
use vstd::prelude::*;

verus! {

/// Export request state shared by the export panel and the application.
#[derive(Debug, Clone, Copy, PartialEq, Eq, Structural)]
pub struct ExportGate {
    /// The Export button was pressed and the request is not handled yet.
    pub pending: bool,
    /// An export is running (its progress is shown).
    pub in_progress: bool,
}

impl ExportGate {
    /// The Export button is enabled exactly when no export is running.
    pub fn can_export(&self) -> (r: bool)
        ensures
            r == !self.in_progress,
    {
        !self.in_progress
    }

    /// A press of the Export button: it records a request only while the
    /// button is enabled.
    pub fn press(&mut self)
        ensures
            final(self).in_progress == old(self).in_progress,
            final(self).pending == (old(self).pending || !old(self).in_progress),
    {
        if !self.in_progress {
            self.pending = true;
        }
    }

    /// The application's check once per frame: a pending request is
    /// consumed, and it starts an export (returns `true`) unless an export
    /// thread or readback is still `busy`.
    pub fn take_request(&mut self, busy: bool) -> (start: bool)
        ensures
            start == (old(self).pending && !busy),
            !final(self).pending,
            final(self).in_progress == old(self).in_progress,
    {
        let had = self.pending;
        self.pending = false;
        had && !busy
    }
}

} // verus!
