//! The hot-reload pipeline's decisions.
//!
//! A watcher thread receives raw filesystem notifications and must turn a
//! burst of them into at most one reload per logical change: only
//! modifications count, and a reload is dispatched only when at least the
//! debounce interval has passed since the previously dispatched one. After a
//! dispatch decision the watcher waits a short settle delay, reads the file,
//! and sends the raw text — never a parsed tree — across a channel into the
//! UI thread as a [`CustomEvent`]. The watcher performs the waiting, reading
//! and sending; every decision lives here.

use vstd::prelude::*;

verus! {

/// Debounce window: a reload is dispatched only when at least this much time
/// has passed since the previous dispatched reload.
pub const DEBOUNCE_MS: u64 = 200;

/// Settle delay: how long the watcher waits after a dispatch decision before
/// reading the file, so a partially-written file is not picked up.
pub const SETTLE_MS: u64 = 100;

/// The classes of filesystem change notification the watcher receives.
#[derive(Clone, Copy, Debug, PartialEq, Eq, Structural)]
pub enum FsEventKind {
    Create,
    Modify,
    Remove,
}

/// The one message that crosses the thread boundary: the raw document text,
/// read at send time. Parsing is deferred to the receiving UI thread, so a
/// parse failure is diagnosed where the tree lives.
#[derive(Debug, Clone)]
pub enum CustomEvent {
    Reload(String),
}

/// The debounce timer state owned by the watcher thread.
pub struct Debouncer {
    pub interval_ms: u64,
    pub last_dispatch: Option<u64>,
}

impl Debouncer {
    /// Whether an event of this kind arriving at `now_ms` dispatches a
    /// reload: only modifications do, and only when no reload was dispatched
    /// yet or the interval has fully passed since the last one.
    pub open spec fn should_dispatch(self, kind: FsEventKind, now_ms: u64) -> bool {
        &&& kind == FsEventKind::Modify
        &&& match self.last_dispatch {
            None => true,
            Some(last) => now_ms >= last && now_ms - last >= self.interval_ms,
        }
    }

    /// A fresh debouncer that will dispatch on the first modification.
    pub fn new(interval_ms: u64) -> (d: Debouncer)
        ensures
            d.interval_ms == interval_ms,
            d.last_dispatch is None,
    {
        Debouncer { interval_ms, last_dispatch: None }
    }

    /// Law: the debounce decision. Feed one filesystem event observed at
    /// `now_ms`; returns whether to dispatch a reload, and remembers the
    /// dispatch time exactly when it says yes, so bursts inside the window
    /// collapse into the first dispatch.
    pub fn on_event(&mut self, kind: FsEventKind, now_ms: u64) -> (dispatch: bool)
        ensures
            dispatch == old(self).should_dispatch(kind, now_ms),
            final(self).interval_ms == old(self).interval_ms,
            final(self).last_dispatch == if dispatch {
                Some(now_ms)
            } else {
                old(self).last_dispatch
            },
    {
        let is_modify = match kind {
            FsEventKind::Modify => true,
            _ => false,
        };
        let ready = match self.last_dispatch {
            None => true,
            Some(last) => now_ms >= last && now_ms - last >= self.interval_ms,
        };
        if is_modify && ready {
            self.last_dispatch = Some(now_ms);
            true
        } else {
            false
        }
    }
}

/// Law: a burst collapses to its first event. Once a reload dispatches at
/// `t1`, no modification strictly inside the following debounce window
/// dispatches another.
pub proof fn lemma_debounce_suppresses_burst(d: Debouncer, t1: u64, t2: u64)
    requires
        d.should_dispatch(FsEventKind::Modify, t1),
        t1 <= t2 < t1 + d.interval_ms,
    ensures
        !(Debouncer { last_dispatch: Some(t1), ..d }).should_dispatch(FsEventKind::Modify, t2),
{
}

} // verus!
