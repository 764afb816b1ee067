//! Decisions of the DJ-library change watcher: when a polled modification
//! time calls for a re-import, and when reconfiguring replaces the running
//! watcher.

use vstd::prelude::*;

verus! {

/// Whether a polled modification time calls for a re-import: any change is
/// one when nothing was seen yet, otherwise only a strictly newer stamp.
pub open spec fn reimport_due(last_seen: Option<u64>, modified: u64) -> bool {
    match last_seen {
        Some(prev) => modified > prev,
        None => true,
    }
}

/// Decide whether a polled modification time triggers a re-import.
pub fn should_reimport(last_seen: Option<u64>, modified: u64) -> (r: bool)
    ensures
        r == reimport_due(last_seen, modified),
{
    match last_seen {
        Some(prev) => modified > prev,
        None => true,
    }
}

/// Which DJ-library path is being watched, if any. The watcher task itself
/// runs outside; this state pins down when it is kept, replaced or
/// cancelled.
pub struct RekordboxState {
    pub watched_path: Option<String>,
}

impl RekordboxState {
    /// No watcher yet.
    pub fn new() -> (r: Self)
        ensures
            r.watched_path is None,
    {
        RekordboxState { watched_path: None }
    }

    /// Configure watching of a path. Reconfiguring to the path already
    /// watched is a no-op; anything else replaces the watcher, and the
    /// caller must then cancel the old task and spawn a new one.
    pub fn configure(&mut self, path: String) -> (spawn: bool)
        ensures
            (old(self).watched_path matches Some(p) && p@ == path@) ==> (!spawn && final(self).watched_path == old(self).watched_path),
            !(old(self).watched_path matches Some(p) && p@ == path@) ==> (spawn && final(self).watched_path == Some(path)),
    {
        let same = match &self.watched_path {
            Some(p) => p.eq(&path),
            None => false,
        };
        if same {
            false
        } else {
            self.watched_path = Some(path);
            true
        }
    }

    /// Stop watching; the caller cancels the task.
    pub fn disable(&mut self)
        ensures
            final(self).watched_path is None,
    {
        self.watched_path = None;
    }
}

} // verus!
