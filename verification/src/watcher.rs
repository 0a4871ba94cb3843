//! Watching the clips folder: which file events refresh the library, and
//! what the watcher loop does after each wait. It re-targets itself when
//! the clips folder setting changes and retries while the folder is
//! missing.

use vstd::prelude::*;

use crate::text::{contains, spec_contains, str_eq};

verus! {

/// Seconds between attempts while the folder is missing or cannot be
/// watched, and between checks whether the setting moved.
pub const RETRY_SECS: u64 = 5;

/// Bursts of events (a save touches a file many times) are merged until
/// none arrives for this long.
pub const DEBOUNCE_MS: u64 = 700;

/// A file event refreshes the library unless it only touches `.thumbs`
/// (thumbnail writes would loop refresh, render, refresh).
pub open spec fn spec_event_relevant(paths: Seq<Seq<char>>) -> bool {
    exists|i: int| 0 <= i < paths.len() && !spec_contains(#[trigger] paths[i], ".thumbs"@)
}

pub fn event_is_relevant(paths: &Vec<String>) -> (r: bool)
    ensures
        r == spec_event_relevant(paths.deep_view()),
{
    let mut i: usize = 0;
    while i < paths.len()
        invariant
            i <= paths.len(),
            forall|k: int| 0 <= k < i ==> spec_contains(#[trigger] paths.deep_view()[k], ".thumbs"@),
        decreases paths.len() - i,
    {
        if !contains(paths[i].as_str(), ".thumbs") {
            proof {
                assert(paths.deep_view()[i as int] == paths@[i as int]@);
                assert(!spec_contains(paths.deep_view()[i as int], ".thumbs"@));
            }
            return true;
        }
        proof {
            assert(paths.deep_view()[i as int] == paths@[i as int]@);
        }
        i = i + 1;
    }
    false
}

/// How a wait for file events ended.
#[derive(Clone, Copy, Debug, PartialEq, Eq, Structural)]
pub enum WatchWait {
    /// A relevant event arrived.
    Changed,
    /// Nothing happened for `RETRY_SECS`.
    TimedOut,
    /// The watcher went away.
    Disconnected,
}

/// What the watcher loop does next.
#[derive(Clone, Copy, Debug, PartialEq, Eq, Structural)]
pub enum WatchNext {
    /// Let the burst settle, then tell the frontend the clips changed.
    NotifyAfterDebounce,
    /// Keep waiting on the same folder.
    KeepWatching,
    /// Drop this watcher and watch the (possibly new) clips folder.
    Retarget,
}

pub fn after_wait(wait: WatchWait, watched_dir: &str, configured_dir: &str) -> (r: WatchNext)
    ensures
        r == match wait {
            WatchWait::Changed => WatchNext::NotifyAfterDebounce,
            WatchWait::TimedOut => if configured_dir@ == watched_dir@ {
                WatchNext::KeepWatching
            } else {
                WatchNext::Retarget
            },
            WatchWait::Disconnected => WatchNext::Retarget,
        },
{
    match wait {
        WatchWait::Changed => WatchNext::NotifyAfterDebounce,
        WatchWait::TimedOut => {
            if str_eq(configured_dir, watched_dir) {
                WatchNext::KeepWatching
            } else {
                WatchNext::Retarget
            }
        },
        WatchWait::Disconnected => WatchNext::Retarget,
    }
}

} // verus!
