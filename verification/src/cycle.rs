//! The polling cycle that both watchers run: poll, then sleep, then poll
//! again, for as long as the process lives.
//!
//! A watcher decides here what comes next. Whoever runs it does the polling
//! and the sleeping, and reports back.

use vstd::prelude::*;

verus! {

/// Seconds to sleep after a poll that succeeded.
pub const CHECK_INTERVAL_SECS: u64 = 300;

/// Seconds to sleep after a poll that failed, before it is tried again.
pub const BACKOFF_SECS: u64 = 10;

/// The part of each account's data that a poll asks the ledger to return.
#[derive(Clone, Copy, Debug, PartialEq, Eq, Structural)]
pub struct DataSlice {
    pub offset: usize,
    pub length: usize,
}

impl DataSlice {
    /// The slice of no bytes at all. A poll is after balances, and asks for
    /// no data.
    pub open spec fn empty() -> DataSlice {
        DataSlice { offset: 0, length: 0 }
    }

    /// The slice that every poll asks for: no bytes at all.
    pub fn balance_only() -> (slice: DataSlice)
        ensures
            slice == Self::empty(),
    {
        DataSlice { offset: 0, length: 0 }
    }
}

/// How the ledger is asked to write the data of the accounts it returns.
#[derive(Clone, Copy, Debug, PartialEq, Eq, Structural)]
pub enum DataEncoding {
    /// As the ledger chooses.
    Unspecified,
    /// In base64.
    Base64,
}

/// Where a watcher stands in its cycle.
#[derive(Clone, Copy, Debug, PartialEq, Eq, Structural)]
pub enum WatcherState {
    /// A poll is due, or under way.
    Polling,
    /// The last poll failed; the short sleep is due, or under way.
    Backoff,
    /// The last poll succeeded; the long sleep is due, or under way.
    Idle,
}

/// What the runner of a watcher has to do next.
#[derive(Clone, Copy, Debug, PartialEq, Eq, Structural)]
pub enum WatcherAction {
    /// Ask the ledger, and report the response or the failure.
    Poll,
    /// Sleep this long, and report when done.
    Sleep { seconds: u64 },
}

impl WatcherState {
    /// The action that is due in this state.
    pub open spec fn action(self) -> WatcherAction {
        match self {
            WatcherState::Polling => WatcherAction::Poll,
            WatcherState::Backoff => WatcherAction::Sleep { seconds: BACKOFF_SECS },
            WatcherState::Idle => WatcherAction::Sleep { seconds: CHECK_INTERVAL_SECS },
        }
    }

    /// The state that follows a poll.
    pub open spec fn after_poll(succeeded: bool) -> WatcherState {
        if succeeded {
            WatcherState::Idle
        } else {
            WatcherState::Backoff
        }
    }

    /// The state in which a watcher starts.
    pub fn start() -> (state: WatcherState)
        ensures
            state == WatcherState::Polling,
    {
        WatcherState::Polling
    }

    /// The action that is due in this state.
    pub fn next_action(&self) -> (action: WatcherAction)
        ensures
            action == self.action(),
    {
        match self {
            WatcherState::Polling => WatcherAction::Poll,
            WatcherState::Backoff => WatcherAction::Sleep { seconds: BACKOFF_SECS },
            WatcherState::Idle => WatcherAction::Sleep { seconds: CHECK_INTERVAL_SECS },
        }
    }

    /// The state that follows a poll: the long sleep after a success, the
    /// short one after a failure.
    pub fn on_poll(succeeded: bool) -> (state: WatcherState)
        ensures
            state == Self::after_poll(succeeded),
    {
        if succeeded {
            WatcherState::Idle
        } else {
            WatcherState::Backoff
        }
    }

    /// The state that follows a sleep: the next poll, whatever came before.
    pub fn on_wake(&self) -> (state: WatcherState)
        ensures
            state == WatcherState::Polling,
    {
        WatcherState::Polling
    }

    /// A poll is always followed by a sleep, a failed one by the short sleep
    /// and a successful one by the long sleep; and a sleep by the next poll.
    /// So the cycle has no last state.
    pub proof fn lemma_cycle_goes_on(succeeded: bool)
        ensures
            Self::after_poll(succeeded).action() == (WatcherAction::Sleep {
                seconds: if succeeded {
                    CHECK_INTERVAL_SECS
                } else {
                    BACKOFF_SECS
                },
            }),
            WatcherState::Polling.action() == WatcherAction::Poll,
    {
    }
}

} // verus!
