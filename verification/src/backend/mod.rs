//! Window tracking backends: the hand-off of window snapshots to the dock,
//! the reconnection back-off, and the compositor-specific state machines.
use vstd::prelude::*;

use crate::model::{windows_view, WindowState, WindowStateView};

pub mod niri;
pub mod wayland;

verus! {

/// A coalescing hand-off of window snapshots from a backend to the dock:
/// a newer snapshot supersedes an older one that was not taken yet, so
/// only the latest is ever kept.
pub struct EventMailbox {
    latest: Option<Vec<WindowState>>,
}

impl View for EventMailbox {
    type V = Option<Seq<WindowStateView>>;

    closed spec fn view(&self) -> Option<Seq<WindowStateView>> {
        match self.latest {
            Some(s) => Some(windows_view(s@)),
            None => None,
        }
    }
}

impl Default for EventMailbox {
    fn default() -> (r: Self)
        ensures
            r@ is None,
    {
        EventMailbox { latest: None }
    }
}

/// The mailbox after publishing `snapshot`: it holds that snapshot only.
pub open spec fn after_publish(
    m: Option<Seq<WindowStateView>>,
    snapshot: Seq<WindowStateView>,
) -> Option<Seq<WindowStateView>> {
    Some(snapshot)
}

/// Taking from the mailbox: what it held, and the mailbox left empty.
pub open spec fn after_take(m: Option<Seq<WindowStateView>>) -> (
    Option<Seq<WindowStateView>>,
    Option<Seq<WindowStateView>>,
) {
    (m, None)
}

impl EventMailbox {
    /// An empty mailbox.
    pub fn new() -> (r: Self)
        ensures
            r@ is None,
    {
        EventMailbox { latest: None }
    }

    /// Leaves `snapshot` as the latest, replacing any snapshot not taken yet.
    pub fn publish(&mut self, snapshot: Vec<WindowState>)
        ensures
            final(self)@ == after_publish(old(self)@, windows_view(snapshot@)),
    {
        self.latest = Some(snapshot);
    }

    /// Takes the latest snapshot, if any, leaving the mailbox empty.
    pub fn take_latest(&mut self) -> (r: Option<Vec<WindowState>>)
        ensures
            match r {
                Some(s) => after_take(old(self)@).0 == Some(windows_view(s@)),
                None => after_take(old(self)@).0 is None,
            },
            final(self)@ == after_take(old(self)@).1,
    {
        let r = self.latest.take();
        r
    }
}

/// Only the latest snapshot is kept: whatever the mailbox held, after two
/// publishes a take yields the second snapshot, and a second take yields
/// nothing.
pub proof fn law_mailbox_keeps_latest(
    m: Option<Seq<WindowStateView>>,
    first: Seq<WindowStateView>,
    second: Seq<WindowStateView>,
)
    ensures
        after_take(after_publish(after_publish(m, first), second)).0 == Some(second),
        after_take(after_take(after_publish(after_publish(m, first), second)).1).0 is None,
{
}

/// The reconnection back-off of a backend's event loop: after a session
/// that lasted long (30 s or more) the delay starts over at one second;
/// the loop sleeps for the delay, and the next delay doubles, capped at
/// 30 seconds. The sleep, then the next delay.
pub open spec fn backoff(delay_secs: u64, session_lasted_long: bool) -> (int, int) {
    let sleep: int = if session_lasted_long { 1 } else { delay_secs as int };
    (sleep, if 2 * sleep < 30 { 2 * sleep } else { 30 })
}

/// The back-off step (see [`backoff`]): returns the sleep and the next delay.
pub fn reconnect_backoff(delay_secs: u64, session_lasted_long: bool) -> (r: (u64, u64))
    requires
        delay_secs <= u64::MAX / 2,
    ensures
        r.0 == backoff(delay_secs, session_lasted_long).0,
        r.1 == backoff(delay_secs, session_lasted_long).1,
{
    let sleep = if session_lasted_long { 1 } else { delay_secs };
    let doubled = sleep * 2;
    let next = if doubled < 30 { doubled } else { 30 };
    (sleep, next)
}

/// Starting from one second, the back-off never sleeps less than one
/// second nor more than thirty, and the next delay stays in that range.
pub proof fn law_backoff_bounded(delay_secs: u64, long: bool)
    requires
        1 <= delay_secs <= 30,
    ensures
        1 <= backoff(delay_secs, long).0 <= 30,
        1 <= backoff(delay_secs, long).1 <= 30,
{
}

} // verus!
