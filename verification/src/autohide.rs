//! The autohide state machine of one dock window: when the dock is
//! revealed, when a hide timer runs, and what applying new settings does.
//! The caller owns the actual timer and the revealer; each step says what
//! to do with them.
use vstd::prelude::*;

use crate::config::Settings;

verus! {

/// The autohide delay of the settings: at least one second.
pub open spec fn effective_delay(delay_secs: u64) -> u64 {
    if delay_secs < 1 {
        1
    } else {
        delay_secs
    }
}

/// What to do with the hide timer after a step.
#[derive(PartialEq, Eq, Structural, Clone, Copy, Debug)]
pub struct TimerAction {
    /// Remove the pending hide timer.
    pub cancel_pending: bool,
    /// Start a hide timer of this many seconds.
    pub start_secs: Option<u64>,
}

/// The autohide state of one dock window.
pub struct AutoHide {
    enabled: bool,
    delay_secs: u64,
    revealed: bool,
    hide_pending: bool,
}

impl AutoHide {
    /// With autohide off the dock is always revealed and no hide is
    /// pending; the delay is at least one second.
    #[verifier::type_invariant]
    spec fn inv(self) -> bool {
        &&& !self.enabled ==> self.revealed && !self.hide_pending
        &&& self.delay_secs >= 1
    }

    pub closed spec fn enabled_spec(self) -> bool {
        self.enabled
    }

    pub closed spec fn delay_spec(self) -> u64 {
        self.delay_secs
    }

    pub closed spec fn revealed_spec(self) -> bool {
        self.revealed
    }

    pub closed spec fn pending_spec(self) -> bool {
        self.hide_pending
    }

    /// A revealed dock with no hide pending.
    pub fn new(enabled: bool, delay_secs: u64) -> (r: Self)
        ensures
            r.enabled_spec() == enabled,
            r.delay_spec() == effective_delay(delay_secs),
            r.revealed_spec(),
            !r.pending_spec(),
    {
        AutoHide { enabled, delay_secs: if delay_secs < 1 { 1 } else { delay_secs }, revealed: true, hide_pending: false }
    }

    /// Whether the dock is revealed; always so while autohide is off.
    pub fn revealed(&self) -> (r: bool)
        ensures
            r == self.revealed_spec(),
            !self.enabled_spec() ==> r,
    {
        proof {
            use_type_invariant(self);
        }
        self.revealed
    }

    /// Whether autohide is on.
    pub fn enabled(&self) -> (r: bool)
        ensures
            r == self.enabled_spec(),
    {
        self.enabled
    }

    /// The pointer entered the dock: reveal it and drop a pending hide.
    pub fn show(&mut self) -> (cancel_pending: bool)
        ensures
            cancel_pending == old(self).pending_spec(),
            final(self).revealed_spec(),
            !final(self).pending_spec(),
            final(self).enabled_spec() == old(self).enabled_spec(),
            final(self).delay_spec() == old(self).delay_spec(),
    {
        proof {
            use_type_invariant(&*self);
        }
        let cancel = self.hide_pending;
        self.hide_pending = false;
        self.revealed = true;
        cancel
    }

    /// The pointer left the dock: with autohide on, restart the hide timer;
    /// with it off, the dock stays revealed.
    pub fn schedule_hide(&mut self) -> (action: TimerAction)
        ensures
            old(self).enabled_spec() ==> action == (TimerAction {
                cancel_pending: old(self).pending_spec(),
                start_secs: Some(old(self).delay_spec()),
            }) && final(self).pending_spec() && final(self).revealed_spec() == old(self).revealed_spec(),
            !old(self).enabled_spec() ==> action == (TimerAction { cancel_pending: false, start_secs: None })
                && final(self).revealed_spec() && !final(self).pending_spec(),
            final(self).enabled_spec() == old(self).enabled_spec(),
            final(self).delay_spec() == old(self).delay_spec(),
    {
        proof {
            use_type_invariant(&*self);
        }
        if !self.enabled {
            self.revealed = true;
            return TimerAction { cancel_pending: false, start_secs: None };
        }
        let cancel = self.hide_pending;
        self.hide_pending = true;
        TimerAction { cancel_pending: cancel, start_secs: Some(self.delay_secs) }
    }

    /// The pending hide timer fired: hide the dock. A timer that is no
    /// longer pending changes nothing.
    pub fn hide_timer_fired(&mut self)
        ensures
            old(self).pending_spec() ==> !final(self).revealed_spec() && !final(self).pending_spec(),
            !old(self).pending_spec() ==> final(self).revealed_spec() == old(self).revealed_spec()
                && !final(self).pending_spec(),
            final(self).enabled_spec() == old(self).enabled_spec(),
            final(self).delay_spec() == old(self).delay_spec(),
    {
        proof {
            use_type_invariant(&*self);
        }
        if self.hide_pending {
            self.hide_pending = false;
            self.revealed = false;
        }
    }

    /// The dock window goes away: drop a pending hide.
    pub fn cancel_pending_hide(&mut self) -> (cancel_pending: bool)
        ensures
            cancel_pending == old(self).pending_spec(),
            !final(self).pending_spec(),
            final(self).revealed_spec() == old(self).revealed_spec(),
            final(self).enabled_spec() == old(self).enabled_spec(),
            final(self).delay_spec() == old(self).delay_spec(),
    {
        proof {
            use_type_invariant(&*self);
        }
        let cancel = self.hide_pending;
        self.hide_pending = false;
        cancel
    }

    /// Applies new autohide settings: the pending hide is dropped, the dock
    /// is revealed, and with autohide on a fresh hide timer starts.
    pub fn apply_settings(&mut self, settings: &Settings) -> (action: TimerAction)
        ensures
            final(self).enabled_spec() == settings.autohide.enabled,
            final(self).delay_spec() == effective_delay(settings.autohide.delay_secs),
            final(self).revealed_spec(),
            action.cancel_pending == old(self).pending_spec(),
            settings.autohide.enabled ==> action.start_secs == Some(effective_delay(settings.autohide.delay_secs))
                && final(self).pending_spec(),
            !settings.autohide.enabled ==> action.start_secs is None && !final(self).pending_spec(),
    {
        proof {
            use_type_invariant(&*self);
        }
        let cancel = self.hide_pending;
        let enabled = settings.autohide.enabled;
        let delay = if settings.autohide.delay_secs < 1 { 1 } else { settings.autohide.delay_secs };
        *self = AutoHide { enabled, delay_secs: delay, revealed: true, hide_pending: enabled };
        TimerAction { cancel_pending: cancel, start_secs: if enabled { Some(delay) } else { None } }
    }
}

/// Whether the dock reserves its space on the screen edge: only when it
/// never hides.
pub fn reserves_space(settings: &Settings) -> (r: bool)
    ensures
        r == !settings.autohide.enabled,
{
    !settings.autohide.enabled
}

/// The hide delay is the configured number of seconds; only a delay of
/// zero is raised to one second.
pub proof fn law_delay_is_configured(delay_secs: u64)
    ensures
        delay_secs >= 1 ==> effective_delay(delay_secs) == delay_secs,
        delay_secs == 0 ==> effective_delay(delay_secs) == 1,
{
}

} // verus!
