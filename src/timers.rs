//! The timer trait and a timer that runs a callback.
use vstd::prelude::*;

use crate::error::Error;

verus! {

/// What the scheduler can observe of a timer: its threshold, whether it
/// is currently disabled and how soon it wants to be polled after activity.
pub struct Setting {
    pub time: u64,
    pub disabled: bool,
    pub urgency: Option<u64>,
}

/// The remaining time before a timer with threshold `time` is due, after
/// `idle` milliseconds of relative idle time. `None` means "due": no time,
/// or less than none, is left.
pub open spec fn time_left_of(time: u64, idle: u64) -> Option<u64> {
    if idle < time {
        Some((time - idle) as u64)
    } else {
        None
    }
}

/// Executable form of `time_left_of`.
pub fn remaining(time: u64, idle: u64) -> (r: Option<u64>)
    ensures
        r == time_left_of(time, idle),
{
    if idle < time {
        Some(time - idle)
    } else {
        None
    }
}

/// An action a timer performed, as the scheduler asked.
#[derive(Clone, Copy, Debug, PartialEq, Eq, Structural)]
pub enum TimerCall {
    /// It was activated.
    Activate,
    /// It was aborted.
    Abort,
    /// It was deactivated.
    Deactivate,
}

/// A timer of the chain: after how much relative idle time it is due, and
/// what activating, aborting and deactivating it means. All times are in
/// milliseconds.
pub trait Timer {
    /// What the scheduler observes of this timer.
    spec fn setting(&self) -> Setting;

    /// Whether every call on this timer succeeds.
    open spec fn infallible(&self) -> bool {
        false
    }

    /// The actions this timer performed so far, in order.
    open spec fn calls(&self) -> Seq<TimerCall> {
        Seq::empty()
    }

    /// The time left before this timer is due, given the idle time since
    /// the previous activation.
    fn time_left(&mut self, idle_time: u64) -> (r: Result<Option<u64>, Error>)
        ensures
            final(self).setting() == old(self).setting(),
            final(self).infallible() == old(self).infallible(),
            final(self).calls() == old(self).calls(),
            old(self).infallible() ==> r is Ok,
            r is Ok ==> r->Ok_0 == time_left_of(old(self).setting().time, idle_time),
    ;

    /// How soon this timer wants to be polled once the user is active
    /// again; `None` means any delay is fine.
    fn abort_urgency(&self) -> (r: Option<u64>)
        ensures
            r == self.setting().urgency,
    ;

    /// Called when the timer is due.
    fn activate(&mut self) -> (r: Result<(), Error>)
        ensures
            final(self).setting() == old(self).setting(),
            final(self).infallible() == old(self).infallible(),
            final(self).calls() == old(self).calls().push(TimerCall::Activate),
            old(self).infallible() ==> r is Ok,
    ;

    /// Called when the user became active after this timer fired, before
    /// the next one did.
    fn abort(&mut self) -> (r: Result<(), Error>)
        ensures
            final(self).setting() == old(self).setting(),
            final(self).infallible() == old(self).infallible(),
            final(self).calls() == old(self).calls().push(TimerCall::Abort),
            old(self).infallible() ==> r is Ok,
    ;

    /// Called when the next timer of the chain fired after this one.
    fn deactivate(&mut self) -> (r: Result<(), Error>)
        ensures
            final(self).setting() == old(self).setting(),
            final(self).infallible() == old(self).infallible(),
            final(self).calls() == old(self).calls().push(TimerCall::Deactivate),
            old(self).infallible() ==> r is Ok,
    ;

    /// Whether the timer is disabled and must be skipped.
    fn disabled(&mut self) -> (r: bool)
        ensures
            final(self).setting() == old(self).setting(),
            final(self).infallible() == old(self).infallible(),
            final(self).calls() == old(self).calls(),
            r == old(self).setting().disabled,
    ;
}

/// A timer that runs a callback when it is activated.
pub struct CallbackTimer<F: Fn()> {
    time: u64,
    f: F,
    /// Whether or not to skip this timer.
    pub disabled: bool,
    /// The actions performed so far.
    performed: Ghost<Seq<TimerCall>>,
}

impl<F: Fn()> CallbackTimer<F> {
    /// A timer due after `time` milliseconds that calls `f` when activated.
    pub fn new(time: u64, f: F) -> (r: Self)
        requires
            f.requires(()),
        ensures
            r.setting() == (Setting { time, disabled: false, urgency: None }),
            r.infallible(),
            r.calls() == Seq::<TimerCall>::empty(),
            r.callback() == f,
    {
        Self::new_unboxed(time, f)
    }

    /// A timer due after `time` milliseconds that calls `f` when activated.
    pub fn new_unboxed(time: u64, f: F) -> (r: Self)
        requires
            f.requires(()),
        ensures
            r.setting() == (Setting { time, disabled: false, urgency: None }),
            r.infallible(),
            r.calls() == Seq::<TimerCall>::empty(),
            r.callback() == f,
    {
        CallbackTimer { time, f, disabled: false, performed: Ghost(Seq::empty()) }
    }

    /// The callback.
    pub closed spec fn callback(&self) -> F {
        self.f
    }

    /// The callback may be called.
    #[verifier::type_invariant]
    spec fn callable(&self) -> bool {
        self.f.requires(())
    }
}

impl<F: Fn()> Timer for CallbackTimer<F> {
    closed spec fn setting(&self) -> Setting {
        Setting { time: self.time, disabled: self.disabled, urgency: None }
    }

    open spec fn infallible(&self) -> bool {
        true
    }

    closed spec fn calls(&self) -> Seq<TimerCall> {
        self.performed@
    }

    fn time_left(&mut self, idle_time: u64) -> (r: Result<Option<u64>, Error>) {
        Ok(remaining(self.time, idle_time))
    }

    fn abort_urgency(&self) -> (r: Option<u64>) {
        None
    }

    /// Calls the callback.
    fn activate(&mut self) -> (r: Result<(), Error>)
        ensures
            r is Ok,
            final(self).callback() == old(self).callback(),
            old(self).callback().ensures((), ()),
    {
        proof {
            use_type_invariant(&*self);
        }
        (self.f)();
        self.performed = Ghost(self.performed@.push(TimerCall::Activate));
        Ok(())
    }

    fn abort(&mut self) -> (r: Result<(), Error>) {
        proof {
            use_type_invariant(&*self);
        }
        self.performed = Ghost(self.performed@.push(TimerCall::Abort));
        Ok(())
    }

    fn deactivate(&mut self) -> (r: Result<(), Error>) {
        proof {
            use_type_invariant(&*self);
        }
        self.performed = Ghost(self.performed@.push(TimerCall::Deactivate));
        Ok(())
    }

    fn disabled(&mut self) -> (r: bool) {
        self.disabled
    }
}

} // verus!
