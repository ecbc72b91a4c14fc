use std::cell::Cell;
use xidlehook::chain::Action::Sleep;
use xidlehook::error::Error;
use xidlehook::modules::{Module, Progress, StopAt, TimerInfo};
use xidlehook::observers::{
    fullscreen_progress, slept_through_suspend, window_is_fullscreen, AudioCounter,
};
use xidlehook::scheduler::Xidlehook;
use xidlehook::timers::CallbackTimer;

struct Fixed {
    pre: Progress,
    post: Progress,
    asked: u32,
}

impl Module for Fixed {
    fn pre_timer(&mut self, _timer: TimerInfo) -> Result<Progress, Error> {
        self.asked += 1;
        Ok(self.pre)
    }
    fn post_timer(&mut self, _timer: TimerInfo) -> Result<Progress, Error> {
        Ok(self.post)
    }
    fn warning(&mut self, _error: &Error) -> Result<(), Error> {
        Ok(())
    }
    fn reset(&mut self) -> Result<(), Error> {
        Ok(())
    }
}

fn fixed(pre: Progress, post: Progress) -> Fixed {
    Fixed { pre, post, asked: 0 }
}

fn info(index: usize, length: usize) -> TimerInfo {
    TimerInfo { index, length }
}

#[test]
fn stop_at_answers() {
    let mut at = StopAt::index(2);
    assert_eq!(at.post_timer(info(1, 5)).unwrap(), Progress::Continue);
    assert_eq!(at.post_timer(info(2, 5)).unwrap(), Progress::Stop);
    let mut end = StopAt::completion();
    assert_eq!(end.post_timer(info(3, 5)).unwrap(), Progress::Continue);
    assert_eq!(end.post_timer(info(4, 5)).unwrap(), Progress::Stop);
    assert_eq!(end.pre_timer(info(4, 5)).unwrap(), Progress::Continue);
}

#[test]
fn list_of_modules_short_circuits() {
    let mut list = vec![
        fixed(Progress::Continue, Progress::Continue),
        fixed(Progress::Abort, Progress::Reset),
        fixed(Progress::Stop, Progress::Stop),
    ];
    assert_eq!(list.pre_timer(info(0, 1)).unwrap(), Progress::Abort);
    assert_eq!(list.post_timer(info(0, 1)).unwrap(), Progress::Reset);
    assert_eq!(list[2].asked, 0);
    let mut empty: Vec<Fixed> = vec![];
    assert_eq!(empty.pre_timer(info(0, 1)).unwrap(), Progress::Continue);
}

#[test]
fn pair_of_modules_short_circuits() {
    let mut pair = (fixed(Progress::Reset, Progress::Continue), fixed(Progress::Stop, Progress::Stop));
    assert_eq!(pair.pre_timer(info(0, 1)).unwrap(), Progress::Reset);
    assert_eq!(pair.1.asked, 0);
    assert_eq!(pair.post_timer(info(0, 1)).unwrap(), Progress::Stop);
}

#[test]
fn abort_before_a_timer_freezes_the_chain() {
    let fired = Cell::new(0);
    let timers = vec![CallbackTimer::new(10, || fired.set(fired.get() + 1))];
    let mut hook = Xidlehook::new(timers).with_module(fixed(Progress::Abort, Progress::Continue));
    assert_eq!(hook.poll(20).unwrap(), Sleep(10));
    assert_eq!(hook.poll(40).unwrap(), Sleep(10));
    assert_eq!(fired.get(), 0);
}

#[test]
fn forced_trigger_overrules_the_module() {
    let fired = Cell::new(0);
    let timers = vec![CallbackTimer::new(10, || fired.set(fired.get() + 1))];
    let mut hook = Xidlehook::new(timers).with_module(fixed(Progress::Abort, Progress::Continue));
    assert_eq!(hook.trigger(0, 3, false).unwrap(), Progress::Abort);
    assert_eq!(fired.get(), 0);
    assert_eq!(hook.trigger(0, 3, true).unwrap(), Progress::Continue);
    assert_eq!(fired.get(), 1);
}

#[test]
fn detect_sleep_setting() {
    let hook = Xidlehook::<CallbackTimer<fn()>, ()>::new(vec![]);
    assert!(!hook.detect_sleep());
    let mut hook = hook.with_detect_sleep(true);
    assert!(hook.detect_sleep());
    hook.set_detect_sleep(false);
    assert!(!hook.detect_sleep());
}

#[test]
fn audio_counter_publishes_totals() {
    let mut c = AudioCounter::new();
    assert_eq!(c.progress(), Progress::Continue);
    c.item(false);
    c.item(true);
    c.item(false);
    assert_eq!(c.progress(), Progress::Continue);
    c.end();
    assert_eq!((c.in_progress, c.last_total), (0, 2));
    assert_eq!(c.progress(), Progress::Reset);
    c.end();
    assert_eq!(c.progress(), Progress::Continue);
}

#[test]
fn fullscreen_windows() {
    assert!(window_is_fullscreen(&[3, 7], &[1], 7));
    assert!(!window_is_fullscreen(&[3, 7], &[0], 7));
    assert!(!window_is_fullscreen(&[3, 7], &[], 7));
    assert!(!window_is_fullscreen(&[3], &[1], 7));
    assert_eq!(fullscreen_progress(true), Progress::Abort);
    assert_eq!(fullscreen_progress(false), Progress::Continue);
}

#[test]
fn suspends_are_detected() {
    assert!(slept_through_suspend(1000, 4000, true));
    assert!(!slept_through_suspend(1000, 3999, true));
    assert!(!slept_through_suspend(1000, 9000, false));
    assert!(!slept_through_suspend(5000, 1000, true));
}

#[test]
fn errors_carry_messages() {
    let e = Error::new("boom".to_string());
    assert_eq!(e.message(), "boom");
}

struct Failing {
    heard: u32,
}

impl Module for Failing {
    fn pre_timer(&mut self, _timer: TimerInfo) -> Result<Progress, Error> {
        Ok(Progress::Continue)
    }
    fn post_timer(&mut self, _timer: TimerInfo) -> Result<Progress, Error> {
        Ok(Progress::Continue)
    }
    fn warning(&mut self, _error: &Error) -> Result<(), Error> {
        self.heard += 1;
        Err(Error::new(format!("warning {}", self.heard)))
    }
    fn reset(&mut self) -> Result<(), Error> {
        self.heard += 1;
        Err(Error::new(format!("reset {}", self.heard)))
    }
}

#[test]
fn every_module_hears_warnings_and_resets() {
    let mut list = vec![Failing { heard: 0 }, Failing { heard: 10 }];
    let err = list.warning(&Error::new("x".to_string())).unwrap_err();
    assert_eq!(err.message, "warning 1");
    assert_eq!((list[0].heard, list[1].heard), (1, 11));
    let err = list.reset().unwrap_err();
    assert_eq!(err.message, "reset 2");
    assert_eq!((list[0].heard, list[1].heard), (2, 12));

    let mut pair = (Failing { heard: 0 }, Failing { heard: 5 });
    assert_eq!(pair.reset().unwrap_err().message, "reset 1");
    assert_eq!(pair.1.heard, 6);
    let mut empty: Vec<Failing> = vec![];
    assert!(empty.reset().is_ok());
}
