use std::cell::RefCell;
use std::rc::Rc;
use xidlehook::chain::Action::Sleep;
use xidlehook::cmd_timer::{CmdTimer, CommandTimer, Runner};
use xidlehook::error::Error;
use xidlehook::scheduler::Xidlehook;
use xidlehook::timers::{Timer, TimerCall};

#[derive(Clone, Default)]
struct Recorder {
    ran: Rc<RefCell<Vec<(TimerCall, Vec<String>)>>>,
}

impl Runner for Recorder {
    fn run(&mut self, call: TimerCall, argv: &Vec<String>) -> Result<(), Error> {
        self.ran.borrow_mut().push((call, argv.clone()));
        Ok(())
    }
}

fn argv(parts: &[&str]) -> Vec<String> {
    parts.iter().map(|s| s.to_string()).collect()
}

#[test]
fn command_timers_run_their_commands() {
    let rec = Recorder::default();
    let first = CmdTimer::from_parts(10, argv(&["dim"]), argv(&["undim"]), argv(&["off"]));
    let second = CmdTimer::from_parts(5, argv(&["lock"]), vec![], vec![]);
    let mut hook = Xidlehook::new(vec![
        CommandTimer::new(first, rec.clone()),
        CommandTimer::new(second, rec.clone()),
    ]);
    assert_eq!(hook.timers()[0].abort_urgency(), Some(1000));
    assert_eq!(hook.timers()[1].abort_urgency(), None);
    // The first timer has an abortion command, so the bound is clamped to it.
    assert_eq!(hook.poll(10).unwrap(), Sleep(5));
    assert_eq!(hook.poll(15).unwrap(), Sleep(10));
    // The user comes back: the last timer that fired is aborted, and it has none.
    assert_eq!(hook.poll(1).unwrap(), Sleep(10));
    let ran = rec.ran.borrow();
    assert_eq!(
        *ran,
        vec![
            (TimerCall::Activate, argv(&["dim"])),
            (TimerCall::Activate, argv(&["lock"])),
            (TimerCall::Deactivate, argv(&["off"])),
        ]
    );
}

#[test]
fn aborting_runs_the_abortion_command() {
    let rec = Recorder::default();
    let first = CmdTimer::from_parts(10, argv(&["dim"]), argv(&["undim"]), vec![]);
    let mut hook = Xidlehook::new(vec![CommandTimer::new(first, rec.clone())]);
    assert_eq!(hook.poll(10).unwrap(), Sleep(10));
    assert_eq!(hook.poll(2).unwrap(), Sleep(10));
    assert_eq!(
        *rec.ran.borrow(),
        vec![(TimerCall::Activate, argv(&["dim"])), (TimerCall::Abort, argv(&["undim"]))]
    );
}
