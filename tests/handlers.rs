use xidlehook::cmd_timer::{CmdTimer, CommandTimer, DryRun};
use xidlehook::error::Error;
use xidlehook::modules::{Module, Progress, StopAt, TimerInfo};
use xidlehook::scheduler::Xidlehook;
use xidlehook::socket::{Action, Add, Control, Filter, IdleSource, Query, Reply};
use xidlehook::timers::TimerCall;

struct FixedIdle(u64);

impl IdleSource for FixedIdle {
    fn get_idle(&self) -> Result<u64, Error> {
        Ok(self.0)
    }
}

fn argv(parts: &[&str]) -> Vec<String> {
    parts.iter().map(|s| s.to_string()).collect()
}

fn chain(times: &[u64]) -> Vec<CommandTimer<DryRun>> {
    times
        .iter()
        .map(|&t| {
            let cfg = CmdTimer::from_parts(t, argv(&[&format!("run{}", t)]), vec![], vec![]);
            CommandTimer::new(cfg, DryRun::new())
        })
        .collect()
}

fn times(hook: &Xidlehook<CommandTimer<DryRun>, impl Module>) -> Vec<u64> {
    hook.timers().iter().map(|t| t.config.time).collect()
}

fn disabled(hook: &Xidlehook<CommandTimer<DryRun>, impl Module>) -> Vec<bool> {
    hook.timers().iter().map(|t| t.config.disabled).collect()
}

#[test]
fn control_deletes_selected_original_positions() {
    let mut hook = Xidlehook::new(chain(&[10, 20, 30, 40]));
    let ctl = Control { timer: Filter::Selected(vec![1, 3]), action: Action::Delete };
    assert!(matches!(hook.handle_control(&ctl, &FixedIdle(0)).unwrap(), Some(Reply::Empty)));
    assert_eq!(times(&hook), vec![10, 30]);
    let all = Control { timer: Filter::All, action: Action::Delete };
    assert!(matches!(hook.handle_control(&all, &FixedIdle(0)).unwrap(), Some(Reply::Empty)));
    assert!(hook.timers().is_empty());
}

#[test]
fn control_disables_and_enables_only_selected() {
    let mut hook = Xidlehook::new(chain(&[10, 20, 30]));
    let off = Control { timer: Filter::Selected(vec![0, 2, 9]), action: Action::Disable };
    hook.handle_control(&off, &FixedIdle(0)).unwrap();
    assert_eq!(disabled(&hook), vec![true, false, true]);
    let on = Control { timer: Filter::One(2), action: Action::Enable };
    hook.handle_control(&on, &FixedIdle(0)).unwrap();
    assert_eq!(disabled(&hook), vec![true, false, false]);
}

#[test]
fn control_trigger_fires_and_stop_ends_without_reply() {
    let mut hook = Xidlehook::new(chain(&[10, 20, 30])).register(StopAt::index(1));
    let fire = Control { timer: Filter::Selected(vec![0, 1, 2]), action: Action::Trigger };
    assert!(hook.handle_control(&fire, &FixedIdle(5)).unwrap().is_none());
    let ran: Vec<usize> = hook.timers().iter().map(|t| t.runner.ran.len()).collect();
    assert_eq!(ran, vec![1, 1, 0]);
    assert_eq!(hook.timers()[1].runner.ran[0], (TimerCall::Activate, argv(&["run20"])));
}

#[test]
fn add_then_query_through_the_scheduler() {
    let mut hook = Xidlehook::new(chain(&[10]));
    let add = Add {
        index: Some(0),
        time: 7000,
        activation: argv(&["lock"]),
        abortion: argv(&["unlock"]),
        deactivation: vec![],
    };
    assert!(matches!(hook.handle_add(add, DryRun::new()).unwrap(), Reply::Empty));
    let r = hook.handle_query(&Query { timer: Filter::One(0) });
    assert_eq!(r.len(), 1);
    assert_eq!((r[0].timer, r[0].time, r[0].disabled), (0, 7000, false));
    assert_eq!(r[0].activation, argv(&["lock"]));
    assert_eq!(r[0].abortion, argv(&["unlock"]));
    assert!(r[0].deactivation.is_empty());
    let bad = Add { index: Some(5), time: 1, activation: vec![], abortion: vec![], deactivation: vec![] };
    match hook.handle_add(bad, DryRun::new()).unwrap() {
        Reply::Error(m) => assert_eq!(m, "index > length"),
        _ => panic!("expected an error"),
    }
    assert_eq!(times(&hook), vec![7000, 10]);
}

struct Broken {
    swallow: bool,
}

impl Module for Broken {
    fn pre_timer(&mut self, _timer: TimerInfo) -> Result<Progress, Error> {
        Err(Error::new("pre".to_string()))
    }
    fn post_timer(&mut self, _timer: TimerInfo) -> Result<Progress, Error> {
        Ok(Progress::Continue)
    }
    fn warning(&mut self, error: &Error) -> Result<(), Error> {
        if self.swallow {
            Ok(())
        } else {
            Err(Error::new(format!("fatal {}", error.message)))
        }
    }
    fn reset(&mut self) -> Result<(), Error> {
        Err(Error::new("reset".to_string()))
    }
}

#[test]
fn hook_errors_go_through_warning() {
    let mut hook = Xidlehook::new(chain(&[10])).with_module(Broken { swallow: false });
    assert_eq!(hook.trigger(0, 0, false).unwrap_err().message, "fatal pre");
    assert!(hook.timers()[0].runner.ran.is_empty());

    let mut hook = Xidlehook::new(chain(&[10])).with_module(Broken { swallow: true });
    assert_eq!(hook.trigger(0, 0, false).unwrap(), Progress::Continue);
    assert_eq!(hook.timers()[0].runner.ran.len(), 1);
    // The cursor advanced, so a reset tells the module; its error is swallowed.
    assert!(hook.reset(0).is_ok());

    let mut hook = Xidlehook::new(chain(&[10])).with_module(Broken { swallow: true });
    hook.trigger(0, 0, true).unwrap();
    let mut strict = hook.with_module(Broken { swallow: false });
    assert_eq!(strict.reset(0).unwrap_err().message, "fatal reset");
}
