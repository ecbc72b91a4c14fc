use std::cell::Cell;
use xidlehook::chain::Action::{Forever, Quit, Sleep};
use xidlehook::cmd_timer::CmdTimer;
use xidlehook::modules::StopAt;
use xidlehook::scheduler::Xidlehook;
use xidlehook::socket::{insert_timer, query, Filter, Reply};
use xidlehook::timers::CallbackTimer;

const U: u64 = 1000;

fn cb<'a>(time: u64, f: impl Fn() + 'a) -> CallbackTimer<Box<dyn Fn() + 'a>> {
    CallbackTimer::new(time, Box::new(f))
}

fn counting<'a>(counts: &'a [Cell<u32>; 4]) -> Vec<CallbackTimer<Box<dyn Fn() + 'a>>> {
    vec![
        cb(100 * U, move || counts[0].set(counts[0].get() + 1)),
        cb(10 * U, move || counts[1].set(counts[1].get() + 1)),
        cb(50 * U, move || counts[2].set(counts[2].get() + 1)),
        cb(200 * U, move || counts[3].set(counts[3].get() + 1)),
    ]
}

fn fired(counts: &[Cell<u32>; 4]) -> [u32; 4] {
    [counts[0].get(), counts[1].get(), counts[2].get(), counts[3].get()]
}

#[test]
fn first_timer_counts_down() {
    let counts: [Cell<u32>; 4] = Default::default();
    let mut hook = Xidlehook::new(counting(&counts));
    assert_eq!(hook.poll(0).unwrap(), Sleep(100 * U));
    assert_eq!(hook.poll(20 * U).unwrap(), Sleep(80 * U));
    assert_eq!(hook.poll(99 * U).unwrap(), Sleep(U));
    assert_eq!(fired(&counts), [0, 0, 0, 0]);
}

#[test]
fn each_timer_fires_once_in_turn() {
    let counts: [Cell<u32>; 4] = Default::default();
    let mut hook = Xidlehook::new(counting(&counts));
    assert_eq!(hook.poll(100 * U).unwrap(), Sleep(10 * U));
    assert_eq!(fired(&counts), [1, 0, 0, 0]);
    assert_eq!(hook.poll(500 * U).unwrap(), Sleep(50 * U));
    assert_eq!(fired(&counts), [1, 1, 0, 0]);
    assert_eq!(hook.poll(550 * U).unwrap(), Sleep(100 * U));
    assert_eq!(fired(&counts), [1, 1, 1, 0]);
    assert_eq!(hook.poll(750 * U).unwrap(), Sleep(100 * U));
    assert_eq!(fired(&counts), [1, 1, 1, 1]);
    // Polling again at the same time fires nothing more.
    assert_eq!(hook.poll(750 * U).unwrap(), Sleep(100 * U));
    assert_eq!(fired(&counts), [1, 1, 1, 1]);
}

#[test]
fn regressed_idle_behaves_like_fresh_chain() {
    let counts: [Cell<u32>; 4] = Default::default();
    let mut hook = Xidlehook::new(counting(&counts));
    for t in [100, 500, 550, 750] {
        hook.poll(t * U).unwrap();
    }
    let fresh_counts: [Cell<u32>; 4] = Default::default();
    let mut fresh = Xidlehook::new(counting(&fresh_counts));
    assert_eq!(hook.poll(0).unwrap(), Sleep(100 * U));
    assert_eq!(fired(&counts), [1, 1, 1, 1]);
    assert_eq!(fresh.poll(0).unwrap(), Sleep(100 * U));
    for t in [20, 101, 105, 111, 200] {
        assert_eq!(hook.poll(t * U).unwrap(), fresh.poll(t * U).unwrap());
    }
    assert_eq!(fired(&counts), [2, 2, 2, 1]);
    assert_eq!(fired(&fresh_counts), [1, 1, 1, 0]);
}

#[test]
fn countdown_has_no_drift() {
    let counts: [Cell<u32>; 4] = Default::default();
    let mut hook = Xidlehook::new(counting(&counts));
    assert_eq!(hook.poll(100 * U).unwrap(), Sleep(10 * U));
    let Sleep(s1) = hook.poll(101 * U).unwrap() else { panic!() };
    let Sleep(s2) = hook.poll(104 * U + 7).unwrap() else { panic!() };
    assert_eq!(s1, 9 * U);
    assert_eq!(s2, s1 - (3 * U + 7));
}

#[test]
fn empty_chain_waits_forever() {
    let mut hook = Xidlehook::<CallbackTimer<fn()>, ()>::new(vec![]);
    for t in [0, 1, 1000, u64::MAX, 5] {
        assert_eq!(hook.poll(t).unwrap(), Forever);
    }
}

#[test]
fn disabled_first_timer_is_skipped() {
    let counts: [Cell<u32>; 4] = Default::default();
    let mut hook = Xidlehook::new(counting(&counts));
    hook.timers_mut().unwrap()[0].disabled = true;
    // Editing the chain froze it; the user's activity starts a new walk.
    assert_eq!(hook.poll(U).unwrap(), Sleep(10 * U));
    assert_eq!(hook.poll(0).unwrap(), Sleep(10 * U));
    assert_eq!(hook.poll(4 * U).unwrap(), Sleep(6 * U));
    assert_eq!(hook.poll(10 * U).unwrap(), Sleep(10 * U));
    assert_eq!(fired(&counts), [0, 1, 0, 0]);
    // Re-enabled while idle regressed: due at once when its time has passed.
    hook.timers_mut().unwrap()[0].disabled = false;
    assert_eq!(hook.poll(0).unwrap(), Sleep(100 * U));
    assert_eq!(hook.poll(150 * U).unwrap(), Sleep(10 * U));
    assert_eq!(fired(&counts), [1, 1, 0, 0]);
}

#[test]
fn stop_at_index_quits_after_that_timer() {
    let counts: [Cell<u32>; 4] = Default::default();
    let mut hook = Xidlehook::new(counting(&counts)).register(StopAt::index(1));
    assert_eq!(hook.poll(100 * U).unwrap(), Sleep(10 * U));
    assert_eq!(hook.poll(110 * U).unwrap(), Quit);
    assert_eq!(fired(&counts), [1, 1, 0, 0]);
}

#[test]
fn stop_at_completion_quits_after_last_timer() {
    let counts: [Cell<u32>; 4] = Default::default();
    let mut hook = Xidlehook::new(counting(&counts)).register(StopAt::completion());
    assert_eq!(hook.poll(100 * U).unwrap(), Sleep(10 * U));
    assert_eq!(hook.poll(110 * U).unwrap(), Sleep(50 * U));
    assert_eq!(hook.poll(160 * U).unwrap(), Sleep(100 * U));
    assert_eq!(hook.poll(360 * U).unwrap(), Quit);
    assert_eq!(fired(&counts), [1, 1, 1, 1]);
}

fn argv(parts: &[&str]) -> Vec<String> {
    parts.iter().map(|s| s.to_string()).collect()
}

#[test]
fn add_then_query_round_trip() {
    let mut timers = vec![CmdTimer::from_parts(5, vec![], vec![], vec![])];
    let added = CmdTimer::from_parts(7000, argv(&["lock"]), argv(&["unlock", "-f"]), argv(&["x"]));
    assert!(matches!(insert_timer(&mut timers, Some(0), added), Reply::Empty));
    let r = query(&timers, &Filter::One(0));
    assert_eq!(r.len(), 1);
    assert_eq!(r[0].timer, 0);
    assert_eq!(r[0].time, 7000);
    assert_eq!(r[0].activation, argv(&["lock"]));
    assert_eq!(r[0].abortion, argv(&["unlock", "-f"]));
    assert_eq!(r[0].deactivation, argv(&["x"]));
    assert!(!r[0].disabled);
}
