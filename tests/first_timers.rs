use std::cell::Cell;
use xidlehook::chain::Action::Sleep;
use xidlehook::scheduler::Xidlehook;
use xidlehook::timers::CallbackTimer;

const TEST_UNIT: u64 = 50;

fn cb<'a>(time: u64, f: impl Fn() + 'a) -> CallbackTimer<Box<dyn Fn() + 'a>> {
    CallbackTimer::new(time, Box::new(f))
}

#[test]
fn first_timer_test() {
    let triggered = Cell::new(0);

    let mut timer = Xidlehook::new(vec![
        cb(TEST_UNIT * 100, || triggered.set(triggered.get() | 1)),
        cb(TEST_UNIT * 10, || triggered.set(triggered.get() | 1 << 1)),
        cb(TEST_UNIT * 50, || triggered.set(triggered.get() | 1 << 2)),
        cb(TEST_UNIT * 200, || triggered.set(triggered.get() | 1 << 3)),
    ]);

    // Trigger all timers up to the last one.
    assert_eq!(timer.poll(TEST_UNIT * 100).unwrap(), Sleep(TEST_UNIT * 10));
    assert_eq!(timer.poll(TEST_UNIT * 110).unwrap(), Sleep(TEST_UNIT * 50));

    // The sleep would now be 200, except the first timer
    // could be reactivated by activity so sleep is limited to 100.
    assert_eq!(timer.poll(TEST_UNIT * 160).unwrap(), Sleep(TEST_UNIT * 100));
    assert_eq!(triggered.get(), 0b0111);

    timer.timers_mut().unwrap()[0].disabled = true;

    triggered.set(0);

    // Trigger all timers up to the last one. The sleep is always limited to 10 because the first
    // enabled timer can be accessed at any time and thus 10 sleep is the minimum.
    assert_eq!(timer.poll(TEST_UNIT * 0).unwrap(), Sleep(TEST_UNIT * 10));
    assert_eq!(timer.poll(TEST_UNIT * 10).unwrap(), Sleep(TEST_UNIT * 10));
    assert_eq!(timer.poll(TEST_UNIT * 60).unwrap(), Sleep(TEST_UNIT * 10));
    assert_eq!(timer.poll(TEST_UNIT * 260).unwrap(), Sleep(TEST_UNIT * 10));
    assert_eq!(triggered.get(), 0b1110);
}
