use xidlehook::chain::Action::Forever;
use xidlehook::scheduler::Xidlehook;
use xidlehook::timers::CallbackTimer;

#[test]
fn no_timers() {
    let mut timer = Xidlehook::<CallbackTimer<fn()>, ()>::new(vec![]);

    assert_eq!(timer.poll(0).unwrap(), Forever);
}
