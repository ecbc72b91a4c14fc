//! Laws of the scheduler, proved over its model.
use vstd::prelude::*;

use crate::chain::{
    answer, clamp_urgency, due_index, fired_events, first_enabled, fold_disabled, fold_min, poll_spec, relative, reset_spec, Action,
    Chain, Event,
};
use crate::cmd_timer::CmdTimer;
use crate::modules::{stop_at_progress, Progress, StopAt, TimerInfo};
use crate::scheduler::poll_answers;
use crate::socket::{filter_ids, insertion_spec, is_snapshot, kept_ids, Add, Filter, QueryResult};
use crate::timers::{time_left_of, Setting};

verus! {

proof fn lemma_fold_disabled_le(ts: Seq<Setting>, from: nat, rel: u64, m: u64)
    ensures
        fold_disabled(ts, from, rel, m) <= m,
    decreases ts.len() - from,
{
    if from < ts.len() && ts[from as int].disabled {
        lemma_fold_disabled_le(ts, from + 1, rel, fold_min(m, time_left_of(ts[from as int].time, rel)));
    }
}

proof fn lemma_first_enabled_le(ts: Seq<Setting>, from: nat, k: nat)
    requires
        from <= k < ts.len(),
        !ts[k as int].disabled,
    ensures
        from <= first_enabled(ts, from) <= k,
    decreases k - from,
{
    if ts[from as int].disabled {
        lemma_first_enabled_le(ts, from + 1, k);
    }
}

/// Folding the disabled timers later by `d` lowers no bound by more than `d`.
proof fn lemma_fold_disabled_later(
    ts: Seq<Setting>,
    from: nat,
    rel: u64,
    d: u64,
    m: u64,
    m2: u64,
    x: u64,
)
    requires
        rel + d <= u64::MAX,
        d < x,
        fold_disabled(ts, from, rel, m) >= x,
        m2 >= x - d,
    ensures
        fold_disabled(ts, from, (rel + d) as u64, m2) >= x - d,
    decreases ts.len() - from,
{
    if from < ts.len() && ts[from as int].disabled {
        let t = ts[from as int].time;
        let a = fold_min(m, time_left_of(t, rel));
        let a2 = fold_min(m2, time_left_of(t, (rel + d) as u64));
        lemma_fold_disabled_le(ts, from + 1, rel, a);
        lemma_fold_disabled_later(ts, from + 1, rel, d, a, a2, x);
    }
}

/// A countdown without drift: once `poll` at `t1` reports the remaining
/// time of the timer it waits for as the bound, a poll at a later `t2`
/// that does not reach that timer reports the same bound, less the time
/// that passed.
pub proof fn countdown_without_drift(
    ts: Seq<Setting>,
    c: Chain,
    t1: u64,
    t2: u64,
    answers1: Seq<Progress>,
    answers2: Seq<Progress>,
)
    requires
        c.prev <= t1 <= t2,
        c.base <= t1,
        !c.aborted,
        ({
            let fe = first_enabled(ts, 0);
            let start = if c.next == 0 {
                fe
            } else {
                c.next
            };
            let cur = first_enabled(ts, start);
            &&& cur < ts.len()
            &&& time_left_of(ts[cur as int].time, (t1 - c.base) as u64) matches Some(x) && t2 - t1
                < x && poll_spec(ts, c, t1, answers1).0 == Action::Sleep(x)
        }),
    ensures
        ({
            let (a1, c1, _) = poll_spec(ts, c, t1, answers1);
            let (a2, c2, ev2) = poll_spec(ts, c1, t2, answers2);
            &&& a1 matches Action::Sleep(s1)
            &&& a2 == Action::Sleep((s1 - (t2 - t1)) as u64)
            &&& c2 == (Chain { prev: t2, ..c1 })
            &&& ev2 == Seq::<Event>::empty()
        }),
{
    let fe = first_enabled(ts, 0);
    let start = if c.next == 0 {
        fe
    } else {
        c.next
    };
    let cur = first_enabled(ts, start);
    let rel1 = (t1 - c.base) as u64;
    let d = (t2 - t1) as u64;
    let x = time_left_of(ts[cur as int].time, rel1)->Some_0;
    let c1 = poll_spec(ts, c, t1, answers1).1;
    assert(c1 == Chain { prev: t1, ..c });
    assert(relative(c1, t2) == rel1 + d);
    let m0 = fold_min(u64::MAX, time_left_of(ts[fe as int].time, 0));
    let m1 = fold_disabled(ts, start, rel1, m0);
    lemma_fold_disabled_le(ts, start, rel1, m0);
    assert(clamp_urgency(ts, c.next, fold_min(m1, Some(x))) == x);
    assert(fold_min(m1, Some(x)) >= x);
    assert(m1 >= x);
    lemma_fold_disabled_later(ts, start, rel1, d, m0, m0, x);
}

/// An empty chain has nothing to do: `poll` says to wait for a change
/// and invokes no timer action.
pub proof fn empty_chain_waits_forever(c: Chain, t: u64, answers: Seq<Progress>)
    ensures
        ({
            let (a, _, ev) = poll_spec(Seq::<Setting>::empty(), c, t, answers);
            &&& a == Action::Forever
            &&& forall|i: int| 0 <= i < ev.len() ==> ev[i] == Event::ModuleReset
        }),
{
    let (a, _, ev) = poll_spec(Seq::<Setting>::empty(), c, t, answers);
    assert(first_enabled(Seq::<Setting>::empty(), 0) == 0);
}

/// A disabled first timer is passed over: from the start of a walk, `poll`
/// reports the second timer's remaining time and touches no timer; once
/// the second timer is due it fires that one, and only that one.
pub proof fn disabled_first_timer_is_skipped(
    ts: Seq<Setting>,
    c: Chain,
    t: u64,
    answers: Seq<Progress>,
)
    requires
        ts.len() >= 2,
        ts[0].disabled,
        !ts[1].disabled,
        c.next == 0,
        !c.aborted,
        c.base <= c.prev <= t,
    ensures
        ({
            let (a, c2, ev) = poll_spec(ts, c, t, answers);
            let rel = (t - c.base) as u64;
            &&& rel < ts[1].time ==> a == Action::Sleep((ts[1].time - rel) as u64) && ev
                == Seq::<Event>::empty()
            &&& ts[1].time <= rel && answer(answers, 0) == Progress::Continue ==> ev
                == seq![Event::Activated(1)]
        }),
{
    assert(first_enabled(ts, 1) == 1);
    assert(first_enabled(ts, 0) == 1);
    assert(fold_disabled(ts, 1, (t - c.base) as u64, fold_min(u64::MAX, time_left_of(ts[1].time, 0))) == fold_min(u64::MAX, time_left_of(ts[1].time, 0)));
}

/// An enabled first timer whose threshold has passed fires on the very
/// next poll of a walk that is at its start and not frozen.
pub proof fn due_first_timer_fires(ts: Seq<Setting>, c: Chain, t: u64, answers: Seq<Progress>)
    requires
        ts.len() >= 1,
        !ts[0].disabled,
        c.next == 0,
        !c.aborted,
        c.base <= c.prev <= t,
        ts[0].time <= t - c.base,
        answer(answers, 0) == Progress::Continue,
    ensures
        poll_spec(ts, c, t, answers).2 == seq![Event::Activated(0)],
{
    assert(first_enabled(ts, 0) == 0);
    assert(fold_disabled(ts, 0, (t - c.base) as u64, fold_min(u64::MAX, time_left_of(ts[0].time, 0))) == fold_min(u64::MAX, time_left_of(ts[0].time, 0)));
}

/// When the idle time goes down, the user was active: `poll` behaves as it
/// would on a fresh walk that starts at that idle time.
pub proof fn regressed_idle_restarts_walk(ts: Seq<Setting>, c: Chain, t: u64, answers: Seq<Progress>)
    requires
        t < c.prev,
    ensures
        ({
            let fresh = Chain { next: 0, base: t, prev: t, aborted: false };
            let (a, c2, _) = poll_spec(ts, c, t, answers);
            let (fa, fc2, fev) = poll_spec(ts, fresh, t, answers);
            &&& a == fa
            &&& c2 == fc2
            &&& fev == poll_spec(ts, c, t, answers).2.skip(
                (poll_spec(ts, c, t, answers).2.len() - fev.len()) as int,
            )
        }),
{
    let fresh = Chain { next: 0, base: t, prev: t, aborted: false };
    let ev = poll_spec(ts, c, t, answers).2;
    let fev = poll_spec(ts, fresh, t, answers).2;
    let ev1 = reset_spec(ts.len(), c, t).1;
    assert(Seq::<Event>::empty() + fev =~= fev);
    assert(ev =~= ev1 + fev);
    assert(ev.skip(ev1.len() as int) =~= fev);
}

/// With a module that stops after the timer at `k`, the poll that fires
/// that timer returns `Quit`, and it activates no other timer.
pub proof fn stop_after_index_quits(
    ts: Seq<Setting>,
    c: Chain,
    t: u64,
    k: usize,
)
    requires
        k < ts.len() <= usize::MAX,
        !ts[k as int].disabled,
        c.next == k,
        !c.aborted,
        c.base <= c.prev <= t,
        ts[k as int].time <= t - c.base,
    ensures
        ({
            let info = TimerInfo { index: k, length: ts.len() as usize };
            let answers = seq![Progress::Continue, stop_at_progress(Some(k), info)];
            let (a, c2, ev) = poll_spec(ts, c, t, answers);
            &&& a == Action::Quit
            &&& ev == fired_events(ts.len(), k as nat, k as nat)
        }),
{
    let info = TimerInfo { index: k, length: ts.len() as usize };
    assert(stop_at_progress(Some(k), info) == Progress::Stop);
    assert(first_enabled(ts, k as nat) == k);
    let fe = first_enabled(ts, 0);
    lemma_first_enabled_le(ts, 0, k as nat);
    let fired = fired_events(ts.len(), k as nat, k as nat);
    assert(fired + Seq::<Event>::empty() =~= fired);
    assert(Seq::<Event>::empty() + fired =~= fired);
    assert(fold_disabled(ts, k as nat, (t - c.base) as u64, fold_min(u64::MAX, time_left_of(ts[fe as int].time, 0))) == fold_min(u64::MAX, time_left_of(ts[fe as int].time, 0)));
}

/// With `StopAt` at `k` registered after the empty module, the poll that
/// fires the timer at `k` returns `Quit` and activates no other timer: the
/// answers it gets are those the modules' contracts name.
pub proof fn stop_at_module_quits(ts: Seq<Setting>, c: Chain, t: u64, k: usize)
    requires
        k < ts.len() <= usize::MAX,
        !ts[k as int].disabled,
        c.next == k,
        !c.aborted,
        c.base <= c.prev <= t,
        ts[k as int].time <= t - c.base,
    ensures
        ({
            let m = ((), StopAt { stop_after: Some(k) });
            let (a, _, ev) = poll_spec(ts, c, t, poll_answers(m, ts, c, t));
            &&& a == Action::Quit
            &&& ev == fired_events(ts.len(), k as nat, k as nat)
        }),
{
    let info = TimerInfo { index: k, length: ts.len() as usize };
    lemma_first_enabled_le(ts, 0, k as nat);
    assert(first_enabled(ts, k as nat) == k);
    assert(due_index(ts, c, t) == Some(k as nat));
    let m = ((), StopAt { stop_after: Some(k) });
    assert(poll_answers(m, ts, c, t) =~= seq![Progress::Continue, stop_at_progress(Some(k), info)]);
    stop_after_index_quits(ts, c, t, k);
}

/// A round trip through the protocol: once the timer `c` built from the
/// `Add` request `add` is inserted where `add` asks, a query selecting the
/// position it was given yields exactly one snapshot, under that id, whose
/// fields are those that were submitted.
pub proof fn add_then_query_round_trip(timers: Seq<CmdTimer>, add: Add, c: CmdTimer, q: QueryResult)
    requires
        insertion_spec(add.index, timers.len()) is Some,
        timers.len() < u16::MAX,
        c.time == add.time,
        c.activation@ == add.activation@,
        c.abortion@ == add.abortion@,
        c.deactivation@ == add.deactivation@,
        !c.disabled,
    ensures
        ({
            let i = insertion_spec(add.index, timers.len())->Some_0;
            let after = timers.insert(i as int, c);
            let ids = kept_ids(filter_ids(Filter::One(i as u16), after.len() as u16), after.len());
            &&& ids == seq![i as u16]
            &&& is_snapshot(q, ids[0], after[ids[0] as int]) ==> {
                &&& q.timer == i
                &&& q.time == add.time
                &&& q.activation@ == add.activation@
                &&& q.abortion@ == add.abortion@
                &&& q.deactivation@ == add.deactivation@
                &&& !q.disabled
            }
        }),
{
    let i = insertion_spec(add.index, timers.len())->Some_0;
    let after = timers.insert(i as int, c);
    let one = seq![i as u16];
    assert(filter_ids(Filter::One(i as u16), after.len() as u16) == one);
    assert(one.drop_last() =~= Seq::<u16>::empty());
    assert(kept_ids(Seq::<u16>::empty(), after.len()) == Seq::<u16>::empty());
    assert(Seq::<u16>::empty().push(i as u16) =~= one);
}

} // verus!
