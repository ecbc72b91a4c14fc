//! The mathematical model of the scheduler: its state, the timer actions it
//! invokes, and what `abort`, `reset`, `trigger` and `poll` do to them.
use vstd::prelude::*;

use crate::modules::Progress;
use crate::timers::{time_left_of, Setting, TimerCall};

verus! {

/// What `poll` tells its caller to do next.
#[derive(Clone, Copy, Debug, PartialEq, Eq, Structural)]
pub enum Action {
    /// Sleep for at most this many milliseconds, then poll again.
    Sleep(u64),
    /// No timer is enabled: wait until the chain is changed.
    Forever,
    /// A module asked the scheduler to stop.
    Quit,
}

/// A side effect on a timer or a module, in the order it happened.
pub enum Event {
    /// The timer at this index was activated.
    Activated(nat),
    /// The timer at this index was aborted.
    Aborted(nat),
    /// The timer at this index was deactivated.
    Deactivated(nat),
    /// The module was told that the chain was rewound.
    ModuleReset,
}

/// The scheduler's state apart from its timers and module.
pub struct Chain {
    /// The index of the next timer that may fire.
    pub next: nat,
    /// The absolute idle time at which the current walk of the chain began.
    pub base: u64,
    /// The last absolute idle time seen.
    pub prev: u64,
    /// Whether the walk is frozen until the next reset.
    pub aborted: bool,
}

/// The index of the timer that fired last and was not deactivated, if it
/// is still in a chain of `len` timers.
pub open spec fn previous(len: nat, next: nat) -> Option<nat> {
    if 0 < next && next <= len {
        Some((next - 1) as nat)
    } else {
        None
    }
}

/// The smaller of `m` and the value in `x`, if any.
pub open spec fn fold_min(m: u64, x: Option<u64>) -> u64 {
    match x {
        Some(v) => if v < m {
            v
        } else {
            m
        },
        None => m,
    }
}

/// The index of the first enabled timer at or after `from`, or the length
/// of the chain if there is none.
pub open spec fn first_enabled(ts: Seq<Setting>, from: nat) -> nat
    decreases ts.len() - from,
{
    if from >= ts.len() {
        ts.len()
    } else if !ts[from as int].disabled {
        from
    } else {
        first_enabled(ts, from + 1)
    }
}

/// `m`, lowered to the remaining time of each disabled timer from `from`
/// up to the next enabled one, at relative idle time `rel`.
pub open spec fn fold_disabled(ts: Seq<Setting>, from: nat, rel: u64, m: u64) -> u64
    decreases ts.len() - from,
{
    if from < ts.len() && ts[from as int].disabled {
        fold_disabled(ts, from + 1, rel, fold_min(m, time_left_of(ts[from as int].time, rel)))
    } else {
        m
    }
}

/// `m`, lowered to the abort urgency of the timer that fired last.
pub open spec fn clamp_urgency(ts: Seq<Setting>, next: nat, m: u64) -> u64 {
    match previous(ts.len(), next) {
        Some(p) => fold_min(m, ts[p as int].urgency),
        None => m,
    }
}

/// The answer at position `k` of the module's answers, `Continue` if it
/// gave none there.
pub open spec fn answer(answers: Seq<Progress>, k: int) -> Progress {
    if 0 <= k < answers.len() {
        answers[k]
    } else {
        Progress::Continue
    }
}

/// Freezing the walk: the timer that fired last is aborted, once.
pub open spec fn abort_spec(len: nat, c: Chain) -> (Chain, Seq<Event>) {
    if c.aborted {
        (c, seq![])
    } else {
        (
            Chain { aborted: true, ..c },
            match previous(len, c.next) {
                Some(p) => seq![Event::Aborted(p)],
                None => seq![],
            },
        )
    }
}

/// Rewinding the walk to the start, with `epoch` as the new idle time of
/// reference.
pub open spec fn reset_spec(len: nat, c: Chain, epoch: u64) -> (Chain, Seq<Event>) {
    let (a, ev) = abort_spec(len, c);
    (
        Chain { next: 0, base: epoch, prev: epoch, aborted: false },
        if a.next > 0 {
            ev.push(Event::ModuleReset)
        } else {
            ev
        },
    )
}

/// What a module's answer does to the chain: the progress reported, the
/// new state and the events.
pub open spec fn handle_spec(len: nat, c: Chain, p: Progress, t: u64) -> (Progress, Chain, Seq<Event>) {
    match p {
        Progress::Abort => {
            let (a, ev) = abort_spec(len, c);
            (Progress::Abort, a, ev)
        },
        Progress::Reset => {
            let (a, ev) = reset_spec(len, c, t);
            (Progress::Reset, a, ev)
        },
        _ => (p, c, seq![]),
    }
}

/// The events of activating the timer at `i`: it is activated, then the
/// one that fired before it is deactivated.
pub open spec fn fired_events(len: nat, next: nat, i: nat) -> Seq<Event> {
    match previous(len, next) {
        Some(p) => seq![Event::Activated(i), Event::Deactivated(p)],
        None => seq![Event::Activated(i)],
    }
}

/// Firing the timer at `i` at absolute idle time `t`, given the module's
/// answers before and after it (`answers[0]`, `answers[1]`; an answer
/// overruled by `force`, or an error the module swallowed, counts as
/// `Continue`).
pub open spec fn trigger_spec(len: nat, c: Chain, i: nat, t: u64, answers: Seq<Progress>) -> (
    Progress,
    Chain,
    Seq<Event>,
) {
    let pre = answer(answers, 0);
    if pre != Progress::Continue {
        handle_spec(len, c, pre, t)
    } else {
        let fired = fired_events(len, c.next, i);
        let c1 = Chain { base: t, ..c };
        let post = answer(answers, 1);
        if post != Progress::Continue {
            let (p, c2, ev) = handle_spec(len, c1, post, t);
            (p, c2, fired + ev)
        } else {
            (Progress::Continue, Chain { next: i + 1, ..c1 }, fired)
        }
    }
}

/// The relative idle time at absolute idle time `t` in state `c`.
pub open spec fn relative(c: Chain, t: u64) -> u64 {
    if t >= c.base {
        (t - c.base) as u64
    } else {
        0
    }
}

/// Polling at absolute idle time `t`: the action returned, the new state
/// and the events, given the module's answers if a timer fires.
pub open spec fn poll_spec(ts: Seq<Setting>, c: Chain, t: u64, answers: Seq<Progress>) -> (
    Action,
    Chain,
    Seq<Event>,
) {
    let len = ts.len();
    let (c1, ev1) = if t < c.prev {
        reset_spec(len, c, t)
    } else {
        (c, seq![])
    };
    let c2 = Chain { prev: t, ..c1 };
    let fe = first_enabled(ts, 0);
    if fe >= len {
        (Action::Forever, c2, ev1)
    } else {
        let m0 = fold_min(u64::MAX, time_left_of(ts[fe as int].time, 0));
        if c2.aborted {
            (Action::Sleep(m0), c2, ev1)
        } else {
            let rel = relative(c2, t);
            let start = if c2.next == 0 {
                fe
            } else {
                c2.next
            };
            let cur = first_enabled(ts, start);
            let m1 = fold_disabled(ts, start, rel, m0);
            if cur >= len {
                (Action::Sleep(clamp_urgency(ts, c2.next, m1)), c2, ev1)
            } else {
                match time_left_of(ts[cur as int].time, rel) {
                    Some(x) => (
                        Action::Sleep(clamp_urgency(ts, c2.next, fold_min(m1, Some(x)))),
                        c2,
                        ev1,
                    ),
                    None => {
                        let (p, c3, ev2) = trigger_spec(len, c2, cur, t, answers);
                        if p == Progress::Stop {
                            (Action::Quit, c3, ev1 + ev2)
                        } else if p == Progress::Continue {
                            let n = first_enabled(ts, cur + 1);
                            let m2 = if n < len {
                                fold_min(m1, time_left_of(ts[n as int].time, 0))
                            } else {
                                m1
                            };
                            (Action::Sleep(clamp_urgency(ts, c3.next, m2)), c3, ev1 + ev2)
                        } else {
                            (Action::Sleep(m1), c3, ev1 + ev2)
                        }
                    },
                }
            }
        }
    }
}

/// The logs of the timers' actions after the event `e`: an event on a
/// timer adds that action to its log.
pub open spec fn step_calls(logs: Seq<Seq<TimerCall>>, e: Event) -> Seq<Seq<TimerCall>> {
    match e {
        Event::Activated(i) => if i < logs.len() {
            logs.update(i as int, logs[i as int].push(TimerCall::Activate))
        } else {
            logs
        },
        Event::Aborted(i) => if i < logs.len() {
            logs.update(i as int, logs[i as int].push(TimerCall::Abort))
        } else {
            logs
        },
        Event::Deactivated(i) => if i < logs.len() {
            logs.update(i as int, logs[i as int].push(TimerCall::Deactivate))
        } else {
            logs
        },
        Event::ModuleReset => logs,
    }
}

/// The logs of the timers' actions after the events `ev`, in order.
pub open spec fn apply_events(logs: Seq<Seq<TimerCall>>, ev: Seq<Event>) -> Seq<Seq<TimerCall>>
    decreases ev.len(),
{
    if ev.len() == 0 {
        logs
    } else {
        step_calls(apply_events(logs, ev.drop_last()), ev.last())
    }
}

/// Applying two runs of events is applying them one after the other.
pub proof fn lemma_apply_events_concat(logs: Seq<Seq<TimerCall>>, a: Seq<Event>, b: Seq<Event>)
    ensures
        apply_events(logs, a + b) == apply_events(apply_events(logs, a), b),
    decreases b.len(),
{
    if b.len() == 0 {
        assert(a + b =~= a);
    } else {
        assert((a + b).drop_last() =~= a + b.drop_last());
        assert((a + b).last() == b.last());
        lemma_apply_events_concat(logs, a, b.drop_last());
    }
}

/// The index of the timer that `poll` fires at absolute idle time `t`, if
/// it fires one.
pub open spec fn due_index(ts: Seq<Setting>, c: Chain, t: u64) -> Option<nat> {
    let len = ts.len();
    let c1 = if t < c.prev {
        reset_spec(len, c, t).0
    } else {
        c
    };
    let fe = first_enabled(ts, 0);
    let start = if c1.next == 0 {
        fe
    } else {
        c1.next
    };
    let cur = first_enabled(ts, start);
    if fe < len && !c1.aborted && cur < len && time_left_of(
        ts[cur as int].time,
        relative(c1, t),
    ) is None {
        Some(cur)
    } else {
        None
    }
}

} // verus!
