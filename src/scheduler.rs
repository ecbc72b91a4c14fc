//! The scheduler: an ordered chain of timers and a module, driven by the
//! absolute idle time handed to `poll`.
use vstd::prelude::*;

use crate::chain::{
    abort_spec, apply_events, clamp_urgency, due_index, fired_events, first_enabled,
    fold_disabled, handle_spec, lemma_apply_events_concat, poll_spec, previous, reset_spec,
    step_calls, trigger_spec, Action, Chain, Event,
};
use crate::cmd_timer::{configs_of, CmdTimer, CommandTimer, Runner};
use crate::error::Error;
use crate::socket::{
    control_targets, edited, filter_ids, insert_timer, insertion_spec, is_snapshot, kept_ids,
    snapshot, targets_spec, Action as ControlAction, Add, Control, IdleSource, Query, QueryResult,
    Reply,
};
use crate::modules::{Module, Progress, TimerInfo};
use crate::timers::{time_left_of, Setting, Timer, TimerCall};

verus! {

/// What the scheduler observes of each timer of `ts`.
pub open spec fn settings_of<T: Timer>(ts: Seq<T>) -> Seq<Setting> {
    Seq::new(ts.len(), |i: int| ts[i].setting())
}

/// Every timer of `ts` is infallible.
pub open spec fn infallible_of<T: Timer>(ts: Seq<T>) -> bool {
    forall|i: int| 0 <= i < ts.len() ==> #[trigger] ts[i].infallible()
}

/// The actions each timer of `ts` performed so far.
pub open spec fn calls_of<T: Timer>(ts: Seq<T>) -> Seq<Seq<TimerCall>> {
    Seq::new(ts.len(), |i: int| ts[i].calls())
}

/// The event that records the action `call` of the timer at `i`.
pub open spec fn event_of(call: TimerCall, i: nat) -> Event {
    match call {
        TimerCall::Activate => Event::Activated(i),
        TimerCall::Abort => Event::Aborted(i),
        TimerCall::Deactivate => Event::Deactivated(i),
    }
}

/// The answers a steady module `m` gives when the timer `info` is fired,
/// its answer before firing overruled when `force` holds.
pub open spec fn trigger_answers<M: Module>(m: M, info: TimerInfo, force: bool) -> Seq<Progress> {
    let pre = if force {
        Progress::Continue
    } else {
        m.pre_answer(info)
    };
    if pre != Progress::Continue {
        seq![pre]
    } else {
        seq![pre, m.post_answer(info)]
    }
}

/// The answers a steady module `m` gives during a poll at absolute idle
/// time `t` of the chain `ts` in state `c`.
pub open spec fn poll_answers<M: Module>(m: M, ts: Seq<Setting>, c: Chain, t: u64) -> Seq<
    Progress,
> {
    match due_index(ts, c, t) {
        Some(i) => trigger_answers(m, TimerInfo { index: i as usize, length: ts.len() as usize }, false),
        None => seq![],
    }
}

/// A call of the scheduler on its module, with what the call returned.
pub enum HookCall {
    /// It was asked about a timer, before it fires (`true`) or after.
    Asked(bool, TimerInfo, Result<Progress, Error>),
    /// It was handed an error as a warning.
    Warned(Error, Result<(), Error>),
    /// It was told that the chain was rewound.
    Reset(Result<(), Error>),
}

/// The calls `h` of one question to the module about `info`, and what it
/// came to: the answer, overruled to `Continue` before firing when `force`
/// holds; or an error handed to `warning`, which swallows it into
/// `Continue` or rethrows its own.
pub open spec fn consult_spec(
    h: Seq<HookCall>,
    info: TimerInfo,
    before: bool,
    force: bool,
    r: Result<Progress, Error>,
) -> bool {
    &&& h.len() >= 1
    &&& h[0] is Asked
    &&& h[0]->Asked_0 == before
    &&& h[0]->Asked_1 == info
    &&& match h[0]->Asked_2 {
        Ok(p) => h.len() == 1 && r == Ok::<Progress, Error>(
            if before && force {
                Progress::Continue
            } else {
                p
            },
        ),
        Err(e) => {
            &&& h.len() == 2
            &&& h[1] is Warned
            &&& h[1]->Warned_0 == e
            &&& match h[1]->Warned_1 {
                Ok(()) => r == Ok::<Progress, Error>(Progress::Continue),
                Err(e2) => r == Err::<Progress, Error>(e2),
            }
        },
    }
}

/// The calls `h` of telling the module that the chain was rewound, and
/// what it came to: an error goes to `warning`, which swallows it or
/// rethrows its own.
pub open spec fn module_reset_spec(h: Seq<HookCall>, r: Result<(), Error>) -> bool {
    &&& h.len() >= 1
    &&& h[0] is Reset
    &&& match h[0]->Reset_0 {
        Ok(()) => h.len() == 1 && r is Ok,
        Err(e) => {
            &&& h.len() == 2
            &&& h[1] is Warned
            &&& h[1]->Warned_0 == e
            &&& match h[1]->Warned_1 {
                Ok(()) => r is Ok,
                Err(e2) => r == Err::<(), Error>(e2),
            }
        },
    }
}

proof fn lemma_timer_update<T: Timer>(ts: Seq<T>, i: int, x: T)
    requires
        0 <= i < ts.len(),
        x.setting() == ts[i].setting(),
        x.infallible() == ts[i].infallible(),
    ensures
        settings_of(ts.update(i, x)) == settings_of(ts),
        infallible_of(ts.update(i, x)) == infallible_of(ts),
        calls_of(ts.update(i, x)) == calls_of(ts).update(i, x.calls()),
{
    assert(settings_of(ts.update(i, x)) =~= settings_of(ts));
    assert(calls_of(ts.update(i, x)) =~= calls_of(ts).update(i, x.calls()));
    if infallible_of(ts) {
        assert forall|j: int| 0 <= j < ts.update(i, x).len() implies #[trigger] ts.update(
            i,
            x,
        )[j].infallible() by {
            if j != i {
                assert(ts.update(i, x)[j] == ts[j]);
            }
        }
    }
    if infallible_of(ts.update(i, x)) {
        assert forall|j: int| 0 <= j < ts.len() implies #[trigger] ts[j].infallible() by {
            assert(ts.update(i, x)[j].infallible());
            if j != i {
                assert(ts.update(i, x)[j] == ts[j]);
            }
        }
    }
}

/// The scheduler: the chain of timers, the module and the walk's state.
pub struct Xidlehook<T: Timer, M: Module> {
    module: M,
    /// Whether a caller's poll loop resets the chain after a suspend.
    detect_sleep: bool,
    timers: Vec<T>,
    next_index: usize,
    base_idle_time: u64,
    previous_idle_time: u64,
    aborted: bool,
    /// Every timer action and module reset so far, in order.
    events: Ghost<Seq<Event>>,
    /// Every answer of the module so far, as it took effect.
    answers: Ghost<Seq<Progress>>,
    /// The timer each question to the module was about, in order.
    asked: Ghost<Seq<TimerInfo>>,
    /// Every call on the module, with what it returned, in order.
    hooks: Ghost<Seq<HookCall>>,
    /// How many calls of a timer or module failed and ended the call
    /// of the scheduler that made them.
    failures: Ghost<nat>,
}

impl<T: Timer> Xidlehook<T, ()> {
    /// A scheduler over `timers` without a module.
    pub fn new(timers: Vec<T>) -> (r: Self)
        ensures
            r.timer_seq() == timers@,
            r.module_spec() == (),
            r.chain() == (Chain { next: 0, base: 0, prev: 0, aborted: false }),
            r.events() == Seq::<Event>::empty(),
            r.answers() == Seq::<Progress>::empty(),
            r.asked() == Seq::<TimerInfo>::empty(),
            r.hooks() == Seq::<HookCall>::empty(),
            r.failures() == 0,
            !r.detect_sleep_spec(),
    {
        Xidlehook {
            module: (),
            detect_sleep: false,
            timers,
            next_index: 0,
            base_idle_time: 0,
            previous_idle_time: 0,
            aborted: false,
            events: Ghost(Seq::empty()),
            answers: Ghost(Seq::empty()),
            asked: Ghost(Seq::empty()),
            hooks: Ghost(Seq::empty()),
            failures: Ghost(0),
        }
    }
}

impl<T: Timer, M: Module> Xidlehook<T, M> {
    /// What the scheduler observes of its timers.
    pub open spec fn settings(&self) -> Seq<Setting> {
        settings_of(self.timer_seq())
    }

    /// Whether every timer of the chain is infallible.
    pub open spec fn timers_infallible(&self) -> bool {
        infallible_of(self.timer_seq())
    }

    /// The actions each timer of the chain performed so far.
    pub open spec fn call_logs(&self) -> Seq<Seq<TimerCall>> {
        calls_of(self.timer_seq())
    }

    /// Every timer is infallible and the module is steady: no call the
    /// scheduler makes can fail.
    pub open spec fn reliable(&self) -> bool {
        self.timers_infallible() && self.module_spec().steady()
    }

    /// The walk's state.
    pub closed spec fn chain(&self) -> Chain {
        Chain {
            next: self.next_index as nat,
            base: self.base_idle_time,
            prev: self.previous_idle_time,
            aborted: self.aborted,
        }
    }

    /// The timer actions and module resets so far.
    pub closed spec fn events(&self) -> Seq<Event> {
        self.events@
    }

    /// The module's answers so far.
    pub closed spec fn answers(&self) -> Seq<Progress> {
        self.answers@
    }

    /// The timer each question to the module was about, in order.
    pub closed spec fn asked(&self) -> Seq<TimerInfo> {
        self.asked@
    }

    /// Every call on the module, with what it returned, in order.
    pub closed spec fn hooks(&self) -> Seq<HookCall> {
        self.hooks@
    }

    /// How many calls of a timer or module failed and ended the call of
    /// the scheduler that made them.
    pub closed spec fn failures(&self) -> nat {
        self.failures@
    }

    /// The timers themselves.
    pub closed spec fn timer_seq(&self) -> Seq<T> {
        self.timers@
    }

    /// The module.
    pub closed spec fn module_spec(&self) -> M {
        self.module
    }

    /// Whether suspends are detected.
    pub closed spec fn detect_sleep_spec(&self) -> bool {
        self.detect_sleep
    }

    /// What every operation of the scheduler keeps, from `before` to
    /// `self`: the timers' settings and infallibility, a steady module,
    /// and the logs, which only grow; each timer performed exactly the
    /// actions that the new events record.
    pub open spec fn keeps(self, before: Self) -> bool {
        &&& self.settings() == before.settings()
        &&& self.timers_infallible() == before.timers_infallible()
        &&& (before.module_spec().steady() ==> self.module_spec() == before.module_spec())
        &&& before.events().is_prefix_of(self.events())
        &&& self.call_logs() == apply_events(
            before.call_logs(),
            self.events().skip(before.events().len() as int),
        )
        &&& before.answers().is_prefix_of(self.answers())
        &&& before.asked().is_prefix_of(self.asked())
        &&& before.hooks().is_prefix_of(self.hooks())
    }

    /// A call of `trigger` on the timer `info`, from `before` to `after`
    /// with result `r`: its first call on the module is the question before
    /// firing; when that fails and `warning` rethrows, the result is that
    /// error and no timer acted; when `warning` swallows it, or `force`
    /// holds, the answer that took effect is `Continue`.
    pub open spec fn trigger_question(
        self,
        before: Self,
        info: TimerInfo,
        force: bool,
        r: Result<Progress, Error>,
    ) -> bool {
        let h = self.hooks().skip(before.hooks().len() as int);
        &&& before.hooks().is_prefix_of(self.hooks())
        &&& h.len() >= 1
        &&& h[0] is Asked
        &&& h[0]->Asked_0
        &&& h[0]->Asked_1 == info
        &&& h[0]->Asked_2 is Err ==> h.len() >= 2 && h[1] is Warned && h[1]->Warned_0
            == h[0]->Asked_2->Err_0
        &&& h[0]->Asked_2 is Err && h[1]->Warned_1 is Err ==> r == Err::<Progress, Error>(
            h[1]->Warned_1->Err_0,
        ) && self.events() == before.events()
        &&& r is Ok && (force || (h[0]->Asked_2 is Err && h[1]->Warned_1 is Ok)) ==> self.answers().len()
            > before.answers().len() && self.answers()[before.answers().len() as int]
            == Progress::Continue
    }

    proof fn lemma_trigger_question(
        a: Self,
        b: Self,
        c: Self,
        info: TimerInfo,
        force: bool,
        pre: Progress,
        r: Result<Progress, Error>,
    )
        requires
            consult_spec(b.hooks@.skip(a.hooks@.len() as int), info, true, force, Ok(pre)),
            a.hooks@.is_prefix_of(b.hooks@),
            b.hooks@.is_prefix_of(c.hooks@),
            b.answers@ == a.answers@.push(pre),
            b.answers@.is_prefix_of(c.answers@),
        ensures
            c.trigger_question(a, info, force, r),
    {
        let l0 = a.hooks@.len() as int;
        let hb = b.hooks@.skip(l0);
        let hc = c.hooks@.skip(l0);
        assert forall|j: int| 0 <= j < hb.len() implies hc[j] == hb[j] by {
            assert(b.hooks@[l0 + j] == c.hooks@[l0 + j]);
        }
        assert(a.hooks@.is_prefix_of(c.hooks@));
        assert(c.answers@[a.answers@.len() as int] == b.answers@[a.answers@.len() as int]);
    }

    proof fn lemma_keeps_refl(a: Self)
        ensures
            a.keeps(a),
    {
        assert(a.events@.skip(a.events@.len() as int) =~= Seq::<Event>::empty());
    }

    proof fn lemma_keeps_trans(a: Self, b: Self, c: Self)
        requires
            b.keeps(a),
            c.keeps(b),
        ensures
            c.keeps(a),
    {
        let ea = a.events@;
        let eb = b.events@;
        let ec = c.events@;
        assert(ec.skip(ea.len() as int) =~= eb.skip(ea.len() as int) + ec.skip(eb.len() as int));
        lemma_apply_events_concat(
            a.call_logs(),
            eb.skip(ea.len() as int),
            ec.skip(eb.len() as int),
        );
        assert(a.answers@.is_prefix_of(c.answers@));
        assert(a.asked@.is_prefix_of(c.asked@));
        assert(a.hooks@.is_prefix_of(c.hooks@));
    }

    /// Once `b` keeps `a` and the events that came in between are `ev`,
    /// each timer performed exactly the actions of `ev`.
    pub proof fn lemma_logs_follow_events(a: Self, b: Self, ev: Seq<Event>)
        requires
            b.keeps(a),
            b.events() == a.events() + ev,
        ensures
            b.call_logs() == apply_events(a.call_logs(), ev),
    {
        assert((a.events@ + ev).skip(a.events@.len() as int) =~= ev);
    }

    /// This scheduler with its module replaced by `other`.
    pub fn with_module<N: Module>(self, other: N) -> (r: Xidlehook<T, N>)
        ensures
            r.timer_seq() == self.timer_seq(),
            r.module_spec() == other,
            r.chain() == self.chain(),
            r.events() == self.events(),
            r.answers() == self.answers(),
            r.asked() == self.asked(),
            r.hooks() == self.hooks(),
            r.failures() == self.failures(),
            r.detect_sleep_spec() == self.detect_sleep_spec(),
    {
        Xidlehook {
            module: other,
            detect_sleep: self.detect_sleep,
            timers: self.timers,
            next_index: self.next_index,
            base_idle_time: self.base_idle_time,
            previous_idle_time: self.previous_idle_time,
            aborted: self.aborted,
            events: self.events,
            answers: self.answers,
            asked: self.asked,
            hooks: self.hooks,
            failures: self.failures,
        }
    }

    /// This scheduler with `other` asked after its current module.
    pub fn register<N: Module>(self, other: N) -> (r: Xidlehook<T, (M, N)>)
        ensures
            r.timer_seq() == self.timer_seq(),
            r.module_spec() == (self.module_spec(), other),
            r.chain() == self.chain(),
            r.events() == self.events(),
            r.answers() == self.answers(),
            r.asked() == self.asked(),
            r.hooks() == self.hooks(),
            r.failures() == self.failures(),
            r.detect_sleep_spec() == self.detect_sleep_spec(),
    {
        Xidlehook {
            module: (self.module, other),
            detect_sleep: self.detect_sleep,
            timers: self.timers,
            next_index: self.next_index,
            base_idle_time: self.base_idle_time,
            previous_idle_time: self.previous_idle_time,
            aborted: self.aborted,
            events: self.events,
            answers: self.answers,
            asked: self.asked,
            hooks: self.hooks,
            failures: self.failures,
        }
    }

    /// Sets whether a poll loop resets the chain after a suspend.
    pub fn set_detect_sleep(&mut self, value: bool)
        ensures
            final(self).timer_seq() == old(self).timer_seq(),
            final(self).module_spec() == old(self).module_spec(),
            final(self).chain() == old(self).chain(),
            final(self).events() == old(self).events(),
            final(self).answers() == old(self).answers(),
            final(self).asked() == old(self).asked(),
            final(self).hooks() == old(self).hooks(),
            final(self).failures() == old(self).failures(),
            final(self).detect_sleep_spec() == value,
    {
        self.detect_sleep = value;
    }

    /// Whether a poll loop resets the chain after a suspend.
    pub fn detect_sleep(&self) -> (r: bool)
        ensures
            r == self.detect_sleep_spec(),
    {
        self.detect_sleep
    }

    /// This scheduler, resetting the chain after a suspend or not.
    pub fn with_detect_sleep(self, value: bool) -> (r: Self)
        ensures
            r.detect_sleep_spec() == value,
            r.timer_seq() == self.timer_seq(),
            r.module_spec() == self.module_spec(),
            r.chain() == self.chain(),
            r.events() == self.events(),
            r.answers() == self.answers(),
            r.asked() == self.asked(),
            r.hooks() == self.hooks(),
            r.failures() == self.failures(),
    {
        let mut me = self;
        me.detect_sleep = value;
        me
    }

    /// The timers of the chain.
    pub fn timers(&self) -> (r: &Vec<T>)
        ensures
            r@ == self.timer_seq(),
    {
        &self.timers
    }

    /// The timers of the chain, to change as the caller wishes. The walk is
    /// aborted first, since its position would not survive the change.
    pub fn timers_mut(&mut self) -> (r: Result<&mut Vec<T>, Error>)
        ensures
            r is Err ==> !old(self).chain().aborted && previous(
                old(self).settings().len(),
                old(self).chain().next,
            ) is Some,
            final(self).failures() == old(self).failures() + if r is Err {
                1nat
            } else {
                0nat
            },
            old(self).chain().aborted || previous(old(self).settings().len(), old(self).chain().next)
                is None || old(self).timers_infallible() ==> r is Ok,
            ({
                let (c, ev) = abort_spec(old(self).settings().len(), old(self).chain());
                &&& final(self).chain() == c
                &&& final(self).module_spec() == old(self).module_spec()
                &&& final(self).answers() == old(self).answers()
                &&& final(self).asked() == old(self).asked()
                &&& final(self).events() == old(self).events() + ev
                &&& r is Ok ==> {
                    &&& settings_of(r->Ok_0@) == old(self).settings()
                    &&& infallible_of(r->Ok_0@) == old(self).timers_infallible()
                    &&& calls_of(r->Ok_0@) == apply_events(old(self).call_logs(), ev)
                    &&& final(self).timer_seq() == final(r->Ok_0)@
                }
            }),
    {
        match self.abort() {
            Ok(()) => {
                proof {
                    let ev = abort_spec(old(self).settings().len(), old(self).chain()).1;
                    assert((old(self).events@ + ev).skip(old(self).events@.len() as int) =~= ev);
                }
                Ok(&mut self.timers)
            },
            Err(e) => Err(e),
        }
    }

    /// Asks the timer at `i` whether it is disabled.
    fn disabled_at(&mut self, i: usize) -> (r: bool)
        requires
            i < old(self).settings().len(),
        ensures
            final(self).keeps(*old(self)),
            final(self).events() == old(self).events(),
            final(self).chain() == old(self).chain(),
            final(self).module_spec() == old(self).module_spec(),
            final(self).answers() == old(self).answers(),
            final(self).asked() == old(self).asked(),
            final(self).hooks() == old(self).hooks(),
            final(self).failures() == old(self).failures(),
            r == old(self).settings()[i as int].disabled,
    {
        let ghost before = self.timers@;
        let r = self.timers[i].disabled();
        proof {
            lemma_timer_update(before, i as int, self.timers@[i as int]);
            assert(self.timers@ == before.update(i as int, self.timers@[i as int]));
            assert(calls_of(before).update(i as int, before[i as int].calls()) =~= calls_of(
                before,
            ));
            Self::lemma_keeps_refl(*old(self));
        }
        r
    }

    /// The remaining time of the timer at `index` at relative idle time
    /// `idle`.
    fn time_left_at(&mut self, index: usize, idle: u64) -> (r: Result<Option<u64>, Error>)
        requires
            index < old(self).settings().len(),
        ensures
            final(self).keeps(*old(self)),
            final(self).events() == old(self).events(),
            final(self).chain() == old(self).chain(),
            final(self).module_spec() == old(self).module_spec(),
            final(self).answers() == old(self).answers(),
            final(self).asked() == old(self).asked(),
            final(self).hooks() == old(self).hooks(),
            final(self).failures() == old(self).failures() + if r is Err {
                1nat
            } else {
                0nat
            },
            old(self).timers_infallible() ==> r is Ok,
            r is Ok ==> r->Ok_0 == time_left_of(old(self).settings()[index as int].time, idle),
    {
        let ghost before = self.timers@;
        let left = self.timers[index].time_left(idle);
        proof {
            lemma_timer_update(before, index as int, self.timers@[index as int]);
            assert(self.timers@ == before.update(index as int, self.timers@[index as int]));
            assert(calls_of(before).update(index as int, before[index as int].calls()) =~= calls_of(
                before,
            ));
            Self::lemma_keeps_refl(*old(self));
            if infallible_of(before) {
                assert(before[index as int].infallible());
            }
        }
        match left {
            Ok(v) => Ok(v),
            Err(e) => {
                self.failures = Ghost(self.failures@ + 1);
                Err(e)
            },
        }
    }

    /// Has the timer at `i` perform `call`, and records it.
    fn perform(&mut self, i: usize, call: TimerCall) -> (r: Result<(), Error>)
        requires
            i < old(self).settings().len(),
        ensures
            final(self).keeps(*old(self)),
            final(self).events() == old(self).events().push(event_of(call, i as nat)),
            final(self).chain() == old(self).chain(),
            final(self).module_spec() == old(self).module_spec(),
            final(self).answers() == old(self).answers(),
            final(self).asked() == old(self).asked(),
            final(self).hooks() == old(self).hooks(),
            final(self).failures() == old(self).failures() + if r is Err {
                1nat
            } else {
                0nat
            },
            old(self).timers_infallible() ==> r is Ok,
    {
        let ghost before = self.timers@;
        let res = match call {
            TimerCall::Activate => self.timers[i].activate(),
            TimerCall::Abort => self.timers[i].abort(),
            TimerCall::Deactivate => self.timers[i].deactivate(),
        };
        self.events = Ghost(self.events@.push(event_of(call, i as nat)));
        proof {
            lemma_timer_update(before, i as int, self.timers@[i as int]);
            assert(self.timers@ == before.update(i as int, self.timers@[i as int]));
            let e = event_of(call, i as nat);
            assert(self.events@.skip(old(self).events@.len() as int) =~= seq![e]);
            assert(seq![e].drop_last() =~= Seq::<Event>::empty());
            assert(apply_events(calls_of(before), Seq::<Event>::empty()) == calls_of(before));
            assert(seq![e].last() == e);
            assert(apply_events(calls_of(before), seq![e]) == step_calls(calls_of(before), e));
            assert(step_calls(calls_of(before), e) =~= calls_of(self.timers@));
            if infallible_of(before) {
                assert(before[i as int].infallible());
            }
        }
        match res {
            Ok(()) => Ok(()),
            Err(e) => {
                self.failures = Ghost(self.failures@ + 1);
                Err(e)
            },
        }
    }

    /// Freezes the walk: calls the abort action of the timer that fired
    /// last, unless the walk is already frozen.
    pub fn abort(&mut self) -> (r: Result<(), Error>)
        ensures
            r is Err ==> !old(self).chain().aborted && previous(
                old(self).settings().len(),
                old(self).chain().next,
            ) is Some,
            final(self).keeps(*old(self)),
            final(self).failures() == old(self).failures() + if r is Err {
                1nat
            } else {
                0nat
            },
            old(self).chain().aborted || previous(old(self).settings().len(), old(self).chain().next)
                is None || old(self).timers_infallible() ==> r is Ok,
            final(self).module_spec() == old(self).module_spec(),
            final(self).answers() == old(self).answers(),
            final(self).asked() == old(self).asked(),
            final(self).hooks() == old(self).hooks(),
            final(self).chain() == abort_spec(old(self).settings().len(), old(self).chain()).0,
            final(self).events() == old(self).events() + abort_spec(
                old(self).settings().len(),
                old(self).chain(),
            ).1,
            final(self).call_logs() == apply_events(
                old(self).call_logs(),
                abort_spec(old(self).settings().len(), old(self).chain()).1,
            ),
    {
        let r = self.abort_steps();
        proof {
            Self::lemma_logs_follow_events(*old(self), *self, abort_spec(old(self).settings().len(), old(self).chain()).1);
        }
        r
    }

    fn abort_steps(&mut self) -> (r: Result<(), Error>)
        ensures
            r is Err ==> !old(self).chain().aborted && previous(
                old(self).settings().len(),
                old(self).chain().next,
            ) is Some,
            final(self).keeps(*old(self)),
            final(self).failures() == old(self).failures() + if r is Err {
                1nat
            } else {
                0nat
            },
            old(self).chain().aborted || previous(old(self).settings().len(), old(self).chain().next)
                is None || old(self).timers_infallible() ==> r is Ok,
            final(self).module_spec() == old(self).module_spec(),
            final(self).answers() == old(self).answers(),
            final(self).asked() == old(self).asked(),
            final(self).hooks() == old(self).hooks(),
            final(self).chain() == abort_spec(old(self).settings().len(), old(self).chain()).0,
            final(self).events() == old(self).events() + abort_spec(
                old(self).settings().len(),
                old(self).chain(),
            ).1,
    {
        proof {
            Self::lemma_keeps_refl(*old(self));
        }
        if self.aborted {
            assert(self.events@ =~= old(self).events@ + Seq::<Event>::empty());
            return Ok(());
        }
        self.aborted = true;
        if self.next_index > 0 && self.next_index <= self.timers.len() {
            let p = self.next_index - 1;
            let ghost mid = *self;
            proof {
                Self::lemma_keeps_refl(mid);
            }
            let res = self.perform(p, TimerCall::Abort);
            assert(self.events@ =~= old(self).events@ + seq![Event::Aborted(p as nat)]);
            res
        } else {
            assert(self.events@ =~= old(self).events@ + Seq::<Event>::empty());
            Ok(())
        }
    }

    /// Rewinds the walk to the start, with `absolute_time` as the new idle
    /// time of reference. The module hears of it if the walk had advanced.
    pub fn reset(&mut self, absolute_time: u64) -> (r: Result<(), Error>)
        ensures
            final(self).keeps(*old(self)),
            final(self).failures() == old(self).failures() + if r is Err {
                1nat
            } else {
                0nat
            },
            old(self).chain().next == 0 || old(self).reliable() ==> r is Ok,
            final(self).answers() == old(self).answers(),
            final(self).asked() == old(self).asked(),
            old(self).hooks().is_prefix_of(final(self).hooks()),
            old(self).chain().next == 0 ==> final(self).hooks() == old(self).hooks(),
            ({
                let h = final(self).hooks().skip(old(self).hooks().len() as int);
                &&& h.len() > 0 ==> module_reset_spec(h, r)
                &&& r is Ok && old(self).chain().next > 0 ==> h.len() > 0
            }),
            r is Ok ==> {
                let (c, ev) = reset_spec(old(self).settings().len(), old(self).chain(), absolute_time);
                &&& final(self).chain() == c
                &&& final(self).events() == old(self).events() + ev
                &&& final(self).call_logs() == apply_events(old(self).call_logs(), ev)
            },
    {
        let r = self.reset_steps(absolute_time);
        proof {
            if r is Ok {
                Self::lemma_logs_follow_events(*old(self), *self, reset_spec(old(self).settings().len(), old(self).chain(), absolute_time).1);
            }
        }
        r
    }

    fn reset_steps(&mut self, absolute_time: u64) -> (r: Result<(), Error>)
        ensures
            final(self).keeps(*old(self)),
            final(self).failures() == old(self).failures() + if r is Err {
                1nat
            } else {
                0nat
            },
            old(self).chain().next == 0 || old(self).reliable() ==> r is Ok,
            final(self).answers() == old(self).answers(),
            final(self).asked() == old(self).asked(),
            old(self).hooks().is_prefix_of(final(self).hooks()),
            old(self).chain().next == 0 ==> final(self).hooks() == old(self).hooks(),
            ({
                let h = final(self).hooks().skip(old(self).hooks().len() as int);
                &&& h.len() > 0 ==> module_reset_spec(h, r)
                &&& r is Ok && old(self).chain().next > 0 ==> h.len() > 0
            }),
            r is Ok ==> {
                let (c, ev) = reset_spec(old(self).settings().len(), old(self).chain(), absolute_time);
                &&& final(self).chain() == c
                &&& final(self).events() == old(self).events() + ev
            },
    {
        match self.abort() {
            Ok(()) => {},
            Err(e) => {
                return Err(e);
            },
        }
        let ghost mid = *self;
        if self.next_index > 0 {
            let res = self.module.reset();
            let ghost res_g = res;
            self.hooks = Ghost(self.hooks@.push(HookCall::Reset(res)));
            if let Err(err) = res {
                let warned = self.module.warning(&err);
                self.hooks = Ghost(self.hooks@.push(HookCall::Warned(err, warned)));
                proof {
                    assert(self.hooks@.skip(old(self).hooks@.len() as int) =~= seq![
                        HookCall::Reset(res_g),
                        HookCall::Warned(err, warned),
                    ]);
                }
                if let Err(e) = warned {
                    self.failures = Ghost(self.failures@ + 1);
                    proof {
                        assert(self.events@.skip(old(self).events@.len() as int) == mid.events@.skip(
                            old(self).events@.len() as int,
                        ));
                    }
                    return Err(e);
                }
            } else {
                assert(self.hooks@.skip(old(self).hooks@.len() as int) =~= seq![HookCall::Reset(res_g)]);
            }
            self.next_index = 0;
            self.events = Ghost(self.events@.push(Event::ModuleReset));
            proof {
                let ev = mid.events@.skip(old(self).events@.len() as int);
                assert(self.events@.skip(old(self).events@.len() as int) =~= ev.push(
                    Event::ModuleReset,
                ));
                assert(ev.push(Event::ModuleReset).drop_last() =~= ev);
            }
        }
        self.base_idle_time = absolute_time;
        self.previous_idle_time = absolute_time;
        self.aborted = false;
        Ok(())
    }

    /// Acts on a module's answer: `Abort` freezes the walk, `Reset`
    /// rewinds it, the others leave it as it is.
    fn handle(&mut self, progress: Progress, absolute_time: u64) -> (r: Result<Progress, Error>)
        ensures
            final(self).keeps(*old(self)),
            final(self).failures() == old(self).failures() + if r is Err {
                1nat
            } else {
                0nat
            },
            old(self).reliable() ==> r is Ok,
            final(self).answers() == old(self).answers(),
            final(self).asked() == old(self).asked(),
            r is Ok ==> {
                let (p, c, ev) = handle_spec(
                    old(self).settings().len(),
                    old(self).chain(),
                    progress,
                    absolute_time,
                );
                &&& r->Ok_0 == p
                &&& final(self).chain() == c
                &&& final(self).events() == old(self).events() + ev
            },
    {
        match progress {
            Progress::Abort => match self.abort() {
                Ok(()) => Ok(Progress::Abort),
                Err(e) => Err(e),
            },
            Progress::Reset => match self.reset(absolute_time) {
                Ok(()) => Ok(Progress::Reset),
                Err(e) => Err(e),
            },
            _ => {
                proof {
                    Self::lemma_keeps_refl(*old(self));
                }
                assert(self.events@ == self.events@ + Seq::<Event>::empty());
                Ok(progress)
            },
        }
    }

    /// Asks the module about the timer `info`, before (`before`) or after
    /// it fires. An error the module's `warning` swallows counts as
    /// `Continue`, and so does an answer before firing when `force` holds.
    fn consult(&mut self, info: TimerInfo, before: bool, force: bool) -> (r: Result<Progress, Error>)
        ensures
            final(self).keeps(*old(self)),
            final(self).timer_seq() == old(self).timer_seq(),
            final(self).chain() == old(self).chain(),
            final(self).events() == old(self).events(),
            final(self).asked() == old(self).asked().push(info),
            final(self).failures() == old(self).failures() + if r is Err {
                1nat
            } else {
                0nat
            },
            r is Ok ==> final(self).answers() == old(self).answers().push(r->Ok_0),
            r is Err ==> final(self).answers() == old(self).answers(),
            r is Ok && before && force ==> r->Ok_0 == Progress::Continue,
            old(self).hooks().is_prefix_of(final(self).hooks()),
            consult_spec(
                final(self).hooks().skip(old(self).hooks().len() as int),
                info,
                before,
                force,
                r,
            ),
            old(self).module_spec().steady() ==> r == Ok::<Progress, Error>(
                if !before {
                    old(self).module_spec().post_answer(info)
                } else if force {
                    Progress::Continue
                } else {
                    old(self).module_spec().pre_answer(info)
                },
            ),
    {
        self.asked = Ghost(self.asked@.push(info));
        let asked = if before {
            self.module.pre_timer(info)
        } else {
            self.module.post_timer(info)
        };
        self.hooks = Ghost(self.hooks@.push(HookCall::Asked(before, info, asked)));
        let progress = match asked {
            Ok(progress) => if before && force {
                Progress::Continue
            } else {
                progress
            },
            Err(err) => match self.module.warning(&err) {
                Ok(()) => {
                    self.hooks = Ghost(self.hooks@.push(HookCall::Warned(err, Ok(()))));
                    Progress::Continue
                },
                Err(e) => {
                    self.hooks = Ghost(self.hooks@.push(HookCall::Warned(err, Err(e))));
                    proof {
                        assert(self.hooks@.skip(old(self).hooks@.len() as int) =~= seq![
                            HookCall::Asked(before, info, Err(err)),
                            HookCall::Warned(err, Err(e)),
                        ]);
                    }
                    self.failures = Ghost(self.failures@ + 1);
                    proof {
                        Self::lemma_keeps_refl(*old(self));
                    }
                    return Err(e);
                },
            },
        };
        self.answers = Ghost(self.answers@.push(progress));
        proof {
            let h = self.hooks@.skip(old(self).hooks@.len() as int);
            if asked is Ok {
                assert(h =~= seq![HookCall::Asked(before, info, asked)]);
            } else {
                assert(h =~= seq![
                    HookCall::Asked(before, info, asked),
                    HookCall::Warned(asked->Err_0, Ok(())),
                ]);
            }
            Self::lemma_keeps_refl(*old(self));
        }
        Ok(progress)
    }

    /// Activates the timer at `index`, deactivates the one that fired
    /// before it, and makes `absolute_time` the idle time of reference.
    fn fire(&mut self, index: usize, absolute_time: u64) -> (r: Result<(), Error>)
        requires
            index < old(self).settings().len(),
        ensures
            final(self).keeps(*old(self)),
            final(self).failures() == old(self).failures() + if r is Err {
                1nat
            } else {
                0nat
            },
            old(self).timers_infallible() ==> r is Ok,
            final(self).module_spec() == old(self).module_spec(),
            final(self).answers() == old(self).answers(),
            final(self).asked() == old(self).asked(),
            final(self).hooks() == old(self).hooks(),
            r is Ok ==> {
                &&& final(self).chain() == (Chain { base: absolute_time, ..old(self).chain() })
                &&& final(self).events() == old(self).events() + fired_events(
                    old(self).settings().len(),
                    old(self).chain().next,
                    index as nat,
                )
            },
    {
        let activated = self.perform(index, TimerCall::Activate);
        if let Err(e) = activated {
            return Err(e);
        }
        if self.next_index > 0 && self.next_index <= self.timers.len() {
            let p = self.next_index - 1;
            let ghost mid = *self;
            let deactivated = self.perform(p, TimerCall::Deactivate);
            proof {
                Self::lemma_keeps_trans(*old(self), mid, *self);
            }
            if let Err(e) = deactivated {
                return Err(e);
            }
            assert(self.events@ =~= old(self).events@ + seq![
                Event::Activated(index as nat),
                Event::Deactivated(p as nat),
            ]);
        } else {
            assert(self.events@ =~= old(self).events@ + seq![Event::Activated(index as nat)]);
        }
        self.base_idle_time = absolute_time;
        Ok(())
    }

    /// Fires the timer at `index` at absolute idle time `absolute_time`,
    /// deactivating the one that fired before it. The module is asked
    /// before (its answer is overruled when `force` holds) and after.
    pub fn trigger(&mut self, index: usize, absolute_time: u64, force: bool) -> (r: Result<
        Progress,
        Error,
    >)
        requires
            index < old(self).timer_seq().len(),
        ensures
            r is Ok ==> final(self).asked().len() - old(self).asked().len() == final(self).answers().len()
                - old(self).answers().len(),
            final(self).keeps(*old(self)),
            final(self).failures() == old(self).failures() + if r is Err {
                1nat
            } else {
                0nat
            },
            old(self).reliable() ==> r is Ok,
            forall|k: int|
                old(self).asked().len() <= k < final(self).asked().len() ==> #[trigger] final(self).asked()[k] == (TimerInfo { index, length: old(self).settings().len() as usize }),
            r is Ok && old(self).module_spec().steady() ==> final(self).answers().skip(
                old(self).answers().len() as int,
            ) == trigger_answers(
                old(self).module_spec(),
                TimerInfo { index, length: old(self).settings().len() as usize },
                force,
            ),
            r is Ok ==> (r->Ok_0 == Progress::Stop <==> final(self).answers().skip(
                old(self).answers().len() as int,
            ).contains(Progress::Stop)),
            final(self).trigger_question(
                *old(self),
                TimerInfo { index, length: old(self).settings().len() as usize },
                force,
                r,
            ),
            r is Ok ==> {
                let answers = final(self).answers().skip(old(self).answers().len() as int);
                let (p, c, ev) = trigger_spec(
                    old(self).settings().len(),
                    old(self).chain(),
                    index as nat,
                    absolute_time,
                    answers,
                );
                &&& r->Ok_0 == p
                &&& final(self).chain() == c
                &&& final(self).events() == old(self).events() + ev
                &&& final(self).call_logs() == apply_events(old(self).call_logs(), ev)
            },
    {
        let r = self.trigger_steps(index, absolute_time, force);
        proof {
            if r is Ok {
                let answers = self.answers@.skip(old(self).answers@.len() as int);
                Self::lemma_logs_follow_events(*old(self), *self, trigger_spec(old(self).settings().len(), old(self).chain(), index as nat, absolute_time, answers).2);
            }
        }
        r
    }

    fn trigger_steps(&mut self, index: usize, absolute_time: u64, force: bool) -> (r: Result<
        Progress,
        Error,
    >)
        requires
            index < old(self).timer_seq().len(),
        ensures
            r is Ok ==> final(self).asked().len() - old(self).asked().len() == final(self).answers().len()
                - old(self).answers().len(),
            final(self).keeps(*old(self)),
            final(self).failures() == old(self).failures() + if r is Err {
                1nat
            } else {
                0nat
            },
            old(self).reliable() ==> r is Ok,
            forall|k: int|
                old(self).asked().len() <= k < final(self).asked().len() ==> #[trigger] final(self).asked()[k] == (TimerInfo { index, length: old(self).settings().len() as usize }),
            r is Ok && old(self).module_spec().steady() ==> final(self).answers().skip(
                old(self).answers().len() as int,
            ) == trigger_answers(
                old(self).module_spec(),
                TimerInfo { index, length: old(self).settings().len() as usize },
                force,
            ),
            r is Ok ==> (r->Ok_0 == Progress::Stop <==> final(self).answers().skip(
                old(self).answers().len() as int,
            ).contains(Progress::Stop)),
            final(self).trigger_question(
                *old(self),
                TimerInfo { index, length: old(self).settings().len() as usize },
                force,
                r,
            ),
            r is Ok ==> {
                let answers = final(self).answers().skip(old(self).answers().len() as int);
                let (p, c, ev) = trigger_spec(
                    old(self).settings().len(),
                    old(self).chain(),
                    index as nat,
                    absolute_time,
                    answers,
                );
                &&& r->Ok_0 == p
                &&& final(self).chain() == c
                &&& final(self).events() == old(self).events() + ev
            },
    {
        let ghost old_answers = self.answers@;
        let ghost old_asked = self.asked@;
        let info = TimerInfo { index, length: self.timers.len() };
        let pre = match self.consult(info, true, force) {
            Ok(p) => p,
            Err(e) => {
                proof {
                    let h = self.hooks@.skip(old(self).hooks@.len() as int);
                    assert(h[0]->Asked_2 is Err);
                }
                return Err(e);
            },
        };
        let ghost after_pre = *self;
        assert(self.answers@.skip(old_answers.len() as int) =~= seq![pre]);
        if pre == Progress::Stop {
            assert(seq![pre][0] == Progress::Stop);
        }
        if pre != Progress::Continue {
            let ghost mid = *self;
            let r = self.handle(pre, absolute_time);
            proof {
                Self::lemma_keeps_trans(*old(self), mid, *self);
                Self::lemma_trigger_question(*old(self), after_pre, *self, info, force, pre, r);
            }
            return r;
        }
        let ghost mid1 = *self;
        match self.fire(index, absolute_time) {
            Ok(()) => {},
            Err(e) => {
                proof {
                    Self::lemma_keeps_trans(*old(self), mid1, *self);
                    Self::lemma_trigger_question(*old(self), after_pre, *self, info, force, pre, Err(e));
                }
                return Err(e);
            },
        }
        proof {
            Self::lemma_keeps_trans(*old(self), mid1, *self);
        }
        let ghost mid_events = self.events@;
        let ghost mid2 = *self;
        let post = match self.consult(info, false, force) {
            Ok(p) => p,
            Err(e) => {
                proof {
                    Self::lemma_keeps_trans(*old(self), mid2, *self);
                    Self::lemma_trigger_question(*old(self), after_pre, *self, info, force, pre, Err(e));
                }
                return Err(e);
            },
        };
        proof {
            Self::lemma_keeps_trans(*old(self), mid2, *self);
        }
        assert(self.answers@.skip(old_answers.len() as int) =~= seq![pre, post]);
        if post == Progress::Stop {
            assert(seq![pre, post][1] == Progress::Stop);
        }
        if post != Progress::Continue {
            let ghost mid3 = *self;
            let r = self.handle(post, absolute_time);
            proof {
                Self::lemma_keeps_trans(*old(self), mid3, *self);
                Self::lemma_trigger_question(*old(self), after_pre, *self, info, force, pre, r);
                if r is Ok {
                    let fired = fired_events(self.timers@.len(), old(self).chain().next, index as nat);
                    let ev = handle_spec(
                        self.timers@.len(),
                        Chain { base: absolute_time, ..old(self).chain() },
                        post,
                        absolute_time,
                    ).2;
                    assert(old(self).events@ + (fired + ev) =~= mid_events + ev);
                }
            }
            return r;
        }
        self.next_index = index + 1;
        proof {
            Self::lemma_trigger_question(*old(self), after_pre, *self, info, force, pre, Ok(Progress::Continue));
        }
        Ok(Progress::Continue)
    }

    /// The index of the first enabled timer at or after `from`.
    fn first_enabled_from(&mut self, from: usize) -> (r: usize)
        ensures
            final(self).keeps(*old(self)),
            final(self).events() == old(self).events(),
            final(self).chain() == old(self).chain(),
            final(self).module_spec() == old(self).module_spec(),
            final(self).answers() == old(self).answers(),
            final(self).asked() == old(self).asked(),
            final(self).hooks() == old(self).hooks(),
            final(self).failures() == old(self).failures(),
            r as nat == first_enabled(old(self).settings(), from as nat),
    {
        let ghost ts = settings_of(self.timers@);
        let len = self.timers.len();
        proof {
            Self::lemma_keeps_refl(*old(self));
        }
        if from >= len {
            return len;
        }
        let mut i: usize = from;
        loop
            invariant
                from <= i < len,
                len == self.timers@.len(),
                ts == settings_of(old(self).timers@),
                self.keeps(*old(self)),
                self.events@ == old(self).events@,
                self.chain() == old(self).chain(),
                self.module == old(self).module,
                self.answers@ == old(self).answers@,
                self.asked@ == old(self).asked@,
                self.hooks@ == old(self).hooks@,
                self.failures@ == old(self).failures@,
                first_enabled(ts, from as nat) == first_enabled(ts, i as nat),
            decreases len - i,
        {
            let ghost mid = *self;
            let disabled = self.disabled_at(i);
            proof {
                Self::lemma_keeps_trans(*old(self), mid, *self);
            }
            if !disabled {
                return i;
            }
            assert(first_enabled(ts, i as nat) == first_enabled(ts, (i + 1) as nat));
            i = i + 1;
            if i >= len {
                assert(first_enabled(ts, i as nat) == len);
                return len;
            }
        }
    }

    /// From `from`, skips the disabled timers, lowering `max_sleep` to
    /// their remaining time at relative idle time `rel`. Returns the index
    /// reached and the lowered bound.
    fn skip_disabled(&mut self, from: usize, rel: u64, max_sleep: u64) -> (r: Result<(usize, u64), Error>)
        ensures
            final(self).keeps(*old(self)),
            final(self).events() == old(self).events(),
            final(self).chain() == old(self).chain(),
            final(self).module_spec() == old(self).module_spec(),
            final(self).answers() == old(self).answers(),
            final(self).asked() == old(self).asked(),
            final(self).hooks() == old(self).hooks(),
            final(self).failures() == old(self).failures() + if r is Err {
                1nat
            } else {
                0nat
            },
            old(self).timers_infallible() ==> r is Ok,
            r is Ok ==> r->Ok_0.0 as nat == first_enabled(old(self).settings(), from as nat),
            r is Ok ==> r->Ok_0.1 == fold_disabled(old(self).settings(), from as nat, rel, max_sleep),
    {
        let ghost ts = settings_of(self.timers@);
        let len = self.timers.len();
        let mut i: usize = from;
        let mut m: u64 = max_sleep;
        proof {
            Self::lemma_keeps_refl(*old(self));
        }
        loop
            invariant
                len == self.timers@.len(),
                ts == settings_of(old(self).timers@),
                self.keeps(*old(self)),
                self.events@ == old(self).events@,
                self.chain() == old(self).chain(),
                self.module == old(self).module,
                self.answers@ == old(self).answers@,
                self.asked@ == old(self).asked@,
                self.hooks@ == old(self).hooks@,
                self.failures@ == old(self).failures@,
                from <= i,
                first_enabled(ts, from as nat) == first_enabled(ts, i as nat),
                fold_disabled(ts, from as nat, rel, max_sleep) == fold_disabled(ts, i as nat, rel, m),
            decreases len - i,
        {
            if i >= len {
                assert(first_enabled(ts, i as nat) == len);
                assert(fold_disabled(ts, i as nat, rel, m) == m);
                return Ok((len, m));
            }
            let ghost mid = *self;
            let disabled = self.disabled_at(i);
            proof {
                Self::lemma_keeps_trans(*old(self), mid, *self);
            }
            if !disabled {
                assert(first_enabled(ts, i as nat) == i);
                assert(fold_disabled(ts, i as nat, rel, m) == m);
                return Ok((i, m));
            }
            let ghost mid = *self;
            let left = self.time_left_at(i, rel);
            proof {
                Self::lemma_keeps_trans(*old(self), mid, *self);
            }
            match left {
                Ok(Some(x)) => if x < m {
                    m = x;
                },
                Ok(None) => {},
                Err(e) => {
                    return Err(e);
                },
            }
            i = i + 1;
        }
    }

    /// `max_sleep`, lowered to the abort urgency of the timer that fired last.
    fn clamp_to_urgency(&self, max_sleep: u64) -> (r: u64)
        ensures
            r == clamp_urgency(self.settings(), self.chain().next, max_sleep),
    {
        if self.next_index > 0 && self.next_index <= self.timers.len() {
            match self.timers[self.next_index - 1].abort_urgency() {
                Some(u) => if u < max_sleep {
                    u
                } else {
                    max_sleep
                },
                None => max_sleep,
            }
        } else {
            max_sleep
        }
    }

    /// Polls the chain at absolute idle time `absolute_time`: rewinds it if
    /// the idle time went down, fires the next timer if it is due, and
    /// returns how long the caller may sleep before polling again.
    #[verifier::rlimit(100)]
    pub fn poll(&mut self, absolute_time: u64) -> (r: Result<Action, Error>)
        ensures
            due_index(old(self).settings(), old(self).chain(), absolute_time) is None ==> final(self).asked() == old(self).asked(),
            r is Ok ==> final(self).asked().len() - old(self).asked().len() == final(self).answers().len()
                - old(self).answers().len(),
            final(self).keeps(*old(self)),
            final(self).failures() == old(self).failures() + if r is Err {
                1nat
            } else {
                0nat
            },
            old(self).reliable() ==> r is Ok,
            (absolute_time >= old(self).chain().prev || old(self).chain().next == 0) && first_enabled(
                old(self).settings(),
                0,
            ) >= old(self).settings().len() ==> r == Ok::<Action, Error>(Action::Forever),
            forall|k: int|
                old(self).asked().len() <= k < final(self).asked().len() ==> {
                    let due = due_index(old(self).settings(), old(self).chain(), absolute_time);
                    &&& due is Some
                    &&& #[trigger] final(self).asked()[k] == (TimerInfo {
                        index: due->Some_0 as usize,
                        length: old(self).settings().len() as usize,
                    })
                },
            r is Ok && old(self).module_spec().steady() ==> final(self).answers().skip(
                old(self).answers().len() as int,
            ) == poll_answers(
                old(self).module_spec(),
                old(self).settings(),
                old(self).chain(),
                absolute_time,
            ),
            r is Ok ==> {
                let answers = final(self).answers().skip(old(self).answers().len() as int);
                let (a, c, ev) = poll_spec(old(self).settings(), old(self).chain(), absolute_time, answers);
                &&& r->Ok_0 == a
                &&& final(self).chain() == c
                &&& final(self).events() == old(self).events() + ev
            },
    {
        let ghost old_answers = self.answers@;
        proof {
            Self::lemma_keeps_refl(*old(self));
        }
        if absolute_time < self.previous_idle_time {
            if let Err(e) = self.reset(absolute_time) {
                return Err(e);
            }
        } else {
            assert(self.events@ =~= old(self).events@ + Seq::<Event>::empty());
        }
        self.previous_idle_time = absolute_time;
        let ghost ev1 = self.events@;
        assert(self.answers@.skip(old_answers.len() as int) =~= Seq::<Progress>::empty());
        let len = self.timers.len();
        let ghost mid = *self;
        let first = self.first_enabled_from(0);
        proof {
            Self::lemma_keeps_trans(*old(self), mid, *self);
        }
        if first >= len {
            return Ok(Action::Forever);
        }
        let mut max_sleep: u64 = u64::MAX;
        let ghost mid = *self;
        let left = self.time_left_at(first, 0);
        proof {
            Self::lemma_keeps_trans(*old(self), mid, *self);
        }
        match left {
            Ok(Some(x)) => if x < max_sleep {
                max_sleep = x;
            },
            Ok(None) => {},
            Err(e) => {
                return Err(e);
            },
        }
        if self.aborted {
            return Ok(Action::Sleep(max_sleep));
        }
        let rel = if absolute_time >= self.base_idle_time {
            absolute_time - self.base_idle_time
        } else {
            0
        };
        let start = if self.next_index == 0 {
            first
        } else {
            self.next_index
        };
        let ghost mid = *self;
        let skipped = self.skip_disabled(start, rel, max_sleep);
        proof {
            Self::lemma_keeps_trans(*old(self), mid, *self);
        }
        let (cur, max_sleep) = match skipped {
            Ok(found) => found,
            Err(e) => {
                return Err(e);
            },
        };
        if cur >= len {
            return Ok(Action::Sleep(self.clamp_to_urgency(max_sleep)));
        }
        let ghost mid = *self;
        let left = self.time_left_at(cur, rel);
        proof {
            Self::lemma_keeps_trans(*old(self), mid, *self);
        }
        match left {
            Ok(Some(x)) => {
                let m = if x < max_sleep {
                    x
                } else {
                    max_sleep
                };
                Ok(Action::Sleep(self.clamp_to_urgency(m)))
            },
            Ok(None) => {
                let ghost mid = *self;
                let triggered = self.trigger(cur, absolute_time, false);
                proof {
                    Self::lemma_keeps_trans(*old(self), mid, *self);
                }
                let progress = match triggered {
                    Ok(p) => p,
                    Err(e) => {
                        return Err(e);
                    },
                };
                proof {
                    assert(self.events@ =~= old(self).events@ + (ev1.skip(
                        old(self).events@.len() as int,
                    ) + self.events@.skip(ev1.len() as int)));
                }
                match progress {
                    Progress::Stop => Ok(Action::Quit),
                    Progress::Continue => {
                        let ghost mid = *self;
                        let n = self.first_enabled_from(cur + 1);
                        proof {
                            Self::lemma_keeps_trans(*old(self), mid, *self);
                        }
                        let mut m = max_sleep;
                        if n < len {
                            let ghost mid = *self;
                            let left = self.time_left_at(n, 0);
                            proof {
                                Self::lemma_keeps_trans(*old(self), mid, *self);
                            }
                            match left {
                                Ok(Some(x)) => if x < m {
                                    m = x;
                                },
                                Ok(None) => {},
                                Err(e) => {
                                    return Err(e);
                                },
                            }
                        }
                        Ok(Action::Sleep(self.clamp_to_urgency(m)))
                    },
                    _ => Ok(Action::Sleep(max_sleep)),
                }
            },
            Err(e) => Err(e),
        }
    }
}

impl<R: Runner, M: Module> Xidlehook<CommandTimer<R>, M> {
    /// The configurations of the timers.
    pub open spec fn configs(&self) -> Seq<CmdTimer> {
        configs_of(self.timer_seq())
    }

    /// Freezes the walk as `abort` does; every timer keeps its configuration.
    fn abort_keeping_configs(&mut self) -> (r: Result<(), Error>)
        ensures
            r is Err ==> !old(self).chain().aborted && previous(
                old(self).settings().len(),
                old(self).chain().next,
            ) is Some,
            final(self).keeps(*old(self)),
            final(self).failures() == old(self).failures() + if r is Err {
                1nat
            } else {
                0nat
            },
            old(self).chain().aborted || previous(old(self).settings().len(), old(self).chain().next)
                is None || old(self).timers_infallible() ==> r is Ok,
            final(self).configs() == old(self).configs(),
            final(self).module_spec() == old(self).module_spec(),
            final(self).answers() == old(self).answers(),
            final(self).asked() == old(self).asked(),
            final(self).hooks() == old(self).hooks(),
            final(self).chain() == abort_spec(old(self).settings().len(), old(self).chain()).0,
            final(self).events() == old(self).events() + abort_spec(
                old(self).settings().len(),
                old(self).chain(),
            ).1,
    {
        proof {
            Self::lemma_keeps_refl(*old(self));
        }
        if self.aborted {
            assert(self.events@ =~= old(self).events@ + Seq::<Event>::empty());
            return Ok(());
        }
        self.aborted = true;
        if self.next_index > 0 && self.next_index <= self.timers.len() {
            let p = self.next_index - 1;
            let ghost before = self.timers@;
            let res = self.timers[p].abort();
            self.events = Ghost(self.events@.push(Event::Aborted(p as nat)));
            proof {
                lemma_timer_update(before, p as int, self.timers@[p as int]);
                assert(self.timers@ == before.update(p as int, self.timers@[p as int]));
                assert(configs_of(self.timers@) =~= configs_of(before));
                let e = Event::Aborted(p as nat);
                assert(self.events@.skip(old(self).events@.len() as int) =~= seq![e]);
                assert(seq![e].drop_last() =~= Seq::<Event>::empty());
                assert(apply_events(calls_of(before), Seq::<Event>::empty()) == calls_of(before));
                assert(seq![e].last() == e);
                assert(apply_events(calls_of(before), seq![e]) == step_calls(calls_of(before), e));
                assert(step_calls(calls_of(before), e) =~= calls_of(self.timers@));
                if infallible_of(before) {
                    assert(before[p as int].infallible());
                }
                assert(self.events@ =~= old(self).events@ + seq![e]);
            }
            match res {
                Ok(()) => Ok(()),
                Err(e) => {
                    self.failures = Ghost(self.failures@ + 1);
                    Err(e)
                },
            }
        } else {
            assert(self.events@ =~= old(self).events@ + Seq::<Event>::empty());
            Ok(())
        }
    }

    /// Carries out an `Add` message: the walk is frozen first, then a timer
    /// configured as `add` asks, whose commands `runner` runs, is inserted
    /// where it asks; past the end the reply is an error and the chain is
    /// left as it was.
    pub fn handle_add(&mut self, add: Add, runner: R) -> (r: Result<Reply, Error>)
        ensures
            final(self).failures() == old(self).failures() + if r is Err {
                1nat
            } else {
                0nat
            },
            old(self).chain().aborted || previous(old(self).settings().len(), old(self).chain().next)
                is None || old(self).timers_infallible() ==> r is Ok,
            r is Ok ==> final(self).chain().aborted,
            r is Ok ==> match insertion_spec(add.index, old(self).configs().len()) {
                Some(i) => {
                    &&& r->Ok_0 is Empty
                    &&& final(self).configs().len() == old(self).configs().len() + 1
                    &&& final(self).configs() == old(self).configs().insert(
                        i as int,
                        final(self).configs()[i as int],
                    )
                    &&& final(self).configs()[i as int].time == add.time
                    &&& final(self).configs()[i as int].activation@ == add.activation@
                    &&& final(self).configs()[i as int].abortion@ == add.abortion@
                    &&& final(self).configs()[i as int].deactivation@ == add.deactivation@
                    &&& !final(self).configs()[i as int].disabled
                },
                None => r->Ok_0 is Error && final(self).configs() == old(self).configs(),
            },
    {
        if let Err(e) = self.abort_keeping_configs() {
            return Err(e);
        }
        let config = CmdTimer::from_parts(add.time, add.activation, add.abortion, add.deactivation);
        let timer = CommandTimer::new(config, runner);
        let ghost before = self.timers@;
        let reply = insert_timer(&mut self.timers, add.index, timer);
        proof {
            match insertion_spec(add.index, before.len()) {
                Some(i) => {
                    assert(configs_of(self.timers@) =~= configs_of(before).insert(i as int, config));
                },
                None => {
                    assert(configs_of(self.timers@) =~= configs_of(before));
                },
            }
        }
        Ok(reply)
    }

    /// Answers a `Query` message: a snapshot of each timer it selects, in
    /// its order; ids that name no timer are left out.
    pub fn handle_query(&self, query: &Query) -> (r: Vec<QueryResult>)
        requires
            self.configs().len() <= u16::MAX,
        ensures
            ({
                let cs = self.configs();
                let ids = kept_ids(filter_ids(query.timer, cs.len() as u16), cs.len());
                &&& r@.len() == ids.len()
                &&& forall|k: int|
                    0 <= k < ids.len() ==> is_snapshot(#[trigger] r@[k], ids[k], cs[ids[k] as int])
            }),
    {
        let len = self.timers.len();
        let ids = query.timer.iter(len as u16);
        let ghost all = ids@;
        let ghost cs = self.configs();
        let mut r: Vec<QueryResult> = Vec::new();
        let mut k: usize = 0;
        while k < ids.len()
            invariant
                k <= ids@.len(),
                all == ids@,
                len == cs.len(),
                cs == configs_of(self.timers@),
                ({
                    let kept = kept_ids(all.subrange(0, k as int), len as nat);
                    &&& r@.len() == kept.len()
                    &&& forall|j: int|
                        0 <= j < kept.len() ==> is_snapshot(#[trigger] r@[j], kept[j], cs[kept[j] as int])
                }),
            decreases ids.len() - k,
        {
            let id = ids[k];
            assert(all.subrange(0, k + 1).drop_last() =~= all.subrange(0, k as int));
            if (id as usize) < len {
                let q = snapshot(id, &self.timers[id as usize].config);
                r.push(q);
            }
            k = k + 1;
        }
        assert(all.subrange(0, k as int) =~= all);
        r
    }

    /// Carries out a control message: the walk is frozen first, then each
    /// position the message addresses is disabled, enabled, deleted, or
    /// fired with the module's veto overruled, reading the idle time from
    /// `idle`. `None` means a fired timer's module asked to stop: the
    /// caller ends its loop and sends no reply.
    pub fn handle_control<I: IdleSource>(&mut self, control: &Control, idle: &I) -> (r: Result<
        Option<Reply>,
        Error,
    >)
        requires
            old(self).timer_seq().len() <= u16::MAX,
        ensures
            final(self).failures() == old(self).failures() + if r is Err {
                1nat
            } else {
                0nat
            },
            old(self).reliable() && control.action != ControlAction::Trigger ==> r is Ok,
            r matches Ok(Some(reply)) ==> reply is Empty,
            ({
                let len = old(self).settings().len();
                let targets = targets_spec(
                    filter_ids(control.timer, len as u16),
                    len,
                    control.action == ControlAction::Delete,
                    0,
                );
                control.action != ControlAction::Trigger && r is Ok ==> {
                    &&& r->Ok_0 is Some
                    &&& final(self).configs() == edited(old(self).configs(), targets, control.action)
                    &&& targets.len() > 0 ==> final(self).chain().aborted
                }
            }),
            control.action == ControlAction::Trigger ==> final(self).keeps(*old(self)),
            control.action == ControlAction::Trigger && r is Ok ==> (r->Ok_0 is None <==> final(self).answers().skip(old(self).answers().len() as int).contains(Progress::Stop)),
    {
        let len = self.timers.len();
        let targets = control_targets(&control.timer, len, control.action);
        let ghost tg = targets@.map_values(|p: usize| p as nat);
        if control.action == ControlAction::Trigger {
            self.trigger_each(&targets, idle)
        } else {
            if targets.len() == 0 {
                assert(tg =~= Seq::<nat>::empty());
                return Ok(Some(Reply::Empty));
            }
            if let Err(e) = self.abort_keeping_configs() {
                return Err(e);
            }
            let ghost c0 = configs_of(old(self).timers@);
            let mut k: usize = 0;
            while k < targets.len()
                invariant
                    k <= targets@.len(),
                    tg == targets@.map_values(|p: usize| p as nat),
                    control.action != ControlAction::Trigger,
                    configs_of(self.timers@) == edited(c0, tg.take(k as int), control.action),
                    self.failures@ == old(self).failures@,
                    self.aborted,
                decreases targets.len() - k,
            {
                let id = targets[k];
                let ghost before = self.timers@;
                let ghost done = edited(c0, tg.take(k as int), control.action);
                assert(tg.take(k + 1).drop_last() =~= tg.take(k as int));
                assert(tg.take(k + 1).last() == id as nat);
                if id < self.timers.len() {
                    match control.action {
                        ControlAction::Delete => {
                            self.timers.remove(id);
                            assert(configs_of(self.timers@) =~= done.remove(id as int));
                        },
                        _ => {
                            let v = control.action == ControlAction::Disable;
                            let mut t = self.timers.remove(id);
                            t.config.disabled = v;
                            self.timers.insert(id, t);
                            assert(self.timers@ =~= before.update(id as int, t));
                            assert(configs_of(self.timers@) =~= done.update(
                                id as int,
                                CmdTimer { disabled: v, ..done[id as int] },
                            ));
                        },
                    }
                }
                k = k + 1;
            }
            assert(tg.take(k as int) =~= tg);
            Ok(Some(Reply::Empty))
        }
    }

    /// Fires each position of `targets` in turn, with the module's veto
    /// overruled, reading the idle time from `idle`, until a module asks
    /// to stop.
    fn trigger_each<I: IdleSource>(&mut self, targets: &Vec<usize>, idle: &I) -> (r: Result<
        Option<Reply>,
        Error,
    >)
        ensures
            final(self).keeps(*old(self)),
            final(self).failures() == old(self).failures() + if r is Err {
                1nat
            } else {
                0nat
            },
            r matches Ok(Some(reply)) ==> reply is Empty,
            r is Ok ==> (r->Ok_0 is None <==> final(self).answers().skip(
                old(self).answers().len() as int,
            ).contains(Progress::Stop)),
    {
        proof {
            Self::lemma_keeps_refl(*old(self));
        }
        assert(self.answers@.skip(old(self).answers@.len() as int) =~= Seq::<Progress>::empty());
        let mut k: usize = 0;
        while k < targets.len()
            invariant
                self.keeps(*old(self)),
                self.failures@ == old(self).failures@,
                !self.answers@.skip(old(self).answers@.len() as int).contains(Progress::Stop),
            decreases targets.len() - k,
        {
            let id = targets[k];
            let ghost mid = *self;
            if let Err(e) = self.abort() {
                proof {
                    Self::lemma_keeps_trans(*old(self), mid, *self);
                }
                return Err(e);
            }
            proof {
                Self::lemma_keeps_trans(*old(self), mid, *self);
                assert(self.answers@ == mid.answers@);
            }
            if id < self.timers.len() {
                let t = match idle.get_idle() {
                    Ok(t) => t,
                    Err(e) => {
                        self.failures = Ghost(self.failures@ + 1);
                        return Err(e);
                    },
                };
                let ghost mid = *self;
                let fired = self.trigger(id, t, true);
                proof {
                    Self::lemma_keeps_trans(*old(self), mid, *self);
                    let a0 = old(self).answers@;
                    let l0 = a0.len() as int;
                    let l1 = mid.answers@.len() as int;
                    assert(self.answers@.skip(l0) =~= mid.answers@.skip(l0) + self.answers@.skip(l1));
                    if self.answers@.skip(l0).contains(Progress::Stop) {
                        let j = choose|j: int| 0 <= j < self.answers@.skip(l0).len() && self.answers@.skip(l0)[j] == Progress::Stop;
                        if j >= mid.answers@.skip(l0).len() {
                            assert(self.answers@.skip(l1)[j - mid.answers@.skip(l0).len()] == Progress::Stop);
                        } else {
                            assert(mid.answers@.skip(l0)[j] == Progress::Stop);
                        }
                    }
                    if fired matches Ok(Progress::Stop) {
                        let j = choose|j: int| 0 <= j < self.answers@.skip(l1).len() && self.answers@.skip(l1)[j] == Progress::Stop;
                        assert(self.answers@.skip(l0)[mid.answers@.skip(l0).len() + j] == Progress::Stop);
                    }
                }
                match fired {
                    Ok(Progress::Stop) => {
                        return Ok(None);
                    },
                    Ok(_) => {},
                    Err(e) => {
                        return Err(e);
                    },
                }
            }
            k = k + 1;
        }
        Ok(Some(Reply::Empty))
    }
}

} // verus!
