//! Modules: hooks around each timer activation that may let the chain go
//! on, freeze it, rewind it or stop the scheduler, and their combinators.
use vstd::prelude::*;

use crate::error::Error;

verus! {

/// The position of a timer in the chain, and the chain's length.
#[derive(Clone, Copy, Debug, PartialEq, Eq, Structural)]
pub struct TimerInfo {
    /// The index of this timer in the chain.
    pub index: usize,
    /// The length of the chain.
    pub length: usize,
}

/// A module's decision around a timer activation.
#[derive(Clone, Copy, Debug, PartialEq, Eq, Structural, Hash)]
pub enum Progress {
    /// Go on as usual.
    Continue,
    /// Freeze the chain where it is until the user is active again.
    Abort,
    /// Like `Abort`, but rewind the chain to its start right away.
    Reset,
    /// Stop the scheduler.
    Stop,
}

/// A hook consulted before and after each timer activation.
pub trait Module: Sized {
    /// Whether every hook of this module succeeds, leaves it as it is, and
    /// answers as `pre_answer` and `post_answer` say.
    open spec fn steady(&self) -> bool {
        false
    }

    /// A steady module's answer before the timer `timer` fires.
    open spec fn pre_answer(&self, timer: TimerInfo) -> Progress {
        Progress::Continue
    }

    /// A steady module's answer after the timer `timer` fired.
    open spec fn post_answer(&self, timer: TimerInfo) -> Progress {
        Progress::Continue
    }

    /// Decides whether the timer may be activated.
    fn pre_timer(&mut self, timer: TimerInfo) -> (r: Result<Progress, Error>)
        ensures
            old(self).steady() ==> r == Ok::<Progress, Error>(old(self).pre_answer(timer))
                && *final(self) == *old(self),
    ;

    /// Decides what happens after the timer was activated.
    fn post_timer(&mut self, timer: TimerInfo) -> (r: Result<Progress, Error>)
        ensures
            old(self).steady() ==> r == Ok::<Progress, Error>(old(self).post_answer(timer))
                && *final(self) == *old(self),
    ;

    /// Receives a possibly recoverable error: `Ok` swallows it, `Err`
    /// makes it fatal.
    fn warning(&mut self, error: &Error) -> (r: Result<(), Error>)
        ensures
            old(self).steady() ==> r is Ok && *final(self) == *old(self),
    ;

    /// Called when the chain was rewound to its start.
    fn reset(&mut self) -> (r: Result<(), Error>)
        ensures
            old(self).steady() ==> r is Ok && *final(self) == *old(self),
    ;
}

/// The empty module: lets every timer run and swallows every warning.
impl Module for () {
    open spec fn steady(&self) -> bool {
        true
    }

    fn pre_timer(&mut self, timer: TimerInfo) -> (r: Result<Progress, Error>) {
        Ok(Progress::Continue)
    }

    fn post_timer(&mut self, timer: TimerInfo) -> (r: Result<Progress, Error>) {
        Ok(Progress::Continue)
    }

    fn warning(&mut self, error: &Error) -> (r: Result<(), Error>) {
        Ok(())
    }

    fn reset(&mut self) -> (r: Result<(), Error>) {
        Ok(())
    }
}

/// The first of two answers that is not `Continue`, else `Continue`.
pub open spec fn first_decision(a: Progress, b: Progress) -> Progress {
    if a != Progress::Continue {
        a
    } else {
        b
    }
}

/// Two modules in order: the second is asked only if the first says
/// `Continue`; both get every warning and reset, and the first error is
/// returned.
impl<A: Module, B: Module> Module for (A, B) {
    open spec fn steady(&self) -> bool {
        self.0.steady() && self.1.steady()
    }

    open spec fn pre_answer(&self, timer: TimerInfo) -> Progress {
        first_decision(self.0.pre_answer(timer), self.1.pre_answer(timer))
    }

    open spec fn post_answer(&self, timer: TimerInfo) -> Progress {
        first_decision(self.0.post_answer(timer), self.1.post_answer(timer))
    }

    fn pre_timer(&mut self, timer: TimerInfo) -> (r: Result<Progress, Error>)
        ensures
            old(self).0.steady() && old(self).0.pre_answer(timer) != Progress::Continue ==> r
                == Ok::<Progress, Error>(old(self).0.pre_answer(timer)) && *final(self) == *old(self),
            old(self).0.steady() && old(self).0.pre_answer(timer) == Progress::Continue ==> final(self).0 == old(self).0,
    {
        match self.0.pre_timer(timer) {
            Ok(Progress::Continue) => self.1.pre_timer(timer),
            other => other,
        }
    }

    fn post_timer(&mut self, timer: TimerInfo) -> (r: Result<Progress, Error>)
        ensures
            old(self).0.steady() && old(self).0.post_answer(timer) != Progress::Continue ==> r
                == Ok::<Progress, Error>(old(self).0.post_answer(timer)) && *final(self) == *old(self),
            old(self).0.steady() && old(self).0.post_answer(timer) == Progress::Continue ==> final(self).0 == old(self).0,
    {
        match self.0.post_timer(timer) {
            Ok(Progress::Continue) => self.1.post_timer(timer),
            other => other,
        }
    }

    fn warning(&mut self, error: &Error) -> (r: Result<(), Error>)
        ensures
            old(self).0.steady() ==> final(self).0 == old(self).0,
            old(self).1.steady() ==> final(self).1 == old(self).1,
    {
        let first = self.0.warning(error);
        let second = self.1.warning(error);
        match first {
            Ok(()) => second,
            Err(e) => Err(e),
        }
    }

    fn reset(&mut self) -> (r: Result<(), Error>)
        ensures
            old(self).0.steady() ==> final(self).0 == old(self).0,
            old(self).1.steady() ==> final(self).1 == old(self).1,
    {
        let first = self.0.reset();
        let second = self.1.reset();
        match first {
            Ok(()) => second,
            Err(e) => Err(e),
        }
    }
}

/// The first answer of `answers` that is not `Continue`, else `Continue`.
pub open spec fn first_answer(answers: Seq<Progress>) -> Progress
    decreases answers.len(),
{
    if answers.len() == 0 {
        Progress::Continue
    } else {
        first_decision(answers[0], first_answer(answers.skip(1)))
    }
}

/// What each module of `ms` answers before the timer `t` fires.
pub open spec fn pre_answers<M: Module>(ms: Seq<M>, t: TimerInfo) -> Seq<Progress> {
    Seq::new(ms.len(), |i: int| ms[i].pre_answer(t))
}

/// What each module of `ms` answers after the timer `t` fired.
pub open spec fn post_answers<M: Module>(ms: Seq<M>, t: TimerInfo) -> Seq<Progress> {
    Seq::new(ms.len(), |i: int| ms[i].post_answer(t))
}

/// Every module of `ms` is steady.
pub open spec fn all_steady<M: Module>(ms: Seq<M>) -> bool {
    forall|i: int| 0 <= i < ms.len() ==> #[trigger] ms[i].steady()
}

/// A list of modules in order: the first answer other than `Continue`
/// wins and the rest are not asked; every module gets each warning and
/// reset, and the first error is returned.
impl<M: Module> Module for Vec<M> {
    fn pre_timer(&mut self, timer: TimerInfo) -> (r: Result<Progress, Error>)
        ensures
            old(self)@.len() == 0 ==> r == Ok::<Progress, Error>(Progress::Continue),
            all_steady(old(self)@) ==> r == Ok::<Progress, Error>(
                first_answer(pre_answers(old(self)@, timer)),
            ) && final(self)@ == old(self)@,
    {
        let ghost answers = pre_answers(old(self)@, timer);
        let mut i: usize = 0;
        assert(answers.skip(0) =~= answers);
        while i < self.len()
            invariant
                self@.len() == old(self)@.len(),
                i <= self@.len(),
                answers == pre_answers(old(self)@, timer),
                all_steady(old(self)@) ==> self@ == old(self)@,
                all_steady(old(self)@) ==> first_answer(answers) == first_answer(answers.skip(i as int)),
            decreases self.len() - i,
        {
            let ghost before = self@;
            let got = self[i].pre_timer(timer);
            proof {
                if all_steady(old(self)@) {
                    assert(old(self)@[i as int].steady());
                    assert(answers[i as int] == old(self)@[i as int].pre_answer(timer));
                    assert(got == Ok::<Progress, Error>(answers[i as int]));
                    assert(self@ =~= before);
                    let rest = answers.skip(i as int);
                    assert(rest[0] == answers[i as int]);
                    assert(rest.skip(1) =~= answers.skip(i + 1));
                    assert(first_answer(rest) == first_decision(rest[0], first_answer(rest.skip(1))));
                }
            }
            match got {
                Ok(Progress::Continue) => {},
                other => {
                    return other;
                },
            }
            i = i + 1;
        }
        proof {
            if all_steady(old(self)@) {
                assert(answers.skip(i as int).len() == 0);
            }
        }
        Ok(Progress::Continue)
    }

    fn post_timer(&mut self, timer: TimerInfo) -> (r: Result<Progress, Error>)
        ensures
            old(self)@.len() == 0 ==> r == Ok::<Progress, Error>(Progress::Continue),
            all_steady(old(self)@) ==> r == Ok::<Progress, Error>(
                first_answer(post_answers(old(self)@, timer)),
            ) && final(self)@ == old(self)@,
    {
        let ghost answers = post_answers(old(self)@, timer);
        let mut i: usize = 0;
        assert(answers.skip(0) =~= answers);
        while i < self.len()
            invariant
                self@.len() == old(self)@.len(),
                i <= self@.len(),
                answers == post_answers(old(self)@, timer),
                all_steady(old(self)@) ==> self@ == old(self)@,
                all_steady(old(self)@) ==> first_answer(answers) == first_answer(answers.skip(i as int)),
            decreases self.len() - i,
        {
            let ghost before = self@;
            let got = self[i].post_timer(timer);
            proof {
                if all_steady(old(self)@) {
                    assert(old(self)@[i as int].steady());
                    assert(answers[i as int] == old(self)@[i as int].post_answer(timer));
                    assert(got == Ok::<Progress, Error>(answers[i as int]));
                    assert(self@ =~= before);
                    let rest = answers.skip(i as int);
                    assert(rest[0] == answers[i as int]);
                    assert(rest.skip(1) =~= answers.skip(i + 1));
                    assert(first_answer(rest) == first_decision(rest[0], first_answer(rest.skip(1))));
                }
            }
            match got {
                Ok(Progress::Continue) => {},
                other => {
                    return other;
                },
            }
            i = i + 1;
        }
        proof {
            if all_steady(old(self)@) {
                assert(answers.skip(i as int).len() == 0);
            }
        }
        Ok(Progress::Continue)
    }

    fn warning(&mut self, error: &Error) -> (r: Result<(), Error>)
        ensures
            old(self)@.len() == 0 ==> r is Ok,
            all_steady(old(self)@) ==> r is Ok && final(self)@ == old(self)@,
    {
        let mut first: Option<Error> = None;
        let mut i: usize = 0;
        while i < self.len()
            invariant
                old(self)@.len() == 0 ==> first is None,
                self@.len() == old(self)@.len(),
                all_steady(old(self)@) ==> first is None && self@ == old(self)@,
            decreases self.len() - i,
        {
            let ghost before = self@;
            let got = self[i].warning(error);
            proof {
                if all_steady(old(self)@) {
                    assert(old(self)@[i as int].steady());
                    assert(self@ =~= before);
                }
            }
            if let Err(e) = got {
                if first.is_none() {
                    first = Some(e);
                }
            }
            i = i + 1;
        }
        match first {
            Some(e) => Err(e),
            None => Ok(()),
        }
    }

    fn reset(&mut self) -> (r: Result<(), Error>)
        ensures
            old(self)@.len() == 0 ==> r is Ok,
            all_steady(old(self)@) ==> r is Ok && final(self)@ == old(self)@,
    {
        let mut first: Option<Error> = None;
        let mut i: usize = 0;
        while i < self.len()
            invariant
                old(self)@.len() == 0 ==> first is None,
                self@.len() == old(self)@.len(),
                all_steady(old(self)@) ==> first is None && self@ == old(self)@,
            decreases self.len() - i,
        {
            let ghost before = self@;
            let got = self[i].reset();
            proof {
                if all_steady(old(self)@) {
                    assert(old(self)@[i as int].steady());
                    assert(self@ =~= before);
                }
            }
            if let Err(e) = got {
                if first.is_none() {
                    first = Some(e);
                }
            }
            i = i + 1;
        }
        match first {
            Some(e) => Err(e),
            None => Ok(()),
        }
    }
}

/// A module that stops the scheduler once a given timer, or the last
/// timer of the chain, has fired.
#[derive(Clone, Copy, Debug)]
pub struct StopAt {
    /// The index after which to stop; `None` stands for the last timer.
    pub stop_after: Option<usize>,
}

/// What `StopAt` answers after the timer `timer` fired.
pub open spec fn stop_at_progress(stop_after: Option<usize>, timer: TimerInfo) -> Progress {
    let last = match stop_after {
        Some(i) => i as int,
        None => timer.length - 1,
    };
    if timer.index >= last {
        Progress::Stop
    } else {
        Progress::Continue
    }
}

impl StopAt {
    /// Stops the scheduler after the timer at index `i` fired.
    pub fn index(i: usize) -> (r: Self)
        ensures
            r.stop_after == Some(i),
    {
        StopAt { stop_after: Some(i) }
    }

    /// Stops the scheduler after the last timer of the chain fired.
    pub fn completion() -> (r: Self)
        ensures
            r.stop_after == None::<usize>,
    {
        StopAt { stop_after: None }
    }

    /// The answer after the timer `timer` fired.
    pub fn progress_after(&self, timer: TimerInfo) -> (r: Progress)
        ensures
            r == stop_at_progress(self.stop_after, timer),
    {
        let reached = match self.stop_after {
            Some(i) => timer.index >= i,
            None => timer.length == 0 || timer.index >= timer.length - 1,
        };
        if reached {
            Progress::Stop
        } else {
            Progress::Continue
        }
    }
}

impl Module for StopAt {
    open spec fn steady(&self) -> bool {
        true
    }

    open spec fn post_answer(&self, timer: TimerInfo) -> Progress {
        stop_at_progress(self.stop_after, timer)
    }

    fn pre_timer(&mut self, timer: TimerInfo) -> (r: Result<Progress, Error>) {
        Ok(Progress::Continue)
    }

    fn post_timer(&mut self, timer: TimerInfo) -> (r: Result<Progress, Error>)
        ensures
            r == Ok::<Progress, Error>(stop_at_progress(old(self).stop_after, timer)),
    {
        Ok(self.progress_after(timer))
    }

    fn warning(&mut self, error: &Error) -> (r: Result<(), Error>) {
        Ok(())
    }

    fn reset(&mut self) -> (r: Result<(), Error>) {
        Ok(())
    }
}

} // verus!
