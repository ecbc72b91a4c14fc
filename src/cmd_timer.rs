//! The configuration of a timer that runs external commands: its threshold,
//! the argument vectors of its three commands, and whether it is disabled.
use vstd::prelude::*;

use crate::error::Error;
use crate::timers::{remaining, Setting, Timer, TimerCall};

verus! {

/// The characters of each string of `v`.
pub open spec fn argv_view(v: Seq<String>) -> Seq<Seq<char>> {
    v.map_values(|s: String| s@)
}

/// The argument vector that runs `command` through the shell, or none for
/// an empty command.
pub open spec fn shell_argv(command: Seq<char>) -> Seq<Seq<char>> {
    if command.len() == 0 {
        seq![]
    } else {
        seq!["/bin/sh"@, "-c"@, command]
    }
}

/// A timer that runs commands, as configured: an empty argument vector
/// means no command.
#[derive(Clone, Debug)]
pub struct CmdTimer {
    /// The relative idle time, in milliseconds, after which it fires.
    pub time: u64,
    /// The command run on activation.
    pub activation: Vec<String>,
    /// The command run when the user becomes active after it fired.
    pub abortion: Vec<String>,
    /// The command run when the next timer fires.
    pub deactivation: Vec<String>,
    /// Whether the timer is skipped.
    pub disabled: bool,
}

fn shell(command: String) -> (r: Vec<String>)
    ensures
        argv_view(r@) == shell_argv(command@),
{
    let line: &str = &command;
    if line.is_empty() {
        let r: Vec<String> = Vec::new();
        assert(argv_view(r@) =~= shell_argv(command@));
        r
    } else {
        let mut r: Vec<String> = Vec::new();
        r.push("/bin/sh".to_owned());
        r.push("-c".to_owned());
        r.push(command);
        assert(argv_view(r@) =~= shell_argv(command@));
        r
    }
}

impl CmdTimer {
    /// A timer due after `time` milliseconds with the given argument
    /// vectors, enabled.
    pub fn from_parts(
        time: u64,
        activation: Vec<String>,
        abortion: Vec<String>,
        deactivation: Vec<String>,
    ) -> (r: Self)
        ensures
            r.time == time,
            r.activation@ == activation@,
            r.abortion@ == abortion@,
            r.deactivation@ == deactivation@,
            !r.disabled,
    {
        CmdTimer { time, activation, abortion, deactivation, disabled: false }
    }

    /// A timer due after `time` milliseconds whose commands are shell
    /// command lines, run through `/bin/sh -c`; an empty line means none.
    pub fn from_shell(time: u64, activation: String, abortion: String, deactivation: String) -> (r:
        Self)
        ensures
            r.time == time,
            argv_view(r.activation@) == shell_argv(activation@),
            argv_view(r.abortion@) == shell_argv(abortion@),
            argv_view(r.deactivation@) == shell_argv(deactivation@),
            !r.disabled,
    {
        CmdTimer {
            time,
            activation: shell(activation),
            abortion: shell(abortion),
            deactivation: shell(deactivation),
            disabled: false,
        }
    }

    /// Enables or disables the timer.
    pub fn set_disabled(&mut self, val: bool)
        ensures
            *final(self) == (CmdTimer { disabled: val, ..*old(self) }),
    {
        self.disabled = val;
    }

    /// Whether the timer is disabled.
    pub fn get_disabled(&self) -> (r: bool)
        ensures
            r == self.disabled,
    {
        self.disabled
    }

    /// The threshold, in milliseconds.
    pub fn get_time(&self) -> (r: u64)
        ensures
            r == self.time,
    {
        self.time
    }

    /// The activation command's argument vector.
    pub fn activation(&self) -> (r: &[String])
        ensures
            r@ == self.activation@,
    {
        self.activation.as_slice()
    }

    /// The abortion command's argument vector.
    pub fn abortion(&self) -> (r: &[String])
        ensures
            r@ == self.abortion@,
    {
        self.abortion.as_slice()
    }

    /// The deactivation command's argument vector.
    pub fn deactivation(&self) -> (r: &[String])
        ensures
            r@ == self.deactivation@,
    {
        self.deactivation.as_slice()
    }
}

/// How soon, in milliseconds, a timer with an abortion command wants to be
/// polled after the user became active.
pub const ABORT_URGENCY_MS: u64 = 1000;

/// The configurations of the command timers `ts`.
pub open spec fn configs_of<R: Runner>(ts: Seq<CommandTimer<R>>) -> Seq<CmdTimer> {
    Seq::new(ts.len(), |i: int| ts[i].config)
}

/// Runs the commands of a `CommandTimer`.
pub trait Runner {
    /// Whether this runner keeps `runs` up to date.
    open spec fn tracks_runs(&self) -> bool {
        false
    }

    /// The commands run so far, each with the action it was for.
    open spec fn runs(&self) -> Seq<(TimerCall, Seq<String>)> {
        Seq::empty()
    }

    /// Runs `argv`, the command of the action `call`.
    fn run(&mut self, call: TimerCall, argv: &Vec<String>) -> (r: Result<(), Error>)
        ensures
            old(self).tracks_runs() ==> final(self).tracks_runs() && final(self).runs() == old(self).runs().push((call, argv@)),
    ;
}

/// A runner that runs nothing and records each command it is handed.
pub struct DryRun {
    /// The commands handed so far, each with its action.
    pub ran: Vec<(TimerCall, Vec<String>)>,
}

impl DryRun {
    /// A runner that has been handed nothing.
    pub fn new() -> (r: Self)
        ensures
            r.runs() == Seq::<(TimerCall, Seq<String>)>::empty(),
    {
        DryRun { ran: Vec::new() }
    }
}

impl Runner for DryRun {
    open spec fn tracks_runs(&self) -> bool {
        true
    }

    open spec fn runs(&self) -> Seq<(TimerCall, Seq<String>)> {
        Seq::new(self.ran@.len(), |i: int| (self.ran@[i].0, self.ran@[i].1@))
    }

    fn run(&mut self, call: TimerCall, argv: &Vec<String>) -> (r: Result<(), Error>)
        ensures
            r is Ok,
    {
        let copy = argv.clone();
        assert(copy@ =~= argv@);
        self.ran.push((call, copy));
        assert(self.runs() =~= old(self).runs().push((call, argv@)));
        Ok(())
    }
}

/// A timer that runs its configured commands through `runner`; an empty
/// argument vector runs nothing.
pub struct CommandTimer<R: Runner> {
    /// The configuration.
    pub config: CmdTimer,
    /// What runs the commands.
    pub runner: R,
    /// The actions performed so far.
    pub performed: Ghost<Seq<TimerCall>>,
}

impl<R: Runner> CommandTimer<R> {
    /// A timer with the configuration `config` whose commands `runner` runs.
    pub fn new(config: CmdTimer, runner: R) -> (r: Self)
        ensures
            r.config == config,
            r.runner == runner,
            r.calls() == Seq::<TimerCall>::empty(),
    {
        CommandTimer { config, runner, performed: Ghost(Seq::empty()) }
    }

    /// The command of the action `call`.
    pub open spec fn command(&self, call: TimerCall) -> Seq<String> {
        match call {
            TimerCall::Activate => self.config.activation@,
            TimerCall::Abort => self.config.abortion@,
            TimerCall::Deactivate => self.config.deactivation@,
        }
    }

    /// What the action `call` hands the runner: nothing for an empty
    /// command, else the command.
    pub open spec fn handed(self, before: Self, call: TimerCall) -> bool {
        before.runner.tracks_runs() ==> {
            &&& self.runner.tracks_runs()
            &&& self.runner.runs() == if before.command(call).len() == 0 {
                before.runner.runs()
            } else {
                before.runner.runs().push((call, before.command(call)))
            }
        }
    }

    fn act(&mut self, call: TimerCall) -> (r: Result<(), Error>)
        ensures
            final(self).config == old(self).config,
            final(self).performed@ == old(self).performed@.push(call),
            final(self).handed(*old(self), call),
            old(self).command(call).len() == 0 ==> r is Ok && final(self).runner == old(self).runner,
    {
        let argv = match call {
            TimerCall::Activate => &self.config.activation,
            TimerCall::Abort => &self.config.abortion,
            TimerCall::Deactivate => &self.config.deactivation,
        };
        let r = if argv.len() == 0 {
            Ok(())
        } else {
            self.runner.run(call, argv)
        };
        self.performed = Ghost(self.performed@.push(call));
        r
    }
}

impl<R: Runner> Timer for CommandTimer<R> {
    open spec fn setting(&self) -> Setting {
        Setting {
            time: self.config.time,
            disabled: self.config.disabled,
            urgency: if self.config.abortion@.len() == 0 {
                None
            } else {
                Some(ABORT_URGENCY_MS)
            },
        }
    }

    open spec fn calls(&self) -> Seq<TimerCall> {
        self.performed@
    }

    fn time_left(&mut self, idle_time: u64) -> (r: Result<Option<u64>, Error>) {
        Ok(remaining(self.config.time, idle_time))
    }

    fn abort_urgency(&self) -> (r: Option<u64>) {
        if self.config.abortion.len() == 0 {
            None
        } else {
            Some(ABORT_URGENCY_MS)
        }
    }

    fn activate(&mut self) -> (r: Result<(), Error>)
        ensures
            final(self).config == old(self).config,
            final(self).handed(*old(self), TimerCall::Activate),
            old(self).command(TimerCall::Activate).len() == 0 ==> r is Ok && final(self).runner == old(self).runner,
    {
        self.act(TimerCall::Activate)
    }

    fn abort(&mut self) -> (r: Result<(), Error>)
        ensures
            final(self).config == old(self).config,
            final(self).handed(*old(self), TimerCall::Abort),
            old(self).command(TimerCall::Abort).len() == 0 ==> r is Ok && final(self).runner == old(self).runner,
    {
        self.act(TimerCall::Abort)
    }

    fn deactivate(&mut self) -> (r: Result<(), Error>)
        ensures
            final(self).config == old(self).config,
            final(self).handed(*old(self), TimerCall::Deactivate),
            old(self).command(TimerCall::Deactivate).len() == 0 ==> r is Ok && final(self).runner == old(self).runner,
    {
        self.act(TimerCall::Deactivate)
    }

    fn disabled(&mut self) -> (r: bool) {
        self.config.disabled
    }
}

} // verus!
