//! The subject an engine's tools operate on.
//!
//! Every engine is stateful in the same way: a tool reads the open subject, not
//! one it was handed. What is modelled here is the slot that names it on the
//! command line, and the wait for it to be ready.

use vstd::prelude::*;

use crate::command;
use crate::command::{Action, ArgSpec, ArgView, Matches};
use crate::text;
use crate::tool::ToolDef;

verus! {

/// Argument id for the session flag.
pub const SESSION_ARG: &'static str = "__vibrev_session";

/// Argument id for the readiness opt-out.
pub const NO_WAIT_ARG: &'static str = "__vibrev_no_wait";

/// How an engine declares the thing its tools are about.
#[derive(Debug, Clone, Copy)]
pub struct SessionSpec {
    /// The schema property that names a session explicitly. The command line
    /// registers no flag for it and never sends it.
    pub selector: Option<&'static str>,
    /// Long flag, without dashes.
    pub flag: &'static str,
    /// Value placeholder in the help.
    pub value_name: &'static str,
    pub help: &'static str,
    /// What to tell the user when the flag is absent.
    pub missing: &'static str,
    /// Readiness gate, where a session is not usable the moment it opens.
    pub ready: Option<ReadySpec>,
}

/// When "open" does not yet mean "answers correctly".
#[derive(Debug, Clone, Copy)]
pub struct ReadySpec {
    /// Long flag, without dashes, that skips the wait.
    pub skip_flag: &'static str,
    pub skip_help: &'static str,
    /// Ceiling on the whole wait, in milliseconds.
    pub timeout_ms: u64,
    /// Interval between probes, in milliseconds.
    pub poll_ms: u64,
    /// Printed when the ceiling is reached.
    pub timed_out: &'static str,
    /// Printed when the engine cannot tell whether it is ready.
    pub unknown: &'static str,
}

/// What the command line said about the session.
#[derive(Debug)]
pub struct SessionArgs {
    /// The value of the session flag, verbatim.
    pub target: String,
    /// Whether to run the readiness wait.
    pub wait_for_ready: bool,
}

/// The session flag was not given.
#[derive(Debug, Clone, Copy)]
pub struct MissingSession {
    pub flag: &'static str,
    pub message: &'static str,
}

impl MissingSession {
    /// Which flag is needed, and why.
    pub fn to_text(&self) -> (res: String)
        ensures
            res@ == "need --"@ + self.flag@ + " — "@ + self.message@,
    {
        let mut out = "need --".to_owned();
        out.append(self.flag);
        out.append(" — ");
        out.append(self.message);
        out
    }
}

/// The arguments a session adds to the tool subtree.
pub open spec fn session_args(spec: SessionSpec) -> Seq<ArgView> {
    let target = ArgView {
        long: Some(spec.flag@),
        value_name: Some(spec.value_name@),
        help: Some(spec.help@),
        global: true,
        ..command::plain_arg(SESSION_ARG@)
    };
    match spec.ready {
        Some(ready) => seq![
            target,
            ArgView {
                long: Some(ready.skip_flag@),
                help: Some(ready.skip_help@),
                action: Action::Switch,
                global: true,
                ..command::plain_arg(NO_WAIT_ARG@)
            },
        ],
        None => seq![target],
    }
}

/// The long flags a session occupies.
pub open spec fn session_flags(spec: SessionSpec) -> Seq<Seq<char>> {
    match spec.ready {
        Some(ready) => seq![spec.flag@, ready.skip_flag@],
        None => seq![spec.flag@],
    }
}

impl SessionSpec {
    /// The arguments to hang off the tool subtree, accepted by every leaf.
    pub fn args(&self) -> (res: Vec<ArgSpec>)
        ensures
            command::args_said(res@) == session_args(*self),
    {
        let mut out: Vec<ArgSpec> = Vec::new();
        let mut target = ArgSpec::new(SESSION_ARG.to_owned());
        target.long = Some(self.flag.to_owned());
        target.value_name = Some(self.value_name.to_owned());
        target.help = Some(self.help.to_owned());
        target.global = true;
        out.push(target);
        if let Some(ready) = &self.ready {
            let mut skip = ArgSpec::new(NO_WAIT_ARG.to_owned());
            skip.long = Some(ready.skip_flag.to_owned());
            skip.help = Some(ready.skip_help.to_owned());
            skip.action = Action::Switch;
            skip.global = true;
            out.push(skip);
        }
        assert(command::args_said(out@) =~= session_args(*self));
        out
    }

    /// Long flag names this spec occupies.
    pub fn flags(&self) -> (res: Vec<&'static str>)
        ensures
            text::strs(res@) == session_flags(*self),
    {
        let mut out: Vec<&'static str> = Vec::new();
        out.push(self.flag);
        if let Some(ready) = &self.ready {
            out.push(ready.skip_flag);
        }
        assert(text::strs(out@) =~= session_flags(*self));
        out
    }

    /// Reads the session out of what was parsed.
    pub fn read(&self, m: &Matches) -> (res: Result<SessionArgs, MissingSession>)
        ensures
            match res {
                Ok(args) => m.first(SESSION_ARG@) == Some(args.target@) && args.wait_for_ready == (
                self.ready is Some && !m.set(NO_WAIT_ARG@)),
                Err(missing) => m.first(SESSION_ARG@) is None && missing.flag@ == self.flag@
                    && missing.message@ == self.missing@,
            },
    {
        match m.one(SESSION_ARG) {
            Some(target) => Ok(
                SessionArgs {
                    target: target.to_owned(),
                    wait_for_ready: self.ready.is_some() && !m.flag(NO_WAIT_ARG),
                },
            ),
            None => Err(MissingSession { flag: self.flag, message: self.missing }),
        }
    }

    /// Reads the session for one tool: a tool that needs none is not asked for
    /// one.
    pub fn read_for(&self, def: &ToolDef, m: &Matches) -> (res: Result<
        Option<SessionArgs>,
        MissingSession,
    >)
        ensures
            match res {
                Ok(Some(args)) => def.cli.needs_session && m.first(SESSION_ARG@) == Some(
                    args.target@,
                ) && args.wait_for_ready == (self.ready is Some && !m.set(NO_WAIT_ARG@)),
                Ok(None) => !def.cli.needs_session,
                Err(missing) => def.cli.needs_session && m.first(SESSION_ARG@) is None
                    && missing.flag@ == self.flag@ && missing.message@ == self.missing@,
            },
    {
        if !def.cli.needs_session {
            return Ok(None);
        }
        match self.read(m) {
            Ok(args) => Ok(Some(args)),
            Err(missing) => Err(missing),
        }
    }
}

/// How the readiness wait ended.
#[derive(Debug, PartialEq, Eq)]
pub enum Readiness {
    /// The engine reported ready before the ceiling.
    Ready,
    /// The wait was not run.
    Skipped,
    /// The ceiling was reached with the engine still not ready.
    TimedOut,
    /// The engine could not say. Carries its reason.
    Unknown(String),
}

impl Readiness {
    /// What the user is told, where the answer that follows may be incomplete.
    pub open spec fn said(&self, spec: ReadySpec) -> Option<Seq<char>> {
        match self {
            Readiness::Ready | Readiness::Skipped => None,
            Readiness::TimedOut => Some(spec.timed_out@),
            Readiness::Unknown(reason) => Some(spec.unknown@ + "（"@ + reason@ + "）"@),
        }
    }

    /// The line to print, if this outcome means the answer may be incomplete.
    pub fn warning(&self, spec: &ReadySpec) -> (res: Option<String>)
        ensures
            match res {
                Some(line) => self.said(*spec) == Some(line@),
                None => self.said(*spec) is None,
            },
    {
        match self {
            Readiness::Ready | Readiness::Skipped => None,
            Readiness::TimedOut => Some(spec.timed_out.to_owned()),
            Readiness::Unknown(reason) => {
                let mut line = spec.unknown.to_owned();
                line.append("（");
                line.append(reason.as_str());
                line.append("）");
                Some(line)
            },
        }
    }

    pub fn is_ready(&self) -> (res: bool)
        ensures
            res == (*self is Ready),
    {
        match self {
            Readiness::Ready => true,
            _ => false,
        }
    }
}

/// What the waiting loop does next.
#[derive(Debug, PartialEq, Eq)]
pub enum WaitStep {
    /// Sleep for the poll interval and probe again.
    SleepAndProbe,
    /// Stop with this outcome.
    Done(Readiness),
}

/// Decides, after one probe, whether to wait on.
///
/// `now_ms` is the time after the probe and `deadline_ms` the ceiling, both from
/// one monotonic clock. Giving up is always said: a probe that failed ends the
/// wait with its reason, and one more interval must not reach the ceiling.
pub fn after_probe(
    spec: &ReadySpec,
    answer: Result<bool, String>,
    now_ms: u64,
    deadline_ms: u64,
) -> (res: WaitStep)
    ensures
        match answer {
            Ok(true) => res == WaitStep::Done(Readiness::Ready),
            Err(reason) => res matches WaitStep::Done(Readiness::Unknown(said)) && said@ == reason@,
            Ok(false) => if now_ms + spec.poll_ms >= deadline_ms {
                res == WaitStep::Done(Readiness::TimedOut)
            } else {
                res is SleepAndProbe
            },
        },
{
    match answer {
        Ok(true) => WaitStep::Done(Readiness::Ready),
        Err(reason) => WaitStep::Done(Readiness::Unknown(reason)),
        Ok(false) => if now_ms >= deadline_ms || deadline_ms - now_ms <= spec.poll_ms {
            WaitStep::Done(Readiness::TimedOut)
        } else {
            WaitStep::SleepAndProbe
        },
    }
}

/// The waiting loop over a clock and a probe: it starts, sleeps one interval at
/// a time, and after each probe does what [`after_probe`] says.
pub open spec fn probes_left(spec: ReadySpec, now_ms: int, deadline_ms: int) -> int {
    if spec.poll_ms == 0 || now_ms >= deadline_ms {
        0
    } else {
        (deadline_ms - now_ms) / (spec.poll_ms as int)
    }
}

/// A wait that goes on never sleeps past the ceiling, and every sleep brings the
/// ceiling nearer.
pub proof fn waiting_ends(spec: ReadySpec, now_ms: int, deadline_ms: int, woken_ms: int)
    requires
        spec.poll_ms > 0,
        now_ms + spec.poll_ms < deadline_ms,
        woken_ms >= now_ms + spec.poll_ms,
    ensures
        now_ms + spec.poll_ms < deadline_ms,
        0 <= probes_left(spec, woken_ms, deadline_ms) < probes_left(spec, now_ms, deadline_ms),
{
    let poll = spec.poll_ms as int;
    vstd::arithmetic::div_mod::lemma_div_plus_one(deadline_ms - now_ms - poll, poll);
    if woken_ms < deadline_ms {
        vstd::arithmetic::div_mod::lemma_div_is_ordered(
            deadline_ms - woken_ms,
            deadline_ms - now_ms - poll,
            poll,
        );
        vstd::arithmetic::div_mod::lemma_div_pos_is_pos(deadline_ms - woken_ms, poll);
    } else {
        vstd::arithmetic::div_mod::lemma_div_pos_is_pos(deadline_ms - now_ms - poll, poll);
    }
}

} // verus!
