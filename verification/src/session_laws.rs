//! What holds of every session that a command line names, and of every wait for one.

use vstd::prelude::*;

use crate::command::Matches;
use crate::session;
use crate::session::{
    MissingSession, Readiness, ReadySpec, SessionArgs, SessionSpec, WaitStep,
};
use crate::tool::ToolDef;

verus! {

/// A session adds its own flag, and the one that skips the wait exactly where there is
/// a wait; every leaf takes them, and they are the flags that no tool may have.
pub proof fn a_session_adds_its_flags(spec: SessionSpec)
    ensures
        ({
            let args = session::session_args(spec);
            &&& args.len() == (if spec.ready is Some {
                2int
            } else {
                1int
            })
            &&& args[0].long == Some(spec.flag@)
            &&& args[0].value_name == Some(spec.value_name@)
            &&& args[0].help == Some(spec.help@)
            &&& args[0].need is Optional
            &&& args[0].action is TakeOne
            &&& spec.ready is Some ==> args[1].long == Some(spec.ready->0.skip_flag@)
                && args[1].help == Some(spec.ready->0.skip_help@) && args[1].action is Switch
                && args[1].id != args[0].id
            &&& session::session_flags(spec).len() == args.len()
            &&& forall|i: int|
                0 <= i < args.len() ==> (#[trigger] args[i]).global && args[i].long == Some(
                    session::session_flags(spec)[i],
                )
        }),
{
    reveal_strlit("__vibrev_session");
    reveal_strlit("__vibrev_no_wait");
    assert("__vibrev_session"@[9] == 's' && "__vibrev_no_wait"@[9] == 'n');
}

/// The session is what was given under its flag, and it is waited for unless the wait
/// was skipped or there is none; without it, the user is told which flag is needed.
pub proof fn the_session_is_what_was_given(
    spec: &SessionSpec,
    m: &Matches,
    found: Result<SessionArgs, MissingSession>,
)
    requires
        call_ensures(SessionSpec::read, (spec, m), found),
    ensures
        ({
            let args = session::session_args(*spec);
            &&& found is Ok <==> m.first(args[0].id) is Some
            &&& found matches Ok(read) ==> read.target@ == m.first(args[0].id)->0
                && (read.wait_for_ready <==> spec.ready is Some && !m.set(args[1].id))
            &&& found matches Err(missing) ==> missing.flag@ == spec.flag@ && missing.message@
                == spec.missing@
        }),
{
}

/// A tool that needs no session is not asked for one, and one that does gets it or the
/// same refusal.
pub proof fn only_tools_that_need_one_are_asked(
    spec: &SessionSpec,
    def: &ToolDef,
    m: &Matches,
    found: Result<Option<SessionArgs>, MissingSession>,
)
    requires
        call_ensures(SessionSpec::read_for, (spec, def, m), found),
    ensures
        ({
            let args = session::session_args(*spec);
            &&& !def.cli.needs_session ==> (found matches Ok(None))
            &&& def.cli.needs_session ==> (found is Ok <==> m.first(args[0].id) is Some)
            &&& def.cli.needs_session && found is Ok ==> (found matches Ok(Some(read))
                && read.target@ == m.first(args[0].id)->0 && (read.wait_for_ready
                <==> spec.ready is Some && !m.set(args[1].id)))
            &&& found matches Err(missing) ==> missing.flag@ == spec.flag@ && missing.message@
                == spec.missing@
        }),
{
}

/// A wait ends at once where the engine is ready or cannot say, and its reason is kept;
/// while it is not ready, the wait goes on as long as one more interval ends before
/// the ceiling, and then says that time ran out.
pub proof fn waits_end_for_a_reason(
    spec: &ReadySpec,
    answer: Result<bool, String>,
    now_ms: u64,
    deadline_ms: u64,
    step: WaitStep,
)
    requires
        call_ensures(session::after_probe, (spec, answer, now_ms, deadline_ms), step),
    ensures
        step is SleepAndProbe <==> answer == Ok::<bool, String>(false) && now_ms + spec.poll_ms
            < deadline_ms,
        answer == Ok::<bool, String>(true) ==> step == WaitStep::Done(Readiness::Ready),
        answer == Ok::<bool, String>(false) && now_ms + spec.poll_ms >= deadline_ms ==> step
            == WaitStep::Done(Readiness::TimedOut),
        answer matches Err(reason) ==> step matches WaitStep::Done(Readiness::Unknown(said))
            && said@ == reason@,
{
}

/// The user is warned exactly where the answer may be incomplete: time ran out, or the
/// engine could not say, and the reason is shown.
pub proof fn doubt_is_told(outcome: Readiness, spec: ReadySpec)
    ensures
        outcome.said(spec) is None <==> outcome is Ready || outcome is Skipped,
        outcome is TimedOut ==> outcome.said(spec) == Some(spec.timed_out@),
        outcome matches Readiness::Unknown(reason) ==> outcome.said(spec) == Some(
            spec.unknown@ + "（"@ + reason@ + "）"@,
        ),
{
}

} // verus!
