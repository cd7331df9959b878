//! What holds of calls that follow one another: what one step takes in is what the next
//! one works with.

use vstd::prelude::*;

use crate::cli;
use crate::cli::EngineCli;
use crate::command::{CommandSpec, Matches};
use crate::contract::Audit;
use crate::outcome::ErrorData;
use crate::output;
use crate::policy;
use crate::policy::{Governed, PolicyArgs, PolicyBuilder};
use crate::router;
use crate::session::SessionSpec;
use crate::tasks;
use crate::text;
use crate::tool::{Tool, ToolDef};

verus! {

// ---------------------------------------------------------------------------
// Policies
// ---------------------------------------------------------------------------

/// What was given under a flag of the policy is what the policy is built from, list by
/// list, and nothing else of the builder changes.
pub proof fn flags_reach_the_policy(
    m: &Matches,
    args: PolicyArgs,
    before: PolicyBuilder<'_>,
    after: PolicyBuilder<'_>,
)
    requires
        call_ensures(PolicyArgs::read, (m,), args),
        call_ensures(PolicyArgs::apply, (&args, before), after),
    ensures
        ({
            let flags = policy::policy_flags();
            let asked = after.request();
            &&& asked.categories == policy::listed(policy::values_or_none(*m, flags[0].id))
            &&& asked.tools == policy::listed(policy::values_or_none(*m, flags[1].id))
            &&& asked.excluded == policy::listed(policy::values_or_none(*m, flags[2].id))
            &&& asked.read_only == m.set(flags[3].id)
            &&& asked.catalog == before.request().catalog
            &&& asked.taxonomy == before.request().taxonomy
            &&& asked.essential == before.request().essential
        }),
{
}

/// Each of the builder's lists is set by the call of its name and left alone by the
/// others.
pub proof fn builders_set_one_thing_each(
    before: PolicyBuilder<'_>,
    input: &[String],
    yes: bool,
    one: PolicyBuilder<'_>,
    two: PolicyBuilder<'_>,
    three: PolicyBuilder<'_>,
    four: PolicyBuilder<'_>,
)
    requires
        call_ensures(PolicyBuilder::include_categories, (before, input), one),
        call_ensures(PolicyBuilder::include_tools, (before, input), two),
        call_ensures(PolicyBuilder::exclude_tools, (before, input), three),
        call_ensures(PolicyBuilder::read_only, (before, yes), four),
    ensures
        ({
            let was = before.request();
            let names = policy::listed(text::texts(input@));
            &&& one.request().categories == names && one.request().tools == was.tools
                && one.request().excluded == was.excluded && one.request().read_only
                == was.read_only
            &&& two.request().tools == names && two.request().categories == was.categories
                && two.request().excluded == was.excluded && two.request().read_only
                == was.read_only
            &&& three.request().excluded == names && three.request().categories == was.categories
                && three.request().tools == was.tools && three.request().read_only
                == was.read_only
            &&& four.request().read_only == yes && four.request().categories == was.categories
                && four.request().tools == was.tools && four.request().excluded == was.excluded
        }),
{
}

/// A tool that cannot be called cannot be looked up, and one that can is looked up as
/// the server knows it; who is refused is told the name.
pub proof fn lookups_follow_calls<S>(
    server: &Governed<S>,
    name: &str,
    known: Option<Tool>,
    called: Result<(), String>,
    found: Option<Tool>,
)
    requires
        call_ensures(Governed::<S>::call_tool, (server, name), called),
        call_ensures(Governed::<S>::get_tool, (server, name, known), found),
    ensures
        called is Ok ==> found == known,
        called is Err ==> found is None,
        called is Ok <==> server.rule().admits(name@),
        called matches Err(told) ==> told@ == policy::refusal_text(name@),
{
}

// ---------------------------------------------------------------------------
// Scans
// ---------------------------------------------------------------------------

/// A scan compares two builds at least, and as many as were asked for; it looks for null
/// branches unless they are allowed; and what else it was told stays.
pub proof fn scans_are_what_was_asked_for(
    audit: Audit<'_>,
    times: usize,
    allowed: bool,
    repeated: Audit<'_>,
    lenient: Audit<'_>,
)
    requires
        call_ensures(Audit::repeats, (audit, times), repeated),
        call_ensures(Audit::nullable_input_branches, (audit, allowed), lenient),
    ensures
        repeated.config().repeats >= 2,
        times >= 2 ==> repeated.config().repeats == times,
        repeated.config().face == audit.config().face,
        repeated.config().owed == audit.config().owed,
        repeated.config().required == audit.config().required,
        repeated.config().no_null_branches == audit.config().no_null_branches,
        lenient.config().no_null_branches <==> !allowed,
        lenient.config().repeats == audit.config().repeats,
        lenient.config().owed == audit.config().owed,
        lenient.config().required == audit.config().required,
{
}

/// A new scan is the strict one: everyone owes an output schema, and null branches are
/// looked for. A property that is demanded comes behind those demanded before.
pub proof fn scans_start_strict<'a>(
    face: &'a str,
    fresh: Audit<'a>,
    name: &'a str,
    tools: &'a [&'a str],
    demanding: Audit<'a>,
)
    requires
        call_ensures(Audit::new, (face,), fresh),
        call_ensures(Audit::require_output_property, (fresh, name, tools), demanding),
    ensures
        fresh.config().face == face@,
        fresh.config().owed is Everyone,
        fresh.config().required.len() == 0,
        fresh.config().no_null_branches,
        fresh.config().repeats == 3,
        demanding.config().required == seq![(name@, text::strs(tools@))],
        demanding.config().owed is Everyone,
{
    assert(demanding.config().required =~= seq![(name@, text::strs(tools@))]);
}

// ---------------------------------------------------------------------------
// Command lines
// ---------------------------------------------------------------------------

/// An engine that declares nothing has the command that is built of its tools at once.
pub proof fn plain_engines_are_built_at_once(
    bin: &'static str,
    defs: Vec<ToolDef>,
    built: Result<CommandSpec, String>,
    engine: EngineCli,
    made: Result<CommandSpec, String>,
)
    requires
        call_ensures(cli::build, (bin, defs), built),
        call_ensures(EngineCli::new, (bin, defs), engine),
        call_ensures(EngineCli::command, (engine,), made),
    ensures
        built is Ok <==> made is Ok,
        built matches Ok(one) ==> (made matches Ok(other) && one.said() == other.said()),
        built matches Err(one) ==> (made matches Err(other) && one@ == other@),
{
}

/// What an engine declares is kept, one thing by each call.
pub proof fn engines_keep_what_they_declare(
    engine: EngineCli,
    spec: &'static SessionSpec,
    names: &[&'static str],
    with_session: EngineCli,
    with_names: EngineCli,
)
    requires
        call_ensures(EngineCli::with_session, (engine, spec), with_session),
        call_ensures(EngineCli::with_management, (engine, names), with_names),
    ensures
        with_session.said().session == Some(*spec),
        with_session.said().defs == engine.said().defs,
        with_session.said().management == engine.said().management,
        with_session.said().about == engine.said().about,
        with_names.said().management == Some(text::strs(names@)),
        with_names.said().defs == engine.said().defs,
        with_names.said().session == engine.said().session,
        with_names.said().about == engine.said().about,
{
}

// ---------------------------------------------------------------------------
// Answers
// ---------------------------------------------------------------------------

/// A router answers with the first tool of a name, and where it has none the answer is
/// recognised as saying so.
pub proof fn routers_find_or_pass_over(
    names: &[String],
    name: &str,
    found: Result<usize, ErrorData>,
    passed: bool,
)
    requires
        call_ensures(router::dispatch, (names, name), found),
        found matches Err(error) ==> call_ensures(router::is_unknown_tool, (&error,), passed),
    ensures
        found matches Ok(at) ==> at < names@.len() && names@[at as int]@ == name@ && (forall|j: int|
            0 <= j < at ==> (#[trigger] names@[j])@ != name@),
        found matches Err(error) ==> passed && error@.code == -32602 && (forall|j: int|
            0 <= j < names@.len() ==> (#[trigger] names@[j])@ != name@),
{
    tools_are_found_first(text::texts(names@), name@, 0);
    router::unknown_tools_are_passed_over(name@);
    assert forall|j: int| 0 <= j < names@.len() implies (#[trigger] names@[j])@ == text::texts(
        names@,
    )[j] by {}
}

proof fn tools_are_found_first(names: Seq<Seq<char>>, name: Seq<char>, from: int)
    requires
        0 <= from,
    ensures
        match router::tool_named(names, name, from) {
            Some(at) => from <= at < names.len() && names[at] == name && (forall|j: int|
                from <= j < at ==> #[trigger] names[j] != name),
            None => forall|j: int| from <= j < names.len() ==> #[trigger] names[j] != name,
        },
    decreases names.len() - from,
{
    if from < names.len() {
        let seen = names[from];
        tools_are_found_first(names, name, from + 1);
    }
}

/// A peer can hold a task handle exactly where it speaks a version of the protocol that
/// has them, or a later one, and says that it supports tasks.
pub proof fn only_recent_peers_hold_handles(
    version: Option<&str>,
    supports: Option<bool>,
    yes: bool,
)
    requires
        call_ensures(tasks::peer_can_hold_task_handle, (version, supports), yes),
    ensures
        yes ==> supports == Some(true) && version is Some,
        yes ==> !text::text_before(version->0@, "2026-07-28"@),
        supports == Some(true) && version is Some && !text::text_before(
            version->0@,
            "2026-07-28"@,
        ) ==> yes,
{
}

/// An answer that could not be stored is an internal error that says why.
pub proof fn storing_fails_with_its_reason(error: &str, answer: ErrorData)
    requires
        call_ensures(output::store_failed, (error,), answer),
    ensures
        answer@.code == -32603,
        text::ends(answer@.message, error@),
        answer@.data is None,
{
    let told = answer@.message;
    assert(told.skip(told.len() - error@.len()) =~= error@);
}

} // verus!
