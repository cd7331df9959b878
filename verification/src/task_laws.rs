//! What holds of every background task, and of every answer about one.

use tokio_util::sync::CancellationToken;
use vstd::prelude::*;

use crate::calendar;
use crate::json;
use crate::json::Json;
use crate::outcome;
use crate::outcome::{BlockView, CallToolResponse, ErrorData, ProtocolStatus, ResultView};
use crate::tasks;
use crate::tasks::{
    DetailedTask, EntryView, Moment, PayloadView, Refused, StateView, TaskCompletionDecision,
    TaskSettlement, TaskStatus,
};

verus! {

// ---------------------------------------------------------------------------
// What a client is told
// ---------------------------------------------------------------------------

/// The status told to a client is one-to-one with the state of the task: working
/// exactly while it runs, and completed, failed or cancelled exactly where it is.
/// No task that is over is told as working, and the payload is of the kind that the
/// status says. With it come the id, the message and the times of the state.
pub proof fn told_as_it_is(task: DetailedTask, state: StateView, poll: u64)
    requires
        tasks::tells(task, state, poll),
    ensures
        task.task@.status == ProtocolStatus::Working <==> state.status == TaskStatus::Running,
        task.task@.status == ProtocolStatus::Completed <==> state.status == TaskStatus::Completed,
        task.task@.status == ProtocolStatus::Failed <==> state.status == TaskStatus::Failed,
        task.task@.status == ProtocolStatus::Cancelled <==> state.status == TaskStatus::Cancelled,
        task.payload@ is Working <==> state.status == TaskStatus::Running,
        task.payload@ is Completed <==> state.status == TaskStatus::Completed,
        task.payload@ is Failed <==> state.status == TaskStatus::Failed,
        task.payload@ is Cancelled <==> state.status == TaskStatus::Cancelled,
        task.task@.task_id == state.id,
        task.task@.status_message == Some(state.message),
        task.task@.created_at == state.created_at_iso,
        task.task@.last_updated_at == state.updated_at_iso,
        task.task@.ttl_ms == Some(86_400_000u64),
        task.task@.poll_interval_ms == Some(poll),
{
}

/// Two states that a client is told alike are of the same status, and a handle says
/// what a poll says.
pub proof fn statuses_are_distinct(one: StateView, other: StateView, poll: u64)
    ensures
        tasks::protocol_task(one, poll).status == tasks::protocol_task(other, poll).status <==>
            one.status == other.status,
        tasks::protocol_task(one, poll).status == ProtocolStatus::Working <==> one.status
            == TaskStatus::Running,
        one.status == TaskStatus::Completed ==> tasks::protocol_task(one, poll).status
            == ProtocolStatus::Completed,
        one.status == TaskStatus::Failed ==> tasks::protocol_task(one, poll).status
            == ProtocolStatus::Failed,
        one.status == TaskStatus::Cancelled ==> tasks::protocol_task(one, poll).status
            == ProtocolStatus::Cancelled,
        tasks::protocol_task(one, poll).task_id == one.id,
        tasks::protocol_task(one, poll).status_message == Some(one.message),
        tasks::protocol_task(one, poll).created_at == one.created_at_iso,
        tasks::protocol_task(one, poll).last_updated_at == one.updated_at_iso,
        tasks::protocol_task(one, poll).ttl_ms == Some(86_400_000u64),
        tasks::protocol_task(one, poll).poll_interval_ms == Some(poll),
{
}

/// A failed task carries the protocol's code for an internal error and the message
/// that it failed with.
pub proof fn failures_carry_their_message(task: DetailedTask, state: StateView, poll: u64)
    requires
        tasks::tells(task, state, poll),
        state.status == TaskStatus::Failed,
    ensures
        task.payload@ is Failed,
        json::field(task.payload@->error, "code"@) == Some(Json::Integer(-32603)),
        json::field(task.payload@->error, "message"@) == Some(Json::Text(state.message)),
        task.payload@->error.len() == 2,
{
    reveal_strlit("code");
    reveal_strlit("message");
    let none = Seq::<(Seq<char>, Json)>::empty();
    let code = Json::Integer(outcome::INTERNAL_ERROR as int);
    json::set_field(none, "code"@, code, "message"@);
    let one = json::with_field(none, "code"@, code);
    assert("code"@.len() == 4 && "message"@.len() == 7);
    json::set_field(one, "message"@, Json::Text(state.message), "code"@);
    json::not_found(none, "code"@);
    json::not_found(none, "message"@);
    json::position_bounds(none, "code"@, 0);
    json::position_bounds(one, "message"@, 0);
    assert(json::field(one, "message"@) is None);
}

/// A completed task carries what was stored where that is the result of a tool call
/// already. Anything else is carried inside one, as the text of its only block: a
/// result that is no error.
pub proof fn completions_carry_their_result(doc: Json, state: StateView)
    requires
        state.status == TaskStatus::Completed,
        state.result == Some(doc),
    ensures
        doc is Object ==> tasks::detail(state, true) == (PayloadView::Completed {
            result: doc->Object_0,
        }),
        ({
            let carried = tasks::detail(state, false)->result;
            &&& tasks::detail(state, false) is Completed
            &&& json::field(carried, "isError"@) == Some(Json::Bool(false))
            &&& json::field(carried, "structuredContent"@) is None
            &&& match json::field(carried, "content"@) {
                Some(Json::List(blocks)) => blocks.len() == 1 && blocks[0].get("type"@) == Some(
                    Json::Text("text"@),
                ) && blocks[0].get("text"@) == Some(Json::Text(json::pretty_text(doc))),
                _ => false,
            }
        }),
{
    let block = outcome::text_block(json::pretty_text(doc));
    wire_of_one_block(block, json::pretty_text(doc));
}

proof fn wire_of_one_block(block: BlockView, shown: Seq<char>)
    requires
        block == outcome::text_block(shown),
    ensures
        ({
            let carried = outcome::result_fields(outcome::success_view(seq![block]));
            &&& json::field(carried, "isError"@) == Some(Json::Bool(false))
            &&& json::field(carried, "structuredContent"@) is None
            &&& match json::field(carried, "content"@) {
                Some(Json::List(blocks)) => blocks.len() == 1 && blocks[0].get("type"@) == Some(
                    Json::Text("text"@),
                ) && blocks[0].get("text"@) == Some(Json::Text(shown)),
                _ => false,
            }
        }),
{
    reveal_strlit("content");
    reveal_strlit("structuredContent");
    reveal_strlit("isError");
    reveal_strlit("resultType");
    reveal_strlit("text");
    reveal_strlit("type");
    let none = Seq::<(Seq<char>, Json)>::empty();
    let result = outcome::success_view(seq![block]);
    let list = Json::List(result.content.map_values(|b: BlockView| outcome::block_json(b)));
    let content = json::with_field(none, "content"@, list);
    let error = json::with_field(content, "isError"@, Json::Bool(false));
    let last = Json::Text("complete"@);
    assert("content"@[0] == 'c' && "isError"@[0] == 'i' && "resultType"@[0] == 'r'
        && "structuredContent"@[0] == 's');
    json::not_found(none, "structuredContent"@);
    json::set_field(none, "content"@, list, "structuredContent"@);
    json::set_field(content, "isError"@, Json::Bool(false), "structuredContent"@);
    json::set_field(content, "isError"@, Json::Bool(false), "content"@);
    json::set_field(error, "resultType"@, last, "structuredContent"@);
    json::set_field(error, "resultType"@, last, "content"@);
    json::set_field(error, "resultType"@, last, "isError"@);
    assert(outcome::result_fields(result) == json::with_field(error, "resultType"@, last));
    assert("text"@[1] == 'e' && "type"@[1] == 'y');
    let inner = json::with_field(none, "text"@, Json::Text(shown));
    json::set_field(none, "text"@, Json::Text(shown), "type"@);
    json::set_field(inner, "type"@, Json::Text("text"@), "text"@);
}

/// The id that an answer names is the text under `task_id` in the document that its
/// first block spells out, and there is none without all of that.
pub proof fn answers_name_their_task(result: ResultView, id: Seq<char>)
    ensures
        tasks::task_id_in(result) == Some(id) <==> {
            &&& result.content.len() > 0
            &&& match result.content[0] {
                BlockView::Text { text, .. } => match json::parsed(text) {
                    Some(Json::Object(fields)) => json::field(fields, "task_id"@) == Some(
                        Json::Text(id),
                    ),
                    _ => false,
                },
                _ => false,
            }
        },
{
}

// ---------------------------------------------------------------------------
// The registry
// ---------------------------------------------------------------------------

/// A task stands in the registry.
pub open spec fn stands(all: Seq<EntryView>, task: EntryView) -> bool {
    all.contains(task)
}

proof fn stands_alone(all: Seq<EntryView>, task: EntryView)
    requires
        tasks::sound(all),
        stands(all, task),
    ensures
        0 <= tasks::position(all, task.state.id) < all.len(),
        all[tasks::position(all, task.state.id)] == task,
{
    let at = choose|i: int| 0 <= i < all.len() && all[i] == task;
    tasks::position_bounds(all, task.state.id, 0);
    let p = tasks::position(all, task.state.id);
    if p > at {
        assert(all[at].state.id != task.state.id);
    } else if p < at {
        assert(tasks::compatible(all[p], all[at]));
    }
}

/// An id finds its task, and for its owner alone.
pub proof fn ids_find_their_task(
    all: Seq<EntryView>,
    task: EntryView,
    owner: Option<Seq<char>>,
)
    requires
        tasks::sound(all),
        stands(all, task),
    ensures
        tasks::state_of(all, task.state.id) == Some(task.state),
        tasks::owned_state(all, owner, task.state.id) == (if owner == task.owner {
            Some(task.state)
        } else {
            None
        }),
{
    stands_alone(all, task);
}

/// An id that no task has finds nothing, for nobody.
pub proof fn other_ids_find_nothing(
    all: Seq<EntryView>,
    id: Seq<char>,
    owner: Option<Seq<char>>,
)
    requires
        forall|i: int| 0 <= i < all.len() ==> (#[trigger] all[i]).state.id != id,
    ensures
        tasks::state_of(all, id) is None,
        tasks::owned_state(all, owner, id) is None,
{
    tasks::position_bounds(all, id, 0);
}

/// Age drops exactly the tasks that are over and have not changed for a day.
pub proof fn a_day_is_kept(all: Seq<EntryView>, task: EntryView, now: u128)
    ensures
        stands(tasks::pruned(all, now), task) <==> stands(all, task) && (task.state.status
            == TaskStatus::Running || now - task.state.updated_at < 86_400_000_000_000),
{
    if stands(tasks::pruned(all, now), task) {
        let k = choose|k: int|
            0 <= k < tasks::pruned(all, now).len() && tasks::pruned(all, now)[k] == task;
        tasks::pruned_comes_from(all, now);
        assert(all.contains(tasks::pruned(all, now)[k]));
    }
    if stands(all, task) && tasks::is_kept(task, now) {
        let at = choose|i: int| 0 <= i < all.len() && all[i] == task;
        tasks::pruned_keeps(all, at, now);
    }
}

/// What one change leaves of the registry: the task in its new form, and every other
/// task that is young enough, as it was. Nothing else is there.
pub open spec fn only_changes(
    before: Seq<EntryView>,
    after: Seq<EntryView>,
    task: EntryView,
    changed: EntryView,
    now: u128,
) -> bool {
    &&& stands(after, changed)
    &&& forall|other: EntryView|
        other.state.id != task.state.id && #[trigger] stands(before, other) && (other.state.status
            == TaskStatus::Running || now - other.state.updated_at < 86_400_000_000_000) ==> stands(
            after,
            other,
        )
    &&& forall|other: EntryView|
        #[trigger] stands(after, other) ==> other == changed || (other.state.id != task.state.id
            && stands(before, other))
}

proof fn one_changes(
    all: Seq<EntryView>,
    task: EntryView,
    changed: EntryView,
    now: Moment,
    prune: bool,
)
    requires
        tasks::sound(all),
        stands(all, task),
        changed.state.id == task.state.id,
        changed.state.status == TaskStatus::Running || changed.state.updated_at == now.nanos
            || !prune,
    ensures
        ({
            let at = tasks::position(all, task.state.id);
            let after = all.update(at, changed);
            only_changes(
                all,
                if prune {
                    tasks::pruned(after, now.nanos)
                } else {
                    after
                },
                task,
                changed,
                now.nanos,
            )
        }),
{
    stands_alone(all, task);
    let at = tasks::position(all, task.state.id);
    let after = all.update(at, changed);
    let end = if prune {
        tasks::pruned(after, now.nanos)
    } else {
        after
    };
    assert(after[at] == changed);
    assert(stands(after, changed));
    a_day_is_kept(after, changed, now.nanos);
    assert forall|other: EntryView|
        other.state.id != task.state.id && #[trigger] stands(all, other) && (other.state.status
            == TaskStatus::Running || now.nanos - other.state.updated_at
            < 86_400_000_000_000) implies stands(end, other) by {
        let i = choose|i: int| 0 <= i < all.len() && all[i] == other;
        assert(after[i] == other);
        assert(stands(after, other));
        a_day_is_kept(after, other, now.nanos);
    }
    assert forall|other: EntryView| #[trigger] stands(end, other) implies other == changed || (
    other.state.id != task.state.id && stands(all, other)) by {
        a_day_is_kept(after, other, now.nanos);
        let i = choose|i: int| 0 <= i < after.len() && after[i] == other;
        if i != at {
            assert(all[i] == other);
            if i < at {
                assert(tasks::compatible(all[i], all[at]));
            } else {
                assert(tasks::compatible(all[at], all[i]));
            }
        }
    }
}

/// A task that is over, from this moment on: nothing of it has changed but its
/// status, its message, what it brought and the time. Nothing is left to signal.
pub open spec fn over(
    task: EntryView,
    status: TaskStatus,
    message: Seq<char>,
    result: Option<Json>,
    now: Moment,
) -> EntryView {
    EntryView {
        owner: task.owner,
        state: StateView {
            id: task.state.id,
            status,
            message,
            result,
            created_at: task.state.created_at,
            updated_at: now.nanos,
            created_at_iso: task.state.created_at_iso,
            updated_at_iso: calendar::timestamp_text(now.secs as int),
            key: task.state.key,
        },
        token: None,
        cancel_requested: None,
    }
}

/// A running task settles as its work ended: completed with the result, or failed
/// with the error. Where cancellation was asked for it is cancelled with the message
/// that it was asked with, except that a cleanup that failed is a failure. No other
/// task changes.
pub proof fn work_settles_as_it_ended(
    all: Seq<EntryView>,
    task: EntryView,
    result: Json,
    error: Seq<char>,
    now: Moment,
)
    requires
        tasks::sound(all),
        stands(all, task),
        task.state.status == TaskStatus::Running,
    ensures
        ({
            let id = task.state.id;
            let done = tasks::after_complete(all, id, result, now);
            let broke = tasks::after_fail(all, id, error, now);
            let dirty = tasks::after_cleanup_error(all, id, error, now);
            let failed = over(task, TaskStatus::Failed, error, None, now);
            &&& task.cancel_requested is None ==> {
                &&& done.1 == TaskSettlement::Completed
                &&& broke.1 == TaskSettlement::Failed
                &&& only_changes(
                    all,
                    done.0,
                    task,
                    over(task, TaskStatus::Completed, "Completed"@, Some(result), now),
                    now.nanos,
                )
                &&& only_changes(all, broke.0, task, failed, now.nanos)
            }
            &&& task.cancel_requested is Some ==> {
                let gone = over(
                    task,
                    TaskStatus::Cancelled,
                    task.cancel_requested->0,
                    None,
                    now,
                );
                &&& done.1 == TaskSettlement::Cancelled
                &&& broke.1 == TaskSettlement::Cancelled
                &&& only_changes(all, done.0, task, gone, now.nanos)
                &&& only_changes(all, broke.0, task, gone, now.nanos)
            }
            &&& dirty.1 == TaskSettlement::Failed
            &&& only_changes(all, dirty.0, task, failed, now.nanos)
        }),
{
    stands_alone(all, task);
    assert(tasks::coherent(task));
    let failed = over(task, TaskStatus::Failed, error, None, now);
    let done = over(task, TaskStatus::Completed, "Completed"@, Some(result), now);
    one_changes(all, task, failed, now, true);
    one_changes(all, task, done, now, true);
    assert(task.cleanup_failed(error, now).0 == failed);
    if task.cancel_requested is Some {
        let gone = over(task, TaskStatus::Cancelled, task.cancel_requested->0, None, now);
        one_changes(all, task, gone, now, true);
        assert(task.completed(result, now).0 == gone);
        assert(task.failed(error, now).0 == gone);
    } else {
        assert(task.completed(result, now).0 == done);
        assert(task.failed(error, now).0 == failed);
    }
}

/// A running task whose lifetime was cancelled ends as cancelled with the message
/// given, whatever its work brought; one whose lifetime was not completes, unless a
/// cancellation is pending. To defer is to leave a pending cancellation pending.
pub proof fn cancelled_lifetimes_win(
    all: Seq<EntryView>,
    task: EntryView,
    result: Json,
    message: Seq<char>,
    now: Moment,
)
    requires
        tasks::sound(all),
        stands(all, task),
        task.state.status == TaskStatus::Running,
    ensures
        ({
            let id = task.state.id;
            let gone = over(task, TaskStatus::Cancelled, message, None, now);
            let done = over(task, TaskStatus::Completed, "Completed"@, Some(result), now);
            let late = tasks::after_complete_unless(all, id, result, true, message, now);
            let good = tasks::after_complete_unless(all, id, result, false, message, now);
            let held = tasks::after_complete_or_defer(all, id, result, true, now);
            let free = tasks::after_complete_or_defer(all, id, result, false, now);
            let stopped = tasks::after_finish_cancelled(all, id, message, now);
            &&& late.1 == TaskSettlement::Cancelled
            &&& only_changes(all, late.0, task, gone, now.nanos)
            &&& stopped.1
            &&& only_changes(all, stopped.0, task, gone, now.nanos)
            &&& held == (all, TaskCompletionDecision::CancellationPending)
            &&& task.cancel_requested is Some ==> free == (
                all,
                TaskCompletionDecision::CancellationPending,
            )
            &&& task.cancel_requested is None ==> {
                &&& good.1 == TaskSettlement::Completed
                &&& only_changes(all, good.0, task, done, now.nanos)
                &&& free.1 == TaskCompletionDecision::Completed
                &&& only_changes(all, free.0, task, done, now.nanos)
            }
        }),
{
    stands_alone(all, task);
    assert(tasks::coherent(task));
    let gone = over(task, TaskStatus::Cancelled, message, None, now);
    let done = over(task, TaskStatus::Completed, "Completed"@, Some(result), now);
    one_changes(all, task, gone, now, true);
    one_changes(all, task, done, now, true);
    assert(task.finished_cancelled(message, now) == gone);
    if task.cancel_requested is None {
        assert(task.completed(result, now).0 == done);
    }
}

/// A task that runs on, from this moment on: nothing of it has changed but what is
/// given here.
pub open spec fn running_on(
    task: EntryView,
    message: Seq<char>,
    asked: Option<Seq<char>>,
    token: Option<CancellationToken>,
    now: Moment,
) -> EntryView {
    EntryView {
        owner: task.owner,
        state: StateView {
            id: task.state.id,
            status: TaskStatus::Running,
            message,
            result: task.state.result,
            created_at: task.state.created_at,
            updated_at: now.nanos,
            created_at_iso: task.state.created_at_iso,
            updated_at_iso: calendar::timestamp_text(now.secs as int),
            key: task.state.key,
        },
        token,
        cancel_requested: asked,
    }
}

/// The token of an operation after it was signalled.
pub open spec fn signalled_token(task: EntryView) -> Option<CancellationToken> {
    match task.token {
        Some(token) => Some(tasks::signalled(token)),
        None => None,
    }
}

/// An owner who asks a running task to cancel is heard once: its token is signalled,
/// the wish is kept with the task, and the task runs on and says so. Nobody else is
/// heard, nor is anyone a second time.
pub proof fn cancellation_is_asked_once(
    all: Seq<EntryView>,
    task: EntryView,
    owner: Option<Seq<char>>,
    now: Moment,
)
    requires
        tasks::sound(all),
        stands(all, task),
    ensures
        ({
            let (after, heard) = tasks::after_cancel(all, owner, task.state.id, now);
            &&& heard <==> owner == task.owner && task.state.status == TaskStatus::Running
                && task.cancel_requested is None
            &&& !heard ==> after == all
            &&& heard ==> only_changes(
                all,
                after,
                task,
                running_on(
                    task,
                    "Cancelled by client; waiting for the operation to settle"@,
                    Some("Cancelled by client"@),
                    signalled_token(task),
                    now,
                ),
                now.nanos,
            )
        }),
{
    stands_alone(all, task);
    let whole = "Cancelled by client; waiting for the operation to settle"@;
    assert("Cancelled by client"@ + "; waiting for the operation to settle"@ =~= whole) by {
        reveal_strlit("Cancelled by client");
        reveal_strlit("; waiting for the operation to settle");
        reveal_strlit("Cancelled by client; waiting for the operation to settle");
    }
    let asked = running_on(
        task,
        whole,
        Some("Cancelled by client"@),
        signalled_token(task),
        now,
    );
    one_changes(all, task, asked, now, true);
    if task.can_be_asked() {
        assert(task.asked_to_cancel("Cancelled by client"@, now) == asked);
    }
}

/// Asking for everything to stop asks exactly the running tasks that were not asked
/// before, each with the message, and counts them. Every other task that is young
/// enough stays as it was.
pub proof fn everything_is_asked_to_stop(
    all: Seq<EntryView>,
    task: EntryView,
    message: Seq<char>,
    now: Moment,
)
    requires
        stands(all, task),
    ensures
        ({
            let (after, count) = tasks::after_cancel_all(all, message, now);
            &&& task.state.status == TaskStatus::Running && task.cancel_requested is None ==> count
                > 0 && stands(
                after,
                running_on(
                    task,
                    message + "; waiting for the operation to settle"@,
                    Some(message),
                    signalled_token(task),
                    now,
                ),
            )
            &&& !(task.state.status == TaskStatus::Running && task.cancel_requested is None) && (
            task.state.status == TaskStatus::Running || now.nanos - task.state.updated_at
                < 86_400_000_000_000) ==> stands(after, task)
            &&& count == all.filter(
                |t: EntryView| t.state.status == TaskStatus::Running && t.cancel_requested is None,
            ).len()
        }),
{
    let at = choose|i: int| 0 <= i < all.len() && all[i] == task;
    let asked = tasks::all_asked(all, message, now);
    assert(asked[at] == task.asked_to_cancel(message, now));
    assert(stands(asked, asked[at]));
    a_day_is_kept(asked, asked[at], now.nanos);
    askable_is_counted(all);
    if task.can_be_asked() {
        let open = |t: EntryView| t.state.status == TaskStatus::Running && t.cancel_requested is None;
        all.lemma_filter_contains(open, at);
        assert(all.filter(open).contains(task));
        assert(asked[at] == running_on(
            task,
            message + "; waiting for the operation to settle"@,
            Some(message),
            signalled_token(task),
            now,
        ));
    }
}

proof fn askable_is_counted(all: Seq<EntryView>)
    ensures
        tasks::askable(all) == all.filter(
            |t: EntryView| t.state.status == TaskStatus::Running && t.cancel_requested is None,
        ).len(),
    decreases all.len(),
{
    reveal(Seq::filter);
    if all.len() > 0 {
        askable_is_counted(all.drop_last());
    }
}

/// News of a running task is kept with it, unless it was asked to cancel; a token is
/// kept with it, signalled where it was. Neither changes any other task.
pub proof fn news_reaches_its_task(
    all: Seq<EntryView>,
    task: EntryView,
    message: Seq<char>,
    token: CancellationToken,
    now: Moment,
)
    requires
        tasks::sound(all),
        stands(all, task),
    ensures
        ({
            let told = tasks::after_update(all, task.state.id, message, now);
            let given = tasks::after_token(all, task.state.id, token);
            let open = task.state.status == TaskStatus::Running && task.cancel_requested is None;
            &&& open ==> only_changes(
                all,
                told,
                task,
                running_on(task, message, None, task.token, now),
                now.nanos,
            )
            &&& !open ==> only_changes(all, told, task, task, now.nanos)
            &&& only_changes(
                all,
                given,
                task,
                EntryView {
                    owner: task.owner,
                    state: task.state,
                    token: Some(
                        if task.cancel_requested is Some {
                            tasks::signalled(token)
                        } else {
                            token
                        },
                    ),
                    cancel_requested: task.cancel_requested,
                },
                now.nanos,
            )
        }),
{
    stands_alone(all, task);
    let held = EntryView {
        token: Some(
            if task.cancel_requested is Some {
                tasks::signalled(token)
            } else {
                token
            },
        ),
        ..task
    };
    one_changes(all, task, held, now, false);
    one_changes(all, task, task.with_message(message, now), now, false);
    if task.can_be_asked() {
        assert(task.with_message(message, now) == running_on(task, message, None, task.token, now));
    }
}

/// Nothing that is said of an id that no task has changes anything.
pub proof fn unknown_ids_change_nothing(
    all: Seq<EntryView>,
    id: Seq<char>,
    owner: Option<Seq<char>>,
    result: Json,
    said: Seq<char>,
    cancelled: bool,
    token: CancellationToken,
    now: Moment,
)
    requires
        forall|i: int| 0 <= i < all.len() ==> (#[trigger] all[i]).state.id != id,
    ensures
        tasks::after_complete(all, id, result, now) == (all, TaskSettlement::Unchanged),
        tasks::after_fail(all, id, said, now) == (all, TaskSettlement::Unchanged),
        tasks::after_cleanup_error(all, id, said, now) == (all, TaskSettlement::Unchanged),
        tasks::after_complete_unless(all, id, result, cancelled, said, now) == (
            all,
            TaskSettlement::Unchanged,
        ),
        tasks::after_complete_or_defer(all, id, result, cancelled, now) == (
            all,
            TaskCompletionDecision::Unchanged,
        ),
        tasks::after_cancel(all, owner, id, now) == (all, false),
        tasks::after_finish_cancelled(all, id, said, now) == (all, false),
        tasks::after_update(all, id, said, now) == all,
        tasks::after_token(all, id, token) == all,
{
    tasks::position_bounds(all, id, 0);
}

/// Work under a key is entered where none such runs and there is room: a running
/// task under that id and key, with the message, the owner and the moment it was
/// given, and nothing brought or asked yet.
pub proof fn work_is_entered(
    all: Seq<EntryView>,
    owner: Option<Seq<char>>,
    id: Seq<char>,
    key: Seq<char>,
    message: Seq<char>,
    now: Moment,
)
    requires
        tasks::sound(all),
        all.len() < 256,
        forall|i: int|
            0 <= i < all.len() ==> !((#[trigger] all[i]).state.status == TaskStatus::Running
                && all[i].state.key == Some(key)),
        forall|i: int| 0 <= i < all.len() ==> (#[trigger] all[i]).state.id != id,
    ensures
        ({
            let (after, res) = tasks::keyed(all, owner, id, key, message, now);
            let stamp = calendar::timestamp_text(now.secs as int);
            let entered = EntryView {
                owner,
                state: StateView {
                    id,
                    status: TaskStatus::Running,
                    message,
                    result: None,
                    created_at: now.nanos,
                    updated_at: now.nanos,
                    created_at_iso: stamp,
                    updated_at_iso: stamp,
                    key: Some(key),
                },
                token: None,
                cancel_requested: None,
            };
            &&& res == Ok::<Seq<char>, Refused>(id)
            &&& stands(after, entered)
            &&& forall|other: EntryView|
                #[trigger] stands(all, other) && (other.state.status == TaskStatus::Running
                    || now.nanos - other.state.updated_at < 86_400_000_000_000) ==> stands(
                    after,
                    other,
                )
            &&& forall|other: EntryView| #[trigger]
                stands(after, other) ==> other == entered || stands(all, other)
        }),
{
    let kept = tasks::pruned(all, now.nanos);
    tasks::pruned_comes_from(all, now.nanos);
    tasks::running_key_bounds(kept, key, 0);
    let found = tasks::running_key_from(kept, key, 0);
    if found < kept.len() {
        assert(all.contains(kept[found]));
        let i = choose|i: int| 0 <= i < all.len() && all[i] == kept[found];
        assert(all[i].state.key == Some(key));
    }
    tasks::position_bounds(kept, id, 0);
    let p = tasks::position(kept, id);
    if p < kept.len() {
        assert(all.contains(kept[p]));
        let i = choose|i: int| 0 <= i < all.len() && all[i] == kept[p];
        assert(all[i].state.id == id);
    }
    let entered = tasks::new_task(owner, id, TaskStatus::Running, message, None, Some(key), now);
    let after = kept.push(entered);
    assert(tasks::keyed(all, owner, id, key, message, now).0 == after);
    assert(after[kept.len() as int] == entered);
    assert forall|other: EntryView| #[trigger] stands(all, other) && (other.state.status
        == TaskStatus::Running || now.nanos - other.state.updated_at
        < 86_400_000_000_000) implies stands(after, other) by {
        a_day_is_kept(all, other, now.nanos);
        let i = choose|i: int| 0 <= i < kept.len() && kept[i] == other;
        assert(after[i] == other);
    }
    assert forall|other: EntryView| #[trigger] stands(after, other) implies other == entered
        || stands(all, other) by {
        let i = choose|i: int| 0 <= i < after.len() && after[i] == other;
        if i < kept.len() {
            assert(kept[i] == other);
            assert(all.contains(kept[i]));
        }
    }
}

// ---------------------------------------------------------------------------
// Requests
// ---------------------------------------------------------------------------

/// Whether an answer says that an id is not known: the protocol's code for bad
/// parameters, with the id that was asked for.
pub open spec fn says_unknown(error: ErrorData, id: Seq<char>) -> bool {
    &&& error@.code == -32602
    &&& error@.message == "Unknown task_id"@
    &&& error@.data is Some
    &&& error@.data->0.get("task_id"@) == Some(Json::Text(id))
}

proof fn unknown_says_so(error: ErrorData, id: Seq<char>)
    requires
        error@ == tasks::unknown(id),
    ensures
        says_unknown(error, id),
{
    json::set_field(Seq::empty(), "task_id"@, Json::Text(id), "task_id"@);
}

/// A poll tells an owner how a task of theirs stands, and is the same to everybody
/// else as a poll for a task that never was.
pub proof fn polls_are_answered(
    before: Seq<EntryView>,
    after: Seq<EntryView>,
    task: EntryView,
    owner: Option<Seq<char>>,
    poll: u64,
    now: Moment,
    res: Result<DetailedTask, ErrorData>,
)
    requires
        tasks::sound(before),
        stands(before, task),
        tasks::answers_get(before, after, owner, task.state.id, poll, now, res),
    ensures
        ({
            let there = task.state.status == TaskStatus::Running || now.nanos
                - task.state.updated_at < 86_400_000_000_000;
            &&& res is Ok <==> there && owner == task.owner
            &&& res is Ok ==> tasks::tells(res->Ok_0, task.state, poll)
            &&& res is Err ==> says_unknown(res->Err_0, task.state.id)
            &&& there ==> stands(after, task)
        }),
{
    tasks::pruned_is_sound(before, now.nanos);
    a_day_is_kept(before, task, now.nanos);
    if stands(after, task) {
        ids_find_their_task(after, task, owner);
    } else {
        gone_is_gone(before, task, owner, now);
    }
    if let Err(error) = res {
        unknown_says_so(error, task.state.id);
    }
}

proof fn gone_is_gone(
    before: Seq<EntryView>,
    task: EntryView,
    owner: Option<Seq<char>>,
    now: Moment,
)
    requires
        tasks::sound(before),
        stands(before, task),
        !stands(tasks::pruned(before, now.nanos), task),
    ensures
        tasks::owned_state(tasks::pruned(before, now.nanos), owner, task.state.id) is None,
{
    let after = tasks::pruned(before, now.nanos);
    tasks::pruned_comes_from(before, now.nanos);
    assert forall|i: int| 0 <= i < after.len() implies (#[trigger] after[i]).state.id
        != task.state.id by {
        assert(before.contains(after[i]));
        if after[i].state.id == task.state.id {
            stands_alone(before, task);
            stands_alone(before, after[i]);
            assert(stands(after, after[i]));
        }
    }
    other_ids_find_nothing(after, task.state.id, owner);
}

/// A request to cancel is acknowledged to the owner of a task that is still there,
/// whether it runs or not, and is the same to everybody else as one for a task that
/// never was. A running task keeps running and has been asked.
pub proof fn cancellations_are_answered(
    before: Seq<EntryView>,
    after: Seq<EntryView>,
    task: EntryView,
    owner: Option<Seq<char>>,
    now: Moment,
    res: Result<(), ErrorData>,
)
    requires
        tasks::sound(before),
        stands(before, task),
        tasks::answers_cancel(before, after, owner, task.state.id, now, res),
    ensures
        ({
            let there = task.state.status == TaskStatus::Running || now.nanos
                - task.state.updated_at < 86_400_000_000_000;
            let open = task.state.status == TaskStatus::Running && task.cancel_requested is None;
            &&& res is Ok <==> there && owner == task.owner
            &&& res is Err ==> says_unknown(res->Err_0, task.state.id)
            &&& there && (res is Err || !open) ==> stands(after, task)
            &&& res is Ok && open ==> stands(
                after,
                running_on(
                    task,
                    "Cancelled by client; waiting for the operation to settle"@,
                    Some("Cancelled by client"@),
                    signalled_token(task),
                    now,
                ),
            )
        }),
{
    let kept = tasks::pruned(before, now.nanos);
    tasks::pruned_is_sound(before, now.nanos);
    a_day_is_kept(before, task, now.nanos);
    if stands(kept, task) {
        ids_find_their_task(kept, task, owner);
        cancellation_is_asked_once(kept, task, owner, now);
    } else {
        gone_is_gone(before, task, owner, now);
    }
    if let Err(error) = res {
        unknown_says_so(error, task.state.id);
    }
}

/// What is delivered to a task is acknowledged to its owner while it is there, and
/// changes nothing of it.
pub proof fn deliveries_are_answered(
    before: Seq<EntryView>,
    after: Seq<EntryView>,
    task: EntryView,
    owner: Option<Seq<char>>,
    now: Moment,
    res: Result<(), ErrorData>,
)
    requires
        tasks::sound(before),
        stands(before, task),
        tasks::answers_update(before, after, owner, task.state.id, now, res),
    ensures
        ({
            let there = task.state.status == TaskStatus::Running || now.nanos
                - task.state.updated_at < 86_400_000_000_000;
            &&& res is Ok <==> there && owner == task.owner
            &&& res is Err ==> says_unknown(res->Err_0, task.state.id)
            &&& there ==> stands(after, task)
        }),
{
    tasks::pruned_is_sound(before, now.nanos);
    a_day_is_kept(before, task, now.nanos);
    if stands(after, task) {
        ids_find_their_task(after, task, owner);
    } else {
        gone_is_gone(before, task, owner, now);
    }
    if let Err(error) = res {
        unknown_says_so(error, task.state.id);
    }
}

/// An answer that names a task becomes the handle of that task where the peer can
/// hold one, and is left as it is where the peer cannot. An answer that names none is
/// left as it is.
pub proof fn handles_are_handed_out(
    before: Seq<EntryView>,
    after: Seq<EntryView>,
    task: EntryView,
    can_hold: bool,
    response: CallToolResponse,
    poll: u64,
    now: Moment,
    res: Result<CallToolResponse, ErrorData>,
)
    requires
        tasks::sound(before),
        stands(before, task),
        task.state.status == TaskStatus::Running,
        tasks::answers_start(before, after, can_hold, response, poll, now, res),
    ensures
        !can_hold || !(response is Complete) ==> res == Ok::<CallToolResponse, ErrorData>(response)
            && after == before,
        can_hold && response is Complete && tasks::task_id_in(response->Complete_0@) is None ==> res
            == Ok::<CallToolResponse, ErrorData>(response) && after == before,
        can_hold && response is Complete && tasks::task_id_in(response->Complete_0@) == Some(
            task.state.id,
        ) ==> match res {
            Ok(CallToolResponse::Task(handle)) => handle@ == tasks::protocol_task(
                task.state,
                poll,
            ),
            _ => false,
        },
{
    tasks::pruned_is_sound(before, now.nanos);
    a_day_is_kept(before, task, now.nanos);
    let kept = tasks::pruned(before, now.nanos);
    ids_find_their_task(kept, task, task.owner);
}

} // verus!
