//! Background work, and the protocol's tasks over it.
//!
//! An engine puts a call in the background when the answer takes longer than a
//! client will wait. What the caller gets back is a handle, and from there the
//! conversation is pure protocol: how a task is polled, what its terminal payload
//! looks like, who may cancel it, how long a result stays fetchable. Which calls
//! run in the background stays with the engine.

use tokio_util::sync::CancellationToken;
use vstd::prelude::*;

use crate::ambient;
use crate::ambient::{random_id, unix_seconds, Clock};
use crate::calendar;
use crate::calendar::timestamp;
use crate::json;
use crate::json::{parse_json, to_pretty, to_serde, Fields, Json, JsonValue, Numeral};
use crate::outcome;
use crate::outcome::{
    call_tool_result_to_value, CallToolResponse, CallToolResult, ContentBlock, ErrorData,
    ErrorView, ProtocolStatus, ResultView, Task, TaskView,
};
use crate::output;
use crate::text;
use crate::text::{is_text_before, same};
use crate::tool;
use crate::tool::clone_text;

verus! {

/// How long a terminal task stays fetchable after its last transition.
pub const TASK_RETENTION_TTL_MS: u64 = 86_400_000;

/// Hard bound for all retained tasks, running ones included.
pub const MAX_TASK_REGISTRY_ENTRIES: usize = 256;

/// Poll cadence handed to the client with every task handle.
pub const DEFAULT_POLL_INTERVAL_MS: u64 = 5_000;

/// [`TASK_RETENTION_TTL_MS`] in nanoseconds.
const RETENTION: u128 = 86_400_000_000_000;

/// `tokio_util::sync::CancellationToken`: shared with the operation it cancels,
/// and never looked into.
#[verifier::external_type_specification]
#[verifier::external_body]
pub struct ExternalCancellationToken(CancellationToken);

/// A token once `CancellationToken::cancel` was called on it.
pub uninterp spec fn signalled(token: CancellationToken) -> CancellationToken;

/// Whether a token is known to read as cancelled. Nothing makes a token read so
/// but a call of `CancellationToken::cancel`; that it does not read so is never
/// known, for whoever else holds the token may have cancelled it.
pub uninterp spec fn reads_cancelled(token: CancellationToken) -> bool;

/// `CancellationToken::cancel`: the token reads as cancelled from then on. Whom
/// that wakes lies outside, and nothing is said of it.
#[verifier::external_body]
fn signal(token: &mut CancellationToken)
    ensures
        *final(token) == signalled(*old(token)),
        reads_cancelled(*final(token)),
{
    token.cancel()
}

/// `CancellationToken::is_cancelled`: a token that reads as cancelled stays so.
/// Of any other nothing is said: somebody may have cancelled it by now.
#[verifier::external_body]
fn is_signalled(token: &CancellationToken) -> (res: bool)
    ensures
        reads_cancelled(*token) ==> res,
{
    token.is_cancelled()
}

/// Identity allowed to observe and control a task.
#[derive(Debug, PartialEq, Eq)]
pub enum TaskOwner {
    /// A stateful session.
    Session(String),
    /// Requests without a session, which have no stable identity.
    Runtime,
}

impl TaskOwner {
    /// The session; nothing where there is none.
    pub open spec fn said(&self) -> Option<Seq<char>> {
        match self {
            TaskOwner::Session(id) => Some(id@),
            TaskOwner::Runtime => None,
        }
    }

    fn is_same(&self, other: &TaskOwner) -> (res: bool)
        ensures
            res == (self.said() == other.said()),
    {
        match (self, other) {
            (TaskOwner::Session(a), TaskOwner::Session(b)) => same(a.as_str(), b.as_str()),
            (TaskOwner::Runtime, TaskOwner::Runtime) => true,
            _ => false,
        }
    }
}

impl Clone for TaskOwner {
    fn clone(&self) -> (res: Self)
        ensures
            res.said() == self.said(),
    {
        match self {
            TaskOwner::Session(id) => TaskOwner::Session(id.clone()),
            TaskOwner::Runtime => TaskOwner::Runtime,
        }
    }
}

/// Failure to admit a background task.
#[derive(Debug, Clone, PartialEq, Eq)]
pub enum TaskCreateError {
    /// The same session already has matching work in progress.
    AlreadyRunning(String),
    /// Matching work exists, but its task id must remain private.
    ExistingTaskIdIsPrivate,
    /// Every slot is held by a running task.
    CapacityExceeded { max_entries: usize },
}

/// What a [`TaskCreateError`] says.
pub enum Refused {
    AlreadyRunning(Seq<char>),
    ExistingTaskIdIsPrivate,
    CapacityExceeded { max_entries: usize },
}

impl TaskCreateError {
    pub open spec fn said(&self) -> Refused {
        match self {
            TaskCreateError::AlreadyRunning(id) => Refused::AlreadyRunning(id@),
            TaskCreateError::ExistingTaskIdIsPrivate => Refused::ExistingTaskIdIsPrivate,
            TaskCreateError::CapacityExceeded { max_entries } => Refused::CapacityExceeded {
                max_entries: *max_entries,
            },
        }
    }
}

/// Task status in its lifecycle.
#[derive(Debug, Clone, Copy, PartialEq, Eq, Structural)]
pub enum TaskStatus {
    Running,
    Completed,
    Failed,
    Cancelled,
}

/// Result of attempting to settle a task after its operation returned.
#[derive(Debug, Clone, Copy, PartialEq, Eq, Structural)]
pub enum TaskSettlement {
    Completed,
    Failed,
    Cancelled,
    Unchanged,
}

/// Decision made at the final boundary of a successful result. A pending
/// cancellation stays non-terminal so that the caller can clean up first.
#[derive(Debug, Clone, Copy, PartialEq, Eq, Structural)]
pub enum TaskCompletionDecision {
    Completed,
    CancellationPending,
    Unchanged,
}

/// A point in time: nanoseconds on the registry's clock, and seconds since 1970.
#[derive(Debug, Clone, Copy, PartialEq, Eq)]
pub struct Moment {
    pub nanos: u128,
    pub secs: u64,
}

/// Snapshot of a background task's state.
#[derive(Debug)]
pub struct TaskState {
    pub id: String,
    pub status: TaskStatus,
    pub message: String,
    pub result: Option<JsonValue>,
    pub created_at: u128,
    pub updated_at: u128,
    pub created_at_iso: String,
    pub updated_at_iso: String,
    /// Deduplication key.
    pub key: Option<String>,
}

/// What a [`TaskState`] says.
pub struct StateView {
    pub id: Seq<char>,
    pub status: TaskStatus,
    pub message: Seq<char>,
    pub result: Option<Json>,
    pub created_at: u128,
    pub updated_at: u128,
    pub created_at_iso: Seq<char>,
    pub updated_at_iso: Seq<char>,
    pub key: Option<Seq<char>>,
}

impl View for TaskState {
    type V = StateView;

    open spec fn view(&self) -> StateView {
        StateView {
            id: self.id@,
            status: self.status,
            message: self.message@,
            result: outcome::opt_json(self.result),
            created_at: self.created_at,
            updated_at: self.updated_at,
            created_at_iso: self.created_at_iso@,
            updated_at_iso: self.updated_at_iso@,
            key: tool::opt_text(self.key),
        }
    }
}

impl Clone for TaskState {
    fn clone(&self) -> (res: Self)
        ensures
            res@ == self@,
    {
        TaskState {
            id: self.id.clone(),
            status: self.status,
            message: self.message.clone(),
            result: match &self.result {
                Some(value) => Some(value.clone()),
                None => None,
            },
            created_at: self.created_at,
            updated_at: self.updated_at,
            created_at_iso: self.created_at_iso.clone(),
            updated_at_iso: self.updated_at_iso.clone(),
            key: clone_text(&self.key),
        }
    }
}

/// A task and what controls it.
#[derive(Debug)]
struct TaskEntry {
    owner: TaskOwner,
    state: TaskState,
    cancel_token: Option<CancellationToken>,
    cancel_requested: Option<String>,
}

/// What is known of a task.
pub struct EntryView {
    pub owner: Option<Seq<char>>,
    pub state: StateView,
    pub token: Option<CancellationToken>,
    pub cancel_requested: Option<Seq<char>>,
}

impl EntryView {
    pub open spec fn running(self) -> bool {
        self.state.status == TaskStatus::Running
    }

    /// The operation knows that it was cancelled, where it has left a token.
    pub open spec fn told_to_stop(self) -> bool {
        match self.token {
            Some(token) => reads_cancelled(token),
            None => true,
        }
    }

    /// With another status and message from this moment on.
    pub open spec fn changed(self, status: TaskStatus, message: Seq<char>, now: Moment) -> EntryView {
        EntryView {
            state: StateView {
                status,
                message,
                updated_at: now.nanos,
                updated_at_iso: calendar::timestamp_text(now.secs as int),
                ..self.state
            },
            ..self
        }
    }

    /// Over, with nothing left to signal.
    pub open spec fn released(self) -> EntryView {
        EntryView { token: None, ..self }
    }

    pub open spec fn cancelled(self, message: Seq<char>, now: Moment) -> EntryView {
        EntryView {
            cancel_requested: None,
            ..self.changed(TaskStatus::Cancelled, message, now).released()
        }
    }

    /// The operation succeeded. A cancellation that was asked for wins.
    pub open spec fn completed(self, result: Json, now: Moment) -> (EntryView, TaskSettlement) {
        if !self.running() {
            (self, TaskSettlement::Unchanged)
        } else {
            match self.cancel_requested {
                Some(message) => (self.cancelled(message, now), TaskSettlement::Cancelled),
                None => {
                    let done = self.changed(TaskStatus::Completed, "Completed"@, now).released();
                    (
                        EntryView {
                            state: StateView { result: Some(result), ..done.state },
                            ..done
                        },
                        TaskSettlement::Completed,
                    )
                },
            }
        }
    }

    /// The operation failed. A cancellation that was asked for wins.
    pub open spec fn failed(self, error: Seq<char>, now: Moment) -> (EntryView, TaskSettlement) {
        if !self.running() {
            (self, TaskSettlement::Unchanged)
        } else {
            match self.cancel_requested {
                Some(message) => (self.cancelled(message, now), TaskSettlement::Cancelled),
                None => (
                    self.changed(TaskStatus::Failed, error, now).released(),
                    TaskSettlement::Failed,
                ),
            }
        }
    }

    /// What the operation held could not be released: that is a failure, whether
    /// or not a cancellation was asked for.
    pub open spec fn cleanup_failed(
        self,
        error: Seq<char>,
        now: Moment,
    ) -> (EntryView, TaskSettlement) {
        if !self.running() {
            (self, TaskSettlement::Unchanged)
        } else {
            (
                EntryView {
                    cancel_requested: None,
                    ..self.changed(TaskStatus::Failed, error, now).released()
                },
                TaskSettlement::Failed,
            )
        }
    }

    /// Whether asking for cancellation now would be the first time.
    pub open spec fn can_be_asked(self) -> bool {
        self.running() && self.cancel_requested is None
    }

    /// Its token, where it holds one, is signalled.
    pub open spec fn told(self) -> Option<CancellationToken> {
        match self.token {
            Some(token) => Some(signalled(token)),
            None => None,
        }
    }

    /// Cancellation is asked for and the operation told; the task runs on until its
    /// work settles.
    pub open spec fn asked_to_cancel(self, message: Seq<char>, now: Moment) -> EntryView {
        if self.can_be_asked() {
            EntryView {
                cancel_requested: Some(message),
                token: self.told(),
                ..self.changed(
                    TaskStatus::Running,
                    message + "; waiting for the operation to settle"@,
                    now,
                )
            }
        } else {
            self
        }
    }

    pub open spec fn finished_cancelled(self, message: Seq<char>, now: Moment) -> EntryView {
        if self.running() {
            self.cancelled(message, now)
        } else {
            self
        }
    }

    pub open spec fn with_message(self, message: Seq<char>, now: Moment) -> EntryView {
        if self.can_be_asked() {
            self.changed(TaskStatus::Running, message, now)
        } else {
            self
        }
    }
}

impl View for TaskEntry {
    type V = EntryView;

    closed spec fn view(&self) -> EntryView {
        EntryView {
            owner: self.owner.said(),
            state: self.state@,
            token: self.cancel_token,
            cancel_requested: tool::opt_text(self.cancel_requested),
        }
    }
}

impl TaskEntry {
    fn touch(&mut self, now: Moment)
        ensures
            final(self)@ == (EntryView {
                state: StateView {
                    updated_at: now.nanos,
                    updated_at_iso: calendar::timestamp_text(now.secs as int),
                    ..old(self)@.state
                },
                ..old(self)@
            }),
    {
        self.state.updated_at = now.nanos;
        self.state.updated_at_iso = timestamp(now.secs);
    }

    fn transition_cancelled(&mut self, message: &str, now: Moment)
        ensures
            final(self)@ == old(self)@.cancelled(message@, now),
    {
        self.cancel_token = None;
        self.cancel_requested = None;
        self.state.status = TaskStatus::Cancelled;
        self.state.message = message.to_owned();
        self.touch(now);
    }

    fn is_running(&self) -> (res: bool)
        ensures
            res == self@.running(),
    {
        self.state.status == TaskStatus::Running
    }

    fn complete(&mut self, result: JsonValue, now: Moment) -> (res: TaskSettlement)
        ensures
            (final(self)@, res) == old(self)@.completed(result.json(), now),
    {
        if !self.is_running() {
            return TaskSettlement::Unchanged;
        }
        if let Some(message) = clone_text(&self.cancel_requested) {
            self.transition_cancelled(message.as_str(), now);
            return TaskSettlement::Cancelled;
        }
        self.state.status = TaskStatus::Completed;
        self.state.message = "Completed".to_owned();
        self.state.result = Some(result);
        self.touch(now);
        self.cancel_token = None;
        TaskSettlement::Completed
    }

    fn fail(&mut self, error: &str, now: Moment) -> (res: TaskSettlement)
        ensures
            (final(self)@, res) == old(self)@.failed(error@, now),
    {
        if !self.is_running() {
            return TaskSettlement::Unchanged;
        }
        if let Some(message) = clone_text(&self.cancel_requested) {
            self.transition_cancelled(message.as_str(), now);
            return TaskSettlement::Cancelled;
        }
        self.state.status = TaskStatus::Failed;
        self.state.message = error.to_owned();
        self.touch(now);
        self.cancel_token = None;
        TaskSettlement::Failed
    }

    fn fail_after_cleanup_error(&mut self, error: &str, now: Moment) -> (res: TaskSettlement)
        ensures
            (final(self)@, res) == old(self)@.cleanup_failed(error@, now),
    {
        if !self.is_running() {
            return TaskSettlement::Unchanged;
        }
        self.cancel_requested = None;
        self.state.status = TaskStatus::Failed;
        self.state.message = error.to_owned();
        self.touch(now);
        self.cancel_token = None;
        TaskSettlement::Failed
    }

    /// Records that cancellation was asked for, and signals the operation.
    fn request_cancel(&mut self, message: &str, now: Moment) -> (res: bool)
        ensures
            res == old(self)@.can_be_asked(),
            final(self)@ == old(self)@.asked_to_cancel(message@, now),
            res ==> final(self)@.told_to_stop(),
    {
        if !self.is_running() || self.cancel_requested.is_some() {
            return false;
        }
        if let Some(mut token) = self.cancel_token.take() {
            signal(&mut token);
            self.cancel_token = Some(token);
        }
        self.cancel_requested = Some(message.to_owned());
        let mut said = message.to_owned();
        said.append("; waiting for the operation to settle");
        self.state.message = said;
        self.touch(now);
        true
    }

    fn finish_cancelled(&mut self, message: &str, now: Moment) -> (res: bool)
        ensures
            res == old(self)@.running(),
            final(self)@ == old(self)@.finished_cancelled(message@, now),
    {
        if !self.is_running() {
            return false;
        }
        self.transition_cancelled(message, now);
        true
    }

    fn update_message(&mut self, message: &str, now: Moment)
        ensures
            final(self)@ == old(self)@.with_message(message@, now),
    {
        if self.is_running() && self.cancel_requested.is_none() {
            self.state.message = message.to_owned();
            self.touch(now);
        }
    }
}

// ---------------------------------------------------------------------------
// The registry
// ---------------------------------------------------------------------------

spec fn views(list: Seq<TaskEntry>) -> Seq<EntryView> {
    Seq::new(list.len(), |i: int| list[i]@)
}

/// The position of the task of an id at or after `from`, or the number of tasks.
pub open spec fn position_from(tasks: Seq<EntryView>, id: Seq<char>, from: int) -> int
    decreases tasks.len() - from,
{
    if from >= tasks.len() {
        tasks.len() as int
    } else if tasks[from].state.id == id {
        from
    } else {
        position_from(tasks, id, from + 1)
    }
}

pub open spec fn position(tasks: Seq<EntryView>, id: Seq<char>) -> int {
    position_from(tasks, id, 0)
}

/// How long ago a task last changed.
pub open spec fn idle(task: EntryView, now: u128) -> int {
    if now > task.state.updated_at {
        now - task.state.updated_at
    } else {
        0
    }
}

/// A task that is kept: one that runs, or one that changed within the retention
/// time.
pub open spec fn is_kept(task: EntryView, now: u128) -> bool {
    task.running() || idle(task, now) < TASK_RETENTION_TTL_MS * 1_000_000
}

/// The tasks that are kept.
pub open spec fn pruned(tasks: Seq<EntryView>, now: u128) -> Seq<EntryView>
    decreases tasks.len(),
{
    if tasks.len() == 0 {
        Seq::empty()
    } else {
        let before = pruned(tasks.drop_last(), now);
        if is_kept(tasks.last(), now) {
            before.push(tasks.last())
        } else {
            before
        }
    }
}

/// Whether one task gives way before another: the one that changed longer ago,
/// or, of the same moment, that of the lesser id.
pub open spec fn gives_way(a: EntryView, b: EntryView) -> bool {
    a.state.updated_at < b.state.updated_at || (a.state.updated_at == b.state.updated_at
        && text::text_before(a.state.id, b.state.id))
}

/// The position of the terminal task that gives way first among the first `n`,
/// or the number of tasks where none is terminal.
pub open spec fn first_to_go(tasks: Seq<EntryView>, n: int) -> int
    decreases n,
{
    if n <= 0 {
        tasks.len() as int
    } else {
        let before = first_to_go(tasks, n - 1);
        if tasks[n - 1].running() {
            before
        } else if before >= tasks.len() || gives_way(tasks[n - 1], tasks[before]) {
            n - 1
        } else {
            before
        }
    }
}

/// The tasks after room was made for one more: at the bound, the terminal task
/// that gives way first is dropped, if there is one.
pub open spec fn with_room(tasks: Seq<EntryView>) -> Seq<EntryView> {
    let at = first_to_go(tasks, tasks.len() as int);
    if tasks.len() < MAX_TASK_REGISTRY_ENTRIES || at >= tasks.len() {
        tasks
    } else {
        tasks.remove(at)
    }
}

/// The position of the running task of a key at or after `from`, or the number
/// of tasks.
pub open spec fn running_key_from(tasks: Seq<EntryView>, key: Seq<char>, from: int) -> int
    decreases tasks.len() - from,
{
    if from >= tasks.len() {
        tasks.len() as int
    } else if tasks[from].running() && tasks[from].state.key == Some(key) {
        from
    } else {
        running_key_from(tasks, key, from + 1)
    }
}

/// The tasks but the one of an id.
pub open spec fn without(tasks: Seq<EntryView>, id: Seq<char>) -> Seq<EntryView> {
    let at = position(tasks, id);
    if at < tasks.len() {
        tasks.remove(at)
    } else {
        tasks
    }
}

/// A task as it is entered.
pub open spec fn new_task(
    owner: Option<Seq<char>>,
    id: Seq<char>,
    status: TaskStatus,
    message: Seq<char>,
    result: Option<Json>,
    key: Option<Seq<char>>,
    now: Moment,
) -> EntryView {
    let stamp = calendar::timestamp_text(now.secs as int);
    EntryView {
        owner,
        state: StateView {
            id,
            status,
            message,
            result,
            created_at: now.nanos,
            updated_at: now.nanos,
            created_at_iso: stamp,
            updated_at_iso: stamp,
            key,
        },
        token: None,
        cancel_requested: None,
    }
}

/// The tasks after one more was entered, or why it was not.
pub open spec fn admitted(
    tasks: Seq<EntryView>,
    task: EntryView,
) -> (Seq<EntryView>, Result<Seq<char>, Refused>) {
    let room = with_room(tasks);
    if room.len() >= MAX_TASK_REGISTRY_ENTRIES {
        (room, Err(Refused::CapacityExceeded { max_entries: MAX_TASK_REGISTRY_ENTRIES }))
    } else {
        (without(room, task.state.id).push(task), Ok(task.state.id))
    }
}

/// The tasks after work under a key was asked for, and what is answered. Matching
/// work that runs is named only to the session that owns it.
pub open spec fn keyed(
    tasks: Seq<EntryView>,
    owner: Option<Seq<char>>,
    id: Seq<char>,
    key: Seq<char>,
    message: Seq<char>,
    now: Moment,
) -> (Seq<EntryView>, Result<Seq<char>, Refused>) {
    let kept = pruned(tasks, now.nanos);
    let same_work = running_key_from(kept, key, 0);
    if same_work < kept.len() {
        (
            kept,
            Err(
                if owner is Some && kept[same_work].owner == owner {
                    Refused::AlreadyRunning(kept[same_work].state.id)
                } else {
                    Refused::ExistingTaskIdIsPrivate
                },
            ),
        )
    } else {
        admitted(
            kept,
            new_task(owner, id, TaskStatus::Running, message, None, Some(key), now),
        )
    }
}

/// The tasks after one of them settled.
pub open spec fn settled(
    tasks: Seq<EntryView>,
    id: Seq<char>,
    outcome: (EntryView, TaskSettlement),
    now: Moment,
) -> (Seq<EntryView>, TaskSettlement) {
    let at = position(tasks, id);
    if at < tasks.len() {
        let after = tasks.update(at, outcome.0);
        (
            if outcome.1 == TaskSettlement::Unchanged {
                after
            } else {
                pruned(after, now.nanos)
            },
            outcome.1,
        )
    } else {
        (tasks, TaskSettlement::Unchanged)
    }
}

pub open spec fn after_complete(
    tasks: Seq<EntryView>,
    id: Seq<char>,
    result: Json,
    now: Moment,
) -> (Seq<EntryView>, TaskSettlement) {
    settled(tasks, id, tasks[position(tasks, id)].completed(result, now), now)
}

pub open spec fn after_fail(
    tasks: Seq<EntryView>,
    id: Seq<char>,
    error: Seq<char>,
    now: Moment,
) -> (Seq<EntryView>, TaskSettlement) {
    settled(tasks, id, tasks[position(tasks, id)].failed(error, now), now)
}

pub open spec fn after_cleanup_error(
    tasks: Seq<EntryView>,
    id: Seq<char>,
    error: Seq<char>,
    now: Moment,
) -> (Seq<EntryView>, TaskSettlement) {
    settled(tasks, id, tasks[position(tasks, id)].cleanup_failed(error, now), now)
}

/// A task that was cancelled while its work went on: how it settles.
pub open spec fn cancelled_settlement(
    task: EntryView,
    message: Seq<char>,
    now: Moment,
) -> (EntryView, TaskSettlement) {
    (
        task.finished_cancelled(message, now),
        if task.running() {
            TaskSettlement::Cancelled
        } else {
            TaskSettlement::Unchanged
        },
    )
}

/// A successful operation settles, and as cancelled where its lifetime token was
/// cancelled first.
pub open spec fn after_complete_unless(
    tasks: Seq<EntryView>,
    id: Seq<char>,
    result: Json,
    cancelled: bool,
    message: Seq<char>,
    now: Moment,
) -> (Seq<EntryView>, TaskSettlement) {
    let task = tasks[position(tasks, id)];
    settled(
        tasks,
        id,
        if cancelled {
            cancelled_settlement(task, message, now)
        } else {
            task.completed(result, now)
        },
        now,
    )
}

/// A successful operation completes unless cancellation has won already, which
/// then stays pending.
pub open spec fn after_complete_or_defer(
    tasks: Seq<EntryView>,
    id: Seq<char>,
    result: Json,
    cancelled: bool,
    now: Moment,
) -> (Seq<EntryView>, TaskCompletionDecision) {
    let at = position(tasks, id);
    if at >= tasks.len() || !tasks[at].running() {
        (tasks, TaskCompletionDecision::Unchanged)
    } else if cancelled || tasks[at].cancel_requested is Some {
        (tasks, TaskCompletionDecision::CancellationPending)
    } else {
        (after_complete(tasks, id, result, now).0, TaskCompletionDecision::Completed)
    }
}

/// The tasks after cancellation of one was asked for by somebody.
pub open spec fn after_cancel(
    tasks: Seq<EntryView>,
    owner: Option<Seq<char>>,
    id: Seq<char>,
    now: Moment,
) -> (Seq<EntryView>, bool) {
    let at = position(tasks, id);
    if at < tasks.len() && tasks[at].owner == owner && tasks[at].can_be_asked() {
        (
            pruned(
                tasks.update(at, tasks[at].asked_to_cancel("Cancelled by client"@, now)),
                now.nanos,
            ),
            true,
        )
    } else {
        (tasks, false)
    }
}

pub open spec fn after_finish_cancelled(
    tasks: Seq<EntryView>,
    id: Seq<char>,
    message: Seq<char>,
    now: Moment,
) -> (Seq<EntryView>, bool) {
    let at = position(tasks, id);
    if at < tasks.len() && tasks[at].running() {
        (
            pruned(tasks.update(at, tasks[at].finished_cancelled(message, now)), now.nanos),
            true,
        )
    } else {
        (tasks, false)
    }
}

pub open spec fn after_update(
    tasks: Seq<EntryView>,
    id: Seq<char>,
    message: Seq<char>,
    now: Moment,
) -> Seq<EntryView> {
    let at = position(tasks, id);
    if at < tasks.len() {
        tasks.update(at, tasks[at].with_message(message, now))
    } else {
        tasks
    }
}

/// How many tasks can be asked to cancel.
pub open spec fn askable(tasks: Seq<EntryView>) -> nat
    decreases tasks.len(),
{
    if tasks.len() == 0 {
        0
    } else {
        askable(tasks.drop_last()) + (if tasks.last().can_be_asked() {
            1nat
        } else {
            0
        })
    }
}

/// Every task that runs is asked to cancel.
pub open spec fn all_asked(
    tasks: Seq<EntryView>,
    message: Seq<char>,
    now: Moment,
) -> Seq<EntryView> {
    tasks.map_values(|task: EntryView| task.asked_to_cancel(message, now))
}

pub open spec fn after_cancel_all(
    tasks: Seq<EntryView>,
    message: Seq<char>,
    now: Moment,
) -> (Seq<EntryView>, nat) {
    let n = askable(tasks);
    let asked = all_asked(tasks, message, now);
    (
        if n > 0 {
            pruned(asked, now.nanos)
        } else {
            asked
        },
        n,
    )
}

/// A token is stored for a task, signalled where cancellation was asked for before.
pub open spec fn after_token(
    tasks: Seq<EntryView>,
    id: Seq<char>,
    token: CancellationToken,
) -> Seq<EntryView> {
    let at = position(tasks, id);
    if at < tasks.len() {
        let task = EntryView { token: Some(token), ..tasks[at] };
        tasks.update(
            at,
            if task.cancel_requested is Some {
                EntryView { token: task.told(), ..task }
            } else {
                task
            },
        )
    } else {
        tasks
    }
}

/// Whether two tasks may stand in one registry.
pub open spec fn compatible(a: EntryView, b: EntryView) -> bool {
    &&& a.state.id != b.state.id
    &&& a.running() && b.running() && a.state.key is Some ==> a.state.key != b.state.key
}

/// What holds of every task: it has a result where it completed and nowhere else,
/// and one that was asked to cancel runs on and was told to stop.
pub open spec fn coherent(task: EntryView) -> bool {
    &&& task.state.result is Some <==> task.state.status == TaskStatus::Completed
    &&& task.cancel_requested is Some ==> task.running() && task.told_to_stop()
}

/// What a registry keeps: each task is coherent, no id stands twice, no two running
/// tasks share a key, and there are no more tasks than the bound allows.
pub open spec fn sound(tasks: Seq<EntryView>) -> bool {
    &&& tasks.len() <= MAX_TASK_REGISTRY_ENTRIES
    &&& forall|i: int| 0 <= i < tasks.len() ==> coherent(#[trigger] tasks[i])
    &&& forall|i: int, j: int|
        0 <= i < j < tasks.len() ==> compatible(#[trigger] tasks[i], #[trigger] tasks[j])
}

pub proof fn position_bounds(tasks: Seq<EntryView>, id: Seq<char>, from: int)
    requires
        0 <= from <= tasks.len(),
    ensures
        from <= position_from(tasks, id, from) <= tasks.len(),
        position_from(tasks, id, from) < tasks.len() ==> tasks[position_from(
            tasks,
            id,
            from,
        )].state.id == id,
        forall|i: int|
            from <= i < position_from(tasks, id, from) ==> (#[trigger] tasks[i]).state.id != id,
    decreases tasks.len() - from,
{
    if from < tasks.len() {
        position_bounds(tasks, id, from + 1);
    }
}

pub proof fn running_key_bounds(tasks: Seq<EntryView>, key: Seq<char>, from: int)
    requires
        0 <= from <= tasks.len(),
    ensures
        from <= running_key_from(tasks, key, from) <= tasks.len(),
        running_key_from(tasks, key, from) < tasks.len() ==> tasks[running_key_from(
            tasks,
            key,
            from,
        )].running() && tasks[running_key_from(tasks, key, from)].state.key == Some(key),
        forall|i: int|
            from <= i < running_key_from(tasks, key, from) ==> !((#[trigger] tasks[i]).running()
                && tasks[i].state.key == Some(key)),
    decreases tasks.len() - from,
{
    if from < tasks.len() {
        running_key_bounds(tasks, key, from + 1);
    }
}

pub proof fn pruned_comes_from(tasks: Seq<EntryView>, now: u128)
    ensures
        pruned(tasks, now).len() <= tasks.len(),
        forall|i: int|
            0 <= i < pruned(tasks, now).len() ==> tasks.contains(#[trigger] pruned(tasks, now)[i])
                && is_kept(pruned(tasks, now)[i], now),
    decreases tasks.len(),
{
    if tasks.len() > 0 {
        let less = tasks.drop_last();
        pruned_comes_from(less, now);
        let before = pruned(less, now);
        let after = pruned(tasks, now);
        assert forall|i: int| 0 <= i < after.len() implies tasks.contains(#[trigger] after[i])
            && is_kept(after[i], now) by {
            if i < before.len() {
                assert(after[i] == before[i]);
                let j = choose|j: int| 0 <= j < less.len() && less[j] == before[i];
                assert(tasks[j] == after[i]);
            } else {
                assert(tasks[tasks.len() - 1] == after[i]);
            }
        }
    }
}

pub proof fn pruned_is_sound(tasks: Seq<EntryView>, now: u128)
    requires
        sound(tasks),
    ensures
        sound(pruned(tasks, now)),
    decreases tasks.len(),
{
    if tasks.len() > 0 {
        let less = tasks.drop_last();
        assert(sound(less)) by {
            assert forall|i: int, j: int| 0 <= i < j < less.len() implies compatible(
                #[trigger] less[i],
                #[trigger] less[j],
            ) by {
                assert(compatible(tasks[i], tasks[j]));
            }
            assert forall|i: int| 0 <= i < less.len() implies coherent(#[trigger] less[i]) by {
                assert(coherent(tasks[i]));
            }
        }
        pruned_is_sound(less, now);
        pruned_comes_from(less, now);
        pruned_comes_from(tasks, now);
        let before = pruned(less, now);
        let after = pruned(tasks, now);
        assert forall|i: int| 0 <= i < after.len() implies coherent(#[trigger] after[i]) by {
            let j = choose|j: int| 0 <= j < tasks.len() && tasks[j] == after[i];
            assert(coherent(tasks[j]));
        }
        assert forall|i: int, j: int| 0 <= i < j < after.len() implies compatible(
            #[trigger] after[i],
            #[trigger] after[j],
        ) by {
            if j < before.len() {
                assert(after[i] == before[i] && after[j] == before[j]);
            } else {
                assert(after[i] == before[i]);
                let k = choose|k: int| 0 <= k < less.len() && less[k] == before[i];
                assert(compatible(tasks[k], tasks[tasks.len() - 1]));
            }
        }
    }
}

proof fn removed_is_sound(tasks: Seq<EntryView>, at: int)
    requires
        sound(tasks),
        0 <= at < tasks.len(),
    ensures
        sound(tasks.remove(at)),
{
    let after = tasks.remove(at);
    assert forall|i: int| 0 <= i < after.len() implies coherent(#[trigger] after[i]) by {
        let i0 = if i < at {
            i
        } else {
            i + 1
        };
        assert(after[i] == tasks[i0]);
    }
    assert forall|i: int, j: int| 0 <= i < j < after.len() implies compatible(
        #[trigger] after[i],
        #[trigger] after[j],
    ) by {
        let i0 = if i < at {
            i
        } else {
            i + 1
        };
        let j0 = if j < at {
            j
        } else {
            j + 1
        };
        assert(after[i] == tasks[i0] && after[j] == tasks[j0]);
    }
}

proof fn updated_is_sound(tasks: Seq<EntryView>, at: int, task: EntryView)
    requires
        sound(tasks),
        0 <= at < tasks.len(),
        task.state.id == tasks[at].state.id,
        task.state.key == tasks[at].state.key,
        task.running() ==> tasks[at].running(),
        coherent(task),
    ensures
        sound(tasks.update(at, task)),
{
    let after = tasks.update(at, task);
    assert forall|i: int| 0 <= i < after.len() implies coherent(#[trigger] after[i]) by {
        assert(coherent(tasks[i]));
    }
    assert forall|i: int, j: int| 0 <= i < j < after.len() implies compatible(
        #[trigger] after[i],
        #[trigger] after[j],
    ) by {
        assert(compatible(tasks[i], tasks[j]));
    }
}

/// A task that was asked to cancel and is still there.
pub open spec fn is_told(tasks: Seq<EntryView>, id: Seq<char>) -> bool {
    let at = position(tasks, id);
    at < tasks.len() && tasks[at].running() && tasks[at].cancel_requested is Some
        && tasks[at].told_to_stop()
}

/// Every task that ran before was asked to cancel and told to stop.
pub open spec fn all_told(before: Seq<EntryView>, after: Seq<EntryView>) -> bool {
    forall|i: int|
        0 <= i < before.len() && (#[trigger] before[i]).running() ==> is_told(
            after,
            before[i].state.id,
        )
}

proof fn asked_is_told(tasks: Seq<EntryView>, at: int, now: u128)
    requires
        sound(tasks),
        0 <= at < tasks.len(),
        tasks[at].cancel_requested is Some,
    ensures
        is_told(tasks, tasks[at].state.id),
        is_told(pruned(tasks, now), tasks[at].state.id),
{
    let id = tasks[at].state.id;
    assert(coherent(tasks[at]));
    position_bounds(tasks, id, 0);
    let p = position(tasks, id);
    if p < at {
        assert(compatible(tasks[p], tasks[at]));
    }
    pruned_keeps(tasks, at, now);
    pruned_is_sound(tasks, now);
    let kept = pruned(tasks, now);
    let k = choose|k: int| 0 <= k < kept.len() && kept[k] == tasks[at];
    position_bounds(kept, id, 0);
    let q = position(kept, id);
    if q < k {
        assert(compatible(kept[q], kept[k]));
    }
}

proof fn admitted_is_sound(tasks: Seq<EntryView>, task: EntryView)
    requires
        sound(tasks),
        coherent(task),
        task.running() && task.state.key is Some ==> forall|i: int|
            0 <= i < tasks.len() ==> !((#[trigger] tasks[i]).running() && tasks[i].state.key
                == task.state.key),
    ensures
        sound(admitted(tasks, task).0),
{
    first_to_go_bounds(tasks, tasks.len() as int);
    let at = first_to_go(tasks, tasks.len() as int);
    let room = with_room(tasks);
    if room != tasks {
        removed_is_sound(tasks, at);
    }
    if room.len() < MAX_TASK_REGISTRY_ENTRIES {
        let p = position(room, task.state.id);
        position_bounds(room, task.state.id, 0);
        let rest = without(room, task.state.id);
        if p < room.len() {
            removed_is_sound(room, p);
        }
        let after = rest.push(task);
        assert forall|i: int| 0 <= i < rest.len() implies (#[trigger] rest[i]).state.id
            != task.state.id by {
            if p < room.len() {
                let j = if i < p {
                    i
                } else {
                    i + 1
                };
                assert(rest[i] == room[j]);
                if j < p {
                    assert(compatible(room[j], room[p]));
                } else {
                    assert(compatible(room[p], room[j]));
                }
            } else {
                assert(rest[i] == room[i]);
            }
        }
        assert forall|i: int| 0 <= i < rest.len() implies tasks.contains(#[trigger] rest[i]) by {
            let j = if p < room.len() && i >= p {
                i + 1
            } else {
                i
            };
            assert(rest[i] == room[j]);
            let k = if room != tasks && j >= at {
                j + 1
            } else {
                j
            };
            assert(room[j] == tasks[k]);
        }
        assert forall|i: int, j: int| 0 <= i < j < after.len() implies compatible(
            #[trigger] after[i],
            #[trigger] after[j],
        ) by {
            if j < rest.len() {
                assert(after[i] == rest[i] && after[j] == rest[j]);
            } else {
                assert(after[i] == rest[i]);
                let k = choose|k: int| 0 <= k < tasks.len() && tasks[k] == rest[i];
                assert(tasks[k] == rest[i]);
            }
        }
    }
}

proof fn first_to_go_bounds(tasks: Seq<EntryView>, n: int)
    requires
        0 <= n <= tasks.len(),
    ensures
        0 <= first_to_go(tasks, n) <= tasks.len(),
        first_to_go(tasks, n) < tasks.len() ==> first_to_go(tasks, n) < n
            && !tasks[first_to_go(tasks, n)].running(),
        first_to_go(tasks, n) == tasks.len() ==> forall|i: int|
            0 <= i < n ==> (#[trigger] tasks[i]).running(),
    decreases n,
{
    if n > 0 {
        first_to_go_bounds(tasks, n - 1);
    }
}

/// Registry of background tasks.
#[derive(Debug)]
pub struct TaskRegistry {
    entries: Vec<TaskEntry>,
    clock: Clock,
}

impl TaskRegistry {
    /// The tasks, in the order they were entered.
    pub closed spec fn tasks(&self) -> Seq<EntryView> {
        views(self.entries@)
    }

    #[verifier::type_invariant]
    pub open spec fn keeps(self) -> bool {
        sound(self.tasks())
    }

    pub fn new() -> (res: Self)
        ensures
            res.tasks().len() == 0,
    {
        let entries: Vec<TaskEntry> = Vec::new();
        assert(views(entries@).len() == 0);
        TaskRegistry { entries, clock: Clock::start() }
    }

    fn moment(&self) -> Moment {
        Moment { nanos: self.clock.now(), secs: unix_seconds() }
    }

    /// The position of the task of an id.
    fn find(&self, id: &str) -> (res: usize)
        ensures
            res == position(self.tasks(), id@),
            res <= self.tasks().len(),
            self.tasks().len() == self.entries@.len(),
    {
        let mut i: usize = 0;
        while i < self.entries.len()
            invariant
                i <= self.entries.len(),
                position(self.tasks(), id@) == position_from(self.tasks(), id@, i as int),
            decreases self.entries.len() - i,
        {
            assert(self.tasks()[i as int] == self.entries@[i as int]@);
            if same(self.entries[i].state.id.as_str(), id) {
                return i;
            }
            i += 1;
        }
        i
    }

    /// Drops the tasks that are not kept.
    fn prune(&mut self, now: u128)
        ensures
            final(self).tasks() == pruned(old(self).tasks(), now),
    {
        proof {
            use_type_invariant(&*self);
            pruned_is_sound(self.tasks(), now);
        }
        let mut queue: Vec<TaskEntry> = Vec::new();
        assert(views(queue@) =~= Seq::empty());
        std::mem::swap(&mut queue, &mut self.entries);
        let left = prune_entries(queue, now);
        self.entries = left;
    }
}

fn prune_entries(entries: Vec<TaskEntry>, now: u128) -> (res: Vec<TaskEntry>)
    ensures
        views(res@) == pruned(views(entries@), now),
{
    let ghost all = views(entries@);
    let ghost before = entries@;
    let ghost n = before.len();
    let mut queue = entries;
    let mut left: Vec<TaskEntry> = Vec::new();
    let ghost mut i: int = 0;
    assert(views(left@) =~= pruned(all.take(0), now));
    while queue.len() > 0
        invariant
            0 <= i <= n,
            queue@.len() + i == n,
            n == before.len(),
            queue@ == before.subrange(i, n as int),
            all == views(before),
            views(left@) == pruned(all.take(i), now),
        decreases queue@.len(),
    {
        let ghost former = left@;
        let entry = queue.remove(0);
        let ghost said = entry@;
        assert(entry == before[i]);
        assert(all[i] == said);
        assert(all.take(i + 1).drop_last() =~= all.take(i));
        assert(all.take(i + 1).last() == said);
        let recent = if now > entry.state.updated_at {
            now - entry.state.updated_at < RETENTION
        } else {
            true
        };
        if entry.is_running() || recent {
            left.push(entry);
            assert(views(left@) =~= views(former).push(said));
        }
        assert(queue@ =~= before.subrange(i + 1, n as int));
        proof {
            i = i + 1;
        }
    }
    assert(all.take(n as int) =~= all);
    left
}

impl TaskRegistry {
    /// Marks a task as completed with a result.
    pub fn complete_at(&mut self, id: &str, result: JsonValue, now: Moment) -> (res: TaskSettlement)
        ensures
            (final(self).tasks(), res) == after_complete(old(self).tasks(), id@, result.json(), now),
    {
        let at = self.find(id);
        if at >= self.entries.len() {
            return TaskSettlement::Unchanged;
        }
        let ghost before = self.tasks();
        proof {
            use_type_invariant(&*self);
        }
        let mut entries: Vec<TaskEntry> = Vec::new();
        assert(views(entries@) =~= Seq::empty());
        std::mem::swap(&mut entries, &mut self.entries);
        let mut entry = entries.remove(at);
        assert(entry@ == before[at as int]);
        let settlement = entry.complete(result, now);
        let ghost after = entry@;
        entries.insert(at, entry);
        assert(views(entries@) =~= before.update(at as int, after));
        proof {
            updated_is_sound(before, at as int, after);
        }
        self.entries = entries;
        if settlement != TaskSettlement::Unchanged {
            self.prune(now.nanos);
        }
        settlement
    }

    /// Marks a task as completed with a result.
    pub fn complete(&mut self, id: &str, result: JsonValue) -> (res: TaskSettlement)
        ensures
            exists|now: Moment|
                (final(self).tasks(), res) == #[trigger] after_complete(
                    old(self).tasks(),
                    id@,
                    result.json(),
                    now,
                ),
    {
        let now = self.moment();
        let ghost owed = after_complete(self.tasks(), id@, result.json(), now);
        self.complete_at(id, result, now)
    }

    /// Marks a task as failed with a message.
    pub fn fail_at(&mut self, id: &str, error: &str, now: Moment) -> (res: TaskSettlement)
        ensures
            (final(self).tasks(), res) == after_fail(old(self).tasks(), id@, error@, now),
    {
        let at = self.find(id);
        if at >= self.entries.len() {
            return TaskSettlement::Unchanged;
        }
        let ghost before = self.tasks();
        proof {
            use_type_invariant(&*self);
        }
        let mut entries: Vec<TaskEntry> = Vec::new();
        assert(views(entries@) =~= Seq::empty());
        std::mem::swap(&mut entries, &mut self.entries);
        let mut entry = entries.remove(at);
        assert(entry@ == before[at as int]);
        let settlement = entry.fail(error, now);
        let ghost after = entry@;
        entries.insert(at, entry);
        assert(views(entries@) =~= before.update(at as int, after));
        proof {
            updated_is_sound(before, at as int, after);
        }
        self.entries = entries;
        if settlement != TaskSettlement::Unchanged {
            self.prune(now.nanos);
        }
        settlement
    }

    /// Marks a task as failed with a message.
    pub fn fail(&mut self, id: &str, error: &str) -> (res: TaskSettlement)
        ensures
            exists|now: Moment|
                (final(self).tasks(), res) == #[trigger] after_fail(
                    old(self).tasks(),
                    id@,
                    error@,
                    now,
                ),
    {
        let now = self.moment();
        let ghost owed = after_fail(self.tasks(), id@, error@, now);
        self.fail_at(id, error, now)
    }

    /// Publishes a cleanup failure even when cancellation was requested.
    pub fn fail_after_cleanup_error_at(&mut self, id: &str, error: &str, now: Moment) -> (res: TaskSettlement)
        ensures
            (final(self).tasks(), res) == after_cleanup_error(old(self).tasks(), id@, error@, now),
    {
        let at = self.find(id);
        if at >= self.entries.len() {
            return TaskSettlement::Unchanged;
        }
        let ghost before = self.tasks();
        proof {
            use_type_invariant(&*self);
        }
        let mut entries: Vec<TaskEntry> = Vec::new();
        assert(views(entries@) =~= Seq::empty());
        std::mem::swap(&mut entries, &mut self.entries);
        let mut entry = entries.remove(at);
        assert(entry@ == before[at as int]);
        let settlement = entry.fail_after_cleanup_error(error, now);
        let ghost after = entry@;
        entries.insert(at, entry);
        assert(views(entries@) =~= before.update(at as int, after));
        proof {
            updated_is_sound(before, at as int, after);
        }
        self.entries = entries;
        if settlement != TaskSettlement::Unchanged {
            self.prune(now.nanos);
        }
        settlement
    }

    /// Publishes a cleanup failure even when cancellation was requested. A task must
    /// not claim clean cancellation when what it held could not be closed.
    pub fn fail_after_cleanup_error(&mut self, id: &str, error: &str) -> (res: TaskSettlement)
        ensures
            exists|now: Moment|
                (final(self).tasks(), res) == #[trigger] after_cleanup_error(
                    old(self).tasks(),
                    id@,
                    error@,
                    now,
                ),
    {
        let now = self.moment();
        let ghost owed = after_cleanup_error(self.tasks(), id@, error@, now);
        self.fail_after_cleanup_error_at(id, error, now)
    }

    /// Settles a successful operation, as cancelled where its lifetime token was
    /// cancelled before.
    pub fn complete_unless_at(
        &mut self,
        id: &str,
        result: JsonValue,
        cancelled: bool,
        cancel_message: &str,
        now: Moment,
    ) -> (res: TaskSettlement)
        ensures
            (final(self).tasks(), res) == after_complete_unless(
                old(self).tasks(),
                id@,
                result.json(),
                cancelled,
                cancel_message@,
                now,
            ),
    {
        if !cancelled {
            return self.complete_at(id, result, now);
        }
        proof {
            position_bounds(self.tasks(), id@, 0);
        }
        if self.finish_cancelled_at(id, cancel_message, now) {
            TaskSettlement::Cancelled
        } else {
            TaskSettlement::Unchanged
        }
    }

    /// Settles a successful operation, publishing cancellation instead when its
    /// lifetime token was cancelled before.
    pub fn complete_with_cancel_token(
        &mut self,
        id: &str,
        result: JsonValue,
        cancel_token: &CancellationToken,
        cancel_message: &str,
    ) -> (res: TaskSettlement)
        ensures
            exists|now: Moment, cancelled: bool|
                (reads_cancelled(*cancel_token) ==> cancelled) && (final(self).tasks(), res)
                    == #[trigger] after_complete_unless(
                    old(self).tasks(),
                    id@,
                    result.json(),
                    cancelled,
                    cancel_message@,
                    now,
                ),
    {
        let now = self.moment();
        let cancelled = is_signalled(cancel_token);
        let ghost owed = after_complete_unless(
            self.tasks(),
            id@,
            result.json(),
            cancelled,
            cancel_message@,
            now,
        );
        self.complete_unless_at(id, result, cancelled, cancel_message, now)
    }

    /// Completes a task unless cancellation has already won.
    pub fn complete_or_defer_at(
        &mut self,
        id: &str,
        result: JsonValue,
        cancelled: bool,
        now: Moment,
    ) -> (res: TaskCompletionDecision)
        ensures
            (final(self).tasks(), res) == after_complete_or_defer(
                old(self).tasks(),
                id@,
                result.json(),
                cancelled,
                now,
            ),
    {
        let at = self.find(id);
        if at >= self.entries.len() {
            return TaskCompletionDecision::Unchanged;
        }
        assert(self.tasks()[at as int] == self.entries@[at as int]@);
        if !self.entries[at].is_running() {
            return TaskCompletionDecision::Unchanged;
        }
        if cancelled || self.entries[at].cancel_requested.is_some() {
            return TaskCompletionDecision::CancellationPending;
        }
        let _ = self.complete_at(id, result, now);
        TaskCompletionDecision::Completed
    }

    /// Completes atomically unless cancellation has already won. This leaves
    /// cancellation pending, so that cleanup can finish before a terminal state is
    /// visible.
    pub fn complete_or_defer_cancellation(
        &mut self,
        id: &str,
        result: JsonValue,
        cancel_token: &CancellationToken,
    ) -> (res: TaskCompletionDecision)
        ensures
            exists|now: Moment, cancelled: bool|
                (reads_cancelled(*cancel_token) ==> cancelled) && (final(self).tasks(), res)
                    == #[trigger] after_complete_or_defer(
                    old(self).tasks(),
                    id@,
                    result.json(),
                    cancelled,
                    now,
                ),
    {
        let now = self.moment();
        let cancelled = is_signalled(cancel_token);
        let ghost owed = after_complete_or_defer(
            self.tasks(),
            id@,
            result.json(),
            cancelled,
            now,
        );
        self.complete_or_defer_at(id, result, cancelled, now)
    }

    /// Publishes the cancellation of a task whose work has settled.
    pub fn finish_cancelled_at(&mut self, id: &str, message: &str, now: Moment) -> (res: bool)
        ensures
            (final(self).tasks(), res) == after_finish_cancelled(
                old(self).tasks(),
                id@,
                message@,
                now,
            ),
    {
        let at = self.find(id);
        if at >= self.entries.len() {
            return false;
        }
        let ghost before = self.tasks();
        proof {
            use_type_invariant(&*self);
        }
        let mut entries: Vec<TaskEntry> = Vec::new();
        assert(views(entries@) =~= Seq::empty());
        std::mem::swap(&mut entries, &mut self.entries);
        let mut entry = entries.remove(at);
        assert(entry@ == before[at as int]);
        let done = entry.finish_cancelled(message, now);
        let ghost after = entry@;
        entries.insert(at, entry);
        assert(views(entries@) =~= before.update(at as int, after));
        proof {
            updated_is_sound(before, at as int, after);
        }
        self.entries = entries;
        if done {
            self.prune(now.nanos);
        } else {
            assert(before.update(at as int, after) =~= before);
        }
        done
    }

    /// Publishes the cancellation of a task whose work has settled.
    pub fn finish_cancelled(&mut self, id: &str, message: &str) -> (res: bool)
        ensures
            exists|now: Moment|
                (final(self).tasks(), res) == #[trigger] after_finish_cancelled(
                    old(self).tasks(),
                    id@,
                    message@,
                    now,
                ),
    {
        let now = self.moment();
        let ghost owed = after_finish_cancelled(self.tasks(), id@, message@, now);
        self.finish_cancelled_at(id, message, now)
    }

    /// Updates the progress message on a running task.
    pub fn update_message_at(&mut self, id: &str, message: &str, now: Moment)
        ensures
            final(self).tasks() == after_update(old(self).tasks(), id@, message@, now),
    {
        let at = self.find(id);
        if at >= self.entries.len() {
            return;
        }
        let ghost before = self.tasks();
        proof {
            use_type_invariant(&*self);
        }
        let mut entries: Vec<TaskEntry> = Vec::new();
        assert(views(entries@) =~= Seq::empty());
        std::mem::swap(&mut entries, &mut self.entries);
        let mut entry = entries.remove(at);
        assert(entry@ == before[at as int]);
        entry.update_message(message, now);
        let ghost after = entry@;
        entries.insert(at, entry);
        assert(views(entries@) =~= before.update(at as int, after));
        proof {
            updated_is_sound(before, at as int, after);
        }
        self.entries = entries;
    }

    /// Updates the progress message on a running task.
    pub fn update_message(&mut self, id: &str, message: &str)
        ensures
            exists|now: Moment|
                final(self).tasks() == #[trigger] after_update(
                    old(self).tasks(),
                    id@,
                    message@,
                    now,
                ),
    {
        let now = self.moment();
        let ghost owed = after_update(self.tasks(), id@, message@, now);
        self.update_message_at(id, message, now)
    }

    /// Stores the cancellation token for a task.
    ///
    /// Cancels at once when cancellation was requested before the operation got
    /// far enough to register its token.
    pub fn set_cancel_token(&mut self, id: &str, cancel_token: CancellationToken)
        ensures
            final(self).tasks() == after_token(old(self).tasks(), id@, cancel_token),
            ({
                let at = position(old(self).tasks(), id@);
                at < old(self).tasks().len() && old(self).tasks()[at].cancel_requested is Some
                    ==> is_told(final(self).tasks(), id@)
            }),
    {
        let at = self.find(id);
        if at >= self.entries.len() {
            return;
        }
        let ghost before = self.tasks();
        proof {
            use_type_invariant(&*self);
        }
        let mut entries: Vec<TaskEntry> = Vec::new();
        assert(views(entries@) =~= Seq::empty());
        std::mem::swap(&mut entries, &mut self.entries);
        let mut entry = entries.remove(at);
        assert(entry@ == before[at as int]);
        let mut cancel_token = cancel_token;
        if entry.cancel_requested.is_some() {
            signal(&mut cancel_token);
        }
        entry.cancel_token = Some(cancel_token);
        let ghost after = entry@;
        entries.insert(at, entry);
        assert(views(entries@) =~= before.update(at as int, after));
        proof {
            assert(coherent(before[at as int]));
            updated_is_sound(before, at as int, after);
            if after.cancel_requested is Some {
                position_bounds(before, id@, 0);
                asked_is_told(before.update(at as int, after), at as int, 0);
            }
        }
        self.entries = entries;
    }

    /// Requests cancellation only when the task belongs to the owner, and signals
    /// the operation.
    pub fn cancel_for_owner_at(&mut self, owner: &TaskOwner, id: &str, now: Moment) -> (res: bool)
        ensures
            (final(self).tasks(), res) == after_cancel(
                old(self).tasks(),
                owner.said(),
                id@,
                now,
            ),
            res ==> is_told(final(self).tasks(), id@),
    {
        let at = self.find(id);
        if at >= self.entries.len() {
            return false;
        }
        let ghost before = self.tasks();
        assert(before[at as int] == self.entries@[at as int]@);
        if !self.entries[at].owner.is_same(owner) {
            return false;
        }
        proof {
            use_type_invariant(&*self);
        }
        let mut entries: Vec<TaskEntry> = Vec::new();
        assert(views(entries@) =~= Seq::empty());
        std::mem::swap(&mut entries, &mut self.entries);
        let mut entry = entries.remove(at);
        assert(coherent(before[at as int]));
        let asked = entry.request_cancel("Cancelled by client", now);
        let ghost after = entry@;
        entries.insert(at, entry);
        assert(views(entries@) =~= before.update(at as int, after));
        proof {
            updated_is_sound(before, at as int, after);
        }
        self.entries = entries;
        if asked {
            proof {
                position_bounds(before, id@, 0);
                asked_is_told(before.update(at as int, after), at as int, now.nanos);
            }
            self.prune(now.nanos);
        } else {
            assert(before.update(at as int, after) =~= before);
        }
        asked
    }

    /// Requests cancellation only when the task belongs to the owner, and signals
    /// the operation.
    pub fn cancel_for_owner(&mut self, owner: &TaskOwner, id: &str) -> (res: bool)
        ensures
            exists|now: Moment|
                (final(self).tasks(), res) == #[trigger] after_cancel(
                    old(self).tasks(),
                    owner.said(),
                    id@,
                    now,
                ),
            res ==> is_told(final(self).tasks(), id@),
    {
        let now = self.moment();
        let ghost owed = after_cancel(self.tasks(), owner.said(), id@, now);
        self.cancel_for_owner_at(owner, id, now)
    }

    /// Requests cancellation for every running task, signals their operations, and
    /// says how many requests are new.
    pub fn cancel_all_running_at(&mut self, message: &str, now: Moment) -> (res: usize)
        ensures
            (final(self).tasks(), res as nat) == after_cancel_all(
                old(self).tasks(),
                message@,
                now,
            ),
            all_told(old(self).tasks(), final(self).tasks()),
    {
        let ghost before = self.tasks();
        proof {
            use_type_invariant(&*self);
        }
        let mut queue: Vec<TaskEntry> = Vec::new();
        assert(views(queue@) =~= Seq::empty());
        std::mem::swap(&mut queue, &mut self.entries);
        let ghost list = queue@;
        let ghost n = list.len();
        let ghost asked = all_asked(before, message@, now);
        let mut done: Vec<TaskEntry> = Vec::new();
        let mut count: usize = 0;
        let ghost mut i: int = 0;
        assert(views(done@) =~= asked.take(0));
        while queue.len() > 0
            invariant
                0 <= i <= n,
                queue@.len() + i == n,
                n == list.len(),
                before == views(list),
                n <= MAX_TASK_REGISTRY_ENTRIES,
                queue@ == list.subrange(i, n as int),
                asked == all_asked(before, message@, now),
                views(done@) == asked.take(i),
                sound(before),
                forall|j: int| 0 <= j < i ==> coherent(#[trigger] asked[j]),
                count == askable(before.take(i)),
                count <= i,
            decreases queue@.len(),
        {
            let ghost former = done@;
            let mut entry = queue.remove(0);
            assert(entry == list[i]);
            assert(before[i] == entry@);
            assert(before.take(i + 1).drop_last() =~= before.take(i));
            assert(before.take(i + 1).last() == before[i]);
            if entry.request_cancel(message, now) {
                count += 1;
            }
            assert(entry@ == asked[i]);
            assert(coherent(before[i]));
            assert(coherent(asked[i]));
            done.push(entry);
            assert(views(done@) =~= views(former).push(asked[i]));
            assert(asked.take(i + 1) =~= asked.take(i).push(asked[i]));
            assert(queue@ =~= list.subrange(i + 1, n as int));
            proof {
                i = i + 1;
            }
        }
        assert(before.take(n as int) =~= before);
        assert(asked.take(n as int) =~= asked);
        proof {
            assert(sound(asked)) by {
                assert forall|a: int, b: int| 0 <= a < b < asked.len() implies compatible(
                    #[trigger] asked[a],
                    #[trigger] asked[b],
                ) by {
                    assert(compatible(before[a], before[b]));
                }
            }
            assert forall|i: int|
                0 <= i < before.len() && (#[trigger] before[i]).running() implies is_told(
                asked,
                before[i].state.id,
            ) && is_told(pruned(asked, now.nanos), before[i].state.id) by {
                asked_is_told(asked, i, now.nanos);
            }
        }
        self.entries = done;
        if count > 0 {
            self.prune(now.nanos);
        }
        count
    }

    /// Requests cancellation for every running task, signals their operations, and
    /// says how many requests are new. The tasks stay running until their work settles.
    pub fn cancel_all_running(&mut self, message: &str) -> (res: usize)
        ensures
            exists|now: Moment|
                (final(self).tasks(), res as nat) == #[trigger] after_cancel_all(
                    old(self).tasks(),
                    message@,
                    now,
                ),
            all_told(old(self).tasks(), final(self).tasks()),
    {
        let now = self.moment();
        let ghost owed = after_cancel_all(self.tasks(), message@, now);
        self.cancel_all_running_at(message, now)
    }

    /// The state of a task.
    fn snapshot(&self, id: &str) -> (res: Option<TaskState>)
        ensures
            match res {
                Some(state) => position(self.tasks(), id@) < self.tasks().len() && state@
                    == self.tasks()[position(self.tasks(), id@)].state,
                None => position(self.tasks(), id@) >= self.tasks().len(),
            },
    {
        let at = self.find(id);
        if at < self.entries.len() {
            assert(self.tasks()[at as int] == self.entries@[at as int]@);
            Some(self.entries[at].state.clone())
        } else {
            None
        }
    }

    /// The state of a task.
    pub fn get_at(&mut self, id: &str, now: Moment) -> (res: Option<TaskState>)
        ensures
            final(self).tasks() == pruned(old(self).tasks(), now.nanos),
            opt_state(res) == state_of(final(self).tasks(), id@),
    {
        self.prune(now.nanos);
        self.snapshot(id)
    }

    /// A snapshot of a task's current state.
    pub fn get(&mut self, id: &str) -> (res: Option<TaskState>)
        ensures
            exists|now: Moment| final(self).tasks() == #[trigger] pruned(
                old(self).tasks(),
                now.nanos,
            ),
            opt_state(res) == state_of(final(self).tasks(), id@),
    {
        let now = self.moment();
        let ghost owed = pruned(self.tasks(), now.nanos);
        self.get_at(id, now)
    }

    /// The state of a task, where it belongs to the owner.
    pub fn get_for_owner_at(&mut self, owner: &TaskOwner, id: &str, now: Moment) -> (res: Option<
        TaskState,
    >)
        ensures
            final(self).tasks() == pruned(old(self).tasks(), now.nanos),
            opt_state(res) == owned_state(final(self).tasks(), owner.said(), id@),
    {
        self.prune(now.nanos);
        let at = self.find(id);
        if at < self.entries.len() {
            assert(self.tasks()[at as int] == self.entries@[at as int]@);
            if self.entries[at].owner.is_same(owner) {
                return Some(self.entries[at].state.clone());
            }
        }
        None
    }

    /// A task only when it belongs to the requesting owner. Unknown ids and those
    /// of others have the same result.
    pub fn get_for_owner(&mut self, owner: &TaskOwner, id: &str) -> (res: Option<TaskState>)
        ensures
            exists|now: Moment| final(self).tasks() == #[trigger] pruned(
                old(self).tasks(),
                now.nanos,
            ),
            opt_state(res) == owned_state(final(self).tasks(), owner.said(), id@),
    {
        let now = self.moment();
        let ghost owed = pruned(self.tasks(), now.nanos);
        self.get_for_owner_at(owner, id, now)
    }

    /// All tasks.
    pub fn list_all(&mut self) -> (res: Vec<TaskState>)
        ensures
            exists|now: Moment| final(self).tasks() == #[trigger] pruned(
                old(self).tasks(),
                now.nanos,
            ),
            res@.len() == final(self).tasks().len(),
            forall|i: int|
                0 <= i < res@.len() ==> (#[trigger] res@[i])@ == final(self).tasks()[i].state,
    {
        let now = self.moment();
        let ghost owed = pruned(self.tasks(), now.nanos);
        self.prune(now.nanos);
        self.states()
    }

    fn states(&self) -> (res: Vec<TaskState>)
        ensures
            res@.len() == self.tasks().len(),
            forall|i: int| 0 <= i < res@.len() ==> (#[trigger] res@[i])@ == self.tasks()[i].state,
    {
        let mut out: Vec<TaskState> = Vec::new();
        let mut i: usize = 0;
        while i < self.entries.len()
            invariant
                i <= self.entries.len(),
                out@.len() == i,
                forall|j: int| 0 <= j < i ==> (#[trigger] out@[j])@ == self.tasks()[j].state,
            decreases self.entries.len() - i,
        {
            out.push(self.entries[i].state.clone());
            i += 1;
        }
        out
    }

    /// The position of the running task of a key.
    fn find_running(&self, key: &str) -> (res: usize)
        ensures
            res == running_key_from(self.tasks(), key@, 0),
            res <= self.tasks().len(),
            self.tasks().len() == self.entries@.len(),
    {
        let mut i: usize = 0;
        while i < self.entries.len()
            invariant
                i <= self.entries.len(),
                running_key_from(self.tasks(), key@, 0) == running_key_from(
                    self.tasks(),
                    key@,
                    i as int,
                ),
            decreases self.entries.len() - i,
        {
            assert(self.tasks()[i as int] == self.entries@[i as int]@);
            let matches_key = match &self.entries[i].state.key {
                Some(own) => same(own.as_str(), key),
                None => false,
            };
            if self.entries[i].is_running() && matches_key {
                return i;
            }
            i += 1;
        }
        i
    }

    /// The position of the terminal task that gives way first.
    fn find_first_to_go(&self) -> (res: usize)
        ensures
            res == first_to_go(self.tasks(), self.tasks().len() as int),
            res <= self.tasks().len(),
            self.tasks().len() == self.entries@.len(),
    {
        let n = self.entries.len();
        let mut best: usize = n;
        let mut i: usize = 0;
        while i < n
            invariant
                i <= n,
                n == self.entries@.len(),
                n == self.tasks().len(),
                best <= n,
                best == first_to_go(self.tasks(), i as int),
            decreases n - i,
        {
            assert(self.tasks()[i as int] == self.entries@[i as int]@);
            if !self.entries[i].is_running() {
                if best >= n {
                    best = i;
                } else {
                    assert(self.tasks()[best as int] == self.entries@[best as int]@);
                    let a = &self.entries[i].state;
                    let b = &self.entries[best].state;
                    if a.updated_at < b.updated_at || (a.updated_at == b.updated_at
                        && is_text_before(a.id.as_str(), b.id.as_str())) {
                        best = i;
                    }
                }
            }
            i += 1;
        }
        best
    }

    /// Enters a task, where there is room for it.
    fn enter(&mut self, entry: TaskEntry) -> (res: Result<String, TaskCreateError>)
        requires
            coherent(entry@),
            entry@.running() && entry@.state.key is Some ==> forall|i: int|
                0 <= i < old(self).tasks().len() ==> !((#[trigger] old(
                    self,
                ).tasks()[i]).running() && old(self).tasks()[i].state.key == entry@.state.key),
        ensures
            (final(self).tasks(), said_of(res)) == admitted(old(self).tasks(), entry@),
    {
        let ghost start = self.tasks();
        proof {
            use_type_invariant(&*self);
            admitted_is_sound(start, entry@);
            first_to_go_bounds(start, start.len() as int);
        }
        let at = self.find_first_to_go();
        let mut entries: Vec<TaskEntry> = Vec::new();
        assert(views(entries@) =~= Seq::empty());
        std::mem::swap(&mut entries, &mut self.entries);
        if entries.len() >= MAX_TASK_REGISTRY_ENTRIES && at < entries.len() {
            let _ = entries.remove(at);
            assert(views(entries@) =~= start.remove(at as int));
        }
        let ghost room = views(entries@);
        assert(room == with_room(start));
        if entries.len() >= MAX_TASK_REGISTRY_ENTRIES {
            self.entries = entries;
            return Err(
                TaskCreateError::CapacityExceeded { max_entries: MAX_TASK_REGISTRY_ENTRIES },
            );
        }
        let id = entry.state.id.clone();
        let again = find_entry(&entries, id.as_str());
        if again < entries.len() {
            let _ = entries.remove(again);
            assert(views(entries@) =~= room.remove(again as int));
        }
        let ghost rest = views(entries@);
        let ghost said = entry@;
        entries.push(entry);
        assert(views(entries@) =~= rest.push(said));
        self.entries = entries;
        Ok(id)
    }

    /// Creates a task under an id, with a deduplication key.
    pub fn create_keyed_at(
        &mut self,
        owner: &TaskOwner,
        id: String,
        key: &str,
        message: &str,
        now: Moment,
    ) -> (res: Result<String, TaskCreateError>)
        ensures
            (final(self).tasks(), said_of(res)) == keyed(
                old(self).tasks(),
                owner.said(),
                id@,
                key@,
                message@,
                now,
            ),
    {
        self.prune(now.nanos);
        let at = self.find_running(key);
        proof {
            running_key_bounds(self.tasks(), key@, 0);
        }
        if at < self.entries.len() {
            assert(self.tasks()[at as int] == self.entries@[at as int]@);
            let is_session = match owner {
                TaskOwner::Session(_) => true,
                TaskOwner::Runtime => false,
            };
            return if is_session && self.entries[at].owner.is_same(owner) {
                Err(TaskCreateError::AlreadyRunning(self.entries[at].state.id.clone()))
            } else {
                Err(TaskCreateError::ExistingTaskIdIsPrivate)
            };
        }
        let entry = entry_of(
            owner,
            id,
            TaskStatus::Running,
            message,
            None,
            Some(key.to_owned()),
            now,
        );
        self.enter(entry)
    }

    /// Creates a task with a deduplication key. A session that asks for work it
    /// already has running receives the id of that task. All other matches remain
    /// private and block duplicate work.
    pub fn create_keyed(
        &mut self,
        owner: &TaskOwner,
        prefix: &str,
        key: &str,
        message: &str,
    ) -> (res: Result<String, TaskCreateError>)
        ensures
            exists|id: Seq<char>, now: Moment|
                is_task_id(id, prefix@) && (final(self).tasks(), said_of(res)) == #[trigger] keyed(
                    old(self).tasks(),
                    owner.said(),
                    id,
                    key@,
                    message@,
                    now,
                ),
    {
        let id = next_task_id(prefix);
        let now = self.moment();
        let ghost owed = keyed(self.tasks(), owner.said(), id@, key@, message@, now);
        assert(is_task_id(id@, prefix@));
        self.create_keyed_at(owner, id, key, message, now)
    }

    /// Creates a task that is over before it begins.
    pub fn create_completed_at(
        &mut self,
        owner: &TaskOwner,
        id: String,
        message: &str,
        result: JsonValue,
        now: Moment,
    ) -> (res: Result<String, TaskCreateError>)
        ensures
            (final(self).tasks(), said_of(res)) == admitted(
                pruned(old(self).tasks(), now.nanos),
                new_task(
                    owner.said(),
                    id@,
                    TaskStatus::Completed,
                    message@,
                    Some(result.json()),
                    None,
                    now,
                ),
            ),
    {
        self.prune(now.nanos);
        let entry = entry_of(owner, id, TaskStatus::Completed, message, Some(result), None, now);
        self.enter(entry)
    }

    /// Creates a task that is over before it begins.
    pub fn create_completed(
        &mut self,
        owner: &TaskOwner,
        message: &str,
        result: JsonValue,
    ) -> (res: Result<String, TaskCreateError>)
        ensures
            exists|id: Seq<char>, now: Moment|
                is_task_id(id, "task"@) && (final(self).tasks(), said_of(res)) == admitted(
                    pruned(old(self).tasks(), now.nanos),
                    #[trigger] new_task(
                        owner.said(),
                        id,
                        TaskStatus::Completed,
                        message@,
                        Some(result.json()),
                        None,
                        now,
                    ),
                ),
    {
        let id = next_task_id("task");
        let now = self.moment();
        assert(is_task_id(id@, "task"@));
        let ghost owed = new_task(
            owner.said(),
            id@,
            TaskStatus::Completed,
            message@,
            Some(result.json()),
            None,
            now,
        );
        self.create_completed_at(owner, id, message, result, now)
    }
}

/// What an admission answers.
pub open spec fn said_of(res: Result<String, TaskCreateError>) -> Result<Seq<char>, Refused> {
    match res {
        Ok(id) => Ok(id@),
        Err(error) => Err(error.said()),
    }
}

/// What an optional state says.
pub open spec fn opt_state(state: Option<TaskState>) -> Option<StateView> {
    match state {
        Some(state) => Some(state@),
        None => None,
    }
}

/// The state of the task of an id.
pub open spec fn state_of(tasks: Seq<EntryView>, id: Seq<char>) -> Option<StateView> {
    let at = position(tasks, id);
    if at < tasks.len() {
        Some(tasks[at].state)
    } else {
        None
    }
}

/// The state of the task of an id, where it belongs to somebody.
pub open spec fn owned_state(
    tasks: Seq<EntryView>,
    owner: Option<Seq<char>>,
    id: Seq<char>,
) -> Option<StateView> {
    let at = position(tasks, id);
    if at < tasks.len() && tasks[at].owner == owner {
        Some(tasks[at].state)
    } else {
        None
    }
}

/// A task id: a prefix and thirty-two random digits.
pub open spec fn is_task_id(id: Seq<char>, prefix: Seq<char>) -> bool {
    exists|digits: Seq<char>| #[trigger]
        ambient::is_random_id(digits) && id == prefix + "-"@ + digits
}

/// A task id with a random component.
///
/// The id is a capability and not just a name: clients without a session share
/// one owner, so the id is all that separates one client's task from another's.
fn next_task_id(prefix: &str) -> (res: String)
    ensures
        is_task_id(res@, prefix@),
{
    let digits = random_id();
    let mut out = prefix.to_owned();
    out.append("-");
    out.append(digits.as_str());
    assert(ambient::is_random_id(digits@) && out@ == prefix@ + "-"@ + digits@);
    out
}

fn entry_of(
    owner: &TaskOwner,
    id: String,
    status: TaskStatus,
    message: &str,
    result: Option<JsonValue>,
    key: Option<String>,
    now: Moment,
) -> (res: TaskEntry)
    ensures
        res@ == new_task(
            owner.said(),
            id@,
            status,
            message@,
            outcome::opt_json(result),
            tool::opt_text(key),
            now,
        ),
{
    let stamp = timestamp(now.secs);
    TaskEntry {
        owner: owner.clone(),
        state: TaskState {
            id,
            status,
            message: message.to_owned(),
            result,
            created_at: now.nanos,
            updated_at: now.nanos,
            created_at_iso: stamp.clone(),
            updated_at_iso: stamp,
            key,
        },
        cancel_token: None,
        cancel_requested: None,
    }
}

fn find_entry(entries: &Vec<TaskEntry>, id: &str) -> (res: usize)
    ensures
        res == position(views(entries@), id@),
        res <= entries@.len(),
{
    let mut i: usize = 0;
    while i < entries.len()
        invariant
            i <= entries.len(),
            position(views(entries@), id@) == position_from(views(entries@), id@, i as int),
        decreases entries.len() - i,
    {
        assert(views(entries@)[i as int] == entries@[i as int]@);
        if same(entries[i].state.id.as_str(), id) {
            return i;
        }
        i += 1;
    }
    i
}

// ---------------------------------------------------------------------------
// The protocol's tasks
// ---------------------------------------------------------------------------

/// What a task carries beside its status.
#[derive(Debug, PartialEq)]
pub enum TaskPayload {
    Working,
    Completed { result: Fields },
    Failed { error: Fields },
    Cancelled,
}

/// What a [`TaskPayload`] says.
pub enum PayloadView {
    Working,
    Completed { result: Seq<(Seq<char>, Json)> },
    Failed { error: Seq<(Seq<char>, Json)> },
    Cancelled,
}

impl View for TaskPayload {
    type V = PayloadView;

    open spec fn view(&self) -> PayloadView {
        match self {
            TaskPayload::Working => PayloadView::Working,
            TaskPayload::Completed { result } => PayloadView::Completed {
                result: result.fields(),
            },
            TaskPayload::Failed { error } => PayloadView::Failed { error: error.fields() },
            TaskPayload::Cancelled => PayloadView::Cancelled,
        }
    }
}

/// A task with what it carries.
#[derive(Debug, PartialEq)]
pub struct DetailedTask {
    pub task: Task,
    pub payload: TaskPayload,
}

/// The protocol's word for a status.
pub open spec fn protocol_status(status: TaskStatus) -> ProtocolStatus {
    match status {
        TaskStatus::Running => ProtocolStatus::Working,
        TaskStatus::Completed => ProtocolStatus::Completed,
        TaskStatus::Failed => ProtocolStatus::Failed,
        TaskStatus::Cancelled => ProtocolStatus::Cancelled,
    }
}

/// A task as the protocol describes it.
pub open spec fn protocol_task(state: StateView, poll_interval_ms: u64) -> TaskView {
    TaskView {
        task_id: state.id,
        status: protocol_status(state.status),
        status_message: Some(state.message),
        created_at: state.created_at_iso,
        last_updated_at: state.updated_at_iso,
        ttl_ms: Some(TASK_RETENTION_TTL_MS),
        poll_interval_ms: Some(poll_interval_ms),
    }
}

/// Converts a snapshot to the protocol's task.
pub fn mcp_task(state: &TaskState, poll_interval_ms: u64) -> (res: Task)
    ensures
        res@ == protocol_task(state@, poll_interval_ms),
{
    Task {
        task_id: state.id.clone(),
        status: match state.status {
            TaskStatus::Running => ProtocolStatus::Working,
            TaskStatus::Completed => ProtocolStatus::Completed,
            TaskStatus::Failed => ProtocolStatus::Failed,
            TaskStatus::Cancelled => ProtocolStatus::Cancelled,
        },
        status_message: Some(state.message.clone()),
        created_at: state.created_at_iso.clone(),
        last_updated_at: state.updated_at_iso.clone(),
        ttl_ms: Some(TASK_RETENTION_TTL_MS),
        poll_interval_ms: Some(poll_interval_ms),
    }
}

/// A document as an object: itself where it is one, else its only field.
pub open spec fn as_fields(doc: Json) -> Seq<(Seq<char>, Json)> {
    match doc {
        Json::Object(fields) => fields,
        other => json::with_field(Seq::empty(), "value"@, other),
    }
}

fn value_as_json_object(value: JsonValue) -> (res: Fields)
    ensures
        res.fields() == as_fields(value.json()),
{
    proof {
        value.kinds();
    }
    match value {
        JsonValue::Object(object) => object,
        other => {
            let mut object = Fields::new();
            object.insert("value".to_owned(), other);
            object
        },
    }
}

/// Whether `rmcp` reads a document as the result of a tool call.
pub uninterp spec fn reads_as_result(doc: Json) -> bool;

/// `serde_json::from_value` into `rmcp::model::CallToolResult`: whether the
/// document is the result of a tool call on the wire.
#[verifier::external_body]
fn value_reads_as_result(value: serde_json::Value) -> (res: bool)
    ensures
        res == reads_as_result(json::held(value)),
{
    serde_json::from_value::<rmcp::model::CallToolResult>(value).is_ok()
}

/// A document wrapped in the result of a successful call.
pub open spec fn wrapped(doc: Json) -> Json {
    Json::Object(
        outcome::result_fields(
            outcome::success_view(seq![outcome::text_block(json::pretty_text(doc))]),
        ),
    )
}

fn wrap_as_call_tool_result(value: &JsonValue) -> (res: JsonValue)
    ensures
        res.json() == wrapped(value.json()),
{
    let mut content: Vec<ContentBlock> = Vec::new();
    content.push(ContentBlock::text(to_pretty(value)));
    assert(outcome::blocks(content@) =~= seq![
        outcome::text_block(json::pretty_text(value.json())),
    ]);
    call_tool_result_to_value(&CallToolResult::success(content))
}

/// What a completed task carries, given whether what was stored reads as the
/// result of a tool call: that result, or what was stored wrapped in one.
pub open spec fn payload_value(result: Option<Json>, reads: bool) -> Json {
    match result {
        Some(doc) => if reads {
            doc
        } else {
            wrapped(doc)
        },
        None => wrapped(Json::Null),
    }
}

/// Whether a stored result reads as the result of a tool call.
pub open spec fn stored_reads(result: Option<Json>) -> bool {
    result is Some && reads_as_result(result->0)
}

/// What a completed task carries, given whether what was stored reads as the
/// result of a tool call.
pub fn payload_result_value(result: Option<JsonValue>, reads: bool) -> (res: JsonValue)
    ensures
        res.json() == payload_value(outcome::opt_json(result), reads),
{
    match result {
        Some(value) => if reads {
            value
        } else {
            wrap_as_call_tool_result(&value)
        },
        None => wrap_as_call_tool_result(&JsonValue::Null),
    }
}

/// What a completed task carries: the result type of the original request.
/// Anything stored that is not one already is wrapped in one.
pub fn task_payload_result_value(result: Option<JsonValue>) -> (res: JsonValue)
    ensures
        res.json() == payload_value(
            outcome::opt_json(result),
            stored_reads(outcome::opt_json(result)),
        ),
{
    let reads = match &result {
        Some(value) => value_reads_as_result(to_serde(value)),
        None => false,
    };
    payload_result_value(result, reads)
}

/// The error that a failed task carries.
pub open spec fn failure(message: Seq<char>) -> Seq<(Seq<char>, Json)> {
    json::with_field(
        json::with_field(Seq::empty(), "code"@, Json::Integer(outcome::INTERNAL_ERROR as int)),
        "message"@,
        Json::Text(message),
    )
}

/// What a task carries, given whether its result reads as that of a tool call.
pub open spec fn detail(state: StateView, reads: bool) -> PayloadView {
    match state.status {
        TaskStatus::Running => PayloadView::Working,
        TaskStatus::Completed => PayloadView::Completed {
            result: as_fields(payload_value(state.result, reads)),
        },
        TaskStatus::Failed => PayloadView::Failed { error: failure(state.message) },
        TaskStatus::Cancelled => PayloadView::Cancelled,
    }
}

/// Whether a task with its payload is what a state says.
pub open spec fn tells(task: DetailedTask, state: StateView, poll_interval_ms: u64) -> bool {
    &&& task.task@ == protocol_task(state, poll_interval_ms)
    &&& task.payload@ == detail(state, stored_reads(state.result))
}

/// Converts a snapshot to a task with its payload, given what a completed task
/// carries.
pub fn detail_task(state: &TaskState, carried: JsonValue, poll_interval_ms: u64) -> (res:
    DetailedTask)
    ensures
        res.task@ == protocol_task(state@, poll_interval_ms),
        res.payload@ == (match state@.status {
            TaskStatus::Running => PayloadView::Working,
            TaskStatus::Completed => PayloadView::Completed {
                result: as_fields(carried.json()),
            },
            TaskStatus::Failed => PayloadView::Failed { error: failure(state@.message) },
            TaskStatus::Cancelled => PayloadView::Cancelled,
        }),
{
    let task = mcp_task(state, poll_interval_ms);
    let payload = match state.status {
        TaskStatus::Running => TaskPayload::Working,
        TaskStatus::Completed => TaskPayload::Completed { result: value_as_json_object(carried) },
        TaskStatus::Failed => {
            let mut error = Fields::new();
            error.insert(
                "code".to_owned(),
                JsonValue::Numeral(Numeral::from_i64(outcome::INTERNAL_ERROR)),
            );
            error.insert("message".to_owned(), JsonValue::Text(state.message.clone()));
            TaskPayload::Failed { error }
        },
        TaskStatus::Cancelled => TaskPayload::Cancelled,
    };
    DetailedTask { task, payload }
}

/// Converts a snapshot to a task with its payload.
pub fn detailed_task(state: TaskState, poll_interval_ms: u64) -> (res: DetailedTask)
    ensures
        tells(res, state@, poll_interval_ms),
{
    let stored = match &state.result {
        Some(value) => Some(value.clone()),
        None => None,
    };
    let carried = task_payload_result_value(stored);
    detail_task(&state, carried, poll_interval_ms)
}

/// The task id that a tool result carries, given the document its text spells
/// out.
pub open spec fn carried_id(doc: Option<Json>) -> Option<Seq<char>> {
    match doc {
        Some(doc) => match doc.get("task_id"@) {
            Some(id) => id.text(),
            None => None,
        },
        None => None,
    }
}

/// The task id that a tool result carries.
pub open spec fn task_id_in(result: ResultView) -> Option<Seq<char>> {
    match output::first_text(result) {
        Some(text) => carried_id(json::parsed(text)),
        None => None,
    }
}

/// The task id in a document.
pub fn id_in_document(doc: &JsonValue) -> (res: Option<String>)
    ensures
        tool::opt_text(res) == carried_id(Some(doc.json())),
{
    match doc.get("task_id") {
        Some(id) => match id.as_str() {
            Some(id) => Some(id.to_owned()),
            None => None,
        },
        None => None,
    }
}

/// Reads the task id back out of a tool result that started background work.
pub fn task_id_from_call_tool_result(result: &CallToolResult) -> (res: Option<String>)
    ensures
        tool::opt_text(res) == task_id_in(result@),
{
    if result.content.len() == 0 {
        return None;
    }
    assert(result@.content[0] == result.content@[0]@);
    match result.content[0].as_text() {
        Some(text) => match parse_json(text) {
            Some(doc) => id_in_document(&doc),
            None => None,
        },
        None => None,
    }
}

/// What is answered to an id that is not known, or not the caller's.
pub open spec fn unknown(task_id: Seq<char>) -> ErrorView {
    ErrorView {
        code: outcome::INVALID_PARAMS as int,
        message: "Unknown task_id"@,
        data: Some(
            Json::Object(json::with_field(Seq::empty(), "task_id"@, Json::Text(task_id))),
        ),
    }
}

fn unknown_task(task_id: &str) -> (res: ErrorData)
    ensures
        res@ == unknown(task_id@),
{
    let mut data = Fields::new();
    data.insert("task_id".to_owned(), JsonValue::Text(task_id.to_owned()));
    ErrorData::invalid_params("Unknown task_id".to_owned(), Some(JsonValue::Object(data)))
}

/// What a poll does to the tasks, and what it is answered. Unknown ids and those
/// of others are answered alike.
pub open spec fn answers_get(
    before: Seq<EntryView>,
    after: Seq<EntryView>,
    owner: Option<Seq<char>>,
    id: Seq<char>,
    poll_interval_ms: u64,
    now: Moment,
    res: Result<DetailedTask, ErrorData>,
) -> bool {
    &&& after == pruned(before, now.nanos)
    &&& match owned_state(after, owner, id) {
        Some(state) => res is Ok && tells(res->Ok_0, state, poll_interval_ms),
        None => res is Err && res->Err_0@ == unknown(id),
    }
}

/// What a delivery to a task does to the tasks, and what it is answered.
pub open spec fn answers_update(
    before: Seq<EntryView>,
    after: Seq<EntryView>,
    owner: Option<Seq<char>>,
    id: Seq<char>,
    now: Moment,
    res: Result<(), ErrorData>,
) -> bool {
    &&& after == pruned(before, now.nanos)
    &&& match owned_state(after, owner, id) {
        Some(_) => res is Ok,
        None => res is Err && res->Err_0@ == unknown(id),
    }
}

/// What a request for cancellation does to the tasks, and what it is answered. It
/// is acknowledged whenever the task is known, and made where the task runs: the
/// operation has then been told to stop.
pub open spec fn answers_cancel(
    before: Seq<EntryView>,
    after: Seq<EntryView>,
    owner: Option<Seq<char>>,
    id: Seq<char>,
    now: Moment,
    res: Result<(), ErrorData>,
) -> bool {
    let kept = pruned(before, now.nanos);
    match owned_state(kept, owner, id) {
        Some(state) => {
            &&& res is Ok
            &&& after == after_cancel(kept, owner, id, now).0
            &&& state.status == TaskStatus::Running ==> is_told(after, id)
        },
        None => res is Err && res->Err_0@ == unknown(id) && after == kept,
    }
}

/// What becomes of a tool answer, and of the tasks: an answer that names a task
/// becomes its handle, and any other passes through.
pub open spec fn answers_start(
    before: Seq<EntryView>,
    after: Seq<EntryView>,
    should_materialize: bool,
    response: CallToolResponse,
    poll_interval_ms: u64,
    now: Moment,
    res: Result<CallToolResponse, ErrorData>,
) -> bool {
    match response {
        CallToolResponse::Complete(result) if should_materialize && task_id_in(
            result@,
        ) is Some => {
            let id = task_id_in(result@)->0;
            &&& after == pruned(before, now.nanos)
            &&& match state_of(after, id) {
                Some(state) => match res {
                    Ok(CallToolResponse::Task(task)) => task@ == protocol_task(
                        state,
                        poll_interval_ms,
                    ),
                    _ => false,
                },
                None => res is Err && res->Err_0@ == (ErrorView {
                    code: outcome::INTERNAL_ERROR as int,
                    message: "Task "@ + id + " disappeared"@,
                    data: None,
                }),
            }
        },
        _ => res == Ok::<CallToolResponse, ErrorData>(response) && after == before,
    }
}

impl TaskRegistry {
    /// Answers a poll. Unknown ids and those of others are answered alike.
    pub fn serve_get_at(
        &mut self,
        owner: &TaskOwner,
        task_id: &str,
        poll_interval_ms: u64,
        now: Moment,
    ) -> (res: Result<DetailedTask, ErrorData>)
        ensures
            answers_get(
                old(self).tasks(),
                final(self).tasks(),
                owner.said(),
                task_id@,
                poll_interval_ms,
                now,
                res,
            ),
    {
        match self.get_for_owner_at(owner, task_id, now) {
            Some(state) => Ok(detailed_task(state, poll_interval_ms)),
            None => Err(unknown_task(task_id)),
        }
    }

    /// Acknowledges what was delivered to a known task.
    pub fn serve_update_at(&mut self, owner: &TaskOwner, task_id: &str, now: Moment) -> (res:
        Result<(), ErrorData>)
        ensures
            answers_update(
                old(self).tasks(),
                final(self).tasks(),
                owner.said(),
                task_id@,
                now,
                res,
            ),
    {
        match self.get_for_owner_at(owner, task_id, now) {
            Some(_) => Ok(()),
            None => Err(unknown_task(task_id)),
        }
    }

    /// Acknowledges a request for cancellation of a known task, and makes it where
    /// the task runs.
    pub fn serve_cancel_at(&mut self, owner: &TaskOwner, task_id: &str, now: Moment) -> (res:
        Result<(), ErrorData>)
        ensures
            answers_cancel(
                old(self).tasks(),
                final(self).tasks(),
                owner.said(),
                task_id@,
                now,
                res,
            ),
    {
        let state = match self.get_for_owner_at(owner, task_id, now) {
            Some(state) => state,
            None => return Err(unknown_task(task_id)),
        };
        if state.status == TaskStatus::Running {
            proof {
                use_type_invariant(&*self);
                position_bounds(self.tasks(), task_id@, 0);
                let at = position(self.tasks(), task_id@);
                if self.tasks()[at].cancel_requested is Some {
                    asked_is_told(self.tasks(), at, now.nanos);
                }
            }
            let _ = self.cancel_for_owner_at(owner, task_id, now);
        }
        Ok(())
    }

    /// The handle for a tool answer that started background work.
    pub fn materialize_at(
        &mut self,
        should_materialize: bool,
        response: CallToolResponse,
        poll_interval_ms: u64,
        now: Moment,
    ) -> (res: Result<CallToolResponse, ErrorData>)
        ensures
            answers_start(
                old(self).tasks(),
                final(self).tasks(),
                should_materialize,
                response,
                poll_interval_ms,
                now,
                res,
            ),
    {
        if !should_materialize {
            return Ok(response);
        }
        let result = match response {
            CallToolResponse::Complete(result) => result,
            other => return Ok(other),
        };
        let task_id = match task_id_from_call_tool_result(&result) {
            Some(id) => id,
            None => return Ok(CallToolResponse::Complete(result)),
        };
        match self.get_at(task_id.as_str(), now) {
            Some(state) => Ok(CallToolResponse::Task(mcp_task(&state, poll_interval_ms))),
            None => {
                let mut message = "Task ".to_owned();
                message.append(task_id.as_str());
                message.append(" disappeared");
                Err(ErrorData::internal_error(message, None))
            },
        }
    }
}

/// The `tasks/*` half of an engine, expressed as questions only the engine can
/// answer: where its tasks are, and who a request comes from.
///
/// What is served is stated over the engine's two answers, [`TaskHost::kept`] and
/// [`TaskHost::owner_of`]. An engine whose own code is verified says what they are;
/// of those of another nothing is known but that it answers by them.
pub trait TaskHost {
    /// The tasks that the engine keeps.
    open spec fn kept(&self) -> Seq<EntryView> {
        let of: spec_fn(&Self) -> Seq<EntryView> = arbitrary();
        of(self)
    }

    /// Who a request comes from, by what came with it.
    open spec fn owner_of(&self, meta: Seq<(Seq<char>, Json)>) -> Option<Seq<char>> {
        let of: spec_fn(&Self, Seq<(Seq<char>, Json)>) -> Option<Seq<char>> = arbitrary();
        of(self, meta)
    }

    /// The registry that holds the engine's tasks.
    fn task_registry(&mut self) -> (res: &mut TaskRegistry)
        ensures
            res.tasks() == old(self).kept(),
            final(self).kept() == final(res).tasks(),
    ;

    /// Identity that may observe and control tasks created for this request.
    fn task_owner(&self, meta: &Fields) -> (res: TaskOwner)
        ensures
            res.said() == self.owner_of(meta.fields()),
    ;

    /// Poll cadence advertised with every handle this engine hands out.
    fn task_poll_interval_ms(&self) -> (res: u64)
        default_ensures
            res == DEFAULT_POLL_INTERVAL_MS,
    {
        DEFAULT_POLL_INTERVAL_MS
    }

    /// `tasks/get`. Unknown ids and those of others are answered alike, so that
    /// polling cannot be used to find out that a task exists.
    fn serve_get_task(&mut self, task_id: &str, meta: &Fields) -> (res: Result<
        DetailedTask,
        ErrorData,
    >)
        ensures
            exists|now: Moment, poll: u64|
                call_ensures(Self::task_poll_interval_ms, (old(self),), poll)
                    && #[trigger] answers_get(
                    old(self).kept(),
                    final(self).kept(),
                    old(self).owner_of(meta.fields()),
                    task_id@,
                    poll,
                    now,
                    res,
                ),
    {
        let owner = self.task_owner(meta);
        let poll = self.task_poll_interval_ms();
        let registry = self.task_registry();
        let now = registry.moment();
        registry.serve_get_at(&owner, task_id, poll, now)
    }

    /// `tasks/update`. What is delivered to a known task is acknowledged.
    fn serve_update_task(&mut self, task_id: &str, meta: &Fields) -> (res: Result<(), ErrorData>)
        ensures
            exists|now: Moment| #[trigger]
                answers_update(
                    old(self).kept(),
                    final(self).kept(),
                    old(self).owner_of(meta.fields()),
                    task_id@,
                    now,
                    res,
                ),
    {
        let owner = self.task_owner(meta);
        let registry = self.task_registry();
        let now = registry.moment();
        registry.serve_update_at(&owner, task_id, now)
    }

    /// `tasks/cancel`. Asking twice is acknowledged, but signals the operation only
    /// once; the task runs on until its work settles.
    fn serve_cancel_task(&mut self, task_id: &str, meta: &Fields) -> (res: Result<(), ErrorData>)
        ensures
            exists|now: Moment| #[trigger]
                answers_cancel(
                    old(self).kept(),
                    final(self).kept(),
                    old(self).owner_of(meta.fields()),
                    task_id@,
                    now,
                    res,
                ),
    {
        let owner = self.task_owner(meta);
        let registry = self.task_registry();
        let now = registry.moment();
        registry.serve_cancel_at(&owner, task_id, now)
    }

    /// Promotes a tool answer that started background work into a task handle,
    /// when the caller can hold one. An answer without a task id passes through
    /// untouched.
    fn materialize_task_response(
        &mut self,
        should_materialize: bool,
        response: CallToolResponse,
    ) -> (res: Result<CallToolResponse, ErrorData>)
        ensures
            exists|now: Moment, poll: u64|
                call_ensures(Self::task_poll_interval_ms, (old(self),), poll)
                    && #[trigger] answers_start(
                    old(self).kept(),
                    final(self).kept(),
                    should_materialize,
                    response,
                    poll,
                    now,
                    res,
                ),
    {
        let poll = self.task_poll_interval_ms();
        let registry = self.task_registry();
        let now = registry.moment();
        registry.materialize_at(should_materialize, response, poll, now)
    }
}

/// The first version of the protocol that has task handles.
pub const TASK_HANDLES_SINCE: &'static str = "2026-07-28";

/// Whether a peer can be handed a task handle at all.
///
/// Two facts, and neither sufficient alone: an older peer cannot parse a handle
/// even after declaring that it wants one, and a newer peer that never declared
/// it never agreed to receive one. What is not known answers no.
pub fn peer_can_hold_task_handle(
    protocol_version: Option<&str>,
    supports_tasks: Option<bool>,
) -> (res: bool)
    ensures
        res == (protocol_version is Some && !text::text_before(
            protocol_version->0@,
            TASK_HANDLES_SINCE@,
        ) && supports_tasks == Some(true)),
{
    let version = match protocol_version {
        Some(version) => version,
        None => return false,
    };
    let asked = match supports_tasks {
        Some(asked) => asked,
        None => return false,
    };
    !is_text_before(version, TASK_HANDLES_SINCE) && asked
}

// ---------------------------------------------------------------------------
// Laws
// ---------------------------------------------------------------------------

/// A task that is over stays as it is: no later completion, failure,
/// cancellation or progress changes it.
pub proof fn terminal_is_final(
    task: EntryView,
    result: Json,
    text: Seq<char>,
    now: Moment,
)
    requires
        !task.running(),
    ensures
        task.completed(result, now) == (task, TaskSettlement::Unchanged),
        task.failed(text, now) == (task, TaskSettlement::Unchanged),
        task.cleanup_failed(text, now) == (task, TaskSettlement::Unchanged),
        task.asked_to_cancel(text, now) == task,
        task.finished_cancelled(text, now) == task,
        task.with_message(text, now) == task,
{
}

/// Asking for cancellation leaves a task running until its work settles, and
/// then cancellation wins: the task is cancelled with the message it was asked
/// with, and what the work brought is not published.
pub proof fn cancellation_wins(
    task: EntryView,
    message: Seq<char>,
    result: Json,
    error: Seq<char>,
    asked: Moment,
    settled: Moment,
)
    requires
        task.can_be_asked(),
        coherent(task),
    ensures
        ({
            let pending = task.asked_to_cancel(message, asked);
            let done = pending.completed(result, settled);
            let broke = pending.failed(error, settled);
            &&& pending.running()
            &&& !pending.can_be_asked()
            &&& done.1 == TaskSettlement::Cancelled
            &&& broke.1 == TaskSettlement::Cancelled
            &&& done.0.state.status == TaskStatus::Cancelled
            &&& done.0.state.message == message
            &&& done.0.state.result is None
            &&& done.0 == broke.0
        }),
{
}

/// A cleanup that failed is never reported as a clean cancellation.
pub proof fn cleanup_failure_is_published(
    task: EntryView,
    message: Seq<char>,
    error: Seq<char>,
    asked: Moment,
    settled: Moment,
)
    requires
        task.can_be_asked(),
    ensures
        ({
            let (after, settlement) = task.asked_to_cancel(message, asked).cleanup_failed(
                error,
                settled,
            );
            &&& settlement == TaskSettlement::Failed
            &&& after.state.status == TaskStatus::Failed
            &&& after.state.message == error
        }),
{
}

pub proof fn pruned_keeps(tasks: Seq<EntryView>, at: int, now: u128)
    requires
        0 <= at < tasks.len(),
        is_kept(tasks[at], now),
    ensures
        pruned(tasks, now).contains(tasks[at]),
    decreases tasks.len(),
{
    let after = pruned(tasks, now);
    if at == tasks.len() - 1 {
        assert(after[after.len() - 1] == tasks[at]);
    } else {
        pruned_keeps(tasks.drop_last(), at, now);
        let before = pruned(tasks.drop_last(), now);
        let i = choose|i: int| 0 <= i < before.len() && before[i] == tasks[at];
        assert(after[i] == tasks[at]);
    }
}

/// A running task is never dropped, neither for its age nor to make room; nor is
/// one that changed within the retention time dropped for its age.
pub proof fn running_tasks_stay(tasks: Seq<EntryView>, at: int, now: u128)
    requires
        0 <= at < tasks.len(),
    ensures
        tasks[at].running() ==> pruned(tasks, now).contains(tasks[at]),
        tasks[at].running() ==> with_room(tasks).contains(tasks[at]),
        idle(tasks[at], now) < TASK_RETENTION_TTL_MS * 1_000_000 ==> pruned(
            tasks,
            now,
        ).contains(tasks[at]),
{
    if is_kept(tasks[at], now) {
        pruned_keeps(tasks, at, now);
    }
    first_to_go_bounds(tasks, tasks.len() as int);
    let gone = first_to_go(tasks, tasks.len() as int);
    let room = with_room(tasks);
    if tasks[at].running() {
        if room == tasks {
            assert(room[at] == tasks[at]);
        } else {
            assert(gone != at);
            let i = if at < gone {
                at
            } else {
                at - 1
            };
            assert(room[i] == tasks[at]);
        }
    }
}

/// New work is refused for want of room only where every slot is held by a
/// running task.
pub proof fn only_running_work_refuses(tasks: Seq<EntryView>, task: EntryView)
    requires
        sound(tasks),
    ensures
        admitted(tasks, task).1 is Err <==> tasks.len() == MAX_TASK_REGISTRY_ENTRIES && forall|
            i: int,
        |
            0 <= i < tasks.len() ==> (#[trigger] tasks[i]).running(),
        admitted(tasks, task).1 is Ok ==> admitted(tasks, task).1 == Ok::<Seq<char>, Refused>(
            task.state.id,
        ),
{
    first_to_go_bounds(tasks, tasks.len() as int);
}

/// What gives way is the terminal task that changed longest ago.
pub proof fn oldest_gives_way(tasks: Seq<EntryView>, n: int, other: int)
    requires
        0 <= other < n <= tasks.len(),
        !tasks[other].running(),
    ensures
        first_to_go(tasks, n) < tasks.len(),
        tasks[first_to_go(tasks, n)].state.updated_at <= tasks[other].state.updated_at,
    decreases n,
{
    first_to_go_bounds(tasks, n);
    first_to_go_bounds(tasks, n - 1);
    if other < n - 1 {
        oldest_gives_way(tasks, n - 1, other);
    }
}

/// A task that was entered can be read back, by its owner and under its id.
pub proof fn entered_can_be_read(tasks: Seq<EntryView>, task: EntryView)
    requires
        sound(tasks),
        coherent(task),
        admitted(tasks, task).1 is Ok,
        task.running() && task.state.key is Some ==> forall|i: int|
            0 <= i < tasks.len() ==> !((#[trigger] tasks[i]).running() && tasks[i].state.key
                == task.state.key),
    ensures
        state_of(admitted(tasks, task).0, task.state.id) == Some(task.state),
        owned_state(admitted(tasks, task).0, task.owner, task.state.id) == Some(task.state),
{
    admitted_is_sound(tasks, task);
    let after = admitted(tasks, task).0;
    let last = after.len() - 1;
    assert(after[last] == task);
    position_bounds(after, task.state.id, 0);
    let p = position(after, task.state.id);
    if p < last {
        assert(compatible(after[p], after[last]));
    }
}

/// Another owner's task is answered exactly like one that never existed, and
/// asking to cancel it changes nothing.
pub proof fn foreign_tasks_are_invisible(
    tasks: Seq<EntryView>,
    owner: Option<Seq<char>>,
    id: Seq<char>,
    now: Moment,
)
    requires
        position(tasks, id) < tasks.len(),
        tasks[position(tasks, id)].owner != owner,
    ensures
        owned_state(tasks, owner, id) is None,
        after_cancel(tasks, owner, id, now) == (tasks, false),
{
}

/// Asking a second time for cancellation is acknowledged and changes nothing: the
/// operation is signalled once.
pub proof fn second_cancel_changes_nothing(
    tasks: Seq<EntryView>,
    owner: Option<Seq<char>>,
    id: Seq<char>,
    first: Moment,
    second: Moment,
)
    requires
        sound(tasks),
        after_cancel(tasks, owner, id, first).1,
    ensures
        ({
            let kept = pruned(after_cancel(tasks, owner, id, first).0, second.nanos);
            &&& owned_state(kept, owner, id) is Some
            &&& owned_state(kept, owner, id)->0.status == TaskStatus::Running
            &&& after_cancel(kept, owner, id, second) == (kept, false)
        }),
{
    let at = position(tasks, id);
    position_bounds(tasks, id, 0);
    let pending = tasks[at].asked_to_cancel("Cancelled by client"@, first);
    let asked = tasks.update(at, pending);
    let once = pruned(asked, first.nanos);
    let kept = pruned(once, second.nanos);
    assert(asked[at] == pending);
    pruned_keeps(asked, at, first.nanos);
    let k = choose|k: int| 0 <= k < once.len() && once[k] == pending;
    pruned_keeps(once, k, second.nanos);
    pruned_comes_from(asked, first.nanos);
    pruned_comes_from(once, second.nanos);
    position_bounds(kept, id, 0);
    let q = choose|q: int| 0 <= q < kept.len() && kept[q] == pending;
    let p = position(kept, id);
    assert(p <= q) by {
        if p > q {
            assert(kept[q].state.id != id);
        }
    }
    let j = choose|j: int| 0 <= j < once.len() && once[j] == kept[p];
    let i = choose|i: int| 0 <= i < asked.len() && asked[i] == once[j];
    if i < at {
        assert(compatible(tasks[i], tasks[at]));
    } else if at < i {
        assert(compatible(tasks[at], tasks[i]));
    }
}

/// Work that runs under a key blocks the same work, and its id is told to nobody
/// but the session that owns it.
pub proof fn matching_work_stays_private(
    tasks: Seq<EntryView>,
    owner: Option<Seq<char>>,
    id: Seq<char>,
    key: Seq<char>,
    message: Seq<char>,
    now: Moment,
    at: int,
)
    requires
        sound(tasks),
        0 <= at < tasks.len(),
        tasks[at].running(),
        tasks[at].state.key == Some(key),
    ensures
        keyed(tasks, owner, id, key, message, now).1 == Err::<Seq<char>, Refused>(
            if owner is Some && tasks[at].owner == owner {
                Refused::AlreadyRunning(tasks[at].state.id)
            } else {
                Refused::ExistingTaskIdIsPrivate
            },
        ),
{
    let kept = pruned(tasks, now.nanos);
    pruned_keeps(tasks, at, now.nanos);
    pruned_is_sound(tasks, now.nanos);
    running_key_bounds(kept, key, 0);
    let i = choose|i: int| 0 <= i < kept.len() && kept[i] == tasks[at];
    let found = running_key_from(kept, key, 0);
    assert(kept[i].running() && kept[i].state.key == Some(key));
    if found < i {
        assert(compatible(kept[found], kept[i]));
    }
}

} // verus!
