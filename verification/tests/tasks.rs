use tokio_util::sync::CancellationToken;
use vibrev::calendar::{epoch_days_to_ymd, timestamp};
use vibrev::json::{parse_json, to_compact, Fields, JsonValue};
use vibrev::outcome::{
    call_tool_result_to_value, CallToolResponse, CallToolResult, ContentBlock, ProtocolStatus,
    Rendered, ToolOutcome, INVALID_PARAMS,
};
use vibrev::tasks::{
    detailed_task, id_in_document, mcp_task, peer_can_hold_task_handle, task_id_from_call_tool_result,
    task_payload_result_value, Moment, TaskCompletionDecision, TaskCreateError, TaskHost, TaskOwner,
    TaskPayload, TaskRegistry, TaskSettlement, TaskStatus, DEFAULT_POLL_INTERVAL_MS,
    MAX_TASK_REGISTRY_ENTRIES, TASK_RETENTION_TTL_MS,
};

fn json(source: &str) -> JsonValue {
    parse_json(source).expect("a JSON document")
}

const OWNER: TaskOwner = TaskOwner::Runtime;

fn moment(nanos: u128) -> Moment {
    Moment { nanos, secs: 0 }
}

/// Past the retention of what was settled at the start.
const LATER: Moment = Moment { nanos: (TASK_RETENTION_TTL_MS as u128 + 1) * 1_000_000, secs: 0 };

/// The smallest thing that can answer `tasks/*`: a registry and one owner.
struct Host(TaskRegistry);

impl TaskHost for Host {
    fn task_registry(&mut self) -> &mut TaskRegistry {
        &mut self.0
    }

    fn task_owner(&self, _meta: &Fields) -> TaskOwner {
        TaskOwner::Runtime
    }
}

fn no_meta() -> Fields {
    Fields::new()
}

#[test]
fn create_and_get() {
    let mut registry = TaskRegistry::new();
    let id = registry
        .create_keyed(&OWNER, "open", "test-key", "Starting")
        .expect("should succeed");
    assert!(id.starts_with("open-"));
    let state = registry.get(&id).expect("task should exist");
    assert_eq!(state.status, TaskStatus::Running);
    assert_eq!(state.message, "Starting");
    assert!(state.result.is_none());
    assert!(!state.created_at_iso.is_empty());
}

#[test]
fn update_message() {
    let mut registry = TaskRegistry::new();
    let id = registry
        .create_keyed(&OWNER, "t", "k1", "Phase 1")
        .expect("should succeed");
    registry.update_message(&id, "Phase 2");
    let state = registry.get(&id).expect("task should exist");
    assert_eq!(state.message, "Phase 2");
}

#[test]
fn complete_task() {
    let mut registry = TaskRegistry::new();
    let id = registry
        .create_keyed(&OWNER, "t", "k2", "Working")
        .expect("should succeed");
    let result = json(r#"{"db": "opened"}"#);
    assert_eq!(
        registry.complete(&id, result.clone()),
        TaskSettlement::Completed
    );
    let state = registry.get(&id).expect("task should exist");
    assert_eq!(state.status, TaskStatus::Completed);
    assert_eq!(state.result, Some(result));
}

#[test]
fn fail_task() {
    let mut registry = TaskRegistry::new();
    let id = registry
        .create_keyed(&OWNER, "t", "k3", "Working")
        .expect("should succeed");
    assert_eq!(
        registry.fail(&id, "the worker exited with code 4"),
        TaskSettlement::Failed
    );
    let state = registry.get(&id).expect("task should exist");
    assert_eq!(state.status, TaskStatus::Failed);
    assert_eq!(state.message, "the worker exited with code 4");
}

#[test]
fn get_nonexistent() {
    let mut registry = TaskRegistry::new();
    assert!(registry.get("open-nope").is_none());
}

#[test]
fn runtime_keyed_dedup_keeps_existing_id_private() {
    let mut registry = TaskRegistry::new();
    let id1 = registry
        .create_keyed(&OWNER, "open", "/path/to/db", "First")
        .expect("first should succeed");
    let dup = registry.create_keyed(&OWNER, "open", "/path/to/db", "Second");
    assert_eq!(dup, Err(TaskCreateError::ExistingTaskIdIsPrivate));

    // After completing, a new task with the same key can be created.
    registry.complete(&id1, json(r#"{}"#));
    let id2 = registry
        .create_keyed(&OWNER, "open", "/path/to/db", "Third")
        .expect("should succeed after first completed");
    assert_ne!(id1, id2);
}

#[test]
fn task_ownership_isolates_dedup_lookup_and_cancellation() {
    let mut registry = TaskRegistry::new();
    let owner_a = TaskOwner::Session("session-a".to_owned());
    let owner_b = TaskOwner::Session("session-b".to_owned());
    let id = registry
        .create_keyed(&owner_a, "open", "/path/to/shared", "Opening")
        .expect("first owner should create the task");

    assert_eq!(
        registry.create_keyed(&owner_a, "open", "/path/to/shared", "Opening again"),
        Err(TaskCreateError::AlreadyRunning(id.clone()))
    );
    assert_eq!(
        registry.create_keyed(&owner_b, "open", "/path/to/shared", "Other owner"),
        Err(TaskCreateError::ExistingTaskIdIsPrivate)
    );
    assert!(registry.get_for_owner(&owner_b, &id).is_none());
    assert!(!registry.cancel_for_owner(&owner_b, &id));
    assert_eq!(
        registry
            .get_for_owner(&owner_a, &id)
            .expect("owner should still see its task")
            .status,
        TaskStatus::Running
    );

    registry.complete(&id, json(r#"{"close_token": "owner-a-secret"}"#));
    assert!(registry.get_for_owner(&owner_b, &id).is_none());
    assert_eq!(
        registry
            .get_for_owner(&owner_a, &id)
            .and_then(|task| task.result),
        Some(json(r#"{"close_token": "owner-a-secret"}"#))
    );
}

#[test]
fn cancellation_request_remains_running_until_work_settles() {
    let mut registry = TaskRegistry::new();
    let id = registry
        .create_keyed(&OWNER, "t", "k4", "Working")
        .expect("should succeed");
    assert!(registry.cancel_for_owner(&OWNER, &id));
    let state = registry.get(&id).expect("task should exist");
    assert_eq!(state.status, TaskStatus::Running);
    assert!(
        state
            .message
            .contains("waiting for the operation to settle")
    );

    // A repeated request is acknowledged by the protocol handler but does
    // not signal the operation twice.
    assert!(!registry.cancel_for_owner(&OWNER, &id));

    assert_eq!(
        registry.complete(&id, json(r#"{"late_result": true}"#)),
        TaskSettlement::Cancelled
    );
    let state = registry.get(&id).expect("task should remain retained");
    assert_eq!(state.status, TaskStatus::Cancelled);
    assert_eq!(state.message, "Cancelled by client");
    assert!(state.result.is_none());
}

#[test]
fn final_completion_defers_terminal_cancellation_for_cleanup() {
    let mut registry = TaskRegistry::new();
    let id = registry
        .create_keyed(&OWNER, "open", "late-cancel", "Working")
        .expect("should create task");
    let cancel_token = CancellationToken::new();

    assert!(registry.cancel_for_owner(&OWNER, &id));
    assert_eq!(
        registry.complete_or_defer_cancellation(
            &id,
            json(r#"{"close_token": "must-not-publish"}"#),
            &cancel_token,
        ),
        TaskCompletionDecision::CancellationPending
    );
    let pending = registry.get(&id).expect("task should remain visible");
    assert_eq!(pending.status, TaskStatus::Running);
    assert!(pending.result.is_none());

    assert!(registry.finish_cancelled(&id, "database closed"));
    assert_eq!(
        registry
            .get(&id)
            .expect("task should remain retained")
            .status,
        TaskStatus::Cancelled
    );
}

#[test]
fn cancellation_cleanup_failure_is_not_reported_as_clean_cancel() {
    let mut registry = TaskRegistry::new();
    let id = registry
        .create_keyed(&OWNER, "open", "cleanup-failed", "Working")
        .expect("should create task");
    assert!(registry.cancel_for_owner(&OWNER, &id));

    assert_eq!(
        registry.fail_after_cleanup_error(&id, "conditional close failed"),
        TaskSettlement::Failed
    );
    let failed = registry.get(&id).expect("task should remain retained");
    assert_eq!(failed.status, TaskStatus::Failed);
    assert_eq!(failed.message, "conditional close failed");
}

#[test]
fn terminal_tasks_ignore_late_complete_or_fail_updates() {
    let mut registry = TaskRegistry::new();
    let id = registry
        .create_keyed(&OWNER, "t", "late", "Working")
        .expect("should succeed");

    assert!(registry.cancel_for_owner(&OWNER, &id));
    assert_eq!(
        registry.complete(&id, json(r#"{"ok": true}"#)),
        TaskSettlement::Cancelled
    );
    assert_eq!(
        registry.fail(&id, "late failure"),
        TaskSettlement::Unchanged
    );

    let state = registry.get(&id).expect("task should exist");
    assert_eq!(state.status, TaskStatus::Cancelled);
    assert_eq!(state.message, "Cancelled by client");
    assert!(state.result.is_none());
}

#[test]
fn cancel_running_task_signals_cancellation_token() {
    let mut registry = TaskRegistry::new();
    let id = registry
        .create_keyed(&OWNER, "t", "k-cancel", "Working")
        .expect("should succeed");
    let cancel_token = CancellationToken::new();
    let observed = cancel_token.clone();
    registry.set_cancel_token(&id, cancel_token);

    assert!(registry.cancel_for_owner(&OWNER, &id));
    assert!(observed.is_cancelled());
    assert_eq!(
        registry.get(&id).expect("task should exist").status,
        TaskStatus::Running
    );
}

#[test]
fn cancelled_lifetime_token_wins_at_operation_settlement() {
    let mut registry = TaskRegistry::new();
    let id = registry
        .create_keyed(&OWNER, "t", "lifetime-cancel", "Working")
        .expect("should succeed");
    let cancel_token = CancellationToken::new();
    cancel_token.cancel();

    assert_eq!(
        registry.complete_with_cancel_token(
            &id,
            json(r#"{"late_result": true}"#),
            &cancel_token,
            "Cancelled after connection closed",
        ),
        TaskSettlement::Cancelled
    );
    let state = registry.get(&id).expect("task should remain retained");
    assert_eq!(state.status, TaskStatus::Cancelled);
    assert_eq!(state.message, "Cancelled after connection closed");
    assert!(state.result.is_none());
}

#[test]
fn cancel_all_running_cancels_tokens_and_preserves_terminal_tasks() {
    let mut registry = TaskRegistry::new();
    let id1 = registry
        .create_keyed(&OWNER, "t", "k-all-1", "Working 1")
        .expect("should succeed");
    let id2 = registry
        .create_keyed(&OWNER, "t", "k-all-2", "Working 2")
        .expect("should succeed");
    let completed = registry
        .create_completed(&OWNER, "Done", json(r#"{"ok": true}"#))
        .expect("should create completed task");

    let cancel_token1 = CancellationToken::new();
    let cancel_token2 = CancellationToken::new();
    let observed1 = cancel_token1.clone();
    let observed2 = cancel_token2.clone();
    registry.set_cancel_token(&id1, cancel_token1);
    registry.set_cancel_token(&id2, cancel_token2);

    assert_eq!(registry.cancel_all_running("Cancelled by shutdown"), 2);
    assert!(observed1.is_cancelled());
    assert!(observed2.is_cancelled());

    let state1 = registry.get(&id1).expect("task should exist");
    let state2 = registry.get(&id2).expect("task should exist");
    let completed_state = registry.get(&completed).expect("task should exist");
    assert_eq!(state1.status, TaskStatus::Running);
    assert_eq!(state2.status, TaskStatus::Running);
    assert_eq!(completed_state.status, TaskStatus::Completed);
    assert_eq!(registry.cancel_all_running("again"), 0);

    assert_eq!(
        registry.complete(&id1, json(r#"{"ok": true}"#)),
        TaskSettlement::Cancelled
    );
    assert_eq!(
        registry.fail(&id2, "the worker settled with an error"),
        TaskSettlement::Cancelled
    );
    assert_eq!(
        registry.get(&id1).expect("task should exist").message,
        "Cancelled by shutdown"
    );
    assert_eq!(
        registry.get(&id2).expect("task should exist").status,
        TaskStatus::Cancelled
    );
}

#[test]
fn list_all_tasks() {
    let mut registry = TaskRegistry::new();
    let _ = registry.create_keyed(&OWNER, "t", "a", "Task A");
    let _ = registry.create_keyed(&OWNER, "t", "b", "Task B");
    assert_eq!(registry.list_all().len(), 2);
}

#[test]
fn iso_timestamp_format() {
    let mut registry = TaskRegistry::new();
    let id = registry
        .create_keyed(&OWNER, "t", "ts", "Timestamp test")
        .expect("should succeed");
    let state = registry.get(&id).expect("task should exist");
    // Should match YYYY-MM-DDTHH:MM:SSZ
    assert!(
        state.created_at_iso.len() == 20,
        "unexpected ISO length: {}",
        state.created_at_iso
    );
    assert!(state.created_at_iso.ends_with('Z'));
}

#[test]
fn create_completed_uses_task_prefix() {
    let mut registry = TaskRegistry::new();
    let id = registry
        .create_completed(&OWNER, "Done", json(r#"{"ok": true}"#))
        .expect("should create completed task");
    assert!(id.starts_with("task-"));
    let state = registry.get(&id).expect("task should exist");
    assert_eq!(state.status, TaskStatus::Completed);
}

#[test]
fn task_admission_reclaims_the_oldest_terminal_result_at_capacity() {
    let mut registry = TaskRegistry::new();
    let mut ids = Vec::with_capacity(MAX_TASK_REGISTRY_ENTRIES);
    for _ in 0..MAX_TASK_REGISTRY_ENTRIES {
        ids.push(
            registry
                .create_completed(&OWNER, "Done", json(r#"{"ok": true}"#))
                .expect("entries within the bound should be admitted"),
        );
    }
    assert_eq!(registry.list_all().len(), MAX_TASK_REGISTRY_ENTRIES);

    // A registry saturated with *terminal* entries must still admit work.
    // Rejecting here would strand every later background call for the whole
    // retention window with nothing running.
    let admitted = registry
        .create_completed(&OWNER, "Admitted", json(r#"{"ok": true}"#))
        .expect("capacity must be reclaimed from the oldest terminal entry");

    assert_eq!(registry.list_all().len(), MAX_TASK_REGISTRY_ENTRIES);
    assert!(registry.get(&admitted).is_some());
    assert!(
        registry.get(&ids[0]).is_none(),
        "the least recently updated terminal entry should be reclaimed"
    );
    assert!(
        ids[1..].iter().all(|id| registry.get(id).is_some()),
        "reclaiming must take only as many entries as admission needs"
    );
}

#[test]
fn capacity_reclaim_never_evicts_running_tasks() {
    let mut registry = TaskRegistry::new();
    let mut running = Vec::with_capacity(MAX_TASK_REGISTRY_ENTRIES);
    for index in 0..MAX_TASK_REGISTRY_ENTRIES {
        running.push(
            registry
                .create_keyed(&OWNER, "t", &format!("k-{index}"), "Working")
                .expect("entries within the bound should be admitted"),
        );
    }

    assert_eq!(
        registry.create_keyed(&OWNER, "t", "k-overflow", "Working"),
        Err(TaskCreateError::CapacityExceeded {
            max_entries: MAX_TASK_REGISTRY_ENTRIES
        }),
        "in-flight work holds its slot; admission still fails when nothing is reclaimable"
    );
    assert!(
        running.iter().all(|id| registry.get(id).is_some()),
        "running tasks must never be reclaimed"
    );
}

#[test]
fn expired_terminal_task_frees_admission_capacity() {
    let mut registry = TaskRegistry::new();
    let first_id = registry
        .create_completed_at(&OWNER, "task-0".to_owned(), "Done", json("{}"), moment(0))
        .expect("entries within the bound should be admitted");
    for index in 1..MAX_TASK_REGISTRY_ENTRIES {
        registry
            .create_completed_at(&OWNER, format!("task-{index}"), "Done", json("{}"), LATER)
            .expect("entries within the bound should be admitted");
    }

    let replacement = registry
        .create_completed_at(
            &OWNER,
            "task-new".to_owned(),
            "Replacement",
            json(r#"{"ok": true}"#),
            LATER,
        )
        .expect("expired terminal task should free capacity");
    assert!(registry.get_at(&first_id, LATER).is_none());
    assert!(registry.get_at(&replacement, LATER).is_some());
    let held = (1..MAX_TASK_REGISTRY_ENTRIES)
        .filter(|index| registry.get_at(&format!("task-{index}"), LATER).is_some())
        .count();
    assert_eq!(held + 1, MAX_TASK_REGISTRY_ENTRIES);
}

#[test]
fn expired_terminal_tasks_are_pruned() {
    let mut registry = TaskRegistry::new();
    let expired_id = registry
        .create_completed_at(
            &OWNER,
            "task-expired".to_owned(),
            "Expired",
            json(r#"{"ok": true}"#),
            moment(0),
        )
        .expect("should create expired fixture");
    let retained_id = registry
        .create_completed_at(
            &OWNER,
            "task-retained".to_owned(),
            "Retained",
            json(r#"{"ok": true}"#),
            LATER,
        )
        .expect("should create retained fixture");

    assert!(registry.get_at(&expired_id, LATER).is_none());
    assert!(registry.get_at(&retained_id, LATER).is_some());
}

#[test]
fn running_tasks_are_not_pruned_after_retention_ttl() {
    let mut registry = TaskRegistry::new();
    let running_id = registry
        .create_keyed_at(&OWNER, "t-1".to_owned(), "long-running", "Working", moment(0))
        .expect("should create long-running task");

    assert!(registry.get_at(&running_id, LATER).is_some());
}

#[test]
fn task_completing_after_ttl_remains_retrievable() {
    let mut registry = TaskRegistry::new();
    let id = registry
        .create_keyed_at(&OWNER, "t-1".to_owned(), "slow", "Working", moment(0))
        .expect("should create task");

    registry.complete_at(&id, json(r#"{"ok": true}"#), LATER);

    assert!(
        registry.get_at(&id, LATER).is_some(),
        "a task older than the TTL must survive its own completion"
    );
}

#[test]
fn task_ids_do_not_collide_across_registries() {
    let mut first = TaskRegistry::new();
    let mut second = TaskRegistry::new();
    let a = first
        .create_keyed(&OWNER, "open", "same-key", "Working")
        .expect("should create task");
    let b = second
        .create_keyed(&OWNER, "open", "same-key", "Working")
        .expect("should create task");

    assert_ne!(a, b);
    assert!(second.get(&a).is_none(), "stale IDs must not resolve");
}

/// Task IDs are bearer capabilities under the shared sessionless Runtime
/// owner: each must carry full per-task randomness, never a shared
/// registry tag plus a guessable counter.
#[test]
fn task_ids_are_individually_random_within_one_registry() {
    let mut registry = TaskRegistry::new();
    let a = registry
        .create_keyed(&OWNER, "open", "key-a", "Working")
        .expect("should create task");
    let b = registry
        .create_keyed(&OWNER, "open", "key-b", "Working")
        .expect("should create task");

    let random_component = |id: &str| {
        id.strip_prefix("open-")
            .expect("task id should start with its prefix")
            .to_string()
    };
    let (a, b) = (random_component(&a), random_component(&b));
    assert_eq!(a.len(), 32, "expected a full 128-bit hex component: {a}");
    assert!(a.chars().all(|c| c.is_ascii_hexdigit()), "{a}");
    assert_ne!(a, b, "sibling tasks must not share a derivable component");
}

#[test]
fn task_seed_uses_retention_ttl_and_poll_interval() {
    let mut registry = TaskRegistry::new();
    let id = registry
        .create_keyed(&OWNER, "test", "seed", "Working")
        .expect("create task");
    let state = registry.get(&id).expect("task state");
    let task = mcp_task(&state, DEFAULT_POLL_INTERVAL_MS);

    assert_eq!(task.status, ProtocolStatus::Working);
    assert_eq!(task.ttl_ms, Some(TASK_RETENTION_TTL_MS));
    assert_eq!(task.poll_interval_ms, Some(DEFAULT_POLL_INTERVAL_MS));
}

/// The poll interval reaches the wire from the host, not from a constant
/// baked into the adapter. An engine whose work settles in seconds is the
/// reason it is a method.
#[test]
fn host_poll_interval_reaches_the_handle() {
    struct Brisk(TaskRegistry);
    impl TaskHost for Brisk {
        fn task_registry(&mut self) -> &mut TaskRegistry {
            &mut self.0
        }
        fn task_owner(&self, _meta: &Fields) -> TaskOwner {
            TaskOwner::Runtime
        }
        fn task_poll_interval_ms(&self) -> u64 {
            250
        }
    }

    let mut host = Brisk(TaskRegistry::new());
    let id = host
        .0
        .create_keyed(&OWNER, "t", "brisk", "Working")
        .expect("create task");
    let answer = host
        .serve_get_task(&id, &no_meta())
        .expect("owner should read its own task");
    assert_eq!(answer.task.poll_interval_ms, Some(250));
}

#[test]
fn task_payload_preserves_valid_call_tool_result() {
    let result = CallToolResult::success(vec![ContentBlock::text("ok".to_owned())]);
    let as_value = call_tool_result_to_value(&result);
    assert_eq!(task_payload_result_value(Some(as_value.clone())), as_value);
}

#[test]
fn task_payload_wraps_content_array_shape_that_is_not_call_tool_result() {
    let input = json(r#"{ "content": [1, 2, 3] }"#);
    let wrapped = task_payload_result_value(Some(input.clone()));
    assert_ne!(wrapped, input);

    let parsed: rmcp::model::CallToolResult = serde_json::from_str(&to_compact(&wrapped))
        .expect("wrapped payload should be CallToolResult");
    assert_eq!(parsed.is_error, Some(false));
    let wrapped_text = parsed
        .content
        .first()
        .and_then(|c| c.as_text())
        .map(|t| t.text.as_str())
        .unwrap_or_default();
    assert!(wrapped_text.contains("\"content\""));
}

#[test]
fn completed_task_inlines_original_tool_result() {
    let mut registry = TaskRegistry::new();
    let tool_result = CallToolResult::success(vec![ContentBlock::text("done".to_owned())]);
    let payload = call_tool_result_to_value(&tool_result);
    let id = registry
        .create_completed(&OWNER, "Completed", payload)
        .expect("create completed task");
    let state = registry.get(&id).expect("task state");
    let detailed = detailed_task(state, DEFAULT_POLL_INTERVAL_MS);

    assert_eq!(detailed.task.status, ProtocolStatus::Completed);
    let TaskPayload::Completed { result } = &detailed.payload else {
        panic!("not completed: {detailed:?}");
    };
    let content = result.get("content").and_then(|c| c.as_array()).expect("content");
    assert_eq!(content[0].get("text").and_then(|t| t.as_str()), Some("done"));
    assert_eq!(result.get("isError").and_then(|e| e.as_bool()), Some(false));
}

#[test]
fn failed_task_inlines_json_rpc_error() {
    let mut registry = TaskRegistry::new();
    let id = registry
        .create_keyed(&OWNER, "test", "failed", "Working")
        .expect("create task");
    registry.fail(&id, "the analysis worker exited");
    let state = registry.get(&id).expect("task state");
    let detailed = detailed_task(state, DEFAULT_POLL_INTERVAL_MS);

    assert_eq!(detailed.task.status, ProtocolStatus::Failed);
    let TaskPayload::Failed { error } = &detailed.payload else {
        panic!("not failed: {detailed:?}");
    };
    assert_eq!(error.get("code").and_then(|c| c.as_i64()), Some(-32603));
    assert_eq!(
        error.get("message").and_then(|m| m.as_str()),
        Some("the analysis worker exited")
    );
}

#[test]
fn background_tool_result_materializes_a_task_handle() {
    let mut host = Host(TaskRegistry::new());
    let task_id = host
        .0
        .create_keyed(&OWNER, "open", "/tmp/cache", "Opening")
        .expect("create task");
    let result = CallToolResult::success(vec![ContentBlock::text(
        format!(r#"{{"task_id":"{task_id}"}}"#),
    )]);
    let response = host
        .materialize_task_response(true, CallToolResponse::Complete(result))
        .expect("materialize task");

    let CallToolResponse::Task(created) = response else {
        panic!("a task-capable call must return a task handle");
    };
    assert_eq!(created.task_id, task_id);
    assert_eq!(created.status, ProtocolStatus::Working);
    assert_eq!(
        created.poll_interval_ms,
        Some(DEFAULT_POLL_INTERVAL_MS)
    );
    assert_eq!(created.ttl_ms, Some(TASK_RETENTION_TTL_MS));
}

/// A tool that decided against backgrounding this call answers normally.
/// The alternative — an internal error because no `task_id` was in the
/// payload — would turn a per-call decision into a per-tool one.
#[test]
fn a_result_without_a_task_id_passes_through() {
    let mut host = Host(TaskRegistry::new());
    let result = CallToolResult::success(vec![ContentBlock::text("{\"done\":true}".to_owned())]);
    let response = host
        .materialize_task_response(true, CallToolResponse::Complete(result))
        .expect("pass through");
    assert!(matches!(response, CallToolResponse::Complete(_)));
}

#[test]
fn update_task_acknowledges_known_tasks_and_rejects_unknown() {
    let mut host = Host(TaskRegistry::new());
    let id = host
        .0
        .create_keyed(&OWNER, "open", "update-task", "Working")
        .expect("create task");

    // SEP-2663: responses delivered to a known task are ignored with an
    // empty result, never an error — including after a raced transition
    // to a terminal state.
    assert!(host.serve_update_task(&id, &no_meta()).is_ok());
    host.0.complete(&id, json(r#"{"ok": true}"#));
    assert!(host.serve_update_task(&id, &no_meta()).is_ok());

    let err = host
        .serve_update_task("missing-1", &no_meta())
        .expect_err("unknown task must error");
    assert_eq!(err.code, INVALID_PARAMS);
}

/// Another owner's ID is answered exactly like an ID that never existed,
/// on every one of the three verbs. Anything else turns `tasks/get` into
/// an oracle for whether a task exists.
#[test]
fn another_owners_task_is_indistinguishable_from_a_missing_one() {
    struct Owned(TaskRegistry, TaskOwner);
    impl TaskHost for Owned {
        fn task_registry(&mut self) -> &mut TaskRegistry {
            &mut self.0
        }
        fn task_owner(&self, _meta: &Fields) -> TaskOwner {
            self.1.clone()
        }
    }

    let mut registry = TaskRegistry::new();
    let mine = TaskOwner::Session("session-a".to_owned());
    let id = registry
        .create_keyed(&mine, "open", "/path/to/shared", "Opening")
        .expect("create task");
    let mut stranger = Owned(registry, TaskOwner::Session("session-b".to_owned()));

    let missing = stranger
        .serve_get_task("open-missing", &no_meta())
        .expect_err("unknown id must error");
    let theirs = stranger
        .serve_get_task(&id, &no_meta())
        .expect_err("another owner's id must error");
    assert_eq!(theirs.code, missing.code);
    assert_eq!(theirs.message, missing.message);

    assert_eq!(
        stranger
            .serve_cancel_task(&id, &no_meta())
            .expect_err("another owner must not cancel")
            .code,
        INVALID_PARAMS
    );
    assert_eq!(
        stranger
            .serve_update_task(&id, &no_meta())
            .expect_err("another owner must not update")
            .code,
        INVALID_PARAMS
    );
    assert_eq!(
        stranger
            .task_registry()
            .get(&id)
            .expect("the task itself is untouched")
            .status,
        TaskStatus::Running,
    );
}

#[test]
fn cancel_leaves_the_task_running_until_its_work_settles() {
    let mut host = Host(TaskRegistry::new());
    let id = host
        .0
        .create_keyed(&OWNER, "open", "cancel-verb", "Working")
        .expect("create task");

    host.serve_cancel_task(&id, &no_meta())
        .expect("owner may cancel");
    let state = host.0.get(&id).expect("task should exist");
    assert_eq!(state.status, TaskStatus::Running);

    // Acknowledged again rather than rejected: a client that retries a
    // cancel it already sent has not made a protocol error.
    host.serve_cancel_task(&id, &no_meta())
        .expect("a repeated cancel is acknowledged");

    host.0.complete(&id, json(r#"{"late": true}"#));
    let settled = host.0.get(&id).expect("task should remain retained");
    assert_eq!(settled.status, TaskStatus::Cancelled);

    // Terminal now, and still not an error to ask again.
    host.serve_cancel_task(&id, &no_meta())
        .expect("cancelling a settled task is acknowledged");
}

/// Version and capability are an AND, and the version half is the one an
/// engine forgets: a client can declare the tasks extension while speaking
/// a protocol that cannot parse the answer.
#[test]
fn a_task_handle_needs_both_the_capability_and_the_version() {
    let asked = Some(true);
    let silent = Some(false);

    assert!(peer_can_hold_task_handle(Some("2026-07-28"), asked));
    assert!(!peer_can_hold_task_handle(Some("2025-11-25"), asked));
    assert!(!peer_can_hold_task_handle(Some("2026-07-28"), silent));
    assert!(!peer_can_hold_task_handle(None, asked));
    assert!(!peer_can_hold_task_handle(Some("2026-07-28"), None));
}

// ---------------------------------------------------------------------------
// Results and outcomes
// ---------------------------------------------------------------------------

/// The document of a result is the one that the protocol's own type writes.
#[test]
fn a_result_is_written_as_the_protocol_writes_it() {
    let ours = CallToolResult::success(vec![ContentBlock::text("ok".to_owned())]);
    let theirs = rmcp::model::CallToolResult::success(vec![rmcp::model::ContentBlock::text("ok")]);
    let theirs = serde_json::to_string(&theirs).expect("serialize");
    assert_eq!(call_tool_result_to_value(&ours), json(&theirs));

    let ours = CallToolResult::structured(json(r#"{"a": [1, 2]}"#));
    let value: serde_json::Value = serde_json::from_str(r#"{"a": [1, 2]}"#).expect("JSON");
    let theirs = rmcp::model::CallToolResult::structured(value);
    let theirs = serde_json::to_string(&theirs).expect("serialize");
    assert_eq!(call_tool_result_to_value(&ours), json(&theirs));
}

#[test]
fn a_rendered_answer_carries_both_faces() {
    let CallToolResponse::Complete(result) =
        Rendered(json(r#"{"c_code": "int f(void);"}"#)).into_call_tool_result()
    else {
        panic!("not complete");
    };
    assert_eq!(result.content[0].as_text(), Some("int f(void);"));
    assert_eq!(
        result.structured_content,
        Some(json(r#"{"c_code": "int f(void);"}"#))
    );
    let outcome = ToolOutcome::from_result(result);
    assert_eq!(outcome.text, "int f(void);");
    assert!(!outcome.is_error);
    assert!(outcome.json_text().contains("\"c_code\""));
}

#[test]
fn an_answer_the_command_line_cannot_hold_is_refused() {
    let error = ToolOutcome::from_response(CallToolResponse::InputRequired(json("{}")))
        .err()
        .expect("it is refused");
    assert!(!error.message.is_empty());
    assert!(ToolOutcome::from_response(CallToolResponse::Unknown("X".to_owned())).is_err());
    let complete = CallToolResult::success(vec![
        ContentBlock::text("a".to_owned()),
        ContentBlock::text("b".to_owned()),
    ]);
    let outcome = ToolOutcome::from_response(CallToolResponse::Complete(complete))
        .ok()
        .expect("an outcome");
    assert_eq!(outcome.text, "a\nb");
}

#[test]
fn a_task_id_is_read_out_of_a_result() {
    assert_eq!(id_in_document(&json(r#"{"task_id": "open-1"}"#)).as_deref(), Some("open-1"));
    assert_eq!(id_in_document(&json(r#"{"task_id": 1}"#)), None);
    let result = CallToolResult::success(vec![ContentBlock::text("not JSON".to_owned())]);
    assert_eq!(task_id_from_call_tool_result(&result), None);
}

#[test]
fn a_task_that_vanished_cannot_be_handed_out() {
    let mut host = Host(TaskRegistry::new());
    let result = CallToolResult::success(vec![ContentBlock::text(
        r#"{"task_id":"open-gone"}"#.to_owned(),
    )]);
    let error = host
        .materialize_task_response(true, CallToolResponse::Complete(result))
        .expect_err("there is no such task");
    assert_eq!(error.message, "Task open-gone disappeared");
}

/// Who asks is read from what came with this request.
#[test]
fn the_owner_is_asked_for_with_the_metadata_of_the_request() {
    struct Keyed(TaskRegistry);
    impl TaskHost for Keyed {
        fn task_registry(&mut self) -> &mut TaskRegistry {
            &mut self.0
        }
        fn task_owner(&self, meta: &Fields) -> TaskOwner {
            match meta.get("session").and_then(JsonValue::as_str) {
                Some(session) => TaskOwner::Session(session.to_owned()),
                None => TaskOwner::Runtime,
            }
        }
    }

    let mut registry = TaskRegistry::new();
    let mine = TaskOwner::Session("a".to_owned());
    let id = registry.create_keyed(&mine, "t", "keyed", "Working").expect("create task");
    let mut host = Keyed(registry);
    let mut meta = Fields::new();
    meta.insert("session".to_owned(), JsonValue::Text("a".to_owned()));
    assert!(host.serve_get_task(&id, &meta).is_ok());
    assert!(host.serve_update_task(&id, &meta).is_ok());
    assert!(host.serve_get_task(&id, &no_meta()).is_err());
    assert!(host.serve_update_task(&id, &no_meta()).is_err());
    assert!(host.serve_cancel_task(&id, &no_meta()).is_err());
    assert!(host.serve_cancel_task(&id, &meta).is_ok());
    let pending = host.0.get(&id).expect("still there");
    assert_eq!(pending.status, TaskStatus::Running);
    assert_eq!(pending.message, "Cancelled by client; waiting for the operation to settle");
    assert!(host.serve_cancel_task(&id, &meta).is_ok(), "asking twice is acknowledged");
}

#[test]
fn a_token_that_comes_late_is_signalled_at_once() {
    let mut registry = TaskRegistry::new();
    let id = registry
        .create_keyed(&OWNER, "t", "late-token", "Working")
        .expect("should succeed");
    assert!(registry.cancel_for_owner(&OWNER, &id));
    let token = CancellationToken::new();
    registry.set_cancel_token(&id, token.clone());
    assert!(token.is_cancelled());
}

#[test]
fn a_timestamp_is_the_date_and_the_time() {
    assert_eq!(timestamp(0), "1970-01-01T00:00:00Z");
    assert_eq!(timestamp(951_782_400), "2000-02-29T00:00:00Z");
    assert_eq!(timestamp(1_709_251_199), "2024-02-29T23:59:59Z");
    assert_eq!(epoch_days_to_ymd(0), (1970, 1, 1));
    assert_eq!(epoch_days_to_ymd(19_782), (2024, 2, 29));
}
