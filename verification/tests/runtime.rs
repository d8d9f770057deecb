use mdbase::batch::{transaction_input, BatchPreparation};
use mdbase::canonical_operation::{
    BatchResult, CanonicalOperationOutcome, CanonicalOperationValue, CanonicalQueryValue,
};
use mdbase::changes::{
    CanonicalChange, ChangeOrigin, ChangeSet, CollectionGeneration, RebuildReason, RecordChange,
    RecordChangeKind, ResourceChangeKind,
};
use mdbase::context::{
    charge, check_limit, no_time_left, CaptureLimitExceeded, CaptureLimitKind, CaptureLimits,
    CaptureUsage,
    OperationCancellation, OperationContext, OperationDeadline, OperationStopReason,
};
use mdbase::cursor::{
    constant_time_equal, cursor_mac, measured_json_bytes, CursorStore, ReadCursor,
    MAX_ACTIVE_CURSORS, MAX_CURSOR_BYTES,
};
use mdbase::diff::{
    canonical_changes, canonical_field_changes, child_pointer, ChangeFacts, CollectionSnapshot,
    CollectionSnapshotRecord, CollectionSnapshotResource, CollectionSnapshotResourceKind,
    OperationRequest, PathForm, RevisionFault,
};
use mdbase::external::{matches_known, normalize, ObservedFaults, WatchEvent};
use mdbase::feed::{ChangeFeedTransferIntent, FeedJournal, RuntimeChangeEvent};
use mdbase::filesystem::{
    expand_read, mutation_digest, refuse_partial_batch, rescan_scope, transaction_error,
    CancelOutcome, CommitAttempt, CommitStep, DurableCommitState, ExecuteAction, ExecuteEvent,
    FilesystemRuntime, PreparationOutcome, PreparedMutation, RuntimeCommitAttempt,
    RuntimePreparation, RuntimePrepareOutcome, TransactionError,
};
use mdbase::gate::{GateState, RuntimeGate};
use mdbase::json::{Json, JsonNumber, Member};
use mdbase::operation_values::OperationKind;
use mdbase::provider_error::ProviderError;
use mdbase::resolutions::{
    ChangeEventIdentity, CommittedMutation, ExecutionOutcome, RuntimeResolution,
};
use std::time::{Duration, Instant};

fn convert(value: &serde_json::Value) -> Json {
    match value {
        serde_json::Value::Null => Json::Null,
        serde_json::Value::Bool(value) => Json::Bool(*value),
        serde_json::Value::Number(number) => {
            if let Some(value) = number.as_u64() {
                Json::Number(JsonNumber::Unsigned(value))
            } else if let Some(value) = number.as_i64() {
                Json::Number(JsonNumber::Negative(value))
            } else {
                Json::Number(JsonNumber::Decimal(number.to_string()))
            }
        }
        serde_json::Value::String(text) => Json::Text(text.clone()),
        serde_json::Value::Array(items) => Json::Array(items.iter().map(convert).collect()),
        serde_json::Value::Object(members) => Json::Object(
            members
                .iter()
                .map(|(key, value)| Member {
                    key: key.clone(),
                    value: convert(value),
                })
                .collect(),
        ),
    }
}

fn json(text: &str) -> Json {
    convert(&serde_json::from_str(text).unwrap())
}

// Contexts

#[test]
fn context_distinguishes_deadline_from_explicit_cancellation() {
    let cancellation = OperationCancellation::new();
    let expired = OperationContext::new(
        &cancellation,
        OperationDeadline::at(Instant::now() - Duration::from_millis(1)),
    );
    assert!(matches!(
        expired.check(),
        Err(ProviderError::OperationDeadline)
    ));

    let active = OperationContext::new(
        &cancellation,
        OperationDeadline::after(Duration::from_secs(1)),
    );
    assert!(active.check().is_ok());
    cancellation.cancel();
    assert!(matches!(
        active.check(),
        Err(ProviderError::OperationCancelled)
    ));
    assert!(cancellation.is_cancelled());
}

#[test]
fn capture_boundaries_are_inclusive_and_shared_by_clones() {
    let context = OperationContext::with_capture_limits(
        &OperationCancellation::new(),
        OperationDeadline::after(Duration::from_secs(1)),
        CaptureLimits::builder()
            .max_entries(1)
            .max_aggregate_bytes(3)
            .build(),
    );
    context.check_entries(1).unwrap();
    let clone = context.clone();
    clone.check_entries(1).unwrap();
    context.charge_read(3).unwrap();
    assert!(matches!(
        clone.charge_read(1),
        Err(ProviderError::CaptureLimitExceeded(_))
    ));
    assert_eq!(
        context.capture_limit_error(),
        Some(ProviderError::CaptureLimitExceeded(CaptureLimitExceeded {
            kind: CaptureLimitKind::AggregateBytes,
            limit: 3,
            attempted: 4,
        }))
    );
    assert_eq!(context.usage().aggregate, 3);
}

#[test]
fn every_budget_has_its_own_violation() {
    let context = OperationContext::with_capture_limits(
        &OperationCancellation::new(),
        OperationDeadline::after(Duration::from_secs(1)),
        CaptureLimits::builder()
            .max_entries(1)
            .max_file_bytes(2)
            .max_depth(3)
            .max_resource_entries(4)
            .max_retained_bytes(5)
            .build(),
    );
    let violation = |result: Result<(), ProviderError>| match result {
        Err(ProviderError::CaptureLimitExceeded(error)) => error,
        _ => panic!("expected a violation"),
    };
    assert_eq!(violation(context.check_entries(2)).kind, CaptureLimitKind::Entries);
    assert_eq!(violation(context.check_file_bytes(3)).kind, CaptureLimitKind::FileBytes);
    assert_eq!(violation(context.check_depth(4)).kind, CaptureLimitKind::Depth);
    assert_eq!(
        violation(context.check_resource_entries(5)).kind,
        CaptureLimitKind::ResourceEntries
    );
    let retained = violation(context.charge_retained(6));
    assert_eq!(
        retained.to_text(),
        "capture limit exceeded (retained_bytes): attempted 6, limit 5"
    );
    assert!(context.check_depth(3).is_ok());
    assert_eq!(CaptureLimits::default().max_depth, 128);
}

#[test]
fn refused_charges_leave_the_counter() {
    let mut counter: u64 = u64::MAX - 1;
    assert_eq!(
        charge(&mut counter, 2, u64::MAX, CaptureLimitKind::AggregateBytes),
        Err(CaptureLimitExceeded {
            kind: CaptureLimitKind::ArithmeticOverflow,
            limit: u64::MAX,
            attempted: u64::MAX,
        })
    );
    assert_eq!(counter, u64::MAX - 1);
    assert_eq!(charge(&mut counter, 1, u64::MAX, CaptureLimitKind::AggregateBytes), Ok(()));
    assert_eq!(counter, u64::MAX);
    assert!(check_limit(3, 3, CaptureLimitKind::Depth).is_ok());
}

#[test]
fn empty_charges_and_recorded_violations() {
    let context = OperationContext::with_capture_limits(
        &OperationCancellation::new(),
        OperationDeadline::after(Duration::from_secs(1)),
        CaptureLimits::builder()
            .max_aggregate_bytes(0)
            .max_retained_bytes(0)
            .build(),
    );
    assert!(context.charge_read(0).is_ok());
    assert!(context.charge_retained(0).is_ok());
    assert!(context.capture_limit_error().is_none());
    assert!(context.charge_read(1).is_err());
    assert!(context.charge_read(0).is_ok());
    assert!(context.capture_limit_error().is_some());

    let violation = CaptureLimitExceeded {
        kind: CaptureLimitKind::Depth,
        limit: 1,
        attempted: 2,
    };
    let mut usage = CaptureUsage {
        aggregate: 0,
        retained: 0,
        exceeded: None,
    };
    assert!(usage.limit_error().is_none());
    usage.exceeded = Some(violation);
    assert_eq!(
        usage.limit_error(),
        Some(ProviderError::CaptureLimitExceeded(violation))
    );
    assert!(no_time_left(0));
    assert!(!no_time_left(1));
}

#[test]
fn full_stores_refuse_reads_but_return_whole_results() {
    let context = OperationContext::internal();
    let mut store = CursorStore::new("epoch");
    for _ in 0..MAX_ACTIVE_CURSORS {
        assert!(store.open(query_outcome(3), Some(1), &context).is_ok());
    }
    assert_eq!(store.measurements().0, MAX_ACTIVE_CURSORS);
    assert!(matches!(
        store.open(query_outcome(3), Some(1), &context),
        Err(ProviderError::CursorCapacityExhausted)
    ));
    let whole = store.open(query_outcome(3), None, &context).unwrap();
    assert_eq!(records(&whole.outcome).len(), 3);
    assert!(whole.next.is_none());
}

#[test]
fn waits_are_short_and_end_with_the_deadline() {
    let context = OperationContext::new(
        &OperationCancellation::new(),
        OperationDeadline::after(Duration::from_secs(5)),
    );
    assert!(context.next_wait().unwrap() <= 10_000_000);
    assert!(context.deadline().remaining() > Duration::from_secs(4));
    assert!(!context.deadline().is_elapsed());
    let internal = OperationContext::internal();
    assert!(internal.deadline().remaining() > Duration::from_secs(23 * 60 * 60));
}

#[test]
fn contexts_hold_the_token_that_they_were_given() {
    let token = OperationCancellation::new();
    let context = OperationContext::new(
        &token,
        OperationDeadline::after(Duration::from_secs(60)),
    );
    let copy = context.clone();
    assert!(context.check().is_ok());
    assert_eq!(context.usage().aggregate, 0);
    assert_eq!(context.usage().retained, 0);
    assert!(context.charge_read(5).is_ok());
    assert_eq!(copy.usage().aggregate, 5);
    token.clone().cancel();
    assert_eq!(context.check(), Err(ProviderError::OperationCancelled));
    assert_eq!(copy.check(), Err(ProviderError::OperationCancelled));
    assert!(copy.cancellation().is_cancelled());

    let late = OperationContext::new(
        &OperationCancellation::new(),
        OperationDeadline::at(Instant::now()),
    );
    assert_eq!(late.check(), Err(ProviderError::OperationDeadline));
    assert_eq!(
        late.cancellation().stop_reason(),
        Some(OperationStopReason::Deadline)
    );
    assert!(late.deadline().is_elapsed());
    assert_eq!(late.deadline().remaining(), Duration::ZERO);
    assert!(OperationContext::internal().check().is_ok());
}

// Gates

fn context(cancellation: &OperationCancellation, duration: Duration) -> OperationContext {
    OperationContext::new(cancellation, OperationDeadline::after(duration))
}

#[test]
fn waiting_reader_honors_deadline() {
    let gate = RuntimeGate::new();
    let held_cancellation = OperationCancellation::new();
    let held_context = context(&held_cancellation, Duration::from_secs(1));
    let _held = gate.write(&held_context).unwrap();

    let cancellation = OperationCancellation::new();
    let waiting_context = context(&cancellation, Duration::from_millis(20));
    let started = Instant::now();
    assert!(matches!(
        gate.read(&waiting_context),
        Err(ProviderError::OperationDeadline)
    ));
    assert!(started.elapsed() < Duration::from_millis(250));
    assert_eq!(
        waiting_context.cancellation().stop_reason(),
        Some(OperationStopReason::Deadline)
    );
}

#[test]
fn cancelled_writers_do_not_enter_and_leave_no_trace() {
    let gate = RuntimeGate::new();
    let free = OperationCancellation::new();
    let held = gate.read(&context(&free, Duration::from_secs(1))).unwrap();
    let cancellation = OperationCancellation::new();
    let waiting = context(&cancellation, Duration::from_secs(1));
    cancellation.cancel();
    assert!(matches!(
        gate.write(&waiting),
        Err(ProviderError::OperationCancelled)
    ));
    let second = gate.read(&context(&free, Duration::from_secs(1))).unwrap();
    second.release();
    held.release();
    let writer = gate.write(&context(&free, Duration::from_secs(1))).unwrap();
    writer.release();
    gate.read(&context(&free, Duration::from_secs(1)))
        .unwrap()
        .release();
}

#[test]
fn announced_writers_keep_new_readers_out() {
    let mut state = GateState {
        active_readers: 1,
        writer_active: false,
        waiting_writers: 0,
    };
    assert!(state.announce_writer().is_ok());
    assert_eq!(state.enter_reader(), Ok(false));
    assert!(!state.enter_writer());
    state.leave_reader();
    assert!(state.enter_writer());
    assert_eq!(state.enter_reader(), Ok(false));
    state.leave_writer();
    assert_eq!(state.enter_reader(), Ok(true));
    state.active_readers = u64::MAX;
    assert_eq!(state.enter_reader(), Err(ProviderError::LockPoisoned));
}

// Snapshots

fn snapshot(records: Vec<CollectionSnapshotRecord>) -> CollectionSnapshot {
    CollectionSnapshot {
        revision: "snapshot".to_string(),
        resource_revision: "resources".to_string(),
        spec_version: "0.3.0".to_string(),
        resources: Vec::new(),
        records,
    }
}

fn record(path: &str, revision: &str, frontmatter: &str, body: &str) -> CollectionSnapshotRecord {
    CollectionSnapshotRecord {
        path: path.to_string(),
        revision: revision.to_string(),
        frontmatter: json(frontmatter),
        body: body.to_string(),
        types: vec!["task".to_string()],
        document: String::new(),
        frontmatter_error: None,
    }
}

fn plain_facts() -> ChangeFacts {
    ChangeFacts {
        paths: Vec::new(),
        revisions: Vec::new(),
    }
}

#[test]
fn exact_record_diff_carries_fields_types_body_and_revisions() {
    let before = snapshot(vec![record(
        "task.md",
        "sha256:before",
        "{\"status\": \"open\", \"nested\": {\"old\": true}}",
        "Before",
    )]);
    let after = snapshot(vec![record(
        "task.md",
        "sha256:after",
        "{\"status\": \"done\", \"nested\": {\"new\": true}}",
        "After",
    )]);
    let batch = canonical_changes(&before, &after, None, &plain_facts()).unwrap();
    let page = FilesystemRuntime::change_page(&batch, None, 10, &OperationContext::internal())
        .unwrap();
    let change = match &page.items[0] {
        CanonicalChange::Record(change) => change,
        CanonicalChange::Resource(_) => panic!("expected record change"),
    };
    assert_eq!(change.kind, RecordChangeKind::Updated);
    assert!(change.body_changed);
    assert_eq!(
        change.changed_fields,
        vec!["/nested/new", "/nested/old", "/status"]
    );
    assert_eq!(change.before_types, vec!["task"]);
    assert_eq!(change.before_revision.as_deref(), Some("sha256:before"));
    assert_eq!(change.after_revision.as_deref(), Some("sha256:after"));
}

#[test]
fn requested_rename_is_one_proven_change_plus_reference_updates() {
    let before = snapshot(vec![
        record("old.md", "sha256:old", "{\"title\": \"Old\"}", "Body"),
        record("link.md", "sha256:link1", "{\"link\": \"old.md\"}", ""),
    ]);
    let after = snapshot(vec![
        record("new.md", "sha256:new", "{\"title\": \"Old\"}", "Body"),
        record("link.md", "sha256:link2", "{\"link\": \"new.md\"}", ""),
    ]);
    let request = OperationRequest::new(
        OperationKind::Rename,
        json("{\"from\": \"old.md\", \"to\": \"new.md\", \"update_references\": true}"),
    );
    let batch = canonical_changes(&before, &after, Some(&request), &plain_facts()).unwrap();
    let page = FilesystemRuntime::change_page(&batch, None, 10, &OperationContext::internal())
        .unwrap();
    assert_eq!(page.items.len(), 2);
    assert!(page.items.iter().any(|change| matches!(
        change,
        CanonicalChange::Record(RecordChange {
            kind: RecordChangeKind::Renamed,
            from: Some(from),
            path,
            ..
        }) if from == "old.md" && path == "new.md"
    )));
}

#[test]
fn requested_renames_are_proven_by_normal_paths() {
    let before = snapshot(vec![record("a/old.md", "sha256:1", "{}", "")]);
    let after = snapshot(vec![record("a/new.md", "sha256:1", "{}", "")]);
    let request = OperationRequest::new(
        OperationKind::Rename,
        json("{\"from\": \"a\\\\old.md\", \"to\": \"a/new.md\"}"),
    );
    let mut known = plain_facts();
    known.paths.push(PathForm {
        written: "a\\old.md".to_string(),
        normal: Ok("a/old.md".to_string()),
    });
    let changes = canonical_changes(&before, &after, Some(&request), &known).unwrap();
    assert!(matches!(
        &changes[0],
        CanonicalChange::Record(RecordChange {
            kind: RecordChangeKind::Renamed,
            from: Some(from),
            path,
            ..
        }) if from == "a/old.md" && path == "a/new.md"
    ));
    assert_eq!(changes.len(), 1);
    // Without its normal form the path names no record.
    let changes = canonical_changes(&before, &after, Some(&request), &plain_facts()).unwrap();
    assert_eq!(changes.len(), 2);
}

#[test]
fn changes_have_valid_paths_and_revisions() {
    let before = snapshot(vec![record("a.md", "sha256:1", "{}", "")]);
    let after = snapshot(vec![record("a.md", "bad", "{}", "")]);
    let mut known = plain_facts();
    known.revisions.push(RevisionFault {
        revision: "bad".to_string(),
        message: "revision is not a digest".to_string(),
    });
    assert!(matches!(
        canonical_changes(&before, &after, None, &known),
        Err(ProviderError::InvalidChangeSet(message)) if message.contains("revision is not a digest")
    ));
    let mut known = plain_facts();
    known.paths.push(PathForm {
        written: "a.md".to_string(),
        normal: Err("path escapes".to_string()),
    });
    assert!(matches!(
        canonical_changes(&before, &after, None, &known),
        Err(ProviderError::InvalidChangeSet(message)) if message.contains("path escapes")
    ));
}

#[test]
fn unrequested_renames_are_a_deletion_and_a_creation() {
    let before = snapshot(vec![record("old.md", "sha256:1", "{\"a\": {\"b\": 1}}", "Body")]);
    let after = snapshot(vec![record("new.md", "sha256:1", "{\"a\": {\"b\": 1}}", "Body")]);
    let changes = canonical_changes(&before, &after, None, &plain_facts()).unwrap();
    let kinds: Vec<RecordChangeKind> = changes
        .iter()
        .map(|change| match change {
            CanonicalChange::Record(change) => change.kind,
            CanonicalChange::Resource(_) => panic!("expected record change"),
        })
        .collect();
    assert_eq!(kinds, vec![RecordChangeKind::Created, RecordChangeKind::Deleted]);
    assert!(canonical_changes(&before, &before, None, &plain_facts()).unwrap().is_empty());
}

#[test]
fn resources_differ_by_revision() {
    let resource = |path: &str, kind: CollectionSnapshotResourceKind, revision: &str| {
        CollectionSnapshotResource {
            path: path.to_string(),
            kind,
            revision: revision.to_string(),
        }
    };
    let mut before = snapshot(Vec::new());
    before.resources = vec![
        resource("mdbase.yaml", CollectionSnapshotResourceKind::Configuration, "1"),
        resource("_types/a.md", CollectionSnapshotResourceKind::Type, "1"),
    ];
    let mut after = snapshot(Vec::new());
    after.resources = vec![
        resource("mdbase.yaml", CollectionSnapshotResourceKind::Configuration, "1"),
        resource("mdbase.lock", CollectionSnapshotResourceKind::Lock, "1"),
    ];
    let changes = canonical_changes(&before, &after, None, &plain_facts()).unwrap();
    let found: Vec<(String, ResourceChangeKind, bool)> = changes
        .iter()
        .map(|change| match change {
            CanonicalChange::Resource(change) => {
                (change.path.clone(), change.kind, change.after_revision.is_some())
            }
            CanonicalChange::Record(_) => panic!("expected resource change"),
        })
        .collect();
    assert_eq!(
        found,
        vec![
            ("_types/a.md".to_string(), ResourceChangeKind::TypeDefinition, false),
            ("mdbase.lock".to_string(), ResourceChangeKind::File, true),
        ]
    );
}

#[test]
fn pointers_escape_their_separators() {
    assert_eq!(child_pointer("/a", "b~c/d"), "/a/b~0c~1d");
    assert_eq!(
        canonical_field_changes(
            &json("{\"a\": {\"x\": 1, \"y\": 2}, \"b\": 1}"),
            &json("{\"a\": {\"x\": 1, \"y\": 3}, \"c\": {\"d\": 1}}")
        ),
        vec!["/a/y", "/b", "/c"]
    );
}

// Observations

fn event(event_type: &str, payload: &str) -> WatchEvent {
    WatchEvent {
        event_type: event_type.to_string(),
        payload: json(payload),
    }
}

#[test]
fn observations_become_canonical_changes() {
    let created = event(
        "mdbase.record.created",
        "{\"path\": \"a.md\", \"raw_after\": {\"t\": 1}, \"revision\": \"sha256:1\", \"types\": [\"b\", \"a\", \"b\"]}",
    );
    let change = match normalize(&created, &ObservedFaults::none()).unwrap() {
        ChangeSet::Exact(mut changes) => changes.remove(0),
        _ => panic!("expected an exact change"),
    };
    match &change {
        CanonicalChange::Record(change) => {
            assert_eq!(change.kind, RecordChangeKind::Created);
            assert_eq!(change.after_types, vec!["a", "b"]);
            assert_eq!(change.changed_fields, vec!["/t"]);
            assert!(change.body_changed);
        }
        CanonicalChange::Resource(_) => panic!("expected a record change"),
    }
    assert!(matches_known(&created, &ObservedFaults::none(), &vec![change]));
    assert!(!matches_known(&created, &ObservedFaults::none(), &Vec::new()));

    let renamed = event(
        "mdbase.record.renamed",
        "{\"from\": \"a.md\", \"to\": \"b.md\", \"raw_before\": {}, \"raw_after\": {}}",
    );
    match normalize(&renamed, &ObservedFaults::none()).unwrap() {
        ChangeSet::Exact(changes) => match &changes[0] {
            CanonicalChange::Record(change) => {
                assert_eq!(change.from.as_deref(), Some("a.md"));
                assert!(!change.body_changed);
            }
            CanonicalChange::Resource(_) => panic!("expected a record change"),
        },
        _ => panic!("expected an exact change"),
    }

    let config = event("mdbase.config.changed", "{\"revision\": null}");
    match normalize(&config, &ObservedFaults::none()).unwrap() {
        ChangeSet::Exact(changes) => match &changes[0] {
            CanonicalChange::Resource(change) => {
                assert_eq!(change.path, "mdbase.yaml");
                assert_eq!(change.kind, ResourceChangeKind::Configuration);
            }
            CanonicalChange::Record(_) => panic!("expected a resource change"),
        },
        _ => panic!("expected an exact change"),
    }
    assert_eq!(
        normalize(&event("other", "{}"), &ObservedFaults::none()),
        Ok(ChangeSet::CollectionWide {
            reason: RebuildReason::ExternalChangeUncertain
        })
    );
}

#[test]
fn malformed_observations_say_what_is_wrong() {
    let message = |event: &WatchEvent, faults: &ObservedFaults| match normalize(event, faults) {
        Err(ProviderError::InvalidChangeSet(message)) => message,
        _ => panic!("expected an error"),
    };
    assert_eq!(
        message(&event("mdbase.record.created", "{}"), &ObservedFaults::none()),
        "filesystem observation is malformed: record event raw_after is missing"
    );
    assert_eq!(
        message(
            &event("mdbase.record.deleted", "{\"raw_before\": {}, \"path\": 1}"),
            &ObservedFaults::none()
        ),
        "filesystem observation is malformed: record event path is missing"
    );
    assert_eq!(
        message(&event("mdbase.type.changed", "{}"), &ObservedFaults::none()),
        "filesystem observation is malformed: resource event path is missing"
    );
    assert_eq!(
        message(
            &event("mdbase.config.changed", "{\"revision\": 5}"),
            &ObservedFaults::none()
        ),
        "filesystem observation is malformed: event revision is not a string"
    );
    let mut faults = ObservedFaults::none();
    faults.path = Some(Err("path escapes".to_string()));
    assert_eq!(
        message(&event("mdbase.view.changed", "{\"path\": \"../x\"}"), &faults),
        "filesystem observation is malformed: path escapes"
    );
}

// Feeds

fn generation(sequence: u64) -> CollectionGeneration {
    CollectionGeneration {
        runtime_epoch: "epoch".to_string(),
        sequence,
    }
}

fn operation() -> CanonicalOperationOutcome {
    CanonicalOperationOutcome {
        valid: true,
        value: CanonicalOperationValue::Create(None),
        diagnostics: Vec::new(),
    }
}

fn known(id: &str, watermark: u64) -> ExecutionOutcome {
    ExecutionOutcome {
        operation: operation(),
        generation: generation(watermark),
        changes: ChangeSet::Exact(Vec::new()),
        commit_id: Some(format!("commit-{id}")),
        change_event: Some(ChangeEventIdentity {
            id: id.to_string(),
            watermark,
        }),
    }
}

fn external(id: &str, watermark: u64, changes: ChangeSet) -> RuntimeChangeEvent {
    RuntimeChangeEvent {
        identity: ChangeEventIdentity {
            id: id.to_string(),
            watermark,
        },
        generation: generation(watermark),
        changes,
        origin: ChangeOrigin::Filesystem,
        commit_id: None,
    }
}

fn code(result: Result<(), ProviderError>) -> String {
    match result {
        Err(ProviderError::Transaction { code, .. }) => code,
        _ => panic!("expected a transaction error"),
    }
}

#[test]
fn feeds_read_in_order_and_acknowledge_through_a_watermark() {
    let mut journal = FeedJournal::new();
    let feed = journal.open("host").unwrap();
    for watermark in 1..=5 {
        journal.append_known(&known(&format!("event-{watermark}"), watermark)).unwrap();
    }
    let page = journal.read(&feed, None, 2).unwrap();
    assert_eq!(page.events.len(), 2);
    assert_eq!(page.events[0].identity.watermark, 1);
    assert_eq!(page.next, Some(2));
    assert_eq!(page.feed_head, 5);
    let page = journal.read(&feed, page.next, 10).unwrap();
    assert_eq!(page.events.len(), 3);
    assert_eq!(page.next, None);
    assert_eq!(
        journal.commits_through(&feed, 2).unwrap(),
        vec!["commit-event-1", "commit-event-2"]
    );
    assert_eq!(
        journal.ack(&feed, 2).unwrap(),
        vec!["commit-event-1", "commit-event-2"]
    );
    assert_eq!(journal.ack(&feed, 2).unwrap(), Vec::<String>::new());
    assert_eq!(journal.events.len(), 3);
    assert_eq!(
        journal.read(&feed, Some(1), 10),
        Err(ProviderError::ChangeFeedRetentionGap)
    );
    assert_eq!(journal.ack(&feed, 9), Err(ProviderError::InvalidChangeFeedAck));
    assert!(journal.read(&feed, Some(5), 10).unwrap().events.is_empty());
    assert!(journal.validate().is_ok());
}

#[test]
fn feeds_refuse_events_out_of_order_and_repeat_known_ones() {
    let mut journal = FeedJournal::new();
    journal.append_known(&known("one", 1)).unwrap();
    journal.append_known(&known("one", 1)).unwrap();
    assert_eq!(journal.events.len(), 1);
    assert_eq!(code(journal.append_known(&known("one", 2))), "change_feed_corrupt");
    assert_eq!(
        code(journal.append_known(&known("three", 3))),
        "change_feed_order_conflict"
    );
    let mut missing = known("two", 2);
    missing.change_event = None;
    assert_eq!(code(journal.append_known(&missing)), "change_event_missing");
    let mut missing = known("two", 2);
    missing.commit_id = None;
    assert_eq!(code(journal.append_known(&missing)), "commit_identity_missing");
    let mut missing = known("two", 2);
    missing.changes = ChangeSet::Nothing;
    assert_eq!(code(journal.append_known(&missing)), "known_change_set_missing");
    assert_eq!(
        code(journal.append_external(&external("x", 5, ChangeSet::Nothing))),
        "change_feed_order_conflict"
    );
    journal.append_external(&external("x", 2, ChangeSet::Nothing)).unwrap();
    assert_eq!(journal.head, 1);
    journal
        .append_external(&external("x", 2, ChangeSet::Exact(Vec::new())))
        .unwrap();
    assert_eq!(journal.head, 2);
    assert_eq!(journal.events[1].commit_id, None);
}

#[test]
fn feeds_are_fenced_and_transferred_once() {
    let mut journal = FeedJournal::new();
    let first = journal.open("host").unwrap();
    assert_eq!(journal.open("other"), Err(ProviderError::ChangeFeedOwned));
    let second = journal.open("host").unwrap();
    assert_eq!(second.fencing_epoch, first.fencing_epoch + 1);
    assert_eq!(
        journal.baseline_plan(&first),
        Err(ProviderError::ChangeFeedFenced)
    );
    let intent = ChangeFeedTransferIntent {
        id: "transfer".to_string(),
        current: "host".to_string(),
        next: "next".to_string(),
        expected_acked_through: 0,
    };
    let transfer = journal.transfer(&intent).unwrap();
    assert_eq!(transfer.feed.owner, "next");
    let again = journal.transfer(&intent).unwrap();
    assert_eq!(again, transfer);
    let other = ChangeFeedTransferIntent {
        id: "other".to_string(),
        current: "next".to_string(),
        next: "third".to_string(),
        expected_acked_through: 0,
    };
    assert_eq!(
        journal.transfer(&other),
        Err(ProviderError::ChangeFeedTransferMismatch)
    );
    assert_eq!(
        journal.ack_transfer("unknown"),
        Err(ProviderError::ChangeFeedTransferMismatch)
    );
    journal.ack_transfer("transfer").unwrap();
    journal.ack_transfer("transfer").unwrap();
    assert_eq!(
        journal.check_feed(&second),
        Err(ProviderError::ChangeFeedFenced)
    );
    assert!(journal.check_feed(&transfer.feed).is_ok());
}

#[test]
fn baselines_stand_where_they_were_established() {
    let mut journal = FeedJournal::new();
    let feed = journal.open("host").unwrap();
    journal.append_known(&known("one", 1)).unwrap();
    let plan = journal.baseline_plan(&feed).unwrap();
    assert!(plan.needs_commit);
    assert_eq!(plan.commits, vec!["commit-one"]);
    let baseline = journal.commit_baseline(&feed).unwrap();
    assert_eq!(baseline.acknowledged_through, 1);
    assert!(journal.events.is_empty());
    journal.append_known(&known("two", 2)).unwrap();
    let plan = journal.baseline_plan(&feed).unwrap();
    assert!(!plan.needs_commit);
    assert_eq!(journal.commit_baseline(&feed).unwrap().acknowledged_through, 1);
    assert_eq!(journal.events.len(), 1);
}

fn committed(id: &str, watermark: u64, epoch: &str) -> RuntimeResolution {
    RuntimeResolution::Committed(CommittedMutation {
        commit_id: format!("commit-{id}"),
        operation: operation(),
        generation: CollectionGeneration {
            runtime_epoch: epoch.to_string(),
            sequence: watermark,
        },
        watermark,
        event_id: id.to_string(),
        changes: Vec::new(),
    })
}

#[test]
fn reconciliation_adds_missing_events_in_order() {
    let mut journal = FeedJournal::new();
    journal.append_known(&known("one", 1)).unwrap();
    let resolutions = vec![
        committed("three", 3, "other"),
        RuntimeResolution::Prepared {
            commit_id: "p".to_string(),
        },
        committed("two", 2, "epoch"),
        committed("one", 1, "epoch"),
    ];
    let feed = journal.reconcile(&generation(0), &resolutions, true).unwrap();
    assert!(feed.changed);
    assert_eq!(feed.watermark, 3);
    assert_eq!(feed.generation, generation(2));
    let ids: Vec<&str> = journal
        .events
        .iter()
        .map(|event| event.identity.id.as_str())
        .collect();
    assert_eq!(ids, vec!["one", "two", "three"]);
    let feed = journal.reconcile(&generation(2), &resolutions, true).unwrap();
    assert!(!feed.changed);

    let gap = vec![committed("nine", 9, "epoch")];
    match journal.reconcile(&generation(2), &gap, true) {
        Err(ProviderError::Transaction { code, message }) => {
            assert_eq!(code, "change_feed_corrupt");
            assert_eq!(message, "event watermarks are not strictly ordered");
        }
        _ => panic!("expected an error"),
    }
    assert_eq!(journal.events.len(), 3);
    let twice = vec![committed("other", 2, "epoch")];
    match journal.reconcile(&generation(2), &twice, true) {
        Err(ProviderError::Transaction { message, .. }) => {
            assert_eq!(message, "two durable events claim one change watermark")
        }
        _ => panic!("expected an error"),
    }
}

#[test]
fn full_feeds_take_no_known_mutations() {
    let mut journal = FeedJournal::new();
    assert!(journal.ensure_capacity(None).is_ok());
    assert_eq!(
        journal.ensure_capacity(Some(64 * 1024 * 1024)),
        Err(ProviderError::ChangeFeedCapacityExhausted)
    );
    for watermark in 1..100_000 {
        journal.events.push(external("e", watermark, ChangeSet::Exact(Vec::new())));
    }
    journal.head = 99_999;
    assert_eq!(
        journal.ensure_capacity(None),
        Err(ProviderError::ChangeFeedCapacityExhausted)
    );
    assert_eq!(
        journal.append_known(&known("k", 100_000)),
        Err(ProviderError::ChangeFeedCapacityExhausted)
    );
    journal
        .append_external(&external("last", 100_000, ChangeSet::Exact(Vec::new())))
        .unwrap();
    assert_eq!(
        journal.events[99_999].changes,
        ChangeSet::CollectionWide {
            reason: RebuildReason::ExternalChangeUncertain
        }
    );
    assert_eq!(
        journal.append_external(&external("more", 100_001, ChangeSet::Exact(Vec::new()))),
        Err(ProviderError::ChangeFeedCapacityExhausted)
    );
}

#[test]
fn corrupt_journals_are_recognized() {
    let mut journal = FeedJournal::new();
    journal.version = 2;
    assert_eq!(code(journal.validate()), "change_feed_corrupt");
    let mut journal = FeedJournal::new();
    journal.head = 1;
    match journal.validate() {
        Err(ProviderError::Transaction { message, .. }) => {
            assert_eq!(message, "feed head is not retained in the event sequence")
        }
        _ => panic!("expected an error"),
    }
}

// Cursors

fn query_outcome(count: u64) -> ExecutionOutcome {
    ExecutionOutcome::new(
        CanonicalOperationOutcome {
            valid: true,
            value: CanonicalOperationValue::Query(Some(CanonicalQueryValue {
                records: (1..=count)
                    .map(|id| json(&format!("{{\"id\": {id}}}")))
                    .collect(),
                total_count: Some(count),
                has_more: false,
                meta: json("{}"),
                embedded_diagnostics: Vec::new(),
            })),
            diagnostics: Vec::new(),
        },
        generation(0),
        ChangeSet::Nothing,
        None,
        None,
    )
}

fn records(outcome: &ExecutionOutcome) -> &Vec<Json> {
    match &outcome.operation.value {
        CanonicalOperationValue::Query(Some(query)) => &query.records,
        _ => panic!("expected a query"),
    }
}

#[test]
fn failed_store_capacity_does_not_consume_operation_meter() {
    let outcome = query_outcome(2);
    let retained = measured_json_bytes(records(&outcome), u64::MAX).unwrap();
    let context = OperationContext::with_capture_limits(
        &OperationCancellation::new(),
        OperationDeadline::after(Duration::from_secs(1)),
        CaptureLimits::builder()
            .max_retained_bytes(retained)
            .build(),
    );
    let mut store = CursorStore::new("epoch");
    store.retained_bytes = MAX_CURSOR_BYTES;

    assert!(matches!(
        store.open(outcome, Some(1), &context),
        Err(ProviderError::CursorCapacityExhausted)
    ));
    context.charge_retained(retained).unwrap();
}

#[test]
fn cursors_page_through_every_record_and_replay() {
    let context = OperationContext::internal();
    let mut store = CursorStore::new("epoch");
    let first = store.open(query_outcome(5), Some(2), &context).unwrap();
    assert_eq!(records(&first.outcome).len(), 2);
    match &first.outcome.operation.value {
        CanonicalOperationValue::Query(Some(query)) => {
            assert!(query.has_more);
            assert_eq!(query.meta.get_bool("has_more"), Some(true));
        }
        _ => panic!("expected a query"),
    }
    let cursor = first.next.unwrap();
    let second = store.page(&cursor, &context).unwrap();
    assert_eq!(
        records(&second.outcome),
        &vec![json("{\"id\": 3}"), json("{\"id\": 4}")]
    );
    let replay = store.page(&cursor, &context).unwrap();
    assert_eq!(records(&replay.outcome), records(&second.outcome));
    let last = store.page(&second.next.unwrap(), &context).unwrap();
    assert_eq!(records(&last.outcome), &vec![json("{\"id\": 5}")]);
    assert!(last.next.is_none());
    assert_eq!(store.measurements().0, 1);
    assert_eq!(store.release(&cursor), Ok(true));
    assert_eq!(store.release(&cursor), Ok(false));
    assert_eq!(store.measurements(), (0, 0));
    assert!(matches!(
        store.page(&cursor, &context),
        Err(ProviderError::GenerationExpired)
    ));
}

#[test]
fn forged_and_foreign_cursors_are_refused() {
    let context = OperationContext::internal();
    let mut store = CursorStore::new("epoch");
    let page = store.open(query_outcome(3), Some(1), &context).unwrap();
    let token = page.next.unwrap().token;
    let mut parts: Vec<String> = token.split(':').map(|part| part.to_string()).collect();
    parts[3] = "2".to_string();
    let forged = ReadCursor {
        token: parts.join(":"),
    };
    assert_eq!(
        store.authenticate(&forged),
        Err(ProviderError::InvalidReadCursor)
    );
    let garbage = ReadCursor {
        token: "v1:x".to_string(),
    };
    assert_eq!(
        store.authenticate(&garbage),
        Err(ProviderError::InvalidReadCursor)
    );
    let other = CursorStore::new("another");
    let cursor = ReadCursor { token };
    assert_eq!(
        other.authenticate(&cursor),
        Err(ProviderError::GenerationExpired)
    );
    let same_epoch = CursorStore::new("epoch");
    assert_eq!(
        same_epoch.authenticate(&cursor),
        Err(ProviderError::InvalidReadCursor)
    );
    assert!(store.authenticate(&cursor).is_ok());
}

#[test]
fn short_results_are_returned_whole() {
    let context = OperationContext::internal();
    let mut store = CursorStore::new("epoch");
    let page = store.open(query_outcome(3), None, &context).unwrap();
    assert_eq!(records(&page.outcome).len(), 3);
    assert!(page.next.is_none());
    assert_eq!(store.measurements().0, 0);
    assert_eq!(context.usage().retained, "[{\"id\":1},{\"id\":2},{\"id\":3}]".len() as u64);
}

#[test]
fn leases_end_with_idleness_and_age() {
    let context = OperationContext::internal();
    let mut store = CursorStore::new("epoch");
    let page = store.open(query_outcome(3), Some(1), &context).unwrap();
    assert!(page.next.is_some());
    store.entries[0].read.created = 0;
    store.entries[0].read.last_access = 299_000_000_000;
    store.remove_expired_at(299_999_999_999);
    assert_eq!(store.entries.len(), 1);
    store.remove_expired_at(300_000_000_000);
    assert_eq!(store.entries.len(), 0);
    assert_eq!(store.retained_bytes, 0);
}

#[test]
fn signatures_are_keyed_digests() {
    let key: Vec<u8> = vec![0x0b; 32];
    assert_eq!(cursor_mac(&key, b"Hi There").len(), 64);
    assert_eq!(cursor_mac(&key, b"Hi There"), cursor_mac(&key, b"Hi There"));
    assert_ne!(cursor_mac(&key, b"Hi There"), cursor_mac(&key, b"Hi there"));
    assert!(constant_time_equal(b"abc", b"abc"));
    assert!(!constant_time_equal(b"abc", b"abd"));
    assert!(!constant_time_equal(b"abc", b"ab"));
}

#[test]
fn too_large_reads_exceed_the_retained_budget() {
    let outcome = query_outcome(2);
    assert_eq!(
        measured_json_bytes(records(&outcome), 5),
        Err(ProviderError::CaptureLimitExceeded(CaptureLimitExceeded {
            kind: CaptureLimitKind::RetainedBytes,
            limit: 5,
            attempted: 19,
        }))
    );
    assert_eq!(measured_json_bytes(&Vec::new(), 0), Ok(0));
}

// Runtimes

fn runtime() -> FilesystemRuntime {
    FilesystemRuntime::open(FeedJournal::new(), generation(0), &Vec::new(), false).unwrap()
}

fn request(operation: OperationKind, input: &str) -> OperationRequest {
    OperationRequest::new(operation, json(input))
}

#[test]
fn reads_are_bound_to_the_generation() {
    let mut runtime = runtime();
    let outcome = runtime
        .read(&request(OperationKind::Query, "{}"), query_outcome(1).operation)
        .unwrap();
    assert_eq!(outcome.generation, generation(0));
    assert_eq!(
        runtime.read(&request(OperationKind::Create, "{}"), operation()),
        Err(ProviderError::UnsupportedOperation(
            "read requires a non-mutation operation".to_string()
        ))
    );
    let context = OperationContext::internal();
    let page = runtime
        .open_read(
            &request(OperationKind::Query, "{\"limit\": 1}"),
            query_outcome(2).operation,
            &context,
        )
        .unwrap();
    let cursor = page.next.unwrap();
    assert!(runtime.read_page(&cursor, &context).unwrap().next.is_none());
    assert_eq!(runtime.release_read(&cursor, &context), Ok(()));
    let (expanded, items) =
        expand_read(&request(OperationKind::Query, "{\"limit\": 7, \"where\": \"x\"}")).unwrap();
    assert_eq!(expanded.input, json("{\"where\": \"x\"}"));
    assert_eq!(items, Some(7));
}

#[test]
fn commits_take_the_next_position_and_join_the_feed() {
    let mut runtime = runtime();
    let (next, watermark) = runtime.next_commit(&Vec::new(), true).unwrap();
    assert_eq!(next, generation(1));
    assert_eq!(watermark, 1);
    match runtime.finish_resolution(&committed("one", 1, "epoch")) {
        Ok(CommitAttempt::Committed(outcome)) => {
            assert_eq!(outcome.commit_id.as_deref(), Some("commit-one"))
        }
        _ => panic!("expected a commit"),
    }
    assert_eq!(runtime.order.watermark, 1);
    assert_eq!(runtime.journal.head, 1);
    match runtime.finish_resolution(&committed("nine", 9, "epoch")) {
        Err(ProviderError::Transaction { code, .. }) => assert_eq!(code, "runtime_order_conflict"),
        _ => panic!("expected a conflict"),
    }
    match runtime.finish_resolution(&committed("other", 1, "epoch")) {
        Ok(CommitAttempt::SettlementPending { commit_id }) => {
            assert_eq!(commit_id, "commit-other")
        }
        _ => panic!("expected a pending settlement"),
    }
}

#[test]
fn preparations_and_attempts_are_decided_by_their_transactions() {
    let runtime = runtime();
    match runtime.prepare(
        "claim",
        RuntimePreparation::Staged(RuntimePrepareOutcome::Prepared("c".to_string())),
    ) {
        Ok(PreparationOutcome::Prepared(mutation)) => {
            assert_eq!(mutation.commit_id, "c");
            assert_eq!(mutation.claim, "claim");
        }
        _ => panic!("expected a prepared mutation"),
    }
    match runtime.prepare("claim", RuntimePreparation::Staged(RuntimePrepareOutcome::Existing)) {
        Err(ProviderError::Transaction { code, .. }) => {
            assert_eq!(code, "claim_already_finalized")
        }
        _ => panic!("expected an error"),
    }
    assert_eq!(
        FilesystemRuntime::commit(RuntimeCommitAttempt::SettlementRequired("c".to_string())),
        Ok(CommitStep::Settle("c".to_string()))
    );
    match FilesystemRuntime::commit(RuntimeCommitAttempt::AlreadyCancelled) {
        Err(ProviderError::Transaction { code, .. }) => {
            assert_eq!(code, "commit_cancelled_before_start")
        }
        _ => panic!("expected an error"),
    }
    let write = request(OperationKind::Create, "{}");
    assert_eq!(
        FilesystemRuntime::execute_with_context(&write, ExecuteEvent::Started),
        ExecuteAction::Prepare
    );
    assert_eq!(
        FilesystemRuntime::execute_with_context(
            &request(OperationKind::Query, "{}"),
            ExecuteEvent::Started
        ),
        ExecuteAction::Read
    );
    let mutation = || PreparedMutation {
        commit_id: "c".to_string(),
        claim: "claim".to_string(),
    };
    assert_eq!(
        FilesystemRuntime::execute_with_context(
            &write,
            ExecuteEvent::Prepared(PreparationOutcome::Prepared(mutation()))
        ),
        ExecuteAction::Commit(mutation())
    );
    assert!(matches!(
        FilesystemRuntime::execute_with_context(
            &write,
            ExecuteEvent::Attempted(CommitAttempt::NeedsManualRecovery {
                commit_id: "c".to_string(),
            })
        ),
        ExecuteAction::Done(Err(ProviderError::Transaction { code, .. }))
            if code == "manual_recovery_required"
    ));
    match FilesystemRuntime::execute(CommitAttempt::SettlementPending {
        commit_id: "c".to_string(),
    }) {
        Err(ProviderError::Transaction { code, message }) => {
            assert_eq!(code, "outcome_unknown");
            assert_eq!(message, "mutation settlement is pending for commit c");
        }
        _ => panic!("expected an error"),
    }
    let pending = RuntimeResolution::Committing {
        commit_id: "c".to_string(),
    };
    assert_eq!(
        FilesystemRuntime::cancel(&pending),
        Ok(CancelOutcome::AlreadyCommitStarted)
    );
    assert_eq!(
        FilesystemRuntime::resolve_commit(Some(&pending)),
        Some(DurableCommitState::Committing)
    );
    assert_eq!(FilesystemRuntime::resolve_commit(None), None);
    let prepared = RuntimeResolution::Prepared {
        commit_id: "c".to_string(),
    };
    assert!(FilesystemRuntime::cancel(&prepared).is_err());
}

#[test]
fn observations_join_the_feed_at_the_next_position() {
    let mut runtime = runtime();
    let observed = event("mdbase.record.created", "{\"path\": \"a.md\"}");
    let ingested = runtime
        .ingest_external_timeout(
            &observed,
            &ObservedFaults::none(),
            &Vec::new(),
            true,
            "event".to_string(),
        )
        .unwrap();
    assert_eq!(ingested.identity.watermark, 1);
    assert_eq!(
        ingested.changes,
        ChangeSet::CollectionWide {
            reason: RebuildReason::ExternalChangeUncertain
        }
    );
    assert_eq!(runtime.order.watermark, 1);
    assert_eq!(runtime.order.generation, generation(1));

    runtime.synchronize(
        vec![event("other", "{}"), event("another", "{}")],
        &vec![ObservedFaults::none(), ObservedFaults::none()],
        &Vec::new(),
    );
    assert_eq!(runtime.pending_watch.len(), 2);
    assert_eq!(runtime.recv_timeout(None).unwrap().event_type, "other");
    assert_eq!(
        runtime
            .recv_timeout(Some(event("late", "{}")))
            .unwrap()
            .event_type,
        "another"
    );
    assert_eq!(runtime.recv_timeout(None).unwrap().event_type, "late");
    assert!(runtime.recv_timeout(None).is_none());
}

#[test]
fn settlements_run_one_at_a_time() {
    let mut runtime = runtime();
    assert!(runtime.start_settlement("a"));
    assert!(!runtime.start_settlement("b"));
    runtime.end_settlement("b");
    assert_eq!(runtime.settling.as_deref(), Some("a"));
    runtime.end_settlement("a");
    assert!(runtime.start_settlement("b"));
}

#[test]
fn runtime_feeds_follow_their_journal() {
    let mut runtime = runtime();
    let context = OperationContext::internal();
    let feed = runtime.open_change_feed("host", &context).unwrap();
    runtime.finish_resolution(&committed("one", 1, "epoch")).unwrap();
    assert_eq!(
        runtime.baseline_commits(&feed).unwrap(),
        Some(vec!["commit-one".to_string()])
    );
    assert_eq!(
        runtime.read_change_events(&feed, None, 5, &context).unwrap().events.len(),
        1
    );
    assert_eq!(runtime.commits_to_ack(&feed, 1).unwrap(), vec!["commit-one"]);
    runtime.ack_change_events(&feed, 1).unwrap();
    let baseline = runtime.establish_change_feed_baseline(&feed, &context).unwrap();
    assert_eq!(baseline.feed_head, 1);
    let transfer = runtime
        .transfer_change_feed(
            &ChangeFeedTransferIntent {
                id: "t".to_string(),
                current: "host".to_string(),
                next: "next".to_string(),
                expected_acked_through: 1,
            },
            &context,
        )
        .unwrap();
    assert_eq!(transfer.receipt.feed_head, 1);
    runtime.ack_change_feed_transfer("t", &context).unwrap();
    assert!(runtime
        .check_prepare(&request(OperationKind::Create, "{}"), None)
        .is_ok());
}

#[test]
fn known_changes_bound_the_rescan() {
    let before = snapshot(vec![record("old.md", "1", "{}", "")]);
    let after = snapshot(vec![record("new.md", "1", "{}", "")]);
    let rename = request(OperationKind::Rename, "{\"from\": \"old.md\", \"to\": \"new.md\"}");
    let changes = canonical_changes(&before, &after, Some(&rename), &plain_facts()).unwrap();
    let scope = rescan_scope(&changes);
    assert_eq!(scope.paths, vec!["new.md", "old.md"]);
    assert!(!scope.full);
}

#[test]
fn requests_have_stable_digests_and_partial_batches_are_refused() {
    let first = mutation_digest(&request(OperationKind::Create, "{\"b\": 1, \"a\": 2}")).unwrap();
    let second = mutation_digest(&request(OperationKind::Create, "{\"a\": 2, \"b\": 1}")).unwrap();
    assert_eq!(first, second);
    assert!(first.starts_with("sha256:"));
    let refused =
        refuse_partial_batch(&request(OperationKind::Batch, "{\"allow_partial\": true}")).unwrap();
    assert!(!refused.valid);
    assert_eq!(refused.diagnostics[0].code, "invalid_request");
    assert!(refuse_partial_batch(&request(OperationKind::Batch, "{}")).is_none());
}

#[test]
fn transaction_errors_keep_their_meaning() {
    assert_eq!(
        transaction_error(TransactionError::ClaimMismatch),
        ProviderError::ClaimMismatch
    );
    assert_eq!(
        transaction_error(TransactionError::OperationBoundary {
            code: "operation_deadline".to_string(),
            message: "late".to_string(),
        }),
        ProviderError::OperationDeadline
    );
    assert_eq!(
        transaction_error(TransactionError::Failed {
            code: "io".to_string(),
            message: "disk".to_string(),
        }),
        ProviderError::Transaction {
            code: "io".to_string(),
            message: "disk".to_string(),
        }
    );
}

#[test]
fn batches_are_prepared_whole_or_answered() {
    let runtime = runtime();
    let whole = request(OperationKind::Batch, "{\"operations\": []}");
    let staged = || BatchPreparation::Staged(RuntimePrepareOutcome::Prepared("c".to_string()));
    match runtime.prepare_batch(&whole, "claim", staged()).unwrap() {
        PreparationOutcome::Prepared(mutation) => {
            assert_eq!(mutation.commit_id, "c");
            assert_eq!(mutation.claim, "claim");
        }
        PreparationOutcome::NoMutation(_) => panic!("expected a mutation"),
    }
    let partial = request(OperationKind::Batch, "{\"allow_partial\": true}");
    let answered = |preparation: PreparationOutcome| match preparation {
        PreparationOutcome::NoMutation(outcome) => outcome.operation,
        PreparationOutcome::Prepared(_) => panic!("expected an answer"),
    };
    let refused = answered(runtime.prepare_batch(&partial, "claim", staged()).unwrap());
    assert!(!refused.valid);
    assert_eq!(refused.diagnostics[0].code, "invalid_request");
    let undecodable = answered(
        runtime
            .prepare_batch(&whole, "claim", BatchPreparation::Undecodable(Vec::new()))
            .unwrap(),
    );
    assert!(!undecodable.valid);
    let empty = answered(
        runtime
            .prepare_batch(
                &whole,
                "claim",
                BatchPreparation::NoMutation {
                    result: BatchResult {
                        operations: Vec::new(),
                        succeeded: 0,
                        failed: 0,
                        preflight: false,
                        dry_run: true,
                    },
                    diagnostics: Vec::new(),
                },
            )
            .unwrap(),
    );
    assert!(empty.valid);
    assert!(matches!(
        runtime.prepare_batch(
            &whole,
            "claim",
            BatchPreparation::Staged(RuntimePrepareOutcome::Existing)
        ),
        Err(ProviderError::Transaction { code, .. }) if code == "claim_already_finalized"
    ));
}

#[test]
fn transactions_are_bound_to_their_request_and_changes() {
    let write = request(OperationKind::Update, "{\"path\": \"a.md\"}");
    let input = transaction_input(
        &write,
        &snapshot(vec![record("a.md", "sha256:1", "{\"n\": 1}", "")]),
        &snapshot(vec![record("a.md", "sha256:2", "{\"n\": 2}", "")]),
        &plain_facts(),
        operation(),
    )
    .unwrap();
    assert_eq!(input.mutation_digest, mutation_digest(&write).unwrap());
    assert_eq!(input.operation, operation());
    assert_eq!(input.changes.len(), 1);
}
