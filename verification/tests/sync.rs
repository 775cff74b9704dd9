use meilisearch_sql_connector::config::TableConfig;
use meilisearch_sql_connector::connector::process_document_obj;
use meilisearch_sql_connector::document::{Document, FieldValue};
use meilisearch_sql_connector::meilisearch::{chunk_documents, chunk_ids};
use meilisearch_sql_connector::sync::{
    index_documents_by_key, plan_table_sync, sync_task_step, BatchDispatcher, DispatchStep,
    SyncTaskAction, SyncTaskEvent, SyncTaskState,
};

fn table(name: &str, pk: &str) -> TableConfig {
    TableConfig {
        name: name.to_string(),
        primary_key: pk.to_string(),
        index_name: None,
        fields_to_index: Vec::new(),
        watch_for_changes: true,
        searchable_attributes: None,
        ranking_rules: None,
        typo_tolerance: None,
    }
}

fn doc(fields: Vec<(&str, FieldValue)>) -> Document {
    let mut d = Document::new();
    for (name, value) in fields {
        d.insert(name.to_string(), value);
    }
    d
}

fn id_doc(id: i64) -> Document {
    doc(vec![("id", FieldValue::Integer(id))])
}

#[test]
fn delete_extras() {
    // DB empty, index holds {id:1} and {id:2}: one cycle deletes both and
    // upserts nothing; the ids fit in a single delete batch.
    let t = table("test", "id");
    let meili = vec![id_doc(1), id_doc(2)];
    let db: Vec<Document> = Vec::new();
    let plan = plan_table_sync(&t, &meili, &db);
    assert_eq!(plan.ids_to_delete, vec!["1".to_string(), "2".to_string()]);
    assert!(plan.documents_to_add.is_empty());
    let batches = chunk_ids(&plan.ids_to_delete, 1000);
    assert_eq!(batches.len(), 1);
    assert_eq!(batches[0].len(), 2);
}

#[test]
fn insert_new() {
    // DB holds two rows, index empty, batch size one: one cycle upserts
    // both documents in two batches of one.
    let t = table("test", "id");
    let meili: Vec<Document> = Vec::new();
    let db = vec![
        doc(vec![("id", FieldValue::Integer(1)), ("name", FieldValue::Text("a".into()))]),
        doc(vec![("id", FieldValue::Integer(2)), ("name", FieldValue::Text("b".into()))]),
    ];
    let plan = plan_table_sync(&t, &meili, &db);
    assert!(plan.ids_to_delete.is_empty());
    assert_eq!(plan.documents_to_add.len(), 2);
    assert_eq!(
        plan.documents_to_add[0],
        doc(vec![("id", FieldValue::Integer(1)), ("name", FieldValue::Text("a".into()))])
    );
    assert_eq!(
        plan.documents_to_add[1],
        doc(vec![("id", FieldValue::Integer(2)), ("name", FieldValue::Text("b".into()))])
    );
    let batches = chunk_documents(&plan.documents_to_add, 1);
    assert_eq!(batches.len(), 2);
    assert_eq!(batches[0].len(), 1);
    assert_eq!(batches[1].len(), 1);
}

#[test]
fn mixed_diff() {
    // DB {1},{3}; index {2},{3}: delete [2], upsert [{id:1}], {id:3} not
    // touched.
    let t = table("test", "id");
    let meili = vec![id_doc(2), id_doc(3)];
    let db = vec![id_doc(1), id_doc(3)];
    let plan = plan_table_sync(&t, &meili, &db);
    assert_eq!(plan.ids_to_delete, vec!["2".to_string()]);
    assert_eq!(plan.documents_to_add, vec![id_doc(1)]);
}

#[test]
fn invalid_pk_skip() {
    // Rows with a null or zero key produce nothing; only {id:5} is
    // upserted, and the two rejects are counted.
    let t = table("test", "id");
    let meili: Vec<Document> = Vec::new();
    let db = vec![
        doc(vec![("id", FieldValue::Null), ("name", FieldValue::Text("x".into()))]),
        doc(vec![("id", FieldValue::Integer(0)), ("name", FieldValue::Text("y".into()))]),
        doc(vec![("id", FieldValue::Integer(5)), ("name", FieldValue::Text("z".into()))]),
    ];
    let plan = plan_table_sync(&t, &meili, &db);
    assert!(plan.ids_to_delete.is_empty());
    assert_eq!(plan.documents_to_add.len(), 1);
    assert_eq!(
        plan.documents_to_add[0],
        doc(vec![("id", FieldValue::Integer(5)), ("name", FieldValue::Text("z".into()))])
    );
    assert_eq!(plan.stats.valid_docs, 1);
    assert_eq!(plan.stats.invalid_pk_count, 2);
    assert_eq!(plan.stats.missing_pk_count, 0);
}

#[test]
fn missing_pk_counted_separately() {
    let t = table("test", "id");
    let db = vec![
        doc(vec![("name", FieldValue::Text("x".into()))]),
        id_doc(1),
    ];
    let plan = plan_table_sync(&t, &Vec::new(), &db);
    assert_eq!(plan.stats.valid_docs, 1);
    assert_eq!(plan.stats.invalid_pk_count, 0);
    assert_eq!(plan.stats.missing_pk_count, 1);
}

#[test]
fn duplicate_keys_last_seen_wins() {
    let t = table("test", "id");
    let db = vec![
        doc(vec![("id", FieldValue::Integer(1)), ("name", FieldValue::Text("old".into()))]),
        doc(vec![("id", FieldValue::Integer(1)), ("name", FieldValue::Text("new".into()))]),
    ];
    let plan = plan_table_sync(&t, &Vec::new(), &db);
    assert_eq!(plan.documents_to_add.len(), 1);
    assert_eq!(
        plan.documents_to_add[0],
        doc(vec![("id", FieldValue::Integer(1)), ("name", FieldValue::Text("new".into()))])
    );
}

#[test]
fn second_cycle_is_idempotent() {
    // After one cycle's plan is applied, a second cycle on the unchanged
    // database plans nothing.
    let t = table("test", "id");
    let meili = vec![id_doc(2), id_doc(3)];
    let db = vec![id_doc(1), id_doc(3)];
    let plan = plan_table_sync(&t, &meili, &db);
    // Apply the plan to the index state: remove deleted ids, add upserts.
    let mut meili2: Vec<Document> = Vec::new();
    for d in &meili {
        let id = match d.get("id") {
            Some(FieldValue::Integer(i)) => i.to_string(),
            _ => unreachable!(),
        };
        if !plan.ids_to_delete.contains(&id) {
            meili2.push(d.clone());
        }
    }
    for d in &plan.documents_to_add {
        meili2.push(d.clone());
    }
    let plan2 = plan_table_sync(&t, &meili2, &db);
    assert!(plan2.ids_to_delete.is_empty());
    assert!(plan2.documents_to_add.is_empty());
}

#[test]
fn normalizer_truncates_text_to_code_points() {
    // A 25-code-point body with a cap of 10 keeps exactly 10 code points,
    // counted in characters, not bytes.
    let t = table("test", "id");
    let body: String = "é".repeat(25);
    let d = doc(vec![("id", FieldValue::Integer(1)), ("body", FieldValue::Text(body))]);
    let out = process_document_obj(&t, &d, 10, 65_536).unwrap();
    match out.get("body") {
        Some(FieldValue::Text(s)) => assert_eq!(s.chars().count(), 10),
        other => panic!("unexpected body: {other:?}"),
    }
}

#[test]
fn normalizer_rejects_oversize_document() {
    // A row whose serialization stays over the ten-megabyte cap even after
    // text truncation is rejected as too large.
    let t = table("test", "id");
    let body = "A".repeat(20_000_001);
    let d = doc(vec![("id", FieldValue::Integer(1)), ("body", FieldValue::Text(body))]);
    let r = process_document_obj(&t, &d, 10_000_000, 65_536);
    match r {
        Err(e) => assert_eq!(e.message(), "Config error: Document too large"),
        Ok(_) => panic!("oversize document was accepted"),
    }
}

#[test]
fn normalizer_replaces_null_with_empty_string() {
    let t = table("test", "id");
    let d = doc(vec![("id", FieldValue::Integer(1)), ("note", FieldValue::Null)]);
    let out = process_document_obj(&t, &d, 100, 65_536).unwrap();
    assert_eq!(out.get("note"), Some(&FieldValue::Text(String::new())));
}

#[test]
fn normalizer_caps_field_count() {
    let t = table("test", "id");
    let mut d = Document::new();
    d.insert("id".to_string(), FieldValue::Integer(1));
    for i in 0..10 {
        d.insert(format!("f{i}"), FieldValue::Integer(i));
    }
    let out = process_document_obj(&t, &d, 100, 4).unwrap();
    // The key plus at most three other fields, in insertion order.
    assert_eq!(out.len(), 4);
    assert_eq!(out.fields[0].0, "id");
    assert_eq!(out.fields[1].0, "f0");
    assert_eq!(out.fields[2].0, "f1");
    assert_eq!(out.fields[3].0, "f2");
}

#[test]
fn normalizer_requires_the_key_field() {
    let t = table("test", "id");
    let d = doc(vec![("name", FieldValue::Text("x".into()))]);
    let r = process_document_obj(&t, &d, 100, 65_536);
    match r {
        Err(e) => assert_eq!(
            e.message(),
            "Config error: Document missing primary key: id"
        ),
        Ok(_) => panic!("keyless document was accepted"),
    }
}

#[test]
fn keyed_index_reports_counts() {
    let t = table("test", "id");
    let docs = vec![id_doc(1), id_doc(1), doc(vec![("x", FieldValue::Null)])];
    let (kd, stats) = index_documents_by_key(&docs, &t);
    assert_eq!(kd.entries.len(), 1);
    assert_eq!(stats.valid_docs, 2);
    assert_eq!(stats.missing_pk_count, 1);
    assert_eq!(stats.invalid_pk_count, 0);
}

#[test]
fn batches_cover_input_exactly() {
    // Five documents in batches of two: sizes 2, 2, 1; together exactly
    // the input, each document in exactly one batch.
    let docs: Vec<Document> = (1..=5).map(id_doc).collect();
    let batches = chunk_documents(&docs, 2);
    assert_eq!(batches.len(), 3);
    let sizes: Vec<usize> = batches.iter().map(|b| b.len()).collect();
    assert_eq!(sizes, vec![2, 2, 1]);
    let flattened: Vec<Document> = batches.into_iter().flatten().collect();
    assert_eq!(flattened, docs);
}

#[test]
fn no_batches_for_empty_input() {
    let docs: Vec<Document> = Vec::new();
    assert!(chunk_documents(&docs, 3).is_empty());
    let ids: Vec<String> = Vec::new();
    assert!(chunk_ids(&ids, 3).is_empty());
}

#[test]
fn dispatcher_keeps_window_bounded() {
    // Five batches through a window of two: the number outstanding never
    // exceeds two, every batch is launched once and completed once.
    let mut d = BatchDispatcher::new(5, 2);
    let mut launched: Vec<usize> = Vec::new();
    let mut completed: Vec<usize> = Vec::new();
    loop {
        assert!(d.in_flight.len() <= 2);
        match d.next_step() {
            DispatchStep::LaunchBatch(b) => {
                launched.push(b);
                d.note_launched();
            }
            DispatchStep::AwaitOldest => {
                completed.push(d.note_oldest_completed());
            }
            DispatchStep::Finished => break,
        }
    }
    assert_eq!(launched, vec![0, 1, 2, 3, 4]);
    assert_eq!(completed, vec![0, 1, 2, 3, 4]);
}

#[test]
fn dispatcher_serializes_with_window_of_one() {
    let mut d = BatchDispatcher::new(2, 1);
    assert_eq!(d.next_step(), DispatchStep::LaunchBatch(0));
    d.note_launched();
    assert_eq!(d.next_step(), DispatchStep::AwaitOldest);
    assert_eq!(d.note_oldest_completed(), 0);
    assert_eq!(d.next_step(), DispatchStep::LaunchBatch(1));
    d.note_launched();
    assert_eq!(d.next_step(), DispatchStep::AwaitOldest);
    assert_eq!(d.note_oldest_completed(), 1);
    assert_eq!(d.next_step(), DispatchStep::Finished);
}

#[test]
fn task_runs_initial_sync_then_waits() {
    let (s, a) = sync_task_step(SyncTaskState::Starting, SyncTaskEvent::TaskStarted);
    assert_eq!(s, SyncTaskState::InitialSync);
    assert_eq!(a, SyncTaskAction::BeginSync);
    let (s, a) = sync_task_step(s, SyncTaskEvent::SyncCompleted { shutdown_requested: false });
    assert_eq!(s, SyncTaskState::Idle);
    assert_eq!(a, SyncTaskAction::WaitForTick);
    let (s, a) = sync_task_step(s, SyncTaskEvent::IntervalElapsed);
    assert_eq!(s, SyncTaskState::Syncing);
    assert_eq!(a, SyncTaskAction::BeginSync);
}

#[test]
fn shutdown_mid_idle_stops_without_waiting() {
    // Two tables on a long interval: after the initial sync each task sits
    // idle; the shutdown signal moves each to Stopping at once, with a
    // completion signal and no further wait or sync.
    for _table in 0..2 {
        let (s, a) = sync_task_step(SyncTaskState::Starting, SyncTaskEvent::TaskStarted);
        assert_eq!((s, a), (SyncTaskState::InitialSync, SyncTaskAction::BeginSync));
        let (s, a) = sync_task_step(s, SyncTaskEvent::SyncCompleted { shutdown_requested: false });
        assert_eq!((s, a), (SyncTaskState::Idle, SyncTaskAction::WaitForTick));
        let (s, a) = sync_task_step(s, SyncTaskEvent::ShutdownObserved);
        assert_eq!((s, a), (SyncTaskState::Stopping, SyncTaskAction::SignalCompletion));
        let (s, a) = sync_task_step(s, SyncTaskEvent::ShutdownObserved);
        assert_eq!((s, a), (SyncTaskState::Stopped, SyncTaskAction::NoAction));
    }
}

#[test]
fn shutdown_during_sync_is_deferred() {
    let (s, a) = sync_task_step(SyncTaskState::Syncing, SyncTaskEvent::ShutdownObserved);
    assert_eq!(s, SyncTaskState::Syncing);
    assert_eq!(a, SyncTaskAction::NoAction);
    let (s, a) = sync_task_step(s, SyncTaskEvent::SyncCompleted { shutdown_requested: true });
    assert_eq!(s, SyncTaskState::Stopping);
    assert_eq!(a, SyncTaskAction::SignalCompletion);
}
