use sync_engine::engine::SyncEngine;
use sync_engine::error::SyncError;
use sync_engine::store::{ModelGroup, PayloadStore};
use sync_engine::transaction::{parse_action, Action, Transaction};
use sync_engine::tx_log::TransactionLog;

fn tx(entity_type: &str, id: &str, action: &str, payload: &str) -> Transaction {
    Transaction {
        entity_type: entity_type.to_string(),
        record_id: id.to_string(),
        action: action.to_string(),
        payload: payload.to_string(),
    }
}

fn group<'a>(models: &'a [ModelGroup], entity_type: &str) -> Option<&'a ModelGroup> {
    models.iter().find(|g| g.entity_type == entity_type)
}

fn snapshot(models: &[ModelGroup]) -> Vec<(String, Vec<(String, String)>)> {
    let mut out: Vec<(String, Vec<(String, String)>)> = models
        .iter()
        .map(|g| {
            let mut rs: Vec<(String, String)> =
                g.records.iter().map(|d| (d.record_id.clone(), d.payload.clone())).collect();
            rs.sort();
            (g.entity_type.clone(), rs)
        })
        .collect();
    out.sort();
    out
}

#[test]
fn test_post_transactions() {
    let mut e = SyncEngine::new();
    let t = tx("Todo", "0b7f0c1e-todo", "create", r#"{"title":"Test todo","completed":false}"#);
    let sync_id = e.ingest_now(vec![t]).unwrap();
    assert!(sync_id > 0);
}

#[test]
fn test_get_transactions() {
    let mut e = SyncEngine::new();
    let t = tx("Todo", "5c1d2e3f-todo", "create", r#"{"title":"Test todo","completed":false}"#);
    let id = t.record_id.clone();
    let sync_id = e.ingest_now(vec![t]).unwrap();
    let (_, transactions) = e.fetch_range(Some(0), Some(sync_id));
    assert_eq!(transactions.len(), 1);
    assert_eq!(transactions[0].record_id, id);
}

#[test]
fn test_bootstrap() {
    let mut e = SyncEngine::new();
    let batch = vec![
        tx("Todo", "id-1", "create", r#"{"title":"Todo 1","completed":false}"#),
        tx("Todo", "id-2", "create", r#"{"title":"Todo 2","completed":true}"#),
    ];
    e.ingest_now(batch).unwrap();
    let (sync_id, models) = e.bootstrap();
    assert!(sync_id > 0);
    assert!(group(&models, "Todo").is_some());
    assert_eq!(group(&models, "Todo").unwrap().records.len(), 2);
}

#[test]
fn test_transaction_crud_operations() {
    let mut e = SyncEngine::new();
    let todo_id = "9a8b7c6d-todo";
    e.ingest_now(vec![tx("Todo", todo_id, "create", r#"{"title":"Original todo","completed":false}"#)])
        .unwrap();
    e.ingest_now(vec![tx("Todo", todo_id, "update", r#"{"title":"Updated todo","completed":true}"#)])
        .unwrap();
    e.ingest_now(vec![tx("Todo", todo_id, "delete", "{}")]).unwrap();
    let (_, models) = e.bootstrap();
    assert!(group(&models, "Todo").map_or(true, |g| !g.records.iter().any(|d| d.record_id == todo_id)));
}

#[test]
fn empty_store_bootstrap() {
    let e = SyncEngine::new();
    let (horizon, models) = e.bootstrap();
    assert_eq!(horizon, 0);
    assert!(models.is_empty());
}

#[test]
fn first_ingest_returns_one_and_range_returns_it() {
    let mut e = SyncEngine::new();
    let r = e.ingest(vec![tx("Todo", "a", "create", r#"{"title":"t","completed":false}"#)], 100);
    assert_eq!(r, Ok(1));
    let (horizon, txs) = e.fetch_range(Some(0), Some(1));
    assert_eq!(horizon, 1);
    assert_eq!(txs.len(), 1);
    assert_eq!(txs[0].entity_type, "Todo");
    assert_eq!(txs[0].record_id, "a");
    assert_eq!(txs[0].action, "create");
    assert_eq!(txs[0].payload, r#"{"title":"t","completed":false}"#);
}

#[test]
fn update_replaces_payload() {
    let mut e = SyncEngine::new();
    e.ingest(vec![tx("Todo", "a", "create", r#"{"title":"t","completed":false}"#)], 100).unwrap();
    e.ingest(vec![tx("Todo", "a", "update", r#"{"title":"t2"}"#)], 200).unwrap();
    let (_, models) = e.bootstrap();
    let todos = group(&models, "Todo").unwrap();
    let matching: Vec<_> = todos.records.iter().filter(|d| d.record_id == "a").collect();
    assert_eq!(matching.len(), 1);
    assert_eq!(matching[0].payload, r#"{"title":"t2"}"#);
}

#[test]
fn delete_removes_record() {
    let mut e = SyncEngine::new();
    e.ingest(vec![tx("Todo", "a", "create", r#"{"title":"t"}"#)], 100).unwrap();
    e.ingest(vec![tx("Todo", "a", "delete", "{}")], 200).unwrap();
    let (horizon, models) = e.bootstrap();
    assert_eq!(horizon, 2);
    assert!(group(&models, "Todo").map_or(true, |g| g.records.is_empty()));
}

#[test]
fn invalid_action_is_rejected() {
    let mut e = SyncEngine::new();
    let r = e.ingest(vec![tx("Todo", "a", "bogus", r#"{"title":"t"}"#)], 100);
    assert_eq!(r, Err(SyncError::InvalidAction("bogus".to_string())));
    let (horizon, models) = e.bootstrap();
    assert_eq!(horizon, 0);
    assert!(models.is_empty());
}

#[test]
fn invalid_action_anywhere_leaves_state_unchanged() {
    let mut e = SyncEngine::new();
    e.ingest(vec![tx("Todo", "a", "create", "1")], 100).unwrap();
    let before = snapshot(&e.bootstrap().1);
    let r = e.ingest(
        vec![tx("Todo", "b", "create", "2"), tx("Todo", "a", "delete", ""), tx("Note", "c", "erase", "3")],
        200,
    );
    assert_eq!(r, Err(SyncError::InvalidAction("erase".to_string())));
    assert_eq!(e.max_position(), 1);
    assert_eq!(snapshot(&e.bootstrap().1), before);
}

#[test]
fn first_invalid_action_is_named() {
    let mut e = SyncEngine::new();
    let r = e.ingest(vec![tx("T", "a", "create", ""), tx("T", "b", "Create", ""), tx("T", "c", "x", "")], 1);
    assert_eq!(r, Err(SyncError::InvalidAction("Create".to_string())));
}

#[test]
fn positions_increase() {
    let mut e = SyncEngine::new();
    let p1 = e.ingest(vec![tx("T", "a", "create", "1")], 1).unwrap();
    let p2 = e.ingest(vec![tx("T", "b", "create", "2")], 2).unwrap();
    let _ = e.ingest(vec![tx("T", "c", "nope", "3")], 3);
    let p3 = e.ingest(vec![tx("T", "a", "delete", "")], 4).unwrap();
    assert_eq!((p1, p2, p3), (1, 2, 3));
    assert_eq!(e.max_position(), 3);
}

#[test]
fn full_range_concatenates_batches() {
    let mut e = SyncEngine::new();
    e.ingest(vec![tx("T", "a", "create", "1"), tx("T", "b", "create", "2")], 1).unwrap();
    e.ingest(vec![tx("U", "c", "update", "3")], 2).unwrap();
    e.ingest(vec![tx("T", "a", "delete", ""), tx("T", "d", "create", "4")], 3).unwrap();
    let (horizon, txs) = e.fetch_range(Some(1), Some(e.max_position()));
    assert_eq!(horizon, 3);
    let ids: Vec<&str> = txs.iter().map(|t| t.record_id.as_str()).collect();
    assert_eq!(ids, vec!["a", "b", "c", "a", "d"]);
    let (h_open, all) = e.fetch_range(None, None);
    assert_eq!(h_open, 3);
    assert_eq!(all.len(), 5);
}

#[test]
fn partial_and_empty_ranges() {
    let mut e = SyncEngine::new();
    e.ingest(vec![tx("T", "a", "create", "1")], 1).unwrap();
    e.ingest(vec![tx("T", "b", "create", "2")], 2).unwrap();
    e.ingest(vec![tx("T", "c", "create", "3")], 3).unwrap();
    let (h, txs) = e.fetch_range(Some(2), Some(2));
    assert_eq!(h, 2);
    assert_eq!(txs.len(), 1);
    assert_eq!(txs[0].record_id, "b");
    let (h, txs) = e.fetch_range(Some(3), None);
    assert_eq!(h, 3);
    assert_eq!(txs[0].record_id, "c");
    let (h, txs) = e.fetch_range(Some(4), None);
    assert_eq!(h, 0);
    assert!(txs.is_empty());
    let (h, txs) = e.fetch_range(Some(3), Some(1));
    assert_eq!(h, 0);
    assert!(txs.is_empty());
    let (h, txs) = e.fetch_range(None, Some(100));
    assert_eq!(h, 3);
    assert_eq!(txs.len(), 3);
}

#[test]
fn repeated_create_keeps_first_created_at() {
    let mut e = SyncEngine::new();
    e.ingest(vec![tx("Todo", "a", "create", "first")], 100).unwrap();
    e.ingest(vec![tx("Todo", "a", "create", "second")], 250).unwrap();
    let id = "a".to_string();
    let rec = e.record(&id).unwrap();
    assert_eq!(rec.payload, "second");
    assert_eq!(rec.created_at, 100);
    assert_eq!(rec.updated_at, 250);
    let (_, models) = e.bootstrap();
    assert_eq!(group(&models, "Todo").unwrap().records.len(), 1);
}

#[test]
fn create_after_delete_gets_fresh_timestamps() {
    let mut e = SyncEngine::new();
    e.ingest(vec![tx("Todo", "a", "create", "1")], 100).unwrap();
    e.ingest(vec![tx("Todo", "a", "delete", "")], 200).unwrap();
    assert!(e.record(&"a".to_string()).is_none());
    e.ingest(vec![tx("Todo", "a", "create", "2")], 300).unwrap();
    let rec = e.record(&"a".to_string()).unwrap();
    assert_eq!((rec.created_at, rec.updated_at), (300, 300));
}

#[test]
fn tombstone_hides_record_from_bootstrap() {
    let mut e = SyncEngine::new();
    e.ingest(vec![tx("Todo", "x", "create", "1"), tx("Todo", "y", "create", "2")], 1).unwrap();
    e.ingest(vec![tx("Todo", "x", "delete", "")], 2).unwrap();
    let (_, models) = e.bootstrap();
    let todos = group(&models, "Todo").unwrap();
    assert!(!todos.records.iter().any(|d| d.record_id == "x"));
    assert_eq!(todos.records.len(), 1);
}

#[test]
fn replaying_log_reproduces_store() {
    let batches = vec![
        vec![tx("Todo", "a", "create", "1"), tx("Note", "n", "create", "n1")],
        vec![tx("Todo", "b", "update", "2"), tx("Todo", "a", "update", "1b")],
        vec![tx("Note", "n", "delete", ""), tx("Todo", "c", "create", "3")],
        vec![tx("Note", "a", "update", "moved")],
    ];
    let mut e = SyncEngine::new();
    for (i, b) in batches.into_iter().enumerate() {
        e.ingest(b, 10 * i as i64).unwrap();
    }
    let (horizon, txs) = e.fetch_range(None, None);
    let mut fresh = SyncEngine::new();
    let replayed: Vec<Transaction> = txs.iter().map(|t| t.duplicate()).collect();
    fresh.ingest(replayed, 999).unwrap();
    assert_eq!(horizon, 4);
    assert_eq!(snapshot(&fresh.bootstrap().1), snapshot(&e.bootstrap().1));
    assert_eq!(
        snapshot(&e.bootstrap().1),
        vec![
            ("Note".to_string(), vec![("a".to_string(), "moved".to_string())]),
            ("Todo".to_string(), vec![("b".to_string(), "2".to_string()), ("c".to_string(), "3".to_string())]),
        ]
    );
}

#[test]
fn bootstrap_groups_by_type_in_first_appearance_order() {
    let mut e = SyncEngine::new();
    e.ingest(vec![tx("B", "1", "create", "p1"), tx("A", "2", "create", "p2"), tx("B", "3", "create", "p3")], 5)
        .unwrap();
    let (_, models) = e.bootstrap();
    assert_eq!(models.len(), 2);
    assert_eq!(models[0].entity_type, "B");
    assert_eq!(models[1].entity_type, "A");
    assert_eq!(models[0].records.len(), 2);
    assert_eq!(models[0].records[0].record_id, "1");
    assert_eq!(models[0].records[1].record_id, "3");
    assert_eq!(models[1].records[0].payload, "p2");
}

#[test]
fn empty_batch_still_takes_a_position() {
    let mut e = SyncEngine::new();
    assert_eq!(e.ingest(vec![], 1), Ok(1));
    let (h, txs) = e.fetch_range(None, None);
    assert_eq!(h, 1);
    assert!(txs.is_empty());
}

#[test]
fn ingest_now_stamps_current_time() {
    let mut e = SyncEngine::new();
    e.ingest_now(vec![tx("Todo", "a", "create", "1")]).unwrap();
    let rec = e.record(&"a".to_string()).unwrap();
    assert!(rec.created_at > 1_600_000_000);
    assert_eq!(rec.created_at, rec.updated_at);
}

#[test]
fn action_names_parse() {
    assert_eq!(parse_action(&"create".to_string()), Some(Action::Create));
    assert_eq!(parse_action(&"update".to_string()), Some(Action::Update));
    assert_eq!(parse_action(&"delete".to_string()), Some(Action::Delete));
    assert_eq!(parse_action(&"DELETE".to_string()), None);
    assert_eq!(parse_action(&"".to_string()), None);
}

#[test]
fn store_upsert_and_delete() {
    let mut s = PayloadStore::new();
    s.upsert("a".to_string(), "T".to_string(), "1".to_string(), 10);
    s.upsert("a".to_string(), "U".to_string(), "2".to_string(), 20);
    let rec = s.get(&"a".to_string()).unwrap();
    assert_eq!((rec.entity_type.as_str(), rec.payload.as_str(), rec.created_at, rec.updated_at), ("U", "2", 10, 20));
    s.delete(&"missing".to_string());
    s.delete(&"a".to_string());
    assert!(s.get(&"a".to_string()).is_none());
    assert!(s.list_all().is_empty());
}

#[test]
fn log_append_and_read_range() {
    let mut l = TransactionLog::new();
    assert_eq!(l.max_position(), 0);
    assert_eq!(l.append(vec![tx("T", "a", "create", "1")]), Ok(1));
    assert_eq!(l.append(vec![]), Ok(2));
    assert_eq!(l.max_position(), 2);
    let r = l.read_range(Some(2), None);
    assert_eq!(r.len(), 1);
    assert_eq!(r[0].position, 2);
    assert!(r[0].batch.is_empty());
    let all = l.read_range(None, None);
    assert_eq!(all.iter().map(|e| e.position).collect::<Vec<_>>(), vec![1, 2]);
}
