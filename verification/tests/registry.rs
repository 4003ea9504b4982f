use rpc_bridge::jsonrpc::{ExportStatus, ImportStatus, JsonRpc, SendError};
use rpc_bridge::statuses::{Status, StatusValue, Statuses};
use rpc_bridge::transport::{Channel, Outbox, Sender, TransportError};
use serde_json::Value;

fn result(display: &str, value: Value) -> ImportStatus {
    ImportStatus { display: display.to_string(), value }
}

fn records(statuses: &Statuses) -> Vec<Status> {
    (0..statuses.len()).map(|i| statuses.record(i).unwrap().clone()).collect()
}

fn pending(name: &str, id: u64) -> Status {
    Status { name: name.to_string(), value: StatusValue::Loading(id) }
}

fn loaded(name: &str, display: &str, value: Value) -> Status {
    Status { name: name.to_string(), value: StatusValue::Loaded(display.to_string(), value) }
}

#[test]
fn new_registry_is_empty() {
    let statuses = Statuses::new();
    assert_eq!(statuses.len(), 0);
    assert!(statuses.record(0).is_none());
    assert!(statuses.export().is_empty());
}

#[test]
fn begin_returns_increasing_ids() {
    let mut statuses = Statuses::new();
    let mut client = JsonRpc::new();
    let mut out = Channel::new(Outbox::new());
    let mut ids = Vec::new();
    for name in ["a", "b", "c", "d"] {
        ids.push(statuses.get_status(name.to_string(), &mut client, &mut out).unwrap());
    }
    assert_eq!(ids, vec![0, 1, 2, 3]);
    assert_eq!(client.next_id(), 4);
    assert_eq!(
        records(&statuses),
        vec![pending("a", 0), pending("b", 1), pending("c", 2), pending("d", 3)]
    );
}

#[test]
fn begin_emits_one_request_per_call() {
    let mut statuses = Statuses::new();
    let mut client = JsonRpc::new();
    let mut out = Channel::new(Outbox::new());
    statuses.get_status("sermon".to_string(), &mut client, &mut out).unwrap();
    statuses.get_status("reading".to_string(), &mut client, &mut out).unwrap();
    assert_eq!(
        out.sender().lines(),
        &vec![
            "{\"id\":0,\"method\":\"get_status\"}".to_string(),
            "{\"id\":1,\"method\":\"get_status\"}".to_string(),
        ]
    );
}

#[test]
fn begin_that_cannot_send_adds_no_record_and_uses_up_the_id() {
    let mut statuses = Statuses::new();
    let mut client = JsonRpc::new();
    let mut channel = Channel::new(Outbox::new());
    channel.close();
    let outcome = statuses.get_status("a".to_string(), &mut client, &mut channel);
    assert!(matches!(outcome, Err(SendError::Transport(TransportError::Closed))));
    assert_eq!(statuses.len(), 0);
    assert_eq!(client.next_id(), 1);
    let mut out = Channel::new(Outbox::new());
    assert_eq!(statuses.get_status("a".to_string(), &mut client, &mut out).unwrap(), 1);
}

#[test]
fn resolve_turns_the_pending_record_into_a_resolved_one() {
    let mut statuses = Statuses::new();
    let mut client = JsonRpc::new();
    let mut out = Channel::new(Outbox::new());
    statuses.get_status("a".to_string(), &mut client, &mut out).unwrap();
    statuses.get_status("b".to_string(), &mut client, &mut out).unwrap();
    statuses.set_status_value(1, result("B", Value::from(7u64)));
    assert_eq!(records(&statuses), vec![pending("a", 0), loaded("b", "B", Value::from(7u64))]);
}

#[test]
fn resolve_for_an_id_never_issued_changes_nothing() {
    let mut statuses = Statuses::new();
    let mut client = JsonRpc::new();
    let mut out = Channel::new(Outbox::new());
    statuses.get_status("a".to_string(), &mut client, &mut out).unwrap();
    let before = records(&statuses);
    statuses.set_status_value(5, result("X", Value::Null));
    assert_eq!(records(&statuses), before);
    statuses.set_status_value(u64::MAX, result("X", Value::Null));
    assert_eq!(records(&statuses), before);
}

#[test]
fn resolve_on_an_empty_registry_adds_no_record() {
    let mut statuses = Statuses::new();
    statuses.set_status_value(0, result("X", Value::Null));
    assert_eq!(statuses.len(), 0);
}

#[test]
fn resolve_twice_keeps_the_first_result() {
    let mut statuses = Statuses::new();
    let mut client = JsonRpc::new();
    let mut out = Channel::new(Outbox::new());
    statuses.get_status("a".to_string(), &mut client, &mut out).unwrap();
    statuses.set_status_value(0, result("first", Value::from(1u64)));
    statuses.set_status_value(0, result("second", Value::from(2u64)));
    assert_eq!(records(&statuses), vec![loaded("a", "first", Value::from(1u64))]);
}

#[test]
fn reject_removes_the_pending_record() {
    let mut statuses = Statuses::new();
    let mut client = JsonRpc::new();
    let mut out = Channel::new(Outbox::new());
    for name in ["a", "b", "c"] {
        statuses.get_status(name.to_string(), &mut client, &mut out).unwrap();
    }
    statuses.remove_status(1);
    assert_eq!(records(&statuses), vec![pending("a", 0), pending("c", 2)]);
}

#[test]
fn reject_for_an_unknown_id_changes_nothing() {
    let mut statuses = Statuses::new();
    let mut client = JsonRpc::new();
    let mut out = Channel::new(Outbox::new());
    statuses.get_status("a".to_string(), &mut client, &mut out).unwrap();
    statuses.remove_status(9);
    assert_eq!(records(&statuses), vec![pending("a", 0)]);
}

#[test]
fn reject_does_not_remove_a_resolved_record() {
    let mut statuses = Statuses::new();
    let mut client = JsonRpc::new();
    let mut out = Channel::new(Outbox::new());
    statuses.get_status("a".to_string(), &mut client, &mut out).unwrap();
    statuses.set_status_value(0, result("A", Value::Bool(true)));
    statuses.remove_status(0);
    assert_eq!(records(&statuses), vec![loaded("a", "A", Value::Bool(true))]);
}

#[test]
fn reject_then_resolve_leaves_the_record_absent() {
    let mut statuses = Statuses::new();
    let mut client = JsonRpc::new();
    let mut out = Channel::new(Outbox::new());
    statuses.get_status("a".to_string(), &mut client, &mut out).unwrap();
    statuses.get_status("b".to_string(), &mut client, &mut out).unwrap();
    statuses.remove_status(0);
    let after_reject = records(&statuses);
    statuses.set_status_value(0, result("late", Value::from(3u64)));
    assert_eq!(records(&statuses), after_reject);
    assert_eq!(records(&statuses), vec![pending("b", 1)]);
}

#[test]
fn rename_changes_the_name_only() {
    let mut statuses = Statuses::new();
    let mut client = JsonRpc::new();
    let mut out = Channel::new(Outbox::new());
    statuses.get_status("a".to_string(), &mut client, &mut out).unwrap();
    statuses.get_status("b".to_string(), &mut client, &mut out).unwrap();
    statuses.set_status_value(1, result("B", Value::from(7u64)));
    statuses.set_status_name(0, "first".to_string());
    statuses.set_status_name(1, "second".to_string());
    assert_eq!(
        records(&statuses),
        vec![pending("first", 0), loaded("second", "B", Value::from(7u64))]
    );
}

#[test]
fn rename_does_not_affect_correlation() {
    let mut statuses = Statuses::new();
    let mut client = JsonRpc::new();
    let mut out = Channel::new(Outbox::new());
    statuses.get_status("a".to_string(), &mut client, &mut out).unwrap();
    statuses.set_status_name(0, "renamed".to_string());
    statuses.set_status_value(0, result("A", Value::from(1u64)));
    assert_eq!(records(&statuses), vec![loaded("renamed", "A", Value::from(1u64))]);
}

#[test]
fn export_gives_the_resolved_records_in_order_of_begin() {
    let mut statuses = Statuses::new();
    let mut client = JsonRpc::new();
    let mut out = Channel::new(Outbox::new());
    for name in ["a", "b", "c", "d"] {
        statuses.get_status(name.to_string(), &mut client, &mut out).unwrap();
    }
    statuses.set_status_value(3, result("D", Value::from("four")));
    statuses.set_status_value(0, result("A", Value::from(1u64)));
    statuses.set_status_value(2, result("C", Value::Null));
    let expected = vec![
        ExportStatus { name: "a".to_string(), value: Value::from(1u64) },
        ExportStatus { name: "c".to_string(), value: Value::Null },
        ExportStatus { name: "d".to_string(), value: Value::from("four") },
    ];
    assert_eq!(statuses.export(), expected);
}

#[test]
fn export_twice_gives_the_same_and_changes_nothing() {
    let mut statuses = Statuses::new();
    let mut client = JsonRpc::new();
    let mut out = Channel::new(Outbox::new());
    statuses.get_status("a".to_string(), &mut client, &mut out).unwrap();
    statuses.get_status("b".to_string(), &mut client, &mut out).unwrap();
    statuses.set_status_value(0, result("A", Value::from(1u64)));
    let before = records(&statuses);
    let first = statuses.export();
    let second = statuses.export();
    assert_eq!(first, second);
    assert_eq!(first.len(), 1);
    assert_eq!(records(&statuses), before);
}

#[test]
fn export_uses_the_current_name() {
    let mut statuses = Statuses::new();
    let mut client = JsonRpc::new();
    let mut out = Channel::new(Outbox::new());
    statuses.get_status("a".to_string(), &mut client, &mut out).unwrap();
    statuses.set_status_value(0, result("A", Value::from(1u64)));
    statuses.set_status_name(0, "z".to_string());
    assert_eq!(
        statuses.export(),
        vec![ExportStatus { name: "z".to_string(), value: Value::from(1u64) }]
    );
}

#[test]
fn export_of_pending_records_only_is_empty() {
    let mut statuses = Statuses::new();
    let mut client = JsonRpc::new();
    let mut out = Channel::new(Outbox::new());
    statuses.get_status("a".to_string(), &mut client, &mut out).unwrap();
    assert!(statuses.export().is_empty());
}

#[test]
fn outbox_keeps_lines_in_order() {
    let mut out = Outbox::new();
    assert!(out.lines().is_empty());
    out.send("one".to_string()).unwrap();
    out.send("two".to_string()).unwrap();
    assert_eq!(out.lines(), &vec!["one".to_string(), "two".to_string()]);
}

#[test]
fn channel_lets_lines_through_until_closed() {
    let mut channel = Channel::new(Outbox::new());
    assert!(channel.open());
    assert_eq!(channel.send("one".to_string()), Ok(()));
    channel.close();
    assert!(!channel.open());
    assert_eq!(channel.send("two".to_string()), Err(TransportError::Closed));
    assert_eq!(channel.send("three".to_string()), Err(TransportError::Closed));
    assert_eq!(channel.sender().lines(), &vec!["one".to_string()]);
}

#[test]
fn remove_pending_keeps_the_resolved_records_in_order() {
    let mut statuses = Statuses::new();
    let mut client = JsonRpc::new();
    let mut out = Channel::new(Outbox::new());
    for name in ["a", "b", "c", "d"] {
        statuses.get_status(name.to_string(), &mut client, &mut out).unwrap();
    }
    statuses.set_status_value(2, result("C", Value::from(3u64)));
    statuses.set_status_value(0, result("A", Value::from(1u64)));
    let exported = statuses.export();
    statuses.remove_pending();
    assert_eq!(
        records(&statuses),
        vec![loaded("a", "A", Value::from(1u64)), loaded("c", "C", Value::from(3u64))]
    );
    assert_eq!(statuses.export(), exported);
    statuses.remove_pending();
    assert_eq!(statuses.len(), 2);
    statuses.set_status_value(1, result("late", Value::Null));
    assert_eq!(statuses.len(), 2);
}

#[test]
fn remove_pending_of_an_empty_registry() {
    let mut statuses = Statuses::new();
    statuses.remove_pending();
    assert_eq!(statuses.len(), 0);
}

#[test]
fn pending_index_finds_the_record_by_id() {
    let mut statuses = Statuses::new();
    let mut client = JsonRpc::new();
    let mut out = Channel::new(Outbox::new());
    for name in ["a", "b", "c"] {
        statuses.get_status(name.to_string(), &mut client, &mut out).unwrap();
    }
    statuses.remove_status(0);
    statuses.set_status_value(1, result("B", Value::Null));
    assert_eq!(statuses.pending_index(2), Some(1));
    assert_eq!(statuses.pending_index(1), None);
    assert_eq!(statuses.pending_index(0), None);
    assert_eq!(statuses.pending_index(3), None);
}

#[test]
fn a_new_channel_is_open_in_front_of_its_sender() {
    let mut inner = Outbox::new();
    inner.send("before".to_string()).unwrap();
    let channel = Channel::new(inner);
    assert!(channel.open());
    assert_eq!(channel.sender().lines(), &vec!["before".to_string()]);
}
