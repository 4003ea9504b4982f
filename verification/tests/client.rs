use rpc_bridge::jsonrpc::{
    decode, encode, envelope, frame_entry, frame_request, frame_statuses, ExportStatus,
    ImportStatus, JsonRpc, Method, Receive, Response, ResponseResult, SendError,
};
use rpc_bridge::text::{decimal, push_decimal};
use rpc_bridge::transport::{Channel, Outbox, Sender, TransportError, Writer};
use std::cell::RefCell;
use serde_json::Value;

fn broken(_data: String) -> Result<(), TransportError> {
    Err(TransportError::Io("broken pipe".to_string()))
}

fn result(id: u64, display: &str, value: Value) -> Receive {
    Receive {
        id,
        response: ResponseResult::Response(Response::ImportStatus(ImportStatus {
            display: display.to_string(),
            value,
        })),
    }
}

fn error(id: u64, code: usize, message: &str) -> Receive {
    Receive { id, response: ResponseResult::Error { code, message: message.to_string() } }
}

#[test]
fn decimal_of_small_and_large_numbers() {
    assert_eq!(decimal(0), "0");
    assert_eq!(decimal(7), "7");
    assert_eq!(decimal(9), "9");
    assert_eq!(decimal(10), "10");
    assert_eq!(decimal(1234567890), "1234567890");
    assert_eq!(decimal(u64::MAX), "18446744073709551615");
}

#[test]
fn push_decimal_appends() {
    let mut text = "id=".to_string();
    push_decimal(&mut text, 402);
    assert_eq!(text, "id=402");
}

#[test]
fn frame_request_without_and_with_params() {
    assert_eq!(frame_request(3, "get_status", None), "{\"id\":3,\"method\":\"get_status\"}");
    assert_eq!(
        frame_request(12, "export", Some("{\"statuses\":[]}")),
        "{\"id\":12,\"method\":\"export\",\"params\":{\"statuses\":[]}}"
    );
}

#[test]
fn frame_entry_and_statuses() {
    assert_eq!(frame_entry("\"a\"", "42"), "{\"name\":\"a\",\"value\":42}");
    assert_eq!(frame_statuses(&vec![]), "{\"statuses\":[]}");
    assert_eq!(frame_statuses(&vec!["1".to_string()]), "{\"statuses\":[1]}");
    assert_eq!(
        frame_statuses(&vec!["1".to_string(), "2".to_string(), "3".to_string()]),
        "{\"statuses\":[1,2,3]}"
    );
}

#[test]
fn encode_get_status() {
    assert_eq!(encode(0, &Method::GetStatus).unwrap(), "{\"id\":0,\"method\":\"get_status\"}");
}

#[test]
fn encode_export_with_entries() {
    let method = Method::Export(vec![
        ExportStatus { name: "sermon".to_string(), value: Value::from(42u64) },
        ExportStatus { name: "reading".to_string(), value: Value::from("x") },
    ]);
    assert_eq!(
        encode(5, &method).unwrap(),
        "{\"id\":5,\"method\":\"export\",\"params\":{\"statuses\":[{\"name\":\"sermon\",\"value\":42},{\"name\":\"reading\",\"value\":\"x\"}]}}"
    );
}

#[test]
fn encode_export_without_entries() {
    assert_eq!(
        encode(1, &Method::Export(vec![])).unwrap(),
        "{\"id\":1,\"method\":\"export\",\"params\":{\"statuses\":[]}}"
    );
}

#[test]
fn encode_quotes_names_and_keeps_payloads() {
    let payload: Value = serde_json::from_str("{\"a\":[1,2,{\"b\":null}],\"c\":\"q\\\"\"}").unwrap();
    let method = Method::Export(vec![ExportStatus {
        name: "say \"hi\"\n".to_string(),
        value: payload.clone(),
    }]);
    let line = encode(0, &method).unwrap();
    assert!(!line.contains('\n'));
    let parsed: Value = serde_json::from_str(&line).unwrap();
    let entry = &parsed["params"]["statuses"][0];
    assert_eq!(entry["name"], Value::from("say \"hi\"\n"));
    assert_eq!(entry["value"], payload);
    assert_eq!(parsed["id"], Value::from(0u64));
    assert_eq!(parsed["method"], Value::from("export"));
}

#[test]
fn send_takes_ids_in_order_from_zero() {
    let mut client = JsonRpc::new();
    let mut out = Channel::new(Outbox::new());
    assert_eq!(client.next_id(), 0);
    assert_eq!(client.send(Method::GetStatus, &mut out).unwrap(), 0);
    assert_eq!(client.send(Method::Export(vec![]), &mut out).unwrap(), 1);
    assert_eq!(client.send(Method::GetStatus, &mut out).unwrap(), 2);
    assert_eq!(client.next_id(), 3);
    assert_eq!(
        out.sender().lines(),
        &vec![
            "{\"id\":0,\"method\":\"get_status\"}".to_string(),
            "{\"id\":1,\"method\":\"export\",\"params\":{\"statuses\":[]}}".to_string(),
            "{\"id\":2,\"method\":\"get_status\"}".to_string(),
        ]
    );
}

#[test]
fn send_surfaces_a_transport_failure_and_never_reuses_the_id() {
    let mut client = JsonRpc::new();
    let mut broken = Channel::new(Writer::new(broken));
    match client.send(Method::GetStatus, &mut broken) {
        Err(SendError::Transport(TransportError::Io(text))) => assert_eq!(text, "broken pipe"),
        other => panic!("unexpected outcome: {:?}", other),
    }
    let mut out = Channel::new(Outbox::new());
    assert_eq!(client.send(Method::GetStatus, &mut out).unwrap(), 1);
}

#[test]
fn send_on_a_closed_channel_fails_as_closed() {
    let mut client = JsonRpc::new();
    let mut channel = Channel::new(Outbox::new());
    client.send(Method::GetStatus, &mut channel).unwrap();
    channel.close();
    assert!(matches!(
        client.send(Method::GetStatus, &mut channel),
        Err(SendError::Transport(TransportError::Closed))
    ));
    assert_eq!(channel.sender().lines().len(), 1);
    assert_eq!(client.next_id(), 2);
}

#[test]
fn outcome_of_a_send() {
    assert!(matches!(JsonRpc::outcome(4, Ok(())), Ok(4)));
    assert!(matches!(
        JsonRpc::outcome(4, Err(TransportError::Closed)),
        Err(SendError::Transport(TransportError::Closed))
    ));
}

#[test]
fn receive_result() {
    let client = JsonRpc::new();
    assert_eq!(
        client.receive("{\"id\":1,\"response\":{\"display\":\"Reading\",\"value\":42}}"),
        Some(result(1, "Reading", Value::from(42u64)))
    );
}

#[test]
fn receive_error() {
    let client = JsonRpc::new();
    assert_eq!(
        client.receive("{\"id\":0,\"response\":{\"code\":1,\"message\":\"not found\"}}"),
        Some(error(0, 1, "not found"))
    );
    assert_eq!(
        client.receive("{\"id\":7,\"response\":{\"code\":404,\"message\":\"\"}}"),
        Some(error(7, 404, ""))
    );
}

#[test]
fn receive_keeps_the_payload_as_it_came() {
    let client = JsonRpc::new();
    let payload: Value = serde_json::from_str("{\"k\":[1,-2,3.5,null,true,\"s\"]}").unwrap();
    assert_eq!(
        client.receive(
            "{\"id\":3,\"response\":{\"display\":\"D\",\"value\":{\"k\":[1,-2,3.5,null,true,\"s\"]}}}"
        ),
        Some(result(3, "D", payload))
    );
    assert_eq!(
        client.receive("{\"id\":3,\"response\":{\"display\":\"D\",\"value\":null}}"),
        Some(result(3, "D", Value::Null))
    );
}

#[test]
fn receive_ignores_other_members_and_key_order() {
    let client = JsonRpc::new();
    assert_eq!(
        client.receive(
            " {\"extra\":true,\"response\":{\"value\":1,\"note\":\"n\",\"display\":\"D\"},\"id\":9} "
        ),
        Some(result(9, "D", Value::from(1u64)))
    );
}

#[test]
fn receive_prefers_the_result_where_both_shapes_are_there() {
    let client = JsonRpc::new();
    assert_eq!(
        client.receive(
            "{\"id\":2,\"response\":{\"display\":\"D\",\"value\":0,\"code\":1,\"message\":\"m\"}}"
        ),
        Some(result(2, "D", Value::from(0u64)))
    );
}

#[test]
fn receive_skips_what_is_no_envelope() {
    let client = JsonRpc::new();
    for line in [
        "not json",
        "",
        "42",
        "[]",
        "{}",
        "{\"id\":1}",
        "{\"response\":{\"display\":\"D\",\"value\":1}}",
        "{\"id\":-1,\"response\":{\"display\":\"D\",\"value\":1}}",
        "{\"id\":1.5,\"response\":{\"display\":\"D\",\"value\":1}}",
        "{\"id\":\"1\",\"response\":{\"display\":\"D\",\"value\":1}}",
        "{\"id\":1,\"response\":\"D\"}",
        "{\"id\":1,\"response\":{\"display\":\"D\"}}",
        "{\"id\":1,\"response\":{\"value\":1}}",
        "{\"id\":1,\"response\":{\"display\":5,\"value\":1}}",
        "{\"id\":1,\"response\":{\"code\":1}}",
        "{\"id\":1,\"response\":{\"message\":\"m\"}}",
        "{\"id\":1,\"response\":{\"code\":-1,\"message\":\"m\"}}",
        "{\"id\":1,\"response\":{\"code\":\"1\",\"message\":\"m\"}}",
        "{\"id\":1,\"response\":{\"code\":1,\"message\":2}}",
        "{\"id\":1,\"error\":{\"code\":1,\"message\":\"m\"}}",
        "{\"id\":1,\"response\":{\"display\":\"D\",\"value\":1}} trailing",
    ] {
        assert_eq!(client.receive(line), None, "line: {}", line);
    }
}

#[test]
fn receive_all_delivers_the_valid_envelopes_around_a_malformed_line() {
    let client = JsonRpc::new();
    let lines = vec![
        "{\"id\":0,\"response\":{\"display\":\"A\",\"value\":1}}".to_string(),
        "not json".to_string(),
        "{\"id\":1,\"response\":{\"code\":1,\"message\":\"gone\"}}".to_string(),
    ];
    assert_eq!(
        client.receive_all(&lines),
        vec![result(0, "A", Value::from(1u64)), error(1, 1, "gone")]
    );
}

#[test]
fn receive_all_of_nothing_and_of_noise() {
    let client = JsonRpc::new();
    assert!(client.receive_all(&vec![]).is_empty());
    assert!(client.receive_all(&vec!["x".to_string(), "{}".to_string()]).is_empty());
}

#[test]
fn decode_reads_a_parsed_value() {
    let value: Value =
        serde_json::from_str("{\"id\":4,\"response\":{\"display\":\"D\",\"value\":[1]}}").unwrap();
    assert_eq!(
        decode(&value),
        Some(result(4, "D", serde_json::from_str::<Value>("[1]").unwrap()))
    );
    assert_eq!(decode(&Value::Null), None);
}

#[test]
fn envelope_from_parts() {
    assert_eq!(
        envelope(Some(1), Some("D".to_string()), Some(Value::Null), None, None),
        Some(result(1, "D", Value::Null))
    );
    assert_eq!(
        envelope(Some(1), None, None, Some(3), Some("m".to_string())),
        Some(error(1, 3, "m"))
    );
    assert_eq!(
        envelope(Some(1), Some("D".to_string()), None, Some(3), Some("m".to_string())),
        Some(error(1, 3, "m"))
    );
    assert_eq!(envelope(None, Some("D".to_string()), Some(Value::Null), None, None), None);
    assert_eq!(envelope(Some(1), Some("D".to_string()), None, None, None), None);
    assert_eq!(envelope(Some(1), None, Some(Value::Null), None, None), None);
    assert_eq!(envelope(Some(1), None, None, Some(3), None), None);
    assert_eq!(envelope(Some(1), None, None, None, Some("m".to_string())), None);
    assert_eq!(envelope(Some(1), None, None, None, None), None);
}

#[test]
fn a_writer_hands_each_line_to_its_function_and_passes_on_the_answer() {
    let written = RefCell::new(Vec::new());
    let mut writer = Writer::new(|line: String| {
        if line.is_empty() {
            Err(TransportError::Io("nothing to write".to_string()))
        } else {
            written.borrow_mut().push(line);
            Ok(())
        }
    });
    assert_eq!(writer.send("one".to_string()), Ok(()));
    assert_eq!(
        writer.send(String::new()),
        Err(TransportError::Io("nothing to write".to_string()))
    );
    assert_eq!(writer.send("two".to_string()), Ok(()));
    assert_eq!(*written.borrow(), vec!["one".to_string(), "two".to_string()]);
}

#[test]
fn a_client_writes_through_a_writer_behind_a_channel() {
    let written = RefCell::new(Vec::new());
    let mut channel = Channel::new(Writer::new(|line: String| {
        written.borrow_mut().push(line);
        Ok(())
    }));
    let mut client = JsonRpc::new();
    assert_eq!(client.send(Method::GetStatus, &mut channel).unwrap(), 0);
    channel.close();
    assert!(matches!(
        client.send(Method::GetStatus, &mut channel),
        Err(SendError::Transport(TransportError::Closed))
    ));
    assert_eq!(*written.borrow(), vec!["{\"id\":0,\"method\":\"get_status\"}".to_string()]);
}
