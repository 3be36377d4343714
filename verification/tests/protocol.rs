use ocppj::dispatch::{handle_call, handle_request, ActionKind, ActionRegistry, OcppReply};
use ocppj::frame::{
    decode, encode_call_error, encode_call_result, ErrorCode, FrameError, OcppCallError,
    OcppCallResult, OcppFrame,
};
use ocppj::json::json_to_bytes;
use ocppj::parse::bytes_to_json;
use ocppj::session::{identity_of_path, Session, SessionState};
use ocppj::JsonValue;

fn rfc3339(t: i64) -> String {
    chrono::DateTime::<chrono::Utc>::from_timestamp(t, 0)
        .unwrap()
        .to_rfc3339()
}

fn active_session(identity: &str) -> Session {
    let mut s = Session::new(
        identity.as_bytes().to_vec(),
        ActionRegistry::default_registry(),
    );
    s.activate();
    s
}

#[test]
fn boot_notification_scenario() {
    let s = active_session("CP001");
    let t: i64 = 1700000000;
    let input = br#"[2,"19223201","BootNotification",{"chargePointVendor":"Acme","chargePointModel":"X1"}]"#;
    let reply = s.handle_text(input, t).expect("a call must get a reply");
    let expected = format!(
        "[3,\"19223201\",{{\"currentTime\":\"{}\",\"interval\":300,\"status\":\"Accepted\"}}]",
        rfc3339(t)
    );
    assert_eq!(String::from_utf8(reply).unwrap(), expected);
}

#[test]
fn heartbeat_scenario() {
    let s = active_session("CP001");
    let t: i64 = 1700000123;
    let reply = s.handle_text(br#"[2,"1","Heartbeat",{}]"#, t).unwrap();
    let expected = format!("[3,\"1\",{{\"currentTime\":\"{}\"}}]", rfc3339(t));
    assert_eq!(String::from_utf8(reply).unwrap(), expected);
}

#[test]
fn unknown_action_scenario() {
    let s = active_session("CP001");
    let reply = s.handle_text(br#"[2,"1","FooBar",{}]"#, 1700000000).unwrap();
    assert_eq!(
        String::from_utf8(reply).unwrap(),
        r#"[4,"1","NotImplemented","unknown action FooBar",{}]"#
    );
}

#[test]
fn malformed_json_is_rejected_without_reply() {
    match decode(b"not an array") {
        Err(FrameError::Malformed { .. }) => {}
        _ => panic!("plain text must decode to a Malformed error"),
    }
    let s = active_session("CP001");
    assert!(s.handle_text(b"not an array", 1700000000).is_none());
}

#[test]
fn heartbeat_twice_is_idempotent_and_time_ordered() {
    let s = active_session("CP001");
    let t1: i64 = 1700000000;
    let t2: i64 = 1700000060;
    let r1 = String::from_utf8(s.handle_text(br#"[2,"a","Heartbeat",{}]"#, t1).unwrap()).unwrap();
    let r2 = String::from_utf8(s.handle_text(br#"[2,"b","Heartbeat",{}]"#, t2).unwrap()).unwrap();
    assert!(r1.starts_with("[3,\"a\","));
    assert!(r2.starts_with("[3,\"b\","));
    assert!(r1.contains(&rfc3339(t1)));
    assert!(r2.contains(&rfc3339(t2)));
    assert!(rfc3339(t1) <= rfc3339(t2));
    assert_ne!(r1, r2);
}

#[test]
fn two_sessions_each_get_their_own_reply() {
    let a = active_session("CP001");
    let b = active_session("CP002");
    assert_eq!(a.identity().as_slice(), b"CP001");
    assert_eq!(b.identity().as_slice(), b"CP002");
    let ra = String::from_utf8(a.handle_text(br#"[2,"ua","Heartbeat",{}]"#, 1700000000).unwrap())
        .unwrap();
    let rb = String::from_utf8(b.handle_text(br#"[2,"ub","Heartbeat",{}]"#, 1700000000).unwrap())
        .unwrap();
    assert!(ra.contains("\"ua\"") && !ra.contains("\"ub\""));
    assert!(rb.contains("\"ub\"") && !rb.contains("\"ua\""));
}

#[test]
fn session_lifecycle() {
    let mut s = Session::new(b"CP001".to_vec(), ActionRegistry::default_registry());
    assert_eq!(s.state(), SessionState::Connecting);
    s.activate();
    assert_eq!(s.state(), SessionState::Active);
    s.begin_close();
    assert_eq!(s.state(), SessionState::Closing);
    s.finish_close();
    assert_eq!(s.state(), SessionState::Closed);
}

#[test]
fn inbound_call_result_gets_no_reply() {
    let s = active_session("CP001");
    assert!(s.handle_text(br#"[3,"1",{}]"#, 1700000000).is_none());
}

#[test]
fn wrong_arity_with_recoverable_uid_yields_protocol_error() {
    let s = active_session("CP001");
    let reply = s.handle_text(br#"[2,"77","Heartbeat"]"#, 1700000000).unwrap();
    assert_eq!(
        String::from_utf8(reply).unwrap(),
        r#"[4,"77","ProtocolError","a call frame must have four elements",{}]"#
    );
}

#[test]
fn unknown_message_type_id_is_protocol_error() {
    match decode(br#"[9,"5","x",{}]"#) {
        Err(FrameError::Protocol { unique_id, .. }) => assert_eq!(unique_id, b"5".to_vec()),
        _ => panic!("an unknown type id with a string uniqueId must be recoverable"),
    }
}

#[test]
fn empty_unique_id_is_malformed() {
    match decode(br#"[2,"","Heartbeat",{}]"#) {
        Err(FrameError::Malformed { .. }) => {}
        _ => panic!("an empty uniqueId must not be recoverable"),
    }
}

#[test]
fn call_result_round_trip() {
    let m = OcppCallResult {
        message_type_id: 3,
        unique_id: b"rt-1".to_vec(),
        payload: JsonValue::Obj(vec![
            (b"currentTime".to_vec(), JsonValue::Str(b"now".to_vec())),
            (b"count".to_vec(), JsonValue::Int(-42)),
        ]),
    };
    let bytes = encode_call_result(m);
    match decode(&bytes) {
        Ok(OcppFrame::CallResult(back)) => {
            assert_eq!(back.unique_id, b"rt-1".to_vec());
            let reencoded = encode_call_result(back);
            assert_eq!(reencoded, bytes);
        }
        _ => panic!("an encoded CallResult must decode as a CallResult"),
    }
}

#[test]
fn call_error_round_trip() {
    let m = OcppCallError {
        message_type_id: 4,
        unique_id: b"rt-2".to_vec(),
        error_code: ErrorCode::TypeConstraintViolation,
        error_description: b"a \"quoted\" detail\n".to_vec(),
        error_details: JsonValue::Obj(vec![(b"field".to_vec(), JsonValue::Null)]),
    };
    let bytes = encode_call_error(m);
    match decode(&bytes) {
        Ok(OcppFrame::CallError(back)) => {
            assert_eq!(back.unique_id, b"rt-2".to_vec());
            assert_eq!(back.error_code, ErrorCode::TypeConstraintViolation);
            assert_eq!(back.error_description, b"a \"quoted\" detail\n".to_vec());
            let reencoded = encode_call_error(back);
            assert_eq!(reencoded, bytes);
        }
        _ => panic!("an encoded CallError must decode as a CallError"),
    }
}

#[test]
fn encoded_reply_is_valid_json() {
    let s = active_session("CP001");
    let reply = s.handle_text(br#"[2,"1","Heartbeat",{}]"#, 1700000000).unwrap();
    let v: serde_json::Value = serde_json::from_slice(&reply).unwrap();
    let arr = v.as_array().unwrap();
    assert_eq!(arr[0], serde_json::Value::from(3));
    assert_eq!(arr[1], serde_json::Value::from("1"));
    assert_eq!(
        arr[2]["currentTime"],
        serde_json::Value::from(rfc3339(1700000000))
    );
}

#[test]
fn status_notification_accepts_a_valid_report() {
    let s = active_session("CP001");
    let input = br#"[2,"9","StatusNotification",{"connectorId":1,"errorCode":"NoError","status":"Available"}]"#;
    let reply = s.handle_text(input, 1700000000).unwrap();
    assert_eq!(String::from_utf8(reply).unwrap(), r#"[3,"9",{}]"#);
}

#[test]
fn status_notification_rejects_a_bad_error_code() {
    let s = active_session("CP001");
    let input = br#"[2,"9","StatusNotification",{"connectorId":1,"errorCode":"Nonsense","status":"Available"}]"#;
    let reply = String::from_utf8(s.handle_text(input, 1700000000).unwrap()).unwrap();
    assert!(reply.starts_with(r#"[4,"9","TypeConstraintViolation","#));
    assert!(reply.contains("errorCode"));
}

#[test]
fn status_notification_rejects_a_missing_connector() {
    let s = active_session("CP001");
    let input = br#"[2,"9","StatusNotification",{"errorCode":"NoError","status":"Available"}]"#;
    let reply = String::from_utf8(s.handle_text(input, 1700000000).unwrap()).unwrap();
    assert!(reply.starts_with(r#"[4,"9","FormationViolation","#));
    assert!(reply.contains("connectorId"));
}

#[test]
fn boot_notification_rejects_a_missing_vendor() {
    let s = active_session("CP001");
    let input = br#"[2,"9","BootNotification",{"chargePointModel":"X1"}]"#;
    let reply = String::from_utf8(s.handle_text(input, 1700000000).unwrap()).unwrap();
    assert!(reply.starts_with(r#"[4,"9","FormationViolation","#));
    assert!(reply.contains("chargePointVendor"));
}

#[test]
fn boot_notification_rejects_a_non_string_vendor() {
    let s = active_session("CP001");
    let input = br#"[2,"9","BootNotification",{"chargePointVendor":7,"chargePointModel":"X1"}]"#;
    let reply = String::from_utf8(s.handle_text(input, 1700000000).unwrap()).unwrap();
    assert!(reply.starts_with(r#"[4,"9","TypeConstraintViolation","#));
}

#[test]
fn heartbeat_rejects_a_null_payload() {
    let s = active_session("CP001");
    let reply = String::from_utf8(
        s.handle_text(br#"[2,"9","Heartbeat",null]"#, 1700000000).unwrap(),
    )
    .unwrap();
    assert!(reply.starts_with(r#"[4,"9","FormationViolation","#));
}

#[test]
fn handle_request_matches_the_dispatcher() {
    let payload = JsonValue::Obj(vec![]);
    let t: i64 = 1700000000;
    match handle_request(b"Heartbeat", &payload, t) {
        Ok(v) => {
            let text = String::from_utf8(json_to_bytes(&v)).unwrap();
            assert_eq!(text, format!("{{\"currentTime\":\"{}\"}}", rfc3339(t)));
        }
        Err(_) => panic!("a heartbeat with an object payload must succeed"),
    }
    assert!(handle_request(b"FooBar", &JsonValue::Obj(vec![]), t).is_err());
}

#[test]
fn handle_call_echoes_the_unique_id() {
    let registry = ActionRegistry::default_registry();
    let call = ocppj::OcppCall {
        message_type_id: 2,
        unique_id: b"echo-me".to_vec(),
        action: b"Heartbeat".to_vec(),
        payload: JsonValue::Obj(vec![]),
    };
    match handle_call(&registry, call, 1700000000) {
        OcppReply::Result(m) => assert_eq!(m.unique_id, b"echo-me".to_vec()),
        OcppReply::Error(_) => panic!("a valid heartbeat call must yield a result"),
    }
}

#[test]
fn registry_refuses_duplicates() {
    let mut r = ActionRegistry::new();
    assert!(r.register(ActionKind::Heartbeat).is_ok());
    assert!(r.register(ActionKind::Heartbeat).is_err());
    assert!(r.lookup(b"Heartbeat").is_some());
    assert!(r.lookup(b"BootNotification").is_none());
}

#[test]
fn identity_comes_from_the_path() {
    assert_eq!(identity_of_path(b"/CP001"), b"CP001".to_vec());
    assert_eq!(identity_of_path(b"/"), b"".to_vec());
    assert_eq!(identity_of_path(b""), b"".to_vec());
    assert_eq!(identity_of_path(b"/a/b"), b"a/b".to_vec());
}
