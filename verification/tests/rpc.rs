use parc::json::JsonValue;
use parc::rpc::{parse_request, read_request_line, respond, validate_request, LineAction, Method, Request, Router, RpcError};

#[test]
fn test_parse_valid_request() {
    let line = r#"{"jsonrpc":"2.0","id":1,"method":"vault.info","params":{}}"#;
    let reqs = parse_request(line).unwrap();
    assert_eq!(reqs.len(), 1);
    assert_eq!(reqs[0].method, "vault.info");
    assert!(matches!(&reqs[0].id, Some(JsonValue::Number(n)) if n == "1"));
}

#[test]
fn test_parse_batch_request() {
    let line = r#"[{"jsonrpc":"2.0","id":1,"method":"a","params":{}},{"jsonrpc":"2.0","id":2,"method":"b","params":{}}]"#;
    let reqs = parse_request(line).unwrap();
    assert_eq!(reqs.len(), 2);
    assert_eq!(reqs[0].method, "a");
    assert_eq!(reqs[1].method, "b");
}

#[test]
fn test_parse_malformed_json() {
    let line = "not json at all";
    let err = parse_request(line).unwrap_err();
    assert_eq!(err.error.as_ref().unwrap().code, -32700);
}

#[test]
fn test_parse_empty_batch() {
    let line = "[]";
    let err = parse_request(line).unwrap_err();
    assert_eq!(err.error.as_ref().unwrap().code, -32600);
}

#[test]
fn test_validate_request_ok() {
    let req = Request {
        jsonrpc: Some("2.0".to_string()),
        id: Some(JsonValue::Number("1".to_string())),
        method: "test".to_string(),
        params: None,
    };
    assert!(validate_request(&req).is_ok());
}

#[test]
fn test_validate_request_bad_version() {
    let req = Request {
        jsonrpc: Some("1.0".to_string()),
        id: Some(JsonValue::Number("1".to_string())),
        method: "test".to_string(),
        params: None,
    };
    assert!(validate_request(&req).is_err());
}

#[test]
fn test_dispatch_unknown_method() {
    let router = Router::new("/tmp/vault/.parc".to_string());
    let result = router.route("nonexistent.method");
    assert!(result.is_err());
    let err = result.unwrap_err();
    assert_eq!(err.code, -32601);
    assert_eq!(err.message, "Method not found: nonexistent.method");
}

// ── further cases ────────────────────────────────────────────────────

#[test]
fn known_methods_route() {
    let router = Router::new("v".to_string());
    assert!(matches!(router.route("fragment.create"), Ok(Method::FragmentCreate)));
    assert!(matches!(router.route("history.restore"), Ok(Method::HistoryRestore)));
    assert!(matches!(router.route("tags.list"), Ok(Method::TagsList)));
}

#[test]
fn request_members_null_and_missing() {
    let reqs = parse_request(r#"{"method":"vault.info","id":null,"params":null}"#).unwrap();
    assert!(reqs[0].id.is_none() && reqs[0].params.is_none() && reqs[0].jsonrpc.is_none());
    assert!(validate_request(&reqs[0]).is_err());
    let err = parse_request(r#"{"jsonrpc":"2.0","id":3}"#).unwrap_err();
    assert_eq!(err.error.unwrap().code, -32600);
    assert!(matches!(err.id, JsonValue::Null));
    let err = parse_request(r#"[{"jsonrpc":"2.0","method":"a"}, 5]"#).unwrap_err();
    assert_eq!(err.error.unwrap().code, -32600);
    let err = parse_request("42").unwrap_err();
    assert_eq!(err.error.unwrap().code, -32600);
}

#[test]
fn responses_echo_the_id() {
    let r = respond(Some(JsonValue::Number("7".into())), Ok(JsonValue::Bool(true)));
    assert_eq!(r.jsonrpc, "2.0");
    assert!(matches!(r.id, JsonValue::Number(ref n) if n == "7"));
    assert!(matches!(r.result, Some(JsonValue::Bool(true))) && r.error.is_none());
    let r = respond(None, Err(RpcError::invalid_params("missing id")));
    assert!(matches!(r.id, JsonValue::Null));
    let e = r.error.unwrap();
    assert_eq!(e.code, -32602);
    assert_eq!(e.message, "Invalid params: missing id");
    let e = RpcError::internal_error("disk full");
    assert_eq!(e.code, -32603);
    assert!(matches!(e.data, Some(JsonValue::String(ref d)) if d == "disk full"));
}

#[test]
fn server_lines_are_classified() {
    assert!(matches!(read_request_line("   \t"), LineAction::Ignore));
    assert!(matches!(read_request_line("  {\"jsonrpc\":\"2.0\",\"method\":\"a\"}  "), LineAction::Serve(v, false) if v.len() == 1));
    assert!(matches!(read_request_line(" [{\"jsonrpc\":\"2.0\",\"method\":\"a\"}]"), LineAction::Serve(v, true) if v.len() == 1));
    assert!(matches!(read_request_line("{oops"), LineAction::Reject(r) if r.error.as_ref().unwrap().code == -32700));
}
