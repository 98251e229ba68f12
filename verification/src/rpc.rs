//! The JSON-RPC 2.0 protocol of the vault server: requests, responses,
//! error codes, and which method a request names.

use vstd::prelude::*;

use crate::fields::{field_position, lookup};
use crate::json::JsonValue;
use crate::text::{chars_of, concat3, eq_str, string_of, trim, trim_chars};

verus! {

#[derive(Debug)]
pub struct Request {
    pub jsonrpc: Option<String>,
    pub id: Option<JsonValue>,
    pub method: String,
    pub params: Option<JsonValue>,
}

#[derive(Debug)]
pub struct RpcError {
    pub code: i64,
    pub message: String,
    pub data: Option<JsonValue>,
}

#[derive(Debug)]
pub struct Response {
    pub jsonrpc: String,
    pub id: JsonValue,
    pub result: Option<JsonValue>,
    pub error: Option<RpcError>,
}

impl Response {
    /// A successful response.
    pub fn success(id: JsonValue, result: JsonValue) -> (r: Response)
        ensures
            r.jsonrpc@ == "2.0"@,
            r.id == id,
            r.result == Some(result),
            r.error.is_none(),
    {
        Response { jsonrpc: string_of(&chars_of("2.0")), id, result: Some(result), error: None }
    }

    /// A failed response.
    pub fn error(id: JsonValue, error: RpcError) -> (r: Response)
        ensures
            r.jsonrpc@ == "2.0"@,
            r.id == id,
            r.result.is_none(),
            r.error == Some(error),
    {
        Response { jsonrpc: string_of(&chars_of("2.0")), id, result: None, error: Some(error) }
    }
}

impl RpcError {
    /// -32700: the line is not JSON.
    pub fn parse_error() -> (r: RpcError)
        ensures
            r.code == -32700,
            r.message@ == "Parse error"@,
            r.data.is_none(),
    {
        RpcError { code: -32700, message: string_of(&chars_of("Parse error")), data: None }
    }

    /// -32600: the JSON is not a request.
    pub fn invalid_request() -> (r: RpcError)
        ensures
            r.code == -32600,
            r.message@ == "Invalid Request"@,
            r.data.is_none(),
    {
        RpcError { code: -32600, message: string_of(&chars_of("Invalid Request")), data: None }
    }

    /// -32601: no such method.
    pub fn method_not_found(method: &str) -> (r: RpcError)
        ensures
            r.code == -32601,
            r.message@ == "Method not found: "@ + method@,
            r.data.is_none(),
    {
        proof {
            reveal_strlit("");
        }
        RpcError {
            code: -32601,
            message: concat3("Method not found: ", &chars_of(method), ""),
            data: None,
        }
    }

    /// -32602: the parameters do not fit the method.
    pub fn invalid_params(msg: &str) -> (r: RpcError)
        ensures
            r.code == -32602,
            r.message@ == "Invalid params: "@ + msg@,
            r.data.is_none(),
    {
        proof {
            reveal_strlit("");
        }
        RpcError { code: -32602, message: concat3("Invalid params: ", &chars_of(msg), ""), data: None }
    }

    /// -32603: the method failed; the message travels as data.
    pub fn internal_error(msg: &str) -> (r: RpcError)
        ensures
            r.code == -32603,
            r.message@ == "Internal error"@,
            r.data matches Some(JsonValue::String(d)) && d@ == msg@,
    {
        RpcError {
            code: -32603,
            message: string_of(&chars_of("Internal error")),
            data: Some(JsonValue::String(string_of(&chars_of(msg)))),
        }
    }
}

/// The value `serde_json::from_str::<serde_json::Value>` reads from a
/// text; `None` when it refuses it.
pub uninterp spec fn json_value(text: Seq<char>) -> Option<JsonValue>;

/// `serde_json::from_str::<serde_json::Value>(text)`, named `json_value(text)`.
#[verifier::external_body]
fn parse_json_value(text: &str) -> (r: Option<JsonValue>)
    ensures
        r == json_value(text@),
{
    match serde_json::from_str::<serde_json::Value>(text) {
        Ok(v) => Some(crate::json::from_serde(&v)),
        Err(_) => None,
    }
}

/// An optional member: absent or `null` is `None`.
pub open spec fn optional_member(m: Seq<(String, JsonValue)>, k: Seq<char>) -> Option<JsonValue> {
    match lookup(m, k) {
        Some(JsonValue::Null) => None,
        Some(v) => Some(v),
        None => None,
    }
}

/// The request a JSON value is: an object whose `method` is a string,
/// whose `jsonrpc`, if present and not `null`, is a string; `id` and
/// `params` are taken as they are, `null` counting as absent. Other
/// members are ignored.
pub open spec fn request_spec(v: JsonValue) -> Option<(Option<Seq<char>>, Option<JsonValue>, Seq<char>, Option<JsonValue>)> {
    match v {
        JsonValue::Object(entries, _) => {
            let m = entries@;
            match (lookup(m, "method"@), optional_member(m, "jsonrpc"@)) {
                (Some(JsonValue::String(method)), None) => Some(
                    (None, optional_member(m, "id"@), method@, optional_member(m, "params"@)),
                ),
                (Some(JsonValue::String(method)), Some(JsonValue::String(j))) => Some(
                    (Some(j@), optional_member(m, "id"@), method@, optional_member(m, "params"@)),
                ),
                _ => None,
            }
        },
        _ => None,
    }
}

pub open spec fn request_view(r: Request) -> (Option<Seq<char>>, Option<JsonValue>, Seq<char>, Option<JsonValue>) {
    (match r.jsonrpc {
        Some(j) => Some(j@),
        None => None,
    }, r.id, r.method@, r.params)
}

/// Take member `k` out of an object's entries: its value, `null` as none.
fn take_member(entries: &mut Vec<(String, JsonValue)>, k: &str) -> (r: Option<JsonValue>)
    ensures
        r == optional_member(old(entries)@, k@),
        forall|x: Seq<char>| x != k@ ==> #[trigger] lookup(final(entries)@, x) == lookup(old(entries)@, x),
{
    match field_position(entries, k) {
        Some(i) => {
            let ghost before = entries@;
            let (_, v) = entries.remove(i);
            proof {
                assert forall|x: Seq<char>| x != k@ implies #[trigger] lookup(entries@, x) == lookup(before, x) by {
                    crate::fields::lemma_lookup_remove_other(before, i as int, x);
                }
            }
            match v {
                JsonValue::Null => None,
                other => Some(other),
            }
        },
        None => None,
    }
}

/// The request a JSON value is, if it is one.
pub fn request_from_value(v: JsonValue) -> (r: Option<Request>)
    ensures
        match request_spec(v) {
            None => r.is_none(),
            Some(q) => r matches Some(req) && request_view(req) == q,
        },
{
    proof {
        reveal_strlit("method");
        reveal_strlit("jsonrpc");
        reveal_strlit("id");
        reveal_strlit("params");
    }
    let ghost v0 = v;
    let mut entries = match v {
        JsonValue::Object(entries, _) => entries,
        _ => {
            return None;
        },
    };
    let ghost m = entries@;
    assert(request_spec(v0) == request_spec(JsonValue::Object(entries, v0->Object_1)));
    assert("jsonrpc"@.len() == 7 && "method"@.len() == 6 && "id"@.len() == 2 && "params"@.len() == 6);
    assert("params"@[0] != "method"@[0]);
    assert("jsonrpc"@ != "method"@);
    assert("id"@ != "method"@ && "id"@ != "jsonrpc"@);
    assert("params"@ != "method"@ && "params"@ != "jsonrpc"@ && "params"@ != "id"@);
    let method = take_member(&mut entries, "method");
    let method = match method {
        Some(JsonValue::String(s)) => s,
        _ => {
            proof {
                if lookup(m, "method"@) matches Some(JsonValue::Null) {
                }
            }
            return None;
        },
    };
    let jsonrpc = take_member(&mut entries, "jsonrpc");
    let jsonrpc = match jsonrpc {
        None => None,
        Some(JsonValue::String(s)) => Some(s),
        _ => {
            return None;
        },
    };
    let id = take_member(&mut entries, "id");
    let params = take_member(&mut entries, "params");
    Some(Request { jsonrpc, id, method, params })
}

/// What a line asks for: the requests, or the error response to send.
pub open spec fn parse_request_spec(line: Seq<char>) -> Result<Seq<(Option<Seq<char>>, Option<JsonValue>, Seq<char>, Option<JsonValue>)>, i64> {
    match json_value(line) {
        None => Err(-32700i64),
        Some(JsonValue::Array(items, _)) => if items@.len() == 0 {
            Err(-32600i64)
        } else if exists|i: int| 0 <= i < items@.len() && request_spec(#[trigger] items@[i]) is None {
            Err(-32600i64)
        } else {
            Ok(items@.map_values(|x: JsonValue| request_spec(x).unwrap()))
        },
        Some(JsonValue::Object(e, t)) => match request_spec(JsonValue::Object(e, t)) {
            Some(q) => Ok(seq![q]),
            None => Err(-32600i64),
        },
        _ => Err(-32600i64),
    }
}

/// A request line is refused as a parse error (-32700) exactly when it is
/// not JSON; otherwise it gives requests exactly when it is one request
/// object, or a non-empty array each of whose elements is one, in which
/// case there is one request per element, in order; anything else is an
/// invalid request (-32600).
pub proof fn request_line_rule(line: Seq<char>)
    ensures
        (parse_request_spec(line) == Err::<Seq<(Option<Seq<char>>, Option<JsonValue>, Seq<char>, Option<JsonValue>)>, i64>(-32700i64))
            <==> json_value(line).is_none(),
        parse_request_spec(line) matches Err(c) ==> c == -32700 || c == -32600,
        parse_request_spec(line) matches Ok(qs) ==> qs.len() >= 1,
        match json_value(line) {
            Some(JsonValue::Array(items, _)) => (parse_request_spec(line) is Ok <==> (items@.len() > 0 && forall|i: int|
                0 <= i < items@.len() ==> request_spec(#[trigger] items@[i]) is Some)) && match parse_request_spec(line) {
                Ok(qs) => qs.len() == items@.len() && forall|i: int|
                    0 <= i < qs.len() ==> Some(#[trigger] qs[i]) == request_spec(items@[i]),
                Err(_) => true,
            },
            Some(v) => parse_request_spec(line) is Ok <==> request_spec(v) is Some,
            None => true,
        },
{
}

/// Parse a JSON-RPC request line: one request, or a non-empty batch of
/// them. On failure, the error response to send (with a `null` id):
/// -32700 when the line is not JSON, -32600 when it is not requests.
pub fn parse_request(line: &str) -> (r: Result<Vec<Request>, Response>)
    ensures
        match parse_request_spec(line@) {
            Ok(qs) => r matches Ok(v) && v@.map_values(|x: Request| request_view(x)) == qs,
            Err(code) => r matches Err(resp) && resp.id == JsonValue::Null && resp.result.is_none()
                && (resp.error matches Some(e) && e.code == code),
        },
{
    let ghost parsed = json_value(line@);
    let value = match parse_json_value(line) {
        Some(v) => v,
        None => {
            return Err(Response::error(JsonValue::Null, RpcError::parse_error()));
        },
    };
    match value {
        JsonValue::Array(items, _t) => {
            assert(parsed == Some(JsonValue::Array(items, _t)));
            if items.len() == 0 {
                assert(parse_request_spec(line@) == Err::<Seq<(Option<Seq<char>>, Option<JsonValue>, Seq<char>, Option<JsonValue>)>, i64>(-32600i64));
                return Err(Response::error(JsonValue::Null, RpcError::invalid_request()));
            }
            let ghost all = items@;
            let mut rest = items;
            let mut out: Vec<Request> = Vec::new();
            while rest.len() > 0
                invariant
                    match json_value(line@) {
                        Some(JsonValue::Array(its, _)) => its@ == all,
                        _ => false,
                    },
                    all.len() > 0,
                    out@.len() + rest@.len() == all.len(),
                    rest@ == all.subrange(out@.len() as int, all.len() as int),
                    forall|j: int| 0 <= j < out@.len() ==> request_spec(all[j]) == Some(
                        request_view(#[trigger] out@[j]),
                    ),
                decreases rest.len(),
            {
                let ghost k = out@.len();
                let item = rest.remove(0);
                assert(rest@ =~= all.subrange(k + 1int, all.len() as int));
                match request_from_value(item) {
                    Some(req) => out.push(req),
                    None => {
                        assert(request_spec(all[k as int]) is None);
                        assert(parse_request_spec(line@) == Err::<Seq<(Option<Seq<char>>, Option<JsonValue>, Seq<char>, Option<JsonValue>)>, i64>(-32600i64));
                        return Err(Response::error(JsonValue::Null, RpcError::invalid_request()));
                    },
                }
            }
            assert(out@.map_values(|x: Request| request_view(x)) =~= all.map_values(
                |x: JsonValue| request_spec(x).unwrap(),
            ));
            assert forall|i: int| 0 <= i < all.len() implies request_spec(#[trigger] all[i]) is Some by {
                assert(request_spec(all[i]) == Some(request_view(out@[i])));
            }
            Ok(out)
        },
        JsonValue::Object(e, t) => {
            assert(parsed == Some(JsonValue::Object(e, t)));
            match request_from_value(JsonValue::Object(e, t)) {
                Some(req) => {
                    let mut v: Vec<Request> = Vec::new();
                    v.push(req);
                    assert(v@.map_values(|x: Request| request_view(x)) =~= seq![request_view(v@[0])]);
                    Ok(v)
                },
                None => Err(Response::error(JsonValue::Null, RpcError::invalid_request())),
            }
        },
        _ => {
            assert(parse_request_spec(line@) == Err::<Seq<(Option<Seq<char>>, Option<JsonValue>, Seq<char>, Option<JsonValue>)>, i64>(-32600i64));
            Err(Response::error(JsonValue::Null, RpcError::invalid_request()))
        },
    }
}

/// What a line read by the server asks of it.
#[derive(Debug)]
pub enum LineAction {
    /// A blank line: nothing to answer.
    Ignore,
    /// A line that is not a request: send this response.
    Reject(Response),
    /// Requests to answer in order, and whether they came as a batch
    /// (whose answers go back as one array).
    Serve(Vec<Request>, bool),
}

/// Read one line of server input: blank lines are ignored; the trimmed
/// line is parsed as one request or a batch of them.
pub fn read_request_line(line: &str) -> (r: LineAction)
    ensures
        ({
            let t = trim(line@);
            if t.len() == 0 {
                r is Ignore
            } else {
                match parse_request_spec(t) {
                    Ok(qs) => r matches LineAction::Serve(v, batch) && v@.map_values(|x: Request| request_view(x))
                        == qs && batch == (t[0] == '['),
                    Err(code) => r matches LineAction::Reject(resp) && resp.id == JsonValue::Null
                        && resp.result.is_none() && (resp.error matches Some(e) && e.code == code),
                }
            }
        }),
{
    let t = trim_chars(&chars_of(line));
    if t.len() == 0 {
        return LineAction::Ignore;
    }
    let batch = t[0] == '[';
    match parse_request(string_of(&t).as_str()) {
        Ok(v) => LineAction::Serve(v, batch),
        Err(resp) => LineAction::Reject(resp),
    }
}

/// A request must say `"jsonrpc": "2.0"`.
pub fn validate_request(req: &Request) -> (r: Result<(), RpcError>)
    ensures
        match req.jsonrpc {
            Some(v) => if v@ == "2.0"@ {
                r is Ok
            } else {
                r matches Err(e) && e.code == -32600
            },
            None => r matches Err(e) && e.code == -32600,
        },
{
    match &req.jsonrpc {
        Some(v) => if eq_str(&chars_of(v.as_str()), "2.0") {
            Ok(())
        } else {
            Err(RpcError::invalid_request())
        },
        None => Err(RpcError::invalid_request()),
    }
}

/// The response to a request once its method has run.
pub fn respond(id: Option<JsonValue>, outcome: Result<JsonValue, RpcError>) -> (r: Response)
    ensures
        r.id == (match id {
            Some(i) => i,
            None => JsonValue::Null,
        }),
        match outcome {
            Ok(v) => r.result == Some(v) && r.error.is_none(),
            Err(e) => r.result.is_none() && r.error == Some(e),
        },
{
    let id = match id {
        Some(i) => i,
        None => JsonValue::Null,
    };
    match outcome {
        Ok(v) => Response::success(id, v),
        Err(e) => Response::error(id, e),
    }
}

// ── Methods ──────────────────────────────────────────────────────────

/// The methods the server answers.
#[derive(Debug, Clone, Copy, PartialEq, Eq)]
pub enum Method {
    FragmentCreate,
    FragmentGet,
    FragmentUpdate,
    FragmentDelete,
    FragmentList,
    FragmentSearch,
    FragmentLink,
    FragmentUnlink,
    FragmentBacklinks,
    FragmentAttach,
    FragmentDetach,
    FragmentAttachments,
    VaultInfo,
    VaultReindex,
    VaultDoctor,
    SchemaList,
    SchemaGet,
    TagsList,
    HistoryList,
    HistoryGet,
    HistoryRestore,
}

/// The method a name denotes.
pub open spec fn method_spec(name: Seq<char>) -> Option<Method> {
    if name == "fragment.create"@ {
        Some(Method::FragmentCreate)
    } else if name == "fragment.get"@ {
        Some(Method::FragmentGet)
    } else if name == "fragment.update"@ {
        Some(Method::FragmentUpdate)
    } else if name == "fragment.delete"@ {
        Some(Method::FragmentDelete)
    } else if name == "fragment.list"@ {
        Some(Method::FragmentList)
    } else if name == "fragment.search"@ {
        Some(Method::FragmentSearch)
    } else if name == "fragment.link"@ {
        Some(Method::FragmentLink)
    } else if name == "fragment.unlink"@ {
        Some(Method::FragmentUnlink)
    } else if name == "fragment.backlinks"@ {
        Some(Method::FragmentBacklinks)
    } else if name == "fragment.attach"@ {
        Some(Method::FragmentAttach)
    } else if name == "fragment.detach"@ {
        Some(Method::FragmentDetach)
    } else if name == "fragment.attachments"@ {
        Some(Method::FragmentAttachments)
    } else if name == "vault.info"@ {
        Some(Method::VaultInfo)
    } else if name == "vault.reindex"@ {
        Some(Method::VaultReindex)
    } else if name == "vault.doctor"@ {
        Some(Method::VaultDoctor)
    } else if name == "schema.list"@ {
        Some(Method::SchemaList)
    } else if name == "schema.get"@ {
        Some(Method::SchemaGet)
    } else if name == "tags.list"@ {
        Some(Method::TagsList)
    } else if name == "history.list"@ {
        Some(Method::HistoryList)
    } else if name == "history.get"@ {
        Some(Method::HistoryGet)
    } else if name == "history.restore"@ {
        Some(Method::HistoryRestore)
    } else {
        None
    }
}

/// Routes requests to the vault's methods.
#[derive(Debug)]
pub struct Router {
    pub vault_path: String,
}

impl Router {
    pub fn new(vault_path: String) -> (r: Router)
        ensures
            r.vault_path == vault_path,
    {
        Router { vault_path }
    }

    /// The method a request names, or the -32601 error for an unknown one.
    pub fn route(&self, method: &str) -> (r: Result<Method, RpcError>)
        ensures
            match method_spec(method@) {
                Some(m) => r == Ok::<Method, RpcError>(m),
                None => r matches Err(e) && e.code == -32601 && e.message@ == "Method not found: "@ + method@,
            },
    {
        let n = chars_of(method);
        if eq_str(&n, "fragment.create") {
            Ok(Method::FragmentCreate)
        } else if eq_str(&n, "fragment.get") {
            Ok(Method::FragmentGet)
        } else if eq_str(&n, "fragment.update") {
            Ok(Method::FragmentUpdate)
        } else if eq_str(&n, "fragment.delete") {
            Ok(Method::FragmentDelete)
        } else if eq_str(&n, "fragment.list") {
            Ok(Method::FragmentList)
        } else if eq_str(&n, "fragment.search") {
            Ok(Method::FragmentSearch)
        } else if eq_str(&n, "fragment.link") {
            Ok(Method::FragmentLink)
        } else if eq_str(&n, "fragment.unlink") {
            Ok(Method::FragmentUnlink)
        } else if eq_str(&n, "fragment.backlinks") {
            Ok(Method::FragmentBacklinks)
        } else if eq_str(&n, "fragment.attach") {
            Ok(Method::FragmentAttach)
        } else if eq_str(&n, "fragment.detach") {
            Ok(Method::FragmentDetach)
        } else if eq_str(&n, "fragment.attachments") {
            Ok(Method::FragmentAttachments)
        } else if eq_str(&n, "vault.info") {
            Ok(Method::VaultInfo)
        } else if eq_str(&n, "vault.reindex") {
            Ok(Method::VaultReindex)
        } else if eq_str(&n, "vault.doctor") {
            Ok(Method::VaultDoctor)
        } else if eq_str(&n, "schema.list") {
            Ok(Method::SchemaList)
        } else if eq_str(&n, "schema.get") {
            Ok(Method::SchemaGet)
        } else if eq_str(&n, "tags.list") {
            Ok(Method::TagsList)
        } else if eq_str(&n, "history.list") {
            Ok(Method::HistoryList)
        } else if eq_str(&n, "history.get") {
            Ok(Method::HistoryGet)
        } else if eq_str(&n, "history.restore") {
            Ok(Method::HistoryRestore)
        } else {
            Err(RpcError::method_not_found(method))
        }
    }
}

/// How the server is reached.
#[derive(Debug, Clone)]
pub enum TransportMode {
    Stdio,
    Socket { path: String },
}

} // verus!
