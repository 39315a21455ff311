//! The envelope dispatcher: from a raw text frame to a response envelope.
//!
//! A frame is parsed, its `id`, `method` and `params` fields are extracted,
//! and the method is routed through the method table. Every malformed input
//! is answered with a typed error envelope — a request can fail, the
//! connection never comes down because of it.

use vstd::prelude::*;
use vstd::string::*;

use crate::decode::parse_text;
use crate::decode::parse_text_x;
use crate::encode::ser_val;
use crate::encode::to_text;
use crate::value::JsonValue;
use crate::value::SpecValue;
use crate::value::clone_list;
use crate::value::lemma_view_pairs_props;
use crate::value::lookup;
use crate::value::lookup_pairs;
use crate::value::view_list;
use crate::value::view_pairs;
use crate::value::view_val;

verus! {

/// Why a request failed. `ParseError`, `InvalidId`, `InvalidMethod` and
/// `InvalidParams` name malformed frames; `MethodNotFound` an envelope whose
/// method the table does not know; `EngineError` a failure the backend
/// reported; `UnsupportedFrame` a frame kind the wire format does not carry.
#[derive(Clone, Copy, Debug, PartialEq, Eq, Structural)]
pub enum ErrorKind {
    ParseError,
    InvalidId,
    InvalidMethod,
    InvalidParams,
    MethodNotFound,
    EngineError,
    UnsupportedFrame,
}

/// Per-connection context: the namespace and database requests run under,
/// and the authenticated identity once a sign-in has succeeded.
pub struct Session {
    pub ns: String,
    pub db: String,
    pub auth: Option<String>,
}

impl Session {
    /// A fresh, unauthenticated session for one namespace and database.
    pub fn for_db(ns: &str, db: &str) -> (s: Session)
        ensures
            s.ns@ == ns@,
            s.db@ == db@,
            s.auth is None,
    {
        Session { ns: String::from_str(ns), db: String::from_str(db), auth: None }
    }
}

/// Model of a response: the echoed id and either a result value or the kind
/// of failure.
pub struct SpecResponse {
    pub id: Option<SpecValue>,
    pub body: Result<SpecValue, ErrorKind>,
}

/// A response envelope: the echoed request id, and a result value or an
/// error kind.
pub struct RpcResponse {
    pub id: Option<JsonValue>,
    pub body: Result<JsonValue, ErrorKind>,
}

impl View for RpcResponse {
    type V = SpecResponse;

    open spec fn view(&self) -> SpecResponse {
        SpecResponse {
            id: match self.id {
                Some(v) => Some(view_val(v)),
                None => None,
            },
            body: match self.body {
                Ok(v) => Ok(view_val(v)),
                Err(k) => Err(k),
            },
        }
    }
}

/// The wire code for an error kind.
pub open spec fn code_text(k: ErrorKind) -> Seq<char> {
    match k {
        ErrorKind::ParseError => "ParseError"@,
        ErrorKind::InvalidId => "InvalidId"@,
        ErrorKind::InvalidMethod => "InvalidMethod"@,
        ErrorKind::InvalidParams => "InvalidParams"@,
        ErrorKind::MethodNotFound => "MethodNotFound"@,
        ErrorKind::EngineError => "EngineError"@,
        ErrorKind::UnsupportedFrame => "UnsupportedFrame"@,
    }
}

/// The human-readable message for an error kind.
pub open spec fn msg_text(k: ErrorKind) -> Seq<char> {
    match k {
        ErrorKind::ParseError => "the frame is not a well-formed value"@,
        ErrorKind::InvalidId => "the id field must be null or a string"@,
        ErrorKind::InvalidMethod => "the method field must be a string"@,
        ErrorKind::InvalidParams => "the params field must be an array"@,
        ErrorKind::MethodNotFound => "no handler is registered for the method"@,
        ErrorKind::EngineError => "the engine failed to execute the request"@,
        ErrorKind::UnsupportedFrame => "only text frames are supported"@,
    }
}

/// The id a response envelope carries on the wire: the request's id, or
/// null where the request had none (or could not be read).
pub open spec fn id_val(id: Option<SpecValue>) -> SpecValue {
    match id {
        Some(v) => v,
        None => SpecValue::Null,
    }
}

/// The response envelope as a wire value: `{id, result}` on success,
/// `{id, error: {code, message}}` on failure.
pub open spec fn resp_val(r: SpecResponse) -> SpecValue {
    match r.body {
        Ok(v) => SpecValue::Obj(seq![("id"@, id_val(r.id)), ("result"@, v)]),
        Err(k) => SpecValue::Obj(
            seq![
                ("id"@, id_val(r.id)),
                (
                    "error"@,
                    SpecValue::Obj(
                        seq![
                            ("code"@, SpecValue::Str(code_text(k))),
                            ("message"@, SpecValue::Str(msg_text(k))),
                        ],
                    ),
                ),
            ],
        ),
    }
}

/// The exact text a response is sent as.
pub open spec fn resp_text(r: SpecResponse) -> Seq<char> {
    ser_val(resp_val(r))
}

/// Extraction of the `id` field: absent means no id; null and strings are
/// carried through unchanged; any other shape is an invalid id.
pub open spec fn id_of(env: SpecValue) -> Option<Option<SpecValue>> {
    match lookup(env, "id"@) {
        None => Some(None),
        Some(SpecValue::Null) => Some(Some(SpecValue::Null)),
        Some(SpecValue::Str(s)) => Some(Some(SpecValue::Str(s))),
        Some(_) => None,
    }
}

/// Extraction of the `method` field: it must be present and a string.
pub open spec fn method_of(env: SpecValue) -> Option<Seq<char>> {
    match lookup(env, "method"@) {
        Some(SpecValue::Str(m)) => Some(m),
        _ => None,
    }
}

/// Extraction of the `params` field: an absent field is the empty parameter
/// sequence; a present one must be an array.
pub open spec fn params_of(env: SpecValue) -> Option<Seq<SpecValue>> {
    match lookup(env, "params"@) {
        None => Some(Seq::empty()),
        Some(SpecValue::Arr(a)) => Some(a),
        Some(_) => None,
    }
}

/// The method table: what a known method returns for the given parameters,
/// or nothing for an unknown method. `ping` answers null; `signin` is the
/// table's stub until credential checking is wired to the backend.
pub open spec fn route(m: Seq<char>, params: Seq<SpecValue>) -> Option<SpecValue> {
    if m == "ping"@ {
        Some(SpecValue::Null)
    } else if m == "signin"@ {
        Some(SpecValue::Null)
    } else {
        None
    }
}

/// What dispatching a text frame answers, start to finish: parse, extract
/// `id`, `method` and `params`, route, and wrap the outcome.
pub open spec fn spec_dispatch(s: Seq<char>) -> SpecResponse {
    match parse_text(s) {
        None => SpecResponse { id: None, body: Err(ErrorKind::ParseError) },
        Some(env) => match id_of(env) {
            None => SpecResponse { id: None, body: Err(ErrorKind::InvalidId) },
            Some(id) => match method_of(env) {
                None => SpecResponse { id, body: Err(ErrorKind::InvalidMethod) },
                Some(m) => match params_of(env) {
                    None => SpecResponse { id, body: Err(ErrorKind::InvalidParams) },
                    Some(ps) => match route(m, ps) {
                        Some(v) => SpecResponse { id, body: Ok(v) },
                        None => SpecResponse { id, body: Err(ErrorKind::MethodNotFound) },
                    },
                },
            },
        },
    }
}

/// First binding of `key` in the envelope, if the envelope is an object
/// with such a field.
fn get_field<'a>(env: &'a JsonValue, key: &String) -> (r: Option<&'a JsonValue>)
    ensures
        match r {
            Some(v) => lookup(env@, key@) == Some(v@),
            None => lookup(env@, key@) is None,
        },
{
    match env {
        JsonValue::Obj(pairs) => {
            let ghost full = view_pairs(pairs@);
            proof {
                lemma_view_pairs_props(pairs@);
                assert(full.subrange(0, full.len() as int) =~= full);
            }
            let mut i: usize = 0;
            while i < pairs.len()
                invariant
                    i <= pairs@.len(),
                    env@ == SpecValue::Obj(full),
                    full == view_pairs(pairs@),
                    full.len() == pairs@.len(),
                    forall|t: int|
                        0 <= t < pairs@.len() ==> full[t] == (
                            pairs@[t].0@,
                            view_val(pairs@[t].1),
                        ),
                    lookup_pairs(full, key@) == lookup_pairs(
                        full.subrange(i as int, full.len() as int),
                        key@,
                    ),
                decreases pairs@.len() - i,
            {
                let hit = pairs[i].0 == *key;
                proof {
                    let tail = full.subrange(i as int, full.len() as int);
                    assert(tail[0] == full[i as int]);
                    if !hit {
                        assert(tail.subrange(1, tail.len() as int) =~= full.subrange(
                            i as int + 1,
                            full.len() as int,
                        ));
                    }
                }
                if hit {
                    return Some(&pairs[i].1);
                }
                i += 1;
            }
            proof {
                assert(full.subrange(full.len() as int, full.len() as int) =~= Seq::<
                    (Seq<char>, SpecValue),
                >::empty());
            }
            None
        },
        _ => None,
    }
}

/// The method table, as executable routing.
fn route_x(method: &String, params: &Vec<JsonValue>, _session: &Session) -> (r: Option<
    JsonValue,
>)
    ensures
        match r {
            Some(v) => route(method@, view_list(params@)) == Some(v@),
            None => route(method@, view_list(params@)) is None,
        },
{
    let ping = String::from_str("ping");
    if *method == ping {
        return Some(JsonValue::Null);
    }
    let signin = String::from_str("signin");
    if *method == signin {
        return Some(JsonValue::Null);
    }
    None
}

/// Dispatch one text frame: the returned envelope is exactly what
/// [`spec_dispatch`] states, for every frame.
pub fn dispatch(frame: &str, session: &Session) -> (r: RpcResponse)
    ensures
        r@ == spec_dispatch(frame@),
{
    let env = match parse_text_x(frame) {
        Some(env) => env,
        None => {
            return RpcResponse { id: None, body: Err(ErrorKind::ParseError) };
        },
    };
    let key_id = String::from_str("id");
    let id: Option<JsonValue> = match get_field(&env, &key_id) {
        None => None,
        Some(v) => match v {
            JsonValue::Null => Some(JsonValue::Null),
            JsonValue::Str(s) => Some(JsonValue::Str(s.clone())),
            _ => {
                return RpcResponse { id: None, body: Err(ErrorKind::InvalidId) };
            },
        },
    };
    let key_method = String::from_str("method");
    let method: String = match get_field(&env, &key_method) {
        Some(v) => match v {
            JsonValue::Str(s) => s.clone(),
            _ => {
                return RpcResponse { id, body: Err(ErrorKind::InvalidMethod) };
            },
        },
        None => {
            return RpcResponse { id, body: Err(ErrorKind::InvalidMethod) };
        },
    };
    let key_params = String::from_str("params");
    let params: Vec<JsonValue> = match get_field(&env, &key_params) {
        None => Vec::new(),
        Some(v) => match v {
            JsonValue::Arr(a) => clone_list(a),
            _ => {
                return RpcResponse { id, body: Err(ErrorKind::InvalidParams) };
            },
        },
    };
    match route_x(&method, &params, session) {
        Some(v) => RpcResponse { id, body: Ok(v) },
        None => RpcResponse { id, body: Err(ErrorKind::MethodNotFound) },
    }
}

/// The wire string for an error code.
fn code_str(k: ErrorKind) -> (s: String)
    ensures
        s@ == code_text(k),
{
    match k {
        ErrorKind::ParseError => String::from_str("ParseError"),
        ErrorKind::InvalidId => String::from_str("InvalidId"),
        ErrorKind::InvalidMethod => String::from_str("InvalidMethod"),
        ErrorKind::InvalidParams => String::from_str("InvalidParams"),
        ErrorKind::MethodNotFound => String::from_str("MethodNotFound"),
        ErrorKind::EngineError => String::from_str("EngineError"),
        ErrorKind::UnsupportedFrame => String::from_str("UnsupportedFrame"),
    }
}

/// The wire string for an error message.
fn msg_str(k: ErrorKind) -> (s: String)
    ensures
        s@ == msg_text(k),
{
    match k {
        ErrorKind::ParseError => String::from_str("the frame is not a well-formed value"),
        ErrorKind::InvalidId => String::from_str("the id field must be null or a string"),
        ErrorKind::InvalidMethod => String::from_str("the method field must be a string"),
        ErrorKind::InvalidParams => String::from_str("the params field must be an array"),
        ErrorKind::MethodNotFound => String::from_str(
            "no handler is registered for the method",
        ),
        ErrorKind::EngineError => String::from_str("the engine failed to execute the request"),
        ErrorKind::UnsupportedFrame => String::from_str("only text frames are supported"),
    }
}

/// Render a response as the exact frame text [`resp_text`] states.
pub fn encode_response(r: RpcResponse) -> (out: String)
    ensures
        out@ == resp_text(r@),
{
    let ghost gr = r@;
    let idv = match r.id {
        Some(v) => v,
        None => JsonValue::Null,
    };
    let ghost gid = view_val(idv);
    match r.body {
        Ok(v) => {
            let ghost gv = view_val(v);
            let mut pairs: Vec<(String, JsonValue)> = Vec::new();
            pairs.push((String::from_str("id"), idv));
            pairs.push((String::from_str("result"), v));
            let ghost gp = pairs@;
            let obj = JsonValue::Obj(pairs);
            proof {
                lemma_view_pairs_props(gp);
                assert(view_pairs(gp) =~= seq![("id"@, gid), ("result"@, gv)]);
                assert(obj@ == resp_val(gr));
            }
            to_text(&obj)
        },
        Err(k) => {
            let mut inner: Vec<(String, JsonValue)> = Vec::new();
            inner.push((String::from_str("code"), JsonValue::Str(code_str(k))));
            inner.push((String::from_str("message"), JsonValue::Str(msg_str(k))));
            let ghost gi = inner@;
            let errv = JsonValue::Obj(inner);
            let ghost gerr = view_val(errv);
            proof {
                lemma_view_pairs_props(gi);
                assert(view_pairs(gi) =~= seq![
                    ("code"@, SpecValue::Str(code_text(k))),
                    ("message"@, SpecValue::Str(msg_text(k))),
                ]);
            }
            let mut pairs: Vec<(String, JsonValue)> = Vec::new();
            pairs.push((String::from_str("id"), idv));
            pairs.push((String::from_str("error"), errv));
            let ghost gp = pairs@;
            let obj = JsonValue::Obj(pairs);
            proof {
                lemma_view_pairs_props(gp);
                assert(view_pairs(gp) =~= seq![("id"@, gid), ("error"@, gerr)]);
                assert(obj@ == resp_val(gr));
            }
            to_text(&obj)
        },
    }
}

/// LAW: every envelope that parses, carries a valid id, a known method and
/// well-formed params is answered with exactly that id — the absent id
/// included — and with a result, not an error.
pub proof fn lemma_id_echoed(
    s: Seq<char>,
    env: SpecValue,
    id: Option<SpecValue>,
    m: Seq<char>,
    ps: Seq<SpecValue>,
)
    requires
        parse_text(s) == Some(env),
        id_of(env) == Some(id),
        method_of(env) == Some(m),
        params_of(env) == Some(ps),
        route(m, ps) is Some,
    ensures
        spec_dispatch(s).id == id,
        spec_dispatch(s).body is Ok,
{
}

/// LAW: an envelope whose `method` field is missing or not a string is
/// answered `InvalidMethod`, the id echoed; the method table is never
/// consulted — the response is the error envelope and nothing else.
pub proof fn lemma_invalid_method(s: Seq<char>, env: SpecValue, id: Option<SpecValue>)
    requires
        parse_text(s) == Some(env),
        id_of(env) == Some(id),
        method_of(env) is None,
    ensures
        spec_dispatch(s) == (SpecResponse { id, body: Err(ErrorKind::InvalidMethod) }),
{
}

/// LAW: an envelope without a `params` field is dispatched with the empty
/// parameter sequence — the absence is no error, and a known method still
/// answers.
pub proof fn lemma_params_default(
    s: Seq<char>,
    env: SpecValue,
    id: Option<SpecValue>,
    m: Seq<char>,
)
    requires
        parse_text(s) == Some(env),
        id_of(env) == Some(id),
        method_of(env) == Some(m),
        lookup(env, "params"@) is None,
    ensures
        params_of(env) == Some(Seq::<SpecValue>::empty()),
        route(m, Seq::empty()) is Some ==> spec_dispatch(s).id == id && spec_dispatch(
            s,
        ).body is Ok,
{
}

/// LAW: an envelope naming a method outside the table is answered
/// `MethodNotFound`, its id echoed; dispatch reads the frame and builds the
/// reply, and has no other effect.
pub proof fn lemma_unknown_method(
    s: Seq<char>,
    env: SpecValue,
    id: Option<SpecValue>,
    m: Seq<char>,
    ps: Seq<SpecValue>,
)
    requires
        parse_text(s) == Some(env),
        id_of(env) == Some(id),
        method_of(env) == Some(m),
        params_of(env) == Some(ps),
        route(m, ps) is None,
    ensures
        spec_dispatch(s) == (SpecResponse { id, body: Err(ErrorKind::MethodNotFound) }),
{
}

/// LAW: a frame the grammar refuses is answered `ParseError` with a null
/// id (no id of the unreadable request is echoed).
pub proof fn lemma_parse_error(s: Seq<char>)
    requires
        parse_text(s) is None,
    ensures
        spec_dispatch(s) == (SpecResponse {
            id: None::<SpecValue>,
            body: Err(ErrorKind::ParseError),
        }),
{
}

/// LAW: `ping` is always in the method table and answers null, whatever the
/// parameters.
pub proof fn lemma_ping_routes(ps: Seq<SpecValue>)
    ensures
        route("ping"@, ps) == Some(SpecValue::Null),
{
}

/// Dispatch a text frame and render the reply: the full
/// request-text-to-reply-text pipeline of one frame.
pub fn dispatch_text(frame: &str, session: &Session) -> (out: String)
    ensures
        out@ == resp_text(spec_dispatch(frame@)),
{
    let r = dispatch(frame, session);
    encode_response(r)
}

} // verus!
