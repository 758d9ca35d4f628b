//! The wire protocol: envelopes, results, frames.
//!
//! Requests go up as `client-request` and are answered by `server-response`;
//! frames come down as `server-request` and, where they ask something, are
//! answered by `client-response`. What comes of a request is
//! `{ok: true, value}` or `{ok: false, error}`.
use vstd::prelude::*;
use vstd::string::*;

use crate::json::{
    Json, JsonTree, Num, copy_all, copy_option, flag, has_entry, int_tree, json_option, lemma_entry,
    lemma_entry_some, lemma_with, lemma_with_some, member, owned_text, text_json, text_option,
    text_trees, texts_json, trees,
};
use crate::text::same;

verus! {

/// An error that a request is answered with.
#[derive(Debug, PartialEq)]
pub struct RpcError {
    /// What kind of error it is.
    pub code: String,
    /// What it says to people.
    pub message: String,
    /// What goes with it; `Null` where nothing does.
    pub details: Json,
}

/// The model of an error answer.
pub struct ErrorView {
    pub code: Seq<char>,
    pub message: Seq<char>,
    pub details: JsonTree,
}

impl View for RpcError {
    type V = ErrorView;

    open spec fn view(&self) -> ErrorView {
        ErrorView { code: self.code@, message: self.message@, details: self.details@ }
    }
}

/// An error without details.
pub open spec fn error_view(code: Seq<char>, message: Seq<char>) -> ErrorView {
    ErrorView { code, message, details: JsonTree::Null }
}

/// An error whose details hold a reason.
pub open spec fn reasoned_view(
    code: Seq<char>,
    message: Seq<char>,
    reason: Seq<char>,
) -> ErrorView {
    ErrorView {
        code,
        message,
        details: JsonTree::object().with("reason"@, JsonTree::Text(reason)),
    }
}

impl RpcError {
    /// An error without details.
    pub fn plain(code: &str, message: &str) -> (r: RpcError)
        ensures
            r@ == error_view(code@, message@),
    {
        RpcError { code: code.to_owned(), message: message.to_owned(), details: Json::Null }
    }

    /// An error whose details hold a reason.
    pub fn reasoned(code: &str, message: &str, reason: &str) -> (r: RpcError)
        ensures
            r@ == reasoned_view(code@, message@, reason@),
    {
        let details = Json::object().with("reason", Json::text(reason));
        RpcError { code: code.to_owned(), message: message.to_owned(), details }
    }

    /// An internal error.
    pub fn internal(message: &str) -> (r: RpcError)
        ensures
            r@ == error_view("internal"@, message@),
    {
        RpcError::plain("internal", message)
    }

    /// A request that is malformed.
    pub fn bad_request(message: &str) -> (r: RpcError)
        ensures
            r@ == error_view("bad-request"@, message@),
    {
        RpcError::plain("bad-request", message)
    }

    /// A request that names no session.
    pub fn session_not_found(session_id: &str) -> (r: RpcError)
        ensures
            r@ == error_view("session-not-found"@, "session not found: "@ + session_id@),
    {
        let mut message = "session not found: ".to_owned();
        message.append(session_id);
        RpcError { code: "session-not-found".to_owned(), message, details: Json::Null }
    }

    /// How it goes over the wire: without details where there are none.
    pub open spec fn tree(self) -> JsonTree {
        JsonTree::object().with("code"@, JsonTree::Text(self.code@)).with(
            "message"@,
            JsonTree::Text(self.message@),
        ).with_some(
            "details"@,
            if self.details@ is Null {
                None
            } else {
                Some(self.details@)
            },
        )
    }

    /// How it goes over the wire.
    pub fn to_json(&self) -> (r: Json)
        ensures
            r@ == self.tree(),
    {
        let details: Option<Json> = match &self.details {
            Json::Null => None,
            other => Some(other.copy()),
        };
        Json::object().with("code", Json::text(self.code.as_str())).with(
            "message",
            Json::text(self.message.as_str()),
        ).with_some("details", details)
    }

    /// Whether a value has the members that are needed, each of its type.
    pub open spec fn fits(t: JsonTree) -> bool {
        t is Object && t.at("code"@) is Text && t.at("message"@) is Text
    }

    /// Whether this is what a value says.
    pub open spec fn reads(self, t: JsonTree) -> bool {
        &&& t is Object
        &&& t.at("code"@) == JsonTree::Text(self.code@)
        &&& t.at("message"@) == JsonTree::Text(self.message@)
        &&& t.at("details"@) == self.details@
    }

    /// Reads an object off the wire.
    pub fn from_json(j: &Json) -> (r: Option<RpcError>)
        ensures
            match r {
                Some(v) => RpcError::fits(j@) && v.reads(j@),
                None => !RpcError::fits(j@),
            },
    {
        if !j.is_object() {
            return None;
        }
        match owned_text(j, "code") {
            Some(code) => match owned_text(j, "message") {
                Some(message) => Some(RpcError { code, message, details: member(j, "details") }),
                None => None,
            },
            None => None,
        }
    }
}

/// What is written is read back as it was.
pub proof fn law_rpc_error_round_trip(v: RpcError)
    ensures
        RpcError::fits(v.tree()),
        v.reads(v.tree()),
{
    reveal_strlit("code");
    reveal_strlit("message");
    reveal_strlit("details");
    assert("code"@.len() == 4 && "message"@.len() == 7 && "details"@.len() == 7 && "message"@[0]
        == 'm' && "details"@[0] == 'd');
    let details = if v.details@ is Null {
        None
    } else {
        Some(v.details@)
    };
    let t0 = JsonTree::object();
    let t1 = t0.with("code"@, JsonTree::Text(v.code@));
    let t2 = t1.with("message"@, JsonTree::Text(v.message@));
    lemma_with(t0, "code"@, JsonTree::Text(v.code@));
    lemma_with(t1, "message"@, JsonTree::Text(v.message@));
    lemma_with_some(t2, "details"@, details);
    assert(v.tree() == t2.with_some("details"@, details));
    assert(v.tree().get("code"@) == Some(JsonTree::Text(v.code@)));
    assert(v.tree().get("message"@) == Some(JsonTree::Text(v.message@)));
    assert(v.tree().get("details"@) == details);
}

/// Why a value could not be read off the wire.
#[derive(Debug, PartialEq)]
pub enum WireError {
    /// A result that says neither that it is one nor that it is an error.
    MissingOk,
    /// An error result without an error.
    MissingErrorBody,
    /// An error result whose error is malformed.
    BadErrorBody,
    /// An operation with another name.
    UnknownOp(String),
    /// A replacement without its first number.
    MissingStart,
    /// A replacement without its last number.
    MissingEnd,
    /// What is neither a text nor an object.
    NotAnOp,
}

impl WireError {
    /// What the error says to people.
    pub open spec fn text_view(self) -> Seq<char> {
        match self {
            WireError::MissingOk => "result missing ok discriminant"@,
            WireError::MissingErrorBody => "error result missing error body"@,
            WireError::BadErrorBody => "bad error body"@,
            WireError::UnknownOp(op) => "unknown surface op: "@ + op@,
            WireError::MissingStart => "replace op missing start"@,
            WireError::MissingEnd => "replace op missing end"@,
            WireError::NotAnOp => "surface op must be string or object"@,
        }
    }

    /// What the error says to people.
    pub fn message(&self) -> (r: String)
        ensures
            r@ == self.text_view(),
    {
        match self {
            WireError::MissingOk => "result missing ok discriminant".to_owned(),
            WireError::MissingErrorBody => "error result missing error body".to_owned(),
            WireError::BadErrorBody => "bad error body".to_owned(),
            WireError::UnknownOp(op) => {
                let mut s = "unknown surface op: ".to_owned();
                s.append(op.as_str());
                s
            },
            WireError::MissingStart => "replace op missing start".to_owned(),
            WireError::MissingEnd => "replace op missing end".to_owned(),
            WireError::NotAnOp => "surface op must be string or object".to_owned(),
        }
    }
}

/// What comes of a request.
#[derive(Debug, PartialEq)]
pub enum RpcResult {
    Success(Json),
    Failure(RpcError),
}

impl RpcResult {
    /// A result that is a value.
    pub fn ok(value: Json) -> (r: RpcResult)
        ensures
            r == RpcResult::Success(value),
    {
        RpcResult::Success(value)
    }

    /// How it goes over the wire.
    pub open spec fn tree(self) -> JsonTree {
        match self {
            RpcResult::Success(value) => JsonTree::object().with("ok"@, JsonTree::Bool(true)).with(
                "value"@,
                value@,
            ),
            RpcResult::Failure(e) => JsonTree::object().with("ok"@, JsonTree::Bool(false)).with(
                "error"@,
                e.tree(),
            ),
        }
    }

    /// How it goes over the wire.
    pub fn to_json(&self) -> (r: Json)
        ensures
            r@ == self.tree(),
    {
        match self {
            RpcResult::Success(value) => Json::object().with("ok", Json::Bool(true)).with(
                "value",
                value.copy(),
            ),
            RpcResult::Failure(e) => Json::object().with("ok", Json::Bool(false)).with(
                "error",
                e.to_json(),
            ),
        }
    }

    /// Why a value is no result; nothing where it is one.
    pub open spec fn fault(t: JsonTree) -> Option<WireError> {
        match t.at("ok"@).as_truth() {
            Some(true) => None,
            Some(false) => match t.get("error"@) {
                None => Some(WireError::MissingErrorBody),
                Some(e) => if RpcError::fits(e) {
                    None
                } else {
                    Some(WireError::BadErrorBody)
                },
            },
            None => Some(WireError::MissingOk),
        }
    }

    /// Whether a value is a result.
    pub open spec fn fits(t: JsonTree) -> bool {
        RpcResult::fault(t) is None
    }

    /// Whether this is what a value says. A missing value is `Null`.
    pub open spec fn reads(self, t: JsonTree) -> bool {
        match self {
            RpcResult::Success(value) => t.at("ok"@) == JsonTree::Bool(true) && value@ == t.at("value"@),
            RpcResult::Failure(e) => t.at("ok"@) == JsonTree::Bool(false) && e.reads(t.at("error"@)),
        }
    }

    /// Reads a result off the wire.
    pub fn from_json(j: &Json) -> (r: Result<RpcResult, WireError>)
        ensures
            match r {
                Ok(v) => RpcResult::fits(j@) && v.reads(j@),
                Err(e) => RpcResult::fault(j@) == Some(e),
            },
    {
        match j.bool_at("ok") {
            Some(true) => Ok(RpcResult::Success(member(j, "value"))),
            Some(false) => match j.get("error") {
                None => Err(WireError::MissingErrorBody),
                Some(e) => match RpcError::from_json(e) {
                    Some(e) => Ok(RpcResult::Failure(e)),
                    None => Err(WireError::BadErrorBody),
                },
            },
            None => Err(WireError::MissingOk),
        }
    }
}

/// What is written is read back as it was.
pub proof fn law_rpc_result_round_trip(v: RpcResult)
    ensures
        RpcResult::fits(v.tree()),
        v.reads(v.tree()),
{
    reveal_strlit("ok");
    reveal_strlit("value");
    reveal_strlit("error");
    assert("ok"@.len() == 2 && "value"@.len() == 5 && "error"@.len() == 5);
    let t0 = JsonTree::object();
    match v {
        RpcResult::Success(value) => {
            lemma_with(t0, "ok"@, JsonTree::Bool(true));
            let t1 = t0.with("ok"@, JsonTree::Bool(true));
            lemma_with(t1, "value"@, value@);
            assert(v.tree().get("ok"@) == Some(JsonTree::Bool(true)));
            assert(v.tree().get("value"@) == Some(value@));
        },
        RpcResult::Failure(e) => {
            law_rpc_error_round_trip(e);
            lemma_with(t0, "ok"@, JsonTree::Bool(false));
            let t1 = t0.with("ok"@, JsonTree::Bool(false));
            lemma_with(t1, "error"@, e.tree());
            assert(v.tree().get("ok"@) == Some(JsonTree::Bool(false)));
            assert(v.tree().get("error"@) == Some(e.tree()));
        },
    }
}

/// What an event does to the transcript.
#[derive(Debug, PartialEq)]
pub enum SurfaceOp {
    /// It comes behind what is there.
    Append,
    /// It takes the place of the events from `start` to `end`.
    Replace { start: u64, end: u64 },
}

impl SurfaceOp {
    /// How it goes over the wire.
    pub open spec fn tree(self) -> JsonTree {
        match self {
            SurfaceOp::Append => JsonTree::Text("append"@),
            SurfaceOp::Replace { start, end } => JsonTree::object().with(
                "op"@,
                JsonTree::Text("replace"@),
            ).with("start"@, JsonTree::Number(Num::Unsigned(start))).with(
                "end"@,
                JsonTree::Number(Num::Unsigned(end)),
            ),
        }
    }

    /// How it goes over the wire.
    pub fn to_json(&self) -> (r: Json)
        ensures
            r@ == self.tree(),
    {
        match self {
            SurfaceOp::Append => Json::text("append"),
            SurfaceOp::Replace { start, end } => Json::object().with(
                "op",
                Json::text("replace"),
            ).with("start", Json::number(*start)).with("end", Json::number(*end)),
        }
    }

    /// Whether a value is an operation.
    pub open spec fn fits(t: JsonTree) -> bool {
        ||| t == JsonTree::Text("append"@)
        ||| t is Object && t.at("op"@) == JsonTree::Text("replace"@) && t.at("start"@).as_nat()
            is Some && t.at("end"@).as_nat() is Some
    }

    /// Whether this is what a value says.
    pub open spec fn reads(self, t: JsonTree) -> bool {
        match self {
            SurfaceOp::Append => t == JsonTree::Text("append"@),
            SurfaceOp::Replace { start, end } => t is Object && t.at("start"@).as_nat() == Some(
                start,
            ) && t.at("end"@).as_nat() == Some(end),
        }
    }

    /// Whether an error is why a value is no operation.
    pub open spec fn refused(t: JsonTree, e: WireError) -> bool {
        match t {
            JsonTree::Object(_) => if t.at("op"@) != JsonTree::Text("replace"@) {
                e matches WireError::UnknownOp(op) && op@ == (match t.at("op"@).as_text() {
                    Some(s) => s,
                    None => Seq::empty(),
                })
            } else if t.at("start"@).as_nat() is None {
                e is MissingStart
            } else {
                e is MissingEnd
            },
            _ => e is NotAnOp,
        }
    }

    /// Reads an operation off the wire.
    pub fn from_json(j: &Json) -> (r: Result<SurfaceOp, WireError>)
        ensures
            match r {
                Ok(v) => SurfaceOp::fits(j@) && v.reads(j@),
                Err(e) => !SurfaceOp::fits(j@) && SurfaceOp::refused(j@, e),
            },
    {
        match j {
            Json::Text(s) => if same(s.as_str(), "append") {
                Ok(SurfaceOp::Append)
            } else {
                Err(WireError::NotAnOp)
            },
            Json::Object(_) => {
                let op: String = match j.str_at("op") {
                    Some(s) => s.to_owned(),
                    None => String::new(),
                };
                proof {
                    reveal_strlit("replace");
                    assert("replace"@.len() == 7);
                }
                if !same(op.as_str(), "replace") {
                    return Err(WireError::UnknownOp(op));
                }
                match j.u64_at("start") {
                    None => Err(WireError::MissingStart),
                    Some(start) => match j.u64_at("end") {
                        None => Err(WireError::MissingEnd),
                        Some(end) => Ok(SurfaceOp::Replace { start, end }),
                    },
                }
            },
            _ => Err(WireError::NotAnOp),
        }
    }
}

/// What is written is read back as it was.
pub proof fn law_surface_op_round_trip(v: SurfaceOp)
    ensures
        SurfaceOp::fits(v.tree()),
        v.reads(v.tree()),
{
    match v {
        SurfaceOp::Append => {},
        SurfaceOp::Replace { start, end } => {
            reveal_strlit("op");
            reveal_strlit("start");
            reveal_strlit("end");
            assert("op"@.len() == 2 && "start"@.len() == 5 && "end"@.len() == 3);
            let n1 = JsonTree::Number(Num::Unsigned(start));
            let n2 = JsonTree::Number(Num::Unsigned(end));
            let t0 = JsonTree::object();
            let t1 = t0.with("op"@, JsonTree::Text("replace"@));
            let t2 = t1.with("start"@, n1);
            lemma_with(t0, "op"@, JsonTree::Text("replace"@));
            lemma_with(t1, "start"@, n1);
            lemma_with(t2, "end"@, n2);
            assert(v.tree().get("op"@) == Some(JsonTree::Text("replace"@)));
            assert(v.tree().get("start"@) == Some(n1));
            assert(v.tree().get("end"@) == Some(n2));
        },
    }
}

/// A truth value that may be missing.
pub open spec fn bool_option(b: Option<bool>) -> Option<JsonTree> {
    match b {
        Some(b) => Some(JsonTree::Bool(b)),
        None => None,
    }
}

/// Event numbers as an array.
pub open spec fn seqs_tree(v: Seq<u64>) -> JsonTree {
    JsonTree::Array(v.map_values(|n: u64| JsonTree::Number(Num::Unsigned(n))))
}

/// Event numbers that may be missing.
pub open spec fn seqs_option(v: Option<Vec<u64>>) -> Option<JsonTree> {
    match v {
        Some(v) => Some(seqs_tree(v@)),
        None => None,
    }
}

/// The event numbers that an array holds, where it holds nothing else.
pub open spec fn seqs_from(t: JsonTree) -> Option<Seq<u64>> {
    match t {
        JsonTree::Array(items) => if forall|i: int|
            0 <= i < items.len() ==> (#[trigger] items[i]).as_nat() is Some {
            Some(items.map_values(|t: JsonTree| t.as_nat()->0))
        } else {
            None
        },
        _ => None,
    }
}

proof fn lemma_seqs_round_trip(v: Seq<u64>)
    ensures
        seqs_from(seqs_tree(v)) == Some(v),
{
    let items = v.map_values(|n: u64| JsonTree::Number(Num::Unsigned(n)));
    assert forall|i: int| 0 <= i < items.len() implies (#[trigger] items[i]).as_nat() is Some by {}
    assert(items.map_values(|t: JsonTree| t.as_nat()->0) =~= v);
}

pub fn seqs_json(v: &Vec<u64>) -> (r: Json)
    ensures
        r@ == seqs_tree(v@),
{
    let mut out: Vec<Json> = Vec::new();
    let mut i: usize = 0;
    let ghost wanted = v@.map_values(|n: u64| JsonTree::Number(Num::Unsigned(n)));
    while i < v.len()
        invariant
            i <= v.len(),
            wanted == v@.map_values(|n: u64| JsonTree::Number(Num::Unsigned(n))),
            trees(out@) == wanted.take(i as int),
        decreases v.len() - i,
    {
        let item = Json::number(v[i]);
        proof {
            assert(trees(out@.push(item)) =~= trees(out@).push(item@));
            assert(wanted.take(i + 1) =~= wanted.take(i as int).push(wanted[i as int]));
        }
        out.push(item);
        i = i + 1;
    }
    assert(wanted.take(wanted.len() as int) =~= wanted);
    Json::array(out)
}

/// Reads event numbers that may be missing.
fn optional_seqs(j: &Json, key: &str) -> (r: Option<Option<Vec<u64>>>)
    ensures
        match r {
            Some(Some(v)) => seqs_from(j@.at(key@)) == Some(v@),
            Some(None) => j@.at(key@) is Null,
            None => !(j@.at(key@) is Null) && seqs_from(j@.at(key@)) is None,
        },
{
    let value = member(j, key);
    if let Json::Null = value {
        return Some(None);
    }
    let items = match value.as_array() {
        Some(v) => v,
        None => {
            return None;
        },
    };
    let ghost all = trees(items@);
    let mut out: Vec<u64> = Vec::new();
    let mut i: usize = 0;
    while i < items.len()
        invariant
            i <= items.len(),
            out.len() == i,
            all == trees(items@),
            value@ == JsonTree::Array(all),
            value@ == j@.at(key@),
            forall|k: int| 0 <= k < i ==> (#[trigger] all[k]).as_nat() == Some(out@[k]),
        decreases items.len() - i,
    {
        assert(all[i as int] == items@[i as int]@);
        match items[i].as_u64() {
            Some(n) => {
                out.push(n);
            },
            None => {
                return None;
            },
        }
        i = i + 1;
    }
    proof {
        assert(all.map_values(|t: JsonTree| t.as_nat()->0) =~= out@);
    }
    Some(Some(out))
}

/// Reads a text that may be missing.
fn optional_text(j: &Json, key: &str) -> (r: Option<Option<String>>)
    ensures
        match r {
            Some(Some(s)) => j@.at(key@) == JsonTree::Text(s@),
            Some(None) => j@.at(key@) is Null,
            None => !(j@.at(key@) is Null || j@.at(key@) is Text),
        },
{
    match member(j, key) {
        Json::Text(s) => Some(Some(s)),
        Json::Null => Some(None),
        _ => None,
    }
}

/// Reads a truth value that may be missing.
fn optional_bool(j: &Json, key: &str) -> (r: Option<Option<bool>>)
    ensures
        match r {
            Some(Some(b)) => j@.at(key@) == JsonTree::Bool(b),
            Some(None) => j@.at(key@) is Null,
            None => !(j@.at(key@) is Null || j@.at(key@) is Bool),
        },
{
    match member(j, key) {
        Json::Bool(b) => Some(Some(b)),
        Json::Null => Some(None),
        _ => None,
    }
}

/// Reads a value that may be missing.
fn optional_json(j: &Json, key: &str) -> (r: Option<Json>)
    ensures
        match r {
            Some(v) => j@.at(key@) == v@ && !(v@ is Null),
            None => j@.at(key@) is Null,
        },
{
    match member(j, key) {
        Json::Null => None,
        other => Some(other),
    }
}

/// A request of a client.
#[derive(Debug, PartialEq)]
pub struct ClientRequest {
    /// Always `client-request`.
    pub ty: String,
    /// The token that the answer echoes.
    pub rpc_id: String,
    /// The dotted name of the method.
    pub method: String,
    /// What the method is given.
    pub payload: Json,
}

impl ClientRequest {
    /// How it goes over the wire.
    pub open spec fn tree(self) -> JsonTree {
        JsonTree::object()
            .with("type"@, JsonTree::Text(self.ty@))
            .with("rpcId"@, JsonTree::Text(self.rpc_id@))
            .with("method"@, JsonTree::Text(self.method@))
            .with("payload"@, self.payload@)
    }

    /// How it goes over the wire.
    pub fn to_json(&self) -> (r: Json)
        ensures
            r@ == self.tree(),
    {
        Json::object()
            .with("type", Json::text(self.ty.as_str()))
            .with("rpcId", Json::text(self.rpc_id.as_str()))
            .with("method", Json::text(self.method.as_str()))
            .with("payload", self.payload.copy())
    }

    /// Whether a value has the members that are needed, each of its type.
    pub open spec fn fits(t: JsonTree) -> bool {
        &&& t is Object
        &&& t.at("type"@) is Text
        &&& t.at("rpcId"@) is Text
        &&& t.at("method"@) is Text
    }

    /// Whether this is what a value says.
    pub open spec fn reads(self, t: JsonTree) -> bool {
        &&& t is Object
        &&& t.at("type"@) == JsonTree::Text(self.ty@)
        &&& t.at("rpcId"@) == JsonTree::Text(self.rpc_id@)
        &&& t.at("method"@) == JsonTree::Text(self.method@)
        &&& t.at("payload"@) == self.payload@
    }

    /// Reads an object off the wire.
    pub fn from_json(j: &Json) -> (r: Option<ClientRequest>)
        ensures
            match r {
                Some(v) => ClientRequest::fits(j@) && v.reads(j@),
                None => !ClientRequest::fits(j@),
            },
    {
        if !j.is_object() {
            return None;
        }
        let ty = match owned_text(j, "type") {
            Some(v) => v,
            None => { return None; },
        };
        let rpc_id = match owned_text(j, "rpcId") {
            Some(v) => v,
            None => { return None; },
        };
        let method = match owned_text(j, "method") {
            Some(v) => v,
            None => { return None; },
        };
        let payload = member(j, "payload");
        Some(ClientRequest { ty, rpc_id, method, payload })
    }

}

/// The answer to a request.
#[derive(Debug, PartialEq)]
pub struct ServerResponse {
    /// Always `server-response`.
    pub ty: String,
    /// The token of the request.
    pub rpc_id: String,
    /// What came of it; errors too come this way.
    pub result: RpcResult,
}

impl ServerResponse {
    /// How it goes over the wire.
    pub open spec fn tree(self) -> JsonTree {
        JsonTree::object()
            .with("type"@, JsonTree::Text(self.ty@))
            .with("rpcId"@, JsonTree::Text(self.rpc_id@))
            .with("result"@, self.result.tree())
    }

    /// How it goes over the wire.
    pub fn to_json(&self) -> (r: Json)
        ensures
            r@ == self.tree(),
    {
        Json::object()
            .with("type", Json::text(self.ty.as_str()))
            .with("rpcId", Json::text(self.rpc_id.as_str()))
            .with("result", self.result.to_json())
    }

    /// Whether a value has the members that are needed, each of its type.
    pub open spec fn fits(t: JsonTree) -> bool {
        &&& t is Object
        &&& t.at("type"@) is Text
        &&& t.at("rpcId"@) is Text
        &&& RpcResult::fits(t.at("result"@))
    }

    /// Whether this is what a value says.
    pub open spec fn reads(self, t: JsonTree) -> bool {
        &&& t is Object
        &&& t.at("type"@) == JsonTree::Text(self.ty@)
        &&& t.at("rpcId"@) == JsonTree::Text(self.rpc_id@)
        &&& self.result.reads(t.at("result"@))
    }

    /// Reads an object off the wire.
    pub fn from_json(j: &Json) -> (r: Option<ServerResponse>)
        ensures
            match r {
                Some(v) => ServerResponse::fits(j@) && v.reads(j@),
                None => !ServerResponse::fits(j@),
            },
    {
        if !j.is_object() {
            return None;
        }
        let ty = match owned_text(j, "type") {
            Some(v) => v,
            None => { return None; },
        };
        let rpc_id = match owned_text(j, "rpcId") {
            Some(v) => v,
            None => { return None; },
        };
        let result = match RpcResult::from_json(&member(j, "result")) {
            Ok(v) => v,
            Err(_) => { return None; },
        };
        Some(ServerResponse { ty, rpc_id, result })
    }

}

/// A frame that is pushed to a client.
#[derive(Debug, PartialEq)]
pub struct ServerRequest {
    /// Always `server-request`.
    pub ty: String,
    /// The token that an answer echoes.
    pub rpc_id: String,
    /// The kind of frame.
    pub method: String,
    /// What the frame holds.
    pub payload: Json,
}

impl Clone for ServerRequest {
    fn clone(&self) -> (r: ServerRequest)
        ensures
            r.ty@ == self.ty@,
            r.rpc_id@ == self.rpc_id@,
            r.method@ == self.method@,
            r.payload@ == self.payload@,
    {
        ServerRequest {
            ty: self.ty.clone(),
            rpc_id: self.rpc_id.clone(),
            method: self.method.clone(),
            payload: self.payload.copy(),
        }
    }
}

impl ServerRequest {
    /// How it goes over the wire.
    pub open spec fn tree(self) -> JsonTree {
        JsonTree::object()
            .with("type"@, JsonTree::Text(self.ty@))
            .with("rpcId"@, JsonTree::Text(self.rpc_id@))
            .with("method"@, JsonTree::Text(self.method@))
            .with("payload"@, self.payload@)
    }

    /// How it goes over the wire.
    pub fn to_json(&self) -> (r: Json)
        ensures
            r@ == self.tree(),
    {
        Json::object()
            .with("type", Json::text(self.ty.as_str()))
            .with("rpcId", Json::text(self.rpc_id.as_str()))
            .with("method", Json::text(self.method.as_str()))
            .with("payload", self.payload.copy())
    }

    /// Whether a value has the members that are needed, each of its type.
    pub open spec fn fits(t: JsonTree) -> bool {
        &&& t is Object
        &&& t.at("type"@) is Text
        &&& t.at("rpcId"@) is Text
        &&& t.at("method"@) is Text
    }

    /// Whether this is what a value says.
    pub open spec fn reads(self, t: JsonTree) -> bool {
        &&& t is Object
        &&& t.at("type"@) == JsonTree::Text(self.ty@)
        &&& t.at("rpcId"@) == JsonTree::Text(self.rpc_id@)
        &&& t.at("method"@) == JsonTree::Text(self.method@)
        &&& t.at("payload"@) == self.payload@
    }

    /// Reads an object off the wire.
    pub fn from_json(j: &Json) -> (r: Option<ServerRequest>)
        ensures
            match r {
                Some(v) => ServerRequest::fits(j@) && v.reads(j@),
                None => !ServerRequest::fits(j@),
            },
    {
        if !j.is_object() {
            return None;
        }
        let ty = match owned_text(j, "type") {
            Some(v) => v,
            None => { return None; },
        };
        let rpc_id = match owned_text(j, "rpcId") {
            Some(v) => v,
            None => { return None; },
        };
        let method = match owned_text(j, "method") {
            Some(v) => v,
            None => { return None; },
        };
        let payload = member(j, "payload");
        Some(ServerRequest { ty, rpc_id, method, payload })
    }

}

/// The answer to a pushed frame.
#[derive(Debug, PartialEq)]
pub struct ClientResponse {
    /// Always `client-response`.
    pub ty: String,
    /// The token of the frame.
    pub rpc_id: String,
    /// What the client answers.
    pub result: RpcResult,
}

impl ClientResponse {
    /// How it goes over the wire.
    pub open spec fn tree(self) -> JsonTree {
        JsonTree::object()
            .with("type"@, JsonTree::Text(self.ty@))
            .with("rpcId"@, JsonTree::Text(self.rpc_id@))
            .with("result"@, self.result.tree())
    }

    /// How it goes over the wire.
    pub fn to_json(&self) -> (r: Json)
        ensures
            r@ == self.tree(),
    {
        Json::object()
            .with("type", Json::text(self.ty.as_str()))
            .with("rpcId", Json::text(self.rpc_id.as_str()))
            .with("result", self.result.to_json())
    }

    /// Whether a value has the members that are needed, each of its type.
    pub open spec fn fits(t: JsonTree) -> bool {
        &&& t is Object
        &&& t.at("type"@) is Text
        &&& t.at("rpcId"@) is Text
        &&& RpcResult::fits(t.at("result"@))
    }

    /// Whether this is what a value says.
    pub open spec fn reads(self, t: JsonTree) -> bool {
        &&& t is Object
        &&& t.at("type"@) == JsonTree::Text(self.ty@)
        &&& t.at("rpcId"@) == JsonTree::Text(self.rpc_id@)
        &&& self.result.reads(t.at("result"@))
    }

    /// Reads an object off the wire.
    pub fn from_json(j: &Json) -> (r: Option<ClientResponse>)
        ensures
            match r {
                Some(v) => ClientResponse::fits(j@) && v.reads(j@),
                None => !ClientResponse::fits(j@),
            },
    {
        if !j.is_object() {
            return None;
        }
        let ty = match owned_text(j, "type") {
            Some(v) => v,
            None => { return None; },
        };
        let rpc_id = match owned_text(j, "rpcId") {
            Some(v) => v,
            None => { return None; },
        };
        let result = match RpcResult::from_json(&member(j, "result")) {
            Ok(v) => v,
            Err(_) => { return None; },
        };
        Some(ClientResponse { ty, rpc_id, result })
    }

}

/// Whether an answer was taken.
#[derive(Debug, PartialEq)]
pub struct RespondReceipt {
    /// Whether it was.
    pub accepted: bool,
    /// Why it was not.
    pub reason: Option<String>,
}

impl RespondReceipt {
    /// How it goes over the wire.
    pub open spec fn tree(self) -> JsonTree {
        JsonTree::object()
            .with("accepted"@, JsonTree::Bool(self.accepted))
            .with_some("reason"@, text_option(self.reason))
    }

    /// How it goes over the wire.
    pub fn to_json(&self) -> (r: Json)
        ensures
            r@ == self.tree(),
    {
        Json::object()
            .with("accepted", Json::Bool(self.accepted))
            .with_some("reason", text_json(&self.reason))
    }

}

/// An event as clients see it.
#[derive(Debug, PartialEq)]
pub struct SessionEvent {
    /// The kind of event.
    pub ty: String,
    /// Its number.
    pub seq: u64,
    /// When it happened, in milliseconds.
    pub time: i64,
    /// What it holds.
    pub data: Json,
    /// The events that it was made from.
    pub source_event_seqs: Option<Vec<u64>>,
    /// What it does to the transcript.
    pub surface_op: Option<SurfaceOp>,
    /// Whether a reader that does not know it may pass over it.
    pub ignorable: Option<bool>,
}

impl SessionEvent {
    /// How it goes over the wire.
    pub open spec fn tree(self) -> JsonTree {
        JsonTree::object()
            .with("type"@, JsonTree::Text(self.ty@))
            .with("seq"@, JsonTree::Number(Num::Unsigned(self.seq)))
            .with("time"@, int_tree(self.time))
            .with("data"@, self.data@)
            .with_some("sourceEventSeqs"@, seqs_option(self.source_event_seqs))
            .with_some(
                "surfaceOp"@,
                match self.surface_op {
                    Some(v) => Some(v.tree()),
                    None => None,
                },
            )
            .with_some("ignorable"@, bool_option(self.ignorable))
    }

    /// How it goes over the wire.
    pub fn to_json(&self) -> (r: Json)
        ensures
            r@ == self.tree(),
    {
        Json::object()
            .with("type", Json::text(self.ty.as_str()))
            .with("seq", Json::number(self.seq))
            .with("time", Json::integer(self.time))
            .with("data", self.data.copy())
            .with_some(
                "sourceEventSeqs",
                match &self.source_event_seqs {
                    Some(v) => Some(seqs_json(v)),
                    None => None,
                },
            )
            .with_some(
                "surfaceOp",
                match &self.surface_op {
                    Some(v) => Some(v.to_json()),
                    None => None,
                },
            )
            .with_some(
                "ignorable",
                match self.ignorable {
                    Some(b) => Some(Json::Bool(b)),
                    None => None,
                },
            )
    }

    /// Whether a value has the members that are needed, each of its type.
    pub open spec fn fits(t: JsonTree) -> bool {
        &&& t is Object
        &&& t.at("type"@) is Text
        &&& t.at("seq"@).as_nat() is Some
        &&& t.at("time"@).as_int() is Some
        &&& t.get("data"@) is Some
        &&& (t.at("sourceEventSeqs"@) is Null || seqs_from(t.at("sourceEventSeqs"@)) is Some)
        &&& (t.at("surfaceOp"@) is Null || SurfaceOp::fits(t.at("surfaceOp"@)))
        &&& (t.at("ignorable"@) is Bool || t.at("ignorable"@) is Null)
    }

    /// Whether this is what a value says.
    pub open spec fn reads(self, t: JsonTree) -> bool {
        &&& t is Object
        &&& t.at("type"@) == JsonTree::Text(self.ty@)
        &&& t.at("seq"@).as_nat() == Some(self.seq)
        &&& t.at("time"@).as_int() == Some(self.time)
        &&& t.at("data"@) == self.data@
        &&& match self.source_event_seqs {
            Some(v) => seqs_from(t.at("sourceEventSeqs"@)) == Some(v@),
            None => t.at("sourceEventSeqs"@) is Null,
        }
        &&& match self.surface_op {
            Some(v) => v.reads(t.at("surfaceOp"@)),
            None => t.at("surfaceOp"@) is Null,
        }
        &&& match self.ignorable {
            Some(b) => t.at("ignorable"@) == JsonTree::Bool(b),
            None => t.at("ignorable"@) is Null,
        }
    }

    /// Reads an object off the wire.
    pub fn from_json(j: &Json) -> (r: Option<SessionEvent>)
        ensures
            match r {
                Some(v) => SessionEvent::fits(j@) && v.reads(j@),
                None => !SessionEvent::fits(j@),
            },
    {
        if !j.is_object() {
            return None;
        }
        let ty = match owned_text(j, "type") {
            Some(v) => v,
            None => { return None; },
        };
        let seq: u64 = match j.u64_at("seq") {
            Some(v) => v,
            None => { return None; },
        };
        let time: i64 = match j.i64_at("time") {
            Some(v) => v,
            None => { return None; },
        };
        let data = match j.get("data") {
            Some(v) => v.copy(),
            None => { return None; },
        };
        let source_event_seqs = match optional_seqs(j, "sourceEventSeqs") {
            Some(v) => v,
            None => { return None; },
        };
        let surface_op_json = member(j, "surfaceOp");
        let surface_op: Option<SurfaceOp> = match surface_op_json {
            Json::Null => None,
            _ => match SurfaceOp::from_json(&surface_op_json) {
                Ok(v) => Some(v),
                Err(_) => { return None; },
            },
        };
        let ignorable = match optional_bool(j, "ignorable") {
            Some(v) => v,
            None => { return None; },
        };
        Some(SessionEvent { ty, seq, time, data, source_event_seqs, surface_op, ignorable })
    }

}

/// What a host says of itself.
#[derive(Debug, PartialEq)]
pub struct DescribeValue {
    /// The version of the host.
    pub version: String,
    /// The directory it works in.
    pub cwd: String,
    /// The provider in use.
    pub provider: Option<String>,
    /// The model in use.
    pub model: Option<String>,
    /// The models to choose from.
    pub models: Vec<String>,
    /// The levels of effort.
    pub efforts: Vec<String>,
    /// The names of the permission presets.
    pub permissions: Vec<String>,
    /// The agent presets.
    pub presets: Vec<Json>,
    /// The names of the workspaces.
    pub workspaces: Vec<String>,
    /// How many sessions are attached.
    pub attached_sessions: u64,
    /// Whether the host opens paths.
    pub can_open_path: bool,
}

impl DescribeValue {
    /// How it goes over the wire.
    pub open spec fn tree(self) -> JsonTree {
        JsonTree::object()
            .with("version"@, JsonTree::Text(self.version@))
            .with("cwd"@, JsonTree::Text(self.cwd@))
            .with_some("provider"@, text_option(self.provider))
            .with_some("model"@, text_option(self.model))
            .with("models"@, JsonTree::Array(text_trees(self.models@)))
            .with("efforts"@, JsonTree::Array(text_trees(self.efforts@)))
            .with("permissions"@, JsonTree::Array(text_trees(self.permissions@)))
            .with("presets"@, JsonTree::Array(trees(self.presets@)))
            .with("workspaces"@, JsonTree::Array(text_trees(self.workspaces@)))
            .with("attachedSessions"@, JsonTree::Number(Num::Unsigned(self.attached_sessions)))
            .with("canOpenPath"@, JsonTree::Bool(self.can_open_path))
    }

    /// How it goes over the wire.
    pub fn to_json(&self) -> (r: Json)
        ensures
            r@ == self.tree(),
    {
        Json::object()
            .with("version", Json::text(self.version.as_str()))
            .with("cwd", Json::text(self.cwd.as_str()))
            .with_some("provider", text_json(&self.provider))
            .with_some("model", text_json(&self.model))
            .with("models", texts_json(&self.models))
            .with("efforts", texts_json(&self.efforts))
            .with("permissions", texts_json(&self.permissions))
            .with("presets", Json::array(copy_all(&self.presets)))
            .with("workspaces", texts_json(&self.workspaces))
            .with("attachedSessions", Json::number(self.attached_sessions))
            .with("canOpenPath", Json::Bool(self.can_open_path))
    }

}

/// Values folded out of a log.
#[derive(Debug, PartialEq)]
pub struct Projections {
    /// The last event that they take in; -1 for an empty log.
    pub as_of_seq: i64,
    /// The values.
    pub values: Json,
}

impl Projections {
    /// How it goes over the wire.
    pub open spec fn tree(self) -> JsonTree {
        JsonTree::object()
            .with("asOfSeq"@, int_tree(self.as_of_seq))
            .with("values"@, self.values@)
    }

    /// How it goes over the wire.
    pub fn to_json(&self) -> (r: Json)
        ensures
            r@ == self.tree(),
    {
        Json::object()
            .with("asOfSeq", Json::integer(self.as_of_seq))
            .with("values", self.values.copy())
    }

}

/// One session in a list.
#[derive(Debug, PartialEq)]
pub struct SessionSummary {
    /// Its id.
    pub session_id: String,
    /// When it last changed, in milliseconds.
    pub updated_at: u64,
    /// Whether a turn is running.
    pub running: bool,
    /// Whether no turn has started yet.
    pub blank: bool,
    /// The session that it comes from.
    pub parent_session_id: Option<String>,
    /// How it comes from it.
    pub origin: Option<String>,
    /// The directory it works in.
    pub cwd: Option<String>,
    /// Its preset.
    pub agent_preset: Option<String>,
    /// Its title.
    pub projections: Option<Projections>,
}

impl SessionSummary {
    /// How it goes over the wire.
    pub open spec fn tree(self) -> JsonTree {
        JsonTree::object()
            .with("sessionId"@, JsonTree::Text(self.session_id@))
            .with("updatedAt"@, JsonTree::Number(Num::Unsigned(self.updated_at)))
            .with("running"@, JsonTree::Bool(self.running))
            .with("blank"@, JsonTree::Bool(self.blank))
            .with_some("parentSessionId"@, text_option(self.parent_session_id))
            .with_some("origin"@, text_option(self.origin))
            .with_some("cwd"@, text_option(self.cwd))
            .with_some("agentPreset"@, text_option(self.agent_preset))
            .with_some(
                "projections"@,
                match self.projections {
                    Some(v) => Some(v.tree()),
                    None => None,
                },
            )
    }

    /// How it goes over the wire.
    pub fn to_json(&self) -> (r: Json)
        ensures
            r@ == self.tree(),
    {
        Json::object()
            .with("sessionId", Json::text(self.session_id.as_str()))
            .with("updatedAt", Json::number(self.updated_at))
            .with("running", Json::Bool(self.running))
            .with("blank", Json::Bool(self.blank))
            .with_some("parentSessionId", text_json(&self.parent_session_id))
            .with_some("origin", text_json(&self.origin))
            .with_some("cwd", text_json(&self.cwd))
            .with_some("agentPreset", text_json(&self.agent_preset))
            .with_some(
                "projections",
                match &self.projections {
                    Some(v) => Some(v.to_json()),
                    None => None,
                },
            )
    }

}

/// One event of a history page.
#[derive(Debug, PartialEq)]
pub struct HistoryEntry {
    /// The event.
    pub event: SessionEvent,
    /// How it is to be shown.
    pub view: Option<Json>,
}

impl HistoryEntry {
    /// How it goes over the wire.
    pub open spec fn tree(self) -> JsonTree {
        JsonTree::object()
            .with("event"@, self.event.tree())
            .with_some("view"@, json_option(self.view))
    }

    /// How it goes over the wire.
    pub fn to_json(&self) -> (r: Json)
        ensures
            r@ == self.tree(),
    {
        Json::object()
            .with("event", self.event.to_json())
            .with_some("view", copy_option(&self.view))
    }

}

/// How a run of them goes over the wire.
pub open spec fn history_entry_trees(v: Seq<HistoryEntry>) -> JsonTree {
    JsonTree::Array(v.map_values(|x: HistoryEntry| x.tree()))
}

fn history_entry_list(v: &Vec<HistoryEntry>) -> (r: Json)
    ensures
        r@ == history_entry_trees(v@),
{
    let mut out: Vec<Json> = Vec::new();
    let mut i: usize = 0;
    let ghost wanted = v@.map_values(|x: HistoryEntry| x.tree());
    while i < v.len()
        invariant
            i <= v.len(),
            wanted == v@.map_values(|x: HistoryEntry| x.tree()),
            trees(out@) == wanted.take(i as int),
        decreases v.len() - i,
    {
        let item = v[i].to_json();
        proof {
            assert(trees(out@.push(item)) =~= trees(out@).push(item@));
            assert(wanted.take(i + 1) =~= wanted.take(i as int).push(wanted[i as int]));
        }
        out.push(item);
        i = i + 1;
    }
    assert(wanted.take(wanted.len() as int) =~= wanted);
    Json::array(out)
}

/// A page of history.
#[derive(Debug, PartialEq)]
pub struct HistoryValue {
    /// Its events, in order.
    pub events: Vec<HistoryEntry>,
    /// Whether there is an earlier page.
    pub has_more: bool,
    /// Where the earlier page ends; 0 where there is none.
    pub cut: u64,
    /// Only on the last page.
    pub projections: Option<Projections>,
}

impl HistoryValue {
    /// How it goes over the wire.
    pub open spec fn tree(self) -> JsonTree {
        JsonTree::object()
            .with("events"@, history_entry_trees(self.events@))
            .with("hasMore"@, JsonTree::Bool(self.has_more))
            .with("cut"@, JsonTree::Number(Num::Unsigned(self.cut)))
            .with_some(
                "projections"@,
                match self.projections {
                    Some(v) => Some(v.tree()),
                    None => None,
                },
            )
    }

    /// How it goes over the wire.
    pub fn to_json(&self) -> (r: Json)
        ensures
            r@ == self.tree(),
    {
        Json::object()
            .with("events", history_entry_list(&self.events))
            .with("hasMore", Json::Bool(self.has_more))
            .with("cut", Json::number(self.cut))
            .with_some(
                "projections",
                match &self.projections {
                    Some(v) => Some(v.to_json()),
                    None => None,
                },
            )
    }

}

/// One workspace in a list.
#[derive(Debug, PartialEq)]
pub struct WorkspaceView {
    /// Its id.
    pub workspace_id: String,
    /// Its path.
    pub path: String,
    /// Its name.
    pub title: String,
    /// Its sessions.
    pub session_ids: Vec<String>,
    /// When it was made.
    pub created_at: String,
    /// When it last changed.
    pub updated_at: String,
}

impl WorkspaceView {
    /// How it goes over the wire.
    pub open spec fn tree(self) -> JsonTree {
        JsonTree::object()
            .with("workspaceId"@, JsonTree::Text(self.workspace_id@))
            .with("path"@, JsonTree::Text(self.path@))
            .with("title"@, JsonTree::Text(self.title@))
            .with("sessionIds"@, JsonTree::Array(text_trees(self.session_ids@)))
            .with("createdAt"@, JsonTree::Text(self.created_at@))
            .with("updatedAt"@, JsonTree::Text(self.updated_at@))
    }

    /// How it goes over the wire.
    pub fn to_json(&self) -> (r: Json)
        ensures
            r@ == self.tree(),
    {
        Json::object()
            .with("workspaceId", Json::text(self.workspace_id.as_str()))
            .with("path", Json::text(self.path.as_str()))
            .with("title", Json::text(self.title.as_str()))
            .with("sessionIds", texts_json(&self.session_ids))
            .with("createdAt", Json::text(self.created_at.as_str()))
            .with("updatedAt", Json::text(self.updated_at.as_str()))
    }

}

/// How a run of them goes over the wire.
pub open spec fn workspace_view_trees(v: Seq<WorkspaceView>) -> JsonTree {
    JsonTree::Array(v.map_values(|x: WorkspaceView| x.tree()))
}

fn workspace_view_list(v: &Vec<WorkspaceView>) -> (r: Json)
    ensures
        r@ == workspace_view_trees(v@),
{
    let mut out: Vec<Json> = Vec::new();
    let mut i: usize = 0;
    let ghost wanted = v@.map_values(|x: WorkspaceView| x.tree());
    while i < v.len()
        invariant
            i <= v.len(),
            wanted == v@.map_values(|x: WorkspaceView| x.tree()),
            trees(out@) == wanted.take(i as int),
        decreases v.len() - i,
    {
        let item = v[i].to_json();
        proof {
            assert(trees(out@.push(item)) =~= trees(out@).push(item@));
            assert(wanted.take(i + 1) =~= wanted.take(i as int).push(wanted[i as int]));
        }
        out.push(item);
        i = i + 1;
    }
    assert(wanted.take(wanted.len() as int) =~= wanted);
    Json::array(out)
}

/// The workspaces.
#[derive(Debug, PartialEq)]
pub struct WorkspaceListValue {
    /// Each of them.
    pub items: Vec<WorkspaceView>,
    /// The archived sessions.
    pub archived_session_ids: Vec<String>,
}

impl WorkspaceListValue {
    /// How it goes over the wire.
    pub open spec fn tree(self) -> JsonTree {
        JsonTree::object()
            .with("items"@, workspace_view_trees(self.items@))
            .with("archivedSessionIds"@, JsonTree::Array(text_trees(self.archived_session_ids@)))
    }

    /// How it goes over the wire.
    pub fn to_json(&self) -> (r: Json)
        ensures
            r@ == self.tree(),
    {
        Json::object()
            .with("items", workspace_view_list(&self.items))
            .with("archivedSessionIds", texts_json(&self.archived_session_ids))
    }

}

/// What a subscriber starts from.
#[derive(Debug, PartialEq)]
pub struct SubscribedFrame {
    /// The session.
    pub session_id: String,
    /// The last event that was sent.
    pub last_seq: u64,
}

impl SubscribedFrame {
    /// How it goes over the wire.
    pub open spec fn tree(self) -> JsonTree {
        JsonTree::object()
            .with("sessionId"@, JsonTree::Text(self.session_id@))
            .with("lastSeq"@, JsonTree::Number(Num::Unsigned(self.last_seq)))
    }

    /// How it goes over the wire.
    pub fn to_json(&self) -> (r: Json)
        ensures
            r@ == self.tree(),
    {
        Json::object()
            .with("sessionId", Json::text(self.session_id.as_str()))
            .with("lastSeq", Json::number(self.last_seq))
    }

}

/// An event of a session.
#[derive(Debug, PartialEq)]
pub struct SessionEventFrame {
    /// The session.
    pub session_id: String,
    /// The event.
    pub event: SessionEvent,
    /// How it is to be shown.
    pub view: Option<Json>,
}

impl SessionEventFrame {
    /// How it goes over the wire.
    pub open spec fn tree(self) -> JsonTree {
        JsonTree::object()
            .with("sessionId"@, JsonTree::Text(self.session_id@))
            .with("event"@, self.event.tree())
            .with_some("view"@, json_option(self.view))
    }

    /// How it goes over the wire.
    pub fn to_json(&self) -> (r: Json)
        ensures
            r@ == self.tree(),
    {
        Json::object()
            .with("sessionId", Json::text(self.session_id.as_str()))
            .with("event", self.event.to_json())
            .with_some("view", copy_option(&self.view))
    }

}

/// A value folded out of a log that has changed.
#[derive(Debug, PartialEq)]
pub struct ProjectionFrame {
    /// The session.
    pub session_id: String,
    /// Which value.
    pub key: String,
    /// The value.
    pub value: Json,
    /// The last event that it takes in.
    pub seq: u64,
}

impl ProjectionFrame {
    /// How it goes over the wire.
    pub open spec fn tree(self) -> JsonTree {
        JsonTree::object()
            .with("sessionId"@, JsonTree::Text(self.session_id@))
            .with("key"@, JsonTree::Text(self.key@))
            .with("value"@, self.value@)
            .with("seq"@, JsonTree::Number(Num::Unsigned(self.seq)))
    }

    /// How it goes over the wire.
    pub fn to_json(&self) -> (r: Json)
        ensures
            r@ == self.tree(),
    {
        Json::object()
            .with("sessionId", Json::text(self.session_id.as_str()))
            .with("key", Json::text(self.key.as_str()))
            .with("value", self.value.copy())
            .with("seq", Json::number(self.seq))
    }

}

/// An answer to choose.
#[derive(Debug, PartialEq)]
pub struct QuestionOption {
    /// The label that the answer gives back.
    pub label: String,
    /// What it means.
    pub description: Option<String>,
}

impl QuestionOption {
    /// How it goes over the wire.
    pub open spec fn tree(self) -> JsonTree {
        JsonTree::object()
            .with("label"@, JsonTree::Text(self.label@))
            .with_some("description"@, text_option(self.description))
    }

    /// How it goes over the wire.
    pub fn to_json(&self) -> (r: Json)
        ensures
            r@ == self.tree(),
    {
        Json::object()
            .with("label", Json::text(self.label.as_str()))
            .with_some("description", text_json(&self.description))
    }

    /// Whether a value has the members that are needed, each of its type.
    pub open spec fn fits(t: JsonTree) -> bool {
        &&& t is Object
        &&& t.at("label"@) is Text
        &&& (t.at("description"@) is Text || t.at("description"@) is Null)
    }

    /// Whether this is what a value says.
    pub open spec fn reads(self, t: JsonTree) -> bool {
        &&& t is Object
        &&& t.at("label"@) == JsonTree::Text(self.label@)
        &&& match self.description {
            Some(s) => t.at("description"@) == JsonTree::Text(s@),
            None => t.at("description"@) is Null,
        }
    }

    /// Reads an object off the wire.
    pub fn from_json(j: &Json) -> (r: Option<QuestionOption>)
        ensures
            match r {
                Some(v) => QuestionOption::fits(j@) && v.reads(j@),
                None => !QuestionOption::fits(j@),
            },
    {
        if !j.is_object() {
            return None;
        }
        let label = match owned_text(j, "label") {
            Some(v) => v,
            None => { return None; },
        };
        let description = match optional_text(j, "description") {
            Some(v) => v,
            None => { return None; },
        };
        Some(QuestionOption { label, description })
    }

}

/// How a run of them goes over the wire.
pub open spec fn question_option_trees(v: Seq<QuestionOption>) -> JsonTree {
    JsonTree::Array(v.map_values(|x: QuestionOption| x.tree()))
}

/// How a run of them that may be missing goes over the wire.
pub open spec fn question_option_option(v: Option<Vec<QuestionOption>>) -> Option<JsonTree> {
    match v {
        Some(v) => Some(question_option_trees(v@)),
        None => None,
    }
}

fn question_option_list(v: &Vec<QuestionOption>) -> (r: Json)
    ensures
        r@ == question_option_trees(v@),
{
    let mut out: Vec<Json> = Vec::new();
    let mut i: usize = 0;
    let ghost wanted = v@.map_values(|x: QuestionOption| x.tree());
    while i < v.len()
        invariant
            i <= v.len(),
            wanted == v@.map_values(|x: QuestionOption| x.tree()),
            trees(out@) == wanted.take(i as int),
        decreases v.len() - i,
    {
        let item = v[i].to_json();
        proof {
            assert(trees(out@.push(item)) =~= trees(out@).push(item@));
            assert(wanted.take(i + 1) =~= wanted.take(i as int).push(wanted[i as int]));
        }
        out.push(item);
        i = i + 1;
    }
    assert(wanted.take(wanted.len() as int) =~= wanted);
    Json::array(out)
}

/// Whether a value is an array of them.
pub open spec fn question_option_list_fits(t: JsonTree) -> bool {
    t matches JsonTree::Array(items) && forall|i: int|
        0 <= i < items.len() ==> QuestionOption::fits(#[trigger] items[i])
}

/// Whether these are what an array says.
pub open spec fn question_option_list_reads(t: JsonTree, v: Seq<QuestionOption>) -> bool {
    t matches JsonTree::Array(items) && items.len() == v.len() && forall|i: int|
        0 <= i < items.len() ==> (#[trigger] v[i]).reads(items[i])
}

fn question_option_list_from(j: &Json) -> (r: Option<Vec<QuestionOption>>)
    ensures
        match r {
            Some(v) => question_option_list_fits(j@) && question_option_list_reads(j@, v@),
            None => !question_option_list_fits(j@),
        },
{
    let items = match j.as_array() {
        Some(v) => v,
        None => { return None; },
    };
    let ghost all = trees(items@);
    let mut out: Vec<QuestionOption> = Vec::new();
    let mut i: usize = 0;
    while i < items.len()
        invariant
            i <= items.len(),
            out.len() == i,
            all == trees(items@),
            j@ == JsonTree::Array(all),
            forall|k: int| 0 <= k < i ==> QuestionOption::fits(#[trigger] all[k]),
            forall|k: int| 0 <= k < i ==> (#[trigger] out@[k]).reads(all[k]),
        decreases items.len() - i,
    {
        assert(all[i as int] == items@[i as int]@);
        match QuestionOption::from_json(&items[i]) {
            Some(v) => {
                out.push(v);
            },
            None => {
                assert(!QuestionOption::fits(j@->Array_0[i as int]));
                return None;
            },
        }
        i = i + 1;
    }
    Some(out)
}

/// A question to the user.
#[derive(Debug, PartialEq)]
pub struct Question {
    /// The id that the answer gives back.
    pub id: String,
    /// The question.
    pub question: String,
    /// A heading.
    pub header: Option<String>,
    /// More text.
    pub detail: Option<String>,
    /// The answers to choose from.
    pub options: Option<Vec<QuestionOption>>,
    /// Whether more than one may be chosen.
    pub multi_select: Option<bool>,
    /// What the question is about.
    pub intent: Option<Json>,
    /// What goes with it.
    pub data: Option<Json>,
}

impl Question {
    /// How it goes over the wire.
    pub open spec fn tree(self) -> JsonTree {
        JsonTree::object()
            .with("id"@, JsonTree::Text(self.id@))
            .with("question"@, JsonTree::Text(self.question@))
            .with_some("header"@, text_option(self.header))
            .with_some("detail"@, text_option(self.detail))
            .with_some("options"@, question_option_option(self.options))
            .with_some("multiSelect"@, bool_option(self.multi_select))
            .with_some("intent"@, json_option(self.intent))
            .with_some("data"@, json_option(self.data))
    }

    /// How it goes over the wire.
    pub fn to_json(&self) -> (r: Json)
        ensures
            r@ == self.tree(),
    {
        Json::object()
            .with("id", Json::text(self.id.as_str()))
            .with("question", Json::text(self.question.as_str()))
            .with_some("header", text_json(&self.header))
            .with_some("detail", text_json(&self.detail))
            .with_some(
                "options",
                match &self.options {
                    Some(v) => Some(question_option_list(v)),
                    None => None,
                },
            )
            .with_some(
                "multiSelect",
                match self.multi_select {
                    Some(b) => Some(Json::Bool(b)),
                    None => None,
                },
            )
            .with_some("intent", copy_option(&self.intent))
            .with_some("data", copy_option(&self.data))
    }

    /// Whether a value has the members that are needed, each of its type.
    pub open spec fn fits(t: JsonTree) -> bool {
        &&& t is Object
        &&& t.at("id"@) is Text
        &&& t.at("question"@) is Text
        &&& (t.at("header"@) is Text || t.at("header"@) is Null)
        &&& (t.at("detail"@) is Text || t.at("detail"@) is Null)
        &&& (t.at("options"@) is Null || question_option_list_fits(t.at("options"@)))
        &&& (t.at("multiSelect"@) is Bool || t.at("multiSelect"@) is Null)
    }

    /// Whether this is what a value says.
    pub open spec fn reads(self, t: JsonTree) -> bool {
        &&& t is Object
        &&& t.at("id"@) == JsonTree::Text(self.id@)
        &&& t.at("question"@) == JsonTree::Text(self.question@)
        &&& match self.header {
            Some(s) => t.at("header"@) == JsonTree::Text(s@),
            None => t.at("header"@) is Null,
        }
        &&& match self.detail {
            Some(s) => t.at("detail"@) == JsonTree::Text(s@),
            None => t.at("detail"@) is Null,
        }
        &&& match self.options {
            Some(v) => question_option_list_reads(t.at("options"@), v@),
            None => t.at("options"@) is Null,
        }
        &&& match self.multi_select {
            Some(b) => t.at("multiSelect"@) == JsonTree::Bool(b),
            None => t.at("multiSelect"@) is Null,
        }
        &&& match self.intent {
            Some(j) => t.at("intent"@) == j@ && !(j@ is Null),
            None => t.at("intent"@) is Null,
        }
        &&& match self.data {
            Some(j) => t.at("data"@) == j@ && !(j@ is Null),
            None => t.at("data"@) is Null,
        }
    }

    /// Reads an object off the wire.
    pub fn from_json(j: &Json) -> (r: Option<Question>)
        ensures
            match r {
                Some(v) => Question::fits(j@) && v.reads(j@),
                None => !Question::fits(j@),
            },
    {
        if !j.is_object() {
            return None;
        }
        let id = match owned_text(j, "id") {
            Some(v) => v,
            None => { return None; },
        };
        let question = match owned_text(j, "question") {
            Some(v) => v,
            None => { return None; },
        };
        let header = match optional_text(j, "header") {
            Some(v) => v,
            None => { return None; },
        };
        let detail = match optional_text(j, "detail") {
            Some(v) => v,
            None => { return None; },
        };
        let options_json = member(j, "options");
        let options: Option<Vec<QuestionOption>> = match options_json {
            Json::Null => None,
            _ => match question_option_list_from(&options_json) {
                Some(v) => Some(v),
                None => { return None; },
            },
        };
        let multi_select = match optional_bool(j, "multiSelect") {
            Some(v) => v,
            None => { return None; },
        };
        let intent = optional_json(j, "intent");
        let data = optional_json(j, "data");
        Some(Question { id, question, header, detail, options, multi_select, intent, data })
    }

}

/// How a run of them goes over the wire.
pub open spec fn question_trees(v: Seq<Question>) -> JsonTree {
    JsonTree::Array(v.map_values(|x: Question| x.tree()))
}

fn question_list(v: &Vec<Question>) -> (r: Json)
    ensures
        r@ == question_trees(v@),
{
    let mut out: Vec<Json> = Vec::new();
    let mut i: usize = 0;
    let ghost wanted = v@.map_values(|x: Question| x.tree());
    while i < v.len()
        invariant
            i <= v.len(),
            wanted == v@.map_values(|x: Question| x.tree()),
            trees(out@) == wanted.take(i as int),
        decreases v.len() - i,
    {
        let item = v[i].to_json();
        proof {
            assert(trees(out@.push(item)) =~= trees(out@).push(item@));
            assert(wanted.take(i + 1) =~= wanted.take(i as int).push(wanted[i as int]));
        }
        out.push(item);
        i = i + 1;
    }
    assert(wanted.take(wanted.len() as int) =~= wanted);
    Json::array(out)
}

/// Whether a value is an array of them.
pub open spec fn question_list_fits(t: JsonTree) -> bool {
    t matches JsonTree::Array(items) && forall|i: int|
        0 <= i < items.len() ==> Question::fits(#[trigger] items[i])
}

/// Whether these are what an array says.
pub open spec fn question_list_reads(t: JsonTree, v: Seq<Question>) -> bool {
    t matches JsonTree::Array(items) && items.len() == v.len() && forall|i: int|
        0 <= i < items.len() ==> (#[trigger] v[i]).reads(items[i])
}

fn question_list_from(j: &Json) -> (r: Option<Vec<Question>>)
    ensures
        match r {
            Some(v) => question_list_fits(j@) && question_list_reads(j@, v@),
            None => !question_list_fits(j@),
        },
{
    let items = match j.as_array() {
        Some(v) => v,
        None => { return None; },
    };
    let ghost all = trees(items@);
    let mut out: Vec<Question> = Vec::new();
    let mut i: usize = 0;
    while i < items.len()
        invariant
            i <= items.len(),
            out.len() == i,
            all == trees(items@),
            j@ == JsonTree::Array(all),
            forall|k: int| 0 <= k < i ==> Question::fits(#[trigger] all[k]),
            forall|k: int| 0 <= k < i ==> (#[trigger] out@[k]).reads(all[k]),
        decreases items.len() - i,
    {
        assert(all[i as int] == items@[i as int]@);
        match Question::from_json(&items[i]) {
            Some(v) => {
                out.push(v);
            },
            None => {
                assert(!Question::fits(j@->Array_0[i as int]));
                return None;
            },
        }
        i = i + 1;
    }
    Some(out)
}

/// Questions that wait for an answer.
#[derive(Debug, PartialEq)]
pub struct QuestionRequestedFrame {
    /// The session.
    pub session_id: String,
    /// The questions.
    pub questions: Vec<Question>,
}

impl QuestionRequestedFrame {
    /// How it goes over the wire.
    pub open spec fn tree(self) -> JsonTree {
        JsonTree::object()
            .with("sessionId"@, JsonTree::Text(self.session_id@))
            .with("questions"@, question_trees(self.questions@))
    }

    /// How it goes over the wire.
    pub fn to_json(&self) -> (r: Json)
        ensures
            r@ == self.tree(),
    {
        Json::object()
            .with("sessionId", Json::text(self.session_id.as_str()))
            .with("questions", question_list(&self.questions))
    }

    /// Whether a value has the members that are needed, each of its type.
    pub open spec fn fits(t: JsonTree) -> bool {
        &&& t is Object
        &&& t.at("sessionId"@) is Text
        &&& question_list_fits(t.at("questions"@))
    }

    /// Whether this is what a value says.
    pub open spec fn reads(self, t: JsonTree) -> bool {
        &&& t is Object
        &&& t.at("sessionId"@) == JsonTree::Text(self.session_id@)
        &&& question_list_reads(t.at("questions"@), self.questions@)
    }

    /// Reads an object off the wire.
    pub fn from_json(j: &Json) -> (r: Option<QuestionRequestedFrame>)
        ensures
            match r {
                Some(v) => QuestionRequestedFrame::fits(j@) && v.reads(j@),
                None => !QuestionRequestedFrame::fits(j@),
            },
    {
        if !j.is_object() {
            return None;
        }
        let session_id = match owned_text(j, "sessionId") {
            Some(v) => v,
            None => { return None; },
        };
        let questions = match question_list_from(&member(j, "questions")) {
            Some(v) => v,
            None => { return None; },
        };
        Some(QuestionRequestedFrame { session_id, questions })
    }

}

/// Questions that wait no more.
#[derive(Debug, PartialEq)]
pub struct QuestionResolvedFrame {
    /// The session.
    pub session_id: String,
    /// The token of the questions.
    pub question_rpc_id: String,
    /// What came of them.
    pub outcome: String,
}

impl QuestionResolvedFrame {
    /// How it goes over the wire.
    pub open spec fn tree(self) -> JsonTree {
        JsonTree::object()
            .with("sessionId"@, JsonTree::Text(self.session_id@))
            .with("questionRpcId"@, JsonTree::Text(self.question_rpc_id@))
            .with("outcome"@, JsonTree::Text(self.outcome@))
    }

    /// How it goes over the wire.
    pub fn to_json(&self) -> (r: Json)
        ensures
            r@ == self.tree(),
    {
        Json::object()
            .with("sessionId", Json::text(self.session_id.as_str()))
            .with("questionRpcId", Json::text(self.question_rpc_id.as_str()))
            .with("outcome", Json::text(self.outcome.as_str()))
    }

}

/// A session that has come up.
#[derive(Debug, PartialEq)]
pub struct HostSessionAdded {
    /// The session.
    pub session_id: String,
    /// Whether no turn has started yet.
    pub blank: bool,
    /// The session that it comes from.
    pub parent_session_id: Option<String>,
    /// How it comes from it.
    pub origin: Option<String>,
    /// The directory it works in.
    pub cwd: Option<String>,
    /// Its preset.
    pub agent_preset: Option<String>,
}

impl HostSessionAdded {
    /// How it goes over the wire.
    pub open spec fn tree(self) -> JsonTree {
        JsonTree::object()
            .with("sessionId"@, JsonTree::Text(self.session_id@))
            .with("blank"@, JsonTree::Bool(self.blank))
            .with_some("parentSessionId"@, text_option(self.parent_session_id))
            .with_some("origin"@, text_option(self.origin))
            .with_some("cwd"@, text_option(self.cwd))
            .with_some("agentPreset"@, text_option(self.agent_preset))
    }

    /// How it goes over the wire.
    pub fn to_json(&self) -> (r: Json)
        ensures
            r@ == self.tree(),
    {
        Json::object()
            .with("sessionId", Json::text(self.session_id.as_str()))
            .with("blank", Json::Bool(self.blank))
            .with_some("parentSessionId", text_json(&self.parent_session_id))
            .with_some("origin", text_json(&self.origin))
            .with_some("cwd", text_json(&self.cwd))
            .with_some("agentPreset", text_json(&self.agent_preset))
    }

}

/// Whether a session is running.
#[derive(Debug, PartialEq)]
pub struct HostSessionStatus {
    /// The session.
    pub session_id: String,
    /// Whether it is.
    pub running: bool,
}

impl HostSessionStatus {
    /// How it goes over the wire.
    pub open spec fn tree(self) -> JsonTree {
        JsonTree::object()
            .with("sessionId"@, JsonTree::Text(self.session_id@))
            .with("running"@, JsonTree::Bool(self.running))
    }

    /// How it goes over the wire.
    pub fn to_json(&self) -> (r: Json)
        ensures
            r@ == self.tree(),
    {
        Json::object()
            .with("sessionId", Json::text(self.session_id.as_str()))
            .with("running", Json::Bool(self.running))
    }

}

/// What is written is read back as it was.
pub proof fn law_client_request_round_trip(v: ClientRequest)
    ensures
        ClientRequest::fits(v.tree()),
        v.reads(v.tree()),
{
    reveal_strlit("type");
    reveal_strlit("rpcId");
    reveal_strlit("method");
    reveal_strlit("payload");
    assert("type"@.len() == 4
        && "rpcId"@.len() == 5
        && "method"@.len() == 6
        && "payload"@.len() == 7);
    let t0 = JsonTree::object();
    let t1 = t0.with("type"@, JsonTree::Text(v.ty@));
    lemma_with(t0, "type"@, JsonTree::Text(v.ty@));
    let t2 = t1.with("rpcId"@, JsonTree::Text(v.rpc_id@));
    lemma_with(t1, "rpcId"@, JsonTree::Text(v.rpc_id@));
    let t3 = t2.with("method"@, JsonTree::Text(v.method@));
    lemma_with(t2, "method"@, JsonTree::Text(v.method@));
    let t4 = t3.with("payload"@, v.payload@);
    lemma_with(t3, "payload"@, v.payload@);
    assert(t4 == v.tree());
    assert(t4.get("type"@) == Some(JsonTree::Text(v.ty@)));
    assert(t4.get("rpcId"@) == Some(JsonTree::Text(v.rpc_id@)));
    assert(t4.get("method"@) == Some(JsonTree::Text(v.method@)));
    assert(t4.get("payload"@) == Some(v.payload@));
}

/// What is written is read back as it was.
pub proof fn law_server_response_round_trip(v: ServerResponse)
    ensures
        ServerResponse::fits(v.tree()),
        v.reads(v.tree()),
{
    reveal_strlit("type");
    reveal_strlit("rpcId");
    reveal_strlit("result");
    assert("type"@.len() == 4
        && "rpcId"@.len() == 5
        && "result"@.len() == 6);
    law_rpc_result_round_trip(v.result);
    let t0 = JsonTree::object();
    let t1 = t0.with("type"@, JsonTree::Text(v.ty@));
    lemma_with(t0, "type"@, JsonTree::Text(v.ty@));
    let t2 = t1.with("rpcId"@, JsonTree::Text(v.rpc_id@));
    lemma_with(t1, "rpcId"@, JsonTree::Text(v.rpc_id@));
    let t3 = t2.with("result"@, v.result.tree());
    lemma_with(t2, "result"@, v.result.tree());
    assert(t3 == v.tree());
    assert(t3.get("type"@) == Some(JsonTree::Text(v.ty@)));
    assert(t3.get("rpcId"@) == Some(JsonTree::Text(v.rpc_id@)));
    assert(t3.get("result"@) == Some(v.result.tree()));
}

/// What is written is read back as it was.
pub proof fn law_server_request_round_trip(v: ServerRequest)
    ensures
        ServerRequest::fits(v.tree()),
        v.reads(v.tree()),
{
    reveal_strlit("type");
    reveal_strlit("rpcId");
    reveal_strlit("method");
    reveal_strlit("payload");
    assert("type"@.len() == 4
        && "rpcId"@.len() == 5
        && "method"@.len() == 6
        && "payload"@.len() == 7);
    let t0 = JsonTree::object();
    let t1 = t0.with("type"@, JsonTree::Text(v.ty@));
    lemma_with(t0, "type"@, JsonTree::Text(v.ty@));
    let t2 = t1.with("rpcId"@, JsonTree::Text(v.rpc_id@));
    lemma_with(t1, "rpcId"@, JsonTree::Text(v.rpc_id@));
    let t3 = t2.with("method"@, JsonTree::Text(v.method@));
    lemma_with(t2, "method"@, JsonTree::Text(v.method@));
    let t4 = t3.with("payload"@, v.payload@);
    lemma_with(t3, "payload"@, v.payload@);
    assert(t4 == v.tree());
    assert(t4.get("type"@) == Some(JsonTree::Text(v.ty@)));
    assert(t4.get("rpcId"@) == Some(JsonTree::Text(v.rpc_id@)));
    assert(t4.get("method"@) == Some(JsonTree::Text(v.method@)));
    assert(t4.get("payload"@) == Some(v.payload@));
}

/// What is written is read back as it was.
pub proof fn law_client_response_round_trip(v: ClientResponse)
    ensures
        ClientResponse::fits(v.tree()),
        v.reads(v.tree()),
{
    reveal_strlit("type");
    reveal_strlit("rpcId");
    reveal_strlit("result");
    assert("type"@.len() == 4
        && "rpcId"@.len() == 5
        && "result"@.len() == 6);
    law_rpc_result_round_trip(v.result);
    let t0 = JsonTree::object();
    let t1 = t0.with("type"@, JsonTree::Text(v.ty@));
    lemma_with(t0, "type"@, JsonTree::Text(v.ty@));
    let t2 = t1.with("rpcId"@, JsonTree::Text(v.rpc_id@));
    lemma_with(t1, "rpcId"@, JsonTree::Text(v.rpc_id@));
    let t3 = t2.with("result"@, v.result.tree());
    lemma_with(t2, "result"@, v.result.tree());
    assert(t3 == v.tree());
    assert(t3.get("type"@) == Some(JsonTree::Text(v.ty@)));
    assert(t3.get("rpcId"@) == Some(JsonTree::Text(v.rpc_id@)));
    assert(t3.get("result"@) == Some(v.result.tree()));
}

/// What is written is read back as it was.
pub proof fn law_session_event_round_trip(v: SessionEvent)
    ensures
        SessionEvent::fits(v.tree()),
        v.reads(v.tree()),
{
    reveal_strlit("type");
    reveal_strlit("seq");
    reveal_strlit("time");
    reveal_strlit("data");
    reveal_strlit("sourceEventSeqs");
    reveal_strlit("surfaceOp");
    reveal_strlit("ignorable");
    assert("type"@.len() == 4
        && "seq"@.len() == 3
        && "time"@.len() == 4
        && "data"@.len() == 4
        && "sourceEventSeqs"@.len() == 15
        && "surfaceOp"@.len() == 9
        && "ignorable"@.len() == 9
        && "type"@[1] == 'y'
        && "time"@[1] == 'i'
        && "type"@[0] == 't'
        && "data"@[0] == 'd'
        && "time"@[0] == 't'
        && "surfaceOp"@[0] == 's'
        && "ignorable"@[0] == 'i');
    if v.surface_op is Some {
        law_surface_op_round_trip(v.surface_op->0);
    }
    let t0 = JsonTree::object();
    let t1 = t0.with("type"@, JsonTree::Text(v.ty@));
    lemma_with(t0, "type"@, JsonTree::Text(v.ty@));
    let t2 = t1.with("seq"@, JsonTree::Number(Num::Unsigned(v.seq)));
    lemma_with(t1, "seq"@, JsonTree::Number(Num::Unsigned(v.seq)));
    let t3 = t2.with("time"@, int_tree(v.time));
    lemma_with(t2, "time"@, int_tree(v.time));
    let t4 = t3.with("data"@, v.data@);
    lemma_with(t3, "data"@, v.data@);
    let t5 = t4.with_some("sourceEventSeqs"@, seqs_option(v.source_event_seqs));
    lemma_with_some(t4, "sourceEventSeqs"@, seqs_option(v.source_event_seqs));
    let t6 = t5.with_some("surfaceOp"@, match v.surface_op {
        Some(v) => Some(v.tree()),
        None => None,
    });
    lemma_with_some(t5, "surfaceOp"@, (match v.surface_op { Some(v) => Some(v.tree()), None => None }));
    let t7 = t6.with_some("ignorable"@, bool_option(v.ignorable));
    lemma_with_some(t6, "ignorable"@, bool_option(v.ignorable));
    assert(t7 == v.tree());
    assert(t7.get("type"@) == Some(JsonTree::Text(v.ty@)));
    assert(t7.get("seq"@) == Some(JsonTree::Number(Num::Unsigned(v.seq))));
    assert(t7.get("time"@) == Some(int_tree(v.time)));
    assert(t7.get("data"@) == Some(v.data@));
    assert(t7.get("sourceEventSeqs"@) == seqs_option(v.source_event_seqs));
    if v.source_event_seqs is Some {
        lemma_seqs_round_trip(v.source_event_seqs->0@);
    }
    assert(t7.get("surfaceOp"@) == (match v.surface_op { Some(v) => Some(v.tree()), None => None }));
    assert(t7.get("ignorable"@) == bool_option(v.ignorable));
}

/// What is written is read back as it was.
pub proof fn law_question_option_round_trip(v: QuestionOption)
    ensures
        QuestionOption::fits(v.tree()),
        v.reads(v.tree()),
{
    reveal_strlit("label");
    reveal_strlit("description");
    assert("label"@.len() == 5
        && "description"@.len() == 11);
    let t0 = JsonTree::object();
    let t1 = t0.with("label"@, JsonTree::Text(v.label@));
    lemma_with(t0, "label"@, JsonTree::Text(v.label@));
    let t2 = t1.with_some("description"@, text_option(v.description));
    lemma_with_some(t1, "description"@, text_option(v.description));
    assert(t2 == v.tree());
    assert(t2.get("label"@) == Some(JsonTree::Text(v.label@)));
    assert(t2.get("description"@) == text_option(v.description));
}

impl Question {
    /// What it holds is not there only to say that there is nothing.
    pub open spec fn plain(self) -> bool {
        &&& !(json_option(self.intent) matches Some(t) && t is Null)
        &&& !(json_option(self.data) matches Some(t) && t is Null)
    }
}

/// What is written is read back as it was.
pub proof fn law_question_round_trip(v: Question)
    requires
        v.plain(),
    ensures
        Question::fits(v.tree()),
        v.reads(v.tree()),
{
    reveal_strlit("id");
    reveal_strlit("question");
    reveal_strlit("header");
    reveal_strlit("detail");
    reveal_strlit("options");
    reveal_strlit("multiSelect");
    reveal_strlit("intent");
    reveal_strlit("data");
    assert("id"@.len() == 2
        && "question"@.len() == 8
        && "header"@.len() == 6
        && "detail"@.len() == 6
        && "options"@.len() == 7
        && "multiSelect"@.len() == 11
        && "intent"@.len() == 6
        && "data"@.len() == 4
        && "header"@[0] == 'h'
        && "detail"@[0] == 'd'
        && "intent"@[0] == 'i');
    let t0 = JsonTree::object();
    let t1 = t0.with("id"@, JsonTree::Text(v.id@));
    lemma_with(t0, "id"@, JsonTree::Text(v.id@));
    let t2 = t1.with("question"@, JsonTree::Text(v.question@));
    lemma_with(t1, "question"@, JsonTree::Text(v.question@));
    let t3 = t2.with_some("header"@, text_option(v.header));
    lemma_with_some(t2, "header"@, text_option(v.header));
    let t4 = t3.with_some("detail"@, text_option(v.detail));
    lemma_with_some(t3, "detail"@, text_option(v.detail));
    let t5 = t4.with_some("options"@, question_option_option(v.options));
    lemma_with_some(t4, "options"@, question_option_option(v.options));
    let t6 = t5.with_some("multiSelect"@, bool_option(v.multi_select));
    lemma_with_some(t5, "multiSelect"@, bool_option(v.multi_select));
    let t7 = t6.with_some("intent"@, json_option(v.intent));
    lemma_with_some(t6, "intent"@, json_option(v.intent));
    let t8 = t7.with_some("data"@, json_option(v.data));
    lemma_with_some(t7, "data"@, json_option(v.data));
    assert(t8 == v.tree());
    assert(t8.get("id"@) == Some(JsonTree::Text(v.id@)));
    assert(t8.get("question"@) == Some(JsonTree::Text(v.question@)));
    assert(t8.get("header"@) == text_option(v.header));
    assert(t8.get("detail"@) == text_option(v.detail));
    assert(t8.get("options"@) == question_option_option(v.options));
    if v.options is Some {
        assert forall|i: int| 0 <= i < v.options->0@.len() implies QuestionOption::fits((#[trigger] v.options->0@[i]).tree())
            && v.options->0@[i].reads(v.options->0@[i].tree()) by {
            law_question_option_round_trip(v.options->0@[i]);
        }
    }
    assert(t8.get("multiSelect"@) == bool_option(v.multi_select));
    assert(t8.get("intent"@) == json_option(v.intent));
    assert(t8.get("data"@) == json_option(v.data));
}

impl QuestionRequestedFrame {
    /// What it holds is not there only to say that there is nothing.
    pub open spec fn plain(self) -> bool {
        &&& forall|i: int| 0 <= i < self.questions@.len() ==> (#[trigger] self.questions@[i]).plain()
    }
}

/// What is written is read back as it was.
pub proof fn law_question_requested_frame_round_trip(v: QuestionRequestedFrame)
    requires
        v.plain(),
    ensures
        QuestionRequestedFrame::fits(v.tree()),
        v.reads(v.tree()),
{
    reveal_strlit("sessionId");
    reveal_strlit("questions");
    assert("sessionId"@.len() == 9
        && "questions"@.len() == 9
        && "sessionId"@[0] == 's'
        && "questions"@[0] == 'q');
    let t0 = JsonTree::object();
    let t1 = t0.with("sessionId"@, JsonTree::Text(v.session_id@));
    lemma_with(t0, "sessionId"@, JsonTree::Text(v.session_id@));
    let t2 = t1.with("questions"@, question_trees(v.questions@));
    lemma_with(t1, "questions"@, question_trees(v.questions@));
    assert(t2 == v.tree());
    assert(t2.get("sessionId"@) == Some(JsonTree::Text(v.session_id@)));
    assert(t2.get("questions"@) == Some(question_trees(v.questions@)));
    assert forall|i: int| 0 <= i < v.questions@.len() implies Question::fits((#[trigger] v.questions@[i]).tree())
        && v.questions@[i].reads(v.questions@[i].tree()) by {
        law_question_round_trip(v.questions@[i]);
    }
}
/// Its members on the wire: each thing stands under its own name, and nothing else is
/// there.
pub proof fn law_rpc_error_members(v: RpcError, t: JsonTree)
    requires
        t == v.tree(),
    ensures
        has_entry(t, "code"@, JsonTree::Text(v.code@)),
        has_entry(t, "message"@, JsonTree::Text(v.message@)),
        !(v.details@ is Null) ==> has_entry(t, "details"@, v.details@),
        t->Object_0.len() == 2 + flag(!(v.details@ is Null)),
{
    let t0 = JsonTree::object();
    let x0 = JsonTree::Text(v.code@);
    lemma_entry(t0, "code"@, x0);
    let t1 = t0.with("code"@, x0);
    let x1 = JsonTree::Text(v.message@);
    lemma_entry(t1, "message"@, x1);
    let t2 = t1.with("message"@, x1);
    lemma_entry_some(
        t2,
        "details"@,
        if v.details@ is Null {
            None
        } else {
            Some(v.details@)
        },
    );
}

/// Its members on the wire: each thing stands under its own name, and nothing else is
/// there.
pub proof fn law_client_request_members(v: ClientRequest, t: JsonTree)
    requires
        t == v.tree(),
    ensures
        has_entry(t, "type"@, JsonTree::Text(v.ty@)),
        has_entry(t, "rpcId"@, JsonTree::Text(v.rpc_id@)),
        has_entry(t, "method"@, JsonTree::Text(v.method@)),
        has_entry(t, "payload"@, v.payload@),
        t->Object_0.len() == 4,
{
    let t0 = JsonTree::object();
    let x0 = JsonTree::Text(v.ty@);
    lemma_entry(t0, "type"@, x0);
    let t1 = t0.with("type"@, x0);
    let x1 = JsonTree::Text(v.rpc_id@);
    lemma_entry(t1, "rpcId"@, x1);
    let t2 = t1.with("rpcId"@, x1);
    let x2 = JsonTree::Text(v.method@);
    lemma_entry(t2, "method"@, x2);
    let t3 = t2.with("method"@, x2);
    lemma_entry(t3, "payload"@, v.payload@);
}

/// Its members on the wire: each thing stands under its own name, and nothing else is
/// there.
pub proof fn law_server_response_members(v: ServerResponse, t: JsonTree)
    requires
        t == v.tree(),
    ensures
        has_entry(t, "type"@, JsonTree::Text(v.ty@)),
        has_entry(t, "rpcId"@, JsonTree::Text(v.rpc_id@)),
        has_entry(t, "result"@, v.result.tree()),
        t->Object_0.len() == 3,
{
    let t0 = JsonTree::object();
    let x0 = JsonTree::Text(v.ty@);
    lemma_entry(t0, "type"@, x0);
    let t1 = t0.with("type"@, x0);
    let x1 = JsonTree::Text(v.rpc_id@);
    lemma_entry(t1, "rpcId"@, x1);
    let t2 = t1.with("rpcId"@, x1);
    lemma_entry(t2, "result"@, v.result.tree());
}

/// Its members on the wire: each thing stands under its own name, and nothing else is
/// there.
pub proof fn law_server_request_members(v: ServerRequest, t: JsonTree)
    requires
        t == v.tree(),
    ensures
        has_entry(t, "type"@, JsonTree::Text(v.ty@)),
        has_entry(t, "rpcId"@, JsonTree::Text(v.rpc_id@)),
        has_entry(t, "method"@, JsonTree::Text(v.method@)),
        has_entry(t, "payload"@, v.payload@),
        t->Object_0.len() == 4,
{
    let t0 = JsonTree::object();
    let x0 = JsonTree::Text(v.ty@);
    lemma_entry(t0, "type"@, x0);
    let t1 = t0.with("type"@, x0);
    let x1 = JsonTree::Text(v.rpc_id@);
    lemma_entry(t1, "rpcId"@, x1);
    let t2 = t1.with("rpcId"@, x1);
    let x2 = JsonTree::Text(v.method@);
    lemma_entry(t2, "method"@, x2);
    let t3 = t2.with("method"@, x2);
    lemma_entry(t3, "payload"@, v.payload@);
}

/// Its members on the wire: each thing stands under its own name, and nothing else is
/// there.
pub proof fn law_client_response_members(v: ClientResponse, t: JsonTree)
    requires
        t == v.tree(),
    ensures
        has_entry(t, "type"@, JsonTree::Text(v.ty@)),
        has_entry(t, "rpcId"@, JsonTree::Text(v.rpc_id@)),
        has_entry(t, "result"@, v.result.tree()),
        t->Object_0.len() == 3,
{
    let t0 = JsonTree::object();
    let x0 = JsonTree::Text(v.ty@);
    lemma_entry(t0, "type"@, x0);
    let t1 = t0.with("type"@, x0);
    let x1 = JsonTree::Text(v.rpc_id@);
    lemma_entry(t1, "rpcId"@, x1);
    let t2 = t1.with("rpcId"@, x1);
    lemma_entry(t2, "result"@, v.result.tree());
}

/// Its members on the wire: each thing stands under its own name, and nothing else is
/// there.
pub proof fn law_respond_receipt_members(v: RespondReceipt, t: JsonTree)
    requires
        t == v.tree(),
    ensures
        has_entry(t, "accepted"@, JsonTree::Bool(v.accepted)),
        v.reason matches Some(x) ==> has_entry(t, "reason"@, JsonTree::Text(x@)),
        t->Object_0.len() == 1 + flag(v.reason is Some),
{
    let t0 = JsonTree::object();
    let x0 = JsonTree::Bool(v.accepted);
    lemma_entry(t0, "accepted"@, x0);
    let t1 = t0.with("accepted"@, x0);
    lemma_entry_some(t1, "reason"@, text_option(v.reason));
}

/// Its members on the wire: each thing stands under its own name, and nothing else is
/// there.
pub proof fn law_session_event_members(v: SessionEvent, t: JsonTree)
    requires
        t == v.tree(),
    ensures
        has_entry(t, "type"@, JsonTree::Text(v.ty@)),
        has_entry(t, "seq"@, JsonTree::Number(Num::Unsigned(v.seq))),
        has_entry(t, "time"@, int_tree(v.time)),
        has_entry(t, "data"@, v.data@),
        v.source_event_seqs matches Some(x) ==> has_entry(t, "sourceEventSeqs"@, seqs_tree(x@)),
        v.surface_op matches Some(x) ==> has_entry(t, "surfaceOp"@, x.tree()),
        v.ignorable matches Some(x) ==> has_entry(t, "ignorable"@, JsonTree::Bool(x)),
        t->Object_0.len() == 4 + flag(v.source_event_seqs is Some) + flag(v.surface_op is Some)
            + flag(v.ignorable is Some),
{
    let t0 = JsonTree::object();
    let x0 = JsonTree::Text(v.ty@);
    lemma_entry(t0, "type"@, x0);
    let t1 = t0.with("type"@, x0);
    let x1 = JsonTree::Number(Num::Unsigned(v.seq));
    lemma_entry(t1, "seq"@, x1);
    let t2 = t1.with("seq"@, x1);
    let x2 = int_tree(v.time);
    lemma_entry(t2, "time"@, x2);
    let t3 = t2.with("time"@, x2);
    let x3 = v.data@;
    lemma_entry(t3, "data"@, x3);
    let t4 = t3.with("data"@, x3);
    let x4 = seqs_option(v.source_event_seqs);
    lemma_entry_some(t4, "sourceEventSeqs"@, x4);
    let t5 = t4.with_some("sourceEventSeqs"@, x4);
    let x5 = match v.surface_op {
        Some(x) => Some(x.tree()),
        None => None,
    };
    lemma_entry_some(t5, "surfaceOp"@, x5);
    let t6 = t5.with_some("surfaceOp"@, x5);
    lemma_entry_some(t6, "ignorable"@, bool_option(v.ignorable));
}

/// Its members on the wire: each thing stands under its own name, and nothing else is
/// there.
pub proof fn law_describe_value_members(v: DescribeValue, t: JsonTree)
    requires
        t == v.tree(),
    ensures
        has_entry(t, "version"@, JsonTree::Text(v.version@)),
        has_entry(t, "cwd"@, JsonTree::Text(v.cwd@)),
        v.provider matches Some(x) ==> has_entry(t, "provider"@, JsonTree::Text(x@)),
        v.model matches Some(x) ==> has_entry(t, "model"@, JsonTree::Text(x@)),
        has_entry(t, "models"@, JsonTree::Array(text_trees(v.models@))),
        has_entry(t, "efforts"@, JsonTree::Array(text_trees(v.efforts@))),
        has_entry(t, "permissions"@, JsonTree::Array(text_trees(v.permissions@))),
        has_entry(t, "presets"@, JsonTree::Array(trees(v.presets@))),
        has_entry(t, "workspaces"@, JsonTree::Array(text_trees(v.workspaces@))),
        has_entry(t, "attachedSessions"@, JsonTree::Number(Num::Unsigned(v.attached_sessions))),
        has_entry(t, "canOpenPath"@, JsonTree::Bool(v.can_open_path)),
        t->Object_0.len() == 9 + flag(v.provider is Some) + flag(v.model is Some),
{
    let t0 = JsonTree::object();
    let x0 = JsonTree::Text(v.version@);
    lemma_entry(t0, "version"@, x0);
    let t1 = t0.with("version"@, x0);
    let x1 = JsonTree::Text(v.cwd@);
    lemma_entry(t1, "cwd"@, x1);
    let t2 = t1.with("cwd"@, x1);
    let x2 = text_option(v.provider);
    lemma_entry_some(t2, "provider"@, x2);
    let t3 = t2.with_some("provider"@, x2);
    let x3 = text_option(v.model);
    lemma_entry_some(t3, "model"@, x3);
    let t4 = t3.with_some("model"@, x3);
    let x4 = JsonTree::Array(text_trees(v.models@));
    lemma_entry(t4, "models"@, x4);
    let t5 = t4.with("models"@, x4);
    let x5 = JsonTree::Array(text_trees(v.efforts@));
    lemma_entry(t5, "efforts"@, x5);
    let t6 = t5.with("efforts"@, x5);
    let x6 = JsonTree::Array(text_trees(v.permissions@));
    lemma_entry(t6, "permissions"@, x6);
    let t7 = t6.with("permissions"@, x6);
    let x7 = JsonTree::Array(trees(v.presets@));
    lemma_entry(t7, "presets"@, x7);
    let t8 = t7.with("presets"@, x7);
    let x8 = JsonTree::Array(text_trees(v.workspaces@));
    lemma_entry(t8, "workspaces"@, x8);
    let t9 = t8.with("workspaces"@, x8);
    let x9 = JsonTree::Number(Num::Unsigned(v.attached_sessions));
    lemma_entry(t9, "attachedSessions"@, x9);
    let t10 = t9.with("attachedSessions"@, x9);
    lemma_entry(t10, "canOpenPath"@, JsonTree::Bool(v.can_open_path));
}

/// Its members on the wire: each thing stands under its own name, and nothing else is
/// there.
pub proof fn law_projections_members(v: Projections, t: JsonTree)
    requires
        t == v.tree(),
    ensures
        has_entry(t, "asOfSeq"@, int_tree(v.as_of_seq)),
        has_entry(t, "values"@, v.values@),
        t->Object_0.len() == 2,
{
    let t0 = JsonTree::object();
    let x0 = int_tree(v.as_of_seq);
    lemma_entry(t0, "asOfSeq"@, x0);
    let t1 = t0.with("asOfSeq"@, x0);
    lemma_entry(t1, "values"@, v.values@);
}

/// Its members on the wire: each thing stands under its own name, and nothing else is
/// there.
pub proof fn law_session_summary_members(v: SessionSummary, t: JsonTree)
    requires
        t == v.tree(),
    ensures
        has_entry(t, "sessionId"@, JsonTree::Text(v.session_id@)),
        has_entry(t, "updatedAt"@, JsonTree::Number(Num::Unsigned(v.updated_at))),
        has_entry(t, "running"@, JsonTree::Bool(v.running)),
        has_entry(t, "blank"@, JsonTree::Bool(v.blank)),
        v.parent_session_id matches Some(x) ==> has_entry(
            t,
            "parentSessionId"@,
            JsonTree::Text(x@),
        ),
        v.origin matches Some(x) ==> has_entry(t, "origin"@, JsonTree::Text(x@)),
        v.cwd matches Some(x) ==> has_entry(t, "cwd"@, JsonTree::Text(x@)),
        v.agent_preset matches Some(x) ==> has_entry(t, "agentPreset"@, JsonTree::Text(x@)),
        v.projections matches Some(x) ==> has_entry(t, "projections"@, x.tree()),
        t->Object_0.len() == 4 + flag(v.parent_session_id is Some) + flag(v.origin is Some)
            + flag(v.cwd is Some) + flag(v.agent_preset is Some) + flag(v.projections is Some),
{
    let t0 = JsonTree::object();
    let x0 = JsonTree::Text(v.session_id@);
    lemma_entry(t0, "sessionId"@, x0);
    let t1 = t0.with("sessionId"@, x0);
    let x1 = JsonTree::Number(Num::Unsigned(v.updated_at));
    lemma_entry(t1, "updatedAt"@, x1);
    let t2 = t1.with("updatedAt"@, x1);
    let x2 = JsonTree::Bool(v.running);
    lemma_entry(t2, "running"@, x2);
    let t3 = t2.with("running"@, x2);
    let x3 = JsonTree::Bool(v.blank);
    lemma_entry(t3, "blank"@, x3);
    let t4 = t3.with("blank"@, x3);
    let x4 = text_option(v.parent_session_id);
    lemma_entry_some(t4, "parentSessionId"@, x4);
    let t5 = t4.with_some("parentSessionId"@, x4);
    let x5 = text_option(v.origin);
    lemma_entry_some(t5, "origin"@, x5);
    let t6 = t5.with_some("origin"@, x5);
    let x6 = text_option(v.cwd);
    lemma_entry_some(t6, "cwd"@, x6);
    let t7 = t6.with_some("cwd"@, x6);
    let x7 = text_option(v.agent_preset);
    lemma_entry_some(t7, "agentPreset"@, x7);
    let t8 = t7.with_some("agentPreset"@, x7);
    lemma_entry_some(
        t8,
        "projections"@,
        match v.projections {
            Some(x) => Some(x.tree()),
            None => None,
        },
    );
}

/// Its members on the wire: each thing stands under its own name, and nothing else is
/// there.
pub proof fn law_history_entry_members(v: HistoryEntry, t: JsonTree)
    requires
        t == v.tree(),
    ensures
        has_entry(t, "event"@, v.event.tree()),
        v.view matches Some(x) ==> has_entry(t, "view"@, x@),
        t->Object_0.len() == 1 + flag(v.view is Some),
{
    let t0 = JsonTree::object();
    let x0 = v.event.tree();
    lemma_entry(t0, "event"@, x0);
    let t1 = t0.with("event"@, x0);
    lemma_entry_some(t1, "view"@, json_option(v.view));
}

/// Its members on the wire: each thing stands under its own name, and nothing else is
/// there.
pub proof fn law_history_value_members(v: HistoryValue, t: JsonTree)
    requires
        t == v.tree(),
    ensures
        has_entry(t, "events"@, history_entry_trees(v.events@)),
        has_entry(t, "hasMore"@, JsonTree::Bool(v.has_more)),
        has_entry(t, "cut"@, JsonTree::Number(Num::Unsigned(v.cut))),
        v.projections matches Some(x) ==> has_entry(t, "projections"@, x.tree()),
        t->Object_0.len() == 3 + flag(v.projections is Some),
{
    let t0 = JsonTree::object();
    let x0 = history_entry_trees(v.events@);
    lemma_entry(t0, "events"@, x0);
    let t1 = t0.with("events"@, x0);
    let x1 = JsonTree::Bool(v.has_more);
    lemma_entry(t1, "hasMore"@, x1);
    let t2 = t1.with("hasMore"@, x1);
    let x2 = JsonTree::Number(Num::Unsigned(v.cut));
    lemma_entry(t2, "cut"@, x2);
    let t3 = t2.with("cut"@, x2);
    lemma_entry_some(
        t3,
        "projections"@,
        match v.projections {
            Some(x) => Some(x.tree()),
            None => None,
        },
    );
}

/// Its members on the wire: each thing stands under its own name, and nothing else is
/// there.
pub proof fn law_workspace_view_members(v: WorkspaceView, t: JsonTree)
    requires
        t == v.tree(),
    ensures
        has_entry(t, "workspaceId"@, JsonTree::Text(v.workspace_id@)),
        has_entry(t, "path"@, JsonTree::Text(v.path@)),
        has_entry(t, "title"@, JsonTree::Text(v.title@)),
        has_entry(t, "sessionIds"@, JsonTree::Array(text_trees(v.session_ids@))),
        has_entry(t, "createdAt"@, JsonTree::Text(v.created_at@)),
        has_entry(t, "updatedAt"@, JsonTree::Text(v.updated_at@)),
        t->Object_0.len() == 6,
{
    let t0 = JsonTree::object();
    let x0 = JsonTree::Text(v.workspace_id@);
    lemma_entry(t0, "workspaceId"@, x0);
    let t1 = t0.with("workspaceId"@, x0);
    let x1 = JsonTree::Text(v.path@);
    lemma_entry(t1, "path"@, x1);
    let t2 = t1.with("path"@, x1);
    let x2 = JsonTree::Text(v.title@);
    lemma_entry(t2, "title"@, x2);
    let t3 = t2.with("title"@, x2);
    let x3 = JsonTree::Array(text_trees(v.session_ids@));
    lemma_entry(t3, "sessionIds"@, x3);
    let t4 = t3.with("sessionIds"@, x3);
    let x4 = JsonTree::Text(v.created_at@);
    lemma_entry(t4, "createdAt"@, x4);
    let t5 = t4.with("createdAt"@, x4);
    lemma_entry(t5, "updatedAt"@, JsonTree::Text(v.updated_at@));
}

/// Its members on the wire: each thing stands under its own name, and nothing else is
/// there.
pub proof fn law_workspace_list_value_members(v: WorkspaceListValue, t: JsonTree)
    requires
        t == v.tree(),
    ensures
        has_entry(t, "items"@, workspace_view_trees(v.items@)),
        has_entry(t, "archivedSessionIds"@, JsonTree::Array(text_trees(v.archived_session_ids@))),
        t->Object_0.len() == 2,
{
    let t0 = JsonTree::object();
    let x0 = workspace_view_trees(v.items@);
    lemma_entry(t0, "items"@, x0);
    let t1 = t0.with("items"@, x0);
    lemma_entry(
        t1,
        "archivedSessionIds"@,
        JsonTree::Array(text_trees(v.archived_session_ids@)),
    );
}

/// Its members on the wire: each thing stands under its own name, and nothing else is
/// there.
pub proof fn law_subscribed_frame_members(v: SubscribedFrame, t: JsonTree)
    requires
        t == v.tree(),
    ensures
        has_entry(t, "sessionId"@, JsonTree::Text(v.session_id@)),
        has_entry(t, "lastSeq"@, JsonTree::Number(Num::Unsigned(v.last_seq))),
        t->Object_0.len() == 2,
{
    let t0 = JsonTree::object();
    let x0 = JsonTree::Text(v.session_id@);
    lemma_entry(t0, "sessionId"@, x0);
    let t1 = t0.with("sessionId"@, x0);
    lemma_entry(t1, "lastSeq"@, JsonTree::Number(Num::Unsigned(v.last_seq)));
}

/// Its members on the wire: each thing stands under its own name, and nothing else is
/// there.
pub proof fn law_session_event_frame_members(v: SessionEventFrame, t: JsonTree)
    requires
        t == v.tree(),
    ensures
        has_entry(t, "sessionId"@, JsonTree::Text(v.session_id@)),
        has_entry(t, "event"@, v.event.tree()),
        v.view matches Some(x) ==> has_entry(t, "view"@, x@),
        t->Object_0.len() == 2 + flag(v.view is Some),
{
    let t0 = JsonTree::object();
    let x0 = JsonTree::Text(v.session_id@);
    lemma_entry(t0, "sessionId"@, x0);
    let t1 = t0.with("sessionId"@, x0);
    let x1 = v.event.tree();
    lemma_entry(t1, "event"@, x1);
    let t2 = t1.with("event"@, x1);
    lemma_entry_some(t2, "view"@, json_option(v.view));
}

/// Its members on the wire: each thing stands under its own name, and nothing else is
/// there.
pub proof fn law_projection_frame_members(v: ProjectionFrame, t: JsonTree)
    requires
        t == v.tree(),
    ensures
        has_entry(t, "sessionId"@, JsonTree::Text(v.session_id@)),
        has_entry(t, "key"@, JsonTree::Text(v.key@)),
        has_entry(t, "value"@, v.value@),
        has_entry(t, "seq"@, JsonTree::Number(Num::Unsigned(v.seq))),
        t->Object_0.len() == 4,
{
    let t0 = JsonTree::object();
    let x0 = JsonTree::Text(v.session_id@);
    lemma_entry(t0, "sessionId"@, x0);
    let t1 = t0.with("sessionId"@, x0);
    let x1 = JsonTree::Text(v.key@);
    lemma_entry(t1, "key"@, x1);
    let t2 = t1.with("key"@, x1);
    let x2 = v.value@;
    lemma_entry(t2, "value"@, x2);
    let t3 = t2.with("value"@, x2);
    lemma_entry(t3, "seq"@, JsonTree::Number(Num::Unsigned(v.seq)));
}

/// Its members on the wire: each thing stands under its own name, and nothing else is
/// there.
pub proof fn law_question_option_members(v: QuestionOption, t: JsonTree)
    requires
        t == v.tree(),
    ensures
        has_entry(t, "label"@, JsonTree::Text(v.label@)),
        v.description matches Some(x) ==> has_entry(t, "description"@, JsonTree::Text(x@)),
        t->Object_0.len() == 1 + flag(v.description is Some),
{
    let t0 = JsonTree::object();
    let x0 = JsonTree::Text(v.label@);
    lemma_entry(t0, "label"@, x0);
    let t1 = t0.with("label"@, x0);
    lemma_entry_some(t1, "description"@, text_option(v.description));
}

/// Its members on the wire: each thing stands under its own name, and nothing else is
/// there.
pub proof fn law_question_members(v: Question, t: JsonTree)
    requires
        t == v.tree(),
    ensures
        has_entry(t, "id"@, JsonTree::Text(v.id@)),
        has_entry(t, "question"@, JsonTree::Text(v.question@)),
        v.header matches Some(x) ==> has_entry(t, "header"@, JsonTree::Text(x@)),
        v.detail matches Some(x) ==> has_entry(t, "detail"@, JsonTree::Text(x@)),
        v.options matches Some(x) ==> has_entry(t, "options"@, question_option_trees(x@)),
        v.multi_select matches Some(x) ==> has_entry(t, "multiSelect"@, JsonTree::Bool(x)),
        v.intent matches Some(x) ==> has_entry(t, "intent"@, x@),
        v.data matches Some(x) ==> has_entry(t, "data"@, x@),
        t->Object_0.len() == 2 + flag(v.header is Some) + flag(v.detail is Some)
            + flag(v.options is Some) + flag(v.multi_select is Some) + flag(v.intent is Some)
            + flag(v.data is Some),
{
    let t0 = JsonTree::object();
    let x0 = JsonTree::Text(v.id@);
    lemma_entry(t0, "id"@, x0);
    let t1 = t0.with("id"@, x0);
    let x1 = JsonTree::Text(v.question@);
    lemma_entry(t1, "question"@, x1);
    let t2 = t1.with("question"@, x1);
    let x2 = text_option(v.header);
    lemma_entry_some(t2, "header"@, x2);
    let t3 = t2.with_some("header"@, x2);
    let x3 = text_option(v.detail);
    lemma_entry_some(t3, "detail"@, x3);
    let t4 = t3.with_some("detail"@, x3);
    let x4 = question_option_option(v.options);
    lemma_entry_some(t4, "options"@, x4);
    let t5 = t4.with_some("options"@, x4);
    let x5 = bool_option(v.multi_select);
    lemma_entry_some(t5, "multiSelect"@, x5);
    let t6 = t5.with_some("multiSelect"@, x5);
    let x6 = json_option(v.intent);
    lemma_entry_some(t6, "intent"@, x6);
    let t7 = t6.with_some("intent"@, x6);
    lemma_entry_some(t7, "data"@, json_option(v.data));
}

/// Its members on the wire: each thing stands under its own name, and nothing else is
/// there.
pub proof fn law_question_requested_frame_members(v: QuestionRequestedFrame, t: JsonTree)
    requires
        t == v.tree(),
    ensures
        has_entry(t, "sessionId"@, JsonTree::Text(v.session_id@)),
        has_entry(t, "questions"@, question_trees(v.questions@)),
        t->Object_0.len() == 2,
{
    let t0 = JsonTree::object();
    let x0 = JsonTree::Text(v.session_id@);
    lemma_entry(t0, "sessionId"@, x0);
    let t1 = t0.with("sessionId"@, x0);
    lemma_entry(t1, "questions"@, question_trees(v.questions@));
}

/// Its members on the wire: each thing stands under its own name, and nothing else is
/// there.
pub proof fn law_question_resolved_frame_members(v: QuestionResolvedFrame, t: JsonTree)
    requires
        t == v.tree(),
    ensures
        has_entry(t, "sessionId"@, JsonTree::Text(v.session_id@)),
        has_entry(t, "questionRpcId"@, JsonTree::Text(v.question_rpc_id@)),
        has_entry(t, "outcome"@, JsonTree::Text(v.outcome@)),
        t->Object_0.len() == 3,
{
    let t0 = JsonTree::object();
    let x0 = JsonTree::Text(v.session_id@);
    lemma_entry(t0, "sessionId"@, x0);
    let t1 = t0.with("sessionId"@, x0);
    let x1 = JsonTree::Text(v.question_rpc_id@);
    lemma_entry(t1, "questionRpcId"@, x1);
    let t2 = t1.with("questionRpcId"@, x1);
    lemma_entry(t2, "outcome"@, JsonTree::Text(v.outcome@));
}

/// Its members on the wire: each thing stands under its own name, and nothing else is
/// there.
pub proof fn law_host_session_added_members(v: HostSessionAdded, t: JsonTree)
    requires
        t == v.tree(),
    ensures
        has_entry(t, "sessionId"@, JsonTree::Text(v.session_id@)),
        has_entry(t, "blank"@, JsonTree::Bool(v.blank)),
        v.parent_session_id matches Some(x) ==> has_entry(
            t,
            "parentSessionId"@,
            JsonTree::Text(x@),
        ),
        v.origin matches Some(x) ==> has_entry(t, "origin"@, JsonTree::Text(x@)),
        v.cwd matches Some(x) ==> has_entry(t, "cwd"@, JsonTree::Text(x@)),
        v.agent_preset matches Some(x) ==> has_entry(t, "agentPreset"@, JsonTree::Text(x@)),
        t->Object_0.len() == 2 + flag(v.parent_session_id is Some) + flag(v.origin is Some)
            + flag(v.cwd is Some) + flag(v.agent_preset is Some),
{
    let t0 = JsonTree::object();
    let x0 = JsonTree::Text(v.session_id@);
    lemma_entry(t0, "sessionId"@, x0);
    let t1 = t0.with("sessionId"@, x0);
    let x1 = JsonTree::Bool(v.blank);
    lemma_entry(t1, "blank"@, x1);
    let t2 = t1.with("blank"@, x1);
    let x2 = text_option(v.parent_session_id);
    lemma_entry_some(t2, "parentSessionId"@, x2);
    let t3 = t2.with_some("parentSessionId"@, x2);
    let x3 = text_option(v.origin);
    lemma_entry_some(t3, "origin"@, x3);
    let t4 = t3.with_some("origin"@, x3);
    let x4 = text_option(v.cwd);
    lemma_entry_some(t4, "cwd"@, x4);
    let t5 = t4.with_some("cwd"@, x4);
    lemma_entry_some(t5, "agentPreset"@, text_option(v.agent_preset));
}

/// Its members on the wire: each thing stands under its own name, and nothing else is
/// there.
pub proof fn law_host_session_status_members(v: HostSessionStatus, t: JsonTree)
    requires
        t == v.tree(),
    ensures
        has_entry(t, "sessionId"@, JsonTree::Text(v.session_id@)),
        has_entry(t, "running"@, JsonTree::Bool(v.running)),
        t->Object_0.len() == 2,
{
    let t0 = JsonTree::object();
    let x0 = JsonTree::Text(v.session_id@);
    lemma_entry(t0, "sessionId"@, x0);
    let t1 = t0.with("sessionId"@, x0);
    lemma_entry(t1, "running"@, JsonTree::Bool(v.running));
}

/// A result says whether it is one, and then holds the value, or the error.
pub proof fn law_result_members(v: RpcResult)
    ensures
        v matches RpcResult::Success(x) ==> has_entry(v.tree(), "ok"@, JsonTree::Bool(true))
            && has_entry(v.tree(), "value"@, x@),
        v matches RpcResult::Failure(e) ==> has_entry(v.tree(), "ok"@, JsonTree::Bool(false))
            && has_entry(v.tree(), "error"@, e.tree()),
        v.tree()->Object_0.len() == 2,
{
    let a = v.tree()->Object_0;
    assert(a[0].0 == "ok"@);
    assert(a[1] == a[1]);
}

/// A replacement names what it replaces, from its first place to its last; all else is
/// appended.
pub proof fn law_surface_op_members(v: SurfaceOp)
    ensures
        v is Append ==> v.tree() == JsonTree::Text("append"@),
        v matches SurfaceOp::Replace { start, end } ==> has_entry(
            v.tree(),
            "op"@,
            JsonTree::Text("replace"@),
        ) && has_entry(v.tree(), "start"@, JsonTree::Number(Num::Unsigned(start))) && has_entry(
            v.tree(),
            "end"@,
            JsonTree::Number(Num::Unsigned(end)),
        ) && v.tree()->Object_0.len() == 3,
{
    if v is Replace {
        let a = v.tree()->Object_0;
        assert(a[0].0 == "op"@ && a[1].0 == "start"@ && a[2].0 == "end"@);
    }
}

/// Why a value is no operation: it is an object of another kind, or a replacement that does
/// not say where it begins, or where it ends, in this order; or it is no object at all.
pub proof fn law_refused_operations(t: JsonTree, e: WireError)
    requires
        SurfaceOp::refused(t, e),
    ensures
        !(t is Object) <==> e is NotAnOp,
        e is UnknownOp <==> t is Object && t.at("op"@) != JsonTree::Text("replace"@),
        e is MissingStart <==> t is Object && t.at("op"@) == JsonTree::Text("replace"@) && t.at(
            "start"@,
        ).as_nat() is None,
        e is MissingEnd <==> t is Object && t.at("op"@) == JsonTree::Text("replace"@) && t.at(
            "start"@,
        ).as_nat() is Some,
        e matches WireError::UnknownOp(op) ==> (t.at("op"@) matches JsonTree::Text(s) ==> op@ == s),
{
}

} // verus!
