use liuma_core::json::{parse, render, Json};
use liuma_core::proto::{
    ClientRequest, ClientResponse, HistoryEntry, HistoryValue, Projections, Question,
    QuestionOption, QuestionRequestedFrame, RpcError, RpcResult, ServerRequest, ServerResponse,
    SessionEvent, SubscribedFrame, SurfaceOp,
};

fn doc(text: &str) -> Json {
    parse(text).expect("a document")
}

fn pick<'a>(j: &'a Json, path: &[&str]) -> &'a Json {
    let mut at = j;
    for key in path {
        at = at.get(key).expect("a member");
    }
    at
}

fn s(text: &str) -> Json {
    Json::text(text)
}

fn n(number: u64) -> Json {
    Json::number(number)
}

/// The four envelopes and their results, there and back.
#[test]
fn envelope_shapes_roundtrip() {
    let req = ClientRequest::from_json(&doc(
        r#"{"type":"client-request","rpcId":"r1","method":"session.prompt",
            "payload":{"sessionId":"s","mode":"queue","content":[]}}"#,
    ))
    .unwrap();
    assert_eq!(req.method, "session.prompt");
    assert_eq!(pick(&req.to_json(), &["rpcId"]), &s("r1"));

    let ok = ServerResponse {
        ty: "server-response".into(),
        rpc_id: "r1".into(),
        result: RpcResult::Success(doc(r#"{"accepted":true}"#)),
    };
    let v = ok.to_json();
    assert_eq!(pick(&v, &["result", "ok"]), &Json::Bool(true));
    assert_eq!(pick(&v, &["result", "value", "accepted"]), &Json::Bool(true));
    let back = ServerResponse::from_json(&v).unwrap();
    assert_eq!(back, ok);

    let err = ServerResponse {
        ty: "server-response".into(),
        rpc_id: "r2".into(),
        result: RpcResult::Failure(RpcError {
            code: "session-not-found".into(),
            message: "nope".into(),
            details: Json::Null,
        }),
    };
    let v = err.to_json();
    assert_eq!(pick(&v, &["result", "ok"]), &Json::Bool(false));
    assert_eq!(pick(&v, &["result", "error", "code"]), &s("session-not-found"));
    assert!(pick(&v, &["result", "error"]).get("details").is_none());
    let back = ServerResponse::from_json(&v).unwrap();
    assert_eq!(back, err);
}

#[test]
fn server_request_and_respond() {
    let push = ServerRequest {
        ty: "server-request".into(),
        rpc_id: "q1".into(),
        method: "session/event".into(),
        payload: doc(r#"{"sessionId":"s","event":{"type":"turn/start","seq":1}}"#),
    };
    let v = push.to_json();
    assert_eq!(pick(&v, &["rpcId"]), &s("q1"));
    assert_eq!(pick(&v, &["method"]), &s("session/event"));
    assert_eq!(ServerRequest::from_json(&v).unwrap(), push);

    let answer = ClientResponse {
        ty: "client-response".into(),
        rpc_id: "q1".into(),
        result: RpcResult::Success(doc(r#"{"sessionId":"s","answer":{}}"#)),
    };
    let v = answer.to_json();
    assert_eq!(pick(&v, &["rpcId"]), &s("q1"));
    assert_eq!(pick(&v, &["result", "ok"]), &Json::Bool(true));
}

#[test]
fn session_event_surface_op_shapes() {
    let mut ev = SessionEvent {
        ty: "user/message".into(),
        seq: 3,
        time: 1,
        data: doc("{}"),
        source_event_seqs: Some(vec![3]),
        surface_op: Some(SurfaceOp::Append),
        ignorable: None,
    };
    let v = ev.to_json();
    assert_eq!(pick(&v, &["surfaceOp"]), &s("append"));
    assert_eq!(pick(&v, &["sourceEventSeqs"]), &doc("[3]"));
    assert_eq!(SessionEvent::from_json(&v).unwrap(), ev);

    ev.surface_op = Some(SurfaceOp::Replace { start: 2, end: 4 });
    let v = ev.to_json();
    assert_eq!(pick(&v, &["surfaceOp", "op"]), &s("replace"));
    assert_eq!(pick(&v, &["surfaceOp", "start"]), &n(2));
    assert_eq!(pick(&v, &["surfaceOp", "end"]), &n(4));
    assert_eq!(SessionEvent::from_json(&v).unwrap(), ev);
}

#[test]
fn frame_payloads_camel_case() {
    let sub = SubscribedFrame { session_id: "s".into(), last_seq: 7 };
    let v = sub.to_json();
    assert_eq!(pick(&v, &["sessionId"]), &s("s"));
    assert_eq!(pick(&v, &["lastSeq"]), &n(7));

    let q = QuestionRequestedFrame {
        session_id: "s".into(),
        questions: vec![Question {
            id: "plan".into(),
            question: "批准该计划?".into(),
            header: None,
            detail: Some("# p".into()),
            options: Some(vec![QuestionOption { label: "批准".into(), description: None }]),
            multi_select: Some(false),
            intent: Some(doc(r#"{"kind":"plan-review","approve":"批准"}"#)),
            data: None,
        }],
    };
    let v = q.to_json();
    let first = &pick(&v, &["questions"]).as_array().unwrap()[0];
    assert_eq!(pick(first, &["multiSelect"]), &Json::Bool(false));
    assert_eq!(pick(first, &["intent", "kind"]), &s("plan-review"));
    assert_eq!(QuestionRequestedFrame::from_json(&v).unwrap(), q);

    let hist = HistoryValue {
        events: vec![HistoryEntry {
            event: SessionEvent {
                ty: "turn/start".into(),
                seq: 1,
                time: 0,
                data: doc(r#"{"turn":1}"#),
                source_event_seqs: None,
                surface_op: None,
                ignorable: None,
            },
            view: None,
        }],
        has_more: false,
        cut: 0,
        projections: Some(Projections { as_of_seq: 1, values: doc(r#"{"title":"t"}"#) }),
    };
    let v = hist.to_json();
    assert_eq!(pick(&v, &["hasMore"]), &Json::Bool(false));
    assert_eq!(pick(&v, &["projections", "asOfSeq"]), &n(1));
}

/// An answer without what it promises is refused, and so is an unknown way
/// to change the transcript.
#[test]
fn broken_answers_are_refused() {
    let no_error = RpcResult::from_json(&doc(r#"{"ok":false}"#)).unwrap_err();
    assert_eq!(no_error.message(), "error result missing error body");
    assert_eq!(RpcResult::from_json(&doc(r#"{"ok":true}"#)), Ok(RpcResult::Success(Json::Null)));
    let odd = SurfaceOp::from_json(&s("prepend")).unwrap_err();
    assert_eq!(odd.message(), "surface op must be string or object");
    for (text, message) in [
        (r#"{"op":"move"}"#, "unknown surface op: move"),
        (r#"{"op":"replace","end":1}"#, "replace op missing start"),
        (r#"{"op":"replace","start":1}"#, "replace op missing end"),
    ] {
        assert_eq!(SurfaceOp::from_json(&doc(text)).unwrap_err().message(), message);
    }
    assert!(ClientRequest::from_json(&doc(r#"{"type":"client-request"}"#)).is_none());
}

/// Errors carry their code, and what goes with them.
#[test]
fn errors_carry_their_code() {
    let missing = RpcError::session_not_found("s1");
    assert_eq!(missing.code, "session-not-found");
    assert_eq!(missing.message, "session not found: s1");
    assert_eq!(RpcError::bad_request("no").code, "bad-request");
    assert_eq!(RpcError::internal("no").code, "internal");
    assert_eq!(RpcError::from_json(&missing.to_json()).unwrap(), missing);
}

/// Text is read into values, and values are written out as text.
#[test]
fn json_text_there_and_back() {
    let text = r#"{"a":[1,-2,"x",null,true],"b":{"c":2.5}}"#;
    let j = doc(text);
    assert_eq!(render(&j), text);
    assert_eq!(j.get("a").unwrap().as_array().unwrap()[1].as_i64(), Some(-2));
    assert_eq!(j.get("b").unwrap().u64_at("c"), None);
    assert!(parse("{").is_err());
    let value = j.to_value();
    assert_eq!(value["a"][0], serde_json::Value::from(1));
    assert_eq!(Json::from_value(value), j);
}
