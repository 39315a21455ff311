use surreal_rpc::conn::Frame;
use surreal_rpc::conn::FrameAction;
use surreal_rpc::conn::handle_frame;
use surreal_rpc::conn::run_frames;
use surreal_rpc::decode::parse_text_x;
use surreal_rpc::encode::to_text;
use surreal_rpc::rpc::ErrorKind;
use surreal_rpc::rpc::RpcResponse;
use surreal_rpc::rpc::Session;
use surreal_rpc::rpc::dispatch_text;
use surreal_rpc::value::JsonValue;

fn ses() -> Session {
    Session::for_db("testns", "testdb")
}

#[test]
fn it_works() {
    let result = surreal_rpc::add(2, 2);
    assert_eq!(result, 4);
}

#[test]
fn session_for_db() {
    let s = ses();
    assert_eq!(s.ns, "testns");
    assert_eq!(s.db, "testdb");
    assert!(s.auth.is_none());
}

#[test]
fn ping_round_trip() {
    let req = JsonValue::Obj(vec![
        (String::from("id"), JsonValue::Str(String::from("1"))),
        (String::from("method"), JsonValue::Str(String::from("ping"))),
        (String::from("params"), JsonValue::Arr(Vec::new())),
    ]);
    let text = to_text(&req);
    assert_eq!(text, "{\"id\":\"1\",\"method\":\"ping\",\"params\":[]}");
    let reply = dispatch_text(&text, &ses());
    assert_eq!(reply, "{\"id\":\"1\",\"result\":null}");
}

#[test]
fn id_echoed_for_each_valid_shape() {
    let s = ses();
    assert_eq!(
        dispatch_text("{\"id\":\"abc\",\"method\":\"ping\",\"params\":[]}", &s),
        "{\"id\":\"abc\",\"result\":null}"
    );
    assert_eq!(
        dispatch_text("{\"id\":null,\"method\":\"ping\",\"params\":[]}", &s),
        "{\"id\":null,\"result\":null}"
    );
    // an absent id is echoed as null
    assert_eq!(
        dispatch_text("{\"method\":\"ping\",\"params\":[]}", &s),
        "{\"id\":null,\"result\":null}"
    );
}

#[test]
fn missing_method_is_invalid() {
    let reply = dispatch_text("{\"id\":\"7\",\"params\":[]}", &ses());
    assert_eq!(
        reply,
        "{\"id\":\"7\",\"error\":{\"code\":\"InvalidMethod\",\"message\":\"the method field must be a string\"}}"
    );
}

#[test]
fn non_string_method_is_invalid() {
    let reply = dispatch_text("{\"id\":\"7\",\"method\":42,\"params\":[]}", &ses());
    assert_eq!(
        reply,
        "{\"id\":\"7\",\"error\":{\"code\":\"InvalidMethod\",\"message\":\"the method field must be a string\"}}"
    );
}

#[test]
fn omitted_params_default_to_empty() {
    let reply = dispatch_text("{\"id\":\"1\",\"method\":\"ping\"}", &ses());
    assert_eq!(reply, "{\"id\":\"1\",\"result\":null}");
}

#[test]
fn non_array_params_are_invalid() {
    let reply = dispatch_text("{\"id\":\"1\",\"method\":\"ping\",\"params\":7}", &ses());
    assert_eq!(
        reply,
        "{\"id\":\"1\",\"error\":{\"code\":\"InvalidParams\",\"message\":\"the params field must be an array\"}}"
    );
}

#[test]
fn unknown_method_not_found() {
    let reply = dispatch_text("{\"id\":\"2\",\"method\":\"frobnicate\",\"params\":[]}", &ses());
    assert_eq!(
        reply,
        "{\"id\":\"2\",\"error\":{\"code\":\"MethodNotFound\",\"message\":\"no handler is registered for the method\"}}"
    );
}

#[test]
fn numeric_id_is_invalid() {
    let reply = dispatch_text("{\"id\":2,\"method\":\"frobnicate\",\"params\":[]}", &ses());
    assert_eq!(
        reply,
        "{\"id\":null,\"error\":{\"code\":\"InvalidId\",\"message\":\"the id field must be null or a string\"}}"
    );
}

#[test]
fn signin_stub_answers_null() {
    let reply = dispatch_text(
        "{\"id\":\"s\",\"method\":\"signin\",\"params\":[\"root\",\"root\"]}",
        &ses(),
    );
    assert_eq!(reply, "{\"id\":\"s\",\"result\":null}");
}

#[test]
fn malformed_frame_parse_error() {
    let reply = dispatch_text("this is not a frame", &ses());
    assert_eq!(
        reply,
        "{\"id\":null,\"error\":{\"code\":\"ParseError\",\"message\":\"the frame is not a well-formed value\"}}"
    );
}

#[test]
fn malformed_frame_keeps_connection_open() {
    let frames = vec![
        Frame::Text(String::from("@@@ nonsense @@@")),
        Frame::Text(String::from("{\"id\":\"after\",\"method\":\"ping\"}")),
    ];
    let out = run_frames(&frames, &ses());
    assert_eq!(out.len(), 2);
    assert!(out[0].contains("ParseError"));
    assert_eq!(out[1], "{\"id\":\"after\",\"result\":null}");
}

#[test]
fn hundred_pings_in_order() {
    let mut frames = Vec::new();
    for k in 0..100 {
        frames.push(Frame::Text(format!(
            "{{\"id\":\"{}\",\"method\":\"ping\",\"params\":[]}}",
            k
        )));
    }
    let out = run_frames(&frames, &ses());
    assert_eq!(out.len(), 100);
    for k in 0..100 {
        assert_eq!(out[k], format!("{{\"id\":\"{}\",\"result\":null}}", k));
    }
}

#[test]
fn binary_frame_unsupported_but_answered() {
    match handle_frame(&Frame::Binary(vec![1, 2, 3]), &ses()) {
        FrameAction::Reply(r) => assert_eq!(
            r,
            "{\"id\":null,\"error\":{\"code\":\"UnsupportedFrame\",\"message\":\"only text frames are supported\"}}"
        ),
        FrameAction::Shut => panic!("a binary frame must not shut the connection"),
    }
}

#[test]
fn close_frame_shuts_the_loop() {
    assert!(matches!(handle_frame(&Frame::Close, &ses()), FrameAction::Shut));
    let frames = vec![
        Frame::Text(String::from("{\"id\":\"1\",\"method\":\"ping\"}")),
        Frame::Close,
        Frame::Text(String::from("{\"id\":\"2\",\"method\":\"ping\"}")),
    ];
    let out = run_frames(&frames, &ses());
    assert_eq!(out.len(), 1);
    assert_eq!(out[0], "{\"id\":\"1\",\"result\":null}");
}

#[test]
fn engine_error_envelope_renders() {
    let r = RpcResponse {
        id: Some(JsonValue::Str(String::from("9"))),
        body: Err(ErrorKind::EngineError),
    };
    let out = surreal_rpc::rpc::encode_response(r);
    assert_eq!(
        out,
        "{\"id\":\"9\",\"error\":{\"code\":\"EngineError\",\"message\":\"the engine failed to execute the request\"}}"
    );
}

#[test]
fn nested_value_round_trip() {
    let text = "{\"a\":[1,-25,true,false,null,\"x\"],\"b\":{\"c\":[]}}";
    let v = parse_text_x(text).expect("the frame should parse");
    assert_eq!(to_text(&v), text);
}

#[test]
fn whitespace_is_tolerated() {
    let text = " { \"id\" : \"1\" ,\n\t\"method\" : \"ping\" } ";
    assert_eq!(dispatch_text(text, &ses()), "{\"id\":\"1\",\"result\":null}");
}

#[test]
fn number_width_limits() {
    assert!(parse_text_x("999999999999999999").is_some());
    assert!(parse_text_x("9999999999999999999").is_none());
    let v = parse_text_x("-42").expect("a negative number should parse");
    assert_eq!(to_text(&v), "-42");
    assert_eq!(to_text(&JsonValue::Int(0)), "0");
    assert_eq!(to_text(&JsonValue::Int(i64::MIN)), "-9223372036854775808");
}

#[test]
fn string_escapes_are_refused() {
    assert!(parse_text_x("\"a\\b\"").is_none());
    assert!(parse_text_x("\"unterminated").is_none());
}

#[test]
fn trailing_text_is_refused() {
    assert!(parse_text_x("null null").is_none());
    assert!(parse_text_x("[1,2,]").is_none());
    assert!(parse_text_x("{\"a\":}").is_none());
}

#[test]
fn first_binding_of_a_key_wins() {
    let reply = dispatch_text("{\"id\":\"a\",\"id\":\"b\",\"method\":\"ping\"}", &ses());
    assert_eq!(reply, "{\"id\":\"a\",\"result\":null}");
}
