use print_rpc::json::{parse_json, to_json_string, Json};
use print_rpc::message::{
    encode, encode_request, encode_response, parse_u64_digits, DecodeError, Message,
};

fn s(t: &str) -> String {
    t.to_string()
}

#[test]
fn parse_simple_values() {
    assert_eq!(parse_json("null"), Some(Json::Null));
    assert_eq!(parse_json("true"), Some(Json::Bool(true)));
    assert_eq!(parse_json("false"), Some(Json::Bool(false)));
    assert_eq!(parse_json("42"), Some(Json::Num(s("42"))));
    assert_eq!(parse_json("-1.5e3"), Some(Json::Num(s("-1.5e3"))));
    assert_eq!(parse_json("\"hi\""), Some(Json::Str(s("hi"))));
}

#[test]
fn parse_structures() {
    assert_eq!(
        parse_json("[1,\"a\",null]"),
        Some(Json::Arr(vec![
            Json::Num(s("1")),
            Json::Str(s("a")),
            Json::Null
        ]))
    );
    assert_eq!(
        parse_json("{\"a\":1,\"b\":[true]}"),
        Some(Json::Obj(vec![
            (s("a"), Json::Num(s("1"))),
            (s("b"), Json::Arr(vec![Json::Bool(true)])),
        ]))
    );
    assert_eq!(parse_json("[]"), Some(Json::Arr(vec![])));
    assert_eq!(parse_json("{}"), Some(Json::Obj(vec![])));
}

#[test]
fn parse_tolerates_whitespace() {
    assert_eq!(
        parse_json(" { \"m\" :\t[ 1 , 2 ] } \r\n"),
        Some(Json::Obj(vec![(
            s("m"),
            Json::Arr(vec![Json::Num(s("1")), Json::Num(s("2"))])
        )]))
    );
}

#[test]
fn parse_rejects_garbage() {
    assert_eq!(parse_json("not json"), None);
    assert_eq!(parse_json(""), None);
    assert_eq!(parse_json("{"), None);
    assert_eq!(parse_json("[1,]"), None);
    assert_eq!(parse_json("01"), None);
    assert_eq!(parse_json("1 2"), None);
    assert_eq!(parse_json("\"unterminated"), None);
    assert_eq!(parse_json("\"bad\\escape\""), None);
    assert_eq!(parse_json("\"\\ud800\""), None);
}

#[test]
fn parse_string_escapes() {
    assert_eq!(
        parse_json("\"a\\\"b\\\\c\\nd\\u0041\""),
        Some(Json::Str(s("a\"b\\c\nd\u{41}")))
    );
}

#[test]
fn serialize_escapes_and_parses_back() {
    let v = Json::Str(s("line\none \"two\" \\three\ttab \u{1} ctl"));
    let text = to_json_string(&v);
    assert_eq!(parse_json(&text), Some(v));
}

#[test]
fn serialize_nested_round_trip() {
    let v = Json::Obj(vec![
        (s("list"), Json::Arr(vec![Json::Num(s("1")), Json::Null])),
        (s("name"), Json::Str(s("x"))),
        (s("flag"), Json::Bool(false)),
    ]);
    let text = to_json_string(&v);
    assert_eq!(text, "{\"list\":[1,null],\"name\":\"x\",\"flag\":false}");
    assert_eq!(parse_json(&text), Some(v));
}

#[test]
fn encode_notification_wire_shape() {
    let params = Json::Obj(vec![(s("k"), Json::Num(s("7")))]);
    let line = encode("do_it", &params);
    assert_eq!(line, "{\"method\":\"do_it\",\"params\":{\"k\":7}}\n");
}

#[test]
fn encode_request_wire_shape() {
    let line = encode_request("new_view", &Json::Null, 12);
    assert_eq!(line, "{\"method\":\"new_view\",\"params\":null,\"id\":12}\n");
}

#[test]
fn notification_round_trip() {
    let params = Json::Arr(vec![
        Json::Str(s("markdown")),
        Json::Obj(vec![(s("deep"), Json::Num(s("-2.5")))]),
        Json::Bool(true),
    ]);
    let line = encode("available_languages", &params);
    match Message::decode(&line) {
        Ok(Message::Notification(n)) => {
            assert_eq!(n.method, "available_languages");
            assert_eq!(n.params, params);
        }
        other => panic!("expected a notification, got {:?}", other.is_ok()),
    }
}

#[test]
fn request_round_trip() {
    let params = Json::Obj(vec![(s("file_path"), Json::Str(s("/tmp/a.md")))]);
    let line = encode_request("new_view", &params, 7);
    match Message::decode(&line) {
        Ok(Message::Request(r)) => {
            assert_eq!(r.method, "new_view");
            assert_eq!(r.params, params);
            assert_eq!(r.id, 7);
        }
        _ => panic!("expected the request back"),
    }
}

#[test]
fn response_round_trip() {
    let ok_line = encode_response(9, Ok(&Json::Num(s("3"))));
    assert_eq!(ok_line, "{\"id\":9,\"result\":3}\n");
    match Message::decode(&ok_line) {
        Ok(Message::Response(r)) => {
            assert_eq!(r.id, 9);
            assert_eq!(r.result, Ok(Json::Num(s("3"))));
        }
        _ => panic!("expected the response back"),
    }
    let err_line = encode_response(10, Err(&Json::Str(s("nope"))));
    match Message::decode(&err_line) {
        Ok(Message::Response(r)) => {
            assert_eq!(r.id, 10);
            assert_eq!(r.result, Err(Json::Str(s("nope"))));
        }
        _ => panic!("expected the error response back"),
    }
}

#[test]
fn decode_request() {
    match Message::decode("{\"method\":\"measure_width\",\"params\":[],\"id\":3}") {
        Ok(Message::Request(r)) => {
            assert_eq!(r.method, "measure_width");
            assert_eq!(r.params, Json::Arr(vec![]));
            assert_eq!(r.id, 3);
        }
        _ => panic!("expected a request"),
    }
}

#[test]
fn decode_response_ok_and_err() {
    match Message::decode("{\"id\":7,\"result\":42}") {
        Ok(Message::Response(r)) => {
            assert_eq!(r.id, 7);
            assert_eq!(r.result, Ok(Json::Num(s("42"))));
        }
        _ => panic!("expected a response"),
    }
    match Message::decode("{\"id\":8,\"error\":\"bad\"}") {
        Ok(Message::Response(r)) => {
            assert_eq!(r.id, 8);
            assert_eq!(r.result, Err(Json::Str(s("bad"))));
        }
        _ => panic!("expected an error response"),
    }
}

#[test]
fn decode_malformed_line_is_parse_error() {
    match Message::decode("not json") {
        Err(DecodeError::ParseError(orig)) => assert_eq!(orig, "not json"),
        _ => panic!("expected a parse error"),
    }
}

#[test]
fn decode_wrong_shapes() {
    assert!(matches!(
        Message::decode("[1,2]"),
        Err(DecodeError::InvalidShape)
    ));
    assert!(matches!(
        Message::decode("{\"foo\":1}"),
        Err(DecodeError::InvalidShape)
    ));
    assert!(matches!(
        Message::decode("{\"id\":true,\"result\":1}"),
        Err(DecodeError::InvalidShape)
    ));
    assert!(matches!(
        Message::decode("{\"method\":\"m\"}"),
        Err(DecodeError::InvalidShape)
    ));
    assert!(matches!(
        Message::decode("{\"id\":1}"),
        Err(DecodeError::InvalidShape)
    ));
    // an id too large for u64
    assert!(matches!(
        Message::decode("{\"id\":18446744073709551616,\"result\":1}"),
        Err(DecodeError::InvalidShape)
    ));
}

#[test]
fn decode_request_id_bounds() {
    assert_eq!(parse_u64_digits("18446744073709551615"), Some(u64::MAX));
    assert_eq!(parse_u64_digits("18446744073709551616"), None);
    assert_eq!(parse_u64_digits(""), None);
    assert_eq!(parse_u64_digits("12a"), None);
}

#[test]
fn exit_sentinel_recognized() {
    let line = "{\"method\":\"command\",\"params\":{\"method\":\"exit\"}}";
    match Message::decode(line) {
        Ok(m) => assert!(m.is_exit_sentinel()),
        _ => panic!("expected a notification"),
    }
    let other = Message::decode("{\"method\":\"command\",\"params\":{\"method\":\"save\"}}").unwrap();
    assert!(!other.is_exit_sentinel());
}
