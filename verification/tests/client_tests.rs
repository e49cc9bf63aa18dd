use print_rpc::client::{Client, LineOutcome, RpcOperations};
use print_rpc::json::Json;
use print_rpc::transport::{make_pipe, pipe_read_line, CoreSink, WriteError};

fn s(t: &str) -> String {
    t.to_string()
}

fn mem_client() -> Client<u32> {
    Client::new(CoreSink::new_mem())
}

fn sink_text(c: Client<u32>) -> String {
    match c.into_sink() {
        CoreSink::Mem(v) => v.iter().collect(),
        CoreSink::Pipe(_) => panic!("expected the in-memory sink"),
    }
}

#[test]
fn request_ids_are_distinct_and_increasing() {
    let mut c = mem_client();
    let mut ids = Vec::new();
    for k in 0..16u32 {
        ids.push(c.send_request("new_view", &Json::Null, k).unwrap());
    }
    for i in 0..ids.len() {
        for j in 0..ids.len() {
            if i != j {
                assert_ne!(ids[i], ids[j]);
            }
        }
    }
    assert_eq!(ids[0], 0);
    assert_eq!(ids[15], 15);
}

#[test]
fn response_correlation_invokes_exactly_once() {
    let mut c = mem_client();
    for _ in 0..7 {
        // park callbacks under ids 0..6 so that id 7 is next
        c.send_request("edit", &Json::Null, 0).unwrap();
    }
    let id = c.send_request("new_view", &Json::Null, 777).unwrap();
    assert_eq!(id, 7);
    match c.process_line("{\"id\":7,\"result\":42}") {
        LineOutcome::Complete(cb, Ok(v)) => {
            assert_eq!(cb, 777);
            assert_eq!(v, Json::Num(s("42")));
        }
        _ => panic!("expected the registered callback"),
    }
    // a second response with the same id finds nothing
    assert!(matches!(
        c.process_line("{\"id\":7,\"result\":42}"),
        LineOutcome::UnknownResponse(7)
    ));
    // the other callbacks are still pending and untouched
    match c.process_line("{\"id\":3,\"error\":\"late\"}") {
        LineOutcome::Complete(cb, Err(v)) => {
            assert_eq!(cb, 0);
            assert_eq!(v, Json::Str(s("late")));
        }
        _ => panic!("expected the parked callback"),
    }
}

#[test]
fn unknown_response_is_dropped_silently() {
    let mut c = mem_client();
    c.send_request("new_view", &Json::Null, 1).unwrap();
    assert!(matches!(
        c.process_line("{\"id\":999,\"result\":1}"),
        LineOutcome::UnknownResponse(999)
    ));
    // the one pending callback still fires later
    assert!(matches!(
        c.process_line("{\"id\":0,\"result\":null}"),
        LineOutcome::Complete(1, Ok(Json::Null))
    ));
}

#[test]
fn notification_decoding_closed_set() {
    let langs = Json::Arr(vec![Json::Str(s("markdown")), Json::Str(s("plaintext"))]);
    match Client::<u32>::handle_notification(s("available_languages"), langs) {
        RpcOperations::AvailableLanguages(l) => {
            assert_eq!(l.languages, vec![s("markdown"), s("plaintext")]);
        }
        _ => panic!("expected the typed language operation"),
    }
    let themes = Json::Obj(vec![(
        s("themes"),
        Json::Arr(vec![Json::Str(s("dark")), Json::Str(s("light"))]),
    )]);
    match Client::<u32>::handle_notification(s("available_themes"), themes) {
        RpcOperations::AvailableThemes(t) => {
            assert_eq!(t.themes, vec![s("dark"), s("light")]);
        }
        _ => panic!("expected the typed theme operation"),
    }
    // the embedded engine spells the language list as an object
    let langs_obj = Json::Obj(vec![(
        s("languages"),
        Json::Arr(vec![Json::Str(s("markdown")), Json::Str(s("plaintext"))]),
    )]);
    match Client::<u32>::handle_notification(s("available_languages"), langs_obj) {
        RpcOperations::AvailableLanguages(l) => {
            assert_eq!(l.languages, vec![s("markdown"), s("plaintext")]);
        }
        _ => panic!("expected the typed language operation from the object form"),
    }
    assert!(matches!(
        Client::<u32>::handle_notification(s("foo_bar"), Json::Null),
        RpcOperations::Unrecognized
    ));
    assert!(matches!(
        Client::<u32>::handle_notification(s("update"), Json::Null),
        RpcOperations::Update(Json::Null)
    ));
}

#[test]
fn reader_step_routes_messages() {
    let mut c = mem_client();
    match c.process_line("{\"method\":\"scroll_to\",\"params\":[0,1]}") {
        LineOutcome::Operation(RpcOperations::ScrollTo(p)) => {
            assert_eq!(p, Json::Arr(vec![Json::Num(s("0")), Json::Num(s("1"))]));
        }
        _ => panic!("expected a scroll operation"),
    }
    match c.process_line("{\"method\":\"measure_width\",\"params\":[],\"id\":5}") {
        LineOutcome::Operation(RpcOperations::MeasureWidth((id, p))) => {
            assert_eq!(id, 5);
            assert_eq!(p, Json::Arr(vec![]));
        }
        _ => panic!("expected the inbound request operation"),
    }
    assert!(matches!(
        c.process_line("{\"method\":\"nope\",\"params\":null,\"id\":9}"),
        LineOutcome::UnsupportedRequest(9)
    ));
    assert!(matches!(
        c.process_line("not json"),
        LineOutcome::Malformed(_)
    ));
    assert!(matches!(
        c.process_line("{\"method\":\"command\",\"params\":{\"method\":\"exit\"}}"),
        LineOutcome::Exit
    ));
}

#[test]
fn notifications_are_fifo_on_the_stream() {
    let mut c = mem_client();
    c.send_notification("n1", &Json::Num(s("1"))).unwrap();
    c.send_notification("n2", &Json::Num(s("2"))).unwrap();
    c.send_notification("n3", &Json::Num(s("3"))).unwrap();
    assert_eq!(
        sink_text(c),
        "{\"method\":\"n1\",\"params\":1}\n{\"method\":\"n2\",\"params\":2}\n{\"method\":\"n3\",\"params\":3}\n"
    );
}

#[test]
fn write_to_closed_pipe_is_a_recoverable_error() {
    let (reader, writer) = make_pipe();
    drop(reader);
    let mut c: Client<u32> = Client::new(CoreSink::Pipe(writer));
    assert_eq!(
        c.send_notification("ping", &Json::Null),
        Err(WriteError::Closed)
    );
}

#[test]
fn read_from_closed_pipe_reports_end_of_stream() {
    let (mut reader, writer) = make_pipe();
    drop(writer);
    assert_eq!(pipe_read_line(&mut reader), None);
}
