use print_rpc::app_state::{AppState, ViewCore, Workspace};
use print_rpc::client::{Client, LineOutcome, RpcOperations};
use print_rpc::config::{global_config_string, restore_config};
use print_rpc::file_tree::{is_hidden, path_name, FileEntry};
use print_rpc::json::Json;
use print_rpc::transport::CoreSink;

fn s(t: &str) -> String {
    t.to_string()
}

#[test]
fn dispatcher_answers_available_themes() {
    let mut st = AppState::default();
    let op = RpcOperations::AvailableThemes(print_rpc::client::AvailableThemes {
        themes: vec![s("dark"), s("light")],
    });
    let out = st.handle_event(&op);
    assert_eq!(out.len(), 1);
    assert_eq!(out[0].method, "set_theme");
    assert_eq!(
        out[0].params,
        Json::Obj(vec![(s("theme_name"), Json::Str(s("InspiredGitHub")))])
    );
}

#[test]
fn dispatcher_answers_available_languages_only_with_focus() {
    let mut st = AppState::default();
    let op = RpcOperations::AvailableLanguages(print_rpc::client::AvailableLanguages {
        languages: vec![s("markdown")],
    });
    assert_eq!(st.handle_event(&op).len(), 0);
    st.view.register_view(s("view-id-1"), None);
    let out = st.handle_event(&op);
    assert_eq!(out.len(), 1);
    assert_eq!(out[0].method, "set_language");
    assert_eq!(
        out[0].params,
        Json::Obj(vec![
            (s("view_id"), Json::Str(s("view-id-1"))),
            (s("language_id"), Json::Str(s("Markdown"))),
        ])
    );
}

#[test]
fn dispatcher_ignores_the_rest() {
    let mut st = AppState::default();
    assert_eq!(st.handle_event(&RpcOperations::Unrecognized).len(), 0);
    assert_eq!(
        st.handle_event(&RpcOperations::Update(Json::Null)).len(),
        0
    );
}

#[test]
fn end_to_end_theme_feedback() {
    // client starts up, a stub engine echoes available_themes, and the
    // dispatcher answers with the default theme choice on the same stream
    let mut client: Client<u32> = Client::new(CoreSink::new_mem());
    client.client_started(None, None).unwrap();
    let echo = "{\"method\":\"available_themes\",\"params\":{\"themes\":[\"dark\",\"light\"]}}";
    let op = match client.process_line(echo) {
        LineOutcome::Operation(op) => op,
        _ => panic!("expected an operation"),
    };
    match &op {
        RpcOperations::AvailableThemes(t) => assert_eq!(t.themes, vec![s("dark"), s("light")]),
        _ => panic!("expected the theme operation"),
    }
    let mut st = AppState::default();
    let outbound = st.handle_event(&op);
    for n in &outbound {
        client.send_notification(&n.method, &n.params).unwrap();
    }
    let text: String = match client.into_sink() {
        CoreSink::Mem(v) => v.iter().collect(),
        _ => panic!("expected the in-memory sink"),
    };
    assert_eq!(
        text,
        "{\"method\":\"client_started\",\"params\":{\"config_dir\":null,\"client_extras_dir\":null}}\n\
         {\"method\":\"set_theme\",\"params\":{\"theme_name\":\"InspiredGitHub\"}}\n"
    );
}

#[test]
fn needs_save_compares_texts() {
    let mut ws = Workspace::default();
    ws.origin_text = s("abc");
    ws.input_text = s("abc");
    assert!(!ws.needs_save());
    ws.input_text = s("abcd");
    assert!(ws.needs_save());
}

#[test]
fn relative_path_breadcrumb() {
    let mut ws = Workspace::default();
    ws.project = s("proj");
    ws.dir = s("/home/me/proj");
    ws.current_file = s("/home/me/proj/docs/notes.md");
    assert_eq!(ws.relative_path(), "proj > docs > notes.md");
}

#[test]
fn relative_path_outside_dir_or_at_dir() {
    let mut ws = Workspace::default();
    ws.project = s("proj");
    ws.dir = s("/home/me/proj");
    ws.current_file = s("/home/me/proj");
    assert_eq!(ws.relative_path(), "proj");
    ws.current_file = s("/elsewhere/file.txt");
    assert_eq!(ws.relative_path(), "proj");
    ws.current_file = s("/home/me/projX/file.txt");
    assert_eq!(ws.relative_path(), "proj");
}

#[test]
fn open_file_and_set_dir_update_state() {
    let mut st = AppState::default();
    st.apply_opened_file(s("/w/a.md"), s("# hi"));
    assert_eq!(st.text(), "# hi");
    assert_eq!(st.current_file, Some(s("/w/a.md")));
    st.set_dir(Some(s("/home/me/books")));
    assert_eq!(st.workspace.project, "books");
    assert_eq!(st.workspace.dir, "/home/me/books");
    assert_eq!(st.current_dir, Some(s("/home/me/books")));
    assert_eq!(st.last_dir, None);
    st.set_dir(Some(s("/tmp/other")));
    assert_eq!(st.last_dir, Some(s("/home/me/books")));
}

#[test]
fn view_registry_replaces_and_focuses() {
    let mut v = ViewCore::default();
    v.register_view(s("v1"), Some(s("a.md")));
    v.register_view(s("v2"), None);
    v.register_view(s("v1"), Some(s("b.md")));
    assert_eq!(v.focused, Some(s("v1")));
    assert_eq!(v.views.len(), 2);
    v.apply_new_view_result(Ok(Json::Str(s("v3"))), s("c.md"));
    assert_eq!(v.focused, Some(s("v3")));
    v.apply_new_view_result(Ok(Json::Null), s("d.md"));
    assert_eq!(v.focused, Some(s("v3")));
    v.apply_new_view_result(Err(Json::Str(s("boom"))), s("e.md"));
    assert_eq!(v.focused, Some(s("v3")));
}

#[test]
fn file_entries_from_paths() {
    let e = FileEntry::from_path(s("/home/me/doc.tar.gz"));
    assert_eq!(e.name, "doc.tar.gz");
    assert_eq!(e.ext, "gz");
    assert_eq!(e.path, "/home/me/doc.tar.gz");
    let dotfile = FileEntry::from_path(s("/home/me/.gitignore"));
    assert_eq!(dotfile.name, ".gitignore");
    assert_eq!(dotfile.ext, "");
    let bare = FileEntry::from_path(s("README"));
    assert_eq!(bare.name, "README");
    assert_eq!(bare.ext, "");
}

#[test]
fn file_tree_children() {
    let root = FileEntry::new(s("root"))
        .add_child(FileEntry::new(s("a")))
        .add_child(FileEntry::new(s("b")));
    assert_eq!(root.children_count(), 2);
    assert_eq!(root.get_child(0).name, "a");
    assert_eq!(root.get_child(1).name, "b");
}

#[test]
fn hidden_entries_and_path_names() {
    assert!(is_hidden(".git"));
    assert!(!is_hidden("src"));
    assert!(!is_hidden(""));
    assert_eq!(path_name("/a/b/c"), "c");
    assert_eq!(path_name("plain"), "plain");
}

#[test]
fn config_round_trip() {
    let mut st = AppState::default();
    st.title = s("Print UI");
    st.params.debug_layout = true;
    st.current_file = Some(s("/w/a.md"));
    st.current_dir = Some(s("/w"));
    st.last_dir = None;
    st.view_id = 3;
    let text = global_config_string(&st);
    let (back, delete) = restore_config(Some(text));
    assert!(!delete);
    assert_eq!(back.title, "Print UI");
    assert!(back.params.debug_layout);
    assert_eq!(back.current_file, Some(s("/w/a.md")));
    assert_eq!(back.current_dir, Some(s("/w")));
    assert_eq!(back.last_dir, None);
    assert_eq!(back.view_id, 3);
    // transient parts come back as defaults
    assert_eq!(back.workspace.input_text, "");
    assert_eq!(back.view.views.len(), 0);
}

#[test]
fn config_recovery_policy() {
    let (st, delete) = restore_config(None);
    assert!(!delete);
    assert_eq!(st.title, "");
    let (st2, delete2) = restore_config(Some(s("not json")));
    assert!(delete2);
    assert_eq!(st2.title, "");
    let (st3, delete3) = restore_config(Some(s("{\"title\":7}")));
    assert!(delete3);
    assert_eq!(st3.view_id, 0);
}
