//! The client core: request-id allocation, the pending-callback table, the
//! send path, and the decision logic of the background reader loop.
//!
//! The client is generic over the callback payload `C` (a one-shot
//! completion value). Concurrency lives with the caller: the surrounding
//! program serializes calls through its own lock, and this core states what
//! each serialized step does.

use vstd::prelude::*;

use std::collections::HashMap;

use crate::json::Json;
use crate::json::JsonV;
use crate::message::DecodeError;
use crate::message::Message;
use crate::message::MessageV;
use crate::message::classify;
use crate::message::encode;
use crate::message::encode_notification_spec;
use crate::message::encode_request;
use crate::message::encode_request_spec;
use crate::message::obj_lookup;
use crate::message::spec_is_exit_sentinel;
use crate::message::str_eq;
use crate::json::sp_json;
use crate::transport::CoreSink;
use crate::transport::WriteError;

verus! {

/// Payload of the `available_themes` notification: the theme names.
pub struct AvailableThemes {
    pub themes: Vec<String>,
}

/// Payload of the `available_languages` notification: the language ids.
pub struct AvailableLanguages {
    pub languages: Vec<String>,
}

/// The closed set of typed operations the reader loop hands to the
/// application, one per recognized inbound method; `Unrecognized` is the
/// sentinel for any other method name.
pub enum RpcOperations {
    Update(Json),
    ScrollTo(Json),
    DefStyle(Json),
    AvailablePlugins(Json),
    UpdateCmds(Json),
    PluginStarted(Json),
    PluginStopped(Json),
    ConfigChanged(Json),
    ThemeChanged(Json),
    Alert(Json),
    AvailableThemes(AvailableThemes),
    FindStatus(Json),
    ReplaceStatus(Json),
    AvailableLanguages(AvailableLanguages),
    LanguageChanged(Json),
    MeasureWidth((u64, Json)),
    Unrecognized,
}

pub open spec fn m_update() -> Seq<char> {
    "update"@
}

pub open spec fn m_scroll_to() -> Seq<char> {
    "scroll_to"@
}

pub open spec fn m_def_style() -> Seq<char> {
    "def_style"@
}

pub open spec fn m_available_plugins() -> Seq<char> {
    "available_plugins"@
}

pub open spec fn m_update_cmds() -> Seq<char> {
    "update_cmds"@
}

pub open spec fn m_plugin_started() -> Seq<char> {
    "plugin_started"@
}

pub open spec fn m_plugin_stopped() -> Seq<char> {
    "plugin_stopped"@
}

pub open spec fn m_config_changed() -> Seq<char> {
    "config_changed"@
}

pub open spec fn m_theme_changed() -> Seq<char> {
    "theme_changed"@
}

pub open spec fn m_alert() -> Seq<char> {
    "alert"@
}

pub open spec fn m_available_themes() -> Seq<char> {
    "available_themes"@
}

pub open spec fn m_find_status() -> Seq<char> {
    "find_status"@
}

pub open spec fn m_replace_status() -> Seq<char> {
    "replace_status"@
}

pub open spec fn m_available_languages() -> Seq<char> {
    "available_languages"@
}

pub open spec fn m_language_changed() -> Seq<char> {
    "language_changed"@
}

pub open spec fn m_measure_width() -> Seq<char> {
    "measure_width"@
}

pub open spec fn key_themes() -> Seq<char> {
    "themes"@
}

pub open spec fn key_languages() -> Seq<char> {
    "languages"@
}

/// Whether every item is a string, as in a name list.
pub open spec fn all_strings(items: Seq<JsonV>) -> bool {
    forall|k: int| 0 <= k < items.len() ==> (#[trigger] items[k]) matches JsonV::Str(s)
}

/// The string contents of a list of string items.
pub open spec fn string_contents(items: Seq<JsonV>) -> Seq<Seq<char>> {
    Seq::new(
        items.len(),
        |k: int|
            match items[k] {
                JsonV::Str(s) => s,
                _ => Seq::empty(),
            },
    )
}

/// The theme names of an `available_themes` payload: an object whose
/// `themes` field is an array of strings.
pub open spec fn themes_of(p: JsonV) -> Option<Seq<Seq<char>>> {
    match p {
        JsonV::Obj(fields) => match obj_lookup(fields, key_themes()) {
            Some(JsonV::Arr(items)) => if all_strings(items) {
                Some(string_contents(items))
            } else {
                None
            },
            _ => None,
        },
        _ => None,
    }
}

/// The language ids of an `available_languages` payload: a bare array of
/// strings, or an object whose `languages` field is one (the embedded
/// engine sends the object form).
pub open spec fn languages_of(p: JsonV) -> Option<Seq<Seq<char>>> {
    match p {
        JsonV::Arr(items) => if all_strings(items) {
            Some(string_contents(items))
        } else {
            None
        },
        JsonV::Obj(fields) => match obj_lookup(fields, key_languages()) {
            Some(JsonV::Arr(items)) => if all_strings(items) {
                Some(string_contents(items))
            } else {
                None
            },
            _ => None,
        },
        _ => None,
    }
}

pub open spec fn opt_ref_view(o: Option<&String>) -> Option<Seq<char>> {
    match o {
        Some(s) => Some(s@),
        None => None,
    }
}

/// The params of the `client_started` notification.
pub open spec fn client_started_params(cd: Option<Seq<char>>, ced: Option<Seq<char>>) -> JsonV {
    JsonV::Obj(
        seq![
            ("config_dir"@, match cd {
                Some(s) => JsonV::Str(s),
                None => JsonV::Null,
            }),
            ("client_extras_dir"@, match ced {
                Some(s) => JsonV::Str(s),
                None => JsonV::Null,
            }),
        ],
    )
}

pub open spec fn strings_match(v: Seq<String>, names: Seq<Seq<char>>) -> bool {
    v.len() == names.len() && forall|k: int| 0 <= k < v.len() ==> (#[trigger] v[k])@ == names[k]
}

/// The decoding rule from an inbound notification to its typed operation:
/// each recognized method name maps to its variant, carrying the params;
/// `available_themes` and `available_languages` are parsed further, and
/// fall back to `Unrecognized` when their payload has the wrong shape; any
/// other method name maps to `Unrecognized`.
pub open spec fn notification_op_matches(m: Seq<char>, p: JsonV, r: RpcOperations) -> bool {
    if m == m_update() {
        r matches RpcOperations::Update(j) && j@ == p
    } else if m == m_scroll_to() {
        r matches RpcOperations::ScrollTo(j) && j@ == p
    } else if m == m_def_style() {
        r matches RpcOperations::DefStyle(j) && j@ == p
    } else if m == m_available_plugins() {
        r matches RpcOperations::AvailablePlugins(j) && j@ == p
    } else if m == m_update_cmds() {
        r matches RpcOperations::UpdateCmds(j) && j@ == p
    } else if m == m_plugin_started() {
        r matches RpcOperations::PluginStarted(j) && j@ == p
    } else if m == m_plugin_stopped() {
        r matches RpcOperations::PluginStopped(j) && j@ == p
    } else if m == m_config_changed() {
        r matches RpcOperations::ConfigChanged(j) && j@ == p
    } else if m == m_theme_changed() {
        r matches RpcOperations::ThemeChanged(j) && j@ == p
    } else if m == m_alert() {
        r matches RpcOperations::Alert(j) && j@ == p
    } else if m == m_available_themes() {
        match themes_of(p) {
            Some(names) => r matches RpcOperations::AvailableThemes(t) && strings_match(
                t.themes@,
                names,
            ),
            None => r is Unrecognized,
        }
    } else if m == m_find_status() {
        r matches RpcOperations::FindStatus(j) && j@ == p
    } else if m == m_replace_status() {
        r matches RpcOperations::ReplaceStatus(j) && j@ == p
    } else if m == m_available_languages() {
        match languages_of(p) {
            Some(names) => r matches RpcOperations::AvailableLanguages(t) && strings_match(
                t.languages@,
                names,
            ),
            None => r is Unrecognized,
        }
    } else if m == m_language_changed() {
        r matches RpcOperations::LanguageChanged(j) && j@ == p
    } else {
        r is Unrecognized
    }
}

/// Extracts the contents of an all-string array.
fn extract_strings(items: &Vec<Json>) -> (r: Option<Vec<String>>)
    ensures
        match r {
            Some(v) => all_strings(crate::json::view_of_seq(items@)) && strings_match(
                v@,
                string_contents(crate::json::view_of_seq(items@)),
            ),
            None => !all_strings(crate::json::view_of_seq(items@)),
        },
{
    let ghost iv = crate::json::view_of_seq(items@);
    proof {
        crate::json::lemma_view_of_seq_len(items@);
        assert forall|k: int| 0 <= k < items@.len() implies #[trigger] iv[k]
            == crate::json::view_of(items@[k]) by {
            crate::json::lemma_view_of_seq_index(items@, k);
        }
    }
    let mut out: Vec<String> = Vec::new();
    let mut i: usize = 0;
    while i < items.len()
        invariant
            iv == crate::json::view_of_seq(items@),
            iv.len() == items.len(),
            forall|k: int| 0 <= k < items@.len() ==> #[trigger] iv[k] == crate::json::view_of(
                items@[k],
            ),
            i <= items.len(),
            out@.len() == i,
            forall|k: int| 0 <= k < i ==> (#[trigger] iv[k]) matches JsonV::Str(s),
            forall|k: int| 0 <= k < i ==> (#[trigger] out@[k])@ == string_contents(iv)[k],
        decreases items.len() - i,
    {
        match &items[i] {
            Json::Str(s) => {
                out.push(s.clone());
            },
            _ => {
                proof {
                    assert(!(iv[i as int] matches JsonV::Str(s)));
                }
                return None;
            },
        }
        i = i + 1;
    }
    Some(out)
}

/// What went into one line of the reader loop, and what the loop should do
/// with it: forward an operation, complete a pending request, drop an
/// unknown response, answer an unsupported request with an error, skip a
/// malformed line, or stop at the close signal.
pub enum LineOutcome<C> {
    Operation(RpcOperations),
    Complete(C, Result<Json, Json>),
    UnknownResponse(u64),
    UnsupportedRequest(u64),
    Malformed(DecodeError),
    Exit,
}

pub open spec fn result_views_match(a: Result<Json, Json>, b: Result<JsonV, JsonV>) -> bool {
    match (a, b) {
        (Ok(x), Ok(y)) => x@ == y,
        (Err(x), Err(y)) => x@ == y,
        _ => false,
    }
}

/// The RPC client core: the engine-facing writer, the pending-request
/// table, and the id generator (monotonically increasing, starting at 0).
pub struct Client<C> {
    sink: CoreSink,
    pending: HashMap<u64, C>,
    next_id: u64,
}

impl<C> Client<C> {
    /// The characters written to the engine so far.
    pub closed spec fn sent(&self) -> Seq<char> {
        self.sink.sent()
    }

    /// The pending-request table: request id to its not-yet-invoked
    /// callback.
    pub closed spec fn pending_map(&self) -> Map<u64, C> {
        self.pending@
    }

    /// The id the next outbound request will get.
    pub closed spec fn next_id_spec(&self) -> u64 {
        self.next_id
    }

    /// Whether the client writes to the in-memory sink, whose writes never
    /// fail: on it, every send is owed success.
    pub closed spec fn uses_mem_sink(&self) -> bool {
        self.sink.is_mem()
    }

    /// A fresh client over the given writer: empty table, ids from 0.
    pub fn new(sink: CoreSink) -> (c: Client<C>)
        ensures
            c.pending_map() == Map::<u64, C>::empty(),
            c.next_id_spec() == 0,
            c.sent() == sink.sent(),
            c.uses_mem_sink() == sink.is_mem(),
    {
        Client { sink, pending: HashMap::new(), next_id: 0 }
    }

    /// Encodes and writes one notification. On success the engine-facing
    /// stream is extended by exactly the encoded line; on failure (which
    /// only the live pipe can produce) it is unchanged. The table and the
    /// id generator are untouched.
    pub fn send_notification(&mut self, method: &str, params: &Json) -> (r: Result<
        (),
        WriteError,
    >)
        ensures
            final(self).pending_map() == old(self).pending_map(),
            final(self).next_id_spec() == old(self).next_id_spec(),
            final(self).uses_mem_sink() == old(self).uses_mem_sink(),
            old(self).uses_mem_sink() ==> r is Ok,
            match r {
                Ok(u) => final(self).sent() == old(self).sent() + encode_notification_spec(
                    method@,
                    params@,
                ),
                Err(e) => final(self).sent() == old(self).sent(),
            },
    {
        let line = encode(method, params);
        self.sink.write_line(line.as_str())
    }

    /// Allocates the next request id, registers the callback under it, and
    /// writes the encoded request. The id allocated is exactly the old
    /// generator value, and the generator moves one past it. On a write
    /// failure (which only the live pipe can produce) the entry stays
    /// registered (the caller may drop it) and the stream is unchanged.
    pub fn send_request(&mut self, method: &str, params: &Json, callback: C) -> (r: Result<
        u64,
        WriteError,
    >)
        requires
            old(self).next_id_spec() < u64::MAX,
        ensures
            final(self).next_id_spec() == old(self).next_id_spec() + 1,
            final(self).pending_map() == old(self).pending_map().insert(
                old(self).next_id_spec(),
                callback,
            ),
            final(self).uses_mem_sink() == old(self).uses_mem_sink(),
            old(self).uses_mem_sink() ==> r is Ok,
            match r {
                Ok(id) => id == old(self).next_id_spec() && final(self).sent() == old(self).sent()
                    + encode_request_spec(method@, params@, id),
                Err(e) => final(self).sent() == old(self).sent(),
            },
    {
        let id = self.next_id;
        self.next_id = self.next_id + 1;
        self.pending.insert(id, callback);
        let line = encode_request(method, params, id);
        match self.sink.write_line(line.as_str()) {
            Ok(u) => Ok(id),
            Err(e) => Err(e),
        }
    }

    /// Removes and returns the callback registered under `id`, if any; the
    /// rest of the table is untouched. A second call with the same id finds
    /// nothing: a callback comes out at most once.
    pub fn take_pending(&mut self, id: u64) -> (r: Option<C>)
        ensures
            final(self).sent() == old(self).sent(),
            final(self).next_id_spec() == old(self).next_id_spec(),
            final(self).uses_mem_sink() == old(self).uses_mem_sink(),
            match r {
                Some(cb) => old(self).pending_map().contains_key(id) && cb == old(
                    self,
                ).pending_map()[id] && final(self).pending_map() == old(self).pending_map().remove(
                    id,
                ),
                None => !old(self).pending_map().contains_key(id) && final(self).pending_map()
                    == old(self).pending_map(),
            },
    {
        let r = self.pending.remove(&id);
        proof {
            if !old(self).pending_map().contains_key(id) {
                assert(old(self).pending_map().remove(id) =~= old(self).pending_map());
            }
        }
        r
    }

    /// The first notification of a session: tells the engine where the
    /// configuration and extras directories are (either may be absent).
    pub fn client_started(
        &mut self,
        config_dir: Option<&String>,
        client_extras_dir: Option<&String>,
    ) -> (r: Result<(), WriteError>)
        ensures
            final(self).pending_map() == old(self).pending_map(),
            final(self).next_id_spec() == old(self).next_id_spec(),
            final(self).uses_mem_sink() == old(self).uses_mem_sink(),
            old(self).uses_mem_sink() ==> r is Ok,
            match r {
                Ok(u) => final(self).sent() == old(self).sent() + encode_notification_spec(
                    "client_started"@,
                    client_started_params(opt_ref_view(config_dir), opt_ref_view(client_extras_dir)),
                ),
                Err(e) => final(self).sent() == old(self).sent(),
            },
    {
        let mut fields: Vec<(String, Json)> = Vec::new();
        let ghost f0 = fields@;
        let cd = match config_dir {
            Some(s) => Json::Str(s.clone()),
            None => Json::Null,
        };
        fields.push(("config_dir".to_owned(), cd));
        let ghost f1 = fields@;
        proof {
            crate::json::lemma_view_of_fields_push(f0, fields@[0].0, fields@[0].1);
        }
        let ced = match client_extras_dir {
            Some(s) => Json::Str(s.clone()),
            None => Json::Null,
        };
        fields.push(("client_extras_dir".to_owned(), ced));
        proof {
            crate::json::lemma_view_of_fields_push(f1, fields@[1].0, fields@[1].1);
            assert(crate::json::view_of_fields(f0) =~= Seq::<(Seq<char>, JsonV)>::empty());
            assert(crate::json::view_of_fields(fields@) =~= match client_started_params(
                opt_ref_view(config_dir),
                opt_ref_view(client_extras_dir),
            ) {
                JsonV::Obj(fs) => fs,
                _ => Seq::empty(),
            });
        }
        let params = Json::Obj(fields);
        self.send_notification("client_started", &params)
    }

    /// Writes one outbound response (the reply to an inbound request).
    pub fn send_response(&mut self, id: u64, result: Result<&Json, &Json>) -> (r: Result<
        (),
        WriteError,
    >)
        ensures
            final(self).pending_map() == old(self).pending_map(),
            final(self).next_id_spec() == old(self).next_id_spec(),
            final(self).uses_mem_sink() == old(self).uses_mem_sink(),
            old(self).uses_mem_sink() ==> r is Ok,
            match r {
                Ok(u) => final(self).sent() == old(self).sent()
                    + crate::message::encode_response_spec(
                    id,
                    match result {
                        Ok(v) => Ok(v@),
                        Err(e) => Err(e@),
                    },
                ),
                Err(e) => final(self).sent() == old(self).sent(),
            },
    {
        let line = crate::message::encode_response(id, result);
        self.sink.write_line(line.as_str())
    }

    /// The id the next request will be given (so a caller can check the
    /// generator is not exhausted before `send_request`).
    pub fn next_request_id(&self) -> (r: u64)
        ensures
            r == self.next_id_spec(),
    {
        self.next_id
    }

    /// Gives the writer back (the engine-facing stream as written so far).
    pub fn into_sink(self) -> (s: CoreSink)
        ensures
            s.sent() == self.sent(),
            s.is_mem() == self.uses_mem_sink(),
    {
        self.sink
    }

    /// Decodes one inbound notification method into its typed operation.
    pub fn handle_notification(method: String, params: Json) -> (r: RpcOperations)
        ensures
            notification_op_matches(method@, params@, r),
    {
        let m = method.as_str();
        if str_eq(m, "update") {
            RpcOperations::Update(params)
        } else if str_eq(m, "scroll_to") {
            RpcOperations::ScrollTo(params)
        } else if str_eq(m, "def_style") {
            RpcOperations::DefStyle(params)
        } else if str_eq(m, "available_plugins") {
            RpcOperations::AvailablePlugins(params)
        } else if str_eq(m, "update_cmds") {
            RpcOperations::UpdateCmds(params)
        } else if str_eq(m, "plugin_started") {
            RpcOperations::PluginStarted(params)
        } else if str_eq(m, "plugin_stopped") {
            RpcOperations::PluginStopped(params)
        } else if str_eq(m, "config_changed") {
            RpcOperations::ConfigChanged(params)
        } else if str_eq(m, "theme_changed") {
            RpcOperations::ThemeChanged(params)
        } else if str_eq(m, "alert") {
            RpcOperations::Alert(params)
        } else if str_eq(m, "available_themes") {
            match params {
                Json::Obj(fields) => {
                    match crate::message::lookup_field(&fields, "themes") {
                        Some(v) => match v {
                            Json::Arr(items) => match extract_strings(items) {
                                Some(names) => RpcOperations::AvailableThemes(
                                    AvailableThemes { themes: names },
                                ),
                                None => RpcOperations::Unrecognized,
                            },
                            _ => RpcOperations::Unrecognized,
                        },
                        None => RpcOperations::Unrecognized,
                    }
                },
                _ => RpcOperations::Unrecognized,
            }
        } else if str_eq(m, "find_status") {
            RpcOperations::FindStatus(params)
        } else if str_eq(m, "replace_status") {
            RpcOperations::ReplaceStatus(params)
        } else if str_eq(m, "available_languages") {
            match params {
                Json::Arr(items) => {
                    match extract_strings(&items) {
                        Some(names) => RpcOperations::AvailableLanguages(
                            AvailableLanguages { languages: names },
                        ),
                        None => RpcOperations::Unrecognized,
                    }
                },
                Json::Obj(fields) => {
                    match crate::message::lookup_field(&fields, "languages") {
                        Some(v) => match v {
                            Json::Arr(items) => match extract_strings(items) {
                                Some(names) => RpcOperations::AvailableLanguages(
                                    AvailableLanguages { languages: names },
                                ),
                                None => RpcOperations::Unrecognized,
                            },
                            _ => RpcOperations::Unrecognized,
                        },
                        None => RpcOperations::Unrecognized,
                    }
                },
                _ => RpcOperations::Unrecognized,
            }
        } else if str_eq(m, "language_changed") {
            RpcOperations::LanguageChanged(params)
        } else {
            RpcOperations::Unrecognized
        }
    }

    /// One step of the background reader loop: what a line asks for.
    ///
    /// A malformed line is reported, never fatal; a response is correlated
    /// against the table by id and its callback handed out exactly once; a
    /// response with an unknown id is dropped; the one recognized inbound
    /// request method is `measure_width`; an unsupported request is
    /// reported so the loop can answer it with an error response; the
    /// designated close line asks the loop to stop as if the stream had
    /// ended.
    #[verifier::rlimit(50)]
    pub fn process_line(&mut self, line: &str) -> (r: LineOutcome<C>)
        ensures
            final(self).sent() == old(self).sent(),
            final(self).next_id_spec() == old(self).next_id_spec(),
            final(self).uses_mem_sink() == old(self).uses_mem_sink(),
            ({
                let parsed = sp_json(line@);
                match r {
                    LineOutcome::Malformed(e) => final(self).pending_map() == old(
                        self,
                    ).pending_map() && (match e {
                        DecodeError::ParseError(t) => parsed is None && t@ == line@,
                        DecodeError::InvalidShape => parsed is Some && classify(
                            parsed.unwrap(),
                        ) is None,
                    }),
                    LineOutcome::Exit => final(self).pending_map() == old(self).pending_map()
                        && parsed is Some && classify(parsed.unwrap()) is Some
                        && spec_is_exit_sentinel(classify(parsed.unwrap()).unwrap()),
                    LineOutcome::Operation(op) => final(self).pending_map() == old(
                        self,
                    ).pending_map() && parsed is Some && classify(parsed.unwrap()) is Some && ({
                        let mv = classify(parsed.unwrap()).unwrap();
                        !spec_is_exit_sentinel(mv) && match mv {
                            MessageV::Note { method, params } => notification_op_matches(
                                method,
                                params,
                                op,
                            ),
                            MessageV::Req { method, params, id } => method == m_measure_width()
                                && (op matches RpcOperations::MeasureWidth(pair) && pair.0 == id
                                && pair.1@ == params),
                            _ => false,
                        }
                    }),
                    LineOutcome::Complete(cb, res) => parsed is Some && classify(
                        parsed.unwrap(),
                    ) is Some && ({
                        let mv = classify(parsed.unwrap()).unwrap();
                        mv matches MessageV::Resp { id, result } && old(
                            self,
                        ).pending_map().contains_key(id) && cb == old(self).pending_map()[id]
                            && final(self).pending_map() == old(self).pending_map().remove(id)
                            && result_views_match(res, result)
                    }),
                    LineOutcome::UnknownResponse(id) => final(self).pending_map() == old(
                        self,
                    ).pending_map() && parsed is Some && classify(parsed.unwrap()) is Some && ({
                        let mv = classify(parsed.unwrap()).unwrap();
                        mv matches MessageV::Resp { id: rid, result } && rid == id && !old(
                            self,
                        ).pending_map().contains_key(id)
                    }),
                    LineOutcome::UnsupportedRequest(id) => final(self).pending_map() == old(
                        self,
                    ).pending_map() && parsed is Some && classify(parsed.unwrap()) is Some && ({
                        let mv = classify(parsed.unwrap()).unwrap();
                        mv matches MessageV::Req { method, params, id: rid } && rid == id && method
                            != m_measure_width()
                    }),
                }
            }),
    {
        match Message::decode(line) {
            Err(e) => LineOutcome::Malformed(e),
            Ok(msg) => {
                if msg.is_exit_sentinel() {
                    return LineOutcome::Exit;
                }
                match msg {
                    Message::Notification(n) => LineOutcome::Operation(
                        Self::handle_notification(n.method, n.params),
                    ),
                    Message::Request(req) => {
                        if str_eq(req.method.as_str(), "measure_width") {
                            LineOutcome::Operation(
                                RpcOperations::MeasureWidth((req.id, req.params)),
                            )
                        } else {
                            LineOutcome::UnsupportedRequest(req.id)
                        }
                    },
                    Message::Response(resp) => {
                        match self.take_pending(resp.id) {
                            Some(cb) => LineOutcome::Complete(cb, resp.result),
                            None => LineOutcome::UnknownResponse(resp.id),
                        }
                    },
                }
            },
        }
    }
}

// ---------------------------------------------------------------------------
// Laws of the client core.
// ---------------------------------------------------------------------------

/// One `send_request` call per position, serialized by the caller's lock:
/// `nexts[k]` is the id generator before call `k`, `ids[k]` the id that
/// call returned, and each step is exactly `send_request`'s contract.
pub open spec fn allocation_chain(ids: Seq<u64>, nexts: Seq<u64>) -> bool {
    nexts.len() == ids.len() + 1 && forall|k: int|
        0 <= k < ids.len() ==> ids[k] == #[trigger] nexts[k] && nexts[k + 1] == nexts[k] + 1
}

/// Law: request ids are pairwise distinct. However many `send_request`
/// calls are issued, from however many threads, any two of them get
/// different ids.
pub proof fn lemma_request_ids_distinct(ids: Seq<u64>, nexts: Seq<u64>)
    requires
        allocation_chain(ids, nexts),
    ensures
        forall|i: int, j: int| 0 <= i < j < ids.len() ==> ids[i] != ids[j],
{
    assert forall|i: int, j: int| 0 <= i < j < ids.len() implies #[trigger] ids[i]
        != #[trigger] ids[j] by {
        lemma_nexts_monotone(ids, nexts, i, j);
        assert(ids[i] == nexts[i]);
        assert(ids[j] == nexts[j]);
        assert(nexts[i] + (j - i) <= nexts[j]);
    }
}

proof fn lemma_nexts_monotone(ids: Seq<u64>, nexts: Seq<u64>, i: int, j: int)
    requires
        allocation_chain(ids, nexts),
        0 <= i <= j < nexts.len(),
    ensures
        nexts[i] + j - i <= nexts[j],
    decreases j - i,
{
    if i < j {
        lemma_nexts_monotone(ids, nexts, i, j - 1);
        assert(ids[j - 1] == nexts[j - 1]);
        assert(nexts[j] == nexts[j - 1] + 1);
    }
}

/// Law: response correlation. When id `id` is pending, taking it yields
/// exactly its registered callback, removes exactly that entry, and every
/// other pending id keeps its callback; taking `id` again afterwards finds
/// nothing, so a callback is handed out exactly once.
pub proof fn lemma_response_correlation<C>(table: Map<u64, C>, id: u64, other: u64)
    requires
        table.contains_key(id),
        other != id,
    ensures
        table.remove(id)[other] == table[other] || !table.contains_key(other),
        table.contains_key(other) ==> table.remove(id).contains_key(other),
        !table.remove(id).contains_key(id),
{
}

/// Law: a response whose id was never registered changes nothing: the
/// table keeps every entry, and no callback fires (see `take_pending`'s
/// `None` case, which `process_line` reports as `UnknownResponse`).
pub proof fn lemma_unknown_response_dropped<C>(table: Map<u64, C>, id: u64)
    requires
        !table.contains_key(id),
    ensures
        table.remove(id) =~= table,
{
}

/// Law: the send path is FIFO. Three notifications written in order leave
/// the engine-facing stream extended by the three encoded lines in exactly
/// that order (and the pipe delivers bytes in stream order). The
/// hypotheses are `send_notification`'s contract for each call in turn.
pub proof fn lemma_notification_fifo(
    s0: Seq<char>,
    s1: Seq<char>,
    s2: Seq<char>,
    s3: Seq<char>,
    l1: Seq<char>,
    l2: Seq<char>,
    l3: Seq<char>,
)
    requires
        s1 == s0 + l1,
        s2 == s1 + l2,
        s3 == s2 + l3,
    ensures
        s3 == s0 + (l1 + l2 + l3),
        s3.subrange(s0.len() as int, s3.len() as int) == l1 + l2 + l3,
{
    assert(s3 =~= s0 + (l1 + l2 + l3));
    assert(s3.subrange(s0.len() as int, s3.len() as int) =~= l1 + l2 + l3);
}

} // verus!
