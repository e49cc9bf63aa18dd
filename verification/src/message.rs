//! Framing and classification of one line of wire text.
//!
//! A line is one JSON object. An object with `id` and `method` is a request;
//! with `id` and no `method` a response (`result` or `error` picks the Ok or
//! Err arm); with `method` and no `id` a notification. Anything else is a
//! shape error, and text that is not JSON at all is a parse error carrying
//! the original line.

use vstd::prelude::*;

use crate::json::Json;
use crate::json::JsonV;
use crate::json::chars_to_string;
use crate::json::dec_str;
use crate::json::dec_digit;
use crate::json::is_digit;
use crate::json::lemma_round_trip;
use crate::json::parse_json;
use crate::json::push_str_chars;
use crate::json::push_u64_decimal;
use crate::json::ser;
use crate::json::ser_fields;
use crate::json::ser_string;
use crate::json::sp_json;
use crate::json::wf_json;
use crate::json::write_json;
use crate::json::write_string_lit;

verus! {

/// A call from the peer that expects a response.
pub struct Request {
    pub method: String,
    pub params: Json,
    pub id: u64,
}

/// A reply to a request this side sent earlier.
pub struct Response {
    pub id: u64,
    pub result: Result<Json, Json>,
}

/// A one-way message requiring no reply.
pub struct Notification {
    pub method: String,
    pub params: Json,
}

/// One decoded line of the wire protocol.
pub enum Message {
    Request(Request),
    Response(Response),
    Notification(Notification),
}

/// Why a line could not be decoded. `ParseError` carries the original text.
#[derive(Debug)]
pub enum DecodeError {
    ParseError(String),
    InvalidShape,
}

/// The mathematical shape of a message.
pub enum MessageV {
    Req { method: Seq<char>, params: JsonV, id: u64 },
    Resp { id: u64, result: Result<JsonV, JsonV> },
    Note { method: Seq<char>, params: JsonV },
}

impl View for Message {
    type V = MessageV;

    open spec fn view(&self) -> MessageV {
        match self {
            Message::Request(r) => MessageV::Req {
                method: r.method@,
                params: r.params@,
                id: r.id,
            },
            Message::Response(r) => MessageV::Resp {
                id: r.id,
                result: match r.result {
                    Ok(v) => Ok(v@),
                    Err(v) => Err(v@),
                },
            },
            Message::Notification(n) => MessageV::Note { method: n.method@, params: n.params@ },
        }
    }
}

pub open spec fn key_method() -> Seq<char> {
    seq!['m', 'e', 't', 'h', 'o', 'd']
}

pub open spec fn key_params() -> Seq<char> {
    seq!['p', 'a', 'r', 'a', 'm', 's']
}

pub open spec fn key_id() -> Seq<char> {
    seq!['i', 'd']
}

pub open spec fn key_result() -> Seq<char> {
    seq!['r', 'e', 's', 'u', 'l', 't']
}

pub open spec fn key_error() -> Seq<char> {
    seq!['e', 'r', 'r', 'o', 'r']
}

/// First binding of `key` among the fields of an object.
pub open spec fn obj_lookup(fields: Seq<(Seq<char>, JsonV)>, key: Seq<char>) -> Option<JsonV>
    decreases fields,
{
    if fields.len() == 0 {
        None
    } else if fields[0].0 == key {
        Some(fields[0].1)
    } else {
        obj_lookup(fields.drop_first(), key)
    }
}

/// Whether `t` is a nonempty run of decimal digits.
pub open spec fn all_digits(t: Seq<char>) -> bool {
    t.len() > 0 && forall|k: int| 0 <= k < t.len() ==> is_digit(#[trigger] t[k])
}

/// Numeric value of a digit run.
pub open spec fn dec_val(t: Seq<char>) -> int
    decreases t,
{
    if t.len() == 0 {
        0
    } else {
        dec_val(t.drop_last()) * 10 + ((t.last() as u32) - 48)
    }
}

/// The classification rule for one parsed line, in priority order.
pub open spec fn classify(v: JsonV) -> Option<MessageV> {
    match v {
        JsonV::Obj(fields) => {
            let mid = obj_lookup(fields, key_id());
            let mmethod = obj_lookup(fields, key_method());
            if mid is Some && mmethod is Some {
                match (mid.unwrap(), mmethod.unwrap(), obj_lookup(fields, key_params())) {
                    (JsonV::Num(t), JsonV::Str(m), Some(p)) => if all_digits(t) && dec_val(t)
                        <= u64::MAX {
                        Some(MessageV::Req { method: m, params: p, id: dec_val(t) as u64 })
                    } else {
                        None
                    },
                    _ => None,
                }
            } else if mid is Some {
                match mid.unwrap() {
                    JsonV::Num(t) => if all_digits(t) && dec_val(t) <= u64::MAX {
                        match obj_lookup(fields, key_result()) {
                            Some(rv) => Some(
                                MessageV::Resp { id: dec_val(t) as u64, result: Ok(rv) },
                            ),
                            None => match obj_lookup(fields, key_error()) {
                                Some(ev) => Some(
                                    MessageV::Resp { id: dec_val(t) as u64, result: Err(ev) },
                                ),
                                None => None,
                            },
                        }
                    } else {
                        None
                    },
                    _ => None,
                }
            } else if mmethod is Some {
                match (mmethod.unwrap(), obj_lookup(fields, key_params())) {
                    (JsonV::Str(m), Some(p)) => Some(MessageV::Note { method: m, params: p }),
                    _ => None,
                }
            } else {
                None
            }
        },
        _ => None,
    }
}

// ---------------------------------------------------------------------------
// Executable pieces.
// ---------------------------------------------------------------------------

/// Character-for-character string equality.
pub fn str_eq(a: &str, b: &str) -> (r: bool)
    ensures
        r == (a@ == b@),
{
    let na = a.unicode_len();
    let nb = b.unicode_len();
    if na != nb {
        proof {
            assert(a@ != b@);
        }
        return false;
    }
    let mut i: usize = 0;
    while i < na
        invariant
            na == a@.len(),
            na == b@.len(),
            i <= na,
            forall|k: int| 0 <= k < i ==> a@[k] == b@[k],
        decreases na - i,
    {
        if a.get_char(i) != b.get_char(i) {
            proof {
                assert(a@[i as int] != b@[i as int]);
            }
            return false;
        }
        i = i + 1;
    }
    proof {
        assert(a@ =~= b@);
    }
    true
}

proof fn lemma_dec_val_nonneg(t: Seq<char>)
    requires
        forall|k: int| 0 <= k < t.len() ==> is_digit(#[trigger] t[k]),
    ensures
        dec_val(t) >= 0,
    decreases t,
{
    if t.len() > 0 {
        lemma_dec_val_nonneg(t.drop_last());
    }
}

proof fn lemma_dec_val_take_le(t: Seq<char>, i: int)
    requires
        forall|k: int| 0 <= k < t.len() ==> is_digit(#[trigger] t[k]),
        0 <= i <= t.len(),
    ensures
        dec_val(t.take(i)) <= dec_val(t),
    decreases t.len() - i,
{
    if i == t.len() {
        assert(t.take(i) =~= t);
    } else {
        lemma_dec_val_take_le(t, i + 1);
        let u = t.take(i + 1);
        assert(u.drop_last() =~= t.take(i));
        assert(u.last() == t[i]);
        lemma_dec_val_nonneg(t.take(i));
        assert(dec_val(u) == dec_val(t.take(i)) * 10 + ((t[i] as u32) - 48));
        assert(dec_val(t.take(i)) <= dec_val(u));
    }
}

/// Parses a nonempty digit run as a `u64`, refusing overflow.
pub fn parse_u64_digits(t: &str) -> (r: Option<u64>)
    ensures
        match r {
            Some(n) => all_digits(t@) && dec_val(t@) == n as int,
            None => !(all_digits(t@) && dec_val(t@) <= u64::MAX),
        },
{
    let n = t.unicode_len();
    if n == 0 {
        return None;
    }
    let mut val: u64 = 0;
    let mut i: usize = 0;
    proof {
        assert(t@.take(0) =~= Seq::<char>::empty());
    }
    while i < n
        invariant
            n == t@.len(),
            i <= n,
            forall|k: int| 0 <= k < i ==> is_digit(#[trigger] t@[k]),
            val as int == dec_val(t@.take(i as int)),
        decreases n - i,
    {
        let c = t.get_char(i);
        let u = c as u32;
        if !(48 <= u && u <= 57) {
            proof {
                assert(!is_digit(t@[i as int]));
            }
            return None;
        }
        let d = (u - 48) as u64;
        let step = val.checked_mul(10);
        proof {
            let u1 = t@.take(i as int + 1);
            assert(u1.drop_last() =~= t@.take(i as int));
            assert(u1.last() == t@[i as int]);
        }
        match step {
            None => {
                proof {
                    assert(dec_val(t@.take(i as int + 1)) > u64::MAX);
                    if all_digits(t@) {
                        lemma_dec_val_take_le(t@, i as int + 1);
                    }
                }
                return None;
            },
            Some(m) => {
                let sum = m.checked_add(d);
                match sum {
                    None => {
                        proof {
                            assert(dec_val(t@.take(i as int + 1)) > u64::MAX);
                            if all_digits(t@) {
                                lemma_dec_val_take_le(t@, i as int + 1);
                            }
                        }
                        return None;
                    },
                    Some(s2) => {
                        val = s2;
                    },
                }
            },
        }
        i = i + 1;
    }
    proof {
        assert(t@.take(n as int) =~= t@);
    }
    Some(val)
}

/// First binding of `key` among the fields of an object, by scan.
pub fn lookup_field<'a>(fields: &'a Vec<(String, Json)>, key: &str) -> (r: Option<&'a Json>)
    ensures
        match r {
            Some(v) => obj_lookup(crate::json::view_of_fields(fields@), key@) == Some(v@),
            None => obj_lookup(crate::json::view_of_fields(fields@), key@) is None,
        },
{
    let ghost fv = crate::json::view_of_fields(fields@);
    let mut i: usize = 0;
    proof {
        crate::json::lemma_view_of_fields_len(fields@);
        assert(fv.skip(0) =~= fv);
        assert forall|k: int| 0 <= k < fields@.len() implies #[trigger] fv[k] == (
            fields@[k].0@,
            crate::json::view_of(fields@[k].1),
        ) by {
            crate::json::lemma_view_of_fields_index(fields@, k);
        }
    }
    while i < fields.len()
        invariant
            fv == crate::json::view_of_fields(fields@),
            fv.len() == fields.len(),
            i <= fields.len(),
            obj_lookup(fv, key@) == obj_lookup(fv.skip(i as int), key@),
            forall|k: int| 0 <= k < fields@.len() ==> #[trigger] fv[k] == (
                fields@[k].0@,
                crate::json::view_of(fields@[k].1),
            ),
        decreases fields.len() - i,
    {
        proof {
            assert(fv.skip(i as int)[0] == fv[i as int]);
        }
        if str_eq(fields[i].0.as_str(), key) {
            return Some(&fields[i].1);
        }
        proof {
            assert(fv.skip(i as int).drop_first() =~= fv.skip(i as int + 1));
        }
        i = i + 1;
    }
    proof {
        assert(fv.skip(fields@.len() as int) =~= Seq::<(Seq<char>, JsonV)>::empty());
    }
    None
}

impl Message {
    /// Decodes one line. A line that is not JSON yields `ParseError` with
    /// the original text; a JSON value outside the three message shapes
    /// yields `InvalidShape`.
    #[verifier::rlimit(50)]
    pub fn decode(line: &str) -> (r: Result<Message, DecodeError>)
        ensures
            match r {
                Ok(m) => sp_json(line@) is Some && classify(sp_json(line@).unwrap()) == Some(m@),
                Err(e) => match e {
                    DecodeError::ParseError(orig) => sp_json(line@) is None && orig@ == line@,
                    DecodeError::InvalidShape => sp_json(line@) is Some && classify(
                        sp_json(line@).unwrap(),
                    ) is None,
                },
            },
    {
        let parsed = parse_json(line);
        match parsed {
            None => {
                let mut cs: Vec<char> = Vec::new();
                push_str_chars(line, &mut cs);
                Err(DecodeError::ParseError(chars_to_string(&cs)))
            },
            Some(v) => {
                match v {
                    Json::Obj(fields) => {
                        let mid = lookup_field(&fields, "id");
                        let mmethod = lookup_field(&fields, "method");
                        proof {
                            reveal_strlit("id");
                            reveal_strlit("method");
                            reveal_strlit("params");
                            reveal_strlit("result");
                            reveal_strlit("error");
                            assert("id"@ =~= key_id());
                            assert("method"@ =~= key_method());
                            assert("params"@ =~= key_params());
                            assert("result"@ =~= key_result());
                            assert("error"@ =~= key_error());
                        }
                        match (mid, mmethod) {
                            (Some(idv), Some(methodv)) => {
                                let idnum = match idv {
                                    Json::Num(t) => parse_u64_digits(t.as_str()),
                                    _ => None,
                                };
                                let name = match methodv {
                                    Json::Str(m) => Some(m),
                                    _ => None,
                                };
                                let paramsv = lookup_field(&fields, "params");
                                match (idnum, name, paramsv) {
                                    (Some(id), Some(m), Some(p)) => Ok(
                                        Message::Request(
                                            Request {
                                                method: m.clone(),
                                                params: p.deep_clone(),
                                                id,
                                            },
                                        ),
                                    ),
                                    _ => Err(DecodeError::InvalidShape),
                                }
                            },
                            (Some(idv), None) => {
                                let idnum = match idv {
                                    Json::Num(t) => parse_u64_digits(t.as_str()),
                                    _ => None,
                                };
                                match idnum {
                                    None => Err(DecodeError::InvalidShape),
                                    Some(id) => {
                                        match lookup_field(&fields, "result") {
                                            Some(rv) => Ok(
                                                Message::Response(
                                                    Response { id, result: Ok(rv.deep_clone()) },
                                                ),
                                            ),
                                            None => match lookup_field(&fields, "error") {
                                                Some(ev) => Ok(
                                                    Message::Response(
                                                        Response {
                                                            id,
                                                            result: Err(ev.deep_clone()),
                                                        },
                                                    ),
                                                ),
                                                None => Err(DecodeError::InvalidShape),
                                            },
                                        }
                                    },
                                }
                            },
                            (None, Some(methodv)) => {
                                let name = match methodv {
                                    Json::Str(m) => Some(m),
                                    _ => None,
                                };
                                let paramsv = lookup_field(&fields, "params");
                                match (name, paramsv) {
                                    (Some(m), Some(p)) => Ok(
                                        Message::Notification(
                                            Notification { method: m.clone(), params: p.deep_clone() },
                                        ),
                                    ),
                                    _ => Err(DecodeError::InvalidShape),
                                }
                            },
                            (None, None) => Err(DecodeError::InvalidShape),
                        }
                    },
                    _ => Err(DecodeError::InvalidShape),
                }
            },
        }
    }
}

// ---------------------------------------------------------------------------
// Encoding.
// ---------------------------------------------------------------------------

/// The object a notification is spelled as.
pub open spec fn notification_json(method: Seq<char>, params: JsonV) -> JsonV {
    JsonV::Obj(seq![(key_method(), JsonV::Str(method)), (key_params(), params)])
}

/// One encoded notification line: the object, then a newline.
pub open spec fn encode_notification_spec(method: Seq<char>, params: JsonV) -> Seq<char> {
    ser(notification_json(method, params)) + seq!['\n']
}

/// The object a request is spelled as: a notification plus an `id` field.
pub open spec fn request_json(method: Seq<char>, params: JsonV, id: u64) -> JsonV {
    JsonV::Obj(
        seq![
            (key_method(), JsonV::Str(method)),
            (key_params(), params),
            (key_id(), JsonV::Num(dec_str(id as int))),
        ],
    )
}

pub open spec fn encode_request_spec(method: Seq<char>, params: JsonV, id: u64) -> Seq<char> {
    ser(request_json(method, params, id)) + seq!['\n']
}

/// Encodes one outbound notification as a single newline-terminated line.
pub fn encode(method: &str, params: &Json) -> (r: String)
    ensures
        r@ == encode_notification_spec(method@, params@),
{
    let mut out: Vec<char> = Vec::new();
    out.push('{');
    write_string_lit("method", &mut out);
    out.push(':');
    write_string_lit(method, &mut out);
    out.push(',');
    write_string_lit("params", &mut out);
    out.push(':');
    write_json(params, &mut out);
    out.push('}');
    out.push('\n');
    proof {
        reveal_strlit("method");
        reveal_strlit("params");
        assert("method"@ =~= key_method());
        assert("params"@ =~= key_params());
        let fs = seq![(key_method(), JsonV::Str(method@)), (key_params(), params@)];
        assert(fs.drop_first() =~= seq![(key_params(), params@)]);
        assert(ser_fields(fs) == ser_string(key_method()) + seq![':'] + ser(JsonV::Str(method@))
            + seq![','] + ser_fields(fs.drop_first()));
        assert(out@ =~= encode_notification_spec(method@, params@));
    }
    chars_to_string(&out)
}

/// Encodes one outbound request line: a notification body plus its `id`.
pub fn encode_request(method: &str, params: &Json, id: u64) -> (r: String)
    ensures
        r@ == encode_request_spec(method@, params@, id),
{
    let mut out: Vec<char> = Vec::new();
    out.push('{');
    write_string_lit("method", &mut out);
    out.push(':');
    write_string_lit(method, &mut out);
    out.push(',');
    write_string_lit("params", &mut out);
    out.push(':');
    write_json(params, &mut out);
    out.push(',');
    write_string_lit("id", &mut out);
    out.push(':');
    push_u64_decimal(id, &mut out);
    out.push('}');
    out.push('\n');
    proof {
        reveal_strlit("method");
        reveal_strlit("params");
        reveal_strlit("id");
        assert("method"@ =~= key_method());
        assert("params"@ =~= key_params());
        assert("id"@ =~= key_id());
        let fs = seq![
            (key_method(), JsonV::Str(method@)),
            (key_params(), params@),
            (key_id(), JsonV::Num(dec_str(id as int))),
        ];
        let fs1 = fs.drop_first();
        let fs2 = fs1.drop_first();
        assert(fs1 =~= seq![(key_params(), params@), (key_id(), JsonV::Num(dec_str(id as int)))]);
        assert(fs2 =~= seq![(key_id(), JsonV::Num(dec_str(id as int)))]);
        assert(ser_fields(fs) == ser_string(key_method()) + seq![':'] + ser(JsonV::Str(method@))
            + seq![','] + ser_fields(fs1));
        assert(ser_fields(fs1) == ser_string(key_params()) + seq![':'] + ser(params@) + seq![',']
            + ser_fields(fs2));
        assert(ser_fields(fs2) == ser_string(key_id()) + seq![':'] + ser(
            JsonV::Num(dec_str(id as int)),
        ));
        assert(ser(JsonV::Num(dec_str(id as int))) == dec_str(id as int));
        assert(ser(request_json(method@, params@, id)) == seq!['{'] + ser_fields(fs) + seq!['}']);
        assert(out@ =~= encode_request_spec(method@, params@, id));
    }
    chars_to_string(&out)
}

/// The object a response is spelled as: the id, then the result under
/// `result` or the error under `error`.
pub open spec fn response_json(id: u64, result: Result<JsonV, JsonV>) -> JsonV {
    match result {
        Ok(v) => JsonV::Obj(
            seq![(key_id(), JsonV::Num(dec_str(id as int))), (key_result(), v)],
        ),
        Err(e) => JsonV::Obj(
            seq![(key_id(), JsonV::Num(dec_str(id as int))), (key_error(), e)],
        ),
    }
}

pub open spec fn encode_response_spec(id: u64, result: Result<JsonV, JsonV>) -> Seq<char> {
    ser(response_json(id, result)) + seq!['\n']
}

/// Encodes one outbound response line.
pub fn encode_response(id: u64, result: Result<&Json, &Json>) -> (r: String)
    ensures
        r@ == encode_response_spec(
            id,
            match result {
                Ok(v) => Ok(v@),
                Err(e) => Err(e@),
            },
        ),
{
    let mut out: Vec<char> = Vec::new();
    out.push('{');
    write_string_lit("id", &mut out);
    out.push(':');
    push_u64_decimal(id, &mut out);
    out.push(',');
    let ghost rv: Result<JsonV, JsonV> = match result {
        Ok(v) => Ok(v@),
        Err(e) => Err(e@),
    };
    match result {
        Ok(v) => {
            write_string_lit("result", &mut out);
            out.push(':');
            write_json(v, &mut out);
        },
        Err(e) => {
            write_string_lit("error", &mut out);
            out.push(':');
            write_json(e, &mut out);
        },
    }
    out.push('}');
    out.push('\n');
    proof {
        reveal_strlit("id");
        reveal_strlit("result");
        reveal_strlit("error");
        assert("id"@ =~= key_id());
        assert("result"@ =~= key_result());
        assert("error"@ =~= key_error());
        match rv {
            Ok(v) => {
                let fs = seq![(key_id(), JsonV::Num(dec_str(id as int))), (key_result(), v)];
                assert(fs.drop_first() =~= seq![(key_result(), v)]);
                assert(ser_fields(fs) == ser_string(key_id()) + seq![':'] + ser(
                    JsonV::Num(dec_str(id as int)),
                ) + seq![','] + ser_fields(fs.drop_first()));
            },
            Err(e) => {
                let fs = seq![(key_id(), JsonV::Num(dec_str(id as int))), (key_error(), e)];
                assert(fs.drop_first() =~= seq![(key_error(), e)]);
                assert(ser_fields(fs) == ser_string(key_id()) + seq![':'] + ser(
                    JsonV::Num(dec_str(id as int)),
                ) + seq![','] + ser_fields(fs.drop_first()));
            },
        }
        assert(out@ =~= encode_response_spec(id, rv));
    }
    chars_to_string(&out)
}

// ---------------------------------------------------------------------------
// The round-trip law.
// ---------------------------------------------------------------------------

/// Law: a notification survives the wire. For any method and any
/// well-formed params value, decoding the encoded line yields a
/// notification with the same method and a JSON-equal params value.
pub proof fn lemma_notification_round_trip(method: Seq<char>, params: JsonV)
    requires
        wf_json(params),
    ensures
        sp_json(encode_notification_spec(method, params)) == Some(
            notification_json(method, params),
        ),
        classify(notification_json(method, params)) == Some(MessageV::Note { method, params }),
{
    let fs = seq![(key_method(), JsonV::Str(method)), (key_params(), params)];
    let nj = notification_json(method, params);
    assert(fs.drop_first() =~= seq![(key_params(), params)]);
    assert(fs.drop_first().drop_first() =~= Seq::<(Seq<char>, JsonV)>::empty());
    assert(fs[0] == (key_method(), JsonV::Str(method)));
    assert(fs.drop_first()[0] == (key_params(), params));
    assert(crate::json::wf_fields(fs)) by {
        assert(crate::json::wf_fields(fs.drop_first().drop_first()));
        assert(wf_json(fs.drop_first()[0].1));
        assert(crate::json::wf_fields(fs.drop_first()));
        assert(wf_json(fs[0].1));
    }
    assert(wf_json(nj));
    assert(forall|k: int| 0 <= k < seq!['\n'].len() ==> crate::json::is_ws(
        #[trigger] seq!['\n'][k],
    ));
    lemma_round_trip(nj, seq!['\n']);
    assert(key_method() != key_id());
    assert(key_params() != key_id());
    assert(key_method() != key_params()) by {
        assert(key_method()[0] == 'm');
        assert(key_params()[0] == 'p');
    }
    assert(obj_lookup(fs, key_id()) is None) by {
        assert(fs[0].0 == key_method());
        assert(fs.drop_first()[0].0 == key_params());
        assert(obj_lookup(fs.drop_first().drop_first(), key_id()) is None);
        assert(obj_lookup(fs.drop_first(), key_id()) is None);
    }
    assert(obj_lookup(fs, key_method()) == Some(JsonV::Str(method)));
    assert(obj_lookup(fs, key_params()) == Some(params)) by {
        assert(fs[0].0 == key_method());
        assert(fs.drop_first()[0] == (key_params(), params));
        assert(obj_lookup(fs.drop_first(), key_params()) == Some(params));
    }
}

/// The decimal spelling of a nonnegative integer reads back as its value.
pub proof fn lemma_dec_val_dec_str(n: int)
    requires
        n >= 0,
    ensures
        dec_val(dec_str(n)) == n,
    decreases n,
{
    crate::json::lemma_dec_str_digits(n);
    if n < 10 {
        let t = dec_str(n);
        assert(t == seq![dec_digit(n)]);
        assert(t.last() == dec_digit(n));
        assert(t.drop_last() =~= Seq::<char>::empty());
        assert(dec_val(Seq::<char>::empty()) == 0);
        assert((dec_digit(0) as u32) == 48);
        assert((dec_digit(1) as u32) == 49);
        assert((dec_digit(2) as u32) == 50);
        assert((dec_digit(3) as u32) == 51);
        assert((dec_digit(4) as u32) == 52);
        assert((dec_digit(5) as u32) == 53);
        assert((dec_digit(6) as u32) == 54);
        assert((dec_digit(7) as u32) == 55);
        assert((dec_digit(8) as u32) == 56);
        assert((dec_digit(9) as u32) == 57);
    } else {
        lemma_dec_val_dec_str(n / 10);
        let t = dec_str(n);
        let h = dec_str(n / 10);
        assert(t == h + seq![dec_digit(n % 10)]);
        assert(t.drop_last() =~= h);
        assert(t.last() == dec_digit(n % 10));
        assert((dec_digit(0) as u32) == 48);
        assert((dec_digit(1) as u32) == 49);
        assert((dec_digit(2) as u32) == 50);
        assert((dec_digit(3) as u32) == 51);
        assert((dec_digit(4) as u32) == 52);
        assert((dec_digit(5) as u32) == 53);
        assert((dec_digit(6) as u32) == 54);
        assert((dec_digit(7) as u32) == 55);
        assert((dec_digit(8) as u32) == 56);
        assert((dec_digit(9) as u32) == 57);
        assert(((t.last() as u32) - 48) == n % 10);
        assert(dec_val(t) == dec_val(h) * 10 + n % 10);
    }
}

/// Law: a request survives the wire. Decoding the encoded request line
/// yields a request with the same method, a JSON-equal params value, and
/// the same id.
pub proof fn lemma_request_round_trip(method: Seq<char>, params: JsonV, id: u64)
    requires
        wf_json(params),
    ensures
        sp_json(encode_request_spec(method, params, id)) == Some(request_json(method, params, id)),
        classify(request_json(method, params, id)) == Some(
            MessageV::Req { method, params, id },
        ),
{
    let idt = dec_str(id as int);
    let fs = seq![
        (key_method(), JsonV::Str(method)),
        (key_params(), params),
        (key_id(), JsonV::Num(idt)),
    ];
    let rj = request_json(method, params, id);
    let fs1 = fs.drop_first();
    let fs2 = fs1.drop_first();
    assert(fs1 =~= seq![(key_params(), params), (key_id(), JsonV::Num(idt))]);
    assert(fs2 =~= seq![(key_id(), JsonV::Num(idt))]);
    assert(fs2.drop_first() =~= Seq::<(Seq<char>, JsonV)>::empty());
    crate::json::lemma_dec_str_valid(id as int);
    assert(crate::json::wf_fields(fs)) by {
        assert(crate::json::wf_fields(fs2.drop_first()));
        assert(wf_json(fs2[0].1));
        assert(crate::json::wf_fields(fs2));
        assert(wf_json(fs1[0].1));
        assert(crate::json::wf_fields(fs1));
        assert(wf_json(fs[0].1));
    }
    assert(wf_json(rj));
    assert(forall|k: int| 0 <= k < seq!['\n'].len() ==> crate::json::is_ws(
        #[trigger] seq!['\n'][k],
    ));
    lemma_round_trip(rj, seq!['\n']);
    assert(key_method() != key_id());
    assert(key_params() != key_id());
    assert(key_method() != key_params()) by {
        assert(key_method()[0] == 'm');
        assert(key_params()[0] == 'p');
    }
    assert(obj_lookup(fs, key_id()) == Some(JsonV::Num(idt))) by {
        assert(fs[0].0 == key_method());
        assert(fs1[0].0 == key_params());
        assert(fs2[0] == (key_id(), JsonV::Num(idt)));
        assert(obj_lookup(fs2, key_id()) == Some(JsonV::Num(idt)));
        assert(obj_lookup(fs1, key_id()) == Some(JsonV::Num(idt)));
    }
    assert(obj_lookup(fs, key_method()) == Some(JsonV::Str(method)));
    assert(obj_lookup(fs, key_params()) == Some(params)) by {
        assert(fs[0].0 == key_method());
        assert(fs1[0] == (key_params(), params));
        assert(obj_lookup(fs1, key_params()) == Some(params));
    }
    lemma_dec_val_dec_str(id as int);
    assert(all_digits(idt)) by {
        crate::json::lemma_dec_str_digits(id as int);
    }
    assert(dec_val(idt) == id as int);
}

/// Law: a response survives the wire. Decoding the encoded response line
/// yields a response with the same id and a JSON-equal result, on the Ok
/// and the Err arm alike.
pub proof fn lemma_response_round_trip(id: u64, result: Result<JsonV, JsonV>)
    requires
        match result {
            Ok(v) => wf_json(v),
            Err(e) => wf_json(e),
        },
    ensures
        sp_json(encode_response_spec(id, result)) == Some(response_json(id, result)),
        classify(response_json(id, result)) == Some(MessageV::Resp { id, result }),
{
    let idt = dec_str(id as int);
    let payload = match result {
        Ok(v) => v,
        Err(e) => e,
    };
    let second = match result {
        Ok(v) => (key_result(), v),
        Err(e) => (key_error(), e),
    };
    let fs = seq![(key_id(), JsonV::Num(idt)), second];
    let rj = response_json(id, result);
    assert(rj == JsonV::Obj(fs));
    let fs1 = fs.drop_first();
    assert(fs1 =~= seq![second]);
    assert(fs1.drop_first() =~= Seq::<(Seq<char>, JsonV)>::empty());
    crate::json::lemma_dec_str_valid(id as int);
    assert(crate::json::wf_fields(fs)) by {
        assert(crate::json::wf_fields(fs1.drop_first()));
        assert(wf_json(fs1[0].1));
        assert(crate::json::wf_fields(fs1));
        assert(wf_json(fs[0].1));
    }
    assert(wf_json(rj));
    assert(forall|k: int| 0 <= k < seq!['\n'].len() ==> crate::json::is_ws(
        #[trigger] seq!['\n'][k],
    ));
    lemma_round_trip(rj, seq!['\n']);
    assert(key_id() != key_method());
    assert(key_result() != key_method()) by {
        assert(key_result()[0] == 'r');
        assert(key_method()[0] == 'm');
    }
    assert(key_error() != key_method());
    assert(key_result() != key_error());
    assert(key_id() != key_result());
    assert(key_id() != key_error());
    assert(obj_lookup(fs, key_id()) == Some(JsonV::Num(idt)));
    assert(obj_lookup(fs, key_method()) is None) by {
        assert(fs[0].0 == key_id());
        assert(fs1[0].0 == second.0);
        assert(second.0 != key_method());
        assert(obj_lookup(fs1.drop_first(), key_method()) is None);
        assert(obj_lookup(fs1, key_method()) is None);
    }
    lemma_dec_val_dec_str(id as int);
    assert(all_digits(idt)) by {
        crate::json::lemma_dec_str_digits(id as int);
    }
    assert(dec_val(idt) == id as int);
    match result {
        Ok(v) => {
            assert(obj_lookup(fs, key_result()) == Some(v)) by {
                assert(fs[0].0 == key_id());
                assert(fs1[0] == (key_result(), v));
                assert(obj_lookup(fs1, key_result()) == Some(v));
            }
        },
        Err(e) => {
            assert(obj_lookup(fs, key_result()) is None) by {
                assert(fs[0].0 == key_id());
                assert(fs1[0].0 == key_error());
                assert(obj_lookup(fs1.drop_first(), key_result()) is None);
                assert(obj_lookup(fs1, key_result()) is None);
            }
            assert(obj_lookup(fs, key_error()) == Some(e)) by {
                assert(fs[0].0 == key_id());
                assert(fs1[0] == (key_error(), e));
                assert(obj_lookup(fs1, key_error()) == Some(e));
            }
        },
    }
}

// ---------------------------------------------------------------------------
// The explicit application-level close signal.
// ---------------------------------------------------------------------------

pub open spec fn key_command() -> Seq<char> {
    seq!['c', 'o', 'm', 'm', 'a', 'n', 'd']
}

pub open spec fn key_exit() -> Seq<char> {
    seq!['e', 'x', 'i', 't']
}

/// The designated close line: a `command` notification whose params name
/// the method `exit`. A reader may treat it as end-of-stream even though
/// the underlying channel stays open.
pub open spec fn spec_is_exit_sentinel(m: MessageV) -> bool {
    match m {
        MessageV::Note { method, params } => method == key_command() && match params {
            JsonV::Obj(fields) => obj_lookup(fields, key_method()) == Some(JsonV::Str(key_exit())),
            _ => false,
        },
        _ => false,
    }
}

impl Message {
    /// Recognizes the application-level close signal.
    pub fn is_exit_sentinel(&self) -> (b: bool)
        ensures
            b == spec_is_exit_sentinel(self@),
    {
        proof {
            reveal_strlit("command");
            reveal_strlit("exit");
            reveal_strlit("method");
            assert("command"@ =~= key_command());
            assert("exit"@ =~= key_exit());
            assert("method"@ =~= key_method());
        }
        match self {
            Message::Notification(n) => {
                if !str_eq(n.method.as_str(), "command") {
                    return false;
                }
                match &n.params {
                    Json::Obj(fields) => {
                        match lookup_field(fields, "method") {
                            Some(inner) => match inner {
                                Json::Str(s) => str_eq(s.as_str(), "exit"),
                                _ => false,
                            },
                            None => false,
                        }
                    },
                    _ => false,
                }
            },
            _ => false,
        }
    }
}

} // verus!
