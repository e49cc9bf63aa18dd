//! A small JSON value model and its mathematical view.
//!
//! Numbers are kept as their literal spelling from the wire (a validated
//! token), so a value passes through the codec without any numeric
//! re-interpretation.

use vstd::prelude::*;

verus! {

/// A JSON value. `Num` holds the literal token text of the number.
#[derive(Debug, PartialEq, Eq)]
pub enum Json {
    Null,
    Bool(bool),
    Num(String),
    Str(String),
    Arr(Vec<Json>),
    Obj(Vec<(String, Json)>),
}

/// The mathematical shape of a JSON value, used by all contracts.
pub enum JsonV {
    Null,
    Bool(bool),
    Num(Seq<char>),
    Str(Seq<char>),
    Arr(Seq<JsonV>),
    Obj(Seq<(Seq<char>, JsonV)>),
}

pub open spec fn view_of(j: Json) -> JsonV
    decreases j,
{
    match j {
        Json::Null => JsonV::Null,
        Json::Bool(b) => JsonV::Bool(b),
        Json::Num(t) => JsonV::Num(t@),
        Json::Str(s) => JsonV::Str(s@),
        Json::Arr(elems) => JsonV::Arr(view_of_seq(elems@)),
        Json::Obj(fields) => JsonV::Obj(view_of_fields(fields@)),
    }
}

pub open spec fn view_of_seq(s: Seq<Json>) -> Seq<JsonV>
    decreases s,
{
    if s.len() == 0 {
        Seq::empty()
    } else {
        seq![view_of(s[0])] + view_of_seq(s.drop_first())
    }
}

pub open spec fn view_of_fields(s: Seq<(String, Json)>) -> Seq<(Seq<char>, JsonV)>
    decreases s,
{
    if s.len() == 0 {
        Seq::empty()
    } else {
        seq![(s[0].0@, view_of(s[0].1))] + view_of_fields(s.drop_first())
    }
}

impl View for Json {
    type V = JsonV;

    open spec fn view(&self) -> JsonV {
        view_of(*self)
    }
}

pub proof fn lemma_view_of_seq_len(s: Seq<Json>)
    ensures
        view_of_seq(s).len() == s.len(),
    decreases s,
{
    if s.len() > 0 {
        lemma_view_of_seq_len(s.drop_first());
    }
}

pub proof fn lemma_view_of_seq_index(s: Seq<Json>, i: int)
    requires
        0 <= i < s.len(),
    ensures
        view_of_seq(s).len() == s.len(),
        view_of_seq(s)[i] == view_of(s[i]),
    decreases s,
{
    lemma_view_of_seq_len(s);
    if i > 0 {
        lemma_view_of_seq_index(s.drop_first(), i - 1);
    }
}

pub proof fn lemma_view_of_seq_push(s: Seq<Json>, x: Json)
    ensures
        view_of_seq(s.push(x)) == view_of_seq(s).push(view_of(x)),
    decreases s,
{
    if s.len() == 0 {
        assert(s.push(x)[0] == x);
        assert(s.push(x).drop_first() =~= Seq::<Json>::empty());
        assert(view_of_seq(s.push(x)) == seq![view_of(x)] + view_of_seq(Seq::<Json>::empty()));
        assert(view_of_seq(s.push(x)) =~= view_of_seq(s).push(view_of(x)));
    } else {
        let t = s.drop_first();
        assert(s.push(x)[0] == s[0]);
        assert(s.push(x).drop_first() =~= t.push(x));
        lemma_view_of_seq_push(t, x);
        assert(view_of_seq(s.push(x)) == seq![view_of(s[0])] + view_of_seq(t).push(view_of(x)));
        assert(view_of_seq(s) == seq![view_of(s[0])] + view_of_seq(t));
        assert(seq![view_of(s[0])] + view_of_seq(t).push(view_of(x)) =~= (seq![view_of(s[0])]
            + view_of_seq(t)).push(view_of(x)));
    }
}

pub proof fn lemma_view_of_fields_len(s: Seq<(String, Json)>)
    ensures
        view_of_fields(s).len() == s.len(),
    decreases s,
{
    if s.len() > 0 {
        lemma_view_of_fields_len(s.drop_first());
    }
}

pub proof fn lemma_view_of_fields_index(s: Seq<(String, Json)>, i: int)
    requires
        0 <= i < s.len(),
    ensures
        view_of_fields(s).len() == s.len(),
        view_of_fields(s)[i] == (s[i].0@, view_of(s[i].1)),
    decreases s,
{
    lemma_view_of_fields_len(s);
    if i > 0 {
        lemma_view_of_fields_index(s.drop_first(), i - 1);
    }
}

pub proof fn lemma_view_of_fields_push(s: Seq<(String, Json)>, k: String, v: Json)
    ensures
        view_of_fields(s.push((k, v))) == view_of_fields(s).push((k@, view_of(v))),
    decreases s,
{
    if s.len() == 0 {
        assert(s.push((k, v))[0] == (k, v));
        assert(s.push((k, v)).drop_first() =~= Seq::<(String, Json)>::empty());
        assert(view_of_fields(s.push((k, v))) == seq![(k@, view_of(v))] + view_of_fields(
            Seq::<(String, Json)>::empty(),
        ));
        assert(view_of_fields(s.push((k, v))) =~= view_of_fields(s).push((k@, view_of(v))));
    } else {
        let t = s.drop_first();
        assert(s.push((k, v))[0] == s[0]);
        assert(s.push((k, v)).drop_first() =~= t.push((k, v)));
        lemma_view_of_fields_push(t, k, v);
        assert(view_of_fields(s.push((k, v))) == seq![(s[0].0@, view_of(s[0].1))] + view_of_fields(
            t,
        ).push((k@, view_of(v))));
        assert(view_of_fields(s) == seq![(s[0].0@, view_of(s[0].1))] + view_of_fields(t));
        assert(seq![(s[0].0@, view_of(s[0].1))] + view_of_fields(t).push((k@, view_of(v)))
            =~= (seq![(s[0].0@, view_of(s[0].1))] + view_of_fields(t)).push((k@, view_of(v))));
    }
}

impl Json {
    /// A structural copy of the value.
    #[verifier::loop_isolation(false)]
    pub fn deep_clone(&self) -> (r: Json)
        ensures
            r@ == self@,
        decreases self,
    {
        match self {
            Json::Null => Json::Null,
            Json::Bool(b) => Json::Bool(*b),
            Json::Num(t) => Json::Num(t.clone()),
            Json::Str(s) => Json::Str(s.clone()),
            Json::Arr(elems) => {
                let mut out: Vec<Json> = Vec::new();
                let mut i: usize = 0;
                proof {
                    lemma_view_of_seq_len(elems@);
                    assert(view_of_seq(out@) =~= view_of_seq(elems@).take(0));
                }
                while i < elems.len()
                    invariant
                        i <= elems.len(),
                        view_of_seq(out@) == view_of_seq(elems@).take(i as int),
                    decreases elems.len() - i,
                {
                    proof {
                        lemma_view_of_seq_index(elems@, i as int);
                        assert(decreases_to!(*self => *elems));
                        assert(decreases_to!(*elems => elems@));
                        assert(decreases_to!(elems@ => elems@[i as int]));
                    }
                    let ghost out0 = out@;
                    let c = elems[i].deep_clone();
                    let ghost cv = c@;
                    out.push(c);
                    proof {
                        lemma_view_of_seq_push(out0, out@[out@.len() - 1]);
                        assert(view_of_seq(out@) == view_of_seq(out0).push(cv));
                        assert(view_of_seq(elems@).take(i as int + 1) =~= view_of_seq(
                            elems@,
                        ).take(i as int).push(view_of_seq(elems@)[i as int]));
                    }
                    i = i + 1;
                }
                proof {
                    assert(view_of_seq(elems@).take(elems@.len() as int) =~= view_of_seq(elems@));
                }
                Json::Arr(out)
            },
            Json::Obj(fields) => {
                let mut out: Vec<(String, Json)> = Vec::new();
                let mut i: usize = 0;
                proof {
                    lemma_view_of_fields_len(fields@);
                    assert(view_of_fields(out@) =~= view_of_fields(fields@).take(0));
                }
                while i < fields.len()
                    invariant
                        i <= fields.len(),
                        view_of_fields(out@) == view_of_fields(fields@).take(i as int),
                    decreases fields.len() - i,
                {
                    proof {
                        lemma_view_of_fields_index(fields@, i as int);
                        assert(decreases_to!(*self => *fields));
                        assert(decreases_to!(*fields => fields@));
                        assert(decreases_to!(fields@ => fields@[i as int]));
                        assert(decreases_to!(fields@[i as int] => fields@[i as int].1));
                    }
                    let ghost out0 = out@;
                    let k = fields[i].0.clone();
                    let c = fields[i].1.deep_clone();
                    let ghost kv = k@;
                    let ghost cv = c@;
                    out.push((k, c));
                    proof {
                        lemma_view_of_fields_push(
                            out0,
                            out@[out@.len() - 1].0,
                            out@[out@.len() - 1].1,
                        );
                        assert(view_of_fields(out@) == view_of_fields(out0).push((kv, cv)));
                        assert(view_of_fields(fields@).take(i as int + 1) =~= view_of_fields(
                            fields@,
                        ).take(i as int).push(view_of_fields(fields@)[i as int]));
                    }
                    i = i + 1;
                }
                proof {
                    assert(view_of_fields(fields@).take(fields@.len() as int) =~= view_of_fields(
                        fields@,
                    ));
                }
                Json::Obj(out)
            },
        }
    }
}

// ---------------------------------------------------------------------------
// Serialization: the canonical wire spelling of a value.
// ---------------------------------------------------------------------------

/// The sixteen hexadecimal digit characters (lower case).
pub open spec fn hex_char(d: int) -> char {
    if d == 0 {
        '0'
    } else if d == 1 {
        '1'
    } else if d == 2 {
        '2'
    } else if d == 3 {
        '3'
    } else if d == 4 {
        '4'
    } else if d == 5 {
        '5'
    } else if d == 6 {
        '6'
    } else if d == 7 {
        '7'
    } else if d == 8 {
        '8'
    } else if d == 9 {
        '9'
    } else if d == 10 {
        'a'
    } else if d == 11 {
        'b'
    } else if d == 12 {
        'c'
    } else if d == 13 {
        'd'
    } else if d == 14 {
        'e'
    } else {
        'f'
    }
}

/// How one character of a string is spelled inside a JSON string literal.
pub open spec fn escape_char(c: char) -> Seq<char> {
    if c == '"' {
        seq!['\\', '"']
    } else if c == '\\' {
        seq!['\\', '\\']
    } else if c == '\n' {
        seq!['\\', 'n']
    } else if c == '\r' {
        seq!['\\', 'r']
    } else if c == '\t' {
        seq!['\\', 't']
    } else if (c as u32) < 32 {
        seq!['\\', 'u', '0', '0', hex_char(c as u32 as int / 16), hex_char(c as u32 as int % 16)]
    } else {
        seq![c]
    }
}

pub open spec fn escape_chars(s: Seq<char>) -> Seq<char>
    decreases s,
{
    if s.len() == 0 {
        Seq::empty()
    } else {
        escape_char(s[0]) + escape_chars(s.drop_first())
    }
}

/// A whole JSON string literal, quotes included.
pub open spec fn ser_string(s: Seq<char>) -> Seq<char> {
    seq!['"'] + escape_chars(s) + seq!['"']
}

/// The canonical serialization of a value: no whitespace, strings escaped
/// as `escape_char` says, numbers spelled by their own token.
pub open spec fn ser(v: JsonV) -> Seq<char>
    decreases v,
{
    match v {
        JsonV::Null => seq!['n', 'u', 'l', 'l'],
        JsonV::Bool(b) => if b {
            seq!['t', 'r', 'u', 'e']
        } else {
            seq!['f', 'a', 'l', 's', 'e']
        },
        JsonV::Num(t) => t,
        JsonV::Str(s) => ser_string(s),
        JsonV::Arr(items) => seq!['['] + ser_items(items) + seq![']'],
        JsonV::Obj(fields) => seq!['{'] + ser_fields(fields) + seq!['}'],
    }
}

pub open spec fn ser_items(items: Seq<JsonV>) -> Seq<char>
    decreases items,
{
    if items.len() == 0 {
        Seq::empty()
    } else if items.len() == 1 {
        ser(items[0])
    } else {
        ser(items[0]) + seq![','] + ser_items(items.drop_first())
    }
}

pub open spec fn ser_fields(fields: Seq<(Seq<char>, JsonV)>) -> Seq<char>
    decreases fields,
{
    if fields.len() == 0 {
        Seq::empty()
    } else if fields.len() == 1 {
        ser_string(fields[0].0) + seq![':'] + ser(fields[0].1)
    } else {
        ser_string(fields[0].0) + seq![':'] + ser(fields[0].1) + seq![','] + ser_fields(
            fields.drop_first(),
        )
    }
}

pub proof fn lemma_escape_chars_take(s: Seq<char>, i: int)
    requires
        0 <= i < s.len(),
    ensures
        escape_chars(s.take(i + 1)) == escape_chars(s.take(i)) + escape_char(s[i]),
    decreases i,
{
    if i == 0 {
        assert(s.take(1)[0] == s[0]);
        assert(s.take(1).drop_first() =~= Seq::<char>::empty());
        assert(s.take(0) =~= Seq::<char>::empty());
        assert(escape_chars(Seq::<char>::empty()) == Seq::<char>::empty());
        assert(escape_chars(s.take(1)) =~= escape_char(s[0]) + Seq::<char>::empty());
        assert(escape_chars(s.take(1)) =~= escape_chars(s.take(0)) + escape_char(s[0]));
    } else {
        let t = s.drop_first();
        lemma_escape_chars_take(t, i - 1);
        assert(s.take(i + 1)[0] == s[0]);
        assert(s.take(i)[0] == s[0]);
        assert(s.take(i + 1).drop_first() =~= t.take(i));
        assert(s.take(i).drop_first() =~= t.take(i - 1));
        assert(t[i - 1] == s[i]);
        assert(escape_chars(s.take(i + 1)) == escape_char(s[0]) + escape_chars(t.take(i)));
        assert(escape_chars(s.take(i)) == escape_char(s[0]) + escape_chars(t.take(i - 1)));
        assert(escape_char(s[0]) + (escape_chars(t.take(i - 1)) + escape_char(s[i]))
            =~= (escape_char(s[0]) + escape_chars(t.take(i - 1))) + escape_char(s[i]));
    }
}

pub proof fn lemma_ser_items_take(items: Seq<JsonV>, i: int)
    requires
        0 <= i < items.len(),
    ensures
        ser_items(items.take(i + 1)) == if i == 0 {
            ser(items[0])
        } else {
            ser_items(items.take(i)) + seq![','] + ser(items[i])
        },
    decreases i,
{
    if i == 0 {
        assert(items.take(1)[0] == items[0]);
        assert(items.take(1).len() == 1);
    } else {
        let t = items.drop_first();
        lemma_ser_items_take(t, i - 1);
        assert(items.take(i + 1)[0] == items[0]);
        assert(items.take(i)[0] == items[0]);
        assert(items.take(i + 1).drop_first() =~= t.take(i));
        assert(items.take(i).drop_first() =~= t.take(i - 1));
        assert(t[i - 1] == items[i]);
        if i == 1 {
            assert(ser_items(items.take(2)) == ser(items[0]) + seq![','] + ser_items(t.take(1)));
            assert(ser_items(t.take(1)) == ser(t[0]));
            assert(ser_items(items.take(1)) == ser(items[0]));
            assert(ser(items[0]) + seq![','] + ser(items[1]) =~= ser_items(items.take(1))
                + seq![','] + ser(items[1]));
        } else {
            assert(ser_items(items.take(i + 1)) == ser(items[0]) + seq![','] + ser_items(t.take(i)));
            assert(ser_items(items.take(i)) == ser(items[0]) + seq![','] + ser_items(t.take(i - 1)));
            assert(ser(items[0]) + seq![','] + (ser_items(t.take(i - 1)) + seq![','] + ser(items[i]))
                =~= (ser(items[0]) + seq![','] + ser_items(t.take(i - 1))) + seq![','] + ser(
                items[i],
            ));
        }
    }
}

pub proof fn lemma_ser_fields_take(fields: Seq<(Seq<char>, JsonV)>, i: int)
    requires
        0 <= i < fields.len(),
    ensures
        ser_fields(fields.take(i + 1)) == if i == 0 {
            ser_string(fields[0].0) + seq![':'] + ser(fields[0].1)
        } else {
            ser_fields(fields.take(i)) + seq![','] + ser_string(fields[i].0) + seq![':'] + ser(
                fields[i].1,
            )
        },
    decreases i,
{
    if i == 0 {
        assert(fields.take(1)[0] == fields[0]);
        assert(fields.take(1).len() == 1);
    } else {
        let t = fields.drop_first();
        lemma_ser_fields_take(t, i - 1);
        let h = ser_string(fields[0].0) + seq![':'] + ser(fields[0].1);
        assert(fields.take(i + 1)[0] == fields[0]);
        assert(fields.take(i)[0] == fields[0]);
        assert(fields.take(i + 1).drop_first() =~= t.take(i));
        assert(fields.take(i).drop_first() =~= t.take(i - 1));
        assert(t[i - 1] == fields[i]);
        let fi = ser_string(fields[i].0) + seq![':'] + ser(fields[i].1);
        if i == 1 {
            assert(ser_fields(fields.take(2)) == h + seq![','] + ser_fields(t.take(1)));
            assert(ser_fields(t.take(1)) == ser_string(t[0].0) + seq![':'] + ser(t[0].1));
            assert(ser_fields(fields.take(1)) == h);
            assert(h + seq![','] + (ser_string(fields[1].0) + seq![':'] + ser(fields[1].1))
                =~= ser_fields(fields.take(1)) + seq![','] + ser_string(fields[1].0) + seq![':']
                + ser(fields[1].1));
        } else {
            assert(ser_fields(fields.take(i + 1)) == h + seq![','] + ser_fields(t.take(i)));
            assert(ser_fields(fields.take(i)) == h + seq![','] + ser_fields(t.take(i - 1)));
            assert(h + seq![','] + (ser_fields(t.take(i - 1)) + seq![','] + fi) =~= (h + seq![',']
                + ser_fields(t.take(i - 1))) + seq![','] + fi);
            assert(ser_fields(t.take(i)) == ser_fields(t.take(i - 1)) + seq![','] + fi);
        }
    }
}

/// Relies on `String::from_iter` (via `Iterator::collect` on `char`s): the
/// returned string holds exactly the given characters, in order.
#[verifier::external_body]
pub fn chars_to_string(v: &Vec<char>) -> (r: String)
    ensures
        r@ == v@,
{
    v.iter().collect()
}

pub fn hex_digit(d: u8) -> (c: char)
    requires
        d < 16,
    ensures
        c == hex_char(d as int),
{
    if d == 0 {
        '0'
    } else if d == 1 {
        '1'
    } else if d == 2 {
        '2'
    } else if d == 3 {
        '3'
    } else if d == 4 {
        '4'
    } else if d == 5 {
        '5'
    } else if d == 6 {
        '6'
    } else if d == 7 {
        '7'
    } else if d == 8 {
        '8'
    } else if d == 9 {
        '9'
    } else if d == 10 {
        'a'
    } else if d == 11 {
        'b'
    } else if d == 12 {
        'c'
    } else if d == 13 {
        'd'
    } else if d == 14 {
        'e'
    } else {
        'f'
    }
}

/// Appends the characters of `s` to `out`.
pub fn push_str_chars(s: &str, out: &mut Vec<char>)
    ensures
        final(out)@ == old(out)@ + s@,
{
    let n = s.unicode_len();
    let mut i: usize = 0;
    while i < n
        invariant
            n == s@.len(),
            i <= n,
            out@ == old(out)@ + s@.take(i as int),
        decreases n - i,
    {
        let c = s.get_char(i);
        out.push(c);
        proof {
            assert(s@.take(i as int + 1) =~= s@.take(i as int).push(s@[i as int]));
        }
        i = i + 1;
    }
    proof {
        assert(s@.take(n as int) =~= s@);
    }
}

/// Appends the JSON string literal for `s` (quotes and escapes included).
pub fn write_string_lit(s: &str, out: &mut Vec<char>)
    ensures
        final(out)@ == old(out)@ + ser_string(s@),
{
    out.push('"');
    let n = s.unicode_len();
    let mut i: usize = 0;
    while i < n
        invariant
            n == s@.len(),
            i <= n,
            out@ == old(out)@ + seq!['"'] + escape_chars(s@.take(i as int)),
        decreases n - i,
    {
        let c = s.get_char(i);
        let u = c as u32;
        if c == '"' {
            out.push('\\');
            out.push('"');
        } else if c == '\\' {
            out.push('\\');
            out.push('\\');
        } else if c == '\n' {
            out.push('\\');
            out.push('n');
        } else if c == '\r' {
            out.push('\\');
            out.push('r');
        } else if c == '\t' {
            out.push('\\');
            out.push('t');
        } else if u < 32 {
            out.push('\\');
            out.push('u');
            out.push('0');
            out.push('0');
            out.push(hex_digit((u / 16) as u8));
            out.push(hex_digit((u % 16) as u8));
        } else {
            out.push(c);
        }
        proof {
            lemma_escape_chars_take(s@, i as int);
            assert(out@ =~= old(out)@ + seq!['"'] + escape_chars(s@.take(i as int + 1)));
        }
        i = i + 1;
    }
    out.push('"');
    proof {
        assert(s@.take(n as int) =~= s@);
        assert(out@ =~= old(out)@ + ser_string(s@));
    }
}

/// Appends the canonical serialization of `v` to `out`.
#[verifier::loop_isolation(false)]
#[verifier::rlimit(50)]
pub fn write_json(v: &Json, out: &mut Vec<char>)
    ensures
        final(out)@ == old(out)@ + ser(v@),
    decreases v,
{
    match v {
        Json::Null => {
            out.push('n');
            out.push('u');
            out.push('l');
            out.push('l');
            proof {
                assert(out@ =~= old(out)@ + ser(v@));
            }
        },
        Json::Bool(b) => {
            if *b {
                out.push('t');
                out.push('r');
                out.push('u');
                out.push('e');
            } else {
                out.push('f');
                out.push('a');
                out.push('l');
                out.push('s');
                out.push('e');
            }
            proof {
                assert(out@ =~= old(out)@ + ser(v@));
            }
        },
        Json::Num(t) => {
            push_str_chars(t.as_str(), out);
        },
        Json::Str(s) => {
            write_string_lit(s.as_str(), out);
        },
        Json::Arr(elems) => {
            out.push('[');
            let ghost vs = view_of_seq(elems@);
            proof {
                lemma_view_of_seq_len(elems@);
                assert(vs.take(0) =~= Seq::<JsonV>::empty());
                assert(ser_items(Seq::<JsonV>::empty()) == Seq::<char>::empty());
                assert(out@ =~= old(out)@ + seq!['['] + ser_items(vs.take(0)));
            }
            let n = elems.len();
            let mut i: usize = 0;
            while i < n
                invariant
                    n == elems.len(),
                    i <= n,
                    vs == view_of_seq(elems@),
                    vs.len() == n,
                    out@ == old(out)@ + seq!['['] + ser_items(vs.take(i as int)),
                decreases n - i,
            {
                if i > 0 {
                    out.push(',');
                }
                proof {
                    lemma_view_of_seq_index(elems@, i as int);
                    assert(*v == Json::Arr(*elems));
                    assert(decreases_to!(*v => *elems));
                    assert(decreases_to!(*elems => elems@));
                    assert(decreases_to!(elems@ => elems@[i as int]));
                    assert(decreases_to!(*v => elems@[i as int]));
                }
                write_json(&elems[i], out);
                proof {
                    lemma_ser_items_take(vs, i as int);
                    assert(out@ =~= old(out)@ + seq!['['] + ser_items(vs.take(i as int + 1)));
                }
                i = i + 1;
            }
            out.push(']');
            proof {
                assert(vs.take(n as int) =~= vs);
                assert(out@ =~= old(out)@ + ser(v@));
            }
        },
        Json::Obj(fields) => {
            out.push('{');
            let ghost fs = view_of_fields(fields@);
            proof {
                lemma_view_of_fields_len(fields@);
                assert(fs.take(0) =~= Seq::<(Seq<char>, JsonV)>::empty());
                assert(ser_fields(Seq::<(Seq<char>, JsonV)>::empty()) == Seq::<char>::empty());
                assert(out@ =~= old(out)@ + seq!['{'] + ser_fields(fs.take(0)));
            }
            let n = fields.len();
            let mut i: usize = 0;
            while i < n
                invariant
                    n == fields.len(),
                    i <= n,
                    fs == view_of_fields(fields@),
                    fs.len() == n,
                    out@ == old(out)@ + seq!['{'] + ser_fields(fs.take(i as int)),
                decreases n - i,
            {
                if i > 0 {
                    out.push(',');
                }
                proof {
                    lemma_view_of_fields_index(fields@, i as int);
                    assert(*v == Json::Obj(*fields));
                    assert(decreases_to!(*v => *fields));
                    assert(decreases_to!(*fields => fields@));
                    assert(decreases_to!(fields@ => fields@[i as int]));
                    assert(decreases_to!(fields@[i as int] => fields@[i as int].1));
                    assert(decreases_to!(*v => fields@[i as int].1));
                }
                write_string_lit(fields[i].0.as_str(), out);
                out.push(':');
                write_json(&fields[i].1, out);
                proof {
                    lemma_ser_fields_take(fs, i as int);
                    assert(out@ =~= old(out)@ + seq!['{'] + ser_fields(fs.take(i as int + 1)));
                }
                i = i + 1;
            }
            out.push('}');
            proof {
                assert(fs.take(n as int) =~= fs);
                assert(out@ =~= old(out)@ + ser(v@));
            }
        },
    }
}

/// The canonical one-line serialization of `v`.
pub fn to_json_string(v: &Json) -> (r: String)
    ensures
        r@ == ser(v@),
{
    let mut out: Vec<char> = Vec::new();
    write_json(v, &mut out);
    chars_to_string(&out)
}

// ---------------------------------------------------------------------------
// Decimal spelling of unsigned integers (used for request ids).
// ---------------------------------------------------------------------------

pub open spec fn dec_digit(d: int) -> char {
    if d == 0 {
        '0'
    } else if d == 1 {
        '1'
    } else if d == 2 {
        '2'
    } else if d == 3 {
        '3'
    } else if d == 4 {
        '4'
    } else if d == 5 {
        '5'
    } else if d == 6 {
        '6'
    } else if d == 7 {
        '7'
    } else if d == 8 {
        '8'
    } else {
        '9'
    }
}

/// The decimal spelling of a nonnegative integer, most significant digit
/// first, no leading zeros (a single `0` for zero).
pub open spec fn dec_str(n: int) -> Seq<char>
    decreases n,
{
    if n < 10 {
        seq![dec_digit(n)]
    } else {
        dec_str(n / 10) + seq![dec_digit(n % 10)]
    }
}

pub fn push_u64_decimal(n: u64, out: &mut Vec<char>)
    ensures
        final(out)@ == old(out)@ + dec_str(n as int),
    decreases n,
{
    if n < 10 {
        out.push(dec_digit_char((n % 10) as u8));
    } else {
        push_u64_decimal(n / 10, out);
        out.push(dec_digit_char((n % 10) as u8));
    }
}

pub proof fn lemma_dec_str_digits(n: int)
    requires
        n >= 0,
    ensures
        dec_str(n).len() > 0,
        forall|k: int| 0 <= k < dec_str(n).len() ==> is_digit(#[trigger] dec_str(n)[k]),
        n > 0 ==> dec_str(n)[0] != '0',
    decreases n,
{
    if n < 10 {
        assert(is_digit(dec_digit(n)));
        assert(n > 0 ==> dec_digit(n) != '0');
    } else {
        lemma_dec_str_digits(n / 10);
        let t = dec_str(n);
        let h = dec_str(n / 10);
        assert(t == h + seq![dec_digit(n % 10)]);
        assert(is_digit(dec_digit(n % 10)));
        assert forall|k: int| 0 <= k < t.len() implies is_digit(#[trigger] t[k]) by {
            if k < h.len() {
                assert(t[k] == h[k]);
            } else {
                assert(t[k] == dec_digit(n % 10));
            }
        }
        assert(t[0] == h[0]);
    }
}

proof fn lemma_num_run_int_digits(t: Seq<char>)
    requires
        forall|k: int| 0 <= k < t.len() ==> is_digit(#[trigger] t[k]),
    ensures
        num_run(NumState::IntDigits, t) == Some(NumState::IntDigits),
    decreases t,
{
    if t.len() > 0 {
        assert(is_digit(t[0]));
        lemma_num_run_int_digits(t.drop_first());
    }
}

/// The decimal spelling of a nonnegative integer is a well-formed number
/// token.
pub proof fn lemma_dec_str_valid(n: int)
    requires
        n >= 0,
    ensures
        num_token_valid(dec_str(n)),
{
    lemma_dec_str_digits(n);
    let t = dec_str(n);
    if n == 0 {
        assert(t == seq![dec_digit(0)]);
        assert(t[0] == '0');
        assert(num_step(NumState::Start, '0') == Some(NumState::IntZero));
        assert(t.drop_first() =~= Seq::<char>::empty());
        assert(num_run(NumState::IntZero, Seq::<char>::empty()) == Some(NumState::IntZero));
        assert(num_run(NumState::Start, t) == Some(NumState::IntZero));
    } else {
        assert(is_digit(t[0]) && t[0] != '0');
        assert(('-' as u32) == 45);
        assert(t[0] != '-');
        assert(num_step(NumState::Start, t[0]) == Some(NumState::IntDigits));
        assert(forall|k: int| 0 <= k < t.drop_first().len() ==> is_digit(
            #[trigger] t.drop_first()[k],
        ));
        lemma_num_run_int_digits(t.drop_first());
        assert(num_run(NumState::Start, t) == Some(NumState::IntDigits));
    }
}

// ---------------------------------------------------------------------------
// Parsing: the meaning of one line of wire text, as a mathematical function.
// ---------------------------------------------------------------------------

pub open spec fn is_ws(c: char) -> bool {
    c == ' ' || c == '\t' || c == '\n' || c == '\r'
}

pub open spec fn is_digit(c: char) -> bool {
    48 <= (c as u32) <= 57
}

/// The characters a number token may be spelled with.
pub open spec fn is_num_char(c: char) -> bool {
    is_digit(c) || c == '-' || c == '+' || c == '.' || c == 'e' || c == 'E'
}

/// First index at or after `i` holding a non-whitespace character.
pub open spec fn skip_ws(s: Seq<char>, i: int) -> int
    decreases s.len() - i,
{
    if 0 <= i < s.len() && is_ws(s[i]) {
        skip_ws(s, i + 1)
    } else {
        i
    }
}

/// First index at or after `i` holding a character outside the number
/// alphabet (the end of a maximal number token).
pub open spec fn num_end(s: Seq<char>, i: int) -> int
    decreases s.len() - i,
{
    if 0 <= i < s.len() && is_num_char(s[i]) {
        num_end(s, i + 1)
    } else {
        i
    }
}

pub proof fn lemma_num_end_bounds(s: Seq<char>, i: int)
    requires
        0 <= i <= s.len(),
    ensures
        i <= num_end(s, i) <= s.len(),
    decreases s.len() - i,
{
    if i < s.len() && is_num_char(s[i]) {
        lemma_num_end_bounds(s, i + 1);
    }
}

/// States of the JSON number grammar, read left to right.
pub enum NumState {
    Start,
    Minus,
    IntZero,
    IntDigits,
    FracDot,
    FracDigits,
    ExpMark,
    ExpSign,
    ExpDigits,
}

pub open spec fn num_step(st: NumState, c: char) -> Option<NumState> {
    match st {
        NumState::Start => if c == '-' {
            Some(NumState::Minus)
        } else if c == '0' {
            Some(NumState::IntZero)
        } else if is_digit(c) {
            Some(NumState::IntDigits)
        } else {
            None
        },
        NumState::Minus => if c == '0' {
            Some(NumState::IntZero)
        } else if is_digit(c) {
            Some(NumState::IntDigits)
        } else {
            None
        },
        NumState::IntZero => if c == '.' {
            Some(NumState::FracDot)
        } else if c == 'e' || c == 'E' {
            Some(NumState::ExpMark)
        } else {
            None
        },
        NumState::IntDigits => if is_digit(c) {
            Some(NumState::IntDigits)
        } else if c == '.' {
            Some(NumState::FracDot)
        } else if c == 'e' || c == 'E' {
            Some(NumState::ExpMark)
        } else {
            None
        },
        NumState::FracDot => if is_digit(c) {
            Some(NumState::FracDigits)
        } else {
            None
        },
        NumState::FracDigits => if is_digit(c) {
            Some(NumState::FracDigits)
        } else if c == 'e' || c == 'E' {
            Some(NumState::ExpMark)
        } else {
            None
        },
        NumState::ExpMark => if is_digit(c) {
            Some(NumState::ExpDigits)
        } else if c == '+' || c == '-' {
            Some(NumState::ExpSign)
        } else {
            None
        },
        NumState::ExpSign => if is_digit(c) {
            Some(NumState::ExpDigits)
        } else {
            None
        },
        NumState::ExpDigits => if is_digit(c) {
            Some(NumState::ExpDigits)
        } else {
            None
        },
    }
}

pub open spec fn num_accepting(st: NumState) -> bool {
    match st {
        NumState::IntZero => true,
        NumState::IntDigits => true,
        NumState::FracDigits => true,
        NumState::ExpDigits => true,
        _ => false,
    }
}

pub open spec fn num_run(st: NumState, t: Seq<char>) -> Option<NumState>
    decreases t,
{
    if t.len() == 0 {
        Some(st)
    } else {
        match num_step(st, t[0]) {
            Some(st2) => num_run(st2, t.drop_first()),
            None => None,
        }
    }
}

/// Whether `t` is a well-formed JSON number token.
pub open spec fn num_token_valid(t: Seq<char>) -> bool {
    t.len() > 0 && match num_run(NumState::Start, t) {
        Some(st) => num_accepting(st),
        None => false,
    }
}

/// Value of one hexadecimal digit character, or -1.
pub open spec fn hex_val(c: char) -> int {
    let u = c as u32;
    if 48 <= u <= 57 {
        u - 48
    } else if 97 <= u <= 102 {
        u - 87
    } else if 65 <= u <= 70 {
        u - 55
    } else {
        -1
    }
}

/// Whether `v` is a Unicode scalar value (a valid `char` code point).
pub open spec fn is_scalar_value(v: int) -> bool {
    (0 <= v < 0xD800) || (0xE000 <= v <= 0x10FFFF)
}

/// Parses the body of a string literal: `i` points just after the opening
/// quote; yields the accumulated content and the index after the closing
/// quote. Unescaped control characters, bad escapes, and escapes naming
/// surrogate code points are rejected.
pub open spec fn sp_str_body(s: Seq<char>, i: int, acc: Seq<char>) -> Option<(Seq<char>, int)>
    decreases s.len() - i,
{
    if i < 0 || i >= s.len() {
        None
    } else {
        let c = s[i];
        if c == '"' {
            Some((acc, i + 1))
        } else if c == '\\' {
            if i + 1 >= s.len() {
                None
            } else {
                let e = s[i + 1];
                if e == '"' {
                    sp_str_body(s, i + 2, acc.push('"'))
                } else if e == '\\' {
                    sp_str_body(s, i + 2, acc.push('\\'))
                } else if e == '/' {
                    sp_str_body(s, i + 2, acc.push('/'))
                } else if e == 'n' {
                    sp_str_body(s, i + 2, acc.push('\n'))
                } else if e == 'r' {
                    sp_str_body(s, i + 2, acc.push('\r'))
                } else if e == 't' {
                    sp_str_body(s, i + 2, acc.push('\t'))
                } else if e == 'b' {
                    sp_str_body(s, i + 2, acc.push(8u32 as char))
                } else if e == 'f' {
                    sp_str_body(s, i + 2, acc.push(12u32 as char))
                } else if e == 'u' {
                    if i + 6 > s.len() {
                        None
                    } else {
                        let h0 = hex_val(s[i + 2]);
                        let h1 = hex_val(s[i + 3]);
                        let h2 = hex_val(s[i + 4]);
                        let h3 = hex_val(s[i + 5]);
                        if h0 >= 0 && h1 >= 0 && h2 >= 0 && h3 >= 0 {
                            let v = h0 * 4096 + h1 * 256 + h2 * 16 + h3;
                            if is_scalar_value(v) {
                                sp_str_body(s, i + 6, acc.push(((v as u32) as char)))
                            } else {
                                None
                            }
                        } else {
                            None
                        }
                    }
                } else {
                    None
                }
            }
        } else if (c as u32) < 32 {
            None
        } else {
            sp_str_body(s, i + 1, acc.push(c))
        }
    }
}

/// Parses one JSON value starting at `i` (leading whitespace allowed);
/// yields the value and the index just after it.
pub open spec fn sp_value(s: Seq<char>, i: int) -> Option<(JsonV, int)>
    decreases s.len() - i, 0int,
{
    let j = skip_ws(s, i);
    if j < i || j >= s.len() {
        None
    } else {
        let c = s[j];
        if c == 'n' {
            if j + 4 <= s.len() && s.subrange(j, j + 4) == seq!['n', 'u', 'l', 'l'] {
                Some((JsonV::Null, j + 4))
            } else {
                None
            }
        } else if c == 't' {
            if j + 4 <= s.len() && s.subrange(j, j + 4) == seq!['t', 'r', 'u', 'e'] {
                Some((JsonV::Bool(true), j + 4))
            } else {
                None
            }
        } else if c == 'f' {
            if j + 5 <= s.len() && s.subrange(j, j + 5) == seq!['f', 'a', 'l', 's', 'e'] {
                Some((JsonV::Bool(false), j + 5))
            } else {
                None
            }
        } else if c == '"' {
            match sp_str_body(s, j + 1, Seq::empty()) {
                Some((content, k)) => Some((JsonV::Str(content), k)),
                None => None,
            }
        } else if c == '[' {
            let k = skip_ws(s, j + 1);
            if k <= j || k >= s.len() {
                None
            } else if s[k] == ']' {
                Some((JsonV::Arr(Seq::empty()), k + 1))
            } else {
                match sp_elems(s, j + 1, Seq::empty()) {
                    Some((items, m)) => Some((JsonV::Arr(items), m)),
                    None => None,
                }
            }
        } else if c == '{' {
            let k = skip_ws(s, j + 1);
            if k <= j || k >= s.len() {
                None
            } else if s[k] == '}' {
                Some((JsonV::Obj(Seq::empty()), k + 1))
            } else {
                match sp_members(s, j + 1, Seq::empty()) {
                    Some((fields, m)) => Some((JsonV::Obj(fields), m)),
                    None => None,
                }
            }
        } else if c == '-' || is_digit(c) {
            let e = num_end(s, j);
            if e <= j || e > s.len() {
                None
            } else {
                let t = s.subrange(j, e);
                if num_token_valid(t) {
                    Some((JsonV::Num(t), e))
                } else {
                    None
                }
            }
        } else {
            None
        }
    }
}

/// Parses the elements of a non-empty array, `i` pointing just after `[`
/// or after a comma.
pub open spec fn sp_elems(s: Seq<char>, i: int, acc: Seq<JsonV>) -> Option<(Seq<JsonV>, int)>
    decreases s.len() - i, 1int,
{
    if i < 0 {
        None
    } else {
        match sp_value(s, i) {
            None => None,
            Some((v, j)) => {
                if j <= i || j > s.len() {
                    None
                } else {
                    let k = skip_ws(s, j);
                    if k < j || k >= s.len() {
                        None
                    } else if s[k] == ']' {
                        Some((acc.push(v), k + 1))
                    } else if s[k] == ',' {
                        sp_elems(s, k + 1, acc.push(v))
                    } else {
                        None
                    }
                }
            },
        }
    }
}

/// Parses the members of a non-empty object, `i` pointing just after `{`
/// or after a comma.
pub open spec fn sp_members(s: Seq<char>, i: int, acc: Seq<(Seq<char>, JsonV)>) -> Option<
    (Seq<(Seq<char>, JsonV)>, int),
>
    decreases s.len() - i, 1int,
{
    if i < 0 {
        None
    } else {
        let j = skip_ws(s, i);
        if j < i || j >= s.len() || s[j] != '"' {
            None
        } else {
            match sp_str_body(s, j + 1, Seq::empty()) {
                None => None,
                Some((key, k)) => {
                    if k <= j || k > s.len() {
                        None
                    } else {
                        let m = skip_ws(s, k);
                        if m < k || m >= s.len() || s[m] != ':' {
                            None
                        } else {
                            match sp_value(s, m + 1) {
                                None => None,
                                Some((v, p)) => {
                                    if p <= m || p > s.len() {
                                        None
                                    } else {
                                        let q = skip_ws(s, p);
                                        if q < p || q >= s.len() {
                                            None
                                        } else if s[q] == '}' {
                                            Some((acc.push((key, v)), q + 1))
                                        } else if s[q] == ',' {
                                            sp_members(s, q + 1, acc.push((key, v)))
                                        } else {
                                            None
                                        }
                                    }
                                },
                            }
                        }
                    }
                },
            }
        }
    }
}

/// The meaning of one whole line of text: a single JSON value with nothing
/// but whitespace around it.
pub open spec fn sp_json(s: Seq<char>) -> Option<JsonV> {
    match sp_value(s, 0) {
        Some((v, j)) => if 0 <= j <= s.len() && skip_ws(s, j) == s.len() {
            Some(v)
        } else {
            None
        },
        None => None,
    }
}

/// Relies on `char::from_u32`: `Some` exactly for Unicode scalar values,
/// and the returned character has the given code point.
#[verifier::external_body]
fn char_from_u32(v: u32) -> (r: Option<char>)
    ensures
        r == if is_scalar_value(v as int) {
            Some((v as char))
        } else {
            None::<char>
        },
{
    char::from_u32(v)
}

pub fn x_is_ws(c: char) -> (b: bool)
    ensures
        b == is_ws(c),
{
    c == ' ' || c == '\t' || c == '\n' || c == '\r'
}

fn x_is_digit(c: char) -> (b: bool)
    ensures
        b == is_digit(c),
{
    let u = c as u32;
    48 <= u && u <= 57
}

fn x_is_num_char(c: char) -> (b: bool)
    ensures
        b == is_num_char(c),
{
    x_is_digit(c) || c == '-' || c == '+' || c == '.' || c == 'e' || c == 'E'
}

pub fn x_skip_ws(s: &Vec<char>, start: usize) -> (r: usize)
    requires
        start <= s.len(),
    ensures
        r == skip_ws(s@, start as int),
        start <= r <= s.len(),
{
    let mut i = start;
    while i < s.len() && x_is_ws(s[i])
        invariant
            start <= i <= s.len(),
            skip_ws(s@, start as int) == skip_ws(s@, i as int),
        decreases s.len() - i,
    {
        i = i + 1;
    }
    i
}

fn x_num_end(s: &Vec<char>, start: usize) -> (r: usize)
    requires
        start <= s.len(),
    ensures
        r == num_end(s@, start as int),
        start <= r <= s.len(),
{
    let mut i = start;
    while i < s.len() && x_is_num_char(s[i])
        invariant
            start <= i <= s.len(),
            num_end(s@, start as int) == num_end(s@, i as int),
        decreases s.len() - i,
    {
        i = i + 1;
    }
    i
}

fn x_hex_val(c: char) -> (r: Option<u8>)
    ensures
        match r {
            Some(d) => hex_val(c) == d as int && d < 16,
            None => hex_val(c) == -1,
        },
{
    let u = c as u32;
    if 48 <= u && u <= 57 {
        Some((u - 48) as u8)
    } else if 97 <= u && u <= 102 {
        Some((u - 87) as u8)
    } else if 65 <= u && u <= 70 {
        Some((u - 55) as u8)
    } else {
        None
    }
}

/// Checks a number token against the JSON number grammar.
fn x_num_token_valid(t: &Vec<char>) -> (b: bool)
    ensures
        b == num_token_valid(t@),
{
    if t.len() == 0 {
        return false;
    }
    let mut st = NumState::Start;
    let mut k: usize = 0;
    proof {
        assert(t@.skip(0) =~= t@);
    }
    while k < t.len()
        invariant
            k <= t.len(),
            num_run(NumState::Start, t@) == num_run(st, t@.skip(k as int)),
        decreases t.len() - k,
    {
        let c = t[k];
        let next = num_step_exec(st, c);
        proof {
            assert(t@.skip(k as int).len() > 0);
            assert(t@.skip(k as int)[0] == t@[k as int]);
            assert(t@.skip(k as int).drop_first() =~= t@.skip(k as int + 1));
        }
        match next {
            Some(st2) => {
                st = st2;
            },
            None => {
                proof {
                    assert(num_run(NumState::Start, t@) is None);
                }
                return false;
            },
        }
        k = k + 1;
    }
    proof {
        assert(t@.skip(t@.len() as int) =~= Seq::<char>::empty());
    }
    num_accepting_exec(st)
}

fn num_step_exec(st: NumState, c: char) -> (r: Option<NumState>)
    ensures
        r == num_step(st, c),
{
    match st {
        NumState::Start => {
            if c == '-' {
                Some(NumState::Minus)
            } else if c == '0' {
                Some(NumState::IntZero)
            } else if x_is_digit(c) {
                Some(NumState::IntDigits)
            } else {
                None
            }
        },
        NumState::Minus => {
            if c == '0' {
                Some(NumState::IntZero)
            } else if x_is_digit(c) {
                Some(NumState::IntDigits)
            } else {
                None
            }
        },
        NumState::IntZero => {
            if c == '.' {
                Some(NumState::FracDot)
            } else if c == 'e' || c == 'E' {
                Some(NumState::ExpMark)
            } else {
                None
            }
        },
        NumState::IntDigits => {
            if x_is_digit(c) {
                Some(NumState::IntDigits)
            } else if c == '.' {
                Some(NumState::FracDot)
            } else if c == 'e' || c == 'E' {
                Some(NumState::ExpMark)
            } else {
                None
            }
        },
        NumState::FracDot => {
            if x_is_digit(c) {
                Some(NumState::FracDigits)
            } else {
                None
            }
        },
        NumState::FracDigits => {
            if x_is_digit(c) {
                Some(NumState::FracDigits)
            } else if c == 'e' || c == 'E' {
                Some(NumState::ExpMark)
            } else {
                None
            }
        },
        NumState::ExpMark => {
            if x_is_digit(c) {
                Some(NumState::ExpDigits)
            } else if c == '+' || c == '-' {
                Some(NumState::ExpSign)
            } else {
                None
            }
        },
        NumState::ExpSign => {
            if x_is_digit(c) {
                Some(NumState::ExpDigits)
            } else {
                None
            }
        },
        NumState::ExpDigits => {
            if x_is_digit(c) {
                Some(NumState::ExpDigits)
            } else {
                None
            }
        },
    }
}

fn num_accepting_exec(st: NumState) -> (b: bool)
    ensures
        b == num_accepting(st),
{
    match st {
        NumState::IntZero => true,
        NumState::IntDigits => true,
        NumState::FracDigits => true,
        NumState::ExpDigits => true,
        _ => false,
    }
}

/// Parses a string literal body; `start` points just after the opening
/// quote. Returns the content and the index after the closing quote.
fn x_str_body(s: &Vec<char>, start: usize) -> (r: Option<(Vec<char>, usize)>)
    requires
        start <= s.len(),
    ensures
        match r {
            Some(p) => sp_str_body(s@, start as int, Seq::empty()) == Some((p.0@, p.1 as int))
                && start < p.1 <= s.len(),
            None => sp_str_body(s@, start as int, Seq::empty()) is None,
        },
{
    let mut acc: Vec<char> = Vec::new();
    let mut i = start;
    while i < s.len()
        invariant
            start <= i <= s.len(),
            sp_str_body(s@, start as int, Seq::empty()) == sp_str_body(s@, i as int, acc@),
        decreases s.len() - i,
    {
        let c = s[i];
        if c == '"' {
            return Some((acc, i + 1));
        } else if c == '\\' {
            if i + 1 >= s.len() {
                return None;
            }
            let e = s[i + 1];
            if e == '"' {
                acc.push('"');
                i = i + 2;
            } else if e == '\\' {
                acc.push('\\');
                i = i + 2;
            } else if e == '/' {
                acc.push('/');
                i = i + 2;
            } else if e == 'n' {
                acc.push('\n');
                i = i + 2;
            } else if e == 'r' {
                acc.push('\r');
                i = i + 2;
            } else if e == 't' {
                acc.push('\t');
                i = i + 2;
            } else if e == 'b' {
                let b = char_from_u32(8);
                acc.push(b.unwrap());
                i = i + 2;
            } else if e == 'f' {
                let f = char_from_u32(12);
                acc.push(f.unwrap());
                i = i + 2;
            } else if e == 'u' {
                if s.len() - i < 6 {
                    return None;
                }
                let h0 = x_hex_val(s[i + 2]);
                let h1 = x_hex_val(s[i + 3]);
                let h2 = x_hex_val(s[i + 4]);
                let h3 = x_hex_val(s[i + 5]);
                match (h0, h1, h2, h3) {
                    (Some(d0), Some(d1), Some(d2), Some(d3)) => {
                        let v: u32 = (d0 as u32) * 4096 + (d1 as u32) * 256 + (d2 as u32) * 16 + (
                        d3 as u32);
                        if v < 0xD800 || v >= 0xE000 {
                            let c2 = char_from_u32(v);
                            acc.push(c2.unwrap());
                            i = i + 6;
                        } else {
                            return None;
                        }
                    },
                    _ => {
                        return None;
                    },
                }
            } else {
                return None;
            }
        } else if (c as u32) < 32 {
            return None;
        } else {
            acc.push(c);
            i = i + 1;
        }
    }
    None
}

/// Parses one JSON value out of `s` starting at `i`.
#[verifier::rlimit(50)]
fn x_value(s: &Vec<char>, i: usize) -> (r: Option<(Json, usize)>)
    requires
        i <= s.len(),
    ensures
        match r {
            Some(p) => sp_value(s@, i as int) == Some((p.0@, p.1 as int)) && i < p.1 <= s.len(),
            None => sp_value(s@, i as int) is None,
        },
    decreases s.len() - i, 0int,
{
    let j = x_skip_ws(s, i);
    if j >= s.len() {
        return None;
    }
    let c = s[j];
    if c == 'n' {
        if s.len() - j >= 4 && s[j + 1] == 'u' && s[j + 2] == 'l' && s[j + 3] == 'l' {
            proof {
                assert(s@.subrange(j as int, j as int + 4) =~= seq!['n', 'u', 'l', 'l']);
            }
            Some((Json::Null, j + 4))
        } else {
            proof {
                if s@.len() - j >= 4 {
                    assert(s@.subrange(j as int, j as int + 4)[1] == s@[j as int + 1]);
                    assert(s@.subrange(j as int, j as int + 4)[2] == s@[j as int + 2]);
                    assert(s@.subrange(j as int, j as int + 4)[3] == s@[j as int + 3]);
                }
            }
            None
        }
    } else if c == 't' {
        if s.len() - j >= 4 && s[j + 1] == 'r' && s[j + 2] == 'u' && s[j + 3] == 'e' {
            proof {
                assert(s@.subrange(j as int, j as int + 4) =~= seq!['t', 'r', 'u', 'e']);
            }
            Some((Json::Bool(true), j + 4))
        } else {
            proof {
                if s@.len() - j >= 4 {
                    assert(s@.subrange(j as int, j as int + 4)[1] == s@[j as int + 1]);
                    assert(s@.subrange(j as int, j as int + 4)[2] == s@[j as int + 2]);
                    assert(s@.subrange(j as int, j as int + 4)[3] == s@[j as int + 3]);
                }
            }
            None
        }
    } else if c == 'f' {
        if s.len() - j >= 5 && s[j + 1] == 'a' && s[j + 2] == 'l' && s[j + 3] == 's' && s[j + 4]
            == 'e' {
            proof {
                assert(s@.subrange(j as int, j as int + 5) =~= seq!['f', 'a', 'l', 's', 'e']);
            }
            Some((Json::Bool(false), j + 5))
        } else {
            proof {
                if s@.len() - j >= 5 {
                    assert(s@.subrange(j as int, j as int + 5)[1] == s@[j as int + 1]);
                    assert(s@.subrange(j as int, j as int + 5)[2] == s@[j as int + 2]);
                    assert(s@.subrange(j as int, j as int + 5)[3] == s@[j as int + 3]);
                    assert(s@.subrange(j as int, j as int + 5)[4] == s@[j as int + 4]);
                }
            }
            None
        }
    } else if c == '"' {
        match x_str_body(s, j + 1) {
            Some(p) => {
                let (content, k) = p;
                let st = chars_to_string(&content);
                Some((Json::Str(st), k))
            },
            None => None,
        }
    } else if c == '[' {
        let k = x_skip_ws(s, j + 1);
        if k >= s.len() {
            return None;
        }
        if s[k] == ']' {
            let empty_elems: Vec<Json> = Vec::new();
            proof {
                assert(view_of_seq(empty_elems@) =~= Seq::<JsonV>::empty());
            }
            Some((Json::Arr(empty_elems), k + 1))
        } else {
            let acc: Vec<Json> = Vec::new();
            proof {
                assert(view_of_seq(acc@) =~= Seq::<JsonV>::empty());
            }
            match x_elems(s, j + 1, acc) {
                Some(p) => Some((Json::Arr(p.0), p.1)),
                None => None,
            }
        }
    } else if c == '{' {
        let k = x_skip_ws(s, j + 1);
        if k >= s.len() {
            return None;
        }
        if s[k] == '}' {
            let empty_fields: Vec<(String, Json)> = Vec::new();
            proof {
                assert(view_of_fields(empty_fields@) =~= Seq::<(Seq<char>, JsonV)>::empty());
            }
            Some((Json::Obj(empty_fields), k + 1))
        } else {
            let acc: Vec<(String, Json)> = Vec::new();
            proof {
                assert(view_of_fields(acc@) =~= Seq::<(Seq<char>, JsonV)>::empty());
            }
            match x_members(s, j + 1, acc) {
                Some(p) => Some((Json::Obj(p.0), p.1)),
                None => None,
            }
        }
    } else if c == '-' || x_is_digit(c) {
        let e = x_num_end(s, j);
        proof {
            lemma_num_end_bounds(s@, j as int + 1);
        }
        let mut t: Vec<char> = Vec::new();
        let mut p = j;
        proof {
            assert(t@ =~= s@.subrange(j as int, j as int));
        }
        while p < e
            invariant
                j <= p <= e <= s.len(),
                t@ == s@.subrange(j as int, p as int),
            decreases e - p,
        {
            t.push(s[p]);
            proof {
                assert(s@.subrange(j as int, p as int + 1) =~= s@.subrange(
                    j as int,
                    p as int,
                ).push(s@[p as int]));
            }
            p = p + 1;
        }
        if x_num_token_valid(&t) {
            let ts = chars_to_string(&t);
            Some((Json::Num(ts), e))
        } else {
            None
        }
    } else {
        None
    }
}

/// Parses the elements of a non-empty array.
fn x_elems(s: &Vec<char>, i: usize, acc: Vec<Json>) -> (r: Option<(Vec<Json>, usize)>)
    requires
        i <= s.len(),
    ensures
        match r {
            Some(p) => sp_elems(s@, i as int, view_of_seq(acc@)) == Some(
                (view_of_seq(p.0@), p.1 as int),
            ) && i < p.1 <= s.len(),
            None => sp_elems(s@, i as int, view_of_seq(acc@)) is None,
        },
    decreases s.len() - i, 1int,
{
    let ghost acc0 = acc@;
    match x_value(s, i) {
        None => None,
        Some(p) => {
            let (v, j) = p;
            let ghost vv = v@;
            let k = x_skip_ws(s, j);
            if k >= s.len() {
                None
            } else if s[k] == ']' {
                let mut items = acc;
                items.push(v);
                proof {
                    lemma_view_of_seq_push(acc0, items@[items@.len() - 1]);
                    assert(view_of_seq(items@) == view_of_seq(acc0).push(vv));
                }
                Some((items, k + 1))
            } else if s[k] == ',' {
                let mut items = acc;
                items.push(v);
                proof {
                    lemma_view_of_seq_push(acc0, items@[items@.len() - 1]);
                    assert(view_of_seq(items@) == view_of_seq(acc0).push(vv));
                }
                x_elems(s, k + 1, items)
            } else {
                None
            }
        },
    }
}

/// Parses the members of a non-empty object.
fn x_members(s: &Vec<char>, i: usize, acc: Vec<(String, Json)>) -> (r: Option<
    (Vec<(String, Json)>, usize),
>)
    requires
        i <= s.len(),
    ensures
        match r {
            Some(p) => sp_members(s@, i as int, view_of_fields(acc@)) == Some(
                (view_of_fields(p.0@), p.1 as int),
            ) && i < p.1 <= s.len(),
            None => sp_members(s@, i as int, view_of_fields(acc@)) is None,
        },
    decreases s.len() - i, 1int,
{
    let ghost acc0 = acc@;
    let j = x_skip_ws(s, i);
    if j >= s.len() {
        return None;
    }
    if s[j] != '"' {
        return None;
    }
    match x_str_body(s, j + 1) {
        None => None,
        Some(kp) => {
            let (keychars, k) = kp;
            let ghost keyv = keychars@;
            let m = x_skip_ws(s, k);
            if m >= s.len() {
                return None;
            }
            if s[m] != ':' {
                return None;
            }
            match x_value(s, m + 1) {
                None => None,
                Some(vp) => {
                    let (v, p) = vp;
                    let ghost vv = v@;
                    let q = x_skip_ws(s, p);
                    if q >= s.len() {
                        None
                    } else if s[q] == '}' {
                        let key = chars_to_string(&keychars);
                        let mut fields = acc;
                        fields.push((key, v));
                        proof {
                            lemma_view_of_fields_push(
                                acc0,
                                fields@[fields@.len() - 1].0,
                                fields@[fields@.len() - 1].1,
                            );
                            assert(view_of_fields(fields@) == view_of_fields(acc0).push(
                                (keyv, vv),
                            ));
                        }
                        Some((fields, q + 1))
                    } else if s[q] == ',' {
                        let key = chars_to_string(&keychars);
                        let mut fields = acc;
                        fields.push((key, v));
                        proof {
                            lemma_view_of_fields_push(
                                acc0,
                                fields@[fields@.len() - 1].0,
                                fields@[fields@.len() - 1].1,
                            );
                            assert(view_of_fields(fields@) == view_of_fields(acc0).push(
                                (keyv, vv),
                            ));
                        }
                        x_members(s, q + 1, fields)
                    } else {
                        None
                    }
                },
            }
        },
    }
}

/// Parses one whole line of text as a single JSON value (whitespace around
/// it allowed, nothing else).
pub fn parse_json(s: &str) -> (r: Option<Json>)
    ensures
        match r {
            Some(v) => sp_json(s@) == Some(v@),
            None => sp_json(s@) is None,
        },
{
    let mut cs: Vec<char> = Vec::new();
    push_str_chars(s, &mut cs);
    match x_value(&cs, 0) {
        None => None,
        Some(p) => {
            let (v, j) = p;
            let k = x_skip_ws(&cs, j);
            if k == cs.len() {
                Some(v)
            } else {
                None
            }
        },
    }
}

// ---------------------------------------------------------------------------
// Round trip: parsing a canonical serialization yields the value back.
// ---------------------------------------------------------------------------

/// Whether the text `t` stands in `s` at position `i`.
pub open spec fn occurs_at(s: Seq<char>, i: int, t: Seq<char>) -> bool {
    0 <= i && i + t.len() <= s.len() && s.subrange(i, i + t.len()) == t
}

pub proof fn lemma_occurs_split(s: Seq<char>, i: int, a: Seq<char>, b: Seq<char>)
    requires
        occurs_at(s, i, a + b),
    ensures
        occurs_at(s, i, a),
        occurs_at(s, i + a.len(), b),
{
    assert(s.subrange(i, i + a.len()) =~= a) by {
        assert forall|k: int| 0 <= k < a.len() implies s.subrange(i, i + a.len())[k] == a[k] by {
            assert(s.subrange(i, i + (a + b).len())[k] == (a + b)[k]);
        }
    }
    assert(s.subrange(i + a.len(), i + a.len() + b.len()) =~= b) by {
        assert forall|k: int| 0 <= k < b.len() implies s.subrange(
            i + a.len(),
            i + a.len() + b.len(),
        )[k] == b[k] by {
            assert(s.subrange(i, i + (a + b).len())[a.len() + k] == (a + b)[a.len() + k]);
        }
    }
}

pub proof fn lemma_occurs_index(s: Seq<char>, i: int, t: Seq<char>, k: int)
    requires
        occurs_at(s, i, t),
        0 <= k < t.len(),
    ensures
        s[i + k] == t[k],
{
    assert(s.subrange(i, i + t.len())[k] == t[k]);
}

/// A whitespace-only suffix is skipped to the end of the text.
pub proof fn lemma_skip_ws_all(s: Seq<char>, i: int)
    requires
        0 <= i <= s.len(),
        forall|k: int| i <= k < s.len() ==> is_ws(s[k]),
    ensures
        skip_ws(s, i) == s.len(),
    decreases s.len() - i,
{
    if i < s.len() {
        lemma_skip_ws_all(s, i + 1);
    }
}

pub proof fn lemma_hex_val_hex_char(d: int)
    requires
        0 <= d < 16,
    ensures
        hex_val(hex_char(d)) == d,
{
}

/// Parsing a string body over the escaped spelling of `content` followed by
/// the closing quote yields `content` appended to the accumulator.
#[verifier::rlimit(50)]
pub proof fn lemma_rt_str_body(s: Seq<char>, i: int, content: Seq<char>, acc: Seq<char>)
    requires
        occurs_at(s, i, escape_chars(content) + seq!['"']),
    ensures
        sp_str_body(s, i, acc) == Some(
            (acc + content, i + escape_chars(content).len() + 1),
        ),
    decreases content,
{
    let esc = escape_chars(content);
    if content.len() == 0 {
        assert(esc == Seq::<char>::empty());
        lemma_occurs_index(s, i, esc + seq!['"'], 0);
        assert(s[i] == '"');
        assert(acc + content =~= acc);
    } else {
        let c = content[0];
        let rest = content.drop_first();
        let ec = escape_char(c);
        assert(esc == ec + escape_chars(rest));
        assert((ec + escape_chars(rest)) + seq!['"'] =~= ec + (escape_chars(rest) + seq!['"']));
        lemma_occurs_split(s, i, ec, escape_chars(rest) + seq!['"']);
        let i2 = i + ec.len();
        if c == '"' {
            lemma_occurs_index(s, i, ec, 0);
            lemma_occurs_index(s, i, ec, 1);
            lemma_rt_str_body(s, i2, rest, acc.push('"'));
            assert(acc.push(c) + rest =~= acc + content);
        } else if c == '\\' {
            lemma_occurs_index(s, i, ec, 0);
            lemma_occurs_index(s, i, ec, 1);
            lemma_rt_str_body(s, i2, rest, acc.push('\\'));
            assert(acc.push(c) + rest =~= acc + content);
        } else if c == '\n' {
            lemma_occurs_index(s, i, ec, 0);
            lemma_occurs_index(s, i, ec, 1);
            lemma_rt_str_body(s, i2, rest, acc.push('\n'));
            assert(acc.push(c) + rest =~= acc + content);
        } else if c == '\r' {
            lemma_occurs_index(s, i, ec, 0);
            lemma_occurs_index(s, i, ec, 1);
            lemma_rt_str_body(s, i2, rest, acc.push('\r'));
            assert(acc.push(c) + rest =~= acc + content);
        } else if c == '\t' {
            lemma_occurs_index(s, i, ec, 0);
            lemma_occurs_index(s, i, ec, 1);
            lemma_rt_str_body(s, i2, rest, acc.push('\t'));
            assert(acc.push(c) + rest =~= acc + content);
        } else if (c as u32) < 32 {
            let u = c as u32 as int;
            lemma_occurs_index(s, i, ec, 0);
            lemma_occurs_index(s, i, ec, 1);
            lemma_occurs_index(s, i, ec, 2);
            lemma_occurs_index(s, i, ec, 3);
            lemma_occurs_index(s, i, ec, 4);
            lemma_occurs_index(s, i, ec, 5);
            assert(s[i] == '\\' && s[i + 1] == 'u' && s[i + 2] == '0' && s[i + 3] == '0');
            assert(s[i + 4] == hex_char(u / 16) && s[i + 5] == hex_char(u % 16));
            assert(hex_val('0') == 0);
            lemma_hex_val_hex_char(u / 16);
            lemma_hex_val_hex_char(u % 16);
            let v = 0 * 4096 + 0 * 256 + (u / 16) * 16 + u % 16;
            assert(v == u);
            assert(is_scalar_value(v));
            vstd::utf8::char_u32_cast(c, c as u32);
            assert(((v as u32) as char) == c);
            lemma_rt_str_body(s, i2, rest, acc.push(c));
            assert(acc.push(c) + rest =~= acc + content);
        } else {
            assert(ec == seq![c]);
            lemma_occurs_index(s, i, ec, 0);
            assert(s[i] == c);
            lemma_rt_str_body(s, i2, rest, acc.push(c));
            assert(acc.push(c) + rest =~= acc + content);
        }
    }
}

/// Well-formed values: every number token obeys the number grammar.
pub open spec fn wf_json(v: JsonV) -> bool
    decreases v,
{
    match v {
        JsonV::Num(t) => num_token_valid(t),
        JsonV::Arr(items) => wf_items(items),
        JsonV::Obj(fields) => wf_fields(fields),
        _ => true,
    }
}

pub open spec fn wf_items(items: Seq<JsonV>) -> bool
    decreases items,
{
    if items.len() == 0 {
        true
    } else {
        wf_json(items[0]) && wf_items(items.drop_first())
    }
}

pub open spec fn wf_fields(fields: Seq<(Seq<char>, JsonV)>) -> bool
    decreases fields,
{
    if fields.len() == 0 {
        true
    } else {
        wf_json(fields[0].1) && wf_fields(fields.drop_first())
    }
}

/// A valid number token starts with a minus sign or a digit.
pub proof fn lemma_num_first(t: Seq<char>)
    requires
        num_token_valid(t),
    ensures
        t.len() > 0,
        t[0] == '-' || is_digit(t[0]),
{
}

/// Every character a run of the number grammar accepts is a number character.
pub proof fn lemma_num_chars(st: NumState, t: Seq<char>, k: int)
    requires
        num_run(st, t) is Some,
        0 <= k < t.len(),
    ensures
        is_num_char(t[k]),
    decreases t,
{
    if k > 0 {
        lemma_num_chars(num_step(st, t[0]).unwrap(), t.drop_first(), k - 1);
    }
}

/// A maximal number scan over a number token followed by a non-number
/// character stops exactly at the end of the token.
pub proof fn lemma_num_end_token(s: Seq<char>, i: int, t: Seq<char>)
    requires
        occurs_at(s, i, t),
        forall|k: int| 0 <= k < t.len() ==> is_num_char(#[trigger] t[k]),
        i + t.len() == s.len() || !is_num_char(s[i + t.len()]),
    ensures
        num_end(s, i) == i + t.len(),
    decreases t,
{
    if t.len() == 0 {
    } else {
        lemma_occurs_index(s, i, t, 0);
        assert(is_num_char(s[i]));
        assert(t =~= seq![t[0]] + t.drop_first());
        lemma_occurs_split(s, i, seq![t[0]], t.drop_first());
        lemma_num_end_token(s, i + 1, t.drop_first());
    }
}

/// Character classes of the punctuation the parser dispatches on.
pub proof fn lemma_char_classes()
    ensures
        !is_ws(','),
        !is_ws(']'),
        !is_ws('}'),
        !is_ws(':'),
        !is_ws('"'),
        !is_ws('n'),
        !is_ws('t'),
        !is_ws('f'),
        !is_ws('['),
        !is_ws('{'),
        !is_ws('-'),
        !is_num_char(','),
        !is_num_char(']'),
        !is_num_char('}'),
        !is_num_char('"'),
        !is_num_char('\n'),
        is_ws('\n'),
{
    assert((',' as u32) == 44);
    assert((']' as u32) == 93);
    assert(('}' as u32) == 125);
    assert(('"' as u32) == 34);
    assert(('\n' as u32) == 10);
}

/// The first character of a serialized value: never whitespace and never
/// one of the closing punctuation marks.
pub proof fn lemma_ser_first(v: JsonV)
    requires
        wf_json(v),
    ensures
        ser(v).len() > 0,
        !is_ws(ser(v)[0]),
        ser(v)[0] != ']',
        ser(v)[0] != '}',
        ser(v)[0] != ',',
        !(ser(v)[0] == 'n' || ser(v)[0] == 't' || ser(v)[0] == 'f' || ser(v)[0] == '"' || ser(
            v,
        )[0] == '[' || ser(v)[0] == '{') ==> (ser(v)[0] == '-' || is_digit(ser(v)[0])),
{
    match v {
        JsonV::Num(t) => {
            lemma_num_first(t);
            if is_digit(t[0]) {
                assert((' ' as u32) == 32);
                assert(('\t' as u32) == 9);
                assert(('\n' as u32) == 10);
                assert(('\r' as u32) == 13);
                assert((']' as u32) == 93);
                assert(('}' as u32) == 125);
                assert((',' as u32) == 44);
            }
        },
        JsonV::Str(s0) => {
            assert(ser(v)[0] == '"');
        },
        JsonV::Arr(items) => {
            assert(ser(v)[0] == '[');
        },
        JsonV::Obj(fields) => {
            assert(ser(v)[0] == '{');
        },
        _ => {},
    }
}

/// Parsing at the spelling of a well-formed value yields that value and
/// consumes exactly its spelling. The character right after the spelling
/// (if any) must not extend a number token.
#[verifier::rlimit(100)]
pub proof fn lemma_rt_value(s: Seq<char>, i: int, v: JsonV)
    requires
        wf_json(v),
        occurs_at(s, i, ser(v)),
        i + ser(v).len() == s.len() || !is_num_char(s[i + ser(v).len()]),
    ensures
        sp_value(s, i) == Some((v, i + ser(v).len())),
    decreases v, 0int,
{
    lemma_ser_first(v);
    lemma_occurs_index(s, i, ser(v), 0);
    assert(skip_ws(s, i) == i);
    match v {
        JsonV::Null => {
            assert(ser(v) =~= seq!['n', 'u', 'l', 'l']);
            assert(s.subrange(i, i + 4) == ser(v));
            assert(sp_value(s, i) == Some((JsonV::Null, i + 4)));
        },
        JsonV::Bool(b) => {
            if b {
                assert(ser(v) =~= seq!['t', 'r', 'u', 'e']);
            } else {
                assert(ser(v) =~= seq!['f', 'a', 'l', 's', 'e']);
            }
        },
        JsonV::Num(t) => {
            lemma_num_first(t);
            assert forall|k: int| 0 <= k < t.len() implies is_num_char(#[trigger] t[k]) by {
                lemma_num_chars(NumState::Start, t, k);
            }
            lemma_num_end_token(s, i, t);
            assert(s.subrange(i, i + t.len()) == t);
        },
        JsonV::Str(content) => {
            let esc = escape_chars(content);
            assert(ser(v) =~= seq!['"'] + (esc + seq!['"']));
            lemma_occurs_split(s, i, seq!['"'], esc + seq!['"']);
            lemma_rt_str_body(s, i + 1, content, Seq::empty());
            assert(Seq::empty() + content =~= content);
        },
        JsonV::Arr(items) => {
            let body = ser_items(items);
            assert(ser(v) =~= seq!['['] + (body + seq![']']));
            lemma_occurs_split(s, i, seq!['['], body + seq![']']);
            lemma_char_classes();
            if items.len() == 0 {
                assert(body == Seq::<char>::empty());
                lemma_occurs_index(s, i + 1, body + seq![']'], 0);
                assert(s[i + 1] == ']');
                assert(skip_ws(s, i + 1) == i + 1);
            } else {
                lemma_ser_first(items[0]);
                assert(body == ser_items(items));
                assert(body[0] == ser(items[0])[0]) by {
                    if items.len() == 1 {
                    } else {
                        assert(ser_items(items) == ser(items[0]) + seq![','] + ser_items(
                            items.drop_first(),
                        ));
                        assert(ser_items(items)[0] == ser(items[0])[0]);
                    }
                }
                lemma_occurs_index(s, i + 1, body + seq![']'], 0);
                assert(s[i + 1] == ser(items[0])[0]);
                assert(skip_ws(s, i + 1) == i + 1);
                assert(s[i + 1] != ']');
                lemma_rt_elems(s, i + 1, items, Seq::empty());
                assert(Seq::empty() + items =~= items);
            }
        },
        JsonV::Obj(fields) => {
            let body = ser_fields(fields);
            assert(ser(v) =~= seq!['{'] + (body + seq!['}']));
            lemma_occurs_split(s, i, seq!['{'], body + seq!['}']);
            lemma_char_classes();
            if fields.len() == 0 {
                assert(body == Seq::<char>::empty());
                lemma_occurs_index(s, i + 1, body + seq!['}'], 0);
                assert(s[i + 1] == '}');
                assert(skip_ws(s, i + 1) == i + 1);
            } else {
                assert(body[0] == '"') by {
                    if fields.len() == 1 {
                        assert(body == ser_string(fields[0].0) + seq![':'] + ser(fields[0].1));
                        assert(body[0] == ser_string(fields[0].0)[0]);
                    } else {
                        assert(body == ser_string(fields[0].0) + seq![':'] + ser(fields[0].1)
                            + seq![','] + ser_fields(fields.drop_first()));
                        assert(body[0] == ser_string(fields[0].0)[0]);
                    }
                }
                lemma_occurs_index(s, i + 1, body + seq!['}'], 0);
                assert(s[i + 1] == '"');
                assert(skip_ws(s, i + 1) == i + 1);
                assert(s[i + 1] != '}');
                lemma_rt_members(s, i + 1, fields, Seq::empty());
                assert(Seq::empty() + fields =~= fields);
            }
        },
    }
}

/// Parsing array elements over the spelling of one or more items followed
/// by `]` yields the items appended to the accumulator.
#[verifier::rlimit(100)]
pub proof fn lemma_rt_elems(s: Seq<char>, i: int, items: Seq<JsonV>, acc: Seq<JsonV>)
    requires
        items.len() > 0,
        wf_items(items),
        occurs_at(s, i, ser_items(items) + seq![']']),
    ensures
        sp_elems(s, i, acc) == Some((acc + items, i + ser_items(items).len() + 1)),
    decreases items, 1int,
{
    let v = items[0];
    let rest = items.drop_first();
    lemma_char_classes();
    lemma_ser_first(v);
    if items.len() == 1 {
        assert(ser_items(items) == ser(v));
        lemma_occurs_split(s, i, ser(v), seq![']']);
        lemma_occurs_index(s, i + ser(v).len(), seq![']'], 0);
        assert(s[i + ser(v).len()] == ']');
        lemma_rt_value(s, i, v);
        let j = i + ser(v).len();
        assert(skip_ws(s, j) == j);
        assert(acc.push(v) =~= acc + items);
    } else {
        assert(ser_items(items) == ser(v) + seq![','] + ser_items(rest));
        assert((ser(v) + seq![','] + ser_items(rest)) + seq![']'] =~= ser(v) + (seq![',']
            + (ser_items(rest) + seq![']'])));
        lemma_occurs_split(s, i, ser(v), seq![','] + (ser_items(rest) + seq![']']));
        let j = i + ser(v).len();
        lemma_occurs_split(s, j, seq![','], ser_items(rest) + seq![']']);
        lemma_occurs_index(s, j, seq![','], 0);
        assert(s[j] == ',');
        lemma_rt_value(s, i, v);
        assert(skip_ws(s, j) == j);
        lemma_rt_elems(s, j + 1, rest, acc.push(v));
        assert(acc.push(v) + rest =~= acc + items);
        assert(j + 1 + ser_items(rest).len() + 1 == i + ser_items(items).len() + 1);
    }
}

/// Parsing object members over the spelling of one or more fields followed
/// by `}` yields the fields appended to the accumulator.
#[verifier::rlimit(100)]
pub proof fn lemma_rt_members(
    s: Seq<char>,
    i: int,
    fields: Seq<(Seq<char>, JsonV)>,
    acc: Seq<(Seq<char>, JsonV)>,
)
    requires
        fields.len() > 0,
        wf_fields(fields),
        occurs_at(s, i, ser_fields(fields) + seq!['}']),
    ensures
        sp_members(s, i, acc) == Some((acc + fields, i + ser_fields(fields).len() + 1)),
    decreases fields, 1int,
{
    let key = fields[0].0;
    let v = fields[0].1;
    let rest = fields.drop_first();
    lemma_char_classes();
    lemma_ser_first(v);
    let head = ser_string(key) + seq![':'] + ser(v);
    if fields.len() == 1 {
        assert(ser_fields(fields) == head);
        assert(head + seq!['}'] =~= seq!['"'] + ((escape_chars(key) + seq!['"']) + (seq![':']
            + (ser(v) + seq!['}']))));
        lemma_occurs_split(s, i, seq!['"'], (escape_chars(key) + seq!['"']) + (seq![':'] + (ser(v)
            + seq!['}'])));
        lemma_occurs_split(s, i + 1, escape_chars(key) + seq!['"'], seq![':'] + (ser(v)
            + seq!['}']));
        lemma_occurs_index(s, i, seq!['"'], 0);
        assert(s[i] == '"');
        assert(skip_ws(s, i) == i);
        lemma_rt_str_body(s, i + 1, key, Seq::empty());
        assert(Seq::empty() + key =~= key);
        let k = i + 1 + escape_chars(key).len() + 1;
        lemma_occurs_split(s, k, seq![':'], ser(v) + seq!['}']);
        lemma_occurs_index(s, k, seq![':'], 0);
        assert(s[k] == ':');
        assert(skip_ws(s, k) == k);
        lemma_occurs_split(s, k + 1, ser(v), seq!['}']);
        lemma_occurs_index(s, k + 1 + ser(v).len(), seq!['}'], 0);
        assert(s[k + 1 + ser(v).len()] == '}');
        lemma_rt_value(s, k + 1, v);
        let p = k + 1 + ser(v).len();
        assert(skip_ws(s, p) == p);
        assert(acc.push((key, v)) =~= acc + fields);
        assert(p + 1 == i + ser_fields(fields).len() + 1);
    } else {
        assert(ser_fields(fields) == head + seq![','] + ser_fields(rest));
        assert((head + seq![','] + ser_fields(rest)) + seq!['}'] =~= seq!['"'] + ((escape_chars(key)
            + seq!['"']) + (seq![':'] + (ser(v) + (seq![','] + (ser_fields(rest)
            + seq!['}']))))));
        lemma_occurs_split(s, i, seq!['"'], (escape_chars(key) + seq!['"']) + (seq![':'] + (ser(v)
            + (seq![','] + (ser_fields(rest) + seq!['}'])))));
        lemma_occurs_split(s, i + 1, escape_chars(key) + seq!['"'], seq![':'] + (ser(v) + (seq![',']
            + (ser_fields(rest) + seq!['}']))));
        lemma_occurs_index(s, i, seq!['"'], 0);
        assert(s[i] == '"');
        assert(skip_ws(s, i) == i);
        lemma_rt_str_body(s, i + 1, key, Seq::empty());
        assert(Seq::empty() + key =~= key);
        let k = i + 1 + escape_chars(key).len() + 1;
        lemma_occurs_split(s, k, seq![':'], ser(v) + (seq![','] + (ser_fields(rest) + seq!['}'])));
        lemma_occurs_index(s, k, seq![':'], 0);
        assert(s[k] == ':');
        assert(skip_ws(s, k) == k);
        lemma_occurs_split(s, k + 1, ser(v), seq![','] + (ser_fields(rest) + seq!['}']));
        let p = k + 1 + ser(v).len();
        lemma_occurs_split(s, p, seq![','], ser_fields(rest) + seq!['}']);
        lemma_occurs_index(s, p, seq![','], 0);
        assert(s[p] == ',');
        lemma_rt_value(s, k + 1, v);
        assert(skip_ws(s, p) == p);
        lemma_rt_members(s, p + 1, rest, acc.push((key, v)));
        assert(acc.push((key, v)) + rest =~= acc + fields);
        assert(p + 1 + ser_fields(rest).len() + 1 == i + ser_fields(fields).len() + 1);
    }
}

/// Round trip at the level of whole lines: the canonical spelling of a
/// well-formed value, followed by nothing but whitespace, parses back to
/// exactly that value.
pub proof fn lemma_round_trip(v: JsonV, suffix: Seq<char>)
    requires
        wf_json(v),
        forall|k: int| 0 <= k < suffix.len() ==> is_ws(#[trigger] suffix[k]),
    ensures
        sp_json(ser(v) + suffix) == Some(v),
{
    let s = ser(v) + suffix;
    lemma_char_classes();
    assert(occurs_at(s, 0, ser(v))) by {
        assert(s.subrange(0, ser(v).len() as int) =~= ser(v));
    }
    if suffix.len() > 0 {
        assert(s[ser(v).len() as int] == suffix[0]);
        assert(is_ws(suffix[0]));
        assert(!is_num_char(suffix[0])) by {
            assert((' ' as u32) == 32);
            assert(('\t' as u32) == 9);
            assert(('\n' as u32) == 10);
            assert(('\r' as u32) == 13);
        }
    }
    lemma_rt_value(s, 0, v);
    assert forall|k: int| ser(v).len() <= k < s.len() implies is_ws(s[k]) by {
        assert(s[k] == suffix[k - ser(v).len()]);
    }
    lemma_skip_ws_all(s, ser(v).len() as int);
}

pub fn dec_digit_char(d: u8) -> (c: char)
    requires
        d < 10,
    ensures
        c == dec_digit(d as int),
{
    if d == 0 {
        '0'
    } else if d == 1 {
        '1'
    } else if d == 2 {
        '2'
    } else if d == 3 {
        '3'
    } else if d == 4 {
        '4'
    } else if d == 5 {
        '5'
    } else if d == 6 {
        '6'
    } else if d == 7 {
        '7'
    } else if d == 8 {
        '8'
    } else {
        '9'
    }
}

} // verus!
