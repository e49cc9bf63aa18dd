//! The persisted application configuration: one JSON object holding the
//! title, the layout knob, the last opened file and directories, and the
//! view counter. Reading follows the recovery policy: no file gives the
//! defaults; a file that does not parse or has the wrong shape gives the
//! defaults and asks for the corrupt file to be deleted.
//!
//! The transient parts of the state (workspace text, file tree, views) are
//! not persisted: they are reset before every save and restored as
//! defaults.

use vstd::prelude::*;

use crate::app_state::AppState;
use crate::json::Json;
use crate::json::JsonV;
use crate::json::chars_to_string;
use crate::json::dec_str;
use crate::json::push_u64_decimal;
use crate::json::ser;
use crate::json::sp_json;
use crate::json::to_json_string;
use crate::json::view_of_fields;
use crate::message::all_digits;
use crate::message::dec_val;
use crate::message::lookup_field;
use crate::message::obj_lookup;
use crate::message::parse_u64_digits;
use crate::json::parse_json;

verus! {

/// The persisted fields, in the mathematical view.
pub struct ConfigV {
    pub title: Seq<char>,
    pub debug_layout: bool,
    pub current_file: Option<Seq<char>>,
    pub current_dir: Option<Seq<char>>,
    pub last_dir: Option<Seq<char>>,
    pub view_id: u64,
}

pub open spec fn opt_str_json(o: Option<Seq<char>>) -> JsonV {
    match o {
        Some(s) => JsonV::Str(s),
        None => JsonV::Null,
    }
}

pub open spec fn opt_view(o: Option<String>) -> Option<Seq<char>> {
    match o {
        Some(s) => Some(s@),
        None => None,
    }
}

/// The object written to the configuration file for a state.
pub open spec fn config_json_of(s: AppState) -> JsonV {
    JsonV::Obj(
        seq![
            ("title"@, JsonV::Str(s.title@)),
            ("debug_layout"@, JsonV::Bool(s.params.debug_layout)),
            ("current_file"@, opt_str_json(opt_view(s.current_file))),
            ("current_dir"@, opt_str_json(opt_view(s.current_dir))),
            ("last_dir"@, opt_str_json(opt_view(s.last_dir))),
            ("view_id"@, JsonV::Num(dec_str(s.view_id as int))),
        ],
    )
}

pub open spec fn opt_field(v: JsonV) -> Option<Option<Seq<char>>> {
    match v {
        JsonV::Null => Some(None),
        JsonV::Str(s) => Some(Some(s)),
        _ => None,
    }
}

/// What a parsed configuration object means, field by field; `None` when
/// any field is missing or has the wrong shape.
pub open spec fn config_extract(v: JsonV) -> Option<ConfigV> {
    match v {
        JsonV::Obj(fs) => {
            match (
                obj_lookup(fs, "title"@),
                obj_lookup(fs, "debug_layout"@),
                obj_lookup(fs, "current_file"@),
                obj_lookup(fs, "current_dir"@),
                obj_lookup(fs, "last_dir"@),
                obj_lookup(fs, "view_id"@),
            ) {
                (
                    Some(JsonV::Str(title)),
                    Some(JsonV::Bool(dl)),
                    Some(cf),
                    Some(cd),
                    Some(ld),
                    Some(JsonV::Num(t)),
                ) => {
                    match (opt_field(cf), opt_field(cd), opt_field(ld)) {
                        (Some(cfo), Some(cdo), Some(ldo)) => {
                            if all_digits(t) && dec_val(t) <= usize::MAX {
                                Some(
                                    ConfigV {
                                        title,
                                        debug_layout: dl,
                                        current_file: cfo,
                                        current_dir: cdo,
                                        last_dir: ldo,
                                        view_id: dec_val(t) as u64,
                                    },
                                )
                            } else {
                                None
                            }
                        },
                        _ => None,
                    }
                },
                _ => None,
            }
        },
        _ => None,
    }
}

fn opt_str_field(v: &Json) -> (r: Option<Option<String>>)
    ensures
        match r {
            Some(o) => opt_field(v@) == Some(opt_view(o)),
            None => opt_field(v@) is None,
        },
{
    match v {
        Json::Null => Some(None),
        Json::Str(s) => Some(Some(s.clone())),
        _ => None,
    }
}

/// The one-line text saved as the configuration file.
pub fn global_config_string(state: &AppState) -> (r: String)
    ensures
        r@ == ser(config_json_of(*state)),
{
    let mut fields: Vec<(String, Json)> = Vec::new();
    let ghost f0 = fields@;
    fields.push(("title".to_owned(), Json::Str(state.title.clone())));
    let ghost f1 = fields@;
    proof {
        crate::json::lemma_view_of_fields_push(f0, fields@[0].0, fields@[0].1);
    }
    fields.push(("debug_layout".to_owned(), Json::Bool(state.params.debug_layout)));
    let ghost f2 = fields@;
    proof {
        crate::json::lemma_view_of_fields_push(f1, fields@[1].0, fields@[1].1);
    }
    let cf = match &state.current_file {
        Some(s) => Json::Str(s.clone()),
        None => Json::Null,
    };
    fields.push(("current_file".to_owned(), cf));
    let ghost f3 = fields@;
    proof {
        crate::json::lemma_view_of_fields_push(f2, fields@[2].0, fields@[2].1);
    }
    let cd = match &state.current_dir {
        Some(s) => Json::Str(s.clone()),
        None => Json::Null,
    };
    fields.push(("current_dir".to_owned(), cd));
    let ghost f4 = fields@;
    proof {
        crate::json::lemma_view_of_fields_push(f3, fields@[3].0, fields@[3].1);
    }
    let ld = match &state.last_dir {
        Some(s) => Json::Str(s.clone()),
        None => Json::Null,
    };
    fields.push(("last_dir".to_owned(), ld));
    let ghost f5 = fields@;
    proof {
        crate::json::lemma_view_of_fields_push(f4, fields@[4].0, fields@[4].1);
    }
    let mut nv: Vec<char> = Vec::new();
    push_u64_decimal(state.view_id as u64, &mut nv);
    fields.push(("view_id".to_owned(), Json::Num(chars_to_string(&nv))));
    proof {
        crate::json::lemma_view_of_fields_push(f5, fields@[5].0, fields@[5].1);
        assert(view_of_fields(f0) =~= Seq::<(Seq<char>, JsonV)>::empty());
        assert(view_of_fields(fields@) =~= match config_json_of(*state) {
            JsonV::Obj(fs) => fs,
            _ => Seq::empty(),
        });
    }
    let obj = Json::Obj(fields);
    to_json_string(&obj)
}

/// Applies the recovery policy to what was read from the configuration
/// file. `None` (no file) gives the defaults. A line that parses and has
/// the right shape restores the persisted fields over an otherwise default
/// state. Anything else gives the defaults and reports the file as corrupt
/// (the second component: delete it).
pub fn restore_config(contents: Option<String>) -> (r: (AppState, bool))
    ensures
        ({
            match contents {
                None => !r.1 && is_default_restore(r.0),
                Some(text) => match sp_json(text@) {
                    None => r.1 && is_default_restore(r.0),
                    Some(v) => match config_extract(v) {
                        Some(c) => !r.1 && restores(r.0, c),
                        None => r.1 && is_default_restore(r.0),
                    },
                },
            }
        }),
{
    let text = match contents {
        None => {
            return (Default::default(), false);
        },
        Some(t) => t,
    };
    let parsed = match parse_json(text.as_str()) {
        None => {
            return (Default::default(), true);
        },
        Some(v) => v,
    };
    let fields = match parsed {
        Json::Obj(fs) => fs,
        _ => {
            return (Default::default(), true);
        },
    };
    let title = match lookup_field(&fields, "title") {
        Some(Json::Str(s)) => s.clone(),
        _ => {
            return (Default::default(), true);
        },
    };
    let debug_layout = match lookup_field(&fields, "debug_layout") {
        Some(Json::Bool(b)) => *b,
        _ => {
            return (Default::default(), true);
        },
    };
    let current_file = match lookup_field(&fields, "current_file") {
        Some(v) => match opt_str_field(v) {
            Some(o) => o,
            None => {
                return (Default::default(), true);
            },
        },
        None => {
            return (Default::default(), true);
        },
    };
    let current_dir = match lookup_field(&fields, "current_dir") {
        Some(v) => match opt_str_field(v) {
            Some(o) => o,
            None => {
                return (Default::default(), true);
            },
        },
        None => {
            return (Default::default(), true);
        },
    };
    let last_dir = match lookup_field(&fields, "last_dir") {
        Some(v) => match opt_str_field(v) {
            Some(o) => o,
            None => {
                return (Default::default(), true);
            },
        },
        None => {
            return (Default::default(), true);
        },
    };
    let view_id_u64 = match lookup_field(&fields, "view_id") {
        Some(Json::Num(t)) => match parse_u64_digits(t.as_str()) {
            Some(n) => n,
            None => {
                return (Default::default(), true);
            },
        },
        _ => {
            return (Default::default(), true);
        },
    };
    if view_id_u64 > usize::MAX as u64 {
        return (Default::default(), true);
    }
    let mut state: AppState = Default::default();
    state.title = title;
    state.params.debug_layout = debug_layout;
    state.current_file = current_file;
    state.current_dir = current_dir;
    state.last_dir = last_dir;
    state.view_id = view_id_u64 as usize;
    (state, false)
}

/// Law: the configuration file round-trips. The saved line for any state
/// parses back to the saved object, and extracting that object recovers
/// exactly the persisted fields. Together with `restore_config`'s
/// contract: reading back what was saved restores the state's persisted
/// fields over an otherwise default state.
#[verifier::rlimit(100)]
pub proof fn lemma_config_round_trip(s: AppState)
    ensures
        sp_json(ser(config_json_of(s))) == Some(config_json_of(s)),
        config_extract(config_json_of(s)) == Some(
            ConfigV {
                title: s.title@,
                debug_layout: s.params.debug_layout,
                current_file: opt_view(s.current_file),
                current_dir: opt_view(s.current_dir),
                last_dir: opt_view(s.last_dir),
                view_id: s.view_id as u64,
            },
        ),
{
    let idt = dec_str(s.view_id as int);
    let fs = seq![
        ("title"@, JsonV::Str(s.title@)),
        ("debug_layout"@, JsonV::Bool(s.params.debug_layout)),
        ("current_file"@, opt_str_json(opt_view(s.current_file))),
        ("current_dir"@, opt_str_json(opt_view(s.current_dir))),
        ("last_dir"@, opt_str_json(opt_view(s.last_dir))),
        ("view_id"@, JsonV::Num(idt)),
    ];
    let cj = config_json_of(s);
    assert(cj == JsonV::Obj(fs));
    let fs1 = fs.drop_first();
    let fs2 = fs1.drop_first();
    let fs3 = fs2.drop_first();
    let fs4 = fs3.drop_first();
    let fs5 = fs4.drop_first();
    assert(fs1 =~= fs.subrange(1, 6));
    assert(fs2 =~= fs.subrange(2, 6));
    assert(fs3 =~= fs.subrange(3, 6));
    assert(fs4 =~= fs.subrange(4, 6));
    assert(fs5 =~= fs.subrange(5, 6));
    assert(fs5.drop_first() =~= Seq::<(Seq<char>, JsonV)>::empty());
    crate::json::lemma_dec_str_valid(s.view_id as int);
    assert(wf_json_of_opt(opt_view(s.current_file)));
    assert(wf_json_of_opt(opt_view(s.current_dir)));
    assert(wf_json_of_opt(opt_view(s.last_dir)));
    assert(crate::json::wf_fields(fs)) by {
        assert(crate::json::wf_fields(fs5.drop_first()));
        assert(crate::json::wf_json(fs5[0].1));
        assert(crate::json::wf_fields(fs5));
        assert(crate::json::wf_json(fs4[0].1));
        assert(crate::json::wf_fields(fs4));
        assert(crate::json::wf_json(fs3[0].1));
        assert(crate::json::wf_fields(fs3));
        assert(crate::json::wf_json(fs2[0].1));
        assert(crate::json::wf_fields(fs2));
        assert(crate::json::wf_json(fs1[0].1));
        assert(crate::json::wf_fields(fs1));
        assert(crate::json::wf_json(fs[0].1));
    }
    assert(crate::json::wf_json(cj));
    crate::json::lemma_round_trip(cj, Seq::empty());
    assert(ser(cj) + Seq::<char>::empty() =~= ser(cj));
    proof_config_keys_distinct();
    assert(obj_lookup(fs, "title"@) == Some(JsonV::Str(s.title@)));
    assert(obj_lookup(fs, "debug_layout"@) == Some(JsonV::Bool(s.params.debug_layout))) by {
        assert(obj_lookup(fs1, "debug_layout"@) == Some(fs1[0].1));
    }
    assert(obj_lookup(fs, "current_file"@) == Some(opt_str_json(opt_view(s.current_file)))) by {
        assert(obj_lookup(fs2, "current_file"@) == Some(fs2[0].1));
        assert(obj_lookup(fs1, "current_file"@) == Some(fs2[0].1));
    }
    assert(obj_lookup(fs, "current_dir"@) == Some(opt_str_json(opt_view(s.current_dir)))) by {
        assert(obj_lookup(fs3, "current_dir"@) == Some(fs3[0].1));
        assert(obj_lookup(fs2, "current_dir"@) == Some(fs3[0].1));
        assert(obj_lookup(fs1, "current_dir"@) == Some(fs3[0].1));
    }
    assert(obj_lookup(fs, "last_dir"@) == Some(opt_str_json(opt_view(s.last_dir)))) by {
        assert(obj_lookup(fs4, "last_dir"@) == Some(fs4[0].1));
        assert(obj_lookup(fs3, "last_dir"@) == Some(fs4[0].1));
        assert(obj_lookup(fs2, "last_dir"@) == Some(fs4[0].1));
        assert(obj_lookup(fs1, "last_dir"@) == Some(fs4[0].1));
    }
    assert(obj_lookup(fs, "view_id"@) == Some(JsonV::Num(idt))) by {
        assert(obj_lookup(fs5, "view_id"@) == Some(fs5[0].1));
        assert(obj_lookup(fs4, "view_id"@) == Some(fs5[0].1));
        assert(obj_lookup(fs3, "view_id"@) == Some(fs5[0].1));
        assert(obj_lookup(fs2, "view_id"@) == Some(fs5[0].1));
        assert(obj_lookup(fs1, "view_id"@) == Some(fs5[0].1));
    }
    crate::message::lemma_dec_val_dec_str(s.view_id as int);
    assert(all_digits(idt)) by {
        crate::json::lemma_dec_str_digits(s.view_id as int);
    }
    assert(opt_field(opt_str_json(opt_view(s.current_file))) == Some(opt_view(s.current_file)));
    assert(opt_field(opt_str_json(opt_view(s.current_dir))) == Some(opt_view(s.current_dir)));
    assert(opt_field(opt_str_json(opt_view(s.last_dir))) == Some(opt_view(s.last_dir)));
}

/// A null-or-string field is always well formed.
pub open spec fn wf_json_of_opt(o: Option<Seq<char>>) -> bool {
    crate::json::wf_json(opt_str_json(o))
}

proof fn proof_config_keys_distinct()
    ensures
        "title"@ != "debug_layout"@,
        "title"@ != "current_file"@,
        "title"@ != "current_dir"@,
        "title"@ != "last_dir"@,
        "title"@ != "view_id"@,
        "debug_layout"@ != "current_file"@,
        "debug_layout"@ != "current_dir"@,
        "debug_layout"@ != "last_dir"@,
        "debug_layout"@ != "view_id"@,
        "current_file"@ != "current_dir"@,
        "current_file"@ != "last_dir"@,
        "current_file"@ != "view_id"@,
        "current_dir"@ != "last_dir"@,
        "current_dir"@ != "view_id"@,
        "last_dir"@ != "view_id"@,
{
    reveal_strlit("title");
    reveal_strlit("debug_layout");
    reveal_strlit("current_file");
    reveal_strlit("current_dir");
    reveal_strlit("last_dir");
    reveal_strlit("view_id");
    assert("title"@.len() == 5);
    assert("debug_layout"@.len() == 12);
    assert("current_file"@.len() == 12);
    assert("current_dir"@.len() == 11);
    assert("last_dir"@.len() == 8);
    assert("view_id"@.len() == 7);
    assert("debug_layout"@[0] == 'd');
    assert("current_file"@[0] == 'c');
}

/// The non-persisted parts of a restored state are the defaults.
pub open spec fn default_transients(s: AppState) -> bool {
    s.workspace.project@.len() == 0 && s.workspace.origin_text@.len() == 0
        && s.workspace.input_text@.len() == 0 && s.workspace.char_count == 0
        && s.workspace.dir@.len() == 0 && s.entry.name@.len() == 0 && s.entry.children@.len() == 0
        && s.view.focused is None && s.view.views@.len() == 0
}

/// A wholly default state, as the recovery policy yields it.
pub open spec fn is_default_restore(s: AppState) -> bool {
    default_transients(s) && s.title@.len() == 0 && !s.params.debug_layout && s.current_file is None
        && s.current_dir is None && s.last_dir is None && s.view_id == 0
}

/// A state restored from the persisted fields `c`.
pub open spec fn restores(s: AppState, c: ConfigV) -> bool {
    default_transients(s) && s.title@ == c.title && s.params.debug_layout == c.debug_layout
        && opt_view(s.current_file) == c.current_file && opt_view(s.current_dir) == c.current_dir
        && opt_view(s.last_dir) == c.last_dir && s.view_id == c.view_id
}

} // verus!
