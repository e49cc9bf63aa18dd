//! Application-side state around the client: the workspace, the view
//! registry, and the operation dispatcher that answers certain inbound
//! notifications with outbound ones.

use vstd::prelude::*;

use crate::client::RpcOperations;
use crate::file_tree::FileEntry;
use crate::file_tree::name_of;
use crate::json::Json;
use crate::json::JsonV;
use crate::json::chars_to_string;
use crate::json::push_str_chars;
use crate::json::view_of_fields;
use crate::message::Notification;
use crate::message::str_eq;

verus! {

/// Per-view bookkeeping.
pub struct ViewState {
    pub id: usize,
    pub filename: Option<String>,
}

/// The views the engine has opened for us, and which one has focus.
pub struct ViewCore {
    pub focused: Option<String>,
    pub views: Vec<(String, ViewState)>,
}

impl ViewCore {
    /// View ids are registered at most once.
    pub open spec fn wf(&self) -> bool {
        forall|i: int, j: int|
            0 <= i < j < self.views@.len() ==> (#[trigger] self.views@[i]).0@ != (
            #[trigger] self.views@[j]).0@
    }

    pub open spec fn has_view(&self, name: Seq<char>) -> bool {
        exists|i: int| 0 <= i < self.views@.len() && (#[trigger] self.views@[i]).0@ == name
    }

    /// Focuses `view_id` and records it, replacing an entry of the same id.
    /// Every entry with a different id keeps its place and its state;
    /// uniqueness of ids is kept (given it held before).
    pub fn register_view(&mut self, view_id: String, filename: Option<String>)
        ensures
            old(self).wf() ==> final(self).wf(),
            final(self).focused matches Some(f) && f@ == view_id@,
            final(self).has_view(view_id@),
            final(self).views@.len() <= old(self).views@.len() + 1,
            forall|k: int|
                0 <= k < old(self).views@.len() && (#[trigger] old(self).views@[k]).0@ != view_id@
                    ==> final(self).views@[k] == old(self).views@[k],
    {
        let st = ViewState { id: 0, filename };
        let mut i: usize = 0;
        let n = self.views.len();
        while i < n
            invariant
                n == self.views.len(),
                i <= n,
                self == old(self),
                forall|k: int| 0 <= k < i ==> (#[trigger] self.views@[k]).0@ != view_id@,
            decreases n - i,
        {
            if str_eq(self.views[i].0.as_str(), view_id.as_str()) {
                let ghost before = self.views@;
                self.views.set(i, (view_id.clone(), st));
                self.focused = Some(view_id);
                proof {
                    let nv = self.views@;
                    assert(nv[i as int].0@ == before[i as int].0@);
                    if old(self).wf() {
                        assert forall|a: int, b: int| 0 <= a < b < nv.len() implies (
                        #[trigger] nv[a]).0@ != (#[trigger] nv[b]).0@ by {
                            assert(before[a].0@ != before[b].0@);
                            assert(nv[a].0@ == before[a].0@);
                            assert(nv[b].0@ == before[b].0@);
                        }
                    }
                    assert(self.has_view(view_id@));
                }
                return ;
            }
            i = i + 1;
        }
        let ghost before = self.views@;
        self.views.push((view_id.clone(), st));
        self.focused = Some(view_id);
        proof {
            let nv = self.views@;
            assert(nv[before.len() as int].0@ == view_id@);
            if old(self).wf() {
                assert forall|a: int, b: int| 0 <= a < b < nv.len() implies (#[trigger] nv[a]).0@
                    != (#[trigger] nv[b]).0@ by {
                    if b < before.len() {
                        assert(before[a].0@ != before[b].0@);
                    } else {
                        assert(nv[b].0@ == view_id@);
                        assert(nv[a] == before[a]);
                    }
                }
            }
            assert(self.has_view(view_id@));
        }
    }

    /// Applies the engine's answer to a `new_view` request: a string result
    /// names the new view, which gains focus, every other view staying as
    /// it was; a null or error result changes nothing.
    pub fn apply_new_view_result(&mut self, res: Result<Json, Json>, filename: String)
        ensures
            old(self).wf() ==> final(self).wf(),
            match res {
                Ok(v) => match v {
                    Json::Str(id) => final(self).focused matches Some(f) && f@ == id@
                        && final(self).has_view(id@) && final(self).views@.len() <= old(
                        self,
                    ).views@.len() + 1 && forall|k: int|
                        0 <= k < old(self).views@.len() && (#[trigger] old(self).views@[k]).0@
                            != id@ ==> final(self).views@[k] == old(self).views@[k],
                    _ => *final(self) == *old(self),
                },
                Err(e) => *final(self) == *old(self),
            },
    {
        match res {
            Ok(v) => match v {
                Json::Str(id) => self.register_view(id, Some(filename)),
                _ => (),
            },
            Err(e) => (),
        }
    }
}

impl Default for ViewCore {
    /// No views, nothing focused.
    fn default() -> (r: ViewCore)
        ensures
            r.focused is None,
            r.views@.len() == 0,
            r.wf(),
    {
        ViewCore { focused: None, views: Vec::new() }
    }
}

/// Knobs of the running application.
pub struct Params {
    pub debug_layout: bool,
}

impl Default for Params {
    fn default() -> (r: Params)
        ensures
            !r.debug_layout,
    {
        Params { debug_layout: false }
    }
}

/// A path rendered as a breadcrumb: each separator becomes ` > `.
pub open spec fn breadcrumb(s: Seq<char>) -> Seq<char>
    decreases s,
{
    if s.len() == 0 {
        Seq::empty()
    } else {
        (if s[0] == '/' {
            seq![' ', '>', ' ']
        } else {
            seq![s[0]]
        }) + breadcrumb(s.drop_first())
    }
}

proof fn lemma_breadcrumb_take(s: Seq<char>, i: int)
    requires
        0 <= i < s.len(),
    ensures
        breadcrumb(s.take(i + 1)) == breadcrumb(s.take(i)) + (if s[i] == '/' {
            seq![' ', '>', ' ']
        } else {
            seq![s[i]]
        }),
    decreases i,
{
    let piece = if s[i] == '/' {
        seq![' ', '>', ' ']
    } else {
        seq![s[i]]
    };
    if i == 0 {
        assert(s.take(1)[0] == s[0]);
        assert(s.take(1).drop_first() =~= Seq::<char>::empty());
        assert(s.take(0) =~= Seq::<char>::empty());
        assert(breadcrumb(Seq::<char>::empty()) == Seq::<char>::empty());
        assert(breadcrumb(s.take(1)) =~= breadcrumb(s.take(0)) + piece);
    } else {
        let t = s.drop_first();
        lemma_breadcrumb_take(t, i - 1);
        let head = if s[0] == '/' {
            seq![' ', '>', ' ']
        } else {
            seq![s[0]]
        };
        assert(s.take(i + 1)[0] == s[0]);
        assert(s.take(i)[0] == s[0]);
        assert(s.take(i + 1).drop_first() =~= t.take(i));
        assert(s.take(i).drop_first() =~= t.take(i - 1));
        assert(t[i - 1] == s[i]);
        assert(breadcrumb(s.take(i + 1)) == head + breadcrumb(t.take(i)));
        assert(breadcrumb(s.take(i)) == head + breadcrumb(t.take(i - 1)));
        assert(head + (breadcrumb(t.take(i - 1)) + piece) =~= (head + breadcrumb(t.take(i - 1)))
            + piece);
    }
}

/// Whether `dir` is a path prefix of `file` at a component boundary.
pub open spec fn is_path_prefix(dir: Seq<char>, file: Seq<char>) -> bool {
    dir.len() <= file.len() && file.subrange(0, dir.len() as int) == dir && (dir.len() == file.len()
        || file[dir.len() as int] == '/')
}

/// The navigation-bar text: the project name, then the current file's path
/// relative to the workspace directory, one ` > ` per component; just the
/// project name when the file is not under the directory or is the
/// directory itself.
pub open spec fn relative_path_spec(project: Seq<char>, dir: Seq<char>, file: Seq<char>) -> Seq<
    char,
> {
    if is_path_prefix(dir, file) && dir.len() + 1 < file.len() {
        project + seq![' ', '>', ' '] + breadcrumb(file.skip(dir.len() + 1int))
    } else {
        project
    }
}

/// The open project: its name, directory, and the text being edited.
pub struct Workspace {
    pub project: String,
    pub origin_text: String,
    pub input_text: String,
    pub char_count: usize,
    pub dir: String,
    pub current_file: String,
}

impl Workspace {
    /// Whether saving would change anything: the edited text differs from
    /// what was loaded.
    pub fn needs_save(&self) -> (r: bool)
        ensures
            r == (self.input_text@ != self.origin_text@),
    {
        !str_eq(self.input_text.as_str(), self.origin_text.as_str())
    }

    /// The breadcrumb shown in the navigation bar.
    pub fn relative_path(&self) -> (r: String)
        ensures
            r@ == relative_path_spec(self.project@, self.dir@, self.current_file@),
    {
        let mut dirc: Vec<char> = Vec::new();
        push_str_chars(self.dir.as_str(), &mut dirc);
        let mut filec: Vec<char> = Vec::new();
        push_str_chars(self.current_file.as_str(), &mut filec);
        let nd = dirc.len();
        let nf = filec.len();
        let mut prefix = nd <= nf;
        let mut i: usize = 0;
        while i < nd && prefix
            invariant
                nd == dirc.len(),
                nf == filec.len(),
                i <= nd,
                prefix ==> nd <= nf && forall|k: int| 0 <= k < i ==> filec@[k] == dirc@[k],
                !prefix ==> !is_path_prefix(dirc@, filec@),
            decreases nd - i,
        {
            if filec[i] != dirc[i] {
                proof {
                    assert(filec@.subrange(0, nd as int)[i as int] == filec@[i as int]);
                }
                prefix = false;
            }
            i = i + 1;
        }
        proof {
            if prefix {
                assert(filec@.subrange(0, nd as int) =~= dirc@);
            }
        }
        let boundary = prefix && (nd == nf || filec[nd] == '/');
        if !(boundary && nf - nd > 1) {
            proof {
                assert(!(is_path_prefix(dirc@, filec@) && dirc@.len() + 1 < filec@.len()));
            }
            return self.project.clone();
        }
        let mut out: Vec<char> = Vec::new();
        push_str_chars(self.project.as_str(), &mut out);
        out.push(' ');
        out.push('>');
        out.push(' ');
        let rest_start = nd + 1;
        let ghost rest = filec@.skip(rest_start as int);
        let mut j = rest_start;
        proof {
            assert(rest.take(0) =~= Seq::<char>::empty());
            assert(breadcrumb(rest.take(0)) == Seq::<char>::empty());
        }
        while j < nf
            invariant
                rest_start <= j <= nf,
                nf == filec.len(),
                rest == filec@.skip(rest_start as int),
                out@ == self.project@ + seq![' ', '>', ' '] + breadcrumb(
                    rest.take(j - rest_start),
                ),
            decreases nf - j,
        {
            let c = filec[j];
            if c == '/' {
                out.push(' ');
                out.push('>');
                out.push(' ');
            } else {
                out.push(c);
            }
            proof {
                assert(rest[j - rest_start] == filec@[j as int]);
                lemma_breadcrumb_take(rest, j - rest_start);
                assert(out@ =~= self.project@ + seq![' ', '>', ' '] + breadcrumb(
                    rest.take(j + 1 - rest_start),
                ));
            }
            j = j + 1;
        }
        proof {
            assert(rest.take(nf - rest_start) =~= rest);
        }
        chars_to_string(&out)
    }

}

impl Default for Workspace {
    /// Everything empty.
    fn default() -> (r: Workspace)
        ensures
            r.project@.len() == 0,
            r.origin_text@.len() == 0,
            r.input_text@.len() == 0,
            r.char_count == 0,
            r.dir@.len() == 0,
            r.current_file@.len() == 0,
    {
        Workspace {
            project: String::new(),
            origin_text: String::new(),
            input_text: String::new(),
            char_count: 0,
            dir: String::new(),
            current_file: String::new(),
        }
    }
}

/// The plain-text editor's model: the text it shows.
pub struct Editor {
    pub input_value: String,
}

impl Editor {
    /// Refreshes the widget; the model itself is untouched.
    pub fn render(&mut self)
        ensures
            *final(self) == *old(self),
    {
    }
}

impl Default for Editor {
    /// An empty editor.
    fn default() -> (r: Editor)
        ensures
            r.input_value@.len() == 0,
    {
        Editor { input_value: String::new() }
    }
}

/// Params of the `set_theme` notification the dispatcher answers with.
pub open spec fn set_theme_params() -> JsonV {
    JsonV::Obj(seq![("theme_name"@, JsonV::Str("InspiredGitHub"@))])
}

/// Params of the `set_language` notification the dispatcher answers with.
pub open spec fn set_language_params(view_id: Seq<char>) -> JsonV {
    JsonV::Obj(
        seq![("view_id"@, JsonV::Str(view_id)), ("language_id"@, JsonV::Str("Markdown"@))],
    )
}

/// The application state around one client.
pub struct AppState {
    pub title: String,
    pub workspace: Workspace,
    pub params: Params,
    pub entry: FileEntry,
    pub view: ViewCore,
    pub current_file: Option<String>,
    pub current_dir: Option<String>,
    pub last_dir: Option<String>,
    pub view_id: usize,
}

impl Default for AppState {
    /// Empty title and workspace, no entry, no views, nothing open.
    fn default() -> (r: AppState)
        ensures
            r.title@.len() == 0,
            r.workspace.project@.len() == 0,
            r.workspace.origin_text@.len() == 0,
            r.workspace.input_text@.len() == 0,
            r.workspace.char_count == 0,
            r.workspace.dir@.len() == 0,
            r.workspace.current_file@.len() == 0,
            !r.params.debug_layout,
            r.entry.name@.len() == 0,
            r.entry.ext@.len() == 0,
            !r.entry.is_dir,
            r.entry.path@.len() == 0,
            r.entry.children@.len() == 0,
            r.view.focused is None,
            r.view.views@.len() == 0,
            r.view.wf(),
            r.current_file is None,
            r.current_dir is None,
            r.last_dir is None,
            r.view_id == 0,
    {
        AppState {
            title: String::new(),
            workspace: Default::default(),
            params: Default::default(),
            entry: Default::default(),
            view: Default::default(),
            current_file: None,
            current_dir: None,
            last_dir: None,
            view_id: 0,
        }
    }
}

impl AppState {
    /// The text being edited.
    pub fn text(&mut self) -> (r: String)
        ensures
            *final(self) == *old(self),
            r@ == old(self).workspace.input_text@,
    {
        self.workspace.input_text.clone()
    }

    /// Records an opened file: its content becomes the edited text and the
    /// path becomes the current file, in the workspace and at top level.
    pub fn apply_opened_file(&mut self, path: String, content: String)
        ensures
            final(self).workspace.input_text@ == content@,
            final(self).workspace.current_file@ == path@,
            final(self).current_file matches Some(p) && p@ == path@,
            final(self).workspace.project == old(self).workspace.project,
            final(self).workspace.origin_text == old(self).workspace.origin_text,
            final(self).workspace.char_count == old(self).workspace.char_count,
            final(self).workspace.dir == old(self).workspace.dir,
            final(self).title == old(self).title,
            final(self).params == old(self).params,
            final(self).view == old(self).view,
            final(self).current_dir == old(self).current_dir,
            final(self).last_dir == old(self).last_dir,
            final(self).view_id == old(self).view_id,
    {
        self.workspace.input_text = content;
        self.workspace.current_file = path.clone();
        self.current_file = Some(path);
    }

    /// Switches the open directory: the project takes the directory's
    /// name, the directory rotates into `current_dir`, and the one before
    /// it into `last_dir`. Rebuilding the tree of entries is the caller's
    /// business (it takes a directory walk).
    pub fn set_dir(&mut self, path: Option<String>)
        ensures
            match path {
                Some(d) => final(self).workspace.project@ == name_of(d@)
                    && final(self).workspace.dir@ == d@,
                None => final(self).workspace == old(self).workspace,
            },
            final(self).last_dir == old(self).current_dir,
            final(self).current_dir == path,
            final(self).title == old(self).title,
            final(self).params == old(self).params,
            final(self).view == old(self).view,
            final(self).current_file == old(self).current_file,
            final(self).view_id == old(self).view_id,
            final(self).workspace.origin_text == old(self).workspace.origin_text,
            final(self).workspace.input_text == old(self).workspace.input_text,
            final(self).workspace.char_count == old(self).workspace.char_count,
            final(self).workspace.current_file == old(self).workspace.current_file,
    {
        match &path {
            Some(d) => {
                let name = crate::file_tree::path_name(d.as_str());
                self.workspace.project = name;
                self.workspace.dir = d.clone();
            },
            None => {},
        }
        self.last_dir = match &self.current_dir {
            Some(s) => Some(s.clone()),
            None => None,
        };
        proof {
            assert(self.last_dir == old(self).current_dir);
        }
        self.current_dir = path;
    }

    /// The dispatcher's feedback rule: an `available_themes` notification
    /// is answered with `set_theme` naming the fixed default theme, and an
    /// `available_languages` notification with `set_language` naming the
    /// fixed default language for the focused view, when one is tracked.
    /// Every other operation asks for no outbound notification.
    pub fn handle_event(&mut self, op: &RpcOperations) -> (r: Vec<Notification>)
        ensures
            *final(self) == *old(self),
            match op {
                RpcOperations::AvailableThemes(t) => r@.len() == 1 && r@[0].method@
                    == "set_theme"@ && r@[0].params@ == set_theme_params(),
                RpcOperations::AvailableLanguages(l) => match old(self).view.focused {
                    Some(f) => r@.len() == 1 && r@[0].method@ == "set_language"@ && r@[0].params@
                        == set_language_params(f@),
                    None => r@.len() == 0,
                },
                _ => r@.len() == 0,
            },
    {
        match op {
            RpcOperations::AvailableThemes(t) => {
                let mut fields: Vec<(String, Json)> = Vec::new();
                let ghost f0 = fields@;
                fields.push(("theme_name".to_owned(), Json::Str("InspiredGitHub".to_owned())));
                proof {
                    crate::json::lemma_view_of_fields_push(
                        f0,
                        fields@[0].0,
                        fields@[0].1,
                    );
                    assert(view_of_fields(f0) =~= Seq::<(Seq<char>, JsonV)>::empty());
                    assert(view_of_fields(fields@) =~= seq![
                        ("theme_name"@, JsonV::Str("InspiredGitHub"@)),
                    ]);
                }
                let note = Notification {
                    method: "set_theme".to_owned(),
                    params: Json::Obj(fields),
                };
                let mut out: Vec<Notification> = Vec::new();
                out.push(note);
                out
            },
            RpcOperations::AvailableLanguages(l) => {
                match &self.view.focused {
                    Some(f) => {
                        let mut fields: Vec<(String, Json)> = Vec::new();
                        let ghost f0 = fields@;
                        fields.push(("view_id".to_owned(), Json::Str(f.clone())));
                        let ghost f1 = fields@;
                        proof {
                            crate::json::lemma_view_of_fields_push(f0, fields@[0].0, fields@[0].1);
                        }
                        fields.push(("language_id".to_owned(), Json::Str("Markdown".to_owned())));
                        proof {
                            crate::json::lemma_view_of_fields_push(f1, fields@[1].0, fields@[1].1);
                            assert(view_of_fields(f0) =~= Seq::<(Seq<char>, JsonV)>::empty());
                            assert(view_of_fields(fields@) =~= seq![
                                ("view_id"@, JsonV::Str(f@)),
                                ("language_id"@, JsonV::Str("Markdown"@)),
                            ]);
                        }
                        let note = Notification {
                            method: "set_language".to_owned(),
                            params: Json::Obj(fields),
                        };
                        let mut out: Vec<Notification> = Vec::new();
                        out.push(note);
                        out
                    },
                    None => Vec::new(),
                }
            },
            _ => Vec::new(),
        }
    }
}

} // verus!
