//! The word counter behind the status bar.
//!
//! A text is split into lines; each nonblank line is trimmed, cleaned by
//! three regular-expression rewrites (noise stripping, space collapsing,
//! link shortening), and its Unicode words are counted. The regular
//! expressions and the word segmentation are the outside engines' work,
//! named here as functions of their inputs; everything around them is
//! proved.

use vstd::prelude::*;

use crate::file_tree::copy_char_range;
use crate::json::chars_to_string;
use crate::json::is_ws;
use crate::json::push_str_chars;
use crate::json::skip_ws;
use crate::json::x_is_ws;
use crate::json::x_skip_ws;

verus! {

#[verifier::external_type_specification]
#[verifier::external_body]
pub struct ExRegex(regex::Regex);

/// Whether a pattern compiles (deterministic in the pattern alone).
pub uninterp spec fn regex_valid(pat: Seq<char>) -> bool;

/// The pattern a compiled regex was built from.
pub uninterp spec fn regex_pattern(re: regex::Regex) -> Seq<char>;

/// What replacing every match of a pattern in a text with a fixed
/// replacement yields (deterministic in the three inputs alone).
pub uninterp spec fn regex_replaced(pat: Seq<char>, text: Seq<char>, rep: Seq<char>) -> Seq<char>;

/// The Unicode words of a text, in order (deterministic in the text
/// alone).
pub uninterp spec fn unicode_words_of(text: Seq<char>) -> Seq<Seq<char>>;

/// Relies on `regex::Regex::new`: succeeds exactly when the pattern is
/// valid, and the compiled regex keeps its pattern (`Regex::as_str`).
#[verifier::external_body]
fn regex_new(pat: &str) -> (r: Option<regex::Regex>)
    ensures
        r is Some <==> regex_valid(pat@),
        r matches Some(re) ==> regex_pattern(re) == pat@,
{
    regex::Regex::new(pat).ok()
}

/// Relies on `regex::Regex::replace_all` with a plain string replacement:
/// the result is a function of the pattern, the text and the replacement.
#[verifier::external_body]
fn regex_replace_all(re: &regex::Regex, text: &str, rep: &str) -> (r: String)
    ensures
        r@ == regex_replaced(regex_pattern(*re), text@, rep@),
{
    re.replace_all(text, rep).into_owned()
}

/// Relies on `UnicodeSegmentation::unicode_words`: the words of the text,
/// in order, a function of the text alone.
#[verifier::external_body]
fn unicode_words(text: &str) -> (r: Vec<String>)
    ensures
        r@.len() == unicode_words_of(text@).len(),
        forall|k: int| 0 <= k < r@.len() ==> (#[trigger] r@[k])@ == unicode_words_of(text@)[k],
{
    unicode_segmentation::UnicodeSegmentation::unicode_words(text).map(|w| w.to_string()).collect()
}

/// The three cleaning patterns, exactly as the counter compiles them.
pub open spec fn ws_pat() -> Seq<char> {
    "(?x)\n      (< ([^>]+)<)\n      -\n      ^\\s\\s*\n      -\n      \\s\\s*$\n      "@
}

pub open spec fn spaces_pat() -> Seq<char> {
    "\\s+"@
}

pub open spec fn link_pat() -> Seq<char> {
    "\\]\\((.*?)\\)"@
}

/// First index at or after `i` holding a newline (the end of the line).
pub open spec fn line_end(s: Seq<char>, i: int) -> int
    decreases s.len() - i,
{
    if 0 <= i < s.len() && s[i] != '\n' {
        line_end(s, i + 1)
    } else {
        i
    }
}

pub proof fn lemma_line_end_bounds(s: Seq<char>, i: int)
    requires
        0 <= i <= s.len(),
    ensures
        i <= line_end(s, i) <= s.len(),
    decreases s.len() - i,
{
    if i < s.len() && s[i] != '\n' {
        lemma_line_end_bounds(s, i + 1);
    }
}

/// Start of the whitespace-only suffix of `s`.
pub open spec fn ws_suffix_start(s: Seq<char>) -> int
    decreases s,
{
    if s.len() > 0 && is_ws(s.last()) {
        ws_suffix_start(s.drop_last())
    } else {
        s.len() as int
    }
}

pub proof fn lemma_ws_suffix(s: Seq<char>)
    ensures
        0 <= ws_suffix_start(s) <= s.len(),
        forall|k: int| ws_suffix_start(s) <= k < s.len() ==> is_ws(#[trigger] s[k]),
        ws_suffix_start(s) > 0 ==> !is_ws(s[ws_suffix_start(s) - 1]),
    decreases s,
{
    if s.len() > 0 && is_ws(s.last()) {
        lemma_ws_suffix(s.drop_last());
        assert forall|k: int| ws_suffix_start(s) <= k < s.len() implies is_ws(#[trigger] s[k]) by {
            if k < s.len() - 1 {
                assert(s.drop_last()[k] == s[k]);
            }
        }
    }
}

/// The line without leading and trailing whitespace.
pub open spec fn trim_spec(s: Seq<char>) -> Seq<char> {
    if skip_ws(s, 0) < ws_suffix_start(s) {
        s.subrange(skip_ws(s, 0), ws_suffix_start(s))
    } else {
        Seq::empty()
    }
}

/// One trimmed line after the three rewrites.
pub open spec fn clean_line(l: Seq<char>) -> Seq<char> {
    regex_replaced(
        link_pat(),
        regex_replaced(spaces_pat(), regex_replaced(ws_pat(), trim_spec(l), ""@), " "@),
        "]"@,
    )
}

/// How many words one line contributes: none when blank, else the Unicode
/// words of its cleaned text.
pub open spec fn line_words(l: Seq<char>) -> int {
    if trim_spec(l).len() == 0 {
        0
    } else {
        unicode_words_of(clean_line(l)).len() as int
    }
}

/// The word count of the whole text from position `i` on, one line at a
/// time.
pub open spec fn count_from(s: Seq<char>, i: int) -> int
    decreases s.len() - i,
{
    if !(0 <= i <= s.len()) {
        0
    } else {
        let j = line_end(s, i);
        let c = line_words(s.subrange(i, j));
        if i <= j < s.len() {
            c + count_from(s, j + 1)
        } else {
            c
        }
    }
}

pub open spec fn spec_count_text(s: Seq<char>) -> int {
    count_from(s, 0)
}

/// Capped at the machine word.
pub open spec fn sat_cap(x: int) -> int {
    if x > usize::MAX {
        usize::MAX as int
    } else {
        x
    }
}

proof fn lemma_count_from_nonneg(s: Seq<char>, i: int)
    ensures
        count_from(s, i) >= 0,
    decreases s.len() - i,
{
    if 0 <= i <= s.len() {
        let j = line_end(s, i);
        lemma_line_end_bounds(s, i);
        if trim_spec(s.subrange(i, j)).len() != 0 {
        }
        if i <= j < s.len() {
            lemma_count_from_nonneg(s, j + 1);
        }
    }
}

fn x_line_end(s: &Vec<char>, start: usize) -> (r: usize)
    requires
        start <= s.len(),
    ensures
        r == line_end(s@, start as int),
        start <= r <= s.len(),
{
    let mut i = start;
    while i < s.len() && s[i] != '\n'
        invariant
            start <= i <= s.len(),
            line_end(s@, start as int) == line_end(s@, i as int),
        decreases s.len() - i,
    {
        i = i + 1;
    }
    i
}

fn x_ws_suffix_start(v: &Vec<char>) -> (r: usize)
    ensures
        r == ws_suffix_start(v@),
        r <= v.len(),
{
    proof {
        lemma_ws_suffix(v@);
    }
    let mut b = v.len();
    while b > 0 && x_is_ws(v[b - 1])
        invariant
            ws_suffix_start(v@) <= b <= v.len(),
            forall|k: int| b <= k < v@.len() ==> is_ws(#[trigger] v@[k]),
        decreases b,
    {
        proof {
            lemma_ws_suffix(v@);
            if ws_suffix_start(v@) == b {
                assert(!is_ws(v@[b - 1]));
            }
        }
        b = b - 1;
    }
    proof {
        lemma_ws_suffix(v@);
        if b > ws_suffix_start(v@) {
            assert(is_ws(v@[b - 1]));
        }
    }
    b
}

/// Counts the words of a text, line by line, as the status bar shows them.
/// When one of the three cleaning patterns does not compile, the count is
/// zero (nothing is guessed in that case); the total saturates at the
/// machine word.
pub fn count_text(content: String) -> (r: usize)
    ensures
        (regex_valid(ws_pat()) && regex_valid(spaces_pat()) && regex_valid(link_pat())) ==> r
            as int == sat_cap(spec_count_text(content@)),
        !(regex_valid(ws_pat()) && regex_valid(spaces_pat()) && regex_valid(link_pat())) ==> r
            == 0,
{
    let re_ws = regex_new(
        "(?x)\n      (< ([^>]+)<)\n      -\n      ^\\s\\s*\n      -\n      \\s\\s*$\n      ",
    );
    let re_sp = regex_new("\\s+");
    let re_li = regex_new("\\]\\((.*?)\\)");
    let (rws, rsp, rli) = match (re_ws, re_sp, re_li) {
        (Some(a), Some(b), Some(c)) => (a, b, c),
        _ => {
            return 0;
        },
    };
    let mut cs: Vec<char> = Vec::new();
    push_str_chars(content.as_str(), &mut cs);
    let n = cs.len();
    let mut i: usize = 0;
    let mut total: usize = 0;
    let ghost mut done: int = 0;
    while i < n
        invariant
            n == cs.len(),
            cs@ == content@,
            i <= n,
            regex_pattern(rws) == ws_pat(),
            regex_pattern(rsp) == spaces_pat(),
            regex_pattern(rli) == link_pat(),
            done >= 0,
            total as int == sat_cap(done),
            count_from(cs@, 0) == done + count_from(cs@, i as int),
        decreases n - i,
    {
        let j = x_line_end(&cs, i);
        let line = copy_char_range(&cs, i, j);
        let ghost lw = line_words(line@);
        proof {
            lemma_count_from_nonneg(cs@, j as int + 1);
            if trim_spec(line@).len() != 0 {
            }
        }
        let a = x_skip_ws(&line, 0);
        let b = x_ws_suffix_start(&line);
        if a < b {
            let trimmed = copy_char_range(&line, a, b);
            proof {
                assert(trimmed@ == trim_spec(line@));
            }
            let ts = chars_to_string(&trimmed);
            let c1 = regex_replace_all(&rws, ts.as_str(), "");
            let c2 = regex_replace_all(&rsp, c1.as_str(), " ");
            let c3 = regex_replace_all(&rli, c2.as_str(), "]");
            let words = unicode_words(c3.as_str());
            let w = words.len();
            proof {
                assert(c3@ == clean_line(line@));
                assert(lw == w as int);
            }
            if w > usize::MAX - total {
                total = usize::MAX;
            } else {
                total = total + w;
            }
            proof {
                done = done + lw;
                assert(total as int == sat_cap(done));
            }
        } else {
            proof {
                assert(trim_spec(line@).len() == 0);
                assert(lw == 0);
            }
        }
        proof {
            assert(count_from(cs@, i as int) == lw + (if i <= j < cs@.len() {
                count_from(cs@, j as int + 1)
            } else {
                0int
            }));
        }
        if j < n {
            i = j + 1;
        } else {
            i = n;
            proof {
                assert(count_from(cs@, n as int) == 0) by {
                    assert(line_end(cs@, n as int) == n as int);
                    assert(cs@.subrange(n as int, n as int) =~= Seq::<char>::empty());
                    assert(skip_ws(Seq::<char>::empty(), 0) == 0);
                    assert(ws_suffix_start(Seq::<char>::empty()) == 0);
                    assert(trim_spec(Seq::<char>::empty()).len() == 0);
                }
            }
        }
    }
    proof {
        assert(count_from(cs@, n as int) == 0) by {
            assert(line_end(cs@, n as int) == n as int);
            assert(cs@.subrange(n as int, n as int) =~= Seq::<char>::empty());
            assert(skip_ws(Seq::<char>::empty(), 0) == 0);
            assert(ws_suffix_start(Seq::<char>::empty()) == 0);
            assert(trim_spec(Seq::<char>::empty()).len() == 0);
        }
    }
    total
}

} // verus!
