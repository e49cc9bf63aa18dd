//! The file-tree model: one entry per file or directory, with its display
//! name, extension, full path and children.
//!
//! Paths are plain strings with `/` separators and no trailing separator;
//! the name of a path is the segment after its last `/`, and the extension
//! the part of the name after its last `.` when that dot is not the name's
//! first character.

use vstd::prelude::*;

use crate::json::chars_to_string;
use crate::json::push_str_chars;

verus! {

/// Index of the last occurrence of `c` in `s`, or -1.
pub open spec fn last_idx_of(s: Seq<char>, c: char) -> int
    decreases s,
{
    if s.len() == 0 {
        -1
    } else if s.last() == c {
        s.len() - 1
    } else {
        last_idx_of(s.drop_last(), c)
    }
}

pub proof fn lemma_last_idx_of_bounds(s: Seq<char>, c: char)
    ensures
        -1 <= last_idx_of(s, c) < s.len(),
    decreases s,
{
    if s.len() > 0 && s.last() != c {
        lemma_last_idx_of_bounds(s.drop_last(), c);
    }
}

/// The segment of a path after its last separator (the whole path when it
/// has none).
pub open spec fn name_of(path: Seq<char>) -> Seq<char> {
    path.skip(last_idx_of(path, '/') + 1)
}

/// The extension of a name: what follows its last dot, unless that dot is
/// the first character or there is none.
pub open spec fn ext_of(name: Seq<char>) -> Seq<char> {
    if last_idx_of(name, '.') > 0 {
        name.skip(last_idx_of(name, '.') + 1)
    } else {
        Seq::empty()
    }
}

/// One node of the file tree.
#[derive(Debug)]
pub struct FileEntry {
    pub name: String,
    pub ext: String,
    pub is_dir: bool,
    pub path: String,
    pub children: Vec<FileEntry>,
}

/// Finds the index after the last occurrence of `c`, by scanning back.
fn find_after_last(v: &Vec<char>, c: char) -> (r: usize)
    ensures
        r == last_idx_of(v@, c) + 1,
        r <= v.len(),
{
    proof {
        lemma_last_idx_of_bounds(v@, c);
    }
    let mut b = v.len();
    proof {
        assert(v@.take(v@.len() as int) =~= v@);
    }
    while b > 0
        invariant
            b <= v.len(),
            last_idx_of(v@, c) == last_idx_of(v@.take(b as int), c),
        decreases b,
    {
        if v[b - 1] == c {
            proof {
                assert(v@.take(b as int).last() == v@[b as int - 1]);
            }
            return b;
        }
        proof {
            assert(v@.take(b as int).last() == v@[b as int - 1]);
            assert(v@.take(b as int).drop_last() =~= v@.take(b as int - 1));
        }
        b = b - 1;
    }
    proof {
        assert(v@.take(0) =~= Seq::<char>::empty());
    }
    0
}

/// Copies the characters of `v` between `from` and `to`.
pub fn copy_char_range(v: &Vec<char>, from: usize, to: usize) -> (r: Vec<char>)
    requires
        from <= to <= v.len(),
    ensures
        r@ == v@.subrange(from as int, to as int),
{
    let mut out: Vec<char> = Vec::new();
    let mut i = from;
    proof {
        assert(out@ =~= v@.subrange(from as int, from as int));
    }
    while i < to
        invariant
            from <= i <= to <= v.len(),
            out@ == v@.subrange(from as int, i as int),
        decreases to - i,
    {
        out.push(v[i]);
        proof {
            assert(v@.subrange(from as int, i as int + 1) =~= v@.subrange(
                from as int,
                i as int,
            ).push(v@[i as int]));
        }
        i = i + 1;
    }
    out
}

/// Whether a directory entry is hidden: its name starts with a dot.
pub fn is_hidden(name: &str) -> (b: bool)
    ensures
        b == (name@.len() > 0 && name@[0] == '.'),
{
    if name.unicode_len() == 0 {
        return false;
    }
    name.get_char(0) == '.'
}

/// The name of a path: its segment after the last separator.
pub fn path_name(path: &str) -> (r: String)
    ensures
        r@ == name_of(path@),
{
    let mut cs: Vec<char> = Vec::new();
    push_str_chars(path, &mut cs);
    proof {
        lemma_last_idx_of_bounds(cs@, '/');
    }
    let a = find_after_last(&cs, '/');
    let name_chars = copy_char_range(&cs, a, cs.len());
    proof {
        assert(cs@.subrange(a as int, cs@.len() as int) =~= cs@.skip(a as int));
    }
    chars_to_string(&name_chars)
}

impl FileEntry {
    /// An entry for one file path: its name and extension are read off the
    /// path, and it starts with no children.
    pub fn from_path(path: String) -> (r: FileEntry)
        ensures
            r.name@ == name_of(path@),
            r.ext@ == ext_of(name_of(path@)),
            !r.is_dir,
            r.path@ == path@,
            r.children@.len() == 0,
    {
        let mut cs: Vec<char> = Vec::new();
        push_str_chars(path.as_str(), &mut cs);
        proof {
            lemma_last_idx_of_bounds(cs@, '/');
        }
        let a = find_after_last(&cs, '/');
        let name_chars = copy_char_range(&cs, a, cs.len());
        proof {
            assert(cs@.subrange(a as int, cs@.len() as int) =~= cs@.skip(a as int));
            lemma_last_idx_of_bounds(name_chars@, '.');
        }
        let d = find_after_last(&name_chars, '.');
        let ext_chars = if d > 1 {
            copy_char_range(&name_chars, d, name_chars.len())
        } else {
            Vec::new()
        };
        proof {
            if d > 1 {
                assert(name_chars@.subrange(d as int, name_chars@.len() as int)
                    =~= name_chars@.skip(d as int));
            } else {
                assert(ext_of(name_of(path@)) =~= Seq::<char>::empty());
            }
        }
        let name = chars_to_string(&name_chars);
        let ext = chars_to_string(&ext_chars);
        FileEntry { name, ext, is_dir: false, path, children: Vec::new() }
    }

    /// A named entry with nothing else set.
    pub fn new(name: String) -> (r: FileEntry)
        ensures
            r.name@ == name@,
            r.ext@.len() == 0,
            !r.is_dir,
            r.path@.len() == 0,
            r.children@.len() == 0,
    {
        FileEntry {
            name,
            ext: String::new(),
            is_dir: false,
            path: String::new(),
            children: Vec::new(),
        }
    }

    /// Appends one child, builder style.
    pub fn add_child(self, child: FileEntry) -> (r: FileEntry)
        ensures
            r.children@ == self.children@.push(child),
            r.name == self.name,
            r.ext == self.ext,
            r.is_dir == self.is_dir,
            r.path == self.path,
    {
        let mut e = self;
        e.children.push(child);
        e
    }

    /// How many children this entry has.
    pub fn children_count(&self) -> (r: usize)
        ensures
            r == self.children@.len(),
    {
        self.children.len()
    }

    /// The child at `index`.
    pub fn get_child(&self, index: usize) -> (r: &FileEntry)
        requires
            index < self.children@.len(),
        ensures
            *r == self.children@[index as int],
    {
        &self.children[index]
    }
}

impl Default for FileEntry {
    /// An empty entry: no name, no extension, not a directory, no children.
    fn default() -> (r: FileEntry)
        ensures
            r.name@.len() == 0,
            r.ext@.len() == 0,
            !r.is_dir,
            r.path@.len() == 0,
            r.children@.len() == 0,
    {
        FileEntry {
            name: String::new(),
            ext: String::new(),
            is_dir: false,
            path: String::new(),
            children: Vec::new(),
        }
    }
}

} // verus!
