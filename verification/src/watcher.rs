//! File changes and the rule that decides which changed files are worth
//! parsing for templates.

use vstd::prelude::*;

use crate::paths::{components, extension, extension_of, file_name, file_name_of, path_components};
use crate::text::{ends_with_str, has_prefix, has_suffix, starts_with_str, texts};
use crate::paths::chars_eq_str;

verus! {

/// File change event
pub struct FileChange {
    /// Path to the changed file
    pub path: String,
    /// Type of change
    pub kind: ChangeKind,
}

/// Type of file change
#[derive(Debug, Clone, Copy, PartialEq, Eq, Structural)]
pub enum ChangeKind {
    /// File was created
    Created,
    /// File was modified
    Modified,
    /// File was removed
    Removed,
}

/// Endings of temporary files left by editors and merge tools.
pub open spec fn temp_extensions() -> Seq<Seq<char>> {
    seq![".tmp"@, ".swp"@, ".bak"@, ".swo"@, ".orig"@, ".rej"@]
}

/// Every character is an ASCII digit.
pub open spec fn all_digits(f: Seq<char>) -> bool {
    forall|i: int| 0 <= i < f.len() ==> '0' <= #[trigger] f[i] <= '9'
}

/// Names that editors give to lock, backup and auto-save files.
pub open spec fn editor_temporary(f: Seq<char>) -> bool {
    ||| has_suffix(f, "~"@)
    ||| has_prefix(f, ".#"@)
    ||| has_prefix(f, "#"@) && has_suffix(f, "#"@)
    ||| has_prefix(f, ".DS_Store"@)
}

/// A file name that is never a source file: editor temporaries, names made
/// of digits only, and temporary extensions.
pub open spec fn temporary_name(f: Seq<char>) -> bool {
    ||| editor_temporary(f)
    ||| all_digits(f)
    ||| exists|i: int| 0 <= i < temp_extensions().len() && has_suffix(f, #[trigger] temp_extensions()[i])
    ||| has_suffix(f, ".autosave"@)
}

/// A path outside any `target` directory, whose file name is no temporary
/// and whose extension is one of `exts`.
pub open spec fn watched_path(p: Seq<char>, exts: Seq<Seq<char>>) -> bool {
    &&& !path_components(p).contains("target"@)
    &&& match file_name_of(p) {
        None => false,
        Some(f) => !temporary_name(f) && match extension_of(p) {
            Some(e) => exts.contains(e),
            None => false,
        },
    }
}

/// A path outside any `target` directory whose file name is no editor
/// temporary and whose extension is one of `exts`.
pub open spec fn watched_path_lenient(p: Seq<char>, exts: Seq<Seq<char>>) -> bool {
    &&& !path_components(p).contains("target"@)
    &&& match file_name_of(p) {
        None => false,
        Some(f) => !editor_temporary(f) && match extension_of(p) {
            Some(e) => exts.contains(e),
            None => false,
        },
    }
}

/// Whether some component of `p` is `target`.
fn in_target_dir(p: &str) -> (r: bool)
    ensures
        r == path_components(p@).contains("target"@),
{
    let cs = components(p);
    let ghost v = path_components(p@);
    let mut i: usize = 0;
    while i < cs.len()
        invariant
            cs@.map_values(|c: Vec<char>| c@) == v,
            v == path_components(p@),
            i <= cs@.len(),
            forall|j: int| 0 <= j < i ==> v[j] != "target"@,
        decreases cs@.len() - i,
    {
        assert(cs@[i as int]@ == v[i as int]);
        if chars_eq_str(cs[i].as_slice(), "target") {
            assert(v[i as int] == "target"@);
            return true;
        }
        i = i + 1;
    }
    false
}

/// Whether every character of `f` is an ASCII digit.
fn only_digits(f: &[char]) -> (r: bool)
    ensures
        r == all_digits(f@),
{
    let mut i: usize = 0;
    while i < f.len()
        invariant
            i <= f@.len(),
            forall|j: int| 0 <= j < i ==> '0' <= #[trigger] f@[j] <= '9',
        decreases f@.len() - i,
    {
        if f[i] < '0' || f[i] > '9' {
            return false;
        }
        i = i + 1;
    }
    true
}

/// Whether `f` is a name editors give to temporaries.
fn is_editor_temporary(f: &[char]) -> (r: bool)
    ensures
        r == editor_temporary(f@),
{
    ends_with_str(f, "~") || starts_with_str(f, ".#") || (starts_with_str(f, "#")
        && ends_with_str(f, "#")) || starts_with_str(f, ".DS_Store")
}

/// Whether `f` is a temporary file name.
fn is_temporary_name(f: &[char]) -> (r: bool)
    ensures
        r == temporary_name(f@),
{
    if is_editor_temporary(f) || only_digits(f) {
        return true;
    }
    let tmp = ends_with_str(f, ".tmp");
    let swp = ends_with_str(f, ".swp");
    let bak = ends_with_str(f, ".bak");
    let swo = ends_with_str(f, ".swo");
    let orig = ends_with_str(f, ".orig");
    let rej = ends_with_str(f, ".rej");
    proof {
        let t = temp_extensions();
        assert(t[0] == ".tmp"@ && t[1] == ".swp"@ && t[2] == ".bak"@);
        assert(t[3] == ".swo"@ && t[4] == ".orig"@ && t[5] == ".rej"@);
        if exists|i: int| 0 <= i < t.len() && has_suffix(f@, #[trigger] t[i]) {
            let i = choose|i: int| 0 <= i < t.len() && has_suffix(f@, #[trigger] t[i]);
            assert(tmp || swp || bak || swo || orig || rej);
        }
        if tmp { assert(has_suffix(f@, t[0])); }
        if swp { assert(has_suffix(f@, t[1])); }
        if bak { assert(has_suffix(f@, t[2])); }
        if swo { assert(has_suffix(f@, t[3])); }
        if orig { assert(has_suffix(f@, t[4])); }
        if rej { assert(has_suffix(f@, t[5])); }
    }
    tmp || swp || bak || swo || orig || rej || ends_with_str(f, ".autosave")
}

/// Whether `e` is one of `exts`.
fn is_listed(e: &[char], exts: &[String]) -> (r: bool)
    ensures
        r == texts(exts@).contains(e@),
{
    let mut i: usize = 0;
    while i < exts.len()
        invariant
            i <= exts@.len(),
            forall|j: int| 0 <= j < i ==> exts@[j]@ != e@,
        decreases exts@.len() - i,
    {
        if chars_eq_str(e, exts[i].as_str()) {
            assert(texts(exts@)[i as int] == e@);
            return true;
        }
        i = i + 1;
    }
    proof {
        if texts(exts@).contains(e@) {
            let j = choose|j: int| 0 <= j < texts(exts@).len() && texts(exts@)[j] == e@;
            assert(exts@[j]@ == e@);
        }
    }
    false
}

/// Whether a changed file at `path` is worth parsing: it lies outside any
/// `target` directory, its name is no temporary, and its extension is one
/// of `extensions`. (Whether it is a regular file is for the caller to ask
/// the file system.)
pub fn should_process_path(path: &str, extensions: &[String]) -> (r: bool)
    ensures
        r == watched_path(path@, texts(extensions@)),
{
    if in_target_dir(path) {
        return false;
    }
    let name = match file_name(path) {
        Some(f) => f,
        None => return false,
    };
    if is_temporary_name(name.as_slice()) {
        return false;
    }
    match extension(path) {
        Some(e) => is_listed(e.as_slice(), extensions),
        None => false,
    }
}

/// Like `should_process_path`, but only editor temporaries are left out by
/// name.
pub fn should_process_path_lenient(path: &str, extensions: &[String]) -> (r: bool)
    ensures
        r == watched_path_lenient(path@, texts(extensions@)),
{
    if in_target_dir(path) {
        return false;
    }
    let name = match file_name(path) {
        Some(f) => f,
        None => return false,
    };
    if is_editor_temporary(name.as_slice()) {
        return false;
    }
    match extension(path) {
        Some(e) => is_listed(e.as_slice(), extensions),
        None => false,
    }
}

} // verus!
