//! Paths as text: their components as std splits them, and the file name,
//! extension and prefix tests that follow from the components.

use vstd::prelude::*;
use std::path::Path;

use crate::text::str_chars;

verus! {

/// The components of a path, each as text, as `Path::components` yields
/// them (a root as "/", a current directory as ".", a parent as "..").
pub uninterp spec fn path_components(p: Seq<char>) -> Seq<Seq<char>>;

/// Calls `Path::components` and takes each component as text.
#[verifier::external_body]
fn components_of(p: &str) -> (r: Vec<String>)
    ensures
        r@.map_values(|c: String| c@) == path_components(p@),
{
    Path::new(p).components().map(|c| c.as_os_str().to_string_lossy().into_owned()).collect()
}

/// A component that names a file or directory, not a root, `.` or `..`.
pub open spec fn is_normal_component(c: Seq<char>) -> bool {
    c != "/"@ && c != "."@ && c != ".."@
}

/// The final component if it names a file or directory (`Path::file_name`).
pub open spec fn file_name_of(p: Seq<char>) -> Option<Seq<char>> {
    let cs = path_components(p);
    if cs.len() > 0 && is_normal_component(cs.last()) {
        Some(cs.last())
    } else {
        None
    }
}

/// The last position of `c` in `t`, or -1.
pub open spec fn last_index_of(t: Seq<char>, c: char) -> int
    decreases t.len(),
{
    if t.len() == 0 {
        -1
    } else if t.last() == c {
        t.len() - 1
    } else {
        last_index_of(t.drop_last(), c)
    }
}

/// The extension of a file name: what follows its last dot, where that dot
/// is not its first character; `..` has none (`Path::extension`).
pub open spec fn extension_of_name(f: Seq<char>) -> Option<Seq<char>> {
    let i = last_index_of(f, '.');
    if f == ".."@ || i <= 0 {
        None
    } else {
        Some(f.subrange(i + 1, f.len() as int))
    }
}

/// The extension of a path's file name, if any.
pub open spec fn extension_of(p: Seq<char>) -> Option<Seq<char>> {
    match file_name_of(p) {
        Some(f) => extension_of_name(f),
        None => None,
    }
}

/// `base`'s components begin `p`'s components (`Path::starts_with`).
pub open spec fn path_starts_with(p: Seq<char>, base: Seq<char>) -> bool {
    path_components(base).len() <= path_components(p).len() && path_components(p).subrange(
        0,
        path_components(base).len() as int,
    ) == path_components(base)
}

/// The components of a path, as text.
pub fn components(p: &str) -> (r: Vec<Vec<char>>)
    ensures
        r@.map_values(|c: Vec<char>| c@) == path_components(p@),
{
    let parts = components_of(p);
    let mut r: Vec<Vec<char>> = Vec::new();
    let mut i: usize = 0;
    while i < parts.len()
        invariant
            i <= parts@.len(),
            r@.len() == i,
            forall|j: int| 0 <= j < i ==> #[trigger] r@[j]@ == parts@[j]@,
        decreases parts@.len() - i,
    {
        r.push(str_chars(parts[i].as_str()));
        i = i + 1;
    }
    assert(r@.map_values(|c: Vec<char>| c@) =~= parts@.map_values(|c: String| c@));
    r
}

/// `a` and `b` hold the same characters.
pub fn chars_eq(a: &[char], b: &[char]) -> (r: bool)
    ensures
        r == (a@ == b@),
{
    if a.len() != b.len() {
        return false;
    }
    let mut i: usize = 0;
    while i < a.len()
        invariant
            a.len() == b.len(),
            i <= a.len(),
            forall|j: int| 0 <= j < i ==> a@[j] == b@[j],
        decreases a.len() - i,
    {
        if a[i] != b[i] {
            return false;
        }
        i = i + 1;
    }
    assert(a@ =~= b@);
    true
}

/// `t` equals the text `s`.
pub fn chars_eq_str(t: &[char], s: &str) -> (r: bool)
    ensures
        r == (t@ == s@),
{
    let sc = str_chars(s);
    chars_eq(t, sc.as_slice())
}

/// The file name of `p`, if its final component names a file or directory.
pub fn file_name(p: &str) -> (r: Option<Vec<char>>)
    ensures
        match r {
            Some(f) => file_name_of(p@) == Some(f@),
            None => file_name_of(p@) is None,
        },
{
    let cs = components(p);
    let n = cs.len();
    if n == 0 {
        return None;
    }
    let last = &cs[n - 1];
    assert(last@ == path_components(p@).last());
    if chars_eq_str(last.as_slice(), "/") || chars_eq_str(last.as_slice(), ".")
        || chars_eq_str(last.as_slice(), "..") {
        None
    } else {
        let mut f: Vec<char> = Vec::new();
        let mut i: usize = 0;
        while i < last.len()
            invariant
                i <= last@.len(),
                f@ == last@.subrange(0, i as int),
            decreases last@.len() - i,
        {
            f.push(last[i]);
            i = i + 1;
        }
        assert(f@ =~= last@);
        Some(f)
    }
}

/// The last position of `c` in `t`.
pub fn last_index(t: &[char], c: char) -> (r: Option<usize>)
    ensures
        match r {
            Some(i) => last_index_of(t@, c) == i && i < t@.len(),
            None => last_index_of(t@, c) == -1,
        },
{
    let mut i: usize = t.len();
    assert(t@.subrange(0, i as int) =~= t@);
    while i > 0
        invariant
            i <= t@.len(),
            last_index_of(t@, c) == last_index_of(t@.subrange(0, i as int), c),
        decreases i,
    {
        assert(t@.subrange(0, i as int).drop_last() =~= t@.subrange(0, i - 1));
        if t[i - 1] == c {
            return Some(i - 1);
        }
        i = i - 1;
    }
    None
}

/// The extension of a file name.
pub fn extension_of_file_name(f: &[char]) -> (r: Option<Vec<char>>)
    ensures
        match r {
            Some(e) => extension_of_name(f@) == Some(e@),
            None => extension_of_name(f@) is None,
        },
{
    if chars_eq_str(f, "..") {
        return None;
    }
    match last_index(f, '.') {
        None => None,
        Some(i) => {
            if i == 0 {
                None
            } else {
                assert(i < f.len());
                let mut e: Vec<char> = Vec::new();
                let mut k: usize = i + 1;
                while k < f.len()
                    invariant
                        i < f@.len(),
                        i + 1 <= k <= f@.len(),
                        e@ == f@.subrange(i + 1, k as int),
                    decreases f@.len() - k,
                {
                    e.push(f[k]);
                    k = k + 1;
                }
                Some(e)
            }
        },
    }
}

/// The extension of a path's file name.
pub fn extension(p: &str) -> (r: Option<Vec<char>>)
    ensures
        match r {
            Some(e) => extension_of(p@) == Some(e@),
            None => extension_of(p@) is None,
        },
{
    match file_name(p) {
        Some(f) => extension_of_file_name(f.as_slice()),
        None => None,
    }
}

/// Whether `base`'s components begin `p`'s components.
pub fn starts_with(p: &str, base: &str) -> (r: bool)
    ensures
        r == path_starts_with(p@, base@),
{
    let pc = components(p);
    let bc = components(base);
    let ghost pv = path_components(p@);
    let ghost bv = path_components(base@);
    assert(pc@.len() == pv.len());
    assert(bc@.len() == bv.len());
    if bc.len() > pc.len() {
        return false;
    }
    let mut i: usize = 0;
    while i < bc.len()
        invariant
            bc@.len() <= pc@.len(),
            pv == path_components(p@),
            bv == path_components(base@),
            pc@.map_values(|c: Vec<char>| c@) == pv,
            bc@.map_values(|c: Vec<char>| c@) == bv,
            i <= bc@.len(),
            forall|j: int| 0 <= j < i ==> pv[j] == bv[j],
        decreases bc@.len() - i,
    {
        assert(pc@[i as int]@ == pv[i as int]);
        assert(bc@[i as int]@ == bv[i as int]);
        if !chars_eq(pc[i].as_slice(), bc[i].as_slice()) {
            assert(pv.subrange(0, bv.len() as int)[i as int] != bv[i as int]);
            return false;
        }
        i = i + 1;
    }
    assert(pv.subrange(0, bv.len() as int) =~= bv);
    true
}

} // verus!
