//! Character-level helpers shared by the rest of the crate.

use vstd::prelude::*;

verus! {

/// Appends one character to a string.
///
/// Wraps `String::push`, which std documents as appending the given `char`
/// to the end of the string; nothing else about the string changes.
#[verifier::external_body]
pub fn push_char(s: &mut String, c: char)
    ensures
        final(s)@ == old(s)@.push(c),
{
    s.push(c)
}

/// The characters of a string slice, in order.
pub fn str_chars(s: &str) -> (r: Vec<char>)
    ensures
        r@ == s@,
{
    let n = s.unicode_len();
    let mut r: Vec<char> = Vec::new();
    let mut i: usize = 0;
    while i < n
        invariant
            n == s@.len(),
            i <= n,
            r@ == s@.subrange(0, i as int),
        decreases n - i,
    {
        let c = s.get_char(i);
        r.push(c);
        i = i + 1;
    }
    r
}

/// A string made of the given characters.
pub fn string_from_chars(cs: &[char]) -> (r: String)
    ensures
        r@ == cs@,
{
    let mut r = String::new();
    let mut i: usize = 0;
    while i < cs.len()
        invariant
            i <= cs.len(),
            r@ == cs@.subrange(0, i as int),
        decreases cs.len() - i,
    {
        push_char(&mut r, cs[i]);
        i = i + 1;
    }
    r
}

/// The first `n` bytes of `v` written little-endian.
pub open spec fn le_bytes(v: nat, n: nat) -> Seq<u8>
    decreases n,
{
    if n == 0 {
        Seq::empty()
    } else {
        seq![(v % 256) as u8] + le_bytes(v / 256, (n - 1) as nat)
    }
}

/// Appends the first `n` little-endian bytes of `x`.
pub fn push_le_bytes(v: &mut Vec<u8>, x: u64, n: u32)
    ensures
        final(v)@ == old(v)@ + le_bytes(x as nat, n as nat),
{
    let mut cur: u64 = x;
    let mut k: u32 = 0;
    while k < n
        invariant
            k <= n,
            old(v)@ + le_bytes(x as nat, n as nat) == v@ + le_bytes(cur as nat, (n - k) as nat),
        decreases n - k,
    {
        let b: u8 = (cur % 256) as u8;
        proof {
            let m = (n - k) as nat;
            assert(le_bytes(cur as nat, m) == seq![b] + le_bytes((cur / 256) as nat, (m - 1) as nat));
            assert(v@ + le_bytes(cur as nat, m) =~= v@.push(b) + le_bytes((cur / 256) as nat, (m - 1) as nat));
        }
        v.push(b);
        cur = cur / 256;
        k = k + 1;
    }
    assert(v@ + le_bytes(cur as nat, 0) =~= v@);
}

/// Appends the bytes of a slice.
pub fn append_bytes(v: &mut Vec<u8>, b: &[u8])
    ensures
        final(v)@ == old(v)@ + b@,
{
    let mut i: usize = 0;
    while i < b.len()
        invariant
            i <= b.len(),
            v@ == old(v)@ + b@.subrange(0, i as int),
        decreases b.len() - i,
    {
        v.push(b[i]);
        i = i + 1;
        assert(old(v)@ + b@.subrange(0, i as int) =~= (old(v)@ + b@.subrange(0, i - 1)).push(b@[i - 1]));
    }
    assert(b@.subrange(0, b@.len() as int) =~= b@);
}

/// The character of a decimal digit.
pub open spec fn digit_char(d: nat) -> char {
    ((d + 48) as u8) as char
}

/// The decimal digits of `n`, most significant first.
pub open spec fn decimal(n: nat) -> Seq<char>
    decreases n,
{
    if n < 10 {
        seq![digit_char(n)]
    } else {
        decimal(n / 10).push(digit_char(n % 10))
    }
}

/// Appends the decimal digits of `n`.
pub fn push_decimal(s: &mut String, n: u64)
    ensures
        final(s)@ == old(s)@ + decimal(n as nat),
    decreases n,
{
    if n >= 10 {
        push_decimal(s, n / 10);
    }
    let d: u8 = (n % 10) as u8;
    let c: char = (d + 48) as char;
    push_char(s, c);
    proof {
        if n >= 10 {
            assert(decimal(n as nat) == decimal((n / 10) as nat).push(digit_char((n % 10) as nat)));
        }
    }
}

/// The debug rendering of a list of indices, such as `[0, 1]`.
pub open spec fn path_debug(p: Seq<usize>) -> Seq<char> {
    seq!['['] + path_items(p) + seq![']']
}

/// The indices of a list, in decimal, separated by `, `.
pub open spec fn path_items(p: Seq<usize>) -> Seq<char>
    decreases p.len(),
{
    if p.len() == 0 {
        Seq::empty()
    } else if p.len() == 1 {
        decimal(p[0] as nat)
    } else {
        path_items(p.drop_last()) + seq![',', ' '] + decimal(p.last() as nat)
    }
}

/// Appends the debug rendering of a list of indices.
pub fn push_path_debug(s: &mut String, p: &[usize])
    ensures
        final(s)@ == old(s)@ + path_debug(p@),
{
    push_char(s, '[');
    let ghost start = s@;
    let mut i: usize = 0;
    while i < p.len()
        invariant
            i <= p.len(),
            s@ == start + path_items(p@.subrange(0, i as int)),
        decreases p.len() - i,
    {
        if i > 0 {
            push_char(s, ',');
            push_char(s, ' ');
        }
        push_decimal(s, p[i] as u64);
        proof {
            let q = p@.subrange(0, i + 1);
            assert(q.drop_last() =~= p@.subrange(0, i as int));
            if i == 0 {
                assert(path_items(p@.subrange(0, 0)) =~= Seq::<char>::empty());
            }
        }
        i = i + 1;
    }
    push_char(s, ']');
    assert(p@.subrange(0, p@.len() as int) =~= p@);
    assert(s@ =~= old(s)@ + path_debug(p@));
}

/// The characters that stand for `c` inside a debug-quoted string.
pub open spec fn escaped_char(c: char) -> Seq<char> {
    if c == '"' {
        seq!['\\', '"']
    } else if c == '\\' {
        seq!['\\', '\\']
    } else if c == '\n' {
        seq!['\\', 'n']
    } else if c == '\r' {
        seq!['\\', 'r']
    } else if c == '\t' {
        seq!['\\', 't']
    } else if c == '\0' {
        seq!['\\', '0']
    } else {
        seq![c]
    }
}

/// The escaped characters of a text.
pub open spec fn escaped(t: Seq<char>) -> Seq<char>
    decreases t.len(),
{
    if t.len() == 0 {
        Seq::empty()
    } else {
        escaped(t.drop_last()) + escaped_char(t.last())
    }
}

/// A text between double quotes, with quotes, backslashes and the common
/// control characters escaped.
pub open spec fn quoted(t: Seq<char>) -> Seq<char> {
    seq!['"'] + escaped(t) + seq!['"']
}

/// Appends a text between double quotes, escaped.
pub fn push_quoted(s: &mut String, t: &str)
    ensures
        final(s)@ == old(s)@ + quoted(t@),
{
    let cs = str_chars(t);
    push_char(s, '"');
    let ghost start = s@;
    let mut i: usize = 0;
    while i < cs.len()
        invariant
            i <= cs.len(),
            cs@ == t@,
            s@ == start + escaped(cs@.subrange(0, i as int)),
        decreases cs.len() - i,
    {
        let c = cs[i];
        if c == '"' {
            push_char(s, '\\');
            push_char(s, '"');
        } else if c == '\\' {
            push_char(s, '\\');
            push_char(s, '\\');
        } else if c == '\n' {
            push_char(s, '\\');
            push_char(s, 'n');
        } else if c == '\r' {
            push_char(s, '\\');
            push_char(s, 'r');
        } else if c == '\t' {
            push_char(s, '\\');
            push_char(s, 't');
        } else if c == '\0' {
            push_char(s, '\\');
            push_char(s, '0');
        } else {
            push_char(s, c);
        }
        proof {
            let q = cs@.subrange(0, i + 1);
            assert(q.drop_last() =~= cs@.subrange(0, i as int));
            assert(s@ =~= start + escaped(q));
        }
        i = i + 1;
    }
    push_char(s, '"');
    assert(cs@.subrange(0, cs@.len() as int) =~= cs@);
    assert(s@ =~= old(s)@ + quoted(t@));
}

/// Appends a text.
pub fn push_str(s: &mut String, t: &str)
    ensures
        final(s)@ == old(s)@ + t@,
{
    s.append(t);
}

/// The texts of a list of strings.
pub open spec fn texts(v: Seq<String>) -> Seq<Seq<char>> {
    v.map_values(|t: String| t@)
}

/// The texts of an optional list of strings.
pub open spec fn opt_texts(o: Option<Vec<String>>) -> Option<Seq<Seq<char>>> {
    match o {
        Some(v) => Some(texts(v@)),
        None => None,
    }
}

/// A copy of a list of strings.
pub fn copy_texts(v: &Vec<String>) -> (r: Vec<String>)
    ensures
        r@ == v@,
{
    let mut r: Vec<String> = Vec::new();
    let mut i: usize = 0;
    while i < v.len()
        invariant
            i <= v@.len(),
            r@ == v@.subrange(0, i as int),
        decreases v@.len() - i,
    {
        r.push(v[i].clone());
        i = i + 1;
    }
    assert(v@.subrange(0, i as int) =~= v@);
    r
}

/// A copy of an optional string.
pub fn copy_opt_text(o: &Option<String>) -> (r: Option<String>)
    ensures
        r == *o,
{
    match o {
        Some(t) => Some(t.clone()),
        None => None,
    }
}

/// A copy of an optional list of strings.
pub fn copy_opt_texts(o: &Option<Vec<String>>) -> (r: Option<Vec<String>>)
    ensures
        match (r, *o) {
            (Some(a), Some(b)) => a@ == b@,
            (None, None) => true,
            _ => false,
        },
        opt_texts(r) == opt_texts(*o),
{
    match o {
        Some(v) => Some(copy_texts(v)),
        None => None,
    }
}

/// `t` begins with `s`.
pub open spec fn has_prefix(t: Seq<char>, s: Seq<char>) -> bool {
    s.len() <= t.len() && t.subrange(0, s.len() as int) == s
}

/// `t` ends with `s`.
pub open spec fn has_suffix(t: Seq<char>, s: Seq<char>) -> bool {
    s.len() <= t.len() && t.subrange(t.len() - s.len(), t.len() as int) == s
}

/// Whether `t` begins with the text `s`.
pub fn starts_with_str(t: &[char], s: &str) -> (r: bool)
    ensures
        r == has_prefix(t@, s@),
{
    let sc = str_chars(s);
    if sc.len() > t.len() {
        return false;
    }
    let mut i: usize = 0;
    while i < sc.len()
        invariant
            sc@ == s@,
            sc@.len() <= t@.len(),
            i <= sc@.len(),
            forall|j: int| 0 <= j < i ==> t@[j] == sc@[j],
        decreases sc@.len() - i,
    {
        if t[i] != sc[i] {
            assert(t@.subrange(0, sc@.len() as int)[i as int] != sc@[i as int]);
            return false;
        }
        i = i + 1;
    }
    assert(t@.subrange(0, sc@.len() as int) =~= sc@);
    true
}

/// Whether `t` ends with the text `s`.
pub fn ends_with_str(t: &[char], s: &str) -> (r: bool)
    ensures
        r == has_suffix(t@, s@),
{
    let sc = str_chars(s);
    if sc.len() > t.len() {
        return false;
    }
    let off = t.len() - sc.len();
    let mut k: usize = off;
    while k < t.len()
        invariant
            sc@ == s@,
            sc@.len() <= t@.len(),
            off == t@.len() - sc@.len(),
            off <= k <= t@.len(),
            forall|j: int| 0 <= j < k - off ==> t@[off + j] == sc@[j],
        decreases t@.len() - k,
    {
        if t[k] != sc[k - off] {
            assert(t@.subrange(off as int, t@.len() as int)[k - off] != sc@[k - off]);
            return false;
        }
        k = k + 1;
    }
    assert(t@.subrange(off as int, t@.len() as int) =~= sc@);
    true
}

/// Whether `t` is among `v`.
pub fn has_text(v: &Vec<String>, t: &str) -> (r: bool)
    ensures
        r == texts(v@).contains(t@),
{
    let key = t.to_owned();
    let mut i: usize = 0;
    while i < v.len()
        invariant
            i <= v@.len(),
            key@ == t@,
            forall|j: int| 0 <= j < i ==> v@[j]@ != t@,
        decreases v@.len() - i,
    {
        if v[i] == key {
            assert(texts(v@)[i as int] == t@);
            return true;
        }
        i = i + 1;
    }
    false
}

} // verus!
