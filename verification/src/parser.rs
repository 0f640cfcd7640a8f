//! Extraction of templates from `view!`/`html!` macro calls: which macro
//! paths are template macros, where a template's dynamic parts are, and the
//! template updates a file's macro calls make.
//!
//! Finding the macro calls in Rust source is the syntax tree's business; the
//! calls come here as their path, position and token text.

use vstd::prelude::*;

use crate::protocol::{content_bytes, DynamicKind, DynamicPart, TemplateId, TemplateUpdate};
use crate::protocol::blake3_hex_digest;
use crate::text::{str_chars, string_from_chars, texts};

verus! {

// ----------------------------------------------------------------------------
// Braces
// ----------------------------------------------------------------------------

/// How a character changes the nesting depth: `{` opens, `}` closes.
pub open spec fn depth_step(c: char) -> int {
    if c == '{' {
        1
    } else if c == '}' {
        -1
    } else {
        0
    }
}

/// Scanning from position `i` at depth `d`, the first `}` that brings the
/// depth back to zero.
pub open spec fn first_close_from(s: Seq<char>, i: int, d: int) -> Option<int>
    decreases s.len() - i,
{
    if i < 0 || i >= s.len() {
        None
    } else if s[i] == '}' && d + depth_step(s[i]) == 0 {
        Some(i)
    } else {
        first_close_from(s, i + 1, d + depth_step(s[i]))
    }
}

/// The position of the `}` that closes the brace opening `s`, counting
/// nested braces (`None` if the depth never comes back to zero at a `}`).
pub open spec fn matching_brace(s: Seq<char>) -> Option<int> {
    first_close_from(s, 0, 0)
}

/// Where the brace scan from `from` on finds its closing `}`, as an offset
/// from `from`.
pub fn find_matching_brace(s: &[char], from: usize) -> (r: Option<usize>)
    requires
        from <= s.len(),
    ensures
        match r {
            Some(k) => from + k < s.len() && matching_brace(s@.subrange(from as int, s@.len() as int))
                == Some(k as int),
            None => matching_brace(s@.subrange(from as int, s@.len() as int)) is None,
        },
{
    let ghost t = s@.subrange(from as int, s@.len() as int);
    let mut depth: i128 = 0;
    let mut i: usize = from;
    while i < s.len()
        invariant
            from <= i <= s@.len(),
            t == s@.subrange(from as int, s@.len() as int),
            -(i - from) <= depth <= i - from,
            first_close_from(t, 0, 0) == first_close_from(t, i - from, depth as int),
        decreases s@.len() - i,
    {
        let c = s[i];
        assert(t[i - from] == c);
        if c == '{' {
            depth = depth + 1;
        } else if c == '}' {
            depth = depth - 1;
            if depth == 0 {
                return Some(i - from);
            }
        }
        i = i + 1;
    }
    None
}

// ----------------------------------------------------------------------------
// Dynamic parts
// ----------------------------------------------------------------------------

/// Characters that `char::is_whitespace` accepts.
pub open spec fn is_space(c: char) -> bool {
    ||| c == ' ' || c == '\t' || c == '\n' || c == '\r'
    ||| c == '\u{000B}' || c == '\u{000C}' || c == '\u{0085}' || c == '\u{00A0}'
    ||| c == '\u{1680}' || ('\u{2000}' <= c && c <= '\u{200A}')
    ||| c == '\u{2028}' || c == '\u{2029}' || c == '\u{202F}' || c == '\u{205F}'
    ||| c == '\u{3000}'
}

/// The number of leading whitespace characters.
pub open spec fn leading_space(t: Seq<char>) -> nat
    decreases t.len(),
{
    if t.len() > 0 && is_space(t[0]) {
        1 + leading_space(t.drop_first())
    } else {
        0
    }
}

/// The number of trailing whitespace characters.
pub open spec fn trailing_space(t: Seq<char>) -> nat
    decreases t.len(),
{
    if t.len() > 0 && is_space(t.last()) {
        1 + trailing_space(t.drop_last())
    } else {
        0
    }
}

/// The text without its leading and trailing whitespace (`str::trim`).
pub open spec fn trimmed(t: Seq<char>) -> Seq<char> {
    let a = leading_space(t);
    if a >= t.len() {
        Seq::empty()
    } else {
        t.subrange(a as int, t.len() - trailing_space(t))
    }
}

/// The value of a dynamic part's kind.
pub enum KindModel {
    Expression,
    EventHandler(Seq<char>),
    Conditional,
    Loop,
}

/// The value of a kind.
pub open spec fn kind_model(k: DynamicKind) -> KindModel {
    match k {
        DynamicKind::Expression => KindModel::Expression,
        DynamicKind::EventHandler { event } => KindModel::EventHandler(event@),
        DynamicKind::Conditional => KindModel::Conditional,
        DynamicKind::Loop => KindModel::Loop,
    }
}

/// The kind of a `{ ... }` interpolation from its inside: `if` blocks are
/// conditional, `for` blocks loops, anything else an expression.
pub open spec fn interpolation_kind(inner: Seq<char>) -> KindModel {
    if crate::text::has_prefix(trimmed(inner), "if "@) {
        KindModel::Conditional
    } else if crate::text::has_prefix(trimmed(inner), "for "@) {
        KindModel::Loop
    } else {
        KindModel::Expression
    }
}

/// `axm-` starts at position `p`.
pub open spec fn handler_at(c: Seq<char>, p: int) -> bool {
    0 <= p && p + 4 <= c.len() && c.subrange(p, p + 4) == "axm-"@
}

/// The first `=` at or after `p`, if any.
pub open spec fn next_equals(c: Seq<char>, p: int) -> Option<int>
    decreases c.len() - p,
{
    if p < 0 || p >= c.len() {
        None
    } else if c[p] == '=' {
        Some(p)
    } else {
        next_equals(c, p + 1)
    }
}

/// The event handlers named by `axm-<event>=` from position `p` on, in
/// order.
pub open spec fn handler_events(c: Seq<char>, p: int) -> Seq<Seq<char>>
    decreases c.len() - p,
{
    if p < 0 || p >= c.len() {
        Seq::empty()
    } else if handler_at(c, p) {
        match next_equals(c, p) {
            Some(e) => seq![c.subrange(p + 4, e)] + handler_events(c, p + 4),
            None => handler_events(c, p + 4),
        }
    } else {
        handler_events(c, p + 1)
    }
}

/// The kinds of the `{ ... }` interpolations from position `p` on, in order:
/// an unescaped `{` with a matching `}` is one, and the scan goes on after
/// it; other characters are passed over.
pub open spec fn interpolation_kinds(c: Seq<char>, p: int) -> Seq<KindModel>
    decreases c.len() - p,
{
    if p < 0 || p >= c.len() {
        Seq::empty()
    } else if c[p] == '{' && (p == 0 || c[p - 1] != '\\') {
        match matching_brace(c.subrange(p, c.len() as int)) {
            Some(k) => if 0 < k && p + k < c.len() {
                seq![interpolation_kind(c.subrange(p + 1, p + k))] + interpolation_kinds(c, p + k + 1)
            } else {
                interpolation_kinds(c, p + 1)
            },
            None => interpolation_kinds(c, p + 1),
        }
    } else {
        interpolation_kinds(c, p + 1)
    }
}

/// The dynamic parts of a template's text: first its event handlers, then
/// its interpolations, numbered in that order.
pub open spec fn dynamic_kinds(c: Seq<char>) -> Seq<KindModel> {
    handler_events(c, 0).map_values(|e: Seq<char>| KindModel::EventHandler(e)) + interpolation_kinds(
        c,
        0,
    )
}

// ----------------------------------------------------------------------------
// Extraction
// ----------------------------------------------------------------------------

/// Whether `c` is whitespace.
fn space(c: char) -> (r: bool)
    ensures
        r == is_space(c),
{
    c == ' ' || c == '\t' || c == '\n' || c == '\r' || c == '\u{000B}' || c == '\u{000C}'
        || c == '\u{0085}' || c == '\u{00A0}' || c == '\u{1680}' || ('\u{2000}' <= c && c
        <= '\u{200A}') || c == '\u{2028}' || c == '\u{2029}' || c == '\u{202F}' || c == '\u{205F}'
        || c == '\u{3000}'
}

proof fn lemma_leading_step(t: Seq<char>, i: int)
    requires
        0 <= i < t.len(),
        is_space(t[i]),
    ensures
        leading_space(t.subrange(i, t.len() as int)) == 1 + leading_space(t.subrange(i + 1, t.len() as int)),
{
    assert(t.subrange(i, t.len() as int).drop_first() =~= t.subrange(i + 1, t.len() as int));
}

proof fn lemma_trailing_step(t: Seq<char>, j: int)
    requires
        0 <= j < t.len(),
        is_space(t[t.len() - 1 - j]),
    ensures
        trailing_space(t.subrange(0, t.len() - j)) == 1 + trailing_space(t.subrange(0, t.len() - j - 1)),
{
    assert(t.subrange(0, t.len() - j).drop_last() =~= t.subrange(0, t.len() - j - 1));
}

proof fn lemma_trailing_bound(t: Seq<char>, a: int)
    requires
        0 <= a < t.len(),
        !is_space(t[a]),
    ensures
        trailing_space(t) <= t.len() - a - 1,
    decreases t.len(),
{
    if is_space(t.last()) {
        assert(a != t.len() - 1);
        lemma_trailing_bound(t.drop_last(), a);
    }
}

/// The kind of an interpolation from its inside.
fn kind_of(inner: &[char]) -> (r: DynamicKind)
    ensures
        kind_model(r) == interpolation_kind(inner@),
{
    let n = inner.len();
    let ghost t = inner@;
    let mut a: usize = 0;
    assert(t.subrange(0, n as int) =~= t);
    while a < n && space(inner[a])
        invariant
            a <= n == t.len(),
            t == inner@,
            leading_space(t) == a + leading_space(t.subrange(a as int, n as int)),
        decreases n - a,
    {
        proof {
            lemma_leading_step(t, a as int);
        }
        a = a + 1;
    }
    proof {
        if a < n {
            assert(!is_space(t.subrange(a as int, n as int)[0]));
        }
        assert(leading_space(t) == a);
    }
    if a >= n {
        proof {
            assert(trimmed(t) =~= Seq::<char>::empty());
            reveal_strlit("if ");
            reveal_strlit("for ");
        }
        return DynamicKind::Expression;
    }
    let mut b: usize = 0;
    while b < n - a && space(inner[n - 1 - b])
        invariant
            a < n == t.len(),
            t == inner@,
            b <= n - a,
            trailing_space(t) == b + trailing_space(t.subrange(0, n - b)),
        decreases n - a - b,
    {
        proof {
            lemma_trailing_step(t, b as int);
        }
        b = b + 1;
    }
    proof {
        lemma_trailing_bound(t, a as int);
        if b < n - a {
            assert(t.subrange(0, n - b).last() == t[n - 1 - b]);
        } else {
            assert(trailing_space(t) <= n - a - 1);
        }
        assert(trailing_space(t) == b);
    }
    let mut trimmed_chars: Vec<char> = Vec::new();
    let mut k: usize = a;
    while k < n - b
        invariant
            a <= k <= n - b,
            b <= n - a,
            t == inner@,
            n == t.len(),
            trimmed_chars@ == t.subrange(a as int, k as int),
        decreases n - b - k,
    {
        trimmed_chars.push(inner[k]);
        k = k + 1;
    }
    assert(trimmed_chars@ == trimmed(t));
    if crate::text::starts_with_str(trimmed_chars.as_slice(), "if ") {
        DynamicKind::Conditional
    } else if crate::text::starts_with_str(trimmed_chars.as_slice(), "for ") {
        DynamicKind::Loop
    } else {
        DynamicKind::Expression
    }
}

/// Whether `axm-` starts at `p`.
fn is_handler_at(c: &[char], p: usize) -> (r: bool)
    requires
        p <= c.len(),
    ensures
        r == handler_at(c@, p as int),
{
    if c.len() - p < 4 {
        return false;
    }
    let r = c[p] == 'a' && c[p + 1] == 'x' && c[p + 2] == 'm' && c[p + 3] == '-';
    proof {
        reveal_strlit("axm-");
        if r {
            assert(c@.subrange(p as int, p + 4) =~= "axm-"@);
        } else if c@.subrange(p as int, p + 4) == "axm-"@ {
            assert(c@.subrange(p as int, p + 4)[0] == c@[p as int]);
            assert(c@.subrange(p as int, p + 4)[1] == c@[p + 1]);
            assert(c@.subrange(p as int, p + 4)[2] == c@[p + 2]);
            assert(c@.subrange(p as int, p + 4)[3] == c@[p + 3]);
        }
    }
    r
}

/// The first `=` at or after `p`.
fn find_equals(c: &[char], p: usize) -> (r: Option<usize>)
    requires
        p <= c.len(),
    ensures
        match r {
            Some(e) => next_equals(c@, p as int) == Some(e as int) && p <= e < c.len() && c@[e as int]
                == '=',
            None => next_equals(c@, p as int) is None,
        },
{
    let mut i: usize = p;
    while i < c.len()
        invariant
            p <= i <= c@.len(),
            next_equals(c@, p as int) == next_equals(c@, i as int),
        decreases c@.len() - i,
    {
        if c[i] == '=' {
            return Some(i);
        }
        i = i + 1;
    }
    None
}

/// The characters from `a` up to `b`, as a string.
fn text_between(c: &[char], a: usize, b: usize) -> (r: String)
    requires
        a <= b <= c.len(),
    ensures
        r@ == c@.subrange(a as int, b as int),
{
    let mut r = String::new();
    let mut k: usize = a;
    while k < b
        invariant
            a <= k <= b <= c@.len(),
            r@ == c@.subrange(a as int, k as int),
        decreases b - k,
    {
        crate::text::push_char(&mut r, c[k]);
        k = k + 1;
    }
    r
}

/// The kinds of parts are listed by `kinds`, and each part's index is its
/// position.
pub open spec fn parts_listed(parts: Seq<DynamicPart>, kinds: Seq<KindModel>) -> bool {
    &&& parts.len() == kinds.len()
    &&& forall|i: int|
        0 <= i < parts.len() ==> (#[trigger] parts[i]).index == i && kind_model(parts[i].kind)
            == kinds[i]
}

/// Extract dynamic parts from template content: first each `axm-<event>=`
/// event handler, then each `{ ... }` interpolation (conditional, loop or
/// expression), numbered in that order.
pub fn extract_dynamic_parts(content: &str) -> (r: Vec<DynamicPart>)
    ensures
        parts_listed(r@, dynamic_kinds(content@)),
{
    let cv = str_chars(content);
    let c = cv.as_slice();
    let ghost cs = c@;
    let n = c.len();
    let mut parts: Vec<DynamicPart> = Vec::new();
    let mut index: usize = 0;
    let ghost events_total = handler_events(cs, 0);
    let ghost mut events_seen: Seq<Seq<char>> = Seq::empty();
    let mut p: usize = 0;
    while p < n
        invariant
            cs == c@,
            n == cs.len(),
            p <= n,
            index == parts@.len(),
            index <= p / 4,
            events_seen + handler_events(cs, p as int) == events_total,
            parts_listed(parts@, events_seen.map_values(|e: Seq<char>| KindModel::EventHandler(e))),
        decreases n - p,
    {
        if is_handler_at(c, p) {
            match find_equals(c, p) {
                Some(e) => {
                    proof {
                        reveal_strlit("axm-");
                        let w = cs.subrange(p as int, p + 4);
                        assert(w == "axm-"@);
                        if e < p + 4 {
                            assert(cs[e as int] == w[e - p]);
                            assert(w[e - p] != '=');
                        }
                    }
                    let event = text_between(c, p + 4, e);
                    let ghost before = parts@;
                    parts.push(DynamicPart { index, kind: DynamicKind::EventHandler { event } });
                    proof {
                        let ev = cs.subrange(p + 4, e as int);
                        assert(events_seen.push(ev) + handler_events(cs, p + 4) =~= events_seen + handler_events(cs, p as int));
                        events_seen = events_seen.push(ev);
                        assert forall|i: int| 0 <= i < parts@.len() implies (#[trigger] parts@[i]).index == i
                            && kind_model(parts@[i].kind) == events_seen.map_values(
                            |x: Seq<char>| KindModel::EventHandler(x))[i] by {
                            if i < before.len() {
                                assert(parts@[i] == before[i]);
                            }
                        }
                    }
                    index = index + 1;
                },
                None => {},
            }
            p = p + 4;
        } else {
            p = p + 1;
        }
    }
    let ghost handler_part = events_seen.map_values(|e: Seq<char>| KindModel::EventHandler(e));
    assert(events_seen == events_total);
    let ghost kinds_total = interpolation_kinds(cs, 0);
    let ghost mut kinds_seen: Seq<KindModel> = Seq::empty();
    let mut q: usize = 0;
    while q < n
        invariant
            cs == c@,
            n == cs.len(),
            q <= n,
            index == parts@.len(),
            index <= n / 4 + q / 2,
            kinds_seen + interpolation_kinds(cs, q as int) == kinds_total,
            handler_part == handler_events(cs, 0).map_values(|e: Seq<char>| KindModel::EventHandler(e)),
            parts_listed(parts@, handler_part + kinds_seen),
        decreases n - q,
    {
        if c[q] == '{' && (q == 0 || c[q - 1] != '\\') {
            match find_matching_brace(c, q) {
                Some(k) => {
                    if 0 < k {
                        let mut inner: Vec<char> = Vec::new();
                        let mut m: usize = q + 1;
                        while m < q + k
                            invariant
                                q + 1 <= m <= q + k < n,
                                n == cs.len(),
                                cs == c@,
                                inner@ == cs.subrange(q + 1, m as int),
                            decreases q + k - m,
                        {
                            inner.push(c[m]);
                            m = m + 1;
                        }
                        let kind = kind_of(inner.as_slice());
                        let ghost before = parts@;
                        parts.push(DynamicPart { index, kind });
                        proof {
                            let km = interpolation_kind(cs.subrange(q + 1, q + k));
                            assert(cs.subrange(q as int, n as int) =~= cs.subrange(q as int, cs.len() as int));
                            assert(kinds_seen.push(km) + interpolation_kinds(cs, q + k + 1) =~= kinds_seen
                                + interpolation_kinds(cs, q as int));
                            kinds_seen = kinds_seen.push(km);
                            assert forall|i: int| 0 <= i < parts@.len() implies (#[trigger] parts@[i]).index == i
                                && kind_model(parts@[i].kind) == (handler_part + kinds_seen)[i] by {
                                if i < before.len() {
                                    assert(parts@[i] == before[i]);
                                }
                            }
                        }
                        index = index + 1;
                        q = q + k + 1;
                    } else {
                        q = q + 1;
                    }
                },
                None => {
                    q = q + 1;
                },
            }
        } else {
            q = q + 1;
        }
    }
    parts
}

// ----------------------------------------------------------------------------
// Templates of a file
// ----------------------------------------------------------------------------

/// A macro call found in Rust source: the identifiers of its path, where it
/// starts, and its tokens as text.
pub struct MacroCall {
    pub path: Vec<String>,
    pub line: u32,
    pub column: u32,
    pub tokens: String,
}

/// A macro path names a template macro: `html`, `view`,
/// `axum_live_view::html` or `shipwright_liveview::view`.
pub open spec fn template_macro_path(path: Seq<Seq<char>>) -> bool {
    ||| path.len() == 1 && (path[0] == "html"@ || path[0] == "view"@)
    ||| path.len() == 2 && ((path[0] == "axum_live_view"@ && path[1] == "html"@) || (path[0]
        == "shipwright_liveview"@ && path[1] == "view"@))
}

/// Whether a macro path names a template macro.
pub fn is_view_macro(path: &Vec<String>) -> (r: bool)
    ensures
        r == template_macro_path(texts(path@)),
{
    if path.len() == 1 {
        let a = str_chars(path[0].as_str());
        crate::paths::chars_eq_str(a.as_slice(), "html") || crate::paths::chars_eq_str(a.as_slice(), "view")
    } else if path.len() == 2 {
        let a = str_chars(path[0].as_str());
        let b = str_chars(path[1].as_str());
        (crate::paths::chars_eq_str(a.as_slice(), "axum_live_view") && crate::paths::chars_eq_str(
            b.as_slice(),
            "html",
        )) || (crate::paths::chars_eq_str(a.as_slice(), "shipwright_liveview")
            && crate::paths::chars_eq_str(b.as_slice(), "view"))
    } else {
        false
    }
}

/// An extracted template: where it is and its text.
pub struct ExtractedTemplate {
    pub id: TemplateId,
    pub content: String,
}

/// Parser for extracting templates from Rust source files
pub struct TemplateParser {
    /// Current file being parsed
    file_path: String,
    /// Extracted templates
    templates: Vec<ExtractedTemplate>,
}

/// The update a template makes: its identifier and hash, its text as HTML,
/// its dynamic parts and the hash of both.
pub open spec fn update_of(u: TemplateUpdate, id: TemplateId, content: Seq<char>) -> bool {
    &&& u.id == id
    &&& u.hash@ == blake3_hex_digest(id.id_bytes())
    &&& u.html@ == content
    &&& parts_listed(u.dynamic_parts@, dynamic_kinds(content))
    &&& u.content_hash@ == blake3_hex_digest(content_bytes(content, u.dynamic_parts@))
}

impl TemplateParser {
    /// The file the templates are in.
    pub closed spec fn file_path(&self) -> Seq<char> {
        self.file_path@
    }

    /// The templates extracted so far, in the order found.
    pub closed spec fn templates(&self) -> Seq<(TemplateId, Seq<char>)> {
        self.templates@.map_values(|t: ExtractedTemplate| (t.id, t.content@))
    }

    /// Create a new template parser
    pub fn new(file_path: &str) -> (r: Self)
        ensures
            r.file_path() == file_path@,
            r.templates().len() == 0,
    {
        TemplateParser { file_path: file_path.to_owned(), templates: Vec::new() }
    }

    /// Take note of a macro call: a template macro becomes a template
    /// identified by the file and its position; other macros are passed
    /// over.
    pub fn visit_macro(&mut self, call: MacroCall)
        ensures
            final(self).file_path() == old(self).file_path(),
            template_macro_path(texts(call.path@)) ==> {
                &&& final(self).templates().len() == old(self).templates().len() + 1
                &&& final(self).templates().drop_last() == old(self).templates()
                &&& final(self).templates().last().0.file@ == old(self).file_path()
                &&& final(self).templates().last().0.line == call.line
                &&& final(self).templates().last().0.column == call.column
                &&& final(self).templates().last().1 == call.tokens@
            },
            !template_macro_path(texts(call.path@)) ==> final(self).templates() == old(self).templates(),
    {
        if is_view_macro(&call.path) {
            let id = TemplateId::new(self.file_path.clone(), call.line, call.column);
            let ghost before = self.templates@;
            self.templates.push(ExtractedTemplate { id, content: call.tokens });
            assert(self.templates().drop_last() =~= before.map_values(|t: ExtractedTemplate| (t.id, t.content@)));
        }
    }
}

/// The template update made by the template `id` with text `content`.
pub fn process_template(id: &TemplateId, content: &String) -> (r: TemplateUpdate)
    ensures
        update_of(r, *id, content@),
{
    let dynamic_parts = extract_dynamic_parts(content.as_str());
    let html = content.clone();
    let content_hash = TemplateUpdate::compute_content_hash(html.as_str(), dynamic_parts.as_slice());
    TemplateUpdate { id: id.duplicate(), hash: id.hash(), content_hash, html, dynamic_parts }
}

impl TemplateParser {
    /// The updates of the templates extracted so far, in the order found.
    pub fn updates(&self) -> (r: Vec<TemplateUpdate>)
        ensures
            r@.len() == self.templates().len(),
            forall|i: int|
                0 <= i < r@.len() ==> update_of(
                    #[trigger] r@[i],
                    self.templates()[i].0,
                    self.templates()[i].1,
                ),
    {
        let mut r: Vec<TemplateUpdate> = Vec::new();
        let mut i: usize = 0;
        while i < self.templates.len()
            invariant
                i <= self.templates@.len(),
                r@.len() == i,
                forall|j: int|
                    0 <= j < i ==> update_of(
                        #[trigger] r@[j],
                        self.templates()[j].0,
                        self.templates()[j].1,
                    ),
            decreases self.templates@.len() - i,
        {
            let t = &self.templates[i];
            let u = process_template(&t.id, &t.content);
            r.push(u);
            i = i + 1;
        }
        r
    }
}

} // verus!
