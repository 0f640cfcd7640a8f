//! The workspace of a Shipwright project as cargo describes it: its member
//! packages, the package being built, its targets and dependencies, and the
//! paths to watch and to ignore. Asking cargo is left to the caller, which
//! hands over what cargo reported as plain values.

use vstd::prelude::*;

use crate::build_command::{build_env, build_env_of, join_path, join_path_exec};
use crate::config::{text_pairs, BuildConfig, HotReloadConfig};
use crate::keyed::{lemma_put, put, unique_keys};
use crate::paths::{components, path_components, path_starts_with, starts_with};
use crate::text::{copy_texts, has_text, push_str, texts};
use crate::text_order::{chars_le, lemma_le_antisymmetric, lemma_le_total, lemma_le_transitive, text_le};
use crate::paths::chars_eq;

verus! {

// ----------------------------------------------------------------------------
// The order of paths
// ----------------------------------------------------------------------------

/// The kind of a component, in the order std orders them: a root, the
/// current directory, the parent directory, then names.
pub open spec fn component_rank(c: Seq<char>) -> nat {
    if c == "/"@ {
        0
    } else if c == "."@ {
        1
    } else if c == ".."@ {
        2
    } else {
        3
    }
}

/// Component `a` comes before component `b`: by kind, and names by their
/// text.
pub open spec fn component_lt(a: Seq<char>, b: Seq<char>) -> bool {
    if component_rank(a) != component_rank(b) {
        component_rank(a) < component_rank(b)
    } else {
        component_rank(a) == 3 && a != b && text_le(a, b)
    }
}

/// Components `a` come before components `b`, comparing them one by one; a
/// proper prefix comes first. This is how std orders paths.
pub open spec fn comps_lt(a: Seq<Seq<char>>, b: Seq<Seq<char>>) -> bool
    decreases a.len(),
{
    if b.len() == 0 {
        false
    } else if a.len() == 0 {
        true
    } else if a[0] == b[0] {
        comps_lt(a.drop_first(), b.drop_first())
    } else {
        component_lt(a[0], b[0])
    }
}

proof fn lemma_component_lt_transitive(a: Seq<char>, b: Seq<char>, c: Seq<char>)
    requires
        component_lt(a, b),
        component_lt(b, c),
    ensures
        component_lt(a, c),
{
    if component_rank(a) == 3 && component_rank(b) == 3 && component_rank(c) == 3 {
        lemma_le_transitive(a, b, c);
        if a == c {
            lemma_le_antisymmetric(a, b);
        }
    }
}

proof fn lemma_component_lt_connected(a: Seq<char>, b: Seq<char>)
    requires
        a != b,
    ensures
        component_lt(a, b) || component_lt(b, a),
{
    if component_rank(a) == 3 && component_rank(b) == 3 {
        lemma_le_total(a, b);
    }
}

proof fn lemma_comps_lt_irreflexive(a: Seq<Seq<char>>)
    ensures
        !comps_lt(a, a),
    decreases a.len(),
{
    if a.len() > 0 {
        lemma_comps_lt_irreflexive(a.drop_first());
    }
}

proof fn lemma_comps_lt_transitive(a: Seq<Seq<char>>, b: Seq<Seq<char>>, c: Seq<Seq<char>>)
    requires
        comps_lt(a, b),
        comps_lt(b, c),
    ensures
        comps_lt(a, c),
    decreases a.len(),
{
    if a.len() > 0 && b.len() > 0 && c.len() > 0 {
        if a[0] == b[0] && b[0] == c[0] {
            lemma_comps_lt_transitive(a.drop_first(), b.drop_first(), c.drop_first());
        } else if a[0] != b[0] && b[0] != c[0] {
            lemma_component_lt_transitive(a[0], b[0], c[0]);
            if a[0] == c[0] {
                lemma_component_lt_transitive(b[0], a[0], b[0]);
            }
        }
    }
}

proof fn lemma_comps_lt_connected(a: Seq<Seq<char>>, b: Seq<Seq<char>>)
    requires
        a != b,
    ensures
        comps_lt(a, b) || comps_lt(b, a),
    decreases a.len(),
{
    if a.len() > 0 && b.len() > 0 {
        if a[0] == b[0] {
            if a.drop_first() == b.drop_first() {
                assert(a =~= seq![a[0]] + a.drop_first());
                assert(b =~= seq![b[0]] + b.drop_first());
            }
            lemma_comps_lt_connected(a.drop_first(), b.drop_first());
        } else {
            lemma_component_lt_connected(a[0], b[0]);
        }
    } else if a.len() == 0 && b.len() == 0 {
        assert(a =~= b);
    }
}

/// The text of each component.
pub open spec fn comp_texts(v: Seq<Vec<char>>) -> Seq<Seq<char>> {
    v.map_values(|c: Vec<char>| c@)
}

/// Whether component `a` comes before component `b`.
fn component_lt_exec(a: &Vec<char>, b: &Vec<char>) -> (r: bool)
    ensures
        r == component_lt(a@, b@),
{
    let ra = rank_of(a);
    let rb = rank_of(b);
    if ra != rb {
        ra < rb
    } else {
        ra == 3 && !chars_eq(a.as_slice(), b.as_slice()) && chars_le(a, b)
    }
}

/// The kind of a component.
fn rank_of(c: &Vec<char>) -> (r: u8)
    ensures
        r == component_rank(c@),
{
    if crate::paths::chars_eq_str(c.as_slice(), "/") {
        0
    } else if crate::paths::chars_eq_str(c.as_slice(), ".") {
        1
    } else if crate::paths::chars_eq_str(c.as_slice(), "..") {
        2
    } else {
        3
    }
}

/// Whether components `a` come before components `b`.
fn comps_lt_exec(a: &Vec<Vec<char>>, b: &Vec<Vec<char>>) -> (r: bool)
    ensures
        r == comps_lt(comp_texts(a@), comp_texts(b@)),
{
    let ghost x = comp_texts(a@);
    let ghost y = comp_texts(b@);
    let mut i: usize = 0;
    assert(x.skip(0) =~= x);
    assert(y.skip(0) =~= y);
    while i < a.len() && i < b.len() && chars_eq(a[i].as_slice(), b[i].as_slice())
        invariant
            i <= a@.len(),
            i <= b@.len(),
            x == comp_texts(a@),
            y == comp_texts(b@),
            comps_lt(x, y) == comps_lt(x.skip(i as int), y.skip(i as int)),
        decreases a@.len() - i,
    {
        proof {
            assert(x.skip(i as int).drop_first() =~= x.skip(i + 1));
            assert(y.skip(i as int).drop_first() =~= y.skip(i + 1));
            assert(x.skip(i as int)[0] == y.skip(i as int)[0]);
        }
        i = i + 1;
    }
    if i == b.len() {
        assert(y.skip(i as int).len() == 0);
        false
    } else if i == a.len() {
        assert(x.skip(i as int).len() == 0);
        true
    } else {
        assert(x.skip(i as int)[0] == a@[i as int]@);
        assert(y.skip(i as int)[0] == b@[i as int]@);
        component_lt_exec(&a[i], &b[i])
    }
}

/// Whether the components `a` and `b` are the same.
fn comps_eq_exec(a: &Vec<Vec<char>>, b: &Vec<Vec<char>>) -> (r: bool)
    ensures
        r == (comp_texts(a@) == comp_texts(b@)),
{
    if a.len() != b.len() {
        return false;
    }
    let mut i: usize = 0;
    while i < a.len()
        invariant
            a@.len() == b@.len(),
            i <= a@.len(),
            forall|j: int| 0 <= j < i ==> a@[j]@ == b@[j]@,
        decreases a@.len() - i,
    {
        if !chars_eq(a[i].as_slice(), b[i].as_slice()) {
            assert(comp_texts(a@)[i as int] != comp_texts(b@)[i as int]);
            return false;
        }
        i = i + 1;
    }
    assert(comp_texts(a@) =~= comp_texts(b@));
    true
}

/// The position of the first of `ps` with components `c`, or -1.
pub open spec fn first_index(ps: Seq<Seq<char>>, c: Seq<Seq<char>>) -> int
    decreases ps.len(),
{
    if ps.len() == 0 {
        -1
    } else {
        let f = first_index(ps.drop_last(), c);
        if f >= 0 {
            f
        } else if path_components(ps.last()) == c {
            ps.len() - 1
        } else {
            -1
        }
    }
}

/// Some path of `r` has components `c`.
pub open spec fn listed(r: Seq<Seq<char>>, c: Seq<Seq<char>>) -> bool {
    exists|k: int| 0 <= k < r.len() && #[trigger] path_components(r[k]) == c
}

/// `r` is in std's order of paths, no two with equal components.
pub open spec fn sorted_paths(r: Seq<Seq<char>>) -> bool {
    forall|i: int, j: int|
        0 <= i < j < r.len() ==> comps_lt(path_components(#[trigger] r[i]), path_components(#[trigger] r[j]))
}

/// `r` lists the paths of `ps` in std's order of paths, each path once by
/// its components, each as the first of `ps` with those components.
pub open spec fn sorted_unique_paths_of(r: Seq<Seq<char>>, ps: Seq<Seq<char>>) -> bool {
    &&& sorted_paths(r)
    &&& forall|k: int|
        0 <= k < r.len() ==> first_index(ps, path_components(#[trigger] r[k])) >= 0 && ps[first_index(
            ps,
            path_components(r[k]),
        )] == r[k]
    &&& forall|a: int| 0 <= a < ps.len() ==> listed(r, path_components(#[trigger] ps[a]))
}

/// The first index is a position with those components, and there is one
/// wherever some path has them.
proof fn lemma_first_index(ps: Seq<Seq<char>>, c: Seq<Seq<char>>)
    ensures
        first_index(ps, c) >= 0 ==> first_index(ps, c) < ps.len() && path_components(ps[first_index(ps, c)]) == c,
        (exists|a: int| 0 <= a < ps.len() && path_components(ps[a]) == c) ==> first_index(ps, c) >= 0,
        first_index(ps, c) >= -1,
    decreases ps.len(),
{
    if ps.len() > 0 {
        let q = ps.drop_last();
        lemma_first_index(q, c);
        if first_index(q, c) >= 0 {
            assert(ps[first_index(q, c)] == q[first_index(q, c)]);
        }
        if exists|a: int| 0 <= a < ps.len() && path_components(ps[a]) == c {
            let a = choose|a: int| 0 <= a < ps.len() && path_components(ps[a]) == c;
            if a < q.len() {
                assert(q[a] == ps[a]);
            }
        }
    }
}

/// The paths sorted as std sorts them, then with neighbours of equal
/// components kept once.
pub fn sort_dedup_paths(ps: &Vec<String>) -> (r: Vec<String>)
    ensures
        sorted_unique_paths_of(texts(r@), texts(ps@)),
{
    let mut r: Vec<String> = Vec::new();
    let mut keys: Vec<Vec<Vec<char>>> = Vec::new();
    let ghost input = texts(ps@);
    let mut n: usize = 0;
    while n < ps.len()
        invariant
            n <= ps@.len(),
            input == texts(ps@),
            keys@.len() == r@.len(),
            forall|k: int| 0 <= k < r@.len() ==> comp_texts(#[trigger] keys@[k]@) == path_components(r@[k]@),
            sorted_unique_paths_of(texts(r@), input.subrange(0, n as int)),
        decreases ps@.len() - n,
    {
        let key = components(ps[n].as_str());
        let ghost kt = comp_texts(key@);
        let ghost pre = input.subrange(0, n as int);
        let ghost rv = texts(r@);
        let mut p: usize = 0;
        while p < r.len() && comps_lt_exec(&keys[p], &key)
            invariant
                p <= r@.len(),
                keys@.len() == r@.len(),
                rv == texts(r@),
                kt == comp_texts(key@),
                forall|k: int| 0 <= k < r@.len() ==> comp_texts(#[trigger] keys@[k]@) == path_components(r@[k]@),
                forall|k: int| 0 <= k < p ==> comps_lt(path_components(#[trigger] rv[k]), kt),
            decreases r@.len() - p,
        {
            assert(comp_texts(keys@[p as int]@) == path_components(rv[p as int]));
            p = p + 1;
        }
        assert(input.subrange(0, n + 1) =~= pre.push(ps@[n as int]@));
        if p < r.len() && comps_eq_exec(&keys[p], &key) {
            proof {
                assert(comp_texts(keys@[p as int]@) == path_components(rv[p as int]));
                lemma_repeat_kept(rv, pre, ps@[n as int]@, p as int);
            }
        } else {
            proof {
                if p < r@.len() {
                    assert(comp_texts(keys@[p as int]@) == path_components(rv[p as int]));
                    lemma_comps_lt_connected(kt, path_components(rv[p as int]));
                }
                lemma_new_inserted(rv, pre, ps@[n as int]@, p as int);
            }
            let ghost old_keys = keys@;
            let ghost old_r = r@;
            r.insert(p, ps[n].clone());
            keys.insert(p, key);
            proof {
                assert(texts(r@) =~= rv.insert(p as int, ps@[n as int]@));
                assert forall|k: int| 0 <= k < r@.len() implies comp_texts(#[trigger] keys@[k]@) == path_components(r@[k]@) by {
                    if k < p {
                        assert(keys@[k] == old_keys[k] && r@[k] == old_r[k]);
                    } else if k > p {
                        assert(keys@[k] == old_keys[k - 1] && r@[k] == old_r[k - 1]);
                    }
                }
            }
        }
        n = n + 1;
    }
    assert(input.subrange(0, n as int) =~= input);
    r
}

/// A path whose components are listed already leaves the list as it is.
proof fn lemma_repeat_kept(rv: Seq<Seq<char>>, pre: Seq<Seq<char>>, x: Seq<char>, p: int)
    requires
        sorted_unique_paths_of(rv, pre),
        0 <= p < rv.len(),
        path_components(rv[p]) == path_components(x),
    ensures
        sorted_unique_paths_of(rv, pre.push(x)),
{
    let pre2 = pre.push(x);
    assert(pre2.drop_last() =~= pre);
    assert forall|k: int| 0 <= k < rv.len() implies first_index(pre2, path_components(#[trigger] rv[k])) >= 0
        && pre2[first_index(pre2, path_components(rv[k]))] == rv[k] by {
        let c = path_components(rv[k]);
        lemma_first_index(pre, c);
        assert(pre2[first_index(pre, c)] == pre[first_index(pre, c)]);
    }
    assert forall|a: int| 0 <= a < pre2.len() implies listed(rv, path_components(#[trigger] pre2[a])) by {
        if a < pre.len() {
            assert(pre2[a] == pre[a]);
        } else {
            assert(pre2[a] == x);
            assert(path_components(rv[p]) == path_components(pre2[a]));
        }
    }
}

/// A path with components not listed yet goes in where the order puts it.
proof fn lemma_new_inserted(rv: Seq<Seq<char>>, pre: Seq<Seq<char>>, x: Seq<char>, p: int)
    requires
        sorted_unique_paths_of(rv, pre),
        0 <= p <= rv.len(),
        forall|k: int| 0 <= k < p ==> comps_lt(path_components(#[trigger] rv[k]), path_components(x)),
        p < rv.len() ==> comps_lt(path_components(x), path_components(rv[p])),
    ensures
        sorted_unique_paths_of(rv.insert(p, x), pre.push(x)),
{
    let kt = path_components(x);
    let rv2 = rv.insert(p, x);
    let pre2 = pre.push(x);
    assert(pre2.drop_last() =~= pre);
    assert forall|i: int, j: int| 0 <= i < j < rv2.len() implies comps_lt(path_components(#[trigger] rv2[i]), path_components(#[trigger] rv2[j])) by {
        if j < p {
            assert(rv2[i] == rv[i] && rv2[j] == rv[j]);
        } else if j == p {
            assert(rv2[i] == rv[i]);
        } else if i < p {
            assert(rv2[i] == rv[i] && rv2[j] == rv[j - 1]);
            lemma_comps_lt_transitive(path_components(rv[i]), kt, path_components(rv[p]));
            if j - 1 > p {
                lemma_comps_lt_transitive(path_components(rv[i]), path_components(rv[p]), path_components(rv[j - 1]));
            }
        } else if i == p {
            assert(rv2[j] == rv[j - 1]);
            if j - 1 > p {
                lemma_comps_lt_transitive(kt, path_components(rv[p]), path_components(rv[j - 1]));
            }
        } else {
            assert(rv2[i] == rv[i - 1] && rv2[j] == rv[j - 1]);
        }
    }
    // no path before has the new components
    assert(first_index(pre, kt) < 0) by {
        lemma_first_index(pre, kt);
        if first_index(pre, kt) >= 0 {
            let f = first_index(pre, kt);
            assert(listed(rv, path_components(pre[f])));
            let m = choose|m: int| 0 <= m < rv.len() && #[trigger] path_components(rv[m]) == path_components(pre[f]);
            lemma_comps_lt_irreflexive(kt);
            if m > p {
                lemma_comps_lt_transitive(kt, path_components(rv[p]), path_components(rv[m]));
            }
        }
    }
    assert forall|k: int| 0 <= k < rv2.len() implies first_index(pre2, path_components(#[trigger] rv2[k])) >= 0
        && pre2[first_index(pre2, path_components(rv2[k]))] == rv2[k] by {
        if k == p {
            assert(rv2[k] == x);
            assert(first_index(pre2, kt) == pre.len());
        } else {
            let kk = if k < p { k } else { k - 1 };
            assert(rv2[k] == rv[kk]);
            let c = path_components(rv[kk]);
            lemma_first_index(pre, c);
            assert(pre2[first_index(pre, c)] == pre[first_index(pre, c)]);
        }
    }
    assert forall|a: int| 0 <= a < pre2.len() implies listed(rv2, path_components(#[trigger] pre2[a])) by {
        if a < pre.len() {
            assert(pre2[a] == pre[a]);
            assert(listed(rv, path_components(pre[a])));
            let k = choose|k: int| 0 <= k < rv.len() && #[trigger] path_components(rv[k]) == path_components(pre[a]);
            let kk = if k < p { k } else { k + 1 };
            assert(rv2[kk] == rv[k]);
        } else {
            assert(rv2[p] == x);
            assert(pre2[a] == x);
        }
    }
}

// ----------------------------------------------------------------------------
// Packages and targets
// ----------------------------------------------------------------------------

/// A build target of a package.
pub struct TargetInfo {
    pub name: String,
    pub kind: Vec<String>,
    pub src_path: String,
}

/// A package as cargo describes it, with whether its `src` and `assets`
/// directories exist.
pub struct PackageInfo {
    pub id: String,
    pub name: String,
    /// The directory of the package's manifest
    pub manifest_dir: String,
    pub targets: Vec<TargetInfo>,
    /// The names of the packages it depends on
    pub dependencies: Vec<String>,
    pub has_src_dir: bool,
    pub has_assets_dir: bool,
}

pub struct TargetModel {
    pub name: Seq<char>,
    pub kind: Seq<Seq<char>>,
    pub src_path: Seq<char>,
}

pub struct PackageModel {
    pub id: Seq<char>,
    pub name: Seq<char>,
    pub manifest_dir: Seq<char>,
    pub targets: Seq<TargetModel>,
    pub dependencies: Seq<Seq<char>>,
    pub has_src_dir: bool,
    pub has_assets_dir: bool,
}

impl View for TargetInfo {
    type V = TargetModel;

    open spec fn view(&self) -> TargetModel {
        TargetModel { name: self.name@, kind: texts(self.kind@), src_path: self.src_path@ }
    }
}

impl View for PackageInfo {
    type V = PackageModel;

    open spec fn view(&self) -> PackageModel {
        PackageModel {
            id: self.id@,
            name: self.name@,
            manifest_dir: self.manifest_dir@,
            targets: self.targets@.map_values(|t: TargetInfo| t@),
            dependencies: texts(self.dependencies@),
            has_src_dir: self.has_src_dir,
            has_assets_dir: self.has_assets_dir,
        }
    }
}

impl TargetInfo {
    /// A copy of this target.
    pub fn duplicate(&self) -> (r: Self)
        ensures
            r@ == self@,
    {
        TargetInfo { name: self.name.clone(), kind: copy_texts(&self.kind), src_path: self.src_path.clone() }
    }
}

impl PackageInfo {
    /// A copy of this package.
    pub fn duplicate(&self) -> (r: Self)
        ensures
            r@ == self@,
    {
        let mut targets: Vec<TargetInfo> = Vec::new();
        let mut i: usize = 0;
        while i < self.targets.len()
            invariant
                i <= self.targets@.len(),
                targets@.len() == i,
                forall|j: int| 0 <= j < i ==> (#[trigger] targets@[j])@ == self.targets@[j]@,
            decreases self.targets@.len() - i,
        {
            targets.push(self.targets[i].duplicate());
            i = i + 1;
        }
        assert(targets@.map_values(|t: TargetInfo| t@) =~= self.targets@.map_values(|t: TargetInfo| t@));
        PackageInfo {
            id: self.id.clone(),
            name: self.name.clone(),
            manifest_dir: self.manifest_dir.clone(),
            targets,
            dependencies: copy_texts(&self.dependencies),
            has_src_dir: self.has_src_dir,
            has_assets_dir: self.has_assets_dir,
        }
    }
}

/// The packages as models.
pub open spec fn package_models(v: Seq<PackageInfo>) -> Seq<PackageModel> {
    v.map_values(|p: PackageInfo| p@)
}

/// The position of the first package with id `id`, or -1.
pub open spec fn find_id(ps: Seq<PackageModel>, id: Seq<char>) -> int
    decreases ps.len(),
{
    if ps.len() == 0 {
        -1
    } else {
        let f = find_id(ps.drop_last(), id);
        if f >= 0 {
            f
        } else if ps.last().id == id {
            ps.len() - 1
        } else {
            -1
        }
    }
}

/// The workspace members: for each member id in turn, the first package
/// with that id, where there is one.
pub open spec fn members_of(ps: Seq<PackageModel>, ids: Seq<Seq<char>>) -> Seq<PackageModel>
    decreases ids.len(),
{
    if ids.len() == 0 {
        Seq::empty()
    } else {
        let r = members_of(ps, ids.drop_last());
        let f = find_id(ps, ids.last());
        if f >= 0 {
            r.push(ps[f])
        } else {
            r
        }
    }
}

/// The position of the first package whose directory holds `dir`, or -1.
pub open spec fn find_enclosing(ps: Seq<PackageModel>, dir: Seq<char>) -> int
    decreases ps.len(),
{
    if ps.len() == 0 {
        -1
    } else {
        let f = find_enclosing(ps.drop_last(), dir);
        if f >= 0 {
            f
        } else if path_starts_with(dir, ps.last().manifest_dir) {
            ps.len() - 1
        } else {
            -1
        }
    }
}

/// The package being built from `dir`: the first whose directory holds
/// `dir`, else the first workspace member, if there is one.
pub open spec fn target_package_of(ps: Seq<PackageModel>, ids: Seq<Seq<char>>, dir: Seq<char>) -> Option<PackageModel> {
    let e = find_enclosing(ps, dir);
    if e >= 0 {
        Some(ps[e])
    } else if ids.len() > 0 && find_id(ps, ids[0]) >= 0 {
        Some(ps[find_id(ps, ids[0])])
    } else {
        None
    }
}

proof fn lemma_find_id(ps: Seq<PackageModel>, id: Seq<char>)
    ensures
        -1 <= find_id(ps, id) < ps.len(),
    decreases ps.len(),
{
    if ps.len() > 0 {
        lemma_find_id(ps.drop_last(), id);
    }
}

proof fn lemma_find_enclosing(ps: Seq<PackageModel>, dir: Seq<char>)
    ensures
        -1 <= find_enclosing(ps, dir) < ps.len(),
    decreases ps.len(),
{
    if ps.len() > 0 {
        lemma_find_enclosing(ps.drop_last(), dir);
    }
}

/// The first package with id `id`.
fn position_of_id(ps: &Vec<PackageInfo>, id: &String) -> (r: Option<usize>)
    ensures
        match r {
            Some(i) => i == find_id(package_models(ps@), id@) && i < ps@.len(),
            None => find_id(package_models(ps@), id@) < 0,
        },
{
    let ghost m = package_models(ps@);
    let mut i: usize = 0;
    while i < ps.len()
        invariant
            i <= ps@.len(),
            m == package_models(ps@),
            find_id(m.subrange(0, i as int), id@) < 0,
        decreases ps@.len() - i,
    {
        assert(m.subrange(0, i + 1).drop_last() =~= m.subrange(0, i as int));
        if ps[i].id == *id {
            proof {
                lemma_find_id_prefix(m, id@, i + 1);
            }
            return Some(i);
        }
        i = i + 1;
    }
    assert(m.subrange(0, i as int) =~= m);
    None
}

/// Where the first match lies in a prefix, it is the first of the whole.
proof fn lemma_find_id_prefix(m: Seq<PackageModel>, id: Seq<char>, n: int)
    requires
        0 <= n <= m.len(),
        find_id(m.subrange(0, n), id) >= 0,
    ensures
        find_id(m, id) == find_id(m.subrange(0, n), id),
    decreases m.len() - n,
{
    if n < m.len() {
        assert(m.subrange(0, n + 1).drop_last() =~= m.subrange(0, n));
        lemma_find_id_prefix(m, id, n + 1);
    } else {
        assert(m.subrange(0, n) =~= m);
    }
}

/// Where the first enclosing package lies in a prefix, it is the first of
/// the whole.
proof fn lemma_find_enclosing_prefix(m: Seq<PackageModel>, dir: Seq<char>, n: int)
    requires
        0 <= n <= m.len(),
        find_enclosing(m.subrange(0, n), dir) >= 0,
    ensures
        find_enclosing(m, dir) == find_enclosing(m.subrange(0, n), dir),
    decreases m.len() - n,
{
    if n < m.len() {
        assert(m.subrange(0, n + 1).drop_last() =~= m.subrange(0, n));
        lemma_find_enclosing_prefix(m, dir, n + 1);
    } else {
        assert(m.subrange(0, n) =~= m);
    }
}

/// The package being built from `current_dir`.
pub fn detect_target_package(packages: &Vec<PackageInfo>, member_ids: &Vec<String>, current_dir: &str) -> (r: Option<PackageInfo>)
    ensures
        match r {
            Some(p) => target_package_of(package_models(packages@), texts(member_ids@), current_dir@) == Some(p@),
            None => target_package_of(package_models(packages@), texts(member_ids@), current_dir@) is None,
        },
{
    let ghost m = package_models(packages@);
    let mut i: usize = 0;
    while i < packages.len()
        invariant
            i <= packages@.len(),
            m == package_models(packages@),
            find_enclosing(m.subrange(0, i as int), current_dir@) < 0,
        decreases packages@.len() - i,
    {
        assert(m.subrange(0, i + 1).drop_last() =~= m.subrange(0, i as int));
        if starts_with(current_dir, packages[i].manifest_dir.as_str()) {
            proof {
                lemma_find_enclosing_prefix(m, current_dir@, i + 1);
            }
            return Some(packages[i].duplicate());
        }
        i = i + 1;
    }
    assert(m.subrange(0, i as int) =~= m);
    if member_ids.len() > 0 {
        match position_of_id(packages, &member_ids[0]) {
            Some(j) => {
                return Some(packages[j].duplicate());
            },
            None => {},
        }
    }
    None
}

/// Workspace detection and management for Shipwright projects
pub struct Workspace {
    pub root: String,
    pub target_package: Option<PackageInfo>,
    pub is_workspace: bool,
    pub members: Vec<PackageInfo>,
}

impl Workspace {
    /// The workspace cargo described: its root, the ids of its members, all
    /// packages, as seen from `current_dir`. It is a multi-crate workspace
    /// when it has more than one member.
    pub fn from_metadata(root: String, member_ids: Vec<String>, packages: Vec<PackageInfo>, current_dir: &str) -> (r: Self)
        ensures
            r.root == root,
            r.is_workspace == (member_ids@.len() > 1),
            package_models(r.members@) == members_of(package_models(packages@), texts(member_ids@)),
            match r.target_package {
                Some(p) => target_package_of(package_models(packages@), texts(member_ids@), current_dir@) == Some(p@),
                None => target_package_of(package_models(packages@), texts(member_ids@), current_dir@) is None,
            },
    {
        let ghost m = package_models(packages@);
        let mut members: Vec<PackageInfo> = Vec::new();
        let mut i: usize = 0;
        while i < member_ids.len()
            invariant
                i <= member_ids@.len(),
                m == package_models(packages@),
                package_models(members@) == members_of(m, texts(member_ids@.subrange(0, i as int))),
            decreases member_ids@.len() - i,
        {
            proof {
                let sub = texts(member_ids@.subrange(0, i + 1));
                assert(sub.drop_last() =~= texts(member_ids@.subrange(0, i as int)));
                assert(sub.last() == member_ids@[i as int]@);
            }
            match position_of_id(&packages, &member_ids[i]) {
                Some(j) => {
                    let ghost before = members@;
                    members.push(packages[j].duplicate());
                    assert(package_models(members@) =~= package_models(before).push(m[j as int]));
                },
                None => {},
            }
            i = i + 1;
        }
        assert(member_ids@.subrange(0, i as int) =~= member_ids@);
        let target_package = detect_target_package(&packages, &member_ids, current_dir);
        Workspace { root, target_package, is_workspace: member_ids.len() > 1, members }
    }
}

// ----------------------------------------------------------------------------
// What the workspace holds
// ----------------------------------------------------------------------------

/// The binary targets of a package named `name`: the package and target
/// names joined by `::`, with the target's source.
pub open spec fn package_binaries(name: Seq<char>, ts: Seq<TargetModel>) -> Seq<(Seq<char>, Seq<char>)>
    decreases ts.len(),
{
    if ts.len() == 0 {
        Seq::empty()
    } else {
        let r = package_binaries(name, ts.drop_last());
        if ts.last().kind.contains("bin"@) {
            r.push((name + "::"@ + ts.last().name, ts.last().src_path))
        } else {
            r
        }
    }
}

/// The library targets of a package named `name`: the package name with
/// the target's source.
pub open spec fn package_libraries(name: Seq<char>, ts: Seq<TargetModel>) -> Seq<(Seq<char>, Seq<char>)>
    decreases ts.len(),
{
    if ts.len() == 0 {
        Seq::empty()
    } else {
        let r = package_libraries(name, ts.drop_last());
        if ts.last().kind.contains("lib"@) {
            r.push((name, ts.last().src_path))
        } else {
            r
        }
    }
}

/// The binary targets of the members, member by member.
pub open spec fn binaries_of(ms: Seq<PackageModel>) -> Seq<(Seq<char>, Seq<char>)>
    decreases ms.len(),
{
    if ms.len() == 0 {
        Seq::empty()
    } else {
        binaries_of(ms.drop_last()) + package_binaries(ms.last().name, ms.last().targets)
    }
}

/// The library targets of the members, member by member.
pub open spec fn libraries_of(ms: Seq<PackageModel>) -> Seq<(Seq<char>, Seq<char>)>
    decreases ms.len(),
{
    if ms.len() == 0 {
        Seq::empty()
    } else {
        libraries_of(ms.drop_last()) + package_libraries(ms.last().name, ms.last().targets)
    }
}

/// Each path taken relative to `root`.
pub open spec fn joined_to(root: Seq<char>, ps: Seq<Seq<char>>) -> Seq<Seq<char>> {
    ps.map_values(|p: Seq<char>| join_path(root, p))
}

/// The `src` and `assets` directories of the members that have them.
pub open spec fn member_dirs(ms: Seq<PackageModel>) -> Seq<Seq<char>>
    decreases ms.len(),
{
    if ms.len() == 0 {
        Seq::empty()
    } else {
        let m = ms.last();
        member_dirs(ms.drop_last()) + (if m.has_src_dir {
            seq![join_path(m.manifest_dir, "src"@)]
        } else {
            Seq::empty()
        }) + (if m.has_assets_dir {
            seq![join_path(m.manifest_dir, "assets"@)]
        } else {
            Seq::empty()
        })
    }
}

/// The configured paths, if any, taken relative to `root`.
pub open spec fn configured_under(root: Seq<char>, configured: Option<Seq<Seq<char>>>) -> Seq<Seq<char>> {
    match configured {
        Some(w) => joined_to(root, w),
        None => Seq::empty(),
    }
}

/// The paths to watch before sorting: the configured ones under the root,
/// then the members' directories.
pub open spec fn watch_candidates(root: Seq<char>, configured: Option<Seq<Seq<char>>>, ms: Seq<PackageModel>) -> Seq<Seq<char>> {
    configured_under(root, configured) + member_dirs(ms)
}

/// The paths to ignore before sorting: the configured ones under the root,
/// then the root's `target`, `dist`, `.git` and `node_modules`.
pub open spec fn ignore_candidates(root: Seq<char>, configured: Option<Seq<Seq<char>>>) -> Seq<Seq<char>> {
    configured_under(root, configured) + seq![
        join_path(root, "target"@),
        join_path(root, "dist"@),
        join_path(root, ".git"@),
        join_path(root, "node_modules"@),
    ]
}

/// Some member is named `name`.
pub open spec fn has_member(ms: Seq<PackageModel>, name: Seq<char>) -> bool {
    exists|i: int| 0 <= i < ms.len() && #[trigger] ms[i].name == name
}

/// The dependencies that are members of `all`, in order.
pub open spec fn member_deps(all: Seq<PackageModel>, deps: Seq<Seq<char>>) -> Seq<Seq<char>>
    decreases deps.len(),
{
    if deps.len() == 0 {
        Seq::empty()
    } else {
        let r = member_deps(all, deps.drop_last());
        if has_member(all, deps.last()) {
            r.push(deps.last())
        } else {
            r
        }
    }
}

/// The dependency graph of the members `ms` of `all`: each package name
/// with its dependencies inside the workspace; a later package of the same
/// name replaces an earlier one.
pub open spec fn graph_of(all: Seq<PackageModel>, ms: Seq<PackageModel>) -> Seq<(Seq<char>, Seq<Seq<char>>)>
    decreases ms.len(),
{
    if ms.len() == 0 {
        Seq::empty()
    } else {
        put(graph_of(all, ms.drop_last()), ms.last().name, member_deps(all, ms.last().dependencies))
    }
}

/// Pushes each path of `ps` taken relative to `root`.
fn push_joined(out: &mut Vec<String>, root: &str, ps: &Option<Vec<String>>)
    ensures
        texts(final(out)@) == texts(old(out)@) + configured_under(root@, crate::text::opt_texts(*ps)),
{
    let ghost start = texts(out@);
    match ps {
        Some(w) => {
            let mut i: usize = 0;
            while i < w.len()
                invariant
                    i <= w@.len(),
                    texts(out@) == start + joined_to(root@, texts(w@.subrange(0, i as int))),
                decreases w@.len() - i,
            {
                let j = join_path_exec(root, w[i].as_str());
                let ghost b = out@;
                out.push(j);
                assert(texts(out@) =~= texts(b).push(join_path(root@, w@[i as int]@)));
                assert(joined_to(root@, texts(w@.subrange(0, i + 1))) =~= joined_to(root@, texts(w@.subrange(0, i as int))).push(join_path(root@, w@[i as int]@)));
                assert(texts(out@) =~= start + joined_to(root@, texts(w@.subrange(0, i + 1))));
                i = i + 1;
            }
            assert(w@.subrange(0, i as int) =~= w@);
        },
        None => {
            assert(texts(out@) =~= start + Seq::<Seq<char>>::empty());
        },
    }
}

/// Pushes `p` taken relative to `root`.
fn push_join(out: &mut Vec<String>, root: &str, p: &str)
    ensures
        texts(final(out)@) == texts(old(out)@).push(join_path(root@, p@)),
{
    let ghost start = out@;
    out.push(join_path_exec(root, p));
    assert(texts(out@) =~= texts(start).push(join_path(root@, p@)));
}

impl Workspace {
    /// The members as models.
    pub open spec fn member_models(&self) -> Seq<PackageModel> {
        package_models(self.members@)
    }

    /// Get all binary targets in the workspace
    pub fn get_binary_targets(&self) -> (r: Vec<(String, String)>)
        ensures
            text_pairs(r@) == binaries_of(self.member_models()),
    {
        let mut r: Vec<(String, String)> = Vec::new();
        let mut i: usize = 0;
        while i < self.members.len()
            invariant
                i <= self.members@.len(),
                text_pairs(r@) == binaries_of(self.member_models().subrange(0, i as int)),
            decreases self.members@.len() - i,
        {
            let pkg = &self.members[i];
            let ghost before = text_pairs(r@);
            let mut k: usize = 0;
            while k < pkg.targets.len()
                invariant
                    k <= pkg.targets@.len(),
                    text_pairs(r@) == before + package_binaries(pkg.name@, pkg@.targets.subrange(0, k as int)),
                decreases pkg.targets@.len() - k,
            {
                let t = &pkg.targets[k];
                assert(pkg@.targets.subrange(0, k + 1).drop_last() =~= pkg@.targets.subrange(0, k as int));
                assert(pkg@.targets[k as int] == t@);
                if has_text(&t.kind, "bin") {
                    let mut name = pkg.name.clone();
                    push_str(&mut name, "::");
                    push_str(&mut name, t.name.as_str());
                    let ghost b2 = r@;
                    r.push((name, t.src_path.clone()));
                    assert(text_pairs(r@) =~= text_pairs(b2).push((pkg.name@ + "::"@ + t.name@, t.src_path@)));
                }
                k = k + 1;
            }
            assert(pkg@.targets.subrange(0, k as int) =~= pkg@.targets);
            assert(self.member_models().subrange(0, i + 1).drop_last() =~= self.member_models().subrange(0, i as int));
            assert(self.member_models()[i as int] == pkg@);
            i = i + 1;
        }
        assert(self.member_models().subrange(0, i as int) =~= self.member_models());
        r
    }

    /// Get all library targets in the workspace
    pub fn get_library_targets(&self) -> (r: Vec<(String, String)>)
        ensures
            text_pairs(r@) == libraries_of(self.member_models()),
    {
        let mut r: Vec<(String, String)> = Vec::new();
        let mut i: usize = 0;
        while i < self.members.len()
            invariant
                i <= self.members@.len(),
                text_pairs(r@) == libraries_of(self.member_models().subrange(0, i as int)),
            decreases self.members@.len() - i,
        {
            let pkg = &self.members[i];
            let ghost before = text_pairs(r@);
            let mut k: usize = 0;
            while k < pkg.targets.len()
                invariant
                    k <= pkg.targets@.len(),
                    text_pairs(r@) == before + package_libraries(pkg.name@, pkg@.targets.subrange(0, k as int)),
                decreases pkg.targets@.len() - k,
            {
                let t = &pkg.targets[k];
                assert(pkg@.targets.subrange(0, k + 1).drop_last() =~= pkg@.targets.subrange(0, k as int));
                assert(pkg@.targets[k as int] == t@);
                if has_text(&t.kind, "lib") {
                    let ghost b2 = r@;
                    r.push((pkg.name.clone(), t.src_path.clone()));
                    assert(text_pairs(r@) =~= text_pairs(b2).push((pkg.name@, t.src_path@)));
                }
                k = k + 1;
            }
            assert(pkg@.targets.subrange(0, k as int) =~= pkg@.targets);
            assert(self.member_models().subrange(0, i + 1).drop_last() =~= self.member_models().subrange(0, i as int));
            assert(self.member_models()[i as int] == pkg@);
            i = i + 1;
        }
        assert(self.member_models().subrange(0, i as int) =~= self.member_models());
        r
    }

    /// Get watch paths for the workspace: the configured ones under the
    /// root and the members' `src` and `assets` directories, sorted, each
    /// once.
    pub fn get_watch_paths(&self, hot_reload: &HotReloadConfig) -> (r: Vec<String>)
        ensures
            sorted_unique_paths_of(texts(r@), watch_candidates(self.root@, hot_reload@.watch_paths, self.member_models())),
    {
        let mut paths: Vec<String> = Vec::new();
        assert(texts(paths@) =~= Seq::<Seq<char>>::empty());
        push_joined(&mut paths, self.root.as_str(), &hot_reload.watch_paths);
        let ghost head = texts(paths@);
        let mut i: usize = 0;
        while i < self.members.len()
            invariant
                i <= self.members@.len(),
                texts(paths@) == head + member_dirs(self.member_models().subrange(0, i as int)),
            decreases self.members@.len() - i,
        {
            let pkg = &self.members[i];
            let ghost before = texts(paths@);
            if pkg.has_src_dir {
                push_join(&mut paths, pkg.manifest_dir.as_str(), "src");
            }
            let ghost mid = texts(paths@);
            if pkg.has_assets_dir {
                push_join(&mut paths, pkg.manifest_dir.as_str(), "assets");
            }
            proof {
                let sub = self.member_models().subrange(0, i + 1);
                assert(sub.drop_last() =~= self.member_models().subrange(0, i as int));
                assert(sub.last() == pkg@);
                assert(mid =~= before + (if pkg.has_src_dir {
                    seq![join_path(pkg.manifest_dir@, "src"@)]
                } else {
                    Seq::empty()
                }));
                assert(texts(paths@) =~= mid + (if pkg.has_assets_dir {
                    seq![join_path(pkg.manifest_dir@, "assets"@)]
                } else {
                    Seq::empty()
                }));
            }
            i = i + 1;
        }
        assert(self.member_models().subrange(0, i as int) =~= self.member_models());
        sort_dedup_paths(&paths)
    }

    /// Get ignore paths for the workspace: the configured ones under the
    /// root and the root's `target`, `dist`, `.git` and `node_modules`,
    /// sorted, each once.
    pub fn get_ignore_paths(&self, hot_reload: &HotReloadConfig) -> (r: Vec<String>)
        ensures
            sorted_unique_paths_of(texts(r@), ignore_candidates(self.root@, hot_reload@.ignore_paths)),
    {
        let mut paths: Vec<String> = Vec::new();
        assert(texts(paths@) =~= Seq::<Seq<char>>::empty());
        push_joined(&mut paths, self.root.as_str(), &hot_reload.ignore_paths);
        let ghost head = texts(paths@);
        push_join(&mut paths, self.root.as_str(), "target");
        push_join(&mut paths, self.root.as_str(), "dist");
        push_join(&mut paths, self.root.as_str(), ".git");
        push_join(&mut paths, self.root.as_str(), "node_modules");
        assert(texts(paths@) =~= ignore_candidates(self.root@, hot_reload@.ignore_paths));
        sort_dedup_paths(&paths)
    }

    /// Get the main package for building
    pub fn get_main_package(&self) -> (r: Option<&PackageInfo>)
        ensures
            r == match self.target_package {
                Some(p) => Some(&p),
                None => None,
            },
    {
        match &self.target_package {
            Some(p) => Some(p),
            None => None,
        }
    }

    /// The first member named `name`.
    fn member_position(&self, name: &str) -> (r: Option<usize>)
        ensures
            match r {
                Some(i) => i < self.members@.len() && self.members@[i as int].name@ == name@ && forall|j: int|
                    0 <= j < i ==> self.members@[j].name@ != name@,
                None => forall|j: int| 0 <= j < self.members@.len() ==> self.members@[j].name@ != name@,
            },
    {
        let key = name.to_owned();
        let mut i: usize = 0;
        while i < self.members.len()
            invariant
                i <= self.members@.len(),
                key@ == name@,
                forall|j: int| 0 <= j < i ==> self.members@[j].name@ != name@,
            decreases self.members@.len() - i,
        {
            if self.members[i].name == key {
                return Some(i);
            }
            i = i + 1;
        }
        None
    }

    /// Get the first member named `name`.
    pub fn get_package_by_name(&self, name: &str) -> (r: Option<&PackageInfo>)
        ensures
            match r {
                Some(p) => exists|i: int|
                    0 <= i < self.members@.len() && p == self.members@[i] && p.name@ == name@ && forall|j: int|
                        0 <= j < i ==> self.members@[j].name@ != name@,
                None => !has_member(self.member_models(), name@),
            },
    {
        match self.member_position(name) {
            Some(i) => Some(&self.members[i]),
            None => {
                proof {
                    if has_member(self.member_models(), name@) {
                        let k = choose|k: int| 0 <= k < self.member_models().len() && #[trigger] self.member_models()[k].name == name@;
                        assert(self.members@[k].name@ == name@);
                    }
                }
                None
            },
        }
    }

    /// Check if the workspace contains a specific package
    pub fn contains_package(&self, name: &str) -> (r: bool)
        ensures
            r == has_member(self.member_models(), name@),
    {
        match self.member_position(name) {
            Some(i) => {
                assert(self.member_models()[i as int].name == name@);
                true
            },
            None => {
                proof {
                    if has_member(self.member_models(), name@) {
                        let k = choose|k: int| 0 <= k < self.member_models().len() && #[trigger] self.member_models()[k].name == name@;
                        assert(self.members@[k].name@ == name@);
                    }
                }
                false
            },
        }
    }

    /// Get build environment variables
    pub fn get_build_env(&self, build: &BuildConfig) -> (r: Vec<(String, String)>)
        ensures
            unique_keys(text_pairs(r@)),
            text_pairs(r@) == build_env_of(self.root@, build@),
    {
        build_env(self.root.as_str(), build)
    }

    /// Get dependency graph for the workspace
    pub fn get_dependency_graph(&self) -> (r: Vec<(String, Vec<String>)>)
        ensures
            graph_view(r@) == graph_of(self.member_models(), self.member_models()),
            unique_keys(graph_view(r@)),
    {
        let mut g: Vec<(String, Vec<String>)> = Vec::new();
        assert(graph_view(g@) =~= Seq::<(Seq<char>, Seq<Seq<char>>)>::empty());
        let mut i: usize = 0;
        while i < self.members.len()
            invariant
                i <= self.members@.len(),
                unique_keys(graph_view(g@)),
                graph_view(g@) == graph_of(self.member_models(), self.member_models().subrange(0, i as int)),
            decreases self.members@.len() - i,
        {
            let pkg = &self.members[i];
            let mut deps: Vec<String> = Vec::new();
            let mut k: usize = 0;
            while k < pkg.dependencies.len()
                invariant
                    k <= pkg.dependencies@.len(),
                    texts(deps@) == member_deps(self.member_models(), texts(pkg.dependencies@.subrange(0, k as int))),
                decreases pkg.dependencies@.len() - k,
            {
                let ghost sub = texts(pkg.dependencies@.subrange(0, k + 1));
                assert(sub.drop_last() =~= texts(pkg.dependencies@.subrange(0, k as int)));
                assert(sub.last() == pkg.dependencies@[k as int]@);
                if self.contains_package(pkg.dependencies[k].as_str()) {
                    let ghost b = deps@;
                    deps.push(pkg.dependencies[k].clone());
                    assert(texts(deps@) =~= texts(b).push(pkg.dependencies@[k as int]@));
                }
                k = k + 1;
            }
            assert(pkg.dependencies@.subrange(0, k as int) =~= pkg.dependencies@);
            let ghost before = graph_view(g@);
            proof {
                lemma_put(before, pkg.name@, texts(deps@));
            }
            match crate::keyed::position_of(&g, &pkg.name) {
                Some(j) => {
                    proof {
                        assert(before[j as int].0 == pkg.name@);
                        crate::keyed::lemma_key_pos(before, j as int);
                    }
                    g.set(j, (pkg.name.clone(), deps));
                    assert(graph_view(g@) =~= before.update(j as int, (pkg.name@, texts(deps@))));
                },
                None => {
                    proof {
                        if crate::keyed::has_key(before, pkg.name@) {
                            let q = crate::keyed::key_pos(before, pkg.name@);
                            assert(g@[q].0@ == pkg.name@);
                        }
                    }
                    g.push((pkg.name.clone(), deps));
                    assert(graph_view(g@) =~= before.push((pkg.name@, texts(deps@))));
                },
            }
            proof {
                let sub = self.member_models().subrange(0, i + 1);
                assert(sub.drop_last() =~= self.member_models().subrange(0, i as int));
                assert(sub.last() == pkg@);
            }
            i = i + 1;
        }
        assert(self.member_models().subrange(0, i as int) =~= self.member_models());
        g
    }
}

/// A dependency graph with its names as text.
pub open spec fn graph_view(v: Seq<(String, Vec<String>)>) -> Seq<(Seq<char>, Seq<Seq<char>>)> {
    v.map_values(|e: (String, Vec<String>)| (e.0@, texts(e.1@)))
}

} // verus!
