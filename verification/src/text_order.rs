//! The order of texts character by character, as `String` orders them, and
//! sorting and de-duplicating lists of texts by it.

use vstd::prelude::*;
use vstd::relations::{sorted_by, total_ordering};

use crate::text::{str_chars, texts};

verus! {

/// `a` comes no later than `b`: at the first position where they differ,
/// `a` has the smaller character, or `a` is a prefix of `b`.
pub open spec fn text_le(a: Seq<char>, b: Seq<char>) -> bool
    decreases a.len(),
{
    if a.len() == 0 {
        true
    } else if b.len() == 0 {
        false
    } else if a[0] != b[0] {
        (a[0] as u32) < (b[0] as u32)
    } else {
        text_le(a.drop_first(), b.drop_first())
    }
}

/// The order as a relation.
pub open spec fn text_order() -> spec_fn(Seq<char>, Seq<char>) -> bool {
    |a: Seq<char>, b: Seq<char>| text_le(a, b)
}

/// The texts in ascending order.
pub open spec fn sorted_texts(s: Seq<Seq<char>>) -> Seq<Seq<char>> {
    s.sort_by(text_order())
}

/// The texts with each run of equal neighbours kept once.
pub open spec fn dedup_texts(s: Seq<Seq<char>>) -> Seq<Seq<char>>
    decreases s.len(),
{
    if s.len() == 0 {
        s
    } else {
        let r = dedup_texts(s.drop_last());
        if s.len() >= 2 && s[s.len() - 2] == s.last() {
            r
        } else {
            r.push(s.last())
        }
    }
}

pub proof fn lemma_le_reflexive(a: Seq<char>)
    ensures
        text_le(a, a),
    decreases a.len(),
{
    if a.len() > 0 {
        lemma_le_reflexive(a.drop_first());
    }
}

pub proof fn lemma_le_antisymmetric(a: Seq<char>, b: Seq<char>)
    requires
        text_le(a, b),
        text_le(b, a),
    ensures
        a == b,
    decreases a.len(),
{
    if a.len() > 0 && b.len() > 0 && a[0] == b[0] {
        lemma_le_antisymmetric(a.drop_first(), b.drop_first());
        assert(a =~= seq![a[0]] + a.drop_first());
        assert(b =~= seq![b[0]] + b.drop_first());
    } else if a.len() > 0 && b.len() > 0 {
        vstd::utf8::char_u32_cast(a[0], a[0] as u32);
        vstd::utf8::char_u32_cast(b[0], b[0] as u32);
    }
    assert(a =~= b);
}

pub proof fn lemma_le_transitive(a: Seq<char>, b: Seq<char>, c: Seq<char>)
    requires
        text_le(a, b),
        text_le(b, c),
    ensures
        text_le(a, c),
    decreases a.len(),
{
    if a.len() > 0 && b.len() > 0 && c.len() > 0 && a[0] == b[0] && b[0] == c[0] {
        lemma_le_transitive(a.drop_first(), b.drop_first(), c.drop_first());
    }
}

pub proof fn lemma_le_total(a: Seq<char>, b: Seq<char>)
    ensures
        text_le(a, b) || text_le(b, a),
    decreases a.len(),
{
    if a.len() > 0 && b.len() > 0 {
        if a[0] == b[0] {
            lemma_le_total(a.drop_first(), b.drop_first());
        } else {
            vstd::utf8::char_u32_cast(a[0], a[0] as u32);
            vstd::utf8::char_u32_cast(b[0], b[0] as u32);
        }
    }
}

/// The order is total.
pub proof fn lemma_text_order_total()
    ensures
        total_ordering(text_order()),
{
    assert forall|a: Seq<char>| #[trigger] text_order()(a, a) by {
        lemma_le_reflexive(a);
    }
    assert forall|a: Seq<char>, b: Seq<char>| #[trigger] text_order()(a, b) && #[trigger] text_order()(b, a) implies a == b by {
        lemma_le_antisymmetric(a, b);
    }
    assert forall|a: Seq<char>, b: Seq<char>, c: Seq<char>| #[trigger] text_order()(a, b) && #[trigger] text_order()(b, c) implies text_order()(a, c) by {
        lemma_le_transitive(a, b, c);
    }
    assert forall|a: Seq<char>, b: Seq<char>| #[trigger] text_order()(a, b) || #[trigger] text_order()(b, a) by {
        lemma_le_total(a, b);
    }
}

/// Whether `a` comes no later than `b`.
pub fn text_le_exec(a: &str, b: &str) -> (r: bool)
    ensures
        r == text_le(a@, b@),
{
    let x = str_chars(a);
    let y = str_chars(b);
    chars_le(&x, &y)
}

/// Whether the characters `x` come no later than `y`.
pub fn chars_le(x: &Vec<char>, y: &Vec<char>) -> (r: bool)
    ensures
        r == text_le(x@, y@),
{
    let mut i: usize = 0;
    assert(x@.skip(0) =~= x@);
    assert(y@.skip(0) =~= y@);
    while i < x.len() && i < y.len() && x[i] == y[i]
        invariant
            i <= x@.len(),
            i <= y@.len(),
            text_le(x@, y@) == text_le(x@.skip(i as int), y@.skip(i as int)),
        decreases x@.len() - i,
    {
        proof {
            let xs = x@.skip(i as int);
            let ys = y@.skip(i as int);
            assert(xs.drop_first() =~= x@.skip(i + 1));
            assert(ys.drop_first() =~= y@.skip(i + 1));
        }
        i = i + 1;
    }
    if i == x.len() {
        assert(x@.skip(i as int).len() == 0);
        true
    } else if i == y.len() {
        assert(y@.skip(i as int).len() == 0);
        false
    } else {
        assert(x@.skip(i as int)[0] == x@[i as int]);
        assert(y@.skip(i as int)[0] == y@[i as int]);
        assert(x@[i as int] != y@[i as int]);
        let c = x[i];
        let d = y[i];
        (c as u32) < (d as u32)
    }
}

/// Sorts `v` in ascending order, in place.
pub fn sort_texts(v: &mut Vec<String>)
    ensures
        texts(final(v)@) == sorted_texts(texts(old(v)@)),
{
    let ghost orig = texts(v@);
    let n = v.len();
    proof {
        lemma_text_order_total();
    }
    let mut i: usize = 1;
    while i < n
        invariant
            n == v@.len(),
            texts(v@).to_multiset() == orig.to_multiset(),
            total_ordering(text_order()),
            forall|a: int, b: int| 0 <= a < b < i && b < n ==> text_le(#[trigger] texts(v@)[a], #[trigger] texts(v@)[b]),
        decreases n - i,
    {
        let mut j: usize = i;
        while j > 0 && !text_le_exec(v[j - 1].as_str(), v[j].as_str())
            invariant
                0 <= j <= i < n,
                n == v@.len(),
                total_ordering(text_order()),
                texts(v@).to_multiset() == orig.to_multiset(),
                forall|a: int, b: int|
                    0 <= a < b <= i && a != j && b != j ==> text_le(#[trigger] texts(v@)[a], #[trigger] texts(v@)[b]),
                forall|b: int| j < b <= i ==> text_le(texts(v@)[j as int], #[trigger] texts(v@)[b]),
            decreases j,
        {
            let ghost before = texts(v@);
            let ghost x = before[j - 1];
            let ghost y = before[j as int];
            proof {
                lemma_le_total(x, y);
            }
            let moved = v.remove(j);
            v.insert(j - 1, moved);
            proof {
                broadcast use vstd::seq_lib::group_to_multiset_ensures;
                assert(texts(v@) =~= before.update(j - 1, y).update(j as int, x));
                assert(before.update(j - 1, y).to_multiset() == before.to_multiset().remove(x).insert(y));
                assert(texts(v@).to_multiset() == before.update(j - 1, y).to_multiset().remove(y).insert(x));
                assert(texts(v@).to_multiset() =~= before.to_multiset());
                assert forall|b: int| j - 1 < b <= i implies text_le(texts(v@)[j - 1], #[trigger] texts(v@)[b]) by {
                    if b > j {
                        assert(text_le(x, before[b]));
                        lemma_le_transitive(y, x, before[b]);
                    }
                }
            }
            j = j - 1;
        }
        proof {
            assert forall|a: int, b: int| 0 <= a < b < i + 1 && b < n implies text_le(#[trigger] texts(v@)[a], #[trigger] texts(v@)[b]) by {
                if a == j as int {
                } else if b == j as int {
                    if j > 0 {
                        let p = texts(v@)[j - 1];
                        lemma_le_total(p, texts(v@)[j as int]);
                        if a < j - 1 {
                            lemma_le_transitive(texts(v@)[a], p, texts(v@)[b]);
                        }
                    }
                }
            }
        }
        i = i + 1;
    }
    proof {
        let s = texts(v@);
        assert(sorted_by(s, text_order())) by {
            assert forall|a: int, b: int| 0 <= a < b < s.len() implies #[trigger] text_order()(s[a], s[b]) by {
                if n > 0 {
                    assert(text_le(s[a], s[b]));
                }
            }
        }
        orig.lemma_sort_by_ensures(text_order());
        vstd::seq_lib::lemma_sorted_unique(s, sorted_texts(orig), text_order());
    }
}

/// The texts of `v` with each run of equal neighbours kept once.
pub fn dedup_sorted(v: &Vec<String>) -> (r: Vec<String>)
    ensures
        texts(r@) == dedup_texts(texts(v@)),
{
    let mut r: Vec<String> = Vec::new();
    let mut i: usize = 0;
    while i < v.len()
        invariant
            i <= v@.len(),
            texts(r@) == dedup_texts(texts(v@.subrange(0, i as int))),
        decreases v@.len() - i,
    {
        let ghost pre = texts(v@.subrange(0, i + 1));
        proof {
            assert(pre.drop_last() =~= texts(v@.subrange(0, i as int)));
            assert(pre.last() == v@[i as int]@);
            if i >= 1 {
                assert(pre[pre.len() - 2] == v@[i - 1]@);
            }
        }
        if i == 0 || v[i - 1] != v[i] {
            r.push(v[i].clone());
            assert(texts(r@) =~= dedup_texts(texts(v@.subrange(0, i as int))).push(v@[i as int]@));
        }
        i = i + 1;
    }
    assert(v@.subrange(0, i as int) =~= v@);
    r
}

} // verus!
