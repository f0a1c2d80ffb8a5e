//! The order of texts by their characters, as `str` compares, and sorting
//! by it.

use crate::text::{chars_of, strings_view};
use vstd::prelude::*;

verus! {

/// Whether `a[i..]` comes before or with `b[i..]`, character by character;
/// a text comes before every longer one that starts with it.
pub open spec fn lex_le_from(a: Seq<char>, b: Seq<char>, i: int) -> bool
    decreases a.len() - i,
{
    if i < 0 || i >= a.len() {
        true
    } else if i >= b.len() {
        false
    } else if a[i] < b[i] {
        true
    } else if a[i] > b[i] {
        false
    } else {
        lex_le_from(a, b, i + 1)
    }
}

/// Whether `a` comes before or with `b`.
pub open spec fn lex_le(a: Seq<char>, b: Seq<char>) -> bool {
    lex_le_from(a, b, 0)
}

/// The order of texts as a relation.
pub open spec fn lex_leq() -> spec_fn(Seq<char>, Seq<char>) -> bool {
    |a: Seq<char>, b: Seq<char>| lex_le(a, b)
}

/// `s` in order: the same texts, each as often as in `s`.
pub open spec fn in_order(s: Seq<Seq<char>>) -> Seq<Seq<char>> {
    s.sort_by(lex_leq())
}

/// Whether each text comes before or with the next.
pub open spec fn sorted(s: Seq<Seq<char>>) -> bool {
    forall|i: int, j: int| 0 <= i < j < s.len() ==> lex_le(#[trigger] s[i], #[trigger] s[j])
}

/// Of two texts, one comes before or with the other.
pub proof fn lemma_lex_total(a: Seq<char>, b: Seq<char>, i: int)
    requires
        0 <= i,
    ensures
        lex_le_from(a, b, i) || lex_le_from(b, a, i),
    decreases a.len() - i,
{
    if i < a.len() && i < b.len() && a[i] == b[i] {
        lemma_lex_total(a, b, i + 1);
    }
}

/// The order is transitive.
pub proof fn lemma_lex_transitive(a: Seq<char>, b: Seq<char>, c: Seq<char>, i: int)
    requires
        0 <= i,
        lex_le_from(a, b, i),
        lex_le_from(b, c, i),
    ensures
        lex_le_from(a, c, i),
    decreases a.len() - i,
{
    if i < a.len() && i < b.len() && i < c.len() && a[i] == b[i] && b[i] == c[i] {
        lemma_lex_transitive(a, b, c, i + 1);
    }
}

/// Every text comes with itself.
pub proof fn lemma_lex_reflexive(a: Seq<char>, i: int)
    requires
        0 <= i,
    ensures
        lex_le_from(a, a, i),
    decreases a.len() - i,
{
    if i < a.len() {
        lemma_lex_reflexive(a, i + 1);
    }
}

/// Two texts that come with each other from `i` on are equal from `i` on.
pub proof fn lemma_lex_antisymmetric(a: Seq<char>, b: Seq<char>, i: int)
    requires
        0 <= i <= a.len(),
        i <= b.len(),
        lex_le_from(a, b, i),
        lex_le_from(b, a, i),
    ensures
        a.subrange(i, a.len() as int) == b.subrange(i, b.len() as int),
    decreases a.len() - i,
{
    if i < a.len() && i < b.len() {
        lemma_lex_antisymmetric(a, b, i + 1);
        assert(a.subrange(i, a.len() as int) =~= seq![a[i]] + a.subrange(i + 1, a.len() as int));
        assert(b.subrange(i, b.len() as int) =~= seq![b[i]] + b.subrange(i + 1, b.len() as int));
    } else {
        assert(a.subrange(i, a.len() as int) =~= b.subrange(i, b.len() as int));
    }
}

/// The order of texts is total: reflexive, antisymmetric, transitive,
/// and any two texts are comparable.
pub proof fn lemma_lex_total_ordering()
    ensures
        vstd::relations::total_ordering(lex_leq()),
{
    let r = lex_leq();
    assert forall|x: Seq<char>| #[trigger] r(x, x) by {
        lemma_lex_reflexive(x, 0);
    }
    assert forall|x: Seq<char>, y: Seq<char>| #[trigger] r(x, y) && #[trigger] r(y, x) implies x
        == y by {
        lemma_lex_antisymmetric(x, y, 0);
        assert(x.subrange(0, x.len() as int) =~= x);
        assert(y.subrange(0, y.len() as int) =~= y);
    }
    assert forall|x: Seq<char>, y: Seq<char>, z: Seq<char>| #[trigger]
        r(x, y) && #[trigger] r(y, z) implies r(x, z) by {
        lemma_lex_transitive(x, y, z, 0);
    }
    assert forall|x: Seq<char>, y: Seq<char>| #[trigger] r(x, y) || #[trigger] r(y, x) by {
        lemma_lex_total(x, y, 0);
    }
}

/// A sorted list with the same texts as `s` is `s` in order.
pub proof fn lemma_sorted_is_in_order(sorted_list: Seq<Seq<char>>, s: Seq<Seq<char>>)
    requires
        sorted(sorted_list),
        sorted_list.to_multiset() == s.to_multiset(),
    ensures
        sorted_list == in_order(s),
{
    lemma_lex_total_ordering();
    s.lemma_sort_by_ensures(lex_leq());
    assert(vstd::relations::sorted_by(sorted_list, lex_leq())) by {
        assert forall|i: int, j: int| 0 <= i < j < sorted_list.len() implies #[trigger] lex_leq()(
            sorted_list[i],
            sorted_list[j],
        ) by {
            assert(lex_le(sorted_list[i], sorted_list[j]));
        }
    }
    vstd::seq_lib::lemma_sorted_unique(sorted_list, in_order(s), lex_leq());
}

/// Whether `a` comes before or with `b`.
pub fn chars_le(a: &Vec<char>, b: &Vec<char>) -> (r: bool)
    ensures
        r == lex_le(a@, b@),
{
    let mut i: usize = 0;
    while i < a.len()
        invariant
            i <= a.len(),
            lex_le(a@, b@) == lex_le_from(a@, b@, i as int),
        decreases a.len() - i,
    {
        if i >= b.len() {
            return false;
        }
        if a[i] < b[i] {
            return true;
        }
        if a[i] > b[i] {
            return false;
        }
        i += 1;
    }
    true
}

/// Whether `a` comes before or with `b`.
pub fn str_le(a: &str, b: &str) -> (r: bool)
    ensures
        r == lex_le(a@, b@),
{
    let av = chars_of(a);
    let bv = chars_of(b);
    chars_le(&av, &bv)
}

/// Where `key` goes in the sorted list `keys` so that it stays sorted:
/// behind everything that comes before or with it.
pub(crate) fn insert_position(keys: &Vec<String>, key: &str) -> (p: usize)
    requires
        sorted(strings_view(keys@)),
    ensures
        p <= keys.len(),
        sorted(strings_view(keys@).insert(p as int, key@)),
{
    let ghost ks = strings_view(keys@);
    let mut p: usize = 0;
    while p < keys.len() && str_le(keys[p].as_str(), key)
        invariant
            p <= keys.len(),
            ks == strings_view(keys@),
            forall|j: int| 0 <= j < p ==> lex_le(#[trigger] ks[j], key@),
        decreases keys.len() - p,
    {
        p += 1;
    }
    proof {
        let out = ks.insert(p as int, key@);
        assert forall|i: int, j: int| 0 <= i < j < out.len() implies lex_le(
            #[trigger] out[i],
            #[trigger] out[j],
        ) by {
            if j < p {
                assert(out[i] == ks[i] && out[j] == ks[j]);
            } else if j == p {
                assert(out[i] == ks[i]);
            } else if i == p {
                assert(out[j] == ks[j - 1]);
                assert(ks[p as int] == keys@[p as int]@);
                lemma_lex_total(ks[p as int], key@, 0);
                if j - 1 > p {
                    assert(lex_le(ks[p as int], ks[j - 1]));
                }
                lemma_lex_reflexive(ks[p as int], 0);
                lemma_lex_transitive(key@, ks[p as int], ks[j - 1], 0);
            } else if i < p {
                assert(out[i] == ks[i] && out[j] == ks[j - 1]);
            } else {
                assert(out[i] == ks[i - 1] && out[j] == ks[j - 1]);
            }
        }
    }
    p
}

/// The texts of `v` in order: the same texts, each as often as before.
pub fn sort_strings(v: &Vec<String>) -> (r: Vec<String>)
    ensures
        sorted(strings_view(r@)),
        strings_view(r@).to_multiset() == strings_view(v@).to_multiset(),
        strings_view(r@) == in_order(strings_view(v@)),
{
    let ghost vs = strings_view(v@);
    let mut r: Vec<String> = Vec::new();
    let mut i: usize = 0;
    proof {
        assert(vs.subrange(0, 0) =~= strings_view(r@));
    }
    while i < v.len()
        invariant
            i <= v.len(),
            vs == strings_view(v@),
            sorted(strings_view(r@)),
            strings_view(r@).to_multiset() == vs.subrange(0, i as int).to_multiset(),
        decreases v.len() - i,
    {
        let item = v[i].clone();
        assert(vs[i as int] == item@);
        let p = insert_position(&r, item.as_str());
        proof {
            let before = strings_view(r@);
            assert(strings_view(r@.insert(p as int, item)) =~= before.insert(p as int, item@));
            vstd::seq_lib::to_multiset_insert(before, p as int, item@);
            assert(vs.subrange(0, i + 1) =~= vs.subrange(0, i as int).push(item@));
            vstd::seq_lib::to_multiset_build(vs.subrange(0, i as int), item@);
        }
        r.insert(p, item);
        i += 1;
    }
    proof {
        assert(vs.subrange(0, vs.len() as int) =~= vs);
        lemma_sorted_is_in_order(strings_view(r@), vs);
    }
    r
}

} // verus!
