//! What the listing of cached crates needs: the directory that all crate
//! paths share, and the order in which the tags of one crate are shown.

use crate::order::{lemma_lex_total, lemma_lex_transitive, lex_le, str_le};
use crate::text::{
    join, join_strings, split, split_any, split_chars, split_str, str_eq, strings_view,
};
use vstd::prelude::*;

verus! {

/// Whether a configuration key holds a list.
pub fn is_list_key(key: &str) -> (r: bool)
    ensures
        r == (key@ == "envvars"@ || key@ == "volumes"@),
{
    str_eq(key, "envvars") || str_eq(key, "volumes")
}

/// The components of the directory of a path: its pieces between `/`
/// without the last one; a path of one piece keeps it.
pub open spec fn dir_components(path: Seq<char>) -> Seq<Seq<char>> {
    let parts = split(path, '/');
    if parts.len() > 1 {
        parts.drop_last()
    } else {
        parts
    }
}

/// How many leading components `a` and `b` share, counted from `i` on.
pub open spec fn shared_prefix_len(a: Seq<Seq<char>>, b: Seq<Seq<char>>, i: int) -> int
    decreases a.len() - i,
{
    if 0 <= i < a.len() && i < b.len() && a[i] == b[i] {
        shared_prefix_len(a, b, i + 1)
    } else {
        i
    }
}

/// How many leading components the first path shares with each of the
/// first `n` paths.
pub open spec fn common_len(paths: Seq<Seq<char>>, n: int) -> int
    decreases n,
{
    if n <= 1 || n > paths.len() {
        dir_components(paths[0]).len() as int
    } else {
        let before = common_len(paths, n - 1);
        let here = shared_prefix_len(dir_components(paths[0]), dir_components(paths[n - 1]), 0);
        if here < before {
            here
        } else {
            before
        }
    }
}

/// The longest directory prefix that all paths share, or the empty text
/// where there is no path or no shared component.
pub open spec fn common_root(paths: Seq<Seq<char>>) -> Seq<char> {
    if paths.len() == 0 {
        Seq::empty()
    } else {
        join(dir_components(paths[0]).subrange(0, common_len(paths, paths.len() as int)), "/"@)
    }
}

fn directory_of(path: &str) -> (r: Vec<String>)
    ensures
        strings_view(r@) == dir_components(path@),
{
    let mut parts = split_str(path, '/');
    if parts.len() > 1 {
        let ghost before = strings_view(parts@);
        parts.pop();
        proof {
            assert(strings_view(parts@) =~= before.drop_last());
        }
    }
    parts
}

/// Finds the longest directory prefix that all `paths` share.
pub fn find_common_root(paths: &[String]) -> (r: String)
    ensures
        r@ == common_root(strings_view(paths@)),
{
    if paths.len() == 0 {
        return String::new();
    }
    let ghost ps = strings_view(paths@);
    assert(ps[0] == paths@[0]@);
    let first = directory_of(paths[0].as_str());
    let ghost f = strings_view(first@);
    let mut common: usize = first.len();
    let mut k: usize = 1;
    while k < paths.len()
        invariant
            1 <= k <= paths.len(),
            ps == strings_view(paths@),
            f == strings_view(first@),
            f == dir_components(ps[0]),
            common as int == common_len(ps, k as int),
            common <= first.len(),
        decreases paths.len() - k,
    {
        assert(ps[k as int] == paths@[k as int]@);
        let other = directory_of(paths[k].as_str());
        let ghost o = strings_view(other@);
        let mut m: usize = 0;
        while m < first.len() && m < other.len() && str_eq(first[m].as_str(), other[m].as_str())
            invariant
                m <= first.len(),
                f == strings_view(first@),
                o == strings_view(other@),
                shared_prefix_len(f, o, 0) == shared_prefix_len(f, o, m as int),
            decreases first.len() - m,
        {
            proof {
                assert(f[m as int] == first@[m as int]@);
                assert(o[m as int] == other@[m as int]@);
            }
            m += 1;
        }
        proof {
            if m < first.len() && m < other.len() {
                assert(f[m as int] == first@[m as int]@);
                assert(o[m as int] == other@[m as int]@);
            }
        }
        if m < common {
            common = m;
        }
        k += 1;
    }
    let mut head: Vec<String> = Vec::new();
    let mut i: usize = 0;
    while i < common
        invariant
            i <= common <= first.len(),
            f == strings_view(first@),
            strings_view(head@) == f.subrange(0, i as int),
        decreases common - i,
    {
        let item = first[i].clone();
        proof {
            assert(f[i as int] == first@[i as int]@);
            assert(strings_view(head@.push(item)) =~= strings_view(head@).push(item@));
            assert(f.subrange(0, i + 1) =~= f.subrange(0, i as int).push(item@));
        }
        head.push(item);
        i += 1;
    }
    join_strings(&head, "/")
}

/// What `str::parse::<i64>` makes of a text: its number, or nothing
/// where the text is no number that fits.
pub uninterp spec fn parsed_number(text: Seq<char>) -> Option<i64>;

/// Calls `str::parse::<i64>`. The answer depends on the text alone and is
/// given the name [`parsed_number`].
#[verifier::external_body]
fn parse_number(text: &str) -> (r: Option<i64>)
    ensures
        r == parsed_number(text@),
{
    match text.parse::<i64>() {
        Ok(n) => Some(n),
        Err(_) => None,
    }
}

/// The number that a part of a tag counts as: its own, or `-1` where it
/// is no number.
pub open spec fn part_number(part: Seq<char>) -> i64 {
    match parsed_number(part) {
        Some(n) => n,
        None => -1i64,
    }
}

/// A tag without a leading `v`.
pub open spec fn without_v(tag: Seq<char>) -> Seq<char> {
    if tag.len() > 0 && tag[0] == 'v' {
        tag.subrange(1, tag.len() as int)
    } else {
        tag
    }
}

/// The numbers of a tag: those of its parts between `.` and `-`, a leading
/// `v` left out. The tag `default` has none.
pub open spec fn tag_numbers(tag: Seq<char>) -> Seq<i64> {
    if tag == "default"@ {
        Seq::empty()
    } else {
        let parts = split_any(without_v(tag), '.', '-');
        Seq::new(parts.len(), |i: int| part_number(parts[i]))
    }
}

/// The sort key of a tag: `default` in a bucket of its own behind all
/// others, then the numbers of the tag, then the tag itself.
pub fn version_sort_key(tag: &str) -> (key: (u8, Vec<i64>, String))
    ensures
        key.0 == (if tag@ == "default"@ {
            1u8
        } else {
            0u8
        }),
        key.1@ == tag_numbers(tag@),
        key.2@ == tag@,
{
    if str_eq(tag, "default") {
        return (1, Vec::new(), String::from_str(tag));
    }
    let v = crate::text::chars_of(tag);
    let stripped: Vec<char> = if v.len() > 0 && v[0] == 'v' {
        crate::text::chars_of(crate::text::string_of(&v, 1, v.len()).as_str())
    } else {
        v
    };
    let parts = split_chars(&stripped, '.', '-');
    let ghost ps = strings_view(parts@);
    let mut numbers: Vec<i64> = Vec::new();
    let mut i: usize = 0;
    while i < parts.len()
        invariant
            i <= parts.len(),
            ps == strings_view(parts@),
            numbers@.len() == i,
            forall|j: int| 0 <= j < i ==> numbers@[j] == part_number(ps[j]),
        decreases parts.len() - i,
    {
        assert(ps[i as int] == parts@[i as int]@);
        let n = match parse_number(parts[i].as_str()) {
            Some(n) => n,
            None => -1,
        };
        numbers.push(n);
        i += 1;
    }
    proof {
        assert(numbers@ =~= tag_numbers(tag@));
    }
    (0, numbers, String::from_str(tag))
}

/// Whether the numbers `a[i..]` come before or with `b[i..]`, number by
/// number; a list comes before every longer one that starts with it.
pub open spec fn numbers_le_from(a: Seq<i64>, b: Seq<i64>, i: int) -> bool
    decreases a.len() - i,
{
    if i < 0 || i >= a.len() {
        true
    } else if i >= b.len() {
        false
    } else if a[i] < b[i] {
        true
    } else if a[i] > b[i] {
        false
    } else {
        numbers_le_from(a, b, i + 1)
    }
}

/// Whether the numbers `a` come before or with `b`.
pub open spec fn numbers_le(a: Seq<i64>, b: Seq<i64>) -> bool {
    numbers_le_from(a, b, 0)
}

/// Whether the tag `a` is shown before or with the tag `b`: `default`
/// last; among the others the one with the greater numbers first; and
/// tags with the same numbers in the order of their texts.
pub open spec fn shown_before(a: Seq<char>, b: Seq<char>) -> bool {
    let a_default = a == "default"@;
    let b_default = b == "default"@;
    if a_default != b_default {
        b_default
    } else if !numbers_le(tag_numbers(a), tag_numbers(b)) {
        true
    } else if !numbers_le(tag_numbers(b), tag_numbers(a)) {
        false
    } else {
        lex_le(a, b)
    }
}

/// The order in which tags are shown, as a relation.
pub open spec fn shown_leq() -> spec_fn(Seq<char>, Seq<char>) -> bool {
    |a: Seq<char>, b: Seq<char>| shown_before(a, b)
}

/// The tags in the order in which they are shown.
pub open spec fn shown_order(tags: Seq<Seq<char>>) -> Seq<Seq<char>> {
    tags.sort_by(shown_leq())
}

/// Whether each tag is shown before or with every later one.
pub open spec fn in_shown_order(tags: Seq<Seq<char>>) -> bool {
    forall|i: int, j: int|
        0 <= i < j < tags.len() ==> shown_before(#[trigger] tags[i], #[trigger] tags[j])
}

/// Of two lists of numbers, one comes before or with the other.
pub proof fn lemma_numbers_total(a: Seq<i64>, b: Seq<i64>, i: int)
    requires
        0 <= i,
    ensures
        numbers_le_from(a, b, i) || numbers_le_from(b, a, i),
    decreases a.len() - i,
{
    if i < a.len() && i < b.len() && a[i] == b[i] {
        lemma_numbers_total(a, b, i + 1);
    }
}

/// The order of lists of numbers is transitive.
pub proof fn lemma_numbers_transitive(a: Seq<i64>, b: Seq<i64>, c: Seq<i64>, i: int)
    requires
        0 <= i,
        numbers_le_from(a, b, i),
        numbers_le_from(b, c, i),
    ensures
        numbers_le_from(a, c, i),
    decreases a.len() - i,
{
    if i < a.len() && i < b.len() && i < c.len() && a[i] == b[i] && b[i] == c[i] {
        lemma_numbers_transitive(a, b, c, i + 1);
    }
}

/// Of two tags, one is shown before or with the other.
pub proof fn lemma_shown_total(a: Seq<char>, b: Seq<char>)
    ensures
        shown_before(a, b) || shown_before(b, a),
{
    lemma_numbers_total(tag_numbers(a), tag_numbers(b), 0);
    lemma_lex_total(a, b, 0);
}

/// The order in which tags are shown is transitive.
pub proof fn lemma_shown_transitive(a: Seq<char>, b: Seq<char>, c: Seq<char>)
    requires
        shown_before(a, b),
        shown_before(b, c),
    ensures
        shown_before(a, c),
{
    let na = tag_numbers(a);
    let nb = tag_numbers(b);
    let nc = tag_numbers(c);
    lemma_numbers_total(na, nb, 0);
    lemma_numbers_total(nb, nc, 0);
    lemma_numbers_total(na, nc, 0);
    if numbers_le(na, nb) && numbers_le(nb, nc) {
        lemma_numbers_transitive(na, nb, nc, 0);
    }
    if numbers_le(nc, nb) && numbers_le(nb, na) {
        lemma_numbers_transitive(nc, nb, na, 0);
    }
    if numbers_le(nb, na) && numbers_le(na, nc) {
        lemma_numbers_transitive(nb, na, nc, 0);
    }
    if numbers_le(nc, na) && numbers_le(na, nb) {
        lemma_numbers_transitive(nc, na, nb, 0);
    }
    if numbers_le(nb, nc) && numbers_le(nc, na) {
        lemma_numbers_transitive(nb, nc, na, 0);
    }
    if numbers_le(na, nc) && numbers_le(nc, nb) {
        lemma_numbers_transitive(na, nc, nb, 0);
    }
    if lex_le(a, b) && lex_le(b, c) {
        lemma_lex_transitive(a, b, c, 0);
    }
}

/// The order in which tags are shown is total: reflexive, antisymmetric,
/// transitive, and any two tags are comparable.
pub proof fn lemma_shown_total_ordering()
    ensures
        vstd::relations::total_ordering(shown_leq()),
{
    let r = shown_leq();
    assert forall|x: Seq<char>| #[trigger] r(x, x) by {
        lemma_shown_total(x, x);
    }
    assert forall|x: Seq<char>, y: Seq<char>| #[trigger] r(x, y) && #[trigger] r(y, x) implies x
        == y by {
        lemma_numbers_total(tag_numbers(x), tag_numbers(y), 0);
        crate::order::lemma_lex_antisymmetric(x, y, 0);
        assert(x.subrange(0, x.len() as int) =~= x);
        assert(y.subrange(0, y.len() as int) =~= y);
    }
    assert forall|x: Seq<char>, y: Seq<char>, z: Seq<char>| #[trigger]
        r(x, y) && #[trigger] r(y, z) implies r(x, z) by {
        lemma_shown_transitive(x, y, z);
    }
    assert forall|x: Seq<char>, y: Seq<char>| #[trigger] r(x, y) || #[trigger] r(y, x) by {
        lemma_shown_total(x, y);
    }
}

fn numbers_before(a: &Vec<i64>, b: &Vec<i64>) -> (r: bool)
    ensures
        r == numbers_le(a@, b@),
{
    let mut i: usize = 0;
    while i < a.len()
        invariant
            i <= a.len(),
            numbers_le(a@, b@) == numbers_le_from(a@, b@, i as int),
        decreases a.len() - i,
    {
        if i >= b.len() {
            return false;
        }
        if a[i] < b[i] {
            return true;
        }
        if a[i] > b[i] {
            return false;
        }
        i += 1;
    }
    true
}

fn tag_before(a: &str, b: &str) -> (r: bool)
    ensures
        r == shown_before(a@, b@),
{
    let ka = version_sort_key(a);
    let kb = version_sort_key(b);
    if ka.0 != kb.0 {
        return kb.0 == 1;
    }
    if !numbers_before(&ka.1, &kb.1) {
        return true;
    }
    if !numbers_before(&kb.1, &ka.1) {
        return false;
    }
    str_le(a, b)
}

/// Sorts tags for display: the newest version first, `default` last. The
/// same tags remain, each as often as before.
pub fn sort_versions_desc(tags: &mut Vec<String>)
    ensures
        in_shown_order(strings_view(final(tags)@)),
        strings_view(final(tags)@).to_multiset() == strings_view(old(tags)@).to_multiset(),
        strings_view(final(tags)@) == shown_order(strings_view(old(tags)@)),
{
    let ghost ts = strings_view(tags@);
    let mut out: Vec<String> = Vec::new();
    let mut i: usize = 0;
    proof {
        assert(ts.subrange(0, 0) =~= strings_view(out@));
    }
    while i < tags.len()
        invariant
            i <= tags.len(),
            ts == strings_view(tags@),
            in_shown_order(strings_view(out@)),
            strings_view(out@).to_multiset() == ts.subrange(0, i as int).to_multiset(),
        decreases tags.len() - i,
    {
        let item = tags[i].clone();
        assert(ts[i as int] == item@);
        let ghost os = strings_view(out@);
        let mut p: usize = 0;
        while p < out.len() && tag_before(out[p].as_str(), item.as_str())
            invariant
                p <= out.len(),
                os == strings_view(out@),
                forall|j: int| 0 <= j < p ==> shown_before(#[trigger] os[j], item@),
            decreases out.len() - p,
        {
            p += 1;
        }
        proof {
            let next = os.insert(p as int, item@);
            assert forall|a: int, b: int| 0 <= a < b < next.len() implies shown_before(
                #[trigger] next[a],
                #[trigger] next[b],
            ) by {
                if b < p {
                    assert(next[a] == os[a] && next[b] == os[b]);
                } else if b == p {
                    assert(next[a] == os[a]);
                } else if a == p {
                    assert(next[b] == os[b - 1]);
                    assert(os[p as int] == out@[p as int]@);
                    lemma_shown_total(os[p as int], item@);
                    if b - 1 > p {
                        assert(shown_before(os[p as int], os[b - 1]));
                        lemma_shown_transitive(item@, os[p as int], os[b - 1]);
                    }
                } else if a < p {
                    assert(next[a] == os[a] && next[b] == os[b - 1]);
                } else {
                    assert(next[a] == os[a - 1] && next[b] == os[b - 1]);
                }
            }
            assert(strings_view(out@.insert(p as int, item)) =~= next);
            vstd::seq_lib::to_multiset_insert(os, p as int, item@);
            assert(ts.subrange(0, i + 1) =~= ts.subrange(0, i as int).push(item@));
            vstd::seq_lib::to_multiset_build(ts.subrange(0, i as int), item@);
        }
        out.insert(p, item);
        i += 1;
    }
    proof {
        assert(ts.subrange(0, ts.len() as int) =~= ts);
        let sorted_tags = strings_view(out@);
        lemma_shown_total_ordering();
        ts.lemma_sort_by_ensures(shown_leq());
        assert(vstd::relations::sorted_by(sorted_tags, shown_leq())) by {
            assert forall|a: int, b: int| 0 <= a < b < sorted_tags.len() implies #[trigger] shown_leq()(
                sorted_tags[a],
                sorted_tags[b],
            ) by {
                assert(shown_before(sorted_tags[a], sorted_tags[b]));
            }
        }
        vstd::seq_lib::lemma_sorted_unique(sorted_tags, shown_order(ts), shown_leq());
    }
    *tags = out;
}

} // verus!
