//! Character-level helpers shared by the parsers of this crate.
//!
//! Every function here is stated over `Seq<char>`, the view of `str` and
//! `String`, so that callers can phrase their own contracts over plain
//! sequences.

use vstd::prelude::*;

verus! {

/// `String::push` appends exactly one character to the string.
pub assume_specification[ String::push ](s: &mut String, ch: char)
    ensures
        final(s)@ == old(s)@.push(ch),
;

/// The view of every string of a list, in order.
pub open spec fn strings_view(v: Seq<String>) -> Seq<Seq<char>> {
    Seq::new(v.len(), |i: int| v[i]@)
}

/// The view of an optional string.
pub open spec fn opt_view(o: Option<String>) -> Option<Seq<char>> {
    match o {
        Some(s) => Some(s@),
        None => None,
    }
}

/// Unicode `White_Space`, the set that `str::trim` removes.
pub open spec fn is_whitespace(c: char) -> bool {
    ('\u{9}' <= c && c <= '\u{d}') || c == ' ' || c == '\u{85}' || c == '\u{a0}' || c
        == '\u{1680}' || ('\u{2000}' <= c && c <= '\u{200a}') || c == '\u{2028}' || c
        == '\u{2029}' || c == '\u{202f}' || c == '\u{205f}' || c == '\u{3000}'
}

/// Index of the first `c` in `s` at or after `from`, or `-1`.
pub open spec fn first_index_from(s: Seq<char>, c: char, from: int) -> int
    decreases s.len() - from,
{
    if from < 0 || from >= s.len() {
        -1
    } else if s[from] == c {
        from
    } else {
        first_index_from(s, c, from + 1)
    }
}

/// Index of the first `c` in `s`, or `-1`.
pub open spec fn first_index_of(s: Seq<char>, c: char) -> int {
    first_index_from(s, c, 0)
}

/// Index of the last `c` in `s[..upto]`, or `-1`.
pub open spec fn last_index_upto(s: Seq<char>, c: char, upto: int) -> int
    decreases upto,
{
    if upto <= 0 || upto > s.len() {
        -1
    } else if s[upto - 1] == c {
        upto - 1
    } else {
        last_index_upto(s, c, upto - 1)
    }
}

/// Index of the last `c` in `s`, or `-1`.
pub open spec fn last_index_of(s: Seq<char>, c: char) -> int {
    last_index_upto(s, c, s.len() as int)
}

/// Index of the first non-whitespace character at or after `from`, or `s.len()`.
pub open spec fn skip_whitespace(s: Seq<char>, from: int) -> int
    decreases s.len() - from,
{
    if 0 <= from < s.len() && is_whitespace(s[from]) {
        skip_whitespace(s, from + 1)
    } else {
        from
    }
}

/// One past the last non-whitespace character of `s[lo..upto]`, or `lo`.
pub open spec fn drop_whitespace_back(s: Seq<char>, lo: int, upto: int) -> int
    decreases upto - lo,
{
    if lo < upto <= s.len() && is_whitespace(s[upto - 1]) {
        drop_whitespace_back(s, lo, upto - 1)
    } else {
        upto
    }
}

/// Where the trimmed text starts.
pub open spec fn trim_start(s: Seq<char>) -> int {
    skip_whitespace(s, 0)
}

/// Where the trimmed text ends.
pub open spec fn trim_end(s: Seq<char>) -> int {
    drop_whitespace_back(s, trim_start(s), s.len() as int)
}

/// `s` without leading and trailing whitespace.
pub open spec fn trim(s: Seq<char>) -> Seq<char> {
    s.subrange(trim_start(s), trim_end(s))
}

/// Whether `s` begins with `p`.
pub open spec fn starts_with(s: Seq<char>, p: Seq<char>) -> bool {
    p.len() <= s.len() && s.subrange(0, p.len() as int) == p
}

/// Whether `s` ends with `p`.
pub open spec fn ends_with(s: Seq<char>, p: Seq<char>) -> bool {
    p.len() <= s.len() && s.subrange(s.len() - p.len(), s.len() as int) == p
}

/// Index of the first `a` or `b` in `s` at or after `from`, or `-1`.
pub open spec fn first_sep_from(s: Seq<char>, a: char, b: char, from: int) -> int
    decreases s.len() - from,
{
    if from < 0 || from >= s.len() {
        -1
    } else if s[from] == a || s[from] == b {
        from
    } else {
        first_sep_from(s, a, b, from + 1)
    }
}

/// The pieces of `s[from..]` between occurrences of `a` or `b`. There is
/// always at least one piece, and pieces may be empty.
pub open spec fn split_from(s: Seq<char>, a: char, b: char, from: int) -> Seq<Seq<char>>
    decreases s.len() - from,
{
    let k = first_sep_from(s, a, b, from);
    if from < 0 || from > s.len() {
        seq![Seq::<char>::empty()]
    } else if k < from || k >= s.len() {
        seq![s.subrange(from, s.len() as int)]
    } else {
        seq![s.subrange(from, k)] + split_from(s, a, b, k + 1)
    }
}

/// The pieces of `s` between occurrences of `sep`.
pub open spec fn split(s: Seq<char>, sep: char) -> Seq<Seq<char>> {
    split_from(s, sep, sep, 0)
}

/// The pieces of `s` between occurrences of `a` or `b`.
pub open spec fn split_any(s: Seq<char>, a: char, b: char) -> Seq<Seq<char>> {
    split_from(s, a, b, 0)
}

/// The first `n` items of `parts` joined by `sep`.
pub open spec fn join_upto(parts: Seq<Seq<char>>, sep: Seq<char>, n: int) -> Seq<char>
    decreases n,
{
    if n <= 0 || n > parts.len() {
        Seq::<char>::empty()
    } else if n == 1 {
        parts[0]
    } else {
        join_upto(parts, sep, n - 1) + sep + parts[n - 1]
    }
}

/// The items of `parts` joined by `sep`.
pub open spec fn join(parts: Seq<Seq<char>>, sep: Seq<char>) -> Seq<char> {
    join_upto(parts, sep, parts.len() as int)
}

/// What the first index of a character is: within bounds, at that
/// character, and behind nothing but other characters.
pub proof fn lemma_first_index_from(s: Seq<char>, c: char, from: int)
    requires
        0 <= from <= s.len(),
    ensures
        ({
            let k = first_index_from(s, c, from);
            &&& (k == -1 || from <= k < s.len())
            &&& (k >= 0 ==> s[k] == c)
            &&& forall|j: int| from <= j < (if k < 0 { s.len() as int } else { k }) ==> s[j] != c
        }),
    decreases s.len() - from,
{
    if from < s.len() && s[from] != c {
        lemma_first_index_from(s, c, from + 1);
    }
}

/// An index at the character that nothing but other characters precede is
/// the first index of the character.
pub proof fn lemma_first_index_is(s: Seq<char>, c: char, from: int, k: int)
    requires
        0 <= from <= k < s.len(),
        s[k] == c,
        forall|j: int| from <= j < k ==> s[j] != c,
    ensures
        first_index_from(s, c, from) == k,
    decreases k - from,
{
    if from < k {
        lemma_first_index_is(s, c, from + 1, k);
    }
}

/// What the last index of a character is: within bounds, at that
/// character, and before nothing but other characters.
pub proof fn lemma_last_index_upto(s: Seq<char>, c: char, upto: int)
    requires
        0 <= upto <= s.len(),
    ensures
        ({
            let k = last_index_upto(s, c, upto);
            &&& -1 <= k < upto
            &&& (k >= 0 ==> s[k] == c)
            &&& forall|j: int| k < j < upto ==> s[j] != c
        }),
    decreases upto,
{
    if upto > 0 && s[upto - 1] != c {
        lemma_last_index_upto(s, c, upto - 1);
    }
}

/// An index at the character that nothing but other characters follow is
/// the last index of the character.
pub proof fn lemma_last_index_is(s: Seq<char>, c: char, upto: int, k: int)
    requires
        0 <= k < upto <= s.len(),
        s[k] == c,
        forall|j: int| k < j < upto ==> s[j] != c,
    ensures
        last_index_upto(s, c, upto) == k,
    decreases upto,
{
    if upto - 1 > k {
        lemma_last_index_upto(s, c, upto - 1);
        lemma_last_index_is(s, c, upto - 1, k);
    }
}

/// An index at a separator that no separator precedes is the first index
/// of a separator.
pub proof fn lemma_first_sep_is(s: Seq<char>, a: char, b: char, from: int, k: int)
    requires
        0 <= from <= k < s.len(),
        s[k] == a || s[k] == b,
        forall|j: int| from <= j < k ==> s[j] != a && s[j] != b,
    ensures
        first_sep_from(s, a, b, from) == k,
    decreases k - from,
{
    if from < k {
        lemma_first_sep_is(s, a, b, from + 1, k);
    }
}

/// Where no separator follows, there is no first index of a separator.
pub proof fn lemma_first_sep_none(s: Seq<char>, a: char, b: char, from: int)
    requires
        0 <= from <= s.len(),
        forall|j: int| from <= j < s.len() ==> s[j] != a && s[j] != b,
    ensures
        first_sep_from(s, a, b, from) == -1,
    decreases s.len() - from,
{
    if from < s.len() {
        lemma_first_sep_none(s, a, b, from + 1);
    }
}

/// The characters of `s`, in order.
pub fn chars_of(s: &str) -> (v: Vec<char>)
    ensures
        v@ == s@,
{
    let mut v: Vec<char> = Vec::new();
    for c in it: s.chars()
        invariant
            it.seq() == s@,
            v@ == it.seq().take(it.index() as int),
    {
        proof {
            assert(it.seq().take(it.index() + 1) =~= it.seq().take(it.index() as int).push(c));
        }
        v.push(c);
    }
    proof {
        assert(s@.take(s@.len() as int) =~= s@);
    }
    v
}

/// The string made of the characters `v[from..to]`.
pub(crate) fn string_of(v: &Vec<char>, from: usize, to: usize) -> (s: String)
    requires
        from <= to <= v.len(),
    ensures
        s@ == v@.subrange(from as int, to as int),
{
    let mut s = String::new();
    let mut i: usize = from;
    while i < to
        invariant
            from <= i <= to <= v.len(),
            s@ == v@.subrange(from as int, i as int),
        decreases to - i,
    {
        proof {
            assert(v@.subrange(from as int, i + 1) =~= v@.subrange(from as int, i as int).push(
                v@[i as int],
            ));
        }
        s.push(v[i]);
        i += 1;
    }
    s
}

/// The string made of all the characters of `v`.
pub fn string_from_chars(v: &Vec<char>) -> (s: String)
    ensures
        s@ == v@,
{
    proof {
        assert(v@.subrange(0, v@.len() as int) =~= v@);
    }
    string_of(v, 0, v.len())
}

/// Executable test for [`is_whitespace`].
pub fn char_is_whitespace(c: char) -> (b: bool)
    ensures
        b == is_whitespace(c),
{
    ('\u{9}' <= c && c <= '\u{d}') || c == ' ' || c == '\u{85}' || c == '\u{a0}' || c
        == '\u{1680}' || ('\u{2000}' <= c && c <= '\u{200a}') || c == '\u{2028}' || c
        == '\u{2029}' || c == '\u{202f}' || c == '\u{205f}' || c == '\u{3000}'
}

/// Whether two vectors hold the same characters.
pub fn chars_eq(a: &Vec<char>, b: &Vec<char>) -> (r: bool)
    ensures
        r == (a@ == b@),
{
    if a.len() != b.len() {
        return false;
    }
    let mut i: usize = 0;
    while i < a.len()
        invariant
            a.len() == b.len(),
            i <= a.len(),
            forall|j: int| 0 <= j < i ==> a@[j] == b@[j],
        decreases a.len() - i,
    {
        if a[i] != b[i] {
            return false;
        }
        i += 1;
    }
    proof {
        assert(a@ =~= b@);
    }
    true
}

/// Whether two strings hold the same characters.
pub fn str_eq(a: &str, b: &str) -> (r: bool)
    ensures
        r == (a@ == b@),
{
    let av = chars_of(a);
    let bv = chars_of(b);
    chars_eq(&av, &bv)
}

/// Whether `v[at..]` begins with the characters of `p`.
pub(crate) fn has_chars_at(v: &Vec<char>, at: usize, p: &Vec<char>) -> (r: bool)
    requires
        at <= v.len(),
    ensures
        r == (at + p.len() <= v.len() && v@.subrange(at as int, at + p.len()) == p@),
{
    if p.len() > v.len() - at {
        return false;
    }
    let mut i: usize = 0;
    while i < p.len()
        invariant
            at + p.len() <= v.len(),
            i <= p.len(),
            forall|j: int| 0 <= j < i ==> v@[at + j] == p@[j],
        decreases p.len() - i,
    {
        if v[at + i] != p[i] {
            proof {
                assert(v@.subrange(at as int, at + p.len())[i as int] == v@[at + i]);
            }
            return false;
        }
        i += 1;
    }
    proof {
        assert(v@.subrange(at as int, at + p.len()) =~= p@);
    }
    true
}

/// Whether `s` begins with `p`.
pub fn str_starts_with(s: &str, p: &str) -> (r: bool)
    ensures
        r == starts_with(s@, p@),
{
    let sv = chars_of(s);
    let pv = chars_of(p);
    has_chars_at(&sv, 0, &pv)
}

/// Whether `s` ends with `p`.
pub fn str_ends_with(s: &str, p: &str) -> (r: bool)
    ensures
        r == ends_with(s@, p@),
{
    let sv = chars_of(s);
    let pv = chars_of(p);
    if pv.len() > sv.len() {
        return false;
    }
    has_chars_at(&sv, sv.len() - pv.len(), &pv)
}

/// Whether `s` begins with the character `c`.
pub fn str_starts_with_char(s: &str, c: char) -> (r: bool)
    ensures
        r == (s@.len() > 0 && s@[0] == c),
{
    let n = s.unicode_len();
    n > 0 && s.get_char(0) == c
}

/// Whether `c` occurs in `v`.
pub fn chars_contain(v: &Vec<char>, c: char) -> (r: bool)
    ensures
        r == v@.contains(c),
{
    let mut i: usize = 0;
    while i < v.len()
        invariant
            i <= v.len(),
            forall|j: int| 0 <= j < i ==> v@[j] != c,
        decreases v.len() - i,
    {
        if v[i] == c {
            return true;
        }
        i += 1;
    }
    false
}

/// Whether `c` occurs in `s`.
pub fn str_contains_char(s: &str, c: char) -> (r: bool)
    ensures
        r == s@.contains(c),
{
    let v = chars_of(s);
    chars_contain(&v, c)
}

/// The first index of `c` in `v`, if any.
pub fn find_first(v: &Vec<char>, c: char) -> (r: Option<usize>)
    ensures
        match r {
            Some(k) => k as int == first_index_of(v@, c),
            None => first_index_of(v@, c) == -1,
        },
{
    let mut i: usize = 0;
    while i < v.len()
        invariant
            i <= v.len(),
            first_index_of(v@, c) == first_index_from(v@, c, i as int),
        decreases v.len() - i,
    {
        if v[i] == c {
            return Some(i);
        }
        i += 1;
    }
    None
}

/// The last index of `c` in `v`, if any.
pub fn find_last(v: &Vec<char>, c: char) -> (r: Option<usize>)
    ensures
        match r {
            Some(k) => k as int == last_index_of(v@, c),
            None => last_index_of(v@, c) == -1,
        },
{
    let mut i: usize = v.len();
    while i > 0
        invariant
            i <= v.len(),
            last_index_of(v@, c) == last_index_upto(v@, c, i as int),
        decreases i,
    {
        if v[i - 1] == c {
            return Some(i - 1);
        }
        i -= 1;
    }
    None
}

/// The bounds of the trimmed text inside `v`.
pub fn trim_bounds(v: &Vec<char>) -> (r: (usize, usize))
    ensures
        r.0 as int == trim_start(v@),
        r.1 as int == trim_end(v@),
        r.0 <= r.1 <= v.len(),
{
    let mut a: usize = 0;
    while a < v.len() && char_is_whitespace(v[a])
        invariant
            a <= v.len(),
            skip_whitespace(v@, 0) == skip_whitespace(v@, a as int),
        decreases v.len() - a,
    {
        a += 1;
    }
    let mut b: usize = v.len();
    while b > a && char_is_whitespace(v[b - 1])
        invariant
            a <= b <= v.len(),
            drop_whitespace_back(v@, a as int, v@.len() as int) == drop_whitespace_back(
                v@,
                a as int,
                b as int,
            ),
        decreases b - a,
    {
        b -= 1;
    }
    (a, b)
}

/// `s` without leading and trailing whitespace.
pub fn trimmed(s: &str) -> (r: String)
    ensures
        r@ == trim(s@),
{
    let v = chars_of(s);
    let (a, b) = trim_bounds(&v);
    string_of(&v, a, b)
}

/// The pieces of `s` between occurrences of `a` or `b`.
pub fn split_chars(v: &Vec<char>, a: char, b: char) -> (out: Vec<String>)
    ensures
        strings_view(out@) == split_any(v@, a, b),
{
    let mut out: Vec<String> = Vec::new();
    let mut start: usize = 0;
    let mut i: usize = 0;
    while i < v.len()
        invariant
            start <= i <= v.len(),
            forall|j: int| start <= j < i ==> v@[j] != a && v@[j] != b,
            strings_view(out@) + split_from(v@, a, b, start as int) == split_any(v@, a, b),
        decreases v.len() - i,
    {
        if v[i] == a || v[i] == b {
            let piece = string_of(v, start, i);
            proof {
                lemma_first_sep_is(v@, a, b, start as int, i as int);
                assert(strings_view(out@.push(piece)) =~= strings_view(out@) + seq![piece@]);
                assert(strings_view(out@.push(piece)) + split_from(v@, a, b, i + 1)
                    =~= strings_view(out@) + split_from(v@, a, b, start as int));
            }
            out.push(piece);
            start = i + 1;
        }
        i += 1;
    }
    let piece = string_of(v, start, v.len());
    proof {
        lemma_first_sep_none(v@, a, b, start as int);
        assert(strings_view(out@.push(piece)) =~= strings_view(out@) + seq![piece@]);
    }
    out.push(piece);
    out
}

/// The pieces of `s` between occurrences of `sep`.
pub fn split_str(s: &str, sep: char) -> (out: Vec<String>)
    ensures
        strings_view(out@) == split(s@, sep),
{
    let v = chars_of(s);
    split_chars(&v, sep, sep)
}

/// The strings of `parts` joined by `sep`.
pub fn join_strings(parts: &Vec<String>, sep: &str) -> (r: String)
    ensures
        r@ == join(strings_view(parts@), sep@),
{
    let mut r = String::new();
    let mut i: usize = 0;
    while i < parts.len()
        invariant
            i <= parts.len(),
            r@ == join_upto(strings_view(parts@), sep@, i as int),
        decreases parts.len() - i,
    {
        if i > 0 {
            r.append(sep);
        }
        r.append(parts[i].as_str());
        proof {
            assert(strings_view(parts@)[i as int] == parts@[i as int]@);
            if i == 0 {
                assert(r@ =~= parts@[0]@);
            }
        }
        i += 1;
    }
    r
}

/// A copy of a list of strings.
pub fn clone_strings(v: &Vec<String>) -> (r: Vec<String>)
    ensures
        strings_view(r@) == strings_view(v@),
{
    let mut r: Vec<String> = Vec::new();
    let mut i: usize = 0;
    while i < v.len()
        invariant
            i <= v.len(),
            r@.len() == i,
            forall|j: int| 0 <= j < i ==> r@[j]@ == v@[j]@,
        decreases v.len() - i,
    {
        r.push(v[i].clone());
        i += 1;
    }
    proof {
        assert(strings_view(r@) =~= strings_view(v@));
    }
    r
}

/// A copy of an optional string.
pub fn clone_opt(o: &Option<String>) -> (r: Option<String>)
    ensures
        opt_view(r) == opt_view(*o),
{
    match o {
        Some(s) => Some(s.clone()),
        None => None,
    }
}

/// Whether `item` occurs in `list`.
pub fn list_contains(list: &Vec<String>, item: &str) -> (r: bool)
    ensures
        r == strings_view(list@).contains(item@),
{
    let mut i: usize = 0;
    while i < list.len()
        invariant
            i <= list.len(),
            forall|j: int| 0 <= j < i ==> strings_view(list@)[j] != item@,
        decreases list.len() - i,
    {
        if str_eq(list[i].as_str(), item) {
            proof {
                assert(strings_view(list@)[i as int] == item@);
            }
            return true;
        }
        i += 1;
    }
    false
}

/// Whether `pat` stands in `s` at `i`.
pub open spec fn occurs_at(s: Seq<char>, pat: Seq<char>, i: int) -> bool {
    0 <= i && i + pat.len() <= s.len() && s.subrange(i, i + pat.len()) == pat
}

/// `s[from..]` with every occurrence of `pat` replaced by `to`, the
/// occurrences taken from left to right and never overlapping. An empty
/// `pat` occurs nowhere.
pub open spec fn replace_from(s: Seq<char>, pat: Seq<char>, to: Seq<char>, from: int) -> Seq<char>
    decreases s.len() - from,
{
    if from < 0 || from >= s.len() {
        Seq::<char>::empty()
    } else if pat.len() > 0 && occurs_at(s, pat, from) {
        to + replace_from(s, pat, to, from + pat.len())
    } else {
        seq![s[from]] + replace_from(s, pat, to, from + 1)
    }
}

/// `s` with every occurrence of `pat` replaced by `to`.
pub open spec fn replaced(s: Seq<char>, pat: Seq<char>, to: Seq<char>) -> Seq<char> {
    replace_from(s, pat, to, 0)
}

/// Replaces every occurrence of `pat` in `s` by `to`.
pub fn replace_all(s: &str, pat: &str, to: &str) -> (r: String)
    ensures
        r@ == replaced(s@, pat@, to@),
{
    let v = chars_of(s);
    let p = chars_of(pat);
    let mut r = String::new();
    let mut i: usize = 0;
    while i < v.len()
        invariant
            i <= v.len(),
            v@ == s@,
            p@ == pat@,
            r@ + replace_from(v@, p@, to@, i as int) == replaced(v@, p@, to@),
        decreases v.len() - i,
    {
        let ghost before = r@;
        if p.len() > 0 && has_chars_at(&v, i, &p) {
            r.append(to);
            proof {
                assert(r@ + replace_from(v@, p@, to@, i + p@.len()) =~= before + replace_from(
                    v@,
                    p@,
                    to@,
                    i as int,
                ));
            }
            i += p.len();
        } else {
            r.push(v[i]);
            proof {
                assert(r@ + replace_from(v@, p@, to@, i + 1) =~= before + replace_from(
                    v@,
                    p@,
                    to@,
                    i as int,
                ));
            }
            i += 1;
        }
    }
    proof {
        assert(r@ =~= replaced(v@, p@, to@));
    }
    r
}


/// The character of one decimal digit.
pub open spec fn digit_char(d: nat) -> char {
    if d == 0 {
        '0'
    } else if d == 1 {
        '1'
    } else if d == 2 {
        '2'
    } else if d == 3 {
        '3'
    } else if d == 4 {
        '4'
    } else if d == 5 {
        '5'
    } else if d == 6 {
        '6'
    } else if d == 7 {
        '7'
    } else if d == 8 {
        '8'
    } else {
        '9'
    }
}

/// `n` written in decimal.
pub open spec fn decimal(n: nat) -> Seq<char>
    decreases n,
{
    if n < 10 {
        seq![digit_char(n)]
    } else {
        decimal(n / 10).push(digit_char(n % 10))
    }
}

fn digit(d: u32) -> (c: char)
    requires
        d < 10,
    ensures
        c == digit_char(d as nat),
{
    if d == 0 {
        '0'
    } else if d == 1 {
        '1'
    } else if d == 2 {
        '2'
    } else if d == 3 {
        '3'
    } else if d == 4 {
        '4'
    } else if d == 5 {
        '5'
    } else if d == 6 {
        '6'
    } else if d == 7 {
        '7'
    } else if d == 8 {
        '8'
    } else {
        '9'
    }
}

/// Appends `n` in decimal to `s`.
pub fn push_decimal(s: &mut String, n: u32)
    ensures
        final(s)@ == old(s)@ + decimal(n as nat),
    decreases n,
{
    if n >= 10 {
        push_decimal(s, n / 10);
    }
    s.push(digit(n % 10));
    proof {
        assert(s@ =~= old(s)@ + decimal(n as nat));
    }
}

} // verus!
