//! Splitting an argument string into words the way a shell does, and
//! removing the terminal flag from such a string.

use crate::text::{chars_eq, chars_of, string_from_chars, strings_view};
use vstd::prelude::*;

verus! {

/// Where the splitter stands after some characters.
pub struct SplitState {
    /// The words that are complete.
    pub words: Seq<Seq<char>>,
    /// The word being read.
    pub current: Seq<char>,
    pub in_single_quote: bool,
    pub in_double_quote: bool,
    /// Whether the last character was an unquoted backslash.
    pub escape_next: bool,
}

/// The state before any character.
pub open spec fn split_start() -> SplitState {
    SplitState {
        words: Seq::empty(),
        current: Seq::empty(),
        in_single_quote: false,
        in_double_quote: false,
        escape_next: false,
    }
}

/// The state after one more character.
///
/// A backslash outside single quotes makes the next character literal. A
/// quote opens or closes its kind of quoting unless it stands inside the
/// other kind. A space or tab outside quotes ends the current word, if
/// there is one. Every other character joins the current word.
pub open spec fn split_step(st: SplitState, ch: char) -> SplitState {
    if st.escape_next {
        SplitState { current: st.current.push(ch), escape_next: false, ..st }
    } else if ch == '\\' && !st.in_single_quote {
        SplitState { escape_next: true, ..st }
    } else if ch == '\'' && !st.in_double_quote {
        SplitState { in_single_quote: !st.in_single_quote, ..st }
    } else if ch == '"' && !st.in_single_quote {
        SplitState { in_double_quote: !st.in_double_quote, ..st }
    } else if (ch == ' ' || ch == '\t') && !st.in_single_quote && !st.in_double_quote {
        if st.current.len() > 0 {
            SplitState { words: st.words.push(st.current), current: Seq::empty(), ..st }
        } else {
            st
        }
    } else {
        SplitState { current: st.current.push(ch), ..st }
    }
}

/// The state after the first `n` characters of `s`.
pub open spec fn split_run(s: Seq<char>, n: int) -> SplitState
    decreases n,
{
    if n <= 0 || n > s.len() {
        split_start()
    } else {
        split_step(split_run(s, n - 1), s[n - 1])
    }
}

/// The words of `s`. A word that is still open at the end counts; an open
/// quote is closed by the end of the text.
pub open spec fn shell_words(s: Seq<char>) -> Seq<Seq<char>> {
    let st = split_run(s, s.len() as int);
    if st.current.len() > 0 {
        st.words.push(st.current)
    } else {
        st.words
    }
}

/// Splits `s` into words at unquoted spaces and tabs, honouring single
/// quotes, double quotes and backslashes.
pub fn shell_split(s: &str) -> (result: Vec<String>)
    ensures
        strings_view(result@) == shell_words(s@),
{
    let v = chars_of(s);
    let mut result: Vec<String> = Vec::new();
    let mut current: Vec<char> = Vec::new();
    let mut in_single_quote = false;
    let mut in_double_quote = false;
    let mut escape_next = false;
    let mut i: usize = 0;
    proof {
        assert(strings_view(result@) =~= split_start().words);
    }
    while i < v.len()
        invariant
            i <= v.len(),
            v@ == s@,
            split_run(v@, i as int) == (SplitState {
                words: strings_view(result@),
                current: current@,
                in_single_quote,
                in_double_quote,
                escape_next,
            }),
        decreases v.len() - i,
    {
        let ch = v[i];
        if escape_next {
            current.push(ch);
            escape_next = false;
        } else if ch == '\\' && !in_single_quote {
            escape_next = true;
        } else if ch == '\'' && !in_double_quote {
            in_single_quote = !in_single_quote;
        } else if ch == '"' && !in_single_quote {
            in_double_quote = !in_double_quote;
        } else if (ch == ' ' || ch == '\t') && !in_single_quote && !in_double_quote {
            if current.len() > 0 {
                let word = string_from_chars(&current);
                proof {
                    assert(strings_view(result@.push(word)) =~= strings_view(result@).push(
                        current@,
                    ));
                }
                result.push(word);
                current = Vec::new();
                proof {
                    assert(current@ =~= Seq::<char>::empty());
                }
            }
        } else {
            current.push(ch);
        }
        i += 1;
    }
    if current.len() > 0 {
        let word = string_from_chars(&current);
        proof {
            assert(strings_view(result@.push(word)) =~= strings_view(result@).push(current@));
        }
        result.push(word);
    }
    result
}

/// The first `n` characters of `s` without any `c`.
pub open spec fn without_char(s: Seq<char>, c: char, n: int) -> Seq<char>
    decreases n,
{
    if n <= 0 || n > s.len() {
        Seq::<char>::empty()
    } else if s[n - 1] == c {
        without_char(s, c, n - 1)
    } else {
        without_char(s, c, n - 1).push(s[n - 1])
    }
}

/// Whether a word is a cluster of short flags such as `-it`: one dash, not
/// two, and something after it.
pub open spec fn is_short_cluster(w: Seq<char>) -> bool {
    w.len() > 1 && w[0] == '-' && w[1] != '-'
}

/// What is left of one word once the terminal flag is taken out, or
/// nothing where the word was only that flag.
pub open spec fn strip_tty_word(w: Seq<char>) -> Option<Seq<char>> {
    if w == "-t"@ || w == "--tty"@ {
        None
    } else if is_short_cluster(w) {
        let stripped = without_char(w, 't', w.len() as int);
        if stripped == seq!['-'] {
            None
        } else {
            Some(stripped)
        }
    } else {
        Some(w)
    }
}

/// The first `n` words with the terminal flag taken out of each.
pub open spec fn strip_tty_words(words: Seq<Seq<char>>, n: int) -> Seq<Seq<char>>
    decreases n,
{
    if n <= 0 || n > words.len() {
        Seq::empty()
    } else {
        match strip_tty_word(words[n - 1]) {
            Some(w) => strip_tty_words(words, n - 1).push(w),
            None => strip_tty_words(words, n - 1),
        }
    }
}

/// Whether the terminal flag touches a word: the word is that flag, or a
/// cluster of short flags with a `t` in it.
pub open spec fn word_holds_tty_flag(w: Seq<char>) -> bool {
    strip_tty_word(w) != Some(w)
}

/// Whether some word of an argument string holds the terminal flag.
pub open spec fn holds_tty_flag(args: Seq<char>) -> bool {
    exists|i: int|
        0 <= i < shell_words(args).len() && #[trigger] word_holds_tty_flag(shell_words(args)[i])
}

/// Whether `ch` ends a word in state `st`: a space or tab outside quotes
/// that no backslash precedes.
pub open spec fn ends_word(st: SplitState, ch: char) -> bool {
    (ch == ' ' || ch == '\t') && !st.escape_next && !st.in_single_quote && !st.in_double_quote
}

/// The first `n` characters of a word as it is written, without its `t`s:
/// each `t` goes, and with it the backslash that protects it, if there is
/// one. Quotes and all other characters stay.
pub open spec fn unflagged_upto(raw: Seq<char>, n: int) -> Seq<char>
    decreases n,
{
    if n <= 0 || n > raw.len() {
        Seq::<char>::empty()
    } else if raw[n - 1] != 't' {
        unflagged_upto(raw, n - 1).push(raw[n - 1])
    } else if split_run(raw, n - 1).escape_next {
        unflagged_upto(raw, n - 1).drop_last()
    } else {
        unflagged_upto(raw, n - 1)
    }
}

/// A word as it is written, without its `t`s.
pub open spec fn unflagged(raw: Seq<char>) -> Seq<char> {
    unflagged_upto(raw, raw.len() as int)
}

/// What is written for a word that was written as `raw` and is read as
/// `word`: nothing where the word is the terminal flag; `raw` itself where
/// the flag does not touch the word; and `raw` without its `t`s where the
/// word is a cluster that loses them.
pub open spec fn written_word(raw: Seq<char>, word: Seq<char>) -> Option<Seq<char>> {
    match strip_tty_word(word) {
        None => None,
        Some(w) => if w == word {
            Some(raw)
        } else {
            Some(unflagged(raw))
        },
    }
}

/// Where the removal of the terminal flag stands after some characters.
pub struct StripState {
    /// What has been written: all that precedes the word being read.
    pub out: Seq<char>,
    /// The word being read, as it is written.
    pub raw: Seq<char>,
}

/// The state of the removal after the first `n` characters of `s`.
///
/// A character that ends a word settles what is written for that word, and
/// is written behind it. A word that is dropped takes that character with
/// it. Every other character belongs to the word being read.
pub open spec fn strip_run(s: Seq<char>, n: int) -> StripState
    decreases n,
{
    if n <= 0 || n > s.len() {
        StripState { out: Seq::empty(), raw: Seq::empty() }
    } else {
        let before = strip_run(s, n - 1);
        let st = split_run(s, n - 1);
        if ends_word(st, s[n - 1]) {
            StripState {
                out: match written_word(before.raw, st.current) {
                    Some(t) => before.out + t.push(s[n - 1]),
                    None => before.out,
                },
                raw: Seq::empty(),
            }
        } else {
            StripState { out: before.out, raw: before.raw.push(s[n - 1]) }
        }
    }
}

/// The argument string `args` without `-t` and `--tty`, each with the
/// blank behind it, and without the `t` of short clusters such as `-it`
/// and `-dit`. Everything else stays as it is written, blanks, quotes and
/// backslashes included.
pub open spec fn stripped_args(args: Seq<char>) -> Seq<char> {
    let st = strip_run(args, args.len() as int);
    match written_word(st.raw, split_run(args, args.len() as int).current) {
        Some(t) => st.out + t,
        None => st.out,
    }
}

/// Taking out a character keeps the first one where that is another.
pub proof fn lemma_without_char_keeps_first(s: Seq<char>, c: char, n: int)
    requires
        1 <= n <= s.len(),
        s[0] != c,
    ensures
        without_char(s, c, n).len() >= 1,
        without_char(s, c, n)[0] == s[0],
    decreases n,
{
    if n > 1 {
        lemma_without_char_keeps_first(s, c, n - 1);
    } else {
        assert(without_char(s, c, 0) =~= Seq::<char>::empty());
    }
}

/// What becomes of a word when the terminal flag is removed.
enum Fate {
    Kept,
    Dropped,
    Changed,
}

/// Decides what becomes of `word`.
fn fate_of(word: &Vec<char>) -> (f: Fate)
    ensures
        match f {
            Fate::Kept => strip_tty_word(word@) == Some(word@),
            Fate::Dropped => strip_tty_word(word@) is None,
            Fate::Changed => strip_tty_word(word@) is Some && strip_tty_word(word@) != Some(word@),
        },
{
    let short = chars_of("-t");
    let long = chars_of("--tty");
    if chars_eq(word, &short) || chars_eq(word, &long) {
        return Fate::Dropped;
    }
    if word.len() > 1 && word[0] == '-' && word[1] != '-' {
        let mut stripped: Vec<char> = Vec::new();
        let mut i: usize = 0;
        while i < word.len()
            invariant
                i <= word.len(),
                stripped@ == without_char(word@, 't', i as int),
                stripped@.len() <= i,
            decreases word.len() - i,
        {
            if word[i] != 't' {
                stripped.push(word[i]);
            }
            i += 1;
        }
        proof {
            lemma_without_char_keeps_first(word@, 't', word@.len() as int);
            if stripped@.len() == 1 {
                assert(stripped@ =~= seq!['-']);
            }
        }
        if stripped.len() == 1 {
            Fate::Dropped
        } else if chars_eq(&stripped, word) {
            Fate::Kept
        } else {
            Fate::Changed
        }
    } else {
        Fate::Kept
    }
}

/// Appends `more` to `out`.
fn append_chars(out: &mut Vec<char>, more: &Vec<char>)
    ensures
        final(out)@ == old(out)@ + more@,
{
    let ghost before = out@;
    let mut i: usize = 0;
    proof {
        assert(before + more@.subrange(0, 0) =~= before);
    }
    while i < more.len()
        invariant
            i <= more.len(),
            out@ == before + more@.subrange(0, i as int),
        decreases more.len() - i,
    {
        proof {
            assert((before + more@.subrange(0, i as int)).push(more@[i as int]) =~= before
                + more@.subrange(0, i + 1));
        }
        out.push(more[i]);
        i += 1;
    }
    proof {
        assert(more@.subrange(0, more@.len() as int) =~= more@);
    }
}

/// Appends to `out` the word written as `raw`, without its `t`s.
fn append_unflagged(out: &mut Vec<char>, raw: &Vec<char>)
    ensures
        final(out)@ == old(out)@ + unflagged(raw@),
{
    let ghost before = out@;
    let mut in_single_quote = false;
    let mut in_double_quote = false;
    let mut escape_next = false;
    let mut i: usize = 0;
    proof {
        assert(before + unflagged_upto(raw@, 0) =~= before);
    }
    while i < raw.len()
        invariant
            i <= raw.len(),
            out@ == before + unflagged_upto(raw@, i as int),
            split_run(raw@, i as int).in_single_quote == in_single_quote,
            split_run(raw@, i as int).in_double_quote == in_double_quote,
            split_run(raw@, i as int).escape_next == escape_next,
            escape_next ==> unflagged_upto(raw@, i as int).len() > 0,
        decreases raw.len() - i,
    {
        let ch = raw[i];
        let ghost sofar = unflagged_upto(raw@, i as int);
        if ch == 't' {
            if escape_next {
                out.pop();
                proof {
                    assert(out@ =~= before + sofar.drop_last());
                }
            }
            escape_next = false;
        } else {
            proof {
                assert((before + sofar).push(ch) =~= before + sofar.push(ch));
            }
            out.push(ch);
            if escape_next {
                escape_next = false;
            } else if ch == '\\' && !in_single_quote {
                escape_next = true;
            } else if ch == '\'' && !in_double_quote {
                in_single_quote = !in_single_quote;
            } else if ch == '"' && !in_single_quote {
                in_double_quote = !in_double_quote;
            }
        }
        i += 1;
    }
}

/// Writes what is to be written for one word, and tells whether anything
/// was to be written.
fn write_word(out: &mut Vec<char>, raw: &Vec<char>, word: &Vec<char>) -> (written: bool)
    ensures
        match written_word(raw@, word@) {
            Some(t) => written && final(out)@ == old(out)@ + t,
            None => !written && final(out)@ == old(out)@,
        },
{
    match fate_of(word) {
        Fate::Kept => {
            append_chars(out, raw);
            true
        },
        Fate::Dropped => false,
        Fate::Changed => {
            append_unflagged(out, raw);
            true
        },
    }
}

/// Removes the terminal flag from an argument string: `-t` and `--tty`
/// disappear, each with the blank behind it, and so does the `t` in a
/// cluster of short flags. Nothing else is touched. A string without the
/// flag comes back as it is; in every other string what remains keeps its
/// quotes, backslashes and blanks, so that the remaining words split as
/// before.
pub fn strip_tty_flag(args: &str) -> (r: String)
    ensures
        r@ == stripped_args(args@),
        !holds_tty_flag(args@) ==> r@ == args@,
        shell_words(r@) == strip_tty_words(shell_words(args@), shell_words(args@).len() as int),
{
    let v = chars_of(args);
    let mut out: Vec<char> = Vec::new();
    let mut raw: Vec<char> = Vec::new();
    let mut current: Vec<char> = Vec::new();
    let mut in_single_quote = false;
    let mut in_double_quote = false;
    let mut escape_next = false;
    let mut i: usize = 0;
    while i < v.len()
        invariant
            i <= v.len(),
            v@ == args@,
            split_run(v@, i as int).current == current@,
            split_run(v@, i as int).in_single_quote == in_single_quote,
            split_run(v@, i as int).in_double_quote == in_double_quote,
            split_run(v@, i as int).escape_next == escape_next,
            strip_run(v@, i as int) == (StripState { out: out@, raw: raw@ }),
        decreases v.len() - i,
    {
        let ch = v[i];
        if (ch == ' ' || ch == '\t') && !escape_next && !in_single_quote && !in_double_quote {
            let ghost before = out@;
            let written = write_word(&mut out, &raw, &current);
            if written {
                out.push(ch);
                proof {
                    let t = written_word(raw@, current@)->Some_0;
                    assert(out@ =~= before + t.push(ch));
                }
            }
            raw = Vec::new();
            current = Vec::new();
        } else {
            raw.push(ch);
            if escape_next {
                current.push(ch);
                escape_next = false;
            } else if ch == '\\' && !in_single_quote {
                escape_next = true;
            } else if ch == '\'' && !in_double_quote {
                in_single_quote = !in_single_quote;
            } else if ch == '"' && !in_single_quote {
                in_double_quote = !in_double_quote;
            } else {
                current.push(ch);
            }
        }
        i += 1;
    }
    write_word(&mut out, &raw, &current);
    proof {
        lemma_stripped_words(args@);
        if !holds_tty_flag(args@) {
            lemma_unflagged_unchanged(args@);
        }
    }
    string_from_chars(&out)
}

/// Whether the terminal flag touches the word `word`.
pub fn word_has_tty_flag(word: &str) -> (r: bool)
    ensures
        r == word_holds_tty_flag(word@),
{
    let v = chars_of(word);
    match fate_of(&v) {
        Fate::Kept => false,
        _ => true,
    }
}

/// Whether some word of `args` holds the terminal flag.
pub fn has_tty_flag(args: &str) -> (r: bool)
    ensures
        r == holds_tty_flag(args@),
{
    let parts = shell_split(args);
    let ghost words = strings_view(parts@);
    let mut i: usize = 0;
    while i < parts.len()
        invariant
            i <= parts.len(),
            words == strings_view(parts@),
            words == shell_words(args@),
            forall|j: int| 0 <= j < i ==> !word_holds_tty_flag(#[trigger] words[j]),
        decreases parts.len() - i,
    {
        assert(words[i as int] == parts@[i as int]@);
        if word_has_tty_flag(parts[i].as_str()) {
            return true;
        }
        i += 1;
    }
    false
}

/// The state after all of `s`.
pub open spec fn split_all(s: Seq<char>) -> SplitState {
    split_run(s, s.len() as int)
}

/// Whether a state stands between words, outside quotes.
pub open spec fn between_words(st: SplitState) -> bool {
    st.current.len() == 0 && !st.in_single_quote && !st.in_double_quote && !st.escape_next
}

/// The state after some characters does not depend on those that follow.
pub proof fn lemma_split_run_prefix(a: Seq<char>, b: Seq<char>, n: int)
    requires
        0 <= n <= a.len(),
    ensures
        split_run(a + b, n) == split_run(a, n),
    decreases n,
{
    if n > 0 {
        lemma_split_run_prefix(a, b, n - 1);
        assert((a + b)[n - 1] == a[n - 1]);
    }
}

/// One more character is one more step.
pub proof fn lemma_split_all_push(a: Seq<char>, c: char)
    ensures
        split_all(a.push(c)) == split_step(split_all(a), c),
{
    assert(a.push(c) =~= a + seq![c]);
    lemma_split_run_prefix(a, seq![c], a.len() as int);
}

/// Text that follows a point between words is read as it is read alone;
/// its words come behind those that were complete.
pub proof fn lemma_split_after_gap(a: Seq<char>, t: Seq<char>, n: int)
    requires
        0 <= n <= t.len(),
        between_words(split_all(a)),
    ensures
        split_run(a + t, a.len() + n) == (SplitState {
            words: split_all(a).words + split_run(t, n).words,
            ..split_run(t, n)
        }),
    decreases n,
{
    let w = split_all(a).words;
    if n == 0 {
        lemma_split_run_prefix(a, t, a.len() as int);
        assert(w + Seq::<Seq<char>>::empty() =~= w);
        assert(split_all(a).current =~= Seq::<char>::empty());
    } else {
        lemma_split_after_gap(a, t, n - 1);
        let here = split_run(t, n - 1);
        assert((a + t)[a.len() + n - 1] == t[n - 1]);
        assert((w + here.words).push(here.current) =~= w + here.words.push(here.current));
    }
}

/// The word being read, as it is written, reads as that word: read alone
/// it completes no word and ends in the same word and the same quoting.
pub proof fn lemma_raw_reads_as_current(s: Seq<char>, n: int)
    requires
        0 <= n <= s.len(),
    ensures
        split_all(strip_run(s, n).raw) == (SplitState {
            words: Seq::empty(),
            ..split_run(s, n)
        }),
    decreases n,
{
    if n > 0 {
        lemma_raw_reads_as_current(s, n - 1);
        let before = strip_run(s, n - 1);
        if !ends_word(split_run(s, n - 1), s[n - 1]) {
            lemma_split_all_push(before.raw, s[n - 1]);
        } else {
            assert(split_run(s, n).current =~= Seq::<char>::empty());
        }
    }
}

/// What is left of the first characters does not depend on those that follow.
pub proof fn lemma_without_char_prefix(a: Seq<char>, b: Seq<char>, c: char, n: int)
    requires
        0 <= n <= a.len(),
    ensures
        without_char(a + b, c, n) == without_char(a, c, n),
    decreases n,
{
    if n > 0 {
        lemma_without_char_prefix(a, b, c, n - 1);
        assert((a + b)[n - 1] == a[n - 1]);
    }
}

/// Taking a character out of a text with one more character: the one
/// more stays unless it is that character.
pub proof fn lemma_without_char_push(a: Seq<char>, c: char, x: char)
    ensures
        without_char(a.push(x), c, a.len() as int + 1) == (if x == c {
            without_char(a, c, a.len() as int)
        } else {
            without_char(a, c, a.len() as int).push(x)
        }),
{
    assert(a.push(x) =~= a + seq![x]);
    lemma_without_char_prefix(a, seq![x], c, a.len() as int);
}

/// Whether `after` is the state `before` with every `t` taken out of the
/// word being read: the same quoting, and no more complete words.
pub open spec fn reads_unflagged(before: SplitState, after: SplitState) -> bool {
    &&& after.current == without_char(before.current, 't', before.current.len() as int)
    &&& after.in_single_quote == before.in_single_quote
    &&& after.in_double_quote == before.in_double_quote
    &&& after.escape_next == before.escape_next
    &&& after.words.len() <= before.words.len()
}

/// A word written without its `t`s reads as the word without its `t`s,
/// and leaves the quoting as it was. Where a backslash waits for the
/// character it protects, it is the last character written.
pub proof fn lemma_unflagged_reads(raw: Seq<char>, n: int)
    requires
        0 <= n <= raw.len(),
    ensures
        reads_unflagged(split_run(raw, n), split_all(unflagged_upto(raw, n))),
        split_run(raw, n).escape_next ==> unflagged_upto(raw, n).len() > 0 && split_all(
            unflagged_upto(raw, n).drop_last(),
        ) == (SplitState { escape_next: false, ..split_all(unflagged_upto(raw, n)) }),
    decreases n,
{
    if n == 0 {
        assert(without_char(Seq::<char>::empty(), 't', 0) =~= Seq::<char>::empty());
    } else {
        lemma_unflagged_reads(raw, n - 1);
        let st = split_run(raw, n - 1);
        let sofar = unflagged_upto(raw, n - 1);
        let ch = raw[n - 1];
        lemma_without_char_push(st.current, 't', ch);
        lemma_without_char_removes(st.current, 't', st.current.len() as int);
        if ch != 't' {
            lemma_split_all_push(sofar, ch);
            assert(sofar.push(ch).drop_last() =~= sofar);
        }
        let now = split_run(raw, n);
        assert(split_all(unflagged_upto(raw, n)).current =~= without_char(
            now.current,
            't',
            now.current.len() as int,
        ));
    }
}

/// What the first words become does not depend on the words that follow.
pub proof fn lemma_strip_words_prefix(words: Seq<Seq<char>>, last: Seq<char>, n: int)
    requires
        0 <= n <= words.len(),
    ensures
        strip_tty_words(words.push(last), n) == strip_tty_words(words, n),
    decreases n,
{
    if n > 0 {
        lemma_strip_words_prefix(words, last, n - 1);
        assert(words.push(last)[n - 1] == words[n - 1]);
    }
}

/// The words with one more word become what they became, and what the
/// one more word becomes behind it.
pub proof fn lemma_strip_words_push(words: Seq<Seq<char>>, last: Seq<char>)
    ensures
        strip_tty_words(words.push(last), words.len() as int + 1) == (match strip_tty_word(last) {
            Some(w) => strip_tty_words(words, words.len() as int).push(w),
            None => strip_tty_words(words, words.len() as int),
        }),
{
    lemma_strip_words_prefix(words, last, words.len() as int);
    assert(words.push(last)[words.len() as int] == last);
}

/// Writing a word behind a point between words: what was written reads
/// as before, and then as what the word becomes.
pub proof fn lemma_written_word_reads(out: Seq<char>, raw: Seq<char>, st: SplitState)
    requires
        between_words(split_all(out)),
        split_all(raw) == (SplitState { words: Seq::empty(), ..st }),
    ensures
        match written_word(raw, st.current) {
            None => st.current.len() > 0 && strip_tty_word(st.current) is None,
            Some(t) => strip_tty_word(st.current) is Some && ({
                let after = split_all(out + t);
                &&& after.words == split_all(out).words
                &&& after.current == strip_tty_word(st.current)->Some_0
                &&& (st.current.len() > 0 ==> after.current.len() > 0)
                &&& (!st.in_single_quote && !st.in_double_quote && !st.escape_next ==> 
                    !after.in_single_quote && !after.in_double_quote && !after.escape_next)
            }),
        },
{
    let word = st.current;
    reveal_strlit("-t");
    reveal_strlit("--tty");
    match written_word(raw, word) {
        None => {
            assert(word.len() > 0);
        },
        Some(t) => {
            lemma_split_after_gap(out, t, t.len() as int);
            assert(split_all(out).words + Seq::<Seq<char>>::empty() =~= split_all(out).words);
            let w = strip_tty_word(word)->Some_0;
            if w != word {
                lemma_unflagged_reads(raw, raw.len() as int);
                lemma_without_char_keeps_first(word, 't', word.len() as int);
                assert(split_all(t).words =~= Seq::<Seq<char>>::empty());
            }
        },
    }
}

/// What has been written always ends between words, and its words are
/// what the words that are complete become.
pub proof fn lemma_strip_run_reads(s: Seq<char>, n: int)
    requires
        0 <= n <= s.len(),
    ensures
        between_words(split_all(strip_run(s, n).out)),
        split_all(strip_run(s, n).out).words == strip_tty_words(
            split_run(s, n).words,
            split_run(s, n).words.len() as int,
        ),
    decreases n,
{
    if n > 0 {
        lemma_strip_run_reads(s, n - 1);
        let before = strip_run(s, n - 1);
        let st = split_run(s, n - 1);
        let ch = s[n - 1];
        if ends_word(st, ch) {
            lemma_raw_reads_as_current(s, n - 1);
            lemma_written_word_reads(before.out, before.raw, st);
            if st.current.len() > 0 {
                lemma_strip_words_push(st.words, st.current);
            }
            match written_word(before.raw, st.current) {
                None => {},
                Some(t) => {
                    assert(before.out + t.push(ch) =~= (before.out + t).push(ch));
                    lemma_split_all_push(before.out + t, ch);
                },
            }
        }
    }
}

/// The words of the stripped string are the words of the string with the
/// terminal flag taken out of each: nothing else about them changes.
pub proof fn lemma_stripped_words(args: Seq<char>)
    ensures
        shell_words(stripped_args(args)) == strip_tty_words(
            shell_words(args),
            shell_words(args).len() as int,
        ),
{
    let n = args.len() as int;
    let st = split_run(args, n);
    let run = strip_run(args, n);
    lemma_strip_run_reads(args, n);
    lemma_raw_reads_as_current(args, n);
    lemma_written_word_reads(run.out, run.raw, st);
    if st.current.len() > 0 {
        lemma_strip_words_push(st.words, st.current);
    }
}

/// While no complete word holds the terminal flag, everything read so
/// far is written or waiting to be written, unchanged.
pub proof fn lemma_strip_run_unchanged(s: Seq<char>, n: int)
    requires
        0 <= n <= s.len(),
        forall|i: int|
            0 <= i < split_run(s, n).words.len() ==> !word_holds_tty_flag(
                #[trigger] split_run(s, n).words[i],
            ),
    ensures
        strip_run(s, n).out + strip_run(s, n).raw == s.subrange(0, n),
    decreases n,
{
    if n == 0 {
        assert(strip_run(s, 0).out + strip_run(s, 0).raw =~= s.subrange(0, 0));
    } else {
        let before = strip_run(s, n - 1);
        let st = split_run(s, n - 1);
        let now = split_run(s, n);
        let ch = s[n - 1];
        assert forall|i: int| 0 <= i < st.words.len() implies !word_holds_tty_flag(
            #[trigger] st.words[i],
        ) by {
            assert(now.words[i] == st.words[i]);
        }
        lemma_strip_run_unchanged(s, n - 1);
        assert(s.subrange(0, n) =~= s.subrange(0, n - 1).push(ch));
        reveal_strlit("-t");
        reveal_strlit("--tty");
        if ends_word(st, ch) {
            if st.current.len() > 0 {
                assert(now.words[st.words.len() as int] == st.current);
                assert(!word_holds_tty_flag(st.current));
            }
            assert(written_word(before.raw, st.current) == Some(before.raw));
            assert(strip_run(s, n).out + strip_run(s, n).raw =~= (before.out + before.raw).push(
                ch,
            ));
        } else {
            assert(strip_run(s, n).out + strip_run(s, n).raw =~= (before.out + before.raw).push(
                ch,
            ));
        }
    }
}

/// An argument string no word of which holds the terminal flag is left
/// as it is, character for character.
pub proof fn lemma_unflagged_unchanged(args: Seq<char>)
    requires
        !holds_tty_flag(args),
    ensures
        stripped_args(args) == args,
{
    let n = args.len() as int;
    let st = split_run(args, n);
    let words = shell_words(args);
    assert forall|i: int| 0 <= i < st.words.len() implies !word_holds_tty_flag(
        #[trigger] st.words[i],
    ) by {
        assert(words[i] == st.words[i]);
        assert(!word_holds_tty_flag(words[i]));
    }
    lemma_strip_run_unchanged(args, n);
    reveal_strlit("-t");
    reveal_strlit("--tty");
    if st.current.len() > 0 {
        assert(words[st.words.len() as int] == st.current);
        assert(!word_holds_tty_flag(words[st.words.len() as int]));
    }
    assert(args.subrange(0, n) =~= args);
}

/// Whether a word holds nothing of the terminal flag: it is neither `-t`
/// nor `--tty`, and where it is a cluster of short flags it has no `t`.
pub open spec fn free_of_tty(w: Seq<char>) -> bool {
    w != "-t"@ && w != "--tty"@ && (is_short_cluster(w) ==> !w.contains('t'))
}

/// Taking out a character that does not occur changes nothing.
pub proof fn lemma_without_absent_char(s: Seq<char>, c: char, n: int)
    requires
        0 <= n <= s.len(),
        !s.contains(c),
    ensures
        without_char(s, c, n) == s.subrange(0, n),
    decreases n,
{
    if n > 0 {
        lemma_without_absent_char(s, c, n - 1);
        assert(s[n - 1] != c);
        assert(s.subrange(0, n) =~= s.subrange(0, n - 1).push(s[n - 1]));
    } else {
        assert(s.subrange(0, 0) =~= Seq::<char>::empty());
    }
}

/// What is left after taking out a character does not hold it, and is
/// shorter where the character occurred.
pub proof fn lemma_without_char_removes(s: Seq<char>, c: char, n: int)
    requires
        0 <= n <= s.len(),
    ensures
        !without_char(s, c, n).contains(c),
        without_char(s, c, n).len() <= n,
        s.subrange(0, n).contains(c) ==> without_char(s, c, n).len() < n,
    decreases n,
{
    if n > 0 {
        lemma_without_char_removes(s, c, n - 1);
        let before = without_char(s, c, n - 1);
        if s.subrange(0, n).contains(c) {
            let k = choose|k: int| 0 <= k < n && s.subrange(0, n)[k] == c;
            if k < n - 1 {
                assert(s.subrange(0, n - 1)[k] == c);
            }
        }
        let after = before.push(s[n - 1]);
        if s[n - 1] != c && after.contains(c) {
            let k = choose|k: int| 0 <= k < after.len() && after[k] == c;
            assert(before[k] == c);
            assert(before.contains(c));
        }
    }
}

/// The terminal flag touches exactly the words that are not free of it.
pub proof fn lemma_free_words(w: Seq<char>)
    ensures
        word_holds_tty_flag(w) <==> !free_of_tty(w),
{
    if w != "-t"@ && w != "--tty"@ && is_short_cluster(w) {
        let n = w.len() as int;
        assert(w.subrange(0, n) =~= w);
        if w.contains('t') {
            lemma_without_char_removes(w, 't', n);
        } else {
            lemma_without_absent_char(w, 't', n);
        }
    }
}

/// An argument string with no terminal flag is returned unchanged: where
/// no word is `-t` or `--tty` and no cluster of short flags has a `t`, the
/// stripped string is the string itself, quotes and blanks included.
pub proof fn lemma_strip_without_tty(args: Seq<char>)
    requires
        forall|i: int|
            0 <= i < shell_words(args).len() ==> free_of_tty(#[trigger] shell_words(args)[i]),
    ensures
        stripped_args(args) == args,
{
    assert forall|i: int| 0 <= i < shell_words(args).len() implies !word_holds_tty_flag(
        #[trigger] shell_words(args)[i],
    ) by {
        lemma_free_words(shell_words(args)[i]);
    }
    lemma_unflagged_unchanged(args);
}

/// After the removal no word holds the terminal flag any more.
pub proof fn lemma_stripped_holds_no_flag(args: Seq<char>)
    ensures
        !holds_tty_flag(stripped_args(args)),
{
    let words = shell_words(args);
    lemma_stripped_words(args);
    lemma_stripped_words_free(words, words.len() as int);
}

/// What words become when the terminal flag is taken out of each is free
/// of the flag.
pub proof fn lemma_stripped_words_free(words: Seq<Seq<char>>, n: int)
    requires
        0 <= n <= words.len(),
    ensures
        forall|i: int|
            0 <= i < strip_tty_words(words, n).len() ==> !word_holds_tty_flag(
                #[trigger] strip_tty_words(words, n)[i],
            ),
    decreases n,
{
    if n > 0 {
        lemma_stripped_words_free(words, n - 1);
        let before = strip_tty_words(words, n - 1);
        let now = strip_tty_words(words, n);
        let w = words[n - 1];
        assert forall|i: int| 0 <= i < now.len() implies !word_holds_tty_flag(
            #[trigger] now[i],
        ) by {
            if i < before.len() {
                assert(now[i] == before[i]);
            } else {
                let x = strip_tty_word(w)->Some_0;
                assert(now[i] == x);
                if x != w {
                    lemma_without_char_removes(w, 't', w.len() as int);
                    lemma_without_char_keeps_first(w, 't', w.len() as int);
                    reveal_strlit("-t");
                    reveal_strlit("--tty");
                    if x.len() > 2 {
                        assert(x[1] != 't' && x[2] != 't') by {
                            assert(x.contains(x[1]));
                            assert(x.contains(x[2]));
                        }
                    } else if x.len() == 2 {
                        assert(x[1] != 't') by {
                            assert(x.contains(x[1]));
                        }
                    }
                    lemma_free_words(x);
                }
            }
        }
    }
}

} // verus!
