//! Normalised input: collapsed white space and a kana reading of the romaji in a draft.

use crate::search::{append_chars, join, law_join};
use crate::text::{chars_of, is_white_space, slice_of, string_of, texts};
use vstd::prelude::*;
use wana_kana::ConvertJapanese;

verus! {

/// A draft as it was typed, with its white space collapsed, and with its romaji read as kana.
#[derive(Debug, Clone, PartialEq, Eq)]
pub struct NormalizedInput {
    pub raw: String,
    pub normalized_raw: String,
    pub kana_candidate: String,
}

/// The number of characters before the first white space.
pub open spec fn word_len(s: Seq<char>) -> nat
    decreases s.len(),
{
    if s.len() == 0 || is_white_space(s[0]) {
        0
    } else {
        1 + word_len(s.skip(1))
    }
}

/// The words of `s`: its longest runs of characters that are not white space.
pub open spec fn words(s: Seq<char>) -> Seq<Seq<char>>
    decreases s.len(),
    via words_decreases
{
    if s.len() == 0 {
        seq![]
    } else if is_white_space(s[0]) {
        words(s.skip(1))
    } else {
        seq![s.take(word_len(s) as int)] + words(s.skip(word_len(s) as int))
    }
}

#[via_fn]
proof fn words_decreases(s: Seq<char>) {
    lemma_word_len(s);
}

/// The words of `s` with one space between each two.
pub open spec fn collapsed(s: Seq<char>) -> Seq<char> {
    join(words(s), seq![' '])
}

proof fn lemma_word_len(s: Seq<char>)
    ensures
        word_len(s) <= s.len(),
        forall|i: int| 0 <= i < word_len(s) ==> !is_white_space(#[trigger] s[i]),
        word_len(s) < s.len() ==> is_white_space(s[word_len(s) as int]),
        s.len() > 0 && !is_white_space(s[0]) ==> word_len(s) > 0,
    decreases s.len(),
{
    if s.len() == 0 || is_white_space(s[0]) {
    } else {
        let rest = s.skip(1);
        lemma_word_len(rest);
        assert forall|i: int| 0 <= i < word_len(s) implies !is_white_space(#[trigger] s[i]) by {
            if i > 0 {
                assert(rest[i - 1] == s[i]);
            }
        }
    }
}

proof fn lemma_word_len_is(s: Seq<char>, n: int)
    requires
        0 <= n <= s.len(),
        forall|i: int| 0 <= i < n ==> !is_white_space(#[trigger] s[i]),
        n < s.len() ==> is_white_space(s[n]),
    ensures
        word_len(s) == n,
{
    lemma_word_len(s);
    let m = word_len(s) as int;
    if m < n {
        assert(!is_white_space(s[m]));
    } else if n < m {
        assert(!is_white_space(s[n]));
    }
}

/// Collapses every run of white space to one space, and drops it at both ends.
pub fn normalize_whitespace(input: &str) -> (normalized: String)
    ensures
        normalized@ == collapsed(input@),
{
    let chars = chars_of(input);
    let mut out: Vec<char> = Vec::new();
    let mut at: usize = 0;
    let ghost mut done: Seq<Seq<char>> = seq![];
    assert(chars@.skip(0) == chars@);
    assert(done + words(chars@) == words(chars@));
    while at < chars.len()
        invariant
            at <= chars@.len(),
            words(chars@) == done + words(chars@.skip(at as int)),
            out@ == join(done, seq![' ']),
            forall|i: int| 0 <= i < done.len() ==> (#[trigger] done[i]).len() > 0,
            done.len() == 0 <==> out@.len() == 0,
        decreases chars@.len() - at,
    {
        let ghost rest = chars@.skip(at as int);
        if chars[at].is_whitespace() {
            assert(rest.skip(1) == chars@.skip(at + 1));
            at += 1;
            continue;
        }
        let mut end: usize = at;
        while end < chars.len() && !chars[end].is_whitespace()
            invariant
                at <= end <= chars@.len(),
                forall|i: int| at <= i < end ==> !is_white_space(#[trigger] chars@[i]),
            decreases chars@.len() - end,
        {
            end += 1;
        }
        let word = slice_of(&chars, at, end);
        proof {
            assert forall|i: int| 0 <= i < end - at implies !is_white_space(#[trigger] rest[i]) by {
                assert(rest[i] == chars@[at + i]);
            }
            if end < chars@.len() {
                assert(rest[end - at] == chars@[end as int]);
            }
            lemma_word_len_is(rest, end - at);
            assert(rest.take(end - at) == word@);
            assert(rest.skip(end - at) == chars@.skip(end as int));
            assert(!is_white_space(rest[0]));
            lemma_word_len(rest);
            assert(done.push(word@).drop_last() == done);
        }
        if out.len() > 0 {
            out.push(' ');
        }
        append_chars(&mut out, &word);
        proof {
            assert(out@ == join(done.push(word@), seq![' ']));
            assert(done.push(word@) + words(chars@.skip(end as int)) == done + (seq![word@] + words(
                chars@.skip(end as int),
            )));
            done = done.push(word@);
        }
        at = end;
    }
    assert(words(chars@.skip(at as int)) == Seq::<Seq<char>>::empty());
    assert(done + Seq::<Seq<char>>::empty() == done);
    string_of(&out)
}

/// The ASCII letters.
pub open spec fn is_ascii_letter(c: char) -> bool {
    'a' <= c <= 'z' || 'A' <= c <= 'Z'
}

/// The characters that make up a run of romaji.
pub open spec fn is_romaji(c: char) -> bool {
    is_ascii_letter(c) || c == '\'' || c == '-'
}

/// The number of romaji characters at the start.
pub open spec fn run_len(s: Seq<char>) -> nat
    decreases s.len(),
{
    if s.len() == 0 || !is_romaji(s[0]) {
        0
    } else {
        1 + run_len(s.skip(1))
    }
}

proof fn lemma_run_len(s: Seq<char>)
    ensures
        run_len(s) <= s.len(),
        forall|i: int| 0 <= i < run_len(s) ==> is_romaji(#[trigger] s[i]),
        run_len(s) < s.len() ==> !is_romaji(s[run_len(s) as int]),
        s.len() > 0 && is_romaji(s[0]) ==> run_len(s) > 0,
    decreases s.len(),
{
    if s.len() == 0 || !is_romaji(s[0]) {
    } else {
        let rest = s.skip(1);
        lemma_run_len(rest);
        assert forall|i: int| 0 <= i < run_len(s) implies is_romaji(#[trigger] s[i]) by {
            if i > 0 {
                assert(rest[i - 1] == s[i]);
            }
        }
    }
}

proof fn lemma_run_len_is(s: Seq<char>, n: int)
    requires
        0 <= n <= s.len(),
        forall|i: int| 0 <= i < n ==> is_romaji(#[trigger] s[i]),
        n < s.len() ==> !is_romaji(s[n]),
    ensures
        run_len(s) == n,
{
    lemma_run_len(s);
    let m = run_len(s) as int;
    if m < n {
        assert(is_romaji(s[m]));
    } else if n < m {
        assert(is_romaji(s[n]));
    }
}

/// The longest runs of romaji in `s`, in order.
pub open spec fn romaji_runs(s: Seq<char>) -> Seq<Seq<char>>
    decreases s.len(),
    via romaji_runs_decreases
{
    if s.len() == 0 {
        seq![]
    } else if is_romaji(s[0]) {
        seq![s.take(run_len(s) as int)] + romaji_runs(s.skip(run_len(s) as int))
    } else {
        romaji_runs(s.skip(1))
    }
}

#[via_fn]
proof fn romaji_runs_decreases(s: Seq<char>) {
    lemma_run_len(s);
}

/// `s` with each of its runs of romaji replaced by the text of the same rank.
pub open spec fn with_runs(s: Seq<char>, replacements: Seq<Seq<char>>) -> Seq<char>
    decreases s.len(),
    via with_runs_decreases
{
    if s.len() == 0 {
        seq![]
    } else if is_romaji(s[0]) {
        replacements[0] + with_runs(s.skip(run_len(s) as int), replacements.skip(1))
    } else {
        seq![s[0]] + with_runs(s.skip(1), replacements)
    }
}

#[via_fn]
proof fn with_runs_decreases(s: Seq<char>, replacements: Seq<Seq<char>>) {
    lemma_run_len(s);
}

/// What `wana_kana` makes of a text as hiragana.
pub uninterp spec fn hiragana(romaji: Seq<char>) -> Seq<char>;

/// Whether a half-width kana can carry the voiced mark: u, and the rows of ka, sa, ta and ha.
pub open spec fn takes_voiced_mark(c: char) -> bool {
    c == '\u{ff73}' || '\u{ff76}' <= c <= '\u{ff84}' || takes_semivoiced_mark(c)
}

/// Whether a half-width kana can carry the semi-voiced mark: the row of ha.
pub open spec fn takes_semivoiced_mark(c: char) -> bool {
    '\u{ff8a}' <= c <= '\u{ff8e}'
}

/// Whether `wana_kana` can convert the text: it does not come back from a half-width voicing
/// mark that stands behind no half-width kana that can carry it.
pub open spec fn convertible(romaji: Seq<char>) -> bool {
    forall|i: int|
        0 <= i < romaji.len() ==> {
            &&& (#[trigger] romaji[i]) == '\u{ff9e}' ==> i > 0 && takes_voiced_mark(romaji[i - 1])
            &&& romaji[i] == '\u{ff9f}' ==> i > 0 && takes_semivoiced_mark(romaji[i - 1])
        }
}

/// `wana_kana::ConvertJapanese::to_hiragana` on a `&str`: the conversion of a text to hiragana,
/// which depends on the text alone and is named [`hiragana`].
#[verifier::external_body]
fn to_hiragana(romaji: &str) -> (kana: String)
    requires
        convertible(romaji@),
    ensures
        kana@ == hiragana(romaji@),
{
    romaji.to_hiragana()
}

/// Whether a text holds an ASCII letter.
pub open spec fn has_ascii_letter(s: Seq<char>) -> bool {
    exists|i: int| 0 <= i < s.len() && is_ascii_letter(#[trigger] s[i])
}

/// The reading of a run: its conversion, or the run itself where letters were left over.
pub open spec fn reading(romaji_run: Seq<char>, converted: Seq<char>) -> Seq<char> {
    if has_ascii_letter(converted) {
        romaji_run
    } else {
        converted
    }
}

/// The reading of a run by way of its hiragana.
pub open spec fn kana_reading(romaji_run: Seq<char>) -> Seq<char> {
    reading(romaji_run, hiragana(romaji_run))
}

/// `s` with each run of romaji replaced by its reading.
pub open spec fn kana_text(s: Seq<char>) -> Seq<char> {
    with_runs(s, romaji_runs(s).map_values(|run: Seq<char>| kana_reading(run)))
}

/// Keeps a run whose conversion still holds ASCII letters, and takes the conversion otherwise.
pub fn converted_or_original(romaji_run: &str, converted: &str) -> (kana: String)
    ensures
        kana@ == reading(romaji_run@, converted@),
{
    let chars = chars_of(converted);
    let mut i: usize = 0;
    while i < chars.len()
        invariant
            i <= chars@.len(),
            chars@ == converted@,
            forall|j: int| 0 <= j < i ==> !is_ascii_letter(#[trigger] chars@[j]),
        decreases chars@.len() - i,
    {
        let c = chars[i];
        if ('a' <= c && c <= 'z') || ('A' <= c && c <= 'Z') {
            assert(is_ascii_letter(converted@[i as int]));
            return romaji_run.to_owned();
        }
        i += 1;
    }
    converted.to_owned()
}

/// The hiragana of a run of romaji, or the run itself where it does not convert in full.
pub fn hiragana_or_original(romaji_run: &str) -> (kana: String)
    requires
        convertible(romaji_run@),
    ensures
        kana@ == kana_reading(romaji_run@),
{
    let converted = to_hiragana(romaji_run);
    converted_or_original(romaji_run, converted.as_str())
}

fn is_romaji_char(c: char) -> (r: bool)
    ensures
        r == is_romaji(c),
{
    ('a' <= c && c <= 'z') || ('A' <= c && c <= 'Z') || c == '\'' || c == '-'
}

/// The end of the run of romaji that starts at `from`.
fn run_end(chars: &[char], from: usize) -> (end: usize)
    requires
        from <= chars@.len(),
    ensures
        from <= end <= chars@.len(),
        end - from == run_len(chars@.skip(from as int)),
{
    let mut end: usize = from;
    while end < chars.len() && is_romaji_char(chars[end])
        invariant
            from <= end <= chars@.len(),
            forall|i: int| from <= i < end ==> is_romaji(#[trigger] chars@[i]),
        decreases chars@.len() - end,
    {
        end += 1;
    }
    proof {
        let rest = chars@.skip(from as int);
        assert forall|i: int| 0 <= i < end - from implies is_romaji(#[trigger] rest[i]) by {
            assert(rest[i] == chars@[from + i]);
        }
        if end < chars@.len() {
            assert(rest[end - from] == chars@[end as int]);
        }
        lemma_run_len_is(rest, end - from);
    }
    end
}

/// The runs of romaji in a text, in order.
pub fn romaji_runs_of(input: &str) -> (runs: Vec<String>)
    ensures
        texts(runs@) == romaji_runs(input@),
{
    let chars = chars_of(input);
    let mut runs: Vec<String> = Vec::new();
    let mut at: usize = 0;
    assert(chars@.skip(0) == chars@);
    assert(texts(runs@) + romaji_runs(chars@) == romaji_runs(chars@));
    while at < chars.len()
        invariant
            at <= chars@.len(),
            romaji_runs(chars@) == texts(runs@) + romaji_runs(chars@.skip(at as int)),
        decreases chars@.len() - at,
    {
        let ghost rest = chars@.skip(at as int);
        let end = run_end(&chars, at);
        proof {
            lemma_run_len(rest);
        }
        if end == at {
            assert(rest.skip(1) == chars@.skip(at + 1));
            at += 1;
        } else {
            let ghost before = texts(runs@);
            let run = string_of(&slice_of(&chars, at, end));
            let ghost view = run@;
            proof {
                assert(is_romaji(rest[0]));
                assert(rest.take(end - at) == view);
                assert(rest.skip(end - at) == chars@.skip(end as int));
            }
            runs.push(run);
            assert(texts(runs@) == before.push(view));
            assert(before + (seq![view] + romaji_runs(chars@.skip(end as int))) == before.push(view)
                + romaji_runs(chars@.skip(end as int)));
            at = end;
        }
    }
    assert(romaji_runs(chars@.skip(at as int)) == Seq::<Seq<char>>::empty());
    runs
}

/// Replaces each run of romaji by the text of the same rank.
pub fn replace_runs(input: &str, replacements: &[String]) -> (replaced: String)
    requires
        replacements@.len() == romaji_runs(input@).len(),
    ensures
        replaced@ == with_runs(input@, texts(replacements@)),
{
    let chars = chars_of(input);
    let mut out = String::new();
    let mut at: usize = 0;
    let mut rank: usize = 0;
    let ghost views = texts(replacements@);
    assert(chars@.skip(0) == chars@);
    assert(views.skip(0) == views);
    while at < chars.len()
        invariant
            at <= chars@.len(),
            views == texts(replacements@),
            rank + romaji_runs(chars@.skip(at as int)).len() == replacements@.len(),
            with_runs(chars@, views) == out@ + with_runs(
                chars@.skip(at as int),
                views.skip(rank as int),
            ),
        decreases chars@.len() - at,
    {
        let ghost rest = chars@.skip(at as int);
        let ghost left = views.skip(rank as int);
        let ghost before = out@;
        let end = run_end(&chars, at);
        proof {
            lemma_run_len(rest);
        }
        if end == at {
            out.push(chars[at]);
            proof {
                assert(rest.skip(1) == chars@.skip(at + 1));
                assert(before + (seq![rest[0]] + with_runs(rest.skip(1), left)) == out@
                    + with_runs(rest.skip(1), left));
            }
            at += 1;
        } else {
            proof {
                assert(is_romaji(rest[0]));
                assert(rest.skip(end - at) == chars@.skip(end as int));
                assert(romaji_runs(rest) == seq![rest.take(end - at)] + romaji_runs(
                    chars@.skip(end as int),
                ));
                assert(left[0] == replacements@[rank as int]@);
                assert(left.skip(1) == views.skip(rank + 1));
            }
            out.append(replacements[rank].as_str());
            assert(before + (left[0] + with_runs(rest.skip(end - at), left.skip(1))) == out@
                + with_runs(rest.skip(end - at), left.skip(1)));
            rank += 1;
            at = end;
        }
    }
    assert(with_runs(chars@.skip(at as int), views.skip(rank as int)) == Seq::<char>::empty());
    out
}

proof fn lemma_runs_convertible(s: Seq<char>)
    ensures
        forall|i: int| 0 <= i < romaji_runs(s).len() ==> convertible(#[trigger] romaji_runs(s)[i]),
    decreases s.len(),
{
    if s.len() == 0 {
        assert(romaji_runs(s).len() == 0);
    } else if is_romaji(s[0]) {
        lemma_run_len(s);
        let n = run_len(s) as int;
        lemma_runs_convertible(s.skip(n));
        let rest = romaji_runs(s.skip(n));
        assert(romaji_runs(s) == seq![s.take(n)] + rest);
        assert forall|i: int| 0 <= i < romaji_runs(s).len() implies convertible(
            #[trigger] romaji_runs(s)[i],
        ) by {
            if i > 0 {
                assert(romaji_runs(s)[i] == rest[i - 1]);
            } else {
                assert forall|j: int| 0 <= j < n implies (#[trigger] s.take(n)[j]) != '\u{ff9e}'
                    && s.take(n)[j] != '\u{ff9f}' by {
                    assert(is_romaji(s[j]));
                }
            }
        }
    } else {
        lemma_runs_convertible(s.skip(1));
        assert(romaji_runs(s) == romaji_runs(s.skip(1)));
    }
}

/// Replaces each run of romaji by its reading.
pub fn romaji_runs_to_hiragana(input: &str) -> (kana: String)
    ensures
        kana@ == kana_text(input@),
{
    let runs = romaji_runs_of(input);
    let mut readings: Vec<String> = Vec::new();
    let mut i: usize = 0;
    let ghost wanted = romaji_runs(input@).map_values(|run: Seq<char>| kana_reading(run));
    proof {
        lemma_runs_convertible(input@);
    }
    while i < runs.len()
        invariant
            i <= runs@.len(),
            readings@.len() == i,
            texts(runs@) == romaji_runs(input@),
            wanted == romaji_runs(input@).map_values(|run: Seq<char>| kana_reading(run)),
            forall|j: int| 0 <= j < i ==> (#[trigger] readings@[j])@ == wanted[j],
            forall|j: int|
                0 <= j < romaji_runs(input@).len() ==> convertible(
                    #[trigger] romaji_runs(input@)[j],
                ),
        decreases runs@.len() - i,
    {
        assert(romaji_runs(input@)[i as int] == runs@[i as int]@);
        readings.push(hiragana_or_original(runs[i].as_str()));
        i += 1;
    }
    assert(romaji_runs(input@).len() == texts(runs@).len());
    assert(texts(readings@) == wanted);
    replace_runs(input, &readings)
}

/// Normalises a draft and reads its romaji as kana.
pub fn normalize_input(input: &str) -> (normalized: NormalizedInput)
    ensures
        normalized.raw@ == input@,
        normalized.normalized_raw@ == collapsed(input@),
        normalized.kana_candidate@ == kana_text(collapsed(input@)),
{
    let normalized_raw = normalize_whitespace(input);
    let kana_candidate = romaji_runs_to_hiragana(normalized_raw.as_str());
    NormalizedInput { raw: input.to_owned(), normalized_raw, kana_candidate }
}

/// A word: characters, none of them white space.
pub open spec fn is_word(w: Seq<char>) -> bool {
    w.len() > 0 && forall|i: int| 0 <= i < w.len() ==> !is_white_space(#[trigger] w[i])
}

/// Each of [`words`] is a word.
pub proof fn lemma_words_are_words(s: Seq<char>)
    ensures
        forall|i: int| 0 <= i < words(s).len() ==> is_word(#[trigger] words(s)[i]),
    decreases s.len(),
{
    if s.len() == 0 {
        assert(words(s).len() == 0);
    } else if is_white_space(s[0]) {
        lemma_words_are_words(s.skip(1));
        assert(words(s) == words(s.skip(1)));
    } else {
        lemma_word_len(s);
        let n = word_len(s) as int;
        lemma_words_are_words(s.skip(n));
        let rest = words(s.skip(n));
        assert(words(s) == seq![s.take(n)] + rest);
        assert forall|i: int| 0 <= i < words(s).len() implies is_word(#[trigger] words(s)[i]) by {
            if i > 0 {
                assert(words(s)[i] == rest[i - 1]);
            } else {
                assert(forall|j: int| 0 <= j < n ==> s.take(n)[j] == s[j]);
            }
        }
    }
}

proof fn lemma_words_of_word(w: Seq<char>)
    requires
        is_word(w),
    ensures
        words(w) == seq![w],
{
    lemma_word_len_is(w, w.len() as int);
    assert(!is_white_space(w[0]));
    assert(w.take(w.len() as int) == w);
    assert(words(w.skip(w.len() as int)) == Seq::<Seq<char>>::empty());
    assert(words(w) == seq![w] + words(w.skip(w.len() as int)));
}

proof fn lemma_words_append(a: Seq<char>, w: Seq<char>)
    requires
        is_word(w),
    ensures
        words(a + seq![' '] + w) == words(a).push(w),
    decreases a.len(),
{
    let s = a + seq![' '] + w;
    if a.len() == 0 {
        assert(is_white_space(s[0]));
        assert(s.skip(1) == w);
        lemma_words_of_word(w);
        assert(words(a) == Seq::<Seq<char>>::empty());
        assert(words(s) == words(s.skip(1)));
        assert(words(s) == words(a).push(w));
    } else if is_white_space(a[0]) {
        assert(s[0] == a[0]);
        assert(s.skip(1) == a.skip(1) + seq![' '] + w);
        lemma_words_append(a.skip(1), w);
        assert(words(a) == words(a.skip(1)));
        assert(words(s) == words(s.skip(1)));
    } else {
        lemma_word_len(a);
        let n = word_len(a) as int;
        assert(s[0] == a[0]);
        assert forall|i: int| 0 <= i < n implies !is_white_space(#[trigger] s[i]) by {
            assert(s[i] == a[i]);
        }
        if n < a.len() {
            assert(s[n] == a[n]);
        } else {
            assert(s[n] == ' ');
        }
        lemma_word_len_is(s, n);
        assert(s.take(n) == a.take(n));
        assert(s.skip(n) == a.skip(n) + seq![' '] + w);
        lemma_words_append(a.skip(n), w);
        assert(words(a) == seq![a.take(n)] + words(a.skip(n)));
        assert(words(s) == seq![s.take(n)] + words(s.skip(n)));
        assert(words(s) == words(a).push(w));
    }
}

proof fn lemma_words_of_join(parts: Seq<Seq<char>>)
    requires
        forall|i: int| 0 <= i < parts.len() ==> is_word(#[trigger] parts[i]),
    ensures
        words(join(parts, seq![' '])) == parts,
    decreases parts.len(),
{
    if parts.len() == 0 {
        assert(words(join(parts, seq![' '])) == parts);
    } else if parts.len() == 1 {
        lemma_words_of_word(parts[0]);
        assert(seq![parts[0]] == parts);
    } else {
        let front = parts.drop_last();
        assert forall|i: int| 0 <= i < front.len() implies is_word(#[trigger] front[i]) by {
            assert(front[i] == parts[i]);
        }
        lemma_words_of_join(front);
        assert(is_word(parts[parts.len() - 1]));
        lemma_words_append(join(front, seq![' ']), parts.last());
        assert(front.push(parts.last()) == parts);
    }
}

/// Collapsing white space keeps the words of a text, in order.
pub proof fn law_collapsed_keeps_words(s: Seq<char>)
    ensures
        words(collapsed(s)) == words(s),
{
    lemma_words_are_words(s);
    lemma_words_of_join(words(s));
}

/// Collapsing white space a second time changes nothing.
pub proof fn law_collapsed_idempotent(s: Seq<char>)
    ensures
        collapsed(collapsed(s)) == collapsed(s),
{
    law_collapsed_keeps_words(s);
}

/// Whether all white space in `s` is single spaces between other characters.
pub open spec fn singly_spaced(s: Seq<char>) -> bool {
    forall|i: int|
        0 <= i < s.len() && is_white_space(#[trigger] s[i]) ==> s[i] == ' ' && 0 < i < s.len() - 1
            && !is_white_space(s[i - 1]) && !is_white_space(s[i + 1])
}

proof fn lemma_join_singly_spaced(parts: Seq<Seq<char>>)
    requires
        forall|i: int| 0 <= i < parts.len() ==> is_word(#[trigger] parts[i]),
    ensures
        singly_spaced(join(parts, seq![' '])),
        parts.len() > 0 ==> join(parts, seq![' ']).len() > 0 && !is_white_space(
            join(parts, seq![' ']).last(),
        ),
    decreases parts.len(),
{
    let s = join(parts, seq![' ']);
    if parts.len() == 0 {
    } else if parts.len() == 1 {
        assert(is_word(parts[0]));
    } else {
        let front = parts.drop_last();
        let w = parts.last();
        assert forall|i: int| 0 <= i < front.len() implies is_word(#[trigger] front[i]) by {
            assert(front[i] == parts[i]);
        }
        lemma_join_singly_spaced(front);
        assert(is_word(parts[parts.len() - 1]));
        let a = join(front, seq![' ']);
        assert(s == a + seq![' '] + w);
        assert(s.last() == w.last());
        assert(!is_white_space(w[w.len() - 1]));
        assert forall|i: int| 0 <= i < s.len() && is_white_space(#[trigger] s[i]) implies s[i]
            == ' ' && 0 < i < s.len() - 1 && !is_white_space(s[i - 1]) && !is_white_space(
            s[i + 1],
        ) by {
            if i < a.len() {
                assert(s[i] == a[i]);
                assert(s[i - 1] == a[i - 1]);
                assert(s[i + 1] == a[i + 1]);
            } else if i == a.len() {
                assert(s[i - 1] == a.last());
                assert(s[i + 1] == w[0]);
            } else {
                assert(s[i] == w[i - a.len() - 1]);
            }
        }
    }
}

/// A collapsed text neither starts nor ends with white space, and between two words stands one
/// space.
pub proof fn law_collapsed_singly_spaced(s: Seq<char>)
    ensures
        singly_spaced(collapsed(s)),
{
    lemma_words_are_words(s);
    lemma_join_singly_spaced(words(s));
}

proof fn lemma_kana_text_step(s: Seq<char>)
    ensures
        s.len() == 0 ==> kana_text(s) == Seq::<char>::empty(),
        s.len() > 0 && !is_romaji(s[0]) ==> kana_text(s) == seq![s[0]] + kana_text(s.skip(1)),
        s.len() > 0 && is_romaji(s[0]) ==> kana_text(s) == kana_reading(s.take(run_len(s) as int))
            + kana_text(s.skip(run_len(s) as int)),
{
    let f = |run: Seq<char>| kana_reading(run);
    if s.len() > 0 && is_romaji(s[0]) {
        let n = run_len(s) as int;
        let rest = romaji_runs(s.skip(n));
        assert(romaji_runs(s) == seq![s.take(n)] + rest);
        let all = romaji_runs(s).map_values(f);
        assert(all[0] == kana_reading(s.take(n)));
        assert(all.skip(1) == rest.map_values(f));
    } else if s.len() > 0 {
        assert(romaji_runs(s) == romaji_runs(s.skip(1)));
    }
}

/// A character that is not romaji stands unchanged in the kana text, and what is before it and
/// what is after it are read independently: existing Japanese and punctuation are preserved.
pub proof fn law_kana_text_keeps_other_characters(before: Seq<char>, c: char, after: Seq<char>)
    requires
        !('a' <= c <= 'z') && !('A' <= c <= 'Z') && c != '\'' && c != '-',
    ensures
        kana_text(before + seq![c] + after) == kana_text(before) + seq![c] + kana_text(after),
    decreases before.len(),
{
    let s = before + seq![c] + after;
    lemma_kana_text_step(s);
    lemma_kana_text_step(before);
    if before.len() == 0 {
        assert(s[0] == c);
        assert(s.skip(1) == after);
        assert(kana_text(s) == kana_text(before) + seq![c] + kana_text(after));
    } else if !is_romaji(before[0]) {
        assert(s[0] == before[0]);
        assert(s.skip(1) == before.skip(1) + seq![c] + after);
        law_kana_text_keeps_other_characters(before.skip(1), c, after);
        assert(kana_text(s) == kana_text(before) + seq![c] + kana_text(after));
    } else {
        lemma_run_len(before);
        let n = run_len(before) as int;
        assert(s[0] == before[0]);
        assert forall|i: int| 0 <= i < n implies is_romaji(#[trigger] s[i]) by {
            assert(s[i] == before[i]);
        }
        if n < before.len() {
            assert(s[n] == before[n]);
        } else {
            assert(s[n] == c);
        }
        lemma_run_len_is(s, n);
        assert(s.take(n) == before.take(n));
        assert(s.skip(n) == before.skip(n) + seq![c] + after);
        law_kana_text_keeps_other_characters(before.skip(n), c, after);
        assert(kana_text(s) == kana_text(before) + seq![c] + kana_text(after));
    }
}

/// A text without romaji is its own kana text.
pub proof fn law_kana_text_of_no_romaji(s: Seq<char>)
    requires
        forall|i: int| 0 <= i < s.len() ==> !is_romaji(#[trigger] s[i]),
    ensures
        kana_text(s) == s,
    decreases s.len(),
{
    lemma_kana_text_step(s);
    if s.len() > 0 {
        let rest = s.skip(1);
        assert forall|i: int| 0 <= i < rest.len() implies !is_romaji(#[trigger] rest[i]) by {
            assert(rest[i] == s[i + 1]);
        }
        assert(!is_romaji(s[0]));
        law_kana_text_of_no_romaji(rest);
    }
    assert(kana_text(s) =~= s);
}

proof fn lemma_kana_text_of_join(parts: Seq<Seq<char>>)
    ensures
        kana_text(join(parts, seq![' '])) == join(
            parts.map_values(|w: Seq<char>| kana_text(w)),
            seq![' '],
        ),
    decreases parts.len(),
{
    let f = |w: Seq<char>| kana_text(w);
    if parts.len() == 0 {
        lemma_kana_text_step(seq![]);
    } else if parts.len() > 1 {
        let front = parts.drop_last();
        lemma_kana_text_of_join(front);
        law_kana_text_keeps_other_characters(join(front, seq![' ']), ' ', parts.last());
        assert(parts.map_values(f).drop_last() == front.map_values(f));
    }
}

/// The kana candidate of a normalised draft is the kana text of each of its words, with the
/// words' single spaces between them.
pub proof fn law_kana_candidate_word_by_word(s: Seq<char>)
    ensures
        kana_text(collapsed(s)) == join(
            words(s).map_values(|w: Seq<char>| kana_text(w)),
            seq![' '],
        ),
{
    lemma_kana_text_of_join(words(s));
}

/// A reading either is the run as it was typed, or holds no ASCII letter at all.
pub proof fn law_reading_never_half_converted(romaji_run: Seq<char>, converted: Seq<char>)
    ensures
        reading(romaji_run, converted) == romaji_run || !has_ascii_letter(
            reading(romaji_run, converted),
        ),
{
}

/// A reading is all or nothing: a conversion in which no ASCII letter is left is the reading, in
/// full; where one is left, the run stays as it was typed.
pub proof fn law_reading_is_whole(romaji_run: Seq<char>, converted: Seq<char>)
    ensures
        (forall|i: int|
            0 <= i < converted.len() ==> !('a' <= #[trigger] converted[i] <= 'z') && !('A'
                <= converted[i] <= 'Z')) ==> reading(romaji_run, converted) == converted,
        (exists|i: int|
            0 <= i < converted.len() && ('a' <= #[trigger] converted[i] <= 'z' || 'A'
                <= converted[i] <= 'Z')) ==> reading(romaji_run, converted) == romaji_run,
{
    if exists|i: int|
        0 <= i < converted.len() && ('a' <= #[trigger] converted[i] <= 'z' || 'A' <= converted[i]
            <= 'Z') {
        let i = choose|i: int|
            0 <= i < converted.len() && ('a' <= #[trigger] converted[i] <= 'z' || 'A'
                <= converted[i] <= 'Z');
        assert(is_ascii_letter(converted[i]));
    }
    if forall|i: int|
        0 <= i < converted.len() ==> !('a' <= #[trigger] converted[i] <= 'z') && !('A'
            <= converted[i] <= 'Z') {
        assert(!has_ascii_letter(converted));
    }
}

/// A run of letters, apostrophes and hyphens is read as a whole: as its hiragana, in full, or
/// where an ASCII letter is left in that, as it was typed.
pub proof fn law_kana_text_of_run(romaji_run: Seq<char>)
    requires
        romaji_run.len() > 0,
        forall|i: int|
            0 <= i < romaji_run.len() ==> ('a' <= #[trigger] romaji_run[i] <= 'z' || 'A'
                <= romaji_run[i] <= 'Z' || romaji_run[i] == '\'' || romaji_run[i] == '-'),
    ensures
        (forall|i: int|
            0 <= i < hiragana(romaji_run).len() ==> !('a' <= #[trigger] hiragana(romaji_run)[i]
                <= 'z') && !('A' <= hiragana(romaji_run)[i] <= 'Z')) ==> kana_text(romaji_run)
            == hiragana(romaji_run),
        (exists|i: int|
            0 <= i < hiragana(romaji_run).len() && ('a' <= #[trigger] hiragana(romaji_run)[i]
                <= 'z' || 'A' <= hiragana(romaji_run)[i] <= 'Z')) ==> kana_text(romaji_run)
            == romaji_run,
{
    let n = romaji_run.len() as int;
    assert forall|i: int| 0 <= i < n implies is_romaji(#[trigger] romaji_run[i]) by {}
    lemma_run_len_is(romaji_run, n);
    lemma_kana_text_step(romaji_run);
    lemma_kana_text_step(romaji_run.skip(n));
    assert(is_romaji(romaji_run[0]));
    assert(romaji_run.take(n) =~= romaji_run);
    assert(kana_text(romaji_run) =~= kana_reading(romaji_run));
    law_reading_is_whole(romaji_run, hiragana(romaji_run));
}

/// The runs of a text, put back in their places, give the text again; a text of letters,
/// apostrophes and hyphens is one run, and any other character parts the runs around it.
pub proof fn law_runs(before: Seq<char>, c: char, after: Seq<char>)
    requires
        !('a' <= c <= 'z') && !('A' <= c <= 'Z') && c != '\'' && c != '-',
    ensures
        with_runs(before, romaji_runs(before)) == before,
        romaji_runs(before + seq![c] + after) == romaji_runs(before) + romaji_runs(after),
        before.len() > 0 && (forall|i: int|
            0 <= i < before.len() ==> ('a' <= #[trigger] before[i] <= 'z' || 'A' <= before[i]
                <= 'Z' || before[i] == '\'' || before[i] == '-')) ==> romaji_runs(before) == seq![
            before,
        ],
    decreases before.len(),
{
    let s = before + seq![c] + after;
    if before.len() == 0 {
        assert(s[0] == c);
        assert(s.skip(1) =~= after);
        assert(romaji_runs(s) =~= romaji_runs(before) + romaji_runs(after));
        assert(with_runs(before, romaji_runs(before)) =~= before);
    } else if !is_romaji(before[0]) {
        law_runs(before.skip(1), c, after);
        assert(s[0] == before[0]);
        assert(s.skip(1) =~= before.skip(1) + seq![c] + after);
        assert(with_runs(before, romaji_runs(before)) =~= before);
    } else {
        lemma_run_len(before);
        let n = run_len(before) as int;
        let rest = before.skip(n);
        law_runs(rest, c, after);
        assert(romaji_runs(before) =~= seq![before.take(n)] + romaji_runs(rest));
        assert(romaji_runs(before).skip(1) =~= romaji_runs(rest));
        assert(with_runs(before, romaji_runs(before)) =~= before.take(n) + rest);
        assert(before.take(n) + rest =~= before);
        assert(s[0] == before[0]);
        assert forall|i: int| 0 <= i < n implies is_romaji(#[trigger] s[i]) by {
            assert(s[i] == before[i]);
        }
        if n < before.len() {
            assert(s[n] == before[n]);
        } else {
            assert(s[n] == c);
        }
        lemma_run_len_is(s, n);
        assert(s.take(n) =~= before.take(n));
        assert(s.skip(n) =~= rest + seq![c] + after);
        assert(romaji_runs(s) =~= seq![s.take(n)] + romaji_runs(s.skip(n)));
        assert(romaji_runs(s) =~= romaji_runs(before) + romaji_runs(after));
        if forall|i: int|
            0 <= i < before.len() ==> ('a' <= #[trigger] before[i] <= 'z' || 'A' <= before[i]
                <= 'Z' || before[i] == '\'' || before[i] == '-') {
            assert forall|i: int| 0 <= i < before.len() implies is_romaji(#[trigger] before[i]) by {}
            lemma_run_len_is(before, before.len() as int);
            assert(before.take(n) =~= before);
            assert(romaji_runs(rest) =~= Seq::<Seq<char>>::empty());
            assert(romaji_runs(before) =~= seq![before]);
        }
    }
}

proof fn lemma_words_around(before: Seq<char>, c: char, after: Seq<char>)
    requires
        is_white_space(c),
    ensures
        words(before + seq![c] + after) == words(before) + words(after),
    decreases before.len(),
{
    let s = before + seq![c] + after;
    if before.len() == 0 {
        assert(s[0] == c);
        assert(s.skip(1) =~= after);
        assert(words(s) =~= words(before) + words(after));
    } else if is_white_space(before[0]) {
        assert(s[0] == before[0]);
        assert(s.skip(1) =~= before.skip(1) + seq![c] + after);
        lemma_words_around(before.skip(1), c, after);
    } else {
        lemma_word_len(before);
        let n = word_len(before) as int;
        assert(s[0] == before[0]);
        assert forall|i: int| 0 <= i < n implies !is_white_space(#[trigger] s[i]) by {
            assert(s[i] == before[i]);
        }
        if n < before.len() {
            assert(s[n] == before[n]);
        } else {
            assert(s[n] == c);
        }
        lemma_word_len_is(s, n);
        assert(s.take(n) =~= before.take(n));
        assert(s.skip(n) =~= before.skip(n) + seq![c] + after);
        lemma_words_around(before.skip(n), c, after);
        assert(words(before) =~= seq![before.take(n)] + words(before.skip(n)));
        assert(words(s) =~= seq![s.take(n)] + words(s.skip(n)));
        assert(words(s) =~= words(before) + words(after));
    }
}

proof fn lemma_words_of_blank(s: Seq<char>)
    requires
        forall|i: int| 0 <= i < s.len() ==> is_white_space(#[trigger] s[i]),
    ensures
        words(s).len() == 0,
    decreases s.len(),
{
    if s.len() > 0 {
        let rest = s.skip(1);
        assert forall|i: int| 0 <= i < rest.len() implies is_white_space(#[trigger] rest[i]) by {
            assert(rest[i] == s[i + 1]);
        }
        assert(is_white_space(s[0]));
        lemma_words_of_blank(rest);
    }
}

proof fn lemma_words_of_other(s: Seq<char>, at: int)
    requires
        0 <= at < s.len(),
        !is_white_space(s[at]),
    ensures
        words(s).len() > 0,
    decreases s.len(),
{
    if is_white_space(s[0]) {
        assert(s.skip(1)[at - 1] == s[at]);
        lemma_words_of_other(s.skip(1), at - 1);
    } else {
        assert(words(s) =~= seq![s.take(word_len(s) as int)] + words(
            s.skip(word_len(s) as int),
        ));
    }
}

/// White space becomes one space between what stands on both sides, and nothing at the start and
/// at the end; what is not white space is kept as it is.
pub proof fn law_collapsed_spacing(before: Seq<char>, gap: Seq<char>, after: Seq<char>)
    requires
        gap.len() > 0,
        forall|i: int| 0 <= i < gap.len() ==> is_white_space(#[trigger] gap[i]),
    ensures
        (forall|i: int| 0 <= i < before.len() ==> !is_white_space(#[trigger] before[i]))
            ==> collapsed(before) == before,
        (forall|i: int| 0 <= i < before.len() ==> is_white_space(#[trigger] before[i]))
            ==> collapsed(before + gap + after) == collapsed(after),
        (forall|i: int| 0 <= i < after.len() ==> is_white_space(#[trigger] after[i]))
            ==> collapsed(before + gap + after) == collapsed(before),
        (exists|i: int| 0 <= i < before.len() && !is_white_space(#[trigger] before[i])) && (exists|
            i: int,
        |
            0 <= i < after.len() && !is_white_space(#[trigger] after[i])) ==> collapsed(
            before + gap + after,
        ) == collapsed(before) + seq![' '] + collapsed(after),
{
    if forall|i: int| 0 <= i < before.len() ==> !is_white_space(#[trigger] before[i]) {
        if before.len() == 0 {
            assert(words(before).len() == 0);
            assert(collapsed(before) =~= before);
        } else {
            lemma_words_of_word(before);
        }
    }
    let rest = gap.skip(1) + after;
    assert(is_white_space(gap[0]));
    lemma_words_around(before, gap[0], rest);
    assert(before + seq![gap[0]] + rest =~= before + gap + after);
    lemma_words_after_blank(gap.skip(1), after);
    assert(words(before + gap + after) == words(before) + words(after));
    if forall|i: int| 0 <= i < before.len() ==> is_white_space(#[trigger] before[i]) {
        lemma_words_of_blank(before);
        assert(words(before) + words(after) =~= words(after));
    }
    if forall|i: int| 0 <= i < after.len() ==> is_white_space(#[trigger] after[i]) {
        lemma_words_of_blank(after);
        assert(words(before) + words(after) =~= words(before));
    }
    if (exists|i: int| 0 <= i < before.len() && !is_white_space(#[trigger] before[i])) && (exists|
        i: int,
    |
        0 <= i < after.len() && !is_white_space(#[trigger] after[i])) {
        let i = choose|i: int| 0 <= i < before.len() && !is_white_space(#[trigger] before[i]);
        let j = choose|i: int| 0 <= i < after.len() && !is_white_space(#[trigger] after[i]);
        lemma_words_of_other(before, i);
        lemma_words_of_other(after, j);
        law_join(words(before), words(after), seq![' ']);
    }
}

proof fn lemma_words_after_blank(gap: Seq<char>, after: Seq<char>)
    requires
        forall|i: int| 0 <= i < gap.len() ==> is_white_space(#[trigger] gap[i]),
    ensures
        words(gap + after) == words(after),
    decreases gap.len(),
{
    let s = gap + after;
    if gap.len() == 0 {
        assert(s =~= after);
    } else {
        let rest = gap.skip(1);
        assert forall|i: int| 0 <= i < rest.len() implies is_white_space(#[trigger] rest[i]) by {
            assert(rest[i] == gap[i + 1]);
        }
        assert(is_white_space(gap[0]));
        assert(s[0] == gap[0]);
        assert(s.skip(1) =~= rest + after);
        lemma_words_after_blank(rest, after);
        assert(words(s) == words(s.skip(1)));
    }
}

/// Each run is replaced by its own replacement, in full: one run by one text, and the runs on both
/// sides of any other character, which stays, by the replacements in the same order.
pub proof fn law_runs_are_replaced(
    before: Seq<char>,
    c: char,
    after: Seq<char>,
    first: Seq<Seq<char>>,
    second: Seq<Seq<char>>,
)
    requires
        !('a' <= c <= 'z') && !('A' <= c <= 'Z') && c != '\'' && c != '-',
        first.len() == romaji_runs(before).len(),
    ensures
        with_runs(before + seq![c] + after, first + second) == with_runs(before, first) + seq![c]
            + with_runs(after, second),
        before.len() > 0 && (forall|i: int|
            0 <= i < before.len() ==> ('a' <= #[trigger] before[i] <= 'z' || 'A' <= before[i]
                <= 'Z' || before[i] == '\'' || before[i] == '-')) ==> first.len() == 1
            && with_runs(before, first) == first[0],
        before.len() == 0 ==> with_runs(before, first).len() == 0,
    decreases before.len(),
{
    let s = before + seq![c] + after;
    let all = first + second;
    if before.len() == 0 {
        assert(romaji_runs(before).len() == 0);
        assert(s[0] == c);
        assert(s.skip(1) =~= after);
        assert(all =~= second);
        assert(with_runs(s, all) =~= with_runs(before, first) + seq![c] + with_runs(
            after,
            second,
        ));
    } else if !is_romaji(before[0]) {
        law_runs_are_replaced(before.skip(1), c, after, first, second);
        assert(s[0] == before[0]);
        assert(s.skip(1) =~= before.skip(1) + seq![c] + after);
        assert(with_runs(s, all) =~= with_runs(before, first) + seq![c] + with_runs(
            after,
            second,
        ));
    } else {
        lemma_run_len(before);
        let n = run_len(before) as int;
        let rest = before.skip(n);
        assert(romaji_runs(before) =~= seq![before.take(n)] + romaji_runs(rest));
        law_runs_are_replaced(rest, c, after, first.skip(1), second);
        assert(s[0] == before[0]);
        assert forall|i: int| 0 <= i < n implies is_romaji(#[trigger] s[i]) by {
            assert(s[i] == before[i]);
        }
        if n < before.len() {
            assert(s[n] == before[n]);
        } else {
            assert(s[n] == c);
        }
        lemma_run_len_is(s, n);
        assert(s.skip(n) =~= rest + seq![c] + after);
        assert(all.skip(1) =~= first.skip(1) + second);
        assert(with_runs(s, all) =~= with_runs(before, first) + seq![c] + with_runs(
            after,
            second,
        ));
        if forall|i: int|
            0 <= i < before.len() ==> ('a' <= #[trigger] before[i] <= 'z' || 'A' <= before[i]
                <= 'Z' || before[i] == '\'' || before[i] == '-') {
            assert forall|i: int| 0 <= i < before.len() implies is_romaji(#[trigger] before[i]) by {}
            lemma_run_len_is(before, before.len() as int);
            assert(rest.len() == 0);
            assert(romaji_runs(rest).len() == 0);
            assert(with_runs(before, first) =~= first[0]);
        }
    }
}

} // verus!
