//! Searching, splitting, replacing and joining text.

use crate::text::{chars_of, slice_of, texts};
use vstd::prelude::*;

verus! {

/// Whether `pattern` stands in `s` at index `i`.
pub open spec fn occurs_at(s: Seq<char>, pattern: Seq<char>, i: int) -> bool {
    0 <= i && i + pattern.len() <= s.len() && s.subrange(i, i + pattern.len()) == pattern
}

/// The first index, at or after `from`, at which `pattern` stands in `s`.
pub open spec fn find_from(s: Seq<char>, pattern: Seq<char>, from: int) -> Option<int>
    decreases s.len() - from + 1,
{
    if from + pattern.len() > s.len() {
        None
    } else if occurs_at(s, pattern, from) {
        Some(from)
    } else {
        find_from(s, pattern, from + 1)
    }
}

/// The first index at which `pattern` stands in `s`.
pub open spec fn find(s: Seq<char>, pattern: Seq<char>) -> Option<int> {
    find_from(s, pattern, 0)
}

/// Whether `pattern` stands anywhere in `s`.
pub open spec fn contains(s: Seq<char>, pattern: Seq<char>) -> bool {
    find(s, pattern) is Some
}

/// Whether `s` starts with `prefix`.
pub open spec fn starts_with(s: Seq<char>, prefix: Seq<char>) -> bool {
    occurs_at(s, prefix, 0)
}

/// The last index at which `c` stands in `s`.
pub open spec fn rfind_char(s: Seq<char>, c: char) -> Option<int>
    decreases s.len(),
{
    if s.len() == 0 {
        None
    } else if s.last() == c {
        Some(s.len() - 1)
    } else {
        rfind_char(s.drop_last(), c)
    }
}

/// What `find_from` gives: an occurrence before which there is none.
pub proof fn lemma_find_from(s: Seq<char>, pattern: Seq<char>, from: int)
    requires
        0 <= from,
    ensures
        match find_from(s, pattern, from) {
            Some(i) => from <= i && occurs_at(s, pattern, i) && forall|j: int|
                from <= j < i ==> !occurs_at(s, pattern, j),
            None => forall|j: int| from <= j ==> !occurs_at(s, pattern, j),
        },
    decreases s.len() - from + 1,
{
    if from + pattern.len() > s.len() {
    } else if occurs_at(s, pattern, from) {
    } else {
        lemma_find_from(s, pattern, from + 1);
    }
}

/// `find` gives the least index at which the pattern stands, and gives none only where the
/// pattern stands nowhere.
pub proof fn lemma_find(s: Seq<char>, pattern: Seq<char>)
    ensures
        match find(s, pattern) {
            Some(i) => occurs_at(s, pattern, i) && forall|j: int|
                0 <= j < i ==> !occurs_at(s, pattern, j),
            None => forall|j: int| !occurs_at(s, pattern, j),
        },
{
    lemma_find_from(s, pattern, 0);
}

/// `rfind_char` gives the greatest index at which the character stands, and gives none only
/// where it stands nowhere.
pub proof fn lemma_rfind_char(s: Seq<char>, c: char)
    ensures
        match rfind_char(s, c) {
            Some(i) => 0 <= i < s.len() && s[i] == c && forall|j: int|
                i < j < s.len() ==> s[j] != c,
            None => forall|j: int| 0 <= j < s.len() ==> s[j] != c,
        },
    decreases s.len(),
{
    if s.len() == 0 {
    } else if s.last() == c {
    } else {
        let front = s.drop_last();
        lemma_rfind_char(front, c);
        assert(forall|j: int| 0 <= j < front.len() ==> front[j] == s[j]);
    }
}

fn stands_at(chars: &[char], pattern: &[char], at: usize) -> (r: bool)
    requires
        at <= chars@.len(),
    ensures
        r == occurs_at(chars@, pattern@, at as int),
{
    let len = chars.len();
    if pattern.len() > len - at {
        return false;
    }
    let mut k: usize = 0;
    while k < pattern.len()
        invariant
            len == chars@.len(),
            k <= pattern@.len(),
            at + pattern@.len() <= chars@.len(),
            forall|j: int| 0 <= j < k ==> chars@[at + j] == #[trigger] pattern@[j],
        decreases pattern@.len() - k,
    {
        if chars[at + k] != pattern[k] {
            proof {
                let part = chars@.subrange(at as int, at + pattern@.len());
                assert(part[k as int] == chars@[at + k]);
            }
            return false;
        }
        k += 1;
    }
    assert(chars@.subrange(at as int, at + pattern@.len()) =~= pattern@);
    true
}

/// Finds the first place, at or after `from`, where the pattern stands.
pub fn find_chars(chars: &[char], pattern: &[char], from: usize) -> (found: Option<usize>)
    requires
        from <= chars@.len(),
    ensures
        match found {
            Some(i) => find_from(chars@, pattern@, from as int) == Some(i as int) && from <= i && i
                + pattern@.len() <= chars@.len(),
            None => find_from(chars@, pattern@, from as int) is None,
        },
{
    let mut i: usize = from;
    loop
        invariant
            from <= i <= chars@.len(),
            find_from(chars@, pattern@, from as int) == find_from(chars@, pattern@, i as int),
        decreases chars@.len() - i,
    {
        if pattern.len() > chars.len() - i {
            return None;
        }
        if stands_at(chars, pattern, i) {
            return Some(i);
        }
        if i == chars.len() {
            assert(chars@.subrange(i as int, i as int) =~= pattern@);
            return None;
        }
        i += 1;
    }
}

/// Finds the last place where a character stands.
pub fn rfind_chars(chars: &[char], c: char) -> (found: Option<usize>)
    ensures
        match found {
            Some(i) => rfind_char(chars@, c) == Some(i as int) && i < chars@.len(),
            None => rfind_char(chars@, c) is None,
        },
{
    let mut end: usize = chars.len();
    assert(chars@.take(end as int) == chars@);
    while end > 0
        invariant
            end <= chars@.len(),
            rfind_char(chars@, c) == rfind_char(chars@.take(end as int), c),
        decreases end,
    {
        assert(chars@.take(end as int).drop_last() == chars@.take(end - 1));
        if chars[end - 1] == c {
            return Some(end - 1);
        }
        end -= 1;
    }
    None
}

/// Whether one text stands in another.
pub fn contains_text(s: &str, pattern: &str) -> (r: bool)
    ensures
        r == contains(s@, pattern@),
{
    let chars = chars_of(s);
    let pattern = chars_of(pattern);
    find_chars(&chars, &pattern, 0).is_some()
}

/// Whether one text starts with another.
pub fn starts_with_text(s: &str, prefix: &str) -> (r: bool)
    ensures
        r == starts_with(s@, prefix@),
{
    let chars = chars_of(s);
    let prefix = chars_of(prefix);
    stands_at(&chars, &prefix, 0)
}

/// The parts of `s` before and after the first place where `separator` stands.
pub open spec fn split_once(s: Seq<char>, separator: Seq<char>) -> Option<(Seq<char>, Seq<char>)> {
    match find(s, separator) {
        Some(i) => Some((s.take(i), s.skip(i + separator.len()))),
        None => None,
    }
}

/// Splits at the first place where the separator stands.
pub fn split_once_chars(chars: &[char], separator: &[char]) -> (parts: Option<
    (Vec<char>, Vec<char>),
>)
    ensures
        match parts {
            Some((before, after)) => split_once(chars@, separator@) == Some((before@, after@)),
            None => split_once(chars@, separator@) is None,
        },
{
    let len = chars.len();
    match find_chars(chars, separator, 0) {
        None => None,
        Some(i) => {
            let before = slice_of(chars, 0, i);
            let after = slice_of(chars, i + separator.len(), len);
            assert(chars@.subrange(0, i as int) == chars@.take(i as int));
            assert(chars@.subrange(i + separator@.len(), chars@.len() as int) == chars@.skip(
                i + separator@.len(),
            ));
            Some((before, after))
        },
    }
}

/// `s` with every occurrence of `pattern` replaced, taking occurrences from left to right and
/// none that overlaps one already taken. The pattern is not empty.
pub open spec fn replace_all(s: Seq<char>, pattern: Seq<char>, by: Seq<char>) -> Seq<char>
    decreases s.len(),
    when pattern.len() > 0
    via replace_all_decreases
{
    match find(s, pattern) {
        Some(i) => s.take(i) + by + replace_all(s.skip(i + pattern.len()), pattern, by),
        None => s,
    }
}

#[via_fn]
proof fn replace_all_decreases(s: Seq<char>, pattern: Seq<char>, by: Seq<char>) {
    lemma_find(s, pattern);
}

/// Replaces every occurrence of a pattern, from left to right.
pub fn replace_chars(chars: &[char], pattern: &[char], by: &[char]) -> (replaced: Vec<char>)
    requires
        pattern@.len() > 0,
    ensures
        replaced@ == replace_all(chars@, pattern@, by@),
{
    let mut replaced: Vec<char> = Vec::new();
    let mut at: usize = 0;
    assert(chars@.skip(0) == chars@);
    loop
        invariant
            pattern@.len() > 0,
            at <= chars@.len(),
            replace_all(chars@, pattern@, by@) == replaced@ + replace_all(
                chars@.skip(at as int),
                pattern@,
                by@,
            ),
        decreases chars@.len() - at,
    {
        let rest = slice_of(chars, at, chars.len());
        assert(rest@ == chars@.skip(at as int));
        match find_chars(&rest, pattern, 0) {
            None => {
                append_chars(&mut replaced, &rest);
                return replaced;
            },
            Some(i) => {
                let ghost before = replaced@;
                let skipped = slice_of(&rest, 0, i);
                append_chars(&mut replaced, &skipped);
                append_chars(&mut replaced, by);
                proof {
                    assert(rest@.subrange(0, i as int) == rest@.take(i as int));
                    assert(rest@.skip(i + pattern@.len()) == chars@.skip(at + i + pattern@.len()));
                    assert(replaced@ + replace_all(
                        chars@.skip(at + i + pattern@.len()),
                        pattern@,
                        by@,
                    ) == before + replace_all(rest@, pattern@, by@));
                }
                at = at + i + pattern.len();
            },
        }
    }
}

/// Appends characters.
pub fn append_chars(chars: &mut Vec<char>, more: &[char])
    ensures
        final(chars)@ == old(chars)@ + more@,
{
    let ghost start = chars@;
    let mut i: usize = 0;
    assert(start + more@.take(0) == start);
    while i < more.len()
        invariant
            i <= more@.len(),
            chars@ == start + more@.take(i as int),
        decreases more@.len() - i,
    {
        chars.push(more[i]);
        assert(more@.take(i + 1) == more@.take(i as int).push(more@[i as int]));
        i += 1;
    }
    assert(more@.take(i as int) == more@);
}

/// A line without the carriage return that may end it.
pub open spec fn strip_carriage_return(line: Seq<char>) -> Seq<char> {
    if line.len() > 0 && line.last() == '\r' {
        line.drop_last()
    } else {
        line
    }
}

/// The lines of `s`. A line ends with `\n` or `\r\n`, which is not part of it; the last one
/// may also end with the text, and then keeps a carriage return at its end.
pub open spec fn lines(s: Seq<char>) -> Seq<Seq<char>>
    decreases s.len(),
    via lines_decreases
{
    if s.len() == 0 {
        seq![]
    } else {
        match find(s, seq!['\n']) {
            Some(i) => seq![strip_carriage_return(s.take(i))] + lines(s.skip(i + 1)),
            None => seq![s],
        }
    }
}

#[via_fn]
proof fn lines_decreases(s: Seq<char>) {
    lemma_find(s, seq!['\n']);
}

/// The characters of each line.
pub open spec fn line_views(lines: Seq<Vec<char>>) -> Seq<Seq<char>> {
    lines.map_values(|line: Vec<char>| line@)
}

/// Splits a text into its lines.
pub fn lines_of(chars: &[char]) -> (all: Vec<Vec<char>>)
    ensures
        line_views(all@) == lines(chars@),
{
    let mut all: Vec<Vec<char>> = Vec::new();
    let newline: Vec<char> = vec!['\n'];
    let mut at: usize = 0;
    assert(newline@ == seq!['\n']);
    assert(chars@.skip(0) == chars@);
    while at < chars.len()
        invariant
            at <= chars@.len(),
            newline@ == seq!['\n'],
            lines(chars@) == line_views(all@) + lines(chars@.skip(at as int)),
        decreases chars@.len() - at,
    {
        let rest = slice_of(chars, at, chars.len());
        assert(rest@ == chars@.skip(at as int));
        let ghost before = line_views(all@);
        match find_chars(&rest, &newline, 0) {
            None => {
                at = chars.len();
                assert(lines(chars@.skip(at as int)) == Seq::<Seq<char>>::empty());
                let ghost line = rest@;
                all.push(rest);
                assert(line_views(all@) == before.push(line));
                assert(before + seq![line] == before.push(line));
            },
            Some(i) => {
                let end = if i > 0 && rest[i - 1] == '\r' {
                    i - 1
                } else {
                    i
                };
                let line = slice_of(&rest, 0, end);
                proof {
                    assert(rest@.take(i as int).len() == i);
                    if i > 0 {
                        assert(rest@.take(i as int).last() == rest@[i - 1]);
                    }
                    assert(line@ == strip_carriage_return(rest@.take(i as int)));
                    assert(rest@.skip(i + 1) == chars@.skip(at + i + 1));
                }
                let ghost view = line@;
                all.push(line);
                at = at + i + 1;
                assert(line_views(all@) == before.push(view));
                assert(before + (seq![view] + lines(chars@.skip(at as int))) == before.push(view)
                    + lines(chars@.skip(at as int)));
            },
        }
    }
    assert(lines(chars@.skip(at as int)) == Seq::<Seq<char>>::empty());
    all
}

/// The parts joined by a separator.
pub open spec fn join(parts: Seq<Seq<char>>, separator: Seq<char>) -> Seq<char>
    decreases parts.len(),
{
    if parts.len() == 0 {
        seq![]
    } else if parts.len() == 1 {
        parts[0]
    } else {
        join(parts.drop_last(), separator) + separator + parts.last()
    }
}

/// Joins strings by a separator.
pub fn join_texts(parts: &[String], separator: &str) -> (joined: String)
    ensures
        joined@ == join(texts(parts@), separator@),
{
    let mut joined = String::new();
    let mut i: usize = 0;
    while i < parts.len()
        invariant
            i <= parts@.len(),
            joined@ == join(texts(parts@.take(i as int)), separator@),
        decreases parts@.len() - i,
    {
        let ghost next = texts(parts@.take(i + 1));
        assert(next.drop_last() == texts(parts@.take(i as int)));
        if i > 0 {
            joined.append(separator);
        }
        joined.append(parts[i].as_str());
        if i == 0 {
            assert(joined@ == parts@[0]@);
        }
        i += 1;
    }
    assert(parts@.take(i as int) == parts@);
    joined
}

/// Each part stands in what the parts are joined to.
pub proof fn lemma_join_contains(parts: Seq<Seq<char>>, separator: Seq<char>, i: int)
    requires
        0 <= i < parts.len(),
    ensures
        contains(join(parts, separator), parts[i]),
    decreases parts.len(),
{
    let joined = join(parts, separator);
    lemma_find(joined, parts[i]);
    if parts.len() == 1 {
        assert(joined.subrange(0, joined.len() as int) =~= parts[0]);
        assert(occurs_at(joined, parts[i], 0));
    } else if i == parts.len() - 1 {
        let at = joined.len() - parts[i].len();
        assert(joined.subrange(at, at + parts[i].len()) =~= parts[i]);
        assert(occurs_at(joined, parts[i], at));
    } else {
        let front = parts.drop_last();
        lemma_join_contains(front, separator, i);
        lemma_contains_inside(seq![], join(front, separator), separator + parts.last(), parts[i]);
        assert(joined =~= seq![] + join(front, separator) + (separator + parts.last()));
    }
}

/// What stands in a part of a text stands in the text.
pub proof fn lemma_contains_inside(
    before: Seq<char>,
    part: Seq<char>,
    after: Seq<char>,
    pattern: Seq<char>,
)
    requires
        contains(part, pattern),
    ensures
        contains(before + part + after, pattern),
{
    let whole = before + part + after;
    lemma_find(part, pattern);
    lemma_find(whole, pattern);
    let i = find(part, pattern)->0;
    let at = before.len() + i;
    assert(whole.subrange(at, at + pattern.len()) =~= part.subrange(i, i + pattern.len()));
    assert(occurs_at(whole, pattern, at));
}

/// What parts are joined to starts with the first part.
pub proof fn lemma_join_starts(parts: Seq<Seq<char>>, separator: Seq<char>)
    requires
        parts.len() > 0,
    ensures
        parts[0].is_prefix_of(join(parts, separator)),
    decreases parts.len(),
{
    if parts.len() > 1 {
        lemma_join_starts(parts.drop_last(), separator);
    }
}

/// A pattern stands in a text exactly when the text is something, the pattern, and something.
pub proof fn law_contains(s: Seq<char>, pattern: Seq<char>)
    ensures
        contains(s, pattern) <==> exists|before: Seq<char>, after: Seq<char>|
            s == #[trigger] (before + pattern + after),
{
    lemma_find(s, pattern);
    if contains(s, pattern) {
        let i = find(s, pattern)->0;
        let before = s.take(i);
        let after = s.skip(i + pattern.len());
        assert(before + s.subrange(i, i + pattern.len()) + after =~= s);
        assert(s == before + pattern + after);
    }
    if exists|before: Seq<char>, after: Seq<char>| s == #[trigger] (before + pattern + after) {
        let (before, after) = choose|before: Seq<char>, after: Seq<char>|
            s == #[trigger] (before + pattern + after);
        let at = before.len() as int;
        assert(s.subrange(at, at + pattern.len()) =~= pattern);
        assert(occurs_at(s, pattern, at));
    }
}

/// The first place of a pattern is found: the one before which the pattern does not stand.
pub proof fn law_find(before: Seq<char>, pattern: Seq<char>, after: Seq<char>)
    requires
        forall|j: int|
            0 <= j < before.len() ==> #[trigger] (before + pattern + after).subrange(
                j,
                j + pattern.len(),
            ) != pattern,
    ensures
        find(before + pattern + after, pattern) == Some(before.len() as int),
{
    let s = before + pattern + after;
    let at = before.len() as int;
    lemma_find(s, pattern);
    assert(s.subrange(at, at + pattern.len()) =~= pattern);
    assert(occurs_at(s, pattern, at));
    let i = find(s, pattern)->0;
    if i < at {
        assert(s.subrange(i, i + pattern.len()) == pattern);
    }
}

/// The last place of a character is found: the one behind which it does not stand.
pub proof fn law_rfind_char(before: Seq<char>, c: char, after: Seq<char>)
    requires
        forall|i: int| 0 <= i < after.len() ==> #[trigger] after[i] != c,
    ensures
        rfind_char(before + seq![c] + after, c) == Some(before.len() as int),
{
    let s = before + seq![c] + after;
    lemma_rfind_char(s, c);
    assert(s[before.len() as int] == c);
    let i = rfind_char(s, c)->0;
    if i > before.len() {
        assert(s[i] == after[i - before.len() - 1]);
    }
}

/// A text is split at the first place of the separator, and both parts are kept whole.
pub proof fn law_split_once(before: Seq<char>, separator: Seq<char>, after: Seq<char>)
    requires
        forall|j: int|
            0 <= j < before.len() ==> #[trigger] (before + separator + after).subrange(
                j,
                j + separator.len(),
            ) != separator,
    ensures
        split_once(before + separator + after, separator) == Some((before, after)),
{
    let s = before + separator + after;
    law_find(before, separator, after);
    assert(s.take(before.len() as int) =~= before);
    assert(s.skip((before.len() + separator.len()) as int) =~= after);
}

/// A text is split only where the separator stands: otherwise there are no parts.
pub proof fn law_split_once_needs_separator(s: Seq<char>, separator: Seq<char>)
    ensures
        split_once(s, separator) is None <==> !exists|before: Seq<char>, after: Seq<char>|
            s == #[trigger] (before + separator + after),
{
    law_contains(s, separator);
}

/// The first occurrence of a pattern is replaced and what stands before it is kept; what stands
/// behind it is treated in the same way.
pub proof fn law_replace_first(
    before: Seq<char>,
    pattern: Seq<char>,
    after: Seq<char>,
    by: Seq<char>,
)
    requires
        pattern.len() > 0,
        forall|j: int|
            0 <= j < before.len() ==> #[trigger] (before + pattern + after).subrange(
                j,
                j + pattern.len(),
            ) != pattern,
    ensures
        replace_all(before + pattern + after, pattern, by) == before + by + replace_all(
            after,
            pattern,
            by,
        ),
{
    let s = before + pattern + after;
    law_find(before, pattern, after);
    assert(s.take(before.len() as int) =~= before);
    assert(s.skip((before.len() + pattern.len()) as int) =~= after);
}

/// A text in which a pattern does not stand is not changed by replacing it.
pub proof fn law_replace_nothing(s: Seq<char>, pattern: Seq<char>, by: Seq<char>)
    requires
        pattern.len() > 0,
        !exists|before: Seq<char>, after: Seq<char>| s == #[trigger] (before + pattern + after),
    ensures
        replace_all(s, pattern, by) == s,
{
    law_contains(s, pattern);
}

/// Lines end at line feeds, which may follow a carriage return; neither belongs to the line. A
/// line feed at the very end starts no line.
pub proof fn law_lines(line: Seq<char>, rest: Seq<char>)
    requires
        forall|i: int| 0 <= i < line.len() ==> #[trigger] line[i] != '\n',
    ensures
        lines(Seq::<char>::empty()) == Seq::<Seq<char>>::empty(),
        line.len() > 0 ==> lines(line) == seq![line],
        line.len() > 0 && line.last() == '\r' ==> lines(line + seq!['\n'] + rest) == seq![
            line.take(line.len() - 1),
        ] + lines(rest),
        line.len() == 0 || line.last() != '\r' ==> lines(line + seq!['\n'] + rest) == seq![line]
            + lines(rest),
{
    let s = line + seq!['\n'] + rest;
    let at = line.len() as int;
    lemma_find(line, seq!['\n']);
    if let Some(i) = find(line, seq!['\n']) {
        assert(line.subrange(i, i + 1)[0] == line[i]);
    }
    assert forall|j: int| 0 <= j < at implies #[trigger] s.subrange(j, j + 1) != seq!['\n'] by {
        assert(s.subrange(j, j + 1)[0] == line[j]);
    }
    assert forall|j: int| 0 <= j < at implies #[trigger] s.subrange(j, j + seq!['\n'].len())
        != seq!['\n'] by {
        assert(s.subrange(j, j + 1)[0] == line[j]);
    }
    law_find(line, seq!['\n'], rest);
    assert(s.take(at) =~= line);
    assert(s.skip(at + 1) =~= rest);
    assert(line.len() > 0 ==> line.drop_last() =~= line.take(line.len() - 1));
}

/// Joined parts stand one behind the other in full, with the separator between each two.
pub proof fn law_join(first: Seq<Seq<char>>, second: Seq<Seq<char>>, separator: Seq<char>)
    ensures
        join(Seq::<Seq<char>>::empty(), separator) == Seq::<char>::empty(),
        first.len() == 1 ==> join(first, separator) == first[0],
        first.len() > 0 && second.len() > 0 ==> join(first + second, separator) == join(
            first,
            separator,
        ) + separator + join(second, separator),
    decreases second.len(),
{
    if first.len() > 0 && second.len() > 0 {
        let all = first + second;
        assert(all.last() == second.last());
        assert(all.drop_last() =~= first + second.drop_last());
        if second.len() == 1 {
            assert(first + second.drop_last() =~= first);
        } else {
            law_join(first, second.drop_last(), separator);
            assert(join(all, separator) =~= join(first, separator) + separator + join(
                second,
                separator,
            ));
        }
    }
}

/// A text starts with a prefix exactly when it is the prefix and something.
pub proof fn law_starts_with(s: Seq<char>, prefix: Seq<char>)
    ensures
        starts_with(s, prefix) <==> exists|rest: Seq<char>| s == #[trigger] (prefix + rest),
{
    if starts_with(s, prefix) {
        let rest = s.skip(prefix.len() as int);
        assert(s.subrange(0, prefix.len() as int) + rest =~= s);
        assert(s == prefix + rest);
    }
    if exists|rest: Seq<char>| s == #[trigger] (prefix + rest) {
        let rest = choose|rest: Seq<char>| s == #[trigger] (prefix + rest);
        assert(s.subrange(0, prefix.len() as int) =~= prefix);
    }
}

/// What stands in something that stands in a text stands in the text.
pub proof fn lemma_contains_through(s: Seq<char>, part: Seq<char>, pattern: Seq<char>)
    requires
        contains(s, part),
        contains(part, pattern),
    ensures
        contains(s, pattern),
{
    law_contains(s, part);
    let (before, after) = choose|before: Seq<char>, after: Seq<char>|
        s == #[trigger] (before + part + after);
    lemma_contains_inside(before, part, after, pattern);
}

} // verus!
