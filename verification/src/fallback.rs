//! Deterministic conversion: the terms of the memory, replaced one rule after another.

use crate::protocol::{Confidence, TransformResponse, QUARTER};
use crate::search::{
    contains, law_lines, law_split_once, law_split_once_needs_separator, line_views, lines,
    lines_of, replace_all, replace_chars, split_once, split_once_chars,
};
use crate::text::{
    chars_of, is_white_space, law_trim_keeps_the_middle, lemma_trim_empty, string_of, trim,
    trim_chars,
};
use vstd::prelude::*;

verus! {

/// The rule on a line of the memory, `before -> after`: what to replace, and by what. A line
/// without an arrow, or with nothing on one side of it, holds no rule.
pub open spec fn rule_of(line: Seq<char>) -> Option<(Seq<char>, Seq<char>)> {
    match split_once(line, seq!['-', '>']) {
        Some((before, after)) => if trim(before).len() > 0 && trim(after).len() > 0 {
            Some((trim(before), trim(after)))
        } else {
            None
        },
        None => None,
    }
}

/// `text` after the rule on one line.
pub open spec fn apply_line(text: Seq<char>, line: Seq<char>) -> Seq<char> {
    match rule_of(line) {
        Some((before, after)) => replace_all(text, before, after),
        None => text,
    }
}

/// `text` after the rules on all lines, in order.
pub open spec fn apply_lines(text: Seq<char>, lines: Seq<Seq<char>>) -> Seq<char>
    decreases lines.len(),
{
    if lines.len() == 0 {
        text
    } else {
        apply_line(apply_lines(text, lines.drop_last()), lines.last())
    }
}

/// A draft with the memory's terms in it.
pub open spec fn with_memory_terms(raw: Seq<char>, memory: Seq<char>) -> Seq<char> {
    apply_lines(raw, lines(memory))
}

/// A sentence with a full stop at its end.
pub open spec fn with_full_stop(s: Seq<char>) -> Seq<char> {
    if s.len() > 0 && s.last() == '。' {
        s
    } else {
        s.push('。')
    }
}

fn rule_on(line: &[char]) -> (rule: Option<(Vec<char>, Vec<char>)>)
    ensures
        match rule {
            Some((before, after)) => rule_of(line@) == Some((before@, after@)) && before@.len() > 0,
            None => rule_of(line@) is None,
        },
{
    let arrow: Vec<char> = vec!['-', '>'];
    assert(arrow@ =~= seq!['-', '>']);
    match split_once_chars(line, &arrow) {
        None => None,
        Some((before, after)) => {
            let before = trim_chars(&before);
            let after = trim_chars(&after);
            if before.len() > 0 && after.len() > 0 {
                Some((before, after))
            } else {
                None
            }
        },
    }
}

/// Converts a draft by the terms of the memory alone.
pub fn fallback_convert(raw: &str, memory: &str) -> (response: TransformResponse)
    ensures
        response.converted@ == with_memory_terms(raw@, memory@),
        response.refined@ == with_full_stop(response.converted@),
        response.confidence.bits == QUARTER,
{
    let mut converted = chars_of(raw);
    let memory_lines = lines_of(&chars_of(memory));
    let ghost views = lines(memory@);
    let mut i: usize = 0;
    while i < memory_lines.len()
        invariant
            i <= memory_lines@.len(),
            views == line_views(memory_lines@),
            converted@ == apply_lines(raw@, views.take(i as int)),
        decreases memory_lines@.len() - i,
    {
        proof {
            let next = views.take(i + 1);
            assert(next.drop_last() == views.take(i as int));
            assert(next.last() == memory_lines@[i as int]@);
        }
        if let Some((before, after)) = rule_on(&memory_lines[i]) {
            converted = replace_chars(&converted, &before, &after);
        }
        i += 1;
    }
    assert(views.take(i as int) == views);
    let mut refined = string_of(&converted);
    if converted.len() == 0 || converted[converted.len() - 1] != '。' {
        refined.push('。');
    }
    TransformResponse {
        converted: string_of(&converted),
        refined,
        confidence: Confidence { bits: QUARTER },
    }
}

/// A rule whose term does not stand in the text changes nothing.
pub proof fn law_absent_term_changes_nothing(text: Seq<char>, line: Seq<char>)
    requires
        rule_of(line) matches Some((before, _)) ==> !contains(text, before),
    ensures
        apply_line(text, line) == text,
{
}

/// Where no line of the memory holds a rule, the draft is kept as it is.
pub proof fn law_memory_without_rules(raw: Seq<char>, memory_lines: Seq<Seq<char>>)
    requires
        forall|i: int|
            0 <= i < memory_lines.len() ==> rule_of(#[trigger] memory_lines[i]) is None,
    ensures
        apply_lines(raw, memory_lines) == raw,
    decreases memory_lines.len(),
{
    if memory_lines.len() > 0 {
        let front = memory_lines.drop_last();
        assert forall|i: int| 0 <= i < front.len() implies rule_of(#[trigger] front[i]) is None by {
            assert(front[i] == memory_lines[i]);
        }
        law_memory_without_rules(raw, front);
        assert(rule_of(memory_lines[memory_lines.len() - 1]) is None);
    }
}

/// The lines of a memory apply in order: first those before a point, then those behind it.
pub proof fn law_memory_applies_in_order(
    raw: Seq<char>,
    first: Seq<Seq<char>>,
    second: Seq<Seq<char>>,
)
    ensures
        apply_lines(raw, first + second) == apply_lines(apply_lines(raw, first), second),
    decreases second.len(),
{
    if second.len() == 0 {
        assert(first + second == first);
    } else {
        law_memory_applies_in_order(raw, first, second.drop_last());
        assert((first + second).drop_last() == first + second.drop_last());
    }
}

/// The refined text is the converted one and ends with a full stop; asking for a full stop twice
/// is asking once.
pub proof fn law_full_stop(s: Seq<char>)
    ensures
        with_full_stop(s).last() == '。',
        s.is_prefix_of(with_full_stop(s)),
        with_full_stop(with_full_stop(s)) == with_full_stop(s),
{
}

/// On a line, everything before the first arrow is the term and everything behind it is the
/// replacement, both in full, without the white space around them.
pub proof fn law_rule_on_line(
    before: Seq<char>,
    term: Seq<char>,
    between: Seq<char>,
    behind: Seq<char>,
    replacement: Seq<char>,
    after: Seq<char>,
    text: Seq<char>,
)
    requires
        term.len() > 0 && !is_white_space(term[0]) && !is_white_space(term.last()),
        replacement.len() > 0 && !is_white_space(replacement[0]) && !is_white_space(
            replacement.last(),
        ),
        forall|i: int| 0 <= i < before.len() ==> is_white_space(#[trigger] before[i]),
        forall|i: int| 0 <= i < between.len() ==> is_white_space(#[trigger] between[i]),
        forall|i: int| 0 <= i < behind.len() ==> is_white_space(#[trigger] behind[i]),
        forall|i: int| 0 <= i < after.len() ==> is_white_space(#[trigger] after[i]),
        forall|i: int|
            0 <= i < term.len() - 1 ==> !(#[trigger] term[i] == '-' && term[i + 1] == '>'),
    ensures
        rule_of(
            before + term + between + seq!['-', '>'] + (behind + replacement + after),
        ) == Some((term, replacement)),
        apply_line(
            text,
            before + term + between + seq!['-', '>'] + (behind + replacement + after),
        ) == replace_all(text, term, replacement),
{
    let left = before + term + between;
    let right = behind + replacement + after;
    let arrow = seq!['-', '>'];
    let line = left + arrow + right;
    assert forall|j: int| 0 <= j < left.len() implies #[trigger] line.subrange(j, j + arrow.len())
        != arrow by {
        let pair = line.subrange(j, j + 2);
        assert(pair[0] == line[j] && pair[1] == line[j + 1]);
        assert(line[j] == left[j]);
        if pair == arrow {
            if j < before.len() {
                assert(left[j] == before[j]);
            } else if j < before.len() + term.len() {
                let k = j - before.len();
                assert(left[j] == term[k]);
                if k < term.len() - 1 {
                    assert(left[j + 1] == term[k + 1]);
                } else if between.len() > 0 {
                    assert(left[j + 1] == between[0]);
                } else {
                    assert(line[j + 1] == arrow[0]);
                }
            } else {
                assert(left[j] == between[j - before.len() - term.len()]);
            }
        }
    }
    law_split_once(left, arrow, right);
    law_trim_keeps_the_middle(before, term, between);
    law_trim_keeps_the_middle(behind, replacement, after);
}

/// A line holds no rule where there is no arrow, or nothing but white space on one side of the
/// first one; the text is kept as it is then.
pub proof fn law_line_without_rule(
    line: Seq<char>,
    left: Seq<char>,
    right: Seq<char>,
    text: Seq<char>,
)
    requires
        ({
            ||| forall|i: int|
                0 <= i < line.len() - 1 ==> !(#[trigger] line[i] == '-' && line[i + 1] == '>')
            ||| line == left + seq!['-', '>'] + right && (forall|i: int|
                0 <= i < left.len() - 1 ==> !(#[trigger] left[i] == '-' && left[i + 1] == '>'))
                && ((forall|i: int| 0 <= i < left.len() ==> is_white_space(#[trigger] left[i]))
                || (forall|i: int| 0 <= i < right.len() ==> is_white_space(#[trigger] right[i])))
        }),
    ensures
        rule_of(line) is None,
        apply_line(text, line) == text,
{
    let arrow = seq!['-', '>'];
    if forall|i: int|
        0 <= i < line.len() - 1 ==> !(#[trigger] line[i] == '-' && line[i + 1] == '>') {
        law_split_once_needs_separator(line, arrow);
        if split_once(line, arrow) is Some {
            let (before, after) = choose|before: Seq<char>, after: Seq<char>|
                line == #[trigger] (before + arrow + after);
            let at = before.len() as int;
            assert(line[at] == '-' && line[at + 1] == '>');
        }
    } else {
        assert forall|j: int| 0 <= j < left.len() implies #[trigger] line.subrange(
            j,
            j + arrow.len(),
        ) != arrow by {
            let pair = line.subrange(j, j + 2);
            assert(pair[0] == line[j] && pair[1] == line[j + 1]);
            assert(line[j] == left[j]);
            if j < left.len() - 1 {
                assert(line[j + 1] == left[j + 1]);
            } else {
                assert(line[j + 1] == arrow[0]);
            }
        }
        law_split_once(left, arrow, right);
        lemma_trim_empty(left);
        lemma_trim_empty(right);
    }
}

/// The memory applies line by line: the rule on the first line to the draft, and the rest of the
/// memory to what comes of that. An empty memory changes nothing.
pub proof fn law_memory_line_by_line(raw: Seq<char>, line: Seq<char>, rest: Seq<char>)
    requires
        forall|i: int| 0 <= i < line.len() ==> #[trigger] line[i] != '\n',
        line.len() > 0 ==> line.last() != '\r',
    ensures
        with_memory_terms(raw, Seq::<char>::empty()) == raw,
        line.len() > 0 ==> with_memory_terms(raw, line) == apply_line(raw, line),
        with_memory_terms(raw, line + seq!['\n'] + rest) == with_memory_terms(
            apply_line(raw, line),
            rest,
        ),
{
    law_lines(line, rest);
    let one = seq![line];
    assert(one.drop_last() =~= Seq::<Seq<char>>::empty());
    assert(apply_lines(raw, one) == apply_line(raw, line)) by {
        reveal_with_fuel(apply_lines, 2);
    }
    law_memory_applies_in_order(raw, one, lines(rest));
}

/// A memory of one rule replaces the term by the replacement wherever it stands in the draft.
pub proof fn law_term_is_replaced(raw: Seq<char>, term: Seq<char>, replacement: Seq<char>)
    requires
        term.len() > 0 && !is_white_space(term[0]) && !is_white_space(term.last()),
        replacement.len() > 0 && !is_white_space(replacement[0]) && !is_white_space(
            replacement.last(),
        ),
        forall|i: int| 0 <= i < term.len() ==> #[trigger] term[i] != '\n',
        forall|i: int| 0 <= i < replacement.len() ==> #[trigger] replacement[i] != '\n',
        forall|i: int|
            0 <= i < term.len() - 1 ==> !(#[trigger] term[i] == '-' && term[i + 1] == '>'),
    ensures
        with_memory_terms(raw, term + seq![' ', '-', '>', ' '] + replacement) == replace_all(
            raw,
            term,
            replacement,
        ),
{
    let line = term + seq![' ', '-', '>', ' '] + replacement;
    let none = Seq::<char>::empty();
    assert(line =~= none + term + seq![' '] + seq!['-', '>'] + (seq![' '] + replacement + none));
    law_rule_on_line(none, term, seq![' '], seq![' '], replacement, none, raw);
    assert forall|i: int| 0 <= i < line.len() implies #[trigger] line[i] != '\n' by {
        if i < term.len() {
            assert(line[i] == term[i]);
        } else if i >= term.len() + 4 {
            assert(line[i] == replacement[i - term.len() - 4]);
        }
    }
    assert(line.last() == replacement.last());
    law_memory_line_by_line(raw, line, none);
}

/// A full stop is added exactly where there is none at the end, and nothing else changes.
pub proof fn law_full_stop_is_added_once(s: Seq<char>)
    ensures
        s.len() > 0 && s.last() == '。' ==> with_full_stop(s) == s,
        s.len() == 0 || s.last() != '。' ==> with_full_stop(s) == s + seq!['。'],
{
}

/// A memory applies by its lines alone, however they end, and a single line by its rule.
pub proof fn law_memory_applies_by_its_lines(
    raw: Seq<char>,
    memory: Seq<char>,
    other: Seq<char>,
    line: Seq<char>,
)
    ensures
        lines(memory) == lines(other) ==> with_memory_terms(raw, memory) == with_memory_terms(
            raw,
            other,
        ),
        lines(memory).len() == 0 ==> with_memory_terms(raw, memory) == raw,
        lines(memory) == seq![line] ==> with_memory_terms(raw, memory) == apply_line(raw, line),
        lines(memory) == lines(other) + seq![line] ==> with_memory_terms(raw, memory) == apply_line(
            with_memory_terms(raw, other),
            line,
        ),
{
    reveal_with_fuel(apply_lines, 2);
    assert(seq![line].drop_last() =~= Seq::<Seq<char>>::empty());
    let all = lines(other) + seq![line];
    assert(all.drop_last() =~= lines(other));
    assert(all.last() == line);
}

} // verus!
