//! The prompt for the local language model.

use crate::protocol::TransformRequest;
use crate::search::{
    contains, contains_text, join, join_texts, law_contains, law_join, law_lines, law_split_once,
    law_split_once_needs_separator, lemma_contains_inside, lemma_find, lemma_join_contains,
    lemma_join_starts, line_views, lines, lines_of, occurs_at, split_once, split_once_chars,
};
use crate::text::{
    chars_of, is_white_space, law_trim_keeps_the_middle, string_of, texts, trim, trim_chars,
};
use vstd::prelude::*;

verus! {

/// The lower case of a text.
pub uninterp spec fn lowercase(text: Seq<char>) -> Seq<char>;

/// `str::to_lowercase`: the lower case of a text by Unicode's `Lowercase` mapping, which depends
/// on the text alone and is named [`lowercase`].
pub assume_specification[ str::to_lowercase ](s: &str) -> (lower: String)
    ensures
        lower@ == lowercase(s@),
;

/// The term on a line of the memory: what stands before its arrow.
pub open spec fn term_of(line: Seq<char>) -> Option<Seq<char>> {
    match split_once(line, seq!['-', '>']) {
        Some((before, _)) => Some(trim(before)),
        None => None,
    }
}

/// Whether a term, given in lower case, stands in a draft in lower case.
pub open spec fn term_stands(term: Seq<char>, raw: Seq<char>) -> bool {
    term.len() > 0 && contains(raw, term)
}

/// Whether a line of the memory applies to a draft: its term stands in the draft, whatever the
/// case of both.
pub open spec fn line_applies(line: Seq<char>, raw: Seq<char>) -> bool {
    match term_of(line) {
        Some(term) => term_stands(lowercase(term), lowercase(raw)),
        None => false,
    }
}

/// The elements whose mark is set, in order.
pub open spec fn marked(all: Seq<Seq<char>>, marks: Seq<bool>) -> Seq<Seq<char>>
    decreases all.len(),
{
    if all.len() == 0 {
        seq![]
    } else if marks.last() {
        marked(all.drop_last(), marks.drop_last()).push(all.last())
    } else {
        marked(all.drop_last(), marks.drop_last())
    }
}

/// Which lines of a memory apply to a draft.
pub open spec fn marks_for(memory: Seq<char>, raw: Seq<char>) -> Seq<bool> {
    lines(memory).map_values(|line: Seq<char>| line_applies(line, raw))
}

/// The lines of a memory that apply to a draft.
pub open spec fn relevant_memory(memory: Seq<char>, raw: Seq<char>) -> Seq<char> {
    join(marked(lines(memory), marks_for(memory, raw)), seq!['\n'])
}

/// Whether a term stands in a draft, both in lower case.
pub fn term_stands_in(term: &str, raw: &str) -> (r: bool)
    ensures
        r == term_stands(term@, raw@),
{
    !term.is_empty() && contains_text(raw, term)
}

/// The term on a line of the memory.
fn term_on(line: &[char]) -> (term: Option<String>)
    ensures
        match term {
            Some(t) => term_of(line@) == Some(t@),
            None => term_of(line@) is None,
        },
{
    let arrow: Vec<char> = vec!['-', '>'];
    assert(arrow@ =~= seq!['-', '>']);
    match split_once_chars(line, &arrow) {
        None => None,
        Some((before, _)) => Some(string_of(&trim_chars(&before))),
    }
}

/// Joins the lines of a memory whose mark is set.
pub fn marked_lines(memory: &str, marks: &[bool]) -> (kept: String)
    requires
        marks@.len() == lines(memory@).len(),
    ensures
        kept@ == join(marked(lines(memory@), marks@), seq!['\n']),
{
    let all = lines_of(&chars_of(memory));
    let ghost views = lines(memory@);
    let mut kept: Vec<String> = Vec::new();
    let mut i: usize = 0;
    assert(views.len() == all@.len());
    while i < all.len()
        invariant
            i <= all@.len(),
            marks@.len() == all@.len(),
            views == line_views(all@),
            texts(kept@) == marked(views.take(i as int), marks@.take(i as int)),
        decreases all@.len() - i,
    {
        proof {
            assert(views.take(i + 1).drop_last() == views.take(i as int));
            assert(marks@.take(i + 1).drop_last() == marks@.take(i as int));
            assert(views.take(i + 1).last() == all@[i as int]@);
            assert(marks@.take(i + 1).last() == marks@[i as int]);
        }
        if marks[i] {
            let ghost before = texts(kept@);
            kept.push(string_of(&all[i]));
            assert(texts(kept@) =~= before.push(all@[i as int]@));
        }
        i += 1;
    }
    proof {
        assert(views.take(i as int) == views);
        assert(marks@.take(i as int) == marks@);
        reveal_strlit("\n");
        assert("\n"@ =~= seq!['\n']);
    }
    join_texts(&kept, "\n")
}

/// The lines of a memory that apply to a draft.
pub fn filter_memory(memory: &str, raw: &str) -> (relevant: String)
    ensures
        relevant@ == relevant_memory(memory@, raw@),
{
    let raw_lower = raw.to_lowercase();
    let all = lines_of(&chars_of(memory));
    let mut marks: Vec<bool> = Vec::new();
    let mut i: usize = 0;
    assert(lines(memory@).len() == all@.len());
    while i < all.len()
        invariant
            i <= all@.len(),
            marks@.len() == i,
            lines(memory@) == line_views(all@),
            raw_lower@ == lowercase(raw@),
            forall|j: int|
                0 <= j < i ==> #[trigger] marks@[j] == line_applies(lines(memory@)[j], raw@),
        decreases all@.len() - i,
    {
        assert(lines(memory@)[i as int] == all@[i as int]@);
        let applies = match term_on(&all[i]) {
            Some(term) => term_stands_in(
                term.as_str().to_lowercase().as_str(),
                raw_lower.as_str(),
            ),
            None => false,
        };
        marks.push(applies);
        i += 1;
    }
    assert(marks@ =~= marks_for(memory@, raw@));
    marked_lines(memory, &marks)
}

/// The start of the prompt.
pub open spec fn prompt_head() -> Seq<char> {
    "<|startoftext|>Romaji to Japanese. Each romaji word maps to one Japanese word. Convert every word faithfully.\n"@
}

/// The worked examples in the prompt.
pub open spec fn prompt_examples() -> Seq<char> {
    "\nINPUT: sumimasen chotto okuremasu\nOUTPUT: {\"converted\":\"すみませんちょっと遅れます\",\"refined\":\"すみません、ちょっと遅れます。\",\"confidence\":0.95}\n\nINPUT: ashita made ni repo wo dasanakya\nOUTPUT: {\"converted\":\"明日までにレポを出さなきゃ\",\"refined\":\"明日までにレポを出さなきゃ。\",\"confidence\":0.9}\n\nINPUT: kyou no kaigi de shiryou wo kakunin shita\nOUTPUT: {\"converted\":\"今日の会議で資料を確認した\",\"refined\":\"今日の会議で資料を確認した。\",\"confidence\":0.95}\n\nINPUT: "@
}

/// The end of the prompt, where the model's answer starts.
pub open spec fn prompt_tail() -> Seq<char> {
    "\nOUTPUT: {\"converted\":\""@
}

/// The part of the prompt that the memory fills; nothing where none of it applies.
pub open spec fn memory_section(relevant: Seq<char>) -> Seq<char> {
    if relevant.len() == 0 {
        seq![]
    } else {
        "\nREPLACE: "@ + relevant + "\n"@
    }
}

/// The prompt for a draft, with the memory that applies to it.
pub open spec fn prompt_for(raw: Seq<char>, relevant: Seq<char>) -> Seq<char> {
    prompt_head() + memory_section(relevant) + prompt_examples() + raw + prompt_tail()
}

/// The prompt for a draft, with the memory that applies to it.
pub fn prompt_with(raw: &str, relevant: &str) -> (prompt: String)
    ensures
        prompt@ == prompt_for(raw@, relevant@),
{
    let mut prompt = "<|startoftext|>Romaji to Japanese. Each romaji word maps to one Japanese word. Convert every word faithfully.\n".to_owned();
    if !relevant.is_empty() {
        prompt.append("\nREPLACE: ");
        prompt.append(relevant);
        prompt.append("\n");
    }
    assert(prompt@ =~= prompt_head() + memory_section(relevant@));
    prompt.append("\nINPUT: sumimasen chotto okuremasu\nOUTPUT: {\"converted\":\"すみませんちょっと遅れます\",\"refined\":\"すみません、ちょっと遅れます。\",\"confidence\":0.95}\n\nINPUT: ashita made ni repo wo dasanakya\nOUTPUT: {\"converted\":\"明日までにレポを出さなきゃ\",\"refined\":\"明日までにレポを出さなきゃ。\",\"confidence\":0.9}\n\nINPUT: kyou no kaigi de shiryou wo kakunin shita\nOUTPUT: {\"converted\":\"今日の会議で資料を確認した\",\"refined\":\"今日の会議で資料を確認した。\",\"confidence\":0.95}\n\nINPUT: ");
    prompt.append(raw);
    prompt.append("\nOUTPUT: {\"converted\":\"");
    prompt
}

/// The prompt for a request.
pub fn build_prompt(request: &TransformRequest) -> (prompt: String)
    ensures
        prompt@ == prompt_for(request.raw@, relevant_memory(request.memory@, request.raw@)),
{
    let relevant = filter_memory(request.memory.as_str(), request.raw.as_str());
    prompt_with(request.raw.as_str(), relevant.as_str())
}

/// Only lines of the memory are kept, and of them exactly those that apply, in their order.
pub proof fn law_marked_keeps_the_applying(all: Seq<Seq<char>>, marks: Seq<bool>)
    requires
        all.len() == marks.len(),
    ensures
        marked(all, marks).len() <= all.len(),
        forall|line: Seq<char>| #[trigger]
            marked(all, marks).contains(line) <==> exists|i: int|
                0 <= i < all.len() && marks[i] && #[trigger] all[i] == line,
    decreases all.len(),
{
    if all.len() > 0 {
        let front = all.drop_last();
        let front_marks = marks.drop_last();
        let kept = marked(front, front_marks);
        law_marked_keeps_the_applying(front, front_marks);
        let n = all.len() - 1;
        assert forall|line: Seq<char>| #[trigger]
            marked(all, marks).contains(line) <==> exists|i: int|
                0 <= i < all.len() && marks[i] && #[trigger] all[i] == line by {
            if marked(all, marks).contains(line) {
                let k = choose|k: int|
                    0 <= k < marked(all, marks).len() && marked(all, marks)[k] == line;
                if marks[n] && k == kept.len() {
                    assert(all[n] == line);
                } else {
                    assert(kept[k] == line);
                    assert(kept.contains(line));
                    let i = choose|i: int|
                        0 <= i < front.len() && front_marks[i] && #[trigger] front[i] == line;
                    assert(all[i] == line && marks[i]);
                }
            }
            if exists|i: int| 0 <= i < all.len() && marks[i] && #[trigger] all[i] == line {
                let i = choose|i: int| 0 <= i < all.len() && marks[i] && #[trigger] all[i] == line;
                if i == n {
                    assert(marked(all, marks).last() == line);
                } else {
                    assert(front[i] == line && front_marks[i]);
                    assert(kept.contains(line));
                    let k = choose|k: int| 0 <= k < kept.len() && kept[k] == line;
                    assert(marked(all, marks)[k] == line);
                }
            }
        }
    }
}

/// The draft and the memory that applies to it stand in the prompt word for word.
pub proof fn law_prompt_holds_request(raw: Seq<char>, relevant: Seq<char>)
    ensures
        contains(prompt_for(raw, relevant), raw),
        contains(prompt_for(raw, relevant), relevant),
{
    let prompt = prompt_for(raw, relevant);
    let before_raw = prompt_head() + memory_section(relevant) + prompt_examples();
    lemma_find(prompt, raw);
    let at = before_raw.len() as int;
    assert(prompt.subrange(at, at + raw.len()) =~= raw);
    assert(occurs_at(prompt, raw, at));
    lemma_find(prompt, relevant);
    if relevant.len() == 0 {
        assert(prompt.subrange(0, 0) =~= relevant);
        assert(occurs_at(prompt, relevant, 0));
    } else {
        let at = (prompt_head().len() + "\nREPLACE: "@.len()) as int;
        assert(prompt.subrange(at, at + relevant.len()) =~= relevant);
        assert(occurs_at(prompt, relevant, at));
    }
}

/// A line of the memory applies to a draft exactly when the term before its first arrow stands
/// anywhere in the draft, both in lower case: at a word's edge or inside it, next to whatever.
pub proof fn law_line_applies(
    before: Seq<char>,
    term: Seq<char>,
    between: Seq<char>,
    rest: Seq<char>,
    raw: Seq<char>,
)
    requires
        term.len() > 0 ==> !is_white_space(term[0]) && !is_white_space(term.last()),
        forall|i: int| 0 <= i < before.len() ==> is_white_space(#[trigger] before[i]),
        forall|i: int| 0 <= i < between.len() ==> is_white_space(#[trigger] between[i]),
        forall|i: int|
            0 <= i < term.len() - 1 ==> !(#[trigger] term[i] == '-' && term[i + 1] == '>'),
    ensures
        line_applies(before + term + between + seq!['-', '>'] + rest, raw) <==> {
            &&& lowercase(term).len() > 0
            &&& exists|head: Seq<char>, tail: Seq<char>|
                lowercase(raw) == #[trigger] (head + lowercase(term) + tail)
        },
{
    let left = before + term + between;
    let arrow = seq!['-', '>'];
    let line = left + arrow + rest;
    assert forall|j: int| 0 <= j < left.len() implies #[trigger] line.subrange(j, j + arrow.len())
        != arrow by {
        let pair = line.subrange(j, j + 2);
        assert(pair[0] == line[j] && pair[1] == line[j + 1]);
        assert(line[j] == left[j]);
        if pair == arrow {
            if j < before.len() {
                assert(left[j] == before[j]);
            } else if j < before.len() + term.len() {
                let k = j - before.len();
                assert(left[j] == term[k]);
                if k < term.len() - 1 {
                    assert(left[j + 1] == term[k + 1]);
                } else if between.len() > 0 {
                    assert(left[j + 1] == between[0]);
                } else {
                    assert(line[j + 1] == arrow[0]);
                }
            } else {
                assert(left[j] == between[j - before.len() - term.len()]);
            }
        }
    }
    law_split_once(left, arrow, rest);
    law_trim_keeps_the_middle(before, term, between);
    law_contains(lowercase(raw), lowercase(term));
}

/// A line without an arrow never applies.
pub proof fn law_line_without_arrow(line: Seq<char>, raw: Seq<char>)
    requires
        forall|i: int|
            0 <= i < line.len() - 1 ==> !(#[trigger] line[i] == '-' && line[i + 1] == '>'),
    ensures
        !line_applies(line, raw),
{
    let arrow = seq!['-', '>'];
    law_split_once_needs_separator(line, arrow);
    if split_once(line, arrow) is Some {
        let (before, after) = choose|before: Seq<char>, after: Seq<char>|
            line == #[trigger] (before + arrow + after);
        let at = before.len() as int;
        assert(line[at] == '-' && line[at + 1] == '>');
    }
}

/// Marked elements are kept in full and in order, and no others are.
pub proof fn law_marked_in_order(
    first: Seq<Seq<char>>,
    second: Seq<Seq<char>>,
    first_marks: Seq<bool>,
    second_marks: Seq<bool>,
)
    requires
        first.len() == first_marks.len(),
        second.len() == second_marks.len(),
    ensures
        marked(first + second, first_marks + second_marks) == marked(first, first_marks) + marked(
            second,
            second_marks,
        ),
        first.len() == 1 && first_marks[0] ==> marked(first, first_marks) == first,
        first.len() == 1 && !first_marks[0] ==> marked(first, first_marks).len() == 0,
    decreases second.len(),
{
    if second.len() == 0 {
        assert(first + second =~= first);
        assert(first_marks + second_marks =~= first_marks);
        assert(marked(first, first_marks) + marked(second, second_marks) =~= marked(
            first,
            first_marks,
        ));
    } else {
        law_marked_in_order(first, second.drop_last(), first_marks, second_marks.drop_last());
        assert((first + second).drop_last() =~= first + second.drop_last());
        assert((first_marks + second_marks).drop_last() =~= first_marks
            + second_marks.drop_last());
        assert(marked(first + second, first_marks + second_marks) =~= marked(first, first_marks)
            + marked(second, second_marks));
    }
    if first.len() == 1 {
        assert(first.drop_last() =~= Seq::<Seq<char>>::empty());
        assert(marked(first.drop_last(), first_marks.drop_last()).len() == 0);
        if first_marks[0] {
            assert(marked(first, first_marks) =~= first);
        }
    }
}

/// Every line of the memory is marked by itself: where it applies to the draft.
pub proof fn law_marks(memory: Seq<char>, raw: Seq<char>)
    ensures
        marks_for(memory, raw).len() == lines(memory).len(),
        forall|i: int|
            0 <= i < lines(memory).len() ==> #[trigger] marks_for(memory, raw)[i] == line_applies(
                lines(memory)[i],
                raw,
            ),
{
}

/// A memory line whose term stands in the draft, whatever is next to it there, stands whole in
/// the memory that applies and in the prompt.
pub proof fn law_applying_line_reaches_the_prompt(
    memory: Seq<char>,
    raw: Seq<char>,
    at: int,
    before: Seq<char>,
    term: Seq<char>,
    between: Seq<char>,
    rest: Seq<char>,
    head: Seq<char>,
    tail: Seq<char>,
)
    requires
        0 <= at < lines(memory).len(),
        lines(memory)[at] == before + term + between + seq!['-', '>'] + rest,
        term.len() > 0 ==> !is_white_space(term[0]) && !is_white_space(term.last()),
        forall|i: int| 0 <= i < before.len() ==> is_white_space(#[trigger] before[i]),
        forall|i: int| 0 <= i < between.len() ==> is_white_space(#[trigger] between[i]),
        forall|i: int|
            0 <= i < term.len() - 1 ==> !(#[trigger] term[i] == '-' && term[i + 1] == '>'),
        lowercase(term).len() > 0,
        lowercase(raw) == head + lowercase(term) + tail,
    ensures
        marked(lines(memory), marks_for(memory, raw)).contains(lines(memory)[at]),
        contains(relevant_memory(memory, raw), lines(memory)[at]),
        contains(prompt_for(raw, relevant_memory(memory, raw)), lines(memory)[at]),
{
    let line = lines(memory)[at];
    let kept = marked(lines(memory), marks_for(memory, raw));
    law_line_applies(before, term, between, rest, raw);
    law_marks(memory, raw);
    law_marked_keeps_the_applying(lines(memory), marks_for(memory, raw));
    assert(marks_for(memory, raw)[at]);
    assert(lines(memory)[at] == line);
    assert(kept.contains(line));
    let k = choose|k: int| 0 <= k < kept.len() && kept[k] == line;
    lemma_join_contains(kept, seq!['\n'], k);
    let relevant = relevant_memory(memory, raw);
    law_prompt_holds_request(raw, relevant);
    law_contains(prompt_for(raw, relevant), relevant);
    let (x, y) = choose|x: Seq<char>, y: Seq<char>|
        prompt_for(raw, relevant) == #[trigger] (x + relevant + y);
    lemma_contains_inside(x, relevant, y, line);
}

/// The memory that applies is given as replacements where there is any; the draft is the last
/// input, and the prompt ends where the model's answer starts.
pub proof fn law_prompt_shape(raw: Seq<char>, relevant: Seq<char>)
    ensures
        exists|head: Seq<char>|
            prompt_for(raw, relevant) == #[trigger] (head + ("INPUT: "@ + raw
                + "\nOUTPUT: {\"converted\":\""@)),
        relevant.len() > 0 ==> contains(
            prompt_for(raw, relevant),
            "\nREPLACE: "@ + relevant + "\n"@,
        ),
        prompt_for(raw, relevant).len() == prompt_for(raw, seq![]).len() + if relevant.len() == 0 {
            0
        } else {
            "\nREPLACE: "@.len() + relevant.len() + "\n"@.len()
        },
{
    let prompt = prompt_for(raw, relevant);
    reveal_strlit("\nINPUT: sumimasen chotto okuremasu\nOUTPUT: {\"converted\":\"すみませんちょっと遅れます\",\"refined\":\"すみません、ちょっと遅れます。\",\"confidence\":0.95}\n\nINPUT: ashita made ni repo wo dasanakya\nOUTPUT: {\"converted\":\"明日までにレポを出さなきゃ\",\"refined\":\"明日までにレポを出さなきゃ。\",\"confidence\":0.9}\n\nINPUT: kyou no kaigi de shiryou wo kakunin shita\nOUTPUT: {\"converted\":\"今日の会議で資料を確認した\",\"refined\":\"今日の会議で資料を確認した。\",\"confidence\":0.95}\n\nINPUT: ");
    reveal_strlit("INPUT: ");
    let examples = prompt_examples();
    let n = examples.len() - 7;
    assert(examples.skip(n) =~= "INPUT: "@);
    assert(examples =~= examples.take(n) + "INPUT: "@);
    let head = prompt_head() + memory_section(relevant) + examples.take(n);
    assert(prompt =~= head + ("INPUT: "@ + raw + prompt_tail()));
    if relevant.len() > 0 {
        let section = "\nREPLACE: "@ + relevant + "\n"@;
        law_contains(prompt, section);
        assert(prompt =~= prompt_head() + section + (examples + raw + prompt_tail()));
    }
    assert(prompt_for(raw, seq![]) =~= prompt_head() + examples + raw + prompt_tail());
}

proof fn lemma_applying_line_is_long(line: Seq<char>, raw: Seq<char>)
    requires
        line_applies(line, raw),
    ensures
        line.len() > 0,
{
    let arrow = seq!['-', '>'];
    law_split_once_needs_separator(line, arrow);
    let (before, after) = choose|before: Seq<char>, after: Seq<char>|
        line == #[trigger] (before + arrow + after);
    assert(line.len() == before.len() + 2 + after.len());
}

/// The memory that applies is made line by line: a line that applies comes first, in full, with a
/// line feed before what follows; a line that does not apply leaves no trace.
pub proof fn law_relevant_line_by_line(line: Seq<char>, rest: Seq<char>, raw: Seq<char>)
    requires
        forall|i: int| 0 <= i < line.len() ==> #[trigger] line[i] != '\n',
        line.len() > 0 ==> line.last() != '\r',
    ensures
        relevant_memory(Seq::<char>::empty(), raw).len() == 0,
        !line_applies(line, raw) ==> relevant_memory(line + seq!['\n'] + rest, raw)
            == relevant_memory(rest, raw),
        line_applies(line, raw) && relevant_memory(rest, raw).len() > 0 ==> relevant_memory(
            line + seq!['\n'] + rest,
            raw,
        ) == line + seq!['\n'] + relevant_memory(rest, raw),
        line_applies(line, raw) && relevant_memory(rest, raw).len() == 0 ==> relevant_memory(
            line + seq!['\n'] + rest,
            raw,
        ) == line,
{
    let memory = line + seq!['\n'] + rest;
    law_lines(line, rest);
    let first = seq![line];
    let first_marks = seq![line_applies(line, raw)];
    let kept = marked(lines(rest), marks_for(rest, raw));
    assert(marks_for(memory, raw) =~= first_marks + marks_for(rest, raw));
    law_marked_in_order(first, lines(rest), first_marks, marks_for(rest, raw));
    let head = marked(first, first_marks);
    assert(marked(lines(memory), marks_for(memory, raw)) == head + kept);
    if !line_applies(line, raw) {
        assert(head + kept =~= kept);
    } else {
        law_join(first, kept, seq!['\n']);
        if kept.len() == 0 {
            assert(head + kept =~= first);
            assert(relevant_memory(rest, raw).len() == 0);
        } else {
            law_marked_keeps_the_applying(lines(rest), marks_for(rest, raw));
            assert(kept.contains(kept[0]));
            let i = choose|i: int|
                0 <= i < lines(rest).len() && marks_for(rest, raw)[i] && #[trigger] lines(rest)[i]
                    == kept[0];
            lemma_applying_line_is_long(lines(rest)[i], raw);
            lemma_join_starts(kept, seq!['\n']);
        }
    }
}

/// A term stands in a text exactly when it is not empty and the text is something, the term, and
/// something: no character next to it counts.
pub proof fn law_term_stands(term: Seq<char>, raw: Seq<char>)
    ensures
        term_stands(term, raw) <==> term.len() > 0 && exists|head: Seq<char>, tail: Seq<char>|
            raw == #[trigger] (head + term + tail),
{
    law_contains(raw, term);
}

/// The memory that applies comes from the lines alone, however they end: those that apply, each in
/// full, with a line feed between one and the next.
pub proof fn law_relevant_by_its_lines(
    memory: Seq<char>,
    other: Seq<char>,
    line: Seq<char>,
    raw: Seq<char>,
)
    requires
        lines(memory) == lines(other) + seq![line],
    ensures
        !line_applies(line, raw) ==> relevant_memory(memory, raw) == relevant_memory(other, raw),
        line_applies(line, raw) && relevant_memory(other, raw).len() > 0 ==> relevant_memory(
            memory,
            raw,
        ) == relevant_memory(other, raw) + seq!['\n'] + line,
        line_applies(line, raw) && (forall|i: int|
            0 <= i < lines(other).len() ==> !line_applies(#[trigger] lines(other)[i], raw))
            ==> relevant_memory(memory, raw) == line,
{
    let last = seq![line];
    let last_marks = seq![line_applies(line, raw)];
    let kept = marked(lines(other), marks_for(other, raw));
    assert(marks_for(memory, raw) =~= marks_for(other, raw) + last_marks);
    law_marked_in_order(lines(other), last, marks_for(other, raw), last_marks);
    law_marked_in_order(last, seq![], last_marks, seq![]);
    let tail = marked(last, last_marks);
    assert(marked(lines(memory), marks_for(memory, raw)) == kept + tail);
    if !line_applies(line, raw) {
        assert(kept + tail =~= kept);
    } else {
        law_join(kept, tail, seq!['\n']);
        law_join(tail, seq![], seq!['\n']);
        if forall|i: int|
            0 <= i < lines(other).len() ==> !line_applies(#[trigger] lines(other)[i], raw) {
            law_marked_keeps_the_applying(lines(other), marks_for(other, raw));
            if kept.len() > 0 {
                assert(kept.contains(kept[0]));
                let i = choose|i: int|
                    0 <= i < lines(other).len() && marks_for(other, raw)[i] && #[trigger] lines(
                        other,
                    )[i] == kept[0];
                assert(!line_applies(lines(other)[i], raw));
            }
            assert(kept + tail =~= tail);
        }
    }
}

} // verus!
