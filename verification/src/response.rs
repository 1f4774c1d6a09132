//! Finding a backend's JSON answer in the text around it.

use crate::protocol::TransformResponse;
use crate::search::{
    find, find_chars, lemma_find, lemma_rfind_char, occurs_at, rfind_char, rfind_chars,
};
use crate::text::{chars_of, slice_of, string_of, trim, trimmed};
use vstd::prelude::*;

verus! {

/// Why a text holds no JSON object.
#[derive(Debug, Clone, Copy, PartialEq, Eq, Structural)]
pub enum ObjectError {
    /// There is no opening brace.
    MissingStart,
    /// There is no closing brace, or none behind the first opening one.
    MissingEnd,
}

/// Whether it is not so that the first opening brace stands behind the last closing one with
/// something between them.
pub open spec fn braces_in_order(s: Seq<char>) -> bool {
    match (find(s, seq!['{']), rfind_char(s, '}')) {
        (Some(start), Some(end)) => start <= end + 1,
        _ => true,
    }
}

/// The text from the first opening brace to the last closing one. It is empty where the closing
/// one stands directly before the opening one, and there is none where it stands further ahead.
pub open spec fn object_in(s: Seq<char>) -> Result<Seq<char>, ObjectError> {
    match find(s, seq!['{']) {
        None => Err(ObjectError::MissingStart),
        Some(start) => match rfind_char(s, '}') {
            None => Err(ObjectError::MissingEnd),
            Some(end) => if start <= end + 1 {
                Ok(s.subrange(start, end + 1))
            } else {
                Err(ObjectError::MissingEnd)
            },
        },
    }
}

/// The places of the first opening and the last closing brace.
fn brace_places(chars: &[char]) -> (places: (Option<usize>, Option<usize>))
    ensures
        match places.0 {
            Some(i) => find(chars@, seq!['{']) == Some(i as int) && i < chars@.len(),
            None => find(chars@, seq!['{']) is None,
        },
        match places.1 {
            Some(i) => rfind_char(chars@, '}') == Some(i as int) && i < chars@.len(),
            None => rfind_char(chars@, '}') is None,
        },
{
    let open: Vec<char> = vec!['{'];
    assert(open@ =~= seq!['{']);
    (find_chars(chars, &open, 0), rfind_chars(chars, '}'))
}

/// The text from the first opening brace to the last closing one.
pub fn object_text(text: &str) -> (object: Result<String, ObjectError>)
    ensures
        !braces_in_order(text@) ==> object == Err::<String, ObjectError>(ObjectError::MissingEnd),
        match object {
            Ok(s) => object_in(text@) == Ok::<Seq<char>, ObjectError>(s@),
            Err(e) => object_in(text@) == Err::<Seq<char>, ObjectError>(e),
        },
{
    let chars = chars_of(text);
    match brace_places(&chars) {
        (None, _) => Err(ObjectError::MissingStart),
        (Some(_), None) => Err(ObjectError::MissingEnd),
        (Some(start), Some(end)) => {
            assert(end < chars.len());
            if start <= end + 1 {
                Ok(string_of(&slice_of(&chars, start, end + 1)))
            } else {
                Err(ObjectError::MissingEnd)
            }
        },
    }
}

/// A text as Rust writes it for debugging.
pub uninterp spec fn debug_text(text: Seq<char>) -> Seq<char>;

/// `format!` with `{:?}` on a `str`: the text in quotes, with what does not print escaped. The
/// result depends on the text alone and is named [`debug_text`].
#[verifier::external_body]
pub(crate) fn debugged(text: &str) -> (debug: String)
    ensures
        debug@ == debug_text(text@),
{
    format!("{:?}", text)
}

/// The words for an answer of the app server that does not decode.
pub open spec fn invalid_codex_json(reason: Seq<char>, text: Seq<char>) -> Seq<char> {
    "invalid codex transform json: "@ + reason + "; text="@ + debug_text(text)
}

fn invalid_codex_message(reason: &str, text: &str) -> (message: String)
    ensures
        message@ == invalid_codex_json(reason@, text@),
{
    let mut message = "invalid codex transform json: ".to_owned();
    message.append(reason);
    message.append("; text=");
    let debug = debugged(text);
    message.append(debug.as_str());
    message
}

/// Takes the answer of the app server from its text. `whole` is what the trimmed text decodes
/// to; `object` is what the object in it decodes to, and counts only where the trimmed text
/// does not decode and holds an object.
pub fn parse_transform_response_text(
    text: &str,
    whole: Result<TransformResponse, String>,
    object: Result<TransformResponse, String>,
) -> (response: Result<TransformResponse, String>)
    ensures
        whole is Ok ==> response == whole,
        whole is Err && !braces_in_order(trim(text@)) ==> response is Err && response->Err_0@
            == invalid_codex_json("missing json object"@, trim(text@)),
        whole is Err ==> match object_in(trim(text@)) {
            Err(_) => response is Err && response->Err_0@ == invalid_codex_json(
                "missing json object"@,
                trim(text@),
            ),
            Ok(_) => match object {
                Ok(_) => response == object,
                Err(reason) => response is Err && response->Err_0@ == invalid_codex_json(
                    reason@,
                    trim(text@),
                ),
            },
        },
{
    match whole {
        Ok(response) => Ok(response),
        Err(_) => {
            let text = trimmed(text);
            match object_text(text.as_str()) {
                Err(_) => Err(invalid_codex_message("missing json object", text.as_str())),
                Ok(_) => match object {
                    Ok(response) => Ok(response),
                    Err(reason) => Err(invalid_codex_message(reason.as_str(), text.as_str())),
                },
            }
        },
    }
}

/// An object that is found starts with the first opening brace of the text and ends with the
/// last closing one. None is found exactly where there is no opening brace, or no closing one
/// from a place directly before the first opening brace on.
pub proof fn law_object_spans_the_braces(s: Seq<char>)
    ensures
        match object_in(s) {
            Ok(object) => object.len() > 0 ==> object[0] == '{' && object.last() == '}' && exists|
                start: int,
                end: int,
            |
                {
                    &&& 0 <= start < end <= s.len()
                    &&& object == #[trigger] s.subrange(start, end)
                    &&& forall|i: int| 0 <= i < start ==> #[trigger] s[i] != '{'
                    &&& forall|i: int| end <= i < s.len() ==> #[trigger] s[i] != '}'
                },
            Err(ObjectError::MissingStart) => forall|i: int|
                0 <= i < s.len() ==> #[trigger] s[i] != '{',
            Err(ObjectError::MissingEnd) => exists|start: int|
                {
                    &&& 0 <= start < s.len()
                    &&& #[trigger] s[start] == '{'
                    &&& forall|i: int| 0 <= i < start ==> #[trigger] s[i] != '{'
                    &&& forall|i: int| start - 1 <= i < s.len() && 0 <= i ==> #[trigger] s[i] != '}'
                },
        },
{
    lemma_rfind_char(s, '}');
    lemma_first_char(s, '{');
    match (find(s, seq!['{']), rfind_char(s, '}')) {
        (Some(start), Some(end)) => {
            let object = s.subrange(start, end + 1);
            if start <= end + 1 && object.len() > 0 {
                assert(object[0] == s[start]);
                assert(object.last() == s[end]);
            }
        },
        (Some(start), None) => {
            assert(s[start] == '{');
        },
        _ => {},
    }
}

/// An object is found whatever stands around it, as long as there is no opening brace before it
/// and no closing brace behind it.
pub proof fn law_wrapped_object_is_found(before: Seq<char>, object: Seq<char>, after: Seq<char>)
    requires
        object.len() > 1,
        object[0] == '{',
        object.last() == '}',
        forall|i: int| 0 <= i < before.len() ==> #[trigger] before[i] != '{',
        forall|i: int| 0 <= i < after.len() ==> #[trigger] after[i] != '}',
    ensures
        braces_in_order(before + object + after),
        object_in(before + object + after) == Ok::<_, ObjectError>(object),
{
    let s = before + object + after;
    let start = before.len() as int;
    let end = start + object.len() - 1;
    lemma_first_char(s, '{');
    lemma_rfind_char(s, '}');
    assert(s[start] == object[0]);
    assert(s[end] == object.last());
    let first = find(s, seq!['{'])->0;
    let last = rfind_char(s, '}')->0;
    if first < start {
        assert(s[first] == before[first]);
    }
    if last > end {
        assert(s[last] == after[last - end - 1]);
    }
    assert(s.subrange(start, end + 1) =~= object);
}

proof fn lemma_first_char(s: Seq<char>, c: char)
    ensures
        match find(s, seq![c]) {
            Some(i) => 0 <= i < s.len() && s[i] == c && forall|j: int|
                0 <= j < i ==> #[trigger] s[j] != c,
            None => forall|j: int| 0 <= j < s.len() ==> #[trigger] s[j] != c,
        },
{
    lemma_find(s, seq![c]);
    let bound = match find(s, seq![c]) {
        Some(i) => {
            assert(s.subrange(i, i + 1)[0] == s[i]);
            i
        },
        None => s.len() as int,
    };
    assert forall|j: int| 0 <= j < bound implies #[trigger] s[j] != c by {
        if s[j] == c {
            assert(s.subrange(j, j + 1) =~= seq![c]);
            assert(occurs_at(s, seq![c], j));
        }
    }
}

/// What is said of an answer that does not decode gives the reason and the text in full.
pub proof fn law_failure_gives_its_reason(reason: Seq<char>, text: Seq<char>)
    ensures
        invalid_codex_json(reason, text) == "invalid codex transform json: "@ + reason + "; text="@
            + debug_text(text),
{
}

} // verus!
