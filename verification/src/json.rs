//! JSON text: writing compact values, and looking values up in a document.

use crate::search::{
    contains, join, join_texts, law_join, lemma_contains_inside, lemma_join_contains,
};
use crate::text::texts;
use vstd::prelude::*;

verus! {

/// The hexadecimal digit for a value below 16.
pub open spec fn hex_digit(n: int) -> char {
    if n < 10 {
        ('0' as int + n) as char
    } else {
        ('a' as int + n - 10) as char
    }
}

/// How a character stands inside a JSON string.
pub open spec fn json_escape(c: char) -> Seq<char> {
    if c == '"' {
        seq!['\\', '"']
    } else if c == '\\' {
        seq!['\\', '\\']
    } else if c == '\u{8}' {
        seq!['\\', 'b']
    } else if c == '\t' {
        seq!['\\', 't']
    } else if c == '\n' {
        seq!['\\', 'n']
    } else if c == '\u{c}' {
        seq!['\\', 'f']
    } else if c == '\r' {
        seq!['\\', 'r']
    } else if (c as int) < 0x20 {
        seq!['\\', 'u', '0', '0', hex_digit(c as int / 16), hex_digit(c as int % 16)]
    } else {
        seq![c]
    }
}

/// The characters of a text as they stand inside a JSON string.
pub open spec fn json_escaped(text: Seq<char>) -> Seq<char>
    decreases text.len(),
{
    if text.len() == 0 {
        seq![]
    } else {
        json_escaped(text.drop_last()) + json_escape(text.last())
    }
}

/// A text as a JSON string.
pub open spec fn json_string(text: Seq<char>) -> Seq<char> {
    seq!['"'] + json_escaped(text) + seq!['"']
}

/// A member of a JSON object: its name and the JSON text of its value.
pub open spec fn json_member(name: Seq<char>, value: Seq<char>) -> Seq<char> {
    json_string(name) + seq![':'] + value
}

/// A JSON object with the given members.
pub open spec fn json_object(members: Seq<Seq<char>>) -> Seq<char> {
    seq!['{'] + join(members, seq![',']) + seq!['}']
}

/// A JSON array with the given items.
pub open spec fn json_array(items: Seq<Seq<char>>) -> Seq<char> {
    seq!['['] + join(items, seq![',']) + seq![']']
}

/// The `Display` of `serde_json::Value::String`: the text in quotes, with quotes, backslashes
/// and control characters escaped and everything else as it is.
#[verifier::external_body]
pub(crate) fn quoted(text: &str) -> (json: String)
    ensures
        json@ == json_string(text@),
{
    serde_json::Value::String(text.to_owned()).to_string()
}

/// A member of an object, from its name and the JSON text of its value.
pub fn member(name: &str, value: &str) -> (json: String)
    ensures
        json@ == json_member(name@, value@),
{
    let mut json = quoted(name);
    json.push(':');
    json.append(value);
    assert(json@ =~= json_member(name@, value@));
    json
}

/// A member of an object whose value is a string.
pub fn text_member(name: &str, value: &str) -> (json: String)
    ensures
        json@ == json_member(name@, json_string(value@)),
{
    let value = quoted(value);
    member(name, value.as_str())
}

fn bracketed(open: char, parts: &[String], close: char) -> (json: String)
    ensures
        json@ == seq![open] + join(texts(parts@), seq![',']) + seq![close],
{
    let mut json = String::new();
    json.push(open);
    let inner = join_texts(parts, ",");
    proof {
        reveal_strlit(",");
        assert(","@ =~= seq![',']);
    }
    json.append(inner.as_str());
    json.push(close);
    assert(json@ =~= seq![open] + join(texts(parts@), seq![',']) + seq![close]);
    json
}

/// An object with the given members.
pub fn object(members: &[String]) -> (json: String)
    ensures
        json@ == json_object(texts(members@)),
{
    bracketed('{', members, '}')
}

/// An array with the given items.
pub fn array(items: &[String]) -> (json: String)
    ensures
        json@ == json_array(texts(items@)),
{
    bracketed('[', items, ']')
}

/// A text is escaped character by character, from its first one on.
pub proof fn lemma_escaped_first(text: Seq<char>)
    requires
        text.len() > 0,
    ensures
        json_escaped(text) == json_escape(text[0]) + json_escaped(text.skip(1)),
    decreases text.len(),
{
    if text.len() == 1 {
        assert(text.drop_last() =~= Seq::<char>::empty());
        assert(text.skip(1) =~= Seq::<char>::empty());
        assert(json_escaped(text) =~= json_escape(text[0]) + json_escaped(text.skip(1)));
    } else {
        lemma_escaped_first(text.drop_last());
        assert(text.drop_last().skip(1) =~= text.skip(1).drop_last());
        assert(json_escaped(text) =~= json_escape(text[0]) + json_escaped(text.skip(1)));
    }
}

/// Whether a text stays within one line.
pub open spec fn is_one_line(s: Seq<char>) -> bool {
    forall|i: int| 0 <= i < s.len() ==> #[trigger] s[i] != '\n'
}

proof fn lemma_escape_one_line(c: char)
    ensures
        is_one_line(json_escape(c)),
{
    let n = c as int;
    if n < 0x20 {
        assert(n / 16 == 0 || n / 16 == 1);
        assert(hex_digit(n / 16) != '\n');
        assert(hex_digit(n % 16) != '\n');
    }
}

proof fn lemma_escaped_one_line(text: Seq<char>)
    ensures
        is_one_line(json_escaped(text)),
    decreases text.len(),
{
    if text.len() > 0 {
        lemma_escaped_one_line(text.drop_last());
        lemma_escape_one_line(text.last());
    }
}

/// A JSON string stays within one line, whatever its text.
pub proof fn lemma_string_one_line(text: Seq<char>)
    ensures
        is_one_line(json_string(text)),
{
    lemma_escaped_one_line(text);
}

/// A member stays within one line if its value does.
pub proof fn lemma_member_one_line(name: Seq<char>, value: Seq<char>)
    requires
        is_one_line(value),
    ensures
        is_one_line(json_member(name, value)),
{
    lemma_string_one_line(name);
}

proof fn lemma_join_one_line(parts: Seq<Seq<char>>)
    requires
        forall|i: int| 0 <= i < parts.len() ==> is_one_line(#[trigger] parts[i]),
    ensures
        is_one_line(join(parts, seq![','])),
    decreases parts.len(),
{
    if parts.len() > 1 {
        let front = parts.drop_last();
        assert forall|i: int| 0 <= i < front.len() implies is_one_line(#[trigger] front[i]) by {
            assert(front[i] == parts[i]);
        }
        lemma_join_one_line(front);
        assert(is_one_line(parts[parts.len() - 1]));
    } else if parts.len() == 1 {
        assert(is_one_line(parts[0]));
    }
}

/// Objects and arrays stay within one line if their parts do.
pub proof fn lemma_parts_one_line(parts: Seq<Seq<char>>)
    requires
        forall|i: int| 0 <= i < parts.len() ==> is_one_line(#[trigger] parts[i]),
    ensures
        is_one_line(json_object(parts)),
        is_one_line(json_array(parts)),
{
    lemma_join_one_line(parts);
}

/// A value found in a document: its compact JSON text, its text where it is a string, and its
/// number where it is a non-negative integer.
#[derive(Debug, Clone, PartialEq, Eq)]
pub struct JsonValue {
    pub text: String,
    pub string: Option<String>,
    pub unsigned: Option<u64>,
}

/// What a [`JsonValue`] holds.
pub struct JsonValueView {
    pub text: Seq<char>,
    pub string: Option<Seq<char>>,
    pub unsigned: Option<u64>,
}

/// The text of an optional string.
pub open spec fn optional_text(s: Option<String>) -> Option<Seq<char>> {
    match s {
        Some(s) => Some(s@),
        None => None,
    }
}

impl View for JsonValue {
    type V = JsonValueView;

    open spec fn view(&self) -> JsonValueView {
        JsonValueView {
            text: self.text@,
            string: optional_text(self.string),
            unsigned: self.unsigned,
        }
    }
}

/// What an optional [`JsonValue`] holds.
pub open spec fn optional_value(v: Option<JsonValue>) -> Option<JsonValueView> {
    match v {
        Some(v) => Some(v@),
        None => None,
    }
}

/// `serde_json::Value`: a JSON document.
#[verifier::external_type_specification]
#[verifier::external_body]
pub struct ExValue(serde_json::Value);

/// The values in a document, each under the JSON pointers that find it.
pub uninterp spec fn values_in(document: serde_json::Value) -> Map<Seq<char>, JsonValueView>;

/// The values in the document that a text is, or why the text is no JSON document.
pub uninterp spec fn json_values(text: Seq<char>) -> Result<
    Map<Seq<char>, JsonValueView>,
    Seq<char>,
>;

/// Why a text is not a JSON document, or nothing where it is one.
pub open spec fn json_error(text: Seq<char>) -> Option<Seq<char>> {
    match json_values(text) {
        Ok(_) => None,
        Err(error) => Some(error),
    }
}

/// The value that a JSON pointer finds in the document that a text is.
pub open spec fn json_at(text: Seq<char>, pointer: Seq<char>) -> Option<JsonValueView> {
    match json_values(text) {
        Ok(values) => if values.contains_key(pointer) {
            Some(values[pointer])
        } else {
            None
        },
        Err(_) => None,
    }
}

/// `serde_json::from_str` into a `Value`, with its error as text. What it reads from a text is
/// named [`json_values`].
#[verifier::external_body]
fn parse_document(text: &str) -> (document: Result<serde_json::Value, String>)
    ensures
        match document {
            Ok(document) => json_values(text@) == Ok::<_, Seq<char>>(values_in(document)),
            Err(error) => json_values(text@) == Err::<Map<Seq<char>, JsonValueView>, _>(error@),
        },
{
    serde_json::from_str(text).map_err(|e| e.to_string())
}

/// `serde_json::Value::pointer`, with the compact `Display`, `as_str` and `as_u64` of the value
/// that it finds. What a pointer finds in a document is named [`values_in`]. The compact text of
/// a value stays within one line.
#[verifier::external_body]
fn value_at(document: &serde_json::Value, pointer: &str) -> (found: Option<JsonValue>)
    ensures
        found is Some <==> values_in(*document).contains_key(pointer@),
        found matches Some(value) ==> value@ == values_in(*document)[pointer@] && is_one_line(
            value.text@,
        ),
{
    document.pointer(pointer).map(|value| JsonValue {
        text: value.to_string(),
        string: value.as_str().map(str::to_owned),
        unsigned: value.as_u64(),
    })
}

/// Looks up values in the document that a text is.
pub fn look_up(text: &str, pointers: &[&str]) -> (found: Result<Vec<Option<JsonValue>>, String>)
    ensures
        match found {
            Ok(values) => {
                &&& json_error(text@) is None
                &&& values@.len() == pointers@.len()
                &&& forall|i: int|
                    0 <= i < values@.len() ==> optional_value(#[trigger] values@[i]) == json_at(
                        text@,
                        pointers@[i]@,
                    ) && (values@[i] is Some ==> is_one_line(values@[i]->0.text@))
            },
            Err(error) => json_error(text@) == Some(error@),
        },
{
    let document = match parse_document(text) {
        Ok(document) => document,
        Err(error) => {
            return Err(error);
        },
    };
    let mut values: Vec<Option<JsonValue>> = Vec::new();
    let mut i: usize = 0;
    while i < pointers.len()
        invariant
            0 <= i <= pointers@.len(),
            json_values(text@) == Ok::<_, Seq<char>>(values_in(document)),
            values@.len() == i,
            forall|j: int|
                0 <= j < i ==> optional_value(#[trigger] values@[j]) == json_at(
                    text@,
                    pointers@[j]@,
                ) && (values@[j] is Some ==> is_one_line(values@[j]->0.text@)),
        decreases pointers@.len() - i,
    {
        values.push(value_at(&document, pointers[i]));
        i += 1;
    }
    Ok(values)
}

/// A text of printable characters, without quotes and backslashes, is quoted as it stands.
pub proof fn law_plain_text_is_quoted(text: Seq<char>)
    requires
        forall|i: int|
            0 <= i < text.len() ==> (#[trigger] text[i]) as int >= 0x20 && text[i] != '"' && text[i]
                != '\\',
    ensures
        json_string(text) == seq!['"'] + text + seq!['"'],
{
    lemma_plain_escaped(text);
}

proof fn lemma_plain_escaped(text: Seq<char>)
    requires
        forall|i: int|
            0 <= i < text.len() ==> (#[trigger] text[i]) as int >= 0x20 && text[i] != '"' && text[i]
                != '\\',
    ensures
        json_escaped(text) == text,
    decreases text.len(),
{
    if text.len() > 0 {
        let front = text.drop_last();
        assert forall|i: int| 0 <= i < front.len() implies (#[trigger] front[i]) as int >= 0x20
            && front[i] != '"' && front[i] != '\\' by {
            assert(front[i] == text[i]);
        }
        lemma_plain_escaped(front);
        let c = text[text.len() - 1];
        assert(c as int >= 0x20 && c != '"' && c != '\\');
        assert(json_escape(c) == seq![c]);
        assert(json_escaped(text) =~= text);
    }
}

/// Escaping goes character by character: nothing is lost, added or moved where texts meet.
pub proof fn law_escaped_piece_by_piece(first: Seq<char>, second: Seq<char>)
    ensures
        json_escaped(first + second) == json_escaped(first) + json_escaped(second),
    decreases second.len(),
{
    let all = first + second;
    if second.len() == 0 {
        assert(all =~= first);
        assert(json_escaped(first) + json_escaped(second) =~= json_escaped(first));
    } else {
        law_escaped_piece_by_piece(first, second.drop_last());
        assert(all.drop_last() =~= first + second.drop_last());
        assert(all.last() == second.last());
        assert(json_escaped(all) =~= json_escaped(first) + json_escaped(second));
    }
}

/// Objects and arrays hold their parts in full and in order, with commas between them.
pub proof fn law_brackets(
    first: Seq<Seq<char>>,
    second: Seq<Seq<char>>,
    name: Seq<char>,
    value: Seq<char>,
)
    ensures
        first.len() == 1 ==> json_object(first) == seq!['{'] + first[0] + seq!['}'],
        first.len() == 1 ==> json_array(first) == seq!['['] + first[0] + seq![']'],
        first.len() > 0 && second.len() > 0 ==> json_object(first + second) == seq!['{'] + join(
            first,
            seq![','],
        ) + seq![','] + join(second, seq![',']) + seq!['}'],
        first.len() > 0 && second.len() > 0 ==> json_array(first + second) == seq!['['] + join(
            first,
            seq![','],
        ) + seq![','] + join(second, seq![',']) + seq![']'],
        json_member(name, value) == json_string(name) + seq![':'] + value,
{
    law_join(first, second, seq![',']);
    if first.len() > 0 && second.len() > 0 {
        assert(json_object(first + second) =~= seq!['{'] + join(first, seq![',']) + seq![',']
            + join(second, seq![',']) + seq!['}']);
        assert(json_array(first + second) =~= seq!['['] + join(first, seq![',']) + seq![',']
            + join(second, seq![',']) + seq![']']);
    }
}

/// A string literal of plain characters as the name of a member.
pub proof fn lemma_plain_member(name: Seq<char>, value: Seq<char>)
    requires
        forall|i: int|
            0 <= i < name.len() ==> (#[trigger] name[i]) as int >= 0x20 && name[i] != '"' && name[i]
                != '\\',
    ensures
        json_member(name, value) == seq!['"'] + name + seq!['"', ':'] + value,
{
    law_plain_text_is_quoted(name);
    assert(json_member(name, value) =~= seq!['"'] + name + seq!['"', ':'] + value);
}

/// A control character is escaped by its own letter where it has one, and else by its number in
/// four hexadecimal digits.
pub proof fn law_control_character_is_escaped(c: char)
    requires
        (c as int) < 0x20,
    ensures
        c == '\n' ==> json_escaped(seq![c]) == seq!['\\', 'n'],
        c == '\r' ==> json_escaped(seq![c]) == seq!['\\', 'r'],
        c == '\t' ==> json_escaped(seq![c]) == seq!['\\', 't'],
        c as int == 0x8 ==> json_escaped(seq![c]) == seq!['\\', 'b'],
        c as int == 0xc ==> json_escaped(seq![c]) == seq!['\\', 'f'],
        c != '\n' && c != '\r' && c != '\t' && c as int != 0x8 && c as int != 0xc ==> {
            let escape = json_escaped(seq![c]);
            &&& escape.len() == 6
            &&& escape.take(4) == seq!['\\', 'u', '0', '0']
            &&& escape[4] as int == '0' as int + c as int / 16
            &&& escape[5] as int == if c as int % 16 < 10 {
                '0' as int + c as int % 16
            } else {
                'a' as int + c as int % 16 - 10
            }
        },
{
    reveal_with_fuel(json_escaped, 2);
    assert(seq![c].drop_last() =~= Seq::<char>::empty());
    assert(json_escaped(seq![c]) =~= json_escape(c));
}

/// Each member stands in the object.
pub proof fn lemma_object_contains(members: Seq<Seq<char>>, i: int)
    requires
        0 <= i < members.len(),
    ensures
        contains(json_object(members), members[i]),
{
    lemma_join_contains(members, seq![','], i);
    lemma_contains_inside(seq!['{'], join(members, seq![',']), seq!['}'], members[i]);
}

/// What stands in a value stands in the member.
pub proof fn lemma_member_contains(name: Seq<char>, value: Seq<char>, pattern: Seq<char>)
    requires
        contains(value, pattern),
    ensures
        contains(json_member(name, value), pattern),
{
    let head = json_string(name) + seq![':'];
    lemma_contains_inside(head, value, seq![], pattern);
    assert(head + value + Seq::<char>::empty() =~= json_member(name, value));
}

} // verus!
