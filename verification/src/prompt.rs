//! What the prompts of the instructed models have in common, and the shape of their answer.

use crate::json::{
    array, json_array, json_member, json_object, json_string, lemma_member_contains,
    lemma_object_contains, member, object, optional_text, quoted, text_member,
};
use crate::protocol::TransformRequest;
use crate::search::{contains, lemma_contains_through, lemma_find, occurs_at};
use crate::text::{blank, is_blank, is_white_space, texts};
use vstd::prelude::*;

verus! {

/// The part of a prompt that gives the kana candidate; nothing where there is none or it is
/// blank.
pub open spec fn kana_section(kana_candidate: Option<Seq<char>>) -> Seq<char> {
    match kana_candidate {
        Some(kana) => if is_blank(kana) {
            seq![]
        } else {
            "\nKana candidate:\n"@ + kana + "\n"@
        },
        None => seq![],
    }
}

/// The part of a prompt that gives the draft, its kana candidate and the memory.
pub open spec fn draft_section(
    raw: Seq<char>,
    kana_candidate: Option<Seq<char>>,
    memory: Seq<char>,
) -> Seq<char> {
    raw + "\n"@ + kana_section(kana_candidate) + "\n\nMemory:\n"@ + memory + "\n"@
}

/// Appends the draft, its kana candidate and the memory to a prompt.
pub(crate) fn append_draft(prompt: &mut String, request: &TransformRequest)
    ensures
        final(prompt)@ == old(prompt)@ + draft_section(
            request.raw@,
            optional_text(request.kana_candidate),
            request.memory@,
        ),
{
    let ghost head = prompt@;
    prompt.append(request.raw.as_str());
    prompt.append("\n");
    if let Some(kana) = &request.kana_candidate {
        if !blank(kana.as_str()) {
            prompt.append("\nKana candidate:\n");
            prompt.append(kana.as_str());
            prompt.append("\n");
        }
    }
    assert(prompt@ =~= head + request.raw@ + "\n"@ + kana_section(
        optional_text(request.kana_candidate),
    ));
    prompt.append("\n\nMemory:\n");
    prompt.append(request.memory.as_str());
    prompt.append("\n");
    assert(prompt@ =~= head + draft_section(
        request.raw@,
        optional_text(request.kana_candidate),
        request.memory@,
    ));
}

/// The draft, a kana candidate that is not blank, and the memory stand in the section word for
/// word.
pub proof fn law_draft_section_holds_request(
    raw: Seq<char>,
    kana_candidate: Option<Seq<char>>,
    memory: Seq<char>,
)
    ensures
        contains(draft_section(raw, kana_candidate, memory), raw),
        contains(draft_section(raw, kana_candidate, memory), memory),
        kana_candidate matches Some(kana) ==> !is_blank(kana) ==> contains(
            draft_section(raw, kana_candidate, memory),
            kana,
        ),
{
    let s = draft_section(raw, kana_candidate, memory);
    lemma_find(s, raw);
    assert(s.subrange(0, raw.len() as int) =~= raw);
    assert(occurs_at(s, raw, 0));
    let at = (raw + "\n"@ + kana_section(kana_candidate) + "\n\nMemory:\n"@).len() as int;
    lemma_find(s, memory);
    assert(s.subrange(at, at + memory.len()) =~= memory);
    assert(occurs_at(s, memory, at));
    if let Some(kana) = kana_candidate {
        if !is_blank(kana) {
            let at = (raw + "\n"@ + "\nKana candidate:\n"@).len() as int;
            lemma_find(s, kana);
            assert(s.subrange(at, at + kana.len()) =~= kana);
            assert(occurs_at(s, kana, at));
        }
    }
}

/// The JSON schema of a field that is a string.
pub open spec fn string_schema() -> Seq<char> {
    json_object(seq![json_member("type"@, json_string("string"@))])
}

/// The JSON schema of the confidence: a number from 0 to 1.
pub open spec fn confidence_schema() -> Seq<char> {
    json_object(
        seq![
            json_member("maximum"@, "1.0"@),
            json_member("minimum"@, "0.0"@),
            json_member("type"@, json_string("number"@)),
        ],
    )
}

/// The JSON schema of an answer: an object with exactly the fields `converted`, `refined` and
/// `confidence`.
pub open spec fn response_schema() -> Seq<char> {
    json_object(
        seq![
            json_member("additionalProperties"@, "false"@),
            json_member(
                "properties"@,
                json_object(
                    seq![
                        json_member("confidence"@, confidence_schema()),
                        json_member("converted"@, string_schema()),
                        json_member("refined"@, string_schema()),
                    ],
                ),
            ),
            json_member(
                "required"@,
                json_array(
                    seq![
                        json_string("converted"@),
                        json_string("refined"@),
                        json_string("confidence"@),
                    ],
                ),
            ),
            json_member("type"@, json_string("object"@)),
        ],
    )
}

/// The JSON schema of an answer, as compact JSON text.
pub fn transform_response_schema() -> (schema: String)
    ensures
        schema@ == response_schema(),
{
    let text: Vec<String> = vec![text_member("type", "string")];
    assert(texts(text@) =~= seq![json_member("type"@, json_string("string"@))]);
    let text = object(&text);
    let number: Vec<String> = vec![
        member("maximum", "1.0"),
        member("minimum", "0.0"),
        text_member("type", "number"),
    ];
    assert(texts(number@) =~= seq![
        json_member("maximum"@, "1.0"@),
        json_member("minimum"@, "0.0"@),
        json_member("type"@, json_string("number"@)),
    ]);
    let number = object(&number);
    let properties: Vec<String> = vec![
        member("confidence", number.as_str()),
        member("converted", text.as_str()),
        member("refined", text.as_str()),
    ];
    assert(texts(properties@) =~= seq![
        json_member("confidence"@, confidence_schema()),
        json_member("converted"@, string_schema()),
        json_member("refined"@, string_schema()),
    ]);
    let properties = object(&properties);
    let required: Vec<String> = vec![quoted("converted"), quoted("refined"), quoted("confidence")];
    assert(texts(required@) =~= seq![
        json_string("converted"@),
        json_string("refined"@),
        json_string("confidence"@),
    ]);
    let required = array(&required);
    let schema: Vec<String> = vec![
        member("additionalProperties", "false"),
        member("properties", properties.as_str()),
        member("required", required.as_str()),
        text_member("type", "object"),
    ];
    assert(texts(schema@) =~= seq![
        json_member("additionalProperties"@, "false"@),
        json_member("properties"@, properties@),
        json_member("required"@, required@),
        json_member("type"@, json_string("object"@)),
    ]);
    object(&schema)
}

/// The section is the draft on a line of its own, the kana candidate under its heading, and the
/// memory under its own, each word for word; a candidate that is white space alone leaves no
/// trace.
pub proof fn law_draft_section_layout(raw: Seq<char>, kana: Seq<char>, memory: Seq<char>)
    ensures
        draft_section(raw, None, memory) == raw + "\n"@ + "\n\nMemory:\n"@ + memory + "\n"@,
        (forall|i: int| 0 <= i < kana.len() ==> is_white_space(#[trigger] kana[i]))
            ==> draft_section(raw, Some(kana), memory) == draft_section(raw, None, memory),
        (exists|i: int| 0 <= i < kana.len() && !is_white_space(#[trigger] kana[i]))
            ==> draft_section(raw, Some(kana), memory) == raw + "\n"@ + "\nKana candidate:\n"@
            + kana + "\n"@ + "\n\nMemory:\n"@ + memory + "\n"@,
{
}

/// The schema lets an answer have its three fields, asks for all of them, and allows no others;
/// the texts are strings and the confidence is a number with both its limits.
pub proof fn law_schema_describes_the_answer()
    ensures
        contains(response_schema(), json_member("additionalProperties"@, "false"@)),
        contains(
            response_schema(),
            json_member(
                "required"@,
                json_array(
                    seq![
                        json_string("converted"@),
                        json_string("refined"@),
                        json_string("confidence"@),
                    ],
                ),
            ),
        ),
        contains(
            response_schema(),
            json_member(
                "converted"@,
                json_object(seq![json_member("type"@, json_string("string"@))]),
            ),
        ),
        contains(
            response_schema(),
            json_member(
                "refined"@,
                json_object(seq![json_member("type"@, json_string("string"@))]),
            ),
        ),
        contains(confidence_schema(), json_member("maximum"@, "1.0"@)),
        contains(confidence_schema(), json_member("minimum"@, "0.0"@)),
        contains(confidence_schema(), json_member("type"@, json_string("number"@))),
        contains(response_schema(), json_member("confidence"@, confidence_schema())),
{
    let limits = seq![
        json_member("maximum"@, "1.0"@),
        json_member("minimum"@, "0.0"@),
        json_member("type"@, json_string("number"@)),
    ];
    let properties = seq![
        json_member("confidence"@, confidence_schema()),
        json_member("converted"@, string_schema()),
        json_member("refined"@, string_schema()),
    ];
    let required = seq![
        json_string("converted"@),
        json_string("refined"@),
        json_string("confidence"@),
    ];
    let schema = seq![
        json_member("additionalProperties"@, "false"@),
        json_member("properties"@, json_object(properties)),
        json_member("required"@, json_array(required)),
        json_member("type"@, json_string("object"@)),
    ];
    lemma_object_contains(limits, 0);
    lemma_object_contains(limits, 1);
    lemma_object_contains(limits, 2);
    lemma_object_contains(schema, 0);
    lemma_object_contains(schema, 1);
    lemma_object_contains(schema, 2);
    assert forall|i: int| 0 <= i < 3 implies contains(
        json_object(schema),
        #[trigger] properties[i],
    ) by {
        lemma_object_contains(properties, i);
        lemma_member_contains("properties"@, json_object(properties), properties[i]);
        lemma_contains_through(json_object(schema), schema[1], properties[i]);
    }
    assert(contains(json_object(schema), properties[0]));
    assert(contains(json_object(schema), properties[1]));
    assert(contains(json_object(schema), properties[2]));
}

} // verus!
