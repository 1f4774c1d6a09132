//! The sidecar that converts drafts with Apple's on-device language model: its arguments, its
//! prompt, and what it makes of the model's output.

use crate::json::optional_text;
use crate::number::{float_literal, is_float_literal, parse_unsigned, read_unsigned};
use crate::options::{required_value, OptionsError, OptionsErrorView};
use crate::prompt::{append_draft, draft_section, response_schema, transform_response_schema};
use crate::protocol::{TransformRequest, TransformResponse};
use crate::response::{braces_in_order, object_in, object_text, ObjectError};
use crate::text::{same_text, texts, trim, trimmed};
use vstd::prelude::*;

verus! {

/// How the sidecar runs its model. The temperature is the literal of a floating-point number.
#[derive(Debug, Clone, PartialEq, Eq)]
pub struct SidecarOptions {
    pub max_tokens: u32,
    pub temperature: String,
}

/// What arguments ask for.
#[derive(Debug, Clone, PartialEq, Eq)]
pub enum Invocation {
    Help,
    Run(SidecarOptions),
}

/// What [`SidecarOptions`] hold.
pub struct OptionsView {
    pub max_tokens: int,
    pub temperature: Seq<char>,
}

impl View for SidecarOptions {
    type V = OptionsView;

    open spec fn view(&self) -> OptionsView {
        OptionsView { max_tokens: self.max_tokens as int, temperature: self.temperature@ }
    }
}

/// Reads arguments from left to right. The first argument that is wrong or asks for help ends
/// the reading; help gives no options.
pub open spec fn read_options(args: Seq<Seq<char>>, options: OptionsView) -> Result<
    Option<OptionsView>,
    OptionsErrorView,
>
    decreases args.len(),
{
    if args.len() == 0 {
        Ok(Some(options))
    } else if args[0] == "--max-tokens"@ {
        if args.len() == 1 {
            Err(OptionsErrorView::MissingValue(args[0]))
        } else {
            match read_unsigned(args[1], u32::MAX as int) {
                Ok(n) => read_options(args.skip(2), OptionsView { max_tokens: n, ..options }),
                Err(e) => Err(OptionsErrorView::InvalidNumber(args[0], e)),
            }
        }
    } else if args[0] == "--temperature"@ {
        if args.len() == 1 {
            Err(OptionsErrorView::MissingValue(args[0]))
        } else if is_float_literal(args[1]) {
            read_options(args.skip(2), OptionsView { temperature: args[1], ..options })
        } else {
            Err(OptionsErrorView::InvalidFloat(args[0], args[1]))
        }
    } else if args[0] == "--help"@ || args[0] == "-h"@ {
        Ok(None)
    } else {
        Err(OptionsErrorView::Unknown(args[0]))
    }
}

/// What arguments ask for. The number of tokens is not zero.
pub open spec fn invocation_of(args: Seq<Seq<char>>) -> Result<
    Option<OptionsView>,
    OptionsErrorView,
> {
    match read_options(args, OptionsView { max_tokens: 256, temperature: "0.1"@ }) {
        Ok(Some(options)) => if options.max_tokens == 0 {
            Err(OptionsErrorView::ZeroMaxTokens)
        } else {
            Ok(Some(options))
        },
        other => other,
    }
}

impl SidecarOptions {
    /// Reads the arguments of the sidecar, without the program's name.
    pub fn parse(args: &[String]) -> (invocation: Result<Invocation, OptionsError>)
        ensures
            match invocation {
                Ok(Invocation::Run(options)) => invocation_of(texts(args@)) == Ok::<
                    Option<OptionsView>,
                    OptionsErrorView,
                >(Some(options@)),
                Ok(Invocation::Help) => invocation_of(texts(args@)) == Ok::<
                    Option<OptionsView>,
                    OptionsErrorView,
                >(None),
                Err(e) => invocation_of(texts(args@)) == Err::<
                    Option<OptionsView>,
                    OptionsErrorView,
                >(e@),
            },
    {
        let mut options = SidecarOptions { max_tokens: 256, temperature: "0.1".to_owned() };
        let ghost views = texts(args@);
        let ghost start = options@;
        let mut at: usize = 0;
        assert(views.skip(0) == views);
        while at < args.len()
            invariant
                at <= args@.len(),
                views == texts(args@),
                start == (OptionsView { max_tokens: 256, temperature: "0.1"@ }),
                read_options(views, start) == read_options(views.skip(at as int), options@),
            decreases args@.len() - at,
        {
            let ghost rest = views.skip(at as int);
            let arg = args[at].as_str();
            assert(rest[0] == arg@);
            if same_text(arg, "--max-tokens") || same_text(arg, "--temperature") {
                let value = match required_value(args, at) {
                    Ok(value) => value,
                    Err(e) => {
                        return Err(e);
                    },
                };
                assert(rest[1] == value@);
                assert(rest.skip(2) == views.skip(at + 2));
                if same_text(arg, "--max-tokens") {
                    match parse_unsigned(value.as_str(), 0xffff_ffff) {
                        Ok(n) => {
                            options.max_tokens = n as u32;
                        },
                        Err(e) => {
                            return Err(OptionsError::InvalidNumber(arg.to_owned(), e));
                        },
                    }
                } else if float_literal(value.as_str()) {
                    options.temperature = value;
                } else {
                    return Err(OptionsError::InvalidFloat(arg.to_owned(), value));
                }
                at += 2;
            } else if same_text(arg, "--help") || same_text(arg, "-h") {
                return Ok(Invocation::Help);
            } else {
                return Err(OptionsError::Unknown(arg.to_owned()));
            }
        }
        assert(views.skip(at as int).len() == 0);
        if options.max_tokens == 0 {
            Err(OptionsError::ZeroMaxTokens)
        } else {
            Ok(Invocation::Run(options))
        }
    }

    /// Checks the temperature; `in_range` tells whether its literal stands for a number from 0
    /// to 2.
    pub fn check(&self, in_range: bool) -> (checked: Result<(), OptionsError>)
        ensures
            match checked {
                Ok(_) => in_range,
                Err(e) => !in_range && e@ == OptionsErrorView::TemperatureRange,
            },
    {
        if in_range {
            Ok(())
        } else {
            Err(OptionsError::TemperatureRange)
        }
    }
}

/// The usage of the sidecar.
pub fn usage() -> (text: String)
    ensures
        text@
            == "Usage: romaji-agent-apple-fm-sidecar [--max-tokens 256] [--temperature 0.1]"@,
{
    "Usage: romaji-agent-apple-fm-sidecar [--max-tokens 256] [--temperature 0.1]".to_owned()
}

/// What the prompt says before the draft.
pub open spec fn instructions() -> Seq<char> {
    "Convert the following romaji, typo-heavy, or unconverted Japanese draft into natural Japanese.\n\nRules:\n- Return only one JSON object matching this schema: {\"converted\": string, \"refined\": string, \"confidence\": number}.\n- Treat Raw as typed romaji input, not a free semantic prompt.\n- Prefer the Kana candidate as the phonetic anchor when it is present.\n- Fix only obvious typos when the phonetic context supports the correction.\n- Preserve intended meaning from the phonetic input. Use memory terms when they clearly apply.\n- \"converted\" may be a direct conversion. \"refined\" should be natural, polished Japanese.\n- \"confidence\" must be between 0 and 1.\n\nRaw:\n"@
}

/// The prompt for a request.
pub fn build_prompt(request: &TransformRequest) -> (prompt: String)
    ensures
        prompt@ == instructions() + draft_section(
            request.raw@,
            optional_text(request.kana_candidate),
            request.memory@,
        ),
{
    let mut prompt = "Convert the following romaji, typo-heavy, or unconverted Japanese draft into natural Japanese.\n\nRules:\n- Return only one JSON object matching this schema: {\"converted\": string, \"refined\": string, \"confidence\": number}.\n- Treat Raw as typed romaji input, not a free semantic prompt.\n- Prefer the Kana candidate as the phonetic anchor when it is present.\n- Fix only obvious typos when the phonetic context supports the correction.\n- Preserve intended meaning from the phonetic input. Use memory terms when they clearly apply.\n- \"converted\" may be a direct conversion. \"refined\" should be natural, polished Japanese.\n- \"confidence\" must be between 0 and 1.\n\nRaw:\n".to_owned();
    append_draft(&mut prompt, request);
    prompt
}

/// The JSON schema that the model is asked to keep to.
pub fn transform_response_schema_json() -> (schema: String)
    ensures
        schema@ == response_schema(),
{
    transform_response_schema()
}

/// Why a text holds no answer.
#[derive(Debug, Clone, PartialEq, Eq)]
pub enum ExtractError {
    MissingStart,
    MissingEnd,
    /// The object does not decode; the reason.
    Invalid(String),
}

/// The words for an [`ExtractError`].
pub open spec fn extract_error_text(error: ExtractError) -> Seq<char> {
    match error {
        ExtractError::MissingStart => "missing json object start"@,
        ExtractError::MissingEnd => "missing json object end"@,
        ExtractError::Invalid(reason) => reason@,
    }
}

impl ExtractError {
    /// The words for the error.
    pub fn message(&self) -> (text: String)
        ensures
            text@ == extract_error_text(*self),
    {
        match self {
            ExtractError::MissingStart => "missing json object start".to_owned(),
            ExtractError::MissingEnd => "missing json object end".to_owned(),
            ExtractError::Invalid(reason) => reason.clone(),
        }
    }
}

/// The JSON text of the answer in a text. `whole` is what the trimmed text decodes to; `object`
/// is what the object in it decodes to, and counts only where the trimmed text does not decode
/// and holds an object.
pub fn extract_json_object(
    text: &str,
    whole: &Result<TransformResponse, String>,
    object: Result<TransformResponse, String>,
) -> (json: Result<String, ExtractError>)
    ensures
        whole is Ok ==> json is Ok && json->Ok_0@ == trim(text@),
        whole is Err && !braces_in_order(trim(text@)) ==> json == Err::<String, ExtractError>(
            ExtractError::MissingEnd,
        ),
        whole is Err ==> match object_in(trim(text@)) {
            Err(ObjectError::MissingStart) => json == Err::<String, ExtractError>(
                ExtractError::MissingStart,
            ),
            Err(ObjectError::MissingEnd) => json == Err::<String, ExtractError>(
                ExtractError::MissingEnd,
            ),
            Ok(candidate) => match object {
                Ok(_) => json is Ok && json->Ok_0@ == candidate,
                Err(reason) => json == Err::<String, ExtractError>(ExtractError::Invalid(reason)),
            },
        },
{
    let text = trimmed(text);
    if whole.is_ok() {
        return Ok(text);
    }
    match object_text(text.as_str()) {
        Err(ObjectError::MissingStart) => Err(ExtractError::MissingStart),
        Err(ObjectError::MissingEnd) => Err(ExtractError::MissingEnd),
        Ok(candidate) => match object {
            Ok(_) => Ok(candidate),
            Err(reason) => Err(ExtractError::Invalid(reason)),
        },
    }
}

/// The words for JSON text that is no answer.
pub open spec fn invalid_response_text(text: Seq<char>, reason: Seq<char>) -> Seq<char> {
    "invalid response json: "@ + text + ": "@ + reason
}

/// Takes the answer from JSON text. `decoded` is what the trimmed text decodes to.
pub fn parse_transform_response(text: &str, decoded: Result<TransformResponse, String>) -> (response:
    Result<TransformResponse, String>)
    ensures
        match decoded {
            Ok(_) => response == decoded,
            Err(reason) => response is Err && response->Err_0@ == invalid_response_text(
                text@,
                reason@,
            ),
        },
{
    match decoded {
        Ok(response) => Ok(response),
        Err(reason) => {
            let mut message = "invalid response json: ".to_owned();
            message.append(text);
            message.append(": ");
            message.append(reason.as_str());
            Err(message)
        },
    }
}

/// An answer with its confidence brought between 0 and 1.
pub fn with_confidence_in_range(response: TransformResponse) -> (clamped: TransformResponse)
    ensures
        clamped == (TransformResponse {
            confidence: response.confidence.clamped_spec(),
            ..response
        }),
{
    TransformResponse {
        converted: response.converted,
        refined: response.refined,
        confidence: response.confidence.clamped(),
    }
}

/// How the answer to a prompt is come by.
#[derive(Debug, Clone, PartialEq, Eq)]
pub enum Inference {
    /// The model kept to the schema and gave this JSON text.
    Structured(String),
    /// The model did not keep to the schema, for this reason, and is to be asked for plain text.
    AskText(String),
}

/// What to do with the reply to the request that gives the schema.
pub fn after_structured(reply: Result<String, String>) -> (next: Inference)
    ensures
        next == match reply {
            Ok(json) => Inference::Structured(json),
            Err(reason) => Inference::AskText(reason),
        },
{
    match reply {
        Ok(json) => Inference::Structured(json),
        Err(reason) => Inference::AskText(reason),
    }
}

/// The words for a request for plain text that failed.
pub open spec fn text_request_error(structured: Seq<char>, reason: Seq<char>) -> Seq<char> {
    "requesting text response after structured response failed: "@ + structured + ": "@ + reason
}

/// The words for plain text that holds no answer.
pub open spec fn text_answer_error(structured: Seq<char>, reason: Seq<char>) -> Seq<char> {
    "structured response failed: "@ + structured
        + "; text response was not valid transform JSON: "@ + reason
}

/// The JSON text of the answer in the reply to the request for plain text. `structured` is why
/// the model did not keep to the schema; `whole` and `object` are as in
/// [`extract_json_object`].
pub fn after_text(
    structured: &str,
    reply: Result<String, String>,
    whole: &Result<TransformResponse, String>,
    object: Result<TransformResponse, String>,
) -> (json: Result<String, String>)
    ensures
        reply matches Ok(text) ==> whole is Err && !braces_in_order(trim(text@)) ==> json is Err
            && json->Err_0@ == text_answer_error(structured@, "missing json object end"@),
        match reply {
            Err(reason) => json is Err && json->Err_0@ == text_request_error(structured@, reason@),
            Ok(text) => if whole is Ok {
                json is Ok && json->Ok_0@ == trim(text@)
            } else {
                match (object_in(trim(text@)), object) {
                    (Err(ObjectError::MissingStart), _) => json is Err && json->Err_0@
                        == text_answer_error(structured@, "missing json object start"@),
                    (Err(ObjectError::MissingEnd), _) => json is Err && json->Err_0@
                        == text_answer_error(structured@, "missing json object end"@),
                    (Ok(_), Err(reason)) => json is Err && json->Err_0@ == text_answer_error(
                        structured@,
                        reason@,
                    ),
                    (Ok(candidate), Ok(_)) => json is Ok && json->Ok_0@ == candidate,
                }
            },
        },
{
    match reply {
        Err(reason) => {
            let mut message =
                "requesting text response after structured response failed: ".to_owned();
            message.append(structured);
            message.append(": ");
            message.append(reason.as_str());
            Err(message)
        },
        Ok(text) => match extract_json_object(text.as_str(), whole, object) {
            Ok(json) => Ok(json),
            Err(error) => {
                let mut message = "structured response failed: ".to_owned();
                message.append(structured);
                message.append("; text response was not valid transform JSON: ");
                message.append(error.message().as_str());
                Err(message)
            },
        },
    }
}

/// The answer in JSON text, with its confidence brought between 0 and 1. `decoded` is what the
/// trimmed text decodes to.
pub fn finished_response(json: &str, decoded: Result<TransformResponse, String>) -> (response:
    Result<TransformResponse, String>)
    ensures
        match decoded {
            Ok(answer) => response == Ok::<_, String>(
                TransformResponse { confidence: answer.confidence.clamped_spec(), ..answer },
            ),
            Err(reason) => response is Err && response->Err_0@ == invalid_response_text(
                json@,
                reason@,
            ),
        },
{
    match parse_transform_response(json, decoded) {
        Ok(response) => Ok(with_confidence_in_range(response)),
        Err(message) => Err(message),
    }
}

/// Arguments are read from left to right: those behind others that are understood are read as if
/// they came first, with the options that the others left.
pub proof fn law_read_from_left_to_right(
    args: Seq<Seq<char>>,
    more: Seq<Seq<char>>,
    options: OptionsView,
)
    ensures
        read_options(args, options) matches Ok(Some(read)) ==> read_options(args + more, options)
            == read_options(more, read),
        read_options(args, options) == Ok::<Option<OptionsView>, OptionsErrorView>(None)
            ==> read_options(args + more, options) == Ok::<Option<OptionsView>, OptionsErrorView>(
            None,
        ),
    decreases args.len(),
{
    let all = args + more;
    if args.len() == 0 {
        assert(all =~= more);
    } else if args.len() > 1 {
        assert(all.skip(2) =~= args.skip(2) + more);
        if args[0] == "--max-tokens"@ {
            if let Ok(n) = read_unsigned(args[1], u32::MAX as int) {
                law_read_from_left_to_right(
                    args.skip(2),
                    more,
                    OptionsView { max_tokens: n, ..options },
                );
            }
        } else if args[0] == "--temperature"@ && is_float_literal(args[1]) {
            law_read_from_left_to_right(
                args.skip(2),
                more,
                OptionsView { temperature: args[1], ..options },
            );
        }
    }
}

/// Each flag sets its own option to the value behind it and not the other one.
pub proof fn law_flag_sets_its_option(options: OptionsView, value: Seq<char>)
    ensures
        read_options(seq![], options) == Ok::<_, OptionsErrorView>(Some(options)),
        match read_unsigned(value, 0xffff_ffff) {
            Ok(n) => read_options(seq!["--max-tokens"@, value], options) == Ok::<
                _,
                OptionsErrorView,
            >(Some(OptionsView { max_tokens: n, ..options })),
            Err(e) => read_options(seq!["--max-tokens"@, value], options) == Err::<
                Option<OptionsView>,
                _,
            >(OptionsErrorView::InvalidNumber("--max-tokens"@, e)),
        },
        is_float_literal(value) ==> read_options(seq!["--temperature"@, value], options) == Ok::<
            _,
            OptionsErrorView,
        >(Some(OptionsView { temperature: value, ..options })),
        !is_float_literal(value) ==> read_options(seq!["--temperature"@, value], options) == Err::<
            Option<OptionsView>,
            _,
        >(OptionsErrorView::InvalidFloat("--temperature"@, value)),
{
    reveal_with_fuel(read_options, 2);
    reveal_strlit("--max-tokens");
    reveal_strlit("--temperature");
    assert("--max-tokens"@.len() != "--temperature"@.len());
    let none = Seq::<Seq<char>>::empty();
    assert(seq!["--max-tokens"@, value].skip(2) =~= none);
    assert(seq!["--temperature"@, value].skip(2) =~= none);
}

/// A flag at the end lacks its value, help ends the reading, and any other argument is not known.
pub proof fn law_arguments_that_end_the_reading(
    options: OptionsView,
    arg: Seq<char>,
    rest: Seq<Seq<char>>,
)
    ensures
        arg == "--max-tokens"@ || arg == "--temperature"@ ==> read_options(seq![arg], options)
            == Err::<Option<OptionsView>, _>(OptionsErrorView::MissingValue(arg)),
        arg == "--help"@ || arg == "-h"@ ==> read_options(seq![arg] + rest, options) == Ok::<
            Option<OptionsView>,
            OptionsErrorView,
        >(None),
        arg != "--max-tokens"@ && arg != "--temperature"@ && arg != "--help"@ && arg != "-h"@
            ==> read_options(seq![arg] + rest, options) == Err::<Option<OptionsView>, _>(
            OptionsErrorView::Unknown(arg),
        ),
{
    reveal_strlit("--max-tokens");
    reveal_strlit("--temperature");
    reveal_strlit("--help");
    reveal_strlit("-h");
    assert("--max-tokens"@.len() == 12 && "--temperature"@.len() == 13);
    assert("--help"@.len() == 6 && "-h"@.len() == 2);
    assert((seq![arg] + rest)[0] == arg);
}

/// Options are what is read, from these values on, unless no token would be allowed.
pub proof fn law_invocation_allows_tokens(args: Seq<Seq<char>>)
    ensures
        ({
            let start = OptionsView { max_tokens: 256, temperature: "0.1"@ };
            &&& read_options(args, start) matches Ok(Some(options)) ==> {
                &&& options.max_tokens != 0 ==> invocation_of(args) == Ok::<_, OptionsErrorView>(
                    Some(options),
                )
                &&& options.max_tokens == 0 ==> invocation_of(args) == Err::<
                    Option<OptionsView>,
                    _,
                >(OptionsErrorView::ZeroMaxTokens)
            }
            &&& !(read_options(args, start) matches Ok(Some(_))) ==> invocation_of(args)
                == read_options(args, start)
        }),
{
}

/// What is said of a failure gives every reason in full.
pub proof fn law_failures_give_their_reasons(
    structured: Seq<char>,
    reason: Seq<char>,
    text: Seq<char>,
)
    ensures
        invalid_response_text(text, reason) == "invalid response json: "@ + text + ": "@ + reason,
        text_request_error(structured, reason)
            == "requesting text response after structured response failed: "@ + structured + ": "@
            + reason,
        text_answer_error(structured, reason) == "structured response failed: "@ + structured
            + "; text response was not valid transform JSON: "@ + reason,
{
}

/// What is said of an object that does not decode is the decoder's reason in full.
pub proof fn law_decoder_reason_is_kept(reason: String)
    ensures
        extract_error_text(ExtractError::Invalid(reason)) == reason@,
{
}

} // verus!
