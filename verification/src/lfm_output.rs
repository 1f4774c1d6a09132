//! What the local language model puts out, and the answer in it.

use crate::json::{hex_digit, json_escape, json_escaped, lemma_escaped_first};
use crate::number::{float_literal, is_digit, is_float_literal};
use crate::protocol::{
    law_clamped_keeps_range, Confidence, ResponseView, TransformResponse, HALF,
};
use crate::response::{
    braces_in_order, debug_text, debugged, object_in, object_text, ObjectError,
};
use crate::search::{
    contains, contains_text, find, find_chars, law_contains, law_find, lemma_find, lemma_rfind_char,
    occurs_at,
};
use crate::text::{
    blank, chars_of, is_blank, is_white_space, lemma_trim_start_of, slice_of, string_of,
    trim_start,
};
use vstd::prelude::*;

verus! {

/// Why the model's output holds no answer.
#[derive(Debug, Clone, PartialEq, Eq)]
pub enum ResponseError {
    MissingObject,
    MissingObjectEnd,
    /// The object does not decode; the reason.
    Decode(String),
    ConvertedEmpty,
    RefinedEmpty,
    MissingConverted,
    RepairedEmpty,
}

/// The words for a [`ResponseError`].
pub open spec fn response_error_text(error: ResponseError) -> Seq<char> {
    match error {
        ResponseError::MissingObject => "missing JSON object"@,
        ResponseError::MissingObjectEnd => "missing JSON object end"@,
        ResponseError::Decode(reason) => "parsing response JSON: "@ + reason@,
        ResponseError::ConvertedEmpty => "converted is empty"@,
        ResponseError::RefinedEmpty => "refined is empty"@,
        ResponseError::MissingConverted => "missing converted field"@,
        ResponseError::RepairedEmpty => "repaired response is empty"@,
    }
}

impl ResponseError {
    /// The words for the error.
    pub fn message(&self) -> (text: String)
        ensures
            text@ == response_error_text(*self),
    {
        match self {
            ResponseError::MissingObject => "missing JSON object".to_owned(),
            ResponseError::MissingObjectEnd => "missing JSON object end".to_owned(),
            ResponseError::Decode(reason) => "parsing response JSON: ".to_owned().concat(
                reason.as_str(),
            ),
            ResponseError::ConvertedEmpty => "converted is empty".to_owned(),
            ResponseError::RefinedEmpty => "refined is empty".to_owned(),
            ResponseError::MissingConverted => "missing converted field".to_owned(),
            ResponseError::RepairedEmpty => "repaired response is empty".to_owned(),
        }
    }
}

/// An answer with its confidence brought between 0 and 1.
pub open spec fn with_clamped_confidence(response: TransformResponse) -> TransformResponse {
    TransformResponse { confidence: response.confidence.clamped_spec(), ..response }
}

/// Takes the answer from a text. `decoded` is what the object in the text decodes to, and counts
/// only where there is one.
pub open spec fn parsed_response(
    text: Seq<char>,
    decoded: Result<TransformResponse, String>,
) -> Result<TransformResponse, ResponseError> {
    match object_in(text) {
        Err(ObjectError::MissingStart) => Err(ResponseError::MissingObject),
        Err(ObjectError::MissingEnd) => Err(ResponseError::MissingObjectEnd),
        Ok(_) => match decoded {
            Err(reason) => Err(ResponseError::Decode(reason)),
            Ok(response) => if is_blank(response.converted@) {
                Err(ResponseError::ConvertedEmpty)
            } else if is_blank(response.refined@) {
                Err(ResponseError::RefinedEmpty)
            } else {
                Ok(with_clamped_confidence(response))
            },
        },
    }
}

/// Takes the answer from a text. `decoded` is what the object in the text decodes to, and counts
/// only where there is one.
pub fn parse_response(text: &str, decoded: Result<TransformResponse, String>) -> (response: Result<
    TransformResponse,
    ResponseError,
>)
    ensures
        response == parsed_response(text@, decoded),
        !braces_in_order(text@) ==> response == Err::<TransformResponse, _>(
            ResponseError::MissingObjectEnd,
        ),
{
    match object_text(text) {
        Err(ObjectError::MissingStart) => {
            return Err(ResponseError::MissingObject);
        },
        Err(ObjectError::MissingEnd) => {
            return Err(ResponseError::MissingObjectEnd);
        },
        Ok(_) => {},
    }
    match decoded {
        Err(reason) => Err(ResponseError::Decode(reason)),
        Ok(response) => if blank(response.converted.as_str()) {
            Err(ResponseError::ConvertedEmpty)
        } else if blank(response.refined.as_str()) {
            Err(ResponseError::RefinedEmpty)
        } else {
            Ok(
                TransformResponse {
                    converted: response.converted,
                    refined: response.refined,
                    confidence: response.confidence.clamped(),
                },
            )
        },
    }
}

/// What stands behind a field's name and colon, from the first place where the name stands in
/// quotes.
pub open spec fn after_field(text: Seq<char>, field: Seq<char>) -> Option<Seq<char>> {
    let marker = seq!['"'] + field + seq!['"'];
    match find(text, marker) {
        None => None,
        Some(i) => {
            let after = text.skip(i + marker.len());
            match find(after, seq![':']) {
                None => None,
                Some(colon) => Some(trim_start(after.skip(colon + 1))),
            }
        },
    }
}

/// The character that an escape stands for.
pub open spec fn unescaped(c: char) -> char {
    if c == 'n' {
        '\n'
    } else if c == 'r' {
        '\r'
    } else if c == 't' {
        '\t'
    } else {
        c
    }
}

/// The text of a string behind its opening quote, up to the closing quote or the end. A
/// backslash at the very end stands for nothing.
pub open spec fn string_body(s: Seq<char>) -> Seq<char>
    decreases s.len(),
{
    if s.len() == 0 || s[0] == '"' {
        seq![]
    } else if s[0] == '\\' {
        if s.len() == 1 {
            seq![]
        } else {
            seq![unescaped(s[1])] + string_body(s.skip(2))
        }
    } else {
        seq![s[0]] + string_body(s.skip(1))
    }
}

/// The text of a string field, read leniently: the string may be cut off at the end.
pub open spec fn string_field(text: Seq<char>, field: Seq<char>) -> Option<Seq<char>> {
    match after_field(text, field) {
        Some(rest) => if rest.len() > 0 && rest[0] == '"' {
            Some(string_body(rest.skip(1)))
        } else {
            None
        },
        None => None,
    }
}

/// The characters of a number in JSON text.
pub open spec fn is_number_char(c: char) -> bool {
    is_digit(c) || c == '.' || c == '-'
}

/// The number of number characters at the start.
pub open spec fn number_len(s: Seq<char>) -> nat
    decreases s.len(),
{
    if s.len() == 0 || !is_number_char(s[0]) {
        0
    } else {
        1 + number_len(s.skip(1))
    }
}

/// The literal of a number field, where it reads as a floating-point number.
pub open spec fn number_field(text: Seq<char>, field: Seq<char>) -> Option<Seq<char>> {
    match after_field(text, field) {
        Some(rest) => {
            let literal = rest.take(number_len(rest) as int);
            if is_float_literal(literal) {
                Some(literal)
            } else {
                None
            }
        },
        None => None,
    }
}

/// What stands behind a field's name and colon.
fn behind_field(text: &str, field: &str) -> (rest: Option<Vec<char>>)
    ensures
        match rest {
            Some(r) => after_field(text@, field@) == Some(r@),
            None => after_field(text@, field@) is None,
        },
{
    let chars = chars_of(text);
    let len = chars.len();
    let mut quoted = String::new();
    quoted.push('"');
    quoted.append(field);
    quoted.push('"');
    let marker = chars_of(quoted.as_str());
    assert(marker@ =~= seq!['"'] + field@ + seq!['"']);
    let i = match find_chars(&chars, &marker, 0) {
        Some(i) => i,
        None => {
            return None;
        },
    };
    let after = slice_of(&chars, i + marker.len(), len);
    assert(after@ =~= chars@.skip(i + marker@.len()));
    let pattern: Vec<char> = vec![':'];
    assert(pattern@ =~= seq![':']);
    let after_len = after.len();
    let colon = match find_chars(&after, &pattern, 0) {
        Some(colon) => colon,
        None => {
            return None;
        },
    };
    let ghost value = after@.skip(colon + 1);
    let mut start: usize = colon + 1;
    while start < after.len() && after[start].is_whitespace()
        invariant
            colon + 1 <= start <= after@.len(),
            forall|j: int| colon + 1 <= j < start ==> is_white_space(#[trigger] after@[j]),
        decreases after@.len() - start,
    {
        start += 1;
    }
    let rest = slice_of(&after, start, after_len);
    proof {
        let dropped = start - (colon + 1);
        assert forall|j: int| 0 <= j < dropped implies is_white_space(#[trigger] value[j]) by {
            assert(value[j] == after@[colon + 1 + j]);
        }
        if start < after@.len() {
            assert(value[dropped] == after@[start as int]);
        }
        lemma_trim_start_of(value, dropped);
        assert(rest@ =~= value.skip(dropped));
    }
    Some(rest)
}

/// The text of a string field, even where the text is cut off inside it.
pub fn extract_json_string_field(text: &str, field: &str) -> (value: Option<String>)
    ensures
        match value {
            Some(v) => string_field(text@, field@) == Some(v@),
            None => string_field(text@, field@) is None,
        },
{
    let chars = match behind_field(text, field) {
        Some(chars) => chars,
        None => {
            return None;
        },
    };
    if chars.len() == 0 || chars[0] != '"' {
        return None;
    }
    let mut value = String::new();
    let mut escaped = false;
    let mut at: usize = 1;
    let ghost body = string_body(chars@.skip(1));
    while at < chars.len()
        invariant
            1 <= at <= chars@.len(),
            escaped ==> at >= 2 && chars@[at - 1] == '\\',
            body == value@ + string_body(chars@.skip(at - if escaped { 1int } else { 0int })),
            string_field(text@, field@) == Some(body),
        decreases chars@.len() - at,
    {
        let c = chars[at];
        let ghost rest = chars@.skip(at as int);
        let ghost before = value@;
        if escaped {
            let ghost escape = chars@.skip(at - 1);
            assert(escape[0] == '\\' && escape[1] == c);
            assert(escape.skip(2) == chars@.skip(at + 1));
            value.push(
                match c {
                    'n' => '\n',
                    'r' => '\r',
                    't' => '\t',
                    other => other,
                },
            );
            assert(value@ =~= before + seq![unescaped(c)]);
            assert(before + (seq![unescaped(c)] + string_body(chars@.skip(at + 1))) =~= value@
                + string_body(chars@.skip(at + 1)));
            escaped = false;
        } else if c == '\\' {
            escaped = true;
        } else if c == '"' {
            assert(rest[0] == c);
            assert(body =~= value@);
            return Some(value);
        } else {
            assert(rest[0] == c);
            assert(rest.skip(1) == chars@.skip(at + 1));
            value.push(c);
            assert(before + (seq![c] + string_body(chars@.skip(at + 1))) =~= value@ + string_body(
                chars@.skip(at + 1),
            ));
        }
        at += 1;
    }
    assert(body =~= value@);
    Some(value)
}

/// The literal of a number field.
pub fn extract_json_number_field(text: &str, field: &str) -> (literal: Option<String>)
    ensures
        match literal {
            Some(v) => number_field(text@, field@) == Some(v@),
            None => number_field(text@, field@) is None,
        },
{
    let chars = match behind_field(text, field) {
        Some(chars) => chars,
        None => {
            return None;
        },
    };
    let mut end: usize = 0;
    assert(chars@.skip(0) == chars@);
    while end < chars.len() && (('0' <= chars[end] && chars[end] <= '9') || chars[end] == '.'
        || chars[end] == '-')
        invariant
            end <= chars@.len(),
            number_len(chars@) == end + number_len(chars@.skip(end as int)),
        decreases chars@.len() - end,
    {
        assert(chars@.skip(end as int).skip(1) == chars@.skip(end + 1));
        end += 1;
    }
    let literal = string_of(&slice_of(&chars, 0, end));
    assert(literal@ =~= chars@.take(number_len(chars@) as int));
    if float_literal(literal.as_str()) {
        Some(literal)
    } else {
        None
    }
}

/// An answer put together from the fields that can be read in a text. `confidence` is the number
/// that the literal of the confidence field stands for, and counts only where there is such a
/// literal. Without a refined text the converted one serves as such.
pub open spec fn repaired_response(text: Seq<char>, confidence: Option<Confidence>) -> Result<
    ResponseView,
    ResponseError,
> {
    match string_field(text, "converted"@) {
        None => Err(ResponseError::MissingConverted),
        Some(converted) => {
            let refined = match string_field(text, "refined"@) {
                Some(refined) => refined,
                None => converted,
            };
            if is_blank(converted) || is_blank(refined) {
                Err(ResponseError::RepairedEmpty)
            } else {
                Ok(
                    ResponseView {
                        converted,
                        refined,
                        confidence: match (number_field(text, "confidence"@), confidence) {
                            (Some(_), Some(c)) => c.clamped_spec(),
                            _ => Confidence { bits: HALF },
                        },
                    },
                )
            }
        },
    }
}

/// Puts an answer together from the fields that can be read in a text that does not decode.
pub fn repair_response(text: &str, confidence: Option<Confidence>) -> (response: Result<
    TransformResponse,
    ResponseError,
>)
    ensures
        match response {
            Ok(answer) => repaired_response(text@, confidence) == Ok::<_, ResponseError>(answer@),
            Err(error) => repaired_response(text@, confidence) == Err::<ResponseView, _>(error),
        },
{
    let converted = match extract_json_string_field(text, "converted") {
        Some(converted) => converted,
        None => {
            return Err(ResponseError::MissingConverted);
        },
    };
    let refined = match extract_json_string_field(text, "refined") {
        Some(refined) => refined,
        None => converted.clone(),
    };
    if blank(converted.as_str()) || blank(refined.as_str()) {
        return Err(ResponseError::RepairedEmpty);
    }
    let confidence = match (extract_json_number_field(text, "confidence"), confidence) {
        (Some(_), Some(c)) => c.clamped(),
        _ => Confidence { bits: HALF },
    };
    Ok(TransformResponse { converted, refined, confidence })
}

/// The start of the answer, which the prompt already holds.
pub open spec fn answer_head() -> Seq<char> {
    "{\"converted\":\""@
}

/// Whether generated text may hold a whole answer: it holds a closing brace and the name of
/// the refined field.
pub open spec fn may_be_complete(generated: Seq<char>) -> bool {
    contains(generated, "}"@) && contains(generated, "\"refined\""@)
}

/// The text that the model generates, token by token.
#[derive(Debug, Clone, PartialEq, Eq)]
pub struct Generation {
    pub generated: String,
    pub produced: usize,
    pub max_tokens: usize,
    pub finished: bool,
}

/// What a [`Generation`] holds.
pub struct GenerationView {
    pub generated: Seq<char>,
    pub produced: int,
    pub max_tokens: int,
    pub finished: bool,
}

impl View for Generation {
    type V = GenerationView;

    open spec fn view(&self) -> GenerationView {
        GenerationView {
            generated: self.generated@,
            produced: self.produced as int,
            max_tokens: self.max_tokens as int,
            finished: self.finished,
        }
    }
}

impl GenerationView {
    /// The number of tokens never exceeds its limit.
    pub open spec fn is_valid(self) -> bool {
        0 <= self.produced <= self.max_tokens
    }

    /// Nothing generated yet.
    pub open spec fn empty(max_tokens: int) -> GenerationView {
        GenerationView { generated: seq![], produced: 0, max_tokens, finished: false }
    }

    /// Whether another token is to be sampled.
    pub open spec fn wants(self) -> bool {
        !self.finished && self.produced < self.max_tokens
    }

    /// What is generated after the text of one more token.
    pub open spec fn pushed(self, piece: Seq<char>) -> GenerationView {
        GenerationView {
            generated: self.generated + piece,
            produced: self.produced + 1,
            ..self
        }
    }

    /// The same text, with the output ended if so told.
    pub open spec fn ended_if(self, end: bool) -> GenerationView {
        GenerationView { finished: self.finished || end, ..self }
    }

    /// The answer so far: what the prompt started and what the model added.
    pub open spec fn answer(self) -> Seq<char> {
        answer_head() + self.generated
    }

    /// What is generated after the texts of several tokens; those that come when no token is
    /// wanted are not taken. `parses` tells of each answer so far whether it parses.
    pub open spec fn after_pieces(
        self,
        pieces: Seq<Seq<char>>,
        parses: spec_fn(Seq<char>) -> bool,
    ) -> GenerationView
        decreases pieces.len(),
    {
        if pieces.len() == 0 {
            self
        } else {
            let before = self.after_pieces(pieces.drop_last(), parses);
            if before.wants() {
                let next = before.pushed(pieces.last());
                next.ended_if(may_be_complete(next.generated) && parses(next.answer()))
            } else {
                before
            }
        }
    }
}

impl Generation {
    /// The number of tokens never exceeds its limit.
    pub open spec fn is_valid(self) -> bool {
        self@.is_valid()
    }

    /// Nothing generated yet.
    pub fn new(max_tokens: usize) -> (generation: Self)
        ensures
            generation.is_valid(),
            generation@ == GenerationView::empty(max_tokens as int),
    {
        Generation { generated: String::new(), produced: 0, max_tokens, finished: false }
    }

    /// Whether another token is to be sampled.
    pub fn wants_token(&self) -> (r: bool)
        ensures
            r == self@.wants(),
    {
        !self.finished && self.produced < self.max_tokens
    }

    /// Takes note that the model ended its output.
    pub fn end(&mut self)
        ensures
            final(self)@ == old(self)@.ended_if(true),
    {
        self.finished = true;
    }

    /// Adds the text of a token. Where the output may now be complete, the answer so far is
    /// given back, to be parsed.
    pub fn push(&mut self, piece: &str) -> (complete: Option<String>)
        requires
            old(self)@.wants(),
        ensures
            final(self)@ == old(self)@.pushed(piece@),
            match complete {
                Some(answer) => may_be_complete(final(self)@.generated) && answer@ == final(
                    self
                )@.answer(),
                None => !may_be_complete(final(self)@.generated),
            },
    {
        self.generated.append(piece);
        self.produced = self.produced + 1;
        if contains_text(self.generated.as_str(), "}") && contains_text(
            self.generated.as_str(),
            "\"refined\"",
        ) {
            Some(self.full_json())
        } else {
            None
        }
    }

    /// Takes note of whether the answer so far parses: once it does, no more tokens are wanted.
    pub fn parsed(&mut self, response: &Result<TransformResponse, ResponseError>)
        ensures
            final(self)@ == old(self)@.ended_if(response is Ok),
    {
        if response.is_ok() {
            self.finished = true;
        }
    }

    /// The answer so far.
    pub fn full_json(&self) -> (json: String)
        ensures
            json@ == self@.answer(),
    {
        let mut json = "{\"converted\":\"".to_owned();
        json.append(self.generated.as_str());
        json
    }
}

/// Texts one behind the other.
pub open spec fn concatenated(pieces: Seq<Seq<char>>) -> Seq<char>
    decreases pieces.len(),
{
    if pieces.len() == 0 {
        seq![]
    } else {
        concatenated(pieces.drop_last()) + pieces.last()
    }
}

/// Generation takes tokens one by one up to its limit, or to the first answer that parses: what
/// is generated is the text of the tokens that were taken, they are the first ones, and no more
/// than the limit.
pub proof fn law_generation_is_bounded(
    max_tokens: int,
    pieces: Seq<Seq<char>>,
    parses: spec_fn(Seq<char>) -> bool,
)
    requires
        0 <= max_tokens,
    ensures
        ({
            let end = GenerationView::empty(max_tokens).after_pieces(pieces, parses);
            &&& end.is_valid()
            &&& end.max_tokens == max_tokens
            &&& end.produced <= pieces.len()
            &&& end.generated == concatenated(pieces.take(end.produced))
            &&& end.wants() ==> end.produced == pieces.len()
            &&& !end.wants() ==> end.finished || end.produced == max_tokens
            &&& end.answer() == "{\"converted\":\""@ + end.generated
            &&& end.finished ==> parses(end.answer())
            &&& end.produced > 0 ==> (end.finished <==> may_be_complete(end.generated) && parses(
                end.answer(),
            ))
        }),
    decreases pieces.len(),
{
    let start = GenerationView::empty(max_tokens);
    if pieces.len() == 0 {
        assert(pieces.take(0) =~= pieces);
    } else {
        let front = pieces.drop_last();
        law_generation_is_bounded(max_tokens, front, parses);
        let before = start.after_pieces(front, parses);
        let end = start.after_pieces(pieces, parses);
        assert(pieces.take(before.produced) =~= front.take(before.produced));
        if before.wants() {
            assert(front.take(before.produced) =~= front);
            assert(pieces.take(end.produced) =~= pieces);
        }
    }
}

/// The words for output in which no answer could be found.
pub open spec fn no_answer_text(full_json: Seq<char>, error: ResponseError) -> Seq<char> {
    "model did not emit valid response JSON: "@ + debug_text(full_json) + ": "@
        + response_error_text(error)
}

/// The answer in the output of the model: what is parsed from it, or else what can be repaired.
/// `decoded` and `confidence` are as for [`parsed_response`] and [`repaired_response`].
pub open spec fn output_answer(
    full_json: Seq<char>,
    decoded: Result<TransformResponse, String>,
    confidence: Option<Confidence>,
) -> Result<ResponseView, Seq<char>> {
    match parsed_response(full_json, decoded) {
        Ok(answer) => Ok(answer@),
        Err(_) => match repaired_response(full_json, confidence) {
            Ok(answer) => Ok(answer),
            Err(error) => Err(no_answer_text(full_json, error)),
        },
    }
}

/// Takes the answer from the output of the model: parses it, or else repairs it. An answer never
/// holds a blank text, and its confidence needs no clamping.
pub fn answer_in_output(
    full_json: &str,
    decoded: Result<TransformResponse, String>,
    confidence: Option<Confidence>,
) -> (response: Result<TransformResponse, String>)
    ensures
        match response {
            Ok(answer) => output_answer(full_json@, decoded, confidence) == Ok::<_, Seq<char>>(
                answer@,
            ),
            Err(message) => output_answer(full_json@, decoded, confidence) == Err::<
                ResponseView,
                _,
            >(message@),
        },
        response matches Ok(answer) ==> {
            &&& !is_blank(answer.converted@)
            &&& !is_blank(answer.refined@)
            &&& answer.confidence == answer.confidence.clamped_spec()
        },
{
    if let Ok(response) = parse_response(full_json, decoded) {
        proof {
            law_clamped_keeps_range(decoded->Ok_0.confidence);
        }
        return Ok(response);
    }
    proof {
        if let Some(c) = confidence {
            law_clamped_keeps_range(c);
        }
    }
    match repair_response(full_json, confidence) {
        Ok(response) => Ok(response),
        Err(error) => {
            let mut message = "model did not emit valid response JSON: ".to_owned();
            message.append(debugged(full_json).as_str());
            message.append(": ");
            message.append(error.message().as_str());
            Err(message)
        },
    }
}

/// How the prompt is handed to the model.
#[derive(Debug, Clone, Copy, PartialEq, Eq, Structural)]
pub struct BatchPlan {
    pub n_ctx: u32,
    pub n_batch: u32,
    pub n_ubatch: u32,
}

/// Why the model cannot be run.
#[derive(Debug, Clone, Copy, PartialEq, Eq, Structural)]
pub enum InferError {
    NoTokens,
    ZeroContext,
    PositionOverflow,
}

/// The words for an [`InferError`].
pub open spec fn infer_error_text(error: InferError) -> Seq<char> {
    match error {
        InferError::NoTokens => "prompt produced no tokens"@,
        InferError::ZeroContext => "ctx size is zero"@,
        InferError::PositionOverflow =>
            "token position overflow: out of range integral type conversion attempted"@,
    }
}

impl InferError {
    /// The words for the error.
    pub fn message(self) -> (text: String)
        ensures
            text@ == infer_error_text(self),
    {
        match self {
            InferError::NoTokens => "prompt produced no tokens".to_owned(),
            InferError::ZeroContext => "ctx size is zero".to_owned(),
            InferError::PositionOverflow =>
                "token position overflow: out of range integral type conversion attempted".to_owned(),
        }
    }
}

/// The number of tokens that a context of the given size works off at once.
pub open spec fn piece_size(ctx_size: u32) -> u32 {
    if ctx_size < 512 {
        ctx_size
    } else {
        512
    }
}

/// Plans the batches for a prompt of `n_tokens` tokens: one batch fills the context, and is
/// worked off in pieces of 512 tokens at most.
pub fn plan_batches(n_tokens: usize, ctx_size: u32) -> (plan: Result<BatchPlan, InferError>)
    ensures
        plan == if n_tokens == 0 {
            Err(InferError::NoTokens)
        } else if ctx_size == 0 {
            Err(InferError::ZeroContext)
        } else {
            Ok(
                BatchPlan {
                    n_ctx: ctx_size,
                    n_batch: ctx_size,
                    n_ubatch: if ctx_size < 512 {
                        ctx_size
                    } else {
                        512
                    },
                },
            )
        },
        plan matches Ok(plan) ==> plan.n_ubatch == piece_size(ctx_size),
{
    if n_tokens == 0 {
        Err(InferError::NoTokens)
    } else if ctx_size == 0 {
        Err(InferError::ZeroContext)
    } else {
        let n_ubatch: u32 = if ctx_size < 512 {
            ctx_size
        } else {
            512
        };
        Ok(BatchPlan { n_ctx: ctx_size, n_batch: ctx_size, n_ubatch })
    }
}

/// The position of the last of `n_tokens` tokens.
pub fn last_position(n_tokens: usize) -> (position: Result<i32, InferError>)
    requires
        n_tokens > 0,
    ensures
        match position {
            Ok(p) => p == n_tokens - 1,
            Err(e) => e == InferError::PositionOverflow && n_tokens - 1 > i32::MAX,
        },
{
    let last = n_tokens - 1;
    if last <= 0x7fff_ffff {
        Ok(last as i32)
    } else {
        Err(InferError::PositionOverflow)
    }
}

/// The characters that the lenient reader and JSON escape alike: all but the control characters
/// other than line feed, carriage return and tab.
pub open spec fn is_plain(c: char) -> bool {
    c == '\n' || c == '\r' || c == '\t' || c as int >= 0x20
}

/// A string that JSON wrote is read back as it was, whatever follows its closing quote.
pub proof fn law_string_body_reads_json(text: Seq<char>, rest: Seq<char>)
    requires
        forall|i: int|
            0 <= i < text.len() ==> (#[trigger] text[i] == '\n' || text[i] == '\r' || text[i]
                == '\t' || text[i] as int >= 0x20),
    ensures
        string_body(json_escaped(text) + seq!['"'] + rest) == text,
    decreases text.len(),
{
    let s = json_escaped(text) + seq!['"'] + rest;
    if text.len() == 0 {
        assert(s[0] == '"');
        assert(string_body(s) =~= text);
    } else {
        let c = text[0];
        let tail = text.skip(1);
        lemma_escaped_first(text);
        let after = json_escaped(tail) + seq!['"'] + rest;
        assert forall|i: int| 0 <= i < tail.len() implies is_plain(#[trigger] tail[i]) by {
            assert(tail[i] == text[i + 1]);
        }
        law_string_body_reads_json(tail, rest);
        assert(s =~= json_escape(c) + after);
        assert(is_plain(c));
        if json_escape(c).len() == 1 {
            assert(s[0] == c);
            assert(s.skip(1) =~= after);
        } else {
            assert(s[0] == '\\');
            assert(unescaped(s[1]) == c);
            assert(s.skip(2) =~= after);
        }
        assert(string_body(s) =~= text);
    }
}

/// A converted text that the model wrote as JSON is read back as it was, even where the answer is
/// cut off behind it.
pub proof fn law_converted_is_read_back(converted: Seq<char>, rest: Seq<char>)
    requires
        forall|i: int|
            0 <= i < converted.len() ==> (#[trigger] converted[i] == '\n' || converted[i] == '\r'
                || converted[i] == '\t' || converted[i] as int >= 0x20),
    ensures
        string_field(
            answer_head() + json_escaped(converted) + seq!['"'] + rest,
            "converted"@,
        ) == Some(converted),
{
    let body = json_escaped(converted) + seq!['"'] + rest;
    lemma_converted_field(body);
    assert(answer_head() + json_escaped(converted) + seq!['"'] + rest =~= answer_head() + body);
    law_string_body_reads_json(converted, rest);
}

/// The answer that generation works on always starts with an opening brace, so its braces are
/// in order and it can always be parsed.
pub proof fn law_answer_braces_in_order(generation: GenerationView)
    ensures
        braces_in_order(generation.answer()),
{
    let s = generation.answer();
    reveal_strlit("{\"converted\":\"");
    assert(s[0] == '{');
    assert(s.subrange(0, 1) =~= seq!['{']);
    assert(occurs_at(s, seq!['{'], 0));
    lemma_rfind_char(s, '}');
}

proof fn lemma_quote_is_escaped(text: Seq<char>, k: int)
    requires
        0 <= k < json_escaped(text).len(),
        json_escaped(text)[k] == '"',
    ensures
        k > 0,
        json_escaped(text)[k - 1] == '\\',
    decreases text.len(),
{
    let front = json_escaped(text.drop_last());
    let last = json_escape(text.last());
    if k < front.len() {
        lemma_quote_is_escaped(text.drop_last(), k);
    } else {
        lemma_escape_quote(text.last(), k - front.len());
        assert(json_escaped(text)[k] == last[k - front.len()]);
        assert(json_escaped(text)[k - 1] == last[k - front.len() - 1]);
    }
}

proof fn lemma_escape_quote(c: char, k: int)
    requires
        0 <= k < json_escape(c).len(),
        json_escape(c)[k] == '"',
    ensures
        k == 1,
        json_escape(c)[0] == '\\',
{
    let n = c as int;
    if n < 0x20 {
        assert(0 <= n / 16 <= 1);
        assert(hex_digit(n / 16) != '"');
        assert(hex_digit(n % 16) != '"');
    }
}

/// The value of a string field that JSON wrote is read back as it was, wherever the field's name
/// stands first in quotes, whatever follows the value.
pub proof fn law_field_is_read_back(
    before: Seq<char>,
    field: Seq<char>,
    gap: Seq<char>,
    space: Seq<char>,
    value: Seq<char>,
    rest: Seq<char>,
)
    requires
        forall|i: int| 0 <= i < gap.len() ==> #[trigger] gap[i] != ':',
        forall|i: int| 0 <= i < space.len() ==> is_white_space(#[trigger] space[i]),
        forall|i: int|
            0 <= i < value.len() ==> (#[trigger] value[i] == '\n' || value[i] == '\r' || value[i]
                == '\t' || value[i] as int >= 0x20),
        forall|j: int|
            0 <= j < before.len() ==> #[trigger] (before + (seq!['"'] + field + seq!['"']) + (gap
                + seq![':'] + space + seq!['"'] + json_escaped(value) + seq!['"'] + rest)).subrange(
                j,
                j + (field.len() + 2),
            ) != seq!['"'] + field + seq!['"'],
    ensures
        string_field(
            before + (seq!['"'] + field + seq!['"']) + (gap + seq![':'] + space + seq!['"']
                + json_escaped(value) + seq!['"'] + rest),
            field,
        ) == Some(value),
{
    let body = json_escaped(value) + seq!['"'] + rest;
    let marker = seq!['"'] + field + seq!['"'];
    let text = before + marker + (gap + seq![':'] + space + seq!['"'] + json_escaped(value) + seq![
        '"',
    ] + rest);
    assert(text =~= before + marker + (gap + seq![':'] + (space + (seq!['"'] + body))));
    law_field_is_its_string(before, field, gap, space, body);
    law_string_body_reads_json(value, rest);
}

/// What stands behind the first colon, without the white space before it.
proof fn lemma_value_behind(gap: Seq<char>, space: Seq<char>, value: Seq<char>)
    requires
        forall|i: int| 0 <= i < gap.len() ==> #[trigger] gap[i] != ':',
        forall|i: int| 0 <= i < space.len() ==> is_white_space(#[trigger] space[i]),
        value.len() > 0 ==> !is_white_space(value[0]),
    ensures
        find(gap + seq![':'] + (space + value), seq![':']) == Some(gap.len() as int),
        trim_start((gap + seq![':'] + (space + value)).skip(gap.len() as int + 1)) == value,
{
    let after = gap + seq![':'] + (space + value);
    let colon = seq![':'];
    assert forall|j: int| 0 <= j < gap.len() implies #[trigger] after.subrange(j, j + colon.len())
        != colon by {
        assert(after.subrange(j, j + 1)[0] == gap[j]);
    }
    law_find(gap, colon, space + value);
    let s = space + value;
    assert(after.skip(gap.len() as int + 1) =~= s);
    assert forall|i: int| 0 <= i < space.len() implies is_white_space(#[trigger] s[i]) by {
        assert(s[i] == space[i]);
    }
    if value.len() > 0 {
        assert(s[space.len() as int] == value[0]);
    }
    lemma_trim_start_of(s, space.len() as int);
    assert(s.skip(space.len() as int) =~= value);
}

proof fn lemma_refined_field(converted: Seq<char>, body: Seq<char>)
    ensures
        string_field(
            "{\"converted\":\""@ + json_escaped(converted) + "\",\"refined\":\""@ + body,
            "refined"@,
        ) == Some(string_body(body)),
{
    reveal_strlit("{\"converted\":\"");
    reveal_strlit("\",\"refined\":\"");
    reveal_strlit("refined");
    let head = "{\"converted\":\""@;
    let middle = "\",\"refined\":\""@;
    let text = head + json_escaped(converted) + middle + body;
    let marker = seq!['"'] + "refined"@ + seq!['"'];
    let quote = (head.len() + json_escaped(converted).len()) as int;
    let place = quote + 2;
    assert(head.len() == 14 && middle.len() == 13 && marker.len() == 9);
    assert(text.subrange(place, place + 9) =~= marker);
    assert(occurs_at(text, marker, place));
    lemma_find(text, marker);
    let at = find(text, marker)->0;
    assert(at <= place);
    assert(text.subrange(at, at + 9) == marker);
    assert(text[at + 8] == marker[8]) by {
        assert(text.subrange(at, at + 9)[8] == text[at + 8]);
    }
    assert(text[at + 7] == marker[7]) by {
        assert(text.subrange(at, at + 9)[7] == text[at + 7]);
    }
    assert(text[at] == marker[0] && text[at + 1] == marker[1]) by {
        assert(text.subrange(at, at + 9)[0] == text[at]);
        assert(text.subrange(at, at + 9)[1] == text[at + 1]);
    }
    let end = at + 8;
    if at < place {
        if end < head.len() {
            assert(text[at] == head[at] && text[at + 1] == head[at + 1]);
            assert(at != 1 ==> head[at] != '"');
            assert(false);
        } else if end < quote {
            let k = end - head.len();
            assert(text[end] == json_escaped(converted)[k]);
            lemma_quote_is_escaped(converted, k);
            assert(text[end - 1] == json_escaped(converted)[k - 1]);
            assert(false);
        } else if end > quote {
            assert(text[end] == middle[end - quote]);
            assert(text[end - 1] == middle[end - 1 - quote]);
            assert(false);
        }
        assert(end == quote);
        let after = text.skip(at + 9);
        let gap = seq![','] + marker;
        assert(after =~= gap + seq![':'] + (Seq::<char>::empty() + (seq!['"'] + body)));
        lemma_value_behind(gap, seq![], seq!['"'] + body);
        assert((seq!['"'] + body).skip(1) =~= body);
    } else {
        let after = text.skip(at + 9);
        let none = Seq::<char>::empty();
        assert(after =~= none + seq![':'] + (none + (seq!['"'] + body)));
        lemma_value_behind(none, none, seq!['"'] + body);
        assert((seq!['"'] + body).skip(1) =~= body);
    }
}

/// A refined text that the model wrote as JSON behind the converted one is read back as it was,
/// whatever both say, whatever follows it, and where the answer is cut off right behind it.
pub proof fn law_refined_is_read_back(
    converted: Seq<char>,
    refined: Seq<char>,
    rest: Seq<char>,
)
    requires
        forall|i: int|
            0 <= i < refined.len() ==> (#[trigger] refined[i] == '\n' || refined[i] == '\r'
                || refined[i] == '\t' || refined[i] as int >= 0x20),
    ensures
        string_field(
            "{\"converted\":\""@ + json_escaped(converted) + "\",\"refined\":\""@ + (json_escaped(
                refined,
            ) + seq!['"'] + rest),
            "refined"@,
        ) == Some(refined),
        string_field(
            "{\"converted\":\""@ + json_escaped(converted) + "\",\"refined\":\""@ + json_escaped(
                refined,
            ),
            "refined"@,
        ) == Some(refined),
{
    lemma_refined_field(converted, json_escaped(refined) + seq!['"'] + rest);
    lemma_refined_field(converted, json_escaped(refined));
    law_string_body_reads_json(refined, rest);
    law_cut_off_string_is_kept(refined);
}

/// A string is read character by character up to its closing quote or the end. A backslash and
/// the character behind it stand for one: a line feed, a carriage return or a tab for `n`, `r`
/// and `t`, and the character itself for any other.
pub proof fn law_string_body(c: char, rest: Seq<char>)
    ensures
        string_body(Seq::<char>::empty()) == Seq::<char>::empty(),
        string_body(seq!['"'] + rest) == Seq::<char>::empty(),
        string_body(seq!['\\']) == Seq::<char>::empty(),
        c != '"' && c != '\\' ==> string_body(seq![c] + rest) == seq![c] + string_body(rest),
        string_body(seq!['\\', 'n'] + rest) == seq!['\n'] + string_body(rest),
        string_body(seq!['\\', 'r'] + rest) == seq!['\r'] + string_body(rest),
        string_body(seq!['\\', 't'] + rest) == seq!['\t'] + string_body(rest),
        c != 'n' && c != 'r' && c != 't' ==> string_body(seq!['\\', c] + rest) == seq![c]
            + string_body(rest),
{
    assert((seq![c] + rest).skip(1) =~= rest);
    assert((seq!['\\', 'n'] + rest).skip(2) =~= rest);
    assert((seq!['\\', 'r'] + rest).skip(2) =~= rest);
    assert((seq!['\\', 't'] + rest).skip(2) =~= rest);
    assert((seq!['\\', c] + rest).skip(2) =~= rest);
}

/// A string that JSON wrote and that is cut off before its closing quote is read as far as it
/// goes.
pub proof fn law_cut_off_string_is_kept(text: Seq<char>)
    requires
        forall|i: int|
            0 <= i < text.len() ==> (#[trigger] text[i] == '\n' || text[i] == '\r' || text[i]
                == '\t' || text[i] as int >= 0x20),
    ensures
        string_body(json_escaped(text)) == text,
    decreases text.len(),
{
    let s = json_escaped(text);
    if text.len() == 0 {
        assert(string_body(s) =~= text);
    } else {
        let c = text[0];
        let tail = text.skip(1);
        lemma_escaped_first(text);
        assert forall|i: int| 0 <= i < tail.len() implies (#[trigger] tail[i] == '\n' || tail[i]
            == '\r' || tail[i] == '\t' || tail[i] as int >= 0x20) by {
            assert(tail[i] == text[i + 1]);
        }
        law_cut_off_string_is_kept(tail);
        assert(c == '\n' || c == '\r' || c == '\t' || c as int >= 0x20);
        let after = json_escaped(tail);
        if json_escape(c).len() == 1 {
            assert(s[0] == c);
            assert(s.skip(1) =~= after);
        } else {
            assert(s[0] == '\\');
            assert(unescaped(s[1]) == c);
            assert(s.skip(2) =~= after);
        }
        assert(string_body(s) =~= text);
    }
}

/// A converted text that is cut off before its closing quote is read as far as it goes.
pub proof fn law_cut_off_converted_is_kept(converted: Seq<char>)
    requires
        forall|i: int|
            0 <= i < converted.len() ==> (#[trigger] converted[i] == '\n' || converted[i] == '\r'
                || converted[i] == '\t' || converted[i] as int >= 0x20),
    ensures
        string_field("{\"converted\":\""@ + json_escaped(converted), "converted"@) == Some(
            converted,
        ),
{
    lemma_converted_field(json_escaped(converted));
    law_cut_off_string_is_kept(converted);
}

proof fn lemma_converted_field(body: Seq<char>)
    ensures
        string_field("{\"converted\":\""@ + body, "converted"@) == Some(string_body(body)),
{
    reveal_strlit("{\"converted\":\"");
    reveal_strlit("converted");
    let text = "{\"converted\":\""@ + body;
    let marker = seq!['"'] + "converted"@ + seq!['"'];
    let none = Seq::<char>::empty();
    let value = seq!['"'] + body;
    let behind = none + seq![':'] + (none + value);
    assert(text =~= seq!['{'] + marker + behind);
    assert forall|j: int| 0 <= j < seq!['{'].len() implies #[trigger] text.subrange(
        j,
        j + marker.len(),
    ) != marker by {
        assert(text.subrange(j, j + marker.len())[0] == '{');
    }
    law_find(seq!['{'], marker, behind);
    assert(text.skip(1 + marker.len() as int) =~= behind);
    lemma_value_behind(none, none, value);
    assert(value.skip(1) =~= body);
}

/// The literal of a number field is what stands behind its colon up to the first character that
/// is neither a digit, a point nor a minus; it counts where it reads as a floating-point number.
pub proof fn law_number_field(
    before: Seq<char>,
    field: Seq<char>,
    gap: Seq<char>,
    space: Seq<char>,
    literal: Seq<char>,
    rest: Seq<char>,
)
    requires
        forall|i: int| 0 <= i < gap.len() ==> #[trigger] gap[i] != ':',
        forall|i: int| 0 <= i < space.len() ==> is_white_space(#[trigger] space[i]),
        forall|i: int|
            0 <= i < literal.len() ==> ('0' <= #[trigger] literal[i] <= '9' || literal[i] == '.'
                || literal[i] == '-'),
        rest.len() > 0 ==> !('0' <= rest[0] <= '9') && rest[0] != '.' && rest[0] != '-',
        literal.len() == 0 && rest.len() > 0 ==> !is_white_space(rest[0]),
        forall|j: int|
            0 <= j < before.len() ==> #[trigger] (before + (seq!['"'] + field + seq!['"']) + (gap
                + seq![':'] + (space + (literal + rest)))).subrange(j, j + (field.len() + 2))
                != seq!['"'] + field + seq!['"'],
    ensures
        is_float_literal(literal) ==> number_field(
            before + (seq!['"'] + field + seq!['"']) + (gap + seq![':'] + (space + (literal
                + rest))),
            field,
        ) == Some(literal),
        !is_float_literal(literal) ==> number_field(
            before + (seq!['"'] + field + seq!['"']) + (gap + seq![':'] + (space + (literal
                + rest))),
            field,
        ) is None,
{
    let marker = seq!['"'] + field + seq!['"'];
    let value = literal + rest;
    let behind = gap + seq![':'] + (space + value);
    let text = before + marker + behind;
    assert(marker.len() == field.len() + 2);
    law_find(before, marker, behind);
    assert(text.skip((before.len() + marker.len()) as int) =~= behind);
    if literal.len() > 0 {
        assert(value[0] == literal[0]);
    }
    lemma_value_behind(gap, space, value);
    lemma_number_len(literal, rest);
    assert(value.take(literal.len() as int) =~= literal);
}

proof fn lemma_number_len(literal: Seq<char>, rest: Seq<char>)
    requires
        forall|i: int| 0 <= i < literal.len() ==> is_number_char(#[trigger] literal[i]),
        rest.len() > 0 ==> !is_number_char(rest[0]),
    ensures
        number_len(literal + rest) == literal.len(),
    decreases literal.len(),
{
    let s = literal + rest;
    if literal.len() == 0 {
        assert(s =~= rest);
    } else {
        let tail = literal.skip(1);
        assert forall|i: int| 0 <= i < tail.len() implies is_number_char(#[trigger] tail[i]) by {
            assert(tail[i] == literal[i + 1]);
        }
        lemma_number_len(tail, rest);
        assert(is_number_char(literal[0]));
        assert(s[0] == literal[0]);
        assert(s.skip(1) =~= tail + rest);
    }
}

/// A repaired answer holds the fields as they were read: the converted text, and the refined one
/// wherever it can be read, with or without a confidence. The converted text stands in for a
/// refined one only where that cannot be read.
pub proof fn law_repair_keeps_the_fields(
    text: Seq<char>,
    confidence: Option<Confidence>,
    converted: Seq<char>,
    refined: Seq<char>,
)
    requires
        string_field(text, "converted"@) == Some(converted),
        string_field(text, "refined"@) is None ==> refined == converted,
        string_field(text, "refined"@) is Some ==> string_field(text, "refined"@) == Some(refined),
    ensures
        (exists|i: int| 0 <= i < converted.len() && !is_white_space(#[trigger] converted[i])) && (
        exists|i: int| 0 <= i < refined.len() && !is_white_space(#[trigger] refined[i])) ==> {
            &&& repaired_response(text, confidence) is Ok
            &&& repaired_response(text, confidence)->Ok_0.converted == converted
            &&& repaired_response(text, confidence)->Ok_0.refined == refined
            &&& number_field(text, "confidence"@) is None || confidence is None
                ==> repaired_response(text, confidence)->Ok_0.confidence.bits == 0x3f00_0000
            &&& number_field(text, "confidence"@) is Some && confidence is Some
                ==> repaired_response(text, confidence)->Ok_0.confidence
                == confidence->0.clamped_spec()
        },
        (forall|i: int| 0 <= i < converted.len() ==> is_white_space(#[trigger] converted[i])) || (
        forall|i: int| 0 <= i < refined.len() ==> is_white_space(#[trigger] refined[i]))
            ==> repaired_response(text, confidence) == Err::<ResponseView, _>(
            ResponseError::RepairedEmpty,
        ),
{
}

/// An answer with both texts, cut off anywhere behind the refined one, is repaired to just these
/// texts.
pub proof fn law_cut_off_answer_is_repaired(
    converted: Seq<char>,
    refined: Seq<char>,
    rest: Seq<char>,
    confidence: Option<Confidence>,
)
    requires
        forall|i: int|
            0 <= i < converted.len() ==> (#[trigger] converted[i] == '\n' || converted[i] == '\r'
                || converted[i] == '\t' || converted[i] as int >= 0x20),
        forall|i: int|
            0 <= i < refined.len() ==> (#[trigger] refined[i] == '\n' || refined[i] == '\r'
                || refined[i] == '\t' || refined[i] as int >= 0x20),
        exists|i: int| 0 <= i < converted.len() && !is_white_space(#[trigger] converted[i]),
        exists|i: int| 0 <= i < refined.len() && !is_white_space(#[trigger] refined[i]),
    ensures
        ({
            let text = "{\"converted\":\""@ + json_escaped(converted) + "\",\"refined\":\""@ + (
            json_escaped(refined) + seq!['"'] + rest);
            &&& repaired_response(text, confidence) is Ok
            &&& repaired_response(text, confidence)->Ok_0.converted == converted
            &&& repaired_response(text, confidence)->Ok_0.refined == refined
        }),
{
    let text = "{\"converted\":\""@ + json_escaped(converted) + "\",\"refined\":\""@ + (
    json_escaped(refined) + seq!['"'] + rest);
    law_refined_is_read_back(converted, refined, rest);
    reveal_strlit("\",\"refined\":\"");
    let more = "\",\"refined\":\""@.skip(1) + (json_escaped(refined) + seq!['"'] + rest);
    let body = json_escaped(converted) + seq!['"'] + more;
    assert(text =~= "{\"converted\":\""@ + body);
    lemma_converted_field(body);
    law_string_body_reads_json(converted, more);
    law_repair_keeps_the_fields(text, confidence, converted, refined);
}

/// A text without a converted field cannot be repaired.
pub proof fn law_repair_needs_converted(text: Seq<char>, confidence: Option<Confidence>)
    requires
        string_field(text, "converted"@) is None,
    ensures
        repaired_response(text, confidence) == Err::<ResponseView, _>(
            ResponseError::MissingConverted,
        ),
{
}

/// An answer that decodes is taken as it is but for its confidence, which is clamped; one with a
/// blank text is refused, and the converted text is looked at first.
pub proof fn law_parsed_answer_is_kept(text: Seq<char>, answer: TransformResponse)
    requires
        object_in(text) is Ok,
    ensures
        (exists|i: int|
            0 <= i < answer.converted@.len() && !is_white_space(#[trigger] answer.converted@[i]))
            && (exists|i: int|
            0 <= i < answer.refined@.len() && !is_white_space(#[trigger] answer.refined@[i])) ==> {
            &&& parsed_response(text, Ok(answer)) is Ok
            &&& parsed_response(text, Ok(answer))->Ok_0.converted@ == answer.converted@
            &&& parsed_response(text, Ok(answer))->Ok_0.refined@ == answer.refined@
            &&& parsed_response(text, Ok(answer))->Ok_0.confidence
                == answer.confidence.clamped_spec()
        },
        (forall|i: int|
            0 <= i < answer.converted@.len() ==> is_white_space(#[trigger] answer.converted@[i]))
            ==> parsed_response(text, Ok(answer)) == Err::<TransformResponse, _>(
            ResponseError::ConvertedEmpty,
        ),
        (exists|i: int|
            0 <= i < answer.converted@.len() && !is_white_space(#[trigger] answer.converted@[i]))
            && (forall|i: int|
            0 <= i < answer.refined@.len() ==> is_white_space(#[trigger] answer.refined@[i]))
            ==> parsed_response(text, Ok(answer)) == Err::<TransformResponse, _>(
            ResponseError::RefinedEmpty,
        ),
{
}

/// What parses is the answer; only what does not parse is repaired, and only where that fails too
/// there is none.
pub proof fn law_parsing_comes_first(
    full_json: Seq<char>,
    decoded: Result<TransformResponse, String>,
    confidence: Option<Confidence>,
)
    ensures
        parsed_response(full_json, decoded) matches Ok(answer) ==> output_answer(
            full_json,
            decoded,
            confidence,
        ) == Ok::<_, Seq<char>>(answer@),
        parsed_response(full_json, decoded) is Err && repaired_response(full_json, confidence) is Ok
            ==> output_answer(full_json, decoded, confidence) == Ok::<_, Seq<char>>(
            repaired_response(full_json, confidence)->Ok_0,
        ),
        parsed_response(full_json, decoded) is Err && repaired_response(full_json, confidence)
            is Err ==> output_answer(full_json, decoded, confidence) is Err,
{
}

/// Output may be complete exactly where it holds a closing brace and the name of the refined
/// field in quotes, wherever they stand.
pub proof fn law_may_be_complete(generated: Seq<char>)
    ensures
        may_be_complete(generated) <==> (exists|i: int|
            0 <= i < generated.len() && #[trigger] generated[i] == '}') && (exists|
            before: Seq<char>,
            after: Seq<char>,
        |
            generated == #[trigger] (before + "\"refined\""@ + after)),
{
    reveal_strlit("}");
    law_contains(generated, "}"@);
    law_contains(generated, "\"refined\""@);
    if exists|i: int| 0 <= i < generated.len() && #[trigger] generated[i] == '}' {
        let i = choose|i: int| 0 <= i < generated.len() && #[trigger] generated[i] == '}';
        assert(generated =~= generated.take(i) + "}"@ + generated.skip(i + 1));
    }
    if contains(generated, "}"@) {
        let (x, y) = choose|x: Seq<char>, y: Seq<char>| generated == #[trigger] (x + "}"@ + y);
        assert(generated[x.len() as int] == '}');
    }
}

/// A field whose name stands nowhere in quotes cannot be read, nor can one with no colon behind
/// its name, nor a string where something else than a quote comes first.
pub proof fn law_field_needs_name_and_value(
    text: Seq<char>,
    before: Seq<char>,
    field: Seq<char>,
    gap: Seq<char>,
    space: Seq<char>,
    value: Seq<char>,
)
    requires
        forall|i: int| 0 <= i < gap.len() ==> #[trigger] gap[i] != ':',
        forall|i: int| 0 <= i < space.len() ==> is_white_space(#[trigger] space[i]),
        value.len() > 0 ==> !is_white_space(value[0]) && value[0] != '"',
    ensures
        (forall|x: Seq<char>, y: Seq<char>|
            text != #[trigger] (x + (seq!['"'] + field + seq!['"']) + y)) ==> string_field(
            text,
            field,
        ) is None && number_field(text, field) is None,
        text == before + (seq!['"'] + field + seq!['"']) + gap && (forall|j: int|
            0 <= j < before.len() ==> #[trigger] text.subrange(j, j + (field.len() + 2))
                != seq!['"'] + field + seq!['"']) ==> string_field(text, field) is None
            && number_field(text, field) is None,
        text == before + (seq!['"'] + field + seq!['"']) + (gap + seq![':'] + (space + value)) && (
        forall|j: int|
            0 <= j < before.len() ==> #[trigger] text.subrange(j, j + (field.len() + 2))
                != seq!['"'] + field + seq!['"']) ==> string_field(text, field) is None,
{
    let marker = seq!['"'] + field + seq!['"'];
    assert(marker.len() == field.len() + 2);
    law_contains(text, marker);
    if text == before + marker + gap && (forall|j: int|
        0 <= j < before.len() ==> #[trigger] text.subrange(j, j + (field.len() + 2)) != marker) {
        law_find(before, marker, gap);
        assert(text.skip((before.len() + marker.len()) as int) =~= gap);
        lemma_find(gap, seq![':']);
        if find(gap, seq![':']) is Some {
            let k = find(gap, seq![':'])->0;
            assert(gap.subrange(k, k + 1)[0] == ':');
        }
    }
    let behind = gap + seq![':'] + (space + value);
    if text == before + marker + behind && (forall|j: int|
        0 <= j < before.len() ==> #[trigger] text.subrange(j, j + (field.len() + 2)) != marker) {
        law_find(before, marker, behind);
        assert(text.skip((before.len() + marker.len()) as int) =~= behind);
        lemma_value_behind(gap, space, value);
    }
}

/// What is said of a failure gives the parser's words, and the model's output, in full.
pub proof fn law_failures_give_their_reasons(reason: String, full_json: Seq<char>)
    ensures
        response_error_text(ResponseError::Decode(reason)) == "parsing response JSON: "@ + reason@,
        no_answer_text(full_json, ResponseError::MissingConverted)
            == "model did not emit valid response JSON: "@ + debug_text(full_json) + ": "@
            + "missing converted field"@,
{
}

/// The text of a token is appended in full, and nothing else changes but the count.
pub proof fn law_token_is_appended(
    generation: GenerationView,
    piece: Seq<char>,
    pieces: Seq<Seq<char>>,
)
    ensures
        generation.pushed(piece).generated == generation.generated + piece,
        generation.pushed(piece).produced == generation.produced + 1,
        generation.pushed(piece).max_tokens == generation.max_tokens,
        generation.pushed(piece).finished == generation.finished,
        concatenated(seq![]).len() == 0,
        concatenated(pieces + seq![piece]) == concatenated(pieces) + piece,
{
    assert((pieces + seq![piece]).drop_last() =~= pieces);
    assert((pieces + seq![piece]).last() == piece);
}

/// A piece never exceeds the context nor 512 tokens, and is as large as these allow.
pub proof fn law_piece_fits(ctx_size: u32)
    ensures
        piece_size(ctx_size) <= ctx_size,
        piece_size(ctx_size) <= 512,
        piece_size(ctx_size) == ctx_size || piece_size(ctx_size) == 512,
{
}

/// A string field is read from the first place where its name stands in quotes, behind the first
/// colon there and any white space, as the string whose characters follow the opening quote.
pub proof fn law_field_is_its_string(
    before: Seq<char>,
    field: Seq<char>,
    gap: Seq<char>,
    space: Seq<char>,
    body: Seq<char>,
)
    requires
        forall|i: int| 0 <= i < gap.len() ==> #[trigger] gap[i] != ':',
        forall|i: int| 0 <= i < space.len() ==> is_white_space(#[trigger] space[i]),
        forall|j: int|
            0 <= j < before.len() ==> #[trigger] (before + (seq!['"'] + field + seq!['"']) + (gap
                + seq![':'] + (space + (seq!['"'] + body)))).subrange(j, j + (field.len() + 2))
                != seq!['"'] + field + seq!['"'],
    ensures
        string_field(
            before + (seq!['"'] + field + seq!['"']) + (gap + seq![':'] + (space + (seq!['"']
                + body))),
            field,
        ) == Some(string_body(body)),
{
    let marker = seq!['"'] + field + seq!['"'];
    let value = seq!['"'] + body;
    let behind = gap + seq![':'] + (space + value);
    let text = before + marker + behind;
    assert(marker.len() == field.len() + 2);
    law_find(before, marker, behind);
    assert(text.skip((before.len() + marker.len()) as int) =~= behind);
    lemma_value_behind(gap, space, value);
    assert(value.skip(1) =~= body);
}

} // verus!
