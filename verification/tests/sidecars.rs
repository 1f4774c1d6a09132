use romajiagent::apple_sidecar::{
    after_structured, after_text, extract_json_object, finished_response,
    parse_transform_response, with_confidence_in_range, ExtractError, Inference,
};
use romajiagent::config::{sidecar_args, AppConfig};
use romajiagent::lfm_output::{
    answer_in_output, extract_json_number_field, extract_json_string_field, last_position, parse_response,
    plan_batches, repair_response, BatchPlan, Generation, InferError,
    ResponseError,
};
use romajiagent::lfm_prompt::{build_prompt, filter_memory, marked_lines, prompt_with, term_stands_in};
use romajiagent::options::{required_value, OptionsError};
use romajiagent::protocol::{
    Confidence, Timestamp, TransformContext, TransformRequest, TransformResponse, HALF, ONE,
};
use romajiagent::response::{object_text, parse_transform_response_text, ObjectError};
use romajiagent::sidecar::{answer_line, decoded_answer, sidecar_answer, SidecarError};
use romajiagent::{apple_sidecar, lfm_sidecar};

fn args(texts: &[&str]) -> Vec<String> {
    texts.iter().map(|text| text.to_string()).collect()
}

fn confidence(value: f32) -> Confidence {
    Confidence { bits: value.to_bits() }
}

fn response(converted: &str, refined: &str, value: f32) -> TransformResponse {
    TransformResponse {
        converted: converted.into(),
        refined: refined.into(),
        confidence: confidence(value),
    }
}

/// Decodes JSON text the way the app does.
fn decode(json: &str) -> Result<TransformResponse, String> {
    let value: serde_json::Value = serde_json::from_str(json).map_err(|e| e.to_string())?;
    let text = |name: &str| -> Result<String, String> {
        value[name].as_str().map(str::to_string).ok_or(format!("missing field `{name}`"))
    };
    let number = value["confidence"].as_f64().ok_or("missing field `confidence`")?;
    Ok(response(&text("converted")?, &text("refined")?, number as f32))
}

fn parse(text: &str) -> Result<TransformResponse, ResponseError> {
    let decoded = match object_text(text) {
        Ok(object) => decode(&object),
        Err(_) => Err(String::new()),
    };
    parse_response(text, decoded)
}

fn repair(text: &str) -> Result<TransformResponse, ResponseError> {
    let number = extract_json_number_field(text, "confidence");
    repair_response(text, number.map(|literal| confidence(literal.parse().unwrap())))
}

fn parse_codex(text: &str) -> Result<TransformResponse, String> {
    let object = match object_text(text.trim()) {
        Ok(object) => decode(&object),
        Err(_) => Err(String::new()),
    };
    parse_transform_response_text(text, decode(text.trim()), object)
}

fn request(raw: &str, memory: &str, kana: Option<&str>) -> TransformRequest {
    TransformRequest {
        raw: raw.into(),
        memory: memory.into(),
        context: TransformContext {
            timestamp: Timestamp { seconds: 0, nanos: 0 },
            os: "macos".into(),
            app_name: None,
            process_id: None,
            window_title: None,
        },
        kana_candidate: kana.map(str::to_string),
    }
}

#[test]
fn parses_json_from_model_text() {
    let response = parse(
        r#"Here is JSON: {"converted":"今日 mtg","refined":"今日のミーティング。","confidence":1.2}"#,
    )
    .unwrap();

    assert_eq!(response.converted, "今日 mtg");
    assert_eq!(response.refined, "今日のミーティング。");
    assert_eq!(f32::from_bits(response.confidence.bits), 1.0);
}

#[test]
fn repairs_partial_json_from_model_text() {
    let response = repair(
        r#"{"converted":"あすという着が定着してしまった","refined":"あすという着が定着してしまった","confidence":100"#,
    )
    .unwrap();

    assert_eq!(response.converted, "あすという着が定着してしまった");
    assert_eq!(response.refined, "あすという着が定着してしまった");
    assert_eq!(f32::from_bits(response.confidence.bits), 1.0);
}

#[test]
fn prompt_contains_request_fields() {
    let request = request("kyou mtg", "mtg -> ミーティング", Some("きょう mtg"));
    let prompt = build_prompt(&request);
    assert!(prompt.contains("kyou mtg"));
    assert!(prompt.contains("mtg -> ミーティング"));
}

#[test]
fn parses_transform_response_from_wrapped_text() {
    let response = parse_codex(
        r#"Here is the JSON:
{"converted":"明日","refined":"明日です。","confidence":0.8}
Done."#,
    )
    .unwrap();

    assert_eq!(response.converted, "明日");
    assert_eq!(response.refined, "明日です。");
    assert_eq!(f32::from_bits(response.confidence.bits), 0.8);
}

#[test]
fn codex_text_without_an_object_is_refused() {
    assert_eq!(
        parse_codex("  no \"json\" ").unwrap_err(),
        "invalid codex transform json: missing json object; text=\"no \\\"json\\\"\""
    );
    assert_eq!(
        parse_codex("{").unwrap_err(),
        "invalid codex transform json: missing json object; text=\"{\""
    );
    let error = parse_codex("x {} y").unwrap_err();
    assert!(error.starts_with("invalid codex transform json: missing field"));
    assert!(error.ends_with("; text=\"x {} y\""));
}

#[test]
fn codex_text_that_decodes_is_taken_whole() {
    let json = r#"{"converted":"a","refined":"b","confidence":0.5}"#;
    assert_eq!(parse_codex(&format!(" {json}\n")), Ok(response("a", "b", 0.5)));
}

#[test]
fn reply_with_braces_out_of_order_is_an_error() {
    let text = "done } but no { object";
    assert_eq!(
        parse_codex(text).unwrap_err(),
        "invalid codex transform json: missing json object; text=\"done } but no { object\""
    );
    assert_eq!(parse(text), Err(ResponseError::MissingObjectEnd));
    let failed: Result<TransformResponse, String> = Err("bad".into());
    assert_eq!(
        extract_json_object(text, &failed, Err(String::new())),
        Err(ExtractError::MissingEnd)
    );
    assert_eq!(
        after_text("no", Ok(text.into()), &failed, Err(String::new())).unwrap_err(),
        "structured response failed: no; text response was not valid transform JSON: missing json object end"
    );
}

#[test]
fn object_is_found_between_the_braces() {
    assert_eq!(object_text("}x{"), Err(ObjectError::MissingEnd));
    assert_eq!(object_text("}x{}"), Ok("{}".to_string()));
    assert_eq!(object_text("}{"), Ok(String::new()));
    assert_eq!(object_text("a{b}c}d"), Ok("{b}c}".to_string()));
    assert_eq!(object_text("}"), Err(ObjectError::MissingStart));
    assert_eq!(object_text("{"), Err(ObjectError::MissingEnd));
}

#[test]
fn model_text_errors_are_told_apart() {
    let message = |text: &str| parse(text).unwrap_err().message();
    assert_eq!(message("none"), "missing JSON object");
    assert_eq!(message("{ none"), "missing JSON object end");
    assert!(message("{x}").starts_with("parsing response JSON: "));
    assert_eq!(
        message(r#"{"converted":" ","refined":"b","confidence":1}"#),
        "converted is empty"
    );
    assert_eq!(
        message(r#"{"converted":"a","refined":"　","confidence":1}"#),
        "refined is empty"
    );
}

#[test]
fn repair_errors_are_told_apart() {
    assert_eq!(repair("{}").unwrap_err().message(), "missing converted field");
    assert_eq!(repair(r#"{"converted":1}"#).unwrap_err(), ResponseError::MissingConverted);
    assert_eq!(
        repair(r#"{"converted":" ","refined":"b""#).unwrap_err().message(),
        "repaired response is empty"
    );
    assert_eq!(
        repair(r#"{"converted":"a","refined":"""#).unwrap_err(),
        ResponseError::RepairedEmpty
    );
}

#[test]
fn repair_fills_in_what_is_missing() {
    let repaired = repair(r#"{"converted":"今日は"#).unwrap();
    assert_eq!(repaired.converted, "今日は");
    assert_eq!(repaired.refined, "今日は");
    assert_eq!(repaired.confidence.bits, HALF);
    let repaired = repair(r#"{"converted":"a","confidence":-3,"refined":"b"#).unwrap();
    assert_eq!(repaired.refined, "b");
    assert_eq!(repaired.confidence.bits, 0);
}

#[test]
fn string_fields_are_read_with_their_escapes() {
    let text = r#"{"a": "x\"y\\z\/\n\r\tA", "b":"open"#;
    assert_eq!(extract_json_string_field(text, "a").unwrap(), "x\"y\\z/\n\r\tA");
    assert_eq!(extract_json_string_field(r#"{"a":"\u0041"}"#, "a").unwrap(), "u0041");
    assert_eq!(extract_json_string_field(text, "b").unwrap(), "open");
    assert_eq!(extract_json_string_field(text, "c"), None);
    assert_eq!(extract_json_string_field(r#""a""#, "a"), None);
    assert_eq!(extract_json_string_field(r#""a":"#, "a"), None);
    assert_eq!(extract_json_string_field(r#""a": 1"#, "a"), None);
    assert_eq!(extract_json_string_field("\"a\":\u{3000}\"x\\", "a").unwrap(), "x");
}

#[test]
fn number_fields_are_read_as_far_as_they_go() {
    let number = |text: &str| extract_json_number_field(text, "n");
    assert_eq!(number(r#"{"n": 0.95}"#).unwrap(), "0.95");
    assert_eq!(number(r#"{"n":-1"#).unwrap(), "-1");
    assert_eq!(number(r#"{"n":1e5}"#).unwrap(), "1");
    assert_eq!(number(r#"{"n":1.2.3}"#), None);
    assert_eq!(number(r#"{"n":"1"}"#), None);
    assert_eq!(number(r#"{"n":}"#), None);
    assert_eq!(number("{}"), None);
}

#[test]
fn strings_that_json_wrote_are_read_back() {
    for text in ["今日", "a\"b\\c/d", "line\nfeed\ttab\r", "", "\u{7f}\u{2028}😀"] {
        let json = serde_json::Value::String(text.to_string()).to_string();
        let document = format!("{{\"converted\":{json},\"refined\":1");
        assert_eq!(extract_json_string_field(&document, "converted").unwrap(), text);
    }
}

#[test]
fn generation_stops_when_the_answer_parses() {
    let mut generation = Generation::new(10);
    assert!(generation.wants_token());
    assert_eq!(generation.push("今日\",\"refined\":\"今日。"), None);
    assert_eq!(generation.push("\""), None);
    let json = generation.push(",\"confidence\":0.9}").unwrap();
    assert_eq!(json, r#"{"converted":"今日","refined":"今日。","confidence":0.9}"#);
    assert_eq!(generation.full_json(), json);
    let parsed = parse(&json);
    generation.parsed(&parsed);
    assert!(!generation.wants_token());
    assert_eq!(generation.produced, 3);
}

#[test]
fn generation_stops_at_its_limit_and_at_the_end() {
    let mut generation = Generation::new(1);
    assert_eq!(generation.push("}"), None);
    assert!(!generation.wants_token());
    let mut generation = Generation::new(5);
    generation.parsed(&Err(ResponseError::MissingObject));
    assert!(generation.wants_token());
    generation.end();
    assert!(!generation.wants_token());
    assert!(!Generation::new(0).wants_token());
}

#[test]
fn unusable_output_is_reported() {
    let answer = |text: &str| {
        let object = object_text(text).unwrap_or_default();
        let number = extract_json_number_field(text, "confidence");
        answer_in_output(text, decode(&object), number.map(|n| confidence(n.parse().unwrap())))
    };
    assert_eq!(
        answer("{\"converted\":\"").unwrap_err(),
        "model did not emit valid response JSON: \"{\\\"converted\\\":\\\"\": repaired response is empty"
    );
    assert_eq!(answer("{\"converted\":\"x"), Ok(response("x", "x", 0.5)));
    assert_eq!(
        answer(r#"{"converted":"x","refined":"y","confidence":0.25}"#),
        Ok(response("x", "y", 0.25))
    );
    assert_eq!(
        answer(r#"{"converted":"x","refined":"y","confidence":9"#),
        Ok(response("x", "y", 1.0))
    );
    assert_eq!(
        answer(r#"{"converted":"x","refined":" ","confidence":1}"#).unwrap_err().rsplit(": ").next(),
        Some("repaired response is empty")
    );
}

#[test]
fn repaired_confidence_needs_a_literal() {
    let text = r#"{"converted":"x"#;
    assert_eq!(repair_response(text, Some(confidence(0.9))), Ok(response("x", "x", 0.5)));
}

#[test]
fn batches_fill_the_context() {
    assert_eq!(
        plan_batches(3, 2048),
        Ok(BatchPlan { n_ctx: 2048, n_batch: 2048, n_ubatch: 512 })
    );
    assert_eq!(plan_batches(3, 100), Ok(BatchPlan { n_ctx: 100, n_batch: 100, n_ubatch: 100 }));
    assert_eq!(plan_batches(0, 0).unwrap_err().message(), "prompt produced no tokens");
    assert_eq!(plan_batches(1, 0).unwrap_err().message(), "ctx size is zero");
    assert_eq!(last_position(1), Ok(0));
    assert_eq!(last_position(0x8000_0000), Ok(i32::MAX));
    assert_eq!(last_position(0x8000_0001), Err(InferError::PositionOverflow));
    let std_error = i32::try_from(0x8000_0000usize).unwrap_err();
    assert_eq!(
        InferError::PositionOverflow.message(),
        format!("token position overflow: {std_error}")
    );
}

#[test]
fn memory_is_filtered_by_the_draft() {
    let memory = "# Terms\nMTG -> 会議\r\ntodo -> TODO\nÄrger -> 怒り\n-> x\n";
    assert_eq!(filter_memory(memory, "kyou mtg"), "MTG -> 会議");
    assert_eq!(filter_memory(memory, "ToDo to mtg"), "MTG -> 会議\ntodo -> TODO");
    assert_eq!(filter_memory(memory, "ÄRGER"), "Ärger -> 怒り");
    assert_eq!(filter_memory(memory, "kyou"), "");
    assert!(term_stands_in("mtg", "no mtg now"));
    assert!(!term_stands_in("", "x"));
    assert_eq!(marked_lines("a\nb\nc", &[true, false, true]), "a\nc");
}

#[test]
fn prompt_has_a_memory_section_only_where_it_applies() {
    let with = build_prompt(&request("kyou mtg", "mtg -> 会議\n", None));
    assert!(with.contains("faithfully.\n\nREPLACE: mtg -> 会議\n\nINPUT: sumimasen"));
    let without = build_prompt(&request("kyou", "mtg -> 会議\n", None));
    assert!(without.contains("faithfully.\n\nINPUT: sumimasen"));
    assert!(without.starts_with("<|startoftext|>Romaji to Japanese."));
    assert!(without.ends_with("\n\nINPUT: kyou\nOUTPUT: {\"converted\":\""));
    assert_eq!(prompt_with("kyou", ""), without);
}

#[test]
fn sidecar_answers_with_its_first_line() {
    let line = sidecar_answer(true, "exit status: 0", "  {\"a\":\"今日\"} \r\nrest".as_bytes(), b"");
    assert_eq!(line, Ok("{\"a\":\"今日\"}".to_string()));
    assert_eq!(sidecar_answer(true, "", b"\nx", b""), Ok(String::new()));
    assert_eq!(sidecar_answer(true, "", b"a\xffb", b""), Ok("a\u{fffd}b".to_string()));
    assert_eq!(answer_line(true, "", "one\ntwo", "noise"), Ok("one".to_string()));
}

#[test]
fn sidecar_failures_are_told_apart() {
    let message = |answer: Result<String, SidecarError>| answer.unwrap_err().message();
    assert_eq!(message(sidecar_answer(true, "", b"", b"x")), "sidecar produced no stdout");
    assert_eq!(
        message(sidecar_answer(false, "exit status: 1", b"{}", b" \n")),
        "sidecar exited with exit status: 1"
    );
    assert_eq!(
        message(sidecar_answer(false, "exit status: 1", b"{}", " 失敗 \n".as_bytes())),
        "sidecar exited with exit status: 1: 失敗"
    );
    assert_eq!(
        SidecarError::NotStarted("not found".into()).message(),
        "failed to start sidecar: not found"
    );
    assert_eq!(
        decoded_answer(Err("bad".into())).unwrap_err().message(),
        "invalid sidecar json: bad"
    );
    assert_eq!(decoded_answer(Ok(response("a", "b", 0.5))), Ok(response("a", "b", 0.5)));
}

#[test]
fn lfm_options_have_defaults() {
    let parsed = lfm_sidecar::SidecarOptions::parse(&args(&["--model", "m.gguf"])).unwrap();
    let expected = lfm_sidecar::SidecarOptions {
        model: "m.gguf".into(),
        ctx_size: 2048,
        max_tokens: 256,
        temperature: "0.1".into(),
        threads: None,
    };
    assert_eq!(parsed, lfm_sidecar::Invocation::Run(expected));
}

#[test]
fn lfm_options_are_read_in_order() {
    let parsed = lfm_sidecar::SidecarOptions::parse(&args(&[
        "--model=a", "--ctx-size", "16", "--max-tokens", "+8", "--temperature", "-1e1",
        "--threads", "-2", "--model", "b", "--ctx-size", "32",
    ]))
    .unwrap();
    let expected = lfm_sidecar::SidecarOptions {
        model: "b".into(),
        ctx_size: 32,
        max_tokens: 8,
        temperature: "-1e1".into(),
        threads: Some(-2),
    };
    assert_eq!(parsed, lfm_sidecar::Invocation::Run(expected));
    assert_eq!(
        lfm_sidecar::SidecarOptions::parse(&args(&["-h", "--nonsense"])),
        Ok(lfm_sidecar::Invocation::Help)
    );
}

#[test]
fn lfm_option_errors_are_told_apart() {
    let message = |texts: &[&str]| {
        lfm_sidecar::SidecarOptions::parse(&args(texts)).unwrap_err().message()
    };
    assert_eq!(message(&[]), "--model is required");
    assert_eq!(message(&["--model"]), "--model requires a value");
    assert_eq!(message(&["--what"]), "unknown argument: --what");
    assert_eq!(message(&["--ctx-size", ""]), "invalid --ctx-size: cannot parse integer from empty string");
    assert_eq!(message(&["--max-tokens", "-1"]), "invalid --max-tokens: invalid digit found in string");
    assert_eq!(
        message(&["--ctx-size", "4294967296"]),
        "invalid --ctx-size: number too large to fit in target type"
    );
    assert_eq!(
        message(&["--threads", "-2147483649"]),
        "invalid --threads: number too small to fit in target type"
    );
    assert_eq!(message(&["--temperature", "x"]), "invalid --temperature: invalid float literal");
    assert_eq!(
        message(&["--temperature", ""]),
        "invalid --temperature: cannot parse float from empty string"
    );
}

#[test]
fn lfm_options_are_checked() {
    let options = lfm_sidecar::SidecarOptions {
        model: "m".into(),
        ctx_size: 1,
        max_tokens: 0,
        temperature: "0".into(),
        threads: None,
    };
    assert_eq!(options.check(false).unwrap_err().message(), "model does not exist: m");
    assert_eq!(
        options.check(true).unwrap_err().message(),
        "--max-tokens must be greater than zero"
    );
    let options = lfm_sidecar::SidecarOptions { max_tokens: 1, ..options };
    assert_eq!(options.check(true), Ok(()));
    assert!(lfm_sidecar::usage().starts_with("Usage: romaji-agent-lfm-sidecar --model <path.gguf>"));
}

#[test]
fn configured_model_reaches_the_sidecar() {
    let config = AppConfig {
        sidecar_args: args(&["--max-tokens", "64"]),
        model_path: Some("/models/lfm.gguf".into()),
        ..Default::default()
    };
    match lfm_sidecar::SidecarOptions::parse(&sidecar_args(&config)) {
        Ok(lfm_sidecar::Invocation::Run(options)) => {
            assert_eq!(options.model, "/models/lfm.gguf");
            assert_eq!(options.max_tokens, 64);
        }
        other => panic!("expected options, got {other:?}"),
    }
}

#[test]
fn flag_values_are_required() {
    let args = args(&["--model", "m", "--threads"]);
    assert_eq!(required_value(&args, 0), Ok("m".to_string()));
    assert_eq!(
        required_value(&args, 2),
        Err(OptionsError::MissingValue("--threads".into()))
    );
}

#[test]
fn apple_options_are_read() {
    let parse = |texts: &[&str]| apple_sidecar::SidecarOptions::parse(&args(texts));
    let run = |max_tokens: u32, temperature: &str| {
        Ok(apple_sidecar::Invocation::Run(apple_sidecar::SidecarOptions {
            max_tokens,
            temperature: temperature.into(),
        }))
    };
    assert_eq!(parse(&[]), run(256, "0.1"));
    assert_eq!(parse(&["--max-tokens", "9", "--temperature", "1.5"]), run(9, "1.5"));
    assert_eq!(parse(&["--help"]), Ok(apple_sidecar::Invocation::Help));
    let message = |texts: &[&str]| parse(texts).unwrap_err().message();
    assert_eq!(message(&["--model", "x"]), "unknown argument: --model");
    assert_eq!(message(&["--max-tokens", "0"]), "--max-tokens must be greater than zero");
    assert_eq!(message(&["--temperature"]), "--temperature requires a value");
    let options = apple_sidecar::SidecarOptions { max_tokens: 1, temperature: "3".into() };
    assert_eq!(options.check(true), Ok(()));
    assert_eq!(
        options.check(false).unwrap_err().message(),
        "--temperature must be between 0.0 and 2.0"
    );
    assert!(apple_sidecar::usage().contains("romaji-agent-apple-fm-sidecar"));
}

#[test]
fn apple_prompt_holds_the_request() {
    let prompt = apple_sidecar::build_prompt(&request("kyou", "mtg -> 会議", Some("きょう")));
    assert!(prompt.starts_with("Convert the following romaji, typo-heavy"));
    assert!(prompt.ends_with("\nRaw:\nkyou\n\nKana candidate:\nきょう\n\n\nMemory:\nmtg -> 会議\n"));
    let prompt = apple_sidecar::build_prompt(&request("kyou", "", Some(" ")));
    assert!(prompt.ends_with("\nRaw:\nkyou\n\n\nMemory:\n\n"));
}

#[test]
fn apple_schema_asks_for_the_three_fields() {
    let schema: serde_json::Value =
        serde_json::from_str(&apple_sidecar::transform_response_schema_json()).unwrap();
    assert_eq!(schema["type"], "object");
    assert_eq!(schema["additionalProperties"], false);
    assert_eq!(schema["required"][0], "converted");
    assert_eq!(schema["required"][2], "confidence");
    assert_eq!(schema["properties"]["refined"]["type"], "string");
    assert_eq!(schema["properties"]["confidence"]["maximum"], 1.0);
    assert_eq!(schema.to_string(), apple_sidecar::transform_response_schema_json());
}

#[test]
fn apple_text_is_searched_for_an_object() {
    let failed: Result<TransformResponse, String> = Err("bad".into());
    let good = Ok(response("a", "b", 0.5));
    assert_eq!(extract_json_object(" {} ", &good, Err(String::new())), Ok("{}".to_string()));
    assert_eq!(extract_json_object("x {} y", &failed, good.clone()), Ok("{}".to_string()));
    assert_eq!(
        extract_json_object("x {} y", &failed, Err("inner".into())),
        Err(ExtractError::Invalid("inner".into()))
    );
    let message = |text: &str| {
        extract_json_object(text, &failed, Err(String::new())).unwrap_err().message()
    };
    assert_eq!(message("none"), "missing json object start");
    assert_eq!(message("{"), "missing json object end");
}

#[test]
fn apple_inference_asks_for_text_after_a_failure() {
    assert_eq!(after_structured(Ok("{}".into())), Inference::Structured("{}".into()));
    assert_eq!(after_structured(Err("no".into())), Inference::AskText("no".into()));
    let failed: Result<TransformResponse, String> = Err("bad".into());
    let good = Ok(response("a", "b", 0.5));
    assert_eq!(after_text("no", Ok("x{}".into()), &failed, good), Ok("{}".to_string()));
    assert_eq!(
        after_text("no", Err("busy".into()), &failed, Err(String::new())).unwrap_err(),
        "requesting text response after structured response failed: no: busy"
    );
    assert_eq!(
        after_text("no", Ok("x".into()), &failed, Err(String::new())).unwrap_err(),
        "structured response failed: no; text response was not valid transform JSON: missing json object start"
    );
}

#[test]
fn apple_answer_is_brought_into_range() {
    let finished = finished_response("{}", Ok(response("a", "b", 7.5))).unwrap();
    assert_eq!(finished.confidence.bits, ONE);
    assert_eq!(finished.converted, "a");
    assert_eq!(with_confidence_in_range(response("a", "b", -1.0)), response("a", "b", 0.0));
    assert_eq!(
        finished_response("{x", Err("why".into())).unwrap_err(),
        "invalid response json: {x: why"
    );
    assert_eq!(
        parse_transform_response("{}", Ok(response("a", "b", 0.5))),
        Ok(response("a", "b", 0.5))
    );
}
