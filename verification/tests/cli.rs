use romajiagent::cli::{
    kana_output, parse_command, parse_text_command, parse_transform_command, transform_report,
    usage, CliCommand, CliError, OutputMode,
};
use romajiagent::normalization::normalize_input;
use romajiagent::protocol::{Confidence, Timestamp, TransformContext, TransformResponse};
use romajiagent::transform::{do_transform, start_transform, StageTimings};

fn args(texts: &[&str]) -> Vec<String> {
    texts.iter().map(|text| text.to_string()).collect()
}

fn message(texts: &[&str]) -> String {
    parse_command(&args(texts)).unwrap_err().message()
}

#[test]
fn command_line_needs_a_known_command() {
    assert_eq!(parse_command(&[]), Err(CliError::MissingCommand));
    assert_eq!(message(&[]), "missing command");
    assert_eq!(message(&["kanaa"]), "unknown command: kanaa");
    for help in ["--help", "-h", "help"] {
        assert_eq!(parse_command(&args(&[help])), Ok(CliCommand::Help));
    }
}

#[test]
fn kana_prints_json_unless_told_otherwise() {
    assert_eq!(
        parse_command(&args(&["kana", "kyou", "wa"])),
        Ok(CliCommand::Kana(OutputMode::Json, "kyou wa".into()))
    );
    assert_eq!(
        parse_command(&args(&["kana", "kyou", "--text", "wa"])),
        Ok(CliCommand::Kana(OutputMode::Text, "kyou wa".into()))
    );
    assert_eq!(
        parse_text_command(&args(&["--text", "a", "--json"])),
        Ok(CliCommand::Kana(OutputMode::Json, "a".into()))
    );
}

#[test]
fn kana_requires_text() {
    assert_eq!(message(&["kana"]), "kana requires text");
    assert_eq!(message(&["kana", "--json"]), "kana requires text");
    assert_eq!(parse_command(&args(&["kana", "-h"])), Ok(CliCommand::Help));
}

#[test]
fn kana_takes_flags_of_a_transform_for_text() {
    assert_eq!(
        parse_text_command(&args(&["--stdin", "--save"])),
        Ok(CliCommand::Kana(OutputMode::Json, "--stdin --save".into()))
    );
}

#[test]
fn transform_takes_text_or_lines() {
    assert_eq!(
        parse_command(&args(&["transform", "kyou", "mtg"])),
        Ok(CliCommand::Transform(OutputMode::Json, false, "kyou mtg".into()))
    );
    assert_eq!(
        parse_command(&args(&["transform", "--save", "--text", "kyou"])),
        Ok(CliCommand::Transform(OutputMode::Text, true, "kyou".into()))
    );
    assert_eq!(
        parse_transform_command(&args(&["--stdin", "--save"])),
        Ok(CliCommand::TransformLines(OutputMode::Json, true))
    );
    assert_eq!(
        parse_transform_command(&args(&["--stdin", "--text", "--json", "--text"])),
        Ok(CliCommand::TransformLines(OutputMode::Text, false))
    );
}

#[test]
fn transform_requires_exactly_one_input() {
    assert_eq!(message(&["transform"]), "transform requires text or --stdin");
    assert_eq!(message(&["transform", "--save"]), "transform requires text or --stdin");
    assert_eq!(
        message(&["transform", "--stdin", "kyou"]),
        "transform --stdin does not accept positional text"
    );
    assert_eq!(
        parse_command(&args(&["transform", "--stdin", "kyou", "--help"])),
        Ok(CliCommand::Help)
    );
}

#[test]
fn unknown_flags_are_text() {
    assert_eq!(
        parse_transform_command(&args(&["--verbose", "", "x"])),
        Ok(CliCommand::Transform(OutputMode::Json, false, "--verbose  x".into()))
    );
}

#[test]
fn usage_names_both_commands() {
    assert_eq!(
        usage(),
        "Usage:\n  romaji-agent-cli kana [--json|--text] <text>\n  romaji-agent-cli transform [--json|--text] [--save] <text>\n  romaji-agent-cli transform [--json|--text] [--save] --stdin"
    );
}

#[test]
fn kana_output_is_json_or_the_reading() {
    let input = normalize_input(" sushi \"x\"\n");
    assert_eq!(kana_output(OutputMode::Text, &input), "すし \"x\"");
    assert_eq!(
        kana_output(OutputMode::Json, &input),
        r#"{"raw":" sushi \"x\"\n","normalized_raw":"sushi \"x\"","kana_candidate":"すし \"x\""}"#
    );
}

#[test]
fn report_lists_the_stages() {
    let context = TransformContext {
        timestamp: Timestamp { seconds: 0, nanos: 0 },
        os: "linux".into(),
        app_name: None,
        process_id: None,
        window_title: None,
    };
    let answer = TransformResponse {
        converted: "今日".into(),
        refined: "今日。".into(),
        confidence: Confidence { bits: 0.9f32.to_bits() },
    };
    let pending = start_transform(" kyou", String::new(), context);
    let result = do_transform(pending, Ok(answer), "id".into(), StageTimings::default());
    let confidence = format!("{:.2}", f32::from_bits(result.confidence.bits));
    assert_eq!(
        transform_report(&result, &confidence),
        "raw:  kyou\nnormalized_raw: kyou\nkana_candidate: きょう\nconverted: 今日\nrefined: 今日。\nconfidence: 0.90\n"
    );
}
