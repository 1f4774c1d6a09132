use romajiagent::clock::{day_file, moment_text, ops_file_name};
use romajiagent::fallback::fallback_convert;
use romajiagent::layout::default_memory;
use romajiagent::normalization::normalize_input;
use romajiagent::protocol::{
    Confidence, Timestamp, TransformContext, TransformResponse, HALF, ONE, QUARTER,
};
use romajiagent::records::save_plan;
use romajiagent::transform::{
    accept_outcome, accept_progress, accept_transform, do_transform, do_transform_with_save,
    ensure_command_succeeded, next_accept_step, operation_kind, operation_line, paste_command, response_or_fallback,
    row_created_at, save_transform, start_transform, transform_request, AcceptProgress, AcceptStep,
    StageTimings, TransformResult,
};

fn context() -> TransformContext {
    TransformContext {
        timestamp: Timestamp { seconds: 1_780_876_800, nanos: 5_000_000 },
        os: "linux".into(),
        app_name: Some("editor".into()),
        process_id: Some(7),
        window_title: None,
    }
}

fn answer() -> TransformResponse {
    TransformResponse {
        converted: "今日".into(),
        refined: "今日です。".into(),
        confidence: Confidence { bits: 0.9f32.to_bits() },
    }
}

fn result() -> TransformResult {
    let pending = start_transform(" kyou  mtg ", "mtg -> 会議".into(), context());
    do_transform(pending, Ok(answer()), "id".into(), StageTimings::default())
}

#[test]
fn fallback_convert_applies_memory_terms() {
    let memory = "# Terminology\nmtg -> ミーティング\ntodo -> TODO\n";
    let response = fallback_convert("kyou mtg de todo", memory);
    assert_eq!(response.converted, "kyou ミーティング de TODO");
    assert_eq!(response.refined, "kyou ミーティング de TODO。");
}

#[test]
fn fallback_confidence_is_a_quarter() {
    let response = fallback_convert("a", "");
    assert_eq!(response.confidence.bits, QUARTER);
    assert_eq!(f32::from_bits(QUARTER), 0.25);
    assert_eq!(f32::from_bits(HALF), 0.5);
    assert_eq!(f32::from_bits(ONE), 1.0);
}

#[test]
fn fallback_applies_rules_in_order() {
    let response = fallback_convert("a", "a -> b\nb -> c\n");
    assert_eq!(response.converted, "c");
    let response = fallback_convert("a", "b -> c\na -> b\n");
    assert_eq!(response.converted, "b");
}

#[test]
fn fallback_splits_a_rule_at_its_first_arrow() {
    let response = fallback_convert("a b", "a->b->c");
    assert_eq!(response.converted, "b->c b");
}

#[test]
fn fallback_ignores_lines_without_a_rule() {
    let memory = "# Style\n-> x\na ->\n  ->  \nconcise sentences\r\n";
    let response = fallback_convert("a -> x", memory);
    assert_eq!(response.converted, "a -> x");
    assert_eq!(response.refined, "a -> x。");
}

#[test]
fn fallback_keeps_a_full_stop() {
    let response = fallback_convert("今日。", "");
    assert_eq!(response.refined, "今日。");
    assert_eq!(fallback_convert("", "").refined, "。");
}

#[test]
fn fallback_does_not_replace_inside_replacements() {
    assert_eq!(fallback_convert("aaa", "aa -> aaa").converted, "aaaa");
    assert_eq!(fallback_convert("abab", "ab -> ba").converted, "baba");
}

#[test]
fn default_memory_holds_rules() {
    let response = fallback_convert("zed de tauri no mtg", &default_memory());
    assert_eq!(response.converted, "Zed de Tauri no ミーティング");
}

#[test]
fn request_holds_the_normal_form_and_its_reading() {
    let normalized = normalize_input("  sushi  mtg");
    let request = transform_request(&normalized, "m".into(), context());
    assert_eq!(request.raw, "sushi mtg");
    assert_eq!(request.kana_candidate.as_deref(), Some("すし mtg"));
    assert_eq!(request.memory, "m");
    assert_eq!(request.context, context());
    let pending = start_transform("  sushi  mtg", "m".into(), context());
    assert_eq!(pending.normalized, normalized);
    assert_eq!(pending.request, request);
}

#[test]
fn result_holds_the_answer_of_the_backend() {
    let result = result();
    assert_eq!(result.id, "id");
    assert_eq!(result.raw, " kyou  mtg ");
    assert_eq!(result.normalized_raw, "kyou mtg");
    assert_eq!(result.kana_candidate, "きょう mtg");
    assert_eq!(result.converted, "今日");
    assert_eq!(result.refined, "今日です。");
    assert_eq!(result.final_text, "今日です。");
    assert_eq!(result.confidence, answer().confidence);
    assert_eq!(result.context, context());
}

#[test]
fn failed_backend_falls_back_to_the_memory() {
    let pending = start_transform(" kyou  mtg ", "mtg -> 会議".into(), context());
    let timings = StageTimings { normalize: 1, convert_refine: 2, full_roundtrip: 3 };
    let result = do_transform(pending, Err("timed out".into()), "id".into(), timings);
    assert_eq!(result.converted, "kyou 会議");
    assert_eq!(result.refined, "kyou 会議。");
    assert_eq!(result.final_text, "kyou 会議。");
    assert_eq!(result.confidence.bits, QUARTER);
    assert_eq!(result.timings_ms.full_roundtrip, 3);
    assert_eq!(
        response_or_fallback(Err(String::new()), "kyou mtg", "mtg -> 会議").converted,
        "kyou 会議"
    );
    assert_eq!(response_or_fallback(Ok(answer()), "", ""), answer());
}

#[test]
fn preview_is_saved_only_on_request() {
    let start = || start_transform("kyou", String::new(), context());
    let timings = StageTimings::default();
    let (first, row) =
        do_transform_with_save(start(), Ok(answer()), "a".into(), timings, false, "c".into());
    assert_eq!(row, None);
    let (second, row) =
        do_transform_with_save(start(), Ok(answer()), "a".into(), timings, true, "c".into());
    assert_eq!(first, second);
    let row = row.unwrap();
    assert_eq!(row.accepted, 0);
    assert_eq!(row.change_id, "c");
    assert_eq!(Some(row), save_transform(&first, false, "c".into()));
}

#[test]
fn row_records_the_normal_form() {
    let row = save_transform(&result(), true, "change".into()).unwrap();
    assert_eq!(row.id, "id");
    assert_eq!(row.created_at, "2026-06-08T00:00:00.005+00:00");
    assert_eq!(row.os, "linux");
    assert_eq!(row.app_name.as_deref(), Some("editor"));
    assert_eq!(row.process_id, Some(7));
    assert_eq!(row.window_title, None);
    assert_eq!(row.raw, "kyou mtg");
    assert_eq!(row.converted, "今日");
    assert_eq!(row.refined, "今日です。");
    assert_eq!(row.final_text, "今日です。");
    assert_eq!(row.accepted, 1);
    assert_eq!(row.change_id, "change");
    let row = row_created_at(&result(), false, "now".into(), "x".into());
    assert_eq!((row.created_at.as_str(), row.accepted), ("now", 0));
}

#[test]
fn row_needs_a_time_that_the_calendar_holds() {
    let mut result = result();
    result.context.timestamp = Timestamp { seconds: i64::MAX, nanos: 0 };
    assert_eq!(save_transform(&result, false, String::new()), None);
    result.context.timestamp = Timestamp { seconds: 0, nanos: 2_000_000_000 };
    assert_eq!(save_transform(&result, false, String::new()), None);
}

#[test]
fn moments_are_written_in_utc() {
    assert_eq!(
        moment_text(Timestamp { seconds: 0, nanos: 0 }).as_deref(),
        Some("1970-01-01T00:00:00+00:00")
    );
    assert_eq!(
        moment_text(Timestamp { seconds: 253_402_300_799, nanos: 999_999_999 }).as_deref(),
        Some("9999-12-31T23:59:59.999999999+00:00")
    );
    assert_eq!(moment_text(Timestamp { seconds: i64::MIN, nanos: 0 }), None);
}

#[test]
fn operations_are_logged_by_day() {
    assert_eq!(
        ops_file_name(Timestamp { seconds: 1_780_876_800, nanos: 0 }).as_deref(),
        Some("2026-06-08.jsonl")
    );
    assert_eq!(
        ops_file_name(Timestamp { seconds: 1_780_876_799, nanos: 0 }).as_deref(),
        Some("2026-06-07.jsonl")
    );
    assert_eq!(ops_file_name(Timestamp { seconds: i64::MAX, nanos: 0 }), None);
    assert_eq!(day_file("2026-06-08"), "2026-06-08.jsonl");
}

#[test]
fn calendar_holds_what_it_should() {
    let held = |seconds: i64, nanos: u32| moment_text(Timestamp { seconds, nanos }).is_some();
    assert!(held(-8_334_601_228_800, 0));
    assert!(!held(-8_334_601_228_801, 999_999_999));
    assert!(held(8_210_266_876_799, 999_999_999));
    assert!(!held(8_210_266_876_800, 0));
    assert!(held(59, 1_500_000_000) && held(-1, 1_999_999_999));
    assert!(!held(58, 1_000_000_000) && !held(59, 2_000_000_000));
    let named = |seconds: i64| ops_file_name(Timestamp { seconds, nanos: 0 }).is_some();
    assert!(named(-8_334_601_228_800) && !named(-8_334_601_228_801));
    assert!(named(8_210_266_876_799) && !named(8_210_266_876_800));
}

#[test]
fn log_files_are_named_by_their_date() {
    let leap = |year: i64| year % 4 == 0 && (year % 100 != 0 || year % 400 == 0);
    let before_year = |y: i64| 365 * y + (y + 3) / 4 - (y + 99) / 100 + (y + 399) / 400;
    for year in (0..=9999).step_by(7).chain([0, 4, 100, 400, 1900, 1970, 2000, 2024, 9999]) {
        let mut day = before_year(year) - before_year(1970);
        for month in 1..=12 {
            let days = match month {
                2 if leap(year) => 29,
                2 => 28,
                4 | 6 | 9 | 11 => 30,
                _ => 31,
            };
            for (date, second) in [(1, 0), (days, 86_399)] {
                let seconds = (day + date - 1) * 86_400 + second;
                let name = ops_file_name(Timestamp { seconds, nanos: 0 }).unwrap();
                assert_eq!(name, format!("{year:04}-{month:02}-{date:02}.jsonl"));
            }
            day += days;
        }
    }
}

#[test]
fn leap_second_is_logged_on_its_day() {
    let t = Timestamp { seconds: 86_399, nanos: 1_500_000_000 };
    assert_eq!(ops_file_name(t).as_deref(), Some("1970-01-01.jsonl"));
}

#[test]
fn preview_and_acceptance_are_planned_for_one_row_and_two_lines() {
    let now = Timestamp { seconds: 1_780_876_800, nanos: 0 };
    let preview = save_transform(&result(), false, "a".into()).unwrap();
    let first = save_plan(preview.clone(), r#"{"n":1}"#, now).unwrap();
    let accepted = accept_transform(result(), "本日です。".into());
    let row = save_transform(&accepted, true, "b".into()).unwrap();
    let second = save_plan(row, r#"{"n":2}"#, now).unwrap();
    assert_eq!(first.row, preview);
    assert_eq!(first.row.id, second.row.id);
    assert_eq!((first.row.accepted, second.row.accepted), (0, 1));
    assert_eq!(second.row.raw, "kyou mtg");
    assert_eq!(second.row.final_text, "本日です。");
    assert_eq!(first.file, "2026-06-08.jsonl");
    assert_eq!(first.file, second.file);
    assert_eq!(first.line, r#"{"result":{"n":1},"type":"preview"}"#);
    assert_eq!(second.line, r#"{"result":{"n":2},"type":"accepted"}"#);
    let never = Timestamp { seconds: i64::MAX, nanos: 0 };
    assert_eq!(save_plan(first.row, "{}", never), None);
}

#[test]
fn accepting_goes_to_the_clipboard_first() {
    let steps = |paste: bool| -> Vec<AcceptStep> {
        let mut done = AcceptProgress::Started;
        let mut steps = Vec::new();
        loop {
            let step = next_accept_step(done, paste);
            if step == AcceptStep::Finish {
                assert_eq!(accept_progress(done, step), done);
                return steps;
            }
            steps.push(step);
            done = accept_progress(done, step);
        }
    };
    assert_eq!(steps(false), vec![AcceptStep::CopyToClipboard, AcceptStep::Save]);
    assert_eq!(
        steps(true),
        vec![AcceptStep::CopyToClipboard, AcceptStep::Save, AcceptStep::Paste]
    );
}

#[test]
fn operation_is_one_line_of_json() {
    assert_eq!(operation_kind(true), "accepted");
    assert_eq!(operation_kind(false), "preview");
    assert_eq!(operation_line(true, "{}"), r#"{"result":{},"type":"accepted"}"#);
    let line = operation_line(false, r#"{"id":"a"}"#);
    let value: serde_json::Value = serde_json::from_str(&line).unwrap();
    assert_eq!(value["type"], "preview");
    assert_eq!(value["result"]["id"], "a");
    assert!(!line.contains('\n'));
}

#[test]
fn accepting_changes_the_final_text_alone() {
    let accepted = accept_transform(result(), "本日です。".into());
    assert_eq!(accepted.final_text, "本日です。");
    assert_eq!(TransformResult { final_text: "今日です。".into(), ..accepted }, result());
}

#[test]
fn outcome_tells_whether_the_text_was_pasted() {
    let outcome = accept_outcome(None);
    assert!(outcome.clipboard_updated && !outcome.pasted && outcome.paste_error.is_none());
    let outcome = accept_outcome(Some(Ok(())));
    assert!(outcome.clipboard_updated && outcome.pasted && outcome.paste_error.is_none());
    let outcome = accept_outcome(Some(Err("no xdotool".into())));
    assert!(outcome.clipboard_updated && !outcome.pasted);
    assert_eq!(outcome.paste_error.as_deref(), Some("no xdotool"));
}

#[test]
fn ensure_command_succeeded_reports_failure() {
    let error = ensure_command_succeeded(false, "exit status: 7", "paste command").unwrap_err();
    assert!(error.contains("paste command exited with"));
    assert_eq!(error, "paste command exited with exit status: 7");
    assert_eq!(ensure_command_succeeded(true, "exit status: 0", "paste command"), Ok(()));
}

#[test]
fn paste_command_depends_on_the_system() {
    let command = paste_command("linux").unwrap();
    assert_eq!(command.program, "sh");
    assert_eq!(
        command.args,
        vec!["-c", "command -v xdotool >/dev/null && xdotool key ctrl+v"]
    );
    let command = paste_command("macos").unwrap();
    assert_eq!(command.program, "osascript");
    assert_eq!(
        command.args[1],
        "tell application \"System Events\" to keystroke \"v\" using command down"
    );
    let command = paste_command("windows").unwrap();
    assert_eq!(command.program, "powershell");
    assert_eq!(command.args.len(), 3);
    assert_eq!(paste_command("freebsd"), None);
}

#[test]
fn default_timings_are_zero() {
    assert_eq!(
        StageTimings::default(),
        StageTimings { normalize: 0, convert_refine: 0, full_roundtrip: 0 }
    );
}

#[test]
fn confidence_is_clamped_like_a_float() {
    let values = [
        0.0f32, -0.0, 0.25, 0.5, 1.0, 1.2, 100.0, -0.1, -5.0, f32::INFINITY, f32::NEG_INFINITY,
        f32::MIN_POSITIVE, 1.0e-45, -1.0e-45, 0.99999994, 1.0000001, f32::MAX, f32::MIN,
    ];
    for value in values {
        let clamped = Confidence { bits: value.to_bits() }.clamped();
        assert_eq!(clamped.bits, value.clamp(0.0, 1.0).to_bits(), "{value}");
        assert_eq!(clamped.clamped(), clamped);
    }
    let nan = Confidence { bits: f32::NAN.to_bits() };
    assert!(f32::from_bits(nan.clamped().bits).is_nan());
}
