//! A transform from the draft to the accepted text.

use crate::clock::{holds, moment_text, rfc3339};
use crate::config::{backend_named, AppConfig, Backend};
use crate::fallback::{
    fallback_convert, law_full_stop_is_added_once, law_memory_line_by_line, with_full_stop,
    with_memory_terms,
};
use crate::json::{
    is_one_line, json_member, json_object, json_string, law_brackets, law_plain_text_is_quoted,
    lemma_member_one_line, lemma_parts_one_line, lemma_plain_member, lemma_string_one_line, member,
    object, optional_text, text_member,
};
use crate::normalization::{collapsed, kana_text, normalize_input, NormalizedInput};
use crate::protocol::{
    Confidence, ResponseView, TransformContext, TransformRequest, TransformResponse, QUARTER,
};
use crate::text::{same_text, texts};
use vstd::prelude::*;

verus! {

/// How long the stages of a transform took, in milliseconds.
#[derive(Debug, Clone, Copy, PartialEq, Eq)]
pub struct StageTimings {
    pub normalize: u128,
    pub convert_refine: u128,
    pub full_roundtrip: u128,
}

impl Default for StageTimings {
    fn default() -> (timings: Self)
        ensures
            timings == (StageTimings { normalize: 0, convert_refine: 0, full_roundtrip: 0 }),
    {
        StageTimings { normalize: 0, convert_refine: 0, full_roundtrip: 0 }
    }
}

/// A transform that is done.
#[derive(Debug, Clone, PartialEq, Eq)]
pub struct TransformResult {
    pub id: String,
    pub raw: String,
    pub normalized_raw: String,
    pub kana_candidate: String,
    pub converted: String,
    pub refined: String,
    pub final_text: String,
    pub confidence: Confidence,
    pub timings_ms: StageTimings,
    pub context: TransformContext,
}

/// A transform that waits for its backend.
#[derive(Debug, Clone, PartialEq, Eq)]
pub struct PendingTransform {
    pub normalized: NormalizedInput,
    pub request: TransformRequest,
}

impl PendingTransform {
    /// Whether this is the transform of a draft with a memory.
    pub open spec fn is_for(self, raw: Seq<char>, memory: Seq<char>) -> bool {
        &&& self.normalized.raw@ == raw
        &&& self.normalized.normalized_raw@ == collapsed(raw)
        &&& self.normalized.kana_candidate@ == kana_text(collapsed(raw))
        &&& self.request.raw@ == collapsed(raw)
        &&& self.request.memory@ == memory
        &&& optional_text(self.request.kana_candidate) == Some(kana_text(collapsed(raw)))
    }
}

/// What the backend is asked for: the normalized draft, with its kana candidate and the memory.
pub fn transform_request(
    normalized: &NormalizedInput,
    memory: String,
    context: TransformContext,
) -> (request: TransformRequest)
    ensures
        request.raw@ == normalized.normalized_raw@,
        request.memory@ == memory@,
        request.context == context,
        optional_text(request.kana_candidate) == Some(normalized.kana_candidate@),
{
    TransformRequest {
        raw: normalized.normalized_raw.clone(),
        memory,
        context,
        kana_candidate: Some(normalized.kana_candidate.clone()),
    }
}

/// Starts a transform: normalizes the draft and makes the request to the backend.
pub fn start_transform(raw: &str, memory: String, context: TransformContext) -> (pending:
    PendingTransform)
    ensures
        pending.is_for(raw@, memory@),
        pending.request.context == context,
{
    let normalized = normalize_input(raw);
    let request = transform_request(&normalized, memory, context);
    PendingTransform { normalized, request }
}

/// Which backend a request goes to; none where the fallback is configured.
pub fn backend_to_ask(config: &AppConfig) -> (backend: Result<Backend, String>)
    ensures
        match backend {
            Ok(b) => b == backend_named(config.backend@) && b != Backend::Fallback,
            Err(reason) => backend_named(config.backend@) == Backend::Fallback && reason@
                == "fallback backend selected"@,
        },
{
    match Backend::parse(config.backend.as_str()) {
        Backend::Fallback => Err("fallback backend selected".to_owned()),
        backend => Ok(backend),
    }
}

/// The backend's response, or the fallback's where the backend failed.
pub open spec fn response_to(
    inferred: Result<TransformResponse, String>,
    normalized_raw: Seq<char>,
    memory: Seq<char>,
) -> ResponseView {
    match inferred {
        Ok(answer) => answer@,
        Err(_) => ResponseView {
            converted: with_memory_terms(normalized_raw, memory),
            refined: with_full_stop(with_memory_terms(normalized_raw, memory)),
            confidence: Confidence { bits: QUARTER },
        },
    }
}

/// The backend's response, or the fallback's where the backend failed.
pub fn response_or_fallback(
    inferred: Result<TransformResponse, String>,
    normalized_raw: &str,
    memory: &str,
) -> (response: TransformResponse)
    ensures
        response@ == response_to(inferred, normalized_raw@, memory@),
{
    match inferred {
        Ok(response) => response,
        Err(_) => fallback_convert(normalized_raw, memory),
    }
}

/// Whether a result ends a transform with what the backend said. Its final text is the refined
/// one.
pub open spec fn ends(
    result: TransformResult,
    pending: PendingTransform,
    inferred: Result<TransformResponse, String>,
) -> bool {
    let response = response_to(
        inferred,
        pending.normalized.normalized_raw@,
        pending.request.memory@,
    );
    &&& result.raw@ == pending.normalized.raw@
    &&& result.normalized_raw@ == pending.normalized.normalized_raw@
    &&& result.kana_candidate@ == pending.normalized.kana_candidate@
    &&& result.context == pending.request.context
    &&& result.converted@ == response.converted
    &&& result.refined@ == response.refined
    &&& result.final_text@ == response.refined
    &&& result.confidence == response.confidence
}

/// Ends a transform with what the backend said. Where the backend failed the fallback converts
/// the draft, so that every transform has a result.
pub fn do_transform(
    pending: PendingTransform,
    inferred: Result<TransformResponse, String>,
    id: String,
    timings_ms: StageTimings,
) -> (result: TransformResult)
    ensures
        result.id == id,
        result.timings_ms == timings_ms,
        ends(result, pending, inferred),
{
    let response = response_or_fallback(
        inferred,
        pending.normalized.normalized_raw.as_str(),
        pending.request.memory.as_str(),
    );
    TransformResult {
        id,
        raw: pending.normalized.raw,
        normalized_raw: pending.normalized.normalized_raw,
        kana_candidate: pending.normalized.kana_candidate,
        converted: response.converted.clone(),
        refined: response.refined.clone(),
        final_text: response.refined,
        confidence: response.confidence,
        timings_ms,
        context: pending.request.context,
    }
}

/// The row that records a transform in the database.
#[derive(Debug, Clone, PartialEq, Eq)]
pub struct TransformRow {
    pub id: String,
    pub created_at: String,
    pub os: String,
    pub app_name: Option<String>,
    pub process_id: Option<u32>,
    pub window_title: Option<String>,
    pub raw: String,
    pub converted: String,
    pub refined: String,
    pub final_text: String,
    pub accepted: u8,
    pub change_id: String,
}

/// What a [`TransformRow`] holds.
pub struct RowView {
    pub id: Seq<char>,
    pub created_at: Seq<char>,
    pub os: Seq<char>,
    pub app_name: Option<Seq<char>>,
    pub process_id: Option<u32>,
    pub window_title: Option<Seq<char>>,
    pub raw: Seq<char>,
    pub converted: Seq<char>,
    pub refined: Seq<char>,
    pub final_text: Seq<char>,
    pub accepted: u8,
    pub change_id: Seq<char>,
}

impl View for TransformRow {
    type V = RowView;

    open spec fn view(&self) -> RowView {
        RowView {
            id: self.id@,
            created_at: self.created_at@,
            os: self.os@,
            app_name: optional_text(self.app_name),
            process_id: self.process_id,
            window_title: optional_text(self.window_title),
            raw: self.raw@,
            converted: self.converted@,
            refined: self.refined@,
            final_text: self.final_text@,
            accepted: self.accepted,
            change_id: self.change_id@,
        }
    }
}

impl RowView {
    /// Whether the row records a result. The draft is recorded as it was normalized.
    pub open spec fn records(self, result: TransformResult, accepted: bool) -> bool {
        &&& self.id == result.id@
        &&& self.os == result.context.os@
        &&& self.app_name == optional_text(result.context.app_name)
        &&& self.process_id == result.context.process_id
        &&& self.window_title == optional_text(result.context.window_title)
        &&& self.raw == result.normalized_raw@
        &&& self.converted == result.converted@
        &&& self.refined == result.refined@
        &&& self.final_text == result.final_text@
        &&& self.accepted == if accepted {
            1u8
        } else {
            0u8
        }
    }
}

fn copied(text: &Option<String>) -> (copy: Option<String>)
    ensures
        optional_text(copy) == optional_text(*text),
{
    match text {
        Some(text) => Some(text.clone()),
        None => None,
    }
}

/// The row with the given creation time that records a result.
pub fn row_created_at(
    result: &TransformResult,
    accepted: bool,
    created_at: String,
    change_id: String,
) -> (row: TransformRow)
    ensures
        row.created_at == created_at,
        row.change_id == change_id,
        row@.records(*result, accepted),
{
    TransformRow {
        id: result.id.clone(),
        created_at,
        os: result.context.os.clone(),
        app_name: copied(&result.context.app_name),
        process_id: result.context.process_id,
        window_title: copied(&result.context.window_title),
        raw: result.normalized_raw.clone(),
        converted: result.converted.clone(),
        refined: result.refined.clone(),
        final_text: result.final_text.clone(),
        accepted: if accepted {
            1
        } else {
            0
        },
        change_id,
    }
}

/// The row that records a result. There is none where the calendar does not hold the time of the
/// result.
pub fn save_transform(result: &TransformResult, accepted: bool, change_id: String) -> (row: Option<
    TransformRow,
>)
    ensures
        match row {
            Some(row) => {
                &&& holds(result.context.timestamp)
                &&& row.created_at@ == rfc3339(
                    result.context.timestamp.seconds,
                    result.context.timestamp.nanos,
                )
                &&& row@.records(*result, accepted)
                &&& row.change_id == change_id
            },
            None => !holds(result.context.timestamp),
        },
{
    match moment_text(result.context.timestamp) {
        Some(created_at) => Some(row_created_at(result, accepted, created_at, change_id)),
        None => None,
    }
}

/// The kind of the operation that is logged for a result.
pub fn operation_kind(accepted: bool) -> (kind: String)
    ensures
        kind@ == if accepted {
            "accepted"@
        } else {
            "preview"@
        },
{
    if accepted {
        "accepted".to_owned()
    } else {
        "preview".to_owned()
    }
}

/// The line that logs a result, from its JSON text.
pub open spec fn operation_of(accepted: bool, result: Seq<char>) -> Seq<char> {
    let kind = if accepted {
        "accepted"@
    } else {
        "preview"@
    };
    json_object(seq![json_member("result"@, result), json_member("type"@, json_string(kind))])
}

/// The line that logs a result, from its JSON text.
pub fn operation_line(accepted: bool, result: &str) -> (line: String)
    ensures
        line@ == operation_of(accepted, result@),
{
    let kind = operation_kind(accepted);
    let members: Vec<String> = vec![member("result", result), text_member("type", kind.as_str())];
    assert(texts(members@) =~= seq![
        json_member("result"@, result@),
        json_member("type"@, json_string(kind@)),
    ]);
    object(&members)
}

/// A result whose JSON text is one line is logged in one line.
pub proof fn law_operation_one_line(accepted: bool, result: Seq<char>)
    requires
        is_one_line(result),
    ensures
        is_one_line(operation_of(accepted, result)),
{
    let kind = if accepted {
        "accepted"@
    } else {
        "preview"@
    };
    lemma_member_one_line("result"@, result);
    lemma_string_one_line(kind);
    lemma_member_one_line("type"@, json_string(kind));
    lemma_parts_one_line(
        seq![json_member("result"@, result), json_member("type"@, json_string(kind))],
    );
}

/// Ends a transform and gives the row that records it as a preview, where it is to be saved.
pub fn do_transform_with_save(
    pending: PendingTransform,
    inferred: Result<TransformResponse, String>,
    id: String,
    timings_ms: StageTimings,
    save_preview: bool,
    change_id: String,
) -> (done: (TransformResult, Option<TransformRow>))
    ensures
        done.0.id == id,
        done.0.timings_ms == timings_ms,
        ends(done.0, pending, inferred),
        match done.1 {
            Some(row) => {
                &&& save_preview
                &&& holds(pending.request.context.timestamp)
                &&& row.created_at@ == rfc3339(
                    pending.request.context.timestamp.seconds,
                    pending.request.context.timestamp.nanos,
                )
                &&& row@.records(done.0, false)
                &&& row.change_id == change_id
            },
            None => !save_preview || !holds(pending.request.context.timestamp),
        },
{
    let result = do_transform(pending, inferred, id, timings_ms);
    let row = if save_preview {
        save_transform(&result, false, change_id)
    } else {
        None
    };
    (result, row)
}

/// What came of accepting a transform.
#[derive(Debug, Clone, PartialEq, Eq)]
pub struct AcceptOutcome {
    pub clipboard_updated: bool,
    pub pasted: bool,
    pub paste_error: Option<String>,
}

/// Accepts a transform with a final text; everything else of it stays as it is.
pub fn accept_transform(result: TransformResult, final_text: String) -> (accepted: TransformResult)
    ensures
        accepted == (TransformResult { final_text, ..result }),
{
    let mut accepted = result;
    accepted.final_text = final_text;
    accepted
}

/// How far accepting a transform has come.
#[derive(Debug, Clone, Copy, PartialEq, Eq, Structural)]
pub enum AcceptProgress {
    /// Nothing is done yet.
    Started,
    /// The final text is on the clipboard.
    Copied,
    /// The transform is saved as well.
    Saved,
    /// Pasting was tried as well.
    Pasted,
}

/// What to do next when a transform is accepted.
#[derive(Debug, Clone, Copy, PartialEq, Eq, Structural)]
pub enum AcceptStep {
    CopyToClipboard,
    Save,
    Paste,
    Finish,
}

/// What comes next when a transform is accepted.
pub open spec fn accept_step_after(done: AcceptProgress, paste: bool) -> AcceptStep {
    match done {
        AcceptProgress::Started => AcceptStep::CopyToClipboard,
        AcceptProgress::Copied => AcceptStep::Save,
        AcceptProgress::Saved => if paste {
            AcceptStep::Paste
        } else {
            AcceptStep::Finish
        },
        AcceptProgress::Pasted => AcceptStep::Finish,
    }
}

/// How far accepting has come after a step.
pub open spec fn progress_after(done: AcceptProgress, step: AcceptStep) -> AcceptProgress {
    match step {
        AcceptStep::CopyToClipboard => AcceptProgress::Copied,
        AcceptStep::Save => AcceptProgress::Saved,
        AcceptStep::Paste => AcceptProgress::Pasted,
        AcceptStep::Finish => done,
    }
}

/// What comes next when a transform is accepted: the clipboard first, so that the text is there
/// whatever fails later; then the records; and pasting only where it was asked for.
pub fn next_accept_step(done: AcceptProgress, paste: bool) -> (step: AcceptStep)
    ensures
        step == accept_step_after(done, paste),
        step == AcceptStep::CopyToClipboard <==> done == AcceptProgress::Started,
        step == AcceptStep::Save <==> done == AcceptProgress::Copied,
        step == AcceptStep::Paste <==> done == AcceptProgress::Saved && paste,
{
    match done {
        AcceptProgress::Started => AcceptStep::CopyToClipboard,
        AcceptProgress::Copied => AcceptStep::Save,
        AcceptProgress::Saved => if paste {
            AcceptStep::Paste
        } else {
            AcceptStep::Finish
        },
        AcceptProgress::Pasted => AcceptStep::Finish,
    }
}

/// How far accepting has come after a step.
pub fn accept_progress(done: AcceptProgress, step: AcceptStep) -> (next: AcceptProgress)
    ensures
        next == progress_after(done, step),
{
    match step {
        AcceptStep::CopyToClipboard => AcceptProgress::Copied,
        AcceptStep::Save => AcceptProgress::Saved,
        AcceptStep::Paste => AcceptProgress::Pasted,
        AcceptStep::Finish => done,
    }
}

/// The number of steps that can still come.
pub open spec fn steps_left(done: AcceptProgress) -> int {
    match done {
        AcceptProgress::Started => 3,
        AcceptProgress::Copied => 2,
        AcceptProgress::Saved => 1,
        AcceptProgress::Pasted => 0,
    }
}

/// The steps from some progress on, up to the end.
pub open spec fn accept_steps(done: AcceptProgress, paste: bool) -> Seq<AcceptStep>
    decreases steps_left(done),
{
    let step = accept_step_after(done, paste);
    if step == AcceptStep::Finish {
        seq![]
    } else {
        seq![step] + accept_steps(progress_after(done, step), paste)
    }
}

/// Accepting writes the clipboard, then saves, then pastes where that was asked for, and does
/// nothing else.
pub proof fn law_accept_order(paste: bool)
    ensures
        accept_steps(AcceptProgress::Started, paste) == if paste {
            seq![AcceptStep::CopyToClipboard, AcceptStep::Save, AcceptStep::Paste]
        } else {
            seq![AcceptStep::CopyToClipboard, AcceptStep::Save]
        },
{
    reveal_with_fuel(accept_steps, 4);
    assert(accept_steps(AcceptProgress::Started, true) =~= seq![
        AcceptStep::CopyToClipboard,
        AcceptStep::Save,
        AcceptStep::Paste,
    ]);
    assert(accept_steps(AcceptProgress::Started, false) =~= seq![
        AcceptStep::CopyToClipboard,
        AcceptStep::Save,
    ]);
}

/// What came of accepting a transform whose text is on the clipboard: `pasted` is what came of
/// pasting it, where that was asked for.
pub fn accept_outcome(pasted: Option<Result<(), String>>) -> (outcome: AcceptOutcome)
    ensures
        outcome.clipboard_updated,
        outcome.pasted <==> pasted matches Some(Ok(_)),
        outcome.paste_error == match pasted {
            Some(Err(reason)) => Some(reason),
            _ => None,
        },
{
    match pasted {
        Some(Ok(_)) => AcceptOutcome { clipboard_updated: true, pasted: true, paste_error: None },
        Some(Err(reason)) => AcceptOutcome {
            clipboard_updated: true,
            pasted: false,
            paste_error: Some(reason),
        },
        None => AcceptOutcome { clipboard_updated: true, pasted: false, paste_error: None },
    }
}

/// Whether a command that was run for an action succeeded.
pub fn ensure_command_succeeded(success: bool, status: &str, action: &str) -> (outcome: Result<
    (),
    String,
>)
    ensures
        outcome is Ok <==> success,
        outcome matches Err(reason) ==> reason@ == action@ + " exited with "@ + status@,
{
    if success {
        Ok(())
    } else {
        Err(action.to_owned().concat(" exited with ").concat(status))
    }
}

/// A command and its arguments.
#[derive(Debug, Clone, PartialEq, Eq)]
pub struct CommandLine {
    pub program: String,
    pub args: Vec<String>,
}

/// The program and the arguments that paste the clipboard into the active app, by operating
/// system.
pub open spec fn paste_command_of(os: Seq<char>) -> Option<(Seq<char>, Seq<Seq<char>>)> {
    if os == "macos"@ {
        Some(
            (
                "osascript"@,
                seq![
                    "-e"@,
                    "tell application \"System Events\" to keystroke \"v\" using command down"@,
                ],
            ),
        )
    } else if os == "windows"@ {
        Some(
            (
                "powershell"@,
                seq![
                    "-NoProfile"@,
                    "-Command"@,
                    "Add-Type -AssemblyName System.Windows.Forms; [System.Windows.Forms.SendKeys]::SendWait('^v')"@,
                ],
            ),
        )
    } else if os == "linux"@ {
        Some(
            (
                "sh"@,
                seq!["-c"@, "command -v xdotool >/dev/null && xdotool key ctrl+v"@],
            ),
        )
    } else {
        None
    }
}

/// The command that pastes the clipboard into the active app.
pub fn paste_command(os: &str) -> (command: Option<CommandLine>)
    ensures
        match command {
            Some(command) => paste_command_of(os@) == Some((command.program@, texts(command.args@))),
            None => paste_command_of(os@) is None,
        },
{
    if same_text(os, "macos") {
        let args: Vec<String> = vec![
            "-e".to_owned(),
            "tell application \"System Events\" to keystroke \"v\" using command down".to_owned(),
        ];
        assert(texts(args@) =~= (paste_command_of(os@)->0).1);
        Some(CommandLine { program: "osascript".to_owned(), args })
    } else if same_text(os, "windows") {
        let args: Vec<String> = vec![
            "-NoProfile".to_owned(),
            "-Command".to_owned(),
            "Add-Type -AssemblyName System.Windows.Forms; [System.Windows.Forms.SendKeys]::SendWait('^v')".to_owned(),
        ];
        assert(texts(args@) =~= (paste_command_of(os@)->0).1);
        Some(CommandLine { program: "powershell".to_owned(), args })
    } else if same_text(os, "linux") {
        let args: Vec<String> = vec![
            "-c".to_owned(),
            "command -v xdotool >/dev/null && xdotool key ctrl+v".to_owned(),
        ];
        assert(texts(args@) =~= (paste_command_of(os@)->0).1);
        Some(CommandLine { program: "sh".to_owned(), args })
    } else {
        None
    }
}

/// Whatever becomes of the backend, a result keeps the draft, its normal form and its reading,
/// and its final text is the refined one.
pub proof fn law_result_keeps_draft(
    result: TransformResult,
    pending: PendingTransform,
    inferred: Result<TransformResponse, String>,
    raw: Seq<char>,
    memory: Seq<char>,
)
    requires
        pending.is_for(raw, memory),
        ends(result, pending, inferred),
    ensures
        result.raw@ == raw,
        result.normalized_raw@ == collapsed(raw),
        result.kana_candidate@ == kana_text(collapsed(raw)),
        result.final_text@ == result.refined@,
{
}

/// Where the backend fails, its reason does not matter: the result is the normalized draft with
/// the terms of the memory, with a full stop in its refined form, at a confidence of a quarter.
pub proof fn law_failed_backend_falls_back(
    result: TransformResult,
    pending: PendingTransform,
    reason: String,
    raw: Seq<char>,
    memory: Seq<char>,
)
    requires
        pending.is_for(raw, memory),
        ends(result, pending, Err(reason)),
    ensures
        result.converted@ == with_memory_terms(collapsed(raw), memory),
        result.refined@ == with_full_stop(result.converted@),
        result.refined@.last() == '。',
        result.confidence.bits == QUARTER,
{
}

/// Where the backend answered, the result is its answer: the texts and the confidence are those
/// of the answer, and the final text is its refined one, with nothing added or taken away.
pub proof fn law_backend_answer_is_kept(
    result: TransformResult,
    pending: PendingTransform,
    answer: TransformResponse,
)
    requires
        ends(result, pending, Ok(answer)),
    ensures
        result.converted@ == answer.converted@,
        result.refined@ == answer.refined@,
        result.final_text@ == answer.refined@,
        result.confidence == answer.confidence,
{
}

/// The backend's response is the answer as it came, whatever the draft and the memory.
pub proof fn law_response_is_the_answer(
    answer: TransformResponse,
    normalized_raw: Seq<char>,
    memory: Seq<char>,
)
    ensures
        response_to(Ok(answer), normalized_raw, memory).converted == answer.converted@,
        response_to(Ok(answer), normalized_raw, memory).refined == answer.refined@,
        response_to(Ok(answer), normalized_raw, memory).confidence == answer.confidence,
{
}

/// The backend is asked for the whole normalized draft, with its whole reading and the whole
/// memory, and the draft is remembered as it was typed.
pub proof fn law_request_is_whole(pending: PendingTransform, raw: Seq<char>, memory: Seq<char>)
    requires
        pending.is_for(raw, memory),
    ensures
        pending.request.raw@ == collapsed(raw),
        pending.request.memory@ == memory,
        pending.request.kana_candidate is Some,
        pending.request.kana_candidate->0@ == kana_text(collapsed(raw)),
        pending.normalized.raw@ == raw,
        pending.normalized.normalized_raw@ == pending.request.raw@,
        pending.normalized.kana_candidate@ == pending.request.kana_candidate->0@,
{
}

/// A result keeps the context that the transform was asked for in.
pub proof fn law_result_keeps_context(
    result: TransformResult,
    pending: PendingTransform,
    inferred: Result<TransformResponse, String>,
)
    requires
        ends(result, pending, inferred),
    ensures
        result.context == pending.request.context,
        result.raw@ == pending.normalized.raw@,
        result.normalized_raw@ == pending.normalized.normalized_raw@,
        result.kana_candidate@ == pending.normalized.kana_candidate@,
{
}

/// A row holds the texts and the context of its result in full, the draft in its normal form, and
/// tells whether the result was accepted.
pub proof fn law_row_tells_its_result(
    row: RowView,
    result: TransformResult,
    accepted: bool,
)
    requires
        row.records(result, accepted),
    ensures
        row.id == result.id@,
        row.os == result.context.os@,
        row.app_name is Some <==> result.context.app_name is Some,
        row.app_name is Some ==> row.app_name->0 == result.context.app_name->0@,
        row.process_id == result.context.process_id,
        row.window_title is Some <==> result.context.window_title is Some,
        row.window_title is Some ==> row.window_title->0 == result.context.window_title->0@,
        row.raw == result.normalized_raw@,
        row.converted == result.converted@,
        row.refined == result.refined@,
        row.final_text == result.final_text@,
        accepted ==> row.accepted == 1,
        !accepted ==> row.accepted == 0,
{
}

/// A logged line holds the result in full and says whether it was accepted.
pub proof fn law_operation_holds_the_result(result: Seq<char>)
    ensures
        operation_of(true, result) == "{\"result\":"@ + result + ",\"type\":\"accepted\"}"@,
        operation_of(false, result) == "{\"result\":"@ + result + ",\"type\":\"preview\"}"@,
{
    reveal_strlit("result");
    reveal_strlit("type");
    reveal_strlit("accepted");
    reveal_strlit("preview");
    reveal_strlit("{\"result\":");
    reveal_strlit(",\"type\":\"accepted\"}");
    reveal_strlit(",\"type\":\"preview\"}");
    lemma_plain_member("result"@, result);
    law_plain_text_is_quoted("accepted"@);
    law_plain_text_is_quoted("preview"@);
    lemma_plain_member("type"@, json_string("accepted"@));
    lemma_plain_member("type"@, json_string("preview"@));
    let first = seq![json_member("result"@, result)];
    let accepted = seq![json_member("type"@, json_string("accepted"@))];
    let preview = seq![json_member("type"@, json_string("preview"@))];
    law_brackets(first, accepted, ""@, ""@);
    law_brackets(first, preview, ""@, ""@);
    assert(first + accepted =~= seq![
        json_member("result"@, result),
        json_member("type"@, json_string("accepted"@)),
    ]);
    assert(first + preview =~= seq![
        json_member("result"@, result),
        json_member("type"@, json_string("preview"@)),
    ]);
    assert(operation_of(true, result) =~= "{\"result\":"@ + result
        + ",\"type\":\"accepted\"}"@);
    assert(operation_of(false, result) =~= "{\"result\":"@ + result
        + ",\"type\":\"preview\"}"@);
}

/// Where the backend failed, the reason does not matter: the response is the draft with the
/// memory's terms, the same with one full stop at its end, and a confidence of a quarter. Without
/// a memory the draft stays as it is.
pub proof fn law_fallback_response(reason: String, normalized_raw: Seq<char>, memory: Seq<char>)
    ensures
        ({
            let response = response_to(Err(reason), normalized_raw, memory);
            &&& response.converted == with_memory_terms(normalized_raw, memory)
            &&& memory.len() == 0 ==> response.converted == normalized_raw
            &&& response.converted.len() > 0 && response.converted.last() == '。'
                ==> response.refined == response.converted
            &&& response.converted.len() == 0 || response.converted.last() != '。'
                ==> response.refined == response.converted + seq!['。']
            &&& response.confidence.bits == 0x3e80_0000
        }),
{
    law_full_stop_is_added_once(with_memory_terms(normalized_raw, memory));
    law_memory_line_by_line(normalized_raw, Seq::empty(), Seq::empty());
    if memory.len() == 0 {
        assert(memory =~= Seq::<char>::empty());
    }
}

/// There is a command that pastes on three operating systems, each with its own program, and on
/// no other.
pub proof fn law_paste_command(os: Seq<char>)
    ensures
        paste_command_of(os) is Some <==> os == "macos"@ || os == "windows"@ || os == "linux"@,
        os == "macos"@ ==> (paste_command_of(os)->0).0 == "osascript"@,
        os == "windows"@ ==> (paste_command_of(os)->0).0 == "powershell"@,
        os == "linux"@ ==> (paste_command_of(os)->0).0 == "sh"@,
{
    reveal_strlit("macos");
    reveal_strlit("windows");
    reveal_strlit("linux");
    assert("macos"@[0] != "linux"@[0]);
    assert("windows"@.len() != "macos"@.len());
    assert("windows"@.len() != "linux"@.len());
}

/// Each step that was done is followed by the next in the order, whatever came before; at the end
/// nothing changes any more.
pub proof fn law_accept_progress(done: AcceptProgress, paste: bool)
    ensures
        progress_after(done, AcceptStep::Finish) == done,
        accept_step_after(progress_after(done, AcceptStep::CopyToClipboard), paste)
            == AcceptStep::Save,
        accept_step_after(progress_after(done, AcceptStep::Save), true) == AcceptStep::Paste,
        accept_step_after(progress_after(done, AcceptStep::Save), false) == AcceptStep::Finish,
        accept_step_after(progress_after(done, AcceptStep::Paste), paste) == AcceptStep::Finish,
{
}

} // verus!
