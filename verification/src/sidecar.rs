//! Running a sidecar: what to start, and what its output means.

use crate::config::AppConfig;
use crate::json::{is_one_line, optional_text};
use crate::protocol::TransformResponse;
use crate::search::{find, lemma_find, line_views, lines, lines_of, occurs_at, strip_carriage_return};
use crate::text::{chars_of, lemma_trim_drop_last, string_of, trim, trim_chars, trimmed};
use vstd::prelude::*;
use vstd::utf8::{
    decode_utf8, encode_utf8, encode_utf8_decode_utf8, encode_utf8_valid_utf8, valid_utf8,
};

verus! {

/// What can go wrong with a sidecar.
#[derive(Debug, Clone, PartialEq, Eq)]
pub enum SidecarError {
    /// No command is configured.
    NotConfigured,
    /// The command could not be started, for this reason.
    NotStarted(String),
    /// The command failed: its exit status, and the trimmed text of its error output.
    Exited(String, String),
    /// The command wrote nothing.
    NoOutput,
    /// What the command wrote does not decode, for this reason.
    InvalidJson(String),
}

/// What a [`SidecarError`] holds.
pub enum SidecarErrorView {
    NotConfigured,
    NotStarted(Seq<char>),
    Exited(Seq<char>, Seq<char>),
    NoOutput,
    InvalidJson(Seq<char>),
}

impl View for SidecarError {
    type V = SidecarErrorView;

    open spec fn view(&self) -> SidecarErrorView {
        match self {
            SidecarError::NotConfigured => SidecarErrorView::NotConfigured,
            SidecarError::NotStarted(reason) => SidecarErrorView::NotStarted(reason@),
            SidecarError::Exited(status, stderr) => SidecarErrorView::Exited(status@, stderr@),
            SidecarError::NoOutput => SidecarErrorView::NoOutput,
            SidecarError::InvalidJson(reason) => SidecarErrorView::InvalidJson(reason@),
        }
    }
}

/// The words for a [`SidecarError`].
pub open spec fn sidecar_error_text(error: SidecarErrorView) -> Seq<char> {
    match error {
        SidecarErrorView::NotConfigured => "sidecar_command is not configured"@,
        SidecarErrorView::NotStarted(reason) => "failed to start sidecar: "@ + reason,
        SidecarErrorView::Exited(status, stderr) => if stderr.len() == 0 {
            "sidecar exited with "@ + status
        } else {
            "sidecar exited with "@ + status + ": "@ + stderr
        },
        SidecarErrorView::NoOutput => "sidecar produced no stdout"@,
        SidecarErrorView::InvalidJson(reason) => "invalid sidecar json: "@ + reason,
    }
}

impl SidecarError {
    /// The words for the error.
    pub fn message(&self) -> (text: String)
        ensures
            text@ == sidecar_error_text(self@),
    {
        match self {
            SidecarError::NotConfigured => "sidecar_command is not configured".to_owned(),
            SidecarError::NotStarted(reason) => "failed to start sidecar: ".to_owned().concat(
                reason.as_str(),
            ),
            SidecarError::Exited(status, stderr) => {
                let mut text = "sidecar exited with ".to_owned();
                text.append(status.as_str());
                if !stderr.as_str().is_empty() {
                    text.append(": ");
                    text.append(stderr.as_str());
                }
                text
            },
            SidecarError::NoOutput => "sidecar produced no stdout".to_owned(),
            SidecarError::InvalidJson(reason) => "invalid sidecar json: ".to_owned().concat(
                reason.as_str(),
            ),
        }
    }
}

/// The command that starts the sidecar.
pub fn sidecar_command(config: &AppConfig) -> (command: Result<String, SidecarError>)
    ensures
        match command {
            Ok(command) => optional_text(config.sidecar_command) == Some(command@),
            Err(error) => config.sidecar_command is None && error@
                == SidecarErrorView::NotConfigured,
        },
{
    match &config.sidecar_command {
        Some(command) => Ok(command.clone()),
        None => Err(SidecarError::NotConfigured),
    }
}

/// What the output of a sidecar that ended means: the first line of what it wrote, trimmed, or
/// why there is none.
pub open spec fn answer_in(
    success: bool,
    status: Seq<char>,
    stdout: Seq<char>,
    stderr: Seq<char>,
) -> Result<Seq<char>, SidecarErrorView> {
    if !success {
        Err(SidecarErrorView::Exited(status, trim(stderr)))
    } else if lines(stdout).len() == 0 {
        Err(SidecarErrorView::NoOutput)
    } else {
        Ok(trim(lines(stdout)[0]))
    }
}

/// The answer in the text that a sidecar wrote.
pub fn answer_line(success: bool, status: &str, stdout: &str, stderr: &str) -> (answer: Result<
    String,
    SidecarError,
>)
    ensures
        match answer {
            Ok(line) => answer_in(success, status@, stdout@, stderr@) == Ok::<
                _,
                SidecarErrorView,
            >(line@),
            Err(error) => answer_in(success, status@, stdout@, stderr@) == Err::<Seq<char>, _>(
                error@,
            ),
        },
{
    if !success {
        return Err(SidecarError::Exited(status.to_owned(), trimmed(stderr)));
    }
    let all = lines_of(&chars_of(stdout));
    assert(lines(stdout@) == line_views(all@));
    if all.len() == 0 {
        Err(SidecarError::NoOutput)
    } else {
        Ok(string_of(&trim_chars(&all[0])))
    }
}

/// The text of some bytes, with what is not UTF-8 replaced.
pub uninterp spec fn lossy_text(bytes: Seq<u8>) -> Seq<char>;

/// `String::from_utf8_lossy`: bytes that are UTF-8 give their text. What other bytes give
/// depends on the bytes alone and is named [`lossy_text`].
#[verifier::external_body]
fn from_utf8_lossy(bytes: &[u8]) -> (text: String)
    ensures
        text@ == lossy_text(bytes@),
        valid_utf8(bytes@) ==> text@ == decode_utf8(bytes@),
{
    String::from_utf8_lossy(bytes).into_owned()
}

/// The answer in the bytes that a sidecar wrote.
pub fn sidecar_answer(success: bool, status: &str, stdout: &[u8], stderr: &[u8]) -> (answer: Result<
    String,
    SidecarError,
>)
    ensures
        match answer {
            Ok(line) => answer_in(success, status@, lossy_text(stdout@), lossy_text(stderr@))
                == Ok::<_, SidecarErrorView>(line@),
            Err(error) => answer_in(success, status@, lossy_text(stdout@), lossy_text(stderr@))
                == Err::<Seq<char>, _>(error@),
        },
        valid_utf8(stdout@) && valid_utf8(stderr@) ==> match answer {
            Ok(line) => answer_in(success, status@, decode_utf8(stdout@), decode_utf8(stderr@))
                == Ok::<_, SidecarErrorView>(line@),
            Err(error) => answer_in(success, status@, decode_utf8(stdout@), decode_utf8(stderr@))
                == Err::<Seq<char>, _>(error@),
        },
{
    let stdout = from_utf8_lossy(stdout);
    let stderr = from_utf8_lossy(stderr);
    answer_line(success, status, stdout.as_str(), stderr.as_str())
}

/// The response that an answer decodes to.
pub fn decoded_answer(decoded: Result<TransformResponse, String>) -> (response: Result<
    TransformResponse,
    SidecarError,
>)
    ensures
        match decoded {
            Ok(r) => response == Ok::<_, SidecarError>(r),
            Err(reason) => response is Err && response->Err_0@ == SidecarErrorView::InvalidJson(
                reason@,
            ),
        },
{
    match decoded {
        Ok(response) => Ok(response),
        Err(reason) => Err(SidecarError::InvalidJson(reason)),
    }
}

/// Of what a sidecar that succeeded wrote, the first line alone counts, without the white space
/// around it: nothing behind that line and nothing in the error output changes the answer.
pub proof fn law_first_line_counts(
    line: Seq<char>,
    rest: Seq<char>,
    status: Seq<char>,
    stderr: Seq<char>,
)
    requires
        is_one_line(line),
    ensures
        answer_in(true, status, line + seq!['\n'] + rest, stderr) == Ok::<_, SidecarErrorView>(
            trim(line),
        ),
{
    let stdout = line + seq!['\n'] + rest;
    let at = line.len() as int;
    lemma_find(stdout, seq!['\n']);
    assert(stdout.subrange(at, at + 1) =~= seq!['\n']);
    assert(occurs_at(stdout, seq!['\n'], at));
    let found = find(stdout, seq!['\n'])->0;
    if found < at {
        assert(stdout.subrange(found, found + 1)[0] == line[found]);
    }
    assert(stdout.take(at) =~= line);
    assert(lines(stdout)[0] == strip_carriage_return(line));
    if line.len() > 0 && line.last() == '\r' {
        lemma_trim_drop_last(line);
    }
}

/// What a sidecar writes is what is read of it: a line of JSON text that needs no trimming,
/// written as UTF-8 with a line break behind it, is the answer.
pub proof fn law_written_line_is_read(json: Seq<char>, status: Seq<char>, stderr: Seq<char>)
    requires
        is_one_line(json),
        trim(json) == json,
    ensures
        valid_utf8(encode_utf8(json.push('\n'))),
        answer_in(true, status, decode_utf8(encode_utf8(json.push('\n'))), stderr) == Ok::<
            _,
            SidecarErrorView,
        >(json),
{
    encode_utf8_valid_utf8(json.push('\n'));
    encode_utf8_decode_utf8(json.push('\n'));
    law_first_line_counts(json, seq![], status, stderr);
    assert(json + seq!['\n'] + Seq::<char>::empty() =~= json.push('\n'));
}

/// A sidecar that failed gives no answer, whatever it wrote.
pub proof fn law_failure_has_no_answer(
    status: Seq<char>,
    stdout: Seq<char>,
    stderr: Seq<char>,
)
    ensures
        answer_in(false, status, stdout, stderr) is Err,
        sidecar_error_text(answer_in(false, status, stdout, stderr)->Err_0) == if trim(stderr).len()
            == 0 {
            "sidecar exited with "@ + status
        } else {
            "sidecar exited with "@ + status + ": "@ + trim(stderr)
        },
{
}

/// A sidecar that succeeded and wrote nothing gives no answer; a line without a line break behind
/// it is as good as one with it.
pub proof fn law_output_without_line_break(
    line: Seq<char>,
    status: Seq<char>,
    stderr: Seq<char>,
)
    requires
        forall|i: int| 0 <= i < line.len() ==> #[trigger] line[i] != '\n',
    ensures
        line.len() == 0 ==> answer_in(true, status, line, stderr) == Err::<Seq<char>, _>(
            SidecarErrorView::NoOutput,
        ),
        line.len() > 0 ==> answer_in(true, status, line, stderr) == Ok::<_, SidecarErrorView>(
            trim(line),
        ),
{
    lemma_find(line, seq!['\n']);
    if find(line, seq!['\n']) is Some {
        let k = find(line, seq!['\n'])->0;
        assert(line.subrange(k, k + 1)[0] == '\n');
    }
    if line.len() > 0 && line.last() == '\r' {
        lemma_trim_drop_last(line);
    }
}

/// What is said of a failure gives its reason in full, and the exit status and the error output
/// where there are any.
pub proof fn law_failures_give_their_reasons(reason: Seq<char>, status: Seq<char>)
    ensures
        sidecar_error_text(SidecarErrorView::NotStarted(reason)) == "failed to start sidecar: "@
            + reason,
        sidecar_error_text(SidecarErrorView::InvalidJson(reason)) == "invalid sidecar json: "@
            + reason,
        reason.len() > 0 ==> sidecar_error_text(SidecarErrorView::Exited(status, reason))
            == "sidecar exited with "@ + status + ": "@ + reason,
        reason.len() == 0 ==> sidecar_error_text(SidecarErrorView::Exited(status, reason))
            == "sidecar exited with "@ + status,
{
}

} // verus!
