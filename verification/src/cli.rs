//! The command line: what is asked for, and what is printed.

use crate::json::{
    json_member, json_object, json_string, law_brackets, lemma_plain_member, object, text_member,
};
use crate::normalization::NormalizedInput;
use crate::search::{join, join_texts, law_join};
use crate::text::{same_text, texts};
use crate::transform::TransformResult;
use vstd::prelude::*;

verus! {

/// How a result is printed.
#[derive(Debug, Clone, Copy, PartialEq, Eq, Structural)]
pub enum OutputMode {
    Json,
    Text,
}

/// What is wrong with a command line.
#[derive(Debug, Clone, PartialEq, Eq)]
pub enum CliError {
    MissingCommand,
    UnknownCommand(String),
    KanaRequiresText,
    TransformRequiresText,
    StdinWithText,
}

/// What a [`CliError`] holds.
pub enum CliErrorView {
    MissingCommand,
    UnknownCommand(Seq<char>),
    KanaRequiresText,
    TransformRequiresText,
    StdinWithText,
}

impl View for CliError {
    type V = CliErrorView;

    open spec fn view(&self) -> CliErrorView {
        match self {
            CliError::MissingCommand => CliErrorView::MissingCommand,
            CliError::UnknownCommand(command) => CliErrorView::UnknownCommand(command@),
            CliError::KanaRequiresText => CliErrorView::KanaRequiresText,
            CliError::TransformRequiresText => CliErrorView::TransformRequiresText,
            CliError::StdinWithText => CliErrorView::StdinWithText,
        }
    }
}

/// The words for a [`CliError`].
pub open spec fn cli_error_text(error: CliErrorView) -> Seq<char> {
    match error {
        CliErrorView::MissingCommand => "missing command"@,
        CliErrorView::UnknownCommand(command) => "unknown command: "@ + command,
        CliErrorView::KanaRequiresText => "kana requires text"@,
        CliErrorView::TransformRequiresText => "transform requires text or --stdin"@,
        CliErrorView::StdinWithText => "transform --stdin does not accept positional text"@,
    }
}

impl CliError {
    /// The words for the error.
    pub fn message(&self) -> (text: String)
        ensures
            text@ == cli_error_text(self@),
    {
        match self {
            CliError::MissingCommand => "missing command".to_owned(),
            CliError::UnknownCommand(command) => "unknown command: ".to_owned().concat(
                command.as_str(),
            ),
            CliError::KanaRequiresText => "kana requires text".to_owned(),
            CliError::TransformRequiresText => "transform requires text or --stdin".to_owned(),
            CliError::StdinWithText =>
                "transform --stdin does not accept positional text".to_owned(),
        }
    }
}

/// What a command line asks for.
#[derive(Debug, Clone, PartialEq, Eq)]
pub enum CliCommand {
    /// The usage.
    Help,
    /// The reading of a text.
    Kana(OutputMode, String),
    /// The transform of a text; whether it is saved.
    Transform(OutputMode, bool, String),
    /// The transforms of the lines of the standard input; whether they are saved.
    TransformLines(OutputMode, bool),
}

/// What a [`CliCommand`] holds.
pub enum CliCommandView {
    Help,
    Kana(OutputMode, Seq<char>),
    Transform(OutputMode, bool, Seq<char>),
    TransformLines(OutputMode, bool),
}

impl View for CliCommand {
    type V = CliCommandView;

    open spec fn view(&self) -> CliCommandView {
        match self {
            CliCommand::Help => CliCommandView::Help,
            CliCommand::Kana(mode, text) => CliCommandView::Kana(*mode, text@),
            CliCommand::Transform(mode, save, text) => CliCommandView::Transform(
                *mode,
                *save,
                text@,
            ),
            CliCommand::TransformLines(mode, save) => CliCommandView::TransformLines(*mode, *save),
        }
    }
}

/// Whether an argument asks for the usage.
pub open spec fn is_help(arg: Seq<char>) -> bool {
    arg == "--help"@ || arg == "-h"@
}

/// Whether an argument is a flag: those for the output mode everywhere, and those for the input
/// and for saving in a transform.
pub open spec fn is_flag(arg: Seq<char>, of_transform: bool) -> bool {
    ||| arg == "--text"@
    ||| arg == "--json"@
    ||| of_transform && (arg == "--stdin"@ || arg == "--save"@)
}

/// The output mode that arguments ask for: that of the last flag for it, or JSON.
pub open spec fn mode_of(args: Seq<Seq<char>>) -> OutputMode
    decreases args.len(),
{
    if args.len() == 0 {
        OutputMode::Json
    } else if args.last() == "--text"@ {
        OutputMode::Text
    } else if args.last() == "--json"@ {
        OutputMode::Json
    } else {
        mode_of(args.drop_last())
    }
}

/// The arguments that are no flags.
pub open spec fn text_parts(args: Seq<Seq<char>>, of_transform: bool) -> Seq<Seq<char>>
    decreases args.len(),
{
    if args.len() == 0 {
        seq![]
    } else if is_flag(args.last(), of_transform) {
        text_parts(args.drop_last(), of_transform)
    } else {
        text_parts(args.drop_last(), of_transform).push(args.last())
    }
}

/// Whether arguments ask for the usage.
pub open spec fn asks_help(args: Seq<Seq<char>>) -> bool {
    exists|i: int| 0 <= i < args.len() && is_help(#[trigger] args[i])
}

/// What the arguments of the kana command ask for: the reading of their text parts, with a space
/// between one and the next.
pub open spec fn kana_command(args: Seq<Seq<char>>) -> Result<CliCommandView, CliErrorView> {
    let parts = text_parts(args, false);
    if asks_help(args) {
        Ok(CliCommandView::Help)
    } else if parts.len() == 0 {
        Err(CliErrorView::KanaRequiresText)
    } else {
        Ok(CliCommandView::Kana(mode_of(args), join(parts, " "@)))
    }
}

/// What the arguments of the transform command ask for.
pub open spec fn transform_command(args: Seq<Seq<char>>) -> Result<CliCommandView, CliErrorView> {
    let parts = text_parts(args, true);
    let save = args.contains("--save"@);
    if asks_help(args) {
        Ok(CliCommandView::Help)
    } else if args.contains("--stdin"@) {
        if parts.len() == 0 {
            Ok(CliCommandView::TransformLines(mode_of(args), save))
        } else {
            Err(CliErrorView::StdinWithText)
        }
    } else if parts.len() == 0 {
        Err(CliErrorView::TransformRequiresText)
    } else {
        Ok(CliCommandView::Transform(mode_of(args), save, join(parts, " "@)))
    }
}

/// What a command line asks for. Its first argument is the command.
pub open spec fn command_of(args: Seq<Seq<char>>) -> Result<CliCommandView, CliErrorView> {
    if args.len() == 0 {
        Err(CliErrorView::MissingCommand)
    } else if args[0] == "kana"@ {
        kana_command(args.skip(1))
    } else if args[0] == "transform"@ {
        transform_command(args.skip(1))
    } else if is_help(args[0]) || args[0] == "help"@ {
        Ok(CliCommandView::Help)
    } else {
        Err(CliErrorView::UnknownCommand(args[0]))
    }
}

/// The arguments of a command, sorted.
struct TextArgs {
    mode: OutputMode,
    use_stdin: bool,
    save: bool,
    parts: Vec<String>,
}

/// Sorts the arguments of a command, or gives nothing where they ask for the usage.
fn read_text_args(args: &[String], of_transform: bool) -> (read: Option<TextArgs>)
    ensures
        match read {
            Some(read) => {
                &&& !asks_help(texts(args@))
                &&& read.mode == mode_of(texts(args@))
                &&& of_transform ==> read.use_stdin == texts(args@).contains("--stdin"@)
                &&& of_transform ==> read.save == texts(args@).contains("--save"@)
                &&& texts(read.parts@) == text_parts(texts(args@), of_transform)
            },
            None => asks_help(texts(args@)),
        },
{
    let mut mode = OutputMode::Json;
    let mut use_stdin = false;
    let mut save = false;
    let mut parts: Vec<String> = Vec::new();
    let ghost views = texts(args@);
    proof {
        lemma_flags_differ();
        assert(texts(parts@) =~= text_parts(views.take(0), of_transform));
    }
    let mut i: usize = 0;
    while i < args.len()
        invariant
            i <= args@.len(),
            views == texts(args@),
            "--text"@ != "--json"@,
            "--text"@ != "--stdin"@,
            "--text"@ != "--save"@,
            "--json"@ != "--stdin"@,
            "--json"@ != "--save"@,
            "--save"@ != "--stdin"@,
            !is_help("--text"@),
            !is_help("--json"@),
            !is_help("--stdin"@),
            !is_help("--save"@),
            !asks_help(views.take(i as int)),
            mode == mode_of(views.take(i as int)),
            of_transform ==> use_stdin == views.take(i as int).contains("--stdin"@),
            of_transform ==> save == views.take(i as int).contains("--save"@),
            texts(parts@) == text_parts(views.take(i as int), of_transform),
        decreases args@.len() - i,
    {
        let arg = args[i].as_str();
        let ghost seen = views.take(i as int);
        let ghost next = views.take(i + 1);
        proof {
            assert(next.drop_last() =~= seen);
            assert(next.last() == arg@);
            assert(next =~= seen.push(arg@));
            lemma_push_contains(seen, arg@, "--stdin"@);
            lemma_push_contains(seen, arg@, "--save"@);
        }
        if same_text(arg, "--help") || same_text(arg, "-h") {
            assert(is_help(views[i as int]));
            return None;
        }
        proof {
            assert forall|j: int| 0 <= j < next.len() implies !is_help(#[trigger] next[j]) by {
                if j < i {
                    assert(seen[j] == next[j]);
                }
            }
        }
        if same_text(arg, "--text") {
            mode = OutputMode::Text;
        } else if same_text(arg, "--json") {
            mode = OutputMode::Json;
        } else if of_transform && same_text(arg, "--stdin") {
            use_stdin = true;
        } else if of_transform && same_text(arg, "--save") {
            save = true;
        } else {
            let ghost before = texts(parts@);
            parts.push(args[i].clone());
            assert(texts(parts@) =~= before.push(arg@));
        }
        i += 1;
    }
    assert(views.take(i as int) =~= views);
    Some(TextArgs { mode, use_stdin, save, parts })
}

proof fn lemma_push_contains(s: Seq<Seq<char>>, item: Seq<char>, wanted: Seq<char>)
    ensures
        s.push(item).contains(wanted) == (s.contains(wanted) || item == wanted),
{
    let pushed = s.push(item);
    if s.contains(wanted) {
        let i = choose|i: int| 0 <= i < s.len() && s[i] == wanted;
        assert(pushed[i] == wanted);
    }
    if item == wanted {
        assert(pushed[s.len() as int] == wanted);
    }
    if pushed.contains(wanted) {
        let i = choose|i: int| 0 <= i < pushed.len() && pushed[i] == wanted;
        if i < s.len() {
            assert(s[i] == wanted);
        }
    }
}

/// Reads the arguments of the kana command.
pub fn parse_text_command(args: &[String]) -> (command: Result<CliCommand, CliError>)
    ensures
        match command {
            Ok(command) => kana_command(texts(args@)) == Ok::<_, CliErrorView>(command@),
            Err(error) => kana_command(texts(args@)) == Err::<CliCommandView, _>(error@),
        },
{
    match read_text_args(args, false) {
        None => Ok(CliCommand::Help),
        Some(read) => if read.parts.len() == 0 {
            Err(CliError::KanaRequiresText)
        } else {
            Ok(CliCommand::Kana(read.mode, join_texts(&read.parts, " ")))
        },
    }
}

/// Reads the arguments of the transform command.
pub fn parse_transform_command(args: &[String]) -> (command: Result<CliCommand, CliError>)
    ensures
        match command {
            Ok(command) => transform_command(texts(args@)) == Ok::<_, CliErrorView>(command@),
            Err(error) => transform_command(texts(args@)) == Err::<CliCommandView, _>(error@),
        },
{
    match read_text_args(args, true) {
        None => Ok(CliCommand::Help),
        Some(read) => if read.use_stdin {
            if read.parts.len() == 0 {
                Ok(CliCommand::TransformLines(read.mode, read.save))
            } else {
                Err(CliError::StdinWithText)
            }
        } else if read.parts.len() == 0 {
            Err(CliError::TransformRequiresText)
        } else {
            Ok(CliCommand::Transform(read.mode, read.save, join_texts(&read.parts, " ")))
        },
    }
}

fn args_behind(args: &[String]) -> (rest: Vec<String>)
    requires
        args@.len() > 0,
    ensures
        texts(rest@) == texts(args@).skip(1),
{
    let mut rest: Vec<String> = Vec::new();
    let mut i: usize = 1;
    while i < args.len()
        invariant
            1 <= i <= args@.len(),
            texts(rest@) =~= texts(args@).subrange(1, i as int),
        decreases args@.len() - i,
    {
        let ghost before = texts(rest@);
        rest.push(args[i].clone());
        assert(texts(rest@) =~= before.push(texts(args@)[i as int]));
        i += 1;
    }
    assert(texts(rest@) =~= texts(args@).skip(1));
    rest
}

/// Reads a command line.
pub fn parse_command(args: &[String]) -> (command: Result<CliCommand, CliError>)
    ensures
        match command {
            Ok(command) => command_of(texts(args@)) == Ok::<_, CliErrorView>(command@),
            Err(error) => command_of(texts(args@)) == Err::<CliCommandView, _>(error@),
        },
{
    if args.len() == 0 {
        return Err(CliError::MissingCommand);
    }
    let command = args[0].as_str();
    assert(texts(args@)[0] == command@);
    if same_text(command, "kana") {
        parse_text_command(&args_behind(args))
    } else if same_text(command, "transform") {
        parse_transform_command(&args_behind(args))
    } else if same_text(command, "--help") || same_text(command, "-h") || same_text(
        command,
        "help",
    ) {
        Ok(CliCommand::Help)
    } else {
        Err(CliError::UnknownCommand(args[0].clone()))
    }
}

/// The usage of the command line.
pub fn usage() -> (text: String)
    ensures
        text@
            == "Usage:\n  romaji-agent-cli kana [--json|--text] <text>\n  romaji-agent-cli transform [--json|--text] [--save] <text>\n  romaji-agent-cli transform [--json|--text] [--save] --stdin"@,
{
    "Usage:\n  romaji-agent-cli kana [--json|--text] <text>\n  romaji-agent-cli transform [--json|--text] [--save] <text>\n  romaji-agent-cli transform [--json|--text] [--save] --stdin".to_owned()
}

/// What the kana command prints: the input and its reading as a JSON object, or the reading
/// alone.
pub open spec fn kana_output_of(
    mode: OutputMode,
    raw: Seq<char>,
    normalized_raw: Seq<char>,
    kana_candidate: Seq<char>,
) -> Seq<char> {
    match mode {
        OutputMode::Json => json_object(
            seq![
                json_member("raw"@, json_string(raw)),
                json_member("normalized_raw"@, json_string(normalized_raw)),
                json_member("kana_candidate"@, json_string(kana_candidate)),
            ],
        ),
        OutputMode::Text => kana_candidate,
    }
}

/// What the kana command prints for an input.
pub fn kana_output(mode: OutputMode, input: &NormalizedInput) -> (line: String)
    ensures
        line@ == kana_output_of(mode, input.raw@, input.normalized_raw@, input.kana_candidate@),
{
    match mode {
        OutputMode::Json => {
            let members: Vec<String> = vec![
                text_member("raw", input.raw.as_str()),
                text_member("normalized_raw", input.normalized_raw.as_str()),
                text_member("kana_candidate", input.kana_candidate.as_str()),
            ];
            assert(texts(members@) =~= seq![
                json_member("raw"@, json_string(input.raw@)),
                json_member("normalized_raw"@, json_string(input.normalized_raw@)),
                json_member("kana_candidate"@, json_string(input.kana_candidate@)),
            ]);
            object(&members)
        },
        OutputMode::Text => input.kana_candidate.clone(),
    }
}

/// A line of a report.
pub open spec fn report_line(name: Seq<char>, value: Seq<char>) -> Seq<char> {
    name + ": "@ + value + "\n"@
}

/// The report on a result. The confidence is given as text.
pub open spec fn report_of(result: TransformResult, confidence: Seq<char>) -> Seq<char> {
    report_line("raw"@, result.raw@) + report_line("normalized_raw"@, result.normalized_raw@)
        + report_line("kana_candidate"@, result.kana_candidate@) + report_line(
        "converted"@,
        result.converted@,
    ) + report_line("refined"@, result.refined@) + report_line("confidence"@, confidence)
}

fn append_line(report: &mut String, name: &str, value: &str)
    ensures
        final(report)@ == old(report)@ + report_line(name@, value@),
{
    let ghost before = report@;
    report.append(name);
    report.append(": ");
    report.append(value);
    report.append("\n");
    assert(report@ =~= before + report_line(name@, value@));
}

/// The report on a result, for people to read. The confidence is given as text.
pub fn transform_report(result: &TransformResult, confidence: &str) -> (report: String)
    ensures
        report@ == report_of(*result, confidence@),
{
    let mut report = String::new();
    append_line(&mut report, "raw", result.raw.as_str());
    append_line(&mut report, "normalized_raw", result.normalized_raw.as_str());
    append_line(&mut report, "kana_candidate", result.kana_candidate.as_str());
    append_line(&mut report, "converted", result.converted.as_str());
    append_line(&mut report, "refined", result.refined.as_str());
    append_line(&mut report, "confidence", confidence);
    assert(report@ =~= report_of(*result, confidence@));
    report
}

/// No flag reaches the text, and arguments among which there is no flag are the text as they
/// stand.
pub proof fn law_text_parts(args: Seq<Seq<char>>, of_transform: bool)
    ensures
        forall|i: int|
            0 <= i < text_parts(args, of_transform).len() ==> !is_flag(
                #[trigger] text_parts(args, of_transform)[i],
                of_transform,
            ),
        (forall|i: int| 0 <= i < args.len() ==> !is_flag(#[trigger] args[i], of_transform))
            ==> text_parts(args, of_transform) == args,
    decreases args.len(),
{
    if args.len() > 0 {
        let front = args.drop_last();
        law_text_parts(front, of_transform);
        let parts = text_parts(args, of_transform);
        let front_parts = text_parts(front, of_transform);
        assert forall|i: int| 0 <= i < parts.len() implies !is_flag(
            #[trigger] parts[i],
            of_transform,
        ) by {
            if i < front_parts.len() {
                assert(parts[i] == front_parts[i]);
            }
        }
        if forall|i: int| 0 <= i < args.len() ==> !is_flag(#[trigger] args[i], of_transform) {
            assert forall|i: int| 0 <= i < front.len() implies !is_flag(
                #[trigger] front[i],
                of_transform,
            ) by {
                assert(front[i] == args[i]);
            }
            assert(!is_flag(args[args.len() - 1], of_transform));
            assert(text_parts(args, of_transform) =~= args);
        }
    }
}

/// Flags may stand anywhere: the text of arguments is the text of those before any point and of
/// those behind it.
pub proof fn law_text_parts_split(
    first: Seq<Seq<char>>,
    second: Seq<Seq<char>>,
    of_transform: bool,
)
    ensures
        text_parts(first + second, of_transform) == text_parts(first, of_transform) + text_parts(
            second,
            of_transform,
        ),
    decreases second.len(),
{
    if second.len() == 0 {
        assert(first + second =~= first);
        assert(text_parts(second, of_transform).len() == 0);
    } else {
        law_text_parts_split(first, second.drop_last(), of_transform);
        assert((first + second).drop_last() =~= first + second.drop_last());
        assert((first + second).last() == second.last());
        assert(text_parts(first + second, of_transform) =~= text_parts(first, of_transform)
            + text_parts(second, of_transform));
    }
}

/// The last flag for the output mode decides, whatever stands before it.
pub proof fn law_last_mode_flag_wins(args: Seq<Seq<char>>, rest: Seq<Seq<char>>)
    requires
        forall|i: int|
            0 <= i < rest.len() ==> #[trigger] rest[i] != "--text"@ && rest[i] != "--json"@,
    ensures
        mode_of(args.push("--text"@) + rest) == OutputMode::Text,
        mode_of(args.push("--json"@) + rest) == OutputMode::Json,
    decreases rest.len(),
{
    reveal_strlit("--text");
    reveal_strlit("--json");
    assert("--text"@[2] != "--json"@[2]);
    let text = args.push("--text"@);
    let json = args.push("--json"@);
    if rest.len() == 0 {
        assert(text + rest =~= text);
        assert(json + rest =~= json);
    } else {
        let front = rest.drop_last();
        assert forall|i: int| 0 <= i < front.len() implies #[trigger] front[i] != "--text"@
            && front[i] != "--json"@ by {
            assert(front[i] == rest[i]);
        }
        law_last_mode_flag_wins(args, front);
        assert((text + rest).drop_last() =~= text + front);
        assert((json + rest).drop_last() =~= json + front);
        assert(rest[rest.len() - 1] != "--text"@ && rest[rest.len() - 1] != "--json"@);
    }
}

/// A transform is saved only where the command line holds the flag for it.
pub proof fn law_saved_only_with_flag(args: Seq<Seq<char>>)
    ensures
        match command_of(args) {
            Ok(CliCommandView::Transform(_, save, _)) => save ==> args.contains("--save"@),
            Ok(CliCommandView::TransformLines(_, save)) => save ==> args.contains("--save"@),
            _ => true,
        },
{
    if args.len() > 0 && args.skip(1).contains("--save"@) {
        let rest = args.skip(1);
        let i = choose|i: int| 0 <= i < rest.len() && rest[i] == "--save"@;
        assert(args[i + 1] == "--save"@);
    }
}

/// The first argument alone decides which command reads the others.
pub proof fn law_command_is_chosen(command: Seq<char>, args: Seq<Seq<char>>)
    ensures
        command_of(seq![]) == Err::<CliCommandView, _>(CliErrorView::MissingCommand),
        command == "kana"@ ==> command_of(seq![command] + args) == kana_command(args),
        command == "transform"@ ==> command_of(seq![command] + args) == transform_command(args),
        command == "help"@ || command == "--help"@ || command == "-h"@ ==> command_of(
            seq![command] + args,
        ) == Ok::<_, CliErrorView>(CliCommandView::Help),
        command != "kana"@ && command != "transform"@ && command != "help"@ && command
            != "--help"@ && command != "-h"@ ==> command_of(seq![command] + args) == Err::<
            CliCommandView,
            _,
        >(CliErrorView::UnknownCommand(command)),
{
    reveal_strlit("kana");
    reveal_strlit("transform");
    reveal_strlit("help");
    reveal_strlit("--help");
    reveal_strlit("-h");
    assert("kana"@.len() == 4 && "transform"@.len() == 9 && "help"@.len() == 4);
    assert("--help"@.len() == 6 && "-h"@.len() == 2);
    assert("kana"@[0] != "help"@[0]);
    assert((seq![command] + args)[0] == command);
    assert((seq![command] + args).skip(1) =~= args);
}

proof fn lemma_plain_mode(args: Seq<Seq<char>>)
    requires
        forall|i: int|
            0 <= i < args.len() ==> #[trigger] args[i] != "--text"@ && args[i] != "--json"@,
    ensures
        mode_of(args) == OutputMode::Json,
    decreases args.len(),
{
    if args.len() > 0 {
        let front = args.drop_last();
        assert forall|i: int| 0 <= i < front.len() implies #[trigger] front[i] != "--text"@
            && front[i] != "--json"@ by {
            assert(front[i] == args[i]);
        }
        lemma_plain_mode(front);
        assert(args[args.len() - 1] != "--text"@ && args[args.len() - 1] != "--json"@);
    }
}

/// Arguments of the kana command that are no flags are its text, all of them in their order with
/// a space between one and the next.
pub proof fn law_kana_text(args: Seq<Seq<char>>)
    requires
        forall|i: int|
            0 <= i < args.len() ==> #[trigger] args[i] != "--text"@ && args[i] != "--json"@
                && args[i] != "--help"@ && args[i] != "-h"@,
    ensures
        args.len() > 0 ==> kana_command(args) == Ok::<_, CliErrorView>(
            CliCommandView::Kana(OutputMode::Json, join(args, " "@)),
        ),
        args.len() == 0 ==> kana_command(args) == Err::<CliCommandView, _>(
            CliErrorView::KanaRequiresText,
        ),
{
    law_text_parts(args, false);
    lemma_plain_mode(args);
}

/// Arguments of the transform command that are no flags are its text, all of them in their order
/// with a space between one and the next; nothing is saved.
pub proof fn law_transform_text(args: Seq<Seq<char>>)
    requires
        forall|i: int|
            0 <= i < args.len() ==> #[trigger] args[i] != "--text"@ && args[i] != "--json"@
                && args[i] != "--help"@ && args[i] != "-h"@ && args[i] != "--stdin"@ && args[i]
                != "--save"@,
    ensures
        args.len() > 0 ==> transform_command(args) == Ok::<_, CliErrorView>(
            CliCommandView::Transform(OutputMode::Json, false, join(args, " "@)),
        ),
        args.len() == 0 ==> transform_command(args) == Err::<CliCommandView, _>(
            CliErrorView::TransformRequiresText,
        ),
{
    law_text_parts(args, true);
    lemma_plain_mode(args);
    assert(!args.contains("--save"@));
    assert(!args.contains("--stdin"@));
}

proof fn lemma_insert_contains(
    first: Seq<Seq<char>>,
    item: Seq<char>,
    second: Seq<Seq<char>>,
    wanted: Seq<char>,
)
    ensures
        (first + seq![item] + second).contains(wanted) == ((first + second).contains(wanted) || item
            == wanted),
{
    let with = first + seq![item] + second;
    let without = first + second;
    if without.contains(wanted) {
        let i = choose|i: int| 0 <= i < without.len() && without[i] == wanted;
        if i < first.len() {
            assert(with[i] == wanted);
        } else {
            assert(with[i + 1] == wanted);
        }
    }
    if item == wanted {
        assert(with[first.len() as int] == wanted);
    }
    if with.contains(wanted) {
        let i = choose|i: int| 0 <= i < with.len() && with[i] == wanted;
        if i < first.len() {
            assert(without[i] == wanted);
        } else if i > first.len() {
            assert(without[i - 1] == wanted);
        }
    }
}

proof fn lemma_insert_flag(
    first: Seq<Seq<char>>,
    flag: Seq<char>,
    second: Seq<Seq<char>>,
    of_transform: bool,
)
    requires
        is_flag(flag, of_transform),
        !is_help(flag),
    ensures
        text_parts(first + seq![flag] + second, of_transform) == text_parts(
            first + second,
            of_transform,
        ),
        asks_help(first + seq![flag] + second) == asks_help(first + second),
{
    let none = Seq::<Seq<char>>::empty();
    reveal_with_fuel(text_parts, 2);
    assert(seq![flag].drop_last() =~= none);
    law_text_parts_split(first + seq![flag], second, of_transform);
    law_text_parts_split(first, seq![flag], of_transform);
    law_text_parts_split(first, second, of_transform);
    assert(text_parts(first, of_transform) + none =~= text_parts(first, of_transform));
    let with = first + seq![flag] + second;
    let without = first + second;
    if asks_help(without) {
        let i = choose|i: int| 0 <= i < without.len() && is_help(#[trigger] without[i]);
        if i < first.len() {
            assert(is_help(with[i]));
        } else {
            assert(is_help(with[i + 1]));
        }
    }
    if asks_help(with) {
        let i = choose|i: int| 0 <= i < with.len() && is_help(#[trigger] with[i]);
        if i < first.len() {
            assert(is_help(without[i]));
        } else {
            assert(i != first.len());
            assert(is_help(without[i - 1]));
        }
    }
}

proof fn lemma_insert_mode(first: Seq<Seq<char>>, item: Seq<char>, second: Seq<Seq<char>>)
    requires
        item != "--text"@,
        item != "--json"@,
    ensures
        mode_of(first + seq![item] + second) == mode_of(first + second),
    decreases second.len(),
{
    let with = first + seq![item] + second;
    let without = first + second;
    if second.len() == 0 {
        assert(with.drop_last() =~= without);
        assert(with.last() == item);
    } else {
        assert(with.drop_last() =~= first + seq![item] + second.drop_last());
        assert(without.drop_last() =~= first + second.drop_last());
        lemma_insert_mode(first, item, second.drop_last());
    }
}

proof fn lemma_flags_differ()
    ensures
        "--text"@ != "--json"@,
        "--text"@ != "--save"@,
        "--json"@ != "--save"@,
        "--stdin"@ != "--text"@,
        "--stdin"@ != "--json"@,
        "--stdin"@ != "--save"@,
        !is_help("--text"@),
        !is_help("--json"@),
        !is_help("--stdin"@),
        !is_help("--save"@),
{
    reveal_strlit("--text");
    reveal_strlit("--json");
    reveal_strlit("--stdin");
    reveal_strlit("--save");
    reveal_strlit("--help");
    reveal_strlit("-h");
    assert("--text"@[2] != "--json"@[2]);
    assert("--text"@[2] != "--save"@[2]);
    assert("--text"@[2] != "--help"@[2]);
    assert("--json"@[2] != "--save"@[2]);
    assert("--json"@[2] != "--help"@[2]);
    assert("--save"@[2] != "--help"@[2]);
    assert("--stdin"@.len() == 7 && "--text"@.len() == 6 && "--json"@.len() == 6);
    assert("--save"@.len() == 6 && "--help"@.len() == 6 && "-h"@.len() == 2);
}

/// A request for the usage anywhere among the arguments of a command is granted.
pub proof fn law_help_anywhere(args: Seq<Seq<char>>, i: int)
    requires
        0 <= i < args.len(),
        args[i] == "--help"@ || args[i] == "-h"@,
    ensures
        kana_command(args) == Ok::<_, CliErrorView>(CliCommandView::Help),
        transform_command(args) == Ok::<_, CliErrorView>(CliCommandView::Help),
{
    assert(is_help(args[i]));
}

/// A flag for the output mode changes the mode, unless another one follows, and nothing else.
pub proof fn law_mode_flag_sets_the_mode(first: Seq<Seq<char>>, second: Seq<Seq<char>>)
    requires
        forall|i: int|
            0 <= i < second.len() ==> #[trigger] second[i] != "--text"@ && second[i] != "--json"@,
    ensures
        match kana_command(first + second) {
            Ok(CliCommandView::Kana(_, text)) => {
                &&& kana_command(first + seq!["--text"@] + second) == Ok::<_, CliErrorView>(
                    CliCommandView::Kana(OutputMode::Text, text),
                )
                &&& kana_command(first + seq!["--json"@] + second) == Ok::<_, CliErrorView>(
                    CliCommandView::Kana(OutputMode::Json, text),
                )
            },
            other => kana_command(first + seq!["--text"@] + second) == other && kana_command(
                first + seq!["--json"@] + second,
            ) == other,
        },
        match transform_command(first + second) {
            Ok(CliCommandView::Transform(_, save, text)) => {
                &&& transform_command(first + seq!["--text"@] + second) == Ok::<_, CliErrorView>(
                    CliCommandView::Transform(OutputMode::Text, save, text),
                )
                &&& transform_command(first + seq!["--json"@] + second) == Ok::<_, CliErrorView>(
                    CliCommandView::Transform(OutputMode::Json, save, text),
                )
            },
            Ok(CliCommandView::TransformLines(_, save)) => {
                &&& transform_command(first + seq!["--text"@] + second) == Ok::<_, CliErrorView>(
                    CliCommandView::TransformLines(OutputMode::Text, save),
                )
                &&& transform_command(first + seq!["--json"@] + second) == Ok::<_, CliErrorView>(
                    CliCommandView::TransformLines(OutputMode::Json, save),
                )
            },
            other => transform_command(first + seq!["--text"@] + second) == other
                && transform_command(first + seq!["--json"@] + second) == other,
        },
{
    lemma_flags_differ();
    law_last_mode_flag_wins(first, second);
    assert(first.push("--text"@) =~= first + seq!["--text"@]);
    assert(first.push("--json"@) =~= first + seq!["--json"@]);
    lemma_insert_flag(first, "--text"@, second, false);
    lemma_insert_flag(first, "--json"@, second, false);
    lemma_insert_flag(first, "--text"@, second, true);
    lemma_insert_flag(first, "--json"@, second, true);
    lemma_insert_contains(first, "--text"@, second, "--save"@);
    lemma_insert_contains(first, "--json"@, second, "--save"@);
    lemma_insert_contains(first, "--text"@, second, "--stdin"@);
    lemma_insert_contains(first, "--json"@, second, "--stdin"@);
}

/// The flag for saving, wherever it stands, saves what is transformed and changes nothing else.
pub proof fn law_save_flag_saves(first: Seq<Seq<char>>, second: Seq<Seq<char>>)
    ensures
        transform_command(first + seq!["--save"@] + second) == match transform_command(
            first + second,
        ) {
            Ok(CliCommandView::Transform(mode, _, text)) => Ok::<_, CliErrorView>(
                CliCommandView::Transform(mode, true, text),
            ),
            Ok(CliCommandView::TransformLines(mode, _)) => Ok::<_, CliErrorView>(
                CliCommandView::TransformLines(mode, true),
            ),
            other => other,
        },
{
    lemma_flags_differ();
    lemma_insert_flag(first, "--save"@, second, true);
    lemma_insert_mode(first, "--save"@, second);
    lemma_insert_contains(first, "--save"@, second, "--save"@);
    lemma_insert_contains(first, "--save"@, second, "--stdin"@);
}

/// The flag for the standard input, wherever it stands, takes the place of a text: with a text
/// beside it, it is refused.
pub proof fn law_stdin_flag_replaces_text(first: Seq<Seq<char>>, second: Seq<Seq<char>>)
    ensures
        match transform_command(first + second) {
            Ok(CliCommandView::Transform(_, _, _)) => transform_command(
                first + seq!["--stdin"@] + second,
            ) == Err::<CliCommandView, _>(CliErrorView::StdinWithText),
            Err(CliErrorView::TransformRequiresText) => transform_command(
                first + seq!["--stdin"@] + second,
            ) == Ok::<_, CliErrorView>(
                CliCommandView::TransformLines(
                    mode_of(first + second),
                    (first + second).contains("--save"@),
                ),
            ),
            other => transform_command(first + seq!["--stdin"@] + second) == other,
        },
{
    lemma_flags_differ();
    lemma_insert_flag(first, "--stdin"@, second, true);
    lemma_insert_mode(first, "--stdin"@, second);
    lemma_insert_contains(first, "--stdin"@, second, "--save"@);
    lemma_insert_contains(first, "--stdin"@, second, "--stdin"@);
}

/// As text the reading alone is printed; as JSON all three texts are, each in full.
pub proof fn law_kana_output(raw: Seq<char>, normalized_raw: Seq<char>, kana_candidate: Seq<char>)
    ensures
        kana_output_of(OutputMode::Text, raw, normalized_raw, kana_candidate) == kana_candidate,
        kana_output_of(OutputMode::Json, raw, normalized_raw, kana_candidate)
            == "{\"raw\":"@ + json_string(raw) + ",\"normalized_raw\":"@ + json_string(
            normalized_raw,
        ) + ",\"kana_candidate\":"@ + json_string(kana_candidate) + "}"@,
{
    reveal_strlit("raw");
    reveal_strlit("normalized_raw");
    reveal_strlit("kana_candidate");
    reveal_strlit("{\"raw\":");
    reveal_strlit(",\"normalized_raw\":");
    reveal_strlit(",\"kana_candidate\":");
    reveal_strlit("}");
    let first = seq![json_member("raw"@, json_string(raw))];
    let second = seq![json_member("normalized_raw"@, json_string(normalized_raw))];
    let third = seq![json_member("kana_candidate"@, json_string(kana_candidate))];
    lemma_plain_member("raw"@, json_string(raw));
    lemma_plain_member("normalized_raw"@, json_string(normalized_raw));
    lemma_plain_member("kana_candidate"@, json_string(kana_candidate));
    law_brackets(first + second, third, ""@, ""@);
    law_join(first, second, seq![',']);
    law_join(first, seq![], seq![',']);
    law_join(second, seq![], seq![',']);
    law_join(third, seq![], seq![',']);
    assert(first + second + third =~= seq![
        json_member("raw"@, json_string(raw)),
        json_member("normalized_raw"@, json_string(normalized_raw)),
        json_member("kana_candidate"@, json_string(kana_candidate)),
    ]);
    assert("{\"raw\":"@ =~= seq!['{'] + (seq!['"'] + "raw"@ + seq!['"', ':']));
    assert(",\"normalized_raw\":"@ =~= seq![','] + (seq!['"'] + "normalized_raw"@ + seq![
        '"',
        ':',
    ]));
    assert(",\"kana_candidate\":"@ =~= seq![','] + (seq!['"'] + "kana_candidate"@ + seq![
        '"',
        ':',
    ]));
    assert("}"@ =~= seq!['}']);
    assert(kana_output_of(OutputMode::Json, raw, normalized_raw, kana_candidate)
        =~= "{\"raw\":"@ + json_string(raw) + ",\"normalized_raw\":"@ + json_string(
        normalized_raw,
    ) + ",\"kana_candidate\":"@ + json_string(kana_candidate) + "}"@);
}

/// A report gives every text of the result, and the confidence, in full on a line that names it.
pub proof fn law_report_gives_everything(result: TransformResult, confidence: Seq<char>)
    ensures
        report_of(result, confidence) == "raw: "@ + result.raw@ + "\nnormalized_raw: "@
            + result.normalized_raw@ + "\nkana_candidate: "@ + result.kana_candidate@
            + "\nconverted: "@ + result.converted@ + "\nrefined: "@ + result.refined@
            + "\nconfidence: "@ + confidence + "\n"@,
{
    reveal_strlit("raw");
    reveal_strlit("normalized_raw");
    reveal_strlit("kana_candidate");
    reveal_strlit("converted");
    reveal_strlit("refined");
    reveal_strlit("confidence");
    reveal_strlit(": ");
    reveal_strlit("\n");
    reveal_strlit("raw: ");
    reveal_strlit("\nnormalized_raw: ");
    reveal_strlit("\nkana_candidate: ");
    reveal_strlit("\nconverted: ");
    reveal_strlit("\nrefined: ");
    reveal_strlit("\nconfidence: ");
    assert("raw: "@ =~= "raw"@ + ": "@);
    assert("\nnormalized_raw: "@ =~= "\n"@ + "normalized_raw"@ + ": "@);
    assert("\nkana_candidate: "@ =~= "\n"@ + "kana_candidate"@ + ": "@);
    assert("\nconverted: "@ =~= "\n"@ + "converted"@ + ": "@);
    assert("\nrefined: "@ =~= "\n"@ + "refined"@ + ": "@);
    assert("\nconfidence: "@ =~= "\n"@ + "confidence"@ + ": "@);
    assert(report_of(result, confidence) =~= "raw: "@ + result.raw@ + "\nnormalized_raw: "@
        + result.normalized_raw@ + "\nkana_candidate: "@ + result.kana_candidate@
        + "\nconverted: "@ + result.converted@ + "\nrefined: "@ + result.refined@
        + "\nconfidence: "@ + confidence + "\n"@);
}

/// An unknown command is named in full.
pub proof fn law_unknown_command_is_named(command: Seq<char>)
    ensures
        cli_error_text(CliErrorView::UnknownCommand(command)) == "unknown command: "@ + command,
{
}

} // verus!
