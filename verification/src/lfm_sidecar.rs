//! The sidecar that converts drafts with a local language model: its arguments.

use crate::config::{is_model_arg, sidecar_args_of};
use crate::json::optional_text;
use crate::number::{
    float_literal, is_float_literal, parse_i32, parse_unsigned, read_signed, read_unsigned,
};
use crate::options::{
    law_prefixes_are_taken_off, required_value, strip_prefixes, without_prefixes, OptionsError,
    OptionsErrorView,
};
use crate::search::{law_starts_with, starts_with, starts_with_text};
use crate::text::{same_text, texts};
use vstd::prelude::*;

verus! {

/// How the sidecar runs its model. The temperature is the literal of a floating-point number.
#[derive(Debug, Clone, PartialEq, Eq)]
pub struct SidecarOptions {
    pub model: String,
    pub ctx_size: u32,
    pub max_tokens: usize,
    pub temperature: String,
    pub threads: Option<i32>,
}

/// What arguments ask for.
#[derive(Debug, Clone, PartialEq, Eq)]
pub enum Invocation {
    Help,
    Run(SidecarOptions),
}

/// Options while arguments are read: the model may still be missing.
pub struct OptionsView {
    pub model: Option<Seq<char>>,
    pub ctx_size: int,
    pub max_tokens: int,
    pub temperature: Seq<char>,
    pub threads: Option<int>,
}

/// The options before any argument.
pub open spec fn default_options() -> OptionsView {
    OptionsView {
        model: None,
        ctx_size: 2048,
        max_tokens: 256,
        temperature: "0.1"@,
        threads: None,
    }
}

/// The flags that take a value.
pub open spec fn takes_value(arg: Seq<char>) -> bool {
    arg == "--model"@ || arg == "--ctx-size"@ || arg == "--max-tokens"@ || arg == "--temperature"@
        || arg == "--threads"@
}

/// The options after a flag with its value.
pub open spec fn set_option(options: OptionsView, flag: Seq<char>, value: Seq<char>) -> Result<
    OptionsView,
    OptionsErrorView,
> {
    if flag == "--model"@ {
        Ok(OptionsView { model: Some(value), ..options })
    } else if flag == "--ctx-size"@ {
        match read_unsigned(value, u32::MAX as int) {
            Ok(n) => Ok(OptionsView { ctx_size: n, ..options }),
            Err(e) => Err(OptionsErrorView::InvalidNumber(flag, e)),
        }
    } else if flag == "--max-tokens"@ {
        match read_unsigned(value, usize::MAX as int) {
            Ok(n) => Ok(OptionsView { max_tokens: n, ..options }),
            Err(e) => Err(OptionsErrorView::InvalidNumber(flag, e)),
        }
    } else if flag == "--temperature"@ {
        if is_float_literal(value) {
            Ok(OptionsView { temperature: value, ..options })
        } else {
            Err(OptionsErrorView::InvalidFloat(flag, value))
        }
    } else {
        match read_signed(value, i32::MAX as int) {
            Ok(n) => Ok(OptionsView { threads: Some(n), ..options }),
            Err(e) => Err(OptionsErrorView::InvalidNumber(flag, e)),
        }
    }
}

/// Reads arguments from left to right. The first argument that is wrong or asks for help ends
/// the reading; help gives no options.
pub open spec fn read_options(args: Seq<Seq<char>>, options: OptionsView) -> Result<
    Option<OptionsView>,
    OptionsErrorView,
>
    decreases args.len(),
{
    if args.len() == 0 {
        Ok(Some(options))
    } else if takes_value(args[0]) {
        if args.len() == 1 {
            Err(OptionsErrorView::MissingValue(args[0]))
        } else {
            match set_option(options, args[0], args[1]) {
                Ok(options) => read_options(args.skip(2), options),
                Err(e) => Err(e),
            }
        }
    } else if args[0] == "--help"@ || args[0] == "-h"@ {
        Ok(None)
    } else if starts_with(args[0], "--model="@) {
        read_options(
            args.skip(1),
            OptionsView { model: Some(without_prefixes(args[0], "--model="@)), ..options },
        )
    } else {
        Err(OptionsErrorView::Unknown(args[0]))
    }
}

/// What arguments ask for; a model has to be named.
pub open spec fn invocation_of(args: Seq<Seq<char>>) -> Result<
    Option<OptionsView>,
    OptionsErrorView,
> {
    match read_options(args, default_options()) {
        Ok(Some(options)) => if options.model is Some {
            Ok(Some(options))
        } else {
            Err(OptionsErrorView::ModelRequired)
        },
        other => other,
    }
}

impl View for SidecarOptions {
    type V = OptionsView;

    open spec fn view(&self) -> OptionsView {
        OptionsView {
            model: Some(self.model@),
            ctx_size: self.ctx_size as int,
            max_tokens: self.max_tokens as int,
            temperature: self.temperature@,
            threads: match self.threads {
                Some(n) => Some(n as int),
                None => None,
            },
        }
    }
}

/// Options while arguments are read.
struct Draft {
    model: Option<String>,
    ctx_size: u32,
    max_tokens: usize,
    temperature: String,
    threads: Option<i32>,
}

impl Draft {
    spec fn draft_view(self) -> OptionsView {
        OptionsView {
            model: optional_text(self.model),
            ctx_size: self.ctx_size as int,
            max_tokens: self.max_tokens as int,
            temperature: self.temperature@,
            threads: match self.threads {
                Some(n) => Some(n as int),
                None => None,
            },
        }
    }

    fn set(&mut self, flag: &str, value: String) -> (done: Result<(), OptionsError>)
        requires
            takes_value(flag@),
        ensures
            match done {
                Ok(_) => set_option(old(self).draft_view(), flag@, value@) == Ok::<
                    OptionsView,
                    OptionsErrorView,
                >(final(self).draft_view()),
                Err(e) => set_option(old(self).draft_view(), flag@, value@) == Err::<
                    OptionsView,
                    OptionsErrorView,
                >(e@),
            },
    {
        if same_text(flag, "--model") {
            self.model = Some(value);
        } else if same_text(flag, "--ctx-size") {
            match parse_unsigned(value.as_str(), 0xffff_ffff) {
                Ok(n) => {
                    self.ctx_size = n as u32;
                },
                Err(e) => {
                    return Err(OptionsError::InvalidNumber(flag.to_owned(), e));
                },
            }
        } else if same_text(flag, "--max-tokens") {
            match parse_unsigned(value.as_str(), usize::MAX as u64) {
                Ok(n) => {
                    self.max_tokens = n as usize;
                },
                Err(e) => {
                    return Err(OptionsError::InvalidNumber(flag.to_owned(), e));
                },
            }
        } else if same_text(flag, "--temperature") {
            if float_literal(value.as_str()) {
                self.temperature = value;
            } else {
                return Err(OptionsError::InvalidFloat(flag.to_owned(), value));
            }
        } else {
            match parse_i32(value.as_str()) {
                Ok(n) => {
                    self.threads = Some(n);
                },
                Err(e) => {
                    return Err(OptionsError::InvalidNumber(flag.to_owned(), e));
                },
            }
        }
        Ok(())
    }
}

fn value_flag(arg: &str) -> (r: bool)
    ensures
        r == takes_value(arg@),
{
    same_text(arg, "--model") || same_text(arg, "--ctx-size") || same_text(arg, "--max-tokens")
        || same_text(arg, "--temperature") || same_text(arg, "--threads")
}

impl SidecarOptions {
    /// Reads the arguments of the sidecar, without the program's name.
    pub fn parse(args: &[String]) -> (invocation: Result<Invocation, OptionsError>)
        ensures
            match invocation {
                Ok(Invocation::Run(options)) => invocation_of(texts(args@)) == Ok::<
                    Option<OptionsView>,
                    OptionsErrorView,
                >(Some(options@)),
                Ok(Invocation::Help) => invocation_of(texts(args@)) == Ok::<
                    Option<OptionsView>,
                    OptionsErrorView,
                >(None),
                Err(e) => invocation_of(texts(args@)) == Err::<
                    Option<OptionsView>,
                    OptionsErrorView,
                >(e@),
            },
    {
        let mut draft = Draft {
            model: None,
            ctx_size: 2048,
            max_tokens: 256,
            temperature: "0.1".to_owned(),
            threads: None,
        };
        let ghost views = texts(args@);
        let mut at: usize = 0;
        assert(views.skip(0) == views);
        while at < args.len()
            invariant
                at <= args@.len(),
                views == texts(args@),
                read_options(views, default_options()) == read_options(
                    views.skip(at as int),
                    draft.draft_view(),
                ),
            decreases args@.len() - at,
        {
            let ghost rest = views.skip(at as int);
            let arg = args[at].as_str();
            assert(rest[0] == arg@);
            if value_flag(arg) {
                let value = match required_value(args, at) {
                    Ok(value) => value,
                    Err(e) => {
                        return Err(e);
                    },
                };
                assert(rest[1] == value@);
                assert(rest.skip(2) == views.skip(at + 2));
                match draft.set(arg, value) {
                    Ok(_) => {},
                    Err(e) => {
                        return Err(e);
                    },
                }
                at += 2;
            } else if same_text(arg, "--help") || same_text(arg, "-h") {
                return Ok(Invocation::Help);
            } else if starts_with_text(arg, "--model=") {
                proof {
                    reveal_strlit("--model=");
                }
                draft.model = Some(strip_prefixes(arg, "--model="));
                assert(rest.skip(1) == views.skip(at + 1));
                at += 1;
            } else {
                return Err(OptionsError::Unknown(arg.to_owned()));
            }
        }
        assert(views.skip(at as int).len() == 0);
        match draft.model {
            Some(model) => Ok(
                Invocation::Run(
                    SidecarOptions {
                        model,
                        ctx_size: draft.ctx_size,
                        max_tokens: draft.max_tokens,
                        temperature: draft.temperature,
                        threads: draft.threads,
                    },
                ),
            ),
            None => Err(OptionsError::ModelRequired),
        }
    }

    /// Checks options against the file system and against each other. `model_exists` tells
    /// whether the model is there.
    pub fn check(&self, model_exists: bool) -> (checked: Result<(), OptionsError>)
        ensures
            match checked {
                Ok(_) => model_exists && self.max_tokens > 0,
                Err(e) => if !model_exists {
                    e@ == OptionsErrorView::ModelMissing(self.model@)
                } else {
                    self.max_tokens == 0 && e@ == OptionsErrorView::ZeroMaxTokens
                },
            },
    {
        if !model_exists {
            Err(OptionsError::ModelMissing(self.model.clone()))
        } else if self.max_tokens == 0 {
            Err(OptionsError::ZeroMaxTokens)
        } else {
            Ok(())
        }
    }
}

/// The usage of the sidecar.
pub fn usage() -> (text: String)
    ensures
        text@
            == "Usage: romaji-agent-lfm-sidecar --model <path.gguf> [--ctx-size 2048] [--max-tokens 256] [--temperature 0.1] [--threads N]"@,
{
    "Usage: romaji-agent-lfm-sidecar --model <path.gguf> [--ctx-size 2048] [--max-tokens 256] [--temperature 0.1] [--threads N]".to_owned()
}

/// Arguments are read from left to right: those behind others that are understood are read as if
/// they came first, with the options that the others left.
pub proof fn law_read_from_left_to_right(
    args: Seq<Seq<char>>,
    more: Seq<Seq<char>>,
    options: OptionsView,
)
    ensures
        read_options(args, options) matches Ok(Some(read)) ==> read_options(args + more, options)
            == read_options(more, read),
        read_options(args, options) == Ok::<Option<OptionsView>, OptionsErrorView>(None)
            ==> read_options(args + more, options) == Ok::<Option<OptionsView>, OptionsErrorView>(
            None,
        ),
    decreases args.len(),
{
    let all = args + more;
    if args.len() == 0 {
        assert(all =~= more);
    } else if takes_value(args[0]) {
        if args.len() > 1 && set_option(options, args[0], args[1]) is Ok {
            assert(all.skip(2) =~= args.skip(2) + more);
            law_read_from_left_to_right(
                args.skip(2),
                more,
                set_option(options, args[0], args[1])->Ok_0,
            );
        }
    } else if starts_with(args[0], "--model="@) {
        assert(all.skip(1) =~= args.skip(1) + more);
        law_read_from_left_to_right(
            args.skip(1),
            more,
            OptionsView { model: Some(without_prefixes(args[0], "--model="@)), ..options },
        );
    }
}

proof fn lemma_flags_differ()
    ensures
        "--model"@.len() == 7,
        "--ctx-size"@.len() == 10,
        "--max-tokens"@.len() == 12,
        "--temperature"@.len() == 13,
        "--threads"@.len() == 9,
        "--help"@.len() == 6,
        "-h"@.len() == 2,
        "--model="@.len() == 8,
        "--ctx-size"@[2] != "--model="@[2],
        "--max-tokens"@[3] != "--model="@[3],
        "--temperature"@[2] != "--model="@[2],
        "--threads"@[2] != "--model="@[2],
{
    reveal_strlit("--model");
    reveal_strlit("--ctx-size");
    reveal_strlit("--max-tokens");
    reveal_strlit("--temperature");
    reveal_strlit("--threads");
    reveal_strlit("--help");
    reveal_strlit("-h");
    reveal_strlit("--model=");
}

/// Each flag sets its own option to the value behind it and no other option.
pub proof fn law_flag_sets_its_option(options: OptionsView, value: Seq<char>)
    ensures
        read_options(seq![], options) == Ok::<_, OptionsErrorView>(Some(options)),
        read_options(seq!["--model"@, value], options) == Ok::<_, OptionsErrorView>(
            Some(OptionsView { model: Some(value), ..options }),
        ),
        match read_unsigned(value, 0xffff_ffff) {
            Ok(n) => read_options(seq!["--ctx-size"@, value], options) == Ok::<_, OptionsErrorView>(
                Some(OptionsView { ctx_size: n, ..options }),
            ),
            Err(e) => read_options(seq!["--ctx-size"@, value], options) == Err::<
                Option<OptionsView>,
                _,
            >(OptionsErrorView::InvalidNumber("--ctx-size"@, e)),
        },
        match read_unsigned(value, usize::MAX as int) {
            Ok(n) => read_options(seq!["--max-tokens"@, value], options) == Ok::<
                _,
                OptionsErrorView,
            >(Some(OptionsView { max_tokens: n, ..options })),
            Err(e) => read_options(seq!["--max-tokens"@, value], options) == Err::<
                Option<OptionsView>,
                _,
            >(OptionsErrorView::InvalidNumber("--max-tokens"@, e)),
        },
        match read_signed(value, 0x7fff_ffff) {
            Ok(n) => read_options(seq!["--threads"@, value], options) == Ok::<_, OptionsErrorView>(
                Some(OptionsView { threads: Some(n), ..options }),
            ),
            Err(e) => read_options(seq!["--threads"@, value], options) == Err::<
                Option<OptionsView>,
                _,
            >(OptionsErrorView::InvalidNumber("--threads"@, e)),
        },
        is_float_literal(value) ==> read_options(seq!["--temperature"@, value], options) == Ok::<
            _,
            OptionsErrorView,
        >(Some(OptionsView { temperature: value, ..options })),
        !is_float_literal(value) ==> read_options(seq!["--temperature"@, value], options) == Err::<
            Option<OptionsView>,
            _,
        >(OptionsErrorView::InvalidFloat("--temperature"@, value)),
{
    reveal_with_fuel(read_options, 2);
    lemma_flags_differ();
    let none = Seq::<Seq<char>>::empty();
    assert(seq!["--model"@, value].skip(2) =~= none);
    assert(seq!["--ctx-size"@, value].skip(2) =~= none);
    assert(seq!["--max-tokens"@, value].skip(2) =~= none);
    assert(seq!["--threads"@, value].skip(2) =~= none);
    assert(seq!["--temperature"@, value].skip(2) =~= none);
}

/// The model may be named in the same argument as its flag.
pub proof fn law_model_in_one_argument(options: OptionsView, path: Seq<char>)
    requires
        forall|rest: Seq<char>| path != #[trigger] ("--model="@ + rest),
    ensures
        read_options(seq!["--model="@ + path], options) == Ok::<_, OptionsErrorView>(
            Some(OptionsView { model: Some(path), ..options }),
        ),
{
    reveal_with_fuel(read_options, 2);
    lemma_flags_differ();
    let arg = "--model="@ + path;
    assert(arg[2] == "--model="@[2]);
    assert(arg[3] == "--model="@[3]);
    assert(!takes_value(arg));
    assert(arg != "--help"@ && arg != "-h"@);
    law_starts_with(arg, "--model="@);
    law_prefixes_are_taken_off("--model="@, path);
    assert(seq![arg].skip(1) =~= Seq::<Seq<char>>::empty());
}

/// A flag at the end lacks its value, help ends the reading, and any other argument is not known.
pub proof fn law_arguments_that_end_the_reading(
    options: OptionsView,
    arg: Seq<char>,
    rest: Seq<Seq<char>>,
)
    ensures
        arg == "--model"@ || arg == "--ctx-size"@ || arg == "--max-tokens"@ || arg
            == "--temperature"@ || arg == "--threads"@ ==> read_options(seq![arg], options)
            == Err::<Option<OptionsView>, _>(OptionsErrorView::MissingValue(arg)),
        arg == "--help"@ || arg == "-h"@ ==> read_options(seq![arg] + rest, options) == Ok::<
            Option<OptionsView>,
            OptionsErrorView,
        >(None),
        arg != "--model"@ && arg != "--ctx-size"@ && arg != "--max-tokens"@ && arg
            != "--temperature"@ && arg != "--threads"@ && arg != "--help"@ && arg != "-h"@ && (
        forall|path: Seq<char>| arg != #[trigger] ("--model="@ + path)) ==> read_options(
            seq![arg] + rest,
            options,
        ) == Err::<Option<OptionsView>, _>(OptionsErrorView::Unknown(arg)),
{
    lemma_flags_differ();
    law_starts_with(arg, "--model="@);
}

/// Options are what is read, from these values on; without a model there are none.
pub proof fn law_invocation_needs_a_model(args: Seq<Seq<char>>)
    ensures
        ({
            let start = OptionsView {
                model: None,
                ctx_size: 2048,
                max_tokens: 256,
                temperature: "0.1"@,
                threads: None,
            };
            &&& read_options(args, start) matches Ok(Some(options)) ==> {
                &&& options.model is Some ==> invocation_of(args) == Ok::<_, OptionsErrorView>(
                    Some(options),
                )
                &&& options.model is None ==> invocation_of(args) == Err::<Option<OptionsView>, _>(
                    OptionsErrorView::ModelRequired,
                )
            }
            &&& !(read_options(args, start) matches Ok(Some(_))) ==> invocation_of(args)
                == read_options(args, start)
        }),
{
}

/// The model path of the app's configuration reaches the sidecar: arguments that the sidecar
/// understands and that do not name a model are understood with the path added, and the path is
/// the model.
pub proof fn law_configured_model_reaches_sidecar(args: Seq<Seq<char>>, path: Seq<char>)
    requires
        read_options(args, default_options()) matches Ok(Some(_)),
        forall|i: int| 0 <= i < args.len() ==> !is_model_arg(#[trigger] args[i]),
        path.len() > 0,
    ensures
        invocation_of(sidecar_args_of(args, Some(path))) == Ok::<_, OptionsErrorView>(
            Some(
                OptionsView {
                    model: Some(path),
                    ..read_options(args, default_options())->Ok_0->0
                },
            ),
        ),
{
    let more = seq!["--model"@, path];
    law_read_from_left_to_right(args, more, default_options());
    law_flag_sets_its_option(read_options(args, default_options())->Ok_0->0, path);
    assert(sidecar_args_of(args, Some(path)) =~= args + more);
}

} // verus!
