//! Configuration: the backend, its commands and its arguments.

use crate::json::optional_text;
use crate::search::{
    find, join, join_texts, law_split_once, law_split_once_needs_separator, law_starts_with,
    lemma_find, line_views, lines, lines_of, split_once, split_once_chars, starts_with,
    starts_with_text,
};
use crate::text::{
    ascii_lower, chars_of, is_white_space, law_ascii_lower, law_trim_keeps_the_middle, lowered,
    same_text, string_of, texts, trim, trim_chars,
};
use vstd::prelude::*;

verus! {

/// The app's configuration.
#[derive(Debug, Clone, PartialEq, Eq)]
pub struct AppConfig {
    pub backend: String,
    pub shortcut_macos: String,
    pub shortcut_other: String,
    pub sidecar_command: Option<String>,
    pub sidecar_args: Vec<String>,
    pub model_path: Option<String>,
    pub codex_command: String,
    pub codex_args: Vec<String>,
    pub codex_model: Option<String>,
    pub codex_timeout_ms: u64,
}

impl Default for AppConfig {
    fn default() -> (config: Self)
        ensures
            config.is_default(),
    {
        let mut codex_args: Vec<String> = Vec::new();
        codex_args.push("app-server".to_owned());
        assert(texts(codex_args@) =~= seq!["app-server"@]);
        AppConfig {
            backend: "sidecar".to_owned(),
            shortcut_macos: "Cmd+Shift+J".to_owned(),
            shortcut_other: "Ctrl+Shift+J".to_owned(),
            sidecar_command: None,
            sidecar_args: Vec::new(),
            model_path: None,
            codex_command: "codex".to_owned(),
            codex_args,
            codex_model: None,
            codex_timeout_ms: 90_000,
        }
    }
}

impl AppConfig {
    /// Whether the configuration is the default one.
    pub open spec fn is_default(self) -> bool {
        &&& self.backend@ == "sidecar"@
        &&& self.shortcut_macos@ == "Cmd+Shift+J"@
        &&& self.shortcut_other@ == "Ctrl+Shift+J"@
        &&& self.sidecar_command is None
        &&& self.sidecar_args@.len() == 0
        &&& self.model_path is None
        &&& self.codex_command@ == "codex"@
        &&& texts(self.codex_args@) == seq!["app-server"@]
        &&& self.codex_model is None
        &&& self.codex_timeout_ms == 90_000
    }
}

/// The configuration that was read, or the default one where there is none or it does not parse.
pub fn load_config(read: Option<AppConfig>) -> (config: AppConfig)
    ensures
        match read {
            Some(read) => config == read,
            None => config.is_default(),
        },
{
    match read {
        Some(config) => config,
        None => AppConfig::default(),
    }
}

/// The configuration that a file holds. `first` is what its text reads as, `second` what it reads
/// as without the lines that [`without_null_model`] leaves out: the first one that there is
/// counts, and else the default configuration.
pub fn config_from(first: Option<AppConfig>, second: Option<AppConfig>) -> (config: AppConfig)
    ensures
        match (first, second) {
            (Some(read), _) => config == read,
            (None, Some(read)) => config == read,
            (None, None) => config.is_default(),
        },
{
    match first {
        Some(config) => config,
        None => load_config(second),
    }
}

/// What stands before the comment on a line, if there is one.
pub open spec fn before_comment(s: Seq<char>) -> Seq<char> {
    match split_once(s, seq!['#']) {
        Some((before, _)) => before,
        None => s,
    }
}

/// Whether a line of the configuration sets the app server's model to `null`, which means that
/// there is none.
pub open spec fn sets_null_model(line: Seq<char>) -> bool {
    match split_once(before_comment(line), seq!['=']) {
        Some((name, value)) => trim(name) == "codex_model"@ && trim(value) == "null"@,
        None => false,
    }
}

/// The lines that do not set the app server's model to `null`.
pub open spec fn lines_without_null_model(all: Seq<Seq<char>>) -> Seq<Seq<char>>
    decreases all.len(),
{
    if all.len() == 0 {
        seq![]
    } else if sets_null_model(all.last()) {
        lines_without_null_model(all.drop_last())
    } else {
        lines_without_null_model(all.drop_last()).push(all.last())
    }
}

fn null_model_line(line: &[char]) -> (r: bool)
    ensures
        r == sets_null_model(line@),
{
    let hash: Vec<char> = vec!['#'];
    let equals: Vec<char> = vec!['='];
    assert(hash@ =~= seq!['#']);
    assert(equals@ =~= seq!['=']);
    let setting = match split_once_chars(line, &hash) {
        Some((before, _)) => split_once_chars(&before, &equals),
        None => split_once_chars(line, &equals),
    };
    match setting {
        Some((name, value)) => same_text(string_of(&trim_chars(&name)).as_str(), "codex_model")
            && same_text(string_of(&trim_chars(&value)).as_str(), "null"),
        None => false,
    }
}

/// The text of a configuration without the lines that set the app server's model to `null`: TOML
/// has no such value, and a setting that is missing means the same.
pub fn without_null_model(text: &str) -> (rest: String)
    ensures
        rest@ == join(lines_without_null_model(lines(text@)), "\n"@),
{
    let all = lines_of(&chars_of(text));
    let ghost views = lines(text@);
    let mut kept: Vec<String> = Vec::new();
    let mut i: usize = 0;
    assert(texts(kept@) =~= lines_without_null_model(views.take(0)));
    while i < all.len()
        invariant
            i <= all@.len(),
            views == line_views(all@),
            texts(kept@) == lines_without_null_model(views.take(i as int)),
        decreases all@.len() - i,
    {
        proof {
            assert(views.take(i + 1).drop_last() =~= views.take(i as int));
            assert(views.take(i + 1).last() == all@[i as int]@);
        }
        if !null_model_line(&all[i]) {
            let ghost before = texts(kept@);
            kept.push(string_of(&all[i]));
            assert(texts(kept@) =~= before.push(all@[i as int]@));
        }
        i += 1;
    }
    assert(views.take(i as int) =~= views);
    join_texts(&kept, "\n")
}

/// What converts a draft.
#[derive(Debug, Clone, Copy, PartialEq, Eq, Structural)]
pub enum Backend {
    Sidecar,
    CodexAppServer,
    Fallback,
}

/// The backend that a setting names. White space around the name and the case of its ASCII
/// letters do not count; any name that is not known means the sidecar.
pub open spec fn backend_named(value: Seq<char>) -> Backend {
    let name = trim(value).map_values(|c: char| ascii_lower(c));
    if name == "codex_app_server"@ || name == "codex-app-server"@ || name == "codex"@ {
        Backend::CodexAppServer
    } else if name == "fallback"@ {
        Backend::Fallback
    } else {
        Backend::Sidecar
    }
}

impl Backend {
    /// The backend that a setting names.
    pub fn parse(value: &str) -> (backend: Self)
        ensures
            backend == backend_named(value@),
    {
        let chars = chars_of(value);
        let name = string_of(&lowered(&trim_chars(&chars)));
        let name = name.as_str();
        if same_text(name, "codex_app_server") || same_text(name, "codex-app-server") || same_text(
            name,
            "codex",
        ) {
            Backend::CodexAppServer
        } else if same_text(name, "fallback") {
            Backend::Fallback
        } else {
            Backend::Sidecar
        }
    }
}

/// Whether an argument names the model: `--model` or `--model=...`.
pub open spec fn is_model_arg(arg: Seq<char>) -> bool {
    arg == "--model"@ || starts_with(arg, "--model="@)
}

/// The arguments that the sidecar is started with: the configured ones, and behind them the
/// configured model path, unless that is missing or empty or an argument names the model.
pub open spec fn sidecar_args_of(args: Seq<Seq<char>>, model_path: Option<Seq<char>>) -> Seq<
    Seq<char>,
> {
    let named = exists|i: int| 0 <= i < args.len() && is_model_arg(#[trigger] args[i]);
    match model_path {
        Some(path) => if named || path.len() == 0 {
            args
        } else {
            args.push("--model"@).push(path)
        },
        None => args,
    }
}

fn names_model(args: &[String]) -> (named: bool)
    ensures
        named == exists|i: int|
            0 <= i < texts(args@).len() && is_model_arg(#[trigger] texts(args@)[i]),
{
    let mut i: usize = 0;
    while i < args.len()
        invariant
            i <= args@.len(),
            forall|j: int| 0 <= j < i ==> !is_model_arg(#[trigger] texts(args@)[j]),
        decreases args@.len() - i,
    {
        let arg = args[i].as_str();
        assert(texts(args@)[i as int] == arg@);
        if same_text(arg, "--model") || starts_with_text(arg, "--model=") {
            return true;
        }
        i += 1;
    }
    false
}

/// The arguments to start the sidecar with.
pub fn sidecar_args(config: &AppConfig) -> (args: Vec<String>)
    ensures
        texts(args@) == sidecar_args_of(
            texts(config.sidecar_args@),
            optional_text(config.model_path),
        ),
{
    let mut args = config.sidecar_args.clone();
    assert(args@ =~= config.sidecar_args@);
    if !names_model(&args) {
        if let Some(model_path) = &config.model_path {
            if !model_path.as_str().is_empty() {
                args.push("--model".to_owned());
                args.push(model_path.clone());
                assert(texts(args@) =~= texts(config.sidecar_args@).push("--model"@).push(
                    model_path@,
                ));
            }
        }
    }
    args
}

/// How long, in milliseconds, the app server may take: what is configured, but a second at
/// least.
pub open spec fn timeout_for(configured: u64) -> u64 {
    if configured < 1_000 {
        1_000
    } else {
        configured
    }
}

/// How long, in milliseconds, the app server may take: what is configured, but a second at
/// least.
pub fn codex_timeout(config: &AppConfig) -> (millis: u64)
    ensures
        millis == timeout_for(config.codex_timeout_ms),
        millis == if config.codex_timeout_ms < 1_000 {
            1_000
        } else {
            config.codex_timeout_ms
        },
{
    if config.codex_timeout_ms < 1_000 {
        1_000
    } else {
        config.codex_timeout_ms
    }
}

/// No argument list that names the model is given a second model.
pub proof fn law_explicit_model_wins(args: Seq<Seq<char>>, model_path: Option<Seq<char>>, i: int)
    requires
        0 <= i < args.len(),
        is_model_arg(args[i]),
    ensures
        sidecar_args_of(args, model_path) == args,
{
}

/// The configured arguments always come first and unchanged.
pub proof fn law_sidecar_args_keep_configured(
    args: Seq<Seq<char>>,
    model_path: Option<Seq<char>>,
)
    ensures
        args.is_prefix_of(sidecar_args_of(args, model_path)),
{
}

/// Applied to its own result, the rule adds nothing: the model is passed once.
pub proof fn law_sidecar_args_idempotent(args: Seq<Seq<char>>, model_path: Option<Seq<char>>)
    ensures
        sidecar_args_of(sidecar_args_of(args, model_path), model_path) == sidecar_args_of(
            args,
            model_path,
        ),
{
    let once = sidecar_args_of(args, model_path);
    if once != args {
        assert(is_model_arg(once[once.len() - 2]));
    }
}

/// No line that sets the model to `null` is left, and where there is none every line is.
pub proof fn law_null_model_is_left_out(all: Seq<Seq<char>>)
    ensures
        forall|i: int|
            0 <= i < lines_without_null_model(all).len() ==> !sets_null_model(
                #[trigger] lines_without_null_model(all)[i],
            ),
        (forall|i: int| 0 <= i < all.len() ==> !sets_null_model(#[trigger] all[i]))
            ==> lines_without_null_model(all) == all,
    decreases all.len(),
{
    if all.len() > 0 {
        let front = all.drop_last();
        law_null_model_is_left_out(front);
        let kept = lines_without_null_model(all);
        let front_kept = lines_without_null_model(front);
        assert forall|i: int| 0 <= i < kept.len() implies !sets_null_model(#[trigger] kept[i]) by {
            if i < front_kept.len() {
                assert(kept[i] == front_kept[i]);
            }
        }
        if forall|i: int| 0 <= i < all.len() ==> !sets_null_model(#[trigger] all[i]) {
            assert forall|i: int| 0 <= i < front.len() implies !sets_null_model(
                #[trigger] front[i],
            ) by {
                assert(front[i] == all[i]);
            }
            assert(!sets_null_model(all[all.len() - 1]));
            assert(kept =~= all);
        }
    }
}

/// A known name is recognised between any white space and with any of its ASCII letters in upper
/// case; every other name means the sidecar.
pub proof fn law_backend_names(
    before: Seq<char>,
    name: Seq<char>,
    after: Seq<char>,
    small: Seq<char>,
)
    requires
        forall|i: int| 0 <= i < before.len() ==> is_white_space(#[trigger] before[i]),
        forall|i: int| 0 <= i < after.len() ==> is_white_space(#[trigger] after[i]),
        name.len() > 0 ==> !is_white_space(name[0]) && !is_white_space(name.last()),
        small.len() == name.len(),
        forall|i: int|
            0 <= i < name.len() ==> if 'A' <= #[trigger] name[i] <= 'Z' {
                small[i] as int == name[i] as int + ('a' as int - 'A' as int)
            } else {
                small[i] == name[i]
            },
    ensures
        small == "codex"@ || small == "codex_app_server"@ || small == "codex-app-server"@
            ==> backend_named(before + name + after) == Backend::CodexAppServer,
        small == "fallback"@ ==> backend_named(before + name + after) == Backend::Fallback,
        small != "codex"@ && small != "codex_app_server"@ && small != "codex-app-server"@ && small
            != "fallback"@ ==> backend_named(before + name + after) == Backend::Sidecar,
{
    reveal_strlit("codex");
    reveal_strlit("codex_app_server");
    reveal_strlit("codex-app-server");
    reveal_strlit("fallback");
    law_trim_keeps_the_middle(before, name, after);
    assert forall|i: int| 0 <= i < name.len() implies ascii_lower(name[i]) == #[trigger] small[i] by {
        law_ascii_lower(name[i]);
    }
    assert(name.map_values(|c: char| ascii_lower(c)) =~= small);
    assert("fallback"@[0] != "codex"@[0]);
    assert("fallback"@[0] != "codex_app_server"@[0]);
    assert("fallback"@[0] != "codex-app-server"@[0]);
}

/// A model path is passed behind the configured arguments exactly where it is not empty and no
/// argument is `--model` or starts with `--model=`; otherwise the arguments stay as they are.
pub proof fn law_model_path_is_passed(args: Seq<Seq<char>>, path: Seq<char>)
    ensures
        sidecar_args_of(args, None) == args,
        path.len() == 0 ==> sidecar_args_of(args, Some(path)) == args,
        (exists|i: int| 0 <= i < args.len() && #[trigger] args[i] == "--model"@)
            ==> sidecar_args_of(args, Some(path)) == args,
        (exists|i: int, rest: Seq<char>|
            0 <= i < args.len() && #[trigger] args[i] == #[trigger] ("--model="@ + rest))
            ==> sidecar_args_of(args, Some(path)) == args,
        path.len() > 0 && (forall|i: int| 0 <= i < args.len() ==> #[trigger] args[i] != "--model"@)
            && (forall|i: int, rest: Seq<char>|
            0 <= i < args.len() ==> #[trigger] args[i] != #[trigger] ("--model="@ + rest))
            ==> sidecar_args_of(args, Some(path)) == args + seq!["--model"@, path],
{
    if exists|i: int, rest: Seq<char>|
        0 <= i < args.len() && #[trigger] args[i] == #[trigger] ("--model="@ + rest) {
        let (i, rest) = choose|i: int, rest: Seq<char>|
            0 <= i < args.len() && #[trigger] args[i] == #[trigger] ("--model="@ + rest);
        law_starts_with(args[i], "--model="@);
        assert(is_model_arg(args[i]));
    }
    if exists|i: int| 0 <= i < args.len() && #[trigger] args[i] == "--model"@ {
        let i = choose|i: int| 0 <= i < args.len() && #[trigger] args[i] == "--model"@;
        assert(is_model_arg(args[i]));
    }
    if (forall|i: int| 0 <= i < args.len() ==> #[trigger] args[i] != "--model"@) && (forall|
        i: int,
        rest: Seq<char>,
    |
        0 <= i < args.len() ==> #[trigger] args[i] != #[trigger] ("--model="@ + rest)) {
        assert forall|i: int| 0 <= i < args.len() implies !is_model_arg(#[trigger] args[i]) by {
            law_starts_with(args[i], "--model="@);
        }
        assert(args.push("--model"@).push(path) =~= args + seq!["--model"@, path]);
    }
}

/// A line that sets the model to `null` is recognised with any white space around the name and
/// the value, and with any comment behind them.
pub proof fn law_null_model_line(
    first: Seq<char>,
    second: Seq<char>,
    third: Seq<char>,
    fourth: Seq<char>,
    comment: Seq<char>,
)
    requires
        forall|i: int| 0 <= i < first.len() ==> is_white_space(#[trigger] first[i]),
        forall|i: int| 0 <= i < second.len() ==> is_white_space(#[trigger] second[i]),
        forall|i: int| 0 <= i < third.len() ==> is_white_space(#[trigger] third[i]),
        forall|i: int| 0 <= i < fourth.len() ==> is_white_space(#[trigger] fourth[i]),
        comment.len() > 0 ==> comment[0] == '#',
    ensures
        sets_null_model(
            first + "codex_model"@ + second + seq!['='] + (third + "null"@ + fourth) + comment,
        ),
{
    reveal_strlit("codex_model");
    reveal_strlit("null");
    let name = first + "codex_model"@ + second;
    let value = third + "null"@ + fourth;
    let setting = name + seq!['='] + value;
    let line = setting + comment;
    assert forall|i: int| 0 <= i < name.len() implies #[trigger] name[i] != '=' && name[i] != '#' by {
        if i < first.len() {
            assert(name[i] == first[i]);
        } else if i >= first.len() + "codex_model"@.len() {
            assert(name[i] == second[i - first.len() - "codex_model"@.len()]);
        }
    }
    assert forall|i: int| 0 <= i < value.len() implies #[trigger] value[i] != '#' by {
        if i < third.len() {
            assert(value[i] == third[i]);
        } else if i >= third.len() + "null"@.len() {
            assert(value[i] == fourth[i - third.len() - "null"@.len()]);
        }
    }
    assert forall|i: int| 0 <= i < setting.len() implies #[trigger] setting[i] != '#' by {
        if i < name.len() {
            assert(setting[i] == name[i]);
        } else if i > name.len() {
            assert(setting[i] == value[i - name.len() - 1]);
        }
    }
    if comment.len() > 0 {
        assert(line =~= setting + seq!['#'] + comment.skip(1));
        assert forall|j: int| 0 <= j < setting.len() implies #[trigger] line.subrange(j, j + 1)
            != seq!['#'] by {
            assert(line.subrange(j, j + 1)[0] == setting[j]);
        }
        law_split_once(setting, seq!['#'], comment.skip(1));
    } else {
        assert(line =~= setting);
        if exists|x: Seq<char>, y: Seq<char>| line == #[trigger] (x + seq!['#'] + y) {
            let (x, y) = choose|x: Seq<char>, y: Seq<char>| line == #[trigger] (x + seq!['#'] + y);
            assert(setting[x.len() as int] == '#');
        }
        law_split_once_needs_separator(line, seq!['#']);
    }
    assert(before_comment(line) == setting);
    assert forall|j: int| 0 <= j < name.len() implies #[trigger] setting.subrange(j, j + 1)
        != seq!['='] by {
        assert(setting.subrange(j, j + 1)[0] == name[j]);
    }
    law_split_once(name, seq!['='], value);
    assert(!is_white_space('c') && !is_white_space('l') && !is_white_space('n'));
    law_trim_keeps_the_middle(first, "codex_model"@, second);
    law_trim_keeps_the_middle(third, "null"@, fourth);
}

/// A line that is taken to set the model to `null` holds the name, an equals sign behind it and
/// the value behind that, with nothing but white space around them up to a comment.
pub proof fn law_null_model_line_shape(line: Seq<char>)
    requires
        sets_null_model(line),
    ensures
        exists|name: Seq<char>, value: Seq<char>, comment: Seq<char>|
            {
                &&& line == #[trigger] (name + seq!['='] + value + comment)
                &&& trim(name) == "codex_model"@
                &&& trim(value) == "null"@
                &&& comment.len() > 0 ==> comment[0] == '#'
            },
{
    let setting = before_comment(line);
    lemma_find(line, seq!['#']);
    lemma_find(setting, seq!['=']);
    let comment = line.skip(setting.len() as int);
    assert(line =~= setting + comment);
    let i = find(setting, seq!['='])->0;
    let name = setting.take(i);
    let value = setting.skip(i + 1);
    assert(setting.subrange(i, i + 1)[0] == '=');
    assert(setting =~= name + seq!['='] + value);
    assert(line == name + seq!['='] + value + comment);
    if comment.len() > 0 {
        let k = find(line, seq!['#'])->0;
        assert(line.subrange(k, k + 1)[0] == '#');
    }
}

/// Each line is kept or left out on its own account, and the kept ones keep their order.
pub proof fn law_null_model_line_by_line(first: Seq<Seq<char>>, line: Seq<char>)
    ensures
        lines_without_null_model(seq![]) == Seq::<Seq<char>>::empty(),
        sets_null_model(line) ==> lines_without_null_model(first + seq![line])
            == lines_without_null_model(first),
        !sets_null_model(line) ==> lines_without_null_model(first + seq![line])
            == lines_without_null_model(first) + seq![line],
{
    let all = first + seq![line];
    assert(all.drop_last() =~= first);
    assert(all.last() == line);
}

/// The app server never has less than a second nor less than what is configured, and what it has
/// is one of the two.
pub proof fn law_timeout_is_a_second_at_least(configured: u64)
    ensures
        timeout_for(configured) >= 1_000,
        timeout_for(configured) >= configured,
        timeout_for(configured) == 1_000 || timeout_for(configured) == configured,
{
}

} // verus!
