//! What the arguments of the sidecars have in common, and what can be wrong with them.

use crate::number::{number_error_text, NumberError};
use crate::search::{law_starts_with, starts_with, starts_with_text};
use crate::text::{chars_of, slice_of, string_of};
use vstd::prelude::*;

verus! {

/// What is wrong with the arguments of a sidecar.
#[derive(Debug, Clone, PartialEq, Eq)]
pub enum OptionsError {
    /// The flag is the last argument and has no value.
    MissingValue(String),
    /// The value of the flag is not a whole number.
    InvalidNumber(String, NumberError),
    /// The value of the flag is not a floating-point number; the flag, and the value.
    InvalidFloat(String, String),
    /// An argument that is not known.
    Unknown(String),
    /// No model is named.
    ModelRequired,
    /// The model that is named does not exist.
    ModelMissing(String),
    /// The number of tokens is zero.
    ZeroMaxTokens,
    /// The temperature is out of range.
    TemperatureRange,
}

/// What an [`OptionsError`] holds.
pub enum OptionsErrorView {
    MissingValue(Seq<char>),
    InvalidNumber(Seq<char>, NumberError),
    InvalidFloat(Seq<char>, Seq<char>),
    Unknown(Seq<char>),
    ModelRequired,
    ModelMissing(Seq<char>),
    ZeroMaxTokens,
    TemperatureRange,
}

impl View for OptionsError {
    type V = OptionsErrorView;

    open spec fn view(&self) -> OptionsErrorView {
        match self {
            OptionsError::MissingValue(flag) => OptionsErrorView::MissingValue(flag@),
            OptionsError::InvalidNumber(flag, e) => OptionsErrorView::InvalidNumber(flag@, *e),
            OptionsError::InvalidFloat(flag, v) => OptionsErrorView::InvalidFloat(flag@, v@),
            OptionsError::Unknown(arg) => OptionsErrorView::Unknown(arg@),
            OptionsError::ModelRequired => OptionsErrorView::ModelRequired,
            OptionsError::ModelMissing(path) => OptionsErrorView::ModelMissing(path@),
            OptionsError::ZeroMaxTokens => OptionsErrorView::ZeroMaxTokens,
            OptionsError::TemperatureRange => OptionsErrorView::TemperatureRange,
        }
    }
}

/// The words for an [`OptionsError`].
pub open spec fn options_error_text(error: OptionsErrorView) -> Seq<char> {
    match error {
        OptionsErrorView::MissingValue(flag) => flag + " requires a value"@,
        OptionsErrorView::InvalidNumber(flag, e) => "invalid "@ + flag + ": "@ + number_error_text(
            e,
        ),
        OptionsErrorView::InvalidFloat(flag, value) => "invalid "@ + flag + ": "@ + if value.len()
            == 0 {
            "cannot parse float from empty string"@
        } else {
            "invalid float literal"@
        },
        OptionsErrorView::Unknown(arg) => "unknown argument: "@ + arg,
        OptionsErrorView::ModelRequired => "--model is required"@,
        OptionsErrorView::ModelMissing(path) => "model does not exist: "@ + path,
        OptionsErrorView::ZeroMaxTokens => "--max-tokens must be greater than zero"@,
        OptionsErrorView::TemperatureRange => "--temperature must be between 0.0 and 2.0"@,
    }
}

fn concat_four(a: &str, b: &str, c: &str, d: &str) -> (s: String)
    ensures
        s@ == a@ + b@ + c@ + d@,
{
    let mut s = a.to_owned();
    s.append(b);
    s.append(c);
    s.append(d);
    s
}

impl OptionsError {
    /// The words for the error.
    pub fn message(&self) -> (text: String)
        ensures
            text@ == options_error_text(self@),
    {
        match self {
            OptionsError::MissingValue(flag) => flag.clone().concat(" requires a value"),
            OptionsError::InvalidNumber(flag, e) => concat_four(
                "invalid ",
                flag.as_str(),
                ": ",
                e.message().as_str(),
            ),
            OptionsError::InvalidFloat(flag, value) => concat_four(
                "invalid ",
                flag.as_str(),
                ": ",
                if value.as_str().is_empty() {
                    "cannot parse float from empty string"
                } else {
                    "invalid float literal"
                },
            ),
            OptionsError::Unknown(arg) => "unknown argument: ".to_owned().concat(arg.as_str()),
            OptionsError::ModelRequired => "--model is required".to_owned(),
            OptionsError::ModelMissing(path) => "model does not exist: ".to_owned().concat(
                path.as_str(),
            ),
            OptionsError::ZeroMaxTokens => "--max-tokens must be greater than zero".to_owned(),
            OptionsError::TemperatureRange =>
                "--temperature must be between 0.0 and 2.0".to_owned(),
        }
    }
}

/// The value behind the flag at `at`.
pub fn required_value(args: &[String], at: usize) -> (value: Result<String, OptionsError>)
    requires
        at < args@.len(),
    ensures
        match value {
            Ok(v) => at + 1 < args@.len() && v@ == args@[at + 1]@,
            Err(e) => at + 1 == args@.len() && e@ == OptionsErrorView::MissingValue(
                args@[at as int]@,
            ),
        },
{
    if args.len() - at > 1 {
        Ok(args[at + 1].clone())
    } else {
        Err(OptionsError::MissingValue(args[at].clone()))
    }
}

/// `s` without `prefix` at its start, however often it stands there. The prefix is not empty.
pub open spec fn without_prefixes(s: Seq<char>, prefix: Seq<char>) -> Seq<char>
    decreases s.len(),
    when prefix.len() > 0
{
    if starts_with(s, prefix) {
        without_prefixes(s.skip(prefix.len() as int), prefix)
    } else {
        s
    }
}

/// Removes a prefix, however often it stands at the start.
pub fn strip_prefixes(text: &str, prefix: &str) -> (rest: String)
    requires
        prefix@.len() > 0,
    ensures
        rest@ == without_prefixes(text@, prefix@),
{
    let mut rest = text.to_owned();
    let n = chars_of(prefix).len();
    while starts_with_text(rest.as_str(), prefix)
        invariant
            n == prefix@.len(),
            n > 0,
            without_prefixes(text@, prefix@) == without_prefixes(rest@, prefix@),
        decreases rest@.len(),
    {
        let chars = chars_of(rest.as_str());
        let part = slice_of(&chars, n, chars.len());
        assert(part@ =~= rest@.skip(n as int));
        rest = string_of(&part);
    }
    rest
}

/// A prefix is taken off as often as it stands at the start, and what does not start with it is
/// kept whole.
pub proof fn law_prefixes_are_taken_off(prefix: Seq<char>, s: Seq<char>)
    requires
        prefix.len() > 0,
    ensures
        without_prefixes(prefix + s, prefix) == without_prefixes(s, prefix),
        (forall|rest: Seq<char>| s != #[trigger] (prefix + rest)) ==> without_prefixes(s, prefix)
            == s,
{
    law_starts_with(prefix + s, prefix);
    law_starts_with(s, prefix);
    assert((prefix + s).skip(prefix.len() as int) =~= s);
}

/// What is said of an argument names it in full.
pub proof fn law_error_names_the_argument(arg: Seq<char>, error: NumberError)
    ensures
        options_error_text(OptionsErrorView::MissingValue(arg)) == arg + " requires a value"@,
        options_error_text(OptionsErrorView::Unknown(arg)) == "unknown argument: "@ + arg,
        options_error_text(OptionsErrorView::ModelMissing(arg)) == "model does not exist: "@ + arg,
        options_error_text(OptionsErrorView::InvalidNumber(arg, error)) == "invalid "@ + arg
            + ": "@ + number_error_text(error),
{
}

} // verus!
