//! Colored output: labels, successes, errors and dimmed notes, colored only when
//! asked to.

use vstd::prelude::*;
use colored::Colorize;
use crate::text::{contains, owned, starts_with};

verus! {

broadcast use vstd::string::group_string_axioms;

/// The sequence that ends a colored text.
pub open spec fn reset_code() -> Seq<char> {
    "\x1B[0m"@
}

/// `s` ends with `suffix`.
pub open spec fn ends_with(s: Seq<char>, suffix: Seq<char>) -> bool {
    suffix.len() <= s.len() && s.subrange(s.len() - suffix.len(), s.len() as int) == suffix
}

/// `r` shows `s` as `colored` prints it with the style sequence `style`: unchanged when
/// the environment turns coloring off; else between `style` and the reset sequence,
/// exactly so when `s` holds no reset sequence of its own.
pub open spec fn shows(r: Seq<char>, s: Seq<char>, style: Seq<char>) -> bool {
    ||| r == s
    ||| !contains(s, reset_code()) && r == style + s + reset_code()
    ||| contains(s, reset_code()) && starts_with(r, style) && ends_with(r, reset_code())
}

/// The style of labels: bold cyan.
pub open spec fn label_style() -> Seq<char> {
    "\x1B[1;36m"@
}

/// The style of successes: green.
pub open spec fn success_style() -> Seq<char> {
    "\x1B[32m"@
}

/// The style of errors: red.
pub open spec fn error_style() -> Seq<char> {
    "\x1B[31m"@
}

/// The style of notes: dimmed.
pub open spec fn dim_style() -> Seq<char> {
    "\x1B[2m"@
}

/// Calls colored's `cyan().bold()` on `s` and formats the `ColoredString` with
/// `to_string`. Whether colored writes the style depends on the environment
/// (`NO_COLOR`, `CLICOLOR`, `CLICOLOR_FORCE`, whether stdout is a terminal, an
/// override), so the contract claims only what holds of either outcome: `s` unchanged,
/// or `ESC[1;36m`, `s`, `ESC[0m`. When `s` itself holds `ESC[0m`, colored writes the
/// style again after each such sequence; the contract then says only that the result
/// begins with the style and ends with the reset.
#[verifier::external_body]
fn paint_label(s: &str) -> (r: String)
    ensures
        shows(r@, s@, label_style()),
{
    s.cyan().bold().to_string()
}

/// Calls colored's `green()` on `s` and formats it; the contract claims what
/// `paint_label` claims, with the style `ESC[32m`.
#[verifier::external_body]
fn paint_success(s: &str) -> (r: String)
    ensures
        shows(r@, s@, success_style()),
{
    s.green().to_string()
}

/// Calls colored's `red()` on `s` and formats it; the contract claims what
/// `paint_label` claims, with the style `ESC[31m`.
#[verifier::external_body]
fn paint_error(s: &str) -> (r: String)
    ensures
        shows(r@, s@, error_style()),
{
    s.red().to_string()
}

/// Calls colored's `dimmed()` on `s` and formats it; the contract claims what
/// `paint_label` claims, with the style `ESC[2m`.
#[verifier::external_body]
fn paint_dim(s: &str) -> (r: String)
    ensures
        shows(r@, s@, dim_style()),
{
    s.dimmed().to_string()
}

/// A label: bold cyan when `enabled`, else `s` itself.
pub fn label(s: &str, enabled: bool) -> (r: String)
    ensures
        !enabled ==> r@ == s@,
        enabled ==> shows(r@, s@, label_style()),
{
    if enabled {
        paint_label(s)
    } else {
        owned(s)
    }
}

/// A success: green when `enabled`, else `s` itself.
pub fn success(s: &str, enabled: bool) -> (r: String)
    ensures
        !enabled ==> r@ == s@,
        enabled ==> shows(r@, s@, success_style()),
{
    if enabled {
        paint_success(s)
    } else {
        owned(s)
    }
}

/// An error: red when `enabled`, else `s` itself.
pub fn error(s: &str, enabled: bool) -> (r: String)
    ensures
        !enabled ==> r@ == s@,
        enabled ==> shows(r@, s@, error_style()),
{
    if enabled {
        paint_error(s)
    } else {
        owned(s)
    }
}

/// A note: dimmed when `enabled`, else `s` itself.
pub fn dim(s: &str, enabled: bool) -> (r: String)
    ensures
        !enabled ==> r@ == s@,
        enabled ==> shows(r@, s@, dim_style()),
{
    if enabled {
        paint_dim(s)
    } else {
        owned(s)
    }
}

/// How a message is colored.
#[derive(Clone, Copy, Debug, PartialEq, Eq, Structural)]
pub enum Tone {
    Success,
    Error,
    Dim,
}

/// A line to print, in one tone.
pub struct Message {
    pub tone: Tone,
    pub text: String,
}

/// The style of a tone.
pub open spec fn tone_style(t: Tone) -> Seq<char> {
    match t {
        Tone::Success => success_style(),
        Tone::Error => error_style(),
        Tone::Dim => dim_style(),
    }
}

/// A line to print: an optional label, then plain text.
pub struct Line {
    pub label: Option<String>,
    pub text: String,
}

/// The text of `message` in its tone.
pub fn paint(message: &Message, enabled: bool) -> (r: String)
    ensures
        !enabled ==> r@ == message.text@,
        enabled ==> shows(r@, message.text@, tone_style(message.tone)),
{
    match message.tone {
        Tone::Success => success(message.text.as_str(), enabled),
        Tone::Error => error(message.text.as_str(), enabled),
        Tone::Dim => dim(message.text.as_str(), enabled),
    }
}

/// `line` with its label colored as a label.
pub fn paint_line(line: &Line, enabled: bool) -> (r: String)
    ensures
        line.label is None ==> r@ == line.text@,
        line.label matches Some(l) ==> exists|shown: Seq<char>|
            r@ == shown + line.text@ && (if enabled {
                shows(shown, l@, label_style())
            } else {
                shown == l@
            }),
{
    match &line.label {
        Some(l) => {
            let mut r = label(l.as_str(), enabled);
            r.append(line.text.as_str());
            r
        },
        None => owned(line.text.as_str()),
    }
}

} // verus!
