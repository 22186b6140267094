//! Minimal colored terminal output.
//!
//! Colors are enabled only when stdout is a terminal.
use vstd::prelude::*;
use std::io::IsTerminal;
use crate::text::{chars_of, string_of, concat2};

verus! {

#[verifier::external_type_specification]
#[verifier::external_body]
pub struct ExStdout(std::io::Stdout);

/// `std::io::stdout`: a handle to the process's standard output. Nothing is
/// claimed of it.
#[verifier::external_body]
fn stdout_handle() -> std::io::Stdout {
    std::io::stdout()
}

/// `IsTerminal::is_terminal` on standard output: whether it is a terminal.
/// It depends on how the process was started, so nothing is claimed of the result.
#[verifier::external_body]
fn stdout_is_terminal(out: &std::io::Stdout) -> bool {
    out.is_terminal()
}

/// Whether to use ANSI color codes.
pub fn enabled() -> bool {
    let out = stdout_handle();
    stdout_is_terminal(&out)
}

pub open spec fn code_green() -> Seq<char> { seq!['3', '2'] }
pub open spec fn code_red() -> Seq<char> { seq!['3', '1'] }
pub open spec fn code_yellow() -> Seq<char> { seq!['3', '3'] }
pub open spec fn code_bold() -> Seq<char> { seq!['1'] }
pub open spec fn code_dim() -> Seq<char> { seq!['2'] }

/// `s` wrapped in the ANSI escape that selects `code` and the one that resets,
/// when `on`; `s` itself otherwise.
pub open spec fn painted(code: Seq<char>, s: Seq<char>, on: bool) -> Seq<char> {
    if on {
        seq!['\x1b', '['] + code + seq!['m'] + s + seq!['\x1b', '[', '0', 'm']
    } else {
        s
    }
}

/// `s` in the style `code` when `on`.
pub fn paint(code: &[char], s: &[char], on: bool) -> (r: Vec<char>)
    ensures
        r@ == painted(code@, s@, on),
{
    if on {
        let head = concat2(vec!['\x1b', '['].as_slice(), code);
        let head = concat2(head.as_slice(), vec!['m'].as_slice());
        let body = concat2(head.as_slice(), s);
        concat2(body.as_slice(), vec!['\x1b', '[', '0', 'm'].as_slice())
    } else {
        concat2(s, Vec::new().as_slice())
    }
}

fn styled(code: &[char], s: &str) -> (r: String)
    ensures
        r@ == painted(code@, s@, true) || r@ == s@,
{
    let on = enabled();
    string_of(paint(code, chars_of(s).as_slice(), on).as_slice())
}

/// ANSI escape: green text.
pub fn green(s: &str) -> (r: String)
    ensures
        r@ == painted(code_green(), s@, true) || r@ == s@,
{
    styled(vec!['3', '2'].as_slice(), s)
}

/// ANSI escape: red text.
pub fn red(s: &str) -> (r: String)
    ensures
        r@ == painted(code_red(), s@, true) || r@ == s@,
{
    styled(vec!['3', '1'].as_slice(), s)
}

/// ANSI escape: yellow text.
pub fn yellow(s: &str) -> (r: String)
    ensures
        r@ == painted(code_yellow(), s@, true) || r@ == s@,
{
    styled(vec!['3', '3'].as_slice(), s)
}

/// ANSI escape: bold text.
pub fn bold(s: &str) -> (r: String)
    ensures
        r@ == painted(code_bold(), s@, true) || r@ == s@,
{
    styled(vec!['1'].as_slice(), s)
}

/// ANSI escape: dim text.
pub fn dim(s: &str) -> (r: String)
    ensures
        r@ == painted(code_dim(), s@, true) || r@ == s@,
{
    styled(vec!['2'].as_slice(), s)
}

} // verus!
