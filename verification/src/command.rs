//! One run of the program, without its input and output.

use vstd::prelude::*;
use vstd::string::*;
use vstd::utf8::encode_utf8;
use crate::error::ParseError;
use crate::grammar::parse;
use crate::match_pattern::match_pattern;
use crate::semantics::line_matches;

verus! {

/// What one run of the program is asked to do.
#[derive(Debug)]
pub struct Command {
    /// Whether the pattern is a regular expression.
    pub regexp: bool,
    /// The pattern to look for in the input.
    pub pattern: String,
}

/// The exit status of a run: 0 where the pattern matched the line, 1 where
/// it did not.
pub open spec fn exit_status(matched: bool) -> i32 {
    if matched {
        0
    } else {
        1
    }
}

impl Command {
    /// Evaluates the pattern against one line, given without its line
    /// ending: the exit status of the run, or why the pattern does not
    /// compile.
    pub fn invoke(&self, input_line: &str) -> (status: Result<i32, ParseError>)
        ensures
            match parse(encode_utf8(self.pattern@)) {
                Ok(units) => status == Ok::<i32, ParseError>(
                    exit_status(line_matches(units, input_line.spec_bytes())),
                ),
                Err(e) => status == Err::<i32, ParseError>(e),
            },
    {
        match match_pattern(input_line, self.pattern.as_str()) {
            Ok(true) => Ok(0),
            Ok(false) => Ok(1),
            Err(e) => Err(e),
        }
    }
}

} // verus!
