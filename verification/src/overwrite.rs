//! What to do about an output file that exists.

use crate::config::{lowercase, text_eq, to_lowercase, OverwriteMode};
use crate::text::{chars_of, string_of, trim_chars, trimmed};
use vstd::prelude::*;
use vstd::string::*;

verus! {

/// What to do before writing the output.
#[derive(Debug, Clone, Copy, PartialEq, Eq, Structural)]
pub enum OverwriteDecision {
    /// Write the output.
    Proceed,
    /// Fail: the output exists and may not be overwritten.
    Refuse,
    /// Ask the user.
    Ask,
}

/// What to do about the output: write where there is no file or overwriting
/// is forced, refuse where overwriting is ruled out or nobody can be asked,
/// else ask.
pub open spec fn decision(exists: bool, mode: OverwriteMode, quiet: bool) -> OverwriteDecision {
    if !exists {
        OverwriteDecision::Proceed
    } else {
        match mode {
            OverwriteMode::Force => OverwriteDecision::Proceed,
            OverwriteMode::NoClobber => OverwriteDecision::Refuse,
            OverwriteMode::Prompt => if quiet {
                OverwriteDecision::Refuse
            } else {
                OverwriteDecision::Ask
            },
        }
    }
}

/// What to do about the output file.
pub fn overwrite_decision(exists: bool, mode: OverwriteMode, quiet: bool) -> (r: OverwriteDecision)
    ensures
        r == decision(exists, mode, quiet),
{
    if !exists {
        OverwriteDecision::Proceed
    } else {
        match mode {
            OverwriteMode::Force => OverwriteDecision::Proceed,
            OverwriteMode::NoClobber => OverwriteDecision::Refuse,
            OverwriteMode::Prompt => if quiet {
                OverwriteDecision::Refuse
            } else {
                OverwriteDecision::Ask
            },
        }
    }
}

/// Whether an answer allows overwriting: `y` or `yes`, in any case, with
/// whitespace around it ignored.
pub fn answer_allows(response: &str) -> (r: bool)
    ensures
        r == (lowercase(trimmed(response@)) == "y"@ || lowercase(trimmed(response@)) == "yes"@),
{
    let answer = string_of(&trim_chars(&chars_of(response)));
    let answer = to_lowercase(answer.as_str());
    text_eq(answer.as_str(), "y") || text_eq(answer.as_str(), "yes")
}

} // verus!
