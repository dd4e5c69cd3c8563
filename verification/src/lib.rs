//! A recursive, content-searching file scanner: it enumerates the regular
//! files under a root path, classifies each as text or binary by inspecting
//! a bounded prefix, and reports every line of a text file that satisfies a
//! caller-supplied match predicate, together with an aggregate outcome pair
//! (any match found, any error occurred).
//!
//! This crate holds the verified core of the pipeline: the traversal policy,
//! the text/binary classification, the match predicates, the per-file scan,
//! and the outcome aggregation. The surrounding process (filesystem access,
//! parallel scheduling, output) feeds these functions plain values.
pub mod matcher;
pub mod scanner;
pub mod sniff;
pub mod walker;

use vstd::prelude::*;
use crate::scanner::Outcome;

verus! {

/// A scan request: the pattern, whether it is a regular expression or a
/// literal substring, and the root path to search under.
#[derive(Debug)]
pub struct Config {
    pub regex_mode: bool,
    pub pattern: String,
    pub path: String,
}

/// The message shown when the command line does not carry enough arguments.
pub open spec fn usage_text() -> Seq<char> {
    "Usage: rgrep [--regex] <pattern> <path>"@
}

/// True when the first argument selects regular-expression matching.
pub open spec fn regex_flag_given(args: Seq<String>) -> bool {
    args.len() > 0 && args[0]@ == "--regex"@
}

/// Reads a scan request from the command-line arguments (the program name
/// already stripped): an optional leading `--regex` flag, then the pattern,
/// then the root path. Succeeds exactly when enough arguments are given, and
/// fails with the usage message otherwise; arguments past the path are
/// ignored.
pub fn parse_args(args: &Vec<String>) -> (r: Result<Config, String>)
    ensures
        regex_flag_given(args@) ==> (r is Ok <==> args@.len() >= 3),
        !regex_flag_given(args@) ==> (r is Ok <==> args@.len() >= 2),
        r matches Ok(c) ==> {
            if regex_flag_given(args@) {
                c.regex_mode == true && c.pattern@ == args@[1]@ && c.path@ == args@[2]@
            } else {
                c.regex_mode == false && c.pattern@ == args@[0]@ && c.path@ == args@[1]@
            }
        },
        r matches Err(u) ==> u@ == usage_text(),
{
    let usage: String = "Usage: rgrep [--regex] <pattern> <path>".to_owned();
    if args.len() == 0 {
        return Err(usage);
    }
    let flag: String = "--regex".to_owned();
    if args[0] == flag {
        if args.len() < 3 {
            return Err(usage);
        }
        Ok(Config { regex_mode: true, pattern: args[1].clone(), path: args[2].clone() })
    } else {
        if args.len() < 2 {
            return Err(usage);
        }
        Ok(Config { regex_mode: false, pattern: args[0].clone(), path: args[1].clone() })
    }
}

/// The process exit status an aggregate outcome maps to: 2 when any error
/// occurred (matches found or not), 0 when matches were found without any
/// error, 1 when nothing matched and nothing failed.
pub open spec fn spec_exit_code(outcome: Outcome) -> int {
    if outcome.had_error {
        2
    } else if outcome.had_match {
        0
    } else {
        1
    }
}

/// Maps the run's aggregate outcome to the process exit status.
pub fn exit_code(outcome: &Outcome) -> (code: i32)
    ensures
        code == spec_exit_code(*outcome),
{
    if outcome.had_error {
        2
    } else if outcome.had_match {
        0
    } else {
        1
    }
}

} // verus!
