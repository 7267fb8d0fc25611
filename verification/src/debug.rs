//! Whether a run is a debug run.

use vstd::prelude::*;
use crate::text::{chars_of, eq_chars};

verus! {

/// `arg` asks for debug output: it is `--debug` or `-d`.
pub open spec fn is_debug_flag(arg: Seq<char>) -> bool {
    arg == "--debug"@ || arg == "-d"@
}

/// Debug output is on when any command-line argument is `--debug` or `-d`.
pub fn is_debug_mode(args: &Vec<String>) -> (r: bool)
    ensures
        r == exists|i: int| 0 <= i < args@.len() && is_debug_flag(#[trigger] args@[i]@),
{
    let long = chars_of("--debug");
    let short = chars_of("-d");
    let n = args.len();
    for i in 0..n
        invariant
            n == args@.len(),
            long@ == "--debug"@,
            short@ == "-d"@,
            forall|x: int| 0 <= x < i ==> !is_debug_flag(#[trigger] args@[x]@),
    {
        let a = chars_of(args[i].as_str());
        if eq_chars(&a, &long) || eq_chars(&a, &short) {
            return true;
        }
    }
    false
}

} // verus!
