//! Manual pages: none exist yet, so every topic is unknown.
use vstd::prelude::*;
use crate::parser::{Outcome, ParseResult};

verus! {

pub const MSG_NEEDS_TOPIC: &'static str = "must specify command";

/// Looks up the manual page of the command named by `args[0]`.
pub fn parse(args: &Vec<String>) -> (r: ParseResult)
    ensures
        args@.len() == 0 ==> r@ == Outcome::InvalidArgs(MSG_NEEDS_TOPIC@),
        args@.len() > 0 ==> r@ == Outcome::InvalidCmd(args@[0]@),
{
    if args.len() == 0 {
        ParseResult::InvalidArgs(MSG_NEEDS_TOPIC.to_owned())
    } else {
        ParseResult::InvalidCmd(args[0].clone())
    }
}

} // verus!
