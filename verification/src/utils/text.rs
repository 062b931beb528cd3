//! Terminal colours.
use vstd::prelude::*;

verus! {

pub const RESET: &'static str = "\x1b[0m";
pub const BOLD: &'static str = "\x1b[1m";
pub const BRIGHT_RED: &'static str = "\x1b[91m";
pub const BRIGHT_GREEN: &'static str = "\x1b[92m";
pub const BRIGHT_YELLOW: &'static str = "\x1b[93m";
pub const BRIGHT_CYAN: &'static str = "\x1b[96m";
pub const BOLD_RED: &'static str = "\x1b[1m\x1b[91m";
pub const BOLD_GREEN: &'static str = "\x1b[1m\x1b[92m";
pub const BOLD_YELLOW: &'static str = "\x1b[1m\x1b[93m";
pub const BOLD_CYAN: &'static str = "\x1b[1m\x1b[96m";

/// `msg` in `style`, then the reset sequence.
pub fn colored(msg: &str, style: &str) -> (r: String)
    ensures
        r@ == style@ + msg@ + RESET@,
{
    let mut r = style.to_owned();
    r.append(msg);
    r.append(RESET);
    r
}

} // verus!
