use vstd::prelude::*;
use crate::text::{decimal, push_decimal};

verus! {

/// The report of an error at a line: `[line N] Error`, the location, a
/// colon and the message.
pub open spec fn report_text(line: u32, location: Seq<char>, message: Seq<char>) -> Seq<char> {
    "[line "@ + decimal(line as nat) + "] Error"@ + location + ": "@ + message
}

/// The report of an error at a line, with no location within it.
pub fn error(line: u32, message: &str) -> (r: String)
    ensures
        r@ == report_text(line, Seq::empty(), message@),
{
    let r = report(line, "", message);
    proof {
        reveal_strlit("");
        assert(""@ =~= Seq::<char>::empty());
    }
    r
}

/// The report of an error at `location` on a line.
pub fn report(line: u32, location: &str, message: &str) -> (r: String)
    ensures
        r@ == report_text(line, location@, message@),
{
    let mut s = String::new();
    s.push_str("[line ");
    push_decimal(&mut s, line as u64);
    s.push_str("] Error");
    s.push_str(location);
    s.push_str(": ");
    s.push_str(message);
    proof {
        assert(s@ =~= report_text(line, location@, message@));
    }
    s
}

/// The native function that tells the time.
pub struct Clock;

impl Clock {
    /// It takes no arguments.
    pub fn arity(&self) -> (n: usize)
        ensures
            n == 0,
    {
        0
    }

    /// How it is shown.
    pub fn to_string(&self) -> (s: String)
        ensures
            s@ == "<native fn>"@,
    {
        "<native fn>".to_owned()
    }
}

} // verus!
