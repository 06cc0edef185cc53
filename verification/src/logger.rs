//! The log line format.
use vstd::prelude::*;

use crate::text::{append, chars_of, string_of};

verus! {

/// Formats log lines; the file sink itself lives with the program.
pub struct Logger;

impl Logger {
    /// `STAMP [LEVEL] MESSAGE`.
    pub fn format_line(stamp: &str, level: &str, msg: &str) -> (r: String)
        ensures
            r@ == stamp@ + seq![' ', '['] + level@ + seq![']', ' '] + msg@,
    {
        let mut v = chars_of(stamp);
        v.push(' ');
        v.push('[');
        append(&mut v, chars_of(level).as_slice());
        v.push(']');
        v.push(' ');
        append(&mut v, chars_of(msg).as_slice());
        assert(v@ =~= stamp@ + seq![' ', '['] + level@ + seq![']', ' '] + msg@);
        string_of(v.as_slice())
    }
}

} // verus!
