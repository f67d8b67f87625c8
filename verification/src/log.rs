//! How a log line looks: its prefix, its colour and how it ends.
//!
//! A line is `[<module>] <message>`.  Lines of the `server`, `watcher` and
//! `error` modules (in any ASCII case) are important: they end with a newline
//! and get a colour of their own (blue, green, red).  Lines of any other module
//! are yellow and end with a carriage return, so the next line overwrites them.

use vstd::prelude::*;
use vstd::string::*;

use crate::text::chars_of;

verus! {

/// The colour class of a log line.
#[derive(PartialEq, Eq, Structural, Debug, Clone, Copy)]
pub enum LogStyle {
    /// The `server` module: bright blue, kept.
    Server,
    /// The `watcher` module: bright green, kept.
    Watcher,
    /// The `error` module: bright red, kept.
    Error,
    /// Any other module: bright yellow, overwritten by the next line.
    Other,
}

/// The code of a character with ASCII capitals made small.
pub open spec fn lower_code(c: char) -> u32 {
    let x = c as u32;
    if 65 <= x <= 90 {
        (x + 32) as u32
    } else {
        x
    }
}

/// Whether `m` spells the lowercase word `w` in any ASCII case.
pub open spec fn lower_is(m: Seq<char>, w: Seq<char>) -> bool {
    m.len() == w.len() && forall|i: int| 0 <= i < m.len() ==> lower_code(#[trigger] m[i]) == w[i] as u32
}

/// The style of the lines of the module named `m`.
pub open spec fn spec_log_style(m: Seq<char>) -> LogStyle {
    if lower_is(m, "server"@) {
        LogStyle::Server
    } else if lower_is(m, "watcher"@) {
        LogStyle::Watcher
    } else if lower_is(m, "error"@) {
        LogStyle::Error
    } else {
        LogStyle::Other
    }
}

/// Whether `m` spells `w` (lowercase) in any ASCII case.
fn spells(m: &Vec<char>, w: &str) -> (b: bool)
    ensures
        b == lower_is(m@, w@),
{
    let ws = chars_of(w);
    if m.len() != ws.len() {
        return false;
    }
    for i in 0..m.len()
        invariant
            ws@ == w@,
            m@.len() == ws@.len(),
            forall|j: int| 0 <= j < i ==> lower_code(#[trigger] m@[j]) == w@[j] as u32,
    {
        let x = m[i] as u32;
        let l = if 65 <= x && x <= 90 {
            x + 32
        } else {
            x
        };
        if l != ws[i] as u32 {
            return false;
        }
    }
    true
}

/// The style of the lines of `module`.  Matching ignores ASCII case; no other
/// character lowercases to a letter of `server`, `watcher` or `error`, so this
/// is the classification made on the Unicode lowercase of the name.
pub fn log_style(module: &str) -> (s: LogStyle)
    ensures
        s == spec_log_style(module@),
{
    let m = chars_of(module);
    if spells(&m, "server") {
        LogStyle::Server
    } else if spells(&m, "watcher") {
        LogStyle::Watcher
    } else if spells(&m, "error") {
        LogStyle::Error
    } else {
        LogStyle::Other
    }
}

impl LogStyle {
    /// Whether lines of this style stay on screen.
    pub open spec fn spec_is_important(self) -> bool {
        !(self is Other)
    }

    /// Whether lines of this style stay on screen (they end with a newline).
    pub fn is_important(&self) -> (b: bool)
        ensures
            b == self.spec_is_important(),
    {
        match self {
            LogStyle::Other => false,
            _ => true,
        }
    }

    /// How lines of this style end: a newline when important, else a carriage return.
    pub fn terminator(&self) -> (t: &'static str)
        ensures
            t@ == if self.spec_is_important() {
                "\n"@
            } else {
                "\r"@
            },
    {
        if self.is_important() {
            "\n"
        } else {
            "\r"
        }
    }
}

/// The prefix of the lines of `module`: its name in square brackets.
pub fn log_prefix(module: &str) -> (p: String)
    ensures
        p@ == "["@ + module@ + "]"@,
{
    let mut p = String::new();
    p.append("[");
    p.append(module);
    p.append("]");
    proof {
        assert(p@ =~= "["@ + module@ + "]"@);
    }
    p
}

} // verus!
