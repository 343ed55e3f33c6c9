//! The sink for progress and warning messages.

use std::io::Write;
use vstd::prelude::*;

verus! {

/// Receives what the library has to say while it works. Nothing the library
/// computes depends on what a listener does with a message.
pub trait Listener {
    fn warning(&mut self, s: String);

    fn info(&mut self, s: String);
}

/// Drops every message.
pub struct NoOpListener;

impl Listener for NoOpListener {
    fn info(&mut self, _s: String) {
    }

    fn warning(&mut self, _s: String) {
    }
}

/// Prints warnings to the standard error stream, and progress messages too
/// where `verbose` is set.
pub struct StdErrListener {
    pub verbose: bool,
}

/// Writes `prefix`, `s` and a line feed to `std::io::stderr`. A failure to
/// write is ignored.
#[verifier::external_body]
fn write_stderr_line(prefix: &str, s: &str) {
    let _ = writeln!(std::io::stderr(), "{}{}", prefix, s);
}

impl Listener for StdErrListener {
    /// Prints the warning; the listener stays as it is.
    fn warning(&mut self, s: String)
        ensures
            *final(self) == *old(self),
    {
        write_stderr_line("warning: ", s.as_str());
    }

    /// Prints the message where the listener is verbose; the listener stays
    /// as it is.
    fn info(&mut self, s: String)
        ensures
            *final(self) == *old(self),
    {
        if self.verbose {
            write_stderr_line("info: ", s.as_str());
        }
    }
}

} // verus!
