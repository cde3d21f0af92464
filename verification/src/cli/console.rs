//! How lines for the user are written: coloured marks on a terminal that
//! takes colour, plain prefixes elsewhere.

use vstd::prelude::*;
use crate::cli::handlers::connection_handler::ConsoleLine;

verus! {

/// What the terminal around the program can do.
#[derive(Debug, Clone, Copy)]
pub struct Console {
    pub stdout_color: bool,
    pub stderr_color: bool,
    pub interactive: bool,
}

/// `mark` in `color`, a space, then the message.
pub open spec fn marked(color: Seq<char>, mark: Seq<char>, msg: Seq<char>) -> Seq<char> {
    color + mark + "\x1b[0m"@ + " "@ + msg
}

fn mark_line(color: &str, mark: &str, msg: &str) -> (r: String)
    ensures
        r@ == marked(color@, mark@, msg@),
{
    let mut s = color.to_owned();
    s.append(mark);
    s.append("\x1b[0m");
    s.append(" ");
    s.append(msg);
    s
}

fn prefixed(prefix: &str, msg: &str) -> (r: String)
    ensures
        r@ == prefix@ + msg@,
{
    let mut s = prefix.to_owned();
    s.append(msg);
    s
}

impl Console {
    /// Colour on standard output or error where that stream is a terminal
    /// and `NO_COLOR` is not set; prompts only where standard input is one.
    pub fn new(stdout_tty: bool, stderr_tty: bool, stdin_tty: bool, no_color: bool) -> (r: Self)
        ensures
            r.stdout_color == (stdout_tty && !no_color),
            r.stderr_color == (stderr_tty && !no_color),
            r.interactive == stdin_tty,
    {
        Console { stdout_color: stdout_tty && !no_color, stderr_color: stderr_tty && !no_color, interactive: stdin_tty }
    }

    /// The line that reports a success, for standard output.
    pub fn success(&self, msg: &str) -> (r: String)
        ensures
            r@ == if self.stdout_color { marked("\x1b[92m"@, "\u{2713}"@, msg@) } else { "OK: "@ + msg@ },
    {
        if self.stdout_color { mark_line("\x1b[92m", "\u{2713}", msg) } else { prefixed("OK: ", msg) }
    }

    /// The line that informs, for standard output.
    pub fn info(&self, msg: &str) -> (r: String)
        ensures
            r@ == if self.stdout_color { marked("\x1b[94m"@, "\u{2139}"@, msg@) } else { "INFO: "@ + msg@ },
    {
        if self.stdout_color { mark_line("\x1b[94m", "\u{2139}", msg) } else { prefixed("INFO: ", msg) }
    }

    /// The line that warns, for standard error.
    pub fn warn(&self, msg: &str) -> (r: String)
        ensures
            r@ == if self.stderr_color { marked("\x1b[93m"@, "\u{26a0}"@, msg@) } else { "WARN: "@ + msg@ },
    {
        if self.stderr_color { mark_line("\x1b[93m", "\u{26a0}", msg) } else { prefixed("WARN: ", msg) }
    }

    /// The line that reports an error, for standard error.
    pub fn error(&self, msg: &str) -> (r: String)
        ensures
            r@ == if self.stderr_color { marked("\x1b[91m"@, "\u{274c} ERROR"@, msg@) } else { "ERROR: "@ + msg@ },
    {
        if self.stderr_color { mark_line("\x1b[91m", "\u{274c} ERROR", msg) } else { prefixed("ERROR: ", msg) }
    }

    /// The text of a line, and whether it goes to standard error.
    pub fn render(&self, line: &ConsoleLine) -> (r: (String, bool))
        ensures
            match line {
                ConsoleLine::Success(m) => r.0@ == if self.stdout_color { marked("\x1b[92m"@, "\u{2713}"@, m@) } else { "OK: "@ + m@ } && !r.1,
                ConsoleLine::Info(m) => r.0@ == if self.stdout_color { marked("\x1b[94m"@, "\u{2139}"@, m@) } else { "INFO: "@ + m@ } && !r.1,
                ConsoleLine::Warn(m) => r.0@ == if self.stderr_color { marked("\x1b[93m"@, "\u{26a0}"@, m@) } else { "WARN: "@ + m@ } && r.1,
                ConsoleLine::Error(m) => r.0@ == if self.stderr_color { marked("\x1b[91m"@, "\u{274c} ERROR"@, m@) } else { "ERROR: "@ + m@ } && r.1,
            },
    {
        match line {
            ConsoleLine::Success(m) => (self.success(m.as_str()), false),
            ConsoleLine::Info(m) => (self.info(m.as_str()), false),
            ConsoleLine::Warn(m) => (self.warn(m.as_str()), true),
            ConsoleLine::Error(m) => (self.error(m.as_str()), true),
        }
    }

    /// The text that asks for a secret, or the error when there is no
    /// terminal to type it on.
    pub fn secret_prompt(&self, prompt: &str) -> (r: Result<String, String>)
        ensures
            self.interactive ==> (r matches Ok(p) && p@ == prompt@ + ": "@),
            !self.interactive ==> (r matches Err(m) && m@ == "secret input required but no interactive terminal available. Use --stdin or --env"@),
    {
        if !self.interactive {
            return Err("secret input required but no interactive terminal available. Use --stdin or --env".to_owned());
        }
        let mut p = prompt.to_owned();
        p.append(": ");
        Ok(p)
    }
}

} // verus!
