//! A nested console log formatter: it keeps the indentation state and builds
//! each line's text; the host program prints what it is handed.

use vstd::prelude::*;

use crate::color::{color_wrap, Colorize};
use crate::text::{repeat_str, repeated};

verus! {

/// Builds indented, decorated console lines; `open_scope` and `close_scope`
/// move the indentation in step with the log's nesting.
#[derive(Debug)]
pub struct NestedConsoleLogger {
    indent: usize,
    header_open: String,
    header_close: String,
    info_prefix: String,
}

impl NestedConsoleLogger {
    pub closed spec fn spec_indent(&self) -> usize {
        self.indent
    }

    pub closed spec fn spec_header_open(&self) -> Seq<char> {
        self.header_open@
    }

    pub closed spec fn spec_header_close(&self) -> Seq<char> {
        self.header_close@
    }

    pub closed spec fn spec_info_prefix(&self) -> Seq<char> {
        self.info_prefix@
    }

    /// The indentation in front of a line at the current nesting.
    pub open spec fn spec_margin(&self) -> Seq<char> {
        repeated("  "@, self.spec_indent() as nat)
    }

    pub fn new() -> (r: NestedConsoleLogger)
        ensures
            r.spec_indent() == 0,
            r.spec_header_open() == color_wrap("34"@, "<"@),
            r.spec_header_close() == color_wrap("34"@, ">"@),
            r.spec_info_prefix() == color_wrap("34"@, "-"@),
    {
        NestedConsoleLogger {
            indent: 0,
            header_open: "<".blue().into_string(),
            header_close: ">".blue().into_string(),
            info_prefix: "-".blue().into_string(),
        }
    }

    /// One plain line at the current nesting.
    pub fn log(&mut self, message: &str) -> (r: String)
        ensures
            *final(self) == *old(self),
            r@ == old(self).spec_margin() + message@,
    {
        let mut out = repeat_str("  ", self.indent);
        out.append(message);
        out
    }

    /// One informational line, behind the blue dash.
    pub fn info(&mut self, message: &str) -> (r: String)
        ensures
            *final(self) == *old(self),
            r@ == old(self).spec_margin() + color_wrap("34"@, old(self).spec_info_prefix()) + " "@
                + message@,
    {
        let mut out = repeat_str("  ", self.indent);
        out.append(self.info_prefix.as_str().blue().as_str());
        out.append(" ");
        out.append(message);
        proof {
            assert(out@ =~= old(self).spec_margin() + color_wrap(
                "34"@,
                old(self).spec_info_prefix(),
            ) + " "@ + message@);
        }
        out
    }

    /// One error line, bracketed in red.
    pub fn error(&mut self, message: &str) -> (r: String)
        ensures
            *final(self) == *old(self),
            r@ == old(self).spec_margin() + color_wrap("31"@, "! Error !"@) + " "@ + message@
                + " "@ + color_wrap("31"@, "! Error !"@),
    {
        let mut out = repeat_str("  ", self.indent);
        let marker = "! Error !".red();
        out.append(marker.as_str());
        out.append(" ");
        out.append(message);
        out.append(" ");
        out.append(marker.as_str());
        proof {
            assert(out@ =~= old(self).spec_margin() + color_wrap("31"@, "! Error !"@) + " "@
                + message@ + " "@ + color_wrap("31"@, "! Error !"@));
        }
        out
    }

    /// Enters a scope one level deeper; a non-empty headline yields a header
    /// line at the old nesting.
    pub fn open_scope(&mut self, message: &str) -> (r: Option<String>)
        requires
            old(self).spec_indent() < usize::MAX,
        ensures
            final(self).spec_indent() == old(self).spec_indent() + 1,
            final(self).spec_header_open() == old(self).spec_header_open(),
            final(self).spec_header_close() == old(self).spec_header_close(),
            final(self).spec_info_prefix() == old(self).spec_info_prefix(),
            match r {
                Some(line) => message@.len() > 0 && line@ == old(self).spec_margin() + old(
                    self,
                ).spec_header_open() + " "@ + message@ + " "@ + old(self).spec_header_close(),
                None => message@.len() == 0,
            },
    {
        let line = if message.unicode_len() > 0 {
            let mut out = repeat_str("  ", self.indent);
            out.append(self.header_open.as_str());
            out.append(" ");
            out.append(message);
            out.append(" ");
            out.append(self.header_close.as_str());
            Some(out)
        } else {
            None
        };
        self.indent += 1;
        line
    }

    /// Leaves the innermost scope; a non-empty headline yields a footer line
    /// at the restored nesting.
    pub fn close_scope(&mut self, message: &str) -> (r: Option<String>)
        requires
            old(self).spec_indent() >= 1,
        ensures
            final(self).spec_indent() == old(self).spec_indent() - 1,
            final(self).spec_header_open() == old(self).spec_header_open(),
            final(self).spec_header_close() == old(self).spec_header_close(),
            final(self).spec_info_prefix() == old(self).spec_info_prefix(),
            match r {
                Some(line) => message@.len() > 0 && line@ == final(self).spec_margin() + old(
                    self,
                ).spec_header_open() + " "@ + message@ + " "@ + old(self).spec_header_close(),
                None => message@.len() == 0,
            },
    {
        self.indent -= 1;
        if message.unicode_len() > 0 {
            let mut out = repeat_str("  ", self.indent);
            out.append(self.header_open.as_str());
            out.append(" ");
            out.append(message);
            out.append(" ");
            out.append(self.header_close.as_str());
            Some(out)
        } else {
            None
        }
    }

    /// Resets the nesting after a failure and yields the failure header.
    pub fn panic(&mut self, message: &str) -> (r: String)
        ensures
            final(self).spec_indent() == 0,
            final(self).spec_header_open() == old(self).spec_header_open(),
            final(self).spec_header_close() == old(self).spec_header_close(),
            final(self).spec_info_prefix() == old(self).spec_info_prefix(),
            r@ == old(self).spec_header_open() + " "@ + message@ + " "@ + old(
                self,
            ).spec_header_close(),
    {
        self.indent = 0;
        let mut out = String::from_str(self.header_open.as_str());
        out.append(" ");
        out.append(message);
        out.append(" ");
        out.append(self.header_close.as_str());
        out
    }
}

impl Default for NestedConsoleLogger {
    fn default() -> (r: NestedConsoleLogger)
        ensures
            r.spec_indent() == 0,
            r.spec_header_open() == color_wrap("34"@, "<"@),
            r.spec_header_close() == color_wrap("34"@, ">"@),
            r.spec_info_prefix() == color_wrap("34"@, "-"@),
    {
        NestedConsoleLogger::new()
    }
}

} // verus!
