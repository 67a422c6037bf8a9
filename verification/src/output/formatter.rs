//! Messages by level, with quiet and verbose modes.

use crate::config::Config;
use crate::text::{concat, decimal, push_decimal};
use vstd::prelude::*;
use vstd::string::*;

verus! {

/// Level of a message.
#[derive(Debug, Clone, Copy, PartialEq, Eq, Structural)]
pub enum MessageLevel {
    /// Informational message.
    Info,
    /// Success message.
    Success,
    /// Warning message.
    Warning,
    /// Error message.
    Error,
    /// Debug message.
    Debug,
}

/// Formatter of messages with configurable verbosity.
#[derive(Debug, Clone, Copy)]
pub struct OutputFormatter {
    quiet: bool,
    verbose: bool,
    colored: bool,
}

/// The mark that stands before a message of a level.
pub open spec fn prefix_of(level: MessageLevel) -> Seq<char> {
    match level {
        MessageLevel::Info => ""@,
        MessageLevel::Success => "✓ "@,
        MessageLevel::Warning => "⚠ "@,
        MessageLevel::Error => "✗ "@,
        MessageLevel::Debug => "→ "@,
    }
}

/// The escape sequence that colours a message of a level.
pub open spec fn color_of(level: MessageLevel) -> Seq<char> {
    match level {
        MessageLevel::Info => ""@,
        MessageLevel::Success => "\x1b[32m"@,
        MessageLevel::Warning => "\x1b[33m"@,
        MessageLevel::Error => "\x1b[31m"@,
        MessageLevel::Debug => "\x1b[36m"@,
    }
}

/// The line that shows a message: mark and message, inside the colour of
/// the level where colours are on and the level has one.
pub open spec fn message_line(level: MessageLevel, message: Seq<char>, colored: bool) -> Seq<char> {
    if colored && level != MessageLevel::Info {
        color_of(level) + prefix_of(level) + message + "\x1b[0m"@
    } else {
        prefix_of(level) + message
    }
}

/// The text of a progress count.
pub open spec fn progress_text(current: nat, total: nat, message: Seq<char>) -> Seq<char> {
    "\r  ["@ + decimal(current) + "/"@ + decimal(total) + "] "@ + message + if current == total {
        "\n"@
    } else {
        ""@
    }
}

/// The columns of a table row, separated by bars.
pub open spec fn joined_columns(columns: Seq<&str>) -> Seq<char>
    decreases columns.len(),
{
    if columns.len() == 0 {
        Seq::empty()
    } else if columns.len() == 1 {
        columns[0]@
    } else {
        joined_columns(columns.drop_last()) + " │ "@ + columns.last()@
    }
}

impl Default for OutputFormatter {
    fn default() -> (r: Self)
        ensures
            !r.quiet_mode(),
            !r.verbose_mode(),
    {
        OutputFormatter::new(false, false)
    }
}

impl OutputFormatter {
    /// Whether only warnings and errors are shown.
    pub closed spec fn quiet_mode(&self) -> bool {
        self.quiet
    }

    /// Whether debug messages are shown.
    pub closed spec fn verbose_mode(&self) -> bool {
        self.verbose
    }

    /// Whether messages are coloured.
    pub closed spec fn colored_mode(&self) -> bool {
        self.colored
    }

    /// A formatter without colours.
    pub fn new(quiet: bool, verbose: bool) -> (r: Self)
        ensures
            r.quiet_mode() == quiet,
            r.verbose_mode() == verbose,
            !r.colored_mode(),
    {
        OutputFormatter { quiet, verbose, colored: false }
    }

    /// A formatter with colours on or off.
    pub fn with_color(quiet: bool, verbose: bool, colored: bool) -> (r: Self)
        ensures
            r.quiet_mode() == quiet,
            r.verbose_mode() == verbose,
            r.colored_mode() == colored,
    {
        OutputFormatter { quiet, verbose, colored }
    }

    /// A formatter as the configuration asks for.
    pub fn from_config(config: &Config) -> (r: Self)
        ensures
            r.quiet_mode() == config.quiet,
            r.verbose_mode() == config.verbose,
            !r.colored_mode(),
    {
        OutputFormatter::new(config.quiet, config.verbose)
    }

    /// A quiet formatter.
    pub fn quiet() -> (r: Self)
        ensures
            r.quiet_mode(),
            !r.verbose_mode(),
            !r.colored_mode(),
    {
        OutputFormatter::new(true, false)
    }

    /// A verbose formatter.
    pub fn verbose() -> (r: Self)
        ensures
            !r.quiet_mode(),
            r.verbose_mode(),
            !r.colored_mode(),
    {
        OutputFormatter::new(false, true)
    }

    /// The line that shows a message of a level.
    pub fn format_message(&self, level: MessageLevel, message: &str) -> (r: String)
        ensures
            r@ == message_line(level, message@, self.colored_mode()),
    {
        let (prefix, color): (&str, &str) = match level {
            MessageLevel::Info => ("", ""),
            MessageLevel::Success => ("✓ ", "\x1b[32m"),
            MessageLevel::Warning => ("⚠ ", "\x1b[33m"),
            MessageLevel::Error => ("✗ ", "\x1b[31m"),
            MessageLevel::Debug => ("→ ", "\x1b[36m"),
        };
        let plain = match level {
            MessageLevel::Info => true,
            _ => false,
        };
        if self.colored && !plain {
            let mut r = concat(color, prefix);
            r.append(message);
            r.append("\x1b[0m");
            r
        } else {
            concat(prefix, message)
        }
    }

    /// The line of an informational message; nothing in quiet mode.
    pub fn info(&self, message: &str) -> (r: Option<String>)
        ensures
            match r {
                Some(line) => !self.quiet_mode() && line@ == message_line(
                    MessageLevel::Info,
                    message@,
                    self.colored_mode(),
                ),
                None => self.quiet_mode(),
            },
    {
        if !self.quiet {
            Some(self.format_message(MessageLevel::Info, message))
        } else {
            None
        }
    }

    /// The line of a success message; nothing in quiet mode.
    pub fn success(&self, message: &str) -> (r: Option<String>)
        ensures
            match r {
                Some(line) => !self.quiet_mode() && line@ == message_line(
                    MessageLevel::Success,
                    message@,
                    self.colored_mode(),
                ),
                None => self.quiet_mode(),
            },
    {
        if !self.quiet {
            Some(self.format_message(MessageLevel::Success, message))
        } else {
            None
        }
    }

    /// The line of a warning, in every mode.
    pub fn warning(&self, message: &str) -> (r: Option<String>)
        ensures
            r matches Some(line) && line@ == message_line(
                MessageLevel::Warning,
                message@,
                self.colored_mode(),
            ),
    {
        Some(self.format_message(MessageLevel::Warning, message))
    }

    /// The line of an error, in every mode.
    pub fn error(&self, message: &str) -> (r: Option<String>)
        ensures
            r matches Some(line) && line@ == message_line(
                MessageLevel::Error,
                message@,
                self.colored_mode(),
            ),
    {
        Some(self.format_message(MessageLevel::Error, message))
    }

    /// The line of a debug message; nothing unless in verbose mode.
    pub fn debug(&self, message: &str) -> (r: Option<String>)
        ensures
            match r {
                Some(line) => self.verbose_mode() && line@ == message_line(
                    MessageLevel::Debug,
                    message@,
                    self.colored_mode(),
                ),
                None => !self.verbose_mode(),
            },
    {
        if self.verbose {
            Some(self.format_message(MessageLevel::Debug, message))
        } else {
            None
        }
    }

    /// The lines of a section header: a blank line and the title; nothing in
    /// quiet mode.
    pub fn section(&self, title: &str) -> (r: Option<String>)
        ensures
            match r {
                Some(line) => !self.quiet_mode() && line@ == "\n"@ + title@,
                None => self.quiet_mode(),
            },
    {
        if !self.quiet {
            Some(concat("\n", title))
        } else {
            None
        }
    }

    /// A separator line; nothing unless in verbose mode.
    pub fn separator(&self) -> (r: Option<String>)
        ensures
            match r {
                Some(line) => self.verbose_mode() && line@
                    == "────────────────────────────────────────"@,
                None => !self.verbose_mode(),
            },
    {
        if self.verbose {
            Some("────────────────────────────────────────".to_owned())
        } else {
            None
        }
    }

    /// The line of a detail: label and value; nothing unless in verbose
    /// mode.
    pub fn detail(&self, label: &str, value: &str) -> (r: Option<String>)
        ensures
            match r {
                Some(line) => self.verbose_mode() && line@ == "  "@ + label@ + ": "@ + value@,
                None => !self.verbose_mode(),
            },
    {
        if self.verbose {
            let mut line = concat("  ", label);
            line.append(": ");
            line.append(value);
            Some(line)
        } else {
            None
        }
    }

    /// The text of a progress count, which overwrites its line and ends it
    /// once the count is complete; nothing in quiet mode.
    pub fn progress(&self, current: usize, total: usize, message: Option<&str>) -> (r: Option<
        String,
    >)
        ensures
            match r {
                Some(text) => !self.quiet_mode() && text@ == progress_text(
                    current as nat,
                    total as nat,
                    match message {
                        Some(m) => m@,
                        None => ""@,
                    },
                ),
                None => self.quiet_mode(),
            },
    {
        if self.quiet {
            return None;
        }
        let mut text = "\r  [".to_owned();
        push_decimal(&mut text, current as u64);
        text.append("/");
        push_decimal(&mut text, total as u64);
        text.append("] ");
        match message {
            Some(m) => {
                text.append(m);
            },
            None => {
                text.append("");
            },
        }
        if current == total {
            text.append("\n");
        }
        proof {
            reveal_strlit("");
        }
        assert(text@ =~= progress_text(
            current as nat,
            total as nat,
            match message {
                Some(m) => m@,
                None => ""@,
            },
        ));
        Some(text)
    }

    /// The text that clears the current line; nothing in quiet mode.
    pub fn clear_line(&self) -> (r: Option<String>)
        ensures
            match r {
                Some(text) => !self.quiet_mode() && text@ == "\r\x1b[K"@,
                None => self.quiet_mode(),
            },
    {
        if !self.quiet {
            Some("\r\x1b[K".to_owned())
        } else {
            None
        }
    }

    /// An empty line; nothing in quiet mode.
    pub fn blank_line(&self) -> (r: Option<String>)
        ensures
            match r {
                Some(line) => !self.quiet_mode() && line@ == ""@,
                None => self.quiet_mode(),
            },
    {
        if !self.quiet {
            Some("".to_owned())
        } else {
            None
        }
    }

    /// The line of a table row: the columns, separated; nothing unless in
    /// verbose mode.
    pub fn table_row(&self, columns: &Vec<&str>) -> (r: Option<String>)
        ensures
            match r {
                Some(line) => self.verbose_mode() && line@ == "  "@ + joined_columns(columns@),
                None => !self.verbose_mode(),
            },
    {
        if !self.verbose {
            return None;
        }
        let mut line = "  ".to_owned();
        let ghost lead = line@;
        let mut i: usize = 0;
        assert(columns@.subrange(0, 0) =~= Seq::<&str>::empty());
        while i < columns.len()
            invariant
                i <= columns.len(),
                line@ == lead + joined_columns(columns@.subrange(0, i as int)),
            decreases columns.len() - i,
        {
            proof {
                assert(columns@.subrange(0, i + 1).drop_last() =~= columns@.subrange(
                    0,
                    i as int,
                ));
                assert(columns@.subrange(0, i + 1).last() == columns@[i as int]);
            }
            if i > 0 {
                line.append(" │ ");
            }
            line.append(columns[i]);
            assert(line@ =~= lead + joined_columns(columns@.subrange(0, i + 1)));
            i += 1;
        }
        assert(columns@.subrange(0, i as int) =~= columns@);
        Some(line)
    }

    /// The line of a list item: its number and its message; nothing in
    /// quiet mode.
    pub fn list_item(&self, index: usize, message: &str) -> (r: Option<String>)
        ensures
            match r {
                Some(line) => !self.quiet_mode() && line@ == "  "@ + decimal(index as nat) + ". "@
                    + message@,
                None => self.quiet_mode(),
            },
    {
        if self.quiet {
            return None;
        }
        let mut line = "  ".to_owned();
        push_decimal(&mut line, index as u64);
        line.append(". ");
        line.append(message);
        assert(line@ =~= "  "@ + decimal(index as nat) + ". "@ + message@);
        Some(line)
    }

    /// Whether output is shown: not in quiet mode.
    pub fn should_print(&self) -> (b: bool)
        ensures
            b == !self.quiet_mode(),
    {
        !self.quiet
    }

    /// Whether verbose output is shown.
    pub fn is_verbose(&self) -> (b: bool)
        ensures
            b == self.verbose_mode(),
    {
        self.verbose
    }

    /// Whether quiet mode is on.
    pub fn is_quiet(&self) -> (b: bool)
        ensures
            b == self.quiet_mode(),
    {
        self.quiet
    }
}

} // verus!
