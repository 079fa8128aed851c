use vstd::prelude::*;
use vstd::string::{StrSliceExecFns, StringExecFns};

verus! {

/// Grey, for the brackets around a terminal log line.
pub const BRACKET_COLOR: &'static str = "\x1b[38;2;108;111;133m";

pub const INFO_COLOR: &'static str = "\x1b[38;2;30;102;245m";

pub const OK_COLOR: &'static str = "\x1b[38;2;64;160;43m";

pub const WARN_COLOR: &'static str = "\x1b[38;2;223;142;29m";

pub const ERROR_COLOR: &'static str = "\x1b[38;2;230;69;83m";

pub const FATAL_COLOR: &'static str = "\x1b[38;2;210;15;57m";

pub const DEBUG_COLOR: &'static str = "\x1b[38;2;136;57;239m";

pub const INPUT_COLOR: &'static str = "\x1b[38;2;32;159;181m";

pub const HYPER_COLOR: &'static str = "\x1b[38;2;234;118;203m";

pub const CURIO_COLOR: &'static str = "\x1b[38;2;114;135;253m";

/// Resets the terminal style.
pub const STYLE_RESET: &'static str = "\x1b[0m";

/// The severity of a log message, from least to most severe; `INPUT` is the
/// level that reads a line back from the user.
#[allow(non_camel_case_types, clippy::upper_case_acronyms)]
#[derive(Clone, Copy, PartialEq, Eq, Structural, PartialOrd, Ord, Debug)]
pub enum LogLevel {
    HYPER,
    DEBUG,
    INFO,
    CURIO,
    OK,
    WARN,
    ERROR,
    FATAL,
    INPUT,
}

impl LogLevel {
    /// The position of the level in the order of severity, from 0 (`HYPER`)
    /// to 8 (`INPUT`).
    pub open spec fn rank_spec(self) -> nat {
        match self {
            LogLevel::HYPER => 0,
            LogLevel::DEBUG => 1,
            LogLevel::INFO => 2,
            LogLevel::CURIO => 3,
            LogLevel::OK => 4,
            LogLevel::WARN => 5,
            LogLevel::ERROR => 6,
            LogLevel::FATAL => 7,
            LogLevel::INPUT => 8,
        }
    }

    /// The ANSI escape sequence of the level's color.
    pub open spec fn color_spec(self) -> Seq<char> {
        match self {
            LogLevel::HYPER => HYPER_COLOR@,
            LogLevel::DEBUG => DEBUG_COLOR@,
            LogLevel::INFO => INFO_COLOR@,
            LogLevel::CURIO => CURIO_COLOR@,
            LogLevel::OK => OK_COLOR@,
            LogLevel::WARN => WARN_COLOR@,
            LogLevel::ERROR => ERROR_COLOR@,
            LogLevel::FATAL => FATAL_COLOR@,
            LogLevel::INPUT => INPUT_COLOR@,
        }
    }

    /// The level's name, padded to five characters.
    pub open spec fn label_spec(self) -> Seq<char> {
        match self {
            LogLevel::HYPER => "HYPER"@,
            LogLevel::DEBUG => "DEBUG"@,
            LogLevel::INFO => "INFO "@,
            LogLevel::CURIO => "CURIO"@,
            LogLevel::OK => "OK   "@,
            LogLevel::WARN => "WARN "@,
            LogLevel::ERROR => "ERROR"@,
            LogLevel::FATAL => "FATAL"@,
            LogLevel::INPUT => "INPUT"@,
        }
    }

    /// The position of the level in the order of severity.
    pub fn rank(&self) -> (r: u8)
        ensures
            r as nat == self.rank_spec(),
    {
        match self {
            LogLevel::HYPER => 0,
            LogLevel::DEBUG => 1,
            LogLevel::INFO => 2,
            LogLevel::CURIO => 3,
            LogLevel::OK => 4,
            LogLevel::WARN => 5,
            LogLevel::ERROR => 6,
            LogLevel::FATAL => 7,
            LogLevel::INPUT => 8,
        }
    }

    /// Whether this level is at least as severe as `other`.
    pub fn at_least(&self, other: &LogLevel) -> (r: bool)
        ensures
            r == (self.rank_spec() >= other.rank_spec()),
    {
        self.rank() >= other.rank()
    }

    /// Returns the ANSI escape code representing the level's color.
    pub fn ansi_color(&self) -> (r: &'static str)
        ensures
            r@ == self.color_spec(),
    {
        match self {
            LogLevel::HYPER => HYPER_COLOR,
            LogLevel::DEBUG => DEBUG_COLOR,
            LogLevel::INFO => INFO_COLOR,
            LogLevel::CURIO => CURIO_COLOR,
            LogLevel::OK => OK_COLOR,
            LogLevel::WARN => WARN_COLOR,
            LogLevel::ERROR => ERROR_COLOR,
            LogLevel::FATAL => FATAL_COLOR,
            LogLevel::INPUT => INPUT_COLOR,
        }
    }

    /// The level's name as log lines show it, padded to five characters.
    pub fn label(&self) -> (r: &'static str)
        ensures
            r@ == self.label_spec(),
    {
        match self {
            LogLevel::HYPER => "HYPER",
            LogLevel::DEBUG => "DEBUG",
            LogLevel::INFO => "INFO ",
            LogLevel::CURIO => "CURIO",
            LogLevel::OK => "OK   ",
            LogLevel::WARN => "WARN ",
            LogLevel::ERROR => "ERROR",
            LogLevel::FATAL => "FATAL",
            LogLevel::INPUT => "INPUT",
        }
    }
}

/// The level that `Logger::quick` gives a logger, for the terminal and the
/// file alike.
pub open spec fn default_level() -> LogLevel {
    LogLevel::INFO
}

/// A named sink of log lines with a minimum level for the terminal and one
/// for the log file.
#[derive(Clone, Copy, PartialEq, Eq, Debug)]
pub struct Logger<'a> {
    /// Prefix for the logger if any.
    pub prefix: Option<&'a str>,
    /// Minimum level when logging to the terminal.
    pub tlevel: LogLevel,
    /// Minimum level when logging to a file.
    pub flevel: LogLevel,
}

/// The text of a terminal log line: the timestamp, the prefix when there is
/// one and the level label inside colored brackets, then the message.
pub open spec fn term_line_text(
    prefix: Option<Seq<char>>,
    timestamp: Seq<char>,
    level: LogLevel,
    text: Seq<char>,
) -> Seq<char> {
    let b = BRACKET_COLOR@;
    let c = level.color_spec();
    let shown = match prefix {
        Some(p) => p + " "@ + b + "| "@ + c,
        None => Seq::empty(),
    };
    b + "("@ + c + timestamp + " "@ + b + "|"@ + c + " "@ + shown + level.label_spec() + b + ")"@
        + STYLE_RESET@ + " "@ + text
}

/// The text of a log file line: `(timestamp | prefix | LEVEL) message` and a
/// newline, the prefix part only when there is a prefix.
pub open spec fn file_line_text(
    prefix: Option<Seq<char>>,
    timestamp: Seq<char>,
    level: LogLevel,
    text: Seq<char>,
) -> Seq<char> {
    let shown = match prefix {
        Some(p) => p + " | "@,
        None => Seq::empty(),
    };
    "("@ + timestamp + " | "@ + shown + level.label_spec() + ") "@ + text + "\n"@
}

impl<'a> Logger<'a> {
    /// The prefix as text, if any.
    pub open spec fn prefix_view(self) -> Option<Seq<char>> {
        match self.prefix {
            Some(p) => Some(p@),
            None => None,
        }
    }

    /// Create a new logger with the specified prefix and minimum terminal
    /// and file levels.
    pub fn new(prefix: &'a str, tlevel: LogLevel, flevel: LogLevel) -> (r: Logger<'a>)
        ensures
            r.prefix == Some(prefix),
            r.tlevel == tlevel,
            r.flevel == flevel,
    {
        Logger { prefix: Some(prefix), tlevel, flevel }
    }

    /// Quickly create a logger with the specified prefix, at the default
    /// level for both sinks.
    pub fn quick(prefix: &'a str) -> (r: Logger<'a>)
        ensures
            r.prefix == Some(prefix),
            r.tlevel == default_level(),
            r.flevel == default_level(),
    {
        Logger { prefix: Some(prefix), tlevel: LogLevel::INFO, flevel: LogLevel::INFO }
    }

    /// Whether a message at `level` is shown on the terminal: an `INPUT`
    /// prompt always is, any other message when at least `tlevel`.
    pub fn wants_term(&self, level: LogLevel) -> (r: bool)
        ensures
            r == (level == LogLevel::INPUT || level.rank_spec() >= self.tlevel.rank_spec()),
    {
        level == LogLevel::INPUT || level.at_least(&self.tlevel)
    }

    /// Whether a message at `level` is written to the log file: an `INPUT`
    /// line always is, any other message when at least `flevel`.
    pub fn wants_file(&self, level: LogLevel) -> (r: bool)
        ensures
            r == (level == LogLevel::INPUT || level.rank_spec() >= self.flevel.rank_spec()),
    {
        level == LogLevel::INPUT || level.at_least(&self.flevel)
    }

    /// The terminal line for `text` at `level`, stamped `timestamp`.
    pub fn term_line(&self, timestamp: &str, level: LogLevel, text: &str) -> (r: String)
        ensures
            r@ == term_line_text(self.prefix_view(), timestamp@, level, text@),
    {
        let b = BRACKET_COLOR;
        let c = level.ansi_color();
        let mut t = String::new();
        t.append(b);
        t.append("(");
        t.append(c);
        t.append(timestamp);
        t.append(" ");
        t.append(b);
        t.append("|");
        t.append(c);
        t.append(" ");
        match self.prefix {
            Some(p) => {
                t.append(p);
                t.append(" ");
                t.append(b);
                t.append("| ");
                t.append(c);
            },
            None => {},
        }
        t.append(level.label());
        t.append(b);
        t.append(")");
        t.append(STYLE_RESET);
        t.append(" ");
        t.append(text);
        assert(t@ =~= term_line_text(self.prefix_view(), timestamp@, level, text@));
        t
    }

    /// The log file line for `text` at `level`, stamped `timestamp`.
    pub fn file_line(&self, timestamp: &str, level: LogLevel, text: &str) -> (r: String)
        ensures
            r@ == file_line_text(self.prefix_view(), timestamp@, level, text@),
    {
        let mut t = String::new();
        t.append("(");
        t.append(timestamp);
        t.append(" | ");
        match self.prefix {
            Some(p) => {
                t.append(p);
                t.append(" | ");
            },
            None => {},
        }
        t.append(level.label());
        t.append(") ");
        t.append(text);
        t.append("\n");
        assert(t@ =~= file_line_text(self.prefix_view(), timestamp@, level, text@));
        t
    }
}

/// The first line of a fresh log file, which records when it was started.
pub open spec fn header_text(timestamp: Seq<char>) -> Seq<char> {
    "!Timestamp: "@ + timestamp + "\n"@
}

/// `s` with every newline left out.
pub open spec fn without_newlines(s: Seq<char>) -> Seq<char>
    decreases s.len(),
{
    if s.len() == 0 {
        Seq::empty()
    } else if s.last() == '\n' {
        without_newlines(s.drop_last())
    } else {
        without_newlines(s.drop_last()).push(s.last())
    }
}

/// The file name under which a previous log file whose first line is `line`
/// is kept: the timestamp of its header, without newlines, and `.log`. A file
/// without a header is not kept.
pub open spec fn archive_name_text(line: Seq<char>) -> Option<Seq<char>> {
    if line.len() >= 12 && line.take(12) == "!Timestamp: "@ {
        Some(without_newlines(line.skip(12)) + ".log"@)
    } else {
        None
    }
}

/// The header line that starts a log file created at `timestamp`.
pub fn log_header(timestamp: &str) -> (r: String)
    ensures
        r@ == header_text(timestamp@),
{
    let mut t = String::from_str("!Timestamp: ");
    t.append(timestamp);
    t.append("\n");
    t
}

/// The name to keep a previous log file under, from its first line `line`;
/// `None` when the line is no timestamp header.
pub fn archived_log_name(line: &str) -> (r: Option<String>)
    ensures
        match r {
            Some(name) => archive_name_text(line@) == Some(name@),
            None => archive_name_text(line@) is None,
        },
{
    proof {
        reveal_strlit("!Timestamp: ");
    }
    let n = line.unicode_len();
    if n < 12 {
        return None;
    }
    let head = String::from_str(line.substring_char(0, 12));
    let marker = String::from_str("!Timestamp: ");
    if head != marker {
        assert(head@ == line@.take(12));
        return None;
    }
    assert(line@.take(12) =~= line@.subrange(0, 12));
    assert(line@.subrange(12, n as int) =~= line@.skip(12));
    let mut t = strip_newlines(line.substring_char(12, n));
    t.append(".log");
    Some(t)
}

/// `s` with every newline left out.
pub fn strip_newlines(s: &str) -> (r: String)
    ensures
        r@ == without_newlines(s@),
{
    let n = s.unicode_len();
    let mut t = String::new();
    let mut i: usize = 0;
    while i < n
        invariant
            i <= n,
            n == s@.len(),
            t@ == without_newlines(s@.take(i as int)),
        decreases n - i,
    {
        let c = s.get_char(i);
        assert(s@.take(i + 1).drop_last() =~= s@.take(i as int));
        if c != '\n' {
            t.append(s.substring_char(i, i + 1));
        }
        i = i + 1;
        assert(t@ =~= without_newlines(s@.take(i as int)));
    }
    assert(s@.take(n as int) =~= s@);
    t
}

} // verus!
