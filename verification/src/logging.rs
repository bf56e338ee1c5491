//! What is logged, and how it is shown.

use owo_colors::AnsiColors;
use owo_colors::OwoColorize;
use vstd::prelude::*;

use crate::text;

verus! {

/// How weighty a message is.
#[derive(Debug, Clone, Copy, PartialEq, Eq, Structural)]
pub enum Level {
    Error,
    Warn,
    Info,
    Debug,
    Trace,
}

impl Level {
    /// The weightiest level is the first.
    pub open spec fn rank(self) -> int {
        match self {
            Level::Error => 0,
            Level::Warn => 1,
            Level::Info => 2,
            Level::Debug => 3,
            Level::Trace => 4,
        }
    }

    /// The name, in lower case.
    pub open spec fn word(self) -> Seq<char> {
        match self {
            Level::Error => "error"@,
            Level::Warn => "warn"@,
            Level::Info => "info"@,
            Level::Debug => "debug"@,
            Level::Trace => "trace"@,
        }
    }

    /// How the level is shown.
    pub open spec fn shown(self) -> Seq<char> {
        match self {
            Level::Error => "ERROR"@,
            Level::Warn => "WARN"@,
            Level::Info => "INFO"@,
            Level::Debug => "DEBUG"@,
            Level::Trace => "TRACE"@,
        }
    }

    /// What stands before a message that is shown in the common form.
    pub fn prefix(&self) -> (r: String)
        ensures
            r@ == "["@ + self.shown() + "] "@,
    {
        let name = match self {
            Level::Error => "ERROR",
            Level::Warn => "WARN",
            Level::Info => "INFO",
            Level::Debug => "DEBUG",
            Level::Trace => "TRACE",
        };
        text::concat3("[", name, "] ")
    }

    fn number(&self) -> (r: u8)
        ensures
            r == self.rank(),
    {
        match self {
            Level::Error => 0,
            Level::Warn => 1,
            Level::Info => 2,
            Level::Debug => 3,
            Level::Trace => 4,
        }
    }
}

/// A letter in lower case; what is no capital letter of ASCII stays.
pub open spec fn ascii_lower(c: char) -> char {
    if 'A' <= c && c <= 'Z' {
        ((c as int) + 32) as char
    } else {
        c
    }
}

/// Whether a text is a given lower-case word, in whatever case it is written.
pub open spec fn is_word(s: Seq<char>, word: Seq<char>) -> bool {
    s.map_values(|c: char| ascii_lower(c)) == word
}

/// The number that a row of digits stands for.
pub open spec fn digits_value(s: Seq<char>) -> int
    decreases s.len(),
{
    if s.len() == 0 {
        0
    } else {
        10 * digits_value(s.drop_last()) + (s.last() as int) - ('0' as int)
    }
}

/// Whether a text is a row of digits that stands for a number.
pub open spec fn are_digits(s: Seq<char>, n: int) -> bool {
    &&& s.len() > 0
    &&& forall|i: int| 0 <= i < s.len() ==> '0' <= (#[trigger] s[i]) && s[i] <= '9'
    &&& digits_value(s) == n
}

/// Whether a text is a number, with or without a plus sign before it.
pub open spec fn is_number(s: Seq<char>, n: int) -> bool {
    if s.len() > 0 && s[0] == '+' {
        are_digits(s.drop_first(), n)
    } else {
        are_digits(s, n)
    }
}

/// The level that a text names, by its number or by its name.
pub open spec fn names_level(s: Seq<char>, level: Level) -> bool {
    is_number(s, level.rank() + 1) || is_word(s, level.word())
}

/// The parser of `tracing::Level`: reads a level from its number, 1 for errors to 5 for traces,
/// or from its name in any case. Every other text is refused.
#[verifier::external_body]
pub(crate) fn parse_level(s: &str) -> (r: Option<Level>)
    ensures
        match r {
            Some(level) => names_level(s@, level),
            None => forall|level: Level| !names_level(s@, level),
        },
{
    match s.parse::<tracing::Level>() {
        Ok(tracing::Level::ERROR) => Some(Level::Error),
        Ok(tracing::Level::WARN) => Some(Level::Warn),
        Ok(tracing::Level::INFO) => Some(Level::Info),
        Ok(tracing::Level::DEBUG) => Some(Level::Debug),
        Ok(tracing::Level::TRACE) => Some(Level::Trace),
        Err(_) => None,
    }
}

/// Whether a text asks for a level: it names the level, or it is the long name of warnings.
pub open spec fn asks_for(s: Seq<char>, level: Level) -> bool {
    names_level(s, level) || (level is Warn && is_word(s, "warning"@))
}

fn matches_word(s: &str, word: &str) -> (r: bool)
    ensures
        r == is_word(s@, word@),
{
    let cs = text::chars_of(s);
    let ws = text::chars_of(word);
    let ghost lower = s@.map_values(|c: char| ascii_lower(c));
    if cs.len() != ws.len() {
        return false;
    }
    let mut i: usize = 0;
    while i < cs.len()
        invariant
            i <= cs@.len(),
            cs@ == s@,
            ws@ == word@,
            cs@.len() == ws@.len(),
            lower == s@.map_values(|c: char| ascii_lower(c)),
            forall|k: int| 0 <= k < i ==> #[trigger] lower[k] == word@[k],
        decreases cs@.len() - i,
    {
        let c = cs[i];
        let low = if 'A' <= c && c <= 'Z' {
            let code: u8 = c as u8 + 32;
            code as char
        } else {
            c
        };
        assert(lower[i as int] == low);
        if low != ws[i] {
            assert(lower[i as int] != word@[i as int]);
            return false;
        }
        i += 1;
    }
    assert(lower =~= word@);
    true
}

/// Whether a name is that of a field that holds output of a command.
pub open spec fn is_output_field(name: Seq<char>) -> bool {
    name == "stdout"@ || name == "stderr"@
}

/// Whether one of the fields holds output of a command.
pub open spec fn has_output(fields: Seq<Seq<char>>) -> bool {
    exists|i: int| 0 <= i < fields.len() && is_output_field(#[trigger] fields[i])
}

/// Which messages are shown.
pub struct DynamicFilter {
    pub cli_level: Option<Level>,
}

impl DynamicFilter {
    /// The filter for the level that the user gave. A text that asks for no level is like none.
    pub fn new(log_level: &Option<String>) -> (r: Self)
        ensures
            match r.cli_level {
                Some(level) => *log_level is Some && asks_for(log_level->0@, level),
                None => *log_level is Some ==> forall|level: Level|
                    !asks_for(log_level->0@, level),
            },
    {
        match log_level {
            Some(s) => if matches_word(s.as_str(), "warning") {
                DynamicFilter { cli_level: Some(Level::Warn) }
            } else {
                DynamicFilter { cli_level: parse_level(s.as_str()) }
            },
            None => DynamicFilter { cli_level: None },
        }
    }

    /// Whether a message with fields of the given names is shown. Where the user gave a level,
    /// messages at least that weighty are; else warnings and errors are, and the output of
    /// commands.
    pub fn enabled(&self, level: Level, fields: &Vec<String>) -> (r: bool)
        ensures
            r == shows(self.cli_level, level, text::texts(fields@)),
    {
        match self.cli_level {
            Some(max) => level.number() <= max.number(),
            None => {
                if level.number() <= Level::Warn.number() {
                    return true;
                }
                if level == Level::Info {
                    return any_output(fields);
                }
                false
            },
        }
    }

    /// Whether the output of commands is shown in its own form: where no level was given.
    pub fn is_custom_mode(&self) -> (r: bool)
        ensures
            r == (self.cli_level is None),
    {
        self.cli_level.is_none()
    }
}

fn any_output(fields: &Vec<String>) -> (r: bool)
    ensures
        r == has_output(text::texts(fields@)),
{
    let ghost names = text::texts(fields@);
    let mut i: usize = 0;
    while i < fields.len()
        invariant
            i <= fields@.len(),
            names == text::texts(fields@),
            forall|k: int| 0 <= k < i ==> !is_output_field(#[trigger] names[k]),
        decreases fields@.len() - i,
    {
        assert(names[i as int] == fields@[i as int]@);
        if *fields[i].as_str() == *"stdout" || *fields[i].as_str() == *"stderr" {
            return true;
        }
        i += 1;
    }
    false
}

/// What a message carries besides its level.
pub struct CustomFieldVisitor {
    pub name: Option<String>,
    pub message: Option<String>,
}

impl CustomFieldVisitor {
    /// Nothing was carried yet.
    pub fn new() -> (r: Self)
        ensures
            r.name is None,
            r.message is None,
    {
        CustomFieldVisitor { name: None, message: None }
    }

    /// A field with a text: the name of a task, or a line of its output.
    pub fn record_str(&mut self, field: &str, value: &str)
        ensures
            text::opt_text(final(self).name) == (if field@ == "name"@ {
                Some(value@)
            } else {
                text::opt_text(old(self).name)
            }),
            text::opt_text(final(self).message) == (if field@ != "name"@ && (field@ == "stdout"@
                || field@ == "stderr"@) {
                Some(value@)
            } else {
                text::opt_text(old(self).message)
            }),
    {
        if *field == *"name" {
            self.name = Some(value.to_owned());
        } else if *field == *"stdout" || *field == *"stderr" {
            self.message = Some(value.to_owned());
        }
    }

    /// A field with another value, told by how it is shown: the quotation marks around it are
    /// left out.
    pub fn record_debug(&mut self, field: &str, shown: &str)
        ensures
            text::opt_text(final(self).name) == (if field@ == "name"@ {
                Some(text::strip_end(text::strip_start(shown@, '"'), '"'))
            } else {
                text::opt_text(old(self).name)
            }),
            text::opt_text(final(self).message) == (if field@ != "name"@ && (field@ == "stdout"@
                || field@ == "stderr"@) {
                Some(text::strip_end(text::strip_start(shown@, '"'), '"'))
            } else {
                text::opt_text(old(self).message)
            }),
    {
        let bare = text::trim_matches(shown, '"');
        self.record_str(field, bare.as_str());
    }
}

/// What the terminal interface keeps of a message.
pub struct LogVisitor {
    pub message: String,
}

impl LogVisitor {
    /// Nothing was kept yet.
    pub fn new() -> (r: Self)
        ensures
            r.message@ == ""@,
    {
        LogVisitor { message: "".to_owned() }
    }

    /// A field of the message, told by how it is shown: its text is kept.
    pub fn record_debug(&mut self, field: &str, shown: &str)
        ensures
            final(self).message@ == (if field@ == "message"@ {
                shown@
            } else {
                old(self).message@
            }),
    {
        if *field == *"message" {
            self.message = shown.to_owned();
        }
    }
}

/// The colours that tell tasks apart.
#[derive(Debug, Clone, Copy, PartialEq, Eq, Structural)]
pub enum TagColor {
    Red,
    Green,
    Yellow,
    Blue,
    Magenta,
    Cyan,
    BrightRed,
    BrightGreen,
    BrightYellow,
    BrightBlue,
    BrightMagenta,
    BrightCyan,
}

impl TagColor {
    /// The number by which a terminal knows the colour.
    pub open spec fn code(self) -> Seq<char> {
        match self {
            TagColor::Red => "31"@,
            TagColor::Green => "32"@,
            TagColor::Yellow => "33"@,
            TagColor::Blue => "34"@,
            TagColor::Magenta => "35"@,
            TagColor::Cyan => "36"@,
            TagColor::BrightRed => "91"@,
            TagColor::BrightGreen => "92"@,
            TagColor::BrightYellow => "93"@,
            TagColor::BrightBlue => "94"@,
            TagColor::BrightMagenta => "95"@,
            TagColor::BrightCyan => "96"@,
        }
    }
}

/// The colours, in their order.
pub open spec fn palette() -> Seq<TagColor> {
    seq![
        TagColor::Red,
        TagColor::Green,
        TagColor::Yellow,
        TagColor::Blue,
        TagColor::Magenta,
        TagColor::Cyan,
        TagColor::BrightRed,
        TagColor::BrightGreen,
        TagColor::BrightYellow,
        TagColor::BrightBlue,
        TagColor::BrightMagenta,
        TagColor::BrightCyan,
    ]
}

/// A text between the sequences that switch a colour on and off in a terminal.
pub open spec fn in_color(text: Seq<char>, color: TagColor) -> Seq<char> {
    seq!['\u{1b}', '['] + color.code() + seq!['m'] + text + seq!['\u{1b}', '[', '3', '9', 'm']
}

/// `owo_colors::OwoColorize::color`, displayed: the text between the sequence that switches
/// the colour on and the one that restores the default colour.
#[verifier::external_body]
fn colored(text: &str, color: TagColor) -> (r: String)
    ensures
        r@ == in_color(text@, color),
{
    let ansi = match color {
        TagColor::Red => AnsiColors::Red,
        TagColor::Green => AnsiColors::Green,
        TagColor::Yellow => AnsiColors::Yellow,
        TagColor::Blue => AnsiColors::Blue,
        TagColor::Magenta => AnsiColors::Magenta,
        TagColor::Cyan => AnsiColors::Cyan,
        TagColor::BrightRed => AnsiColors::BrightRed,
        TagColor::BrightGreen => AnsiColors::BrightGreen,
        TagColor::BrightYellow => AnsiColors::BrightYellow,
        TagColor::BrightBlue => AnsiColors::BrightBlue,
        TagColor::BrightMagenta => AnsiColors::BrightMagenta,
        TagColor::BrightCyan => AnsiColors::BrightCyan,
    };
    text.color(ansi).to_string()
}

/// The colour of a task, by a hash of its name.
pub fn tag_color(hash: u64) -> (r: TagColor)
    ensures
        r == palette()[(hash % 12) as int],
{
    let colors = [
        TagColor::Red,
        TagColor::Green,
        TagColor::Yellow,
        TagColor::Blue,
        TagColor::Magenta,
        TagColor::Cyan,
        TagColor::BrightRed,
        TagColor::BrightGreen,
        TagColor::BrightYellow,
        TagColor::BrightBlue,
        TagColor::BrightMagenta,
        TagColor::BrightCyan,
    ];
    colors[(hash % 12) as usize]
}

/// How messages are shown on the console.
pub struct CustomConsoleFormatter {
    pub is_custom_mode: bool,
}

impl CustomConsoleFormatter {
    /// The line for a message that carries output of a task, the mark of the task in the
    /// colour that a hash of its name picks. Nothing for a message that is shown in the common
    /// form: one that carries no output, and every message where the own form is off.
    pub fn format_event(&self, visitor: &CustomFieldVisitor, hash: u64) -> (r: Option<String>)
        ensures
            text::opt_text(r) == (match (visitor.name, visitor.message) {
                (Some(name), Some(message)) => if self.is_custom_mode {
                    Some(
                        in_color("["@ + name@ + "]"@, palette()[(hash % 12) as int]) + ": "@
                            + message@,
                    )
                } else {
                    None
                },
                _ => None,
            }),
    {
        if !self.is_custom_mode {
            return None;
        }
        match (&visitor.name, &visitor.message) {
            (Some(name), Some(message)) => {
                let tag = text::concat3("[", name.as_str(), "]");
                let shown = colored(tag.as_str(), tag_color(hash));
                Some(text::concat3(shown.as_str(), ": ", message.as_str()))
            },
            _ => None,
        }
    }
}

/// How the console shows messages.
#[derive(Debug, Clone, Copy, PartialEq, Eq, Structural)]
pub enum ConsoleLayer {
    /// Not at all.
    Off,
    /// The output of commands behind the name of its task.
    Custom,
    /// With the time of day only.
    Compact,
    /// With all that is known.
    Full,
}

/// How the console shows messages.
pub fn init_tracing(has_console: bool, is_compact: bool, filter: &DynamicFilter) -> (r:
    ConsoleLayer)
    ensures
        r == (if !has_console {
            ConsoleLayer::Off
        } else if filter.cli_level is None {
            ConsoleLayer::Custom
        } else if is_compact {
            ConsoleLayer::Compact
        } else {
            ConsoleLayer::Full
        }),
{
    if !has_console {
        ConsoleLayer::Off
    } else if filter.is_custom_mode() {
        ConsoleLayer::Custom
    } else if is_compact {
        ConsoleLayer::Compact
    } else {
        ConsoleLayer::Full
    }
}

/// A text asks for at most one level.
pub proof fn lemma_one_level(s: Seq<char>, a: Level, b: Level)
    requires
        asks_for(s, a),
        asks_for(s, b),
    ensures
        a == b,
{
    reveal_strlit("error");
    reveal_strlit("warn");
    reveal_strlit("info");
    reveal_strlit("debug");
    reveal_strlit("trace");
    reveal_strlit("warning");
    let lower = s.map_values(|c: char| ascii_lower(c));
    assert(s.len() > 0 ==> lower[0] == ascii_lower(s[0]));
    assert(is_word(s, a.word()) ==> lower[0] == a.word()[0]);
    assert(is_word(s, b.word()) ==> lower[0] == b.word()[0]);
    assert(is_word(s, "warning"@) ==> lower[0] == 'w');
    assert(ascii_lower('+') == '+');
    assert(are_digits(s, a.rank() + 1) ==> ascii_lower(s[0]) == s[0]);
    assert(are_digits(s, b.rank() + 1) ==> ascii_lower(s[0]) == s[0]);
}

/// Whether a message is shown, by the level that the user gave and the message's fields.
pub open spec fn shows(max: Option<Level>, message: Level, fields: Seq<Seq<char>>) -> bool {
    match max {
        Some(max) => message.rank() <= max.rank(),
        None => message.rank() <= Level::Warn.rank() || (message is Info && has_output(fields)),
    }
}

/// A message that is shown where some level was given is shown where a less weighty one was.
pub proof fn lemma_filter_is_monotone(
    max: Level,
    wider: Level,
    message: Level,
    fields: Seq<Seq<char>>,
)
    requires
        max.rank() <= wider.rank(),
        shows(Some(max), message, fields),
    ensures
        shows(Some(wider), message, fields),
{
}

} // verus!
