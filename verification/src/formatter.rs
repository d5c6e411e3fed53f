//! The line formatter: turns one log record into a styled, possibly
//! multi-line log line with a fixed segment order — colored timestamp, plain
//! thread tag, colored level name, plain source location, colored message
//! body. Formatting is pure and cannot fail: every missing field falls back
//! to a literal placeholder.

use vstd::prelude::*;
use vstd::string::StringExecFns;

use crate::line::{single_line_text, LogLine, Segment, Style, TextColor};

verus! {

/// The severity of a log record.
#[derive(Clone, Copy, PartialEq, Eq, Structural, Debug)]
pub enum RecordLevel {
    Trace,
    Debug,
    Info,
    Warn,
    Error,
}

impl RecordLevel {
    /// The fixed color of each level: trace is green, debug cyan, info blue,
    /// warn yellow, error red.
    pub open spec fn spec_color(self) -> TextColor {
        match self {
            RecordLevel::Trace => TextColor::Green,
            RecordLevel::Debug => TextColor::Cyan,
            RecordLevel::Info => TextColor::Blue,
            RecordLevel::Warn => TextColor::Yellow,
            RecordLevel::Error => TextColor::Red,
        }
    }

    /// The display name of each level.
    pub open spec fn spec_name(self) -> Seq<char> {
        match self {
            RecordLevel::Trace => seq!['T', 'R', 'A', 'C', 'E'],
            RecordLevel::Debug => seq!['D', 'E', 'B', 'U', 'G'],
            RecordLevel::Info => seq!['I', 'N', 'F', 'O'],
            RecordLevel::Warn => seq!['W', 'A', 'R', 'N'],
            RecordLevel::Error => seq!['E', 'R', 'R', 'O', 'R'],
        }
    }

    /// The color a record of this level is rendered in.
    pub fn color(self) -> (c: TextColor)
        ensures
            c == self.spec_color(),
    {
        match self {
            RecordLevel::Trace => TextColor::Green,
            RecordLevel::Debug => TextColor::Cyan,
            RecordLevel::Info => TextColor::Blue,
            RecordLevel::Warn => TextColor::Yellow,
            RecordLevel::Error => TextColor::Red,
        }
    }

    /// The display name of the level.
    pub fn name_str(self) -> (r: &'static str)
        ensures
            r@ == self.spec_name(),
    {
        match self {
            RecordLevel::Trace => {
                proof {
                    reveal_strlit("TRACE");
                    assert("TRACE"@ =~= seq!['T', 'R', 'A', 'C', 'E']);
                }
                "TRACE"
            },
            RecordLevel::Debug => {
                proof {
                    reveal_strlit("DEBUG");
                    assert("DEBUG"@ =~= seq!['D', 'E', 'B', 'U', 'G']);
                }
                "DEBUG"
            },
            RecordLevel::Info => {
                proof {
                    reveal_strlit("INFO");
                    assert("INFO"@ =~= seq!['I', 'N', 'F', 'O']);
                }
                "INFO"
            },
            RecordLevel::Warn => {
                proof {
                    reveal_strlit("WARN");
                    assert("WARN"@ =~= seq!['W', 'A', 'R', 'N']);
                }
                "WARN"
            },
            RecordLevel::Error => {
                proof {
                    reveal_strlit("ERROR");
                    assert("ERROR"@ =~= seq!['E', 'R', 'R', 'O', 'R']);
                }
                "ERROR"
            },
        }
    }
}

/// A clock value at record creation time, as plain wall-clock fields.
pub struct TimeOfDay {
    pub hour: u8,
    pub minute: u8,
    pub second: u8,
    pub millisecond: u16,
}

impl TimeOfDay {
    /// A valid wall-clock reading.
    pub open spec fn wf(&self) -> bool {
        &&& self.hour < 24
        &&& self.minute < 60
        &&& self.second < 60
        &&& self.millisecond < 1000
    }
}

/// One log record as the formatter sees it: plain values only.
pub struct LogRecord {
    pub level: RecordLevel,
    pub message: String,
    pub file: Option<String>,
    pub line: Option<u32>,
    pub thread_name: Option<String>,
    pub time: TimeOfDay,
}

/// The character standing for one decimal digit.
pub open spec fn digit_char(d: nat) -> char {
    if d == 0 {
        '0'
    } else if d == 1 {
        '1'
    } else if d == 2 {
        '2'
    } else if d == 3 {
        '3'
    } else if d == 4 {
        '4'
    } else if d == 5 {
        '5'
    } else if d == 6 {
        '6'
    } else if d == 7 {
        '7'
    } else if d == 8 {
        '8'
    } else {
        '9'
    }
}

/// A digit character is never a line break.
pub proof fn lemma_digit_char_not_break(d: nat)
    ensures
        digit_char(d) != '\n',
{
}

/// The decimal digits of a number, most significant first, no leading zeros
/// (a lone zero for zero).
pub open spec fn dec_digits(n: nat) -> Seq<char>
    decreases n,
{
    if n < 10 {
        seq![digit_char(n)]
    } else {
        dec_digits(n / 10).push(digit_char(n % 10))
    }
}

/// Decimal digits never hold a line break.
pub proof fn lemma_dec_digits_single_line(n: nat)
    ensures
        single_line_text(dec_digits(n)),
    decreases n,
{
    if n < 10 {
        lemma_digit_char_not_break(n);
    } else {
        lemma_dec_digits_single_line(n / 10);
        lemma_digit_char_not_break(n % 10);
        let s = dec_digits(n / 10);
        let t = s.push(digit_char(n % 10));
        assert forall|i: int| 0 <= i < t.len() implies #[trigger] t[i] != '\n' by {
            if i < s.len() {
                assert(t[i] == s[i]);
            }
        }
    }
}

/// The timestamp text `HH:MM:SS.mmm`.
pub open spec fn time_text(t: TimeOfDay) -> Seq<char> {
    seq![
        digit_char(t.hour as nat / 10),
        digit_char(t.hour as nat % 10),
        ':',
        digit_char(t.minute as nat / 10),
        digit_char(t.minute as nat % 10),
        ':',
        digit_char(t.second as nat / 10),
        digit_char(t.second as nat % 10),
        '.',
        digit_char(t.millisecond as nat / 100),
        digit_char((t.millisecond as nat / 10) % 10),
        digit_char(t.millisecond as nat % 10),
    ]
}

/// A timestamp text never holds a line break.
pub proof fn lemma_time_text_single_line(t: TimeOfDay)
    ensures
        single_line_text(time_text(t)),
{
    let s = time_text(t);
    assert forall|i: int| 0 <= i < s.len() implies s[i] != '\n' by {
        lemma_digit_char_not_break(t.hour as nat / 10);
        lemma_digit_char_not_break(t.hour as nat % 10);
        lemma_digit_char_not_break(t.minute as nat / 10);
        lemma_digit_char_not_break(t.minute as nat % 10);
        lemma_digit_char_not_break(t.second as nat / 10);
        lemma_digit_char_not_break(t.second as nat % 10);
        lemma_digit_char_not_break(t.millisecond as nat / 100);
        lemma_digit_char_not_break((t.millisecond as nat / 10) % 10);
        lemma_digit_char_not_break(t.millisecond as nat % 10);
    }
}

/// The placeholder for a missing thread name or source file.
pub open spec fn fallback_name() -> Seq<char> {
    seq!['(', 'u', 'n', 'n', 'a', 'm', 'e', 'd', ')']
}

/// The text of an optional name: the name itself, or the placeholder.
pub open spec fn opt_name_text(o: Option<String>) -> Seq<char> {
    match o {
        Some(n) => n@,
        None => fallback_name(),
    }
}

/// The thread tag segment text: ` [<thread-name-or-placeholder>] `.
pub open spec fn thread_text(o: Option<String>) -> Seq<char> {
    seq![' ', '['] + opt_name_text(o) + seq![']', ' ']
}

/// The source location segment text: ` <<file-or-placeholder>:<line-or-0>> `.
pub open spec fn location_text(file: Option<String>, line: Option<u32>) -> Seq<char> {
    seq![' ', '<'] + opt_name_text(file) + seq![':'] + dec_digits(
        match line {
            Some(n) => n as nat,
            None => 0,
        },
    ) + seq!['>', ' ']
}

/// What the formatter owes for one record: exactly five segments in fixed
/// order — colored timestamp, plain thread tag, colored level name, plain
/// source location, and the colored message body, verbatim.
pub open spec fn is_formatted(line: LogLine, rec: LogRecord) -> bool {
    let color = Style::Dark(rec.level.spec_color());
    &&& line.segments@.len() == 5
    &&& line.segments@[0].text@ == time_text(rec.time)
    &&& line.segments@[0].style == color
    &&& line.segments@[1].text@ == thread_text(rec.thread_name)
    &&& line.segments@[1].style == Style::Plain
    &&& line.segments@[2].text@ == rec.level.spec_name()
    &&& line.segments@[2].style == color
    &&& line.segments@[3].text@ == location_text(rec.file, rec.line)
    &&& line.segments@[3].style == Style::Plain
    &&& line.segments@[4].text@ == rec.message@
    &&& line.segments@[4].style == color
}

impl LogRecord {
    /// The formatter keeps every segment before the message body single-line,
    /// so the optional names may not hold line breaks, and the clock reading
    /// must be valid.
    pub open spec fn wf(&self) -> bool {
        &&& self.time.wf()
        &&& match self.thread_name {
            Some(n) => single_line_text(n@),
            None => true,
        }
        &&& match self.file {
            Some(f) => single_line_text(f@),
            None => true,
        }
    }
}

/// One decimal digit as text.
fn digit_str(d: u8) -> (r: &'static str)
    requires
        d < 10,
    ensures
        r@ == seq![digit_char(d as nat)],
{
    if d == 0 {
        proof {
            reveal_strlit("0");
            assert("0"@ =~= seq![digit_char(0nat)]);
        }
        "0"
    } else if d == 1 {
        proof {
            reveal_strlit("1");
            assert("1"@ =~= seq![digit_char(1nat)]);
        }
        "1"
    } else if d == 2 {
        proof {
            reveal_strlit("2");
            assert("2"@ =~= seq![digit_char(2nat)]);
        }
        "2"
    } else if d == 3 {
        proof {
            reveal_strlit("3");
            assert("3"@ =~= seq![digit_char(3nat)]);
        }
        "3"
    } else if d == 4 {
        proof {
            reveal_strlit("4");
            assert("4"@ =~= seq![digit_char(4nat)]);
        }
        "4"
    } else if d == 5 {
        proof {
            reveal_strlit("5");
            assert("5"@ =~= seq![digit_char(5nat)]);
        }
        "5"
    } else if d == 6 {
        proof {
            reveal_strlit("6");
            assert("6"@ =~= seq![digit_char(6nat)]);
        }
        "6"
    } else if d == 7 {
        proof {
            reveal_strlit("7");
            assert("7"@ =~= seq![digit_char(7nat)]);
        }
        "7"
    } else if d == 8 {
        proof {
            reveal_strlit("8");
            assert("8"@ =~= seq![digit_char(8nat)]);
        }
        "8"
    } else {
        proof {
            reveal_strlit("9");
            assert("9"@ =~= seq![digit_char(9nat)]);
        }
        "9"
    }
}

/// The decimal digits of a number as text.
pub fn dec_string(n: u32) -> (r: String)
    ensures
        r@ == dec_digits(n as nat),
    decreases n,
{
    if n < 10 {
        let mut s = String::new();
        s.append(digit_str(n as u8));
        proof {
            assert(s@ =~= dec_digits(n as nat));
        }
        s
    } else {
        let mut s = dec_string(n / 10);
        s.append(digit_str((n % 10) as u8));
        proof {
            assert(s@ =~= dec_digits(n as nat));
        }
        s
    }
}

/// Appends the two-digit zero-padded text of a number under one hundred.
fn push_two_digits(s: &mut String, n: u8)
    requires
        n < 100,
    ensures
        final(s)@ == old(s)@ + seq![digit_char(n as nat / 10), digit_char(n as nat % 10)],
{
    s.append(digit_str(n / 10));
    s.append(digit_str(n % 10));
    proof {
        assert(s@ =~= old(s)@ + seq![digit_char(n as nat / 10), digit_char(n as nat % 10)]);
    }
}

/// The timestamp text `HH:MM:SS.mmm` of a clock reading.
pub fn time_string(t: &TimeOfDay) -> (r: String)
    requires
        t.wf(),
    ensures
        r@ == time_text(*t),
{
    let mut s = String::new();
    push_two_digits(&mut s, t.hour);
    s.append(":");
    push_two_digits(&mut s, t.minute);
    s.append(":");
    push_two_digits(&mut s, t.second);
    s.append(".");
    s.append(digit_str((t.millisecond / 100) as u8));
    s.append(digit_str(((t.millisecond / 10) % 10) as u8));
    s.append(digit_str((t.millisecond % 10) as u8));
    proof {
        reveal_strlit(":");
        reveal_strlit(".");
        assert(s@ =~= time_text(*t));
    }
    s
}

/// The text of an optional name: the name itself, or the placeholder.
fn opt_name_string(o: &Option<String>) -> (r: String)
    ensures
        r@ == opt_name_text(*o),
{
    match o {
        Some(n) => n.clone(),
        None => {
            proof {
                reveal_strlit("(unnamed)");
                assert("(unnamed)"@ =~= fallback_name());
            }
            let mut s = String::new();
            s.append("(unnamed)");
            proof {
                assert(s@ =~= fallback_name());
            }
            s
        },
    }
}

/// Formats one record into a log line: colored `HH:MM:SS.mmm` timestamp,
/// plain ` [<thread>] ` tag, colored level name, plain ` <<file>:<line>> `
/// location, and the colored message body with its embedded line breaks kept
/// verbatim. Missing fields fall back to `(unnamed)` and line 0; formatting
/// cannot fail.
pub fn format_record(rec: &LogRecord) -> (r: LogLine)
    requires
        rec.wf(),
    ensures
        is_formatted(r, *rec),
        r.wf(),
{
    let color = Style::Dark(rec.level.color());

    let ts = time_string(&rec.time);

    let mut thread = String::new();
    thread.append(" [");
    let name = opt_name_string(&rec.thread_name);
    thread.append(name.as_str());
    thread.append("] ");
    proof {
        reveal_strlit(" [");
        reveal_strlit("] ");
        assert(" ["@ =~= seq![' ', '[']);
        assert("] "@ =~= seq![']', ' ']);
        assert(thread@ =~= thread_text(rec.thread_name));
    }

    let mut level = String::new();
    level.append(rec.level.name_str());

    let mut location = String::new();
    location.append(" <");
    let file = opt_name_string(&rec.file);
    location.append(file.as_str());
    location.append(":");
    let lineno = match &rec.line {
        Some(n) => *n,
        None => 0,
    };
    let digits = dec_string(lineno);
    location.append(digits.as_str());
    location.append("> ");
    proof {
        reveal_strlit(" <");
        reveal_strlit(":");
        reveal_strlit("> ");
        assert(" <"@ =~= seq![' ', '<']);
        assert(":"@ =~= seq![':']);
        assert("> "@ =~= seq!['>', ' ']);
        assert(location@ =~= location_text(rec.file, rec.line));
    }

    let message = rec.message.clone();

    let segments: Vec<Segment> = vec![
        Segment::new(ts, color),
        Segment::new(thread, Style::Plain),
        Segment::new(level, color),
        Segment::new(location, Style::Plain),
        Segment::new(message, color),
    ];
    let line = LogLine { segments };
    proof {
        lemma_time_text_single_line(rec.time);
        lemma_dec_digits_single_line(
            match rec.line {
                Some(n) => n as nat,
                None => 0,
            },
        );
        assert(single_line_text(fallback_name()));
        assert(single_line_text(opt_name_text(rec.thread_name)));
        assert(single_line_text(opt_name_text(rec.file)));
        crate::line::lemma_single_line_concat(seq![' ', '['], opt_name_text(rec.thread_name));
        crate::line::lemma_single_line_concat(
            seq![' ', '['] + opt_name_text(rec.thread_name),
            seq![']', ' '],
        );
        crate::line::lemma_single_line_concat(seq![' ', '<'], opt_name_text(rec.file));
        crate::line::lemma_single_line_concat(
            seq![' ', '<'] + opt_name_text(rec.file),
            seq![':'],
        );
        crate::line::lemma_single_line_concat(
            seq![' ', '<'] + opt_name_text(rec.file) + seq![':'],
            dec_digits(
                match rec.line {
                    Some(n) => n as nat,
                    None => 0,
                },
            ),
        );
        crate::line::lemma_single_line_concat(
            seq![' ', '<'] + opt_name_text(rec.file) + seq![':'] + dec_digits(
                match rec.line {
                    Some(n) => n as nat,
                    None => 0,
                },
            ),
            seq!['>', ' '],
        );
        assert(single_line_text(rec.level.spec_name()));
        assert(line.wf());
    }
    line
}

} // verus!
