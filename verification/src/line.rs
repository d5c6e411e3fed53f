//! The data model of one displayed log entry: a sequence of styled text
//! segments whose last segment is the free-form message body, the only one
//! that may span several physical rows.

use vstd::prelude::*;
use vstd::string::StrSliceExecFns;

verus! {

/// The base colors the formatter uses for the colored segments of a line.
#[derive(Clone, Copy, PartialEq, Eq, Structural, Debug)]
pub enum TextColor {
    Green,
    Cyan,
    Blue,
    Yellow,
    Red,
}

/// The display style of one segment: either unstyled text or the dim/dark
/// variant of a base color.
#[derive(Clone, Copy, PartialEq, Eq, Structural, Debug)]
pub enum Style {
    Plain,
    Dark(TextColor),
}

/// A text holds no line break.
pub open spec fn single_line_text(s: Seq<char>) -> bool {
    forall|i: int| 0 <= i < s.len() ==> s[i] != '\n'
}

/// Joining two single-line texts yields a single-line text.
pub proof fn lemma_single_line_concat(a: Seq<char>, b: Seq<char>)
    requires
        single_line_text(a),
        single_line_text(b),
    ensures
        single_line_text(a + b),
{
    assert forall|i: int| 0 <= i < (a + b).len() implies (a + b)[i] != '\n' by {
        if i < a.len() {
            assert((a + b)[i] == a[i]);
        } else {
            assert((a + b)[i] == b[i - a.len()]);
        }
    }
}

/// One run of text sharing a single display style.
pub struct Segment {
    pub text: String,
    pub style: Style,
}

impl Segment {
    /// A segment is single-line when its text holds no line break.
    pub open spec fn single_line(&self) -> bool {
        single_line_text(self.text@)
    }

    pub fn new(text: String, style: Style) -> (r: Segment)
        ensures
            r.text@ == text@,
            r.style == style,
    {
        Segment { text, style }
    }
}

/// One formatted log entry. The last segment is the message body; every
/// segment before it is single-line.
pub struct LogLine {
    pub segments: Vec<Segment>,
}

impl LogLine {
    /// Well-formedness: at least one segment, and only the last segment may
    /// hold embedded line breaks.
    pub open spec fn wf(&self) -> bool {
        &&& self.segments@.len() >= 1
        &&& forall|i: int|
            0 <= i < self.segments@.len() - 1 ==> (#[trigger] self.segments@[i]).single_line()
    }

    /// Builds a line from segments; succeeds exactly when the segments form a
    /// well-formed line (at least one segment, all but the last single-line).
    pub fn from_segments(segments: Vec<Segment>) -> (r: Option<LogLine>)
        ensures
            match r {
                Some(line) => {
                    &&& line.segments@ == segments@
                    &&& line.wf()
                },
                None => !(LogLine { segments }).wf(),
            },
    {
        if segments.len() == 0 {
            return None;
        }
        let mut i: usize = 0;
        while i < segments.len() - 1
            invariant
                segments@.len() >= 1,
                i <= segments@.len() - 1,
                forall|j: int| 0 <= j < i ==> (#[trigger] segments@[j]).single_line(),
            decreases segments@.len() - 1 - i,
        {
            if !is_single_line(&segments[i]) {
                return None;
            }
            i = i + 1;
        }
        Some(LogLine { segments })
    }
}

/// Checks that a segment holds no line break.
pub fn is_single_line(seg: &Segment) -> (r: bool)
    ensures
        r == seg.single_line(),
{
    let s = seg.text.as_str();
    let n = s.unicode_len();
    let mut i: usize = 0;
    while i < n
        invariant
            n == s@.len(),
            i <= n,
            s@ == seg.text@,
            forall|j: int| 0 <= j < i ==> s@[j] != '\n',
        decreases n - i,
    {
        if s.get_char(i) == '\n' {
            return false;
        }
        i = i + 1;
    }
    true
}

} // verus!
