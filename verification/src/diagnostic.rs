//! Source positions and user-facing error reporting. A `Diagnostic` carries
//! where the problem is and renders it against the source text.

use crate::text::{cat2, cat3, cat5, chars_of, nat_text, nat_to_string, repeat_char, spaces};
use vstd::prelude::*;

verus! {

/// A position in a source text.
#[derive(Debug, Clone, Copy, PartialEq, Eq, Structural)]
pub struct Span {
    /// 1-based.
    pub line: u32,
    /// 1-based, counted in characters.
    pub col: u32,
}

/// `line:col`.
pub open spec fn span_text(s: Span) -> Seq<char> {
    nat_text(s.line as nat) + ":"@ + nat_text(s.col as nat)
}

impl Span {
    pub fn new(line: u32, col: u32) -> (s: Self)
        ensures
            s.line == line,
            s.col == col,
    {
        Span { line, col }
    }

    /// The position as `line:col`.
    pub fn to_text(&self) -> (s: String)
        ensures
            s@ == span_text(*self),
    {
        cat3(
            nat_to_string(self.line as u64).as_str(),
            ":",
            nat_to_string(self.col as u64).as_str(),
        )
    }
}

/// An error message and the position it speaks of.
#[derive(Debug, Clone, PartialEq)]
pub struct Diagnostic {
    pub message: String,
    pub span: Span,
}

/// A diagnostic as a mathematical value.
pub struct DiagnosticV {
    pub message: Seq<char>,
    pub span: Span,
}

/// Where the line that starts at `from` ends: the next line feed, or the end
/// of the text.
pub open spec fn line_end(s: Seq<char>, from: int) -> int
    decreases s.len() - from,
{
    if from >= s.len() || s[from] == '\n' {
        from
    } else {
        line_end(s, from + 1)
    }
}

/// The `n`-th line (counted from 0) of the text that starts at `from`, without
/// its line ending. A carriage return belongs to the line ending when a line
/// feed follows it. The empty rest after a last line feed is no line.
pub open spec fn nth_line(s: Seq<char>, from: int, n: nat) -> Option<Seq<char>>
    decreases n,
{
    let end = line_end(s, from);
    if from >= s.len() {
        None
    } else if n == 0 {
        if end < s.len() && end > from && s[end - 1] == '\r' {
            Some(s.subrange(from, end - 1))
        } else {
            Some(s.subrange(from, end))
        }
    } else if end >= s.len() {
        None
    } else {
        nth_line(s, end + 1, (n - 1) as nat)
    }
}

/// The line that a 1-based line number names; 0 names the first line too.
pub open spec fn source_line(src: Seq<char>, line: u32) -> Option<Seq<char>> {
    nth_line(
        src,
        0,
        if line == 0 {
            0
        } else {
            (line - 1) as nat
        },
    )
}

/// A line as it is quoted: each tab becomes one space, so that the caret below
/// stays aligned.
pub open spec fn shown_line(line: Seq<char>) -> Seq<char> {
    line.map_values(
        |c: char|
            if c == '\t' {
                ' '
            } else {
                c
            },
    )
}

/// The two header lines of a rendered diagnostic.
pub open spec fn header_text(d: DiagnosticV, path: Seq<char>) -> Seq<char> {
    "error: "@ + d.message + "\n --> "@ + path + ":"@ + span_text(d.span) + "\n"@
}

/// What stands left of the quoted source line.
pub open spec fn quote_lead(span: Span) -> Seq<char> {
    nat_text(span.line as nat) + " | "@
}

/// What stands left of the caret.
pub open spec fn caret_lead(span: Span) -> Seq<char> {
    repeat_char(' ', nat_text(span.line as nat).len() as int) + " | "@ + repeat_char(
        ' ',
        span.col - 1,
    )
}

/// The three lines that quote the source and point at the column.
pub open spec fn quote_text(span: Span, line: Seq<char>) -> Seq<char> {
    (repeat_char(' ', nat_text(span.line as nat).len() as int) + " |\n"@) + (quote_lead(span)
        + shown_line(line) + "\n"@) + (caret_lead(span) + "^\n"@)
}

/// A diagnostic rendered against its source text.
pub open spec fn rendered(d: DiagnosticV, path: Seq<char>, src: Seq<char>) -> Seq<char> {
    match source_line(src, d.span.line) {
        None => header_text(d, path),
        Some(line) => header_text(d, path) + quote_text(d.span, line),
    }
}

/// The caret stands under the character that the diagnostic names: the text
/// left of the caret is as long as the text left of that character in the
/// quoted line.
pub proof fn law_caret_under_column(span: Span)
    requires
        span.col >= 1,
    ensures
        caret_lead(span).len() == quote_lead(span).len() + (span.col - 1),
{
}

/// Quoting a line keeps its length, so columns are not shifted.
pub proof fn law_quoted_line_keeps_columns(line: Seq<char>)
    ensures
        shown_line(line).len() == line.len(),
        forall|i: int|
            0 <= i < line.len() && line[i] != '\t' ==> #[trigger] shown_line(line)[i] == line[i],
{
}

fn find_line_end(chars: &Vec<char>, from: usize) -> (end: usize)
    requires
        from <= chars@.len(),
    ensures
        end == line_end(chars@, from as int),
        from <= end <= chars@.len(),
{
    let mut i: usize = from;
    while i < chars.len() && chars[i] != '\n'
        invariant
            from <= i <= chars@.len(),
            line_end(chars@, i as int) == line_end(chars@, from as int),
        decreases chars@.len() - i,
    {
        i += 1;
    }
    i
}

/// The quoted form of the `n`-th line of `src`, if there is such a line.
fn find_shown_line(src: &str, n: u32) -> (r: Option<String>)
    ensures
        match nth_line(src@, 0, n as nat) {
            None => r is None,
            Some(line) => r is Some && r->Some_0@ == shown_line(line),
        },
{
    let chars = chars_of(src);
    let mut from: usize = 0;
    let mut left: u32 = n;
    while left > 0
        invariant
            from <= chars@.len(),
            left <= n,
            chars@ == src@,
            nth_line(chars@, from as int, left as nat) == nth_line(src@, 0, n as nat),
        decreases left,
    {
        if from >= chars.len() {
            return None;
        }
        let end = find_line_end(&chars, from);
        if end >= chars.len() {
            return None;
        }
        from = end + 1;
        left -= 1;
    }
    if from >= chars.len() {
        return None;
    }
    let end = find_line_end(&chars, from);
    let stop: usize = if end < chars.len() && end > from && chars[end - 1] == '\r' {
        end - 1
    } else {
        end
    };
    let ghost line = chars@.subrange(from as int, stop as int);
    let mut out = String::new();
    let mut i: usize = from;
    while i < stop
        invariant
            from <= i <= stop <= chars@.len(),
            line == chars@.subrange(from as int, stop as int),
            out@ == shown_line(line).take(i - from),
        decreases stop - i,
    {
        let c = chars[i];
        out.push(
            if c == '\t' {
                ' '
            } else {
                c
            },
        );
        assert(out@ =~= shown_line(line).take(i + 1 - from));
        i += 1;
    }
    assert(out@ =~= shown_line(line));
    Some(out)
}

impl Diagnostic {
    pub open spec fn view(&self) -> DiagnosticV {
        DiagnosticV { message: self.message@, span: self.span }
    }

    pub fn new(message: String, span: Span) -> (d: Self)
        ensures
            d@ == (DiagnosticV { message: message@, span }),
    {
        Diagnostic { message, span }
    }

    /// Render in the style of rustc:
    ///
    /// ```text
    /// error: expected `}`, found `print`
    ///  --> examples/foo.zr:7:5
    ///   |
    /// 7 |     print(x)
    ///   |     ^
    /// ```
    ///
    /// When the source has no such line, only the two header lines are given.
    pub fn render(&self, path: &str, src: &str) -> (out: String)
        ensures
            out@ == rendered(self@, path@, src@),
    {
        let head = cat5("error: ", self.message.as_str(), "\n --> ", path, ":");
        let mut out = cat3(head.as_str(), self.span.to_text().as_str(), "\n");
        let line = self.span.line;
        let index: u32 = if line == 0 {
            0
        } else {
            line - 1
        };
        match find_shown_line(src, index) {
            None => out,
            Some(shown) => {
                let number = nat_to_string(line as u64);
                let width: u64 = number.as_str().unicode_len() as u64;
                let gutter = spaces(width);
                let pad = spaces(
                    if self.span.col == 0 {
                        0
                    } else {
                        (self.span.col - 1) as u64
                    },
                );
                let ghost head_text = out@;
                let a = cat2(gutter.as_str(), " |\n");
                let b = cat2(cat3(number.as_str(), " | ", shown.as_str()).as_str(), "\n");
                let c = cat2(cat3(gutter.as_str(), " | ", pad.as_str()).as_str(), "^\n");
                out.append(cat3(a.as_str(), b.as_str(), c.as_str()).as_str());
                assert(repeat_char(' ', self.span.col - 1) =~= pad@);
                out
            },
        }
    }

    /// The message and the position in one line.
    pub fn to_text(&self) -> (s: String)
        ensures
            s@ == self@.message + " at line "@ + span_text(self@.span),
    {
        cat3(self.message.as_str(), " at line ", self.span.to_text().as_str())
    }
}

/// How many line feeds stand in a part of a text.
pub open spec fn feeds(s: Seq<char>, i: int, j: int) -> nat
    decreases j - i,
{
    if i >= j {
        0
    } else {
        feeds(s, i + 1, j) + if s[i] == '\n' {
            1nat
        } else {
            0nat
        }
    }
}

proof fn lemma_line_end(s: Seq<char>, a: int, b: int)
    requires
        0 <= a <= b <= s.len(),
        forall|k: int| a <= k < b ==> (#[trigger] s[k]) != '\n',
        b < s.len() ==> s[b] == '\n',
    ensures
        line_end(s, a) == b,
    decreases b - a,
{
    if a < b {
        assert(s[a] != '\n');
        lemma_line_end(s, a + 1, b);
    }
}

proof fn lemma_next_line(s: Seq<char>, from: int, a: int)
    requires
        0 <= from <= a <= s.len(),
        feeds(s, from, a) > 0,
    ensures
        from <= line_end(s, from) < a,
        s[line_end(s, from)] == '\n',
        feeds(s, line_end(s, from) + 1, a) == feeds(s, from, a) - 1,
    decreases a - from,
{
    if s[from] != '\n' {
        lemma_next_line(s, from + 1, a);
    }
}

proof fn lemma_last_feed(s: Seq<char>, from: int, a: int)
    requires
        0 <= from < a <= s.len(),
        s[a - 1] == '\n',
    ensures
        feeds(s, from, a) > 0,
    decreases a - from,
{
    if from < a - 1 {
        lemma_last_feed(s, from + 1, a);
    }
}

/// The line of a number is the text between so many line feeds and the next one, without
/// a carriage return before that one.
pub proof fn law_line_of_a_number(s: Seq<char>, from: int, a: int, b: int, n: nat)
    requires
        0 <= from <= a <= b <= s.len(),
        a < s.len(),
        feeds(s, from, a) == n,
        a == from || s[a - 1] == '\n',
        forall|k: int| a <= k < b ==> (#[trigger] s[k]) != '\n',
        b < s.len() ==> s[b] == '\n',
    ensures
        nth_line(s, from, n) == Some(
            if b < s.len() && b > a && s[b - 1] == '\r' {
                s.subrange(a, b - 1)
            } else {
                s.subrange(a, b)
            },
        ),
    decreases n,
{
    if n == 0 {
        if from < a {
            lemma_last_feed(s, from, a);
        }
        lemma_line_end(s, a, b);
    } else {
        lemma_next_line(s, from, a);
        let end = line_end(s, from);
        law_line_of_a_number(s, end + 1, a, b, (n - 1) as nat);
    }
}

/// A report starts with its message, and with the path, the line and the column that it
/// is about; where the source has that line, the line follows below.
pub proof fn law_report(d: DiagnosticV, path: Seq<char>, src: Seq<char>)
    ensures
        ({
            let head = "error: "@ + d.message + "\n --> "@ + path + ":"@ + nat_text(
                d.span.line as nat,
            ) + ":"@ + nat_text(d.span.col as nat) + "\n"@;
            &&& source_line(src, d.span.line) is None ==> rendered(d, path, src) == head
            &&& source_line(src, d.span.line) matches Some(line) ==> rendered(d, path, src) == head
                + quote_text(d.span, line)
        }),
{
    let at = nat_text(d.span.line as nat) + ":"@ + nat_text(d.span.col as nat);
    assert("error: "@ + d.message + "\n --> "@ + path + ":"@ + at + "\n"@ =~= "error: "@ + d.message
        + "\n --> "@ + path + ":"@ + nat_text(d.span.line as nat) + ":"@ + nat_text(
        d.span.col as nat,
    ) + "\n"@);
}

} // verus!
