//! The error value that every stage reports, and its rendering with a source
//! excerpt.
use vstd::prelude::*;
use vstd::string::StringExecFns;
use crate::lexer::source_code::{
    lemma_line_number_monotonic, line_and_column, line_count, line_number, line_start, nth_line,
    touched_lines, ErrorSourceView, SourceCodeContainer,
};
use crate::text::{
    decimal_text, first_non_whitespace, last_non_whitespace_end, leading_whitespace,
    lemma_strip_bounds, lemma_stripped_twice, push_decimal, push_repeated, repeated,
    shift_column, shifted, string_of, stripped, to_chars, trailing_end,
};
use super::kind::ErrorKind;

verus! {

/// A range of absolute character offsets into one source text, both ends
/// included.
#[derive(Debug, Clone, Copy, PartialEq, Eq, Structural)]
pub struct Span {
    pub start: usize,
    pub stop: usize,
}

/// One diagnostic.
#[derive(Debug, PartialEq, Eq)]
pub struct Error {
    pub kind: ErrorKind,
    pub span: Span,
    pub file_name: Option<String>,
    pub message: String,
    pub notes: Vec<String>,
}

/// What an [`Error`] holds, as plain mathematical values.
pub struct ErrorView {
    pub kind: ErrorKind,
    pub span: Span,
    pub file_name: Option<Seq<char>>,
    pub message: Seq<char>,
    pub notes: Seq<Seq<char>>,
}

impl ErrorView {
    /// The error of that kind, place and file with no message and no notes.
    pub open spec fn new(kind: ErrorKind, span: Span, file_name: Option<Seq<char>>) -> ErrorView {
        ErrorView { kind, span, file_name, message: Seq::empty(), notes: Seq::empty() }
    }

    /// The same error with `msg` added at the end of its message.
    pub open spec fn add_msg(self, msg: Seq<char>) -> ErrorView {
        ErrorView { message: self.message + msg, ..self }
    }

    /// The same error with `note` added after its notes.
    pub open spec fn add_note(self, note: Seq<char>) -> ErrorView {
        ErrorView { notes: self.notes.push(note), ..self }
    }
}

impl View for Error {
    type V = ErrorView;

    open spec fn view(&self) -> ErrorView {
        ErrorView {
            kind: self.kind,
            span: self.span,
            file_name: match self.file_name {
                Some(name) => Some(name@),
                None => None,
            },
            message: self.message@,
            notes: self.notes@.map_values(|note: String| note@),
        }
    }
}

impl Clone for Error {
    fn clone(&self) -> (e: Self)
        ensures
            e@ == self@,
    {
        let mut notes: Vec<String> = Vec::new();
        let mut i: usize = 0;
        while i < self.notes.len()
            invariant
                i <= self.notes@.len(),
                notes@.len() == i,
                forall|k: int| 0 <= k < i ==> (#[trigger] notes@[k])@ == self.notes@[k]@,
            decreases self.notes@.len() - i,
        {
            notes.push(self.notes[i].clone());
            i += 1;
        }
        let file_name = match &self.file_name {
            Some(name) => Some(name.clone()),
            None => None,
        };
        let e = Error {
            kind: self.kind,
            span: self.span,
            file_name,
            message: self.message.clone(),
            notes,
        };
        proof {
            assert(e@.notes =~= self@.notes);
        }
        e
    }
}

impl Error {
    /// An error of kind `error_kind` at `span`, with an empty message and no
    /// notes.
    pub fn new(error_kind: ErrorKind, span: Span, file_name: Option<&str>) -> (e: Self)
        ensures
            e@ == ErrorView::new(
                error_kind,
                span,
                match file_name {
                    Some(name) => Some(name@),
                    None => None,
                },
            ),
    {
        let name = match file_name {
            Some(s) => Some(s.to_owned()),
            None => None,
        };
        let e = Error {
            kind: error_kind,
            span: span,
            file_name: name,
            message: String::new(),
            notes: Vec::new(),
        };
        proof {
            assert(e@.notes =~= Seq::empty());
        }
        e
    }

    /// Adds `note` after the notes that are there.
    pub fn add_note(self, note: &str) -> (e: Self)
        ensures
            e@ == self@.add_note(note@),
    {
        let mut e = self;
        e.notes.push(note.to_owned());
        proof {
            assert(e@.notes =~= self@.notes.push(note@));
        }
        e
    }

    /// Adds `msg` at the end of the message.
    pub fn add_msg(self, msg: &str) -> (e: Self)
        ensures
            e@ == self@.add_msg(msg@),
    {
        let mut e = self;
        e.message.append(msg);
        e
    }

    /// Adds `msg` at the end of the message, as [`Error::add_msg`] does.
    pub fn inject_msg(self, msg: &str) -> (e: Self)
        ensures
            e@ == self@.add_msg(msg@),
    {
        self.add_msg(msg)
    }
}

/// The characters of each string of `lines`.
pub open spec fn texts(lines: Seq<String>) -> Seq<Seq<char>> {
    lines.map_values(|line: String| line@)
}

/// The source lines that a span touches, prepared for display, with the
/// place of the span in them.
///
/// `start` is the index of the first line (the first line of the source has
/// index 0) and the column of the span's start in it, counted from 0. `end`
/// is the index of the first source line after the excerpt (`usize::MAX`
/// where the excerpt reaches the last line) and the column of the span's end,
/// counted as if the span lay on the first line.
#[derive(Debug)]
pub struct ErrorSourceContainer {
    pub lines: Vec<String>,
    pub start: (usize, usize),
    pub end: (usize, usize),
}

/// What an [`ErrorSourceContainer`] holds, as plain mathematical values.
pub struct ErrorSourceContainerView {
    pub lines: Seq<Seq<char>>,
    pub start: (usize, usize),
    pub end: (usize, usize),
}

impl View for ErrorSourceContainer {
    type V = ErrorSourceContainerView;

    open spec fn view(&self) -> ErrorSourceContainerView {
        ErrorSourceContainerView { lines: texts(self.lines@), start: self.start, end: self.end }
    }
}

/// The lines of the text `t` that the offsets from `start` to `end` touch,
/// each whole and with its line feed, and the place of the span in them.
pub open spec fn excerpt(t: Seq<char>, start: int, end: int) -> ErrorSourceContainerView {
    let first = line_number(t, start) - 1;
    let last = line_number(t, end) - 1;
    let column = start - line_start(t, start);
    ErrorSourceContainerView {
        lines: Seq::new((last - first + 1) as nat, |k: int| nth_line(t, first + k)),
        start: (first as usize, column as usize),
        end: (
            if last + 1 < line_count(t) {
                (last + 1) as usize
            } else {
                usize::MAX
            },
            (column + (end - start)) as usize,
        ),
    }
}

impl ErrorSourceContainerView {
    /// The excerpt with its whitespace trimmed. A single line loses the
    /// whitespace at both ends and both columns move with it. Of several
    /// lines, the first loses the whitespace at its start and the start
    /// column moves with it, the last loses the whitespace at its end and the
    /// end column stays within it, and the lines between lose both.
    pub open spec fn trimmed(self) -> ErrorSourceContainerView {
        let n = self.lines.len() as int;
        if n == 0 {
            self
        } else if n == 1 {
            let lead = leading_whitespace(self.lines[0]);
            let line = stripped(self.lines[0]);
            ErrorSourceContainerView {
                lines: seq![line],
                start: (self.start.0, shifted(self.start.1, lead, line.len() as int)),
                end: (self.end.0, shifted(self.end.1, lead, line.len() as int)),
            }
        } else {
            let first = self.lines[0];
            let last = self.lines[n - 1];
            let lead = leading_whitespace(first);
            let tail = trailing_end(last);
            ErrorSourceContainerView {
                lines: Seq::new(
                    n as nat,
                    |i: int|
                        if i == 0 {
                            first.subrange(lead, first.len() as int)
                        } else if i == n - 1 {
                            last.subrange(0, tail)
                        } else {
                            stripped(self.lines[i])
                        },
                ),
                start: (
                    self.start.0,
                    if lead > 0 {
                        shifted(self.start.1, lead, first.len() - lead)
                    } else {
                        self.start.1
                    },
                ),
                end: (
                    self.end.0,
                    if tail < last.len() && tail < self.end.1 {
                        tail as usize
                    } else {
                        self.end.1
                    },
                ),
            }
        }
    }
}

impl ErrorSourceContainer {
    /// The trimmed excerpt of `source_code` for the offsets from `start_pos`
    /// to `end_pos`.
    pub fn from(source_code: &SourceCodeContainer, start_pos: usize, end_pos: usize) -> (container:
        Self)
        requires
            start_pos <= end_pos < source_code@.len(),
        ensures
            container@ == excerpt(source_code@, start_pos as int, end_pos as int).trimmed(),
    {
        let ghost t = source_code@;
        let ghost first = line_number(t, start_pos as int) - 1;
        let ghost last = line_number(t, end_pos as int) - 1;
        let total_lines = source_code.total_lines();
        let mut lines: Vec<String> = Vec::new();
        let mut rel_start: (usize, usize) = (0, 0);
        let mut rel_end_idx: usize = usize::MAX;
        let mut idx: usize = 0;
        let mut past = false;
        proof {
            use_type_invariant(source_code);
            source_code.lemma_line_layout(0);
            lemma_line_number_monotonic(t, start_pos as int, end_pos as int);
        }
        while idx < total_lines && !past
            invariant
                source_code.wf(),
                t == source_code@,
                total_lines == line_count(t),
                start_pos <= end_pos < t.len(),
                first == line_number(t, start_pos as int) - 1,
                last == line_number(t, end_pos as int) - 1,
                0 <= first <= last,
                idx <= total_lines,
                !past ==> idx <= last + 1,
                past ==> idx == last + 1 && rel_end_idx == idx && idx < total_lines,
                !past ==> rel_end_idx == usize::MAX,
                idx <= first ==> lines@.len() == 0,
                idx > first ==> lines@.len() == idx - first && rel_start.0 == first && rel_start.1
                    == start_pos - line_start(t, start_pos as int),
                forall|k: int| 0 <= k < lines@.len() ==> (#[trigger] lines@[k])@ == nth_line(t, first + k),
            decreases total_lines - idx, if past { 0int } else { 1int },
        {
            let l = source_code.line(idx);
            proof {
                source_code.lemma_line_layout(idx as int);
            }
            if start_pos > l.end_pos {
                idx += 1;
            } else if end_pos < l.start_pos {
                rel_end_idx = idx;
                past = true;
            } else {
                let text = string_of(&l.line, 0, l.line.len());
                lines.push(text);
                if lines.len() == 1 {
                    rel_start = (idx, l.get_relative_pos(start_pos));
                }
                idx += 1;
            }
        }
        proof {
            source_code.lemma_line_layout(total_lines - 1);
            source_code.lemma_line_layout(first);
            assert(texts(lines@) =~= excerpt(t, start_pos as int, end_pos as int).lines);
        }
        let mut container = ErrorSourceContainer {
            lines: lines,
            start: rel_start,
            end: (rel_end_idx, rel_start.1 + (end_pos - start_pos)),
        };
        container.trim();
        container
    }

    /// Trims the whitespace of the excerpt and moves the columns with it.
    pub fn trim(&mut self)
        ensures
            final(self)@ == old(self)@.trimmed(),
    {
        let n = self.lines.len();
        if n == 0 {
            return ;
        }
        if n == 1 {
            let chars = to_chars(self.lines[0].as_str());
            let start = first_non_whitespace(&chars);
            let end = last_non_whitespace_end(&chars);
            let new_len = if start >= end {
                0
            } else {
                end - start
            };
            let new = if start >= end {
                String::new()
            } else {
                string_of(&chars, start, end)
            };
            self.start = (self.start.0, shift_column(self.start.1, start, new_len));
            self.end = (self.end.0, shift_column(self.end.1, start, new_len));
            self.lines.set(0, new);
            proof {
                assert(texts(self.lines@) =~= seq![stripped(chars@)]);
            }
            return ;
        }
        let first = to_chars(self.lines[0].as_str());
        let lead = first_non_whitespace(&first);
        if lead > 0 {
            let new = string_of(&first, lead, first.len());
            self.start = (self.start.0, shift_column(self.start.1, lead, first.len() - lead));
            self.lines.set(0, new);
        }
        let ghost lead_cut = first@.subrange(lead as int, first@.len() as int);
        let mut i: usize = 1;
        while i < n - 1
            invariant
                1 <= i <= n - 1,
                n == self.lines@.len() == old(self).lines@.len(),
                self.start == old(self)@.trimmed().start,
                self.end == old(self).end,
                self.lines@[0]@ == lead_cut,
                forall|k: int| 1 <= k < i ==> (#[trigger] self.lines@[k])@ == stripped(old(self).lines@[k]@),
                forall|k: int| i <= k < n ==> (#[trigger] self.lines@[k])@ == old(self).lines@[k]@,
            decreases n - i,
        {
            let chars = to_chars(self.lines[i].as_str());
            let start = first_non_whitespace(&chars);
            let end = last_non_whitespace_end(&chars);
            let new = if start >= end {
                String::new()
            } else {
                string_of(&chars, start, end)
            };
            self.lines.set(i, new);
            i += 1;
        }
        let last_idx = n - 1;
        let last = to_chars(self.lines[last_idx].as_str());
        let tail = last_non_whitespace_end(&last);
        if tail < last.len() {
            let new = string_of(&last, 0, tail);
            if tail < self.end.1 {
                self.end = (self.end.0, tail);
            }
            self.lines.set(last_idx, new);
        }
        proof {
            assert(tail == last@.len() ==> last@.subrange(0, tail as int) =~= last@);
            assert(texts(self.lines@) =~= old(self)@.trimmed().lines);
        }
    }
}

/// Trimming is a fixed point: an excerpt that was trimmed is not changed by
/// trimming it again.
pub proof fn lemma_trim_idempotent(e: ErrorSourceContainerView)
    ensures
        e.trimmed().trimmed() == e.trimmed(),
{
    let once = e.trimmed();
    let twice = once.trimmed();
    let n = e.lines.len() as int;
    if n == 1 {
        lemma_stripped_twice(e.lines[0]);
    } else if n > 1 {
        let first = e.lines[0];
        let last = e.lines[n - 1];
        lemma_strip_bounds(first);
        lemma_strip_bounds(last);
        assert forall|i: int| 0 <= i < n implies twice.lines[i] == once.lines[i] by {
            if 0 < i < n - 1 {
                lemma_stripped_twice(e.lines[i]);
            }
        }
        assert(twice.lines =~= once.lines);
    }
}

/// The name that a diagnostic shows for its file: the name it holds, or a
/// placeholder.
pub open spec fn file_label(file_name: Option<Seq<char>>) -> Seq<char> {
    match file_name {
        Some(name) => name,
        None => "<unknown>"@,
    }
}

/// The first line of every rendering: the code and the name of the kind.
pub open spec fn header(kind: ErrorKind) -> Seq<char> {
    "❌ ERROR ["@ + kind.spec_code() + "]: "@ + kind.spec_name() + "\n"@
}

/// The line that names the file and the code, for a rendering without
/// source.
pub open spec fn file_line(e: ErrorView) -> Seq<char> {
    "File: "@ + file_label(e.file_name) + " | Code: "@ + e.kind.spec_code() + "\n"@
}

/// The line that names file, line and column, for a rendering with source.
pub open spec fn location_line(e: ErrorView, line: int, column: int) -> Seq<char> {
    "   --> "@ + file_label(e.file_name) + ":"@ + decimal_text(line as nat) + ":"@ + decimal_text(
        column as nat,
    ) + "\n"@
}

/// One line for each of the first `upto` notes, each behind `lead`.
pub open spec fn note_lines(notes: Seq<Seq<char>>, lead: Seq<char>, upto: int) -> Seq<char>
    decreases upto,
{
    if upto <= 0 {
        Seq::empty()
    } else {
        note_lines(notes, lead, upto - 1) + lead + notes[upto - 1] + "\n"@
    }
}

/// The text `s` behind as many spaces as make it `width` characters long.
pub open spec fn right_aligned(s: Seq<char>, width: int) -> Seq<char> {
    repeated(' ', width - s.len()) + s
}

/// The number of `^` under an excerpt: one for each column from the start
/// column to the end column, and one where the end column lies before the
/// start column.
pub open spec fn underline_width(ex: ErrorSourceContainerView) -> int {
    if ex.end.1 >= ex.start.1 {
        ex.end.1 - ex.start.1 + 1
    } else {
        1
    }
}

/// The line with number `number` of the source as a rendering shows it.
pub open spec fn source_line(number: int, line: Seq<char>) -> Seq<char> {
    right_aligned(decimal_text(number as nat), 3) + " | "@ + line + "\n"@
}

/// The line that marks `width` columns from column `column` on with `^` and
/// gives the message behind them.
pub open spec fn marks_line(column: int, width: int, message: Seq<char>) -> Seq<char> {
    "    | "@ + repeated(' ', column) + repeated('^', width) + " "@ + message + "\n"@
}

/// The line that underlines the span and gives the message.
pub open spec fn underline(ex: ErrorSourceContainerView, message: Seq<char>) -> Seq<char> {
    marks_line(ex.start.1 as int, underline_width(ex), message)
}

/// The first `upto` lines of the excerpt `ex`, numbered from `line` on, with
/// the underline below the first of them.
pub open spec fn source_lines(
    ex: ErrorSourceContainerView,
    line: int,
    message: Seq<char>,
    upto: int,
) -> Seq<char>
    decreases upto,
{
    if upto <= 0 {
        Seq::empty()
    } else if upto == 1 {
        source_line(line, ex.lines[0]) + underline(ex, message)
    } else {
        source_lines(ex, line, message, upto - 1) + source_line(line + upto - 1, ex.lines[upto - 1])
    }
}

/// What a diagnostic looks like without its source text.
pub open spec fn rendered_plain(e: ErrorView) -> Seq<char> {
    header(e.kind) + file_line(e) + "   |\n"@ + "   | ❗ "@ + e.message + "\n"@ + note_lines(
        e.notes,
        "   | 💡 "@,
        e.notes.len() as int,
    )
}

/// What a diagnostic looks like with the source text `t`: the header, the
/// place of the span's start, a margin, the lines that the span touches with
/// the underline and the message below the first, then the notes.
pub open spec fn rendered_with_source(e: ErrorView, t: Seq<char>) -> Seq<char> {
    let place = line_and_column(t, e.span.start as int);
    let ex = excerpt(t, e.span.start as int, e.span.stop as int).trimmed();
    header(e.kind) + location_line(e, place.0, place.1) + "    |\n"@ + source_lines(
        ex,
        place.0,
        e.message,
        ex.lines.len() as int,
    ) + note_lines(e.notes, "💡 Hint: "@, e.notes.len() as int)
}

/// Adds the decimal digits of `n` to the end of `s`, behind as many spaces as
/// make them `width` characters long.
fn push_right_aligned(s: &mut String, n: usize, width: usize)
    ensures
        final(s)@ == old(s)@ + right_aligned(decimal_text(n as nat), width as int),
{
    let mut digits = String::new();
    push_decimal(&mut digits, n);
    let chars = to_chars(digits.as_str());
    let len = chars.len();
    if len < width {
        push_repeated(s, ' ', width - len);
    }
    s.append(digits.as_str());
}

/// Adds the line with number `number` of the source, as a rendering shows
/// it, to the end of `s`.
fn push_source_line(s: &mut String, number: usize, line: &str)
    ensures
        final(s)@ == old(s)@ + source_line(number as int, line@),
{
    push_right_aligned(s, number, 3);
    s.append(" | ");
    s.append(line);
    s.append("\n");
}

/// Adds the line that marks `width` columns from column `column` on and
/// gives `message` to the end of `s`.
fn push_marks_line(s: &mut String, column: usize, width: usize, message: &str)
    ensures
        final(s)@ == old(s)@ + marks_line(column as int, width as int, message@),
{
    s.append("    | ");
    push_repeated(s, ' ', column);
    push_repeated(s, '^', width);
    s.append(" ");
    s.append(message);
    s.append("\n");
}

impl Error {
    fn push_location(&self, output: &mut String, line: usize, column: usize)
        ensures
            final(output)@ == old(output)@ + location_line(self@, line as int, column as int),
    {
        output.append("   --> ");
        output.append(self.file_label());
        output.append(":");
        push_decimal(output, line);
        output.append(":");
        push_decimal(output, column);
        output.append("\n");
    }

    fn push_file_line(&self, output: &mut String)
        ensures
            final(output)@ == old(output)@ + file_line(self@),
    {
        output.append("File: ");
        output.append(self.file_label());
        output.append(" | Code: ");
        output.append(self.kind.code());
        output.append("\n");
    }

    fn push_header(&self, output: &mut String)
        ensures
            final(output)@ == old(output)@ + header(self.kind),
    {
        output.append("❌ ERROR [");
        output.append(self.kind.code());
        output.append("]: ");
        output.append(self.kind.as_str());
        output.append("\n");
    }

    fn push_notes(&self, output: &mut String, lead: &str)
        ensures
            final(output)@ == old(output)@ + note_lines(
                self@.notes,
                lead@,
                self@.notes.len() as int,
            ),
    {
        let mut i: usize = 0;
        while i < self.notes.len()
            invariant
                i <= self.notes@.len(),
                self@.notes.len() == self.notes@.len(),
                output@ == old(output)@ + note_lines(self@.notes, lead@, i as int),
            decreases self.notes@.len() - i,
        {
            output.append(lead);
            output.append(self.notes[i].as_str());
            output.append("\n");
            i += 1;
        }
    }

    /// The name of the file, or the placeholder.
    fn file_label(&self) -> (name: &str)
        ensures
            name@ == file_label(self@.file_name),
    {
        match &self.file_name {
            Some(name) => name.as_str(),
            None => "<unknown>",
        }
    }

    /// Renders the diagnostic: with the lines of `source_code` that the span
    /// touches where a source is given, without them where none is.
    pub fn pretty(&self, source_code: Option<&SourceCodeContainer>) -> (output: String)
        requires
            source_code matches Some(source) ==> self.span.start <= self.span.stop < source@.len(),
        ensures
            output@ == match source_code {
                Some(source) => rendered_with_source(self@, source@),
                None => rendered_plain(self@),
            },
    {
        let mut output = String::new();
        match source_code {
            None => {
                self.push_header(&mut output);
                self.push_file_line(&mut output);
                output.append("   |\n");
                output.append("   | ❗ ");
                output.append(self.message.as_str());
                output.append("\n");
                self.push_notes(&mut output, "   | 💡 ");
            },
            Some(source) => {
                let ghost t = source@;
                self.push_header(&mut output);
                let (line_no, column_no) = source.get_line_and_column(self.span.start);
                self.push_location(&mut output, line_no, column_no);
                output.append("    |\n");
                let error_source = ErrorSourceContainer::from(
                    source,
                    self.span.start,
                    self.span.stop,
                );
                let ghost ex = error_source@;
                let ghost top = header(self.kind) + location_line(
                    self@,
                    line_no as int,
                    column_no as int,
                ) + "    |\n"@;
                proof {
                    use_type_invariant(source);
                    source.lemma_text_shape();
                    source.lemma_line_layout(line_count(t) - 1);
                    source.lemma_line_layout(0);
                    source.lemma_line_layout(line_number(t, self.span.start as int) - 1);
                    let whole = excerpt(t, self.span.start as int, self.span.stop as int);
                    lemma_trimmed_shape(whole);
                }
                let mut i: usize = 0;
                while i < error_source.lines.len()
                    invariant
                        i <= error_source.lines@.len(),
                        ex == error_source@,
                        ex.lines.len() == error_source.lines@.len(),
                        line_no + ex.lines.len() <= usize::MAX + 1,
                        ex.end.1 < usize::MAX,
                        output@ == top + source_lines(ex, line_no as int, self@.message, i as int),
                    decreases error_source.lines@.len() - i,
                {
                    push_source_line(&mut output, line_no + i, error_source.lines[i].as_str());
                    if i == 0 {
                        let span_len = if error_source.end.1 >= error_source.start.1 {
                            error_source.end.1 - error_source.start.1 + 1
                        } else {
                            1
                        };
                        push_marks_line(
                            &mut output,
                            error_source.start.1,
                            span_len,
                            self.message.as_str(),
                        );
                    }
                    i += 1;
                }
                self.push_notes(&mut output, "💡 Hint: ");
            },
        }
        output
    }
}

/// Trimming keeps the number of lines and the first components of both
/// places, and moves no column to the right.
pub proof fn lemma_trimmed_shape(e: ErrorSourceContainerView)
    ensures
        e.trimmed().lines.len() == e.lines.len(),
        e.trimmed().start.0 == e.start.0,
        e.trimmed().end.0 == e.end.0,
        e.trimmed().start.1 <= e.start.1,
        e.trimmed().end.1 <= e.end.1,
{
    lemma_strip_bounds(e.lines[0]);
    if e.lines.len() > 0 {
        lemma_strip_bounds(e.lines[e.lines.len() - 1]);
    }
}

/// The number of `^` under a joined excerpt: one for each column from the
/// first mark to the second, and one where the second is not after the first.
pub open spec fn mark_width(source: ErrorSourceView) -> int {
    if source.mark_stop > source.mark_start {
        source.mark_stop - source.mark_start + 1
    } else {
        1
    }
}

/// What a diagnostic looks like in the short form, with the source text `t`:
/// the kind, the place of the span's start, a margin, the lines that the span
/// touches as one trimmed text, the underline with the message, then the
/// notes.
pub open spec fn rendered_short(e: ErrorView, t: Seq<char>) -> Seq<char> {
    let place = line_and_column(t, e.span.start as int);
    let source = touched_lines(t, e.span.start as int, e.span.stop as int).trimmed();
    "Error: "@ + e.kind.spec_name() + "\n"@ + location_line(e, place.0, place.1) + "    |\n"@
        + source_line(place.0, source.line) + marks_line(
        source.mark_start as int,
        mark_width(source),
        e.message,
    ) + note_lines(e.notes, "note: "@, e.notes.len() as int)
}

impl Error {
    /// Renders the diagnostic in the short form, with the lines of `sc` that
    /// the span touches joined into one.
    pub fn prettify(&self, sc: &SourceCodeContainer) -> (output: String)
        requires
            self.span.start <= self.span.stop < sc@.len(),
        ensures
            output@ == rendered_short(self@, sc@),
    {
        let ghost t = sc@;
        let mut output = String::new();
        output.append("Error: ");
        output.append(self.kind.as_str());
        output.append("\n");
        let (line_no, column_no) = sc.get_line_and_column(self.span.start);
        self.push_location(&mut output, line_no, column_no);
        output.append("    |\n");
        let error_source = sc.get_error_source(self.span.start, self.span.stop);
        proof {
            use_type_invariant(sc);
            sc.lemma_text_shape();
            let whole = touched_lines(t, self.span.start as int, self.span.stop as int);
            lemma_strip_bounds(whole.line);
        }
        push_source_line(&mut output, line_no, error_source.line.as_str());
        let span_len = if error_source.mark_stop > error_source.mark_start {
            error_source.mark_stop - error_source.mark_start + 1
        } else {
            1
        };
        push_marks_line(&mut output, error_source.mark_start, span_len, self.message.as_str());
        self.push_notes(&mut output, "note: ");
        output
    }
}

} // verus!
