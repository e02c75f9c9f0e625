//! The source text of one compilation unit, stored line by line, and the
//! mapping between absolute offsets and `(line, column)` positions.
//!
//! The mathematical model of a [`SourceCodeContainer`] is its text: the
//! sequence of all its characters, in which every line, the last one included,
//! ends with a line feed.
use vstd::prelude::*;
use vstd::string::StringExecFns;
use crate::text::{
    first_non_whitespace, last_non_whitespace_end, leading_whitespace, lemma_strip_bounds,
    shift_column, shifted, string_of, to_chars, trailing_end,
};

verus! {

/// A place in the source text: the line and the column, both counted from 1.
/// It is not stored with the characters but derived from an offset when it
/// is asked for.
#[derive(Debug, Clone, Copy, PartialEq, Eq, Structural)]
pub struct Position {
    pub line: usize,
    pub column: usize,
}

/// One line of the source, with the line feed that ends it.
#[derive(Debug)]
pub struct Line {
    pub line: Vec<char>,
    pub start_pos: usize,
    pub end_pos: usize,
}

impl Line {
    /// The line holds at least its line feed, which is its last and only line
    /// feed, and `end_pos` is the offset of that line feed.
    pub open spec fn wf(&self) -> bool {
        &&& self.line@.len() >= 1
        &&& self.end_pos == self.start_pos + self.line@.len() - 1
        &&& self.line@[self.line@.len() - 1] == '\n'
        &&& forall|k: int| 0 <= k < self.line@.len() - 1 ==> self.line@[k] != '\n'
    }

    /// The position of the absolute offset `pos` inside this line.
    pub fn get_relative_pos(&self, pos: usize) -> (rel: usize)
        requires
            self.start_pos <= pos,
        ensures
            rel == pos - self.start_pos,
    {
        pos - self.start_pos
    }

    /// The character of this line that stands at the absolute offset `pos`.
    pub fn get_char_relative(&self, pos: usize) -> (c: char)
        requires
            self.start_pos <= pos,
            pos - self.start_pos < self.line@.len(),
        ensures
            c == self.line@[pos - self.start_pos],
    {
        let rel_pos = self.get_relative_pos(pos);
        self.line[rel_pos]
    }
}

/// The characters of `lines`, one line after the other.
pub open spec fn lines_text(lines: Seq<Line>) -> Seq<char>
    decreases lines.len(),
{
    if lines.len() == 0 {
        Seq::empty()
    } else {
        lines_text(lines.drop_last()) + lines.last().line@
    }
}

/// Every line is well formed, the first one starts at offset 0 and each other
/// one starts right after the line feed of the line before it.
pub open spec fn contiguous(lines: Seq<Line>) -> bool {
    &&& forall|i: int| 0 <= i < lines.len() ==> (#[trigger] lines[i]).wf()
    &&& lines.len() > 0 ==> lines[0].start_pos == 0
    &&& forall|i: int|
        0 <= i < lines.len() - 1 ==> (#[trigger] lines[i + 1]).start_pos == lines[i].end_pos + 1
}

/// The offset at which the line that holds offset `pos` starts: the nearest
/// offset at or before `pos` that is 0 or follows a line feed.
pub open spec fn line_start(t: Seq<char>, pos: int) -> int
    decreases pos,
{
    if pos <= 0 {
        0
    } else if t[pos - 1] == '\n' {
        pos
    } else {
        line_start(t, pos - 1)
    }
}

/// The offset of the line feed that ends the line holding offset `pos`: the
/// nearest line feed at or after `pos` (the length of `t` if there is none).
pub open spec fn line_end(t: Seq<char>, pos: int) -> int
    decreases t.len() - pos,
{
    if pos >= t.len() {
        t.len() as int
    } else if pos >= 0 && t[pos] == '\n' {
        pos
    } else {
        line_end(t, pos + 1)
    }
}

/// The 1-based number of the line that holds offset `pos`: one more than the
/// number of line feeds before `pos`.
pub open spec fn line_number(t: Seq<char>, pos: int) -> int
    decreases pos,
{
    if pos <= 0 {
        1
    } else {
        line_number(t, pos - 1) + if t[pos - 1] == '\n' { 1int } else { 0int }
    }
}

/// The 1-based column of offset `pos` in its line.
pub open spec fn column_number(t: Seq<char>, pos: int) -> int {
    pos - line_start(t, pos) + 1
}

/// The number of lines of a text in which every line ends with a line feed.
pub open spec fn line_count(t: Seq<char>) -> int {
    line_number(t, t.len() as int) - 1
}

/// What [`SourceCodeContainer::get_line_and_column`] answers for offset `pos`
/// in the text `t`.
pub open spec fn line_and_column(t: Seq<char>, pos: int) -> (int, int) {
    if pos < t.len() {
        (line_number(t, pos), column_number(t, pos))
    } else {
        (line_count(t), 0)
    }
}

/// The offset at which the line with index `n` starts, where the first line
/// has index 0: each line starts right after the line feed of the one before.
pub open spec fn nth_line_start(t: Seq<char>, n: int) -> int
    decreases n,
{
    if n <= 0 {
        0
    } else {
        line_end(t, nth_line_start(t, n - 1)) + 1
    }
}

/// The line with index `n`, with the line feed that ends it.
pub open spec fn nth_line(t: Seq<char>, n: int) -> Seq<char> {
    t.subrange(nth_line_start(t, n), line_end(t, nth_line_start(t, n)) + 1)
}

/// The text that a container holds for the source `source`: the source and
/// one line feed after it, which ends its last line.
pub open spec fn source_text(source: Seq<char>) -> Seq<char> {
    source.push('\n')
}

/// The characters of `t` from offset `start` to offset `end`, both included,
/// if there are any and all of them lie in `t`.
pub open spec fn text_between(t: Seq<char>, start: int, end: int) -> Option<Seq<char>> {
    if 0 <= start <= end < t.len() {
        Some(t.subrange(start, end + 1))
    } else {
        None
    }
}

/// All of a container's text is the source with a line feed after it, and
/// all of it but its last character is the source.
pub proof fn lemma_text_round_trip(source: Seq<char>)
    ensures
        text_between(source_text(source), 0, source_text(source).len() - 1) == Some(
            source.push('\n'),
        ),
        source.len() > 0 ==> text_between(source_text(source), 0, source_text(source).len() - 2)
            == Some(source),
{
}

/// The start of the line of an offset lies at or before the offset.
pub proof fn lemma_line_start_bounds(t: Seq<char>, pos: int)
    requires
        0 <= pos,
    ensures
        0 <= line_start(t, pos) <= pos,
    decreases pos,
{
    if pos > 0 && t[pos - 1] != '\n' {
        lemma_line_start_bounds(t, pos - 1);
    }
}

/// In a text that ends with a line feed, the line that
/// [`line_and_column`] answers never goes down as the offset goes up.
pub proof fn lemma_line_monotonic(t: Seq<char>, a: int, b: int)
    requires
        t.len() > 0,
        t[t.len() - 1] == '\n',
        0 <= a <= b,
    ensures
        line_and_column(t, a).0 <= line_and_column(t, b).0,
{
    if b < t.len() {
        lemma_line_number_monotonic(t, a, b);
    } else if a < t.len() {
        lemma_line_number_monotonic(t, a, t.len() - 1);
    }
}

/// The column that [`line_and_column`] answers is 1 exactly at the start of
/// a line, that is at offset 0 and right after each line feed, and one more
/// than the column before everywhere else.
pub proof fn lemma_column_resets(t: Seq<char>, pos: int)
    requires
        0 <= pos < t.len(),
    ensures
        line_and_column(t, pos).1 == 1 <==> (pos == 0 || t[pos - 1] == '\n'),
        pos > 0 && t[pos - 1] != '\n' ==> line_and_column(t, pos).1 == line_and_column(
            t,
            pos - 1,
        ).1 + 1 && line_and_column(t, pos).0 == line_and_column(t, pos - 1).0,
        pos > 0 && t[pos - 1] == '\n' ==> line_and_column(t, pos).0 == line_and_column(
            t,
            pos - 1,
        ).0 + 1,
{
    if pos > 0 {
        lemma_line_start_bounds(t, pos - 1);
    }
}

/// The line number never goes down as the offset goes up.
pub proof fn lemma_line_number_monotonic(t: Seq<char>, a: int, b: int)
    requires
        a <= b,
    ensures
        line_number(t, a) <= line_number(t, b),
    decreases b - a,
{
    if a < b {
        lemma_line_number_monotonic(t, a, b - 1);
    }
}

/// The text of lines with one more line is their text with that line after
/// it.
pub proof fn lemma_lines_text_push(lines: Seq<Line>, l: Line)
    ensures
        lines_text(lines.push(l)) == lines_text(lines) + l.line@,
{
    assert(lines.push(l).drop_last() =~= lines);
}

/// In contiguous lines the text is as long as the last line's end says, and
/// each line's characters stand in the text from the line's own start on.
pub proof fn lemma_contiguous_text(lines: Seq<Line>)
    requires
        contiguous(lines),
    ensures
        lines.len() == 0 ==> lines_text(lines).len() == 0,
        lines.len() > 0 ==> lines_text(lines).len() == lines.last().end_pos + 1,
        forall|i: int, k: int|
            0 <= i < lines.len() && 0 <= k < lines[i].line@.len() ==> lines_text(lines)[lines[i].start_pos
                + k] == #[trigger] lines[i].line@[k],
        forall|i: int, j: int|
            0 <= i < j < lines.len() ==> lines[i].end_pos < lines[j].start_pos,
    decreases lines.len(),
{
    if lines.len() > 0 {
        let front = lines.drop_last();
        let last = lines.last();
        assert(contiguous(front)) by {
            assert forall|i: int| 0 <= i < front.len() - 1 implies (#[trigger] front[i
                + 1]).start_pos == front[i].end_pos + 1 by {
            }
        }
        lemma_contiguous_text(front);
        if front.len() > 0 {
            assert(lines[lines.len() - 2 + 1].start_pos == lines[lines.len() - 2].end_pos + 1);
        }
        let t = lines_text(lines);
        assert forall|i: int, k: int|
            0 <= i < lines.len() && 0 <= k < lines[i].line@.len() implies t[lines[i].start_pos
            + k] == #[trigger] lines[i].line@[k] by {
            if i < front.len() {
                assert(front[i] == lines[i]);
                assert(front.last().wf());
            }
        }
        assert forall|i: int, j: int| 0 <= i < j < lines.len() implies lines[i].end_pos
            < lines[j].start_pos by {
            if j < front.len() {
                assert(front[i] == lines[i]);
                assert(front[j] == lines[j]);
            }
        }
    }
}

/// Offset `k` of line `i` lies on line number `i + 1`, which starts at that
/// line's `start_pos` and ends at its `end_pos`.
pub proof fn lemma_position_in_line(lines: Seq<Line>, i: int, k: int)
    requires
        contiguous(lines),
        0 <= i < lines.len(),
        0 <= k < lines[i].line@.len(),
    ensures
        line_start(lines_text(lines), lines[i].start_pos + k) == lines[i].start_pos,
        line_number(lines_text(lines), lines[i].start_pos + k) == i + 1,
        line_end(lines_text(lines), lines[i].start_pos + k) == lines[i].end_pos,
    decreases i, k, 0int,
{
    if k == 0 {
        if i > 0 {
            let prev = lines[i - 1];
            assert(lines[i - 1 + 1].start_pos == prev.end_pos + 1);
            let pk = prev.line@.len() - 1;
            lemma_position_in_line(lines, i - 1, pk);
        }
    } else {
        lemma_position_in_line(lines, i, k - 1);
    }
    lemma_line_end_in_line(lines, i, k);
}

/// The line of offset `k` of line `i` ends at that line's `end_pos`.
proof fn lemma_line_end_in_line(lines: Seq<Line>, i: int, k: int)
    requires
        contiguous(lines),
        0 <= i < lines.len(),
        0 <= k < lines[i].line@.len(),
    ensures
        line_end(lines_text(lines), lines[i].start_pos + k) == lines[i].end_pos,
    decreases lines[i].line@.len() - k,
{
    let t = lines_text(lines);
    lemma_contiguous_text(lines);
    assert(t[lines[i].start_pos + k] == lines[i].line@[k]);
    if k < lines[i].line@.len() - 1 {
        lemma_line_end_in_line(lines, i, k + 1);
    }
}

/// Line `i` of contiguous lines is the line with index `i` of their text.
pub proof fn lemma_nth_line(lines: Seq<Line>, i: int)
    requires
        contiguous(lines),
        0 <= i < lines.len(),
    ensures
        nth_line_start(lines_text(lines), i) == lines[i].start_pos,
        nth_line(lines_text(lines), i) == lines[i].line@,
    decreases i,
{
    lemma_contiguous_text(lines);
    lemma_position_in_line(lines, i, 0);
    if i > 0 {
        lemma_nth_line(lines, i - 1);
        lemma_position_in_line(lines, i - 1, 0);
        assert(lines[i - 1 + 1].start_pos == lines[i - 1].end_pos + 1);
    }
}

/// Every offset of the text of contiguous lines lies in one of the lines.
pub proof fn lemma_line_exists(lines: Seq<Line>, pos: int) -> (i: int)
    requires
        contiguous(lines),
        0 <= pos < lines_text(lines).len(),
    ensures
        0 <= i < lines.len(),
        lines[i].start_pos <= pos <= lines[i].end_pos,
    decreases lines.len(),
{
    lemma_contiguous_text(lines);
    let last = lines.len() - 1;
    if lines[last].start_pos <= pos {
        last
    } else {
        let front = lines.drop_last();
        let i = lemma_line_exists(front, pos);
        i
    }
}

/// The whole source text, indexed by absolute character offsets.
#[derive(Debug)]
pub struct SourceCodeContainer {
    source_code: Vec<Line>,
    total_lines: usize,
    total_chars: usize,
}

impl View for SourceCodeContainer {
    type V = Seq<char>;

    /// The text: all characters of all lines, in order.
    closed spec fn view(&self) -> Seq<char> {
        lines_text(self.source_code@)
    }
}

impl SourceCodeContainer {
    /// There is at least one line, the lines are contiguous, and the two
    /// counters say how many lines and characters there are.
    #[verifier::type_invariant]
    pub closed spec fn wf(&self) -> bool {
        &&& self.source_code@.len() >= 1
        &&& contiguous(self.source_code@)
        &&& self.total_lines == self.source_code@.len()
        &&& self.total_chars == lines_text(self.source_code@).len()
    }

    /// The number of lines.
    pub closed spec fn spec_total_lines(&self) -> usize {
        self.total_lines
    }

    /// The number of characters, line feeds included.
    pub closed spec fn spec_total_chars(&self) -> usize {
        self.total_chars
    }

    /// A well-formed container's text is not empty, ends with a line feed, and
    /// has as many characters and lines as the counters say.
    pub proof fn lemma_text_shape(&self)
        requires
            self.wf(),
        ensures
            self@.len() >= 1,
            self@[self@.len() - 1] == '\n',
            self.spec_total_chars() == self@.len(),
            self.spec_total_lines() == line_count(self@),
            line_count(self@) >= 1,
    {
        let lines = self.source_code@;
        lemma_contiguous_text(lines);
        let last = lines[lines.len() - 1];
        let k = last.line@.len() - 1;
        lemma_position_in_line(lines, lines.len() - 1, k);
    }

    /// How the offsets of a well-formed container's text and its lines go
    /// together. The line with index `j` holds at least its line feed, the
    /// next line starts right after it, and the lines end where the text
    /// ends. An offset lies in line `j` exactly if its line number is
    /// `j + 1`; it then lies before the next line's start, and its line
    /// starts where line `j` starts and ends where line `j` ends.
    pub proof fn lemma_line_layout(&self, j: int)
        requires
            self.wf(),
            0 <= j < line_count(self@),
        ensures
            0 <= nth_line_start(self@, j),
            nth_line(self@, j).len() >= 1,
            nth_line_start(self@, j + 1) == nth_line_start(self@, j) + nth_line(self@, j).len(),
            nth_line_start(self@, j + 1) <= self@.len(),
            j + 1 == line_count(self@) <==> nth_line_start(self@, j + 1) == self@.len(),
            forall|p: int|
                0 <= p < self@.len() ==> (#[trigger] line_number(self@, p) < j + 1 <==> p
                    < nth_line_start(self@, j)),
            forall|p: int|
                0 <= p < self@.len() ==> (#[trigger] line_number(self@, p) > j + 1 <==> p
                    >= nth_line_start(self@, j + 1)),
            forall|p: int|
                nth_line_start(self@, j) <= p < nth_line_start(self@, j + 1) ==> #[trigger] line_start(
                    self@,
                    p,
                ) == nth_line_start(self@, j),
            forall|p: int|
                nth_line_start(self@, j) <= p < nth_line_start(self@, j + 1) ==> #[trigger] line_end(
                    self@,
                    p,
                ) == nth_line_start(self@, j + 1) - 1,
    {
        let lines = self.source_code@;
        let t = self@;
        self.lemma_text_shape();
        lemma_contiguous_text(lines);
        lemma_nth_line(lines, j);
        lemma_position_in_line(lines, j, 0);
        assert forall|p: int| 0 <= p < t.len() implies (#[trigger] line_number(t, p) < j + 1 <==> p
            < nth_line_start(t, j)) && (line_number(t, p) > j + 1 <==> p >= nth_line_start(
            t,
            j + 1,
        )) by {
            let i = lemma_line_exists(lines, p);
            lemma_position_in_line(lines, i, p - lines[i].start_pos);
        }
        assert forall|p: int|
            nth_line_start(t, j) <= p < nth_line_start(t, j + 1) implies #[trigger] line_start(t, p)
            == nth_line_start(t, j) by {
            lemma_position_in_line(lines, j, p - lines[j].start_pos);
        }
        assert forall|p: int|
            nth_line_start(t, j) <= p < nth_line_start(t, j + 1) implies #[trigger] line_end(t, p)
            == nth_line_start(t, j + 1) - 1 by {
            lemma_position_in_line(lines, j, p - lines[j].start_pos);
        }
    }

    /// The line with index `idx`.
    pub fn line(&self, idx: usize) -> (l: &Line)
        requires
            idx < line_count(self@),
        ensures
            l.wf(),
            l.start_pos == nth_line_start(self@, idx as int),
            l.line@ == nth_line(self@, idx as int),
    {
        proof {
            use_type_invariant(self);
            self.lemma_text_shape();
            lemma_nth_line(self.source_code@, idx as int);
        }
        &self.source_code[idx]
    }

    /// Splits `source_code` on line feeds and stores each piece with a line
    /// feed after it, the last piece too: the text is the input followed by
    /// one line feed.
    pub fn from(source_code: String) -> (sc: Self)
        ensures
            sc.wf(),
            sc@ == source_text(source_code@),
    {
        let mut chars = to_chars(source_code.as_str());
        chars.push('\n');
        let mut lines: Vec<Line> = Vec::new();
        let mut current: Vec<char> = Vec::new();
        let mut pos_count: usize = 0;
        let mut i: usize = 0;
        while i < chars.len()
            invariant
                i <= chars@.len(),
                chars@ == source_code@.push('\n'),
                contiguous(lines@),
                pos_count == lines_text(lines@).len(),
                lines_text(lines@) + current@ == chars@.take(i as int),
                forall|k: int| 0 <= k < current@.len() ==> current@[k] != '\n',
                i == chars@.len() ==> current@.len() == 0 && lines@.len() >= 1,
            decreases chars@.len() - i,
        {
            let c = chars[i];
            proof {
                assert(chars@.take(i as int + 1) =~= chars@.take(i as int).push(c));
            }
            if c == '\n' {
                current.push('\n');
                let ghost before = lines@;
                let line = Line {
                    start_pos: pos_count,
                    end_pos: pos_count + (current.len() - 1),
                    line: current,
                };
                proof {
                    lemma_contiguous_text(before);
                    lemma_lines_text_push(before, line);
                }
                pos_count = line.end_pos + 1;
                lines.push(line);
                current = Vec::new();
            } else {
                current.push(c);
            }
            i += 1;
        }
        let total_lines = lines.len();
        SourceCodeContainer { source_code: lines, total_lines, total_chars: pos_count }
    }

    /// The number of lines.
    pub fn total_lines(&self) -> (n: usize)
        ensures
            n == self.spec_total_lines(),
            n == line_count(self@),
            n >= 1,
    {
        proof {
            use_type_invariant(self);
            self.lemma_text_shape();
        }
        self.total_lines
    }

    /// The number of characters, the line feed of every line included.
    pub fn total_chars(&self) -> (n: usize)
        ensures
            n == self.spec_total_chars(),
            n == self@.len(),
            n >= 1,
            self@[n - 1] == '\n',
    {
        proof {
            use_type_invariant(self);
        }
        self.total_chars
    }

    /// The character at offset `pos`, or `None` past the end of the text.
    pub fn char_at(&self, pos: usize) -> (c: Option<char>)
        ensures
            c == if pos < self@.len() {
                Some(self@[pos as int])
            } else {
                None
            },
    {
        proof {
            use_type_invariant(self);
            lemma_contiguous_text(self.source_code@);
        }
        if pos >= self.total_chars {
            return None;
        }
        let mut idx: usize = 0;
        while idx < self.source_code.len()
            invariant
                self.wf(),
                pos < self.total_chars,
                idx <= self.source_code@.len(),
                forall|j: int| 0 <= j < idx ==> self.source_code@[j].end_pos < pos,
            decreases self.source_code@.len() - idx,
        {
            let l = &self.source_code[idx];
            if pos > l.end_pos {
                idx += 1;
                continue ;
            }
            proof {
                lemma_contiguous_text(self.source_code@);
                if idx > 0 {
                    assert(self.source_code@[idx - 1 + 1].start_pos == self.source_code@[idx
                        - 1].end_pos + 1);
                }
            }
            return Some(l.get_char_relative(pos));
        }
        None
    }

    /// The text from offset `start_pos` to offset `end_pos`, both included;
    /// `None` if the range is empty or reaches past the end of the text.
    pub fn get_text(&self, start_pos: usize, end_pos: usize) -> (text: Option<String>)
        ensures
            match text {
                Some(s) => text_between(self@, start_pos as int, end_pos as int) == Some(s@),
                None => text_between(self@, start_pos as int, end_pos as int) is None,
            },
    {
        proof {
            use_type_invariant(self);
            lemma_contiguous_text(self.source_code@);
        }
        if start_pos > end_pos || end_pos > self.total_chars - 1 {
            return None;
        }
        let mut text_data = String::new();
        let mut idx: usize = 0;
        while idx < self.source_code.len() && start_pos > self.source_code[idx].end_pos
            invariant
                self.wf(),
                start_pos < self.total_chars,
                idx <= self.source_code@.len(),
                forall|j: int| 0 <= j < idx ==> self.source_code@[j].end_pos < start_pos,
            decreases self.source_code@.len() - idx,
        {
            idx += 1;
        }
        proof {
            if idx > 0 {
                assert(self.source_code@[idx - 1 + 1].start_pos == self.source_code@[idx
                    - 1].end_pos + 1);
            }
        }
        let mut c_pos: usize = start_pos;
        let mut vec_idx: usize = idx;
        while c_pos <= end_pos
            invariant
                self.wf(),
                start_pos <= c_pos <= end_pos + 1,
                end_pos < self.total_chars,
                c_pos <= end_pos ==> vec_idx < self.source_code@.len()
                    && self.source_code@[vec_idx as int].start_pos <= c_pos
                    <= self.source_code@[vec_idx as int].end_pos,
                text_data@ == self@.subrange(start_pos as int, c_pos as int),
            decreases end_pos + 1 - c_pos,
        {
            let l = &self.source_code[vec_idx];
            proof {
                lemma_contiguous_text(self.source_code@);
            }
            text_data.push(l.get_char_relative(c_pos));
            if c_pos == l.end_pos {
                vec_idx += 1;
            }
            c_pos += 1;
        }
        Some(text_data)
    }

    /// The 1-based line and column of offset `pos`. Past the end of the text
    /// the answer is the number of lines and column 0.
    pub fn get_line_and_column(&self, pos: usize) -> (lc: (usize, usize))
        ensures
            (lc.0 as int, lc.1 as int) == line_and_column(self@, pos as int),
    {
        proof {
            use_type_invariant(self);
            lemma_contiguous_text(self.source_code@);
            self.lemma_text_shape();
        }
        let mut lineno: usize = 0;
        while lineno < self.source_code.len()
            invariant
                self.wf(),
                lineno <= self.source_code@.len(),
                forall|j: int| 0 <= j < lineno ==> self.source_code@[j].end_pos < pos,
            decreases self.source_code@.len() - lineno,
        {
            let l = &self.source_code[lineno];
            lineno += 1;
            if pos > l.end_pos {
                continue ;
            }
            proof {
                lemma_contiguous_text(self.source_code@);
                if lineno > 1 {
                    assert(self.source_code@[lineno - 2 + 1].start_pos == self.source_code@[lineno
                        - 2].end_pos + 1);
                }
                lemma_position_in_line(self.source_code@, lineno - 1, pos - l.start_pos);
            }
            return (lineno, l.get_relative_pos(pos) + 1);
        }
        (lineno, 0)
    }

    /// The position of offset `pos`: what [`Self::get_line_and_column`]
    /// answers for it.
    pub fn position(&self, pos: usize) -> (place: Position)
        ensures
            (place.line as int, place.column as int) == line_and_column(self@, pos as int),
    {
        let (line, column) = self.get_line_and_column(pos);
        Position { line, column }
    }

    /// The lines that the offsets from `start_pos` to `end_pos` touch, as one
    /// text, trimmed, with the place of the span in it.
    pub fn get_error_source(&self, start_pos: usize, end_pos: usize) -> (source: ErrorSource)
        requires
            start_pos <= end_pos < self@.len(),
        ensures
            source@ == touched_lines(self@, start_pos as int, end_pos as int).trimmed(),
    {
        let ghost t = self@;
        let ghost first = line_number(t, start_pos as int) - 1;
        let ghost last = line_number(t, end_pos as int) - 1;
        let total_lines = self.total_lines();
        let mut line = String::new();
        let mut rel_start_pos: usize = 0;
        let mut started = false;
        let mut idx: usize = 0;
        let mut past = false;
        proof {
            use_type_invariant(self);
            self.lemma_line_layout(0);
            self.lemma_line_layout(total_lines - 1);
            self.lemma_line_layout(first);
            self.lemma_line_layout(last);
        }
        while idx < total_lines && !past
            invariant
                self.wf(),
                t == self@,
                total_lines == line_count(t),
                start_pos <= end_pos < t.len(),
                first == line_number(t, start_pos as int) - 1,
                last == line_number(t, end_pos as int) - 1,
                0 <= first <= last < total_lines,
                idx <= total_lines,
                !past ==> idx <= last + 1,
                past ==> idx == last + 1,
                started == (idx > first),
                !started ==> line@.len() == 0,
                started ==> 0 <= nth_line_start(t, first) <= nth_line_start(t, idx as int) <= t.len(),
                started ==> rel_start_pos == start_pos - line_start(t, start_pos as int) && line@
                    == t.subrange(nth_line_start(t, first), nth_line_start(t, idx as int)),
            decreases total_lines - idx, if past { 0int } else { 1int },
        {
            let l = self.line(idx);
            proof {
                self.lemma_line_layout(idx as int);
            }
            if start_pos > l.end_pos {
                idx += 1;
            } else if end_pos < l.start_pos {
                past = true;
            } else {
                if !started {
                    rel_start_pos = l.get_relative_pos(start_pos);
                    started = true;
                }
                let text = string_of(&l.line, 0, l.line.len());
                line.append(text.as_str());
                idx += 1;
            }
        }
        let rel_end_pos = rel_start_pos + (end_pos - start_pos);
        let mut error_src = ErrorSource {
            line: line,
            mark_start: rel_start_pos,
            mark_stop: rel_end_pos,
        };
        error_src.trim_line();
        error_src
    }
}

/// The source lines that a span touches, joined into one text, with the
/// place of the span in it: the columns of its first and of its last
/// character, counted from 0.
#[derive(Debug)]
pub struct ErrorSource {
    pub line: String,
    pub mark_start: usize,
    pub mark_stop: usize,
}

/// What an [`ErrorSource`] holds, as plain mathematical values.
pub struct ErrorSourceView {
    pub line: Seq<char>,
    pub mark_start: usize,
    pub mark_stop: usize,
}

impl View for ErrorSource {
    type V = ErrorSourceView;

    open spec fn view(&self) -> ErrorSourceView {
        ErrorSourceView { line: self.line@, mark_start: self.mark_start, mark_stop: self.mark_stop }
    }
}

/// The lines of the text `t` that the offsets from `start` to `end` touch,
/// whole and joined, with the columns of `start` and of `end` in them.
pub open spec fn touched_lines(t: Seq<char>, start: int, end: int) -> ErrorSourceView {
    let column = start - line_start(t, start);
    ErrorSourceView {
        line: t.subrange(line_start(t, start), line_end(t, end) + 1),
        mark_start: column as usize,
        mark_stop: (column + (end - start)) as usize,
    }
}

impl ErrorSourceView {
    /// Where trimming cuts the text: after its leading whitespace and after
    /// its last character that is not whitespace; nowhere if it is all
    /// whitespace.
    pub open spec fn cut(self) -> (int, int) {
        if leading_whitespace(self.line) == self.line.len() {
            (0, self.line.len() as int)
        } else {
            (leading_whitespace(self.line), trailing_end(self.line))
        }
    }

    /// The text without the whitespace at its ends, and the marks moved with
    /// it: left by what was cut at the start, not below 0, and not beyond the
    /// length that is left.
    pub open spec fn trimmed(self) -> ErrorSourceView {
        let (from, to) = self.cut();
        ErrorSourceView {
            line: self.line.subrange(from, to),
            mark_start: shifted(self.mark_start, from, to - from),
            mark_stop: shifted(self.mark_stop, from, to - from),
        }
    }
}

impl ErrorSource {
    /// Trims the whitespace at both ends of the text and moves the marks
    /// with it.
    pub fn trim_line(&mut self)
        ensures
            final(self)@ == old(self)@.trimmed(),
    {
        let chars = to_chars(self.line.as_str());
        let lead = first_non_whitespace(&chars);
        proof {
            lemma_strip_bounds(chars@);
        }
        let (trimmed_start, trimmed_end) = if lead == chars.len() {
            (0, chars.len())
        } else {
            (lead, last_non_whitespace_end(&chars))
        };
        self.line = string_of(&chars, trimmed_start, trimmed_end);
        let len = trimmed_end - trimmed_start;
        self.mark_start = shift_column(self.mark_start, trimmed_start, len);
        self.mark_stop = shift_column(self.mark_stop, trimmed_start, len);
    }
}

/// Trimming is a fixed point: a text with marks that was trimmed is not
/// changed by trimming it again.
pub proof fn lemma_trim_line_idempotent(e: ErrorSourceView)
    ensures
        e.trimmed().trimmed() == e.trimmed(),
{
    let once = e.trimmed();
    lemma_strip_bounds(e.line);
    let (from, to) = e.cut();
    if leading_whitespace(e.line) == e.line.len() {
        assert(once.line =~= e.line);
    }
    assert(once.line.subrange(0, once.line.len() as int) =~= once.line);
}

} // verus!
