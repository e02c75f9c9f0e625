//! Character classes and small text-building helpers shared by every stage.
use vstd::prelude::*;

verus! {

/// Whether `c` has the Unicode `White_Space` property.
pub uninterp spec fn whitespace(c: char) -> bool;

/// Whether `c` has the Unicode `Alphabetic` property.
pub uninterp spec fn alphabetic(c: char) -> bool;

/// Whether `c` is alphabetic or belongs to one of the Unicode numeric
/// categories.
pub uninterp spec fn alphanumeric(c: char) -> bool;

/// `char::is_whitespace` of std. Its result is a property of the character
/// alone, looked up in the Unicode tables; the contract only gives it a name.
pub assume_specification[ char::is_whitespace ](c: char) -> (b: bool)
    ensures
        b == whitespace(c),
;

/// `char::is_alphabetic` of std. Its result is a property of the character
/// alone, looked up in the Unicode tables; the contract only gives it a name.
pub assume_specification[ char::is_alphabetic ](c: char) -> (b: bool)
    ensures
        b == alphabetic(c),
;

/// `char::is_alphanumeric` of std. Its result is a property of the character
/// alone, looked up in the Unicode tables; the contract only gives it a name.
pub assume_specification[ char::is_alphanumeric ](c: char) -> (b: bool)
    ensures
        b == alphanumeric(c),
;

/// `String::push` of std: the character is appended at the end of the string
/// and nothing else changes.
pub assume_specification[ std::string::String::push ](s: &mut std::string::String, c: char)
    ensures
        final(s)@ == old(s)@.push(c),
;

/// Whether `c` is one of the ten ASCII decimal digits.
pub open spec fn is_digit(c: char) -> bool {
    '0' <= c <= '9'
}

/// Decides [`is_digit`].
pub fn char_is_digit(c: char) -> (b: bool)
    ensures
        b == is_digit(c),
{
    '0' <= c && c <= '9'
}

/// The characters of `s`, in order.
pub fn to_chars(s: &str) -> (v: Vec<char>)
    ensures
        v@ == s@,
{
    let mut v: Vec<char> = Vec::new();
    for c in it: s.chars()
        invariant
            it.seq() == s@,
            v@ == s@.take(it.index() as int),
    {
        v.push(c);
    }
    v
}

/// The string made of the characters `v[from..to]`.
pub fn string_of(v: &Vec<char>, from: usize, to: usize) -> (s: String)
    requires
        from <= to <= v@.len(),
    ensures
        s@ == v@.subrange(from as int, to as int),
{
    let mut s = String::new();
    let mut i: usize = from;
    while i < to
        invariant
            from <= i <= to <= v@.len(),
            s@ == v@.subrange(from as int, i as int),
        decreases to - i,
    {
        s.push(v[i]);
        i += 1;
    }
    s
}

/// The value of the decimal digit `c`.
pub open spec fn digit_value(c: char) -> int {
    c as int - '0' as int
}

/// The number that the decimal digits `s` write.
pub open spec fn decimal_value(s: Seq<char>) -> nat
    decreases s.len(),
{
    if s.len() == 0 {
        0
    } else {
        (decimal_value(s.drop_last()) * 10 + digit_value(s.last())) as nat
    }
}

/// Every character of `s` is a decimal digit.
pub open spec fn all_digits(s: Seq<char>) -> bool {
    forall|i: int| 0 <= i < s.len() ==> is_digit(#[trigger] s[i])
}

/// The integer that `s` writes in decimal digits: `s` must be one or more
/// decimal digits and nothing else, and their value must fit an `i64`.
pub open spec fn parsed_decimal(s: Seq<char>) -> Option<i64> {
    if s.len() > 0 && all_digits(s) && decimal_value(s) <= i64::MAX {
        Some(decimal_value(s) as i64)
    } else {
        None
    }
}

/// Computes [`parsed_decimal`].
pub fn parse_decimal(digits: &Vec<char>) -> (value: Option<i64>)
    ensures
        value == parsed_decimal(digits@),
{
    if digits.len() == 0 {
        return None;
    }
    let mut acc: i64 = 0;
    let mut overflow = false;
    let mut i: usize = 0;
    while i < digits.len()
        invariant
            i <= digits@.len(),
            all_digits(digits@.take(i as int)),
            overflow ==> decimal_value(digits@.take(i as int)) > i64::MAX,
            !overflow ==> acc == decimal_value(digits@.take(i as int)),
        decreases digits@.len() - i,
    {
        let c = digits[i];
        let ghost before = digits@.take(i as int);
        let ghost now = digits@.take(i + 1);
        proof {
            assert(now.drop_last() =~= before);
        }
        if !char_is_digit(c) {
            return None;
        }
        let d: i64 = (c as u32 - '0' as u32) as i64;
        if overflow || acc > (i64::MAX - d) / 10 {
            overflow = true;
        } else {
            acc = acc * 10 + d;
        }
        i += 1;
    }
    proof {
        assert(digits@.take(i as int) =~= digits@);
    }
    if overflow {
        None
    } else {
        Some(acc)
    }
}

/// Whether `s` writes a number with a decimal point: decimal digits, at least
/// one of them, around exactly one point.
pub open spec fn is_float_literal(s: Seq<char>) -> bool {
    exists|dot: int| #[trigger] is_point_of(s, dot)
}

/// `dot` is the place of the one decimal point of `s`, and all the rest of `s`
/// is decimal digits, at least one.
pub open spec fn is_point_of(s: Seq<char>, dot: int) -> bool {
    &&& 0 <= dot < s.len()
    &&& s.len() >= 2
    &&& s[dot] == '.'
    &&& forall|j: int| 0 <= j < s.len() && j != dot ==> is_digit(#[trigger] s[j])
}

/// Decides [`is_float_literal`].
pub fn check_float_literal(chars: &Vec<char>) -> (valid: bool)
    ensures
        valid == is_float_literal(chars@),
{
    let n = chars.len();
    let mut dot: usize = 0;
    while dot < n && chars[dot] != '.'
        invariant
            dot <= n == chars@.len(),
            forall|j: int| 0 <= j < dot ==> chars@[j] != '.',
        decreases n - dot,
    {
        dot += 1;
    }
    if dot == n || n < 2 {
        proof {
            assert forall|d: int| !is_point_of(chars@, d) by {}
        }
        return false;
    }
    let mut j: usize = 0;
    while j < n
        invariant
            j <= n == chars@.len(),
            dot < n,
            chars@[dot as int] == '.',
            forall|k: int| 0 <= k < j && k != dot ==> is_digit(#[trigger] chars@[k]),
        decreases n - j,
    {
        if j != dot && !char_is_digit(chars[j]) {
            return false;
        }
        j += 1;
    }
    proof {
        assert(is_point_of(chars@, dot as int));
    }
    true
}

/// Whether the two strings hold the same characters.
pub fn same_text(a: &str, b: &str) -> (same: bool)
    ensures
        same == (a@ == b@),
{
    let x = to_chars(a);
    let y = to_chars(b);
    if x.len() != y.len() {
        return false;
    }
    let mut i: usize = 0;
    while i < x.len()
        invariant
            i <= x@.len() == y@.len(),
            x@ == a@,
            y@ == b@,
            x@.take(i as int) == y@.take(i as int),
        decreases x@.len() - i,
    {
        if x[i] != y[i] {
            return false;
        }
        i += 1;
    }
    proof {
        assert(x@.take(i as int) =~= x@);
        assert(y@.take(i as int) =~= y@);
    }
    true
}

/// The end of the longest run of characters of the class `member` that starts
/// at offset `from`: the first offset at or after `from` whose character is
/// not in the class, or the length of `t`.
pub open spec fn run_end(t: Seq<char>, from: int, member: spec_fn(char) -> bool) -> int
    decreases t.len() - from,
{
    if 0 <= from < t.len() && member(t[from]) {
        run_end(t, from + 1, member)
    } else {
        from
    }
}

/// A run ends at or after its start and within the text, every character of
/// it is in the class, and the character at its end is not.
pub proof fn lemma_run_end(t: Seq<char>, from: int, member: spec_fn(char) -> bool)
    requires
        0 <= from <= t.len(),
    ensures
        from <= run_end(t, from, member) <= t.len(),
        forall|i: int| from <= i < run_end(t, from, member) ==> member(#[trigger] t[i]),
        run_end(t, from, member) < t.len() ==> !member(t[run_end(t, from, member)]),
    decreases t.len() - from,
{
    if from < t.len() && member(t[from]) {
        lemma_run_end(t, from + 1, member);
    }
}

/// A run that is followed step by step: if all of `t[from..to]` is in the
/// class, the run from `from` ends where the run from `to` ends.
pub proof fn lemma_run_end_step(t: Seq<char>, from: int, to: int, member: spec_fn(char) -> bool)
    requires
        0 <= from <= to <= t.len(),
        forall|i: int| from <= i < to ==> member(#[trigger] t[i]),
    ensures
        run_end(t, from, member) == run_end(t, to, member),
    decreases to - from,
{
    if from < to {
        lemma_run_end_step(t, from + 1, to, member);
    }
}

/// If all of `t[from..to]` is in the class, and the character at `to` is not
/// or `to` is the end of the text, then the run from `from` ends at `to`.
pub proof fn lemma_run_end_is(t: Seq<char>, from: int, to: int, member: spec_fn(char) -> bool)
    requires
        0 <= from <= to <= t.len(),
        forall|i: int| from <= i < to ==> member(#[trigger] t[i]),
        to < t.len() ==> !member(t[to]),
    ensures
        run_end(t, from, member) == to,
{
    lemma_run_end_step(t, from, to, member);
}

/// The class of the whitespace characters.
pub open spec fn whitespace_chars() -> spec_fn(char) -> bool {
    |c: char| whitespace(c)
}

/// The number of whitespace characters that `s` starts with: the offset of
/// its first character that is not whitespace, or its length.
pub open spec fn leading_whitespace(s: Seq<char>) -> int {
    run_end(s, 0, whitespace_chars())
}

/// The offset right after the last character of `s[..n]` that is not
/// whitespace, or 0 if there is none.
pub open spec fn content_end(s: Seq<char>, n: int) -> int
    decreases n,
{
    if n <= 0 {
        0
    } else if !whitespace(s[n - 1]) {
        n
    } else {
        content_end(s, n - 1)
    }
}

/// The offset right after the last character of `s` that is not whitespace,
/// or 0 if there is none.
pub open spec fn trailing_end(s: Seq<char>) -> int {
    content_end(s, s.len() as int)
}

/// `s` without the whitespace at its start and at its end.
pub open spec fn stripped(s: Seq<char>) -> Seq<char> {
    if leading_whitespace(s) >= trailing_end(s) {
        Seq::empty()
    } else {
        s.subrange(leading_whitespace(s), trailing_end(s))
    }
}

/// What lies before the content's end: it is within `s[..n]`, a character
/// that is not whitespace stands right before it, and only whitespace
/// follows it.
pub proof fn lemma_content_end(s: Seq<char>, n: int)
    requires
        0 <= n <= s.len(),
    ensures
        0 <= content_end(s, n) <= n,
        content_end(s, n) > 0 ==> !whitespace(s[content_end(s, n) - 1]),
        forall|i: int| content_end(s, n) <= i < n ==> whitespace(#[trigger] s[i]),
    decreases n,
{
    if n > 0 && whitespace(s[n - 1]) {
        lemma_content_end(s, n - 1);
    }
}

/// If a character that is not whitespace stands right before `to`, or `to`
/// is 0, and only whitespace stands in `s[to..n]`, the content of `s[..n]`
/// ends at `to`.
pub proof fn lemma_content_end_is(s: Seq<char>, n: int, to: int)
    requires
        0 <= to <= n <= s.len(),
        to > 0 ==> !whitespace(s[to - 1]),
        forall|i: int| to <= i < n ==> whitespace(#[trigger] s[i]),
    ensures
        content_end(s, n) == to,
    decreases n - to,
{
    if to < n {
        lemma_content_end_is(s, n - 1, to);
    }
}

/// Where the leading whitespace of `s` ends and where its content ends:
/// either `s` is all whitespace, or the first lies before the second.
pub proof fn lemma_strip_bounds(s: Seq<char>)
    ensures
        0 <= leading_whitespace(s) <= s.len(),
        0 <= trailing_end(s) <= s.len(),
        leading_whitespace(s) < trailing_end(s) || (leading_whitespace(s) == s.len()
            && trailing_end(s) == 0),
        leading_whitespace(s) < s.len() ==> !whitespace(s[leading_whitespace(s)]),
        trailing_end(s) > 0 ==> !whitespace(s[trailing_end(s) - 1]),
{
    lemma_run_end(s, 0, whitespace_chars());
    lemma_content_end(s, s.len() as int);
}

/// Stripping a stripped text changes nothing, and a stripped text has no
/// whitespace at either end.
pub proof fn lemma_stripped_twice(s: Seq<char>)
    ensures
        leading_whitespace(stripped(s)) == 0,
        trailing_end(stripped(s)) == stripped(s).len(),
        stripped(stripped(s)) == stripped(s),
{
    lemma_strip_bounds(s);
}

/// Computes [`leading_whitespace`].
pub fn first_non_whitespace(chars: &Vec<char>) -> (at: usize)
    ensures
        at == leading_whitespace(chars@),
        at <= chars@.len(),
{
    let mut i: usize = 0;
    while i < chars.len() && chars[i].is_whitespace()
        invariant
            i <= chars@.len(),
            forall|k: int| 0 <= k < i ==> whitespace_chars()(#[trigger] chars@[k]),
        decreases chars@.len() - i,
    {
        i += 1;
    }
    proof {
        lemma_run_end_is(chars@, 0, i as int, whitespace_chars());
    }
    i
}

/// Computes [`trailing_end`].
pub fn last_non_whitespace_end(chars: &Vec<char>) -> (at: usize)
    ensures
        at == trailing_end(chars@),
        at <= chars@.len(),
{
    let mut i: usize = chars.len();
    while i > 0 && chars[i - 1].is_whitespace()
        invariant
            i <= chars@.len(),
            forall|k: int| i <= k < chars@.len() ==> whitespace(#[trigger] chars@[k]),
        decreases i,
    {
        i -= 1;
    }
    proof {
        lemma_content_end_is(chars@, chars@.len() as int, i as int);
    }
    i
}

/// `c`, `n` times.
pub open spec fn repeated(c: char, n: int) -> Seq<char> {
    Seq::new(
        if n >= 0 {
            n as nat
        } else {
            0
        },
        |i: int| c,
    )
}

/// Adds `c` to the end of `s`, `n` times.
pub fn push_repeated(s: &mut String, c: char, n: usize)
    ensures
        final(s)@ == old(s)@ + repeated(c, n as int),
{
    let mut i: usize = 0;
    while i < n
        invariant
            i <= n,
            s@ == old(s)@ + repeated(c, i as int),
        decreases n - i,
    {
        s.push(c);
        i += 1;
    }
}

/// The character that writes the digit `d`.
pub open spec fn digit_char(d: int) -> char {
    if d == 0 {
        '0'
    } else if d == 1 {
        '1'
    } else if d == 2 {
        '2'
    } else if d == 3 {
        '3'
    } else if d == 4 {
        '4'
    } else if d == 5 {
        '5'
    } else if d == 6 {
        '6'
    } else if d == 7 {
        '7'
    } else if d == 8 {
        '8'
    } else {
        '9'
    }
}

/// The decimal digits that write `n`, without leading zeros.
pub open spec fn decimal_text(n: nat) -> Seq<char>
    decreases n,
{
    if n < 10 {
        seq![digit_char(n as int)]
    } else {
        decimal_text(n / 10).push(digit_char((n % 10) as int))
    }
}

/// The digits of a number write that number.
pub proof fn lemma_decimal_text_value(n: nat)
    ensures
        all_digits(decimal_text(n)),
        decimal_value(decimal_text(n)) == n,
        decimal_text(n).len() >= 1,
    decreases n,
{
    let text = decimal_text(n);
    if n < 10 {
        assert(decimal_value(text.drop_last()) == 0);
    } else {
        lemma_decimal_text_value(n / 10);
        assert(text.drop_last() =~= decimal_text(n / 10));
    }
}

/// Decides [`digit_char`].
fn digit_to_char(d: usize) -> (c: char)
    requires
        d < 10,
    ensures
        c == digit_char(d as int),
{
    if d == 0 {
        '0'
    } else if d == 1 {
        '1'
    } else if d == 2 {
        '2'
    } else if d == 3 {
        '3'
    } else if d == 4 {
        '4'
    } else if d == 5 {
        '5'
    } else if d == 6 {
        '6'
    } else if d == 7 {
        '7'
    } else if d == 8 {
        '8'
    } else {
        '9'
    }
}

/// Adds the decimal digits of `n` to the end of `s`.
pub fn push_decimal(s: &mut String, n: usize)
    ensures
        final(s)@ == old(s)@ + decimal_text(n as nat),
    decreases n,
{
    if n >= 10 {
        push_decimal(s, n / 10);
    }
    s.push(digit_to_char(n % 10));
}

/// The column `col` of a line after `cut` characters were taken from the
/// line's start and `len` are left: it moves left by `cut`, not below 0, and
/// not beyond `len`.
pub open spec fn shifted(col: usize, cut: int, len: int) -> usize {
    let moved = if col >= cut {
        col - cut
    } else {
        0
    };
    if moved <= len {
        moved as usize
    } else {
        len as usize
    }
}

/// Decides [`shifted`].
pub fn shift_column(col: usize, cut: usize, len: usize) -> (c: usize)
    ensures
        c == shifted(col, cut as int, len as int),
{
    let moved = if col >= cut {
        col - cut
    } else {
        0
    };
    if moved <= len {
        moved
    } else {
        len
    }
}

} // verus!
