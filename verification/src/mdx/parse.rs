//! MML source parsing: lines, channels, commands, lengths and repeat blocks.
use vstd::prelude::*;

use super::compile::is_note_name;
use super::mml::{Accidental, MmlCommand, MmlDocument, MmlLength, MmlTrack, MmlVoice, ParseError};
use crate::text::{
    chars_of, decimal, push_char, push_chars, push_decimal, push_signed_decimal, push_str,
    signed_decimal,
};

verus! {

broadcast use vstd::std_specs::vec::group_vec_axioms;

/// A decimal digit.
pub open spec fn is_digit(c: char) -> bool {
    '0' <= c <= '9'
}

/// A blank that separates tokens within a line.
pub open spec fn is_blank(c: char) -> bool {
    c == ' ' || c == '\t'
}

/// The value of a run of decimal digits.
pub open spec fn digits_value(s: Seq<char>) -> nat
    decreases s.len(),
{
    if s.len() == 0 {
        0
    } else {
        digits_value(s.drop_last()) * 10 + (s.last() as nat - '0' as nat) as nat
    }
}

pub open spec fn all_digits(s: Seq<char>) -> bool {
    forall|i: int| 0 <= i < s.len() ==> is_digit(#[trigger] s[i])
}

/// A longer run of digits never has a smaller value.
proof fn lemma_digits_value_prefix(s: Seq<char>, k: int)
    requires
        0 <= k <= s.len(),
        all_digits(s),
    ensures
        digits_value(s.subrange(0, k)) <= digits_value(s),
    decreases s.len() - k,
{
    if k < s.len() {
        lemma_digits_value_prefix(s, k + 1);
        assert(s.subrange(0, k + 1).drop_last() =~= s.subrange(0, k));
    } else {
        assert(s.subrange(0, k) =~= s);
    }
}

/// The end of the blanks that start at `pos`.
pub open spec fn blanks_end(chars: Seq<char>, pos: int) -> int
    decreases chars.len() - pos,
{
    if 0 <= pos < chars.len() && is_blank(chars[pos]) {
        blanks_end(chars, pos + 1)
    } else {
        pos
    }
}

/// Blanks end at or after where they start.
pub proof fn lemma_blanks_end_bounds(chars: Seq<char>, pos: int)
    requires
        0 <= pos,
    ensures
        pos <= blanks_end(chars, pos),
        pos <= chars.len() ==> blanks_end(chars, pos) <= chars.len(),
    decreases chars.len() - pos,
{
    if pos < chars.len() && is_blank(chars[pos]) {
        lemma_blanks_end_bounds(chars, pos + 1);
    }
}

/// The end of the decimal digits that start at `pos`.
pub open spec fn digits_end(chars: Seq<char>, pos: int) -> int
    decreases chars.len() - pos,
{
    if 0 <= pos < chars.len() && is_digit(chars[pos]) {
        digits_end(chars, pos + 1)
    } else {
        pos
    }
}

/// The end of the dots that start at `pos`.
pub open spec fn dots_end(chars: Seq<char>, pos: int) -> int
    decreases chars.len() - pos,
{
    if 0 <= pos < chars.len() && chars[pos] == '.' {
        dots_end(chars, pos + 1)
    } else {
        pos
    }
}

fn skip_blanks(chars: &Vec<char>, pos: usize) -> (end: usize)
    requires
        pos <= chars@.len(),
    ensures
        end == blanks_end(chars@, pos as int),
        pos <= end <= chars@.len(),
        forall|i: int| pos <= i < end ==> is_blank(#[trigger] chars@[i]),
        end == chars@.len() || !is_blank(chars@[end as int]),
{
    let mut end = pos;
    while end < chars.len() && (chars[end] == ' ' || chars[end] == '\t')
        invariant
            pos <= end <= chars@.len(),
            forall|i: int| pos <= i < end ==> is_blank(#[trigger] chars@[i]),
            blanks_end(chars@, pos as int) == blanks_end(chars@, end as int),
        decreases chars@.len() - end,
    {
        end += 1;
    }
    end
}

/// The end of the digits that start at `pos`.
fn digit_run(chars: &Vec<char>, pos: usize) -> (end: usize)
    requires
        pos <= chars@.len(),
    ensures
        end == digits_end(chars@, pos as int),
        pos <= end <= chars@.len(),
        all_digits(chars@.subrange(pos as int, end as int)),
        end == chars@.len() || !is_digit(chars@[end as int]),
{
    let mut end = pos;
    while end < chars.len() && '0' <= chars[end] && chars[end] <= '9'
        invariant
            pos <= end <= chars@.len(),
            all_digits(chars@.subrange(pos as int, end as int)),
            digits_end(chars@, pos as int) == digits_end(chars@, end as int),
        decreases chars@.len() - end,
    {
        proof {
            assert(chars@.subrange(pos as int, end + 1) =~= chars@.subrange(pos as int, end as int).push(
                chars@[end as int],
            ));
        }
        end += 1;
    }
    end
}

/// The value of the digits in `chars[start..end]`, if it fits an `i32`.
fn digits_to_i32(chars: &Vec<char>, start: usize, end: usize) -> (r: Option<i32>)
    requires
        start <= end <= chars@.len(),
        all_digits(chars@.subrange(start as int, end as int)),
    ensures
        r == (if digits_value(chars@.subrange(start as int, end as int)) <= i32::MAX {
            Some(digits_value(chars@.subrange(start as int, end as int)) as i32)
        } else {
            None::<i32>
        }),
{
    let ghost run = chars@.subrange(start as int, end as int);
    let mut value: i64 = 0;
    let mut index = start;
    while index < end
        invariant
            start <= index <= end <= chars@.len(),
            run == chars@.subrange(start as int, end as int),
            all_digits(run),
            value == digits_value(run.subrange(0, index - start)),
            value <= i32::MAX,
        decreases end - index,
    {
        proof {
            assert(run.subrange(0, index - start + 1).drop_last() =~= run.subrange(0, index - start));
            assert(is_digit(run[index - start]));
        }
        let d = chars[index] as u32 - '0' as u32;
        value = value * 10 + d as i64;
        index += 1;
        if value > 0x7fff_ffff {
            proof {
                lemma_digits_value_prefix(run, index - start);
            }
            return None;
        }
    }
    proof {
        assert(run.subrange(0, end - start) =~= run);
    }
    Some(value as i32)
}

/// The 1-based line of position `pos`: one more than the line breaks before it.
pub open spec fn line_of(chars: Seq<char>, pos: int) -> nat
    decreases pos,
{
    if pos <= 0 {
        1
    } else if chars[pos - 1] == '\n' {
        line_of(chars, pos - 1) + 1
    } else {
        line_of(chars, pos - 1)
    }
}

/// The position where the line holding `pos` starts.
pub open spec fn line_start_of(chars: Seq<char>, pos: int) -> int
    decreases pos,
{
    if pos <= 0 {
        0
    } else if chars[pos - 1] == '\n' {
        pos
    } else {
        line_start_of(chars, pos - 1)
    }
}

proof fn lemma_line_start_bounds(chars: Seq<char>, pos: int)
    requires
        0 <= pos,
    ensures
        0 <= line_start_of(chars, pos) <= pos,
    decreases pos,
{
    if pos > 0 && chars[pos - 1] != '\n' {
        lemma_line_start_bounds(chars, pos - 1);
    }
}

/// A count held in a `usize`, saturating at its maximum.
pub open spec fn saturated(n: nat) -> usize {
    if n <= usize::MAX {
        n as usize
    } else {
        usize::MAX
    }
}

/// The line number and line start of `pos`.
fn locate(chars: &Vec<char>, pos: usize) -> (r: (usize, usize))
    requires
        pos <= chars@.len(),
    ensures
        r.0 == saturated(line_of(chars@, pos as int)),
        r.1 == line_start_of(chars@, pos as int),
        r.1 <= pos,
{
    let mut line: usize = 1;
    let mut start: usize = 0;
    let mut index: usize = 0;
    while index < pos
        invariant
            index <= pos <= chars@.len(),
            line == saturated(line_of(chars@, index as int)),
            start == line_start_of(chars@, index as int),
            start <= index,
        decreases pos - index,
    {
        if chars[index] == '\n' {
            if line < usize::MAX {
                line = line + 1;
            }
            start = index + 1;
        }
        index += 1;
    }
    (line, start)
}

/// The end of the line that starts at `start`: the next line break, or the end of input.
pub open spec fn is_line_end(chars: Seq<char>, start: int, end: int) -> bool {
    &&& start <= end <= chars.len()
    &&& forall|i: int| start <= i < end ==> chars[i] != '\n'
    &&& end == chars.len() || chars[end] == '\n'
}

fn line_end(chars: &Vec<char>, start: usize) -> (end: usize)
    requires
        start <= chars@.len(),
    ensures
        is_line_end(chars@, start as int, end as int),
{
    let mut end = start;
    while end < chars.len() && chars[end] != '\n'
        invariant
            start <= end <= chars@.len(),
            forall|i: int| start <= i < end ==> chars@[i] != '\n',
        decreases chars@.len() - end,
    {
        end += 1;
    }
    end
}

/// The first line break at or after `start`, or the end of input.
pub open spec fn line_end_spec(chars: Seq<char>, start: int) -> int
    decreases chars.len() - start,
{
    if start >= chars.len() || start < 0 || chars[start] == '\n' {
        start
    } else {
        line_end_spec(chars, start + 1)
    }
}

proof fn lemma_line_end_unique(chars: Seq<char>, start: int, end: int)
    requires
        0 <= start,
        is_line_end(chars, start, end),
    ensures
        line_end_spec(chars, start) == end,
    decreases end - start,
{
    if start < end {
        lemma_line_end_unique(chars, start + 1, end);
    }
}

/// The text of the line that starts at `start`, without its line break or a carriage return.
pub open spec fn line_text(chars: Seq<char>, start: int) -> Seq<char> {
    let end = line_end_spec(chars, start);
    if end > start && chars[end - 1] == '\r' {
        chars.subrange(start, end - 1)
    } else {
        chars.subrange(start, end)
    }
}

/// How a message names the character where parsing stopped.
pub open spec fn unexpected_text(chars: Seq<char>, at: int) -> Seq<char> {
    if at >= chars.len() {
        "end of input"@
    } else if chars[at] == '\n' || chars[at] == '\r' {
        "end of line"@
    } else if chars[at] == '\t' {
        seq!['\'', '\\', 't', '\'']
    } else {
        seq!['\'', chars[at], '\'']
    }
}

/// `n` spaces.
pub open spec fn spaces(n: nat) -> Seq<char> {
    Seq::new(n, |i: int| ' ')
}

/// The 1-based column of `at`, counted in characters from the start of its line.
pub open spec fn column_of(chars: Seq<char>, at: int) -> nat {
    (at - line_start_of(chars, at) + 1) as nat
}

/// The diagnostic for input that stops matching the grammar at `at`.
pub open spec fn syntax_message(chars: Seq<char>, at: int, expected: Seq<char>) -> Seq<char> {
    let column = column_of(chars, at);
    "MML syntax error at line "@ + decimal(saturated(line_of(chars, at)) as nat) + ", columns "@
        + decimal(saturated(column) as nat) + "-"@ + decimal(saturated(column + 1) as nat)
        + ": unexpected "@ + unexpected_text(chars, at) + "\n  "@ + line_text(
        chars,
        line_start_of(chars, at),
    ) + "\n  "@ + spaces((column - 1) as nat) + "^\n  expected: "@ + expected
}

fn push_spaces(text: &mut String, n: usize)
    ensures
        final(text)@ == old(text)@ + spaces(n as nat),
{
    let mut index: usize = 0;
    while index < n
        invariant
            index <= n,
            text@ == old(text)@ + spaces(index as nat),
        decreases n - index,
    {
        push_char(text, ' ');
        proof {
            assert(spaces((index + 1) as nat) =~= spaces(index as nat).push(' '));
        }
        index += 1;
    }
}

/// Build the diagnostic for input that stops matching the grammar at `at`.
fn syntax_message_at(chars: &Vec<char>, at: usize, expected: &str) -> (message: String)
    requires
        at <= chars@.len(),
    ensures
        message@ == syntax_message(chars@, at as int, expected@),
{
    let (line, start) = locate(chars, at);
    let offset = at - start;
    let column: usize = if offset < usize::MAX {
        offset + 1
    } else {
        usize::MAX
    };
    let next: usize = if column < usize::MAX {
        column + 1
    } else {
        usize::MAX
    };
    let end = line_end(chars, start);
    proof {
        lemma_line_end_unique(chars@, start as int, end as int);
    }
    let text_end = if end > start && chars[end - 1] == '\r' {
        end - 1
    } else {
        end
    };
    let mut message = String::new();
    push_str(&mut message, "MML syntax error at line ");
    push_decimal(&mut message, line as u64);
    push_str(&mut message, ", columns ");
    push_decimal(&mut message, column as u64);
    push_str(&mut message, "-");
    push_decimal(&mut message, next as u64);
    push_str(&mut message, ": unexpected ");
    if at >= chars.len() {
        push_str(&mut message, "end of input");
    } else if chars[at] == '\n' || chars[at] == '\r' {
        push_str(&mut message, "end of line");
    } else if chars[at] == '\t' {
        push_chars(&mut message, &['\'', '\\', 't', '\'']);
    } else {
        push_chars(&mut message, &['\'', chars[at], '\'']);
    }
    push_str(&mut message, "\n  ");
    push_chars(&mut message, vstd::slice::slice_subrange(chars.as_slice(), start, text_end));
    push_str(&mut message, "\n  ");
    push_spaces(&mut message, offset);
    push_str(&mut message, "^\n  expected: ");
    push_str(&mut message, expected);
    message
}

/// A problem found once the source matches the grammar.
#[derive(Clone, Copy)]
pub enum ValueFailure {
    /// A value outside the inclusive range of its command, found in `chars[start..end]`.
    OutOfRange { command: &'static str, value: i32, min: i32, max: i32, start: usize, end: usize },
    /// Digits too many for a 32-bit integer.
    TooLarge { command: &'static str },
}

/// A recorded failure names a value outside its range, at a non-empty span of the input.
spec fn pending_ok(first: Option<ValueFailure>, len: nat) -> bool {
    first matches Some(ValueFailure::OutOfRange { value, min, max, start, end, .. }) ==> (value < min
        || value > max) && start < end <= len
}

/// Check `min <= value <= max`, recording the failure when it is the first one.
fn check_range(
    first: &mut Option<ValueFailure>,
    command: &'static str,
    value: i32,
    min: i32,
    max: i32,
    start: usize,
    end: usize,
) -> (ok: bool)
    requires
        *old(first) is None,
    ensures
        ok == (min <= value <= max),
        *final(first) == (if ok {
            None::<ValueFailure>
        } else {
            Some(ValueFailure::OutOfRange { command, value, min, max, start, end })
        }),
{
    if min <= value && value <= max {
        true
    } else {
        *first = Some(ValueFailure::OutOfRange { command, value, min, max, start, end });
        false
    }
}

/// The value of the digits in `chars[start..end]` checked against `min..=max`, and the
/// failure record after it: a failure already recorded stays and skips the check.
pub open spec fn ranged_number_spec(
    chars: Seq<char>,
    start: int,
    end: int,
    first: Option<ValueFailure>,
    command: &'static str,
    min: i32,
    max: i32,
) -> (i32, Option<ValueFailure>) {
    if first is Some {
        (min, first)
    } else {
        let digits = digits_value(chars.subrange(start, end));
        if digits <= i32::MAX {
            let value = digits as i32;
            (
                value,
                if min <= value <= max {
                    None
                } else {
                    Some(
                        ValueFailure::OutOfRange {
                            command,
                            value,
                            min,
                            max,
                            start: start as usize,
                            end: end as usize,
                        },
                    )
                },
            )
        } else {
            (min, Some(ValueFailure::TooLarge { command }))
        }
    }
}

/// The value of the digits in `chars[start..end]`, checked against `min..=max`.
fn ranged_number(
    chars: &Vec<char>,
    start: usize,
    end: usize,
    first: &mut Option<ValueFailure>,
    command: &'static str,
    min: i32,
    max: i32,
) -> (v: i32)
    requires
        start < end <= chars@.len(),
        all_digits(chars@.subrange(start as int, end as int)),
        pending_ok(*old(first), chars@.len()),
    ensures
        (v, *final(first)) == ranged_number_spec(
            chars@,
            start as int,
            end as int,
            *old(first),
            command,
            min,
            max,
        ),
        *old(first) is Some ==> *final(first) == *old(first),
        *final(first) is None ==> *old(first) is None && min <= v <= max && v == digits_value(
            chars@.subrange(start as int, end as int),
        ),
        pending_ok(*final(first), chars@.len()),
{
    if first.is_some() {
        return min;
    }
    match digits_to_i32(chars, start, end) {
        Some(value) => {
            check_range(first, command, value, min, max, start, end);
            value
        },
        None => {
            *first = Some(ValueFailure::TooLarge { command });
            min
        },
    }
}

/// One term of a length expression: `%`? digits, then dots, in `chars[start..end]`.
#[derive(Clone, Copy)]
pub struct LengthTerm {
    pub ticks: bool,
    pub start: usize,
    pub digits_start: usize,
    pub digits_end: usize,
    pub end: usize,
}

spec fn term_wf(chars: Seq<char>, term: LengthTerm) -> bool {
    &&& term.start <= term.digits_start < term.digits_end <= term.end <= chars.len()
    &&& term.digits_start == term.start + (if term.ticks {
        1int
    } else {
        0int
    })
    &&& term.ticks ==> chars[term.start as int] == '%'
    &&& all_digits(chars.subrange(term.digits_start as int, term.digits_end as int))
    &&& forall|i: int| term.digits_end <= i < term.end ==> #[trigger] chars[i] == '.'
}

/// Where the source stops matching the grammar, and what it should have held there.
pub struct SyntaxFailure {
    pub at: usize,
    pub expected: &'static str,
}

/// A term of a length expression at `pos`: an optional `%`, digits, then dots.
pub open spec fn length_term_spec(chars: Seq<char>, pos: int) -> Result<LengthTerm, SyntaxFailure> {
    let ticks = pos < chars.len() && chars[pos] == '%';
    let digits_start = if ticks {
        pos + 1
    } else {
        pos
    };
    let digits_stop = digits_end(chars, digits_start);
    if digits_stop == digits_start {
        Err(SyntaxFailure { at: digits_start as usize, expected: "note length" })
    } else {
        Ok(
            LengthTerm {
                ticks,
                start: pos as usize,
                digits_start: digits_start as usize,
                digits_end: digits_stop as usize,
                end: dots_end(chars, digits_stop) as usize,
            },
        )
    }
}

fn length_term(chars: &Vec<char>, pos: usize) -> (r: Result<LengthTerm, SyntaxFailure>)
    requires
        pos <= chars@.len(),
    ensures
        r == length_term_spec(chars@, pos as int),
        r matches Ok(term) ==> term_wf(chars@, term) && term.start == pos,
        r matches Err(failure) ==> failure.at <= chars@.len(),
{
    let ticks = pos < chars.len() && chars[pos] == '%';
    let digits_start = if ticks {
        pos + 1
    } else {
        pos
    };
    let digits_end = digit_run(chars, digits_start);
    if digits_end == digits_start {
        return Err(SyntaxFailure { at: digits_start, expected: "note length" });
    }
    let mut end = digits_end;
    while end < chars.len() && chars[end] == '.'
        invariant
            digits_end <= end <= chars@.len(),
            forall|i: int| digits_end <= i < end ==> #[trigger] chars@[i] == '.',
            dots_end(chars@, digits_end as int) == dots_end(chars@, end as int),
        decreases chars@.len() - end,
    {
        end += 1;
    }
    Ok(LengthTerm { ticks, start: pos, digits_start, digits_end, end })
}

/// A whole length expression: terms joined by `^` (add) or `~` (subtract).
pub struct LengthSyntax {
    pub terms: Vec<LengthTerm>,
    pub adds: Vec<bool>,
    pub end: usize,
}

spec fn length_syntax_wf(chars: Seq<char>, syntax: LengthSyntax, pos: int) -> bool {
    &&& syntax.terms@.len() == syntax.adds@.len() + 1
    &&& syntax.terms@[0].start == pos
    &&& forall|i: int| 0 <= i < syntax.terms@.len() ==> term_wf(chars, #[trigger] syntax.terms@[i])
    &&& syntax.terms@.last().end == syntax.end
    &&& pos < syntax.end <= chars.len()
}

/// The terms after `end` that join on with `^` or `~`: all terms, whether each
/// joined term adds, and the end of the expression.
pub open spec fn length_terms_from(
    chars: Seq<char>,
    end: int,
    terms: Seq<LengthTerm>,
    adds: Seq<bool>,
) -> Result<(Seq<LengthTerm>, Seq<bool>, int), SyntaxFailure>
    decreases chars.len() - end,
{
    let operator = blanks_end(chars, end);
    if 0 <= operator < chars.len() && (chars[operator] == '^' || chars[operator] == '~') {
        match length_term_spec(chars, blanks_end(chars, operator + 1)) {
            Err(failure) => Err(failure),
            Ok(term) => if end < term.end <= chars.len() {
                length_terms_from(chars, term.end as int, terms.push(term), adds.push(chars[operator] == '^'))
            } else {
                Ok((terms, adds, end))
            },
        }
    } else {
        Ok((terms, adds, end))
    }
}

/// A length expression at `pos`: terms joined by `^` (add) or `~` (subtract).
pub open spec fn length_syntax_spec(chars: Seq<char>, pos: int) -> Result<
    (Seq<LengthTerm>, Seq<bool>, int),
    SyntaxFailure,
> {
    match length_term_spec(chars, pos) {
        Err(failure) => Err(failure),
        Ok(term) => length_terms_from(chars, term.end as int, seq![term], seq![]),
    }
}

/// The syntax a parsed length expression stands for.
pub open spec fn syntax_view(syntax: LengthSyntax) -> (Seq<LengthTerm>, Seq<bool>, int) {
    (syntax.terms@, syntax.adds@, syntax.end as int)
}

fn length_syntax(chars: &Vec<char>, pos: usize) -> (r: Result<LengthSyntax, SyntaxFailure>)
    requires
        pos <= chars@.len(),
    ensures
        r matches Ok(syntax) ==> length_syntax_spec(chars@, pos as int) == Ok::<
            (Seq<LengthTerm>, Seq<bool>, int),
            SyntaxFailure,
        >(syntax_view(syntax)),
        r matches Err(failure) ==> length_syntax_spec(chars@, pos as int) == Err::<
            (Seq<LengthTerm>, Seq<bool>, int),
            SyntaxFailure,
        >(failure),
        r matches Ok(syntax) ==> length_syntax_wf(chars@, syntax, pos as int),
        r matches Err(failure) ==> failure.at <= chars@.len(),
{
    let first_term = length_term(chars, pos)?;
    let mut terms: Vec<LengthTerm> = Vec::new();
    let mut adds: Vec<bool> = Vec::new();
    terms.push(first_term);
    let mut end = first_term.end;
    loop
        invariant
            terms@.len() == adds@.len() + 1,
            terms@[0].start == pos,
            forall|i: int| 0 <= i < terms@.len() ==> term_wf(chars@, #[trigger] terms@[i]),
            terms@.last().end == end,
            pos < end <= chars@.len(),
            length_syntax_spec(chars@, pos as int) == length_terms_from(
                chars@,
                end as int,
                terms@,
                adds@,
            ),
        ensures
            length_syntax_spec(chars@, pos as int) == Ok::<
                (Seq<LengthTerm>, Seq<bool>, int),
                SyntaxFailure,
            >((terms@, adds@, end as int)),
        decreases chars@.len() - end,
    {
        let operator = skip_blanks(chars, end);
        if operator < chars.len() && (chars[operator] == '^' || chars[operator] == '~') {
            let add = chars[operator] == '^';
            let next = skip_blanks(chars, operator + 1);
            let term = length_term(chars, next)?;
            terms.push(term);
            adds.push(add);
            end = term.end;
        } else {
            break;
        }
    }
    Ok(LengthSyntax { terms, adds, end })
}

/// A length whose denominators lie in `1..=256` and whose tick counts are positive.
pub open spec fn length_ok(length: MmlLength) -> bool
    decreases length, 1int,
{
    match length {
        MmlLength::Denominator(value) => 1 <= value <= 256,
        MmlLength::Ticks(value) => 1 <= value,
        MmlLength::Sum(values) => {
            proof {
                assert(decreases_to!(length => length->Sum_0));
                assert(decreases_to!(length->Sum_0 => length->Sum_0@));
            }
            lengths_ok(values@)
        },
        MmlLength::Adjusted { base, adjustments } => {
            proof {
                assert(decreases_to!(length => length->adjustments));
                assert(decreases_to!(length->adjustments => length->adjustments@));
                assert(decreases_to!(length => length->base));
            }
            length_ok(*base) && adjustments_ok(adjustments@)
        },
    }
}

pub open spec fn lengths_ok(values: Seq<MmlLength>) -> bool
    decreases values, 0int,
{
    values.len() == 0 || (lengths_ok(values.drop_last()) && length_ok(values.last()))
}

pub open spec fn adjustments_ok(adjustments: Seq<(bool, MmlLength)>) -> bool
    decreases adjustments, 0int,
{
    adjustments.len() == 0 || (adjustments_ok(adjustments.drop_last()) && length_ok(
        adjustments.last().1,
    ))
}

/// What a length expression means: `MmlLength` with its parts as sequences.
pub enum LengthModel {
    Denominator(u16),
    Ticks(u16),
    Sum(Seq<LengthModel>),
    Adjusted { base: Box<LengthModel>, adjustments: Seq<(bool, LengthModel)> },
}

/// The meaning of a length.
pub open spec fn length_model(length: MmlLength) -> LengthModel
    decreases length, 1int,
{
    match length {
        MmlLength::Denominator(value) => LengthModel::Denominator(value),
        MmlLength::Ticks(value) => LengthModel::Ticks(value),
        MmlLength::Sum(values) => {
            proof {
                assert(decreases_to!(length => length->Sum_0));
                assert(decreases_to!(length->Sum_0 => length->Sum_0@));
            }
            LengthModel::Sum(lengths_model(values@))
        },
        MmlLength::Adjusted { base, adjustments } => {
            proof {
                assert(decreases_to!(length => length->adjustments));
                assert(decreases_to!(length->adjustments => length->adjustments@));
                assert(decreases_to!(length => length->base));
            }
            LengthModel::Adjusted {
                base: Box::new(length_model(*base)),
                adjustments: adjustments_model(adjustments@),
            }
        },
    }
}

pub open spec fn lengths_model(values: Seq<MmlLength>) -> Seq<LengthModel>
    decreases values, 0int,
{
    if values.len() == 0 {
        seq![]
    } else {
        lengths_model(values.drop_last()).push(length_model(values.last()))
    }
}

pub open spec fn adjustments_model(adjustments: Seq<(bool, MmlLength)>) -> Seq<(bool, LengthModel)>
    decreases adjustments, 0int,
{
    if adjustments.len() == 0 {
        seq![]
    } else {
        adjustments_model(adjustments.drop_last()).push(
            (adjustments.last().0, length_model(adjustments.last().1)),
        )
    }
}

/// One scalar length: ticks after `%`, else a denominator.
pub open spec fn scalar_model(ticks: bool, value: int) -> LengthModel {
    if ticks {
        LengthModel::Ticks(value as u16)
    } else {
        LengthModel::Denominator(value as u16)
    }
}

/// The lengths of a term's remaining `dots`: each dot halves the ticks or doubles
/// the denominator. The lengths and their total, or the first value outside `1..=max`.
pub open spec fn dot_lengths(
    ticks: bool,
    value: int,
    dots: int,
    lengths: Seq<LengthModel>,
    total: int,
    max: int,
) -> Result<(Seq<LengthModel>, int), int>
    decreases dots,
{
    if dots <= 0 {
        Ok((lengths, total))
    } else {
        let next = if ticks {
            value / 2
        } else {
            value * 2
        };
        if 1 <= next <= max {
            dot_lengths(ticks, next, dots - 1, lengths.push(scalar_model(ticks, next)), total + next, max)
        } else {
            Err(next)
        }
    }
}

/// The failure of a length value outside `1..=max`, reported over the whole expression.
pub open spec fn length_range_failure(
    command: &'static str,
    value: int,
    max: int,
    start: usize,
    end: usize,
) -> ValueFailure {
    ValueFailure::OutOfRange { command, value: value as i32, min: 1, max: max as i32, start, end }
}

/// The placeholder length a failed check leaves behind.
pub open spec fn no_length() -> LengthModel {
    LengthModel::Ticks(1)
}

/// The meaning of one term and its total in ticks or denominators, or the failure.
pub open spec fn term_length_spec(
    chars: Seq<char>,
    term: LengthTerm,
    span_start: usize,
    span_end: usize,
) -> (LengthModel, int, Option<ValueFailure>) {
    let command: &'static str = if term.ticks {
        "note tick length"
    } else {
        "note length"
    };
    let max: int = if term.ticks {
        65535
    } else {
        256
    };
    let digits: int = digits_value(chars.subrange(term.digits_start as int, term.digits_end as int)) as int;
    if digits > i32::MAX {
        (no_length(), 1, Some(ValueFailure::TooLarge { command }))
    } else if !(1 <= digits <= max) {
        (no_length(), 1, Some(length_range_failure(command, digits, max, span_start, span_end)))
    } else if term.digits_end == term.end {
        (scalar_model(term.ticks, digits), digits, None)
    } else {
        match dot_lengths(
            term.ticks,
            digits,
            term.end - term.digits_end,
            seq![scalar_model(term.ticks, digits)],
            digits,
            max,
        ) {
            Err(value) => (
                no_length(),
                1,
                Some(length_range_failure(command, value, max, span_start, span_end)),
            ),
            Ok((lengths, total)) => (LengthModel::Sum(lengths), total, None),
        }
    }
}

/// The ticks-or-denominator value of a term after `dots` dots: ticks halve, denominators double.
fn dotted(ticks: bool, value: i32) -> (r: i32)
    requires
        1 <= value <= 65535,
    ensures
        r == (if ticks {
            value / 2
        } else {
            value * 2
        }),
{
    if ticks {
        value / 2
    } else {
        value * 2
    }
}

fn scalar_length(ticks: bool, value: i32) -> (r: MmlLength)
    requires
        1 <= value <= 65535,
    ensures
        ticks ==> r == MmlLength::Ticks(value as u16),
        !ticks ==> r == MmlLength::Denominator(value as u16),
        length_model(r) == scalar_model(ticks, value as int),
{
    if ticks {
        MmlLength::Ticks(value as u16)
    } else {
        MmlLength::Denominator(value as u16)
    }
}

/// The length of one term, checked in the order the MXDRV reference does, with its total value.
fn term_length(
    chars: &Vec<char>,
    term: LengthTerm,
    span_start: usize,
    span_end: usize,
    first: &mut Option<ValueFailure>,
) -> (r: (MmlLength, i32))
    requires
        term_wf(chars@, term),
        span_start < span_end <= chars@.len(),
        *old(first) is None,
    ensures
        *final(first) == term_length_spec(chars@, term, span_start, span_end).2,
        *final(first) is None ==> length_model(r.0) == term_length_spec(
            chars@,
            term,
            span_start,
            span_end,
        ).0 && r.1 == term_length_spec(chars@, term, span_start, span_end).1,
        *final(first) is None ==> length_ok(r.0) && 1 <= r.1 <= 131070,
        *final(first) is None && term.digits_end == term.end && !term.ticks ==> r.0
            == MmlLength::Denominator(
            digits_value(chars@.subrange(term.digits_start as int, term.digits_end as int)) as u16,
        ),
        !(term.digits_end == term.end && !term.ticks) ==> !(r.0 is Denominator),
        pending_ok(*final(first), chars@.len()),
{
    let command: &'static str = if term.ticks {
        "note tick length"
    } else {
        "note length"
    };
    let max: i32 = if term.ticks {
        65535
    } else {
        256
    };
    let dummy = MmlLength::Ticks(1);
    let mut value = match digits_to_i32(chars, term.digits_start, term.digits_end) {
        Some(value) => value,
        None => {
            *first = Some(ValueFailure::TooLarge { command });
            return (dummy, 1);
        },
    };
    if !check_range(first, command, value, 1, max, span_start, span_end) {
        return (dummy, 1);
    }
    let base = scalar_length(term.ticks, value);
    if term.digits_end == term.end {
        return (base, value);
    }
    let mut lengths: Vec<MmlLength> = Vec::new();
    lengths.push(base);
    proof {
        assert(length_ok(base));
        assert(lengths@.drop_last() =~= Seq::<MmlLength>::empty());
        assert(lengths_ok(lengths@.drop_last()));
        assert(lengths@.last() == base);
        assert(lengths_model(lengths@.drop_last()) =~= Seq::<LengthModel>::empty());
        assert(lengths_model(lengths@) =~= seq![scalar_model(term.ticks, value as int)]);
    }
    let mut total: i32 = value;
    let mut dot = term.digits_end;
    while dot < term.end
        invariant
            term_wf(chars@, term),
            term.digits_end <= dot <= term.end,
            1 <= value <= max,
            term.ticks ==> max == 65535,
            !term.ticks ==> max == 256,
            1 <= total,
            term.ticks ==> total + value <= 131070,
            !term.ticks ==> total <= 2 * value - 1,
            lengths@.len() >= 1,
            lengths_ok(lengths@),
            *first is None,
            dummy == MmlLength::Ticks(1),
            span_start < span_end <= chars@.len(),
            command == (if term.ticks {
                "note tick length"
            } else {
                "note length"
            }),
            digits_value(chars@.subrange(term.digits_start as int, term.digits_end as int))
                <= i32::MAX,
            term_length_spec(chars@, term, span_start, span_end) == (match dot_lengths(
                term.ticks,
                value as int,
                term.end - dot,
                lengths_model(lengths@),
                total as int,
                max as int,
            ) {
                Err(value) => (
                    no_length(),
                    1,
                    Some(length_range_failure(command, value, max as int, span_start, span_end)),
                ),
                Ok((models, sum)) => (LengthModel::Sum(models), sum, None),
            }),
        decreases term.end - dot,
    {
        value = dotted(term.ticks, value);
        if !check_range(first, command, value, 1, max, span_start, span_end) {
            return (dummy, 1);
        }
        total = total + value;
        let next = scalar_length(term.ticks, value);
        proof {
            assert(length_ok(next));
            assert(lengths@.push(next).drop_last() =~= lengths@);
        }
        lengths.push(next);
        dot += 1;
    }
    (MmlLength::Sum(lengths), total)
}

/// A length written as plain digits: one term, no `%`, no dots.
spec fn plain_length(syntax: LengthSyntax) -> bool {
    syntax.terms@.len() == 1 && !syntax.terms@[0].ticks && syntax.terms@[0].digits_end
        == syntax.terms@[0].end
}

/// The value of the digits of the first term.
spec fn first_term_value(chars: Seq<char>, syntax: LengthSyntax) -> nat {
    digits_value(
        chars.subrange(syntax.terms@[0].digits_start as int, syntax.terms@[0].digits_end as int),
    )
}

fn has_subtraction(adds: &Vec<bool>) -> (r: bool)
    ensures
        r == adds@.contains(false),
{
    let mut index: usize = 0;
    while index < adds.len()
        invariant
            index <= adds@.len(),
            forall|i: int| 0 <= i < index ==> adds@[i],
        decreases adds@.len() - index,
    {
        if !adds[index] {
            return true;
        }
        index += 1;
    }
    false
}

/// The terms of an expression from `k` on, gathered as the whole length will
/// need them: the running total, the first term (when it stands alone or when
/// something is subtracted), the terms to add up, and the signed adjustments.
pub open spec fn fold_terms(
    chars: Seq<char>,
    terms: Seq<LengthTerm>,
    adds: Seq<bool>,
    span_start: usize,
    span_end: usize,
    subtracts: bool,
    k: int,
    total: int,
    base: LengthModel,
    sums: Seq<LengthModel>,
    pairs: Seq<(bool, LengthModel)>,
) -> Result<(int, LengthModel, Seq<LengthModel>, Seq<(bool, LengthModel)>), ValueFailure>
    decreases terms.len() - k,
{
    if k < 0 || k >= terms.len() {
        Ok((total, base, sums, pairs))
    } else {
        let (length, term_total, failure) = term_length_spec(chars, terms[k], span_start, span_end);
        if failure is Some {
            Err(failure->0)
        } else if total + term_total > 0x7fff_ffff {
            Err(length_range_failure("note length", 0x7fff_ffff, 65535, span_start, span_end))
        } else if k == 0 && (terms.len() == 1 || subtracts) {
            fold_terms(
                chars,
                terms,
                adds,
                span_start,
                span_end,
                subtracts,
                k + 1,
                total + term_total,
                length,
                sums,
                pairs,
            )
        } else if subtracts {
            fold_terms(
                chars,
                terms,
                adds,
                span_start,
                span_end,
                subtracts,
                k + 1,
                total + term_total,
                base,
                sums,
                pairs.push((adds[k - 1], length)),
            )
        } else {
            fold_terms(
                chars,
                terms,
                adds,
                span_start,
                span_end,
                subtracts,
                k + 1,
                total + term_total,
                base,
                sums.push(length),
                pairs,
            )
        }
    }
}

/// The meaning of a length expression and the failure record after it. One term
/// stands for itself; terms joined only by `^` form a sum whose total must lie in
/// `1..=65535`; with a `~` the first term is adjusted by the others.
pub open spec fn length_value_spec(
    chars: Seq<char>,
    syntax: (Seq<LengthTerm>, Seq<bool>, int),
    first: Option<ValueFailure>,
) -> (LengthModel, Option<ValueFailure>) {
    let (terms, adds, end) = syntax;
    let span_start = terms[0].start;
    let span_end = end as usize;
    let subtracts = adds.contains(false);
    if first is Some {
        (no_length(), first)
    } else {
        match fold_terms(
            chars,
            terms,
            adds,
            span_start,
            span_end,
            subtracts,
            0,
            0,
            no_length(),
            seq![],
            seq![],
        ) {
            Err(failure) => (no_length(), Some(failure)),
            Ok((total, base, sums, pairs)) => if !subtracts && total > 65535 {
                (
                    no_length(),
                    Some(length_range_failure("note length", total, 65535, span_start, span_end)),
                )
            } else if terms.len() == 1 {
                (base, None)
            } else if !subtracts {
                (LengthModel::Sum(sums), None)
            } else {
                (LengthModel::Adjusted { base: Box::new(base), adjustments: pairs }, None)
            },
        }
    }
}

/// The length of an expression, checked as a whole the way the MXDRV reference checks it.
fn length_value(chars: &Vec<char>, syntax: &LengthSyntax, first: &mut Option<ValueFailure>) -> (r:
    MmlLength)
    requires
        length_syntax_wf(chars@, *syntax, syntax.terms@[0].start as int),
        pending_ok(*old(first), chars@.len()),
    ensures
        *final(first) == length_value_spec(chars@, syntax_view(*syntax), *old(first)).1,
        *final(first) is None ==> length_model(r) == length_value_spec(
            chars@,
            syntax_view(*syntax),
            *old(first),
        ).0,
        *old(first) is Some ==> *final(first) == *old(first),
        *final(first) is None ==> *old(first) is None && length_ok(r),
        *final(first) is None && plain_length(*syntax) ==> r == MmlLength::Denominator(
            first_term_value(chars@, *syntax) as u16,
        ),
        !plain_length(*syntax) ==> !(r is Denominator),
        pending_ok(*final(first), chars@.len()),
{
    let dummy = MmlLength::Ticks(1);
    if first.is_some() {
        return dummy;
    }
    let span_start = syntax.terms[0].start;
    let span_end = syntax.end;
    let single = syntax.terms.len() == 1;
    let subtracts = has_subtraction(&syntax.adds);
    let mut total: i64 = 0;
    let mut base = MmlLength::Ticks(1);
    let mut sum_values: Vec<MmlLength> = Vec::new();
    let mut pairs: Vec<(bool, MmlLength)> = Vec::new();
    let mut index: usize = 0;
    while index < syntax.terms.len()
        invariant
            length_syntax_wf(chars@, *syntax, span_start as int),
            span_start == syntax.terms@[0].start,
            span_end == syntax.end,
            span_start < span_end <= chars@.len(),
            single == (syntax.terms@.len() == 1),
            index <= syntax.terms@.len(),
            *first is None,
            *old(first) is None,
            0 <= total <= 0x7fff_ffff,
            length_ok(base),
            index > 0 && plain_length(*syntax) ==> base == MmlLength::Denominator(
                first_term_value(chars@, *syntax) as u16,
            ),
            index > 0 && single && !plain_length(*syntax) ==> !(base is Denominator),
            lengths_ok(sum_values@),
            adjustments_ok(pairs@),
            dummy == MmlLength::Ticks(1),
            subtracts == syntax.adds@.contains(false),
            index > 0 ==> total >= 1,
            index == 0 ==> base == MmlLength::Ticks(1),
            fold_terms(
                chars@,
                syntax.terms@,
                syntax.adds@,
                span_start,
                span_end,
                subtracts,
                0,
                0,
                no_length(),
                seq![],
                seq![],
            ) == fold_terms(
                chars@,
                syntax.terms@,
                syntax.adds@,
                span_start,
                span_end,
                subtracts,
                index as int,
                total as int,
                if index == 0 {
                    no_length()
                } else {
                    length_model(base)
                },
                lengths_model(sum_values@),
                adjustments_model(pairs@),
            ),
        decreases syntax.terms@.len() - index,
    {
        let term = syntax.terms[index];
        let ghost base_model = if index == 0 {
            no_length()
        } else {
            length_model(base)
        };
        let ghost sums_model = lengths_model(sum_values@);
        let ghost pairs_model = adjustments_model(pairs@);
        let ghost total_before = total as int;
        let (length, term_total) = term_length(chars, term, span_start, span_end, first);
        if first.is_some() {
            return dummy;
        }
        total = total + term_total as i64;
        if total > 0x7fff_ffff {
            *first = Some(
                ValueFailure::OutOfRange {
                    command: "note length",
                    value: 0x7fff_ffff,
                    min: 1,
                    max: 65535,
                    start: span_start,
                    end: span_end,
                },
            );
            return dummy;
        }
        if index == 0 && (single || subtracts) {
            base = length;
        } else if subtracts {
            let add = syntax.adds[index - 1];
            proof {
                assert(pairs@.push((add, length)).drop_last() =~= pairs@);
            }
            pairs.push((add, length));
        } else {
            proof {
                assert(sum_values@.push(length).drop_last() =~= sum_values@);
            }
            sum_values.push(length);
        }
        proof {
            let tl = term_length_spec(chars@, term, span_start, span_end);
            assert(syntax.terms@[index as int] == term);
            assert(tl.2 is None);
            assert(tl.0 == length_model(length));
            assert(tl.1 == term_total);
            assert(length_model(MmlLength::Ticks(1)) == no_length());
            if index == 0 && (single || subtracts) {
                assert(length_model(base) == tl.0);
            } else if subtracts {
                assert(adjustments_model(pairs@) == pairs_model.push(
                    (syntax.adds@[index - 1], tl.0),
                ));
                assert(length_model(base) == base_model);
            } else {
                assert(lengths_model(sum_values@) == sums_model.push(tl.0));
                assert(length_model(base) == base_model);
            }
            assert(fold_terms(
                chars@,
                syntax.terms@,
                syntax.adds@,
                span_start,
                span_end,
                subtracts,
                index as int,
                total_before,
                base_model,
                sums_model,
                pairs_model,
            ) == fold_terms(
                chars@,
                syntax.terms@,
                syntax.adds@,
                span_start,
                span_end,
                subtracts,
                index + 1,
                total as int,
                length_model(base),
                lengths_model(sum_values@),
                adjustments_model(pairs@),
            ));
        }
        index += 1;
    }
    if !subtracts {
        if !check_range(first, "note length", total as i32, 1, 65535, span_start, span_end) {
            return dummy;
        }
    }
    if single {
        base
    } else if !subtracts {
        MmlLength::Sum(sum_values)
    } else {
        MmlLength::Adjusted { base: Box::new(base), adjustments: pairs }
    }
}

/// A parsed command whose values lie in the ranges the MXDRV reference documents.
pub open spec fn command_ok(command: MmlCommand) -> bool
    decreases command, 1int,
{
    match command {
        MmlCommand::Directive(_) => false,
        MmlCommand::Repeat { body, count } => {
            proof {
                assert(decreases_to!(command => command->body));
                assert(decreases_to!(command->body => command->body@));
            }
            2 <= count <= 255 && commands_ok(body@)
        },
        MmlCommand::Tempo(tempo) => 19 <= tempo <= 4882,
        MmlCommand::Note { name, length, .. } => is_note_name(name) && (length matches Some(
            value,
        ) ==> value <= 999),
        MmlCommand::ExtendedNote { name, length, .. } => is_note_name(name) && length_ok(length),
        MmlCommand::NumericNote { note, length } => note <= 95 && (length matches Some(length)
            ==> length_ok(length)),
        MmlCommand::Rest { length } => length matches Some(value) ==> 1 <= value <= 256,
        MmlCommand::ExtendedRest(length) => length_ok(length),
        MmlCommand::Octave(octave) => octave <= 8,
        MmlCommand::DefaultLength(length) => length_ok(length),
        MmlCommand::Gate(gate) => 1 <= gate <= 8,
        MmlCommand::FineGate(gate) => 1 <= gate <= 256,
        MmlCommand::Volume(volume) => volume <= 15,
        MmlCommand::FineVolume(volume) => volume <= 127,
        MmlCommand::Pan(pan) => pan <= 3,
        MmlCommand::Detune(detune) => -32767 <= detune <= 32767,
        MmlCommand::NoiseFrequency(frequency) => frequency <= 31,
        MmlCommand::PitchLfo { waveform, .. } => waveform <= 7,
        MmlCommand::VolumeLfo { waveform, .. } => waveform <= 7,
        MmlCommand::OpmLfo { waveform, key_sync, .. } => waveform <= 3 && key_sync <= 1,
        MmlCommand::PcmFrequency(frequency) => frequency <= 12,
        _ => true,
    }
}

pub open spec fn commands_ok(commands: Seq<MmlCommand>) -> bool
    decreases commands, 0int,
{
    commands.len() == 0 || (commands_ok(commands.drop_last()) && command_ok(commands.last()))
}

proof fn lemma_commands_ok_push(commands: Seq<MmlCommand>, command: MmlCommand)
    ensures
        commands_ok(commands.push(command)) == (commands_ok(commands) && command_ok(command)),
{
    assert(commands.push(command).drop_last() =~= commands);
}

/// One item of a track line: a command, or a repeat bracket with its position.
pub enum Event {
    Command(MmlCommand),
    RepeatStart(usize),
    RepeatEnd(u16, usize),
}

spec fn event_ok(event: Event) -> bool {
    match event {
        Event::Command(command) => command_ok(command) && !(command is Repeat),
        Event::RepeatStart(_) => true,
        Event::RepeatEnd(count, _) => 2 <= count <= 255,
    }
}

/// A parse result with the failure record after it.
pub type Checked<T> = (Result<(T, int), SyntaxFailure>, Option<ValueFailure>);

/// An unsigned integer argument after optional blanks, checked against `min..=max`.
pub open spec fn number_arg_spec(
    chars: Seq<char>,
    pos: int,
    first: Option<ValueFailure>,
    command: &'static str,
    min: i32,
    max: i32,
) -> Checked<i32> {
    let start = blanks_end(chars, pos);
    let end = digits_end(chars, start);
    if end == start {
        (Err(SyntaxFailure { at: start as usize, expected: "unsigned integer" }), first)
    } else {
        let (value, after) = ranged_number_spec(chars, start, end, first, command, min, max);
        (Ok((value, end)), after)
    }
}

/// Whether a parse result is the one `spec` gives: the same end or syntax
/// failure and, on success, the same failure record.
pub open spec fn checked_as<T>(r: Result<(T, usize), SyntaxFailure>, first: Option<ValueFailure>, spec: Checked<T>) -> bool {
    match r {
        Ok((value, end)) => spec.0 == Ok::<(T, int), SyntaxFailure>((value, end as int)) && first
            == spec.1,
        Err(failure) => spec.0 == Err::<(T, int), SyntaxFailure>(failure),
    }
}

fn number_arg(
    chars: &Vec<char>,
    pos: usize,
    first: &mut Option<ValueFailure>,
    command: &'static str,
    min: i32,
    max: i32,
) -> (r: Result<(i32, usize), SyntaxFailure>)
    requires
        pos <= chars@.len(),
        pending_ok(*old(first), chars@.len()),
    ensures
        checked_as(r, *final(first), number_arg_spec(chars@, pos as int, *old(first), command, min, max)),
        *old(first) is Some ==> *final(first) == *old(first),
        pending_ok(*final(first), chars@.len()),
        r matches Ok((value, end)) ==> pos < end <= chars@.len() && (*final(first) is None ==> (
        *old(first) is None && min <= value <= max)),
        r matches Err(failure) ==> failure.at <= chars@.len(),
{
    let start = skip_blanks(chars, pos);
    let end = digit_run(chars, start);
    if end == start {
        return Err(SyntaxFailure { at: start, expected: "unsigned integer" });
    }
    let value = ranged_number(chars, start, end, first, command, min, max);
    Ok((value, end))
}

/// The value of at most ten digits, as a magnitude up to 2^31.
fn digits_magnitude(chars: &Vec<char>, start: usize, end: usize) -> (r: Option<i64>)
    requires
        start <= end <= chars@.len(),
        all_digits(chars@.subrange(start as int, end as int)),
    ensures
        r matches Some(value) ==> value == digits_value(chars@.subrange(start as int, end as int))
            && value <= 0x8000_0000,
        r is None ==> digits_value(chars@.subrange(start as int, end as int)) > 0x8000_0000,
{
    let ghost run = chars@.subrange(start as int, end as int);
    let mut value: i64 = 0;
    let mut index = start;
    while index < end
        invariant
            start <= index <= end <= chars@.len(),
            run == chars@.subrange(start as int, end as int),
            all_digits(run),
            value == digits_value(run.subrange(0, index - start)),
            value <= 0x8000_0000,
        decreases end - index,
    {
        proof {
            assert(run.subrange(0, index - start + 1).drop_last() =~= run.subrange(0, index - start));
            assert(is_digit(run[index - start]));
        }
        let d = chars[index] as u32 - '0' as u32;
        value = value * 10 + d as i64;
        index += 1;
        if value > 0x8000_0000 {
            proof {
                lemma_digits_value_prefix(run, index - start);
            }
            return None;
        }
    }
    proof {
        assert(run.subrange(0, end - start) =~= run);
    }
    Some(value)
}

/// The result of a signed argument whose value is `value`.
pub open spec fn signed_checked(
    value: int,
    start: int,
    end: int,
    command: &'static str,
    min: i32,
    max: i32,
) -> Checked<i32> {
    (
        Ok((value as i32, end)),
        if min <= value <= max {
            None
        } else {
            Some(
                ValueFailure::OutOfRange {
                    command,
                    value: value as i32,
                    min,
                    max,
                    start: start as usize,
                    end: end as usize,
                },
            )
        },
    )
}

/// A signed integer argument (`-` then digits) after optional blanks, checked against `min..=max`.
pub open spec fn signed_arg_spec(
    chars: Seq<char>,
    pos: int,
    first: Option<ValueFailure>,
    command: &'static str,
    min: i32,
    max: i32,
) -> Checked<i32> {
    let start = blanks_end(chars, pos);
    let negative = start < chars.len() && chars[start] == '-';
    let digits_start = if negative {
        start + 1
    } else {
        start
    };
    let end = digits_end(chars, digits_start);
    let magnitude: int = digits_value(chars.subrange(digits_start, end)) as int;
    if end == digits_start {
        (Err(SyntaxFailure { at: digits_start as usize, expected: "integer" }), first)
    } else if first is Some {
        (Ok((min, end)), first)
    } else if magnitude > 0x8000_0000 || (!negative && magnitude > 0x7fff_ffff) {
        (Ok((min, end)), Some(ValueFailure::TooLarge { command }))
    } else if negative {
        signed_checked(-magnitude, start, end, command, min, max)
    } else {
        signed_checked(magnitude, start, end, command, min, max)
    }
}

fn signed_arg(
    chars: &Vec<char>,
    pos: usize,
    first: &mut Option<ValueFailure>,
    command: &'static str,
    min: i32,
    max: i32,
) -> (r: Result<(i32, usize), SyntaxFailure>)
    requires
        pos <= chars@.len(),
        pending_ok(*old(first), chars@.len()),
    ensures
        checked_as(r, *final(first), signed_arg_spec(chars@, pos as int, *old(first), command, min, max)),
        *old(first) is Some ==> *final(first) == *old(first),
        pending_ok(*final(first), chars@.len()),
        r matches Ok((value, end)) ==> pos < end <= chars@.len() && (*final(first) is None ==> (
        *old(first) is None && min <= value <= max)),
        r matches Err(failure) ==> failure.at <= chars@.len(),
{
    let start = skip_blanks(chars, pos);
    let negative = start < chars.len() && chars[start] == '-';
    let digits_start = if negative {
        start + 1
    } else {
        start
    };
    let end = digit_run(chars, digits_start);
    if end == digits_start {
        return Err(SyntaxFailure { at: digits_start, expected: "integer" });
    }
    if first.is_some() {
        return Ok((min, end));
    }
    let value: i32 = match digits_magnitude(chars, digits_start, end) {
        Some(magnitude) => {
            if negative {
                (-magnitude) as i32
            } else if magnitude <= 0x7fff_ffff {
                magnitude as i32
            } else {
                *first = Some(ValueFailure::TooLarge { command });
                return Ok((min, end));
            }
        },
        None => {
            *first = Some(ValueFailure::TooLarge { command });
            return Ok((min, end));
        },
    };
    check_range(first, command, value, min, max, start, end);
    Ok((value, end))
}

/// A `,` between arguments, after optional blanks; the position after it.
pub open spec fn comma_spec(chars: Seq<char>, pos: int) -> Result<int, SyntaxFailure> {
    let at = blanks_end(chars, pos);
    if at < chars.len() && chars[at] == ',' {
        Ok(at + 1)
    } else {
        Err(SyntaxFailure { at: at as usize, expected: "','" })
    }
}

fn comma(chars: &Vec<char>, pos: usize) -> (r: Result<usize, SyntaxFailure>)
    requires
        pos <= chars@.len(),
    ensures
        match r {
            Ok(end) => comma_spec(chars@, pos as int) == Ok::<int, SyntaxFailure>(end as int),
            Err(failure) => comma_spec(chars@, pos as int) == Err::<int, SyntaxFailure>(failure),
        },
        r matches Ok(end) ==> pos < end <= chars@.len(),
        r matches Err(failure) ==> failure.at <= chars@.len(),
{
    let at = skip_blanks(chars, pos);
    if at < chars.len() && chars[at] == ',' {
        Ok(at + 1)
    } else {
        Err(SyntaxFailure { at, expected: "','" })
    }
}

/// What every command parser promises: progress, the first failure kept, and values in range
/// unless a failure is recorded.
spec fn step_ok(
    chars: Seq<char>,
    pos: int,
    before: Option<ValueFailure>,
    after: Option<ValueFailure>,
    r: Result<(Event, usize), SyntaxFailure>,
) -> bool {
    &&& (before is Some ==> after == before)
    &&& pending_ok(after, chars.len())
    &&& (r matches Ok((event, end)) ==> pos < end <= chars.len() && (after is None ==> (before is None
        && event_ok(event))))
    &&& (r matches Err(failure) ==> failure.at <= chars.len())
}

pub open spec fn pow10(n: nat) -> nat
    decreases n,
{
    if n == 0 {
        1
    } else {
        10 * pow10((n - 1) as nat)
    }
}

proof fn lemma_digits_value_bound(s: Seq<char>)
    requires
        all_digits(s),
    ensures
        digits_value(s) < pow10(s.len()),
    decreases s.len(),
{
    if s.len() > 0 {
        assert(all_digits(s.drop_last()));
        lemma_digits_value_bound(s.drop_last());
        assert(is_digit(s[s.len() - 1]));
    }
}

/// A length that may follow a command: present when digits or `%` follow the blanks.
pub open spec fn optional_length_spec(chars: Seq<char>, pos: int) -> Result<
    Option<(Seq<LengthTerm>, Seq<bool>, int)>,
    SyntaxFailure,
> {
    let at = blanks_end(chars, pos);
    if at < chars.len() && (is_digit(chars[at]) || chars[at] == '%') {
        match length_syntax_spec(chars, at) {
            Err(failure) => Err(failure),
            Ok(syntax) => Ok(Some(syntax)),
        }
    } else {
        Ok(None)
    }
}

fn optional_length(chars: &Vec<char>, pos: usize) -> (r: Result<Option<LengthSyntax>, SyntaxFailure>)
    requires
        pos <= chars@.len(),
    ensures
        match r {
            Ok(None) => optional_length_spec(chars@, pos as int) == Ok::<
                Option<(Seq<LengthTerm>, Seq<bool>, int)>,
                SyntaxFailure,
            >(None),
            Ok(Some(syntax)) => optional_length_spec(chars@, pos as int) == Ok::<
                Option<(Seq<LengthTerm>, Seq<bool>, int)>,
                SyntaxFailure,
            >(Some(syntax_view(syntax))),
            Err(failure) => optional_length_spec(chars@, pos as int) == Err::<
                Option<(Seq<LengthTerm>, Seq<bool>, int)>,
                SyntaxFailure,
            >(failure),
        },
        r matches Ok(Some(syntax)) ==> pos <= syntax.terms@[0].start && length_syntax_wf(
            chars@,
            syntax,
            syntax.terms@[0].start as int,
        ),
        r matches Err(failure) ==> failure.at <= chars@.len(),
{
    let at = skip_blanks(chars, pos);
    if at < chars.len() && (('0' <= chars[at] && chars[at] <= '9') || chars[at] == '%') {
        let syntax = length_syntax(chars, at)?;
        Ok(Some(syntax))
    } else {
        Ok(None)
    }
}

/// The placeholder that stands in a command's model for its length expression.
pub open spec fn length_slot() -> MmlLength {
    MmlLength::Ticks(0)
}

/// A command as a value: the command with its length expression replaced by the
/// placeholder, and the meaning of that length.
pub open spec fn command_model(command: MmlCommand) -> (MmlCommand, Option<LengthModel>) {
    match command {
        MmlCommand::ExtendedNote { name, accidental, length } => (
            MmlCommand::ExtendedNote { name, accidental, length: length_slot() },
            Some(length_model(length)),
        ),
        MmlCommand::NumericNote { note, length: Some(length) } => (
            MmlCommand::NumericNote { note, length: Some(length_slot()) },
            Some(length_model(length)),
        ),
        MmlCommand::ExtendedRest(length) => (
            MmlCommand::ExtendedRest(length_slot()),
            Some(length_model(length)),
        ),
        MmlCommand::DefaultLength(length) => (
            MmlCommand::DefaultLength(length_slot()),
            Some(length_model(length)),
        ),
        _ => (command, None),
    }
}

/// What an event of a track line means.
pub enum EventModel {
    /// A command as `command_model` gives it.
    Command(MmlCommand, Option<LengthModel>),
    /// `[` at this position.
    RepeatStart(usize),
    /// `]` with its count, at this position.
    RepeatEnd(u16, usize),
}

pub open spec fn event_model(event: Event) -> EventModel {
    match event {
        Event::Command(command) => EventModel::Command(
            command_model(command).0,
            command_model(command).1,
        ),
        Event::RepeatStart(at) => EventModel::RepeatStart(at),
        Event::RepeatEnd(count, at) => EventModel::RepeatEnd(count, at),
    }
}

/// A command without a length expression.
pub open spec fn plain(command: MmlCommand) -> EventModel {
    EventModel::Command(command, None)
}

/// A command whose length expression means `length`.
pub open spec fn with_length(command: MmlCommand, length: LengthModel) -> EventModel {
    EventModel::Command(command, Some(length))
}

/// Whether a parsed event is the one `spec` gives: the same end or syntax failure,
/// the same failure record, and, while no value failed, the same event.
pub open spec fn event_checked(
    r: Result<(Event, usize), SyntaxFailure>,
    first: Option<ValueFailure>,
    spec: Checked<EventModel>,
) -> bool {
    match r {
        Ok((event, end)) => spec.0 matches Ok((model, spec_end)) && spec_end == end && first
            == spec.1 && (first is None ==> event_model(event) == model),
        Err(failure) => spec.0 == Err::<(EventModel, int), SyntaxFailure>(failure),
    }
}

/// A command made from one number argument.
pub open spec fn number_event(parsed: Checked<i32>, make: spec_fn(i32) -> MmlCommand) -> Checked<
    EventModel,
> {
    match parsed.0 {
        Err(failure) => (Err(failure), parsed.1),
        Ok((value, end)) => (Ok((plain(make(value)), end)), parsed.1),
    }
}

/// A `,` and then a number argument.
pub open spec fn comma_number_spec(
    chars: Seq<char>,
    pos: int,
    first: Option<ValueFailure>,
    command: &'static str,
    min: i32,
    max: i32,
) -> Checked<i32> {
    match comma_spec(chars, pos) {
        Err(failure) => (Err(failure), first),
        Ok(at) => number_arg_spec(chars, at, first, command, min, max),
    }
}

/// A named note `a`..`g`, an optional `+` or `-`, and an optional length: a short
/// plain number is taken as written, any other length is checked; a plain
/// denominator makes a note, anything else an extended note.
pub open spec fn parse_note_spec(chars: Seq<char>, pos: int, first: Option<ValueFailure>) -> Checked<
    EventModel,
> {
    let name = chars[pos];
    let after_name = blanks_end(chars, pos + 1);
    let signed = after_name < chars.len() && (chars[after_name] == '+' || chars[after_name] == '-');
    let accidental = if signed {
        Some(
            if chars[after_name] == '+' {
                Accidental::Sharp
            } else {
                Accidental::Flat
            },
        )
    } else {
        None
    };
    let end = if signed {
        after_name + 1
    } else {
        pos + 1
    };
    match optional_length_spec(chars, end) {
        Err(failure) => (Err(failure), first),
        Ok(None) => (Ok((plain(MmlCommand::Note { name, accidental, length: None }), end)), first),
        Ok(Some(syntax)) => {
            let term = syntax.0[0];
            if syntax.0.len() == 1 && !term.ticks && term.digits_end == term.end && term.digits_end
                - term.digits_start <= 3 {
                let value = digits_value(
                    chars.subrange(term.digits_start as int, term.digits_end as int),
                );
                (
                    Ok(
                        (
                            plain(MmlCommand::Note { name, accidental, length: Some(value as u16) }),
                            syntax.2,
                        ),
                    ),
                    first,
                )
            } else {
                let (length, after) = length_value_spec(chars, syntax, first);
                let event = match length {
                    LengthModel::Denominator(value) => plain(
                        MmlCommand::Note { name, accidental, length: Some(value) },
                    ),
                    _ => with_length(
                        MmlCommand::ExtendedNote { name, accidental, length: length_slot() },
                        length,
                    ),
                };
                (Ok((event, syntax.2)), after)
            }
        },
    }
}

/// `r` with an optional length, or `l` with an optional default length.
pub open spec fn parse_rest_or_default_spec(
    chars: Seq<char>,
    pos: int,
    first: Option<ValueFailure>,
) -> Checked<EventModel> {
    let rest = chars[pos] == 'r';
    match optional_length_spec(chars, pos + 1) {
        Err(failure) => (Err(failure), first),
        Ok(None) => (
            Ok(
                (
                    plain(
                        if rest {
                            MmlCommand::Rest { length: None }
                        } else {
                            MmlCommand::DefaultLengthReset
                        },
                    ),
                    pos + 1,
                ),
            ),
            first,
        ),
        Ok(Some(syntax)) => {
            let (length, after) = length_value_spec(chars, syntax, first);
            let event = if rest {
                match length {
                    LengthModel::Denominator(value) => plain(
                        MmlCommand::Rest { length: Some(value) },
                    ),
                    _ => with_length(MmlCommand::ExtendedRest(length_slot()), length),
                }
            } else {
                with_length(MmlCommand::DefaultLength(length_slot()), length)
            };
            (Ok((event, syntax.2)), after)
        },
    }
}

/// `n` with a note number and an optional `,` length.
pub open spec fn parse_numeric_note_spec(
    chars: Seq<char>,
    pos: int,
    first: Option<ValueFailure>,
) -> Checked<EventModel> {
    match number_arg_spec(chars, pos + 1, first, "note number", 0, 95) {
        (Err(failure), after) => (Err(failure), after),
        (Ok((note, end)), after) => {
            let at = blanks_end(chars, end);
            if at >= chars.len() || chars[at] != ',' {
                (
                    Ok((plain(MmlCommand::NumericNote { note: note as u8, length: None }), end)),
                    after,
                )
            } else {
                match length_syntax_spec(chars, blanks_end(chars, at + 1)) {
                    Err(failure) => (Err(failure), after),
                    Ok(syntax) => {
                        let (length, last) = length_value_spec(chars, syntax, after);
                        (
                            Ok(
                                (
                                    with_length(
                                        MmlCommand::NumericNote {
                                            note: note as u8,
                                            length: Some(length_slot()),
                                        },
                                        length,
                                    ),
                                    syntax.2,
                                ),
                            ),
                            last,
                        )
                    },
                }
            }
        },
    }
}

/// `@t`, `@q`, `@v`, or `@` with a voice number.
pub open spec fn parse_at_command_spec(
    chars: Seq<char>,
    pos: int,
    first: Option<ValueFailure>,
) -> Checked<EventModel> {
    let next = pos + 1;
    if next < chars.len() && chars[next] == 't' {
        number_event(
            number_arg_spec(chars, next + 1, first, "@t", 0, 255),
            |value: i32| MmlCommand::OpmTempo(value as u8),
        )
    } else if next < chars.len() && chars[next] == 'q' {
        number_event(
            number_arg_spec(chars, next + 1, first, "@q", 1, 256),
            |value: i32| MmlCommand::FineGate(value as u16),
        )
    } else if next < chars.len() && chars[next] == 'v' {
        number_event(
            number_arg_spec(chars, next + 1, first, "@v", 0, 127),
            |value: i32| MmlCommand::FineVolume(value as u8),
        )
    } else {
        number_event(
            number_arg_spec(chars, next, first, "voice", 0, 255),
            |value: i32| MmlCommand::VoiceSelect(value as u8),
        )
    }
}

/// Whether `chars[pos..pos + 2]` is `a` then `b`.
pub open spec fn pair_at_spec(chars: Seq<char>, pos: int, a: char, b: char) -> bool {
    pos + 2 <= chars.len() && chars[pos] == a && chars[pos + 1] == b
}

/// The waveform, period and amplitude of `MP` or `MA`.
pub open spec fn parse_lfo_arguments_spec(
    chars: Seq<char>,
    pos: int,
    first: Option<ValueFailure>,
) -> Checked<(i32, i32, i32)> {
    match number_arg_spec(chars, pos, first, "LFO waveform", 0, 7) {
        (Err(failure), after) => (Err(failure), after),
        (Ok((waveform, end)), after) => match comma_number_spec(
            chars,
            end,
            after,
            "LFO period",
            0,
            65535,
        ) {
            (Err(failure), after) => (Err(failure), after),
            (Ok((period, end)), after) => match comma_spec(chars, end) {
                Err(failure) => (Err(failure), after),
                Ok(at) => match signed_arg_spec(chars, at, after, "LFO amplitude", -32768i32, 32767) {
                    (Err(failure), after) => (Err(failure), after),
                    (Ok((amplitude, end)), after) => (
                        Ok(((waveform, period, amplitude), end)),
                        after,
                    ),
                },
            },
        },
    }
}

/// The seven values of `MH`.
pub open spec fn parse_opm_lfo_spec(chars: Seq<char>, pos: int, first: Option<ValueFailure>) -> Checked<
    EventModel,
> {
    match number_arg_spec(chars, pos, first, "OPM LFO waveform", 0, 3) {
        (Err(failure), f) => (Err(failure), f),
        (Ok((waveform, end)), f) => match comma_number_spec(chars, end, f, "OPM LFO value", 0, 255) {
            (Err(failure), f) => (Err(failure), f),
            (Ok((lfrq, end)), f) => match comma_number_spec(chars, end, f, "OPM LFO value", 0, 255) {
                (Err(failure), f) => (Err(failure), f),
                (Ok((pmd, end)), f) => match comma_number_spec(
                    chars,
                    end,
                    f,
                    "OPM LFO value",
                    0,
                    255,
                ) {
                    (Err(failure), f) => (Err(failure), f),
                    (Ok((amd, end)), f) => match comma_number_spec(
                        chars,
                        end,
                        f,
                        "OPM LFO value",
                        0,
                        255,
                    ) {
                        (Err(failure), f) => (Err(failure), f),
                        (Ok((pms, end)), f) => match comma_number_spec(
                            chars,
                            end,
                            f,
                            "OPM LFO value",
                            0,
                            255,
                        ) {
                            (Err(failure), f) => (Err(failure), f),
                            (Ok((ams, end)), f) => match comma_number_spec(
                                chars,
                                end,
                                f,
                                "OPM LFO key sync",
                                0,
                                1,
                            ) {
                                (Err(failure), f) => (Err(failure), f),
                                (Ok((key_sync, end)), f) => (
                                    Ok(
                                        (
                                            plain(
                                                MmlCommand::OpmLfo {
                                                    waveform: waveform as u8,
                                                    lfrq: lfrq as u8,
                                                    pmd: pmd as u8,
                                                    amd: amd as u8,
                                                    pms: pms as u8,
                                                    ams: ams as u8,
                                                    key_sync: key_sync as u8,
                                                },
                                            ),
                                            end,
                                        ),
                                    ),
                                    f,
                                ),
                            },
                        },
                    },
                },
            },
        },
    }
}

/// The `M` commands: `MP`, `MA`, `MD`, `MH` and their `ON` and `OF` forms.
pub open spec fn parse_m_command_spec(chars: Seq<char>, pos: int, first: Option<ValueFailure>) -> Checked<
    EventModel,
> {
    let next = pos + 1;
    let after = next + 1;
    if next >= chars.len() {
        (Err(SyntaxFailure { at: next as usize, expected: "P, A, D or H" }), first)
    } else if chars[next] == 'D' {
        number_event(
            number_arg_spec(chars, after, first, "MD", 0, 255),
            |value: i32| MmlCommand::LfoDelay(value as u8),
        )
    } else if chars[next] != 'P' && chars[next] != 'A' && chars[next] != 'H' {
        (Err(SyntaxFailure { at: next as usize, expected: "P, A, D or H" }), first)
    } else if pair_at_spec(chars, after, 'O', 'N') {
        (
            Ok(
                (
                    plain(
                        if chars[next] == 'P' {
                            MmlCommand::PitchLfoOn
                        } else if chars[next] == 'A' {
                            MmlCommand::VolumeLfoOn
                        } else {
                            MmlCommand::OpmLfoOn
                        },
                    ),
                    after + 2,
                ),
            ),
            first,
        )
    } else if pair_at_spec(chars, after, 'O', 'F') {
        (
            Ok(
                (
                    plain(
                        if chars[next] == 'P' {
                            MmlCommand::PitchLfoOff
                        } else if chars[next] == 'A' {
                            MmlCommand::VolumeLfoOff
                        } else {
                            MmlCommand::OpmLfoOff
                        },
                    ),
                    after + 2,
                ),
            ),
            first,
        )
    } else if chars[next] == 'H' {
        parse_opm_lfo_spec(chars, after, first)
    } else {
        match parse_lfo_arguments_spec(chars, after, first) {
            (Err(failure), f) => (Err(failure), f),
            (Ok(((waveform, period, amplitude), end)), f) => (
                Ok(
                    (
                        plain(
                            if chars[next] == 'P' {
                                MmlCommand::PitchLfo {
                                    waveform: waveform as u8,
                                    period: period as u16,
                                    amplitude: amplitude as i16,
                                }
                            } else {
                                MmlCommand::VolumeLfo {
                                    waveform: waveform as u8,
                                    period: period as u16,
                                    amplitude: amplitude as i16,
                                }
                            },
                        ),
                        end,
                    ),
                ),
                f,
            ),
        }
    }
}

/// `S` with a channel letter (`A`..`H` are 0..7, `P`..`W` are 8..15) or a number.
pub open spec fn parse_sync_send_spec(chars: Seq<char>, pos: int, first: Option<ValueFailure>) -> Checked<
    EventModel,
> {
    let at = blanks_end(chars, pos + 1);
    if at < chars.len() && 'A' <= chars[at] <= 'H' {
        (
            Ok(
                (
                    plain(MmlCommand::SyncSend((chars[at] as u32 - 'A' as u32) as u8)),
                    at + 1,
                ),
            ),
            first,
        )
    } else if at < chars.len() && 'P' <= chars[at] <= 'W' {
        (
            Ok(
                (
                    plain(MmlCommand::SyncSend((chars[at] as u32 - 'P' as u32 + 8) as u8)),
                    at + 1,
                ),
            ),
            first,
        )
    } else if at < chars.len() && is_digit(chars[at]) {
        number_event(
            number_arg_spec(chars, at, first, "sync channel", 0, 255),
            |value: i32| MmlCommand::SyncSend(value as u8),
        )
    } else {
        (Err(SyntaxFailure { at: at as usize, expected: "a channel or unsigned integer" }), first)
    }
}

/// `]` with an optional repeat count, 2 when absent.
pub open spec fn parse_repeat_end_spec(chars: Seq<char>, pos: int, first: Option<ValueFailure>) -> Checked<
    EventModel,
> {
    let at = blanks_end(chars, pos + 1);
    if at < chars.len() && is_digit(chars[at]) {
        match number_arg_spec(chars, at, first, "repeat", 2, 255) {
            (Err(failure), f) => (Err(failure), f),
            (Ok((count, end)), f) => (Ok((EventModel::RepeatEnd(count as u16, pos as usize), end)), f),
        }
    } else {
        (Ok((EventModel::RepeatEnd(2, pos as usize), pos + 1)), first)
    }
}

/// The commands with one unsigned argument, and the range each accepts.
pub open spec fn parse_number_command_spec(
    chars: Seq<char>,
    pos: int,
    first: Option<ValueFailure>,
) -> Checked<EventModel> {
    let letter = chars[pos];
    let next = pos + 1;
    if letter == 't' {
        number_event(
            number_arg_spec(chars, next, first, "tempo", 19, 4882),
            |value: i32| MmlCommand::Tempo(value as u32),
        )
    } else if letter == 'o' {
        number_event(
            number_arg_spec(chars, next, first, "octave", 0, 8),
            |value: i32| MmlCommand::Octave(value as u8),
        )
    } else if letter == 'q' {
        number_event(
            number_arg_spec(chars, next, first, "q", 1, 8),
            |value: i32| MmlCommand::Gate(value as u8),
        )
    } else if letter == 'v' {
        number_event(
            number_arg_spec(chars, next, first, "v", 0, 15),
            |value: i32| MmlCommand::Volume(value as u8),
        )
    } else if letter == 'p' {
        number_event(
            number_arg_spec(chars, next, first, "p", 0, 3),
            |value: i32| MmlCommand::Pan(value as u8),
        )
    } else if letter == 'k' {
        number_event(
            number_arg_spec(chars, next, first, "k", 0, 255),
            |value: i32| MmlCommand::KeyOnDelay(value as u8),
        )
    } else if letter == 'w' {
        number_event(
            number_arg_spec(chars, next, first, "w", 0, 31),
            |value: i32| MmlCommand::NoiseFrequency(value as u8),
        )
    } else {
        number_event(
            number_arg_spec(chars, next, first, "PCM frequency", 0, 12),
            |value: i32| MmlCommand::PcmFrequency(value as u8),
        )
    }
}

/// The command that a single character stands for, if any.
pub open spec fn symbol_command(c: char) -> Option<MmlCommand> {
    if c == '<' {
        Some(MmlCommand::OctaveDown)
    } else if c == '>' {
        Some(MmlCommand::OctaveUp)
    } else if c == '(' {
        Some(MmlCommand::VolumeDown)
    } else if c == ')' {
        Some(MmlCommand::VolumeUp)
    } else if c == '_' {
        Some(MmlCommand::Portamento)
    } else if c == '&' {
        Some(MmlCommand::Legato)
    } else if c == 'L' {
        Some(MmlCommand::LoopStart)
    } else if c == '/' {
        Some(MmlCommand::LoopEscape)
    } else if c == 'W' {
        Some(MmlCommand::SyncWait)
    } else if c == '!' {
        Some(MmlCommand::Ignore)
    } else {
        None
    }
}

/// The command at `pos`, chosen by its first character.
pub open spec fn parse_command_spec(chars: Seq<char>, pos: int, first: Option<ValueFailure>) -> Checked<
    EventModel,
> {
    let c = chars[pos];
    let next = pos + 1;
    if 'a' <= c <= 'g' {
        parse_note_spec(chars, pos, first)
    } else if c == 'r' || c == 'l' {
        parse_rest_or_default_spec(chars, pos, first)
    } else if c == 't' || c == 'o' || c == 'q' || c == 'v' || c == 'p' || c == 'k' || c == 'w'
        || c == 'F' {
        parse_number_command_spec(chars, pos, first)
    } else if c == 'n' {
        parse_numeric_note_spec(chars, pos, first)
    } else if c == '@' {
        parse_at_command_spec(chars, pos, first)
    } else if c == 'M' {
        parse_m_command_spec(chars, pos, first)
    } else if c == 'S' {
        parse_sync_send_spec(chars, pos, first)
    } else if c == ']' {
        parse_repeat_end_spec(chars, pos, first)
    } else if c == 'D' {
        number_event(
            signed_arg_spec(chars, next, first, "D", -32767i32, 32767),
            |value: i32| MmlCommand::Detune(value as i16),
        )
    } else if c == 'y' {
        match number_arg_spec(chars, next, first, "register", 0, 255) {
            (Err(failure), f) => (Err(failure), f),
            (Ok((register, end)), f) => match comma_number_spec(
                chars,
                end,
                f,
                "register value",
                0,
                255,
            ) {
                (Err(failure), f) => (Err(failure), f),
                (Ok((value, end)), f) => (
                    Ok(
                        (
                            plain(
                                MmlCommand::RegisterWrite {
                                    register: register as u8,
                                    value: value as u8,
                                },
                            ),
                            end,
                        ),
                    ),
                    f,
                ),
            },
        }
    } else if c == '[' {
        (Ok((EventModel::RepeatStart(pos as usize), next)), first)
    } else {
        match symbol_command(c) {
            Some(command) => (Ok((plain(command), next)), first),
            None => (
                Err(SyntaxFailure { at: pos as usize, expected: "a valid MML command or end of line" }),
                first,
            ),
        }
    }
}

/// The range a command checks its first number against: the name the check reports, the
/// range, where blanks before the number may begin, and whether that number is the
/// command's only value.
pub open spec fn number_argument(chars: Seq<char>, pos: int) -> Option<(&'static str, i32, i32, int, bool)> {
    let c = chars[pos];
    let next = pos + 1;
    if c == 't' {
        Some(("tempo", 19, 4882, next, true))
    } else if c == 'o' {
        Some(("octave", 0, 8, next, true))
    } else if c == 'q' {
        Some(("q", 1, 8, next, true))
    } else if c == 'v' {
        Some(("v", 0, 15, next, true))
    } else if c == 'p' {
        Some(("p", 0, 3, next, true))
    } else if c == 'k' {
        Some(("k", 0, 255, next, true))
    } else if c == 'w' {
        Some(("w", 0, 31, next, true))
    } else if c == 'F' {
        Some(("PCM frequency", 0, 12, next, true))
    } else if c == '@' {
        if next < chars.len() && chars[next] == 't' {
            Some(("@t", 0, 255, next + 1, true))
        } else if next < chars.len() && chars[next] == 'q' {
            Some(("@q", 1, 256, next + 1, true))
        } else if next < chars.len() && chars[next] == 'v' {
            Some(("@v", 0, 127, next + 1, true))
        } else {
            Some(("voice", 0, 255, next, true))
        }
    } else if c == ']' {
        Some(("repeat", 2, 255, next, true))
    } else if c == 'n' {
        Some(("note number", 0, 95, next, false))
    } else if c == 'y' {
        Some(("register", 0, 255, next, false))
    } else {
        None
    }
}

/// Values are checked against their command's range: when the first number of a command
/// lies outside the range `number_argument` gives, that value, with the command's name and
/// range, is the value failure recorded (which `parse` reports as `InvalidValue`); when it
/// lies inside and is the command's only value, nothing is recorded.
pub proof fn lemma_values_checked_against_their_range(chars: Seq<char>, pos: int)
    requires
        0 <= pos < chars.len(),
        number_argument(chars, pos) is Some,
        digits_end(chars, blanks_end(chars, number_argument(chars, pos)->Some_0.3)) > blanks_end(
            chars,
            number_argument(chars, pos)->Some_0.3,
        ),
        digits_value(
            chars.subrange(
                blanks_end(chars, number_argument(chars, pos)->Some_0.3),
                digits_end(chars, blanks_end(chars, number_argument(chars, pos)->Some_0.3)),
            ),
        ) <= i32::MAX,
    ensures
        ({
            let (command, min, max, arg, sole) = number_argument(chars, pos)->Some_0;
            let start = blanks_end(chars, arg);
            let end = digits_end(chars, start);
            let value = digits_value(chars.subrange(start, end)) as i32;
            &&& !(min <= value <= max) ==> parse_command_spec(chars, pos, None).1 == Some(
                ValueFailure::OutOfRange {
                    command,
                    value,
                    min,
                    max,
                    start: start as usize,
                    end: end as usize,
                },
            )
            &&& (min <= value <= max && sole) ==> parse_command_spec(chars, pos, None).1 is None
        }),
{
    let arg = number_argument(chars, pos)->Some_0.3;
    let start = blanks_end(chars, arg);
    if chars[pos] == ']' {
        assert(start < chars.len() && is_digit(chars[start]));
        assert(blanks_end(chars, start) == start);
    }
}

/// The whole source is one track line: a channel letter, a blank, more blanks up to a
/// command at `pos` that takes a checked number, that number, and the line's end.
pub open spec fn single_value_line(chars: Seq<char>, pos: int) -> bool {
    &&& 2 <= pos < chars.len()
    &&& is_channel(chars[0])
    &&& chars[1] == ' '
    &&& blanks_end(chars, 1) == pos
    &&& number_argument(chars, pos) is Some
    &&& chars[pos] != 'y'
    &&& {
        let start = blanks_end(chars, number_argument(chars, pos)->Some_0.3);
        let end = digits_end(chars, start);
        &&& start < end
        &&& end == chars.len() - 1
        &&& chars[end] == '\n'
        &&& digits_value(chars.subrange(start, end)) <= i32::MAX
    }
}

/// Values are checked against their command's range in what `parse` gives: for a source that
/// is one track line with one checked number (`A t18`, `A @256`, `A ]256`), a value outside the
/// command's range is the parse error, naming the command, the value and the range, which
/// `parse` returns as `InvalidValue`; a value inside it parses (but for a lone `]`, which has no
/// `[` to close).
pub proof fn lemma_parse_checks_value_ranges(chars: Seq<char>, pos: int)
    requires
        single_value_line(chars, pos),
    ensures
        ({
            let (command, min, max, arg, _) = number_argument(chars, pos)->Some_0;
            let start = blanks_end(chars, arg);
            let end = digits_end(chars, start);
            let value = digits_value(chars.subrange(start, end)) as i32;
            let failure = ValueFailure::OutOfRange {
                command,
                value,
                min,
                max,
                start: start as usize,
                end: end as usize,
            };
            &&& !(min <= value <= max) ==> parse_source_spec(chars) == Err::<SourceModel, ErrorModel>(
                value_error_model(chars, failure),
            )
            &&& value_error_model(chars, failure) matches ErrorModel::Value {
                command: c,
                value: v,
                min: lo,
                max: hi,
                ..
            } && c == command && v == value && lo == min && hi == max
            &&& (min <= value <= max && chars[pos] != ']') ==> parse_source_spec(chars) is Ok
        }),
{
    let (command, min, max, arg, sole) = number_argument(chars, pos)->Some_0;
    let start = blanks_end(chars, arg);
    let end = digits_end(chars, start);
    lemma_values_checked_against_their_range(chars, pos);
    lemma_blanks_end_bounds(chars, 1);
    assert(channels_end(chars, 1) == 1);
    assert(channels_end(chars, 0) == 1);
    if chars[pos] == ']' {
        assert(blanks_end(chars, start) == start);
    }
    assert(blanks_end(chars, end) == end);
    assert(skip_trivia_spec(chars, 1, false) == Ok::<int, SyntaxFailure>(pos));
    assert(skip_trivia_spec(chars, end, false) == Ok::<int, SyntaxFailure>(end));
    let parsed = parse_command_spec(chars, pos, None);
    assert(parsed.0 matches Ok((_, e)) && e == end);
    let event = parsed.0->Ok_0.0;
    let after = parsed.1;
    assert(track_events_from(chars, end, seq![event], after) == (Ok::<(Seq<EventModel>, int), SyntaxFailure>((seq![event], end)), after));
    assert(track_events_from(chars, 1, seq![], None) == (Ok::<(Seq<EventModel>, int), SyntaxFailure>((seq![event], end)), after));
    assert(next_line(chars, end) == chars.len());
    let source = SourceModel {
        tracks: if after is None {
            add_events_spec(seq![], chars[0], seq![event])
        } else {
            seq![]
        },
        first: after,
        ..empty_source()
    };
    assert(channel_lines(chars, 1, 1, end, source) == Ok::<(SourceModel, int), SyntaxFailure>((source, end)));
    assert(channel_lines(chars, 0, 1, 1, empty_source()) == Ok::<(SourceModel, int), SyntaxFailure>((source, end)));
    assert(blanks_end(chars, 0) == 0);
    assert(line_spec(chars, 0, empty_source()) == Ok::<(SourceModel, int), SyntaxFailure>((source, end)));
    assert(lines_from(chars, chars.len() as int, source) == Ok::<SourceModel, SyntaxFailure>(source));
    assert(lines_from(chars, 0, empty_source()) == Ok::<SourceModel, SyntaxFailure>(source));
    if after is None && chars[pos] != ']' {
        assert(channel_index_from(seq![], chars[0], 0) is None);
        assert(source.tracks == seq![(chars[0], seq![event])]);
        assert(event is Command);
        assert(open_brackets(seq![event], 0) == Ok::<Seq<usize>, usize>(seq![]));
        assert(open_brackets(seq![event], 1) == Ok::<Seq<usize>, usize>(seq![]));
        assert(bracket_failure(seq![event]) is None);
        assert(first_bracket_failure(source.tracks, 1) is None);
        assert(first_bracket_failure(source.tracks, 0) is None);
    }
}

/// The accidental a sign at `at` writes: `-` flat, `+` sharp, anything else (or the end) none.
pub open spec fn sign_accidental(chars: Seq<char>, at: int) -> Option<Accidental> {
    if 0 <= at < chars.len() && chars[at] == '-' {
        Some(Accidental::Flat)
    } else if 0 <= at < chars.len() && chars[at] == '+' {
        Some(Accidental::Sharp)
    } else {
        None
    }
}

/// The name and accidental of a note command.
pub open spec fn note_parts(command: MmlCommand) -> Option<(char, Option<Accidental>)> {
    match command {
        MmlCommand::Note { name, accidental, .. } => Some((name, accidental)),
        MmlCommand::ExtendedNote { name, accidental, .. } => Some((name, accidental)),
        _ => None,
    }
}

/// A note's accidental is the sign after its name: a note name `a`..`g` followed (after
/// blanks) by `-` is a flat note, by `+` a sharp note, and by anything else a natural one;
/// whatever its length, the command is that note.
pub proof fn lemma_note_signs_are_accidentals(chars: Seq<char>, pos: int, first: Option<ValueFailure>)
    requires
        0 <= pos < chars.len(),
        'a' <= chars[pos] <= 'g',
    ensures
        parse_command_spec(chars, pos, first).0 matches Ok((event, _)) ==> (event matches EventModel::Command(
            command,
            _,
        ) && note_parts(command) == Some((chars[pos], sign_accidental(chars, blanks_end(chars, pos + 1))))),
{
    lemma_blanks_end_bounds(chars, pos + 1);
    assert(parse_command_spec(chars, pos, first) == parse_note_spec(chars, pos, first));
    let after_name = blanks_end(chars, pos + 1);
    let signed = after_name < chars.len() && (chars[after_name] == '+' || chars[after_name] == '-');
    let end = if signed {
        after_name + 1
    } else {
        pos + 1
    };
    match optional_length_spec(chars, end) {
        Ok(Some(syntax)) => {
            let (length, after) = length_value_spec(chars, syntax, first);
            match length {
                LengthModel::Denominator(value) => {},
                _ => {},
            }
        },
        _ => {},
    }
}

/// A named note `a`..`g`, an optional `+` or `-`, and an optional length.
fn parse_note(chars: &Vec<char>, pos: usize, first: &mut Option<ValueFailure>) -> (r: Result<
    (Event, usize),
    SyntaxFailure,
>)
    requires
        pos < chars.len(),
        is_note_name(chars@[pos as int]),
        pending_ok(*old(first), chars@.len()),
    ensures
        event_checked(r, *final(first), parse_note_spec(chars@, pos as int, *old(first))),
        step_ok(chars@, pos as int, *old(first), *final(first), r),
{
    let name = chars[pos];
    let mut end = pos + 1;
    let after_name = skip_blanks(chars, end);
    let mut accidental: Option<Accidental> = None;
    if after_name < chars.len() && (chars[after_name] == '+' || chars[after_name] == '-') {
        accidental = Some(
            if chars[after_name] == '+' {
                Accidental::Sharp
            } else {
                Accidental::Flat
            },
        );
        end = after_name + 1;
    }
    let syntax = match optional_length(chars, end)? {
        None => {
            return Ok((Event::Command(MmlCommand::Note { name, accidental, length: None }), end));
        },
        Some(syntax) => syntax,
    };
    let length_end = syntax.end;
    let term = syntax.terms[0];
    if syntax.terms.len() == 1 && !term.ticks && term.digits_end == term.end && term.digits_end
        - term.digits_start <= 3 {
        // A short plain number is a note length taken as written.
        proof {
            lemma_digits_value_bound(
                chars@.subrange(term.digits_start as int, term.digits_end as int),
            );
            assert(pow10((term.digits_end - term.digits_start) as nat) <= 1000) by {
                assert(pow10(0) == 1);
                assert(pow10(1) == 10);
                assert(pow10(2) == 100);
                assert(pow10(3) == 1000);
            }
        }
        let value = match digits_to_i32(chars, term.digits_start, term.digits_end) {
            Some(value) => value,
            None => 0,
        };
        return Ok(
            (
                Event::Command(MmlCommand::Note { name, accidental, length: Some(value as u16) }),
                length_end,
            ),
        );
    }
    let length = length_value(chars, &syntax, first);
    let command = match length {
        MmlLength::Denominator(value) => MmlCommand::Note { name, accidental, length: Some(value) },
        length => MmlCommand::ExtendedNote { name, accidental, length },
    };
    Ok((Event::Command(command), length_end))
}

/// `r` with an optional length, or `l` with an optional default length.
fn parse_rest_or_default(chars: &Vec<char>, pos: usize, first: &mut Option<ValueFailure>) -> (r:
    Result<(Event, usize), SyntaxFailure>)
    requires
        pos < chars.len(),
        chars@[pos as int] == 'r' || chars@[pos as int] == 'l',
        pending_ok(*old(first), chars@.len()),
    ensures
        event_checked(r, *final(first), parse_rest_or_default_spec(chars@, pos as int, *old(first))),
        step_ok(chars@, pos as int, *old(first), *final(first), r),
{
    let rest = chars[pos] == 'r';
    let end = pos + 1;
    let syntax = match optional_length(chars, end)? {
        None => {
            let command = if rest {
                MmlCommand::Rest { length: None }
            } else {
                MmlCommand::DefaultLengthReset
            };
            return Ok((Event::Command(command), end));
        },
        Some(syntax) => syntax,
    };
    let length = length_value(chars, &syntax, first);
    let command = if rest {
        match length {
            MmlLength::Denominator(value) => MmlCommand::Rest { length: Some(value) },
            length => MmlCommand::ExtendedRest(length),
        }
    } else {
        MmlCommand::DefaultLength(length)
    };
    Ok((Event::Command(command), syntax.end))
}

/// `n` with a note number and an optional `,` length.
fn parse_numeric_note(chars: &Vec<char>, pos: usize, first: &mut Option<ValueFailure>) -> (r:
    Result<(Event, usize), SyntaxFailure>)
    requires
        pos < chars.len(),
        pending_ok(*old(first), chars@.len()),
    ensures
        event_checked(r, *final(first), parse_numeric_note_spec(chars@, pos as int, *old(first))),
        step_ok(chars@, pos as int, *old(first), *final(first), r),
{
    let (note, end) = number_arg(chars, pos + 1, first, "note number", 0, 95)?;
    let at = skip_blanks(chars, end);
    if at >= chars.len() || chars[at] != ',' {
        return Ok((Event::Command(MmlCommand::NumericNote { note: note as u8, length: None }), end));
    }
    let start = skip_blanks(chars, at + 1);
    let syntax = length_syntax(chars, start)?;
    let length = length_value(chars, &syntax, first);
    Ok(
        (
            Event::Command(MmlCommand::NumericNote { note: note as u8, length: Some(length) }),
            syntax.end,
        ),
    )
}

/// `@t`, `@q`, `@v`, or `@` with a voice number.
fn parse_at_command(chars: &Vec<char>, pos: usize, first: &mut Option<ValueFailure>) -> (r: Result<
    (Event, usize),
    SyntaxFailure,
>)
    requires
        pos < chars.len(),
        pending_ok(*old(first), chars@.len()),
    ensures
        event_checked(r, *final(first), parse_at_command_spec(chars@, pos as int, *old(first))),
        step_ok(chars@, pos as int, *old(first), *final(first), r),
{
    let next = pos + 1;
    if next < chars.len() && chars[next] == 't' {
        let (value, end) = number_arg(chars, next + 1, first, "@t", 0, 255)?;
        Ok((Event::Command(MmlCommand::OpmTempo(value as u8)), end))
    } else if next < chars.len() && chars[next] == 'q' {
        let (value, end) = number_arg(chars, next + 1, first, "@q", 1, 256)?;
        Ok((Event::Command(MmlCommand::FineGate(value as u16)), end))
    } else if next < chars.len() && chars[next] == 'v' {
        let (value, end) = number_arg(chars, next + 1, first, "@v", 0, 127)?;
        Ok((Event::Command(MmlCommand::FineVolume(value as u8)), end))
    } else {
        let (value, end) = number_arg(chars, next, first, "voice", 0, 255)?;
        Ok((Event::Command(MmlCommand::VoiceSelect(value as u8)), end))
    }
}

/// Whether `chars[pos..pos + 2]` is `a` then `b`.
fn pair_at(chars: &Vec<char>, pos: usize, a: char, b: char) -> (r: bool)
    requires
        pos <= chars.len(),
    ensures
        r == (pos + 2 <= chars@.len() && chars@[pos as int] == a && chars@[pos + 1] == b),
        r == pair_at_spec(chars@, pos as int, a, b),
{
    pos < chars.len() && chars.len() - pos >= 2 && chars[pos] == a && chars[pos + 1] == b
}

/// The waveform, period and amplitude of `MP` or `MA`.
fn parse_lfo_arguments(chars: &Vec<char>, pos: usize, first: &mut Option<ValueFailure>) -> (r:
    Result<(i32, i32, i32, usize), SyntaxFailure>)
    requires
        pos <= chars.len(),
        pending_ok(*old(first), chars@.len()),
    ensures
        match r {
            Ok((waveform, period, amplitude, end)) => parse_lfo_arguments_spec(
                chars@,
                pos as int,
                *old(first),
            ) == (
                Ok::<((i32, i32, i32), int), SyntaxFailure>(((waveform, period, amplitude), end as int)),
                *final(first),
            ),
            Err(failure) => parse_lfo_arguments_spec(chars@, pos as int, *old(first)).0 == Err::<
                ((i32, i32, i32), int),
                SyntaxFailure,
            >(failure),
        },
        *old(first) is Some ==> *final(first) == *old(first),
        pending_ok(*final(first), chars@.len()),
        r matches Ok((waveform, period, amplitude, end)) ==> pos < end <= chars@.len() && (
        *final(first) is None ==> *old(first) is None && 0 <= waveform <= 7 && 0 <= period
            <= 65535 && -32768 <= amplitude <= 32767),
        r matches Err(failure) ==> failure.at <= chars@.len(),
{
    let (waveform, end) = number_arg(chars, pos, first, "LFO waveform", 0, 7)?;
    let end = comma(chars, end)?;
    let (period, end) = number_arg(chars, end, first, "LFO period", 0, 65535)?;
    let end = comma(chars, end)?;
    let (amplitude, end) = signed_arg(chars, end, first, "LFO amplitude", -32768, 32767)?;
    Ok((waveform, period, amplitude, end))
}

/// The seven values of `MH`.
fn parse_opm_lfo(chars: &Vec<char>, pos: usize, first: &mut Option<ValueFailure>) -> (r: Result<
    (Event, usize),
    SyntaxFailure,
>)
    requires
        pos <= chars.len(),
        pending_ok(*old(first), chars@.len()),
    ensures
        event_checked(r, *final(first), parse_opm_lfo_spec(chars@, pos as int, *old(first))),
        step_ok(chars@, pos as int, *old(first), *final(first), r),
{
    let (waveform, end) = number_arg(chars, pos, first, "OPM LFO waveform", 0, 3)?;
    let end = comma(chars, end)?;
    let (lfrq, end) = number_arg(chars, end, first, "OPM LFO value", 0, 255)?;
    let end = comma(chars, end)?;
    let (pmd, end) = number_arg(chars, end, first, "OPM LFO value", 0, 255)?;
    let end = comma(chars, end)?;
    let (amd, end) = number_arg(chars, end, first, "OPM LFO value", 0, 255)?;
    let end = comma(chars, end)?;
    let (pms, end) = number_arg(chars, end, first, "OPM LFO value", 0, 255)?;
    let end = comma(chars, end)?;
    let (ams, end) = number_arg(chars, end, first, "OPM LFO value", 0, 255)?;
    let end = comma(chars, end)?;
    let (key_sync, end) = number_arg(chars, end, first, "OPM LFO key sync", 0, 1)?;
    Ok(
        (
            Event::Command(
                MmlCommand::OpmLfo {
                    waveform: waveform as u8,
                    lfrq: lfrq as u8,
                    pmd: pmd as u8,
                    amd: amd as u8,
                    pms: pms as u8,
                    ams: ams as u8,
                    key_sync: key_sync as u8,
                },
            ),
            end,
        ),
    )
}

/// The `M` commands: `MP`, `MA`, `MD`, `MH` and their `ON` and `OF` forms.
fn parse_m_command(chars: &Vec<char>, pos: usize, first: &mut Option<ValueFailure>) -> (r: Result<
    (Event, usize),
    SyntaxFailure,
>)
    requires
        pos < chars.len(),
        pending_ok(*old(first), chars@.len()),
    ensures
        event_checked(r, *final(first), parse_m_command_spec(chars@, pos as int, *old(first))),
        step_ok(chars@, pos as int, *old(first), *final(first), r),
{
    let next = pos + 1;
    if next >= chars.len() {
        return Err(SyntaxFailure { at: next, expected: "P, A, D or H" });
    }
    let kind = chars[next];
    let after = next + 1;
    if kind == 'D' {
        let (value, end) = number_arg(chars, after, first, "MD", 0, 255)?;
        return Ok((Event::Command(MmlCommand::LfoDelay(value as u8)), end));
    }
    if kind != 'P' && kind != 'A' && kind != 'H' {
        return Err(SyntaxFailure { at: next, expected: "P, A, D or H" });
    }
    if pair_at(chars, after, 'O', 'N') {
        let command = if kind == 'P' {
            MmlCommand::PitchLfoOn
        } else if kind == 'A' {
            MmlCommand::VolumeLfoOn
        } else {
            MmlCommand::OpmLfoOn
        };
        return Ok((Event::Command(command), after + 2));
    }
    if pair_at(chars, after, 'O', 'F') {
        let command = if kind == 'P' {
            MmlCommand::PitchLfoOff
        } else if kind == 'A' {
            MmlCommand::VolumeLfoOff
        } else {
            MmlCommand::OpmLfoOff
        };
        return Ok((Event::Command(command), after + 2));
    }
    if kind == 'H' {
        return parse_opm_lfo(chars, after, first);
    }
    let (waveform, period, amplitude, end) = parse_lfo_arguments(chars, after, first)?;
    let command = if kind == 'P' {
        MmlCommand::PitchLfo {
            waveform: waveform as u8,
            period: period as u16,
            amplitude: amplitude as i16,
        }
    } else {
        MmlCommand::VolumeLfo {
            waveform: waveform as u8,
            period: period as u16,
            amplitude: amplitude as i16,
        }
    };
    Ok((Event::Command(command), end))
}

/// The channel index of an MML channel letter: `A`..`H` are 0..7, `P`..`W` are 8..15.
pub open spec fn is_channel(c: char) -> bool {
    ('A' <= c <= 'H') || ('P' <= c <= 'W')
}

/// `S` with a channel letter or a channel number.
fn parse_sync_send(chars: &Vec<char>, pos: usize, first: &mut Option<ValueFailure>) -> (r: Result<
    (Event, usize),
    SyntaxFailure,
>)
    requires
        pos < chars.len(),
        pending_ok(*old(first), chars@.len()),
    ensures
        event_checked(r, *final(first), parse_sync_send_spec(chars@, pos as int, *old(first))),
        step_ok(chars@, pos as int, *old(first), *final(first), r),
{
    let at = skip_blanks(chars, pos + 1);
    if at < chars.len() && 'A' <= chars[at] && chars[at] <= 'H' {
        let value = (chars[at] as u32 - 'A' as u32) as u8;
        return Ok((Event::Command(MmlCommand::SyncSend(value)), at + 1));
    }
    if at < chars.len() && 'P' <= chars[at] && chars[at] <= 'W' {
        let value = (chars[at] as u32 - 'P' as u32 + 8) as u8;
        return Ok((Event::Command(MmlCommand::SyncSend(value)), at + 1));
    }
    if at < chars.len() && '0' <= chars[at] && chars[at] <= '9' {
        let (value, end) = number_arg(chars, at, first, "sync channel", 0, 255)?;
        return Ok((Event::Command(MmlCommand::SyncSend(value as u8)), end));
    }
    Err(SyntaxFailure { at, expected: "a channel or unsigned integer" })
}

/// `]` with an optional repeat count, 2 when absent.
fn parse_repeat_end(chars: &Vec<char>, pos: usize, first: &mut Option<ValueFailure>) -> (r: Result<
    (Event, usize),
    SyntaxFailure,
>)
    requires
        pos < chars.len(),
        pending_ok(*old(first), chars@.len()),
    ensures
        event_checked(r, *final(first), parse_repeat_end_spec(chars@, pos as int, *old(first))),
        step_ok(chars@, pos as int, *old(first), *final(first), r),
{
    let at = skip_blanks(chars, pos + 1);
    if at < chars.len() && '0' <= chars[at] && chars[at] <= '9' {
        let (count, end) = number_arg(chars, at, first, "repeat", 2, 255)?;
        Ok((Event::RepeatEnd(count as u16, pos), end))
    } else {
        Ok((Event::RepeatEnd(2, pos), pos + 1))
    }
}

/// A command with one unsigned argument, checked against its range.
fn parse_number_command(
    chars: &Vec<char>,
    pos: usize,
    first: &mut Option<ValueFailure>,
) -> (r: Result<(Event, usize), SyntaxFailure>)
    requires
        pos < chars.len(),
        chars@[pos as int] == 't' || chars@[pos as int] == 'o' || chars@[pos as int] == 'q'
            || chars@[pos as int] == 'v' || chars@[pos as int] == 'p' || chars@[pos as int] == 'k'
            || chars@[pos as int] == 'w' || chars@[pos as int] == 'F',
        pending_ok(*old(first), chars@.len()),
    ensures
        event_checked(r, *final(first), parse_number_command_spec(chars@, pos as int, *old(first))),
        step_ok(chars@, pos as int, *old(first), *final(first), r),
{
    let letter = chars[pos];
    let next = pos + 1;
    if letter == 't' {
        let (value, end) = number_arg(chars, next, first, "tempo", 19, 4882)?;
        Ok((Event::Command(MmlCommand::Tempo(value as u32)), end))
    } else if letter == 'o' {
        let (value, end) = number_arg(chars, next, first, "octave", 0, 8)?;
        Ok((Event::Command(MmlCommand::Octave(value as u8)), end))
    } else if letter == 'q' {
        let (value, end) = number_arg(chars, next, first, "q", 1, 8)?;
        Ok((Event::Command(MmlCommand::Gate(value as u8)), end))
    } else if letter == 'v' {
        let (value, end) = number_arg(chars, next, first, "v", 0, 15)?;
        Ok((Event::Command(MmlCommand::Volume(value as u8)), end))
    } else if letter == 'p' {
        let (value, end) = number_arg(chars, next, first, "p", 0, 3)?;
        Ok((Event::Command(MmlCommand::Pan(value as u8)), end))
    } else if letter == 'k' {
        let (value, end) = number_arg(chars, next, first, "k", 0, 255)?;
        Ok((Event::Command(MmlCommand::KeyOnDelay(value as u8)), end))
    } else if letter == 'w' {
        let (value, end) = number_arg(chars, next, first, "w", 0, 31)?;
        Ok((Event::Command(MmlCommand::NoiseFrequency(value as u8)), end))
    } else {
        let (value, end) = number_arg(chars, next, first, "PCM frequency", 0, 12)?;
        Ok((Event::Command(MmlCommand::PcmFrequency(value as u8)), end))
    }
}

/// The command at `pos`, which holds neither blanks, a comment nor a line break.
fn parse_command(chars: &Vec<char>, pos: usize, first: &mut Option<ValueFailure>) -> (r: Result<
    (Event, usize),
    SyntaxFailure,
>)
    requires
        pos < chars.len(),
        pending_ok(*old(first), chars@.len()),
    ensures
        event_checked(r, *final(first), parse_command_spec(chars@, pos as int, *old(first))),
        step_ok(chars@, pos as int, *old(first), *final(first), r),
{
    let c = chars[pos];
    let next = pos + 1;
    if 'a' <= c && c <= 'g' {
        parse_note(chars, pos, first)
    } else if c == 'r' || c == 'l' {
        parse_rest_or_default(chars, pos, first)
    } else if c == 't' || c == 'o' || c == 'q' || c == 'v' || c == 'p' || c == 'k' || c == 'w'
        || c == 'F' {
        parse_number_command(chars, pos, first)
    } else if c == 'n' {
        parse_numeric_note(chars, pos, first)
    } else if c == '@' {
        parse_at_command(chars, pos, first)
    } else if c == 'M' {
        parse_m_command(chars, pos, first)
    } else if c == 'S' {
        parse_sync_send(chars, pos, first)
    } else if c == ']' {
        parse_repeat_end(chars, pos, first)
    } else if c == 'D' {
        let (value, end) = signed_arg(chars, next, first, "D", -32767, 32767)?;
        Ok((Event::Command(MmlCommand::Detune(value as i16)), end))
    } else if c == 'y' {
        let (register, end) = number_arg(chars, next, first, "register", 0, 255)?;
        let end = comma(chars, end)?;
        let (value, end) = number_arg(chars, end, first, "register value", 0, 255)?;
        Ok(
            (
                Event::Command(
                    MmlCommand::RegisterWrite { register: register as u8, value: value as u8 },
                ),
                end,
            ),
        )
    } else if c == '[' {
        Ok((Event::RepeatStart(pos), next))
    } else {
        let command = if c == '<' {
            MmlCommand::OctaveDown
        } else if c == '>' {
            MmlCommand::OctaveUp
        } else if c == '(' {
            MmlCommand::VolumeDown
        } else if c == ')' {
            MmlCommand::VolumeUp
        } else if c == '_' {
            MmlCommand::Portamento
        } else if c == '&' {
            MmlCommand::Legato
        } else if c == 'L' {
            MmlCommand::LoopStart
        } else if c == '/' {
            MmlCommand::LoopEscape
        } else if c == 'W' {
            MmlCommand::SyncWait
        } else if c == '!' {
            MmlCommand::Ignore
        } else {
            return Err(SyntaxFailure { at: pos, expected: "a valid MML command or end of line" });
        };
        Ok((Event::Command(command), next))
    }
}

/// A line ends at a line feed, a carriage return, or the end of input.
pub open spec fn at_line_end(chars: Seq<char>, pos: int) -> bool {
    pos >= chars.len() || chars[pos] == '\n' || chars[pos] == '\r'
}

fn is_line_end_at(chars: &Vec<char>, pos: usize) -> (r: bool)
    requires
        pos <= chars.len(),
    ensures
        r == at_line_end(chars@, pos as int),
{
    pos >= chars.len() || chars[pos] == '\n' || chars[pos] == '\r'
}

/// The position after the first `*/` at or after `index`.
pub open spec fn comment_close(chars: Seq<char>, index: int) -> Result<int, SyntaxFailure>
    decreases chars.len() - index,
{
    if index < 0 || index >= chars.len() {
        Err(SyntaxFailure { at: chars.len() as usize, expected: "'*/'" })
    } else if chars[index] == '*' && index + 1 < chars.len() && chars[index + 1] == '/' {
        Ok(index + 2)
    } else {
        comment_close(chars, index + 1)
    }
}

/// The end of a block comment that opens at `pos` with `/*`: the position after its `*/`.
fn block_comment_end(chars: &Vec<char>, pos: usize) -> (r: Result<usize, SyntaxFailure>)
    requires
        pos + 2 <= chars.len(),
    ensures
        match r {
            Ok(end) => comment_close(chars@, pos + 2) == Ok::<int, SyntaxFailure>(end as int),
            Err(failure) => comment_close(chars@, pos + 2) == Err::<int, SyntaxFailure>(failure),
        },
        r matches Ok(end) ==> pos + 2 <= end <= chars@.len(),
        r matches Err(failure) ==> failure.at <= chars@.len(),
{
    let mut index = pos + 2;
    while index < chars.len()
        invariant
            pos + 2 <= index <= chars@.len(),
            comment_close(chars@, pos + 2) == comment_close(chars@, index as int),
        decreases chars@.len() - index,
    {
        if chars[index] == '*' && index + 1 < chars.len() && chars[index + 1] == '/' {
            return Ok(index + 2);
        }
        index += 1;
    }
    Err(SyntaxFailure { at: chars.len(), expected: "'*/'" })
}

/// The end of the blanks and block comments that start at `pos`; with
/// `across_lines`, line breaks count as blanks too.
pub open spec fn skip_trivia_spec(chars: Seq<char>, pos: int, across_lines: bool) -> Result<
    int,
    SyntaxFailure,
>
    decreases chars.len() - pos,
{
    let at = blanks_end(chars, pos);
    if 0 <= pos && across_lines && at < chars.len() && (chars[at] == '\n' || chars[at] == '\r') {
        proof {
            lemma_blanks_end_bounds(chars, pos);
        }
        skip_trivia_spec(chars, at + 1, across_lines)
    } else if 0 <= pos && pair_at_spec(chars, at, '/', '*') {
        match comment_close(chars, at + 2) {
            Err(failure) => Err(failure),
            Ok(end) => if pos < end <= chars.len() {
                skip_trivia_spec(chars, end, across_lines)
            } else {
                Ok(at)
            },
        }
    } else {
        Ok(at)
    }
}

fn skip_trivia(chars: &Vec<char>, pos: usize, across_lines: bool) -> (r: Result<
    usize,
    SyntaxFailure,
>)
    requires
        pos <= chars.len(),
    ensures
        match r {
            Ok(end) => skip_trivia_spec(chars@, pos as int, across_lines) == Ok::<int, SyntaxFailure>(
                end as int,
            ),
            Err(failure) => skip_trivia_spec(chars@, pos as int, across_lines) == Err::<
                int,
                SyntaxFailure,
            >(failure),
        },
        r matches Ok(end) ==> pos <= end <= chars@.len(),
        r matches Err(failure) ==> failure.at <= chars@.len(),
{
    let mut at = pos;
    loop
        invariant
            pos <= at <= chars@.len(),
            skip_trivia_spec(chars@, pos as int, across_lines) == skip_trivia_spec(
                chars@,
                at as int,
                across_lines,
            ),
        decreases chars@.len() - at,
    {
        let ghost start = at;
        let blank_end = skip_blanks(chars, at);
        at = blank_end;
        if across_lines && at < chars.len() && (chars[at] == '\n' || chars[at] == '\r') {
            at = at + 1;
        } else if pair_at(chars, at, '/', '*') {
            at = block_comment_end(chars, at)?;
        } else {
            return Ok(at);
        }
    }
}

/// The first line break at or after `pos`, or the end of input.
pub open spec fn comment_end_spec(chars: Seq<char>, pos: int) -> int
    decreases chars.len() - pos,
{
    if 0 <= pos < chars.len() && chars[pos] != '\n' && chars[pos] != '\r' {
        comment_end_spec(chars, pos + 1)
    } else {
        pos
    }
}

/// The end of a `;` comment or of the current line: the first line break at or after `pos`.
fn comment_end(chars: &Vec<char>, pos: usize) -> (end: usize)
    requires
        pos <= chars.len(),
    ensures
        end == comment_end_spec(chars@, pos as int),
        pos <= end <= chars@.len(),
        at_line_end(chars@, end as int),
{
    let mut end = pos;
    while end < chars.len() && chars[end] != '\n' && chars[end] != '\r'
        invariant
            pos <= end <= chars@.len(),
            comment_end_spec(chars@, pos as int) == comment_end_spec(chars@, end as int),
        decreases chars@.len() - end,
    {
        end += 1;
    }
    end
}

/// What may close a line after its content: blanks, block comments, a `;` comment.
pub open spec fn line_tail_spec(chars: Seq<char>, pos: int) -> Result<int, SyntaxFailure> {
    match skip_trivia_spec(chars, pos, false) {
        Err(failure) => Err(failure),
        Ok(at) => if at_line_end(chars, at) {
            Ok(at)
        } else if chars[at] == ';' {
            Ok(comment_end_spec(chars, at))
        } else {
            Err(SyntaxFailure { at: at as usize, expected: "end of line" })
        },
    }
}

fn line_tail(chars: &Vec<char>, pos: usize) -> (r: Result<usize, SyntaxFailure>)
    requires
        pos <= chars.len(),
    ensures
        match r {
            Ok(end) => line_tail_spec(chars@, pos as int) == Ok::<int, SyntaxFailure>(end as int),
            Err(failure) => line_tail_spec(chars@, pos as int) == Err::<int, SyntaxFailure>(failure),
        },
        r matches Ok(end) ==> pos <= end <= chars@.len() && at_line_end(chars@, end as int),
        r matches Err(failure) ==> failure.at <= chars@.len(),
{
    let at = skip_trivia(chars, pos, false)?;
    if is_line_end_at(chars, at) {
        Ok(at)
    } else if chars[at] == ';' {
        Ok(comment_end(chars, at))
    } else {
        Err(SyntaxFailure { at, expected: "end of line" })
    }
}

spec fn events_ok(events: Seq<Event>) -> bool {
    forall|i: int| 0 <= i < events.len() ==> event_ok(#[trigger] events[i])
}

/// The meanings of events.
pub open spec fn events_models(events: Seq<Event>) -> Seq<EventModel> {
    events.map_values(|event: Event| event_model(event))
}

/// The events of a track line from `pos` to the end of the line, after `events`;
/// a `;` comment ends the line.
pub open spec fn track_events_from(
    chars: Seq<char>,
    pos: int,
    events: Seq<EventModel>,
    first: Option<ValueFailure>,
) -> Checked<Seq<EventModel>>
    decreases chars.len() - pos,
{
    match skip_trivia_spec(chars, pos, false) {
        Err(failure) => (Err(failure), first),
        Ok(at) => if at_line_end(chars, at) {
            (Ok((events, at)), first)
        } else if chars[at] == ';' {
            (Ok((events, comment_end_spec(chars, at))), first)
        } else {
            match parse_command_spec(chars, at, first) {
                (Err(failure), after) => (Err(failure), after),
                (Ok((event, end)), after) => if pos < end <= chars.len() {
                    track_events_from(chars, end, events.push(event), after)
                } else {
                    (Ok((events, end)), after)
                },
            }
        },
    }
}

/// Whether parsed events are the ones `spec` gives: the same end or syntax
/// failure, the same failure record, and, while no value failed, the same events.
pub open spec fn events_checked(
    r: Result<(Vec<Event>, usize), SyntaxFailure>,
    first: Option<ValueFailure>,
    spec: Checked<Seq<EventModel>>,
) -> bool {
    match r {
        Ok((events, end)) => spec.0 matches Ok((models, spec_end)) && spec_end == end && first
            == spec.1 && (first is None ==> events_models(events@) == models),
        Err(failure) => spec.0 == Err::<(Seq<EventModel>, int), SyntaxFailure>(failure),
    }
}

/// The commands of a track line from `pos` to the end of the line.
fn parse_track_commands(chars: &Vec<char>, pos: usize, first: &mut Option<ValueFailure>) -> (r:
    Result<(Vec<Event>, usize), SyntaxFailure>)
    requires
        pos <= chars.len(),
        pending_ok(*old(first), chars@.len()),
    ensures
        events_checked(r, *final(first), track_events_from(chars@, pos as int, seq![], *old(first))),
        *old(first) is Some ==> *final(first) == *old(first),
        pending_ok(*final(first), chars@.len()),
        r matches Ok((events, end)) ==> pos <= end <= chars@.len() && at_line_end(
            chars@,
            end as int,
        ) && (*final(first) is None ==> *old(first) is None && events_ok(events@)),
        r matches Err(failure) ==> failure.at <= chars@.len(),
{
    let mut events: Vec<Event> = Vec::new();
    let mut at = pos;
    let ghost mut models: Seq<EventModel> = seq![];
    loop
        invariant
            pos <= at <= chars@.len(),
            *old(first) is Some ==> *first == *old(first),
            pending_ok(*first, chars@.len()),
            *first is None ==> *old(first) is None && events_ok(events@),
            track_events_from(chars@, pos as int, seq![], *old(first)) == track_events_from(
                chars@,
                at as int,
                models,
                *first,
            ),
            *first is None ==> events_models(events@) == models,
        decreases chars@.len() - at,
    {
        let ghost start = at;
        let ghost before = *first;
        at = skip_trivia(chars, at, false)?;
        if is_line_end_at(chars, at) {
            return Ok((events, at));
        }
        if chars[at] == ';' {
            let end = comment_end(chars, at);
            return Ok((events, end));
        }
        let ghost events_before = events@;
        let (event, end) = parse_command(chars, at, first)?;
        events.push(event);
        proof {
            let model = parse_command_spec(chars@, at as int, before).0->Ok_0.0;
            assert(track_events_from(chars@, start as int, models, before) == track_events_from(
                chars@,
                end as int,
                models.push(model),
                *first,
            ));
            if *first is None {
                assert(events_models(events@) =~= events_models(events_before).push(event_model(event)));
            }
            models = models.push(model);
        }
        at = end;
    }
}

/// The end of the run of channel letters that starts at `pos`.
pub open spec fn channels_end(chars: Seq<char>, pos: int) -> int
    decreases chars.len() - pos,
{
    if 0 <= pos < chars.len() && is_channel(chars[pos]) {
        channels_end(chars, pos + 1)
    } else {
        pos
    }
}

fn channel_run(chars: &Vec<char>, pos: usize) -> (end: usize)
    requires
        pos <= chars.len(),
    ensures
        end == channels_end(chars@, pos as int),
        pos <= end <= chars@.len(),
        forall|i: int| pos <= i < end ==> is_channel(#[trigger] chars@[i]),
        end == chars@.len() || !is_channel(chars@[end as int]),
{
    let mut end = pos;
    while end < chars.len() && (('A' <= chars[end] && chars[end] <= 'H') || ('P' <= chars[end]
        && chars[end] <= 'W'))
        invariant
            pos <= end <= chars@.len(),
            forall|i: int| pos <= i < end ==> is_channel(#[trigger] chars@[i]),
            channels_end(chars@, pos as int) == channels_end(chars@, end as int),
        decreases chars@.len() - end,
    {
        end += 1;
    }
    end
}

/// A letter in lower case.
pub open spec fn lower(c: char) -> char {
    if 'A' <= c <= 'Z' {
        ((c as u32) + 32) as char
    } else {
        c
    }
}

fn to_lower(c: char) -> (r: char)
    ensures
        r == lower(c),
{
    if 'A' <= c && c <= 'Z' {
        let code = c as u32 + 32;
        assert(code < 128);
        let byte = code as u8;
        byte as char
    } else {
        c
    }
}

/// Whether `chars[start..end]` spells `word` without regard to case.
pub open spec fn word_is_spec(chars: Seq<char>, start: int, end: int, word: Seq<char>) -> bool {
    end - start == word.len() && forall|i: int|
        0 <= i < word.len() ==> lower(#[trigger] chars[start + i]) == lower(word[i])
}

/// An ASCII letter.
pub open spec fn is_letter(c: char) -> bool {
    ('a' <= c <= 'z') || ('A' <= c <= 'Z')
}

/// The end of the letters that start at `pos`.
pub open spec fn letters_end(chars: Seq<char>, pos: int) -> int
    decreases chars.len() - pos,
{
    if 0 <= pos < chars.len() && is_letter(chars[pos]) {
        letters_end(chars, pos + 1)
    } else {
        pos
    }
}

/// The end of a quoted text that starts at `pos`: the next `"` or line feed.
pub open spec fn quoted_end(chars: Seq<char>, pos: int) -> int
    decreases chars.len() - pos,
{
    if 0 <= pos < chars.len() && chars[pos] != '"' && chars[pos] != '\n' {
        quoted_end(chars, pos + 1)
    } else {
        pos
    }
}

/// A `#title` or `#pcmfile` line (the word in any case): which one, its quoted
/// text, and the end of the line.
pub open spec fn parse_metadata_spec(chars: Seq<char>, pos: int) -> Result<
    (bool, Seq<char>, int),
    SyntaxFailure,
> {
    let word_start = pos + 1;
    let word_end = letters_end(chars, word_start);
    let is_title = word_is_spec(chars, word_start, word_end, seq!['t', 'i', 't', 'l', 'e']);
    let is_pcm = word_is_spec(
        chars,
        word_start,
        word_end,
        seq!['p', 'c', 'm', 'f', 'i', 'l', 'e'],
    );
    let quote = blanks_end(chars, word_end);
    let close = quoted_end(chars, quote + 1);
    if !is_title && !is_pcm {
        Err(SyntaxFailure { at: word_start as usize, expected: "#title or #pcmfile" })
    } else if quote >= chars.len() || chars[quote] != '"' {
        Err(SyntaxFailure { at: quote as usize, expected: "'\"'" })
    } else if close >= chars.len() || chars[close] != '"' {
        Err(SyntaxFailure { at: close as usize, expected: "'\"'" })
    } else {
        match line_tail_spec(chars, close + 1) {
            Err(failure) => Err(failure),
            Ok(end) => Ok((is_title, chars.subrange(quote + 1, close), end)),
        }
    }
}

fn word_is(chars: &Vec<char>, start: usize, end: usize, word: &[char]) -> (r: bool)
    requires
        start <= end <= chars.len(),
    ensures
        r == (end - start == word@.len() && forall|i: int|
            0 <= i < word@.len() ==> lower(#[trigger] chars@[start + i]) == lower(word@[i])),
{
    if end - start != word.len() {
        return false;
    }
    let mut index: usize = 0;
    while index < word.len()
        invariant
            end - start == word@.len(),
            start <= end <= chars@.len(),
            index <= word@.len(),
            forall|i: int| 0 <= i < index ==> lower(#[trigger] chars@[start + i]) == lower(word@[i]),
        decreases word@.len() - index,
    {
        if to_lower(chars[start + index]) != to_lower(word[index]) {
            return false;
        }
        index += 1;
    }
    true
}

/// A `#title` or `#pcmfile` line: which one, its quoted text, and the end of the line.
fn parse_metadata(chars: &Vec<char>, pos: usize) -> (r: Result<(bool, Vec<char>, usize), SyntaxFailure>)
    requires
        pos < chars.len(),
        chars@[pos as int] == '#',
    ensures
        match r {
            Ok((is_title, text, end)) => parse_metadata_spec(chars@, pos as int) == Ok::<
                (bool, Seq<char>, int),
                SyntaxFailure,
            >((is_title, text@, end as int)),
            Err(failure) => parse_metadata_spec(chars@, pos as int) == Err::<
                (bool, Seq<char>, int),
                SyntaxFailure,
            >(failure),
        },
        r matches Ok((_, _, end)) ==> pos < end <= chars@.len() && at_line_end(chars@, end as int),
        r matches Err(failure) ==> failure.at <= chars@.len(),
{
    let word_start = pos + 1;
    let mut word_end = word_start;
    while word_end < chars.len() && (('a' <= chars[word_end] && chars[word_end] <= 'z') || ('A'
        <= chars[word_end] && chars[word_end] <= 'Z'))
        invariant
            word_start <= word_end <= chars@.len(),
            letters_end(chars@, word_start as int) == letters_end(chars@, word_end as int),
        decreases chars@.len() - word_end,
    {
        word_end += 1;
    }
    let title_word = ['t', 'i', 't', 'l', 'e'];
    let pcm_word = ['p', 'c', 'm', 'f', 'i', 'l', 'e'];
    let is_title = word_is(chars, word_start, word_end, &title_word);
    let is_pcm = word_is(chars, word_start, word_end, &pcm_word);
    proof {
        assert(title_word@ =~= seq!['t', 'i', 't', 'l', 'e']);
        assert(pcm_word@ =~= seq!['p', 'c', 'm', 'f', 'i', 'l', 'e']);
    }
    if !is_title && !is_pcm {
        return Err(SyntaxFailure { at: word_start, expected: "#title or #pcmfile" });
    }
    let quote = skip_blanks(chars, word_end);
    if quote >= chars.len() || chars[quote] != '"' {
        return Err(SyntaxFailure { at: quote, expected: "'\"'" });
    }
    let mut text: Vec<char> = Vec::new();
    let mut index = quote + 1;
    while index < chars.len() && chars[index] != '"' && chars[index] != '\n'
        invariant
            quote < index <= chars@.len(),
            quoted_end(chars@, quote + 1) == quoted_end(chars@, index as int),
            text@ == chars@.subrange(quote + 1, index as int),
        decreases chars@.len() - index,
    {
        text.push(chars[index]);
        index += 1;
    }
    if index >= chars.len() || chars[index] != '"' {
        return Err(SyntaxFailure { at: index, expected: "'\"'" });
    }
    let end = line_tail(chars, index + 1)?;
    Ok((is_title, text, end))
}

/// The parameters of a voice from `at` on, after `values`: 47 in all, separated by
/// `,`, with blanks, block comments and line breaks between them.
pub open spec fn voice_values_from(
    chars: Seq<char>,
    at: int,
    values: Seq<u8>,
    first: Option<ValueFailure>,
) -> Checked<Seq<u8>>
    decreases 47 - values.len(),
{
    if values.len() >= 47 {
        (Ok((values, at)), first)
    } else {
        let start: Result<int, SyntaxFailure> = if values.len() == 0 {
            Ok(at)
        } else if at >= chars.len() || chars[at] != ',' {
            Err(SyntaxFailure { at: at as usize, expected: "','" })
        } else {
            skip_trivia_spec(chars, at + 1, true)
        };
        match start {
            Err(failure) => (Err(failure), first),
            Ok(start) => {
                let stop = digits_end(chars, start);
                if stop == start {
                    (Err(SyntaxFailure { at: start as usize, expected: "unsigned integer" }), first)
                } else {
                    let (value, after) = ranged_number_spec(
                        chars,
                        start,
                        stop,
                        first,
                        "voice parameter",
                        0,
                        255,
                    );
                    match skip_trivia_spec(chars, stop, true) {
                        Err(failure) => (Err(failure), after),
                        Ok(next) => voice_values_from(chars, next, values.push(value as u8), after),
                    }
                }
            },
        }
    }
}

/// The `}` and the end of the line after a voice's parameters.
pub open spec fn close_voice(chars: Seq<char>, number: i32, parsed: Checked<Seq<u8>>) -> Checked<
    (u8, Seq<u8>),
> {
    match parsed {
        (Err(failure), f) => (Err(failure), f),
        (Ok((values, at)), f) => if at >= chars.len() || chars[at] != '}' {
            (Err(SyntaxFailure { at: at as usize, expected: "'}'" }), f)
        } else {
            match line_tail_spec(chars, at + 1) {
                Err(failure) => (Err(failure), f),
                Ok(end) => (Ok(((number as u8, values), end)), f),
            }
        },
    }
}

/// A voice definition `@N = { ... }` with 47 parameters, which may span lines: its
/// number and parameters.
pub open spec fn parse_voice_spec(chars: Seq<char>, pos: int, first: Option<ValueFailure>) -> Checked<
    (u8, Seq<u8>),
> {
    match number_arg_spec(chars, pos + 1, first, "voice parameter", 0, 255) {
        (Err(failure), f) => (Err(failure), f),
        (Ok((number, end)), f) => match skip_trivia_spec(chars, end, true) {
            Err(failure) => (Err(failure), f),
            Ok(at) => if at >= chars.len() || chars[at] != '=' {
                (Err(SyntaxFailure { at: at as usize, expected: "'='" }), f)
            } else {
                match skip_trivia_spec(chars, at + 1, true) {
                    Err(failure) => (Err(failure), f),
                    Ok(at) => if at >= chars.len() || chars[at] != '{' {
                        (Err(SyntaxFailure { at: at as usize, expected: "'{'" }), f)
                    } else {
                        match skip_trivia_spec(chars, at + 1, true) {
                            Err(failure) => (Err(failure), f),
                            Ok(at) => close_voice(
                                chars,
                                number,
                                voice_values_from(chars, at, seq![], f),
                            ),
                        }
                    },
                }
            },
        },
    }
}

/// A voice definition `@N = { ... }` with 47 parameters, which may span lines.
fn parse_voice(chars: &Vec<char>, pos: usize, first: &mut Option<ValueFailure>) -> (r: Result<
    (MmlVoice, usize),
    SyntaxFailure,
>)
    requires
        pos < chars.len(),
        pending_ok(*old(first), chars@.len()),
    ensures
        match r {
            Ok((voice, end)) => parse_voice_spec(chars@, pos as int, *old(first)) == (
                Ok::<((u8, Seq<u8>), int), SyntaxFailure>(((voice.number, voice.values@), end as int)),
                *final(first),
            ),
            Err(failure) => parse_voice_spec(chars@, pos as int, *old(first)).0 == Err::<
                ((u8, Seq<u8>), int),
                SyntaxFailure,
            >(failure),
        },
        *old(first) is Some ==> *final(first) == *old(first),
        pending_ok(*final(first), chars@.len()),
        r matches Ok((voice, end)) ==> pos < end <= chars@.len() && at_line_end(chars@, end as int)
            && (*final(first) is None ==> *old(first) is None && voice.values@.len() == 47),
        r matches Err(failure) ==> failure.at <= chars@.len(),
{
    let (number, end) = number_arg(chars, pos + 1, first, "voice parameter", 0, 255)?;
    let at = skip_trivia(chars, end, true)?;
    if at >= chars.len() || chars[at] != '=' {
        return Err(SyntaxFailure { at, expected: "'='" });
    }
    let at = skip_trivia(chars, at + 1, true)?;
    if at >= chars.len() || chars[at] != '{' {
        return Err(SyntaxFailure { at, expected: "'{'" });
    }
    let mut values: Vec<u8> = Vec::new();
    let ghost after_number = *first;
    let mut at = skip_trivia(chars, at + 1, true)?;
    let ghost values_start = at;
    while values.len() < 47
        invariant
            pos < at <= chars@.len(),
            values@.len() <= 47,
            *old(first) is Some ==> *first == *old(first),
            pending_ok(*first, chars@.len()),
            *first is None ==> *old(first) is None,
            voice_values_from(chars@, values_start as int, seq![], after_number) == voice_values_from(
                chars@,
                at as int,
                values@,
                *first,
            ),
            parse_voice_spec(chars@, pos as int, *old(first)) == close_voice(
                chars@,
                number,
                voice_values_from(chars@, values_start as int, seq![], after_number),
            ),
        decreases 47 - values@.len(),
    {
        if values.len() > 0 {
            if at >= chars.len() || chars[at] != ',' {
                return Err(SyntaxFailure { at, expected: "','" });
            }
            at = skip_trivia(chars, at + 1, true)?;
        }
        let digits_end = digit_run(chars, at);
        if digits_end == at {
            return Err(SyntaxFailure { at, expected: "unsigned integer" });
        }
        let value = ranged_number(chars, at, digits_end, first, "voice parameter", 0, 255);
        values.push(value as u8);
        at = skip_trivia(chars, digits_end, true)?;
    }
    if at >= chars.len() || chars[at] != '}' {
        return Err(SyntaxFailure { at, expected: "'}'" });
    }
    let end = line_tail(chars, at + 1)?;
    Ok((MmlVoice { number: number as u8, values }, end))
}

/// A command stream with its repeat blocks written out as brackets.
pub enum RepeatToken {
    Command(MmlCommand),
    Open,
    Close(u16),
}

/// The bracketed form of commands: a repeat block becomes `[`, its body, then `]` with the count.
pub open spec fn commands_tokens(commands: Seq<MmlCommand>) -> Seq<RepeatToken>
    decreases commands, 0int,
{
    if commands.len() == 0 {
        seq![]
    } else {
        commands_tokens(commands.drop_last()) + command_tokens(commands.last())
    }
}

pub open spec fn command_tokens(command: MmlCommand) -> Seq<RepeatToken>
    decreases command, 1int,
{
    match command {
        MmlCommand::Repeat { body, count } => {
            proof {
                assert(decreases_to!(command => command->body));
                assert(decreases_to!(command->body => command->body@));
            }
            seq![RepeatToken::Open] + commands_tokens(body@) + seq![RepeatToken::Close(count)]
        },
        _ => seq![RepeatToken::Command(command)],
    }
}

spec fn event_token(event: Event) -> RepeatToken {
    match event {
        Event::Command(command) => RepeatToken::Command(command),
        Event::RepeatStart(_) => RepeatToken::Open,
        Event::RepeatEnd(count, _) => RepeatToken::Close(count),
    }
}

spec fn events_tokens(events: Seq<Event>) -> Seq<RepeatToken> {
    events.map_values(|event: Event| event_token(event))
}

/// Open brackets minus close brackets.
pub open spec fn bracket_depth(tokens: Seq<RepeatToken>) -> int
    decreases tokens.len(),
{
    if tokens.len() == 0 {
        0
    } else {
        bracket_depth(tokens.drop_last()) + match tokens.last() {
            RepeatToken::Open => 1int,
            RepeatToken::Close(_) => -1int,
            RepeatToken::Command(_) => 0int,
        }
    }
}

/// Every `]` closes an earlier `[`, and every `[` is closed.
pub open spec fn brackets_balanced(tokens: Seq<RepeatToken>) -> bool {
    &&& forall|k: int| 0 <= k <= tokens.len() ==> bracket_depth(#[trigger] tokens.take(k)) >= 0
    &&& bracket_depth(tokens) == 0
}

/// The bracketed form of the open repeat bodies, outermost first.
spec fn frames_tokens(frames: Seq<(Vec<MmlCommand>, usize)>) -> Seq<RepeatToken>
    decreases frames.len(),
{
    if frames.len() == 0 {
        seq![]
    } else {
        frames_tokens(frames.drop_last()) + seq![RepeatToken::Open] + commands_tokens(
            frames.last().0@,
        )
    }
}

spec fn frames_ok(frames: Seq<(Vec<MmlCommand>, usize)>) -> bool {
    forall|k: int| 0 <= k < frames.len() ==> commands_ok(#[trigger] frames[k].0@)
}

/// The positions of the open repeat bodies, outermost first.
pub open spec fn frame_positions(frames: Seq<(Vec<MmlCommand>, usize)>) -> Seq<usize> {
    frames.map_values(|frame: (Vec<MmlCommand>, usize)| frame.1)
}

/// The positions of the `[` still open after the first `k` events, or the position
/// of the first `]` that has none to close.
pub open spec fn open_brackets(events: Seq<EventModel>, k: int) -> Result<Seq<usize>, usize>
    decreases k,
{
    if k <= 0 {
        Ok(seq![])
    } else {
        match open_brackets(events, k - 1) {
            Err(at) => Err(at),
            Ok(open) => match events[k - 1] {
                EventModel::RepeatStart(at) => Ok(open.push(at)),
                EventModel::RepeatEnd(_, at) => if open.len() == 0 {
                    Err(at)
                } else {
                    Ok(open.drop_last())
                },
                _ => Ok(open),
            },
        }
    }
}

/// How the repeat brackets of a channel fail to pair up: the first `]` with no `[`
/// to close, else the innermost `[` left open.
pub open spec fn bracket_failure(events: Seq<EventModel>) -> Option<BracketFailure> {
    match open_brackets(events, events.len() as int) {
        Err(at) => Some(BracketFailure::UnmatchedEnd(at)),
        Ok(open) => if open.len() > 0 {
            Some(BracketFailure::Unterminated(open.last()))
        } else {
            None
        },
    }
}

/// Append `command` to the innermost open repeat body, or to `output` when none is open.
fn append_assembled(
    output: &mut Vec<MmlCommand>,
    stack: &mut Vec<(Vec<MmlCommand>, usize)>,
    command: MmlCommand,
)
    requires
        commands_ok(old(output)@),
        frames_ok(old(stack)@),
        command_ok(command),
    ensures
        commands_tokens(final(output)@) + frames_tokens(final(stack)@) == commands_tokens(
            old(output)@,
        ) + frames_tokens(old(stack)@) + command_tokens(command),
        final(stack)@.len() == old(stack)@.len(),
        frame_positions(final(stack)@) == frame_positions(old(stack)@),
        commands_ok(final(output)@),
        frames_ok(final(stack)@),
{
    let ghost tokens = command_tokens(command);
    match stack.pop() {
        Some(frame) => {
            let (mut body, at) = frame;
            let ghost rest = stack@;
            proof {
                assert(old(stack)@.drop_last() =~= rest);
                assert(body@.push(command).drop_last() =~= body@);
                lemma_commands_ok_push(body@, command);
            }
            body.push(command);
            stack.push((body, at));
            proof {
                assert(stack@.drop_last() =~= rest);
                assert(frames_tokens(stack@) =~= frames_tokens(old(stack)@) + tokens);
                assert forall|k: int| 0 <= k < stack@.len() implies commands_ok(
                    #[trigger] stack@[k].0@,
                ) by {
                    if k < rest.len() {
                        assert(stack@[k] == old(stack)@[k]);
                    }
                }
            }
        },
        None => {
            proof {
                assert(output@.push(command).drop_last() =~= output@);
                lemma_commands_ok_push(output@, command);
                assert(frames_tokens(stack@) =~= Seq::<RepeatToken>::empty());
            }
            output.push(command);
        },
    }
}

/// Where a track's repeat brackets fail to pair up.
pub enum BracketFailure {
    /// A `]` at this position with no open `[` before it.
    UnmatchedEnd(usize),
    /// A `[` at this position that the channel never closes.
    Unterminated(usize),
}

/// The items of `items` in reverse order.
fn reversed<T>(items: Vec<T>) -> (r: Vec<T>)
    ensures
        r@.len() == items@.len(),
        forall|j: int| 0 <= j < r@.len() ==> r@[j] == items@[items@.len() - 1 - j],
{
    let ghost original = items@;
    let mut items = items;
    let mut out: Vec<T> = Vec::new();
    while items.len() > 0
        invariant
            items@ == original.subrange(0, items@.len() as int),
            out@.len() + items@.len() == original.len(),
            forall|j: int| 0 <= j < out@.len() ==> out@[j] == original[original.len() - 1 - j],
        decreases items@.len(),
    {
        let item = items.pop().unwrap();
        out.push(item);
    }
    out
}

spec fn token_depth(token: RepeatToken) -> int {
    match token {
        RepeatToken::Open => 1int,
        RepeatToken::Close(_) => -1int,
        RepeatToken::Command(_) => 0int,
    }
}

/// Apply one event to the open repeat bodies; fails only on a `]` with none open.
fn assemble_step(
    output: &mut Vec<MmlCommand>,
    stack: &mut Vec<(Vec<MmlCommand>, usize)>,
    event: Event,
) -> (r: Result<(), usize>)
    requires
        commands_ok(old(output)@),
        frames_ok(old(stack)@),
        event_ok(event),
    ensures
        r is Err <==> (event is RepeatEnd && old(stack)@.len() == 0),
        r is Ok ==> commands_tokens(final(output)@) + frames_tokens(final(stack)@) == commands_tokens(
            old(output)@,
        ) + frames_tokens(old(stack)@) + seq![event_token(event)],
        r is Ok ==> final(stack)@.len() == old(stack)@.len() + token_depth(event_token(event)),
        r matches Err(at) ==> event == Event::RepeatEnd(event->RepeatEnd_0, at),
        r is Ok ==> frame_positions(final(stack)@) == match event {
            Event::RepeatStart(at) => frame_positions(old(stack)@).push(at),
            Event::RepeatEnd(_, _) => frame_positions(old(stack)@).drop_last(),
            Event::Command(_) => frame_positions(old(stack)@),
        },
        commands_ok(final(output)@),
        frames_ok(final(stack)@),
{
    match event {
        Event::Command(command) => {
            append_assembled(output, stack, command);
            proof {
                assert(command_tokens(command) =~= seq![RepeatToken::Command(command)]);
            }
            Ok(())
        },
        Event::RepeatStart(at) => {
            let ghost old_stack = stack@;
            stack.push((Vec::new(), at));
            proof {
                assert(stack@.drop_last() =~= old_stack);
                assert(commands_tokens(stack@.last().0@) =~= Seq::<RepeatToken>::empty());
                assert(frames_tokens(stack@) =~= frames_tokens(old_stack) + seq![
                    RepeatToken::Open,
                ]);
                assert forall|k: int| 0 <= k < stack@.len() implies commands_ok(
                    #[trigger] stack@[k].0@,
                ) by {
                    if k < old_stack.len() {
                        assert(stack@[k] == old_stack[k]);
                    }
                }
            }
            Ok(())
        },
        Event::RepeatEnd(repeat_count, at) => {
            let ghost old_stack = stack@;
            match stack.pop() {
                None => Err(at),
                Some(frame) => {
                    let (body, _) = frame;
                    proof {
                        assert(old_stack.drop_last() =~= stack@);
                        assert forall|k: int| 0 <= k < stack@.len() implies commands_ok(
                            #[trigger] stack@[k].0@,
                        ) by {
                            assert(stack@[k] == old_stack[k]);
                        }
                        assert(commands_ok(old_stack[old_stack.len() - 1].0@));
                    }
                    let repeat = MmlCommand::Repeat { body, count: repeat_count };
                    append_assembled(output, stack, repeat);
                    proof {
                        assert(command_tokens(repeat) =~= seq![RepeatToken::Open] + commands_tokens(
                            body@,
                        ) + seq![RepeatToken::Close(repeat_count)]);
                    }
                    Ok(())
                },
            }
        },
    }
}

/// Once a `]` finds nothing to close, the failure stays.
proof fn lemma_open_brackets_error(events: Seq<EventModel>, k: int, n: int)
    requires
        0 <= k <= n,
        open_brackets(events, k) is Err,
    ensures
        open_brackets(events, n) == open_brackets(events, k),
    decreases n - k,
{
    if k < n {
        lemma_open_brackets_error(events, k + 1, n);
    }
}

/// Nest the commands between `[` and `]` into repeat blocks.
fn assemble_repeats(events: Vec<Event>) -> (r: Result<Vec<MmlCommand>, BracketFailure>)
    requires
        events_ok(events@),
    ensures
        match r {
            Ok(_) => bracket_failure(events_models(events@)) is None,
            Err(failure) => bracket_failure(events_models(events@)) == Some(failure),
        },
        r is Ok <==> brackets_balanced(events_tokens(events@)),
        r matches Ok(commands) ==> commands_tokens(commands@) == events_tokens(events@)
            && commands_ok(commands@),
{
    let ghost original = events@;
    let ghost all = events_tokens(original);
    let count = events.len();
    let mut pending = reversed(events);
    let mut output: Vec<MmlCommand> = Vec::new();
    let mut stack: Vec<(Vec<MmlCommand>, usize)> = Vec::new();
    let mut index: usize = 0;
    proof {
        assert(all.take(0) =~= Seq::<RepeatToken>::empty());
        assert(commands_tokens(output@) + frames_tokens(stack@) =~= Seq::<RepeatToken>::empty());
        assert(frame_positions(stack@) =~= Seq::<usize>::empty());
    }
    while index < count
        invariant
            count == original.len(),
            original == events@,
            all == events_tokens(original),
            events_ok(original),
            index <= count,
            pending@.len() == count - index,
            forall|j: int| 0 <= j < pending@.len() ==> pending@[j] == original[count - 1 - j],
            commands_tokens(output@) + frames_tokens(stack@) == all.take(index as int),
            stack@.len() == bracket_depth(all.take(index as int)),
            forall|k: int| 0 <= k <= index ==> bracket_depth(#[trigger] all.take(k)) >= 0,
            commands_ok(output@),
            frames_ok(stack@),
            open_brackets(events_models(original), index as int) == Ok::<Seq<usize>, usize>(
                frame_positions(stack@),
            ),
        decreases count - index,
    {
        let ghost before = all.take(index as int);
        let ghost positions = frame_positions(stack@);
        let event = pending.pop().unwrap();
        proof {
            assert(event == original[index as int]);
            assert(all[index as int] == event_token(event));
            assert(all.take(index + 1) =~= before.push(all[index as int]));
            assert(all.take(index + 1).drop_last() =~= before);
            assert(event_ok(original[index as int]));
        }
        let ghost models = events_models(original);
        proof {
            assert(models[index as int] == event_model(event));
        }
        match assemble_step(&mut output, &mut stack, event) {
            Ok(()) => {},
            Err(at) => {
                proof {
                    assert(bracket_depth(all.take(index + 1)) == -1);
                    assert(!brackets_balanced(all));
                    lemma_open_brackets_error(models, index + 1, count as int);
                }
                return Err(BracketFailure::UnmatchedEnd(at));
            },
        }
        proof {
            assert(commands_tokens(output@) + frames_tokens(stack@) =~= all.take(index + 1));
        }
        index += 1;
    }
    proof {
        assert(all.take(count as int) =~= all);
    }
    if stack.len() > 0 {
        let frame = stack.pop().unwrap();
        return Err(BracketFailure::Unterminated(frame.1));
    }
    proof {
        assert(frames_tokens(stack@) =~= Seq::<RepeatToken>::empty());
        assert(commands_tokens(output@) + frames_tokens(stack@) =~= commands_tokens(output@));
    }
    Ok(output)
}

/// The events of one channel gathered over all of its lines.
pub struct ParsedTrack {
    pub channel: char,
    pub events: Vec<Event>,
}

spec fn parsed_tracks_ok(tracks: Seq<ParsedTrack>) -> bool {
    &&& forall|t: int| 0 <= t < tracks.len() ==> is_channel(#[trigger] tracks[t].channel)
    &&& forall|t: int| 0 <= t < tracks.len() ==> events_ok(#[trigger] tracks[t].events@)
    &&& forall|a: int, b: int|
        0 <= a < b < tracks.len() ==> #[trigger] tracks[a].channel != #[trigger] tracks[b].channel
}

/// The channels and the meanings of their events.
pub open spec fn tracks_models(tracks: Seq<ParsedTrack>) -> Seq<(char, Seq<EventModel>)> {
    tracks.map_values(|track: ParsedTrack| (track.channel, events_models(track.events@)))
}

/// The index of the first track on `channel` from `k` on, if any.
pub open spec fn channel_index_from(tracks: Seq<(char, Seq<EventModel>)>, channel: char, k: int) -> Option<
    int,
>
    decreases tracks.len() - k,
{
    if k < 0 || k >= tracks.len() {
        None
    } else if tracks[k].0 == channel {
        Some(k)
    } else {
        channel_index_from(tracks, channel, k + 1)
    }
}

/// Append a line's events to its channel, or add the channel after the others.
pub open spec fn add_events_spec(
    tracks: Seq<(char, Seq<EventModel>)>,
    channel: char,
    events: Seq<EventModel>,
) -> Seq<(char, Seq<EventModel>)> {
    match channel_index_from(tracks, channel, 0) {
        Some(index) => tracks.update(index, (channel, tracks[index].1 + events)),
        None => tracks.push((channel, events)),
    }
}

/// Track lines, each a channel and its events, gathered in line order by `add_events_spec`.
pub open spec fn grouped(lines: Seq<(char, Seq<EventModel>)>) -> Seq<(char, Seq<EventModel>)>
    decreases lines.len(),
{
    if lines.len() == 0 {
        seq![]
    } else {
        add_events_spec(grouped(lines.drop_last()), lines.last().0, lines.last().1)
    }
}

/// The channels of track lines in the order they are first used.
pub open spec fn first_uses(lines: Seq<(char, Seq<EventModel>)>) -> Seq<char>
    decreases lines.len(),
{
    if lines.len() == 0 {
        seq![]
    } else if first_uses(lines.drop_last()).contains(lines.last().0) {
        first_uses(lines.drop_last())
    } else {
        first_uses(lines.drop_last()).push(lines.last().0)
    }
}

/// The events of the lines on `channel`, one line after another in line order.
pub open spec fn channel_events(lines: Seq<(char, Seq<EventModel>)>, channel: char) -> Seq<
    EventModel,
>
    decreases lines.len(),
{
    if lines.len() == 0 {
        seq![]
    } else if lines.last().0 == channel {
        channel_events(lines.drop_last(), channel) + lines.last().1
    } else {
        channel_events(lines.drop_last(), channel)
    }
}

proof fn lemma_channel_index_from(tracks: Seq<(char, Seq<EventModel>)>, channel: char, k: int)
    requires
        0 <= k,
    ensures
        channel_index_from(tracks, channel, k) matches Some(i) ==> k <= i < tracks.len()
            && tracks[i].0 == channel,
        channel_index_from(tracks, channel, k) is None ==> forall|j: int|
            k <= j < tracks.len() ==> tracks[j].0 != channel,
    decreases tracks.len() - k,
{
    if k < tracks.len() && tracks[k].0 != channel {
        lemma_channel_index_from(tracks, channel, k + 1);
    }
}

proof fn lemma_push_contains(uses: Seq<char>, v: char, c: char)
    ensures
        uses.push(v).contains(c) == (uses.contains(c) || v == c),
{
    if uses.contains(c) {
        let j = choose|j: int| 0 <= j < uses.len() && uses[j] == c;
        assert(uses.push(v)[j] == c);
    }
    if v == c {
        assert(uses.push(v)[uses.len() as int] == c);
    }
    if uses.push(v).contains(c) {
        let j = choose|j: int| 0 <= j < uses.len() + 1 && uses.push(v)[j] == c;
        if j < uses.len() {
            assert(uses[j] == c);
        }
    }
}

proof fn lemma_first_uses(lines: Seq<(char, Seq<EventModel>)>, channel: char)
    ensures
        first_uses(lines).contains(channel) <==> exists|i: int|
            0 <= i < lines.len() && (#[trigger] lines[i]).0 == channel,
        !first_uses(lines).contains(channel) ==> channel_events(lines, channel) == Seq::<
            EventModel,
        >::empty(),
        forall|a: int, b: int|
            0 <= a < b < first_uses(lines).len() ==> first_uses(lines)[a] != first_uses(lines)[b],
    decreases lines.len(),
{
    if lines.len() > 0 {
        let prefix = lines.drop_last();
        let last = lines.last();
        let up = first_uses(prefix);
        lemma_first_uses(prefix, channel);
        lemma_first_uses(prefix, last.0);
        lemma_push_contains(up, last.0, channel);
        assert(lines[lines.len() - 1] == last);
        if exists|i: int| 0 <= i < prefix.len() && (#[trigger] prefix[i]).0 == channel {
            let i = choose|i: int| 0 <= i < prefix.len() && (#[trigger] prefix[i]).0 == channel;
            assert(lines[i] == prefix[i]);
        }
        if exists|i: int| 0 <= i < lines.len() && (#[trigger] lines[i]).0 == channel {
            let i = choose|i: int| 0 <= i < lines.len() && (#[trigger] lines[i]).0 == channel;
            if i < prefix.len() {
                assert(prefix[i] == lines[i]);
            }
        }
        if !up.contains(last.0) {
            assert forall|a: int, b: int|
                0 <= a < b < first_uses(lines).len() implies first_uses(lines)[a] != first_uses(
                lines,
            )[b] by {
                if b == up.len() {
                    assert(up[a] == first_uses(lines)[a]);
                }
            }
        }
    }
}

/// Track lines are gathered by channel: each channel used appears once, in the order
/// channels are first used, and holds the events of all its lines in line order.
/// `A c\nB d\nA e` gives `A` with `c e`, then `B` with `d`.
pub proof fn lemma_lines_gathered_by_channel(lines: Seq<(char, Seq<EventModel>)>)
    ensures
        grouped(lines).len() == first_uses(lines).len(),
        forall|k: int|
            0 <= k < grouped(lines).len() ==> (#[trigger] grouped(lines)[k]).0 == first_uses(
                lines,
            )[k] && grouped(lines)[k].1 == channel_events(lines, first_uses(lines)[k]),
        forall|a: int, b: int|
            0 <= a < b < grouped(lines).len() ==> (#[trigger] grouped(lines)[a]).0
                != (#[trigger] grouped(lines)[b]).0,
    decreases lines.len(),
{
    if lines.len() > 0 {
        let prefix = lines.drop_last();
        let (channel, events) = lines.last();
        lemma_lines_gathered_by_channel(prefix);
        lemma_first_uses(prefix, channel);
        lemma_first_uses(lines, channel);
        let before = grouped(prefix);
        let uses = first_uses(prefix);
        lemma_channel_index_from(before, channel, 0);
        match channel_index_from(before, channel, 0) {
            Some(i) => {
                assert(uses[i] == channel);
                assert(uses.contains(channel));
                assert forall|k: int| 0 <= k < grouped(lines).len() implies (#[trigger] grouped(
                    lines,
                )[k]).0 == first_uses(lines)[k] && grouped(lines)[k].1 == channel_events(
                    lines,
                    first_uses(lines)[k],
                ) by {
                    if k == i {
                    } else {
                        assert(uses[k] != uses[i]);
                    }
                }
            },
            None => {
                assert forall|k: int| 0 <= k < uses.len() implies uses[k] != channel by {
                    assert(before[k].0 == uses[k]);
                }
                assert(!uses.contains(channel));
                assert forall|k: int| 0 <= k < grouped(lines).len() implies (#[trigger] grouped(
                    lines,
                )[k]).0 == first_uses(lines)[k] && grouped(lines)[k].1 == channel_events(
                    lines,
                    first_uses(lines)[k],
                ) by {
                    if k < before.len() {
                        assert(uses[k] != channel);
                    } else {
                        assert(channel_events(prefix, channel) =~= Seq::<EventModel>::empty());
                        assert(Seq::<EventModel>::empty() + events =~= events);
                    }
                }
            },
        }
        lemma_first_uses(lines, channel);
    }
}

/// Append a line's events to its channel, adding the channel after the others when it is new.
fn add_events(tracks: &mut Vec<ParsedTrack>, channel: char, events: Vec<Event>)
    requires
        parsed_tracks_ok(old(tracks)@),
        is_channel(channel),
        events_ok(events@),
    ensures
        parsed_tracks_ok(final(tracks)@),
        tracks_models(final(tracks)@) == add_events_spec(
            tracks_models(old(tracks)@),
            channel,
            events_models(events@),
        ),
{
    let mut index: usize = 0;
    while index < tracks.len()
        invariant
            index <= tracks@.len(),
            tracks@ == old(tracks)@,
            parsed_tracks_ok(tracks@),
            is_channel(channel),
            events_ok(events@),
            forall|t: int| 0 <= t < index ==> (#[trigger] tracks@[t]).channel != channel,
            channel_index_from(tracks_models(tracks@), channel, 0) == channel_index_from(
                tracks_models(tracks@),
                channel,
                index as int,
            ),
        decreases tracks@.len() - index,
    {
        if tracks[index].channel == channel {
            let ghost before = tracks@;
            let mut track = tracks.remove(index);
            let mut more = events;
            let ghost old_events = track.events@;
            track.events.append(&mut more);
            proof {
                assert forall|i: int| 0 <= i < track.events@.len() implies event_ok(
                    #[trigger] track.events@[i],
                ) by {
                    if i < old_events.len() {
                        assert(track.events@[i] == old_events[i]);
                        assert(events_ok(before[index as int].events@));
                        assert(event_ok(before[index as int].events@[i]));
                    } else {
                        assert(track.events@[i] == events@[i - old_events.len()]);
                    }
                }
            }
            tracks.insert(index, track);
            proof {
                assert(events_models(tracks@[index as int].events@) =~= events_models(old_events)
                    + events_models(events@));
                assert(tracks@ =~= before.update(index as int, tracks@[index as int]));
                assert(tracks_models(tracks@) =~= tracks_models(before).update(
                    index as int,
                    (channel, tracks_models(before)[index as int].1 + events_models(events@)),
                ));
                assert forall|t: int| 0 <= t < tracks@.len() implies #[trigger] tracks@[t].channel
                    == before[t].channel by {
                    if t != index {
                        assert(tracks@[t] == before[t]);
                    }
                }
                assert forall|t: int| 0 <= t < tracks@.len() implies events_ok(
                    #[trigger] tracks@[t].events@,
                ) by {
                    if t != index {
                        assert(tracks@[t] == before[t]);
                    }
                }
            }
            return;
        }
        index += 1;
    }
    let ghost before = tracks@;
    tracks.push(ParsedTrack { channel, events });
    proof {
        assert forall|t: int| 0 <= t < tracks@.len() implies events_ok(
            #[trigger] tracks@[t].events@,
        ) by {
            if t < before.len() {
                assert(tracks@[t] == before[t]);
            }
        }
        assert forall|a: int, b: int|
            0 <= a < b < tracks@.len() implies #[trigger] tracks@[a].channel
            != #[trigger] tracks@[b].channel by {
            assert(tracks@[a] == before[a]);
            if b < before.len() {
                assert(tracks@[b] == before[b]);
            }
        }
    }
}

/// What the lines of a source give: the title, the PCM file, the voices, the
/// channels with their events in order of first use, and the first value that
/// failed its check.
pub struct SourceModel {
    pub title: Option<Seq<char>>,
    pub pcm_file: Option<Seq<char>>,
    pub voices: Seq<(u8, Seq<u8>)>,
    pub tracks: Seq<(char, Seq<EventModel>)>,
    pub first: Option<ValueFailure>,
}

/// Nothing read yet.
pub open spec fn empty_source() -> SourceModel {
    SourceModel { title: None, pcm_file: None, voices: seq![], tracks: seq![], first: None }
}

/// The channels of a track line from `channel` to `stop`: each takes the line's
/// events (the line after the channel letters), while no value has failed.
pub open spec fn channel_lines(
    chars: Seq<char>,
    channel: int,
    stop: int,
    line_end: int,
    source: SourceModel,
) -> Result<(SourceModel, int), SyntaxFailure>
    decreases stop - channel,
{
    if channel < 0 || channel >= stop || channel >= chars.len() {
        Ok((source, line_end))
    } else {
        match track_events_from(chars, stop, seq![], source.first) {
            (Err(failure), _) => Err(failure),
            (Ok((events, end)), first) => channel_lines(
                chars,
                channel + 1,
                stop,
                end,
                SourceModel {
                    tracks: if first is None {
                        add_events_spec(source.tracks, chars[channel], events)
                    } else {
                        source.tracks
                    },
                    first,
                    ..source
                },
            ),
        }
    }
}

/// The line whose first non-blank character is at `at`: what it adds to `source`,
/// and where its content ends.
pub open spec fn line_spec(chars: Seq<char>, at: int, source: SourceModel) -> Result<
    (SourceModel, int),
    SyntaxFailure,
> {
    if at_line_end(chars, at) {
        Ok((source, at))
    } else if chars[at] == ';' {
        Ok((source, comment_end_spec(chars, at)))
    } else if pair_at_spec(chars, at, '/', '*') {
        match comment_close(chars, at + 2) {
            Err(failure) => Err(failure),
            Ok(after) => match line_tail_spec(chars, after) {
                Err(failure) => Err(failure),
                Ok(end) => Ok((source, end)),
            },
        }
    } else if chars[at] == '#' {
        match parse_metadata_spec(chars, at) {
            Err(failure) => Err(failure),
            Ok((is_title, text, end)) => Ok(
                (
                    if is_title {
                        SourceModel { title: Some(text), ..source }
                    } else {
                        SourceModel { pcm_file: Some(text), ..source }
                    },
                    end,
                ),
            ),
        }
    } else if chars[at] == '@' {
        match parse_voice_spec(chars, at, source.first) {
            (Err(failure), _) => Err(failure),
            (Ok((voice, end)), first) => Ok(
                (SourceModel { voices: source.voices.push(voice), first, ..source }, end),
            ),
        }
    } else if is_channel(chars[at]) {
        channel_lines(chars, at, channels_end(chars, at), channels_end(chars, at), source)
    } else {
        Err(
            SyntaxFailure {
                at: at as usize,
                expected: "a channel, voice definition, metadata line or comment",
            },
        )
    }
}

/// Where the next line starts after a line whose content ends at `end`.
pub open spec fn next_line(chars: Seq<char>, end: int) -> int {
    if end < chars.len() && chars[end] == '\r' && end + 1 < chars.len() && chars[end + 1] == '\n' {
        end + 2
    } else if end < chars.len() {
        end + 1
    } else {
        chars.len() as int
    }
}

/// The lines from `pos` on, read into `source`, or the first syntax failure.
pub open spec fn lines_from(chars: Seq<char>, pos: int, source: SourceModel) -> Result<
    SourceModel,
    SyntaxFailure,
>
    decreases chars.len() - pos,
{
    if pos < 0 || pos >= chars.len() {
        Ok(source)
    } else {
        match line_spec(chars, blanks_end(chars, pos), source) {
            Err(failure) => Err(failure),
            Ok((next_source, end)) => if pos < next_line(chars, end) {
                lines_from(chars, next_line(chars, end), next_source)
            } else {
                Ok(next_source)
            },
        }
    }
}

/// A parse error as a value: the text of a syntax error, or an out-of-range value
/// with its location.
pub enum ErrorModel {
    Syntax(Seq<char>),
    Value {
        command: &'static str,
        value: i32,
        min: i32,
        max: i32,
        line_number: usize,
        column: usize,
        end_column: usize,
    },
}

pub open spec fn error_model(error: ParseError) -> ErrorModel {
    match error {
        ParseError::Syntax(message) => ErrorModel::Syntax(message@),
        ParseError::InvalidValue { command, value, min, max, line_number, column, end_column } =>
            ErrorModel::Value { command, value, min, max, line_number, column, end_column },
    }
}

/// `tracks` with the events of `lines` added in order by `add_events_spec`.
pub open spec fn gathered(
    tracks: Seq<(char, Seq<EventModel>)>,
    lines: Seq<(char, Seq<EventModel>)>,
) -> Seq<(char, Seq<EventModel>)>
    decreases lines.len(),
{
    if lines.len() == 0 {
        tracks
    } else {
        gathered(add_events_spec(tracks, lines[0].0, lines[0].1), lines.drop_first())
    }
}

proof fn lemma_gathered_concat(
    tracks: Seq<(char, Seq<EventModel>)>,
    a: Seq<(char, Seq<EventModel>)>,
    b: Seq<(char, Seq<EventModel>)>,
)
    ensures
        gathered(tracks, a + b) == gathered(gathered(tracks, a), b),
    decreases a.len(),
{
    if a.len() > 0 {
        assert((a + b).drop_first() =~= a.drop_first() + b);
        assert((a + b)[0] == a[0]);
        lemma_gathered_concat(add_events_spec(tracks, a[0].0, a[0].1), a.drop_first(), b);
    } else {
        assert(a + b =~= b);
    }
}

proof fn lemma_gathered_grouped(a: Seq<(char, Seq<EventModel>)>, b: Seq<(char, Seq<EventModel>)>)
    ensures
        gathered(grouped(a), b) == grouped(a + b),
    decreases b.len(),
{
    if b.len() == 0 {
        assert(a + b =~= a);
    } else {
        let a2 = a.push(b[0]);
        assert(a2.drop_last() =~= a);
        assert(grouped(a2) == add_events_spec(grouped(a), b[0].0, b[0].1));
        lemma_gathered_grouped(a2, b.drop_first());
        assert(a2 + b.drop_first() =~= a + b);
    }
}

/// The (channel, events) pairs a track line adds, channel letter by channel letter from
/// `channel` to `stop`, while no value has failed.
pub open spec fn channel_line_pairs(chars: Seq<char>, channel: int, stop: int, first: Option<ValueFailure>) -> Seq<
    (char, Seq<EventModel>),
>
    decreases stop - channel,
{
    if channel < 0 || channel >= stop || channel >= chars.len() {
        seq![]
    } else {
        match track_events_from(chars, stop, seq![], first) {
            (Err(_), _) => seq![],
            (Ok((events, _)), after) => if after is None {
                seq![(chars[channel], events)] + channel_line_pairs(chars, channel + 1, stop, after)
            } else {
                channel_line_pairs(chars, channel + 1, stop, after)
            },
        }
    }
}

/// The (channel, events) pairs of the line whose content starts at `at`: none unless it is a
/// track line.
pub open spec fn line_pairs(chars: Seq<char>, at: int, source: SourceModel) -> Seq<(char, Seq<EventModel>)> {
    if at_line_end(chars, at) || chars[at] == ';' || pair_at_spec(chars, at, '/', '*')
        || chars[at] == '#' || chars[at] == '@' || !is_channel(chars[at]) {
        seq![]
    } else {
        channel_line_pairs(chars, at, channels_end(chars, at), source.first)
    }
}

/// The (channel, events) pairs of the track lines from `pos` on, in line order.
pub open spec fn lines_pairs_from(chars: Seq<char>, pos: int, source: SourceModel) -> Seq<
    (char, Seq<EventModel>),
>
    decreases chars.len() - pos,
{
    if pos < 0 || pos >= chars.len() {
        seq![]
    } else {
        match line_spec(chars, blanks_end(chars, pos), source) {
            Err(_) => seq![],
            Ok((next_source, end)) => line_pairs(chars, blanks_end(chars, pos), source) + (if pos
                < next_line(chars, end) {
                lines_pairs_from(chars, next_line(chars, end), next_source)
            } else {
                seq![]
            }),
        }
    }
}

/// Each track line of a source, for each channel letter it starts with, in line order: the
/// channel and the line's events.
pub open spec fn track_lines(chars: Seq<char>) -> Seq<(char, Seq<EventModel>)> {
    lines_pairs_from(chars, 0, empty_source())
}

proof fn lemma_channel_lines_gather(
    chars: Seq<char>,
    channel: int,
    stop: int,
    line_end: int,
    source: SourceModel,
)
    requires
        channel_lines(chars, channel, stop, line_end, source) is Ok,
    ensures
        channel_lines(chars, channel, stop, line_end, source)->Ok_0.0.tracks == gathered(
            source.tracks,
            channel_line_pairs(chars, channel, stop, source.first),
        ),
    decreases stop - channel,
{
    if !(channel < 0 || channel >= stop || channel >= chars.len()) {
        match track_events_from(chars, stop, seq![], source.first) {
            (Err(_), _) => {},
            (Ok((events, end)), first) => {
                let next = SourceModel {
                    tracks: if first is None {
                        add_events_spec(source.tracks, chars[channel], events)
                    } else {
                        source.tracks
                    },
                    first,
                    ..source
                };
                lemma_channel_lines_gather(chars, channel + 1, stop, end, next);
                if first is None {
                    let head = seq![(chars[channel], events)];
                    let rest = channel_line_pairs(chars, channel + 1, stop, first);
                    assert((head + rest).drop_first() =~= rest);
                    assert((head + rest)[0] == (chars[channel], events));
                }
            },
        }
    }
}

proof fn lemma_line_gathers(chars: Seq<char>, at: int, source: SourceModel)
    requires
        line_spec(chars, at, source) is Ok,
    ensures
        line_spec(chars, at, source)->Ok_0.0.tracks == gathered(source.tracks, line_pairs(chars, at, source)),
{
    if !(at_line_end(chars, at) || chars[at] == ';' || pair_at_spec(chars, at, '/', '*')
        || chars[at] == '#' || chars[at] == '@' || !is_channel(chars[at])) {
        lemma_channel_lines_gather(chars, at, channels_end(chars, at), channels_end(chars, at), source);
    }
}

proof fn lemma_lines_gather(chars: Seq<char>, pos: int, source: SourceModel)
    requires
        lines_from(chars, pos, source) is Ok,
    ensures
        lines_from(chars, pos, source)->Ok_0.tracks == gathered(source.tracks, lines_pairs_from(chars, pos, source)),
    decreases chars.len() - pos,
{
    if !(pos < 0 || pos >= chars.len()) {
        let at = blanks_end(chars, pos);
        let (next_source, end) = line_spec(chars, at, source)->Ok_0;
        lemma_line_gathers(chars, at, source);
        if pos < next_line(chars, end) {
            lemma_lines_gather(chars, next_line(chars, end), next_source);
            lemma_gathered_concat(
                source.tracks,
                line_pairs(chars, at, source),
                lines_pairs_from(chars, next_line(chars, end), next_source),
            );
        } else {
            lemma_gathered_concat(source.tracks, line_pairs(chars, at, source), seq![]);
            assert(line_pairs(chars, at, source) + Seq::<(char, Seq<EventModel>)>::empty()
                =~= line_pairs(chars, at, source));
        }
    }
}

/// `parse` gathers track lines by channel: the channels of what a source parses to are the
/// channels of its track lines, each once, in the order they are first used, and each holds the
/// events of all its lines, one line after another (`A c / B d / A e` gives `A` with `c e`,
/// then `B` with `d`). `parse`'s contract gives its document these channels and, for each,
/// the commands these events stand for.
pub proof fn lemma_parse_gathers_lines_by_channel(chars: Seq<char>)
    requires
        parse_source_spec(chars) is Ok,
    ensures
        ({
            let tracks = parse_source_spec(chars)->Ok_0.tracks;
            let lines = track_lines(chars);
            &&& tracks == grouped(lines)
            &&& tracks.len() == first_uses(lines).len()
            &&& forall|k: int|
                0 <= k < tracks.len() ==> (#[trigger] tracks[k]).0 == first_uses(lines)[k]
                    && tracks[k].1 == channel_events(lines, first_uses(lines)[k])
            &&& forall|a: int, b: int|
                0 <= a < b < tracks.len() ==> (#[trigger] tracks[a]).0 != (#[trigger] tracks[b]).0
        }),
{
    let lines = track_lines(chars);
    lemma_lines_gather(chars, 0, empty_source());
    lemma_gathered_grouped(seq![], lines);
    assert(Seq::<(char, Seq<EventModel>)>::empty() + lines =~= lines);
    assert(grouped(Seq::<(char, Seq<EventModel>)>::empty()) == Seq::<(char, Seq<EventModel>)>::empty());
    lemma_lines_gathered_by_channel(lines);
}

/// The error for input that stops matching the grammar.
pub open spec fn syntax_error_model(chars: Seq<char>, failure: SyntaxFailure) -> ErrorModel {
    ErrorModel::Syntax(syntax_message(chars, failure.at as int, failure.expected@))
}

/// The error for the first value that failed its check: the value and its
/// columns, or a syntax error for digits too many for an integer.
pub open spec fn value_error_model(chars: Seq<char>, failure: ValueFailure) -> ErrorModel {
    match failure {
        ValueFailure::OutOfRange { command, value, min, max, start, end } => {
            let line_start = line_start_of(chars, start as int);
            ErrorModel::Value {
                command,
                value,
                min,
                max,
                line_number: saturated(line_of(chars, start as int)),
                column: (start - line_start + 1) as usize,
                end_column: if end - line_start < usize::MAX {
                    (end - line_start + 1) as usize
                } else {
                    usize::MAX
                },
            }
        },
        ValueFailure::TooLarge { command } => ErrorModel::Syntax(
            command@ + " integer is too large to represent"@,
        ),
    }
}

/// A position within the input, or the end of input.
pub open spec fn within(chars: Seq<char>, at: usize) -> usize {
    if at <= chars.len() {
        at
    } else {
        chars.len() as usize
    }
}

/// The error for repeat brackets that do not pair up, at the bracket.
pub open spec fn bracket_error_model(chars: Seq<char>, failure: BracketFailure) -> ErrorModel {
    match failure {
        BracketFailure::UnmatchedEnd(at) => syntax_error_model(
            chars,
            SyntaxFailure {
                at: within(chars, at),
                expected: "a repeat start '[' earlier in the channel",
            },
        ),
        BracketFailure::Unterminated(at) => syntax_error_model(
            chars,
            SyntaxFailure { at: within(chars, at), expected: "a repeat end ']' later in the channel" },
        ),
    }
}

/// The bracket failure of the first channel from `k` on whose brackets do not pair up.
pub open spec fn first_bracket_failure(tracks: Seq<(char, Seq<EventModel>)>, k: int) -> Option<
    BracketFailure,
>
    decreases tracks.len() - k,
{
    if k < 0 || k >= tracks.len() {
        None
    } else {
        match bracket_failure(tracks[k].1) {
            Some(failure) => Some(failure),
            None => first_bracket_failure(tracks, k + 1),
        }
    }
}

/// What a source parses to, or its error: the first syntax failure, else the first
/// value that failed its check, else the first channel whose brackets do not pair up.
pub open spec fn parse_source_spec(chars: Seq<char>) -> Result<SourceModel, ErrorModel> {
    match lines_from(chars, 0, empty_source()) {
        Err(failure) => Err(syntax_error_model(chars, failure)),
        Ok(source) => match source.first {
            Some(failure) => Err(value_error_model(chars, failure)),
            None => match first_bracket_failure(source.tracks, 0) {
                Some(failure) => Err(bracket_error_model(chars, failure)),
                None => Ok(source),
            },
        },
    }
}

/// A bracket token as a value.
pub enum TokenModel {
    Command(MmlCommand, Option<LengthModel>),
    Open,
    Close(u16),
}

pub open spec fn token_model(token: RepeatToken) -> TokenModel {
    match token {
        RepeatToken::Command(command) => TokenModel::Command(
            command_model(command).0,
            command_model(command).1,
        ),
        RepeatToken::Open => TokenModel::Open,
        RepeatToken::Close(count) => TokenModel::Close(count),
    }
}

pub open spec fn tokens_model(tokens: Seq<RepeatToken>) -> Seq<TokenModel> {
    tokens.map_values(|token: RepeatToken| token_model(token))
}

/// The bracket token of an event.
pub open spec fn event_token_model(event: EventModel) -> TokenModel {
    match event {
        EventModel::Command(command, length) => TokenModel::Command(command, length),
        EventModel::RepeatStart(_) => TokenModel::Open,
        EventModel::RepeatEnd(count, _) => TokenModel::Close(count),
    }
}

pub open spec fn events_token_models(events: Seq<EventModel>) -> Seq<TokenModel> {
    events.map_values(|event: EventModel| event_token_model(event))
}

/// A text as a value.
pub open spec fn text_view(text: Option<String>) -> Option<Seq<char>> {
    match text {
        Some(text) => Some(text@),
        None => None,
    }
}

pub open spec fn voices_models(voices: Seq<MmlVoice>) -> Seq<(u8, Seq<u8>)> {
    voices.map_values(|voice: MmlVoice| (voice.number, voice.values@))
}

/// Whether `document` holds what `source` gives: its title, PCM file and voices,
/// and its channels in order, each with the commands whose bracketed form is the
/// channel's events.
pub open spec fn document_matches(document: MmlDocument, source: SourceModel) -> bool {
    &&& text_view(document.title) == source.title
    &&& text_view(document.pcm_file) == source.pcm_file
    &&& voices_models(document.voices@) == source.voices
    &&& document.tracks@.len() == source.tracks.len()
    &&& forall|t: int|
        0 <= t < source.tracks.len() ==> (#[trigger] document.tracks@[t]).channel
            == source.tracks[t].0 && tokens_model(commands_tokens(document.tracks@[t].commands@))
            == events_token_models(source.tracks[t].1)
}

/// The bracket tokens of events, as values.
proof fn lemma_events_tokens_model(events: Seq<Event>)
    ensures
        tokens_model(events_tokens(events)) == events_token_models(events_models(events)),
{
    assert(tokens_model(events_tokens(events)) =~= events_token_models(events_models(events)));
}

/// A parsed document whose values lie in their documented ranges: 47 parameters per voice,
/// one track per channel, each on a channel `A`..`H` or `P`..`W`.
pub open spec fn document_ok(document: MmlDocument) -> bool {
    &&& forall|v: int|
        0 <= v < document.voices@.len() ==> (#[trigger] document.voices@[v]).values@.len() == 47
    &&& forall|t: int|
        0 <= t < document.tracks@.len() ==> is_channel((#[trigger] document.tracks@[t]).channel)
            && commands_ok(document.tracks@[t].commands@)
    &&& forall|a: int, b: int|
        0 <= a < b < document.tracks@.len() ==> #[trigger] document.tracks@[a].channel
            != #[trigger] document.tracks@[b].channel
}

/// A reported value error names a value outside its range.
pub open spec fn value_error_ok(error: ParseError) -> bool {
    error matches ParseError::InvalidValue { value, min, max, line_number, column, end_column, .. }
        ==> (value < min || value > max) && line_number >= 1 && 1 <= column <= end_column
}

fn syntax_error(chars: &Vec<char>, failure: SyntaxFailure) -> (error: ParseError)
    requires
        failure.at <= chars@.len(),
    ensures
        error_model(error) == syntax_error_model(chars@, failure),
        error == ParseError::Syntax(error->Syntax_0),
        error->Syntax_0@ == syntax_message(chars@, failure.at as int, failure.expected@),
{
    ParseError::Syntax(syntax_message_at(chars, failure.at, failure.expected))
}

proof fn lemma_line_of_positive(chars: Seq<char>, pos: int)
    ensures
        line_of(chars, pos) >= 1,
    decreases pos,
{
    if pos > 0 {
        lemma_line_of_positive(chars, pos - 1);
    }
}

fn value_error(chars: &Vec<char>, failure: ValueFailure) -> (error: ParseError)
    requires
        pending_ok(Some(failure), chars@.len()),
    ensures
        value_error_ok(error),
        error_model(error) == value_error_model(chars@, failure),
{
    match failure {
        ValueFailure::OutOfRange { command, value, min, max, start, end } => {
            let (line_number, line_start) = locate(chars, start);
            proof {
                lemma_line_of_positive(chars@, start as int);
            }
            let column = start - line_start + 1;
            let end_column = if end - line_start < usize::MAX {
                end - line_start + 1
            } else {
                usize::MAX
            };
            ParseError::InvalidValue { command, value, min, max, line_number, column, end_column }
        },
        ValueFailure::TooLarge { command } => {
            let mut message = String::new();
            push_str(&mut message, command);
            push_str(&mut message, " integer is too large to represent");
            ParseError::Syntax(message)
        },
    }
}

/// The source with the channels and the failure record replaced.
pub open spec fn with_tracks(
    source: SourceModel,
    tracks: Seq<(char, Seq<EventModel>)>,
    first: Option<ValueFailure>,
) -> SourceModel {
    SourceModel { tracks, first, ..source }
}

/// A track line whose channel letters start at `at`: each channel takes the
/// line's events while no value has failed; the end of the line's content.
fn parse_track_line(
    chars: &Vec<char>,
    at: usize,
    first: &mut Option<ValueFailure>,
    tracks: &mut Vec<ParsedTrack>,
    Ghost(source): Ghost<SourceModel>,
) -> (r: Result<usize, SyntaxFailure>)
    requires
        at < chars.len(),
        is_channel(chars@[at as int]),
        pending_ok(*old(first), chars@.len()),
        parsed_tracks_ok(old(tracks)@),
        source.tracks == tracks_models(old(tracks)@),
        source.first == *old(first),
    ensures
        match r {
            Ok(end) => channel_lines(
                chars@,
                at as int,
                channels_end(chars@, at as int),
                channels_end(chars@, at as int),
                source,
            ) == Ok::<(SourceModel, int), SyntaxFailure>(
                (with_tracks(source, tracks_models(final(tracks)@), *final(first)), end as int),
            ),
            Err(failure) => channel_lines(
                chars@,
                at as int,
                channels_end(chars@, at as int),
                channels_end(chars@, at as int),
                source,
            ) == Err::<(SourceModel, int), SyntaxFailure>(failure),
        },
        r matches Ok(end) ==> at <= end <= chars@.len() && at_line_end(chars@, end as int),
        r matches Err(failure) ==> failure.at <= chars@.len(),
        pending_ok(*final(first), chars@.len()),
        parsed_tracks_ok(final(tracks)@),
        *old(first) is Some ==> *final(first) == *old(first),
{
    let stop = channel_run(chars, at);
    let mut line_end_at = stop;
    let mut channel = at;
    assert(with_tracks(source, tracks_models(tracks@), *first) == source);
    while channel < stop
        invariant
            channel_lines(
                chars@,
                at as int,
                stop as int,
                stop as int,
                source,
            ) == channel_lines(
                chars@,
                channel as int,
                stop as int,
                line_end_at as int,
                with_tracks(source, tracks_models(tracks@), *first),
            ),
            stop == channels_end(chars@, at as int),
            at <= channel <= stop <= chars@.len(),
            stop <= line_end_at <= chars@.len(),
            channel > at ==> at_line_end(chars@, line_end_at as int),
            forall|i: int| at <= i < stop ==> is_channel(#[trigger] chars@[i]),
            pending_ok(*first, chars@.len()),
            parsed_tracks_ok(tracks@),
            *old(first) is Some ==> *first == *old(first),
        decreases stop - channel,
    {
        let ghost before = with_tracks(source, tracks_models(tracks@), *first);
        let (events, end) = parse_track_commands(chars, stop, first)?;
        if first.is_none() {
            add_events(tracks, chars[channel], events);
        }
        proof {
            assert(channel_lines(
                chars@,
                channel as int,
                stop as int,
                line_end_at as int,
                before,
            ) == channel_lines(
                chars@,
                channel + 1,
                stop as int,
                end as int,
                with_tracks(source, tracks_models(tracks@), *first),
            ));
        }
        line_end_at = end;
        channel += 1;
    }
    Ok(line_end_at)
}

/// Nest the repeat blocks of each channel, in order; the first channel whose
/// brackets do not pair up fails.
fn assemble_tracks(tracks: Vec<ParsedTrack>) -> (r: Result<Vec<MmlTrack>, BracketFailure>)
    requires
        parsed_tracks_ok(tracks@),
    ensures
        match r {
            Ok(assembled) => {
                &&& first_bracket_failure(tracks_models(tracks@), 0) is None
                &&& assembled@.len() == tracks@.len()
                &&& forall|t: int|
                    0 <= t < tracks@.len() ==> (#[trigger] assembled@[t]).channel
                        == tracks_models(tracks@)[t].0 && tokens_model(
                        commands_tokens(assembled@[t].commands@),
                    ) == events_token_models(tracks_models(tracks@)[t].1)
                &&& forall|t: int|
                    0 <= t < assembled@.len() ==> is_channel((#[trigger] assembled@[t]).channel)
                        && commands_ok(assembled@[t].commands@)
                &&& forall|a: int, b: int|
                    0 <= a < b < assembled@.len() ==> #[trigger] assembled@[a].channel
                        != #[trigger] assembled@[b].channel
            },
            Err(failure) => first_bracket_failure(tracks_models(tracks@), 0) == Some(failure),
        },
{
    let ghost parsed = tracks@;
    let ghost models = tracks_models(parsed);
    let count = tracks.len();
    let mut assembled: Vec<MmlTrack> = Vec::new();
    let mut pending = reversed(tracks);
    while pending.len() > 0
        invariant
            parsed_tracks_ok(parsed),
            parsed == tracks@,
            models == tracks_models(parsed),
            count == parsed.len(),
            assembled@.len() + pending@.len() == count,
            forall|j: int| 0 <= j < pending@.len() ==> pending@[j] == parsed[count - 1 - j],
            forall|t: int|
                0 <= t < assembled@.len() ==> (#[trigger] assembled@[t]).channel == parsed[t].channel
                    && tokens_model(commands_tokens(assembled@[t].commands@)) == events_token_models(
                    models[t].1,
                ) && commands_ok(assembled@[t].commands@),
            first_bracket_failure(models, 0) == first_bracket_failure(
                models,
                assembled@.len() as int,
            ),
        decreases pending@.len(),
    {
        let ghost done = assembled@.len() as int;
        let track = pending.pop().unwrap();
        proof {
            assert(track == parsed[done]);
            assert(events_ok(parsed[done].events@));
            assert(models[done].1 == events_models(track.events@));
            lemma_events_tokens_model(track.events@);
        }
        let channel = track.channel;
        let ghost events = track.events@;
        let commands = match assemble_repeats(track.events) {
            Ok(commands) => commands,
            Err(failure) => {
                proof {
                    assert(bracket_failure(models[done].1) == Some(failure));
                    assert(first_bracket_failure(models, done) == Some(failure));
                }
                return Err(failure);
            },
        };
        let ghost before = assembled@;
        assembled.push(MmlTrack { channel, commands });
        proof {
            assert forall|t: int| 0 <= t < assembled@.len() implies (
            #[trigger] assembled@[t]).channel == parsed[t].channel && tokens_model(
                commands_tokens(assembled@[t].commands@),
            ) == events_token_models(models[t].1) && commands_ok(assembled@[t].commands@) by {
                if t < before.len() {
                    assert(assembled@[t] == before[t]);
                }
            }
        }
    }
    proof {
        assert forall|t: int| 0 <= t < assembled@.len() implies is_channel(
            (#[trigger] assembled@[t]).channel,
        ) && commands_ok(assembled@[t].commands@) by {
            assert(is_channel(parsed[t].channel));
        }
        assert forall|a: int, b: int|
            0 <= a < b < assembled@.len() implies #[trigger] assembled@[a].channel
            != #[trigger] assembled@[b].channel by {
            assert(parsed[a].channel != parsed[b].channel);
        }
    }
    Ok(assembled)
}

/// Parse an MXDRV MML source string.
///
/// Lines hold `#title` / `#pcmfile` metadata, voice definitions `@N = { ... }` (which may span
/// lines), track lines that start with channel letters, comments and blanks. A source that does
/// not match the grammar gives `ParseError::Syntax` with the line, column and expectation; a
/// value outside its command's range gives `ParseError::InvalidValue` at the value's columns;
/// an unpaired repeat bracket gives `ParseError::Syntax` at the bracket.
pub fn parse(source: &str) -> (r: Result<MmlDocument, ParseError>)
    ensures
        match r {
            Ok(document) => parse_source_spec(source@) matches Ok(model) && document_matches(
                document,
                model,
            ),
            Err(error) => parse_source_spec(source@) == Err::<SourceModel, ErrorModel>(
                error_model(error),
            ),
        },
        r matches Ok(document) ==> document_ok(document),
        r matches Err(error) ==> value_error_ok(error),
{
    let chars = chars_of(source);
    let mut title: Option<String> = None;
    let mut pcm_file: Option<String> = None;
    let mut voices: Vec<MmlVoice> = Vec::new();
    let mut tracks: Vec<ParsedTrack> = Vec::new();
    let mut first: Option<ValueFailure> = None;
    let mut pos: usize = 0;
    proof {
        assert(voices_models(voices@) =~= Seq::<(u8, Seq<u8>)>::empty());
        assert(tracks_models(tracks@) =~= Seq::<(char, Seq<EventModel>)>::empty());
    }
    while pos < chars.len()
        invariant
            pos <= chars@.len(),
            pending_ok(first, chars@.len()),
            parsed_tracks_ok(tracks@),
            first is None ==> forall|v: int|
                0 <= v < voices@.len() ==> (#[trigger] voices@[v]).values@.len() == 47,
            chars@ == source@,
            lines_from(chars@, 0, empty_source()) == lines_from(
                chars@,
                pos as int,
                SourceModel {
                    title: text_view(title),
                    pcm_file: text_view(pcm_file),
                    voices: voices_models(voices@),
                    tracks: tracks_models(tracks@),
                    first,
                },
            ),
        decreases chars@.len() - pos,
    {
        let ghost state = SourceModel {
            title: text_view(title),
            pcm_file: text_view(pcm_file),
            voices: voices_models(voices@),
            tracks: tracks_models(tracks@),
            first,
        };
        let ghost start = pos;
        let at = skip_blanks(&chars, pos);
        let end: usize = if is_line_end_at(&chars, at) {
            at
        } else if chars[at] == ';' {
            comment_end(&chars, at)
        } else if pair_at(&chars, at, '/', '*') {
            let after = match block_comment_end(&chars, at) {
                Ok(after) => after,
                Err(failure) => return Err(syntax_error(&chars, failure)),
            };
            match line_tail(&chars, after) {
                Ok(end) => end,
                Err(failure) => return Err(syntax_error(&chars, failure)),
            }
        } else if chars[at] == '#' {
            let (is_title, text, end) = match parse_metadata(&chars, at) {
                Ok(parsed) => parsed,
                Err(failure) => return Err(syntax_error(&chars, failure)),
            };
            let value = crate::text::string_of(text.as_slice());
            if is_title {
                title = Some(value);
            } else {
                pcm_file = Some(value);
            }
            end
        } else if chars[at] == '@' {
            let ghost before = voices@;
            let (voice, end) = match parse_voice(&chars, at, &mut first) {
                Ok(parsed) => parsed,
                Err(failure) => return Err(syntax_error(&chars, failure)),
            };
            voices.push(voice);
            proof {
                assert(voices_models(voices@) =~= voices_models(before).push(
                    (voice.number, voice.values@),
                ));
                assert forall|v: int| first is None && 0 <= v < voices@.len() implies (
                #[trigger] voices@[v]).values@.len() == 47 by {
                    if v < before.len() {
                        assert(voices@[v] == before[v]);
                    }
                }
            }
            end
        } else if ('A' <= chars[at] && chars[at] <= 'H') || ('P' <= chars[at] && chars[at] <= 'W') {
            let ghost tracks_before = tracks@;
            let ghost first_before = first;
            let end = match parse_track_line(&chars, at, &mut first, &mut tracks, Ghost(state)) {
                Ok(end) => end,
                Err(failure) => return Err(syntax_error(&chars, failure)),
            };
            proof {
                assert forall|v: int| first is None && 0 <= v < voices@.len() implies (
                #[trigger] voices@[v]).values@.len() == 47 by {
                    assert(first_before is None);
                }
            }
            end
        } else {
            return Err(
                syntax_error(
                    &chars,
                    SyntaxFailure {
                        at,
                        expected: "a channel, voice definition, metadata line or comment",
                    },
                ),
            );
        };
        proof {
            assert(line_spec(chars@, at as int, state) == Ok::<(SourceModel, int), SyntaxFailure>(
                (
                    SourceModel {
                        title: text_view(title),
                        pcm_file: text_view(pcm_file),
                        voices: voices_models(voices@),
                        tracks: tracks_models(tracks@),
                        first,
                    },
                    end as int,
                ),
            ));
        }
        if end < chars.len() && chars[end] == '\r' && end + 1 < chars.len() && chars[end + 1]
            == '\n' {
            pos = end + 2;
        } else if end < chars.len() {
            pos = end + 1;
        } else {
            pos = chars.len();
        }
    }
    if let Some(failure) = first {
        return Err(value_error(&chars, failure));
    }
    let document_tracks = match assemble_tracks(tracks) {
        Ok(document_tracks) => document_tracks,
        Err(BracketFailure::UnmatchedEnd(at)) => {
            let at = if at <= chars.len() {
                at
            } else {
                chars.len()
            };
            return Err(
                syntax_error(
                    &chars,
                    SyntaxFailure { at, expected: "a repeat start '[' earlier in the channel" },
                ),
            );
        },
        Err(BracketFailure::Unterminated(at)) => {
            let at = if at <= chars.len() {
                at
            } else {
                chars.len()
            };
            return Err(
                syntax_error(
                    &chars,
                    SyntaxFailure { at, expected: "a repeat end ']' later in the channel" },
                ),
            );
        },
    };
    Ok(MmlDocument { title, pcm_file, voices, tracks: document_tracks })
}

} // verus!
