//! What the command-line tools compute between reading and writing files.
use vstd::prelude::*;

use crate::mdx::mml::parse_error_text;
use crate::mdx::parse::{
    all_digits, digits_value, document_matches, document_ok, error_model, is_digit,
    parse_source_spec, ErrorModel,
};
use crate::mdx::compile::{compile_error_text, compiled_as, CompileError};
use crate::mdx::{parse, MmlDocument, ParseError};
use crate::mdx_model::document::{document_bytes, offsets_fit, MdxDocument};
use crate::text::{chars_of, decimal, push_decimal, push_str, signed_decimal};

verus! {

/// The output a compile produces.
#[derive(Clone, Copy, Debug, PartialEq, Eq, Structural)]
pub enum OutputFormat {
    Mdx,
    Vgm,
}

/// The first position at or after `from` where `pattern` occurs in `text`.
pub open spec fn find_from(text: Seq<char>, pattern: Seq<char>, from: int) -> Option<int>
    decreases text.len() - from,
{
    if from < 0 || from + pattern.len() > text.len() {
        None
    } else if text.subrange(from, from + pattern.len()) == pattern {
        Some(from)
    } else {
        proof {
            if pattern.len() == 0 {
                assert(text.subrange(from, from) =~= pattern);
            }
        }
        find_from(text, pattern, from + 1)
    }
}

proof fn lemma_find_from_bounds(text: Seq<char>, pattern: Seq<char>, from: int)
    requires
        0 <= from,
    ensures
        find_from(text, pattern, from) matches Some(at) ==> from <= at && at + pattern.len()
            <= text.len(),
    decreases text.len() - from,
{
    if from + pattern.len() <= text.len() && text.subrange(from, from + pattern.len()) != pattern {
        if pattern.len() == 0 {
            assert(text.subrange(from, from) =~= pattern);
        }
        lemma_find_from_bounds(text, pattern, from + 1);
    }
}

fn find(text: &Vec<char>, pattern: &Vec<char>, from: usize) -> (r: Option<usize>)
    requires
        from <= text.len(),
    ensures
        r == (match find_from(text@, pattern@, from as int) {
            Some(at) => Some(at as usize),
            None => None::<usize>,
        }),
{
    proof {
        lemma_find_from_bounds(text@, pattern@, from as int);
    }
    let mut at = from;
    while at <= text.len() && text.len() - at >= pattern.len()
        invariant
            from <= at <= text@.len() + 1,
            find_from(text@, pattern@, from as int) == find_from(text@, pattern@, at as int),
        decreases text@.len() + 1 - at,
    {
        let mut k: usize = 0;
        let mut same = true;
        while k < pattern.len()
            invariant
                at + pattern.len() <= text.len(),
                k <= pattern@.len(),
                same == (forall|i: int| 0 <= i < k ==> text@[at + i] == pattern@[i]),
            decreases pattern@.len() - k,
        {
            if text[at + k] != pattern[k] {
                same = false;
            }
            k += 1;
        }
        if same {
            proof {
                assert(text@.subrange(at as int, at + pattern@.len()) =~= pattern@);
            }
            return Some(at);
        }
        proof {
            let i = choose|i: int| 0 <= i < pattern@.len() && text@[at + i] != pattern@[i];
            assert(text@.subrange(at as int, at + pattern@.len())[i] != pattern@[i]);
        }
        at += 1;
    }
    None
}

/// A decimal `usize` as Rust parses one: an optional `+`, then at least one digit.
pub open spec fn parsed_usize(text: Seq<char>) -> Option<usize> {
    let digits = if text.len() > 0 && text[0] == '+' {
        text.drop_first()
    } else {
        text
    };
    if digits.len() > 0 && all_digits(digits) && digits_value(digits) <= usize::MAX {
        Some(digits_value(digits) as usize)
    } else {
        None
    }
}

fn parse_usize(text: &[char]) -> (r: Option<usize>)
    ensures
        r == parsed_usize(text@),
{
    let start: usize = if text.len() > 0 && text[0] == '+' {
        1
    } else {
        0
    };
    let ghost digits = text@.subrange(start as int, text@.len() as int);
    proof {
        if start == 1 {
            assert(digits =~= text@.drop_first());
        } else {
            assert(digits =~= text@);
        }
    }
    if start >= text.len() {
        return None;
    }
    let mut value: usize = 0;
    let mut index = start;
    while index < text.len()
        invariant
            start <= index <= text@.len(),
            digits == text@.subrange(start as int, text@.len() as int),
            digits == (if text@.len() > 0 && text@[0] == '+' {
                text@.drop_first()
            } else {
                text@
            }),
            digits.len() > 0,
            all_digits(text@.subrange(start as int, index as int)),
            value == digits_value(text@.subrange(start as int, index as int)),
        decreases text@.len() - index,
    {
        let c = text[index];
        if c < '0' || c > '9' {
            proof {
                assert(digits[index - start] == c);
                assert(!is_digit(digits[index - start]));
                assert(!all_digits(digits));
            }
            return None;
        }
        proof {
            assert(text@.subrange(start as int, index + 1).drop_last() =~= text@.subrange(
                start as int,
                index as int,
            ));
        }
        let d = (c as u32 - '0' as u32) as usize;
        if value > (usize::MAX - d) / 10 {
            proof {
                assert(value * 10 + d > usize::MAX) by (nonlinear_arith)
                    requires
                        value > (usize::MAX - d) / 10int,
                        d < 10,
                ;
                assert(text@.subrange(start as int, index + 1).last() == c);
                assert(digits_value(text@.subrange(start as int, index + 1)) == value * 10 + d);
                lemma_digits_grow(digits, index + 1 - start);
                assert(digits.subrange(0, index + 1 - start) =~= text@.subrange(start as int, index + 1));
            }
            return None;
        }
        value = value * 10 + d;
        index += 1;
    }
    proof {
        assert(text@.subrange(start as int, text@.len() as int) =~= digits);
    }
    Some(value)
}

/// A longer run of digits never has a smaller value.
proof fn lemma_digits_grow(digits: Seq<char>, k: int)
    requires
        0 <= k <= digits.len(),
    ensures
        digits_value(digits.subrange(0, k)) <= digits_value(digits) || !all_digits(digits),
    decreases digits.len() - k,
{
    if k < digits.len() {
        lemma_digits_grow(digits, k + 1);
        assert(digits.subrange(0, k + 1).drop_last() =~= digits.subrange(0, k));
    } else {
        assert(digits.subrange(0, k) =~= digits);
    }
}

/// The first line of a text, as `str::lines` gives it: up to the first line feed, without a
/// carriage return just before that feed; `None` for an empty text.
pub open spec fn first_line(text: Seq<char>) -> Option<Seq<char>> {
    if text.len() == 0 {
        None
    } else {
        match find_from(text, seq!['\n'], 0) {
            None => Some(text),
            Some(end) => if end > 0 && text[end - 1] == '\r' {
                Some(text.take(end - 1))
            } else {
                Some(text.take(end))
            },
        }
    }
}

/// The line and first column a syntax diagnostic names in its first line, written
/// `... at line L, columns C-...`.
pub open spec fn syntax_location(message: Seq<char>) -> Option<(usize, usize)> {
    match first_line(message) {
        None => None,
        Some(line) => match find_from(line, " at line "@, 0) {
            None => None,
            Some(p) => {
                let rest = line.skip(p + " at line "@.len());
                match find_from(rest, ", columns "@, 0) {
                    None => None,
                    Some(q) => {
                        let columns = rest.skip(q + ", columns "@.len());
                        match find_from(columns, "-"@, 0) {
                            None => None,
                            Some(r) => match (
                                parsed_usize(rest.take(q)),
                                parsed_usize(columns.take(r)),
                            ) {
                                (Some(l), Some(c)) => Some((l, c)),
                                _ => None,
                            },
                        }
                    },
                }
            },
        },
    }
}

fn skip_vec(text: &Vec<char>, from: usize) -> (r: Vec<char>)
    requires
        from <= text@.len(),
    ensures
        r@ == text@.skip(from as int),
{
    let mut out: Vec<char> = Vec::new();
    let mut index = from;
    while index < text.len()
        invariant
            from <= index <= text@.len(),
            out@ == text@.subrange(from as int, index as int),
        decreases text@.len() - index,
    {
        out.push(text[index]);
        index += 1;
        proof {
            assert(out@ =~= text@.subrange(from as int, index as int));
        }
    }
    out
}

/// The line and first column named by a syntax diagnostic, as an editor location.
pub fn syntax_error_location(message: &str) -> (r: Option<(usize, usize)>)
    ensures
        r == syntax_location(message@),
{
    let text = chars_of(message);
    if text.len() == 0 {
        return None;
    }
    let newline = chars_of("\n");
    proof {
        reveal_strlit("\n");
        assert(newline@ =~= seq!['\n']);
        lemma_find_from_bounds(text@, newline@, 0);
    }
    let end: usize = match find(&text, &newline, 0) {
        None => text.len(),
        Some(end) => if end > 0 && text[end - 1] == '\r' {
            end - 1
        } else {
            end
        },
    };
    let line = vstd::slice::slice_subrange(text.as_slice(), 0, end);
    let line = vstd::slice::slice_to_vec(line);
    proof {
        assert(first_line(text@) == Some(line@)) by {
            if find_from(text@, seq!['\n'], 0) is None {
                assert(line@ =~= text@);
            } else {
                assert(line@ =~= text@.take(end as int));
            }
        }
    }
    let at_line = chars_of(" at line ");
    let p = match find(&line, &at_line, 0) {
        None => return None,
        Some(p) => p,
    };
    proof {
        lemma_find_from_bounds(line@, at_line@, 0);
    }
    let rest = skip_vec(&line, p + at_line.len());
    let columns_word = chars_of(", columns ");
    let q = match find(&rest, &columns_word, 0) {
        None => return None,
        Some(q) => q,
    };
    proof {
        lemma_find_from_bounds(rest@, columns_word@, 0);
    }
    let columns = skip_vec(&rest, q + columns_word.len());
    let dash = chars_of("-");
    let r = match find(&columns, &dash, 0) {
        None => return None,
        Some(r) => r,
    };
    proof {
        lemma_find_from_bounds(columns@, dash@, 0);
    }
    let line_number = parse_usize(vstd::slice::slice_subrange(rest.as_slice(), 0, q));
    let column = parse_usize(vstd::slice::slice_subrange(columns.as_slice(), 0, r));
    proof {
        assert(rest@.subrange(0, q as int) =~= rest@.take(q as int));
        assert(columns@.subrange(0, r as int) =~= columns@.take(r as int));
    }
    match (line_number, column) {
        (Some(line_number), Some(column)) => Some((line_number, column)),
        _ => None,
    }
}

/// The text of a parse error: the syntax diagnostic itself, or the value, its
/// range and its location.
pub open spec fn error_text(error: ErrorModel) -> Seq<char> {
    match error {
        ErrorModel::Syntax(message) => message,
        ErrorModel::Value { command, value, min, max, line_number, column, end_column } =>
            "MML value error at line "@ + decimal(line_number as nat) + ", columns "@ + decimal(
            column as nat,
        ) + "-"@ + decimal(end_column as nat) + ": "@ + command@ + " value "@ + signed_decimal(
            value as int,
        ) + " is outside the range "@ + signed_decimal(min as int) + "..="@ + signed_decimal(
            max as int,
        ),
    }
}

/// The editor diagnostic for a parse error in the file named `input`: `input:L:C: error: ...`
/// when the error has a location, `input: error: ...` otherwise.
pub open spec fn diagnostic(input: Seq<char>, error: ErrorModel) -> Seq<char> {
    let location = match error {
        ErrorModel::Syntax(message) => syntax_location(message),
        ErrorModel::Value { line_number, column, .. } => Some((line_number, column)),
    };
    match location {
        Some((line, column)) => input + ":"@ + decimal(line as nat) + ":"@ + decimal(column as nat)
            + ": error: "@ + error_text(error),
        None => input + ": error: "@ + error_text(error),
    }
}

/// Parse MML source read from the file named `input`, reporting errors as editor diagnostics.
pub fn parse_source(input: &str, source: &str) -> (r: Result<MmlDocument, String>)
    ensures
        match parse_source_spec(source@) {
            Ok(model) => r matches Ok(document) && document_matches(document, model),
            Err(error) => r matches Err(text) && text@ == diagnostic(input@, error),
        },
        r matches Ok(document) ==> document_ok(document),
{
    match parse(source) {
        Ok(document) => Ok(document),
        Err(error) => {
            let location = match &error {
                ParseError::Syntax(message) => syntax_error_location(message.as_str()),
                ParseError::InvalidValue { line_number, column, .. } => Some(
                    (*line_number, *column),
                ),
            };
            let message = error.message();
            let mut text = String::new();
            push_str(&mut text, input);
            match location {
                Some((line, column)) => {
                    push_str(&mut text, ":");
                    push_decimal(&mut text, line as u64);
                    push_str(&mut text, ":");
                    push_decimal(&mut text, column as u64);
                    push_str(&mut text, ": error: ");
                },
                None => {
                    push_str(&mut text, ": error: ");
                },
            }
            push_str(&mut text, message.as_str());
            proof {
                assert(parse_error_text(error) == error_text(error_model(error)));
                assert(text@ == diagnostic(input@, error_model(error)));
            }
            Err(text)
        },
    }
}

/// What the tool reports for a compile: the bytes of the document when its offsets
/// fit, else the message.
pub open spec fn compile_outcome(
    compiled: Result<MdxDocument, CompileError>,
    r: Result<Vec<u8>, String>,
) -> bool {
    match compiled {
        Err(error) => r matches Err(text) && text@ == "compile error: "@ + compile_error_text(error),
        Ok(mdx) => if offsets_fit(mdx) {
            r matches Ok(bytes) && bytes@ == document_bytes(mdx)
        } else {
            r matches Err(text) && text@ == "compile error: "@ + too_large_text()
        },
    }
}

/// Compile MML source to the bytes of an MDX file, or give the message the tool reports:
/// `parse error: ...`, `compile error: ...`.
pub fn compile(source: &str) -> (r: Result<Vec<u8>, String>)
    ensures
        match parse_source_spec(source@) {
            Err(error) => r matches Err(text) && text@ == "parse error: "@ + error_text(error),
            Ok(model) => exists|document: MmlDocument, compiled: Result<MdxDocument, CompileError>|
                #![trigger document_matches(document, model), compiled_as(document, compiled)]
                document_matches(document, model) && compiled_as(document, compiled)
                    && compile_outcome(compiled, r),
        },
{
    let document = match parse(source) {
        Ok(document) => document,
        Err(error) => {
            let mut text = String::new();
            push_str(&mut text, "parse error: ");
            let message = error.message();
            push_str(&mut text, message.as_str());
            proof {
                assert(parse_error_text(error) == error_text(error_model(error)));
            }
            return Err(text);
        },
    };
    let compiled = crate::mdx::compile(&document);
    let r = match compiled {
        Ok(mdx) => match mdx.to_bytes() {
            Some(bytes) => Ok(bytes),
            None => {
                let mut text = String::new();
                push_str(&mut text, "compile error: ");
                push_str(&mut text, "MDX data is too large for 16-bit offsets");
                Err(text)
            },
        },
        Err(error) => {
            let mut text = String::new();
            push_str(&mut text, "compile error: ");
            let message = error.message();
            push_str(&mut text, message.as_str());
            Err(text)
        },
    };
    proof {
        assert(compile_outcome(compiled, r));
    }
    r
}

/// The reason given when the compiled document does not fit the 16-bit offset table.
pub open spec fn too_large_text() -> Seq<char> {
    "MDX data is too large for 16-bit offsets"@
}

} // verus!
