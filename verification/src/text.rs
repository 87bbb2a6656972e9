//! Building strings: characters, decimal and hexadecimal numbers.
use vstd::prelude::*;

verus! {

/// The characters of a string slice, in order.
pub fn chars_of(text: &str) -> (chars: Vec<char>)
    ensures
        chars@ == text@,
{
    let mut chars: Vec<char> = Vec::new();
    for c in it: text.chars()
        invariant
            chars@ == it.seq().take(it.index() as int),
    {
        chars.push(c);
    }
    chars
}

/// Appends one character to a string (`String::push`).
#[verifier::external_body]
pub(crate) fn push_char(text: &mut String, c: char)
    ensures
        final(text)@ == old(text)@.push(c),
{
    text.push(c);
}

/// Appends every character of `more` to `text`.
pub fn push_chars(text: &mut String, more: &[char])
    ensures
        final(text)@ == old(text)@ + more@,
{
    let mut index: usize = 0;
    while index < more.len()
        invariant
            index <= more@.len(),
            text@ == old(text)@ + more@.subrange(0, index as int),
        decreases more@.len() - index,
    {
        push_char(text, more[index]);
        proof {
            assert(more@.subrange(0, index + 1) =~= more@.subrange(0, index as int).push(
                more@[index as int],
            ));
        }
        index += 1;
    }
    proof {
        assert(more@.subrange(0, more@.len() as int) =~= more@);
    }
}

/// Appends a string slice to `text`.
pub fn push_str(text: &mut String, more: &str)
    ensures
        final(text)@ == old(text)@ + more@,
{
    let chars = chars_of(more);
    push_chars(text, chars.as_slice());
}

/// A string holding exactly the given characters.
pub fn string_of(chars: &[char]) -> (text: String)
    ensures
        text@ == chars@,
{
    let mut text = String::new();
    push_chars(&mut text, chars);
    text
}

/// The character of a digit value below sixteen, lower-case for `a`..`f`.
pub open spec fn digit_char(d: int) -> char {
    if d < 10 {
        ((48 + d) as u32) as char
    } else {
        ((87 + d) as u32) as char
    }
}

/// The decimal digits of `n`, most significant first, without leading zeros (`0` for zero).
pub open spec fn decimal(n: nat) -> Seq<char>
    decreases n,
{
    if n < 10 {
        seq![digit_char(n as int)]
    } else {
        decimal(n / 10).push(digit_char((n % 10) as int))
    }
}

/// The decimal text of a signed value: a `-` before the digits of a negative one.
pub open spec fn signed_decimal(n: int) -> Seq<char> {
    if n < 0 {
        seq!['-'] + decimal((-n) as nat)
    } else {
        decimal(n as nat)
    }
}

/// The hexadecimal digits of `n`, lower case, zero-padded on the left to at least `width` digits.
pub open spec fn hex_min(n: nat, width: nat) -> Seq<char>
    decreases n + width,
{
    if n < 16 && width <= 1 {
        seq![digit_char(n as int)]
    } else {
        hex_min(n / 16, if width > 0 {
            (width - 1) as nat
        } else {
            0
        }).push(digit_char((n % 16) as int))
    }
}

fn digit(d: u64) -> (c: char)
    requires
        d < 16,
    ensures
        c == digit_char(d as int),
{
    if d < 10 {
        char_from(48 + d as u32)
    } else {
        char_from(87 + d as u32)
    }
}

fn char_from(code: u32) -> (c: char)
    requires
        code < 128,
    ensures
        c == code as char,
{
    let byte = code as u8;
    assert(byte == code);
    byte as char
}

/// Appends the decimal digits of `n`.
pub fn push_decimal(text: &mut String, n: u64)
    ensures
        final(text)@ == old(text)@ + decimal(n as nat),
    decreases n,
{
    if n >= 10 {
        push_decimal(text, n / 10);
    }
    push_char(text, digit(n % 10));
    proof {
        if n < 10 {
            assert(decimal(n as nat) == seq![digit_char(n as int)]);
        }
    }
}

/// Appends the decimal text of a signed value.
pub fn push_signed_decimal(text: &mut String, n: i64)
    ensures
        final(text)@ == old(text)@ + signed_decimal(n as int),
{
    if n < 0 {
        push_char(text, '-');
        let magnitude: u64 = if n == i64::MIN {
            0x8000_0000_0000_0000
        } else {
            (-n) as u64
        };
        push_decimal(text, magnitude);
    } else {
        push_decimal(text, n as u64);
    }
}

/// Appends the hexadecimal digits of `n`, zero-padded to at least `width` digits.
pub fn push_hex_min(text: &mut String, n: u64, width: u32)
    ensures
        final(text)@ == old(text)@ + hex_min(n as nat, width as nat),
    decreases n + width,
{
    if n >= 16 || width > 1 {
        let rest = if width > 0 {
            width - 1
        } else {
            0
        };
        push_hex_min(text, n / 16, rest);
    }
    push_char(text, digit(n % 16));
}


/// A hexadecimal digit in upper case.
pub open spec fn upper_digit_char(d: int) -> char {
    if d < 10 {
        ((48 + d) as u32) as char
    } else {
        ((55 + d) as u32) as char
    }
}

/// The hexadecimal digits of `n`, upper case, zero-padded on the left to at least `width` digits.
pub open spec fn upper_hex(n: nat, width: nat) -> Seq<char>
    decreases n + width,
{
    if n < 16 && width <= 1 {
        seq![upper_digit_char(n as int)]
    } else {
        upper_hex(n / 16, if width > 0 {
            (width - 1) as nat
        } else {
            0
        }).push(upper_digit_char((n % 16) as int))
    }
}

fn upper_digit(d: u64) -> (c: char)
    requires
        d < 16,
    ensures
        c == upper_digit_char(d as int),
{
    if d < 10 {
        char_from(48 + d as u32)
    } else {
        char_from(55 + d as u32)
    }
}

/// Appends the upper-case hexadecimal digits of `n`, zero-padded to at least `width` digits.
pub fn push_upper_hex(text: &mut String, n: u64, width: u32)
    ensures
        final(text)@ == old(text)@ + upper_hex(n as nat, width as nat),
    decreases n + width,
{
    if n >= 16 || width > 1 {
        let rest = if width > 0 {
            width - 1
        } else {
            0
        };
        push_upper_hex(text, n / 16, rest);
    }
    push_char(text, upper_digit(n % 16));
}

} // verus!
