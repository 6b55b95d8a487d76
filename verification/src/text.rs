//! Executable character and text helpers: the grammar's character
//! classes, hexadecimal digits, escape decoding, and the conversions
//! between `&str`, vectors of characters and `String`.

use vstd::prelude::*;

use vstd::std_specs::iter::IteratorSpec;

use crate::grammar::{hex_digit_val, is_digit, is_hex_digit, is_ws, simple_escape, utf16_unit_char};

verus! {

broadcast use vstd::string::axiom_spec_iter, vstd::string::next_postcondition;

/// Relies on char::from_u32: it returns the character with the given
/// scalar value exactly when that value is a Unicode scalar value (not a
/// surrogate code point, at most 0x10FFFF), and None otherwise.
pub assume_specification[ char::from_u32 ](u: u32) -> (r: Option<char>)
    ensures
        r is Some <==> (u < 0xD800 || (0xE000 <= u && u <= 0x10FFFF)),
        r matches Some(c) ==> c as u32 == u,
;

/// Relies on String's FromIterator over characters: collecting an
/// iterator of characters yields the string of exactly those characters
/// in order.
#[verifier::external_body]
pub(crate) fn chars_to_string(v: &Vec<char>) -> (r: String)
    ensures
        r@ == v@,
{
    v.iter().collect()
}

/// The characters of `s`, in order, as an owned vector.
pub fn str_to_chars(s: &str) -> (r: Vec<char>)
    ensures
        r@ == s@,
{
    let mut out: Vec<char> = Vec::new();
    let mut it = s.chars();
    loop
        invariant
            out@ + it.remaining() == s@,
        decreases s@.len() - out@.len(),
    {
        match it.next() {
            Some(c) => out.push(c),
            None => {
                proof {
                    assert(out@ =~= s@);
                }
                return out;
            },
        }
    }
}

/// The one-character string holding `c`.
pub fn char_to_string(c: char) -> (r: String)
    ensures
        r@ == seq![c],
{
    let mut v: Vec<char> = Vec::new();
    v.push(c);
    proof {
        assert(v@ =~= seq![c]);
    }
    chars_to_string(&v)
}

/// Whether `c` is grammar whitespace.
pub fn is_ws_char(c: char) -> (r: bool)
    ensures
        r == is_ws(c),
{
    c == ' ' || c == '\t' || c == '\n' || c == '\r'
}

/// Whether `c` is an ASCII decimal digit.
pub fn is_digit_char(c: char) -> (r: bool)
    ensures
        r == is_digit(c),
{
    let u = c as u32;
    48 <= u && u <= 57
}

/// Whether `c` is an ASCII hexadecimal digit.
pub fn is_hex_char(c: char) -> (r: bool)
    ensures
        r == is_hex_digit(c),
{
    let u = c as u32;
    (48 <= u && u <= 57) || (97 <= u && u <= 102) || (65 <= u && u <= 70)
}

/// The numeric value of a hexadecimal digit.
pub fn hex_digit_value(c: char) -> (r: u32)
    requires
        is_hex_digit(c),
    ensures
        r == hex_digit_val(c),
        r < 16,
{
    let u = c as u32;
    if 48 <= u && u <= 57 {
        u - 48
    } else if 97 <= u {
        u - 87
    } else {
        u - 55
    }
}

/// The decoded form of a simple escape character, if it is one.
pub fn escape_char(c: char) -> (r: Option<char>)
    ensures
        r == simple_escape(c),
{
    if c == '"' {
        Some('"')
    } else if c == '\\' {
        Some('\\')
    } else if c == '/' {
        Some('/')
    } else if c == 'b' {
        Some('\u{8}')
    } else if c == 'f' {
        Some('\u{c}')
    } else if c == 'n' {
        Some('\n')
    } else if c == 'r' {
        Some('\r')
    } else if c == 't' {
        Some('\t')
    } else {
        None
    }
}

/// Lossy decoding of one UTF-16 code unit to a character: an unpaired
/// surrogate half becomes the replacement character U+FFFD.
pub fn utf16_unit(code: u32) -> (r: char)
    requires
        code < 0x10000,
    ensures
        r == utf16_unit_char(code as int),
{
    if 0xD800 <= code && code < 0xE000 {
        '\u{FFFD}'
    } else {
        let c = char::from_u32(code).unwrap();
        proof {
            vstd::utf8::char_u32_cast(c, code);
        }
        c
    }
}

} // verus!
