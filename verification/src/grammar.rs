//! The grammar, stated as specification functions: one definitional
//! production per JSON alternative, over the input as a sequence of Unicode
//! scalar values and a scan position. The executable parser is proved to
//! return exactly what these productions say.
//!
//! Deliberate behaviours, stated here once:
//! - the cursor never clamps silently: a position equal to the input length
//!   means end of input, and every read is preceded by an explicit bounds
//!   check;
//! - each `\uXXXX` escape is decoded independently as one UTF-16 code unit,
//!   lossily (an unpaired surrogate half becomes U+FFFD); two consecutive
//!   escapes forming a surrogate pair are not combined;
//! - an exponent marker that is entered (an `e` or `E` after the digits)
//!   must be followed by at least one digit, even at the very end of the
//!   input, else the number production fails with an expected-digit error;
//! - keywords are matched without a word-boundary check, and trailing
//!   input after the top-level value is ignored.

use vstd::prelude::*;

use crate::errors::ErrorKind;
use crate::value::{spec_upsert, SpecValue};

verus! {

/// ASCII whitespace as the grammar knows it: space, tab, newline and
/// carriage return only.
pub open spec fn is_ws(c: char) -> bool {
    c == ' ' || c == '\t' || c == '\n' || c == '\r'
}

/// An ASCII decimal digit.
pub open spec fn is_digit(c: char) -> bool {
    48 <= c as u32 <= 57
}

/// An ASCII hexadecimal digit.
pub open spec fn is_hex_digit(c: char) -> bool {
    is_digit(c) || 97 <= c as u32 <= 102 || 65 <= c as u32 <= 70
}

/// The numeric value of a hexadecimal digit.
pub open spec fn hex_digit_val(c: char) -> int {
    if is_digit(c) {
        c as u32 - 48
    } else if 97 <= c as u32 {
        c as u32 - 87
    } else {
        c as u32 - 55
    }
}

/// The code unit written by four hexadecimal digits.
pub open spec fn hex4_code(c1: char, c2: char, c3: char, c4: char) -> int {
    hex_digit_val(c1) * 4096 + hex_digit_val(c2) * 256 + hex_digit_val(c3) * 16 + hex_digit_val(c4)
}

/// Lossy decoding of a single UTF-16 code unit: an unpaired surrogate
/// half becomes the replacement character U+FFFD.
pub open spec fn utf16_unit_char(code: int) -> char {
    if 0xD800 <= code < 0xE000 {
        '\u{FFFD}'
    } else {
        (code as u32) as char
    }
}

/// The position of the first non-whitespace character at or after `i`.
pub open spec fn skip_ws(s: Seq<char>, i: int) -> int
    decreases s.len() - i,
{
    if 0 <= i && i < s.len() && is_ws(s[i]) {
        skip_ws(s, i + 1)
    } else {
        i
    }
}

/// The position of the first non-digit character at or after `i`.
pub open spec fn scan_digits(s: Seq<char>, i: int) -> int
    decreases s.len() - i,
{
    if 0 <= i && i < s.len() && is_digit(s[i]) {
        scan_digits(s, i + 1)
    } else {
        i
    }
}

/// Skipping whitespace never steps backwards or past the end.
pub broadcast proof fn lemma_skip_ws_bounds(s: Seq<char>, i: int)
    requires
        0 <= i <= s.len(),
    ensures
        i <= #[trigger] skip_ws(s, i) <= s.len(),
    decreases s.len() - i,
{
    if i < s.len() && is_ws(s[i]) {
        lemma_skip_ws_bounds(s, i + 1);
    }
}

/// Scanning digits never steps backwards or past the end.
pub broadcast proof fn lemma_scan_digits_bounds(s: Seq<char>, i: int)
    requires
        0 <= i <= s.len(),
    ensures
        i <= #[trigger] scan_digits(s, i) <= s.len(),
    decreases s.len() - i,
{
    if i < s.len() && is_digit(s[i]) {
        lemma_scan_digits_bounds(s, i + 1);
    }
}

/// A position bounded below and above, so that a production's scan can
/// never step backwards or beyond the input. For every reachable scan the
/// clamps are the identity; they make the productions total.
pub open spec fn step_pos(p: int, lo: int, hi: int) -> int {
    if p < lo {
        lo
    } else if p > hi {
        hi
    } else {
        p
    }
}

/// Outcome of the string production: no match, a match carrying the
/// decoded text and the position one past the closing quote, or a
/// definite failure.
pub enum TextStep {
    NoMatch,
    Found(Seq<char>, int),
    Fail(ErrorKind),
}

/// Outcome of a value-producing production.
pub enum SpecStep {
    NoMatch,
    Found(SpecValue, int),
    Fail(ErrorKind),
}

/// What a simple escape character after a backslash decodes to, if it is
/// one: quote, backslash and slash stand for themselves, and `b f n r t`
/// for their control characters.
pub open spec fn simple_escape(c: char) -> Option<char> {
    if c == '"' {
        Some('"')
    } else if c == '\\' {
        Some('\\')
    } else if c == '/' {
        Some('/')
    } else if c == 'b' {
        Some('\u{8}')
    } else if c == 'f' {
        Some('\u{c}')
    } else if c == 'n' {
        Some('\n')
    } else if c == 'r' {
        Some('\r')
    } else if c == 't' {
        Some('\t')
    } else {
        None
    }
}

/// The body of a string literal, scanned from `i` (just past the opening
/// quote) with `acc` the text decoded so far. Ends at an unescaped closing
/// quote; running out of input first is an unexpected-end failure.
pub open spec fn str_body(s: Seq<char>, i: int, acc: Seq<char>) -> TextStep
    decreases s.len() - i,
{
    if !(0 <= i && i < s.len()) {
        TextStep::Fail(ErrorKind::UnexpectedEndOfInput)
    } else if s[i] == '"' {
        TextStep::Found(acc, i + 1)
    } else if s[i] == '\\' {
        if i + 1 >= s.len() {
            TextStep::Fail(ErrorKind::UnexpectedEndOfInput)
        } else if simple_escape(s[i + 1]) is Some {
            str_body(s, i + 2, acc.push(simple_escape(s[i + 1])->0))
        } else if s[i + 1] == 'u' {
            if i + 5 < s.len() && is_hex_digit(s[i + 2]) && is_hex_digit(s[i + 3]) && is_hex_digit(
                s[i + 4],
            ) && is_hex_digit(s[i + 5]) {
                str_body(
                    s,
                    i + 6,
                    acc.push(utf16_unit_char(hex4_code(s[i + 2], s[i + 3], s[i + 4], s[i + 5]))),
                )
            } else {
                TextStep::Fail(ErrorKind::ExpectedUnicodeEscape)
            }
        } else {
            TextStep::Fail(ErrorKind::ExpectedEscapeChar)
        }
    } else {
        str_body(s, i + 1, acc.push(s[i]))
    }
}

/// Law: a simple escape decodes to its single corresponding character.
/// Wherever a backslash is followed by one of the escape characters
/// (quote, backslash, slash, `b`, `f`, `n`, `r`, `t`), the scan consumes
/// both and extends the decoded text by exactly the one character the
/// escape stands for.
pub proof fn lemma_escape_decoding(s: Seq<char>, i: int, acc: Seq<char>, c: char, d: char)
    requires
        0 <= i,
        i + 1 < s.len(),
        s[i] == '\\',
        s[i + 1] == c,
        simple_escape(c) == Some(d),
    ensures
        str_body(s, i, acc) == str_body(s, i + 2, acc.push(d)),
{
}

/// Law: a unicode escape decodes independently to the single UTF-16 code
/// unit written by its four hexadecimal digits, decoded lossily. The scan
/// consumes the six characters of the escape and extends the decoded
/// text by exactly that one character.
pub proof fn lemma_unicode_escape_decoding(s: Seq<char>, i: int, acc: Seq<char>)
    requires
        0 <= i,
        i + 5 < s.len(),
        s[i] == '\\',
        s[i + 1] == 'u',
        is_hex_digit(s[i + 2]),
        is_hex_digit(s[i + 3]),
        is_hex_digit(s[i + 4]),
        is_hex_digit(s[i + 5]),
    ensures
        str_body(s, i, acc) == str_body(
            s,
            i + 6,
            acc.push(utf16_unit_char(hex4_code(s[i + 2], s[i + 3], s[i + 4], s[i + 5]))),
        ),
{
}

/// The string production: matches exactly when an opening quote stands at
/// `i`.
pub open spec fn spec_string(s: Seq<char>, i: int) -> TextStep {
    if 0 <= i && i < s.len() && s[i] == '"' {
        str_body(s, i + 1, Seq::empty())
    } else {
        TextStep::NoMatch
    }
}

/// The exponent clause and the end of the number production: `start` is
/// where the literal began, `p` the position after the integer and
/// fraction digits. An exponent marker that is present is always entered,
/// and must be followed (after an optional sign) by at least one digit.
pub open spec fn spec_number_expo(s: Seq<char>, start: int, p: int) -> SpecStep {
    if p < s.len() && (s[p] == 'e' || s[p] == 'E') {
        let q = if p + 1 < s.len() && (s[p + 1] == '+' || s[p + 1] == '-') {
            p + 2
        } else {
            p + 1
        };
        if q < s.len() && is_digit(s[q]) {
            let e = scan_digits(s, q);
            SpecStep::Found(SpecValue::Number(s.subrange(start, e)), e)
        } else {
            SpecStep::Fail(ErrorKind::ExpectedDigit)
        }
    } else {
        SpecStep::Found(SpecValue::Number(s.subrange(start, p)), p)
    }
}

/// The fraction clause: a decimal point that is present must be followed
/// by at least one digit.
pub open spec fn spec_number_frac(s: Seq<char>, start: int, p: int) -> SpecStep {
    if p < s.len() && s[p] == '.' {
        if p + 1 < s.len() && is_digit(s[p + 1]) {
            spec_number_expo(s, start, scan_digits(s, p + 1))
        } else {
            SpecStep::Fail(ErrorKind::ExpectedDigit)
        }
    } else {
        spec_number_expo(s, start, p)
    }
}

/// The number production: matches exactly when a digit or a minus sign
/// stands at `i`; the value carries the exact consumed literal.
pub open spec fn spec_number(s: Seq<char>, i: int) -> SpecStep {
    if 0 <= i && i < s.len() && (is_digit(s[i]) || s[i] == '-') {
        let d = if s[i] == '-' {
            i + 1
        } else {
            i
        };
        if d < s.len() && is_digit(s[d]) {
            spec_number_frac(s, i, scan_digits(s, d))
        } else {
            SpecStep::Fail(ErrorKind::ExpectedDigit)
        }
    } else {
        SpecStep::NoMatch
    }
}

/// The keyword production: the next characters are exactly `w`. No
/// word-boundary check follows the match.
pub open spec fn spec_keyword(s: Seq<char>, i: int, w: Seq<char>) -> bool {
    0 <= i && i + w.len() <= s.len() && s.subrange(i, i + w.len()) == w
}

pub open spec fn kw_true() -> Seq<char> {
    seq!['t', 'r', 'u', 'e']
}

pub open spec fn kw_false() -> Seq<char> {
    seq!['f', 'a', 'l', 's', 'e']
}

pub open spec fn kw_null() -> Seq<char> {
    seq!['n', 'u', 'l', 'l']
}

/// The entry production: skips leading whitespace, then tries, in this
/// fixed order: string, number, object, array, `true`, `false`, `null`.
/// If no production matches, the input is not valid JSON and the generic
/// unexpected-end failure is reported.
pub open spec fn spec_value(s: Seq<char>, i: int) -> SpecStep
    decreases s.len() - i, 2int,
{
    if i > s.len() {
        SpecStep::Fail(ErrorKind::UnexpectedEndOfInput)
    } else {
    let j = step_pos(skip_ws(s, i), i, s.len() as int);
    match spec_string(s, j) {
        TextStep::Found(t, p) => SpecStep::Found(SpecValue::Text(t), p),
        TextStep::Fail(k) => SpecStep::Fail(k),
        TextStep::NoMatch => match spec_number(s, j) {
            SpecStep::Found(v, p) => SpecStep::Found(v, p),
            SpecStep::Fail(k) => SpecStep::Fail(k),
            SpecStep::NoMatch => match spec_object(s, j) {
                SpecStep::Found(v, p) => SpecStep::Found(v, p),
                SpecStep::Fail(k) => SpecStep::Fail(k),
                SpecStep::NoMatch => match spec_array(s, j) {
                    SpecStep::Found(v, p) => SpecStep::Found(v, p),
                    SpecStep::Fail(k) => SpecStep::Fail(k),
                    SpecStep::NoMatch => if spec_keyword(s, j, kw_true()) {
                        SpecStep::Found(SpecValue::True, j + 4)
                    } else if spec_keyword(s, j, kw_false()) {
                        SpecStep::Found(SpecValue::False, j + 5)
                    } else if spec_keyword(s, j, kw_null()) {
                        SpecStep::Found(SpecValue::Null, j + 4)
                    } else {
                        SpecStep::Fail(ErrorKind::UnexpectedEndOfInput)
                    },
                },
            },
        },
    }
    }
}

/// The object production: matches exactly when `{` stands at `i`.
pub open spec fn spec_object(s: Seq<char>, i: int) -> SpecStep
    decreases s.len() - i, 1int,
{
    if 0 <= i && i < s.len() && s[i] == '{' {
        spec_members(s, i + 1, Seq::empty(), true)
    } else {
        SpecStep::NoMatch
    }
}

/// The members of an object, from scan position `i` (whitespace not yet
/// skipped), with `acc` the pairs gathered so far. A member is a string
/// key, a colon and a value; members after the first are preceded by a
/// comma; a missing key (for instance after a trailing comma) is an
/// expected-object-key failure; duplicate keys are resolved by
/// last-write-wins insertion.
pub open spec fn spec_members(
    s: Seq<char>,
    i: int,
    acc: Seq<(Seq<char>, SpecValue)>,
    first: bool,
) -> SpecStep
    decreases s.len() - i, 3int,
{
    let j = step_pos(skip_ws(s, i), i, s.len() as int);
    if j >= s.len() {
        SpecStep::Fail(ErrorKind::UnexpectedEndOfInput)
    } else if s[j] == '}' {
        SpecStep::Found(SpecValue::Object(acc), j + 1)
    } else if !first && s[j] != ',' {
        SpecStep::Fail(ErrorKind::ExpectedToken)
    } else {
        let p = if first {
            j
        } else {
            step_pos(skip_ws(s, j + 1), j + 1, s.len() as int)
        };
        match spec_string(s, p) {
            TextStep::NoMatch => SpecStep::Fail(ErrorKind::ExpectedObjectKey),
            TextStep::Fail(k) => SpecStep::Fail(k),
            TextStep::Found(key, p1) => {
                let p2 = step_pos(step_pos(skip_ws(s, p1), p1, s.len() as int), j + 1, s.len() as int);
                if p2 >= s.len() {
                    SpecStep::Fail(ErrorKind::UnexpectedEndOfInput)
                } else if s[p2] != ':' {
                    SpecStep::Fail(ErrorKind::ExpectedToken)
                } else {
                    match spec_value(s, p2 + 1) {
                        SpecStep::Found(v, p3) => spec_members(
                            s,
                            step_pos(p3, j + 1, s.len() as int),
                            spec_upsert(acc, key, v),
                            false,
                        ),
                        SpecStep::Fail(k) => SpecStep::Fail(k),
                        SpecStep::NoMatch => SpecStep::Fail(ErrorKind::UnexpectedEndOfInput),
                    }
                }
            },
        }
    }
}

/// The array production: matches exactly when `[` stands at `i`.
pub open spec fn spec_array(s: Seq<char>, i: int) -> SpecStep
    decreases s.len() - i, 1int,
{
    if 0 <= i && i < s.len() && s[i] == '[' {
        spec_elements(s, step_pos(skip_ws(s, i + 1), i + 1, s.len() as int), Seq::empty(), true)
    } else {
        SpecStep::NoMatch
    }
}

/// The elements of an array, from scan position `i`, with `acc` the
/// elements gathered so far. The closing bracket is looked for before any
/// whitespace is skipped, exactly as the element loop runs: whitespace
/// directly before `]` is not consumed and leads to an expected-token
/// failure at the comma check.
pub open spec fn spec_elements(s: Seq<char>, i: int, acc: Seq<SpecValue>, first: bool) -> SpecStep
    decreases s.len() - i, 3int,
{
    if !(0 <= i && i < s.len()) {
        SpecStep::Fail(ErrorKind::UnexpectedEndOfInput)
    } else if s[i] == ']' {
        SpecStep::Found(SpecValue::Array(acc), i + 1)
    } else {
        let j = step_pos(skip_ws(s, i), i, s.len() as int);
        if !first && j >= s.len() {
            SpecStep::Fail(ErrorKind::UnexpectedEndOfInput)
        } else if !first && s[j] != ',' {
            SpecStep::Fail(ErrorKind::ExpectedToken)
        } else {
            let p = if first {
                j
            } else {
                j + 1
            };
            match spec_value(s, p) {
                SpecStep::Found(v, p3) => spec_elements(
                    s,
                    step_pos(p3, i + 1, s.len() as int),
                    acc.push(v),
                    false,
                ),
                SpecStep::Fail(k) => SpecStep::Fail(k),
                SpecStep::NoMatch => SpecStep::Fail(ErrorKind::UnexpectedEndOfInput),
            }
        }
    }
}

/// Law: element order is preserved. Whatever the element scan has
/// already gathered stays, in position and in order, in the array it
/// finally returns: no element is reordered, dropped or rewritten.
pub proof fn lemma_elements_keep_order(
    s: Seq<char>,
    i: int,
    acc: Seq<SpecValue>,
    first: bool,
    es: Seq<SpecValue>,
    p: int,
)
    requires
        spec_elements(s, i, acc, first) == SpecStep::Found(SpecValue::Array(es), p),
    ensures
        acc.len() <= es.len(),
        es.subrange(0, acc.len() as int) == acc,
    decreases s.len() - i,
{
    let len = s.len() as int;
    if 0 <= i && i < len && s[i] == ']' {
        assert(es.subrange(0, acc.len() as int) =~= acc);
    } else if 0 <= i && i < len {
        let j = step_pos(skip_ws(s, i), i, len);
        if first || (j < len && s[j] == ',') {
            let p0 = if first {
                j
            } else {
                j + 1
            };
            match spec_value(s, p0) {
                SpecStep::Found(v, p3) => {
                    let i2 = step_pos(p3, i + 1, len);
                    lemma_elements_keep_order(s, i2, acc.push(v), false, es, p);
                    let ap = acc.push(v);
                    assert forall|l: int| 0 <= l < acc.len() implies es[l] == acc[l] by {
                        assert(es.subrange(0, ap.len() as int)[l] == es[l]);
                        assert(ap[l] == acc[l]);
                    }
                    assert(es.subrange(0, acc.len() as int) =~= acc);
                },
                SpecStep::Fail(_) => {},
                SpecStep::NoMatch => {},
            }
        }
    }
}

/// The whole input: the top-level value production, tried once. Trailing
/// input after the value is ignored.
pub open spec fn spec_parse(s: Seq<char>) -> Result<SpecValue, ErrorKind> {
    match spec_value(s, 0) {
        SpecStep::Found(v, _) => Ok(v),
        SpecStep::Fail(k) => Err(k),
        SpecStep::NoMatch => Err(ErrorKind::UnexpectedEndOfInput),
    }
}

} // verus!
