//! The character cursor and the recursive-descent productions. Each
//! production's contract says that it returns exactly what the
//! corresponding grammar production of `crate::grammar` says, over the
//! input characters and the cursor position.

use vstd::prelude::*;
use vstd::string::StringExecFns;

use crate::errors::{ErrorKind, ParseError};
use crate::grammar::{
    is_digit, kw_false, kw_null, kw_true, lemma_scan_digits_bounds, lemma_skip_ws_bounds,
    scan_digits, skip_ws, spec_array,
    spec_elements, spec_keyword, spec_members, spec_number, spec_number_expo, spec_number_frac,
    spec_object, spec_parse, spec_string, spec_value, step_pos, str_body, SpecStep, TextStep,
};
use crate::text::{
    char_to_string, chars_to_string, escape_char, hex_digit_value, is_digit_char, is_hex_char,
    is_ws_char, str_to_chars, utf16_unit,
};
use crate::value::{
    lemma_swf_array_push, lemma_upsert_wf, pair_views, spec_upsert, swf, upsert_pair, val_view,
    views_of, JSONValue, SpecValue,
};

verus! {

broadcast use lemma_skip_ws_bounds, lemma_scan_digits_bounds;

/// The result of a whole parse.
pub type JSONResult = Result<JSONValue, ParseError>;

/// The payload of an array value.
pub type JSONArray = Vec<JSONValue>;

/// The payload of an object value: key/value pairs with pairwise
/// distinct keys, in first-insertion order.
pub type JSONMap = Vec<(String, JSONValue)>;

/// The cursor: the whole input decoded up front as a vector of Unicode
/// scalar values, plus the current scan position. A position equal to the
/// input length means end of input; no operation moves the position
/// before the start or past that end.
pub struct JSON {
    chars: Vec<char>,
    i: usize,
}

impl JSON {
    /// The input being scanned.
    pub closed spec fn src(&self) -> Seq<char> {
        self.chars@
    }

    /// The current scan position.
    pub closed spec fn pos(&self) -> int {
        self.i as int
    }

    /// The cursor invariant: the position never passes the end.
    pub closed spec fn wf(&self) -> bool {
        self.i <= self.chars@.len()
    }

    /// Makes a cursor over the given text, at position zero.
    pub fn new(json: &str) -> (r: Self)
        ensures
            r.wf(),
            r.src() == json@,
            r.pos() == 0,
    {
        JSON { chars: str_to_chars(json), i: 0 }
    }

    /// Moves the position forward by `amount`, stopping at the end of
    /// the input rather than passing it.
    pub fn increment(&mut self, amount: usize)
        requires
            old(self).wf(),
        ensures
            final(self).wf(),
            final(self).src() == old(self).src(),
            final(self).pos() == step_pos(
                old(self).pos() + amount,
                old(self).pos(),
                old(self).src().len() as int,
            ),
    {
        if amount >= self.chars.len() - self.i {
            self.i = self.chars.len();
        } else {
            self.i = self.i + amount;
        }
    }

    /// Advances past consecutive grammar whitespace (space, tab, newline
    /// and carriage return only).
    pub fn skip_whitespace(&mut self)
        requires
            old(self).wf(),
        ensures
            final(self).wf(),
            final(self).src() == old(self).src(),
            final(self).pos() == skip_ws(old(self).src(), old(self).pos()),
            old(self).pos() <= final(self).pos(),
    {
        while self.i < self.chars.len() && is_ws_char(self.chars[self.i])
            invariant
                self.wf(),
                self.src() == old(self).src(),
                old(self).pos() <= self.pos(),
                skip_ws(old(self).src(), old(self).pos()) == skip_ws(self.src(), self.pos()),
            decreases self.chars@.len() - self.i,
        {
            self.i = self.i + 1;
        }
    }

    /// Consumes exactly the character `ch`: any other character is an
    /// expected-token failure, and end of input an unexpected-end
    /// failure.
    pub fn eat(&mut self, ch: char) -> (r: Result<(), ParseError>)
        requires
            old(self).wf(),
        ensures
            final(self).wf(),
            final(self).src() == old(self).src(),
            r is Ok <==> (old(self).pos() < old(self).src().len() && old(self).src()[old(
                self,
            ).pos()] == ch),
            r is Ok ==> final(self).pos() == old(self).pos() + 1,
            r is Err ==> final(self).pos() == old(self).pos(),
            r matches Err(e) ==> e.kind() == (if old(self).pos() >= old(self).src().len() {
                ErrorKind::UnexpectedEndOfInput
            } else {
                ErrorKind::ExpectedToken
            }),
    {
        if self.i >= self.chars.len() {
            let mut msg = "Unexpected end of input. Expected '".to_owned();
            msg.append(char_to_string(ch).as_str());
            msg.append("'.");
            Err(ParseError::UnexpectedEndOfInput(msg))
        } else if self.chars[self.i] != ch {
            let mut msg = "Expected '".to_owned();
            msg.append(char_to_string(ch).as_str());
            msg.append("'.");
            Err(ParseError::ExpectedToken(msg))
        } else {
            self.i = self.i + 1;
            Ok(())
        }
    }

    /// Fails with an unexpected-end failure exactly when the cursor
    /// stands at end of input while the closing character `_ch` is still
    /// owed.
    pub fn expect_not_end(&mut self, _ch: char) -> (r: Result<(), ParseError>)
        requires
            old(self).wf(),
        ensures
            *final(self) == *old(self),
            r is Ok <==> old(self).pos() < old(self).src().len(),
            r matches Err(e) ==> e.kind() == ErrorKind::UnexpectedEndOfInput,
    {
        if self.i == self.chars.len() {
            Err(ParseError::UnexpectedEndOfInput("Unexpected end of input.".to_owned()))
        } else {
            Ok(())
        }
    }

    /// Fails with an expected-digit failure exactly when no digit stands
    /// at position `end`; `start` is where the numeric literal began, and
    /// the diagnostic names the offending character and the characters
    /// consumed so far.
    pub fn expect_digit(&mut self, start: usize, end: usize) -> (r: Result<(), ParseError>)
        requires
            old(self).wf(),
        ensures
            *final(self) == *old(self),
            r is Ok <==> (end < old(self).src().len() && is_digit(old(self).src()[end as int])),
            r matches Err(e) ==> e.kind() == ErrorKind::ExpectedDigit,
    {
        if end >= self.chars.len() || !is_digit_char(self.chars[end]) {
            let mut msg = "Expected a digit".to_owned();
            if end < self.chars.len() {
                msg.append(", received '");
                msg.append(char_to_string(self.chars[end]).as_str());
                msg.append("'");
            } else {
                msg.append(", reached the end of the input");
            }
            if start <= end && end <= self.chars.len() {
                msg.append(" after numeric '");
                let consumed = self.substring(start, end);
                msg.append(consumed.as_str());
                msg.append("'");
            }
            msg.append(".");
            Err(ParseError::ExpectedDigit(msg))
        } else {
            Ok(())
        }
    }

    /// The position of the first non-digit character at or after `from`.
    fn scan_digits_from(&self, from: usize) -> (r: usize)
        requires
            self.wf(),
            from <= self.chars@.len(),
        ensures
            r == scan_digits(self.src(), from as int),
            from <= r <= self.chars@.len(),
    {
        let mut n = from;
        while n < self.chars.len() && is_digit_char(self.chars[n])
            invariant
                self.wf(),
                from <= n <= self.chars@.len(),
                scan_digits(self.src(), from as int) == scan_digits(self.src(), n as int),
            decreases self.chars@.len() - n,
        {
            n = n + 1;
        }
        n
    }

    /// The input characters from `from` (inclusive) to `to` (exclusive),
    /// as an owned string.
    fn substring(&self, from: usize, to: usize) -> (r: String)
        requires
            self.wf(),
            from <= to <= self.chars@.len(),
        ensures
            r@ == self.src().subrange(from as int, to as int),
    {
        let mut buf: Vec<char> = Vec::new();
        let mut j = from;
        while j < to
            invariant
                self.wf(),
                from <= j <= to <= self.chars@.len(),
                buf@ == self.src().subrange(from as int, j as int),
            decreases to - j,
        {
            buf.push(self.chars[j]);
            j = j + 1;
            proof {
                assert(buf@ =~= self.src().subrange(from as int, j as int));
            }
        }
        chars_to_string(&buf)
    }

    /// The string production: consumes a string literal if one starts
    /// here, decoding its escapes, and returns its decoded text.
    pub fn parse_string(&mut self) -> (r: Result<Option<JSONValue>, ParseError>)
        requires
            old(self).wf(),
        ensures
            final(self).wf(),
            final(self).src() == old(self).src(),
            spec_string(old(self).src(), old(self).pos()) is NoMatch ==> (r matches Ok(o) && o
                is None && *final(self) == *old(self)),
            (spec_string(old(self).src(), old(self).pos()) matches TextStep::Found(t, p) ==> (
            r matches Ok(o) && o matches Some(v) && v@ == SpecValue::Text(t) && final(self).pos()
                == p && old(self).pos() < p)),
            (spec_string(old(self).src(), old(self).pos()) matches TextStep::Fail(k) ==> (
            r matches Err(e) && e.kind() == k)),
    {
        let ghost s = self.src();
        let ghost i0 = self.pos();
        if self.i >= self.chars.len() || self.chars[self.i] != '"' {
            return Ok(None);
        }
        self.i = self.i + 1;
        let mut buf: Vec<char> = Vec::new();
        loop
            invariant
                self.wf(),
                self.src() == s,
                s == old(self).src(),
                i0 == old(self).pos(),
                0 <= i0 < s.len() && s[i0] == '"',
                i0 < self.pos() <= s.len(),
                str_body(s, i0 + 1, Seq::empty()) == str_body(s, self.pos(), buf@),
            decreases s.len() - self.pos(),
        {
            if self.i >= self.chars.len() {
                return Err(
                    ParseError::UnexpectedEndOfInput(
                        "Unexpected end of input inside a string.".to_owned(),
                    ),
                );
            }
            let c = self.chars[self.i];
            if c == '"' {
                self.i = self.i + 1;
                return Ok(Some(JSONValue::String(chars_to_string(&buf))));
            } else if c == '\\' {
                if self.chars.len() - self.i < 2 {
                    return Err(
                        ParseError::UnexpectedEndOfInput(
                            "Unexpected end of input inside an escape.".to_owned(),
                        ),
                    );
                }
                let e = self.chars[self.i + 1];
                match escape_char(e) {
                    Some(d) => {
                        buf.push(d);
                        self.i = self.i + 2;
                    },
                    None => {
                        if e == 'u' {
                            if self.chars.len() - self.i > 5 && is_hex_char(self.chars[self.i + 2])
                                && is_hex_char(self.chars[self.i + 3]) && is_hex_char(
                                self.chars[self.i + 4],
                            ) && is_hex_char(self.chars[self.i + 5]) {
                                let code = hex_digit_value(self.chars[self.i + 2]) * 4096
                                    + hex_digit_value(self.chars[self.i + 3]) * 256
                                    + hex_digit_value(self.chars[self.i + 4]) * 16
                                    + hex_digit_value(self.chars[self.i + 5]);
                                buf.push(utf16_unit(code));
                                self.i = self.i + 6;
                            } else {
                                return Err(
                                    ParseError::ExpectedUnicodeEscape(
                                        "Expected a unicode escape sequence.".to_owned(),
                                    ),
                                );
                            }
                        } else {
                            return Err(
                                ParseError::ExpectedEscapeChar(
                                    "Expected an escape sequence.".to_owned(),
                                ),
                            );
                        }
                    },
                }
            } else {
                buf.push(c);
                self.i = self.i + 1;
            }
        }
    }

    /// The number production: consumes the maximal numeric literal if one
    /// starts here, and returns it exactly as consumed.
    pub fn parse_number(&mut self) -> (r: Result<Option<JSONValue>, ParseError>)
        requires
            old(self).wf(),
        ensures
            final(self).wf(),
            final(self).src() == old(self).src(),
            spec_number(old(self).src(), old(self).pos()) is NoMatch ==> (r matches Ok(o) && o
                is None && *final(self) == *old(self)),
            (spec_number(old(self).src(), old(self).pos()) matches SpecStep::Found(v, p) ==> (
            r matches Ok(o) && o matches Some(val) && val@ == v && final(self).pos() == p && old(
                self,
            ).pos() < p)),
            (spec_number(old(self).src(), old(self).pos()) matches SpecStep::Fail(k) ==> (
            r matches Err(e) && e.kind() == k)),
    {
        let ghost s = self.src();
        let ghost i0 = self.pos();
        if self.i >= self.chars.len() || !(is_digit_char(self.chars[self.i])
            || self.chars[self.i] == '-') {
            return Ok(None);
        }
        let start = self.i;
        let mut n = start;
        if self.chars[n] == '-' {
            n = n + 1;
        }
        let ghost d = n as int;
        self.expect_digit(start, n)?;
        n = self.scan_digits_from(n);
        proof {
            lemma_scan_digits_bounds(s, d + 1);
            assert(spec_number(s, i0) == spec_number_frac(s, i0, n as int));
            assert(i0 < n as int);
        }
        let ghost after_int = n as int;
        if n < self.chars.len() && self.chars[n] == '.' {
            self.expect_digit(start, n + 1)?;
            n = self.scan_digits_from(n + 1);
            proof {
                assert(spec_number_frac(s, i0, after_int) == spec_number_expo(s, i0, n as int));
            }
        } else {
            proof {
                assert(spec_number_frac(s, i0, after_int) == spec_number_expo(s, i0, n as int));
            }
        }
        let ghost f = n as int;
        if n < self.chars.len() && (self.chars[n] == 'e' || self.chars[n] == 'E') {
            let q = if n + 1 < self.chars.len() && (self.chars[n + 1] == '+' || self.chars[n + 1]
                == '-') {
                n + 2
            } else {
                n + 1
            };
            self.expect_digit(start, q)?;
            n = self.scan_digits_from(q);
            proof {
                assert(spec_number_expo(s, i0, f) matches SpecStep::Found(v, p) && v
                    == SpecValue::Number(s.subrange(i0, n as int)) && p == n as int);
            }
        } else {
            proof {
                assert(spec_number_expo(s, i0, f) matches SpecStep::Found(v, p) && v
                    == SpecValue::Number(s.subrange(i0, n as int)) && p == n as int);
            }
        }
        let lit = self.substring(start, n);
        self.i = n;
        Ok(Some(JSONValue::Number(lit)))
    }

    /// The keyword production: consumes exactly the characters of
    /// `search` if they all stand here, and returns `value` for them. No
    /// word-boundary check follows the match, and the production never
    /// fails.
    pub fn parse_keyword(&mut self, search: &str, value: JSONValue) -> (r: Result<
        Option<JSONValue>,
        ParseError,
    >)
        requires
            old(self).wf(),
        ensures
            final(self).wf(),
            final(self).src() == old(self).src(),
            r is Ok,
            spec_keyword(old(self).src(), old(self).pos(), search@) ==> (r matches Ok(o) && o
                matches Some(v) && v == value && final(self).pos() == old(self).pos()
                + search@.len()),
            !spec_keyword(old(self).src(), old(self).pos(), search@) ==> (r matches Ok(o) && o
                is None && *final(self) == *old(self)),
    {
        let ghost s = self.src();
        let ghost i0 = self.pos();
        let w = str_to_chars(search);
        if self.chars.len() - self.i < w.len() {
            return Ok(None);
        }
        let mut j: usize = 0;
        while j < w.len()
            invariant
                self.wf(),
                *self == *old(self),
                s == self.src(),
                i0 == self.pos(),
                w@ == search@,
                j <= w@.len(),
                i0 + w@.len() <= s.len(),
                s.len() <= usize::MAX,
                forall|l: int| 0 <= l < j ==> s[i0 + l] == w@[l],
            decreases w@.len() - j,
        {
            if self.chars[self.i + j] != w[j] {
                proof {
                    assert(s.subrange(i0, i0 + w@.len() as int)[j as int] == s[i0 + j]);
                    assert(!spec_keyword(s, i0, search@));
                }
                return Ok(None);
            }
            j = j + 1;
        }
        proof {
            assert(s.subrange(i0, i0 + w@.len() as int) =~= w@);
        }
        self.i = self.i + w.len();
        Ok(Some(value))
    }

    /// The object production: consumes an object literal if one starts
    /// here. Members are string keys, each followed by a colon and a
    /// value; members after the first are preceded by a comma; a missing
    /// key (for instance after a trailing comma) is an
    /// expected-object-key failure; a key written twice keeps the last
    /// value.
    pub fn parse_object(&mut self) -> (r: Result<Option<JSONValue>, ParseError>)
        requires
            old(self).wf(),
        ensures
            final(self).wf(),
            final(self).src() == old(self).src(),
            spec_object(old(self).src(), old(self).pos()) is NoMatch ==> (r matches Ok(o) && o
                is None && *final(self) == *old(self)),
            (spec_object(old(self).src(), old(self).pos()) matches SpecStep::Found(v, p) ==> (
            r matches Ok(o) && o matches Some(val) && val@ == v && swf(v) && final(self).pos() == p
                && old(self).pos() < p && p <= old(self).src().len())),
            (spec_object(old(self).src(), old(self).pos()) matches SpecStep::Fail(k) ==> (
            r matches Err(e) && e.kind() == k)),
        decreases self.src().len() - self.pos(), 1int,
    {
        let ghost s = self.src();
        let ghost i0 = self.pos();
        if self.i >= self.chars.len() || self.chars[self.i] != '{' {
            return Ok(None);
        }
        self.i = self.i + 1;
        let mut result: Vec<(String, JSONValue)> = Vec::new();
        let mut first: bool = true;
        loop
            invariant
                self.wf(),
                self.src() == s,
                s == old(self).src(),
                i0 == old(self).pos(),
                0 <= i0 < s.len() && s[i0] == '{',
                i0 < self.pos() <= s.len(),
                swf(SpecValue::Object(pair_views(result@))),
                spec_object(s, i0) == spec_members(s, self.pos(), pair_views(result@), first),
            decreases s.len() - self.pos(),
        {
            let ghost itop = self.pos();
            let ghost acc = pair_views(result@);
            self.skip_whitespace();
            let ghost j = self.pos();
            proof {
                assert(j == step_pos(skip_ws(s, itop), itop, s.len() as int));
            }
            if self.i >= self.chars.len() {
                return Err(
                    ParseError::UnexpectedEndOfInput(
                        "Unexpected end of input while reading an object.".to_owned(),
                    ),
                );
            }
            if self.chars[self.i] == '}' {
                self.i = self.i + 1;
                return Ok(Some(JSONValue::Object(result)));
            }
            if !first {
                self.eat(',')?;
                self.skip_whitespace();
            }
            let ghost p = self.pos();
            let key_opt = self.parse_string()?;
            let kv = match key_opt {
                None => {
                    return Err(
                        ParseError::ExpectedObjectKey(
                            "Expected an object key. Does the object have a trailing comma?".to_owned(),
                        ),
                    );
                },
                Some(kv) => kv,
            };
            let ghost key = match spec_string(s, p) {
                TextStep::Found(t, _) => t,
                _ => Seq::empty(),
            };
            let k: String = match kv {
                JSONValue::String(ks) => ks,
                _ => vstd::pervasive::unreached(),
            };
            self.skip_whitespace();
            let ghost p2 = self.pos();
            self.eat(':')?;
            let val = self.parse_value()?;
            let ghost p3 = self.pos();
            proof {
                lemma_upsert_wf(acc, key, val_view(val));
                assert(spec_members(s, itop, acc, first) == spec_members(
                    s,
                    p3,
                    spec_upsert(acc, key, val_view(val)),
                    false,
                ));
            }
            upsert_pair(&mut result, k, val);
            first = false;
        }
    }

    /// The array production: consumes an array literal if one starts
    /// here. Elements are values separated by commas; the closing bracket
    /// is looked for before any whitespace is skipped, so whitespace
    /// directly before `]` leads to an expected-token failure at the
    /// comma check.
    pub fn parse_array(&mut self) -> (r: Result<Option<JSONValue>, ParseError>)
        requires
            old(self).wf(),
        ensures
            final(self).wf(),
            final(self).src() == old(self).src(),
            spec_array(old(self).src(), old(self).pos()) is NoMatch ==> (r matches Ok(o) && o
                is None && *final(self) == *old(self)),
            (spec_array(old(self).src(), old(self).pos()) matches SpecStep::Found(v, p) ==> (
            r matches Ok(o) && o matches Some(val) && val@ == v && swf(v) && final(self).pos() == p
                && old(self).pos() < p && p <= old(self).src().len())),
            (spec_array(old(self).src(), old(self).pos()) matches SpecStep::Fail(k) ==> (
            r matches Err(e) && e.kind() == k)),
        decreases self.src().len() - self.pos(), 1int,
    {
        let ghost s = self.src();
        let ghost i0 = self.pos();
        if self.i >= self.chars.len() || self.chars[self.i] != '[' {
            return Ok(None);
        }
        self.i = self.i + 1;
        self.skip_whitespace();
        let mut result: Vec<JSONValue> = Vec::new();
        let mut first: bool = true;
        loop
            invariant
                self.wf(),
                self.src() == s,
                s == old(self).src(),
                i0 == old(self).pos(),
                0 <= i0 < s.len() && s[i0] == '[',
                i0 < self.pos() <= s.len(),
                swf(SpecValue::Array(views_of(result@))),
                spec_array(s, i0) == spec_elements(s, self.pos(), views_of(result@), first),
            decreases s.len() - self.pos(),
        {
            let ghost itop = self.pos();
            let ghost acc = views_of(result@);
            if self.i >= self.chars.len() {
                return Err(
                    ParseError::UnexpectedEndOfInput(
                        "Unexpected end of input while reading an array.".to_owned(),
                    ),
                );
            }
            if self.chars[self.i] == ']' {
                self.i = self.i + 1;
                return Ok(Some(JSONValue::Array(result)));
            }
            self.skip_whitespace();
            if !first {
                self.eat(',')?;
            }
            let val = self.parse_value()?;
            let ghost p3 = self.pos();
            proof {
                let rs = result@;
                assert(rs.push(val).subrange(0, rs.len() as int) =~= rs);
                assert(views_of(rs.push(val)) == acc.push(val_view(val)));
                lemma_swf_array_push(acc, val_view(val));
                assert(spec_elements(s, itop, acc, first) == spec_elements(
                    s,
                    p3,
                    acc.push(val_view(val)),
                    false,
                ));
            }
            result.push(val);
            first = false;
        }
    }

    /// The entry production: skips leading whitespace and tries, in this
    /// fixed order: string, number, object, array, `true`, `false`,
    /// `null`. The first match or definite failure decides; if nothing
    /// matches, the input is not valid JSON and the generic
    /// unexpected-end failure is reported.
    pub fn parse_value(&mut self) -> (r: JSONResult)
        requires
            old(self).wf(),
        ensures
            final(self).wf(),
            final(self).src() == old(self).src(),
            (spec_value(old(self).src(), old(self).pos()) matches SpecStep::Found(v, p) ==> (
            r matches Ok(val) && val@ == v && swf(v) && final(self).pos() == p && old(self).pos()
                < p && p <= old(self).src().len())),
            (spec_value(old(self).src(), old(self).pos()) matches SpecStep::Fail(k) ==> (
            r matches Err(e) && e.kind() == k)),
            !(spec_value(old(self).src(), old(self).pos()) is NoMatch),
        decreases self.src().len() - self.pos(), 2int,
    {
        let ghost s = self.src();
        let ghost i0 = self.pos();
        self.skip_whitespace();
        let ghost j = self.pos();
        proof {
            assert(j == step_pos(skip_ws(s, i0), i0, s.len() as int));
        }
        if let Some(v) = self.parse_string()? {
            return Ok(v);
        }
        if let Some(v) = self.parse_number()? {
            return Ok(v);
        }
        if let Some(v) = self.parse_object()? {
            return Ok(v);
        }
        if let Some(v) = self.parse_array()? {
            return Ok(v);
        }
        proof {
            reveal_strlit("true");
            reveal_strlit("false");
            reveal_strlit("null");
            assert("true"@ =~= kw_true());
            assert("false"@ =~= kw_false());
            assert("null"@ =~= kw_null());
        }
        if let Some(v) = self.parse_keyword("true", JSONValue::True)? {
            return Ok(v);
        }
        if let Some(v) = self.parse_keyword("false", JSONValue::False)? {
            return Ok(v);
        }
        if let Some(v) = self.parse_keyword("null", JSONValue::Null)? {
            return Ok(v);
        }
        Err(ParseError::UnexpectedEndOfInput("Doesn't seem to be valid JSON.".to_owned()))
    }

    /// Parses the given text: the single entry point. Returns the value
    /// tree the grammar gives for it, or the first error encountered.
    /// Trailing input after the top-level value is not inspected.
    pub fn parse(json: &str) -> (r: JSONResult)
        ensures
            (spec_parse(json@) matches Ok(v) ==> r matches Ok(val) && val@ == v && swf(v)),
            (spec_parse(json@) matches Err(k) ==> r matches Err(e) && e.kind() == k),
    {
        let mut p = JSON::new(json);
        p.parse_value()
    }
}

} // verus!
