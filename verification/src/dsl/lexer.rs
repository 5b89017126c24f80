//! Lexical analysis: turns raw character input into a flat token sequence.
//!
//! The scanner walks the characters left to right. Whitespace is skipped
//! (but a line break interrupts the skipping and is consumed as its own,
//! discarded token), `#` starts a comment that runs to the end of the line,
//! `"` starts a string literal with backslash escapes, digit-leading input
//! first attempts the `DDDD-DD-DD` date shape and falls back to a decimal
//! number, and letter- or underscore-leading input becomes a symbol
//! (`namespace:name`), a keyword, or an identifier.
//!
//! The whole scan is specified by [`spec_tokenize`]; `Lexer::tokenize`
//! returns exactly what that function describes, or the error position it
//! describes.

use vstd::prelude::*;
use crate::decimal::Decimal;
use crate::text::{chars_to_string_range, push_char, str_chars};
use super::token::{Token, TokenV, spec_keyword};

verus! {

/// A fatal lexing failure: a human-readable message and the character
/// position it was detected at.
#[derive(Debug)]
pub struct LexError {
    pub message: String,
    pub position: usize,
}

/// Whitespace the lexer skips silently (a line break is not among these).
pub open spec fn spec_is_skippable_ws(c: char) -> bool {
    c == ' ' || c == '\r' || c == '\t'
}

/// ASCII decimal digits.
pub open spec fn spec_is_digit(c: char) -> bool {
    '0' <= c && c <= '9'
}

/// Characters an identifier may start with.
pub open spec fn spec_is_ident_start(c: char) -> bool {
    ('A' <= c && c <= 'Z') || ('a' <= c && c <= 'z') || c == '_'
}

/// Characters an identifier may continue with.
pub open spec fn spec_is_ident_char(c: char) -> bool {
    spec_is_ident_start(c) || spec_is_digit(c)
}

/// The character at `i`, or the NUL sentinel at or past the end.
pub open spec fn spec_peek(s: Seq<char>, i: nat) -> char {
    if i < s.len() {
        s[i as int]
    } else {
        '\0'
    }
}

/// The first position at or after `i` whose character is not skippable
/// whitespace (or the end of input).
pub open spec fn spec_skip_ws(s: Seq<char>, i: nat) -> nat
    decreases s.len() - i,
{
    if i < s.len() && spec_is_skippable_ws(s[i as int]) {
        spec_skip_ws(s, i + 1)
    } else {
        i
    }
}

/// The first position at or after `i` whose character is not a digit.
pub open spec fn spec_digit_end(s: Seq<char>, i: nat) -> nat
    decreases s.len() - i,
{
    if i < s.len() && spec_is_digit(s[i as int]) {
        spec_digit_end(s, i + 1)
    } else {
        i
    }
}

/// The first position at or after `i` whose character is not an identifier
/// character.
pub open spec fn spec_ident_end(s: Seq<char>, i: nat) -> nat
    decreases s.len() - i,
{
    if i < s.len() && spec_is_ident_char(s[i as int]) {
        spec_ident_end(s, i + 1)
    } else {
        i
    }
}

/// The first position at or after `i` holding a line break (or the end of
/// input): where a comment's text stops.
pub open spec fn spec_comment_end(s: Seq<char>, i: nat) -> nat
    decreases s.len() - i,
{
    if i < s.len() && s[i as int] != '\n' {
        spec_comment_end(s, i + 1)
    } else {
        i
    }
}

/// What one escaped character denotes inside a string literal: the five
/// named escapes translate, anything else keeps its backslash.
pub open spec fn spec_escape(c: char) -> Seq<char> {
    if c == 'n' {
        seq!['\n']
    } else if c == 't' {
        seq!['\t']
    } else if c == 'r' {
        seq!['\r']
    } else if c == '\\' {
        seq!['\\']
    } else if c == '"' {
        seq!['"']
    } else {
        seq!['\\', c]
    }
}

/// Scans a string literal body starting at `i` (just past the opening
/// quote). Returns the translated contents and the position just past the
/// closing quote, or the error position of an unterminated literal or an
/// embedded raw line break.
pub open spec fn spec_scan_string(s: Seq<char>, i: nat) -> Result<(Seq<char>, nat), nat>
    decreases s.len() - i,
{
    if i >= s.len() {
        Err(s.len())
    } else if s[i as int] == '"' {
        Ok((Seq::<char>::empty(), i + 1))
    } else if s[i as int] == '\n' {
        Err(i)
    } else if s[i as int] == '\\' {
        if i + 1 >= s.len() {
            Err(s.len())
        } else {
            match spec_scan_string(s, i + 2) {
                Ok((rest, j)) => Ok((spec_escape(s[i as int + 1]) + rest, j)),
                Err(p) => Err(p),
            }
        }
    } else {
        match spec_scan_string(s, i + 1) {
            Ok((rest, j)) => Ok((seq![s[i as int]] + rest, j)),
            Err(p) => Err(p),
        }
    }
}

/// The numeric value of one decimal digit character.
pub open spec fn spec_digit_val(c: char) -> nat {
    if c as u32 >= 48 {
        (c as u32 - 48) as nat
    } else {
        0
    }
}

/// The numeric value of a digit string, most significant digit first.
pub open spec fn spec_digits_val(ds: Seq<char>) -> nat
    decreases ds.len(),
{
    if ds.len() == 0 {
        0
    } else {
        spec_digits_val(ds.drop_last()) * 10 + spec_digit_val(ds.last())
    }
}

/// The exact decimal denoted by integer digits and fraction digits, or
/// `None` when the mantissa does not fit `u128` (or the fraction is longer
/// than `u32::MAX` digits): such a literal is rejected by the lexer.
pub open spec fn spec_make_decimal(intd: Seq<char>, fracd: Seq<char>) -> Option<Decimal> {
    let m = spec_digits_val(intd + fracd);
    if m <= u128::MAX && fracd.len() <= u32::MAX {
        Some(Decimal { mantissa: m as u128, scale: fracd.len() as u32 })
    } else {
        None
    }
}

/// Scans digit-leading input at `i`: a date exactly shaped `DDDD-DD-DD`,
/// else a decimal number `digits[.digits]`. A failed date attempt that has
/// already consumed a `-` cannot be a valid number, so it reports an error
/// at `i`; so does a number whose mantissa is out of range.
pub open spec fn spec_scan_number_or_date(s: Seq<char>, i: nat) -> Result<(TokenV, nat), nat> {
    let d1 = spec_digit_end(s, i);
    if d1 - i == 4 && d1 < s.len() && s[d1 as int] == '-' {
        let mend = spec_digit_end(s, d1 + 1);
        if mend - (d1 + 1) == 2 && mend < s.len() && s[mend as int] == '-' {
            let dend = spec_digit_end(s, mend + 1);
            if dend - (mend + 1) == 2 {
                Ok((TokenV::Date(s.subrange(i as int, dend as int)), dend))
            } else {
                Err(i)
            }
        } else {
            Err(i)
        }
    } else {
        let fend = if d1 < s.len() && s[d1 as int] == '.' {
            spec_digit_end(s, d1 + 1)
        } else {
            d1
        };
        let intd = s.subrange(i as int, d1 as int);
        let fracd = if fend == d1 {
            Seq::<char>::empty()
        } else {
            s.subrange(d1 + 1 as int, fend as int)
        };
        match spec_make_decimal(intd, fracd) {
            Some(d) => Ok((TokenV::Number(d), fend)),
            None => Err(i),
        }
    }
}

/// Scans identifier-leading input at `i`: a symbol when the identifier is
/// immediately followed by `:` (the post-colon segment must be non-empty),
/// else a keyword when the word is in the (case-insensitive) keyword table,
/// else a plain identifier.
pub open spec fn spec_scan_ident(s: Seq<char>, i: nat) -> Result<(TokenV, nat), nat> {
    let e = spec_ident_end(s, i);
    if e < s.len() && s[e as int] == ':' {
        let nend = spec_ident_end(s, e + 1);
        if nend > e + 1 {
            Ok(
                (
                    TokenV::Symbol(
                        s.subrange(i as int, e as int),
                        s.subrange(e as int + 1, nend as int),
                    ),
                    nend,
                ),
            )
        } else {
            Err(e + 1)
        }
    } else {
        let word = s.subrange(i as int, e as int);
        match spec_keyword(word) {
            Some(t) => Ok((t, e)),
            None => Ok((TokenV::Identifier(word), e)),
        }
    }
}

/// Scans one token at `i` (which must not be the end of input).
pub open spec fn spec_scan_token(s: Seq<char>, i: nat) -> Result<(TokenV, nat), nat> {
    let c = s[i as int];
    if c == '\n' {
        Ok((TokenV::Newline, i + 1))
    } else if c == '+' {
        Ok((TokenV::Plus, i + 1))
    } else if c == '-' {
        Ok((TokenV::Minus, i + 1))
    } else if c == '@' {
        Ok((TokenV::At, i + 1))
    } else if c == ':' {
        Ok((TokenV::Colon, i + 1))
    } else if c == ',' {
        Ok((TokenV::Comma, i + 1))
    } else if c == '(' {
        Ok((TokenV::LeftParen, i + 1))
    } else if c == ')' {
        Ok((TokenV::RightParen, i + 1))
    } else if c == '{' {
        Ok((TokenV::LeftBrace, i + 1))
    } else if c == '}' {
        Ok((TokenV::RightBrace, i + 1))
    } else if c == '"' {
        match spec_scan_string(s, i + 1) {
            Ok((v, j)) => Ok((TokenV::StrLit(v), j)),
            Err(p) => Err(p),
        }
    } else if c == '#' {
        let j = spec_comment_end(s, i + 1);
        Ok((TokenV::Comment(s.subrange(i as int + 1, j as int)), j))
    } else if spec_is_digit(c) {
        spec_scan_number_or_date(s, i)
    } else if spec_is_ident_start(c) {
        spec_scan_ident(s, i)
    } else {
        Err(i + 1)
    }
}

/// The whole scan from position `i`: skip whitespace, scan a token, drop
/// `Newline` tokens, and end the output with `Eof`. An error anywhere
/// aborts the whole tokenization with its position.
pub open spec fn spec_tokenize(s: Seq<char>, i: nat) -> Result<Seq<TokenV>, nat>
    decreases s.len() - i,
{
    let j = spec_skip_ws(s, i);
    if j >= s.len() {
        Ok(seq![TokenV::Eof])
    } else {
        match spec_scan_token(s, j) {
            Err(p) => Err(p),
            Ok((t, k)) => {
                if i <= j && j < k <= s.len() {
                    match spec_tokenize(s, k) {
                        Err(p) => Err(p),
                        Ok(rest) => Ok(
                            if t is Newline {
                                rest
                            } else {
                                seq![t] + rest
                            },
                        ),
                    }
                } else {
                    // A scanned token always advances (see
                    // `lemma_scan_token_bounds`), so this branch is never
                    // taken.
                    Err(s.len() + 1)
                }
            },
        }
    }
}

pub proof fn lemma_skip_ws_bounds(s: Seq<char>, i: nat)
    requires
        i <= s.len(),
    ensures
        i <= spec_skip_ws(s, i) <= s.len(),
    decreases s.len() - i,
{
    if i < s.len() && spec_is_skippable_ws(s[i as int]) {
        lemma_skip_ws_bounds(s, i + 1);
    }
}

pub proof fn lemma_digit_end_bounds(s: Seq<char>, i: nat)
    requires
        i <= s.len(),
    ensures
        i <= spec_digit_end(s, i) <= s.len(),
        forall|k: int| i <= k < spec_digit_end(s, i) ==> spec_is_digit(#[trigger] s[k]),
        spec_digit_end(s, i) < s.len() ==> !spec_is_digit(s[spec_digit_end(s, i) as int]),
    decreases s.len() - i,
{
    if i < s.len() && spec_is_digit(s[i as int]) {
        lemma_digit_end_bounds(s, i + 1);
    }
}

pub proof fn lemma_ident_end_bounds(s: Seq<char>, i: nat)
    requires
        i <= s.len(),
    ensures
        i <= spec_ident_end(s, i) <= s.len(),
        forall|k: int| i <= k < spec_ident_end(s, i) ==> spec_is_ident_char(#[trigger] s[k]),
        spec_ident_end(s, i) < s.len() ==> !spec_is_ident_char(s[spec_ident_end(s, i) as int]),
    decreases s.len() - i,
{
    if i < s.len() && spec_is_ident_char(s[i as int]) {
        lemma_ident_end_bounds(s, i + 1);
    }
}

pub proof fn lemma_comment_end_bounds(s: Seq<char>, i: nat)
    requires
        i <= s.len(),
    ensures
        i <= spec_comment_end(s, i) <= s.len(),
    decreases s.len() - i,
{
    if i < s.len() && s[i as int] != '\n' {
        lemma_comment_end_bounds(s, i + 1);
    }
}

pub proof fn lemma_scan_string_bounds(s: Seq<char>, i: nat)
    requires
        i <= s.len(),
    ensures
        match spec_scan_string(s, i) {
            Ok((v, j)) => i < j <= s.len(),
            Err(p) => p <= s.len(),
        },
    decreases s.len() - i,
{
    if i < s.len() {
        if s[i as int] == '"' {
        } else if s[i as int] == '\n' {
        } else if s[i as int] == '\\' {
            if i + 1 < s.len() {
                lemma_scan_string_bounds(s, i + 2);
            }
        } else {
            lemma_scan_string_bounds(s, i + 1);
        }
    }
}

/// A scanned token always moves the position forward and stays in bounds;
/// an error position stays in bounds too (one past a bad character at
/// worst).
pub proof fn lemma_scan_token_bounds(s: Seq<char>, i: nat)
    requires
        i < s.len(),
    ensures
        match spec_scan_token(s, i) {
            Ok((t, k)) => i < k <= s.len(),
            Err(p) => p <= s.len(),
        },
{
    let c = s[i as int];
    if c == '"' {
        lemma_scan_string_bounds(s, i + 1);
    } else if c == '#' {
        lemma_comment_end_bounds(s, i + 1);
    } else if spec_is_digit(c) {
        lemma_digit_end_bounds(s, i);
        let d1 = spec_digit_end(s, i);
        if d1 - i == 4 && d1 < s.len() && s[d1 as int] == '-' {
            lemma_digit_end_bounds(s, d1 + 1);
            let mend = spec_digit_end(s, d1 + 1);
            if mend - (d1 + 1) == 2 && mend < s.len() && s[mend as int] == '-' {
                lemma_digit_end_bounds(s, mend + 1);
            }
        } else {
            if d1 < s.len() && s[d1 as int] == '.' {
                lemma_digit_end_bounds(s, d1 + 1);
            }
        }
    } else if spec_is_ident_start(c) {
        lemma_ident_end_bounds(s, i);
        let e = spec_ident_end(s, i);
        if e < s.len() && s[e as int] == ':' {
            lemma_ident_end_bounds(s, e + 1);
        }
    }
}

/// Any digit-string value only grows as more digits are appended.
pub proof fn lemma_digits_val_prefix(ds: Seq<char>, k: int)
    requires
        0 <= k <= ds.len(),
    ensures
        spec_digits_val(ds.subrange(0, k)) <= spec_digits_val(ds),
    decreases ds.len() - k,
{
    if k < ds.len() {
        let next = ds.subrange(0, k + 1);
        assert(next.drop_last() =~= ds.subrange(0, k));
        assert(spec_digits_val(next) == spec_digits_val(ds.subrange(0, k)) * 10
            + spec_digit_val(next.last()));
        lemma_digits_val_prefix(ds, k + 1);
        assert(ds.subrange(0, ds.len() as int) =~= ds);
    } else {
        assert(ds.subrange(0, ds.len() as int) =~= ds);
    }
}

/// The lexer, scanning left to right over Unicode scalar values while
/// tracking line and column for diagnostics.
pub struct Lexer {
    pub input: Vec<char>,
    pub position: usize,
    pub current_line: usize,
    pub current_column: usize,
}

impl Lexer {
    /// A fresh lexer over the characters of `input`, at position 0,
    /// line 1, column 1.
    pub fn new(input: &str) -> (r: Lexer)
        ensures
            r.input@ == input@,
            r.position == 0,
            r.current_line == 1,
            r.current_column == 1,
    {
        Lexer { input: str_chars(input), position: 0, current_line: 1, current_column: 1 }
    }

    /// Whether the whole input has been consumed.
    fn is_at_end(&self) -> (r: bool)
        ensures
            r == (self.position >= self.input@.len()),
    {
        self.position >= self.input.len()
    }

    /// The current character, or NUL at the end of input.
    fn peek(&self) -> (c: char)
        ensures
            c == spec_peek(self.input@, self.position as nat),
    {
        if self.is_at_end() {
            '\0'
        } else {
            self.input[self.position]
        }
    }

    /// Consumes and returns the current character (NUL at the end of
    /// input, without moving). Line and column advance monotonically.
    fn advance(&mut self) -> (c: char)
        ensures
            final(self).input == old(self).input,
            old(self).position >= old(self).input@.len() ==> {
                &&& c == '\0'
                &&& *final(self) == *old(self)
            },
            old(self).position < old(self).input@.len() ==> {
                &&& c == old(self).input@[old(self).position as int]
                &&& final(self).position == old(self).position + 1
            },
            final(self).current_line >= old(self).current_line,
    {
        let n = self.input.len();
        if self.position >= n {
            return '\0';
        }
        let ch = self.input[self.position];
        self.position = self.position + 1;
        if ch == '\n' {
            if self.current_line < usize::MAX {
                self.current_line = self.current_line + 1;
            }
            self.current_column = 1;
        } else {
            if self.current_column < usize::MAX {
                self.current_column = self.current_column + 1;
            }
        }
        ch
    }

    /// Consumes characters up to position `j`.
    fn advance_to(&mut self, j: usize)
        requires
            old(self).position <= j <= old(self).input@.len(),
    ensures
            final(self).input == old(self).input,
            final(self).position == j,
            final(self).current_line >= old(self).current_line,
    {
        while self.position < j
            invariant
                self.position <= j <= self.input@.len(),
                self.input == old(self).input,
                self.current_line >= old(self).current_line,
            decreases j - self.position,
        {
            self.advance();
        }
    }

    /// Skips spaces, tabs and carriage returns; stops at anything else,
    /// including a line break.
    fn skip_whitespace(&mut self)
        requires
            old(self).position <= old(self).input@.len(),
        ensures
            final(self).input == old(self).input,
            final(self).position == spec_skip_ws(old(self).input@, old(self).position as nat),
            final(self).position <= final(self).input@.len(),
            final(self).current_line >= old(self).current_line,
    {
        loop
            invariant
                self.input == old(self).input,
                self.position <= self.input@.len(),
                spec_skip_ws(self.input@, self.position as nat) == spec_skip_ws(
                    old(self).input@,
                    old(self).position as nat,
                ),
                self.current_line >= old(self).current_line,
            decreases self.input@.len() - self.position,
        {
            if self.is_at_end() {
                return ;
            }
            let c = self.peek();
            if c == ' ' || c == '\r' || c == '\t' {
                self.advance();
            } else {
                return ;
            }
        }
    }

    /// Scans a string literal body (the opening quote is already
    /// consumed): translates escapes and stops at the closing quote.
    #[verifier::loop_isolation(false)]
    fn scan_string(&mut self) -> (r: Result<Token, LexError>)
        requires
            old(self).position <= old(self).input@.len(),
        ensures
            final(self).input == old(self).input,
            final(self).position <= final(self).input@.len(),
            final(self).current_line >= old(self).current_line,
            match r {
                Ok(t) => spec_scan_string(old(self).input@, old(self).position as nat)
                    matches Ok((v, j)) && t@ == TokenV::StrLit(v) && final(self).position == j,
                Err(e) => spec_scan_string(old(self).input@, old(self).position as nat)
                    matches Err(p) && e.position == p,
            },
    {
        let ghost s = old(self).input@;
        let ghost pos0 = old(self).position as nat;
        let mut value = String::new();
        loop
            invariant
                self.input == old(self).input,
                self.input@ == s,
                self.position <= s.len(),
                self.current_line >= old(self).current_line,
                match spec_scan_string(s, self.position as nat) {
                    Ok((rest, j)) => spec_scan_string(s, pos0) matches Ok((v, j2)) && v == value@
                        + rest && j2 == j,
                    Err(p) => spec_scan_string(s, pos0) matches Err(p2) && p2 == p,
                },
            decreases s.len() - self.position,
        {
            if self.is_at_end() {
                proof {
                    assert(spec_scan_string(s, self.position as nat) == Err::<
                        (Seq<char>, nat),
                        nat,
                    >(s.len()));
                }
                return Err(
                    LexError { message: "Unterminated string".to_owned(), position: self.position },
                );
            }
            let c = self.peek();
            if c == '"' {
                self.advance();
                proof {
                    assert(value@ + Seq::<char>::empty() =~= value@);
                }
                return Ok(Token::String(value));
            }
            if c == '\n' {
                proof {
                    assert(spec_scan_string(s, self.position as nat) == Err::<
                        (Seq<char>, nat),
                        nat,
                    >(self.position as nat));
                }
                return Err(
                    LexError { message: "Unterminated string".to_owned(), position: self.position },
                );
            }
            let ghost p = self.position as nat;
            let ghost value0 = value@;
            let ch = self.advance();
            if ch == '\\' {
                let esc = self.advance();
                if esc == 'n' {
                    push_char(&mut value, '\n');
                } else if esc == 't' {
                    push_char(&mut value, '\t');
                } else if esc == 'r' {
                    push_char(&mut value, '\r');
                } else if esc == '\\' {
                    push_char(&mut value, '\\');
                } else if esc == '"' {
                    push_char(&mut value, '"');
                } else {
                    push_char(&mut value, '\\');
                    push_char(&mut value, esc);
                }
                proof {
                    if p + 1 < s.len() {
                        assert(value@ =~= value0 + spec_escape(s[p as int + 1]));
                        match spec_scan_string(s, p + 2) {
                            Ok(pr) => {
                                assert((value0 + spec_escape(s[p as int + 1])) + pr.0 =~= value0
                                    + (spec_escape(s[p as int + 1]) + pr.0));
                            },
                            Err(_) => {},
                        }
                    }
                }
            } else {
                push_char(&mut value, ch);
                proof {
                    assert(value@ =~= value0 + seq![s[p as int]]);
                    match spec_scan_string(s, p + 1) {
                        Ok(pr) => {
                            assert((value0 + seq![s[p as int]]) + pr.0 =~= value0 + (seq![
                                s[p as int]] + pr.0));
                        },
                        Err(_) => {},
                    }
                }
            }
        }
    }

    /// Scans a comment body (the `#` is already consumed): everything up
    /// to, and not including, the next line break.
    #[verifier::loop_isolation(false)]
    fn scan_comment(&mut self) -> (r: Result<Token, LexError>)
        requires
            old(self).position <= old(self).input@.len(),
        ensures
            final(self).input == old(self).input,
            final(self).position <= final(self).input@.len(),
            final(self).current_line >= old(self).current_line,
            r matches Ok(t) && ({
                let j = spec_comment_end(old(self).input@, old(self).position as nat);
                t@ == TokenV::Comment(
                    old(self).input@.subrange(old(self).position as int, j as int),
                ) && final(self).position == j
            }),
    {
        let ghost s = old(self).input@;
        let ghost pos0 = old(self).position as nat;
        let mut comment = String::new();
        loop
            invariant
                self.input == old(self).input,
                self.input@ == s,
                pos0 <= self.position <= s.len(),
                self.current_line >= old(self).current_line,
                comment@ == s.subrange(pos0 as int, self.position as int),
                spec_comment_end(s, self.position as nat) == spec_comment_end(s, pos0),
            decreases s.len() - self.position,
        {
            if self.is_at_end() {
                proof {
                    assert(spec_comment_end(s, self.position as nat) == self.position as nat);
                }
                return Ok(Token::Comment(comment));
            }
            let c = self.peek();
            if c == '\n' {
                proof {
                    assert(spec_comment_end(s, self.position as nat) == self.position as nat);
                }
                return Ok(Token::Comment(comment));
            }
            let ch = self.advance();
            push_char(&mut comment, ch);
            proof {
                assert(comment@ =~= s.subrange(pos0 as int, self.position as int));
            }
        }
    }
}

/// The first position at or after `i` in `v` holding a non-digit.
fn digit_end(v: &Vec<char>, i: usize) -> (r: usize)
    requires
        i <= v@.len(),
    ensures
        r as nat == spec_digit_end(v@, i as nat),
        i <= r <= v@.len(),
{
    let n = v.len();
    let mut j = i;
    while j < n && '0' <= v[j] && v[j] <= '9'
        invariant
            i <= j <= n,
            n == v@.len(),
            spec_digit_end(v@, j as nat) == spec_digit_end(v@, i as nat),
        decreases n - j,
    {
        j = j + 1;
    }
    j
}

/// The first position at or after `i` in `v` holding a non-identifier
/// character.
fn ident_end(v: &Vec<char>, i: usize) -> (r: usize)
    requires
        i <= v@.len(),
    ensures
        r as nat == spec_ident_end(v@, i as nat),
        i <= r <= v@.len(),
{
    let n = v.len();
    let mut j = i;
    while j < n && (('A' <= v[j] && v[j] <= 'Z') || ('a' <= v[j] && v[j] <= 'z') || ('0' <= v[j]
        && v[j] <= '9') || v[j] == '_')
        invariant
            i <= j <= n,
            n == v@.len(),
            spec_ident_end(v@, j as nat) == spec_ident_end(v@, i as nat),
        decreases n - j,
    {
        j = j + 1;
    }
    j
}

/// Skipping whitespace twice is the same as skipping it once.
pub proof fn lemma_skip_ws_idem(s: Seq<char>, i: nat)
    requires
        i <= s.len(),
    ensures
        spec_skip_ws(s, spec_skip_ws(s, i)) == spec_skip_ws(s, i),
    decreases s.len() - i,
{
    if i < s.len() && spec_is_skippable_ws(s[i as int]) {
        lemma_skip_ws_idem(s, i + 1);
    }
}

impl Lexer {
    /// Scans digit-leading input: a `DDDD-DD-DD` date, else a decimal
    /// number, else an error at the start of the literal.
    #[verifier::loop_isolation(false)]
    fn scan_number_or_date(&mut self) -> (r: Result<Token, LexError>)
        requires
            old(self).position < old(self).input@.len(),
        ensures
            final(self).input == old(self).input,
            final(self).position <= final(self).input@.len(),
            final(self).current_line >= old(self).current_line,
            match r {
                Ok(t) => spec_scan_number_or_date(old(self).input@, old(self).position as nat)
                    matches Ok((tv, k)) && tv == t@ && k == final(self).position as nat,
                Err(e) => spec_scan_number_or_date(old(self).input@, old(self).position as nat)
                    matches Err(p) && e.position == p,
            },
    {
        let ghost s = old(self).input@;
        let i = self.position;
        let n = self.input.len();
        let d1 = digit_end(&self.input, i);
        proof {
            lemma_digit_end_bounds(s, i as nat);
        }
        if d1 - i == 4 && d1 < n && self.input[d1] == '-' {
            let mend = digit_end(&self.input, d1 + 1);
            proof {
                lemma_digit_end_bounds(s, (d1 + 1) as nat);
            }
            if mend - (d1 + 1) == 2 && mend < n && self.input[mend] == '-' {
                let dend = digit_end(&self.input, mend + 1);
                if dend - (mend + 1) == 2 {
                    let text = chars_to_string_range(&self.input, i, dend);
                    self.advance_to(dend);
                    return Ok(Token::Date(text));
                }
            }
            return Err(
                LexError { message: "Invalid number or date".to_owned(), position: i },
            );
        }
        // Decimal number: integer digits, then an optional fraction.
        let fend = if d1 < n && self.input[d1] == '.' {
            let f = digit_end(&self.input, d1 + 1);
            proof {
                lemma_digit_end_bounds(s, (d1 + 1) as nat);
            }
            f
        } else {
            d1
        };
        let ghost intd = s.subrange(i as int, d1 as int);
        let ghost fracd = if fend == d1 {
            Seq::<char>::empty()
        } else {
            s.subrange(d1 + 1 as int, fend as int)
        };
        let ghost ds = intd + fracd;
        let mut m: u128 = 0;
        let mut k = i;
        while k < d1
            invariant
                i <= k <= d1,
                m as nat == spec_digits_val(s.subrange(i as int, k as int)),
            decreases d1 - k,
        {
            let c = self.input[k];
            let d = (c as u32) - 48;
            let ghost prefix = s.subrange(i as int, k as int);
            let ghost prefix2 = s.subrange(i as int, k as int + 1);
            proof {
                assert(spec_is_digit(s[k as int]));
                assert(prefix2.drop_last() =~= prefix);
                assert(spec_digits_val(prefix2) == spec_digits_val(prefix) * 10 + spec_digit_val(
                    s[k as int],
                ));
                assert(prefix2 =~= ds.subrange(0, k - i + 1));
            }
            let m10 = match m.checked_mul(10) {
                Some(x) => x,
                None => {
                    proof {
                        lemma_digits_val_prefix(ds, k - i + 1);
                    }
                    return Err(
                        LexError { message: "Invalid number".to_owned(), position: i },
                    );
                },
            };
            m = match m10.checked_add(d as u128) {
                Some(x) => x,
                None => {
                    proof {
                        lemma_digits_val_prefix(ds, k - i + 1);
                    }
                    return Err(
                        LexError { message: "Invalid number".to_owned(), position: i },
                    );
                },
            };
            k = k + 1;
        }
        if fend > d1 {
            k = d1 + 1;
            proof {
                assert(intd + s.subrange(d1 + 1 as int, k as int) =~= intd);
            }
            while k < fend
                invariant
                    d1 + 1 <= k <= fend,
                    m as nat == spec_digits_val(intd + s.subrange(d1 + 1 as int, k as int)),
                decreases fend - k,
            {
                let c = self.input[k];
                let d = (c as u32) - 48;
                let ghost prefix = intd + s.subrange(d1 + 1 as int, k as int);
                let ghost prefix2 = intd + s.subrange(d1 + 1 as int, k as int + 1);
                proof {
                    assert(spec_is_digit(s[k as int]));
                    assert(prefix2.drop_last() =~= prefix);
                    assert(prefix2.last() == s[k as int]);
                    assert(spec_digits_val(prefix2) == spec_digits_val(prefix) * 10
                        + spec_digit_val(s[k as int]));
                    assert(prefix2 =~= ds.subrange(0, prefix2.len() as int));
                }
                let m10 = match m.checked_mul(10) {
                    Some(x) => x,
                    None => {
                        proof {
                            lemma_digits_val_prefix(ds, prefix2.len() as int);
                        }
                        return Err(
                            LexError { message: "Invalid number".to_owned(), position: i },
                        );
                    },
                };
                m = match m10.checked_add(d as u128) {
                    Some(x) => x,
                    None => {
                        proof {
                            lemma_digits_val_prefix(ds, prefix2.len() as int);
                        }
                        return Err(
                            LexError { message: "Invalid number".to_owned(), position: i },
                        );
                    },
                };
                k = k + 1;
            }
        }
        proof {
            if fend == d1 {
                assert(ds =~= s.subrange(i as int, d1 as int));
            } else {
                assert(ds =~= intd + s.subrange(d1 + 1 as int, fend as int));
            }
        }
        let frac_len: usize = if fend > d1 {
            fend - (d1 + 1)
        } else {
            0
        };
        if frac_len > u32::MAX as usize {
            return Err(LexError { message: "Invalid number".to_owned(), position: i });
        }
        self.advance_to(fend);
        Ok(Token::Number(Decimal { mantissa: m, scale: frac_len as u32 }))
    }

    /// Scans identifier-leading input: a symbol, a keyword, or a plain
    /// identifier.
    fn scan_identifier_or_keyword(&mut self) -> (r: Result<Token, LexError>)
        requires
            old(self).position < old(self).input@.len(),
        ensures
            final(self).input == old(self).input,
            final(self).position <= final(self).input@.len(),
            final(self).current_line >= old(self).current_line,
            match r {
                Ok(t) => spec_scan_ident(old(self).input@, old(self).position as nat)
                    matches Ok((tv, k)) && tv == t@ && k == final(self).position as nat,
                Err(e) => spec_scan_ident(old(self).input@, old(self).position as nat)
                    matches Err(p) && e.position == p,
            },
    {
        let ghost s = old(self).input@;
        let i = self.position;
        let n = self.input.len();
        let e = ident_end(&self.input, i);
        if e < n && self.input[e] == ':' {
            let nend = ident_end(&self.input, e + 1);
            if nend > e + 1 {
                let ns = chars_to_string_range(&self.input, i, e);
                let name = chars_to_string_range(&self.input, e + 1, nend);
                self.advance_to(nend);
                Ok(Token::Symbol(ns, name))
            } else {
                self.advance_to(e + 1);
                Err(
                    LexError {
                        message: "Expected identifier after ':'".to_owned(),
                        position: self.position,
                    },
                )
            }
        } else {
            let word = chars_to_string_range(&self.input, i, e);
            self.advance_to(e);
            match Token::from_keyword(word.as_str()) {
                Some(t) => Ok(t),
                None => Ok(Token::Identifier(word)),
            }
        }
    }

    /// Scans one token at the current position (which must not be the end
    /// of input).
    fn scan_token(&mut self) -> (r: Result<Token, LexError>)
        requires
            old(self).position < old(self).input@.len(),
        ensures
            final(self).input == old(self).input,
            final(self).position <= final(self).input@.len(),
            final(self).current_line >= old(self).current_line,
            match r {
                Ok(t) => spec_scan_token(old(self).input@, old(self).position as nat)
                    matches Ok((tv, k)) && tv == t@ && k == final(self).position as nat,
                Err(e) => spec_scan_token(old(self).input@, old(self).position as nat)
                    matches Err(p) && e.position == p,
            },
    {
        let c = self.peek();
        if c == '\n' {
            self.advance();
            return Ok(Token::Newline);
        }
        if c == '+' {
            self.advance();
            return Ok(Token::Plus);
        }
        if c == '-' {
            self.advance();
            return Ok(Token::Minus);
        }
        if c == '@' {
            self.advance();
            return Ok(Token::At);
        }
        if c == ':' {
            self.advance();
            return Ok(Token::Colon);
        }
        if c == ',' {
            self.advance();
            return Ok(Token::Comma);
        }
        if c == '(' {
            self.advance();
            return Ok(Token::LeftParen);
        }
        if c == ')' {
            self.advance();
            return Ok(Token::RightParen);
        }
        if c == '{' {
            self.advance();
            return Ok(Token::LeftBrace);
        }
        if c == '}' {
            self.advance();
            return Ok(Token::RightBrace);
        }
        if c == '"' {
            self.advance();
            return match self.scan_string() {
                Ok(t) => Ok(t),
                Err(e) => Err(e),
            };
        }
        if c == '#' {
            self.advance();
            return match self.scan_comment() {
                Ok(t) => Ok(t),
                Err(e) => Err(e),
            };
        }
        if '0' <= c && c <= '9' {
            return self.scan_number_or_date();
        }
        if ('A' <= c && c <= 'Z') || ('a' <= c && c <= 'z') || c == '_' {
            return self.scan_identifier_or_keyword();
        }
        self.advance();
        let mut msg = "Unexpected character: '".to_owned();
        push_char(&mut msg, c);
        msg.append("'");
        Err(LexError { message: msg, position: self.position })
    }

    /// The whole input as a token sequence ending in `Eof` (line breaks
    /// are recognized but discarded), or the first lexical error.
    #[verifier::loop_isolation(false)]
    pub fn tokenize(&mut self) -> (r: Result<Vec<Token>, LexError>)
        requires
            old(self).position <= old(self).input@.len(),
        ensures
            final(self).input == old(self).input,
            match r {
                Ok(tokens) => spec_tokenize(old(self).input@, old(self).position as nat)
                    matches Ok(ts) && tokens@.map_values(|t: Token| t@) == ts,
                Err(e) => spec_tokenize(old(self).input@, old(self).position as nat)
                    matches Err(p) && e.position == p,
            },
    {
        let ghost s = old(self).input@;
        let ghost pos0 = old(self).position as nat;
        let mut tokens: Vec<Token> = Vec::new();
        loop
            invariant
                self.input == old(self).input,
                self.position <= s.len(),
                match spec_tokenize(s, self.position as nat) {
                    Ok(rest) => spec_tokenize(s, pos0) matches Ok(all) && all == tokens@.map_values(
                        |t: Token| t@,
                    ) + rest,
                    Err(p) => spec_tokenize(s, pos0) matches Err(p2) && p2 == p,
                },
            decreases s.len() - self.position,
        {
            let ghost pre = self.position as nat;
            self.skip_whitespace();
            proof {
                lemma_skip_ws_bounds(s, pre);
                lemma_skip_ws_idem(s, pre);
                if (self.position as nat) < s.len() {
                    lemma_scan_token_bounds(s, self.position as nat);
                }
                assert(spec_tokenize(s, pre) == spec_tokenize(s, self.position as nat));
            }
            if self.is_at_end() {
                proof {
                    assert(spec_tokenize(s, self.position as nat) == Ok::<Seq<TokenV>, nat>(
                        seq![TokenV::Eof],
                    ));
                }
                let ghost tokens_fin = tokens@;
                tokens.push(Token::Eof);
                proof {
                    assert(tokens@.map_values(|t: Token| t@) =~= tokens_fin.map_values(
                        |t: Token| t@,
                    ).push(TokenV::Eof));
                    match spec_tokenize(s, pos0) {
                        Ok(all) => {
                            assert(tokens_fin.map_values(|t: Token| t@) + seq![TokenV::Eof]
                                =~= tokens_fin.map_values(|t: Token| t@).push(TokenV::Eof));
                            assert(tokens@.map_values(|t: Token| t@) == all);
                        },
                        Err(_) => {},
                    }
                }
                return Ok(tokens);
            }
            let ghost j = self.position as nat;
            let ghost tokens_pre = tokens@;
            let t = match self.scan_token() {
                Err(e) => {
                    return Err(e);
                },
                Ok(t) => t,
            };
            proof {
                lemma_scan_token_bounds(s, j);
            }
            if !matches!(t, Token::Newline) {
                tokens.push(t);
                proof {
                    assert(tokens@.map_values(|t: Token| t@) =~= tokens_pre.map_values(
                        |t: Token| t@,
                    ).push(t@));
                    match spec_tokenize(s, self.position as nat) {
                        Ok(rest) => {
                            assert(tokens_pre.map_values(|t: Token| t@) + (seq![t@] + rest)
                                =~= tokens@.map_values(|t: Token| t@) + rest);
                        },
                        Err(_) => {},
                    }
                }
            }
        }
    }
}

} // verus!
