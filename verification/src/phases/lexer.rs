//! Lexical analysis: turns source text into tokens with their positions.
use vstd::prelude::*;
use crate::token::{Token, TokenV, SpannedToken};
use crate::text::{
    alphabetic, alphanumeric, ascii_letter, char_is_digit, char_is_hex_digit, digits_value, hex_digit_value,
    is_alphabetic, is_alphanumeric, is_digit, is_hex_digit, push_str,
};
use vstd::string::StringExecFns;
use vstd::std_specs::iter::IteratorSpec;

verus! {

/// Lexer structure for tokenization
pub struct Lexer {
    input: Vec<char>,
    pos: usize,
    line: usize,
    col: usize,
}

/// The line of position `pos`: one more than the number of line breaks before it.
pub open spec fn line_at(input: Seq<char>, pos: nat) -> nat
    decreases pos,
{
    if pos == 0 || pos > input.len() {
        1
    } else {
        line_at(input, (pos - 1) as nat) + if input[pos - 1] == '\n' { 1nat } else { 0nat }
    }
}

/// The column of position `pos`: one more than the number of characters
/// between the last line break before it and it.
pub open spec fn col_at(input: Seq<char>, pos: nat) -> nat
    decreases pos,
{
    if pos == 0 || pos > input.len() {
        1
    } else if input[pos - 1] == '\n' {
        1
    } else {
        col_at(input, (pos - 1) as nat) + 1
    }
}

pub proof fn lemma_line_col_bound(input: Seq<char>, pos: nat)
    ensures
        line_at(input, pos) <= pos + 1,
        col_at(input, pos) <= pos + 1,
    decreases pos,
{
    if pos > 0 && pos <= input.len() {
        lemma_line_col_bound(input, (pos - 1) as nat);
    }
}

/// The character at `i`, if there is one.
pub open spec fn char_at(input: Seq<char>, i: nat) -> Option<char> {
    if i < input.len() { Some(input[i as int]) } else { None }
}

pub open spec fn is_space(c: char) -> bool {
    c == ' ' || c == '\t' || c == '\n' || c == '\r'
}

/// Characters that may start an identifier: `_` and the alphabetic
/// characters, which among ASCII are the letters.
pub open spec fn ident_start(c: char) -> bool {
    if c <= '\x7f' {
        ascii_letter(c) || c == '_'
    } else {
        alphabetic(c)
    }
}

/// Characters that may continue an identifier: `_` and the alphanumeric
/// characters, which among ASCII are the letters and digits.
pub open spec fn ident_cont(c: char) -> bool {
    if c <= '\x7f' {
        ascii_letter(c) || ('0' <= c && c <= '9') || c == '_'
    } else {
        alphanumeric(c)
    }
}

/// The position of the first character at or after `i` that is not white space.
pub open spec fn skip_space(input: Seq<char>, i: nat) -> nat
    decreases input.len() - i,
{
    if i < input.len() && is_space(input[i as int]) {
        skip_space(input, i + 1)
    } else {
        i
    }
}

/// The end of the run of identifier characters that starts at `i`.
pub open spec fn word_end(input: Seq<char>, i: nat) -> nat
    decreases input.len() - i,
{
    if i < input.len() && ident_cont(input[i as int]) {
        word_end(input, i + 1)
    } else {
        i
    }
}

/// The end of the run of hexadecimal digits that starts at `i`.
pub open spec fn hex_end(input: Seq<char>, i: nat) -> nat
    decreases input.len() - i,
{
    if i < input.len() && is_hex_digit(input[i as int]) {
        hex_end(input, i + 1)
    } else {
        i
    }
}

/// The end of a decimal literal read from `i`, and whether it has a
/// fractional part: digits, and at most one point that a digit follows.
pub open spec fn decimal_end(input: Seq<char>, i: nat, seen_point: bool) -> (nat, bool)
    decreases input.len() - i,
{
    if i < input.len() && is_digit(input[i as int]) {
        decimal_end(input, i + 1, seen_point)
    } else if i < input.len() && input[i as int] == '.' && !seen_point && i + 1 < input.len() && is_digit(
        input[i + 1int],
    ) {
        decimal_end(input, i + 1, true)
    } else {
        (i, seen_point)
    }
}

/// The position of the line break that ends the line of `i`, or the end of input.
pub open spec fn line_end(input: Seq<char>, i: nat) -> nat
    decreases input.len() - i,
{
    if i < input.len() && input[i as int] != '\n' {
        line_end(input, i + 1)
    } else {
        i
    }
}

/// The position just after the `*/` that closes a block comment whose body
/// starts at `i`, if there is one.
pub open spec fn block_end(input: Seq<char>, i: nat) -> Option<nat>
    decreases input.len() - i,
{
    if i >= input.len() {
        None
    } else if input[i as int] == '*' && i + 1 < input.len() && input[i + 1int] == '/' {
        Some(i + 2)
    } else {
        block_end(input, i + 1)
    }
}

/// The keyword a word spells, or an identifier.
pub open spec fn word_token(w: Seq<char>) -> TokenV {
    if w == "let"@ {
        TokenV::KwLet
    } else if w == "fn"@ {
        TokenV::KwFn
    } else if w == "if"@ {
        TokenV::KwIf
    } else if w == "else"@ {
        TokenV::KwElse
    } else if w == "return"@ {
        TokenV::KwReturn
    } else if w == "while"@ {
        TokenV::KwWhile
    } else if w == "true"@ {
        TokenV::KwTrue
    } else if w == "false"@ {
        TokenV::KwFalse
    } else {
        TokenV::Ident(w)
    }
}

/// The number that digits write in a base, when there is at least one digit
/// and the number fits in an `i64`.
pub open spec fn parse_digits(s: Seq<char>, base: int) -> Option<i64> {
    if s.len() == 0 || digits_value(s, base) > i64::MAX {
        None
    } else {
        Some(digits_value(s, base) as i64)
    }
}

/// The numeric literal that starts at `s`, and its end.
pub open spec fn number_at(input: Seq<char>, s: nat) -> (TokenV, nat) {
    if char_at(input, s) == Some('0') && char_at(input, s + 1) == Some('x') {
        let e = hex_end(input, s + 2);
        let hex = input.subrange(s + 2int, e as int);
        match parse_digits(hex, 16) {
            Some(n) => (TokenV::Int(n), e),
            None => (TokenV::Error("invalid hex: 0x"@ + hex), e),
        }
    } else {
        let (e, is_float) = decimal_end(input, s, false);
        let text = input.subrange(s as int, e as int);
        if is_float {
            (TokenV::Float(text), e)
        } else {
            match parse_digits(text, 10) {
                Some(n) => (TokenV::Int(n), e),
                None => (TokenV::Error("invalid int: "@ + text), e),
            }
        }
    }
}

/// What an escape `\c` in a string literal stands for.
pub open spec fn escape_text(c: char) -> Seq<char> {
    if c == 'n' {
        seq!['\n']
    } else if c == 't' {
        seq!['\t']
    } else if c == 'r' {
        seq!['\r']
    } else if c == '"' {
        seq!['"']
    } else if c == '\\' {
        seq!['\\']
    } else {
        seq!['\\', c]
    }
}

/// The rest of a string literal from `i`, `acc` being what was read of it
/// so far: the token and its end.
pub open spec fn string_from(input: Seq<char>, i: nat, acc: Seq<char>) -> (TokenV, nat)
    decreases input.len() - i,
{
    if i >= input.len() || input[i as int] == '\n' {
        (TokenV::Error("unterminated string: \""@ + acc + "\""@), i)
    } else if input[i as int] == '"' {
        (TokenV::StringLit(acc), i + 1)
    } else if input[i as int] == '\\' {
        if i + 1 >= input.len() {
            (TokenV::Error("unterminated string"@), i + 1)
        } else {
            string_from(input, i + 2, acc + escape_text(input[i + 1int]))
        }
    } else {
        string_from(input, i + 1, acc.push(input[i as int]))
    }
}

/// A token of one character, or of two when the second is `second`.
pub open spec fn one_or_two(input: Seq<char>, s: nat, second: char, two: TokenV, one: TokenV) -> (TokenV, nat) {
    if char_at(input, s + 1) == Some(second) {
        (two, s + 2)
    } else {
        (one, s + 1)
    }
}

/// The token that starts at `s` (a position before the end that does not
/// start a comment), and its end.
pub open spec fn token_at(input: Seq<char>, s: nat) -> (TokenV, nat) {
    let c = input[s as int];
    if c == '+' {
        (TokenV::Plus, s + 1)
    } else if c == '-' {
        one_or_two(input, s, '>', TokenV::Arrow, TokenV::Minus)
    } else if c == '*' {
        (TokenV::Star, s + 1)
    } else if c == '/' {
        (TokenV::Slash, s + 1)
    } else if c == '%' {
        (TokenV::Percent, s + 1)
    } else if c == '=' {
        one_or_two(input, s, '=', TokenV::Eq, TokenV::Assign)
    } else if c == '!' {
        one_or_two(input, s, '=', TokenV::NotEq, TokenV::Not)
    } else if c == '<' {
        one_or_two(input, s, '=', TokenV::Le, TokenV::Lt)
    } else if c == '>' {
        one_or_two(input, s, '=', TokenV::Ge, TokenV::Gt)
    } else if c == '&' {
        one_or_two(input, s, '&', TokenV::And, TokenV::Error("unexpected '&'"@))
    } else if c == '|' {
        one_or_two(input, s, '|', TokenV::Or, TokenV::Error("unexpected '|'"@))
    } else if c == '(' {
        (TokenV::LParen, s + 1)
    } else if c == ')' {
        (TokenV::RParen, s + 1)
    } else if c == '{' {
        (TokenV::LBrace, s + 1)
    } else if c == '}' {
        (TokenV::RBrace, s + 1)
    } else if c == '[' {
        (TokenV::LBracket, s + 1)
    } else if c == ']' {
        (TokenV::RBracket, s + 1)
    } else if c == ';' {
        (TokenV::Semicolon, s + 1)
    } else if c == ':' {
        (TokenV::Colon, s + 1)
    } else if c == ',' {
        (TokenV::Comma, s + 1)
    } else if c == '.' {
        (TokenV::Dot, s + 1)
    } else if is_digit(c) {
        number_at(input, s)
    } else if ident_start(c) {
        let e = word_end(input, s + 1);
        (word_token(input.subrange(s as int, e as int)), e)
    } else if c == '"' {
        string_from(input, s + 1, Seq::empty())
    } else {
        (TokenV::Error("invalid character: '"@ + seq![c] + "'"@), s + 1)
    }
}

pub proof fn lemma_skip_space_ge(input: Seq<char>, i: nat)
    ensures
        i <= skip_space(input, i),
        skip_space(input, i) >= input.len() || !is_space(input[skip_space(input, i) as int]),
        i <= input.len() ==> skip_space(input, i) <= input.len(),
    decreases input.len() - i,
{
    if i < input.len() && is_space(input[i as int]) {
        lemma_skip_space_ge(input, i + 1);
    }
}

pub proof fn lemma_line_end_ge(input: Seq<char>, i: nat)
    ensures
        i <= line_end(input, i),
        i <= input.len() ==> line_end(input, i) <= input.len(),
    decreases input.len() - i,
{
    if i < input.len() && input[i as int] != '\n' {
        lemma_line_end_ge(input, i + 1);
    }
}

pub proof fn lemma_block_end_gt(input: Seq<char>, i: nat)
    ensures
        block_end(input, i) matches Some(e) ==> i < e <= input.len(),
    decreases input.len() - i,
{
    if i < input.len() && !(input[i as int] == '*' && i + 1 < input.len() && input[i + 1int] == '/') {
        lemma_block_end_gt(input, i + 1);
    }
}

/// The next token from position `pos`: the token, the position where it (or
/// a comment before it) starts, and the position after it. White space is
/// skipped; a comment is skipped too, the token after it being reported at
/// the comment's position. At the end of input the token is `Eof`.
pub open spec fn next_token_at(input: Seq<char>, pos: nat) -> (TokenV, nat, nat)
    decreases input.len() - pos,
{
    let s = skip_space(input, pos);
    if s >= input.len() {
        (TokenV::Eof, s, s)
    } else if input[s as int] == '/' && char_at(input, s + 1) == Some('/') {
        let e = line_end(input, s + 2);
        proof {
            lemma_skip_space_ge(input, pos);
            lemma_line_end_ge(input, s + 2);
        }
        let r = next_token_at(input, e);
        (r.0, s, r.2)
    } else if input[s as int] == '/' && char_at(input, s + 1) == Some('*') {
        match block_end(input, s + 2) {
            None => (TokenV::Error("unterminated block comment"@), s, input.len()),
            Some(e) => {
                proof {
                    lemma_skip_space_ge(input, pos);
                    lemma_block_end_gt(input, s + 2);
                }
                let r = next_token_at(input, e);
                (r.0, s, r.2)
            },
        }
    } else {
        let (t, e) = token_at(input, s);
        (t, s, e)
    }
}

/// A token with the line and column where it starts.
pub struct SpannedV {
    pub token: TokenV,
    pub line: nat,
    pub col: nat,
}

impl View for SpannedToken {
    type V = SpannedV;

    open spec fn view(&self) -> SpannedV {
        SpannedV { token: self.token@, line: self.line as nat, col: self.col as nat }
    }
}

/// A token of the input at `pos`, with its line and column.
pub open spec fn spanned_at(input: Seq<char>, pos: nat) -> SpannedV {
    let (t, s, _) = next_token_at(input, pos);
    SpannedV { token: t, line: line_at(input, s), col: col_at(input, s) }
}

/// A non-`Eof` token ends after the position it was read from.
pub proof fn lemma_next_token_advances(input: Seq<char>, pos: nat)
    requires
        pos <= input.len(),
    ensures
        pos <= next_token_at(input, pos).1 <= next_token_at(input, pos).2 <= input.len(),
        !(next_token_at(input, pos).0 is Eof) ==> pos < next_token_at(input, pos).2,
    decreases input.len() - pos,
{
    let s = skip_space(input, pos);
    lemma_skip_space_ge(input, pos);
    if s >= input.len() {
    } else if input[s as int] == '/' && char_at(input, s + 1) == Some('/') {
        let e = line_end(input, s + 2);
        lemma_line_end_ge(input, s + 2);
        lemma_next_token_advances(input, e);
    } else if input[s as int] == '/' && char_at(input, s + 1) == Some('*') {
        lemma_block_end_gt(input, s + 2);
        match block_end(input, s + 2) {
            None => {},
            Some(e) => {
                lemma_next_token_advances(input, e);
            },
        }
    } else {
        lemma_token_at_bounds(input, s);
    }
}

pub proof fn lemma_word_end(input: Seq<char>, i: nat)
    ensures
        i <= word_end(input, i),
        i <= input.len() ==> word_end(input, i) <= input.len(),
        i < input.len() && ident_cont(input[i as int]) ==> i < word_end(input, i),
    decreases input.len() - i,
{
    if i < input.len() && ident_cont(input[i as int]) {
        lemma_word_end(input, i + 1);
    }
}

pub proof fn lemma_hex_end(input: Seq<char>, i: nat)
    ensures
        i <= hex_end(input, i),
        i <= input.len() ==> hex_end(input, i) <= input.len(),
    decreases input.len() - i,
{
    if i < input.len() && is_hex_digit(input[i as int]) {
        lemma_hex_end(input, i + 1);
    }
}

pub proof fn lemma_decimal_end(input: Seq<char>, i: nat, seen: bool)
    ensures
        i <= decimal_end(input, i, seen).0,
        i <= input.len() ==> decimal_end(input, i, seen).0 <= input.len(),
        i < input.len() && is_digit(input[i as int]) ==> i < decimal_end(input, i, seen).0,
    decreases input.len() - i,
{
    if i < input.len() && is_digit(input[i as int]) {
        lemma_decimal_end(input, i + 1, seen);
    } else if i < input.len() && input[i as int] == '.' && !seen && i + 1 < input.len() && is_digit(
        input[i + 1int],
    ) {
        lemma_decimal_end(input, i + 1, true);
    }
}

pub proof fn lemma_string_from(input: Seq<char>, i: nat, acc: Seq<char>)
    requires
        i <= input.len(),
    ensures
        i <= string_from(input, i, acc).1 <= input.len(),
    decreases input.len() - i,
{
    if i >= input.len() || input[i as int] == '\n' {
    } else if input[i as int] == '"' {
    } else if input[i as int] == '\\' {
        if i + 1 < input.len() {
            lemma_string_from(input, i + 2, acc + escape_text(input[i + 1int]));
        }
    } else {
        lemma_string_from(input, i + 1, acc.push(input[i as int]));
    }
}

pub proof fn lemma_token_at_bounds(input: Seq<char>, s: nat)
    requires
        s < input.len(),
    ensures
        s < token_at(input, s).1 <= input.len(),
{
    lemma_word_end(input, s + 1);
    lemma_hex_end(input, s + 2);
    lemma_decimal_end(input, s, false);
    lemma_string_from(input, s + 1, Seq::empty());
}

/// The tokens of the input from `pos` on, up to and including the first `Eof`.
pub open spec fn tokens_from(input: Seq<char>, pos: nat) -> Seq<SpannedV>
    decreases input.len() - pos,
{
    let (t, _, e) = next_token_at(input, pos);
    if t is Eof || pos > input.len() {
        seq![spanned_at(input, pos)]
    } else {
        proof {
            lemma_next_token_advances(input, pos);
        }
        seq![spanned_at(input, pos)] + tokens_from(input, e)
    }
}

/// There is at most one token per character, and one more for the end.
pub proof fn lemma_tokens_from_len(input: Seq<char>, pos: nat)
    requires
        pos <= input.len(),
    ensures
        1 <= tokens_from(input, pos).len() <= input.len() - pos + 1,
    decreases input.len() - pos,
{
    let (t, _, e) = next_token_at(input, pos);
    lemma_next_token_advances(input, pos);
    if !(t is Eof) {
        lemma_tokens_from_len(input, e);
    }
}

/// The tokens of an input end with `Eof`, and only the last one is `Eof`.
pub proof fn lemma_tokens_end_with_eof(input: Seq<char>, pos: nat)
    requires
        pos <= input.len(),
    ensures
        tokens_from(input, pos).last().token is Eof,
        forall|i: int| 0 <= i < tokens_from(input, pos).len() - 1 ==> !(#[trigger] tokens_from(input, pos)[i].token is Eof),
    decreases input.len() - pos,
{
    let (t, _, e) = next_token_at(input, pos);
    lemma_next_token_advances(input, pos);
    if !(t is Eof) {
        lemma_tokens_end_with_eof(input, e);
        let rest = tokens_from(input, e);
        assert forall|i: int| 0 <= i < tokens_from(input, pos).len() - 1 implies !(#[trigger] tokens_from(input, pos)[i].token is Eof) by {
            if i > 0 {
                assert(tokens_from(input, pos)[i] == rest[i - 1]);
            }
        }
    }
}

/// Spaces, tabs, line feeds and carriage returns are white space: reading
/// from one of them reads the same token, from the same place, as reading
/// from just after it, and the tokens from there on are the same.
pub proof fn lemma_white_space_skipped(input: Seq<char>, pos: nat)
    requires
        pos < input.len(),
        input[pos as int] == ' ' || input[pos as int] == '\t' || input[pos as int] == '\n'
            || input[pos as int] == '\r',
    ensures
        next_token_at(input, pos) == next_token_at(input, pos + 1),
        spanned_at(input, pos) == spanned_at(input, pos + 1),
        tokens_from(input, pos) == tokens_from(input, pos + 1),
{
    assert(skip_space(input, pos) == skip_space(input, pos + 1));
}

/// The token an operator or punctuation character at `pos` starts: `+ * % ( ) { } [ ] ; : , .` are
/// tokens of one character; `-` is `->` before `>`; `=`, `!`, `<` and `>`
/// take a following `=` (`==`, `!=`, `<=`, `>=`); `&&` and `||` need both
/// characters; `/` not followed by `/` or `*` is division.
pub proof fn lemma_operator_tokens(input: Seq<char>, pos: nat)
    requires
        pos < input.len(),
    ensures
        ({
            let c = input[pos as int];
            let next = char_at(input, pos + 1);
            let t = next_token_at(input, pos).0;
            &&& c == '+' ==> t == TokenV::Plus
            &&& c == '*' ==> t == TokenV::Star
            &&& c == '%' ==> t == TokenV::Percent
            &&& c == '(' ==> t == TokenV::LParen
            &&& c == ')' ==> t == TokenV::RParen
            &&& c == '{' ==> t == TokenV::LBrace
            &&& c == '}' ==> t == TokenV::RBrace
            &&& c == '[' ==> t == TokenV::LBracket
            &&& c == ']' ==> t == TokenV::RBracket
            &&& c == ';' ==> t == TokenV::Semicolon
            &&& c == ':' ==> t == TokenV::Colon
            &&& c == ',' ==> t == TokenV::Comma
            &&& c == '.' ==> t == TokenV::Dot
            &&& c == '-' ==> t == (if next == Some('>') { TokenV::Arrow } else { TokenV::Minus })
            &&& c == '=' ==> t == (if next == Some('=') { TokenV::Eq } else { TokenV::Assign })
            &&& c == '!' ==> t == (if next == Some('=') { TokenV::NotEq } else { TokenV::Not })
            &&& c == '<' ==> t == (if next == Some('=') { TokenV::Le } else { TokenV::Lt })
            &&& c == '>' ==> t == (if next == Some('=') { TokenV::Ge } else { TokenV::Gt })
            &&& c == '&' && next == Some('&') ==> t == TokenV::And
            &&& c == '|' && next == Some('|') ==> t == TokenV::Or
            &&& c == '/' && next != Some('/') && next != Some('*') ==> t == TokenV::Slash
            &&& c == '+' || c == '*' || c == '%' || c == '(' || c == ')' || c == '{' || c == '}' || c == '['
                || c == ']' || c == ';' || c == ':' || c == ',' || c == '.' ==> next_token_at(input, pos).2 == pos + 1
            &&& (c == '=' || c == '!' || c == '<' || c == '>') && next == Some('=') ==> next_token_at(input, pos).2
                == pos + 2
        }),
{
}

proof fn lemma_word_end_at(input: Seq<char>, i: nat, e: nat)
    requires
        i <= e <= input.len(),
        forall|k: int| i <= k < e ==> ident_cont(#[trigger] input[k]),
        e == input.len() || !ident_cont(input[e as int]),
    ensures
        word_end(input, i) == e,
    decreases e - i,
{
    if i < e {
        lemma_word_end_at(input, i + 1, e);
    }
}

/// A word of ASCII letters at `pos`, followed by the end of the input or by
/// white space, is read whole as one token: the keyword it spells, or else
/// an identifier.
proof fn lemma_word_token_at(input: Seq<char>, pos: nat, w: Seq<char>)
    requires
        w.len() >= 1,
        pos + w.len() <= input.len(),
        input.subrange(pos as int, (pos + w.len()) as int) == w,
        forall|k: int| 0 <= k < w.len() ==> ascii_letter(#[trigger] w[k]),
        pos + w.len() == input.len() || input[(pos + w.len()) as int] == ' ' || input[(pos + w.len()) as int] == '\n',
    ensures
        next_token_at(input, pos).0 == word_token(w),
        next_token_at(input, pos).2 == pos + w.len(),
{
    let e = pos + w.len();
    assert forall|k: int| pos <= k < e implies ident_cont(#[trigger] input[k]) by {
        assert(input[k] == w[k - pos]);
    }
    assert(input[pos as int] == w[0]);
    lemma_word_end_at(input, pos + 1, e);
}

/// Keywords are read as keywords when they stand alone (followed by the
/// end of the input, a space or a line break): `let`, `fn`, `if`, `else`,
/// `return`, `while`, `true`, `false`; any other word of letters is an
/// identifier with that name.
pub proof fn lemma_keywords(input: Seq<char>, pos: nat, w: Seq<char>)
    requires
        w.len() >= 1,
        pos + w.len() <= input.len(),
        input.subrange(pos as int, (pos + w.len()) as int) == w,
        forall|k: int| 0 <= k < w.len() ==> ascii_letter(#[trigger] w[k]),
        pos + w.len() == input.len() || input[(pos + w.len()) as int] == ' ' || input[(pos + w.len()) as int] == '\n',
    ensures
        w == "let"@ ==> next_token_at(input, pos).0 == TokenV::KwLet,
        w == "fn"@ ==> next_token_at(input, pos).0 == TokenV::KwFn,
        w == "if"@ ==> next_token_at(input, pos).0 == TokenV::KwIf,
        w == "else"@ ==> next_token_at(input, pos).0 == TokenV::KwElse,
        w == "return"@ ==> next_token_at(input, pos).0 == TokenV::KwReturn,
        w == "while"@ ==> next_token_at(input, pos).0 == TokenV::KwWhile,
        w == "true"@ ==> next_token_at(input, pos).0 == TokenV::KwTrue,
        w == "false"@ ==> next_token_at(input, pos).0 == TokenV::KwFalse,
        w != "let"@ && w != "fn"@ && w != "if"@ && w != "else"@ && w != "return"@ && w != "while"@ && w
            != "true"@ && w != "false"@ ==> next_token_at(input, pos).0 == TokenV::Ident(w),
        next_token_at(input, pos).2 == pos + w.len(),
{
    reveal_strlit("let");
    reveal_strlit("fn");
    reveal_strlit("if");
    reveal_strlit("else");
    reveal_strlit("return");
    reveal_strlit("while");
    reveal_strlit("true");
    reveal_strlit("false");
    assert("if"@[0] != "fn"@[0]);
    assert("true"@[0] != "else"@[0]);
    assert("false"@[0] != "while"@[0]);
    lemma_word_token_at(input, pos, w);
}

proof fn lemma_decimal_end_at(input: Seq<char>, i: nat, e: nat)
    requires
        i <= e < input.len(),
        forall|k: int| i <= k < e ==> '0' <= #[trigger] input[k] <= '9',
        input[e as int] == ' ',
    ensures
        decimal_end(input, i, false) == (e, false),
    decreases e - i,
{
    if i < e {
        lemma_decimal_end_at(input, i + 1, e);
    }
}

proof fn lemma_decimal_value_nonneg(ds: Seq<char>)
    requires
        forall|k: int| 0 <= k < ds.len() ==> '0' <= #[trigger] ds[k] <= '9',
    ensures
        digits_value(ds, 10) >= 0,
    decreases ds.len(),
{
    if ds.len() > 0 {
        let p = ds.drop_last();
        assert forall|k: int| 0 <= k < p.len() implies '0' <= #[trigger] p[k] <= '9' by {
            assert(p[k] == ds[k]);
        }
        lemma_decimal_value_nonneg(p);
        assert(ds.last() == ds[ds.len() - 1]);
    }
}

/// The token of a run of decimal digits followed by a space.
proof fn lemma_digits_token(ds: Seq<char>)
    requires
        ds.len() >= 1,
        forall|k: int| 0 <= k < ds.len() ==> '0' <= #[trigger] ds[k] <= '9',
    ensures
        next_token_at(ds.push(' '), 0).0 == (if digits_value(ds, 10) <= i64::MAX {
            TokenV::Int(digits_value(ds, 10) as i64)
        } else {
            TokenV::Error("invalid int: "@ + ds)
        }),
{
    let s = ds.push(' ');
    assert forall|k: int| 0 <= k < ds.len() implies '0' <= #[trigger] s[k] <= '9' by {
        assert(s[k] == ds[k]);
    }
    lemma_decimal_end_at(s, 0, ds.len());
    assert(s.subrange(0, ds.len() as int) =~= ds);
    assert(s[0] == ds[0]);
    if ds.len() >= 2 {
        assert(s[1] == ds[1]);
    }
}

/// Decimal literals: a single digit is the number it writes, and writing
/// one more digit after a literal multiplies its number by ten and adds
/// the digit, until the number no longer fits in 64 bits, where the
/// literal is an error naming its text.
pub proof fn lemma_decimal_literals(ds: Seq<char>, d: char)
    requires
        ds.len() >= 1,
        forall|k: int| 0 <= k < ds.len() ==> '0' <= #[trigger] ds[k] <= '9',
        '0' <= d <= '9',
    ensures
        next_token_at(seq![d, ' '], 0).0 == TokenV::Int(((d as int) - ('0' as int)) as i64),
        next_token_at(ds.push(' '), 0).0 matches TokenV::Int(v) ==> {
            let w = v * 10 + ((d as int) - ('0' as int));
            &&& w <= i64::MAX ==> next_token_at(ds.push(d).push(' '), 0).0 == TokenV::Int(w as i64)
            &&& w > i64::MAX ==> next_token_at(ds.push(d).push(' '), 0).0 == TokenV::Error(
                "invalid int: "@ + ds.push(d),
            )
        },
{
    lemma_digits_token(seq![d]);
    assert(seq![d].push(' ') =~= seq![d, ' ']);
    assert(seq![d].drop_last() =~= Seq::<char>::empty());
    assert(seq![d].last() == d);
    assert(digits_value(Seq::<char>::empty(), 10) == 0);
    assert(digits_value(seq![d], 10) == digits_value(seq![d].drop_last(), 10) * 10 + hex_digit_value(d));
    assert(digits_value(seq![d], 10) == hex_digit_value(d));
    assert(hex_digit_value(d) == (d as int) - ('0' as int));
    lemma_digits_token(ds);
    lemma_decimal_value_nonneg(ds);
    let ds2 = ds.push(d);
    assert forall|k: int| 0 <= k < ds2.len() implies '0' <= #[trigger] ds2[k] <= '9' by {
        if k < ds.len() {
            assert(ds2[k] == ds[k]);
        }
    }
    lemma_digits_token(ds2);
    assert(ds2.drop_last() =~= ds);
    assert(digits_value(ds2, 10) == digits_value(ds, 10) * 10 + hex_digit_value(d));
}

/// The views of a sequence of positioned tokens.
pub open spec fn spanned_view(v: Seq<SpannedToken>) -> Seq<SpannedV> {
    v.map_values(|t: SpannedToken| t@)
}

/// The input of a lexer and its position in it.
pub struct LexV {
    pub input: Seq<char>,
    pub pos: nat,
}

impl View for Lexer {
    type V = LexV;

    closed spec fn view(&self) -> LexV {
        LexV { input: self.input@, pos: self.pos as nat }
    }
}

proof fn lemma_digits_value_mono(s: Seq<char>, base: int, j: int, k: int)
    requires
        0 <= j <= k <= s.len(),
        base >= 1,
        forall|i: int| 0 <= i < s.len() ==> 0 <= #[trigger] hex_digit_value(s[i]),
    ensures
        0 <= digits_value(s.take(j), base) <= digits_value(s.take(k), base),
    decreases k,
{
    if k > 0 {
        assert(s.take(k).drop_last() =~= s.take(k - 1));
        assert(s.take(k).last() == s[k - 1]);
        if j < k {
            lemma_digits_value_mono(s, base, j, k - 1);
        } else {
            lemma_digits_value_mono(s, base, j - 1, k - 1);
        }
        let a = digits_value(s.take(k - 1), base);
        assert(a * base >= a) by (nonlinear_arith)
            requires
                a >= 0,
                base >= 1,
        ;
    } else {
        assert(s.take(0) =~= s.take(j));
    }
}

/// The number that a sequence of digits writes in a base (10 or 16), if there
/// is at least one digit and it fits in an `i64`.
fn parse_number(digits: &Vec<char>, base: i64) -> (r: Option<i64>)
    requires
        base == 10 || base == 16,
        forall|i: int| 0 <= i < digits@.len() ==> is_hex_digit(#[trigger] digits@[i]),
        base == 10 ==> forall|i: int| 0 <= i < digits@.len() ==> is_digit(#[trigger] digits@[i]),
    ensures
        r == parse_digits(digits@, base as int),
{
    if digits.len() == 0 {
        return None;
    }
    let ghost s = digits@;
    assert(forall|i: int| 0 <= i < s.len() ==> 0 <= #[trigger] hex_digit_value(s[i]) < base);
    let mut v: i64 = 0;
    let mut i: usize = 0;
    while i < digits.len()
        invariant
            i <= s.len(),
            s == digits@,
            s.len() > 0,
            base == 10 || base == 16,
            forall|j: int| 0 <= j < s.len() ==> 0 <= #[trigger] hex_digit_value(s[j]) < base,
            forall|j: int| 0 <= j < s.len() ==> is_hex_digit(#[trigger] s[j]),
            v == digits_value(s.take(i as int), base as int),
            0 <= v,
        decreases s.len() - i,
    {
        let c = digits[i];
        assert(is_hex_digit(s[i as int]));
        let d: i64 = if '0' <= c && c <= '9' {
            (c as u32 - '0' as u32) as i64
        } else if 'a' <= c && c <= 'f' {
            (c as u32 - 'a' as u32 + 10) as i64
        } else {
            (c as u32 - 'A' as u32 + 10) as i64
        };
        assert(d == hex_digit_value(c));
        assert(s.take(i + 1).drop_last() =~= s.take(i as int));
        assert(s.take(i + 1).last() == c);
        if v > (i64::MAX - d) / base {
            proof {
                assert(v * base + d > i64::MAX) by (nonlinear_arith)
                    requires
                        v > (i64::MAX - d) as int / base as int,
                        base >= 1,
                        0 <= d < base,
                ;
                lemma_digits_value_mono(s, base as int, i + 1, s.len() as int);
                assert(s.take(s.len() as int) =~= s);
            }
            return None;
        }
        proof {
            assert(v * base + d <= i64::MAX) by (nonlinear_arith)
                requires
                    v <= (i64::MAX - d) as int / base as int,
                    base >= 1,
                    0 <= d < base,
                    v >= 0,
            ;
            assert(v * base + d >= 0) by (nonlinear_arith)
                requires
                    base >= 1,
                    0 <= d,
                    v >= 0,
            ;
        }
        v = v * base + d;
        i = i + 1;
    }
    assert(s.take(s.len() as int) =~= s);
    Some(v)
}

impl Lexer {
    /// The lexer's counters agree with its position, and no counter can
    /// overflow.
    pub closed spec fn wf(&self) -> bool {
        &&& self.input@.len() < usize::MAX
        &&& self.pos <= self.input@.len()
        &&& self.line == line_at(self.input@, self.pos as nat)
        &&& self.col == col_at(self.input@, self.pos as nat)
    }

    /// What a well-formed lexer's view shows: its position is within its
    /// input, whose length fits the counters.
    pub proof fn lemma_wf(&self)
        requires
            self.wf(),
        ensures
            self@.pos <= self@.input.len(),
            self@.input.len() < usize::MAX,
    {
    }

    /// Create a new lexer from source code
    pub fn new(source: &str) -> (r: Self)
        requires
            source@.len() < usize::MAX,
        ensures
            r.wf(),
            r@ == (LexV { input: source@, pos: 0 }),
    {
        broadcast use vstd::string::group_string_axioms;
        let mut input: Vec<char> = Vec::new();
        let mut it = source.chars();
        loop
            invariant
                input@ + it.remaining() == source@,
                it.decrease() is Some,
            ensures
                input@ == source@,
            decreases it.decrease()->0,
        {
            let ghost before = it.remaining();
            match it.next() {
                Some(c) => {
                    input.push(c);
                    assert(input@ + it.remaining() =~= source@);
                },
                None => {
                    assert(input@ =~= source@);
                    break;
                },
            }
        }
        Lexer { input, pos: 0, line: 1, col: 1 }
    }

    /// Get current character without consuming
    fn peek(&self) -> (r: Option<char>)
        ensures
            r == char_at(self.input@, self.pos as nat),
    {
        if self.pos < self.input.len() {
            Some(self.input[self.pos])
        } else {
            None
        }
    }

    /// Get next character (lookahead)
    fn peek_next(&self) -> (r: Option<char>)
        requires
            self.wf(),
        ensures
            r == char_at(self.input@, (self.pos + 1) as nat),
    {
        if self.pos + 1 < self.input.len() {
            Some(self.input[self.pos + 1])
        } else {
            None
        }
    }

    /// Consume current character and advance position
    fn advance(&mut self) -> (r: Option<char>)
        requires
            old(self).wf(),
        ensures
            final(self).wf(),
            r == char_at(old(self).input@, old(self).pos as nat),
            final(self).input@ == old(self).input@,
            final(self).pos == if old(self).pos < old(self).input@.len() { old(self).pos + 1 } else { old(self).pos as int },
    {
        let ch = self.peek();
        match ch {
            Some(c) => {
                proof {
                    lemma_line_col_bound(self.input@, self.pos as nat);
                }
                self.pos = self.pos + 1;
                if c == '\n' {
                    self.line = self.line + 1;
                    self.col = 1;
                } else {
                    self.col = self.col + 1;
                }
            },
            None => {},
        }
        ch
    }

    /// Skip whitespace characters
    fn skip_whitespace(&mut self)
        requires
            old(self).wf(),
        ensures
            final(self).wf(),
            final(self).input@ == old(self).input@,
            final(self).pos == skip_space(old(self).input@, old(self).pos as nat),
    {
        loop
            invariant
                self.wf(),
                self.input@ == old(self).input@,
                skip_space(self.input@, self.pos as nat) == skip_space(old(self).input@, old(self).pos as nat),
            ensures
                self.wf(),
                self.input@ == old(self).input@,
                self.pos == skip_space(old(self).input@, old(self).pos as nat),
            decreases self.input@.len() - self.pos,
        {
            match self.peek() {
                Some(c) => {
                    if c == ' ' || c == '\t' || c == '\n' || c == '\r' {
                        self.advance();
                    } else {
                        break;
                    }
                },
                None => {
                    break;
                },
            }
        }
    }

    /// Check if character is valid identifier start
    fn is_ident_start(c: char) -> (r: bool)
        ensures
            r == ident_start(c),
    {
        is_alphabetic(c) || c == '_'
    }

    /// Check if character is valid identifier continuation
    fn is_ident_cont(c: char) -> (r: bool)
        ensures
            r == ident_cont(c),
            ident_start(c) ==> r,
    {
        is_alphanumeric(c) || c == '_'
    }

    /// Scan an identifier or keyword
    fn scan_ident(&mut self) -> (r: Token)
        requires
            old(self).wf(),
            old(self).pos < old(self).input@.len(),
            ident_start(old(self).input@[old(self).pos as int]),
        ensures
            final(self).wf(),
            final(self).input@ == old(self).input@,
            (r@, final(self).pos as nat) == (
                word_token(old(self).input@.subrange(old(self).pos as int, word_end(old(self).input@, (old(self).pos + 1) as nat) as int)),
                word_end(old(self).input@, (old(self).pos + 1) as nat),
            ),
    {
        let ghost start = self.pos as nat;
        let ghost input = self.input@;
        let mut s = String::new();
        loop
            invariant
                self.wf(),
                self.input@ == input,
                input == old(self).input@,
                start == old(self).pos,
                start < input.len(),
                ident_start(input[start as int]),
                start <= self.pos,
                self.pos == start ==> s@ == Seq::<char>::empty(),
                self.pos > start ==> word_end(input, self.pos as nat) == word_end(input, start + 1),
                s@ == input.subrange(start as int, self.pos as int),
            ensures
                self.wf(),
                self.input@ == input,
                self.pos == word_end(input, start + 1),
                s@ == input.subrange(start as int, self.pos as int),
            decreases input.len() - self.pos,
        {
            match self.peek() {
                Some(c) => {
                    if Self::is_ident_cont(c) {
                        s.push(c);
                        self.advance();
                        assert(s@ =~= input.subrange(start as int, self.pos as int));
                    } else {
                        break;
                    }
                },
                None => {
                    break;
                },
            }
        }
        let ghost w = s@;
        if s == String::from_str("let") {
            Token::KwLet
        } else if s == String::from_str("fn") {
            Token::KwFn
        } else if s == String::from_str("if") {
            Token::KwIf
        } else if s == String::from_str("else") {
            Token::KwElse
        } else if s == String::from_str("return") {
            Token::KwReturn
        } else if s == String::from_str("while") {
            Token::KwWhile
        } else if s == String::from_str("true") {
            Token::KwTrue
        } else if s == String::from_str("false") {
            Token::KwFalse
        } else {
            Token::Ident(s)
        }
    }

    /// Scan a number (integer or float)
    fn scan_number(&mut self) -> (r: Token)
        requires
            old(self).wf(),
            old(self).pos < old(self).input@.len(),
            is_digit(old(self).input@[old(self).pos as int]),
        ensures
            final(self).wf(),
            final(self).input@ == old(self).input@,
            (r@, final(self).pos as nat) == number_at(old(self).input@, old(self).pos as nat),
    {
        let ghost start = self.pos as nat;
        let ghost input = self.input@;
        let mut s = String::new();
        let mut is_float = false;

        // Handle hexadecimal: 0x...
        if self.peek() == Some('0') && self.peek_next() == Some('x') {
            self.advance();
            self.advance();
            let mut hex = String::new();
            let mut digits: Vec<char> = Vec::new();
            loop
                invariant
                    self.wf(),
                    self.input@ == input,
                    input == old(self).input@,
                    start == old(self).pos,
                    start + 2 <= self.pos,
                    hex_end(input, self.pos as nat) == hex_end(input, start + 2),
                    hex@ == input.subrange(start + 2int, self.pos as int),
                    digits@ == hex@,
                    forall|i: int| 0 <= i < digits@.len() ==> is_hex_digit(#[trigger] digits@[i]),
                ensures
                    self.wf(),
                    self.input@ == input,
                    self.pos == hex_end(input, start + 2),
                    hex@ == input.subrange(start + 2int, self.pos as int),
                    digits@ == hex@,
                    forall|i: int| 0 <= i < digits@.len() ==> is_hex_digit(#[trigger] digits@[i]),
                decreases input.len() - self.pos,
            {
                match self.peek() {
                    Some(c) => {
                        if char_is_hex_digit(c) {
                            hex.push(c);
                            digits.push(c);
                            self.advance();
                            assert(hex@ =~= input.subrange(start + 2int, self.pos as int));
                        } else {
                            break;
                        }
                    },
                    None => {
                        break;
                    },
                }
            }
            return match parse_number(&digits, 16) {
                Some(n) => Token::Int(n),
                None => {
                    let mut m = String::from_str("invalid hex: 0x");
                    push_str(&mut m, hex.as_str());
                    Token::Error(m)
                },
            };
        }
        // Decimal/Float
        let mut digits: Vec<char> = Vec::new();
        loop
            invariant
                self.wf(),
                self.input@ == input,
                input == old(self).input@,
                start == old(self).pos,
                start <= self.pos,
                decimal_end(input, self.pos as nat, is_float) == decimal_end(input, start, false),
                s@ == input.subrange(start as int, self.pos as int),
                digits@ == s@,
                !is_float ==> forall|i: int| 0 <= i < digits@.len() ==> is_digit(#[trigger] digits@[i]),
            ensures
                self.wf(),
                self.input@ == input,
                (self.pos as nat, is_float) == decimal_end(input, start, false),
                s@ == input.subrange(start as int, self.pos as int),
                digits@ == s@,
                !is_float ==> forall|i: int| 0 <= i < digits@.len() ==> is_digit(#[trigger] digits@[i]),
            decreases input.len() - self.pos,
        {
            match self.peek() {
                Some(c) => {
                    if char_is_digit(c) {
                        s.push(c);
                        digits.push(c);
                        self.advance();
                        assert(s@ =~= input.subrange(start as int, self.pos as int));
                    } else if c == '.' && !is_float && match self.peek_next() {
                        Some(n) => char_is_digit(n),
                        None => false,
                    } {
                        is_float = true;
                        s.push(c);
                        digits.push(c);
                        self.advance();
                        assert(s@ =~= input.subrange(start as int, self.pos as int));
                    } else {
                        break;
                    }
                },
                None => {
                    break;
                },
            }
        }
        if is_float {
            Token::Float(s)
        } else {
            match parse_number(&digits, 10) {
                Some(n) => Token::Int(n),
                None => {
                    let mut m = String::from_str("invalid int: ");
                    push_str(&mut m, s.as_str());
                    Token::Error(m)
                },
            }
        }
    }

    /// Scan a string literal
    fn scan_string(&mut self) -> (r: Token)
        requires
            old(self).wf(),
            old(self).pos < old(self).input@.len(),
            old(self).input@[old(self).pos as int] == '"',
        ensures
            final(self).wf(),
            final(self).input@ == old(self).input@,
            (r@, final(self).pos as nat) == string_from(old(self).input@, (old(self).pos + 1) as nat, Seq::empty()),
    {
        let ghost input = self.input@;
        let ghost start = self.pos as nat;
        self.advance();
        let mut s = String::new();
        loop
            invariant_except_break
                self.wf(),
                self.input@ == input,
                input == old(self).input@,
                start == old(self).pos,
                string_from(input, self.pos as nat, s@) == string_from(input, start + 1, Seq::empty()),
            ensures
                self.wf(),
                self.input@ == input,
                (TokenV::StringLit(s@), self.pos as nat) == string_from(input, start + 1, Seq::empty()),
            decreases input.len() - self.pos,
        {
            match self.peek() {
                None => {
                    let mut m = String::from_str("unterminated string: \"");
                    push_str(&mut m, s.as_str());
                    push_str(&mut m, "\"");
                    return Token::Error(m);
                },
                Some(c) => {
                    if c == '\n' {
                        let mut m = String::from_str("unterminated string: \"");
                        push_str(&mut m, s.as_str());
                        push_str(&mut m, "\"");
                        return Token::Error(m);
                    } else if c == '"' {
                        self.advance();
                        break;
                    } else if c == '\\' {
                        let ghost old_s = s@;
                        self.advance();
                        match self.peek() {
                            Some(d) => {
                                if d == 'n' {
                                    s.push('\n');
                                } else if d == 't' {
                                    s.push('\t');
                                } else if d == 'r' {
                                    s.push('\r');
                                } else if d == '"' {
                                    s.push('"');
                                } else if d == '\\' {
                                    s.push('\\');
                                } else {
                                    s.push('\\');
                                    s.push(d);
                                }
                                assert(s@ =~= old_s + escape_text(d));
                                self.advance();
                            },
                            None => {
                                return Token::Error(String::from_str("unterminated string"));
                            },
                        }
                    } else {
                        s.push(c);
                        self.advance();
                    }
                },
            }
        }
        Token::StringLit(s)
    }

    /// Scan a single-line comment
    fn scan_line_comment(&mut self) -> (r: Token)
        requires
            old(self).wf(),
            char_at(old(self).input@, old(self).pos as nat) == Some('/'),
            char_at(old(self).input@, (old(self).pos + 1) as nat) == Some('/'),
        ensures
            final(self).wf(),
            final(self).input@ == old(self).input@,
            r@ == next_token_at(old(self).input@, line_end(old(self).input@, (old(self).pos + 2) as nat)).0,
            final(self).pos == next_token_at(old(self).input@, line_end(old(self).input@, (old(self).pos + 2) as nat)).2,
        decreases old(self).input@.len() - old(self).pos, 0nat,
    {
        let ghost input = self.input@;
        let ghost start = self.pos as nat;
        self.advance();
        self.advance();
        loop
            invariant
                self.wf(),
                self.input@ == input,
                input == old(self).input@,
                start == old(self).pos,
                start + 2 <= self.pos,
                line_end(input, self.pos as nat) == line_end(input, start + 2),
            ensures
                self.wf(),
                self.input@ == input,
                self.pos == line_end(input, start + 2),
            decreases input.len() - self.pos,
        {
            match self.peek() {
                Some(c) => {
                    if c != '\n' {
                        self.advance();
                    } else {
                        break;
                    }
                },
                None => {
                    break;
                },
            }
        }
        self.next_token().token
    }

    /// Scan a block comment
    fn scan_block_comment(&mut self) -> (r: Token)
        requires
            old(self).wf(),
            char_at(old(self).input@, old(self).pos as nat) == Some('/'),
            char_at(old(self).input@, (old(self).pos + 1) as nat) == Some('*'),
        ensures
            final(self).wf(),
            final(self).input@ == old(self).input@,
            match block_end(old(self).input@, (old(self).pos + 2) as nat) {
                None => r@ == TokenV::Error("unterminated block comment"@) && final(self).pos == old(self).input@.len(),
                Some(e) => r@ == next_token_at(old(self).input@, e).0 && final(self).pos == next_token_at(old(self).input@, e).2,
            },
        decreases old(self).input@.len() - old(self).pos, 0nat,
    {
        let ghost input = self.input@;
        let ghost start = self.pos as nat;
        self.advance();
        self.advance();
        loop
            invariant_except_break
                self.wf(),
                self.input@ == input,
                input == old(self).input@,
                start == old(self).pos,
                start + 2 <= self.pos,
                block_end(input, self.pos as nat) == block_end(input, start + 2),
            ensures
                self.wf(),
                self.input@ == input,
                block_end(input, start + 2) == Some(self.pos as nat),
            decreases input.len() - self.pos,
        {
            match self.peek() {
                None => {
                    return Token::Error(String::from_str("unterminated block comment"));
                },
                Some(c) => {
                    if c == '*' && self.peek_next() == Some('/') {
                        self.advance();
                        self.advance();
                        break;
                    } else {
                        self.advance();
                    }
                },
            }
        }
        proof {
            lemma_block_end_gt(input, start + 2);
        }
        self.next_token().token
    }

    /// A single character token: consumes it and gives `tok`.
    fn single(&mut self, tok: Token) -> (r: Token)
        requires
            old(self).wf(),
            old(self).pos < old(self).input@.len(),
        ensures
            final(self).wf(),
            final(self).input@ == old(self).input@,
            final(self).pos == old(self).pos + 1,
            r == tok,
    {
        self.advance();
        tok
    }

    /// A token of one character, or of two when the second is `second`.
    fn one_or_two(&mut self, second: char, two: Token, one: Token) -> (r: Token)
        requires
            old(self).wf(),
            old(self).pos < old(self).input@.len(),
        ensures
            final(self).wf(),
            final(self).input@ == old(self).input@,
            (r@, final(self).pos as nat) == one_or_two(old(self).input@, old(self).pos as nat, second, two@, one@),
    {
        self.advance();
        if self.peek() == Some(second) {
            self.advance();
            two
        } else {
            one
        }
    }

    /// Get next token
    pub fn next_token(&mut self) -> (r: SpannedToken)
        requires
            old(self).wf(),
        ensures
            final(self).wf(),
            final(self)@.input == old(self)@.input,
            r@ == spanned_at(old(self)@.input, old(self)@.pos),
            final(self)@.pos == next_token_at(old(self)@.input, old(self)@.pos).2,
            !(r.token@ is Eof) ==> old(self)@.pos < final(self)@.pos,
        decreases old(self)@.input.len() - old(self)@.pos, 1nat,
    {
        let ghost input = self.input@;
        let ghost pos0 = self.pos as nat;
        proof {
            lemma_next_token_advances(input, pos0);
        }
        self.skip_whitespace();
        proof {
            lemma_skip_space_ge(input, pos0);
        }
        let line = self.line;
        let col = self.col;
        let tok = match self.peek() {
            None => Token::Eof,
            Some(c) => {
                if c == '+' {
                    self.single(Token::Plus)
                } else if c == '-' {
                    self.one_or_two('>', Token::Arrow, Token::Minus)
                } else if c == '*' {
                    self.single(Token::Star)
                } else if c == '/' {
                    if self.peek_next() == Some('/') {
                        let t = self.scan_line_comment();
                        return SpannedToken::new(t, line, col);
                    } else if self.peek_next() == Some('*') {
                        let t = self.scan_block_comment();
                        return SpannedToken::new(t, line, col);
                    } else {
                        self.single(Token::Slash)
                    }
                } else if c == '%' {
                    self.single(Token::Percent)
                } else if c == '=' {
                    self.one_or_two('=', Token::Eq, Token::Assign)
                } else if c == '!' {
                    self.one_or_two('=', Token::NotEq, Token::Not)
                } else if c == '<' {
                    self.one_or_two('=', Token::Le, Token::Lt)
                } else if c == '>' {
                    self.one_or_two('=', Token::Ge, Token::Gt)
                } else if c == '&' {
                    self.one_or_two('&', Token::And, Token::Error(String::from_str("unexpected '&'")))
                } else if c == '|' {
                    self.one_or_two('|', Token::Or, Token::Error(String::from_str("unexpected '|'")))
                } else if c == '(' {
                    self.single(Token::LParen)
                } else if c == ')' {
                    self.single(Token::RParen)
                } else if c == '{' {
                    self.single(Token::LBrace)
                } else if c == '}' {
                    self.single(Token::RBrace)
                } else if c == '[' {
                    self.single(Token::LBracket)
                } else if c == ']' {
                    self.single(Token::RBracket)
                } else if c == ';' {
                    self.single(Token::Semicolon)
                } else if c == ':' {
                    self.single(Token::Colon)
                } else if c == ',' {
                    self.single(Token::Comma)
                } else if c == '.' {
                    self.single(Token::Dot)
                } else if char_is_digit(c) {
                    self.scan_number()
                } else if Self::is_ident_start(c) {
                    self.scan_ident()
                } else if c == '"' {
                    self.scan_string()
                } else {
                    let mut m = String::from_str("invalid character: '");
                    m.push(c);
                    push_str(&mut m, "'");
                    assert(m@ =~= "invalid character: '"@ + seq![c] + "'"@);
                    self.advance();
                    Token::Error(m)
                }
            },
        };
        SpannedToken::new(tok, line, col)
    }

    /// Tokenize entire input
    pub fn tokenize(source: &str) -> (r: Vec<SpannedToken>)
        requires
            source@.len() < usize::MAX,
        ensures
            spanned_view(r@) == tokens_from(source@, 0),
    {
        let mut lexer = Lexer::new(source);
        let mut tokens: Vec<SpannedToken> = Vec::new();
        let ghost input = source@;
        loop
            invariant_except_break
                lexer.wf(),
                lexer@.input == input,
                input == source@,
                spanned_view(tokens@) + tokens_from(input, lexer@.pos) == tokens_from(input, 0),
            ensures
                spanned_view(tokens@) == tokens_from(input, 0),
            decreases input.len() - lexer@.pos,
        {
            let ghost p = lexer@.pos;
            let st = lexer.next_token();
            let is_eof = match &st.token {
                Token::Eof => true,
                _ => false,
            };
            let ghost sv = st@;
            let ghost prev = tokens@;
            tokens.push(st);
            assert(spanned_view(tokens@) =~= spanned_view(prev).push(sv));
            if is_eof {
                break;
            }
        }
        tokens
    }
}

} // verus!
