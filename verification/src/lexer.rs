//! The lexical layer of the grammar: how source text falls into tokens.

use vstd::prelude::*;
use vstd::string::*;
use crate::ast::is_unsigned_decimal;
use crate::text::{
    characters, digit_run, is_digit, is_digit_char, is_letter, is_letter_char, is_space,
    is_space_char, lemma_digit_run_bounds, lemma_digit_run_within, lemma_letter_run_bounds,
    letter_run,
};

verus! {

/// The classes of token. `Unknown` is a character that belongs to no token
/// of the grammar; `End` stands after the last character of the text.
#[derive(Debug, Copy, Clone, PartialEq, Eq, Structural)]
pub enum TokenKind {
    Number,
    Variable,
    Plus,
    Minus,
    Star,
    Slash,
    Caret,
    Open,
    Close,
    Unknown,
    End,
}

/// The model of a token: its class and the half-open range of character
/// indices that it covers.
pub struct Lexeme {
    pub kind: TokenKind,
    pub start: int,
    pub end: int,
}

/// A token: its class and the half-open range of character indices that it
/// covers.
#[derive(Debug, Copy, Clone, PartialEq, Eq)]
pub struct Token {
    pub kind: TokenKind,
    pub start: usize,
    pub end: usize,
}

impl View for Token {
    type V = Lexeme;

    open spec fn view(&self) -> Lexeme {
        Lexeme { kind: self.kind, start: self.start as int, end: self.end as int }
    }
}

/// The class of a token that is a single character, `Unknown` where the
/// character is none.
pub open spec fn symbol_kind(c: char) -> TokenKind {
    if c == '+' {
        TokenKind::Plus
    } else if c == '-' {
        TokenKind::Minus
    } else if c == '*' {
        TokenKind::Star
    } else if c == '/' {
        TokenKind::Slash
    } else if c == '^' {
        TokenKind::Caret
    } else if c == '(' {
        TokenKind::Open
    } else if c == ')' {
        TokenKind::Close
    } else {
        TokenKind::Unknown
    }
}

/// The length of the number that starts at `at`: its digits and, where a
/// point and a digit follow them, the point and the digits after it.
pub open spec fn number_len(text: Seq<char>, at: int) -> nat {
    let whole = digit_run(text, at);
    let point = at + whole;
    if point + 1 < text.len() && text[point] == '.' && is_digit(text[point + 1]) {
        whole + 1 + digit_run(text, point + 1)
    } else {
        whole
    }
}

/// The token that starts at `at`, where a character that is no space stands:
/// the longest number or the longest word that starts there, or else the one
/// character.
pub open spec fn lexeme_at(text: Seq<char>, at: int) -> Lexeme {
    if is_digit(text[at]) {
        Lexeme { kind: TokenKind::Number, start: at, end: at + number_len(text, at) }
    } else if is_letter(text[at]) {
        Lexeme { kind: TokenKind::Variable, start: at, end: at + letter_run(text, at) }
    } else {
        Lexeme { kind: symbol_kind(text[at]), start: at, end: at + 1 }
    }
}

/// The tokens of `text` from index `from` on, an `End` token last.
pub open spec fn lexemes_from(text: Seq<char>, from: int) -> Seq<Lexeme>
    decreases text.len() - from,
{
    if from < 0 || from >= text.len() {
        seq![Lexeme { kind: TokenKind::End, start: text.len() as int, end: text.len() as int }]
    } else if is_space(text[from]) {
        lexemes_from(text, from + 1)
    } else {
        proof {
            lemma_lexeme_at_bounds(text, from);
        }
        let first = lexeme_at(text, from);
        seq![first] + lexemes_from(text, first.end)
    }
}

/// A token is not empty and ends within the text.
pub proof fn lemma_lexeme_at_bounds(text: Seq<char>, at: int)
    requires
        0 <= at < text.len(),
    ensures
        lexeme_at(text, at).start == at,
        at < lexeme_at(text, at).end <= text.len(),
{
    lemma_digit_run_bounds(text, at);
    lemma_letter_run_bounds(text, at);
    if is_digit(text[at]) {
        let point = at + digit_run(text, at);
        if point + 1 < text.len() {
            lemma_digit_run_bounds(text, point + 1);
        }
    }
}

/// The tokens of `text`.
pub open spec fn lexemes(text: Seq<char>) -> Seq<Lexeme> {
    lexemes_from(text, 0)
}

/// The models of a sequence of tokens.
pub open spec fn lexemes_of(tokens: Seq<Token>) -> Seq<Lexeme> {
    tokens.map_values(|t: Token| t@)
}

/// What holds of every token sequence that [`lexemes`] gives: each token lies
/// within the text, a number's text is an unsigned decimal literal, and
/// `End` is the last token and no other.
pub open spec fn well_scanned(text: Seq<char>, tokens: Seq<Lexeme>) -> bool {
    &&& tokens.len() >= 1
    &&& forall|k: int|
        0 <= k < tokens.len() ==> {
            &&& 0 <= (#[trigger] tokens[k]).start <= tokens[k].end <= text.len()
            &&& (tokens[k].kind == TokenKind::End <==> k == tokens.len() - 1)
            &&& (tokens[k].kind == TokenKind::Number ==> is_unsigned_decimal(
                text.subrange(tokens[k].start, tokens[k].end),
            ))
        }
}

/// The text of a number token is an unsigned decimal literal.
pub proof fn lemma_number_is_decimal(text: Seq<char>, at: int)
    requires
        0 <= at < text.len(),
        is_digit(text[at]),
    ensures
        is_unsigned_decimal(text.subrange(at, at + number_len(text, at))),
{
    lemma_lexeme_at_bounds(text, at);
    lemma_digit_run_bounds(text, at);
    let whole = digit_run(text, at) as int;
    let point = at + whole;
    let end = at + number_len(text, at);
    let part = text.subrange(at, end);
    lemma_digit_run_within(text, at, end, at);
    if point + 1 < text.len() && text[point] == '.' && is_digit(text[point + 1]) {
        lemma_digit_run_bounds(text, point + 1);
        lemma_digit_run_within(text, at, end, point + 1);
        assert(part[whole] == text[point]);
    }
}

/// The tokens of a text are well scanned, and none starts before the index
/// from which they were taken.
pub proof fn lemma_lexemes_well_scanned(text: Seq<char>, from: int)
    requires
        0 <= from <= text.len(),
    ensures
        well_scanned(text, lexemes_from(text, from)),
        forall|k: int|
            0 <= k < lexemes_from(text, from).len() ==> from <= (#[trigger] lexemes_from(
                text,
                from,
            )[k]).start,
    decreases text.len() - from,
{
    if from >= text.len() {
    } else if is_space(text[from]) {
        lemma_lexemes_well_scanned(text, from + 1);
    } else {
        lemma_lexeme_at_bounds(text, from);
        let first = lexeme_at(text, from);
        lemma_lexemes_well_scanned(text, first.end);
        if is_digit(text[from]) {
            lemma_number_is_decimal(text, from);
        }
        let rest = lexemes_from(text, first.end);
        let all = lexemes_from(text, from);
        assert(all =~= seq![first] + rest);
        assert forall|k: int| 0 <= k < all.len() implies {
            &&& 0 <= (#[trigger] all[k]).start <= all[k].end <= text.len()
            &&& (all[k].kind == TokenKind::End <==> k == all.len() - 1)
            &&& (all[k].kind == TokenKind::Number ==> is_unsigned_decimal(
                text.subrange(all[k].start, all[k].end),
            ))
            &&& from <= all[k].start
        } by {
            if k > 0 {
                assert(all[k] == rest[k - 1]);
            }
        }
    }
}

/// The index at which the run of digits that starts at `from` ends.
fn digits_end(chars: &Vec<char>, from: usize) -> (to: usize)
    requires
        from <= chars.len(),
    ensures
        to == from + digit_run(chars@, from as int),
        to <= chars.len(),
{
    let mut to: usize = from;
    while to < chars.len() && is_digit_char(chars[to])
        invariant
            from <= to <= chars.len(),
            to + digit_run(chars@, to as int) == from + digit_run(chars@, from as int),
        decreases chars.len() - to,
    {
        to = to + 1;
    }
    to
}

/// The index at which the run of letters that starts at `from` ends.
fn letters_end(chars: &Vec<char>, from: usize) -> (to: usize)
    requires
        from <= chars.len(),
    ensures
        to == from + letter_run(chars@, from as int),
        to <= chars.len(),
{
    let mut to: usize = from;
    while to < chars.len() && is_letter_char(chars[to])
        invariant
            from <= to <= chars.len(),
            to + letter_run(chars@, to as int) == from + letter_run(chars@, from as int),
        decreases chars.len() - to,
    {
        to = to + 1;
    }
    to
}

/// The class of the one-character token `c`.
fn symbol_of(c: char) -> (kind: TokenKind)
    ensures
        kind == symbol_kind(c),
{
    if c == '+' {
        TokenKind::Plus
    } else if c == '-' {
        TokenKind::Minus
    } else if c == '*' {
        TokenKind::Star
    } else if c == '/' {
        TokenKind::Slash
    } else if c == '^' {
        TokenKind::Caret
    } else if c == '(' {
        TokenKind::Open
    } else if c == ')' {
        TokenKind::Close
    } else {
        TokenKind::Unknown
    }
}

/// The token that starts at `at`.
fn token_at(chars: &Vec<char>, at: usize) -> (token: Token)
    requires
        at < chars.len(),
    ensures
        token@ == lexeme_at(chars@, at as int),
        at < token.end <= chars.len(),
{
    proof {
        lemma_lexeme_at_bounds(chars@, at as int);
    }
    let c = chars[at];
    if is_digit_char(c) {
        let point = digits_end(chars, at);
        if point < chars.len() && chars[point] == '.' && point + 1 < chars.len() && is_digit_char(
            chars[point + 1],
        ) {
            let end = digits_end(chars, point + 1);
            Token { kind: TokenKind::Number, start: at, end }
        } else {
            Token { kind: TokenKind::Number, start: at, end: point }
        }
    } else if is_letter_char(c) {
        let end = letters_end(chars, at);
        Token { kind: TokenKind::Variable, start: at, end }
    } else {
        Token { kind: symbol_of(c), start: at, end: at + 1 }
    }
}

/// Splits the characters of a text into tokens.
pub fn scan(chars: &Vec<char>) -> (tokens: Vec<Token>)
    ensures
        lexemes_of(tokens@) == lexemes(chars@),
        well_scanned(chars@, lexemes_of(tokens@)),
{
    let mut tokens: Vec<Token> = Vec::new();
    let mut at: usize = 0;
    while at < chars.len()
        invariant
            at <= chars.len(),
            lexemes(chars@) == lexemes_of(tokens@) + lexemes_from(chars@, at as int),
        decreases chars.len() - at,
    {
        if is_space_char(chars[at]) {
            at = at + 1;
        } else {
            let token = token_at(chars, at);
            proof {
                let before = lexemes_of(tokens@);
                let after = lexemes_of(tokens@.push(token));
                assert(after =~= before.push(token@));
                assert(before + (seq![token@] + lexemes_from(chars@, token.end as int))
                    =~= after + lexemes_from(chars@, token.end as int));
            }
            tokens.push(token);
            at = token.end;
        }
    }
    let last = Token { kind: TokenKind::End, start: chars.len(), end: chars.len() };
    proof {
        let before = lexemes_of(tokens@);
        let after = lexemes_of(tokens@.push(last));
        assert(after =~= before.push(last@));
        assert(after =~= before + lexemes_from(chars@, at as int));
        lemma_lexemes_well_scanned(chars@, 0);
    }
    tokens.push(last);
    tokens
}

/// Splits a source text into tokens.
pub fn tokenize(source: &str) -> (tokens: Vec<Token>)
    ensures
        lexemes_of(tokens@) == lexemes(source@),
        well_scanned(source@, lexemes_of(tokens@)),
{
    let chars = characters(source);
    scan(&chars)
}

} // verus!
