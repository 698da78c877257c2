//! The scanner: character-by-character traversal with one-character lookahead.

use vstd::prelude::*;

use crate::chars::char_is_alphabetic;
use crate::chars::char_is_numeric;
use crate::chars::char_is_whitespace;
use crate::chars::is_alphabetic_char;
use crate::chars::is_numeric_char;
use crate::chars::is_whitespace_char;
use crate::token::Token;
use crate::token::TokenKind;
use crate::token::TokenModel;
use crate::token::keyword_kind;
use crate::token::str_eq;

verus! {

/// The position of the first non-whitespace character at or after `pos`, or
/// the input's length if only whitespace remains.
pub open spec fn skip_ws_end(s: Seq<char>, pos: int) -> int
    decreases s.len() - pos,
{
    if pos < s.len() && is_whitespace_char(s[pos]) {
        skip_ws_end(s, pos + 1)
    } else {
        pos
    }
}

/// The end of the maximal run of alphabetic characters starting at `pos`.
pub open spec fn alpha_run_end(s: Seq<char>, pos: int) -> int
    decreases s.len() - pos,
{
    if pos < s.len() && is_alphabetic_char(s[pos]) {
        alpha_run_end(s, pos + 1)
    } else {
        pos
    }
}

/// The end of the maximal run of numeric characters starting at `pos`.
pub open spec fn digit_run_end(s: Seq<char>, pos: int) -> int
    decreases s.len() - pos,
{
    if pos < s.len() && is_numeric_char(s[pos]) {
        digit_run_end(s, pos + 1)
    } else {
        pos
    }
}

proof fn lemma_skip_ws_end(s: Seq<char>, pos: int)
    requires
        0 <= pos <= s.len(),
    ensures
        pos <= skip_ws_end(s, pos) <= s.len(),
        forall|i: int| pos <= i < skip_ws_end(s, pos) ==> is_whitespace_char(s[i]),
        skip_ws_end(s, pos) < s.len() ==> !is_whitespace_char(s[skip_ws_end(s, pos)]),
    decreases s.len() - pos,
{
    if pos < s.len() && is_whitespace_char(s[pos]) {
        lemma_skip_ws_end(s, pos + 1);
    }
}

proof fn lemma_alpha_run_end(s: Seq<char>, pos: int)
    requires
        0 <= pos <= s.len(),
    ensures
        pos <= alpha_run_end(s, pos) <= s.len(),
        forall|i: int| pos <= i < alpha_run_end(s, pos) ==> is_alphabetic_char(s[i]),
        alpha_run_end(s, pos) < s.len() ==> !is_alphabetic_char(s[alpha_run_end(s, pos)]),
    decreases s.len() - pos,
{
    if pos < s.len() && is_alphabetic_char(s[pos]) {
        lemma_alpha_run_end(s, pos + 1);
    }
}

proof fn lemma_digit_run_end(s: Seq<char>, pos: int)
    requires
        0 <= pos <= s.len(),
    ensures
        pos <= digit_run_end(s, pos) <= s.len(),
        forall|i: int| pos <= i < digit_run_end(s, pos) ==> is_numeric_char(s[i]),
        digit_run_end(s, pos) < s.len() ==> !is_numeric_char(s[digit_run_end(s, pos)]),
    decreases s.len() - pos,
{
    if pos < s.len() && is_numeric_char(s[pos]) {
        lemma_digit_run_end(s, pos + 1);
    }
}

/// The token produced by one "produce next token" call on input `s` with the
/// cursor at character position `pos`, paired with the cursor position after
/// the call.
pub open spec fn spec_next_token(s: Seq<char>, pos: int) -> (TokenModel, int) {
    let w = skip_ws_end(s, pos);
    if w >= s.len() {
        (TokenModel { kind: TokenKind::Eof, literal: Seq::empty() }, s.len() as int)
    } else {
        let c = s[w];
        if c == '=' {
            if w + 1 < s.len() && s[w + 1] == '=' {
                (TokenModel { kind: TokenKind::Equals, literal: seq!['=', '='] }, w + 2)
            } else {
                (TokenModel { kind: TokenKind::Assign, literal: seq!['='] }, w + 1)
            }
        } else if c == '!' {
            if w + 1 < s.len() && s[w + 1] == '=' {
                (TokenModel { kind: TokenKind::NotEquals, literal: seq!['!', '='] }, w + 2)
            } else {
                (TokenModel { kind: TokenKind::Bang, literal: seq!['!'] }, w + 1)
            }
        } else if c == '+' {
            (TokenModel { kind: TokenKind::Plus, literal: seq!['+'] }, w + 1)
        } else if c == '-' {
            (TokenModel { kind: TokenKind::Minus, literal: seq!['-'] }, w + 1)
        } else if c == '/' {
            (TokenModel { kind: TokenKind::Slash, literal: seq!['/'] }, w + 1)
        } else if c == '*' {
            (TokenModel { kind: TokenKind::Asterisk, literal: seq!['*'] }, w + 1)
        } else if c == '<' {
            (TokenModel { kind: TokenKind::Lt, literal: seq!['<'] }, w + 1)
        } else if c == '>' {
            (TokenModel { kind: TokenKind::Gt, literal: seq!['>'] }, w + 1)
        } else if c == ';' {
            (TokenModel { kind: TokenKind::Semi, literal: seq![';'] }, w + 1)
        } else if c == '(' {
            (TokenModel { kind: TokenKind::LParen, literal: seq!['('] }, w + 1)
        } else if c == ')' {
            (TokenModel { kind: TokenKind::RParen, literal: seq![')'] }, w + 1)
        } else if c == ',' {
            (TokenModel { kind: TokenKind::Comma, literal: seq![','] }, w + 1)
        } else if c == '{' {
            (TokenModel { kind: TokenKind::LBrace, literal: seq!['{'] }, w + 1)
        } else if c == '}' {
            (TokenModel { kind: TokenKind::RBrace, literal: seq!['}'] }, w + 1)
        } else if is_alphabetic_char(c) {
            let e = alpha_run_end(s, w);
            (TokenModel { kind: keyword_kind(s.subrange(w, e)), literal: s.subrange(w, e) }, e)
        } else if is_numeric_char(c) {
            let e = digit_run_end(s, w);
            (TokenModel { kind: TokenKind::Int, literal: s.subrange(w, e) }, e)
        } else {
            (TokenModel { kind: TokenKind::Illegal, literal: Seq::empty() }, w + 1)
        }
    }
}

/// The mathematical image of a lexer: the input as a sequence of Unicode
/// scalar values, and the cursor as a character position into it.
pub struct LexerModel {
    pub input: Seq<char>,
    pub pos: int,
}

/// The scanner. It owns a borrowed view of the source text, addressed by
/// Unicode scalar position, and a cursor; `next_token` is called repeatedly
/// until an end-of-input token is returned.
pub struct Lexer<'a> {
    input: &'a str,
    position: usize,
    len: usize,
}

impl<'a> View for Lexer<'a> {
    type V = LexerModel;

    closed spec fn view(&self) -> LexerModel {
        LexerModel { input: self.input@, pos: self.position as int }
    }
}

impl<'a> Lexer<'a> {
    /// The lexer's invariant: the cursor never leaves the input (the position
    /// equal to the length means end of input), and the cached character
    /// count is that of the input.
    pub closed spec fn wf(&self) -> bool {
        &&& self.position <= self.len
        &&& self.len == self.input@.len()
    }

    /// Construct a lexer whose cursor is on the first character of `input`
    /// (or at end of input when `input` is empty).
    pub fn new(input: &'a str) -> (l: Lexer<'a>)
        ensures
            l.wf(),
            l@.input == input@,
            l@.pos == 0,
    {
        let len = input.unicode_len();
        Lexer { input, position: 0, len }
    }

    /// Advance the cursor one character, unless it is already at end of input.
    fn read_char(&mut self)
        requires
            old(self).wf(),
        ensures
            final(self).wf(),
            final(self)@.input == old(self)@.input,
            final(self)@.pos == if old(self)@.pos < old(self)@.input.len() {
                old(self)@.pos + 1
            } else {
                old(self)@.pos
            },
    {
        if self.position < self.len {
            self.position += 1;
        }
    }

    /// The character one past the cursor, or none when that is past the end.
    fn peek_char(&self) -> (c: Option<char>)
        requires
            self.wf(),
        ensures
            c == if self@.pos + 1 < self@.input.len() {
                Some(self@.input[self@.pos + 1])
            } else {
                None::<char>
            },
    {
        if self.len - self.position >= 2 {
            Some(self.input.get_char(self.position + 1))
        } else {
            None
        }
    }

    /// Advance the cursor past any run of whitespace characters under it.
    fn skip_whitespace(&mut self)
        requires
            old(self).wf(),
        ensures
            final(self).wf(),
            final(self)@.input == old(self)@.input,
            final(self)@.pos == skip_ws_end(old(self)@.input, old(self)@.pos),
    {
        while self.position < self.len && char_is_whitespace(
            self.input.get_char(self.position),
        )
            invariant
                self.wf(),
                self@.input == old(self)@.input,
                skip_ws_end(self@.input, self@.pos) == skip_ws_end(
                    old(self)@.input,
                    old(self)@.pos,
                ),
            decreases self.len - self.position,
        {
            self.position += 1;
        }
    }

    /// Consume the maximal run of alphabetic characters starting at the
    /// cursor and return it as text.
    fn read_identifier(&mut self) -> (s: String)
        requires
            old(self).wf(),
            old(self)@.pos < old(self)@.input.len(),
            is_alphabetic_char(old(self)@.input[old(self)@.pos]),
        ensures
            final(self).wf(),
            final(self)@.input == old(self)@.input,
            final(self)@.pos == alpha_run_end(old(self)@.input, old(self)@.pos),
            s@ == old(self)@.input.subrange(old(self)@.pos, final(self)@.pos),
    {
        let start = self.position;
        while self.position < self.len && char_is_alphabetic(
            self.input.get_char(self.position),
        )
            invariant
                self.wf(),
                self@.input == old(self)@.input,
                start <= self.position,
                alpha_run_end(self@.input, self@.pos) == alpha_run_end(
                    old(self)@.input,
                    old(self)@.pos,
                ),
            decreases self.len - self.position,
        {
            self.position += 1;
        }
        self.input.substring_char(start, self.position).to_owned()
    }

    /// Consume the maximal run of numeric characters starting at the cursor
    /// and return it as text.
    fn read_integer(&mut self) -> (s: String)
        requires
            old(self).wf(),
            old(self)@.pos < old(self)@.input.len(),
            is_numeric_char(old(self)@.input[old(self)@.pos]),
        ensures
            final(self).wf(),
            final(self)@.input == old(self)@.input,
            final(self)@.pos == digit_run_end(old(self)@.input, old(self)@.pos),
            s@ == old(self)@.input.subrange(old(self)@.pos, final(self)@.pos),
    {
        let start = self.position;
        while self.position < self.len && char_is_numeric(
            self.input.get_char(self.position),
        )
            invariant
                self.wf(),
                self@.input == old(self)@.input,
                start <= self.position,
                digit_run_end(self@.input, self@.pos) == digit_run_end(
                    old(self)@.input,
                    old(self)@.pos,
                ),
            decreases self.len - self.position,
        {
            self.position += 1;
        }
        self.input.substring_char(start, self.position).to_owned()
    }

    /// Classify identifier-shaped text against the keyword table and build
    /// the token: the dedicated keyword kind on an exact match, else a plain
    /// identifier, the text itself as the literal either way.
    fn match_identifier(&self, identifier: String) -> (t: Token)
        ensures
            t@.kind == keyword_kind(identifier@),
            t@.literal == identifier@,
    {
        proof {
            reveal_strlit("let");
            reveal_strlit("fn");
            reveal_strlit("true");
            reveal_strlit("false");
            reveal_strlit("if");
            reveal_strlit("else");
            reveal_strlit("return");
            assert("let"@ =~= crate::token::kw_let());
            assert("fn"@ =~= crate::token::kw_fn());
            assert("true"@ =~= crate::token::kw_true());
            assert("false"@ =~= crate::token::kw_false());
            assert("if"@ =~= crate::token::kw_if());
            assert("else"@ =~= crate::token::kw_else());
            assert("return"@ =~= crate::token::kw_return());
        }
        let kind = if str_eq(identifier.as_str(), "let") {
            TokenKind::Let
        } else if str_eq(identifier.as_str(), "fn") {
            TokenKind::Function
        } else if str_eq(identifier.as_str(), "true") {
            TokenKind::True
        } else if str_eq(identifier.as_str(), "false") {
            TokenKind::False
        } else if str_eq(identifier.as_str(), "if") {
            TokenKind::If
        } else if str_eq(identifier.as_str(), "else") {
            TokenKind::Else
        } else if str_eq(identifier.as_str(), "return") {
            TokenKind::Return
        } else {
            TokenKind::Ident
        };
        Token::new(kind, identifier)
    }

    /// Produce the next token: skip leading whitespace, classify the current
    /// character with one-character lookahead, consume exactly the token's
    /// characters, and leave the cursor on the character after them. At end
    /// of input it yields an end-of-input token and the cursor stays put.
    pub fn next_token(&mut self) -> (t: Token)
        requires
            old(self).wf(),
        ensures
            final(self).wf(),
            final(self)@.input == old(self)@.input,
            t@ == spec_next_token(old(self)@.input, old(self)@.pos).0,
            final(self)@.pos == spec_next_token(old(self)@.input, old(self)@.pos).1,
    {
        self.skip_whitespace();
        let token: Token;
        if self.position >= self.len {
            token = Token::new(TokenKind::Eof, String::new());
        } else {
            let c = self.input.get_char(self.position);
            if c == '=' {
                let two = match self.peek_char() {
                    Some(p) => p == '=',
                    None => false,
                };
                if two {
                    self.read_char();
                    self.read_char();
                    proof {
                        reveal_strlit("==");
                        assert("=="@ =~= seq!['=', '=']);
                    }
                    token = Token::new(TokenKind::Equals, "==".to_owned());
                } else {
                    self.read_char();
                    proof {
                        reveal_strlit("=");
                        assert("="@ =~= seq!['=']);
                    }
                    token = Token::new(TokenKind::Assign, "=".to_owned());
                }
            } else if c == '!' {
                let two = match self.peek_char() {
                    Some(p) => p == '=',
                    None => false,
                };
                if two {
                    self.read_char();
                    self.read_char();
                    proof {
                        reveal_strlit("!=");
                        assert("!="@ =~= seq!['!', '=']);
                    }
                    token = Token::new(TokenKind::NotEquals, "!=".to_owned());
                } else {
                    self.read_char();
                    proof {
                        reveal_strlit("!");
                        assert("!"@ =~= seq!['!']);
                    }
                    token = Token::new(TokenKind::Bang, "!".to_owned());
                }
            } else if c == '+' {
                self.read_char();
                proof {
                    reveal_strlit("+");
                    assert("+"@ =~= seq!['+']);
                }
                token = Token::new(TokenKind::Plus, "+".to_owned());
            } else if c == '-' {
                self.read_char();
                proof {
                    reveal_strlit("-");
                    assert("-"@ =~= seq!['-']);
                }
                token = Token::new(TokenKind::Minus, "-".to_owned());
            } else if c == '/' {
                self.read_char();
                proof {
                    reveal_strlit("/");
                    assert("/"@ =~= seq!['/']);
                }
                token = Token::new(TokenKind::Slash, "/".to_owned());
            } else if c == '*' {
                self.read_char();
                proof {
                    reveal_strlit("*");
                    assert("*"@ =~= seq!['*']);
                }
                token = Token::new(TokenKind::Asterisk, "*".to_owned());
            } else if c == '<' {
                self.read_char();
                proof {
                    reveal_strlit("<");
                    assert("<"@ =~= seq!['<']);
                }
                token = Token::new(TokenKind::Lt, "<".to_owned());
            } else if c == '>' {
                self.read_char();
                proof {
                    reveal_strlit(">");
                    assert(">"@ =~= seq!['>']);
                }
                token = Token::new(TokenKind::Gt, ">".to_owned());
            } else if c == ';' {
                self.read_char();
                proof {
                    reveal_strlit(";");
                    assert(";"@ =~= seq![';']);
                }
                token = Token::new(TokenKind::Semi, ";".to_owned());
            } else if c == '(' {
                self.read_char();
                proof {
                    reveal_strlit("(");
                    assert("("@ =~= seq!['(']);
                }
                token = Token::new(TokenKind::LParen, "(".to_owned());
            } else if c == ')' {
                self.read_char();
                proof {
                    reveal_strlit(")");
                    assert(")"@ =~= seq![')']);
                }
                token = Token::new(TokenKind::RParen, ")".to_owned());
            } else if c == ',' {
                self.read_char();
                proof {
                    reveal_strlit(",");
                    assert(","@ =~= seq![',']);
                }
                token = Token::new(TokenKind::Comma, ",".to_owned());
            } else if c == '{' {
                self.read_char();
                proof {
                    reveal_strlit("{");
                    assert("{"@ =~= seq!['{']);
                }
                token = Token::new(TokenKind::LBrace, "{".to_owned());
            } else if c == '}' {
                self.read_char();
                proof {
                    reveal_strlit("}");
                    assert("}"@ =~= seq!['}']);
                }
                token = Token::new(TokenKind::RBrace, "}".to_owned());
            } else if char_is_alphabetic(c) {
                let identifier = self.read_identifier();
                token = self.match_identifier(identifier);
            } else if char_is_numeric(c) {
                let literal = self.read_integer();
                token = Token::new(TokenKind::Int, literal);
            } else {
                self.read_char();
                token = Token::new(TokenKind::Illegal, String::new());
            }
        }
        proof {
            assert(token@ =~= spec_next_token(old(self)@.input, old(self)@.pos).0);
        }
        token
    }
}

/// Every call moves the cursor forward, or yields end-of-input and parks the
/// cursor at the end; so any input is exhausted after at most one call per
/// character plus one.
pub proof fn lemma_next_token_progress(s: Seq<char>, pos: int)
    requires
        0 <= pos <= s.len(),
    ensures
        pos <= spec_next_token(s, pos).1 <= s.len(),
        spec_next_token(s, pos).0.kind == TokenKind::Eof ==> spec_next_token(s, pos).1 == s.len(),
        spec_next_token(s, pos).0.kind != TokenKind::Eof ==> spec_next_token(s, pos).1 > pos,
{
    lemma_skip_ws_end(s, pos);
    let w = skip_ws_end(s, pos);
    if w < s.len() {
        let c = s[w];
        if is_alphabetic_char(c) {
            lemma_alpha_run_end(s, w + 1);
        } else if is_numeric_char(c) {
            lemma_digit_run_end(s, w + 1);
        }
    }
}

/// Once the cursor is at the end of the input, every further call yields an
/// end-of-input token with an empty literal and leaves the cursor where it is.
pub proof fn lemma_eof_stable(s: Seq<char>)
    ensures
        spec_next_token(s, s.len() as int).0 == (TokenModel {
            kind: TokenKind::Eof,
            literal: Seq::<char>::empty(),
        }),
        spec_next_token(s, s.len() as int).1 == s.len(),
{
}

/// How many "produce next token" calls it takes, starting at `pos`, until an
/// end-of-input token comes back (that call included).
pub open spec fn calls_to_eof(s: Seq<char>, pos: int) -> nat
    decreases s.len() - pos when 0 <= pos <= s.len() via calls_to_eof_decreases
{
    if !(0 <= pos <= s.len()) {
        1
    } else if spec_next_token(s, pos).0.kind == TokenKind::Eof {
        1
    } else {
        1 + calls_to_eof(s, spec_next_token(s, pos).1)
    }
}

#[via_fn]
proof fn calls_to_eof_decreases(s: Seq<char>, pos: int) {
    if 0 <= pos <= s.len() {
        lemma_next_token_progress(s, pos);
    }
}

/// The number of calls needed to reach end-of-input is finite: at most one
/// call per remaining character, plus the final end-of-input call.
pub proof fn lemma_finitely_many_calls(s: Seq<char>, pos: int)
    requires
        0 <= pos <= s.len(),
    ensures
        calls_to_eof(s, pos) <= s.len() - pos + 1,
    decreases s.len() - pos,
{
    lemma_next_token_progress(s, pos);
    if spec_next_token(s, pos).0.kind != TokenKind::Eof {
        lemma_finitely_many_calls(s, spec_next_token(s, pos).1);
    }
}

/// Once a call has returned end-of-input, every later call returns the same
/// end-of-input token and leaves the cursor where it is.
pub proof fn lemma_eof_once_eof_forever(s: Seq<char>, pos: int)
    requires
        0 <= pos <= s.len(),
        spec_next_token(s, pos).0.kind == TokenKind::Eof,
    ensures
        spec_next_token(s, spec_next_token(s, pos).1).0 == spec_next_token(s, pos).0,
        spec_next_token(s, spec_next_token(s, pos).1).1 == spec_next_token(s, pos).1,
{
    lemma_next_token_progress(s, pos);
    lemma_eof_stable(s);
}

proof fn lemma_skip_ws_all(s: Seq<char>, pos: int)
    requires
        0 <= pos <= s.len(),
        forall|i: int| pos <= i < s.len() ==> is_whitespace_char(s[i]),
    ensures
        skip_ws_end(s, pos) == s.len(),
    decreases s.len() - pos,
{
    if pos < s.len() {
        lemma_skip_ws_all(s, pos + 1);
    }
}

/// On whitespace-only input — the empty input included — the first token
/// produced is already end-of-input.
pub proof fn lemma_whitespace_only_yields_eof(s: Seq<char>)
    requires
        forall|i: int| 0 <= i < s.len() ==> is_whitespace_char(s[i]),
    ensures
        spec_next_token(s, 0).0.kind == TokenKind::Eof,
{
    lemma_skip_ws_all(s, 0);
}

/// One call consumes exactly the characters between the old and the new
/// cursor position: first a run of whitespace, then the token's own text.
/// For every token but Illegal and end-of-input, that text is the literal;
/// an Illegal token covers exactly one character and carries no text; an
/// end-of-input token consumes nothing beyond trailing whitespace.
pub proof fn lemma_round_trip_step(s: Seq<char>, pos: int)
    requires
        0 <= pos <= s.len(),
    ensures
        pos <= skip_ws_end(s, pos) <= spec_next_token(s, pos).1 <= s.len(),
        forall|i: int| pos <= i < skip_ws_end(s, pos) ==> is_whitespace_char(s[i]),
        spec_next_token(s, pos).0.kind != TokenKind::Eof && spec_next_token(s, pos).0.kind
            != TokenKind::Illegal ==> spec_next_token(s, pos).0.literal == s.subrange(
            skip_ws_end(s, pos),
            spec_next_token(s, pos).1,
        ),
        spec_next_token(s, pos).0.kind == TokenKind::Illegal ==> spec_next_token(s, pos).1
            == skip_ws_end(s, pos) + 1 && spec_next_token(s, pos).0.literal == Seq::<char>::empty(),
        spec_next_token(s, pos).0.kind == TokenKind::Eof ==> skip_ws_end(s, pos) == s.len()
            && spec_next_token(s, pos).1 == s.len() && spec_next_token(s, pos).0.literal
            == Seq::<char>::empty(),
{
    lemma_skip_ws_end(s, pos);
    let w = skip_ws_end(s, pos);
    if w < s.len() {
        let c = s[w];
        if is_alphabetic_char(c) {
            lemma_alpha_run_end(s, w + 1);
        } else if is_numeric_char(c) {
            lemma_digit_run_end(s, w + 1);
        }
        assert(s.subrange(w, w + 1) =~= seq![s[w]]);
        if w + 1 < s.len() {
            assert(s.subrange(w, w + 2) =~= seq![s[w], s[w + 1]]);
        }
    }
}

/// The text one call accounts for: the skipped whitespace, then the token's
/// literal (the consumed character itself for an Illegal token), then
/// whatever later calls account for.
pub open spec fn emitted_from(s: Seq<char>, pos: int) -> Seq<char>
    decreases s.len() - pos,
{
    if pos < 0 || pos >= s.len() {
        Seq::empty()
    } else {
        let w = skip_ws_end(s, pos);
        let t = spec_next_token(s, pos).0;
        let p = spec_next_token(s, pos).1;
        if p <= pos || p > s.len() {
            Seq::empty()
        } else {
            s.subrange(pos, w) + (if t.kind == TokenKind::Illegal {
                s.subrange(w, p)
            } else {
                t.literal
            }) + emitted_from(s, p)
        }
    }
}

proof fn lemma_emitted_from(s: Seq<char>, pos: int)
    requires
        0 <= pos <= s.len(),
    ensures
        emitted_from(s, pos) == s.subrange(pos, s.len() as int),
    decreases s.len() - pos,
{
    if pos >= s.len() {
        assert(s.subrange(pos, s.len() as int) =~= Seq::<char>::empty());
    } else {
        lemma_next_token_progress(s, pos);
        lemma_round_trip_step(s, pos);
        let w = skip_ws_end(s, pos);
        let t = spec_next_token(s, pos).0;
        let p = spec_next_token(s, pos).1;
        lemma_emitted_from(s, p);
        if t.kind == TokenKind::Eof {
            assert(s.subrange(w, p) =~= Seq::<char>::empty());
        }
        assert(s.subrange(pos, w) + s.subrange(w, p) + s.subrange(p, s.len() as int) =~= s.subrange(
            pos,
            s.len() as int,
        ));
        assert(emitted_from(s, pos) =~= s.subrange(pos, s.len() as int));
    }
}

/// Round trip: concatenating, call by call, the skipped whitespace and the
/// consumed text reconstructs the original input exactly.
pub proof fn lemma_round_trip(s: Seq<char>)
    ensures
        emitted_from(s, 0) == s,
{
    lemma_emitted_from(s, 0);
    assert(s.subrange(0, s.len() as int) =~= s);
}

} // verus!
