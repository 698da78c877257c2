//! Tokens: the lexical units the lexer produces.
//!
//! A token is a kind together with the exact source text that produced it.
//! The end-of-input and illegal tokens carry no text. Keyword classification
//! is an exact full-string match against a fixed table.

use vstd::prelude::*;

verus! {

/// The closed set of token categories.
#[derive(Clone, Copy, Debug, PartialEq, Eq, Structural)]
pub enum TokenKind {
    Illegal,
    Eof,
    Ident,
    Int,
    Assign,
    Plus,
    Minus,
    Bang,
    Slash,
    Asterisk,
    Lt,
    Gt,
    Equals,
    NotEquals,
    Semi,
    LParen,
    RParen,
    Comma,
    LBrace,
    RBrace,
    Let,
    Function,
    True,
    False,
    If,
    Else,
    Return,
}

/// The mathematical image of a token: its kind and its text as a sequence of
/// Unicode scalar values.
#[verifier::ext_equal]
pub struct TokenModel {
    pub kind: TokenKind,
    pub literal: Seq<char>,
}

/// One lexical unit: a kind and the exact substring of the source that
/// produced it (empty for end-of-input and illegal tokens).
#[derive(Debug)]
pub struct Token {
    pub kind: TokenKind,
    pub literal: String,
}

impl View for Token {
    type V = TokenModel;

    open spec fn view(&self) -> TokenModel {
        TokenModel { kind: self.kind, literal: self.literal@ }
    }
}

impl Token {
    pub fn new(kind: TokenKind, literal: String) -> (t: Token)
        ensures
            t.kind == kind,
            t.literal == literal,
    {
        Token { kind, literal }
    }
}

impl PartialEq for Token {
    fn eq(&self, other: &Token) -> (r: bool) {
        self.kind == other.kind && str_eq(self.literal.as_str(), other.literal.as_str())
    }
}

impl vstd::std_specs::cmp::PartialEqSpecImpl for Token {
    open spec fn obeys_eq_spec() -> bool {
        true
    }

    open spec fn eq_spec(&self, other: &Token) -> bool {
        self.kind == other.kind && self.literal@ == other.literal@
    }
}

/// Character-by-character string comparison: equal exactly when the views are.
pub fn str_eq(a: &str, b: &str) -> (r: bool)
    ensures
        r == (a@ == b@),
{
    let alen = a.unicode_len();
    let blen = b.unicode_len();
    if alen != blen {
        return false;
    }
    let mut i: usize = 0;
    while i < alen
        invariant
            alen == a@.len(),
            alen == b@.len(),
            i <= alen,
            forall|j: int| 0 <= j < i ==> a@[j] == b@[j],
        decreases alen - i,
    {
        if a.get_char(i) != b.get_char(i) {
            return false;
        }
        i += 1;
    }
    proof {
        assert(a@ =~= b@);
    }
    true
}

/// The keyword table's entries, as character sequences.
pub open spec fn kw_let() -> Seq<char> {
    seq!['l', 'e', 't']
}

pub open spec fn kw_fn() -> Seq<char> {
    seq!['f', 'n']
}

pub open spec fn kw_true() -> Seq<char> {
    seq!['t', 'r', 'u', 'e']
}

pub open spec fn kw_false() -> Seq<char> {
    seq!['f', 'a', 'l', 's', 'e']
}

pub open spec fn kw_if() -> Seq<char> {
    seq!['i', 'f']
}

pub open spec fn kw_else() -> Seq<char> {
    seq!['e', 'l', 's', 'e']
}

pub open spec fn kw_return() -> Seq<char> {
    seq!['r', 'e', 't', 'u', 'r', 'n']
}

/// The kind an identifier-shaped text classifies as: its dedicated keyword
/// kind when it matches the table exactly, else a plain identifier.
pub open spec fn keyword_kind(s: Seq<char>) -> TokenKind {
    if s == kw_let() {
        TokenKind::Let
    } else if s == kw_fn() {
        TokenKind::Function
    } else if s == kw_true() {
        TokenKind::True
    } else if s == kw_false() {
        TokenKind::False
    } else if s == kw_if() {
        TokenKind::If
    } else if s == kw_else() {
        TokenKind::Else
    } else if s == kw_return() {
        TokenKind::Return
    } else {
        TokenKind::Ident
    }
}

} // verus!
