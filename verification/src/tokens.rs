//! Tokens of a source fragment, as the lexer produces them.  A token
//! stream ends with an `Eof` token; reading past the end keeps yielding
//! that token, as the lexer does.
use vstd::prelude::*;

use crate::types::Span;

verus! {

/// The kinds of token the checker distinguishes.
#[derive(Clone, Copy, Debug, PartialEq, Eq, Structural)]
pub enum TokenKind {
    Eof,
    Number,
    Ident,
    String,
    /// `{`
    PunctLBrace,
    /// `}`
    PunctRBrace,
    /// `[`
    PunctLBracket,
    /// `]`
    PunctRBracket,
    /// `..`
    PunctDblDot,
    /// `.`
    PunctDot,
    /// `(`
    PunctLParen,
    /// `)`
    PunctRParen,
    /// `&`
    PunctAmp,
    /// `&!`
    PunctAmpBang,
    /// `&[`
    PunctAmpLBracket,
    /// `&![`
    PunctAmpBangLBracket,
    /// `=>`
    PunctArrowBind,
    /// `>=`
    PunctGe,
    /// `<=`
    PunctLe,
    /// `==`
    PunctEqEq,
    /// `!=`
    PunctNe,
    /// An effect-set annotation such as `!{suspend}`.
    EffectSet,
    /// Any other punctuation.
    Other,
}

/// A token: its kind and where it lies in the fragment it was read from.
#[derive(Clone, Copy, Debug, PartialEq, Eq, Structural)]
pub struct Token {
    pub kind: TokenKind,
    pub span: Span,
}

/// A well-formed token stream for a fragment of `len` bytes: non-empty,
/// ending in `Eof`, every span inside the fragment.
pub open spec fn stream_ok(toks: Seq<Token>, len: nat) -> bool {
    &&& toks.len() > 0
    &&& toks.last().kind == TokenKind::Eof
    &&& forall|i: int| 0 <= i < toks.len() ==> (#[trigger] toks[i]).span.within(len)
}

/// The token read at position `p` (the final `Eof` once past the end).
pub open spec fn tok_at(toks: Seq<Token>, p: int) -> Token {
    if 0 <= p < toks.len() {
        toks[p]
    } else {
        toks.last()
    }
}

/// Reads the token at position `p`.
pub fn token_at(toks: &[Token], p: usize) -> (t: Token)
    requires
        toks@.len() > 0,
    ensures
        t == tok_at(toks@, p as int),
{
    if p < toks.len() {
        toks[p]
    } else {
        toks[toks.len() - 1]
    }
}

/// The token at any position lies inside the fragment.
pub proof fn lemma_tok_at_within(toks: Seq<Token>, len: nat, p: int)
    requires
        stream_ok(toks, len),
    ensures
        tok_at(toks, p).span.within(len),
{
    if !(0 <= p < toks.len()) {
        assert(toks.last() == toks[toks.len() - 1]);
    }
}

} // verus!
