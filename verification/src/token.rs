//! The token data model: a classified, positioned substring of the source.

use vstd::prelude::*;

verus! {

/// The lexical category of a token, a closed enumeration.
///
/// Every byte of accepted input falls into exactly one of these categories;
/// there is no catch-all for unknown characters.
#[derive(Debug, Clone, Copy, PartialEq, Eq)]
pub enum TokKind {
    /// Assignment operator `=`.
    As,
    /// Left parenthesis `(`.
    LPar,
    /// Right parenthesis `)`.
    RPar,
    /// Left brace `{`.
    LBrc,
    /// Right brace `}`.
    RBrc,
    /// Semicolon `;`.
    SCol,
    /// Plus operator `+`.
    Add,
    /// Minus operator `-`.
    Sub,
    /// Increment operator `++`.
    Inc,
    /// Decrement operator `--`.
    Dec,
    /// Reserved word (`char` or `int`).
    Key,
    /// Identifier: a letter or underscore followed by letters, digits or
    /// underscores.
    Var,
    /// Literal: a double-quoted string, a single-quoted character, or a run
    /// of decimal digits.
    Lit,
    /// Comment: `//` to end of line, or `/*` to the nearest `*/`.
    Cmt,
    /// A run of one or more spaces.
    Spc,
    /// Newline `\n`.
    Nl,
    /// Carriage return `\r`.
    CR,
    /// Tab `\t`.
    Tab,
}

/// The mathematical model of a token: its category, the character offset at
/// which it begins, and the exact characters it matched.
pub ghost struct SpecTok {
    pub kind: TokKind,
    pub pos: nat,
    pub text: Seq<char>,
}

/// One lexical unit of the source text.
///
/// `pos` is the zero-based character offset at which the token begins and
/// `str` is the exact substring matched, so a successful tokenization covers
/// the input without gaps: concatenating the `str` fields in order
/// reconstructs the source.
#[derive(Debug, PartialEq, Eq)]
pub struct Tok {
    pub kind: TokKind,
    pub pos: usize,
    pub str: String,
}

impl View for Tok {
    type V = SpecTok;

    open spec fn view(&self) -> SpecTok {
        SpecTok { kind: self.kind, pos: self.pos as nat, text: self.str@ }
    }
}

/// The models of a sequence of tokens, in order.
pub open spec fn views_of(toks: Seq<Tok>) -> Seq<SpecTok> {
    toks.map_values(|t: Tok| t@)
}

} // verus!
