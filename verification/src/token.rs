//! The lexical units of a startup file.

use vstd::prelude::*;

verus! {

/// One lexical unit of a startup file.
#[derive(Clone, Debug, PartialEq, Eq)]
pub enum Token {
    /// The keyword `export`, which opens an assignment.
    Export,
    /// A name: letters, digits and underscores, not starting with a digit.
    Identifier(String),
    /// The sign `=`.
    Assign,
    /// A quoted string; the token holds what stands between the quotes.
    StringLiteral(String),
    /// A character that begins none of the others.
    Error,
}

/// What a `Token` stands for.
pub enum TokenView {
    Export,
    Identifier(Seq<char>),
    Assign,
    StringLiteral(Seq<char>),
    Error,
}

impl View for Token {
    type V = TokenView;

    open spec fn view(&self) -> TokenView {
        match self {
            Token::Export => TokenView::Export,
            Token::Identifier(name) => TokenView::Identifier(name@),
            Token::Assign => TokenView::Assign,
            Token::StringLiteral(text) => TokenView::StringLiteral(text@),
            Token::Error => TokenView::Error,
        }
    }
}

/// What the tokens of `v` stand for.
pub open spec fn token_views(v: Seq<Token>) -> Seq<TokenView> {
    Seq::new(v.len(), |i: int| v[i]@)
}

/// The four tokens of the statement that binds `name` to `value`.
pub open spec fn statement_tokens(name: Seq<char>, value: Seq<char>) -> Seq<TokenView> {
    seq![
        TokenView::Export,
        TokenView::Identifier(name),
        TokenView::Assign,
        TokenView::StringLiteral(value),
    ]
}

impl Token {
    /// Whether the token is `Error`.
    pub fn is_error(&self) -> (b: bool)
        ensures
            b == (self@ is Error),
    {
        match self {
            Token::Error => true,
            _ => false,
        }
    }
}

} // verus!
