use vstd::prelude::*;

verus! {

/// The ghost meaning of a token: each executable [`Token`] abstracts to one
/// of these, with an identifier's text abstracted to its character sequence.
pub enum TokenView {
    Comma,
    BracketOpen,
    BracketClose,
    ListItem(Seq<char>),
    EndOfInput,
}

/// A lexical token of the list grammar.
///
/// `ListItem` carries a non-empty run of ASCII-alphabetic characters; the
/// other variants carry nothing. `EndOfInput` is the sentinel that closes
/// every successful tokenization, exactly once, as the last element.
#[derive(Debug, Clone, PartialEq, Eq)]
pub enum Token {
    Comma,
    BracketOpen,
    BracketClose,
    ListItem(String),
    EndOfInput,
}

impl View for Token {
    type V = TokenView;

    open spec fn view(&self) -> TokenView {
        match self {
            Token::Comma => TokenView::Comma,
            Token::BracketOpen => TokenView::BracketOpen,
            Token::BracketClose => TokenView::BracketClose,
            Token::ListItem(text) => TokenView::ListItem(text@),
            Token::EndOfInput => TokenView::EndOfInput,
        }
    }
}

/// The abstraction of a whole token sequence, element by element.
pub open spec fn token_views(tokens: Seq<Token>) -> Seq<TokenView> {
    tokens.map_values(|t: Token| t@)
}

/// Tokenization fails on the first character that can start no token; the
/// error carries exactly that character.
#[derive(Debug, Clone, Copy, PartialEq, Eq, Structural)]
pub enum TokenizeError {
    InvalidCharacter(char),
}

impl TokenizeError {
    /// The character that caused the failure.
    pub open spec fn offending(self) -> char {
        match self {
            TokenizeError::InvalidCharacter(c) => c,
        }
    }

    /// Returns the character that caused the failure.
    pub fn offending_char(&self) -> (c: char)
        ensures
            c == self.offending(),
    {
        match self {
            TokenizeError::InvalidCharacter(c) => *c,
        }
    }
}

} // verus!
