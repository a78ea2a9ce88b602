use vstd::prelude::*;

use crate::value::{Value, ValueModel};

verus! {

/// A lexical token of the expression language.
#[derive(Debug, Clone, PartialEq)]
pub enum Token {
    /// `<%`, the start of an expression block.
    BlockStart,
    /// `%>`, the end of an expression block.
    BlockEnd,
    /// A literal: a number, `true`, `false` or a quoted string.
    Value(Value),
    /// A variable reference by name.
    Variable(String),
    Not,
    And,
    Or,
    Plus,
    Minus,
    Mult,
    Div,
    Mod,
    Equals,
    NotEquals,
    GreaterThan,
    GreaterEqualThan,
    LessThan,
    LessEqualThan,
    RoundBracketStart,
    RoundBracketEnd,
    SquareBracketStart,
    SquareBracketEnd,
    Comma,
}

/// The mathematical content of a [`Token`]: a literal's value, a variable's
/// name, or the token itself where it carries nothing.
pub enum TokenModel {
    Literal(ValueModel),
    Name(Seq<char>),
    Symbol(Token),
}

/// The model of a token.
pub open spec fn tmodel(t: Token) -> TokenModel {
    match t {
        Token::Value(v) => TokenModel::Literal(v@),
        Token::Variable(name) => TokenModel::Name(name@),
        _ => TokenModel::Symbol(t),
    }
}

/// Tokens as their models, each with its position in the source text.
pub open spec fn lexemes(tokens: Seq<TokenWithContext>) -> Seq<(TokenModel, usize)> {
    Seq::new(tokens.len(), |i: int| (tmodel(tokens[i].token), tokens[i].position))
}

impl Token {
    /// A copy of the token.
    pub fn duplicate(&self) -> (r: Token)
        ensures
            tmodel(r) == tmodel(*self),
    {
        match self {
            Token::BlockStart => Token::BlockStart,
            Token::BlockEnd => Token::BlockEnd,
            Token::Value(v) => Token::Value(v.duplicate()),
            Token::Variable(name) => Token::Variable(name.clone()),
            Token::Not => Token::Not,
            Token::And => Token::And,
            Token::Or => Token::Or,
            Token::Plus => Token::Plus,
            Token::Minus => Token::Minus,
            Token::Mult => Token::Mult,
            Token::Div => Token::Div,
            Token::Mod => Token::Mod,
            Token::Equals => Token::Equals,
            Token::NotEquals => Token::NotEquals,
            Token::GreaterThan => Token::GreaterThan,
            Token::GreaterEqualThan => Token::GreaterEqualThan,
            Token::LessThan => Token::LessThan,
            Token::LessEqualThan => Token::LessEqualThan,
            Token::RoundBracketStart => Token::RoundBracketStart,
            Token::RoundBracketEnd => Token::RoundBracketEnd,
            Token::SquareBracketStart => Token::SquareBracketStart,
            Token::SquareBracketEnd => Token::SquareBracketEnd,
            Token::Comma => Token::Comma,
        }
    }
}

/// A token with the character index in the source text where it starts.
#[derive(Debug, Clone, PartialEq)]
pub struct TokenWithContext {
    pub token: Token,
    pub position: usize,
}

impl TokenWithContext {
    /// A token found at `position`.
    pub fn new(token: Token, position: usize) -> (r: Self)
        ensures
            r.token == token,
            r.position == position,
    {
        TokenWithContext { token, position }
    }

    /// A copy of the token and its position.
    pub fn duplicate(&self) -> (r: TokenWithContext)
        ensures
            tmodel(r.token) == tmodel(self.token),
            r.position == self.position,
    {
        TokenWithContext { token: self.token.duplicate(), position: self.position }
    }

    /// The token itself.
    pub fn token(&self) -> (r: &Token)
        ensures
            *r == self.token,
    {
        &self.token
    }
}

/// A sequence of tokens read front to back, with one token of lookahead.
pub struct TokenStream {
    tokens: Vec<TokenWithContext>,
    position: usize,
}

impl TokenStream {
    /// All tokens of the stream, read or not.
    pub closed spec fn tokens(&self) -> Seq<TokenWithContext> {
        self.tokens@
    }

    /// How many tokens have been read.
    pub closed spec fn position(&self) -> nat {
        self.position as nat
    }

    /// The read position lies within the tokens.
    pub open spec fn wf(&self) -> bool {
        self.position() <= self.tokens().len()
    }

    /// A stream positioned before the first of `tokens`.
    pub fn new(tokens: Vec<TokenWithContext>) -> (r: TokenStream)
        ensures
            r.wf(),
            r.tokens() == tokens@,
            r.position() == 0,
    {
        TokenStream { tokens, position: 0 }
    }

    /// The next token, without reading it.
    pub fn peek(&self) -> (r: Option<&TokenWithContext>)
        requires
            self.wf(),
        ensures
            self.position() < self.tokens().len() ==> r == Some(&self.tokens()[self.position() as int]),
            self.position() == self.tokens().len() ==> r is None,
    {
        if self.position < self.tokens.len() {
            Some(&self.tokens[self.position])
        } else {
            None
        }
    }

    /// Reads the next token.
    pub fn next(&mut self) -> (r: Option<TokenWithContext>)
        requires
            old(self).wf(),
        ensures
            final(self).wf(),
            final(self).tokens() == old(self).tokens(),
            old(self).position() < old(self).tokens().len() ==> final(self).position() == old(
                self,
            ).position() + 1,
            old(self).position() < old(self).tokens().len() ==> (r matches Some(t) && tmodel(t.token)
                == tmodel(old(self).tokens()[old(self).position() as int].token) && t.position
                == old(self).tokens()[old(self).position() as int].position),
            old(self).position() == old(self).tokens().len() ==> r is None && final(self).position()
                == old(self).position(),
    {
        if self.position < self.tokens.len() {
            let t = self.tokens[self.position].duplicate();
            self.position = self.position + 1;
            Some(t)
        } else {
            None
        }
    }

    /// The tokens as a vector, with the read position.
    pub fn parts(&self) -> (r: (&Vec<TokenWithContext>, usize))
        requires
            self.wf(),
        ensures
            r.0@ == self.tokens(),
            r.1 == self.position(),
            r.1 <= r.0@.len(),
    {
        (&self.tokens, self.position)
    }

    /// Moves the read position forward to `position`.
    pub fn advance_to(&mut self, position: usize)
        requires
            old(self).wf(),
            old(self).position() <= position <= old(self).tokens().len(),
        ensures
            final(self).wf(),
            final(self).tokens() == old(self).tokens(),
            final(self).position() == position,
    {
        self.position = position;
    }
}

} // verus!
