use vstd::prelude::*;

verus! {

/// Every token kind the classifier can produce: identifiers, typed literal
/// readings, one kind per supported punctuation mark, the marker for a
/// delimiter-less grouping, and a catch-all for literals no heuristic reads.
#[derive(Debug, PartialEq)]
pub enum Token {
    /// An identifier, holding its text.
    Ident(String),
    /// An integer read from a decimal or hexadecimal literal.
    Integer(i128),
    /// A 64-bit floating value, held as its raw bit pattern; this crate
    /// carries floating values only in that form.
    Float(u64),
    /// A byte character literal, `b'a'`.
    ByteChar(char),
    /// A character literal, `'a'`.
    Char(char),
    /// A byte string literal, `b"hello"`.
    ByteString(String),
    /// A string literal, `"hello"`.
    String(String),
    /// `+`
    Plus,
    /// `-`
    Minus,
    /// `/`
    Slash,
    /// `*`
    Star,
    /// `@`
    At,
    /// `&`
    Ampersand,
    /// `;`
    Semi,
    /// `:`
    Colon,
    /// `>`
    GreaterThan,
    /// `<`
    LessThan,
    /// `{`
    OpenBrace,
    /// `}`
    CloseBrace,
    /// `[`
    OpenBracket,
    /// `]`
    CloseBracket,
    /// `(`
    OpenParen,
    /// `)`
    CloseParen,
    /// `,`
    Comma,
    /// `'`
    SingleQuote,
    /// `"`
    DoubleQuote,
    /// `!`
    Bang,
    /// `?`
    Question,
    /// `.`
    Dot,
    /// `~`
    Tilde,
    /// `%`
    Percent,
    /// `^`
    Caret,
    /// `|`
    Pipe,
    /// `#`
    Hash,
    /// `$`
    Dollar,
    /// `=`
    Equal,
    /// The open and close marker of a grouping that has no printed
    /// delimiter character.
    NoDelim,
    /// A literal that no reading heuristic recognized, holding its raw text.
    Literal(String),
}

/// The mathematical model of a `Token`: the same kinds, with text held as a
/// sequence of characters.
pub enum TokenV {
    Ident(Seq<char>),
    Integer(i128),
    Float(u64),
    ByteChar(char),
    Char(char),
    ByteString(Seq<char>),
    String(Seq<char>),
    Plus,
    Minus,
    Slash,
    Star,
    At,
    Ampersand,
    Semi,
    Colon,
    GreaterThan,
    LessThan,
    OpenBrace,
    CloseBrace,
    OpenBracket,
    CloseBracket,
    OpenParen,
    CloseParen,
    Comma,
    SingleQuote,
    DoubleQuote,
    Bang,
    Question,
    Dot,
    Tilde,
    Percent,
    Caret,
    Pipe,
    Hash,
    Dollar,
    Equal,
    NoDelim,
    Literal(Seq<char>),
}

impl View for Token {
    type V = TokenV;

    open spec fn view(&self) -> TokenV {
        match self {
            Token::Ident(s) => TokenV::Ident(s@),
            Token::Integer(v) => TokenV::Integer(*v),
            Token::Float(b) => TokenV::Float(*b),
            Token::ByteChar(c) => TokenV::ByteChar(*c),
            Token::Char(c) => TokenV::Char(*c),
            Token::ByteString(s) => TokenV::ByteString(s@),
            Token::String(s) => TokenV::String(s@),
            Token::Plus => TokenV::Plus,
            Token::Minus => TokenV::Minus,
            Token::Slash => TokenV::Slash,
            Token::Star => TokenV::Star,
            Token::At => TokenV::At,
            Token::Ampersand => TokenV::Ampersand,
            Token::Semi => TokenV::Semi,
            Token::Colon => TokenV::Colon,
            Token::GreaterThan => TokenV::GreaterThan,
            Token::LessThan => TokenV::LessThan,
            Token::OpenBrace => TokenV::OpenBrace,
            Token::CloseBrace => TokenV::CloseBrace,
            Token::OpenBracket => TokenV::OpenBracket,
            Token::CloseBracket => TokenV::CloseBracket,
            Token::OpenParen => TokenV::OpenParen,
            Token::CloseParen => TokenV::CloseParen,
            Token::Comma => TokenV::Comma,
            Token::SingleQuote => TokenV::SingleQuote,
            Token::DoubleQuote => TokenV::DoubleQuote,
            Token::Bang => TokenV::Bang,
            Token::Question => TokenV::Question,
            Token::Dot => TokenV::Dot,
            Token::Tilde => TokenV::Tilde,
            Token::Percent => TokenV::Percent,
            Token::Caret => TokenV::Caret,
            Token::Pipe => TokenV::Pipe,
            Token::Hash => TokenV::Hash,
            Token::Dollar => TokenV::Dollar,
            Token::Equal => TokenV::Equal,
            Token::NoDelim => TokenV::NoDelim,
            Token::Literal(s) => TokenV::Literal(s@),
        }
    }
}

impl Clone for Token {
    fn clone(&self) -> (r: Self)
        ensures
            r == *self,
    {
        match self {
            Token::Ident(s) => Token::Ident(s.clone()),
            Token::Integer(v) => Token::Integer(*v),
            Token::Float(b) => Token::Float(*b),
            Token::ByteChar(c) => Token::ByteChar(*c),
            Token::Char(c) => Token::Char(*c),
            Token::ByteString(s) => Token::ByteString(s.clone()),
            Token::String(s) => Token::String(s.clone()),
            Token::Plus => Token::Plus,
            Token::Minus => Token::Minus,
            Token::Slash => Token::Slash,
            Token::Star => Token::Star,
            Token::At => Token::At,
            Token::Ampersand => Token::Ampersand,
            Token::Semi => Token::Semi,
            Token::Colon => Token::Colon,
            Token::GreaterThan => Token::GreaterThan,
            Token::LessThan => Token::LessThan,
            Token::OpenBrace => Token::OpenBrace,
            Token::CloseBrace => Token::CloseBrace,
            Token::OpenBracket => Token::OpenBracket,
            Token::CloseBracket => Token::CloseBracket,
            Token::OpenParen => Token::OpenParen,
            Token::CloseParen => Token::CloseParen,
            Token::Comma => Token::Comma,
            Token::SingleQuote => Token::SingleQuote,
            Token::DoubleQuote => Token::DoubleQuote,
            Token::Bang => Token::Bang,
            Token::Question => Token::Question,
            Token::Dot => Token::Dot,
            Token::Tilde => Token::Tilde,
            Token::Percent => Token::Percent,
            Token::Caret => Token::Caret,
            Token::Pipe => Token::Pipe,
            Token::Hash => Token::Hash,
            Token::Dollar => Token::Dollar,
            Token::Equal => Token::Equal,
            Token::NoDelim => Token::NoDelim,
            Token::Literal(s) => Token::Literal(s.clone()),
        }
    }
}

/// A `Token` paired with the source location it came from. The span is an
/// opaque handle owned by the host tokenizer; it is carried through, never
/// inspected.
#[derive(Debug)]
pub struct SpannedToken {
    pub token: Token,
    pub span: proc_macro2::Span,
}

/// The model of a `SpannedToken`: the token's model beside the same span.
pub struct SpannedTokenV {
    pub token: TokenV,
    pub span: proc_macro2::Span,
}

impl View for SpannedToken {
    type V = SpannedTokenV;

    open spec fn view(&self) -> SpannedTokenV {
        SpannedTokenV { token: self.token@, span: self.span }
    }
}

impl Clone for SpannedToken {
    fn clone(&self) -> (r: Self)
        ensures
            r == *self,
    {
        SpannedToken { token: self.token.clone(), span: self.span }
    }
}

impl SpannedToken {
    /// The token held by this spanned token.
    pub fn token(&self) -> (r: &Token)
        ensures
            *r == self.token,
    {
        &self.token
    }

    /// The source location this token came from.
    pub fn span(&self) -> (r: &proc_macro2::Span)
        ensures
            *r == self.span,
    {
        &self.span
    }
}

} // verus!
