//! Tokens as the lexer hands them to the parser.
use vstd::prelude::*;

verus! {

/// Line and column of a token in the source text.
pub type Span = (usize, usize);

/// The kind of PHP open tag that started a code section.
#[derive(Debug, PartialEq, Eq, Clone, Copy)]
pub enum OpenTagKind {
    Full,
    Short,
    Echo,
}

/// What a token is, with the text or value it carries.
#[derive(Debug, PartialEq)]
pub enum TokenKind {
    Abstract,
    Ampersand,
    Arrow,
    As,
    Asterisk,
    Bang,
    Class,
    CloseTag,
    Colon,
    Comma,
    Comment(String),
    Const,
    Dot,
    DoubleArrow,
    DoubleColon,
    Echo,
    Else,
    ElseIf,
    Eof,
    Equals,
    Extends,
    False,
    Final,
    For,
    Foreach,
    FullyQualifiedIdentifier(String),
    Function,
    GreaterThan,
    Identifier(String),
    If,
    Implements,
    InlineHtml(String),
    Int(i64),
    LeftBrace,
    LeftBracket,
    LeftParen,
    LessThan,
    LiteralString(String),
    Minus,
    Namespace,
    New,
    Null,
    OpenTag(OpenTagKind),
    Pipe,
    Plus,
    Private,
    Protected,
    Public,
    QualifiedIdentifier(String),
    Question,
    Return,
    RightBrace,
    RightBracket,
    RightParen,
    SemiColon,
    Slash,
    Static,
    True,
    Use,
    Var,
    Variable(String),
    While,
}

/// A token: its kind and where it starts in the source.
#[derive(Debug, PartialEq)]
pub struct Token {
    pub kind: TokenKind,
    pub span: Span,
}

impl Clone for TokenKind {
    fn clone(&self) -> (k: TokenKind)
        ensures
            k == *self,
    {
        match self {
            TokenKind::Abstract => TokenKind::Abstract,
            TokenKind::Ampersand => TokenKind::Ampersand,
            TokenKind::Arrow => TokenKind::Arrow,
            TokenKind::As => TokenKind::As,
            TokenKind::Asterisk => TokenKind::Asterisk,
            TokenKind::Bang => TokenKind::Bang,
            TokenKind::Class => TokenKind::Class,
            TokenKind::CloseTag => TokenKind::CloseTag,
            TokenKind::Colon => TokenKind::Colon,
            TokenKind::Comma => TokenKind::Comma,
            TokenKind::Comment(s) => TokenKind::Comment(s.clone()),
            TokenKind::Const => TokenKind::Const,
            TokenKind::Dot => TokenKind::Dot,
            TokenKind::DoubleArrow => TokenKind::DoubleArrow,
            TokenKind::DoubleColon => TokenKind::DoubleColon,
            TokenKind::Echo => TokenKind::Echo,
            TokenKind::Else => TokenKind::Else,
            TokenKind::ElseIf => TokenKind::ElseIf,
            TokenKind::Eof => TokenKind::Eof,
            TokenKind::Equals => TokenKind::Equals,
            TokenKind::Extends => TokenKind::Extends,
            TokenKind::False => TokenKind::False,
            TokenKind::Final => TokenKind::Final,
            TokenKind::For => TokenKind::For,
            TokenKind::Foreach => TokenKind::Foreach,
            TokenKind::FullyQualifiedIdentifier(s) => TokenKind::FullyQualifiedIdentifier(s.clone()),
            TokenKind::Function => TokenKind::Function,
            TokenKind::GreaterThan => TokenKind::GreaterThan,
            TokenKind::Identifier(s) => TokenKind::Identifier(s.clone()),
            TokenKind::If => TokenKind::If,
            TokenKind::Implements => TokenKind::Implements,
            TokenKind::InlineHtml(s) => TokenKind::InlineHtml(s.clone()),
            TokenKind::Int(x) => TokenKind::Int(*x),
            TokenKind::LeftBrace => TokenKind::LeftBrace,
            TokenKind::LeftBracket => TokenKind::LeftBracket,
            TokenKind::LeftParen => TokenKind::LeftParen,
            TokenKind::LessThan => TokenKind::LessThan,
            TokenKind::LiteralString(s) => TokenKind::LiteralString(s.clone()),
            TokenKind::Minus => TokenKind::Minus,
            TokenKind::Namespace => TokenKind::Namespace,
            TokenKind::New => TokenKind::New,
            TokenKind::Null => TokenKind::Null,
            TokenKind::OpenTag(x) => TokenKind::OpenTag(*x),
            TokenKind::Pipe => TokenKind::Pipe,
            TokenKind::Plus => TokenKind::Plus,
            TokenKind::Private => TokenKind::Private,
            TokenKind::Protected => TokenKind::Protected,
            TokenKind::Public => TokenKind::Public,
            TokenKind::QualifiedIdentifier(s) => TokenKind::QualifiedIdentifier(s.clone()),
            TokenKind::Question => TokenKind::Question,
            TokenKind::Return => TokenKind::Return,
            TokenKind::RightBrace => TokenKind::RightBrace,
            TokenKind::RightBracket => TokenKind::RightBracket,
            TokenKind::RightParen => TokenKind::RightParen,
            TokenKind::SemiColon => TokenKind::SemiColon,
            TokenKind::Slash => TokenKind::Slash,
            TokenKind::Static => TokenKind::Static,
            TokenKind::True => TokenKind::True,
            TokenKind::Use => TokenKind::Use,
            TokenKind::Var => TokenKind::Var,
            TokenKind::Variable(s) => TokenKind::Variable(s.clone()),
            TokenKind::While => TokenKind::While,
        }
    }
}

impl Clone for Token {
    fn clone(&self) -> (t: Token)
        ensures
            t == *self,
    {
        Token { kind: self.kind.clone(), span: self.span }
    }
}

/// The token that stands for the end of the input.
pub open spec fn eof_token() -> Token {
    Token { kind: TokenKind::Eof, span: (0, 0) }
}

impl Default for Token {
    fn default() -> (t: Token)
        ensures
            t == eof_token(),
    {
        Token { kind: TokenKind::Eof, span: (0, 0) }
    }
}

/// The token at index `i` of the stream; past either end it is the end-of-input token.
pub open spec fn token_at(toks: Seq<Token>, i: int) -> Token {
    if 0 <= i < toks.len() {
        toks[i]
    } else {
        eof_token()
    }
}

/// The kind of the token at index `i`.
pub open spec fn kind_at(toks: Seq<Token>, i: int) -> TokenKind {
    token_at(toks, i).kind
}

/// The span of the token at index `i`.
pub open spec fn span_at(toks: Seq<Token>, i: int) -> Span {
    token_at(toks, i).span
}

/// The position after consuming the token at `i`: the end of the stream is never passed.
pub open spec fn step(toks: Seq<Token>, i: int) -> int {
    if i < toks.len() {
        i + 1
    } else {
        i
    }
}

/// The text of a name that may be qualified or fully qualified.
pub open spec fn any_name_of(k: TokenKind) -> Option<Seq<char>> {
    match k {
        TokenKind::Identifier(s) => Some(s@),
        TokenKind::QualifiedIdentifier(s) => Some(s@),
        TokenKind::FullyQualifiedIdentifier(s) => Some(s@),
        _ => None,
    }
}

/// The text of a name that may be qualified but not fully qualified.
pub open spec fn namespace_name_of(k: TokenKind) -> Option<Seq<char>> {
    match k {
        TokenKind::Identifier(s) => Some(s@),
        TokenKind::QualifiedIdentifier(s) => Some(s@),
        _ => None,
    }
}

/// The text of an unqualified name.
pub open spec fn plain_name_of(k: TokenKind) -> Option<Seq<char>> {
    match k {
        TokenKind::Identifier(s) => Some(s@),
        _ => None,
    }
}

/// The name of a variable, without its `$`.
pub open spec fn variable_name_of(k: TokenKind) -> Option<Seq<char>> {
    match k {
        TokenKind::Variable(s) => Some(s@),
        _ => None,
    }
}

/// The characters of an optional string.
pub open spec fn opt_text(o: Option<String>) -> Option<Seq<char>> {
    match o {
        Some(s) => Some(s@),
        None => None,
    }
}

impl TokenKind {
    /// The name this token holds, qualified or not.
    pub fn any_name(&self) -> (r: Option<String>)
        ensures
            opt_text(r) == any_name_of(*self),
    {
        match self {
            TokenKind::Identifier(s) => Some(s.clone()),
            TokenKind::QualifiedIdentifier(s) => Some(s.clone()),
            TokenKind::FullyQualifiedIdentifier(s) => Some(s.clone()),
            _ => None,
        }
    }

    /// The name this token holds, if it is not fully qualified.
    pub fn namespace_name(&self) -> (r: Option<String>)
        ensures
            opt_text(r) == namespace_name_of(*self),
    {
        match self {
            TokenKind::Identifier(s) => Some(s.clone()),
            TokenKind::QualifiedIdentifier(s) => Some(s.clone()),
            _ => None,
        }
    }

    /// The name this token holds, if it is unqualified.
    pub fn plain_name(&self) -> (r: Option<String>)
        ensures
            opt_text(r) == plain_name_of(*self),
    {
        match self {
            TokenKind::Identifier(s) => Some(s.clone()),
            _ => None,
        }
    }

    /// The variable name this token holds.
    pub fn variable_name(&self) -> (r: Option<String>)
        ensures
            opt_text(r) == variable_name_of(*self),
    {
        match self {
            TokenKind::Variable(s) => Some(s.clone()),
            _ => None,
        }
    }
}

} // verus!
