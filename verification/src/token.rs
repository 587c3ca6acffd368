use vstd::prelude::*;

verus! {

/// What a token is. `Str` carries the text between the quotes; `Num` carries
/// the decimal text of the number, `digits` or `digits.digits`.
#[derive(Debug)]
pub enum TokenType<'a> {
    LeftParen,
    RightParen,
    LeftBrace,
    RightBrace,
    Comma,
    Dot,
    Minus,
    Plus,
    Semicolon,
    Slash,
    Star,
    Bang,
    BangEqual,
    Equal,
    EqualEqual,
    Greater,
    GreaterEqual,
    Less,
    LessEqual,
    Id,
    Str(&'a str),
    Num(&'a str),
    And,
    Class,
    Else,
    False,
    Fun,
    For,
    If,
    Nil,
    Or,
    Print,
    Return,
    Super,
    This,
    True,
    Var,
    While,
    EOF,
}

/// Mathematical model of a [`TokenType`]: the same variants over sequences
/// of characters.
pub enum TokenKind {
    LeftParen,
    RightParen,
    LeftBrace,
    RightBrace,
    Comma,
    Dot,
    Minus,
    Plus,
    Semicolon,
    Slash,
    Star,
    Bang,
    BangEqual,
    Equal,
    EqualEqual,
    Greater,
    GreaterEqual,
    Less,
    LessEqual,
    Id,
    Str(Seq<char>),
    Num(Seq<char>),
    And,
    Class,
    Else,
    False,
    Fun,
    For,
    If,
    Nil,
    Or,
    Print,
    Return,
    Super,
    This,
    True,
    Var,
    While,
    EOF,
}

impl TokenKind {
    /// Position of the variant in the declaration; payloads play no part.
    pub open spec fn ordinal(self) -> int {
        match self {
            TokenKind::LeftParen => 0int,
            TokenKind::RightParen => 1int,
            TokenKind::LeftBrace => 2int,
            TokenKind::RightBrace => 3int,
            TokenKind::Comma => 4int,
            TokenKind::Dot => 5int,
            TokenKind::Minus => 6int,
            TokenKind::Plus => 7int,
            TokenKind::Semicolon => 8int,
            TokenKind::Slash => 9int,
            TokenKind::Star => 10int,
            TokenKind::Bang => 11int,
            TokenKind::BangEqual => 12int,
            TokenKind::Equal => 13int,
            TokenKind::EqualEqual => 14int,
            TokenKind::Greater => 15int,
            TokenKind::GreaterEqual => 16int,
            TokenKind::Less => 17int,
            TokenKind::LessEqual => 18int,
            TokenKind::Id => 19int,
            TokenKind::Str(_) => 20int,
            TokenKind::Num(_) => 21int,
            TokenKind::And => 22int,
            TokenKind::Class => 23int,
            TokenKind::Else => 24int,
            TokenKind::False => 25int,
            TokenKind::Fun => 26int,
            TokenKind::For => 27int,
            TokenKind::If => 28int,
            TokenKind::Nil => 29int,
            TokenKind::Or => 30int,
            TokenKind::Print => 31int,
            TokenKind::Return => 32int,
            TokenKind::Super => 33int,
            TokenKind::This => 34int,
            TokenKind::True => 35int,
            TokenKind::Var => 36int,
            TokenKind::While => 37int,
            TokenKind::EOF => 38int,
        }
    }

    /// Same variant, whatever the payloads.
    pub open spec fn same_kind(self, other: TokenKind) -> bool {
        self.ordinal() == other.ordinal()
    }
}

impl<'a> View for TokenType<'a> {
    type V = TokenKind;

    open spec fn view(&self) -> TokenKind {
        match self {
            TokenType::LeftParen => TokenKind::LeftParen,
            TokenType::RightParen => TokenKind::RightParen,
            TokenType::LeftBrace => TokenKind::LeftBrace,
            TokenType::RightBrace => TokenKind::RightBrace,
            TokenType::Comma => TokenKind::Comma,
            TokenType::Dot => TokenKind::Dot,
            TokenType::Minus => TokenKind::Minus,
            TokenType::Plus => TokenKind::Plus,
            TokenType::Semicolon => TokenKind::Semicolon,
            TokenType::Slash => TokenKind::Slash,
            TokenType::Star => TokenKind::Star,
            TokenType::Bang => TokenKind::Bang,
            TokenType::BangEqual => TokenKind::BangEqual,
            TokenType::Equal => TokenKind::Equal,
            TokenType::EqualEqual => TokenKind::EqualEqual,
            TokenType::Greater => TokenKind::Greater,
            TokenType::GreaterEqual => TokenKind::GreaterEqual,
            TokenType::Less => TokenKind::Less,
            TokenType::LessEqual => TokenKind::LessEqual,
            TokenType::Id => TokenKind::Id,
            TokenType::Str(s) => TokenKind::Str(s@),
            TokenType::Num(s) => TokenKind::Num(s@),
            TokenType::And => TokenKind::And,
            TokenType::Class => TokenKind::Class,
            TokenType::Else => TokenKind::Else,
            TokenType::False => TokenKind::False,
            TokenType::Fun => TokenKind::Fun,
            TokenType::For => TokenKind::For,
            TokenType::If => TokenKind::If,
            TokenType::Nil => TokenKind::Nil,
            TokenType::Or => TokenKind::Or,
            TokenType::Print => TokenKind::Print,
            TokenType::Return => TokenKind::Return,
            TokenType::Super => TokenKind::Super,
            TokenType::This => TokenKind::This,
            TokenType::True => TokenKind::True,
            TokenType::Var => TokenKind::Var,
            TokenType::While => TokenKind::While,
            TokenType::EOF => TokenKind::EOF,
        }
    }
}

impl<'a> TokenType<'a> {
    /// Position of the variant in the declaration.
    pub fn ordinal(&self) -> (n: u8)
        ensures
            n == self@.ordinal(),
    {
        match self {
            TokenType::LeftParen => 0u8,
            TokenType::RightParen => 1u8,
            TokenType::LeftBrace => 2u8,
            TokenType::RightBrace => 3u8,
            TokenType::Comma => 4u8,
            TokenType::Dot => 5u8,
            TokenType::Minus => 6u8,
            TokenType::Plus => 7u8,
            TokenType::Semicolon => 8u8,
            TokenType::Slash => 9u8,
            TokenType::Star => 10u8,
            TokenType::Bang => 11u8,
            TokenType::BangEqual => 12u8,
            TokenType::Equal => 13u8,
            TokenType::EqualEqual => 14u8,
            TokenType::Greater => 15u8,
            TokenType::GreaterEqual => 16u8,
            TokenType::Less => 17u8,
            TokenType::LessEqual => 18u8,
            TokenType::Id => 19u8,
            TokenType::Str(_) => 20u8,
            TokenType::Num(_) => 21u8,
            TokenType::And => 22u8,
            TokenType::Class => 23u8,
            TokenType::Else => 24u8,
            TokenType::False => 25u8,
            TokenType::Fun => 26u8,
            TokenType::For => 27u8,
            TokenType::If => 28u8,
            TokenType::Nil => 29u8,
            TokenType::Or => 30u8,
            TokenType::Print => 31u8,
            TokenType::Return => 32u8,
            TokenType::Super => 33u8,
            TokenType::This => 34u8,
            TokenType::True => 35u8,
            TokenType::Var => 36u8,
            TokenType::While => 37u8,
            TokenType::EOF => 38u8,
        }
    }

    /// Compares two kinds by variant alone.
    pub fn same_kind(&self, other: &TokenType) -> (b: bool)
        ensures
            b == self@.same_kind(other@),
    {
        self.ordinal() == other.ordinal()
    }
}

/// A classified piece of source text.
#[derive(Debug)]
pub struct Token<'a> {
    pub t: TokenType<'a>,
    pub lexeme: &'a str,
    pub line: usize,
}

/// Mathematical model of a [`Token`].
pub struct TokenView {
    pub kind: TokenKind,
    pub lexeme: Seq<char>,
    pub line: nat,
}

impl<'a> View for Token<'a> {
    type V = TokenView;

    open spec fn view(&self) -> TokenView {
        TokenView { kind: self.t@, lexeme: self.lexeme@, line: self.line as nat }
    }
}

impl<'a> Token<'a> {
    /// A token of kind `t` for the lexeme `lexeme` on line `line`.
    pub fn new(t: TokenType<'a>, lexeme: &'a str, line: usize) -> (r: Self)
        ensures
            r@ == (TokenView { kind: t@, lexeme: lexeme@, line: line as nat }),
            r.t == t,
            r.lexeme == lexeme,
            r.line == line,
    {
        Self { t, lexeme, line }
    }
}

/// A token sequence that a parser can walk: its last token is an end marker.
pub open spec fn closed(toks: Seq<TokenView>) -> bool {
    toks.len() > 0 && toks.last().kind == TokenKind::EOF
}

/// Model of a token vector.
pub open spec fn token_views(tokens: Seq<Token>) -> Seq<TokenView> {
    Seq::new(tokens.len(), |i: int| tokens[i]@)
}

/// Models of borrowed tokens.
pub open spec fn borrowed_views(tokens: Seq<&Token>) -> Seq<TokenView> {
    Seq::new(tokens.len(), |i: int| tokens[i]@)
}

} // verus!
