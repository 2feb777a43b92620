use vstd::prelude::*;

verus! {

/// The kind of a token, without the text that a literal carries.
#[derive(Clone, Copy, Debug, PartialEq, Eq, Structural)]
pub enum TokenKind {
    // Single-character tokens.
    LeftParen,
    RightParen,
    LeftBrace,
    RightBrace,
    Comma,
    Dot,
    Minus,
    Plus,
    Semicolon,
    Slash,
    Star,
    // One or two character tokens.
    Bang,
    BangEqual,
    Equal,
    EqualEqual,
    Greater,
    GreaterEqual,
    Less,
    LessEqual,
    // Literals.
    Identifier,
    String,
    Number,
    // Keywords.
    And,
    Class,
    Else,
    False,
    Func,
    For,
    If,
    Nil,
    Or,
    Print,
    Return,
    Super,
    This,
    True,
    Var,
    While,
    Let,
    Eof,
}

/// The type of a token. A string literal carries its text without the quotes;
/// a number literal carries its decimal digits as written in the source.
#[derive(Clone, Debug)]
pub enum TokenType {
    // Single-character tokens.
    LeftParen,
    RightParen,
    LeftBrace,
    RightBrace,
    Comma,
    Dot,
    Minus,
    Plus,
    Semicolon,
    Slash,
    Star,
    // One or two character tokens.
    Bang,
    BangEqual,
    Equal,
    EqualEqual,
    Greater,
    GreaterEqual,
    Less,
    LessEqual,
    // Literals.
    Identifier,
    String(String),
    Number(String),
    // Keywords.
    And,
    Class,
    Else,
    False,
    Func,
    For,
    If,
    Nil,
    Or,
    Print,
    Return,
    Super,
    This,
    True,
    Var,
    While,
    Let,
    Eof,
}

/// A token type as a mathematical value: its kind and, for a literal, its text.
pub struct TokenTypeView {
    pub kind: TokenKind,
    pub text: Seq<char>,
}

/// A token type that carries no text.
pub open spec fn plain(kind: TokenKind) -> TokenTypeView {
    TokenTypeView { kind, text: Seq::empty() }
}

impl View for TokenType {
    type V = TokenTypeView;

    open spec fn view(&self) -> TokenTypeView {
        match self {
            TokenType::String(s) => TokenTypeView { kind: TokenKind::String, text: s@ },
            TokenType::Number(s) => TokenTypeView { kind: TokenKind::Number, text: s@ },
            _ => plain(self.spec_kind()),
        }
    }
}

impl TokenType {
    pub open spec fn spec_kind(&self) -> TokenKind {
        match self {
            TokenType::LeftParen => TokenKind::LeftParen,
            TokenType::RightParen => TokenKind::RightParen,
            TokenType::LeftBrace => TokenKind::LeftBrace,
            TokenType::RightBrace => TokenKind::RightBrace,
            TokenType::Comma => TokenKind::Comma,
            TokenType::Dot => TokenKind::Dot,
            TokenType::Minus => TokenKind::Minus,
            TokenType::Plus => TokenKind::Plus,
            TokenType::Semicolon => TokenKind::Semicolon,
            TokenType::Slash => TokenKind::Slash,
            TokenType::Star => TokenKind::Star,
            TokenType::Bang => TokenKind::Bang,
            TokenType::BangEqual => TokenKind::BangEqual,
            TokenType::Equal => TokenKind::Equal,
            TokenType::EqualEqual => TokenKind::EqualEqual,
            TokenType::Greater => TokenKind::Greater,
            TokenType::GreaterEqual => TokenKind::GreaterEqual,
            TokenType::Less => TokenKind::Less,
            TokenType::LessEqual => TokenKind::LessEqual,
            TokenType::Identifier => TokenKind::Identifier,
            TokenType::String(_) => TokenKind::String,
            TokenType::Number(_) => TokenKind::Number,
            TokenType::And => TokenKind::And,
            TokenType::Class => TokenKind::Class,
            TokenType::Else => TokenKind::Else,
            TokenType::False => TokenKind::False,
            TokenType::Func => TokenKind::Func,
            TokenType::For => TokenKind::For,
            TokenType::If => TokenKind::If,
            TokenType::Nil => TokenKind::Nil,
            TokenType::Or => TokenKind::Or,
            TokenType::Print => TokenKind::Print,
            TokenType::Return => TokenKind::Return,
            TokenType::Super => TokenKind::Super,
            TokenType::This => TokenKind::This,
            TokenType::True => TokenKind::True,
            TokenType::Var => TokenKind::Var,
            TokenType::While => TokenKind::While,
            TokenType::Let => TokenKind::Let,
            TokenType::Eof => TokenKind::Eof,
        }
    }

    /// The kind of this token type.
    #[verifier::when_used_as_spec(spec_kind)]
    pub fn kind(&self) -> (k: TokenKind)
        ensures
            k == self.spec_kind(),
            k == self@.kind,
    {
        match self {
            TokenType::LeftParen => TokenKind::LeftParen,
            TokenType::RightParen => TokenKind::RightParen,
            TokenType::LeftBrace => TokenKind::LeftBrace,
            TokenType::RightBrace => TokenKind::RightBrace,
            TokenType::Comma => TokenKind::Comma,
            TokenType::Dot => TokenKind::Dot,
            TokenType::Minus => TokenKind::Minus,
            TokenType::Plus => TokenKind::Plus,
            TokenType::Semicolon => TokenKind::Semicolon,
            TokenType::Slash => TokenKind::Slash,
            TokenType::Star => TokenKind::Star,
            TokenType::Bang => TokenKind::Bang,
            TokenType::BangEqual => TokenKind::BangEqual,
            TokenType::Equal => TokenKind::Equal,
            TokenType::EqualEqual => TokenKind::EqualEqual,
            TokenType::Greater => TokenKind::Greater,
            TokenType::GreaterEqual => TokenKind::GreaterEqual,
            TokenType::Less => TokenKind::Less,
            TokenType::LessEqual => TokenKind::LessEqual,
            TokenType::Identifier => TokenKind::Identifier,
            TokenType::String(_) => TokenKind::String,
            TokenType::Number(_) => TokenKind::Number,
            TokenType::And => TokenKind::And,
            TokenType::Class => TokenKind::Class,
            TokenType::Else => TokenKind::Else,
            TokenType::False => TokenKind::False,
            TokenType::Func => TokenKind::Func,
            TokenType::For => TokenKind::For,
            TokenType::If => TokenKind::If,
            TokenType::Nil => TokenKind::Nil,
            TokenType::Or => TokenKind::Or,
            TokenType::Print => TokenKind::Print,
            TokenType::Return => TokenKind::Return,
            TokenType::Super => TokenKind::Super,
            TokenType::This => TokenKind::This,
            TokenType::True => TokenKind::True,
            TokenType::Var => TokenKind::Var,
            TokenType::While => TokenKind::While,
            TokenType::Let => TokenKind::Let,
            TokenType::Eof => TokenKind::Eof,
        }
    }

    /// The token type of the given kind that carries no text; `None` for the literal kinds
    /// `String` and `Number`, which need their text.
    pub fn from_kind(kind: TokenKind) -> (t: Option<TokenType>)
        ensures
            match t {
                Some(t) => kind != TokenKind::String && kind != TokenKind::Number && t@ == plain(kind),
                None => kind == TokenKind::String || kind == TokenKind::Number,
            },
    {
        match kind {
            TokenKind::LeftParen => Some(TokenType::LeftParen),
            TokenKind::RightParen => Some(TokenType::RightParen),
            TokenKind::LeftBrace => Some(TokenType::LeftBrace),
            TokenKind::RightBrace => Some(TokenType::RightBrace),
            TokenKind::Comma => Some(TokenType::Comma),
            TokenKind::Dot => Some(TokenType::Dot),
            TokenKind::Minus => Some(TokenType::Minus),
            TokenKind::Plus => Some(TokenType::Plus),
            TokenKind::Semicolon => Some(TokenType::Semicolon),
            TokenKind::Slash => Some(TokenType::Slash),
            TokenKind::Star => Some(TokenType::Star),
            TokenKind::Bang => Some(TokenType::Bang),
            TokenKind::BangEqual => Some(TokenType::BangEqual),
            TokenKind::Equal => Some(TokenType::Equal),
            TokenKind::EqualEqual => Some(TokenType::EqualEqual),
            TokenKind::Greater => Some(TokenType::Greater),
            TokenKind::GreaterEqual => Some(TokenType::GreaterEqual),
            TokenKind::Less => Some(TokenType::Less),
            TokenKind::LessEqual => Some(TokenType::LessEqual),
            TokenKind::Identifier => Some(TokenType::Identifier),
            TokenKind::String => None,
            TokenKind::Number => None,
            TokenKind::And => Some(TokenType::And),
            TokenKind::Class => Some(TokenType::Class),
            TokenKind::Else => Some(TokenType::Else),
            TokenKind::False => Some(TokenType::False),
            TokenKind::Func => Some(TokenType::Func),
            TokenKind::For => Some(TokenType::For),
            TokenKind::If => Some(TokenType::If),
            TokenKind::Nil => Some(TokenType::Nil),
            TokenKind::Or => Some(TokenType::Or),
            TokenKind::Print => Some(TokenType::Print),
            TokenKind::Return => Some(TokenType::Return),
            TokenKind::Super => Some(TokenType::Super),
            TokenKind::This => Some(TokenType::This),
            TokenKind::True => Some(TokenType::True),
            TokenKind::Var => Some(TokenType::Var),
            TokenKind::While => Some(TokenType::While),
            TokenKind::Let => Some(TokenType::Let),
            TokenKind::Eof => Some(TokenType::Eof),
        }
    }
}

impl PartialEq for TokenType {
    fn eq(&self, other: &TokenType) -> (r: bool) {
        match (self, other) {
            (TokenType::String(a), TokenType::String(b)) => *a == *b,
            (TokenType::Number(a), TokenType::Number(b)) => *a == *b,
            (TokenType::String(_), _) => false,
            (TokenType::Number(_), _) => false,
            (_, TokenType::String(_)) => false,
            (_, TokenType::Number(_)) => false,
            _ => {
                let k1 = self.kind();
                let k2 = other.kind();
                k1 == k2
            },
        }
    }
}

impl vstd::std_specs::cmp::PartialEqSpecImpl for TokenType {
    open spec fn obeys_eq_spec() -> bool {
        true
    }

    open spec fn eq_spec(&self, other: &TokenType) -> bool {
        self@ == other@
    }
}

/// A token: its type, the text it was scanned from, and the line it ends on.
#[derive(Clone, Debug)]
pub struct Token {
    pub token_type: TokenType,
    pub lexeme: String,
    pub line: usize,
}

/// A token as a mathematical value.
pub struct TokenView {
    pub token_type: TokenTypeView,
    pub lexeme: Seq<char>,
    pub line: nat,
}

impl View for Token {
    type V = TokenView;

    open spec fn view(&self) -> TokenView {
        TokenView { token_type: self.token_type@, lexeme: self.lexeme@, line: self.line as nat }
    }
}

/// Two tokens are the same token when they have the same type and the same text; the line
/// they were found on is where they stand, not what they are.
impl PartialEq for Token {
    fn eq(&self, other: &Token) -> (r: bool) {
        self.token_type == other.token_type && self.lexeme == other.lexeme
    }
}

impl vstd::std_specs::cmp::PartialEqSpecImpl for Token {
    open spec fn obeys_eq_spec() -> bool {
        true
    }

    open spec fn eq_spec(&self, other: &Token) -> bool {
        self.token_type@ == other.token_type@ && self.lexeme@ == other.lexeme@
    }
}

impl Token {
    /// A token of the given type whose text is `lexeme`, on line 1.
    pub fn from_str(token_type: TokenType, lexeme: &str) -> (t: Token)
        ensures
            t.token_type == token_type,
            t@.lexeme == lexeme@,
            t.line == 1,
    {
        Token { token_type, lexeme: lexeme.to_string(), line: 1 }
    }

    /// A token of the given type, text and line.
    pub fn new(token_type: TokenType, lexeme: String, line: usize) -> (t: Token)
        ensures
            t.token_type == token_type,
            t.lexeme == lexeme,
            t.line == line,
    {
        Token { token_type, lexeme, line }
    }
}

} // verus!

verus! {

impl TokenType {
    /// A copy of this token type.
    pub fn duplicate(&self) -> (t: TokenType)
        ensures
            t == *self,
    {
        match self {
            TokenType::String(s) => TokenType::String(s.clone()),
            TokenType::Number(s) => TokenType::Number(s.clone()),
            _ => {
                let k = self.kind();
                match TokenType::from_kind(k) {
                    Some(t) => t,
                    None => {
                        assert(false);
                        TokenType::Eof
                    },
                }
            },
        }
    }
}

impl Token {
    /// A copy of this token.
    pub fn duplicate(&self) -> (t: Token)
        ensures
            t == *self,
    {
        Token { token_type: self.token_type.duplicate(), lexeme: self.lexeme.clone(), line: self.line }
    }
}

/// The tokens of a sequence, as mathematical values.
pub open spec fn token_views(v: Seq<Token>) -> Seq<TokenView> {
    v.map_values(|t: Token| t@)
}

/// A copy of a list of tokens.
pub fn duplicate_tokens(v: &Vec<Token>) -> (r: Vec<Token>)
    ensures
        r@ == v@,
{
    let mut r: Vec<Token> = Vec::new();
    let mut i: usize = 0;
    while i < v.len()
        invariant
            i <= v.len(),
            r@ == v@.take(i as int),
        decreases v.len() - i,
    {
        r.push(v[i].duplicate());
        i = i + 1;
        assert(r@ =~= v@.take(i as int));
    }
    assert(v@.take(v.len() as int) =~= v@);
    r
}

} // verus!
