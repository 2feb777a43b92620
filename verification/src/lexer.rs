//! The scanner: turns source text into tokens.
use vstd::prelude::*;
use crate::scan_rules::{
    chars_before, digit_run, eof_token, is_alpha, is_alphanumeric, is_digit, keyword_kind, word_run, lemma_chars_before_bound, lemma_digit_run_bound, lemma_scan_one_len, lex,
    newline_count, number_len, scan_one, scanned_len, Scanned,
};
use crate::token::{duplicate_tokens, plain, token_views, Token, TokenKind, TokenType, TokenTypeView, TokenView};
use crate::{RedbellyError, RedbellyErrorView};
use crate::text::push_char;
use vstd::string::StringExecFns;

verus! {

/// The characters `chars[from..to]` as a string.
fn text_of(chars: &Vec<char>, from: usize, to: usize) -> (s: String)
    requires
        from <= to <= chars.len(),
    ensures
        s@ == chars@.subrange(from as int, to as int),
{
    let mut s = String::new();
    let mut i = from;
    while i < to
        invariant
            from <= i <= to <= chars.len(),
            s@ == chars@.subrange(from as int, i as int),
        decreases to - i,
    {
        push_char(&mut s, chars[i]);
        i = i + 1;
        assert(s@ =~= chars@.subrange(from as int, i as int));
    }
    s
}

pub struct Lexer {
    source: Vec<char>,
    tokens: Vec<Token>,
    index: usize,
    line: usize,
    start: usize,
}

/// The state of a scanner: the text, the tokens found so far, the position of the next
/// character to read and the current line.
pub struct LexerView {
    pub source: Seq<char>,
    pub tokens: Seq<TokenView>,
    pub index: nat,
    pub line: nat,
}

impl View for Lexer {
    type V = LexerView;

    closed spec fn view(&self) -> LexerView {
        LexerView {
            source: self.source@,
            tokens: token_views(self.tokens@),
            index: self.index as nat,
            line: self.line as nat,
        }
    }
}

/// What one scanning step from `before` does, as `scan_one` says.
pub open spec fn step_taken(
    before: LexerView,
    after: LexerView,
    r: Result<(), RedbellyErrorView>,
) -> bool {
    let s = before.source.skip(before.index as int);
    &&& after.source == before.source
    &&& match scan_one(s) {
        Scanned::Skip { len, lines } => {
            &&& after.index == before.index + len
            &&& after.line == before.line + lines
            &&& after.tokens == before.tokens
            &&& r is Ok
        },
        Scanned::Emit { len, lines, token_type } => {
            &&& after.index == before.index + len
            &&& after.line == before.line + lines
            &&& after.tokens == before.tokens.push(
                TokenView { token_type, lexeme: s.take(len as int), line: before.line + lines },
            )
            &&& r is Ok
        },
        Scanned::Fail { len, lines, message } => {
            &&& after.index == before.index + len
            &&& after.line == before.line + lines
            &&& after.tokens == before.tokens
            &&& r == Err::<(), RedbellyErrorView>(
                RedbellyErrorView { message, line: before.line + lines },
            )
        },
    }
}

/// What a whole scan from `before` does, as `lex` says: the tokens of the unread text are
/// appended, and the scan ends at the end of the text or at the first error.
pub open spec fn scan_done(
    before: LexerView,
    after: LexerView,
    r: Result<Seq<TokenView>, RedbellyErrorView>,
) -> bool {
    let out = lex(before.source.skip(before.index as int), before.line);
    &&& after.source == before.source
    &&& after.tokens == before.tokens + out.tokens
    &&& after.index + out.rest == before.source.len()
    &&& after.line == out.line
    &&& match r {
        Ok(tokens) => out.error is None && tokens == after.tokens,
        Err(e) => out.error == Some(e),
    }
}

pub open spec fn unit_result_view(r: Result<(), RedbellyError>) -> Result<(), RedbellyErrorView> {
    match r {
        Ok(_) => Ok(()),
        Err(e) => Err(e@),
    }
}

pub open spec fn tokens_result_view(r: Result<Vec<Token>, RedbellyError>) -> Result<
    Seq<TokenView>,
    RedbellyErrorView,
> {
    match r {
        Ok(v) => Ok(token_views(v@)),
        Err(e) => Err(e@),
    }
}

proof fn lemma_digit_run_step(s: Seq<char>, i: int)
    requires
        0 <= i < s.len(),
        is_digit(s[i]),
    ensures
        digit_run(s.skip(i)) == 1 + digit_run(s.skip(i + 1)),
{
    assert(s.skip(i).drop_first() =~= s.skip(i + 1));
}

proof fn lemma_word_run_step(s: Seq<char>, i: int)
    requires
        0 <= i < s.len(),
        is_alphanumeric(s[i]),
    ensures
        word_run(s.skip(i)) == 1 + word_run(s.skip(i + 1)),
{
    assert(s.skip(i).drop_first() =~= s.skip(i + 1));
}

/// The kind of token a name stands for (see `keyword_kind`).
fn keyword_of(word: &String) -> (k: TokenKind)
    ensures
        k == keyword_kind(word@),
{
    if *word == String::from_str("and") {
        TokenKind::And
    } else if *word == String::from_str("class") {
        TokenKind::Class
    } else if *word == String::from_str("else") {
        TokenKind::Else
    } else if *word == String::from_str("false") {
        TokenKind::False
    } else if *word == String::from_str("func") {
        TokenKind::Func
    } else if *word == String::from_str("for") {
        TokenKind::For
    } else if *word == String::from_str("if") {
        TokenKind::If
    } else if *word == String::from_str("nil") {
        TokenKind::Nil
    } else if *word == String::from_str("or") {
        TokenKind::Or
    } else if *word == String::from_str("print") {
        TokenKind::Print
    } else if *word == String::from_str("return") {
        TokenKind::Return
    } else if *word == String::from_str("super") {
        TokenKind::Super
    } else if *word == String::from_str("this") {
        TokenKind::This
    } else if *word == String::from_str("true") {
        TokenKind::True
    } else if *word == String::from_str("var") {
        TokenKind::Var
    } else if *word == String::from_str("while") {
        TokenKind::While
    } else if *word == String::from_str("let") {
        TokenKind::Let
    } else {
        TokenKind::Identifier
    }
}

proof fn lemma_chars_before_step(s: Seq<char>, i: int, c: char)
    requires
        0 <= i < s.len(),
        s[i] != c,
    ensures
        chars_before(s.skip(i), c) == 1 + chars_before(s.skip(i + 1), c),
{
    assert(s.skip(i).drop_first() =~= s.skip(i + 1));
}

proof fn lemma_newline_count_step(s: Seq<char>, a: int, i: int)
    requires
        0 <= a <= i < s.len(),
    ensures
        newline_count(s.subrange(a, i + 1)) == newline_count(s.subrange(a, i)) + if s[i] == '\n' {
            1nat
        } else {
            0nat
        },
{
    assert(s.subrange(a, i + 1).drop_last() =~= s.subrange(a, i));
}

impl Lexer {
    /// The scanner's own invariant: positions within the text and the line bounded by
    /// the position.
    pub closed spec fn inv(&self) -> bool {
        &&& self.start <= self.index <= self.source.len()
        &&& self.source.len() < usize::MAX
        &&& 1 <= self.line <= self.index + 1
    }

    /// A scanner at the start of `source`, on line 1, with no tokens yet.
    pub fn new(source: String) -> (lexer: Self)
        requires
            source@.len() < usize::MAX,
        ensures
            lexer.inv(),
            lexer@ == (LexerView { source: source@, tokens: Seq::empty(), index: 0, line: 1 }),
    {
        let mut chars: Vec<char> = Vec::new();
        let text = source.as_str();
        let n = text.unicode_len();
        let mut i: usize = 0;
        while i < n
            invariant
                n == text@.len(),
                i <= n,
                chars@ == text@.take(i as int),
            decreases n - i,
        {
            chars.push(text.get_char(i));
            i = i + 1;
            assert(chars@ =~= text@.take(i as int));
        }
        assert(text@.take(n as int) =~= text@);
        let lexer = Self { source: chars, tokens: Vec::new(), index: 0, line: 1, start: 0 };
        assert(token_views(lexer.tokens@) =~= Seq::<TokenView>::empty());
        lexer
    }

    /// Loops over every token in source, and scans the token. Once a given token has been
    /// scanned start is set to current.
    pub fn scan(&mut self) -> (r: Result<Vec<Token>, RedbellyError>)
        requires
            old(self).inv(),
        ensures
            final(self).inv(),
            scan_done(old(self)@, final(self)@, tokens_result_view(r)),
    {
        let ghost s0 = self@;
        while !self.is_at_end()
            invariant
                self.inv(),
                self@.source == s0.source,
                s0 == old(self)@,
                s0.index <= s0.source.len(),
                ({
                    let now = lex(self@.source.skip(self@.index as int), self@.line);
                    let whole = lex(s0.source.skip(s0.index as int), s0.line);
                    &&& self@.tokens + now.tokens == s0.tokens + whole.tokens
                    &&& now.error == whole.error
                    &&& now.rest == whole.rest
                    &&& now.line == whole.line
                }),
            decreases self.source.len() - self.index,
        {
            self.start = self.index;
            let ghost before = self@;
            let ghost s = before.source.skip(before.index as int);
            let stepped = self.scan_token();
            proof {
                lemma_scan_one_len(s);
                let len = scanned_len(scan_one(s));
                assert(s.skip(len as int) =~= self@.source.skip(self@.index as int));
            }
            match stepped {
                Ok(_) => {
                    proof {
                        let s_after = self@.source.skip(self@.index as int);
                        match scan_one(s) {
                            Scanned::Emit { len, lines, token_type } => {
                                let tok = TokenView {
                                    token_type,
                                    lexeme: s.take(len as int),
                                    line: before.line + lines,
                                };
                                let after = lex(s_after, self@.line);
                                assert(lex(s, before.line).tokens == seq![tok] + after.tokens);
                                assert(self@.tokens + after.tokens =~= before.tokens + (seq![tok]
                                    + after.tokens));
                            },
                            _ => {},
                        }
                    }
                },
                Err(error) => {
                    assert(self@.tokens + Seq::<TokenView>::empty() =~= self@.tokens);
                    return Err(error);
                },
            }
        }
        let ghost before = self@;
        self.tokens.push(Token::new(TokenType::Eof, String::new(), self.line));
        proof {
            assert(self@.source.skip(self@.index as int) =~= Seq::<char>::empty());
            assert(token_views(self.tokens@) =~= before.tokens.push(eof_token(self@.line)));
            assert(self@.tokens =~= before.tokens + seq![eof_token(self@.line)]);
        }
        return Ok(duplicate_tokens(&self.tokens));
    }

    /// Scans one token, or skips one piece of text, starting at the current index.
    fn scan_token(&mut self) -> (r: Result<(), RedbellyError>)
        requires
            old(self).inv(),
            old(self).index < old(self).source.len(),
            old(self).start == old(self).index,
        ensures
            final(self).inv(),
            final(self).start == old(self).start,
            step_taken(old(self)@, final(self)@, unit_result_view(r)),
    {
        let ghost src = self.source@;
        let ghost i = self.index as int;
        let ghost s = src.skip(i);
        proof {
            assert(src.subrange(i, i + 1) =~= s.take(1));
            assert(s.drop_first() =~= src.skip(i + 1));
            if i + 2 <= src.len() {
                assert(src.subrange(i, i + 2) =~= s.take(2));
            }
        }
        let c = self.consume();
        assert(c == s[0]);
        match c {
            '(' => self.add_token(TokenType::LeftParen),
            ')' => self.add_token(TokenType::RightParen),
            '{' => self.add_token(TokenType::LeftBrace),
            '}' => self.add_token(TokenType::RightBrace),
            ',' => self.add_token(TokenType::Comma),
            '.' => self.add_token(TokenType::Dot),
            '-' => self.add_token(TokenType::Minus),
            '+' => self.add_token(TokenType::Plus),
            ';' => self.add_token(TokenType::Semicolon),
            '*' => self.add_token(TokenType::Star),
            '!' => self.consume_and_add_token_or('=', TokenType::BangEqual, TokenType::Bang),
            '=' => self.consume_and_add_token_or('=', TokenType::EqualEqual, TokenType::Equal),
            '<' => self.consume_and_add_token_or('=', TokenType::LessEqual, TokenType::Less),
            '>' => self.consume_and_add_token_or('=', TokenType::GreaterEqual, TokenType::Greater),
            '/' => self.handle_slash(),
            '"' => self.handle_string(),
            // Ignore Whitespace
            ' ' | '\r' | '\t' => Ok(()),
            '\n' => {
                self.line = self.line + 1;
                Ok(())
            },
            _ => {
                if Lexer::is_num(c) {
                    self.handle_numbers()
                } else if Lexer::is_alpha(c) {
                    self.handle_identifier()
                } else {
                    Err(RedbellyError::new("Unexpected Character", self.line))
                }
            },
        }
    }

    /// Returns the character at the current index, then increments the current index.
    fn consume(&mut self) -> (c: char)
        requires
            old(self).inv(),
            old(self).index < old(self).source.len(),
        ensures
            final(self).inv(),
            c == old(self).source@[old(self).index as int],
            final(self).index == old(self).index + 1,
            final(self).source@ == old(self).source@,
            final(self).tokens == old(self).tokens,
            final(self).line == old(self).line,
            final(self).start == old(self).start,
    {
        let c = self.source[self.index];
        self.index = self.index + 1;
        c
    }

    /// Looks at current index without consuming it. Returns none if the index is out of bounds.
    fn peek(&self) -> (c: Option<char>)
        requires
            self.inv(),
        ensures
            c == if self.index < self.source.len() {
                Some(self.source@[self.index as int])
            } else {
                None::<char>
            },
    {
        if self.index < self.source.len() {
            Some(self.source[self.index])
        } else {
            None
        }
    }

    /// Looks at index + 1 without consuming it. Returns none if the index is out of bounds.
    fn peek_next(&self) -> (c: Option<char>)
        requires
            self.inv(),
        ensures
            c == if self.index + 1 < self.source.len() {
                Some(self.source@[self.index + 1])
            } else {
                None::<char>
            },
    {
        if self.index + 1 < self.source.len() {
            Some(self.source[self.index + 1])
        } else {
            None
        }
    }

    /// Pushes a token onto self.tokens, whose lexeme is the text between start and the
    /// current index.
    fn add_token(&mut self, token_type: TokenType) -> (r: Result<(), RedbellyError>)
        requires
            old(self).inv(),
        ensures
            final(self).inv(),
            r is Ok,
            final(self).index == old(self).index,
            final(self).source@ == old(self).source@,
            final(self).line == old(self).line,
            final(self).start == old(self).start,
            token_views(final(self).tokens@) == token_views(old(self).tokens@).push(
                TokenView {
                    token_type: token_type@,
                    lexeme: old(self).source@.subrange(
                        old(self).start as int,
                        old(self).index as int,
                    ),
                    line: old(self).line as nat,
                },
            ),
    {
        let lexeme = text_of(&self.source, self.start, self.index);
        let ghost old_tokens = self.tokens@;
        self.tokens.push(Token::new(token_type, lexeme, self.line));
        assert(token_views(self.tokens@) =~= token_views(old_tokens).push(self.tokens@.last()@));
        return Ok(());
    }

    fn is_at_end(&self) -> (b: bool)
        ensures
            b == (self.index >= self.source.len()),
    {
        self.index >= self.source.len()
    }

    fn is_alpha(c: char) -> (b: bool)
        ensures
            b == is_alpha(c),
    {
        (c >= 'a' && c <= 'z') || (c >= 'A' && c <= 'Z') || c == '_'
    }

    fn is_alphanumeric(c: char) -> (b: bool)
        ensures
            b == is_alphanumeric(c),
    {
        Lexer::is_alpha(c) || Lexer::is_num(c)
    }

    fn is_num(c: char) -> (b: bool)
        ensures
            b == is_digit(c),
    {
        c >= '0' && c <= '9'
    }

    /// Checks if the next character matches 'expected', and if so consumes it and returns
    /// it. Otherwise returns none.
    fn consume_or(&mut self, expected: char) -> (r: Option<char>)
        requires
            old(self).inv(),
        ensures
            final(self).inv(),
            final(self).source@ == old(self).source@,
            final(self).tokens == old(self).tokens,
            final(self).line == old(self).line,
            final(self).start == old(self).start,
            ({
                let hit = old(self).index < old(self).source.len()
                    && old(self).source@[old(self).index as int] == expected;
                &&& hit ==> r == Some(expected) && final(self).index == old(self).index + 1
                &&& !hit ==> r is None && final(self).index == old(self).index
            }),
    {
        if self.is_at_end() {
            return None;
        }
        match self.peek() {
            Some(c) => {
                if c == expected {
                    Some(self.consume())
                } else {
                    None
                }
            },
            None => None,
        }
    }

    fn consume_and_add_token_or(
        &mut self,
        expected: char,
        true_token: TokenType,
        false_token: TokenType,
    ) -> (r: Result<(), RedbellyError>)
        requires
            old(self).inv(),
        ensures
            final(self).inv(),
            r is Ok,
            final(self).source@ == old(self).source@,
            final(self).line == old(self).line,
            final(self).start == old(self).start,
            ({
                let hit = old(self).index < old(self).source.len()
                    && old(self).source@[old(self).index as int] == expected;
                let index = if hit {
                    old(self).index + 1
                } else {
                    old(self).index as int
                };
                &&& final(self).index == index
                &&& token_views(final(self).tokens@) == token_views(old(self).tokens@).push(
                    TokenView {
                        token_type: if hit {
                            true_token@
                        } else {
                            false_token@
                        },
                        lexeme: old(self).source@.subrange(old(self).start as int, index),
                        line: old(self).line as nat,
                    },
                )
            }),
    {
        match self.consume_or(expected) {
            Some(_) => self.add_token(true_token),
            None => self.add_token(false_token),
        }
    }

    /// After a `/`: either a comment, skipped up to the end of the line, or a slash.
    fn handle_slash(&mut self) -> (r: Result<(), RedbellyError>)
        requires
            old(self).inv(),
            old(self).index == old(self).start + 1,
            old(self).source@[old(self).start as int] == '/',
        ensures
            final(self).inv(),
            r is Ok,
            final(self).source@ == old(self).source@,
            final(self).line == old(self).line,
            final(self).start == old(self).start,
            ({
                let s = old(self).source@.skip(old(self).start as int);
                if s.len() > 1 && s[1] == '/' {
                    &&& final(self).index == old(self).start + chars_before(s, '\n')
                    &&& final(self).tokens == old(self).tokens
                } else {
                    &&& final(self).index == old(self).index
                    &&& token_views(final(self).tokens@) == token_views(
                        old(self).tokens@,
                    ).push(
                        TokenView {
                            token_type: plain(TokenKind::Slash),
                            lexeme: s.take(1),
                            line: old(self).line as nat,
                        },
                    )
                }
            }),
    {
        let ghost src = self.source@;
        let ghost start = self.start as int;
        match self.consume_or('/') {
            None => {
                let r = self.add_token(TokenType::Slash);
                assert(src.subrange(start, start + 1) =~= src.skip(start).take(1));
                r
            },
            Some(_) => {
                proof {
                    lemma_chars_before_step(src, start, '\n');
                    lemma_chars_before_step(src, start + 1, '\n');
                    assert(src.skip(start) =~= src.skip(start));
                }
                while self.peek().unwrap_or('\n') != '\n'
                    invariant
                        self.inv(),
                        self.source@ == src,
                        self.start == start,
                        start + 2 <= self.index,
                        chars_before(src.skip(start), '\n') == (self.index - start)
                            + chars_before(src.skip(self.index as int), '\n'),
                        self.line == old(self).line,
                        self.tokens == old(self).tokens,
                    decreases self.source.len() - self.index,
                {
                    proof {
                        lemma_chars_before_step(src, self.index as int, '\n');
                    }
                    let _ = self.consume();
                }
                assert(chars_before(src.skip(self.index as int), '\n') == 0);
                Ok(())
            },
        }
    }

    /// After an opening `"`: reads up to the closing quote and adds a string token, or
    /// fails at the end of the text.
    fn handle_string(&mut self) -> (r: Result<(), RedbellyError>)
        requires
            old(self).inv(),
            old(self).index == old(self).start + 1,
            old(self).source@[old(self).start as int] == '"',
        ensures
            final(self).inv(),
            final(self).source@ == old(self).source@,
            final(self).start == old(self).start,
            ({
                let body = old(self).source@.skip(old(self).index as int);
                let n = chars_before(body, '"');
                if n < body.len() {
                    &&& r is Ok
                    &&& final(self).index == old(self).start + n + 2
                    &&& final(self).line == old(self).line + newline_count(body.take(n as int))
                    &&& token_views(final(self).tokens@) == token_views(
                        old(self).tokens@,
                    ).push(
                        TokenView {
                            token_type: TokenTypeView {
                                kind: TokenKind::String,
                                text: body.take(n as int),
                            },
                            lexeme: old(self).source@.skip(old(self).start as int).take(n + 2int),
                            line: final(self).line as nat,
                        },
                    )
                } else {
                    &&& final(self).index == old(self).source.len()
                    &&& final(self).line == old(self).line + newline_count(body)
                    &&& final(self).tokens == old(self).tokens
                    &&& unit_result_view(r) == Err::<(), RedbellyErrorView>(
                        RedbellyErrorView {
                            message: "Untermintated String"@,
                            line: final(self).line as nat,
                        },
                    )
                }
            }),
    {
        let ghost src = self.source@;
        let ghost a = self.index as int;
        let ghost body = src.skip(a);
        proof {
            lemma_chars_before_bound(body, '"');
            assert(src.subrange(a, a) =~= Seq::<char>::empty());
        }
        loop
            invariant_except_break
                self.inv(),
                self.source@ == src,
                src == old(self).source@,
                a == old(self).index,
                body == src.skip(a),
                self.start == old(self).start,
                a <= self.index,
                forall|k: int| a <= k < self.index ==> src[k] != '"',
                self.line == old(self).line + newline_count(src.subrange(a, self.index as int)),
                self.tokens == old(self).tokens,
            ensures
                self.inv(),
                self.source@ == src,
                src == old(self).source@,
                a == old(self).index,
                body == src.skip(a),
                self.start == old(self).start,
                a < self.index,
                src[self.index - 1] == '"',
                forall|k: int| a <= k < self.index - 1 ==> src[k] != '"',
                self.line == old(self).line + newline_count(
                    src.subrange(a, self.index - 1),
                ),
                self.tokens == old(self).tokens,
            decreases self.source.len() - self.index,
        {
            match self.peek() {
                Some(c) => {
                    proof {
                        lemma_newline_count_step(src, a, self.index as int);
                    }
                    let _ = self.consume();
                    if c == '"' {
                        break ;
                    }
                    if c == '\n' {
                        self.line = self.line + 1;
                    }
                },
                None => {
                    proof {
                        lemma_chars_before_bound(body, '"');
                        assert(src.subrange(a, self.index as int) =~= body);
                        let cb = chars_before(body, '"');
                        if cb < body.len() {
                            assert(body[cb as int] == src[a + cb]);
                        }
                    }
                    return Err(RedbellyError::new("Untermintated String", self.line));
                },
            }
        }
        let ghost n = self.index - 1 - a;
        proof {
            assert(chars_before(body, '"') == n) by {
                let cb = chars_before(body, '"');
                if cb < n {
                    assert(body[cb as int] == src[a + cb]);
                } else if cb > n {
                    assert(body[n as int] == src[a + n]);
                }
            }
            assert(body.take(n as int) =~= src.subrange(a, self.index - 1));
        }
        let val = text_of(&self.source, self.start + 1, self.index - 1);
        let r = self.add_token(TokenType::String(val));
        proof {
            assert(src.subrange(self.start as int, self.index as int) =~= src.skip(
                self.start as int,
            ).take(n + 2));
        }
        r
    }

    /// After a first digit: reads the rest of the number literal and adds a number token.
    fn handle_numbers(&mut self) -> (r: Result<(), RedbellyError>)
        requires
            old(self).inv(),
            old(self).index == old(self).start + 1,
            is_digit(old(self).source@[old(self).start as int]),
        ensures
            final(self).inv(),
            r is Ok,
            final(self).source@ == old(self).source@,
            final(self).line == old(self).line,
            final(self).start == old(self).start,
            ({
                let s = old(self).source@.skip(old(self).start as int);
                let n = number_len(s);
                &&& final(self).index == old(self).start + n
                &&& token_views(final(self).tokens@) == token_views(old(self).tokens@).push(
                    TokenView {
                        token_type: TokenTypeView { kind: TokenKind::Number, text: s.take(n as int) },
                        lexeme: s.take(n as int),
                        line: old(self).line as nat,
                    },
                )
            }),
    {
        let ghost src = self.source@;
        let ghost start = self.start as int;
        let ghost s = src.skip(start);
        proof {
            lemma_digit_run_step(src, start);
        }
        self.consume_all_nums();
        let ghost whole = digit_run(s);
        assert(self.index == start + whole);
        proof {
            lemma_digit_run_bound(s);
        }
        let dot = match self.peek() {
            Some(c) => c == '.',
            None => false,
        };
        // Check if has decible, if so, consumes it
        if dot && Lexer::is_num(self.peek_next().unwrap_or('\0')) {
            let _ = self.consume();
            proof {
                assert(s.skip(whole + 1int) =~= src.skip(self.index as int));
            }
        } else {
            proof {
                if start + whole < src.len() {
                    assert(src.skip(self.index as int)[0] == s[whole as int]);
                }
            }
        }
        self.consume_all_nums();
        let text = text_of(&self.source, self.start, self.index);
        let ghost n = number_len(s);
        assert(self.index == start + n);
        assert(src.subrange(start, self.index as int) =~= s.take(n as int));
        self.add_token(TokenType::Number(text))
    }

    /// Consumes all characters that are numbers until it finds a character that is not a
    /// number.
    fn consume_all_nums(&mut self)
        requires
            old(self).inv(),
        ensures
            final(self).inv(),
            final(self).index == old(self).index + digit_run(
                old(self).source@.skip(old(self).index as int),
            ),
            final(self).source@ == old(self).source@,
            final(self).tokens == old(self).tokens,
            final(self).line == old(self).line,
            final(self).start == old(self).start,
    {
        let ghost src = self.source@;
        let ghost i0 = self.index as int;
        loop
            invariant_except_break
                self.inv(),
                self.source@ == src,
                i0 <= self.index,
                digit_run(src.skip(i0)) == (self.index - i0) + digit_run(
                    src.skip(self.index as int),
                ),
                self.tokens == old(self).tokens,
                self.line == old(self).line,
                self.start == old(self).start,
            ensures
                self.inv(),
                self.source@ == src,
                self.index == i0 + digit_run(src.skip(i0)),
                self.tokens == old(self).tokens,
                self.line == old(self).line,
                self.start == old(self).start,
            decreases self.source.len() - self.index,
        {
            match self.peek() {
                Some(c) => {
                    if Lexer::is_num(c) {
                        proof {
                            lemma_digit_run_step(src, self.index as int);
                        }
                        self.consume();
                    } else {
                        break ;
                    }
                },
                None => break ,
            }
        }
    }

    /// After a first letter or `_`: reads the rest of the name and adds an identifier
    /// token, or the keyword's token when the name is a keyword.
    fn handle_identifier(&mut self) -> (r: Result<(), RedbellyError>)
        requires
            old(self).inv(),
            old(self).index == old(self).start + 1,
            is_alpha(old(self).source@[old(self).start as int]),
        ensures
            final(self).inv(),
            r is Ok,
            final(self).source@ == old(self).source@,
            final(self).line == old(self).line,
            final(self).start == old(self).start,
            ({
                let s = old(self).source@.skip(old(self).start as int);
                let n = word_run(s);
                &&& final(self).index == old(self).start + n
                &&& token_views(final(self).tokens@) == token_views(old(self).tokens@).push(
                    TokenView {
                        token_type: plain(keyword_kind(s.take(n as int))),
                        lexeme: s.take(n as int),
                        line: old(self).line as nat,
                    },
                )
            }),
    {
        let ghost src = self.source@;
        let ghost start = self.start as int;
        let ghost s = src.skip(start);
        proof {
            lemma_word_run_step(src, start);
        }
        self.consume_word();
        let ghost n = word_run(s);
        assert(self.index == start + n);
        let text = text_of(&self.source, self.start, self.index);
        assert(src.subrange(start, self.index as int) =~= s.take(n as int));
        let kind = keyword_of(&text);
        let token_type = match TokenType::from_kind(kind) {
            Some(t) => t,
            None => TokenType::Identifier,
        };
        self.add_token(token_type)
    }

    /// Consumes the characters that can continue a name.
    fn consume_word(&mut self)
        requires
            old(self).inv(),
        ensures
            final(self).inv(),
            final(self).index == old(self).index + word_run(
                old(self).source@.skip(old(self).index as int),
            ),
            final(self).source@ == old(self).source@,
            final(self).tokens == old(self).tokens,
            final(self).line == old(self).line,
            final(self).start == old(self).start,
    {
        let ghost src = self.source@;
        let ghost i0 = self.index as int;
        loop
            invariant_except_break
                self.inv(),
                self.source@ == src,
                i0 <= self.index,
                word_run(src.skip(i0)) == (self.index - i0) + word_run(
                    src.skip(self.index as int),
                ),
                self.tokens == old(self).tokens,
                self.line == old(self).line,
                self.start == old(self).start,
            ensures
                self.inv(),
                self.source@ == src,
                self.index == i0 + word_run(src.skip(i0)),
                self.tokens == old(self).tokens,
                self.line == old(self).line,
                self.start == old(self).start,
            decreases self.source.len() - self.index,
        {
            match self.peek() {
                Some(c) => {
                    if Lexer::is_alphanumeric(c) {
                        proof {
                            lemma_word_run_step(src, self.index as int);
                        }
                        self.consume();
                    } else {
                        break ;
                    }
                },
                None => break ,
            }
        }
    }
}

} // verus!
