//! What scanning a source text yields, stated over sequences of characters.
use vstd::prelude::*;
use crate::token::{plain, TokenKind, TokenTypeView, TokenView};
use crate::RedbellyErrorView;

verus! {

pub open spec fn is_digit(c: char) -> bool {
    '0' <= c && c <= '9'
}

/// The number of leading characters of `s` that are decimal digits.
pub open spec fn digit_run(s: Seq<char>) -> nat
    decreases s.len(),
{
    if s.len() > 0 && is_digit(s[0]) {
        1 + digit_run(s.drop_first())
    } else {
        0
    }
}

/// A character that can start a name: an ASCII letter or `_`.
pub open spec fn is_alpha(c: char) -> bool {
    ('a' <= c && c <= 'z') || ('A' <= c && c <= 'Z') || c == '_'
}

/// A character that can continue a name: a letter, `_` or a digit.
pub open spec fn is_alphanumeric(c: char) -> bool {
    is_alpha(c) || is_digit(c)
}

/// The number of leading characters of `s` that can continue a name.
pub open spec fn word_run(s: Seq<char>) -> nat
    decreases s.len(),
{
    if s.len() > 0 && is_alphanumeric(s[0]) {
        1 + word_run(s.drop_first())
    } else {
        0
    }
}

/// The kind of token a word stands for: its keyword, or `Identifier` for any other word.
pub open spec fn keyword_kind(word: Seq<char>) -> TokenKind {
    if word == "and"@ {
        TokenKind::And
    } else if word == "class"@ {
        TokenKind::Class
    } else if word == "else"@ {
        TokenKind::Else
    } else if word == "false"@ {
        TokenKind::False
    } else if word == "func"@ {
        TokenKind::Func
    } else if word == "for"@ {
        TokenKind::For
    } else if word == "if"@ {
        TokenKind::If
    } else if word == "nil"@ {
        TokenKind::Nil
    } else if word == "or"@ {
        TokenKind::Or
    } else if word == "print"@ {
        TokenKind::Print
    } else if word == "return"@ {
        TokenKind::Return
    } else if word == "super"@ {
        TokenKind::Super
    } else if word == "this"@ {
        TokenKind::This
    } else if word == "true"@ {
        TokenKind::True
    } else if word == "var"@ {
        TokenKind::Var
    } else if word == "while"@ {
        TokenKind::While
    } else if word == "let"@ {
        TokenKind::Let
    } else {
        TokenKind::Identifier
    }
}

/// The number of leading characters of `s` that differ from `c`: the index of the first
/// `c` in `s`, or the length of `s` where there is none.
pub open spec fn chars_before(s: Seq<char>, c: char) -> nat
    decreases s.len(),
{
    if s.len() > 0 && s[0] != c {
        1 + chars_before(s.drop_first(), c)
    } else {
        0
    }
}

/// The number of line breaks in `s`.
pub open spec fn newline_count(s: Seq<char>) -> nat
    decreases s.len(),
{
    if s.len() == 0 {
        0
    } else {
        newline_count(s.drop_last()) + if s.last() == '\n' {
            1nat
        } else {
            0nat
        }
    }
}

/// The length of the number literal at the front of `s`: a run of digits, followed by a
/// fractional part (a dot and a run of digits) only where a digit follows the dot.
pub open spec fn number_len(s: Seq<char>) -> nat {
    let whole = digit_run(s);
    if whole + 1 < s.len() && s[whole as int] == '.' && is_digit(s[whole + 1int]) {
        whole + 1 + digit_run(s.skip(whole + 1int))
    } else {
        whole
    }
}

/// What the scanner does with the characters at the front of a text.
pub enum Scanned {
    /// `len` characters, spanning `lines` line breaks, produce no token.
    Skip { len: nat, lines: nat },
    /// `len` characters, spanning `lines` line breaks, form one token of the given type.
    Emit { len: nat, lines: nat, token_type: TokenTypeView },
    /// Scanning stops with an error after `len` characters spanning `lines` line breaks.
    Fail { len: nat, lines: nat, message: Seq<char> },
}

pub open spec fn one(kind: TokenKind) -> Scanned {
    Scanned::Emit { len: 1, lines: 0, token_type: plain(kind) }
}

/// A one-character operator that becomes a two-character one when `=` follows.
pub open spec fn one_or_two(s: Seq<char>, two: TokenKind, single: TokenKind) -> Scanned {
    if s.len() > 1 && s[1] == '=' {
        Scanned::Emit { len: 2, lines: 0, token_type: plain(two) }
    } else {
        one(single)
    }
}

/// The first step of scanning a non-empty text `s`.
pub open spec fn scan_one(s: Seq<char>) -> Scanned {
    let c = s[0];
    if c == '(' {
        one(TokenKind::LeftParen)
    } else if c == ')' {
        one(TokenKind::RightParen)
    } else if c == '{' {
        one(TokenKind::LeftBrace)
    } else if c == '}' {
        one(TokenKind::RightBrace)
    } else if c == ',' {
        one(TokenKind::Comma)
    } else if c == '.' {
        one(TokenKind::Dot)
    } else if c == '-' {
        one(TokenKind::Minus)
    } else if c == '+' {
        one(TokenKind::Plus)
    } else if c == ';' {
        one(TokenKind::Semicolon)
    } else if c == '*' {
        one(TokenKind::Star)
    } else if c == '!' {
        one_or_two(s, TokenKind::BangEqual, TokenKind::Bang)
    } else if c == '=' {
        one_or_two(s, TokenKind::EqualEqual, TokenKind::Equal)
    } else if c == '<' {
        one_or_two(s, TokenKind::LessEqual, TokenKind::Less)
    } else if c == '>' {
        one_or_two(s, TokenKind::GreaterEqual, TokenKind::Greater)
    } else if c == '/' {
        if s.len() > 1 && s[1] == '/' {
            // A comment runs up to the end of the line; the line break itself is kept.
            Scanned::Skip { len: chars_before(s, '\n'), lines: 0 }
        } else {
            one(TokenKind::Slash)
        }
    } else if c == '"' {
        let body = s.drop_first();
        let n = chars_before(body, '"');
        if n < body.len() {
            Scanned::Emit {
                len: n + 2,
                lines: newline_count(body.take(n as int)),
                token_type: TokenTypeView { kind: TokenKind::String, text: body.take(n as int) },
            }
        } else {
            Scanned::Fail {
                len: s.len(),
                lines: newline_count(body),
                message: "Untermintated String"@,
            }
        }
    } else if c == ' ' || c == '\r' || c == '\t' {
        Scanned::Skip { len: 1, lines: 0 }
    } else if c == '\n' {
        Scanned::Skip { len: 1, lines: 1 }
    } else if is_digit(c) {
        let n = number_len(s);
        Scanned::Emit {
            len: n,
            lines: 0,
            token_type: TokenTypeView { kind: TokenKind::Number, text: s.take(n as int) },
        }
    } else if is_alpha(c) {
        // A name runs as long as letters, digits and `_` follow; a keyword is a name too.
        let n = word_run(s);
        Scanned::Emit { len: n, lines: 0, token_type: plain(keyword_kind(s.take(n as int))) }
    } else {
        Scanned::Fail { len: 1, lines: 0, message: "Unexpected Character"@ }
    }
}

pub open spec fn scanned_len(r: Scanned) -> nat {
    match r {
        Scanned::Skip { len, .. } => len,
        Scanned::Emit { len, .. } => len,
        Scanned::Fail { len, .. } => len,
    }
}

pub proof fn lemma_digit_run_bound(s: Seq<char>)
    ensures
        digit_run(s) <= s.len(),
        forall|i: int| 0 <= i < digit_run(s) ==> is_digit(#[trigger] s[i]),
        digit_run(s) < s.len() ==> !is_digit(s[digit_run(s) as int]),
    decreases s.len(),
{
    if s.len() > 0 && is_digit(s[0]) {
        lemma_digit_run_bound(s.drop_first());
        assert forall|i: int| 0 <= i < digit_run(s) implies is_digit(#[trigger] s[i]) by {
            if i > 0 {
                assert(s[i] == s.drop_first()[i - 1]);
            }
        }
    }
}

pub proof fn lemma_word_run_bound(s: Seq<char>)
    ensures
        word_run(s) <= s.len(),
        forall|i: int| 0 <= i < word_run(s) ==> is_alphanumeric(#[trigger] s[i]),
        word_run(s) < s.len() ==> !is_alphanumeric(s[word_run(s) as int]),
    decreases s.len(),
{
    if s.len() > 0 && is_alphanumeric(s[0]) {
        lemma_word_run_bound(s.drop_first());
        assert forall|i: int| 0 <= i < word_run(s) implies is_alphanumeric(#[trigger] s[i]) by {
            if i > 0 {
                assert(s[i] == s.drop_first()[i - 1]);
            }
        }
    }
}

pub proof fn lemma_chars_before_bound(s: Seq<char>, c: char)
    ensures
        chars_before(s, c) <= s.len(),
        forall|i: int| 0 <= i < chars_before(s, c) ==> #[trigger] s[i] != c,
        chars_before(s, c) < s.len() ==> s[chars_before(s, c) as int] == c,
    decreases s.len(),
{
    if s.len() > 0 && s[0] != c {
        lemma_chars_before_bound(s.drop_first(), c);
        assert forall|i: int| 0 <= i < chars_before(s, c) implies #[trigger] s[i] != c by {
            if i > 0 {
                assert(s[i] == s.drop_first()[i - 1]);
            }
        }
    }
}

/// A scanning step consumes at least one character and never more than there are.
pub proof fn lemma_scan_one_len(s: Seq<char>)
    requires
        s.len() > 0,
    ensures
        0 < scanned_len(scan_one(s)) <= s.len(),
{
    lemma_digit_run_bound(s);
    lemma_word_run_bound(s);
    lemma_chars_before_bound(s, '\n');
    lemma_chars_before_bound(s.drop_first(), '"');
    if is_digit(s[0]) {
        let whole = digit_run(s);
        if whole + 1 < s.len() && s[whole as int] == '.' && is_digit(s[whole + 1int]) {
            lemma_digit_run_bound(s.skip(whole + 1int));
        }
    }
}

/// The result of scanning a text to its end or to its first error.
pub struct LexOutcome {
    /// The tokens produced, ending with `Eof` when no error stopped the scan.
    pub tokens: Seq<TokenView>,
    /// The error that stopped the scan, if any.
    pub error: Option<RedbellyErrorView>,
    /// How many characters were left unread.
    pub rest: nat,
    /// The line the scanner was on at the end.
    pub line: nat,
}

pub open spec fn eof_token(line: nat) -> TokenView {
    TokenView { token_type: plain(TokenKind::Eof), lexeme: Seq::empty(), line }
}

/// Scans the text `s`, starting on line `line`.
pub open spec fn lex(s: Seq<char>, line: nat) -> LexOutcome
    decreases s.len(),
{
    if s.len() == 0 {
        LexOutcome { tokens: seq![eof_token(line)], error: None, rest: 0, line }
    } else {
        proof {
            lemma_scan_one_len(s);
        }
        match scan_one(s) {
            Scanned::Skip { len, lines } => lex(s.skip(len as int), line + lines),
            Scanned::Emit { len, lines, token_type } => {
                let after = lex(s.skip(len as int), line + lines);
                let token = TokenView {
                    token_type,
                    lexeme: s.take(len as int),
                    line: line + lines,
                };
                LexOutcome { tokens: seq![token] + after.tokens, ..after }
            },
            Scanned::Fail { len, lines, message } => LexOutcome {
                tokens: Seq::empty(),
                error: Some(RedbellyErrorView { message, line: line + lines }),
                rest: (s.len() - len) as nat,
                line: line + lines,
            },
        }
    }
}

} // verus!
