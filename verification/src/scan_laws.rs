//! Properties of scanning that hold for every source text.
use vstd::prelude::*;
use crate::scan_rules::{
    chars_before, digit_run, eof_token, is_alpha, is_alphanumeric, is_digit, keyword_kind, lemma_chars_before_bound, lemma_digit_run_bound, lemma_word_run_bound, word_run,
    lemma_scan_one_len, lex, newline_count, number_len, scan_one, LexOutcome, Scanned,
};
use crate::token::{plain, TokenKind, TokenTypeView, TokenView};
use crate::RedbellyErrorView;

verus! {

/// Whether `s` has the shape of a number literal: digits, and optionally a dot followed by
/// at least one more digit.
pub open spec fn is_number_literal(s: Seq<char>) -> bool {
    let whole = digit_run(s);
    &&& whole > 0
    &&& (whole == s.len() || (s[whole as int] == '.' && whole + 1 < s.len() && digit_run(
        s.skip(whole + 1int),
    ) == s.len() - whole - 1))
}

/// What every token produced by the scanner looks like: the end marker has no text, a
/// string's text is written between two quotes and holds none, a number's text is the
/// number literal it was written as, a name is a whole word whose kind is its keyword (or
/// `Identifier`), and every other token has no text of its own and is no identifier.
pub open spec fn well_formed_token(t: TokenView) -> bool {
    if t.token_type.kind == TokenKind::Eof {
        t.lexeme.len() == 0 && t.token_type.text.len() == 0
    } else if t.token_type.kind == TokenKind::String {
        &&& t.lexeme == seq!['"'] + t.token_type.text + seq!['"']
        &&& !t.token_type.text.contains('"')
    } else if t.token_type.kind == TokenKind::Number {
        t.lexeme == t.token_type.text && is_number_literal(t.lexeme)
    } else if t.lexeme.len() > 0 && is_alpha(t.lexeme[0]) {
        &&& t.token_type.text.len() == 0
        &&& word_run(t.lexeme) == t.lexeme.len()
        &&& t.token_type.kind == keyword_kind(t.lexeme)
    } else {
        &&& t.token_type.text.len() == 0
        &&& t.lexeme.len() > 0
        &&& t.token_type.kind != TokenKind::Identifier
    }
}

proof fn lemma_take_digit_run(s: Seq<char>, n: nat)
    requires
        n <= s.len(),
        forall|i: int| 0 <= i < n ==> is_digit(#[trigger] s[i]),
    ensures
        digit_run(s.take(n as int)) == n,
    decreases n,
{
    if n > 0 {
        assert(s.take(n as int).drop_first() =~= s.drop_first().take(n - 1));
        assert forall|i: int| 0 <= i < n - 1 implies is_digit(#[trigger] s.drop_first()[i]) by {
            assert(s.drop_first()[i] == s[i + 1]);
        }
        lemma_take_digit_run(s.drop_first(), (n - 1) as nat);
    }
}

proof fn lemma_take_word_run(s: Seq<char>, n: nat)
    requires
        n <= s.len(),
        forall|i: int| 0 <= i < n ==> is_alphanumeric(#[trigger] s[i]),
    ensures
        word_run(s.take(n as int)) == n,
    decreases n,
{
    if n > 0 {
        assert(s.take(n as int).drop_first() =~= s.drop_first().take(n - 1));
        assert forall|i: int| 0 <= i < n - 1 implies is_alphanumeric(#[trigger] s.drop_first()[i]) by {
            assert(s.drop_first()[i] == s[i + 1]);
        }
        lemma_take_word_run(s.drop_first(), (n - 1) as nat);
    }
}

proof fn lemma_number_literal(s: Seq<char>)
    requires
        s.len() > 0,
        is_digit(s[0]),
    ensures
        is_number_literal(s.take(number_len(s) as int)),
        number_len(s) <= s.len(),
{
    lemma_digit_run_bound(s);
    let whole = digit_run(s);
    let n = number_len(s);
    let t = s.take(n as int);
    if whole + 1 < s.len() && s[whole as int] == '.' && is_digit(s[whole + 1int]) {
        let frac = s.skip(whole + 1int);
        lemma_digit_run_bound(frac);
        lemma_take_digit_run(s, whole);
        assert(t.take(whole as int) =~= s.take(whole as int));
        // The whole part of t is the whole part of s.
        assert(digit_run(t) == whole) by {
            lemma_digit_run_bound(t);
            lemma_take_digit_run(t, whole);
            let d = digit_run(t);
            if d < whole {
                assert(t[d as int] == s[d as int]);
            } else if d > whole {
                assert(t[whole as int] == s[whole as int]);
            }
        }
        let m = digit_run(frac);
        assert(t.skip(whole + 1int) =~= frac.take(m as int));
        lemma_take_digit_run(frac, m);
    } else {
        lemma_take_digit_run(s, whole);
    }
}

/// Every token that scanning produces is well formed, only the last one may be the end
/// marker, and a scan that meets no error ends with the end marker.
pub proof fn law_scanned_tokens_well_formed(s: Seq<char>, line: nat)
    ensures
        ({
            let out = lex(s, line);
            &&& forall|i: int| 0 <= i < out.tokens.len() ==> well_formed_token(#[trigger] out.tokens[i])
            &&& forall|i: int| 0 <= i < out.tokens.len() - 1 ==> (#[trigger] out.tokens[i]).token_type.kind != TokenKind::Eof
            &&& out.error is None ==> out.tokens.len() > 0 && out.tokens.last() == eof_token(out.line)
            &&& out.error is Some ==> forall|i: int| 0 <= i < out.tokens.len() ==> (#[trigger] out.tokens[i]).token_type.kind != TokenKind::Eof
        }),
    decreases s.len(),
{
    if s.len() == 0 {
        assert(lex(s, line).tokens =~= seq![eof_token(line)]);
    } else {
        lemma_scan_one_len(s);
        match scan_one(s) {
            Scanned::Skip { len, lines } => {
                law_scanned_tokens_well_formed(s.skip(len as int), line + lines);
            },
            Scanned::Emit { len, lines, token_type } => {
                let rest = lex(s.skip(len as int), line + lines);
                law_scanned_tokens_well_formed(s.skip(len as int), line + lines);
                let tok = TokenView { token_type, lexeme: s.take(len as int), line: line + lines };
                assert(well_formed_token(tok)) by {
                    if s[0] == '"' {
                        let body = s.drop_first();
                        let n = chars_before(body, '"');
                        lemma_chars_before_bound(body, '"');
                        assert(s.take(len as int) =~= seq!['"'] + body.take(n as int) + seq!['"']);
                        assert(!body.take(n as int).contains('"')) by {
                            if body.take(n as int).contains('"') {
                                let k = choose|k: int| 0 <= k < n && body.take(n as int)[k] == '"';
                                assert(body[k] != '"');
                            }
                        }
                    } else if is_digit(s[0]) {
                        lemma_number_literal(s);
                    } else if is_alpha(s[0]) {
                        lemma_word_run_bound(s);
                        lemma_take_word_run(s, word_run(s));
                    }
                }
                let out = lex(s, line);
                assert(out.tokens == seq![tok] + rest.tokens);
                assert forall|i: int| 0 <= i < out.tokens.len() implies well_formed_token(#[trigger] out.tokens[i]) by {
                    if i > 0 {
                        assert(out.tokens[i] == rest.tokens[i - 1]);
                    }
                }
                assert forall|i: int| 0 <= i < out.tokens.len() - 1 implies (#[trigger] out.tokens[i]).token_type.kind != TokenKind::Eof by {
                    if i > 0 {
                        assert(out.tokens[i] == rest.tokens[i - 1]);
                    }
                }
                assert forall|i: int| out.error is Some && 0 <= i < out.tokens.len() implies (#[trigger] out.tokens[i]).token_type.kind != TokenKind::Eof by {
                    if i > 0 {
                        assert(out.tokens[i] == rest.tokens[i - 1]);
                    }
                }
                if out.error is None {
                    assert(out.tokens.last() == rest.tokens.last());
                }
            },
            Scanned::Fail { .. } => {},
        }
    }
}

proof fn lemma_chars_before_prefix(p: Seq<char>, r: Seq<char>, c: char)
    requires
        !p.contains(c),
        r.len() == 0 || r[0] == c,
    ensures
        chars_before(p + r, c) == p.len(),
    decreases p.len(),
{
    if p.len() == 0 {
        assert(p + r =~= r);
    } else {
        assert((p + r).drop_first() =~= p.drop_first() + r);
        assert(!p.drop_first().contains(c)) by {
            if p.drop_first().contains(c) {
                let k = choose|k: int| 0 <= k < p.drop_first().len() && p.drop_first()[k] == c;
                assert(p[k + 1] == c);
            }
        }
        assert(p[0] != c);
        lemma_chars_before_prefix(p.drop_first(), r, c);
    }
}

/// Anything after `//` up to the end of the line is ignored: a comment followed by the
/// rest of the text scans as the rest of the text alone.
pub proof fn law_comment_ignored(comment: Seq<char>, rest: Seq<char>, line: nat)
    requires
        !comment.contains('\n'),
        rest.len() == 0 || rest[0] == '\n',
    ensures
        lex(seq!['/', '/'] + comment + rest, line) == lex(rest, line),
{
    let s = seq!['/', '/'] + comment + rest;
    let head = seq!['/', '/'] + comment;
    assert(!head.contains('\n')) by {
        if head.contains('\n') {
            let k = choose|k: int| 0 <= k < head.len() && head[k] == '\n';
            assert(comment[k - 2] == '\n');
        }
    }
    assert(s =~= head + rest);
    lemma_chars_before_prefix(head, rest, '\n');
    assert(s.skip(head.len() as int) =~= rest);
}

/// Spaces, tabs and carriage returns between tokens are ignored.
pub proof fn law_blank_ignored(c: char, rest: Seq<char>, line: nat)
    requires
        c == ' ' || c == '\t' || c == '\r',
    ensures
        lex(seq![c] + rest, line) == lex(rest, line),
{
    assert((seq![c] + rest).skip(1) =~= rest);
}

/// A line break is ignored, except that what follows is on the next line.
pub proof fn law_newline_counts_line(rest: Seq<char>, line: nat)
    ensures
        lex(seq!['\n'] + rest, line) == lex(rest, line + 1),
{
    assert((seq!['\n'] + rest).skip(1) =~= rest);
}

/// A string literal scans to one string token holding the text between the quotes; it is
/// on the line where the closing quote stands, and scanning goes on after that quote.
pub proof fn law_string_literal(text: Seq<char>, rest: Seq<char>, line: nat)
    requires
        !text.contains('"'),
    ensures
        ({
            let lines = newline_count(text);
            let after = lex(rest, line + lines);
            let token = TokenView {
                token_type: TokenTypeView { kind: TokenKind::String, text },
                lexeme: seq!['"'] + text + seq!['"'],
                line: line + lines,
            };
            lex(seq!['"'] + text + seq!['"'] + rest, line) == LexOutcome {
                tokens: seq![token] + after.tokens,
                ..after
            }
        }),
{
    let s = seq!['"'] + text + seq!['"'] + rest;
    let body = s.drop_first();
    assert(body =~= text + (seq!['"'] + rest));
    lemma_chars_before_prefix(text, seq!['"'] + rest, '"');
    assert(body.take(text.len() as int) =~= text);
    assert(s.take(text.len() + 2int) =~= seq!['"'] + text + seq!['"']);
    assert(s.skip(text.len() + 2int) =~= rest);
}

/// Whether `c` is an ASCII letter or `_`.
pub open spec fn letter_or_underscore(c: char) -> bool {
    ('a' <= c && c <= 'z') || ('A' <= c && c <= 'Z') || c == '_'
}

/// Whether `c` is an ASCII letter, `_` or a decimal digit.
pub open spec fn name_character(c: char) -> bool {
    letter_or_underscore(c) || ('0' <= c && c <= '9')
}

proof fn lemma_word_run_of_name(w: Seq<char>, rest: Seq<char>)
    requires
        forall|i: int| 0 <= i < w.len() ==> name_character(#[trigger] w[i]),
        rest.len() == 0 || !name_character(rest[0]),
    ensures
        word_run(w + rest) == w.len(),
    decreases w.len(),
{
    if w.len() == 0 {
        assert(w + rest =~= rest);
    } else {
        assert((w + rest).drop_first() =~= w.drop_first() + rest);
        assert forall|i: int| 0 <= i < w.drop_first().len() implies name_character(
            #[trigger] w.drop_first()[i],
        ) by {
            assert(w.drop_first()[i] == w[i + 1]);
        }
        assert((w + rest)[0] == w[0]);
        lemma_word_run_of_name(w.drop_first(), rest);
    }
}

/// A name, which starts with an ASCII letter or `_` and goes on with letters, `_` and
/// digits up to a character that cannot continue it, scans as one token whose text is
/// the whole name, of the kind that `keyword_kind` gives it (a keyword, or `Identifier`),
/// and scanning goes on right after it.
pub proof fn law_name_token(w: Seq<char>, rest: Seq<char>, line: nat)
    requires
        w.len() > 0,
        letter_or_underscore(w[0]),
        forall|i: int| 0 <= i < w.len() ==> name_character(#[trigger] w[i]),
        rest.len() == 0 || !name_character(rest[0]),
    ensures
        ({
            let after = lex(rest, line);
            let token = TokenView {
                token_type: TokenTypeView { kind: keyword_kind(w), text: Seq::empty() },
                lexeme: w,
                line,
            };
            lex(w + rest, line) == LexOutcome { tokens: seq![token] + after.tokens, ..after }
        }),
{
    let s = w + rest;
    lemma_word_run_of_name(w, rest);
    assert(s[0] == w[0]);
    assert(s.take(w.len() as int) =~= w);
    assert(s.skip(w.len() as int) =~= rest);
}

/// How each keyword is spelled; the kinds that are no keywords have no spelling.
pub open spec fn keyword_spelling(kind: TokenKind) -> Option<Seq<char>> {
    if kind == TokenKind::And {
        Some(seq!['a', 'n', 'd'])
    } else if kind == TokenKind::Class {
        Some(seq!['c', 'l', 'a', 's', 's'])
    } else if kind == TokenKind::Else {
        Some(seq!['e', 'l', 's', 'e'])
    } else if kind == TokenKind::False {
        Some(seq!['f', 'a', 'l', 's', 'e'])
    } else if kind == TokenKind::Func {
        Some(seq!['f', 'u', 'n', 'c'])
    } else if kind == TokenKind::For {
        Some(seq!['f', 'o', 'r'])
    } else if kind == TokenKind::If {
        Some(seq!['i', 'f'])
    } else if kind == TokenKind::Nil {
        Some(seq!['n', 'i', 'l'])
    } else if kind == TokenKind::Or {
        Some(seq!['o', 'r'])
    } else if kind == TokenKind::Print {
        Some(seq!['p', 'r', 'i', 'n', 't'])
    } else if kind == TokenKind::Return {
        Some(seq!['r', 'e', 't', 'u', 'r', 'n'])
    } else if kind == TokenKind::Super {
        Some(seq!['s', 'u', 'p', 'e', 'r'])
    } else if kind == TokenKind::This {
        Some(seq!['t', 'h', 'i', 's'])
    } else if kind == TokenKind::True {
        Some(seq!['t', 'r', 'u', 'e'])
    } else if kind == TokenKind::Var {
        Some(seq!['v', 'a', 'r'])
    } else if kind == TokenKind::While {
        Some(seq!['w', 'h', 'i', 'l', 'e'])
    } else if kind == TokenKind::Let {
        Some(seq!['l', 'e', 't'])
    } else {
        None
    }
}

/// Each keyword's spelling scans as that keyword, and a word that is a keyword is spelled
/// as that keyword is; every other word is an identifier.
pub proof fn law_keywords(kind: TokenKind, word: Seq<char>)
    ensures
        keyword_spelling(kind) is Some ==> keyword_kind(keyword_spelling(kind).unwrap()) == kind,
        keyword_kind(word) != TokenKind::Identifier ==> keyword_spelling(keyword_kind(word))
            == Some(word),
{
    reveal_strlit("and");
    assert("and"@ =~= seq!['a', 'n', 'd']);
    reveal_strlit("class");
    assert("class"@ =~= seq!['c', 'l', 'a', 's', 's']);
    reveal_strlit("else");
    assert("else"@ =~= seq!['e', 'l', 's', 'e']);
    reveal_strlit("false");
    assert("false"@ =~= seq!['f', 'a', 'l', 's', 'e']);
    reveal_strlit("func");
    assert("func"@ =~= seq!['f', 'u', 'n', 'c']);
    reveal_strlit("for");
    assert("for"@ =~= seq!['f', 'o', 'r']);
    reveal_strlit("if");
    assert("if"@ =~= seq!['i', 'f']);
    reveal_strlit("nil");
    assert("nil"@ =~= seq!['n', 'i', 'l']);
    reveal_strlit("or");
    assert("or"@ =~= seq!['o', 'r']);
    reveal_strlit("print");
    assert("print"@ =~= seq!['p', 'r', 'i', 'n', 't']);
    reveal_strlit("return");
    assert("return"@ =~= seq!['r', 'e', 't', 'u', 'r', 'n']);
    reveal_strlit("super");
    assert("super"@ =~= seq!['s', 'u', 'p', 'e', 'r']);
    reveal_strlit("this");
    assert("this"@ =~= seq!['t', 'h', 'i', 's']);
    reveal_strlit("true");
    assert("true"@ =~= seq!['t', 'r', 'u', 'e']);
    reveal_strlit("var");
    assert("var"@ =~= seq!['v', 'a', 'r']);
    reveal_strlit("while");
    assert("while"@ =~= seq!['w', 'h', 'i', 'l', 'e']);
    reveal_strlit("let");
    assert("let"@ =~= seq!['l', 'e', 't']);
}

proof fn lemma_emit_step(sp: Seq<char>, rest: Seq<char>, line: nat, emit: Scanned)
    requires
        sp.len() > 0,
        emit matches Scanned::Emit { len, lines, .. } && len == sp.len() && lines == 0,
        scan_one(sp + rest) == emit,
    ensures
        ({
            let after = lex(rest, line);
            let token = TokenView { token_type: emit->token_type, lexeme: sp, line };
            lex(sp + rest, line) == LexOutcome { tokens: seq![token] + after.tokens, ..after }
        }),
{
    let s = sp + rest;
    assert(s.take(sp.len() as int) =~= sp);
    assert(s.skip(sp.len() as int) =~= rest);
}

/// How each operator and punctuation token is spelled.
pub open spec fn operator_spelling(kind: TokenKind) -> Option<Seq<char>> {
    if kind == TokenKind::LeftParen {
        Some(seq!['('])
    } else if kind == TokenKind::RightParen {
        Some(seq![')'])
    } else if kind == TokenKind::LeftBrace {
        Some(seq!['{'])
    } else if kind == TokenKind::RightBrace {
        Some(seq!['}'])
    } else if kind == TokenKind::Comma {
        Some(seq![','])
    } else if kind == TokenKind::Dot {
        Some(seq!['.'])
    } else if kind == TokenKind::Minus {
        Some(seq!['-'])
    } else if kind == TokenKind::Plus {
        Some(seq!['+'])
    } else if kind == TokenKind::Semicolon {
        Some(seq![';'])
    } else if kind == TokenKind::Star {
        Some(seq!['*'])
    } else if kind == TokenKind::Slash {
        Some(seq!['/'])
    } else if kind == TokenKind::Bang {
        Some(seq!['!'])
    } else if kind == TokenKind::BangEqual {
        Some(seq!['!', '='])
    } else if kind == TokenKind::Equal {
        Some(seq!['='])
    } else if kind == TokenKind::EqualEqual {
        Some(seq!['=', '='])
    } else if kind == TokenKind::Less {
        Some(seq!['<'])
    } else if kind == TokenKind::LessEqual {
        Some(seq!['<', '='])
    } else if kind == TokenKind::Greater {
        Some(seq!['>'])
    } else if kind == TokenKind::GreaterEqual {
        Some(seq!['>', '='])
    } else {
        None
    }
}

/// An operator scans as one token of its kind whose text is its spelling, provided what
/// follows does not make a longer token of it (`=` after `!`, `=`, `<` or `>`, and `/`
/// after `/`, which starts a comment).
pub proof fn law_operator_token(kind: TokenKind, rest: Seq<char>, line: nat)
    requires
        operator_spelling(kind) is Some,
        ({
            let sp = operator_spelling(kind).unwrap();
            sp.len() == 1 && (sp[0] == '!' || sp[0] == '=' || sp[0] == '<' || sp[0] == '>')
                ==> rest.len() == 0 || rest[0] != '='
        }),
        kind == TokenKind::Slash ==> rest.len() == 0 || rest[0] != '/',
    ensures
        ({
            let sp = operator_spelling(kind).unwrap();
            let after = lex(rest, line);
            let token = TokenView {
                token_type: TokenTypeView { kind, text: Seq::empty() },
                lexeme: sp,
                line,
            };
            lex(sp + rest, line) == LexOutcome { tokens: seq![token] + after.tokens, ..after }
        }),
{
    let sp = operator_spelling(kind).unwrap();
    let s = sp + rest;
    assert(s[0] == sp[0]);
    if sp.len() == 2 {
        assert(s[1] == sp[1]);
    } else if rest.len() > 0 {
        assert(s[1] == rest[0]);
    }
    let emit = Scanned::Emit { len: sp.len(), lines: 0, token_type: plain(kind) };
    if kind == TokenKind::LeftParen {
        assert(scan_one(s) == emit);
    } else if kind == TokenKind::RightParen {
        assert(scan_one(s) == emit);
    } else if kind == TokenKind::LeftBrace {
        assert(scan_one(s) == emit);
    } else if kind == TokenKind::RightBrace {
        assert(scan_one(s) == emit);
    } else if kind == TokenKind::Comma {
        assert(scan_one(s) == emit);
    } else if kind == TokenKind::Dot {
        assert(scan_one(s) == emit);
    } else if kind == TokenKind::Minus {
        assert(scan_one(s) == emit);
    } else if kind == TokenKind::Plus {
        assert(scan_one(s) == emit);
    } else if kind == TokenKind::Semicolon {
        assert(scan_one(s) == emit);
    } else if kind == TokenKind::Star {
        assert(scan_one(s) == emit);
    } else if kind == TokenKind::Slash {
        assert(scan_one(s) == emit);
    } else if kind == TokenKind::Bang {
        assert(scan_one(s) == emit);
    } else if kind == TokenKind::BangEqual {
        assert(scan_one(s) == emit);
    } else if kind == TokenKind::Equal {
        assert(scan_one(s) == emit);
    } else if kind == TokenKind::EqualEqual {
        assert(scan_one(s) == emit);
    } else if kind == TokenKind::Less {
        assert(scan_one(s) == emit);
    } else if kind == TokenKind::LessEqual {
        assert(scan_one(s) == emit);
    } else if kind == TokenKind::Greater {
        assert(scan_one(s) == emit);
    } else if kind == TokenKind::GreaterEqual {
        assert(scan_one(s) == emit);
    }
    lemma_emit_step(sp, rest, line, emit);
}

/// Whether `c` is a decimal digit.
pub open spec fn decimal_digit(c: char) -> bool {
    '0' <= c && c <= '9'
}

proof fn lemma_digit_run_of_digits(w: Seq<char>, rest: Seq<char>)
    requires
        forall|i: int| 0 <= i < w.len() ==> decimal_digit(#[trigger] w[i]),
        rest.len() == 0 || !decimal_digit(rest[0]),
    ensures
        digit_run(w + rest) == w.len(),
    decreases w.len(),
{
    if w.len() == 0 {
        assert(w + rest =~= rest);
    } else {
        assert((w + rest).drop_first() =~= w.drop_first() + rest);
        assert forall|i: int| 0 <= i < w.drop_first().len() implies decimal_digit(
            #[trigger] w.drop_first()[i],
        ) by {
            assert(w.drop_first()[i] == w[i + 1]);
        }
        assert((w + rest)[0] == w[0]);
        lemma_digit_run_of_digits(w.drop_first(), rest);
    }
}

/// A run of digits that no further digit, nor a dot and a digit, follows scans as one
/// number token whose text is the digits.
pub proof fn law_whole_number(w: Seq<char>, rest: Seq<char>, line: nat)
    requires
        w.len() > 0,
        forall|i: int| 0 <= i < w.len() ==> decimal_digit(#[trigger] w[i]),
        rest.len() == 0 || !decimal_digit(rest[0]),
        rest.len() >= 2 && rest[0] == '.' ==> !decimal_digit(rest[1]),
    ensures
        ({
            let after = lex(rest, line);
            let token = TokenView {
                token_type: TokenTypeView { kind: TokenKind::Number, text: w },
                lexeme: w,
                line,
            };
            lex(w + rest, line) == LexOutcome { tokens: seq![token] + after.tokens, ..after }
        }),
{
    let s = w + rest;
    lemma_digit_run_of_digits(w, rest);
    assert(s[0] == w[0]);
    if rest.len() >= 2 {
        assert(s[w.len() as int] == rest[0]);
        assert(s[w.len() + 1int] == rest[1]);
    }
    assert(s.take(w.len() as int) =~= w);
    assert(s.skip(w.len() as int) =~= rest);
}

/// Digits, a dot and more digits, that no further digit follows, scan as one number
/// token whose text is all of it.
pub proof fn law_fraction_number(w: Seq<char>, f: Seq<char>, rest: Seq<char>, line: nat)
    requires
        w.len() > 0,
        f.len() > 0,
        forall|i: int| 0 <= i < w.len() ==> decimal_digit(#[trigger] w[i]),
        forall|i: int| 0 <= i < f.len() ==> decimal_digit(#[trigger] f[i]),
        rest.len() == 0 || !decimal_digit(rest[0]),
    ensures
        ({
            let text = w + seq!['.'] + f;
            let after = lex(rest, line);
            let token = TokenView {
                token_type: TokenTypeView { kind: TokenKind::Number, text },
                lexeme: text,
                line,
            };
            lex(text + rest, line) == LexOutcome { tokens: seq![token] + after.tokens, ..after }
        }),
{
    let text = w + seq!['.'] + f;
    let s = text + rest;
    assert(s =~= w + (seq!['.'] + f + rest));
    lemma_digit_run_of_digits(w, seq!['.'] + f + rest);
    assert(s[0] == w[0]);
    assert(s[w.len() as int] == '.');
    assert(s[w.len() + 1int] == f[0]);
    assert(s.skip(w.len() + 1int) =~= f + rest);
    lemma_digit_run_of_digits(f, rest);
    assert(s.take(text.len() as int) =~= text);
    assert(s.skip(text.len() as int) =~= rest);
}

/// A character that no token, comment or blank starts with stops scanning with the error
/// "Unexpected Character" on the current line.
pub proof fn law_unexpected_character(c: char, rest: Seq<char>, line: nat)
    requires
        operator_spelling_starts(c) == false,
        c != '"' && c != ' ' && c != '\t' && c != '\r' && c != '\n',
        !name_character(c),
    ensures
        lex(seq![c] + rest, line) == (LexOutcome {
            tokens: Seq::empty(),
            error: Some(RedbellyErrorView { message: "Unexpected Character"@, line }),
            rest: rest.len(),
            line,
        }),
{
    assert((seq![c] + rest)[0] == c);
}

/// Whether `c` is the first character of an operator or punctuation token.
pub open spec fn operator_spelling_starts(c: char) -> bool {
    c == '(' || c == ')' || c == '{' || c == '}' || c == ',' || c == '.' || c == '-' || c == '+'
        || c == ';' || c == '*' || c == '/' || c == '!' || c == '=' || c == '<' || c == '>'
}

/// A string that is never closed stops scanning with the error "Untermintated String", on
/// the line where the text ends.
pub proof fn law_unterminated_string(body: Seq<char>, line: nat)
    requires
        !body.contains('"'),
    ensures
        lex(seq!['"'] + body, line) == (LexOutcome {
            tokens: Seq::empty(),
            error: Some(
                RedbellyErrorView {
                    message: "Untermintated String"@,
                    line: line + newline_count(body),
                },
            ),
            rest: 0,
            line: line + newline_count(body),
        }),
{
    let s = seq!['"'] + body;
    assert(s.drop_first() =~= body);
    lemma_chars_before_prefix(body, Seq::empty(), '"');
    assert(body + Seq::<char>::empty() =~= body);
}

} // verus!
