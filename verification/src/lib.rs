use vstd::prelude::*;
use crate::ast::{stmts_view, Statement, StmtView};
use crate::grammar::{lemma_program_errors, parse_program};
use crate::lexer::Lexer;
use crate::parser::Parser;
use crate::scan_laws::{law_comment_ignored, law_scanned_tokens_well_formed};
use crate::scan_rules::lex;
use crate::token::{token_views, TokenKind};
use vstd::utf8::{decode_utf8, valid_utf8};

verus! {

/// An error raised while turning source text into tokens or statements.
#[derive(Debug)]
pub struct RedbellyError {
    message: String,
    line: usize,
}

/// What an error says: its message and the line it refers to.
pub struct RedbellyErrorView {
    pub message: Seq<char>,
    pub line: nat,
}

impl View for RedbellyError {
    type V = RedbellyErrorView;

    closed spec fn view(&self) -> RedbellyErrorView {
        RedbellyErrorView { message: self.message@, line: self.line as nat }
    }
}

impl RedbellyError {
    pub fn new(message: &str, line: usize) -> (err: Self)
        ensures
            err@.message == message@,
            err@.line == line,
    {
        RedbellyError { message: message.to_string(), line }
    }

    /// What went wrong.
    pub fn message(&self) -> (m: &str)
        ensures
            m@ == self@.message,
    {
        self.message.as_str()
    }

    /// The line the error refers to.
    pub fn line(&self) -> (l: usize)
        ensures
            l == self@.line,
    {
        self.line
    }
}

/// The text that `String::from_utf8_lossy` reads from some bytes.
pub uninterp spec fn lossy_utf8(bytes: Seq<u8>) -> Seq<char>;

/// Reads bytes as UTF-8 text with `String::from_utf8_lossy`, each invalid sequence
/// standing as the replacement character. Stated: the text is `lossy_utf8` of the bytes;
/// valid UTF-8 comes out as the text it encodes; and the text has no more characters than
/// there are bytes, since every character, the replacement character too, stands for at
/// least one byte. Not stated: which characters invalid sequences turn into.
#[verifier::external_body]
fn decode_lossy(bytes: &Vec<u8>) -> (text: String)
    ensures
        text@ == lossy_utf8(bytes@),
        valid_utf8(bytes@) ==> text@ == decode_utf8(bytes@),
        text@.len() <= bytes@.len(),
{
    String::from_utf8_lossy(bytes.as_slice()).into_owned()
}

/// What scanning and parsing a source text gives: its statements, the scanning error
/// that stopped it, or the first parse error (its message, and the line of its token).
pub open spec fn compiled(source: Seq<char>) -> Result<Seq<StmtView>, RedbellyErrorView> {
    let out = lex(source, 1);
    match out.error {
        Some(e) => Err(e),
        None => match parse_program(out.tokens) {
            Ok(stmts) => Ok(stmts),
            Err(errors) => Err(
                RedbellyErrorView { message: errors[0].message, line: errors[0].token.line },
            ),
        },
    }
}

/// Scans and parses a source text into statements.
#[verifier::rlimit(80)]
pub fn parse_source(source: String) -> (r: Result<Vec<Statement>, RedbellyError>)
    requires
        source@.len() < usize::MAX,
    ensures
        match r {
            Ok(stmts) => compiled(source@) == Ok::<Seq<StmtView>, RedbellyErrorView>(
                stmts_view(stmts@),
            ),
            Err(e) => compiled(source@) == Err::<Seq<StmtView>, RedbellyErrorView>(e@),
        },
{
    let ghost text = source@;
    proof {
        assert(text.skip(0) =~= text);
    }
    let mut lexer = Lexer::new(source);
    let tokens = match lexer.scan() {
        Ok(tokens) => tokens,
        Err(e) => return Err(e),
    };
    proof {
        assert(text.skip(0) =~= text);
        let out = lex(text, 1);
        law_scanned_tokens_well_formed(text, 1);
        assert(token_views(tokens@) =~= out.tokens);
        let last = tokens@.len() - 1;
        assert(tokens@[last].token_type@.kind == TokenKind::Eof);
    }
    match Parser::parse_tokens(tokens) {
        Ok(stmts) => Ok(stmts),
        Err(errors) => {
            proof {
                reveal(parse_program);
                lemma_program_errors(token_views(tokens@), 0, Seq::empty(), Seq::empty());
            }
            let first = &errors[0];
            Err(RedbellyError::new(first.message.as_str(), first.token.line))
        },
    }
}

/// Reads bytes as UTF-8 text (invalid sequences standing as the replacement character),
/// then scans and parses it into statements.
pub fn parse_bytes(contents: Vec<u8>) -> (r: Result<Vec<Statement>, RedbellyError>)
    requires
        contents@.len() < usize::MAX,
    ensures
        match r {
            Ok(stmts) => compiled(lossy_utf8(contents@)) == Ok::<
                Seq<StmtView>,
                RedbellyErrorView,
            >(stmts_view(stmts@)),
            Err(e) => compiled(lossy_utf8(contents@)) == Err::<Seq<StmtView>, RedbellyErrorView>(
                e@,
            ),
        },
        valid_utf8(contents@) ==> lossy_utf8(contents@) == decode_utf8(contents@),
{
    let source = decode_lossy(&contents);
    parse_source(source)
}

/// Checks a program: reads the bytes as text and scans and parses it. Succeeds exactly
/// when the program has no scanning or parse error, and otherwise gives the first error.
pub fn run(contents: Vec<u8>) -> (r: Result<(), RedbellyError>)
    requires
        contents@.len() < usize::MAX,
    ensures
        match r {
            Ok(_) => compiled(lossy_utf8(contents@)) is Ok,
            Err(e) => compiled(lossy_utf8(contents@)) == Err::<Seq<StmtView>, RedbellyErrorView>(
                e@,
            ),
        },
        valid_utf8(contents@) ==> lossy_utf8(contents@) == decode_utf8(contents@),
{
    match parse_bytes(contents) {
        Ok(_) => Ok(()),
        Err(e) => Err(e),
    }
}

/// Anything after `//` up to the end of the line is ignored: a program that starts with a
/// comment scans and parses as the rest of the program alone.
pub proof fn law_comment_ignored_by_parse(comment: Seq<char>, rest: Seq<char>)
    requires
        !comment.contains('\n'),
        rest.len() == 0 || rest[0] == '\n',
    ensures
        compiled(seq!['/', '/'] + comment + rest) == compiled(rest),
{
    law_comment_ignored(comment, rest, 1);
}

} // verus!

pub mod text;
pub mod token;
pub mod scan_rules;
pub mod lexer;
pub mod scan_laws;
pub mod ast;
pub mod grammar;
pub mod grammar_laws;
pub mod parser;
pub mod environment;
pub mod printer;
