//! The parser: turns tokens into statements, following the grammar in `grammar`.
use vstd::prelude::*;
use crate::ast::{
    exprs_view, opt_expr_view, opt_stmt_view, lemma_exprs_view_len, stmts_view, AssignmentExpression, Binary, BlockStatement, CallExpression, ExprView,
    Expression, ExpressionStatement, Grouping, IfStatement, Literal, LiteralValue, LiteralView, Logical,
    FunctionStatement, PrintStatement, ReturnStatement, Statement, StmtView, Unary, VariableExpression, VariableStatement,
    WhileStatement,
};
use crate::grammar::{
    advance, assignment, at_end, binary, binary_tail, block_body, block_statement, call, call_tail,
    check, combine, consumed, declaration, done, expression, expression_statement, finish_call,
    desugar_for, for_clauses, for_statement, function_declaration, function_head, parameters, return_statement, if_statement, kind_at, level_has_op, operand, parse_program, primary,
    print_statement, program, skip_to_boundary, statement, synchronize, unary,
    var_declaration, while_statement, arguments, ParseErrorView, Parsed,
};
use crate::token::{token_views, Token, TokenKind, TokenType, TokenView};
use crate::text::{decimal, decimal_text};
use vstd::string::StringExecFns;

verus! {

/// A parse error: what went wrong and the token where it was noticed.
#[derive(Debug)]
pub struct ParseError {
    pub message: String,
    pub token: Token,
}

impl View for ParseError {
    type V = ParseErrorView;

    open spec fn view(&self) -> ParseErrorView {
        ParseErrorView { message: self.message@, token: self.token@ }
    }
}

impl ParseError {
    pub fn new(message: &str, token: &Token) -> (e: Self)
        ensures
            e@ == (ParseErrorView { message: message@, token: token@ }),
    {
        Self { message: message.to_string(), token: token.duplicate() }
    }
}

/// How a parse error reads: the line, the message, and the token it was found at (or
/// "end" at the end of input).
pub open spec fn describe_parse_error(e: ParseErrorView) -> Seq<char> {
    "[Line "@ + decimal_text(e.token.line) + "]: "@ + e.message + if e.token.token_type.kind
        == TokenKind::Eof {
        " at end"@
    } else {
        " at \""@ + e.token.lexeme + "\""@
    }
}

impl ParseError {
    /// The error as a line of text, as `describe_parse_error` says.
    pub fn to_string(&self) -> (s: String)
        ensures
            s@ == describe_parse_error(self@),
    {
        let mut s = String::from_str("[Line ");
        let line = decimal(self.token.line);
        s.append(line.as_str());
        s.append("]: ");
        s.append(self.message.as_str());
        if self.token.token_type.kind() == TokenKind::Eof {
            s.append(" at end");
        } else {
            s.append(" at \"");
            s.append(self.token.lexeme.as_str());
            s.append("\"");
        }
        s
    }
}

pub open spec fn parse_error_views(v: Seq<ParseError>) -> Seq<ParseErrorView> {
    v.map_values(|e: ParseError| e@)
}

pub open spec fn expr_result(r: Result<Expression, ParseError>) -> Result<ExprView, ParseErrorView> {
    match r {
        Ok(e) => Ok(e@),
        Err(e) => Err(e@),
    }
}

pub open spec fn stmt_result(r: Result<Statement, ParseError>) -> Result<StmtView, ParseErrorView> {
    match r {
        Ok(s) => Ok(s@),
        Err(e) => Err(e@),
    }
}

/// Whether a parser may look at `pos`: the position holds a token and an end marker lies
/// at or after it.
pub open spec fn readable(toks: Seq<TokenView>, pos: int) -> bool {
    &&& 0 <= pos < toks.len()
    &&& exists|e: int| pos <= e < toks.len() && #[trigger] kind_at(toks, e) == TokenKind::Eof
}

/// Whether a parser may read on from `pos`: it may look there, and the first token is not
/// the end marker (so that at the end there is a token before).
pub open spec fn ready(toks: Seq<TokenView>, pos: int) -> bool {
    &&& readable(toks, pos)
    &&& !at_end(toks, 0)
}

/// A rule that stopped at `after` never moved back from `before`, and moved on when it did
/// not start at the end.
pub open spec fn moved(toks: Seq<TokenView>, before: int, after: int) -> bool {
    &&& before <= after
    &&& !at_end(toks, before) ==> before < after
}

proof fn lemma_ready_advance(toks: Seq<TokenView>, pos: int)
    requires
        ready(toks, pos),
    ensures
        ready(toks, advance(toks, pos)),
{
    if !at_end(toks, pos) {
        let e = choose|e: int| pos <= e < toks.len() && #[trigger] kind_at(toks, e) == TokenKind::Eof;
        assert(e != pos);
        assert(pos + 1 <= e < toks.len() && kind_at(toks, e) == TokenKind::Eof);
    }
}

proof fn lemma_exprs_view_push(es: Seq<Expression>, e: Expression)
    ensures
        exprs_view(es.push(e)) == exprs_view(es).push(e@),
{
    assert(es.push(e).drop_last() =~= es);
}

proof fn lemma_stmts_view_push(ss: Seq<Statement>, s: Statement)
    ensures
        stmts_view(ss.push(s)) == stmts_view(ss).push(s@),
{
    assert(ss.push(s).drop_last() =~= ss);
}

pub struct Parser {
    tokens: Vec<Token>,
    index: usize,
}

impl Parser {
    pub closed spec fn toks(&self) -> Seq<TokenView> {
        token_views(self.tokens@)
    }

    pub closed spec fn pos(&self) -> int {
        self.index as int
    }

    /// The token at the current index.
    fn peek(&self) -> (t: &Token)
        requires
            readable(self.toks(), self.pos()),
        ensures
            t@ == self.toks()[self.pos()],
    {
        &self.tokens[self.index]
    }

    /// A copy of the token before the current index.
    fn previous(&self) -> (t: Token)
        requires
            1 <= self.pos() <= self.toks().len(),
        ensures
            t@ == self.toks()[self.pos() - 1],
    {
        self.tokens[self.index - 1].duplicate()
    }

    fn is_at_end(&self) -> (b: bool)
        requires
            readable(self.toks(), self.pos()),
        ensures
            b == at_end(self.toks(), self.pos()),
    {
        self.peek().token_type.kind() == TokenKind::Eof
    }

    /// Whether the token at the current index is of the given kind (never at the end).
    fn check(&self, kind: TokenKind) -> (b: bool)
        requires
            readable(self.toks(), self.pos()),
        ensures
            b == check(self.toks(), self.pos(), kind),
    {
        if self.is_at_end() {
            return false;
        }
        self.peek().token_type.kind() == kind
    }

    /// Moves past the current token, except at the end, and returns the token moved past
    /// (at the end, the token before).
    fn consume(&mut self) -> (t: Token)
        requires
            ready(old(self).toks(), old(self).pos()),
        ensures
            final(self).tokens == old(self).tokens,
            final(self).pos() == advance(old(self).toks(), old(self).pos()),
            ready(final(self).toks(), final(self).pos()),
            t@ == consumed(old(self).toks(), old(self).pos()),
    {
        proof {
            lemma_ready_advance(self.toks(), self.pos());
        }
        if !self.is_at_end() {
            assert(self.index + 1 < self.tokens.len());
            self.index = self.index + 1;
        }
        self.previous()
    }

    /// Consumes the current token when it is of the given kind.
    fn conditional_consume(&mut self, kind: TokenKind) -> (b: bool)
        requires
            ready(old(self).toks(), old(self).pos()),
        ensures
            final(self).tokens == old(self).tokens,
            b == check(old(self).toks(), old(self).pos(), kind),
            final(self).pos() == if b {
                old(self).pos() + 1
            } else {
                old(self).pos()
            },
            ready(final(self).toks(), final(self).pos()),
    {
        if self.check(kind) {
            self.consume();
            true
        } else {
            false
        }
    }
}

} // verus!

verus! {

impl Parser {
    /// What an expression rule did: it kept the tokens, stopped at a readable position
    /// without moving back, and its position and result are those of `spec`.
    pub closed spec fn expr_rule(
        &self,
        after: &Parser,
        r: Result<Expression, ParseError>,
        spec: Parsed<ExprView>,
    ) -> bool {
        &&& after.tokens == self.tokens
        &&& ready(after.toks(), after.pos())
        &&& moved(self.toks(), self.pos(), after.pos())
        &&& after.pos() == spec.pos
        &&& expr_result(r) == spec.result
    }

    #[verifier::rlimit(60)]
    fn primary(&mut self) -> (r: Result<Expression, ParseError>)
        requires
            ready(old(self).toks(), old(self).pos()),
        ensures
            old(self).expr_rule(final(self), r, primary(old(self).toks(), old(self).pos())),
        decreases old(self).toks().len() - old(self).pos(), 1nat,
    {
        if self.conditional_consume(TokenKind::False) {
            return Ok(Expression::Literal(Literal { value: LiteralValue::False }));
        }
        if self.conditional_consume(TokenKind::True) {
            return Ok(Expression::Literal(Literal { value: LiteralValue::True }));
        }
        if self.conditional_consume(TokenKind::Nil) {
            return Ok(Expression::Literal(Literal { value: LiteralValue::Nil }));
        }
        // For matching tokens with inner values
        if !self.is_at_end() {
            let value = match &self.peek().token_type {
                TokenType::String(s) => Some(LiteralValue::String(s.clone())),
                TokenType::Number(n) => Some(LiteralValue::Number(n.clone())),
                _ => None,
            };
            if let Some(value) = value {
                self.consume();
                return Ok(Expression::Literal(Literal { value }));
            }
        }
        if self.conditional_consume(TokenKind::Identifier) {
            return Ok(Expression::Variable(VariableExpression { name: self.previous() }));
        }
        if self.conditional_consume(TokenKind::LeftParen) {
            let expr = match self.expression() {
                Ok(e) => e,
                Err(e) => return Err(e),
            };
            if self.conditional_consume(TokenKind::RightParen) {
                return Ok(Expression::Grouping(Grouping { expr: Box::new(expr) }));
            }
        }
        Err(ParseError::new("Expect Expression", &self.consume()))
    }

    /// The arguments of a call: expressions separated by commas.
    fn arguments(&mut self) -> (r: Result<Vec<Expression>, ParseError>)
        requires
            ready(old(self).toks(), old(self).pos()),
        ensures
            final(self).tokens == old(self).tokens,
            ready(final(self).toks(), final(self).pos()),
            moved(old(self).toks(), old(self).pos(), final(self).pos()),
            ({
                let spec = arguments(old(self).toks(), old(self).pos(), Seq::empty());
                &&& final(self).pos() == spec.pos
                &&& match r {
                    Ok(v) => spec.result == Ok::<Seq<ExprView>, ParseErrorView>(exprs_view(v@)),
                    Err(e) => spec.result == Err::<Seq<ExprView>, ParseErrorView>(e@),
                }
            }),
        decreases old(self).toks().len() - old(self).pos(), 22nat,
    {
        let ghost toks = self.toks();
        let ghost p0 = self.pos();
        let mut args: Vec<Expression> = Vec::new();
        loop
            invariant_except_break
                self.tokens == old(self).tokens,
                toks == self.toks(),
                p0 == old(self).pos(),
                ready(toks, self.pos()),
                p0 <= self.pos(),
                args@.len() > 0 ==> moved(toks, p0, self.pos()),
                arguments(toks, p0, Seq::empty()) == arguments(
                    toks,
                    self.pos(),
                    exprs_view(args@),
                ),
            ensures
                self.tokens == old(self).tokens,
                toks == self.toks(),
                ready(toks, self.pos()),
                moved(toks, p0, self.pos()),
                arguments(toks, p0, Seq::empty()) == done(exprs_view(args@), self.pos()),
            decreases toks.len() - self.pos(),
        {
            let arg = match self.expression() {
                Ok(e) => e,
                Err(e) => return Err(e),
            };
            proof {
                lemma_exprs_view_push(args@, arg);
            }
            args.push(arg);
            if !self.conditional_consume(TokenKind::Comma) {
                break ;
            }
        }
        Ok(args)
    }

    #[verifier::rlimit(60)]
    fn finish_call(&mut self, callee: Expression) -> (r: Result<Expression, ParseError>)
        requires
            ready(old(self).toks(), old(self).pos()),
        ensures
            old(self).expr_rule(
                final(self),
                r,
                finish_call(old(self).toks(), old(self).pos(), callee@),
            ),
        decreases old(self).toks().len() - old(self).pos(), 23nat,
    {
        let args = if !self.check(TokenKind::RightParen) {
            match self.arguments() {
                Ok(v) => v,
                Err(e) => return Err(e),
            }
        } else {
            Vec::new()
        };
        proof {
            lemma_exprs_view_len(args@);
            assert(exprs_view(Seq::<Expression>::empty()) =~= Seq::<ExprView>::empty());
        }
        if args.len() >= 255 {
            return Err(
                ParseError::new("A function cannot have more then 255 arguments", self.peek()),
            );
        }
        let token = self.consume();
        if token.token_type.kind() == TokenKind::RightParen {
            Ok(
                Expression::Call(
                    CallExpression { callee: Box::new(callee), parentheses: token, arguments: args },
                ),
            )
        } else {
            Err(ParseError::new("Expected ')' after arguments", &self.consume()))
        }
    }

    fn call(&mut self) -> (r: Result<Expression, ParseError>)
        requires
            ready(old(self).toks(), old(self).pos()),
        ensures
            old(self).expr_rule(final(self), r, call(old(self).toks(), old(self).pos())),
        decreases old(self).toks().len() - old(self).pos(), 3nat,
    {
        let ghost toks = self.toks();
        let ghost p0 = self.pos();
        let mut expr = match self.primary() {
            Ok(e) => e,
            Err(e) => return Err(e),
        };
        loop
            invariant_except_break
                self.tokens == old(self).tokens,
                toks == self.toks(),
                p0 == old(self).pos(),
                ready(toks, self.pos()),
                moved(toks, p0, self.pos()),
                call(toks, p0) == call_tail(toks, self.pos(), expr@),
            ensures
                self.tokens == old(self).tokens,
                toks == self.toks(),
                ready(toks, self.pos()),
                moved(toks, p0, self.pos()),
                call(toks, p0) == done(expr@, self.pos()),
            decreases toks.len() - self.pos(),
        {
            if self.conditional_consume(TokenKind::LeftParen) {
                expr = match self.finish_call(expr) {
                    Ok(e) => e,
                    Err(e) => return Err(e),
                };
            } else {
                break ;
            }
        }
        Ok(expr)
    }

    fn unary(&mut self) -> (r: Result<Expression, ParseError>)
        requires
            ready(old(self).toks(), old(self).pos()),
        ensures
            old(self).expr_rule(final(self), r, unary(old(self).toks(), old(self).pos())),
        decreases old(self).toks().len() - old(self).pos(), 4nat,
    {
        if self.check(TokenKind::Bang) || self.check(TokenKind::Minus) {
            let operator = self.consume();
            let right = match self.unary() {
                Ok(e) => e,
                Err(e) => return Err(e),
            };
            return Ok(Expression::Unary(Unary { operator, right: Box::new(right) }));
        }
        self.call()
    }

    /// Whether `kind` is an operator of the given level of binary operators.
    fn level_has_op(level: u8, kind: TokenKind) -> (b: bool)
        ensures
            b == level_has_op(level as nat, kind),
    {
        if level == 0 {
            kind == TokenKind::Slash || kind == TokenKind::Star
        } else if level == 1 {
            kind == TokenKind::Minus || kind == TokenKind::Plus
        } else if level == 2 {
            kind == TokenKind::Greater || kind == TokenKind::GreaterEqual || kind == TokenKind::Less
                || kind == TokenKind::LessEqual
        } else if level == 3 {
            kind == TokenKind::BangEqual || kind == TokenKind::EqualEqual
        } else if level == 4 {
            kind == TokenKind::And
        } else {
            kind == TokenKind::Or
        }
    }

    fn combine(level: u8, left: Expression, operator: Token, right: Expression) -> (e: Expression)
        ensures
            e@ == combine(level as nat, left@, operator@, right@),
    {
        if level >= 4 {
            Expression::Logical(Logical { left: Box::new(left), operator, right: Box::new(right) })
        } else {
            Expression::Binary(Binary { left: Box::new(left), operator, right: Box::new(right) })
        }
    }

    /// The operand of a level of binary operators.
    fn operand(&mut self, level: u8) -> (r: Result<Expression, ParseError>)
        requires
            ready(old(self).toks(), old(self).pos()),
            level <= 5,
        ensures
            old(self).expr_rule(
                final(self),
                r,
                operand(old(self).toks(), old(self).pos(), level as nat),
            ),
        decreases old(self).toks().len() - old(self).pos(), 3 * level + 7,
    {
        if level == 0 {
            self.unary()
        } else {
            self.binary_level(level - 1)
        }
    }

    /// A level of left-associative binary operators.
    fn binary_level(&mut self, level: u8) -> (r: Result<Expression, ParseError>)
        requires
            ready(old(self).toks(), old(self).pos()),
            level <= 5,
        ensures
            old(self).expr_rule(
                final(self),
                r,
                binary(old(self).toks(), old(self).pos(), level as nat),
            ),
        decreases old(self).toks().len() - old(self).pos(), 3 * level + 9,
    {
        let ghost toks = self.toks();
        let ghost p0 = self.pos();
        let mut expr = match self.operand(level) {
            Ok(e) => e,
            Err(e) => return Err(e),
        };
        loop
            invariant_except_break
                self.tokens == old(self).tokens,
                toks == self.toks(),
                p0 == old(self).pos(),
                level <= 5,
                ready(toks, self.pos()),
                moved(toks, p0, self.pos()),
                binary(toks, p0, level as nat) == binary_tail(
                    toks,
                    self.pos(),
                    level as nat,
                    expr@,
                ),
            ensures
                self.tokens == old(self).tokens,
                toks == self.toks(),
                ready(toks, self.pos()),
                moved(toks, p0, self.pos()),
                binary(toks, p0, level as nat) == done(expr@, self.pos()),
            decreases toks.len() - self.pos(),
        {
            if !self.is_at_end() && Parser::level_has_op(level, self.peek().token_type.kind()) {
                let operator = self.consume();
                let right = match self.operand(level) {
                    Ok(e) => e,
                    Err(e) => return Err(e),
                };
                expr = Parser::combine(level, expr, operator, right);
            } else {
                break ;
            }
        }
        Ok(expr)
    }

    fn factor(&mut self) -> (r: Result<Expression, ParseError>)
        requires
            ready(old(self).toks(), old(self).pos()),
        ensures
            old(self).expr_rule(final(self), r, binary(old(self).toks(), old(self).pos(), 0)),
    {
        self.binary_level(0)
    }

    fn term(&mut self) -> (r: Result<Expression, ParseError>)
        requires
            ready(old(self).toks(), old(self).pos()),
        ensures
            old(self).expr_rule(final(self), r, binary(old(self).toks(), old(self).pos(), 1)),
    {
        self.binary_level(1)
    }

    fn comparison(&mut self) -> (r: Result<Expression, ParseError>)
        requires
            ready(old(self).toks(), old(self).pos()),
        ensures
            old(self).expr_rule(final(self), r, binary(old(self).toks(), old(self).pos(), 2)),
    {
        self.binary_level(2)
    }

    fn equality(&mut self) -> (r: Result<Expression, ParseError>)
        requires
            ready(old(self).toks(), old(self).pos()),
        ensures
            old(self).expr_rule(final(self), r, binary(old(self).toks(), old(self).pos(), 3)),
        decreases old(self).toks().len() - old(self).pos(), 19nat,
    {
        self.binary_level(3)
    }

    fn and(&mut self) -> (r: Result<Expression, ParseError>)
        requires
            ready(old(self).toks(), old(self).pos()),
        ensures
            old(self).expr_rule(final(self), r, binary(old(self).toks(), old(self).pos(), 4)),
    {
        self.binary_level(4)
    }

    fn or(&mut self) -> (r: Result<Expression, ParseError>)
        requires
            ready(old(self).toks(), old(self).pos()),
        ensures
            old(self).expr_rule(final(self), r, binary(old(self).toks(), old(self).pos(), 5)),
        decreases old(self).toks().len() - old(self).pos(), 25nat,
    {
        self.binary_level(5)
    }

    fn assignment(&mut self) -> (r: Result<Expression, ParseError>)
        requires
            ready(old(self).toks(), old(self).pos()),
        ensures
            old(self).expr_rule(final(self), r, assignment(old(self).toks(), old(self).pos())),
        decreases old(self).toks().len() - old(self).pos(), 20nat,
    {
        let expr = match self.equality() {
            Ok(e) => e,
            Err(e) => return Err(e),
        };
        if self.conditional_consume(TokenKind::Equal) {
            let equals = self.previous();
            let value = match self.assignment() {
                Ok(e) => e,
                Err(e) => return Err(e),
            };
            match expr {
                Expression::Variable(var) => {
                    return Ok(
                        Expression::Assignment(
                            AssignmentExpression { name: var.name, value: Box::new(value) },
                        ),
                    );
                },
                _ => return Err(ParseError::new("Invalid assignment target", &equals)),
            }
        }
        Ok(expr)
    }

    fn expression(&mut self) -> (r: Result<Expression, ParseError>)
        requires
            ready(old(self).toks(), old(self).pos()),
        ensures
            old(self).expr_rule(final(self), r, expression(old(self).toks(), old(self).pos())),
        decreases old(self).toks().len() - old(self).pos(), 21nat,
    {
        self.assignment()
    }
}

} // verus!

verus! {

proof fn lemma_stmts_view_two(a: Statement, b: Statement)
    ensures
        stmts_view(seq![a, b]) == seq![a@, b@],
{
    reveal_with_fuel(stmts_view, 3);
    assert(seq![a, b].drop_last() =~= seq![a]);
    assert(seq![a].drop_last() =~= Seq::<Statement>::empty());
    assert(stmts_view(seq![a, b]) =~= seq![a@, b@]);
}

impl Parser {
    /// What a statement rule did: it kept the tokens, stopped at a readable position
    /// without moving back, and its position and result are those of `spec`.
    pub closed spec fn stmt_rule(
        &self,
        after: &Parser,
        r: Result<Statement, ParseError>,
        spec: Parsed<StmtView>,
    ) -> bool {
        &&& after.tokens == self.tokens
        &&& ready(after.toks(), after.pos())
        &&& moved(self.toks(), self.pos(), after.pos())
        &&& after.pos() == spec.pos
        &&& stmt_result(r) == spec.result
    }

    /// Error recovery: skips to the next statement boundary.
    fn synchronize(&mut self)
        requires
            ready(old(self).toks(), old(self).pos()),
        ensures
            final(self).tokens == old(self).tokens,
            ready(final(self).toks(), final(self).pos()),
            old(self).pos() <= final(self).pos(),
            final(self).pos() == synchronize(old(self).toks(), old(self).pos()),
    {
        let ghost toks = self.toks();
        self.consume();
        while !self.is_at_end()
            invariant
                self.tokens == old(self).tokens,
                toks == self.toks(),
                ready(toks, self.pos()),
                old(self).pos() <= self.pos(),
                self.pos() >= 1,
                synchronize(toks, old(self).pos()) == skip_to_boundary(toks, self.pos()),
            decreases toks.len() - self.pos(),
        {
            if self.previous().token_type.kind() == TokenKind::Semicolon {
                return ;
            }
            match self.peek().token_type.kind() {
                TokenKind::Class | TokenKind::Func | TokenKind::Let | TokenKind::For
                | TokenKind::If | TokenKind::While | TokenKind::Print | TokenKind::Return => {
                    return ;
                },
                _ => (),
            }
            self.consume();
        }
    }

    /// varDecl, after the `let`.
    #[verifier::rlimit(40)]
    fn var_declaration(&mut self) -> (r: Result<Statement, ParseError>)
        requires
            ready(old(self).toks(), old(self).pos()),
            old(self).pos() >= 1,
        ensures
            final(self).tokens == old(self).tokens,
            ready(final(self).toks(), final(self).pos()),
            old(self).pos() <= final(self).pos(),
            final(self).pos() == var_declaration(old(self).toks(), old(self).pos()).pos,
            stmt_result(r) == var_declaration(old(self).toks(), old(self).pos()).result,
        decreases old(self).toks().len() - old(self).pos(), 50nat,
    {
        if !self.conditional_consume(TokenKind::Identifier) {
            return Err(ParseError::new("Expect Variable name", &self.previous()));
        }
        let name = self.previous();
        let mut initializer = None;
        if self.conditional_consume(TokenKind::Equal) {
            initializer = Some(
                match self.expression() {
                    Ok(e) => e,
                    Err(e) => return Err(e),
                },
            );
        }
        if !self.conditional_consume(TokenKind::Semicolon) {
            return Err(
                ParseError::new("Expect Semicolon after variable declaration", &self.previous()),
            );
        }
        Ok(Statement::Variable(VariableStatement { name, initializer }))
    }

    #[verifier::rlimit(50)]
    fn expression_statement(&mut self) -> (r: Result<Statement, ParseError>)
        requires
            ready(old(self).toks(), old(self).pos()),
        ensures
            old(self).stmt_rule(
                final(self),
                r,
                expression_statement(old(self).toks(), old(self).pos()),
            ),
        decreases old(self).toks().len() - old(self).pos(), 40nat,
    {
        let expr = match self.expression() {
            Ok(e) => e,
            Err(e) => return Err(e),
        };
        if self.conditional_consume(TokenKind::Semicolon) {
            Ok(Statement::Expression(ExpressionStatement { expr }))
        } else {
            Err(ParseError::new("Expected ; after expression", &self.consume()))
        }
    }

    /// printStmt, after the `print`.
    #[verifier::rlimit(50)]
    fn print_statement(&mut self) -> (r: Result<Statement, ParseError>)
        requires
            ready(old(self).toks(), old(self).pos()),
        ensures
            old(self).stmt_rule(final(self), r, print_statement(old(self).toks(), old(self).pos())),
        decreases old(self).toks().len() - old(self).pos(), 41nat,
    {
        let expr = match self.expression() {
            Ok(e) => e,
            Err(e) => return Err(e),
        };
        if self.conditional_consume(TokenKind::Semicolon) {
            Ok(Statement::Print(PrintStatement { expr }))
        } else {
            Err(ParseError::new("Expected ; after value", &self.consume()))
        }
    }

    #[verifier::rlimit(50)]
    fn statement(&mut self) -> (r: Result<Statement, ParseError>)
        requires
            ready(old(self).toks(), old(self).pos()),
        ensures
            old(self).stmt_rule(final(self), r, statement(old(self).toks(), old(self).pos())),
        decreases old(self).toks().len() - old(self).pos(), 60nat,
    {
        if self.conditional_consume(TokenKind::Print) {
            return self.print_statement();
        }
        if self.conditional_consume(TokenKind::Return) {
            return self.return_statement();
        }
        if self.conditional_consume(TokenKind::LeftBrace) {
            return self.block_statement();
        }
        if self.conditional_consume(TokenKind::If) {
            return self.if_statement();
        }
        if self.conditional_consume(TokenKind::While) {
            return self.while_statement();
        }
        if self.conditional_consume(TokenKind::For) {
            return self.for_statement();
        }
        self.expression_statement()
    }

    /// returnStmt, after the `return`.
    #[verifier::rlimit(50)]
    fn return_statement(&mut self) -> (r: Result<Statement, ParseError>)
        requires
            ready(old(self).toks(), old(self).pos()),
        ensures
            old(self).stmt_rule(final(self), r, return_statement(old(self).toks(), old(self).pos())),
        decreases old(self).toks().len() - old(self).pos(), 42nat,
    {
        let value = match self.expression() {
            Ok(e) => e,
            Err(e) => return Err(e),
        };
        if self.conditional_consume(TokenKind::Semicolon) {
            Ok(Statement::Return(ReturnStatement { value }))
        } else {
            Err(ParseError::new("Expect ; after return value", &self.consume()))
        }
    }

    /// The parameter names of a function declaration, separated by commas.
    fn parameters(&mut self) -> (r: Result<Vec<Token>, ParseError>)
        requires
            ready(old(self).toks(), old(self).pos()),
        ensures
            final(self).tokens == old(self).tokens,
            ready(final(self).toks(), final(self).pos()),
            moved(old(self).toks(), old(self).pos(), final(self).pos()),
            ({
                let spec = parameters(old(self).toks(), old(self).pos(), Seq::empty());
                &&& final(self).pos() == spec.pos
                &&& match r {
                    Ok(v) => spec.result == Ok::<Seq<TokenView>, ParseErrorView>(token_views(v@)),
                    Err(e) => spec.result == Err::<Seq<TokenView>, ParseErrorView>(e@),
                }
            }),
    {
        let ghost toks = self.toks();
        let ghost p0 = self.pos();
        let mut params: Vec<Token> = Vec::new();
        proof {
            assert(token_views(params@) =~= Seq::<TokenView>::empty());
        }
        loop
            invariant_except_break
                self.tokens == old(self).tokens,
                toks == self.toks(),
                p0 == old(self).pos(),
                ready(toks, self.pos()),
                p0 <= self.pos(),
                params@.len() > 0 ==> p0 < self.pos(),
                parameters(toks, p0, Seq::empty()) == parameters(
                    toks,
                    self.pos(),
                    token_views(params@),
                ),
            ensures
                self.tokens == old(self).tokens,
                toks == self.toks(),
                ready(toks, self.pos()),
                p0 < self.pos(),
                parameters(toks, p0, Seq::empty()) == done(token_views(params@), self.pos()),
            decreases toks.len() - self.pos(),
        {
            if !self.conditional_consume(TokenKind::Identifier) {
                return Err(ParseError::new("Expect parameter name", &self.consume()));
            }
            let name = self.previous();
            proof {
                assert(token_views(params@.push(name)) =~= token_views(params@).push(name@));
            }
            params.push(name);
            if !self.conditional_consume(TokenKind::Comma) {
                break ;
            }
        }
        Ok(params)
    }

    /// The head of a function declaration, after the `func`, up to and with the `{`.
    #[verifier::rlimit(60)]
    fn function_head(&mut self) -> (r: Result<(Token, Vec<Token>), ParseError>)
        requires
            ready(old(self).toks(), old(self).pos()),
        ensures
            final(self).tokens == old(self).tokens,
            ready(final(self).toks(), final(self).pos()),
            moved(old(self).toks(), old(self).pos(), final(self).pos()),
            ({
                let spec = function_head(old(self).toks(), old(self).pos());
                &&& final(self).pos() == spec.pos
                &&& match r {
                    Ok(h) => spec.result == Ok::<(TokenView, Seq<TokenView>), ParseErrorView>(
                        (h.0@, token_views(h.1@)),
                    ),
                    Err(e) => spec.result == Err::<(TokenView, Seq<TokenView>), ParseErrorView>(
                        e@,
                    ),
                }
            }),
    {
        if !self.conditional_consume(TokenKind::Identifier) {
            return Err(ParseError::new("Expect function name", &self.consume()));
        }
        let name = self.previous();
        if !self.conditional_consume(TokenKind::LeftParen) {
            return Err(ParseError::new("Expect '(' after function name", &self.consume()));
        }
        let mut parameters: Vec<Token> = Vec::new();
        proof {
            assert(token_views(parameters@) =~= Seq::<TokenView>::empty());
        }
        if !self.check(TokenKind::RightParen) {
            parameters = match self.parameters() {
                Ok(p) => p,
                Err(e) => return Err(e),
            };
        }
        if !self.conditional_consume(TokenKind::RightParen) {
            return Err(ParseError::new("Expect ')' after parameters", &self.consume()));
        }
        if !self.conditional_consume(TokenKind::LeftBrace) {
            return Err(ParseError::new("Expect '{' before function body", &self.consume()));
        }
        Ok((name, parameters))
    }

    /// function, after the `func`.
    fn function_declaration(&mut self) -> (r: Result<Statement, ParseError>)
        requires
            ready(old(self).toks(), old(self).pos()),
        ensures
            old(self).stmt_rule(
                final(self),
                r,
                function_declaration(old(self).toks(), old(self).pos()),
            ),
        decreases old(self).toks().len() - old(self).pos(), 71nat,
    {
        let (name, parameters) = match self.function_head() {
            Ok(h) => h,
            Err(e) => return Err(e),
        };
        let body = match self.block_statement() {
            Ok(b) => b,
            Err(e) => return Err(e),
        };
        Ok(Statement::Function(FunctionStatement { name, parameters, body: Box::new(body) }))
    }

    #[verifier::rlimit(50)]
    fn declaration(&mut self) -> (r: Result<Statement, ParseError>)
        requires
            ready(old(self).toks(), old(self).pos()),
        ensures
            old(self).stmt_rule(final(self), r, declaration(old(self).toks(), old(self).pos())),
        decreases old(self).toks().len() - old(self).pos(), 70nat,
    {
        if self.conditional_consume(TokenKind::Func) {
            return self.function_declaration();
        }
        if self.conditional_consume(TokenKind::Let) {
            match self.var_declaration() {
                Err(error) => {
                    self.synchronize();
                    return Err(error);
                },
                Ok(stmt) => return Ok(stmt),
            }
        }
        self.statement()
    }

    /// block, after the `{`.
    #[verifier::rlimit(50)]
    fn block_statement(&mut self) -> (r: Result<Statement, ParseError>)
        requires
            ready(old(self).toks(), old(self).pos()),
        ensures
            old(self).stmt_rule(final(self), r, block_statement(old(self).toks(), old(self).pos())),
        decreases old(self).toks().len() - old(self).pos(), 81nat,
    {
        let ghost toks = self.toks();
        let ghost p0 = self.pos();
        let mut statements: Vec<Statement> = Vec::new();
        proof {
            assert(stmts_view(statements@) =~= Seq::<StmtView>::empty());
        }
        while !self.check(TokenKind::RightBrace) && !self.is_at_end()
            invariant
                self.tokens == old(self).tokens,
                toks == self.toks(),
                p0 == old(self).pos(),
                ready(toks, self.pos()),
                p0 <= self.pos(),
                block_body(toks, p0, Seq::empty()) == block_body(
                    toks,
                    self.pos(),
                    stmts_view(statements@),
                ),
            decreases toks.len() - self.pos(),
        {
            let stmt = match self.declaration() {
                Ok(s) => s,
                Err(e) => return Err(e),
            };
            proof {
                lemma_stmts_view_push(statements@, stmt);
            }
            statements.push(stmt);
        }
        if !self.conditional_consume(TokenKind::RightBrace) {
            Err(ParseError::new("Expect '}' after block", &self.consume()))
        } else {
            Ok(Statement::Block(BlockStatement { statements }))
        }
    }

    /// ifStmt, after the `if`.
    #[verifier::rlimit(60)]
    fn if_statement(&mut self) -> (r: Result<Statement, ParseError>)
        requires
            ready(old(self).toks(), old(self).pos()),
        ensures
            old(self).stmt_rule(final(self), r, if_statement(old(self).toks(), old(self).pos())),
        decreases old(self).toks().len() - old(self).pos(), 82nat,
    {
        if !self.conditional_consume(TokenKind::LeftParen) {
            return Err(ParseError::new("Expect '(' after if", &self.consume()));
        }
        let condition = match self.or() {
            Ok(e) => e,
            Err(e) => return Err(e),
        };
        if !self.conditional_consume(TokenKind::RightParen) {
            return Err(ParseError::new("Expect ')' after if condition", &self.consume()));
        }
        let then_branch = match self.statement() {
            Ok(s) => s,
            Err(e) => return Err(e),
        };
        let mut else_branch = None;
        if self.conditional_consume(TokenKind::Else) {
            else_branch = Some(
                Box::new(
                    match self.statement() {
                        Ok(s) => s,
                        Err(e) => return Err(e),
                    },
                ),
            );
        }
        Ok(
            Statement::If(
                IfStatement { condition, then_branch: Box::new(then_branch), else_branch },
            ),
        )
    }

    /// whileStmt, after the `while`.
    #[verifier::rlimit(50)]
    fn while_statement(&mut self) -> (r: Result<Statement, ParseError>)
        requires
            ready(old(self).toks(), old(self).pos()),
        ensures
            old(self).stmt_rule(final(self), r, while_statement(old(self).toks(), old(self).pos())),
        decreases old(self).toks().len() - old(self).pos(), 83nat,
    {
        if !self.conditional_consume(TokenKind::LeftParen) {
            return Err(ParseError::new("Expect '(' after while", &self.consume()));
        }
        let condition = match self.expression() {
            Ok(e) => e,
            Err(e) => return Err(e),
        };
        if !self.conditional_consume(TokenKind::RightParen) {
            return Err(ParseError::new("Expect ')' after condition", &self.consume()));
        }
        let body = match self.statement() {
            Ok(s) => s,
            Err(e) => return Err(e),
        };
        Ok(Statement::While(WhileStatement { condition, body: Box::new(body) }))
    }

    /// The clauses of a `for` loop, after its `(`, up to and with its `)`.
    #[verifier::rlimit(60)]
    fn for_clauses(&mut self) -> (r: Result<
        (Option<Statement>, Option<Expression>, Option<Expression>),
        ParseError,
    >)
        requires
            ready(old(self).toks(), old(self).pos()),
        ensures
            final(self).tokens == old(self).tokens,
            ready(final(self).toks(), final(self).pos()),
            moved(old(self).toks(), old(self).pos(), final(self).pos()),
            ({
                let spec = for_clauses(old(self).toks(), old(self).pos());
                &&& final(self).pos() == spec.pos
                &&& match r {
                    Ok(c) => spec.result == Ok::<
                        (Option<StmtView>, Option<ExprView>, Option<ExprView>),
                        ParseErrorView,
                    >((opt_stmt_view(c.0), opt_expr_view(c.1), opt_expr_view(c.2))),
                    Err(e) => spec.result == Err::<
                        (Option<StmtView>, Option<ExprView>, Option<ExprView>),
                        ParseErrorView,
                    >(e@),
                }
            }),
        decreases old(self).toks().len() - old(self).pos(), 46nat,
    {
        // Initaliser
        let opt_initaliser: Option<Statement>;
        if self.conditional_consume(TokenKind::Semicolon) {
            opt_initaliser = None;
        } else if self.conditional_consume(TokenKind::Let) {
            opt_initaliser = Some(
                match self.var_declaration() {
                    Ok(s) => s,
                    Err(e) => return Err(e),
                },
            );
        } else {
            opt_initaliser = Some(
                match self.expression_statement() {
                    Ok(s) => s,
                    Err(e) => return Err(e),
                },
            );
        }
        // Condition
        let mut opt_condition = None;
        if !self.check(TokenKind::Semicolon) {
            opt_condition = Some(
                match self.expression() {
                    Ok(e) => e,
                    Err(e) => return Err(e),
                },
            );
        }
        if !self.conditional_consume(TokenKind::Semicolon) {
            return Err(ParseError::new("Expect ';' after loop condition", &self.consume()));
        }
        // Increment
        let mut increment = None;
        if !self.check(TokenKind::RightParen) {
            increment = Some(
                match self.expression() {
                    Ok(e) => e,
                    Err(e) => return Err(e),
                },
            );
        }
        if !self.conditional_consume(TokenKind::RightParen) {
            return Err(ParseError::new("Expect ')' after for clauses", &self.consume()));
        }
        Ok((opt_initaliser, opt_condition, increment))
    }

    /// forStmt, after the `for`, desugared into a `while` loop.
    fn for_statement(&mut self) -> (r: Result<Statement, ParseError>)
        requires
            ready(old(self).toks(), old(self).pos()),
        ensures
            old(self).stmt_rule(final(self), r, for_statement(old(self).toks(), old(self).pos())),
        decreases old(self).toks().len() - old(self).pos(), 84nat,
    {
        if !self.conditional_consume(TokenKind::LeftParen) {
            return Err(ParseError::new("Expect '(' after for", &self.consume()));
        }
        let (opt_initaliser, opt_condition, increment) = match self.for_clauses() {
            Ok(c) => c,
            Err(e) => return Err(e),
        };
        let body = match self.statement() {
            Ok(s) => s,
            Err(e) => return Err(e),
        };
        Ok(desugar_for_loop(opt_initaliser, opt_condition, increment, body))
    }
}

/// Builds the statement a `for` loop stands for (see `desugar_for`).
fn desugar_for_loop(
    initializer: Option<Statement>,
    condition: Option<Expression>,
    increment: Option<Expression>,
    body: Statement,
) -> (s: Statement)
    ensures
        s@ == desugar_for(
            opt_stmt_view(initializer),
            opt_expr_view(condition),
            opt_expr_view(increment),
            body@,
        ),
{
    let ghost b0 = body@;
    let ghost inc = opt_expr_view(increment);
    let ghost stepped = match inc {
        Some(i) => StmtView::Block(seq![b0, StmtView::Expression(i)]),
        None => b0,
    };
    let mut body = body;
    if let Some(increment) = increment {
        let step = Statement::Expression(ExpressionStatement { expr: increment });
        proof {
            lemma_stmts_view_two(body, step);
        }
        body = Statement::Block(BlockStatement { statements: vec![body, step] });
        assert(body@ == stepped);
    }
    assert(body@ == stepped);
    let ghost cond = match opt_expr_view(condition) {
        Some(c) => c,
        None => ExprView::Literal(LiteralView::True),
    };
    let condition = match condition {
        Some(expr) => expr,
        None => Expression::Literal(Literal { value: LiteralValue::True }),
    };
    assert(condition@ == cond);
    body = Statement::While(WhileStatement { condition, body: Box::new(body) });
    assert(body@ == StmtView::While(cond, Box::new(stepped)));
    if let Some(init) = initializer {
        proof {
            lemma_stmts_view_two(init, body);
        }
        body = Statement::Block(BlockStatement { statements: vec![init, body] });
    }
    body
}

impl Parser {
    /// Parses a whole token sequence into statements. Every declaration that fails adds its
    /// error, and parsing goes on after it; the result is the statements when no error was
    /// met, and the errors otherwise.
    #[verifier::rlimit(50)]
    pub fn parse_tokens(tokens: Vec<Token>) -> (r: Result<Vec<Statement>, Vec<ParseError>>)
        requires
            exists|e: int|
                0 <= e < tokens@.len() && #[trigger] tokens@[e].token_type@.kind
                    == TokenKind::Eof,
        ensures
            match r {
                Ok(v) => parse_program(token_views(tokens@)) == Ok::<
                    Seq<StmtView>,
                    Seq<ParseErrorView>,
                >(stmts_view(v@)),
                Err(v) => parse_program(token_views(tokens@)) == Err::<
                    Seq<StmtView>,
                    Seq<ParseErrorView>,
                >(parse_error_views(v@)),
            },
    {
        let ghost toks = token_views(tokens@);
        proof {
            reveal(parse_program);
        }
        let mut errors: Vec<ParseError> = Vec::new();
        let mut parser = Self { tokens, index: 0 };
        let mut statements: Vec<Statement> = Vec::new();
        proof {
            let e = choose|e: int|
                0 <= e < tokens@.len() && #[trigger] tokens@[e].token_type@.kind == TokenKind::Eof;
            assert(kind_at(toks, e) == TokenKind::Eof);
            assert(stmts_view(statements@) =~= Seq::<StmtView>::empty());
            assert(parse_error_views(errors@) =~= Seq::<ParseErrorView>::empty());
        }
        while !parser.is_at_end()
            invariant
                toks == parser.toks(),
                readable(toks, parser.pos()),
                parser.pos() > 0 ==> !at_end(toks, 0),
                parse_program(toks) == program(
                    toks,
                    parser.pos(),
                    stmts_view(statements@),
                    parse_error_views(errors@),
                ),
            decreases toks.len() - parser.pos(),
        {
            match parser.declaration() {
                Ok(stmt) => {
                    proof {
                        lemma_stmts_view_push(statements@, stmt);
                    }
                    statements.push(stmt);
                },
                Err(error) => {
                    proof {
                        assert(parse_error_views(errors@.push(error)) =~= parse_error_views(
                            errors@,
                        ).push(error@));
                    }
                    errors.push(error);
                },
            }
        }
        if !errors.is_empty() {
            Err(errors)
        } else {
            Ok(statements)
        }
    }
}

} // verus!
