//! The grammar of the language, stated over sequences of tokens: what each parsing rule
//! reads from a position, what it builds, and where it stops.
use vstd::prelude::*;
use crate::ast::{ExprView, LiteralView, StmtView};
use crate::token::{TokenKind, TokenView};

verus! {

/// What a parse error says: its message and the token it was found at.
pub struct ParseErrorView {
    pub message: Seq<char>,
    pub token: TokenView,
}

/// The outcome of a parsing rule started at some position: what it built or the error it
/// met, and the position it stopped at.
pub struct Parsed<T> {
    pub result: Result<T, ParseErrorView>,
    pub pos: int,
}

pub open spec fn kind_at(toks: Seq<TokenView>, pos: int) -> TokenKind {
    toks[pos].token_type.kind
}

/// Whether `pos` is at the end of input: past the tokens or at an end marker.
pub open spec fn at_end(toks: Seq<TokenView>, pos: int) -> bool {
    !(0 <= pos < toks.len()) || kind_at(toks, pos) == TokenKind::Eof
}

/// Whether the token at `pos` is of the given kind (never so at the end).
pub open spec fn check(toks: Seq<TokenView>, pos: int, kind: TokenKind) -> bool {
    !at_end(toks, pos) && kind_at(toks, pos) == kind
}

/// The position after consuming a token: one further, except at the end.
pub open spec fn advance(toks: Seq<TokenView>, pos: int) -> int {
    if at_end(toks, pos) {
        pos
    } else {
        pos + 1
    }
}

/// The token that consuming at `pos` hands back: the token stepped over, or at the end the
/// token read last.
pub open spec fn consumed(toks: Seq<TokenView>, pos: int) -> TokenView {
    toks[advance(toks, pos) - 1]
}

/// A position that a rule reached after `from`, kept within `from ..= toks.len()`.
pub open spec fn clamp(toks: Seq<TokenView>, pos: int, from: int) -> int {
    if from <= pos <= toks.len() {
        pos
    } else {
        from
    }
}

pub open spec fn fail<T>(message: Seq<char>, token: TokenView, pos: int) -> Parsed<T> {
    Parsed { result: Err(ParseErrorView { message, token }), pos }
}

pub open spec fn done<T>(value: T, pos: int) -> Parsed<T> {
    Parsed { result: Ok(value), pos }
}

/// The same error, for a rule that builds another kind of thing.
pub open spec fn pass_err<A, B>(r: Parsed<A>) -> Parsed<B> {
    Parsed {
        result: match r.result {
            Ok(_) => Err(ParseErrorView { message: Seq::empty(), token: arbitrary() }),
            Err(e) => Err(e),
        },
        pos: r.pos,
    }
}

/// The operators of each level of binary operators, from the tightest: factor (0), term
/// (1), comparison (2), equality (3), and (4), or (5).
pub open spec fn level_has_op(level: nat, kind: TokenKind) -> bool {
    if level == 0 {
        kind == TokenKind::Slash || kind == TokenKind::Star
    } else if level == 1 {
        kind == TokenKind::Minus || kind == TokenKind::Plus
    } else if level == 2 {
        kind == TokenKind::Greater || kind == TokenKind::GreaterEqual || kind == TokenKind::Less
            || kind == TokenKind::LessEqual
    } else if level == 3 {
        kind == TokenKind::BangEqual || kind == TokenKind::EqualEqual
    } else if level == 4 {
        kind == TokenKind::And
    } else {
        kind == TokenKind::Or
    }
}

/// The node that a level builds: a logical expression for `and` and `or`, a binary one
/// otherwise.
pub open spec fn combine(level: nat, left: ExprView, op: TokenView, right: ExprView) -> ExprView {
    if level >= 4 {
        ExprView::Logical(Box::new(left), op, Box::new(right))
    } else {
        ExprView::Binary(Box::new(left), op, Box::new(right))
    }
}

/// primary → "false" | "true" | "nil" | STRING | NUMBER | IDENTIFIER | "(" expression ")"
pub open spec fn primary(toks: Seq<TokenView>, pos: int) -> Parsed<ExprView>
    decreases toks.len() - pos, 1nat,
{
    if check(toks, pos, TokenKind::False) {
        done(ExprView::Literal(LiteralView::False), pos + 1)
    } else if check(toks, pos, TokenKind::True) {
        done(ExprView::Literal(LiteralView::True), pos + 1)
    } else if check(toks, pos, TokenKind::Nil) {
        done(ExprView::Literal(LiteralView::Nil), pos + 1)
    } else if check(toks, pos, TokenKind::String) {
        done(ExprView::Literal(LiteralView::String(toks[pos].token_type.text)), pos + 1)
    } else if check(toks, pos, TokenKind::Number) {
        done(ExprView::Literal(LiteralView::Number(toks[pos].token_type.text)), pos + 1)
    } else if check(toks, pos, TokenKind::Identifier) {
        done(ExprView::Variable(toks[pos]), pos + 1)
    } else if check(toks, pos, TokenKind::LeftParen) {
        let e = expression(toks, pos + 1);
        match e.result {
            Err(_) => e,
            Ok(inner) => if check(toks, e.pos, TokenKind::RightParen) {
                done(ExprView::Grouping(Box::new(inner)), e.pos + 1)
            } else {
                fail("Expect Expression"@, consumed(toks, e.pos), advance(toks, e.pos))
            },
        }
    } else {
        fail("Expect Expression"@, consumed(toks, pos), advance(toks, pos))
    }
}

/// The calls that follow a callee: each `(` starts an argument list.
pub open spec fn call_tail(toks: Seq<TokenView>, pos: int, callee: ExprView) -> Parsed<ExprView>
    decreases toks.len() - pos, 2nat,
{
    if check(toks, pos, TokenKind::LeftParen) {
        let f = finish_call(toks, pos + 1, callee);
        match f.result {
            Err(_) => f,
            Ok(e) => call_tail(toks, clamp(toks, f.pos, pos + 1), e),
        }
    } else {
        done(callee, pos)
    }
}

/// call → primary ( "(" arguments? ")" )*
pub open spec fn call(toks: Seq<TokenView>, pos: int) -> Parsed<ExprView>
    decreases toks.len() - pos, 3nat,
{
    let p = primary(toks, pos);
    match p.result {
        Err(_) => p,
        Ok(e) => call_tail(toks, clamp(toks, p.pos, pos), e),
    }
}

/// unary → ( "!" | "-" ) unary | call
pub open spec fn unary(toks: Seq<TokenView>, pos: int) -> Parsed<ExprView>
    decreases toks.len() - pos, 4nat,
{
    if check(toks, pos, TokenKind::Bang) || check(toks, pos, TokenKind::Minus) {
        let r = unary(toks, pos + 1);
        match r.result {
            Err(_) => r,
            Ok(right) => done(ExprView::Unary(toks[pos], Box::new(right)), r.pos),
        }
    } else {
        call(toks, pos)
    }
}

/// The operand of a level of binary operators: the next tighter level, or `unary`.
pub open spec fn operand(toks: Seq<TokenView>, pos: int, level: nat) -> Parsed<ExprView>
    decreases toks.len() - pos, 3 * level + 7,
{
    if level == 0 {
        unary(toks, pos)
    } else {
        binary(toks, pos, (level - 1) as nat)
    }
}

/// The operators of a level and their right operands, folded to the left onto `left`.
pub open spec fn binary_tail(
    toks: Seq<TokenView>,
    pos: int,
    level: nat,
    left: ExprView,
) -> Parsed<ExprView>
    decreases toks.len() - pos, 3 * level + 8,
{
    if !at_end(toks, pos) && level_has_op(level, kind_at(toks, pos)) {
        let r = operand(toks, pos + 1, level);
        match r.result {
            Err(_) => r,
            Ok(right) => binary_tail(
                toks,
                clamp(toks, r.pos, pos + 1),
                level,
                combine(level, left, toks[pos], right),
            ),
        }
    } else {
        done(left, pos)
    }
}

/// A level of left-associative binary operators: operand ( op operand )*
pub open spec fn binary(toks: Seq<TokenView>, pos: int, level: nat) -> Parsed<ExprView>
    decreases toks.len() - pos, 3 * level + 9,
{
    let l = operand(toks, pos, level);
    match l.result {
        Err(_) => l,
        Ok(left) => binary_tail(toks, clamp(toks, l.pos, pos), level, left),
    }
}

/// assignment → equality ( "=" assignment )?  where the left side must be a variable.
pub open spec fn assignment(toks: Seq<TokenView>, pos: int) -> Parsed<ExprView>
    decreases toks.len() - pos, 20nat,
{
    let e = binary(toks, pos, 3);
    match e.result {
        Err(_) => e,
        Ok(target) => {
            let p = clamp(toks, e.pos, pos);
            if check(toks, p, TokenKind::Equal) {
                let v = assignment(toks, p + 1);
                match v.result {
                    Err(_) => v,
                    Ok(value) => match target {
                        ExprView::Variable(name) => done(
                            ExprView::Assignment(name, Box::new(value)),
                            v.pos,
                        ),
                        _ => fail("Invalid assignment target"@, toks[p], v.pos),
                    },
                }
            } else {
                done(target, p)
            }
        },
    }
}

/// expression → assignment
pub open spec fn expression(toks: Seq<TokenView>, pos: int) -> Parsed<ExprView>
    decreases toks.len() - pos, 21nat,
{
    assignment(toks, pos)
}

/// arguments → expression ( "," expression )*, appended to `args`.
pub open spec fn arguments(toks: Seq<TokenView>, pos: int, args: Seq<ExprView>) -> Parsed<
    Seq<ExprView>,
>
    decreases toks.len() - pos, 22nat,
{
    let e = expression(toks, pos);
    match e.result {
        Err(x) => Parsed { result: Err(x), pos: e.pos },
        Ok(arg) => {
            let p = clamp(toks, e.pos, pos);
            if check(toks, p, TokenKind::Comma) {
                arguments(toks, p + 1, args.push(arg))
            } else {
                done(args.push(arg), p)
            }
        },
    }
}

/// The rest of a call after its `(`: the arguments, then `)`.
pub open spec fn finish_call(toks: Seq<TokenView>, pos: int, callee: ExprView) -> Parsed<ExprView>
    decreases toks.len() - pos, 23nat,
{
    let a = if !check(toks, pos, TokenKind::RightParen) {
        arguments(toks, pos, Seq::empty())
    } else {
        done(Seq::empty(), pos)
    };
    match a.result {
        Err(x) => Parsed { result: Err(x), pos: a.pos },
        Ok(args) => if args.len() >= 255 {
            fail("A function cannot have more then 255 arguments"@, toks[a.pos], a.pos)
        } else {
            let token = consumed(toks, a.pos);
            let q = advance(toks, a.pos);
            if token.token_type.kind == TokenKind::RightParen {
                done(ExprView::Call(Box::new(callee), token, args), q)
            } else {
                fail("Expected ')' after arguments"@, consumed(toks, q), advance(toks, q))
            }
        },
    }
}

} // verus!

verus! {

/// The statement kinds at which error recovery stops skipping.
pub open spec fn starts_statement(kind: TokenKind) -> bool {
    kind == TokenKind::Class || kind == TokenKind::Func || kind == TokenKind::Let || kind
        == TokenKind::For || kind == TokenKind::If || kind == TokenKind::While || kind
        == TokenKind::Print || kind == TokenKind::Return
}

/// Skips tokens until just after a `;` or just before a token that starts a statement.
pub open spec fn skip_to_boundary(toks: Seq<TokenView>, pos: int) -> int
    decreases toks.len() - pos,
{
    if at_end(toks, pos) {
        pos
    } else if kind_at(toks, pos - 1) == TokenKind::Semicolon {
        pos
    } else if starts_statement(kind_at(toks, pos)) {
        pos
    } else {
        skip_to_boundary(toks, pos + 1)
    }
}

/// Error recovery: consumes a token, then skips to the next statement boundary.
pub open spec fn synchronize(toks: Seq<TokenView>, pos: int) -> int {
    skip_to_boundary(toks, advance(toks, pos))
}

/// varDecl → IDENTIFIER ( "=" expression )? ";"  (after the `let`)
pub open spec fn var_declaration(toks: Seq<TokenView>, pos: int) -> Parsed<StmtView>
    decreases toks.len() - pos, 50nat,
{
    if !check(toks, pos, TokenKind::Identifier) {
        fail("Expect Variable name"@, toks[pos - 1], pos)
    } else {
        let name = toks[pos];
        let init = if check(toks, pos + 1, TokenKind::Equal) {
            let e = expression(toks, pos + 2);
            match e.result {
                Ok(v) => done(Some(v), e.pos),
                Err(x) => Parsed { result: Err(x), pos: e.pos },
            }
        } else {
            done(None, pos + 1)
        };
        match init.result {
            Err(x) => Parsed { result: Err(x), pos: init.pos },
            Ok(initializer) => if !check(toks, init.pos, TokenKind::Semicolon) {
                fail(
                    "Expect Semicolon after variable declaration"@,
                    toks[init.pos - 1],
                    init.pos,
                )
            } else {
                done(StmtView::Variable(name, initializer), init.pos + 1)
            },
        }
    }
}

/// exprStmt → expression ";"
pub open spec fn expression_statement(toks: Seq<TokenView>, pos: int) -> Parsed<StmtView>
    decreases toks.len() - pos, 40nat,
{
    let e = expression(toks, pos);
    match e.result {
        Err(_) => pass_err(e),
        Ok(x) => if check(toks, e.pos, TokenKind::Semicolon) {
            done(StmtView::Expression(x), e.pos + 1)
        } else {
            fail("Expected ; after expression"@, consumed(toks, e.pos), advance(toks, e.pos))
        },
    }
}

/// printStmt → expression ";"  (after the `print`)
pub open spec fn print_statement(toks: Seq<TokenView>, pos: int) -> Parsed<StmtView>
    decreases toks.len() - pos, 41nat,
{
    let e = expression(toks, pos);
    match e.result {
        Err(_) => pass_err(e),
        Ok(x) => if check(toks, e.pos, TokenKind::Semicolon) {
            done(StmtView::Print(x), e.pos + 1)
        } else {
            fail("Expected ; after value"@, consumed(toks, e.pos), advance(toks, e.pos))
        },
    }
}

/// returnStmt → expression ";"  (after the `return`)
pub open spec fn return_statement(toks: Seq<TokenView>, pos: int) -> Parsed<StmtView>
    decreases toks.len() - pos, 42nat,
{
    let e = expression(toks, pos);
    match e.result {
        Err(_) => pass_err(e),
        Ok(x) => if check(toks, e.pos, TokenKind::Semicolon) {
            done(StmtView::Return(x), e.pos + 1)
        } else {
            fail("Expect ; after return value"@, consumed(toks, e.pos), advance(toks, e.pos))
        },
    }
}

/// statement → printStmt | returnStmt | block | ifStmt | whileStmt | forStmt | exprStmt
pub open spec fn statement(toks: Seq<TokenView>, pos: int) -> Parsed<StmtView>
    decreases toks.len() - pos, 60nat,
{
    if check(toks, pos, TokenKind::Print) {
        print_statement(toks, pos + 1)
    } else if check(toks, pos, TokenKind::Return) {
        return_statement(toks, pos + 1)
    } else if check(toks, pos, TokenKind::LeftBrace) {
        block_statement(toks, pos + 1)
    } else if check(toks, pos, TokenKind::If) {
        if_statement(toks, pos + 1)
    } else if check(toks, pos, TokenKind::While) {
        while_statement(toks, pos + 1)
    } else if check(toks, pos, TokenKind::For) {
        for_statement(toks, pos + 1)
    } else {
        expression_statement(toks, pos)
    }
}

/// parameters → IDENTIFIER ( "," IDENTIFIER )*, appended to `params`.
pub open spec fn parameters(toks: Seq<TokenView>, pos: int, params: Seq<TokenView>) -> Parsed<
    Seq<TokenView>,
>
    decreases toks.len() - pos,
{
    if !check(toks, pos, TokenKind::Identifier) {
        fail("Expect parameter name"@, consumed(toks, pos), advance(toks, pos))
    } else if check(toks, pos + 1, TokenKind::Comma) {
        parameters(toks, pos + 2, params.push(toks[pos]))
    } else {
        done(params.push(toks[pos]), pos + 1)
    }
}

/// The head of a function declaration after the `func`: its name, then `(`, the
/// parameters, `)` and the `{` that opens the body.
pub open spec fn function_head(toks: Seq<TokenView>, pos: int) -> Parsed<
    (TokenView, Seq<TokenView>),
>
    decreases toks.len() - pos,
{
    if !check(toks, pos, TokenKind::Identifier) {
        fail("Expect function name"@, consumed(toks, pos), advance(toks, pos))
    } else if !check(toks, pos + 1, TokenKind::LeftParen) {
        fail("Expect '(' after function name"@, consumed(toks, pos + 1), advance(toks, pos + 1))
    } else {
        let ps = if !check(toks, pos + 2, TokenKind::RightParen) {
            parameters(toks, pos + 2, Seq::empty())
        } else {
            done(Seq::empty(), pos + 2)
        };
        match ps.result {
            Err(x) => Parsed { result: Err(x), pos: ps.pos },
            Ok(params) => {
                let q = clamp(toks, ps.pos, pos + 2);
                if !check(toks, q, TokenKind::RightParen) {
                    fail("Expect ')' after parameters"@, consumed(toks, q), advance(toks, q))
                } else if !check(toks, q + 1, TokenKind::LeftBrace) {
                    fail(
                        "Expect '{' before function body"@,
                        consumed(toks, q + 1),
                        advance(toks, q + 1),
                    )
                } else {
                    done((toks[pos], params), q + 2)
                }
            },
        }
    }
}

/// function → IDENTIFIER "(" parameters? ")" "{" block  (after the `func`)
pub open spec fn function_declaration(toks: Seq<TokenView>, pos: int) -> Parsed<StmtView>
    decreases toks.len() - pos, 71nat,
{
    let h = function_head(toks, pos);
    match h.result {
        Err(x) => Parsed { result: Err(x), pos: h.pos },
        Ok(head) => {
            let b = block_statement(toks, clamp(toks, h.pos, pos + 1));
            match b.result {
                Err(_) => b,
                Ok(body) => done(StmtView::Function(head.0, head.1, Box::new(body)), b.pos),
            }
        },
    }
}

/// declaration → "func" function | "let" varDecl | statement; a failed variable
/// declaration is followed by error recovery.
pub open spec fn declaration(toks: Seq<TokenView>, pos: int) -> Parsed<StmtView>
    decreases toks.len() - pos, 70nat,
{
    if check(toks, pos, TokenKind::Func) {
        function_declaration(toks, pos + 1)
    } else if check(toks, pos, TokenKind::Let) {
        let v = var_declaration(toks, pos + 1);
        match v.result {
            Err(x) => Parsed { result: Err(x), pos: synchronize(toks, v.pos) },
            Ok(_) => v,
        }
    } else {
        statement(toks, pos)
    }
}

/// The declarations of a block up to its `}` or the end, appended to `stmts`.
pub open spec fn block_body(toks: Seq<TokenView>, pos: int, stmts: Seq<StmtView>) -> Parsed<
    Seq<StmtView>,
>
    decreases toks.len() - pos, 80nat,
{
    if !check(toks, pos, TokenKind::RightBrace) && !at_end(toks, pos) {
        let d = declaration(toks, pos);
        match d.result {
            Err(x) => Parsed { result: Err(x), pos: d.pos },
            Ok(s) => if pos < d.pos <= toks.len() {
                block_body(toks, d.pos, stmts.push(s))
            } else {
                done(stmts.push(s), d.pos)
            },
        }
    } else {
        done(stmts, pos)
    }
}

/// block → "{" declaration* "}"  (after the `{`)
pub open spec fn block_statement(toks: Seq<TokenView>, pos: int) -> Parsed<StmtView>
    decreases toks.len() - pos, 81nat,
{
    let b = block_body(toks, pos, Seq::empty());
    match b.result {
        Err(x) => Parsed { result: Err(x), pos: b.pos },
        Ok(stmts) => if check(toks, b.pos, TokenKind::RightBrace) {
            done(StmtView::Block(stmts), b.pos + 1)
        } else {
            fail("Expect '}' after block"@, consumed(toks, b.pos), advance(toks, b.pos))
        },
    }
}

/// ifStmt → "(" or ")" statement ( "else" statement )?  (after the `if`)
pub open spec fn if_statement(toks: Seq<TokenView>, pos: int) -> Parsed<StmtView>
    decreases toks.len() - pos, 82nat,
{
    if !check(toks, pos, TokenKind::LeftParen) {
        fail("Expect '(' after if"@, consumed(toks, pos), advance(toks, pos))
    } else {
        let c = binary(toks, pos + 1, 5);
        match c.result {
            Err(_) => pass_err(c),
            Ok(condition) => {
                let p = clamp(toks, c.pos, pos + 1);
                if !check(toks, p, TokenKind::RightParen) {
                    fail("Expect ')' after if condition"@, consumed(toks, p), advance(toks, p))
                } else {
                    let t = statement(toks, p + 1);
                    match t.result {
                        Err(_) => t,
                        Ok(then_branch) => {
                            let q = clamp(toks, t.pos, p + 1);
                            if check(toks, q, TokenKind::Else) {
                                let e = statement(toks, q + 1);
                                match e.result {
                                    Err(_) => e,
                                    Ok(else_branch) => done(
                                        StmtView::If(
                                            condition,
                                            Box::new(then_branch),
                                            Some(Box::new(else_branch)),
                                        ),
                                        e.pos,
                                    ),
                                }
                            } else {
                                done(StmtView::If(condition, Box::new(then_branch), None), q)
                            }
                        },
                    }
                }
            },
        }
    }
}

/// whileStmt → "(" expression ")" statement  (after the `while`)
pub open spec fn while_statement(toks: Seq<TokenView>, pos: int) -> Parsed<StmtView>
    decreases toks.len() - pos, 83nat,
{
    if !check(toks, pos, TokenKind::LeftParen) {
        fail("Expect '(' after while"@, consumed(toks, pos), advance(toks, pos))
    } else {
        let c = expression(toks, pos + 1);
        match c.result {
            Err(_) => pass_err(c),
            Ok(condition) => {
                let p = clamp(toks, c.pos, pos + 1);
                if !check(toks, p, TokenKind::RightParen) {
                    fail("Expect ')' after condition"@, consumed(toks, p), advance(toks, p))
                } else {
                    let b = statement(toks, p + 1);
                    match b.result {
                        Err(_) => b,
                        Ok(body) => done(StmtView::While(condition, Box::new(body)), b.pos),
                    }
                }
            },
        }
    }
}

/// The statement a `for` loop stands for: the initializer, then a `while` loop over the
/// condition (`true` when there is none) whose body is a block of the loop's body followed
/// by the increment, so that the increment runs after each pass of the body.
pub open spec fn desugar_for(
    initializer: Option<StmtView>,
    condition: Option<ExprView>,
    increment: Option<ExprView>,
    body: StmtView,
) -> StmtView {
    let body = match increment {
        Some(i) => StmtView::Block(seq![body, StmtView::Expression(i)]),
        None => body,
    };
    let condition = match condition {
        Some(c) => c,
        None => ExprView::Literal(LiteralView::True),
    };
    let looped = StmtView::While(condition, Box::new(body));
    match initializer {
        Some(init) => StmtView::Block(seq![init, looped]),
        None => looped,
    }
}

/// The initializer of a `for` loop: nothing (just `;`), a variable declaration, or an
/// expression statement.
pub open spec fn for_initializer(toks: Seq<TokenView>, pos: int) -> Parsed<Option<StmtView>>
    decreases toks.len() - pos, 45nat,
{
    if check(toks, pos, TokenKind::Semicolon) {
        done(None, pos + 1)
    } else {
        let s = if check(toks, pos, TokenKind::Let) {
            var_declaration(toks, pos + 1)
        } else {
            expression_statement(toks, pos)
        };
        match s.result {
            Err(x) => Parsed { result: Err(x), pos: s.pos },
            Ok(init) => done(Some(init), s.pos),
        }
    }
}

/// An optional expression, absent when the token at `pos` is `end`.
pub open spec fn optional_expression(toks: Seq<TokenView>, pos: int, end: TokenKind) -> Parsed<
    Option<ExprView>,
>
    decreases toks.len() - pos, 45nat,
{
    if !check(toks, pos, end) {
        let e = expression(toks, pos);
        match e.result {
            Err(x) => Parsed { result: Err(x), pos: e.pos },
            Ok(v) => done(Some(v), e.pos),
        }
    } else {
        done(None, pos)
    }
}

/// The clauses of a `for` loop after its `(`: the initializer, the condition up to its
/// `;`, and the increment up to the `)`.
pub open spec fn for_clauses(toks: Seq<TokenView>, pos: int) -> Parsed<
    (Option<StmtView>, Option<ExprView>, Option<ExprView>),
>
    decreases toks.len() - pos, 46nat,
{
    let i = for_initializer(toks, pos);
    match i.result {
        Err(x) => Parsed { result: Err(x), pos: i.pos },
        Ok(initializer) => {
            let p = clamp(toks, i.pos, pos);
            let c = optional_expression(toks, p, TokenKind::Semicolon);
            match c.result {
                Err(x) => Parsed { result: Err(x), pos: c.pos },
                Ok(condition) => {
                    let q = clamp(toks, c.pos, p);
                    if !check(toks, q, TokenKind::Semicolon) {
                        fail("Expect ';' after loop condition"@, consumed(toks, q), advance(toks, q))
                    } else {
                        let n = optional_expression(toks, q + 1, TokenKind::RightParen);
                        match n.result {
                            Err(x) => Parsed { result: Err(x), pos: n.pos },
                            Ok(increment) => {
                                let r = clamp(toks, n.pos, q + 1);
                                if !check(toks, r, TokenKind::RightParen) {
                                    fail(
                                        "Expect ')' after for clauses"@,
                                        consumed(toks, r),
                                        advance(toks, r),
                                    )
                                } else {
                                    done((initializer, condition, increment), r + 1)
                                }
                            },
                        }
                    }
                },
            }
        },
    }
}

/// forStmt → "(" ( varDecl | exprStmt | ";" ) expression? ";" expression? ")" statement
/// (after the `for`), read as the `while` loop it stands for.
pub open spec fn for_statement(toks: Seq<TokenView>, pos: int) -> Parsed<StmtView>
    decreases toks.len() - pos, 84nat,
{
    if !check(toks, pos, TokenKind::LeftParen) {
        fail("Expect '(' after for"@, consumed(toks, pos), advance(toks, pos))
    } else {
        let c = for_clauses(toks, pos + 1);
        match c.result {
            Err(x) => Parsed { result: Err(x), pos: c.pos },
            Ok(clauses) => {
                let b = statement(toks, clamp(toks, c.pos, pos + 1));
                match b.result {
                    Err(_) => b,
                    Ok(body) => done(desugar_for(clauses.0, clauses.1, clauses.2, body), b.pos),
                }
            },
        }
    }
}

/// What parsing a whole token sequence gives: its statements, or every error met.
pub open spec fn program(
    toks: Seq<TokenView>,
    pos: int,
    stmts: Seq<StmtView>,
    errors: Seq<ParseErrorView>,
) -> Result<Seq<StmtView>, Seq<ParseErrorView>>
    decreases toks.len() - pos,
{
    if !at_end(toks, pos) {
        let d = declaration(toks, pos);
        let stmts2 = match d.result {
            Ok(s) => stmts.push(s),
            Err(_) => stmts,
        };
        let errors2 = match d.result {
            Ok(_) => errors,
            Err(e) => errors.push(e),
        };
        if pos < d.pos <= toks.len() {
            program(toks, d.pos, stmts2, errors2)
        } else {
            program(toks, toks.len() as int, stmts2, errors2)
        }
    } else if errors.len() > 0 {
        Err(errors)
    } else {
        Ok(stmts)
    }
}

/// The statements of a token sequence, or every parse error in it.
#[verifier::opaque]
pub open spec fn parse_program(toks: Seq<TokenView>) -> Result<Seq<StmtView>, Seq<ParseErrorView>> {
    program(toks, 0, Seq::empty(), Seq::empty())
}

/// Parsing fails only with at least one error.
pub proof fn lemma_program_errors(
    toks: Seq<TokenView>,
    pos: int,
    stmts: Seq<StmtView>,
    errors: Seq<ParseErrorView>,
)
    ensures
        program(toks, pos, stmts, errors) is Err ==> program(toks, pos, stmts, errors)->Err_0.len()
            > 0,
    decreases toks.len() - pos,
{
    if !at_end(toks, pos) {
        let d = declaration(toks, pos);
        let stmts2 = match d.result {
            Ok(s) => stmts.push(s),
            Err(_) => stmts,
        };
        let errors2 = match d.result {
            Ok(_) => errors,
            Err(e) => errors.push(e),
        };
        if pos < d.pos <= toks.len() {
            lemma_program_errors(toks, d.pos, stmts2, errors2);
        } else {
            lemma_program_errors(toks, toks.len() as int, stmts2, errors2);
        }
    }
}

/// Whether error recovery may stop at `pos`: at the end, just after a `;`, or just before
/// a token that starts a statement.
pub open spec fn at_boundary(toks: Seq<TokenView>, pos: int) -> bool {
    ||| at_end(toks, pos)
    ||| kind_at(toks, pos - 1) == TokenKind::Semicolon
    ||| starts_statement(kind_at(toks, pos))
}

/// Error recovery skips to the first statement boundary at or after where it starts, and
/// never moves back.
pub proof fn law_recovery_stops_at_first_boundary(toks: Seq<TokenView>, pos: int)
    ensures
        pos <= skip_to_boundary(toks, pos),
        at_boundary(toks, skip_to_boundary(toks, pos)),
        forall|q: int| pos <= q < skip_to_boundary(toks, pos) ==> !at_boundary(toks, q),
    decreases toks.len() - pos,
{
    if !at_boundary(toks, pos) {
        law_recovery_stops_at_first_boundary(toks, pos + 1);
    }
}

/// Whether the token at `pos` is of kind `kind`.
pub open spec fn kind_is(toks: Seq<TokenView>, pos: int, kind: TokenKind) -> bool {
    0 <= pos < toks.len() && kind_at(toks, pos) == kind
}

/// The literal that a number token reads as.
pub open spec fn number_expr(t: TokenView) -> ExprView {
    ExprView::Literal(LiteralView::Number(t.token_type.text))
}

/// A token that ends an operand of `+`, `-`, `*` and `/`: none of these operators, and no
/// `(` that would make the operand a call.
pub open spec fn ends_term(toks: Seq<TokenView>, pos: int) -> bool {
    &&& 0 <= pos < toks.len()
    &&& kind_at(toks, pos) != TokenKind::LeftParen
    &&& kind_at(toks, pos) != TokenKind::Star
    &&& kind_at(toks, pos) != TokenKind::Slash
    &&& kind_at(toks, pos) != TokenKind::Plus
    &&& kind_at(toks, pos) != TokenKind::Minus
}

/// A number followed by a token that is no `(`, `*` or `/` is a whole factor.
proof fn lemma_number_factor(toks: Seq<TokenView>, pos: int)
    requires
        kind_is(toks, pos, TokenKind::Number),
        0 <= pos + 1 < toks.len(),
        kind_at(toks, pos + 1) != TokenKind::LeftParen,
        kind_at(toks, pos + 1) != TokenKind::Star,
        kind_at(toks, pos + 1) != TokenKind::Slash,
    ensures
        binary(toks, pos, 0) == done(number_expr(toks[pos]), pos + 1),
{
    let n = number_expr(toks[pos]);
    assert(primary(toks, pos) == done(n, pos + 1));
    assert(call_tail(toks, pos + 1, n) == done(n, pos + 1));
    assert(call(toks, pos) == done(n, pos + 1));
    assert(unary(toks, pos) == done(n, pos + 1));
    assert(operand(toks, pos, 0) == done(n, pos + 1));
    assert(binary_tail(toks, pos + 1, 0, n) == done(n, pos + 1));
}

/// `+` and `-` associate to the left: `a - b - c` reads as `(a - b) - c`.
pub proof fn law_terms_associate_left(toks: Seq<TokenView>, pos: int)
    requires
        kind_is(toks, pos, TokenKind::Number),
        kind_is(toks, pos + 1, TokenKind::Plus) || kind_is(toks, pos + 1, TokenKind::Minus),
        kind_is(toks, pos + 2, TokenKind::Number),
        kind_is(toks, pos + 3, TokenKind::Plus) || kind_is(toks, pos + 3, TokenKind::Minus),
        kind_is(toks, pos + 4, TokenKind::Number),
        ends_term(toks, pos + 5),
    ensures
        binary(toks, pos, 1) == done(
            ExprView::Binary(
                Box::new(
                    ExprView::Binary(
                        Box::new(number_expr(toks[pos])),
                        toks[pos + 1],
                        Box::new(number_expr(toks[pos + 2])),
                    ),
                ),
                toks[pos + 3],
                Box::new(number_expr(toks[pos + 4])),
            ),
            pos + 5,
        ),
{
    lemma_number_factor(toks, pos);
    lemma_number_factor(toks, pos + 2);
    lemma_number_factor(toks, pos + 4);
    let first = ExprView::Binary(
        Box::new(number_expr(toks[pos])),
        toks[pos + 1],
        Box::new(number_expr(toks[pos + 2])),
    );
    let second = ExprView::Binary(Box::new(first), toks[pos + 3], Box::new(number_expr(toks[pos + 4])));
    assert(binary_tail(toks, pos + 5, 1, second) == done(second, pos + 5));
    assert(operand(toks, pos + 4, 1) == done(number_expr(toks[pos + 4]), pos + 5));
    assert(combine(1, first, toks[pos + 3], number_expr(toks[pos + 4])) == second);
    assert(binary_tail(toks, pos + 3, 1, first) == done(second, pos + 5));
    assert(operand(toks, pos + 2, 1) == done(number_expr(toks[pos + 2]), pos + 3));
    assert(combine(1, number_expr(toks[pos]), toks[pos + 1], number_expr(toks[pos + 2])) == first);
    assert(operand(toks, pos, 1) == done(number_expr(toks[pos]), pos + 1));
    assert(binary_tail(toks, pos + 1, 1, number_expr(toks[pos])) == done(second, pos + 5));
}

/// `*` and `/` bind tighter than `+` and `-`: `a + b * c` reads as `a + (b * c)`.
pub proof fn law_factors_bind_tighter(toks: Seq<TokenView>, pos: int)
    requires
        kind_is(toks, pos, TokenKind::Number),
        kind_is(toks, pos + 1, TokenKind::Plus) || kind_is(toks, pos + 1, TokenKind::Minus),
        kind_is(toks, pos + 2, TokenKind::Number),
        kind_is(toks, pos + 3, TokenKind::Star) || kind_is(toks, pos + 3, TokenKind::Slash),
        kind_is(toks, pos + 4, TokenKind::Number),
        ends_term(toks, pos + 5),
    ensures
        binary(toks, pos, 1) == done(
            ExprView::Binary(
                Box::new(number_expr(toks[pos])),
                toks[pos + 1],
                Box::new(
                    ExprView::Binary(
                        Box::new(number_expr(toks[pos + 2])),
                        toks[pos + 3],
                        Box::new(number_expr(toks[pos + 4])),
                    ),
                ),
            ),
            pos + 5,
        ),
{
    lemma_number_factor(toks, pos);
    lemma_number_factor(toks, pos + 4);
    let product = ExprView::Binary(
        Box::new(number_expr(toks[pos + 2])),
        toks[pos + 3],
        Box::new(number_expr(toks[pos + 4])),
    );
    let n2 = number_expr(toks[pos + 2]);
    let n4 = number_expr(toks[pos + 4]);
    assert(primary(toks, pos + 2) == done(n2, pos + 3));
    assert(call_tail(toks, pos + 3, n2) == done(n2, pos + 3));
    assert(call(toks, pos + 2) == done(n2, pos + 3));
    assert(unary(toks, pos + 2) == done(n2, pos + 3));
    assert(operand(toks, pos + 2, 0) == done(n2, pos + 3));
    assert(primary(toks, pos + 4) == done(n4, pos + 5));
    assert(call_tail(toks, pos + 5, n4) == done(n4, pos + 5));
    assert(call(toks, pos + 4) == done(n4, pos + 5));
    assert(unary(toks, pos + 4) == done(n4, pos + 5));
    assert(operand(toks, pos + 4, 0) == done(n4, pos + 5));
    assert(combine(0, n2, toks[pos + 3], n4) == product);
    assert(binary_tail(toks, pos + 5, 0, product) == done(product, pos + 5));
    assert(binary_tail(toks, pos + 3, 0, number_expr(toks[pos + 2])) == done(product, pos + 5));
    assert(binary(toks, pos + 2, 0) == done(product, pos + 5));
    let sum = ExprView::Binary(Box::new(number_expr(toks[pos])), toks[pos + 1], Box::new(product));
    assert(binary_tail(toks, pos + 5, 1, sum) == done(sum, pos + 5));
    assert(operand(toks, pos + 2, 1) == done(product, pos + 5));
    assert(combine(1, number_expr(toks[pos]), toks[pos + 1], product) == sum);
    assert(operand(toks, pos, 1) == done(number_expr(toks[pos]), pos + 1));
    assert(binary_tail(toks, pos + 1, 1, number_expr(toks[pos])) == done(sum, pos + 5));
}

} // verus!
