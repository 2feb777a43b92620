//! What the grammar means, stated without its rules: how literals and names read, how
//! prefix operators apply, and how binary operators group by precedence and associativity.
use vstd::prelude::*;
use crate::ast::{ExprView, LiteralView, StmtView};
use crate::grammar::{
    binary, binary_tail, call, call_tail, combine, done, kind_at,
    level_has_op, operand, primary, unary, assignment, declaration, expression,
    desugar_for, for_clauses, for_initializer, for_statement, optional_expression, statement,
};
use crate::token::{TokenKind, TokenView};

verus! {

/// The precedence table of the binary operators, tightest first: `*` `/`, then `+` `-`,
/// then the comparisons, then `==` `!=`, then `and`, then `or`. Other tokens are no binary
/// operators.
pub open spec fn operator_level(kind: TokenKind) -> Option<nat> {
    if kind == TokenKind::Star || kind == TokenKind::Slash {
        Some(0)
    } else if kind == TokenKind::Plus || kind == TokenKind::Minus {
        Some(1)
    } else if kind == TokenKind::Greater || kind == TokenKind::GreaterEqual || kind
        == TokenKind::Less || kind == TokenKind::LessEqual {
        Some(2)
    } else if kind == TokenKind::EqualEqual || kind == TokenKind::BangEqual {
        Some(3)
    } else if kind == TokenKind::And {
        Some(4)
    } else if kind == TokenKind::Or {
        Some(5)
    } else {
        None
    }
}

/// The node a binary operator builds: a logical expression for `and` and `or`, a binary
/// expression for the others.
pub open spec fn operation(left: ExprView, op: TokenView, right: ExprView) -> ExprView {
    if op.token_type.kind == TokenKind::And || op.token_type.kind == TokenKind::Or {
        ExprView::Logical(Box::new(left), op, Box::new(right))
    } else {
        ExprView::Binary(Box::new(left), op, Box::new(right))
    }
}

/// What a single token reads as when it stands alone: a literal keeps its text, the
/// keywords `true`, `false` and `nil` are their own values, and a name is a variable.
pub open spec fn atom(t: TokenView) -> Option<ExprView> {
    let k = t.token_type.kind;
    if k == TokenKind::Number {
        Some(ExprView::Literal(LiteralView::Number(t.token_type.text)))
    } else if k == TokenKind::String {
        Some(ExprView::Literal(LiteralView::String(t.token_type.text)))
    } else if k == TokenKind::True {
        Some(ExprView::Literal(LiteralView::True))
    } else if k == TokenKind::False {
        Some(ExprView::Literal(LiteralView::False))
    } else if k == TokenKind::Nil {
        Some(ExprView::Literal(LiteralView::Nil))
    } else if k == TokenKind::Identifier {
        Some(ExprView::Variable(t))
    } else {
        None
    }
}

/// Whether `pos` holds an atom.
pub open spec fn atom_at(toks: Seq<TokenView>, pos: int) -> bool {
    0 <= pos < toks.len() && atom(toks[pos]) is Some
}

/// Whether the token at `pos` ends an operand of the operators up to `level`: it is no `(`
/// (which would make a call), and no binary operator that binds as tightly as `level`.
pub open spec fn binds_looser(toks: Seq<TokenView>, pos: int, level: int) -> bool {
    &&& 0 <= pos < toks.len()
    &&& kind_at(toks, pos) != TokenKind::LeftParen
    &&& match operator_level(kind_at(toks, pos)) {
        Some(m) => m > level,
        None => true,
    }
}

/// The grammar's levels of binary operators follow the precedence table.
pub proof fn law_operator_levels(level: nat, kind: TokenKind)
    requires
        level <= 5,
    ensures
        level_has_op(level, kind) <==> operator_level(kind) == Some(level),
{
}

proof fn lemma_combine(level: nat, left: ExprView, op: TokenView, right: ExprView)
    requires
        level <= 5,
        operator_level(op.token_type.kind) == Some(level),
    ensures
        combine(level, left, op, right) == operation(left, op, right),
{
}

/// Each literal, keyword value and name reads as itself.
pub proof fn law_primary_atoms(toks: Seq<TokenView>, pos: int)
    requires
        atom_at(toks, pos),
    ensures
        primary(toks, pos) == done(atom(toks[pos]).unwrap(), pos + 1),
{
}

/// A lone atom is a whole operand at any level of binary operators, when the token after
/// it binds looser.
proof fn lemma_operand_atom(toks: Seq<TokenView>, pos: int, level: nat)
    requires
        level <= 5,
        atom_at(toks, pos),
        binds_looser(toks, pos + 1, level - 1),
    ensures
        operand(toks, pos, level) == done(atom(toks[pos]).unwrap(), pos + 1),
    decreases level, 0nat,
{
    let a = atom(toks[pos]).unwrap();
    if level == 0 {
        assert(primary(toks, pos) == done(a, pos + 1));
        assert(call_tail(toks, pos + 1, a) == done(a, pos + 1));
        assert(call(toks, pos) == done(a, pos + 1));
        assert(unary(toks, pos) == done(a, pos + 1));
    } else {
        lemma_binary_atom(toks, pos, (level - 1) as nat);
    }
}

/// A lone atom followed by a looser token reads as the atom at any level.
proof fn lemma_binary_atom(toks: Seq<TokenView>, pos: int, level: nat)
    requires
        level <= 5,
        atom_at(toks, pos),
        binds_looser(toks, pos + 1, level as int),
    ensures
        binary(toks, pos, level) == done(atom(toks[pos]).unwrap(), pos + 1),
    decreases level, 1nat,
{
    let a = atom(toks[pos]).unwrap();
    lemma_operand_atom(toks, pos, level);
    law_operator_levels(level, kind_at(toks, pos + 1));
    assert(binary_tail(toks, pos + 1, level, a) == done(a, pos + 1));
}

/// `X op Y`, with `op` at level `n`, is one operand at every level from `n` up, when the
/// token after it binds looser.
proof fn lemma_binary_pair(toks: Seq<TokenView>, pos: int, n: nat, level: nat)
    requires
        n <= level <= 5,
        atom_at(toks, pos),
        0 <= pos + 1 < toks.len(),
        operator_level(kind_at(toks, pos + 1)) == Some(n),
        atom_at(toks, pos + 2),
        binds_looser(toks, pos + 3, level as int),
    ensures
        binary(toks, pos, level) == done(
            operation(atom(toks[pos]).unwrap(), toks[pos + 1], atom(toks[pos + 2]).unwrap()),
            pos + 3,
        ),
    decreases level,
{
    let x = atom(toks[pos]).unwrap();
    let y = atom(toks[pos + 2]).unwrap();
    let v = operation(x, toks[pos + 1], y);
    if level == n {
        lemma_operand_atom(toks, pos, n);
        lemma_operand_atom(toks, pos + 2, n);
        law_operator_levels(n, kind_at(toks, pos + 1));
        law_operator_levels(n, kind_at(toks, pos + 3));
        lemma_combine(n, x, toks[pos + 1], y);
        assert(binary_tail(toks, pos + 3, n, v) == done(v, pos + 3));
        assert(binary_tail(toks, pos + 1, n, x) == done(v, pos + 3));
    } else {
        lemma_binary_pair(toks, pos, n, (level - 1) as nat);
        law_operator_levels(level, kind_at(toks, pos + 3));
        assert(operand(toks, pos, level) == done(v, pos + 3));
        assert(binary_tail(toks, pos + 3, level, v) == done(v, pos + 3));
    }
}

/// Binary operators of one level group to the left: `X a Y b Z` reads as `(X a Y) b Z`
/// when `a` and `b` bind equally and the token after `Z` binds looser.
pub proof fn law_same_level_groups_left(toks: Seq<TokenView>, pos: int, level: nat)
    requires
        level <= 5,
        atom_at(toks, pos),
        atom_at(toks, pos + 2),
        atom_at(toks, pos + 4),
        0 <= pos + 1 < toks.len(),
        0 <= pos + 3 < toks.len(),
        operator_level(kind_at(toks, pos + 1)) == Some(level),
        operator_level(kind_at(toks, pos + 3)) == Some(level),
        binds_looser(toks, pos + 5, level as int),
    ensures
        binary(toks, pos, level) == done(
            operation(
                operation(atom(toks[pos]).unwrap(), toks[pos + 1], atom(toks[pos + 2]).unwrap()),
                toks[pos + 3],
                atom(toks[pos + 4]).unwrap(),
            ),
            pos + 5,
        ),
{
    let x = atom(toks[pos]).unwrap();
    let y = atom(toks[pos + 2]).unwrap();
    let z = atom(toks[pos + 4]).unwrap();
    let xy = operation(x, toks[pos + 1], y);
    let xyz = operation(xy, toks[pos + 3], z);
    lemma_operand_atom(toks, pos, level);
    lemma_operand_atom(toks, pos + 2, level);
    lemma_operand_atom(toks, pos + 4, level);
    law_operator_levels(level, kind_at(toks, pos + 1));
    law_operator_levels(level, kind_at(toks, pos + 3));
    law_operator_levels(level, kind_at(toks, pos + 5));
    lemma_combine(level, x, toks[pos + 1], y);
    lemma_combine(level, xy, toks[pos + 3], z);
    assert(binary_tail(toks, pos + 5, level, xyz) == done(xyz, pos + 5));
    assert(binary_tail(toks, pos + 3, level, xy) == done(xyz, pos + 5));
    assert(binary_tail(toks, pos + 1, level, x) == done(xyz, pos + 5));
}

/// An operator that binds tighter groups first: with `t` binding tighter than `l`,
/// `X l Y t Z` reads as `X l (Y t Z)` and `X t Y l Z` as `(X t Y) l Z`.
pub proof fn law_tighter_groups_first(toks: Seq<TokenView>, pos: int, looser: nat, tighter: nat)
    requires
        tighter < looser <= 5,
        atom_at(toks, pos),
        atom_at(toks, pos + 2),
        atom_at(toks, pos + 4),
        0 <= pos + 1 < toks.len(),
        0 <= pos + 3 < toks.len(),
        binds_looser(toks, pos + 5, looser as int),
    ensures
        operator_level(kind_at(toks, pos + 1)) == Some(looser) && operator_level(
            kind_at(toks, pos + 3),
        ) == Some(tighter) ==> binary(toks, pos, looser) == done(
            operation(
                atom(toks[pos]).unwrap(),
                toks[pos + 1],
                operation(atom(toks[pos + 2]).unwrap(), toks[pos + 3], atom(toks[pos + 4]).unwrap()),
            ),
            pos + 5,
        ),
        operator_level(kind_at(toks, pos + 1)) == Some(tighter) && operator_level(
            kind_at(toks, pos + 3),
        ) == Some(looser) ==> binary(toks, pos, looser) == done(
            operation(
                operation(atom(toks[pos]).unwrap(), toks[pos + 1], atom(toks[pos + 2]).unwrap()),
                toks[pos + 3],
                atom(toks[pos + 4]).unwrap(),
            ),
            pos + 5,
        ),
{
    let x = atom(toks[pos]).unwrap();
    let y = atom(toks[pos + 2]).unwrap();
    let z = atom(toks[pos + 4]).unwrap();
    let m = looser;
    law_operator_levels(m, kind_at(toks, pos + 5));
    if operator_level(kind_at(toks, pos + 1)) == Some(looser) && operator_level(
        kind_at(toks, pos + 3),
    ) == Some(tighter) {
        let yz = operation(y, toks[pos + 3], z);
        let v = operation(x, toks[pos + 1], yz);
        lemma_operand_atom(toks, pos, m);
        lemma_binary_pair(toks, pos + 2, tighter, (m - 1) as nat);
        assert(operand(toks, pos + 2, m) == done(yz, pos + 5));
        law_operator_levels(m, kind_at(toks, pos + 1));
        lemma_combine(m, x, toks[pos + 1], yz);
        assert(binary_tail(toks, pos + 5, m, v) == done(v, pos + 5));
        assert(binary_tail(toks, pos + 1, m, x) == done(v, pos + 5));
    }
    if operator_level(kind_at(toks, pos + 1)) == Some(tighter) && operator_level(
        kind_at(toks, pos + 3),
    ) == Some(looser) {
        let xy = operation(x, toks[pos + 1], y);
        let v = operation(xy, toks[pos + 3], z);
        lemma_binary_pair(toks, pos, tighter, (m - 1) as nat);
        assert(operand(toks, pos, m) == done(xy, pos + 3));
        lemma_operand_atom(toks, pos + 4, m);
        law_operator_levels(m, kind_at(toks, pos + 3));
        lemma_combine(m, xy, toks[pos + 3], z);
        assert(binary_tail(toks, pos + 5, m, v) == done(v, pos + 5));
        assert(binary_tail(toks, pos + 3, m, xy) == done(v, pos + 5));
    }
}

/// A prefix `-` or `!` is never lost: it applies to the operand that follows it, and an
/// error in that operand is the error of the whole.
pub proof fn law_prefix_operator(toks: Seq<TokenView>, pos: int)
    requires
        0 <= pos < toks.len(),
        kind_at(toks, pos) == TokenKind::Minus || kind_at(toks, pos) == TokenKind::Bang,
    ensures
        ({
            let r = unary(toks, pos + 1);
            match r.result {
                Ok(e) => unary(toks, pos) == done(
                    ExprView::Unary(toks[pos], Box::new(e)),
                    r.pos,
                ),
                Err(x) => unary(toks, pos) == r,
            }
        }),
{
}

/// A prefix operator before an atom that a looser token follows reads as that operator
/// applied to the atom, two tokens on.
pub proof fn law_prefix_atom(toks: Seq<TokenView>, pos: int)
    requires
        0 <= pos < toks.len(),
        kind_at(toks, pos) == TokenKind::Minus || kind_at(toks, pos) == TokenKind::Bang,
        atom_at(toks, pos + 1),
        binds_looser(toks, pos + 2, -1),
    ensures
        unary(toks, pos) == done(
            ExprView::Unary(toks[pos], Box::new(atom(toks[pos + 1]).unwrap())),
            pos + 2,
        ),
{
    lemma_operand_atom(toks, pos + 1, 0);
    law_prefix_operator(toks, pos);
}

/// An atom followed by a token that ends an expression reads as the expression.
proof fn lemma_expression_atom(toks: Seq<TokenView>, pos: int)
    requires
        atom_at(toks, pos),
        binds_looser(toks, pos + 1, 3),
        kind_at(toks, pos + 1) != TokenKind::Equal,
    ensures
        expression(toks, pos) == done(atom(toks[pos]).unwrap(), pos + 1),
{
    lemma_binary_atom(toks, pos, 3);
    assert(assignment(toks, pos) == done(atom(toks[pos]).unwrap(), pos + 1));
}

/// Whether the tokens from `pos` are `print` ATOM `;`.
pub open spec fn print_of_atom(toks: Seq<TokenView>, pos: int) -> bool {
    &&& 0 <= pos && pos + 2 < toks.len()
    &&& kind_at(toks, pos) == TokenKind::Print
    &&& atom_at(toks, pos + 1)
    &&& kind_at(toks, pos + 2) == TokenKind::Semicolon
}

/// `print X;`, `return X;` and `X;` read as a print statement, a return statement and an
/// expression statement of `X`.
pub proof fn law_simple_statements(toks: Seq<TokenView>, pos: int)
    ensures
        print_of_atom(toks, pos) ==> statement(toks, pos) == done(
            StmtView::Print(atom(toks[pos + 1]).unwrap()),
            pos + 3,
        ),
        0 <= pos && pos + 2 < toks.len() && kind_at(toks, pos) == TokenKind::Return && atom_at(
            toks,
            pos + 1,
        ) && kind_at(toks, pos + 2) == TokenKind::Semicolon ==> statement(toks, pos) == done(
            StmtView::Return(atom(toks[pos + 1]).unwrap()),
            pos + 3,
        ),
        atom_at(toks, pos) && pos + 1 < toks.len() && kind_at(toks, pos + 1)
            == TokenKind::Semicolon ==> statement(toks, pos) == done(
            StmtView::Expression(atom(toks[pos]).unwrap()),
            pos + 2,
        ),
{
    if 0 <= pos && pos + 2 < toks.len() && atom_at(toks, pos + 1) && kind_at(toks, pos + 2)
        == TokenKind::Semicolon {
        lemma_expression_atom(toks, pos + 1);
    }
    if atom_at(toks, pos) && pos + 1 < toks.len() && kind_at(toks, pos + 1)
        == TokenKind::Semicolon {
        lemma_expression_atom(toks, pos);
    }
}

/// `let NAME = X;` declares `NAME` with `X` as its initial value, and `let NAME;` declares
/// it with none.
pub proof fn law_variable_declaration(toks: Seq<TokenView>, pos: int)
    requires
        0 <= pos && pos + 2 < toks.len(),
        kind_at(toks, pos) == TokenKind::Let,
        kind_at(toks, pos + 1) == TokenKind::Identifier,
    ensures
        kind_at(toks, pos + 2) == TokenKind::Semicolon ==> declaration(toks, pos) == done(
            StmtView::Variable(toks[pos + 1], None),
            pos + 3,
        ),
        pos + 4 < toks.len() && kind_at(toks, pos + 2) == TokenKind::Equal && atom_at(
            toks,
            pos + 3,
        ) && kind_at(toks, pos + 4) == TokenKind::Semicolon ==> declaration(toks, pos) == done(
            StmtView::Variable(toks[pos + 1], Some(atom(toks[pos + 3]).unwrap())),
            pos + 5,
        ),
{
    if pos + 4 < toks.len() && kind_at(toks, pos + 2) == TokenKind::Equal && atom_at(toks, pos + 3)
        && kind_at(toks, pos + 4) == TokenKind::Semicolon {
        lemma_expression_atom(toks, pos + 3);
    }
}

/// `if (C) print X;` runs the print only on its condition, and with `else print Y;` after
/// it, the other print is the else branch.
pub proof fn law_if_statement(toks: Seq<TokenView>, pos: int)
    requires
        0 <= pos && pos + 3 < toks.len(),
        kind_at(toks, pos) == TokenKind::If,
        kind_at(toks, pos + 1) == TokenKind::LeftParen,
        atom_at(toks, pos + 2),
        kind_at(toks, pos + 3) == TokenKind::RightParen,
        print_of_atom(toks, pos + 4),
        pos + 7 < toks.len(),
    ensures
        kind_at(toks, pos + 7) != TokenKind::Else ==> statement(toks, pos) == done(
            StmtView::If(
                atom(toks[pos + 2]).unwrap(),
                Box::new(StmtView::Print(atom(toks[pos + 5]).unwrap())),
                None,
            ),
            pos + 7,
        ),
        kind_at(toks, pos + 7) == TokenKind::Else && print_of_atom(toks, pos + 8) ==> statement(
            toks,
            pos,
        ) == done(
            StmtView::If(
                atom(toks[pos + 2]).unwrap(),
                Box::new(StmtView::Print(atom(toks[pos + 5]).unwrap())),
                Some(Box::new(StmtView::Print(atom(toks[pos + 9]).unwrap()))),
            ),
            pos + 11,
        ),
{
    lemma_binary_atom(toks, pos + 2, 5);
    law_simple_statements(toks, pos + 4);
    if kind_at(toks, pos + 7) == TokenKind::Else && print_of_atom(toks, pos + 8) {
        law_simple_statements(toks, pos + 8);
    }
}

/// `while (C) print X;` is a loop over `C` whose body is the print.
pub proof fn law_while_statement(toks: Seq<TokenView>, pos: int)
    requires
        0 <= pos && pos + 3 < toks.len(),
        kind_at(toks, pos) == TokenKind::While,
        kind_at(toks, pos + 1) == TokenKind::LeftParen,
        atom_at(toks, pos + 2),
        kind_at(toks, pos + 3) == TokenKind::RightParen,
        print_of_atom(toks, pos + 4),
    ensures
        statement(toks, pos) == done(
            StmtView::While(
                atom(toks[pos + 2]).unwrap(),
                Box::new(StmtView::Print(atom(toks[pos + 5]).unwrap())),
            ),
            pos + 7,
        ),
{
    lemma_expression_atom(toks, pos + 2);
    law_simple_statements(toks, pos + 4);
}

#[verifier::rlimit(40)]
/// `for (let NAME = A; C; N) print X;` runs the initializer once, then, while `C` holds,
/// the body and after it the increment `N`: it reads as
/// `{ let NAME = A; while (C) { print X; N; } }`.
pub proof fn law_for_loop(toks: Seq<TokenView>, pos: int)
    requires
        0 <= pos && pos + 11 < toks.len(),
        kind_at(toks, pos) == TokenKind::For,
        kind_at(toks, pos + 1) == TokenKind::LeftParen,
        kind_at(toks, pos + 2) == TokenKind::Let,
        kind_at(toks, pos + 3) == TokenKind::Identifier,
        kind_at(toks, pos + 4) == TokenKind::Equal,
        atom_at(toks, pos + 5),
        kind_at(toks, pos + 6) == TokenKind::Semicolon,
        atom_at(toks, pos + 7),
        kind_at(toks, pos + 8) == TokenKind::Semicolon,
        atom_at(toks, pos + 9),
        kind_at(toks, pos + 10) == TokenKind::RightParen,
        print_of_atom(toks, pos + 11),
    ensures
        statement(toks, pos) == done(
            StmtView::Block(
                seq![
                    StmtView::Variable(toks[pos + 3], Some(atom(toks[pos + 5]).unwrap())),
                    StmtView::While(
                        atom(toks[pos + 7]).unwrap(),
                        Box::new(
                            StmtView::Block(
                                seq![
                                    StmtView::Print(atom(toks[pos + 12]).unwrap()),
                                    StmtView::Expression(atom(toks[pos + 9]).unwrap()),
                                ],
                            ),
                        ),
                    ),
                ],
            ),
            pos + 14,
        ),
{
    law_variable_declaration(toks, pos + 2);
    lemma_expression_atom(toks, pos + 5);
    lemma_expression_atom(toks, pos + 7);
    lemma_expression_atom(toks, pos + 9);
    law_simple_statements(toks, pos + 11);
    assert(for_initializer(toks, pos + 2) == done(
        Some(StmtView::Variable(toks[pos + 3], Some(atom(toks[pos + 5]).unwrap()))),
        pos + 7,
    ));
    assert(optional_expression(toks, pos + 7, TokenKind::Semicolon) == done(
        Some(atom(toks[pos + 7]).unwrap()),
        pos + 8,
    ));
    assert(optional_expression(toks, pos + 9, TokenKind::RightParen) == done(
        Some(atom(toks[pos + 9]).unwrap()),
        pos + 10,
    ));
    let init = StmtView::Variable(toks[pos + 3], Some(atom(toks[pos + 5]).unwrap()));
    let cond = atom(toks[pos + 7]).unwrap();
    let inc = atom(toks[pos + 9]).unwrap();
    let body = StmtView::Print(atom(toks[pos + 12]).unwrap());
    assert(for_clauses(toks, pos + 2) == done((Some(init), Some(cond), Some(inc)), pos + 11));
    assert(statement(toks, pos + 11) == done(body, pos + 14));
    let looped = StmtView::While(
        cond,
        Box::new(StmtView::Block(seq![body, StmtView::Expression(inc)])),
    );
    assert(desugar_for(Some(init), Some(cond), Some(inc), body) == StmtView::Block(
        seq![init, looped],
    ));
    assert(for_statement(toks, pos + 1) == done(StmtView::Block(seq![init, looped]), pos + 14));
}

/// `for (;;) print X;` has no initializer and no increment, and loops while `true`.
pub proof fn law_for_without_clauses(toks: Seq<TokenView>, pos: int)
    requires
        0 <= pos && pos + 5 < toks.len(),
        kind_at(toks, pos) == TokenKind::For,
        kind_at(toks, pos + 1) == TokenKind::LeftParen,
        kind_at(toks, pos + 2) == TokenKind::Semicolon,
        kind_at(toks, pos + 3) == TokenKind::Semicolon,
        kind_at(toks, pos + 4) == TokenKind::RightParen,
        print_of_atom(toks, pos + 5),
    ensures
        statement(toks, pos) == done(
            StmtView::While(
                ExprView::Literal(LiteralView::True),
                Box::new(StmtView::Print(atom(toks[pos + 6]).unwrap())),
            ),
            pos + 8,
        ),
{
    law_simple_statements(toks, pos + 5);
    let body = StmtView::Print(atom(toks[pos + 6]).unwrap());
    assert(for_clauses(toks, pos + 2) == done(
        (None::<StmtView>, None::<ExprView>, None::<ExprView>),
        pos + 5,
    ));
    assert(statement(toks, pos + 5) == done(body, pos + 8));
}

} // verus!
