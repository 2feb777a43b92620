//! The syntax tree that the parser builds: expressions and statements.
use vstd::prelude::*;
use crate::token::{Token, TokenView};

verus! {

/// The value of a literal as written in the source. A number keeps its decimal text.
#[derive(Debug)]
pub enum LiteralValue {
    Number(String),
    String(String),
    True,
    False,
    Nil,
}

pub enum LiteralView {
    Number(Seq<char>),
    String(Seq<char>),
    True,
    False,
    Nil,
}

impl View for LiteralValue {
    type V = LiteralView;

    open spec fn view(&self) -> LiteralView {
        match self {
            LiteralValue::Number(s) => LiteralView::Number(s@),
            LiteralValue::String(s) => LiteralView::String(s@),
            LiteralValue::True => LiteralView::True,
            LiteralValue::False => LiteralView::False,
            LiteralValue::Nil => LiteralView::Nil,
        }
    }
}

#[derive(Debug)]
pub struct Literal {
    pub value: LiteralValue,
}

#[derive(Debug)]
pub struct Grouping {
    pub expr: Box<Expression>,
}

#[derive(Debug)]
pub struct Unary {
    pub operator: Token,
    pub right: Box<Expression>,
}

#[derive(Debug)]
pub struct Binary {
    pub left: Box<Expression>,
    pub operator: Token,
    pub right: Box<Expression>,
}

#[derive(Debug)]
pub struct CallExpression {
    pub callee: Box<Expression>,
    pub parentheses: Token,
    pub arguments: Vec<Expression>,
}

#[derive(Debug)]
pub struct VariableExpression {
    pub name: Token,
}

#[derive(Debug)]
pub struct AssignmentExpression {
    pub name: Token,
    pub value: Box<Expression>,
}

#[derive(Debug)]
pub struct Logical {
    pub left: Box<Expression>,
    pub operator: Token,
    pub right: Box<Expression>,
}

/// An expression of the language.
#[derive(Debug)]
pub enum Expression {
    Literal(Literal),
    Grouping(Grouping),
    Unary(Unary),
    Binary(Binary),
    Call(CallExpression),
    Variable(VariableExpression),
    Assignment(AssignmentExpression),
    Logical(Logical),
}

/// An expression as a mathematical value.
pub enum ExprView {
    Literal(LiteralView),
    Grouping(Box<ExprView>),
    Unary(TokenView, Box<ExprView>),
    Binary(Box<ExprView>, TokenView, Box<ExprView>),
    Call(Box<ExprView>, TokenView, Seq<ExprView>),
    Variable(TokenView),
    Assignment(TokenView, Box<ExprView>),
    Logical(Box<ExprView>, TokenView, Box<ExprView>),
}

pub open spec fn expr_view(e: Expression) -> ExprView
    decreases e,
{
    match e {
        Expression::Literal(l) => ExprView::Literal(l.value@),
        Expression::Grouping(g) => ExprView::Grouping(Box::new(expr_view(*g.expr))),
        Expression::Unary(u) => ExprView::Unary(u.operator@, Box::new(expr_view(*u.right))),
        Expression::Binary(b) => ExprView::Binary(
            Box::new(expr_view(*b.left)),
            b.operator@,
            Box::new(expr_view(*b.right)),
        ),
        Expression::Call(c) => {
            proof {
                assert(decreases_to!(c.arguments => c.arguments@));
            }
            ExprView::Call(
                Box::new(expr_view(*c.callee)),
                c.parentheses@,
                exprs_view(c.arguments@),
            )
        },
        Expression::Variable(v) => ExprView::Variable(v.name@),
        Expression::Assignment(a) => ExprView::Assignment(a.name@, Box::new(expr_view(*a.value))),
        Expression::Logical(l) => ExprView::Logical(
            Box::new(expr_view(*l.left)),
            l.operator@,
            Box::new(expr_view(*l.right)),
        ),
    }
}

pub open spec fn exprs_view(es: Seq<Expression>) -> Seq<ExprView>
    decreases es,
{
    if es.len() == 0 {
        Seq::empty()
    } else {
        proof {
            assert(decreases_to!(es => es[es.len() - 1]));
        }
        exprs_view(es.drop_last()).push(expr_view(es.last()))
    }
}

pub proof fn lemma_exprs_view_len(es: Seq<Expression>)
    ensures
        exprs_view(es).len() == es.len(),
    decreases es.len(),
{
    if es.len() > 0 {
        lemma_exprs_view_len(es.drop_last());
    }
}

impl View for Expression {
    type V = ExprView;

    open spec fn view(&self) -> ExprView {
        expr_view(*self)
    }
}

} // verus!

verus! {

#[derive(Debug)]
pub struct ExpressionStatement {
    pub expr: Expression,
}

#[derive(Debug)]
pub struct PrintStatement {
    pub expr: Expression,
}

#[derive(Debug)]
pub struct VariableStatement {
    pub name: Token,
    pub initializer: Option<Expression>,
}

#[derive(Debug)]
pub struct BlockStatement {
    pub statements: Vec<Statement>,
}

#[derive(Debug)]
pub struct IfStatement {
    pub condition: Expression,
    pub then_branch: Box<Statement>,
    pub else_branch: Option<Box<Statement>>,
}

#[derive(Debug)]
pub struct WhileStatement {
    pub condition: Expression,
    pub body: Box<Statement>,
}

#[derive(Debug)]
pub struct FunctionStatement {
    pub name: Token,
    pub parameters: Vec<Token>,
    pub body: Box<Statement>,
}

#[derive(Debug)]
pub struct ReturnStatement {
    pub value: Expression,
}

/// A statement of the language.
#[derive(Debug)]
pub enum Statement {
    Expression(ExpressionStatement),
    Print(PrintStatement),
    Variable(VariableStatement),
    Block(BlockStatement),
    If(IfStatement),
    While(WhileStatement),
    Function(FunctionStatement),
    Return(ReturnStatement),
}

/// A statement as a mathematical value.
pub enum StmtView {
    Expression(ExprView),
    Print(ExprView),
    Variable(TokenView, Option<ExprView>),
    Block(Seq<StmtView>),
    If(ExprView, Box<StmtView>, Option<Box<StmtView>>),
    While(ExprView, Box<StmtView>),
    Function(TokenView, Seq<TokenView>, Box<StmtView>),
    Return(ExprView),
}

pub open spec fn opt_expr_view(e: Option<Expression>) -> Option<ExprView> {
    match e {
        Some(e) => Some(e@),
        None => None,
    }
}

pub open spec fn stmt_view(s: Statement) -> StmtView
    decreases s,
{
    match s {
        Statement::Expression(e) => StmtView::Expression(e.expr@),
        Statement::Print(p) => StmtView::Print(p.expr@),
        Statement::Variable(v) => StmtView::Variable(v.name@, opt_expr_view(v.initializer)),
        Statement::Block(b) => {
            proof {
                assert(decreases_to!(b.statements => b.statements@));
            }
            StmtView::Block(stmts_view(b.statements@))
        },
        Statement::If(i) => StmtView::If(
            i.condition@,
            Box::new(stmt_view(*i.then_branch)),
            match i.else_branch {
                Some(e) => Some(Box::new(stmt_view(*e))),
                None => None,
            },
        ),
        Statement::While(w) => StmtView::While(w.condition@, Box::new(stmt_view(*w.body))),
        Statement::Function(f) => StmtView::Function(
            f.name@,
            crate::token::token_views(f.parameters@),
            Box::new(stmt_view(*f.body)),
        ),
        Statement::Return(r) => StmtView::Return(r.value@),
    }
}

pub open spec fn stmts_view(ss: Seq<Statement>) -> Seq<StmtView>
    decreases ss,
{
    if ss.len() == 0 {
        Seq::empty()
    } else {
        proof {
            assert(decreases_to!(ss => ss[ss.len() - 1]));
        }
        stmts_view(ss.drop_last()).push(stmt_view(ss.last()))
    }
}

pub open spec fn opt_stmt_view(s: Option<Statement>) -> Option<StmtView> {
    match s {
        Some(s) => Some(s@),
        None => None,
    }
}

impl View for Statement {
    type V = StmtView;

    open spec fn view(&self) -> StmtView {
        stmt_view(*self)
    }
}

impl Literal {
    pub fn new(value: LiteralValue) -> (l: Self)
        ensures
            l.value == value,
    {
        Self { value }
    }
}

impl Grouping {
    pub fn new(expr: Expression) -> (g: Self)
        ensures
            *g.expr == expr,
    {
        Self { expr: Box::new(expr) }
    }
}

impl Unary {
    pub fn new(operator: Token, right: Expression) -> (u: Self)
        ensures
            u.operator == operator,
            *u.right == right,
    {
        Self { operator, right: Box::new(right) }
    }
}

impl Binary {
    pub fn new(left: Expression, operator: Token, right: Expression) -> (b: Self)
        ensures
            *b.left == left,
            b.operator == operator,
            *b.right == right,
    {
        Self { left: Box::new(left), operator, right: Box::new(right) }
    }
}

impl CallExpression {
    pub fn new(callee: Expression, parentheses: Token, arguments: Vec<Expression>) -> (c: Self)
        ensures
            *c.callee == callee,
            c.parentheses == parentheses,
            c.arguments == arguments,
    {
        Self { callee: Box::new(callee), parentheses, arguments }
    }
}

impl VariableExpression {
    pub fn new(name: Token) -> (v: Self)
        ensures
            v.name == name,
    {
        Self { name }
    }
}

impl AssignmentExpression {
    pub fn new(name: Token, value: Expression) -> (a: Self)
        ensures
            a.name == name,
            *a.value == value,
    {
        Self { name, value: Box::new(value) }
    }
}

impl Logical {
    pub fn new(left: Expression, operator: Token, right: Expression) -> (l: Self)
        ensures
            *l.left == left,
            l.operator == operator,
            *l.right == right,
    {
        Self { left: Box::new(left), operator, right: Box::new(right) }
    }
}

impl ExpressionStatement {
    pub fn new(expr: Expression) -> (s: Self)
        ensures
            s.expr == expr,
    {
        Self { expr }
    }
}

impl PrintStatement {
    pub fn new(expr: Expression) -> (s: Self)
        ensures
            s.expr == expr,
    {
        Self { expr }
    }
}

impl VariableStatement {
    pub fn new(name: Token, initializer: Option<Expression>) -> (s: Self)
        ensures
            s.name == name,
            s.initializer == initializer,
    {
        Self { name, initializer }
    }
}

impl BlockStatement {
    pub fn new(statements: Vec<Statement>) -> (s: Self)
        ensures
            s.statements == statements,
    {
        Self { statements }
    }
}

impl IfStatement {
    pub fn new(condition: Expression, then_branch: Statement, else_branch: Option<Statement>) -> (s:
        Self)
        ensures
            s.condition == condition,
            *s.then_branch == then_branch,
            match else_branch {
                Some(e) => s.else_branch matches Some(b) && *b == e,
                None => s.else_branch is None,
            },
    {
        let else_branch = match else_branch {
            Some(e) => Some(Box::new(e)),
            None => None,
        };
        Self { condition, then_branch: Box::new(then_branch), else_branch }
    }
}

impl WhileStatement {
    pub fn new(condition: Expression, body: Statement) -> (s: Self)
        ensures
            s.condition == condition,
            *s.body == body,
    {
        Self { condition, body: Box::new(body) }
    }
}

impl FunctionStatement {
    pub fn new(name: Token, parameters: Vec<Token>, body: Statement) -> (s: Self)
        ensures
            s.name == name,
            s.parameters == parameters,
            *s.body == body,
    {
        Self { name, parameters, body: Box::new(body) }
    }
}

impl ReturnStatement {
    pub fn new(value: Expression) -> (s: Self)
        ensures
            s.value == value,
    {
        Self { value }
    }
}

proof fn lemma_exprs_view_same(a: Seq<Expression>, b: Seq<Expression>)
    requires
        a.len() == b.len(),
        forall|j: int| 0 <= j < a.len() ==> (#[trigger] a[j])@ == b[j]@,
    ensures
        exprs_view(a) == exprs_view(b),
    decreases a.len(),
{
    if a.len() > 0 {
        let (a0, b0) = (a.drop_last(), b.drop_last());
        assert forall|j: int| 0 <= j < a0.len() implies (#[trigger] a0[j])@ == b0[j]@ by {
            assert(a0[j] == a[j]);
            assert(b0[j] == b[j]);
        }
        lemma_exprs_view_same(a0, b0);
        assert(a.last()@ == b.last()@);
    }
}

impl LiteralValue {
    /// A copy of this value.
    pub fn duplicate(&self) -> (r: Self)
        ensures
            r == *self,
    {
        match self {
            LiteralValue::Number(n) => LiteralValue::Number(n.clone()),
            LiteralValue::String(s) => LiteralValue::String(s.clone()),
            LiteralValue::True => LiteralValue::True,
            LiteralValue::False => LiteralValue::False,
            LiteralValue::Nil => LiteralValue::Nil,
        }
    }
}

impl Expression {
    /// A deep copy of this expression.
    pub fn duplicate(&self) -> (r: Self)
        ensures
            r@ == self@,
        decreases self,
    {
        match self {
            Expression::Literal(l) => Expression::Literal(Literal { value: l.value.duplicate() }),
            Expression::Grouping(g) => Expression::Grouping(
                Grouping { expr: Box::new(g.expr.duplicate()) },
            ),
            Expression::Unary(u) => Expression::Unary(
                Unary { operator: u.operator.duplicate(), right: Box::new(u.right.duplicate()) },
            ),
            Expression::Binary(b) => Expression::Binary(
                Binary {
                    left: Box::new(b.left.duplicate()),
                    operator: b.operator.duplicate(),
                    right: Box::new(b.right.duplicate()),
                },
            ),
            Expression::Call(c) => {
                let mut arguments: Vec<Expression> = Vec::new();
                let mut i: usize = 0;
                #[verifier::loop_isolation(false)]
                while i < c.arguments.len()
                    invariant
                        i <= c.arguments@.len(),
                        arguments@.len() == i,
                        forall|j: int| 0 <= j < i ==> (#[trigger] arguments@[j])@ == c.arguments@[j]@,
                    decreases c.arguments@.len() - i,
                {
                    proof {
                        assert(decreases_to!(c.arguments => c.arguments@));
                        assert(decreases_to!(c.arguments@ => c.arguments@[i as int]));
                    }
                    arguments.push(c.arguments[i].duplicate());
                    i = i + 1;
                }
                proof {
                    lemma_exprs_view_same(arguments@, c.arguments@);
                }
                Expression::Call(
                    CallExpression {
                        callee: Box::new(c.callee.duplicate()),
                        parentheses: c.parentheses.duplicate(),
                        arguments,
                    },
                )
            },
            Expression::Variable(v) => Expression::Variable(
                VariableExpression { name: v.name.duplicate() },
            ),
            Expression::Assignment(a) => Expression::Assignment(
                AssignmentExpression {
                    name: a.name.duplicate(),
                    value: Box::new(a.value.duplicate()),
                },
            ),
            Expression::Logical(l) => Expression::Logical(
                Logical {
                    left: Box::new(l.left.duplicate()),
                    operator: l.operator.duplicate(),
                    right: Box::new(l.right.duplicate()),
                },
            ),
        }
    }
}

proof fn lemma_stmts_view_same(a: Seq<Statement>, b: Seq<Statement>)
    requires
        a.len() == b.len(),
        forall|j: int| 0 <= j < a.len() ==> (#[trigger] a[j])@ == b[j]@,
    ensures
        stmts_view(a) == stmts_view(b),
    decreases a.len(),
{
    if a.len() > 0 {
        let (a0, b0) = (a.drop_last(), b.drop_last());
        assert forall|j: int| 0 <= j < a0.len() implies (#[trigger] a0[j])@ == b0[j]@ by {
            assert(a0[j] == a[j]);
            assert(b0[j] == b[j]);
        }
        lemma_stmts_view_same(a0, b0);
        assert(a.last()@ == b.last()@);
    }
}

impl Statement {
    /// A deep copy of this statement.
    pub fn duplicate(&self) -> (r: Self)
        ensures
            r@ == self@,
        decreases self,
    {
        match self {
            Statement::Expression(e) => Statement::Expression(
                ExpressionStatement { expr: e.expr.duplicate() },
            ),
            Statement::Print(p) => Statement::Print(PrintStatement { expr: p.expr.duplicate() }),
            Statement::Variable(v) => {
                let initializer = match &v.initializer {
                    Some(e) => Some(e.duplicate()),
                    None => None,
                };
                Statement::Variable(VariableStatement { name: v.name.duplicate(), initializer })
            },
            Statement::Block(b) => {
                let mut statements: Vec<Statement> = Vec::new();
                let mut i: usize = 0;
                #[verifier::loop_isolation(false)]
                while i < b.statements.len()
                    invariant
                        i <= b.statements@.len(),
                        statements@.len() == i,
                        forall|j: int|
                            0 <= j < i ==> (#[trigger] statements@[j])@ == b.statements@[j]@,
                    decreases b.statements@.len() - i,
                {
                    proof {
                        assert(decreases_to!(b.statements => b.statements@));
                        assert(decreases_to!(b.statements@ => b.statements@[i as int]));
                    }
                    statements.push(b.statements[i].duplicate());
                    i = i + 1;
                }
                proof {
                    lemma_stmts_view_same(statements@, b.statements@);
                }
                Statement::Block(BlockStatement { statements })
            },
            Statement::If(i) => {
                let else_branch = match &i.else_branch {
                    Some(e) => Some(Box::new(e.duplicate())),
                    None => None,
                };
                Statement::If(
                    IfStatement {
                        condition: i.condition.duplicate(),
                        then_branch: Box::new(i.then_branch.duplicate()),
                        else_branch,
                    },
                )
            },
            Statement::While(w) => Statement::While(
                WhileStatement {
                    condition: w.condition.duplicate(),
                    body: Box::new(w.body.duplicate()),
                },
            ),
            Statement::Function(f) => Statement::Function(
                FunctionStatement {
                    name: f.name.duplicate(),
                    parameters: crate::token::duplicate_tokens(&f.parameters),
                    body: Box::new(f.body.duplicate()),
                },
            ),
            Statement::Return(r) => Statement::Return(ReturnStatement { value: r.value.duplicate() }),
        }
    }
}

} // verus!
