//! Writing an expression as text, in prefix form with parentheses.
use vstd::prelude::*;
use crate::ast::{exprs_view, ExprView, Expression, LiteralValue, LiteralView};
use crate::token::TokenView;
use vstd::string::StringExecFns;

verus! {

/// How a literal reads: a number or a string as its text, the others as their keyword.
pub open spec fn literal_text(l: LiteralView) -> Seq<char> {
    match l {
        LiteralView::Number(t) => t,
        LiteralView::String(t) => t,
        LiteralView::True => "true"@,
        LiteralView::False => "false"@,
        LiteralView::Nil => "nil"@,
    }
}

/// How an expression reads: `(name part part ...)` for every compound expression, with
/// the operator's text as the name, `group` for a grouping, `=` for an assignment and
/// `call` for a call; a variable reads as its name and a literal as its text.
pub open spec fn printed(e: ExprView) -> Seq<char>
    decreases e,
{
    match e {
        ExprView::Literal(l) => literal_text(l),
        ExprView::Grouping(x) => "(group"@ + " "@ + printed(*x) + ")"@,
        ExprView::Unary(op, x) => "("@ + op.lexeme + " "@ + printed(*x) + ")"@,
        ExprView::Binary(l, op, r) => "("@ + op.lexeme + " "@ + printed(*l) + " "@ + printed(*r)
            + ")"@,
        ExprView::Logical(l, op, r) => "("@ + op.lexeme + " "@ + printed(*l) + " "@ + printed(
            *r,
        ) + ")"@,
        ExprView::Variable(name) => name.lexeme,
        ExprView::Assignment(name, x) => "(="@ + " "@ + name.lexeme + " "@ + printed(*x) + ")"@,
        ExprView::Call(callee, _, args) => "(call"@ + " "@ + printed(*callee) + printed_all(args)
            + ")"@,
    }
}

/// Each expression of `es` printed after a space, one after the other.
pub open spec fn printed_all(es: Seq<ExprView>) -> Seq<char>
    decreases es,
{
    if es.len() == 0 {
        Seq::empty()
    } else {
        proof {
            assert(decreases_to!(es => es[es.len() - 1]));
        }
        printed_all(es.drop_last()) + " "@ + printed(es.last())
    }
}

fn literal_string(l: &LiteralValue) -> (s: String)
    ensures
        s@ == literal_text(l@),
{
    match l {
        LiteralValue::Number(t) => t.clone(),
        LiteralValue::String(t) => t.clone(),
        LiteralValue::True => String::from_str("true"),
        LiteralValue::False => String::from_str("false"),
        LiteralValue::Nil => String::from_str("nil"),
    }
}

proof fn lemma_exprs_view_take(es: Seq<Expression>, i: int)
    requires
        0 <= i < es.len(),
    ensures
        exprs_view(es.take(i + 1)) == exprs_view(es.take(i)).push(es[i]@),
{
    assert(es.take(i + 1).drop_last() =~= es.take(i));
}

impl Expression {
    /// The expression as text (see `printed`).
    pub fn print(&self) -> (s: String)
        ensures
            s@ == printed(self@),
        decreases self,
    {
        match self {
            Expression::Literal(l) => literal_string(&l.value),
            Expression::Grouping(g) => {
                let mut s = String::from_str("(group");
                s.append(" ");
                s.append(g.expr.print().as_str());
                s.append(")");
                s
            },
            Expression::Unary(u) => {
                let mut s = String::from_str("(");
                s.append(u.operator.lexeme.as_str());
                s.append(" ");
                s.append(u.right.print().as_str());
                s.append(")");
                s
            },
            Expression::Binary(b) => {
                let mut s = String::from_str("(");
                s.append(b.operator.lexeme.as_str());
                s.append(" ");
                s.append(b.left.print().as_str());
                s.append(" ");
                s.append(b.right.print().as_str());
                s.append(")");
                s
            },
            Expression::Logical(b) => {
                let mut s = String::from_str("(");
                s.append(b.operator.lexeme.as_str());
                s.append(" ");
                s.append(b.left.print().as_str());
                s.append(" ");
                s.append(b.right.print().as_str());
                s.append(")");
                s
            },
            Expression::Variable(v) => v.name.lexeme.clone(),
            Expression::Assignment(a) => {
                let mut s = String::from_str("(=");
                s.append(" ");
                s.append(a.name.lexeme.as_str());
                s.append(" ");
                s.append(a.value.print().as_str());
                s.append(")");
                s
            },
            Expression::Call(c) => {
                let mut s = String::from_str("(call");
                s.append(" ");
                s.append(c.callee.print().as_str());
                let ghost head = s@;
                let mut i: usize = 0;
                proof {
                    assert(c.arguments@.take(0) =~= Seq::<Expression>::empty());
                    assert(head + printed_all(exprs_view(c.arguments@.take(0))) =~= head);
                }
                #[verifier::loop_isolation(false)]
                while i < c.arguments.len()
                    invariant
                        i <= c.arguments@.len(),
                        s@ == head + printed_all(exprs_view(c.arguments@.take(i as int))),
                    decreases c.arguments@.len() - i,
                {
                    proof {
                        assert(decreases_to!(c.arguments => c.arguments@));
                        assert(decreases_to!(c.arguments@ => c.arguments@[i as int]));
                        lemma_exprs_view_take(c.arguments@, i as int);
                    }
                    let part = c.arguments[i].print();
                    s.append(" ");
                    s.append(part.as_str());
                    i = i + 1;
                    proof {
                        let prev = exprs_view(c.arguments@.take(i - 1));
                        let now = exprs_view(c.arguments@.take(i as int));
                        assert(now.drop_last() =~= prev);
                        assert(s@ =~= head + printed_all(now));
                    }
                }
                assert(c.arguments@.take(i as int) =~= c.arguments@);
                s.append(")");
                s
            },
        }
    }
}

/// A literal prints as it was written: `true`, `false` and `nil` as those words, a number
/// or a string as its text; a variable prints as its name.
pub proof fn law_printed_atoms(text: Seq<char>, name: TokenView)
    ensures
        printed(ExprView::Literal(LiteralView::True)) == seq!['t', 'r', 'u', 'e'],
        printed(ExprView::Literal(LiteralView::False)) == seq!['f', 'a', 'l', 's', 'e'],
        printed(ExprView::Literal(LiteralView::Nil)) == seq!['n', 'i', 'l'],
        printed(ExprView::Literal(LiteralView::Number(text))) == text,
        printed(ExprView::Literal(LiteralView::String(text))) == text,
        printed(ExprView::Variable(name)) == name.lexeme,
{
    reveal_strlit("true");
    reveal_strlit("false");
    reveal_strlit("nil");
    assert("true"@ =~= seq!['t', 'r', 'u', 'e']);
    assert("false"@ =~= seq!['f', 'a', 'l', 's', 'e']);
    assert("nil"@ =~= seq!['n', 'i', 'l']);
}

/// A compound expression prints as `(`, its operator's text (`group` for a grouping, `=`
/// for an assignment, `call` for a call), then each part after a space, then `)`.
pub proof fn law_printed_compounds(a: ExprView, b: ExprView, op: TokenView)
    ensures
        printed(ExprView::Grouping(Box::new(a))) == seq!['(', 'g', 'r', 'o', 'u', 'p', ' ']
            + printed(a) + seq![')'],
        printed(ExprView::Unary(op, Box::new(a))) == seq!['('] + op.lexeme + seq![' '] + printed(
            a,
        ) + seq![')'],
        printed(ExprView::Binary(Box::new(a), op, Box::new(b))) == seq!['('] + op.lexeme + seq![
            ' ',
        ] + printed(a) + seq![' '] + printed(b) + seq![')'],
        printed(ExprView::Logical(Box::new(a), op, Box::new(b))) == seq!['('] + op.lexeme + seq![
            ' ',
        ] + printed(a) + seq![' '] + printed(b) + seq![')'],
        printed(ExprView::Assignment(op, Box::new(a))) == seq!['(', '=', ' '] + op.lexeme + seq![
            ' ',
        ] + printed(a) + seq![')'],
{
    reveal_strlit("(group");
    reveal_strlit(" ");
    reveal_strlit(")");
    reveal_strlit("(");
    reveal_strlit("(=");
    assert("(group"@ + " "@ =~= seq!['(', 'g', 'r', 'o', 'u', 'p', ' ']);
    assert("(="@ + " "@ =~= seq!['(', '=', ' ']);
    assert("("@ =~= seq!['(']);
    assert(" "@ =~= seq![' ']);
    assert(")"@ =~= seq![')']);
    assert(printed(ExprView::Grouping(Box::new(a))) =~= seq!['(', 'g', 'r', 'o', 'u', 'p', ' ']
        + printed(a) + seq![')']);
    assert(printed(ExprView::Assignment(op, Box::new(a))) =~= seq!['(', '=', ' '] + op.lexeme
        + seq![' '] + printed(a) + seq![')']);
}

} // verus!
