//! A peephole rewrite of the minifier: an `if` / `else` whose two branches
//! only return becomes one `return` of a conditional expression.
use vstd::prelude::*;

verus! {

/// The expressions that the rewrite tells apart.
#[derive(Debug, PartialEq, Eq)]
pub enum Expression {
    Identifier(String),
    /// A number, as written in the source.
    NumericLiteral(String),
    Conditional { test: Box<Expression>, consequent: Box<Expression>, alternate: Box<Expression> },
    /// Any other expression, as written in the source.
    Other(String),
}

/// The statements that the rewrite tells apart.
#[derive(Debug, PartialEq, Eq)]
pub enum Statement {
    If { test: Expression, consequent: Box<Statement>, alternate: Option<Box<Statement>> },
    Return(Option<Expression>),
    Block(Vec<Statement>),
    Expression(Expression),
    Empty,
}

/// The statement rewriter.
pub struct Compressor;

/// `return argument` and `{ return argument }` give `argument`.
pub open spec fn single_return_argument(s: Statement) -> Option<Expression> {
    match s {
        Statement::Return(a) => a,
        Statement::Block(body) => if body@.len() == 1 {
            match body@[0] {
                Statement::Return(a) => a,
                _ => None,
            }
        } else {
            None
        },
        _ => None,
    }
}

/// `if (x) return a; else return b` becomes `return x ? a : b`, and so do the
/// forms with blocks around either return; anything else stays as it is.
pub open spec fn replaced_if(s: Statement) -> Statement {
    match s {
        Statement::If { test, consequent, alternate: Some(alt) } => {
            match (single_return_argument(*consequent), single_return_argument(*alt)) {
                (Some(c), Some(a)) => Statement::Return(
                    Some(
                        Expression::Conditional {
                            test: Box::new(test),
                            consequent: Box::new(c),
                            alternate: Box::new(a),
                        },
                    ),
                ),
                _ => s,
            }
        },
        _ => s,
    }
}

fn has_single_return_argument(stmt: &Statement) -> (r: bool)
    ensures
        r == single_return_argument(*stmt) is Some,
{
    match stmt {
        Statement::Return(a) => a.is_some(),
        Statement::Block(body) => body.len() == 1 && match &body[0] {
            Statement::Return(a) => a.is_some(),
            _ => false,
        },
        _ => false,
    }
}

/// The argument of a statement that only returns it (`return a` or
/// `{ return a }`); `None` for any other statement.
fn get_single_return_argument(stmt: Statement) -> (r: Option<Expression>)
    ensures
        r == single_return_argument(stmt),
{
    match stmt {
        Statement::Return(a) => a,
        Statement::Block(body) => {
            if body.len() != 1 {
                return None;
            }
            let mut body = body;
            match body.remove(0) {
                Statement::Return(a) => a,
                _ => None,
            }
        },
        _ => None,
    }
}

impl Compressor {
    /// Rewrites an `if` / `else` whose branches each only return a value into
    /// one `return` of a conditional expression; leaves any other statement.
    pub fn try_replace_if(&mut self, stmt: &mut Statement)
        ensures
            *final(stmt) == replaced_if(*old(stmt)),
    {
        let rewrite = match &*stmt {
            Statement::If { consequent, alternate: Some(alt), .. } => has_single_return_argument(
                consequent,
            ) && has_single_return_argument(alt),
            _ => false,
        };
        if !rewrite {
            return ;
        }
        let mut taken = Statement::Empty;
        core::mem::swap(stmt, &mut taken);
        match taken {
            Statement::If { test, consequent, alternate: Some(alt) } => {
                let c = get_single_return_argument(*consequent).unwrap();
                let a = get_single_return_argument(*alt).unwrap();
                *stmt = Statement::Return(
                    Some(
                        Expression::Conditional {
                            test: Box::new(test),
                            consequent: Box::new(c),
                            alternate: Box::new(a),
                        },
                    ),
                );
            },
            other => {
                *stmt = other;
            },
        }
    }
}

} // verus!
