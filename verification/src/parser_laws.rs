//! What the grammar promises of `return` and of the binding of unary operators.
use vstd::prelude::*;

use crate::ast::{SExpr, SStmt};
use crate::parser_spec::{
    block_from, expression_at, operators_from, postfix_from, precedence, primary_at, statement_at,
    unary_at, ParserErrors,
};
use crate::token::TokenStream;

verus! {

/// Whether the token goes on a primary expression: a call, a field, an index or a method.
pub open spec fn continues_primary(t: TokenStream) -> bool {
    t is LParen || t is Dot || t is LBracket || t is Colon
}

/// Whether the token may end a `return` that gives no value.
pub open spec fn closes_return(t: TokenStream) -> bool {
    t is End || t is Else || t is Elseif || t is EOF || t is Semicolon
}

/// The expression that a name token stands for.
pub open spec fn name_expr(t: TokenStream) -> SExpr {
    SExpr::Identifier(t->Identifier_0@)
}

/// A `return` followed by `end`, `else`, `elseif`, `;` or the end of input returns no
/// value and stops before that token.
pub proof fn law_bare_return(ts: Seq<TokenStream>, p: int)
    requires
        0 <= p,
        p + 1 < ts.len(),
        ts[p] is Return,
        closes_return(ts[p + 1]),
    ensures
        statement_at(ts, p) == Ok::<_, ParserErrors>(
            (SStmt::Return(None), p + 1),
        ),
{
}

/// A `return` followed by any other token returns the expression that starts there, and
/// stops where that expression stops; it fails where the expression fails.
pub proof fn law_return_value(ts: Seq<TokenStream>, p: int)
    requires
        0 <= p,
        p + 1 < ts.len(),
        ts[p] is Return,
        !closes_return(ts[p + 1]),
    ensures
        statement_at(ts, p) == match expression_at(ts, p + 1, 0) {
            Ok((x, e)) => Ok::<_, ParserErrors>((SStmt::Return(Some(x)), e)),
            Err(err) => Err(err),
        },
{
}

/// A block that holds only a `return` without a value, closed by `end`, `else` or
/// `elseif`, is that one statement.
pub proof fn law_block_of_bare_return(ts: Seq<TokenStream>, p: int, acc: Seq<SStmt>)
    requires
        0 <= p,
        p + 1 < ts.len(),
        ts[p] is Return,
        ts[p + 1] is End || ts[p + 1] is Else || ts[p + 1] is Elseif,
    ensures
        block_from(ts, p, acc) == Ok::<_, ParserErrors>(
            (acc.push(SStmt::Return(None)), p + 1),
        ),
{
    law_bare_return(ts, p);
    assert(block_from(ts, p + 1, acc.push(SStmt::Return(None))) == Ok::<_, ParserErrors>((acc.push(SStmt::Return(None)), p + 1)));
}

/// A name followed by a token that neither continues it nor binds tighter than `min`
/// is an expression on its own.
proof fn lemma_name_alone(ts: Seq<TokenStream>, q: int, min: i32)
    requires
        0 <= q,
        q + 1 < ts.len(),
        ts[q] is Identifier,
        !continues_primary(ts[q + 1]),
        precedence(ts[q + 1]) <= min,
    ensures
        unary_at(ts, q) == Ok::<_, ParserErrors>(
            (name_expr(ts[q]), q + 1),
        ),
        expression_at(ts, q, min) == Ok::<_, ParserErrors>(
            (name_expr(ts[q]), q + 1),
        ),
{
    let x = name_expr(ts[q]);
    assert(postfix_from(ts, q + 1, x) == Ok::<_, ParserErrors>(
        (x, q + 1),
    ));
    assert(primary_at(ts, q) == Ok::<_, ParserErrors>((x, q + 1)));
    assert(operators_from(ts, q + 1, min, x) == Ok::<_, ParserErrors>(
        (x, q + 1),
    ));
}

/// A unary operator binds tighter than every binary operator but `^`: in
/// `op1 a op2 b` with `op1` one of `not`, `#`, `-` and `op2` a binary operator other than
/// `^`, the unary operator applies to `a` alone, and the binary one to its result and `b`.
pub proof fn law_unary_before_binary(ts: Seq<TokenStream>, p: int)
    requires
        0 <= p,
        p + 4 < ts.len(),
        ts[p] is Not || ts[p] is Hash || ts[p] is Minus,
        ts[p + 1] is Identifier,
        1 <= precedence(ts[p + 2]) <= 7,
        ts[p + 3] is Identifier,
        precedence(ts[p + 4]) == 0,
        !continues_primary(ts[p + 4]),
    ensures
        expression_at(ts, p, 0) == Ok::<_, ParserErrors>(
            (
                SExpr::BinaryOp(
                    Box::new(SExpr::UnaryOp(ts[p], Box::new(name_expr(ts[p + 1])))),
                    ts[p + 2],
                    Box::new(name_expr(ts[p + 3])),
                ),
                p + 4,
            ),
        ),
{
    let op = ts[p + 2];
    let a = name_expr(ts[p + 1]);
    let b = name_expr(ts[p + 3]);
    let u = SExpr::UnaryOp(ts[p], Box::new(a));
    let next: i32 = if op is Caret || op is DotDot {
        (precedence(op) - 1) as i32
    } else {
        precedence(op)
    };
    lemma_name_alone(ts, p + 1, 7);
    lemma_name_alone(ts, p + 3, next);
    assert(unary_at(ts, p) == Ok::<_, ParserErrors>((u, p + 2)));
    let whole = SExpr::BinaryOp(Box::new(u), op, Box::new(b));
    assert(operators_from(ts, p + 4, 0, whole) == Ok::<_, ParserErrors>((whole, p + 4)));
    assert(operators_from(ts, p + 2, 0, u) == Ok::<_, ParserErrors>(
        (whole, p + 4),
    ));
}

/// `^` binds tighter than a unary operator: `op1 a ^ b` applies the unary operator to
/// `a ^ b`.
pub proof fn law_power_before_unary(ts: Seq<TokenStream>, p: int)
    requires
        0 <= p,
        p + 4 < ts.len(),
        ts[p] is Not || ts[p] is Hash || ts[p] is Minus,
        ts[p + 1] is Identifier,
        ts[p + 2] is Caret,
        ts[p + 3] is Identifier,
        precedence(ts[p + 4]) == 0,
        !continues_primary(ts[p + 4]),
    ensures
        expression_at(ts, p, 0) == Ok::<_, ParserErrors>(
            (
                SExpr::UnaryOp(
                    ts[p],
                    Box::new(
                        SExpr::BinaryOp(
                            Box::new(name_expr(ts[p + 1])),
                            ts[p + 2],
                            Box::new(name_expr(ts[p + 3])),
                        ),
                    ),
                ),
                p + 4,
            ),
        ),
{
    let a = name_expr(ts[p + 1]);
    let b = name_expr(ts[p + 3]);
    let pow = SExpr::BinaryOp(Box::new(a), ts[p + 2], Box::new(b));
    let u = SExpr::UnaryOp(ts[p], Box::new(pow));
    assert(postfix_from(ts, p + 2, a) == Ok::<_, ParserErrors>(
        (a, p + 2),
    ));
    assert(primary_at(ts, p + 1) == Ok::<_, ParserErrors>(
        (a, p + 2),
    ));
    assert(unary_at(ts, p + 1) == Ok::<_, ParserErrors>(
        (a, p + 2),
    ));
    lemma_name_alone(ts, p + 3, 7);
    assert(operators_from(ts, p + 4, 7, pow) == Ok::<_, ParserErrors>(
        (pow, p + 4),
    ));
    assert(operators_from(ts, p + 2, 7, a) == Ok::<_, ParserErrors>(
        (pow, p + 4),
    ));
    assert(expression_at(ts, p + 1, 7) == Ok::<_, ParserErrors>(
        (pow, p + 4),
    ));
    assert(unary_at(ts, p) == Ok::<_, ParserErrors>((u, p + 4)));
    assert(operators_from(ts, p + 4, 0, u) == Ok::<_, ParserErrors>(
        (u, p + 4),
    ));
}

} // verus!
