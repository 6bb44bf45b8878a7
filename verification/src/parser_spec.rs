//! The grammar that the parser implements, as spec functions over the token sequence.
//!
//! Each function gives, for a start position, either the parsed model and the position
//! where parsing stopped, or the error. The loops of the parser are functions with an
//! accumulator. Where a sub-parse is followed by more parsing at the position where it
//! stopped, the grammar continues only when that position lies after the start, and
//! gives `Todo` otherwise. No parse function of the parser returns `Todo`, and each agrees
//! with its grammar function, so that branch is never taken.
use vstd::prelude::*;

use crate::ast::{SExpr, SField, SStmt};
use crate::token::TokenStream;

verus! {

#[derive(Debug, PartialEq)]
pub enum ParserErrors {
    NotNumber,
    UnexpectedToken(TokenStream),
    CurrentNull,
    PeekNull,
    ExpectedIdentifier,
    UnexpectedEOF,
    Todo,
}

/// A parse result: the model and the position after it, or the error.
pub type PRes<M> = Result<(M, int), ParserErrors>;

/// The token at `p`.
pub open spec fn tok_at(ts: Seq<TokenStream>, p: int) -> Result<TokenStream, ParserErrors> {
    if 0 <= p < ts.len() {
        Ok(ts[p])
    } else {
        Err(ParserErrors::CurrentNull)
    }
}

/// The token after the one at `p`.
pub open spec fn peek_at(ts: Seq<TokenStream>, p: int) -> Result<TokenStream, ParserErrors> {
    if 0 <= p + 1 < ts.len() {
        Ok(ts[p + 1])
    } else {
        Err(ParserErrors::PeekNull)
    }
}

/// Whether `e` lies after `p` and within the tokens.
pub open spec fn moved(ts: Seq<TokenStream>, p: int, e: int) -> bool {
    p < e <= ts.len()
}

/// The position after the expected token at `p`.
pub open spec fn expect_at(ts: Seq<TokenStream>, p: int, expected: TokenStream) -> Result<
    int,
    ParserErrors,
> {
    match tok_at(ts, p) {
        Err(e) => Err(e),
        Ok(t) => if t.same(expected) {
            Ok(p + 1)
        } else {
            Err(ParserErrors::UnexpectedToken(t))
        },
    }
}

/// The binding power of a binary operator, 0 for any other token.
pub open spec fn precedence(t: TokenStream) -> i32 {
    match t {
        TokenStream::Or => 1,
        TokenStream::And => 2,
        TokenStream::EqualEqual | TokenStream::NotEqual | TokenStream::Less | TokenStream::LessEqual
        | TokenStream::Greater | TokenStream::GreaterEqual => 3,
        TokenStream::DotDot => 4,
        TokenStream::Plus | TokenStream::Minus => 5,
        TokenStream::Asterisk | TokenStream::Slash | TokenStream::Percent => 6,
        TokenStream::Caret => 8,
        _ => 0,
    }
}

/// A block of statements, up to `end`, `else`, `elseif` or the end of input.
pub open spec fn block_from(ts: Seq<TokenStream>, p: int, acc: Seq<SStmt>) -> PRes<Seq<SStmt>>
    decreases ts.len() - p, 9int,
{
    match tok_at(ts, p) {
        Err(_) => Ok((acc, p)),
        Ok(t) => if t is End || t is Else || t is EOF || t is Elseif {
            Ok((acc, p))
        } else {
            match statement_at(ts, p) {
                Err(e) => Err(e),
                Ok((s, e)) => if moved(ts, p, e) {
                    block_from(ts, e, acc.push(s))
                } else {
                    Err(ParserErrors::Todo)
                },
            }
        },
    }
}

/// A whole program: statements up to the end of input.
pub open spec fn program_from(ts: Seq<TokenStream>, p: int, acc: Seq<SStmt>) -> PRes<Seq<SStmt>>
    decreases ts.len() - p, 9int,
{
    match tok_at(ts, p) {
        Err(_) => Ok((acc, p)),
        Ok(t) => if t is EOF {
            Ok((acc, p))
        } else {
            match statement_at(ts, p) {
                Err(e) => Err(e),
                Ok((s, e)) => if moved(ts, p, e) {
                    program_from(ts, e, acc.push(s))
                } else {
                    Err(ParserErrors::Todo)
                },
            }
        },
    }
}

/// A statement.
pub open spec fn statement_at(ts: Seq<TokenStream>, p: int) -> PRes<SStmt>
    decreases ts.len() - p, 8int,
{
    match tok_at(ts, p) {
        Err(e) => Err(e),
        Ok(t) => match t {
            TokenStream::Local => local_var_func_at(ts, p),
            TokenStream::If => if_at(ts, p),
            TokenStream::Function => function_def_at(ts, p),
            TokenStream::Return => return_at(ts, p),
            TokenStream::While => while_at(ts, p),
            TokenStream::Break => Ok((SStmt::Break, p + 1)),
            _ => assignment_or_call_at(ts, p),
        },
    }
}

/// `while cond do block end`, from the `while` at `p`.
pub open spec fn while_at(ts: Seq<TokenStream>, p: int) -> PRes<SStmt>
    decreases ts.len() - p, 7int,
{
    if !(0 <= p < ts.len()) {
        Err(ParserErrors::CurrentNull)
    } else {
        match expression_at(ts, p + 1, 0) {
            Err(e) => Err(e),
            Ok((cond, e1)) => match expect_at(ts, e1, TokenStream::Do) {
                Err(e) => Err(e),
                Ok(e2) => if moved(ts, p, e2) {
                    match block_from(ts, e2, Seq::empty()) {
                        Err(e) => Err(e),
                        Ok((body, e3)) => match expect_at(ts, e3, TokenStream::End) {
                            Err(e) => Err(e),
                            Ok(e4) => Ok((SStmt::While(cond, body), e4)),
                        },
                    }
                } else {
                    Err(ParserErrors::Todo)
                },
            },
        }
    }
}

/// Whether a `return` without a value ends at this token.
pub open spec fn ends_return(t: TokenStream) -> bool {
    t is End || t is Else || t is Elseif || t is EOF || t is Semicolon
}

/// `return [expr]`, from the `return` at `p`.
pub open spec fn return_at(ts: Seq<TokenStream>, p: int) -> PRes<SStmt>
    decreases ts.len() - p, 7int,
{
    if !(0 <= p < ts.len()) {
        Err(ParserErrors::CurrentNull)
    } else {
        match tok_at(ts, p + 1) {
            Err(e) => Err(e),
            Ok(t) => if ends_return(t) {
                Ok((SStmt::Return(None), p + 1))
            } else {
                match expression_at(ts, p + 1, 0) {
                    Err(e) => Err(e),
                    Ok((x, e)) => Ok((SStmt::Return(Some(x)), e)),
                }
            },
        }
    }
}

/// `function name(params) body end` or `function name:method(params) body end`, from the
/// `function` at `p`. A method becomes an assignment of a function with a leading `self`
/// parameter to the field of that name.
pub open spec fn function_def_at(ts: Seq<TokenStream>, p: int) -> PRes<SStmt>
    decreases ts.len() - p, 7int,
{
    if !(0 <= p < ts.len()) {
        Err(ParserErrors::CurrentNull)
    } else {
        match tok_at(ts, p + 1) {
            Err(e) => Err(e),
            Ok(t) => match t {
                TokenStream::Identifier(name) => match tok_at(ts, p + 2) {
                    Err(e) => Err(e),
                    Ok(t2) => if t2 is Colon {
                        match tok_at(ts, p + 3) {
                            Err(e) => Err(e),
                            Ok(t3) => match t3 {
                                TokenStream::Identifier(method) => match function_body_at(
                                    ts,
                                    p + 4,
                                ) {
                                    Err(e) => Err(e),
                                    Ok(((params, body), e)) => Ok(
                                        (
                                            SStmt::Assign(
                                                SExpr::Index(
                                                    Box::new(SExpr::Identifier(name@)),
                                                    Box::new(SExpr::Str(method@)),
                                                ),
                                                SExpr::Function(seq!["self"@] + params, body),
                                            ),
                                            e,
                                        ),
                                    ),
                                },
                                _ => Err(ParserErrors::ExpectedIdentifier),
                            },
                        }
                    } else {
                        match function_body_at(ts, p + 2) {
                            Err(e) => Err(e),
                            Ok(((params, body), e)) => Ok(
                                (SStmt::FunctionDef(name@, params, body), e),
                            ),
                        }
                    },
                },
                _ => Err(ParserErrors::ExpectedIdentifier),
            },
        }
    }
}

/// Parameter names separated by commas.
pub open spec fn params_from(ts: Seq<TokenStream>, p: int, acc: Seq<Seq<char>>) -> PRes<
    Seq<Seq<char>>,
>
    decreases ts.len() - p, 7int,
{
    match tok_at(ts, p) {
        Err(e) => Err(e),
        Ok(t) => match t {
            TokenStream::Identifier(id) => match tok_at(ts, p + 1) {
                Err(e) => Err(e),
                Ok(t2) => if t2 is Comma {
                    params_from(ts, p + 2, acc.push(id@))
                } else {
                    Ok((acc.push(id@), p + 1))
                },
            },
            _ => Err(ParserErrors::ExpectedIdentifier),
        },
    }
}

/// `(params) block end`, from the `(` at `p`.
pub open spec fn function_body_at(ts: Seq<TokenStream>, p: int) -> PRes<
    (Seq<Seq<char>>, Seq<SStmt>),
>
    decreases ts.len() - p, 7int,
{
    match expect_at(ts, p, TokenStream::LParen) {
        Err(e) => Err(e),
        Ok(q) => match tok_at(ts, q) {
            Err(e) => Err(e),
            Ok(t) => {
                let ps = if t is RParen {
                    Ok((Seq::<Seq<char>>::empty(), q))
                } else {
                    params_from(ts, q, Seq::empty())
                };
                match ps {
                    Err(e) => Err(e),
                    Ok((params, q2)) => match expect_at(ts, q2, TokenStream::RParen) {
                        Err(e) => Err(e),
                        Ok(q3) => if moved(ts, p, q3) {
                            match block_from(ts, q3, Seq::empty()) {
                                Err(e) => Err(e),
                                Ok((body, q4)) => match expect_at(ts, q4, TokenStream::End) {
                                    Err(e) => Err(e),
                                    Ok(q5) => Ok(((params, body), q5)),
                                },
                            }
                        } else {
                            Err(ParserErrors::Todo)
                        },
                    },
                }
            },
        },
    }
}

/// `name = expr`, from the name at `p`.
pub open spec fn local_var_at(ts: Seq<TokenStream>, p: int) -> PRes<SStmt>
    decreases ts.len() - p, 7int,
{
    match tok_at(ts, p) {
        Err(e) => Err(e),
        Ok(t) => match t {
            TokenStream::Identifier(id) => match expect_at(ts, p + 1, TokenStream::Equal) {
                Err(e) => Err(e),
                Ok(q) => match expression_at(ts, q, 0) {
                    Err(e) => Err(e),
                    Ok((v, e)) => Ok((SStmt::LocalVar(id@, v), e)),
                },
            },
            _ => Err(ParserErrors::ExpectedIdentifier),
        },
    }
}

/// `local function name(params) body end` or `local name = expr`, from the `local` at `p`.
pub open spec fn local_var_func_at(ts: Seq<TokenStream>, p: int) -> PRes<SStmt>
    decreases ts.len() - p, 7int,
{
    if !(0 <= p < ts.len()) {
        Err(ParserErrors::CurrentNull)
    } else {
        match tok_at(ts, p + 1) {
            Err(e) => Err(e),
            Ok(t) => if t is Function {
                match tok_at(ts, p + 2) {
                    Err(e) => Err(e),
                    Ok(t2) => match t2 {
                        TokenStream::Identifier(name) => match function_body_at(ts, p + 3) {
                            Err(e) => Err(e),
                            Ok(((params, body), e)) => Ok(
                                (SStmt::FunctionDef(name@, params, body), e),
                            ),
                        },
                        _ => Err(ParserErrors::ExpectedIdentifier),
                    },
                }
            } else {
                local_var_at(ts, p + 1)
            },
        }
    }
}

/// The `elseif cond then block` clauses at `p`, each as an `if` without `else`.
pub open spec fn elseifs_from(ts: Seq<TokenStream>, p: int, acc: Seq<SStmt>) -> PRes<Seq<SStmt>>
    decreases ts.len() - p, 7int,
{
    match tok_at(ts, p) {
        Err(_) => Ok((acc, p)),
        Ok(t) => if t is Elseif {
            match expression_at(ts, p + 1, 0) {
                Err(e) => Err(e),
                Ok((c, e1)) => match expect_at(ts, e1, TokenStream::Then) {
                    Err(e) => Err(e),
                    Ok(e2) => if moved(ts, p, e2) {
                        match block_from(ts, e2, Seq::empty()) {
                            Err(e) => Err(e),
                            Ok((b, e3)) => if moved(ts, p, e3) {
                                elseifs_from(ts, e3, acc.push(SStmt::If(c, b, Seq::empty())))
                            } else {
                                Err(ParserErrors::Todo)
                            },
                        }
                    } else {
                        Err(ParserErrors::Todo)
                    },
                },
            }
        } else {
            Ok((acc, p))
        },
    }
}

/// The last `elseif` clause given the `else` block.
pub open spec fn with_else(chain: Seq<SStmt>, parsed_else: Seq<SStmt>) -> Seq<SStmt> {
    match chain.last() {
        SStmt::If(c, t, _) => chain.drop_last().push(SStmt::If(c, t, parsed_else)),
        _ => chain,
    }
}

/// `if cond then block {elseif cond then block} [else block] end`, from the `if` at `p`.
/// The `elseif` clauses become the `else` block, side by side.
pub open spec fn if_at(ts: Seq<TokenStream>, p: int) -> PRes<SStmt>
    decreases ts.len() - p, 7int,
{
    if !(0 <= p < ts.len()) {
        Err(ParserErrors::CurrentNull)
    } else {
        match expression_at(ts, p + 1, 0) {
            Err(e) => Err(e),
            Ok((cond, e1)) => match expect_at(ts, e1, TokenStream::Then) {
                Err(e) => Err(e),
                Ok(e2) => if moved(ts, p, e2) {
                    match block_from(ts, e2, Seq::empty()) {
                        Err(e) => Err(e),
                        Ok((then_block, e3)) => if moved(ts, p, e3) {
                            match elseifs_from(ts, e3, Seq::empty()) {
                                Err(e) => Err(e),
                                Ok((chain, e4)) => if moved(ts, p, e4) {
                                    match tok_at(ts, e4) {
                                        Err(e) => Err(e),
                                        Ok(t) => if t is Else {
                                            match block_from(ts, e4 + 1, Seq::empty()) {
                                                Err(e) => Err(e),
                                                Ok((parsed_else, e5)) => {
                                                    let else_block = if chain.len() > 0 {
                                                        with_else(chain, parsed_else)
                                                    } else {
                                                        parsed_else
                                                    };
                                                    match expect_at(ts, e5, TokenStream::End) {
                                                        Err(e) => Err(e),
                                                        Ok(e6) => Ok(
                                                            (
                                                                SStmt::If(
                                                                    cond,
                                                                    then_block,
                                                                    else_block,
                                                                ),
                                                                e6,
                                                            ),
                                                        ),
                                                    }
                                                },
                                            }
                                        } else {
                                            match expect_at(ts, e4, TokenStream::End) {
                                                Err(e) => Err(e),
                                                Ok(e6) => Ok(
                                                    (SStmt::If(cond, then_block, chain), e6),
                                                ),
                                            }
                                        },
                                    }
                                } else {
                                    Err(ParserErrors::Todo)
                                },
                            }
                        } else {
                            Err(ParserErrors::Todo)
                        },
                    }
                } else {
                    Err(ParserErrors::Todo)
                },
            },
        }
    }
}

/// An expression whose binary operators bind tighter than `min`.
pub open spec fn expression_at(ts: Seq<TokenStream>, p: int, min: i32) -> PRes<SExpr>
    decreases ts.len() - p, 6int,
{
    match unary_at(ts, p) {
        Err(e) => Err(e),
        Ok((left, e)) => if moved(ts, p, e) {
            operators_from(ts, e, min, left)
        } else {
            Err(ParserErrors::Todo)
        },
    }
}

/// The binary operators that follow `left` at `p` and bind tighter than `min`.
/// `^` and `..` associate to the right.
pub open spec fn operators_from(ts: Seq<TokenStream>, p: int, min: i32, left: SExpr) -> PRes<
    SExpr,
>
    decreases ts.len() - p, 6int,
{
    match tok_at(ts, p) {
        Err(_) => Ok((left, p)),
        Ok(t) => {
            let prec = precedence(t);
            if prec <= min {
                Ok((left, p))
            } else {
                let next = if t is Caret || t is DotDot {
                    (prec - 1) as i32
                } else {
                    prec
                };
                match expression_at(ts, p + 1, next) {
                    Err(e) => Err(e),
                    Ok((right, e)) => if moved(ts, p, e) {
                        operators_from(
                            ts,
                            e,
                            min,
                            SExpr::BinaryOp(Box::new(left), t, Box::new(right)),
                        )
                    } else {
                        Err(ParserErrors::Todo)
                    },
                }
            }
        },
    }
}

/// A unary operator applied to an operand, or a primary expression.
pub open spec fn unary_at(ts: Seq<TokenStream>, p: int) -> PRes<SExpr>
    decreases ts.len() - p, 5int,
{
    match tok_at(ts, p) {
        Err(e) => Err(e),
        Ok(t) => if t is Not || t is Hash || t is Minus {
            match expression_at(ts, p + 1, 7) {
                Err(e) => Err(e),
                Ok((x, e)) => Ok((SExpr::UnaryOp(t, Box::new(x)), e)),
            }
        } else {
            primary_at(ts, p)
        },
    }
}

/// A literal, name, parenthesised expression, table or function, followed by calls,
/// field accesses, indexing and method calls.
pub open spec fn primary_at(ts: Seq<TokenStream>, p: int) -> PRes<SExpr>
    decreases ts.len() - p, 4int,
{
    match tok_at(ts, p) {
        Err(e) => Err(e),
        Ok(t) => {
            let q = p + 1;
            let base: PRes<SExpr> = match t {
                TokenStream::Number(n) => Ok((SExpr::Number(n@), q)),
                TokenStream::String(s) => Ok((SExpr::Str(s@), q)),
                TokenStream::True => Ok((SExpr::Bool(true), q)),
                TokenStream::False => Ok((SExpr::Bool(false), q)),
                TokenStream::Nil => Ok((SExpr::Nil, q)),
                TokenStream::Identifier(id) => Ok((SExpr::Identifier(id@), q)),
                TokenStream::LParen => match expression_at(ts, q, 0) {
                    Err(e) => Err(e),
                    Ok((inner, e)) => match expect_at(ts, e, TokenStream::RParen) {
                        Err(e) => Err(e),
                        Ok(e2) => Ok((inner, e2)),
                    },
                },
                TokenStream::LBrace => match fields_from(ts, q, Seq::empty()) {
                    Err(e) => Err(e),
                    Ok((fields, e)) => match expect_at(ts, e, TokenStream::RBrace) {
                        Err(e) => Err(e),
                        Ok(e2) => Ok((SExpr::Table(fields), e2)),
                    },
                },
                TokenStream::Function => match function_body_at(ts, q) {
                    Err(e) => Err(e),
                    Ok(((params, body), e)) => Ok((SExpr::Function(params, body), e)),
                },
                _ => Err(ParserErrors::UnexpectedToken(t)),
            };
            match base {
                Err(e) => Err(e),
                Ok((b, e)) => if moved(ts, p, e) {
                    postfix_from(ts, e, b)
                } else {
                    Err(ParserErrors::Todo)
                },
            }
        },
    }
}

/// Comma-separated arguments, at least one.
pub open spec fn args_from(ts: Seq<TokenStream>, p: int, acc: Seq<SExpr>) -> PRes<Seq<SExpr>>
    decreases ts.len() - p, 7int,
{
    match expression_at(ts, p, 0) {
        Err(e) => Err(e),
        Ok((a, e1)) => match tok_at(ts, e1) {
            Err(e) => Err(e),
            Ok(t) => if t is Comma {
                if moved(ts, p, e1 + 1) {
                    args_from(ts, e1 + 1, acc.push(a))
                } else {
                    Err(ParserErrors::Todo)
                }
            } else {
                Ok((acc.push(a), e1))
            },
        },
    }
}

/// The arguments of a call from just after its `(` to its `)`, and the position after it.
pub open spec fn call_args_at(ts: Seq<TokenStream>, p: int) -> PRes<Seq<SExpr>>
    decreases ts.len() - p, 8int,
{
    match tok_at(ts, p) {
        Err(e) => Err(e),
        Ok(t) => {
            let a = if t is RParen {
                Ok((Seq::<SExpr>::empty(), p))
            } else {
                args_from(ts, p, Seq::empty())
            };
            match a {
                Err(e) => Err(e),
                Ok((args, e)) => match expect_at(ts, e, TokenStream::RParen) {
                    Err(e) => Err(e),
                    Ok(e2) => Ok((args, e2)),
                },
            }
        },
    }
}

/// The calls, field accesses, indexing and method calls that follow `base` at `p`.
pub open spec fn postfix_from(ts: Seq<TokenStream>, p: int, base: SExpr) -> PRes<SExpr>
    decreases ts.len() - p, 9int,
{
    match tok_at(ts, p) {
        Err(e) => Err(e),
        Ok(t) => {
            let step: PRes<SExpr> = match t {
                TokenStream::LParen => match call_args_at(ts, p + 1) {
                    Err(e) => Err(e),
                    Ok((args, e)) => Ok((SExpr::Call(Box::new(base), args), e)),
                },
                TokenStream::Dot => match tok_at(ts, p + 1) {
                    Err(e) => Err(e),
                    Ok(t2) => match t2 {
                        TokenStream::Identifier(id) => Ok(
                            (SExpr::Index(Box::new(base), Box::new(SExpr::Str(id@))), p + 2),
                        ),
                        _ => Err(ParserErrors::ExpectedIdentifier),
                    },
                },
                TokenStream::LBracket => match expression_at(ts, p + 1, 0) {
                    Err(e) => Err(e),
                    Ok((k, e1)) => match expect_at(ts, e1, TokenStream::RBracket) {
                        Err(e) => Err(e),
                        Ok(e2) => Ok((SExpr::Index(Box::new(base), Box::new(k)), e2)),
                    },
                },
                TokenStream::Colon => match tok_at(ts, p + 1) {
                    Err(e) => Err(e),
                    Ok(t2) => match t2 {
                        TokenStream::Identifier(m) => match expect_at(
                            ts,
                            p + 2,
                            TokenStream::LParen,
                        ) {
                            Err(e) => Err(e),
                            Ok(q) => match call_args_at(ts, q) {
                                Err(e) => Err(e),
                                Ok((args, e)) => Ok(
                                    (SExpr::MethodCall(Box::new(base), m@, args), e),
                                ),
                            },
                        },
                        _ => Err(ParserErrors::ExpectedIdentifier),
                    },
                },
                _ => Ok((base, p)),
            };
            if t is LParen || t is Dot || t is LBracket || t is Colon {
                match step {
                    Err(e) => Err(e),
                    Ok((b, e)) => if moved(ts, p, e) {
                        postfix_from(ts, e, b)
                    } else {
                        Err(ParserErrors::Todo)
                    },
                }
            } else {
                Ok((base, p))
            }
        },
    }
}

/// Table fields up to the closing `}`, each optionally followed by `,` or `;`.
pub open spec fn fields_from(ts: Seq<TokenStream>, p: int, acc: Seq<SField>) -> PRes<Seq<SField>>
    decreases ts.len() - p, 8int,
{
    match tok_at(ts, p) {
        Err(e) => Err(e),
        Ok(t) => if t is RBrace {
            Ok((acc, p))
        } else {
            match field_at(ts, p) {
                Err(e) => Err(e),
                Ok((f, e1)) => match tok_at(ts, e1) {
                    Err(e) => Err(e),
                    Ok(t2) => {
                        let e2 = if t2 is Comma || t2 is Semicolon {
                            e1 + 1
                        } else {
                            e1
                        };
                        if moved(ts, p, e2) {
                            fields_from(ts, e2, acc.push(f))
                        } else {
                            Err(ParserErrors::Todo)
                        }
                    },
                },
            }
        },
    }
}

/// A table field: `[key] = value`, `name = value` or a list item.
pub open spec fn field_at(ts: Seq<TokenStream>, p: int) -> PRes<SField>
    decreases ts.len() - p, 7int,
{
    match tok_at(ts, p) {
        Err(e) => Err(e),
        Ok(t) => match t {
            TokenStream::LBracket => match expression_at(ts, p + 1, 0) {
                Err(e) => Err(e),
                Ok((k, e1)) => match expect_at(ts, e1, TokenStream::RBracket) {
                    Err(e) => Err(e),
                    Ok(e2) => match expect_at(ts, e2, TokenStream::Equal) {
                        Err(e) => Err(e),
                        Ok(e3) => if moved(ts, p, e3) {
                            match expression_at(ts, e3, 0) {
                                Err(e) => Err(e),
                                Ok((v, e4)) => Ok((SField::Dynamic(k, v), e4)),
                            }
                        } else {
                            Err(ParserErrors::Todo)
                        },
                    },
                },
            },
            TokenStream::Identifier(id) => match peek_at(ts, p) {
                Ok(TokenStream::Equal) => match expression_at(ts, p + 2, 0) {
                    Err(e) => Err(e),
                    Ok((v, e)) => Ok((SField::Named(id@, v), e)),
                },
                _ => match expression_at(ts, p, 0) {
                    Err(e) => Err(e),
                    Ok((x, e)) => Ok((SField::List(x), e)),
                },
            },
            _ => match expression_at(ts, p, 0) {
                Err(e) => Err(e),
                Ok((x, e)) => Ok((SField::List(x), e)),
            },
        },
    }
}

/// Whether an expression may stand alone as a statement.
pub open spec fn statement_expression(x: SExpr) -> bool {
    x is Call || x is MethodCall || x is Index || x is Identifier
}

/// An assignment `target = value`, or an expression statement.
pub open spec fn assignment_or_call_at(ts: Seq<TokenStream>, p: int) -> PRes<SStmt>
    decreases ts.len() - p, 7int,
{
    match expression_at(ts, p, 0) {
        Err(e) => Err(e),
        Ok((left, e)) => if !moved(ts, p, e) {
            Err(ParserErrors::Todo)
        } else {
            match tok_at(ts, e) {
                Ok(TokenStream::Equal) => match expression_at(ts, e + 1, 0) {
                    Err(x) => Err(x),
                    Ok((right, f)) => Ok((SStmt::Assign(left, right), f)),
                },
                other => if statement_expression(left) {
                    Ok((SStmt::Expression(left), e))
                } else {
                    Err(
                        ParserErrors::UnexpectedToken(
                            match other {
                                Ok(t) => t,
                                Err(_) => TokenStream::EOF,
                            },
                        ),
                    )
                },
            }
        },
    }
}

} // verus!
