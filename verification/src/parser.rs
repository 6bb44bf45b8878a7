//! The parser: a recursive-descent, precedence-climbing parser over the token list.
use vstd::prelude::*;
use vstd::string::StringExecFns;

use crate::ast::{
    expr_model, exprs_model, fields_model, names_model, stmt_model, stmts_model, Expr, SExpr,
    SStmt, Statement, TableField,
};
use crate::lexer::{lex_from, lexemes, Lexer};
use crate::parser_spec::{
    args_from, assignment_or_call_at, block_from, call_args_at, elseifs_from, ends_return,
    expect_at, expression_at, field_at, fields_from, function_body_at, function_def_at, if_at,
    local_var_at, local_var_func_at, moved, operators_from, params_from, peek_at, postfix_from,
    precedence, primary_at, program_from, return_at, statement_at, statement_expression, tok_at,
    unary_at, while_at, with_else, PRes, ParserErrors,
};
use crate::token::TokenStream;

verus! {

#[derive(Debug, PartialEq)]
pub struct Program {
    pub stmts: Vec<Statement>,
}

#[derive(Debug, PartialEq)]
pub struct Parser {
    tokens: Vec<TokenStream>,
    position: usize,
}

/// Whether a parse result agrees with the grammar's result: the same error, or a value
/// whose model is the grammar's and a parser stopped where the grammar stops.
pub open spec fn agrees<T, M>(
    r: Result<T, ParserErrors>,
    s: PRes<M>,
    model: spec_fn(T) -> M,
    end: int,
) -> bool {
    match r {
        Ok(x) => s matches Ok((m, e)) && model(x) == m && end == e,
        Err(err) => s == Err::<(M, int), ParserErrors>(err),
    }
}

pub proof fn lemma_stmts_push(s: Seq<Statement>, x: Statement)
    ensures
        stmts_model(s.push(x)) == stmts_model(s).push(stmt_model(x)),
{
    assert(s.push(x).drop_last() =~= s);
}

pub proof fn lemma_exprs_push(s: Seq<Expr>, x: Expr)
    ensures
        exprs_model(s.push(x)) == exprs_model(s).push(expr_model(x)),
{
    assert(s.push(x).drop_last() =~= s);
}

pub proof fn lemma_fields_push(s: Seq<TableField>, x: TableField)
    ensures
        fields_model(s.push(x)) == fields_model(s).push(crate::ast::field_model(x)),
{
    assert(s.push(x).drop_last() =~= s);
}

pub proof fn lemma_names_push(s: Seq<String>, x: String)
    ensures
        names_model(s.push(x)) == names_model(s).push(x@),
{
    assert(names_model(s.push(x)) =~= names_model(s).push(x@));
}

/// The binding power of a binary operator, 0 for any other token.
fn get_precedence(token: &TokenStream) -> (p: i32)
    ensures
        p == precedence(*token),
{
    match token {
        TokenStream::Or => 1,
        TokenStream::And => 2,
        TokenStream::EqualEqual | TokenStream::NotEqual | TokenStream::Less | TokenStream::LessEqual
        | TokenStream::Greater | TokenStream::GreaterEqual => 3,
        TokenStream::DotDot => 4,
        TokenStream::Plus | TokenStream::Minus => 5,
        TokenStream::Asterisk | TokenStream::Slash | TokenStream::Percent => 6,
        TokenStream::Caret => 8,
        _ => 0,
    }
}

impl Parser {
    #[verifier::type_invariant]
    spec fn within(self) -> bool {
        self.position <= self.tokens.len()
    }

    /// The tokens being parsed.
    pub closed spec fn toks(self) -> Seq<TokenStream> {
        self.tokens@
    }

    /// The position of the next token to read.
    pub closed spec fn at(self) -> int {
        self.position as int
    }

    /// A parser over all the tokens of the lexer's remaining input.
    pub fn new(lex: Lexer) -> (p: Self)
        ensures
            lexemes(p.toks()) == lex_from(lex.input(), lex.pos()).0,
            p.at() == 0,
    {
        let mut lex = lex;
        Parser { tokens: lex.lex_all(), position: 0 }
    }

    /// A parser over the given tokens.
    pub fn from_tokens(tokens: Vec<TokenStream>) -> (p: Self)
        ensures
            p.toks() == tokens@,
            p.at() == 0,
    {
        Parser { tokens, position: 0 }
    }

    fn current(&self) -> (r: Result<TokenStream, ParserErrors>)
        ensures
            !(r matches Err(ParserErrors::Todo)),
            r == tok_at(self.toks(), self.at()),
    {
        if self.position < self.tokens.len() {
            Ok(self.tokens[self.position].clone())
        } else {
            Err(ParserErrors::CurrentNull)
        }
    }

    fn peek(&self) -> (r: Result<TokenStream, ParserErrors>)
        ensures
            !(r matches Err(ParserErrors::Todo)),
            r == peek_at(self.toks(), self.at()),
    {
        proof {
            use_type_invariant(self);
        }
        if self.position < self.tokens.len() && self.position + 1 < self.tokens.len() {
            Ok(self.tokens[self.position + 1].clone())
        } else {
            Err(ParserErrors::PeekNull)
        }
    }

    fn advance(&mut self)
        requires
            old(self).at() < old(self).toks().len(),
        ensures
            final(self).toks() == old(self).toks(),
            final(self).at() == old(self).at() + 1,
    {
        if self.position < self.tokens.len() {
            self.position = self.position + 1;
        }
    }

    fn expect(&mut self, expected: TokenStream) -> (r: Result<(), ParserErrors>)
        ensures
            !(r matches Err(ParserErrors::Todo)),
            final(self).toks() == old(self).toks(),
            match expect_at(old(self).toks(), old(self).at(), expected) {
                Ok(q) => r is Ok && final(self).at() == q,
                Err(e) => r == Err::<(), ParserErrors>(e),
            },
    {
        let current = self.current()?;
        if current.same_token(&expected) {
            self.advance();
            Ok(())
        } else {
            Err(ParserErrors::UnexpectedToken(current))
        }
    }
}

impl Parser {
    /// Parses statements up to the end of input.
    #[verifier::loop_isolation(false)]
    pub fn parse_program(&mut self) -> (r: Result<Program, ParserErrors>)
        ensures
            !(r matches Err(ParserErrors::Todo)),
            final(self).toks() == old(self).toks(),
            agrees(
                r,
                program_from(old(self).toks(), old(self).at(), Seq::empty()),
                |p: Program| stmts_model(p.stmts@),
                final(self).at(),
            ),
    {
        let mut stmts: Vec<Statement> = Vec::new();
        let ghost ts = self.toks();
        let ghost start = self.at();
        proof {
            use_type_invariant(&*self);
        }
        loop
            invariant
                self.toks() == ts,
                ts == old(self).toks(),
                start == old(self).at(),
                start <= self.at() <= ts.len(),
                program_from(ts, self.at(), stmts_model(stmts@)) == program_from(
                    ts,
                    start,
                    Seq::empty(),
                ),
            decreases ts.len() - self.at(),
        {
            proof {
                use_type_invariant(&*self);
            }
            let token = match self.current() {
                Ok(t) => t,
                Err(_) => {
                    return Ok(Program { stmts });
                },
            };
            if matches!(token, TokenStream::EOF) {
                return Ok(Program { stmts });
            }
            let stmt = self.parse_statement()?;
            proof {
                lemma_stmts_push(stmts@, stmt);
            }
            stmts.push(stmt);
        }
    }

    fn parse_statement(&mut self) -> (r: Result<Statement, ParserErrors>)
        ensures
            !(r matches Err(ParserErrors::Todo)),
            final(self).toks() == old(self).toks(),
            agrees(
                r,
                statement_at(old(self).toks(), old(self).at()),
                |s: Statement| stmt_model(s),
                final(self).at(),
            ),
            r is Ok ==> moved(old(self).toks(), old(self).at(), final(self).at()),
        decreases old(self).toks().len() - old(self).at(), 8int,
    {
        proof {
            use_type_invariant(&*self);
        }
        let token = self.current()?;
        match token {
            TokenStream::Local => self.parse_local_var_func(),
            TokenStream::If => self.parse_if_statement(),
            TokenStream::Identifier(_) | TokenStream::LParen => self.parse_assignment_or_call(),
            TokenStream::Function => self.parse_function_def(),
            TokenStream::Return => self.parse_return(),
            TokenStream::While => self.parse_while(),
            TokenStream::Break => {
                self.advance();
                Ok(Statement::Break)
            },
            _ => self.parse_assignment_or_call(),
        }
    }

    fn parse_while(&mut self) -> (r: Result<Statement, ParserErrors>)
        requires
            old(self).at() < old(self).toks().len(),
        ensures
            !(r matches Err(ParserErrors::Todo)),
            final(self).toks() == old(self).toks(),
            agrees(
                r,
                while_at(old(self).toks(), old(self).at()),
                |s: Statement| stmt_model(s),
                final(self).at(),
            ),
            r is Ok ==> moved(old(self).toks(), old(self).at(), final(self).at()),
        decreases old(self).toks().len() - old(self).at(), 7int,
    {
        self.advance();
        let condition = self.parse_expression(0)?;
        self.expect(TokenStream::Do)?;
        let body = self.parse_block()?;
        proof {
            use_type_invariant(&*self);
        }
        self.expect(TokenStream::End)?;
        Ok(Statement::While(condition, body))
    }

    fn parse_return(&mut self) -> (r: Result<Statement, ParserErrors>)
        requires
            old(self).at() < old(self).toks().len(),
        ensures
            !(r matches Err(ParserErrors::Todo)),
            final(self).toks() == old(self).toks(),
            agrees(
                r,
                return_at(old(self).toks(), old(self).at()),
                |s: Statement| stmt_model(s),
                final(self).at(),
            ),
            r is Ok ==> moved(old(self).toks(), old(self).at(), final(self).at()),
        decreases old(self).toks().len() - old(self).at(), 7int,
    {
        self.advance();
        let token = self.current()?;
        if matches!(token, TokenStream::End) || matches!(token, TokenStream::Else) || matches!(
            token,
            TokenStream::Elseif
        ) || matches!(token, TokenStream::EOF) || matches!(token, TokenStream::Semicolon) {
            return Ok(Statement::Return(None));
        }
        let expr = self.parse_expression(0)?;
        Ok(Statement::Return(Some(expr)))
    }

    fn parse_function_def(&mut self) -> (r: Result<Statement, ParserErrors>)
        requires
            old(self).at() < old(self).toks().len(),
        ensures
            !(r matches Err(ParserErrors::Todo)),
            final(self).toks() == old(self).toks(),
            agrees(
                r,
                function_def_at(old(self).toks(), old(self).at()),
                |s: Statement| stmt_model(s),
                final(self).at(),
            ),
            r is Ok ==> moved(old(self).toks(), old(self).at(), final(self).at()),
        decreases old(self).toks().len() - old(self).at(), 7int,
    {
        self.advance();
        let name = match self.current()? {
            TokenStream::Identifier(id) => {
                self.advance();
                id
            },
            _ => return Err(ParserErrors::ExpectedIdentifier),
        };
        if matches!(self.current()?, TokenStream::Colon) {
            self.advance();
            let method = match self.current()? {
                TokenStream::Identifier(id) => {
                    self.advance();
                    id
                },
                _ => return Err(ParserErrors::ExpectedIdentifier),
            };
            let (mut params, body) = self.parse_function_body()?;
            let ghost old_params = params@;
            assert(expr_model(Expr::Identifier(name)) == SExpr::Identifier(name@));
            assert(expr_model(Expr::String(method)) == SExpr::Str(method@));
            params.insert(0, String::from_str("self"));
            assert(names_model(params@) =~= seq!["self"@] + names_model(old_params));
            return Ok(
                Statement::Assign(
                    Expr::Index {
                        target: Box::new(Expr::Identifier(name)),
                        key: Box::new(Expr::String(method)),
                    },
                    Expr::Function { params, body },
                ),
            );
        }
        let (params, body) = self.parse_function_body()?;
        Ok(Statement::FunctionDef { name, params, body })
    }

    #[verifier::loop_isolation(false)]
    fn parse_function_body(&mut self) -> (r: Result<(Vec<String>, Vec<Statement>), ParserErrors>)
        ensures
            !(r matches Err(ParserErrors::Todo)),
            final(self).toks() == old(self).toks(),
            agrees(
                r,
                function_body_at(old(self).toks(), old(self).at()),
                |pb: (Vec<String>, Vec<Statement>)| (names_model(pb.0@), stmts_model(pb.1@)),
                final(self).at(),
            ),
            r is Ok ==> moved(old(self).toks(), old(self).at(), final(self).at()),
        decreases old(self).toks().len() - old(self).at(), 7int,
    {
        let ghost ts = self.toks();
        let ghost p0 = self.at();
        self.expect(TokenStream::LParen)?;
        let ghost q = self.at();
        let mut params: Vec<String> = Vec::new();
        assert(names_model(params@) =~= Seq::<Seq<char>>::empty());
        if !matches!(self.current()?, TokenStream::RParen) {
            loop
                invariant
                    self.toks() == ts,
                    ts == old(self).toks(),
                    p0 == old(self).at(),
                    q <= self.at() <= ts.len(),
                    p0 < q,
                    params_from(ts, self.at(), names_model(params@)) == params_from(
                        ts,
                        q,
                        Seq::empty(),
                    ),
                decreases ts.len() - self.at(),
            {
                proof {
                    use_type_invariant(&*self);
                }
                if let TokenStream::Identifier(id) = self.current()? {
                    proof {
                        lemma_names_push(params@, id);
                    }
                    params.push(id);
                    self.advance();
                } else {
                    return Err(ParserErrors::ExpectedIdentifier);
                }
                if matches!(self.current()?, TokenStream::Comma) {
                    self.advance();
                } else {
                    break ;
                }
            }
        }
        self.expect(TokenStream::RParen)?;
        let body = self.parse_block()?;
        proof {
            use_type_invariant(&*self);
        }
        self.expect(TokenStream::End)?;
        Ok((params, body))
    }

    fn parse_local_var(&mut self) -> (r: Result<Statement, ParserErrors>)
        ensures
            !(r matches Err(ParserErrors::Todo)),
            final(self).toks() == old(self).toks(),
            agrees(
                r,
                local_var_at(old(self).toks(), old(self).at()),
                |s: Statement| stmt_model(s),
                final(self).at(),
            ),
            r is Ok ==> moved(old(self).toks(), old(self).at(), final(self).at()),
        decreases old(self).toks().len() - old(self).at(), 7int,
    {
        let name = match self.current()? {
            TokenStream::Identifier(id) => {
                self.advance();
                id
            },
            _ => return Err(ParserErrors::ExpectedIdentifier),
        };
        self.expect(TokenStream::Equal)?;
        let value = self.parse_expression(0)?;
        Ok(Statement::LocalVar(name, value))
    }

    #[verifier::loop_isolation(false)]
    fn parse_if_statement(&mut self) -> (r: Result<Statement, ParserErrors>)
        requires
            old(self).at() < old(self).toks().len(),
        ensures
            !(r matches Err(ParserErrors::Todo)),
            final(self).toks() == old(self).toks(),
            agrees(
                r,
                if_at(old(self).toks(), old(self).at()),
                |s: Statement| stmt_model(s),
                final(self).at(),
            ),
            r is Ok ==> moved(old(self).toks(), old(self).at(), final(self).at()),
        decreases old(self).toks().len() - old(self).at(), 7int,
    {
        let ghost ts = self.toks();
        let ghost p0 = self.at();
        self.advance();
        let condition = self.parse_expression(0)?;
        self.expect(TokenStream::Then)?;
        let then_block = self.parse_block()?;
        let ghost e3 = self.at();
        let mut elseif_chain: Vec<Statement> = Vec::new();
        loop
            invariant
                self.toks() == ts,
                ts == old(self).toks(),
                p0 == old(self).at(),
                p0 < e3 <= self.at() <= ts.len(),
                elseifs_from(ts, self.at(), stmts_model(elseif_chain@)) == elseifs_from(
                    ts,
                    e3,
                    Seq::empty(),
                ),
            decreases ts.len() - self.at(),
        {
            proof {
                use_type_invariant(&*self);
            }
            match self.current() {
                Ok(token) => {
                    if matches!(token, TokenStream::Elseif) {
                        self.advance();
                        let elseif_cond = self.parse_expression(0)?;
                        self.expect(TokenStream::Then)?;
                        let elseif_then = self.parse_block()?;
                        let no_else: Vec<Statement> = Vec::new();
                        assert(stmts_model(no_else@) =~= Seq::<SStmt>::empty());
                        let elseif_stmt = Statement::If {
                            condition: elseif_cond,
                            then_block: elseif_then,
                            else_block: no_else,
                        };
                        proof {
                            lemma_stmts_push(elseif_chain@, elseif_stmt);
                        }
                        elseif_chain.push(elseif_stmt);
                        continue ;
                    }
                    break ;
                },
                Err(_) => break ,
            }
        }
        let ghost e4 = self.at();
        let ghost chain_m = stmts_model(elseif_chain@);
        assert(elseifs_from(ts, e3, Seq::empty()) == Ok::<(Seq<SStmt>, int), ParserErrors>(
            (chain_m, e4),
        ));
        let mut else_block: Vec<Statement> = Vec::new();
        assert(stmts_model(else_block@) =~= Seq::<SStmt>::empty());
        if matches!(self.current()?, TokenStream::Else) {
            self.advance();
            let parsed_else = self.parse_block()?;
            let ghost pe = stmts_model(parsed_else@);
            if !elseif_chain.is_empty() {
                let ghost chain = elseif_chain@;
                let mut last = elseif_chain.pop().unwrap();
                assert(chain.drop_last() == elseif_chain@);
                assert(chain_m.last() == stmt_model(last));
                assert(chain_m.drop_last() == stmts_model(elseif_chain@));
                if let Statement::If { condition, then_block, .. } = last {
                    last = Statement::If { condition, then_block, else_block: parsed_else };
                    assert(with_else(chain_m, pe) == stmts_model(elseif_chain@).push(stmt_model(last)));
                } else {
                    assert(with_else(chain_m, pe) == chain_m);
                    assert(chain =~= elseif_chain@.push(last));
                }
                proof {
                    lemma_stmts_push(elseif_chain@, last);
                }
                elseif_chain.push(last);
                assert(stmts_model(elseif_chain@) == with_else(chain_m, pe));
            } else {
                else_block = parsed_else;
            }
        }
        if !elseif_chain.is_empty() {
            else_block = elseif_chain;
        }
        self.expect(TokenStream::End)?;
        Ok(Statement::If { condition, then_block, else_block })
    }

    #[verifier::loop_isolation(false)]
    fn parse_block(&mut self) -> (r: Result<Vec<Statement>, ParserErrors>)
        ensures
            !(r matches Err(ParserErrors::Todo)),
            final(self).toks() == old(self).toks(),
            agrees(
                r,
                block_from(old(self).toks(), old(self).at(), Seq::empty()),
                |v: Vec<Statement>| stmts_model(v@),
                final(self).at(),
            ),
            r is Ok ==> old(self).at() <= final(self).at() <= old(self).toks().len(),
        decreases old(self).toks().len() - old(self).at(), 9int,
    {
        let mut stmts: Vec<Statement> = Vec::new();
        let ghost ts = self.toks();
        let ghost start = self.at();
        proof {
            use_type_invariant(&*self);
        }
        loop
            invariant
                self.toks() == ts,
                ts == old(self).toks(),
                start == old(self).at(),
                start <= self.at() <= ts.len(),
                block_from(ts, self.at(), stmts_model(stmts@)) == block_from(
                    ts,
                    start,
                    Seq::empty(),
                ),
            decreases ts.len() - self.at(),
        {
            proof {
                use_type_invariant(&*self);
            }
            let token = match self.current() {
                Ok(t) => t,
                Err(_) => {
                    return Ok(stmts);
                },
            };
            if matches!(token, TokenStream::End) || matches!(token, TokenStream::Else) || matches!(
                token,
                TokenStream::EOF
            ) || matches!(token, TokenStream::Elseif) {
                return Ok(stmts);
            }
            let stmt = self.parse_statement()?;
            proof {
                lemma_stmts_push(stmts@, stmt);
            }
            stmts.push(stmt);
        }
    }

    /// Parses an expression whose binary operators bind tighter than `min_preced`.
    #[verifier::loop_isolation(false)]
    pub fn parse_expression(&mut self, min_preced: i32) -> (r: Result<Expr, ParserErrors>)
        ensures
            !(r matches Err(ParserErrors::Todo)),
            final(self).toks() == old(self).toks(),
            agrees(
                r,
                expression_at(old(self).toks(), old(self).at(), min_preced),
                |x: Expr| expr_model(x),
                final(self).at(),
            ),
            r is Ok ==> moved(old(self).toks(), old(self).at(), final(self).at()),
        decreases old(self).toks().len() - old(self).at(), 6int,
    {
        let ghost ts = self.toks();
        let ghost p0 = self.at();
        let mut left = self.parse_unary()?;
        loop
            invariant
                self.toks() == ts,
                ts == old(self).toks(),
                p0 == old(self).at(),
                p0 < self.at() <= ts.len(),
                expression_at(ts, p0, min_preced) == operators_from(
                    ts,
                    self.at(),
                    min_preced,
                    expr_model(left),
                ),
            decreases ts.len() - self.at(),
        {
            proof {
                use_type_invariant(&*self);
            }
            let current_token = match self.current() {
                Ok(t) => t,
                Err(_) => return Ok(left),
            };
            let preced = get_precedence(&current_token);
            if preced <= min_preced {
                return Ok(left);
            }
            self.advance();
            let next_min_preced = if matches!(current_token, TokenStream::Caret) || matches!(
                current_token,
                TokenStream::DotDot
            ) {
                preced - 1
            } else {
                preced
            };
            let right = self.parse_expression(next_min_preced)?;
            left =
            Expr::BinaryOp {
                left: Box::new(left),
                operator: current_token,
                right: Box::new(right),
            };
        }
    }

    fn parse_unary(&mut self) -> (r: Result<Expr, ParserErrors>)
        ensures
            !(r matches Err(ParserErrors::Todo)),
            final(self).toks() == old(self).toks(),
            agrees(
                r,
                unary_at(old(self).toks(), old(self).at()),
                |x: Expr| expr_model(x),
                final(self).at(),
            ),
            r is Ok ==> moved(old(self).toks(), old(self).at(), final(self).at()),
        decreases old(self).toks().len() - old(self).at(), 5int,
    {
        let token = self.current()?;
        if matches!(token, TokenStream::Not) || matches!(token, TokenStream::Hash) || matches!(
            token,
            TokenStream::Minus
        ) {
            self.advance();
            let operand = self.parse_expression(7)?;
            Ok(Expr::UnaryOp { operator: token, argument: Box::new(operand) })
        } else {
            self.parse_primary()
        }
    }

    /// The arguments of a call, from just after its `(` through its `)`.
    #[verifier::loop_isolation(false)]
    fn parse_call_args(&mut self) -> (r: Result<Vec<Expr>, ParserErrors>)
        ensures
            !(r matches Err(ParserErrors::Todo)),
            final(self).toks() == old(self).toks(),
            agrees(
                r,
                call_args_at(old(self).toks(), old(self).at()),
                |v: Vec<Expr>| exprs_model(v@),
                final(self).at(),
            ),
            r is Ok ==> moved(old(self).toks(), old(self).at(), final(self).at()),
        decreases old(self).toks().len() - old(self).at(), 8int,
    {
        let ghost ts = self.toks();
        let ghost q = self.at();
        let mut args: Vec<Expr> = Vec::new();
        assert(exprs_model(args@) =~= Seq::<SExpr>::empty());
        if !matches!(self.current()?, TokenStream::RParen) {
            loop
                invariant
                    self.toks() == ts,
                    ts == old(self).toks(),
                    q == old(self).at(),
                    q <= self.at() <= ts.len(),
                    args_from(ts, self.at(), exprs_model(args@)) == args_from(
                        ts,
                        q,
                        Seq::empty(),
                    ),
                decreases ts.len() - self.at(),
            {
                proof {
                    use_type_invariant(&*self);
                }
                let a = self.parse_expression(0)?;
                proof {
                    lemma_exprs_push(args@, a);
                }
                args.push(a);
                if matches!(self.current()?, TokenStream::Comma) {
                    self.advance();
                } else {
                    break ;
                }
            }
        }
        self.expect(TokenStream::RParen)?;
        Ok(args)
    }

    /// The fields of a table constructor, from just after its `{` up to its `}`.
    #[verifier::loop_isolation(false)]
    fn parse_fields(&mut self) -> (r: Result<Vec<TableField>, ParserErrors>)
        ensures
            !(r matches Err(ParserErrors::Todo)),
            final(self).toks() == old(self).toks(),
            agrees(
                r,
                fields_from(old(self).toks(), old(self).at(), Seq::empty()),
                |v: Vec<TableField>| fields_model(v@),
                final(self).at(),
            ),
            r is Ok ==> old(self).at() <= final(self).at() <= old(self).toks().len(),
        decreases old(self).toks().len() - old(self).at(), 8int,
    {
        let ghost ts = self.toks();
        let ghost q = self.at();
        proof {
            use_type_invariant(&*self);
        }
        let mut fields: Vec<TableField> = Vec::new();
        assert(fields_model(fields@) =~= Seq::<crate::ast::SField>::empty());
        loop
            invariant
                self.toks() == ts,
                ts == old(self).toks(),
                q == old(self).at(),
                q <= self.at() <= ts.len(),
                fields_from(ts, self.at(), fields_model(fields@)) == fields_from(
                    ts,
                    q,
                    Seq::empty(),
                ),
            decreases ts.len() - self.at(),
        {
            proof {
                use_type_invariant(&*self);
            }
            if matches!(self.current()?, TokenStream::RBrace) {
                return Ok(fields);
            }
            let field = self.parse_table_field()?;
            proof {
                lemma_fields_push(fields@, field);
            }
            fields.push(field);
            let next = self.current()?;
            if matches!(next, TokenStream::Comma) || matches!(next, TokenStream::Semicolon) {
                self.advance();
            }
        }
    }

    /// The calls, field accesses, indexing and method calls that follow `expr`.
    #[verifier::loop_isolation(false)]
    fn parse_postfix(&mut self, expr: Expr) -> (r: Result<Expr, ParserErrors>)
        ensures
            !(r matches Err(ParserErrors::Todo)),
            final(self).toks() == old(self).toks(),
            agrees(
                r,
                postfix_from(old(self).toks(), old(self).at(), expr_model(expr)),
                |x: Expr| expr_model(x),
                final(self).at(),
            ),
            r is Ok ==> old(self).at() <= final(self).at() <= old(self).toks().len(),
        decreases old(self).toks().len() - old(self).at(), 9int,
    {
        let ghost ts = self.toks();
        let ghost p0 = self.at();
        let ghost start_m = expr_model(expr);
        let mut expr = expr;
        proof {
            use_type_invariant(&*self);
        }
        loop
            invariant
                self.toks() == ts,
                ts == old(self).toks(),
                p0 == old(self).at(),
                p0 <= self.at() <= ts.len(),
                postfix_from(ts, p0, start_m) == postfix_from(ts, self.at(), expr_model(expr)),
            decreases ts.len() - self.at(),
        {
            proof {
                use_type_invariant(&*self);
            }
            match self.current()? {
                TokenStream::LParen => {
                    self.advance();
                    let args = self.parse_call_args()?;
                    expr = Expr::Call { target: Box::new(expr), args };
                },
                TokenStream::Dot => {
                    self.advance();
                    let field = match self.current()? {
                        TokenStream::Identifier(id) => id,
                        _ => return Err(ParserErrors::ExpectedIdentifier),
                    };
                    self.advance();
                    assert(expr_model(Expr::String(field)) == SExpr::Str(field@));
                    expr = Expr::Index { target: Box::new(expr), key: Box::new(Expr::String(field)) };
                },
                TokenStream::LBracket => {
                    self.advance();
                    let key_expr = self.parse_expression(0)?;
                    self.expect(TokenStream::RBracket)?;
                    expr = Expr::Index { target: Box::new(expr), key: Box::new(key_expr) };
                },
                TokenStream::Colon => {
                    self.advance();
                    let method = match self.current()? {
                        TokenStream::Identifier(id) => id,
                        _ => return Err(ParserErrors::ExpectedIdentifier),
                    };
                    self.advance();
                    self.expect(TokenStream::LParen)?;
                    let args = self.parse_call_args()?;
                    expr = Expr::MethodCall { target: Box::new(expr), method, args };
                },
                _ => return Ok(expr),
            }
        }
    }

    fn parse_primary(&mut self) -> (r: Result<Expr, ParserErrors>)
        ensures
            !(r matches Err(ParserErrors::Todo)),
            final(self).toks() == old(self).toks(),
            agrees(
                r,
                primary_at(old(self).toks(), old(self).at()),
                |x: Expr| expr_model(x),
                final(self).at(),
            ),
            r is Ok ==> moved(old(self).toks(), old(self).at(), final(self).at()),
        decreases old(self).toks().len() - old(self).at(), 4int,
    {
        let token = self.current()?;
        self.advance();
        let expr = match token {
            TokenStream::Number(n) => Expr::Number(n),
            TokenStream::String(s) => Expr::String(s),
            TokenStream::True => Expr::Bool(true),
            TokenStream::False => Expr::Bool(false),
            TokenStream::Nil => Expr::Nil,
            TokenStream::Identifier(id) => Expr::Identifier(id),
            TokenStream::LParen => {
                let inner_expr = self.parse_expression(0)?;
                self.expect(TokenStream::RParen)?;
                inner_expr
            },
            TokenStream::LBrace => {
                let fields = self.parse_fields()?;
                self.expect(TokenStream::RBrace)?;
                Expr::TableConstructor(fields)
            },
            TokenStream::Function => {
                let (params, body) = self.parse_function_body()?;
                Expr::Function { params, body }
            },
            _ => return Err(ParserErrors::UnexpectedToken(token)),
        };
        self.parse_postfix(expr)
    }

    fn parse_local_var_func(&mut self) -> (r: Result<Statement, ParserErrors>)
        requires
            old(self).at() < old(self).toks().len(),
        ensures
            !(r matches Err(ParserErrors::Todo)),
            final(self).toks() == old(self).toks(),
            agrees(
                r,
                local_var_func_at(old(self).toks(), old(self).at()),
                |s: Statement| stmt_model(s),
                final(self).at(),
            ),
            r is Ok ==> moved(old(self).toks(), old(self).at(), final(self).at()),
        decreases old(self).toks().len() - old(self).at(), 7int,
    {
        self.advance();
        if matches!(self.current()?, TokenStream::Function) {
            self.advance();
            let name = match self.current()? {
                TokenStream::Identifier(id) => {
                    self.advance();
                    id
                },
                _ => return Err(ParserErrors::ExpectedIdentifier),
            };
            let (params, body) = self.parse_function_body()?;
            Ok(Statement::FunctionDef { name, params, body })
        } else {
            self.parse_local_var()
        }
    }

    fn parse_assignment_or_call(&mut self) -> (r: Result<Statement, ParserErrors>)
        ensures
            !(r matches Err(ParserErrors::Todo)),
            final(self).toks() == old(self).toks(),
            agrees(
                r,
                assignment_or_call_at(old(self).toks(), old(self).at()),
                |s: Statement| stmt_model(s),
                final(self).at(),
            ),
            r is Ok ==> moved(old(self).toks(), old(self).at(), final(self).at()),
        decreases old(self).toks().len() - old(self).at(), 7int,
    {
        let left = self.parse_expression(0)?;
        match self.current() {
            Ok(TokenStream::Equal) => {
                self.advance();
                let right = self.parse_expression(0)?;
                Ok(Statement::Assign(left, right))
            },
            other => match left {
                Expr::Call { .. } | Expr::MethodCall { .. } | Expr::Index { .. }
                | Expr::Identifier(_) => Ok(Statement::Expression(left)),
                _ => Err(
                    ParserErrors::UnexpectedToken(
                        match other {
                            Ok(t) => t,
                            Err(_) => TokenStream::EOF,
                        },
                    ),
                ),
            },
        }
    }

    fn parse_table_field(&mut self) -> (r: Result<TableField, ParserErrors>)
        ensures
            !(r matches Err(ParserErrors::Todo)),
            final(self).toks() == old(self).toks(),
            agrees(
                r,
                field_at(old(self).toks(), old(self).at()),
                |f: TableField| crate::ast::field_model(f),
                final(self).at(),
            ),
            r is Ok ==> moved(old(self).toks(), old(self).at(), final(self).at()),
        decreases old(self).toks().len() - old(self).at(), 7int,
    {
        match self.current()? {
            TokenStream::LBracket => {
                self.advance();
                let key_expr = self.parse_expression(0)?;
                self.expect(TokenStream::RBracket)?;
                self.expect(TokenStream::Equal)?;
                let value_expr = self.parse_expression(0)?;
                Ok(TableField::Dynamic { key: key_expr, value: value_expr })
            },
            TokenStream::Identifier(id) => {
                if let Ok(TokenStream::Equal) = self.peek() {
                    self.advance();
                    self.advance();
                    let value_expr = self.parse_expression(0)?;
                    Ok(TableField::Named { key: id, value: value_expr })
                } else {
                    let expr = self.parse_expression(0)?;
                    Ok(TableField::List(expr))
                }
            },
            _ => {
                let expr = self.parse_expression(0)?;
                Ok(TableField::List(expr))
            },
        }
    }
}

} // verus!
