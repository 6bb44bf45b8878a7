//! The syntax tree that the parser builds, and its mathematical model.
use vstd::prelude::*;
use vstd::string::StringExecFns;

use crate::debug_text::{
    has_number, invalid_operation_message, operation_message, token_debug, token_text,
    value_debug, value_text,
};
use crate::token::TokenStream;
use crate::values::Value;

verus! {

#[derive(Debug, PartialEq)]
pub enum Expr {
    /// A numeral, as the text the lexer read.
    Number(String),
    String(String),
    Bool(bool),
    Nil,
    Identifier(String),
    BinaryOp { left: Box<Expr>, operator: TokenStream, right: Box<Expr> },
    UnaryOp { operator: TokenStream, argument: Box<Expr> },
    Call { target: Box<Expr>, args: Vec<Expr> },
    Index { target: Box<Expr>, key: Box<Expr> },
    Function { params: Vec<String>, body: Vec<Statement> },
    LogicalOp { operator: TokenStream, argument: Box<Expr> },
    MethodCall { target: Box<Expr>, method: String, args: Vec<Expr> },
    VarArgs,
    Grouping(Box<Expr>),
    TableConstructor(Vec<TableField>),
}

#[derive(Debug, PartialEq)]
pub enum Statement {
    LocalVar(String, Expr),
    Assign(Expr, Expr),
    If { condition: Expr, then_block: Vec<Statement>, else_block: Vec<Statement> },
    FunctionDef { name: String, params: Vec<String>, body: Vec<Statement> },
    While(Expr, Vec<Statement>),
    Break,
    Return(Option<Expr>),
    Expression(Expr),
    ForNumeric { counter: String, start: Expr, stop: Expr, step: Option<Expr> },
    ForGeneric { vars: Vec<String>, iterators: Vec<Expr>, body: Vec<Statement> },
    Do,
}

#[derive(Debug, PartialEq)]
pub enum TableField {
    Dynamic { key: Expr, value: Expr },
    Named { key: String, value: Expr },
    List(Expr),
}

#[derive(Clone, Debug)]
pub enum RuntimeError {
    AlreadyDeclared(String),
    AssignToConst(String),
    UndefinedVariable(String),
    InvalidOperation(String),
    Todo,
    InvalidBreak,
    InvalidContinue,
    NotCallable,
    InvalidAssignmentTarget,
    InvalidUnaryTarget,
    InvalidValue,
    Return(Value),
    Break,
}

// ---------------------------------------------------------------------------
// The model of the syntax tree: sequences in place of vectors, and the
// characters of each string.
// ---------------------------------------------------------------------------

pub enum SExpr {
    Number(Seq<char>),
    Str(Seq<char>),
    Bool(bool),
    Nil,
    Identifier(Seq<char>),
    BinaryOp(Box<SExpr>, TokenStream, Box<SExpr>),
    UnaryOp(TokenStream, Box<SExpr>),
    Call(Box<SExpr>, Seq<SExpr>),
    Index(Box<SExpr>, Box<SExpr>),
    Function(Seq<Seq<char>>, Seq<SStmt>),
    LogicalOp(TokenStream, Box<SExpr>),
    MethodCall(Box<SExpr>, Seq<char>, Seq<SExpr>),
    VarArgs,
    Grouping(Box<SExpr>),
    Table(Seq<SField>),
}

pub enum SStmt {
    LocalVar(Seq<char>, SExpr),
    Assign(SExpr, SExpr),
    If(SExpr, Seq<SStmt>, Seq<SStmt>),
    FunctionDef(Seq<char>, Seq<Seq<char>>, Seq<SStmt>),
    While(SExpr, Seq<SStmt>),
    Break,
    Return(Option<SExpr>),
    Expression(SExpr),
    ForNumeric(Seq<char>, SExpr, SExpr, Option<SExpr>),
    ForGeneric(Seq<Seq<char>>, Seq<SExpr>, Seq<SStmt>),
    Do,
}

pub enum SField {
    Dynamic(SExpr, SExpr),
    Named(Seq<char>, SExpr),
    List(SExpr),
}

/// The characters of each name.
pub open spec fn names_model(ns: Seq<String>) -> Seq<Seq<char>> {
    ns.map_values(|n: String| n@)
}

pub open spec fn expr_model(e: Expr) -> SExpr
    decreases e,
{
    match e {
        Expr::Number(s) => SExpr::Number(s@),
        Expr::String(s) => SExpr::Str(s@),
        Expr::Bool(b) => SExpr::Bool(b),
        Expr::Nil => SExpr::Nil,
        Expr::Identifier(s) => SExpr::Identifier(s@),
        Expr::BinaryOp { left, operator, right } => SExpr::BinaryOp(
            Box::new(expr_model(*left)),
            operator,
            Box::new(expr_model(*right)),
        ),
        Expr::UnaryOp { operator, argument } => SExpr::UnaryOp(
            operator,
            Box::new(expr_model(*argument)),
        ),
        Expr::Call { target, args } => SExpr::Call(
            Box::new(expr_model(*target)),
            exprs_model(args@),
        ),
        Expr::Index { target, key } => SExpr::Index(
            Box::new(expr_model(*target)),
            Box::new(expr_model(*key)),
        ),
        Expr::Function { params, body } => SExpr::Function(names_model(params@), stmts_model(body@)),
        Expr::LogicalOp { operator, argument } => SExpr::LogicalOp(
            operator,
            Box::new(expr_model(*argument)),
        ),
        Expr::MethodCall { target, method, args } => SExpr::MethodCall(
            Box::new(expr_model(*target)),
            method@,
            exprs_model(args@),
        ),
        Expr::VarArgs => SExpr::VarArgs,
        Expr::Grouping(inner) => SExpr::Grouping(Box::new(expr_model(*inner))),
        Expr::TableConstructor(fields) => SExpr::Table(fields_model(fields@)),
    }
}

pub open spec fn exprs_model(es: Seq<Expr>) -> Seq<SExpr>
    decreases es,
{
    if es.len() == 0 {
        Seq::empty()
    } else {
        exprs_model(es.drop_last()).push(expr_model(es.last()))
    }
}

pub open spec fn stmt_model(s: Statement) -> SStmt
    decreases s,
{
    match s {
        Statement::LocalVar(n, e) => SStmt::LocalVar(n@, expr_model(e)),
        Statement::Assign(l, r) => SStmt::Assign(expr_model(l), expr_model(r)),
        Statement::If { condition, then_block, else_block } => SStmt::If(
            expr_model(condition),
            stmts_model(then_block@),
            stmts_model(else_block@),
        ),
        Statement::FunctionDef { name, params, body } => SStmt::FunctionDef(
            name@,
            names_model(params@),
            stmts_model(body@),
        ),
        Statement::While(c, b) => SStmt::While(expr_model(c), stmts_model(b@)),
        Statement::Break => SStmt::Break,
        Statement::Return(e) => SStmt::Return(
            match e {
                Some(x) => Some(expr_model(x)),
                None => None,
            },
        ),
        Statement::Expression(e) => SStmt::Expression(expr_model(e)),
        Statement::ForNumeric { counter, start, stop, step } => SStmt::ForNumeric(
            counter@,
            expr_model(start),
            expr_model(stop),
            match step {
                Some(x) => Some(expr_model(x)),
                None => None,
            },
        ),
        Statement::ForGeneric { vars, iterators, body } => SStmt::ForGeneric(
            names_model(vars@),
            exprs_model(iterators@),
            stmts_model(body@),
        ),
        Statement::Do => SStmt::Do,
    }
}

pub open spec fn stmts_model(ss: Seq<Statement>) -> Seq<SStmt>
    decreases ss,
{
    if ss.len() == 0 {
        Seq::empty()
    } else {
        stmts_model(ss.drop_last()).push(stmt_model(ss.last()))
    }
}

pub open spec fn field_model(f: TableField) -> SField
    decreases f,
{
    match f {
        TableField::Dynamic { key, value } => SField::Dynamic(expr_model(key), expr_model(value)),
        TableField::Named { key, value } => SField::Named(key@, expr_model(value)),
        TableField::List(e) => SField::List(expr_model(e)),
    }
}

pub open spec fn fields_model(fs: Seq<TableField>) -> Seq<SField>
    decreases fs,
{
    if fs.len() == 0 {
        Seq::empty()
    } else {
        fields_model(fs.drop_last()).push(field_model(fs.last()))
    }
}

impl View for Expr {
    type V = SExpr;

    open spec fn view(&self) -> SExpr {
        expr_model(*self)
    }
}

impl View for Statement {
    type V = SStmt;

    open spec fn view(&self) -> SStmt {
        stmt_model(*self)
    }
}

impl View for TableField {
    type V = SField;

    open spec fn view(&self) -> SField {
        field_model(*self)
    }
}

/// How a binary operator applies to two values.
#[derive(Debug, Clone, Copy, PartialEq, Eq)]
pub enum BinaryPlan {
    /// Arithmetic (`+ - * / ^`) or a comparison (`> < == ~=`) of two numbers, which the
    /// host computes on their binary64 values.
    Numeric,
    /// `..`: the texts of the two values, one after the other.
    Concat,
    /// Any other operator or operands.
    Invalid,
}

/// Whether the operator is one that applies to two numbers.
pub open spec fn numeric_operator(op: TokenStream) -> bool {
    ||| op is Plus
    ||| op is Minus
    ||| op is Asterisk
    ||| op is Slash
    ||| op is Caret
    ||| op is Greater
    ||| op is Less
    ||| op is EqualEqual
    ||| op is NotEqual
}

pub open spec fn binary_plan_of(left: Value, op: TokenStream, right: Value) -> BinaryPlan {
    if left is Number && right is Number && numeric_operator(op) {
        BinaryPlan::Numeric
    } else if op is DotDot {
        BinaryPlan::Concat
    } else {
        BinaryPlan::Invalid
    }
}

/// Which rule applies to `left operator right`.
pub fn binary_plan(left: &Value, operator: &TokenStream, right: &Value) -> (p: BinaryPlan)
    ensures
        p == binary_plan_of(*left, *operator, *right),
{
    let numeric = match operator {
        TokenStream::Plus | TokenStream::Minus | TokenStream::Asterisk | TokenStream::Slash
        | TokenStream::Caret | TokenStream::Greater | TokenStream::Less | TokenStream::EqualEqual
        | TokenStream::NotEqual => true,
        _ => false,
    };
    let both_numbers = matches!(left, Value::Number(_)) && matches!(right, Value::Number(_));
    if both_numbers && numeric {
        BinaryPlan::Numeric
    } else if matches!(operator, TokenStream::DotDot) {
        BinaryPlan::Concat
    } else {
        BinaryPlan::Invalid
    }
}

/// Applies a binary operator where no arithmetic on numbers is involved: `..` joins the
/// texts of the operands, and an operator that does not apply gives an error whose message
/// holds the `Debug` texts of the three. The rows on two numbers, a number operand of `..`,
/// and a number in the message are binary64 work, which the caller does.
pub fn apply_binary_op(left: Value, operator: &TokenStream, right: Value) -> (r: Result<
    Value,
    RuntimeError,
>)
    requires
        binary_plan_of(left, *operator, right) != BinaryPlan::Numeric,
        binary_plan_of(left, *operator, right) == BinaryPlan::Concat ==> !(left is Number)
            && !(right is Number),
        binary_plan_of(left, *operator, right) == BinaryPlan::Invalid ==> !(*operator is Number)
            && !has_number(left) && !has_number(right),
    ensures
        binary_plan_of(left, *operator, right) == BinaryPlan::Concat ==> (r matches Ok(
            Value::String(s),
        ) && s@ == left.text() + right.text()),
        binary_plan_of(left, *operator, right) == BinaryPlan::Invalid ==> (r matches Err(
            RuntimeError::InvalidOperation(m),
        ) && m@ == operation_message(token_text(*operator), value_text(left), value_text(right))),
{
    match binary_plan(&left, operator, &right) {
        BinaryPlan::Concat => {
            let l = left.to_string();
            let r = right.to_string();
            Ok(Value::String(l.concat(r.as_str())))
        },
        _ => {
            let message = invalid_operation_message(
                &token_debug(operator),
                &value_debug(&left),
                &value_debug(&right),
            );
            Err(RuntimeError::InvalidOperation(message))
        },
    }
}

} // verus!
