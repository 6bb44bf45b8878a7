//! Which programs the compiler takes: executable versions of `expr_ok` and `stmts_ok`.
use vstd::prelude::*;

use crate::ast::{
    expr_model, exprs_model, field_model, fields_model, stmt_model, stmts_model, Expr, Statement,
    TableField,
};
use crate::compiler::{lemma_exprs_model, lemma_exprs_ok, lemma_fields_model, lemma_fields_ok,
    lemma_stmts_model, lemma_stmts_ok};
use crate::compiler_spec::{binary_opcode, expr_ok, exprs_ok, field_ok, fields_ok, stmt_ok, stmts_ok};
use crate::compiler::{compile_main, main_function};
use crate::parser::Program;
use crate::token::TokenStream;
use crate::values::{values_model, Function};

verus! {

/// Whether the compiler has an opcode for the binary operator.
pub fn operator_supported(t: &TokenStream) -> (b: bool)
    ensures
        b == binary_opcode(*t) is Some,
{
    match t {
        TokenStream::Plus | TokenStream::Minus | TokenStream::Asterisk | TokenStream::Slash
        | TokenStream::EqualEqual => true,
        _ => false,
    }
}

/// Whether the compiler takes the expression.
pub fn expr_supported(e: &Expr) -> (b: bool)
    ensures
        b == expr_ok(expr_model(*e)),
    decreases *e, 1nat,
{
    match e {
        Expr::Number(_) | Expr::String(_) | Expr::Bool(_) | Expr::Identifier(_) => true,
        Expr::BinaryOp { left, operator, right } => operator_supported(operator) && expr_supported(
            left,
        ) && expr_supported(right),
        Expr::UnaryOp { operator: _, argument } => expr_supported(argument),
        Expr::Call { target, args } => {
            proof {
                assert(decreases_to!(*e => args@));
            }
            expr_supported(target) && exprs_supported(args)
        },
        Expr::Index { target, key } => expr_supported(target) && expr_supported(key),
        Expr::TableConstructor(fields) => {
            proof {
                assert(decreases_to!(*e => fields@));
            }
            fields_supported(fields)
        },
        Expr::MethodCall { target, method: _, args } => {
            proof {
                assert(decreases_to!(*e => args@));
                lemma_exprs_model(args@);
            }
            expr_supported(target) && exprs_supported(args) && args.len() < usize::MAX
        },
        Expr::Function { params: _, body } => {
            proof {
                assert(decreases_to!(*e => body@));
            }
            stmts_supported(body.as_slice(), false, usize::MAX)
        },
        _ => false,
    }
}

/// Whether the compiler takes each of the expressions.
pub fn exprs_supported(es: &Vec<Expr>) -> (b: bool)
    ensures
        b == exprs_ok(exprs_model(es@)),
    decreases es@, 0nat,
{
    proof {
        lemma_exprs_model(es@);
        lemma_exprs_ok(exprs_model(es@));
    }
    let mut i: usize = 0;
    while i < es.len()
        invariant
            i <= es.len(),
            exprs_model(es@).len() == es@.len(),
            forall|j: int| 0 <= j < es@.len() ==> #[trigger] exprs_model(es@)[j] == expr_model(es@[j]),
            exprs_ok(exprs_model(es@)) <==> forall|j: int| 0 <= j < es@.len() ==> expr_ok(#[trigger] exprs_model(es@)[j]),
            forall|j: int| 0 <= j < i ==> expr_ok(#[trigger] exprs_model(es@)[j]),
        decreases es.len() - i,
    {
        assert(exprs_model(es@)[i as int] == expr_model(es@[i as int]));
        if !expr_supported(&es[i]) {
            return false;
        }
        i = i + 1;
    }
    true
}

/// Whether the compiler takes each of the table fields.
pub fn fields_supported(fs: &Vec<TableField>) -> (b: bool)
    ensures
        b == fields_ok(fields_model(fs@)),
    decreases fs@, 0nat,
{
    proof {
        lemma_fields_model(fs@);
        lemma_fields_ok(fields_model(fs@));
    }
    let mut i: usize = 0;
    while i < fs.len()
        invariant
            i <= fs.len(),
            fields_model(fs@).len() == fs@.len(),
            forall|j: int| 0 <= j < fs@.len() ==> #[trigger] fields_model(fs@)[j] == field_model(fs@[j]),
            fields_ok(fields_model(fs@)) <==> forall|j: int| 0 <= j < fs@.len() ==> field_ok(#[trigger] fields_model(fs@)[j]),
            forall|j: int| 0 <= j < i ==> field_ok(#[trigger] fields_model(fs@)[j]),
        decreases fs.len() - i,
    {
        assert(fields_model(fs@)[i as int] == field_model(fs@[i as int]));
        let ok = match &fs[i] {
            TableField::Dynamic { key, value } => expr_supported(key) && expr_supported(value),
            TableField::Named { key: _, value } => expr_supported(value),
            TableField::List(x) => expr_supported(x),
        };
        if !ok {
            return false;
        }
        i = i + 1;
    }
    true
}

/// Whether the compiler takes the statements, inside a loop or not, with `room` scope
/// levels left.
pub fn stmts_supported(ss: &[Statement], in_loop: bool, room: usize) -> (b: bool)
    ensures
        b == stmts_ok(stmts_model(ss@), in_loop, room as nat),
    decreases ss@, 0nat,
{
    proof {
        lemma_stmts_model(ss@);
        lemma_stmts_ok(stmts_model(ss@), in_loop, room as nat);
    }
    let mut i: usize = 0;
    while i < ss.len()
        invariant
            i <= ss.len(),
            stmts_model(ss@).len() == ss@.len(),
            forall|j: int| 0 <= j < ss@.len() ==> #[trigger] stmts_model(ss@)[j] == stmt_model(ss@[j]),
            stmts_ok(stmts_model(ss@), in_loop, room as nat) <==> forall|j: int| 0 <= j < ss@.len() ==> stmt_ok(#[trigger] stmts_model(ss@)[j], in_loop, room as nat),
            forall|j: int| 0 <= j < i ==> stmt_ok(#[trigger] stmts_model(ss@)[j], in_loop, room as nat),
        decreases ss.len() - i,
    {
        assert(stmts_model(ss@)[i as int] == stmt_model(ss@[i as int]));
        if !stmt_supported(&ss[i], in_loop, room) {
            return false;
        }
        i = i + 1;
    }
    true
}

/// Whether the compiler takes the statement.
pub fn stmt_supported(s: &Statement, in_loop: bool, room: usize) -> (b: bool)
    ensures
        b == stmt_ok(stmt_model(*s), in_loop, room as nat),
    decreases *s, 1nat,
{
    match s {
        Statement::Return(e) => match e {
            Some(x) => expr_supported(x),
            None => true,
        },
        Statement::Expression(e) => expr_supported(e),
        Statement::LocalVar(_, v) => expr_supported(v),
        Statement::Assign(left, right) => match left {
            Expr::Identifier(_) => expr_supported(right),
            Expr::Index { target, key } => expr_supported(target) && expr_supported(key)
                && expr_supported(right),
            _ => false,
        },
        Statement::FunctionDef { name: _, params: _, body } => {
            proof {
                assert(decreases_to!(*s => body@));
            }
            stmts_supported(body.as_slice(), false, usize::MAX)
        },
        Statement::If { condition, then_block, else_block } => {
            proof {
                assert(decreases_to!(*s => then_block@));
                assert(decreases_to!(*s => else_block@));
            }
            expr_supported(condition) && room > 0 && stmts_supported(
                then_block.as_slice(),
                in_loop,
                room - 1,
            ) && stmts_supported(else_block.as_slice(), in_loop, room - 1)
        },
        Statement::While(c, body) => {
            proof {
                assert(decreases_to!(*s => body@));
            }
            expr_supported(c) && stmts_supported(body.as_slice(), true, room)
        },
        Statement::Break => in_loop,
        _ => false,
    }
}

/// Compiles a program into its main function, or gives `None` when the compiler does not
/// take it.
pub fn compile_program(program: &Program) -> (r: Option<Function>)
    ensures
        r is Some <==> stmts_ok(stmts_model(program.stmts@), false, usize::MAX as nat),
        r matches Some(f) ==> {
            &&& f.name@ == main_function(stmts_model(program.stmts@)).name
            &&& f.arity == 0
            &&& f.chunk.code@ == main_function(stmts_model(program.stmts@)).code
            &&& values_model(f.chunk.constants@) == main_function(stmts_model(program.stmts@)).consts
        },
{
    if stmts_supported(program.stmts.as_slice(), false, usize::MAX) {
        Some(compile_main(program.stmts.as_slice()))
    } else {
        None
    }
}

} // verus!
