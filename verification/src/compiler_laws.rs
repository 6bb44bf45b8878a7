//! What the compiler keeps: statements compile one after the other, and every jump it
//! emits lands inside the code.
use vstd::prelude::*;

use crate::ast::{SExpr, SField, SStmt};
use crate::compiler::{empty_state, main_function, OpCode};
use crate::compiler_spec::{
    begin, close_scope, compile_expr, compile_exprs, compile_field, compile_fields, compile_stmt,
    compile_stmts, emit, fresh_for, function_value, load_const, patch, patch_all, resolve, CState,
    SValue,
};

verus! {

/// Where a jump goes; 0 for any other opcode.
pub open spec fn jump_target(op: OpCode) -> int {
    match op {
        OpCode::Jump(t) => t as int,
        OpCode::JumpIfFalse(t) => t as int,
        _ => 0,
    }
}

/// Every jump at a position from `lo` on goes to a position of the code or just past its
/// end.
pub open spec fn targets_from(code: Seq<OpCode>, lo: int) -> bool {
    forall|i: int| lo <= i < code.len() && 0 <= i ==> jump_target(#[trigger] code[i]) <= code.len()
}

/// Every jump of the code goes to a position of the code or just past its end.
pub open spec fn targets_in_code(code: Seq<OpCode>) -> bool {
    targets_from(code, 0)
}

proof fn lemma_push(code: Seq<OpCode>, op: OpCode, lo: int)
    requires
        targets_from(code, lo),
        jump_target(op) <= code.len() + 1,
    ensures
        targets_from(code.push(op), lo),
{
    assert forall|i: int| lo <= i < code.push(op).len() && 0 <= i implies jump_target(
        #[trigger] code.push(op)[i],
    ) <= code.push(op).len() by {
        if i < code.len() {
            assert(code.push(op)[i] == code[i]);
        }
    }
}

proof fn lemma_close_scope_targets(st: CState, lo: int)
    requires
        targets_from(st.code, lo),
    ensures
        targets_from(close_scope(st).code, lo),
    decreases st.locals.len(),
{
    if st.locals.len() > 0 && st.locals.last().1 == st.depth {
        lemma_push(st.code, OpCode::Pop, lo);
        lemma_close_scope_targets(
            CState { code: st.code.push(OpCode::Pop), locals: st.locals.drop_last(), ..st },
            lo,
        );
    }
}

proof fn lemma_patch_targets(st: CState, off: int, lo: int)
    requires
        targets_from(st.code, lo),
    ensures
        targets_from(patch(st, off).code, lo),
{
    let c = patch(st, off).code;
    assert forall|i: int| lo <= i < c.len() && 0 <= i implies jump_target(#[trigger] c[i]) <= c.len() by {
        if i != off {
            assert(c[i] == st.code[i]);
        }
    }
}

proof fn lemma_patch_all_targets(st: CState, offs: Seq<nat>, lo: int)
    requires
        targets_from(st.code, lo),
    ensures
        targets_from(patch_all(st, offs).code, lo),
    decreases offs.len(),
{
    if offs.len() > 0 {
        lemma_patch_all_targets(st, offs.drop_last(), lo);
        lemma_patch_targets(patch_all(st, offs.drop_last()), offs.last() as int, lo);
    }
}

proof fn lemma_expr_targets(st: CState, e: SExpr, lo: int)
    requires
        targets_from(st.code, lo),
    ensures
        targets_from(compile_expr(st, e).code, lo),
    decreases e, 1nat,
{
    match e {
        SExpr::Number(n) => lemma_push(st.code, OpCode::LoadConst(st.consts.len() as usize), lo),
        SExpr::Str(s) => lemma_push(st.code, OpCode::LoadConst(st.consts.len() as usize), lo),
        SExpr::Bool(b) => lemma_push(st.code, OpCode::LoadConst(st.consts.len() as usize), lo),
        SExpr::BinaryOp(l, op, r) => {
            lemma_expr_targets(st, *l, lo);
            let s1 = compile_expr(st, *l);
            lemma_expr_targets(s1, *r, lo);
            let s2 = compile_expr(s1, *r);
            lemma_push(s2.code, OpCode::Add, lo);
            lemma_push(s2.code, OpCode::Subtract, lo);
            lemma_push(s2.code, OpCode::Multiply, lo);
            lemma_push(s2.code, OpCode::Divide, lo);
            lemma_push(s2.code, OpCode::Eq, lo);
        },
        SExpr::UnaryOp(_, a) => lemma_expr_targets(st, *a, lo),
        SExpr::Identifier(id) => {
            lemma_push(st.code, OpCode::LoadGlobal(st.consts.len() as usize), lo);
            match crate::compiler_spec::resolve(st.locals, id) {
                Some(i) => lemma_push(st.code, OpCode::LoadLocal(i as usize), lo),
                None => {},
            }
        },
        SExpr::Call(target, args) => {
            lemma_expr_targets(st, *target, lo);
            lemma_exprs_targets(compile_expr(st, *target), args, lo);
            lemma_push(
                compile_exprs(compile_expr(st, *target), args).code,
                OpCode::Call(args.len() as usize),
            lo,
            );
        },
        SExpr::Index(target, key) => {
            lemma_expr_targets(st, *target, lo);
            lemma_expr_targets(compile_expr(st, *target), *key, lo);
            lemma_push(
                compile_expr(compile_expr(st, *target), *key).code,
                OpCode::GetTable(0),
            lo,
            );
        },
        SExpr::Table(fields) => {
            lemma_push(st.code, OpCode::NewTable(fields.len() as usize), lo);
            lemma_fields_targets(emit(st, OpCode::NewTable(fields.len() as usize)), fields, lo);
        },
        SExpr::MethodCall(target, method, args) => {
            lemma_expr_targets(st, *target, lo);
            let s0 = compile_expr(st, *target);
            lemma_push(s0.code, OpCode::Dup, lo);
            let s1 = emit(s0, OpCode::Dup);
            lemma_push(s1.code, OpCode::LoadConst(s1.consts.len() as usize), lo);
            let s1b = load_const(s1, SValue::Str(method));
            lemma_push(s1b.code, OpCode::GetTable(0), lo);
            lemma_push(emit(s1b, OpCode::GetTable(0)).code, OpCode::Swap, lo);
            let s2 = emit(emit(s1b, OpCode::GetTable(0)), OpCode::Swap);
            lemma_exprs_targets(s2, args, lo);
            lemma_push(compile_exprs(s2, args).code, OpCode::Call((args.len() + 1) as usize), lo);
        },
        SExpr::Function(params, body) => {
            lemma_push(st.code, OpCode::LoadConst(st.consts.len() as usize), lo);
        },
        _ => {},
    }
}

proof fn lemma_exprs_targets(st: CState, es: Seq<SExpr>, lo: int)
    requires
        targets_from(st.code, lo),
    ensures
        targets_from(compile_exprs(st, es).code, lo),
    decreases es, 0nat,
{
    if es.len() > 0 {
        lemma_exprs_targets(st, es.drop_last(), lo);
        lemma_expr_targets(compile_exprs(st, es.drop_last()), es.last(), lo);
    }
}

proof fn lemma_field_targets(st: CState, f: SField, lo: int)
    requires
        targets_from(st.code, lo),
    ensures
        targets_from(compile_field(st, f).code, lo),
    decreases f, 1nat,
{
    match f {
        SField::Dynamic(k, v) => {
            lemma_expr_targets(st, k, lo);
            lemma_expr_targets(compile_expr(st, k), v, lo);
            lemma_push(compile_expr(compile_expr(st, k), v).code, OpCode::SetTable(0), lo);
        },
        SField::Named(k, v) => {
            lemma_push(st.code, OpCode::LoadConst(st.consts.len() as usize), lo);
            let s1 = load_const(st, SValue::Str(k));
            lemma_expr_targets(s1, v, lo);
            lemma_push(compile_expr(s1, v).code, OpCode::SetTable(0), lo);
        },
        SField::List(x) => {
            lemma_expr_targets(st, x, lo);
            lemma_push(compile_expr(st, x).code, OpCode::SetTable(0), lo);
        },
    }
}

proof fn lemma_fields_targets(st: CState, fs: Seq<SField>, lo: int)
    requires
        targets_from(st.code, lo),
    ensures
        targets_from(compile_fields(st, fs).code, lo),
    decreases fs, 0nat,
{
    if fs.len() > 0 {
        lemma_fields_targets(st, fs.drop_last(), lo);
        lemma_field_targets(compile_fields(st, fs.drop_last()), fs.last(), lo);
    }
}

pub(crate) proof fn lemma_stmts_targets(st: CState, ss: Seq<SStmt>, lo: int)
    requires
        targets_from(st.code, lo),
    ensures
        targets_from(compile_stmts(st, ss).code, lo),
    decreases ss, 0nat,
{
    if ss.len() > 0 {
        lemma_stmts_targets(st, ss.drop_last(), lo);
        lemma_stmt_targets(compile_stmts(st, ss.drop_last()), ss.last(), lo);
    }
}

proof fn lemma_stmt_targets(st: CState, s: SStmt, lo: int)
    requires
        targets_from(st.code, lo),
    ensures
        targets_from(compile_stmt(st, s).code, lo),
    decreases s, 1nat,
{
    match s {
        SStmt::Return(e) => {
            match e {
                Some(x) => {
                    lemma_expr_targets(st, x, lo);
                    lemma_push(compile_expr(st, x).code, OpCode::Return, lo);
                },
                None => {
                    lemma_push(st.code, OpCode::LoadConst(st.consts.len() as usize), lo);
                    lemma_push(load_const(st, SValue::Nil).code, OpCode::Return, lo);
                },
            }
        },
        SStmt::Expression(e) => {
            lemma_expr_targets(st, e, lo);
            lemma_push(compile_expr(st, e).code, OpCode::Pop, lo);
        },
        SStmt::LocalVar(name, value) => {
            lemma_expr_targets(st, value, lo);
            let s1 = compile_expr(st, value);
            lemma_push(s1.code, OpCode::SetLocal(s1.locals.len() as usize), lo);
        },
        SStmt::Assign(left, right) => match left {
            SExpr::Identifier(name) => {
                lemma_expr_targets(st, right, lo);
                let s1 = compile_expr(st, right);
                lemma_push(s1.code, OpCode::SetGlobal(s1.consts.len() as usize), lo);
                match crate::compiler_spec::resolve(s1.locals, name) {
                    Some(i) => lemma_push(s1.code, OpCode::SetLocal(i as usize), lo),
                    None => {},
                }
            },
            SExpr::Index(target, key) => {
                lemma_expr_targets(st, *target, lo);
                let s1 = compile_expr(st, *target);
                lemma_expr_targets(s1, *key, lo);
                let s2 = compile_expr(s1, *key);
                lemma_expr_targets(s2, right, lo);
                lemma_push(compile_expr(s2, right).code, OpCode::SetTable(0), lo);
            },
            _ => {},
        },
        SStmt::FunctionDef(name, params, body) => {
            lemma_push(st.code, OpCode::LoadConst(st.consts.len() as usize), lo);
            let s1 = load_const(st, function_value(name, params, body));
            lemma_push(s1.code, OpCode::SetGlobal(s1.consts.len() as usize), lo);
        },
        SStmt::If(c, t, e) => {
            lemma_expr_targets(st, c, lo);
            let s1 = compile_expr(st, c);
            lemma_push(s1.code, OpCode::JumpIfFalse(0), lo);
            let s2 = begin(emit(s1, OpCode::JumpIfFalse(0)));
            lemma_stmts_targets(s2, t, lo);
            lemma_close_scope_targets(compile_stmts(s2, t), lo);
            let s3 = close_scope(compile_stmts(s2, t));
            lemma_patch_targets(s3, s1.code.len() as int, lo);
            lemma_push(s3.code, OpCode::Jump(0), lo);
            let s4 = patch(emit(s3, OpCode::Jump(0)), s1.code.len() as int);
            lemma_patch_targets(emit(s3, OpCode::Jump(0)), s1.code.len() as int, lo);
            lemma_stmts_targets(begin(s4), e, lo);
            lemma_close_scope_targets(compile_stmts(begin(s4), e), lo);
            lemma_patch_targets(close_scope(compile_stmts(begin(s4), e)), s3.code.len() as int, lo);
        },
        SStmt::While(c, body) => {
            let st0 = CState { loops: st.loops.push(Seq::empty()), ..st };
            lemma_expr_targets(st0, c, lo);
            let s1 = compile_expr(st0, c);
            lemma_push(s1.code, OpCode::JumpIfFalse(0), lo);
            lemma_stmts_targets(emit(s1, OpCode::JumpIfFalse(0)), body, lo);
            let s2 = compile_stmts(emit(s1, OpCode::JumpIfFalse(0)), body);
            lemma_code_grows_expr(st0, c);
            lemma_code_grows_stmts(emit(s1, OpCode::JumpIfFalse(0)), body);
            lemma_push(s2.code, OpCode::Jump(st.code.len() as usize), lo);
            let s3 = patch(emit(s2, OpCode::Jump(st.code.len() as usize)), s1.code.len() as int);
            lemma_patch_targets(emit(s2, OpCode::Jump(st.code.len() as usize)), s1.code.len() as int, lo);
            lemma_patch_all_targets(CState { loops: s3.loops.drop_last(), ..s3 }, s3.loops.last(), lo);
        },
        SStmt::Break => {
            lemma_push(st.code, OpCode::Jump(0), lo);
        },
        _ => {},
    }
}

/// Compiling only adds code.
pub(crate) proof fn lemma_code_grows_expr(st: CState, e: SExpr)
    ensures
        compile_expr(st, e).code.len() >= st.code.len(),
    decreases e, 1nat,
{
    match e {
        SExpr::BinaryOp(l, _, r) => {
            lemma_code_grows_expr(st, *l);
            lemma_code_grows_expr(compile_expr(st, *l), *r);
        },
        SExpr::UnaryOp(_, a) => lemma_code_grows_expr(st, *a),
        SExpr::Call(target, args) => {
            lemma_code_grows_expr(st, *target);
            lemma_code_grows_exprs(compile_expr(st, *target), args);
        },
        SExpr::Index(target, key) => {
            lemma_code_grows_expr(st, *target);
            lemma_code_grows_expr(compile_expr(st, *target), *key);
        },
        SExpr::Table(fields) => {
            lemma_code_grows_fields(emit(st, OpCode::NewTable(fields.len() as usize)), fields);
        },
        SExpr::MethodCall(target, method, args) => {
            lemma_code_grows_expr(st, *target);
            let s1 = emit(compile_expr(st, *target), OpCode::Dup);
            let s2 = emit(emit(load_const(s1, SValue::Str(method)), OpCode::GetTable(0)), OpCode::Swap);
            lemma_code_grows_exprs(s2, args);
        },
        _ => {},
    }
}

pub(crate) proof fn lemma_code_grows_exprs(st: CState, es: Seq<SExpr>)
    ensures
        compile_exprs(st, es).code.len() >= st.code.len(),
    decreases es, 0nat,
{
    if es.len() > 0 {
        lemma_code_grows_exprs(st, es.drop_last());
        lemma_code_grows_expr(compile_exprs(st, es.drop_last()), es.last());
    }
}

pub(crate) proof fn lemma_code_grows_field(st: CState, f: SField)
    ensures
        compile_field(st, f).code.len() >= st.code.len(),
    decreases f, 1nat,
{
    match f {
        SField::Dynamic(k, v) => {
            lemma_code_grows_expr(st, k);
            lemma_code_grows_expr(compile_expr(st, k), v);
        },
        SField::Named(k, v) => lemma_code_grows_expr(load_const(st, SValue::Str(k)), v),
        SField::List(x) => lemma_code_grows_expr(st, x),
    }
}

pub(crate) proof fn lemma_code_grows_fields(st: CState, fs: Seq<SField>)
    ensures
        compile_fields(st, fs).code.len() >= st.code.len(),
    decreases fs, 0nat,
{
    if fs.len() > 0 {
        lemma_code_grows_fields(st, fs.drop_last());
        lemma_code_grows_field(compile_fields(st, fs.drop_last()), fs.last());
    }
}

pub(crate) proof fn lemma_code_grows_stmts(st: CState, ss: Seq<SStmt>)
    ensures
        compile_stmts(st, ss).code.len() >= st.code.len(),
    decreases ss, 0nat,
{
    if ss.len() > 0 {
        lemma_code_grows_stmts(st, ss.drop_last());
        lemma_code_grows_stmt(compile_stmts(st, ss.drop_last()), ss.last());
    }
}

pub(crate) proof fn lemma_code_grows_stmt(st: CState, s: SStmt)
    ensures
        compile_stmt(st, s).code.len() >= st.code.len(),
    decreases s, 1nat,
{
    match s {
        SStmt::Return(e) => match e {
            Some(x) => lemma_code_grows_expr(st, x),
            None => {},
        },
        SStmt::Expression(e) => lemma_code_grows_expr(st, e),
        SStmt::LocalVar(_, value) => lemma_code_grows_expr(st, value),
        SStmt::Assign(left, right) => match left {
            SExpr::Identifier(_) => lemma_code_grows_expr(st, right),
            SExpr::Index(target, key) => {
                lemma_code_grows_expr(st, *target);
                let s1 = compile_expr(st, *target);
                lemma_code_grows_expr(s1, *key);
                lemma_code_grows_expr(compile_expr(s1, *key), right);
            },
            _ => {},
        },
        SStmt::If(c, t, e) => {
            lemma_code_grows_expr(st, c);
            let s1 = compile_expr(st, c);
            let s2 = begin(emit(s1, OpCode::JumpIfFalse(0)));
            lemma_code_grows_stmts(s2, t);
            crate::compiler::lemma_close_scope(compile_stmts(s2, t));
            let s3 = close_scope(compile_stmts(s2, t));
            let s4 = patch(emit(s3, OpCode::Jump(0)), s1.code.len() as int);
            lemma_code_grows_stmts(begin(s4), e);
            crate::compiler::lemma_close_scope(compile_stmts(begin(s4), e));
        },
        SStmt::While(c, body) => {
            let st0 = CState { loops: st.loops.push(Seq::empty()), ..st };
            lemma_code_grows_expr(st0, c);
            let s1 = compile_expr(st0, c);
            lemma_code_grows_stmts(emit(s1, OpCode::JumpIfFalse(0)), body);
            let s2 = compile_stmts(emit(s1, OpCode::JumpIfFalse(0)), body);
            let s3 = patch(emit(s2, OpCode::Jump(st.code.len() as usize)), s1.code.len() as int);
            crate::compiler::lemma_patch_all(CState { loops: s3.loops.drop_last(), ..s3 }, s3.loops.last());
        },
        _ => {},
    }
}

/// Every local variable was declared at the given depth or an outer one.
pub open spec fn locals_within(locals: Seq<(Seq<char>, nat)>, depth: nat) -> bool {
    forall|i: int| 0 <= i < locals.len() ==> (#[trigger] locals[i]).1 <= depth
}

/// `b` holds the locals of `a`, followed by locals declared at `a`'s depth.
pub open spec fn keeps_locals(a: CState, b: CState) -> bool {
    &&& b.depth == a.depth
    &&& a.locals.len() <= b.locals.len()
    &&& b.locals.subrange(0, a.locals.len() as int) == a.locals
    &&& forall|i: int| a.locals.len() <= i < b.locals.len() ==> (#[trigger] b.locals[i]).1 == a.depth
}

proof fn lemma_keeps_locals_trans(a: CState, b: CState, c: CState)
    requires
        keeps_locals(a, b),
        keeps_locals(b, c),
    ensures
        keeps_locals(a, c),
{
    assert(c.locals.subrange(0, a.locals.len() as int) =~= b.locals.subrange(
        0,
        a.locals.len() as int,
    )) by {
        assert forall|i: int| 0 <= i < a.locals.len() implies c.locals[i] == b.locals[i] by {
            assert(c.locals.subrange(0, b.locals.len() as int)[i] == b.locals[i]);
        }
    }
    assert forall|i: int| a.locals.len() <= i < c.locals.len() implies (
    #[trigger] c.locals[i]).1 == a.depth by {
        if i < b.locals.len() {
            assert(c.locals.subrange(0, b.locals.len() as int)[i] == b.locals[i]);
        }
    }
}

/// Leaving a scope whose own locals follow `base` removes exactly them.
proof fn lemma_close_scope_locals(st: CState, base: Seq<(Seq<char>, nat)>)
    requires
        base.len() <= st.locals.len(),
        st.locals.subrange(0, base.len() as int) == base,
        forall|i: int| base.len() <= i < st.locals.len() ==> (#[trigger] st.locals[i]).1 == st.depth,
        base.len() > 0 ==> base.last().1 < st.depth,
    ensures
        close_scope(st).locals == base,
        close_scope(st).depth == (st.depth - 1) as nat,
    decreases st.locals.len(),
{
    if st.locals.len() > 0 && st.locals.last().1 == st.depth {
        let next = CState { code: st.code.push(OpCode::Pop), locals: st.locals.drop_last(), ..st };
        if base.len() == st.locals.len() {
            assert(st.locals =~= base);
        }
        assert(next.locals.subrange(0, base.len() as int) =~= base);
        lemma_close_scope_locals(next, base);
    } else {
        if st.locals.len() > base.len() {
            assert(st.locals.last().1 == st.depth);
        }
        assert(st.locals =~= base);
    }
}

pub(crate) proof fn lemma_expr_locals(st: CState, e: SExpr)
    ensures
        compile_expr(st, e).locals == st.locals,
        compile_expr(st, e).depth == st.depth,
    decreases e, 1nat,
{
    match e {
        SExpr::BinaryOp(l, _, r) => {
            lemma_expr_locals(st, *l);
            lemma_expr_locals(compile_expr(st, *l), *r);
        },
        SExpr::UnaryOp(_, a) => lemma_expr_locals(st, *a),
        SExpr::Call(target, args) => {
            lemma_expr_locals(st, *target);
            lemma_exprs_locals(compile_expr(st, *target), args);
        },
        SExpr::Index(target, key) => {
            lemma_expr_locals(st, *target);
            lemma_expr_locals(compile_expr(st, *target), *key);
        },
        SExpr::Table(fields) => {
            lemma_fields_locals(emit(st, OpCode::NewTable(fields.len() as usize)), fields);
        },
        SExpr::MethodCall(target, method, args) => {
            lemma_expr_locals(st, *target);
            let s1 = emit(compile_expr(st, *target), OpCode::Dup);
            let s2 = emit(emit(load_const(s1, SValue::Str(method)), OpCode::GetTable(0)), OpCode::Swap);
            lemma_exprs_locals(s2, args);
        },
        _ => {},
    }
}

pub(crate) proof fn lemma_exprs_locals(st: CState, es: Seq<SExpr>)
    ensures
        compile_exprs(st, es).locals == st.locals,
        compile_exprs(st, es).depth == st.depth,
    decreases es, 0nat,
{
    if es.len() > 0 {
        lemma_exprs_locals(st, es.drop_last());
        lemma_expr_locals(compile_exprs(st, es.drop_last()), es.last());
    }
}

pub(crate) proof fn lemma_field_locals(st: CState, f: SField)
    ensures
        compile_field(st, f).locals == st.locals,
        compile_field(st, f).depth == st.depth,
    decreases f, 1nat,
{
    match f {
        SField::Dynamic(k, v) => {
            lemma_expr_locals(st, k);
            lemma_expr_locals(compile_expr(st, k), v);
        },
        SField::Named(k, v) => lemma_expr_locals(load_const(st, SValue::Str(k)), v),
        SField::List(x) => lemma_expr_locals(st, x),
    }
}

pub(crate) proof fn lemma_fields_locals(st: CState, fs: Seq<SField>)
    ensures
        compile_fields(st, fs).locals == st.locals,
        compile_fields(st, fs).depth == st.depth,
    decreases fs, 0nat,
{
    if fs.len() > 0 {
        lemma_fields_locals(st, fs.drop_last());
        lemma_field_locals(compile_fields(st, fs.drop_last()), fs.last());
    }
}

proof fn lemma_stmts_locals(st: CState, ss: Seq<SStmt>)
    requires
        locals_within(st.locals, st.depth),
    ensures
        keeps_locals(st, compile_stmts(st, ss)),
    decreases ss, 0nat,
{
    if ss.len() == 0 {
        assert(st.locals.subrange(0, st.locals.len() as int) =~= st.locals);
    } else {
        lemma_stmts_locals(st, ss.drop_last());
        let mid = compile_stmts(st, ss.drop_last());
        assert forall|i: int| 0 <= i < mid.locals.len() implies (#[trigger] mid.locals[i]).1
            <= mid.depth by {
            if i < st.locals.len() {
                assert(mid.locals.subrange(0, st.locals.len() as int)[i] == mid.locals[i]);
            }
        }
        lemma_stmt_locals(mid, ss.last());
        lemma_keeps_locals_trans(st, mid, compile_stmts(st, ss));
    }
}

proof fn lemma_stmt_locals(st: CState, s: SStmt)
    requires
        locals_within(st.locals, st.depth),
    ensures
        keeps_locals(st, compile_stmt(st, s)),
        s is If ==> compile_stmt(st, s).locals == st.locals,
    decreases s, 1nat,
{
    assert(st.locals.subrange(0, st.locals.len() as int) =~= st.locals);
    match s {
        SStmt::Return(e) => match e {
            Some(x) => lemma_expr_locals(st, x),
            None => {},
        },
        SStmt::Expression(e) => lemma_expr_locals(st, e),
        SStmt::LocalVar(name, value) => {
            lemma_expr_locals(st, value);
            let r = compile_stmt(st, s);
            assert(r.locals.subrange(0, st.locals.len() as int) =~= st.locals);
        },
        SStmt::Assign(left, right) => match left {
            SExpr::Identifier(_) => lemma_expr_locals(st, right),
            SExpr::Index(target, key) => {
                lemma_expr_locals(st, *target);
                let s1 = compile_expr(st, *target);
                lemma_expr_locals(s1, *key);
                lemma_expr_locals(compile_expr(s1, *key), right);
            },
            _ => {},
        },
        SStmt::If(c, t, e) => {
            lemma_expr_locals(st, c);
            let s1 = compile_expr(st, c);
            let s2 = begin(emit(s1, OpCode::JumpIfFalse(0)));
            assert(locals_within(s2.locals, s2.depth));
            lemma_stmts_locals(s2, t);
            lemma_close_scope_locals(compile_stmts(s2, t), st.locals);
            let s3 = close_scope(compile_stmts(s2, t));
            let s4 = patch(emit(s3, OpCode::Jump(0)), s1.code.len() as int);
            crate::compiler::lemma_patch(emit(s3, OpCode::Jump(0)), s1.code.len() as int);
            crate::compiler::lemma_patch(s3, s1.code.len() as int);
            lemma_stmts_locals(begin(s4), e);
            lemma_close_scope_locals(compile_stmts(begin(s4), e), st.locals);
            crate::compiler::lemma_patch(close_scope(compile_stmts(begin(s4), e)), s3.code.len() as int);
        },
        SStmt::While(c, body) => {
            let st0 = CState { loops: st.loops.push(Seq::empty()), ..st };
            lemma_expr_locals(st0, c);
            let s1 = compile_expr(st0, c);
            lemma_stmts_locals(emit(s1, OpCode::JumpIfFalse(0)), body);
            let s2 = compile_stmts(emit(s1, OpCode::JumpIfFalse(0)), body);
            let s3 = patch(emit(s2, OpCode::Jump(st.code.len() as usize)), s1.code.len() as int);
            crate::compiler::lemma_patch(emit(s2, OpCode::Jump(st.code.len() as usize)), s1.code.len() as int);
            crate::compiler::lemma_patch_all(CState { loops: s3.loops.drop_last(), ..s3 }, s3.loops.last());
        },
        _ => {},
    }
}

/// The locals declared in the branches of an `if` end with it: after an `if`, the
/// compiler has the locals it had before.
pub proof fn law_if_keeps_locals(st: CState, c: SExpr, t: Seq<SStmt>, e: Seq<SStmt>)
    requires
        locals_within(st.locals, st.depth),
    ensures
        compile_stmt(st, SStmt::If(c, t, e)).locals == st.locals,
        compile_stmt(st, SStmt::If(c, t, e)).depth == st.depth,
{
    lemma_stmt_locals(st, SStmt::If(c, t, e));
}

/// Compiling statements keeps the locals there were and the scope depth; the locals it
/// adds are declared at that depth.
pub proof fn law_stmts_keep_locals(st: CState, ss: Seq<SStmt>)
    requires
        locals_within(st.locals, st.depth),
    ensures
        keeps_locals(st, compile_stmts(st, ss)),
{
    lemma_stmts_locals(st, ss);
}

/// Every jump in the main function of a program goes to a position of its code or
/// just past its end.
pub proof fn law_main_jumps_in_code(ss: Seq<SStmt>)
    ensures
        targets_in_code(main_function(ss).code),
{
    lemma_stmts_targets(empty_state(), ss, 0);
    lemma_push(compile_stmts(empty_state(), ss).code, OpCode::Return, 0);
}

/// Every jump in a compiled function goes to a position of its code or just past its end.
pub proof fn law_function_jumps_in_code(name: Seq<char>, params: Seq<Seq<char>>, body: Seq<SStmt>)
    ensures
        function_value(name, params, body) matches SValue::Function(f) && targets_in_code(f.code),
{
    let st = compile_stmts(fresh_for(params), body);
    lemma_stmts_targets(fresh_for(params), body, 0);
    lemma_push(st.code, OpCode::LoadConst(st.consts.len() as usize), 0);
    lemma_push(load_const(st, SValue::Nil).code, OpCode::Return, 0);
}

/// Compiling two runs of statements one after the other is compiling the run that joins
/// them.
pub proof fn law_compile_stmts_append(st: CState, a: Seq<SStmt>, b: Seq<SStmt>)
    ensures
        compile_stmts(st, a + b) == compile_stmts(compile_stmts(st, a), b),
    decreases b.len(),
{
    if b.len() == 0 {
        assert(a + b =~= a);
    } else {
        law_compile_stmts_append(st, a, b.drop_last());
        assert((a + b).drop_last() =~= a + b.drop_last());
        assert((a + b).last() == b.last());
    }
}


/// A name resolves to the most recently declared local of that name: the slot it gives
/// holds that name and no later local does; with no local of that name it gives none.
pub proof fn law_resolve_most_recent(locals: Seq<(Seq<char>, nat)>, name: Seq<char>)
    ensures
        match resolve(locals, name) {
            Some(i) => i < locals.len() && locals[i as int].0 == name && forall|j: int|
                i < j < locals.len() ==> (#[trigger] locals[j]).0 != name,
            None => forall|j: int| 0 <= j < locals.len() ==> (#[trigger] locals[j]).0 != name,
        },
    decreases locals.len(),
{
    if locals.len() > 0 && locals.last().0 != name {
        let rest = locals.drop_last();
        law_resolve_most_recent(rest, name);
        assert forall|j: int| 0 <= j < rest.len() implies #[trigger] locals[j] == rest[j] by {}
    }
}

/// A name in an expression reads the local at slot `i` when `i` is the last slot that
/// holds that name.
pub proof fn law_identifier_reads_latest(st: CState, name: Seq<char>, i: int)
    requires
        0 <= i < st.locals.len(),
        st.locals[i].0 == name,
        forall|j: int| i < j < st.locals.len() ==> (#[trigger] st.locals[j]).0 != name,
    ensures
        compile_expr(st, SExpr::Identifier(name)) == emit(st, OpCode::LoadLocal(i as usize)),
{
    law_resolve_most_recent(st.locals, name);
}

/// A name that no local holds reads the global of that name, through a new string
/// constant.
pub proof fn law_identifier_reads_global(st: CState, name: Seq<char>)
    requires
        forall|j: int| 0 <= j < st.locals.len() ==> (#[trigger] st.locals[j]).0 != name,
    ensures
        compile_expr(st, SExpr::Identifier(name)) == (CState {
            code: st.code.push(OpCode::LoadGlobal(st.consts.len() as usize)),
            consts: st.consts.push(SValue::Str(name)),
            ..st
        }),
{
    law_resolve_most_recent(st.locals, name);
}

/// A `local` declaration shadows every earlier local of the same name: right after it,
/// the name reads the slot it has just filled.
pub proof fn law_local_shadows(st: CState, name: Seq<char>, value: SExpr)
    ensures
        ({
            let s1 = compile_expr(st, value);
            compile_expr(compile_stmt(st, SStmt::LocalVar(name, value)), SExpr::Identifier(name)).code
                == s1.code.push(OpCode::SetLocal(s1.locals.len() as usize)).push(
                OpCode::LoadLocal(s1.locals.len() as usize),
            )
        }),
{
    let s1 = compile_expr(st, value);
    let s2 = compile_stmt(st, SStmt::LocalVar(name, value));
    assert(s2.locals == s1.locals.push((name, s1.depth)));
    assert(s2.locals.last().0 == name);
}

} // verus!
